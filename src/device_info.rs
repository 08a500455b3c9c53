//! A readable name for a client device, from its sysfs attributes.

use vstd::prelude::*;
use crate::os_release::{split_lines, str_eq, trim, trimmed};

verus! {

/// The key, with its `=`, of the uevent line that names a device's
/// compatible string.
pub open spec fn compatible_key() -> Seq<char> {
    "OF_COMPATIBLE_0="@
}

/// `l` without one trailing carriage return.
pub open spec fn without_cr(l: Seq<char>) -> Seq<char> {
    if l.len() > 0 && l.last() == '\r' {
        l.drop_last()
    } else {
        l
    }
}

/// The text of `s` before its first `c`, or all of `s`.
pub open spec fn before_first(s: Seq<char>, c: char) -> Seq<char>
    decreases s.len(),
{
    if s.len() == 0 {
        s
    } else if s[0] == c {
        Seq::empty()
    } else {
        seq![s[0]] + before_first(s.drop_first(), c)
    }
}

/// The text of `s` after its last `c`, or all of `s`.
pub open spec fn after_last(s: Seq<char>, c: char) -> Seq<char>
    decreases s.len(),
{
    if s.len() == 0 {
        s
    } else if s.last() == c {
        Seq::empty()
    } else {
        after_last(s.drop_last(), c).push(s.last())
    }
}

/// The line sets the compatible key.
pub open spec fn is_compatible_line(l: Seq<char>) -> bool {
    l.len() >= 16 && l.take(16) == compatible_key()
}

/// The device name that a compatible line gives: the last comma-separated
/// part of its value (`rockchip,rk808` gives `rk808`).
pub open spec fn compatible_name(l: Seq<char>) -> Seq<char> {
    after_last(l.skip(16), ',')
}

/// The name that the first compatible line of `lines` gives.
pub open spec fn first_compatible_name(lines: Seq<Seq<char>>) -> Option<Seq<char>>
    decreases lines.len(),
{
    if lines.len() == 0 {
        None
    } else {
        let r = first_compatible_name(lines.drop_last());
        if r is Some {
            r
        } else if is_compatible_line(without_cr(lines.last())) {
            Some(compatible_name(without_cr(lines.last())))
        } else {
            None
        }
    }
}

/// The name reported where neither attribute names the device.
pub open spec fn unidentified() -> Seq<char> {
    "Unidentified"@
}

/// The name of a device, from the text of its `name` attribute if it could
/// be read, else from the text of its `uevent` attribute.
pub open spec fn device_name(name: Option<Seq<char>>, uevent: Option<Seq<char>>) -> Seq<char> {
    match name {
        Some(n) => trimmed(n),
        None => match uevent {
            Some(u) => match first_compatible_name(split_lines(u)) {
                Some(v) => v,
                None => unidentified(),
            },
            None => unidentified(),
        },
    }
}

pub(crate) fn before_first_exec(s: &str, c: char) -> (r: &str)
    ensures
        r@ == before_first(s@, c),
{
    let n = s.unicode_len();
    let mut i: usize = 0;
    assert(s@.skip(0) =~= s@);
    assert(s@.take(0) =~= Seq::<char>::empty());
    while i < n && s.get_char(i) != c
        invariant
            0 <= i <= n,
            n == s@.len(),
            before_first(s@, c) == s@.take(i as int) + before_first(s@.skip(i as int), c),
        decreases n - i,
    {
        assert(s@.skip(i as int).drop_first() =~= s@.skip(i + 1));
        assert(s@.take(i + 1) =~= s@.take(i as int) + seq![s@[i as int]]);
        i += 1;
    }
    if i == n {
        assert(s@.skip(i as int) =~= Seq::<char>::empty());
    }
    assert(s@.take(i as int) + before_first(s@.skip(i as int), c) =~= s@.take(i as int));
    let r = s.substring_char(0, i);
    assert(r@ =~= s@.take(i as int));
    r
}

fn after_last_exec(s: &str, c: char) -> (r: &str)
    ensures
        r@ == after_last(s@, c),
{
    let n = s.unicode_len();
    let mut j: usize = n;
    assert(s@.take(n as int) =~= s@);
    while j > 0 && s.get_char(j - 1) != c
        invariant
            0 <= j <= n,
            n == s@.len(),
            after_last(s@, c) == after_last(s@.take(j as int), c) + s@.subrange(j as int, n as int),
        decreases j,
    {
        assert(s@.take(j as int).drop_last() =~= s@.take(j - 1));
        assert(s@.subrange(j - 1, n as int) =~= seq![s@[j - 1]] + s@.subrange(j as int, n as int));
        assert(after_last(s@.take(j as int), c) == after_last(s@.take(j - 1), c).push(s@[j - 1]));
        assert(after_last(s@.take(j - 1), c).push(s@[j - 1]) + s@.subrange(j as int, n as int)
            =~= after_last(s@.take(j - 1), c) + s@.subrange(j - 1, n as int));
        j -= 1;
    }
    assert(after_last(s@.take(j as int), c) =~= Seq::<char>::empty());
    let r = s.substring_char(j, n);
    assert(after_last(s@, c) =~= r@);
    r
}

/// The name that `line` gives if it is a compatible line.
fn compatible_line_name(line: &str) -> (r: Option<String>)
    ensures
        match r {
            Some(v) => is_compatible_line(without_cr(line@)) && v@ == compatible_name(
                without_cr(line@),
            ),
            None => !is_compatible_line(without_cr(line@)),
        },
{
    let mut n = line.unicode_len();
    if n > 0 && line.get_char(n - 1) == '\r' {
        n = n - 1;
    }
    let l = line.substring_char(0, n);
    assert(l@ =~= without_cr(line@));
    if n < 16 {
        return None;
    }
    let key = l.substring_char(0, 16);
    assert(key@ =~= l@.take(16));
    if !str_eq(key, "OF_COMPATIBLE_0=") {
        return None;
    }
    let rest = l.substring_char(16, n);
    assert(rest@ =~= l@.skip(16));
    let v = after_last_exec(rest, ',');
    Some(String::from_str(v))
}

/// The name that the first compatible line of the uevent text `text` gives.
fn uevent_compatible_name(text: &str) -> (r: Option<String>)
    ensures
        match r {
            Some(v) => first_compatible_name(split_lines(text@)) == Some(v@),
            None => first_compatible_name(split_lines(text@)) is None,
        },
{
    let n = text.unicode_len();
    let mut found: Option<String> = None;
    let ghost mut done: Seq<Seq<char>> = Seq::empty();
    let mut start: usize = 0;
    let mut i: usize = 0;
    assert(text@.take(0) =~= Seq::<char>::empty());
    assert(done.push(text@.subrange(0, 0)) =~= seq![Seq::<char>::empty()]);
    while i < n
        invariant
            0 <= start <= i <= n,
            n == text@.len(),
            split_lines(text@.take(i as int)) == done.push(text@.subrange(start as int, i as int)),
            match found {
                Some(v) => first_compatible_name(done) == Some(v@),
                None => first_compatible_name(done) is None,
            },
        decreases n - i,
    {
        let c = text.get_char(i);
        assert(text@.take(i + 1).drop_last() =~= text@.take(i as int));
        if c == '\n' {
            let line = text.substring_char(start, i);
            if found.is_none() {
                found = compatible_line_name(line);
            }
            proof {
                assert(done.push(line@).drop_last() =~= done);
                done = done.push(line@);
                assert(text@.subrange(i + 1, i + 1) =~= Seq::<char>::empty());
            }
            start = i + 1;
        } else {
            proof {
                assert(text@.subrange(start as int, i + 1) =~= text@.subrange(
                    start as int,
                    i as int,
                ).push(c));
                assert(split_lines(text@.take(i + 1)) =~= done.push(
                    text@.subrange(start as int, i + 1),
                ));
            }
        }
        i += 1;
    }
    let line = text.substring_char(start, n);
    if found.is_none() {
        found = compatible_line_name(line);
    }
    proof {
        assert(text@.take(n as int) =~= text@);
        assert(done.push(line@).drop_last() =~= done);
    }
    found
}

/// A readable name for a client device from the text of its sysfs `name`
/// attribute (`None` where it could not be read) and of its `uevent`
/// attribute: the trimmed name if there is one, else the last comma segment
/// of the first `OF_COMPATIBLE_0` value, else `Unidentified`.
pub fn device_name_from_attributes(name: Option<&str>, uevent: Option<&str>) -> (r: String)
    ensures
        r@ == device_name(
            match name {
                Some(n) => Some(n@),
                None => None,
            },
            match uevent {
                Some(u) => Some(u@),
                None => None,
            },
        ),
{
    match name {
        Some(n) => String::from_str(trim(n)),
        None => {
            match uevent {
                Some(u) => {
                    match uevent_compatible_name(u) {
                        Some(v) => v,
                        None => String::from_str("Unidentified"),
                    }
                },
                None => String::from_str("Unidentified"),
            }
        },
    }
}

} // verus!
