//! Reading `KEY=value` lines of an os-release file.

use vstd::prelude::*;

verus! {

/// `c` has the Unicode White_Space property.
pub open spec fn is_white_space(c: char) -> bool {
    ('\u{9}' <= c && c <= '\u{d}') || c == ' ' || c == '\u{85}' || c == '\u{a0}' || c
        == '\u{1680}' || ('\u{2000}' <= c && c <= '\u{200a}') || c == '\u{2028}' || c
        == '\u{2029}' || c == '\u{202f}' || c == '\u{205f}' || c == '\u{3000}'
}

/// `s` without white space at its start.
pub open spec fn trim_front(s: Seq<char>) -> Seq<char>
    decreases s.len(),
{
    if s.len() > 0 && is_white_space(s[0]) {
        trim_front(s.drop_first())
    } else {
        s
    }
}

/// `s` without white space at its end.
pub open spec fn trim_back(s: Seq<char>) -> Seq<char>
    decreases s.len(),
{
    if s.len() > 0 && is_white_space(s.last()) {
        trim_back(s.drop_last())
    } else {
        s
    }
}

/// `s` without white space at either end.
pub open spec fn trimmed(s: Seq<char>) -> Seq<char> {
    trim_back(trim_front(s))
}

fn is_white_space_exec(c: char) -> (r: bool)
    ensures
        r == is_white_space(c),
{
    ('\u{9}' <= c && c <= '\u{d}') || c == ' ' || c == '\u{85}' || c == '\u{a0}' || c
        == '\u{1680}' || ('\u{2000}' <= c && c <= '\u{200a}') || c == '\u{2028}' || c
        == '\u{2029}' || c == '\u{202f}' || c == '\u{205f}' || c == '\u{3000}'
}

/// `s` without white space at either end.
pub(crate) fn trim(s: &str) -> (r: &str)
    ensures
        r@ == trimmed(s@),
{
    let n = s.unicode_len();
    let mut i: usize = 0;
    assert(s@.subrange(0, n as int) =~= s@);
    while i < n && is_white_space_exec(s.get_char(i))
        invariant
            0 <= i <= n,
            n == s@.len(),
            trim_front(s@) == trim_front(s@.subrange(i as int, n as int)),
        decreases n - i,
    {
        assert(s@.subrange(i as int, n as int).drop_first() =~= s@.subrange(i + 1, n as int));
        i += 1;
    }
    let ghost front = s@.subrange(i as int, n as int);
    assert(trim_front(s@) == front);
    let mut j: usize = n;
    while j > i && is_white_space_exec(s.get_char(j - 1))
        invariant
            i <= j <= n,
            n == s@.len(),
            front == s@.subrange(i as int, n as int),
            trim_back(front) == trim_back(s@.subrange(i as int, j as int)),
        decreases j,
    {
        assert(s@.subrange(i as int, j as int).drop_last() =~= s@.subrange(i as int, j - 1));
        j -= 1;
    }
    s.substring_char(i, j)
}

/// Relies on `std::io::Read::read_to_string`: the whole remaining input as
/// text, or `None` where reading fails or the input is not UTF-8.
#[verifier::external_body]
fn read_all<R: std::io::BufRead>(mut reader: R) -> (r: Option<String>) {
    let mut text = String::new();
    match reader.read_to_string(&mut text) {
        Ok(_) => Some(text),
        Err(_) => None,
    }
}

/// `s` without the characters `c` at its start.
pub open spec fn strip_front(s: Seq<char>, c: char) -> Seq<char>
    decreases s.len(),
{
    if s.len() > 0 && s[0] == c {
        strip_front(s.drop_first(), c)
    } else {
        s
    }
}

/// `s` without the characters `c` at its end.
pub open spec fn strip_back(s: Seq<char>, c: char) -> Seq<char>
    decreases s.len(),
{
    if s.len() > 0 && s.last() == c {
        strip_back(s.drop_last(), c)
    } else {
        s
    }
}

/// `s` without the characters `c` at either end.
pub open spec fn strip_char(s: Seq<char>, c: char) -> Seq<char> {
    strip_back(strip_front(s, c), c)
}

/// `p` is the position of the first `c` in `s`.
pub open spec fn first_index_of(s: Seq<char>, c: char, p: int) -> bool {
    &&& 0 <= p < s.len()
    &&& s[p] == c
    &&& forall|k: int| 0 <= k < p ==> s[k] != c
}

/// `s` split at each line feed; the last piece follows the last line feed.
pub open spec fn split_lines(s: Seq<char>) -> Seq<Seq<char>>
    decreases s.len(),
{
    if s.len() == 0 {
        seq![Seq::empty()]
    } else {
        let lines = split_lines(s.drop_last());
        if s.last() == '\n' {
            lines.push(Seq::empty())
        } else {
            lines.update(lines.len() - 1, lines.last().push(s.last()))
        }
    }
}

/// The key and value that one line sets: a trimmed line that is neither
/// empty nor a `#` comment and holds `=` sets the trimmed text before the
/// first `=` to the trimmed text after it, less surrounding double quotes and
/// then single quotes. Other lines set nothing.
pub open spec fn line_entry(line: Seq<char>) -> Option<(Seq<char>, Seq<char>)> {
    let t = trimmed(line);
    if t.len() == 0 || t[0] == '#' || !t.contains('=') {
        None
    } else {
        let p = choose|p: int| first_index_of(t, '=', p);
        Some(
            (
                trimmed(t.take(p)),
                strip_char(strip_char(trimmed(t.skip(p + 1)), '"'), '\''),
            ),
        )
    }
}

/// The settings of `lines`, a later line overriding an earlier one.
pub open spec fn parsed_lines(lines: Seq<Seq<char>>) -> Map<Seq<char>, Seq<char>>
    decreases lines.len(),
{
    if lines.len() == 0 {
        Map::empty()
    } else {
        let m = parsed_lines(lines.drop_last());
        match line_entry(lines.last()) {
            Some((k, v)) => m.insert(k, v),
            None => m,
        }
    }
}

/// The settings of an os-release text.
pub open spec fn parsed_text(s: Seq<char>) -> Map<Seq<char>, Seq<char>> {
    parsed_lines(split_lines(s))
}

/// The settings of an os-release file: keys with their values.
pub struct OsRelease {
    /// Settings in the order read; a later one overrides an earlier one.
    entries: Vec<(String, String)>,
}

/// The settings that `entries` make, a later one overriding an earlier one.
pub open spec fn entries_map(entries: Seq<(String, String)>) -> Map<Seq<char>, Seq<char>>
    decreases entries.len(),
{
    if entries.len() == 0 {
        Map::empty()
    } else {
        entries_map(entries.drop_last()).insert(entries.last().0@, entries.last().1@)
    }
}

impl View for OsRelease {
    type V = Map<Seq<char>, Seq<char>>;

    closed spec fn view(&self) -> Map<Seq<char>, Seq<char>> {
        entries_map(self.entries@)
    }
}

/// Whether `a` and `b` hold the same characters.
pub(crate) fn str_eq(a: &str, b: &str) -> (r: bool)
    ensures
        r == (a@ == b@),
{
    let n = a.unicode_len();
    if n != b.unicode_len() {
        return false;
    }
    let mut i: usize = 0;
    while i < n
        invariant
            0 <= i <= n,
            n == a@.len(),
            n == b@.len(),
            forall|k: int| 0 <= k < i ==> a@[k] == b@[k],
        decreases n - i,
    {
        if a.get_char(i) != b.get_char(i) {
            return false;
        }
        i += 1;
    }
    assert(a@ =~= b@);
    true
}

proof fn lemma_entries_map_dom(e: Seq<(String, String)>, k: Seq<char>)
    ensures
        entries_map(e).contains_key(k) <==> exists|i: int| 0 <= i < e.len() && (#[trigger] e[i]).0@ == k,
    decreases e.len(),
{
    if e.len() > 0 {
        lemma_entries_map_dom(e.drop_last(), k);
        if entries_map(e.drop_last()).contains_key(k) {
            let i = choose|i: int| 0 <= i < e.drop_last().len() && (#[trigger] e.drop_last()[i]).0@ == k;
            assert(e[i] == e.drop_last()[i]);
        }
        if exists|i: int| 0 <= i < e.len() && (#[trigger] e[i]).0@ == k {
            let i = choose|i: int| 0 <= i < e.len() && (#[trigger] e[i]).0@ == k;
            if i < e.len() - 1 {
                assert(e.drop_last()[i] == e[i]);
            }
        }
    }
}

/// Whether some string of `v` holds the characters of `s`.
fn contains_str(v: &Vec<String>, s: &str) -> (r: bool)
    ensures
        r == exists|j: int| 0 <= j < v@.len() && (#[trigger] v@[j])@ == s@,
{
    let mut j: usize = 0;
    while j < v.len()
        invariant
            0 <= j <= v.len(),
            forall|k: int| 0 <= k < j ==> (#[trigger] v@[k])@ != s@,
        decreases v.len() - j,
    {
        if str_eq(v[j].as_str(), s) {
            return true;
        }
        j += 1;
    }
    false
}

/// Some entry before position `i` sets `k`.
pub open spec fn set_before(e: Seq<(String, String)>, i: int, k: Seq<char>) -> bool {
    exists|m: int| 0 <= m < i && (#[trigger] e[m]).0@ == k
}

/// Some string of `r` holds `k`.
pub open spec fn listed(r: Seq<String>, k: Seq<char>) -> bool {
    exists|n: int| 0 <= n < r.len() && (#[trigger] r[n])@ == k
}

impl OsRelease {
    /// The keys that are set, each once, in the order they were first set.
    pub fn keys(&self) -> (r: Vec<String>)
        ensures
            forall|k: Seq<char>| #[trigger] self@.contains_key(k) <==> listed(r@, k),
            forall|i: int, j: int| 0 <= i < j < r@.len() ==> r@[i]@ != r@[j]@,
    {
        let ghost e = self.entries@;
        let mut r: Vec<String> = Vec::new();
        let mut i: usize = 0;
        while i < self.entries.len()
            invariant
                0 <= i <= e.len(),
                e == self.entries@,
                forall|k: Seq<char>|
                    #![trigger listed(r@, k)]
                    #![trigger set_before(e, i as int, k)]
                    set_before(e, i as int, k) == listed(r@, k),
                forall|a: int, b: int| 0 <= a < b < r@.len() ==> r@[a]@ != r@[b]@,
            decreases e.len() - i,
        {
            let ghost before = r@;
            let key = &self.entries[i].0;
            if !contains_str(&r, key.as_str()) {
                r.push(key.clone());
            }
            proof {
                assert forall|k: Seq<char>|
                    #![trigger listed(r@, k)]
                    #![trigger set_before(e, i + 1, k)]
                    set_before(e, i + 1, k) == listed(r@, k) by {
                    assert(set_before(e, i as int, k) == listed(before, k));
                    if set_before(e, i + 1, k) {
                        let m = choose|m: int| 0 <= m < i + 1 && (#[trigger] e[m]).0@ == k;
                        if m < i {
                            assert(set_before(e, i as int, k));
                            let n = choose|n: int| 0 <= n < before.len() && (#[trigger] before[n])@ == k;
                            assert(r@[n] == before[n]);
                        } else if !listed(before, k) {
                            assert(r@[r@.len() - 1]@ == k);
                        } else {
                            let n = choose|n: int| 0 <= n < before.len() && (#[trigger] before[n])@ == k;
                            assert(r@[n] == before[n]);
                        }
                    }
                    if listed(r@, k) {
                        let n = choose|n: int| 0 <= n < r@.len() && (#[trigger] r@[n])@ == k;
                        if n < before.len() {
                            assert(before[n] == r@[n]);
                            assert(listed(before, k));
                            let m = choose|m: int| 0 <= m < i && (#[trigger] e[m]).0@ == k;
                            assert(0 <= m < i + 1 && e[m].0@ == k);
                        } else {
                            assert(e[i as int].0@ == k);
                        }
                    }
                }
            }
            i += 1;
        }
        proof {
            assert forall|k: Seq<char>| #[trigger] self@.contains_key(k) <==> listed(r@, k) by {
                lemma_entries_map_dom(e, k);
                assert(set_before(e, e.len() as int, k) == listed(r@, k));
            }
        }
        r
    }

    /// No settings.
    pub fn new() -> (r: Self)
        ensures
            r@ == Map::<Seq<char>, Seq<char>>::empty(),
    {
        OsRelease { entries: Vec::new() }
    }

    /// Sets `key` to `value`, replacing an earlier value.
    pub fn insert(&mut self, key: String, value: String)
        ensures
            final(self)@ == old(self)@.insert(key@, value@),
    {
        let ghost before = self.entries@;
        self.entries.push((key, value));
        assert(self.entries@.drop_last() =~= before);
    }

    /// The value of `key`, if it is set.
    pub fn get(&self, key: &str) -> (r: Option<&String>)
        ensures
            match r {
                Some(v) => self@.contains_key(key@) && self@[key@] == v@,
                None => !self@.contains_key(key@),
            },
    {
        let ghost e = self.entries@;
        let mut i: usize = self.entries.len();
        assert(e.take(i as int) =~= e);
        while i > 0
            invariant
                0 <= i <= e.len(),
                e == self.entries@,
                entries_map(e).contains_key(key@) == entries_map(e.take(i as int)).contains_key(
                    key@,
                ),
                entries_map(e).contains_key(key@) ==> entries_map(e)[key@] == entries_map(
                    e.take(i as int),
                )[key@],
            decreases i,
        {
            assert(e.take(i as int).drop_last() =~= e.take(i - 1));
            if str_eq(self.entries[i - 1].0.as_str(), key) {
                return Some(&self.entries[i - 1].1);
            }
            i -= 1;
        }
        assert(e.take(0) =~= Seq::<(String, String)>::empty());
        None
    }
}

/// `s` without the characters `c` at either end.
fn strip_char_exec(s: &str, c: char) -> (r: &str)
    ensures
        r@ == strip_char(s@, c),
{
    let n = s.unicode_len();
    let mut i: usize = 0;
    assert(s@.subrange(0, n as int) =~= s@);
    while i < n && s.get_char(i) == c
        invariant
            0 <= i <= n,
            n == s@.len(),
            strip_front(s@, c) == strip_front(s@.subrange(i as int, n as int), c),
        decreases n - i,
    {
        assert(s@.subrange(i as int, n as int).drop_first() =~= s@.subrange(i + 1, n as int));
        i += 1;
    }
    let ghost front = s@.subrange(i as int, n as int);
    assert(strip_front(s@, c) == front);
    let mut j: usize = n;
    while j > i && s.get_char(j - 1) == c
        invariant
            i <= j <= n,
            n == s@.len(),
            front == s@.subrange(i as int, n as int),
            strip_back(front, c) == strip_back(s@.subrange(i as int, j as int), c),
        decreases j,
    {
        assert(s@.subrange(i as int, j as int).drop_last() =~= s@.subrange(i as int, j - 1));
        j -= 1;
    }
    s.substring_char(i, j)
}

/// The key and value that `line` sets, as `line_entry` says.
fn parse_line(line: &str) -> (r: Option<(String, String)>)
    ensures
        match r {
            Some((k, v)) => line_entry(line@) == Some((k@, v@)),
            None => line_entry(line@) is None,
        },
{
    let t = trim(line);
    let n = t.unicode_len();
    if n == 0 || t.get_char(0) == '#' {
        return None;
    }
    let mut p: usize = 0;
    while p < n && t.get_char(p) != '='
        invariant
            0 <= p <= n,
            n == t@.len(),
            forall|k: int| 0 <= k < p ==> t@[k] != '=',
        decreases n - p,
    {
        p += 1;
    }
    if p == n {
        assert(!t@.contains('='));
        return None;
    }
    assert(first_index_of(t@, '=', p as int));
    assert(t@.contains('=')) by {
        assert(t@[p as int] == '=');
    }
    let ghost q = choose|q: int| first_index_of(t@, '=', q);
    assert(q == p as int) by {
        if q < p {
            assert(t@[q] != '=');
        } else if q > p {
            assert(t@[p as int] != '=');
        }
    }
    let head = t.substring_char(0, p);
    assert(head@ =~= t@.take(p as int));
    let key = trim(head);
    let rest = t.substring_char(p + 1, n);
    assert(rest@ =~= t@.skip(p + 1));
    let value = strip_char_exec(strip_char_exec(trim(rest), '"'), '\'');
    Some((String::from_str(key), String::from_str(value)))
}

/// Reads the settings of an os-release text: each non-empty, non-comment
/// line `KEY=value` sets `KEY`, a later line overriding an earlier one.
pub fn parse_os_release_str(text: &str) -> (r: OsRelease)
    ensures
        r@ == parsed_text(text@),
{
    let n = text.unicode_len();
    let mut r = OsRelease::new();
    let ghost mut done: Seq<Seq<char>> = Seq::empty();
    let mut start: usize = 0;
    let mut i: usize = 0;
    assert(text@.take(0) =~= Seq::<char>::empty());
    assert(done.push(text@.subrange(0, 0)) =~= seq![Seq::<char>::empty()]);
    while i < n
        invariant
            0 <= start <= i <= n,
            n == text@.len(),
            split_lines(text@.take(i as int)) == done.push(text@.subrange(start as int, i as int)),
            r@ == parsed_lines(done),
        decreases n - i,
    {
        let c = text.get_char(i);
        assert(text@.take(i + 1).drop_last() =~= text@.take(i as int));
        if c == '\n' {
            let line = text.substring_char(start, i);
            match parse_line(line) {
                Some((k, v)) => {
                    r.insert(k, v);
                },
                None => {},
            }
            proof {
                assert(done.push(line@).drop_last() =~= done);
                done = done.push(line@);
                assert(text@.subrange(i + 1, i + 1) =~= Seq::<char>::empty());
            }
            start = i + 1;
        } else {
            proof {
                assert(text@.subrange(start as int, i + 1) =~= text@.subrange(
                    start as int,
                    i as int,
                ).push(c));
                assert(split_lines(text@.take(i + 1)) =~= done.push(
                    text@.subrange(start as int, i + 1),
                ));
            }
        }
        i += 1;
    }
    let line = text.substring_char(start, n);
    match parse_line(line) {
        Some((k, v)) => {
            r.insert(k, v);
        },
        None => {},
    }
    proof {
        assert(text@.take(n as int) =~= text@);
        assert(done.push(line@).drop_last() =~= done);
    }
    r
}

/// Why an os-release file could not be read.
#[derive(Debug, Clone, Copy, PartialEq, Eq, Structural)]
pub enum OsReleaseError {
    /// The input could not be read as text.
    Unreadable,
}

/// Reads the settings of the os-release text that `reader` yields.
pub fn parse_os_release_from_reader<R: std::io::BufRead>(reader: R) -> (r: Result<
    OsRelease,
    OsReleaseError,
>)
    ensures
        r is Ok ==> exists|text: Seq<char>| r->Ok_0@ == #[trigger] parsed_text(text),
{
    match read_all(reader) {
        Some(text) => Ok(parse_os_release_str(text.as_str())),
        None => Err(OsReleaseError::Unreadable),
    }
}

} // verus!
