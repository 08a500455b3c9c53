//! Recognising bus device nodes and ordering buses by number.

use vstd::prelude::*;

verus! {

/// `c` is an ASCII decimal digit.
pub open spec fn is_digit(c: char) -> bool {
    '0' <= c && c <= '9'
}

/// The value of the decimal digit `c`.
pub open spec fn digit_value(c: char) -> nat {
    ((c as u32) - ('0' as u32)) as nat
}

/// The number that the decimal digits `s` spell.
pub open spec fn decimal_value(s: Seq<char>) -> nat
    decreases s.len(),
{
    if s.len() == 0 {
        0
    } else {
        decimal_value(s.drop_last()) * 10 + digit_value(s.last())
    }
}

/// The prefix shared by the names of all bus device nodes.
pub open spec fn bus_node_prefix() -> Seq<char> {
    seq!['i', '2', 'c', '-']
}

/// The bus number that a device node name `i2c-<N>` carries: `N` is one or
/// more decimal digits whose value fits in a `u32`. Any other name carries
/// none.
pub open spec fn bus_node_id(name: Seq<char>) -> Option<u32> {
    let digits = name.skip(4);
    if name.len() > 4 && name.take(4) == bus_node_prefix() && (forall|i: int|
        0 <= i < digits.len() ==> is_digit(#[trigger] digits[i])) && decimal_value(digits)
        <= u32::MAX {
        Some(decimal_value(digits) as u32)
    } else {
        None
    }
}

/// Bus numbers in strictly ascending order.
pub open spec fn ids_ascending(s: Seq<u32>) -> bool {
    forall|i: int, j: int| 0 <= i < j < s.len() ==> s[i] < s[j]
}

pub(crate) proof fn lemma_decimal_prefix_le(s: Seq<char>, j: int)
    requires
        0 <= j <= s.len(),
    ensures
        decimal_value(s.take(j)) <= decimal_value(s),
    decreases s.len(),
{
    if j < s.len() {
        lemma_decimal_prefix_le(s.drop_last(), j);
        assert(s.drop_last().take(j) =~= s.take(j));
    } else {
        assert(s.take(j) =~= s);
    }
}

/// The bus number carried by the device node name `name`, if it is one.
pub fn parse_bus_node_name(name: &str) -> (r: Option<u32>)
    ensures
        r == bus_node_id(name@),
{
    let len = name.unicode_len();
    proof {
        reveal_strlit("i2c-");
    }
    if len <= 4 || name.get_char(0) != 'i' || name.get_char(1) != '2' || name.get_char(2) != 'c'
        || name.get_char(3) != '-' {
        proof {
            if len > 4 {
                assert(name@.take(4)[0] == name@[0]);
                assert(name@.take(4)[1] == name@[1]);
                assert(name@.take(4)[2] == name@[2]);
                assert(name@.take(4)[3] == name@[3]);
            }
        }
        return None;
    }
    assert(name@.take(4) =~= bus_node_prefix());
    let ghost digits = name@.skip(4);
    let mut value: u32 = 0;
    let mut i: usize = 4;
    while i < len
        invariant
            4 <= i <= len,
            len == name@.len(),
            digits == name@.skip(4),
            forall|j: int| 0 <= j < i - 4 ==> is_digit(#[trigger] digits[j]),
            value as nat == decimal_value(digits.take(i - 4)),
        decreases len - i,
    {
        let c = name.get_char(i);
        assert(c == digits[i - 4]);
        if c < '0' || c > '9' {
            return None;
        }
        let d: u32 = (c as u32) - ('0' as u32);
        assert(digits.take(i - 3).drop_last() =~= digits.take(i - 4));
        if value > (4294967295u32 - d) / 10 {
            proof {
                assert(value * 10 + d > u32::MAX) by (nonlinear_arith)
                    requires
                        value > (4294967295u32 - d) / 10,
                        d <= 9,
                ;
                if forall|j: int| 0 <= j < digits.len() ==> is_digit(#[trigger] digits[j]) {
                    lemma_decimal_prefix_le(digits, i - 3);
                }
            }
            return None;
        }
        assert(value * 10 + d <= u32::MAX) by (nonlinear_arith)
            requires
                value <= (4294967295u32 - d) / 10,
                d <= 9,
        ;
        value = value * 10 + d;
        i += 1;
    }
    assert(digits.take(i - 4) =~= digits);
    Some(value)
}

/// Inserts `x` into the strictly ascending `ids`, unless it is there.
fn insert_ascending(ids: &mut Vec<u32>, x: u32)
    requires
        ids_ascending(old(ids)@),
    ensures
        ids_ascending(final(ids)@),
        forall|y: u32| #[trigger] final(ids)@.contains(y) <==> (old(ids)@.contains(y) || y == x),
{
    let mut i: usize = 0;
    while i < ids.len() && ids[i] < x
        invariant
            0 <= i <= ids.len(),
            forall|j: int| 0 <= j < i ==> #[trigger] ids@[j] < x,
        decreases ids.len() - i,
    {
        i += 1;
    }
    if i < ids.len() && ids[i] == x {
        return;
    }
    let ghost before = ids@;
    ids.insert(i, x);
    proof {
        assert forall|y: u32| #[trigger] ids@.contains(y) <==> (before.contains(y) || y == x) by {
            if ids@.contains(y) {
                let k = choose|k: int| 0 <= k < ids@.len() && ids@[k] == y;
                if k < i {
                    assert(before[k] == y);
                } else if k > i {
                    assert(before[k - 1] == y);
                }
            }
            if before.contains(y) {
                let k = choose|k: int| 0 <= k < before.len() && before[k] == y;
                if k < i {
                    assert(ids@[k] == y);
                } else {
                    assert(ids@[k + 1] == y);
                }
            }
            if y == x {
                assert(ids@[i as int] == x);
            }
        }
    }
}

/// The bus numbers carried by the device node names `names`, each once,
/// in strictly ascending numeric order; names that are not bus nodes are
/// left out.
pub fn bus_ids_from_node_names(names: &[String]) -> (r: Vec<u32>)
    ensures
        ids_ascending(r@),
        forall|id: u32|
            #[trigger] r@.contains(id) <==> exists|i: int|
                0 <= i < names@.len() && #[trigger] bus_node_id(names@[i]@) == Some(id),
{
    let mut ids: Vec<u32> = Vec::new();
    let mut i: usize = 0;
    while i < names.len()
        invariant
            0 <= i <= names.len(),
            ids_ascending(ids@),
            forall|id: u32|
                #[trigger] ids@.contains(id) <==> exists|j: int|
                    0 <= j < i && #[trigger] bus_node_id(names@[j]@) == Some(id),
        decreases names.len() - i,
    {
        match parse_bus_node_name(names[i].as_str()) {
            Some(id) => {
                insert_ascending(&mut ids, id);
            },
            None => {},
        }
        proof {
            assert forall|id: u32|
                (exists|j: int|
                    0 <= j < i + 1 && #[trigger] bus_node_id(names@[j]@) == Some(id)) implies #[trigger] ids@.contains(id) by {
                let j = choose|j: int|
                    0 <= j < i + 1 && #[trigger] bus_node_id(names@[j]@) == Some(id);
                if j < i {
                }
            }
        }
        i += 1;
    }
    ids
}

} // verus!
