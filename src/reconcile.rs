//! Classification of a bus scan against an expected address set.

use vstd::prelude::*;

verus! {

broadcast use {
    vstd::seq::Seq::lemma_filter_push,
    vstd::seq::Seq::lemma_filter_contains_rev,
    vstd::seq::Seq::lemma_filter_contains,
};

/// Lowest client address that is scanned or accepted.
pub const FIRST_ADDRESS: u16 = 0x08;

/// Highest client address that is scanned or accepted.
pub const LAST_ADDRESS: u16 = 0x77;

/// Number of addresses in the scanned range.
pub const ADDRESS_COUNT: usize = 112;

/// A 7-bit client address that a scan may report.
pub open spec fn valid_address(a: u16) -> bool {
    FIRST_ADDRESS <= a <= LAST_ADDRESS
}

/// Addresses in strictly ascending order.
pub open spec fn strictly_ascending(s: Seq<u16>) -> bool {
    forall|i: int, j: int| 0 <= i < j < s.len() ==> s[i] < s[j]
}

/// A list of addresses as one scan produces it: sorted, no repeats, in range.
pub open spec fn address_list_ok(s: Seq<u16>) -> bool {
    &&& strictly_ascending(s)
    &&& forall|i: int| 0 <= i < s.len() ==> valid_address(#[trigger] s[i])
}

/// No address is in both sequences.
pub open spec fn disjoint(a: Seq<u16>, b: Seq<u16>) -> bool {
    forall|x: u16| a.contains(x) ==> !b.contains(x)
}

/// The three lists of one bus scan are each well formed, and the two
/// hardware lists do not overlap.
pub open spec fn scan_ok(unbound: Seq<u16>, bound: Seq<u16>, kernel: Seq<u16>) -> bool {
    &&& address_list_ok(unbound)
    &&& address_list_ok(bound)
    &&& address_list_ok(kernel)
    &&& disjoint(unbound, bound)
}

/// The hardware probe saw `a` answer, bound or not.
pub open spec fn hw_seen(unbound: Seq<u16>, bound: Seq<u16>, a: u16) -> bool {
    unbound.contains(a) || bound.contains(a)
}

/// Any of the three views saw `a`.
pub open spec fn observed(unbound: Seq<u16>, bound: Seq<u16>, kernel: Seq<u16>, a: u16) -> bool {
    hw_seen(unbound, bound, a) || kernel.contains(a)
}

/// Expected addresses that were observed, in the caller's order.
pub open spec fn present_of(
    expected: Seq<u16>,
    unbound: Seq<u16>,
    bound: Seq<u16>,
    kernel: Seq<u16>,
) -> Seq<u16> {
    expected.filter(|a: u16| observed(unbound, bound, kernel, a))
}

/// Expected addresses that no view saw, in the caller's order.
pub open spec fn missing_of(
    expected: Seq<u16>,
    unbound: Seq<u16>,
    bound: Seq<u16>,
    kernel: Seq<u16>,
) -> Seq<u16> {
    expected.filter(|a: u16| !observed(unbound, bound, kernel, a))
}

/// Addresses of `s` that are not expected.
pub open spec fn not_expected(s: Seq<u16>, expected: Seq<u16>) -> Seq<u16> {
    s.filter(|a: u16| !expected.contains(a))
}

/// Expected addresses whose classification came from the hardware probe,
/// then the unexpected ones that answered it.
pub open spec fn probed_of(
    expected: Seq<u16>,
    unbound: Seq<u16>,
    bound: Seq<u16>,
) -> Seq<u16> {
    expected.filter(|a: u16| hw_seen(unbound, bound, a)) + not_expected(unbound, expected)
        + not_expected(bound, expected)
}

/// `acc` extended by the items of `s` that it does not hold yet, in order.
pub open spec fn append_new(acc: Seq<u16>, s: Seq<u16>) -> Seq<u16>
    decreases s.len(),
{
    if s.len() == 0 {
        acc
    } else {
        let r = append_new(acc, s.drop_last());
        if r.contains(s.last()) {
            r
        } else {
            r.push(s.last())
        }
    }
}

/// Observed addresses that are not expected: hardware answers first, then
/// the kernel's registrations that are not listed yet.
pub open spec fn unexpected_of(
    expected: Seq<u16>,
    unbound: Seq<u16>,
    bound: Seq<u16>,
    kernel: Seq<u16>,
) -> Seq<u16> {
    append_new(
        not_expected(unbound, expected) + not_expected(bound, expected),
        not_expected(kernel, expected),
    )
}

proof fn lemma_append_new_contains(acc: Seq<u16>, s: Seq<u16>, x: u16)
    ensures
        append_new(acc, s).contains(x) <==> (acc.contains(x) || s.contains(x)),
    decreases s.len(),
{
    if s.len() > 0 {
        lemma_append_new_contains(acc, s.drop_last(), x);
        assert(s =~= s.drop_last().push(s.last()));
        let r = append_new(acc, s.drop_last());
        if !r.contains(s.last()) {
            assert(r.push(s.last()) =~= r + seq![s.last()]);
            lemma_concat_contains(r, seq![s.last()], x);
            assert(seq![s.last()].contains(x) <==> x == s.last()) by {
                if x == s.last() {
                    assert(seq![s.last()][0] == x);
                }
            }
        }
        if s.contains(x) && !s.drop_last().contains(x) {
            assert(x == s.last());
        }
        if s.drop_last().contains(x) {
            let i = choose|i: int| 0 <= i < s.drop_last().len() && s.drop_last()[i] == x;
            assert(s[i] == x);
        }
    }
}

proof fn lemma_append_new_no_duplicates(acc: Seq<u16>, s: Seq<u16>)
    requires
        acc.no_duplicates(),
    ensures
        append_new(acc, s).no_duplicates(),
    decreases s.len(),
{
    if s.len() > 0 {
        lemma_append_new_no_duplicates(acc, s.drop_last());
    }
}

proof fn lemma_filter_no_duplicates(s: Seq<u16>, p: spec_fn(u16) -> bool)
    requires
        s.no_duplicates(),
    ensures
        s.filter(p).no_duplicates(),
    decreases s.len(),
{
    if s.len() > 0 {
        let d = s.drop_last();
        assert(s =~= d.push(s.last()));
        lemma_filter_no_duplicates(d, p);
        if d.filter(p).contains(s.last()) {
            assert(d.contains(s.last()));
            let i = choose|i: int| 0 <= i < d.len() && d[i] == s.last();
            assert(s[i] == s[s.len() - 1]);
        }
    }
}

proof fn lemma_ascending_no_duplicates(s: Seq<u16>)
    requires
        strictly_ascending(s),
    ensures
        s.no_duplicates(),
{
}

proof fn lemma_concat_contains(a: Seq<u16>, b: Seq<u16>, x: u16)
    ensures
        (a + b).contains(x) <==> (a.contains(x) || b.contains(x)),
{
    if a.contains(x) {
        let i = choose|i: int| 0 <= i < a.len() && a[i] == x;
        assert((a + b)[i] == x);
    }
    if b.contains(x) {
        let i = choose|i: int| 0 <= i < b.len() && b[i] == x;
        assert((a + b)[a.len() + i] == x);
    }
    if (a + b).contains(x) {
        let i = choose|i: int| 0 <= i < (a + b).len() && (a + b)[i] == x;
        if i < a.len() {
            assert(a[i] == x);
        } else {
            assert(b[i - a.len()] == x);
        }
    }
}

proof fn lemma_unexpected_contains(
    expected: Seq<u16>,
    unbound: Seq<u16>,
    bound: Seq<u16>,
    kernel: Seq<u16>,
    x: u16,
)
    ensures
        unexpected_of(expected, unbound, bound, kernel).contains(x) <==> (observed(
            unbound,
            bound,
            kernel,
            x,
        ) && !expected.contains(x)),
{
    let nu = not_expected(unbound, expected);
    let nb = not_expected(bound, expected);
    let nk = not_expected(kernel, expected);
    lemma_append_new_contains(nu + nb, nk, x);
    lemma_concat_contains(nu, nb, x);
}

/// The expected addresses split into present and missing: no address is
/// both, and an address is in one of them exactly when it is expected.
pub proof fn lemma_present_missing_partition(
    expected: Seq<u16>,
    unbound: Seq<u16>,
    bound: Seq<u16>,
    kernel: Seq<u16>,
)
    ensures
        forall|x: u16|
            #![trigger present_of(expected, unbound, bound, kernel).contains(x)]
            #![trigger missing_of(expected, unbound, bound, kernel).contains(x)]
            !(present_of(expected, unbound, bound, kernel).contains(x) && missing_of(
                expected,
                unbound,
                bound,
                kernel,
            ).contains(x)),
        forall|x: u16|
            #![trigger expected.contains(x)]
            (present_of(expected, unbound, bound, kernel).contains(x) || missing_of(
                expected,
                unbound,
                bound,
                kernel,
            ).contains(x)) <==> expected.contains(x),
{
    assert forall|x: u16| expected.contains(x) implies (present_of(
        expected,
        unbound,
        bound,
        kernel,
    ).contains(x) || missing_of(expected, unbound, bound, kernel).contains(x)) by {
        let i = choose|i: int| 0 <= i < expected.len() && expected[i] == x;
        if observed(unbound, bound, kernel, x) {
            expected.lemma_filter_contains(|a: u16| observed(unbound, bound, kernel, a), i);
        } else {
            expected.lemma_filter_contains(|a: u16| !observed(unbound, bound, kernel, a), i);
        }
    }
}

/// No expected address is reported as unexpected, and, for a well-formed
/// scan, no address is reported as unexpected twice.
pub proof fn lemma_unexpected_excludes_expected(
    expected: Seq<u16>,
    unbound: Seq<u16>,
    bound: Seq<u16>,
    kernel: Seq<u16>,
)
    ensures
        forall|x: u16|
            #[trigger] unexpected_of(expected, unbound, bound, kernel).contains(x)
                ==> !expected.contains(x),
        scan_ok(unbound, bound, kernel) ==> unexpected_of(
            expected,
            unbound,
            bound,
            kernel,
        ).no_duplicates(),
{
    assert forall|x: u16| #[trigger]
        unexpected_of(expected, unbound, bound, kernel).contains(x) implies !expected.contains(
        x,
    ) by {
        lemma_unexpected_contains(expected, unbound, bound, kernel, x);
    }
    if scan_ok(unbound, bound, kernel) {
        let nu = not_expected(unbound, expected);
        let nb = not_expected(bound, expected);
        lemma_ascending_no_duplicates(unbound);
        lemma_ascending_no_duplicates(bound);
        lemma_filter_no_duplicates(unbound, |a: u16| !expected.contains(a));
        lemma_filter_no_duplicates(bound, |a: u16| !expected.contains(a));
        assert forall|i: int, j: int|
            0 <= i < (nu + nb).len() && 0 <= j < (nu + nb).len() && i != j implies (nu
            + nb)[i] != (nu + nb)[j] by {
            if i < nu.len() && j >= nu.len() {
                assert(nu.contains(nu[i]));
                assert(nb.contains(nb[j - nu.len()]));
            }
            if j < nu.len() && i >= nu.len() {
                assert(nu.contains(nu[j]));
                assert(nb.contains(nb[i - nu.len()]));
            }
        }
        lemma_append_new_no_duplicates(nu + nb, not_expected(kernel, expected));
    }
}

/// Every probed address is in exactly one of present and unexpected.
pub proof fn lemma_probed_in_exactly_one(
    expected: Seq<u16>,
    unbound: Seq<u16>,
    bound: Seq<u16>,
    kernel: Seq<u16>,
)
    ensures
        forall|x: u16|
            #[trigger] probed_of(expected, unbound, bound).contains(x) ==> (present_of(
                expected,
                unbound,
                bound,
                kernel,
            ).contains(x) != unexpected_of(expected, unbound, bound, kernel).contains(x)),
{
    assert forall|x: u16| #[trigger] probed_of(expected, unbound, bound).contains(x) implies (
    present_of(expected, unbound, bound, kernel).contains(x) != unexpected_of(
        expected,
        unbound,
        bound,
        kernel,
    ).contains(x)) by {
        let pe = expected.filter(|a: u16| hw_seen(unbound, bound, a));
        let nu = not_expected(unbound, expected);
        let nb = not_expected(bound, expected);
        lemma_concat_contains(pe + nu, nb, x);
        lemma_concat_contains(pe, nu, x);
        lemma_unexpected_contains(expected, unbound, bound, kernel, x);
        if pe.contains(x) {
            let i = choose|i: int| 0 <= i < expected.len() && expected[i] == x;
            expected.lemma_filter_contains(|a: u16| observed(unbound, bound, kernel, a), i);
        }
    }
}

/// Expecting exactly what the scan observed leaves nothing missing and
/// nothing unexpected.
pub proof fn lemma_expecting_observed_matches(
    expected: Seq<u16>,
    unbound: Seq<u16>,
    bound: Seq<u16>,
    kernel: Seq<u16>,
)
    requires
        forall|x: u16| #[trigger] expected.contains(x) <==> observed(unbound, bound, kernel, x),
    ensures
        missing_of(expected, unbound, bound, kernel).len() == 0,
        unexpected_of(expected, unbound, bound, kernel).len() == 0,
{
    let m = missing_of(expected, unbound, bound, kernel);
    let un = unexpected_of(expected, unbound, bound, kernel);
    if m.len() > 0 {
        assert(m.contains(m[0]));
    }
    if un.len() > 0 {
        assert(un.contains(un[0]));
        lemma_unexpected_contains(expected, unbound, bound, kernel, un[0]);
    }
}

/// With nothing expected, nothing is present or missing, and everything
/// observed is unexpected, each address once for a well-formed scan.
pub proof fn lemma_nothing_expected(unbound: Seq<u16>, bound: Seq<u16>, kernel: Seq<u16>)
    ensures
        present_of(Seq::empty(), unbound, bound, kernel).len() == 0,
        missing_of(Seq::empty(), unbound, bound, kernel).len() == 0,
        forall|x: u16|
            #[trigger] unexpected_of(Seq::empty(), unbound, bound, kernel).contains(x)
                <==> observed(unbound, bound, kernel, x),
        scan_ok(unbound, bound, kernel) ==> unexpected_of(
            Seq::empty(),
            unbound,
            bound,
            kernel,
        ).no_duplicates(),
{
    let e = Seq::<u16>::empty();
    reveal_with_fuel(Seq::filter, 1);
    assert forall|x: u16| #[trigger]
        unexpected_of(e, unbound, bound, kernel).contains(x) <==> observed(
            unbound,
            bound,
            kernel,
            x,
        ) by {
        lemma_unexpected_contains(e, unbound, bound, kernel, x);
    }
    lemma_unexpected_excludes_expected(e, unbound, bound, kernel);
}

/// Result of checking one bus against the addresses that should be on it.
pub struct I2cValidationResult {
    pub missing: Vec<u16>,
    pub unexpected: Vec<u16>,
    pub present: Vec<u16>,
    pub probed: Vec<u16>,
}

impl I2cValidationResult {
    /// This result is the classification of the given scan lists.
    pub open spec fn classifies(
        &self,
        expected: Seq<u16>,
        unbound: Seq<u16>,
        bound: Seq<u16>,
        kernel: Seq<u16>,
    ) -> bool {
        &&& self.present@ == present_of(expected, unbound, bound, kernel)
        &&& self.missing@ == missing_of(expected, unbound, bound, kernel)
        &&& self.unexpected@ == unexpected_of(expected, unbound, bound, kernel)
        &&& self.probed@ == probed_of(expected, unbound, bound)
    }
}

/// Whether `a` occurs in `list`.
pub fn contains_address(list: &[u16], a: u16) -> (r: bool)
    ensures
        r == list@.contains(a),
{
    let mut i: usize = 0;
    while i < list.len()
        invariant
            0 <= i <= list.len(),
            forall|j: int| 0 <= j < i ==> list@[j] != a,
        decreases list.len() - i,
    {
        if list[i] == a {
            return true;
        }
        i += 1;
    }
    false
}

/// Appends to `out` the items of `s` that `expected` does not hold.
fn push_not_expected(out: &mut Vec<u16>, s: &[u16], expected: &[u16])
    ensures
        final(out)@ == old(out)@ + not_expected(s@, expected@),
{
    let ghost start = out@;
    let mut i: usize = 0;
    while i < s.len()
        invariant
            0 <= i <= s.len(),
            out@ == start + not_expected(s@.subrange(0, i as int), expected@),
        decreases s.len() - i,
    {
        proof {
            assert(s@.subrange(0, i + 1) =~= s@.subrange(0, i as int).push(s@[i as int]));
        }
        if !contains_address(expected, s[i]) {
            out.push(s[i]);
        }
        i += 1;
    }
    proof {
        assert(s@.subrange(0, s.len() as int) =~= s@);
    }
}

/// Classifies a scan of one bus against the expected addresses.
///
/// An expected address that answered the hardware probe (bound or unbound)
/// is present and probed; one that only the kernel registered is present;
/// any other is missing. Observed addresses that are not expected are
/// unexpected: hardware answers first (and probed), then the kernel's
/// registrations, each address once.
pub fn reconcile(
    expected: &[u16],
    hardware_unbound: &[u16],
    hardware_bound: &[u16],
    kernel_detected: &[u16],
) -> (r: I2cValidationResult)
    ensures
        r.classifies(expected@, hardware_unbound@, hardware_bound@, kernel_detected@),
{
    let ghost u = hardware_unbound@;
    let ghost b = hardware_bound@;
    let ghost k = kernel_detected@;
    let mut present: Vec<u16> = Vec::new();
    let mut missing: Vec<u16> = Vec::new();
    let mut probed: Vec<u16> = Vec::new();
    let mut i: usize = 0;
    while i < expected.len()
        invariant
            0 <= i <= expected.len(),
            u == hardware_unbound@,
            b == hardware_bound@,
            k == kernel_detected@,
            present@ == present_of(expected@.subrange(0, i as int), u, b, k),
            missing@ == missing_of(expected@.subrange(0, i as int), u, b, k),
            probed@ == expected@.subrange(0, i as int).filter(|a: u16| hw_seen(u, b, a)),
        decreases expected.len() - i,
    {
        let a = expected[i];
        proof {
            assert(expected@.subrange(0, i + 1) =~= expected@.subrange(0, i as int).push(a));
        }
        if contains_address(hardware_unbound, a) || contains_address(hardware_bound, a) {
            present.push(a);
            probed.push(a);
        } else if contains_address(kernel_detected, a) {
            present.push(a);
        } else {
            missing.push(a);
        }
        i += 1;
    }
    proof {
        assert(expected@.subrange(0, expected.len() as int) =~= expected@);
    }
    let mut unexpected: Vec<u16> = Vec::new();
    push_not_expected(&mut unexpected, hardware_unbound, expected);
    push_not_expected(&mut probed, hardware_unbound, expected);
    push_not_expected(&mut unexpected, hardware_bound, expected);
    push_not_expected(&mut probed, hardware_bound, expected);
    let ghost hw_part = unexpected@;
    let mut j: usize = 0;
    while j < kernel_detected.len()
        invariant
            0 <= j <= kernel_detected.len(),
            k == kernel_detected@,
            unexpected@ == append_new(
                hw_part,
                not_expected(k.subrange(0, j as int), expected@),
            ),
        decreases kernel_detected.len() - j,
    {
        let a = kernel_detected[j];
        proof {
            let pre = not_expected(k.subrange(0, j as int), expected@);
            assert(k.subrange(0, j + 1) =~= k.subrange(0, j as int).push(a));
            assert(pre.push(a).drop_last() =~= pre);
        }
        if !contains_address(expected, a) && !contains_address(unexpected.as_slice(), a) {
            unexpected.push(a);
        }
        j += 1;
    }
    proof {
        assert(k.subrange(0, kernel_detected.len() as int) =~= k);
    }
    I2cValidationResult { missing, unexpected, present, probed }
}

} // verus!
