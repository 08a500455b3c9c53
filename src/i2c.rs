//! Scanning one bus: from per-address outcomes to address lists, and the
//! scanner abstraction that `validate_bus` and `scan_bus` drive.

use vstd::prelude::*;
use crate::reconcile::{
    address_list_ok, disjoint, reconcile, scan_ok,
    valid_address, ADDRESS_COUNT, FIRST_ADDRESS, LAST_ADDRESS,
};
pub use crate::reconcile::I2cValidationResult;
use crate::paths::{sysfs_device_dir, sysfs_dir_of};
use crate::reconcile::{
    lemma_nothing_expected, lemma_present_missing_partition, lemma_probed_in_exactly_one,
    lemma_unexpected_excludes_expected,
};

verus! {

/// The errno that Linux reports when a driver already owns a client address.
pub const EBUSY_ERRNO: i32 = 16;

/// Relies on `nix::errno::Errno::from_i32`: on Linux it maps exactly the
/// code `libc::EBUSY` (16) to `Errno::EBUSY`.
#[verifier::external_body]
fn errno_is_busy(code: i32) -> (r: bool)
    ensures
        r == (code == EBUSY_ERRNO),
{
    nix::errno::Errno::from_i32(code) == nix::errno::Errno::EBUSY
}

/// Why a scan of a bus, or a validation, failed.
#[derive(Debug, Clone, Copy, PartialEq, Eq, Structural)]
pub enum ScanError {
    /// The bus device node does not exist.
    BusNotFound(u32),
    /// The bus device node could not be opened for lack of privileges.
    PermissionDenied(u32),
    /// Reading the host's device registry failed.
    IoError(u32),
    /// An expected address lies outside the scanned range.
    AddressOutOfRange(u16),
}

/// What happened when one client address was probed.
#[derive(Debug, Clone, Copy, PartialEq, Eq, Structural)]
pub enum ProbeOutcome {
    /// The handle opened and the quick-write was acknowledged.
    Acknowledged,
    /// The handle opened but the quick-write failed.
    NoResponse,
    /// Selecting the client address failed with this errno.
    AddressErrno(i32),
    /// The bus device node does not exist.
    BusMissing,
    /// The bus device node may not be opened.
    AccessDenied,
    /// Opening the bus device node failed in another way.
    OpenFailed,
}

impl ProbeOutcome {
    /// This outcome ends the scan of the whole bus.
    pub open spec fn spec_is_fatal(self) -> bool {
        self is BusMissing || self is AccessDenied
    }

    /// Whether this outcome ends the scan of the whole bus.
    pub fn is_fatal(&self) -> (r: bool)
        ensures
            r == self.spec_is_fatal(),
    {
        matches!(self, ProbeOutcome::BusMissing | ProbeOutcome::AccessDenied)
    }
}

/// The address probed at position `i` of a scan.
pub open spec fn address_at(i: int) -> u16 {
    (FIRST_ADDRESS + i) as u16
}

/// The addresses at whose positions `flags` holds, in ascending order.
pub open spec fn addresses_where(flags: Seq<bool>) -> Seq<u16>
    decreases flags.len(),
{
    if flags.len() == 0 {
        Seq::empty()
    } else {
        let r = addresses_where(flags.drop_last());
        if flags.last() {
            r.push(address_at(flags.len() - 1))
        } else {
            r
        }
    }
}

/// Positions at which the quick-write was acknowledged.
pub open spec fn acknowledged_flags(o: Seq<ProbeOutcome>) -> Seq<bool> {
    Seq::new(o.len(), |i: int| o[i] is Acknowledged)
}

/// Positions at which a driver owned the address.
pub open spec fn busy_flags(o: Seq<ProbeOutcome>) -> Seq<bool> {
    Seq::new(o.len(), |i: int| o[i] == ProbeOutcome::AddressErrno(EBUSY_ERRNO))
}

/// The error that a fatal outcome on bus `bus_id` gives.
pub open spec fn fatal_error(bus_id: u32, o: ProbeOutcome) -> ScanError {
    if o is BusMissing {
        ScanError::BusNotFound(bus_id)
    } else {
        ScanError::PermissionDenied(bus_id)
    }
}

/// `o[i]` is the first outcome that ends the scan.
pub open spec fn first_fatal_at(o: Seq<ProbeOutcome>, i: int) -> bool {
    &&& 0 <= i < o.len()
    &&& o[i].spec_is_fatal()
    &&& forall|j: int| 0 <= j < i ==> !(#[trigger] o[j]).spec_is_fatal()
}

/// Some outcome ends the scan.
pub open spec fn has_fatal(o: Seq<ProbeOutcome>) -> bool {
    exists|i: int| 0 <= i < o.len() && (#[trigger] o[i]).spec_is_fatal()
}

proof fn lemma_addresses_where_bounds(flags: Seq<bool>, x: u16)
    requires
        flags.len() <= ADDRESS_COUNT,
    ensures
        addresses_where(flags).contains(x) <==> (FIRST_ADDRESS <= x < FIRST_ADDRESS
            + flags.len() && flags[x - FIRST_ADDRESS]),
    decreases flags.len(),
{
    if flags.len() > 0 {
        let d = flags.drop_last();
        let r = addresses_where(d);
        lemma_addresses_where_bounds(d, x);
        if flags.last() {
            let p = r.push(address_at(flags.len() - 1));
            if p.contains(x) {
                let i = choose|i: int| 0 <= i < p.len() && p[i] == x;
                if i < r.len() {
                    assert(r.contains(x));
                }
            }
            if r.contains(x) {
                let i = choose|i: int| 0 <= i < r.len() && r[i] == x;
                assert(r.push(address_at(flags.len() - 1))[i] == x);
            }
            if x == address_at(flags.len() - 1) {
                assert(r.push(address_at(flags.len() - 1))[r.len() as int] == x);
            }
        }
    }
}

proof fn lemma_addresses_where_ok(flags: Seq<bool>)
    requires
        flags.len() <= ADDRESS_COUNT,
    ensures
        address_list_ok(addresses_where(flags)),
    decreases flags.len(),
{
    if flags.len() > 0 {
        let d = flags.drop_last();
        let r = addresses_where(d);
        lemma_addresses_where_ok(d);
        if flags.last() {
            let a = address_at(flags.len() - 1);
            assert forall|i: int| 0 <= i < r.len() implies r[i] < a by {
                assert(r.contains(r[i]));
                lemma_addresses_where_bounds(d, r[i]);
            }
        }
    }
}

/// The two hardware lists that one probe sweep gives do not share an address.
proof fn lemma_probe_lists_disjoint(o: Seq<ProbeOutcome>)
    requires
        o.len() <= ADDRESS_COUNT,
    ensures
        disjoint(
            addresses_where(acknowledged_flags(o)),
            addresses_where(busy_flags(o)),
        ),
{
    assert forall|x: u16| addresses_where(acknowledged_flags(o)).contains(x) implies !addresses_where(
        busy_flags(o),
    ).contains(x) by {
        lemma_addresses_where_bounds(acknowledged_flags(o), x);
        lemma_addresses_where_bounds(busy_flags(o), x);
    }
}

proof fn lemma_addresses_where_none(flags: Seq<bool>)
    requires
        forall|i: int| 0 <= i < flags.len() ==> !#[trigger] flags[i],
    ensures
        addresses_where(flags).len() == 0,
    decreases flags.len(),
{
    if flags.len() > 0 {
        lemma_addresses_where_none(flags.drop_last());
    }
}

/// A bus on which nothing answers the probe and the kernel registered
/// nothing gives three empty lists, and no error.
pub proof fn lemma_empty_bus(outcomes: Seq<ProbeOutcome>, present: Seq<bool>)
    requires
        forall|i: int|
            0 <= i < outcomes.len() ==> (#[trigger] outcomes[i] == ProbeOutcome::NoResponse
                || outcomes[i] is OpenFailed || (outcomes[i] matches ProbeOutcome::AddressErrno(c)
                && c != EBUSY_ERRNO)),
        forall|i: int| 0 <= i < present.len() ==> !#[trigger] present[i],
    ensures
        !has_fatal(outcomes),
        addresses_where(acknowledged_flags(outcomes)).len() == 0,
        addresses_where(busy_flags(outcomes)).len() == 0,
        addresses_where(present).len() == 0,
{
    lemma_addresses_where_none(acknowledged_flags(outcomes));
    lemma_addresses_where_none(busy_flags(outcomes));
    lemma_addresses_where_none(present);
}

/// The addresses, in the scanned range, that have an entry in the kernel's
/// device registry; `present[i]` tells whether the address at position `i`
/// (counted from the first scanned address) has one.
pub fn kernel_detected_from_presence(present: &[bool]) -> (r: Vec<u16>)
    requires
        present@.len() <= ADDRESS_COUNT,
    ensures
        r@ == addresses_where(present@),
        address_list_ok(r@),
{
    let mut r: Vec<u16> = Vec::new();
    let mut i: usize = 0;
    while i < present.len()
        invariant
            0 <= i <= present.len() <= ADDRESS_COUNT,
            r@ == addresses_where(present@.subrange(0, i as int)),
        decreases present.len() - i,
    {
        proof {
            assert(present@.subrange(0, i + 1).drop_last() =~= present@.subrange(0, i as int));
        }
        if present[i] {
            r.push(FIRST_ADDRESS + i as u16);
        }
        i += 1;
    }
    proof {
        assert(present@.subrange(0, present.len() as int) =~= present@);
        lemma_addresses_where_ok(present@);
    }
    r
}

/// The sysfs directories to look for on bus `bus_id`, one for each scanned
/// address in ascending order; whether each exists is what
/// `kernel_detected_from_presence` takes.
pub fn sysfs_client_dirs(bus_id: u32) -> (r: Vec<String>)
    ensures
        r@.len() == ADDRESS_COUNT,
        forall|i: int| 0 <= i < ADDRESS_COUNT ==> (#[trigger] r@[i])@ == sysfs_dir_of(bus_id, address_at(i)),
{
    let mut r: Vec<String> = Vec::new();
    let mut i: usize = 0;
    while i < ADDRESS_COUNT
        invariant
            0 <= i <= ADDRESS_COUNT,
            r@.len() == i,
            forall|k: int| 0 <= k < i ==> (#[trigger] r@[k])@ == sysfs_dir_of(bus_id, address_at(k)),
        decreases ADDRESS_COUNT - i,
    {
        r.push(sysfs_device_dir(bus_id, FIRST_ADDRESS + i as u16));
        i += 1;
    }
    r
}

/// Turns the outcomes of one probe sweep of bus `bus_id` into the lists of
/// addresses that answered unbound and that a driver owns.
///
/// `outcomes[i]` is the outcome at the address at position `i`. The first
/// outcome that concerns the bus itself (missing node, no access) fails the
/// whole sweep; any other failure only leaves its address out.
pub fn classify_hw_probe(bus_id: u32, outcomes: &[ProbeOutcome]) -> (r: Result<
    (Vec<u16>, Vec<u16>),
    ScanError,
>)
    requires
        outcomes@.len() <= ADDRESS_COUNT,
    ensures
        r is Err <==> has_fatal(outcomes@),
        match r {
            Ok((unbound, bound)) => {
                &&& unbound@ == addresses_where(acknowledged_flags(outcomes@))
                &&& bound@ == addresses_where(busy_flags(outcomes@))
                &&& address_list_ok(unbound@)
                &&& address_list_ok(bound@)
                &&& disjoint(unbound@, bound@)
            },
            Err(e) => exists|i: int|
                first_fatal_at(outcomes@, i) && e == fatal_error(bus_id, #[trigger] outcomes@[i]),
        },
{
    let ghost o = outcomes@;
    let mut unbound: Vec<u16> = Vec::new();
    let mut bound: Vec<u16> = Vec::new();
    let mut i: usize = 0;
    while i < outcomes.len()
        invariant
            0 <= i <= outcomes.len() <= ADDRESS_COUNT,
            o == outcomes@,
            unbound@ == addresses_where(acknowledged_flags(o).subrange(0, i as int)),
            bound@ == addresses_where(busy_flags(o).subrange(0, i as int)),
            forall|j: int| 0 <= j < i ==> !(#[trigger] o[j]).spec_is_fatal(),
        decreases outcomes.len() - i,
    {
        proof {
            assert(acknowledged_flags(o).subrange(0, i + 1).drop_last() =~= acknowledged_flags(
                o,
            ).subrange(0, i as int));
            assert(busy_flags(o).subrange(0, i + 1).drop_last() =~= busy_flags(o).subrange(
                0,
                i as int,
            ));
        }
        let a: u16 = FIRST_ADDRESS + i as u16;
        match outcomes[i] {
            ProbeOutcome::Acknowledged => {
                unbound.push(a);
            },
            ProbeOutcome::AddressErrno(code) => {
                if errno_is_busy(code) {
                    bound.push(a);
                }
            },
            ProbeOutcome::BusMissing => {
                assert(first_fatal_at(o, i as int));
                return Err(ScanError::BusNotFound(bus_id));
            },
            ProbeOutcome::AccessDenied => {
                assert(first_fatal_at(o, i as int));
                return Err(ScanError::PermissionDenied(bus_id));
            },
            ProbeOutcome::NoResponse | ProbeOutcome::OpenFailed => {},
        }
        i += 1;
    }
    proof {
        assert(acknowledged_flags(o).subrange(0, i as int) =~= acknowledged_flags(o));
        assert(busy_flags(o).subrange(0, i as int) =~= busy_flags(o));
        lemma_addresses_where_ok(acknowledged_flags(o));
        lemma_addresses_where_ok(busy_flags(o));
        lemma_probe_lists_disjoint(o);
    }
    Ok((unbound, bound))
}

/// A source of scan results for one bus.
///
/// An implementation probes the bus (opening the bus device node once per
/// address) and looks the addresses up in the kernel's device registry. The
/// lists it hands back are sorted, in range, and the two hardware lists are
/// disjoint; `classify_hw_probe` and `kernel_detected_from_presence` build
/// them that way.
pub trait I2cScanner {
    /// Probes every address of the bus with a quick-write; gives the
    /// addresses that answered unbound and those that a driver owns.
    fn scan_hw_probe(&self) -> (r: Result<(Vec<u16>, Vec<u16>), ScanError>)
        ensures
            match r {
                Ok((unbound, bound)) => {
                    &&& address_list_ok(unbound@)
                    &&& address_list_ok(bound@)
                    &&& disjoint(unbound@, bound@)
                },
                Err(e) => !(e is AddressOutOfRange),
            },
    ;

    /// Gives the addresses that the kernel has registered on the bus.
    fn scan_sysfs(&self) -> (r: Result<Vec<u16>, ScanError>)
        ensures
            match r {
                Ok(kernel) => address_list_ok(kernel@),
                Err(e) => !(e is AddressOutOfRange),
            },
    ;
}

/// A scanner that answers from fixture data instead of hardware.
pub struct FakeI2cScanner {
    pub bus_id: u32,
    /// Outcome of the probe at each position of the scanned range.
    pub outcomes: Vec<ProbeOutcome>,
    /// Whether the kernel registered the address at each position.
    pub in_sysfs: Vec<bool>,
}

impl FakeI2cScanner {
    /// A bus on which no address answers and the kernel registered nothing.
    pub fn new(bus_id: u32) -> (r: Self)
        ensures
            r.bus_id == bus_id,
            r.outcomes@ == Seq::new(ADDRESS_COUNT as nat, |i: int| ProbeOutcome::NoResponse),
            r.in_sysfs@ == Seq::new(ADDRESS_COUNT as nat, |i: int| false),
    {
        let mut outcomes: Vec<ProbeOutcome> = Vec::new();
        let mut in_sysfs: Vec<bool> = Vec::new();
        let mut i: usize = 0;
        while i < ADDRESS_COUNT
            invariant
                0 <= i <= ADDRESS_COUNT,
                outcomes@ == Seq::new(i as nat, |j: int| ProbeOutcome::NoResponse),
                in_sysfs@ == Seq::new(i as nat, |j: int| false),
            decreases ADDRESS_COUNT - i,
        {
            outcomes.push(ProbeOutcome::NoResponse);
            in_sysfs.push(false);
            proof {
                assert(outcomes@ =~= Seq::new((i + 1) as nat, |j: int| ProbeOutcome::NoResponse));
                assert(in_sysfs@ =~= Seq::new((i + 1) as nat, |j: int| false));
            }
            i += 1;
        }
        FakeI2cScanner { bus_id, outcomes, in_sysfs }
    }

    /// The same fixture with the probe at `address` giving `outcome`; an
    /// address outside the fixture leaves it unchanged.
    pub fn with_probe(self, address: u16, outcome: ProbeOutcome) -> (r: Self)
        ensures
            r.bus_id == self.bus_id,
            r.in_sysfs@ == self.in_sysfs@,
            r.outcomes@ == if FIRST_ADDRESS <= address && address - FIRST_ADDRESS
                < self.outcomes@.len() {
                self.outcomes@.update(address - FIRST_ADDRESS, outcome)
            } else {
                self.outcomes@
            },
    {
        let mut outcomes = self.outcomes;
        if FIRST_ADDRESS <= address && ((address - FIRST_ADDRESS) as usize) < outcomes.len() {
            outcomes.set((address - FIRST_ADDRESS) as usize, outcome);
        }
        FakeI2cScanner { bus_id: self.bus_id, outcomes, in_sysfs: self.in_sysfs }
    }

    /// The same fixture with the kernel registering `address`; an address
    /// outside the fixture leaves it unchanged.
    pub fn with_sysfs_entry(self, address: u16) -> (r: Self)
        ensures
            r.bus_id == self.bus_id,
            r.outcomes@ == self.outcomes@,
            r.in_sysfs@ == if FIRST_ADDRESS <= address && address - FIRST_ADDRESS
                < self.in_sysfs@.len() {
                self.in_sysfs@.update(address - FIRST_ADDRESS, true)
            } else {
                self.in_sysfs@
            },
    {
        let mut in_sysfs = self.in_sysfs;
        if FIRST_ADDRESS <= address && ((address - FIRST_ADDRESS) as usize) < in_sysfs.len() {
            in_sysfs.set((address - FIRST_ADDRESS) as usize, true);
        }
        FakeI2cScanner { bus_id: self.bus_id, outcomes: self.outcomes, in_sysfs }
    }
}

impl I2cScanner for FakeI2cScanner {
    /// Classifies the fixture's outcomes; a fixture longer than the scanned
    /// range is refused as an I/O error.
    fn scan_hw_probe(&self) -> (r: Result<(Vec<u16>, Vec<u16>), ScanError>) {
        if self.outcomes.len() <= ADDRESS_COUNT {
            classify_hw_probe(self.bus_id, self.outcomes.as_slice())
        } else {
            Err(ScanError::IoError(self.bus_id))
        }
    }

    /// Lists the fixture's registered addresses; a fixture longer than the
    /// scanned range is refused as an I/O error.
    fn scan_sysfs(&self) -> (r: Result<Vec<u16>, ScanError>) {
        if self.in_sysfs.len() <= ADDRESS_COUNT {
            Ok(kernel_detected_from_presence(self.in_sysfs.as_slice()))
        } else {
            Err(ScanError::IoError(self.bus_id))
        }
    }
}

/// `i` is the position of the first expected address out of range.
pub open spec fn first_out_of_range_at(expected: Seq<u16>, i: int) -> bool {
    &&& 0 <= i < expected.len()
    &&& !valid_address(expected[i])
    &&& forall|j: int| 0 <= j < i ==> valid_address(#[trigger] expected[j])
}

/// Position of the first address of `expected` outside the scanned range.
pub fn first_out_of_range(expected: &[u16]) -> (r: Option<usize>)
    ensures
        match r {
            Some(i) => first_out_of_range_at(expected@, i as int),
            None => forall|j: int| 0 <= j < expected@.len() ==> valid_address(#[trigger] expected@[j]),
        },
{
    let mut i: usize = 0;
    while i < expected.len()
        invariant
            0 <= i <= expected.len(),
            forall|j: int| 0 <= j < i ==> valid_address(#[trigger] expected@[j]),
        decreases expected.len() - i,
    {
        if expected[i] < FIRST_ADDRESS || expected[i] > LAST_ADDRESS {
            return Some(i);
        }
        i += 1;
    }
    None
}

/// `v` classifies some well-formed scan against `expected`; without
/// hardware probing, one whose hardware lists are empty.
pub open spec fn classifies_some_scan(
    v: I2cValidationResult,
    expected: Seq<u16>,
    hw_probed: bool,
) -> bool {
    exists|u: Seq<u16>, b: Seq<u16>, k: Seq<u16>|
        {
            &&& scan_ok(u, b, k)
            &&& (!hw_probed ==> u.len() == 0 && b.len() == 0)
            &&& #[trigger] v.classifies(expected, u, b, k)
        }
}

/// What holds of every classification: present and missing split the
/// expected addresses; unexpected holds no expected address and no address
/// twice; each probed address is in exactly one of present and unexpected;
/// with nothing expected, nothing is present or missing.
pub open spec fn obeys_validation_laws(v: I2cValidationResult, expected: Seq<u16>) -> bool {
    &&& forall|x: u16|
        !(#[trigger] v.present@.contains(x) && #[trigger] v.missing@.contains(x))
    &&& forall|x: u16|
        (v.present@.contains(x) || v.missing@.contains(x)) <==> #[trigger] expected.contains(x)
    &&& forall|x: u16| #[trigger] v.unexpected@.contains(x) ==> !expected.contains(x)
    &&& v.unexpected@.no_duplicates()
    &&& forall|x: u16|
        #[trigger] v.probed@.contains(x) ==> (v.present@.contains(x) != v.unexpected@.contains(x))
    &&& expected.len() == 0 ==> v.present@.len() == 0 && v.missing@.len() == 0
}

/// Scans one bus through `scanner` and classifies what it saw against the
/// expected addresses.
///
/// An expected address outside the scanned range is refused before any
/// probing. The hardware probe runs only when `enable_hw_probe` is set; a
/// scanner error ends the validation with that error.
pub fn validate_bus<S: I2cScanner>(
    scanner: &S,
    expected_addresses: &[u16],
    enable_hw_probe: bool,
) -> (r: Result<I2cValidationResult, ScanError>)
    ensures
        forall|i: int|
            first_out_of_range_at(expected_addresses@, i) ==> r == Err::<
                I2cValidationResult,
                ScanError,
            >(ScanError::AddressOutOfRange(#[trigger] expected_addresses@[i])),
        match r {
            Ok(v) => {
                &&& forall|j: int|
                    0 <= j < expected_addresses@.len() ==> valid_address(
                        #[trigger] expected_addresses@[j],
                    )
                &&& classifies_some_scan(v, expected_addresses@, enable_hw_probe)
                &&& obeys_validation_laws(v, expected_addresses@)
            },
            Err(e) => e is AddressOutOfRange ==> exists|i: int|
                first_out_of_range_at(expected_addresses@, i),
        },
{
    match first_out_of_range(expected_addresses) {
        Some(i) => {
            return Err(ScanError::AddressOutOfRange(expected_addresses[i]));
        },
        None => {},
    }
    let (unbound, bound) = if enable_hw_probe {
        match scanner.scan_hw_probe() {
            Ok(lists) => lists,
            Err(e) => {
                return Err(e);
            },
        }
    } else {
        (Vec::new(), Vec::new())
    };
    let kernel = match scanner.scan_sysfs() {
        Ok(k) => k,
        Err(e) => {
            return Err(e);
        },
    };
    let v = reconcile(expected_addresses, unbound.as_slice(), bound.as_slice(), kernel.as_slice());
    assert(scan_ok(unbound@, bound@, kernel@));
    assert(!enable_hw_probe ==> unbound@.len() == 0 && bound@.len() == 0);
    assert(v.classifies(expected_addresses@, unbound@, bound@, kernel@));
    assert(classifies_some_scan(v, expected_addresses@, enable_hw_probe));
    proof {
        let e = expected_addresses@;
        lemma_present_missing_partition(e, unbound@, bound@, kernel@);
        lemma_unexpected_excludes_expected(e, unbound@, bound@, kernel@);
        lemma_probed_in_exactly_one(e, unbound@, bound@, kernel@);
        if e.len() == 0 {
            assert(e =~= Seq::<u16>::empty());
            lemma_nothing_expected(unbound@, bound@, kernel@);
        }
    }
    Ok(v)
}

/// The three address lists of one bus, as a scan found them.
pub struct I2cBusReport {
    pub bus_path: String,
    /// Addresses with an entry in the kernel's device registry.
    pub kernel_detected: Vec<u16>,
    /// Addresses that acknowledged a quick-write.
    pub hardware_unbound: Vec<u16>,
    /// Addresses that a driver owns.
    pub hardware_bound: Vec<u16>,
}

impl I2cBusReport {
    /// Each list is sorted and in range; the hardware lists are disjoint.
    pub open spec fn well_formed(&self) -> bool {
        scan_ok(self.hardware_unbound@, self.hardware_bound@, self.kernel_detected@)
    }
}

/// Scans the bus at `bus_path` through `scanner`: the hardware probe only
/// when `enable_hw_probe` is set, then the kernel's registry.
pub fn scan_bus<S: I2cScanner>(scanner: &S, bus_path: String, enable_hw_probe: bool) -> (r:
    Result<I2cBusReport, ScanError>)
    ensures
        match r {
            Ok(report) => {
                &&& report.bus_path@ == bus_path@
                &&& report.well_formed()
                &&& !enable_hw_probe ==> report.hardware_unbound@.len() == 0
                    && report.hardware_bound@.len() == 0
            },
            Err(_) => true,
        },
{
    let (hardware_unbound, hardware_bound) = if enable_hw_probe {
        match scanner.scan_hw_probe() {
            Ok(lists) => lists,
            Err(e) => {
                return Err(e);
            },
        }
    } else {
        (Vec::new(), Vec::new())
    };
    let kernel_detected = match scanner.scan_sysfs() {
        Ok(k) => k,
        Err(e) => {
            return Err(e);
        },
    };
    Ok(I2cBusReport { bus_path, kernel_detected, hardware_unbound, hardware_bound })
}

} // verus!
