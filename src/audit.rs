//! Cross-referencing a bus's registered devices with a hardware probe.

use vstd::prelude::*;
use std::collections::HashMap;
use crate::device::{DeviceAddress, DeviceStatus, TuxDevice};
use crate::bus::{decimal_value, digit_value, is_digit, lemma_decimal_prefix_le};
use crate::device_info::{before_first, before_first_exec};
use crate::os_release::str_eq;
use crate::reconcile::{append_new, contains_address};

verus! {

/// The I²C client addresses of `devices`, in order; devices on other buses
/// have none.
pub open spec fn i2c_addresses(devices: Seq<TuxDevice>) -> Seq<u16>
    decreases devices.len(),
{
    if devices.len() == 0 {
        Seq::empty()
    } else {
        let r = i2c_addresses(devices.drop_last());
        match devices.last().address {
            DeviceAddress::I2c { address, .. } => r.push(address),
            _ => r,
        }
    }
}

/// The unbound hardware answers that no device of `known` has, in probe
/// order, each once.
pub open spec fn unlisted_addresses(known: Seq<u16>, unbound: Seq<u16>) -> Seq<u16> {
    append_new(known, unbound).skip(known.len() as int)
}

/// `d` is `before` with `hw_responding` set to whether a driver-bound
/// answer came from its I²C address.
pub open spec fn marked(d: TuxDevice, before: TuxDevice, bound: Seq<u16>) -> bool {
    &&& d.name == before.name
    &&& d.address == before.address
    &&& d.attributes == before.attributes
    &&& d.status.in_udev == before.status.in_udev
    &&& d.status.in_sysfs == before.status.in_sysfs
    &&& d.status.driver_bound == before.status.driver_bound
    &&& d.status.hw_responding == match before.address {
        DeviceAddress::I2c { address, .. } => bound.contains(address),
        _ => false,
    }
}

/// `d` stands for a device that answered at `address` on bus `bus` but that
/// nothing registered.
pub open spec fn is_unlisted_device(d: TuxDevice, bus: u32, address: u16) -> bool {
    &&& d.name@ == "Unknown"@
    &&& d.address == DeviceAddress::I2c { bus, address }
    &&& !d.status.in_udev
    &&& !d.status.in_sysfs
    &&& d.status.hw_responding
    &&& d.status.driver_bound is None
    &&& d.attributes@ == Map::<String, String>::empty()
}

proof fn lemma_append_new_prefix(acc: Seq<u16>, s: Seq<u16>)
    ensures
        append_new(acc, s).len() >= acc.len(),
        append_new(acc, s).take(acc.len() as int) == acc,
    decreases s.len(),
{
    if s.len() > 0 {
        lemma_append_new_prefix(acc, s.drop_last());
        let r = append_new(acc, s.drop_last());
        assert(r.push(s.last()).take(acc.len() as int) =~= r.take(acc.len() as int));
    }
}

/// `c` is a hexadecimal digit, in either case.
pub open spec fn is_hex_digit(c: char) -> bool {
    is_digit(c) || ('a' <= c && c <= 'f') || ('A' <= c && c <= 'F')
}

/// The value of the hexadecimal digit `c`.
pub open spec fn hex_digit_value(c: char) -> nat {
    if is_digit(c) {
        digit_value(c)
    } else if 'a' <= c && c <= 'f' {
        ((c as u32) - ('a' as u32) + 10) as nat
    } else {
        ((c as u32) - ('A' as u32) + 10) as nat
    }
}

/// The number that the hexadecimal digits `s` spell.
pub open spec fn hex_value(s: Seq<char>) -> nat
    decreases s.len(),
{
    if s.len() == 0 {
        0
    } else {
        hex_value(s.drop_last()) * 16 + hex_digit_value(s.last())
    }
}

/// `s` is one or more decimal digits.
pub open spec fn all_digits(s: Seq<char>) -> bool {
    s.len() > 0 && forall|i: int| 0 <= i < s.len() ==> is_digit(#[trigger] s[i])
}

/// `s` is one or more hexadecimal digits.
pub open spec fn all_hex_digits(s: Seq<char>) -> bool {
    s.len() > 0 && forall|i: int| 0 <= i < s.len() ==> is_hex_digit(#[trigger] s[i])
}

/// The bus and address of a client device named `sysname` (`<bus>-<aaaa>`,
/// the bus in decimal, the address in hexadecimal) whose parent device is
/// named `parent` (an adapter `i2c-<n>`). Anything else gives none.
pub open spec fn client_address(parent: Seq<char>, sysname: Seq<char>) -> Option<(u32, u16)> {
    let bus = before_first(sysname, '-');
    let tail = sysname.skip(bus.len() + 1 as int);
    let address = before_first(tail, '-');
    if before_first(parent, '-') == "i2c"@ && bus.len() < sysname.len() && all_digits(bus)
        && decimal_value(bus) <= u32::MAX && all_hex_digits(address) && hex_value(address)
        <= 0xffff {
        Some((decimal_value(bus) as u32, hex_value(address) as u16))
    } else {
        None
    }
}

proof fn lemma_before_first_prefix(s: Seq<char>, c: char)
    ensures
        before_first(s, c).len() <= s.len(),
        before_first(s, c) == s.take(before_first(s, c).len() as int),
        forall|i: int| 0 <= i < before_first(s, c).len() ==> s[i] != c,
        before_first(s, c).len() < s.len() ==> s[before_first(s, c).len() as int] == c,
    decreases s.len(),
{
    if s.len() > 0 && s[0] != c {
        lemma_before_first_prefix(s.drop_first(), c);
        assert(before_first(s, c) =~= s.take(before_first(s, c).len() as int));
        assert forall|i: int| 0 <= i < before_first(s, c).len() implies s[i] != c by {
            if i > 0 {
                assert(s[i] == s.drop_first()[i - 1]);
            }
        }
    }
}

/// The value of the decimal digits `s`, if they fit in a `u32`.
fn parse_decimal_u32(s: &str) -> (r: Option<u32>)
    ensures
        match r {
            Some(v) => all_digits(s@) && decimal_value(s@) == v,
            None => !(all_digits(s@) && decimal_value(s@) <= u32::MAX),
        },
{
    let n = s.unicode_len();
    if n == 0 {
        return None;
    }
    let mut v: u32 = 0;
    let mut i: usize = 0;
    while i < n
        invariant
            0 <= i <= n,
            n == s@.len(),
            forall|k: int| 0 <= k < i ==> is_digit(#[trigger] s@[k]),
            v as nat == decimal_value(s@.take(i as int)),
        decreases n - i,
    {
        let c = s.get_char(i);
        if c < '0' || c > '9' {
            return None;
        }
        let d: u32 = (c as u32) - ('0' as u32);
        assert(s@.take(i + 1).drop_last() =~= s@.take(i as int));
        if v > (4294967295u32 - d) / 10 {
            proof {
                assert(v * 10 + d > u32::MAX) by (nonlinear_arith)
                    requires
                        v > (4294967295u32 - d) / 10,
                        d <= 9,
                ;
                if all_digits(s@) {
                    lemma_decimal_prefix_le(s@, i + 1);
                }
            }
            return None;
        }
        assert(v * 10 + d <= u32::MAX) by (nonlinear_arith)
            requires
                v <= (4294967295u32 - d) / 10,
                d <= 9,
        ;
        v = v * 10 + d;
        i += 1;
    }
    assert(s@.take(n as int) =~= s@);
    Some(v)
}

proof fn lemma_hex_prefix_le(s: Seq<char>, j: int)
    requires
        0 <= j <= s.len(),
    ensures
        hex_value(s.take(j)) <= hex_value(s),
    decreases s.len(),
{
    if j < s.len() {
        lemma_hex_prefix_le(s.drop_last(), j);
        assert(s.drop_last().take(j) =~= s.take(j));
    } else {
        assert(s.take(j) =~= s);
    }
}

/// The value of the hexadecimal digits `s`, if they fit in a `u16`.
fn parse_hex_u16(s: &str) -> (r: Option<u16>)
    ensures
        match r {
            Some(v) => all_hex_digits(s@) && hex_value(s@) == v,
            None => !(all_hex_digits(s@) && hex_value(s@) <= 0xffff),
        },
{
    let n = s.unicode_len();
    if n == 0 {
        return None;
    }
    let mut v: u32 = 0;
    let mut i: usize = 0;
    while i < n
        invariant
            0 <= i <= n,
            n == s@.len(),
            forall|k: int| 0 <= k < i ==> is_hex_digit(#[trigger] s@[k]),
            v as nat == hex_value(s@.take(i as int)),
            v <= 0xffff,
        decreases n - i,
    {
        let c = s.get_char(i);
        let d: u32 = if '0' <= c && c <= '9' {
            (c as u32) - ('0' as u32)
        } else if 'a' <= c && c <= 'f' {
            (c as u32) - ('a' as u32) + 10
        } else if 'A' <= c && c <= 'F' {
            (c as u32) - ('A' as u32) + 10
        } else {
            return None;
        };
        assert(s@.take(i + 1).drop_last() =~= s@.take(i as int));
        let w = v * 16 + d;
        if w > 0xffff {
            proof {
                if all_hex_digits(s@) {
                    lemma_hex_prefix_le(s@, i + 1);
                }
            }
            return None;
        }
        v = w;
        i += 1;
    }
    assert(s@.take(n as int) =~= s@);
    Some(v as u16)
}

/// The bus and address of a client device, from its name and its parent's,
/// as `client_address` says.
pub fn i2c_client_address(parent_sysname: &str, sysname: &str) -> (r: Option<(u32, u16)>)
    ensures
        r == client_address(parent_sysname@, sysname@),
{
    proof {
        lemma_before_first_prefix(sysname@, '-');
    }
    let parent_kind = before_first_exec(parent_sysname, '-');
    if !str_eq(parent_kind, "i2c") {
        return None;
    }
    let bus_text = before_first_exec(sysname, '-');
    let n = sysname.unicode_len();
    let b = bus_text.unicode_len();
    if b >= n {
        return None;
    }
    let tail = sysname.substring_char(b + 1, n);
    assert(tail@ =~= sysname@.skip(b + 1));
    let address_text = before_first_exec(tail, '-');
    match parse_decimal_u32(bus_text) {
        Some(bus) => match parse_hex_u16(address_text) {
            Some(address) => Some((bus, address)),
            None => None,
        },
        None => None,
    }
}

/// The devices of bus `bus` after a hardware probe: each registered device
/// marked with whether it answered bound, followed by one unknown device for
/// each unbound answer that no device has the address of.
pub fn audit_bus_devices(bus: u32, devices: Vec<TuxDevice>, unbound: &[u16], bound: &[u16]) -> (r:
    Vec<TuxDevice>)
    ensures
        ({
            let n = devices@.len();
            let extra = unlisted_addresses(i2c_addresses(devices@), unbound@);
            &&& r@.len() == n + extra.len()
            &&& forall|i: int| 0 <= i < n ==> marked(#[trigger] r@[i], devices@[i], bound@)
            &&& forall|j: int|
                0 <= j < extra.len() ==> is_unlisted_device(
                    #[trigger] r@[n + j],
                    bus,
                    extra[j],
                )
        }),
{
    let ghost orig = devices@;
    let n = devices.len();
    let mut rest = devices;
    let mut out: Vec<TuxDevice> = Vec::new();
    let mut known: Vec<u16> = Vec::new();
    let mut i: usize = 0;
    assert(orig.skip(0) =~= orig);
    while i < n
        invariant
            0 <= i <= n,
            n == orig.len(),
            rest@ == orig.skip(i as int),
            out@.len() == i,
            forall|k: int| 0 <= k < i ==> marked(#[trigger] out@[k], orig[k], bound@),
            known@ == i2c_addresses(orig.take(i as int)),
        decreases n - i,
    {
        let mut d = rest.remove(0);
        assert(d == orig[i as int]);
        assert(orig.skip(i as int).remove(0) =~= orig.skip(i + 1));
        assert(orig.take(i + 1).drop_last() =~= orig.take(i as int));
        let responding = match d.address.as_i2c_address() {
            Some(a) => {
                known.push(a);
                contains_address(bound, a)
            },
            None => false,
        };
        d.status.hw_responding = responding;
        out.push(d);
        i += 1;
    }
    assert(orig.take(n as int) =~= orig);
    let ghost kn = known@;
    proof {
        lemma_append_new_prefix(kn, unbound@);
    }
    let mut j: usize = 0;
    assert(unbound@.take(0) =~= Seq::<u16>::empty());
    while j < unbound.len()
        invariant
            0 <= j <= unbound.len(),
            n == orig.len(),
            kn == i2c_addresses(orig),
            known@ == append_new(kn, unbound@.take(j as int)),
            out@.len() == known@.len() - kn.len() + n,
            known@.len() >= kn.len(),
            forall|k: int| 0 <= k < n ==> marked(#[trigger] out@[k], orig[k], bound@),
            forall|k: int|
                0 <= k < known@.len() - kn.len() ==> is_unlisted_device(
                    #[trigger] out@[n + k],
                    bus,
                    known@[kn.len() + k],
                ),
        decreases unbound.len() - j,
    {
        let a = unbound[j];
        assert(unbound@.take(j + 1).drop_last() =~= unbound@.take(j as int));
        assert(unbound@.take(j + 1).last() == a);
        if !contains_address(known.as_slice(), a) {
            known.push(a);
            let status = DeviceStatus {
                in_udev: false,
                in_sysfs: false,
                hw_responding: true,
                driver_bound: None,
            };
            let ghost_device = TuxDevice {
                name: String::from_str("Unknown"),
                address: DeviceAddress::I2c { bus, address: a },
                status,
                attributes: HashMap::new(),
            };
            out.push(ghost_device);
        }
        j += 1;
    }
    assert(unbound@.take(unbound.len() as int) =~= unbound@);
    proof {
        let extra = unlisted_addresses(kn, unbound@);
        assert forall|k: int| 0 <= k < extra.len() implies is_unlisted_device(
            #[trigger] out@[n + k],
            bus,
            extra[k],
        ) by {
            assert(extra[k] == known@[kn.len() + k]);
        }
    }
    out
}

} // verus!
