//! How bus device nodes and sysfs client entries are named.

use vstd::prelude::*;

verus! {

/// Lowercase hexadecimal digits, by value.
pub open spec fn hex_digits() -> Seq<char> {
    seq!['0', '1', '2', '3', '4', '5', '6', '7', '8', '9', 'a', 'b', 'c', 'd', 'e', 'f']
}

/// Decimal digits, by value.
pub open spec fn decimal_digits() -> Seq<char> {
    seq!['0', '1', '2', '3', '4', '5', '6', '7', '8', '9']
}

/// `a` as four lowercase hexadecimal digits, zero padded.
pub open spec fn hex4(a: u16) -> Seq<char> {
    seq![
        hex_digits()[((a / 4096) % 16) as int],
        hex_digits()[((a / 256) % 16) as int],
        hex_digits()[((a / 16) % 16) as int],
        hex_digits()[(a % 16) as int],
    ]
}

/// `n` in decimal, without leading zeros.
pub open spec fn decimal_string(n: nat) -> Seq<char>
    decreases n,
{
    if n < 10 {
        seq![decimal_digits()[n as int]]
    } else {
        decimal_string(n / 10).push(decimal_digits()[(n % 10) as int])
    }
}

/// The one-character string of the hexadecimal digit `d`.
fn hex_digit_str(d: u16) -> (r: &'static str)
    requires
        d < 16,
    ensures
        r@ == seq![hex_digits()[d as int]],
{
    let digits = "0123456789abcdef";
    proof {
        reveal_strlit("0123456789abcdef");
        assert(digits@ =~= hex_digits());
    }
    let r = digits.substring_char(d as usize, d as usize + 1);
    assert(r@ =~= seq![hex_digits()[d as int]]);
    r
}

/// The one-character string of the decimal digit `d`.
fn decimal_digit_str(d: u32) -> (r: &'static str)
    requires
        d < 10,
    ensures
        r@ == seq![decimal_digits()[d as int]],
{
    let digits = "0123456789";
    proof {
        reveal_strlit("0123456789");
        assert(digits@ =~= decimal_digits());
    }
    let r = digits.substring_char(d as usize, d as usize + 1);
    assert(r@ =~= seq![decimal_digits()[d as int]]);
    r
}

/// Appends `n` in decimal to `out`.
pub(crate) fn append_decimal(out: &mut String, n: u32)
    ensures
        final(out)@ == old(out)@ + decimal_string(n as nat),
    decreases n,
{
    if n >= 10 {
        append_decimal(out, n / 10);
    }
    out.append(decimal_digit_str(n % 10));
    proof {
        if n >= 10 {
            assert(old(out)@ + decimal_string(n as nat) =~= old(out)@ + decimal_string(
                (n / 10) as nat,
            ) + seq![decimal_digits()[(n % 10) as int]]);
        } else {
            assert(decimal_string(n as nat) =~= seq![decimal_digits()[(n % 10) as int]]);
        }
    }
}

/// The address part of a sysfs client entry name: `address` as four
/// lowercase hexadecimal digits (`0x1b` gives `001b`).
pub fn sysfs_address_suffix(address: u16) -> (r: String)
    ensures
        r@ == hex4(address),
        r@.len() == 4,
        forall|i: int| 0 <= i < 4 ==> hex_digits().contains(#[trigger] r@[i]),
{
    let mut r = String::new();
    r.append(hex_digit_str((address / 4096) % 16));
    r.append(hex_digit_str((address / 256) % 16));
    r.append(hex_digit_str((address / 16) % 16));
    r.append(hex_digit_str(address % 16));
    assert(r@ =~= hex4(address));
    proof {
        assert forall|i: int| 0 <= i < 4 implies hex_digits().contains(#[trigger] r@[i]) by {
            if i == 0 {
                assert(hex_digits()[((address / 4096) % 16) as int] == r@[i]);
            } else if i == 1 {
                assert(hex_digits()[((address / 256) % 16) as int] == r@[i]);
            } else if i == 2 {
                assert(hex_digits()[((address / 16) % 16) as int] == r@[i]);
            } else {
                assert(hex_digits()[(address % 16) as int] == r@[i]);
            }
        }
    }
    r
}

/// The sysfs directory name of the client at `address` on bus `bus`.
pub open spec fn sysfs_dir_of(bus: u32, address: u16) -> Seq<char> {
    "/sys/bus/i2c/devices/"@ + decimal_string(bus as nat) + "-"@ + hex4(address)
}

/// The sysfs directory of the client at `address` on bus `bus_id`:
/// `/sys/bus/i2c/devices/<bus>-<aaaa>`.
pub fn sysfs_device_dir(bus_id: u32, address: u16) -> (r: String)
    ensures
        r@ == sysfs_dir_of(bus_id, address),
{
    let mut r = String::from_str("/sys/bus/i2c/devices/");
    append_decimal(&mut r, bus_id);
    r.append("-");
    let suffix = sysfs_address_suffix(address);
    r.append(suffix.as_str());
    r
}

/// The device node of bus `bus_id`: `/dev/i2c-<bus>`.
pub fn bus_device_path(bus_id: u32) -> (r: String)
    ensures
        r@ == "/dev/i2c-"@ + decimal_string(bus_id as nat),
{
    let mut r = String::from_str("/dev/i2c-");
    append_decimal(&mut r, bus_id);
    r
}

} // verus!
