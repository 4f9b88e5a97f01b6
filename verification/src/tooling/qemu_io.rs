//! Text for the serial line: what is sent for a number.

use vstd::prelude::*;

verus! {

/// The first serial line's I/O port.
pub const SERIAL_PORT: u16 = 0x3F8;

/// A writer to the serial line. It holds nothing.
pub struct SerialWriter {}

impl SerialWriter {
    pub fn new() -> Self {
        SerialWriter {  }
    }
}

/// The character for the hexadecimal digit `digit`: `0` to `9`, then `A`
/// to `F`.
pub open spec fn hex_digit(digit: int) -> u8 {
    if digit < 10 {
        (48 + digit) as u8
    } else {
        (55 + digit) as u8
    }
}

/// The eight hexadecimal digits of `value`, the highest first.
pub open spec fn hex_text(value: u32) -> Seq<u8> {
    Seq::new(8, |i: int| hex_digit(value as int / hex_unit(7 - i) % 16))
}

/// Sixteen to the power `k`, for `k` from 0 to 7.
pub open spec fn hex_unit(k: int) -> int {
    if k <= 0 {
        1
    } else if k == 1 {
        0x10
    } else if k == 2 {
        0x100
    } else if k == 3 {
        0x1000
    } else if k == 4 {
        0x1_0000
    } else if k == 5 {
        0x10_0000
    } else if k == 6 {
        0x100_0000
    } else {
        0x1000_0000
    }
}

/// The decimal digits of `n`, the highest first; `"0"` for zero.
pub open spec fn decimal_text(n: u64) -> Seq<u8>
    decreases n,
{
    if n < 10 {
        seq![(48 + n) as u8]
    } else {
        decimal_text(n / 10).push((48 + n % 10) as u8)
    }
}

/// What is sent for a 32-bit number in hexadecimal: `0x`, the eight
/// digits, and a line feed.
pub fn qemu_print_hex(value: u32) -> (text: Vec<u8>)
    ensures
        text@ == seq![0x30u8, 0x78u8] + hex_text(value) + seq![0x0Au8],
{
    let lookup: [u8; 16] = [48, 49, 50, 51, 52, 53, 54, 55, 56, 57, 65, 66, 67, 68, 69, 70];
    let units: [u32; 8] = [
        0x1000_0000,
        0x100_0000,
        0x10_0000,
        0x1_0000,
        0x1000,
        0x100,
        0x10,
        1,
    ];
    let mut text: Vec<u8> = Vec::new();
    text.push(0x30);
    text.push(0x78);
    let mut i: usize = 0;
    while i < 8
        invariant
            i <= 8,
            text@.len() == 2 + i,
            text@[0] == 0x30 && text@[1] == 0x78,
            forall|k: int| 0 <= k < 16 ==> lookup@[k] == hex_digit(k),
            forall|k: int| 0 <= k < 8 ==> units@[k] == hex_unit(7 - k),
            forall|k: int| 0 <= k < i ==> text@[2 + k] == hex_text(value)[k],
        decreases 8 - i,
    {
        let l: usize = (value / units[i] % 16) as usize;
        text.push(lookup[l]);
        i += 1;
    }
    text.push(0x0A);
    assert(text@ =~= seq![0x30u8, 0x78u8] + hex_text(value) + seq![0x0Au8]);
    text
}

/// What is sent for a number in decimal: its digits, the highest first.
pub fn qemu_print_num(n: u64) -> (text: Vec<u8>)
    ensures
        text@ == decimal_text(n),
{
    let mut digits: Vec<u8> = Vec::new();
    let mut rest: u64 = n;
    while rest >= 10
        invariant
            forall|tail: Seq<u8>| #[trigger] (decimal_text(rest) + digits@.reverse() + tail) == decimal_text(n) + tail,
        decreases rest,
    {
        let ghost before = digits@;
        let ghost old_rest = rest;
        digits.push((48 + rest % 10) as u8);
        rest = rest / 10;
        proof {
            assert forall|tail: Seq<u8>| #[trigger] (decimal_text(rest) + digits@.reverse() + tail) == decimal_text(n) + tail by {
                let last = (48 + old_rest % 10) as u8;
                assert(digits@.reverse() =~= seq![last] + before.reverse());
                assert(decimal_text(old_rest) =~= decimal_text(rest).push(last));
                assert(decimal_text(rest) + digits@.reverse() + tail =~= decimal_text(old_rest) + before.reverse() + tail);
            }
        }
    }
    let mut text: Vec<u8> = Vec::new();
    text.push((48 + rest) as u8);
    let mut i: usize = digits.len();
    while i > 0
        invariant
            i <= digits@.len(),
            text@ == decimal_text(rest) + digits@.reverse().subrange(0, digits@.len() - i),
        decreases i,
    {
        i -= 1;
        proof {
            let r = digits@.reverse();
            let k = digits@.len() - i - 1;
            assert(r.subrange(0, k + 1) =~= r.subrange(0, k).push(r[k]));
            assert(r[k] == digits@[i as int]);
        }
        text.push(digits[i]);
    }
    proof {
        let r = digits@.reverse();
        assert(r.subrange(0, digits@.len() as int) =~= r);
        assert(decimal_text(rest) + r + Seq::<u8>::empty() =~= decimal_text(rest) + r);
        assert(decimal_text(n) + Seq::<u8>::empty() =~= decimal_text(n));
    }
    text
}

/// What is sent for a string: its bytes.
pub fn qemu_print(string: &str) -> (text: Vec<u8>)
    ensures
        text@ == vstd::string::StringSliceAdditionalSpecFns::spec_bytes(string),
{
    vstd::slice::slice_to_vec(string.as_bytes())
}

/// What is sent for a line: the string's bytes and a line feed.
pub fn qemu_println(string: &str) -> (text: Vec<u8>)
    ensures
        text@ == vstd::string::StringSliceAdditionalSpecFns::spec_bytes(string).push(0x0Au8),
{
    let mut text = vstd::slice::slice_to_vec(string.as_bytes());
    text.push(0x0A);
    text
}

} // verus!
