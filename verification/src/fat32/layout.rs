//! Little-endian fields inside on-disk records.

use vstd::prelude::*;

verus! {

/// The 16-bit little-endian value stored at `at`.
pub open spec fn le16(bytes: Seq<u8>, at: int) -> int {
    bytes[at] + 256 * bytes[at + 1]
}

/// The 32-bit little-endian value stored at `at`.
pub open spec fn le32(bytes: Seq<u8>, at: int) -> int {
    bytes[at] + 256 * bytes[at + 1] + 65536 * bytes[at + 2] + 16777216 * bytes[at + 3]
}

/// The two bytes that store `value` in little-endian order.
pub open spec fn le16_bytes(value: u16) -> Seq<u8> {
    seq![(value % 256) as u8, (value / 256) as u8]
}

/// The four bytes that store `value` in little-endian order.
pub open spec fn le32_bytes(value: u32) -> Seq<u8> {
    seq![
        (value % 256) as u8,
        (value / 256 % 256) as u8,
        (value / 65536 % 256) as u8,
        (value / 16777216) as u8,
    ]
}

/// Reads the 16-bit little-endian value stored at `at`.
pub fn read_le16(bytes: &[u8], at: usize) -> (value: u16)
    requires
        at + 2 <= bytes@.len(),
    ensures
        value == le16(bytes@, at as int),
{
    bytes[at] as u16 + 256 * (bytes[at + 1] as u16)
}

/// Reads the 32-bit little-endian value stored at `at`.
pub fn read_le32(bytes: &[u8], at: usize) -> (value: u32)
    requires
        at + 4 <= bytes@.len(),
    ensures
        value == le32(bytes@, at as int),
{
    bytes[at] as u32 + 256 * (bytes[at + 1] as u32) + 65536 * (bytes[at + 2] as u32) + 16777216 * (
    bytes[at + 3] as u32)
}

/// Appends the little-endian bytes of `value` to `out`.
pub fn push_le16(out: &mut Vec<u8>, value: u16)
    ensures
        final(out)@ == old(out)@ + le16_bytes(value),
{
    out.push((value % 256) as u8);
    out.push((value / 256) as u8);
    assert(out@ =~= old(out)@ + le16_bytes(value));
}

/// Appends the little-endian bytes of `value` to `out`.
pub fn push_le32(out: &mut Vec<u8>, value: u32)
    ensures
        final(out)@ == old(out)@ + le32_bytes(value),
{
    out.push((value % 256) as u8);
    out.push((value / 256 % 256) as u8);
    out.push((value / 65536 % 256) as u8);
    out.push((value / 16777216) as u8);
    assert(out@ =~= old(out)@ + le32_bytes(value));
}

/// Copies `bytes` over the bytes of `buffer` from position `at` on.
pub fn overlay(buffer: &mut Vec<u8>, at: usize, bytes: &[u8])
    requires
        at + bytes@.len() <= old(buffer)@.len(),
    ensures
        final(buffer)@ == crate::drivers::block::disk_with(old(buffer)@, at as int, bytes@),
{
    let n: usize = bytes.len();
    let total: usize = buffer.len();
    let mut i: usize = 0;
    while i < n
        invariant
            i <= n,
            n == bytes@.len(),
            total == buffer@.len(),
            total == old(buffer)@.len(),
            at + n <= total,
            forall|j: int| 0 <= j < at + i ==> buffer@[j] == crate::drivers::block::disk_with(old(buffer)@, at as int, bytes@)[j],
            forall|j: int| at + i <= j < total ==> buffer@[j] == old(buffer)@[j],
        decreases n - i,
    {
        buffer[at + i] = bytes[i];
        i += 1;
    }
    assert(buffer@ =~= crate::drivers::block::disk_with(old(buffer)@, at as int, bytes@));
}

/// The product of two bounded numbers is bounded by the product of the bounds.
pub proof fn lemma_mul_bound(a: int, b: int, max_a: int, max_b: int)
    requires
        0 <= a <= max_a,
        0 <= b <= max_b,
    ensures
        0 <= a * b <= max_a * max_b,
{
    assert(0 <= a * b <= max_a * max_b) by (nonlinear_arith)
        requires
            0 <= a <= max_a,
            0 <= b <= max_b,
    ;
}

} // verus!
