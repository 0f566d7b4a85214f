//! Little-endian bytes.

use vstd::prelude::*;

verus! {

/// The little-endian bytes of a 32-bit number.
pub open spec fn le32(value: u32) -> Seq<u8> {
    seq![
        (value % 256) as u8,
        (value / 0x100 % 256) as u8,
        (value / 0x1_0000 % 256) as u8,
        (value / 0x100_0000 % 256) as u8,
    ]
}

/// The number whose little-endian bytes are the first four of `bytes`.
pub open spec fn from_le32(bytes: Seq<u8>) -> int {
    bytes[0] + 0x100 * bytes[1] + 0x1_0000 * bytes[2] + 0x100_0000 * bytes[3]
}

/// The little-endian bytes of a 64-bit number.
pub open spec fn le64(value: u64) -> Seq<u8> {
    le32((value % 0x1_0000_0000) as u32) + le32((value / 0x1_0000_0000) as u32)
}

/// `data` with `bytes` written at `offset`; what does not fit behind `offset` is cut off.
pub open spec fn overlay(data: Seq<u8>, offset: int, bytes: Seq<u8>) -> Seq<u8> {
    Seq::new(
        data.len(),
        |i: int|
            if offset <= i < offset + bytes.len() {
                bytes[i - offset]
            } else {
                data[i]
            },
    )
}

/// The low 32 bits of a number.
pub open spec fn low32(value: int) -> int {
    value % 0x1_0000_0000
}

pub fn u32_to_le(value: u32) -> (bytes: [u8; 4])
    ensures
        bytes@ == le32(value),
{
    let bytes: [u8; 4] = [
        (value % 256) as u8,
        (value / 0x100 % 256) as u8,
        (value / 0x1_0000 % 256) as u8,
        (value / 0x100_0000 % 256) as u8,
    ];
    assert(bytes@ =~= le32(value));
    bytes
}

pub fn u32_from_le(bytes: [u8; 4]) -> (value: u32)
    ensures
        value == from_le32(bytes@),
{
    bytes[0] as u32 + 0x100 * bytes[1] as u32 + 0x1_0000 * bytes[2] as u32 + 0x100_0000
        * bytes[3] as u32
}

/// Appends the little-endian bytes of `value`.
pub fn push_u64_le(out: &mut Vec<u8>, value: u64)
    ensures
        final(out)@ == old(out)@ + le64(value),
{
    let low = u32_to_le((value % 0x1_0000_0000) as u32);
    let high = u32_to_le((value / 0x1_0000_0000) as u32);
    out.extend_from_slice(low.as_slice());
    out.extend_from_slice(high.as_slice());
    assert(out@ =~= old(out)@ + le64(value));
}

/// A number is what its little-endian bytes say.
pub proof fn le32_reads_back(value: u32)
    ensures
        le32(value).len() == 4,
        from_le32(le32(value)) == value,
{
}

/// The low 32 bits, as a cast keeps them.
pub proof fn lemma_low32_of_u64(value: u64)
    ensures
        value as u32 == low32(value as int),
{
    assert(value as u32 == value % 0x1_0000_0000) by (bit_vector);
}

pub proof fn lemma_low32_of_i64(value: i64)
    ensures
        value as u32 == low32(value as int),
{
    assert(value as u32 == (value as u64) as u32) by (bit_vector);
    assert(value >= 0 ==> value as u64 == value) by (bit_vector);
    assert(value < 0 ==> value as u64 == value + 0x1_0000_0000_0000_0000) by (bit_vector);
    lemma_low32_of_u64(value as u64);
}

} // verus!
