//! Little-endian fields of on-disk structures.

use vstd::prelude::*;

verus! {

/// The 16-bit little-endian number stored at `offset` in `bytes`.
pub open spec fn le_u16(bytes: Seq<u8>, offset: int) -> int {
    bytes[offset] as int + 0x100 * (bytes[offset + 1] as int)
}

/// The 32-bit little-endian number stored at `offset` in `bytes`.
pub open spec fn le_u32(bytes: Seq<u8>, offset: int) -> int {
    bytes[offset] as int + 0x100 * (bytes[offset + 1] as int) + 0x1_0000 * (bytes[offset
        + 2] as int) + 0x100_0000 * (bytes[offset + 3] as int)
}

/// A little-endian field depends only on the bytes it covers.
pub proof fn lemma_le_u32_subrange(bytes: Seq<u8>, start: int, end: int, offset: int)
    requires
        0 <= start <= end <= bytes.len(),
        0 <= offset,
        offset + 4 <= end - start,
    ensures
        le_u32(bytes.subrange(start, end), offset) == le_u32(bytes, start + offset),
{
}

/// Reads the 16-bit little-endian number at `offset`.
pub fn read_u16(bytes: &[u8], offset: usize) -> (value: u16)
    requires
        offset + 2 <= bytes@.len(),
    ensures
        value == le_u16(bytes@, offset as int),
{
    let b0 = bytes[offset];
    let b1 = bytes[offset + 1];
    assert((b0 as u16) | ((b1 as u16) << 8) == b0 as u16 + 0x100 * (b1 as u16)) by (bit_vector);
    (b0 as u16) | ((b1 as u16) << 8)
}

/// Reads the 32-bit little-endian number at `offset`.
pub fn read_u32(bytes: &[u8], offset: usize) -> (value: u32)
    requires
        offset + 4 <= bytes@.len(),
    ensures
        value == le_u32(bytes@, offset as int),
{
    let b0 = bytes[offset];
    let b1 = bytes[offset + 1];
    let b2 = bytes[offset + 2];
    let b3 = bytes[offset + 3];
    assert((b0 as u32) | ((b1 as u32) << 8) | ((b2 as u32) << 16) | ((b3 as u32) << 24) == b0 as u32
        + 0x100 * (b1 as u32) + 0x1_0000 * (b2 as u32) + 0x100_0000 * (b3 as u32))
        by (bit_vector);
    (b0 as u32) | ((b1 as u32) << 8) | ((b2 as u32) << 16) | ((b3 as u32) << 24)
}

} // verus!
