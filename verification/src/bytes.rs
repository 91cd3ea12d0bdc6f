//! Little-endian field access and byte copying shared by the binary parsers.

use vstd::prelude::*;

verus! {

/// The unsigned value of the four little-endian bytes starting at `offset`.
pub open spec fn le_u32(bytes: Seq<u8>, offset: int) -> int {
    bytes[offset] as int + bytes[offset + 1] as int * 0x100 + bytes[offset + 2] as int * 0x1_0000
        + bytes[offset + 3] as int * 0x100_0000
}

pub proof fn lemma_le_u32_bound(bytes: Seq<u8>, offset: int)
    requires
        0 <= offset,
        offset + 4 <= bytes.len(),
    ensures
        0 <= le_u32(bytes, offset) <= u32::MAX,
{
}

/// Reads the little-endian `u32` stored at `offset`.
pub fn read_u32_le(bytes: &[u8], offset: usize) -> (value: u32)
    requires
        offset + 4 <= bytes@.len(),
    ensures
        value as int == le_u32(bytes@, offset as int),
{
    let b0 = bytes[offset] as u32;
    let b1 = bytes[offset + 1] as u32;
    let b2 = bytes[offset + 2] as u32;
    let b3 = bytes[offset + 3] as u32;
    b0 + b1 * 0x100 + b2 * 0x1_0000 + b3 * 0x100_0000
}

/// Copies a byte slice into a new vector.
pub fn copy_bytes(bytes: &[u8]) -> (copy: Vec<u8>)
    ensures
        copy@ == bytes@,
{
    let mut copy: Vec<u8> = Vec::with_capacity(bytes.len());
    let mut index: usize = 0;
    while index < bytes.len()
        invariant
            index <= bytes@.len(),
            copy@ == bytes@.subrange(0, index as int),
        decreases bytes@.len() - index,
    {
        copy.push(bytes[index]);
        index += 1;
        assert(copy@ =~= bytes@.subrange(0, index as int));
    }
    assert(copy@ =~= bytes@);
    copy
}

} // verus!
