//! Little-endian integers inside byte buffers.

use vstd::prelude::*;

verus! {

/// The little-endian `u16` at `o`.
pub open spec fn le16(b: Seq<u8>, o: int) -> int {
    b[o] + 256 * b[o + 1]
}

/// The little-endian `u32` at `o`.
pub open spec fn le32(b: Seq<u8>, o: int) -> int {
    le16(b, o) + 65536 * le16(b, o + 2)
}

/// The little-endian `u64` at `o`.
#[verifier::opaque]
pub open spec fn le64(b: Seq<u8>, o: int) -> int {
    le32(b, o) + 4294967296 * le32(b, o + 4)
}

/// Reads the little-endian `u16` at `o`.
pub fn u16_at(b: &[u8], o: usize) -> (r: u16)
    requires
        o + 2 <= b@.len(),
    ensures
        r == le16(b@, o as int),
{
    b[o] as u16 + (b[o + 1] as u16) * 256
}

/// Reads the little-endian `u32` at `o`.
pub fn u32_at(b: &[u8], o: usize) -> (r: u32)
    requires
        o + 4 <= b@.len(),
    ensures
        r == le32(b@, o as int),
{
    let _len = b.len();
    u16_at(b, o) as u32 + (u16_at(b, o + 2) as u32) * 65536
}

/// Reads the little-endian `u64` at `o`.
pub fn u64_at(b: &[u8], o: usize) -> (r: u64)
    requires
        o + 8 <= b@.len(),
    ensures
        r == le64(b@, o as int),
{
    reveal(le64);
    let _len = b.len();
    u32_at(b, o) as u64 + (u32_at(b, o + 4) as u64) * 4294967296
}

/// Bounds of the decoded values.
pub proof fn lemma_le_bounds(b: Seq<u8>, o: int)
    requires
        0 <= o,
        o + 8 <= b.len(),
    ensures
        0 <= le16(b, o) <= u16::MAX,
        0 <= le32(b, o) <= u32::MAX,
        0 <= le64(b, o) <= u64::MAX,
{
    reveal(le64);
}

} // verus!
