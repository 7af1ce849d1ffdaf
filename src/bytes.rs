//! Big-endian integers read from byte sequences.
use vstd::prelude::*;

verus! {

/// The big-endian 16-bit integer at position `i` of `s`.
pub open spec fn be16(s: Seq<u8>, i: int) -> nat {
    s[i] as nat * 256 + s[i + 1] as nat
}

/// The big-endian 32-bit integer at position `i` of `s`.
pub open spec fn be32(s: Seq<u8>, i: int) -> nat {
    s[i] as nat * 16777216 + s[i + 1] as nat * 65536 + s[i + 2] as nat * 256 + s[i + 3] as nat
}

/// Reads the big-endian 16-bit integer at position `i`.
pub fn read_be16(s: &[u8], i: usize) -> (r: u16)
    requires
        i + 2 <= s@.len(),
    ensures
        r as nat == be16(s@, i as int),
{
    (s[i] as u16) * 256 + s[i + 1] as u16
}

/// Reads the big-endian 32-bit integer at position `i`.
pub fn read_be32(s: &[u8], i: usize) -> (r: u32)
    requires
        i + 4 <= s@.len(),
    ensures
        r as nat == be32(s@, i as int),
{
    (s[i] as u32) * 16777216 + (s[i + 1] as u32) * 65536 + (s[i + 2] as u32) * 256 + s[i
        + 3] as u32
}

} // verus!
