//! Bit-level flag extraction over raw byte buffers.
//!
//! The flag stream of a container stores two flags per leaf entry, packed
//! least-significant-bit first inside each byte.

use vstd::prelude::*;
use vstd::arithmetic::div_mod::lemma_fundamental_div_mod_converse;

verus! {

/// The bit of `s` at bit offset `off`: bit `off % 8` of byte `off / 8`,
/// counting from the least significant bit.
pub open spec fn bit_at(s: Seq<u8>, off: int) -> u8 {
    (s[off / 8] >> ((off % 8) as u8)) & 1
}

/// Reads a single bit from the buffer at the given bit offset.
pub fn read_bit(bytes: &[u8], offset: usize) -> (r: u8)
    requires
        offset / 8 < bytes@.len(),
    ensures
        r == bit_at(bytes@, offset as int),
        r == 0 || r == 1,
{
    let b = bytes[offset / 8];
    let j = (offset % 8) as u8;
    let r = (b >> j) & 1;
    proof {
        assert(j < 8);
        assert((b >> j) & 1 == 0 || (b >> j) & 1 == 1) by (bit_vector);
    }
    r
}

/// Bit positions decompose by byte: the bit at offset `8 * k + j` is bit `j`
/// of byte `k`, for `0 <= j < 8`.
pub proof fn lemma_bit_at_decomposition(s: Seq<u8>, k: int, j: int)
    requires
        0 <= j < 8,
        0 <= k < s.len(),
    ensures
        bit_at(s, 8 * k + j) == (s[k] >> (j as u8)) & 1,
{
    lemma_fundamental_div_mod_converse(8 * k + j, 8, k, j);
    assert((8 * k + j) / 8 == k);
    assert((8 * k + j) % 8 == j);
}

} // verus!
