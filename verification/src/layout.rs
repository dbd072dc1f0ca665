//! Shared pieces of the container layout: little-endian numeric fields and
//! length-prefixed byte blocks, each parsed against its specification.

use vstd::prelude::*;
use vstd::bytes::{spec_u16_from_le_bytes, spec_u32_from_le_bytes, u16_from_le_bytes, u32_from_le_bytes};
use vstd::slice::{slice_subrange, slice_to_vec};

use crate::DecodeError;

verus! {

/// The 32-bit little-endian value stored at byte offset `off` of `s`.
pub open spec fn u32_le_at(s: Seq<u8>, off: int) -> u32 {
    spec_u32_from_le_bytes(s.subrange(off, off + 4))
}

/// The 16-bit little-endian value stored at byte offset `off` of `s`.
pub open spec fn u16_le_at(s: Seq<u8>, off: int) -> u16 {
    spec_u16_from_le_bytes(s.subrange(off, off + 2))
}

/// Reads the 32-bit little-endian field at byte offset `off`.
pub fn read_u32_le(bytes: &[u8], off: usize) -> (r: u32)
    requires
        off + 4 <= bytes@.len(),
    ensures
        r == u32_le_at(bytes@, off as int),
{
    let _n = bytes.len();
    u32_from_le_bytes(slice_subrange(bytes, off, off + 4))
}

/// Reads the 16-bit little-endian field at byte offset `off`.
pub fn read_u16_le(bytes: &[u8], off: usize) -> (r: u16)
    requires
        off + 2 <= bytes@.len(),
    ensures
        r == u16_le_at(bytes@, off as int),
{
    let _n = bytes.len();
    u16_from_le_bytes(slice_subrange(bytes, off, off + 2))
}

/// A length-prefixed block at offset `off`: a 32-bit little-endian byte
/// count followed by that many bytes. Yields the block and the offset just
/// past it; `None` when the declared length exceeds the remaining buffer.
pub open spec fn spec_parse_lp(s: Seq<u8>, off: int) -> Option<(Seq<u8>, int)> {
    if off < 0 || off + 4 > s.len() {
        None
    } else {
        let l = u32_le_at(s, off) as int;
        if off + 4 + l > s.len() {
            None
        } else {
            Some((s.subrange(off + 4, off + 4 + l), off + 4 + l))
        }
    }
}

/// The serialized form of a length-prefixed block: the 32-bit byte count,
/// then the bytes.
pub open spec fn lp_bytes(d: Seq<u8>) -> Seq<u8> {
    vstd::bytes::spec_u32_to_le_bytes(d.len() as u32) + d
}

/// Law: re-serializing a parsed length-prefixed block reproduces exactly the
/// bytes it was parsed from.
pub proof fn lemma_lp_round_trip(s: Seq<u8>, off: int)
    requires
        spec_parse_lp(s, off) is Some,
    ensures
        ({
            let (d, end) = spec_parse_lp(s, off)->Some_0;
            &&& off + 4 <= end <= s.len()
            &&& d.len() == end - off - 4
            &&& s.subrange(off, end) == lp_bytes(d)
        }),
{
    vstd::bytes::lemma_auto_spec_u32_to_from_le_bytes();
    let (d, end) = spec_parse_lp(s, off)->Some_0;
    assert(vstd::bytes::spec_u32_to_le_bytes(d.len() as u32) == s.subrange(off, off + 4));
    assert(s.subrange(off, end) =~= lp_bytes(d));
}

/// Parses a length-prefixed block, returning the block and the offset just
/// past it.
pub fn parse_lp(bytes: &[u8], off: usize) -> (r: Result<(Vec<u8>, usize), DecodeError>)
    requires
        off <= bytes@.len(),
    ensures
        match r {
            Ok((d, end)) => spec_parse_lp(bytes@, off as int) == Some((d@, end as int))
                && off <= end <= bytes@.len(),
            Err(e) => spec_parse_lp(bytes@, off as int) is None
                && e == DecodeError::MalformedContainer,
        },
{
    if bytes.len() - off < 4 {
        return Err(DecodeError::MalformedContainer);
    }
    let l = read_u32_le(bytes, off) as usize;
    if bytes.len() - (off + 4) < l {
        return Err(DecodeError::MalformedContainer);
    }
    let d = slice_to_vec(slice_subrange(bytes, off + 4, off + 4 + l));
    Ok((d, off + 4 + l))
}

} // verus!
