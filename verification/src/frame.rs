//! Heuristic recognition of a compressed-frame header at an arbitrary
//! position inside the shared blob, and the sentinel scan for raw records.
//!
//! The embedded frames carry no magic number, so whether bytes at the cursor
//! form a decodable frame is decided by validating a synthetic header: a
//! descriptor byte, an optional window descriptor, and an optional
//! dictionary-id field that must be zero (the dictionary is shared out of
//! band). A record that is not a frame is a run of bytes terminated by the
//! two-byte sentinel `0x0A 0x00`.

use vstd::prelude::*;
use vstd::arithmetic::power2::{pow2, lemma2_to64, lemma2_to64_rest};
use vstd::bits::lemma_u64_shl_is_mul;
use vstd::slice::{slice_subrange, slice_to_vec, slice_index_get};

use crate::varuint::vu_decode;

verus! {

/// The window size a window-descriptor byte encodes: a power-of-two base
/// plus eighths of the base selected by the low three bits.
pub open spec fn spec_window_size(wd: u8) -> nat {
    (pow2((10 + wd / 8) as nat) + (pow2((10 + wd / 8) as nat) / 8) * ((wd % 8) as nat)) as nat
}

/// The byte width of the dictionary-id field selected by a nonzero
/// dictionary-id flag.
pub open spec fn spec_dict_id_size(flag: u8) -> int {
    if flag == 1 { 1 } else if flag == 2 { 2 } else { 4 }
}

/// The frame-header heuristic at descriptor position `pos`, for a frame
/// whose declared decompressed size is `declared`:
/// - dictionary-id flag `0`: accepted immediately;
/// - otherwise, with the single-segment flag clear: the next byte is a
///   window descriptor, accepted only if the window it encodes is at least
///   `declared`;
/// - otherwise: the dictionary-id field follows and is accepted only if it
///   is zero, the shared external dictionary being the only one expected.
pub open spec fn spec_header_accepts(s: Seq<u8>, pos: int, declared: u32) -> bool {
    &&& 0 <= pos < s.len()
    &&& {
        let d = s[pos];
        let dict_flag = d % 4;
        let single_segment = (d / 32) % 2;
        if dict_flag == 0 {
            true
        } else if single_segment == 0 {
            &&& pos + 2 <= s.len()
            &&& spec_window_size(s[pos + 1]) >= declared
        } else {
            &&& pos + 1 + spec_dict_id_size(dict_flag) <= s.len()
            &&& forall|i: int| pos + 1 <= i < pos + 1 + spec_dict_id_size(dict_flag) ==> s[i] == 0
        }
    }
}

/// Computes the window size encoded by a window-descriptor byte.
pub fn window_size(wd: u8) -> (r: u64)
    ensures
        r == spec_window_size(wd),
{
    let wlog: u64 = 10 + (wd / 8) as u64;
    proof {
        lemma2_to64();
        lemma2_to64_rest();
        vstd::arithmetic::power2::lemma_pow2_strictly_increases(wlog as nat, 42);
        lemma_u64_shl_is_mul(1u64, wlog);
    }
    let base: u64 = 1u64 << wlog;
    proof {
        assert((base / 8) * ((wd % 8) as u64) <= 0x38000000000) by (nonlinear_arith)
            requires base <= 0x40000000000, wd % 8 < 8;
    }
    base + (base / 8) * ((wd % 8) as u64)
}

/// Validates the frame-header heuristic at descriptor position `pos`.
pub fn header_accepts(blob: &[u8], pos: usize, declared: u32) -> (r: bool)
    requires
        pos <= blob@.len(),
    ensures
        r == spec_header_accepts(blob@, pos as int, declared),
{
    let n = blob.len();
    if pos >= n {
        return false;
    }
    let d = *slice_index_get(blob, pos);
    let dict_flag = d % 4;
    let single_segment = (d / 32) % 2;
    if dict_flag == 0 {
        true
    } else if single_segment == 0 {
        if n - pos < 2 {
            false
        } else {
            let wd = *slice_index_get(blob, pos + 1);
            window_size(wd) >= declared as u64
        }
    } else {
        let id_size: usize = if dict_flag == 1 { 1 } else if dict_flag == 2 { 2 } else { 4 };
        if n - pos - 1 < id_size {
            false
        } else {
            let mut i: usize = 0;
            let mut all_zero = true;
            while i < id_size
                invariant
                    blob@.len() == n,
                    pos + 1 + id_size <= n,
                    i <= id_size,
                    id_size == spec_dict_id_size(dict_flag),
                    all_zero == (forall|j: int| pos + 1 <= j < pos + 1 + i ==> blob@[j] == 0),
                decreases id_size - i,
            {
                let b = *slice_index_get(blob, pos + 1 + i);
                if b != 0 {
                    all_zero = false;
                }
                i = i + 1;
            }
            all_zero
        }
    }
}

/// The position of the first two-byte sentinel `0x0A 0x00` at or after `i`.
pub open spec fn spec_find_sentinel(s: Seq<u8>, i: int) -> Option<int>
    decreases s.len() - i when i <= s.len()
{
    if i < 0 || i + 2 > s.len() {
        None
    } else if s[i] == 0x0a && s[i + 1] == 0x00 {
        Some(i)
    } else {
        spec_find_sentinel(s, i + 1)
    }
}

/// Scans from `start` for the first sentinel. Returns the record bytes
/// before the sentinel and the position just past the sentinel; `None` when
/// the buffer ends without one.
pub fn scan_sentinel(blob: &[u8], start: usize) -> (r: Option<(Vec<u8>, usize)>)
    requires
        start <= blob@.len(),
    ensures
        match r {
            Some((rec, end)) => {
                &&& spec_find_sentinel(blob@, start as int) == Some(end - 2)
                &&& start + 2 <= end <= blob@.len()
                &&& rec@ == blob@.subrange(start as int, end - 2)
            },
            None => spec_find_sentinel(blob@, start as int) is None,
        },
{
    let n = blob.len();
    let mut i: usize = start;
    loop
        invariant
            n == blob@.len(),
            start <= i <= n,
            spec_find_sentinel(blob@, start as int) == spec_find_sentinel(blob@, i as int),
        decreases n - i,
    {
        if n - i < 2 {
            return None;
        }
        let a = *slice_index_get(blob, i);
        let b = *slice_index_get(blob, i + 1);
        if a == 0x0a && b == 0x00 {
            let rec = slice_to_vec(slice_subrange(blob, start, i));
            return Some((rec, i + 2));
        }
        i = i + 1;
    }
}

/// What the raw path yields at blob position `p`: the bytes before the
/// first sentinel, and the position just past the sentinel; `None` when the
/// blob ends without one.
pub open spec fn raw_record(s: Seq<u8>, p: int) -> Option<(Seq<u8>, int)> {
    match spec_find_sentinel(s, p) {
        Some(q) => Some((s.subrange(p, q), q + 2)),
        None => None,
    }
}

/// The declared decompressed size read at blob position `p`: a base-128
/// varint whose value must fit 32 bits.
pub open spec fn frame_size_hint(s: Seq<u8>, p: int) -> Option<(u32, int)> {
    match vu_decode(s, p) {
        Some((v, n)) => if v < 0x100000000 {
            Some((v as u32, n))
        } else {
            None
        },
        None => None,
    }
}

/// Whether the compressed path applies at blob position `p`: a valid size
/// varint followed by an accepted frame header.
pub open spec fn stage_a_applicable(s: Seq<u8>, p: int) -> bool {
    match frame_size_hint(s, p) {
        Some((d, k)) => spec_header_accepts(s, p + k, d),
        None => false,
    }
}

} // verus!
