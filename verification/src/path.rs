//! A path record: a length-prefixed name followed by two trailing metadata
//! bytes whose meaning is unknown upstream and which are preserved verbatim.

use vstd::prelude::*;
use vstd::bytes::{spec_u32_to_le_bytes, lemma_auto_spec_u32_to_from_le_bytes};
use vstd::slice::{slice_subrange, slice_to_vec, slice_index_get};

use vstd::utf8::{valid_utf8, valid_first_scalar, pop_first_scalar, is_leading_byte_width_1, is_leading_byte_width_2, is_leading_byte_width_3, is_leading_byte_width_4, is_continuation_byte, decode_first_codepoint, length_of_first_codepoint};

use crate::DecodeError;
use crate::layout::{u32_le_at, read_u32_le};

verus! {

/// One entry of a container's path table.
pub struct Path {
    /// Byte length of `name`, as declared in the record.
    pub length: u32,
    /// The name's bytes, validated as UTF-8 text and kept verbatim.
    pub name: Vec<u8>,
    /// First trailing metadata byte; meaning unknown, preserved.
    pub unknown1: u8,
    /// Second trailing metadata byte; meaning unknown, preserved.
    pub unknown2: u8,
}

/// Mathematical model of a `Path`.
pub struct PathView {
    pub length: u32,
    pub name: Seq<u8>,
    pub unknown1: u8,
    pub unknown2: u8,
}

impl View for Path {
    type V = PathView;

    open spec fn view(&self) -> PathView {
        PathView {
            length: self.length,
            name: self.name@,
            unknown1: self.unknown1,
            unknown2: self.unknown2,
        }
    }
}

/// A well-formed path: the declared length matches the name.
pub open spec fn path_wf(p: PathView) -> bool {
    p.name.len() == p.length
}

/// The serialized form of a path record: length field, name bytes, and the
/// two trailing metadata bytes.
pub open spec fn path_record_bytes(p: PathView) -> Seq<u8> {
    spec_u32_to_le_bytes(p.length) + p.name + seq![p.unknown1, p.unknown2]
}


/// Checks that `bytes` is well-formed UTF-8, against the verifier library's
/// definition of validity: each codepoint has a well-formed leading byte and
/// continuation bytes, is not an overlong encoding, and is not a surrogate.
pub fn utf8_valid(bytes: &[u8]) -> (r: bool)
    ensures
        r == valid_utf8(bytes@),
{
    let n = bytes.len();
    let mut i: usize = 0;
    proof {
        assert(bytes@.skip(0) =~= bytes@);
    }
    loop
        invariant
            i <= n,
            n == bytes@.len(),
            valid_utf8(bytes@) == valid_utf8(bytes@.skip(i as int)),
        decreases n - i,
    {
        let ghost rest = bytes@.skip(i as int);
        if i == n {
            assert(rest =~= Seq::<u8>::empty());
            return true;
        }
        let b0 = *slice_index_get(bytes, i);
        proof {
            assert(rest.len() == n - i);
            assert(rest[0] == bytes@[i as int]);
        }
        if b0 <= 0x7f {
            proof {
                assert(is_leading_byte_width_1(b0));
                assert((b0 & 0x7f) == b0 && b0 < 0xd800) by (bit_vector)
                    requires b0 <= 0x7f;
                assert(valid_first_scalar(rest));
                assert(pop_first_scalar(rest) =~= bytes@.skip(i as int + 1));
            }
            i = i + 1;
        } else if 0xc0 <= b0 && b0 <= 0xdf {
            if n - i < 2 {
                proof { assert(!valid_first_scalar(rest)); }
                return false;
            }
            let b1 = *slice_index_get(bytes, i + 1);
            proof { assert(rest[1] == bytes@[i as int + 1]); }
            if !(0x80 <= b1 && b1 <= 0xbf) {
                proof { assert(!valid_first_scalar(rest)); }
                return false;
            }
            let cp = (((b0 & 0x1f) as u32) << 6u32) | ((b1 & 0x3f) as u32);
            proof {
                assert(decode_first_codepoint(rest) == cp);
                assert((((b0 & 0x1f) as u32) << 6u32) | ((b1 & 0x3f) as u32) <= 0x7ff) by (bit_vector);
            }
            if cp < 0x80 {
                proof { assert(!valid_first_scalar(rest)); }
                return false;
            }
            proof {
                assert(valid_first_scalar(rest));
                assert(pop_first_scalar(rest) =~= bytes@.skip(i as int + 2));
            }
            i = i + 2;
        } else if 0xe0 <= b0 && b0 <= 0xef {
            if n - i < 3 {
                proof { assert(!valid_first_scalar(rest)); }
                return false;
            }
            let b1 = *slice_index_get(bytes, i + 1);
            let b2 = *slice_index_get(bytes, i + 2);
            proof {
                assert(rest[1] == bytes@[i as int + 1]);
                assert(rest[2] == bytes@[i as int + 2]);
            }
            if !(0x80 <= b1 && b1 <= 0xbf) || !(0x80 <= b2 && b2 <= 0xbf) {
                proof { assert(!valid_first_scalar(rest)); }
                return false;
            }
            let cp = (((b0 & 0x0f) as u32) << 12u32) | (((b1 & 0x3f) as u32) << 6u32) | ((b2 & 0x3f) as u32);
            proof {
                assert(decode_first_codepoint(rest) == cp);
            }
            if cp < 0x800 || (0xd800 <= cp && cp <= 0xdfff) {
                proof { assert(!valid_first_scalar(rest)); }
                return false;
            }
            proof {
                assert(valid_first_scalar(rest));
                assert(pop_first_scalar(rest) =~= bytes@.skip(i as int + 3));
            }
            i = i + 3;
        } else if 0xf0 <= b0 && b0 <= 0xf7 {
            if n - i < 4 {
                proof { assert(!valid_first_scalar(rest)); }
                return false;
            }
            let b1 = *slice_index_get(bytes, i + 1);
            let b2 = *slice_index_get(bytes, i + 2);
            let b3 = *slice_index_get(bytes, i + 3);
            proof {
                assert(rest[1] == bytes@[i as int + 1]);
                assert(rest[2] == bytes@[i as int + 2]);
                assert(rest[3] == bytes@[i as int + 3]);
            }
            if !(0x80 <= b1 && b1 <= 0xbf) || !(0x80 <= b2 && b2 <= 0xbf) || !(0x80 <= b3 && b3 <= 0xbf) {
                proof { assert(!valid_first_scalar(rest)); }
                return false;
            }
            let cp = (((b0 & 0x07) as u32) << 18u32) | (((b1 & 0x3f) as u32) << 12u32)
                | (((b2 & 0x3f) as u32) << 6u32) | ((b3 & 0x3f) as u32);
            proof {
                assert(decode_first_codepoint(rest) == cp);
            }
            if cp < 0x10000 || cp > 0x10ffff {
                proof { assert(!valid_first_scalar(rest)); }
                return false;
            }
            proof {
                assert(valid_first_scalar(rest));
                assert(pop_first_scalar(rest) =~= bytes@.skip(i as int + 4));
            }
            i = i + 4;
        } else {
            // a lone continuation byte or a byte past 0xf7 leads nothing
            proof { assert(!valid_first_scalar(rest)); }
            return false;
        }
    }
}

/// A path record parsed at byte offset `off` of `s`, together with the
/// record's full size (`6 + length`). `None` when the buffer is too short.
pub open spec fn spec_parse_path(s: Seq<u8>, off: int) -> Option<(PathView, int)> {
    if off < 0 || off + 4 > s.len() {
        None
    } else {
        let l = u32_le_at(s, off) as int;
        if off + 6 + l > s.len() {
            None
        } else if !valid_utf8(s.subrange(off + 4, off + 4 + l)) {
            None
        } else {
            Some((
                PathView {
                    length: u32_le_at(s, off),
                    name: s.subrange(off + 4, off + 4 + l),
                    unknown1: s[off + 4 + l],
                    unknown2: s[off + 5 + l],
                },
                6 + l,
            ))
        }
    }
}

/// Parses one path record at `off`, returning the record and its full size
/// in bytes (including the length field and both metadata bytes). A record
/// whose declared length exceeds the remaining buffer, or whose name bytes
/// are not well-formed UTF-8 text, is a malformed container.
pub fn parse_path(bytes: &[u8], off: usize) -> (r: Result<(Path, usize), DecodeError>)
    requires
        off <= bytes@.len(),
    ensures
        match r {
            Ok((p, n)) => spec_parse_path(bytes@, off as int) == Some((p@, n as int))
                && path_wf(p@)
                && off + n <= bytes@.len(),
            Err(e) => spec_parse_path(bytes@, off as int) is None
                && e == DecodeError::MalformedContainer,
        },
{
    if bytes.len() - off < 4 {
        return Err(DecodeError::MalformedContainer);
    }
    let length = read_u32_le(bytes, off);
    let l = length as usize;
    if bytes.len() - off < 6 || bytes.len() - off - 6 < l {
        return Err(DecodeError::MalformedContainer);
    }
    let name = slice_to_vec(slice_subrange(bytes, off + 4, off + 4 + l));
    if !utf8_valid(name.as_slice()) {
        return Err(DecodeError::MalformedContainer);
    }
    let unknown1 = *vstd::slice::slice_index_get(bytes, off + 4 + l);
    let unknown2 = *vstd::slice::slice_index_get(bytes, off + 5 + l);
    Ok((Path { length, name, unknown1, unknown2 }, 6 + l))
}

/// Law: re-serializing a parsed path record with the same layout rules
/// reproduces exactly the bytes it was parsed from.
pub proof fn lemma_path_round_trip(s: Seq<u8>, off: int)
    requires
        spec_parse_path(s, off) is Some,
    ensures
        ({
            let (p, n) = spec_parse_path(s, off)->Some_0;
            &&& path_wf(p)
            &&& off + n <= s.len()
            &&& s.subrange(off, off + n) == path_record_bytes(p)
        }),
{
    lemma_auto_spec_u32_to_from_le_bytes();
    let (p, n) = spec_parse_path(s, off)->Some_0;
    let l = u32_le_at(s, off) as int;
    assert(spec_u32_to_le_bytes(p.length) == s.subrange(off, off + 4));
    assert(s.subrange(off, off + n) =~= path_record_bytes(p));
}

} // verus!
