//! Conversion of decoded byte records to text under the fixed single-byte
//! legacy encoding: each byte maps to the Unicode code point of the same
//! value, and in strict mode an unmappable byte is a hard failure rather
//! than a lossy substitution.

use vstd::prelude::*;

use crate::DecodeError;

verus! {

/// `s` is the text of `bytes` under the single-byte legacy encoding: one
/// character per byte, each the Unicode code point with the byte's value.
pub open spec fn latin1_text(bytes: Seq<u8>, s: Seq<char>) -> bool {
    &&& s.len() == bytes.len()
    &&& forall|i: int| 0 <= i < bytes.len() ==> (#[trigger] s[i]) as u32 == bytes[i] as u32
}

/// Relies on `encoding::all::ISO_8859_1.decode` in strict mode: the encoding
/// maps every byte to the Unicode code point with the same value, one
/// character per byte, and never fails, every byte being representable.
#[verifier::external_body]
fn latin1_decode(bytes: &[u8]) -> (r: Result<String, ()>)
    ensures
        r is Ok,
        match r {
            Ok(s) => latin1_text(bytes@, s@),
            Err(()) => true,
        },
{
    match encoding::Encoding::decode(encoding::all::ISO_8859_1, bytes, encoding::DecoderTrap::Strict) {
        Ok(s) => Ok(s),
        Err(_) => Err(()),
    }
}

/// Decodes one byte record as text under the legacy encoding. An
/// unrepresentable record would be an `InvalidEncoding` error, propagated
/// rather than substituted; under this single-byte encoding every record is
/// representable, so success is owed.
pub fn decode_text(bytes: &[u8]) -> (r: Result<String, DecodeError>)
    ensures
        r is Ok,
        match r {
            Ok(s) => latin1_text(bytes@, s@),
            Err(e) => e == DecodeError::InvalidEncoding,
        },
{
    match latin1_decode(bytes) {
        Ok(s) => Ok(s),
        Err(()) => Err(DecodeError::InvalidEncoding),
    }
}

/// Decodes a sequence of byte records to text, one string per record, in
/// record order; success is owed, every byte being representable.
pub fn records_text(recs: &Vec<Vec<u8>>) -> (r: Result<Vec<String>, DecodeError>)
    ensures
        r is Ok,
        match r {
            Ok(ts) => ts@.len() == recs@.len()
                && forall|i: int| 0 <= i < ts@.len()
                    ==> latin1_text(recs@[i]@, (#[trigger] ts@[i])@),
            Err(e) => e == DecodeError::InvalidEncoding,
        },
{
    let n = recs.len();
    let mut ts: Vec<String> = Vec::new();
    let mut i: usize = 0;
    while i < n
        invariant
            n == recs@.len(),
            i <= n,
            ts@.len() == i,
            forall|j: int| 0 <= j < ts@.len() ==> latin1_text(recs@[j]@, (#[trigger] ts@[j])@),
        decreases n - i,
    {
        match decode_text(recs[i].as_slice()) {
            Ok(s) => {
                ts.push(s);
            },
            Err(e) => { return Err(e); },
        }
        i = i + 1;
    }
    Ok(ts)
}

} // verus!
