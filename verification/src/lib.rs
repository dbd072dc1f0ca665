//! Decoder for proprietary game-asset container files ("Package" and
//! "Language" archives): a length-prefixed outer record holding a path
//! table, two auxiliary bitstreams, an embedded dictionary, and a
//! compressed blob whose frame boundaries are inferred heuristically.

use vstd::prelude::*;

pub mod bits;
pub mod decoder;
pub mod frame;
pub mod language;
pub mod layout;
pub mod package;
pub mod path;
pub mod text;
pub mod varuint;

verus! {

/// Errors raised by container parsing and frame decoding.
#[derive(Clone, Copy, Debug, PartialEq, Eq, Structural)]
pub enum DecodeError {
    /// The outer record layout violates a declared-length or offset invariant.
    MalformedContainer,
    /// The compressed-frame header heuristic rejected the bytes at the cursor
    /// (internal control flow: the caller falls back to the raw path).
    FrameHeaderRejected,
    /// The decompressor could not produce the declared number of bytes; the
    /// decoder context was rebuilt and the raw path may retry the same bytes.
    FrameDecodeFailed,
    /// Neither the compressed nor the raw path could resolve the current
    /// frame; processing of the container stops.
    FrameStreamCorrupt,
    /// A decoded record is not representable under the legacy text encoding.
    InvalidEncoding,
    /// The external decompression context could not be created.
    DecoderUnavailable,
}

} // verus!
