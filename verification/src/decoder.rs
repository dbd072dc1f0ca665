//! The frame-stream decoder: a stateful decompression context over the
//! shared blob, the two-stage per-frame strategy (compressed path first,
//! sentinel-terminated raw path as fallback), the error-driven context
//! rebuild, and the per-entry protocol driven by the flag and size streams.
//!
//! The decompression library's results are deterministic in the dictionary
//! and input bytes, so they are given names (`zstd_step_of`, `zstd_unframe`)
//! that the trusted wrappers' contracts apply; everything the decoder does
//! with those results — cursor movement, fallback, rebuild counting, record
//! order — is verified against them.

use vstd::prelude::*;
use vstd::slice::{slice_subrange, slice_to_vec};

use crate::DecodeError;
use crate::bits::bit_at;
use crate::frame::{
    raw_record, frame_size_hint, stage_a_applicable, header_accepts, scan_sentinel,
};
use crate::varuint::read_varuint;
use crate::package::Package;
use crate::language::{LocalizationHeader, LocalizationHeaderView, Section};

verus! {

#[verifier::external_type_specification]
#[verifier::external_body]
/// The decompression context of the external compression library, opaque to
/// the verifier; all state it carries is reached only through the trusted
/// wrappers below.
pub struct ExDCtx<'a>(zstd_safe::DCtx<'a>);

/// What one bounded streaming decompression call returns, as a function of
/// its inputs alone: on a session freshly seeded with `dict` in the
/// magic-less format, reading from `src` with `cap` bytes of output room,
/// the bytes written, the bytes consumed, and the library's hint, which is
/// `0` exactly when a frame completed and was fully flushed. `None` when the
/// library reports an error for these inputs.
pub uninterp spec fn zstd_step_of(dict: Seq<u8>, src: Seq<u8>, cap: int) -> Option<(Seq<u8>, int, int)>;

/// What decoding `data` to its end returns, as a function of its inputs
/// alone: the concatenated plaintext of the magic-less frames in `data`
/// under `dict`, or `None` when `data` is not a complete sequence of
/// well-formed frames.
pub uninterp spec fn zstd_unframe(dict: Seq<u8>, data: Seq<u8>) -> Option<Seq<u8>>;

/// Relies on `zstd_safe::DCtx::try_create`: a fresh decompression context,
/// or `None` when allocation fails.
#[verifier::external_body]
fn dctx_try_create() -> (r: Option<zstd_safe::DCtx<'static>>) {
    zstd_safe::DCtx::try_create()
}

/// Relies on `zstd_safe::DCtx::load_dictionary`: copies `dict` into the
/// context; it is used for all future frames until the parameters are reset.
#[verifier::external_body]
fn dctx_load_dictionary(ctx: &mut zstd_safe::DCtx<'static>, dict: &[u8]) -> (r: Result<usize, usize>) {
    ctx.load_dictionary(dict)
}

/// Relies on `zstd_safe::DCtx::set_parameter` with
/// `DParameter::Format(FrameFormat::Magicless)`: future frames are parsed
/// without the four leading magic bytes.
#[verifier::external_body]
fn dctx_set_magicless(ctx: &mut zstd_safe::DCtx<'static>) -> (r: Result<usize, usize>) {
    ctx.set_parameter(zstd_safe::DParameter::Format(zstd_safe::FrameFormat::Magicless))
}

/// Relies on `zstd_safe::DCtx::reset` with `ResetDirective::SessionOnly`:
/// abandons any frame in progress and clears the context's recorded error;
/// parameters and the loaded dictionary are kept.
#[verifier::external_body]
fn dctx_reset_session(ctx: &mut zstd_safe::DCtx<'static>) -> (r: Result<usize, usize>) {
    ctx.reset(zstd_safe::ResetDirective::SessionOnly)
}

/// Relies on `zstd_safe::DCtx::reset` (session only), `load_dictionary`,
/// `set_parameter` (magic-less format) and `decompress_stream`: the session
/// is re-established from scratch before the one streaming call, so the
/// call's outcome is a function of the dictionary, the input bytes, and the
/// output room alone — the named `zstd_step_of`. Returns `None` when
/// re-establishing the session fails, which is an allocation-level failure
/// independent of the data.
#[verifier::external_body]
fn dctx_frame_step(ctx: &mut zstd_safe::DCtx<'static>, dict: &[u8], src: &[u8], cap: usize) -> (r: Option<Result<(Vec<u8>, usize, usize), ()>>)
    ensures
        match r {
            Some(step) => match step {
                Ok((out, used, hint)) => zstd_step_of(dict@, src@, cap as int)
                    == Some((out@, used as int, hint as int))
                    && used <= src@.len()
                    && out@.len() <= cap,
                Err(()) => zstd_step_of(dict@, src@, cap as int) is None,
            },
            None => true,
        },
{
    if ctx.reset(zstd_safe::ResetDirective::SessionOnly).is_err() { return None; }
    if ctx.load_dictionary(dict).is_err() { return None; }
    if ctx.set_parameter(zstd_safe::DParameter::Format(zstd_safe::FrameFormat::Magicless)).is_err() { return None; }
    let mut dst = vec![0u8; cap];
    let mut out = zstd_safe::OutBuffer::around(dst.as_mut_slice());
    let mut inb = zstd_safe::InBuffer::around(src);
    match ctx.decompress_stream(&mut out, &mut inb) {
        Ok(hint) => { let written = out.pos(); dst.truncate(written); Some(Ok((dst, inb.pos, hint))) },
        Err(_) => Some(Err(())),
    }
}

/// Relies on `zstd::stream::read::Decoder::with_dictionary`, its
/// `set_parameter` (magic-less format) and `std::io::Read::read_to_end`:
/// decoding `data` to its end on a fresh decoder is a function of the
/// dictionary and the data alone — the named `zstd_unframe` — and the read
/// fails exactly when `data` is not a complete sequence of well-formed
/// frames. Returns `None` when creating the decoder fails, which is an
/// allocation-level failure independent of the data.
#[verifier::external_body]
fn zstd_unframe_call(dict: &[u8], data: &[u8]) -> (r: Option<Result<Vec<u8>, ()>>)
    ensures
        match r {
            Some(step) => match step {
                Ok(out) => zstd_unframe(dict@, data@) == Some(out@),
                Err(()) => zstd_unframe(dict@, data@) is None,
            },
            None => true,
        },
{
    let mut dec = match zstd::stream::read::Decoder::with_dictionary(data, dict) {
        Ok(d) => d,
        Err(_) => { return None; },
    };
    if dec.set_parameter(zstd_safe::DParameter::Format(zstd_safe::FrameFormat::Magicless)).is_err() { return None; }
    let mut out = Vec::new();
    match std::io::Read::read_to_end(&mut dec, &mut out) {
        Ok(_) => Some(Ok(out)),
        Err(_) => Some(Err(())),
    }
}

/// The outcome of the compressed path's one bounded decompression call over
/// `src` for a frame declared to hold `declared` bytes: the plaintext and
/// the bytes consumed, provided the call completes a frame (hint zero) with
/// exactly the declared size; `None` when it errs, stops short, overruns the
/// declared size, or the declared size cannot be buffered on this machine.
pub open spec fn frame_decode_of(dict: Seq<u8>, src: Seq<u8>, declared: int) -> Option<(Seq<u8>, int)> {
    if declared + 1 > usize::MAX {
        None
    } else {
        match zstd_step_of(dict, src, declared + 1) {
            Some((out, used, hint)) => if hint == 0 && out.len() == declared {
                Some((out, used))
            } else {
                None
            },
            None => None,
        }
    }
}

/// What one run of the two-stage strategy yields at blob position `p`: when
/// the compressed path applies and its decompression succeeds, that frame's
/// plaintext and the cursor just past the frame; otherwise the raw record up
/// to the first sentinel. `None` when neither stage resolves the position.
pub open spec fn entry_record(dict: Seq<u8>, s: Seq<u8>, p: int) -> Option<(Seq<u8>, int)> {
    if stage_a_applicable(s, p) {
        let (d, k) = frame_size_hint(s, p)->Some_0;
        match frame_decode_of(dict, s.subrange(p + k, s.len() as int), d as int) {
            Some((plain, used)) => Some((plain, p + k + used)),
            None => raw_record(s, p),
        }
    } else {
        raw_record(s, p)
    }
}

/// Creates a decompression context seeded with `dictionary` and configured
/// for the magic-less frame variant.
fn make_ctx(dictionary: &[u8]) -> (r: Result<zstd_safe::DCtx<'static>, DecodeError>)
    ensures
        r is Err ==> r->Err_0 == DecodeError::DecoderUnavailable,
{
    let mut ctx = match dctx_try_create() {
        Some(c) => c,
        None => { return Err(DecodeError::DecoderUnavailable); },
    };
    match dctx_load_dictionary(&mut ctx, dictionary) {
        Ok(_) => (),
        Err(_) => { return Err(DecodeError::DecoderUnavailable); },
    }
    match dctx_set_magicless(&mut ctx) {
        Ok(_) => (),
        Err(_) => { return Err(DecodeError::DecoderUnavailable); },
    }
    Ok(ctx)
}

/// The frame-stream decoder for one container: the decompression context,
/// the dictionary it is bound to, the shared blob, the blob cursor, and the
/// count of context rebuilds performed after failed frame decodes.
pub struct PackageDecoder {
    /// The external decompression context, opaque to the verifier.
    pub ctx: zstd_safe::DCtx<'static>,
    /// The shared dictionary every frame is decoded against.
    pub dictionary: Vec<u8>,
    /// The compressed blob the frames are carved from.
    pub blob: Vec<u8>,
    /// Current byte position inside `blob`.
    pub pos: usize,
    /// How many times the context was rebuilt after a failed frame decode.
    pub rebuilds: u64,
}

impl PackageDecoder {
    /// The cursor never leaves the blob.
    pub open spec fn wf(&self) -> bool {
        self.pos <= self.blob@.len()
    }

    /// Creates a decoder over `blob`, seeded with `dictionary` and
    /// configured for magic-less frames.
    pub fn new(blob: Vec<u8>, dictionary: &[u8]) -> (r: Result<PackageDecoder, DecodeError>)
        ensures
            match r {
                Ok(d) => d.wf() && d.blob@ == blob@ && d.dictionary@ == dictionary@
                    && d.pos == 0 && d.rebuilds == 0,
                Err(e) => e == DecodeError::DecoderUnavailable,
            },
    {
        let ctx = match make_ctx(dictionary) {
            Ok(c) => c,
            Err(e) => { return Err(e); },
        };
        let dictionary = slice_to_vec(dictionary);
        Ok(PackageDecoder { ctx, dictionary, blob, pos: 0, rebuilds: 0 })
    }

    /// Rebuilds the decompression context after a failed decode, so the raw
    /// path can retry the same bytes, and counts the rebuild.
    fn rebuild_and_fail(&mut self) -> (r: Result<Vec<u8>, DecodeError>)
        requires
            old(self).rebuilds < u64::MAX,
        ensures
            final(self).blob == old(self).blob,
            final(self).dictionary == old(self).dictionary,
            final(self).pos == old(self).pos,
            match r {
                Ok(_) => false,
                Err(e) => {
                    ||| (e == DecodeError::FrameDecodeFailed
                        && final(self).rebuilds == old(self).rebuilds + 1)
                    ||| (e == DecodeError::DecoderUnavailable
                        && final(self).rebuilds == old(self).rebuilds)
                },
            },
    {
        match dctx_reset_session(&mut self.ctx) {
            Ok(_) => {
                self.rebuilds = self.rebuilds + 1;
                Err(DecodeError::FrameDecodeFailed)
            },
            Err(_) => Err(DecodeError::DecoderUnavailable),
        }
    }

    /// The compressed path of the two-stage strategy: reads the declared
    /// decompressed size, validates the frame header heuristic, and if
    /// accepted decompresses one frame, requiring exactly the declared size.
    /// On success the output is the named decompression of the frame bytes
    /// and the cursor advances by exactly the size varint plus the bytes the
    /// decompressor consumed; on any failure the cursor is left where it
    /// was, and a failed decode rebuilds the context (counted in `rebuilds`)
    /// so the raw path can retry the same bytes.
    pub fn decompress_zstd_frame(&mut self) -> (r: Result<Vec<u8>, DecodeError>)
        requires
            old(self).wf(),
            old(self).rebuilds < u64::MAX,
        ensures
            final(self).wf(),
            final(self).blob == old(self).blob,
            final(self).dictionary == old(self).dictionary,
            ({
                let s = old(self).blob@;
                let p = old(self).pos as int;
                let dict = old(self).dictionary@;
                match r {
                    Ok(out) => {
                        &&& stage_a_applicable(s, p)
                        &&& {
                            let (d, k) = frame_size_hint(s, p)->Some_0;
                            match frame_decode_of(dict, s.subrange(p + k, s.len() as int), d as int) {
                                Some((plain, used)) => out@ == plain
                                    && final(self).pos == p + k + used,
                                None => false,
                            }
                        }
                        &&& final(self).rebuilds == old(self).rebuilds
                    },
                    Err(e) => {
                        &&& final(self).pos == old(self).pos
                        &&& {
                            ||| (e == DecodeError::FrameHeaderRejected
                                && !stage_a_applicable(s, p)
                                && final(self).rebuilds == old(self).rebuilds)
                            ||| (e == DecodeError::FrameDecodeFailed
                                && stage_a_applicable(s, p)
                                && final(self).rebuilds == old(self).rebuilds + 1
                                && {
                                    let (d, k) = frame_size_hint(s, p)->Some_0;
                                    frame_decode_of(dict, s.subrange(p + k, s.len() as int), d as int) is None
                                })
                            ||| (e == DecodeError::DecoderUnavailable
                                && stage_a_applicable(s, p)
                                && final(self).rebuilds == old(self).rebuilds)
                        }
                    },
                }
            }),
    {
        let blob_len = self.blob.len();
        let pos0 = self.pos;
        let (declared, k) = match read_varuint(self.blob.as_slice(), self.pos) {
            Ok(v) => v,
            Err(_) => { return Err(DecodeError::FrameHeaderRejected); },
        };
        if !header_accepts(self.blob.as_slice(), pos0 + k, declared) {
            return Err(DecodeError::FrameHeaderRejected);
        }
        let declared_usize = declared as usize;
        if declared_usize >= usize::MAX {
            // the declared size cannot be buffered on this machine
            return self.rebuild_and_fail();
        }
        let cap = declared_usize + 1;
        let src = slice_subrange(self.blob.as_slice(), pos0 + k, blob_len);
        match dctx_frame_step(&mut self.ctx, self.dictionary.as_slice(), src, cap) {
            None => Err(DecodeError::DecoderUnavailable),
            Some(Err(())) => self.rebuild_and_fail(),
            Some(Ok((out, used, hint))) => {
                if hint == 0 && out.len() == declared_usize {
                    self.pos = pos0 + k + used;
                    Ok(out)
                } else {
                    self.rebuild_and_fail()
                }
            },
        }
    }

    /// The raw path of the two-stage strategy: reads bytes up to the first
    /// two-byte sentinel `0x0A 0x00`, which is consumed but excluded from
    /// the record. Fails when the blob ends without a sentinel, leaving the
    /// cursor where it was.
    pub fn read_raw(&mut self) -> (r: Result<Vec<u8>, DecodeError>)
        requires
            old(self).wf(),
        ensures
            final(self).wf(),
            final(self).blob == old(self).blob,
            final(self).dictionary == old(self).dictionary,
            final(self).rebuilds == old(self).rebuilds,
            ({
                let s = old(self).blob@;
                let p = old(self).pos as int;
                match r {
                    Ok(out) => raw_record(s, p) == Some((out@, final(self).pos as int)),
                    Err(e) => e == DecodeError::FrameStreamCorrupt
                        && raw_record(s, p) is None
                        && final(self).pos == old(self).pos,
                }
            }),
    {
        match scan_sentinel(self.blob.as_slice(), self.pos) {
            Some((rec, end)) => {
                self.pos = end;
                Ok(rec)
            },
            None => Err(DecodeError::FrameStreamCorrupt),
        }
    }

    /// Decodes one logical frame at the cursor with the two-stage strategy:
    /// the compressed path is tried first; if its header heuristic rejects
    /// or its decompression fails (after the one context rebuild), the raw
    /// path retries the same bytes. The result and the new cursor equal the
    /// `entry_record` of the position; decoding fails with
    /// `FrameStreamCorrupt` exactly when neither stage resolves the
    /// position, and with `DecoderUnavailable` only on an allocation-level
    /// failure.
    pub fn decode_frame(&mut self) -> (r: Result<Vec<u8>, DecodeError>)
        requires
            old(self).wf(),
            old(self).rebuilds < u64::MAX,
        ensures
            final(self).wf(),
            final(self).blob == old(self).blob,
            final(self).dictionary == old(self).dictionary,
            old(self).rebuilds <= final(self).rebuilds <= old(self).rebuilds + 1,
            !stage_a_applicable(old(self).blob@, old(self).pos as int)
                ==> final(self).rebuilds == old(self).rebuilds,
            ({
                let s = old(self).blob@;
                let p = old(self).pos as int;
                let dict = old(self).dictionary@;
                match r {
                    Ok(out) => entry_record(dict, s, p) == Some((out@, final(self).pos as int)),
                    Err(e) => {
                        &&& final(self).pos == old(self).pos
                        &&& {
                            ||| (e == DecodeError::FrameStreamCorrupt
                                && entry_record(dict, s, p) is None)
                            ||| (e == DecodeError::DecoderUnavailable
                                && stage_a_applicable(s, p))
                        }
                    },
                }
            }),
    {
        match self.decompress_zstd_frame() {
            Ok(out) => Ok(out),
            Err(DecodeError::DecoderUnavailable) => Err(DecodeError::DecoderUnavailable),
            Err(_) => {
                match self.read_raw() {
                    Ok(out) => Ok(out),
                    Err(_) => Err(DecodeError::FrameStreamCorrupt),
                }
            },
        }
    }
}

/// Flag and size-stream cursors of the per-entry protocol.
pub struct EntryCursor {
    /// Bit position inside the flag stream.
    pub flag_bit: usize,
    /// Byte position inside the size stream, counted after its fixed
    /// four-byte skip.
    pub size_pos: usize,
}

/// One step of the per-entry protocol on the flag stream at bit `bit`:
/// the present bit, then (only when present) the compressed bit, and the
/// next bit position. `None` when the flag stream ends too early.
pub open spec fn spec_entry_flags(flags: Seq<u8>, bit: int) -> Option<(bool, bool, int)> {
    if bit < 0 || bit / 8 >= flags.len() {
        None
    } else if bit_at(flags, bit) == 0 {
        Some((false, false, bit + 1))
    } else if (bit + 1) / 8 >= flags.len() {
        None
    } else {
        Some((true, bit_at(flags, bit + 1) == 1, bit + 2))
    }
}

/// Decodes one leaf entry: reads the present bit (and, when present, the
/// compressed bit) from the flag stream, consumes one size varint from the
/// size stream only for compressed entries, and for present entries decodes
/// one frame from the blob with the two-stage strategy. Absent entries
/// yield `Ok(None)` and advance nothing but the flag cursor; a present
/// entry's record equals the `entry_record` at the blob cursor.
pub fn decode_entry(
    dec: &mut PackageDecoder,
    flags: &[u8],
    sizes: &[u8],
    cur: &mut EntryCursor,
) -> (r: Result<Option<Vec<u8>>, DecodeError>)
    requires
        old(dec).wf(),
        old(dec).rebuilds < u64::MAX,
        old(cur).size_pos <= sizes@.len(),
        flags@.len() <= usize::MAX / 8,
    ensures
        final(dec).wf(),
        final(dec).blob == old(dec).blob,
        final(dec).dictionary == old(dec).dictionary,
        old(dec).rebuilds <= final(dec).rebuilds <= old(dec).rebuilds + 1,
        final(cur).size_pos <= sizes@.len(),
        ({
            let step = spec_entry_flags(flags@, old(cur).flag_bit as int);
            let dict = old(dec).dictionary@;
            let blob = old(dec).blob@;
            let p = old(dec).pos as int;
            match r {
                Ok(rec) => {
                    &&& step is Some
                    &&& {
                        let (present, compressed, nb) = step->Some_0;
                        &&& final(cur).flag_bit == nb
                        &&& (present <==> rec is Some)
                        &&& (!present ==> final(cur).size_pos == old(cur).size_pos
                            && final(dec).pos == old(dec).pos
                            && final(dec).rebuilds == old(dec).rebuilds)
                        &&& (present && !compressed ==> final(cur).size_pos == old(cur).size_pos)
                        &&& (present && compressed ==> frame_size_hint(sizes@, 4 + old(cur).size_pos) is Some
                            && final(cur).size_pos == old(cur).size_pos
                                + frame_size_hint(sizes@, 4 + old(cur).size_pos)->Some_0.1)
                        &&& (present ==> entry_record(dict, blob, p)
                            == Some(((rec->Some_0)@, final(dec).pos as int)))
                    }
                },
                Err(e) => {
                    ||| (e == DecodeError::MalformedContainer
                        && (step is None
                            || (step->Some_0.0 && step->Some_0.1
                                && frame_size_hint(sizes@, 4 + old(cur).size_pos) is None)))
                    ||| (e == DecodeError::FrameStreamCorrupt
                        && step is Some && step->Some_0.0
                        && entry_record(dict, blob, p) is None
                        && final(dec).pos == old(dec).pos)
                    ||| (e == DecodeError::DecoderUnavailable
                        && step is Some && step->Some_0.0
                        && stage_a_applicable(blob, p))
                },
            }
        }),
{
    let flags_len = flags.len();
    if cur.flag_bit / 8 >= flags_len {
        return Err(DecodeError::MalformedContainer);
    }
    let present = crate::bits::read_bit(flags, cur.flag_bit);
    if present == 0 {
        cur.flag_bit = cur.flag_bit + 1;
        return Ok(None);
    }
    if (cur.flag_bit + 1) / 8 >= flags_len {
        return Err(DecodeError::MalformedContainer);
    }
    let compressed = crate::bits::read_bit(flags, cur.flag_bit + 1);
    cur.flag_bit = cur.flag_bit + 2;
    if compressed == 1 {
        let sizes_len = sizes.len();
        if sizes_len < 4 || cur.size_pos > sizes_len - 4 {
            return Err(DecodeError::MalformedContainer);
        }
        match read_varuint(sizes, 4 + cur.size_pos) {
            Ok((_size, n)) => {
                cur.size_pos = cur.size_pos + n;
            },
            Err(_) => {
                return Err(DecodeError::MalformedContainer);
            },
        }
    }
    match dec.decode_frame() {
        Ok(rec) => Ok(Some(rec)),
        Err(DecodeError::DecoderUnavailable) => Err(DecodeError::DecoderUnavailable),
        Err(_) => Err(DecodeError::FrameStreamCorrupt),
    }
}

/// The per-entry protocol's cursor evolution over `count` entries: the flag
/// cursor advances one bit for an absent entry and two for a present one;
/// the size cursor advances by one varint per compressed entry; and the
/// count of present entries is accumulated. `None` when a stream ends too
/// early.
pub open spec fn spec_entries_shape(flags: Seq<u8>, sizes: Seq<u8>, bit: int, sp: int, count: nat) -> Option<(int, int, nat)>
    decreases count,
{
    if count == 0 {
        Some((bit, sp, 0))
    } else {
        match spec_entry_flags(flags, bit) {
            None => None,
            Some((present, compressed, nb)) => {
                if !present {
                    spec_entries_shape(flags, sizes, nb, sp, (count - 1) as nat)
                } else if compressed {
                    match frame_size_hint(sizes, 4 + sp) {
                        None => None,
                        Some((d, n)) => match spec_entries_shape(flags, sizes, nb, sp + n, (count - 1) as nat) {
                            Some((b2, sp2, m)) => Some((b2, sp2, m + 1)),
                            None => None,
                        },
                    }
                } else {
                    match spec_entries_shape(flags, sizes, nb, sp, (count - 1) as nat) {
                        Some((b2, sp2, m)) => Some((b2, sp2, m + 1)),
                        None => None,
                    }
                }
            },
        }
    }
}

/// The full decode of `count` entries: the cursor evolution of
/// `spec_entries_shape` together with the blob cursor and the records, each
/// present entry contributing the `entry_record` at the blob cursor, in
/// entry order. `None` when a stream ends too early or some entry resolves
/// to no record.
pub open spec fn spec_entries_decode(flags: Seq<u8>, sizes: Seq<u8>, dict: Seq<u8>, blob: Seq<u8>, bit: int, sp: int, bp: int, count: nat) -> Option<(int, int, int, Seq<Seq<u8>>)>
    decreases count,
{
    if count == 0 {
        Some((bit, sp, bp, Seq::empty()))
    } else {
        match spec_entry_flags(flags, bit) {
            None => None,
            Some((present, compressed, nb)) => {
                if !present {
                    spec_entries_decode(flags, sizes, dict, blob, nb, sp, bp, (count - 1) as nat)
                } else if compressed && frame_size_hint(sizes, 4 + sp) is None {
                    None
                } else {
                    let sp2 = if compressed {
                        sp + frame_size_hint(sizes, 4 + sp)->Some_0.1
                    } else {
                        sp
                    };
                    match entry_record(dict, blob, bp) {
                        None => None,
                        Some((rec, bp2)) => match spec_entries_decode(flags, sizes, dict, blob, nb, sp2, bp2, (count - 1) as nat) {
                            Some((b3, s3, p3, rest)) => Some((b3, s3, p3, seq![rec] + rest)),
                            None => None,
                        },
                    }
                }
            },
        }
    }
}

/// Decodes all `count` leaf entries of a container in order, one record per
/// present entry; the records equal the per-entry decode results, in entry
/// order. Returns `MalformedContainer` exactly when the flag or size stream
/// ends before the declared entry count is reached, `FrameStreamCorrupt`
/// when some entry resolves to no record, and `DecoderUnavailable` only on
/// an allocation-level failure.
pub fn decode_entries(
    flags: &[u8],
    sizes: &[u8],
    dictionary: &[u8],
    blob: &[u8],
    count: usize,
) -> (r: Result<Vec<Vec<u8>>, DecodeError>)
    requires
        flags@.len() <= usize::MAX / 8,
    ensures
        match r {
            Ok(recs) => {
                &&& spec_entries_shape(flags@, sizes@, 0, 0, count as nat) is Some
                &&& recs@.len() == spec_entries_shape(flags@, sizes@, 0, 0, count as nat)->Some_0.2
                &&& spec_entries_decode(flags@, sizes@, dictionary@, blob@, 0, 0, 0, count as nat) is Some
                &&& recs@.map_values(|v: Vec<u8>| v@)
                    == spec_entries_decode(flags@, sizes@, dictionary@, blob@, 0, 0, 0, count as nat)->Some_0.3
            },
            Err(e) => {
                &&& (e == DecodeError::MalformedContainer
                    ==> spec_entries_shape(flags@, sizes@, 0, 0, count as nat) is None)
                &&& (e == DecodeError::MalformedContainer || e == DecodeError::FrameStreamCorrupt
                    ==> spec_entries_decode(flags@, sizes@, dictionary@, blob@, 0, 0, 0, count as nat) is None)
                &&& (e == DecodeError::MalformedContainer
                    || e == DecodeError::FrameStreamCorrupt
                    || e == DecodeError::DecoderUnavailable)
            },
        },
{
    let blob_vec = slice_to_vec(blob);
    let mut dec = match PackageDecoder::new(blob_vec, dictionary) {
        Ok(d) => d,
        Err(e) => { return Err(e); },
    };
    let mut cur = EntryCursor { flag_bit: 0, size_pos: 0 };
    let mut recs: Vec<Vec<u8>> = Vec::new();
    let mut i: usize = 0;
    while i < count
        invariant
            flags@.len() <= usize::MAX / 8,
            dec.wf(),
            dec.blob@ == blob@,
            dec.dictionary@ == dictionary@,
            dec.rebuilds <= i,
            i <= count,
            cur.size_pos <= sizes@.len(),
            match spec_entries_shape(flags@, sizes@, cur.flag_bit as int, cur.size_pos as int, (count - i) as nat) {
                Some((b2, sp2, m)) => spec_entries_shape(flags@, sizes@, 0, 0, count as nat)
                    == Some((b2, sp2, (m + recs@.len()) as nat)),
                None => spec_entries_shape(flags@, sizes@, 0, 0, count as nat) is None,
            },
            match spec_entries_decode(flags@, sizes@, dictionary@, blob@, cur.flag_bit as int, cur.size_pos as int, dec.pos as int, (count - i) as nat) {
                Some((b2, sp2, p2, rest)) => spec_entries_decode(flags@, sizes@, dictionary@, blob@, 0, 0, 0, count as nat)
                    == Some((b2, sp2, p2, recs@.map_values(|v: Vec<u8>| v@) + rest)),
                None => spec_entries_decode(flags@, sizes@, dictionary@, blob@, 0, 0, 0, count as nat) is None,
            },
        decreases count - i,
    {
        let ghost rviews = recs@.map_values(|v: Vec<u8>| v@);
        match decode_entry(&mut dec, flags, sizes, &mut cur) {
            Ok(Some(rec)) => {
                proof {
                    if spec_entries_decode(flags@, sizes@, dictionary@, blob@, cur.flag_bit as int, cur.size_pos as int, dec.pos as int, (count - i - 1) as nat) is Some {
                        let (b3, s3, p3, rest) = spec_entries_decode(flags@, sizes@, dictionary@, blob@, cur.flag_bit as int, cur.size_pos as int, dec.pos as int, (count - i - 1) as nat)->Some_0;
                        assert(rviews + (seq![rec@] + rest) =~= (rviews + seq![rec@]) + rest);
                    }
                }
                recs.push(rec);
                proof {
                    assert(recs@.map_values(|v: Vec<u8>| v@) =~= rviews + seq![recs@.last()@]);
                }
            },
            Ok(None) => {},
            Err(e) => {
                if matches!(e, DecodeError::MalformedContainer) {
                    return Err(DecodeError::MalformedContainer);
                } else if matches!(e, DecodeError::DecoderUnavailable) {
                    return Err(DecodeError::DecoderUnavailable);
                } else {
                    return Err(DecodeError::FrameStreamCorrupt);
                }
            },
        }
        i = i + 1;
    }
    proof {
        assert(recs@.map_values(|v: Vec<u8>| v@) + Seq::<Seq<u8>>::empty()
            =~= recs@.map_values(|v: Vec<u8>| v@));
    }
    Ok(recs)
}

/// Decodes every leaf entry of a parsed Package in entry order: the flag
/// stream governs presence and compression, the size stream is consumed per
/// compressed entry, and each present entry yields one record, equal to the
/// per-entry decode result against the package's dictionary and blob.
pub fn decode_package(pkg: &Package) -> (r: Result<Vec<Vec<u8>>, DecodeError>)
    ensures
        match r {
            Ok(recs) => {
                &&& spec_entries_shape(pkg.data1_raw@, pkg.data2_raw@, 0, 0, pkg.bottom_paths_raw@.len() as nat) is Some
                &&& recs@.len() == spec_entries_shape(pkg.data1_raw@, pkg.data2_raw@, 0, 0, pkg.bottom_paths_raw@.len() as nat)->Some_0.2
                &&& spec_entries_decode(pkg.data1_raw@, pkg.data2_raw@, pkg.zstd_dictionary@, pkg.zstd_raw_data@, 0, 0, 0, pkg.bottom_paths_raw@.len() as nat) is Some
                &&& recs@.map_values(|v: Vec<u8>| v@)
                    == spec_entries_decode(pkg.data1_raw@, pkg.data2_raw@, pkg.zstd_dictionary@, pkg.zstd_raw_data@, 0, 0, 0, pkg.bottom_paths_raw@.len() as nat)->Some_0.3
            },
            Err(e) => {
                &&& (e == DecodeError::MalformedContainer
                    ==> spec_entries_shape(pkg.data1_raw@, pkg.data2_raw@, 0, 0, pkg.bottom_paths_raw@.len() as nat) is None
                        || pkg.data1_raw@.len() > usize::MAX / 8)
                &&& (e == DecodeError::MalformedContainer
                    || e == DecodeError::FrameStreamCorrupt
                    || e == DecodeError::DecoderUnavailable)
            },
        },
{
    if pkg.data1_raw.len() > usize::MAX / 8 {
        return Err(DecodeError::MalformedContainer);
    }
    decode_entries(
        pkg.data1_raw.as_slice(),
        pkg.data2_raw.as_slice(),
        pkg.zstd_dictionary.as_slice(),
        pkg.zstd_raw_data.as_slice(),
        pkg.bottom_paths_raw.len(),
    )
}

/// Decompresses `data`, which must hold complete magic-less frames and
/// nothing else, against `dictionary`, in one shot: the result is the named
/// decompression of the data, and undecodable data fails with
/// `FrameDecodeFailed` rather than being recovered silently.
pub fn decompress(data: &[u8], dictionary: &[u8]) -> (r: Result<Vec<u8>, DecodeError>)
    ensures
        match r {
            Ok(out) => zstd_unframe(dictionary@, data@) == Some(out@),
            Err(e) => {
                ||| (e == DecodeError::FrameDecodeFailed
                    && zstd_unframe(dictionary@, data@) is None)
                ||| e == DecodeError::DecoderUnavailable
            },
        },
{
    match zstd_unframe_call(dictionary, data) {
        None => Err(DecodeError::DecoderUnavailable),
        Some(Ok(out)) => Ok(out),
        Some(Err(())) => Err(DecodeError::FrameDecodeFailed),
    }
}

/// A localization header that addresses bytes outside the section's data
/// blob, or a compressed record of zero length, whose one leading size byte
/// cannot be carved off.
pub open spec fn loc_out_of_bounds(h: LocalizationHeaderView, data: Seq<u8>) -> bool {
    ||| h.localization_position + h.localization_length > data.len()
    ||| (h.compression_type == 2 && h.localization_length == 0)
}

/// The bytes a localization header addresses for decompression: its record
/// without the one leading size byte.
pub open spec fn loc_frame_bytes(h: LocalizationHeaderView, data: Seq<u8>) -> Seq<u8> {
    data.subrange(
        h.localization_position + 1,
        h.localization_position + h.localization_length,
    )
}

/// Extracts one localization record from a section's data blob: records
/// tagged with compression type 2 are decompressed against the dictionary
/// (skipping the one leading size byte); any other tag is returned verbatim.
pub fn decode_localization(data: &[u8], header: &LocalizationHeader, dictionary: &[u8]) -> (r: Result<Vec<u8>, DecodeError>)
    ensures
        ({
            let pos = header.localization_position as int;
            let len = header.localization_length as int;
            match r {
                Ok(out) => {
                    &&& !loc_out_of_bounds(header@, data@)
                    &&& (header.compression_type != 2 ==> out@ == data@.subrange(pos, pos + len))
                    &&& (header.compression_type == 2
                        ==> zstd_unframe(dictionary@, loc_frame_bytes(header@, data@)) == Some(out@))
                },
                Err(e) => {
                    ||| (e == DecodeError::MalformedContainer && loc_out_of_bounds(header@, data@))
                    ||| (e == DecodeError::FrameDecodeFailed
                        && header.compression_type == 2
                        && !loc_out_of_bounds(header@, data@)
                        && zstd_unframe(dictionary@, loc_frame_bytes(header@, data@)) is None)
                    ||| (e == DecodeError::DecoderUnavailable && header.compression_type == 2)
                },
            }
        }),
{
    let n = data.len();
    let pos = header.localization_position as usize;
    let len = header.localization_length as usize;
    if pos > n || n - pos < len {
        return Err(DecodeError::MalformedContainer);
    }
    if header.compression_type == 2 {
        if len == 0 {
            return Err(DecodeError::MalformedContainer);
        }
        match decompress(slice_subrange(data, pos + 1, pos + len), dictionary) {
            Ok(out) => Ok(out),
            Err(e) => Err(e),
        }
    } else {
        Ok(slice_to_vec(slice_subrange(data, pos, pos + len)))
    }
}

/// Decodes every localization record of one section in order: one output per
/// header, records not tagged as compressed reproduced verbatim from the
/// section's data blob, and compressed ones equal to the named decompression
/// of the bytes they address.
pub fn decode_language_section(section: &Section, dictionary: &[u8]) -> (r: Result<Vec<Vec<u8>>, DecodeError>)
    ensures
        match r {
            Ok(outs) => {
                &&& outs@.len() == section.localization_headers@.len()
                &&& forall|i: int| 0 <= i < outs@.len() ==> {
                    let h = (#[trigger] section.localization_headers@[i])@;
                    &&& !loc_out_of_bounds(h, section.data@)
                    &&& (h.compression_type != 2 ==> outs@[i]@ == section.data@.subrange(
                        h.localization_position as int,
                        h.localization_position as int + h.localization_length as int,
                    ))
                    &&& (h.compression_type == 2
                        ==> zstd_unframe(dictionary@, loc_frame_bytes(h, section.data@))
                            == Some(outs@[i]@))
                }
            },
            Err(e) => {
                ||| (e == DecodeError::MalformedContainer && exists|i: int|
                    0 <= i < section.localization_headers@.len()
                        && loc_out_of_bounds((#[trigger] section.localization_headers@[i])@, section.data@))
                ||| (e == DecodeError::FrameDecodeFailed && exists|i: int|
                    0 <= i < section.localization_headers@.len()
                        && {
                            let h = (#[trigger] section.localization_headers@[i])@;
                            h.compression_type == 2 && !loc_out_of_bounds(h, section.data@)
                                && zstd_unframe(dictionary@, loc_frame_bytes(h, section.data@)) is None
                        })
                ||| e == DecodeError::DecoderUnavailable
            },
        },
{
    let m = section.localization_headers.len();
    let mut outs: Vec<Vec<u8>> = Vec::new();
    let mut i: usize = 0;
    while i < m
        invariant
            m == section.localization_headers@.len(),
            i <= m,
            outs@.len() == i,
            forall|j: int| 0 <= j < outs@.len() ==> {
                let h = (#[trigger] section.localization_headers@[j])@;
                &&& !loc_out_of_bounds(h, section.data@)
                &&& (h.compression_type != 2 ==> outs@[j]@ == section.data@.subrange(
                    h.localization_position as int,
                    h.localization_position as int + h.localization_length as int,
                ))
                &&& (h.compression_type == 2
                    ==> zstd_unframe(dictionary@, loc_frame_bytes(h, section.data@))
                        == Some(outs@[j]@))
            },
        decreases m - i,
    {
        let header = &section.localization_headers[i];
        match decode_localization(section.data.as_slice(), header, dictionary) {
            Ok(out) => {
                outs.push(out);
            },
            Err(e) => { return Err(e); },
        }
        i = i + 1;
    }
    Ok(outs)
}

} // verus!
