//! Tests for the frame-header heuristic, the sentinel scan, the frame-stream
//! decoder with its context rebuild, and the text conversion.

use packdec::decoder::{decode_entries, decode_localization, decode_package, decompress, PackageDecoder};
use packdec::frame::{header_accepts, scan_sentinel};
use packdec::language::LocalizationHeader;
use packdec::package::{parse_package, DICTIONARY_SIZE};
use packdec::text::decode_text;
use packdec::varuint::encode_varuint;
use packdec::DecodeError;

fn push_u32_le(out: &mut Vec<u8>, v: u32) {
    out.extend_from_slice(&v.to_le_bytes());
}

/// Compresses `payload` against `dictionary` and strips the four leading
/// magic bytes, yielding a frame in the magic-less variant.
fn magicless_frame(payload: &[u8], dictionary: &[u8]) -> Vec<u8> {
    let mut compressor = zstd::bulk::Compressor::with_dictionary(3, dictionary).expect("compressor");
    let framed = compressor.compress(payload).expect("compress");
    framed[4..].to_vec()
}

#[test]
fn header_accepts_dictionary_flag_zero() {
    // descriptor byte with dictionary-id flag 00 is accepted immediately
    let blob = [0x20u8];
    assert!(header_accepts(&blob, 0, 123456));
    let blob2 = [0x00u8];
    assert!(header_accepts(&blob2, 0, 0));
}

#[test]
fn header_window_descriptor_bounds_declared_size() {
    // dictionary-id flag 01, single-segment clear: the next byte encodes the
    // window; window descriptor 0x00 encodes 1 << 10 bytes
    let blob = [0x01u8, 0x00];
    assert!(header_accepts(&blob, 0, 1024));
    assert!(!header_accepts(&blob, 0, 1025));
    // larger window: descriptor 0x08 encodes 1 << 11
    let blob2 = [0x01u8, 0x08];
    assert!(header_accepts(&blob2, 0, 2048));
    assert!(!header_accepts(&blob2, 0, 2049));
}

#[test]
fn header_dictionary_id_must_be_zero() {
    // single-segment set, dictionary-id flag 01: one id byte follows
    let accept = [0x21u8, 0x00];
    assert!(header_accepts(&accept, 0, 7));
    let reject = [0x21u8, 0x05];
    assert!(!header_accepts(&reject, 0, 7));
    // flag 10: two id bytes
    let accept2 = [0x22u8, 0x00, 0x00];
    assert!(header_accepts(&accept2, 0, 7));
    let reject2 = [0x22u8, 0x00, 0x01];
    assert!(!header_accepts(&reject2, 0, 7));
    // truncated id field rejects
    let short = [0x22u8, 0x00];
    assert!(!header_accepts(&short, 0, 7));
}

#[test]
fn sentinel_scan_basic() {
    // [0x41, 0x0A, 0x00] decodes to [0x41]
    let (rec, end) = scan_sentinel(&[0x41, 0x0A, 0x00], 0).expect("sentinel");
    assert_eq!(rec, vec![0x41]);
    assert_eq!(end, 3);
}

#[test]
fn sentinel_scan_keeps_lone_line_feed() {
    // a lone 0x0A not followed by 0x00 is data
    let (rec, end) = scan_sentinel(&[0x41, 0x0A, 0x42, 0x0A, 0x00], 0).expect("sentinel");
    assert_eq!(rec, vec![0x41, 0x0A, 0x42]);
    assert_eq!(end, 5);
}

#[test]
fn sentinel_scan_none_without_terminator() {
    assert!(scan_sentinel(&[0x41, 0x0A], 0).is_none());
}

#[test]
fn decompress_round_trips_with_dictionary() {
    let dictionary = vec![0x61u8; 4096];
    let payload = b"the quick brown fox jumps over the lazy dog".to_vec();
    let frame = magicless_frame(&payload, &dictionary);
    let out = decompress(&frame, &dictionary).expect("decompress");
    assert_eq!(out, payload);
}

#[test]
fn decoder_decompresses_one_frame_and_advances() {
    let dictionary = vec![0u8; 1024];
    let payload = b"record payload bytes".to_vec();
    let frame = magicless_frame(&payload, &dictionary);
    let mut blob = encode_varuint(payload.len() as u32);
    blob.extend_from_slice(&frame);
    let blob_len = blob.len();
    let mut dec = PackageDecoder::new(blob, &dictionary).expect("decoder");
    let out = dec.decompress_zstd_frame().expect("frame");
    assert_eq!(out, payload);
    assert_eq!(dec.pos, blob_len);
    assert_eq!(dec.rebuilds, 0);
}

#[test]
fn decoder_rejects_header_and_falls_back() {
    // the header heuristic rejects (nonzero dictionary id), so decode_frame
    // takes the raw path without touching the decompressor
    let blob = vec![0x05, 0x21, 0x42, 0x0A, 0x00];
    let mut dec = PackageDecoder::new(blob, &[0u8; 64]).expect("decoder");
    let out = dec.decode_frame().expect("frame");
    assert_eq!(out, vec![0x05, 0x21, 0x42]);
    assert_eq!(dec.pos, 5);
    assert_eq!(dec.rebuilds, 0);
}

#[test]
fn compressed_path_reports_header_rejection() {
    // nonzero dictionary id: the compressed path itself reports the
    // rejection and moves nothing
    let blob = vec![0x05, 0x21, 0x42, 0x0A, 0x00];
    let mut dec = PackageDecoder::new(blob, &[0u8; 64]).expect("decoder");
    let r = dec.decompress_zstd_frame();
    assert!(matches!(r, Err(DecodeError::FrameHeaderRejected)));
    assert_eq!(dec.pos, 0);
    assert_eq!(dec.rebuilds, 0);
}

#[test]
fn decompress_rejects_garbage() {
    let r = decompress(&[0x20, 0xFF, 0xFF, 0xFF], &[0u8; 64]);
    assert!(matches!(r, Err(DecodeError::FrameDecodeFailed)));
}

#[test]
fn decoder_rebuilds_once_on_truncated_frame() {
    // a truncated compressed frame triggers exactly one context rebuild and
    // the raw path retries the same bytes; the cursor ends just past the
    // first sentinel, not at the attempted compressed-path position
    let dictionary = vec![0u8; 1024];
    let payload = vec![0x37u8; 500];
    let frame = magicless_frame(&payload, &dictionary);
    assert!(frame.len() > 8);
    let mut blob = encode_varuint(payload.len() as u32);
    blob.extend_from_slice(&frame[..frame.len() - 5]);
    blob.push(0x0A);
    blob.push(0x00);
    // expected raw record: everything before the first sentinel
    let q = (0..blob.len() - 1)
        .find(|&i| blob[i] == 0x0A && blob[i + 1] == 0x00)
        .expect("sentinel");
    let expected = blob[..q].to_vec();
    let mut dec = PackageDecoder::new(blob, &dictionary).expect("decoder");
    let out = dec.decode_frame().expect("frame");
    assert_eq!(dec.rebuilds, 1);
    assert_eq!(out, expected);
    assert_eq!(dec.pos, q + 2);
}

#[test]
fn entries_follow_flag_and_size_streams() {
    // three leaf entries: (present, raw), (absent), (present, compressed)
    let dictionary = vec![0u8; 2048];
    let payload = b"compressed entry payload".to_vec();
    let frame = magicless_frame(&payload, &dictionary);

    // flag bits in stream order: 1,0 (entry one), 0 (entry two), 1,1 (entry three)
    let flags = vec![0b0001_1001u8];
    let mut sizes = vec![0u8; 4]; // fixed skip
    sizes.extend_from_slice(&encode_varuint(frame.len() as u32));
    let mut blob = b"Hello".to_vec();
    blob.push(0x0A);
    blob.push(0x00);
    blob.extend_from_slice(&encode_varuint(payload.len() as u32));
    blob.extend_from_slice(&frame);

    let recs = decode_entries(&flags, &sizes, &dictionary, &blob, 3).expect("decode");
    assert_eq!(recs.len(), 2);
    assert_eq!(recs[0], b"Hello".to_vec());
    assert_eq!(recs[1], payload);
}

#[test]
fn entries_error_when_flag_stream_exhausted() {
    // one entry declared, but the flag stream is empty
    let r = decode_entries(&[], &[0u8; 4], &[0u8; 16], &[], 1);
    assert!(matches!(r, Err(DecodeError::MalformedContainer)));
}

#[test]
fn entries_error_when_size_stream_exhausted() {
    // a present, compressed entry needs a size varint after the 4-byte skip
    let flags = vec![0b0000_0011u8];
    let r = decode_entries(&flags, &[0u8; 4], &[0u8; 16], &[0x41, 0x0A, 0x00], 1);
    assert!(matches!(r, Err(DecodeError::MalformedContainer)));
}

#[test]
fn entries_error_when_no_stage_resolves() {
    // present entry, raw path, but no sentinel anywhere
    let flags = vec![0b0000_0001u8];
    let r = decode_entries(&flags, &[0u8; 4], &[0u8; 16], &[0x41, 0x42], 1);
    assert!(matches!(r, Err(DecodeError::FrameStreamCorrupt)));
}

/// Builds a full Package byte image holding the given streams and blob.
fn package_bytes_with(flags: &[u8], sizes: &[u8], dictionary: &[u8], blob: &[u8], leaf_count: usize) -> Vec<u8> {
    assert_eq!(dictionary.len(), DICTIONARY_SIZE);
    let mut buf = Vec::new();
    buf.extend_from_slice(&[0x42; 16]);
    push_u32_le(&mut buf, 1);
    push_u32_le(&mut buf, 0);
    push_u32_le(&mut buf, 0);
    push_u32_le(&mut buf, 0);
    push_u32_le(&mut buf, 0); // no top-level paths
    buf.extend_from_slice(&[0; 4]); // skipped bytes
    push_u32_le(&mut buf, flags.len() as u32);
    buf.extend_from_slice(flags);
    push_u32_le(&mut buf, sizes.len() as u32);
    buf.extend_from_slice(sizes);
    push_u32_le(&mut buf, (dictionary.len() + blob.len()) as u32);
    buf.extend_from_slice(dictionary);
    buf.extend_from_slice(blob);
    push_u32_le(&mut buf, leaf_count as u32);
    buf.extend_from_slice(&vec![0u8; leaf_count]);
    buf
}

#[test]
fn package_end_to_end_three_entries() {
    // a synthetic Package with three leaf entries: a raw sentinel-terminated
    // record, an absent entry, and a dictionary-compressed frame; decoding
    // yields exactly two records, in entry order
    let dictionary = vec![0u8; DICTIONARY_SIZE];
    let payload = b"third entry plain text".to_vec();
    let frame = magicless_frame(&payload, &dictionary);

    let flags = vec![0b0001_1001u8];
    let mut sizes = vec![0u8; 4];
    sizes.extend_from_slice(&encode_varuint(frame.len() as u32));
    let mut blob = b"first entry".to_vec();
    blob.push(0x0A);
    blob.push(0x00);
    blob.extend_from_slice(&encode_varuint(payload.len() as u32));
    blob.extend_from_slice(&frame);

    let image = package_bytes_with(&flags, &sizes, &dictionary, &blob, 3);
    let (pkg, consumed) = parse_package(&image).expect("parse");
    assert_eq!(consumed, image.len());
    let recs = decode_package(&pkg).expect("decode");
    assert_eq!(recs.len(), 2);
    assert_eq!(recs[0], b"first entry".to_vec());
    assert_eq!(recs[1], payload);
    let texts: Vec<String> = recs
        .iter()
        .map(|r| decode_text(r).expect("text"))
        .collect();
    assert_eq!(texts[0], "first entry");
}

#[test]
fn localization_verbatim_when_not_compressed() {
    let data = vec![1u8, 2, 3, 4, 5, 6];
    let header = LocalizationHeader {
        unique_name_length: 1,
        unique_name: vec![b'x'],
        localization_position: 2,
        localization_length: 3,
        unknown1: 0,
        compression_type: 0,
    };
    let out = decode_localization(&data, &header, &[0u8; 16]).expect("verbatim");
    assert_eq!(out, vec![3, 4, 5]);
}

#[test]
fn localization_decompresses_tagged_records() {
    let dictionary = vec![0x33u8; 2048];
    let payload = b"localized string value".to_vec();
    let frame = magicless_frame(&payload, &dictionary);
    // one leading byte at the record position is skipped before the frame
    let mut data = vec![0xEEu8, 0xEE]; // padding before the record
    data.push(payload.len() as u8);
    data.extend_from_slice(&frame);
    let header = LocalizationHeader {
        unique_name_length: 1,
        unique_name: vec![b'y'],
        localization_position: 2,
        localization_length: (1 + frame.len()) as u16,
        unknown1: 0,
        compression_type: 2,
    };
    let out = decode_localization(&data, &header, &dictionary).expect("decompress");
    assert_eq!(out, payload);
}

#[test]
fn localization_rejects_out_of_bounds() {
    let data = vec![0u8; 4];
    let header = LocalizationHeader {
        unique_name_length: 0,
        unique_name: Vec::new(),
        localization_position: 3,
        localization_length: 5,
        unknown1: 0,
        compression_type: 0,
    };
    assert!(matches!(
        decode_localization(&data, &header, &[0u8; 16]),
        Err(DecodeError::MalformedContainer)
    ));
}


#[test]
fn language_section_end_to_end() {
    // a full Language container whose one section holds a verbatim record
    // and a dictionary-compressed one, decoded through the parsed structures
    let dictionary = vec![0x11u8; 512];
    let payload = b"localized sentence".to_vec();
    let frame = magicless_frame(&payload, &dictionary);

    let mut data = b"raw!".to_vec(); // verbatim record at position 0
    let frame_pos = data.len();
    data.push(payload.len() as u8); // leading size byte, skipped
    data.extend_from_slice(&frame);

    let mut buf = Vec::new();
    buf.extend_from_slice(&[0x00; 16]); // hash
    push_u32_le(&mut buf, 0);
    push_u32_le(&mut buf, 0);
    push_u32_le(&mut buf, 0);
    push_u32_le(&mut buf, 0); // no language entries
    push_u32_le(&mut buf, dictionary.len() as u32);
    buf.extend_from_slice(&dictionary);
    push_u32_le(&mut buf, 1); // one section
    push_u32_le(&mut buf, 1); // title
    buf.push(b't');
    push_u32_le(&mut buf, data.len() as u32);
    buf.extend_from_slice(&data);
    push_u32_le(&mut buf, 2); // two localization headers
    push_u32_le(&mut buf, 1);
    buf.push(b'a');
    push_u32_le(&mut buf, 0); // verbatim: position 0, length 4
    buf.extend_from_slice(&4u16.to_le_bytes());
    buf.push(0);
    buf.push(0x00); // not compressed
    push_u32_le(&mut buf, 1);
    buf.push(b'b');
    push_u32_le(&mut buf, frame_pos as u32); // compressed record
    buf.extend_from_slice(&((1 + frame.len()) as u16).to_le_bytes());
    buf.push(0);
    buf.push(0x02); // compression type 2

    let (language, consumed) = packdec::language::parse_language(&buf).expect("parse");
    assert_eq!(consumed, buf.len());
    let outs = packdec::decoder::decode_language_section(&language.sections[0], &language.zstd_dictionary)
        .expect("decode");
    assert_eq!(outs.len(), 2);
    assert_eq!(outs[0], b"raw!".to_vec());
    assert_eq!(outs[1], payload);
}

#[test]
fn text_decoding_maps_every_byte() {
    let s = decode_text(&[0x41, 0xE9, 0x0A]).expect("text");
    let chars: Vec<char> = s.chars().collect();
    assert_eq!(chars, vec!['A', '\u{E9}', '\n']);
    // a high byte becomes a two-byte character, so the string is not the
    // raw input handed back unchanged
    assert_eq!(s, "A\u{E9}\n");
    assert_eq!(s.as_bytes().len(), 4);
}
