//! Tests for the Package and Language container parsers, including the
//! distinct cursor-advance amounts of the two path-table call sites.

use packdec::package::{parse_package, DICTIONARY_SIZE};
use packdec::language::parse_language;
use packdec::DecodeError;

fn push_u32_le(out: &mut Vec<u8>, v: u32) {
    out.extend_from_slice(&v.to_le_bytes());
}

/// A minimal well-formed Package byte image with one path entry.
fn sample_package_bytes() -> Vec<u8> {
    let mut buf = Vec::new();
    buf.extend_from_slice(&[0xAB; 16]); // hash
    push_u32_le(&mut buf, 5); // file_type
    push_u32_le(&mut buf, 6); // unknown2
    push_u32_le(&mut buf, 7); // unknown3
    push_u32_le(&mut buf, 8); // unknown4
    push_u32_le(&mut buf, 1); // path count
    push_u32_le(&mut buf, 4); // path name length
    buf.extend_from_slice(b"name");
    buf.push(0x11); // path metadata
    buf.push(0x22);
    buf.extend_from_slice(&[0; 4]); // skipped bytes
    push_u32_le(&mut buf, 2); // flag stream length
    buf.extend_from_slice(&[0x03, 0x00]);
    push_u32_le(&mut buf, 5); // size stream length
    buf.extend_from_slice(&[0, 0, 0, 0, 9]);
    push_u32_le(&mut buf, (DICTIONARY_SIZE + 3) as u32); // compressed block
    buf.extend_from_slice(&vec![0u8; DICTIONARY_SIZE]);
    buf.extend_from_slice(&[0x41, 0x0A, 0x00]);
    push_u32_le(&mut buf, 3); // leaf table byte count
    buf.extend_from_slice(&[1, 2, 3]);
    buf
}

#[test]
fn package_parse_fields() {
    let buf = sample_package_bytes();
    let (pkg, n) = parse_package(&buf).expect("parse");
    assert_eq!(n, buf.len());
    assert_eq!(pkg.hash, vec![0xAB; 16]);
    assert_eq!(pkg.file_type, 5);
    assert_eq!(pkg.unknown2, 6);
    assert_eq!(pkg.unknown3, 7);
    assert_eq!(pkg.unknown4, 8);
    assert_eq!(pkg.paths.len(), 1);
    assert_eq!(pkg.paths[0].name, b"name".to_vec());
    assert_eq!(pkg.paths[0].unknown1, 0x11);
    assert_eq!(pkg.paths[0].unknown2, 0x22);
    assert_eq!(pkg.data1_raw, vec![0x03, 0x00]);
    assert_eq!(pkg.data2_raw, vec![0, 0, 0, 0, 9]);
    assert_eq!(pkg.zstd_dictionary.len(), DICTIONARY_SIZE);
    assert_eq!(pkg.zstd_raw_data, vec![0x41, 0x0A, 0x00]);
    assert_eq!(pkg.bottom_paths_raw, vec![1, 2, 3]);
}

#[test]
fn package_path_cursor_advances_by_six_plus_length() {
    // two paths back to back: the second is found only if the first
    // advanced the cursor by 6 + length (including both metadata bytes)
    let mut buf = Vec::new();
    buf.extend_from_slice(&[0; 16]);
    push_u32_le(&mut buf, 0);
    push_u32_le(&mut buf, 0);
    push_u32_le(&mut buf, 0);
    push_u32_le(&mut buf, 0);
    push_u32_le(&mut buf, 2); // two paths
    push_u32_le(&mut buf, 2);
    buf.extend_from_slice(b"aa");
    buf.push(1);
    buf.push(2);
    push_u32_le(&mut buf, 3);
    buf.extend_from_slice(b"bbb");
    buf.push(3);
    buf.push(4);
    buf.extend_from_slice(&[0; 4]); // skipped bytes
    push_u32_le(&mut buf, 0); // empty flag stream
    push_u32_le(&mut buf, 0); // empty size stream
    push_u32_le(&mut buf, DICTIONARY_SIZE as u32);
    buf.extend_from_slice(&vec![0u8; DICTIONARY_SIZE]);
    push_u32_le(&mut buf, 0); // empty leaf table
    let (pkg, n) = parse_package(&buf).expect("parse");
    assert_eq!(n, buf.len());
    assert_eq!(pkg.paths.len(), 2);
    assert_eq!(pkg.paths[0].name, b"aa".to_vec());
    assert_eq!(pkg.paths[1].name, b"bbb".to_vec());
    assert_eq!(pkg.paths[1].unknown1, 3);
    assert_eq!(pkg.paths[1].unknown2, 4);
}

#[test]
fn package_parse_rejects_short_block() {
    // compressed block shorter than the dictionary size
    let mut buf = Vec::new();
    buf.extend_from_slice(&[0; 36]);
    buf.extend_from_slice(&[0; 4]); // skipped bytes
    push_u32_le(&mut buf, 0);
    push_u32_le(&mut buf, 0);
    push_u32_le(&mut buf, 8); // block of 8 bytes: too short
    buf.extend_from_slice(&[0; 8]);
    push_u32_le(&mut buf, 0);
    assert!(matches!(parse_package(&buf), Err(DecodeError::MalformedContainer)));
}

#[test]
fn package_parse_rejects_truncated() {
    assert!(matches!(parse_package(&[0u8; 10]), Err(DecodeError::MalformedContainer)));
    let mut buf = sample_package_bytes();
    buf.truncate(buf.len() - 1);
    assert!(matches!(parse_package(&buf), Err(DecodeError::MalformedContainer)));
}

/// A minimal well-formed Language byte image: one language entry, a small
/// dictionary, and one section with one localization header.
fn sample_language_bytes() -> Vec<u8> {
    let mut buf = Vec::new();
    buf.extend_from_slice(&[0xCD; 16]); // hash
    push_u32_le(&mut buf, 1); // unknown1
    push_u32_le(&mut buf, 2); // unknown2
    push_u32_le(&mut buf, 3); // unknown3
    push_u32_le(&mut buf, 1); // language count
    push_u32_le(&mut buf, 2); // language name length
    buf.extend_from_slice(b"en");
    // no metadata bytes here: the language table advances by 4 + length,
    // so the next field begins immediately after the name
    push_u32_le(&mut buf, 6); // dictionary length
    buf.extend_from_slice(&[9, 8, 7, 6, 5, 4]);
    push_u32_le(&mut buf, 1); // section count
    // section: title, data, one localization header
    push_u32_le(&mut buf, 3);
    buf.extend_from_slice(b"ttl");
    push_u32_le(&mut buf, 4);
    buf.extend_from_slice(&[0xDE, 0xAD, 0xBE, 0xEF]);
    push_u32_le(&mut buf, 1); // localization header count
    push_u32_le(&mut buf, 2); // unique name length
    buf.extend_from_slice(b"id");
    push_u32_le(&mut buf, 1); // position
    buf.extend_from_slice(&2u16.to_le_bytes()); // length
    buf.push(0x55); // reserved byte
    buf.push(0x00); // compression type
    buf
}

#[test]
fn language_parse_fields() {
    let buf = sample_language_bytes();
    let (lang, n) = parse_language(&buf).expect("parse");
    assert_eq!(n, buf.len());
    assert_eq!(lang.hash, vec![0xCD; 16]);
    assert_eq!(lang.unknown1, 1);
    assert_eq!(lang.unknown2, 2);
    assert_eq!(lang.unknown3, 3);
    assert_eq!(lang.lang_number, 1);
    assert_eq!(lang.langs.len(), 1);
    assert_eq!(lang.langs[0].name, b"en".to_vec());
    assert_eq!(lang.zstd_dictionary_length, 6);
    assert_eq!(lang.zstd_dictionary, vec![9, 8, 7, 6, 5, 4]);
    assert_eq!(lang.section_number, 1);
    assert_eq!(lang.sections.len(), 1);
    let sec = &lang.sections[0];
    assert_eq!(sec.title, b"ttl".to_vec());
    assert_eq!(sec.data, vec![0xDE, 0xAD, 0xBE, 0xEF]);
    assert_eq!(sec.localization_headers.len(), 1);
    let lh = &sec.localization_headers[0];
    assert_eq!(lh.unique_name, b"id".to_vec());
    assert_eq!(lh.localization_position, 1);
    assert_eq!(lh.localization_length, 2);
    assert_eq!(lh.unknown1, 0x55);
    assert_eq!(lh.compression_type, 0x00);
    // section length field covers the whole serialized section
    assert_eq!(sec._length as usize, 4 + 3 + 4 + 4 + 4 + 4 + 2 + 4 + 2 + 1 + 1);
}

#[test]
fn language_path_cursor_advances_by_four_plus_length() {
    // the language table advances by 4 + length, so each entry's two
    // metadata bytes are re-read as the start of the next field: here they
    // are the first two bytes of the dictionary length field
    let buf = sample_language_bytes();
    let (lang, _) = parse_language(&buf).expect("parse");
    let dict_len_field = 6u32.to_le_bytes();
    assert_eq!(lang.langs[0].unknown1, dict_len_field[0]);
    assert_eq!(lang.langs[0].unknown2, dict_len_field[1]);
}

#[test]
fn language_parse_rejects_truncated() {
    assert!(matches!(parse_language(&[0u8; 8]), Err(DecodeError::MalformedContainer)));
    let mut buf = sample_language_bytes();
    buf.truncate(buf.len() - 1);
    assert!(matches!(parse_language(&buf), Err(DecodeError::MalformedContainer)));
}
