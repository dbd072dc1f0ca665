//! Tests for the bit reader, the varint codec, and the record parsers.

use packdec::bits::read_bit;
use packdec::varuint::{encode_varuint, read_varuint};
use packdec::path::{parse_path, utf8_valid};
use packdec::DecodeError;

fn push_u32_le(out: &mut Vec<u8>, v: u32) {
    out.extend_from_slice(&v.to_le_bytes());
}

#[test]
fn varuint_round_trip_values() {
    let cases: [(u32, usize); 6] = [
        (0, 1),
        (127, 1),
        (128, 2),
        (16383, 2),
        (16384, 3),
        (4294967295, 5),
    ];
    for (value, expected_len) in cases {
        let enc = encode_varuint(value);
        assert_eq!(enc.len(), expected_len, "encoding length of {}", value);
        let (decoded, consumed) = read_varuint(&enc, 0).expect("decode");
        assert_eq!(decoded, value);
        assert_eq!(consumed, expected_len);
    }
}

#[test]
fn varuint_decodes_mid_buffer() {
    let mut buf = vec![0xAA, 0xBB];
    buf.extend_from_slice(&encode_varuint(300));
    buf.push(0xCC);
    let (value, consumed) = read_varuint(&buf, 2).expect("decode");
    assert_eq!(value, 300);
    assert_eq!(consumed, 2);
}

#[test]
fn varuint_rejects_truncated() {
    // continuation bit set on the last byte of the buffer
    assert_eq!(read_varuint(&[0x80], 0), Err(DecodeError::MalformedContainer));
    assert_eq!(read_varuint(&[], 0), Err(DecodeError::MalformedContainer));
}

#[test]
fn varuint_rejects_value_past_32_bits() {
    // 16 << 28 == 1 << 32: one past u32::MAX
    assert_eq!(
        read_varuint(&[0x80, 0x80, 0x80, 0x80, 0x10], 0),
        Err(DecodeError::MalformedContainer)
    );
    // five continuation bytes
    assert_eq!(
        read_varuint(&[0xFF, 0xFF, 0xFF, 0xFF, 0xFF, 0x01], 0),
        Err(DecodeError::MalformedContainer)
    );
}

#[test]
fn read_bit_all_positions() {
    // byte 0b10110010 holds bits [0,1,0,0,1,1,0,1] at offsets 0..7
    let cases: [(u8, [u8; 8]); 3] = [
        (0b1011_0010, [0, 1, 0, 0, 1, 1, 0, 1]),
        (0b0000_0001, [1, 0, 0, 0, 0, 0, 0, 0]),
        (0b1111_0000, [0, 0, 0, 0, 1, 1, 1, 1]),
    ];
    for (byte, expected) in cases {
        let buf = [byte];
        for (j, want) in expected.iter().enumerate() {
            assert_eq!(read_bit(&buf, j), *want, "bit {} of {:#010b}", j, byte);
        }
        // offsets 8k+j address bit j of byte k
        let buf2 = [0x00u8, byte];
        for (j, want) in expected.iter().enumerate() {
            assert_eq!(read_bit(&buf2, 8 + j), *want, "bit {} of byte 1", j);
        }
    }
}

#[test]
fn path_parse_basic() {
    let mut buf = Vec::new();
    push_u32_le(&mut buf, 3);
    buf.extend_from_slice(b"abc");
    buf.push(7);
    buf.push(9);
    buf.push(0xEE); // trailing byte beyond the record
    let (p, n) = parse_path(&buf, 0).expect("parse");
    assert_eq!(n, 9);
    assert_eq!(p.length, 3);
    assert_eq!(p.name, b"abc".to_vec());
    assert_eq!(p.unknown1, 7);
    assert_eq!(p.unknown2, 9);
}

#[test]
fn path_parse_rejects_invalid_utf8() {
    // a name that is not well-formed UTF-8 is a malformed container
    let mut buf = Vec::new();
    push_u32_le(&mut buf, 2);
    buf.push(0xFF); // never valid in UTF-8
    buf.push(0x41);
    buf.push(0);
    buf.push(0);
    assert!(matches!(parse_path(&buf, 0), Err(DecodeError::MalformedContainer)));
}

#[test]
fn utf8_validation_cases() {
    assert!(utf8_valid(b"plain ascii"));
    assert!(utf8_valid("caf\u{E9} \u{4E2D}\u{6587} \u{1F600}".as_bytes()));
    assert!(utf8_valid(&[]));
    // lone continuation byte
    assert!(!utf8_valid(&[0x80]));
    // truncated two-byte sequence
    assert!(!utf8_valid(&[0xC3]));
    // overlong encoding
    assert!(!utf8_valid(&[0xC0, 0xAF]));
    // surrogate half
    assert!(!utf8_valid(&[0xED, 0xA0, 0x80]));
    // past the last scalar value
    assert!(!utf8_valid(&[0xF4, 0x90, 0x80, 0x80]));
}

#[test]
fn path_parse_truncated() {
    let mut buf = Vec::new();
    push_u32_le(&mut buf, 3);
    buf.extend_from_slice(b"ab"); // name shorter than declared
    assert!(parse_path(&buf, 0).is_err());
    assert!(parse_path(&[0, 0], 0).is_err());
}
