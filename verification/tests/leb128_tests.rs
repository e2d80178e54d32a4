use swai::leb128::Leb128Readers;
use swai::leb128::encode_leb128_i32;
use swai::leb128::encode_leb128_i64;
use swai::leb128::encode_uleb128;
use swai::leb128::leb128_size;
use swai::reader::ByteReader;
use swai::reader::ByteReaderError;

#[test]
fn uleb128_round_trips_for_u32_values() {
    for v in [0u32, 1, 63, 64, 127, 128, 300, 16_383, 16_384, 624_485, u32::MAX] {
        let enc = encode_uleb128(v);
        assert!(enc.len() <= 5);
        let mut r = ByteReader::from_vec(&enc);
        assert_eq!(r.read_uleb128_u32().unwrap(), v);
        assert_eq!(r.get_current_offset(), enc.len());
    }
}

#[test]
fn uleb128_accepts_padded_widths_up_to_five_bytes() {
    // Non-minimal encodings of 0 and 1 in 2..5 bytes decode to the value.
    let cases: Vec<(Vec<u8>, u32)> = vec![
        (vec![0x80, 0x00], 0),
        (vec![0x81, 0x80, 0x00], 1),
        (vec![0x80, 0x80, 0x80, 0x00], 0),
        (vec![0xFF, 0xFF, 0xFF, 0xFF, 0x0F], u32::MAX),
    ];
    for (bytes, v) in cases {
        let mut r = ByteReader::from_vec(&bytes);
        assert_eq!(r.read_uleb128_u32().unwrap(), v);
        assert_eq!(r.get_current_offset(), bytes.len());
    }
}

#[test]
fn uleb128_truncated_input_fails_with_truncated() {
    for bytes in [vec![0x80u8], vec![0x80, 0x80], vec![0xFF, 0xFF, 0xFF, 0x80]] {
        let mut r = ByteReader::from_vec(&bytes);
        assert_eq!(r.read_uleb128_u32().unwrap_err(), ByteReaderError::DecodeTruncated);
    }
}

#[test]
fn uleb128_six_byte_value_fails_with_overflow() {
    // A six-byte encoding whose value is at least 2^32.
    let bytes = [0xFFu8, 0xFF, 0xFF, 0xFF, 0xFF, 0x01];
    let mut r = ByteReader::from_vec(&bytes);
    assert_eq!(r.read_uleb128_u32().unwrap_err(), ByteReaderError::DecodeOverflow);
}

#[test]
fn uleb128_u64_round_trips() {
    for v in [0u64, 127, 128, 0xFFFF_FFFF, 0x1_0000_0000, u64::MAX] {
        // Encode manually for 64-bit values.
        let mut enc: Vec<u8> = Vec::new();
        let mut cur = v;
        loop {
            if cur < 0x80 {
                enc.push(cur as u8);
                break;
            }
            enc.push((cur % 0x80 + 0x80) as u8);
            cur /= 0x80;
        }
        let mut r = ByteReader::from_vec(&enc);
        assert_eq!(r.read_uleb128_u64().unwrap(), v);
    }
}

#[test]
fn leb128_i32_round_trips_including_negatives() {
    for v in [0i32, 1, -1, 63, -64, 64, -65, 127, -128, 300, -300, i32::MAX, i32::MIN] {
        let enc = encode_leb128_i32(v);
        assert!(enc.len() <= 5);
        let mut r = ByteReader::from_vec(&enc);
        assert_eq!(r.read_leb128_i32().unwrap(), v);
        assert_eq!(r.get_current_offset(), enc.len());
    }
}

#[test]
fn leb128_i64_round_trips_including_negatives() {
    for v in [0i64, -1, 624_485, -624_485, i64::MAX, i64::MIN, 1 << 40, -(1i64 << 40)] {
        let enc = encode_leb128_i64(v);
        assert!(enc.len() <= 10);
        let mut r = ByteReader::from_vec(&enc);
        assert_eq!(r.read_leb128_i64().unwrap(), v);
        assert_eq!(r.get_current_offset(), enc.len());
    }
}

#[test]
fn leb128_known_encodings() {
    assert_eq!(encode_uleb128(624_485), vec![0xE5, 0x8E, 0x26]);
    assert_eq!(encode_leb128_i32(-123_456), vec![0xC0, 0xBB, 0x78]);
    assert_eq!(encode_leb128_i32(-1), vec![0x7F]);
    assert_eq!(encode_leb128_i32(-128), vec![0x80, 0x7F]);
}

#[test]
fn leb128_signed_errors_match_unsigned() {
    let mut r = ByteReader::from_vec(&[0x80, 0x80]);
    assert_eq!(r.read_leb128_i32().unwrap_err(), ByteReaderError::DecodeTruncated);
    let mut r2 = ByteReader::from_vec(&[0x80, 0x80, 0x80, 0x80, 0x80, 0x00]);
    assert_eq!(r2.read_leb128_i32().unwrap_err(), ByteReaderError::DecodeOverflow);
}

#[test]
fn peak_variants_do_not_advance() {
    let enc = encode_uleb128(624_485);
    let mut r = ByteReader::from_vec(&enc);
    assert_eq!(r.peak_uleb128_u32().unwrap(), 624_485);
    assert_eq!(r.get_current_offset(), 0);
    assert_eq!(r.peak_uleb128_u64().unwrap(), 624_485);
    assert_eq!(r.get_current_offset(), 0);

    let enc2 = encode_leb128_i32(-77);
    let mut r2 = ByteReader::from_vec(&enc2);
    assert_eq!(r2.peak_leb128_i32().unwrap(), -77);
    assert_eq!(r2.get_current_offset(), 0);
    let enc3 = encode_leb128_i64(-1_000_000_000_000);
    let mut r3 = ByteReader::from_vec(&enc3);
    assert_eq!(r3.peak_leb128_i64().unwrap(), -1_000_000_000_000);
    assert_eq!(r3.get_current_offset(), 0);
}

#[test]
fn leb128_size_rounds_up_bit_groups() {
    assert_eq!(leb128_size(32), 5);
    assert_eq!(leb128_size(64), 10);
    assert_eq!(leb128_size(8), 2);
}
