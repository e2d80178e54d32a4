use swai::reader::ByteReader;
use swai::reader::ByteReaderError;
use swai::reader::Endian;

#[test]
fn from_vec_starts_at_zero() {
    let r = ByteReader::from_vec(&[1, 2, 3]);
    assert_eq!(r.get_current_offset(), 0);
    assert_eq!(r.get_file_length(), 3);
}

#[test]
fn read_bytes_advances_by_exactly_n() {
    let mut r = ByteReader::from_vec(&[10, 20, 30, 40, 50]);
    let taken = r.read_bytes(3).unwrap();
    assert_eq!(taken, vec![10, 20, 30]);
    assert_eq!(r.get_current_offset(), 3);
}

#[test]
fn peak_bytes_leaves_cursor_unchanged() {
    let mut r = ByteReader::from_vec(&[10, 20, 30, 40, 50]);
    r.read_bytes(1).unwrap();
    let peeked = r.peak_bytes(2).unwrap();
    assert_eq!(peeked, vec![20, 30]);
    assert_eq!(r.get_current_offset(), 1);
}

#[test]
fn peak_typed_leaves_cursor_unchanged() {
    let mut r = ByteReader::from_vec(&[1, 0, 0, 0, 9]);
    let v = r.peak::<u32>().unwrap();
    assert_eq!(v, 1);
    assert_eq!(r.get_current_offset(), 0);
    let v2 = r.read::<u32>().unwrap();
    assert_eq!(v2, 1);
    assert_eq!(r.get_current_offset(), 4);
}

#[test]
fn read_bytes_out_of_bounds_reports_span() {
    let mut r = ByteReader::from_vec(&[1, 2]);
    let e = r.read_bytes(3).unwrap_err();
    assert_eq!(e, ByteReaderError::OutOfBounds { length: 2, start: 0, end: 3 });
    assert_eq!(r.get_current_offset(), 0);
}

#[test]
fn push_pop_restores_cursor_across_reads() {
    let mut r = ByteReader::from_vec(&[1, 2, 3, 4, 5, 6]);
    r.read_bytes(1).unwrap();
    r.push_index();
    r.read_bytes(3).unwrap();
    r.read::<u8>().unwrap();
    assert_eq!(r.get_current_offset(), 5);
    r.pop_index();
    assert_eq!(r.get_current_offset(), 1);
}

#[test]
fn pop_on_empty_stack_is_a_no_op() {
    let mut r = ByteReader::from_vec(&[1, 2, 3]);
    r.read_bytes(2).unwrap();
    r.pop_index();
    assert_eq!(r.get_current_offset(), 2);
}

#[test]
fn move_to_and_jump_reposition() {
    let mut r = ByteReader::from_vec(&[9, 8, 7, 6]);
    r.move_to(2);
    assert_eq!(r.get_current_offset(), 2);
    r.jump(1);
    assert_eq!(r.get_current_offset(), 3);
    assert_eq!(r.read_bytes(1).unwrap(), vec![6]);
}

#[test]
fn out_of_range_cursor_fails_subsequent_reads() {
    let mut r = ByteReader::from_vec(&[1, 2]);
    r.move_to(10);
    assert!(matches!(r.read_bytes(1), Err(ByteReaderError::OutOfBounds { .. })));
}

#[test]
fn read_expect_consumes_either_way() {
    let mut r = ByteReader::from_vec(&[0, 97, 115, 109, 1]);
    assert_eq!(r.read_expect(&[0, 97, 115, 109]).unwrap(), true);
    assert_eq!(r.get_current_offset(), 4);

    let mut r2 = ByteReader::from_vec(&[1, 2, 3]);
    assert_eq!(r2.read_expect(&[1, 9]).unwrap(), false);
    assert_eq!(r2.get_current_offset(), 2);
}

#[test]
fn read_rest_and_peak_rest() {
    let mut r = ByteReader::from_vec(&[1, 2, 3, 4]);
    r.read_bytes(1).unwrap();
    assert_eq!(r.peak_rest().unwrap(), vec![2, 3, 4]);
    assert_eq!(r.get_current_offset(), 1);
    assert_eq!(r.read_rest().unwrap(), vec![2, 3, 4]);
    assert_eq!(r.get_current_offset(), 4);
}

#[test]
fn fixed_width_little_endian_reads() {
    let mut r = ByteReader::from_vec(&[0x01, 0x02, 0x03, 0x04, 0xFF, 0xFF]);
    assert_eq!(r.read::<u32>().unwrap(), 0x0403_0201);
    assert_eq!(r.read::<i16>().unwrap(), -1);
}

#[test]
fn fixed_width_big_endian_reads() {
    let mut r = ByteReader::from_vec(&[0x01, 0x02, 0x03, 0x04]);
    r.set_endian(Endian::Big);
    assert_eq!(r.read::<u32>().unwrap(), 0x0102_0304);
}

#[test]
fn fixed_width_u64_and_signed() {
    let mut r = ByteReader::from_vec(&[
        0xEF, 0xCD, 0xAB, 0x89, 0x67, 0x45, 0x23, 0x01, 0x80, 0xFE, 0xFF, 0xFF, 0xFF,
    ]);
    assert_eq!(r.read::<u64>().unwrap(), 0x0123_4567_89AB_CDEF);
    assert_eq!(r.read::<i8>().unwrap(), -128);
    assert_eq!(r.read::<i32>().unwrap(), -2);
}

#[test]
fn find_from_returns_least_match() {
    let r = ByteReader::from_vec(&[7, 1, 2, 7, 1, 2]);
    assert_eq!(r.find(&[1, 2]).unwrap(), 1);
    assert_eq!(r.find_from(&[1, 2], 2).unwrap(), 4);
    let e = r.find_from(&[1, 2], 5).unwrap_err();
    assert_eq!(e, ByteReaderError::NotFound { sequence: vec![1, 2] });
}

#[test]
fn find_next_searches_from_cursor() {
    let mut r = ByteReader::from_vec(&[5, 5, 5]);
    r.read_bytes(1).unwrap();
    assert_eq!(r.find_next(&[5]).unwrap(), 1);
}

#[test]
fn find_all_offsets_is_increasing_overlapping_and_in_range() {
    let r = ByteReader::from_vec(&[b'a', b'a', b'a', b'a']);
    let hits = r.find_all_offsets(&[b'a', b'a']);
    assert_eq!(hits, vec![0, 1, 2]);
    let len = r.get_file_length();
    for w in hits.windows(2) {
        assert!(w[0] < w[1]);
    }
    for h in hits {
        assert!(h <= len - 2);
    }
}

#[test]
fn find_all_offsets_after_skips_earlier_hits() {
    let r = ByteReader::from_vec(&[1, 0, 1, 0, 1]);
    assert_eq!(r.find_all_offsets_after(1, &[1]), vec![2, 4]);
}

#[test]
fn read_string_decodes_utf8() {
    let mut r = ByteReader::from_vec("h\u{e9}llo".as_bytes());
    let s = r.read_string(6).unwrap();
    assert_eq!(s, "h\u{e9}llo");
    assert_eq!(r.get_current_offset(), 6);
}

#[test]
fn read_string_rejects_ill_formed_utf8() {
    let mut r = ByteReader::from_vec(&[0xFF, 0xFE]);
    assert_eq!(r.read_string(2).unwrap_err(), ByteReaderError::InvalidUtf8);
    assert_eq!(r.get_current_offset(), 2);
}

#[test]
fn read_string_lossy_replaces_ill_formed_sequences() {
    let mut r = ByteReader::from_vec(&[b'h', 0xFF, b'i']);
    let s = r.read_string_lossy(3).unwrap();
    assert_eq!(s, "h\u{FFFD}i");
}

#[test]
fn read_string_lossy_equals_strict_on_valid_utf8() {
    let bytes = "h\u{e9}llo".as_bytes();
    let mut strict = ByteReader::from_vec(bytes);
    let mut lossy = ByteReader::from_vec(bytes);
    assert_eq!(
        strict.read_string(bytes.len()).unwrap(),
        lossy.read_string_lossy(bytes.len()).unwrap()
    );
}

#[test]
fn read_string_length_reads_a_fixed_width_prefix() {
    // Little-endian u32 length 5, then the bytes.
    let mut bytes = vec![5u8, 0, 0, 0];
    bytes.extend_from_slice(b"hello");
    let mut r = ByteReader::from_vec(&bytes);
    assert_eq!(r.read_string_length().unwrap(), "hello");
    assert_eq!(r.get_current_offset(), 9);
}

#[test]
fn read_string_lossy_length_replaces_ill_formed_bytes() {
    let mut r = ByteReader::from_vec(&[2, 0, 0, 0, b'a', 0xFF]);
    assert_eq!(r.read_string_lossy_length().unwrap(), "a\u{FFFD}");
}

#[test]
fn read_string_length_out_of_bounds() {
    let mut r = ByteReader::from_vec(&[9, 0, 0, 0, b'x']);
    assert!(matches!(
        r.read_string_length().unwrap_err(),
        ByteReaderError::OutOfBounds { .. }
    ));
    // The length prefix stays consumed; the string bytes were never read.
    assert_eq!(r.get_current_offset(), 4);
}

#[test]
fn set_debug_changes_nothing_observable() {
    let mut r = ByteReader::from_vec(&[1, 2]);
    r.set_debug(true);
    assert_eq!(r.read_bytes(2).unwrap(), vec![1, 2]);
}
