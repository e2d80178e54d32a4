use swai::instructions::Instructions;
use swai::instructions::encode_expr;
use swai::instructions::encode_instruction;
use swai::instructions::read_expr;
use swai::reader::ByteReader;
use swai::reader::ByteReaderError;
use swai::reader::FromByteReader;
use swai::types::Indecies;

#[test]
fn i32_const_decodes_signed_leb128() {
    let mut r = ByteReader::from_vec(&[0x41, 0x7F]);
    let ins = Instructions::read_from_byte_reader(&mut r).unwrap();
    assert_eq!(ins, Instructions::I32Const(-1));

    let mut r2 = ByteReader::from_vec(&[0x41, 0x80, 0x7F]);
    let ins2 = Instructions::read_from_byte_reader(&mut r2).unwrap();
    assert_eq!(ins2, Instructions::I32Const(-128));
}

#[test]
fn call_and_local_get_carry_indices() {
    let mut r = ByteReader::from_vec(&[0x10, 0xAC, 0x02]);
    assert_eq!(
        Instructions::read_from_byte_reader(&mut r).unwrap(),
        Instructions::Call(Indecies::FuncIdx(300))
    );
    let mut r2 = ByteReader::from_vec(&[0x20, 0x05]);
    assert_eq!(
        Instructions::read_from_byte_reader(&mut r2).unwrap(),
        Instructions::LocalGet(Indecies::LocalIdx(5))
    );
}

#[test]
fn fixed_width_constants_are_little_endian_bits() {
    let mut r = ByteReader::from_vec(&[0x43, 0x01, 0x02, 0x03, 0x04]);
    assert_eq!(
        Instructions::read_from_byte_reader(&mut r).unwrap(),
        Instructions::F32Const(0x0403_0201)
    );
    let mut r2 = ByteReader::from_vec(&[0x44, 1, 2, 3, 4, 5, 6, 7, 8]);
    assert_eq!(
        Instructions::read_from_byte_reader(&mut r2).unwrap(),
        Instructions::F64Const(0x0807_0605_0403_0201)
    );
}

#[test]
fn memory_init_reads_index_and_trailing_byte() {
    let mut r = ByteReader::from_vec(&[0xFC, 0x08, 0x02, 0x00]);
    assert_eq!(
        Instructions::read_from_byte_reader(&mut r).unwrap(),
        Instructions::MemoryInit(Indecies::DataIdx(2))
    );
    assert_eq!(r.get_current_offset(), 4);
}

#[test]
fn trunc_sat_prefix_decodes() {
    let mut r = ByteReader::from_vec(&[0xFC, 0x00]);
    assert_eq!(
        Instructions::read_from_byte_reader(&mut r).unwrap(),
        Instructions::I32TruncSatF32S
    );
    let mut r2 = ByteReader::from_vec(&[0xFC, 0x07]);
    assert_eq!(
        Instructions::read_from_byte_reader(&mut r2).unwrap(),
        Instructions::I64TruncSatF64U
    );
}

#[test]
fn unknown_opcodes_fail() {
    // 0x02 (a block) is reserved: its immediates are not decoded here.
    let mut r = ByteReader::from_vec(&[0x02]);
    assert_eq!(
        Instructions::read_from_byte_reader(&mut r).unwrap_err(),
        ByteReaderError::UnknownOpcode
    );
    // Unknown secondary opcode.
    let mut r2 = ByteReader::from_vec(&[0xFC, 0x20]);
    assert_eq!(
        Instructions::read_from_byte_reader(&mut r2).unwrap_err(),
        ByteReaderError::UnknownOpcode
    );
}

#[test]
fn simple_arithmetic_opcodes_decode() {
    let cases: Vec<(u8, Instructions)> = vec![
        (0x6A, Instructions::I32Add),
        (0x45, Instructions::I32Eqz),
        (0xA6, Instructions::F64Copysign),
        (0xC4, Instructions::I64Extend32S),
        (0x00, Instructions::Unreachable),
        (0x1B, Instructions::Select),
        (0xD1, Instructions::RefIsNull),
    ];
    for (op, ins) in cases {
        let mut r = ByteReader::from_vec(&[op]);
        assert_eq!(Instructions::read_from_byte_reader(&mut r).unwrap(), ins);
        assert_eq!(encode_instruction(&ins).unwrap(), vec![op]);
    }
}

#[test]
fn expression_round_trips_and_consumes_exactly() {
    let exprs: Vec<Instructions> = vec![
        Instructions::I32Const(-1),
        Instructions::LocalGet(Indecies::LocalIdx(3)),
        Instructions::I32Add,
        Instructions::Call(Indecies::FuncIdx(300)),
        Instructions::F32Const(0xDEAD_BEEF),
        Instructions::I64Const(-123_456_789),
        Instructions::MemoryInit(Indecies::DataIdx(2)),
        Instructions::I32TruncSatF64U,
        Instructions::Nop,
    ];
    let mut encoded = encode_expr(&exprs).unwrap();
    let expected_len = encoded.len() + 1;
    encoded.push(0x0B);
    let mut r = ByteReader::from_vec(&encoded);
    let decoded = read_expr(&mut r).unwrap();
    assert_eq!(decoded, exprs);
    assert_eq!(r.get_current_offset(), expected_len);
}

#[test]
fn empty_expression_is_one_terminator_byte() {
    let mut r = ByteReader::from_vec(&[0x0B, 0x41]);
    assert_eq!(read_expr(&mut r).unwrap(), Vec::<Instructions>::new());
    assert_eq!(r.get_current_offset(), 1);
}

#[test]
fn expression_without_terminator_is_truncated() {
    let mut r = ByteReader::from_vec(&[0x41, 0x00]);
    assert_eq!(read_expr(&mut r).unwrap_err(), ByteReaderError::DecodeTruncated);
}

#[test]
fn reserved_instructions_have_no_encoding() {
    assert!(encode_instruction(&Instructions::Block).is_none());
    assert!(encode_instruction(&Instructions::I32Load).is_none());
    assert!(encode_instruction(&Instructions::MemorySize).is_none());
}
