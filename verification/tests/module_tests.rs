use swai::error::WasmParserError;
use swai::instructions::Instructions;
use swai::module::WasmModule;
use swai::reader::ByteReader;
use swai::reader::ByteReaderError;
use swai::sections::WasmSections;
use swai::types::FunctionType;
use swai::types::ImportDesc;
use swai::types::Indecies;
use swai::types::Limits;
use swai::types::Mutability;
use swai::types::Name;
use swai::types::NumberTypes;
use swai::types::ReferenceTypes;
use swai::types::SegmentMode;
use swai::types::ValueType;

const HEADER: [u8; 8] = [0x00, 0x61, 0x73, 0x6D, 0x01, 0x00, 0x00, 0x00];

fn module_bytes(sections: &[u8]) -> Vec<u8> {
    let mut bytes = HEADER.to_vec();
    bytes.extend_from_slice(sections);
    bytes
}

#[test]
fn empty_module_has_empty_sections() {
    let m = WasmModule::from_bytes(&HEADER).unwrap();
    assert!(m.sections.types.is_empty());
    assert!(m.sections.imports.is_empty());
    assert!(m.sections.functions.is_empty());
    assert!(m.sections.tables.is_empty());
    assert!(m.sections.memory.is_empty());
    assert!(m.sections.global.is_empty());
    assert!(m.sections.export.is_empty());
    assert!(m.sections.start.is_none());
    assert!(m.sections.code.is_empty());
    assert!(m.sections.data.is_empty());
    assert!(m.sections.data_count.is_none());
}

#[test]
fn invalid_magic_is_rejected() {
    let bytes = [0xDE, 0xAD, 0xBE, 0xEF, 0x01, 0x00, 0x00, 0x00];
    assert_eq!(WasmModule::from_bytes(&bytes).unwrap_err(), WasmParserError::InvalidMagic);
    assert_eq!(WasmModule::from_bytes(&[]).unwrap_err(), WasmParserError::InvalidMagic);
}

#[test]
fn unsupported_version_is_rejected() {
    let bytes = [0x00, 0x61, 0x73, 0x6D, 0x02, 0x00, 0x00, 0x00];
    assert_eq!(
        WasmModule::from_bytes(&bytes).unwrap_err(),
        WasmParserError::UnsupportedVersion
    );
}

#[test]
fn type_section_with_one_signature() {
    let bytes = module_bytes(&[0x01, 0x07, 0x01, 0x60, 0x02, 0x7F, 0x7F, 0x01, 0x7F]);
    let m = WasmModule::from_bytes(&bytes).unwrap();
    assert_eq!(
        m.sections.types,
        vec![FunctionType {
            params: vec![
                ValueType::NumType(NumberTypes::I32),
                ValueType::NumType(NumberTypes::I32),
            ],
            result: vec![ValueType::NumType(NumberTypes::I32)],
        }]
    );
}

#[test]
fn function_type_without_magic_byte_fails() {
    let bytes = module_bytes(&[0x01, 0x04, 0x01, 0x5F, 0x00, 0x00]);
    assert_eq!(
        WasmModule::from_bytes(&bytes).unwrap_err(),
        WasmParserError::ParserError(ByteReaderError::InvalidSectionBody)
    );
}

#[test]
fn unknown_section_id_is_rejected() {
    let bytes = module_bytes(&[0x0D, 0x00]);
    assert_eq!(
        WasmModule::from_bytes(&bytes).unwrap_err(),
        WasmParserError::UnknownSectionId { id: 13 }
    );
}

#[test]
fn unknown_section_id_after_a_valid_section() {
    let bytes = module_bytes(&[0x0C, 0x01, 0x01, 0x22, 0x00]);
    assert_eq!(
        WasmModule::from_bytes(&bytes).unwrap_err(),
        WasmParserError::UnknownSectionId { id: 0x22 }
    );
}

#[test]
fn unknown_id_with_truncated_size_is_a_reader_error() {
    // The size field is read before the id is inspected, so a header whose
    // size is missing fails as a decode error even when its id is unknown.
    let bytes = module_bytes(&[0x22]);
    assert_eq!(
        WasmModule::from_bytes(&bytes).unwrap_err(),
        WasmParserError::ParserError(ByteReaderError::DecodeTruncated)
    );
}

#[test]
fn custom_section_is_skipped() {
    let bytes = module_bytes(&[0x00, 0x03, 0xAA, 0xBB, 0xCC]);
    let m = WasmModule::from_bytes(&bytes).unwrap();
    assert!(m.sections.types.is_empty());
}

#[test]
fn custom_section_overrunning_the_input_fails() {
    let bytes = module_bytes(&[0x00, 0x09, 0x01]);
    assert!(matches!(
        WasmModule::from_bytes(&bytes).unwrap_err(),
        WasmParserError::ParserError(ByteReaderError::OutOfBounds { .. })
    ));
}

#[test]
fn import_section_with_one_import() {
    // (module "ab") (field "c") importing a memory with limits {min 1}.
    let bytes = module_bytes(&[
        0x02, 0x09, 0x01, 0x02, b'a', b'b', 0x01, b'c', 0x02, 0x00, 0x01,
    ]);
    let m = WasmModule::from_bytes(&bytes).unwrap();
    assert_eq!(
        m.sections.imports,
        vec![(
            Name(String::from("ab")),
            Name(String::from("c")),
            ImportDesc::MemType(Limits::min { min: 1 }),
        )]
    );
}

#[test]
fn element_decode_errors_propagate_through_vectors() {
    // An import whose module name declares five bytes but the stream ends
    // after two: the name decoder's out-of-bounds error surfaces unchanged.
    let bytes = module_bytes(&[0x02, 0x04, 0x01, 0x05, b'a', b'b']);
    assert!(matches!(
        WasmModule::from_bytes(&bytes).unwrap_err(),
        WasmParserError::ParserError(ByteReaderError::OutOfBounds { .. })
    ));
}

#[test]
fn function_table_memory_and_start_sections() {
    let bytes = module_bytes(&[
        // type section: one empty signature
        0x01, 0x04, 0x01, 0x60, 0x00, 0x00,
        // function section: one function of type 0
        0x03, 0x02, 0x01, 0x00,
        // table section: funcref, limits {min 1, max 2}
        0x04, 0x05, 0x01, 0x70, 0x01, 0x01, 0x02,
        // memory section: limits {min 16}
        0x05, 0x03, 0x01, 0x00, 0x10,
        // start section: function 0
        0x08, 0x01, 0x00,
    ]);
    let m = WasmModule::from_bytes(&bytes).unwrap();
    assert_eq!(m.sections.functions, vec![Indecies::TypeIdx(0)]);
    assert_eq!(m.sections.tables.len(), 1);
    assert_eq!(m.sections.tables[0].elem, ReferenceTypes::funcref);
    assert_eq!(m.sections.tables[0].lim, Limits::minmax { min: 1, max: 2 });
    assert_eq!(m.sections.memory, vec![Limits::min { min: 16 }]);
    assert_eq!(m.sections.start, Some(Indecies::FuncIdx(0)));
}

#[test]
fn global_export_and_data_count_sections() {
    let bytes = module_bytes(&[
        // global section: one i32 const global, init [i32.const 7]
        0x06, 0x06, 0x01, 0x7F, 0x00, 0x41, 0x07, 0x0B,
        // export section: "go" -> func 0
        0x07, 0x06, 0x01, 0x02, b'g', b'o', 0x00, 0x00,
        // data count section
        0x0C, 0x01, 0x02,
    ]);
    let m = WasmModule::from_bytes(&bytes).unwrap();
    assert_eq!(m.sections.global.len(), 1);
    let (gt, init) = &m.sections.global[0];
    assert_eq!(gt.vtype, ValueType::NumType(NumberTypes::I32));
    assert_eq!(gt.mutability, Mutability::Const);
    assert_eq!(init, &vec![Instructions::I32Const(7)]);
    assert_eq!(
        m.sections.export,
        vec![(Name(String::from("go")), Indecies::FuncIdx(0))]
    );
    assert_eq!(m.sections.data_count, Some(2));
}

#[test]
fn export_with_bad_index_kind_fails() {
    let bytes = module_bytes(&[0x07, 0x05, 0x01, 0x01, b'x', 0x04, 0x00]);
    assert_eq!(
        WasmModule::from_bytes(&bytes).unwrap_err(),
        WasmParserError::ParserError(ByteReaderError::InvalidSectionBody)
    );
}

#[test]
fn code_section_reads_locals_and_body() {
    let bytes = module_bytes(&[
        // code section: one body of 7 bytes: one local run (2 x i64),
        // body [i32.const 5] end
        0x0A, 0x09, 0x01, 0x07, 0x01, 0x02, 0x7E, 0x41, 0x05, 0x0B, 0x0B,
    ]);
    // Trailing bytes after the expression's terminator inside the body are
    // ignored; here the declared size covers exactly the body plus one spare
    // byte (the second 0x0B is the spare, inside the 7-byte body).
    let m = WasmModule::from_bytes(&bytes).unwrap();
    assert_eq!(m.sections.code.len(), 1);
    let (locals, body) = &m.sections.code[0];
    assert_eq!(locals, &vec![(2u32, ValueType::NumType(NumberTypes::I64))]);
    assert_eq!(body, &vec![Instructions::I32Const(5)]);
}

#[test]
fn data_section_active_mode_zero() {
    let bytes = module_bytes(&[
        0x0B, 0x0C, 0x01, 0x00, 0x41, 0x0A, 0x0B, 0x05, b'H', b'e', b'l', b'l', b'o',
    ]);
    let m = WasmModule::from_bytes(&bytes).unwrap();
    assert_eq!(m.sections.data.len(), 1);
    let seg = &m.sections.data[0];
    assert_eq!(
        seg.mode,
        SegmentMode::Active { memory_index: 0, offset: vec![Instructions::I32Const(10)] }
    );
    assert_eq!(seg.bytes, b"Hello".to_vec());
}

#[test]
fn data_section_passive_and_explicit_memory_index() {
    let bytes = module_bytes(&[
        0x0B, 0x0B, 0x02,
        // passive segment, payload [9]
        0x01, 0x01, 0x09,
        // active segment with explicit memory index 0: offset expr then index
        0x02, 0x41, 0x00, 0x0B, 0x00, 0x01, 0x08,
    ]);
    let m = WasmModule::from_bytes(&bytes).unwrap();
    assert_eq!(m.sections.data.len(), 2);
    assert_eq!(m.sections.data[0].mode, SegmentMode::Passive);
    assert_eq!(m.sections.data[0].bytes, vec![9]);
    assert_eq!(
        m.sections.data[1].mode,
        SegmentMode::Active { memory_index: 0, offset: vec![Instructions::I32Const(0)] }
    );
    assert_eq!(m.sections.data[1].bytes, vec![8]);
}

#[test]
fn from_reader_consumes_the_whole_stream() {
    let mut reader = ByteReader::from_vec(&[0x0C, 0x01, 0x07]);
    let sections = WasmSections::from_reader(&mut reader).unwrap();
    assert_eq!(sections.data_count, Some(7));
    assert_eq!(reader.get_current_offset(), reader.get_file_length());
}

#[test]
fn truncated_section_header_fails() {
    // A section id with no size after it.
    let bytes = module_bytes(&[0x01]);
    assert_eq!(
        WasmModule::from_bytes(&bytes).unwrap_err(),
        WasmParserError::ParserError(ByteReaderError::DecodeTruncated)
    );
}

#[test]
fn repeated_section_replaces_the_earlier_one() {
    let bytes = module_bytes(&[0x0C, 0x01, 0x01, 0x0C, 0x01, 0x02]);
    let m = WasmModule::from_bytes(&bytes).unwrap();
    assert_eq!(m.sections.data_count, Some(2));
}
