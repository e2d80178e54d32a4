use swai::instructions::Instructions;
use swai::interpreter::WasmEnvironment;
use swai::interpreter::WasmInterpreterError;
use swai::module::WasmModule;

const HEADER: [u8; 8] = [0x00, 0x61, 0x73, 0x6D, 0x01, 0x00, 0x00, 0x00];

fn module_bytes(sections: &[u8]) -> Vec<u8> {
    let mut bytes = HEADER.to_vec();
    bytes.extend_from_slice(sections);
    bytes
}

// type section (one empty signature), function section (one function of
// type 0), start section (function 0).
const RUNNABLE: [u8; 13] = [
    0x01, 0x04, 0x01, 0x60, 0x00, 0x00, 0x03, 0x02, 0x01, 0x00, 0x08, 0x01, 0x00,
];

fn hello_segment() -> Vec<u8> {
    vec![0x0B, 0x0C, 0x01, 0x00, 0x41, 0x0A, 0x0B, 0x05, b'H', b'e', b'l', b'l', b'o']
}

#[test]
fn initializer_copies_active_segment_at_its_offset() {
    let mut bytes = module_bytes(&RUNNABLE);
    bytes.extend_from_slice(&hello_segment());
    let module = WasmModule::from_bytes(&bytes).unwrap();
    let mut env = WasmEnvironment::new(module, vec![0u8; 16]);
    env.start().unwrap();
    assert_eq!(&env.memory[10..15], b"Hello");
    for (i, b) in env.memory.iter().enumerate() {
        if !(10..15).contains(&i) {
            assert_eq!(*b, 0);
        }
    }
}

#[test]
fn initializer_without_start_reports_no_entry_point_after_copying() {
    let bytes = module_bytes(&hello_segment());
    let module = WasmModule::from_bytes(&bytes).unwrap();
    let mut env = WasmEnvironment::new(module, vec![0u8; 16]);
    assert_eq!(env.start().unwrap_err(), WasmInterpreterError::NoEntryPoint);
    // The memory is still seeded: the start lookup comes after the copies.
    assert_eq!(&env.memory[10..15], b"Hello");
}

#[test]
fn start_index_with_no_function_reports_no_entry_point() {
    // A start section pointing at function 0 with an empty function list.
    let bytes = module_bytes(&[0x08, 0x01, 0x00]);
    let module = WasmModule::from_bytes(&bytes).unwrap();
    let mut env = WasmEnvironment::new(module, vec![0u8; 4]);
    assert_eq!(env.start().unwrap_err(), WasmInterpreterError::NoEntryPoint);
}

#[test]
fn write_past_the_buffer_reports_memory_out_of_bounds() {
    let mut bytes = module_bytes(&RUNNABLE);
    bytes.extend_from_slice(&hello_segment());
    let module = WasmModule::from_bytes(&bytes).unwrap();
    // 12 bytes of memory: "Hello" at offset 10 needs 15.
    let mut env = WasmEnvironment::new(module, vec![0u8; 12]);
    let err = env.start().unwrap_err();
    assert_eq!(
        err,
        WasmInterpreterError::ModifyMemoryOutOfBounds {
            offset: 10,
            data: b"Hello".to_vec(),
            failed_pos: 12,
            memory_len: 12,
        }
    );
    // The failing segment's fitting prefix is written, byte for byte, up
    // to the end of the memory before the failure returns.
    let mut expected = vec![0u8; 12];
    expected[10] = b'H';
    expected[11] = b'e';
    assert_eq!(env.memory, expected);
}

#[test]
fn non_constant_offset_expression_is_rejected() {
    // An active segment whose offset expression starts with a plain opcode.
    let mut bytes = module_bytes(&RUNNABLE);
    bytes.extend_from_slice(&[0x0B, 0x05, 0x01, 0x00, 0x01, 0x0B, 0x00]);
    let module = WasmModule::from_bytes(&bytes).unwrap();
    let mut env = WasmEnvironment::new(module, vec![0u8; 4]);
    assert_eq!(
        env.start().unwrap_err(),
        WasmInterpreterError::InvalidMemorySegmentOffset(Instructions::Nop)
    );
    // Nothing was written.
    assert_eq!(env.memory, vec![0u8; 4]);
}

#[test]
fn earlier_segments_stay_applied_when_a_later_one_fails() {
    let mut bytes = module_bytes(&RUNNABLE);
    // Two segments: [0x33] at offset 0 applies; then a non-constant offset
    // expression fails.
    bytes.extend_from_slice(&[
        0x0B, 0x0A, 0x02,
        // active, offset [i32.const 0], payload [0x33]
        0x00, 0x41, 0x00, 0x0B, 0x01, 0x33,
        // active, offset expression [nop], empty payload
        0x00, 0x01, 0x0B, 0x00,
    ]);
    let module = WasmModule::from_bytes(&bytes).unwrap();
    let mut env = WasmEnvironment::new(module, vec![0u8; 2]);
    assert_eq!(
        env.start().unwrap_err(),
        WasmInterpreterError::InvalidMemorySegmentOffset(Instructions::Nop)
    );
    assert_eq!(env.memory, vec![0x33, 0]);
}

#[test]
fn failed_pos_is_the_offset_when_it_lies_past_the_buffer() {
    let mut bytes = module_bytes(&RUNNABLE);
    // Active segment at offset 9 with a one-byte payload, 4 bytes of memory.
    bytes.extend_from_slice(&[0x0B, 0x07, 0x01, 0x00, 0x41, 0x09, 0x0B, 0x01, 0x55]);
    let module = WasmModule::from_bytes(&bytes).unwrap();
    let mut env = WasmEnvironment::new(module, vec![0u8; 4]);
    assert_eq!(
        env.start().unwrap_err(),
        WasmInterpreterError::ModifyMemoryOutOfBounds {
            offset: 9,
            data: vec![0x55],
            failed_pos: 9,
            memory_len: 4,
        }
    );
    // The offset already lies past the buffer, so no prefix fits.
    assert_eq!(env.memory, vec![0u8; 4]);
}

#[test]
fn passive_segments_copy_at_offset_zero() {
    // Passive segments resolve to offset 0, so their bytes land at the
    // start of the buffer.
    let mut bytes = module_bytes(&RUNNABLE);
    bytes.extend_from_slice(&[0x0B, 0x04, 0x01, 0x01, 0x01, 0x07]);
    let module = WasmModule::from_bytes(&bytes).unwrap();
    let mut env = WasmEnvironment::new(module, vec![0u8; 4]);
    env.start().unwrap();
    assert_eq!(env.memory, vec![7, 0, 0, 0]);
}

#[test]
fn i64_const_offsets_resolve() {
    let mut bytes = module_bytes(&RUNNABLE);
    // Active segment, offset expression [i64.const 2], payload [0xAB].
    bytes.extend_from_slice(&[0x0B, 0x07, 0x01, 0x00, 0x42, 0x02, 0x0B, 0x01, 0xAB]);
    let module = WasmModule::from_bytes(&bytes).unwrap();
    let mut env = WasmEnvironment::new(module, vec![0u8; 4]);
    env.start().unwrap();
    assert_eq!(env.memory, vec![0, 0, 0xAB, 0]);
}

#[test]
fn empty_offset_expression_resolves_to_zero() {
    let mut bytes = module_bytes(&RUNNABLE);
    // Active segment with an empty offset expression, payload [0x11].
    bytes.extend_from_slice(&[0x0B, 0x05, 0x01, 0x00, 0x0B, 0x01, 0x11]);
    let module = WasmModule::from_bytes(&bytes).unwrap();
    let mut env = WasmEnvironment::new(module, vec![0u8; 2]);
    env.start().unwrap();
    assert_eq!(env.memory, vec![0x11, 0]);
}
