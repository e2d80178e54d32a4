//! The instruction decoder: one opcode byte (with the `0xFC` prefix for a
//! secondary table), then the immediate operands of the payload-bearing
//! opcodes, and the expression reader that stops at the `0x0B` sentinel.
//!
//! Opcodes whose immediate operands this decoder does not define (blocks,
//! branches, the memory loads and stores, and the like) are carried in the
//! tag union but rejected by the decoder with `UnknownOpcode`.
//!
//! Floating-point constants are carried as their IEEE-754 bit patterns in
//! plain unsigned integers; the decoder never interprets them numerically.

use vstd::prelude::*;

use crate::leb128::Leb128Readers;
use crate::leb128::sleb_value32;
use crate::leb128::sleb_value64;
use crate::leb128::uleb_encode;
use crate::leb128::sleb_encode;
use crate::leb128::uleb_ok_len;
use crate::leb128::uleb_value;
use crate::reader::ByteReader;
use crate::reader::ByteReaderError;
use crate::reader::DecodeFailure;
use crate::reader::Endian;
use crate::reader::FromByteReader;
use crate::reader::failure_of;
use crate::leb128::uleb_fail;
use crate::types::Indecies;

verus! {

/// A decoded instruction: a tagged union over the opcode table, payload-
/// bearing variants carrying their immediate operands.
#[derive(Debug, Clone, Copy, PartialEq, Eq, Structural)]
pub enum Instructions {
    Unreachable,
    Nop,
    Return,
    Drop,
    Select,
    RefIsNull,
    I32Eqz,
    I32Eq,
    I32Ne,
    I32LtS,
    I32LtU,
    I32GtS,
    I32GtU,
    I32LeS,
    I32LeU,
    I32GeS,
    I32GeU,
    I64Eqz,
    I64Eq,
    I64Ne,
    I64LtS,
    I64LtU,
    I64GtS,
    I64GtU,
    I64LeS,
    I64LeU,
    I64GeS,
    I64GeU,
    F32Eq,
    F32Ne,
    F32Lt,
    F32Gt,
    F32Le,
    F32Ge,
    F64Eq,
    F64Ne,
    F64Lt,
    F64Gt,
    F64Le,
    F64Ge,
    I32Clz,
    I32Ctz,
    I32Popcnt,
    I32Add,
    I32Sub,
    I32Mul,
    I32DivS,
    I32DivU,
    I32RemS,
    I32RemU,
    I32And,
    I32Or,
    I32Xor,
    I32Shl,
    I32ShrS,
    I32ShrU,
    I32Rotl,
    I32Rotr,
    I64Clz,
    I64Ctz,
    I64Popcnt,
    I64Add,
    I64Sub,
    I64Mul,
    I64DivS,
    I64DivU,
    I64RemS,
    I64RemU,
    I64And,
    I64Or,
    I64Xor,
    I64Shl,
    I64ShrS,
    I64ShrU,
    I64Rotl,
    I64Rotr,
    F32Abs,
    F32Neg,
    F32Ceil,
    F32Floor,
    F32Trunc,
    F32Nearest,
    F32Sqrt,
    F32Add,
    F32Sub,
    F32Mul,
    F32Div,
    F32Min,
    F32Max,
    F32Copysign,
    F64Abs,
    F64Neg,
    F64Ceil,
    F64Floor,
    F64Trunc,
    F64Nearest,
    F64Sqrt,
    F64Add,
    F64Sub,
    F64Mul,
    F64Div,
    F64Min,
    F64Max,
    F64Copysign,
    I32WrapI64,
    I32TruncF32S,
    I32TruncF32U,
    I32TruncF64S,
    I32TruncF64U,
    I64ExtendI32S,
    I64ExtendI32U,
    I64TruncF32S,
    I64TruncF32U,
    I64TruncF64S,
    I64TruncF64U,
    F32ConvertI32S,
    F32ConvertI32U,
    F32ConvertI64S,
    F32ConvertI64U,
    F32DemoteF64,
    F64ConvertI32S,
    F64ConvertI32U,
    F64ConvertI64S,
    F64ConvertI64U,
    F64PromoteF32,
    I32ReinterpretF32,
    I64ReinterpretF64,
    F32ReinterpretI32,
    F64ReinterpretI64,
    I32Extend8S,
    I32Extend16S,
    I64Extend8S,
    I64Extend16S,
    I64Extend32S,
    Call(Indecies),
    LocalGet(Indecies),
    MemoryInit(Indecies),
    I32Const(i32),
    I64Const(i64),
    F32Const(u32),
    F64Const(u64),
    I32TruncSatF32S,
    I32TruncSatF32U,
    I32TruncSatF64S,
    I32TruncSatF64U,
    I64TruncSatF32S,
    I64TruncSatF32U,
    I64TruncSatF64S,
    I64TruncSatF64U,
    BlockType,
    Block,
    Loop,
    IfElse,
    IfElseJmp,
    Br,
    BrIf,
    BrTable,
    CallIndirect,
    RefNull,
    RefFunc,
    SelectMultiple,
    LocalSet,
    LocalTee,
    GlobalGet,
    GlobalSet,
    TableGet,
    TableSet,
    TableInit,
    ElemDrop,
    TableCopy,
    TableGrow,
    TableSize,
    TableFill,
    I32Load,
    I64Load,
    F32Load,
    F64Load,
    I32Load8S,
    I32Load8U,
    I32Load16S,
    I32Load16U,
    I64Load8S,
    I64Load8U,
    I64Load16S,
    I64Load16U,
    I64Load32S,
    I64Load32U,
    I32Store,
    I64Store,
    F32Store,
    F64Store,
    I32Store8,
    I32Store16,
    I64Store8,
    I64Store16,
    I64Store32,
    MemorySize,
    MemoryGrow,
    DataDrop,
    MemoryCopy,
    MemoryFill,
}

impl DeepView for Instructions {
    type V = Instructions;

    open spec fn deep_view(&self) -> Instructions {
        *self
    }
}

/// The instruction a lone opcode byte encodes, for the opcodes that carry
/// no immediate operands.
pub open spec fn simple_variant(op: u8) -> Option<Instructions> {
    match op {
        0x00 => Some(Instructions::Unreachable),
        0x01 => Some(Instructions::Nop),
        0x0f => Some(Instructions::Return),
        0x1a => Some(Instructions::Drop),
        0x1b => Some(Instructions::Select),
        0xd1 => Some(Instructions::RefIsNull),
        0x45 => Some(Instructions::I32Eqz),
        0x46 => Some(Instructions::I32Eq),
        0x47 => Some(Instructions::I32Ne),
        0x48 => Some(Instructions::I32LtS),
        0x49 => Some(Instructions::I32LtU),
        0x4a => Some(Instructions::I32GtS),
        0x4b => Some(Instructions::I32GtU),
        0x4c => Some(Instructions::I32LeS),
        0x4d => Some(Instructions::I32LeU),
        0x4e => Some(Instructions::I32GeS),
        0x4f => Some(Instructions::I32GeU),
        0x50 => Some(Instructions::I64Eqz),
        0x51 => Some(Instructions::I64Eq),
        0x52 => Some(Instructions::I64Ne),
        0x53 => Some(Instructions::I64LtS),
        0x54 => Some(Instructions::I64LtU),
        0x55 => Some(Instructions::I64GtS),
        0x56 => Some(Instructions::I64GtU),
        0x57 => Some(Instructions::I64LeS),
        0x58 => Some(Instructions::I64LeU),
        0x59 => Some(Instructions::I64GeS),
        0x5a => Some(Instructions::I64GeU),
        0x5b => Some(Instructions::F32Eq),
        0x5c => Some(Instructions::F32Ne),
        0x5d => Some(Instructions::F32Lt),
        0x5e => Some(Instructions::F32Gt),
        0x5f => Some(Instructions::F32Le),
        0x60 => Some(Instructions::F32Ge),
        0x61 => Some(Instructions::F64Eq),
        0x62 => Some(Instructions::F64Ne),
        0x63 => Some(Instructions::F64Lt),
        0x64 => Some(Instructions::F64Gt),
        0x65 => Some(Instructions::F64Le),
        0x66 => Some(Instructions::F64Ge),
        0x67 => Some(Instructions::I32Clz),
        0x68 => Some(Instructions::I32Ctz),
        0x69 => Some(Instructions::I32Popcnt),
        0x6a => Some(Instructions::I32Add),
        0x6b => Some(Instructions::I32Sub),
        0x6c => Some(Instructions::I32Mul),
        0x6d => Some(Instructions::I32DivS),
        0x6e => Some(Instructions::I32DivU),
        0x6f => Some(Instructions::I32RemS),
        0x70 => Some(Instructions::I32RemU),
        0x71 => Some(Instructions::I32And),
        0x72 => Some(Instructions::I32Or),
        0x73 => Some(Instructions::I32Xor),
        0x74 => Some(Instructions::I32Shl),
        0x75 => Some(Instructions::I32ShrS),
        0x76 => Some(Instructions::I32ShrU),
        0x77 => Some(Instructions::I32Rotl),
        0x78 => Some(Instructions::I32Rotr),
        0x79 => Some(Instructions::I64Clz),
        0x7a => Some(Instructions::I64Ctz),
        0x7b => Some(Instructions::I64Popcnt),
        0x7c => Some(Instructions::I64Add),
        0x7d => Some(Instructions::I64Sub),
        0x7e => Some(Instructions::I64Mul),
        0x7f => Some(Instructions::I64DivS),
        0x80 => Some(Instructions::I64DivU),
        0x81 => Some(Instructions::I64RemS),
        0x82 => Some(Instructions::I64RemU),
        0x83 => Some(Instructions::I64And),
        0x84 => Some(Instructions::I64Or),
        0x85 => Some(Instructions::I64Xor),
        0x86 => Some(Instructions::I64Shl),
        0x87 => Some(Instructions::I64ShrS),
        0x88 => Some(Instructions::I64ShrU),
        0x89 => Some(Instructions::I64Rotl),
        0x8a => Some(Instructions::I64Rotr),
        0x8b => Some(Instructions::F32Abs),
        0x8c => Some(Instructions::F32Neg),
        0x8d => Some(Instructions::F32Ceil),
        0x8e => Some(Instructions::F32Floor),
        0x8f => Some(Instructions::F32Trunc),
        0x90 => Some(Instructions::F32Nearest),
        0x91 => Some(Instructions::F32Sqrt),
        0x92 => Some(Instructions::F32Add),
        0x93 => Some(Instructions::F32Sub),
        0x94 => Some(Instructions::F32Mul),
        0x95 => Some(Instructions::F32Div),
        0x96 => Some(Instructions::F32Min),
        0x97 => Some(Instructions::F32Max),
        0x98 => Some(Instructions::F32Copysign),
        0x99 => Some(Instructions::F64Abs),
        0x9a => Some(Instructions::F64Neg),
        0x9b => Some(Instructions::F64Ceil),
        0x9c => Some(Instructions::F64Floor),
        0x9d => Some(Instructions::F64Trunc),
        0x9e => Some(Instructions::F64Nearest),
        0x9f => Some(Instructions::F64Sqrt),
        0xa0 => Some(Instructions::F64Add),
        0xa1 => Some(Instructions::F64Sub),
        0xa2 => Some(Instructions::F64Mul),
        0xa3 => Some(Instructions::F64Div),
        0xa4 => Some(Instructions::F64Min),
        0xa5 => Some(Instructions::F64Max),
        0xa6 => Some(Instructions::F64Copysign),
        0xa7 => Some(Instructions::I32WrapI64),
        0xa8 => Some(Instructions::I32TruncF32S),
        0xa9 => Some(Instructions::I32TruncF32U),
        0xaa => Some(Instructions::I32TruncF64S),
        0xab => Some(Instructions::I32TruncF64U),
        0xac => Some(Instructions::I64ExtendI32S),
        0xad => Some(Instructions::I64ExtendI32U),
        0xae => Some(Instructions::I64TruncF32S),
        0xaf => Some(Instructions::I64TruncF32U),
        0xb0 => Some(Instructions::I64TruncF64S),
        0xb1 => Some(Instructions::I64TruncF64U),
        0xb2 => Some(Instructions::F32ConvertI32S),
        0xb3 => Some(Instructions::F32ConvertI32U),
        0xb4 => Some(Instructions::F32ConvertI64S),
        0xb5 => Some(Instructions::F32ConvertI64U),
        0xb6 => Some(Instructions::F32DemoteF64),
        0xb7 => Some(Instructions::F64ConvertI32S),
        0xb8 => Some(Instructions::F64ConvertI32U),
        0xb9 => Some(Instructions::F64ConvertI64S),
        0xba => Some(Instructions::F64ConvertI64U),
        0xbb => Some(Instructions::F64PromoteF32),
        0xbc => Some(Instructions::I32ReinterpretF32),
        0xbd => Some(Instructions::I64ReinterpretF64),
        0xbe => Some(Instructions::F32ReinterpretI32),
        0xbf => Some(Instructions::F64ReinterpretI64),
        0xc0 => Some(Instructions::I32Extend8S),
        0xc1 => Some(Instructions::I32Extend16S),
        0xc2 => Some(Instructions::I64Extend8S),
        0xc3 => Some(Instructions::I64Extend16S),
        0xc4 => Some(Instructions::I64Extend32S),
        _ => None,
    }
}

/// The opcode byte of an instruction without immediate operands, if any.
pub open spec fn simple_byte(ins: Instructions) -> Option<u8> {
    match ins {
        Instructions::Unreachable => Some(0x00),
        Instructions::Nop => Some(0x01),
        Instructions::Return => Some(0x0f),
        Instructions::Drop => Some(0x1a),
        Instructions::Select => Some(0x1b),
        Instructions::RefIsNull => Some(0xd1),
        Instructions::I32Eqz => Some(0x45),
        Instructions::I32Eq => Some(0x46),
        Instructions::I32Ne => Some(0x47),
        Instructions::I32LtS => Some(0x48),
        Instructions::I32LtU => Some(0x49),
        Instructions::I32GtS => Some(0x4a),
        Instructions::I32GtU => Some(0x4b),
        Instructions::I32LeS => Some(0x4c),
        Instructions::I32LeU => Some(0x4d),
        Instructions::I32GeS => Some(0x4e),
        Instructions::I32GeU => Some(0x4f),
        Instructions::I64Eqz => Some(0x50),
        Instructions::I64Eq => Some(0x51),
        Instructions::I64Ne => Some(0x52),
        Instructions::I64LtS => Some(0x53),
        Instructions::I64LtU => Some(0x54),
        Instructions::I64GtS => Some(0x55),
        Instructions::I64GtU => Some(0x56),
        Instructions::I64LeS => Some(0x57),
        Instructions::I64LeU => Some(0x58),
        Instructions::I64GeS => Some(0x59),
        Instructions::I64GeU => Some(0x5a),
        Instructions::F32Eq => Some(0x5b),
        Instructions::F32Ne => Some(0x5c),
        Instructions::F32Lt => Some(0x5d),
        Instructions::F32Gt => Some(0x5e),
        Instructions::F32Le => Some(0x5f),
        Instructions::F32Ge => Some(0x60),
        Instructions::F64Eq => Some(0x61),
        Instructions::F64Ne => Some(0x62),
        Instructions::F64Lt => Some(0x63),
        Instructions::F64Gt => Some(0x64),
        Instructions::F64Le => Some(0x65),
        Instructions::F64Ge => Some(0x66),
        Instructions::I32Clz => Some(0x67),
        Instructions::I32Ctz => Some(0x68),
        Instructions::I32Popcnt => Some(0x69),
        Instructions::I32Add => Some(0x6a),
        Instructions::I32Sub => Some(0x6b),
        Instructions::I32Mul => Some(0x6c),
        Instructions::I32DivS => Some(0x6d),
        Instructions::I32DivU => Some(0x6e),
        Instructions::I32RemS => Some(0x6f),
        Instructions::I32RemU => Some(0x70),
        Instructions::I32And => Some(0x71),
        Instructions::I32Or => Some(0x72),
        Instructions::I32Xor => Some(0x73),
        Instructions::I32Shl => Some(0x74),
        Instructions::I32ShrS => Some(0x75),
        Instructions::I32ShrU => Some(0x76),
        Instructions::I32Rotl => Some(0x77),
        Instructions::I32Rotr => Some(0x78),
        Instructions::I64Clz => Some(0x79),
        Instructions::I64Ctz => Some(0x7a),
        Instructions::I64Popcnt => Some(0x7b),
        Instructions::I64Add => Some(0x7c),
        Instructions::I64Sub => Some(0x7d),
        Instructions::I64Mul => Some(0x7e),
        Instructions::I64DivS => Some(0x7f),
        Instructions::I64DivU => Some(0x80),
        Instructions::I64RemS => Some(0x81),
        Instructions::I64RemU => Some(0x82),
        Instructions::I64And => Some(0x83),
        Instructions::I64Or => Some(0x84),
        Instructions::I64Xor => Some(0x85),
        Instructions::I64Shl => Some(0x86),
        Instructions::I64ShrS => Some(0x87),
        Instructions::I64ShrU => Some(0x88),
        Instructions::I64Rotl => Some(0x89),
        Instructions::I64Rotr => Some(0x8a),
        Instructions::F32Abs => Some(0x8b),
        Instructions::F32Neg => Some(0x8c),
        Instructions::F32Ceil => Some(0x8d),
        Instructions::F32Floor => Some(0x8e),
        Instructions::F32Trunc => Some(0x8f),
        Instructions::F32Nearest => Some(0x90),
        Instructions::F32Sqrt => Some(0x91),
        Instructions::F32Add => Some(0x92),
        Instructions::F32Sub => Some(0x93),
        Instructions::F32Mul => Some(0x94),
        Instructions::F32Div => Some(0x95),
        Instructions::F32Min => Some(0x96),
        Instructions::F32Max => Some(0x97),
        Instructions::F32Copysign => Some(0x98),
        Instructions::F64Abs => Some(0x99),
        Instructions::F64Neg => Some(0x9a),
        Instructions::F64Ceil => Some(0x9b),
        Instructions::F64Floor => Some(0x9c),
        Instructions::F64Trunc => Some(0x9d),
        Instructions::F64Nearest => Some(0x9e),
        Instructions::F64Sqrt => Some(0x9f),
        Instructions::F64Add => Some(0xa0),
        Instructions::F64Sub => Some(0xa1),
        Instructions::F64Mul => Some(0xa2),
        Instructions::F64Div => Some(0xa3),
        Instructions::F64Min => Some(0xa4),
        Instructions::F64Max => Some(0xa5),
        Instructions::F64Copysign => Some(0xa6),
        Instructions::I32WrapI64 => Some(0xa7),
        Instructions::I32TruncF32S => Some(0xa8),
        Instructions::I32TruncF32U => Some(0xa9),
        Instructions::I32TruncF64S => Some(0xaa),
        Instructions::I32TruncF64U => Some(0xab),
        Instructions::I64ExtendI32S => Some(0xac),
        Instructions::I64ExtendI32U => Some(0xad),
        Instructions::I64TruncF32S => Some(0xae),
        Instructions::I64TruncF32U => Some(0xaf),
        Instructions::I64TruncF64S => Some(0xb0),
        Instructions::I64TruncF64U => Some(0xb1),
        Instructions::F32ConvertI32S => Some(0xb2),
        Instructions::F32ConvertI32U => Some(0xb3),
        Instructions::F32ConvertI64S => Some(0xb4),
        Instructions::F32ConvertI64U => Some(0xb5),
        Instructions::F32DemoteF64 => Some(0xb6),
        Instructions::F64ConvertI32S => Some(0xb7),
        Instructions::F64ConvertI32U => Some(0xb8),
        Instructions::F64ConvertI64S => Some(0xb9),
        Instructions::F64ConvertI64U => Some(0xba),
        Instructions::F64PromoteF32 => Some(0xbb),
        Instructions::I32ReinterpretF32 => Some(0xbc),
        Instructions::I64ReinterpretF64 => Some(0xbd),
        Instructions::F32ReinterpretI32 => Some(0xbe),
        Instructions::F64ReinterpretI64 => Some(0xbf),
        Instructions::I32Extend8S => Some(0xc0),
        Instructions::I32Extend16S => Some(0xc1),
        Instructions::I64Extend8S => Some(0xc2),
        Instructions::I64Extend16S => Some(0xc3),
        Instructions::I64Extend32S => Some(0xc4),
        _ => None,
    }
}

/// The instruction a `0xFC` sub-opcode encodes, for the sub-opcodes that
/// carry no further operands.
pub open spec fn fc_variant(sub: int) -> Option<Instructions> {
    if sub == 0 {
        Some(Instructions::I32TruncSatF32S)
    } else if sub == 1 {
        Some(Instructions::I32TruncSatF32U)
    } else if sub == 2 {
        Some(Instructions::I32TruncSatF64S)
    } else if sub == 3 {
        Some(Instructions::I32TruncSatF64U)
    } else if sub == 4 {
        Some(Instructions::I64TruncSatF32S)
    } else if sub == 5 {
        Some(Instructions::I64TruncSatF32U)
    } else if sub == 6 {
        Some(Instructions::I64TruncSatF64S)
    } else if sub == 7 {
        Some(Instructions::I64TruncSatF64U)
    } else {
        None
    }
}

/// The `0xFC` sub-opcode of an instruction, if any.
pub open spec fn fc_sub(ins: Instructions) -> Option<int> {
    match ins {
        Instructions::I32TruncSatF32S => Some(0),
        Instructions::I32TruncSatF32U => Some(1),
        Instructions::I32TruncSatF64S => Some(2),
        Instructions::I32TruncSatF64U => Some(3),
        Instructions::I64TruncSatF32S => Some(4),
        Instructions::I64TruncSatF32U => Some(5),
        Instructions::I64TruncSatF64S => Some(6),
        Instructions::I64TruncSatF64U => Some(7),
        _ => None,
    }
}

/// Executable twin of [`simple_variant`].
fn simple_instr(op: u8) -> (r: Option<Instructions>)
    ensures
        r == simple_variant(op),
{
    match op {
        0x00 => Some(Instructions::Unreachable),
        0x01 => Some(Instructions::Nop),
        0x0f => Some(Instructions::Return),
        0x1a => Some(Instructions::Drop),
        0x1b => Some(Instructions::Select),
        0xd1 => Some(Instructions::RefIsNull),
        0x45 => Some(Instructions::I32Eqz),
        0x46 => Some(Instructions::I32Eq),
        0x47 => Some(Instructions::I32Ne),
        0x48 => Some(Instructions::I32LtS),
        0x49 => Some(Instructions::I32LtU),
        0x4a => Some(Instructions::I32GtS),
        0x4b => Some(Instructions::I32GtU),
        0x4c => Some(Instructions::I32LeS),
        0x4d => Some(Instructions::I32LeU),
        0x4e => Some(Instructions::I32GeS),
        0x4f => Some(Instructions::I32GeU),
        0x50 => Some(Instructions::I64Eqz),
        0x51 => Some(Instructions::I64Eq),
        0x52 => Some(Instructions::I64Ne),
        0x53 => Some(Instructions::I64LtS),
        0x54 => Some(Instructions::I64LtU),
        0x55 => Some(Instructions::I64GtS),
        0x56 => Some(Instructions::I64GtU),
        0x57 => Some(Instructions::I64LeS),
        0x58 => Some(Instructions::I64LeU),
        0x59 => Some(Instructions::I64GeS),
        0x5a => Some(Instructions::I64GeU),
        0x5b => Some(Instructions::F32Eq),
        0x5c => Some(Instructions::F32Ne),
        0x5d => Some(Instructions::F32Lt),
        0x5e => Some(Instructions::F32Gt),
        0x5f => Some(Instructions::F32Le),
        0x60 => Some(Instructions::F32Ge),
        0x61 => Some(Instructions::F64Eq),
        0x62 => Some(Instructions::F64Ne),
        0x63 => Some(Instructions::F64Lt),
        0x64 => Some(Instructions::F64Gt),
        0x65 => Some(Instructions::F64Le),
        0x66 => Some(Instructions::F64Ge),
        0x67 => Some(Instructions::I32Clz),
        0x68 => Some(Instructions::I32Ctz),
        0x69 => Some(Instructions::I32Popcnt),
        0x6a => Some(Instructions::I32Add),
        0x6b => Some(Instructions::I32Sub),
        0x6c => Some(Instructions::I32Mul),
        0x6d => Some(Instructions::I32DivS),
        0x6e => Some(Instructions::I32DivU),
        0x6f => Some(Instructions::I32RemS),
        0x70 => Some(Instructions::I32RemU),
        0x71 => Some(Instructions::I32And),
        0x72 => Some(Instructions::I32Or),
        0x73 => Some(Instructions::I32Xor),
        0x74 => Some(Instructions::I32Shl),
        0x75 => Some(Instructions::I32ShrS),
        0x76 => Some(Instructions::I32ShrU),
        0x77 => Some(Instructions::I32Rotl),
        0x78 => Some(Instructions::I32Rotr),
        0x79 => Some(Instructions::I64Clz),
        0x7a => Some(Instructions::I64Ctz),
        0x7b => Some(Instructions::I64Popcnt),
        0x7c => Some(Instructions::I64Add),
        0x7d => Some(Instructions::I64Sub),
        0x7e => Some(Instructions::I64Mul),
        0x7f => Some(Instructions::I64DivS),
        0x80 => Some(Instructions::I64DivU),
        0x81 => Some(Instructions::I64RemS),
        0x82 => Some(Instructions::I64RemU),
        0x83 => Some(Instructions::I64And),
        0x84 => Some(Instructions::I64Or),
        0x85 => Some(Instructions::I64Xor),
        0x86 => Some(Instructions::I64Shl),
        0x87 => Some(Instructions::I64ShrS),
        0x88 => Some(Instructions::I64ShrU),
        0x89 => Some(Instructions::I64Rotl),
        0x8a => Some(Instructions::I64Rotr),
        0x8b => Some(Instructions::F32Abs),
        0x8c => Some(Instructions::F32Neg),
        0x8d => Some(Instructions::F32Ceil),
        0x8e => Some(Instructions::F32Floor),
        0x8f => Some(Instructions::F32Trunc),
        0x90 => Some(Instructions::F32Nearest),
        0x91 => Some(Instructions::F32Sqrt),
        0x92 => Some(Instructions::F32Add),
        0x93 => Some(Instructions::F32Sub),
        0x94 => Some(Instructions::F32Mul),
        0x95 => Some(Instructions::F32Div),
        0x96 => Some(Instructions::F32Min),
        0x97 => Some(Instructions::F32Max),
        0x98 => Some(Instructions::F32Copysign),
        0x99 => Some(Instructions::F64Abs),
        0x9a => Some(Instructions::F64Neg),
        0x9b => Some(Instructions::F64Ceil),
        0x9c => Some(Instructions::F64Floor),
        0x9d => Some(Instructions::F64Trunc),
        0x9e => Some(Instructions::F64Nearest),
        0x9f => Some(Instructions::F64Sqrt),
        0xa0 => Some(Instructions::F64Add),
        0xa1 => Some(Instructions::F64Sub),
        0xa2 => Some(Instructions::F64Mul),
        0xa3 => Some(Instructions::F64Div),
        0xa4 => Some(Instructions::F64Min),
        0xa5 => Some(Instructions::F64Max),
        0xa6 => Some(Instructions::F64Copysign),
        0xa7 => Some(Instructions::I32WrapI64),
        0xa8 => Some(Instructions::I32TruncF32S),
        0xa9 => Some(Instructions::I32TruncF32U),
        0xaa => Some(Instructions::I32TruncF64S),
        0xab => Some(Instructions::I32TruncF64U),
        0xac => Some(Instructions::I64ExtendI32S),
        0xad => Some(Instructions::I64ExtendI32U),
        0xae => Some(Instructions::I64TruncF32S),
        0xaf => Some(Instructions::I64TruncF32U),
        0xb0 => Some(Instructions::I64TruncF64S),
        0xb1 => Some(Instructions::I64TruncF64U),
        0xb2 => Some(Instructions::F32ConvertI32S),
        0xb3 => Some(Instructions::F32ConvertI32U),
        0xb4 => Some(Instructions::F32ConvertI64S),
        0xb5 => Some(Instructions::F32ConvertI64U),
        0xb6 => Some(Instructions::F32DemoteF64),
        0xb7 => Some(Instructions::F64ConvertI32S),
        0xb8 => Some(Instructions::F64ConvertI32U),
        0xb9 => Some(Instructions::F64ConvertI64S),
        0xba => Some(Instructions::F64ConvertI64U),
        0xbb => Some(Instructions::F64PromoteF32),
        0xbc => Some(Instructions::I32ReinterpretF32),
        0xbd => Some(Instructions::I64ReinterpretF64),
        0xbe => Some(Instructions::F32ReinterpretI32),
        0xbf => Some(Instructions::F64ReinterpretI64),
        0xc0 => Some(Instructions::I32Extend8S),
        0xc1 => Some(Instructions::I32Extend16S),
        0xc2 => Some(Instructions::I64Extend8S),
        0xc3 => Some(Instructions::I64Extend16S),
        0xc4 => Some(Instructions::I64Extend32S),
        _ => None,
    }
}

/// Executable twin of [`simple_byte`].
fn simple_byte_of(ins: &Instructions) -> (r: Option<u8>)
    ensures
        r == simple_byte(*ins),
{
    match ins {
        Instructions::Unreachable => Some(0x00),
        Instructions::Nop => Some(0x01),
        Instructions::Return => Some(0x0f),
        Instructions::Drop => Some(0x1a),
        Instructions::Select => Some(0x1b),
        Instructions::RefIsNull => Some(0xd1),
        Instructions::I32Eqz => Some(0x45),
        Instructions::I32Eq => Some(0x46),
        Instructions::I32Ne => Some(0x47),
        Instructions::I32LtS => Some(0x48),
        Instructions::I32LtU => Some(0x49),
        Instructions::I32GtS => Some(0x4a),
        Instructions::I32GtU => Some(0x4b),
        Instructions::I32LeS => Some(0x4c),
        Instructions::I32LeU => Some(0x4d),
        Instructions::I32GeS => Some(0x4e),
        Instructions::I32GeU => Some(0x4f),
        Instructions::I64Eqz => Some(0x50),
        Instructions::I64Eq => Some(0x51),
        Instructions::I64Ne => Some(0x52),
        Instructions::I64LtS => Some(0x53),
        Instructions::I64LtU => Some(0x54),
        Instructions::I64GtS => Some(0x55),
        Instructions::I64GtU => Some(0x56),
        Instructions::I64LeS => Some(0x57),
        Instructions::I64LeU => Some(0x58),
        Instructions::I64GeS => Some(0x59),
        Instructions::I64GeU => Some(0x5a),
        Instructions::F32Eq => Some(0x5b),
        Instructions::F32Ne => Some(0x5c),
        Instructions::F32Lt => Some(0x5d),
        Instructions::F32Gt => Some(0x5e),
        Instructions::F32Le => Some(0x5f),
        Instructions::F32Ge => Some(0x60),
        Instructions::F64Eq => Some(0x61),
        Instructions::F64Ne => Some(0x62),
        Instructions::F64Lt => Some(0x63),
        Instructions::F64Gt => Some(0x64),
        Instructions::F64Le => Some(0x65),
        Instructions::F64Ge => Some(0x66),
        Instructions::I32Clz => Some(0x67),
        Instructions::I32Ctz => Some(0x68),
        Instructions::I32Popcnt => Some(0x69),
        Instructions::I32Add => Some(0x6a),
        Instructions::I32Sub => Some(0x6b),
        Instructions::I32Mul => Some(0x6c),
        Instructions::I32DivS => Some(0x6d),
        Instructions::I32DivU => Some(0x6e),
        Instructions::I32RemS => Some(0x6f),
        Instructions::I32RemU => Some(0x70),
        Instructions::I32And => Some(0x71),
        Instructions::I32Or => Some(0x72),
        Instructions::I32Xor => Some(0x73),
        Instructions::I32Shl => Some(0x74),
        Instructions::I32ShrS => Some(0x75),
        Instructions::I32ShrU => Some(0x76),
        Instructions::I32Rotl => Some(0x77),
        Instructions::I32Rotr => Some(0x78),
        Instructions::I64Clz => Some(0x79),
        Instructions::I64Ctz => Some(0x7a),
        Instructions::I64Popcnt => Some(0x7b),
        Instructions::I64Add => Some(0x7c),
        Instructions::I64Sub => Some(0x7d),
        Instructions::I64Mul => Some(0x7e),
        Instructions::I64DivS => Some(0x7f),
        Instructions::I64DivU => Some(0x80),
        Instructions::I64RemS => Some(0x81),
        Instructions::I64RemU => Some(0x82),
        Instructions::I64And => Some(0x83),
        Instructions::I64Or => Some(0x84),
        Instructions::I64Xor => Some(0x85),
        Instructions::I64Shl => Some(0x86),
        Instructions::I64ShrS => Some(0x87),
        Instructions::I64ShrU => Some(0x88),
        Instructions::I64Rotl => Some(0x89),
        Instructions::I64Rotr => Some(0x8a),
        Instructions::F32Abs => Some(0x8b),
        Instructions::F32Neg => Some(0x8c),
        Instructions::F32Ceil => Some(0x8d),
        Instructions::F32Floor => Some(0x8e),
        Instructions::F32Trunc => Some(0x8f),
        Instructions::F32Nearest => Some(0x90),
        Instructions::F32Sqrt => Some(0x91),
        Instructions::F32Add => Some(0x92),
        Instructions::F32Sub => Some(0x93),
        Instructions::F32Mul => Some(0x94),
        Instructions::F32Div => Some(0x95),
        Instructions::F32Min => Some(0x96),
        Instructions::F32Max => Some(0x97),
        Instructions::F32Copysign => Some(0x98),
        Instructions::F64Abs => Some(0x99),
        Instructions::F64Neg => Some(0x9a),
        Instructions::F64Ceil => Some(0x9b),
        Instructions::F64Floor => Some(0x9c),
        Instructions::F64Trunc => Some(0x9d),
        Instructions::F64Nearest => Some(0x9e),
        Instructions::F64Sqrt => Some(0x9f),
        Instructions::F64Add => Some(0xa0),
        Instructions::F64Sub => Some(0xa1),
        Instructions::F64Mul => Some(0xa2),
        Instructions::F64Div => Some(0xa3),
        Instructions::F64Min => Some(0xa4),
        Instructions::F64Max => Some(0xa5),
        Instructions::F64Copysign => Some(0xa6),
        Instructions::I32WrapI64 => Some(0xa7),
        Instructions::I32TruncF32S => Some(0xa8),
        Instructions::I32TruncF32U => Some(0xa9),
        Instructions::I32TruncF64S => Some(0xaa),
        Instructions::I32TruncF64U => Some(0xab),
        Instructions::I64ExtendI32S => Some(0xac),
        Instructions::I64ExtendI32U => Some(0xad),
        Instructions::I64TruncF32S => Some(0xae),
        Instructions::I64TruncF32U => Some(0xaf),
        Instructions::I64TruncF64S => Some(0xb0),
        Instructions::I64TruncF64U => Some(0xb1),
        Instructions::F32ConvertI32S => Some(0xb2),
        Instructions::F32ConvertI32U => Some(0xb3),
        Instructions::F32ConvertI64S => Some(0xb4),
        Instructions::F32ConvertI64U => Some(0xb5),
        Instructions::F32DemoteF64 => Some(0xb6),
        Instructions::F64ConvertI32S => Some(0xb7),
        Instructions::F64ConvertI32U => Some(0xb8),
        Instructions::F64ConvertI64S => Some(0xb9),
        Instructions::F64ConvertI64U => Some(0xba),
        Instructions::F64PromoteF32 => Some(0xbb),
        Instructions::I32ReinterpretF32 => Some(0xbc),
        Instructions::I64ReinterpretF64 => Some(0xbd),
        Instructions::F32ReinterpretI32 => Some(0xbe),
        Instructions::F64ReinterpretI64 => Some(0xbf),
        Instructions::I32Extend8S => Some(0xc0),
        Instructions::I32Extend16S => Some(0xc1),
        Instructions::I64Extend8S => Some(0xc2),
        Instructions::I64Extend16S => Some(0xc3),
        Instructions::I64Extend32S => Some(0xc4),
        _ => None,
    }
}

/// Executable twin of [`fc_variant`].
fn fc_instr(sub: u32) -> (r: Option<Instructions>)
    ensures
        r == fc_variant(sub as int),
{
    match sub {
        0 => Some(Instructions::I32TruncSatF32S),
        1 => Some(Instructions::I32TruncSatF32U),
        2 => Some(Instructions::I32TruncSatF64S),
        3 => Some(Instructions::I32TruncSatF64U),
        4 => Some(Instructions::I64TruncSatF32S),
        5 => Some(Instructions::I64TruncSatF32U),
        6 => Some(Instructions::I64TruncSatF64S),
        7 => Some(Instructions::I64TruncSatF64U),
        _ => None,
    }
}

/// Executable twin of [`fc_sub`].
fn fc_sub_of(ins: &Instructions) -> (r: Option<u32>)
    ensures
        (r matches Some(s) && fc_sub(*ins) == Some(s as int)) || (r is None && fc_sub(*ins)
            is None),
{
    match ins {
        Instructions::I32TruncSatF32S => Some(0),
        Instructions::I32TruncSatF32U => Some(1),
        Instructions::I32TruncSatF64S => Some(2),
        Instructions::I32TruncSatF64U => Some(3),
        Instructions::I64TruncSatF32S => Some(4),
        Instructions::I64TruncSatF32U => Some(5),
        Instructions::I64TruncSatF64S => Some(6),
        Instructions::I64TruncSatF64U => Some(7),
        _ => None,
    }
}

/// The value of four little-endian bytes, each given by its weight in `b`.
pub open spec fn le_bytes32(b: int) -> Seq<u8> {
    seq![
        (b % 0x100) as u8,
        ((b / 0x100) % 0x100) as u8,
        ((b / 0x1_0000) % 0x100) as u8,
        ((b / 0x100_0000) % 0x100) as u8,
    ]
}

/// The value of eight little-endian bytes, each given by its weight in `b`.
pub open spec fn le_bytes64(b: int) -> Seq<u8> {
    seq![
        (b % 0x100) as u8,
        ((b / 0x100) % 0x100) as u8,
        ((b / 0x1_0000) % 0x100) as u8,
        ((b / 0x100_0000) % 0x100) as u8,
        ((b / 0x1_0000_0000) % 0x100) as u8,
        ((b / 0x100_0000_0000) % 0x100) as u8,
        ((b / 0x1_0000_0000_0000) % 0x100) as u8,
        ((b / 0x100_0000_0000_0000) % 0x100) as u8,
    ]
}

/// The instruction at the front of `s` and the bytes it occupies, or none
/// when the opcode is unknown, reserved, or its operands are malformed.
/// Fixed-width constants are always little-endian, whatever byte order the
/// reader is configured with.
pub open spec fn instr_parsed(s: Seq<u8>) -> Option<(Instructions, int)> {
    if s.len() == 0 {
        None
    } else {
        let op = s[0];
        if op == 0x10 {
            match uleb_ok_len(s.skip(1), 5) {
                None => None,
                Some(k) => Some(
                    (
                        Instructions::Call(
                            Indecies::FuncIdx((uleb_value(s.skip(1), k) % 0x1_0000_0000) as u32),
                        ),
                        1 + k,
                    ),
                ),
            }
        } else if op == 0x20 {
            match uleb_ok_len(s.skip(1), 5) {
                None => None,
                Some(k) => Some(
                    (
                        Instructions::LocalGet(
                            Indecies::LocalIdx(
                                (uleb_value(s.skip(1), k) % 0x1_0000_0000) as u32,
                            ),
                        ),
                        1 + k,
                    ),
                ),
            }
        } else if op == 0x41 {
            match uleb_ok_len(s.skip(1), 5) {
                None => None,
                Some(k) => Some(
                    (Instructions::I32Const(sleb_value32(s.skip(1), k) as i32), 1 + k),
                ),
            }
        } else if op == 0x42 {
            match uleb_ok_len(s.skip(1), 10) {
                None => None,
                Some(k) => Some(
                    (Instructions::I64Const(sleb_value64(s.skip(1), k) as i64), 1 + k),
                ),
            }
        } else if op == 0x43 {
            if s.len() >= 5 {
                Some(
                    (
                        Instructions::F32Const(
                            crate::reader::value32(s[1], s[2], s[3], s[4], Endian::Little)
                                as u32,
                        ),
                        5,
                    ),
                )
            } else {
                None
            }
        } else if op == 0x44 {
            if s.len() >= 9 {
                Some(
                    (
                        Instructions::F64Const(
                            crate::reader::value64(s.subrange(1, 9), Endian::Little) as u64,
                        ),
                        9,
                    ),
                )
            } else {
                None
            }
        } else if op == 0xFC {
            match uleb_ok_len(s.skip(1), 5) {
                None => None,
                Some(k) => {
                    let sub = uleb_value(s.skip(1), k) % 0x1_0000_0000;
                    if sub == 8 {
                        match uleb_ok_len(s.skip(1 + k), 5) {
                            None => None,
                            Some(k2) => {
                                let idx = uleb_value(s.skip(1 + k), k2) % 0x1_0000_0000;
                                if s.len() >= 1 + k + k2 + 1 {
                                    Some(
                                        (
                                            Instructions::MemoryInit(
                                                Indecies::DataIdx(idx as u32),
                                            ),
                                            1 + k + k2 + 1,
                                        ),
                                    )
                                } else {
                                    None
                                }
                            },
                        }
                    } else {
                        match fc_variant(sub) {
                            Some(i) => Some((i, 1 + k)),
                            None => None,
                        }
                    }
                },
            }
        } else {
            match simple_variant(op) {
                Some(i) => Some((i, 1)),
                None => None,
            }
        }
    }
}

/// A parsed instruction occupies at least one byte and never more than the
/// input.
pub proof fn lemma_instr_parsed_shape(s: Seq<u8>)
    ensures
        instr_parsed(s) matches Some(p) ==> 1 <= p.1 <= s.len(),
{
    if s.len() > 0 {
        crate::leb128::lemma_uleb_ok_len_shape(s.skip(1), 5);
        crate::leb128::lemma_uleb_ok_len_shape(s.skip(1), 10);
        if s[0] == 0xFC {
            match uleb_ok_len(s.skip(1), 5) {
                None => {},
                Some(k) => {
                    crate::leb128::lemma_uleb_ok_len_shape(s.skip(1 + k), 5);
                },
            }
        }
    }
}

/// The kind of error a failed instruction decode reports: the operand
/// decoder's own for a recognized opcode, `UnknownOpcode` otherwise.
#[verifier::opaque]
pub open spec fn instr_failure(s: Seq<u8>) -> DecodeFailure {
    if s.len() == 0 {
        DecodeFailure::OutOfBounds
    } else {
        let op = s[0];
        if op == 0x10 || op == 0x20 || op == 0x41 {
            failure_of(uleb_fail(s.skip(1), 5))
        } else if op == 0x42 {
            failure_of(uleb_fail(s.skip(1), 10))
        } else if op == 0x43 || op == 0x44 {
            DecodeFailure::OutOfBounds
        } else if op == 0xFC {
            match uleb_ok_len(s.skip(1), 5) {
                None => failure_of(uleb_fail(s.skip(1), 5)),
                Some(k) => {
                    let sub = uleb_value(s.skip(1), k) % 0x1_0000_0000;
                    if sub == 8 {
                        match uleb_ok_len(s.skip(1 + k), 5) {
                            None => failure_of(uleb_fail(s.skip(1 + k), 5)),
                            Some(k2) => DecodeFailure::OutOfBounds,
                        }
                    } else {
                        DecodeFailure::UnknownOpcode
                    }
                },
            }
        } else {
            DecodeFailure::UnknownOpcode
        }
    }
}

/// The kind of error a failed expression decode reports: `Truncated` at end
/// of input, else the first failing instruction's own kind.
#[verifier::opaque]
pub open spec fn expr_failure(s: Seq<u8>) -> DecodeFailure
    decreases s.len(),
{
    if s.len() == 0 {
        DecodeFailure::Truncated
    } else if s[0] == 0x0B {
        DecodeFailure::Truncated
    } else {
        match instr_parsed(s) {
            None => instr_failure(s),
            Some((i, n)) => {
                if 1 <= n <= s.len() {
                    expr_failure(s.skip(n))
                } else {
                    DecodeFailure::Truncated
                }
            },
        }
    }
}

/// The head of `s` is an opcode the decoder does not accept: a byte outside
/// the table, or a well-formed `0xFC` prefix whose sub-opcode is outside it.
pub open spec fn instr_unknown_opcode(s: Seq<u8>) -> bool {
    s.len() >= 1 && {
        let op = s[0];
        if op == 0x10 || op == 0x20 || op == 0x41 || op == 0x42 || op == 0x43 || op == 0x44 {
            false
        } else if op == 0xFC {
            match uleb_ok_len(s.skip(1), 5) {
                Some(k) => {
                    let sub = uleb_value(s.skip(1), k) % 0x1_0000_0000;
                    sub != 8 && fc_variant(sub) is None
                },
                None => false,
            }
        } else {
            simple_variant(op) is None
        }
    }
}

impl FromByteReader for Instructions {
    open spec fn parsed(bytes: Seq<u8>, e: Endian) -> Option<(Instructions, int)> {
        instr_parsed(bytes)
    }

    open spec fn parse_failure(bytes: Seq<u8>, e: Endian) -> DecodeFailure {
        instr_failure(bytes)
    }

    /// On failure the error is `UnknownOpcode` exactly when the head of the
    /// input is an opcode outside the recognized set.
    #[verifier::rlimit(100)]
    #[verifier::spinoff_prover]
    fn read_from_byte_reader(reader: &mut ByteReader) -> (r: Result<Self, ByteReaderError>)
        ensures
            r matches Err(e) ==> (e == ByteReaderError::UnknownOpcode <==> instr_unknown_opcode(
                old(reader)@.rest(),
            )),
    {
        let ghost rest0 = old(reader)@.rest();
        let op = match u8::read_from_byte_reader(reader) {
            Ok(b) => b,
            Err(e) => {
                proof {
                    reveal(instr_failure);
                    assert(Instructions::parse_failure(rest0, old(reader)@.endian)
                        == instr_failure(rest0));
                }
                return Err(e);
            },
        };
        proof {
            crate::reader::lemma_skip_skip(old(reader)@.bytes, old(reader)@.pos as int, 1);
            assert(reader@.rest() =~= rest0.skip(1));
        }
        match op {
            0x10 => {
                let v = match reader.read_uleb128_u32() {
                    Ok(v) => v,
                    Err(e) => {
                        proof {
                            reveal(instr_failure);
                            assert(Instructions::parse_failure(rest0, old(reader)@.endian)
                                == instr_failure(rest0));
                        }
                        return Err(e);
                    },
                };
                Ok(Instructions::Call(Indecies::FuncIdx(v)))
            },
            0x20 => {
                let v = match reader.read_uleb128_u32() {
                    Ok(v) => v,
                    Err(e) => {
                        proof {
                            reveal(instr_failure);
                            assert(Instructions::parse_failure(rest0, old(reader)@.endian)
                                == instr_failure(rest0));
                        }
                        return Err(e);
                    },
                };
                Ok(Instructions::LocalGet(Indecies::LocalIdx(v)))
            },
            0x41 => {
                let v = match reader.read_leb128_i32() {
                    Ok(v) => v,
                    Err(e) => {
                        proof {
                            reveal(instr_failure);
                            assert(Instructions::parse_failure(rest0, old(reader)@.endian)
                                == instr_failure(rest0));
                        }
                        return Err(e);
                    },
                };
                Ok(Instructions::I32Const(v))
            },
            0x42 => {
                let v = match reader.read_leb128_i64() {
                    Ok(v) => v,
                    Err(e) => {
                        proof {
                            reveal(instr_failure);
                            assert(Instructions::parse_failure(rest0, old(reader)@.endian)
                                == instr_failure(rest0));
                        }
                        return Err(e);
                    },
                };
                Ok(Instructions::I64Const(v))
            },
            0x43 => {
                let b = match reader.read_bytes(4) {
                    Ok(b) => b,
                    Err(e) => {
                        proof {
                            reveal(instr_failure);
                            assert(Instructions::parse_failure(rest0, old(reader)@.endian)
                                == instr_failure(rest0));
                        }
                        return Err(e);
                    },
                };
                let bits = (b[0] as u32) + 0x100 * (b[1] as u32) + 0x1_0000 * (b[2] as u32)
                    + 0x100_0000 * (b[3] as u32);
                proof {
                    assert(rest0.skip(1)[0] == rest0[1]);
                    assert(rest0.skip(1)[1] == rest0[2]);
                    assert(rest0.skip(1)[2] == rest0[3]);
                    assert(rest0.skip(1)[3] == rest0[4]);
                }
                Ok(Instructions::F32Const(bits))
            },
            0x44 => {
                let b = match reader.read_bytes(8) {
                    Ok(b) => b,
                    Err(e) => {
                        proof {
                            reveal(instr_failure);
                            assert(Instructions::parse_failure(rest0, old(reader)@.endian)
                                == instr_failure(rest0));
                        }
                        return Err(e);
                    },
                };
                let lo = (b[0] as u64) + 0x100 * (b[1] as u64) + 0x1_0000 * (b[2] as u64)
                    + 0x100_0000 * (b[3] as u64);
                let hi = (b[4] as u64) + 0x100 * (b[5] as u64) + 0x1_0000 * (b[6] as u64)
                    + 0x100_0000 * (b[7] as u64);
                let bits = lo + 0x1_0000_0000 * hi;
                proof {
                    assert(b@ =~= rest0.subrange(1, 9));
                }
                Ok(Instructions::F64Const(bits))
            },
            0xFC => {
                let ghost cur1 = reader@;
                let sub = match reader.read_uleb128_u32() {
                    Ok(v) => v,
                    Err(e) => {
                        proof {
                            reveal(instr_failure);
                            assert(Instructions::parse_failure(rest0, old(reader)@.endian)
                                == instr_failure(rest0));
                        }
                        return Err(e);
                    },
                };
                let ghost k = reader@.pos - cur1.pos;
                proof {
                    crate::leb128::lemma_uleb_ok_len_shape(rest0.skip(1), 5);
                    crate::reader::lemma_skip_skip(cur1.bytes, cur1.pos as int, k);
                    assert(reader@.rest() =~= rest0.skip(1 + k));
                }
                if sub == 8 {
                    let v = match reader.read_uleb128_u32() {
                        Ok(v) => v,
                        Err(e) => {
                            proof {
                                reveal(instr_failure);
                                assert(Instructions::parse_failure(rest0, old(reader)@.endian)
                                    == instr_failure(rest0));
                            }
                            return Err(e);
                        },
                    };
                    match u8::read_from_byte_reader(reader) {
                        Ok(_) => {},
                        Err(e) => {
                            proof {
                                reveal(instr_failure);
                                crate::leb128::lemma_uleb_ok_len_shape(rest0.skip(1 + k), 5);
                                assert(Instructions::parse_failure(rest0, old(reader)@.endian)
                                    == instr_failure(rest0));
                            }
                            return Err(e);
                        },
                    }
                    proof {
                        crate::leb128::lemma_uleb_ok_len_shape(rest0.skip(1 + k), 5);
                    }
                    Ok(Instructions::MemoryInit(Indecies::DataIdx(v)))
                } else {
                    match fc_instr(sub) {
                        Some(i) => Ok(i),
                        None => {
                            proof {
                                reveal(instr_failure);
                                assert(Instructions::parse_failure(rest0, old(reader)@.endian)
                                    == instr_failure(rest0));
                            }
                            Err(ByteReaderError::UnknownOpcode)
                        },
                    }
                }
            },
            _ => {
                match simple_instr(op) {
                    Some(i) => Ok(i),
                    None => {
                        proof {
                            reveal(instr_failure);
                            assert(Instructions::parse_failure(rest0, old(reader)@.endian)
                                == instr_failure(rest0));
                        }
                        Err(ByteReaderError::UnknownOpcode)
                    },
                }
            },
        }
    }
}

/// An expression's instructions and the bytes they occupy, terminator
/// included; none when the input ends before the `0x0B` sentinel or an
/// instruction fails to decode.
pub open spec fn expr_parsed(s: Seq<u8>) -> Option<(Seq<Instructions>, int)>
    decreases s.len(),
{
    if s.len() == 0 {
        None
    } else if s[0] == 0x0B {
        Some((Seq::empty(), 1))
    } else {
        match instr_parsed(s) {
            None => None,
            Some((i, n)) => {
                if 1 <= n <= s.len() {
                    match expr_parsed(s.skip(n)) {
                        None => None,
                        Some((tail, m)) => Some((seq![i] + tail, n + m)),
                    }
                } else {
                    None
                }
            },
        }
    }
}

/// Every instruction before the end of `s` decodes and no terminator is
/// reached: the input ends at an instruction boundary.
pub open spec fn expr_hits_end(s: Seq<u8>) -> bool
    decreases s.len(),
{
    if s.len() == 0 {
        true
    } else if s[0] == 0x0B {
        false
    } else {
        match instr_parsed(s) {
            None => false,
            Some((i, n)) => 1 <= n <= s.len() && expr_hits_end(s.skip(n)),
        }
    }
}

/// Read instructions until the `0x0B` end-of-expression sentinel, which is
/// consumed but not stored. Peeking first keeps the sentinel from being
/// taken for an opcode; input that ends at an instruction boundary before
/// the sentinel fails with `DecodeTruncated`.
#[verifier::rlimit(100)]
#[verifier::spinoff_prover]
pub fn read_expr(reader: &mut ByteReader) -> (r: Result<Vec<Instructions>, ByteReaderError>)
    ensures
        final(reader)@.same_except_pos(old(reader)@),
        final(reader)@.pos >= old(reader)@.pos,
        final(reader)@.pos <= old(reader)@.pos + old(reader)@.rest().len(),
        old(reader)@.in_bounds() ==> final(reader)@.in_bounds(),
        match r {
            Ok(v) => expr_parsed(old(reader)@.rest()) == Some(
                (v.deep_view(), final(reader)@.pos - old(reader)@.pos),
            ),
            Err(e) => {
                &&& expr_parsed(old(reader)@.rest()) is None
                &&& failure_of(e) == expr_failure(old(reader)@.rest())
                &&& (expr_hits_end(old(reader)@.rest()) ==> e
                    == ByteReaderError::DecodeTruncated)
            },
        },
{
    let ghost rest0 = old(reader)@.rest();
    let mut opcodes: Vec<Instructions> = Vec::new();
    proof {
        assert(opcodes.deep_view() =~= Seq::<Instructions>::empty());
        match expr_parsed(rest0) {
            None => {},
            Some((tail, m)) => {
                assert(opcodes.deep_view() + tail =~= tail);
            },
        }
    }
    loop
        invariant
            reader@.same_except_pos(old(reader)@),
            reader@.pos >= old(reader)@.pos,
            reader@.pos <= old(reader)@.pos + rest0.len(),
            old(reader)@.in_bounds() ==> reader@.in_bounds(),
            !old(reader)@.in_bounds() ==> reader@.pos == old(reader)@.pos,
            rest0 == old(reader)@.rest(),
            reader@.rest() == rest0.skip(reader@.pos - old(reader)@.pos),
            expr_hits_end(rest0) ==> expr_hits_end(reader@.rest()),
            expr_failure(rest0) == expr_failure(reader@.rest()),
            match expr_parsed(reader@.rest()) {
                None => expr_parsed(rest0) is None,
                Some((tail, m)) => expr_parsed(rest0) == Some(
                    (opcodes.deep_view() + tail, (reader@.pos - old(reader)@.pos) + m),
                ),
            },
        decreases rest0.len() - (reader@.pos - old(reader)@.pos),
    {
        let ghost cur = reader@;
        let byte = match reader.peak::<u8>() {
            Ok(b) => b,
            Err(_) => {
                proof {
                    reveal(expr_failure);
                }
                return Err(ByteReaderError::DecodeTruncated);
            },
        };
        if byte == 0x0B {
            let len = reader.get_file_length();
            reader.jump(1);
            proof {
                assert(expr_parsed(cur.rest()) == Some((Seq::<Instructions>::empty(), 1int)));
                assert(opcodes.deep_view() + Seq::<Instructions>::empty() =~= opcodes.deep_view());
            }
            return Ok(opcodes);
        }
        let ins = match Instructions::read_from_byte_reader(reader) {
            Ok(i) => i,
            Err(e) => {
                proof {
                    reveal(expr_failure);
                    assert(Instructions::parse_failure(cur.rest(), cur.endian)
                        == instr_failure(cur.rest()));
                }
                return Err(e);
            },
        };
        let ghost n = reader@.pos - cur.pos;
        proof {
            lemma_instr_parsed_shape(cur.rest());
            crate::reader::lemma_skip_skip(cur.bytes, cur.pos as int, n);
            assert(reader@.rest() =~= cur.rest().skip(n));
            assert(reader@.rest() =~= rest0.skip(reader@.pos - old(reader)@.pos));
        }
        let ghost prev = opcodes.deep_view();
        opcodes.push(ins);
        proof {
            reveal(expr_failure);
            assert(opcodes.deep_view() =~= prev.push(ins));
            match expr_parsed(reader@.rest()) {
                None => {},
                Some((tail, m)) => {
                    assert(prev + (seq![ins] + tail) =~= opcodes.deep_view() + tail);
                },
            }
        }
    }
}

/// The canonical encoding of a supported instruction; the empty sequence
/// for the reserved opcodes whose operands this decoder does not define.
pub open spec fn instr_encode(ins: Instructions) -> Seq<u8> {
    match simple_byte(ins) {
        Some(op) => seq![op],
        None => match fc_sub(ins) {
            Some(sub) => seq![0xFCu8] + uleb_encode(sub),
            None => match ins {
                Instructions::Call(Indecies::FuncIdx(v)) => seq![0x10u8] + uleb_encode(v as int),
                Instructions::LocalGet(Indecies::LocalIdx(v)) => seq![0x20u8] + uleb_encode(
                    v as int,
                ),
                Instructions::I32Const(v) => seq![0x41u8] + sleb_encode(v as int),
                Instructions::I64Const(v) => seq![0x42u8] + sleb_encode(v as int),
                Instructions::F32Const(b) => seq![0x43u8] + le_bytes32(b as int),
                Instructions::F64Const(b) => seq![0x44u8] + le_bytes64(b as int),
                Instructions::MemoryInit(Indecies::DataIdx(v)) => seq![0xFCu8] + uleb_encode(8)
                    + uleb_encode(v as int) + seq![0x00u8],
                _ => Seq::empty(),
            },
        },
    }
}

/// The decoder accepts exactly the instructions with a nonempty encoding.
pub open spec fn instr_supported(ins: Instructions) -> bool {
    instr_encode(ins).len() > 0
}

/// Every sequence of supported instructions.
pub open spec fn expr_supported(es: Seq<Instructions>) -> bool {
    forall|i: int| 0 <= i < es.len() ==> instr_supported(es[i])
}

/// The concatenated encodings of an instruction sequence, without the
/// terminator.
pub open spec fn expr_encode(es: Seq<Instructions>) -> Seq<u8>
    decreases es.len(),
{
    if es.len() == 0 {
        Seq::empty()
    } else {
        instr_encode(es[0]) + expr_encode(es.skip(1))
    }
}

/// The two opcode tables invert each other, and no table opcode collides
/// with a payload-bearing opcode or the expression terminator.
#[verifier::rlimit(100)]
#[verifier::spinoff_prover]
pub proof fn lemma_simple_tables(ins: Instructions)
    ensures
        simple_byte(ins) matches Some(b) ==> {
            &&& simple_variant(b) == Some(ins)
            &&& b != 0x10 && b != 0x20 && b != 0x41 && b != 0x42 && b != 0x43 && b != 0x44
            &&& b != 0xFC && b != 0x0B
        },
        fc_sub(ins) matches Some(sub) ==> {
            &&& fc_variant(sub) == Some(ins)
            &&& 0 <= sub < 8
        },
{
}

/// The four little-endian digit bytes of a 32-bit value recombine to it.
pub proof fn lemma_le_bytes32_value(b: u32)
    ensures
        crate::reader::value32(
            le_bytes32(b as int)[0],
            le_bytes32(b as int)[1],
            le_bytes32(b as int)[2],
            le_bytes32(b as int)[3],
            Endian::Little,
        ) == b as int,
{
    assert(b % 0x100 + 0x100 * ((b / 0x100) % 0x100) + 0x1_0000 * ((b / 0x1_0000) % 0x100)
        + 0x100_0000 * ((b / 0x100_0000) % 0x100) == b) by (bit_vector);
}

/// The eight little-endian digit bytes of a 64-bit value recombine to it.
pub proof fn lemma_le_bytes64_value(b: u64)
    ensures
        crate::reader::value64(le_bytes64(b as int), Endian::Little) == b as int,
{
    assert(b % 0x100 + 0x100 * ((b / 0x100) % 0x100) + 0x1_0000 * ((b / 0x1_0000) % 0x100)
        + 0x100_0000 * ((b / 0x100_0000) % 0x100) + 0x1_0000_0000 * ((b / 0x1_0000_0000)
        % 0x100) + 0x100_0000_0000 * ((b / 0x100_0000_0000) % 0x100) + 0x1_0000_0000_0000 * ((b
        / 0x1_0000_0000_0000) % 0x100) + 0x100_0000_0000_0000 * ((b / 0x100_0000_0000_0000)
        % 0x100) == b) by (bit_vector);
}

/// Law: instruction decoding inverts encoding. A supported instruction's
/// encoding, followed by anything, parses back to the instruction and
/// consumes exactly the encoding; and no encoding starts with the
/// terminator byte.
#[verifier::rlimit(100)]
#[verifier::spinoff_prover]
pub proof fn lemma_instr_roundtrip(ins: Instructions, rest: Seq<u8>)
    requires
        instr_supported(ins),
    ensures
        instr_parsed(instr_encode(ins) + rest) == Some((ins, instr_encode(ins).len() as int)),
        instr_encode(ins)[0] != 0x0B,
{
    let enc = instr_encode(ins);
    let s = enc + rest;
    lemma_simple_tables(ins);
    match simple_byte(ins) {
        Some(op) => {
            assert(s[0] == op);
        },
        None => match fc_sub(ins) {
            Some(sub) => {
                crate::leb128::lemma_uleb_encode_props(sub);
                crate::leb128::lemma_uleb_parse_valid(uleb_encode(sub), rest, 5);
                assert(s.skip(1) =~= uleb_encode(sub) + rest);
                assert(s[0] == 0xFC);
                assert(uleb_value(s.skip(1), uleb_encode(sub).len() as int) == sub);
            },
            None => match ins {
                Instructions::Call(Indecies::FuncIdx(v)) => {
                    crate::leb128::lemma_uleb128_roundtrip(v, rest);
                    assert(s.skip(1) =~= uleb_encode(v as int) + rest);
                    assert(s[0] == 0x10);
                },
                Instructions::LocalGet(Indecies::LocalIdx(v)) => {
                    crate::leb128::lemma_uleb128_roundtrip(v, rest);
                    assert(s.skip(1) =~= uleb_encode(v as int) + rest);
                    assert(s[0] == 0x20);
                },
                Instructions::I32Const(v) => {
                    crate::leb128::lemma_sleb128_i32_roundtrip(v, rest);
                    assert(s.skip(1) =~= sleb_encode(v as int) + rest);
                    assert(s[0] == 0x41);
                },
                Instructions::I64Const(v) => {
                    crate::leb128::lemma_sleb128_i64_roundtrip(v, rest);
                    assert(s.skip(1) =~= sleb_encode(v as int) + rest);
                    assert(s[0] == 0x42);
                },
                Instructions::F32Const(b) => {
                    lemma_le_bytes32_value(b);
                    assert(s[0] == 0x43);
                    assert(s.len() >= 5);
                    assert(s[1] == le_bytes32(b as int)[0]);
                    assert(s[2] == le_bytes32(b as int)[1]);
                    assert(s[3] == le_bytes32(b as int)[2]);
                    assert(s[4] == le_bytes32(b as int)[3]);
                },
                Instructions::F64Const(b) => {
                    lemma_le_bytes64_value(b);
                    assert(s[0] == 0x44);
                    assert(s.len() >= 9);
                    assert(s.subrange(1, 9) =~= le_bytes64(b as int));
                },
                Instructions::MemoryInit(Indecies::DataIdx(v)) => {
                    let e8 = uleb_encode(8);
                    let ev = uleb_encode(v as int);
                    crate::leb128::lemma_uleb_encode_props(8);
                    crate::leb128::lemma_uleb_parse_valid(e8, ev + seq![0x00u8] + rest, 5);
                    crate::leb128::lemma_uleb128_roundtrip(v, seq![0x00u8] + rest);
                    assert(s[0] == 0xFC);
                    assert(s.skip(1) =~= e8 + (ev + seq![0x00u8] + rest));
                    assert(e8.len() == 1);
                    assert(s.skip(2int) =~= ev + (seq![0x00u8] + rest));
                    assert(uleb_value(s.skip(1), 1) == 8);
                    assert(uleb_ok_len(ev + (seq![0x00u8] + rest), 5) == Some(ev.len() as int));
                    assert(uleb_value(ev + (seq![0x00u8] + rest), ev.len() as int)
                        % 0x1_0000_0000 == v as int) by {
                        assert(ev + (seq![0x00u8] + rest) =~= ev + seq![0x00u8] + rest);
                    }
                    assert(s.len() >= 1 + 1 + ev.len() + 1);
                },
                _ => {
                    assert(false);
                },
            },
        },
    }
}

/// Law: expression decoding inverts encoding. For any sequence of supported
/// instructions, its encoding followed by the terminator and anything else
/// parses back to the sequence and consumes the encoding plus the one
/// terminator byte.
#[verifier::rlimit(100)]
#[verifier::spinoff_prover]
pub proof fn lemma_expr_roundtrip(es: Seq<Instructions>, rest: Seq<u8>)
    requires
        expr_supported(es),
    ensures
        expr_parsed(expr_encode(es) + seq![0x0Bu8] + rest) == Some(
            (es, expr_encode(es).len() + 1int),
        ),
    decreases es.len(),
{
    let s = expr_encode(es) + seq![0x0Bu8] + rest;
    if es.len() == 0 {
        assert(expr_encode(es) =~= Seq::<u8>::empty());
        assert(s =~= seq![0x0Bu8] + rest);
        assert(s[0] == 0x0B);
        assert(expr_parsed(s) == Some((Seq::<Instructions>::empty(), 1int)));
        assert(es =~= Seq::<Instructions>::empty());
    } else {
        let head = es[0];
        let tail = es.skip(1);
        assert(instr_supported(head));
        assert(expr_supported(tail)) by {
            assert(forall|i: int|
                0 <= i < tail.len() ==> tail[i] == es[i + 1] && instr_supported(es[i + 1]));
        }
        lemma_expr_roundtrip(tail, rest);
        let tail_bytes = expr_encode(tail) + seq![0x0Bu8] + rest;
        lemma_instr_roundtrip(head, tail_bytes);
        assert(s =~= instr_encode(head) + tail_bytes);
        let n = instr_encode(head).len() as int;
        assert(s[0] == instr_encode(head)[0]);
        assert(s[0] != 0x0B);
        assert(instr_parsed(s) == Some((head, n)));
        lemma_instr_parsed_shape(s);
        assert(s.skip(n) =~= tail_bytes);
        assert(seq![head] + tail =~= es);
    }
}

/// The canonical byte encoding of one supported instruction; none for the
/// reserved opcodes.
pub fn encode_instruction(ins: &Instructions) -> (r: Option<Vec<u8>>)
    ensures
        match r {
            Some(v) => instr_supported(*ins) && v@ == instr_encode(*ins),
            None => !instr_supported(*ins),
        },
{
    match simple_byte_of(ins) {
        Some(op) => {
            let mut out: Vec<u8> = Vec::new();
            out.push(op);
            proof {
                assert(out@ =~= seq![simple_byte(*ins)->Some_0]);
            }
            return Some(out);
        },
        None => {},
    }
    match fc_sub_of(ins) {
        Some(sub) => {
            let mut out: Vec<u8> = Vec::new();
            out.push(0xFC);
            let mut tail = crate::leb128::encode_uleb128(sub);
            out.append(&mut tail);
            proof {
                assert(out@ =~= seq![0xFCu8] + uleb_encode(fc_sub(*ins)->Some_0));
            }
            return Some(out);
        },
        None => {},
    }
    match ins {
        Instructions::Call(Indecies::FuncIdx(v)) => {
            let mut out: Vec<u8> = Vec::new();
            out.push(0x10);
            let mut tail = crate::leb128::encode_uleb128(*v);
            out.append(&mut tail);
            proof {
                assert(out@ =~= seq![0x10u8] + uleb_encode(*v as int));
            }
            Some(out)
        },
        Instructions::LocalGet(Indecies::LocalIdx(v)) => {
            let mut out: Vec<u8> = Vec::new();
            out.push(0x20);
            let mut tail = crate::leb128::encode_uleb128(*v);
            out.append(&mut tail);
            proof {
                assert(out@ =~= seq![0x20u8] + uleb_encode(*v as int));
            }
            Some(out)
        },
        Instructions::I32Const(v) => {
            let mut out: Vec<u8> = Vec::new();
            out.push(0x41);
            let mut tail = crate::leb128::encode_leb128_i32(*v);
            out.append(&mut tail);
            proof {
                assert(out@ =~= seq![0x41u8] + sleb_encode(*v as int));
            }
            Some(out)
        },
        Instructions::I64Const(v) => {
            let mut out: Vec<u8> = Vec::new();
            out.push(0x42);
            let mut tail = crate::leb128::encode_leb128_i64(*v);
            out.append(&mut tail);
            proof {
                assert(out@ =~= seq![0x42u8] + sleb_encode(*v as int));
            }
            Some(out)
        },
        Instructions::F32Const(b) => {
            let b = *b;
            let mut out: Vec<u8> = Vec::new();
            out.push(0x43);
            out.push((b % 0x100) as u8);
            out.push(((b / 0x100) % 0x100) as u8);
            out.push(((b / 0x1_0000) % 0x100) as u8);
            out.push(((b / 0x100_0000) % 0x100) as u8);
            proof {
                assert(out@ =~= seq![0x43u8] + le_bytes32(b as int));
            }
            Some(out)
        },
        Instructions::F64Const(b) => {
            let b = *b;
            let mut out: Vec<u8> = Vec::new();
            out.push(0x44);
            out.push((b % 0x100) as u8);
            out.push(((b / 0x100) % 0x100) as u8);
            out.push(((b / 0x1_0000) % 0x100) as u8);
            out.push(((b / 0x100_0000) % 0x100) as u8);
            out.push(((b / 0x1_0000_0000) % 0x100) as u8);
            out.push(((b / 0x100_0000_0000) % 0x100) as u8);
            out.push(((b / 0x1_0000_0000_0000) % 0x100) as u8);
            out.push(((b / 0x100_0000_0000_0000) % 0x100) as u8);
            proof {
                assert(out@ =~= seq![0x44u8] + le_bytes64(b as int));
            }
            Some(out)
        },
        Instructions::MemoryInit(Indecies::DataIdx(v)) => {
            let mut out: Vec<u8> = Vec::new();
            out.push(0xFC);
            out.push(0x08);
            let mut tail = crate::leb128::encode_uleb128(*v);
            out.append(&mut tail);
            out.push(0x00);
            proof {
                assert(uleb_encode(8) =~= seq![0x08u8]);
                assert(out@ =~= seq![0xFCu8] + uleb_encode(8) + uleb_encode(*v as int)
                    + seq![0x00u8]);
            }
            Some(out)
        },
        _ => None,
    }
}

/// The concatenated encodings of an instruction sequence, without the
/// terminator; none when any instruction is unsupported.
pub fn encode_expr(instrs: &Vec<Instructions>) -> (r: Option<Vec<u8>>)
    ensures
        match r {
            Some(v) => expr_supported(instrs.deep_view()) && v@ == expr_encode(
                instrs.deep_view(),
            ),
            None => !expr_supported(instrs.deep_view()),
        },
{
    let ghost es = instrs.deep_view();
    let mut out: Vec<u8> = Vec::new();
    let mut i: usize = 0;
    proof {
        assert(es.skip(0) =~= es);
    }
    while i < instrs.len()
        invariant
            i <= instrs@.len(),
            es == instrs.deep_view(),
            es.len() == instrs@.len(),
            forall|j: int| 0 <= j < i ==> instr_supported(es[j]),
            expr_encode(es) == out@ + expr_encode(es.skip(i as int)),
        decreases instrs@.len() - i,
    {
        let enc = match encode_instruction(&instrs[i]) {
            Some(e) => e,
            None => {
                proof {
                    assert(es[i as int] == instrs@[i as int].deep_view());
                    assert(!instr_supported(es[i as int]));
                }
                return None;
            },
        };
        let ghost prev = out@;
        let mut enc = enc;
        out.append(&mut enc);
        i = i + 1;
        proof {
            let sk = es.skip(i - 1);
            assert(sk[0] == es[i - 1]);
            assert(sk.skip(1) =~= es.skip(i as int));
            assert(expr_encode(sk) == instr_encode(es[i - 1]) + expr_encode(es.skip(i as int)));
            assert(prev + (instr_encode(es[i - 1]) + expr_encode(es.skip(i as int))) =~= out@
                + expr_encode(es.skip(i as int)));
        }
    }
    proof {
        assert(es.skip(i as int) =~= Seq::<Instructions>::empty());
        assert(expr_encode(es.skip(i as int)) =~= Seq::<u8>::empty());
        assert(out@ + Seq::<u8>::empty() =~= out@);
    }
    Some(out)
}

} // verus!
