//! Decoder for the binary module format of a stack-based virtual-machine
//! bytecode, together with a minimal execution environment that seeds a
//! linear memory image from a decoded module.
//!
//! The crate is organised leaves-first:
//! - [`reader`]: a bounded random-access cursor over a byte buffer, with
//!   fixed-width numeric decoding and a cursor save/restore stack;
//! - [`leb128`]: variable-length integer codecs with overflow detection and
//!   sign extension;
//! - [`types`]: decoders for the primitive and composite types of the format;
//! - [`instructions`]: the opcode decoder and the expression reader;
//! - [`sections`]: the section dispatcher that assembles a module record;
//! - [`module`]: the module facade that validates the header;
//! - [`interpreter`]: the linear-memory initializer.

pub mod error;
pub mod instructions;
pub mod interpreter;
pub mod leb128;
pub mod module;
pub mod reader;
pub mod sections;
pub mod types;

