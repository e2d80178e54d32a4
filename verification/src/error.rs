//! Errors of the module-level parser, wrapping the byte-reader errors that
//! the inner decoders surface.

use vstd::prelude::*;

use crate::reader::ByteReaderError;

verus! {

/// Failures of the module parser.
#[derive(Debug, Clone, PartialEq, Eq)]
pub enum WasmParserError {
    /// The first four bytes were not the module magic.
    InvalidMagic,
    /// The version field was not the supported version.
    UnsupportedVersion,
    /// A section header carried an id outside the known range.
    UnknownSectionId { id: u8 },
    /// A decoder below the section dispatcher failed; the inner error is
    /// kept rather than flattened.
    ParserError(ByteReaderError),
}

} // verus!
