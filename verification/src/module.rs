//! The module facade: validates the magic and version header, then hands
//! the stream to the section dispatcher.

use vstd::prelude::*;

use crate::error::WasmParserError;
use crate::reader::ByteReader;
use crate::reader::Endian;
use crate::sections::SectionsView;
use crate::sections::WasmSections;
use crate::sections::empty_sections_view;
use crate::sections::sections_parsed;

verus! {

/// The four magic bytes every module starts with.
pub open spec fn module_magic() -> Seq<u8> {
    seq![0x00u8, 0x61u8, 0x73u8, 0x6Du8]
}

/// The only supported version field.
pub open spec fn module_version() -> Seq<u8> {
    seq![0x01u8, 0x00u8, 0x00u8, 0x00u8]
}

/// The input carries the magic bytes.
pub open spec fn has_magic(bytes: Seq<u8>) -> bool {
    bytes.len() >= 4 && bytes.subrange(0, 4) == module_magic()
}

/// The input carries the supported version field after the magic.
pub open spec fn has_version(bytes: Seq<u8>) -> bool {
    bytes.len() >= 8 && bytes.subrange(4, 8) == module_version()
}

/// A whole module: the header, then the sections to the end of the input.
pub open spec fn module_parsed(bytes: Seq<u8>) -> Option<SectionsView> {
    if has_magic(bytes) && has_version(bytes) {
        sections_parsed(bytes.skip(8), Endian::Little, empty_sections_view())
    } else {
        None
    }
}

/// A decoded module, constructed once from a byte stream and immutable
/// thereafter.
#[derive(Debug, Clone, PartialEq)]
pub struct WasmModule {
    pub sections: WasmSections,
}

impl DeepView for WasmModule {
    type V = SectionsView;

    open spec fn deep_view(&self) -> SectionsView {
        self.sections.deep_view()
    }
}

impl WasmModule {
    /// Decode a module from bytes: magic, version, then every section to
    /// the end of the input. A wrong header is rejected as `InvalidMagic`
    /// or `UnsupportedVersion`; sections are decoded exactly as
    /// [`sections_parsed`] describes, and a section id outside `[0, 12]`
    /// is rejected as exactly `UnknownSectionId`.
    pub fn from_bytes(bytes: &[u8]) -> (r: Result<WasmModule, WasmParserError>)
        ensures
            match r {
                Ok(m) => module_parsed(bytes@) == Some(m.deep_view()),
                Err(e) => {
                    &&& module_parsed(bytes@) is None
                    &&& (e == WasmParserError::InvalidMagic <==> !has_magic(bytes@))
                    &&& (e == WasmParserError::UnsupportedVersion <==> has_magic(bytes@)
                        && !has_version(bytes@))
                    &&& (has_magic(bytes@) && has_version(bytes@) ==> (match crate::sections::first_unknown_section_id(
                        bytes@.skip(8),
                        Endian::Little,
                        empty_sections_view(),
                    ) {
                        Some(id) => e == WasmParserError::UnknownSectionId { id },
                        None => !(e matches WasmParserError::UnknownSectionId { .. }),
                    }))
                },
            },
    {
        let mut reader = ByteReader::from_vec(bytes);
        let magic: &[u8] = &[0x00, 0x61, 0x73, 0x6D];
        proof {
            assert(magic@ =~= module_magic());
        }
        let magic_ok = match reader.read_expect(magic) {
            Ok(b) => b,
            Err(_) => {
                return Err(WasmParserError::InvalidMagic);
            },
        };
        if !magic_ok {
            proof {
                assert(bytes@.subrange(0, 4) != module_magic());
            }
            return Err(WasmParserError::InvalidMagic);
        }
        let version: &[u8] = &[0x01, 0x00, 0x00, 0x00];
        proof {
            assert(version@ =~= module_version());
        }
        let version_ok = match reader.read_expect(version) {
            Ok(b) => b,
            Err(_) => {
                return Err(WasmParserError::UnsupportedVersion);
            },
        };
        if !version_ok {
            proof {
                assert(bytes@.subrange(4, 8) != module_version());
            }
            return Err(WasmParserError::UnsupportedVersion);
        }
        proof {
            assert(reader@.rest() =~= bytes@.skip(8));
        }
        let sections = match WasmSections::from_reader(&mut reader) {
            Ok(s) => s,
            Err(e) => {
                return Err(e);
            },
        };
        Ok(WasmModule { sections })
    }
}

} // verus!
