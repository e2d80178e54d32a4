//! The section dispatcher: reads section-id/size headers and delegates to
//! the section decoders, assembling the module's section record.
//!
//! At each loop step the cursor sits at end-of-stream or at a section
//! header: one id byte in `[0, 12]`, then an unsigned LEB128 size. Custom
//! sections (id 0) and element sections (id 9, whose body format is left
//! open here) are skipped over by their declared size; every other section
//! is decoded and the size field is not otherwise enforced. Sections are
//! accepted in any order, a repeated section replacing the earlier one.

use vstd::prelude::*;

use crate::error::WasmParserError;
use crate::instructions::Instructions;
use crate::leb128::Leb128Readers;
use crate::leb128::uleb_ok_len;
use crate::leb128::uleb_value;
use crate::reader::ByteReader;
use crate::reader::ByteReaderError;
use crate::reader::Endian;
use crate::reader::FromByteReader;
use crate::types::DataSegment;
use crate::types::DataSegmentView;
use crate::types::Expr;
use crate::types::FunctionType;
use crate::types::FunctionTypeView;
use crate::types::GlobalType;
use crate::types::ImportDesc;
use crate::types::Indecies;
use crate::types::Limits;
use crate::types::MemType;
use crate::types::Name;
use crate::types::TableType;
use crate::types::ValueType;
use crate::types::read_vec;
use crate::types::vec_parsed;

verus! {

/// The deep view of a [`WasmSections`] record.
#[verifier::ext_equal]
pub ghost struct SectionsView {
    pub custom: Seq<()>,
    pub types: Seq<FunctionTypeView>,
    pub imports: Seq<(Seq<char>, Seq<char>, ImportDesc)>,
    pub functions: Seq<Indecies>,
    pub tables: Seq<TableType>,
    pub memory: Seq<Limits>,
    pub global: Seq<(GlobalType, Seq<Instructions>)>,
    pub export: Seq<(Seq<char>, Indecies)>,
    pub start: Option<Indecies>,
    pub element: Seq<()>,
    pub code: Seq<(Seq<(u32, ValueType)>, Seq<Instructions>)>,
    pub data: Seq<DataSegmentView>,
    pub data_count: Option<u32>,
}

/// The record a parse starts from: every section empty, no start function,
/// no data count.
pub open spec fn empty_sections_view() -> SectionsView {
    SectionsView {
        custom: Seq::empty(),
        types: Seq::empty(),
        imports: Seq::empty(),
        functions: Seq::empty(),
        tables: Seq::empty(),
        memory: Seq::empty(),
        global: Seq::empty(),
        export: Seq::empty(),
        start: None,
        element: Seq::empty(),
        code: Seq::empty(),
        data: Seq::empty(),
        data_count: None,
    }
}

/// The decoded sections of a module.
#[derive(Debug, Clone, PartialEq)]
pub struct WasmSections {
    pub custom: Vec<()>,
    pub types: Vec<FunctionType>,
    pub imports: Vec<(Name, Name, ImportDesc)>,
    pub functions: Vec<Indecies>,
    pub tables: Vec<TableType>,
    pub memory: Vec<MemType>,
    pub global: Vec<(GlobalType, Expr)>,
    pub export: Vec<(Name, Indecies)>,
    pub start: Option<Indecies>,
    pub element: Vec<()>,
    pub code: Vec<(Vec<(u32, ValueType)>, Expr)>,
    pub data: Vec<DataSegment>,
    pub data_count: Option<u32>,
}

impl DeepView for WasmSections {
    type V = SectionsView;

    open spec fn deep_view(&self) -> SectionsView {
        SectionsView {
            custom: self.custom.deep_view(),
            types: self.types.deep_view(),
            imports: self.imports.deep_view(),
            functions: self.functions.deep_view(),
            tables: self.tables.deep_view(),
            memory: self.memory.deep_view(),
            global: self.global.deep_view(),
            export: self.export.deep_view(),
            start: self.start,
            element: self.element.deep_view(),
            code: self.code.deep_view(),
            data: self.data.deep_view(),
            data_count: self.data_count,
        }
    }
}

/// `count` type indices, each an unsigned LEB128 value tagged `TypeIdx`.
pub open spec fn typeidx_items_parsed(s: Seq<u8>, count: int) -> Option<(Seq<Indecies>, int)>
    decreases count,
{
    if count <= 0 {
        Some((Seq::empty(), 0))
    } else {
        match uleb_ok_len(s, 5) {
            None => None,
            Some(k) => match typeidx_items_parsed(s.skip(k), count - 1) {
                None => None,
                Some((vs, m)) => Some(
                    (
                        seq![
                            Indecies::TypeIdx((uleb_value(s, k) % 0x1_0000_0000) as u32),
                        ] + vs,
                        k + m,
                    ),
                ),
            },
        }
    }
}

/// A length-prefixed vector of type indices, as the function section holds.
pub open spec fn typeidx_vec_parsed(s: Seq<u8>) -> Option<(Seq<Indecies>, int)> {
    match uleb_ok_len(s, 5) {
        None => None,
        Some(k) => {
            let count = uleb_value(s, k) % 0x1_0000_0000;
            match typeidx_items_parsed(s.skip(k), count) {
                None => None,
                Some((vs, m)) => Some((vs, k + m)),
            }
        },
    }
}

/// Decode a length-prefixed vector of type indices.
fn read_typeidx_vec(reader: &mut ByteReader) -> (r: Result<Vec<Indecies>, ByteReaderError>)
    ensures
        final(reader)@.same_except_pos(old(reader)@),
        final(reader)@.pos >= old(reader)@.pos,
        final(reader)@.pos <= old(reader)@.pos + old(reader)@.rest().len(),
        old(reader)@.in_bounds() ==> final(reader)@.in_bounds(),
        match r {
            Ok(v) => typeidx_vec_parsed(old(reader)@.rest()) == Some(
                (v.deep_view(), final(reader)@.pos - old(reader)@.pos),
            ),
            Err(_) => typeidx_vec_parsed(old(reader)@.rest()) is None,
        },
{
    let ghost rest0 = old(reader)@.rest();
    let count = match reader.read_uleb128_u32() {
        Ok(c) => c,
        Err(err) => {
            return Err(err);
        },
    };
    let ghost k = reader@.pos - old(reader)@.pos;
    proof {
        crate::leb128::lemma_uleb_ok_len_shape(rest0, 5);
    }
    let count_us = count as usize;
    let mut out: Vec<Indecies> = Vec::new();
    let mut i: usize = 0;
    proof {
        crate::reader::lemma_skip_skip(old(reader)@.bytes, old(reader)@.pos as int, k);
        assert(reader@.rest() =~= rest0.skip(k));
        assert(out.deep_view() =~= Seq::<Indecies>::empty());
        match typeidx_items_parsed(rest0.skip(k), count as int) {
            None => {},
            Some((vs, m)) => {
                assert(out.deep_view() + vs =~= vs);
            },
        }
    }
    while i < count_us
        invariant
            i <= count_us,
            count_us == count,
            old(reader)@.in_bounds(),
            reader@.same_except_pos(old(reader)@),
            reader@.in_bounds(),
            old(reader)@.pos + k <= reader@.pos,
            reader@.pos <= old(reader)@.pos + rest0.len(),
            rest0 == old(reader)@.rest(),
            uleb_ok_len(rest0, 5) == Some(k),
            count == uleb_value(rest0, k) % 0x1_0000_0000,
            reader@.rest() == rest0.skip(reader@.pos - old(reader)@.pos),
            out@.len() == i,
            match typeidx_items_parsed(reader@.rest(), count - i) {
                None => typeidx_items_parsed(rest0.skip(k), count as int) is None,
                Some((vs, m)) => typeidx_items_parsed(rest0.skip(k), count as int) == Some(
                    (out.deep_view() + vs, (reader@.pos - old(reader)@.pos - k) + m),
                ),
            },
        decreases count_us - i,
    {
        let ghost cur = reader@;
        let v = match reader.read_uleb128_u32() {
            Ok(v) => v,
            Err(err) => {
                return Err(err);
            },
        };
        let ghost n = reader@.pos - cur.pos;
        proof {
            crate::leb128::lemma_uleb_ok_len_shape(cur.rest(), 5);
            crate::reader::lemma_skip_skip(cur.bytes, cur.pos as int, n);
            assert(reader@.rest() =~= cur.rest().skip(n));
            assert(reader@.rest() =~= rest0.skip(reader@.pos - old(reader)@.pos));
        }
        let ghost prev = out.deep_view();
        out.push(Indecies::TypeIdx(v));
        i = i + 1;
        proof {
            assert(out.deep_view() =~= prev.push(Indecies::TypeIdx(v)));
            match typeidx_items_parsed(reader@.rest(), count - i) {
                None => {},
                Some((vs, m)) => {
                    assert(prev + (seq![Indecies::TypeIdx(v)] + vs) =~= out.deep_view() + vs);
                },
            }
        }
    }
    proof {
        assert(typeidx_items_parsed(reader@.rest(), 0) == Some((Seq::<Indecies>::empty(), 0int)));
        assert(out.deep_view() + Seq::<Indecies>::empty() =~= out.deep_view());
    }
    Ok(out)
}

/// One section body: what it contributes to the record and the bytes it
/// consumes. Custom and element bodies are skipped by their declared size;
/// for the decoded kinds the declared size has no further effect.
#[verifier::opaque]
pub open spec fn section_body_parsed(
    id: u8,
    size: int,
    s: Seq<u8>,
    e: Endian,
    acc: SectionsView,
) -> Option<(SectionsView, int)> {
    if id == 0 {
        if size <= s.len() {
            Some((acc, size))
        } else {
            None
        }
    } else if id == 1 {
        match vec_parsed::<FunctionType>(s, e) {
            None => None,
            Some((v, n)) => Some((SectionsView { types: v, ..acc }, n)),
        }
    } else if id == 2 {
        match vec_parsed::<(Name, Name, ImportDesc)>(s, e) {
            None => None,
            Some((v, n)) => Some((SectionsView { imports: v, ..acc }, n)),
        }
    } else if id == 3 {
        match typeidx_vec_parsed(s) {
            None => None,
            Some((v, n)) => Some((SectionsView { functions: v, ..acc }, n)),
        }
    } else if id == 4 {
        match vec_parsed::<TableType>(s, e) {
            None => None,
            Some((v, n)) => Some((SectionsView { tables: v, ..acc }, n)),
        }
    } else if id == 5 {
        match vec_parsed::<Limits>(s, e) {
            None => None,
            Some((v, n)) => Some((SectionsView { memory: v, ..acc }, n)),
        }
    } else if id == 6 {
        match vec_parsed::<(GlobalType, Expr)>(s, e) {
            None => None,
            Some((v, n)) => Some((SectionsView { global: v, ..acc }, n)),
        }
    } else if id == 7 {
        match vec_parsed::<(Name, Indecies)>(s, e) {
            None => None,
            Some((v, n)) => Some((SectionsView { export: v, ..acc }, n)),
        }
    } else if id == 8 {
        match uleb_ok_len(s, 5) {
            None => None,
            Some(k) => Some(
                (
                    SectionsView {
                        start: Some(
                            Indecies::FuncIdx((uleb_value(s, k) % 0x1_0000_0000) as u32),
                        ),
                        ..acc
                    },
                    k,
                ),
            ),
        }
    } else if id == 9 {
        if size <= s.len() {
            Some((acc, size))
        } else {
            None
        }
    } else if id == 10 {
        match vec_parsed::<(Vec<(u32, ValueType)>, Expr)>(s, e) {
            None => None,
            Some((v, n)) => Some((SectionsView { code: v, ..acc }, n)),
        }
    } else if id == 11 {
        match vec_parsed::<DataSegment>(s, e) {
            None => None,
            Some((v, n)) => Some((SectionsView { data: v, ..acc }, n)),
        }
    } else if id == 12 {
        match uleb_ok_len(s, 5) {
            None => None,
            Some(k) => Some(
                (
                    SectionsView {
                        data_count: Some((uleb_value(s, k) % 0x1_0000_0000) as u32),
                        ..acc
                    },
                    k,
                ),
            ),
        }
    } else {
        None
    }
}

/// The whole stream from `s` to its end as a run of sections, folded into
/// `acc`: success requires consuming every byte.
#[verifier::opaque]
pub open spec fn sections_parsed(s: Seq<u8>, e: Endian, acc: SectionsView) -> Option<
    SectionsView,
>
    decreases s.len(),
{
    if s.len() == 0 {
        Some(acc)
    } else {
        match uleb_ok_len(s.skip(1), 5) {
            None => None,
            Some(k) => {
                let size = uleb_value(s.skip(1), k) % 0x1_0000_0000;
                match section_body_parsed(s[0], size, s.skip(1 + k), e, acc) {
                    None => None,
                    Some((acc2, m)) => {
                        if 1 <= k && 0 <= m && 1 + k + m <= s.len() {
                            sections_parsed(s.skip(1 + k + m), e, acc2)
                        } else {
                            None
                        }
                    },
                }
            },
        }
    }
}

/// Decode one section body of the given id, folding its contents into
/// `sections` and consuming exactly the body's bytes.
#[verifier::rlimit(100)]
#[verifier::spinoff_prover]
fn read_section_body(
    reader: &mut ByteReader,
    id: u8,
    section_size: u32,
    sections: &mut WasmSections,
) -> (r: Result<(), WasmParserError>)
    requires
        old(reader)@.in_bounds(),
    ensures
        final(reader)@.same_except_pos(old(reader)@),
        final(reader)@.pos >= old(reader)@.pos,
        final(reader)@.pos <= old(reader)@.pos + old(reader)@.rest().len(),
        final(reader)@.in_bounds(),
        match r {
            Ok(_) => {
                &&& section_body_parsed(
                    id,
                    section_size as int,
                    old(reader)@.rest(),
                    old(reader)@.endian,
                    old(sections).deep_view(),
                ) == Some((final(sections).deep_view(), final(reader)@.pos - old(reader)@.pos))
                &&& id <= 12
            },
            Err(e) => {
                &&& section_body_parsed(
                    id,
                    section_size as int,
                    old(reader)@.rest(),
                    old(reader)@.endian,
                    old(sections).deep_view(),
                ) is None
                &&& (id > 12 ==> e == WasmParserError::UnknownSectionId { id })
                &&& (id <= 12 ==> e matches WasmParserError::ParserError(_))
            },
        },
{
    proof {
        reveal(section_body_parsed);
    }
    match id {
        0 | 9 => {
            let cur = reader.get_current_offset();
            let len = reader.get_file_length();
            if section_size as usize > len - cur {
                return Err(WasmParserError::ParserError(ByteReaderError::OutOfBounds {
                    length: len,
                    start: cur,
                    end: if section_size as usize <= usize::MAX - cur {
                        cur + section_size as usize
                    } else {
                        usize::MAX
                    },
                }));
            }
            reader.jump(section_size as usize);
            Ok(())
        },
        1 => {
            sections.types = match read_vec::<FunctionType>(reader) {
                Ok(v) => v,
                Err(err) => {
                    return Err(WasmParserError::ParserError(err));
                },
            };
            Ok(())
        },
        2 => {
            sections.imports = match read_vec::<(Name, Name, ImportDesc)>(reader) {
                Ok(v) => v,
                Err(err) => {
                    return Err(WasmParserError::ParserError(err));
                },
            };
            Ok(())
        },
        3 => {
            sections.functions = match read_typeidx_vec(reader) {
                Ok(v) => v,
                Err(err) => {
                    return Err(WasmParserError::ParserError(err));
                },
            };
            Ok(())
        },
        4 => {
            sections.tables = match read_vec::<TableType>(reader) {
                Ok(v) => v,
                Err(err) => {
                    return Err(WasmParserError::ParserError(err));
                },
            };
            Ok(())
        },
        5 => {
            sections.memory = match read_vec::<Limits>(reader) {
                Ok(v) => v,
                Err(err) => {
                    return Err(WasmParserError::ParserError(err));
                },
            };
            Ok(())
        },
        6 => {
            sections.global = match read_vec::<(GlobalType, Expr)>(reader) {
                Ok(v) => v,
                Err(err) => {
                    return Err(WasmParserError::ParserError(err));
                },
            };
            Ok(())
        },
        7 => {
            sections.export = match read_vec::<(Name, Indecies)>(reader) {
                Ok(v) => v,
                Err(err) => {
                    return Err(WasmParserError::ParserError(err));
                },
            };
            Ok(())
        },
        8 => {
            let v = match reader.read_uleb128_u32() {
                Ok(v) => v,
                Err(err) => {
                    return Err(WasmParserError::ParserError(err));
                },
            };
            sections.start = Some(Indecies::FuncIdx(v));
            proof {
                crate::leb128::lemma_uleb_ok_len_shape(old(reader)@.rest(), 5);
            }
            Ok(())
        },
        10 => {
            sections.code = match read_vec::<(Vec<(u32, ValueType)>, Expr)>(reader) {
                Ok(v) => v,
                Err(err) => {
                    return Err(WasmParserError::ParserError(err));
                },
            };
            Ok(())
        },
        11 => {
            sections.data = match read_vec::<DataSegment>(reader) {
                Ok(v) => v,
                Err(err) => {
                    return Err(WasmParserError::ParserError(err));
                },
            };
            Ok(())
        },
        12 => {
            let v = match reader.read_uleb128_u32() {
                Ok(v) => v,
                Err(err) => {
                    return Err(WasmParserError::ParserError(err));
                },
            };
            sections.data_count = Some(v);
            proof {
                crate::leb128::lemma_uleb_ok_len_shape(old(reader)@.rest(), 5);
            }
            Ok(())
        },
        _ => Err(WasmParserError::UnknownSectionId { id }),
    }
}

/// The id of the first out-of-range section header the parse reaches, when
/// it reaches one: every earlier section parses into `acc` and has an id in
/// range, its size field included, and then a header with this id follows.
/// Where the parse fails for any other reason (or succeeds) there is none.
#[verifier::opaque]
pub open spec fn first_unknown_section_id(s: Seq<u8>, e: Endian, acc: SectionsView) -> Option<u8>
    decreases s.len(),
{
    if s.len() == 0 {
        None
    } else {
        match uleb_ok_len(s.skip(1), 5) {
            None => None,
            Some(k) => {
                if s[0] > 12 {
                    Some(s[0])
                } else {
                    let size = uleb_value(s.skip(1), k) % 0x1_0000_0000;
                    match section_body_parsed(s[0], size, s.skip(1 + k), e, acc) {
                        None => None,
                        Some((acc2, m)) => {
                            if 1 <= k && 0 <= m && 1 + k + m <= s.len() {
                                first_unknown_section_id(s.skip(1 + k + m), e, acc2)
                            } else {
                                None
                            }
                        },
                    }
                }
            },
        }
    }
}

impl WasmSections {
    /// Decode sections until the end of the stream, assembling the record;
    /// on success the cursor sits at the end of the input. The error is
    /// `UnknownSectionId` exactly when the parse reaches a header whose id
    /// lies outside `[0, 12]`.
    #[verifier::rlimit(100)]
    #[verifier::spinoff_prover]
    pub fn from_reader(reader: &mut ByteReader) -> (r: Result<WasmSections, WasmParserError>)
        ensures
            final(reader)@.same_except_pos(old(reader)@),
            final(reader)@.pos >= old(reader)@.pos,
            old(reader)@.in_bounds() ==> final(reader)@.in_bounds(),
            match r {
                Ok(s) => {
                    &&& sections_parsed(
                        old(reader)@.rest(),
                        old(reader)@.endian,
                        empty_sections_view(),
                    ) == Some(s.deep_view())
                    &&& (old(reader)@.in_bounds() ==> final(reader)@.pos
                        == final(reader)@.bytes.len())
                },
                Err(e) => {
                    &&& sections_parsed(
                        old(reader)@.rest(),
                        old(reader)@.endian,
                        empty_sections_view(),
                    ) is None
                    &&& (e matches WasmParserError::ParserError(_) || e
                        matches WasmParserError::UnknownSectionId { .. })
                    &&& (match first_unknown_section_id(
                        old(reader)@.rest(),
                        old(reader)@.endian,
                        empty_sections_view(),
                    ) {
                        Some(id) => e == WasmParserError::UnknownSectionId { id },
                        None => !(e matches WasmParserError::UnknownSectionId { .. }),
                    })
                },
            },
    {
        let ghost rest0 = old(reader)@.rest();
        let ghost e = old(reader)@.endian;
        let mut sections = WasmSections {
            custom: Vec::new(),
            types: Vec::new(),
            imports: Vec::new(),
            functions: Vec::new(),
            tables: Vec::new(),
            memory: Vec::new(),
            global: Vec::new(),
            export: Vec::new(),
            start: None,
            element: Vec::new(),
            code: Vec::new(),
            data: Vec::new(),
            data_count: None,
        };
        proof {
            assert(sections.deep_view() =~= empty_sections_view());
        }
        loop
            invariant
                reader@.same_except_pos(old(reader)@),
                reader@.pos >= old(reader)@.pos,
                reader@.pos <= old(reader)@.pos + rest0.len(),
                old(reader)@.in_bounds() ==> reader@.in_bounds(),
                !old(reader)@.in_bounds() ==> reader@.pos == old(reader)@.pos,
                rest0 == old(reader)@.rest(),
                e == old(reader)@.endian,
                reader@.rest() == rest0.skip(reader@.pos - old(reader)@.pos),
                sections_parsed(rest0, e, empty_sections_view()) == sections_parsed(
                    reader@.rest(),
                    e,
                    sections.deep_view(),
                ),
                first_unknown_section_id(rest0, e, empty_sections_view())
                    == first_unknown_section_id(reader@.rest(), e, sections.deep_view()),
            decreases rest0.len() - (reader@.pos - old(reader)@.pos),
        {
            let ghost iter_start = reader@;
            let ghost acc0 = sections.deep_view();
            let id = match reader.read::<u8>() {
                Ok(b) => b,
                Err(_) => {
                    proof {
                        reveal(sections_parsed);
                        assert(iter_start.rest().len() == 0);
                        assert(sections_parsed(iter_start.rest(), e, acc0) == Some(acc0));
                    }
                    return Ok(sections);
                },
            };
            let section_size = match reader.read_uleb128_u32() {
                Ok(v) => v,
                Err(err) => {
                    proof {
                        reveal(sections_parsed);
                        reveal(first_unknown_section_id);
                        crate::reader::lemma_skip_skip(
                            iter_start.bytes,
                            iter_start.pos as int,
                            1,
                        );
                        assert(iter_start.bytes.skip(iter_start.pos + 1int)
                            =~= iter_start.rest().skip(1));
                    }
                    return Err(WasmParserError::ParserError(err));
                },
            };
            let ghost k = reader@.pos - iter_start.pos - 1;
            let ghost s_body = iter_start.rest().skip(1 + k);
            proof {
                crate::leb128::lemma_uleb_ok_len_shape(iter_start.rest().skip(1), 5);
                crate::reader::lemma_skip_skip(iter_start.bytes, iter_start.pos as int, 1);
                crate::reader::lemma_skip_skip(iter_start.bytes, iter_start.pos as int, 1 + k);
                assert(iter_start.rest().skip(1) =~= iter_start.bytes.skip(
                    iter_start.pos + 1int,
                ));
                assert(reader@.rest() =~= s_body);
            }
            let ghost body_start = reader@.pos;
            match read_section_body(reader, id, section_size, &mut sections) {
                Ok(_) => {},
                Err(err) => {
                    proof {
                        reveal(sections_parsed);
                        reveal(first_unknown_section_id);
                    }
                    return Err(err);
                },
            }
            proof {
                reveal(sections_parsed);
                reveal(first_unknown_section_id);
                let m = reader@.pos - body_start;
                let size = uleb_value(iter_start.rest().skip(1), k) % 0x1_0000_0000;
                assert(section_body_parsed(id, size, s_body, e, acc0) == Some(
                    (sections.deep_view(), m),
                ));
                crate::reader::lemma_skip_skip(
                    iter_start.bytes,
                    iter_start.pos as int,
                    1 + k + m,
                );
                assert(reader@.rest() =~= iter_start.rest().skip(1 + k + m));
                assert(reader@.rest() =~= rest0.skip(reader@.pos - old(reader)@.pos));
                assert(sections_parsed(iter_start.rest(), e, acc0) == sections_parsed(
                    reader@.rest(),
                    e,
                    sections.deep_view(),
                ));
            }
        }
    }
}

} // verus!
