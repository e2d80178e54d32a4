//! Decoders for the primitive and composite types of the module format:
//! value types, function signatures, limits, tables, globals, names,
//! import descriptors, data segments, and the generic length-prefixed
//! vector.

#![allow(non_camel_case_types)]

use vstd::prelude::*;

use crate::instructions::Instructions;
use crate::leb128::Leb128Readers;
use crate::leb128::uleb_ok_len;
use crate::leb128::uleb_value;
use crate::reader::ByteReader;
use crate::reader::ByteReaderError;
use crate::reader::DecodeFailure;
use crate::reader::Endian;
use crate::reader::FromByteReader;
use crate::reader::failure_of;
use crate::leb128::uleb_fail;

verus! {

/// A kind-tagged 32-bit reference into a module-level table of the
/// corresponding kind.
#[derive(Debug, Clone, Copy, PartialEq, Eq, Structural)]
pub enum Indecies {
    TypeIdx(u32),
    FuncIdx(u32),
    TableIdx(u32),
    MemIdx(u32),
    GlobalIdx(u32),
    ElemIdx(u32),
    DataIdx(u32),
    LocalIdx(u32),
    LabelIdx(u32),
}

impl DeepView for Indecies {
    type V = Indecies;

    open spec fn deep_view(&self) -> Indecies {
        *self
    }
}

/// The numeric value types.
#[derive(Debug, Clone, Copy, PartialEq, Eq, Structural)]
pub enum NumberTypes {
    I32,
    I64,
    F32,
    F64,
}

impl DeepView for NumberTypes {
    type V = NumberTypes;

    open spec fn deep_view(&self) -> NumberTypes {
        *self
    }
}

/// The single 128-bit vector value type.
#[derive(Debug, Clone, Copy, PartialEq, Eq, Structural)]
pub enum VectorTypes {
    v128,
}

impl DeepView for VectorTypes {
    type V = VectorTypes;

    open spec fn deep_view(&self) -> VectorTypes {
        *self
    }
}

/// The reference value types.
#[derive(Debug, Clone, Copy, PartialEq, Eq, Structural)]
pub enum ReferenceTypes {
    funcref,
    externref,
}

impl DeepView for ReferenceTypes {
    type V = ReferenceTypes;

    open spec fn deep_view(&self) -> ReferenceTypes {
        *self
    }
}

/// A value type: numeric, vector, or reference.
#[derive(Debug, Clone, Copy, PartialEq, Eq, Structural)]
pub enum ValueType {
    NumType(NumberTypes),
    VecType(VectorTypes),
    RefType(ReferenceTypes),
}

impl DeepView for ValueType {
    type V = ValueType;

    open spec fn deep_view(&self) -> ValueType {
        *self
    }
}

/// Whether a global may be written after instantiation.
#[derive(Debug, Clone, Copy, PartialEq, Eq, Structural)]
pub enum Mutability {
    Const,
    Var,
}

impl DeepView for Mutability {
    type V = Mutability;

    open spec fn deep_view(&self) -> Mutability {
        *self
    }
}

/// The value type a byte encodes, or none: `0x7F..0x7C` are the number
/// types, `0x7B` the vector type, `0x70` and `0x6F` the reference types.
pub open spec fn valuetype_of(value: u8) -> Option<ValueType> {
    if value == 0x7F {
        Some(ValueType::NumType(NumberTypes::I32))
    } else if value == 0x7E {
        Some(ValueType::NumType(NumberTypes::I64))
    } else if value == 0x7D {
        Some(ValueType::NumType(NumberTypes::F32))
    } else if value == 0x7C {
        Some(ValueType::NumType(NumberTypes::F64))
    } else if value == 0x7B {
        Some(ValueType::VecType(VectorTypes::v128))
    } else if value == 0x70 {
        Some(ValueType::RefType(ReferenceTypes::funcref))
    } else if value == 0x6F {
        Some(ValueType::RefType(ReferenceTypes::externref))
    } else {
        None
    }
}

impl NumberTypes {
    /// The number type `value` encodes; an unrecognized byte is a decode
    /// failure, not a panic.
    pub fn from_byte(value: u8) -> (r: Option<NumberTypes>)
        ensures
            r == (match valuetype_of(value) {
                Some(ValueType::NumType(n)) => Some(n),
                _ => None::<NumberTypes>,
            }),
    {
        match value {
            0x7F => Some(NumberTypes::I32),
            0x7E => Some(NumberTypes::I64),
            0x7D => Some(NumberTypes::F32),
            0x7C => Some(NumberTypes::F64),
            _ => None,
        }
    }
}

impl VectorTypes {
    /// The vector type `value` encodes, if any.
    pub fn from_byte(value: u8) -> (r: Option<VectorTypes>)
        ensures
            r == (match valuetype_of(value) {
                Some(ValueType::VecType(v)) => Some(v),
                _ => None::<VectorTypes>,
            }),
    {
        match value {
            0x7B => Some(VectorTypes::v128),
            _ => None,
        }
    }
}

impl ReferenceTypes {
    /// The reference type `value` encodes, if any.
    pub fn from_byte(value: u8) -> (r: Option<ReferenceTypes>)
        ensures
            r == (match valuetype_of(value) {
                Some(ValueType::RefType(t)) => Some(t),
                _ => None::<ReferenceTypes>,
            }),
    {
        match value {
            0x70 => Some(ReferenceTypes::funcref),
            0x6F => Some(ReferenceTypes::externref),
            _ => None,
        }
    }
}

impl ValueType {
    /// The value type `value` encodes, if any.
    pub fn from_byte(value: u8) -> (r: Option<ValueType>)
        ensures
            r == valuetype_of(value),
    {
        match value {
            0x7F => Some(ValueType::NumType(NumberTypes::I32)),
            0x7E => Some(ValueType::NumType(NumberTypes::I64)),
            0x7D => Some(ValueType::NumType(NumberTypes::F32)),
            0x7C => Some(ValueType::NumType(NumberTypes::F64)),
            0x7B => Some(ValueType::VecType(VectorTypes::v128)),
            0x70 => Some(ValueType::RefType(ReferenceTypes::funcref)),
            0x6F => Some(ValueType::RefType(ReferenceTypes::externref)),
            _ => None,
        }
    }
}

impl Mutability {
    /// The mutability `value` encodes: `0x00` constant, `0x01` variable.
    pub fn from_byte(value: u8) -> (r: Option<Mutability>)
        ensures
            value == 0x00 ==> r == Some(Mutability::Const),
            value == 0x01 ==> r == Some(Mutability::Var),
            value > 0x01 ==> r is None,
    {
        match value {
            0x00 => Some(Mutability::Const),
            0x01 => Some(Mutability::Var),
            _ => None,
        }
    }
}

impl FromByteReader for ValueType {
    open spec fn parsed(bytes: Seq<u8>, e: Endian) -> Option<(ValueType, int)> {
        if bytes.len() < 1 {
            None
        } else {
            match valuetype_of(bytes[0]) {
                Some(v) => Some((v, 1)),
                None => None,
            }
        }
    }

    open spec fn parse_failure(bytes: Seq<u8>, e: Endian) -> DecodeFailure {
        if bytes.len() < 1 {
            DecodeFailure::OutOfBounds
        } else {
            DecodeFailure::InvalidTag
        }
    }

    /// A present but unrecognized type byte fails as a section-body error.
    fn read_from_byte_reader(reader: &mut ByteReader) -> (r: Result<Self, ByteReaderError>)
        ensures
            r matches Err(e) ==> ((old(reader)@.rest().len() >= 1 && valuetype_of(
                old(reader)@.rest()[0],
            ) is None) ==> e == ByteReaderError::InvalidSectionBody),
    {
        // Naming the failure spec here lets its definition unfold at the
        // error exits below.
        let ghost expected_failure = Self::parse_failure(old(reader)@.rest(), old(reader)@.endian);
        let b = match u8::read_from_byte_reader(reader) {
            Ok(b) => b,
            Err(e) => {
                return Err(e);
            },
        };
        match ValueType::from_byte(b) {
            Some(v) => Ok(v),
            None => Err(ByteReaderError::InvalidSectionBody),
        }
    }
}

/// `count` consecutive decodes of `T` from the front of `s`: the parsed
/// values (as deep views) and the bytes consumed in total.
pub open spec fn items_parsed<T: FromByteReader>(s: Seq<u8>, e: Endian, count: int) -> Option<
    (Seq<<T as DeepView>::V>, int),
>
    decreases count,
{
    if count <= 0 {
        Some((Seq::empty(), 0))
    } else {
        match T::parsed(s, e) {
            None => None,
            Some((v, n)) => match items_parsed::<T>(s.skip(n), e, count - 1) {
                None => None,
                Some((vs, m)) => Some((seq![v] + vs, n + m)),
            },
        }
    }
}

/// A length-prefixed vector: an unsigned LEB128 count, then that many
/// decodes of `T`.
pub open spec fn vec_parsed<T: FromByteReader>(s: Seq<u8>, e: Endian) -> Option<
    (Seq<<T as DeepView>::V>, int),
> {
    match uleb_ok_len(s, 5) {
        None => None,
        Some(k) => {
            let count = uleb_value(s, k) % 0x1_0000_0000;
            match items_parsed::<T>(s.skip(k), e, count) {
                None => None,
                Some((vs, m)) => Some((vs, k + m)),
            }
        },
    }
}

/// The kind of error `count` consecutive decodes of `T` report: the first
/// failing item's, propagated unchanged.
#[verifier::opaque]
pub open spec fn items_failure<T: FromByteReader>(
    s: Seq<u8>,
    e: Endian,
    count: int,
) -> DecodeFailure
    decreases count,
{
    if count <= 0 {
        DecodeFailure::OutOfBounds
    } else {
        match T::parsed(s, e) {
            None => T::parse_failure(s, e),
            Some((v, n)) => items_failure::<T>(s.skip(n), e, count - 1),
        }
    }
}

/// The kind of error a length-prefixed vector decode reports: the count's
/// own, or the first failing item's, propagated unchanged.
#[verifier::opaque]
pub open spec fn vec_failure<T: FromByteReader>(s: Seq<u8>, e: Endian) -> DecodeFailure {
    match uleb_ok_len(s, 5) {
        None => failure_of(uleb_fail(s, 5)),
        Some(k) => items_failure::<T>(s.skip(k), e, uleb_value(s, k) % 0x1_0000_0000),
    }
}

/// Decode a length-prefixed vector: an unsigned LEB128 count of items, then
/// that many `T`s. No bound is enforced on the count beyond the input that
/// is actually available.
pub fn read_vec<T: FromByteReader>(reader: &mut ByteReader) -> (r: Result<
    Vec<T>,
    ByteReaderError,
>)
    ensures
        final(reader)@.same_except_pos(old(reader)@),
        final(reader)@.pos >= old(reader)@.pos,
        final(reader)@.pos <= old(reader)@.pos + old(reader)@.rest().len(),
        old(reader)@.in_bounds() ==> final(reader)@.in_bounds(),
        match r {
            Ok(v) => vec_parsed::<T>(old(reader)@.rest(), old(reader)@.endian) == Some(
                (v.deep_view(), final(reader)@.pos - old(reader)@.pos),
            ),
            Err(e) => {
                &&& vec_parsed::<T>(old(reader)@.rest(), old(reader)@.endian) is None
                &&& failure_of(e) == vec_failure::<T>(old(reader)@.rest(), old(reader)@.endian)
                &&& (uleb_ok_len(old(reader)@.rest(), 5) is None ==> e
                    == crate::leb128::uleb_fail(old(reader)@.rest(), 5))
            },
        },
{
    let ghost rest0 = old(reader)@.rest();
    let ghost e = old(reader)@.endian;
    let count = match reader.read_uleb128_u32() {
        Ok(c) => c,
        Err(err) => {
            proof {
                reveal(vec_failure);
            }
            return Err(err);
        },
    };
    let ghost k = reader@.pos - old(reader)@.pos;
    proof {
        crate::leb128::lemma_uleb_ok_len_shape(rest0, 5);
    }
    let count_us = count as usize;
    let mut out: Vec<T> = Vec::new();
    let mut i: usize = 0;
    proof {
        crate::reader::lemma_skip_skip(old(reader)@.bytes, old(reader)@.pos as int, k);
        assert(reader@.rest() =~= rest0.skip(k));
        assert(out.deep_view() =~= Seq::<<T as DeepView>::V>::empty());
        match items_parsed::<T>(rest0.skip(k), e, count as int) {
            None => {},
            Some((vs, m)) => {
                assert(out.deep_view() + vs =~= vs);
            },
        }
    }
    while i < count_us
        invariant
            i <= count_us,
            count_us == count,
            old(reader)@.in_bounds(),
            reader@.same_except_pos(old(reader)@),
            reader@.in_bounds(),
            old(reader)@.pos + k <= reader@.pos,
            reader@.pos <= old(reader)@.pos + rest0.len(),
            rest0 == old(reader)@.rest(),
            e == old(reader)@.endian,
            uleb_ok_len(rest0, 5) == Some(k),
            count == uleb_value(rest0, k) % 0x1_0000_0000,
            out@.len() == i,
            items_failure::<T>(rest0.skip(k), e, count as int) == items_failure::<T>(
                reader@.rest(),
                e,
                count - i,
            ),
            match items_parsed::<T>(reader@.rest(), e, count - i) {
                None => items_parsed::<T>(rest0.skip(k), e, count as int) is None,
                Some((vs, m)) => items_parsed::<T>(rest0.skip(k), e, count as int) == Some(
                    (out.deep_view() + vs, (reader@.pos - old(reader)@.pos - k) + m),
                ),
            },
        decreases count_us - i,
    {
        let ghost cur = reader@;
        let item = match T::read_from_byte_reader(reader) {
            Ok(v) => v,
            Err(err) => {
                proof {
                    reveal(vec_failure);
                    reveal(items_failure);
                }
                return Err(err);
            },
        };
        let ghost n = reader@.pos - cur.pos;
        proof {
            crate::reader::lemma_skip_skip(cur.bytes, cur.pos as int, n);
            assert(reader@.rest() =~= cur.rest().skip(n));
        }
        let ghost prev = out.deep_view();
        out.push(item);
        i = i + 1;
        proof {
            assert(out.deep_view() =~= prev.push(item.deep_view()));
            let c_rem = count - (i - 1);
            assert(items_parsed::<T>(cur.rest(), e, c_rem) == (match items_parsed::<T>(
                cur.rest().skip(n),
                e,
                c_rem - 1,
            ) {
                None => None::<(Seq<<T as DeepView>::V>, int)>,
                Some((vs, m)) => Some((seq![item.deep_view()] + vs, n + m)),
            }));
            reveal(items_failure);
            assert(items_failure::<T>(cur.rest(), e, c_rem) == items_failure::<T>(
                cur.rest().skip(n),
                e,
                c_rem - 1,
            ));
            match items_parsed::<T>(reader@.rest(), e, count - i) {
                None => {},
                Some((vs, m)) => {
                    assert(prev + (seq![item.deep_view()] + vs) =~= out.deep_view() + vs);
                },
            }
        }
    }
    proof {
        assert(items_parsed::<T>(reader@.rest(), e, 0) == Some(
            (Seq::<<T as DeepView>::V>::empty(), 0int),
        ));
        assert(out.deep_view() + Seq::<<T as DeepView>::V>::empty() =~= out.deep_view());
    }
    Ok(out)
}

/// A length-prefixed UTF-8 string. Ill-formed UTF-8 is a decode failure.
#[derive(Debug, Clone, PartialEq, Eq)]
pub struct Name(pub String);

impl DeepView for Name {
    type V = Seq<char>;

    open spec fn deep_view(&self) -> Seq<char> {
        self.0@
    }
}

impl FromByteReader for Name {
    open spec fn parsed(bytes: Seq<u8>, e: Endian) -> Option<(Seq<char>, int)> {
        match uleb_ok_len(bytes, 5) {
            None => None,
            Some(k) => {
                let len = uleb_value(bytes, k) % 0x1_0000_0000;
                if bytes.len() >= k + len {
                    match crate::reader::utf8_decoded(bytes.subrange(k, k + len)) {
                        Some(chars) => Some((chars, k + len)),
                        None => None,
                    }
                } else {
                    None
                }
            },
        }
    }

    open spec fn parse_failure(bytes: Seq<u8>, e: Endian) -> DecodeFailure {
        match uleb_ok_len(bytes, 5) {
            None => failure_of(uleb_fail(bytes, 5)),
            Some(k) => {
                if bytes.len() < k + uleb_value(bytes, k) % 0x1_0000_0000 {
                    DecodeFailure::OutOfBounds
                } else {
                    DecodeFailure::InvalidUtf8
                }
            },
        }
    }

    /// On failure the error names the cause: the LEB128 length's own error,
    /// `OutOfBounds` when fewer bytes than the length remain, and
    /// `InvalidUtf8` on ill-formed bytes.
    fn read_from_byte_reader(reader: &mut ByteReader) -> (r: Result<Self, ByteReaderError>)
        ensures
            r matches Err(e) ==> (match uleb_ok_len(old(reader)@.rest(), 5) {
                None => e == crate::leb128::uleb_fail(old(reader)@.rest(), 5),
                Some(k) => {
                    let len = uleb_value(old(reader)@.rest(), k) % 0x1_0000_0000;
                    if old(reader)@.rest().len() < k + len {
                        e matches ByteReaderError::OutOfBounds { .. }
                    } else {
                        e == ByteReaderError::InvalidUtf8
                    }
                },
            }),
    {
        // Naming the failure spec here lets its definition unfold at the
        // error exits below.
        let ghost expected_failure = Self::parse_failure(
            old(reader)@.rest(),
            old(reader)@.endian,
        );
        let ghost rest0 = old(reader)@.rest();
        let str_len = match reader.read_uleb128_u32() {
            Ok(v) => v,
            Err(e) => {
                return Err(e);
            },
        };
        let ghost k = reader@.pos - old(reader)@.pos;
        proof {
            crate::leb128::lemma_uleb_ok_len_shape(rest0, 5);
        }
        let ghost cur = reader@;
        let s = match reader.read_string(str_len as usize) {
            Ok(s) => s,
            Err(e) => {
                proof {
                    if cur.pos + str_len as usize <= cur.bytes.len() {
                        assert(cur.bytes.subrange(cur.pos as int, cur.pos + str_len as usize)
                            =~= rest0.subrange(k, k + str_len as usize));
                    }
                }
                return Err(e);
            },
        };
        proof {
            assert(cur.bytes.subrange(cur.pos as int, cur.pos + str_len as usize) =~= rest0.subrange(
                k,
                k + str_len as usize,
            ));
        }
        Ok(Name(s))
    }
}

/// The deep view of a [`FunctionType`]: its parameter and result sequences.
pub ghost struct FunctionTypeView {
    pub params: Seq<ValueType>,
    pub result: Seq<ValueType>,
}

/// A function signature: ordered parameter and result types. Its encoding
/// starts with the magic byte `0x60`.
#[derive(Debug, Clone, PartialEq, Eq)]
pub struct FunctionType {
    pub params: Vec<ValueType>,
    pub result: Vec<ValueType>,
}

impl DeepView for FunctionType {
    type V = FunctionTypeView;

    open spec fn deep_view(&self) -> FunctionTypeView {
        FunctionTypeView { params: self.params.deep_view(), result: self.result.deep_view() }
    }
}

impl FromByteReader for FunctionType {
    open spec fn parsed(bytes: Seq<u8>, e: Endian) -> Option<(FunctionTypeView, int)> {
        if bytes.len() >= 1 && bytes[0] == 0x60 {
            match vec_parsed::<ValueType>(bytes.skip(1), e) {
                None => None,
                Some((ps, n1)) => match vec_parsed::<ValueType>(bytes.skip(1 + n1), e) {
                    None => None,
                    Some((rs, n2)) => Some(
                        (FunctionTypeView { params: ps, result: rs }, 1 + n1 + n2),
                    ),
                },
            }
        } else {
            None
        }
    }

    open spec fn parse_failure(bytes: Seq<u8>, e: Endian) -> DecodeFailure {
        if bytes.len() < 1 {
            DecodeFailure::OutOfBounds
        } else if bytes[0] != 0x60 {
            DecodeFailure::InvalidTag
        } else {
            match vec_parsed::<ValueType>(bytes.skip(1), e) {
                None => vec_failure::<ValueType>(bytes.skip(1), e),
                Some((ps, n1)) => vec_failure::<ValueType>(bytes.skip(1 + n1), e),
            }
        }
    }

    /// A leading byte other than the signature magic fails as a
    /// section-body error.
    fn read_from_byte_reader(reader: &mut ByteReader) -> (r: Result<Self, ByteReaderError>)
        ensures
            r matches Err(e) ==> ((old(reader)@.rest().len() >= 1 && old(reader)@.rest()[0]
                != 0x60) ==> e == ByteReaderError::InvalidSectionBody),
    {
        // Naming the failure spec here lets its definition unfold at the
        // error exits below.
        let ghost expected_failure = Self::parse_failure(
            old(reader)@.rest(),
            old(reader)@.endian,
        );
        let ghost rest0 = old(reader)@.rest();
        let pattern: &[u8] = &[0x60];
        proof {
            assert(pattern@.len() == 1);
            assert(pattern@[0] == 0x60);
        }
        let tag_ok = match reader.read_expect(pattern) {
            Ok(b) => b,
            Err(e) => {
                return Err(e);
            },
        };
        proof {
            assert(old(reader)@.pos + pattern@.len() <= old(reader)@.bytes.len());
            assert(old(reader)@.pos + 1 <= old(reader)@.bytes.len());
            assert(old(reader)@.bytes.subrange(old(reader)@.pos as int, old(reader)@.pos + 1int)
                =~= rest0.subrange(0, 1));
            assert(rest0.subrange(0, 1) =~= seq![rest0[0]]);
            assert(seq![rest0[0]] =~= pattern@ <==> rest0[0] == 0x60);
        }
        if !tag_ok {
            return Err(ByteReaderError::InvalidSectionBody);
        }
        proof {
            crate::reader::lemma_skip_skip(old(reader)@.bytes, old(reader)@.pos as int, 1);
            assert(reader@.rest() =~= rest0.skip(1));
        }
        let ghost cur1 = reader@;
        let params = match read_vec::<ValueType>(reader) {
            Ok(v) => v,
            Err(e) => {
                return Err(e);
            },
        };
        let ghost n1 = reader@.pos - cur1.pos;
        proof {
            crate::reader::lemma_skip_skip(cur1.bytes, cur1.pos as int, n1);
            assert(reader@.rest() =~= rest0.skip(1 + n1));
        }
        let result = match read_vec::<ValueType>(reader) {
            Ok(v) => v,
            Err(e) => {
                return Err(e);
            },
        };
        Ok(FunctionType { params, result })
    }
}

/// Size bounds: an open lower bound, or a closed interval, both 32-bit.
#[derive(Debug, Clone, Copy, PartialEq, Eq, Structural)]
pub enum Limits {
    min { min: u32 },
    minmax { min: u32, max: u32 },
}

/// A memory's size bounds are plain limits.
pub type MemType = Limits;

impl DeepView for Limits {
    type V = Limits;

    open spec fn deep_view(&self) -> Limits {
        *self
    }
}

impl FromByteReader for Limits {
    open spec fn parsed(bytes: Seq<u8>, e: Endian) -> Option<(Limits, int)> {
        if bytes.len() < 1 {
            None
        } else if bytes[0] == 0x00 {
            match uleb_ok_len(bytes.skip(1), 5) {
                None => None,
                Some(k) => Some(
                    (
                        Limits::min {
                            min: (uleb_value(bytes.skip(1), k) % 0x1_0000_0000) as u32,
                        },
                        1 + k,
                    ),
                ),
            }
        } else if bytes[0] == 0x01 {
            match uleb_ok_len(bytes.skip(1), 5) {
                None => None,
                Some(k) => {
                    let rest2 = bytes.skip(1 + k);
                    match uleb_ok_len(rest2, 5) {
                        None => None,
                        Some(k2) => Some(
                            (
                                Limits::minmax {
                                    min: (uleb_value(bytes.skip(1), k) % 0x1_0000_0000) as u32,
                                    max: (uleb_value(rest2, k2) % 0x1_0000_0000) as u32,
                                },
                                1 + k + k2,
                            ),
                        ),
                    }
                },
            }
        } else {
            None
        }
    }

    open spec fn parse_failure(bytes: Seq<u8>, e: Endian) -> DecodeFailure {
        if bytes.len() < 1 {
            DecodeFailure::OutOfBounds
        } else if bytes[0] == 0x00 {
            failure_of(uleb_fail(bytes.skip(1), 5))
        } else if bytes[0] == 0x01 {
            match uleb_ok_len(bytes.skip(1), 5) {
                None => failure_of(uleb_fail(bytes.skip(1), 5)),
                Some(k) => failure_of(uleb_fail(bytes.skip(1 + k), 5)),
            }
        } else {
            DecodeFailure::InvalidTag
        }
    }

    /// A bounds tag other than `0x00` or `0x01` fails as a section-body
    /// error.
    fn read_from_byte_reader(reader: &mut ByteReader) -> (r: Result<Self, ByteReaderError>)
        ensures
            r matches Err(e) ==> ((old(reader)@.rest().len() >= 1 && old(reader)@.rest()[0]
                > 0x01) ==> e == ByteReaderError::InvalidSectionBody),
    {
        let ghost rest0 = old(reader)@.rest();
        // Naming the failure spec here lets its definition unfold at the
        // error exits below.
        let ghost expected_failure = Self::parse_failure(rest0, old(reader)@.endian);
        let limit_type = match u8::read_from_byte_reader(reader) {
            Ok(b) => b,
            Err(e) => {
                return Err(e);
            },
        };
        proof {
            crate::reader::lemma_skip_skip(old(reader)@.bytes, old(reader)@.pos as int, 1);
            assert(reader@.rest() =~= rest0.skip(1));
        }
        if limit_type == 0x00 {
            let n = match reader.read_uleb128_u32() {
                Ok(v) => v,
                Err(e) => {
                    return Err(e);
                },
            };
            Ok(Limits::min { min: n })
        } else if limit_type == 0x01 {
            let ghost cur1 = reader@;
            let n = match reader.read_uleb128_u32() {
                Ok(v) => v,
                Err(e) => {
                    return Err(e);
                },
            };
            proof {
                crate::leb128::lemma_uleb_ok_len_shape(rest0.skip(1), 5);
                crate::reader::lemma_skip_skip(cur1.bytes, cur1.pos as int, reader@.pos - cur1.pos);
                assert(reader@.rest() =~= rest0.skip(1 + (reader@.pos - cur1.pos)));
            }
            let m = match reader.read_uleb128_u32() {
                Ok(v) => v,
                Err(e) => {
                    return Err(e);
                },
            };
            Ok(Limits::minmax { min: n, max: m })
        } else {
            Err(ByteReaderError::InvalidSectionBody)
        }
    }
}

/// A table: the reference type of its elements and its size limits.
#[derive(Debug, Clone, Copy, PartialEq, Eq, Structural)]
pub struct TableType {
    pub elem: ReferenceTypes,
    pub lim: Limits,
}

impl DeepView for TableType {
    type V = TableType;

    open spec fn deep_view(&self) -> TableType {
        *self
    }
}

impl FromByteReader for TableType {
    open spec fn parsed(bytes: Seq<u8>, e: Endian) -> Option<(TableType, int)> {
        if bytes.len() < 1 {
            None
        } else {
            match valuetype_of(bytes[0]) {
                Some(ValueType::RefType(rt)) => match Limits::parsed(bytes.skip(1), e) {
                    None => None,
                    Some((lim, n)) => Some((TableType { elem: rt, lim }, 1 + n)),
                },
                _ => None,
            }
        }
    }

    open spec fn parse_failure(bytes: Seq<u8>, e: Endian) -> DecodeFailure {
        if bytes.len() < 1 {
            DecodeFailure::OutOfBounds
        } else if bytes[0] != 0x70 && bytes[0] != 0x6F {
            DecodeFailure::InvalidTag
        } else {
            Limits::parse_failure(bytes.skip(1), e)
        }
    }

    /// A leading byte that is no reference type fails as a section-body
    /// error.
    fn read_from_byte_reader(reader: &mut ByteReader) -> (r: Result<Self, ByteReaderError>)
        ensures
            r matches Err(e) ==> ((old(reader)@.rest().len() >= 1 && old(reader)@.rest()[0]
                != 0x70 && old(reader)@.rest()[0] != 0x6F) ==> e
                == ByteReaderError::InvalidSectionBody),
    {
        let ghost rest0 = old(reader)@.rest();
        // Naming the failure spec here lets its definition unfold at the
        // error exits below.
        let ghost expected_failure = Self::parse_failure(rest0, old(reader)@.endian);
        let b = match u8::read_from_byte_reader(reader) {
            Ok(b) => b,
            Err(e) => {
                return Err(e);
            },
        };
        let elem = match ReferenceTypes::from_byte(b) {
            Some(t) => t,
            None => {
                return Err(ByteReaderError::InvalidSectionBody);
            },
        };
        proof {
            crate::reader::lemma_skip_skip(old(reader)@.bytes, old(reader)@.pos as int, 1);
            assert(reader@.rest() =~= rest0.skip(1));
        }
        let lim = match Limits::read_from_byte_reader(reader) {
            Ok(l) => l,
            Err(e) => {
                return Err(e);
            },
        };
        Ok(TableType { elem, lim })
    }
}

/// A global's value type and mutability.
#[derive(Debug, Clone, Copy, PartialEq, Eq, Structural)]
pub struct GlobalType {
    pub vtype: ValueType,
    pub mutability: Mutability,
}

impl DeepView for GlobalType {
    type V = GlobalType;

    open spec fn deep_view(&self) -> GlobalType {
        *self
    }
}

impl FromByteReader for GlobalType {
    open spec fn parsed(bytes: Seq<u8>, e: Endian) -> Option<(GlobalType, int)> {
        match ValueType::parsed(bytes, e) {
            None => None,
            Some((vt, n)) => {
                let rest = bytes.skip(n);
                if rest.len() >= 1 && rest[0] == 0x00 {
                    Some((GlobalType { vtype: vt, mutability: Mutability::Const }, n + 1))
                } else if rest.len() >= 1 && rest[0] == 0x01 {
                    Some((GlobalType { vtype: vt, mutability: Mutability::Var }, n + 1))
                } else {
                    None
                }
            },
        }
    }

    open spec fn parse_failure(bytes: Seq<u8>, e: Endian) -> DecodeFailure {
        match ValueType::parsed(bytes, e) {
            None => ValueType::parse_failure(bytes, e),
            Some((vt, n)) => {
                if bytes.skip(n).len() < 1 {
                    DecodeFailure::OutOfBounds
                } else {
                    DecodeFailure::InvalidTag
                }
            },
        }
    }

    /// An unrecognized value-type byte, or a mutability tag other than
    /// `0x00` or `0x01`, fails as a section-body error.
    fn read_from_byte_reader(reader: &mut ByteReader) -> (r: Result<Self, ByteReaderError>)
        ensures
            r matches Err(e) ==> ((old(reader)@.rest().len() >= 1 && valuetype_of(
                old(reader)@.rest()[0],
            ) is None) ==> e == ByteReaderError::InvalidSectionBody),
            r matches Err(e) ==> (match ValueType::parsed(old(reader)@.rest(), old(reader)@.endian) {
                Some((vt, n)) => (old(reader)@.rest().skip(n).len() >= 1 && old(
                    reader,
                )@.rest().skip(n)[0] > 0x01) ==> e == ByteReaderError::InvalidSectionBody,
                None => true,
            }),
    {
        // Naming the failure spec here lets its definition unfold at the
        // error exits below.
        let ghost expected_failure = Self::parse_failure(
            old(reader)@.rest(),
            old(reader)@.endian,
        );
        let ghost rest0 = old(reader)@.rest();
        let vtype = match ValueType::read_from_byte_reader(reader) {
            Ok(v) => v,
            Err(e) => {
                return Err(e);
            },
        };
        proof {
            crate::reader::lemma_skip_skip(old(reader)@.bytes, old(reader)@.pos as int, 1);
            assert(reader@.rest() =~= rest0.skip(1));
        }
        let b = match u8::read_from_byte_reader(reader) {
            Ok(b) => b,
            Err(e) => {
                return Err(e);
            },
        };
        let mutability = match Mutability::from_byte(b) {
            Some(m) => m,
            None => {
                return Err(ByteReaderError::InvalidSectionBody);
            },
        };
        Ok(GlobalType { vtype, mutability })
    }
}

/// What an import provides: a function signature index, a table, a memory,
/// or a global.
#[derive(Debug, Clone, Copy, PartialEq, Eq, Structural)]
pub enum ImportDesc {
    TypeIdx(Indecies),
    TableType(TableType),
    MemType(MemType),
    GlobalType(GlobalType),
}

impl DeepView for ImportDesc {
    type V = ImportDesc;

    open spec fn deep_view(&self) -> ImportDesc {
        *self
    }
}

impl FromByteReader for ImportDesc {
    open spec fn parsed(bytes: Seq<u8>, e: Endian) -> Option<(ImportDesc, int)> {
        if bytes.len() < 1 {
            None
        } else if bytes[0] == 0x00 {
            match uleb_ok_len(bytes.skip(1), 5) {
                None => None,
                Some(k) => Some(
                    (
                        ImportDesc::TypeIdx(
                            Indecies::TypeIdx(
                                (uleb_value(bytes.skip(1), k) % 0x1_0000_0000) as u32,
                            ),
                        ),
                        1 + k,
                    ),
                ),
            }
        } else if bytes[0] == 0x01 {
            match TableType::parsed(bytes.skip(1), e) {
                None => None,
                Some((t, n)) => Some((ImportDesc::TableType(t), 1 + n)),
            }
        } else if bytes[0] == 0x02 {
            match Limits::parsed(bytes.skip(1), e) {
                None => None,
                Some((l, n)) => Some((ImportDesc::MemType(l), 1 + n)),
            }
        } else if bytes[0] == 0x03 {
            match GlobalType::parsed(bytes.skip(1), e) {
                None => None,
                Some((g, n)) => Some((ImportDesc::GlobalType(g), 1 + n)),
            }
        } else {
            None
        }
    }

    open spec fn parse_failure(bytes: Seq<u8>, e: Endian) -> DecodeFailure {
        if bytes.len() < 1 {
            DecodeFailure::OutOfBounds
        } else if bytes[0] == 0x00 {
            failure_of(uleb_fail(bytes.skip(1), 5))
        } else if bytes[0] == 0x01 {
            TableType::parse_failure(bytes.skip(1), e)
        } else if bytes[0] == 0x02 {
            Limits::parse_failure(bytes.skip(1), e)
        } else if bytes[0] == 0x03 {
            GlobalType::parse_failure(bytes.skip(1), e)
        } else {
            DecodeFailure::InvalidTag
        }
    }

    /// A descriptor tag above `0x03` fails as a section-body error.
    fn read_from_byte_reader(reader: &mut ByteReader) -> (r: Result<Self, ByteReaderError>)
        ensures
            r matches Err(e) ==> ((old(reader)@.rest().len() >= 1 && old(reader)@.rest()[0]
                > 0x03) ==> e == ByteReaderError::InvalidSectionBody),
    {
        let ghost rest0 = old(reader)@.rest();
        // Naming the failure spec here lets its definition unfold at the
        // error exits below.
        let ghost expected_failure = Self::parse_failure(rest0, old(reader)@.endian);
        let tag = match u8::read_from_byte_reader(reader) {
            Ok(b) => b,
            Err(e) => {
                return Err(e);
            },
        };
        proof {
            crate::reader::lemma_skip_skip(old(reader)@.bytes, old(reader)@.pos as int, 1);
            assert(reader@.rest() =~= rest0.skip(1));
        }
        match tag {
            0x00 => {
                let v = match reader.read_uleb128_u32() {
                    Ok(v) => v,
                    Err(e) => {
                        return Err(e);
                    },
                };
                Ok(ImportDesc::TypeIdx(Indecies::TypeIdx(v)))
            },
            0x01 => {
                let t = match TableType::read_from_byte_reader(reader) {
                    Ok(t) => t,
                    Err(e) => {
                        return Err(e);
                    },
                };
                Ok(ImportDesc::TableType(t))
            },
            0x02 => {
                let l = match Limits::read_from_byte_reader(reader) {
                    Ok(l) => l,
                    Err(e) => {
                        return Err(e);
                    },
                };
                Ok(ImportDesc::MemType(l))
            },
            0x03 => {
                let g = match GlobalType::read_from_byte_reader(reader) {
                    Ok(g) => g,
                    Err(e) => {
                        return Err(e);
                    },
                };
                Ok(ImportDesc::GlobalType(g))
            },
            _ => Err(ByteReaderError::InvalidSectionBody),
        }
    }
}


/// An instruction sequence, as an expression body.
pub type Expr = Vec<Instructions>;

/// The deep view of a [`DataSegment`].
pub ghost struct DataSegmentView {
    pub mode: SegmentModeView,
    pub bytes: Seq<u8>,
}

/// The deep view of a [`SegmentMode`].
pub ghost enum SegmentModeView {
    Passive,
    Active { memory_index: u32, offset: Seq<Instructions> },
}

/// How a data segment is applied: passively held, or actively copied into
/// a memory at the offset its expression computes.
#[derive(Debug, Clone, PartialEq)]
pub enum SegmentMode {
    Passive,
    Active { memory_index: u32, offset: Expr },
}

impl DeepView for SegmentMode {
    type V = SegmentModeView;

    open spec fn deep_view(&self) -> SegmentModeView {
        match self {
            SegmentMode::Passive => SegmentModeView::Passive,
            SegmentMode::Active { memory_index, offset } => SegmentModeView::Active {
                memory_index: *memory_index,
                offset: offset.deep_view(),
            },
        }
    }
}

/// A data segment: its mode and its byte payload.
#[derive(Debug, Clone, PartialEq)]
pub struct DataSegment {
    pub mode: SegmentMode,
    pub bytes: Vec<u8>,
}

impl DeepView for DataSegment {
    type V = DataSegmentView;

    open spec fn deep_view(&self) -> DataSegmentView {
        DataSegmentView { mode: self.mode.deep_view(), bytes: self.bytes.deep_view() }
    }
}

/// The remainder of an active data segment, after its bitfield: the offset
/// expression, the explicit memory index when the bitfield is 2, and the
/// length-prefixed payload.
pub open spec fn active_segment_parsed(s: Seq<u8>, e: Endian, bitfield: int) -> Option<
    (DataSegmentView, int),
> {
    match crate::instructions::expr_parsed(s) {
        None => None,
        Some((off, n)) => {
            if bitfield == 2 {
                match uleb_ok_len(s.skip(n), 5) {
                    None => None,
                    Some(k2) => {
                        let memidx = uleb_value(s.skip(n), k2) % 0x1_0000_0000;
                        match vec_parsed::<u8>(s.skip(n + k2), e) {
                            None => None,
                            Some((payload, m)) => Some(
                                (
                                    DataSegmentView {
                                        mode: SegmentModeView::Active {
                                            memory_index: memidx as u32,
                                            offset: off,
                                        },
                                        bytes: payload,
                                    },
                                    n + k2 + m,
                                ),
                            ),
                        }
                    },
                }
            } else {
                match vec_parsed::<u8>(s.skip(n), e) {
                    None => None,
                    Some((payload, m)) => Some(
                        (
                            DataSegmentView {
                                mode: SegmentModeView::Active { memory_index: 0, offset: off },
                                bytes: payload,
                            },
                            n + m,
                        ),
                    ),
                }
            }
        },
    }
}

/// The kind of error the remainder of an active segment reports when it
/// fails: the first failing step's own, propagated unchanged.
pub open spec fn active_segment_failure(s: Seq<u8>, e: Endian, bitfield: int) -> DecodeFailure {
    match crate::instructions::expr_parsed(s) {
        None => crate::instructions::expr_failure(s),
        Some((off, n)) => {
            if bitfield == 2 {
                match uleb_ok_len(s.skip(n), 5) {
                    None => failure_of(uleb_fail(s.skip(n), 5)),
                    Some(k2) => vec_failure::<u8>(s.skip(n + k2), e),
                }
            } else {
                vec_failure::<u8>(s.skip(n), e)
            }
        },
    }
}

/// Decode the remainder of an active data segment, after its bitfield.
#[verifier::rlimit(100)]
#[verifier::spinoff_prover]
fn read_active_segment(reader: &mut ByteReader, bitfield: u32) -> (r: Result<
    DataSegment,
    ByteReaderError,
>)
    requires
        bitfield % 2 == 0,
    ensures
        final(reader)@.same_except_pos(old(reader)@),
        final(reader)@.pos >= old(reader)@.pos,
        final(reader)@.pos <= old(reader)@.pos + old(reader)@.rest().len(),
        old(reader)@.in_bounds() ==> final(reader)@.in_bounds(),
        match r {
            Ok(seg) => active_segment_parsed(
                old(reader)@.rest(),
                old(reader)@.endian,
                bitfield as int,
            ) == Some((seg.deep_view(), final(reader)@.pos - old(reader)@.pos)),
            Err(e) => {
                &&& active_segment_parsed(
                    old(reader)@.rest(),
                    old(reader)@.endian,
                    bitfield as int,
                ) is None
                &&& failure_of(e) == active_segment_failure(
                    old(reader)@.rest(),
                    old(reader)@.endian,
                    bitfield as int,
                )
            },
        },
{
    let ghost rest0 = old(reader)@.rest();
    // Naming the failure spec here lets its definition unfold at the error
    // exits below.
    let ghost expected_failure = active_segment_failure(
        rest0,
        old(reader)@.endian,
        bitfield as int,
    );
    let offset = match crate::instructions::read_expr(reader) {
        Ok(v) => v,
        Err(e) => {
            return Err(e);
        },
    };
    let ghost n = reader@.pos - old(reader)@.pos;
    proof {
        crate::reader::lemma_skip_skip(old(reader)@.bytes, old(reader)@.pos as int, n);
        assert(reader@.rest() =~= rest0.skip(n));
    }
    if bitfield == 2 {
        let ghost cur2 = reader@;
        let memory_index = match reader.read_uleb128_u32() {
            Ok(v) => v,
            Err(e) => {
                return Err(e);
            },
        };
        let ghost k2 = reader@.pos - cur2.pos;
        proof {
            crate::leb128::lemma_uleb_ok_len_shape(rest0.skip(n), 5);
            crate::reader::lemma_skip_skip(cur2.bytes, cur2.pos as int, k2);
            assert(reader@.rest() =~= rest0.skip(n + k2));
        }
        let payload = match read_vec::<u8>(reader) {
            Ok(v) => v,
            Err(e) => {
                return Err(e);
            },
        };
        Ok(DataSegment { mode: SegmentMode::Active { memory_index, offset }, bytes: payload })
    } else {
        let payload = match read_vec::<u8>(reader) {
            Ok(v) => v,
            Err(e) => {
                return Err(e);
            },
        };
        Ok(DataSegment { mode: SegmentMode::Active { memory_index: 0, offset }, bytes: payload })
    }
}

impl FromByteReader for DataSegment {
    open spec fn parsed(bytes: Seq<u8>, e: Endian) -> Option<(DataSegmentView, int)> {
        match uleb_ok_len(bytes, 5) {
            None => None,
            Some(k) => {
                let bitfield = uleb_value(bytes, k) % 0x1_0000_0000;
                if bitfield % 2 == 0 {
                    match active_segment_parsed(bytes.skip(k), e, bitfield) {
                        None => None,
                        Some((seg, m)) => Some((seg, k + m)),
                    }
                } else {
                    match vec_parsed::<u8>(bytes.skip(k), e) {
                        None => None,
                        Some((payload, m)) => Some(
                            (
                                DataSegmentView {
                                    mode: SegmentModeView::Passive,
                                    bytes: payload,
                                },
                                k + m,
                            ),
                        ),
                    }
                }
            },
        }
    }

    open spec fn parse_failure(bytes: Seq<u8>, e: Endian) -> DecodeFailure {
        match uleb_ok_len(bytes, 5) {
            None => failure_of(uleb_fail(bytes, 5)),
            Some(k) => {
                let bitfield = uleb_value(bytes, k) % 0x1_0000_0000;
                if bitfield % 2 == 0 {
                    active_segment_failure(bytes.skip(k), e, bitfield)
                } else {
                    vec_failure::<u8>(bytes.skip(k), e)
                }
            },
        }
    }

    #[verifier::rlimit(100)]
    #[verifier::spinoff_prover]
    fn read_from_byte_reader(reader: &mut ByteReader) -> (r: Result<Self, ByteReaderError>) {
        // Naming the failure spec here lets its definition unfold at the
        // error exits below.
        let ghost expected_failure = Self::parse_failure(
            old(reader)@.rest(),
            old(reader)@.endian,
        );
        let ghost rest0 = old(reader)@.rest();
        let bitfield = match reader.read_uleb128_u32() {
            Ok(v) => v,
            Err(e) => {
                return Err(e);
            },
        };
        let ghost k = reader@.pos - old(reader)@.pos;
        proof {
            crate::leb128::lemma_uleb_ok_len_shape(rest0, 5);
            crate::reader::lemma_skip_skip(old(reader)@.bytes, old(reader)@.pos as int, k);
            assert(reader@.rest() =~= rest0.skip(k));
        }
        if bitfield % 2 == 0 {
            match read_active_segment(reader, bitfield) {
                Ok(seg) => Ok(seg),
                Err(e) => Err(e),
            }
        } else {
            let payload = match read_vec::<u8>(reader) {
                Ok(v) => v,
                Err(e) => {
                    return Err(e);
                },
            };
            Ok(DataSegment { mode: SegmentMode::Passive, bytes: payload })
        }
    }
}

impl FromByteReader for (Name, Name, ImportDesc) {
    /// An import record: module name, field name, then the descriptor.
    open spec fn parsed(bytes: Seq<u8>, e: Endian) -> Option<
        ((Seq<char>, Seq<char>, ImportDesc), int),
    > {
        match Name::parsed(bytes, e) {
            None => None,
            Some((module, n1)) => match Name::parsed(bytes.skip(n1), e) {
                None => None,
                Some((field, n2)) => match ImportDesc::parsed(bytes.skip(n1 + n2), e) {
                    None => None,
                    Some((desc, n3)) => Some(((module, field, desc), n1 + n2 + n3)),
                },
            },
        }
    }

    open spec fn parse_failure(bytes: Seq<u8>, e: Endian) -> DecodeFailure {
        match Name::parsed(bytes, e) {
            None => Name::parse_failure(bytes, e),
            Some((module, n1)) => match Name::parsed(bytes.skip(n1), e) {
                None => Name::parse_failure(bytes.skip(n1), e),
                Some((field, n2)) => ImportDesc::parse_failure(bytes.skip(n1 + n2), e),
            },
        }
    }

    #[verifier::rlimit(100)]
    #[verifier::spinoff_prover]
    fn read_from_byte_reader(reader: &mut ByteReader) -> (r: Result<Self, ByteReaderError>) {
        // Naming the failure spec here lets its definition unfold at the
        // error exits below.
        let ghost expected_failure = Self::parse_failure(
            old(reader)@.rest(),
            old(reader)@.endian,
        );
        let ghost rest0 = old(reader)@.rest();
        let module = match Name::read_from_byte_reader(reader) {
            Ok(v) => v,
            Err(e) => {
                return Err(e);
            },
        };
        let ghost n1 = reader@.pos - old(reader)@.pos;
        proof {
            crate::reader::lemma_skip_skip(old(reader)@.bytes, old(reader)@.pos as int, n1);
            assert(reader@.rest() =~= rest0.skip(n1));
        }
        let ghost cur1 = reader@;
        let field = match Name::read_from_byte_reader(reader) {
            Ok(v) => v,
            Err(e) => {
                return Err(e);
            },
        };
        let ghost n2 = reader@.pos - cur1.pos;
        proof {
            crate::reader::lemma_skip_skip(cur1.bytes, cur1.pos as int, n2);
            assert(reader@.rest() =~= rest0.skip(n1 + n2));
        }
        let desc = match ImportDesc::read_from_byte_reader(reader) {
            Ok(v) => v,
            Err(e) => {
                return Err(e);
            },
        };
        Ok((module, field, desc))
    }
}

impl FromByteReader for (GlobalType, Expr) {
    /// A global record: its type, then its initializer expression.
    open spec fn parsed(bytes: Seq<u8>, e: Endian) -> Option<
        ((GlobalType, Seq<Instructions>), int),
    > {
        match GlobalType::parsed(bytes, e) {
            None => None,
            Some((g, n1)) => match crate::instructions::expr_parsed(bytes.skip(n1)) {
                None => None,
                Some((init, n2)) => Some(((g, init), n1 + n2)),
            },
        }
    }

    open spec fn parse_failure(bytes: Seq<u8>, e: Endian) -> DecodeFailure {
        match GlobalType::parsed(bytes, e) {
            None => GlobalType::parse_failure(bytes, e),
            Some((g, n1)) => crate::instructions::expr_failure(bytes.skip(n1)),
        }
    }

    fn read_from_byte_reader(reader: &mut ByteReader) -> (r: Result<Self, ByteReaderError>) {
        // Naming the failure spec here lets its definition unfold at the
        // error exits below.
        let ghost expected_failure = Self::parse_failure(
            old(reader)@.rest(),
            old(reader)@.endian,
        );
        let ghost rest0 = old(reader)@.rest();
        let g = match GlobalType::read_from_byte_reader(reader) {
            Ok(v) => v,
            Err(e) => {
                return Err(e);
            },
        };
        let ghost n1 = reader@.pos - old(reader)@.pos;
        proof {
            crate::reader::lemma_skip_skip(old(reader)@.bytes, old(reader)@.pos as int, n1);
            assert(reader@.rest() =~= rest0.skip(n1));
        }
        let init = match crate::instructions::read_expr(reader) {
            Ok(v) => v,
            Err(e) => {
                return Err(e);
            },
        };
        Ok((g, init))
    }
}

impl FromByteReader for (Name, Indecies) {
    /// An export record: its name, then a one-byte index kind (`0x00`
    /// function, `0x01` table, `0x02` memory, `0x03` global) and the index.
    open spec fn parsed(bytes: Seq<u8>, e: Endian) -> Option<((Seq<char>, Indecies), int)> {
        match Name::parsed(bytes, e) {
            None => None,
            Some((name, n1)) => {
                let rest = bytes.skip(n1);
                if rest.len() < 1 || rest[0] > 0x03 {
                    None
                } else {
                    match uleb_ok_len(rest.skip(1), 5) {
                        None => None,
                        Some(k) => {
                            let v = (uleb_value(rest.skip(1), k) % 0x1_0000_0000) as u32;
                            let idx = if rest[0] == 0x00 {
                                Indecies::FuncIdx(v)
                            } else if rest[0] == 0x01 {
                                Indecies::TableIdx(v)
                            } else if rest[0] == 0x02 {
                                Indecies::MemIdx(v)
                            } else {
                                Indecies::GlobalIdx(v)
                            };
                            Some(((name, idx), n1 + 1 + k))
                        },
                    }
                }
            },
        }
    }

    open spec fn parse_failure(bytes: Seq<u8>, e: Endian) -> DecodeFailure {
        match Name::parsed(bytes, e) {
            None => Name::parse_failure(bytes, e),
            Some((name, n1)) => {
                let rest = bytes.skip(n1);
                if rest.len() < 1 {
                    DecodeFailure::OutOfBounds
                } else if rest[0] > 0x03 {
                    DecodeFailure::InvalidTag
                } else {
                    failure_of(uleb_fail(rest.skip(1), 5))
                }
            },
        }
    }

    /// An export kind byte above `0x03` fails as a section-body error.
    fn read_from_byte_reader(reader: &mut ByteReader) -> (r: Result<Self, ByteReaderError>)
        ensures
            r matches Err(e) ==> (match Name::parsed(old(reader)@.rest(), old(reader)@.endian) {
                Some((name, n1)) => (old(reader)@.rest().skip(n1).len() >= 1
                    && old(reader)@.rest().skip(n1)[0] > 0x03) ==> e
                    == ByteReaderError::InvalidSectionBody,
                None => true,
            }),
    {
        // Naming the failure spec here lets its definition unfold at the
        // error exits below.
        let ghost expected_failure = Self::parse_failure(
            old(reader)@.rest(),
            old(reader)@.endian,
        );
        let ghost rest0 = old(reader)@.rest();
        let name = match Name::read_from_byte_reader(reader) {
            Ok(v) => v,
            Err(e) => {
                return Err(e);
            },
        };
        let ghost n1 = reader@.pos - old(reader)@.pos;
        proof {
            crate::reader::lemma_skip_skip(old(reader)@.bytes, old(reader)@.pos as int, n1);
            assert(reader@.rest() =~= rest0.skip(n1));
        }
        let ghost cur1 = reader@;
        let kind = match u8::read_from_byte_reader(reader) {
            Ok(b) => b,
            Err(e) => {
                return Err(e);
            },
        };
        if kind > 0x03 {
            return Err(ByteReaderError::InvalidSectionBody);
        }
        proof {
            crate::reader::lemma_skip_skip(cur1.bytes, cur1.pos as int, 1);
            assert(reader@.rest() =~= rest0.skip(n1).skip(1));
        }
        let v = match reader.read_uleb128_u32() {
            Ok(v) => v,
            Err(e) => {
                return Err(e);
            },
        };
        let idx = if kind == 0x00 {
            Indecies::FuncIdx(v)
        } else if kind == 0x01 {
            Indecies::TableIdx(v)
        } else if kind == 0x02 {
            Indecies::MemIdx(v)
        } else {
            Indecies::GlobalIdx(v)
        };
        proof {
            let e0 = old(reader)@.endian;
            let rest = rest0.skip(n1);
            let k2 = uleb_ok_len(rest.skip(1), 5)->Some_0;
            assert(v == (uleb_value(rest.skip(1), k2) % 0x1_0000_0000) as u32);
            assert(name.deep_view() == Name::parsed(rest0, e0)->Some_0.0);
            assert(kind == rest[0]);
            assert((name, idx).deep_view() == (name.deep_view(), idx));
        }
        Ok((name, idx))
    }
}

impl FromByteReader for (u32, ValueType) {
    /// A local-variable declaration: a repetition count (unsigned LEB128),
    /// then the value type it repeats.
    open spec fn parsed(bytes: Seq<u8>, e: Endian) -> Option<((u32, ValueType), int)> {
        match uleb_ok_len(bytes, 5) {
            None => None,
            Some(k) => {
                let count = (uleb_value(bytes, k) % 0x1_0000_0000) as u32;
                match ValueType::parsed(bytes.skip(k), e) {
                    None => None,
                    Some((vt, n)) => Some(((count, vt), k + n)),
                }
            },
        }
    }

    open spec fn parse_failure(bytes: Seq<u8>, e: Endian) -> DecodeFailure {
        match uleb_ok_len(bytes, 5) {
            None => failure_of(uleb_fail(bytes, 5)),
            Some(k) => ValueType::parse_failure(bytes.skip(k), e),
        }
    }

    fn read_from_byte_reader(reader: &mut ByteReader) -> (r: Result<Self, ByteReaderError>) {
        // Naming the failure spec here lets its definition unfold at the
        // error exits below.
        let ghost expected_failure = Self::parse_failure(
            old(reader)@.rest(),
            old(reader)@.endian,
        );
        let ghost rest0 = old(reader)@.rest();
        let count = match reader.read_uleb128_u32() {
            Ok(v) => v,
            Err(e) => {
                return Err(e);
            },
        };
        let ghost k = reader@.pos - old(reader)@.pos;
        proof {
            crate::leb128::lemma_uleb_ok_len_shape(rest0, 5);
            crate::reader::lemma_skip_skip(old(reader)@.bytes, old(reader)@.pos as int, k);
            assert(reader@.rest() =~= rest0.skip(k));
        }
        let vt = match ValueType::read_from_byte_reader(reader) {
            Ok(v) => v,
            Err(e) => {
                return Err(e);
            },
        };
        Ok((count, vt))
    }
}

impl FromByteReader for (Vec<(u32, ValueType)>, Expr) {
    /// A code body: its byte size, the local declarations, then the body
    /// expression decoded from a copy of exactly the remaining bytes, so a
    /// malformed body cannot over-read into the next one. Bytes left after
    /// the expression's terminator are ignored.
    open spec fn parsed(bytes: Seq<u8>, e: Endian) -> Option<
        ((Seq<(u32, ValueType)>, Seq<Instructions>), int),
    > {
        match uleb_ok_len(bytes, 5) {
            None => None,
            Some(k) => {
                let size = uleb_value(bytes, k) % 0x1_0000_0000;
                match vec_parsed::<(u32, ValueType)>(bytes.skip(k), e) {
                    None => None,
                    Some((locals, m)) => {
                        if m <= size && bytes.len() >= k + size {
                            match crate::instructions::expr_parsed(
                                bytes.subrange(k + m, k + size),
                            ) {
                                None => None,
                                Some((body, _)) => Some(((locals, body), k + size)),
                            }
                        } else {
                            None
                        }
                    },
                }
            },
        }
    }

    open spec fn parse_failure(bytes: Seq<u8>, e: Endian) -> DecodeFailure {
        match uleb_ok_len(bytes, 5) {
            None => failure_of(uleb_fail(bytes, 5)),
            Some(k) => {
                let size = uleb_value(bytes, k) % 0x1_0000_0000;
                match vec_parsed::<(u32, ValueType)>(bytes.skip(k), e) {
                    None => vec_failure::<(u32, ValueType)>(bytes.skip(k), e),
                    Some((locals, m)) => {
                        if m > size {
                            DecodeFailure::InvalidTag
                        } else if bytes.len() < k + size {
                            DecodeFailure::OutOfBounds
                        } else {
                            crate::instructions::expr_failure(bytes.subrange(k + m, k + size))
                        }
                    },
                }
            },
        }
    }

    #[verifier::rlimit(100)]
    #[verifier::spinoff_prover]
    fn read_from_byte_reader(reader: &mut ByteReader) -> (r: Result<Self, ByteReaderError>) {
        // Naming the failure spec here lets its definition unfold at the
        // error exits below.
        let ghost expected_failure = Self::parse_failure(
            old(reader)@.rest(),
            old(reader)@.endian,
        );
        let ghost rest0 = old(reader)@.rest();
        let file_len = reader.get_file_length();
        let body_size = match reader.read_uleb128_u32() {
            Ok(v) => v,
            Err(e) => {
                return Err(e);
            },
        };
        let ghost k = reader@.pos - old(reader)@.pos;
        proof {
            crate::leb128::lemma_uleb_ok_len_shape(rest0, 5);
            crate::reader::lemma_skip_skip(old(reader)@.bytes, old(reader)@.pos as int, k);
            assert(reader@.rest() =~= rest0.skip(k));
        }
        let start = reader.get_current_offset();
        let ghost cur1 = reader@;
        let locals = match read_vec::<(u32, ValueType)>(reader) {
            Ok(v) => v,
            Err(e) => {
                return Err(e);
            },
        };
        let ghost m = reader@.pos - cur1.pos;
        proof {
            crate::reader::lemma_skip_skip(cur1.bytes, cur1.pos as int, m);
            assert(reader@.rest() =~= rest0.skip(k + m));
        }
        let bytes_end = match start.checked_add(body_size as usize) {
            Some(v) => v,
            None => {
                proof {
                    assert(old(reader)@.bytes.len() <= usize::MAX);
                    assert(rest0.len() < k + body_size);
                    assert(m <= rest0.len() - k);
                }
                return Err(ByteReaderError::OutOfBounds {
                    length: file_len,
                    start,
                    end: usize::MAX,
                });
            },
        };
        let cur = reader.get_current_offset();
        if cur > bytes_end {
            proof {
                assert(m > body_size as int);
            }
            return Err(ByteReaderError::InvalidSectionBody);
        }
        let code_bytes = match reader.read_bytes(bytes_end - cur) {
            Ok(v) => v,
            Err(e) => {
                proof {
                    assert(rest0.len() < k + body_size);
                }
                return Err(e);
            },
        };
        proof {
            assert(code_bytes@ =~= rest0.subrange(k + m, k + body_size));
        }
        let mut code_reader = ByteReader::from_vec(code_bytes.as_slice());
        proof {
            assert(code_reader@.rest() =~= code_bytes@);
        }
        let opcodes = match crate::instructions::read_expr(&mut code_reader) {
            Ok(v) => v,
            Err(e) => {
                return Err(e);
            },
        };
        Ok((locals, opcodes))
    }
}

} // verus!
