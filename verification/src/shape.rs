//! The shape descriptors, the value trees they describe, the
//! mathematical view of a value tree, and the conformance relation
//! between values and shapes.

use vstd::prelude::*;

verus! {

/// Why an encode or decode call failed.
///
/// `ShapeMismatch` is the only encode-time failure: the value handed in
/// does not structurally match the shape. The other three arise only
/// while decoding.
#[derive(Debug, Clone, Copy, PartialEq, Eq, Structural)]
pub enum Error {
    /// The value does not conform to the shape it was encoded under.
    ShapeMismatch,
    /// Fewer bytes remain than the shape requires.
    TruncatedInput,
    /// A boolean or optional tag byte is not 0 or 1, or an enum or
    /// union ordinal is not below the declared variant count.
    InvalidDiscriminant,
    /// Decoded text bytes are not valid UTF-8.
    InvalidEncoding,
}

/// A description of how a value's bytes are laid out.
///
/// A shape is decode-time knowledge, never part of the byte stream:
/// no shape encodes its own discriminant.
#[derive(Debug, PartialEq)]
pub enum Shape {
    /// Unsigned integer, 1 byte.
    U8,
    /// Unsigned integer, 2 bytes little-endian.
    U16,
    /// Unsigned integer, 4 bytes little-endian.
    U32,
    /// Unsigned integer, 8 bytes little-endian.
    U64,
    /// Unsigned integer, 16 bytes little-endian.
    U128,
    /// Two's-complement signed integer, 1 byte.
    I8,
    /// Two's-complement signed integer, 2 bytes little-endian.
    I16,
    /// Two's-complement signed integer, 4 bytes little-endian.
    I32,
    /// Two's-complement signed integer, 8 bytes little-endian.
    I64,
    /// Two's-complement signed integer, 16 bytes little-endian.
    I128,
    /// IEEE-754 single-precision bit pattern, 4 bytes little-endian.
    F32,
    /// IEEE-754 double-precision bit pattern, 8 bytes little-endian.
    F64,
    /// One byte: 0x00 = false, 0x01 = true; anything else is invalid.
    Bool,
    /// Zero bytes.
    Unit,
    /// Exactly N encodings of the element shape, concatenated, with no
    /// length prefix: the count is part of the shape.
    Array(usize, Box<Shape>),
    /// Each field's encoding in declared order, concatenated.
    Tuple(Vec<Shape>),
    /// One tag byte (0x00 = absent, 0x01 = present) followed, only if
    /// present, by the payload's encoding.
    Optional(Box<Shape>),
    /// A payload-free enum of K variants: the active variant's
    /// zero-based ordinal as an unsigned 32-bit little-endian integer.
    CEnum(u32),
    /// A tagged union: the active variant's ordinal as an unsigned
    /// 32-bit little-endian integer, then that variant's payload.
    Union(Vec<Shape>),
    /// An unsigned 64-bit little-endian byte-length prefix followed by
    /// that many raw UTF-8 bytes.
    Text,
}

/// A value tree, as built and returned by executable code. Its
/// mathematical view is [`Value::dv`]; which shapes it conforms to is
/// defined by [`conforms`] on that view. Floats are carried as their
/// IEEE-754 bit patterns so that the byte layout is exact.
#[derive(Debug, PartialEq)]
pub enum Value {
    U8(u8),
    U16(u16),
    U32(u32),
    U64(u64),
    U128(u128),
    I8(i8),
    I16(i16),
    I32(i32),
    I64(i64),
    I128(i128),
    /// The bit pattern of a single-precision float.
    F32Bits(u32),
    /// The bit pattern of a double-precision float.
    F64Bits(u64),
    Bool(bool),
    Unit,
    /// Elements of a fixed-size array, all of one shape.
    Array(Vec<Value>),
    /// Fields of a tuple, in declared order.
    Tuple(Vec<Value>),
    /// An absent optional.
    Absent,
    /// A present optional with its payload.
    Present(Box<Value>),
    /// The zero-based ordinal of a payload-free enum variant.
    Ordinal(u32),
    /// The zero-based ordinal of a union variant, with its payload.
    Variant(u32, Box<Value>),
    /// UTF-8 text as raw bytes (the byte length, not the character
    /// count, is what the wire format frames).
    Text(Vec<u8>),
}

/// The mathematical view of a [`Value`]: the same tree with sequences
/// in place of vectors. Specifications and laws are stated over this
/// type.
pub enum Val {
    U8(u8),
    U16(u16),
    U32(u32),
    U64(u64),
    U128(u128),
    I8(i8),
    I16(i16),
    I32(i32),
    I64(i64),
    I128(i128),
    F32Bits(u32),
    F64Bits(u64),
    Bool(bool),
    Unit,
    Array(Seq<Val>),
    Tuple(Seq<Val>),
    Absent,
    Present(Box<Val>),
    Ordinal(u32),
    Variant(u32, Box<Val>),
    Text(Seq<u8>),
}

impl Value {
    /// The deep view of this value: every vector of children replaced
    /// by the sequence of their views.
    pub open spec fn dv(self) -> Val
        decreases self, 0int,
    {
        match self {
            Value::U8(x) => Val::U8(x),
            Value::U16(x) => Val::U16(x),
            Value::U32(x) => Val::U32(x),
            Value::U64(x) => Val::U64(x),
            Value::U128(x) => Val::U128(x),
            Value::I8(x) => Val::I8(x),
            Value::I16(x) => Val::I16(x),
            Value::I32(x) => Val::I32(x),
            Value::I64(x) => Val::I64(x),
            Value::I128(x) => Val::I128(x),
            Value::F32Bits(x) => Val::F32Bits(x),
            Value::F64Bits(x) => Val::F64Bits(x),
            Value::Bool(b) => Val::Bool(b),
            Value::Unit => Val::Unit,
            Value::Array(vs) => Val::Array(dv_list(vs, 0)),
            Value::Tuple(vs) => Val::Tuple(dv_list(vs, 0)),
            Value::Absent => Val::Absent,
            Value::Present(p) => Val::Present(Box::new((*p).dv())),
            Value::Ordinal(ord) => Val::Ordinal(ord),
            Value::Variant(ord, p) => Val::Variant(ord, Box::new((*p).dv())),
            Value::Text(bytes) => Val::Text(bytes@),
        }
    }
}

/// The views of the elements of `vs` from index `i` on.
pub open spec fn dv_list(vs: Vec<Value>, i: int) -> Seq<Val>
    decreases vs, vs@.len() - i,
{
    if i < 0 || i >= vs@.len() {
        Seq::empty()
    } else {
        seq![vs[i].dv()] + dv_list(vs, i + 1)
    }
}

/// Whether value `v` structurally matches shape `s`: correct element
/// count and per-field shapes for arrays and tuples, ordinal below the
/// variant count, payload conforming to the active variant's shape,
/// and text bytes valid UTF-8.
pub open spec fn conforms(v: Val, s: Shape) -> bool
    decreases s, 1int, 0int,
{
    match s {
        Shape::U8 => v is U8,
        Shape::U16 => v is U16,
        Shape::U32 => v is U32,
        Shape::U64 => v is U64,
        Shape::U128 => v is U128,
        Shape::I8 => v is I8,
        Shape::I16 => v is I16,
        Shape::I32 => v is I32,
        Shape::I64 => v is I64,
        Shape::I128 => v is I128,
        Shape::F32 => v is F32Bits,
        Shape::F64 => v is F64Bits,
        Shape::Bool => v is Bool,
        Shape::Unit => v is Unit,
        Shape::Array(n, elem) => {
            &&& v matches Val::Array(vs)
            &&& vs.len() == n
            &&& conforms_elems(vs, *elem, 0)
        },
        Shape::Tuple(fields) => {
            &&& v matches Val::Tuple(vs)
            &&& vs.len() == fields@.len()
            &&& conforms_fields(vs, fields, 0)
        },
        Shape::Optional(inner) => match v {
            Val::Absent => true,
            Val::Present(p) => conforms(*p, *inner),
            _ => false,
        },
        Shape::CEnum(k) => {
            &&& v matches Val::Ordinal(ord)
            &&& ord < k
        },
        Shape::Union(variants) => {
            &&& v matches Val::Variant(ord, payload)
            &&& ord < variants@.len()
            &&& conforms_at(*payload, variants, ord as int)
        },
        Shape::Text => {
            &&& v matches Val::Text(bytes)
            &&& bytes.len() < crate::bytes::pow256(8)
            &&& crate::utf8::is_utf8(bytes)
        },
    }
}

/// `v` conforms to the shape at index `i` of `shapes`.
pub open spec fn conforms_at(v: Val, shapes: Vec<Shape>, i: int) -> bool
    decreases shapes, 0int, 0int,
{
    0 <= i < shapes@.len() && conforms(v, shapes[i])
}

/// All elements from index `i` on conform to the one element shape.
pub open spec fn conforms_elems(vs: Seq<Val>, elem: Shape, i: int) -> bool
    decreases elem, 2int, vs.len() - i,
{
    if i < 0 || i >= vs.len() {
        true
    } else {
        conforms(vs[i], elem) && conforms_elems(vs, elem, i + 1)
    }
}

/// All fields from index `i` on conform to their shapes, position by
/// position (callers separately require equal lengths).
pub open spec fn conforms_fields(vs: Seq<Val>, fields: Vec<Shape>, i: int) -> bool
    decreases fields, 2int, fields@.len() - i,
{
    if i < 0 || i >= fields@.len() {
        true
    } else {
        conforms(vs[i], fields[i]) && conforms_fields(vs, fields, i + 1)
    }
}

} // verus!
