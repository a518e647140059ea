//! Decoding: the spec-level decoder, which fixes the result — value,
//! count of consumed bytes, or error kind — for every shape, byte
//! sequence and position, and the verified executable decoder.

use crate::bytes::{i128_of_lane, le_val, lemma_pow256_vals, pow256, read_le, signed_val,
    small_of_lane};
use crate::shape::{dv_list, Error, Shape, Val, Value};
use crate::utf8::{check_utf8, is_utf8};
use vstd::prelude::*;

verus! {

/// `n` more bytes are available at `pos`.
pub open spec fn have(bytes: Seq<u8>, pos: int, n: int) -> bool {
    0 <= pos && pos + n <= bytes.len()
}

/// The value of the `n` little-endian bytes at `pos`.
pub open spec fn raw(bytes: Seq<u8>, pos: int, n: int) -> nat {
    le_val(bytes.subrange(pos, pos + n))
}

/// What decoding shape `s` from `bytes` at `pos` yields: the decoded
/// value and the exact count of consumed bytes, or the error kind.
pub open spec fn spec_decode(s: Shape, bytes: Seq<u8>, pos: int) -> Result<(Val, int), Error>
    decreases s, 1int, 0int,
{
    match s {
        Shape::U8 => if have(bytes, pos, 1) {
            Ok((Val::U8(raw(bytes, pos, 1) as u8), 1))
        } else {
            Err(Error::TruncatedInput)
        },
        Shape::U16 => if have(bytes, pos, 2) {
            Ok((Val::U16(raw(bytes, pos, 2) as u16), 2))
        } else {
            Err(Error::TruncatedInput)
        },
        Shape::U32 => if have(bytes, pos, 4) {
            Ok((Val::U32(raw(bytes, pos, 4) as u32), 4))
        } else {
            Err(Error::TruncatedInput)
        },
        Shape::U64 => if have(bytes, pos, 8) {
            Ok((Val::U64(raw(bytes, pos, 8) as u64), 8))
        } else {
            Err(Error::TruncatedInput)
        },
        Shape::U128 => if have(bytes, pos, 16) {
            Ok((Val::U128(raw(bytes, pos, 16) as u128), 16))
        } else {
            Err(Error::TruncatedInput)
        },
        Shape::I8 => if have(bytes, pos, 1) {
            Ok((Val::I8(signed_val(raw(bytes, pos, 1), 1) as i8), 1))
        } else {
            Err(Error::TruncatedInput)
        },
        Shape::I16 => if have(bytes, pos, 2) {
            Ok((Val::I16(signed_val(raw(bytes, pos, 2), 2) as i16), 2))
        } else {
            Err(Error::TruncatedInput)
        },
        Shape::I32 => if have(bytes, pos, 4) {
            Ok((Val::I32(signed_val(raw(bytes, pos, 4), 4) as i32), 4))
        } else {
            Err(Error::TruncatedInput)
        },
        Shape::I64 => if have(bytes, pos, 8) {
            Ok((Val::I64(signed_val(raw(bytes, pos, 8), 8) as i64), 8))
        } else {
            Err(Error::TruncatedInput)
        },
        Shape::I128 => if have(bytes, pos, 16) {
            Ok((Val::I128(signed_val(raw(bytes, pos, 16), 16) as i128), 16))
        } else {
            Err(Error::TruncatedInput)
        },
        Shape::F32 => if have(bytes, pos, 4) {
            Ok((Val::F32Bits(raw(bytes, pos, 4) as u32), 4))
        } else {
            Err(Error::TruncatedInput)
        },
        Shape::F64 => if have(bytes, pos, 8) {
            Ok((Val::F64Bits(raw(bytes, pos, 8) as u64), 8))
        } else {
            Err(Error::TruncatedInput)
        },
        Shape::Bool => if have(bytes, pos, 1) {
            if bytes[pos] == 0 {
                Ok((Val::Bool(false), 1))
            } else if bytes[pos] == 1 {
                Ok((Val::Bool(true), 1))
            } else {
                Err(Error::InvalidDiscriminant)
            }
        } else {
            Err(Error::TruncatedInput)
        },
        Shape::Unit => Ok((Val::Unit, 0)),
        Shape::Array(n, elem) => match dec_elems(*elem, n as int, bytes, pos) {
            Ok((vs, c)) => Ok((Val::Array(vs), c)),
            Err(e) => Err(e),
        },
        Shape::Tuple(fields) => match dec_fields(fields, 0, bytes, pos) {
            Ok((vs, c)) => Ok((Val::Tuple(vs), c)),
            Err(e) => Err(e),
        },
        Shape::Optional(inner) => if have(bytes, pos, 1) {
            if bytes[pos] == 0 {
                Ok((Val::Absent, 1))
            } else if bytes[pos] == 1 {
                match spec_decode(*inner, bytes, pos + 1) {
                    Ok((v, c)) => Ok((Val::Present(Box::new(v)), 1 + c)),
                    Err(e) => Err(e),
                }
            } else {
                Err(Error::InvalidDiscriminant)
            }
        } else {
            Err(Error::TruncatedInput)
        },
        Shape::CEnum(k) => if have(bytes, pos, 4) {
            if raw(bytes, pos, 4) < k {
                Ok((Val::Ordinal(raw(bytes, pos, 4) as u32), 4))
            } else {
                Err(Error::InvalidDiscriminant)
            }
        } else {
            Err(Error::TruncatedInput)
        },
        Shape::Union(variants) => if have(bytes, pos, 4) {
            if raw(bytes, pos, 4) < variants@.len() {
                match dec_at(variants, raw(bytes, pos, 4) as int, bytes, pos + 4) {
                    Ok((v, c)) => Ok((Val::Variant(raw(bytes, pos, 4) as u32, Box::new(v)), 4 + c)),
                    Err(e) => Err(e),
                }
            } else {
                Err(Error::InvalidDiscriminant)
            }
        } else {
            Err(Error::TruncatedInput)
        },
        Shape::Text => if have(bytes, pos, 8) {
            if pos + 8 + raw(bytes, pos, 8) <= bytes.len() {
                if is_utf8(bytes.subrange(pos + 8, pos + 8 + raw(bytes, pos, 8))) {
                    Ok(
                        (
                            Val::Text(bytes.subrange(pos + 8, pos + 8 + raw(bytes, pos, 8))),
                            8 + raw(bytes, pos, 8) as int,
                        ),
                    )
                } else {
                    Err(Error::InvalidEncoding)
                }
            } else {
                Err(Error::TruncatedInput)
            }
        } else {
            Err(Error::TruncatedInput)
        },
    }
}

/// Decoding under the shape at index `i` of `shapes`.
pub open spec fn dec_at(shapes: Vec<Shape>, i: int, bytes: Seq<u8>, pos: int) -> Result<
    (Val, int),
    Error,
>
    decreases shapes, 0int, 0int,
{
    if 0 <= i < shapes@.len() {
        spec_decode(shapes[i], bytes, pos)
    } else {
        Err(Error::InvalidDiscriminant)
    }
}

/// Decoding `count` consecutive values of the one element shape.
pub open spec fn dec_elems(elem: Shape, count: int, bytes: Seq<u8>, pos: int) -> Result<
    (Seq<Val>, int),
    Error,
>
    decreases elem, 2int, count,
{
    if count <= 0 {
        Ok((Seq::empty(), 0))
    } else {
        match spec_decode(elem, bytes, pos) {
            Err(e) => Err(e),
            Ok((v, c)) => match dec_elems(elem, count - 1, bytes, pos + c) {
                Err(e) => Err(e),
                Ok((vs, c2)) => Ok((seq![v] + vs, c + c2)),
            },
        }
    }
}

/// Decoding the fields from index `i` on, each under its own shape.
pub open spec fn dec_fields(fields: Vec<Shape>, i: int, bytes: Seq<u8>, pos: int) -> Result<
    (Seq<Val>, int),
    Error,
>
    decreases fields, 2int, fields@.len() - i,
{
    if i < 0 || i >= fields@.len() {
        Ok((Seq::empty(), 0))
    } else {
        match spec_decode(fields[i], bytes, pos) {
            Err(e) => Err(e),
            Ok((v, c)) => match dec_fields(fields, i + 1, bytes, pos + c) {
                Err(e) => Err(e),
                Ok((vs, c2)) => Ok((seq![v] + vs, c + c2)),
            },
        }
    }
}

/// The executable decoder's result, seen at the spec level.
pub open spec fn as_spec_res(r: Result<(Value, usize), Error>) -> Result<(Val, int), Error> {
    match r {
        Ok(p) => Ok((p.0.dv(), p.1 as int)),
        Err(e) => Err(e),
    }
}

/// An executable element-list result, seen at the spec level.
pub open spec fn as_spec_list_res(r: Result<(Vec<Value>, usize), Error>) -> Result<
    (Seq<Val>, int),
    Error,
> {
    match r {
        Ok(p) => Ok((dv_list(p.0, 0), p.1 as int)),
        Err(e) => Err(e),
    }
}

fn copy_range(bytes: &Vec<u8>, start: usize, count: usize) -> (r: Vec<u8>)
    requires
        start + count <= bytes@.len(),
    ensures
        r@ == bytes@.subrange(start as int, start + count),
{
    let total = bytes.len();
    let mut out: Vec<u8> = Vec::new();
    let mut i: usize = 0;
    while i < count
        invariant
            i <= count,
            start + count <= total,
            total == bytes@.len(),
            out@ == bytes@.subrange(start as int, start + i),
        decreases count - i,
    {
        out.push(bytes[start + i]);
        i = i + 1;
        proof {
            assert(out@ =~= bytes@.subrange(start as int, start + i));
        }
    }
    out
}

/// Decodes shape `s` at `pos`, consuming exactly the bytes the shape
/// requires.
#[verifier::rlimit(60)]
pub fn decode_from(s: &Shape, bytes: &Vec<u8>, pos: usize) -> (r: Result<(Value, usize), Error>)
    requires
        pos <= bytes@.len(),
    ensures
        as_spec_res(r) == spec_decode(*s, bytes@, pos as int),
        r matches Ok(p) ==> pos + p.1 <= bytes@.len(),
    decreases *s, 1int, 0int,
{
    proof {
        lemma_pow256_vals();
    }
    let rem = bytes.len() - pos;
    match s {
        Shape::U8 => if rem >= 1 {
            let lane = read_le(bytes, pos, 1);
            Ok((Value::U8(lane as u8), 1))
        } else {
            Err(Error::TruncatedInput)
        },
        Shape::U16 => if rem >= 2 {
            let lane = read_le(bytes, pos, 2);
            Ok((Value::U16(lane as u16), 2))
        } else {
            Err(Error::TruncatedInput)
        },
        Shape::U32 => if rem >= 4 {
            let lane = read_le(bytes, pos, 4);
            Ok((Value::U32(lane as u32), 4))
        } else {
            Err(Error::TruncatedInput)
        },
        Shape::U64 => if rem >= 8 {
            let lane = read_le(bytes, pos, 8);
            Ok((Value::U64(lane as u64), 8))
        } else {
            Err(Error::TruncatedInput)
        },
        Shape::U128 => if rem >= 16 {
            let lane = read_le(bytes, pos, 16);
            Ok((Value::U128(lane), 16))
        } else {
            Err(Error::TruncatedInput)
        },
        Shape::I8 => if rem >= 1 {
            let lane = read_le(bytes, pos, 1);
            Ok((Value::I8(small_of_lane(lane, 0x100) as i8), 1))
        } else {
            Err(Error::TruncatedInput)
        },
        Shape::I16 => if rem >= 2 {
            let lane = read_le(bytes, pos, 2);
            Ok((Value::I16(small_of_lane(lane, 0x10000) as i16), 2))
        } else {
            Err(Error::TruncatedInput)
        },
        Shape::I32 => if rem >= 4 {
            let lane = read_le(bytes, pos, 4);
            Ok((Value::I32(small_of_lane(lane, 0x1_0000_0000) as i32), 4))
        } else {
            Err(Error::TruncatedInput)
        },
        Shape::I64 => if rem >= 8 {
            let lane = read_le(bytes, pos, 8);
            Ok((Value::I64(small_of_lane(lane, 0x1_0000_0000_0000_0000) as i64), 8))
        } else {
            Err(Error::TruncatedInput)
        },
        Shape::I128 => if rem >= 16 {
            let lane = read_le(bytes, pos, 16);
            Ok((Value::I128(i128_of_lane(lane)), 16))
        } else {
            Err(Error::TruncatedInput)
        },
        Shape::F32 => if rem >= 4 {
            let lane = read_le(bytes, pos, 4);
            Ok((Value::F32Bits(lane as u32), 4))
        } else {
            Err(Error::TruncatedInput)
        },
        Shape::F64 => if rem >= 8 {
            let lane = read_le(bytes, pos, 8);
            Ok((Value::F64Bits(lane as u64), 8))
        } else {
            Err(Error::TruncatedInput)
        },
        Shape::Bool => if rem >= 1 {
            let b = bytes[pos];
            if b == 0 {
                Ok((Value::Bool(false), 1))
            } else if b == 1 {
                Ok((Value::Bool(true), 1))
            } else {
                Err(Error::InvalidDiscriminant)
            }
        } else {
            Err(Error::TruncatedInput)
        },
        Shape::Unit => Ok((Value::Unit, 0)),
        Shape::Array(n, elem) => match dec_elems_exec(elem, *n, bytes, pos) {
            Ok((vs, c)) => Ok((Value::Array(vs), c)),
            Err(e) => Err(e),
        },
        Shape::Tuple(fields) => match dec_fields_exec(fields, 0, bytes, pos) {
            Ok((vs, c)) => Ok((Value::Tuple(vs), c)),
            Err(e) => Err(e),
        },
        Shape::Optional(inner) => if rem >= 1 {
            let b = bytes[pos];
            if b == 0 {
                Ok((Value::Absent, 1))
            } else if b == 1 {
                match decode_from(inner, bytes, pos + 1) {
                    Ok((v, c)) => Ok((Value::Present(Box::new(v)), 1 + c)),
                    Err(e) => Err(e),
                }
            } else {
                Err(Error::InvalidDiscriminant)
            }
        } else {
            Err(Error::TruncatedInput)
        },
        Shape::CEnum(k) => if rem >= 4 {
            let lane = read_le(bytes, pos, 4);
            if lane < *k as u128 {
                Ok((Value::Ordinal(lane as u32), 4))
            } else {
                Err(Error::InvalidDiscriminant)
            }
        } else {
            Err(Error::TruncatedInput)
        },
        Shape::Union(variants) => if rem >= 4 {
            let lane = read_le(bytes, pos, 4);
            if lane < variants.len() as u128 {
                match dec_at_exec(variants, lane as usize, bytes, pos + 4) {
                    Ok((v, c)) => Ok((Value::Variant(lane as u32, Box::new(v)), 4 + c)),
                    Err(e) => Err(e),
                }
            } else {
                Err(Error::InvalidDiscriminant)
            }
        } else {
            Err(Error::TruncatedInput)
        },
        Shape::Text => if rem >= 8 {
            let lane = read_le(bytes, pos, 8);
            if lane <= (rem - 8) as u128 {
                let l = lane as usize;
                let data = copy_range(bytes, pos + 8, l);
                if check_utf8(&data) {
                    Ok((Value::Text(data), 8 + l))
                } else {
                    Err(Error::InvalidEncoding)
                }
            } else {
                Err(Error::TruncatedInput)
            }
        } else {
            Err(Error::TruncatedInput)
        },
    }
}

fn dec_at_exec(shapes: &Vec<Shape>, i: usize, bytes: &Vec<u8>, pos: usize) -> (r: Result<
    (Value, usize),
    Error,
>)
    requires
        i < shapes@.len(),
        pos <= bytes@.len(),
    ensures
        as_spec_res(r) == dec_at(*shapes, i as int, bytes@, pos as int),
        r matches Ok(p) ==> pos + p.1 <= bytes@.len(),
    decreases *shapes, 0int, 0int,
{
    decode_from(&shapes[i], bytes, pos)
}

fn dec_elems_exec(elem: &Shape, count: usize, bytes: &Vec<u8>, pos: usize) -> (r: Result<
    (Vec<Value>, usize),
    Error,
>)
    requires
        pos <= bytes@.len(),
    ensures
        as_spec_list_res(r) == dec_elems(*elem, count as int, bytes@, pos as int),
        r matches Ok(p) ==> pos + p.1 <= bytes@.len(),
    decreases *elem, 2int, count,
{
    let total = bytes.len();
    if count == 0 {
        let out: Vec<Value> = Vec::new();
        Ok((out, 0))
    } else {
        match decode_from(elem, bytes, pos) {
            Err(e) => Err(e),
            Ok((v, c)) => match dec_elems_exec(elem, count - 1, bytes, pos + c) {
                Err(e) => Err(e),
                Ok((vs, c2)) => {
                    let ghost tail = vs;
                    let mut vs = vs;
                    vs.insert(0, v);
                    proof {
                        assert(vs@ =~= seq![v] + tail@);
                        lemma_dv_cons(v, tail, vs);
                    }
                    Ok((vs, c + c2))
                },
            },
        }
    }
}

fn dec_fields_exec(fields: &Vec<Shape>, i: usize, bytes: &Vec<u8>, pos: usize) -> (r: Result<
    (Vec<Value>, usize),
    Error,
>)
    requires
        i <= fields@.len(),
        pos <= bytes@.len(),
    ensures
        as_spec_list_res(r) == dec_fields(*fields, i as int, bytes@, pos as int),
        r matches Ok(p) ==> pos + p.1 <= bytes@.len(),
    decreases *fields, 2int, fields@.len() - i,
{
    let total = bytes.len();
    if i == fields.len() {
        let out: Vec<Value> = Vec::new();
        Ok((out, 0))
    } else {
        match decode_from(&fields[i], bytes, pos) {
            Err(e) => Err(e),
            Ok((v, c)) => match dec_fields_exec(fields, i + 1, bytes, pos + c) {
                Err(e) => Err(e),
                Ok((vs, c2)) => {
                    let ghost tail = vs;
                    let mut vs = vs;
                    vs.insert(0, v);
                    proof {
                        assert(vs@ =~= seq![v] + tail@);
                        lemma_dv_cons(v, tail, vs);
                    }
                    Ok((vs, c + c2))
                },
            },
        }
    }
}

/// Inserting `v` at the front of `tail` prepends its view to the
/// view list.
proof fn lemma_dv_cons(v: Value, tail: Vec<Value>, whole: Vec<Value>)
    requires
        whole@ == seq![v] + tail@,
    ensures
        dv_list(whole, 0) == seq![v.dv()] + dv_list(tail, 0),
{
    crate::encode::lemma_dv_list(whole, 0);
    crate::encode::lemma_dv_list(tail, 0);
    assert(dv_list(whole, 0) =~= seq![v.dv()] + dv_list(tail, 0));
}

/// Decodes shape `s` from the front of `bytes`: the value and the
/// count of consumed bytes, or the error kind fixed by
/// [`spec_decode`]. Trailing bytes beyond the shape's encoding are
/// the caller's concern, not an error.
pub fn decode(s: &Shape, bytes: &Vec<u8>) -> (r: Result<(Value, usize), Error>)
    ensures
        as_spec_res(r) == spec_decode(*s, bytes@, 0),
        r matches Ok(p) ==> p.1 <= bytes@.len(),
{
    decode_from(s, bytes, 0)
}

} // verus!
