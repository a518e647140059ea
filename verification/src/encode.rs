//! Encoding: the spec-level encoding function, the verified encoder,
//! and the conformance checker that guards it.

use crate::bytes::{
    lane_of_i128, lane_of_small, le_bytes, lemma_pow256_vals, pow256, push_le, signed_rep,
};
use crate::shape::{conforms, conforms_at, conforms_elems, conforms_fields, dv_list};
use crate::shape::{Error, Shape, Val, Value};
use crate::utf8::check_utf8;
use vstd::prelude::*;

verus! {

/// The canonical byte sequence for `v` under shape `s`. Meaningful
/// only when `conforms(v, s)`; on any other pair the result is some
/// byte sequence with no promised relation to the inputs.
pub open spec fn spec_encode(v: Val, s: Shape) -> Seq<u8>
    decreases s, 1int, 0int,
{
    match s {
        Shape::U8 => match v {
            Val::U8(x) => le_bytes(x as nat, 1),
            _ => Seq::empty(),
        },
        Shape::U16 => match v {
            Val::U16(x) => le_bytes(x as nat, 2),
            _ => Seq::empty(),
        },
        Shape::U32 => match v {
            Val::U32(x) => le_bytes(x as nat, 4),
            _ => Seq::empty(),
        },
        Shape::U64 => match v {
            Val::U64(x) => le_bytes(x as nat, 8),
            _ => Seq::empty(),
        },
        Shape::U128 => match v {
            Val::U128(x) => le_bytes(x as nat, 16),
            _ => Seq::empty(),
        },
        Shape::I8 => match v {
            Val::I8(x) => le_bytes(signed_rep(x as int, 1), 1),
            _ => Seq::empty(),
        },
        Shape::I16 => match v {
            Val::I16(x) => le_bytes(signed_rep(x as int, 2), 2),
            _ => Seq::empty(),
        },
        Shape::I32 => match v {
            Val::I32(x) => le_bytes(signed_rep(x as int, 4), 4),
            _ => Seq::empty(),
        },
        Shape::I64 => match v {
            Val::I64(x) => le_bytes(signed_rep(x as int, 8), 8),
            _ => Seq::empty(),
        },
        Shape::I128 => match v {
            Val::I128(x) => le_bytes(signed_rep(x as int, 16), 16),
            _ => Seq::empty(),
        },
        Shape::F32 => match v {
            Val::F32Bits(x) => le_bytes(x as nat, 4),
            _ => Seq::empty(),
        },
        Shape::F64 => match v {
            Val::F64Bits(x) => le_bytes(x as nat, 8),
            _ => Seq::empty(),
        },
        Shape::Bool => match v {
            Val::Bool(b) => if b {
                seq![1u8]
            } else {
                seq![0u8]
            },
            _ => Seq::empty(),
        },
        Shape::Unit => Seq::empty(),
        Shape::Array(n, elem) => match v {
            Val::Array(vs) => encode_elems(vs, *elem, 0),
            _ => Seq::empty(),
        },
        Shape::Tuple(fields) => match v {
            Val::Tuple(vs) => encode_fields(vs, fields, 0),
            _ => Seq::empty(),
        },
        Shape::Optional(inner) => match v {
            Val::Absent => seq![0u8],
            Val::Present(p) => seq![1u8] + spec_encode(*p, *inner),
            _ => Seq::empty(),
        },
        Shape::CEnum(k) => match v {
            Val::Ordinal(ord) => le_bytes(ord as nat, 4),
            _ => Seq::empty(),
        },
        Shape::Union(variants) => match v {
            Val::Variant(ord, payload) => le_bytes(ord as nat, 4) + encode_at(
                *payload,
                variants,
                ord as int,
            ),
            _ => Seq::empty(),
        },
        Shape::Text => match v {
            Val::Text(bytes) => le_bytes(bytes.len(), 8) + bytes,
            _ => Seq::empty(),
        },
    }
}

/// The encoding of `v` under the shape at index `i` of `shapes`.
pub open spec fn encode_at(v: Val, shapes: Vec<Shape>, i: int) -> Seq<u8>
    decreases shapes, 0int, 0int,
{
    if 0 <= i < shapes@.len() {
        spec_encode(v, shapes[i])
    } else {
        Seq::empty()
    }
}

/// The concatenated encodings of the elements from index `i` on, all
/// under the one element shape.
pub open spec fn encode_elems(vs: Seq<Val>, elem: Shape, i: int) -> Seq<u8>
    decreases elem, 2int, vs.len() - i,
{
    if i < 0 || i >= vs.len() {
        Seq::empty()
    } else {
        spec_encode(vs[i], elem) + encode_elems(vs, elem, i + 1)
    }
}

/// The concatenated encodings of the fields from index `i` on, each
/// under its own shape.
pub open spec fn encode_fields(vs: Seq<Val>, fields: Vec<Shape>, i: int) -> Seq<u8>
    decreases fields, 2int, fields@.len() - i,
{
    if i < 0 || i >= fields@.len() {
        Seq::empty()
    } else {
        spec_encode(vs[i], fields[i]) + encode_fields(vs, fields, i + 1)
    }
}

/// `dv_list` keeps lengths and maps elements one for one.
pub proof fn lemma_dv_list(vs: Vec<Value>, i: int)
    requires
        0 <= i <= vs@.len(),
    ensures
        dv_list(vs, i).len() == vs@.len() - i,
        forall|j: int|
            0 <= j < vs@.len() - i ==> dv_list(vs, i)[j] == vs@[i + j].dv(),
    decreases vs@.len() - i,
{
    if i < vs@.len() {
        lemma_dv_list(vs, i + 1);
        assert forall|j: int| 0 <= j < vs@.len() - i implies dv_list(vs, i)[j] == vs@[i + j].dv()
        by {
            if j > 0 {
                assert(dv_list(vs, i)[j] == dv_list(vs, i + 1)[j - 1]);
            }
        }
    }
}

/// Whether `v` conforms to `s`, decided executably.
pub fn conforms_exec(v: &Value, s: &Shape) -> (r: bool)
    ensures
        r == conforms(v.dv(), *s),
    decreases *s, 1int, 0int,
{
    match s {
        Shape::U8 => matches!(v, Value::U8(_)),
        Shape::U16 => matches!(v, Value::U16(_)),
        Shape::U32 => matches!(v, Value::U32(_)),
        Shape::U64 => matches!(v, Value::U64(_)),
        Shape::U128 => matches!(v, Value::U128(_)),
        Shape::I8 => matches!(v, Value::I8(_)),
        Shape::I16 => matches!(v, Value::I16(_)),
        Shape::I32 => matches!(v, Value::I32(_)),
        Shape::I64 => matches!(v, Value::I64(_)),
        Shape::I128 => matches!(v, Value::I128(_)),
        Shape::F32 => matches!(v, Value::F32Bits(_)),
        Shape::F64 => matches!(v, Value::F64Bits(_)),
        Shape::Bool => matches!(v, Value::Bool(_)),
        Shape::Unit => matches!(v, Value::Unit),
        Shape::Array(n, elem) => match v {
            Value::Array(vs) => {
                proof {
                    lemma_dv_list(*vs, 0);
                }
                vs.len() == *n && conforms_elems_exec(vs, elem, 0)
            },
            _ => false,
        },
        Shape::Tuple(fields) => match v {
            Value::Tuple(vs) => {
                proof {
                    lemma_dv_list(*vs, 0);
                }
                vs.len() == fields.len() && conforms_fields_exec(vs, fields, 0)
            },
            _ => false,
        },
        Shape::Optional(inner) => match v {
            Value::Absent => true,
            Value::Present(p) => conforms_exec(p, inner),
            _ => false,
        },
        Shape::CEnum(k) => match v {
            Value::Ordinal(ord) => *ord < *k,
            _ => false,
        },
        Shape::Union(variants) => match v {
            Value::Variant(ord, payload) => (*ord as usize) < variants.len() && conforms_at_exec(
                payload,
                variants,
                *ord as usize,
            ),
            _ => false,
        },
        Shape::Text => match v {
            Value::Text(bytes) => {
                let l = bytes.len();
                proof {
                    lemma_pow256_vals();
                    assert(l <= usize::MAX);
                    assert((l as nat) < pow256(8));
                }
                check_utf8(bytes)
            },
            _ => false,
        },
    }
}

fn conforms_at_exec(v: &Value, shapes: &Vec<Shape>, i: usize) -> (r: bool)
    requires
        i < shapes@.len(),
    ensures
        r == conforms_at(v.dv(), *shapes, i as int),
    decreases *shapes, 0int, 0int,
{
    conforms_exec(v, &shapes[i])
}

fn conforms_elems_exec(vs: &Vec<Value>, elem: &Shape, i: usize) -> (r: bool)
    requires
        i <= vs@.len(),
    ensures
        r == conforms_elems(dv_list(*vs, 0), *elem, i as int),
    decreases *elem, 2int, vs@.len() - i,
{
    proof {
        lemma_dv_list(*vs, 0);
    }
    if i == vs.len() {
        true
    } else {
        conforms_exec(&vs[i], elem) && conforms_elems_exec(vs, elem, i + 1)
    }
}

fn conforms_fields_exec(vs: &Vec<Value>, fields: &Vec<Shape>, i: usize) -> (r: bool)
    requires
        i <= fields@.len(),
        vs@.len() == fields@.len(),
    ensures
        r == conforms_fields(dv_list(*vs, 0), *fields, i as int),
    decreases *fields, 2int, fields@.len() - i,
{
    proof {
        lemma_dv_list(*vs, 0);
    }
    if i == fields.len() {
        true
    } else {
        conforms_exec(&vs[i], &fields[i]) && conforms_fields_exec(vs, fields, i + 1)
    }
}

/// Appends the encoding of `v` under `s` to `out`.
pub fn encode_into(v: &Value, s: &Shape, out: &mut Vec<u8>)
    requires
        conforms(v.dv(), *s),
    ensures
        final(out)@ == old(out)@ + spec_encode(v.dv(), *s),
    decreases *s, 1int, 0int,
{
    proof {
        lemma_pow256_vals();
    }
    match s {
        Shape::U8 => match v {
            Value::U8(x) => push_le(out, *x as u128, 1),
            _ => assert(false),
        },
        Shape::U16 => match v {
            Value::U16(x) => push_le(out, *x as u128, 2),
            _ => assert(false),
        },
        Shape::U32 => match v {
            Value::U32(x) => push_le(out, *x as u128, 4),
            _ => assert(false),
        },
        Shape::U64 => match v {
            Value::U64(x) => push_le(out, *x as u128, 8),
            _ => assert(false),
        },
        Shape::U128 => match v {
            Value::U128(x) => push_le(out, *x, 16),
            _ => assert(false),
        },
        Shape::I8 => match v {
            Value::I8(x) => push_le(out, lane_of_small(*x as i128, 0x100), 1),
            _ => assert(false),
        },
        Shape::I16 => match v {
            Value::I16(x) => push_le(out, lane_of_small(*x as i128, 0x10000), 2),
            _ => assert(false),
        },
        Shape::I32 => match v {
            Value::I32(x) => push_le(out, lane_of_small(*x as i128, 0x1_0000_0000), 4),
            _ => assert(false),
        },
        Shape::I64 => match v {
            Value::I64(x) => push_le(out, lane_of_small(*x as i128, 0x1_0000_0000_0000_0000), 8),
            _ => assert(false),
        },
        Shape::I128 => match v {
            Value::I128(x) => push_le(out, lane_of_i128(*x), 16),
            _ => assert(false),
        },
        Shape::F32 => match v {
            Value::F32Bits(x) => push_le(out, *x as u128, 4),
            _ => assert(false),
        },
        Shape::F64 => match v {
            Value::F64Bits(x) => push_le(out, *x as u128, 8),
            _ => assert(false),
        },
        Shape::Bool => match v {
            Value::Bool(b) => {
                out.push(if *b {
                    1
                } else {
                    0
                });
                proof {
                    assert(out@ =~= old(out)@ + spec_encode(v.dv(), *s));
                }
            },
            _ => assert(false),
        },
        Shape::Unit => match v {
            Value::Unit => {
                proof {
                    assert(out@ =~= old(out)@ + spec_encode(v.dv(), *s));
                }
            },
            _ => assert(false),
        },
        Shape::Array(n, elem) => match v {
            Value::Array(vs) => {
                proof {
                    lemma_dv_list(*vs, 0);
                }
                encode_elems_into(vs, elem, 0, out);
            },
            _ => assert(false),
        },
        Shape::Tuple(fields) => match v {
            Value::Tuple(vs) => {
                proof {
                    lemma_dv_list(*vs, 0);
                }
                encode_fields_into(vs, fields, 0, out);
            },
            _ => assert(false),
        },
        Shape::Optional(inner) => match v {
            Value::Absent => {
                out.push(0);
                proof {
                    assert(out@ =~= old(out)@ + spec_encode(v.dv(), *s));
                }
            },
            Value::Present(p) => {
                out.push(1);
                encode_into(p, inner, out);
                proof {
                    assert(out@ =~= old(out)@ + spec_encode(v.dv(), *s));
                }
            },
            _ => assert(false),
        },
        Shape::CEnum(k) => match v {
            Value::Ordinal(ord) => push_le(out, *ord as u128, 4),
            _ => assert(false),
        },
        Shape::Union(variants) => match v {
            Value::Variant(ord, payload) => {
                push_le(out, *ord as u128, 4);
                encode_at_into(payload, variants, *ord as usize, out);
                proof {
                    assert(out@ =~= old(out)@ + spec_encode(v.dv(), *s));
                }
            },
            _ => assert(false),
        },
        Shape::Text => match v {
            Value::Text(bytes) => {
                push_le(out, bytes.len() as u128, 8);
                append_bytes(out, bytes);
                proof {
                    assert(out@ =~= old(out)@ + spec_encode(v.dv(), *s));
                }
            },
            _ => assert(false),
        },
    }
}

fn encode_at_into(v: &Value, shapes: &Vec<Shape>, i: usize, out: &mut Vec<u8>)
    requires
        i < shapes@.len(),
        conforms_at(v.dv(), *shapes, i as int),
    ensures
        final(out)@ == old(out)@ + encode_at(v.dv(), *shapes, i as int),
    decreases *shapes, 0int, 0int,
{
    encode_into(v, &shapes[i], out);
}

fn encode_elems_into(vs: &Vec<Value>, elem: &Shape, i: usize, out: &mut Vec<u8>)
    requires
        i <= vs@.len(),
        conforms_elems(dv_list(*vs, 0), *elem, i as int),
    ensures
        final(out)@ == old(out)@ + encode_elems(dv_list(*vs, 0), *elem, i as int),
    decreases *elem, 2int, vs@.len() - i,
{
    proof {
        lemma_dv_list(*vs, 0);
    }
    if i < vs.len() {
        encode_into(&vs[i], elem, out);
        encode_elems_into(vs, elem, i + 1, out);
        proof {
            assert(out@ =~= old(out)@ + encode_elems(dv_list(*vs, 0), *elem, i as int));
        }
    } else {
        proof {
            assert(out@ =~= old(out)@ + encode_elems(dv_list(*vs, 0), *elem, i as int));
        }
    }
}

fn encode_fields_into(vs: &Vec<Value>, fields: &Vec<Shape>, i: usize, out: &mut Vec<u8>)
    requires
        i <= fields@.len(),
        vs@.len() == fields@.len(),
        conforms_fields(dv_list(*vs, 0), *fields, i as int),
    ensures
        final(out)@ == old(out)@ + encode_fields(dv_list(*vs, 0), *fields, i as int),
    decreases *fields, 2int, fields@.len() - i,
{
    proof {
        lemma_dv_list(*vs, 0);
    }
    if i < fields.len() {
        encode_into(&vs[i], &fields[i], out);
        encode_fields_into(vs, fields, i + 1, out);
        proof {
            assert(out@ =~= old(out)@ + encode_fields(dv_list(*vs, 0), *fields, i as int));
        }
    } else {
        proof {
            assert(out@ =~= old(out)@ + encode_fields(dv_list(*vs, 0), *fields, i as int));
        }
    }
}

fn append_bytes(out: &mut Vec<u8>, bytes: &Vec<u8>)
    ensures
        final(out)@ == old(out)@ + bytes@,
{
    let mut i: usize = 0;
    while i < bytes.len()
        invariant
            i <= bytes@.len(),
            out@ == old(out)@ + bytes@.subrange(0, i as int),
        decreases bytes@.len() - i,
    {
        out.push(bytes[i]);
        i = i + 1;
        proof {
            assert(out@ =~= old(out)@ + bytes@.subrange(0, i as int));
        }
    }
    proof {
        assert(bytes@.subrange(0, bytes@.len() as int) =~= bytes@);
    }
}

/// Encodes `v` under shape `s`: the canonical byte sequence when the
/// value conforms to the shape, and `ShapeMismatch` otherwise.
pub fn encode(s: &Shape, v: &Value) -> (r: Result<Vec<u8>, Error>)
    ensures
        conforms(v.dv(), *s) ==> (r matches Ok(b) && b@ == spec_encode(v.dv(), *s)),
        !conforms(v.dv(), *s) ==> (r matches Err(e) && e == Error::ShapeMismatch),
{
    if conforms_exec(v, s) {
        let mut out: Vec<u8> = Vec::new();
        encode_into(v, s, &mut out);
        proof {
            assert(out@ =~= spec_encode(v.dv(), *s));
        }
        Ok(out)
    } else {
        Err(Error::ShapeMismatch)
    }
}

} // verus!
