//! The laws of the format, proved once and for all over the spec-level
//! codec: decode is a left inverse of encode, encoding is
//! deterministic, the encoded length is the sum the format defines,
//! the optional boundary bytes, and failure on truncated input.

use crate::bytes::{
    le_bytes, lemma_le_bytes_len, lemma_le_val_le_bytes, lemma_pow256_vals, lemma_signed_roundtrip,
    pow256, signed_rep,
};
use crate::decode::{dec_at, dec_elems, dec_fields, raw, spec_decode};
use crate::encode::{encode_at, encode_elems, encode_fields, spec_encode};
use crate::shape::{conforms, conforms_at, conforms_elems, conforms_fields, Error, Shape, Val};
use vstd::prelude::*;

verus! {

proof fn lemma_split_whole(bytes: Seq<u8>, pos: int, a: Seq<u8>, b: Seq<u8>)
    requires
        0 <= pos,
        pos + a.len() + b.len() <= bytes.len(),
        bytes.subrange(pos, pos + a.len() + b.len()) == a + b,
    ensures
        bytes.subrange(pos, pos + a.len() as int) == a,
        bytes.subrange(pos + a.len() as int, pos + a.len() + b.len()) == b,
{
    let whole = bytes.subrange(pos, pos + a.len() + b.len());
    assert(bytes.subrange(pos, pos + a.len() as int) =~= a) by {
        assert forall|j: int| 0 <= j < a.len() implies bytes.subrange(pos, pos + a.len() as int)[j]
            == a[j] by {
            assert(whole[j] == (a + b)[j]);
        }
    }
    assert(bytes.subrange(pos + a.len() as int, pos + a.len() + b.len()) =~= b) by {
        assert forall|j: int|
            0 <= j < b.len() implies bytes.subrange(pos + a.len() as int, pos + a.len() + b.len())[j]
            == b[j] by {
            assert(whole[a.len() + j] == (a + b)[a.len() + j]);
        }
    }
}

proof fn lemma_split_short(bytes: Seq<u8>, pos: int, a: Seq<u8>, b: Seq<u8>)
    requires
        0 <= pos,
        b.len() > 0,
        bytes.len() == pos + a.len() + b.len() - 1,
        bytes.subrange(pos, bytes.len() as int) == (a + b).take(a.len() + b.len() - 1),
    ensures
        bytes.subrange(pos, pos + a.len() as int) == a,
        bytes.subrange(pos + a.len() as int, bytes.len() as int) == b.take(b.len() - 1),
{
    let part = bytes.subrange(pos, bytes.len() as int);
    assert(bytes.subrange(pos, pos + a.len() as int) =~= a) by {
        assert forall|j: int| 0 <= j < a.len() implies bytes.subrange(pos, pos + a.len() as int)[j]
            == a[j] by {
            assert(part[j] == (a + b).take(a.len() + b.len() - 1)[j]);
        }
    }
    assert(bytes.subrange(pos + a.len() as int, bytes.len() as int) =~= b.take(b.len() - 1)) by {
        assert forall|j: int| #![trigger b.take(b.len() - 1)[j]]
            0 <= j < b.len() - 1 implies bytes.subrange(pos + a.len() as int, bytes.len() as int)[j]
            == b.take(b.len() - 1)[j] by {
            assert(part[a.len() + j] == (a + b).take(a.len() + b.len() - 1)[a.len() + j]);
        }
    }
}

proof fn lemma_raw_of(bytes: Seq<u8>, pos: int, x: nat, n: nat)
    requires
        0 <= pos,
        x < pow256(n),
        pos + n <= bytes.len(),
        bytes.subrange(pos, pos + n) == le_bytes(x, n),
    ensures
        raw(bytes, pos, n as int) == x,
{
    lemma_le_val_le_bytes(x, n);
}

/// Decoding an encoding embedded in a longer byte sequence returns
/// exactly the encoded value and consumes exactly its encoding.
pub proof fn lemma_round_trip_at(v: Val, s: Shape, bytes: Seq<u8>, pos: int)
    requires
        conforms(v, s),
        0 <= pos,
        pos + spec_encode(v, s).len() <= bytes.len(),
        bytes.subrange(pos, pos + spec_encode(v, s).len() as int) == spec_encode(v, s),
    ensures
        spec_decode(s, bytes, pos) == Ok::<(Val, int), Error>(
            (v, spec_encode(v, s).len() as int),
        ),
    decreases s, 1int, 0int,
{
    lemma_pow256_vals();
    let enc = spec_encode(v, s);
    match s {
        Shape::U8 => {
            lemma_le_bytes_len(v->U8_0 as nat, 1);
            lemma_raw_of(bytes, pos, v->U8_0 as nat, 1);
        },
        Shape::U16 => {
            lemma_le_bytes_len(v->U16_0 as nat, 2);
            lemma_raw_of(bytes, pos, v->U16_0 as nat, 2);
        },
        Shape::U32 => {
            lemma_le_bytes_len(v->U32_0 as nat, 4);
            lemma_raw_of(bytes, pos, v->U32_0 as nat, 4);
        },
        Shape::U64 => {
            lemma_le_bytes_len(v->U64_0 as nat, 8);
            lemma_raw_of(bytes, pos, v->U64_0 as nat, 8);
        },
        Shape::U128 => {
            lemma_le_bytes_len(v->U128_0 as nat, 16);
            lemma_raw_of(bytes, pos, v->U128_0 as nat, 16);
        },
        Shape::I8 => {
            let x = v->I8_0;
            lemma_signed_roundtrip(x as int, 1);
            lemma_le_bytes_len(signed_rep(x as int, 1), 1);
            lemma_raw_of(bytes, pos, signed_rep(x as int, 1), 1);
        },
        Shape::I16 => {
            let x = v->I16_0;
            lemma_signed_roundtrip(x as int, 2);
            lemma_le_bytes_len(signed_rep(x as int, 2), 2);
            lemma_raw_of(bytes, pos, signed_rep(x as int, 2), 2);
        },
        Shape::I32 => {
            let x = v->I32_0;
            lemma_signed_roundtrip(x as int, 4);
            lemma_le_bytes_len(signed_rep(x as int, 4), 4);
            lemma_raw_of(bytes, pos, signed_rep(x as int, 4), 4);
        },
        Shape::I64 => {
            let x = v->I64_0;
            lemma_signed_roundtrip(x as int, 8);
            lemma_le_bytes_len(signed_rep(x as int, 8), 8);
            lemma_raw_of(bytes, pos, signed_rep(x as int, 8), 8);
        },
        Shape::I128 => {
            let x = v->I128_0;
            lemma_signed_roundtrip(x as int, 16);
            lemma_le_bytes_len(signed_rep(x as int, 16), 16);
            lemma_raw_of(bytes, pos, signed_rep(x as int, 16), 16);
        },
        Shape::F32 => {
            lemma_le_bytes_len(v->F32Bits_0 as nat, 4);
            lemma_raw_of(bytes, pos, v->F32Bits_0 as nat, 4);
        },
        Shape::F64 => {
            lemma_le_bytes_len(v->F64Bits_0 as nat, 8);
            lemma_raw_of(bytes, pos, v->F64Bits_0 as nat, 8);
        },
        Shape::Bool => {
            assert(bytes[pos] == enc[0]);
        },
        Shape::Unit => {
        },
        Shape::Array(n, elem) => {
            let vs = v->Array_0;
            lemma_round_trip_elems(vs, *elem, 0, bytes, pos);
            assert(vs.skip(0) =~= vs);
        },
        Shape::Tuple(fields) => {
            let vs = v->Tuple_0;
            lemma_round_trip_fields(vs, fields, 0, bytes, pos);
            assert(vs.skip(0) =~= vs);
        },
        Shape::Optional(inner) => match v {
            Val::Absent => {
                assert(bytes[pos] == enc[0]);
            },
            Val::Present(p) => {
                let encp = spec_encode(*p, *inner);
                lemma_split_whole(bytes, pos, seq![1u8], encp);
                assert(bytes[pos] == bytes.subrange(pos, pos + 1)[0]);
                lemma_round_trip_at(*p, *inner, bytes, pos + 1);
            },
            _ => {
            },
        },
        Shape::CEnum(k) => {
            let ord = v->Ordinal_0;
            lemma_le_bytes_len(ord as nat, 4);
            lemma_raw_of(bytes, pos, ord as nat, 4);
        },
        Shape::Union(variants) => {
            let ord = v->Variant_0;
            let payload = *v->Variant_1;
            let tag = le_bytes(ord as nat, 4);
            let encp = encode_at(payload, variants, ord as int);
            lemma_le_bytes_len(ord as nat, 4);
            lemma_split_whole(bytes, pos, tag, encp);
            lemma_raw_of(bytes, pos, ord as nat, 4);
            lemma_round_trip_at_idx(payload, variants, ord as int, bytes, pos + 4);
        },
        Shape::Text => {
            let data = v->Text_0;
            let pre = le_bytes(data.len(), 8);
            lemma_le_bytes_len(data.len(), 8);
            lemma_split_whole(bytes, pos, pre, data);
            lemma_raw_of(bytes, pos, data.len(), 8);
        },
    }
}

proof fn lemma_round_trip_at_idx(v: Val, shapes: Vec<Shape>, i: int, bytes: Seq<u8>, pos: int)
    requires
        conforms_at(v, shapes, i),
        0 <= pos,
        pos + encode_at(v, shapes, i).len() <= bytes.len(),
        bytes.subrange(pos, pos + encode_at(v, shapes, i).len() as int) == encode_at(v, shapes, i),
    ensures
        dec_at(shapes, i, bytes, pos) == Ok::<(Val, int), Error>(
            (v, encode_at(v, shapes, i).len() as int),
        ),
    decreases shapes, 0int, 0int,
{
    lemma_round_trip_at(v, shapes[i], bytes, pos);
}

proof fn lemma_round_trip_elems(vs: Seq<Val>, elem: Shape, i: int, bytes: Seq<u8>, pos: int)
    requires
        0 <= i <= vs.len(),
        conforms_elems(vs, elem, i),
        0 <= pos,
        pos + encode_elems(vs, elem, i).len() <= bytes.len(),
        bytes.subrange(pos, pos + encode_elems(vs, elem, i).len() as int) == encode_elems(
            vs,
            elem,
            i,
        ),
    ensures
        dec_elems(elem, vs.len() - i, bytes, pos) == Ok::<(Seq<Val>, int), Error>(
            (vs.skip(i), encode_elems(vs, elem, i).len() as int),
        ),
    decreases elem, 2int, vs.len() - i,
{
    if i == vs.len() {
        assert(vs.skip(i) =~= Seq::<Val>::empty());
    } else {
        let first = spec_encode(vs[i], elem);
        let rest = encode_elems(vs, elem, i + 1);
        lemma_split_whole(bytes, pos, first, rest);
        lemma_round_trip_at(vs[i], elem, bytes, pos);
        lemma_round_trip_elems(vs, elem, i + 1, bytes, pos + first.len());
        assert(vs.skip(i) =~= seq![vs[i]] + vs.skip(i + 1));
    }
}

proof fn lemma_round_trip_fields(vs: Seq<Val>, fields: Vec<Shape>, i: int, bytes: Seq<u8>, pos: int)
    requires
        0 <= i <= fields@.len(),
        vs.len() == fields@.len(),
        conforms_fields(vs, fields, i),
        0 <= pos,
        pos + encode_fields(vs, fields, i).len() <= bytes.len(),
        bytes.subrange(pos, pos + encode_fields(vs, fields, i).len() as int) == encode_fields(
            vs,
            fields,
            i,
        ),
    ensures
        dec_fields(fields, i, bytes, pos) == Ok::<(Seq<Val>, int), Error>(
            (vs.skip(i), encode_fields(vs, fields, i).len() as int),
        ),
    decreases fields, 2int, fields@.len() - i,
{
    if i == fields@.len() {
        assert(vs.skip(i) =~= Seq::<Val>::empty());
    } else {
        let first = spec_encode(vs[i], fields[i]);
        let rest = encode_fields(vs, fields, i + 1);
        lemma_split_whole(bytes, pos, first, rest);
        lemma_round_trip_at(vs[i], fields[i], bytes, pos);
        lemma_round_trip_fields(vs, fields, i + 1, bytes, pos + first.len());
        assert(vs.skip(i) =~= seq![vs[i]] + vs.skip(i + 1));
    }
}

/// Round-trip law: for every shape and every value conforming to it,
/// decoding the encoding returns the value together with the
/// encoding's full length.
pub proof fn lemma_round_trip(v: Val, s: Shape)
    requires
        conforms(v, s),
    ensures
        spec_decode(s, spec_encode(v, s), 0) == Ok::<(Val, int), Error>(
            (v, spec_encode(v, s).len() as int),
        ),
{
    let enc = spec_encode(v, s);
    assert(enc.subrange(0, enc.len() as int) =~= enc);
    lemma_round_trip_at(v, s, enc, 0);
}

proof fn lemma_trunc_at(v: Val, s: Shape, bytes: Seq<u8>, pos: int)
    requires
        conforms(v, s),
        spec_encode(v, s).len() > 0,
        0 <= pos <= bytes.len(),
        bytes.len() == pos + spec_encode(v, s).len() - 1,
        bytes.subrange(pos, bytes.len() as int) == spec_encode(v, s).take(
            spec_encode(v, s).len() - 1,
        ),
    ensures
        spec_decode(s, bytes, pos) == Err::<(Val, int), Error>(Error::TruncatedInput),
    decreases s, 1int, 0int,
{
    lemma_pow256_vals();
    let enc = spec_encode(v, s);
    match s {
        Shape::U8 => lemma_le_bytes_len(v->U8_0 as nat, 1),
        Shape::U16 => lemma_le_bytes_len(v->U16_0 as nat, 2),
        Shape::U32 => lemma_le_bytes_len(v->U32_0 as nat, 4),
        Shape::U64 => lemma_le_bytes_len(v->U64_0 as nat, 8),
        Shape::U128 => lemma_le_bytes_len(v->U128_0 as nat, 16),
        Shape::I8 => lemma_le_bytes_len(signed_rep(v->I8_0 as int, 1), 1),
        Shape::I16 => lemma_le_bytes_len(signed_rep(v->I16_0 as int, 2), 2),
        Shape::I32 => lemma_le_bytes_len(signed_rep(v->I32_0 as int, 4), 4),
        Shape::I64 => lemma_le_bytes_len(signed_rep(v->I64_0 as int, 8), 8),
        Shape::I128 => lemma_le_bytes_len(signed_rep(v->I128_0 as int, 16), 16),
        Shape::F32 => lemma_le_bytes_len(v->F32Bits_0 as nat, 4),
        Shape::F64 => lemma_le_bytes_len(v->F64Bits_0 as nat, 8),
        Shape::Bool => {
        },
        Shape::Unit => {
        },
        Shape::Array(n, elem) => {
            lemma_trunc_elems(v->Array_0, *elem, 0, bytes, pos);
        },
        Shape::Tuple(fields) => {
            lemma_trunc_fields(v->Tuple_0, fields, 0, bytes, pos);
        },
        Shape::Optional(inner) => match v {
            Val::Absent => {
            },
            Val::Present(p) => {
                let encp = spec_encode(*p, *inner);
                if encp.len() > 0 {
                    lemma_split_short(bytes, pos, seq![1u8], encp);
                    assert(bytes[pos] == bytes.subrange(pos, pos + 1)[0]);
                    lemma_trunc_at(*p, *inner, bytes, pos + 1);
                }
            },
            _ => {
            },
        },
        Shape::CEnum(k) => lemma_le_bytes_len(v->Ordinal_0 as nat, 4),
        Shape::Union(variants) => {
            let ord = v->Variant_0;
            let payload = *v->Variant_1;
            let tag = le_bytes(ord as nat, 4);
            let encp = encode_at(payload, variants, ord as int);
            lemma_le_bytes_len(ord as nat, 4);
            if encp.len() > 0 {
                lemma_split_short(bytes, pos, tag, encp);
                lemma_raw_of(bytes, pos, ord as nat, 4);
                lemma_trunc_at_idx(payload, variants, ord as int, bytes, pos + 4);
            }
        },
        Shape::Text => {
            let data = v->Text_0;
            let pre = le_bytes(data.len(), 8);
            lemma_le_bytes_len(data.len(), 8);
            if data.len() > 0 {
                lemma_split_short(bytes, pos, pre, data);
                lemma_raw_of(bytes, pos, data.len(), 8);
            }
        },
    }
}

proof fn lemma_trunc_at_idx(v: Val, shapes: Vec<Shape>, i: int, bytes: Seq<u8>, pos: int)
    requires
        conforms_at(v, shapes, i),
        encode_at(v, shapes, i).len() > 0,
        0 <= pos <= bytes.len(),
        bytes.len() == pos + encode_at(v, shapes, i).len() - 1,
        bytes.subrange(pos, bytes.len() as int) == encode_at(v, shapes, i).take(
            encode_at(v, shapes, i).len() - 1,
        ),
    ensures
        dec_at(shapes, i, bytes, pos) == Err::<(Val, int), Error>(Error::TruncatedInput),
    decreases shapes, 0int, 0int,
{
    lemma_trunc_at(v, shapes[i], bytes, pos);
}

proof fn lemma_trunc_elems(vs: Seq<Val>, elem: Shape, i: int, bytes: Seq<u8>, pos: int)
    requires
        0 <= i <= vs.len(),
        conforms_elems(vs, elem, i),
        encode_elems(vs, elem, i).len() > 0,
        0 <= pos <= bytes.len(),
        bytes.len() == pos + encode_elems(vs, elem, i).len() - 1,
        bytes.subrange(pos, bytes.len() as int) == encode_elems(vs, elem, i).take(
            encode_elems(vs, elem, i).len() - 1,
        ),
    ensures
        dec_elems(elem, vs.len() - i, bytes, pos) == Err::<(Seq<Val>, int), Error>(
            Error::TruncatedInput,
        ),
    decreases elem, 2int, vs.len() - i,
{
    let first = spec_encode(vs[i], elem);
    let rest = encode_elems(vs, elem, i + 1);
    if rest.len() == 0 {
        assert(encode_elems(vs, elem, i) =~= first);
        assert(encode_elems(vs, elem, i).take(encode_elems(vs, elem, i).len() - 1) =~= first.take(
            first.len() - 1,
        ));
        lemma_trunc_at(vs[i], elem, bytes, pos);
    } else {
        lemma_split_short(bytes, pos, first, rest);
        lemma_round_trip_at(vs[i], elem, bytes, pos);
        lemma_trunc_elems(vs, elem, i + 1, bytes, pos + first.len());
    }
}

proof fn lemma_trunc_fields(vs: Seq<Val>, fields: Vec<Shape>, i: int, bytes: Seq<u8>, pos: int)
    requires
        0 <= i <= fields@.len(),
        vs.len() == fields@.len(),
        conforms_fields(vs, fields, i),
        encode_fields(vs, fields, i).len() > 0,
        0 <= pos <= bytes.len(),
        bytes.len() == pos + encode_fields(vs, fields, i).len() - 1,
        bytes.subrange(pos, bytes.len() as int) == encode_fields(vs, fields, i).take(
            encode_fields(vs, fields, i).len() - 1,
        ),
    ensures
        dec_fields(fields, i, bytes, pos) == Err::<(Seq<Val>, int), Error>(Error::TruncatedInput),
    decreases fields, 2int, fields@.len() - i,
{
    let first = spec_encode(vs[i], fields[i]);
    let rest = encode_fields(vs, fields, i + 1);
    if rest.len() == 0 {
        assert(encode_fields(vs, fields, i) =~= first);
        assert(encode_fields(vs, fields, i).take(encode_fields(vs, fields, i).len() - 1)
            =~= first.take(first.len() - 1));
        lemma_trunc_at(vs[i], fields[i], bytes, pos);
    } else {
        lemma_split_short(bytes, pos, first, rest);
        lemma_round_trip_at(vs[i], fields[i], bytes, pos);
        lemma_trunc_fields(vs, fields, i + 1, bytes, pos + first.len());
    }
}

/// Truncation: decoding a byte sequence one byte shorter than a
/// value's encoding fails with `TruncatedInput`, never silently
/// succeeding.
pub proof fn lemma_truncated(v: Val, s: Shape)
    requires
        conforms(v, s),
        spec_encode(v, s).len() > 0,
    ensures
        spec_decode(s, spec_encode(v, s).take(spec_encode(v, s).len() - 1), 0) == Err::<
            (Val, int),
            Error,
        >(Error::TruncatedInput),
{
    let enc = spec_encode(v, s);
    let cut = enc.take(enc.len() - 1);
    assert(cut.subrange(0, cut.len() as int) =~= cut);
    lemma_trunc_at(v, s, cut, 0);
}

/// Determinism: the encoding of a (shape, value) pair is a function
/// of the pair alone, so any two encode results for the same pair are
/// byte-identical.
pub proof fn lemma_encode_deterministic(v: Val, s: Shape, b1: Seq<u8>, b2: Seq<u8>)
    requires
        b1 == spec_encode(v, s),
        b2 == spec_encode(v, s),
    ensures
        b1 == b2,
{
}

/// The encoded length the format defines, shape by shape: the fixed
/// width of a primitive, the sum of the element encodings of an array
/// (N elements of fixed width W thus take exactly N times W bytes),
/// the sum of the field encodings of a tuple, one tag byte plus the
/// payload for a present optional, four tag bytes plus the payload
/// for a union variant, and eight length bytes plus the raw bytes for
/// text.
pub open spec fn encoded_len(v: Val, s: Shape) -> nat
    decreases s, 1int, 0int,
{
    match s {
        Shape::U8 => 1,
        Shape::U16 => 2,
        Shape::U32 => 4,
        Shape::U64 => 8,
        Shape::U128 => 16,
        Shape::I8 => 1,
        Shape::I16 => 2,
        Shape::I32 => 4,
        Shape::I64 => 8,
        Shape::I128 => 16,
        Shape::F32 => 4,
        Shape::F64 => 8,
        Shape::Bool => 1,
        Shape::Unit => 0,
        Shape::Array(n, elem) => match v {
            Val::Array(vs) => len_elems(vs, *elem, 0),
            _ => 0,
        },
        Shape::Tuple(fields) => match v {
            Val::Tuple(vs) => len_fields(vs, fields, 0),
            _ => 0,
        },
        Shape::Optional(inner) => match v {
            Val::Present(p) => 1 + encoded_len(*p, *inner),
            _ => 1,
        },
        Shape::CEnum(k) => 4,
        Shape::Union(variants) => match v {
            Val::Variant(ord, payload) => 4 + len_at(*payload, variants, ord as int),
            _ => 4,
        },
        Shape::Text => match v {
            Val::Text(data) => 8 + data.len(),
            _ => 8,
        },
    }
}

/// The summed encoded lengths of the elements from index `i` on.
pub open spec fn len_elems(vs: Seq<Val>, elem: Shape, i: int) -> nat
    decreases elem, 2int, vs.len() - i,
{
    if i < 0 || i >= vs.len() {
        0
    } else {
        encoded_len(vs[i], elem) + len_elems(vs, elem, i + 1)
    }
}

/// The summed encoded lengths of the fields from index `i` on.
pub open spec fn len_fields(vs: Seq<Val>, fields: Vec<Shape>, i: int) -> nat
    decreases fields, 2int, fields@.len() - i,
{
    if i < 0 || i >= fields@.len() {
        0
    } else {
        encoded_len(vs[i], fields[i]) + len_fields(vs, fields, i + 1)
    }
}

/// The encoded length of `v` under the shape at index `i` of `shapes`.
pub open spec fn len_at(v: Val, shapes: Vec<Shape>, i: int) -> nat
    decreases shapes, 0int, 0int,
{
    if 0 <= i < shapes@.len() {
        encoded_len(v, shapes[i])
    } else {
        0
    }
}

/// Exact length: the length of an encoding equals the sum of its
/// field and element encodings as [`encoded_len`] defines it.
pub proof fn lemma_exact_len(v: Val, s: Shape)
    requires
        conforms(v, s),
    ensures
        spec_encode(v, s).len() == encoded_len(v, s),
    decreases s, 1int, 0int,
{
    match s {
        Shape::U8 => lemma_le_bytes_len(v->U8_0 as nat, 1),
        Shape::U16 => lemma_le_bytes_len(v->U16_0 as nat, 2),
        Shape::U32 => lemma_le_bytes_len(v->U32_0 as nat, 4),
        Shape::U64 => lemma_le_bytes_len(v->U64_0 as nat, 8),
        Shape::U128 => lemma_le_bytes_len(v->U128_0 as nat, 16),
        Shape::I8 => lemma_le_bytes_len(signed_rep(v->I8_0 as int, 1), 1),
        Shape::I16 => lemma_le_bytes_len(signed_rep(v->I16_0 as int, 2), 2),
        Shape::I32 => lemma_le_bytes_len(signed_rep(v->I32_0 as int, 4), 4),
        Shape::I64 => lemma_le_bytes_len(signed_rep(v->I64_0 as int, 8), 8),
        Shape::I128 => lemma_le_bytes_len(signed_rep(v->I128_0 as int, 16), 16),
        Shape::F32 => lemma_le_bytes_len(v->F32Bits_0 as nat, 4),
        Shape::F64 => lemma_le_bytes_len(v->F64Bits_0 as nat, 8),
        Shape::Bool => {
        },
        Shape::Unit => {
        },
        Shape::Array(n, elem) => {
            lemma_exact_len_elems(v->Array_0, *elem, 0);
        },
        Shape::Tuple(fields) => {
            lemma_exact_len_fields(v->Tuple_0, fields, 0);
        },
        Shape::Optional(inner) => match v {
            Val::Present(p) => {
                lemma_exact_len(*p, *inner);
            },
            _ => {
            },
        },
        Shape::CEnum(k) => lemma_le_bytes_len(v->Ordinal_0 as nat, 4),
        Shape::Union(variants) => {
            lemma_le_bytes_len(v->Variant_0 as nat, 4);
            lemma_exact_len_at(*v->Variant_1, variants, v->Variant_0 as int);
        },
        Shape::Text => {
            lemma_le_bytes_len(v->Text_0.len(), 8);
        },
    }
}

proof fn lemma_exact_len_elems(vs: Seq<Val>, elem: Shape, i: int)
    requires
        0 <= i <= vs.len(),
        conforms_elems(vs, elem, i),
    ensures
        encode_elems(vs, elem, i).len() == len_elems(vs, elem, i),
    decreases elem, 2int, vs.len() - i,
{
    if i < vs.len() {
        lemma_exact_len(vs[i], elem);
        lemma_exact_len_elems(vs, elem, i + 1);
    }
}

proof fn lemma_exact_len_fields(vs: Seq<Val>, fields: Vec<Shape>, i: int)
    requires
        0 <= i <= fields@.len(),
        vs.len() == fields@.len(),
        conforms_fields(vs, fields, i),
    ensures
        encode_fields(vs, fields, i).len() == len_fields(vs, fields, i),
    decreases fields, 2int, fields@.len() - i,
{
    if i < fields@.len() {
        lemma_exact_len(vs[i], fields[i]);
        lemma_exact_len_fields(vs, fields, i + 1);
    }
}

proof fn lemma_exact_len_at(v: Val, shapes: Vec<Shape>, i: int)
    requires
        conforms_at(v, shapes, i),
    ensures
        encode_at(v, shapes, i).len() == len_at(v, shapes, i),
    decreases shapes, 0int, 0int,
{
    lemma_exact_len(v, shapes[i]);
}

proof fn lemma_len_elems_uniform(vs: Seq<Val>, elem: Shape, w: nat, i: int)
    requires
        0 <= i <= vs.len(),
        forall|j: int| 0 <= j < vs.len() ==> #[trigger] encoded_len(vs[j], elem) == w,
    ensures
        len_elems(vs, elem, i) == (vs.len() - i) * w,
    decreases vs.len() - i,
{
    if i < vs.len() {
        lemma_len_elems_uniform(vs, elem, w, i + 1);
        assert(encoded_len(vs[i], elem) == w);
        assert(len_elems(vs, elem, i) == w + len_elems(vs, elem, i + 1));
        assert((vs.len() - i) * w == w + (vs.len() - i - 1) * w) by (nonlinear_arith);
    } else {
        assert((vs.len() - i) * w == 0) by (nonlinear_arith)
            requires i == vs.len(),
        ;
    }
}

/// An array of N elements whose encodings all have width `w` encodes
/// to exactly N times `w` bytes.
pub proof fn lemma_array_exact_len(vs: Seq<Val>, n: usize, elem: Shape, w: nat)
    requires
        conforms(Val::Array(vs), Shape::Array(n, Box::new(elem))),
        forall|j: int| 0 <= j < vs.len() ==> #[trigger] encoded_len(vs[j], elem) == w,
    ensures
        spec_encode(Val::Array(vs), Shape::Array(n, Box::new(elem))).len() == n * w,
{
    lemma_exact_len(Val::Array(vs), Shape::Array(n, Box::new(elem)));
    lemma_len_elems_uniform(vs, elem, w, 0);
}

/// Encoding an absent optional yields exactly one byte, 0x00,
/// whatever the payload shape.
pub proof fn lemma_optional_absent(payload: Shape)
    ensures
        spec_encode(Val::Absent, Shape::Optional(Box::new(payload))) == seq![0u8],
{
}

/// Encoding a present optional yields 0x01 followed by the payload's
/// encoding.
pub proof fn lemma_optional_present(v: Val, payload: Shape)
    ensures
        spec_encode(Val::Present(Box::new(v)), Shape::Optional(Box::new(payload))) == seq![1u8]
            + spec_encode(v, payload),
{
}

} // verus!
