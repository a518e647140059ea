//! Cross-checks: the library's canonical bytes for the reference
//! fixture values, and byte-for-byte agreement with an independent
//! serializer for every value both can express.

use wirecode::encode::encode;
use wirecode::shape::{Shape, Value};

fn encoded(shape: &Shape, value: &Value) -> Vec<u8> {
    encode(shape, value).unwrap()
}

#[test]
fn fixture_primitives() {
    assert_eq!(encoded(&Shape::I8, &Value::I8(100)), vec![0x64]);
    assert_eq!(encoded(&Shape::U8, &Value::U8(101)), vec![0x65]);
    assert_eq!(encoded(&Shape::I16, &Value::I16(102)), vec![0x66, 0]);
    assert_eq!(encoded(&Shape::U16, &Value::U16(103)), vec![0x67, 0]);
    assert_eq!(encoded(&Shape::I32, &Value::I32(104)), vec![0x68, 0, 0, 0]);
    assert_eq!(encoded(&Shape::U32, &Value::U32(105)), vec![0x69, 0, 0, 0]);
    assert_eq!(encoded(&Shape::I64, &Value::I64(106)), vec![0x6A, 0, 0, 0, 0, 0, 0, 0]);
    assert_eq!(encoded(&Shape::U64, &Value::U64(107)), vec![0x6B, 0, 0, 0, 0, 0, 0, 0]);
    assert_eq!(
        encoded(&Shape::I128, &Value::I128(108)),
        vec![0x6C, 0, 0, 0, 0, 0, 0, 0, 0, 0, 0, 0, 0, 0, 0, 0]
    );
    assert_eq!(
        encoded(&Shape::U128, &Value::U128(109)),
        vec![0x6D, 0, 0, 0, 0, 0, 0, 0, 0, 0, 0, 0, 0, 0, 0, 0]
    );
}

#[test]
fn agrees_with_bincode_on_integers() {
    assert_eq!(encoded(&Shape::I8, &Value::I8(100)), bincode::serialize(&100i8).unwrap());
    assert_eq!(encoded(&Shape::U8, &Value::U8(101)), bincode::serialize(&101u8).unwrap());
    assert_eq!(encoded(&Shape::I16, &Value::I16(102)), bincode::serialize(&102i16).unwrap());
    assert_eq!(encoded(&Shape::U16, &Value::U16(103)), bincode::serialize(&103u16).unwrap());
    assert_eq!(encoded(&Shape::I32, &Value::I32(104)), bincode::serialize(&104i32).unwrap());
    assert_eq!(encoded(&Shape::U32, &Value::U32(105)), bincode::serialize(&105u32).unwrap());
    assert_eq!(encoded(&Shape::I64, &Value::I64(106)), bincode::serialize(&106i64).unwrap());
    assert_eq!(encoded(&Shape::U64, &Value::U64(107)), bincode::serialize(&107u64).unwrap());
    assert_eq!(encoded(&Shape::I128, &Value::I128(108)), bincode::serialize(&108i128).unwrap());
    assert_eq!(encoded(&Shape::U128, &Value::U128(109)), bincode::serialize(&109u128).unwrap());
    assert_eq!(
        encoded(&Shape::I64, &Value::I64(-123456789)),
        bincode::serialize(&-123456789i64).unwrap()
    );
    assert_eq!(
        encoded(&Shape::I128, &Value::I128(i128::MIN)),
        bincode::serialize(&i128::MIN).unwrap()
    );
}

#[test]
fn agrees_with_bincode_on_floats() {
    assert_eq!(
        encoded(&Shape::F32, &Value::F32Bits(5.5f32.to_bits())),
        bincode::serialize(&5.5f32).unwrap()
    );
    assert_eq!(
        encoded(&Shape::F64, &Value::F64Bits(6.6f64.to_bits())),
        bincode::serialize(&6.6f64).unwrap()
    );
}

#[test]
fn agrees_with_bincode_on_bools() {
    assert_eq!(encoded(&Shape::Bool, &Value::Bool(false)), bincode::serialize(&false).unwrap());
    assert_eq!(encoded(&Shape::Bool, &Value::Bool(true)), bincode::serialize(&true).unwrap());
}

#[test]
fn agrees_with_bincode_on_optionals() {
    let shape = Shape::Optional(Box::new(Shape::U8));
    let absent: Option<u8> = None;
    assert_eq!(encoded(&shape, &Value::Absent), bincode::serialize(&absent).unwrap());
    assert_eq!(
        encoded(&shape, &Value::Present(Box::new(Value::U8(255)))),
        bincode::serialize(&Some(255u8)).unwrap()
    );
}

#[test]
fn agrees_with_bincode_on_text() {
    assert_eq!(
        encoded(&Shape::Text, &Value::Text("abcdefgh".as_bytes().to_vec())),
        bincode::serialize("abcdefgh").unwrap()
    );
}

#[test]
fn agrees_with_bincode_on_arrays_and_tuples() {
    let array_shape = Shape::Array(2, Box::new(Shape::F64));
    let array_value = Value::Array(vec![
        Value::F64Bits(1.1f64.to_bits()),
        Value::F64Bits(2.2f64.to_bits()),
    ]);
    assert_eq!(encoded(&array_shape, &array_value), bincode::serialize(&[1.1f64, 2.2]).unwrap());

    let tuple_shape = Shape::Tuple(vec![
        Shape::U8,
        Shape::Bool,
        Shape::Optional(Box::new(Shape::U16)),
        Shape::Unit,
    ]);
    let tuple_value = Value::Tuple(vec![
        Value::U8(9),
        Value::Bool(true),
        Value::Present(Box::new(Value::U16(300))),
        Value::Unit,
    ]);
    assert_eq!(
        encoded(&tuple_shape, &tuple_value),
        bincode::serialize(&(9u8, true, Some(300u16), ())).unwrap()
    );
}

#[test]
fn fixture_union_and_enum() {
    // a two-variant tagged union {X(i32), Y(u32)}: X(6) and Y(5)
    let union_shape = Shape::Union(vec![Shape::I32, Shape::U32]);
    assert_eq!(
        encoded(&union_shape, &Value::Variant(0, Box::new(Value::I32(6)))),
        vec![0, 0, 0, 0, 6, 0, 0, 0]
    );
    assert_eq!(
        encoded(&union_shape, &Value::Variant(1, Box::new(Value::U32(5)))),
        vec![1, 0, 0, 0, 5, 0, 0, 0]
    );
    // a two-variant payload-free enum: its second variant
    assert_eq!(encoded(&Shape::CEnum(2), &Value::Ordinal(1)), vec![1, 0, 0, 0]);
}

#[test]
fn fixture_record() {
    // union Y(5), enum first variant, "abcdefgh", [1.1, 2.2], present
    // 255, unit — the fields of the reference record, encoded as the
    // concatenation of the fields' encodings
    let shape = Shape::Tuple(vec![
        Shape::Union(vec![Shape::I32, Shape::U32]),
        Shape::CEnum(2),
        Shape::Text,
        Shape::Array(2, Box::new(Shape::F64)),
        Shape::Optional(Box::new(Shape::U8)),
        Shape::Unit,
    ]);
    let value = Value::Tuple(vec![
        Value::Variant(1, Box::new(Value::U32(5))),
        Value::Ordinal(0),
        Value::Text("abcdefgh".as_bytes().to_vec()),
        Value::Array(vec![
            Value::F64Bits(1.1f64.to_bits()),
            Value::F64Bits(2.2f64.to_bits()),
        ]),
        Value::Present(Box::new(Value::U8(255))),
        Value::Unit,
    ]);
    let mut expected: Vec<u8> = Vec::new();
    expected.extend_from_slice(&[1, 0, 0, 0, 5, 0, 0, 0]);
    expected.extend_from_slice(&[0, 0, 0, 0]);
    expected.extend_from_slice(&[8, 0, 0, 0, 0, 0, 0, 0]);
    expected.extend_from_slice("abcdefgh".as_bytes());
    expected.extend_from_slice(&1.1f64.to_le_bytes());
    expected.extend_from_slice(&2.2f64.to_le_bytes());
    expected.extend_from_slice(&[1, 255]);
    assert_eq!(encoded(&shape, &value), expected);
}
