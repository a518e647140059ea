use wirecode::decode::decode;
use wirecode::encode::encode;
use wirecode::shape::{Error, Shape, Value};

#[test]
fn u8_scenario() {
    let bytes = encode(&Shape::U8, &Value::U8(101)).unwrap();
    assert_eq!(bytes, vec![0x65]);
    let (v, used) = decode(&Shape::U8, &bytes).unwrap();
    assert_eq!(v, Value::U8(101));
    assert_eq!(used, 1);
}

#[test]
fn i32_scenario() {
    let bytes = encode(&Shape::I32, &Value::I32(104)).unwrap();
    assert_eq!(bytes, vec![0x68, 0x00, 0x00, 0x00]);
    let (v, used) = decode(&Shape::I32, &bytes).unwrap();
    assert_eq!(v, Value::I32(104));
    assert_eq!(used, 4);
}

#[test]
fn optional_absent_scenario() {
    let shape = Shape::Optional(Box::new(Shape::U8));
    let bytes = encode(&shape, &Value::Absent).unwrap();
    assert_eq!(bytes, vec![0x00]);
    let (v, used) = decode(&shape, &bytes).unwrap();
    assert_eq!(v, Value::Absent);
    assert_eq!(used, 1);
}

#[test]
fn optional_present() {
    let shape = Shape::Optional(Box::new(Shape::U8));
    let value = Value::Present(Box::new(Value::U8(255)));
    let bytes = encode(&shape, &value).unwrap();
    assert_eq!(bytes, vec![0x01, 0xFF]);
    let (v, used) = decode(&shape, &bytes).unwrap();
    assert_eq!(v, value);
    assert_eq!(used, 2);
}

#[test]
fn union_scenario() {
    let shape = Shape::Union(vec![Shape::I32, Shape::U32]);
    let value = Value::Variant(1, Box::new(Value::U32(5)));
    let bytes = encode(&shape, &value).unwrap();
    assert_eq!(bytes, vec![0x01, 0x00, 0x00, 0x00, 0x05, 0x00, 0x00, 0x00]);
    let (v, used) = decode(&shape, &bytes).unwrap();
    assert_eq!(v, value);
    assert_eq!(used, 8);
}

#[test]
fn bool_invalid_discriminant() {
    assert_eq!(decode(&Shape::Bool, &vec![0x02]), Err(Error::InvalidDiscriminant));
}

#[test]
fn bool_values() {
    assert_eq!(encode(&Shape::Bool, &Value::Bool(false)).unwrap(), vec![0x00]);
    assert_eq!(encode(&Shape::Bool, &Value::Bool(true)).unwrap(), vec![0x01]);
    assert_eq!(decode(&Shape::Bool, &vec![0x00]).unwrap(), (Value::Bool(false), 1));
    assert_eq!(decode(&Shape::Bool, &vec![0x01]).unwrap(), (Value::Bool(true), 1));
}

#[test]
fn truncated_by_one_byte() {
    assert_eq!(decode(&Shape::I32, &vec![0x68, 0x00, 0x00]), Err(Error::TruncatedInput));
    assert_eq!(decode(&Shape::Bool, &vec![]), Err(Error::TruncatedInput));
    let shape = Shape::Tuple(vec![Shape::U8, Shape::U16]);
    assert_eq!(decode(&shape, &vec![0x01, 0x02]), Err(Error::TruncatedInput));
}

#[test]
fn truncated_text() {
    // length prefix says five bytes follow, only four are present
    let bytes = vec![0x05, 0, 0, 0, 0, 0, 0, 0, b'a', b'b', b'c', b'd'];
    assert_eq!(decode(&Shape::Text, &bytes), Err(Error::TruncatedInput));
    // the length prefix itself one byte short
    assert_eq!(decode(&Shape::Text, &vec![0x05, 0, 0, 0, 0, 0, 0]), Err(Error::TruncatedInput));
}

#[test]
fn shape_mismatch() {
    assert_eq!(encode(&Shape::U8, &Value::Bool(true)), Err(Error::ShapeMismatch));
    assert_eq!(
        encode(&Shape::Tuple(vec![Shape::U8]), &Value::Tuple(vec![])),
        Err(Error::ShapeMismatch)
    );
    assert_eq!(
        encode(&Shape::CEnum(2), &Value::Ordinal(2)),
        Err(Error::ShapeMismatch)
    );
    assert_eq!(
        encode(&Shape::Array(2, Box::new(Shape::U8)), &Value::Array(vec![Value::U8(1)])),
        Err(Error::ShapeMismatch)
    );
}

#[test]
fn enum_invalid_ordinal() {
    assert_eq!(decode(&Shape::CEnum(2), &vec![0x05, 0, 0, 0]), Err(Error::InvalidDiscriminant));
    let shape = Shape::Union(vec![Shape::I32, Shape::U32]);
    assert_eq!(decode(&shape, &vec![0x02, 0, 0, 0, 0, 0, 0, 0]), Err(Error::InvalidDiscriminant));
}

#[test]
fn optional_invalid_tag() {
    let shape = Shape::Optional(Box::new(Shape::U8));
    assert_eq!(decode(&shape, &vec![0x02, 0x07]), Err(Error::InvalidDiscriminant));
}

#[test]
fn invalid_utf8_text() {
    let bytes = vec![0x02, 0, 0, 0, 0, 0, 0, 0, 0xFF, 0xFE];
    assert_eq!(decode(&Shape::Text, &bytes), Err(Error::InvalidEncoding));
}

#[test]
fn text_round_trip() {
    let value = Value::Text("abcdefgh".as_bytes().to_vec());
    let bytes = encode(&Shape::Text, &value).unwrap();
    let mut expected = vec![0x08, 0, 0, 0, 0, 0, 0, 0];
    expected.extend_from_slice("abcdefgh".as_bytes());
    assert_eq!(bytes, expected);
    let (v, used) = decode(&Shape::Text, &bytes).unwrap();
    assert_eq!(v, value);
    assert_eq!(used, 16);
}

#[test]
fn multibyte_text_round_trip() {
    let text = "héllo wörld — ✓";
    let value = Value::Text(text.as_bytes().to_vec());
    let bytes = encode(&Shape::Text, &value).unwrap();
    assert_eq!(bytes.len(), 8 + text.len());
    let (v, used) = decode(&Shape::Text, &bytes).unwrap();
    assert_eq!(v, value);
    assert_eq!(used, bytes.len());
}

#[test]
fn unit_is_empty() {
    let bytes = encode(&Shape::Unit, &Value::Unit).unwrap();
    assert_eq!(bytes, Vec::<u8>::new());
    assert_eq!(decode(&Shape::Unit, &bytes).unwrap(), (Value::Unit, 0));
}

#[test]
fn array_exact_length() {
    let shape = Shape::Array(3, Box::new(Shape::U16));
    let value = Value::Array(vec![Value::U16(1), Value::U16(2), Value::U16(3)]);
    let bytes = encode(&shape, &value).unwrap();
    assert_eq!(bytes, vec![1, 0, 2, 0, 3, 0]);
    let (v, used) = decode(&shape, &bytes).unwrap();
    assert_eq!(v, value);
    assert_eq!(used, 6);
}

#[test]
fn empty_array() {
    let shape = Shape::Array(0, Box::new(Shape::U64));
    let bytes = encode(&shape, &Value::Array(vec![])).unwrap();
    assert_eq!(bytes, Vec::<u8>::new());
    assert_eq!(decode(&shape, &bytes).unwrap(), (Value::Array(vec![]), 0));
}

#[test]
fn negative_integers() {
    assert_eq!(encode(&Shape::I8, &Value::I8(-1)).unwrap(), vec![0xFF]);
    assert_eq!(encode(&Shape::I16, &Value::I16(-2)).unwrap(), vec![0xFE, 0xFF]);
    assert_eq!(
        encode(&Shape::I32, &Value::I32(-2)).unwrap(),
        vec![0xFE, 0xFF, 0xFF, 0xFF]
    );
    assert_eq!(decode(&Shape::I8, &vec![0x80]).unwrap(), (Value::I8(-128), 1));
    assert_eq!(decode(&Shape::I8, &vec![0x7F]).unwrap(), (Value::I8(127), 1));
}

#[test]
fn extreme_integers_round_trip() {
    for value in [
        Value::I128(i128::MIN),
        Value::I128(i128::MAX),
        Value::I128(-1),
        Value::I128(0),
    ] {
        let bytes = encode(&Shape::I128, &value).unwrap();
        assert_eq!(bytes.len(), 16);
        assert_eq!(decode(&Shape::I128, &bytes).unwrap(), (value, 16));
    }
    for value in [Value::U128(u128::MAX), Value::U128(0), Value::U128(109)] {
        let bytes = encode(&Shape::U128, &value).unwrap();
        assert_eq!(bytes.len(), 16);
        assert_eq!(decode(&Shape::U128, &bytes).unwrap(), (value, 16));
    }
    for value in [Value::I64(i64::MIN), Value::I64(i64::MAX), Value::I64(106)] {
        let bytes = encode(&Shape::I64, &value).unwrap();
        assert_eq!(decode(&Shape::I64, &bytes).unwrap(), (value, 8));
    }
}

#[test]
fn trailing_bytes_are_tolerated() {
    let (v, used) = decode(&Shape::U8, &vec![0x07, 0x63]).unwrap();
    assert_eq!(v, Value::U8(7));
    assert_eq!(used, 1);
}

#[test]
fn encoding_is_deterministic() {
    let shape = Shape::Tuple(vec![
        Shape::Union(vec![Shape::I32, Shape::U32]),
        Shape::CEnum(2),
        Shape::Text,
        Shape::Array(2, Box::new(Shape::F64)),
        Shape::Optional(Box::new(Shape::U8)),
        Shape::Unit,
    ]);
    let make_value = || {
        Value::Tuple(vec![
            Value::Variant(1, Box::new(Value::U32(5))),
            Value::Ordinal(0),
            Value::Text("abcdefgh".as_bytes().to_vec()),
            Value::Array(vec![
                Value::F64Bits(1.1f64.to_bits()),
                Value::F64Bits(2.2f64.to_bits()),
            ]),
            Value::Present(Box::new(Value::U8(255))),
            Value::Unit,
        ])
    };
    let first = encode(&shape, &make_value()).unwrap();
    let second = encode(&shape, &make_value()).unwrap();
    assert_eq!(first, second);
}

#[test]
fn composite_round_trip() {
    let shape = Shape::Tuple(vec![
        Shape::Union(vec![Shape::I32, Shape::U32]),
        Shape::CEnum(2),
        Shape::Text,
        Shape::Array(2, Box::new(Shape::F64)),
        Shape::Optional(Box::new(Shape::U8)),
        Shape::Unit,
    ]);
    let value = Value::Tuple(vec![
        Value::Variant(1, Box::new(Value::U32(5))),
        Value::Ordinal(0),
        Value::Text("abcdefgh".as_bytes().to_vec()),
        Value::Array(vec![
            Value::F64Bits(1.1f64.to_bits()),
            Value::F64Bits(2.2f64.to_bits()),
        ]),
        Value::Present(Box::new(Value::U8(255))),
        Value::Unit,
    ]);
    let bytes = encode(&shape, &value).unwrap();
    // 8 (union) + 4 (enum) + 16 (text) + 16 (two doubles) + 2 (present u8) + 0
    assert_eq!(bytes.len(), 46);
    let (v, used) = decode(&shape, &bytes).unwrap();
    assert_eq!(v, value);
    assert_eq!(used, 46);
}

#[test]
fn composite_truncation_fails() {
    let shape = Shape::Tuple(vec![Shape::U16, Shape::Optional(Box::new(Shape::U32))]);
    let value = Value::Tuple(vec![
        Value::U16(103),
        Value::Present(Box::new(Value::U32(105))),
    ]);
    let mut bytes = encode(&shape, &value).unwrap();
    assert_eq!(bytes.len(), 7);
    bytes.pop();
    assert_eq!(decode(&shape, &bytes), Err(Error::TruncatedInput));
}
