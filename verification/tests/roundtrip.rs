use kafka_serde::{from_bytes, to_bytes, Shape, Value};

fn round_trip(value: Value, shape: Shape) {
    let bytes = to_bytes(&value).unwrap();
    let back = from_bytes(&shape, &bytes).unwrap();
    assert_eq!(back, value);
}

#[test]
fn test_round_trip_bool() {
    round_trip(Value::Bool(true), Shape::Bool);
    round_trip(Value::Bool(false), Shape::Bool);
}

#[test]
fn test_round_trip_unsigned() {
    round_trip(Value::U8(0), Shape::U8);
    round_trip(Value::U8(u8::MAX), Shape::U8);
    round_trip(Value::U16(0x1234), Shape::U16);
    round_trip(Value::U16(u16::MAX), Shape::U16);
    round_trip(Value::U32(0xdead_beef), Shape::U32);
    round_trip(Value::U32(u32::MAX), Shape::U32);
    round_trip(Value::U64(0x0123_4567_89ab_cdef), Shape::U64);
    round_trip(Value::U64(u64::MAX), Shape::U64);
}

#[test]
fn test_round_trip_signed() {
    round_trip(Value::I8(i8::MIN), Shape::I8);
    round_trip(Value::I8(-1), Shape::I8);
    round_trip(Value::I8(i8::MAX), Shape::I8);
    round_trip(Value::I16(i16::MIN), Shape::I16);
    round_trip(Value::I16(-1), Shape::I16);
    round_trip(Value::I32(i32::MIN), Shape::I32);
    round_trip(Value::I32(-42), Shape::I32);
    round_trip(Value::I64(i64::MIN), Shape::I64);
    round_trip(Value::I64(i64::MAX), Shape::I64);
}

#[test]
fn test_round_trip_f64_bits() {
    for x in [0.0f64, -0.0, 1.5, -2.25, f64::MAX, f64::MIN_POSITIVE] {
        let bytes = to_bytes(&Value::F64Bits(x.to_bits())).unwrap();
        assert_eq!(bytes.len(), 8);
        match from_bytes(&Shape::F64, &bytes).unwrap() {
            Value::F64Bits(bits) => assert_eq!(f64::from_bits(bits), x),
            other => panic!("expected float bits, got {:?}", other),
        }
    }
}

#[test]
fn test_round_trip_string_consumer() {
    let value = Value::Str(String::from("consumer-1"));
    let bytes = to_bytes(&value).unwrap();
    assert_eq!(bytes.len(), 12);
    assert_eq!(bytes[0], 0x00);
    assert_eq!(bytes[1], 0x0a);
    assert_eq!(&bytes[2..], "consumer-1".as_bytes());
    let back = from_bytes(&Shape::Str, &bytes).unwrap();
    assert_eq!(back, value);
}

#[test]
fn test_round_trip_empty_string() {
    round_trip(Value::Str(String::new()), Shape::Str);
}

#[test]
fn test_round_trip_sequence() {
    round_trip(
        Value::List(vec![Value::U16(1), Value::U16(2), Value::U16(3)]),
        Shape::List(Box::new(Shape::U16)),
    );
    round_trip(Value::List(vec![]), Shape::List(Box::new(Shape::U16)));
}

#[test]
fn test_round_trip_nested_record() {
    let inner = Shape::Record(vec![Shape::Str, Shape::I64]);
    let shape = Shape::Record(vec![Shape::U32, Shape::List(Box::new(inner))]);
    let value = Value::Record(vec![
        Value::U32(7),
        Value::List(vec![
            Value::Record(vec![Value::Str(String::from("a")), Value::I64(-5)]),
            Value::Record(vec![Value::Str(String::from("bc")), Value::I64(9)]),
        ]),
    ]);
    round_trip(value, shape);
}

#[test]
fn test_round_trip_with_trailing_bytes() {
    let value = Value::U16(0xbeef);
    let mut bytes = to_bytes(&value).unwrap();
    bytes.push(0x99);
    let back = from_bytes(&Shape::U16, &bytes).unwrap();
    assert_eq!(back, value);
}
