use kafka_serde::{to_bytes, Encoder, ErrorKind, Value};

fn check_integer_one(value: Value, width: usize) {
    let c = to_bytes(&value).unwrap();
    assert_eq!(c.len(), width);
    assert_eq!(c.last().unwrap(), &1u8);
    for i in &c[0..c.len() - 1] {
        assert_eq!(i, &0);
    }
}

#[test]
fn test_integers() {
    check_integer_one(Value::U8(1), 1);
    check_integer_one(Value::U16(1), 2);
    check_integer_one(Value::U32(1), 4);
    check_integer_one(Value::U64(1), 8);
    check_integer_one(Value::I8(1), 1);
    check_integer_one(Value::I16(1), 2);
    check_integer_one(Value::I32(1), 4);
    check_integer_one(Value::I64(1), 8);
}

#[test]
fn test_strings() {
    let s = String::from("abc");
    let c = to_bytes(&Value::Str(s)).unwrap();
    assert_eq!(c.len(), 5);
    assert_eq!(c[0], 0);
    assert_eq!(c[1], 3);
    assert_eq!(String::from_utf8(c[2..5].to_vec()).unwrap(), "abc");

    let c = to_bytes(&Value::Str(String::from("abc"))).unwrap();
    assert_eq!(c.len(), 5);
    assert_eq!(c[0], 0);
    assert_eq!(c[1], 3);
    assert_eq!(String::from_utf8(c[2..5].to_vec()).unwrap(), "abc");

    let c = to_bytes(&Value::Str(String::new())).unwrap();
    assert_eq!(c.len(), 2);
    assert_eq!(c[0], 0);
    assert_eq!(c[1], 0);
}

#[test]
fn test_list() {
    let bytes = Value::List(vec![
        Value::U32(1),
        Value::U32(1),
        Value::U32(1),
        Value::U32(1),
    ]);
    let c = to_bytes(&bytes).unwrap();
    assert_eq!(c.len(), 20);
    assert_eq!(c[0], 0);
    assert_eq!(c[1], 0);
    assert_eq!(c[2], 0);
    assert_eq!(c[3], 4);
}

#[test]
fn test_struct() {
    let t = Value::Record(vec![Value::I32(1), Value::I8(2)]);
    let c = to_bytes(&t).unwrap();
    assert_eq!(c.len(), 5);
    assert_eq!(c[0], 0);
    assert_eq!(c[1], 0);
    assert_eq!(c[2], 0);
    assert_eq!(c[3], 1);
    assert_eq!(c[4], 2);
}

#[test]
fn test_enum_repr() {
    let t = Value::U8(1);
    let c = to_bytes(&t).unwrap();
    assert_eq!(c.len(), 1);
    assert_eq!(c[0], 1);
}

#[test]
fn test_none() {
    let t = Value::Opt(None);
    let c = to_bytes(&t).unwrap();
    assert_eq!(c.len(), 0);
}

#[test]
fn test_some() {
    let t = Value::Opt(Some(Box::new(Value::U32(2))));
    let c = to_bytes(&t).unwrap();
    assert_eq!(c.len(), 4);
    assert_eq!(c[0], 0);
    assert_eq!(c[1], 0);
    assert_eq!(c[2], 0);
    assert_eq!(c[3], 2);
}

#[test]
fn test_big_endian_encode_u32() {
    let c = to_bytes(&Value::U32(16)).unwrap();
    assert_eq!(c, vec![0x00, 0x00, 0x00, 0x10]);
}

#[test]
fn test_bool_encodings() {
    assert_eq!(to_bytes(&Value::Bool(true)).unwrap(), vec![1]);
    assert_eq!(to_bytes(&Value::Bool(false)).unwrap(), vec![0]);
}

#[test]
fn test_byte_blobs_are_not_writable() {
    let err = to_bytes(&Value::Bytes(vec![1, 2, 3])).unwrap_err();
    match err {
        ErrorKind::TypeNotSupported(label) => assert_eq!(label, "bytes"),
        other => panic!("expected TypeNotSupported, got {:?}", other),
    }
}

#[test]
fn test_failed_encode_keeps_prior_bytes() {
    let mut enc = Encoder::new();
    let record = Value::Record(vec![Value::U8(7), Value::Bytes(vec![])]);
    assert!(enc.encode_value(&record).is_err());
    assert_eq!(enc.as_bytes(), &[7]);
}

#[test]
fn test_f64_bits_encode_big_endian() {
    let bits = 1.5f64.to_bits();
    let c = to_bytes(&Value::F64Bits(bits)).unwrap();
    assert_eq!(c, 1.5f64.to_be_bytes().to_vec());
}

#[test]
fn test_negative_integers_encode_two_complement() {
    assert_eq!(to_bytes(&Value::I8(-1)).unwrap(), vec![0xff]);
    assert_eq!(to_bytes(&Value::I16(-2)).unwrap(), vec![0xff, 0xfe]);
    assert_eq!(
        to_bytes(&Value::I32(-1)).unwrap(),
        vec![0xff, 0xff, 0xff, 0xff]
    );
    assert_eq!(
        to_bytes(&Value::I64(i64::MIN)).unwrap(),
        vec![0x80, 0, 0, 0, 0, 0, 0, 0]
    );
}

#[test]
fn test_string_length_prefix_counts_utf8_bytes() {
    // one character, two UTF-8 bytes: the prefix counts bytes, not chars
    let c = to_bytes(&Value::Str(String::from("\u{e9}"))).unwrap();
    assert_eq!(c, vec![0x00, 0x02, 0xc3, 0xa9]);
}

#[test]
fn test_oversized_string_length_truncates() {
    // the 16-bit length prefix is not validated: 70000 % 65536 == 4464
    let s: String = std::iter::repeat('a').take(70000).collect();
    let c = to_bytes(&Value::Str(s)).unwrap();
    assert_eq!(c.len(), 2 + 70000);
    assert_eq!(c[0], (4464u16 >> 8) as u8);
    assert_eq!(c[1], (4464u16 & 0xff) as u8);
}
