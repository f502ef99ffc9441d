use kafka_serde::{from_bytes, Decoder, ErrorKind, Shape, Value};

#[test]
fn test_de_u8() {
    let data = [0x05, 0x01];
    let shape = Shape::Record(vec![Shape::U8, Shape::Bool]);
    let dummy = from_bytes(&shape, &data).unwrap();
    match dummy {
        Value::Record(fields) => {
            assert_eq!(fields[0], Value::U8(5));
            assert_eq!(fields[1], Value::Bool(true));
        }
        other => panic!("expected a record, got {:?}", other),
    }
}

#[test]
fn test_serde_decode_i32() {
    let data = [0x00, 0x00, 0x00, 0x10];
    let shape = Shape::Record(vec![Shape::I32]);
    let dummy = from_bytes(&shape, &data).unwrap();
    assert_eq!(dummy, Value::Record(vec![Value::I32(16)]));
}

#[test]
fn test_serde_decode_u32() {
    let data = [0x00, 0x00, 0x00, 0x10];
    let shape = Shape::Record(vec![Shape::U32]);
    let dummy = from_bytes(&shape, &data).unwrap();
    assert_eq!(dummy, Value::Record(vec![Value::U32(16)]));
}

#[test]
fn test_serde_decode_string() {
    let data = [
        0x00, 0x0a, 0x63, 0x6f, 0x6e, 0x73, 0x75, 0x6d, 0x65, 0x72, 0x2d, 0x31,
    ];
    let shape = Shape::Record(vec![Shape::Str]);
    let dummy = from_bytes(&shape, &data).unwrap();
    assert_eq!(
        dummy,
        Value::Record(vec![Value::Str(String::from("consumer-1"))])
    );
}

#[test]
fn test_serde_decode_string_reference() {
    let data = [
        0x00, 0x0a, 0x63, 0x6f, 0x6e, 0x73, 0x75, 0x6d, 0x65, 0x72, 0x2d, 0x31,
    ];
    let mut decoder = Decoder::new(&data);
    let value = decoder.decode_str().unwrap();
    assert_eq!(value, "consumer-1");
}

#[test]
fn test_serde_decode_empty_string_reference() {
    let data = [0x00, 0x00];
    let mut decoder = Decoder::new(&data);
    let value = decoder.decode_str().unwrap();
    assert_eq!(value, "");
}

#[test]
fn test_serde_decode_nullable_string() {
    let data = [255, 255];
    let shape = Shape::Record(vec![Shape::Str]);
    let dummy = from_bytes(&shape, &data).unwrap();
    assert_eq!(dummy, Value::Record(vec![Value::Str(String::new())]));
}

#[test]
fn test_serde_decode_byte_reference() {
    let data = [
        0x00, 0x00, 0x00, 0x0a, 0x63, 0x6f, 0x6e, 0x73, 0x75, 0x6d, 0x65, 0x72, 0x2d, 0x31,
    ];
    let mut decoder = Decoder::new(&data);
    let bytes = decoder.decode_bytes().unwrap();
    assert_eq!(bytes.len(), 10);
    assert_eq!(bytes, &data[4..]);
}

#[test]
fn test_serde_decode_byte_reference_sequence() {
    let data = [
        0x00, 0x00, 0x00, 0x01, 0x00, 0x0a, 0x63, 0x6f, 0x6e, 0x73, 0x75, 0x6d, 0x65, 0x72, 0x2d,
        0x31, 0x00, 0x00, 0x00, 0x01, 0x0a,
    ];
    let foo = Shape::Record(vec![Shape::Str, Shape::Bytes]);
    let shape = Shape::Record(vec![Shape::List(Box::new(foo))]);
    let dummy = from_bytes(&shape, &data).unwrap();
    match dummy {
        Value::Record(fields) => match &fields[0] {
            Value::List(items) => assert_eq!(items.len(), 1),
            other => panic!("expected a sequence, got {:?}", other),
        },
        other => panic!("expected a record, got {:?}", other),
    }
}

#[test]
fn test_serde_decode_empty_byte_reference() {
    let data = [0x00, 0x00, 0x00, 0x00];
    let mut decoder = Decoder::new(&data);
    let bytes = decoder.decode_bytes().unwrap();
    assert_eq!(bytes.len(), 0);
}

#[test]
fn test_serde_decode_seq_u32() {
    let data = [0x00, 0x00, 0x00, 0x3, 0x00, 0x01, 0x00, 0x02, 0x00, 0x03];
    let shape = Shape::Record(vec![Shape::List(Box::new(Shape::U16))]);
    let dummy = from_bytes(&shape, &data).unwrap();
    match dummy {
        Value::Record(fields) => match &fields[0] {
            Value::List(items) => {
                assert_eq!(items.len(), 3);
                assert_eq!(items[0], Value::U16(1));
                assert_eq!(items[1], Value::U16(2));
                assert_eq!(items[2], Value::U16(3));
            }
            other => panic!("expected a sequence, got {:?}", other),
        },
        other => panic!("expected a record, got {:?}", other),
    }
}

#[test]
fn test_nullable_bytes() {
    // an array of size -1 is to be interpreted as containing 0 elements
    let data = [255, 255, 255, 255];
    let shape = Shape::Record(vec![Shape::List(Box::new(Shape::U16))]);
    let dummy = from_bytes(&shape, &data).unwrap();
    assert_eq!(dummy, Value::Record(vec![Value::List(vec![])]));
}

#[test]
fn test_bool_decode_values() {
    assert_eq!(from_bytes(&Shape::Bool, &[0x01]).unwrap(), Value::Bool(true));
    assert_eq!(
        from_bytes(&Shape::Bool, &[0x00]).unwrap(),
        Value::Bool(false)
    );
    let err = from_bytes(&Shape::Bool, &[0x02]).unwrap_err();
    assert!(matches!(err, ErrorKind::InvalidBoolEncoding(2)));
}

#[test]
fn test_big_endian_decode_u32() {
    let data = [0x00, 0x00, 0x00, 0x10];
    assert_eq!(from_bytes(&Shape::U32, &data).unwrap(), Value::U32(16));
}

#[test]
fn test_nullable_byte_blob() {
    let data = [0xff, 0xff, 0xff, 0xff];
    let mut decoder = Decoder::new(&data);
    let bytes = decoder.decode_bytes().unwrap();
    assert_eq!(bytes.len(), 0);
}

#[test]
fn test_trailing_bytes_are_not_an_error() {
    let data = [0x05, 0x63];
    assert_eq!(from_bytes(&Shape::U8, &data).unwrap(), Value::U8(5));
}

#[test]
fn test_truncated_fixed_width_reads_fail() {
    assert!(matches!(
        from_bytes(&Shape::U16, &[0x01]).unwrap_err(),
        ErrorKind::NotEnoughBytes
    ));
    assert!(matches!(
        from_bytes(&Shape::I32, &[0x00, 0x00, 0x00]).unwrap_err(),
        ErrorKind::NotEnoughBytes
    ));
    assert!(matches!(
        from_bytes(&Shape::U64, &[0, 0, 0, 0, 0, 0, 0]).unwrap_err(),
        ErrorKind::NotEnoughBytes
    ));
    assert!(matches!(
        from_bytes(&Shape::F64, &[0, 0, 0, 0, 0, 0, 0]).unwrap_err(),
        ErrorKind::NotEnoughBytes
    ));
    assert!(matches!(
        from_bytes(&Shape::Bool, &[]).unwrap_err(),
        ErrorKind::NotEnoughBytes
    ));
    assert!(matches!(
        from_bytes(&Shape::I8, &[]).unwrap_err(),
        ErrorKind::NotEnoughBytes
    ));
}

#[test]
fn test_truncated_string_payload_fails() {
    // length prefix says five bytes, only three follow
    let data = [0x00, 0x05, 0x61, 0x62, 0x63];
    assert!(matches!(
        from_bytes(&Shape::Str, &data).unwrap_err(),
        ErrorKind::NotEnoughBytes
    ));
}

#[test]
fn test_negative_string_length_fails() {
    // -2 is not a nullable sentinel
    let data = [0xff, 0xfe];
    assert!(matches!(
        from_bytes(&Shape::Str, &data).unwrap_err(),
        ErrorKind::NotEnoughBytes
    ));
}

#[test]
fn test_negative_sequence_count_fails() {
    // -2 is not a nullable sentinel
    let data = [0xff, 0xff, 0xff, 0xfe];
    let shape = Shape::List(Box::new(Shape::U8));
    assert!(matches!(
        from_bytes(&shape, &data).unwrap_err(),
        ErrorKind::NotEnoughBytes
    ));
}

#[test]
fn test_invalid_utf8_fails() {
    let data = [0x00, 0x01, 0xff];
    assert!(matches!(
        from_bytes(&Shape::Str, &data).unwrap_err(),
        ErrorKind::InvalidStringEncoding
    ));
}

#[test]
fn test_multibyte_utf8_decodes() {
    // a two-byte UTF-8 character; fails if the bytes were handed back raw
    let data = [0x00, 0x02, 0xc3, 0xa9];
    let value = from_bytes(&Shape::Str, &data).unwrap();
    assert_eq!(value, Value::Str(String::from("\u{e9}")));
    match value {
        Value::Str(s) => assert_eq!(s.chars().count(), 1),
        _ => unreachable!(),
    }
}

#[test]
fn test_unsupported_shapes_fail() {
    let cases = [
        (Shape::F32, "de-f32"),
        (Shape::Char, "de-char"),
        (Shape::Unit, "de-unit"),
        (Shape::Dict, "de-map"),
        (Shape::Opt(Box::new(Shape::U8)), "de-option"),
        (Shape::Enum, "de-enum"),
    ];
    for (shape, label) in cases {
        match from_bytes(&shape, &[0x00]).unwrap_err() {
            ErrorKind::TypeNotSupported(l) => assert_eq!(l, label),
            other => panic!("expected TypeNotSupported, got {:?}", other),
        }
    }
}

#[test]
fn test_record_fields_decode_in_declared_order() {
    let data = [0x00, 0x00, 0x00, 0x01, 0x02];
    let shape = Shape::Record(vec![Shape::I32, Shape::I8]);
    let value = from_bytes(&shape, &data).unwrap();
    assert_eq!(value, Value::Record(vec![Value::I32(1), Value::I8(2)]));
}

#[test]
fn test_type_of_labels() {
    assert_eq!(kafka_serde::type_of(&Shape::F32), "de-f32");
    assert_eq!(kafka_serde::type_of(&Shape::Bool), "bool");
}

#[test]
fn test_truncated_sequence_fails_mid_element() {
    // count says three elements, bytes hold only one
    let data = [0x00, 0x00, 0x00, 0x03, 0x00, 0x01];
    let shape = Shape::List(Box::new(Shape::U16));
    assert!(matches!(
        from_bytes(&shape, &data).unwrap_err(),
        ErrorKind::NotEnoughBytes
    ));
}

#[test]
fn test_invalid_bool_consumes_its_byte() {
    // the bad byte is consumed: the next read starts right after it
    let data = [0x02, 0x07];
    let mut decoder = Decoder::new(&data);
    assert!(matches!(
        decoder.decode_bool().unwrap_err(),
        ErrorKind::InvalidBoolEncoding(2)
    ));
    assert_eq!(decoder.decode_u8().unwrap(), 7);
}

#[test]
fn test_short_read_leaves_position_unchanged() {
    // a failed fixed-width read consumes nothing
    let data = [0x01];
    let mut decoder = Decoder::new(&data);
    assert!(matches!(
        decoder.decode_u16().unwrap_err(),
        ErrorKind::NotEnoughBytes
    ));
    assert_eq!(decoder.decode_u8().unwrap(), 1);
}

#[test]
fn test_string_failure_keeps_consumed_prefix() {
    // the length prefix is consumed even when the payload is short:
    // the next read starts right after the two prefix bytes
    let data = [0x00, 0x05, 0x61, 0x62, 0x63];
    let mut decoder = Decoder::new(&data);
    assert!(matches!(
        decoder.decode_str().unwrap_err(),
        ErrorKind::NotEnoughBytes
    ));
    assert_eq!(decoder.decode_u8().unwrap(), 0x61);
}
