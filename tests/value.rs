use rkv::{DataError, Type, Value};

fn round_trip(v: Value) {
    let bytes = v.to_bytes();
    assert_eq!(Value::from_tagged_slice(&bytes), Ok(v.clone()));
    assert_eq!(Value::from_expected_tagged_slice(v.value_type(), &bytes), Ok(v));
}

#[test]
fn codec_round_trip_every_type() {
    round_trip(Value::Bool(true));
    round_trip(Value::Bool(false));
    round_trip(Value::U64(1234));
    round_trip(Value::U64(u64::MAX));
    round_trip(Value::I64(-1234));
    round_trip(Value::I64(i64::MIN));
    round_trip(Value::F64(1234.0f64.to_bits()));
    round_trip(Value::F64(f64::NAN.to_bits()));
    round_trip(Value::Instant(1528318073700));
    round_trip(Value::Uuid([7u8; 16]));
    round_trip(Value::Str("héllo, yöu".to_string()));
    round_trip(Value::Str(String::new()));
    round_trip(Value::Json(r#"{"foo":"bar","number":1}"#.to_string()));
    round_trip(Value::Blob(b"blob".to_vec()));
    round_trip(Value::Blob(Vec::new()));
}

#[test]
fn codec_exact_bytes() {
    assert_eq!(Value::Bool(true).to_bytes(), vec![1, 1]);
    assert_eq!(Value::U64(2).to_bytes(), vec![2, 2, 0, 0, 0, 0, 0, 0, 0]);
    assert_eq!(Value::I64(-1).to_bytes(), vec![3, 255, 255, 255, 255, 255, 255, 255, 255]);
    assert_eq!(Value::Str("ab".to_string()).to_bytes(), vec![7, 2, 0, 0, 0, 0, 0, 0, 0, b'a', b'b']);
    assert_eq!(Value::Blob(vec![9]).to_bytes(), vec![9, 1, 0, 0, 0, 0, 0, 0, 0, 9]);
    let mut uuid = vec![6u8];
    uuid.extend_from_slice(&[3u8; 16]);
    assert_eq!(Value::Uuid([3u8; 16]).to_bytes(), uuid);
}

#[test]
fn codec_errors() {
    assert_eq!(Value::from_tagged_slice(&[]), Err(DataError::Empty));
    assert_eq!(Value::from_tagged_slice(&[42, 1]), Err(DataError::UnknownType(42)));
    assert_eq!(Value::from_tagged_slice(&[1, 2]), Err(DataError::DecodingError { value_type: Type::Bool }));
    assert_eq!(Value::from_tagged_slice(&[2, 1, 2]), Err(DataError::DecodingError { value_type: Type::U64 }));
    assert_eq!(Value::from_tagged_slice(&[6, 1, 2, 3]), Err(DataError::InvalidUuid));
    assert_eq!(
        Value::from_tagged_slice(&[7, 1, 0, 0, 0, 0, 0, 0, 0, 0xff]),
        Err(DataError::DecodingError { value_type: Type::Str })
    );
    assert_eq!(
        Value::from_tagged_slice(&[9, 5, 0, 0, 0, 0, 0, 0, 0, 1]),
        Err(DataError::DecodingError { value_type: Type::Blob })
    );
    let bytes = Value::I64(5).to_bytes();
    assert_eq!(
        Value::from_expected_tagged_slice(Type::U64, &bytes),
        Err(DataError::UnexpectedType { expected: Type::U64, actual: Type::I64 })
    );
}

#[test]
fn type_tags_are_stable() {
    let types = [Type::Bool, Type::U64, Type::I64, Type::F64, Type::Instant, Type::Uuid, Type::Str, Type::Json, Type::Blob];
    for (i, t) in types.iter().enumerate() {
        assert_eq!(t.to_tag(), (i + 1) as u8);
        assert_eq!(Type::from_tag((i + 1) as u8), Some(*t));
    }
    assert_eq!(Type::from_tag(0), None);
    assert_eq!(Type::from_tag(10), None);
}
