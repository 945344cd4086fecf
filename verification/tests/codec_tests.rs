use ringdb::executor::codec::{decode_tuple, encode_tuple, CodecError};
use ringdb::executor::result::Tuple;
use ringdb::sql::ast::Value;

fn plain(values: &[Value]) -> Vec<Result<i64, String>> {
    values
        .iter()
        .map(|v| match v {
            Value::Integer(i) => Ok(*i),
            Value::String(s) => Err(s.clone()),
        })
        .collect()
}

fn samples() -> Vec<Vec<Value>> {
    let long: String = "\u{e9}".repeat(200);
    let longer: String = "x".repeat(70_000);
    vec![
        vec![],
        vec![Value::Integer(1), Value::String("Alice".to_string())],
        vec![Value::Integer(0), Value::Integer(-1), Value::Integer(125), Value::Integer(-126)],
        vec![Value::Integer(126), Value::Integer(32767), Value::Integer(-32768)],
        vec![Value::Integer(32768), Value::Integer(2147483647), Value::Integer(-2147483648)],
        vec![Value::Integer(2147483648), Value::Integer(i64::MAX), Value::Integer(i64::MIN)],
        vec![Value::String(String::new()), Value::String(long), Value::String(longer)],
        (0..300).map(Value::Integer).collect(),
    ]
}

#[test]
fn encoding_is_what_bincode_writes_for_the_same_shape() {
    for values in samples() {
        let expected =
            bincode::encode_to_vec(plain(&values), bincode::config::standard()).unwrap();
        assert_eq!(encode_tuple(&Tuple::new(values)), expected);
    }
}

#[test]
fn encoding_of_one_row_byte_for_byte() {
    let tuple = Tuple::new(vec![Value::Integer(1), Value::String("Alice".to_string())]);
    assert_eq!(encode_tuple(&tuple), vec![2, 0, 2, 1, 5, b'A', b'l', b'i', b'c', b'e']);
    let tuple = Tuple::new(vec![Value::Integer(-1), Value::Integer(300)]);
    assert_eq!(encode_tuple(&tuple), vec![2, 0, 1, 0, 251, 0x58, 0x02]);
}

#[test]
fn decoding_gives_back_what_was_encoded() {
    for values in samples() {
        let bytes = encode_tuple(&Tuple::new(values.clone()));
        assert_eq!(decode_tuple(&bytes).unwrap(), Tuple::new(values));
    }
}

#[test]
fn decoding_reads_what_bincode_wrote() {
    for values in samples() {
        let bytes = bincode::encode_to_vec(plain(&values), bincode::config::standard()).unwrap();
        assert_eq!(decode_tuple(&bytes).unwrap(), Tuple::new(values));
    }
}

#[test]
fn decoding_ignores_what_follows_the_row() {
    let mut bytes = encode_tuple(&Tuple::new(vec![Value::Integer(7)]));
    bytes.extend_from_slice(&[9, 9, 9]);
    assert_eq!(decode_tuple(&bytes).unwrap(), Tuple::new(vec![Value::Integer(7)]));
}

#[test]
fn decoding_accepts_a_number_in_a_wider_form() {
    // One value, tag 0, the number 2 (folded 4) written in three bytes.
    assert_eq!(
        decode_tuple(&[1, 0, 251, 4, 0]).unwrap(),
        Tuple::new(vec![Value::Integer(2)])
    );
}

#[test]
fn decoding_fails_on_missing_bytes() {
    assert!(matches!(decode_tuple(&[]), Err(CodecError::Integer(_))));
    assert!(matches!(decode_tuple(&[1]), Err(CodecError::Integer(_))));
    assert!(matches!(decode_tuple(&[1, 0]), Err(CodecError::Integer(_))));
    assert!(matches!(decode_tuple(&[1, 0, 251, 1]), Err(CodecError::Integer(_))));
    assert!(matches!(decode_tuple(&[1, 1, 3, b'a', b'b']), Err(CodecError::Truncated)));
}

#[test]
fn decoding_fails_on_a_length_beyond_the_input() {
    // A string that claims 2^64 - 1 bytes.
    let bytes = [1, 1, 253, 255, 255, 255, 255, 255, 255, 255, 255, b'a'];
    assert!(matches!(decode_tuple(&bytes), Err(CodecError::Truncated)));
    // A row that claims 2^64 - 1 values and holds one.
    let bytes = [253, 255, 255, 255, 255, 255, 255, 255, 255, 0, 2];
    assert!(matches!(decode_tuple(&bytes), Err(CodecError::Integer(_))));
}

#[test]
fn decoding_fails_on_bad_markers_and_tags() {
    assert!(matches!(decode_tuple(&[254, 0]), Err(CodecError::Integer(_))));
    assert!(matches!(decode_tuple(&[255]), Err(CodecError::Integer(_))));
    // A tag is at most four bytes wide.
    assert!(matches!(
        decode_tuple(&[1, 253, 0, 0, 0, 0, 0, 0, 0, 0, 2]),
        Err(CodecError::Integer(_))
    ));
    assert!(matches!(decode_tuple(&[1, 2, 0]), Err(CodecError::UnknownVariant(2))));
    assert!(matches!(
        decode_tuple(&[1, 252, 0, 0, 1, 0]),
        Err(CodecError::UnknownVariant(65536))
    ));
}

#[test]
fn decoding_fails_on_invalid_utf8() {
    assert!(matches!(decode_tuple(&[1, 1, 2, 0xC3, 0x28]), Err(CodecError::InvalidUtf8)));
    assert!(matches!(decode_tuple(&[1, 1, 1, 0xFF]), Err(CodecError::InvalidUtf8)));
}

#[test]
fn codec_error_in_words() {
    assert_eq!(CodecError::Truncated.to_string(), "unexpected end of tuple data");
    assert_eq!(CodecError::InvalidUtf8.to_string(), "string is not valid UTF-8");
    assert_eq!(CodecError::UnknownVariant(7).to_string(), "unknown value variant 7");
    assert_eq!(CodecError::Integer("why".to_string()).to_string(), "why");
    match decode_tuple(&[]) {
        Err(e) => assert!(!e.to_string().is_empty()),
        Ok(_) => panic!("decoded nothing"),
    }
}
