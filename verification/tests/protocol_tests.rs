use ringdb::executor::codec::CodecError;
use ringdb::executor::{ExecutionResult, Tuple};
use ringdb::protocol::{
    decode_request, decode_response, encode_request, encode_response, frame, frame_length,
    LEN_BYTES,
};
use ringdb::sql::ast::Value;

fn outcomes() -> Vec<Result<ExecutionResult, String>> {
    vec![
        Ok(ExecutionResult::Message("1 row inserted.".to_string())),
        Ok(ExecutionResult::Message(String::new())),
        Ok(ExecutionResult::Data(vec![])),
        Ok(ExecutionResult::Data(vec![
            Tuple::new(vec![Value::Integer(1), Value::String("Alice".to_string())]),
            Tuple::new(vec![]),
            Tuple::new(vec![Value::Integer(-70000)]),
        ])),
        Err("Table 'missing' not found.".to_string()),
    ]
}

fn plain(outcome: &Result<ExecutionResult, String>) -> Result<Result<String, Vec<Vec<Result<i64, String>>>>, String> {
    match outcome {
        Ok(ExecutionResult::Message(text)) => Ok(Ok(text.clone())),
        Ok(ExecutionResult::Data(tuples)) => Ok(Err(tuples
            .iter()
            .map(|t| {
                t.values
                    .iter()
                    .map(|v| match v {
                        Value::Integer(i) => Ok(*i),
                        Value::String(s) => Err(s.clone()),
                    })
                    .collect()
            })
            .collect())),
        Err(message) => Err(message.clone()),
    }
}

#[test]
fn frame_puts_the_length_in_front() {
    assert_eq!(frame(&[]), vec![0, 0, 0, 0]);
    assert_eq!(frame(&[7, 8]), vec![0, 0, 0, 2, 7, 8]);
    let long = vec![1u8; 0x0102_03];
    let message = frame(&long);
    assert_eq!(&message[..LEN_BYTES], &[0, 1, 2, 3]);
    assert_eq!(&message[LEN_BYTES..], &long[..]);
}

#[test]
fn frame_length_reads_big_endian() {
    assert_eq!(frame_length(&[0, 0, 0, 0]), 0);
    assert_eq!(frame_length(&[0, 0, 1, 2]), 258);
    assert_eq!(frame_length(&[1, 2, 3, 4]), 0x0102_0304);
    assert_eq!(frame_length(&[255, 255, 255, 255]), u32::MAX);
    assert_eq!(frame_length(&frame(&[9u8; 300])[..LEN_BYTES]), 300);
}

#[test]
fn request_carries_the_statement() {
    let message = encode_request("SELECT a FROM t;");
    assert_eq!(frame_length(&message[..LEN_BYTES]), 16);
    assert_eq!(
        decode_request(message[LEN_BYTES..].to_vec()),
        Some("SELECT a FROM t;".to_string())
    );
    assert_eq!(encode_request("\u{e9}"), vec![0, 0, 0, 2, 0xC3, 0xA9]);
    assert_eq!(decode_request(vec![0xC3, 0x28]), None);
}

#[test]
fn response_is_what_bincode_writes_for_the_same_shape() {
    for outcome in outcomes() {
        let expected =
            bincode::encode_to_vec(plain(&outcome), bincode::config::standard()).unwrap();
        assert_eq!(encode_response(&outcome), expected);
    }
}

#[test]
fn response_byte_for_byte() {
    assert_eq!(
        encode_response(&Ok(ExecutionResult::Message("ok".to_string()))),
        vec![0, 0, 2, b'o', b'k']
    );
    assert_eq!(encode_response(&Err("no".to_string())), vec![1, 2, b'n', b'o']);
    assert_eq!(
        encode_response(&Ok(ExecutionResult::Data(vec![Tuple::new(vec![Value::Integer(1)])]))),
        vec![0, 1, 1, 1, 0, 2]
    );
}

#[test]
fn response_round_trips() {
    for outcome in outcomes() {
        assert_eq!(decode_response(&encode_response(&outcome)).unwrap(), outcome);
    }
}

#[test]
fn response_with_unknown_tags_is_refused() {
    assert!(matches!(decode_response(&[2, 0]), Err(CodecError::UnknownVariant(2))));
    assert!(matches!(decode_response(&[0, 3, 0]), Err(CodecError::UnknownVariant(3))));
    assert!(matches!(decode_response(&[]), Err(CodecError::Integer(_))));
    assert!(matches!(decode_response(&[0, 1, 2, 0]), Err(CodecError::Integer(_))));
    assert!(matches!(decode_response(&[1, 5, b'a']), Err(CodecError::Truncated)));
}
