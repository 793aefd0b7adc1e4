use constellation_sdk::binary::{encode_data_update, to_bytes};
use constellation_sdk::codec::{decode_data_update, parse_data_update};
use constellation_sdk::encoding::parse_usize;
use constellation_sdk::types::{FrameError, SdkError};
use serde_json::Value;

const PREFIX: &str = "\x19Constellation Signed Data:\n";

fn value(text: &str) -> Value {
    serde_json::from_str(text).unwrap()
}

#[test]
fn test_to_bytes_regular() {
    let data = value(r#"{"id": "test", "value": 42}"#);
    let bytes = to_bytes(&data, false).unwrap();
    let s = String::from_utf8(bytes).unwrap();
    assert_eq!(s, r#"{"id":"test","value":42}"#);
}

#[test]
fn test_to_bytes_data_update() {
    let data = value(r#"{"id": "test"}"#);
    let bytes = to_bytes(&data, true).unwrap();
    let s = String::from_utf8(bytes).unwrap();
    assert!(s.starts_with("\x19Constellation Signed Data:\n"));
    assert!(s.contains('\n'));
}

#[test]
fn test_encode_data_update() {
    let data = value(r#"{"id": "test"}"#);
    let bytes = encode_data_update(&data).unwrap();
    let s = String::from_utf8(bytes).unwrap();
    assert!(s.starts_with("\x19Constellation Signed Data:\n"));
}

#[test]
fn test_roundtrip() {
    let data = value(r#"{"id": "test", "value": 42}"#);
    let encoded = encode_data_update(&data).unwrap();
    let decoded: Value = decode_data_update(&encoded).unwrap();
    assert_eq!(decoded, data);
}

#[test]
fn test_decode_invalid_prefix() {
    let data = b"invalid data";
    let result = decode_data_update(data);
    assert!(result.is_err());
}

#[test]
fn test_decode_invalid_format() {
    let data = format!("{PREFIX}invalid");
    let result = decode_data_update(data.as_bytes());
    assert!(result.is_err());
}

#[test]
fn canonical_form_sorts_keys_and_drops_whitespace() {
    let data = value("{ \"value\" : 42 ,\n \"id\" : \"test\" }");
    let bytes = to_bytes(&data, false).unwrap();
    assert_eq!(bytes, br#"{"id":"test","value":42}"#.to_vec());
}

#[test]
fn array_order_is_kept() {
    let a = to_bytes(&value("[1,2,3]"), false).unwrap();
    let b = to_bytes(&value("[3,2,1]"), false).unwrap();
    assert_eq!(a, b"[1,2,3]".to_vec());
    assert_ne!(a, b);
}

#[test]
fn data_update_frame_is_exact() {
    let bytes = encode_data_update(&value(r#"{"id":"test"}"#)).unwrap();
    let expected = format!("{PREFIX}20\neyJpZCI6InRlc3QifQ==");
    assert_eq!(bytes, expected.into_bytes());
}

#[test]
fn data_update_bytes_differ_from_plain_bytes() {
    let data = value(r#"{"id":"test"}"#);
    assert_ne!(to_bytes(&data, false).unwrap(), to_bytes(&data, true).unwrap());
}

#[test]
fn roundtrip_of_nested_value() {
    let data = value(r#"{"b":[1,-2,3.5,"x\ny",null,true],"a":{"z":{},"y":[]}}"#);
    let encoded = encode_data_update(&data).unwrap();
    assert_eq!(decode_data_update(&encoded).unwrap(), data);
}

#[test]
fn frame_errors_are_told_apart() {
    assert_eq!(
        parse_data_update(b"nope"),
        Err(SdkError::InvalidDataUpdate(FrameError::MissingPrefix))
    );
    let no_newline = format!("{PREFIX}20");
    assert_eq!(
        parse_data_update(no_newline.as_bytes()),
        Err(SdkError::InvalidDataUpdate(FrameError::MissingSeparator))
    );
    let bad_length = format!("{PREFIX}2x\neyJpZCI6InRlc3QifQ==");
    assert_eq!(
        parse_data_update(bad_length.as_bytes()),
        Err(SdkError::InvalidDataUpdate(FrameError::InvalidLength))
    );
    let bad_body = format!("{PREFIX}4\n!!!!");
    assert_eq!(
        parse_data_update(bad_body.as_bytes()),
        Err(SdkError::InvalidDataUpdate(FrameError::InvalidBase64))
    );
}

#[test]
fn frame_length_is_not_checked_against_body() {
    let framed = format!("{PREFIX}+999\neyJpZCI6InRlc3QifQ==");
    assert_eq!(parse_data_update(framed.as_bytes()), Ok(br#"{"id":"test"}"#.to_vec()));
}

#[test]
fn body_that_is_not_json_is_a_serialization_error() {
    let framed = format!("{PREFIX}4\nYWJj");
    assert_eq!(decode_data_update(framed.as_bytes()), Err(SdkError::SerializationError));
}

#[test]
fn parse_usize_reads_unsigned_numbers() {
    assert_eq!(parse_usize(b"20"), Some(20));
    assert_eq!(parse_usize(b"+12"), Some(12));
    assert_eq!(parse_usize(b"0"), Some(0));
    assert_eq!(parse_usize(b""), None);
    assert_eq!(parse_usize(b"+"), None);
    assert_eq!(parse_usize(b"-1"), None);
    assert_eq!(parse_usize(b"1 2"), None);
    assert_eq!(parse_usize(b"18446744073709551615"), Some(usize::MAX));
    assert_eq!(parse_usize(b"18446744073709551616"), None);
}

#[test]
fn decode_ignores_a_wrong_length_field() {
    let framed = format!("{PREFIX}7\neyJpZCI6InRlc3QifQ==");
    assert_eq!(decode_data_update(framed.as_bytes()).unwrap(), value(r#"{"id":"test"}"#));
}

#[test]
fn decode_of_too_deep_value_is_a_serialization_error() {
    let mut deep = Value::Null;
    for _ in 0..200 {
        deep = Value::Array(vec![deep]);
    }
    let encoded = encode_data_update(&deep).unwrap();
    assert_eq!(decode_data_update(&encoded), Err(SdkError::SerializationError));
}
