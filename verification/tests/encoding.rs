use std::collections::HashMap;

use redis::ser::Serializer;
use redis::types::RedisType;
use redis::value::{to_bytes, RespValue};

fn enc(v: &RespValue) -> String {
    String::from_utf8(to_bytes(v).unwrap()).unwrap()
}

fn out(s: Serializer) -> String {
    String::from_utf8(s.into_bytes()).unwrap()
}

#[test]
fn test_derive() {
    let point = RespValue::Struct(vec![
        (b"x".to_vec(), RespValue::Integer(1)),
        (b"y".to_vec(), RespValue::Integer(2)),
    ]);
    let serialized = enc(&point);
    println!("serialized = {:?}", serialized);
    assert_eq!("%2\r\n$1\r\nx\r\n:1\r\n$1\r\ny\r\n:2\r\n", serialized);
}

#[test]
fn boolean_to_string() {
    let value = true;
    assert_eq!("#t\r\n", enc(&RespValue::Boolean(value)));
}

#[test]
fn integer_to_string() {
    let value = 10;
    assert_eq!(":10\r\n", enc(&RespValue::Integer(value)));
}

#[test]
fn big_number_to_string() {
    let mut s = Serializer::new();
    s.serialize_u64(u64::MAX).unwrap();
    assert_eq!("(18446744073709551615\r\n", out(s));
}

#[test]
fn double_to_string() {
    let value = 101.0f64;
    let text = format!("{:?}", value);
    assert_eq!(",101.0\r\n", enc(&RespValue::Double(text.into_bytes())));
}

#[test]
fn simple_string_to_string() {
    let value = '+';
    assert_eq!("++\r\n", enc(&RespValue::Character(value)));
}

#[test]
fn bulk_string_to_string() {
    let value = "123456789";
    assert_eq!(
        format!("$9\r\n{value}\r\n"),
        enc(&RespValue::BulkString(value.as_bytes().to_vec()))
    );
}

#[test]
fn verbatim_string_to_string() {
    // Reserved tag: the encoder does not emit it yet.
    assert_eq!('=', RedisType::VERBATIM_STRING);
}

#[test]
fn simple_error_to_string() {
    // Reserved tag: the encoder does not emit it yet.
    assert_eq!('-', RedisType::SIMPLE_ERROR);
}

#[test]
fn bulk_error_to_string() {
    // Reserved tag: the encoder does not emit it yet.
    assert_eq!('!', RedisType::BULK_ERROR);
}

#[test]
fn null_to_string() {
    assert_eq!("_\r\n", enc(&RespValue::Null));
}

#[test]
fn array_to_string() {
    let value = vec!["a", "b"];
    let elems: Vec<RespValue> = value
        .iter()
        .map(|e| RespValue::BulkString(e.as_bytes().to_vec()))
        .collect();
    assert_eq!("*2\r\n$1\r\na\r\n$1\r\nb\r\n", enc(&RespValue::Array(elems)));
}

#[test]
fn map_to_string() {
    let mut value = HashMap::new();
    value.insert("k1", "v1");
    value.insert("k2", "v2");

    let pairs: Vec<(RespValue, RespValue)> = value
        .iter()
        .map(|(k, v)| {
            (
                RespValue::BulkString(k.as_bytes().to_vec()),
                RespValue::BulkString(v.as_bytes().to_vec()),
            )
        })
        .collect();

    let result1 = "%2\r\n$2\r\nk1\r\n$2\r\nv1\r\n$2\r\nk2\r\n$2\r\nv2\r\n".to_string();
    let result2 = "%2\r\n$2\r\nk2\r\n$2\r\nv2\r\n$2\r\nk1\r\n$2\r\nv1\r\n".to_string();
    let result = enc(&RespValue::Mapping(pairs));
    let matched = if result == result1 {
        true
    } else if result == result2 {
        true
    } else {
        false
    };
    assert!(matched);
}

#[test]
fn set_to_string() {
    // Reserved tag: the encoder does not emit it yet.
    assert_eq!('~', RedisType::SET);
}

#[test]
fn push_to_string() {
    // Reserved tag: the encoder does not emit it yet.
    assert_eq!('>', RedisType::PUSH);
}

#[test]
fn tag_table() {
    assert_eq!('#', RedisType::BOOLEAN);
    assert_eq!(':', RedisType::INTEGER);
    assert_eq!('(', RedisType::BIG_NUMBER);
    assert_eq!(',', RedisType::DOUBLE);
    assert_eq!('+', RedisType::SIMPLE_STRING);
    assert_eq!('$', RedisType::BULK_STRING);
    assert_eq!('_', RedisType::NULL);
    assert_eq!('*', RedisType::ARRAY);
    assert_eq!('%', RedisType::MAP);
    assert_eq!("\r\n", RedisType::CRLF);
}
