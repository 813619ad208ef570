use redis::error::Error;
use redis::ser::Serializer;
use redis::value::{check_wf, encode_checked, to_bytes, RespValue};

fn out(s: Serializer) -> String {
    String::from_utf8(s.into_bytes()).unwrap()
}

fn enc(v: &RespValue) -> String {
    String::from_utf8(to_bytes(v).unwrap()).unwrap()
}

#[test]
fn boolean_false() {
    let mut s = Serializer::new();
    s.write_boolean(false).unwrap();
    assert_eq!("#f\r\n", out(s));
}

#[test]
fn integer_negative() {
    let mut s = Serializer::new();
    s.write_integer(-42).unwrap();
    assert_eq!(":-42\r\n", out(s));
}

#[test]
fn integer_extremes() {
    let mut s = Serializer::new();
    s.write_integer(i64::MIN).unwrap();
    s.write_integer(i64::MAX).unwrap();
    s.write_integer(0).unwrap();
    assert_eq!(
        ":-9223372036854775808\r\n:9223372036854775807\r\n:0\r\n",
        out(s)
    );
}

#[test]
fn unsigned_routing() {
    // Unsigned 8-, 16- and 64-bit values that fit the signed range take the
    // integer token; 32-bit values take the big-number token even though
    // they would fit — a preserved quirk of the wire format.
    let mut s = Serializer::new();
    s.serialize_u8(255).unwrap();
    s.serialize_u16(65535).unwrap();
    s.serialize_u32(7).unwrap();
    s.serialize_u64(7).unwrap();
    assert_eq!(":255\r\n:65535\r\n(7\r\n:7\r\n", out(s));
}

#[test]
fn u64_big_number_only_past_signed_range() {
    let mut s = Serializer::new();
    s.serialize_u64(i64::MAX as u64).unwrap();
    s.serialize_u64(i64::MAX as u64 + 1).unwrap();
    assert_eq!(
        ":9223372036854775807\r\n(9223372036854775808\r\n",
        out(s)
    );
}

#[test]
fn big_number_text() {
    let mut s = Serializer::new();
    s.write_big_number(b"123456789012345678901234567890").unwrap();
    assert_eq!("(123456789012345678901234567890\r\n", out(s));
}

#[test]
fn empty_bulk_string() {
    let mut s = Serializer::new();
    s.write_bulk_string(b"").unwrap();
    assert_eq!("$0\r\n\r\n", out(s));
}

#[test]
fn bulk_string_length_counts_bytes() {
    // Two characters, but three bytes of UTF-8.
    let mut s = Serializer::new();
    s.serialize_str("aé").unwrap();
    assert_eq!("$3\r\naé\r\n", out(s));
}

#[test]
fn char_needing_escape_goes_bulk() {
    let mut s = Serializer::new();
    s.serialize_char('\r').unwrap();
    s.serialize_char('\n').unwrap();
    assert_eq!("$1\r\n\r\r\n$1\r\n\n\r\n", out(s));
}

#[test]
fn char_multibyte_goes_simple() {
    let mut s = Serializer::new();
    s.serialize_char('é').unwrap();
    assert_eq!("+é\r\n", out(s));
}

#[test]
fn bytes_valid_utf8() {
    let mut s = Serializer::new();
    s.serialize_bytes(b"abc").unwrap();
    assert_eq!("$3\r\nabc\r\n", out(s));
}

#[test]
fn bytes_invalid_utf8_rejected() {
    let mut s = Serializer::new();
    let r = s.serialize_bytes(&[0xff, 0xfe]);
    assert!(matches!(r, Err(Error::Utf8)));
    assert_eq!("", out(s));
}

#[test]
fn none_is_null() {
    let mut s = Serializer::new();
    s.serialize_none().unwrap();
    assert_eq!("_\r\n", out(s));
}

#[test]
fn unit_is_empty_array() {
    let mut s = Serializer::new();
    s.serialize_unit().unwrap();
    assert_eq!("*0\r\n", out(s));
}

#[test]
fn unit_struct_is_empty_map() {
    let mut s = Serializer::new();
    s.serialize_unit_struct("Marker").unwrap();
    assert_eq!("%0\r\n", out(s));
}

#[test]
fn unit_variant_is_bulk_name() {
    let mut s = Serializer::new();
    s.serialize_unit_variant("Choice", 1, "North").unwrap();
    assert_eq!("$5\r\nNorth\r\n", out(s));
}

#[test]
fn headers_default_to_zero() {
    let mut s = Serializer::new();
    s.write_array_header(None).unwrap();
    s.write_map_header(None).unwrap();
    s.write_array_header(Some(3)).unwrap();
    s.write_map_header(Some(2)).unwrap();
    assert_eq!("*0\r\n%0\r\n*3\r\n%2\r\n", out(s));
}

#[test]
fn signed_widths_share_the_integer_token() {
    let mut s = Serializer::new();
    s.serialize_i8(-8).unwrap();
    s.serialize_i16(-16).unwrap();
    s.serialize_i32(-32).unwrap();
    s.serialize_i64(-64).unwrap();
    assert_eq!(":-8\r\n:-16\r\n:-32\r\n:-64\r\n", out(s));
}

#[test]
fn nested_array() {
    let inner = RespValue::Array(vec![RespValue::Integer(1)]);
    let value = RespValue::Array(vec![inner, RespValue::Integer(2)]);
    assert_eq!("*2\r\n*1\r\n:1\r\n:2\r\n", enc(&value));
}

#[test]
fn struct_variant_field_names_go_simple() {
    let value = RespValue::StructVariant(vec![(b"x".to_vec(), RespValue::Integer(1))]);
    assert_eq!("%1\r\n+x\r\n:1\r\n", enc(&value));
}

#[test]
fn simple_string_value() {
    let value = RespValue::SimpleString(b"OK".to_vec());
    assert_eq!("+OK\r\n", enc(&value));
}

#[test]
fn simple_string_with_terminator_rejected() {
    let bad = RespValue::SimpleString(b"a\rb".to_vec());
    assert!(!check_wf(&bad));
    let mut s = Serializer::new();
    s.write_boolean(true).unwrap();
    let r = encode_checked(&mut s, &bad);
    assert!(matches!(r, Err(Error::Terminator)));
    // The output is left exactly as far as it got before the bad value.
    assert_eq!("#t\r\n", out(s));
}

#[test]
fn nested_ill_formed_value_rejected() {
    let bad = RespValue::Array(vec![
        RespValue::Integer(1),
        RespValue::SimpleString(b"a\nb".to_vec()),
    ]);
    assert!(matches!(to_bytes(&bad), Err(Error::Terminator)));
}

#[test]
fn error_messages() {
    assert_eq!("boom", Error::custom("boom".to_string()).message());
    assert_eq!("payload is not valid UTF-8", Error::Utf8.message());
    assert_eq!(
        "payload holds a line terminator",
        Error::Terminator.message()
    );
    assert_eq!("closed", Error::Io("closed".to_string()).message());
}

#[test]
fn empty_composites() {
    assert_eq!("*0\r\n", enc(&RespValue::Array(vec![])));
    assert_eq!("%0\r\n", enc(&RespValue::Mapping(vec![])));
    assert_eq!("%0\r\n", enc(&RespValue::Struct(vec![])));
    assert_eq!("*0\r\n", enc(&RespValue::Unit));
    assert_eq!("%0\r\n", enc(&RespValue::UnitStruct));
}

#[test]
fn mapping_keeps_supplied_order() {
    let pairs = vec![
        (
            RespValue::BulkString(b"b".to_vec()),
            RespValue::Integer(2),
        ),
        (
            RespValue::BulkString(b"a".to_vec()),
            RespValue::Integer(1),
        ),
    ];
    assert_eq!("%2\r\n$1\r\nb\r\n:2\r\n$1\r\na\r\n:1\r\n", enc(&RespValue::Mapping(pairs)));
}

#[test]
fn tuple_headers() {
    let mut s = Serializer::new();
    s.serialize_tuple(2).unwrap();
    s.serialize_tuple_struct("Pair", 2).unwrap();
    s.serialize_tuple_variant("E", 0, "V", 2).unwrap();
    s.serialize_seq(Some(1)).unwrap();
    s.serialize_seq(None).unwrap();
    assert_eq!("*2\r\n*2\r\n*2\r\n*1\r\n*0\r\n", out(s));
}

#[test]
fn record_headers() {
    let mut s = Serializer::new();
    s.serialize_map(Some(2)).unwrap();
    s.serialize_map(None).unwrap();
    s.serialize_struct("S", 3).unwrap();
    s.serialize_struct_variant("E", 0, "V", 1).unwrap();
    assert_eq!("%2\r\n%0\r\n%3\r\n%1\r\n", out(s));
}

#[test]
fn output_grows_token_by_token() {
    let mut s = Serializer::new();
    s.write_boolean(true).unwrap();
    assert_eq!(b"#t\r\n".to_vec(), s.output().clone());
    s.write_null().unwrap();
    assert_eq!(b"#t\r\n_\r\n".to_vec(), s.output().clone());
}
