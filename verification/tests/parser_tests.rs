//! The wire parser on scalar frames, arrays, and malformed or cut input.
use respkv::resp::{byte_to_ascii, parse_data_type, FrameParse};
use respkv::datatypes::RespValue;

fn parse_one(data: &[u8]) -> FrameParse {
    parse_data_type(data, 0)
}

fn expect_frame(data: &[u8]) -> (RespValue, usize) {
    match parse_one(data) {
        FrameParse::Frame(v, end) => (v, end),
        FrameParse::Incomplete => panic!("expected a frame, got incomplete"),
        FrameParse::Invalid => panic!("expected a frame, got invalid"),
    }
}

fn simple_payload(v: &RespValue) -> Vec<u8> {
    match v {
        RespValue::Simple(p) => p.clone(),
        _ => panic!("expected a simple string"),
    }
}

fn error_payload(v: &RespValue) -> Vec<u8> {
    match v {
        RespValue::Error(p) => p.clone(),
        _ => panic!("expected a simple error"),
    }
}

fn bulk_payload(v: &RespValue) -> Vec<u8> {
    match v {
        RespValue::Bulk(p) => p.clone(),
        _ => panic!("expected a bulk string"),
    }
}

fn int_value(v: &RespValue) -> i32 {
    match v {
        RespValue::Int(i) => *i,
        _ => panic!("expected an integer"),
    }
}

fn array_items(v: RespValue) -> Vec<RespValue> {
    match v {
        RespValue::Arr(items) => items,
        _ => panic!("expected an array"),
    }
}

#[test]
fn test_parse_simple_string_success() {
    let (v, end) = expect_frame(b"+OK\r\n");
    assert_eq!(simple_payload(&v), b"OK".to_vec());
    assert_eq!(end, 5);
}

#[test]
fn test_parse_simple_string_empty() {
    let (v, _) = expect_frame(b"+\r\n");
    assert_eq!(simple_payload(&v), Vec::<u8>::new());
}

#[test]
fn test_parse_simple_string_with_spaces() {
    let (v, _) = expect_frame(b"+Hello World\r\n");
    assert_eq!(simple_payload(&v), b"Hello World".to_vec());
}

#[test]
fn test_parse_bulk_string_success() {
    let (v, _) = expect_frame(b"$5\r\nhello\r\n");
    assert_eq!(bulk_payload(&v), b"hello".to_vec());
}

#[test]
fn test_parse_bulk_string_empty() {
    let (v, _) = expect_frame(b"$0\r\n\r\n");
    assert_eq!(bulk_payload(&v), Vec::<u8>::new());
}

#[test]
fn test_parse_bulk_string_with_special_chars() {
    let (v, _) = expect_frame(b"$13\r\nHello\r\nWorld!\r\n");
    assert_eq!(bulk_payload(&v), b"Hello\r\nWorld!".to_vec());
}

#[test]
fn test_parse_bulk_string_large() {
    let large = vec![b'a'; 1000];
    let mut input = format!("${}\r\n", large.len()).into_bytes();
    input.extend_from_slice(&large);
    input.extend_from_slice(b"\r\n");
    let (v, _) = expect_frame(&input);
    let payload = bulk_payload(&v);
    assert_eq!(payload.len(), 1000);
    assert_eq!(payload, large);
}

#[test]
fn test_parse_empty_array() {
    let (v, _) = expect_frame(b"*0\r\n");
    assert_eq!(array_items(v).len(), 0);
}

#[test]
fn test_parse_array_with_integers() {
    let (v, _) = expect_frame(b"*3\r\n:1\r\n:2\r\n:3\r\n");
    let items = array_items(v);
    assert_eq!(items.len(), 3);
    assert_eq!(int_value(&items[0]), 1);
    assert_eq!(int_value(&items[1]), 2);
    assert_eq!(int_value(&items[2]), 3);
}

#[test]
fn test_parse_array_with_simple_strings() {
    let (v, _) = expect_frame(b"*2\r\n+Hello\r\n+World\r\n");
    let items = array_items(v);
    assert_eq!(items.len(), 2);
    assert_eq!(simple_payload(&items[0]), b"Hello".to_vec());
    assert_eq!(simple_payload(&items[1]), b"World".to_vec());
}

#[test]
fn test_parse_array_single_element() {
    let (v, _) = expect_frame(b"*1\r\n$4\r\ntest\r\n");
    let items = array_items(v);
    assert_eq!(items.len(), 1);
    assert_eq!(bulk_payload(&items[0]), b"test".to_vec());
}

#[test]
fn test_parse_data_type_invalid_type() {
    assert!(matches!(parse_one(b"@invalid\r\n"), FrameParse::Invalid));
}

#[test]
fn test_parse_integer_negative() {
    let (v, _) = expect_frame(b":-42\r\n");
    assert_eq!(int_value(&v), -42);
}

#[test]
fn test_parse_integer_zero() {
    let (v, _) = expect_frame(b":0\r\n");
    assert_eq!(int_value(&v), 0);
}

#[test]
fn test_parse_error_message() {
    let (v, _) = expect_frame(b"-ERR unknown command\r\n");
    assert_eq!(error_payload(&v), b"ERR unknown command".to_vec());
}

#[test]
fn test_parse_error_empty() {
    let (v, _) = expect_frame(b"-\r\n");
    assert_eq!(error_payload(&v), Vec::<u8>::new());
}

#[test]
fn test_parse_data_type_partial_data() {
    assert!(matches!(parse_one(b"+OK"), FrameParse::Incomplete));
}

#[test]
fn resp_test_parse_integer() {
    let (v, _) = expect_frame(b":42\r\n");
    assert_eq!(int_value(&v), 42);
    let (v, _) = expect_frame(b":-123\r\n");
    assert_eq!(int_value(&v), -123);
    let (v, _) = expect_frame(b":0\r\n");
    assert_eq!(int_value(&v), 0);
}

#[test]
fn input_command_parser_test_parse_integer() {
    let (v, _) = expect_frame(b":42\r\n");
    assert_eq!(int_value(&v), 42);
    let (v, _) = expect_frame(b":-123\r\n");
    assert_eq!(int_value(&v), -123);
    let (v, _) = expect_frame(b":0\r\n");
    assert_eq!(int_value(&v), 0);
}

#[test]
fn resp_test_parse_error() {
    let (v, _) = expect_frame(b"-Error message\r\n");
    assert_eq!(error_payload(&v), b"Error message".to_vec());
    let (v, _) = expect_frame(b"-ERR unknown command 'foobar'\r\n");
    assert_eq!(error_payload(&v), b"ERR unknown command 'foobar'".to_vec());
}

#[test]
fn input_command_parser_test_parse_error() {
    let (v, _) = expect_frame(b"-Error message\r\n");
    assert_eq!(error_payload(&v), b"Error message".to_vec());
    let (v, _) = expect_frame(b"-ERR unknown command 'foobar'\r\n");
    assert_eq!(error_payload(&v), b"ERR unknown command 'foobar'".to_vec());
}

#[test]
fn resp_test_parse_array_with_mixed_types() {
    let (v, _) = expect_frame(b"*3\r\n$5\r\nhello\r\n:42\r\n+OK\r\n");
    let items = array_items(v);
    assert_eq!(items.len(), 3);
    assert_eq!(bulk_payload(&items[0]), b"hello".to_vec());
    assert_eq!(int_value(&items[1]), 42);
    assert_eq!(simple_payload(&items[2]), b"OK".to_vec());
}

#[test]
fn input_command_parser_test_parse_array_with_mixed_types() {
    let (v, _) = expect_frame(b"*3\r\n$5\r\nhello\r\n:42\r\n+OK\r\n");
    let items = array_items(v);
    assert_eq!(items.len(), 3);
    assert_eq!(bulk_payload(&items[0]), b"hello".to_vec());
    assert_eq!(int_value(&items[1]), 42);
    assert_eq!(simple_payload(&items[2]), b"OK".to_vec());
}

#[test]
fn resp_test_byte_to_ascii_conversion() {
    assert_eq!(byte_to_ascii(43), '+');
    assert_eq!(byte_to_ascii(42), '*');
    assert_eq!(byte_to_ascii(36), '$');
    assert_eq!(byte_to_ascii(58), ':');
    assert_eq!(byte_to_ascii(45), '-');
    assert_eq!(byte_to_ascii(65), 'A');
    assert_eq!(byte_to_ascii(97), 'a');
    assert_eq!(byte_to_ascii(48), '0');
    assert_eq!(byte_to_ascii(57), '9');
    assert_eq!(byte_to_ascii(13), '\r');
    assert_eq!(byte_to_ascii(10), '\n');
    assert_eq!(b'+', 43u8);
    assert_eq!(b'*', 42u8);
    assert_eq!(b'$', 36u8);
    assert_eq!(b':', 58u8);
    assert_eq!(b'-', 45u8);
}

#[test]
fn input_command_parser_test_byte_to_ascii_conversion() {
    assert_eq!(byte_to_ascii(43), '+');
    assert_eq!(byte_to_ascii(42), '*');
    assert_eq!(byte_to_ascii(36), '$');
    assert_eq!(byte_to_ascii(58), ':');
    assert_eq!(byte_to_ascii(45), '-');
    assert_eq!(byte_to_ascii(65), 'A');
    assert_eq!(byte_to_ascii(97), 'a');
    assert_eq!(byte_to_ascii(48), '0');
    assert_eq!(byte_to_ascii(57), '9');
    assert_eq!(byte_to_ascii(13), '\r');
    assert_eq!(byte_to_ascii(10), '\n');
}

#[test]
fn test_round_trip_concrete_frames() {
    // encode then decode gives back the same frame, consuming every byte
    let frames = vec![
        RespValue::Simple(b"PONG".to_vec()),
        RespValue::Error(b"ERR bad".to_vec()),
        RespValue::Int(-123),
        RespValue::Bulk(b"hello".to_vec()),
        RespValue::NullBulk,
        RespValue::NullArr,
        RespValue::Arr(vec![RespValue::Bulk(b"a".to_vec()), RespValue::Int(7)]),
    ];
    for f in frames {
        let encoded = f.to_bytes();
        match parse_data_type(&encoded, 0) {
            FrameParse::Frame(back, end) => {
                assert_eq!(end, encoded.len());
                assert_eq!(back.to_bytes(), encoded);
            },
            _ => panic!("round trip failed"),
        }
    }
}

#[test]
fn test_partial_prefix_is_incomplete() {
    let f = RespValue::Arr(vec![RespValue::Bulk(b"PING".to_vec())]);
    let encoded = f.to_bytes();
    for cut in 0..encoded.len() {
        assert!(matches!(parse_data_type(&encoded[..cut], 0), FrameParse::Incomplete));
    }
}
