//! Glob matching, replication identities, frame serialization and the
//! snapshot reader.
use respkv::datatypes::{RespValue, SimpleString};
use respkv::matcher::is_match;
use respkv::rdb::{length_encoded_int, parse_key_value, parse_rdb_file};
use respkv::replication::{FollowerReplication, LeaderReplication};
use respkv::store::DataType;

fn b(s: &str) -> Vec<u8> {
    s.as_bytes().to_vec()
}

#[test]
fn test_is_match() {
    assert!(is_match(b"foo", b"*"));
    assert!(is_match(b"foo", b"f*"));
    assert!(is_match(b"foo", b"f*o"));
    assert!(is_match(b"foo", b"*o"));
    assert!(is_match(b"foo", b"*o*"));
    assert!(!is_match(b"foo", b"o"));
    assert!(!is_match(b"foo", b"fo"));
    assert!(!is_match(b"foo", b"oo"));
    assert!(!is_match(b"foo", b"zoo"));
}

#[test]
fn test_is_match_empty_cases() {
    assert!(is_match(b"", b""));
    assert!(is_match(b"", b"*"));
    assert!(!is_match(b"a", b""));
    assert!(is_match(b"anything", b"**"));
}

#[test]
fn test_master_replication() {
    let master_replication = LeaderReplication::default();
    assert_eq!(master_replication.replication_id.len(), 40);
    assert_eq!(master_replication.replication_offset, 0);
}

#[test]
fn test_follower_replication() {
    let follower_replication = FollowerReplication::new(b("master_host"), 6379);
    assert_eq!(follower_replication.leader_host, b("master_host"));
    assert_eq!(follower_replication.leader_port, 6379);
}

#[test]
fn test_simple_string_to_bytes() {
    let simple_string = SimpleString { value: b("Hello, World!") };
    assert_eq!(simple_string.to_bytes(), b"+Hello, World!\r\n".to_vec());
}

#[test]
fn test_encoders() {
    assert_eq!(RespValue::Int(42).to_bytes(), b":42\r\n".to_vec());
    assert_eq!(RespValue::Int(-7).to_bytes(), b":-7\r\n".to_vec());
    assert_eq!(RespValue::Bulk(b("hey")).to_bytes(), b"$3\r\nhey\r\n".to_vec());
    assert_eq!(RespValue::NullBulk.to_bytes(), b"$-1\r\n".to_vec());
    assert_eq!(RespValue::NullArr.to_bytes(), b"*-1\r\n".to_vec());
    assert_eq!(
        RespValue::Arr(vec![RespValue::Bulk(b("hi"))]).to_bytes(),
        b"*1\r\n$2\r\nhi\r\n".to_vec()
    );
}

#[test]
fn bit_tests() {
    let byte = 0x0Au8;
    assert_eq!((byte >> 6) & 0b11, 0);

    let byte = 0x42u8;
    assert_eq!((byte >> 6) & 0b11, 1);

    let byte = 0x80u8;
    assert_eq!((byte >> 6) & 0b11, 2);
}

#[test]
fn test_length_encoded_int_simple() {
    let bytes = [0x0Au8, 0x00];
    let (length, next) = length_encoded_int(&bytes, 0).unwrap();
    assert_eq!(length, 10);
    assert_eq!(next, 1);

    let bytes = [0x00u8, 0x0A, 0x00];
    let (length, next) = length_encoded_int(&bytes, 1).unwrap();
    assert_eq!(length, 10);
    assert_eq!(next, 2);
}

#[test]
fn test_length_encoded_int_additional_byte() {
    let bytes = [0x00u8, 0x0A, 0x00, 0x42, 0xBC, 0x00];
    let (length, next) = length_encoded_int(&bytes, 3).unwrap();
    assert_eq!(length, 700);
    assert_eq!(next, 5);
}

#[test]
fn test_length_encoded_int_additional_four_bytes() {
    let bytes = [0x80u8, 0x00, 0x00, 0x42, 0x68, 0x00];
    let (length, next) = length_encoded_int(&bytes, 0).unwrap();
    assert_eq!(length, 17000);
    assert_eq!(next, 5);
}

#[test]
fn test_length_encoded_int_unsupported_form() {
    let bytes = [0xC0u8, 0x00];
    assert!(length_encoded_int(&bytes, 0).is_err());
}

#[test]
fn test_key_value_no_expiration() {
    let bytes = [0x00u8, 0x03, 0x62, 0x61, 0x7A, 0x03, 0x71, 0x75, 0x78];
    let (key, store_value, next) = parse_key_value(&bytes, 0).unwrap().unwrap();
    assert_eq!(key, b("baz"));
    assert!(matches!(store_value.data, DataType::String(ref v) if *v == b("qux")));
    assert_eq!(store_value.expires_at, None);
    assert_eq!(next, 9);
}

#[test]
fn test_key_value_milliseconds_expiration() {
    let bytes = [
        0xFCu8, 0x15, 0x72, 0xE7, 0x07, 0x8F, 0x01, 0x00, 0x00, 0x00, 0x03, 0x66, 0x6F, 0x6F,
        0x03, 0x62, 0x61, 0x72,
    ];
    let (key, store_value, next) = parse_key_value(&bytes, 0).unwrap().unwrap();
    assert_eq!(key, b("foo"));
    assert!(matches!(store_value.data, DataType::String(ref v) if *v == b("bar")));
    assert_eq!(store_value.expires_at, Some(1713824559637));
    assert_eq!(next, 18);
}

#[test]
fn test_key_value_seconds_expiration() {
    let bytes = [
        0xFDu8, 0x52, 0xED, 0x2A, 0x66, 0x00, 0x03, 0x62, 0x61, 0x7A, 0x03, 0x71, 0x75, 0x78,
    ];
    let (key, store_value, next) = parse_key_value(&bytes, 0).unwrap().unwrap();
    assert_eq!(key, b("baz"));
    assert!(matches!(store_value.data, DataType::String(ref v) if *v == b("qux")));
    assert_eq!(store_value.expires_at, Some(1714089298u64 * 1000));
    assert_eq!(next, 14);
}

#[test]
fn test_key_value_end_marker() {
    let bytes = [0xFFu8, 0x00];
    assert!(parse_key_value(&bytes, 0).unwrap().is_none());
}

#[test]
fn test_parse_rdb_file_two_records() {
    let bytes: Vec<u8> = vec![
        82, 69, 68, 73, 83, 48, 48, 49, 50, 250, 9, 114, 101, 100, 105, 115, 45, 118, 101, 114,
        5, 56, 46, 50, 46, 51, 250, 10, 114, 101, 100, 105, 115, 45, 98, 105, 116, 115, 192, 64,
        250, 5, 99, 116, 105, 109, 101, 194, 148, 102, 18, 105, 250, 8, 117, 115, 101, 100, 45,
        109, 101, 109, 194, 80, 90, 13, 0, 250, 8, 97, 111, 102, 45, 98, 97, 115, 101, 192, 0,
        254, 0, 251, 2, 0, 0, 3, 116, 111, 111, 3, 116, 97, 114, 0, 3, 102, 111, 111, 3, 98, 97,
        114, 255, 214, 124, 113, 82, 225, 160, 123, 7,
    ];
    let rdb = parse_rdb_file(&bytes).unwrap();
    assert_eq!(rdb.version, b("0012"));
    let store = rdb.to_store_values();
    assert_eq!(store.get_string(b"too", 0), Some(b("tar")));
    assert_eq!(store.get_string(b"foo", 0), Some(b("bar")));
    assert_eq!(store.len(0), 2);
}

#[test]
fn test_parse_rdb_file_too_short() {
    assert!(parse_rdb_file(b"REDIS").is_err());
}
