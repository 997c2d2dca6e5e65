//! The follower's handshake validation and apply loop.
use respkv::config::Config;
use respkv::datatypes::RespValue;
use respkv::follower::{
    ack_message, apply_buffer, psync_response_to_replication_id_and_offset,
    simple_string_from_response, HandshakeError,
};
use respkv::replication::{FollowerReplication, ReplicationRole};
use respkv::store::Store;

fn b(s: &str) -> Vec<u8> {
    s.as_bytes().to_vec()
}

fn follower_role() -> ReplicationRole {
    ReplicationRole::Follower(FollowerReplication::new(b("127.0.0.1"), 6379))
}

fn command_frame(parts: Vec<&str>) -> Vec<u8> {
    let items: Vec<RespValue> = parts.iter().map(|p| RespValue::Bulk(b(p))).collect();
    RespValue::Arr(items).to_bytes()
}

#[test]
fn test_psync_response_to_replication_id_and_offset_success() {
    let response = b"FULLRESYNC 8371b4fb1155b71f4a04d3e1bc3e18c4a990aeeb 0";
    let (replication_id, offset) =
        psync_response_to_replication_id_and_offset(response).unwrap();
    assert_eq!(replication_id, b("8371b4fb1155b71f4a04d3e1bc3e18c4a990aeeb"));
    assert_eq!(offset, 0);
}

#[test]
fn test_psync_response_to_replication_id_and_offset_with_nonzero_offset() {
    let response = b"FULLRESYNC 8371b4fb1155b71f4a04d3e1bc3e18c4a990aeeb 12345";
    let (replication_id, offset) =
        psync_response_to_replication_id_and_offset(response).unwrap();
    assert_eq!(replication_id, b("8371b4fb1155b71f4a04d3e1bc3e18c4a990aeeb"));
    assert_eq!(offset, 12345);
}

#[test]
fn test_psync_response_missing_action() {
    assert!(psync_response_to_replication_id_and_offset(b"").is_err());
}

#[test]
fn test_psync_response_wrong_action() {
    let response = b"WRONGACTION 8371b4fb1155b71f4a04d3e1bc3e18c4a990aeeb 0";
    assert!(psync_response_to_replication_id_and_offset(response).is_err());
}

#[test]
fn test_psync_response_missing_replication_id() {
    assert!(psync_response_to_replication_id_and_offset(b"FULLRESYNC").is_err());
}

#[test]
fn test_psync_response_invalid_replication_id_length() {
    assert!(psync_response_to_replication_id_and_offset(b"FULLRESYNC tooshort 0").is_err());
}

#[test]
fn test_psync_response_missing_offset() {
    let response = b"FULLRESYNC 8371b4fb1155b71f4a04d3e1bc3e18c4a990aeeb";
    assert!(psync_response_to_replication_id_and_offset(response).is_err());
}

#[test]
fn test_psync_response_invalid_offset() {
    let response = b"FULLRESYNC 8371b4fb1155b71f4a04d3e1bc3e18c4a990aeeb notanumber";
    assert!(psync_response_to_replication_id_and_offset(response).is_err());
}

#[test]
fn test_psync_response_negative_offset() {
    let response = b"FULLRESYNC 8371b4fb1155b71f4a04d3e1bc3e18c4a990aeeb -1";
    assert!(psync_response_to_replication_id_and_offset(response).is_err());
}

#[test]
fn test_simple_string_from_response() {
    assert_eq!(
        simple_string_from_response(Some(RespValue::Simple(b("PONG")))),
        Ok(b("PONG"))
    );
    assert_eq!(simple_string_from_response(None), Err(HandshakeError::NoResponse));
    assert_eq!(
        simple_string_from_response(Some(RespValue::Int(1))),
        Err(HandshakeError::UnexpectedType)
    );
}

#[test]
fn test_ack_message_format() {
    assert_eq!(ack_message(0), b"*3\r\n$8\r\nREPLCONF\r\n$3\r\nACK\r\n$1\r\n0\r\n".to_vec());
    assert_eq!(ack_message(57), b"*3\r\n$8\r\nREPLCONF\r\n$3\r\nACK\r\n$2\r\n57\r\n".to_vec());
}

#[test]
fn test_apply_set_from_leader() {
    let mut store = Store::new();
    let config = Config::default();
    let role = follower_role();
    let buf = command_frame(vec!["SET", "key", "value"]);
    let out = apply_buffer(&buf, &mut store, &config, &role, 0, 0);
    assert!(out.replies.is_empty());
    assert_eq!(out.consumed, buf.len());
    assert_eq!(out.new_offset, buf.len() as u64);
    assert_eq!(store.get_string(b"key", 0), Some(b("value")));
}

#[test]
fn test_apply_getack_alone_reports_zero() {
    let mut store = Store::new();
    let config = Config::default();
    let role = follower_role();
    let buf = command_frame(vec!["REPLCONF", "GETACK", "*"]);
    let out = apply_buffer(&buf, &mut store, &config, &role, 0, 0);
    assert_eq!(out.replies, command_frame(vec!["REPLCONF", "ACK", "0"]));
    assert_eq!(out.new_offset, 0);
}

#[test]
fn test_apply_getack_after_set_counts_set_bytes_only() {
    let mut store = Store::new();
    let config = Config::default();
    let role = follower_role();
    let set_frame = command_frame(vec!["SET", "key", "value"]);
    let set_size = set_frame.len();
    let mut buf = set_frame;
    buf.extend_from_slice(&command_frame(vec!["REPLCONF", "GETACK", "*"]));
    let out = apply_buffer(&buf, &mut store, &config, &role, 0, 0);
    assert_eq!(
        out.replies,
        command_frame(vec!["REPLCONF", "ACK", &set_size.to_string()])
    );
    assert_eq!(store.get_string(b"key", 0), Some(b("value")));
}

#[test]
fn test_follower_offset_two_sets_then_getack() {
    // two SET frames in one buffer, then GETACK: the acknowledged offset is
    // the byte length of the two SET frames combined
    let mut store = Store::new();
    let config = Config::default();
    let role = follower_role();
    let mut buf = command_frame(vec!["SET", "key1", "value1"]);
    buf.extend_from_slice(&command_frame(vec!["SET", "key2", "value2"]));
    let total_size = buf.len();
    buf.extend_from_slice(&command_frame(vec!["REPLCONF", "GETACK", "*"]));
    let out = apply_buffer(&buf, &mut store, &config, &role, 0, 0);
    assert_eq!(
        out.replies,
        command_frame(vec!["REPLCONF", "ACK", &total_size.to_string()])
    );
    assert_eq!(store.get_string(b"key1", 0), Some(b("value1")));
    assert_eq!(store.get_string(b"key2", 0), Some(b("value2")));
}

#[test]
fn test_apply_replconf_non_getack_is_silent() {
    let mut store = Store::new();
    let config = Config::default();
    let role = follower_role();
    let buf = command_frame(vec!["REPLCONF", "listening-port", "6380"]);
    let out = apply_buffer(&buf, &mut store, &config, &role, 0, 0);
    assert!(out.replies.is_empty());
    assert_eq!(out.consumed, buf.len());
}

#[test]
fn test_psync_response_with_large_offset() {
    let response = b"FULLRESYNC 8371b4fb1155b71f4a04d3e1bc3e18c4a990aeeb 2305843009213693952";
    let (_, offset) = psync_response_to_replication_id_and_offset(response).unwrap();
    assert_eq!(offset, 2305843009213693952);
    let response = b"FULLRESYNC 8371b4fb1155b71f4a04d3e1bc3e18c4a990aeeb 18446744073709551615";
    let (_, offset) = psync_response_to_replication_id_and_offset(response).unwrap();
    assert_eq!(offset, u64::MAX);
}

#[test]
fn test_ack_offset_of_large_offset() {
    let frame = RespValue::Arr(vec![
        RespValue::Bulk(b("REPLCONF")),
        RespValue::Bulk(b("ack")),
        RespValue::Bulk(b("2305843009213693952")),
    ]);
    assert_eq!(respkv::follower::ack_offset_of(&frame), Some(2305843009213693952));
    let other = RespValue::Simple(b("PONG"));
    assert_eq!(respkv::follower::ack_offset_of(&other), None);
}
