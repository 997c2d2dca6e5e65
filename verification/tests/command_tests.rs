//! Argument parsing and validation of the command set.
use respkv::commands::{
    GetCommand, RpushCommand, SetCommand,
};
use respkv::datatypes::RespValue;

fn bulk_string(s: &str) -> RespValue {
    RespValue::Bulk(s.as_bytes().to_vec())
}

fn set_command_args(key: &str, value: &str) -> Vec<RespValue> {
    vec![bulk_string(key), bulk_string(value)]
}

fn set_command_with_expiration(key: &str, value: &str, option: &str, ttl: &str) -> Vec<RespValue> {
    vec![bulk_string(key), bulk_string(value), bulk_string(option), bulk_string(ttl)]
}

fn message_of(e: respkv::commands::CommandError) -> String {
    String::from_utf8(e.message()).unwrap()
}

#[test]
fn test_set_command_ex_lowercase() {
    let command = SetCommand::new(&set_command_with_expiration("key_ex", "val_ex", "ex", "1")).unwrap();
    assert!(command.ttl_ms.is_some());
    assert_eq!(command.ttl_ms, Some(1000));
}

#[test]
fn test_set_command_px_uppercase() {
    let command = SetCommand::new(&set_command_with_expiration("key_px", "val_px", "PX", "500")).unwrap();
    assert!(command.ttl_ms.is_some());
    assert_eq!(command.ttl_ms, Some(500));
}

#[test]
fn test_set_command_without_ttl() {
    let command = SetCommand::new(&set_command_args("persistent", "forever")).unwrap();
    assert!(command.ttl_ms.is_none());
}

#[test]
fn test_set_command_missing_key() {
    let result = SetCommand::new(&[]);
    assert!(result.is_err());
    assert!(message_of(result.unwrap_err()).contains("Expected key"));
}

#[test]
fn test_set_command_missing_value() {
    let result = SetCommand::new(&[bulk_string("key")]);
    assert!(result.is_err());
    assert!(message_of(result.unwrap_err()).contains("Expected value"));
}

#[test]
fn test_get_command_missing_key() {
    let result = GetCommand::new(&[]);
    assert!(result.is_err());
    assert!(message_of(result.unwrap_err()).contains("Expected key"));
}

#[test]
fn test_set_command_invalid_ttl_option() {
    let result = SetCommand::new(&set_command_with_expiration("key", "value", "INVALID", "100"));
    assert!(result.is_err());
    assert!(message_of(result.unwrap_err()).contains("Unknown TTL option"));
}

#[test]
fn test_set_command_negative_ttl() {
    let result = SetCommand::new(&set_command_with_expiration("key", "value", "EX", "-5"));
    assert!(result.is_err());
    assert!(message_of(result.unwrap_err()).contains("TTL value must be positive"));
}

#[test]
fn test_set_command_zero_ttl() {
    let result = SetCommand::new(&set_command_with_expiration("key", "value", "PX", "0"));
    assert!(result.is_err());
    assert!(message_of(result.unwrap_err()).contains("TTL value must be positive"));
}

#[test]
fn test_set_command_wrong_type_for_key() {
    let result = SetCommand::new(&[RespValue::Int(123), bulk_string("value")]);
    assert!(result.is_err());
    assert!(message_of(result.unwrap_err()).contains("Expected bulk string for key"));
}

#[test]
fn test_set_command_wrong_type_for_value() {
    let result = SetCommand::new(&[bulk_string("key"), RespValue::Simple(b"value".to_vec())]);
    assert!(result.is_err());
    assert!(message_of(result.unwrap_err()).contains("Expected bulk string for value"));
}

#[test]
fn test_set_command_wrong_type_for_ttl_option() {
    let result = SetCommand::new(&[
        bulk_string("key"),
        bulk_string("value"),
        RespValue::Int(100),
        bulk_string("100"),
    ]);
    assert!(result.is_err());
    assert!(message_of(result.unwrap_err()).contains("Expected bulk string for TTL option"));
}

#[test]
fn test_set_command_wrong_type_for_ttl_value() {
    let result = SetCommand::new(&set_command_with_expiration("key", "value", "EX", "not_a_number"));
    assert!(result.is_err());
    assert!(message_of(result.unwrap_err()).contains("Invalid TTL value"));
}

#[test]
fn test_rpush_command_missing_value() {
    let result = RpushCommand::new(&[bulk_string("mylist")]);
    assert!(result.is_err());
    assert!(message_of(result.unwrap_err()).contains("RPUSH requires at least one value"));
}

#[test]
fn test_rpush_command_wrong_type_value() {
    let result = RpushCommand::new(&[bulk_string("mylist"), RespValue::Int(3)]);
    assert!(result.is_err());
    assert!(message_of(result.unwrap_err()).contains("Expected bulk string for value"));
}

#[test]
fn test_set_command_ttl_not_bulk_reported_before_option_name() {
    // a malformed TTL value is reported even when the option name is unknown
    let result = SetCommand::new(&set_command_with_expiration("key", "value", "NOPE", "xyz"));
    assert!(result.is_err());
    assert!(message_of(result.unwrap_err()).contains("Invalid TTL value"));
}

#[test]
fn test_config_command_unknown_action() {
    let result = respkv::commands::ConfigCommand::new(&[bulk_string("SET"), bulk_string("dir")]);
    assert!(result.is_err());
    assert!(message_of(result.unwrap_err()).contains("Unsupported config action"));
}

#[test]
fn test_wait_command_rejects_bad_count() {
    let result = respkv::commands::WaitCommand::new(&[bulk_string("-1"), bulk_string("100")]);
    assert!(result.is_err());
    assert!(message_of(result.unwrap_err()).contains("Invalid integer for num_replicas"));
}

#[test]
fn test_psync_command_parses_offset() {
    let cmd = respkv::commands::PsyncCommand::new(&[bulk_string("?"), bulk_string("-1")]).unwrap();
    assert_eq!(cmd.replication_id, b"?".to_vec());
    assert_eq!(cmd.replication_offset, -1);
}

#[test]
fn test_lrange_command_rejects_bad_index() {
    let result = respkv::commands::LrangeCommand::new(&[
        bulk_string("k"),
        bulk_string("zero"),
        bulk_string("1"),
    ]);
    assert!(result.is_err());
    assert!(message_of(result.unwrap_err()).contains("Invalid integer for start"));
}

#[test]
fn test_set_command_accepts_huge_ttl() {
    // any positive count that fits a 64-bit signed integer is accepted
    let command = SetCommand::new(&set_command_with_expiration(
        "k",
        "v",
        "PX",
        "2000000000000000000",
    ))
    .unwrap();
    assert_eq!(command.ttl_ms, Some(2000000000000000000));
    let command = SetCommand::new(&set_command_with_expiration(
        "k",
        "v",
        "PX",
        "9223372036854775807",
    ))
    .unwrap();
    assert_eq!(command.ttl_ms, Some(9223372036854775807));
    // one past the signed range overflows, as str::parse would report
    let result = SetCommand::new(&set_command_with_expiration(
        "k",
        "v",
        "PX",
        "9223372036854775808",
    ));
    assert!(result.is_err());
    assert!(message_of(result.unwrap_err()).contains("Invalid TTL value"));
}
