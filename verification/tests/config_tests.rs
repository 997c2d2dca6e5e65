//! Startup arguments and server configuration.
use respkv::cli::{validate_replicaof, Args};
use respkv::config::Config;

fn b(s: &str) -> Vec<u8> {
    s.as_bytes().to_vec()
}

fn args(dir: &str, dbfilename: &str, port: u16) -> Args {
    Args { dir: b(dir), dbfilename: b(dbfilename), port, replicaof: None }
}

#[test]
fn test_default_values() {
    let a = Args::default();
    assert_eq!(a.dir, b("~/.redis-rust"));
    assert_eq!(a.dbfilename, b("dump.rdb"));
    assert_eq!(a.port, 6379);
    assert_eq!(a.replicaof, None);
}

#[test]
fn test_replicaof_host_port_not_provided() {
    let a = Args::default();
    assert!(matches!(a.replicaof_host_port(), Ok(None)));

    let a = Args { replicaof: Some(b("localhost 6379")), ..Args::default() };
    assert_eq!(a.replicaof_host_port().unwrap(), Some((b("localhost"), 6379)));

    let a = Args { replicaof: Some(b("localhost:6379")), ..Args::default() };
    assert!(a.replicaof_host_port().is_err());

    let a = Args { replicaof: Some(b("127.0.0.1  6379")), ..Args::default() };
    assert_eq!(a.replicaof_host_port().unwrap(), Some((b("127.0.0.1"), 6379)));

    let a = Args { replicaof: Some(b("127.0.0.1")), ..Args::default() };
    assert!(a.replicaof_host_port().is_err());
}

#[test]
fn test_replicaof_port_out_of_range() {
    let a = Args { replicaof: Some(b("host 70000")), ..Args::default() };
    assert!(a.replicaof_host_port().is_err());
}

#[test]
fn test_validate_replicaof() {
    assert_eq!(validate_replicaof(b"host 6379"), Ok(b("host 6379")));
    assert!(validate_replicaof(b"").is_err());
}

#[test]
fn test_config_new() {
    let config = Config::new(args("/tmp", "test.rdb", 6379));
    assert_eq!(config.dir, b("/tmp"));
    assert_eq!(config.dbfilename, b("test.rdb"));
    assert_eq!(config.server_address, b("127.0.0.1"));
    assert_eq!(config.server_port, 6379);
}

#[test]
fn test_default_config() {
    let config = Config::default();
    assert_eq!(config.dir, b("~/redis-rust"));
    assert_eq!(config.dbfilename, b("dump.rdb"));
    assert_eq!(config.server_address, b("127.0.0.1"));
    assert_eq!(config.server_port, 6379);
}

#[test]
fn test_server_bind_address() {
    let config = Config::default();
    assert_eq!(config.server_bind_address(), b("127.0.0.1:6379"));
}

#[test]
fn test_server_bind_address_with_custom_port() {
    let config = Config {
        server_address: b("192.168.1.1"),
        server_port: 8080,
        ..Config::default()
    };
    assert_eq!(config.server_bind_address(), b("192.168.1.1:8080"));
}

#[test]
fn test_config_from_args() {
    let config = Config::new(args("/custom/dir", "custom.rdb", 6380));
    assert_eq!(config.dir, b("/custom/dir"));
    assert_eq!(config.dbfilename, b("custom.rdb"));
    assert_eq!(config.server_port, 6380);
}

#[test]
fn test_config_full_rdb_path() {
    let config = Config { dir: b("/var/redis"), dbfilename: b("dump.rdb"), ..Config::default() };
    assert_eq!(config.full_rdb_path(), b("/var/redis/dump.rdb"));
}

#[test]
fn test_config_default() {
    let config = Config::default();
    assert_eq!(config.dir, b("~/redis-rust"));
    assert_eq!(config.dbfilename, b("dump.rdb"));
}

#[test]
fn test_config_clone() {
    let config1 = Config { dir: b("/test/dir"), dbfilename: b("test.rdb"), ..Config::default() };
    let config2 = config1.clone();
    assert_eq!(config1.dir, config2.dir);
    assert_eq!(config1.dbfilename, config2.dbfilename);
}

#[test]
fn test_config_full_rdb_path_with_special_chars() {
    let config = Config {
        dir: b("/path/with spaces/and-dashes"),
        dbfilename: b("my-dump_file.rdb"),
        ..Config::default()
    };
    assert_eq!(config.full_rdb_path(), b("/path/with spaces/and-dashes/my-dump_file.rdb"));
}
