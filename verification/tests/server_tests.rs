//! Wire-level scenarios: buffers in, reply bytes out, plus the leader's
//! replication ledger.
use respkv::commands::CommandAction;
use respkv::config::Config;
use respkv::connection::run_commands;
use respkv::replication::{FollowerReplication, LeaderReplication, ReplicationRole};
use respkv::replication_manager::{count_acknowledged, ReplicationLedger, WaitDecision};
use respkv::store::Store;

fn b(s: &str) -> Vec<u8> {
    s.as_bytes().to_vec()
}

fn leader_role() -> ReplicationRole {
    ReplicationRole::Leader(LeaderReplication {
        replication_id: b("8371b4fb1155b71f4a04d3e1bc3e18c4a990aeeb"),
        replication_offset: 0,
    })
}

fn follower_role() -> ReplicationRole {
    ReplicationRole::Follower(FollowerReplication::new(b("127.0.0.1"), 6379))
}

fn serve(store: &mut Store, role: &ReplicationRole, now: u64, wire: &[u8]) -> Vec<u8> {
    let config = Config::default();
    let out = run_commands(wire, store, &config, role, now);
    out.responses
}

#[test]
fn test_ping_round_trip() {
    // client sends PING, server replies PONG
    let mut store = Store::new();
    let role = leader_role();
    assert_eq!(serve(&mut store, &role, 0, b"*1\r\n$4\r\nPING\r\n"), b"+PONG\r\n".to_vec());
}

#[test]
fn test_set_get_with_px() {
    // SET with PX 500 answers OK; GET before the deadline sees the value,
    // after it the null bulk string
    let mut store = Store::new();
    let role = leader_role();
    let set_wire = b"*5\r\n$3\r\nSET\r\n$7\r\ntempkey\r\n$9\r\ntempvalue\r\n$2\r\nPX\r\n$3\r\n500\r\n";
    assert_eq!(serve(&mut store, &role, 0, set_wire), b"+OK\r\n".to_vec());
    let get_wire = b"*2\r\n$3\r\nGET\r\n$7\r\ntempkey\r\n";
    assert_eq!(serve(&mut store, &role, 400, get_wire), b"$9\r\ntempvalue\r\n".to_vec());
    assert_eq!(serve(&mut store, &role, 600, get_wire), b"$-1\r\n".to_vec());
}

#[test]
fn test_multi_frame_buffer() {
    // one buffer holding PING then ECHO produces exactly both replies
    let mut store = Store::new();
    let role = leader_role();
    let wire = b"*1\r\n$4\r\nPING\r\n*2\r\n$4\r\nECHO\r\n$5\r\nhello\r\n";
    assert_eq!(serve(&mut store, &role, 0, wire), b"+PONG\r\n$5\r\nhello\r\n".to_vec());
}

#[test]
fn test_trailing_partial_frame_left_unconsumed() {
    let mut store = Store::new();
    let role = leader_role();
    let config = Config::default();
    let mut wire = b"*1\r\n$4\r\nPING\r\n".to_vec();
    let whole = wire.len();
    wire.extend_from_slice(b"*2\r\n$4\r\nEC");
    let out = run_commands(&wire, &mut store, &config, &role, 0);
    assert_eq!(out.responses, b"+PONG\r\n".to_vec());
    assert_eq!(out.consumed, whole);
}

#[test]
fn test_type_flip() {
    // SET then RPUSH replaces the string; GET then sees null, LRANGE the list
    let mut store = Store::new();
    let role = leader_role();
    serve(&mut store, &role, 0, b"*3\r\n$3\r\nSET\r\n$1\r\nk\r\n$1\r\ns\r\n");
    assert_eq!(
        serve(&mut store, &role, 0, b"*3\r\n$5\r\nRPUSH\r\n$1\r\nk\r\n$1\r\nv\r\n"),
        b":1\r\n".to_vec()
    );
    assert_eq!(serve(&mut store, &role, 0, b"*2\r\n$3\r\nGET\r\n$1\r\nk\r\n"), b"$-1\r\n".to_vec());
    assert_eq!(
        serve(&mut store, &role, 0, b"*4\r\n$6\r\nLRANGE\r\n$1\r\nk\r\n$1\r\n0\r\n$2\r\n-1\r\n"),
        b"*1\r\n$1\r\nv\r\n".to_vec()
    );
}

#[test]
fn test_keys_star() {
    let mut store = Store::new();
    let role = leader_role();
    serve(&mut store, &role, 0, b"*3\r\n$3\r\nSET\r\n$3\r\nfoo\r\n$3\r\nbar\r\n");
    assert_eq!(
        serve(&mut store, &role, 0, b"*2\r\n$4\r\nKEYS\r\n$1\r\n*\r\n"),
        b"*1\r\n$3\r\nfoo\r\n".to_vec()
    );
}

#[test]
fn test_keys_quoted_pattern() {
    let mut store = Store::new();
    let role = leader_role();
    serve(&mut store, &role, 0, b"*3\r\n$3\r\nSET\r\n$3\r\nfoo\r\n$3\r\nbar\r\n");
    assert_eq!(
        serve(&mut store, &role, 0, b"*2\r\n$4\r\nKEYS\r\n$5\r\n\"foo\"\r\n"),
        b"*1\r\n$3\r\nfoo\r\n".to_vec()
    );
}

#[test]
fn test_rpush_rpop_over_the_wire() {
    let mut store = Store::new();
    let role = leader_role();
    assert_eq!(
        serve(
            &mut store,
            &role,
            0,
            b"*5\r\n$5\r\nRPUSH\r\n$5\r\nstack\r\n$1\r\na\r\n$1\r\nb\r\n$1\r\nc\r\n"
        ),
        b":3\r\n".to_vec()
    );
    assert_eq!(
        serve(&mut store, &role, 0, b"*2\r\n$4\r\nRPOP\r\n$5\r\nstack\r\n"),
        b"$1\r\nc\r\n".to_vec()
    );
}

#[test]
fn test_llen_over_the_wire() {
    let mut store = Store::new();
    let role = leader_role();
    serve(&mut store, &role, 0, b"*4\r\n$5\r\nRPUSH\r\n$1\r\nl\r\n$1\r\na\r\n$1\r\nb\r\n");
    assert_eq!(
        serve(&mut store, &role, 0, b"*2\r\n$4\r\nLLEN\r\n$1\r\nl\r\n"),
        b":2\r\n".to_vec()
    );
}

#[test]
fn test_unknown_command_stops_buffer() {
    let mut store = Store::new();
    let role = leader_role();
    let config = Config::default();
    let out = run_commands(b"*1\r\n$7\r\nUNKNOWN\r\n", &mut store, &config, &role, 0);
    assert!(out.responses.is_empty());
    assert_eq!(out.consumed, 0);
}

#[test]
fn test_command_names_are_case_insensitive() {
    let mut store = Store::new();
    let role = leader_role();
    assert_eq!(serve(&mut store, &role, 0, b"*1\r\n$4\r\nping\r\n"), b"+PONG\r\n".to_vec());
    assert_eq!(serve(&mut store, &role, 0, b"*1\r\n$4\r\nPiNg\r\n"), b"+PONG\r\n".to_vec());
}

#[test]
fn test_simple_string_ping_is_no_command() {
    let mut store = Store::new();
    let role = leader_role();
    assert_eq!(serve(&mut store, &role, 0, b"+PING\r\n"), Vec::<u8>::new());
}

#[test]
fn test_replconf_answers_ok() {
    let mut store = Store::new();
    let role = leader_role();
    assert_eq!(
        serve(
            &mut store,
            &role,
            0,
            b"*3\r\n$8\r\nREPLCONF\r\n$14\r\nlistening-port\r\n$4\r\n6379\r\n"
        ),
        b"+OK\r\n".to_vec()
    );
}

#[test]
fn test_config_get_over_the_wire() {
    let mut store = Store::new();
    let role = leader_role();
    assert_eq!(
        serve(&mut store, &role, 0, b"*3\r\n$6\r\nCONFIG\r\n$3\r\nGET\r\n$3\r\ndir\r\n"),
        b"*2\r\n$3\r\ndir\r\n$12\r\n~/redis-rust\r\n".to_vec()
    );
    assert_eq!(
        serve(&mut store, &role, 0, b"*3\r\n$6\r\nCONFIG\r\n$3\r\nGET\r\n$10\r\ndbfilename\r\n"),
        b"*2\r\n$10\r\ndbfilename\r\n$8\r\ndump.rdb\r\n".to_vec()
    );
}

#[test]
fn test_info_replication_leader_and_follower() {
    let mut store = Store::new();
    let leader = leader_role();
    let expected_body =
        "role:master\nmaster_replid:8371b4fb1155b71f4a04d3e1bc3e18c4a990aeeb\nmaster_repl_offset:0\n";
    let expected = format!("${}\r\n{}\r\n", expected_body.len(), expected_body);
    assert_eq!(
        serve(&mut store, &leader, 0, b"*1\r\n$4\r\nINFO\r\n"),
        expected.into_bytes()
    );
    let follower = follower_role();
    assert_eq!(
        serve(&mut store, &follower, 0, b"*1\r\n$4\r\nINFO\r\n"),
        b"$11\r\nrole:slave\n\r\n".to_vec()
    );
}

#[test]
fn test_psync_escalates_with_snapshot() {
    let mut store = Store::new();
    let role = leader_role();
    let config = Config::default();
    let out = run_commands(
        b"*3\r\n$5\r\nPSYNC\r\n$1\r\n?\r\n$2\r\n-1\r\n",
        &mut store,
        &config,
        &role,
        0,
    );
    match out.escalation {
        Some(CommandAction::PsyncHandshake { response, rdb_data }) => {
            assert_eq!(
                response,
                b"+FULLRESYNC 8371b4fb1155b71f4a04d3e1bc3e18c4a990aeeb 0\r\n".to_vec()
            );
            // the payload must be the decoded snapshot, not its base64 text
            let expected_payload = base64::Engine::decode(
                &base64::engine::general_purpose::STANDARD,
                respkv::rdb::empty_rdb_base64(),
            )
            .unwrap();
            let mut expected = format!("${}\r\n", expected_payload.len()).into_bytes();
            expected.extend_from_slice(&expected_payload);
            assert_eq!(rdb_data, expected);
        },
        _ => panic!("PSYNC on a leader must escalate into a handshake"),
    }
}

#[test]
fn test_psync_rejected_on_follower() {
    let mut store = Store::new();
    let role = follower_role();
    assert_eq!(
        serve(&mut store, &role, 0, b"*3\r\n$5\r\nPSYNC\r\n$1\r\n?\r\n$2\r\n-1\r\n"),
        b"-PSYNC not supported in follower mode\r\n".to_vec()
    );
}

#[test]
fn test_wait_escalates() {
    let mut store = Store::new();
    let role = leader_role();
    let config = Config::default();
    let out = run_commands(
        b"*3\r\n$4\r\nWAIT\r\n$1\r\n0\r\n$3\r\n100\r\n",
        &mut store,
        &config,
        &role,
        0,
    );
    match out.escalation {
        Some(CommandAction::ReplicaHealthCheck { num_replicas, timeout_ms }) => {
            assert_eq!(num_replicas, 0);
            assert_eq!(timeout_ms, 100);
        },
        _ => panic!("WAIT must escalate into an acknowledgement check"),
    }
}

#[test]
fn test_wait_decision_cases() {
    let mut ledger = ReplicationLedger::new();
    assert!(matches!(ledger.wait_decision(), WaitDecision::NoFollowers));
    ledger.register_follower();
    ledger.register_follower();
    assert!(matches!(ledger.wait_decision(), WaitDecision::AllCurrent(2)));
    ledger.record_propagated(0, 29);
    assert!(matches!(ledger.wait_decision(), WaitDecision::NeedAcks));
}

#[test]
fn test_ledger_counters() {
    let mut ledger = ReplicationLedger::new();
    let a = ledger.register_follower();
    let b2 = ledger.register_follower();
    assert_ne!(a, b2);
    assert_eq!(ledger.follower_count(), 2);
    assert_eq!(ledger.number_of_zero_byte_sent_followers(), 2);
    ledger.record_propagated(0, 29);
    assert_eq!(ledger.number_of_zero_byte_sent_followers(), 1);
    assert_eq!(ledger.master_offset, 29);
    ledger.record_propagated(1, 29);
    assert_eq!(ledger.master_offset, 58);
    assert_eq!(ledger.expected_offsets(), vec![29, 29]);
    ledger.remove_follower(0);
    assert_eq!(ledger.follower_count(), 1);
}

#[test]
fn test_count_acknowledged() {
    let expected = vec![29u64, 29, 58];
    let acks = vec![Some(29u64), Some(10), None];
    assert_eq!(count_acknowledged(&expected, &acks), 1);
    let acks = vec![Some(29u64), Some(58), Some(58)];
    assert_eq!(count_acknowledged(&expected, &acks), 3);
}

#[test]
fn test_set_propagation_frame_is_client_frame() {
    // the leader propagates the original frame bytes; the apply loop on a
    // follower then reaches the same keyspace
    let wire = b"*3\r\n$3\r\nSET\r\n$3\r\nfoo\r\n$3\r\nbar\r\n";
    let mut leader_store = Store::new();
    let leader = leader_role();
    serve(&mut leader_store, &leader, 0, wire);
    let mut follower_store = Store::new();
    let config = Config::default();
    let follower = follower_role();
    respkv::follower::apply_buffer(wire, &mut follower_store, &config, &follower, 0, 0);
    assert_eq!(
        leader_store.get_string(b"foo", 0),
        follower_store.get_string(b"foo", 0)
    );
}
