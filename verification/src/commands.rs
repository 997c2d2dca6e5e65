//! The command set: one descriptor per supported command, each with a
//! parse from the decoded argument frames and an execute against the
//! keyspace, the configuration and the replication role.
use crate::datatypes::{
    encode_bulk, encode_error, encode_frame, encode_int, encode_null_bulk, encode_simple,
    models_of, push_all, Array, BulkString, FrameModel, Integer, NullBulkString, RespValue,
    SimpleError, SimpleString,
};
use crate::numbers::{dec_digits, int_of_line, length_of_line, sat_add, sat_mul};
use crate::store::{DataModel, Store};
use vstd::prelude::*;

verus! {


// ---------------------------------------------------------------------------
// Protocol text, as byte sequences.
// ---------------------------------------------------------------------------
// "PONG"
pub open spec fn t_pong() -> Seq<u8> {
    seq![80u8, 79u8, 78u8, 71u8]
}

// "OK"
pub open spec fn t_ok() -> Seq<u8> {
    seq![79u8, 75u8]
}

// "PING"
pub open spec fn t_ping() -> Seq<u8> {
    seq![80u8, 73u8, 78u8, 71u8]
}

// "ECHO"
pub open spec fn t_echo() -> Seq<u8> {
    seq![69u8, 67u8, 72u8, 79u8]
}

// "SET"
pub open spec fn t_set() -> Seq<u8> {
    seq![83u8, 69u8, 84u8]
}

// "GET"
pub open spec fn t_get() -> Seq<u8> {
    seq![71u8, 69u8, 84u8]
}

// "RPUSH"
pub open spec fn t_rpush() -> Seq<u8> {
    seq![82u8, 80u8, 85u8, 83u8, 72u8]
}

// "RPOP"
pub open spec fn t_rpop() -> Seq<u8> {
    seq![82u8, 80u8, 79u8, 80u8]
}

// "CONFIG"
pub open spec fn t_config() -> Seq<u8> {
    seq![67u8, 79u8, 78u8, 70u8, 73u8, 71u8]
}

// "KEYS"
pub open spec fn t_keys() -> Seq<u8> {
    seq![75u8, 69u8, 89u8, 83u8]
}

// "INFO"
pub open spec fn t_info() -> Seq<u8> {
    seq![73u8, 78u8, 70u8, 79u8]
}

// "REPLCONF"
pub open spec fn t_replconf() -> Seq<u8> {
    seq![82u8, 69u8, 80u8, 76u8, 67u8, 79u8, 78u8, 70u8]
}

// "PSYNC"
pub open spec fn t_psync() -> Seq<u8> {
    seq![80u8, 83u8, 89u8, 78u8, 67u8]
}

// "WAIT"
pub open spec fn t_wait() -> Seq<u8> {
    seq![87u8, 65u8, 73u8, 84u8]
}

// "LRANGE"
pub open spec fn t_lrange() -> Seq<u8> {
    seq![76u8, 82u8, 65u8, 78u8, 71u8, 69u8]
}

// "LLEN"
pub open spec fn t_llen() -> Seq<u8> {
    seq![76u8, 76u8, 69u8, 78u8]
}

// "EX"
pub open spec fn t_ex() -> Seq<u8> {
    seq![69u8, 88u8]
}

// "PX"
pub open spec fn t_px() -> Seq<u8> {
    seq![80u8, 88u8]
}

// "GETACK"
pub open spec fn t_getack() -> Seq<u8> {
    seq![71u8, 69u8, 84u8, 65u8, 67u8, 75u8]
}

// "ACK"
pub open spec fn t_ack() -> Seq<u8> {
    seq![65u8, 67u8, 75u8]
}

// "dir"
pub open spec fn t_dir() -> Seq<u8> {
    seq![100u8, 105u8, 114u8]
}

// "dbfilename"
pub open spec fn t_dbfilename() -> Seq<u8> {
    seq![100u8, 98u8, 102u8, 105u8, 108u8, 101u8, 110u8, 97u8, 109u8, 101u8]
}

// "role:master\n"
pub open spec fn t_role_master() -> Seq<u8> {
    seq![114u8, 111u8, 108u8, 101u8, 58u8, 109u8, 97u8, 115u8, 116u8, 101u8, 114u8, 10u8]
}

// "role:slave\n"
pub open spec fn t_role_slave() -> Seq<u8> {
    seq![114u8, 111u8, 108u8, 101u8, 58u8, 115u8, 108u8, 97u8, 118u8, 101u8, 10u8]
}

// "master_replid:"
pub open spec fn t_master_replid() -> Seq<u8> {
    seq![109u8, 97u8, 115u8, 116u8, 101u8, 114u8, 95u8, 114u8, 101u8, 112u8, 108u8, 105u8, 100u8, 58u8]
}

// "master_repl_offset:"
pub open spec fn t_master_repl_offset() -> Seq<u8> {
    seq![109u8, 97u8, 115u8, 116u8, 101u8, 114u8, 95u8, 114u8, 101u8, 112u8, 108u8, 95u8, 111u8, 102u8, 102u8, 115u8, 101u8, 116u8, 58u8]
}

// "FULLRESYNC "
pub open spec fn t_fullresync_prefix() -> Seq<u8> {
    seq![70u8, 85u8, 76u8, 76u8, 82u8, 69u8, 83u8, 89u8, 78u8, 67u8, 32u8]
}

// "PSYNC not supported in follower mode"
pub open spec fn t_psync_follower_error() -> Seq<u8> {
    seq![80u8, 83u8, 89u8, 78u8, 67u8, 32u8, 110u8, 111u8, 116u8, 32u8, 115u8, 117u8, 112u8, 112u8, 111u8, 114u8, 116u8, 101u8, 100u8, 32u8, 105u8, 110u8, 32u8, 102u8, 111u8, 108u8, 108u8, 111u8, 119u8, 101u8, 114u8, 32u8, 109u8, 111u8, 100u8, 101u8]
}

// "ERR cannot build snapshot"
pub open spec fn t_rdb_decode_error() -> Seq<u8> {
    seq![69u8, 82u8, 82u8, 32u8, 99u8, 97u8, 110u8, 110u8, 111u8, 116u8, 32u8, 98u8, 117u8, 105u8, 108u8, 100u8, 32u8, 115u8, 110u8, 97u8, 112u8, 115u8, 104u8, 111u8, 116u8]
}

// "Expected "
pub open spec fn m_expected() -> Seq<u8> {
    seq![69u8, 120u8, 112u8, 101u8, 99u8, 116u8, 101u8, 100u8, 32u8]
}

// "Expected bulk string for "
pub open spec fn m_expected_bulk() -> Seq<u8> {
    seq![69u8, 120u8, 112u8, 101u8, 99u8, 116u8, 101u8, 100u8, 32u8, 98u8, 117u8, 108u8, 107u8, 32u8, 115u8, 116u8, 114u8, 105u8, 110u8, 103u8, 32u8, 102u8, 111u8, 114u8, 32u8]
}

// "Invalid TTL value"
pub open spec fn m_invalid_ttl() -> Seq<u8> {
    seq![73u8, 110u8, 118u8, 97u8, 108u8, 105u8, 100u8, 32u8, 84u8, 84u8, 76u8, 32u8, 118u8, 97u8, 108u8, 117u8, 101u8]
}

// "TTL value must be positive"
pub open spec fn m_nonpositive_ttl() -> Seq<u8> {
    seq![84u8, 84u8, 76u8, 32u8, 118u8, 97u8, 108u8, 117u8, 101u8, 32u8, 109u8, 117u8, 115u8, 116u8, 32u8, 98u8, 101u8, 32u8, 112u8, 111u8, 115u8, 105u8, 116u8, 105u8, 118u8, 101u8]
}

// "Unknown TTL option"
pub open spec fn m_unknown_ttl_option() -> Seq<u8> {
    seq![85u8, 110u8, 107u8, 110u8, 111u8, 119u8, 110u8, 32u8, 84u8, 84u8, 76u8, 32u8, 111u8, 112u8, 116u8, 105u8, 111u8, 110u8]
}

// "Unsupported config action"
pub open spec fn m_unknown_config_action() -> Seq<u8> {
    seq![85u8, 110u8, 115u8, 117u8, 112u8, 112u8, 111u8, 114u8, 116u8, 101u8, 100u8, 32u8, 99u8, 111u8, 110u8, 102u8, 105u8, 103u8, 32u8, 97u8, 99u8, 116u8, 105u8, 111u8, 110u8]
}

// "RPUSH requires at least one value"
pub open spec fn m_rpush_needs_value() -> Seq<u8> {
    seq![82u8, 80u8, 85u8, 83u8, 72u8, 32u8, 114u8, 101u8, 113u8, 117u8, 105u8, 114u8, 101u8, 115u8, 32u8, 97u8, 116u8, 32u8, 108u8, 101u8, 97u8, 115u8, 116u8, 32u8, 111u8, 110u8, 101u8, 32u8, 118u8, 97u8, 108u8, 117u8, 101u8]
}

// "Invalid integer for "
pub open spec fn m_invalid_integer() -> Seq<u8> {
    seq![73u8, 110u8, 118u8, 97u8, 108u8, 105u8, 100u8, 32u8, 105u8, 110u8, 116u8, 101u8, 103u8, 101u8, 114u8, 32u8, 102u8, 111u8, 114u8, 32u8]
}

// "key"
pub open spec fn f_key() -> Seq<u8> {
    seq![107u8, 101u8, 121u8]
}

// "value"
pub open spec fn f_value() -> Seq<u8> {
    seq![118u8, 97u8, 108u8, 117u8, 101u8]
}

// "message"
pub open spec fn f_message() -> Seq<u8> {
    seq![109u8, 101u8, 115u8, 115u8, 97u8, 103u8, 101u8]
}

// "pattern"
pub open spec fn f_pattern() -> Seq<u8> {
    seq![112u8, 97u8, 116u8, 116u8, 101u8, 114u8, 110u8]
}

// "action"
pub open spec fn f_action() -> Seq<u8> {
    seq![97u8, 99u8, 116u8, 105u8, 111u8, 110u8]
}

// "TTL option"
pub open spec fn f_ttl_option() -> Seq<u8> {
    seq![84u8, 84u8, 76u8, 32u8, 111u8, 112u8, 116u8, 105u8, 111u8, 110u8]
}

// "TTL value"
pub open spec fn f_ttl_value() -> Seq<u8> {
    seq![84u8, 84u8, 76u8, 32u8, 118u8, 97u8, 108u8, 117u8, 101u8]
}

// "replication_id"
pub open spec fn f_replication_id() -> Seq<u8> {
    seq![114u8, 101u8, 112u8, 108u8, 105u8, 99u8, 97u8, 116u8, 105u8, 111u8, 110u8, 95u8, 105u8, 100u8]
}

// "offset"
pub open spec fn f_offset() -> Seq<u8> {
    seq![111u8, 102u8, 102u8, 115u8, 101u8, 116u8]
}

// "num_replicas"
pub open spec fn f_num_replicas() -> Seq<u8> {
    seq![110u8, 117u8, 109u8, 95u8, 114u8, 101u8, 112u8, 108u8, 105u8, 99u8, 97u8, 115u8]
}

// "timeout"
pub open spec fn f_timeout() -> Seq<u8> {
    seq![116u8, 105u8, 109u8, 101u8, 111u8, 117u8, 116u8]
}

// "start"
pub open spec fn f_start() -> Seq<u8> {
    seq![115u8, 116u8, 97u8, 114u8, 116u8]
}

// "stop"
pub open spec fn f_stop() -> Seq<u8> {
    seq![115u8, 116u8, 111u8, 112u8]
}

pub fn x_t_pong() -> (r: Vec<u8>)
    ensures
        r@ == t_pong(),
{
    let v = vec![80u8, 79u8, 78u8, 71u8];
    proof {
        assert(v@ =~= t_pong());
    }
    v
}

pub fn x_t_ok() -> (r: Vec<u8>)
    ensures
        r@ == t_ok(),
{
    let v = vec![79u8, 75u8];
    proof {
        assert(v@ =~= t_ok());
    }
    v
}

pub fn x_t_ping() -> (r: Vec<u8>)
    ensures
        r@ == t_ping(),
{
    let v = vec![80u8, 73u8, 78u8, 71u8];
    proof {
        assert(v@ =~= t_ping());
    }
    v
}

pub fn x_t_echo() -> (r: Vec<u8>)
    ensures
        r@ == t_echo(),
{
    let v = vec![69u8, 67u8, 72u8, 79u8];
    proof {
        assert(v@ =~= t_echo());
    }
    v
}

pub fn x_t_set() -> (r: Vec<u8>)
    ensures
        r@ == t_set(),
{
    let v = vec![83u8, 69u8, 84u8];
    proof {
        assert(v@ =~= t_set());
    }
    v
}

pub fn x_t_get() -> (r: Vec<u8>)
    ensures
        r@ == t_get(),
{
    let v = vec![71u8, 69u8, 84u8];
    proof {
        assert(v@ =~= t_get());
    }
    v
}

pub fn x_t_rpush() -> (r: Vec<u8>)
    ensures
        r@ == t_rpush(),
{
    let v = vec![82u8, 80u8, 85u8, 83u8, 72u8];
    proof {
        assert(v@ =~= t_rpush());
    }
    v
}

pub fn x_t_rpop() -> (r: Vec<u8>)
    ensures
        r@ == t_rpop(),
{
    let v = vec![82u8, 80u8, 79u8, 80u8];
    proof {
        assert(v@ =~= t_rpop());
    }
    v
}

pub fn x_t_config() -> (r: Vec<u8>)
    ensures
        r@ == t_config(),
{
    let v = vec![67u8, 79u8, 78u8, 70u8, 73u8, 71u8];
    proof {
        assert(v@ =~= t_config());
    }
    v
}

pub fn x_t_keys() -> (r: Vec<u8>)
    ensures
        r@ == t_keys(),
{
    let v = vec![75u8, 69u8, 89u8, 83u8];
    proof {
        assert(v@ =~= t_keys());
    }
    v
}

pub fn x_t_info() -> (r: Vec<u8>)
    ensures
        r@ == t_info(),
{
    let v = vec![73u8, 78u8, 70u8, 79u8];
    proof {
        assert(v@ =~= t_info());
    }
    v
}

pub fn x_t_replconf() -> (r: Vec<u8>)
    ensures
        r@ == t_replconf(),
{
    let v = vec![82u8, 69u8, 80u8, 76u8, 67u8, 79u8, 78u8, 70u8];
    proof {
        assert(v@ =~= t_replconf());
    }
    v
}

pub fn x_t_psync() -> (r: Vec<u8>)
    ensures
        r@ == t_psync(),
{
    let v = vec![80u8, 83u8, 89u8, 78u8, 67u8];
    proof {
        assert(v@ =~= t_psync());
    }
    v
}

pub fn x_t_wait() -> (r: Vec<u8>)
    ensures
        r@ == t_wait(),
{
    let v = vec![87u8, 65u8, 73u8, 84u8];
    proof {
        assert(v@ =~= t_wait());
    }
    v
}

pub fn x_t_lrange() -> (r: Vec<u8>)
    ensures
        r@ == t_lrange(),
{
    let v = vec![76u8, 82u8, 65u8, 78u8, 71u8, 69u8];
    proof {
        assert(v@ =~= t_lrange());
    }
    v
}

pub fn x_t_llen() -> (r: Vec<u8>)
    ensures
        r@ == t_llen(),
{
    let v = vec![76u8, 76u8, 69u8, 78u8];
    proof {
        assert(v@ =~= t_llen());
    }
    v
}

pub fn x_t_ex() -> (r: Vec<u8>)
    ensures
        r@ == t_ex(),
{
    let v = vec![69u8, 88u8];
    proof {
        assert(v@ =~= t_ex());
    }
    v
}

pub fn x_t_px() -> (r: Vec<u8>)
    ensures
        r@ == t_px(),
{
    let v = vec![80u8, 88u8];
    proof {
        assert(v@ =~= t_px());
    }
    v
}

pub fn x_t_getack() -> (r: Vec<u8>)
    ensures
        r@ == t_getack(),
{
    let v = vec![71u8, 69u8, 84u8, 65u8, 67u8, 75u8];
    proof {
        assert(v@ =~= t_getack());
    }
    v
}

pub fn x_t_ack() -> (r: Vec<u8>)
    ensures
        r@ == t_ack(),
{
    let v = vec![65u8, 67u8, 75u8];
    proof {
        assert(v@ =~= t_ack());
    }
    v
}

pub fn x_t_dir() -> (r: Vec<u8>)
    ensures
        r@ == t_dir(),
{
    let v = vec![100u8, 105u8, 114u8];
    proof {
        assert(v@ =~= t_dir());
    }
    v
}

pub fn x_t_dbfilename() -> (r: Vec<u8>)
    ensures
        r@ == t_dbfilename(),
{
    let v = vec![100u8, 98u8, 102u8, 105u8, 108u8, 101u8, 110u8, 97u8, 109u8, 101u8];
    proof {
        assert(v@ =~= t_dbfilename());
    }
    v
}

pub fn x_t_role_master() -> (r: Vec<u8>)
    ensures
        r@ == t_role_master(),
{
    let v = vec![114u8, 111u8, 108u8, 101u8, 58u8, 109u8, 97u8, 115u8, 116u8, 101u8, 114u8, 10u8];
    proof {
        assert(v@ =~= t_role_master());
    }
    v
}

pub fn x_t_role_slave() -> (r: Vec<u8>)
    ensures
        r@ == t_role_slave(),
{
    let v = vec![114u8, 111u8, 108u8, 101u8, 58u8, 115u8, 108u8, 97u8, 118u8, 101u8, 10u8];
    proof {
        assert(v@ =~= t_role_slave());
    }
    v
}

pub fn x_t_master_replid() -> (r: Vec<u8>)
    ensures
        r@ == t_master_replid(),
{
    let v = vec![109u8, 97u8, 115u8, 116u8, 101u8, 114u8, 95u8, 114u8, 101u8, 112u8, 108u8, 105u8, 100u8, 58u8];
    proof {
        assert(v@ =~= t_master_replid());
    }
    v
}

pub fn x_t_master_repl_offset() -> (r: Vec<u8>)
    ensures
        r@ == t_master_repl_offset(),
{
    let v = vec![109u8, 97u8, 115u8, 116u8, 101u8, 114u8, 95u8, 114u8, 101u8, 112u8, 108u8, 95u8, 111u8, 102u8, 102u8, 115u8, 101u8, 116u8, 58u8];
    proof {
        assert(v@ =~= t_master_repl_offset());
    }
    v
}

pub fn x_t_fullresync_prefix() -> (r: Vec<u8>)
    ensures
        r@ == t_fullresync_prefix(),
{
    let v = vec![70u8, 85u8, 76u8, 76u8, 82u8, 69u8, 83u8, 89u8, 78u8, 67u8, 32u8];
    proof {
        assert(v@ =~= t_fullresync_prefix());
    }
    v
}

pub fn x_t_psync_follower_error() -> (r: Vec<u8>)
    ensures
        r@ == t_psync_follower_error(),
{
    let v = vec![80u8, 83u8, 89u8, 78u8, 67u8, 32u8, 110u8, 111u8, 116u8, 32u8, 115u8, 117u8, 112u8, 112u8, 111u8, 114u8, 116u8, 101u8, 100u8, 32u8, 105u8, 110u8, 32u8, 102u8, 111u8, 108u8, 108u8, 111u8, 119u8, 101u8, 114u8, 32u8, 109u8, 111u8, 100u8, 101u8];
    proof {
        assert(v@ =~= t_psync_follower_error());
    }
    v
}

pub fn x_t_rdb_decode_error() -> (r: Vec<u8>)
    ensures
        r@ == t_rdb_decode_error(),
{
    let v = vec![69u8, 82u8, 82u8, 32u8, 99u8, 97u8, 110u8, 110u8, 111u8, 116u8, 32u8, 98u8, 117u8, 105u8, 108u8, 100u8, 32u8, 115u8, 110u8, 97u8, 112u8, 115u8, 104u8, 111u8, 116u8];
    proof {
        assert(v@ =~= t_rdb_decode_error());
    }
    v
}

pub fn x_m_expected() -> (r: Vec<u8>)
    ensures
        r@ == m_expected(),
{
    let v = vec![69u8, 120u8, 112u8, 101u8, 99u8, 116u8, 101u8, 100u8, 32u8];
    proof {
        assert(v@ =~= m_expected());
    }
    v
}

pub fn x_m_expected_bulk() -> (r: Vec<u8>)
    ensures
        r@ == m_expected_bulk(),
{
    let v = vec![69u8, 120u8, 112u8, 101u8, 99u8, 116u8, 101u8, 100u8, 32u8, 98u8, 117u8, 108u8, 107u8, 32u8, 115u8, 116u8, 114u8, 105u8, 110u8, 103u8, 32u8, 102u8, 111u8, 114u8, 32u8];
    proof {
        assert(v@ =~= m_expected_bulk());
    }
    v
}

pub fn x_m_invalid_ttl() -> (r: Vec<u8>)
    ensures
        r@ == m_invalid_ttl(),
{
    let v = vec![73u8, 110u8, 118u8, 97u8, 108u8, 105u8, 100u8, 32u8, 84u8, 84u8, 76u8, 32u8, 118u8, 97u8, 108u8, 117u8, 101u8];
    proof {
        assert(v@ =~= m_invalid_ttl());
    }
    v
}

pub fn x_m_nonpositive_ttl() -> (r: Vec<u8>)
    ensures
        r@ == m_nonpositive_ttl(),
{
    let v = vec![84u8, 84u8, 76u8, 32u8, 118u8, 97u8, 108u8, 117u8, 101u8, 32u8, 109u8, 117u8, 115u8, 116u8, 32u8, 98u8, 101u8, 32u8, 112u8, 111u8, 115u8, 105u8, 116u8, 105u8, 118u8, 101u8];
    proof {
        assert(v@ =~= m_nonpositive_ttl());
    }
    v
}

pub fn x_m_unknown_ttl_option() -> (r: Vec<u8>)
    ensures
        r@ == m_unknown_ttl_option(),
{
    let v = vec![85u8, 110u8, 107u8, 110u8, 111u8, 119u8, 110u8, 32u8, 84u8, 84u8, 76u8, 32u8, 111u8, 112u8, 116u8, 105u8, 111u8, 110u8];
    proof {
        assert(v@ =~= m_unknown_ttl_option());
    }
    v
}

pub fn x_m_unknown_config_action() -> (r: Vec<u8>)
    ensures
        r@ == m_unknown_config_action(),
{
    let v = vec![85u8, 110u8, 115u8, 117u8, 112u8, 112u8, 111u8, 114u8, 116u8, 101u8, 100u8, 32u8, 99u8, 111u8, 110u8, 102u8, 105u8, 103u8, 32u8, 97u8, 99u8, 116u8, 105u8, 111u8, 110u8];
    proof {
        assert(v@ =~= m_unknown_config_action());
    }
    v
}

pub fn x_m_rpush_needs_value() -> (r: Vec<u8>)
    ensures
        r@ == m_rpush_needs_value(),
{
    let v = vec![82u8, 80u8, 85u8, 83u8, 72u8, 32u8, 114u8, 101u8, 113u8, 117u8, 105u8, 114u8, 101u8, 115u8, 32u8, 97u8, 116u8, 32u8, 108u8, 101u8, 97u8, 115u8, 116u8, 32u8, 111u8, 110u8, 101u8, 32u8, 118u8, 97u8, 108u8, 117u8, 101u8];
    proof {
        assert(v@ =~= m_rpush_needs_value());
    }
    v
}

pub fn x_m_invalid_integer() -> (r: Vec<u8>)
    ensures
        r@ == m_invalid_integer(),
{
    let v = vec![73u8, 110u8, 118u8, 97u8, 108u8, 105u8, 100u8, 32u8, 105u8, 110u8, 116u8, 101u8, 103u8, 101u8, 114u8, 32u8, 102u8, 111u8, 114u8, 32u8];
    proof {
        assert(v@ =~= m_invalid_integer());
    }
    v
}

pub fn x_f_key() -> (r: Vec<u8>)
    ensures
        r@ == f_key(),
{
    let v = vec![107u8, 101u8, 121u8];
    proof {
        assert(v@ =~= f_key());
    }
    v
}

pub fn x_f_value() -> (r: Vec<u8>)
    ensures
        r@ == f_value(),
{
    let v = vec![118u8, 97u8, 108u8, 117u8, 101u8];
    proof {
        assert(v@ =~= f_value());
    }
    v
}

pub fn x_f_message() -> (r: Vec<u8>)
    ensures
        r@ == f_message(),
{
    let v = vec![109u8, 101u8, 115u8, 115u8, 97u8, 103u8, 101u8];
    proof {
        assert(v@ =~= f_message());
    }
    v
}

pub fn x_f_pattern() -> (r: Vec<u8>)
    ensures
        r@ == f_pattern(),
{
    let v = vec![112u8, 97u8, 116u8, 116u8, 101u8, 114u8, 110u8];
    proof {
        assert(v@ =~= f_pattern());
    }
    v
}

pub fn x_f_action() -> (r: Vec<u8>)
    ensures
        r@ == f_action(),
{
    let v = vec![97u8, 99u8, 116u8, 105u8, 111u8, 110u8];
    proof {
        assert(v@ =~= f_action());
    }
    v
}

pub fn x_f_ttl_option() -> (r: Vec<u8>)
    ensures
        r@ == f_ttl_option(),
{
    let v = vec![84u8, 84u8, 76u8, 32u8, 111u8, 112u8, 116u8, 105u8, 111u8, 110u8];
    proof {
        assert(v@ =~= f_ttl_option());
    }
    v
}

pub fn x_f_ttl_value() -> (r: Vec<u8>)
    ensures
        r@ == f_ttl_value(),
{
    let v = vec![84u8, 84u8, 76u8, 32u8, 118u8, 97u8, 108u8, 117u8, 101u8];
    proof {
        assert(v@ =~= f_ttl_value());
    }
    v
}

pub fn x_f_replication_id() -> (r: Vec<u8>)
    ensures
        r@ == f_replication_id(),
{
    let v = vec![114u8, 101u8, 112u8, 108u8, 105u8, 99u8, 97u8, 116u8, 105u8, 111u8, 110u8, 95u8, 105u8, 100u8];
    proof {
        assert(v@ =~= f_replication_id());
    }
    v
}

pub fn x_f_offset() -> (r: Vec<u8>)
    ensures
        r@ == f_offset(),
{
    let v = vec![111u8, 102u8, 102u8, 115u8, 101u8, 116u8];
    proof {
        assert(v@ =~= f_offset());
    }
    v
}

pub fn x_f_num_replicas() -> (r: Vec<u8>)
    ensures
        r@ == f_num_replicas(),
{
    let v = vec![110u8, 117u8, 109u8, 95u8, 114u8, 101u8, 112u8, 108u8, 105u8, 99u8, 97u8, 115u8];
    proof {
        assert(v@ =~= f_num_replicas());
    }
    v
}

pub fn x_f_timeout() -> (r: Vec<u8>)
    ensures
        r@ == f_timeout(),
{
    let v = vec![116u8, 105u8, 109u8, 101u8, 111u8, 117u8, 116u8];
    proof {
        assert(v@ =~= f_timeout());
    }
    v
}

pub fn x_f_start() -> (r: Vec<u8>)
    ensures
        r@ == f_start(),
{
    let v = vec![115u8, 116u8, 97u8, 114u8, 116u8];
    proof {
        assert(v@ =~= f_start());
    }
    v
}

pub fn x_f_stop() -> (r: Vec<u8>)
    ensures
        r@ == f_stop(),
{
    let v = vec![115u8, 116u8, 111u8, 112u8];
    proof {
        assert(v@ =~= f_stop());
    }
    v
}

// ---------------------------------------------------------------------------
// Case folding and argument access.
// ---------------------------------------------------------------------------
pub open spec fn ascii_upper(b: u8) -> u8 {
    if 97 <= b <= 122 {
        (b - 32) as u8
    } else {
        b
    }
}

pub open spec fn upper(s: Seq<u8>) -> Seq<u8> {
    s.map_values(|b: u8| ascii_upper(b))
}

pub open spec fn ascii_lower(b: u8) -> u8 {
    if 65 <= b <= 90 {
        (b + 32) as u8
    } else {
        b
    }
}

pub open spec fn lower(s: Seq<u8>) -> Seq<u8> {
    s.map_values(|b: u8| ascii_lower(b))
}

/// Upper-cases ASCII letters, leaving every other byte alone.
pub fn upper_bytes(v: &[u8]) -> (r: Vec<u8>)
    ensures
        r@ == upper(v@),
{
    let mut out: Vec<u8> = Vec::new();
    let mut i: usize = 0;
    while i < v.len()
        invariant
            i <= v@.len(),
            out@.len() == i,
            forall|j: int| 0 <= j < i ==> out@[j] == ascii_upper(#[trigger] v@[j]),
        decreases v@.len() - i,
    {
        let b = v[i];
        if 97 <= b && b <= 122 {
            out.push(b - 32);
        } else {
            out.push(b);
        }
        i += 1;
    }
    proof {
        assert(out@ =~= upper(v@));
    }
    out
}

/// Lower-cases ASCII letters, leaving every other byte alone.
pub fn lower_bytes(v: &[u8]) -> (r: Vec<u8>)
    ensures
        r@ == lower(v@),
{
    let mut out: Vec<u8> = Vec::new();
    let mut i: usize = 0;
    while i < v.len()
        invariant
            i <= v@.len(),
            out@.len() == i,
            forall|j: int| 0 <= j < i ==> out@[j] == ascii_lower(#[trigger] v@[j]),
        decreases v@.len() - i,
    {
        let b = v[i];
        if 65 <= b && b <= 90 {
            out.push(b + 32);
        } else {
            out.push(b);
        }
        i += 1;
    }
    proof {
        assert(out@ =~= lower(v@));
    }
    out
}

/// Which argument a validation error is about.
#[derive(Debug, PartialEq, Eq, Structural, Clone, Copy)]
pub enum ArgField {
    Key,
    Value,
    Message,
    Pattern,
    Action,
    TtlOption,
    TtlValue,
    ReplicationId,
    Offset,
    NumReplicas,
    Timeout,
    Start,
    Stop,
}

/// Why a command's arguments were rejected; surfaces before any side effect.
#[derive(Debug, PartialEq, Eq, Structural, Clone, Copy)]
pub enum CommandError {
    Missing(ArgField),
    NotBulkString(ArgField),
    InvalidTtl,
    NonPositiveTtl,
    UnknownTtlOption,
    UnknownConfigAction,
    MissingValues,
    InvalidInteger(ArgField),
}

pub open spec fn field_text(f: ArgField) -> Seq<u8> {
    match f {
        ArgField::Key => f_key(),
        ArgField::Value => f_value(),
        ArgField::Message => f_message(),
        ArgField::Pattern => f_pattern(),
        ArgField::Action => f_action(),
        ArgField::TtlOption => f_ttl_option(),
        ArgField::TtlValue => f_ttl_value(),
        ArgField::ReplicationId => f_replication_id(),
        ArgField::Offset => f_offset(),
        ArgField::NumReplicas => f_num_replicas(),
        ArgField::Timeout => f_timeout(),
        ArgField::Start => f_start(),
        ArgField::Stop => f_stop(),
    }
}

pub open spec fn error_text(e: CommandError) -> Seq<u8> {
    match e {
        CommandError::Missing(f) => m_expected() + field_text(f),
        CommandError::NotBulkString(f) => m_expected_bulk() + field_text(f),
        CommandError::InvalidTtl => m_invalid_ttl(),
        CommandError::NonPositiveTtl => m_nonpositive_ttl(),
        CommandError::UnknownTtlOption => m_unknown_ttl_option(),
        CommandError::UnknownConfigAction => m_unknown_config_action(),
        CommandError::MissingValues => m_rpush_needs_value(),
        CommandError::InvalidInteger(f) => m_invalid_integer() + field_text(f),
    }
}

fn field_text_bytes(f: ArgField) -> (r: Vec<u8>)
    ensures
        r@ == field_text(f),
{
    match f {
        ArgField::Key => x_f_key(),
        ArgField::Value => x_f_value(),
        ArgField::Message => x_f_message(),
        ArgField::Pattern => x_f_pattern(),
        ArgField::Action => x_f_action(),
        ArgField::TtlOption => x_f_ttl_option(),
        ArgField::TtlValue => x_f_ttl_value(),
        ArgField::ReplicationId => x_f_replication_id(),
        ArgField::Offset => x_f_offset(),
        ArgField::NumReplicas => x_f_num_replicas(),
        ArgField::Timeout => x_f_timeout(),
        ArgField::Start => x_f_start(),
        ArgField::Stop => x_f_stop(),
    }
}

impl CommandError {
    /// The human-readable description of the error.
    pub fn message(&self) -> (r: Vec<u8>)
        ensures
            r@ == error_text(*self),
    {
        match self {
            CommandError::Missing(f) => {
                let mut out = x_m_expected();
                let tail = field_text_bytes(*f);
                push_all(&mut out, tail.as_slice());
                out
            },
            CommandError::NotBulkString(f) => {
                let mut out = x_m_expected_bulk();
                let tail = field_text_bytes(*f);
                push_all(&mut out, tail.as_slice());
                out
            },
            CommandError::InvalidTtl => x_m_invalid_ttl(),
            CommandError::NonPositiveTtl => x_m_nonpositive_ttl(),
            CommandError::UnknownTtlOption => x_m_unknown_ttl_option(),
            CommandError::UnknownConfigAction => x_m_unknown_config_action(),
            CommandError::MissingValues => x_m_rpush_needs_value(),
            CommandError::InvalidInteger(f) => {
                let mut out = x_m_invalid_integer();
                let tail = field_text_bytes(*f);
                push_all(&mut out, tail.as_slice());
                out
            },
        }
    }
}

/// The payload of the bulk string at position `i`, when there is one.
pub open spec fn bulk_arg(ms: Seq<FrameModel>, i: int) -> Option<Seq<u8>> {
    if 0 <= i < ms.len() {
        match ms[i] {
            FrameModel::Bulk(p) => Some(p),
            _ => None,
        }
    } else {
        None
    }
}

/// The error an extraction of argument `i` reports when it fails.
pub open spec fn arg_error(ms: Seq<FrameModel>, i: int, f: ArgField) -> CommandError {
    if i < ms.len() {
        CommandError::NotBulkString(f)
    } else {
        CommandError::Missing(f)
    }
}

/// Extracts the bulk string payload at `index` from the argument frames.
pub fn extract_bulk_string(args: &[RespValue], index: usize, field: ArgField) -> (r: Result<
    Vec<u8>,
    CommandError,
>)
    ensures
        ({
            let ms = models_of(args@);
            &&& (r matches Ok(v) ==> bulk_arg(ms, index as int) == Some(v@))
            &&& (r matches Err(e) ==> bulk_arg(ms, index as int) is None && e == arg_error(
                ms,
                index as int,
                field,
            ))
        }),
{
    proof {
        crate::datatypes::lemma_models_of(args@);
    }
    if index >= args.len() {
        return Err(CommandError::Missing(field));
    }
    let entry = &args[index];
    proof {
        assert(args@[index as int] == *entry);
        assert(models_of(args@)[index as int] == args@[index as int].model());
    }
    match entry {
        RespValue::Bulk(v) => {
            proof {
                assert((*entry).model() == FrameModel::Bulk(v@));
            }
            let copy = crate::store::duplicate_bytes(v);
            Ok(copy)
        },
        _ => Err(CommandError::NotBulkString(field)),
    }
}

// ---------------------------------------------------------------------------
// The commands and their argument parsing. Each `new` takes the argument
// frames that follow the command name on the wire.
// ---------------------------------------------------------------------------
#[derive(Debug)]
pub struct PingCommand {}

#[derive(Debug)]
pub struct EchoCommand {
    pub message: Vec<u8>,
}

impl EchoCommand {
    /// An absent or non-bulk argument echoes as the empty string.
    pub fn new(echo_message: &[RespValue]) -> (r: EchoCommand)
        ensures
            r.message@ == (match bulk_arg(models_of(echo_message@), 0) {
                Some(p) => p,
                None => Seq::<u8>::empty(),
            }),
    {
        match extract_bulk_string(echo_message, 0, ArgField::Message) {
            Ok(v) => EchoCommand { message: v },
            Err(_) => EchoCommand { message: Vec::new() },
        }
    }
}

/// When a TTL suboption is present: the deadline span in milliseconds, or
/// why it was rejected.
pub enum TtlSpec {
    NoTtl,
    Ttl(u64),
    Reject(CommandError),
}

/// The value a signed decimal argument parses to, with the bounds of a
/// 64-bit signed integer.
pub open spec fn spec_i64_value(line: Seq<u8>) -> Option<int> {
    match int_of_line(line) {
        Some(v) => if -0x8000_0000_0000_0000 <= v <= 0x7fff_ffff_ffff_ffff {
            Some(v)
        } else {
            None
        },
        None => None,
    }
}

/// The TTL suboption of a SET argument list: absent when fewer than four
/// arguments are given; EX counts seconds, PX milliseconds; the count must
/// be a strictly positive integer.
pub open spec fn spec_parse_ttl(ms: Seq<FrameModel>) -> TtlSpec {
    if ms.len() < 4 {
        TtlSpec::NoTtl
    } else {
        match bulk_arg(ms, 2) {
            None => TtlSpec::Reject(arg_error(ms, 2, ArgField::TtlOption)),
            Some(opt) => match bulk_arg(ms, 3) {
                None => TtlSpec::Reject(arg_error(ms, 3, ArgField::TtlValue)),
                Some(tv) => match spec_i64_value(tv) {
                    None => TtlSpec::Reject(CommandError::InvalidTtl),
                    Some(v) => if v <= 0 {
                        TtlSpec::Reject(CommandError::NonPositiveTtl)
                    } else if upper(opt) == t_ex() {
                        TtlSpec::Ttl(sat_mul(v, 1000) as u64)
                    } else if upper(opt) == t_px() {
                        TtlSpec::Ttl(v as u64)
                    } else {
                        TtlSpec::Reject(CommandError::UnknownTtlOption)
                    },
                },
            },
        }
    }
}

#[derive(Debug)]
pub struct SetCommand {
    pub key: Vec<u8>,
    pub value: Vec<u8>,
    pub ttl_ms: Option<u64>,
}

/// Why a SET argument list is rejected, if it is.
pub open spec fn set_error(ms: Seq<FrameModel>) -> Option<CommandError> {
    if bulk_arg(ms, 0) is None {
        Some(arg_error(ms, 0, ArgField::Key))
    } else if bulk_arg(ms, 1) is None {
        Some(arg_error(ms, 1, ArgField::Value))
    } else {
        match spec_parse_ttl(ms) {
            TtlSpec::Reject(e) => Some(e),
            _ => None,
        }
    }
}

impl SetCommand {
    pub fn new(input_array: &[RespValue]) -> (r: Result<SetCommand, CommandError>)
        ensures
            ({
                let ms = models_of(input_array@);
                &&& (r is Ok <==> set_error(ms) is None)
                &&& (r matches Ok(c) ==> bulk_arg(ms, 0) == Some(c.key@) && bulk_arg(ms, 1)
                    == Some(c.value@) && (match spec_parse_ttl(ms) {
                    TtlSpec::NoTtl => c.ttl_ms is None,
                    TtlSpec::Ttl(t) => c.ttl_ms == Some(t),
                    TtlSpec::Reject(_) => false,
                }))
                &&& (r matches Err(e) ==> set_error(ms) == Some(e))
            }),
    {
        let key = match extract_bulk_string(input_array, 0, ArgField::Key) {
            Ok(v) => v,
            Err(e) => {
                return Err(e);
            },
        };
        let value = match extract_bulk_string(input_array, 1, ArgField::Value) {
            Ok(v) => v,
            Err(e) => {
                return Err(e);
            },
        };
        let ttl_ms = match Self::parse_ttl_options(input_array) {
            Ok(t) => t,
            Err(e) => {
                return Err(e);
            },
        };
        Ok(SetCommand { key, value, ttl_ms })
    }

    /// Reads the optional EX/PX suboption, as `spec_parse_ttl` describes.
    pub fn parse_ttl_options(input_array: &[RespValue]) -> (r: Result<Option<u64>, CommandError>)
        ensures
            ({
                let t = spec_parse_ttl(models_of(input_array@));
                match r {
                    Ok(o) => (o is None && t is NoTtl) || (o matches Some(v) && t
                        == TtlSpec::Ttl(v)),
                    Err(e) => t == TtlSpec::Reject(e),
                }
            }),
    {
        proof {
            crate::datatypes::lemma_models_of(input_array@);
        }
        if input_array.len() < 4 {
            return Ok(None);
        }
        let option_name = match extract_bulk_string(input_array, 2, ArgField::TtlOption) {
            Ok(v) => v,
            Err(e) => {
                return Err(e);
            },
        };
        let ttl_text = match extract_bulk_string(input_array, 3, ArgField::TtlValue) {
            Ok(v) => v,
            Err(e) => {
                return Err(e);
            },
        };
        proof {
            assert(ttl_text@.subrange(0, ttl_text@.len() as int) =~= ttl_text@);
        }
        let ttl_value = match crate::numbers::parse_i64(ttl_text.as_slice(), 0, ttl_text.len()) {
            Some(v) => v,
            None => {
                return Err(CommandError::InvalidTtl);
            },
        };
        if ttl_value <= 0 {
            return Err(CommandError::NonPositiveTtl);
        }
        let upper_name = upper_bytes(option_name.as_slice());
        let ex = x_t_ex();
        let px = x_t_px();
        if crate::store::bytes_eq(upper_name.as_slice(), ex.as_slice()) {
            Ok(Some(crate::numbers::sat_mul_u64(ttl_value as u64, 1000)))
        } else if crate::store::bytes_eq(upper_name.as_slice(), px.as_slice()) {
            Ok(Some(ttl_value as u64))
        } else {
            Err(CommandError::UnknownTtlOption)
        }
    }
}

#[derive(Debug)]
pub struct GetCommand {
    pub key: Vec<u8>,
}

pub open spec fn key_only_error(ms: Seq<FrameModel>) -> Option<CommandError> {
    if bulk_arg(ms, 0) is None {
        Some(arg_error(ms, 0, ArgField::Key))
    } else {
        None
    }
}

impl GetCommand {
    pub fn new(input_array: &[RespValue]) -> (r: Result<GetCommand, CommandError>)
        ensures
            ({
                let ms = models_of(input_array@);
                &&& (r is Ok <==> key_only_error(ms) is None)
                &&& (r matches Ok(c) ==> bulk_arg(ms, 0) == Some(c.key@))
                &&& (r matches Err(e) ==> key_only_error(ms) == Some(e))
            }),
    {
        match extract_bulk_string(input_array, 0, ArgField::Key) {
            Ok(key) => Ok(GetCommand { key }),
            Err(e) => Err(e),
        }
    }
}

#[derive(Debug)]
pub struct RpushCommand {
    pub key: Vec<u8>,
    pub values: Vec<Vec<u8>>,
}

/// The payloads of the bulk strings from position `from` on; `None` when
/// any of them is not a bulk string.
pub open spec fn bulk_payloads(ms: Seq<FrameModel>, from: int) -> Option<Seq<Seq<u8>>>
    decreases ms.len() - from,
{
    if from < 0 || from >= ms.len() {
        Some(Seq::empty())
    } else {
        match ms[from] {
            FrameModel::Bulk(p) => match bulk_payloads(ms, from + 1) {
                Some(rest) => Some(seq![p] + rest),
                None => None,
            },
            _ => None,
        }
    }
}

pub open spec fn rpush_error(ms: Seq<FrameModel>) -> Option<CommandError> {
    if bulk_arg(ms, 0) is None {
        Some(arg_error(ms, 0, ArgField::Key))
    } else if bulk_payloads(ms, 1) is None {
        Some(CommandError::NotBulkString(ArgField::Value))
    } else if ms.len() < 2 {
        Some(CommandError::MissingValues)
    } else {
        None
    }
}

impl RpushCommand {
    pub fn new(input_array: &[RespValue]) -> (r: Result<RpushCommand, CommandError>)
        ensures
            ({
                let ms = models_of(input_array@);
                &&& (r is Ok <==> rpush_error(ms) is None)
                &&& (r matches Ok(c) ==> bulk_arg(ms, 0) == Some(c.key@) && bulk_payloads(ms, 1)
                    == Some(c.values.deep_view()) && c.values@.len() >= 1)
                &&& (r matches Err(e) ==> rpush_error(ms) == Some(e))
            }),
    {
        let ghost ms = models_of(input_array@);
        proof {
            crate::datatypes::lemma_models_of(input_array@);
        }
        let key = match extract_bulk_string(input_array, 0, ArgField::Key) {
            Ok(v) => v,
            Err(e) => {
                return Err(e);
            },
        };
        let mut values: Vec<Vec<u8>> = Vec::new();
        let mut i: usize = 1;
        while i < input_array.len()
            invariant
                1 <= i <= input_array@.len(),
                bulk_arg(ms, 0) is Some,
                ms == models_of(input_array@),
                ms.len() == input_array@.len(),
                forall|j: int|
                    0 <= j < input_array@.len() ==> ms[j] == (#[trigger] input_array@[j]).model(),
                forall|j: int|
                    0 <= j < i - 1 ==> ms[j + 1] == FrameModel::Bulk((#[trigger] values@[j])@),
                values@.len() == i - 1,
            decreases input_array@.len() - i,
        {
            let v = match extract_bulk_string(input_array, i, ArgField::Value) {
                Ok(v) => v,
                Err(e) => {
                    proof {
                        lemma_bulk_payloads_bad(ms, 1, i as int);
                    }
                    return Err(e);
                },
            };
            values.push(v);
            i += 1;
        }
        if values.len() == 0 {
            proof {
                lemma_bulk_payloads_all(ms, 1);
            }
            return Err(CommandError::MissingValues);
        }
        proof {
            assert forall|j: int| 1 <= j < ms.len() implies (#[trigger] ms[j]) is Bulk by {
                assert(ms[j] == FrameModel::Bulk(values@[j - 1]@));
            }
            lemma_bulk_payloads_all(ms, 1);
            let ps = bulk_payloads(ms, 1)->Some_0;
            assert forall|j: int| 0 <= j < ps.len() implies values.deep_view()[j] == ps[j] by {
                lemma_bulk_payloads_step(ms, 1, j + 1);
                assert(ms[j + 1] == FrameModel::Bulk(ps[j]));
                assert(ms[j + 1] == FrameModel::Bulk(values@[j]@));
                assert(values.deep_view()[j] == values@[j].deep_view());
                assert(values@[j].deep_view() =~= values@[j]@);
            }
            assert(values.deep_view() =~= ps);
        }
        Ok(RpushCommand { key, values })
    }
}

/// When every frame from `from` on is a bulk string, the payload run exists
/// and lists them in order.
proof fn lemma_bulk_payloads_all(ms: Seq<FrameModel>, from: int)
    requires
        0 <= from,
        forall|j: int| from <= j < ms.len() ==> (#[trigger] ms[j]) is Bulk,
    ensures
        bulk_payloads(ms, from) matches Some(ps) && ps.len() == if from <= ms.len() {
            ms.len() - from
        } else {
            0
        },
    decreases ms.len() - from,
{
    if from < ms.len() {
        lemma_bulk_payloads_all(ms, from + 1);
    }
}

/// A non-bulk frame anywhere in the run means there is no payload run.
proof fn lemma_bulk_payloads_bad(ms: Seq<FrameModel>, from: int, bad: int)
    requires
        0 <= from <= bad,
        bad < ms.len() ==> !(ms[bad] is Bulk),
        bad >= ms.len() ==> false,
    ensures
        bulk_payloads(ms, from) is None,
    decreases bad - from,
{
    if from < bad {
        if ms[from] is Bulk {
            lemma_bulk_payloads_bad(ms, from + 1, bad);
        }
    }
}

/// One step of the payload run: position `k`'s payload is element `k - from`.
proof fn lemma_bulk_payloads_step(ms: Seq<FrameModel>, from: int, k: int)
    requires
        0 <= from <= k < ms.len(),
        forall|j: int| from <= j <= k ==> (#[trigger] ms[j]) is Bulk,
    ensures
        bulk_payloads(ms, from) matches Some(ps) ==> k - from < ps.len() && ms[k]
            == FrameModel::Bulk(ps[k - from]),
    decreases k - from,
{
    if from < k {
        lemma_bulk_payloads_step(ms, from + 1, k);
    }
}

#[derive(Debug)]
pub struct RpopCommand {
    pub key: Vec<u8>,
}

impl RpopCommand {
    pub fn new(input_array: &[RespValue]) -> (r: Result<RpopCommand, CommandError>)
        ensures
            ({
                let ms = models_of(input_array@);
                &&& (r is Ok <==> key_only_error(ms) is None)
                &&& (r matches Ok(c) ==> bulk_arg(ms, 0) == Some(c.key@))
                &&& (r matches Err(e) ==> key_only_error(ms) == Some(e))
            }),
    {
        match extract_bulk_string(input_array, 0, ArgField::Key) {
            Ok(key) => Ok(RpopCommand { key }),
            Err(e) => Err(e),
        }
    }
}

/// What CONFIG can do; only GET is supported.
#[derive(Debug)]
pub enum ConfigAction {
    Get(Vec<Vec<u8>>),
}

#[derive(Debug)]
pub struct ConfigCommand {
    pub action: ConfigAction,
}

pub open spec fn config_error(ms: Seq<FrameModel>) -> Option<CommandError> {
    match bulk_arg(ms, 0) {
        None => Some(arg_error(ms, 0, ArgField::Action)),
        Some(a) => if upper(a) != t_get() {
            Some(CommandError::UnknownConfigAction)
        } else if bulk_arg(ms, 1) is None {
            Some(arg_error(ms, 1, ArgField::Key))
        } else {
            None
        },
    }
}

impl ConfigCommand {
    pub fn new(input_array: &[RespValue]) -> (r: Result<ConfigCommand, CommandError>)
        ensures
            ({
                let ms = models_of(input_array@);
                &&& (r is Ok <==> config_error(ms) is None)
                &&& (r matches Ok(c) ==> c.action matches ConfigAction::Get(ks) && ks@.len() == 1
                    && bulk_arg(ms, 1) == Some(ks@[0]@))
                &&& (r matches Err(e) ==> config_error(ms) == Some(e))
            }),
    {
        let action = match extract_bulk_string(input_array, 0, ArgField::Action) {
            Ok(v) => v,
            Err(e) => {
                return Err(e);
            },
        };
        let upper_action = upper_bytes(action.as_slice());
        let get_lit = x_t_get();
        if !crate::store::bytes_eq(upper_action.as_slice(), get_lit.as_slice()) {
            return Err(CommandError::UnknownConfigAction);
        }
        let key = match extract_bulk_string(input_array, 1, ArgField::Key) {
            Ok(v) => v,
            Err(e) => {
                return Err(e);
            },
        };
        let mut keys: Vec<Vec<u8>> = Vec::new();
        keys.push(key);
        Ok(ConfigCommand { action: ConfigAction::Get(keys) })
    }
}

#[derive(Debug)]
pub struct KeysCommand {
    pub pattern: Vec<u8>,
}

/// Leading double-quote bytes removed.
pub open spec fn drop_leading_quotes(s: Seq<u8>) -> Seq<u8>
    decreases s.len(),
{
    if s.len() > 0 && s[0] == 34 {
        drop_leading_quotes(s.drop_first())
    } else {
        s
    }
}

/// Trailing double-quote bytes removed.
pub open spec fn drop_trailing_quotes(s: Seq<u8>) -> Seq<u8>
    decreases s.len(),
{
    if s.len() > 0 && s.last() == 34 {
        drop_trailing_quotes(s.drop_last())
    } else {
        s
    }
}

/// Double quotes stripped from both ends, as a shell-quoted pattern sheds
/// its quoting.
pub open spec fn trim_quotes(s: Seq<u8>) -> Seq<u8> {
    drop_trailing_quotes(drop_leading_quotes(s))
}

/// Strips double-quote bytes from both ends of `s`.
pub fn trim_quote_bytes(s: &[u8]) -> (r: Vec<u8>)
    ensures
        r@ == trim_quotes(s@),
{
    let mut from: usize = 0;
    proof {
        assert(s@.skip(0) =~= s@);
    }
    while from < s.len() && s[from] == 34
        invariant
            from <= s@.len(),
            drop_leading_quotes(s@) == drop_leading_quotes(s@.skip(from as int)),
        decreases s@.len() - from,
    {
        proof {
            assert(s@.skip(from as int)[0] == s@[from as int]);
            assert(s@.skip(from as int).drop_first() =~= s@.skip(from as int + 1));
        }
        from += 1;
    }
    proof {
        let tail = s@.skip(from as int);
        if tail.len() > 0 {
            assert(tail[0] == s@[from as int]);
        }
        assert(drop_leading_quotes(s@) == tail);
    }
    let mut to: usize = s.len();
    while to > from && s[to - 1] == 34
        invariant
            from <= to <= s@.len(),
            drop_leading_quotes(s@) == s@.skip(from as int),
            drop_trailing_quotes(s@.skip(from as int)) == drop_trailing_quotes(
                s@.subrange(from as int, to as int),
            ),
        decreases to,
    {
        proof {
            let cur = s@.subrange(from as int, to as int);
            assert(cur.last() == s@[to as int - 1]);
            assert(cur.drop_last() =~= s@.subrange(from as int, to as int - 1));
        }
        to -= 1;
    }
    proof {
        let cur = s@.subrange(from as int, to as int);
        if cur.len() > 0 {
            assert(cur.last() == s@[to as int - 1]);
        }
        assert(drop_trailing_quotes(cur) == cur);
        assert(s@.skip(from as int) =~= s@.subrange(from as int, s@.len() as int));
    }
    crate::resp::copy_range(s, from, to)
}

impl KeysCommand {
    pub fn new(input_array: &[RespValue]) -> (r: Result<KeysCommand, CommandError>)
        ensures
            ({
                let ms = models_of(input_array@);
                &&& (r is Ok <==> (bulk_arg(ms, 0) is Some))
                &&& (r matches Ok(c) ==> (bulk_arg(ms, 0) matches Some(p) && c.pattern@
                    == trim_quotes(p)))
                &&& (r matches Err(e) ==> e == arg_error(ms, 0, ArgField::Pattern))
            }),
    {
        match extract_bulk_string(input_array, 0, ArgField::Pattern) {
            Ok(raw) => Ok(KeysCommand { pattern: trim_quote_bytes(raw.as_slice()) }),
            Err(e) => Err(e),
        }
    }
}

/// The sections INFO can report on.
#[derive(Debug)]
pub enum InfoSection {
    Replication,
}

#[derive(Debug)]
pub struct InfoCommand {
    pub sections: Vec<InfoSection>,
}

impl InfoCommand {
    /// Whatever the arguments say, the replication section is reported.
    pub fn new(input_array: &[RespValue]) -> (r: Result<InfoCommand, CommandError>)
        ensures
            r matches Ok(c) && c.sections@.len() == 1 && c.sections@[0] is Replication,
    {
        let _ = input_array.len();
        let mut sections: Vec<InfoSection> = Vec::new();
        sections.push(InfoSection::Replication);
        Ok(InfoCommand { sections })
    }
}

#[derive(Debug)]
pub struct ReplConfCommand {
    pub args: Vec<Vec<u8>>,
}

/// Whether a REPLCONF argument run asks for an acknowledgement report.
pub open spec fn spec_is_getack(args: Seq<Seq<u8>>) -> bool {
    args.len() >= 1 && upper(args[0]) == t_getack()
}

impl ReplConfCommand {
    /// Keeps the bulk-string arguments; a non-bulk argument ends the run.
    pub fn new(input_array: &[RespValue]) -> (r: ReplConfCommand)
        ensures
            r.args.deep_view() == bulk_prefix(models_of(input_array@), 0),
    {
        let ghost ms = models_of(input_array@);
        proof {
            crate::datatypes::lemma_models_of(input_array@);
        }
        let mut args: Vec<Vec<u8>> = Vec::new();
        let mut i: usize = 0;
        let mut stopped = false;
        while i < input_array.len() && !stopped
            invariant
                i <= input_array@.len(),
                ms == models_of(input_array@),
                ms.len() == input_array@.len(),
                forall|j: int|
                    0 <= j < input_array@.len() ==> ms[j] == (#[trigger] input_array@[j]).model(),
                forall|j: int|
                    0 <= j < i ==> ms[j] == FrameModel::Bulk((#[trigger] args@[j])@),
                args@.len() == i,
                stopped ==> i < ms.len() && !(ms[i as int] is Bulk),
            decreases input_array@.len() - i + (if stopped {
                0int
            } else {
                1int
            }),
        {
            match extract_bulk_string(input_array, i, ArgField::Value) {
                Ok(v) => {
                    args.push(v);
                    i += 1;
                },
                Err(_) => {
                    stopped = true;
                },
            }
        }
        proof {
            assert forall|j: int| 0 <= j < args.deep_view().len() implies args.deep_view()[j]
                == (#[trigger] args@[j])@ by {
                assert(args.deep_view()[j] == args@[j].deep_view());
                assert(args@[j].deep_view() =~= args@[j]@);
            }
            assert forall|j: int|
                0 <= j < i implies ms[j] == FrameModel::Bulk(#[trigger] args.deep_view()[j]) by {
                assert(ms[j] == FrameModel::Bulk(args@[j]@));
            }
            lemma_bulk_prefix_args(ms, args.deep_view(), i as int);
        }
        ReplConfCommand { args }
    }

    /// Whether this is `REPLCONF GETACK`.
    pub fn is_getack(&self) -> (r: bool)
        ensures
            r == spec_is_getack(self.args.deep_view()),
    {
        if self.args.len() == 0 {
            return false;
        }
        let up = upper_bytes(self.args[0].as_slice());
        let lit = x_t_getack();
        let r = crate::store::bytes_eq(up.as_slice(), lit.as_slice());
        proof {
            assert(self.args.deep_view()[0] == self.args@[0].deep_view());
            assert(self.args@[0].deep_view() =~= self.args@[0]@);
        }
        r
    }
}

#[derive(Debug)]
pub struct PsyncCommand {
    pub replication_id: Vec<u8>,
    pub replication_offset: i64,
}

pub open spec fn psync_error(ms: Seq<FrameModel>) -> Option<CommandError> {
    if bulk_arg(ms, 0) is None {
        Some(arg_error(ms, 0, ArgField::ReplicationId))
    } else if bulk_arg(ms, 1) is None {
        Some(arg_error(ms, 1, ArgField::Offset))
    } else if spec_i64_value(bulk_arg(ms, 1)->Some_0) is None {
        Some(CommandError::InvalidInteger(ArgField::Offset))
    } else {
        None
    }
}

impl PsyncCommand {
    pub fn new(input_array: &[RespValue]) -> (r: Result<PsyncCommand, CommandError>)
        ensures
            ({
                let ms = models_of(input_array@);
                &&& (r is Ok <==> psync_error(ms) is None)
                &&& (r matches Ok(c) ==> bulk_arg(ms, 0) == Some(c.replication_id@) && (
                bulk_arg(ms, 1) matches Some(line) && spec_i64_value(line) == Some(
                    c.replication_offset as int,
                )))
                &&& (r matches Err(e) ==> psync_error(ms) == Some(e))
            }),
    {
        let replication_id = match extract_bulk_string(input_array, 0, ArgField::ReplicationId) {
            Ok(v) => v,
            Err(e) => {
                return Err(e);
            },
        };
        let offset_text = match extract_bulk_string(input_array, 1, ArgField::Offset) {
            Ok(v) => v,
            Err(e) => {
                return Err(e);
            },
        };
        proof {
            assert(offset_text@.subrange(0, offset_text@.len() as int) =~= offset_text@);
        }
        match crate::numbers::parse_i64(offset_text.as_slice(), 0, offset_text.len()) {
            Some(v) => Ok(PsyncCommand { replication_id, replication_offset: v }),
            None => Err(CommandError::InvalidInteger(ArgField::Offset)),
        }
    }
}

#[derive(Debug)]
pub struct WaitCommand {
    pub num_replicas: u32,
    pub timeout_ms: u32,
}

pub open spec fn wait_error(ms: Seq<FrameModel>) -> Option<CommandError> {
    if bulk_arg(ms, 0) is None {
        Some(arg_error(ms, 0, ArgField::NumReplicas))
    } else if !(length_of_line(bulk_arg(ms, 0)->Some_0) matches Some(v) && v <= 0xffff_ffff) {
        Some(CommandError::InvalidInteger(ArgField::NumReplicas))
    } else if bulk_arg(ms, 1) is None {
        Some(arg_error(ms, 1, ArgField::Timeout))
    } else if !(length_of_line(bulk_arg(ms, 1)->Some_0) matches Some(v) && v <= 0xffff_ffff) {
        Some(CommandError::InvalidInteger(ArgField::Timeout))
    } else {
        None
    }
}

impl WaitCommand {
    pub fn new(input_array: &[RespValue]) -> (r: Result<WaitCommand, CommandError>)
        ensures
            ({
                let ms = models_of(input_array@);
                &&& (r is Ok <==> wait_error(ms) is None)
                &&& (r matches Ok(c) ==> (bulk_arg(ms, 0) matches Some(n) && length_of_line(n)
                    == Some(c.num_replicas as int)) && (bulk_arg(ms, 1) matches Some(t)
                    && length_of_line(t) == Some(c.timeout_ms as int)))
                &&& (r matches Err(e) ==> wait_error(ms) == Some(e))
            }),
    {
        let num_text = match extract_bulk_string(input_array, 0, ArgField::NumReplicas) {
            Ok(v) => v,
            Err(e) => {
                return Err(e);
            },
        };
        proof {
            assert(num_text@.subrange(0, num_text@.len() as int) =~= num_text@);
        }
        let num = match crate::numbers::parse_length(num_text.as_slice(), 0, num_text.len(), 0xffff_ffff) {
            Some(v) => v as u32,
            None => {
                return Err(CommandError::InvalidInteger(ArgField::NumReplicas));
            },
        };
        let timeout_text = match extract_bulk_string(input_array, 1, ArgField::Timeout) {
            Ok(v) => v,
            Err(e) => {
                return Err(e);
            },
        };
        proof {
            assert(timeout_text@.subrange(0, timeout_text@.len() as int) =~= timeout_text@);
        }
        let timeout = match crate::numbers::parse_length(
            timeout_text.as_slice(),
            0,
            timeout_text.len(),
            0xffff_ffff,
        ) {
            Some(v) => v as u32,
            None => {
                return Err(CommandError::InvalidInteger(ArgField::Timeout));
            },
        };
        Ok(WaitCommand { num_replicas: num, timeout_ms: timeout })
    }
}

#[derive(Debug)]
pub struct LrangeCommand {
    pub key: Vec<u8>,
    pub start: i64,
    pub stop: i64,
}

pub open spec fn lrange_error(ms: Seq<FrameModel>) -> Option<CommandError> {
    if bulk_arg(ms, 0) is None {
        Some(arg_error(ms, 0, ArgField::Key))
    } else if bulk_arg(ms, 1) is None {
        Some(arg_error(ms, 1, ArgField::Start))
    } else if spec_i64_value(bulk_arg(ms, 1)->Some_0) is None {
        Some(CommandError::InvalidInteger(ArgField::Start))
    } else if bulk_arg(ms, 2) is None {
        Some(arg_error(ms, 2, ArgField::Stop))
    } else if spec_i64_value(bulk_arg(ms, 2)->Some_0) is None {
        Some(CommandError::InvalidInteger(ArgField::Stop))
    } else {
        None
    }
}

impl LrangeCommand {
    pub fn new(input_array: &[RespValue]) -> (r: Result<LrangeCommand, CommandError>)
        ensures
            ({
                let ms = models_of(input_array@);
                &&& (r is Ok <==> lrange_error(ms) is None)
                &&& (r matches Ok(c) ==> bulk_arg(ms, 0) == Some(c.key@) && (bulk_arg(ms, 1)
                    matches Some(a) && spec_i64_value(a) == Some(c.start as int)) && (bulk_arg(
                    ms,
                    2,
                ) matches Some(b) && spec_i64_value(b) == Some(c.stop as int)))
                &&& (r matches Err(e) ==> lrange_error(ms) == Some(e))
            }),
    {
        let key = match extract_bulk_string(input_array, 0, ArgField::Key) {
            Ok(v) => v,
            Err(e) => {
                return Err(e);
            },
        };
        let start_text = match extract_bulk_string(input_array, 1, ArgField::Start) {
            Ok(v) => v,
            Err(e) => {
                return Err(e);
            },
        };
        proof {
            assert(start_text@.subrange(0, start_text@.len() as int) =~= start_text@);
        }
        let start = match crate::numbers::parse_i64(start_text.as_slice(), 0, start_text.len()) {
            Some(v) => v,
            None => {
                return Err(CommandError::InvalidInteger(ArgField::Start));
            },
        };
        let stop_text = match extract_bulk_string(input_array, 2, ArgField::Stop) {
            Ok(v) => v,
            Err(e) => {
                return Err(e);
            },
        };
        proof {
            assert(stop_text@.subrange(0, stop_text@.len() as int) =~= stop_text@);
        }
        let stop = match crate::numbers::parse_i64(stop_text.as_slice(), 0, stop_text.len()) {
            Some(v) => v,
            None => {
                return Err(CommandError::InvalidInteger(ArgField::Stop));
            },
        };
        Ok(LrangeCommand { key, start, stop })
    }
}

#[derive(Debug)]
pub struct LlenCommand {
    pub key: Vec<u8>,
}

impl LlenCommand {
    pub fn new(input_array: &[RespValue]) -> (r: Result<LlenCommand, CommandError>)
        ensures
            ({
                let ms = models_of(input_array@);
                &&& (r is Ok <==> key_only_error(ms) is None)
                &&& (r matches Ok(c) ==> bulk_arg(ms, 0) == Some(c.key@))
                &&& (r matches Err(e) ==> key_only_error(ms) == Some(e))
            }),
    {
        match extract_bulk_string(input_array, 0, ArgField::Key) {
            Ok(key) => Ok(LlenCommand { key }),
            Err(e) => Err(e),
        }
    }
}

// ---------------------------------------------------------------------------
// Execution: what each command returns and how it changes the keyspace.
// ---------------------------------------------------------------------------
/// What the connection layer must do after a command executes.
pub enum CommandAction {
    /// Ordinary reply bytes.
    Response(Vec<u8>),
    /// PSYNC: send `response`, then `rdb_data`, then hand the socket to the
    /// replication manager.
    PsyncHandshake { response: Vec<u8>, rdb_data: Vec<u8> },
    /// WAIT: ask the replication manager for acknowledgements, then reply
    /// with the achieved count.
    ReplicaHealthCheck { num_replicas: u32, timeout_ms: u32 },
}

/// Ghost form of a `CommandAction`.
pub enum ActionModel {
    Resp(Seq<u8>),
    Handshake { head: Seq<u8>, rdb: Seq<u8> },
    HealthCheck { num: u32, timeout: u32 },
}

pub open spec fn action_matches(r: CommandAction, a: ActionModel) -> bool {
    match r {
        CommandAction::Response(bytes) => a matches ActionModel::Resp(s) && bytes@ == s,
        CommandAction::PsyncHandshake { response, rdb_data } => a matches ActionModel::Handshake {
            head,
            rdb,
        } && response@ == head && rdb_data@ == rdb,
        CommandAction::ReplicaHealthCheck { num_replicas, timeout_ms } => a
            matches ActionModel::HealthCheck { num, timeout } && num_replicas == num && timeout_ms
            == timeout,
    }
}

/// One supported command, parsed and validated.
pub enum Command {
    Ping(PingCommand),
    Echo(EchoCommand),
    SetCmd(SetCommand),
    Get(GetCommand),
    Rpush(RpushCommand),
    Rpop(RpopCommand),
    Config(ConfigCommand),
    Keys(KeysCommand),
    Info(InfoCommand),
    ReplConf(ReplConfCommand),
    Psync(PsyncCommand),
    Wait(WaitCommand),
    Lrange(LrangeCommand),
    Llen(LlenCommand),
}

pub type StoreMap = Map<Seq<u8>, (crate::store::DataModel, Option<u64>)>;

/// The deadline a SET leaves behind: now plus the span, capped.
pub open spec fn spec_deadline(now: u64, ttl: Option<u64>) -> Option<u64> {
    match ttl {
        Some(t) => Some(sat_add(now as int, t as int) as u64),
        None => None,
    }
}

/// Right-pushing a run of values, one after the other.
pub open spec fn rpush_all(m: StoreMap, k: Seq<u8>, vs: Seq<Seq<u8>>, now: u64) -> (StoreMap, int)
    decreases vs.len(),
{
    if vs.len() == 0 {
        (m, 0)
    } else {
        crate::store::rpush_result(rpush_all(m, k, vs.drop_last(), now).0, k, vs.last(), now)
    }
}

/// How the keyspace looks after the command `c` executes at time `now`.
pub open spec fn spec_store_after(c: SpecCmd, m: StoreMap, now: u64) -> StoreMap {
    match c {
        SpecCmd::SetKv { key, value, ttl } => m.insert(
            key,
            (DataModel::Str(value), spec_deadline(now, ttl)),
        ),
        SpecCmd::Push { key, values } => rpush_all(m, key, values, now).0,
        SpecCmd::Pop(key) => crate::store::rpop_result(m, key, now).0,
        _ => m,
    }
}

/// `rpush_all` at the level of the ordered entry model.
pub open spec fn rpush_all_m(
    em: Seq<crate::store::EntryModel>,
    k: Seq<u8>,
    vs: Seq<Seq<u8>>,
    now: u64,
) -> (Seq<crate::store::EntryModel>, int)
    decreases vs.len(),
{
    if vs.len() == 0 {
        (em, 0)
    } else {
        crate::store::rpush_model(rpush_all_m(em, k, vs.drop_last(), now).0, k, vs.last(), now)
    }
}

/// How the ordered entry model looks after the command `c` executes.
pub open spec fn spec_store_after_m(
    c: SpecCmd,
    em: Seq<crate::store::EntryModel>,
    now: u64,
) -> Seq<crate::store::EntryModel> {
    match c {
        SpecCmd::SetKv { key, value, ttl } => crate::store::model_put(
            em,
            key,
            DataModel::Str(value),
            spec_deadline(now, ttl),
        ),
        SpecCmd::Push { key, values } => rpush_all_m(em, key, values, now).0,
        SpecCmd::Pop(key) => crate::store::rpop_model(em, key, now).0,
        _ => em,
    }
}

/// Bulk-string frames carrying the given payloads, in order.
pub open spec fn bulk_models(ss: Seq<Seq<u8>>) -> Seq<FrameModel> {
    Seq::new(ss.len(), |i: int| FrameModel::Bulk(ss[i]))
}

/// An integer reply, saturated at the widest value the frame carries.
pub open spec fn int_reply(n: int) -> Seq<u8> {
    if n > 0x7fff_ffff {
        encode_int(0x7fff_ffff)
    } else {
        encode_int(n)
    }
}

/// What CONFIG GET reports for one key.
pub open spec fn config_value(k: Seq<u8>, cfg: crate::config::Config) -> Seq<u8> {
    if lower(k) == t_dir() {
        cfg.dir@
    } else if lower(k) == t_dbfilename() {
        cfg.dbfilename@
    } else {
        Seq::empty()
    }
}

/// CONFIG GET's reply frames: each key followed by its value.
pub open spec fn config_pairs(ks: Seq<Seq<u8>>, cfg: crate::config::Config) -> Seq<FrameModel>
    decreases ks.len(),
{
    if ks.len() == 0 {
        Seq::empty()
    } else {
        config_pairs(ks.drop_last(), cfg) + seq![
            FrameModel::Bulk(ks.last()),
            FrameModel::Bulk(config_value(ks.last(), cfg)),
        ]
    }
}

/// One INFO section's text.
pub open spec fn section_text(s: InfoSection, role: crate::replication::ReplicationRole) -> Seq<
    u8,
> {
    match role {
        crate::replication::ReplicationRole::Leader(l) => t_role_master() + t_master_replid()
            + l.replication_id@ + seq![10u8] + t_master_repl_offset() + dec_digits(
            l.replication_offset as nat,
        ) + seq![10u8],
        crate::replication::ReplicationRole::Follower(_) => t_role_slave(),
    }
}

/// The INFO reply body: the sections' texts in order.
pub open spec fn info_text(
    sections: Seq<InfoSection>,
    role: crate::replication::ReplicationRole,
) -> Seq<u8>
    decreases sections.len(),
{
    if sections.len() == 0 {
        Seq::empty()
    } else {
        info_text(sections.drop_last(), role) + section_text(sections.last(), role)
    }
}

/// The FULLRESYNC greeting: the leader's id and offset.
pub open spec fn fullresync_text(l: crate::replication::LeaderReplication) -> Seq<u8> {
    t_fullresync_prefix() + l.replication_id@ + seq![32u8] + dec_digits(
        l.replication_offset as nat,
    )
}

/// The reply `c` produces against keyspace `st` at time `now`.
/// The reply the command `c` produces against the keyspace model `em` at
/// time `now`.
pub open spec fn spec_response(
    c: SpecCmd,
    em: Seq<crate::store::EntryModel>,
    cfg: crate::config::Config,
    role: crate::replication::ReplicationRole,
    now: u64,
) -> ActionModel {
    let m = crate::store::map_of_m(em);
    match c {
        SpecCmd::Ping => ActionModel::Resp(encode_simple(t_pong())),
        SpecCmd::Echo(message) => ActionModel::Resp(encode_bulk(message)),
        SpecCmd::SetKv { .. } => ActionModel::Resp(encode_simple(t_ok())),
        SpecCmd::GetKey(key) => ActionModel::Resp(
            match crate::store::string_get(m, key, now) {
                Some(s) => encode_bulk(s),
                None => encode_null_bulk(),
            },
        ),
        SpecCmd::Push { key, values } => ActionModel::Resp(
            int_reply(rpush_all_m(em, key, values, now).1),
        ),
        SpecCmd::Pop(key) => ActionModel::Resp(
            match crate::store::rpop_model(em, key, now).1 {
                Some(v) => encode_bulk(v),
                None => encode_null_bulk(),
            },
        ),
        SpecCmd::ConfigGet(ks) => ActionModel::Resp(
            encode_frame(FrameModel::Arr(config_pairs(ks, cfg))),
        ),
        SpecCmd::KeysPat(pat) => ActionModel::Resp(
            encode_frame(
                FrameModel::Arr(bulk_models(crate::store::matching_keys_m(em, pat, now))),
            ),
        ),
        SpecCmd::Info(sections) => ActionModel::Resp(encode_bulk(info_text(sections, role))),
        SpecCmd::ReplConf(_) => ActionModel::Resp(encode_simple(t_ok())),
        SpecCmd::Psync { .. } => match role {
            crate::replication::ReplicationRole::Follower(_) => ActionModel::Resp(
                encode_error(t_psync_follower_error()),
            ),
            crate::replication::ReplicationRole::Leader(l) => match crate::rdb::base64_decode_of(
                crate::rdb::spec_empty_rdb_base64(),
            ) {
                Some(payload) => ActionModel::Handshake {
                    head: encode_simple(fullresync_text(l)),
                    rdb: seq![36u8] + dec_digits(payload.len()) + crate::datatypes::crlf()
                        + payload,
                },
                None => ActionModel::Resp(encode_error(t_rdb_decode_error())),
            },
        },
        SpecCmd::Wait { num_replicas, timeout_ms } => ActionModel::HealthCheck {
            num: num_replicas,
            timeout: timeout_ms,
        },
        SpecCmd::Lrange { key, start, stop } => ActionModel::Resp(
            encode_frame(
                FrameModel::Arr(
                    bulk_models(
                        match crate::store::live_get(m, key, now) {
                            Some(DataModel::List(l)) => crate::store::lrange_spec(
                                l,
                                start,
                                stop,
                            ),
                            _ => Seq::empty(),
                        },
                    ),
                ),
            ),
        ),
        SpecCmd::Llen(key) => ActionModel::Resp(int_reply(crate::store::llen_spec(m, key, now))),
        SpecCmd::NotCmd => ActionModel::Resp(Seq::empty()),
        SpecCmd::Bad(_) => ActionModel::Resp(Seq::empty()),
    }
}

/// Turns payload bytes into bulk-string frames.
fn bulk_frames(items: Vec<Vec<u8>>) -> (r: Vec<RespValue>)
    ensures
        models_of(r@) == bulk_models(items.deep_view()),
{
    let ghost goal = items.deep_view();
    let mut frames: Vec<RespValue> = Vec::new();
    let mut i: usize = 0;
    let items_in = items;
    while i < items_in.len()
        invariant
            i <= items_in@.len(),
            goal == items_in.deep_view(),
            frames@.len() == i,
            forall|j: int|
                0 <= j < i ==> ((#[trigger] frames@[j]) matches RespValue::Bulk(b) && b@ == goal[j]),
        decreases items_in@.len() - i,
    {
        let item = crate::store::duplicate_bytes(&items_in[i]);
        proof {
            assert(items_in.deep_view()[i as int] == items_in@[i as int].deep_view());
            assert(items_in@[i as int].deep_view() =~= items_in@[i as int]@);
        }
        frames.push(RespValue::Bulk(item));
        i += 1;
    }
    proof {
        crate::datatypes::lemma_models_of(frames@);
        assert forall|j: int| 0 <= j < frames@.len() implies models_of(frames@)[j] == bulk_models(
            goal,
        )[j] by {
            assert(models_of(frames@)[j] == frames@[j].model());
        }
        assert(models_of(frames@) =~= bulk_models(goal));
    }
    frames
}

/// Executes one command against the keyspace, reporting the action the
/// connection must take; the reply bytes and the keyspace change are exactly
/// `spec_response` and `spec_store_after`.
pub fn execute_command(
    cmd: &Command,
    store: &mut Store,
    config: &crate::config::Config,
    role: &crate::replication::ReplicationRole,
    now: u64,
) -> (r: CommandAction)
    requires
        old(store).wf(),
    ensures
        final (store).wf(),
        final (store).map_view() == spec_store_after(cmd.model(), old(store).map_view(), now),
        final (store).model() == spec_store_after_m(cmd.model(), old(store).model(), now),
        action_matches(r, spec_response(cmd.model(), old(store).model(), *config, *role, now)),
{
    proof {
        crate::store::lemma_model_map(store.entries@);
    }
    match cmd {
        Command::Ping(_) => {
            let s = SimpleString::new(x_t_pong());
            CommandAction::Response(s.to_bytes())
        },
        Command::Echo(e) => {
            let b = BulkString::new(crate::store::duplicate_bytes(&e.message));
            CommandAction::Response(b.to_bytes())
        },
        Command::SetCmd(sc) => {
            let key = crate::store::duplicate_bytes(&sc.key);
            let value = crate::store::duplicate_bytes(&sc.value);
            match sc.ttl_ms {
                Some(t) => {
                    let deadline = crate::numbers::sat_add_u64(now, t);
                    store.set_string_with_expiration(key, value, deadline);
                },
                None => {
                    store.set_string(key, value);
                },
            }
            let s = SimpleString::new(x_t_ok());
            CommandAction::Response(s.to_bytes())
        },
        Command::Get(gc) => {
            match store.get_string(gc.key.as_slice(), now) {
                Some(v) => {
                    let b = BulkString::new(v);
                    CommandAction::Response(b.to_bytes())
                },
                None => {
                    let nb = NullBulkString {  };
                    CommandAction::Response(nb.to_bytes())
                },
            }
        },
        Command::Rpush(rc) => {
            let ghost m0 = store.map_view();
            let ghost em0 = store.model();
            let ghost vs = rc.values.deep_view();
            let mut n: usize = 0;
            let mut i: usize = 0;
            while i < rc.values.len()
                invariant
                    store.wf(),
                    i <= rc.values@.len(),
                    vs == rc.values.deep_view(),
                    vs.len() == rc.values@.len(),
                    store.map_view() == rpush_all(m0, rc.key@, vs.take(i as int), now).0,
                    store.model() == rpush_all_m(em0, rc.key@, vs.take(i as int), now).0,
                    i > 0 ==> n as int == rpush_all(m0, rc.key@, vs.take(i as int), now).1,
                    i > 0 ==> n as int == rpush_all_m(em0, rc.key@, vs.take(i as int), now).1,
                    i == 0 ==> n == 0,
                decreases rc.values@.len() - i,
            {
                let key = crate::store::duplicate_bytes(&rc.key);
                let value = crate::store::duplicate_bytes(&rc.values[i]);
                proof {
                    assert(rc.values.deep_view()[i as int] == rc.values@[i as int].deep_view());
                    assert(rc.values@[i as int].deep_view() =~= rc.values@[i as int]@);
                    assert(vs.take(i as int + 1).drop_last() =~= vs.take(i as int));
                    assert(vs.take(i as int + 1).last() == vs[i as int]);
                }
                n = store.rpush(key, value, now);
                i += 1;
            }
            proof {
                assert(vs.take(vs.len() as int) =~= vs);
            }
            let reply = if n > 0x7fff_ffff {
                0x7fff_ffffusize
            } else {
                n
            };
            let frame = Integer::new(reply as i32);
            CommandAction::Response(frame.to_bytes())
        },
        Command::Rpop(rc) => {
            match store.rpop(rc.key.as_slice(), now) {
                Some(v) => {
                    let b = BulkString::new(v);
                    CommandAction::Response(b.to_bytes())
                },
                None => {
                    let nb = NullBulkString {  };
                    CommandAction::Response(nb.to_bytes())
                },
            }
        },
        Command::Config(cc) => {
            match &cc.action {
                ConfigAction::Get(ks) => {
                    let ghost kdv = ks.deep_view();
                    let mut frames: Vec<RespValue> = Vec::new();
                    let mut i: usize = 0;
                    while i < ks.len()
                        invariant
                            i <= ks@.len(),
                            kdv == ks.deep_view(),
                            kdv.len() == ks@.len(),
                            models_of(frames@) == config_pairs(kdv.take(i as int), *config),
                        decreases ks@.len() - i,
                    {
                        let key_copy = crate::store::duplicate_bytes(&ks[i]);
                        let low = lower_bytes(ks[i].as_slice());
                        let dir_lit = x_t_dir();
                        let dbfile_lit = x_t_dbfilename();
                        let value: Vec<u8> = if crate::store::bytes_eq(
                            low.as_slice(),
                            dir_lit.as_slice(),
                        ) {
                            crate::store::duplicate_bytes(&config.dir)
                        } else if crate::store::bytes_eq(low.as_slice(), dbfile_lit.as_slice()) {
                            crate::store::duplicate_bytes(&config.dbfilename)
                        } else {
                            Vec::new()
                        };
                        let ghost pre = frames@;
                        frames.push(RespValue::Bulk(key_copy));
                        frames.push(RespValue::Bulk(value));
                        i += 1;
                        proof {
                            crate::datatypes::lemma_models_of(frames@);
                            crate::datatypes::lemma_models_of(pre);
                            assert(kdv.take(i as int).drop_last() =~= kdv.take(i as int - 1));
                            assert(kdv.take(i as int).last() == kdv[i as int - 1]);
                            assert(kdv[i as int - 1] == ks@[i as int - 1].deep_view());
                            assert(ks@[i as int - 1].deep_view() =~= ks@[i as int - 1]@);
                            assert forall|j: int|
                                0 <= j < frames@.len() implies models_of(frames@)[j]
                                == config_pairs(kdv.take(i as int), *config)[j] by {
                                assert(models_of(frames@)[j] == frames@[j].model());
                                if j < pre.len() {
                                    assert(frames@[j] == pre[j]);
                                    assert(models_of(pre)[j] == pre[j].model());
                                }
                            }
                            assert(models_of(frames@) =~= config_pairs(
                                kdv.take(i as int),
                                *config,
                            ));
                        }
                    }
                    proof {
                        assert(kdv.take(kdv.len() as int) =~= kdv);
                    }
                    let arr = Array::new(frames);
                    CommandAction::Response(arr.to_bytes())
                },
            }
        },
        Command::Keys(kc) => {
            let found = store.keys(kc.pattern.as_slice(), now);
            let frames = bulk_frames(found);
            let arr = Array::new(frames);
            CommandAction::Response(arr.to_bytes())
        },
        Command::Info(ic) => {
            let ghost secs = ic.sections@;
            let mut body: Vec<u8> = Vec::new();
            let mut i: usize = 0;
            while i < ic.sections.len()
                invariant
                    i <= ic.sections@.len(),
                    secs == ic.sections@,
                    body@ == info_text(secs.take(i as int), *role),
                decreases ic.sections@.len() - i,
            {
                proof {
                    assert(secs.take(i as int + 1).drop_last() =~= secs.take(i as int));
                    assert(secs.take(i as int + 1).last() == secs[i as int]);
                }
                match ic.sections[i] {
                    InfoSection::Replication => {
                        match role {
                            crate::replication::ReplicationRole::Leader(l) => {
                                let part = x_t_role_master();
                                push_all(&mut body, part.as_slice());
                                let part = x_t_master_replid();
                                push_all(&mut body, part.as_slice());
                                push_all(&mut body, l.replication_id.as_slice());
                                body.push(10);
                                let part = x_t_master_repl_offset();
                                push_all(&mut body, part.as_slice());
                                let digits = crate::numbers::format_u64(l.replication_offset);
                                push_all(&mut body, digits.as_slice());
                                body.push(10);
                            },
                            crate::replication::ReplicationRole::Follower(_) => {
                                let part = x_t_role_slave();
                                push_all(&mut body, part.as_slice());
                            },
                        }
                    },
                }
                i += 1;
                proof {
                    assert(body@ =~= info_text(secs.take(i as int), *role));
                }
            }
            proof {
                assert(secs.take(secs.len() as int) =~= secs);
            }
            let b = BulkString::new(body);
            CommandAction::Response(b.to_bytes())
        },
        Command::ReplConf(_) => {
            let s = SimpleString::new(x_t_ok());
            CommandAction::Response(s.to_bytes())
        },
        Command::Psync(_) => {
            match role {
                crate::replication::ReplicationRole::Follower(_) => {
                    let e = SimpleError::new(x_t_psync_follower_error());
                    CommandAction::Response(e.to_bytes())
                },
                crate::replication::ReplicationRole::Leader(l) => {
                    let mut line = x_t_fullresync_prefix();
                    push_all(&mut line, l.replication_id.as_slice());
                    line.push(32);
                    let digits = crate::numbers::format_u64(l.replication_offset);
                    push_all(&mut line, digits.as_slice());
                    proof {
                        assert(line@ =~= fullresync_text(*l));
                    }
                    let head = SimpleString::new(line);
                    match crate::rdb::decode_base64(crate::rdb::empty_rdb_base64()) {
                        Some(payload) => {
                            let mut rdb_data: Vec<u8> = Vec::new();
                            rdb_data.push(36);
                            let digits = crate::numbers::format_u64(payload.len() as u64);
                            push_all(&mut rdb_data, digits.as_slice());
                            crate::datatypes::push_crlf(&mut rdb_data);
                            push_all(&mut rdb_data, payload.as_slice());
                            proof {
                                assert(rdb_data@ =~= seq![36u8] + dec_digits(payload@.len())
                                    + crate::datatypes::crlf() + payload@);
                            }
                            CommandAction::PsyncHandshake {
                                response: head.to_bytes(),
                                rdb_data,
                            }
                        },
                        None => {
                            let e = SimpleError::new(x_t_rdb_decode_error());
                            CommandAction::Response(e.to_bytes())
                        },
                    }
                },
            }
        },
        Command::Wait(wc) => {
            CommandAction::ReplicaHealthCheck {
                num_replicas: wc.num_replicas,
                timeout_ms: wc.timeout_ms,
            }
        },
        Command::Lrange(lc) => {
            let items = store.lrange(lc.key.as_slice(), lc.start, lc.stop, now);
            let frames = bulk_frames(items);
            let arr = Array::new(frames);
            CommandAction::Response(arr.to_bytes())
        },
        Command::Llen(lc) => {
            let n = store.llen(lc.key.as_slice(), now);
            let reply = if n > 0x7fff_ffff {
                0x7fff_ffffusize
            } else {
                n
            };
            let frame = Integer::new(reply as i32);
            CommandAction::Response(frame.to_bytes())
        },
    }
}

// ---------------------------------------------------------------------------
// Dispatch: from a decoded frame to a command.
// ---------------------------------------------------------------------------
/// Ghost form of a parsed command: every field as its view.
pub enum SpecCmd {
    NotCmd,
    Bad(CommandError),
    Ping,
    Echo(Seq<u8>),
    SetKv { key: Seq<u8>, value: Seq<u8>, ttl: Option<u64> },
    GetKey(Seq<u8>),
    Push { key: Seq<u8>, values: Seq<Seq<u8>> },
    Pop(Seq<u8>),
    ConfigGet(Seq<Seq<u8>>),
    KeysPat(Seq<u8>),
    Info(Seq<InfoSection>),
    ReplConf(Seq<Seq<u8>>),
    Psync { replication_id: Seq<u8>, replication_offset: int },
    Wait { num_replicas: u32, timeout_ms: u32 },
    Lrange { key: Seq<u8>, start: int, stop: int },
    Llen(Seq<u8>),
}

impl Command {
    /// The ghost form of this command.
    pub open spec fn model(self) -> SpecCmd {
        match self {
            Command::Ping(_) => SpecCmd::Ping,
            Command::Echo(c) => SpecCmd::Echo(c.message@),
            Command::SetCmd(c) => SpecCmd::SetKv { key: c.key@, value: c.value@, ttl: c.ttl_ms },
            Command::Get(c) => SpecCmd::GetKey(c.key@),
            Command::Rpush(c) => SpecCmd::Push { key: c.key@, values: c.values.deep_view() },
            Command::Rpop(c) => SpecCmd::Pop(c.key@),
            Command::Config(c) => match c.action {
                ConfigAction::Get(ks) => SpecCmd::ConfigGet(ks.deep_view()),
            },
            Command::Keys(c) => SpecCmd::KeysPat(c.pattern@),
            Command::Info(c) => SpecCmd::Info(c.sections@),
            Command::ReplConf(c) => SpecCmd::ReplConf(c.args.deep_view()),
            Command::Psync(c) => SpecCmd::Psync {
                replication_id: c.replication_id@,
                replication_offset: c.replication_offset as int,
            },
            Command::Wait(c) => SpecCmd::Wait {
                num_replicas: c.num_replicas,
                timeout_ms: c.timeout_ms,
            },
            Command::Lrange(c) => SpecCmd::Lrange {
                key: c.key@,
                start: c.start as int,
                stop: c.stop as int,
            },
            Command::Llen(c) => SpecCmd::Llen(c.key@),
        }
    }
}

/// The run of bulk payloads from `i` up to the first non-bulk frame.
pub open spec fn bulk_prefix(ms: Seq<FrameModel>, i: int) -> Seq<Seq<u8>>
    decreases ms.len() - i,
{
    if i < 0 || i >= ms.len() {
        Seq::empty()
    } else {
        match ms[i] {
            FrameModel::Bulk(p) => seq![p] + bulk_prefix(ms, i + 1),
            _ => Seq::empty(),
        }
    }
}

/// What the dispatcher makes of one decoded frame: a command must be an
/// array of frames whose first element is a bulk string naming it,
/// case-insensitively, with enough arguments; anything else is no command.
pub open spec fn spec_dispatch(m: FrameModel) -> SpecCmd {
    if !(m is Arr) {
        SpecCmd::NotCmd
    } else {
        let e = m->Arr_0;
        if e.len() == 0 {
            SpecCmd::NotCmd
        } else if !(e[0] is Bulk) {
            SpecCmd::NotCmd
        } else {
            let name = upper(e[0]->Bulk_0);
            let args = e.drop_first();
            if name == t_ping() && e.len() == 1 {
                SpecCmd::Ping
            } else if name == t_echo() && e.len() >= 2 {
                SpecCmd::Echo(
                    match bulk_arg(args, 0) {
                        Some(p) => p,
                        None => Seq::empty(),
                    },
                )
            } else if name == t_set() && e.len() >= 3 {
                match set_error(args) {
                    Some(er) => SpecCmd::Bad(er),
                    None => SpecCmd::SetKv {
                        key: bulk_arg(args, 0)->Some_0,
                        value: bulk_arg(args, 1)->Some_0,
                        ttl: match spec_parse_ttl(args) {
                            TtlSpec::Ttl(t) => Some(t),
                            _ => None,
                        },
                    },
                }
            } else if name == t_get() && e.len() >= 2 {
                match key_only_error(args) {
                    Some(er) => SpecCmd::Bad(er),
                    None => SpecCmd::GetKey(bulk_arg(args, 0)->Some_0),
                }
            } else if name == t_rpush() && e.len() >= 3 {
                match rpush_error(args) {
                    Some(er) => SpecCmd::Bad(er),
                    None => SpecCmd::Push {
                        key: bulk_arg(args, 0)->Some_0,
                        values: bulk_payloads(args, 1)->Some_0,
                    },
                }
            } else if name == t_rpop() && e.len() >= 2 {
                match key_only_error(args) {
                    Some(er) => SpecCmd::Bad(er),
                    None => SpecCmd::Pop(bulk_arg(args, 0)->Some_0),
                }
            } else if name == t_config() && e.len() >= 2 {
                match config_error(args) {
                    Some(er) => SpecCmd::Bad(er),
                    None => SpecCmd::ConfigGet(seq![bulk_arg(args, 1)->Some_0]),
                }
            } else if name == t_keys() && e.len() >= 2 {
                match bulk_arg(args, 0) {
                    Some(p) => SpecCmd::KeysPat(trim_quotes(p)),
                    None => SpecCmd::Bad(arg_error(args, 0, ArgField::Pattern)),
                }
            } else if name == t_info() {
                SpecCmd::Info(seq![InfoSection::Replication])
            } else if name == t_replconf() {
                SpecCmd::ReplConf(bulk_prefix(args, 0))
            } else if name == t_psync() && e.len() >= 3 {
                match psync_error(args) {
                    Some(er) => SpecCmd::Bad(er),
                    None => SpecCmd::Psync {
                        replication_id: bulk_arg(args, 0)->Some_0,
                        replication_offset: spec_i64_value(bulk_arg(args, 1)->Some_0)->Some_0,
                    },
                }
            } else if name == t_wait() && e.len() >= 3 {
                match wait_error(args) {
                    Some(er) => SpecCmd::Bad(er),
                    None => SpecCmd::Wait {
                        num_replicas: length_of_line(bulk_arg(args, 0)->Some_0)->Some_0 as u32,
                        timeout_ms: length_of_line(bulk_arg(args, 1)->Some_0)->Some_0 as u32,
                    },
                }
            } else if name == t_lrange() && e.len() >= 4 {
                match lrange_error(args) {
                    Some(er) => SpecCmd::Bad(er),
                    None => SpecCmd::Lrange {
                        key: bulk_arg(args, 0)->Some_0,
                        start: spec_i64_value(bulk_arg(args, 1)->Some_0)->Some_0,
                        stop: spec_i64_value(bulk_arg(args, 2)->Some_0)->Some_0,
                    },
                }
            } else if name == t_llen() && e.len() >= 2 {
                match key_only_error(args) {
                    Some(er) => SpecCmd::Bad(er),
                    None => SpecCmd::Llen(bulk_arg(args, 0)->Some_0),
                }
            } else {
                SpecCmd::NotCmd
            }
        }
    }
}

/// Outcome of reading one command off the wire.
pub enum CommandParse {
    /// A command and the position just past its frame.
    Cmd(Command, usize),
    /// A complete frame that names no command.
    NotCommand,
    /// A command frame whose arguments were rejected.
    BadCommand(CommandError),
    Incomplete,
    Invalid,
}

pub open spec fn command_parse_matches(r: CommandParse, sp: crate::resp::SpecParse) -> bool {
    match sp {
        crate::resp::SpecParse::Incomplete => r is Incomplete,
        crate::resp::SpecParse::Invalid => r is Invalid,
        crate::resp::SpecParse::Frame(m, end) => match spec_dispatch(m) {
            SpecCmd::NotCmd => r is NotCommand,
            SpecCmd::Bad(e) => r matches CommandParse::BadCommand(e2) && e2 == e,
            _ => r matches CommandParse::Cmd(c, e2) && c.model() == spec_dispatch(m) && e2 == end,
        },
    }
}

/// Reads one frame and interprets it as a command, as `spec_parse` and
/// `spec_dispatch` describe.
#[verifier::rlimit(100)]
#[verifier::spinoff_prover]
pub fn parse_command(buf: &[u8], pos: usize) -> (r: CommandParse)
    requires
        pos <= buf@.len(),
    ensures
        command_parse_matches(r, crate::resp::spec_parse(buf@, pos as int)),
{
    let parsed = crate::resp::parse_data_type(buf, pos);
    let (frame, end) = match parsed {
        crate::resp::FrameParse::Incomplete => {
            return CommandParse::Incomplete;
        },
        crate::resp::FrameParse::Invalid => {
            return CommandParse::Invalid;
        },
        crate::resp::FrameParse::Frame(v, end) => (v, end),
    };
    let elts = match frame {
        RespValue::Arr(elts) => elts,
        _ => {
            return CommandParse::NotCommand;
        },
    };
    let ghost m = RespValue::Arr(elts).model();
    let ghost e = models_of(elts@);
    proof {
        crate::datatypes::lemma_models_of(elts@);
        assert(crate::resp::spec_parse(buf@, pos as int) matches crate::resp::SpecParse::Frame(
            m0,
            e0,
        ) && m0 == m && e0 == end as int);
        assert(m->Arr_0 == e);
    }
    if elts.len() == 0 {
        return CommandParse::NotCommand;
    }
    let name_raw = match &elts[0] {
        RespValue::Bulk(p) => p,
        _ => {
            proof {
                assert(e[0] == elts@[0].model());
            }
            return CommandParse::NotCommand;
        },
    };
    proof {
        assert(e[0] == elts@[0].model());
        assert(e[0] matches FrameModel::Bulk(p) && p == name_raw@);
    }
    let name = upper_bytes(name_raw.as_slice());
    let args = &elts.as_slice()[1..elts.len()];
    proof {
        assert(args@ =~= elts@.drop_first());
        crate::datatypes::lemma_models_of(args@);
        crate::datatypes::lemma_models_of(elts@);
        assert forall|j: int| 0 <= j < args@.len() implies models_of(args@)[j] == e.drop_first()[j]
        by {
            assert(models_of(args@)[j] == args@[j].model());
            assert(e[j + 1] == elts@[j + 1].model());
            assert(args@[j] == elts@[j + 1]);
        }
        assert(models_of(args@) =~= e.drop_first());
    }
    let n = elts.len();
    let result = if crate::store::bytes_eq(name.as_slice(), x_t_ping().as_slice()) && n == 1 {
        CommandParse::Cmd(Command::Ping(PingCommand {  }), end)
    } else if crate::store::bytes_eq(name.as_slice(), x_t_echo().as_slice()) && n >= 2 {
        CommandParse::Cmd(Command::Echo(EchoCommand::new(args)), end)
    } else if crate::store::bytes_eq(name.as_slice(), x_t_set().as_slice()) && n >= 3 {
        match SetCommand::new(args) {
            Ok(c) => CommandParse::Cmd(Command::SetCmd(c), end),
            Err(er) => CommandParse::BadCommand(er),
        }
    } else if crate::store::bytes_eq(name.as_slice(), x_t_get().as_slice()) && n >= 2 {
        match GetCommand::new(args) {
            Ok(c) => CommandParse::Cmd(Command::Get(c), end),
            Err(er) => CommandParse::BadCommand(er),
        }
    } else if crate::store::bytes_eq(name.as_slice(), x_t_rpush().as_slice()) && n >= 3 {
        match RpushCommand::new(args) {
            Ok(c) => CommandParse::Cmd(Command::Rpush(c), end),
            Err(er) => CommandParse::BadCommand(er),
        }
    } else if crate::store::bytes_eq(name.as_slice(), x_t_rpop().as_slice()) && n >= 2 {
        match RpopCommand::new(args) {
            Ok(c) => CommandParse::Cmd(Command::Rpop(c), end),
            Err(er) => CommandParse::BadCommand(er),
        }
    } else if crate::store::bytes_eq(name.as_slice(), x_t_config().as_slice()) && n >= 2 {
        match ConfigCommand::new(args) {
            Ok(c) => {
                proof {
                    match &c.action {
                        ConfigAction::Get(ks) => {
                            assert(ks.deep_view() =~= seq![
                                bulk_arg(models_of(args@), 1)->Some_0,
                            ]) by {
                                assert(ks.deep_view()[0] == ks@[0].deep_view());
                                assert(ks@[0].deep_view() =~= ks@[0]@);
                            }
                        },
                    }
                }
                CommandParse::Cmd(Command::Config(c), end)
            },
            Err(er) => CommandParse::BadCommand(er),
        }
    } else if crate::store::bytes_eq(name.as_slice(), x_t_keys().as_slice()) && n >= 2 {
        match KeysCommand::new(args) {
            Ok(c) => CommandParse::Cmd(Command::Keys(c), end),
            Err(er) => CommandParse::BadCommand(er),
        }
    } else if crate::store::bytes_eq(name.as_slice(), x_t_info().as_slice()) {
        match InfoCommand::new(args) {
            Ok(c) => {
                proof {
                    assert(c.sections@ =~= seq![InfoSection::Replication]);
                }
                CommandParse::Cmd(Command::Info(c), end)
            },
            Err(er) => CommandParse::BadCommand(er),
        }
    } else if crate::store::bytes_eq(name.as_slice(), x_t_replconf().as_slice()) {
        let c = ReplConfCommand::new(args);
        CommandParse::Cmd(Command::ReplConf(c), end)
    } else if crate::store::bytes_eq(name.as_slice(), x_t_psync().as_slice()) && n >= 3 {
        match PsyncCommand::new(args) {
            Ok(c) => CommandParse::Cmd(Command::Psync(c), end),
            Err(er) => CommandParse::BadCommand(er),
        }
    } else if crate::store::bytes_eq(name.as_slice(), x_t_wait().as_slice()) && n >= 3 {
        match WaitCommand::new(args) {
            Ok(c) => CommandParse::Cmd(Command::Wait(c), end),
            Err(er) => CommandParse::BadCommand(er),
        }
    } else if crate::store::bytes_eq(name.as_slice(), x_t_lrange().as_slice()) && n >= 4 {
        match LrangeCommand::new(args) {
            Ok(c) => CommandParse::Cmd(Command::Lrange(c), end),
            Err(er) => CommandParse::BadCommand(er),
        }
    } else if crate::store::bytes_eq(name.as_slice(), x_t_llen().as_slice()) && n >= 2 {
        match LlenCommand::new(args) {
            Ok(c) => CommandParse::Cmd(Command::Llen(c), end),
            Err(er) => CommandParse::BadCommand(er),
        }
    } else {
        CommandParse::NotCommand
    };
    result
}

/// Ties `ReplConfCommand::new`'s collected arguments to `bulk_prefix`.
proof fn lemma_bulk_prefix_args(ms: Seq<FrameModel>, collected: Seq<Seq<u8>>, stop: int)
    requires
        0 <= stop <= ms.len(),
        collected.len() == stop,
        forall|j: int| 0 <= j < stop ==> ms[j] == FrameModel::Bulk(#[trigger] collected[j]),
        stop < ms.len() ==> !(ms[stop] is Bulk),
    ensures
        bulk_prefix(ms, 0) == collected,
{
    lemma_bulk_prefix_args_from(ms, collected, 0, stop);
    assert(collected.skip(0) =~= collected);
}

proof fn lemma_bulk_prefix_args_from(ms: Seq<FrameModel>, collected: Seq<Seq<u8>>, i: int, stop: int)
    requires
        0 <= i <= stop <= ms.len(),
        collected.len() == stop,
        forall|j: int| 0 <= j < stop ==> ms[j] == FrameModel::Bulk(#[trigger] collected[j]),
        stop < ms.len() ==> !(ms[stop] is Bulk),
    ensures
        bulk_prefix(ms, i) == collected.skip(i),
    decreases stop - i,
{
    if i == stop {
        if stop < ms.len() {
            assert(bulk_prefix(ms, i) =~= collected.skip(i));
        } else {
            assert(bulk_prefix(ms, i) =~= collected.skip(i));
        }
    } else {
        lemma_bulk_prefix_args_from(ms, collected, i + 1, stop);
        assert(ms[i] == FrameModel::Bulk(collected[i]));
        assert(bulk_prefix(ms, i) =~= seq![collected[i]] + collected.skip(i + 1));
        assert(bulk_prefix(ms, i) =~= collected.skip(i));
    }
}

} // verus!
