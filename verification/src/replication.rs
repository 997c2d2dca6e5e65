//! The process-wide replication role, chosen once at startup.
use crate::numbers::sat_add_u64;
use vstd::prelude::*;

verus! {

/// Relies on `uuid::Uuid::new_v4` and its hyphenated `Display` form, which
/// is always 36 characters; the text depends on fresh randomness, so nothing
/// more is promised.
#[verifier::external_body]
fn fresh_uuid_text() -> (r: Vec<u8>)
    ensures
        r@.len() == 36,
{
    uuid::Uuid::new_v4().to_string().into_bytes()
}

/// The leader's identity: a 40-byte replication id picked at boot and the
/// running count of propagated command bytes.
pub struct LeaderReplication {
    pub replication_id: Vec<u8>,
    pub replication_offset: u64,
}

impl LeaderReplication {
    /// A fresh leader identity: offset zero, a 40-byte id drawn from two
    /// random tokens.
    pub fn new() -> (r: LeaderReplication)
        ensures
            r.replication_id@.len() == 40,
            r.replication_offset == 0,
    {
        let mut id = fresh_uuid_text();
        let second = fresh_uuid_text();
        id.push(45);
        let mut k: usize = 0;
        while k < second.len()
            invariant
                k <= second@.len(),
                id@.len() == 37 + k,
            decreases second@.len() - k,
        {
            id.push(second[k]);
            k += 1;
        }
        id.truncate(40);
        LeaderReplication { replication_id: id, replication_offset: 0 }
    }

    /// Adds the byte length of one propagated command to the offset,
    /// stopping at the largest representable value.
    pub fn record_propagated(&mut self, command_len: u64)
        ensures
            final (self).replication_id == old(self).replication_id,
            final (self).replication_offset == if old(self).replication_offset + command_len
                > u64::MAX {
                u64::MAX as int
            } else {
                old(self).replication_offset + command_len
            },
    {
        self.replication_offset = sat_add_u64(self.replication_offset, command_len);
    }
}

impl Default for LeaderReplication {
    fn default() -> (r: LeaderReplication)
        ensures
            r.replication_id@.len() == 40,
            r.replication_offset == 0,
    {
        LeaderReplication::new()
    }
}

/// Where a follower's leader lives.
pub struct FollowerReplication {
    pub leader_host: Vec<u8>,
    pub leader_port: u16,
}

impl FollowerReplication {
    pub fn new(leader_host: Vec<u8>, leader_port: u16) -> (r: FollowerReplication)
        ensures
            r.leader_host == leader_host,
            r.leader_port == leader_port,
    {
        FollowerReplication { leader_host, leader_port }
    }
}

// "127.0.0.1"
pub open spec fn default_host_bytes() -> Seq<u8> {
    seq![49u8, 50u8, 55u8, 46u8, 48u8, 46u8, 48u8, 46u8, 49u8]
}

impl Default for FollowerReplication {
    fn default() -> (r: FollowerReplication)
        ensures
            r.leader_host@ == default_host_bytes(),
            r.leader_port == 6379,
    {
        let host = vec![49u8, 50u8, 55u8, 46u8, 48u8, 46u8, 48u8, 46u8, 49u8];
        proof {
            assert(host@ =~= default_host_bytes());
        }
        FollowerReplication { leader_host: host, leader_port: 6379 }
    }
}

/// Leader or follower, fixed at startup.
pub enum ReplicationRole {
    Leader(LeaderReplication),
    Follower(FollowerReplication),
}

impl ReplicationRole {
    pub fn is_follower(&self) -> (r: bool)
        ensures
            r == (*self is Follower),
    {
        match self {
            ReplicationRole::Follower(_) => true,
            ReplicationRole::Leader(_) => false,
        }
    }

    pub fn is_leader(&self) -> (r: bool)
        ensures
            r == (*self is Leader),
    {
        match self {
            ReplicationRole::Leader(_) => true,
            ReplicationRole::Follower(_) => false,
        }
    }
}

impl Default for ReplicationRole {
    fn default() -> (r: ReplicationRole)
        ensures
            r matches ReplicationRole::Leader(l) && l.replication_id@.len() == 40
                && l.replication_offset == 0,
    {
        ReplicationRole::Leader(LeaderReplication::new())
    }
}

} // verus!
