//! The leader's replication ledger: which followers are attached, how many
//! bytes each has been sent, and how a WAIT request is decided. The sockets
//! and timers that carry the bytes live outside this crate; they feed this
//! ledger and read its decisions.
use crate::numbers::{sat_add, sat_add_u64};
use vstd::prelude::*;

verus! {

/// One attached follower: its id and the bytes propagated to it so far.
pub struct FollowerRecord {
    pub id: u64,
    pub bytes_written: u64,
}

/// The leader-side accounting of followers and propagated bytes.
pub struct ReplicationLedger {
    pub followers: Vec<FollowerRecord>,
    pub master_offset: u64,
    pub next_id: u64,
}

impl ReplicationLedger {
    /// Every stored follower id lies below `next_id`, so the next one
    /// handed out is fresh.
    pub open spec fn wf(self) -> bool {
        forall|i: int|
            0 <= i < self.followers@.len() ==> (#[trigger] self.followers@[i]).id < self.next_id
    }
}

/// How a WAIT request is answered.
pub enum WaitDecision {
    /// No followers are attached: answer zero at once.
    NoFollowers,
    /// Nothing was ever propagated: answer the follower count at once.
    AllCurrent(usize),
    /// Acknowledgements must be gathered before answering.
    NeedAcks,
}

/// How many followers acknowledged at least their expected offset.
pub open spec fn spec_ack_count(expected: Seq<u64>, acks: Seq<Option<u64>>, i: int) -> int
    decreases i,
{
    if i <= 0 || i > expected.len() || expected.len() != acks.len() {
        0
    } else {
        spec_ack_count(expected, acks, i - 1) + (if acks[i - 1] matches Some(a) && a >= expected[
            i - 1
        ] {
            1int
        } else {
            0int
        })
    }
}

impl ReplicationLedger {
    /// An empty ledger: no followers, nothing propagated.
    pub fn new() -> (r: ReplicationLedger)
        ensures
            r.wf(),
            r.followers@.len() == 0,
            r.master_offset == 0,
            r.next_id == 0,
    {
        ReplicationLedger { followers: Vec::new(), master_offset: 0, next_id: 0 }
    }

    /// Attaches a follower; its byte counter starts at zero and its id is
    /// fresh: no stored follower carries it. The id space cannot run out
    /// before the counter would.
    pub fn register_follower(&mut self) -> (id: u64)
        requires
            old(self).wf(),
            old(self).next_id < u64::MAX,
        ensures
            final (self).wf(),
            id == old(self).next_id,
            forall|i: int|
                0 <= i < old(self).followers@.len() ==> (#[trigger] old(
                    self,
                ).followers@[i]).id != id,
            final (self).next_id == old(self).next_id + 1,
            final (self).master_offset == old(self).master_offset,
            final (self).followers@ == old(self).followers@.push(
                FollowerRecord { id: old(self).next_id, bytes_written: 0 },
            ),
    {
        let id = self.next_id;
        self.next_id = self.next_id + 1;
        self.followers.push(FollowerRecord { id, bytes_written: 0 });
        id
    }

    /// Removes the follower at `index`, as when its socket dies.
    pub fn remove_follower(&mut self, index: usize)
        requires
            index < old(self).followers@.len(),
        ensures
            old(self).wf() ==> final (self).wf(),
            final (self).followers@ == old(self).followers@.remove(index as int),
            final (self).master_offset == old(self).master_offset,
            final (self).next_id == old(self).next_id,
    {
        self.followers.remove(index);
    }

    pub fn follower_count(&self) -> (r: usize)
        ensures
            r == self.followers@.len(),
    {
        self.followers.len()
    }

    /// Records that `command_len` bytes were written to the follower at
    /// `index`: both that follower's counter and the master offset grow by
    /// that many bytes, stopping at the largest representable value.
    pub fn record_propagated(&mut self, index: usize, command_len: u64)
        requires
            index < old(self).followers@.len(),
        ensures
            final (self).followers@.len() == old(self).followers@.len(),
            final (self).followers@ == old(self).followers@.update(
                index as int,
                FollowerRecord {
                    id: old(self).followers@[index as int].id,
                    bytes_written: sat_add(
                        old(self).followers@[index as int].bytes_written as int,
                        command_len as int,
                    ) as u64,
                },
            ),
            final (self).master_offset == sat_add(
                old(self).master_offset as int,
                command_len as int,
            ),
            final (self).next_id == old(self).next_id,
            old(self).wf() ==> final (self).wf(),
    {
        let old_rec_id = self.followers[index].id;
        let old_written = self.followers[index].bytes_written;
        let grown = sat_add_u64(old_written, command_len);
        self.followers.set(index, FollowerRecord { id: old_rec_id, bytes_written: grown });
        self.master_offset = sat_add_u64(self.master_offset, command_len);
    }

    /// How many followers have been sent no bytes at all.
    pub fn number_of_zero_byte_sent_followers(&self) -> (r: usize)
        ensures
            r as int == spec_zero_count(self.followers@, self.followers@.len() as int),
    {
        let mut count: usize = 0;
        let mut i: usize = 0;
        while i < self.followers.len()
            invariant
                i <= self.followers@.len(),
                count as int == spec_zero_count(self.followers@, i as int),
                count <= i,
            decreases self.followers@.len() - i,
        {
            if self.followers[i].bytes_written == 0 {
                count += 1;
            }
            i += 1;
        }
        count
    }

    /// The expected offset of every follower, in order.
    pub fn expected_offsets(&self) -> (r: Vec<u64>)
        ensures
            r@.len() == self.followers@.len(),
            forall|i: int|
                0 <= i < r@.len() ==> r@[i] == (#[trigger] self.followers@[i]).bytes_written,
    {
        let mut out: Vec<u64> = Vec::new();
        let mut i: usize = 0;
        while i < self.followers.len()
            invariant
                i <= self.followers@.len(),
                out@.len() == i,
                forall|j: int|
                    0 <= j < i ==> out@[j] == (#[trigger] self.followers@[j]).bytes_written,
            decreases self.followers@.len() - i,
        {
            out.push(self.followers[i].bytes_written);
            i += 1;
        }
        out
    }

    /// How a WAIT must be answered: zero without followers; the follower
    /// count when nothing was ever propagated; otherwise acknowledgements
    /// decide.
    pub fn wait_decision(&self) -> (r: WaitDecision)
        ensures
            self.followers@.len() == 0 ==> r is NoFollowers,
            self.followers@.len() > 0 && self.master_offset == 0 ==> (
            r matches WaitDecision::AllCurrent(n) && n == self.followers@.len()),
            self.followers@.len() > 0 && self.master_offset != 0 ==> r is NeedAcks,
    {
        if self.followers.len() == 0 {
            WaitDecision::NoFollowers
        } else if self.master_offset == 0 {
            WaitDecision::AllCurrent(self.followers.len())
        } else {
            WaitDecision::NeedAcks
        }
    }
}

pub open spec fn spec_zero_count(s: Seq<FollowerRecord>, i: int) -> int
    decreases i,
{
    if i <= 0 || i > s.len() {
        0
    } else {
        spec_zero_count(s, i - 1) + (if s[i - 1].bytes_written == 0 {
            1int
        } else {
            0int
        })
    }
}

/// Counts the followers whose reported acknowledgement reaches their
/// expected offset; a follower that reported nothing counts as behind.
pub fn count_acknowledged(expected: &Vec<u64>, acks: &Vec<Option<u64>>) -> (r: usize)
    requires
        expected@.len() == acks@.len(),
    ensures
        r as int == spec_ack_count(expected@, acks@, expected@.len() as int),
        r <= expected@.len(),
{
    let mut count: usize = 0;
    let mut i: usize = 0;
    while i < expected.len()
        invariant
            expected@.len() == acks@.len(),
            i <= expected@.len(),
            count as int == spec_ack_count(expected@, acks@, i as int),
            count <= i,
        decreases expected@.len() - i,
    {
        match acks[i] {
            Some(a) => {
                if a >= expected[i] {
                    count += 1;
                }
            },
            None => {
            },
        }
        i += 1;
    }
    count
}

} // verus!
