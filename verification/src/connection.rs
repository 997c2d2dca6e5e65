//! The per-connection read loop's core: take a buffer of received bytes,
//! run every complete command in it, and report the reply bytes, how much
//! of the buffer was consumed, and whether the connection must escalate
//! (PSYNC hands the socket to the replication manager; WAIT needs
//! acknowledgements gathered before its reply). The socket reads and
//! writes around this live outside the crate.
use crate::commands::{
    execute_command, parse_command, spec_dispatch, spec_store_after, Command, CommandAction,
    CommandParse, SpecCmd, StoreMap,
};
use crate::datatypes::push_all;
use crate::replication::ReplicationRole;
use crate::resp::{spec_parse, SpecParse};
use crate::store::Store;
use vstd::prelude::*;

verus! {

/// Ghost form of an escalation.
pub enum EscModel {
    Handshake { head: Seq<u8>, rdb: Seq<u8> },
    HealthCheck { num: u32, timeout: u32 },
}

pub open spec fn esc_matches(e: Option<CommandAction>, em: Option<EscModel>) -> bool {
    match e {
        None => em is None,
        Some(a) => match a {
            CommandAction::PsyncHandshake { response, rdb_data } => em
                matches Some(EscModel::Handshake { head, rdb }) && response@ == head && rdb_data@
                == rdb,
            CommandAction::ReplicaHealthCheck { num_replicas, timeout_ms } => em matches Some(
                EscModel::HealthCheck { num, timeout },
            ) && num_replicas == num && timeout_ms == timeout,
            CommandAction::Response(_) => false,
        },
    }
}

/// Whether this command ends the buffer loop, and with what escalation.
pub open spec fn spec_escalation(
    c: SpecCmd,
    role: ReplicationRole,
) -> Option<EscModel> {
    match c {
        SpecCmd::Wait { num_replicas, timeout_ms } => Some(
            EscModel::HealthCheck { num: num_replicas, timeout: timeout_ms },
        ),
        SpecCmd::Psync { .. } => match role {
            ReplicationRole::Leader(l) => match crate::rdb::base64_decode_of(
                crate::rdb::spec_empty_rdb_base64(),
            ) {
                Some(payload) => Some(
                    EscModel::Handshake {
                        head: crate::datatypes::encode_simple(
                            crate::commands::fullresync_text(l),
                        ),
                        rdb: seq![36u8] + crate::numbers::dec_digits(payload.len())
                            + crate::datatypes::crlf() + payload,
                    },
                ),
                None => None,
            },
            ReplicationRole::Follower(_) => None,
        },
        _ => None,
    }
}

/// Whether a command writes the keyspace, and so must be propagated to the
/// followers when a leader executes it.
pub open spec fn spec_is_write(c: SpecCmd) -> bool {
    c is SetKv || c is Push || c is Pop
}

/// The bytes an action answers a client with; escalations answer later.
pub open spec fn resp_payload(a: crate::commands::ActionModel) -> Seq<u8> {
    match a {
        crate::commands::ActionModel::Resp(b) => b,
        _ => Seq::empty(),
    }
}

/// The buffer loop's meaning: run commands in order until the buffer runs
/// out, fails to parse, or a command escalates. Yields the keyspace model,
/// the stop position, the escalation, if any, the byte ranges of the write
/// commands, and the concatenated reply bytes, all in command order.
pub open spec fn spec_run(
    s: Seq<u8>,
    pos: int,
    em: Seq<crate::store::EntryModel>,
    cfg: crate::config::Config,
    role: ReplicationRole,
    now: u64,
) -> (Seq<crate::store::EntryModel>, int, Option<EscModel>, Seq<(int, int)>, Seq<u8>)
    decreases s.len() - pos,
{
    if pos < 0 || pos > s.len() {
        (em, pos, None, Seq::empty(), Seq::empty())
    } else {
        match spec_parse(s, pos) {
            SpecParse::Frame(fm, end) => if pos < end <= s.len() {
                match spec_dispatch(fm) {
                    SpecCmd::NotCmd => (em, pos, None, Seq::empty(), Seq::empty()),
                    SpecCmd::Bad(_) => (em, pos, None, Seq::empty(), Seq::empty()),
                    c => {
                        let em2 = crate::commands::spec_store_after_m(c, em, now);
                        let here: Seq<(int, int)> = if spec_is_write(c) {
                            seq![(pos, end)]
                        } else {
                            Seq::empty()
                        };
                        let reply = resp_payload(
                            crate::commands::spec_response(c, em, cfg, role, now),
                        );
                        match spec_escalation(c, role) {
                            Some(esc) => (em2, end, Some(esc), here, Seq::empty()),
                            None => {
                                let rest = spec_run(s, end, em2, cfg, role, now);
                                (rest.0, rest.1, rest.2, here + rest.3, reply + rest.4)
                            },
                        }
                    },
                }
            } else {
                (em, pos, None, Seq::empty(), Seq::empty())
            },
            SpecParse::Incomplete => (em, pos, None, Seq::empty(), Seq::empty()),
            SpecParse::Invalid => (em, pos, None, Seq::empty(), Seq::empty()),
        }
    }
}

fn command_is_write(cmd: &Command) -> (r: bool)
    ensures
        r == spec_is_write(cmd.model()),
{
    match cmd {
        Command::SetCmd(_) => true,
        Command::Rpush(_) => true,
        Command::Rpop(_) => true,
        _ => false,
    }
}

/// What one pass over a received buffer produced.
pub struct BufferOutcome {
    /// The ordinary replies, concatenated in command order.
    pub responses: Vec<u8>,
    /// Position of the first unconsumed byte.
    pub consumed: usize,
    /// The escalation that ended the pass, if one did.
    pub escalation: Option<CommandAction>,
    /// Byte ranges of the write commands that ran, in order; a leader sends
    /// exactly these bytes to its followers.
    pub writes: Vec<(usize, usize)>,
}

pub open spec fn writes_match(ws: Seq<(usize, usize)>, sp: Seq<(int, int)>) -> bool {
    ws.len() == sp.len() && forall|i: int|
        0 <= i < ws.len() ==> (#[trigger] ws[i]).0 == sp[i].0 && ws[i].1 == sp[i].1
}

/// Runs every complete command in `buf` against the keyspace, exactly as
/// `spec_run` says: the keyspace change, the consumed length, the
/// escalation, the write ranges, and the concatenated reply bytes.
pub fn run_commands(
    buf: &[u8],
    store: &mut Store,
    config: &crate::config::Config,
    role: &ReplicationRole,
    now: u64,
) -> (r: BufferOutcome)
    requires
        old(store).wf(),
    ensures
        final (store).wf(),
        ({
            let f = spec_run(buf@, 0, old(store).model(), *config, *role, now);
            &&& final (store).model() == f.0
            &&& final (store).map_view() == crate::store::map_of_m(f.0)
            &&& r.consumed == f.1
            &&& esc_matches(r.escalation, f.2)
            &&& writes_match(r.writes@, f.3)
            &&& r.responses@ == f.4
        }),
{
    let ghost full = spec_run(buf@, 0, old(store).model(), *config, *role, now);
    let mut responses: Vec<u8> = Vec::new();
    let mut writes: Vec<(usize, usize)> = Vec::new();
    let mut pos: usize = 0;
    loop
        invariant
            store.wf(),
            pos <= buf@.len(),
            full == spec_run(buf@, 0, old(store).model(), *config, *role, now),
            ({
                let rest = spec_run(buf@, pos as int, store.model(), *config, *role, now);
                &&& full.0 == rest.0
                &&& full.1 == rest.1
                &&& full.2 == rest.2
                &&& full.3 == seqify(writes@) + rest.3
                &&& full.4 == responses@ + rest.4
            }),
        decreases buf@.len() - pos,
    {
        let ghost rest = spec_run(buf@, pos as int, store.model(), *config, *role, now);
        match parse_command(buf, pos) {
            CommandParse::Cmd(cmd, end) => {
                if end <= pos || end > buf.len() {
                    proof {
                        assert(full.3 =~= seqify(writes@));
                        assert(full.4 =~= responses@);
                        crate::store::lemma_model_map(store.entries@);
                    }
                    return BufferOutcome { responses, consumed: pos, escalation: None, writes };
                }
                let is_write = command_is_write(&cmd);
                let ghost pre_writes = writes@;
                let ghost pre_responses = responses@;
                match execute_command(&cmd, store, config, role, now) {
                    CommandAction::Response(bytes) => {
                        push_all(&mut responses, bytes.as_slice());
                        if is_write {
                            writes.push((pos, end));
                            proof {
                                assert(seqify(writes@) =~= seqify(pre_writes) + seq![
                                    (pos as int, end as int),
                                ]);
                            }
                        } else {
                            proof {
                                assert(seqify(writes@) + Seq::<(int, int)>::empty() =~= seqify(
                                    writes@,
                                ));
                            }
                        }
                        pos = end;
                    },
                    CommandAction::PsyncHandshake { response, rdb_data } => {
                        if is_write {
                            writes.push((pos, end));
                            proof {
                                assert(seqify(writes@) =~= seqify(pre_writes) + seq![
                                    (pos as int, end as int),
                                ]);
                            }
                        }
                        proof {
                            assert(full.3 =~= seqify(writes@));
                            assert(full.4 =~= responses@);
                            crate::store::lemma_model_map(store.entries@);
                        }
                        return BufferOutcome {
                            responses,
                            consumed: end,
                            escalation: Some(
                                CommandAction::PsyncHandshake { response, rdb_data },
                            ),
                            writes,
                        };
                    },
                    CommandAction::ReplicaHealthCheck { num_replicas, timeout_ms } => {
                        if is_write {
                            writes.push((pos, end));
                            proof {
                                assert(seqify(writes@) =~= seqify(pre_writes) + seq![
                                    (pos as int, end as int),
                                ]);
                            }
                        }
                        proof {
                            assert(full.3 =~= seqify(writes@));
                            assert(full.4 =~= responses@);
                            crate::store::lemma_model_map(store.entries@);
                        }
                        return BufferOutcome {
                            responses,
                            consumed: end,
                            escalation: Some(
                                CommandAction::ReplicaHealthCheck { num_replicas, timeout_ms },
                            ),
                            writes,
                        };
                    },
                }
            },
            _ => {
                proof {
                    assert(full.3 =~= seqify(writes@));
                    assert(full.4 =~= responses@);
                    crate::store::lemma_model_map(store.entries@);
                }
                return BufferOutcome { responses, consumed: pos, escalation: None, writes };
            },
        }
    }
}

/// The ranges as mathematical pairs.
pub open spec fn seqify(ws: Seq<(usize, usize)>) -> Seq<(int, int)> {
    Seq::new(ws.len(), |i: int| (ws[i].0 as int, ws[i].1 as int))
}

} // verus!
