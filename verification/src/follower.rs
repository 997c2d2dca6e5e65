//! The follower's side of replication: the handshake messages and their
//! validation, and the apply loop that executes the leader's command stream
//! while counting bytes. Everything here is pure; the socket reads and
//! writes around it live outside this crate.
use crate::commands::{
    execute_command, parse_command, spec_dispatch, spec_is_getack, spec_store_after, t_ack,
    t_replconf, x_t_ack, x_t_replconf, Command, CommandParse, SpecCmd,
};
use crate::datatypes::{encode_frame, models_of, FrameModel, RespValue};
use crate::numbers::{dec_digits, length_of_line, sat_add, sat_add_u64};
use crate::resp::{find_crlf, spec_parse, SpecParse};
use crate::store::Store;
use vstd::prelude::*;

verus! {

// "FULLRESYNC"
pub open spec fn t_fullresync_word() -> Seq<u8> {
    seq![70u8, 85u8, 76u8, 76u8, 82u8, 69u8, 83u8, 89u8, 78u8, 67u8]
}

fn x_t_fullresync_word() -> (r: Vec<u8>)
    ensures
        r@ == t_fullresync_word(),
{
    let v = vec![70u8, 85u8, 76u8, 76u8, 82u8, 69u8, 83u8, 89u8, 78u8, 67u8];
    proof {
        assert(v@ =~= t_fullresync_word());
    }
    v
}

/// Why a handshake reply was rejected.
#[derive(Debug, PartialEq, Eq, Structural, Clone, Copy)]
pub enum HandshakeError {
    NoResponse,
    UnexpectedType,
    NotFullResync,
    MissingReplicationId,
    BadReplicationId,
    MissingOffset,
    BadOffset,
}

/// The simple-string payload of a reply frame; anything else is an error.
pub fn simple_string_from_response(response: Option<RespValue>) -> (r: Result<
    Vec<u8>,
    HandshakeError,
>)
    ensures
        match response {
            None => r matches Err(e) && e is NoResponse,
            Some(v) => match v {
                RespValue::Simple(_) => (r matches Ok(p) && v.model() == FrameModel::Simple(p@)),
                _ => r matches Err(e) && e is UnexpectedType,
            },
        },
{
    match response {
        None => Err(HandshakeError::NoResponse),
        Some(RespValue::Simple(s)) => Ok(s),
        Some(_) => Err(HandshakeError::UnexpectedType),
    }
}

/// Reads `FULLRESYNC <40-byte id> <offset>` out of a greeting line.
/// Succeeds exactly when the first token is FULLRESYNC, the second is forty
/// bytes long, and the third is a decimal offset.
pub fn psync_response_to_replication_id_and_offset(response: &[u8]) -> (r: Result<
    (Vec<u8>, u64),
    HandshakeError,
>)
    ensures
        ({
            let ts = crate::cli::ws_tokens(response@);
            &&& (r matches Ok((id, off)) ==> ts.len() >= 3 && ts[0] == t_fullresync_word() && id@
                == ts[1] && id@.len() == 40 && length_of_line(ts[2]) == Some(off as int))
            &&& (r is Err <==> !(ts.len() >= 3 && ts[0] == t_fullresync_word() && ts[1].len()
                == 40 && (length_of_line(ts[2]) matches Some(v) && v <= u64::MAX)))
        }),
{
    let parts = crate::cli::ws_split(response);
    proof {
        assert(crate::cli::ws_tokens(response@).len() == parts@.len());
    }
    if parts.len() == 0 {
        return Err(HandshakeError::NotFullResync);
    }
    proof {
        assert(parts@[0].deep_view() == crate::cli::ws_tokens(response@)[0]);
        assert(parts@[0].deep_view() =~= parts@[0]@);
    }
    let word = x_t_fullresync_word();
    if !crate::store::bytes_eq(parts[0].as_slice(), word.as_slice()) {
        return Err(HandshakeError::NotFullResync);
    }
    if parts.len() < 2 {
        return Err(HandshakeError::MissingReplicationId);
    }
    proof {
        assert(parts@[1].deep_view() == crate::cli::ws_tokens(response@)[1]);
        assert(parts@[1].deep_view() =~= parts@[1]@);
    }
    if parts[1].len() != 40 {
        return Err(HandshakeError::BadReplicationId);
    }
    if parts.len() < 3 {
        return Err(HandshakeError::MissingOffset);
    }
    proof {
        assert(parts@[2].deep_view() == crate::cli::ws_tokens(response@)[2]);
        assert(parts@[2].deep_view() =~= parts@[2]@);
        assert(parts@[2]@.subrange(0, parts@[2]@.len() as int) =~= parts@[2]@);
    }
    let off = match crate::numbers::parse_length(
        parts[2].as_slice(),
        0,
        parts[2].len(),
        u64::MAX,
    ) {
        Some(v) => v,
        None => {
            return Err(HandshakeError::BadOffset);
        },
    };
    let id = crate::store::duplicate_bytes(&parts[1]);
    Ok((id, off))
}

/// Outcome of reading the snapshot header `$<len>\r\n` that precedes the
/// raw snapshot bytes (which carry no trailing CRLF).
pub enum RdbHeader {
    /// Declared payload length and the position where the payload starts.
    Header(usize, usize),
    Incomplete,
    Invalid,
}

/// Ghost outcome of reading a snapshot header.
pub enum SpecRdbHeader {
    /// Payload length and the position where the payload starts.
    Header(int, int),
    Incomplete,
    Invalid,
}

/// What the snapshot header at `pos` says: the payload length and where the
/// payload begins.
pub open spec fn spec_rdb_header(s: Seq<u8>, pos: int) -> SpecRdbHeader {
    if pos < 0 || pos >= s.len() {
        SpecRdbHeader::Incomplete
    } else if s[pos] != 36 {
        SpecRdbHeader::Invalid
    } else {
        match find_crlf(s, pos + 1) {
            None => SpecRdbHeader::Incomplete,
            Some(j) => match length_of_line(s.subrange(pos + 1, j)) {
                Some(n) => if n > crate::datatypes::LEN_MAX {
                    SpecRdbHeader::Invalid
                } else {
                    SpecRdbHeader::Header(n, j + 2)
                },
                None => SpecRdbHeader::Invalid,
            },
        }
    }
}

/// Reads the snapshot header: `$`, a decimal length, CRLF. Reports where
/// the payload starts and how long it is; the payload itself has no
/// trailing CRLF.
pub fn parse_rdb_payload_header(buf: &[u8], pos: usize) -> (r: RdbHeader)
    requires
        pos <= buf@.len(),
    ensures
        match r {
            RdbHeader::Header(n, start) => spec_rdb_header(buf@, pos as int)
                matches SpecRdbHeader::Header(sn, sstart) && n == sn && start == sstart && start
                <= buf@.len(),
            RdbHeader::Incomplete => spec_rdb_header(buf@, pos as int) is Incomplete,
            RdbHeader::Invalid => spec_rdb_header(buf@, pos as int) is Invalid,
        },
{
    if pos >= buf.len() {
        return RdbHeader::Incomplete;
    }
    if buf[pos] != 36 {
        return RdbHeader::Invalid;
    }
    match crate::resp::find_crlf_at(buf, pos + 1) {
        None => RdbHeader::Incomplete,
        Some(j) => {
            match crate::numbers::parse_length(buf, pos + 1, j, crate::datatypes::LEN_MAX) {
                None => RdbHeader::Invalid,
                Some(n64) => RdbHeader::Header(n64 as usize, j + 2),
            }
        },
    }
}

/// Whether this command is `REPLCONF GETACK`, which must answer with the
/// current apply offset instead of being counted.
pub open spec fn spec_cmd_getack(c: SpecCmd) -> bool {
    c matches SpecCmd::ReplConf(args) && spec_is_getack(args)
}

fn command_is_getack(cmd: &Command) -> (r: bool)
    ensures
        r == spec_cmd_getack(cmd.model()),
{
    match cmd {
        Command::ReplConf(rc) => rc.is_getack(),
        _ => false,
    }
}

/// The `REPLCONF ACK <offset>` frame a follower answers GETACK with.
pub open spec fn ack_text(offset: u64) -> Seq<u8> {
    encode_frame(
        FrameModel::Arr(
            seq![
                FrameModel::Bulk(t_replconf()),
                FrameModel::Bulk(t_ack()),
                FrameModel::Bulk(dec_digits(offset as nat)),
            ],
        ),
    )
}

/// Builds the `REPLCONF ACK <offset>` reply.
pub fn ack_message(offset: u64) -> (r: Vec<u8>)
    ensures
        r@ == ack_text(offset),
{
    let mut frames: Vec<RespValue> = Vec::new();
    frames.push(RespValue::Bulk(x_t_replconf()));
    frames.push(RespValue::Bulk(x_t_ack()));
    frames.push(RespValue::Bulk(crate::numbers::format_u64(offset)));
    let arr = crate::datatypes::Array::new(frames);
    let r = arr.to_bytes();
    proof {
        crate::datatypes::lemma_models_of(arr.values@);
        assert(models_of(arr.values@)[0] == arr.values@[0].model());
        assert(models_of(arr.values@)[1] == arr.values@[1].model());
        assert(models_of(arr.values@)[2] == arr.values@[2].model());
        assert(models_of(arr.values@) =~= seq![
            FrameModel::Bulk(t_replconf()),
            FrameModel::Bulk(t_ack()),
            FrameModel::Bulk(dec_digits(offset as nat)),
        ]);
    }
    r
}

/// Applies one command received from the leader: the keyspace changes as it
/// would for a client, every reply is suppressed, except that GETACK
/// answers with the apply offset as it stood before the GETACK frame.
pub fn execute_from_leader(
    cmd: &Command,
    store: &mut Store,
    config: &crate::config::Config,
    role: &crate::replication::ReplicationRole,
    now: u64,
    offset: u64,
) -> (r: Option<Vec<u8>>)
    requires
        old(store).wf(),
    ensures
        final (store).wf(),
        spec_cmd_getack(cmd.model()) ==> final (store).map_view() == old(store).map_view() && (
        r matches Some(reply) && reply@ == ack_text(offset)),
        !spec_cmd_getack(cmd.model()) ==> final (store).map_view() == spec_store_after(
            cmd.model(),
            old(store).map_view(),
            now,
        ) && r is None,
{
    if command_is_getack(cmd) {
        Some(ack_message(offset))
    } else {
        let _ = execute_command(cmd, store, config, role, now);
        None
    }
}

/// The apply loop's meaning: reading commands one after another from `pos`,
/// applying each to the keyspace, collecting GETACK replies, and counting
/// the bytes of every frame but GETACK's. Yields the replies, the keyspace,
/// the stop position and the final offset.
pub open spec fn spec_apply(
    s: Seq<u8>,
    pos: int,
    m: crate::commands::StoreMap,
    now: u64,
    off: u64,
) -> (Seq<u8>, crate::commands::StoreMap, int, u64)
    decreases s.len() - pos,
{
    if pos < 0 || pos > s.len() {
        (Seq::empty(), m, pos, off)
    } else {
        match spec_parse(s, pos) {
            SpecParse::Frame(fm, end) => if pos < end <= s.len() {
                match spec_dispatch(fm) {
                    SpecCmd::NotCmd => (Seq::empty(), m, pos, off),
                    SpecCmd::Bad(_) => (Seq::empty(), m, pos, off),
                    c => if spec_cmd_getack(c) {
                        let rest = spec_apply(s, end, m, now, off);
                        (ack_text(off) + rest.0, rest.1, rest.2, rest.3)
                    } else {
                        let m2 = spec_store_after(c, m, now);
                        let off2 = sat_add(off as int, end - pos) as u64;
                        spec_apply(s, end, m2, now, off2)
                    },
                }
            } else {
                (Seq::empty(), m, pos, off)
            },
            SpecParse::Incomplete => (Seq::empty(), m, pos, off),
            SpecParse::Invalid => (Seq::empty(), m, pos, off),
        }
    }
}

/// What one pass of the apply loop produced.
pub struct ApplyOutcome {
    /// GETACK replies to send back to the leader, in order.
    pub replies: Vec<u8>,
    /// Position of the first unconsumed byte.
    pub consumed: usize,
    /// The apply offset after this pass.
    pub new_offset: u64,
}

/// Applies every complete command in `buf`, as `spec_apply` describes.
pub fn apply_buffer(
    buf: &[u8],
    store: &mut Store,
    config: &crate::config::Config,
    role: &crate::replication::ReplicationRole,
    now: u64,
    offset: u64,
) -> (r: ApplyOutcome)
    requires
        old(store).wf(),
    ensures
        final (store).wf(),
        ({
            let full = spec_apply(buf@, 0, old(store).map_view(), now, offset);
            &&& r.replies@ == full.0
            &&& final (store).map_view() == full.1
            &&& r.consumed == full.2
            &&& r.new_offset == full.3
        }),
{
    let ghost full = spec_apply(buf@, 0, old(store).map_view(), now, offset);
    let mut replies: Vec<u8> = Vec::new();
    let mut pos: usize = 0;
    let mut off = offset;
    loop
        invariant
            store.wf(),
            pos <= buf@.len(),
            full == spec_apply(buf@, 0, old(store).map_view(), now, offset),
            ({
                let rest = spec_apply(buf@, pos as int, store.map_view(), now, off);
                &&& full.0 == replies@ + rest.0
                &&& full.1 == rest.1
                &&& full.2 == rest.2
                &&& full.3 == rest.3
            }),
        decreases buf@.len() - pos,
    {
        let ghost rest = spec_apply(buf@, pos as int, store.map_view(), now, off);
        match parse_command(buf, pos) {
            CommandParse::Cmd(cmd, end) => {
                if end <= pos || end > buf.len() {
                    proof {
                        assert(rest.0 =~= Seq::<u8>::empty());
                        assert(full.0 =~= replies@);
                    }
                    return ApplyOutcome { replies, consumed: pos, new_offset: off };
                }
                let getack = command_is_getack(&cmd);
                match execute_from_leader(&cmd, store, config, role, now, off) {
                    Some(reply) => {
                        crate::datatypes::push_all(&mut replies, reply.as_slice());
                    },
                    None => {
                    },
                }
                if !getack {
                    off = sat_add_u64(off, (end - pos) as u64);
                }
                pos = end;
            },
            _ => {
                proof {
                    assert(rest.0 =~= Seq::<u8>::empty());
                    assert(full.0 =~= replies@);
                }
                return ApplyOutcome { replies, consumed: pos, new_offset: off };
            },
        }
    }
}

// ---------------------------------------------------------------------------
// The offset law.
// ---------------------------------------------------------------------------
/// One element's encoding splits off the front of a run's encoding.
proof fn lemma_elems_push_split(e: Seq<FrameModel>, i: int)
    requires
        0 <= i < e.len(),
    ensures
        crate::datatypes::encode_elems(e, i) == encode_frame(e[i])
            + crate::datatypes::encode_elems(e, i + 1),
{
}

/// Offset accounting, general step: when the buffer from `pos` holds the
/// encodings of `e[i..]` and ends there, where every element up to the last
/// dispatches to an ordinary command and the last is GETACK, the apply loop
/// replies exactly one acknowledgement, reporting the offset as it stood
/// when the GETACK frame began.
proof fn lemma_offset_at(
    s: Seq<u8>,
    pos: int,
    e: Seq<FrameModel>,
    i: int,
    m: crate::commands::StoreMap,
    now: u64,
    off: u64,
)
    requires
        e.len() >= 1,
        0 <= i < e.len(),
        forall|j: int| 0 <= j < e.len() ==> crate::datatypes::wf_frame(#[trigger] e[j]),
        forall|j: int|
            0 <= j < e.len() - 1 ==> {
                let c = spec_dispatch(#[trigger] e[j]);
                &&& !(c is NotCmd)
                &&& !(c is Bad)
                &&& !spec_cmd_getack(c)
                &&& !(c is Wait)
                &&& !(c is Psync)
            },
        spec_cmd_getack(spec_dispatch(e[e.len() - 1])),
        0 <= pos,
        pos + crate::datatypes::encode_elems(e, i).len() == s.len(),
        s.subrange(pos, s.len() as int) == crate::datatypes::encode_elems(e, i),
        off + (s.len() - pos) <= u64::MAX,
    ensures
        ({
            let out = spec_apply(s, pos, m, now, off);
            &&& out.0 == ack_text(
                (off + (s.len() - pos) - encode_frame(e[e.len() - 1]).len()) as u64,
            )
            &&& out.2 == s.len()
        }),
    decreases e.len() - i,
{
    let enc = crate::datatypes::encode_elems(e, i);
    let f = encode_frame(e[i]);
    lemma_elems_push_split(e, i);
    let tail = crate::datatypes::encode_elems(e, i + 1);
    assert forall|t: int| 0 <= t < enc.len() implies s[pos + t] == enc[t] by {
        assert(s.subrange(pos, s.len() as int)[t] == s[pos + t]);
    }
    assert forall|t: int| 0 <= t < f.len() implies s[pos + t] == f[t] by {
        assert(enc[t] == (f + tail)[t]);
        assert((f + tail)[t] == f[t]);
    }
    assert(s.subrange(pos, pos + f.len() as int) =~= f);
    crate::resp::lemma_parse_encode(s, pos, e[i]);
    crate::resp::lemma_encode_frame_len(e[i]);
    let end1 = pos + f.len() as int;
    if i == e.len() - 1 {
        // the GETACK frame itself; nothing follows it
        assert(tail =~= Seq::<u8>::empty());
        assert(end1 == s.len());
        let c = spec_dispatch(e[i]);
        assert(spec_apply(s, end1, m, now, off).0 =~= Seq::<u8>::empty());
        assert(spec_apply(s, pos, m, now, off).0 =~= ack_text(off));
        assert(off + (s.len() - pos) - encode_frame(e[e.len() - 1]).len() == off);
    } else {
        assert forall|t: int| 0 <= t < tail.len() implies s[end1 + t] == tail[t] by {
            assert(enc[f.len() + t] == (f + tail)[f.len() + t]);
            assert((f + tail)[f.len() + t] == tail[t]);
        }
        assert(s.subrange(end1, s.len() as int) =~= tail);
        let c = spec_dispatch(e[i]);
        let m2 = spec_store_after(c, m, now);
        let off2 = crate::numbers::sat_add(off as int, end1 - pos) as u64;
        assert(off2 == off + f.len());
        lemma_offset_at(s, end1, e, i + 1, m2, now, off2);
        assert(spec_apply(s, pos, m, now, off) == spec_apply(s, end1, m2, now, off2));
        assert(off2 + (s.len() - end1) == off + (s.len() - pos));
    }
}

/// Offset accounting: a follower that applies commands `C1..Cn` and then
/// `REPLCONF GETACK` replies with exactly one acknowledgement, whose
/// reported offset is the total encoded length of `C1..Cn` — the GETACK
/// frame's own bytes are not counted.
pub proof fn lemma_offset_accounting(
    fs: Seq<FrameModel>,
    g: FrameModel,
    m: crate::commands::StoreMap,
    now: u64,
)
    requires
        forall|j: int| 0 <= j < fs.len() ==> crate::datatypes::wf_frame(#[trigger] fs[j]),
        forall|j: int|
            0 <= j < fs.len() ==> {
                let c = spec_dispatch(#[trigger] fs[j]);
                &&& !(c is NotCmd)
                &&& !(c is Bad)
                &&& !spec_cmd_getack(c)
                &&& !(c is Wait)
                &&& !(c is Psync)
            },
        crate::datatypes::wf_frame(g),
        spec_cmd_getack(spec_dispatch(g)),
        crate::datatypes::encode_elems(fs.push(g), 0).len() <= u64::MAX,
    ensures
        ({
            let s = crate::datatypes::encode_elems(fs.push(g), 0);
            spec_apply(s, 0, m, now, 0).0 == ack_text(
                crate::datatypes::encode_elems(fs, 0).len() as u64,
            )
        }),
{
    let e = fs.push(g);
    let s = crate::datatypes::encode_elems(e, 0);
    assert(s.subrange(0, s.len() as int) =~= s);
    assert(e[e.len() - 1] == g);
    assert forall|j: int| 0 <= j < e.len() implies crate::datatypes::wf_frame(#[trigger] e[j]) by {
        if j < fs.len() {
            assert(e[j] == fs[j]);
        }
    }
    assert forall|j: int|
        0 <= j < e.len() - 1 implies {
            let c = spec_dispatch(#[trigger] e[j]);
            &&& !(c is NotCmd)
            &&& !(c is Bad)
            &&& !spec_cmd_getack(c)
            &&& !(c is Wait)
            &&& !(c is Psync)
        } by {
        assert(e[j] == fs[j]);
    }
    lemma_offset_at(s, 0, e, 0, m, now, 0);
    lemma_enc_elems_push_len(fs, g, 0);
}

/// Appending one frame to a run adds exactly that frame's encoding length.
proof fn lemma_enc_elems_push_len(fs: Seq<FrameModel>, g: FrameModel, i: int)
    requires
        0 <= i <= fs.len(),
    ensures
        crate::datatypes::encode_elems(fs.push(g), i).len() == crate::datatypes::encode_elems(
            fs,
            i,
        ).len() + encode_frame(g).len(),
    decreases fs.len() - i,
{
    let e = fs.push(g);
    if i == fs.len() {
        assert(crate::datatypes::encode_elems(e, i) == encode_frame(e[i])
            + crate::datatypes::encode_elems(e, i + 1));
        assert(e[i] == g);
    } else {
        assert(e[i] == fs[i]);
        lemma_enc_elems_push_len(fs, g, i + 1);
    }
}

// ---------------------------------------------------------------------------
// Handshake messages and acknowledgement frames.
// ---------------------------------------------------------------------------
// "PSYNC"
pub open spec fn t_psync_word() -> Seq<u8> {
    seq![80u8, 83u8, 89u8, 78u8, 67u8]
}

// "listening-port"
pub open spec fn t_listening_port() -> Seq<u8> {
    seq![108u8, 105u8, 115u8, 116u8, 101u8, 110u8, 105u8, 110u8, 103u8, 45u8, 112u8, 111u8,
        114u8, 116u8]
}

// "capa"
pub open spec fn t_capa() -> Seq<u8> {
    seq![99u8, 97u8, 112u8, 97u8]
}

// "psync2"
pub open spec fn t_psync2() -> Seq<u8> {
    seq![112u8, 115u8, 121u8, 110u8, 99u8, 50u8]
}

/// Builds one command frame out of bulk-string parts.
fn command_frame(parts: Vec<Vec<u8>>) -> (r: Vec<u8>)
    ensures
        r@ == encode_frame(
            FrameModel::Arr(crate::commands::bulk_models(parts.deep_view())),
        ),
{
    let ghost pv = parts@;
    let ghost goal = parts.deep_view();
    let arr = crate::datatypes::Array::from_strs(parts);
    let r = arr.to_bytes();
    proof {
        crate::datatypes::lemma_models_of(arr.values@);
        assert forall|i: int| 0 <= i < goal.len() implies models_of(arr.values@)[i]
            == FrameModel::Bulk(goal[i]) by {
            assert(models_of(arr.values@)[i] == arr.values@[i].model());
            assert(goal[i] == pv[i].deep_view());
            assert(pv[i].deep_view() =~= pv[i]@);
        }
        assert(models_of(arr.values@) =~= crate::commands::bulk_models(goal));
    }
    r
}

/// The first handshake message: `PING`.
pub fn ping_message() -> (r: Vec<u8>)
    ensures
        r@ == encode_frame(
            FrameModel::Arr(seq![FrameModel::Bulk(crate::commands::t_ping())]),
        ),
{
    let mut parts: Vec<Vec<u8>> = Vec::new();
    parts.push(crate::commands::x_t_ping());
    let ghost pv = parts@;
    let ghost goal = parts.deep_view();
    let r = command_frame(parts);
    proof {
        assert(goal[0] == pv[0].deep_view());
        assert(pv[0].deep_view() =~= pv[0]@);
        assert(crate::commands::bulk_models(goal) =~= seq![
            FrameModel::Bulk(crate::commands::t_ping()),
        ]);
    }
    r
}

/// The second handshake message: `REPLCONF listening-port <port>`.
pub fn replconf_listening_port_message(port: u16) -> (r: Vec<u8>)
    ensures
        r@ == encode_frame(
            FrameModel::Arr(
                seq![
                    FrameModel::Bulk(t_replconf()),
                    FrameModel::Bulk(t_listening_port()),
                    FrameModel::Bulk(dec_digits(port as nat)),
                ],
            ),
        ),
{
    let mut parts: Vec<Vec<u8>> = Vec::new();
    parts.push(x_t_replconf());
    let lp = vec![
        108u8,
        105u8,
        115u8,
        116u8,
        101u8,
        110u8,
        105u8,
        110u8,
        103u8,
        45u8,
        112u8,
        111u8,
        114u8,
        116u8,
    ];
    proof {
        assert(lp@ =~= t_listening_port());
    }
    parts.push(lp);
    parts.push(crate::numbers::format_u64(port as u64));
    let ghost pv = parts@;
    let ghost goal = parts.deep_view();
    let r = command_frame(parts);
    proof {
        assert forall|i: int| 0 <= i < 3 implies goal[i] == (#[trigger] pv[i])@ by {
            assert(goal[i] == pv[i].deep_view());
            assert(pv[i].deep_view() =~= pv[i]@);
        }
        assert(crate::commands::bulk_models(goal) =~= seq![
            FrameModel::Bulk(t_replconf()),
            FrameModel::Bulk(t_listening_port()),
            FrameModel::Bulk(dec_digits(port as nat)),
        ]);
    }
    r
}

/// The third handshake message: `REPLCONF capa psync2`.
pub fn replconf_capa_message() -> (r: Vec<u8>)
    ensures
        r@ == encode_frame(
            FrameModel::Arr(
                seq![
                    FrameModel::Bulk(t_replconf()),
                    FrameModel::Bulk(t_capa()),
                    FrameModel::Bulk(t_psync2()),
                ],
            ),
        ),
{
    let mut parts: Vec<Vec<u8>> = Vec::new();
    parts.push(x_t_replconf());
    let capa = vec![99u8, 97u8, 112u8, 97u8];
    let psync2 = vec![112u8, 115u8, 121u8, 110u8, 99u8, 50u8];
    proof {
        assert(capa@ =~= t_capa());
        assert(psync2@ =~= t_psync2());
    }
    parts.push(capa);
    parts.push(psync2);
    let ghost pv = parts@;
    let ghost goal = parts.deep_view();
    let r = command_frame(parts);
    proof {
        assert forall|i: int| 0 <= i < 3 implies goal[i] == (#[trigger] pv[i])@ by {
            assert(goal[i] == pv[i].deep_view());
            assert(pv[i].deep_view() =~= pv[i]@);
        }
        assert(crate::commands::bulk_models(goal) =~= seq![
            FrameModel::Bulk(t_replconf()),
            FrameModel::Bulk(t_capa()),
            FrameModel::Bulk(t_psync2()),
        ]);
    }
    r
}

/// The fourth handshake message: `PSYNC ? -1`.
pub fn psync_message() -> (r: Vec<u8>)
    ensures
        r@ == encode_frame(
            FrameModel::Arr(
                seq![
                    FrameModel::Bulk(t_psync_word()),
                    FrameModel::Bulk(seq![63u8]),
                    FrameModel::Bulk(seq![45u8, 49u8]),
                ],
            ),
        ),
{
    let mut parts: Vec<Vec<u8>> = Vec::new();
    let word = vec![80u8, 83u8, 89u8, 78u8, 67u8];
    let question = vec![63u8];
    let minus_one = vec![45u8, 49u8];
    proof {
        assert(word@ =~= t_psync_word());
        assert(question@ =~= seq![63u8]);
        assert(minus_one@ =~= seq![45u8, 49u8]);
    }
    parts.push(word);
    parts.push(question);
    parts.push(minus_one);
    let ghost pv = parts@;
    let ghost goal = parts.deep_view();
    let r = command_frame(parts);
    proof {
        assert forall|i: int| 0 <= i < 3 implies goal[i] == (#[trigger] pv[i])@ by {
            assert(goal[i] == pv[i].deep_view());
            assert(pv[i].deep_view() =~= pv[i]@);
        }
        assert(crate::commands::bulk_models(goal) =~= seq![
            FrameModel::Bulk(t_psync_word()),
            FrameModel::Bulk(seq![63u8]),
            FrameModel::Bulk(seq![45u8, 49u8]),
        ]);
    }
    r
}

/// The offset carried by a `REPLCONF ACK <n>` frame, if this is one.
pub open spec fn spec_ack_offset(m: FrameModel) -> Option<int> {
    if !(m is Arr) {
        None
    } else {
        let e = m->Arr_0;
        if e.len() != 3 {
            None
        } else if !(e[0] is Bulk && e[1] is Bulk && e[2] is Bulk) {
            None
        } else if crate::commands::upper(e[0]->Bulk_0) != t_replconf() || crate::commands::upper(
            e[1]->Bulk_0,
        ) != t_ack() {
            None
        } else {
            match length_of_line(e[2]->Bulk_0) {
                Some(v) => if v <= u64::MAX {
                    Some(v)
                } else {
                    None
                },
                None => None,
            }
        }
    }
}

/// Reads the acknowledged offset out of a `REPLCONF ACK <n>` frame.
pub fn ack_offset_of(frame: &RespValue) -> (r: Option<u64>)
    ensures
        match r {
            Some(v) => spec_ack_offset(frame.model()) == Some(v as int),
            None => spec_ack_offset(frame.model()) is None,
        },
{
    let elts = match frame {
        RespValue::Arr(e) => e,
        _ => {
            return None;
        },
    };
    let ghost e = models_of(elts@);
    proof {
        crate::datatypes::lemma_models_of(elts@);
        assert(frame.model() == FrameModel::Arr(e));
    }
    if elts.len() != 3 {
        return None;
    }
    proof {
        assert(e[0] == elts@[0].model());
        assert(e[1] == elts@[1].model());
        assert(e[2] == elts@[2].model());
    }
    let first = match &elts[0] {
        RespValue::Bulk(p) => p,
        _ => {
            return None;
        },
    };
    let second = match &elts[1] {
        RespValue::Bulk(p) => p,
        _ => {
            return None;
        },
    };
    let third = match &elts[2] {
        RespValue::Bulk(p) => p,
        _ => {
            return None;
        },
    };
    let up_first = crate::commands::upper_bytes(first.as_slice());
    let up_second = crate::commands::upper_bytes(second.as_slice());
    let replconf = x_t_replconf();
    let ack = x_t_ack();
    if !crate::store::bytes_eq(up_first.as_slice(), replconf.as_slice()) {
        return None;
    }
    if !crate::store::bytes_eq(up_second.as_slice(), ack.as_slice()) {
        return None;
    }
    proof {
        assert(third@.subrange(0, third@.len() as int) =~= third@);
    }
    crate::numbers::parse_length(third.as_slice(), 0, third.len(), u64::MAX)
}

} // verus!
