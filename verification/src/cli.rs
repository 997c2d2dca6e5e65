//! Startup arguments as plain values, and the checks on them. Reading the
//! actual command line stays outside this crate; it hands the values in.
use crate::numbers::length_of_line;
use vstd::prelude::*;

verus! {

/// The startup arguments, as plain values.
pub struct Args {
    pub dir: Vec<u8>,
    pub dbfilename: Vec<u8>,
    pub port: u16,
    pub replicaof: Option<Vec<u8>>,
}

// "~/.redis-rust"
pub open spec fn default_dir_bytes() -> Seq<u8> {
    seq![126u8, 47u8, 46u8, 114u8, 101u8, 100u8, 105u8, 115u8, 45u8, 114u8, 117u8, 115u8, 116u8]
}

// "dump.rdb"
pub open spec fn default_dbfilename_bytes() -> Seq<u8> {
    seq![100u8, 117u8, 109u8, 112u8, 46u8, 114u8, 100u8, 98u8]
}

impl Default for Args {
    fn default() -> (r: Args)
        ensures
            r.dir@ == default_dir_bytes(),
            r.dbfilename@ == default_dbfilename_bytes(),
            r.port == 6379,
            r.replicaof is None,
    {
        let dir = vec![
            126u8,
            47u8,
            46u8,
            114u8,
            101u8,
            100u8,
            105u8,
            115u8,
            45u8,
            114u8,
            117u8,
            115u8,
            116u8,
        ];
        let dbfilename = vec![100u8, 117u8, 109u8, 112u8, 46u8, 114u8, 100u8, 98u8];
        proof {
            assert(dir@ =~= default_dir_bytes());
            assert(dbfilename@ =~= default_dbfilename_bytes());
        }
        Args { dir, dbfilename, port: 6379, replicaof: None }
    }
}

/// Why a `--replicaof` value was rejected.
#[derive(Debug, PartialEq, Eq, Structural, Clone, Copy)]
pub enum CliError {
    ReplicaOfShape,
    ReplicaOfPort,
    ReplicaOfEmpty,
}

pub open spec fn is_space(b: u8) -> bool {
    b == 32 || b == 9 || b == 10 || b == 13 || b == 11 || b == 12
}

/// Position just past the token starting at `i`.
pub open spec fn token_end(s: Seq<u8>, i: int) -> int
    decreases s.len() - i,
{
    if i < 0 || i >= s.len() || is_space(s[i]) {
        i
    } else {
        token_end(s, i + 1)
    }
}

/// The whitespace-separated tokens of `s` from position `i` on.
pub open spec fn ws_tokens_from(s: Seq<u8>, i: int) -> Seq<Seq<u8>>
    decreases s.len() - i,
{
    if i < 0 || i >= s.len() {
        Seq::empty()
    } else if is_space(s[i]) {
        ws_tokens_from(s, i + 1)
    } else {
        let e = token_end(s, i);
        if e <= i || e > s.len() {
            Seq::empty()
        } else {
            seq![s.subrange(i, e)] + ws_tokens_from(s, e)
        }
    }
}

pub open spec fn ws_tokens(s: Seq<u8>) -> Seq<Seq<u8>> {
    ws_tokens_from(s, 0)
}

fn is_space_byte(b: u8) -> (r: bool)
    ensures
        r == is_space(b),
{
    b == 32 || b == 9 || b == 10 || b == 13 || b == 11 || b == 12
}

fn token_end_at(s: &[u8], i: usize) -> (r: usize)
    requires
        i <= s@.len(),
    ensures
        r as int == token_end(s@, i as int),
        i <= r <= s@.len(),
    decreases s@.len() - i,
{
    if i >= s.len() || is_space_byte(s[i]) {
        i
    } else {
        token_end_at(s, i + 1)
    }
}

/// Splits `s` into its whitespace-separated tokens.
pub fn ws_split(s: &[u8]) -> (r: Vec<Vec<u8>>)
    ensures
        r.deep_view() == ws_tokens(s@),
{
    let r = ws_split_from(s, 0);
    r
}

proof fn lemma_token_end(s: Seq<u8>, i: int)
    requires
        0 <= i <= s.len(),
    ensures
        i <= token_end(s, i) <= s.len(),
        i < s.len() && !is_space(s[i]) ==> token_end(s, i) > i,
    decreases s.len() - i,
{
    if i < s.len() && !is_space(s[i]) {
        lemma_token_end(s, i + 1);
    }
}

fn ws_split_from(s: &[u8], i: usize) -> (r: Vec<Vec<u8>>)
    requires
        i <= s@.len(),
    ensures
        r.deep_view() == ws_tokens_from(s@, i as int),
    decreases s@.len() - i,
{
    if i >= s.len() {
        let r: Vec<Vec<u8>> = Vec::new();
        proof {
            assert(r.deep_view() =~= ws_tokens_from(s@, i as int));
        }
        r
    } else if is_space_byte(s[i]) {
        ws_split_from(s, i + 1)
    } else {
        let e = token_end_at(s, i);
        proof {
            lemma_token_end(s@, i as int);
        }
        let tok = crate::resp::copy_range(s, i, e);
        let rest = ws_split_from(s, e);
        let ghost rest_dv = rest.deep_view();
        let mut combined = rest;
        combined.insert(0, tok);
        proof {
            assert forall|j: int|
                0 <= j < combined.deep_view().len() implies combined.deep_view()[j]
                == ws_tokens_from(s@, i as int)[j] by {
                assert(combined.deep_view()[j] == combined@[j].deep_view());
                if j == 0 {
                    assert(combined@[0] == tok);
                } else {
                    assert(combined@[j] == rest@[j - 1]);
                    assert(rest_dv[j - 1] == rest@[j - 1].deep_view());
                }
            }
            assert(combined.deep_view() =~= ws_tokens_from(s@, i as int));
        }
        combined
    }
}

impl Args {
    /// The host and port named by `--replicaof`, when it is present and has
    /// the shape `<host> <port>` with a port that fits sixteen bits.
    pub fn replicaof_host_port(&self) -> (r: Result<Option<(Vec<u8>, u16)>, CliError>)
        ensures
            self.replicaof is None ==> r matches Ok(None),
            self.replicaof matches Some(ro) ==> {
                let ts = ws_tokens(ro@);
                &&& (r matches Ok(Some((h, p))) ==> ts.len() == 2 && h@ == ts[0] && length_of_line(
                    ts[1],
                ) == Some(p as int))
                &&& (r matches Ok(None) ==> false)
                &&& (r is Err <==> !(ts.len() == 2 && (length_of_line(ts[1]) matches Some(v) && 0
                    <= v <= 65535)))
            },
    {
        match &self.replicaof {
            None => Ok(None),
            Some(ro) => {
                let parts = ws_split(ro.as_slice());
                proof {
                    assert(ws_tokens(ro@).len() == parts@.len());
                }
                if parts.len() != 2 {
                    return Err(CliError::ReplicaOfShape);
                }
                let host = &parts[0];
                let port_text = &parts[1];
                proof {
                    assert(parts@[0].deep_view() == ws_tokens(ro@)[0]);
                    assert(parts@[1].deep_view() == ws_tokens(ro@)[1]);
                    assert(parts@[0].deep_view() =~= parts@[0]@);
                    assert(parts@[1].deep_view() =~= parts@[1]@);
                    assert(port_text@.subrange(0, port_text@.len() as int) =~= port_text@);
                }
                match crate::numbers::parse_length(port_text.as_slice(), 0, port_text.len(), 65535)
                {
                    None => Err(CliError::ReplicaOfPort),
                    Some(p) => {
                        let host_copy = crate::resp::copy_range(host.as_slice(), 0, host.len());
                        proof {
                            assert(host_copy@ =~= host@);
                        }
                        Ok(Some((host_copy, p as u16)))
                    },
                }
            },
        }
    }
}

/// A `--replicaof` value must not be empty.
pub fn validate_replicaof(replicaof: &[u8]) -> (r: Result<Vec<u8>, CliError>)
    ensures
        replicaof@.len() > 0 ==> (r matches Ok(v) && v@ == replicaof@),
        replicaof@.len() == 0 ==> (r matches Err(e) && e is ReplicaOfEmpty),
{
    if replicaof.len() > 0 {
        let copy = crate::resp::copy_range(replicaof, 0, replicaof.len());
        proof {
            assert(copy@ =~= replicaof@);
        }
        Ok(copy)
    } else {
        Err(CliError::ReplicaOfEmpty)
    }
}

} // verus!
