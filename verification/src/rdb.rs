//! The snapshot file format. The built-in empty snapshot is stored in
//! base64 and decoded through the base64 crate when a follower first
//! synchronizes.
use vstd::prelude::*;

verus! {

/// The base64 text of a minimal valid snapshot: an empty dataset with only
/// the version header, metadata and checksum.
pub fn empty_rdb_base64() -> (r: &'static str)
    ensures
        r@ == spec_empty_rdb_base64(),
{
    "UkVESVMwMDEx+glyZWRpcy12ZXIFNy4yLjD6CnJlZGlzLWJpdHPAQPoFY3RpbWXCbQi8ZfoIdXNlZC1tZW3CsMQQAPoIYW9mLWJhc2XAAP/wbjv+wP9aog=="
}

pub open spec fn spec_empty_rdb_base64() -> Seq<char> {
    "UkVESVMwMDEx+glyZWRpcy12ZXIFNy4yLjD6CnJlZGlzLWJpdHPAQPoFY3RpbWXCbQi8ZfoIdXNlZC1tZW3CsMQQAPoIYW9mLWJhc2XAAP/wbjv+wP9aog=="@
}

/// What the base64 crate's standard-alphabet decoder yields on `s`: the
/// decoded bytes, or nothing when `s` is not valid base64. The result
/// depends on the text alone.
pub uninterp spec fn base64_decode_of(s: Seq<char>) -> Option<Seq<u8>>;

/// Relies on base64's `Engine::decode` with the standard alphabet: a pure
/// decoder whose outcome is a function of the input text.
#[verifier::external_body]
pub fn decode_base64(s: &str) -> (r: Option<Vec<u8>>)
    ensures
        r matches Some(v) ==> base64_decode_of(s@) == Some(v@),
        r is None ==> base64_decode_of(s@) is None,
{
    match base64::Engine::decode(&base64::engine::general_purpose::STANDARD, s) {
        Ok(v) => Some(v),
        Err(_) => None,
    }
}

} // verus!

verus! {

/// Why a snapshot file was rejected.
#[derive(Debug, PartialEq, Eq, Structural, Clone, Copy)]
pub enum RdbError {
    Truncated,
    BadEncoding,
}

/// Little-endian 32-bit value at `i`.
pub open spec fn le32(s: Seq<u8>, i: int) -> u32 {
    (s[i] as u32) | ((s[i + 1] as u32) << 8) | ((s[i + 2] as u32) << 16) | ((s[i + 3] as u32)
        << 24)
}

/// Little-endian 64-bit value at `i`.
pub open spec fn le64(s: Seq<u8>, i: int) -> u64 {
    (s[i] as u64) | ((s[i + 1] as u64) << 8) | ((s[i + 2] as u64) << 16) | ((s[i + 3] as u64)
        << 24) | ((s[i + 4] as u64) << 32) | ((s[i + 5] as u64) << 40) | ((s[i + 6] as u64) << 48)
        | ((s[i + 7] as u64) << 56)
}

/// Big-endian 32-bit value at `i`.
pub open spec fn be32(s: Seq<u8>, i: int) -> u32 {
    ((s[i] as u32) << 24) | ((s[i + 1] as u32) << 16) | ((s[i + 2] as u32) << 8) | (s[i + 3]
        as u32)
}

/// The length encoding: the top two bits of the first byte say whether the
/// length is the low six bits, those six bits with one more byte, or the
/// next four bytes big-endian; the fourth form is not supported.
pub open spec fn spec_length_encoded_int(s: Seq<u8>, i: int) -> Option<(int, int)> {
    if !(0 <= i < s.len()) {
        None
    } else {
        let b = s[i];
        if b >> 6 == 0 {
            Some(((b & 0x3f) as int, i + 1))
        } else if b >> 6 == 1 {
            if i + 2 <= s.len() {
                Some((((b & 0x3f) as int) * 256 + s[i + 1], i + 2))
            } else {
                None
            }
        } else if b >> 6 == 2 {
            if i + 5 <= s.len() {
                Some((be32(s, i + 1) as int, i + 5))
            } else {
                None
            }
        } else {
            None
        }
    }
}

/// Reads a length-encoded integer; yields the value and the position after
/// its bytes.
pub fn length_encoded_int(buf: &[u8], i: usize) -> (r: Result<(usize, usize), RdbError>)
    ensures
        (r matches Ok((v, next)) ==> spec_length_encoded_int(buf@, i as int) == Some(
            (v as int, next as int),
        ) && i < next <= buf@.len()),
        (r is Err <==> spec_length_encoded_int(buf@, i as int) is None),
        (r matches Err(e) ==> (e is BadEncoding <==> (i < buf@.len() && buf@[i as int] >> 6
            == 3))),
{
    if i >= buf.len() {
        return Err(RdbError::Truncated);
    }
    let b = buf[i];
    let tag = b >> 6;
    if tag == 0 {
        Ok((((b & 0x3f) as usize), i + 1))
    } else if tag == 1 {
        if buf.len() - i >= 2 {
            let v = ((b & 0x3f) as usize) * 256 + (buf[i + 1] as usize);
            Ok((v, i + 2))
        } else {
            Err(RdbError::Truncated)
        }
    } else if tag == 2 {
        if buf.len() - i >= 5 {
            let v = ((buf[i + 1] as u32) << 24) | ((buf[i + 2] as u32) << 16) | ((buf[i + 3]
                as u32) << 8) | (buf[i + 4] as u32);
            proof {
                assert(v == be32(buf@, i as int + 1));
            }
            Ok((v as usize, i + 5))
        } else {
            Err(RdbError::Truncated)
        }
    } else {
        proof {
            assert(b >> 6 == 3) by (bit_vector)
                requires
                    !(b >> 6 == 0) && !(b >> 6 == 1) && !(b >> 6 == 2),
            ;
        }
        Err(RdbError::BadEncoding)
    }
}

/// Position of the first place `p` occurs in `s` at or after `i`.
pub open spec fn first_match(s: Seq<u8>, p: Seq<u8>, i: int) -> Option<int>
    decreases s.len() - i,
{
    if i < 0 || p.len() <= 0 || i + p.len() > s.len() {
        None
    } else if s.subrange(i, i + p.len() as int) == p {
        Some(i)
    } else {
        first_match(s, p, i + 1)
    }
}

/// First position where `pattern` occurs in `buf`.
pub fn index_of(buf: &[u8], pattern: &[u8]) -> (r: Option<usize>)
    requires
        pattern@.len() >= 1,
    ensures
        match r {
            Some(j) => first_match(buf@, pattern@, 0) == Some(j as int) && j + pattern@.len()
                <= buf@.len(),
            None => first_match(buf@, pattern@, 0) is None,
        },
{
    let mut i: usize = 0;
    loop
        invariant
            pattern@.len() >= 1,
            first_match(buf@, pattern@, 0) == first_match(buf@, pattern@, i as int),
            i <= buf@.len(),
        decreases buf@.len() - i,
    {
        if i >= buf.len() || pattern.len() > buf.len() - i {
            return None;
        }
        let window = &buf[i..i + pattern.len()];
        if crate::store::bytes_eq(window, pattern) {
            return Some(i);
        }
        i += 1;
    }
}

/// Where the key/value records begin: just past the `FE 00 FB` marker and
/// the two hash-table size integers that follow it.
pub open spec fn spec_data_begin(s: Seq<u8>) -> Option<int> {
    match first_match(s, seq![254u8, 0u8, 251u8], 0) {
        None => None,
        Some(fe) => match spec_length_encoded_int(s, fe + 3) {
            None => None,
            Some((_, p1)) => match spec_length_encoded_int(s, p1) {
                None => None,
                Some((_, p2)) => Some(p2),
            },
        },
    }
}

/// Finds where the key/value records begin.
pub fn find_data_begin_index(buf: &[u8]) -> (r: Result<usize, RdbError>)
    ensures
        (r matches Ok(p) ==> spec_data_begin(buf@) == Some(p as int) && p <= buf@.len()),
        (r is Err <==> spec_data_begin(buf@) is None),
{
    let marker = vec![254u8, 0u8, 251u8];
    proof {
        assert(marker@ =~= seq![254u8, 0u8, 251u8]);
    }
    let fe = match index_of(buf, marker.as_slice()) {
        Some(j) => j,
        None => {
            return Err(RdbError::Truncated);
        },
    };
    let blen = buf.len();
    proof {
        assert(fe + marker@.len() <= buf@.len());
        assert(marker@.len() == 3);
        assert(fe + 3 <= blen);
    }
    let (_, p1) = match length_encoded_int(buf, fe + 3) {
        Ok(v) => v,
        Err(e) => {
            return Err(e);
        },
    };
    let (_, p2) = match length_encoded_int(buf, p1) {
        Ok(v) => v,
        Err(e) => {
            return Err(e);
        },
    };
    Ok(p2)
}

/// One key/value record, at the specification level.
pub enum SpecKv {
    /// The end marker, or a record of a kind the reader does not follow.
    Done,
    /// Key bytes, value bytes, deadline in epoch milliseconds, next position.
    Pair(Seq<u8>, Seq<u8>, Option<u64>, int),
    /// The record is malformed or cut off.
    Bad,
}

/// Reads one record: `FF` ends the data; `FC`/`FD` carry a deadline in
/// milliseconds or seconds followed by a type byte that must be zero; any
/// other first byte is itself taken as the type byte. Key and value are
/// length-prefixed strings.
pub open spec fn spec_kv(s: Seq<u8>, i: int) -> SpecKv {
    if !(0 <= i < s.len()) {
        SpecKv::Bad
    } else {
        let flag = s[i];
        if flag == 255 {
            SpecKv::Done
        } else if flag == 252 {
            if i + 9 >= s.len() {
                SpecKv::Bad
            } else if s[i + 9] != 0 {
                SpecKv::Done
            } else {
                spec_kv_strings(s, i + 10, Some(le64(s, i + 1)))
            }
        } else if flag == 253 {
            if i + 5 >= s.len() {
                SpecKv::Bad
            } else if s[i + 5] != 0 {
                SpecKv::Done
            } else {
                spec_kv_strings(s, i + 6, Some((le32(s, i + 1) as u64 * 1000) as u64))
            }
        } else {
            spec_kv_strings(s, i + 1, None)
        }
    }
}

/// The key and value strings of a record, from position `i`.
pub open spec fn spec_kv_strings(s: Seq<u8>, i: int, deadline: Option<u64>) -> SpecKv {
    match spec_length_encoded_int(s, i) {
        None => SpecKv::Bad,
        Some((klen, p)) => if p + klen > s.len() {
            SpecKv::Bad
        } else {
            match spec_length_encoded_int(s, p + klen) {
                None => SpecKv::Bad,
                Some((vlen, q)) => if q + vlen > s.len() {
                    SpecKv::Bad
                } else {
                    SpecKv::Pair(
                        s.subrange(p, p + klen),
                        s.subrange(q, q + vlen),
                        deadline,
                        q + vlen,
                    )
                },
            }
        },
    }
}

/// Reads one key/value record, as `spec_kv` describes.
pub fn parse_key_value(buf: &[u8], start: usize) -> (r: Result<
    Option<(Vec<u8>, crate::store::StoreValue, usize)>,
    RdbError,
>)
    ensures
        (r matches Ok(Some((k, sv, next))) ==> ({
            &&& spec_kv(buf@, start as int) matches SpecKv::Pair(ks, vs, dl, n)
            &&& k@ == ks
            &&& (sv.data matches crate::store::DataType::String(v) && v@ == vs)
            &&& sv.expires_at == dl
            &&& next == n
            &&& start < next <= buf@.len()
        })),
        (r matches Ok(None) ==> spec_kv(buf@, start as int) is Done),
        (r is Err <==> spec_kv(buf@, start as int) is Bad),
{
    if start >= buf.len() {
        return Err(RdbError::Truncated);
    }
    let flag = buf[start];
    let (strings_at, deadline): (usize, Option<u64>) = if flag == 255 {
        return Ok(None);
    } else if flag == 252 {
        if buf.len() - start <= 9 {
            return Err(RdbError::Truncated);
        }
        if buf[start + 9] != 0 {
            return Ok(None);
        }
        let ms = (buf[start + 1] as u64) | ((buf[start + 2] as u64) << 8) | ((buf[start + 3]
            as u64) << 16) | ((buf[start + 4] as u64) << 24) | ((buf[start + 5] as u64) << 32) | ((
        buf[start + 6] as u64) << 40) | ((buf[start + 7] as u64) << 48) | ((buf[start + 8] as u64)
            << 56);
        proof {
            assert(ms == le64(buf@, start as int + 1));
        }
        (start + 10, Some(ms))
    } else if flag == 253 {
        if buf.len() - start <= 5 {
            return Err(RdbError::Truncated);
        }
        if buf[start + 5] != 0 {
            return Ok(None);
        }
        let secs = (buf[start + 1] as u32) | ((buf[start + 2] as u32) << 8) | ((buf[start + 3]
            as u32) << 16) | ((buf[start + 4] as u32) << 24);
        proof {
            assert(secs == le32(buf@, start as int + 1));
        }
        (start + 6, Some((secs as u64) * 1000))
    } else {
        (start + 1, None)
    };
    let (klen, p) = match length_encoded_int(buf, strings_at) {
        Ok(v) => v,
        Err(e) => {
            return Err(e);
        },
    };
    if klen > buf.len() - p {
        return Err(RdbError::Truncated);
    }
    let key = crate::resp::copy_range(buf, p, p + klen);
    let (vlen, q) = match length_encoded_int(buf, p + klen) {
        Ok(v) => v,
        Err(e) => {
            return Err(e);
        },
    };
    if vlen > buf.len() - q {
        return Err(RdbError::Truncated);
    }
    let value = crate::resp::copy_range(buf, q, q + vlen);
    Ok(
        Some(
            (
                key,
                crate::store::StoreValue {
                    data: crate::store::DataType::String(value),
                    expires_at: deadline,
                },
                q + vlen,
            ),
        ),
    )
}

/// Loading records from `i` on into the keyspace map; `None` when a record
/// is malformed.
pub open spec fn spec_rdb_load(
    s: Seq<u8>,
    i: int,
    m: crate::commands::StoreMap,
) -> Option<crate::commands::StoreMap>
    decreases s.len() - i,
{
    if i < 0 || i > s.len() {
        None
    } else {
        match spec_kv(s, i) {
            SpecKv::Bad => None,
            SpecKv::Done => Some(m),
            SpecKv::Pair(k, v, dl, next) => if i < next <= s.len() {
                spec_rdb_load(s, next, m.insert(k, (crate::store::DataModel::Str(v), dl)))
            } else {
                None
            },
        }
    }
}

/// A parsed snapshot: the four version bytes of the header and the records
/// as a keyspace.
pub struct Rdb {
    pub version: Vec<u8>,
    pub data: crate::store::Store,
}

impl Rdb {
    /// Hands the records over as a keyspace.
    pub fn to_store_values(self) -> (r: crate::store::Store)
        ensures
            r == self.data,
    {
        self.data
    }
}

/// Reads a whole snapshot: the version bytes from the header, then every
/// key/value record into a keyspace, with later records winning a repeated
/// key.
pub fn parse_rdb_file(buf: &[u8]) -> (r: Result<Rdb, RdbError>)
    ensures
        (r matches Ok(rdb) ==> buf@.len() >= 9 && rdb.version@ == buf@.subrange(5, 9)
            && rdb.data.wf() && (spec_data_begin(buf@) matches Some(d) && spec_rdb_load(
            buf@,
            d,
            Map::empty(),
        ) == Some(rdb.data.map_view()))),
        (r is Err <==> buf@.len() < 9 || spec_data_begin(buf@) is None || (spec_data_begin(buf@)
            matches Some(d) && spec_rdb_load(buf@, d, Map::empty()) is None)),
{
    if buf.len() < 9 {
        return Err(RdbError::Truncated);
    }
    let version = crate::resp::copy_range(buf, 5, 9);
    let begin = match find_data_begin_index(buf) {
        Ok(p) => p,
        Err(e) => {
            return Err(e);
        },
    };
    let mut store = crate::store::Store::new();
    let mut i = begin;
    loop
        invariant
            store.wf(),
            i <= buf@.len(),
            spec_data_begin(buf@) == Some(begin as int),
            buf@.len() >= 9,
            version@ == buf@.subrange(5, 9),
            spec_rdb_load(buf@, begin as int, Map::empty()) == spec_rdb_load(
                buf@,
                i as int,
                store.map_view(),
            ),
        decreases buf@.len() - i,
    {
        match parse_key_value(buf, i) {
            Err(e) => {
                return Err(e);
            },
            Ok(None) => {
                return Ok(Rdb { version, data: store });
            },
            Ok(Some((key, sv, next))) => {
                let deadline = sv.expires_at;
                store.put(key, sv.data, deadline);
                i = next;
            },
        }
    }
}

} // verus!
