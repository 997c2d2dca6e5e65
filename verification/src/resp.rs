//! Reading frames back off the wire. The grammar is given once as a
//! specification-level parser; the executable parser is proved to agree with
//! it outcome for outcome, and the codec laws at the bottom tie the parser to
//! the encoder.
use crate::datatypes::{
    encode_elems, encode_frame, wf_frame, FrameModel, RespValue, LEN_MAX, models_of,
};
use crate::numbers::{dec_digits, dec_int, int_of_line, length_of_line, parse_i32, parse_length};
use vstd::prelude::*;

verus! {

/// Outcome of reading one frame, at the specification level: the parsed
/// frame and the position just past it, or the reason there is none.
pub enum SpecParse {
    Frame(FrameModel, int),
    Incomplete,
    Invalid,
}

/// Outcome of reading a counted run of frames, at the specification level.
pub enum SpecElems {
    Elems(Seq<FrameModel>, int),
    Incomplete,
    Invalid,
}

/// Position of the first CRLF pair at or after `i`.
pub open spec fn find_crlf(s: Seq<u8>, i: int) -> Option<int>
    decreases s.len() - i,
{
    if i < 0 || i + 1 >= s.len() {
        None
    } else if s[i] == 13 && s[i + 1] == 10 {
        Some(i)
    } else {
        find_crlf(s, i + 1)
    }
}

/// The line bytes `-1`, which mark a null bulk string or null array.
pub open spec fn null_line() -> Seq<u8> {
    seq![45u8, 49u8]
}

/// Reads one frame starting at `pos`. A frame is consumed exactly; a buffer
/// that ends mid-frame is `Incomplete`; an unknown prefix byte, a malformed
/// or oversized length, or a malformed integer is `Invalid`.
pub open spec fn spec_parse(s: Seq<u8>, pos: int) -> SpecParse
    decreases s.len() - pos, 0int,
{
    if pos < 0 || pos >= s.len() {
        SpecParse::Incomplete
    } else if s[pos] == 43 || s[pos] == 45 {
        // simple string or simple error line
        match find_crlf(s, pos + 1) {
            None => SpecParse::Incomplete,
            Some(j) => {
                let payload = s.subrange(pos + 1, j);
                if s[pos] == 43 {
                    SpecParse::Frame(FrameModel::Simple(payload), j + 2)
                } else {
                    SpecParse::Frame(FrameModel::Error(payload), j + 2)
                }
            },
        }
    } else if s[pos] == 58 {
        // integer line
        match find_crlf(s, pos + 1) {
            None => SpecParse::Incomplete,
            Some(j) => match int_of_line(s.subrange(pos + 1, j)) {
                Some(v) => if -0x8000_0000 <= v <= 0x7fff_ffff {
                    SpecParse::Frame(FrameModel::Int(v), j + 2)
                } else {
                    SpecParse::Invalid
                },
                None => SpecParse::Invalid,
            },
        }
    } else if s[pos] == 36 {
        // bulk string: length line, then that many payload bytes, then two
        // bytes that are skipped without inspection
        match find_crlf(s, pos + 1) {
            None => SpecParse::Incomplete,
            Some(j) => {
                let line = s.subrange(pos + 1, j);
                if line == null_line() {
                    SpecParse::Frame(FrameModel::NullBulk, j + 2)
                } else {
                    match length_of_line(line) {
                        None => SpecParse::Invalid,
                        Some(n) => if n > LEN_MAX {
                            SpecParse::Invalid
                        } else if s.len() < j + 2 + n + 2 {
                            SpecParse::Incomplete
                        } else {
                            SpecParse::Frame(
                                FrameModel::Bulk(s.subrange(j + 2, j + 2 + n)),
                                j + 2 + n + 2,
                            )
                        },
                    }
                }
            },
        }
    } else if s[pos] == 42 {
        // array: count line, then that many frames
        match find_crlf(s, pos + 1) {
            None => SpecParse::Incomplete,
            Some(j) => {
                let line = s.subrange(pos + 1, j);
                if line == null_line() {
                    SpecParse::Frame(FrameModel::NullArr, j + 2)
                } else {
                    match length_of_line(line) {
                        None => SpecParse::Invalid,
                        Some(n) => if n > LEN_MAX {
                            SpecParse::Invalid
                        } else if j + 2 <= pos || j + 2 > s.len() {
                            SpecParse::Invalid
                        } else {
                            match spec_parse_elems(s, j + 2, n) {
                                SpecElems::Elems(vs, end) => SpecParse::Frame(
                                    FrameModel::Arr(vs),
                                    end,
                                ),
                                SpecElems::Incomplete => SpecParse::Incomplete,
                                SpecElems::Invalid => SpecParse::Invalid,
                            }
                        },
                    }
                }
            },
        }
    } else {
        SpecParse::Invalid
    }
}

/// Reads `count` frames one after another starting at `pos`.
pub open spec fn spec_parse_elems(s: Seq<u8>, pos: int, count: int) -> SpecElems
    decreases s.len() - pos, count + 1,
{
    if count <= 0 {
        SpecElems::Elems(Seq::empty(), pos)
    } else {
        match spec_parse(s, pos) {
            SpecParse::Incomplete => SpecElems::Incomplete,
            SpecParse::Invalid => SpecElems::Invalid,
            SpecParse::Frame(m, end) => if end <= pos || end > s.len() {
                SpecElems::Invalid
            } else {
                match spec_parse_elems(s, end, count - 1) {
                    SpecElems::Elems(rest, fin) => SpecElems::Elems(seq![m] + rest, fin),
                    SpecElems::Incomplete => SpecElems::Incomplete,
                    SpecElems::Invalid => SpecElems::Invalid,
                }
            },
        }
    }
}

/// Outcome of reading one frame at run time: the frame and the position just
/// past it, or the reason there is none.
pub enum FrameParse {
    Frame(RespValue, usize),
    Incomplete,
    Invalid,
}

pub enum ElemsParse {
    Elems(Vec<RespValue>, usize),
    Incomplete,
    Invalid,
}

/// The run-time outcome agrees with the specification-level outcome.
pub open spec fn frame_parse_matches(r: FrameParse, sp: SpecParse) -> bool {
    match r {
        FrameParse::Frame(v, end) => sp matches SpecParse::Frame(m, e) && v.model() == m && end
            == e,
        FrameParse::Incomplete => sp is Incomplete,
        FrameParse::Invalid => sp is Invalid,
    }
}

pub open spec fn elems_parse_matches(r: ElemsParse, sp: SpecElems) -> bool {
    match r {
        ElemsParse::Elems(vs, end) => sp matches SpecElems::Elems(ms, e) && models_of(vs@) == ms
            && end == e,
        ElemsParse::Incomplete => sp is Incomplete,
        ElemsParse::Invalid => sp is Invalid,
    }
}

/// Scans for the first CRLF pair at or after `start`.
pub fn find_crlf_at(buf: &[u8], start: usize) -> (r: Option<usize>)
    ensures
        match r {
            Some(j) => find_crlf(buf@, start as int) == Some(j as int) && start <= j && j + 1
                < buf@.len(),
            None => find_crlf(buf@, start as int) is None,
        },
{
    let mut i = start;
    loop
        invariant
            start <= i,
            find_crlf(buf@, start as int) == find_crlf(buf@, i as int),
        decreases buf@.len() - i,
    {
        if i >= buf.len() || i + 1 >= buf.len() {
            return None;
        }
        if buf[i] == 13 && buf[i + 1] == 10 {
            return Some(i);
        }
        i += 1;
    }
}

/// The ASCII character a byte stands for.
pub fn byte_to_ascii(byte: u8) -> (r: char)
    ensures
        r == byte as char,
{
    byte as char
}

/// Copies `buf[from..to]` into a fresh vector.
pub fn copy_range(buf: &[u8], from: usize, to: usize) -> (r: Vec<u8>)
    requires
        from <= to <= buf@.len(),
    ensures
        r@ == buf@.subrange(from as int, to as int),
{
    let mut out: Vec<u8> = Vec::new();
    let mut k = from;
    while k < to
        invariant
            from <= k <= to <= buf@.len(),
            out@ == buf@.subrange(from as int, k as int),
        decreases to - k,
    {
        out.push(buf[k]);
        k += 1;
        proof {
            assert(out@ =~= buf@.subrange(from as int, k as int));
        }
    }
    out
}

/// Reads one frame from `buf` starting at `pos`, as `spec_parse` describes.
pub fn parse_data_type(buf: &[u8], pos: usize) -> (r: FrameParse)
    requires
        pos <= buf@.len(),
    ensures
        frame_parse_matches(r, spec_parse(buf@, pos as int)),
    decreases buf@.len() - pos, 0int,
{
    if pos >= buf.len() {
        return FrameParse::Incomplete;
    }
    let prefix = buf[pos];
    if prefix == 43 || prefix == 45 {
        match find_crlf_at(buf, pos + 1) {
            None => FrameParse::Incomplete,
            Some(j) => {
                let payload = copy_range(buf, pos + 1, j);
                if prefix == 43 {
                    FrameParse::Frame(RespValue::Simple(payload), j + 2)
                } else {
                    FrameParse::Frame(RespValue::Error(payload), j + 2)
                }
            },
        }
    } else if prefix == 58 {
        match find_crlf_at(buf, pos + 1) {
            None => FrameParse::Incomplete,
            Some(j) => match parse_i32(buf, pos + 1, j) {
                Some(v) => FrameParse::Frame(RespValue::Int(v), j + 2),
                None => FrameParse::Invalid,
            },
        }
    } else if prefix == 36 {
        match find_crlf_at(buf, pos + 1) {
            None => FrameParse::Incomplete,
            Some(j) => {
                let ghost line = buf@.subrange(pos as int + 1, j as int);
                if j == pos + 3 && buf[pos + 1] == 45 && buf[pos + 2] == 49 {
                    proof {
                        assert(line =~= null_line());
                    }
                    FrameParse::Frame(RespValue::NullBulk, j + 2)
                } else {
                    proof {
                        if line == null_line() {
                            assert(line.len() == 2);
                            assert(buf@[pos as int + 1] == 45 && buf@[pos as int + 2] == 49);
                        }
                    }
                    match parse_length(buf, pos + 1, j, LEN_MAX) {
                        None => FrameParse::Invalid,
                        Some(n64) => {
                            let n = n64 as usize;
                            let start = j + 2;
                            let remaining = (buf.len() - start) as u64;
                            if remaining < n64 + 2 {
                                FrameParse::Incomplete
                            } else {
                                let payload = copy_range(buf, start, start + n);
                                FrameParse::Frame(RespValue::Bulk(payload), start + n + 2)
                            }
                        },
                    }
                }
            },
        }
    } else if prefix == 42 {
        match find_crlf_at(buf, pos + 1) {
            None => FrameParse::Incomplete,
            Some(j) => {
                let ghost line = buf@.subrange(pos as int + 1, j as int);
                if j == pos + 3 && buf[pos + 1] == 45 && buf[pos + 2] == 49 {
                    proof {
                        assert(line =~= null_line());
                    }
                    FrameParse::Frame(RespValue::NullArr, j + 2)
                } else {
                    proof {
                        if line == null_line() {
                            assert(line.len() == 2);
                            assert(buf@[pos as int + 1] == 45 && buf@[pos as int + 2] == 49);
                        }
                    }
                    match parse_length(buf, pos + 1, j, LEN_MAX) {
                        None => FrameParse::Invalid,
                        Some(n64) => {
                            let n = n64 as usize;
                            match parse_elems(buf, j + 2, n) {
                                ElemsParse::Elems(vs, end) => FrameParse::Frame(
                                    RespValue::Arr(vs),
                                    end,
                                ),
                                ElemsParse::Incomplete => FrameParse::Incomplete,
                                ElemsParse::Invalid => FrameParse::Invalid,
                            }
                        },
                    }
                }
            },
        }
    } else {
        FrameParse::Invalid
    }
}

/// Reads `count` frames one after another, as `spec_parse_elems` describes.
pub fn parse_elems(buf: &[u8], pos: usize, count: usize) -> (r: ElemsParse)
    requires
        pos <= buf@.len(),
    ensures
        elems_parse_matches(r, spec_parse_elems(buf@, pos as int, count as int)),
    decreases buf@.len() - pos, count + 1,
{
    if count == 0 {
        let vs: Vec<RespValue> = Vec::new();
        proof {
            assert(models_of(vs@) =~= Seq::<FrameModel>::empty());
        }
        ElemsParse::Elems(vs, pos)
    } else {
        match parse_data_type(buf, pos) {
            FrameParse::Incomplete => ElemsParse::Incomplete,
            FrameParse::Invalid => ElemsParse::Invalid,
            FrameParse::Frame(v, end) => {
                if end <= pos || end > buf.len() {
                    ElemsParse::Invalid
                } else {
                    match parse_elems(buf, end, count - 1) {
                        ElemsParse::Incomplete => ElemsParse::Incomplete,
                        ElemsParse::Invalid => ElemsParse::Invalid,
                        ElemsParse::Elems(rest, fin) => {
                            let ghost rest_view = rest@;
                            let mut combined = rest;
                            combined.insert(0, v);
                            proof {
                                assert(combined@ =~= seq![v] + rest_view);
                                lemma_models_cons(v, rest_view);
                            }
                            ElemsParse::Elems(combined, fin)
                        },
                    }
                }
            },
        }
    }
}

proof fn lemma_models_cons(v: RespValue, rest: Seq<RespValue>)
    ensures
        models_of(seq![v] + rest) == seq![v.model()] + models_of(rest),
{
    let s = seq![v] + rest;
    assert(s[0] == v);
    assert(s.drop_first() =~= rest);
    assert(models_of(s) == seq![v.model()] + models_of(rest));
}

// ---------------------------------------------------------------------------
// Codec laws: what the parser does on canonical encodings.
// ---------------------------------------------------------------------------
/// Every canonical encoding is at least three bytes long.
pub proof fn lemma_encode_frame_len(m: FrameModel)
    ensures
        encode_frame(m).len() >= 3,
    decreases m,
{
    match m {
        FrameModel::Int(i) => {
            if i >= 0 {
                crate::numbers::lemma_dec_digits(i as nat);
            } else {
                crate::numbers::lemma_dec_digits((-i) as nat);
            }
        },
        FrameModel::Bulk(s) => {
            crate::numbers::lemma_dec_digits(s.len());
        },
        FrameModel::Arr(e) => {
            crate::numbers::lemma_dec_digits(e.len());
            assert(encode_elems(e, 0).len() >= 0);
        },
        _ => {},
    }
}

/// When there is a CRLF pair at `j` and none earlier, the scan finds `j`.
proof fn lemma_find_crlf_exact(s: Seq<u8>, i: int, j: int)
    requires
        0 <= i <= j,
        j + 1 < s.len(),
        s[j] == 13,
        s[j + 1] == 10,
        forall|k: int| i <= k < j ==> !(#[trigger] s[k] == 13 && s[k + 1] == 10),
    ensures
        find_crlf(s, i) == Some(j),
    decreases j - i,
{
    if i < j {
        lemma_find_crlf_exact(s, i + 1, j);
    }
}

/// When no CRLF pair exists at or after `i`, the scan finds nothing.
proof fn lemma_find_crlf_none(s: Seq<u8>, i: int)
    requires
        forall|k: int| i <= k && k + 1 < s.len() ==> !(#[trigger] s[k] == 13 && s[k + 1] == 10),
    ensures
        find_crlf(s, i) is None,
    decreases s.len() - i,
{
    if 0 <= i && i + 1 < s.len() {
        lemma_find_crlf_none(s, i + 1);
    }
}

/// The decimal text of an integer never holds byte 13.
proof fn lemma_dec_int_no13(i: int)
    ensures
        forall|t: int| 0 <= t < dec_int(i).len() ==> dec_int(i)[t] != 13,
        dec_int(i).len() >= 1,
{
    if i >= 0 {
        crate::numbers::lemma_dec_digits(i as nat);
        assert(forall|t: int|
            0 <= t < dec_int(i).len() ==> crate::numbers::is_digit(#[trigger] dec_int(i)[t]));
    } else {
        crate::numbers::lemma_dec_digits((-i) as nat);
        assert(forall|t: int|
            0 <= t < dec_digits((-i) as nat).len() ==> crate::numbers::is_digit(
                #[trigger] dec_digits((-i) as nat)[t],
            ));
        assert(forall|t: int|
            1 <= t < dec_int(i).len() ==> dec_int(i)[t] == dec_digits((-i) as nat)[t - 1]);
    }
}

/// Reading back the decimal text of `i` gives `i`.
proof fn lemma_int_of_dec_int(i: int)
    ensures
        int_of_line(dec_int(i)) == Some(i),
{
    if i >= 0 {
        crate::numbers::lemma_dec_digits(i as nat);
        let line = dec_int(i);
        assert(crate::numbers::is_digit(line[0]));
        assert(line[0] != 43 && line[0] != 45);
    } else {
        crate::numbers::lemma_dec_digits((-i) as nat);
        let line = dec_int(i);
        assert(line[0] == 45);
        assert(line.drop_first() =~= dec_digits((-i) as nat));
    }
}

/// Reading back the decimal digit text of `n` as a length gives `n`.
proof fn lemma_length_of_dec_digits(n: nat)
    ensures
        length_of_line(dec_digits(n)) == Some(n as int),
        dec_digits(n) != null_line(),
        forall|t: int| 0 <= t < dec_digits(n).len() ==> dec_digits(n)[t] != 13,
    decreases n,
{
    crate::numbers::lemma_dec_digits(n);
    let line = dec_digits(n);
    assert(crate::numbers::is_digit(line[0]));
    assert(forall|t: int|
        0 <= t < line.len() ==> crate::numbers::is_digit(#[trigger] line[t]));
    if line == null_line() {
        assert(line[0] == 45);
        assert(false);
    }
}

/// Byte-level layout of a line-shaped encoding `prefix` + `line` + CRLF.
proof fn lemma_line_bytes(prefix: u8, line: Seq<u8>)
    ensures
        ({
            let enc = seq![prefix] + line + crate::datatypes::crlf();
            &&& enc.len() == line.len() + 3
            &&& enc[0] == prefix
            &&& forall|t: int| 0 <= t < line.len() ==> enc[1 + t] == #[trigger] line[t]
            &&& enc[line.len() as int + 1] == 13
            &&& enc[line.len() as int + 2] == 10
        }),
{
    let ab = seq![prefix] + line;
    let enc = ab + crate::datatypes::crlf();
    assert(enc[0] == ab[0]);
    assert forall|t: int| 0 <= t < line.len() implies enc[1 + t] == line[t] by {
        assert(enc[1 + t] == ab[1 + t]);
        assert(ab[1 + t] == line[t]);
    }
    assert(enc[ab.len() as int] == crate::datatypes::crlf()[0]);
    assert(enc[ab.len() as int + 1] == crate::datatypes::crlf()[1]);
}

/// Byte-level layout of a length-prefixed encoding
/// `prefix` + `digits` + CRLF + `body` + `tail`.
proof fn lemma_sized_bytes(prefix: u8, digits: Seq<u8>, body: Seq<u8>, tail: Seq<u8>)
    ensures
        ({
            let enc = seq![prefix] + digits + crate::datatypes::crlf() + body + tail;
            &&& enc.len() == digits.len() + 3 + body.len() + tail.len()
            &&& enc[0] == prefix
            &&& forall|t: int| 0 <= t < digits.len() ==> enc[1 + t] == #[trigger] digits[t]
            &&& enc[digits.len() as int + 1] == 13
            &&& enc[digits.len() as int + 2] == 10
            &&& forall|t: int|
                0 <= t < body.len() ==> enc[digits.len() as int + 3 + t] == #[trigger] body[t]
            &&& forall|t: int|
                0 <= t < tail.len() ==> enc[digits.len() as int + 3 + body.len() + t]
                    == #[trigger] tail[t]
        }),
{
    let h1 = seq![prefix] + digits;
    let h2 = h1 + crate::datatypes::crlf();
    let h3 = h2 + body;
    let enc = h3 + tail;
    assert(enc[0] == h3[0]);
    assert(h3[0] == h2[0]);
    assert(h2[0] == h1[0]);
    assert forall|t: int| 0 <= t < digits.len() implies enc[1 + t] == digits[t] by {
        assert(enc[1 + t] == h3[1 + t]);
        assert(h3[1 + t] == h2[1 + t]);
        assert(h2[1 + t] == h1[1 + t]);
        assert(h1[1 + t] == digits[t]);
    }
    assert(enc[digits.len() as int + 1] == h3[digits.len() as int + 1]);
    assert(h3[digits.len() as int + 1] == h2[digits.len() as int + 1]);
    assert(h2[digits.len() as int + 1] == crate::datatypes::crlf()[0]);
    assert(enc[digits.len() as int + 2] == h3[digits.len() as int + 2]);
    assert(h3[digits.len() as int + 2] == h2[digits.len() as int + 2]);
    assert(h2[digits.len() as int + 2] == crate::datatypes::crlf()[1]);
    assert forall|t: int| 0 <= t < body.len() implies enc[digits.len() as int + 3 + t] == body[t]
    by {
        assert(enc[digits.len() as int + 3 + t] == h3[digits.len() as int + 3 + t]);
        assert(h3[digits.len() as int + 3 + t] == body[t]);
    }
    assert forall|t: int|
        0 <= t < tail.len() implies enc[digits.len() as int + 3 + body.len() + t] == tail[t] by {
        assert(enc[h3.len() as int + t] == tail[t]);
    }
}

/// Byte-level layout of one element's encoding followed by the rest.
proof fn lemma_elems_split(e: Seq<FrameModel>, i: int)
    requires
        0 <= i < e.len(),
    ensures
        ({
            let enc = encode_elems(e, i);
            let f = encode_frame(e[i]);
            let tail = encode_elems(e, i + 1);
            &&& enc.len() == f.len() + tail.len()
            &&& forall|t: int| 0 <= t < f.len() ==> enc[t] == #[trigger] f[t]
            &&& forall|t: int| 0 <= t < tail.len() ==> enc[f.len() + t] == #[trigger] tail[t]
        }),
{
    let f = encode_frame(e[i]);
    let tail = encode_elems(e, i + 1);
    let enc = f + tail;
    assert(encode_elems(e, i) == enc);
    assert forall|t: int| 0 <= t < f.len() implies enc[t] == f[t] by {
        assert((f + tail)[t] == f[t]);
    }
    assert forall|t: int| 0 <= t < tail.len() implies enc[f.len() + t] == tail[t] by {
        assert((f + tail)[f.len() + t] == tail[t]);
    }
}

/// Parsing at a spot where the buffer holds the canonical encoding of a
/// well-formed frame yields exactly that frame, consuming exactly its bytes.
#[verifier::rlimit(100)]
#[verifier::spinoff_prover]
pub proof fn lemma_parse_encode(s: Seq<u8>, pos: int, m: FrameModel)
    requires
        wf_frame(m),
        0 <= pos,
        pos + encode_frame(m).len() <= s.len(),
        s.subrange(pos, pos + encode_frame(m).len() as int) == encode_frame(m),
    ensures
        spec_parse(s, pos) == SpecParse::Frame(m, pos + encode_frame(m).len()),
    decreases m, 0int,
{
    let enc = encode_frame(m);
    let len = enc.len() as int;
    lemma_encode_frame_len(m);
    assert forall|t: int| 0 <= t < len implies s[pos + t] == enc[t] by {
        assert(s.subrange(pos, pos + len)[t] == s[pos + t]);
    }
    match m {
        FrameModel::Simple(c) => {
            lemma_parse_encode_line(s, pos, c, 43);
        },
        FrameModel::Error(c) => {
            lemma_parse_encode_line(s, pos, c, 45);
        },
        FrameModel::Int(i) => {
            let line = dec_int(i);
            let j = pos + 1 + line.len() as int;
            lemma_dec_int_no13(i);
            lemma_line_bytes(58, line);
            assert(enc == seq![58u8] + line + crate::datatypes::crlf());
            assert(s[j] == enc[1 + line.len() as int]);
            assert(s[j] == 13 && s[j + 1] == 10);
            assert forall|k: int| pos + 1 <= k < j implies !(#[trigger] s[k] == 13 && s[k + 1]
                == 10) by {
                assert(s[k] == enc[k - pos]);
                assert(enc[k - pos] == line[k - pos - 1]);
            }
            lemma_find_crlf_exact(s, pos + 1, j);
            assert(s.subrange(pos + 1, j) =~= line);
            lemma_int_of_dec_int(i);
            assert(spec_parse(s, pos) == SpecParse::Frame(FrameModel::Int(i), j + 2));
        },
        FrameModel::Bulk(c) => {
            let digits = dec_digits(c.len());
            let j = pos + 1 + digits.len() as int;
            lemma_length_of_dec_digits(c.len());
            lemma_sized_bytes(36, digits, c, crate::datatypes::crlf());
            assert(enc == seq![36u8] + digits + crate::datatypes::crlf() + c
                + crate::datatypes::crlf());
            assert(s[j] == enc[1 + digits.len() as int]);
            assert(s[j] == 13 && s[j + 1] == 10);
            assert forall|k: int| pos + 1 <= k < j implies !(#[trigger] s[k] == 13 && s[k + 1]
                == 10) by {
                assert(s[k] == enc[k - pos]);
                assert(enc[k - pos] == digits[k - pos - 1]);
            }
            lemma_find_crlf_exact(s, pos + 1, j);
            assert(s.subrange(pos + 1, j) =~= digits);
            let start = j + 2;
            assert forall|t: int| 0 <= t < c.len() implies s[start + t] == c[t] by {
                assert(s[start + t] == enc[start + t - pos]);
                assert(enc[start + t - pos] == c[t]);
            }
            assert(s.subrange(start, start + c.len() as int) =~= c);
            assert(start + c.len() + 2 == pos + len);
        },
        FrameModel::NullBulk => {
            assert(s[pos + 3] == 13 && s[pos + 4] == 10);
            assert forall|k: int| pos + 1 <= k < pos + 3 implies !(#[trigger] s[k] == 13 && s[k
                + 1] == 10) by {
                assert(s[k] == enc[k - pos]);
            }
            lemma_find_crlf_exact(s, pos + 1, pos + 3);
            assert(s.subrange(pos + 1, pos + 3) =~= null_line());
        },
        FrameModel::NullArr => {
            assert(s[pos + 3] == 13 && s[pos + 4] == 10);
            assert forall|k: int| pos + 1 <= k < pos + 3 implies !(#[trigger] s[k] == 13 && s[k
                + 1] == 10) by {
                assert(s[k] == enc[k - pos]);
            }
            lemma_find_crlf_exact(s, pos + 1, pos + 3);
            assert(s.subrange(pos + 1, pos + 3) =~= null_line());
        },
        FrameModel::Arr(e) => {
            let digits = dec_digits(e.len());
            let j = pos + 1 + digits.len() as int;
            lemma_length_of_dec_digits(e.len());
            lemma_sized_bytes(42, digits, encode_elems(e, 0), Seq::empty());
            assert(enc =~= seq![42u8] + digits + crate::datatypes::crlf() + encode_elems(e, 0)
                + Seq::empty());
            assert(s[j] == enc[1 + digits.len() as int]);
            assert(s[j] == 13 && s[j + 1] == 10);
            assert forall|k: int| pos + 1 <= k < j implies !(#[trigger] s[k] == 13 && s[k + 1]
                == 10) by {
                assert(s[k] == enc[k - pos]);
                assert(enc[k - pos] == digits[k - pos - 1]);
            }
            lemma_find_crlf_exact(s, pos + 1, j);
            assert(s.subrange(pos + 1, j) =~= digits);
            let start = j + 2;
            let body = encode_elems(e, 0);
            assert forall|t: int| 0 <= t < body.len() implies s[start + t] == body[t] by {
                assert(s[start + t] == enc[start + t - pos]);
                assert(enc[start + t - pos] == body[t]);
            }
            assert(s.subrange(start, start + body.len() as int) =~= body);
            lemma_parse_encode_elems(s, start, e, 0);
            assert(e.skip(0) =~= e);
            assert(start + body.len() == pos + len);
        },
    }
}

/// Shared case of `lemma_parse_encode` for the two line-shaped frames.
proof fn lemma_parse_encode_line(s: Seq<u8>, pos: int, c: Seq<u8>, prefix: u8)
    requires
        prefix == 43 || prefix == 45,
        crate::datatypes::no_crlf(c),
        0 <= pos,
        pos + c.len() + 3 <= s.len(),
        ({
            let enc = seq![prefix] + c + crate::datatypes::crlf();
            s.subrange(pos, pos + enc.len() as int) == enc
        }),
    ensures
        prefix == 43 ==> spec_parse(s, pos) == SpecParse::Frame(
            FrameModel::Simple(c),
            pos + c.len() + 3,
        ),
        prefix == 45 ==> spec_parse(s, pos) == SpecParse::Frame(
            FrameModel::Error(c),
            pos + c.len() + 3,
        ),
{
    let enc = seq![prefix] + c + crate::datatypes::crlf();
    let len = enc.len() as int;
    lemma_line_bytes(prefix, c);
    assert forall|t: int| 0 <= t < len implies s[pos + t] == enc[t] by {
        assert(s.subrange(pos, pos + len)[t] == s[pos + t]);
    }
    let j = pos + 1 + c.len() as int;
    assert(s[j] == enc[1 + c.len() as int]);
    assert(s[j] == 13 && s[j + 1] == 10);
    assert forall|k: int| pos + 1 <= k < j implies !(#[trigger] s[k] == 13 && s[k + 1] == 10) by {
        assert(s[k] == enc[k - pos]);
        assert(enc[k - pos] == c[k - pos - 1]);
        if k < j - 1 {
            assert(s[k + 1] == enc[k + 1 - pos]);
            assert(enc[k + 1 - pos] == c[k - pos]);
        } else {
            assert(s[k + 1] == 13);
        }
    }
    lemma_find_crlf_exact(s, pos + 1, j);
    assert(s.subrange(pos + 1, j) =~= c);
}

/// Parsing a run of `e.len() - i` frames where the buffer holds the
/// encodings of `e[i..]` yields exactly those frames.
#[verifier::rlimit(60)]
pub proof fn lemma_parse_encode_elems(s: Seq<u8>, pos: int, e: Seq<FrameModel>, i: int)
    requires
        0 <= i <= e.len(),
        forall|j: int| 0 <= j < e.len() ==> wf_frame(#[trigger] e[j]),
        0 <= pos,
        pos + encode_elems(e, i).len() <= s.len(),
        s.subrange(pos, pos + encode_elems(e, i).len() as int) == encode_elems(e, i),
    ensures
        spec_parse_elems(s, pos, e.len() - i) == SpecElems::Elems(
            e.skip(i),
            pos + encode_elems(e, i).len(),
        ),
    decreases e, e.len() - i,
{
    if i == e.len() {
        assert(e.skip(i) =~= Seq::<FrameModel>::empty());
    } else {
        let f = encode_frame(e[i]);
        let tail = encode_elems(e, i + 1);
        let enc = encode_elems(e, i);
        lemma_elems_split(e, i);
        assert forall|t: int| 0 <= t < enc.len() implies s[pos + t] == enc[t] by {
            assert(s.subrange(pos, pos + enc.len() as int)[t] == s[pos + t]);
        }
        assert forall|t: int| 0 <= t < f.len() implies s[pos + t] == f[t] by {
            assert(enc[t] == f[t]);
        }
        assert(s.subrange(pos, pos + f.len() as int) =~= f);
        lemma_parse_encode(s, pos, e[i]);
        lemma_encode_frame_len(e[i]);
        let end1 = pos + f.len() as int;
        assert forall|t: int| 0 <= t < tail.len() implies s[end1 + t] == tail[t] by {
            assert(enc[f.len() + t] == tail[t]);
        }
        assert(s.subrange(end1, end1 + tail.len() as int) =~= tail);
        lemma_parse_encode_elems(s, end1, e, i + 1);
        assert(seq![e[i]] + e.skip(i + 1) =~= e.skip(i));
        assert(spec_parse_elems(s, pos, e.len() - i) == SpecElems::Elems(
            e.skip(i),
            pos + enc.len(),
        ));
    }
}

/// Codec round trip: the canonical encoding of any well-formed frame parses
/// back to exactly that frame, consuming exactly its own length.
pub proof fn lemma_round_trip(m: FrameModel)
    requires
        wf_frame(m),
    ensures
        spec_parse(encode_frame(m), 0) == SpecParse::Frame(m, encode_frame(m).len() as int),
{
    let enc = encode_frame(m);
    assert(enc.subrange(0, enc.len() as int) =~= enc);
    lemma_parse_encode(enc, 0, m);
}

/// Parsing where the buffer ends inside the canonical encoding of a
/// well-formed frame reports `Incomplete`.
#[verifier::rlimit(100)]
#[verifier::spinoff_prover]
pub proof fn lemma_parse_cut(m: FrameModel, s: Seq<u8>, pos: int)
    requires
        wf_frame(m),
        0 <= pos <= s.len(),
        s.len() - pos < encode_frame(m).len(),
        s.subrange(pos, s.len() as int) == encode_frame(m).take(s.len() - pos),
    ensures
        spec_parse(s, pos) is Incomplete,
    decreases m, 0int,
{
    let enc = encode_frame(m);
    let avail = s.len() - pos;
    lemma_encode_frame_len(m);
    if avail == 0 {
        return ;
    }
    assert forall|t: int| 0 <= t < avail implies s[pos + t] == enc[t] by {
        assert(s.subrange(pos, s.len() as int)[t] == s[pos + t]);
        assert(enc.take(avail)[t] == enc[t]);
    }
    match m {
        FrameModel::Simple(c) => {
            lemma_line_bytes(43, c);
            assert(s[pos] == enc[0]);
            lemma_cut_line(s, pos, c, 43);
        },
        FrameModel::Error(c) => {
            lemma_line_bytes(45, c);
            assert(s[pos] == enc[0]);
            lemma_cut_line(s, pos, c, 45);
        },
        FrameModel::Int(i) => {
            let line = dec_int(i);
            lemma_dec_int_no13(i);
            lemma_line_bytes(58, line);
            assert(enc == seq![58u8] + line + crate::datatypes::crlf());
            assert(s[pos] == enc[0]);
            assert forall|k: int| pos + 1 <= k && k + 1 < s.len() implies !(#[trigger] s[k] == 13
                && s[k + 1] == 10) by {
                assert(s[k] == enc[k - pos]);
                if k - pos <= line.len() {
                    assert(enc[k - pos] != 13);
                } else {
                    assert(enc[k - pos] == 13 && k + 1 - pos == enc.len() - 1);
                    assert(k + 1 == pos + enc.len() - 1);
                    assert(k + 1 >= s.len());
                }
            }
            lemma_find_crlf_none(s, pos + 1);
        },
        FrameModel::NullBulk => {
            lemma_cut_null(s, pos, 36);
        },
        FrameModel::NullArr => {
            lemma_cut_null(s, pos, 42);
        },
        FrameModel::Bulk(c) => {
            let digits = dec_digits(c.len());
            lemma_length_of_dec_digits(c.len());
            lemma_sized_bytes(36, digits, c, crate::datatypes::crlf());
            assert(enc == seq![36u8] + digits + crate::datatypes::crlf() + c
                + crate::datatypes::crlf());
            let j = pos + 1 + digits.len() as int;
            if avail < digits.len() + 3 {
                // the header line is cut: its closing pair is not fully there
                assert forall|k: int| pos + 1 <= k && k + 1 < s.len() implies !(#[trigger] s[k]
                    == 13 && s[k + 1] == 10) by {
                    assert(s[k] == enc[k - pos]);
                    if k - pos <= digits.len() {
                        assert(enc[k - pos] != 13);
                    } else {
                        assert(k + 1 >= s.len());
                    }
                }
                lemma_find_crlf_none(s, pos + 1);
            } else {
                assert(s[j] == enc[j - pos]);
                assert(s[j] == 13 && s[j + 1] == 10);
                assert forall|k: int| pos + 1 <= k < j implies !(#[trigger] s[k] == 13 && s[k + 1]
                    == 10) by {
                    assert(s[k] == enc[k - pos]);
                    assert(enc[k - pos] == digits[k - pos - 1]);
                }
                lemma_find_crlf_exact(s, pos + 1, j);
                assert(s.subrange(pos + 1, j) =~= digits);
                assert(s.len() < j + 2 + c.len() + 2);
            }
        },
        FrameModel::Arr(e) => {
            let digits = dec_digits(e.len());
            lemma_length_of_dec_digits(e.len());
            lemma_sized_bytes(42, digits, encode_elems(e, 0), Seq::empty());
            assert(enc =~= seq![42u8] + digits + crate::datatypes::crlf() + encode_elems(e, 0)
                + Seq::empty());
            let j = pos + 1 + digits.len() as int;
            if avail < digits.len() + 3 {
                assert forall|k: int| pos + 1 <= k && k + 1 < s.len() implies !(#[trigger] s[k]
                    == 13 && s[k + 1] == 10) by {
                    assert(s[k] == enc[k - pos]);
                    if k - pos <= digits.len() {
                        assert(enc[k - pos] != 13);
                    } else {
                        assert(k + 1 >= s.len());
                    }
                }
                lemma_find_crlf_none(s, pos + 1);
            } else {
                assert(s[j] == enc[j - pos]);
                assert(s[j] == 13 && s[j + 1] == 10);
                assert forall|k: int| pos + 1 <= k < j implies !(#[trigger] s[k] == 13 && s[k + 1]
                    == 10) by {
                    assert(s[k] == enc[k - pos]);
                    assert(enc[k - pos] == digits[k - pos - 1]);
                }
                lemma_find_crlf_exact(s, pos + 1, j);
                assert(s.subrange(pos + 1, j) =~= digits);
                let start = j + 2;
                let body = encode_elems(e, 0);
                assert forall|t: int| 0 <= t < s.len() - start implies s[start + t] == body[t] by {
                    assert(s[start + t] == enc[start + t - pos]);
                    assert(enc[start + t - pos] == body[t]);
                }
                assert(s.subrange(start, s.len() as int) =~= body.take(s.len() - start));
                lemma_elems_cut(s, start, e, 0);
            }
        },
    }
}

/// Shared cut case for the two line-shaped frames.
proof fn lemma_cut_line(s: Seq<u8>, pos: int, c: Seq<u8>, prefix: u8)
    requires
        prefix == 43 || prefix == 45,
        crate::datatypes::no_crlf(c),
        0 <= pos < s.len(),
        s.len() - pos < c.len() + 3,
        ({
            let enc = seq![prefix] + c + crate::datatypes::crlf();
            s.subrange(pos, s.len() as int) == enc.take(s.len() - pos)
        }),
    ensures
        find_crlf(s, pos + 1) is None,
{
    let enc = seq![prefix] + c + crate::datatypes::crlf();
    let avail = s.len() - pos;
    assert forall|t: int| 0 <= t < avail implies s[pos + t] == enc[t] by {
        assert(s.subrange(pos, s.len() as int)[t] == s[pos + t]);
        assert(enc.take(avail)[t] == enc[t]);
    }
    assert forall|k: int| pos + 1 <= k && k + 1 < s.len() implies !(#[trigger] s[k] == 13 && s[k
        + 1] == 10) by {
        let t = k - pos;
        assert(s[k] == enc[t] && s[k + 1] == enc[t + 1]);
        if t + 1 <= c.len() {
            // both bytes lie in the payload, which holds no CRLF pair
            assert(enc[t] == c[t - 1] && enc[t + 1] == c[t]);
        } else if t <= c.len() {
            // the second byte is the CR of the terminator
            assert(enc[t + 1] == 13);
        } else {
            // the pair would be the terminator itself, which is cut off
            assert(t + 1 == enc.len() - 1);
            assert(k + 1 >= s.len());
        }
    }
    lemma_find_crlf_none(s, pos + 1);
}

/// Shared cut case for the two null frames.
proof fn lemma_cut_null(s: Seq<u8>, pos: int, prefix: u8)
    requires
        0 <= pos < s.len(),
        s.len() - pos < 5,
        ({
            let enc = seq![prefix, 45u8, 49u8, 13u8, 10u8];
            s.subrange(pos, s.len() as int) == enc.take(s.len() - pos)
        }),
    ensures
        find_crlf(s, pos + 1) is None,
{
    let enc = seq![prefix, 45u8, 49u8, 13u8, 10u8];
    let avail = s.len() - pos;
    assert forall|t: int| 0 <= t < avail implies s[pos + t] == enc[t] by {
        assert(s.subrange(pos, s.len() as int)[t] == s[pos + t]);
        assert(enc.take(avail)[t] == enc[t]);
    }
    assert forall|k: int| pos + 1 <= k && k + 1 < s.len() implies !(#[trigger] s[k] == 13 && s[k
        + 1] == 10) by {
        let t = k - pos;
        assert(s[k] == enc[t] && s[k + 1] == enc[t + 1]);
    }
    lemma_find_crlf_none(s, pos + 1);
}

/// Reading a counted run where the buffer ends inside the encodings of
/// `e[i..]` reports `Incomplete`.
pub proof fn lemma_elems_cut(s: Seq<u8>, pos: int, e: Seq<FrameModel>, i: int)
    requires
        0 <= i <= e.len(),
        forall|j: int| 0 <= j < e.len() ==> wf_frame(#[trigger] e[j]),
        0 <= pos <= s.len(),
        s.len() - pos < encode_elems(e, i).len(),
        s.subrange(pos, s.len() as int) == encode_elems(e, i).take(s.len() - pos),
    ensures
        spec_parse_elems(s, pos, e.len() - i) is Incomplete,
    decreases e, e.len() - i,
{
    let enc = encode_elems(e, i);
    let avail = s.len() - pos;
    assert(i < e.len());
    let f = encode_frame(e[i]);
    let tail = encode_elems(e, i + 1);
    lemma_elems_split(e, i);
    assert forall|t: int| 0 <= t < avail implies s[pos + t] == enc[t] by {
        assert(s.subrange(pos, s.len() as int)[t] == s[pos + t]);
        assert(enc.take(avail)[t] == enc[t]);
    }
    lemma_encode_frame_len(e[i]);
    if avail < f.len() {
        assert forall|t: int| 0 <= t < avail implies s[pos + t] == f[t] by {
            assert(enc[t] == f[t]);
        }
        assert(s.subrange(pos, s.len() as int) =~= f.take(avail));
        lemma_parse_cut(e[i], s, pos);
    } else {
        assert forall|t: int| 0 <= t < f.len() implies s[pos + t] == f[t] by {
            assert(enc[t] == f[t]);
        }
        assert(s.subrange(pos, pos + f.len() as int) =~= f);
        lemma_parse_encode(s, pos, e[i]);
        let end1 = pos + f.len() as int;
        assert forall|t: int| 0 <= t < s.len() - end1 implies s[end1 + t] == tail[t] by {
            assert(enc[f.len() + t] == tail[t]);
        }
        assert(s.subrange(end1, s.len() as int) =~= tail.take(s.len() - end1));
        lemma_elems_cut(s, end1, e, i + 1);
    }
}

/// Reads frames one after another until the buffer runs out or fails to
/// parse; yields the frames read and the position of the unconsumed tail.
pub open spec fn spec_parse_many(s: Seq<u8>, pos: int) -> (Seq<FrameModel>, int)
    decreases s.len() - pos,
{
    if pos < 0 || pos > s.len() {
        (Seq::empty(), pos)
    } else {
        match spec_parse(s, pos) {
            SpecParse::Frame(m, end) => if pos < end <= s.len() {
                let rest = spec_parse_many(s, end);
                (seq![m] + rest.0, rest.1)
            } else {
                (Seq::empty(), pos)
            },
            SpecParse::Incomplete => (Seq::empty(), pos),
            SpecParse::Invalid => (Seq::empty(), pos),
        }
    }
}

/// Framing, general step: when the buffer from `pos` holds the encodings of
/// `fs[i..]` and reading just past them reports `Incomplete`, reading
/// repeatedly from `pos` yields exactly `fs[i..]` and stops at the boundary.
pub proof fn lemma_parse_many_at(s: Seq<u8>, pos: int, fs: Seq<FrameModel>, i: int)
    requires
        0 <= i <= fs.len(),
        forall|j: int| 0 <= j < fs.len() ==> wf_frame(#[trigger] fs[j]),
        0 <= pos,
        pos + encode_elems(fs, i).len() <= s.len(),
        s.subrange(pos, pos + encode_elems(fs, i).len() as int) == encode_elems(fs, i),
        spec_parse(s, pos + encode_elems(fs, i).len()) is Incomplete || spec_parse(
            s,
            pos + encode_elems(fs, i).len(),
        ) is Invalid,
    ensures
        spec_parse_many(s, pos) == (fs.skip(i), pos + encode_elems(fs, i).len() as int),
    decreases fs.len() - i,
{
    let enc = encode_elems(fs, i);
    if i == fs.len() {
        assert(fs.skip(i) =~= Seq::<FrameModel>::empty());
        assert(spec_parse_many(s, pos) == (Seq::<FrameModel>::empty(), pos));
    } else {
        let f = encode_frame(fs[i]);
        let tail = encode_elems(fs, i + 1);
        lemma_elems_split(fs, i);
        assert forall|t: int| 0 <= t < enc.len() implies s[pos + t] == enc[t] by {
            assert(s.subrange(pos, pos + enc.len() as int)[t] == s[pos + t]);
        }
        assert forall|t: int| 0 <= t < f.len() implies s[pos + t] == f[t] by {
            assert(enc[t] == f[t]);
        }
        assert(s.subrange(pos, pos + f.len() as int) =~= f);
        lemma_parse_encode(s, pos, fs[i]);
        lemma_encode_frame_len(fs[i]);
        let end1 = pos + f.len() as int;
        assert forall|t: int| 0 <= t < tail.len() implies s[end1 + t] == tail[t] by {
            assert(enc[f.len() + t] == tail[t]);
        }
        assert(s.subrange(end1, end1 + tail.len() as int) =~= tail);
        lemma_parse_many_at(s, end1, fs, i + 1);
        assert(seq![fs[i]] + fs.skip(i + 1) =~= fs.skip(i));
    }
}

/// Framing: the concatenation of the canonical encodings of well-formed
/// frames parses back to exactly that sequence of frames.
pub proof fn lemma_framing(fs: Seq<FrameModel>)
    requires
        forall|j: int| 0 <= j < fs.len() ==> wf_frame(#[trigger] fs[j]),
    ensures
        spec_parse_many(encode_elems(fs, 0), 0) == (fs, encode_elems(fs, 0).len() as int),
{
    let s = encode_elems(fs, 0);
    assert(s.subrange(0, s.len() as int) =~= s);
    lemma_parse_many_at(s, 0, fs, 0);
    assert(fs.skip(0) =~= fs);
}

/// Framing with a partial tail: appending a strict prefix of one more
/// well-formed frame's encoding changes nothing — the whole frames are
/// read and the partial tail is left unconsumed.
pub proof fn lemma_framing_partial_tail(fs: Seq<FrameModel>, g: FrameModel, k: int)
    requires
        forall|j: int| 0 <= j < fs.len() ==> wf_frame(#[trigger] fs[j]),
        wf_frame(g),
        0 <= k < encode_frame(g).len(),
    ensures
        spec_parse_many(encode_elems(fs, 0) + encode_frame(g).take(k), 0) == (
            fs,
            encode_elems(fs, 0).len() as int,
        ),
{
    let body = encode_elems(fs, 0);
    let s = body + encode_frame(g).take(k);
    assert(s.subrange(0, body.len() as int) =~= body);
    assert(s.subrange(body.len() as int, s.len() as int) =~= encode_frame(g).take(k));
    lemma_parse_cut(g, s, body.len() as int);
    lemma_parse_many_at(s, 0, fs, 0);
    assert(fs.skip(0) =~= fs);
}

} // verus!
