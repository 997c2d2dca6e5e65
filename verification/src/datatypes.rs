//! Wire frames: the closed sum of frame kinds, their ghost models, and the
//! canonical encoding of each kind.
use crate::numbers::{dec_digits, dec_int, format_i32, format_u64};
use vstd::prelude::*;

verus! {

/// Largest payload length and array count the codec accepts.
pub const LEN_MAX: u64 = 0x7fff_ffff;

pub open spec fn crlf() -> Seq<u8> {
    seq![13u8, 10u8]
}

/// Ghost model of a frame: payloads as sequences, counts unbounded.
pub enum FrameModel {
    Simple(Seq<u8>),
    Error(Seq<u8>),
    Int(int),
    Bulk(Seq<u8>),
    NullBulk,
    Arr(Seq<FrameModel>),
    NullArr,
}

/// A frame as held at run time.
pub enum RespValue {
    Simple(Vec<u8>),
    Error(Vec<u8>),
    Int(i32),
    Bulk(Vec<u8>),
    NullBulk,
    Arr(Vec<RespValue>),
    NullArr,
}

pub open spec fn models_of(s: Seq<RespValue>) -> Seq<FrameModel>
    decreases s,
{
    if s.len() == 0 {
        Seq::empty()
    } else {
        seq![s[0].model()] + models_of(s.drop_first())
    }
}

impl RespValue {
    pub open spec fn model(self) -> FrameModel
        decreases self,
    {
        match self {
            RespValue::Simple(v) => FrameModel::Simple(v@),
            RespValue::Error(v) => FrameModel::Error(v@),
            RespValue::Int(i) => FrameModel::Int(i as int),
            RespValue::Bulk(v) => FrameModel::Bulk(v@),
            RespValue::NullBulk => FrameModel::NullBulk,
            RespValue::Arr(e) => FrameModel::Arr(models_of(e@)),
            RespValue::NullArr => FrameModel::NullArr,
        }
    }
}

pub proof fn lemma_models_of(s: Seq<RespValue>)
    ensures
        models_of(s).len() == s.len(),
        forall|i: int| 0 <= i < s.len() ==> models_of(s)[i] == #[trigger] s[i].model(),
    decreases s,
{
    if s.len() > 0 {
        lemma_models_of(s.drop_first());
        assert forall|i: int| 0 <= i < s.len() implies models_of(s)[i] == #[trigger] s[i].model()
        by {
            if i > 0 {
                assert(s.drop_first()[i - 1] == s[i]);
                assert(models_of(s)[i] == models_of(s.drop_first())[i - 1]);
            }
        }
    }
}

/// `s` holds no CRLF pair, so a line scanner will not stop inside it.
pub open spec fn no_crlf(s: Seq<u8>) -> bool {
    forall|i: int| 0 <= i < s.len() - 1 ==> !(#[trigger] s[i] == 13 && s[i + 1] == 10)
}

/// Frames whose canonical encoding parses back to themselves: line payloads
/// hold no CRLF pair, and lengths stay within what the codec accepts.
pub open spec fn wf_frame(m: FrameModel) -> bool
    decreases m,
{
    match m {
        FrameModel::Simple(s) => no_crlf(s),
        FrameModel::Error(s) => no_crlf(s),
        FrameModel::Int(i) => -0x8000_0000 <= i <= 0x7fff_ffff,
        FrameModel::Bulk(s) => s.len() <= LEN_MAX,
        FrameModel::NullBulk => true,
        FrameModel::Arr(e) => e.len() <= LEN_MAX && (forall|i: int|
            0 <= i < e.len() ==> wf_frame(#[trigger] e[i])),
        FrameModel::NullArr => true,
    }
}

pub open spec fn encode_simple(s: Seq<u8>) -> Seq<u8> {
    seq![43u8] + s + crlf()
}

pub open spec fn encode_error(s: Seq<u8>) -> Seq<u8> {
    seq![45u8] + s + crlf()
}

pub open spec fn encode_int(i: int) -> Seq<u8> {
    seq![58u8] + dec_int(i) + crlf()
}

pub open spec fn encode_bulk(s: Seq<u8>) -> Seq<u8> {
    seq![36u8] + dec_digits(s.len()) + crlf() + s + crlf()
}

pub open spec fn encode_null_bulk() -> Seq<u8> {
    seq![36u8, 45u8, 49u8, 13u8, 10u8]
}

pub open spec fn encode_null_array() -> Seq<u8> {
    seq![42u8, 45u8, 49u8, 13u8, 10u8]
}

/// Canonical wire form of a frame.
pub open spec fn encode_frame(m: FrameModel) -> Seq<u8>
    decreases m,
{
    match m {
        FrameModel::Simple(s) => encode_simple(s),
        FrameModel::Error(s) => encode_error(s),
        FrameModel::Int(i) => encode_int(i),
        FrameModel::Bulk(s) => encode_bulk(s),
        FrameModel::NullBulk => encode_null_bulk(),
        FrameModel::Arr(e) => seq![42u8] + dec_digits(e.len()) + crlf() + encode_elems(e, 0),
        FrameModel::NullArr => encode_null_array(),
    }
}

/// Concatenated encodings of the elements from index `i` onward.
pub open spec fn encode_elems(e: Seq<FrameModel>, i: int) -> Seq<u8>
    decreases e, e.len() - i,
{
    if i < 0 || i >= e.len() {
        Seq::empty()
    } else {
        encode_frame(e[i]) + encode_elems(e, i + 1)
    }
}

/// Appends every byte of `data` to `out`.
pub fn push_all(out: &mut Vec<u8>, data: &[u8])
    ensures
        final (out)@ == old(out)@ + data@,
{
    let mut k: usize = 0;
    while k < data.len()
        invariant
            k <= data@.len(),
            out@ == old(out)@ + data@.take(k as int),
        decreases data@.len() - k,
    {
        let b = data[k];
        out.push(b);
        k += 1;
        proof {
            assert(out@ =~= old(out)@ + data@.take(k as int));
        }
    }
    proof {
        assert(data@.take(data@.len() as int) =~= data@);
    }
}

pub fn push_crlf(out: &mut Vec<u8>)
    ensures
        final (out)@ == old(out)@ + crlf(),
{
    out.push(13u8);
    out.push(10u8);
    proof {
        assert(out@ =~= old(out)@ + crlf());
    }
}

/// One CRLF-terminated line `prefix` + `payload`.
fn line_frame(prefix: u8, payload: &[u8]) -> (r: Vec<u8>)
    ensures
        r@ == seq![prefix] + payload@ + crlf(),
{
    let mut out: Vec<u8> = Vec::new();
    out.push(prefix);
    push_all(&mut out, payload);
    push_crlf(&mut out);
    proof {
        assert(out@ =~= seq![prefix] + payload@ + crlf());
    }
    out
}

impl RespValue {
    /// Canonical serialization of this frame.
    pub fn to_bytes(&self) -> (r: Vec<u8>)
        ensures
            r@ == encode_frame(self.model()),
        decreases *self,
    {
        match self {
            RespValue::Simple(v) => line_frame(43, v.as_slice()),
            RespValue::Error(v) => line_frame(45, v.as_slice()),
            RespValue::Int(i) => {
                let digits = format_i32(*i);
                line_frame(58, digits.as_slice())
            },
            RespValue::Bulk(v) => {
                let digits = format_u64(v.len() as u64);
                let mut out = line_frame(36, digits.as_slice());
                push_all(&mut out, v.as_slice());
                push_crlf(&mut out);
                proof {
                    assert(out@ =~= encode_bulk(v@));
                }
                out
            },
            RespValue::NullBulk => {
                let digits = format_i32(-1);
                let r = line_frame(36, digits.as_slice());
                proof {
                    assert(dec_digits(1nat) =~= seq![49u8]);
                    assert(r@ =~= encode_null_bulk());
                }
                r
            },
            RespValue::Arr(e) => {
                let digits = format_u64(e.len() as u64);
                let mut out = line_frame(42, digits.as_slice());
                let ghost models = models_of(e@);
                let ghost head = out@;
                proof {
                    lemma_models_of(e@);
                }
                let mut k: usize = 0;
                #[verifier::loop_isolation(false)]
                while k < e.len()
                    invariant
                        k <= e@.len(),
                        models == models_of(e@),
                        models.len() == e@.len(),
                        forall|i: int| 0 <= i < e@.len() ==> models[i] == #[trigger] e@[i].model(),
                        head == seq![42u8] + dec_digits(e@.len()) + crlf(),
                        out@ + encode_elems(models, k as int) == head + encode_elems(models, 0),
                    decreases e@.len() - k,
                {
                    proof {
                        let ghost vv = *e;
                        assert(*self == RespValue::Arr(vv));
                        assert(decreases_to!(RespValue::Arr(vv) => vv));
                        assert(decreases_to!(vv => vv@[k as int]));
                        assert(decreases_to!(*self => e@[k as int]));
                    }
                    let piece = e[k].to_bytes();
                    push_all(&mut out, piece.as_slice());
                    proof {
                        assert(encode_elems(models, k as int) == encode_frame(models[k as int])
                            + encode_elems(models, k as int + 1));
                        assert(out@ + encode_elems(models, k as int + 1) =~= head + encode_elems(
                            models,
                            0,
                        ));
                    }
                    k += 1;
                }
                proof {
                    assert(out@ + encode_elems(models, e@.len() as int) =~= out@);
                }
                out
            },
            RespValue::NullArr => {
                let digits = format_i32(-1);
                let r = line_frame(42, digits.as_slice());
                proof {
                    assert(dec_digits(1nat) =~= seq![49u8]);
                    assert(r@ =~= encode_null_array());
                }
                r
            },
        }
    }
}

// The frame kinds under their own names, as responses are assembled from
// them one kind at a time.
pub struct SimpleString {
    pub value: Vec<u8>,
}

impl SimpleString {
    pub fn new(value: Vec<u8>) -> (r: SimpleString)
        ensures
            r.value == value,
    {
        SimpleString { value }
    }

    pub fn to_bytes(&self) -> (r: Vec<u8>)
        ensures
            r@ == encode_simple(self.value@),
    {
        line_frame(43, self.value.as_slice())
    }
}

pub struct SimpleError {
    pub value: Vec<u8>,
}

impl SimpleError {
    pub fn new(value: Vec<u8>) -> (r: SimpleError)
        ensures
            r.value == value,
    {
        SimpleError { value }
    }

    pub fn to_bytes(&self) -> (r: Vec<u8>)
        ensures
            r@ == encode_error(self.value@),
    {
        line_frame(45, self.value.as_slice())
    }
}

pub struct Integer {
    pub value: i32,
}

impl Integer {
    pub fn new(value: i32) -> (r: Integer)
        ensures
            r.value == value,
    {
        Integer { value }
    }

    pub fn to_bytes(&self) -> (r: Vec<u8>)
        ensures
            r@ == encode_int(self.value as int),
    {
        let digits = format_i32(self.value);
        line_frame(58, digits.as_slice())
    }
}

pub struct BulkString {
    pub value: Vec<u8>,
}

impl BulkString {
    pub fn new(value: Vec<u8>) -> (r: BulkString)
        ensures
            r.value == value,
    {
        BulkString { value }
    }

    pub fn to_bytes(&self) -> (r: Vec<u8>)
        ensures
            r@ == encode_bulk(self.value@),
    {
        let digits = format_u64(self.value.len() as u64);
        let mut out = line_frame(36, digits.as_slice());
        push_all(&mut out, self.value.as_slice());
        push_crlf(&mut out);
        proof {
            assert(out@ =~= encode_bulk(self.value@));
        }
        out
    }
}

pub struct NullBulkString {}

impl NullBulkString {
    pub fn to_bytes(&self) -> (r: Vec<u8>)
        ensures
            r@ == encode_null_bulk(),
    {
        let v = RespValue::NullBulk;
        v.to_bytes()
    }
}

pub struct NullArray {}

impl NullArray {
    pub fn to_bytes(&self) -> (r: Vec<u8>)
        ensures
            r@ == encode_null_array(),
    {
        let v = RespValue::NullArr;
        v.to_bytes()
    }
}

pub struct Array {
    pub values: Vec<RespValue>,
}

impl Array {
    pub fn new(values: Vec<RespValue>) -> (r: Array)
        ensures
            r.values == values,
    {
        Array { values }
    }

    /// An array of bulk strings, the shape every command takes on the wire.
    pub fn from_strs(values: Vec<Vec<u8>>) -> (r: Array)
        ensures
            r.values@.len() == values@.len(),
            forall|i: int|
                0 <= i < values@.len() ==> (#[trigger] r.values@[i].model()) == FrameModel::Bulk(
                    values@[i]@,
                ),
    {
        let mut out: Vec<RespValue> = Vec::new();
        let mut k: usize = 0;
        while k < values.len()
            invariant
                k <= values@.len(),
                out@.len() == k,
                forall|i: int|
                    0 <= i < k ==> (#[trigger] out@[i].model()) == FrameModel::Bulk(values@[i]@),
            decreases values@.len() - k,
        {
            let item = values[k].clone();
            out.push(RespValue::Bulk(item));
            k += 1;
        }
        Array { values: out }
    }

    pub fn to_bytes(&self) -> (r: Vec<u8>)
        ensures
            r@ == encode_frame(FrameModel::Arr(models_of(self.values@))),
    {
        let digits = format_u64(self.values.len() as u64);
        let mut out = line_frame(42, digits.as_slice());
        let ghost models = models_of(self.values@);
        let ghost head = out@;
        proof {
            lemma_models_of(self.values@);
        }
        let mut k: usize = 0;
        while k < self.values.len()
            invariant
                k <= self.values@.len(),
                models == models_of(self.values@),
                models.len() == self.values@.len(),
                forall|i: int|
                    0 <= i < self.values@.len() ==> models[i]
                        == #[trigger] self.values@[i].model(),
                head == seq![42u8] + dec_digits(self.values@.len()) + crlf(),
                out@ + encode_elems(models, k as int) == head + encode_elems(models, 0),
            decreases self.values@.len() - k,
        {
            let piece = self.values[k].to_bytes();
            push_all(&mut out, piece.as_slice());
            proof {
                assert(encode_elems(models, k as int) == encode_frame(models[k as int])
                    + encode_elems(models, k as int + 1));
                assert(out@ + encode_elems(models, k as int + 1) =~= head + encode_elems(
                    models,
                    0,
                ));
            }
            k += 1;
        }
        proof {
            assert(out@ + encode_elems(models, self.values@.len() as int) =~= out@);
        }
        out
    }
}

} // verus!
