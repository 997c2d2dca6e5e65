//! The keyspace: a map from key bytes to a typed value with an optional
//! deadline. Time never flows inside this module; every reading operation
//! takes the current monotonic time in milliseconds, and a value whose
//! deadline has passed is indistinguishable from an absent one.
use crate::matcher::{glob_match, is_match};
use crate::resp::copy_range;
use vstd::pervasive::VecAdditionalExecFns;
use vstd::prelude::*;

verus! {

/// The two kinds a stored value can have.
pub enum DataType {
    String(Vec<u8>),
    List(Vec<Vec<u8>>),
}

/// Ghost model of a stored datum.
pub enum DataModel {
    Str(Seq<u8>),
    List(Seq<Seq<u8>>),
}

impl DataType {
    pub open spec fn model(self) -> DataModel {
        match self {
            DataType::String(v) => DataModel::Str(v@),
            DataType::List(l) => DataModel::List(l.deep_view()),
        }
    }
}

/// A value as stored, with its deadline in milliseconds if it has one.
pub struct StoreValue {
    pub data: DataType,
    pub expires_at: Option<u64>,
}

impl StoreValue {
    /// A value that never expires.
    pub fn new(data: DataType) -> (r: StoreValue)
        ensures
            r.data == data,
            r.expires_at is None,
    {
        StoreValue { data, expires_at: None }
    }

    /// A value that is dead from `expires_at` milliseconds on.
    pub fn new_with_expiration(data: DataType, expires_at: u64) -> (r: StoreValue)
        ensures
            r.data == data,
            r.expires_at == Some(expires_at),
    {
        StoreValue { data, expires_at: Some(expires_at) }
    }

    pub open spec fn spec_expired(self, now: u64) -> bool {
        self.expires_at matches Some(t) && now >= t
    }

    /// Whether the value's deadline has passed at time `now`.
    pub fn is_expired(&self, now: u64) -> (r: bool)
        ensures
            r == self.spec_expired(now),
    {
        match self.expires_at {
            Some(t) => now >= t,
            None => false,
        }
    }
}

/// One keyed entry.
pub type Entry = (Vec<u8>, StoreValue);

pub open spec fn entry_live(e: Entry, now: u64) -> bool {
    !e.1.spec_expired(now)
}

/// Map view of a run of entries; later entries win, though well-formed
/// stores never repeat a key.
pub open spec fn map_of(s: Seq<Entry>) -> Map<Seq<u8>, (DataModel, Option<u64>)>
    decreases s.len(),
{
    if s.len() == 0 {
        Map::empty()
    } else {
        map_of(s.drop_last()).insert(
            s.last().0@,
            (s.last().1.data.model(), s.last().1.expires_at),
        )
    }
}

pub open spec fn has_key(s: Seq<Entry>, k: Seq<u8>) -> bool {
    exists|i: int| 0 <= i < s.len() && (#[trigger] s[i]).0@ == k
}

pub open spec fn distinct_keys(s: Seq<Entry>) -> bool {
    forall|i: int, j: int|
        0 <= i < j < s.len() ==> (#[trigger] s[i]).0@ != (#[trigger] s[j]).0@
}

/// What a read of key `k` at time `now` sees.
pub open spec fn live_get(
    m: Map<Seq<u8>, (DataModel, Option<u64>)>,
    k: Seq<u8>,
    now: u64,
) -> Option<DataModel> {
    if m.contains_key(k) && !(m[k].1 matches Some(t) && now >= t) {
        Some(m[k].0)
    } else {
        None
    }
}

/// The entries still alive at time `now`, in order.
pub open spec fn live_entries(s: Seq<Entry>, now: u64) -> Seq<Entry>
    decreases s.len(),
{
    if s.len() == 0 {
        s
    } else {
        let rest = live_entries(s.drop_last(), now);
        if entry_live(s.last(), now) {
            rest.push(s.last())
        } else {
            rest
        }
    }
}

/// The keys of live entries matching `pat`, in entry order.
pub open spec fn matching_keys(s: Seq<Entry>, pat: Seq<u8>, now: u64) -> Seq<Seq<u8>>
    decreases s.len(),
{
    if s.len() == 0 {
        Seq::empty()
    } else {
        let rest = matching_keys(s.drop_last(), pat, now);
        if entry_live(s.last(), now) && glob_match(s.last().0@, pat) {
            rest.push(s.last().0@)
        } else {
            rest
        }
    }
}

pub proof fn lemma_map_of_contains(s: Seq<Entry>, k: Seq<u8>)
    ensures
        map_of(s).contains_key(k) <==> has_key(s, k),
    decreases s.len(),
{
    if s.len() > 0 {
        lemma_map_of_contains(s.drop_last(), k);
        if s.last().0@ == k {
            assert(s[s.len() - 1].0@ == k);
        } else {
            if has_key(s.drop_last(), k) {
                let i = choose|i: int|
                    0 <= i < s.drop_last().len() && (#[trigger] s.drop_last()[i]).0@ == k;
                assert(s[i].0@ == k);
            }
            if has_key(s, k) {
                let i = choose|i: int| 0 <= i < s.len() && (#[trigger] s[i]).0@ == k;
                assert(i < s.len() - 1);
                assert(s.drop_last()[i].0@ == k);
            }
        }
    }
}

pub proof fn lemma_map_of_find(s: Seq<Entry>, i: int)
    requires
        distinct_keys(s),
        0 <= i < s.len(),
    ensures
        map_of(s).contains_key(s[i].0@),
        map_of(s)[s[i].0@] == (s[i].1.data.model(), s[i].1.expires_at),
    decreases s.len(),
{
    if i == s.len() - 1 {
    } else {
        assert(distinct_keys(s.drop_last()));
        assert(s.drop_last()[i] == s[i]);
        lemma_map_of_find(s.drop_last(), i);
        assert(s[i].0@ != s[s.len() - 1].0@);
    }
}

pub proof fn lemma_map_of_update(s: Seq<Entry>, i: int, pair: Entry)
    requires
        distinct_keys(s),
        0 <= i < s.len(),
        pair.0@ == s[i].0@,
    ensures
        map_of(s.update(i, pair)) == map_of(s).insert(
            pair.0@,
            (pair.1.data.model(), pair.1.expires_at),
        ),
    decreases s.len(),
{
    let upd = s.update(i, pair);
    if i == s.len() - 1 {
        assert(upd.drop_last() =~= s.drop_last());
        assert(upd.last() == pair);
        assert(map_of(upd) =~= map_of(s).insert(
            pair.0@,
            (pair.1.data.model(), pair.1.expires_at),
        ));
    } else {
        assert(distinct_keys(s.drop_last()));
        assert(s.drop_last()[i] == s[i]);
        lemma_map_of_update(s.drop_last(), i, pair);
        assert(upd.drop_last() =~= s.drop_last().update(i, pair));
        assert(upd.last() == s.last());
        assert(s[i].0@ != s[s.len() - 1].0@);
        assert(map_of(upd) =~= map_of(s).insert(
            pair.0@,
            (pair.1.data.model(), pair.1.expires_at),
        ));
    }
}

pub proof fn lemma_map_of_remove(s: Seq<Entry>, i: int)
    requires
        distinct_keys(s),
        0 <= i < s.len(),
    ensures
        map_of(s.remove(i)) == map_of(s).remove(s[i].0@),
    decreases s.len(),
{
    let rem = s.remove(i);
    if i == s.len() - 1 {
        assert(rem =~= s.drop_last());
        assert(distinct_keys(s.drop_last()));
        lemma_map_of_contains(s.drop_last(), s[i].0@);
        assert forall|j: int| 0 <= j < s.drop_last().len() implies (#[trigger] s.drop_last()[j]).0@
            != s[i].0@ by {
            assert(s[j] == s.drop_last()[j]);
        }
        assert(!map_of(s.drop_last()).contains_key(s[i].0@));
        assert(map_of(rem) =~= map_of(s).remove(s[i].0@));
    } else {
        assert(distinct_keys(s.drop_last()));
        assert(s.drop_last()[i] == s[i]);
        lemma_map_of_remove(s.drop_last(), i);
        assert(rem.drop_last() =~= s.drop_last().remove(i));
        assert(rem.last() == s.last());
        assert(s[i].0@ != s[s.len() - 1].0@);
        assert(map_of(rem) =~= map_of(s).remove(s[i].0@));
    }
}

/// Dropping dead entries keeps keys distinct and invents no key.
pub proof fn lemma_live_entries_distinct(s: Seq<Entry>, now: u64)
    requires
        distinct_keys(s),
    ensures
        distinct_keys(live_entries(s, now)),
        forall|k: Seq<u8>| has_key(live_entries(s, now), k) ==> has_key(s, k),
    decreases s.len(),
{
    if s.len() > 0 {
        assert(distinct_keys(s.drop_last()));
        lemma_live_entries_distinct(s.drop_last(), now);
        let rest = live_entries(s.drop_last(), now);
        assert forall|k: Seq<u8>| has_key(s.drop_last(), k) implies has_key(s, k) by {
            let i = choose|i: int|
                0 <= i < s.drop_last().len() && (#[trigger] s.drop_last()[i]).0@ == k;
            assert(s[i].0@ == k);
        }
        if entry_live(s.last(), now) {
            let live = rest.push(s.last());
            assert forall|k: Seq<u8>| has_key(live, k) implies has_key(s, k) by {
                let i = choose|i: int| 0 <= i < live.len() && (#[trigger] live[i]).0@ == k;
                if i < rest.len() {
                    assert(rest[i].0@ == k);
                } else {
                    assert(s[s.len() - 1].0@ == k);
                }
            }
            assert forall|i: int, j: int| 0 <= i < j < live.len() implies (#[trigger] live[i]).0@
                != (#[trigger] live[j]).0@ by {
                if j == live.len() - 1 {
                    assert(live[i] == rest[i]);
                    assert(has_key(rest, rest[i].0@));
                    assert(has_key(s.drop_last(), rest[i].0@));
                    let t = choose|t: int|
                        0 <= t < s.drop_last().len() && (#[trigger] s.drop_last()[t]).0@
                            == rest[i].0@;
                    assert(s[t].0@ == rest[i].0@);
                    assert(s[t].0@ != s[s.len() - 1].0@);
                }
            }
        } else {
            assert forall|k: Seq<u8>| has_key(rest, k) implies has_key(s, k) by {
                assert(has_key(s.drop_last(), k));
            }
        }
    }
}

/// Outcome of a right-push on the map view: the new map and the reported
/// list length. A live list grows at the end and keeps its deadline; a live
/// string is replaced by a one-element list keeping its deadline; an absent
/// or expired key gets a fresh one-element list with no deadline.
pub open spec fn rpush_result(
    m: Map<Seq<u8>, (DataModel, Option<u64>)>,
    k: Seq<u8>,
    v: Seq<u8>,
    now: u64,
) -> (Map<Seq<u8>, (DataModel, Option<u64>)>, int) {
    match live_get(m, k, now) {
        Some(DataModel::List(l)) => (
            m.insert(k, (DataModel::List(l.push(v)), m[k].1)),
            l.len() + 1int,
        ),
        Some(DataModel::Str(_)) => (m.insert(k, (DataModel::List(seq![v]), m[k].1)), 1),
        None => (m.insert(k, (DataModel::List(seq![v]), None)), 1),
    }
}

/// Outcome of a right-pop on the map view: the new map and the popped
/// element. Only a live, nonempty list changes.
pub open spec fn rpop_result(
    m: Map<Seq<u8>, (DataModel, Option<u64>)>,
    k: Seq<u8>,
    now: u64,
) -> (Map<Seq<u8>, (DataModel, Option<u64>)>, Option<Seq<u8>>) {
    match live_get(m, k, now) {
        Some(DataModel::List(l)) => if l.len() > 0 {
            (m.insert(k, (DataModel::List(l.drop_last()), m[k].1)), Some(l.last()))
        } else {
            (m, None)
        },
        _ => (m, None),
    }
}

/// `rpush_result` at the level of the ordered entry model.
pub open spec fn rpush_model(em: Seq<EntryModel>, k: Seq<u8>, v: Seq<u8>, now: u64) -> (
    Seq<EntryModel>,
    int,
) {
    match live_get(map_of_m(em), k, now) {
        Some(DataModel::List(l)) => (
            model_put(em, k, DataModel::List(l.push(v)), map_of_m(em)[k].1),
            l.len() + 1int,
        ),
        Some(DataModel::Str(_)) => (
            model_put(em, k, DataModel::List(seq![v]), map_of_m(em)[k].1),
            1int,
        ),
        None => (model_put(em, k, DataModel::List(seq![v]), None), 1int),
    }
}

/// `rpop_result` at the level of the ordered entry model.
pub open spec fn rpop_model(em: Seq<EntryModel>, k: Seq<u8>, now: u64) -> (
    Seq<EntryModel>,
    Option<Seq<u8>>,
) {
    match live_get(map_of_m(em), k, now) {
        Some(DataModel::List(l)) => if l.len() > 0 {
            (
                model_put(em, k, DataModel::List(l.drop_last()), map_of_m(em)[k].1),
                Some(l.last()),
            )
        } else {
            (em, None)
        },
        _ => (em, None),
    }
}

/// Normalized inclusive range bounds: negative indices count from the end,
/// and out-of-range indices are clamped.
pub open spec fn lrange_bounds(len: int, start: int, stop: int) -> (int, int) {
    let s = if start < 0 {
        if len + start > 0 {
            len + start
        } else {
            0
        }
    } else if start < len {
        start
    } else {
        len
    };
    let e = if stop < 0 {
        if len + stop > -1 {
            len + stop
        } else {
            -1
        }
    } else if stop < len - 1 {
        stop
    } else {
        len - 1
    };
    (s, e)
}

/// The inclusive slice `start..=stop` of a list after normalization; empty
/// when the normalized bounds cross.
pub open spec fn lrange_spec(l: Seq<Seq<u8>>, start: int, stop: int) -> Seq<Seq<u8>> {
    let b = lrange_bounds(l.len() as int, start, stop);
    if b.0 > b.1 || b.0 >= l.len() {
        Seq::empty()
    } else {
        l.subrange(b.0, b.1 + 1)
    }
}

/// What `get_string` sees: the bytes only when a live string is there.
pub open spec fn string_get(
    m: Map<Seq<u8>, (DataModel, Option<u64>)>,
    k: Seq<u8>,
    now: u64,
) -> Option<Seq<u8>> {
    match live_get(m, k, now) {
        Some(DataModel::Str(s)) => Some(s),
        _ => None,
    }
}

/// What `llen` sees: a live list's length, else zero.
pub open spec fn llen_spec(
    m: Map<Seq<u8>, (DataModel, Option<u64>)>,
    k: Seq<u8>,
    now: u64,
) -> int {
    match live_get(m, k, now) {
        Some(DataModel::List(l)) => l.len() as int,
        _ => 0,
    }
}

// ---------------------------------------------------------------------------
// The ghost entry model: the keyspace as a sequence of
// (key, datum, deadline) triples, which the connection loop's meaning is
// folded over.
// ---------------------------------------------------------------------------
/// One entry, reduced to its meaning.
pub type EntryModel = (Seq<u8>, DataModel, Option<u64>);

pub open spec fn model_of(s: Seq<Entry>) -> Seq<EntryModel> {
    Seq::new(s.len(), |i: int| (s[i].0@, s[i].1.data.model(), s[i].1.expires_at))
}

/// First position of `k` in the model, or its length when absent.
pub open spec fn key_index_from(em: Seq<EntryModel>, k: Seq<u8>, i: int) -> int
    decreases em.len() - i,
{
    if i < 0 || i >= em.len() {
        em.len() as int
    } else if em[i].0 == k {
        i
    } else {
        key_index_from(em, k, i + 1)
    }
}

pub open spec fn key_index(em: Seq<EntryModel>, k: Seq<u8>) -> int {
    key_index_from(em, k, 0)
}

/// Storing under `k`: the first entry with that key is replaced, else a new
/// entry is appended.
pub open spec fn model_put(
    em: Seq<EntryModel>,
    k: Seq<u8>,
    d: DataModel,
    dl: Option<u64>,
) -> Seq<EntryModel> {
    if key_index(em, k) < em.len() {
        em.update(key_index(em, k), (k, d, dl))
    } else {
        em.push((k, d, dl))
    }
}

/// Map view of a model; agrees with `map_of` on the entries it models.
pub open spec fn map_of_m(em: Seq<EntryModel>) -> Map<Seq<u8>, (DataModel, Option<u64>)>
    decreases em.len(),
{
    if em.len() == 0 {
        Map::empty()
    } else {
        map_of_m(em.drop_last()).insert(em.last().0, (em.last().1, em.last().2))
    }
}

pub open spec fn entry_live_m(e: EntryModel, now: u64) -> bool {
    !(e.2 matches Some(t) && now >= t)
}

/// The keys of live model entries matching `pat`, in order.
pub open spec fn matching_keys_m(em: Seq<EntryModel>, pat: Seq<u8>, now: u64) -> Seq<Seq<u8>>
    decreases em.len(),
{
    if em.len() == 0 {
        Seq::empty()
    } else {
        let rest = matching_keys_m(em.drop_last(), pat, now);
        if entry_live_m(em.last(), now) && glob_match(em.last().0, pat) {
            rest.push(em.last().0)
        } else {
            rest
        }
    }
}

/// `map_of` and the model's own map view agree.
pub proof fn lemma_model_map(s: Seq<Entry>)
    ensures
        map_of(s) == map_of_m(model_of(s)),
    decreases s.len(),
{
    if s.len() > 0 {
        lemma_model_map(s.drop_last());
        assert(model_of(s.drop_last()) =~= model_of(s).drop_last());
        assert(map_of(s) =~= map_of_m(model_of(s)));
    }
}

/// `matching_keys` and its model form agree.
pub proof fn lemma_matching_model(s: Seq<Entry>, pat: Seq<u8>, now: u64)
    ensures
        matching_keys(s, pat, now) == matching_keys_m(model_of(s), pat, now),
    decreases s.len(),
{
    if s.len() > 0 {
        lemma_matching_model(s.drop_last(), pat, now);
        assert(model_of(s.drop_last()) =~= model_of(s).drop_last());
        assert(matching_keys(s, pat, now) =~= matching_keys_m(model_of(s), pat, now));
    }
}

/// When `i` is the first position of `k`, `key_index` says so.
proof fn lemma_key_index_is(em: Seq<EntryModel>, k: Seq<u8>, i: int)
    requires
        0 <= i < em.len(),
        em[i].0 == k,
        forall|j: int| 0 <= j < i ==> (#[trigger] em[j]).0 != k,
    ensures
        key_index(em, k) == i,
{
    lemma_key_index_is_from(em, k, i, 0);
}

proof fn lemma_key_index_is_from(em: Seq<EntryModel>, k: Seq<u8>, i: int, at: int)
    requires
        0 <= at <= i < em.len(),
        em[i].0 == k,
        forall|j: int| 0 <= j < i ==> (#[trigger] em[j]).0 != k,
    ensures
        key_index_from(em, k, at) == i,
    decreases i - at,
{
    if at < i {
        lemma_key_index_is_from(em, k, i, at + 1);
    }
}

/// When `k` is absent, `key_index` is the length.
proof fn lemma_key_index_none(em: Seq<EntryModel>, k: Seq<u8>)
    requires
        forall|j: int| 0 <= j < em.len() ==> (#[trigger] em[j]).0 != k,
    ensures
        key_index(em, k) == em.len(),
{
    lemma_key_index_none_from(em, k, 0);
}

proof fn lemma_key_index_none_from(em: Seq<EntryModel>, k: Seq<u8>, at: int)
    requires
        0 <= at,
        forall|j: int| 0 <= j < em.len() ==> (#[trigger] em[j]).0 != k,
    ensures
        key_index_from(em, k, at) == em.len(),
    decreases em.len() - at,
{
    if at < em.len() {
        lemma_key_index_none_from(em, k, at + 1);
    }
}

/// A thread-unaware keyspace; the process wraps one in its own lock.
pub struct Store {
    pub entries: Vec<Entry>,
}

impl Store {
    /// Keys are never repeated.
    pub open spec fn wf(self) -> bool {
        distinct_keys(self.entries@)
    }

    /// The keyspace as a map from key bytes to datum and deadline.
    pub open spec fn map_view(self) -> Map<Seq<u8>, (DataModel, Option<u64>)> {
        map_of(self.entries@)
    }

    /// The keyspace as the ordered ghost model of its entries.
    pub open spec fn model(self) -> Seq<EntryModel> {
        model_of(self.entries@)
    }

    /// An empty keyspace.
    pub fn new() -> (r: Store)
        ensures
            r.wf(),
            r.entries@.len() == 0,
            r.map_view() == Map::<Seq<u8>, (DataModel, Option<u64>)>::empty(),
    {
        Store { entries: Vec::new() }
    }

    /// Index of the first entry holding `key`, dead or alive.
    fn find_index(&self, key: &[u8]) -> (r: Option<usize>)
        ensures
            match r {
                Some(i) => i < self.entries@.len() && self.entries@[i as int].0@ == key@ && (
                forall|j: int| 0 <= j < i ==> (#[trigger] self.entries@[j]).0@ != key@),
                None => !has_key(self.entries@, key@),
            },
    {
        let mut i: usize = 0;
        while i < self.entries.len()
            invariant
                i <= self.entries@.len(),
                forall|j: int| 0 <= j < i ==> (#[trigger] self.entries@[j]).0@ != key@,
            decreases self.entries@.len() - i,
        {
            if bytes_eq(self.entries[i].0.as_slice(), key) {
                return Some(i);
            }
            i += 1;
        }
        None
    }

    /// Stores `value` under `key`, replacing whatever was there and
    /// clearing any deadline.
    pub fn set(&mut self, key: Vec<u8>, value: DataType)
        requires
            old(self).wf(),
        ensures
            final (self).wf(),
            final (self).map_view() == old(self).map_view().insert(
                key@,
                (value.model(), None::<u64>),
            ),
            final (self).model() == model_put(old(self).model(), key@, value.model(), None),
    {
        self.set_value(key, StoreValue::new(value));
    }

    /// Stores `value` under `key` with a deadline of `expires_at`
    /// milliseconds, replacing whatever was there.
    pub fn set_with_expiration(&mut self, key: Vec<u8>, value: DataType, expires_at: u64)
        requires
            old(self).wf(),
        ensures
            final (self).wf(),
            final (self).map_view() == old(self).map_view().insert(
                key@,
                (value.model(), Some(expires_at)),
            ),
            final (self).model() == model_put(
                old(self).model(),
                key@,
                value.model(),
                Some(expires_at),
            ),
    {
        self.set_value(key, StoreValue::new_with_expiration(value, expires_at));
    }

    fn set_value(&mut self, key: Vec<u8>, value: StoreValue)
        requires
            old(self).wf(),
        ensures
            final (self).wf(),
            final (self).map_view() == old(self).map_view().insert(
                key@,
                (value.data.model(), value.expires_at),
            ),
            final (self).model() == model_put(
                old(self).model(),
                key@,
                value.data.model(),
                value.expires_at,
            ),
    {
        let ghost old_entries = self.entries@;
        let ghost old_model = model_of(old_entries);
        match self.find_index(key.as_slice()) {
            Some(i) => {
                proof {
                    lemma_map_of_update(old_entries, i as int, (key, value));
                    assert forall|j: int| 0 <= j < i implies (#[trigger] old_model[j]).0 != key@
                    by {
                        assert(old_model[j].0 == old_entries[j].0@);
                    }
                    lemma_key_index_is(old_model, key@, i as int);
                }
                self.entries.set(i, (key, value));
                proof {
                    assert forall|a: int, b: int|
                        0 <= a < b < self.entries@.len() implies (#[trigger] self.entries@[a]).0@
                        != (#[trigger] self.entries@[b]).0@ by {
                        assert(old_entries[a].0@ != old_entries[b].0@);
                    }
                    assert(model_of(self.entries@) =~= old_model.update(
                        i as int,
                        (key@, value.data.model(), value.expires_at),
                    ));
                }
            },
            None => {
                proof {
                    assert forall|j: int|
                        0 <= j < old_model.len() implies (#[trigger] old_model[j]).0 != key@ by {
                        assert(old_model[j].0 == old_entries[j].0@);
                    }
                    lemma_key_index_none(old_model, key@);
                }
                self.entries.push((key, value));
                proof {
                    assert(self.entries@.drop_last() =~= old_entries);
                    assert forall|a: int, b: int|
                        0 <= a < b < self.entries@.len() implies (#[trigger] self.entries@[a]).0@
                        != (#[trigger] self.entries@[b]).0@ by {
                        if b == self.entries@.len() - 1 {
                            assert(self.entries@[a] == old_entries[a]);
                            assert(!has_key(old_entries, key@));
                        } else {
                            assert(old_entries[a].0@ != old_entries[b].0@);
                        }
                    }
                    assert(model_of(self.entries@) =~= old_model.push(
                        (key@, value.data.model(), value.expires_at),
                    ));
                }
            },
        }
    }

    /// Stores `value` under `key` with the given optional deadline,
    /// replacing whatever was there.
    pub fn put(&mut self, key: Vec<u8>, value: DataType, expires_at: Option<u64>)
        requires
            old(self).wf(),
        ensures
            final (self).wf(),
            final (self).map_view() == old(self).map_view().insert(
                key@,
                (value.model(), expires_at),
            ),
            final (self).model() == model_put(old(self).model(), key@, value.model(), expires_at),
    {
        self.set_value(key, StoreValue { data: value, expires_at });
    }

    /// The datum under `key` if it is present and alive at `now`.
    pub fn get(&self, key: &[u8], now: u64) -> (r: Option<DataType>)
        requires
            self.wf(),
        ensures
            match r {
                Some(d) => live_get(self.map_view(), key@, now) == Some(d.model()),
                None => live_get(self.map_view(), key@, now) is None,
            },
    {
        match self.find_index(key) {
            None => {
                proof {
                    lemma_map_of_contains(self.entries@, key@);
                }
                None
            },
            Some(i) => {
                proof {
                    lemma_map_of_find(self.entries@, i as int);
                }
                let entry = &self.entries[i];
                if entry.1.is_expired(now) {
                    None
                } else {
                    Some(duplicate_data(&entry.1.data))
                }
            },
        }
    }

    /// Removes `key` outright, dead or alive; reports whether a live entry
    /// was there, since an expired one is indistinguishable from an absent
    /// one to every caller.
    pub fn delete(&mut self, key: &[u8], now: u64) -> (r: bool)
        requires
            old(self).wf(),
        ensures
            final (self).wf(),
            final (self).map_view() == old(self).map_view().remove(key@),
            r == (live_get(old(self).map_view(), key@, now) is Some),
    {
        let ghost old_entries = self.entries@;
        proof {
            lemma_map_of_contains(old_entries, key@);
        }
        match self.find_index(key) {
            None => {
                proof {
                    assert(final (self).map_view() =~= old(self).map_view().remove(key@));
                }
                false
            },
            Some(i) => {
                proof {
                    lemma_map_of_find(old_entries, i as int);
                    lemma_map_of_remove(old_entries, i as int);
                }
                let was_live = !self.entries[i].1.is_expired(now);
                self.entries.remove(i);
                proof {
                    assert forall|a: int, b: int|
                        0 <= a < b < self.entries@.len() implies (#[trigger] self.entries@[a]).0@
                        != (#[trigger] self.entries@[b]).0@ by {
                        let sa = if a < i as int {
                            a
                        } else {
                            a + 1
                        };
                        let sb = if b < i as int {
                            b
                        } else {
                            b + 1
                        };
                        assert(self.entries@[a] == old_entries[sa]);
                        assert(self.entries@[b] == old_entries[sb]);
                        assert(old_entries[sa].0@ != old_entries[sb].0@);
                    }
                }
                was_live
            },
        }
    }

    /// Whether `key` is present and alive at `now`.
    pub fn key_exists(&self, key: &[u8], now: u64) -> (r: bool)
        requires
            self.wf(),
        ensures
            r == (live_get(self.map_view(), key@, now) is Some),
    {
        match self.find_index(key) {
            None => {
                proof {
                    lemma_map_of_contains(self.entries@, key@);
                }
                false
            },
            Some(i) => {
                proof {
                    lemma_map_of_find(self.entries@, i as int);
                }
                !self.entries[i].1.is_expired(now)
            },
        }
    }

    /// Drops every entry whose deadline has passed; reports how many went.
    pub fn cleanup_expired(&mut self, now: u64) -> (r: usize)
        requires
            old(self).wf(),
        ensures
            final (self).wf(),
            final (self).entries@ == live_entries(old(self).entries@, now),
            r == old(self).entries@.len() - final (self).entries@.len(),
    {
        let ghost old_entries = self.entries@;
        let original_len = self.entries.len();
        let mut i: usize = 0;
        let mut processed: usize = 0;
        let mut dropped: usize = 0;
        while i < self.entries.len()
            invariant
                old(self).wf(),
                old_entries.len() == original_len,
                processed <= original_len,
                i == live_entries(old_entries.take(processed as int), now).len(),
                i + dropped == processed,
                self.entries@ == live_entries(old_entries.take(processed as int), now)
                    + old_entries.skip(processed as int),
            decreases old_entries.len() - processed,
        {
            let ghost live_part = live_entries(old_entries.take(processed as int), now);
            proof {
                assert(self.entries@[i as int] == old_entries[processed as int]);
                assert(old_entries.take(processed as int + 1).drop_last() =~= old_entries.take(
                    processed as int,
                ));
                assert(old_entries.take(processed as int + 1).last()
                    == old_entries[processed as int]);
            }
            proof {
                assert(self.entries@.len() == i + (old_entries.len() - processed));
                assert(processed < old_entries.len());
            }
            if self.entries[i].1.is_expired(now) {
                self.entries.remove(i);
                dropped += 1;
                proof {
                    assert(self.entries@ =~= live_entries(
                        old_entries.take(processed as int + 1),
                        now,
                    ) + old_entries.skip(processed as int + 1));
                }
            } else {
                i += 1;
                proof {
                    assert(self.entries@ =~= live_entries(
                        old_entries.take(processed as int + 1),
                        now,
                    ) + old_entries.skip(processed as int + 1));
                }
            }
            processed += 1;
        }
        proof {
            assert(old_entries.take(old_entries.len() as int) =~= old_entries);
            assert(old_entries.skip(old_entries.len() as int) =~= Seq::<Entry>::empty());
            assert(self.entries@ =~= live_entries(old_entries, now));
            lemma_live_entries_distinct(old_entries, now);
        }
        dropped
    }

    /// How many entries are alive at `now`.
    pub fn len(&self, now: u64) -> (r: usize)
        requires
            self.wf(),
        ensures
            r == live_entries(self.entries@, now).len(),
    {
        let mut count: usize = 0;
        let mut i: usize = 0;
        while i < self.entries.len()
            invariant
                i <= self.entries@.len(),
                count == live_entries(self.entries@.take(i as int), now).len(),
                count <= i,
            decreases self.entries@.len() - i,
        {
            proof {
                assert(self.entries@.take(i as int + 1).drop_last() =~= self.entries@.take(
                    i as int,
                ));
                assert(self.entries@.take(i as int + 1).last() == self.entries@[i as int]);
            }
            if !self.entries[i].1.is_expired(now) {
                count += 1;
            }
            i += 1;
        }
        proof {
            assert(self.entries@.take(self.entries@.len() as int) =~= self.entries@);
        }
        count
    }

    /// Whether nothing is alive at `now`.
    pub fn is_empty(&self, now: u64) -> (r: bool)
        requires
            self.wf(),
        ensures
            r == (live_entries(self.entries@, now).len() == 0),
    {
        self.len(now) == 0
    }

    /// Drops everything.
    pub fn clear(&mut self)
        ensures
            final (self).wf(),
            final (self).entries@.len() == 0,
            final (self).map_view() == Map::<Seq<u8>, (DataModel, Option<u64>)>::empty(),
    {
        self.entries.clear();
    }

    /// The keys alive at `now` that match the glob `pattern`, in order.
    pub fn keys(&self, pattern: &[u8], now: u64) -> (r: Vec<Vec<u8>>)
        requires
            self.wf(),
        ensures
            r.deep_view() == matching_keys(self.entries@, pattern@, now),
            r.deep_view() == matching_keys_m(self.model(), pattern@, now),
    {
        proof {
            lemma_matching_model(self.entries@, pattern@, now);
        }
        let mut out: Vec<Vec<u8>> = Vec::new();
        let mut i: usize = 0;
        while i < self.entries.len()
            invariant
                i <= self.entries@.len(),
                out.deep_view() == matching_keys(self.entries@.take(i as int), pattern@, now),
            decreases self.entries@.len() - i,
        {
            proof {
                assert(self.entries@.take(i as int + 1).drop_last() =~= self.entries@.take(
                    i as int,
                ));
                assert(self.entries@.take(i as int + 1).last() == self.entries@[i as int]);
            }
            let e = &self.entries[i];
            if !e.1.is_expired(now) && is_match(e.0.as_slice(), pattern) {
                let key_copy = copy_range(e.0.as_slice(), 0, e.0.len());
                proof {
                    assert(key_copy.deep_view() =~= self.entries@[i as int].0@);
                }
                out.push(key_copy);
                proof {
                    assert(out.deep_view() =~~= matching_keys(
                        self.entries@.take(i as int + 1),
                        pattern@,
                        now,
                    ));
                }
            }
            i += 1;
        }
        proof {
            assert(self.entries@.take(self.entries@.len() as int) =~= self.entries@);
        }
        out
    }

    /// Stores string bytes under `key`, clearing any deadline.
    pub fn set_string(&mut self, key: Vec<u8>, value: Vec<u8>)
        requires
            old(self).wf(),
        ensures
            final (self).wf(),
            final (self).map_view() == old(self).map_view().insert(
                key@,
                (DataModel::Str(value@), None::<u64>),
            ),
            final (self).model() == model_put(
                old(self).model(),
                key@,
                DataModel::Str(value@),
                None,
            ),
    {
        self.set(key, DataType::String(value));
    }

    /// Stores string bytes under `key` with a deadline of `expires_at`.
    pub fn set_string_with_expiration(&mut self, key: Vec<u8>, value: Vec<u8>, expires_at: u64)
        requires
            old(self).wf(),
        ensures
            final (self).wf(),
            final (self).map_view() == old(self).map_view().insert(
                key@,
                (DataModel::Str(value@), Some(expires_at)),
            ),
            final (self).model() == model_put(
                old(self).model(),
                key@,
                DataModel::Str(value@),
                Some(expires_at),
            ),
    {
        self.set_with_expiration(key, DataType::String(value), expires_at);
    }

    /// The string bytes under `key`, if a live string is there.
    pub fn get_string(&self, key: &[u8], now: u64) -> (r: Option<Vec<u8>>)
        requires
            self.wf(),
        ensures
            match r {
                Some(v) => string_get(self.map_view(), key@, now) == Some(v@),
                None => string_get(self.map_view(), key@, now) is None,
            },
    {
        match self.get(key, now) {
            Some(DataType::String(v)) => Some(v),
            _ => None,
        }
    }

    /// Appends `value` at the right end of the list under `key`, replacing
    /// a live string and reviving an expired entry as a fresh list.
    /// Reports the new list length.
    pub fn rpush(&mut self, key: Vec<u8>, value: Vec<u8>, now: u64) -> (r: usize)
        requires
            old(self).wf(),
        ensures
            final (self).wf(),
            final (self).map_view() == rpush_result(old(self).map_view(), key@, value@, now).0,
            r == rpush_result(old(self).map_view(), key@, value@, now).1,
            final (self).model() == rpush_model(old(self).model(), key@, value@, now).0,
            r == rpush_model(old(self).model(), key@, value@, now).1,
    {
        let ghost old_entries = self.entries@;
        proof {
            lemma_model_map(old_entries);
        }
        match self.find_index(key.as_slice()) {
            None => {
                proof {
                    lemma_map_of_contains(old_entries, key@);
                }
                let mut fresh: Vec<Vec<u8>> = Vec::new();
                fresh.push(value);
                proof {
                    assert(fresh.deep_view() =~~= seq![value@]);
                }
                self.set_value(key, StoreValue::new(DataType::List(fresh)));
                1
            },
            Some(i) => {
                proof {
                    lemma_map_of_find(old_entries, i as int);
                }
                if self.entries[i].1.is_expired(now) {
                    let mut fresh: Vec<Vec<u8>> = Vec::new();
                    fresh.push(value);
                    proof {
                        assert(fresh.deep_view() =~~= seq![value@]);
                    }
                    self.set_value(key, StoreValue::new(DataType::List(fresh)));
                    1
                } else {
                    let deadline = self.entries[i].1.expires_at;
                    match duplicate_data(&self.entries[i].1.data) {
                        DataType::String(_) => {
                            let mut fresh: Vec<Vec<u8>> = Vec::new();
                            fresh.push(value);
                            proof {
                                assert(fresh.deep_view() =~~= seq![value@]);
                            }
                            self.set_value(
                                key,
                                StoreValue { data: DataType::List(fresh), expires_at: deadline },
                            );
                            1
                        },
                        DataType::List(copied) => {
                            let ghost old_list = copied.deep_view();
                            let mut grown = copied;
                            grown.push(value);
                            proof {
                                assert(grown.deep_view() =~~= old_list.push(value@));
                            }
                            let n = grown.len();
                            self.set_value(
                                key,
                                StoreValue { data: DataType::List(grown), expires_at: deadline },
                            );
                            n
                        },
                    }
                }
            },
        }
    }

    /// Takes the last element of the live list under `key`, if any.
    pub fn rpop(&mut self, key: &[u8], now: u64) -> (r: Option<Vec<u8>>)
        requires
            old(self).wf(),
        ensures
            final (self).wf(),
            final (self).map_view() == rpop_result(old(self).map_view(), key@, now).0,
            match r {
                Some(v) => rpop_result(old(self).map_view(), key@, now).1 == Some(v@),
                None => rpop_result(old(self).map_view(), key@, now).1 is None,
            },
            final (self).model() == rpop_model(old(self).model(), key@, now).0,
    {
        let ghost old_entries = self.entries@;
        let ghost old_map = self.map_view();
        proof {
            lemma_model_map(old_entries);
        }
        let ghost rr = rpop_result(self.map_view(), key@, now);
        match self.find_index(key) {
            None => {
                proof {
                    lemma_map_of_contains(old_entries, key@);
                }
                None
            },
            Some(i) => {
                proof {
                    lemma_map_of_find(old_entries, i as int);
                }
                if self.entries[i].1.is_expired(now) {
                    return None;
                }
                let deadline = self.entries[i].1.expires_at;
                match duplicate_data(&self.entries[i].1.data) {
                    DataType::String(_) => None,
                    DataType::List(copied) => {
                        let ghost old_list = copied.deep_view();
                        proof {
                            assert(live_get(old_map, key@, now) == Some(
                                DataModel::List(old_list),
                            ));
                        }
                        let mut shrunk = copied;
                        match shrunk.pop() {
                            None => None,
                            Some(popped) => {
                                proof {
                                    assert(shrunk.deep_view() =~= old_list.drop_last());
                                    assert(popped.deep_view() =~= old_list.last());
                                    assert(rr.0 == old_map.insert(
                                        key@,
                                        (DataModel::List(old_list.drop_last()), old_map[key@].1),
                                    ));
                                    assert(rr.1 == Some(old_list.last()));
                                }
                                let key_copy = copy_range(key, 0, key.len());
                                proof {
                                    assert(key_copy@ =~= key@);
                                }
                                self.set_value(
                                    key_copy,
                                    StoreValue {
                                        data: DataType::List(shrunk),
                                        expires_at: deadline,
                                    },
                                );
                                proof {
                                    assert(self.map_view() == old_map.insert(
                                        key@,
                                        (DataModel::List(shrunk.deep_view()), deadline),
                                    ));
                                    assert(DataModel::List(shrunk.deep_view())
                                        == DataModel::List(old_list.drop_last()));
                                    assert(deadline == old_map[key@].1);
                                    assert(self.map_view() == rr.0);
                                }
                                Some(popped)
                            },
                        }
                    },
                }
            },
        }
    }

    /// The length of the live list under `key`, else zero.
    pub fn llen(&self, key: &[u8], now: u64) -> (r: usize)
        requires
            self.wf(),
        ensures
            r == llen_spec(self.map_view(), key@, now),
    {
        match self.get(key, now) {
            Some(DataType::List(l)) => l.len(),
            _ => 0,
        }
    }

    /// The inclusive slice `start..=stop` of the live list under `key`,
    /// with negative indices counted from the end and crossed bounds giving
    /// an empty answer.
    pub fn lrange(&self, key: &[u8], start: i64, stop: i64, now: u64) -> (r: Vec<Vec<u8>>)
        requires
            self.wf(),
        ensures
            r.deep_view() == (match live_get(self.map_view(), key@, now) {
                Some(DataModel::List(l)) => lrange_spec(l, start as int, stop as int),
                _ => Seq::<Seq<u8>>::empty(),
            }),
    {
        match self.get(key, now) {
            Some(DataType::List(l)) => {
                let ghost lm = l.deep_view();
                let len128 = l.len() as i128;
                let s128: i128 = if (start as i128) < 0 {
                    if len128 + (start as i128) > 0 {
                        len128 + (start as i128)
                    } else {
                        0
                    }
                } else if (start as i128) < len128 {
                    start as i128
                } else {
                    len128
                };
                let e128: i128 = if (stop as i128) < 0 {
                    if len128 + (stop as i128) > -1 {
                        len128 + (stop as i128)
                    } else {
                        -1
                    }
                } else if (stop as i128) < len128 - 1 {
                    stop as i128
                } else {
                    len128 - 1
                };
                if s128 > e128 || s128 >= len128 {
                    let empty: Vec<Vec<u8>> = Vec::new();
                    proof {
                        assert(empty.deep_view() =~= Seq::<Seq<u8>>::empty());
                    }
                    empty
                } else {
                    let from = s128 as usize;
                    let until = (e128 + 1) as usize;
                    let mut out: Vec<Vec<u8>> = Vec::new();
                    let mut k = from;
                    while k < until
                        invariant
                            from <= k <= until <= l@.len(),
                            out@.len() == k - from,
                            forall|j: int|
                                0 <= j < k - from ==> (#[trigger] out@[j])@ == l@[from + j]@,
                        decreases until - k,
                    {
                        let item = duplicate_bytes(&l[k]);
                        out.push(item);
                        k += 1;
                    }
                    proof {
                        let expected = lrange_spec(lm, start as int, stop as int);
                        assert(expected == lm.subrange(s128 as int, e128 + 1));
                        assert(out.deep_view().len() == expected.len());
                        assert forall|j: int|
                            0 <= j < expected.len() implies out.deep_view()[j] == expected[j] by {
                            assert(out.deep_view()[j] == out@[j].deep_view());
                            assert(out@[j].deep_view() =~= out@[j]@);
                            assert(expected[j] == lm[s128 as int + j]);
                            assert(lm[s128 as int + j] == l@[s128 as int + j].deep_view());
                            assert(l@[s128 as int + j].deep_view() =~= l@[s128 as int + j]@);
                        }
                        assert(out.deep_view() =~= expected);
                    }
                    out
                }
            },
            _ => {
                let empty: Vec<Vec<u8>> = Vec::new();
                proof {
                    assert(empty.deep_view() =~= Seq::<Seq<u8>>::empty());
                }
                empty
            },
        }
    }
}

/// Whether two byte strings hold the same bytes.
pub fn bytes_eq(a: &[u8], b: &[u8]) -> (r: bool)
    ensures
        r == (a@ == b@),
{
    if a.len() != b.len() {
        return false;
    }
    let mut i: usize = 0;
    while i < a.len()
        invariant
            a@.len() == b@.len(),
            i <= a@.len(),
            forall|j: int| 0 <= j < i ==> a@[j] == b@[j],
        decreases a@.len() - i,
    {
        if a[i] != b[i] {
            return false;
        }
        i += 1;
    }
    proof {
        assert(a@ =~= b@);
    }
    true
}

/// A fresh value holding the same bytes.
pub fn duplicate_bytes(v: &Vec<u8>) -> (r: Vec<u8>)
    ensures
        r@ == v@,
{
    copy_range(v.as_slice(), 0, v.len())
}

/// A fresh datum with the same model.
pub fn duplicate_data(d: &DataType) -> (r: DataType)
    ensures
        r.model() == d.model(),
{
    match d {
        DataType::String(v) => DataType::String(duplicate_bytes(v)),
        DataType::List(l) => {
            let mut out: Vec<Vec<u8>> = Vec::new();
            let mut i: usize = 0;
            while i < l.len()
                invariant
                    i <= l@.len(),
                    out@.len() == i,
                    forall|j: int| 0 <= j < i ==> (#[trigger] out@[j])@ == l@[j]@,
                decreases l@.len() - i,
            {
                let item = duplicate_bytes(&l[i]);
                out.push(item);
                i += 1;
            }
            proof {
                assert(out.deep_view().len() == l.deep_view().len());
                assert forall|j: int|
                    0 <= j < l@.len() implies out.deep_view()[j] == l.deep_view()[j] by {
                    assert(out.deep_view()[j] == out@[j].deep_view());
                    assert(l.deep_view()[j] == l@[j].deep_view());
                    assert(out@[j].deep_view() =~= out@[j]@);
                    assert(l@[j].deep_view() =~= l@[j]@);
                }
                assert(out.deep_view() =~= l.deep_view());
            }
            DataType::List(out)
        },
    }
}

// ---------------------------------------------------------------------------
// Laws of the keyspace.
// ---------------------------------------------------------------------------
/// Expiry: a key written with deadline `d` reads back before `d` and is
/// absent from `d` on; writing without a deadline clears any earlier one,
/// so the value then reads back at every time.
pub proof fn lemma_ttl_correctness(
    m: Map<Seq<u8>, (DataModel, Option<u64>)>,
    k: Seq<u8>,
    v: Seq<u8>,
    deadline: u64,
    before: u64,
    after: u64,
    anytime: u64,
)
    requires
        before < deadline,
        after >= deadline,
    ensures
        string_get(m.insert(k, (DataModel::Str(v), Some(deadline))), k, before) == Some(v),
        string_get(m.insert(k, (DataModel::Str(v), Some(deadline))), k, after) is None,
        string_get(m.insert(k, (DataModel::Str(v), None)), k, anytime) == Some(v),
{
}

/// Type discipline: after a push onto a key holding a live string, a string
/// read sees nothing and a list read sees exactly the pushed element; after
/// a plain write onto any key, a list read counts zero and a string read
/// sees the written value.
pub proof fn lemma_type_discipline(
    m: Map<Seq<u8>, (DataModel, Option<u64>)>,
    k: Seq<u8>,
    v: Seq<u8>,
    w: Seq<u8>,
    now: u64,
)
    ensures
        (live_get(m, k, now) matches Some(d) && d is Str) ==> string_get(
            rpush_result(m, k, w, now).0,
            k,
            now,
        ) is None,
        (live_get(m, k, now) matches Some(d) && d is Str) ==> live_get(
            rpush_result(m, k, w, now).0,
            k,
            now,
        ) == Some(DataModel::List(seq![w])),
        llen_spec(m.insert(k, (DataModel::Str(v), None)), k, now) == 0,
        string_get(m.insert(k, (DataModel::Str(v), None)), k, now) == Some(v),
{
}

} // verus!
