//! A key-value store in memory, with iterators over ranges of its keys.
use crate::backend::{BackendError, BackendErrorView, BackendResult, GasInfo};
use crate::bytes::{
    key_before, lemma_lex_asymmetric, lemma_lex_irreflexive, lemma_lex_total, lemma_lex_transitive,
    lex_lt, same_bytes,
};
use std::collections::HashMap;
use vstd::prelude::*;
use vstd::slice::slice_to_vec;

verus! {

broadcast use vstd::std_specs::hash::group_hash_axioms;

/// Gas for the step of an iterator that finds nothing more.
pub const GAS_COST_LAST_ITERATION: u64 = 37;

/// Gas for opening an iterator.
pub const GAS_COST_RANGE: u64 = 11;

/// A key with its value.
pub type Record = (Vec<u8>, Vec<u8>);

/// A key with its value, as sequences of bytes.
pub type Entry = (Seq<u8>, Seq<u8>);

/// The direction in which a range of keys is walked.
#[derive(Clone, Copy, Debug, PartialEq, Eq, Structural)]
pub enum Order {
    Ascending,
    Descending,
}

/// One end of a range of keys.
#[derive(Clone, Copy, Debug, PartialEq, Eq)]
pub enum Bound<'a> {
    Unbounded,
    Included(&'a [u8]),
    Excluded(&'a [u8]),
}

pub open spec fn entry(r: Record) -> Entry {
    (r.0@, r.1@)
}

pub open spec fn entries(s: Seq<Record>) -> Seq<Entry> {
    s.map_values(|r: Record| entry(r))
}

/// Whether `s` has an entry under `key`.
pub open spec fn has_key(s: Seq<Entry>, key: Seq<u8>) -> bool {
    exists|i: int| 0 <= i < s.len() && #[trigger] s[i].0 == key
}

/// A place of `key` in `s`.
pub open spec fn place_of(s: Seq<Entry>, key: Seq<u8>) -> int {
    choose|i: int| 0 <= i < s.len() && #[trigger] s[i].0 == key
}

/// The keys of `s` with their values.
pub open spec fn entry_map(s: Seq<Entry>) -> Map<Seq<u8>, Seq<u8>> {
    Map::new(|key: Seq<u8>| has_key(s, key), |key: Seq<u8>| s[place_of(s, key)].1)
}

/// The keys of `s` grow strictly from one entry to the next.
pub open spec fn ascending(s: Seq<Entry>) -> bool {
    forall|i: int, j: int| 0 <= i < j < s.len() ==> lex_lt(#[trigger] s[i].0, #[trigger] s[j].0)
}

/// `key` is not before `start` and is before `end`; an end that is left out does not bind.
pub open spec fn in_bounds(key: Seq<u8>, start: Option<Seq<u8>>, end: Option<Seq<u8>>) -> bool {
    &&& start matches Some(s) ==> !lex_lt(key, s)
    &&& end matches Some(e) ==> lex_lt(key, e)
}

/// `s` lists the entries of `data` with a key in bounds, each once, keys growing.
pub open spec fn is_range(
    data: Map<Seq<u8>, Seq<u8>>,
    start: Option<Seq<u8>>,
    end: Option<Seq<u8>>,
    s: Seq<Entry>,
) -> bool {
    &&& ascending(s)
    &&& forall|i: int|
        0 <= i < s.len() ==> {
            &&& data.contains_key(#[trigger] s[i].0)
            &&& data[s[i].0] == s[i].1
            &&& in_bounds(s[i].0, start, end)
        }
    &&& forall|key: Seq<u8>| #[trigger]
        data.contains_key(key) && in_bounds(key, start, end) ==> has_key(s, key)
}

/// `s` lists the entries of `data` with a key in bounds, in the order asked for.
pub open spec fn is_scan(
    data: Map<Seq<u8>, Seq<u8>>,
    start: Option<Seq<u8>>,
    end: Option<Seq<u8>>,
    order: Order,
    s: Seq<Entry>,
) -> bool {
    match order {
        Order::Ascending => is_range(data, start, end, s),
        Order::Descending => is_range(data, start, end, s.reverse()),
    }
}

/// The number of bytes of a key and its value together.
pub open spec fn entry_size(e: Entry) -> nat {
    e.0.len() + e.1.len()
}

/// The number of bytes of all keys and values of `s` together.
pub open spec fn total_size(s: Seq<Entry>) -> nat
    decreases s.len(),
{
    if s.len() == 0 {
        0
    } else {
        entry_size(s[0]) + total_size(s.skip(1))
    }
}

pub open spec fn opt_bytes(b: Option<&[u8]>) -> Option<Seq<u8>> {
    match b {
        Some(s) => Some(s@),
        None => None,
    }
}

pub open spec fn opt_vec(v: Option<Vec<u8>>) -> Option<Seq<u8>> {
    match v {
        Some(x) => Some(x@),
        None => None,
    }
}

/// What a store holds: its data, and for each iterator the entries that it still has to give.
#[verifier::ext_equal]
pub struct StorageView {
    pub data: Map<Seq<u8>, Seq<u8>>,
    pub iterators: Map<u32, Seq<Entry>>,
}

impl StorageView {
    pub open spec fn empty() -> Self {
        StorageView { data: Map::empty(), iterators: Map::empty() }
    }

    pub open spec fn get(self, key: Seq<u8>) -> Option<Seq<u8>> {
        if self.data.contains_key(key) {
            Some(self.data[key])
        } else {
            None
        }
    }

    pub open spec fn set(self, key: Seq<u8>, value: Seq<u8>) -> Self {
        StorageView { data: self.data.insert(key, value), iterators: self.iterators }
    }

    pub open spec fn remove(self, key: Seq<u8>) -> Self {
        StorageView { data: self.data.remove(key), iterators: self.iterators }
    }

    /// The iterator `id` has `rest` still to give.
    pub open spec fn with_iterator(self, id: u32, rest: Seq<Entry>) -> Self {
        StorageView { data: self.data, iterators: self.iterators.insert(id, rest) }
    }
}

/// What a step of an iterator gives, and what it leaves.
pub struct Step {
    pub item: Option<Entry>,
    pub cost: nat,
    pub externally_used: nat,
    pub after: StorageView,
}

/// What all the steps of an iterator give together, and what they leave.
pub struct Walk {
    pub items: Seq<Entry>,
    pub cost: nat,
    pub externally_used: nat,
    pub after: StorageView,
}

impl StorageView {
    /// The next step of the iterator `id`.
    pub open spec fn stepped(self, id: u32) -> Step {
        let rest = self.iterators[id];
        if rest.len() == 0 {
            Step {
                item: None,
                cost: 0,
                externally_used: GAS_COST_LAST_ITERATION as nat,
                after: self,
            }
        } else {
            Step {
                item: Some(rest[0]),
                cost: entry_size(rest[0]),
                externally_used: 0,
                after: self.with_iterator(id, rest.skip(1)),
            }
        }
    }

    /// The steps of the iterator `id` up to the one that finds nothing more.
    pub open spec fn walked(self, id: u32) -> Walk
        decreases self.iterators[id].len(),
    {
        let step = self.stepped(id);
        match step.item {
            None => Walk {
                items: Seq::empty(),
                cost: step.cost,
                externally_used: step.externally_used,
                after: step.after,
            },
            Some(e) => {
                let more = step.after.walked(id);
                Walk {
                    items: seq![e] + more.items,
                    cost: step.cost + more.cost,
                    externally_used: step.externally_used + more.externally_used,
                    after: more.after,
                }
            },
        }
    }

    /// The iterators are numbered from 1 on without a gap.
    pub open spec fn numbered(self) -> bool {
        &&& self.iterators.dom().finite()
        &&& forall|id: u32| #[trigger]
            self.iterators.contains_key(id) <==> 1 <= id <= self.iterators.len()
    }
}

/// A call of a store that can change it.
pub enum StoreCall {
    Put { key: Seq<u8>, value: Seq<u8> },
    Remove { key: Seq<u8> },
    /// With what the range lists.
    Scan { listing: Seq<Entry> },
    Next { id: u32 },
    All { id: u32 },
}

impl StoreCall {
    /// The call is not for the iterator `id`.
    pub open spec fn spares(self, id: u32) -> bool {
        match self {
            StoreCall::Next { id: other } => other != id,
            StoreCall::All { id: other } => other != id,
            _ => true,
        }
    }
}

impl StorageView {
    /// The store after a call.
    pub open spec fn called(self, call: StoreCall) -> StorageView {
        match call {
            StoreCall::Put { key, value } => self.set(key, value),
            StoreCall::Remove { key } => self.remove(key),
            StoreCall::Scan { listing } => self.with_iterator(
                (self.iterators.len() + 1) as u32,
                listing,
            ),
            StoreCall::Next { id } => if self.iterators.contains_key(id) {
                self.stepped(id).after
            } else {
                self
            },
            StoreCall::All { id } => if self.iterators.contains_key(id) {
                self.with_iterator(id, Seq::empty())
            } else {
                self
            },
        }
    }

    /// The store after some calls.
    pub open spec fn called_all(self, calls: Seq<StoreCall>) -> StorageView
        decreases calls.len(),
    {
        if calls.len() == 0 {
            self
        } else {
            self.called_all(calls.drop_last()).called(calls.last())
        }
    }
}

/// How many of the calls open an iterator.
pub open spec fn scans(calls: Seq<StoreCall>) -> nat
    decreases calls.len(),
{
    if calls.len() == 0 {
        0
    } else {
        scans(calls.drop_last()) + if calls.last() is Scan {
            1nat
        } else {
            0nat
        }
    }
}

pub open spec fn opt_entry(item: Option<Record>) -> Option<Entry> {
    match item {
        Some(r) => Some(entry(r)),
        None => None,
    }
}

#[derive(Debug, Clone)]
struct Iter {
    data: Vec<Record>,
    position: usize,
}

impl Iter {
    closed spec fn rest(self) -> Seq<Entry> {
        entries(self.data@).skip(self.position as int)
    }

    closed spec fn wf(self) -> bool {
        &&& self.position <= self.data.len()
        &&& forall|i: int| 0 <= i < self.data.len() ==> fits(#[trigger] self.data@[i])
    }
}

/// The size of a record fits in a machine word.
spec fn fits(r: Record) -> bool {
    r.0.len() + r.1.len() <= usize::MAX
}

/// A key-value store with iterators.
#[derive(Debug)]
pub struct MockStorage {
    // keys grow strictly
    data: Vec<Record>,
    // numbered from 1 on
    iterators: HashMap<u32, Iter>,
}

impl View for MockStorage {
    type V = StorageView;

    closed spec fn view(&self) -> StorageView {
        StorageView {
            data: entry_map(entries(self.data@)),
            iterators: self.iterators@.map_values(|it: Iter| it.rest()),
        }
    }
}

impl MockStorage {
    pub closed spec fn wf(self) -> bool {
        &&& ascending(entries(self.data@))
        &&& forall|i: int| 0 <= i < self.data.len() ==> fits(#[trigger] self.data@[i])
        &&& forall|id: u32| #[trigger]
            self.iterators@.contains_key(id) <==> 1 <= id <= self.iterators@.len()
        &&& forall|id: u32| #[trigger]
            self.iterators@.contains_key(id) ==> self.iterators@[id].wf()
    }
}

/// The ends of the range from `start`, which belongs to it, up to `end`, which does not.
pub fn range_bounds<'a>(start: Option<&'a [u8]>, end: Option<&'a [u8]>) -> (r: (
    Bound<'a>,
    Bound<'a>,
))
    ensures
        r.0 == match start {
            Some(x) => Bound::Included(x),
            None => Bound::Unbounded,
        },
        r.1 == match end {
            Some(x) => Bound::Excluded(x),
            None => Bound::Unbounded,
        },
{
    (
        match start {
            Some(x) => Bound::Included(x),
            None => Bound::Unbounded,
        },
        match end {
            Some(x) => Bound::Excluded(x),
            None => Bound::Unbounded,
        },
    )
}

/// A copy of a key and its value.
pub fn clone_item(item: &Record) -> (r: Record)
    ensures
        entry(r) == entry(*item),
{
    (slice_to_vec(item.0.as_slice()), slice_to_vec(item.1.as_slice()))
}

/// The number of entries whose key comes before `key`.
fn lower_bound(data: &Vec<Record>, key: &[u8]) -> (r: usize)
    requires
        ascending(entries(data@)),
    ensures
        r <= data.len(),
        forall|i: int| 0 <= i < r ==> lex_lt(#[trigger] entries(data@)[i].0, key@),
        forall|i: int| r <= i < data.len() ==> !lex_lt(#[trigger] entries(data@)[i].0, key@),
{
    let ghost s = entries(data@);
    let mut lo: usize = 0;
    let mut hi: usize = data.len();
    while lo < hi
        invariant
            lo <= hi <= data.len(),
            s == entries(data@),
            ascending(s),
            forall|i: int| 0 <= i < lo ==> lex_lt(#[trigger] s[i].0, key@),
            forall|i: int| hi <= i < s.len() ==> !lex_lt(#[trigger] s[i].0, key@),
        decreases hi - lo,
    {
        let mid: usize = lo + (hi - lo) / 2;
        let before = key_before(data[mid].0.as_slice(), key);
        assert(s[mid as int].0 == data@[mid as int].0@);
        if before {
            assert forall|i: int| 0 <= i < mid + 1 implies lex_lt(#[trigger] s[i].0, key@) by {
                if i < mid {
                    lemma_lex_transitive(s[i].0, s[mid as int].0, key@);
                }
            }
            lo = mid + 1;
        } else {
            assert forall|i: int| mid <= i < s.len() implies !lex_lt(#[trigger] s[i].0, key@) by {
                if i > mid && lex_lt(s[i].0, key@) {
                    lemma_lex_transitive(s[mid as int].0, s[i].0, key@);
                }
            }
            hi = mid;
        }
    }
    lo
}

/// In a sequence with growing keys an entry is found under its key.
proof fn lemma_entry_found(s: Seq<Entry>, i: int)
    requires
        ascending(s),
        0 <= i < s.len(),
    ensures
        entry_map(s).contains_key(s[i].0),
        entry_map(s)[s[i].0] == s[i].1,
{
    assert(has_key(s, s[i].0));
    let p = place_of(s, s[i].0);
    assert(0 <= p < s.len() && s[p].0 == s[i].0);
    lemma_lex_irreflexive(s[i].0);
    if p < i {
        assert(lex_lt(s[p].0, s[i].0));
    } else if i < p {
        assert(lex_lt(s[i].0, s[p].0));
    }
}

/// Where the place of `key` in `data` is, if it has one.
fn find(data: &Vec<Record>, key: &[u8]) -> (r: (usize, bool))
    requires
        ascending(entries(data@)),
    ensures
        r.0 <= data.len(),
        forall|i: int| 0 <= i < r.0 ==> lex_lt(#[trigger] entries(data@)[i].0, key@),
        r.1 ==> r.0 < data.len() && entries(data@)[r.0 as int].0 == key@,
        r.1 ==> forall|i: int|
            r.0 < i < data.len() ==> lex_lt(key@, #[trigger] entries(data@)[i].0),
        !r.1 ==> forall|i: int|
            r.0 <= i < data.len() ==> lex_lt(key@, #[trigger] entries(data@)[i].0),
        r.1 == entry_map(entries(data@)).contains_key(key@),
{
    let ghost s = entries(data@);
    let at = lower_bound(data, key);
    let found = at < data.len() && same_bytes(data[at].0.as_slice(), key);
    proof {
        if found {
            assert(s[at as int].0 == key@);
            assert(has_key(s, key@));
        } else {
            assert forall|i: int| at <= i < s.len() implies lex_lt(key@, #[trigger] s[i].0) by {
                lemma_lex_total(s[i].0, key@);
                if s[i].0 == key@ {
                    lemma_lex_total(s[at as int].0, key@);
                    assert(s[at as int].0 == data@[at as int].0@);
                    if at < i {
                        assert(lex_lt(s[at as int].0, s[i].0));
                    }
                }
            }
            assert forall|i: int| 0 <= i < s.len() implies #[trigger] s[i].0 != key@ by {
                lemma_lex_irreflexive(key@);
            }
            assert(!has_key(s, key@));
        }
    }
    (at, found)
}

/// A map is that of a sequence with growing keys if it has the sequence's entries and no others.
proof fn lemma_map_of(s: Seq<Entry>, m: Map<Seq<u8>, Seq<u8>>)
    requires
        ascending(s),
        forall|i: int|
            0 <= i < s.len() ==> m.contains_key(#[trigger] s[i].0) && m[s[i].0] == s[i].1,
        forall|key: Seq<u8>| #[trigger] m.contains_key(key) ==> has_key(s, key),
    ensures
        entry_map(s) == m,
{
    assert forall|key: Seq<u8>| #[trigger] entry_map(s).contains_key(key) implies m.contains_key(
        key,
    ) && m[key] == entry_map(s)[key] by {
        let p = place_of(s, key);
        assert(s[p].0 == key);
        lemma_entry_found(s, p);
    }
    assert(entry_map(s) =~= m);
}

proof fn lemma_update_at(s: Seq<Entry>, at: int, value: Seq<u8>)
    requires
        ascending(s),
        0 <= at < s.len(),
    ensures
        ascending(s.update(at, (s[at].0, value))),
        entry_map(s.update(at, (s[at].0, value))) == entry_map(s).insert(s[at].0, value),
{
    let key = s[at].0;
    let t = s.update(at, (key, value));
    let m = entry_map(s).insert(key, value);
    assert forall|i: int, j: int| 0 <= i < j < t.len() implies lex_lt(
        #[trigger] t[i].0,
        #[trigger] t[j].0,
    ) by {
        assert(lex_lt(s[i].0, s[j].0));
    }
    assert forall|i: int| 0 <= i < t.len() implies m.contains_key(#[trigger] t[i].0) && m[t[i].0]
        == t[i].1 by {
        lemma_entry_found(s, i);
        lemma_lex_irreflexive(key);
        if i < at {
            assert(lex_lt(s[i].0, s[at].0));
        } else if at < i {
            assert(lex_lt(s[at].0, s[i].0));
        }
    }
    assert forall|k: Seq<u8>| #[trigger] m.contains_key(k) implies has_key(t, k) by {
        if k == key {
            assert(t[at].0 == k);
        } else {
            let p = place_of(s, k);
            assert(s[p].0 == k);
            assert(t[p].0 == k);
        }
    }
    lemma_map_of(t, m);
}

proof fn lemma_insert_at(s: Seq<Entry>, at: int, e: Entry)
    requires
        ascending(s),
        0 <= at <= s.len(),
        forall|i: int| 0 <= i < at ==> lex_lt(#[trigger] s[i].0, e.0),
        forall|i: int| at <= i < s.len() ==> lex_lt(e.0, #[trigger] s[i].0),
    ensures
        ascending(s.insert(at, e)),
        entry_map(s.insert(at, e)) == entry_map(s).insert(e.0, e.1),
{
    let t = s.insert(at, e);
    let m = entry_map(s).insert(e.0, e.1);
    assert forall|i: int, j: int| 0 <= i < j < t.len() implies lex_lt(
        #[trigger] t[i].0,
        #[trigger] t[j].0,
    ) by {
        let i0 = if i < at { i } else { i - 1 };
        let j0 = if j < at { j } else { j - 1 };
        if i != at {
            assert(t[i] == s[i0]);
        }
        if j != at {
            assert(t[j] == s[j0]);
        }
        if i != at && j != at {
            assert(lex_lt(s[i0].0, s[j0].0));
        }
    }
    assert forall|i: int| 0 <= i < t.len() implies m.contains_key(#[trigger] t[i].0) && m[t[i].0]
        == t[i].1 by {
        if i != at {
            let i0 = if i < at { i } else { i - 1 };
            assert(t[i] == s[i0]);
            lemma_entry_found(s, i0);
            lemma_lex_irreflexive(e.0);
        }
    }
    assert forall|k: Seq<u8>| #[trigger] m.contains_key(k) implies has_key(t, k) by {
        if k == e.0 {
            assert(t[at].0 == k);
        } else {
            let p = place_of(s, k);
            assert(s[p].0 == k);
            assert(t[if p < at { p } else { p + 1 }].0 == k);
        }
    }
    lemma_map_of(t, m);
}

proof fn lemma_remove_at(s: Seq<Entry>, at: int)
    requires
        ascending(s),
        0 <= at < s.len(),
    ensures
        ascending(s.remove(at)),
        entry_map(s.remove(at)) == entry_map(s).remove(s[at].0),
{
    let t = s.remove(at);
    let key = s[at].0;
    let m = entry_map(s).remove(key);
    assert forall|i: int, j: int| 0 <= i < j < t.len() implies lex_lt(
        #[trigger] t[i].0,
        #[trigger] t[j].0,
    ) by {
        let i0 = if i < at { i } else { i + 1 };
        let j0 = if j < at { j } else { j + 1 };
        assert(t[i] == s[i0] && t[j] == s[j0]);
        assert(lex_lt(s[i0].0, s[j0].0));
    }
    assert forall|i: int| 0 <= i < t.len() implies m.contains_key(#[trigger] t[i].0) && m[t[i].0]
        == t[i].1 by {
        let i0 = if i < at { i } else { i + 1 };
        assert(t[i] == s[i0]);
        lemma_entry_found(s, i0);
        lemma_lex_irreflexive(key);
        if i0 < at {
            assert(lex_lt(s[i0].0, s[at].0));
        } else {
            assert(lex_lt(s[at].0, s[i0].0));
        }
    }
    assert forall|k: Seq<u8>| #[trigger] m.contains_key(k) implies has_key(t, k) by {
        let p = place_of(s, k);
        assert(s[p].0 == k);
        assert(t[if p < at { p } else { p - 1 }].0 == k);
    }
    lemma_map_of(t, m);
}

/// The entries from `lo` up to `hi` are the range that these places stand for.
proof fn lemma_window(s: Seq<Entry>, lo: int, hi: int, start: Option<Seq<u8>>, end: Option<Seq<u8>>)
    requires
        ascending(s),
        0 <= lo <= hi <= s.len(),
        forall|i: int| lo <= i < hi ==> in_bounds(#[trigger] s[i].0, start, end),
        forall|i: int|
            0 <= i < s.len() && !(lo <= i < hi) ==> !in_bounds(#[trigger] s[i].0, start, end),
    ensures
        is_range(entry_map(s), start, end, s.subrange(lo, hi)),
{
    let t = s.subrange(lo, hi);
    let m = entry_map(s);
    assert forall|i: int, j: int| 0 <= i < j < t.len() implies lex_lt(
        #[trigger] t[i].0,
        #[trigger] t[j].0,
    ) by {
        assert(lex_lt(s[lo + i].0, s[lo + j].0));
    }
    assert forall|i: int| 0 <= i < t.len() implies {
        &&& m.contains_key(#[trigger] t[i].0)
        &&& m[t[i].0] == t[i].1
        &&& in_bounds(t[i].0, start, end)
    } by {
        assert(t[i] == s[lo + i]);
        lemma_entry_found(s, lo + i);
    }
    assert forall|k: Seq<u8>| #[trigger] m.contains_key(k) && in_bounds(
        k,
        start,
        end,
    ) implies has_key(t, k) by {
        let p = place_of(s, k);
        assert(s[p].0 == k);
        assert(t[p - lo].0 == k);
    }
}

/// The first and the last place, exclusive, of the keys in bounds.
fn window(data: &Vec<Record>, start: Bound, end: Bound) -> (r: (usize, usize))
    requires
        ascending(entries(data@)),
        !(start is Excluded),
        !(end is Included),
    ensures
        r.0 <= r.1 <= data.len(),
        ({
            let s = match start {
                Bound::Included(b) => Some(b@),
                _ => None::<Seq<u8>>,
            };
            let e = match end {
                Bound::Excluded(b) => Some(b@),
                _ => None::<Seq<u8>>,
            };
            is_range(
                entry_map(entries(data@)),
                s,
                e,
                entries(data@).subrange(r.0 as int, r.1 as int),
            )
        }),
{
    let lo: usize = match start {
        Bound::Included(b) => lower_bound(data, b),
        _ => 0,
    };
    let hi: usize = match end {
        Bound::Excluded(b) => lower_bound(data, b),
        _ => data.len(),
    };
    let hi: usize = if hi < lo {
        lo
    } else {
        hi
    };
    proof {
        let s = match start {
            Bound::Included(b) => Some(b@),
            _ => None::<Seq<u8>>,
        };
        let e = match end {
            Bound::Excluded(b) => Some(b@),
            _ => None::<Seq<u8>>,
        };
        lemma_window(entries(data@), lo as int, hi as int, s, e);
    }
    (lo, hi)
}

/// A copy of the records from `lo` up to `hi`, in the order asked for.
fn copy_window(data: &Vec<Record>, lo: usize, hi: usize, order: Order) -> (r: Vec<Record>)
    requires
        lo <= hi <= data.len(),
    ensures
        r.len() == hi - lo,
        forall|j: int|
            0 <= j < r.len() ==> entry(#[trigger] r@[j]) == (match order {
                Order::Ascending => entry(data@[lo + j]),
                Order::Descending => entry(data@[hi - 1 - j]),
            }),
        order is Ascending ==> entries(r@) == entries(data@).subrange(lo as int, hi as int),
        order is Descending ==> entries(r@).reverse() == entries(data@).subrange(
            lo as int,
            hi as int,
        ),
{
    let n: usize = hi - lo;
    let mut out: Vec<Record> = Vec::new();
    let mut i: usize = 0;
    while i < n
        invariant
            n == hi - lo,
            lo <= hi <= data.len(),
            i <= n,
            out.len() == i,
            forall|j: int|
                0 <= j < i ==> entry(#[trigger] out@[j]) == (match order {
                    Order::Ascending => entry(data@[lo + j]),
                    Order::Descending => entry(data@[hi - 1 - j]),
                }),
        decreases n - i,
    {
        let at: usize = match order {
            Order::Ascending => lo + i,
            Order::Descending => hi - 1 - i,
        };
        out.push(clone_item(&data[at]));
        i += 1;
    }
    proof {
        let w = entries(data@).subrange(lo as int, hi as int);
        match order {
            Order::Ascending => {
                assert(entries(out@) =~= w);
            },
            Order::Descending => {
                assert(entries(out@).reverse() =~= w);
            },
        }
    }
    out
}

/// A part at the end is not larger than the whole.
proof fn lemma_total_of_tail(s: Seq<Entry>, n: int)
    requires
        0 <= n <= s.len(),
    ensures
        total_size(s.skip(n)) <= total_size(s),
    decreases n,
{
    if n == 0 {
        assert(s.skip(0) =~= s);
    } else {
        lemma_total_of_tail(s.skip(1), n - 1);
        assert(s.skip(1).skip(n - 1) =~= s.skip(n));
    }
}

impl Default for MockStorage {
    fn default() -> (r: Self)
        ensures
            r.wf(),
            r@ == StorageView::empty(),
    {
        MockStorage::new()
    }
}

impl MockStorage {
    /// An empty store.
    pub fn new() -> (r: Self)
        ensures
            r.wf(),
            r@ == StorageView::empty(),
    {
        let r = MockStorage { data: Vec::new(), iterators: HashMap::new() };
        proof {
            assert(entries(r.data@).len() == 0);
            assert(r@.data =~= Map::empty());
            assert(r@.iterators =~= Map::empty());
        }
        r
    }

    /// The value under `key`; the gas is the length of the key.
    pub fn get(&self, key: &[u8]) -> (r: BackendResult<Option<Vec<u8>>>)
        requires
            self.wf(),
        ensures
            r.0 matches Ok(v) && opt_vec(v) == self@.get(key@),
            match r.0 {
                Ok(Some(v)) => self@.data.contains_key(key@) && v@ == self@.data[key@],
                Ok(None) => !self@.data.contains_key(key@),
                Err(_) => false,
            },
            r.1 == (GasInfo { cost: 0, externally_used: key.len() as u64 }),
    {
        let gas_info = GasInfo::with_externally_used(key.len() as u64);
        let (at, found) = find(&self.data, key);
        if found {
            proof {
                lemma_entry_found(entries(self.data@), at as int);
            }
            (Ok(Some(slice_to_vec(self.data[at].1.as_slice()))), gas_info)
        } else {
            (Ok(None), gas_info)
        }
    }

    /// Puts `value` under `key`, in place of what was there. The gas is the length of both.
    pub fn set(&mut self, key: &[u8], value: &[u8]) -> (r: BackendResult<()>)
        requires
            old(self).wf(),
            key.len() + value.len() <= usize::MAX,
        ensures
            final(self).wf(),
            final(self)@ == old(self)@.set(key@, value@),
            r.0 is Ok,
            r.1 == (GasInfo { cost: 0, externally_used: (key.len() + value.len()) as u64 }),
    {
        let (at, found) = find(&self.data, key);
        let item: Record = (slice_to_vec(key), slice_to_vec(value));
        if found {
            self.data.set(at, item);
            proof {
                let s = entries(old(self).data@);
                lemma_update_at(s, at as int, value@);
                assert(entries(self.data@) =~= s.update(at as int, (s[at as int].0, value@)));
            }
        } else {
            self.data.insert(at, item);
            proof {
                let s = entries(old(self).data@);
                lemma_insert_at(s, at as int, (key@, value@));
                assert(entries(self.data@) =~= s.insert(at as int, (key@, value@)));
            }
        }
        let gas_info = GasInfo::with_externally_used((key.len() + value.len()) as u64);
        (Ok(()), gas_info)
    }

    /// Takes `key` and its value out, if they are there. The gas is the length of the key.
    pub fn remove(&mut self, key: &[u8]) -> (r: BackendResult<()>)
        requires
            old(self).wf(),
        ensures
            final(self).wf(),
            final(self)@ == old(self)@.remove(key@),
            r.0 is Ok,
            r.1 == (GasInfo { cost: 0, externally_used: key.len() as u64 }),
    {
        let (at, found) = find(&self.data, key);
        if found {
            self.data.remove(at);
            proof {
                let s = entries(old(self).data@);
                lemma_remove_at(s, at as int);
                assert(entries(self.data@) =~= s.remove(at as int));
            }
        } else {
            assert(old(self)@.data.remove(key@) =~= old(self)@.data);
        }
        let gas_info = GasInfo::with_externally_used(key.len() as u64);
        (Ok(()), gas_info)
    }

    /// The number of iterators that were opened.
    pub fn iterator_count(&self) -> (r: usize)
        ensures
            r == self@.iterators.len(),
    {
        assert(self@.iterators.dom() =~= self.iterators@.dom());
        self.iterators.len()
    }

    /// Opens an iterator over the entries from `start` up to `end`, as they are now. Its number
    /// is one more than the number of iterators opened before.
    pub fn scan(&mut self, start: Option<&[u8]>, end: Option<&[u8]>, order: Order) -> (r:
        BackendResult<u32>)
        requires
            old(self).wf(),
            old(self)@.iterators.len() < u32::MAX,
        ensures
            final(self).wf(),
            r.0 matches Ok(id) && {
                &&& id == old(self)@.iterators.len() + 1
                &&& !old(self)@.iterators.contains_key(id)
                &&& is_scan(
                    old(self)@.data,
                    opt_bytes(start),
                    opt_bytes(end),
                    order,
                    final(self)@.iterators[id],
                )
                &&& final(self)@ == old(self)@.with_iterator(id, final(self)@.iterators[id])
            },
            r.1 == (GasInfo { cost: 0, externally_used: GAS_COST_RANGE }),
    {
        let gas_info = GasInfo::with_externally_used(GAS_COST_RANGE);
        let (from, to) = range_bounds(start, end);
        let (lo, hi) = window(&self.data, from, to);
        let values = copy_window(&self.data, lo, hi, order);
        assert(old(self)@.iterators.dom() =~= old(self).iterators@.dom());
        let last_id: u32 = self.iterators.len() as u32;
        let new_id: u32 = last_id + 1;
        let iter = Iter { data: values, position: 0 };
        proof {
            assert(iter.rest() =~= entries(values@));
            assert forall|i: int| 0 <= i < values.len() implies fits(#[trigger] values@[i]) by {
                match order {
                    Order::Ascending => {
                        assert(fits(self.data@[lo + i]));
                    },
                    Order::Descending => {
                        assert(fits(self.data@[hi - 1 - i]));
                    },
                }
            }
        }
        self.iterators.insert(new_id, iter);
        assert(self@.iterators =~= old(self)@.iterators.insert(new_id, entries(values@)));
        (Ok(new_id), gas_info)
    }

    /// The next entry of the iterator `iterator_id`. The gas is the length of the entry.
    pub fn next(&mut self, iterator_id: u32) -> (r: BackendResult<Option<Record>>)
        requires
            old(self).wf(),
        ensures
            final(self).wf(),
            !old(self)@.iterators.contains_key(iterator_id) ==> {
                &&& r.0 matches Err(e) && e@ == (BackendErrorView::IteratorDoesNotExist {
                    id: iterator_id,
                })
                &&& r.1 == (GasInfo { cost: 0, externally_used: 0 })
                &&& final(self)@ == old(self)@
            },
            old(self)@.iterators.contains_key(iterator_id) ==> {
                let step = old(self)@.stepped(iterator_id);
                &&& r.0 matches Ok(item) && opt_entry(item) == step.item
                &&& r.0 matches Ok(None) ==> old(self)@.iterators[iterator_id].len() == 0
                &&& r.0 matches Ok(Some(item)) ==> {
                    &&& old(self)@.iterators[iterator_id].len() > 0
                    &&& item.0@ == old(self)@.iterators[iterator_id][0].0
                    &&& item.1@ == old(self)@.iterators[iterator_id][0].1
                }
                &&& r.1.cost == step.cost
                &&& r.1.externally_used == step.externally_used
                &&& final(self)@ == step.after
            },
    {
        let mut iterator = match self.iterators.remove(&iterator_id) {
            Some(i) => i,
            None => {
                assert(self@.iterators =~= old(self)@.iterators);
                return (Err(BackendError::iterator_does_not_exist(iterator_id)), GasInfo::free());
            },
        };
        let ghost rest = iterator.rest();
        assert(old(self)@.iterators =~= old(self)@.iterators.insert(iterator_id, rest));
        assert(old(self)@.iterators[iterator_id] == rest);
        let (value, gas_info): (Option<Record>, GasInfo) = if iterator.data.len()
            > iterator.position {
            let item = clone_item(&iterator.data[iterator.position]);
            assert(rest[0] == entry(iterator.data@[iterator.position as int]));
            iterator.position = iterator.position + 1;
            let gas_cost = (item.0.len() + item.1.len()) as u64;
            assert(iterator.rest() =~= rest.skip(1));
            (Some(item), GasInfo::with_cost(gas_cost))
        } else {
            (None, GasInfo::with_externally_used(GAS_COST_LAST_ITERATION))
        };
        self.iterators.insert(iterator_id, iterator);
        proof {
            assert(self.iterators@.dom() =~= old(self).iterators@.dom());
            assert(self@.iterators =~= old(self)@.iterators.insert(
                iterator_id,
                iterator.rest(),
            ));
        }
        (Ok(value), gas_info)
    }

    /// The gas that [`MockStorage::all`] would charge for the entries of the iterator
    /// `iterator_id`, if it can be counted.
    pub fn cost_of_rest(&self, iterator_id: u32) -> (r: Option<u64>)
        requires
            self.wf(),
        ensures
            !self@.iterators.contains_key(iterator_id) ==> r == Some(0u64),
            self@.iterators.contains_key(iterator_id) ==> {
                let total = total_size(self@.iterators[iterator_id]);
                match r {
                    Some(cost) => cost == total,
                    None => total > u64::MAX,
                }
            },
    {
        let iterator = match self.iterators.get(&iterator_id) {
            Some(i) => i,
            None => {
                return Some(0);
            },
        };
        let ghost s = entries(iterator.data@);
        let ghost rest = iterator.rest();
        assert(self@.iterators[iterator_id] == rest);
        let mut total: u64 = 0;
        let mut i: usize = iterator.data.len();
        assert(s.skip(i as int) =~= Seq::empty());
        while i > iterator.position
            invariant
                iterator.wf(),
                s == entries(iterator.data@),
                rest == s.skip(iterator.position as int),
                iterator.position <= i <= iterator.data.len(),
                total == total_size(s.skip(i as int)),
                self@.iterators.contains_key(iterator_id),
                self@.iterators[iterator_id] == rest,
            decreases i,
        {
            i = i - 1;
            let item = &iterator.data[i];
            let size: u64 = (item.0.len() + item.1.len()) as u64;
            proof {
                let tail = s.skip(i as int);
                assert(tail[0] == entry(iterator.data@[i as int]));
                assert(tail.skip(1) =~= s.skip(i + 1));
                assert(tail =~= rest.skip(i - iterator.position));
                lemma_total_of_tail(rest, i - iterator.position);
            }
            total = match total.checked_add(size) {
                Some(sum) => sum,
                None => {
                    return None;
                },
            };
        }
        Some(total)
    }

    /// Everything that the iterator `iterator_id` still has to give, with the gas of all steps.
    pub fn all(&mut self, iterator_id: u32) -> (r: BackendResult<Vec<Record>>)
        requires
            old(self).wf(),
            old(self)@.iterators.contains_key(iterator_id) ==> total_size(
                old(self)@.iterators[iterator_id],
            ) <= u64::MAX,
        ensures
            final(self).wf(),
            !old(self)@.iterators.contains_key(iterator_id) ==> {
                &&& r.0 matches Err(e) && e@ == (BackendErrorView::IteratorDoesNotExist {
                    id: iterator_id,
                })
                &&& r.1 == (GasInfo { cost: 0, externally_used: 0 })
                &&& final(self)@ == old(self)@
            },
            old(self)@.iterators.contains_key(iterator_id) ==> {
                let rest = old(self)@.iterators[iterator_id];
                &&& r.0 matches Ok(out) && entries(out@) == rest
                &&& r.0 matches Ok(out) && out.len() == rest.len() && forall|i: int|
                    0 <= i < rest.len() ==> (#[trigger] out@[i]).0@ == rest[i].0 && out@[i].1@
                        == rest[i].1
                &&& r.1 == (GasInfo {
                    cost: total_size(rest) as u64,
                    externally_used: GAS_COST_LAST_ITERATION,
                })
                &&& final(self)@ == old(self)@.with_iterator(iterator_id, Seq::empty())
            },
    {
        let mut out: Vec<Record> = Vec::new();
        let mut total = GasInfo::free();
        let ghost whole = old(self)@.iterators[iterator_id];
        let ghost mut rest = whole;
        proof {
            assert(entries(out@) + rest =~= whole);
            if old(self)@.iterators.contains_key(iterator_id) {
                assert(old(self)@.with_iterator(iterator_id, rest) =~= old(self)@);
            }
        }
        loop
            invariant
                self.wf(),
                old(self)@.iterators.contains_key(iterator_id) ==> {
                    &&& whole == old(self)@.iterators[iterator_id]
                    &&& total_size(whole) <= u64::MAX
                    &&& entries(out@) + rest == whole
                    &&& self@ == old(self)@.with_iterator(iterator_id, rest)
                    &&& total.cost + total_size(rest) == total_size(whole)
                },
                !old(self)@.iterators.contains_key(iterator_id) ==> {
                    &&& self@ == old(self)@
                    &&& total.cost == 0
                },
                total.externally_used == 0,
            decreases rest.len(),
        {
            let (result, info) = self.next(iterator_id);
            total.charge(info);
            match result {
                Err(err) => {
                    return (Err(err), total);
                },
                Ok(ok) => {
                    if let Some(v) = ok {
                        let ghost before = out@;
                        out.push(v);
                        proof {
                            assert(entries(out@) + rest.skip(1) =~= entries(before) + rest);
                            assert(self@ =~= old(self)@.with_iterator(iterator_id, rest.skip(1)));
                            rest = rest.skip(1);
                        }
                    } else {
                        proof {
                            assert(rest =~= Seq::empty());
                            assert(entries(out@) =~= whole);
                            assert(forall|i: int|
                                0 <= i < out.len() ==> entry(#[trigger] out@[i]) == whole[i]);
                        }
                        return (Ok(out), total);
                    }
                },
            }
        }
    }

    /// Access to the data of the store without iterators and gas.
    pub fn wrap(&mut self) -> (r: StorageWrapper<'_>)
        requires
            old(self).wf(),
        ensures
            *r.store == *old(self),
            *final(self) == *final(r.store),
    {
        StorageWrapper { store: self }
    }
}

/// A store seen as plain data.
pub struct StorageWrapper<'a> {
    pub store: &'a mut MockStorage,
}

impl<'a> View for StorageWrapper<'a> {
    type V = StorageView;

    open spec fn view(&self) -> StorageView {
        self.store@
    }
}

impl<'a> StorageWrapper<'a> {
    pub open spec fn wf(&self) -> bool {
        self.store.wf()
    }

    /// The value under `key`.
    pub fn get(&self, key: &[u8]) -> (r: Option<Vec<u8>>)
        requires
            self.wf(),
        ensures
            opt_vec(r) == self@.get(key@),
            match r {
                Some(v) => self@.data.contains_key(key@) && v@ == self@.data[key@],
                None => !self@.data.contains_key(key@),
            },
    {
        match self.store.get(key).0 {
            Ok(v) => v,
            Err(_) => None,
        }
    }

    /// Puts `value`, which must not be empty, under `key`.
    pub fn set(&mut self, key: &[u8], value: &[u8])
        requires
            old(self).wf(),
            value.len() > 0,
            key.len() + value.len() <= usize::MAX,
        ensures
            final(self).wf(),
            final(self)@ == old(self)@.set(key@, value@),
            *final(final(self).store) == *final(old(self).store),
    {
        let _ = self.store.set(key, value);
    }

    /// Takes `key` and its value out, if they are there.
    pub fn remove(&mut self, key: &[u8])
        requires
            old(self).wf(),
        ensures
            final(self).wf(),
            final(self)@ == old(self)@.remove(key@),
            *final(final(self).store) == *final(old(self).store),
    {
        let _ = self.store.remove(key);
    }

    /// The entries from `start` up to `end`, in the order asked for.
    pub fn range(&self, start: Option<&[u8]>, end: Option<&[u8]>, order: Order) -> (r: Vec<Record>)
        requires
            self.wf(),
        ensures
            is_scan(self@.data, opt_bytes(start), opt_bytes(end), order, entries(r@)),
            forall|i: int|
                0 <= i < r.len() ==> {
                    &&& self@.data.contains_key((#[trigger] r@[i]).0@)
                    &&& self@.data[r@[i].0@] == r@[i].1@
                    &&& start matches Some(b) ==> !lex_lt(r@[i].0@, b@)
                    &&& end matches Some(b) ==> lex_lt(r@[i].0@, b@)
                },
    {
        let (from, to) = range_bounds(start, end);
        let (lo, hi) = window(&self.store.data, from, to);
        let r = copy_window(&self.store.data, lo, hi, order);
        proof {
            let s = entries(r@);
            law_a_listing_is_the_range(self@.data, opt_bytes(start), opt_bytes(end), order, s);
            assert forall|i: int| 0 <= i < r.len() implies {
                &&& self@.data.contains_key((#[trigger] r@[i]).0@)
                &&& self@.data[r@[i].0@] == r@[i].1@
                &&& start matches Some(b) ==> !lex_lt(r@[i].0@, b@)
                &&& end matches Some(b) ==> lex_lt(r@[i].0@, b@)
            } by {
                assert(s[i] == entry(r@[i]));
                if let Some(b) = start {
                    lemma_lex_irreflexive(b@);
                    if lex_lt(b@, s[i].0) {
                        lemma_lex_asymmetric(b@, s[i].0);
                    }
                }
            }
        }
        r
    }
}

/// What was set is read back, and no other key is touched by it.
pub proof fn law_get_after_set(m: StorageView, key: Seq<u8>, value: Seq<u8>, other: Seq<u8>)
    ensures
        m.set(key, value).get(key) == Some(value),
        other != key ==> m.set(key, value).get(other) == m.get(other),
        m.set(key, value).data.contains_key(key),
        m.set(key, value).data[key] == value,
        other != key ==> m.set(key, value).data.contains_key(other) == m.data.contains_key(other),
        other != key && m.data.contains_key(other) ==> m.set(key, value).data[other]
            == m.data[other],
        m.get(key) is Some <==> m.data.contains_key(key),
        m.get(key) matches Some(v) ==> v == m.data[key],
{
}

/// What was removed is gone, and no other key is touched by it.
pub proof fn law_get_after_remove(m: StorageView, key: Seq<u8>, other: Seq<u8>)
    ensures
        m.remove(key).get(key) == None::<Seq<u8>>,
        other != key ==> m.remove(key).get(other) == m.get(other),
        !m.remove(key).data.contains_key(key),
        other != key ==> m.remove(key).data.contains_key(other) == m.data.contains_key(other),
        other != key && m.data.contains_key(other) ==> m.remove(key).data[other] == m.data[other],
{
}

/// A later write to the same key takes the place of an earlier one.
pub proof fn law_last_write_stays(m: StorageView, key: Seq<u8>, first: Seq<u8>, second: Seq<u8>)
    ensures
        m.set(key, first).set(key, second) == m.set(key, second),
        m.set(key, first).remove(key) == m.remove(key),
        m.remove(key).set(key, first) == m.set(key, first),
{
    assert(m.set(key, first).set(key, second) =~= m.set(key, second));
    assert(m.set(key, first).remove(key) =~= m.remove(key));
    assert(m.remove(key).set(key, first) =~= m.set(key, first));
}

/// An iterator gives what the store held when it was opened: writes do not reach it, and walking
/// it does not change the data.
pub proof fn law_iterators_are_snapshots(
    m: StorageView,
    key: Seq<u8>,
    value: Seq<u8>,
    id: u32,
    rest: Seq<Entry>,
)
    ensures
        m.set(key, value).iterators == m.iterators,
        m.remove(key).iterators == m.iterators,
        m.with_iterator(id, rest).data == m.data,
{
}

/// The iterators of a store are numbered from 1 on without a gap.
pub proof fn law_iterator_ids(store: MockStorage)
    requires
        store.wf(),
    ensures
        store@.numbered(),
{
    assert(store@.iterators.dom() =~= store.iterators@.dom());
    assert forall|id: u32| #[trigger]
        store@.iterators.contains_key(id) <==> 1 <= id <= store@.iterators.len() by {
        assert(store@.iterators.contains_key(id) == store.iterators@.contains_key(id));
    }
}

/// Taking all that an iterator has to give is taking one step after the other, up to the one that
/// finds nothing more: the same entries, the same gas, the same store. After that there is nothing
/// more to give, by steps or at once; data and other iterators are as they were.
pub proof fn law_all_is_every_step(m: StorageView, id: u32, other: u32)
    requires
        m.iterators.contains_key(id),
    ensures
        ({
            let walk = m.walked(id);
            let end = m.with_iterator(id, Seq::empty());
            &&& walk.items == m.iterators[id]
            &&& walk.cost == total_size(m.iterators[id])
            &&& walk.externally_used == GAS_COST_LAST_ITERATION
            &&& walk.after == end
            &&& end.stepped(id).item is None
            &&& end.stepped(id).after == end
            &&& end.walked(id).items == Seq::<Entry>::empty()
            &&& end.data == m.data
            &&& other != id ==> end.iterators.contains_key(other) == m.iterators.contains_key(other)
            &&& other != id && m.iterators.contains_key(other) ==> end.iterators[other]
                == m.iterators[other]
        }),
    decreases m.iterators[id].len(),
{
    let rest = m.iterators[id];
    let end = m.with_iterator(id, Seq::empty());
    reveal_with_fuel(StorageView::walked, 2);
    if rest.len() == 0 {
        assert(rest =~= Seq::empty());
        assert(m =~= end);
    } else {
        let after = m.stepped(id).after;
        law_all_is_every_step(after, id, other);
        assert(after.with_iterator(id, Seq::empty()) =~= end);
        assert(seq![rest[0]] + rest.skip(1) =~= rest);
    }
}

/// A call keeps the numbering of iterators, and only a scan opens one more.
proof fn lemma_called(m: StorageView, call: StoreCall)
    requires
        m.numbered(),
        call is Scan ==> m.iterators.len() < u32::MAX,
    ensures
        m.called(call).numbered(),
        m.called(call).iterators.len() == m.iterators.len() + if call is Scan {
            1int
        } else {
            0int
        },
{
    let next = m.called(call);
    let id: u32 = match call {
        StoreCall::Scan { .. } => (m.iterators.len() + 1) as u32,
        StoreCall::Next { id } => id,
        StoreCall::All { id } => id,
        _ => 0,
    };
    assert(m.iterators.contains_key(id) <==> 1 <= id <= m.iterators.len());
    if next.iterators != m.iterators {
        assert(next.iterators.dom() =~= m.iterators.dom().insert(id));
    }
    assert forall|k: u32| #[trigger] next.iterators.contains_key(k) <==> 1 <= k
        <= next.iterators.len() by {
        assert(m.iterators.contains_key(k) <==> 1 <= k <= m.iterators.len());
    }
}

/// An iterator gives what the store held when it was opened: whatever is written, removed, opened
/// or walked in between, its next step gives the same entry for the same gas. Only the numbers of
/// the iterators that are opened must not run out.
pub proof fn law_others_do_not_reach_an_iterator(m: StorageView, calls: Seq<StoreCall>, id: u32)
    requires
        m.numbered(),
        m.iterators.contains_key(id),
        m.iterators.len() + scans(calls) <= u32::MAX,
        forall|i: int| 0 <= i < calls.len() ==> (#[trigger] calls[i]).spares(id),
    ensures
        ({
            let later = m.called_all(calls);
            &&& later.iterators.contains_key(id)
            &&& later.iterators[id] == m.iterators[id]
            &&& later.stepped(id).item == m.stepped(id).item
            &&& later.stepped(id).cost == m.stepped(id).cost
            &&& later.stepped(id).externally_used == m.stepped(id).externally_used
            &&& later.numbered()
            &&& later.iterators.len() == m.iterators.len() + scans(calls)
        }),
    decreases calls.len(),
{
    if calls.len() > 0 {
        let before = calls.drop_last();
        assert forall|i: int| 0 <= i < before.len() implies (#[trigger] before[i]).spares(id) by {
            assert(before[i] == calls[i]);
        }
        law_others_do_not_reach_an_iterator(m, before, id);
        assert(calls.last() == calls[calls.len() - 1]);
        lemma_called(m.called_all(before), calls.last());
    }
}

/// Two listings of one range in growing order agree from their first entries on.
proof fn lemma_range_heads(
    data: Map<Seq<u8>, Seq<u8>>,
    start: Option<Seq<u8>>,
    end: Option<Seq<u8>>,
    a: Seq<Entry>,
    b: Seq<Entry>,
    n: int,
)
    requires
        is_range(data, start, end, a),
        is_range(data, start, end, b),
        0 <= n <= a.len(),
    ensures
        n <= b.len(),
        a.take(n) == b.take(n),
    decreases n,
{
    if n > 0 {
        lemma_range_heads(data, start, end, a, b, n - 1);
        let i = n - 1;
        assert(forall|j: int| 0 <= j < i ==> a.take(i)[j] == #[trigger] a[j]);
        assert(forall|j: int| 0 <= j < i ==> b.take(i)[j] == #[trigger] b[j]);
        // the next key of `a` stands in `b`, not among the first `i` places
        let key = a[i].0;
        assert(has_key(b, key));
        let p = place_of(b, key);
        assert(b[p].0 == key);
        if p < i {
            assert(a[p] == b[p]);
            assert(lex_lt(a[p].0, a[i].0));
            lemma_lex_irreflexive(key);
        }
        if p > i {
            // then the key at place `i` of `b` comes before it, and stands nowhere in `a`
            let k = b[i].0;
            assert(lex_lt(b[i].0, b[p].0));
            assert(has_key(a, k));
            let q = place_of(a, k);
            assert(a[q].0 == k);
            if q < i {
                assert(a[q] == b[q]);
                assert(lex_lt(b[q].0, b[i].0));
                lemma_lex_irreflexive(k);
            } else if q == i {
                lemma_lex_irreflexive(k);
            } else {
                assert(lex_lt(a[i].0, a[q].0));
                lemma_lex_asymmetric(k, key);
            }
        }
        assert(a[i] == b[i]);
        assert(a.take(n) =~= b.take(n));
    }
}

/// What a range asks for leaves no choice: data, bounds and order decide the listing.
pub proof fn law_scan_is_determined(
    data: Map<Seq<u8>, Seq<u8>>,
    start: Option<Seq<u8>>,
    end: Option<Seq<u8>>,
    order: Order,
    a: Seq<Entry>,
    b: Seq<Entry>,
)
    requires
        is_scan(data, start, end, order, a),
        is_scan(data, start, end, order, b),
    ensures
        a == b,
{
    let (x, y) = match order {
        Order::Ascending => (a, b),
        Order::Descending => (a.reverse(), b.reverse()),
    };
    lemma_range_heads(data, start, end, x, y, x.len() as int);
    lemma_range_heads(data, start, end, y, x, y.len() as int);
    assert(x.take(x.len() as int) =~= x);
    assert(y.take(y.len() as int) =~= y);
    if order is Descending {
        assert(a =~= a.reverse().reverse());
        assert(b =~= b.reverse().reverse());
    }
}

/// The two directions list the same entries, one backwards from the other.
pub proof fn law_directions_mirror(
    data: Map<Seq<u8>, Seq<u8>>,
    start: Option<Seq<u8>>,
    end: Option<Seq<u8>>,
    up: Seq<Entry>,
    down: Seq<Entry>,
)
    requires
        is_scan(data, start, end, Order::Ascending, up),
        is_scan(data, start, end, Order::Descending, down),
    ensures
        down == up.reverse(),
{
    law_scan_is_determined(data, start, end, Order::Ascending, up, down.reverse());
    assert(down =~= down.reverse().reverse());
}

/// A range whose start is not before its end is empty, in either direction.
pub proof fn law_crossed_bounds_are_empty(
    data: Map<Seq<u8>, Seq<u8>>,
    start: Seq<u8>,
    end: Seq<u8>,
    order: Order,
    s: Seq<Entry>,
)
    requires
        !lex_lt(start, end),
        is_scan(data, Some(start), Some(end), order, s),
    ensures
        s.len() == 0,
{
    if s.len() > 0 {
        let x = match order {
            Order::Ascending => s,
            Order::Descending => s.reverse(),
        };
        let key = x[0].0;
        assert(in_bounds(key, Some(start), Some(end)));
        lemma_lex_total(start, key);
        if start != key {
            lemma_lex_transitive(start, key, end);
        }
    }
}

/// A listing without bounds has every key of the store.
pub proof fn law_full_scan_misses_nothing(
    data: Map<Seq<u8>, Seq<u8>>,
    s: Seq<Entry>,
    key: Seq<u8>,
)
    requires
        is_scan(data, None, None, Order::Ascending, s),
    ensures
        data.contains_key(key) <==> has_key(s, key),
        entry_map(s) == data,
{
    lemma_map_of(s, data);
}

/// What the steps of iterators cost beside the bytes that they give.
pub proof fn law_gas_of_iterators()
    ensures
        GAS_COST_RANGE == 11,
        GAS_COST_LAST_ITERATION == 37,
{
}

/// Sizes count bytes: an entry has those of its key and its value, and entries together have those
/// of each.
pub proof fn law_sizes_add_up(key: Seq<u8>, value: Seq<u8>, a: Seq<Entry>, b: Seq<Entry>)
    ensures
        entry_size((key, value)) == key.len() + value.len(),
        total_size(Seq::empty()) == 0,
        total_size(seq![(key, value)]) == key.len() + value.len(),
        total_size(a + b) == total_size(a) + total_size(b),
    decreases a.len(),
{
    reveal_with_fuel(total_size, 2);
    let one = seq![(key, value)];
    assert(one.skip(1) =~= Seq::empty());
    if a.len() == 0 {
        assert(a + b =~= b);
    } else {
        law_sizes_add_up(key, value, a.skip(1), b);
        assert((a + b).skip(1) =~= a.skip(1) + b);
        assert((a + b)[0] == a[0]);
    }
}

/// Nothing is in a new store, and no iterator is open.
pub proof fn law_a_new_store_is_empty(key: Seq<u8>, id: u32)
    ensures
        StorageView::empty().get(key) == None::<Seq<u8>>,
        !StorageView::empty().iterators.contains_key(id),
{
}

/// A step gives the first entry that is left, for the bytes of its key and its value, and leaves
/// the others; where none is left it gives nothing, for a fixed price, and leaves all as it is.
pub proof fn law_a_step_takes_the_first(
    m: StorageView,
    id: u32,
    key: Seq<u8>,
    value: Seq<u8>,
    others: Seq<Entry>,
    other: u32,
)
    requires
        other != id,
    ensures
        ({
            let full = m.with_iterator(id, seq![(key, value)] + others);
            let step = full.stepped(id);
            &&& step.item == Some((key, value))
            &&& step.cost == key.len() + value.len()
            &&& step.externally_used == 0
            &&& step.after.iterators.contains_key(id)
            &&& step.after.iterators[id] == others
            &&& step.after.data == m.data
            &&& step.after.iterators.contains_key(other) == m.iterators.contains_key(other)
            &&& step.after.iterators[other] == m.iterators[other]
        }),
        ({
            let done = m.with_iterator(id, Seq::empty());
            let step = done.stepped(id);
            &&& step.item is None
            &&& step.cost == 0
            &&& step.externally_used == 37
            &&& step.after == done
        }),
{
    let rest = seq![(key, value)] + others;
    assert(rest.skip(1) =~= others);
}

/// A listing has exactly the entries whose key is not before the start and is before the end, each
/// once, with their values; going up, each key comes before the next, and going down, after it.
pub proof fn law_a_listing_is_the_range(
    data: Map<Seq<u8>, Seq<u8>>,
    start: Option<Seq<u8>>,
    end: Option<Seq<u8>>,
    order: Order,
    s: Seq<Entry>,
)
    ensures
        is_scan(data, start, end, order, s) <==> {
            &&& forall|i: int|
                #![trigger s[i]]
                0 <= i < s.len() ==> {
                    &&& data.contains_key(s[i].0)
                    &&& s[i].1 == data[s[i].0]
                    &&& start is None || s[i].0 == start->0 || lex_lt(start->0, s[i].0)
                    &&& end is None || lex_lt(s[i].0, end->0)
                }
            &&& forall|key: Seq<u8>| #[trigger]
                data.contains_key(key) && (start is None || key == start->0 || lex_lt(
                    start->0,
                    key,
                )) && (end is None || lex_lt(key, end->0)) ==> exists|i: int|
                    0 <= i < s.len() && (#[trigger] s[i]).0 == key
            &&& forall|i: int, j: int|
                #![trigger s[i], s[j]]
                0 <= i < j < s.len() ==> match order {
                    Order::Ascending => lex_lt(s[i].0, s[j].0),
                    Order::Descending => lex_lt(s[j].0, s[i].0),
                }
        },
{
    assert forall|key: Seq<u8>| #[trigger] in_bounds(key, start, end) <==> (start is None || key
        == start->0 || lex_lt(start->0, key)) && (end is None || lex_lt(key, end->0)) by {
        if let Some(b) = start {
            lemma_lex_total(b, key);
            lemma_lex_irreflexive(key);
            if lex_lt(b, key) {
                lemma_lex_asymmetric(b, key);
            }
        }
    }
    let x = match order {
        Order::Ascending => s,
        Order::Descending => s.reverse(),
    };
    let n = s.len();
    let at = |i: int| if order is Ascending { i } else { n - 1 - i };
    assert(forall|i: int| 0 <= i < n ==> x[at(i)] == #[trigger] s[i]);
    assert(forall|i: int| 0 <= i < n ==> s[at(i)] == #[trigger] x[i]);
    if is_scan(data, start, end, order, s) {
        assert forall|i: int| #![trigger s[i]] 0 <= i < n implies {
            &&& data.contains_key(s[i].0)
            &&& s[i].1 == data[s[i].0]
            &&& start is None || s[i].0 == start->0 || lex_lt(start->0, s[i].0)
            &&& end is None || lex_lt(s[i].0, end->0)
        } by {
            assert(x[at(i)].0 == s[i].0);
            assert(in_bounds(s[i].0, start, end));
        }
        assert forall|key: Seq<u8>| #[trigger]
            data.contains_key(key) && (start is None || key == start->0 || lex_lt(start->0, key))
                && (end is None || lex_lt(key, end->0)) implies exists|i: int|
            0 <= i < n && (#[trigger] s[i]).0 == key by {
            assert(in_bounds(key, start, end));
            let p = place_of(x, key);
            assert(x[p].0 == key);
            assert(s[at(p)].0 == key);
        }
        assert forall|i: int, j: int| #![trigger s[i], s[j]] 0 <= i < j < n implies match order {
            Order::Ascending => lex_lt(s[i].0, s[j].0),
            Order::Descending => lex_lt(s[j].0, s[i].0),
        } by {
            assert(x[at(i)].0 == s[i].0 && x[at(j)].0 == s[j].0);
        }
    }
    if ({
        &&& forall|i: int|
            #![trigger s[i]]
            0 <= i < s.len() ==> {
                &&& data.contains_key(s[i].0)
                &&& s[i].1 == data[s[i].0]
                &&& start is None || s[i].0 == start->0 || lex_lt(start->0, s[i].0)
                &&& end is None || lex_lt(s[i].0, end->0)
            }
        &&& forall|key: Seq<u8>| #[trigger]
            data.contains_key(key) && (start is None || key == start->0 || lex_lt(start->0, key))
                && (end is None || lex_lt(key, end->0)) ==> exists|i: int|
                0 <= i < s.len() && (#[trigger] s[i]).0 == key
        &&& forall|i: int, j: int|
            #![trigger s[i], s[j]]
            0 <= i < j < s.len() ==> match order {
                Order::Ascending => lex_lt(s[i].0, s[j].0),
                Order::Descending => lex_lt(s[j].0, s[i].0),
            }
    }) {
        assert forall|i: int, j: int| 0 <= i < j < x.len() implies lex_lt(
            #[trigger] x[i].0,
            #[trigger] x[j].0,
        ) by {
            assert(s[at(i)] == x[i] && s[at(j)] == x[j]);
        }
        assert forall|i: int| 0 <= i < x.len() implies {
            &&& data.contains_key(#[trigger] x[i].0)
            &&& data[x[i].0] == x[i].1
            &&& in_bounds(x[i].0, start, end)
        } by {
            assert(s[at(i)] == x[i]);
        }
        assert forall|key: Seq<u8>| #[trigger] data.contains_key(key) && in_bounds(
            key,
            start,
            end,
        ) implies has_key(x, key) by {
            let i = choose|i: int| 0 <= i < s.len() && (#[trigger] s[i]).0 == key;
            assert(x[at(i)].0 == key);
        }
        assert(is_range(data, start, end, x));
    }
}

/// Records, keys and values are taken as the bytes that they are.
pub proof fn law_bytes_are_taken_as_they_are(r: Record, s: Seq<Record>, b: &[u8], v: Vec<u8>)
    ensures
        entry(r) == (r.0@, r.1@),
        entries(s).len() == s.len(),
        forall|i: int|
            0 <= i < s.len() ==> (#[trigger] entries(s)[i]).0 == s[i].0@ && entries(s)[i].1
                == s[i].1@,
        opt_bytes(Some(b)) == Some(b@),
        opt_bytes(None) == None::<Seq<u8>>,
        opt_vec(Some(v)) == Some(v@),
        opt_vec(None) == None::<Seq<u8>>,
        opt_entry(Some(r)) == Some((r.0@, r.1@)),
        opt_entry(None) == None::<Entry>,
{
}

} // verus!
