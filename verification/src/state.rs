//! The format in which the data of a store is dumped to bytes.
//!
//! Four bytes of header, which nothing is read from, then for each entry one byte with the length
//! of the key, the key, two bytes with the length of the value, high byte first, and the value.
use crate::bytes::{lemma_lex_irreflexive, lex_lt};
use crate::storage::{
    entries, entry, has_key, in_bounds, is_range, place_of, Entry, Record, StorageView,
};
use vstd::prelude::*;
use vstd::slice::{slice_subrange, slice_to_vec};

verus! {

/// The length of the key and that of the value fit in the bytes that the format has for them.
pub open spec fn encodable_entry(e: Entry) -> bool {
    e.0.len() <= 255 && e.1.len() <= 65535
}

pub open spec fn encodable(s: Seq<Entry>) -> bool {
    forall|i: int| 0 <= i < s.len() ==> encodable_entry(#[trigger] s[i])
}

/// The bytes of one entry.
pub open spec fn entry_bytes(e: Entry) -> Seq<u8> {
    seq![e.0.len() as u8] + e.0 + seq![(e.1.len() / 256) as u8, (e.1.len() % 256) as u8] + e.1
}

/// The bytes of all entries, one after the other.
pub open spec fn body_bytes(s: Seq<Entry>) -> Seq<u8>
    decreases s.len(),
{
    if s.len() == 0 {
        Seq::empty()
    } else {
        entry_bytes(s[0]) + body_bytes(s.skip(1))
    }
}

/// What follows the header.
pub open spec fn after_header(state: Seq<u8>) -> Seq<u8> {
    if state.len() <= 4 {
        Seq::empty()
    } else {
        state.skip(4)
    }
}

/// `state` is a dump of the entries `s`.
pub open spec fn is_state(state: Seq<u8>, s: Seq<Entry>) -> bool {
    encodable(s) && after_header(state) == body_bytes(s)
}

/// `state` is a dump of some entries.
pub open spec fn well_formed(state: Seq<u8>) -> bool {
    exists|s: Seq<Entry>| is_state(state, s)
}

impl StorageView {
    /// The store after setting all of `s`, first to last.
    pub open spec fn set_all(self, s: Seq<Entry>) -> StorageView
        decreases s.len(),
    {
        if s.len() == 0 {
            self
        } else {
            self.set(s[0].0, s[0].1).set_all(s.skip(1))
        }
    }
}

/// The first entry and the rest can be told from the bytes.
proof fn lemma_head(s: Seq<Entry>, e: Entry, tail: Seq<u8>)
    requires
        encodable(s),
        encodable_entry(e),
        body_bytes(s) == entry_bytes(e) + tail,
    ensures
        s.len() > 0,
        s[0] == e,
        body_bytes(s.skip(1)) == tail,
{
    let whole = entry_bytes(e) + tail;
    assert(whole.len() > 0);
    assert(s.len() > 0);
    let f = s[0];
    assert(encodable_entry(f));
    let rest = body_bytes(s.skip(1));
    let n = e.0.len() as int;
    assert(entry_bytes(f)[0] == f.0.len() as u8);
    assert(entry_bytes(e)[0] == e.0.len() as u8);
    assert(whole[0] == entry_bytes(f)[0]);
    assert(whole[0] == entry_bytes(e)[0]);
    assert(f.0.len() == n);
    assert(f.0 =~= whole.subrange(1, 1 + n));
    assert(e.0 =~= whole.subrange(1, 1 + n));
    assert(whole[1 + n] == (e.1.len() / 256) as u8);
    assert(whole[1 + n] == (f.1.len() / 256) as u8);
    assert(whole[2 + n] == (e.1.len() % 256) as u8);
    assert(whole[2 + n] == (f.1.len() % 256) as u8);
    assert(f.1.len() == e.1.len());
    let m = e.1.len() as int;
    assert(f.1 =~= whole.subrange(3 + n, 3 + n + m));
    assert(e.1 =~= whole.subrange(3 + n, 3 + n + m));
    assert(rest =~= whole.skip(3 + n + m));
    assert(tail =~= whole.skip(3 + n + m));
}

proof fn lemma_body_push(s: Seq<Entry>, e: Entry)
    ensures
        body_bytes(s.push(e)) == body_bytes(s) + entry_bytes(e),
    decreases s.len(),
{
    reveal_with_fuel(body_bytes, 2);
    if s.len() == 0 {
        assert(s.push(e).skip(1) =~= Seq::empty());
        assert(body_bytes(s.push(e)) =~= body_bytes(s) + entry_bytes(e));
    } else {
        lemma_body_push(s.skip(1), e);
        assert(s.push(e).skip(1) =~= s.skip(1).push(e));
        assert(s.push(e)[0] == s[0]);
        assert(body_bytes(s.push(e)) =~= body_bytes(s) + entry_bytes(e));
    }
}

/// Entries whose bytes begin with those of `p` begin with `p`.
proof fn lemma_prefix(s: Seq<Entry>, p: Seq<Entry>, tail: Seq<u8>)
    requires
        encodable(s),
        encodable(p),
        body_bytes(s) == body_bytes(p) + tail,
    ensures
        p.len() <= s.len(),
        s.take(p.len() as int) == p,
        body_bytes(s.skip(p.len() as int)) == tail,
    decreases p.len(),
{
    if p.len() == 0 {
        assert(s.skip(0) =~= s);
        assert(s.take(0) =~= p);
        assert(tail =~= body_bytes(p) + tail);
    } else {
        let e = p[0];
        let q = p.skip(1);
        assert(body_bytes(s) =~= entry_bytes(e) + (body_bytes(q) + tail));
        lemma_head(s, e, body_bytes(q) + tail);
        assert(encodable(s.skip(1))) by {
            assert forall|i: int| 0 <= i < s.skip(1).len() implies encodable_entry(
                #[trigger] s.skip(1)[i],
            ) by {
                assert(s.skip(1)[i] == s[i + 1]);
            }
        }
        assert(encodable(q)) by {
            assert forall|i: int| 0 <= i < q.len() implies encodable_entry(#[trigger] q[i]) by {
                assert(q[i] == p[i + 1]);
            }
        }
        lemma_prefix(s.skip(1), q, tail);
        assert(s.skip(1).skip(q.len() as int) =~= s.skip(p.len() as int));
        assert forall|i: int| 0 <= i < p.len() implies s.take(p.len() as int)[i] == p[i] by {
            if i > 0 {
                assert(s.skip(1).take(q.len() as int)[i - 1] == q[i - 1]);
            }
        }
        assert(s.take(p.len() as int) =~= p);
    }
}

/// Bytes that no entry begins are no entries at all.
proof fn lemma_stuck(s: Seq<Entry>, rest: Seq<u8>)
    requires
        encodable(s),
        body_bytes(s) == rest,
        rest.len() > 0,
    ensures
        rest.len() >= 3 + rest[0],
        rest.len() >= 3 + rest[0] + 256 * rest[1 + rest[0]] + rest[2 + rest[0]],
{
    let e = s[0];
    assert(encodable_entry(e));
    let n = e.0.len() as int;
    assert(rest =~= entry_bytes(e) + body_bytes(s.skip(1)));
    assert(rest[0] == n);
    assert(rest[1 + n] == e.1.len() / 256);
    assert(rest[2 + n] == e.1.len() % 256);
}

/// The entries that `state` is a dump of, or nothing if it is none.
pub fn parse_state(state: &[u8]) -> (r: Option<Vec<Record>>)
    ensures
        match r {
            Some(v) => is_state(state@, entries(v@)),
            None => !well_formed(state@),
        },
{
    let mut out: Vec<Record> = Vec::new();
    if state.len() <= 4 {
        assert(is_state(state@, entries(out@)));
        return Some(out);
    }
    let ghost body = state@.skip(4);
    let mut ind: usize = 4;
    proof {
        assert(body_bytes(entries(out@)) + state@.skip(4) =~= body);
    }
    while ind < state.len()
        invariant
            state.len() > 4,
            4 <= ind <= state.len(),
            body == state@.skip(4),
            encodable(entries(out@)),
            body_bytes(entries(out@)) + state@.skip(ind as int) == body,
        decreases state.len() - ind,
    {
        let ghost parsed = entries(out@);
        let ghost rest = state@.skip(ind as int);
        proof {
            assert forall|s: Seq<Entry>| is_state(state@, s) implies {
                &&& rest.len() >= 3 + rest[0]
                &&& rest.len() >= 3 + rest[0] + 256 * rest[1 + rest[0]] + rest[2 + rest[0]]
            } by {
                lemma_prefix(s, parsed, rest);
                let t = s.skip(parsed.len() as int);
                assert forall|i: int| 0 <= i < t.len() implies encodable_entry(
                    #[trigger] t[i],
                ) by {
                    assert(t[i] == s[parsed.len() + i]);
                }
                lemma_stuck(t, rest);
            }
        }
        let key_length: usize = state[ind] as usize;
        let left: usize = state.len() - ind;
        if left < 3 + key_length {
            return None;
        }
        let at: usize = ind + 1 + key_length;
        let value_length: usize = (state[at] as usize) * 256 + (state[at + 1] as usize);
        assert(rest[0] == state@[ind as int]);
        assert(rest[1 + rest[0]] == state@[at as int]);
        assert(rest[2 + rest[0]] == state@[at + 1]);
        if left < 3 + key_length + value_length {
            return None;
        }
        let key = slice_subrange(state, ind + 1, at);
        let value = slice_subrange(state, at + 2, at + 2 + value_length);
        let item: Record = (slice_to_vec(key), slice_to_vec(value));
        out.push(item);
        proof {
            let e = entry(item);
            let next = at + 2 + value_length;
            assert(entries(out@) =~= parsed.push(e));
            lemma_body_push(parsed, e);
            assert(entry_bytes(e) =~= state@.subrange(ind as int, next as int));
            assert(rest =~= entry_bytes(e) + state@.skip(next as int));
            assert(body_bytes(parsed) + entry_bytes(e) + state@.skip(next as int)
                =~= body_bytes(parsed) + rest);
            assert(encodable(entries(out@))) by {
                assert forall|i: int| 0 <= i < entries(out@).len() implies encodable_entry(
                    #[trigger] entries(out@)[i],
                ) by {
                    if i < parsed.len() {
                        assert(entries(out@)[i] == parsed[i]);
                    }
                }
            }
        }
        ind = at + 2 + value_length;
    }
    assert(body_bytes(entries(out@)) =~= body);
    Some(out)
}

/// A dump can be read in one way only.
pub proof fn law_state_is_unambiguous(state: Seq<u8>, a: Seq<Entry>, b: Seq<Entry>)
    requires
        is_state(state, a),
        is_state(state, b),
    ensures
        a == b,
{
    assert(body_bytes(a) =~= body_bytes(b) + Seq::empty());
    assert(body_bytes(b) =~= body_bytes(a) + Seq::empty());
    lemma_prefix(a, b, Seq::empty());
    lemma_prefix(b, a, Seq::empty());
    assert(a.take(b.len() as int) =~= a);
}

/// Entries whose lengths fit are dumped, under any header of four bytes, by writing their bytes
/// one after the other.
pub proof fn law_dump_is_well_formed(header: Seq<u8>, s: Seq<Entry>)
    requires
        header.len() == 4,
        encodable(s),
    ensures
        is_state(header + body_bytes(s), s),
        well_formed(header + body_bytes(s)),
{
    let state = header + body_bytes(s);
    if state.len() <= 4 {
        assert(body_bytes(s) =~= Seq::empty());
    } else {
        assert(state.skip(4) =~= body_bytes(s));
    }
    assert(is_state(state, s));
}

/// Setting entries with different keys leaves the other keys as they were.
proof fn lemma_set_all(m: StorageView, s: Seq<Entry>, key: Seq<u8>)
    requires
        forall|i: int, j: int|
            0 <= i < j < s.len() ==> lex_lt(#[trigger] s[i].0, #[trigger] s[j].0),
    ensures
        m.set_all(s).iterators == m.iterators,
        m.set_all(s).data.contains_key(key) <==> m.data.contains_key(key) || has_key(s, key),
        !has_key(s, key) && m.data.contains_key(key) ==> m.set_all(s).data[key] == m.data[key],
        has_key(s, key) ==> m.set_all(s).data[key] == s[place_of(s, key)].1,
    decreases s.len(),
{
    if s.len() > 0 {
        let t = s.skip(1);
        let n = m.set(s[0].0, s[0].1);
        assert forall|i: int, j: int| 0 <= i < j < t.len() implies lex_lt(
            #[trigger] t[i].0,
            #[trigger] t[j].0,
        ) by {
            assert(t[i] == s[i + 1] && t[j] == s[j + 1]);
        }
        lemma_set_all(n, t, key);
        if has_key(s, key) {
            let p = place_of(s, key);
            assert(s[p].0 == key);
            lemma_lex_irreflexive(key);
            if p == 0 {
                if has_key(t, key) {
                    let q = place_of(t, key);
                    assert(t[q].0 == key);
                    assert(lex_lt(s[0].0, s[q + 1].0));
                }
            } else {
                assert(t[p - 1].0 == key);
                let q = place_of(t, key);
                assert(t[q].0 == key);
                if q + 1 < p {
                    assert(lex_lt(s[q + 1].0, s[p].0));
                } else if p < q + 1 {
                    assert(lex_lt(s[p].0, s[q + 1].0));
                }
                assert(s[q + 1] == t[q]);
            }
        } else {
            assert(s[0].0 != key);
            if has_key(t, key) {
                let q = place_of(t, key);
                assert(s[q + 1].0 == key);
            }
        }
    }
}

/// Loading a dump of the whole data of a store into an empty store gives that data back.
pub proof fn law_load_restores(data: Map<Seq<u8>, Seq<u8>>, s: Seq<Entry>)
    requires
        is_range(data, None, None, s),
    ensures
        StorageView::empty().set_all(s).data == data,
{
    let m = StorageView::empty().set_all(s);
    assert forall|key: Seq<u8>| #[trigger] m.data.contains_key(key) <==> data.contains_key(key) by {
        lemma_set_all(StorageView::empty(), s, key);
        if data.contains_key(key) {
            assert(in_bounds(key, None, None));
        }
        if has_key(s, key) {
            assert(s[place_of(s, key)].0 == key);
        }
    }
    assert forall|key: Seq<u8>| #[trigger] m.data.contains_key(key) implies m.data[key]
        == data[key] by {
        lemma_set_all(StorageView::empty(), s, key);
        assert(s[place_of(s, key)].0 == key);
    }
    assert(m.data =~= data);
}

/// Every list of entries with keys of at most 255 bytes and values of at most 65535 bytes has a
/// dump: a header of four bytes, then for each entry a part with the length of the key, the key,
/// the length of the value, high byte first, and the value. It is read as exactly these entries.
pub proof fn law_every_dump_is_read(header: Seq<u8>, s: Seq<Entry>, parts: Seq<Seq<u8>>)
    requires
        header.len() == 4,
        parts.len() == s.len(),
        forall|i: int|
            #![trigger s[i]]
            0 <= i < s.len() ==> s[i].0.len() <= 255 && s[i].1.len() <= 65535,
        forall|i: int|
            #![trigger parts[i]]
            0 <= i < s.len() ==> {
                let k = s[i].0.len() as int;
                &&& parts[i].len() == 3 + k + s[i].1.len()
                &&& parts[i][0] == k
                &&& parts[i].subrange(1, 1 + k) == s[i].0
                &&& 256 * parts[i][1 + k] + parts[i][2 + k] == s[i].1.len()
                &&& parts[i].skip(3 + k) == s[i].1
            },
    ensures
        is_state(header + parts.flatten(), s),
        well_formed(header + parts.flatten()),
        forall|t: Seq<Entry>| #[trigger] is_state(header + parts.flatten(), t) ==> t == s,
{
    lemma_parts(s, parts);
    assert forall|i: int| 0 <= i < s.len() implies encodable_entry(#[trigger] s[i]) by {}
    law_dump_is_well_formed(header, s);
    assert forall|t: Seq<Entry>| #[trigger] is_state(header + parts.flatten(), t) implies t
        == s by {
        law_state_is_unambiguous(header + parts.flatten(), t, s);
    }
}

proof fn lemma_parts(s: Seq<Entry>, parts: Seq<Seq<u8>>)
    requires
        parts.len() == s.len(),
        forall|i: int|
            #![trigger s[i]]
            0 <= i < s.len() ==> s[i].0.len() <= 255 && s[i].1.len() <= 65535,
        forall|i: int|
            #![trigger parts[i]]
            0 <= i < s.len() ==> {
                let k = s[i].0.len() as int;
                &&& parts[i].len() == 3 + k + s[i].1.len()
                &&& parts[i][0] == k
                &&& parts[i].subrange(1, 1 + k) == s[i].0
                &&& 256 * parts[i][1 + k] + parts[i][2 + k] == s[i].1.len()
                &&& parts[i].skip(3 + k) == s[i].1
            },
    ensures
        parts.flatten() == body_bytes(s),
    decreases s.len(),
{
    if s.len() > 0 {
        let e = s[0];
        let part = parts[0];
        let k = e.0.len() as int;
        assert(forall|j: int| 0 <= j < k ==> #[trigger] part.subrange(1, 1 + k)[j] == part[1 + j]);
        assert(forall|j: int|
            0 <= j < e.1.len() ==> #[trigger] part.skip(3 + k)[j] == part[3 + k + j]);
        assert forall|j: int| 0 <= j < part.len() implies part[j] == entry_bytes(e)[j] by {
            if 1 <= j < 1 + k {
                assert(part.subrange(1, 1 + k)[j - 1] == part[j]);
            } else if j >= 3 + k {
                assert(part.skip(3 + k)[j - 3 - k] == part[j]);
            }
        }
        assert(part =~= entry_bytes(e));
        let t = s.skip(1);
        let more = parts.drop_first();
        assert forall|i: int| #![trigger t[i]] 0 <= i < t.len() implies t[i].0.len() <= 255
            && t[i].1.len() <= 65535 by {
            assert(t[i] == s[i + 1]);
        }
        assert forall|i: int| #![trigger more[i]] 0 <= i < t.len() implies {
            let k = t[i].0.len() as int;
            &&& more[i].len() == 3 + k + t[i].1.len()
            &&& more[i][0] == k
            &&& more[i].subrange(1, 1 + k) == t[i].0
            &&& 256 * more[i][1 + k] + more[i][2 + k] == t[i].1.len()
            &&& more[i].skip(3 + k) == t[i].1
        } by {
            assert(more[i] == parts[i + 1]);
            assert(t[i] == s[i + 1]);
        }
        lemma_parts(t, more);
    }
}

/// What a dump is read as stands in it: after four bytes of header the length of the first key, the
/// key, the length of the value, high byte first, and the value; and what follows is a dump of the
/// other entries, under any header. Four bytes or less are a dump of nothing.
pub proof fn law_what_is_read_stands_in_the_dump(state: Seq<u8>, s: Seq<Entry>, header: Seq<u8>)
    requires
        is_state(state, s),
        header.len() == 4,
    ensures
        s.len() == 0 <==> state.len() <= 4,
        s.len() > 0 ==> {
            let k = s[0].0.len() as int;
            let v = s[0].1.len() as int;
            &&& k <= 255 && v <= 65535
            &&& state.len() >= 7 + k + v
            &&& state[4] == k
            &&& state.subrange(5, 5 + k) == s[0].0
            &&& 256 * state[5 + k] + state[6 + k] == v
            &&& state.subrange(7 + k, 7 + k + v) == s[0].1
            &&& is_state(header + state.skip(7 + k + v), s.skip(1))
        },
{
    if s.len() > 0 {
        let e = s[0];
        assert(encodable_entry(e));
        let k = e.0.len() as int;
        let v = e.1.len() as int;
        let body = after_header(state);
        let rest = body_bytes(s.skip(1));
        assert(body == entry_bytes(e) + rest);
        assert(body.len() > 0);
        assert(state.len() > 4);
        assert(forall|j: int| 0 <= j < body.len() ==> #[trigger] body[j] == state[4 + j]);
        assert(body[0] == k);
        assert(state[4] == body[0]);
        assert(body.subrange(1, 1 + k) =~= e.0);
        assert(state.subrange(5, 5 + k) =~= state.skip(4).subrange(1, 1 + k));
        assert(state[5 + k] == body[1 + k] && state[6 + k] == body[2 + k]);
        assert(body.subrange(3 + k, 3 + k + v) =~= e.1);
        assert(state.subrange(7 + k, 7 + k + v) =~= state.skip(4).subrange(3 + k, 3 + k + v));
        assert(body.skip(3 + k + v) =~= rest);
        assert(state.skip(7 + k + v) =~= state.skip(4).skip(3 + k + v));
        let t = s.skip(1);
        assert forall|i: int| 0 <= i < t.len() implies encodable_entry(#[trigger] t[i]) by {
            assert(t[i] == s[i + 1]);
        }
        law_dump_is_well_formed(header, t);
    } else if state.len() > 4 {
        assert(after_header(state).len() == state.len() - 4);
    }
}

/// Entries are set first to last: after loading, a key has the value of its last entry, and a key
/// without an entry is as it was.
pub proof fn law_load_sets_first_to_last(m: StorageView, s: Seq<Entry>, key: Seq<u8>, value: Seq<u8>)
    ensures
        m.set_all(Seq::empty()) == m,
        m.set_all(s.push((key, value))) == m.set_all(s).set(key, value),
        m.set_all(s).iterators == m.iterators,
        m.set_all(s.push((key, value))).get(key) == Some(value),
        (forall|i: int| 0 <= i < s.len() ==> (#[trigger] s[i]).0 != key) ==> m.set_all(s).get(key)
            == m.get(key),
    decreases s.len(),
{
    reveal_with_fuel(StorageView::set_all, 2);
    if s.len() == 0 {
        assert(s.push((key, value)).skip(1) =~= Seq::empty());
    } else {
        let n = m.set(s[0].0, s[0].1);
        let t = s.skip(1);
        law_load_sets_first_to_last(n, t, key, value);
        assert(s.push((key, value)).skip(1) =~= t.push((key, value)));
        assert(s.push((key, value))[0] == s[0]);
        if forall|i: int| 0 <= i < s.len() ==> (#[trigger] s[i]).0 != key {
            assert forall|i: int| 0 <= i < t.len() implies (#[trigger] t[i]).0 != key by {
                assert(t[i] == s[i + 1]);
            }
        }
    }
}

} // verus!
