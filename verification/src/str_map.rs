//! Association lists (keys pairwise distinct, insertion order kept) and a string-keyed
//! map built on them. The map stands where a `BTreeMap<String, V>` or a `HashMap<String, V>`
//! holds a keyed table; [`StrMap::into_sorted`] puts its entries in ascending key order.
use vstd::prelude::*;

use crate::text::{chars_lt, chars_of, lemma_lex_order, lex_lt, str_eq};

verus! {

/// The value stored under `key` in an association list, if any (the first match).
pub open spec fn assoc_get<K, V>(entries: Seq<(K, V)>, key: K) -> Option<V>
    decreases entries.len(),
{
    if entries.len() == 0 {
        None
    } else if entries[0].0 == key {
        Some(entries[0].1)
    } else {
        assoc_get(entries.drop_first(), key)
    }
}

/// The keys of an association list are pairwise distinct.
pub open spec fn distinct_keys<K, V>(entries: Seq<(K, V)>) -> bool {
    forall|i: int, j: int|
        0 <= i < j < entries.len() ==> (#[trigger] entries[i]).0 != (#[trigger] entries[j]).0
}

/// The index of the entry keyed `key`, or -1.
pub open spec fn assoc_index<K, V>(entries: Seq<(K, V)>, key: K) -> int
    decreases entries.len(),
{
    if entries.len() == 0 {
        -1
    } else if entries[0].0 == key {
        0
    } else {
        let k = assoc_index(entries.drop_first(), key);
        if k == -1 {
            -1
        } else {
            k + 1
        }
    }
}

/// The association list after storing `value` under `key`: the entry's value replaced
/// when the key is present, a new last entry otherwise.
pub open spec fn assoc_insert<K, V>(entries: Seq<(K, V)>, key: K, value: V) -> Seq<(K, V)> {
    let i = assoc_index(entries, key);
    if i == -1 {
        entries.push((key, value))
    } else {
        entries.update(i, (key, value))
    }
}

/// Relates `assoc_index` and `assoc_get`: the first entry with that key.
pub proof fn lemma_assoc_index<K, V>(entries: Seq<(K, V)>, key: K)
    ensures
        assoc_index(entries, key) == -1 <==> forall|j: int|
            0 <= j < entries.len() ==> (#[trigger] entries[j]).0 != key,
        assoc_index(entries, key) == -1 ==> assoc_get(entries, key) is None,
        assoc_index(entries, key) != -1 ==> {
            let i = assoc_index(entries, key);
            &&& 0 <= i < entries.len()
            &&& entries[i].0 == key
            &&& assoc_get(entries, key) == Some(entries[i].1)
            &&& forall|j: int| 0 <= j < i ==> (#[trigger] entries[j]).0 != key
        },
    decreases entries.len(),
{
    if entries.len() > 0 {
        lemma_assoc_index(entries.drop_first(), key);
        assert forall|j: int| 0 < j < entries.len() implies entries.drop_first()[j - 1]
            == entries[j] by {}
        if entries[0].0 != key && assoc_index(entries.drop_first(), key) == -1 {
            assert forall|j: int| 0 <= j < entries.len() implies (#[trigger] entries[j]).0
                != key by {
                if j > 0 {
                    assert(entries.drop_first()[j - 1] == entries[j]);
                }
            }
        }
    }
}

/// Appending an entry with a fresh key: lookups of other keys are unchanged, the new key
/// maps to its value, and keys stay distinct.
pub proof fn lemma_assoc_push<K, V>(entries: Seq<(K, V)>, key: K, value: V)
    requires
        distinct_keys(entries),
        assoc_index(entries, key) == -1,
    ensures
        distinct_keys(entries.push((key, value))),
        assoc_get(entries.push((key, value)), key) == Some(value),
        forall|k: K|
            k != key ==> #[trigger] assoc_get(entries.push((key, value)), k) == assoc_get(
                entries,
                k,
            ),
    decreases entries.len(),
{
    lemma_assoc_index(entries, key);
    let p = entries.push((key, value));
    if entries.len() == 0 {
        assert(p.drop_first() =~= Seq::<(K, V)>::empty());
        assert forall|k: K| k != key implies #[trigger] assoc_get(p, k) == assoc_get(
            entries,
            k,
        ) by {
            assert(assoc_get(p.drop_first(), k) is None);
        }
    } else {
        let tail = entries.drop_first();
        assert(p.drop_first() =~= tail.push((key, value)));
        assert(distinct_keys(tail)) by {
            assert forall|i: int, j: int| 0 <= i < j < tail.len() implies (#[trigger] tail[i]).0
                != (#[trigger] tail[j]).0 by {
                assert(tail[i] == entries[i + 1]);
                assert(tail[j] == entries[j + 1]);
            }
        }
        assert(assoc_index(tail, key) == -1) by {
            lemma_assoc_index(tail, key);
            assert forall|j: int| 0 <= j < tail.len() implies (#[trigger] tail[j]).0 != key by {
                assert(tail[j] == entries[j + 1]);
            }
        }
        lemma_assoc_push(tail, key, value);
        assert(p[0] == entries[0]);
        assert forall|k: K| k != key implies #[trigger] assoc_get(p, k) == assoc_get(
            entries,
            k,
        ) by {
            if entries[0].0 != k {
                assert(assoc_get(p.drop_first(), k) == assoc_get(tail, k));
            }
        }
    }
}

/// Replacing the value at index `i`: that key maps to the new value, other lookups are
/// unchanged, and keys stay distinct.
pub proof fn lemma_assoc_update<K, V>(entries: Seq<(K, V)>, i: int, value: V)
    requires
        distinct_keys(entries),
        0 <= i < entries.len(),
    ensures
        distinct_keys(entries.update(i, (entries[i].0, value))),
        assoc_get(entries.update(i, (entries[i].0, value)), entries[i].0) == Some(value),
        forall|k: K|
            k != entries[i].0 ==> #[trigger] assoc_get(entries.update(i, (entries[i].0, value)), k)
                == assoc_get(entries, k),
    decreases entries.len(),
{
    let u = entries.update(i, (entries[i].0, value));
    if i == 0 {
        assert(u.drop_first() =~= entries.drop_first());
        assert forall|k: K| k != entries[i].0 implies #[trigger] assoc_get(u, k)
            == assoc_get(entries, k) by {}
    } else {
        let tail = entries.drop_first();
        assert(u.drop_first() =~= tail.update(i - 1, (tail[i - 1].0, value)));
        assert(distinct_keys(tail)) by {
            assert forall|a: int, b: int| 0 <= a < b < tail.len() implies (#[trigger] tail[a]).0
                != (#[trigger] tail[b]).0 by {
                assert(tail[a] == entries[a + 1]);
                assert(tail[b] == entries[b + 1]);
            }
        }
        lemma_assoc_update(tail, i - 1, value);
        assert(entries[0].0 != entries[i].0);
        assert(u[0] == entries[0]);
        assert forall|k: K| k != entries[i].0 implies #[trigger] assoc_get(u, k)
            == assoc_get(entries, k) by {
            if entries[0].0 != k {
                assert(tail[i - 1] == entries[i]);
                assert(u.drop_first() == tail.update(i - 1, (tail[i - 1].0, value)));
                assert(assoc_get(u.drop_first(), k) == assoc_get(tail, k));
            }
        }
    }
}

/// The keys are in strictly ascending order (the order of `String`'s `Ord`).
pub open spec fn keys_ascending<V>(s: Seq<(Seq<char>, V)>) -> bool {
    forall|i: int, j: int| 0 <= i < j < s.len() ==> lex_lt((#[trigger] s[i]).0, (#[trigger] s[j]).0)
}

/// `a` holds the entries of `b`: the same length and the same members.
pub open spec fn same_entries<V>(a: Seq<(Seq<char>, V)>, b: Seq<(Seq<char>, V)>) -> bool {
    a.len() == b.len() && forall|e: (Seq<char>, V)| a.contains(e) <==> b.contains(e)
}

/// `a` is `b` with its entries in ascending key order (how a `BTreeMap` holds them).
pub open spec fn sorted_as<V>(a: Seq<(Seq<char>, V)>, b: Seq<(Seq<char>, V)>) -> bool {
    keys_ascending(a) && same_entries(a, b)
}

proof fn lemma_contains_insert<A>(s: Seq<A>, p: int, x: A, y: A)
    requires
        0 <= p <= s.len(),
    ensures
        s.insert(p, x).contains(y) <==> (s.contains(y) || y == x),
{
    s.insert_ensures(p, x);
    let t = s.insert(p, x);
    if t.contains(y) {
        let i = choose|i: int| 0 <= i < t.len() && t[i] == y;
        if i < p {
            assert(s[i] == y);
        } else if i > p {
            assert(s[i - 1] == y);
        }
    }
    if s.contains(y) {
        let i = choose|i: int| 0 <= i < s.len() && s[i] == y;
        if i < p {
            assert(t[i] == y);
        } else {
            assert(t[i + 1] == y);
        }
    }
    if y == x {
        assert(t[p] == y);
    }
}

proof fn lemma_contains_drop_last<A>(s: Seq<A>, y: A)
    requires
        s.len() > 0,
    ensures
        s.contains(y) <==> (s.drop_last().contains(y) || y == s.last()),
{
    let d = s.drop_last();
    if s.contains(y) {
        let i = choose|i: int| 0 <= i < s.len() && s[i] == y;
        if i < d.len() {
            assert(d[i] == y);
        }
    }
    if d.contains(y) {
        let i = choose|i: int| 0 <= i < d.len() && d[i] == y;
        assert(s[i] == y);
    }
    if y == s.last() {
        assert(s[s.len() - 1] == y);
    }
}

/// A map from strings to `V`, keys pairwise distinct, in insertion order.
#[derive(Debug)]
pub struct StrMap<V: View> {
    entries: Vec<(String, V)>,
}

/// The view of an entry list: keys and values by their views.
pub open spec fn entries_view<V: View>(v: Seq<(String, V)>) -> Seq<(Seq<char>, V::V)> {
    v.map_values(|e: (String, V)| (e.0@, e.1@))
}

impl<V: View> View for StrMap<V> {
    type V = Seq<(Seq<char>, V::V)>;

    closed spec fn view(&self) -> Seq<(Seq<char>, V::V)> {
        entries_view(self.entries@)
    }
}

impl<V: View> StrMap<V> {
    #[verifier::type_invariant]
    spec fn keys_distinct(self) -> bool {
        distinct_keys(entries_view(self.entries@))
    }

    /// An empty map.
    pub fn new() -> (m: Self)
        ensures
            m@ == Seq::<(Seq<char>, V::V)>::empty(),
    {
        let m = StrMap { entries: Vec::new() };
        assert(entries_view(m.entries@) =~= Seq::<(Seq<char>, V::V)>::empty());
        m
    }

    /// The number of entries (equally, of distinct keys).
    pub fn len(&self) -> (r: usize)
        ensures
            r == self@.len(),
            distinct_keys(self@),
    {
        proof {
            use_type_invariant(self);
        }
        self.entries.len()
    }

    fn index_of(&self, key: &str) -> (r: Option<usize>)
        ensures
            match r {
                Some(i) => assoc_index(self@, key@) == i,
                None => assoc_index(self@, key@) == -1,
            },
    {
        proof {
            lemma_assoc_index(self@, key@);
        }
        let mut i: usize = 0;
        while i < self.entries.len()
            invariant
                i <= self@.len(),
                self@.len() == self.entries@.len(),
                self@ == entries_view(self.entries@),
                forall|j: int| 0 <= j < i ==> (#[trigger] self@[j]).0 != key@,
                assoc_index(self@, key@) == -1 <==> forall|j: int|
                    0 <= j < self@.len() ==> (#[trigger] self@[j]).0 != key@,
                assoc_index(self@, key@) != -1 ==> {
                    let t = assoc_index(self@, key@);
                    &&& 0 <= t < self@.len()
                    &&& self@[t].0 == key@
                    &&& forall|j: int| 0 <= j < t ==> (#[trigger] self@[j]).0 != key@
                },
            decreases self@.len() - i,
        {
            assert(self@[i as int].0 == self.entries@[i as int].0@);
            if str_eq(self.entries[i].0.as_str(), key) {
                return Some(i);
            }
            i = i + 1;
        }
        None
    }

    /// The value stored under `key`, if any.
    pub fn get(&self, key: &str) -> (r: Option<&V>)
        ensures
            match r {
                Some(v) => assoc_get(self@, key@) == Some(v@),
                None => assoc_get(self@, key@) is None,
            },
    {
        proof {
            lemma_assoc_index(self@, key@);
        }
        match self.index_of(key) {
            Some(i) => {
                assert(self@[i as int].1 == self.entries@[i as int].1@);
                Some(&self.entries[i].1)
            },
            None => None,
        }
    }

    /// Whether `key` has an entry.
    pub fn contains_key(&self, key: &str) -> (r: bool)
        ensures
            r == (assoc_get(self@, key@) is Some),
    {
        proof {
            lemma_assoc_index(self@, key@);
        }
        self.index_of(key).is_some()
    }

    /// Stores `value` under `key`, replacing a previous value (`BTreeMap::insert`).
    pub fn insert(&mut self, key: String, value: V)
        ensures
            final(self)@ == assoc_insert(old(self)@, key@, value@),
            assoc_get(final(self)@, key@) == Some(value@),
            forall|k: Seq<char>|
                k != key@ ==> #[trigger] assoc_get(final(self)@, k) == assoc_get(old(self)@, k),
    {
        proof {
            use_type_invariant(&*self);
            lemma_assoc_index(self@, key@);
        }
        let ghost old_view = self@;
        let ghost kv = key@;
        let ghost v = value@;
        match self.index_of(key.as_str()) {
            Some(i) => {
                proof {
                    lemma_assoc_update(old_view, i as int, v);
                }
                let mut entries: Vec<(String, V)> = Vec::new();
                std::mem::swap(&mut entries, &mut self.entries);
                entries.set(i, (key, value));
                assert(entries_view(entries@) =~= old_view.update(i as int, (kv, v)));
                self.entries = entries;
            },
            None => {
                proof {
                    lemma_assoc_push(old_view, kv, v);
                }
                let mut entries: Vec<(String, V)> = Vec::new();
                std::mem::swap(&mut entries, &mut self.entries);
                entries.push((key, value));
                assert(entries_view(entries@) =~= old_view.push((kv, v)));
                self.entries = entries;
            },
        }
    }

    /// Stores `value` under `key` only when the key has no entry yet
    /// (`entry(key).or_insert(value)`).
    pub fn insert_if_absent(&mut self, key: String, value: V)
        ensures
            assoc_get(old(self)@, key@) is Some ==> final(self)@ == old(self)@,
            assoc_get(old(self)@, key@) is None ==> final(self)@ == old(self)@.push(
                (key@, value@),
            ),
    {
        proof {
            use_type_invariant(&*self);
            lemma_assoc_index(self@, key@);
        }
        if self.index_of(key.as_str()).is_none() {
            let ghost old_view = self@;
            let ghost kv = key@;
            let ghost v = value@;
            proof {
                lemma_assoc_push(old_view, kv, v);
            }
            let mut entries: Vec<(String, V)> = Vec::new();
            std::mem::swap(&mut entries, &mut self.entries);
            entries.push((key, value));
            assert(entries_view(entries@) =~= old_view.push((kv, v)));
            self.entries = entries;
        }
    }

    /// The same entries in ascending key order (`String`'s order), as a `BTreeMap` holds
    /// them.
    pub fn into_sorted(self) -> (r: Self)
        ensures
            sorted_as(r@, self@),
    {
        proof {
            use_type_invariant(&self);
        }
        let ghost orig = self@;
        let StrMap { entries } = self;
        let mut src = entries;
        let mut out: Vec<(String, V)> = Vec::new();
        assert(entries_view(out@) =~= Seq::<(Seq<char>, V::V)>::empty());
        while src.len() > 0
            invariant
                distinct_keys(entries_view(src@)),
                keys_ascending(entries_view(out@)),
                entries_view(out@).len() + entries_view(src@).len() == orig.len(),
                forall|e: (Seq<char>, V::V)|
                    orig.contains(e) <==> (entries_view(out@).contains(e) || entries_view(src@).contains(e)),
                forall|i: int, j: int|
                    0 <= i < src@.len() && 0 <= j < out@.len() ==> (#[trigger] src@[i]).0@
                        != (#[trigger] out@[j]).0@,
            decreases src@.len(),
        {
            let ghost sv = entries_view(src@);
            let ghost ov = entries_view(out@);
            let ghost src_before = src@;
            let e = match src.pop() {
                Some(e) => e,
                None => {
                    return StrMap { entries: out };
                },
            };
            let ghost ev = (e.0@, e.1@);
            assert(sv.last() == ev);
            assert(entries_view(src@) =~= sv.drop_last());
            let kc = chars_of(e.0.as_str());
            let mut p: usize = 0;
            while p < out.len() && chars_lt(&chars_of(out[p].0.as_str()), &kc)
                invariant
                    p <= out@.len(),
                    ov == entries_view(out@),
                    kc@ == ev.0,
                    forall|i: int| 0 <= i < p ==> lex_lt(#[trigger] ov[i].0, ev.0),
                decreases out@.len() - p,
            {
                assert(ov[p as int].0 == out@[p as int].0@);
                p = p + 1;
            }
            proof {
                // the new key differs from every key already placed
                assert forall|j: int| 0 <= j < ov.len() implies ov[j].0 != ev.0 by {
                    assert(src_before[src_before.len() - 1] == e);
                    assert(ov[j].0 == out@[j].0@);
                }
                if p < ov.len() {
                    assert(!lex_lt(ov[p as int].0, ev.0));
                    lemma_lex_order(ev.0, ov[p as int].0, ev.0);
                    assert(lex_lt(ev.0, ov[p as int].0));
                    assert forall|i: int| p <= i < ov.len() implies lex_lt(ev.0, #[trigger] ov[i].0) by {
                        if i > p {
                            lemma_lex_order(ev.0, ov[p as int].0, ov[i].0);
                        }
                    }
                }
            }
            let ghost p0 = p as int;
            let ghost out_before = out@;
            out.insert(p, e);
            proof {
                let nv = entries_view(out@);
                assert(nv =~= ov.insert(p0, ev));
                ov.insert_ensures(p0, ev);
                assert forall|i: int, j: int| 0 <= i < j < nv.len() implies lex_lt((#[trigger] nv[i]).0, (#[trigger] nv[j]).0) by {
                    if j < p0 {
                    } else if j == p0 {
                        assert(lex_lt(ov[i].0, ev.0));
                    } else if i < p0 {
                        lemma_lex_order(ov[i].0, ev.0, ov[j - 1].0);
                        assert(lex_lt(ev.0, ov[j - 1].0));
                    } else if i == p0 {
                        assert(lex_lt(ev.0, ov[j - 1].0));
                    } else {
                        assert(lex_lt(ov[i - 1].0, ov[j - 1].0));
                    }
                }
                let sn = entries_view(src@);
                assert forall|x: (Seq<char>, V::V)|
                    orig.contains(x) <==> (nv.contains(x) || sn.contains(x)) by {
                    lemma_contains_insert(ov, p0, ev, x);
                    lemma_contains_drop_last(sv, x);
                }
                assert forall|a: int, b: int| 0 <= a < sn.len() && 0 <= b < sn.len() && a < b implies (#[trigger] sn[a]).0
                    != (#[trigger] sn[b]).0 by {
                    assert(sn[a] == sv[a]);
                    assert(sn[b] == sv[b]);
                }
                assert forall|i: int, j: int|
                    0 <= i < src@.len() && 0 <= j < out@.len() implies (#[trigger] src@[i]).0@
                        != (#[trigger] out@[j]).0@ by {
                    out_before.insert_ensures(p0, e);
                    assert(src@[i] == src_before[i]);
                    assert(sv[i].0 == src_before[i].0@);
                    if j < p0 {
                        assert(out@[j] == out_before[j]);
                    } else if j == p0 {
                        assert(out@[j] == e);
                        assert(sv[i].0 != sv[sv.len() - 1].0);
                    } else {
                        assert(out@[j] == out_before[j - 1]);
                    }
                }
            }
        }
        proof {
            let ov = entries_view(out@);
            assert(entries_view(src@) =~= Seq::<(Seq<char>, V::V)>::empty());
            assert forall|i: int, j: int| 0 <= i < j < ov.len() implies (#[trigger] ov[i]).0 != (#[trigger] ov[j]).0 by {
                lemma_lex_order(ov[i].0, ov[j].0, ov[j].0);
            }
        }
        StrMap { entries: out }
    }

    /// The entries, in insertion order.
    pub fn entries(&self) -> (r: &Vec<(String, V)>)
        ensures
            entries_view(r@) == self@,
    {
        &self.entries
    }
}

impl StrMap<String> {
    /// A copy of the map.
    pub fn duplicate(&self) -> (r: Self)
        ensures
            r@ == self@,
    {
        proof {
            use_type_invariant(self);
        }
        let mut entries: Vec<(String, String)> = Vec::new();
        let mut i: usize = 0;
        while i < self.entries.len()
            invariant
                i <= self.entries@.len(),
                entries@.len() == i,
                entries_view(entries@) == entries_view(self.entries@).subrange(0, i as int),
            decreases self.entries@.len() - i,
        {
            let k = self.entries[i].0.clone();
            let v = self.entries[i].1.clone();
            assert(k@ == self.entries@[i as int].0@);
            assert(v@ == self.entries@[i as int].1@);
            let ghost before = entries@;
            entries.push((k, v));
            assert(entries@ == before.push((k, v)));
            assert(entries@.len() == i + 1);
            assert(entries@[i as int] == (k, v));
            let ghost ev = entries_view(entries@);
            assert(ev[i as int] == (entries@[i as int].0@, entries@[i as int].1@));
            assert(entries_view(self.entries@)[i as int] == (self.entries@[i as int].0@, self.entries@[i as int].1@));
            assert(entries_view(entries@) =~= entries_view(self.entries@).subrange(0, i + 1));
            i = i + 1;
        }
        assert(entries_view(self.entries@).subrange(0, self.entries@.len() as int) =~= entries_view(self.entries@));
        StrMap { entries }
    }
}

} // verus!
