//! An ordered map keyed by strings: the entries are kept sorted by key, with
//! no key twice, so walking the entries visits keys in the order a
//! `BTreeMap<String, _>` would.

use crate::text::{lemma_seq_lt_asymmetric, lemma_seq_lt_irreflexive, lemma_seq_lt_total, lemma_seq_lt_transitive, seq_lt, str_eq, str_less};
use vstd::prelude::*;

verus! {

/// Keys of an entry sequence, as character sequences.
pub open spec fn keys_of<V>(es: Seq<(String, V)>) -> Seq<Seq<char>> {
    Seq::new(es.len(), |i: int| es[i].0@)
}

/// Strictly increasing keys.
pub open spec fn sorted_keys(ks: Seq<Seq<char>>) -> bool {
    forall|i: int, j: int| 0 <= i < j < ks.len() ==> seq_lt(ks[i], ks[j])
}

/// The map an entry sequence denotes (later entries win, though a sorted
/// sequence has no repeated key).
pub open spec fn entries_map<V>(es: Seq<(String, V)>) -> Map<Seq<char>, V>
    decreases es.len(),
{
    if es.len() == 0 {
        Map::empty()
    } else {
        entries_map(es.drop_last()).insert(es.last().0@, es.last().1)
    }
}

/// A string-keyed map whose entries are sorted by key.
#[derive(Debug)]
pub struct KeyMap<V> {
    pub entries: Vec<(String, V)>,
}

impl<V> KeyMap<V> {
    /// Well-formed: keys strictly increasing.
    pub open spec fn wf(&self) -> bool {
        sorted_keys(keys_of(self.entries@))
    }

    pub open spec fn keys(&self) -> Seq<Seq<char>> {
        keys_of(self.entries@)
    }

    pub open spec fn view_map(&self) -> Map<Seq<char>, V> {
        entries_map(self.entries@)
    }

    /// An empty map.
    pub fn new() -> (m: Self)
        ensures
            m.wf(),
            m.entries@.len() == 0,
            m.view_map() == Map::<Seq<char>, V>::empty(),
    {
        KeyMap { entries: Vec::new() }
    }

    pub fn len(&self) -> (n: usize)
        ensures
            n == self.entries@.len(),
    {
        self.entries.len()
    }

    pub fn is_empty(&self) -> (b: bool)
        ensures
            b == (self.entries@.len() == 0),
    {
        self.entries.len() == 0
    }

    /// Position of `key`, if present.
    pub fn find(&self, key: &str) -> (r: Option<usize>)
        ensures
            match r {
                Some(i) => i < self.entries@.len() && self.keys()[i as int] == key@,
                None => !self.keys().contains(key@),
            },
    {
        let mut i: usize = 0;
        while i < self.entries.len()
            invariant
                i <= self.entries@.len(),
                forall|j: int| 0 <= j < i ==> self.keys()[j] != key@,
            decreases self.entries@.len() - i,
        {
            if str_eq(self.entries[i].0.as_str(), key) {
                return Some(i);
            }
            i = i + 1;
        }
        None
    }

    /// The value stored under `key`.
    pub fn get(&self, key: &str) -> (r: Option<&V>)
        requires
            self.wf(),
        ensures
            r is Some <==> self.view_map().contains_key(key@),
            r is Some ==> *r->0 == self.view_map()[key@],
    {
        proof {
            lemma_entries_map(self.entries@);
        }
        match self.find(key) {
            Some(i) => {
                proof {
                    lemma_sorted_lookup(self.entries@, i as int);
                }
                Some(&self.entries[i].1)
            },
            None => None,
        }
    }

    pub fn contains_key(&self, key: &str) -> (b: bool)
        requires
            self.wf(),
        ensures
            b == self.view_map().contains_key(key@),
    {
        proof {
            lemma_entries_map(self.entries@);
        }
        self.find(key).is_some()
    }

    /// Inserts or replaces the value under `key`, keeping the keys sorted.
    pub fn insert(&mut self, key: String, value: V)
        requires
            old(self).wf(),
        ensures
            final(self).wf(),
            final(self).view_map() == old(self).view_map().insert(key@, value),
    {
        let ghost old_es = self.entries@;
        proof {
            lemma_entries_map(old_es);
        }
        let mut i: usize = 0;
        while i < self.entries.len() && str_less(self.entries[i].0.as_str(), key.as_str())
            invariant
                self.entries@ == old_es,
                sorted_keys(keys_of(old_es)),
                i <= old_es.len(),
                forall|j: int| 0 <= j < i ==> seq_lt(old_es[j].0@, key@),
            decreases old_es.len() - i,
        {
            i = i + 1;
        }
        if i < self.entries.len() && str_eq(self.entries[i].0.as_str(), key.as_str()) {
            let ghost k = key@;
            self.entries.set(i, (key, value));
            proof {
                let es = self.entries@;
                assert(keys_of(es) =~= keys_of(old_es));
                lemma_entries_map(es);
                assert forall|kk: Seq<char>| #[trigger] entries_map(es).contains_key(kk)
                    <==> old(self).view_map().insert(k, value).contains_key(kk) by {
                    if kk != k {
                        if keys_of(es).contains(kk) {
                            let w = keys_of(es).index_of(kk);
                            assert(keys_of(old_es)[w] == kk);
                        }
                        if keys_of(old_es).contains(kk) {
                            let w = keys_of(old_es).index_of(kk);
                            assert(keys_of(es)[w] == kk);
                        }
                    } else {
                        assert(keys_of(es)[i as int] == kk);
                    }
                }
                assert forall|kk: Seq<char>| #[trigger] entries_map(es).contains_key(kk)
                    implies entries_map(es)[kk] == old(self).view_map().insert(k, value)[kk] by {
                    let w = keys_of(es).index_of(kk);
                    lemma_sorted_lookup(es, w);
                    if kk != k {
                        assert(keys_of(old_es)[w] == kk);
                        lemma_sorted_lookup(old_es, w);
                    } else {
                        lemma_sorted_lookup(es, i as int);
                    }
                }
                assert(entries_map(es) =~= old(self).view_map().insert(k, value));
            }
        } else {
            let ghost k = key@;
            proof {
                if i < old_es.len() {
                    lemma_seq_lt_total(old_es[i as int].0@, k);
                }
            }
            self.entries.insert(i, (key, value));
            proof {
                let es = self.entries@;
                assert(forall|j: int| 0 <= j < i ==> es[j] == old_es[j]);
                assert(forall|j: int| i < j < es.len() ==> es[j] == old_es[j - 1]);
                assert(es[i as int] == (key, value));
                let ok = keys_of(old_es);
                let nk = keys_of(es);
                assert forall|j: int| 0 <= j < i implies #[trigger] seq_lt(ok[j], k) by {
                    assert(ok[j] == old_es[j].0@);
                }
                assert forall|j: int| i <= j < ok.len() implies #[trigger] seq_lt(k, ok[j]) by {
                    assert(ok[i as int] == old_es[i as int].0@);
                    if j > i {
                        assert(seq_lt(ok[i as int], ok[j]));
                        lemma_seq_lt_transitive(k, ok[i as int], ok[j]);
                    }
                }
                assert forall|a: int, b: int| 0 <= a < b < es.len() implies seq_lt(nk[a], nk[b]) by {
                    if b < i {
                        assert(nk[a] == ok[a] && nk[b] == ok[b]);
                    } else if b == i {
                        assert(nk[a] == ok[a] && nk[b] == k);
                    } else if a < i {
                        assert(nk[a] == ok[a] && nk[b] == ok[b - 1]);
                        lemma_seq_lt_transitive(ok[a], k, ok[b - 1]);
                    } else if a == i {
                        assert(nk[a] == k && nk[b] == ok[b - 1]);
                    } else {
                        assert(nk[a] == ok[a - 1] && nk[b] == ok[b - 1]);
                    }
                }
                lemma_entries_map(es);
                assert forall|kk: Seq<char>| #[trigger] entries_map(es).contains_key(kk)
                    <==> old(self).view_map().insert(k, value).contains_key(kk) by {
                    if keys_of(es).contains(kk) {
                        let w = keys_of(es).index_of(kk);
                        if w < i {
                            assert(keys_of(old_es)[w] == kk);
                        } else if w > i {
                            assert(keys_of(old_es)[w - 1] == kk);
                        }
                    }
                    if keys_of(old_es).contains(kk) {
                        let w = keys_of(old_es).index_of(kk);
                        if w < i {
                            assert(keys_of(es)[w] == kk);
                        } else {
                            assert(keys_of(es)[w + 1] == kk);
                        }
                    }
                    if kk == k {
                        assert(keys_of(es)[i as int] == kk);
                    }
                }
                assert forall|kk: Seq<char>| #[trigger] entries_map(es).contains_key(kk)
                    implies entries_map(es)[kk] == old(self).view_map().insert(k, value)[kk] by {
                    let w = keys_of(es).index_of(kk);
                    lemma_sorted_lookup(es, w);
                    if w < i {
                        assert(keys_of(old_es)[w] == kk);
                        lemma_sorted_lookup(old_es, w);
                        if kk == k {
                            assert(seq_lt(keys_of(old_es)[w], k));
                            lemma_seq_lt_irreflexive(k);
                        }
                    } else if w > i {
                        assert(keys_of(old_es)[w - 1] == kk);
                        lemma_sorted_lookup(old_es, w - 1);
                        if kk == k {
                            assert(seq_lt(k, keys_of(old_es)[w - 1]));
                            lemma_seq_lt_irreflexive(k);
                        }
                    }
                }
                assert(entries_map(es) =~= old(self).view_map().insert(k, value));
            }
        }
    }
}

impl<V> KeyMap<V> {
    /// Removes `key`; tells whether it was present.
    pub fn remove(&mut self, key: &str) -> (b: bool)
        requires
            old(self).wf(),
        ensures
            final(self).wf(),
            final(self).view_map() == old(self).view_map().remove(key@),
            b == old(self).view_map().contains_key(key@),
    {
        let ghost old_es = self.entries@;
        proof {
            lemma_entries_map(old_es);
        }
        match self.find(key) {
            None => false,
            Some(i) => {
                let ghost k = key@;
                let _ = self.entries.remove(i);
                proof {
                    let es = self.entries@;
                    assert(es =~= old_es.remove(i as int));
                    assert(forall|j: int| 0 <= j < i ==> es[j] == old_es[j]);
                    assert(forall|j: int| i <= j < es.len() ==> es[j] == old_es[j + 1]);
                    let ok = keys_of(old_es);
                    let nk = keys_of(es);
                    assert forall|a: int, b: int| 0 <= a < b < es.len() implies seq_lt(
                        nk[a],
                        nk[b],
                    ) by {
                        if b < i {
                            assert(nk[a] == ok[a] && nk[b] == ok[b]);
                        } else if a < i {
                            assert(nk[a] == ok[a] && nk[b] == ok[b + 1]);
                        } else {
                            assert(nk[a] == ok[a + 1] && nk[b] == ok[b + 1]);
                        }
                    }
                    lemma_entries_map(es);
                    assert(ok[i as int] == k);
                    assert forall|kk: Seq<char>| #[trigger] entries_map(es).contains_key(kk)
                        <==> old(self).view_map().remove(k).contains_key(kk) by {
                        if nk.contains(kk) {
                            let w = nk.index_of(kk);
                            if w < i {
                                assert(ok[w] == kk);
                                if kk == k {
                                    lemma_seq_lt_irreflexive(k);
                                    assert(seq_lt(ok[w], ok[i as int]));
                                }
                            } else {
                                assert(ok[w + 1] == kk);
                                if kk == k {
                                    lemma_seq_lt_irreflexive(k);
                                    assert(seq_lt(ok[i as int], ok[w + 1]));
                                }
                            }
                        }
                        if ok.contains(kk) && kk != k {
                            let w = ok.index_of(kk);
                            if w < i {
                                assert(nk[w] == kk);
                            } else if w > i {
                                assert(nk[w - 1] == kk);
                            }
                        }
                    }
                    assert forall|kk: Seq<char>| #[trigger] entries_map(es).contains_key(kk)
                        implies entries_map(es)[kk] == old(self).view_map().remove(k)[kk] by {
                        let w = nk.index_of(kk);
                        lemma_sorted_lookup(es, w);
                        if w < i {
                            lemma_sorted_lookup(old_es, w);
                        } else {
                            lemma_sorted_lookup(old_es, w + 1);
                        }
                    }
                    assert(entries_map(es) =~= old(self).view_map().remove(k));
                }
                true
            },
        }
    }
}

/// Facts about `entries_map`: its domain is the key set.
pub proof fn lemma_entries_map<V>(es: Seq<(String, V)>)
    ensures
        forall|k: Seq<char>| #[trigger] entries_map(es).contains_key(k) <==> keys_of(es).contains(
            k,
        ),
    decreases es.len(),
{
    if es.len() > 0 {
        let d = es.drop_last();
        lemma_entries_map(d);
        assert(keys_of(d) =~= keys_of(es).drop_last());
        assert(keys_of(es)[es.len() - 1] == es.last().0@);
        assert forall|k: Seq<char>| #[trigger] entries_map(es).contains_key(k) <==> keys_of(
            es,
        ).contains(k) by {
            assert(entries_map(es) == entries_map(d).insert(es.last().0@, es.last().1));
            if entries_map(es).contains_key(k) {
                if k == es.last().0@ {
                    assert(keys_of(es)[es.len() - 1] == k);
                } else {
                    assert(entries_map(d).contains_key(k));
                    let w = keys_of(d).index_of(k);
                    assert(keys_of(es)[w] == k);
                }
            }
            if keys_of(es).contains(k) {
                let w = keys_of(es).index_of(k);
                if w < es.len() - 1 {
                    assert(keys_of(d)[w] == k);
                    assert(entries_map(d).contains_key(k));
                }
            }
        }
    }
}

/// In a sorted entry sequence, the map value of the `i`-th key is the
/// `i`-th value.
pub proof fn lemma_sorted_lookup<V>(es: Seq<(String, V)>, i: int)
    requires
        sorted_keys(keys_of(es)),
        0 <= i < es.len(),
    ensures
        entries_map(es).contains_key(es[i].0@),
        entries_map(es)[es[i].0@] == es[i].1,
    decreases es.len(),
{
    lemma_entries_map(es);
    assert(keys_of(es)[i] == es[i].0@);
    if i < es.len() - 1 {
        let d = es.drop_last();
        assert(keys_of(d) =~= keys_of(es).drop_last());
        lemma_sorted_lookup(d, i);
        assert(seq_lt(keys_of(es)[i], keys_of(es)[es.len() - 1]));
        if es[i].0@ == es.last().0@ {
            lemma_seq_lt_irreflexive(es[i].0@);
        }
    }
}

/// The sorted sequence listing exactly the members of a finite key set.
pub open spec fn sorted_seq_of(s: Set<Seq<char>>) -> Seq<Seq<char>> {
    choose|q: Seq<Seq<char>>| sorted_keys(q) && (forall|k: Seq<char>| q.contains(k) <==> s.contains(k))
}

/// Two sorted sequences with the same members are equal.
pub proof fn lemma_sorted_same_members(q1: Seq<Seq<char>>, q2: Seq<Seq<char>>)
    requires
        sorted_keys(q1),
        sorted_keys(q2),
        forall|k: Seq<char>| q1.contains(k) <==> q2.contains(k),
    ensures
        q1 == q2,
    decreases q1.len(),
{
    if q1.len() == 0 {
        if q2.len() > 0 {
            assert(q2.contains(q2[0]));
        }
        assert(q1 =~= q2);
    } else {
        if q2.len() == 0 {
            assert(q1.contains(q1[0]));
        }
        let a = q1.last();
        let b = q2.last();
        assert(q1.contains(a));
        assert(q2.contains(b));
        let w = q2.index_of(a);
        let v = q1.index_of(b);
        if a != b {
            if w < q2.len() - 1 {
                assert(seq_lt(q2[w], q2[q2.len() - 1]));
                if v < q1.len() - 1 {
                    assert(seq_lt(q1[v], q1[q1.len() - 1]));
                    lemma_seq_lt_asymmetric(b, a);
                } else {
                    lemma_seq_lt_irreflexive(a);
                }
            } else {
                lemma_seq_lt_irreflexive(a);
            }
        }
        let d1 = q1.drop_last();
        let d2 = q2.drop_last();
        assert(sorted_keys(d1)) by {
            assert forall|i: int, j: int| 0 <= i < j < d1.len() implies seq_lt(d1[i], d1[j]) by {
                assert(d1[i] == q1[i] && d1[j] == q1[j]);
            }
        }
        assert(sorted_keys(d2)) by {
            assert forall|i: int, j: int| 0 <= i < j < d2.len() implies seq_lt(d2[i], d2[j]) by {
                assert(d2[i] == q2[i] && d2[j] == q2[j]);
            }
        }
        assert forall|k: Seq<char>| d1.contains(k) <==> d2.contains(k) by {
            if d1.contains(k) {
                let x = d1.index_of(k);
                assert(q1[x] == k);
                assert(seq_lt(q1[x], q1[q1.len() - 1]));
                if k == a {
                    lemma_seq_lt_irreflexive(a);
                }
                assert(q2.contains(k));
                let y = q2.index_of(k);
                if y == q2.len() - 1 {
                    lemma_seq_lt_irreflexive(a);
                }
                assert(d2[y] == k);
            }
            if d2.contains(k) {
                let x = d2.index_of(k);
                assert(q2[x] == k);
                assert(seq_lt(q2[x], q2[q2.len() - 1]));
                if k == b {
                    lemma_seq_lt_irreflexive(b);
                }
                assert(q1.contains(k));
                let y = q1.index_of(k);
                if y == q1.len() - 1 {
                    lemma_seq_lt_irreflexive(b);
                }
                assert(d1[y] == k);
            }
        }
        lemma_sorted_same_members(d1, d2);
        assert(q1 =~= d1.push(a));
        assert(q2 =~= d2.push(b));
    }
}

/// The keys of a well-formed map are the sorted sequence of its domain.
pub proof fn lemma_keys_are_sorted_domain<V>(es: Seq<(String, V)>)
    requires
        sorted_keys(keys_of(es)),
    ensures
        keys_of(es) == sorted_seq_of(entries_map(es).dom()),
{
    lemma_entries_map(es);
    let s = entries_map(es).dom();
    assert(forall|k: Seq<char>| keys_of(es).contains(k) <==> s.contains(k));
    let q = sorted_seq_of(s);
    lemma_sorted_same_members(q, keys_of(es));
}

/// `x` placed into a sorted sequence at its position.
pub open spec fn insert_sorted(q: Seq<Seq<char>>, x: Seq<char>) -> Seq<Seq<char>>
    decreases q.len(),
{
    if q.len() == 0 {
        seq![x]
    } else if seq_lt(x, q[0]) {
        seq![x] + q
    } else {
        seq![q[0]] + insert_sorted(q.drop_first(), x)
    }
}

proof fn lemma_insert_sorted(q: Seq<Seq<char>>, x: Seq<char>)
    requires
        sorted_keys(q),
        !q.contains(x),
    ensures
        sorted_keys(insert_sorted(q, x)),
        forall|k: Seq<char>| insert_sorted(q, x).contains(k) <==> (q.contains(k) || k == x),
    decreases q.len(),
{
    let r = insert_sorted(q, x);
    if q.len() == 0 {
        assert(r =~= seq![x]);
        assert forall|k: Seq<char>| r.contains(k) <==> (q.contains(k) || k == x) by {
            if r.contains(k) {
                assert(r[0] == x);
            }
            if k == x {
                assert(r[0] == x);
            }
        }
    } else if seq_lt(x, q[0]) {
        assert forall|i: int, j: int| 0 <= i < j < r.len() implies seq_lt(r[i], r[j]) by {
            if i == 0 {
                if j > 1 {
                    assert(seq_lt(q[0], q[j - 1]));
                    lemma_seq_lt_transitive(x, q[0], q[j - 1]);
                }
            } else {
                assert(r[i] == q[i - 1] && r[j] == q[j - 1]);
            }
        }
        assert forall|k: Seq<char>| r.contains(k) <==> (q.contains(k) || k == x) by {
            if r.contains(k) {
                let w = r.index_of(k);
                if w > 0 {
                    assert(q[w - 1] == k);
                }
            }
            if q.contains(k) {
                let w = q.index_of(k);
                assert(r[w + 1] == k);
            }
            if k == x {
                assert(r[0] == x);
            }
        }
    } else {
        let t = q.drop_first();
        assert(sorted_keys(t)) by {
            assert forall|i: int, j: int| 0 <= i < j < t.len() implies seq_lt(t[i], t[j]) by {
                assert(t[i] == q[i + 1] && t[j] == q[j + 1]);
            }
        }
        assert(!t.contains(x)) by {
            if t.contains(x) {
                let w = t.index_of(x);
                assert(q[w + 1] == x);
            }
        }
        lemma_insert_sorted(t, x);
        let rt = insert_sorted(t, x);
        assert(q[0] != x) by {
            assert(q.contains(q[0]));
        }
        lemma_seq_lt_total(q[0], x);
        assert forall|j: int| 0 <= j < rt.len() implies seq_lt(q[0], rt[j]) by {
            let e = rt[j];
            assert(rt.contains(e));
            if e == x {
            } else {
                assert(t.contains(e));
                let w = t.index_of(e);
                assert(q[w + 1] == e);
                assert(seq_lt(q[0], q[w + 1]));
            }
        }
        assert forall|i: int, j: int| 0 <= i < j < r.len() implies seq_lt(r[i], r[j]) by {
            if i == 0 {
                assert(r[j] == rt[j - 1]);
            } else {
                assert(r[i] == rt[i - 1] && r[j] == rt[j - 1]);
            }
        }
        assert forall|k: Seq<char>| r.contains(k) <==> (q.contains(k) || k == x) by {
            if r.contains(k) {
                let w = r.index_of(k);
                if w > 0 {
                    assert(rt[w - 1] == k);
                    assert(rt.contains(k));
                    if k != x {
                        assert(t.contains(k));
                        let v = t.index_of(k);
                        assert(q[v + 1] == k);
                    }
                } else {
                    assert(q[0] == k);
                }
            }
            if q.contains(k) {
                let w = q.index_of(k);
                if w == 0 {
                    assert(r[0] == k);
                } else {
                    assert(t[w - 1] == k);
                    assert(t.contains(k));
                    assert(rt.contains(k));
                    let v = rt.index_of(k);
                    assert(r[v + 1] == k);
                }
            }
            if k == x {
                assert(rt.contains(x));
                let v = rt.index_of(x);
                assert(r[v + 1] == x);
            }
        }
    }
}

/// Every finite set of keys has a sorted enumeration, so `sorted_seq_of`
/// lists it.
pub proof fn lemma_sorted_seq_of(s: Set<Seq<char>>)
    requires
        s.finite(),
    ensures
        sorted_keys(sorted_seq_of(s)),
        forall|k: Seq<char>| sorted_seq_of(s).contains(k) <==> s.contains(k),
    decreases s.len(),
{
    if s.len() == 0 {
        assert(s =~= Set::empty());
        let q = Seq::<Seq<char>>::empty();
        assert(sorted_keys(q) && (forall|k: Seq<char>| q.contains(k) <==> s.contains(k)));
    } else {
        let x = s.choose();
        let t = s.remove(x);
        lemma_sorted_seq_of(t);
        let qt = sorted_seq_of(t);
        lemma_insert_sorted(qt, x);
        let q = insert_sorted(qt, x);
        assert(sorted_keys(q) && (forall|k: Seq<char>| q.contains(k) <==> s.contains(k)));
    }
}

/// The domain of an entry sequence's map is finite.
pub proof fn lemma_entries_map_finite<V>(es: Seq<(String, V)>)
    ensures
        entries_map(es).dom().finite(),
    decreases es.len(),
{
    if es.len() > 0 {
        lemma_entries_map_finite(es.drop_last());
    }
}

} // verus!
