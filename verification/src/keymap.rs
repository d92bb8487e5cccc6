//! A map keyed by strings that keeps its entries in insertion order.

use crate::chars::str_equal;
use vstd::prelude::*;

verus! {

/// The entries of a key map, keys by their characters.
pub open spec fn entries_view<V>(v: Seq<(String, V)>) -> Seq<(Seq<char>, V)> {
    Seq::new(v.len(), |i: int| (v[i].0@, v[i].1))
}

/// The first position at or after `i` that holds `k`.
pub open spec fn index_from<V>(es: Seq<(Seq<char>, V)>, k: Seq<char>, i: int) -> Option<int>
    decreases es.len() - i,
{
    if i < 0 || i >= es.len() {
        None
    } else if es[i].0 == k {
        Some(i)
    } else {
        index_from(es, k, i + 1)
    }
}

/// The position of `k` among the entries, if it is there.
pub open spec fn key_index<V>(es: Seq<(Seq<char>, V)>, k: Seq<char>) -> Option<int> {
    index_from(es, k, 0)
}

/// The entries of a string-valued map, values by their characters.
pub open spec fn str_view(es: Seq<(Seq<char>, String)>) -> Seq<(Seq<char>, Seq<char>)> {
    Seq::new(es.len(), |i: int| (es[i].0, es[i].1@))
}

proof fn lemma_index_from<V>(es: Seq<(Seq<char>, V)>, k: Seq<char>, i: int)
    requires
        0 <= i,
    ensures
        index_from(es, k, i) matches Some(j) ==> i <= j < es.len() && es[j].0 == k && forall|q: int|
            i <= q < j ==> es[q].0 != k,
        index_from(es, k, i) is None ==> forall|q: int| i <= q < es.len() ==> es[q].0 != k,
    decreases es.len() - i,
{
    if i < es.len() && es[i].0 != k {
        lemma_index_from(es, k, i + 1);
    }
}

proof fn lemma_str_view_index(es: Seq<(Seq<char>, String)>, k: Seq<char>, i: int)
    requires
        0 <= i,
    ensures
        index_from(str_view(es), k, i) == index_from(es, k, i),
    decreases es.len() - i,
{
    if i < es.len() && es[i].0 != k {
        lemma_str_view_index(es, k, i + 1);
    }
}

/// Looking up in the character view gives the characters of the value.
pub proof fn lemma_str_view_lookup(es: Seq<(Seq<char>, String)>, k: Seq<char>)
    ensures
        lookup(str_view(es), k) == match lookup(es, k) {
            Some(v) => Some(v@),
            None => None,
        },
{
    lemma_str_view_index(es, k, 0);
    lemma_index_from(es, k, 0);
}

/// Inserting commutes with taking the character view.
pub proof fn lemma_str_view_insert(es: Seq<(Seq<char>, String)>, k: Seq<char>, v: String)
    ensures
        str_view(insert_entry(es, k, v)) == insert_entry(str_view(es), k, v@),
{
    lemma_str_view_index(es, k, 0);
    match key_index(es, k) {
        Some(i) => {
            lemma_index_from(es, k, 0);
            assert(str_view(insert_entry(es, k, v)) =~= insert_entry(str_view(es), k, v@));
        },
        None => {
            assert(str_view(insert_entry(es, k, v)) =~= insert_entry(str_view(es), k, v@));
        },
    }
}

/// The value of `k` among the entries, if it is there.
pub open spec fn lookup<V>(es: Seq<(Seq<char>, V)>, k: Seq<char>) -> Option<V> {
    match key_index(es, k) {
        Some(i) => Some(es[i].1),
        None => None,
    }
}

/// No key occurs twice.
pub open spec fn keys_distinct<V>(es: Seq<(Seq<char>, V)>) -> bool {
    forall|i: int, j: int| 0 <= i < es.len() && 0 <= j < es.len() && i != j ==> (#[trigger] es[i]).0 != (
    #[trigger] es[j]).0
}

/// Entries after inserting `k` with `v`: the value of an existing key is
/// replaced in place, a new key goes at the end.
pub open spec fn insert_entry<V>(es: Seq<(Seq<char>, V)>, k: Seq<char>, v: V) -> Seq<(Seq<char>, V)> {
    match key_index(es, k) {
        Some(i) => es.update(i, (k, v)),
        None => es.push((k, v)),
    }
}


/// Reading after writing: after inserting `k` with `v`, `k` gives `v` and
/// every other key gives what it gave before; keys stay distinct.
pub proof fn lemma_lookup_insert<V>(es: Seq<(Seq<char>, V)>, k: Seq<char>, v: V, q: Seq<char>)
    requires
        keys_distinct(es),
    ensures
        lookup(insert_entry(es, k, v), q) == if q == k {
            Some(v)
        } else {
            lookup(es, q)
        },
        keys_distinct(insert_entry(es, k, v)),
{
    lemma_key_index_found(es, k);
    lemma_key_index_found(es, q);
    let e2 = insert_entry(es, k, v);
    match key_index(es, k) {
        Some(i) => {
            assert(e2 == es.update(i, (k, v)));
            assert forall|a: int, b: int| 0 <= a < e2.len() && 0 <= b < e2.len() && a != b implies (
            #[trigger] e2[a]).0 != (#[trigger] e2[b]).0 by {
                assert(e2[a].0 == es[a].0);
                assert(e2[b].0 == es[b].0);
            }
            lemma_key_index_found(e2, q);
            if q == k {
                lemma_key_index(e2, k, i);
            } else {
                match key_index(es, q) {
                    Some(j) => {
                        lemma_key_index(e2, q, j);
                    },
                    None => {
                        if key_index(e2, q) is Some {
                            let j = key_index(e2, q).unwrap();
                            assert(e2[j].0 == es[j].0);
                        }
                    },
                }
            }
        },
        None => {
            assert(e2 == es.push((k, v)));
            assert forall|a: int, b: int| 0 <= a < e2.len() && 0 <= b < e2.len() && a != b implies (
            #[trigger] e2[a]).0 != (#[trigger] e2[b]).0 by {
                if a < es.len() {
                    assert(e2[a] == es[a]);
                }
                if b < es.len() {
                    assert(e2[b] == es[b]);
                }
            }
            lemma_key_index_found(e2, q);
            if q == k {
                lemma_key_index(e2, k, es.len() as int);
            } else {
                match key_index(es, q) {
                    Some(j) => {
                        lemma_key_index(e2, q, j);
                    },
                    None => {
                        if key_index(e2, q) is Some {
                            let j = key_index(e2, q).unwrap();
                            if j < es.len() {
                                assert(e2[j] == es[j]);
                            }
                        }
                    },
                }
            }
        },
    }
}

/// A map from strings to values, in insertion order, each key once.
#[derive(Debug)]
pub struct KeyMap<V> {
    entries: Vec<(String, V)>,
}

impl<V> View for KeyMap<V> {
    type V = Seq<(Seq<char>, V)>;

    closed spec fn view(&self) -> Seq<(Seq<char>, V)> {
        entries_view(self.entries@)
    }
}

/// With distinct keys, the key at position `i` has index `i`.
pub proof fn lemma_key_index<V>(es: Seq<(Seq<char>, V)>, k: Seq<char>, i: int)
    requires
        keys_distinct(es),
        0 <= i < es.len(),
        es[i].0 == k,
    ensures
        key_index(es, k) == Some(i),
{
    lemma_index_from(es, k, 0);
    if let Some(j) = key_index(es, k) {
        if j != i {
            assert(es[j].0 == es[i].0);
        }
    }
}

/// Where `k` is, if anywhere.
pub proof fn lemma_key_index_found<V>(es: Seq<(Seq<char>, V)>, k: Seq<char>)
    ensures
        key_index(es, k) matches Some(j) ==> 0 <= j < es.len() && es[j].0 == k,
        key_index(es, k) is None ==> forall|q: int| 0 <= q < es.len() ==> es[q].0 != k,
{
    lemma_index_from(es, k, 0);
}

impl<V> KeyMap<V> {
    #[verifier::type_invariant]
    spec fn inv(self) -> bool {
        keys_distinct(entries_view(self.entries@))
    }

    /// An empty map.
    pub fn new() -> (r: Self)
        ensures
            r@ == Seq::<(Seq<char>, V)>::empty(),
    {
        let r = KeyMap { entries: Vec::new() };
        assert(r@ =~= Seq::<(Seq<char>, V)>::empty());
        r
    }

    /// The number of keys.
    pub fn len(&self) -> (r: usize)
        ensures
            r == self@.len(),
            keys_distinct(self@),
    {
        proof {
            use_type_invariant(self);
        }
        self.entries.len()
    }

    /// Whether the map is empty.
    pub fn is_empty(&self) -> (r: bool)
        ensures
            r == (self@.len() == 0),
    {
        self.entries.len() == 0
    }

    /// The position of `k`, if present.
    pub fn find(&self, k: &str) -> (r: Option<usize>)
        ensures
            match r {
                Some(i) => key_index(self@, k@) == Some(i as int) && (i as int) < self@.len(),
                None => key_index(self@, k@) is None,
            },
    {
        proof {
            use_type_invariant(self);
        }
        let mut i: usize = 0;
        while i < self.entries.len()
            invariant
                i <= self@.len(),
                keys_distinct(self@),
                forall|q: int| 0 <= q < i ==> self@[q].0 != k@,
                index_from(self@, k@, i as int) == key_index(self@, k@),
            decreases self.entries.len() - i,
        {
            if str_equal(self.entries[i].0.as_str(), k) {
                proof {
                    lemma_key_index(self@, k@, i as int);
                }
                return Some(i);
            }
            i = i + 1;
        }
        None
    }

    /// Whether `k` is a key.
    pub fn contains_key(&self, k: &str) -> (r: bool)
        ensures
            r == (key_index(self@, k@) is Some),
    {
        self.find(k).is_some()
    }

    /// The value of `k`, if it is a key.
    pub fn get(&self, k: &str) -> (r: Option<&V>)
        ensures
            match r {
                Some(v) => lookup(self@, k@) == Some(*v),
                None => lookup(self@, k@) is None,
            },
    {
        match self.find(k) {
            Some(i) => Some(&self.entries[i].1),
            None => None,
        }
    }

    /// Sets the value of `k`: replaced in place when `k` is a key, added at
    /// the end otherwise.
    pub fn insert(&mut self, k: String, v: V)
        ensures
            final(self)@ == insert_entry(old(self)@, k@, v),
    {
        proof {
            use_type_invariant(&*self);
        }
        let ghost es = self@;
        proof {
            lemma_key_index_found(es, k@);
        }
        match self.find(k.as_str()) {
            Some(i) => {
                let mut entries: Vec<(String, V)> = Vec::new();
                std::mem::swap(&mut entries, &mut self.entries);
                entries.set(i, (k, v));
                proof {
                    assert(entries_view(entries@) =~= es.update(i as int, (k@, v)));
                    let ne = entries_view(entries@);
                    assert forall|a: int, b: int|
                        0 <= a < ne.len() && 0 <= b < ne.len() && a != b implies (#[trigger] ne[a]).0
                        != (#[trigger] ne[b]).0 by {
                        if a != i && b != i {
                            assert(ne[a] == es[a]);
                            assert(ne[b] == es[b]);
                        } else if a == i {
                            assert(ne[b] == es[b]);
                            assert(es[i as int].0 == k@);
                        } else {
                            assert(ne[a] == es[a]);
                            assert(es[i as int].0 == k@);
                        }
                    }
                }
                self.entries = entries;
            },
            None => {
                let mut entries: Vec<(String, V)> = Vec::new();
                std::mem::swap(&mut entries, &mut self.entries);
                let ghost kv = k@;
                entries.push((k, v));
                proof {
                    assert(entries_view(entries@) =~= es.push((kv, v)));
                    let ne = entries_view(entries@);
                    assert forall|a: int, b: int|
                        0 <= a < ne.len() && 0 <= b < ne.len() && a != b implies (#[trigger] ne[a]).0
                        != (#[trigger] ne[b]).0 by {
                        if a < es.len() && b < es.len() {
                            assert(ne[a] == es[a]);
                            assert(ne[b] == es[b]);
                        } else if a < es.len() {
                            assert(ne[a] == es[a]);
                            assert(es[a].0 != kv);
                        } else {
                            assert(ne[b] == es[b]);
                            assert(es[b].0 != kv);
                        }
                    }
                }
                self.entries = entries;
            },
        }
    }


    /// Replaces the value at position `i`, giving back the old one.
    pub fn set_value(&mut self, i: usize, v: V) -> (r: V)
        requires
            i < old(self)@.len(),
        ensures
            final(self)@ == old(self)@.update(i as int, (old(self)@[i as int].0, v)),
            r == old(self)@[i as int].1,
    {
        proof {
            use_type_invariant(&*self);
        }
        let ghost es = self@;
        let mut entries: Vec<(String, V)> = Vec::new();
        std::mem::swap(&mut entries, &mut self.entries);
        let (k, old_v) = entries.remove(i);
        entries.insert(i, (k, v));
        proof {
            assert(entries_view(entries@) =~= es.update(i as int, (es[i as int].0, v)));
            let ne = entries_view(entries@);
            assert forall|a: int, b: int|
                0 <= a < ne.len() && 0 <= b < ne.len() && a != b implies (#[trigger] ne[a]).0 != (
                #[trigger] ne[b]).0 by {
                assert(ne[a].0 == es[a].0);
                assert(ne[b].0 == es[b].0);
            }
        }
        self.entries = entries;
        old_v
    }

    /// The key and value at position `i`.
    pub fn entry(&self, i: usize) -> (r: (&String, &V))
        requires
            i < self@.len(),
        ensures
            r.0@ == self@[i as int].0,
            *r.1 == self@[i as int].1,
    {
        (&self.entries[i].0, &self.entries[i].1)
    }
}

impl<V: Clone> Clone for KeyMap<V> {
    /// A copy with the same keys in the same order; each value is cloned.
    fn clone(&self) -> (r: Self)
        ensures
            r@.len() == self@.len(),
            forall|i: int| 0 <= i < self@.len() ==> (#[trigger] r@[i]).0 == self@[i].0,
            forall|i: int| 0 <= i < self@.len() ==> cloned::<V>(self@[i].1, #[trigger] r@[i].1),
    {
        proof {
            use_type_invariant(self);
        }
        let mut entries: Vec<(String, V)> = Vec::new();
        let mut i: usize = 0;
        while i < self.entries.len()
            invariant
                i <= self@.len(),
                keys_distinct(self@),
                entries@.len() == i,
                forall|q: int| 0 <= q < i ==> (#[trigger] entries@[q]).0@ == self@[q].0,
                forall|q: int| 0 <= q < i ==> cloned::<V>(self@[q].1, #[trigger] entries@[q].1),
            decreases self.entries.len() - i,
        {
            let v = self.entries[i].1.clone();
            assert(cloned::<V>(self.entries@[i as int].1, v));
            entries.push((self.entries[i].0.clone(), v));
            i = i + 1;
        }
        let r = KeyMap { entries };
        proof {
            let ne = entries_view(r.entries@);
            assert forall|a: int, b: int|
                0 <= a < ne.len() && 0 <= b < ne.len() && a != b implies (#[trigger] ne[a]).0 != (
                #[trigger] ne[b]).0 by {
                assert(ne[a].0 == self@[a].0);
                assert(ne[b].0 == self@[b].0);
            }
        }
        r
    }
}

} // verus!
