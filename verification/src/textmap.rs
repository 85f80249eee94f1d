//! A map keyed by text, kept as a vector of entries with distinct keys and
//! read as a `Map` from the keys' text to the values.

use vstd::prelude::*;

use crate::keyed::{
    keyed_map, keys_of, lemma_keyed_absent, lemma_keyed_at, lemma_keyed_empty, lemma_keyed_len,
    lemma_keyed_push, lemma_keyed_remove,
};
use crate::text::str_eq;

verus! {

/// A key compared by its text.
pub trait TextKey: View + Sized {
    /// Whether the two keys have the same text.
    fn same(&self, other: &Self) -> (res: bool)
        ensures
            res == (self@ == other@);

    /// A copy of the key.
    fn copy(&self) -> (res: Self)
        ensures
            res@ == self@;
}

impl TextKey for String {
    fn same(&self, other: &Self) -> (res: bool) {
        str_eq(self.as_str(), other.as_str())
    }

    fn copy(&self) -> (res: Self) {
        self.clone()
    }
}

impl TextKey for (String, String) {
    fn same(&self, other: &Self) -> (res: bool) {
        str_eq(self.0.as_str(), other.0.as_str()) && str_eq(self.1.as_str(), other.1.as_str())
    }

    fn copy(&self) -> (res: Self) {
        (self.0.clone(), self.1.clone())
    }
}

/// The text of the keys in `keys`.
pub open spec fn key_set<K: View>(keys: Seq<K>) -> Set<K::V> {
    Set::new(|x: K::V| exists|i: int| 0 <= i < keys.len() && (#[trigger] keys[i])@ == x)
}

/// Whether `v` is the value under one of `keys` in `m`.
pub open spec fn value_under<K: View, V>(m: Map<K::V, V>, keys: Seq<K>, v: V) -> bool {
    exists|k: K::V| key_set(keys).contains(k) && m.contains_key(k) && v == m[k]
}

/// A map keyed by text.
pub struct TextMap<K: TextKey, V> {
    entries: Vec<(K, V)>,
}

/// The entries with their keys' text.
pub open spec fn text_entries<K: View, V>(s: Seq<(K, V)>) -> Seq<(K::V, V)> {
    s.map_values(|e: (K, V)| (e.0@, e.1))
}

impl<K: TextKey, V> TextMap<K, V> {
    #[verifier::type_invariant]
    spec fn keys_unique(self) -> bool {
        keys_of(text_entries(self.entries@)).no_duplicates()
    }

    /// The map from each key's text to its value.
    pub closed spec fn map(&self) -> Map<K::V, V> {
        keyed_map(text_entries(self.entries@))
    }

    /// The empty map.
    pub fn new() -> (res: Self)
        ensures
            res.map() == Map::<K::V, V>::empty(),
    {
        proof {
            lemma_keyed_empty::<K::V, V>();
            assert(text_entries(Seq::<(K, V)>::empty()) =~= Seq::<(K::V, V)>::empty());
        }
        TextMap { entries: Vec::new() }
    }

    /// How many entries there are.
    pub fn len(&self) -> (res: usize)
        ensures
            res == self.map().len(),
            self.map().dom().finite(),
    {
        proof {
            use_type_invariant(self);
            lemma_keyed_len(text_entries(self.entries@));
        }
        self.entries.len()
    }

    fn index_of(&self, k: &K) -> (res: Option<usize>)
        ensures
            match res {
                Some(i) => i < self.entries@.len() && text_entries(self.entries@)[i as int].0 == k@,
                None => forall|i: int|
                    0 <= i < self.entries@.len() ==> text_entries(self.entries@)[i].0 != k@,
            },
    {
        let mut i: usize = 0;
        while i < self.entries.len()
            invariant
                i <= self.entries@.len(),
                forall|j: int| 0 <= j < i ==> text_entries(self.entries@)[j].0 != k@,
            decreases self.entries@.len() - i,
        {
            if self.entries[i].0.same(k) {
                return Some(i);
            }
            i += 1;
        }
        None
    }

    /// The value under `k`.
    pub fn get(&self, k: &K) -> (res: Option<&V>)
        ensures
            match self.map().get(k@) {
                Some(v) => res == Some(&v),
                None => res is None,
            },
    {
        proof {
            use_type_invariant(self);
        }
        match self.index_of(k) {
            Some(i) => {
                proof {
                    lemma_keyed_at(text_entries(self.entries@), i as int);
                }
                Some(&self.entries[i].1)
            },
            None => {
                proof {
                    lemma_keyed_absent(text_entries(self.entries@), k@);
                }
                None
            },
        }
    }

    /// Whether there is a value under `k`.
    pub fn contains(&self, k: &K) -> (res: bool)
        ensures
            res == self.map().contains_key(k@),
    {
        self.get(k).is_some()
    }

    /// Drops the value under `k`, giving it back.
    pub fn remove(&mut self, k: &K) -> (res: Option<V>)
        ensures
            final(self).map() == old(self).map().remove(k@),
            match old(self).map().get(k@) {
                Some(v) => res == Some(v),
                None => res is None,
            },
    {
        proof {
            use_type_invariant(&*self);
        }
        let ghost s = text_entries(self.entries@);
        match self.index_of(k) {
            Some(i) => {
                proof {
                    lemma_keyed_at(s, i as int);
                    lemma_keyed_remove(s, i as int);
                }
                let mut entries = Vec::new();
                std::mem::swap(&mut entries, &mut self.entries);
                let (_, v) = entries.remove(i);
                proof {
                    assert(text_entries(entries@) =~= s.remove(i as int));
                }
                self.entries = entries;
                Some(v)
            },
            None => {
                proof {
                    lemma_keyed_absent(s, k@);
                    assert(self.map().remove(k@) =~= self.map());
                }
                None
            },
        }
    }

    /// Keeps `v` under `k`, giving back the value it replaces.
    pub fn insert(&mut self, k: K, v: V) -> (res: Option<V>)
        ensures
            final(self).map() == old(self).map().insert(k@, v),
            match old(self).map().get(k@) {
                Some(o) => res == Some(o),
                None => res is None,
            },
    {
        let res = self.remove(&k);
        proof {
            use_type_invariant(&*self);
        }
        let ghost s = text_entries(self.entries@);
        let ghost kv = k@;
        proof {
            assert forall|i: int| 0 <= i < s.len() implies s[i].0 != kv by {
                lemma_keyed_at(s, i);
            }
            lemma_keyed_push(s, (kv, v));
        }
        let mut entries = Vec::new();
        std::mem::swap(&mut entries, &mut self.entries);
        entries.push((k, v));
        proof {
            assert(text_entries(entries@) =~= s.push((kv, v)));
        }
        self.entries = entries;
        res
    }

    /// The entries, each key once.
    pub fn entries(&self) -> (res: &Vec<(K, V)>)
        ensures
            keyed_map(text_entries(res@)) == self.map(),
            keys_of(text_entries(res@)).no_duplicates(),
    {
        proof {
            use_type_invariant(self);
        }
        &self.entries
    }

    /// The keys, each once.
    pub fn keys(&self) -> (res: Vec<K>)
        ensures
            res@.len() == self.map().len(),
            forall|i: int| 0 <= i < res@.len() ==> self.map().contains_key((#[trigger] res@[i])@),
            forall|k: K::V| #[trigger]
                self.map().contains_key(k) ==> exists|i: int| 0 <= i < res@.len() && res@[i]@ == k,
    {
        proof {
            use_type_invariant(self);
            lemma_keyed_len(text_entries(self.entries@));
        }
        let ghost s = text_entries(self.entries@);
        let mut res: Vec<K> = Vec::new();
        let mut i: usize = 0;
        while i < self.entries.len()
            invariant
                i <= self.entries@.len(),
                s == text_entries(self.entries@),
                keys_of(s).no_duplicates(),
                res@.len() == i,
                forall|j: int| 0 <= j < i ==> (#[trigger] res@[j])@ == s[j].0,
            decreases self.entries@.len() - i,
        {
            res.push(self.entries[i].0.copy());
            i += 1;
        }
        proof {
            assert forall|j: int| 0 <= j < res@.len() implies self.map().contains_key(
                (#[trigger] res@[j])@,
            ) by {
                lemma_keyed_at(s, j);
            }
            assert forall|k: K::V| #[trigger] self.map().contains_key(k) implies exists|j: int|
                0 <= j < res@.len() && res@[j]@ == k by {
                let j = choose|j: int| 0 <= j < keys_of(s).len() && keys_of(s)[j] == k;
                assert(res@[j]@ == k);
            }
        }
        res
    }

    /// Empties the map, giving back every entry.
    pub fn drain(&mut self) -> (res: Vec<(K, V)>)
        ensures
            final(self).map() == Map::<K::V, V>::empty(),
            keyed_map(text_entries(res@)) == old(self).map(),
            keys_of(text_entries(res@)).no_duplicates(),
    {
        proof {
            use_type_invariant(&*self);
            lemma_keyed_empty::<K::V, V>();
            assert(text_entries(Seq::<(K, V)>::empty()) =~= Seq::<(K::V, V)>::empty());
        }
        let mut entries = Vec::new();
        std::mem::swap(&mut entries, &mut self.entries);
        entries
    }

    /// Drops the values under `keys`, giving back those there were, in the
    /// order of `keys`.
    pub fn remove_all(&mut self, keys: &Vec<K>) -> (res: Vec<V>)
        ensures
            final(self).map() == old(self).map().remove_keys(key_set(keys@)),
            forall|i: int| 0 <= i < res@.len() ==> value_under(old(self).map(), keys@, #[trigger] res@[i]),
            forall|k: K::V|
                key_set(keys@).contains(k) && #[trigger] old(self).map().contains_key(k)
                    ==> exists|i: int| 0 <= i < res@.len() && res@[i] == old(self).map()[k],
    {
        let ghost m0 = self.map();
        let ghost mut from: Seq<K::V> = Seq::empty();
        let mut res: Vec<V> = Vec::new();
        let mut i: usize = 0;
        proof {
            assert(m0.remove_keys(key_set(keys@.take(0))) =~= m0);
        }
        while i < keys.len()
            invariant
                i <= keys@.len(),
                self.map() == m0.remove_keys(key_set(keys@.take(i as int))),
                from.len() == res@.len(),
                forall|j: int|
                    0 <= j < res@.len() ==> key_set(keys@).contains(#[trigger] from[j]) && m0.contains_key(
                        from[j],
                    ) && res@[j] == m0[from[j]],
                forall|k: K::V|
                    key_set(keys@.take(i as int)).contains(k) && #[trigger] m0.contains_key(k)
                        ==> exists|j: int| 0 <= j < from.len() && from[j] == k,
            decreases keys@.len() - i,
        {
            let ghost before = res@;
            let ghost from0 = from;
            let ghost kv = keys@[i as int]@;
            proof {
                assert(key_set(keys@.take(i + 1)) =~= key_set(keys@.take(i as int)).insert(kv)) by {
                    assert forall|x: K::V| key_set(keys@.take(i + 1)).contains(x) implies key_set(
                        keys@.take(i as int),
                    ).insert(kv).contains(x) by {
                        let j = choose|j: int|
                            0 <= j < keys@.take(i + 1).len() && (#[trigger] keys@.take(i + 1)[j])@ == x;
                        if j < i {
                            assert(keys@.take(i as int)[j]@ == x);
                        }
                    }
                    assert forall|x: K::V| key_set(keys@.take(i as int)).insert(kv).contains(x) implies key_set(
                        keys@.take(i + 1),
                    ).contains(x) by {
                        if x == kv {
                            assert(keys@.take(i + 1)[i as int]@ == x);
                        } else {
                            let j = choose|j: int|
                                0 <= j < keys@.take(i as int).len() && (#[trigger] keys@.take(i as int)[j])@
                                    == x;
                            assert(keys@.take(i + 1)[j]@ == x);
                        }
                    }
                }
                assert(key_set(keys@).contains(kv)) by {
                    assert(keys@[i as int]@ == kv);
                }
            }
            let removed = self.remove(&keys[i]);
            match removed {
                Some(v) => {
                    res.push(v);
                    proof {
                        from = from.push(kv);
                        assert(res@[before.len() as int] == v);
                    }
                },
                None => {},
            }
            proof {
                assert(self.map() =~= m0.remove_keys(key_set(keys@.take(i + 1))));
                assert forall|j: int| 0 <= j < res@.len() implies key_set(keys@).contains(
                    #[trigger] from[j],
                ) && m0.contains_key(from[j]) && res@[j] == m0[from[j]] by {
                    if j < before.len() {
                        assert(from[j] == from0[j]);
                        assert(res@[j] == before[j]);
                    }
                }
                assert forall|k: K::V|
                    key_set(keys@.take(i + 1)).contains(k) && #[trigger] m0.contains_key(k) implies exists|j: int|
                    0 <= j < from.len() && from[j] == k by {
                    if key_set(keys@.take(i as int)).contains(k) {
                        let j = choose|j: int| 0 <= j < from0.len() && from0[j] == k;
                        assert(from[j] == k);
                    } else {
                        assert(k == kv);
                        assert(from[from.len() - 1] == k);
                    }
                }
            }
            i += 1;
        }
        proof {
            assert(keys@.take(keys@.len() as int) =~= keys@);
            assert(m0 == old(self).map());
            assert forall|j: int| 0 <= j < res@.len() implies value_under(
                old(self).map(),
                keys@,
                #[trigger] res@[j],
            ) by {
                let k = from[j];
                assert(key_set(keys@).contains(k) && old(self).map().contains_key(k) && res@[j]
                    == old(self).map()[k]);
            }
            assert forall|k: K::V| key_set(keys@).contains(k) && #[trigger] m0.contains_key(k) implies exists|j: int|
                0 <= j < res@.len() && res@[j] == m0[k] by {
                let j = choose|j: int| 0 <= j < from.len() && from[j] == k;
                assert(res@[j] == m0[from[j]]);
            }
        }
        res
    }
}

} // verus!
