//! A sequence of `(key, value)` pairs with distinct keys, read as a map.
//! The stores of the server keep their entries in a `Vec` and state their
//! contracts over this map.

use vstd::prelude::*;

verus! {

/// The keys of `s`, in order.
pub open spec fn keys_of<K, V>(s: Seq<(K, V)>) -> Seq<K> {
    s.map_values(|e: (K, V)| e.0)
}

/// An index of `s` whose key is `k`.
pub open spec fn index_of_key<K, V>(s: Seq<(K, V)>, k: K) -> int {
    choose|i: int| 0 <= i < s.len() && s[i].0 == k
}

/// The pairs of `s` as a map from key to value.
pub open spec fn keyed_map<K, V>(s: Seq<(K, V)>) -> Map<K, V> {
    Map::new(|k: K| keys_of(s).contains(k), |k: K| s[index_of_key(s, k)].1)
}

/// Whether `after` keeps some of the entries of `before` and no others, as
/// many as `limit` allows.
pub open spec fn trimmed_to<K, V>(before: Map<K, V>, after: Map<K, V>, limit: nat) -> bool {
    &&& after.submap_of(before)
    &&& after.dom().finite()
    &&& after.len() == if before.len() > limit {
        limit
    } else {
        before.len()
    }
}

pub proof fn lemma_keyed_at<K, V>(s: Seq<(K, V)>, idx: int)
    requires
        0 <= idx < s.len(),
        keys_of(s).no_duplicates(),
    ensures
        keyed_map(s).contains_key(s[idx].0),
        keyed_map(s)[s[idx].0] == s[idx].1,
{
    let k = s[idx].0;
    assert(keys_of(s)[idx] == k);
    let j = index_of_key(s, k);
    assert(0 <= j < s.len() && s[j].0 == k);
    assert(keys_of(s)[j] == k);
    assert(j == idx);
}

pub proof fn lemma_keyed_absent<K, V>(s: Seq<(K, V)>, k: K)
    requires
        forall|i: int| 0 <= i < s.len() ==> s[i].0 != k,
    ensures
        !keyed_map(s).contains_key(k),
{
    if keys_of(s).contains(k) {
        let i = choose|i: int| 0 <= i < keys_of(s).len() && keys_of(s)[i] == k;
        assert(s[i].0 == k);
    }
}

pub proof fn lemma_keyed_empty<K, V>()
    ensures
        keyed_map(Seq::<(K, V)>::empty()) == Map::<K, V>::empty(),
{
    assert(keyed_map(Seq::<(K, V)>::empty()) =~= Map::<K, V>::empty());
}

pub proof fn lemma_keyed_push<K, V>(s: Seq<(K, V)>, e: (K, V))
    requires
        keys_of(s).no_duplicates(),
        forall|i: int| 0 <= i < s.len() ==> s[i].0 != e.0,
    ensures
        keys_of(s.push(e)).no_duplicates(),
        keyed_map(s.push(e)) == keyed_map(s).insert(e.0, e.1),
{
    let t = s.push(e);
    assert forall|a: int, b: int|
        0 <= a < t.len() && 0 <= b < t.len() && a != b implies keys_of(t)[a] != keys_of(t)[b] by {
        if a < s.len() && b < s.len() {
            assert(keys_of(s)[a] != keys_of(s)[b]);
        }
    }
    assert forall|key: K| #[trigger]
        keyed_map(t).contains_key(key) == keyed_map(s).insert(e.0, e.1).contains_key(key) by {
        if keys_of(t).contains(key) {
            let a = choose|a: int| 0 <= a < keys_of(t).len() && keys_of(t)[a] == key;
            if a < s.len() {
                assert(keys_of(s)[a] == key);
            }
        }
        if keys_of(s).contains(key) {
            let a = choose|a: int| 0 <= a < keys_of(s).len() && keys_of(s)[a] == key;
            assert(keys_of(t)[a] == key);
        }
        if key == e.0 {
            assert(keys_of(t)[s.len() as int] == key);
        }
    }
    assert forall|key: K| #[trigger] keyed_map(t).contains_key(key) implies keyed_map(t)[key]
        == keyed_map(s).insert(e.0, e.1)[key] by {
        let a = choose|a: int| 0 <= a < keys_of(t).len() && keys_of(t)[a] == key;
        lemma_keyed_at(t, a);
        if a < s.len() {
            lemma_keyed_at(s, a);
        }
    }
    assert(keyed_map(t) =~= keyed_map(s).insert(e.0, e.1));
}

pub proof fn lemma_keyed_update<K, V>(s: Seq<(K, V)>, i: int, v: V)
    requires
        0 <= i < s.len(),
        keys_of(s).no_duplicates(),
    ensures
        keys_of(s.update(i, (s[i].0, v))).no_duplicates(),
        keyed_map(s.update(i, (s[i].0, v))) == keyed_map(s).insert(s[i].0, v),
{
    let t = s.update(i, (s[i].0, v));
    assert(keys_of(t) =~= keys_of(s));
    assert forall|key: K| #[trigger] keyed_map(t).contains_key(key) implies keyed_map(t)[key]
        == keyed_map(s).insert(s[i].0, v)[key] by {
        let a = choose|a: int| 0 <= a < keys_of(t).len() && keys_of(t)[a] == key;
        lemma_keyed_at(t, a);
        if a != i {
            lemma_keyed_at(s, a);
            assert(keys_of(s)[a] != keys_of(s)[i]);
        }
    }
    lemma_keyed_at(s, i);
    assert(keyed_map(t) =~= keyed_map(s).insert(s[i].0, v));
}

pub proof fn lemma_keyed_len<K, V>(s: Seq<(K, V)>)
    requires
        keys_of(s).no_duplicates(),
    ensures
        keyed_map(s).dom().finite(),
        keyed_map(s).len() == s.len(),
{
    assert(keyed_map(s).dom() =~= keys_of(s).to_set());
    keys_of(s).unique_seq_to_set();
}

/// The first `n` pairs keep their keys apart and read as a part of the map.
pub proof fn lemma_keyed_take<K, V>(s: Seq<(K, V)>, n: int)
    requires
        0 <= n <= s.len(),
        keys_of(s).no_duplicates(),
    ensures
        keys_of(s.take(n)).no_duplicates(),
        keyed_map(s.take(n)).submap_of(keyed_map(s)),
{
    let t = s.take(n);
    assert forall|a: int, b: int|
        0 <= a < t.len() && 0 <= b < t.len() && a != b implies keys_of(t)[a] != keys_of(t)[b] by {
        assert(keys_of(s)[a] != keys_of(s)[b]);
    }
    assert forall|key: K| #[trigger] keyed_map(t).contains_key(key) implies keyed_map(
        s,
    ).contains_key(key) && keyed_map(t)[key] == keyed_map(s)[key] by {
        let a = choose|a: int| 0 <= a < keys_of(t).len() && keys_of(t)[a] == key;
        lemma_keyed_at(t, a);
        lemma_keyed_at(s, a);
    }
}

pub proof fn lemma_keyed_remove<K, V>(s: Seq<(K, V)>, i: int)
    requires
        0 <= i < s.len(),
        keys_of(s).no_duplicates(),
    ensures
        keys_of(s.remove(i)).no_duplicates(),
        keyed_map(s.remove(i)) == keyed_map(s).remove(s[i].0),
{
    let t = s.remove(i);
    let k = s[i].0;
    assert forall|a: int, b: int|
        0 <= a < t.len() && 0 <= b < t.len() && a != b implies keys_of(t)[a] != keys_of(t)[b] by {
        let a2 = if a < i {
            a
        } else {
            a + 1
        };
        let b2 = if b < i {
            b
        } else {
            b + 1
        };
        assert(keys_of(s)[a2] != keys_of(s)[b2]);
    }
    assert forall|key: K| #[trigger]
        keyed_map(t).contains_key(key) == keyed_map(s).remove(k).contains_key(key) by {
        if keys_of(t).contains(key) {
            let a = choose|a: int| 0 <= a < keys_of(t).len() && keys_of(t)[a] == key;
            let a2 = if a < i {
                a
            } else {
                a + 1
            };
            assert(keys_of(s)[a2] == key);
            assert(keys_of(s)[i] == k);
        }
        if keys_of(s).contains(key) && key != k {
            let a = choose|a: int| 0 <= a < keys_of(s).len() && keys_of(s)[a] == key;
            assert(a != i);
            let a2 = if a < i {
                a
            } else {
                a - 1
            };
            assert(keys_of(t)[a2] == key);
        }
    }
    assert forall|key: K| #[trigger] keyed_map(t).contains_key(key) implies keyed_map(t)[key]
        == keyed_map(s)[key] by {
        let a = choose|a: int| 0 <= a < keys_of(t).len() && keys_of(t)[a] == key;
        let a2 = if a < i {
            a
        } else {
            a + 1
        };
        lemma_keyed_at(t, a);
        lemma_keyed_at(s, a2);
    }
    assert(keyed_map(t) =~= keyed_map(s).remove(k));
}

} // verus!
