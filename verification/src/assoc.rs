//! Lists of keyed entries read as maps. The tables of this library are
//! vectors in which no key occurs twice; these definitions say which map such
//! a vector stands for and how the map follows the vector's changes.

use vstd::prelude::*;

verus! {

/// The map that the keys and their values, position by position, stand for.
pub open spec fn assoc_map<K, V>(keys: Seq<K>, values: Seq<V>) -> Map<K, V> {
    Map::new(|k: K| keys.contains(k), |k: K| values[keys.index_of(k)])
}

/// The entry at position `i` is the map's entry for the key at `i`.
pub proof fn lemma_assoc_at<K, V>(keys: Seq<K>, values: Seq<V>, i: int)
    requires
        keys.no_duplicates(),
        0 <= i < keys.len(),
    ensures
        assoc_map(keys, values).contains_key(keys[i]),
        assoc_map(keys, values)[keys[i]] == values[i],
{
    assert(keys.contains(keys[i]));
    assert(keys.index_of(keys[i]) == i);
}

/// Appending an entry under a new key inserts it into the map.
pub proof fn lemma_assoc_push<K, V>(keys: Seq<K>, values: Seq<V>, k: K, v: V)
    requires
        keys.no_duplicates(),
        keys.len() == values.len(),
        !keys.contains(k),
    ensures
        keys.push(k).no_duplicates(),
        assoc_map(keys.push(k), values.push(v)) == assoc_map(keys, values).insert(k, v),
{
    let keys2 = keys.push(k);
    let values2 = values.push(v);
    assert forall|i: int, j: int|
        0 <= i < keys2.len() && 0 <= j < keys2.len() && i != j implies keys2[i] != keys2[j] by {
        if i < keys.len() {
            assert(keys.contains(keys[i]));
        }
        if j < keys.len() {
            assert(keys.contains(keys[j]));
        }
    }
    let before = assoc_map(keys, values).insert(k, v);
    let after = assoc_map(keys2, values2);
    assert forall|x: K| after.contains_key(x) <==> before.contains_key(x) by {
        if keys2.contains(x) {
            let i = keys2.index_of(x);
            if i < keys.len() {
                assert(keys[i] == x);
            }
        }
        if keys.contains(x) {
            let i = keys.index_of(x);
            assert(keys2[i] == x);
        }
        if x == k {
            assert(keys2[keys.len() as int] == x);
        }
    }
    assert forall|x: K| after.contains_key(x) implies after[x] == before[x] by {
        let i = keys2.index_of(x);
        if i < keys.len() {
            assert(keys[i] == x);
            lemma_assoc_at(keys, values, i);
        }
    }
    assert(after =~= before);
}

/// Replacing the value at position `i` replaces the map's entry for that key.
pub proof fn lemma_assoc_update<K, V>(keys: Seq<K>, values: Seq<V>, i: int, v: V)
    requires
        keys.no_duplicates(),
        keys.len() == values.len(),
        0 <= i < keys.len(),
    ensures
        assoc_map(keys, values.update(i, v)) == assoc_map(keys, values).insert(keys[i], v),
{
    let before = assoc_map(keys, values).insert(keys[i], v);
    let after = assoc_map(keys, values.update(i, v));
    assert(keys.contains(keys[i]));
    assert forall|x: K| after.contains_key(x) implies after[x] == before[x] by {
        let j = keys.index_of(x);
        assert(keys[j] == x);
    }
    assert(after =~= before);
}

/// Taking out the entry at position `i` removes its key from the map.
pub proof fn lemma_assoc_remove<K, V>(keys: Seq<K>, values: Seq<V>, i: int)
    requires
        keys.no_duplicates(),
        keys.len() == values.len(),
        0 <= i < keys.len(),
    ensures
        keys.remove(i).no_duplicates(),
        assoc_map(keys.remove(i), values.remove(i)) == assoc_map(keys, values).remove(keys[i]),
{
    let keys2 = keys.remove(i);
    let values2 = values.remove(i);
    let before = assoc_map(keys, values).remove(keys[i]);
    let after = assoc_map(keys2, values2);
    assert forall|a: int| 0 <= a < keys2.len() implies {
        &&& keys2[a] == keys[if a < i { a } else { a + 1 }]
        &&& values2[a] == values[if a < i { a } else { a + 1 }]
    } by {}
    assert forall|x: K| after.contains_key(x) <==> before.contains_key(x) by {
        if keys2.contains(x) {
            let a = keys2.index_of(x);
            let b = if a < i { a } else { a + 1 };
            assert(keys[b] == x);
        }
        if keys.contains(x) && x != keys[i] {
            let b = keys.index_of(x);
            let a = if b < i { b } else { b - 1 };
            assert(keys2[a] == x);
        }
    }
    assert forall|x: K| after.contains_key(x) implies after[x] == before[x] by {
        let a = keys2.index_of(x);
        let b = if a < i { a } else { a + 1 };
        assert(keys[b] == x);
        lemma_assoc_at(keys, values, b);
    }
    assert(after =~= before);
}

} // verus!
