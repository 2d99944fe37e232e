//! Sequences whose elements carry unique keys, seen as maps.
use vstd::prelude::*;

verus! {

/// No two elements of `s` share a key.
pub open spec fn keys_unique<V, K>(s: Seq<V>, key: spec_fn(V) -> K) -> bool {
    forall|i: int, j: int| 0 <= i < j < s.len() ==> key(#[trigger] s[i]) != key(#[trigger] s[j])
}

/// The map from each element's key to the element.
pub open spec fn seq_to_map<V, K>(s: Seq<V>, key: spec_fn(V) -> K) -> Map<K, V>
    decreases s.len(),
{
    if s.len() == 0 {
        Map::empty()
    } else {
        seq_to_map(s.drop_last(), key).insert(key(s.last()), s.last())
    }
}

/// The map's keys are exactly the elements' keys.
pub proof fn lemma_map_domain<V, K>(s: Seq<V>, key: spec_fn(V) -> K, k: K)
    ensures
        seq_to_map(s, key).contains_key(k) <==> exists|i: int| 0 <= i < s.len() && key(s[i]) == k,
    decreases s.len(),
{
    if s.len() > 0 {
        lemma_map_domain(s.drop_last(), key, k);
        if seq_to_map(s, key).contains_key(k) && key(s.last()) != k {
            let i = choose|i: int| 0 <= i < s.drop_last().len() && key(s.drop_last()[i]) == k;
            assert(key(s[i]) == k);
        }
        if exists|i: int| 0 <= i < s.len() && key(s[i]) == k {
            let i = choose|i: int| 0 <= i < s.len() && key(s[i]) == k;
            if i < s.len() - 1 {
                assert(key(s.drop_last()[i]) == k);
            }
        }
    }
}

/// Under unique keys, each element is what the map gives for its key.
pub proof fn lemma_map_index<V, K>(s: Seq<V>, key: spec_fn(V) -> K, i: int)
    requires
        keys_unique(s, key),
        0 <= i < s.len(),
    ensures
        seq_to_map(s, key).contains_key(key(s[i])),
        seq_to_map(s, key)[key(s[i])] == s[i],
    decreases s.len(),
{
    if i < s.len() - 1 {
        assert(s.drop_last()[i] == s[i]);
        assert(keys_unique(s.drop_last(), key)) by {
            assert forall|a: int, b: int| 0 <= a < b < s.drop_last().len() implies key(
                #[trigger] s.drop_last()[a],
            ) != key(#[trigger] s.drop_last()[b]) by {
                assert(s.drop_last()[a] == s[a] && s.drop_last()[b] == s[b]);
            }
        }
        lemma_map_index(s.drop_last(), key, i);
        assert(key(s[i]) != key(s[s.len() - 1]));
    }
}

/// Appending an element with a new key adds it to the map.
pub proof fn lemma_map_push<V, K>(s: Seq<V>, key: spec_fn(V) -> K, v: V)
    requires
        keys_unique(s, key),
        !seq_to_map(s, key).contains_key(key(v)),
    ensures
        keys_unique(s.push(v), key),
        seq_to_map(s.push(v), key) == seq_to_map(s, key).insert(key(v), v),
{
    assert(s.push(v).drop_last() =~= s);
    assert forall|a: int, b: int| 0 <= a < b < s.push(v).len() implies key(#[trigger] s.push(v)[a])
        != key(#[trigger] s.push(v)[b]) by {
        if b == s.len() {
            lemma_map_domain(s, key, key(v));
            assert(s.push(v)[a] == s[a]);
        } else {
            assert(s.push(v)[a] == s[a] && s.push(v)[b] == s[b]);
        }
    }
}

/// Replacing an element by one with the same key replaces it in the map.
pub proof fn lemma_map_update<V, K>(s: Seq<V>, key: spec_fn(V) -> K, i: int, v: V)
    requires
        keys_unique(s, key),
        0 <= i < s.len(),
        key(v) == key(s[i]),
    ensures
        keys_unique(s.update(i, v), key),
        seq_to_map(s.update(i, v), key) == seq_to_map(s, key).insert(key(v), v),
    decreases s.len(),
{
    let t = s.update(i, v);
    assert forall|a: int, b: int| 0 <= a < b < t.len() implies key(#[trigger] t[a]) != key(
        #[trigger] t[b],
    ) by {
        assert(key(t[a]) == key(s[a]) && key(t[b]) == key(s[b]));
    }
    if i == s.len() - 1 {
        assert(t.drop_last() =~= s.drop_last());
        assert(seq_to_map(t, key) =~= seq_to_map(s, key).insert(key(v), v));
    } else {
        assert(t.drop_last() =~= s.drop_last().update(i, v));
        assert(keys_unique(s.drop_last(), key)) by {
            assert forall|a: int, b: int| 0 <= a < b < s.drop_last().len() implies key(
                #[trigger] s.drop_last()[a],
            ) != key(#[trigger] s.drop_last()[b]) by {
                assert(s.drop_last()[a] == s[a] && s.drop_last()[b] == s[b]);
            }
        }
        assert(s.drop_last()[i] == s[i]);
        lemma_map_update(s.drop_last(), key, i, v);
        assert(key(s.last()) != key(v));
        assert(seq_to_map(t, key) =~= seq_to_map(s, key).insert(key(v), v));
    }
}

/// Removing an element removes its key from the map.
pub proof fn lemma_map_remove<V, K>(s: Seq<V>, key: spec_fn(V) -> K, i: int)
    requires
        keys_unique(s, key),
        0 <= i < s.len(),
    ensures
        keys_unique(s.remove(i), key),
        seq_to_map(s.remove(i), key) == seq_to_map(s, key).remove(key(s[i])),
    decreases s.len(),
{
    let t = s.remove(i);
    assert forall|a: int, b: int| 0 <= a < b < t.len() implies key(#[trigger] t[a]) != key(
        #[trigger] t[b],
    ) by {
        let a2 = if a < i { a } else { a + 1 };
        let b2 = if b < i { b } else { b + 1 };
        assert(t[a] == s[a2] && t[b] == s[b2]);
    }
    assert(keys_unique(s.drop_last(), key)) by {
        assert forall|a: int, b: int| 0 <= a < b < s.drop_last().len() implies key(
            #[trigger] s.drop_last()[a],
        ) != key(#[trigger] s.drop_last()[b]) by {
            assert(s.drop_last()[a] == s[a] && s.drop_last()[b] == s[b]);
        }
    }
    if i == s.len() - 1 {
        assert(t =~= s.drop_last());
        lemma_map_domain(s.drop_last(), key, key(s[i]));
        if seq_to_map(s.drop_last(), key).contains_key(key(s[i])) {
            let j = choose|j: int| 0 <= j < s.drop_last().len() && key(s.drop_last()[j]) == key(s[i]);
            assert(key(s[j]) == key(s[i]));
        }
        assert(seq_to_map(t, key) =~= seq_to_map(s, key).remove(key(s[i])));
    } else {
        assert(t.drop_last() =~= s.drop_last().remove(i));
        assert(t.last() == s.last());
        assert(s.drop_last()[i] == s[i]);
        lemma_map_remove(s.drop_last(), key, i);
        assert(key(s.last()) != key(s[i]));
        assert(seq_to_map(t, key) =~= seq_to_map(s, key).remove(key(s[i])));
    }
}

/// Under unique keys, the map has as many entries as the sequence.
pub proof fn lemma_map_len<V, K>(s: Seq<V>, key: spec_fn(V) -> K)
    requires
        keys_unique(s, key),
    ensures
        seq_to_map(s, key).len() == s.len(),
        seq_to_map(s, key).dom().finite(),
    decreases s.len(),
{
    if s.len() > 0 {
        let p = s.drop_last();
        assert(keys_unique(p, key)) by {
            assert forall|a: int, b: int| 0 <= a < b < p.len() implies key(#[trigger] p[a]) != key(
                #[trigger] p[b],
            ) by {
                assert(p[a] == s[a] && p[b] == s[b]);
            }
        }
        lemma_map_len(p, key);
        lemma_map_domain(p, key, key(s.last()));
        if seq_to_map(p, key).contains_key(key(s.last())) {
            let i = choose|i: int| 0 <= i < p.len() && key(p[i]) == key(s.last());
            assert(p[i] == s[i]);
        }
    }
}

} // verus!
