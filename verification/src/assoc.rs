//! Association lists keyed by text: the model of the registry's two tables.
//! An entry keeps its place when its value is replaced, and a new key goes to
//! the end.

use vstd::prelude::*;

verus! {

/// Whether some entry has the key.
pub open spec fn has_key<V>(s: Seq<(Seq<char>, V)>, k: Seq<char>) -> bool {
    exists|i: int| 0 <= i < s.len() && (#[trigger] s[i]).0 == k
}

/// The place of an entry with the key, where there is one.
pub open spec fn key_index<V>(s: Seq<(Seq<char>, V)>, k: Seq<char>) -> int {
    choose|i: int| 0 <= i < s.len() && (#[trigger] s[i]).0 == k
}

/// The value bound to the key, if any.
pub open spec fn get<V>(s: Seq<(Seq<char>, V)>, k: Seq<char>) -> Option<V> {
    if has_key(s, k) {
        Some(s[key_index(s, k)].1)
    } else {
        None
    }
}

/// The list with `k` bound to `v`: in place where `k` was bound, else at the end.
pub open spec fn put<V>(s: Seq<(Seq<char>, V)>, k: Seq<char>, v: V) -> Seq<(Seq<char>, V)> {
    if has_key(s, k) {
        s.update(key_index(s, k), (k, v))
    } else {
        s.push((k, v))
    }
}

/// The list with each of `keys` bound to `v`, first key first.
pub open spec fn put_all<V>(s: Seq<(Seq<char>, V)>, keys: Seq<Seq<char>>, v: V) -> Seq<
    (Seq<char>, V),
>
    decreases keys.len(),
{
    if keys.len() == 0 {
        s
    } else {
        put(put_all(s, keys.drop_last(), v), keys.last(), v)
    }
}

/// No key occurs twice.
pub open spec fn unique_keys<V>(s: Seq<(Seq<char>, V)>) -> bool {
    forall|i: int, j: int| 0 <= i < j < s.len() ==> (#[trigger] s[i]).0 != (#[trigger] s[j]).0
}

/// In a list without repeated keys, an entry with the key is the entry of the key.
pub proof fn lemma_key_index<V>(s: Seq<(Seq<char>, V)>, k: Seq<char>, i: int)
    requires
        unique_keys(s),
        0 <= i < s.len(),
        s[i].0 == k,
    ensures
        has_key(s, k),
        key_index(s, k) == i,
        get(s, k) == Some(s[i].1),
{
    let j = key_index(s, k);
    assert(0 <= j < s.len() && s[j].0 == k);
    if j < i {
        assert(s[j].0 != s[i].0);
    } else if i < j {
        assert(s[i].0 != s[j].0);
    }
}

/// Binding a key keeps the keys distinct, binds that key and leaves every other
/// key as it was.
pub proof fn lemma_put<V>(s: Seq<(Seq<char>, V)>, k: Seq<char>, v: V)
    requires
        unique_keys(s),
    ensures
        unique_keys(put(s, k, v)),
        get(put(s, k, v), k) == Some(v),
        forall|other: Seq<char>| other != k ==> get(put(s, k, v), other) == get(s, other),
        forall|other: Seq<char>| has_key(put(s, k, v), other) <==> (other == k || has_key(s, other)),
{
    let t = put(s, k, v);
    if has_key(s, k) {
        let i = key_index(s, k);
        assert(t.len() == s.len());
        assert forall|a: int, b: int| 0 <= a < b < t.len() implies (#[trigger] t[a]).0 != (
        #[trigger] t[b]).0 by {
            assert(t[a].0 == s[a].0);
            assert(t[b].0 == s[b].0);
        }
        assert(t[i] == (k, v));
        lemma_key_index(t, k, i);
        assert forall|other: Seq<char>| other != k implies get(t, other) == get(s, other) by {
            if has_key(s, other) {
                let j = key_index(s, other);
                assert(t[j] == s[j]);
                lemma_key_index(t, other, j);
            } else if has_key(t, other) {
                let j = key_index(t, other);
                assert(s[j].0 == other);
            }
        }
        assert forall|other: Seq<char>| has_key(t, other) <==> (other == k || has_key(
            s,
            other,
        )) by {
            if has_key(t, other) && other != k {
                let j = key_index(t, other);
                assert(s[j].0 == other);
            }
            if has_key(s, other) {
                let j = key_index(s, other);
                assert(t[j].0 == other);
            }
        }
    } else {
        let n = s.len() as int;
        assert(t[n] == (k, v));
        assert forall|a: int, b: int| 0 <= a < b < t.len() implies (#[trigger] t[a]).0 != (
        #[trigger] t[b]).0 by {
            assert(t[a] == s[a]);
            if b < n {
                assert(t[b] == s[b]);
            }
        }
        lemma_key_index(t, k, n);
        assert forall|other: Seq<char>| other != k implies get(t, other) == get(s, other) by {
            if has_key(s, other) {
                let j = key_index(s, other);
                assert(t[j] == s[j]);
                lemma_key_index(t, other, j);
            } else if has_key(t, other) {
                let j = key_index(t, other);
                assert(s[j].0 == other);
            }
        }
        assert forall|other: Seq<char>| has_key(t, other) <==> (other == k || has_key(
            s,
            other,
        )) by {
            if has_key(t, other) && other != k {
                let j = key_index(t, other);
                assert(s[j].0 == other);
            }
            if has_key(s, other) {
                let j = key_index(s, other);
                assert(t[j].0 == other);
            }
        }
    }
}

/// Binding a key to the value it already has changes nothing.
pub proof fn lemma_put_same<V>(s: Seq<(Seq<char>, V)>, k: Seq<char>, v: V)
    requires
        get(s, k) == Some(v),
    ensures
        put(s, k, v) == s,
{
    let i = key_index(s, k);
    assert(s[i] == (k, v));
    assert(s.update(i, (k, v)) =~= s);
}

/// After binding each of `keys` to `v`, the keys are distinct and each of
/// `keys` is bound to `v`.
pub proof fn lemma_put_all<V>(s: Seq<(Seq<char>, V)>, keys: Seq<Seq<char>>, v: V)
    requires
        unique_keys(s),
    ensures
        unique_keys(put_all(s, keys, v)),
        forall|i: int| 0 <= i < keys.len() ==> get(put_all(s, keys, v), #[trigger] keys[i]) == Some(v),
        forall|other: Seq<char>| !keys.contains(other) ==> get(put_all(s, keys, v), other) == get(s, other),
    decreases keys.len(),
{
    if keys.len() > 0 {
        let prev = put_all(s, keys.drop_last(), v);
        lemma_put_all(s, keys.drop_last(), v);
        lemma_put(prev, keys.last(), v);
        assert forall|i: int| 0 <= i < keys.len() implies get(
            put_all(s, keys, v),
            #[trigger] keys[i],
        ) == Some(v) by {
            if keys[i] != keys.last() {
                assert(keys.drop_last()[i] == keys[i]);
            }
        }
        assert forall|other: Seq<char>| !keys.contains(other) implies get(
            put_all(s, keys, v),
            other,
        ) == get(s, other) by {
            assert(other != keys.last());
            if keys.drop_last().contains(other) {
                let j = choose|j: int| 0 <= j < keys.drop_last().len() && keys.drop_last()[j] == other;
                assert(keys[j] == other);
            }
        }
    }
}

/// Binding keys that are all bound to `v` already changes nothing.
pub proof fn lemma_put_all_same<V>(s: Seq<(Seq<char>, V)>, keys: Seq<Seq<char>>, v: V)
    requires
        forall|i: int| 0 <= i < keys.len() ==> get(s, #[trigger] keys[i]) == Some(v),
    ensures
        put_all(s, keys, v) == s,
    decreases keys.len(),
{
    if keys.len() > 0 {
        assert forall|i: int| 0 <= i < keys.drop_last().len() implies get(
            s,
            #[trigger] keys.drop_last()[i],
        ) == Some(v) by {
            assert(keys.drop_last()[i] == keys[i]);
        }
        lemma_put_all_same(s, keys.drop_last(), v);
        assert(keys.last() == keys[keys.len() - 1]);
        lemma_put_same(s, keys.last(), v);
    }
}

} // verus!
