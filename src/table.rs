//! Sequences of keyed entries read as maps.
use vstd::prelude::*;

verus! {

/// The keys of the entries, in order.
pub open spec fn keys_of<K, V>(s: Seq<(K, V)>) -> Seq<K> {
    s.map_values(|e: (K, V)| e.0)
}

/// The map from each key to the value of its entry.
pub open spec fn to_map<K, V>(s: Seq<(K, V)>) -> Map<K, V> {
    Map::new(
        |k: K| keys_of(s).contains(k),
        |k: K| s[choose|i: int| 0 <= i < s.len() && s[i].0 == k].1,
    )
}

/// Entry `i` gives the value of its key.
pub proof fn lemma_to_map_index<K, V>(s: Seq<(K, V)>, i: int)
    requires
        keys_of(s).no_duplicates(),
        0 <= i < s.len(),
    ensures
        to_map(s).contains_key(s[i].0),
        to_map(s)[s[i].0] == s[i].1,
{
    assert(keys_of(s)[i] == s[i].0);
    let j = choose|j: int| 0 <= j < s.len() && s[j].0 == s[i].0;
    assert(keys_of(s)[j] == keys_of(s)[i]);
}

/// The key `k` has no entry.
pub proof fn lemma_to_map_absent<K, V>(s: Seq<(K, V)>, k: K)
    requires
        forall|i: int| 0 <= i < s.len() ==> s[i].0 != k,
    ensures
        !to_map(s).contains_key(k),
{
    if keys_of(s).contains(k) {
        let i = choose|i: int| 0 <= i < keys_of(s).len() && keys_of(s)[i] == k;
        assert(s[i].0 == k);
    }
}

/// Replacing entry `i` by one with key `k` and value `v`, where `k` is the
/// entry's own key or a key that no entry has.
pub proof fn lemma_to_map_update<K, V>(s: Seq<(K, V)>, i: int, k: K, v: V)
    requires
        keys_of(s).no_duplicates(),
        0 <= i < s.len(),
        k == s[i].0 || !keys_of(s).contains(k),
    ensures
        keys_of(s.update(i, (k, v))).no_duplicates(),
        to_map(s.update(i, (k, v))) == to_map(s).remove(s[i].0).insert(k, v),
{
    let t = s.update(i, (k, v));
    let ks = keys_of(s);
    let kt = keys_of(t);
    assert(kt =~= ks.update(i, k));
    assert(ks[i] == s[i].0);
    assert forall|a: int, b: int| 0 <= a < kt.len() && 0 <= b < kt.len() && a != b implies kt[a]
        != kt[b] by {
        if a == i || b == i {
            let o = if a == i { b } else { a };
            assert(kt[o] == ks[o]);
            if kt[a] == kt[b] && k != s[i].0 {
                assert(ks[o] == k);
                assert(ks.contains(k));
            }
        }
    }
    let m = to_map(s).remove(s[i].0).insert(k, v);
    assert forall|x: K| #[trigger] m.contains_key(x) == to_map(t).contains_key(x) by {
        if ks.contains(x) && x != s[i].0 {
            let j = choose|j: int| 0 <= j < ks.len() && ks[j] == x;
            assert(kt[j] == x);
        }
        if kt.contains(x) && x != k {
            let j = choose|j: int| 0 <= j < kt.len() && kt[j] == x;
            assert(ks[j] == x);
        }
        assert(kt[i] == k);
    }
    assert forall|x: K| #[trigger] m.contains_key(x) implies m[x] == to_map(t)[x] by {
        let j = choose|j: int| 0 <= j < kt.len() && kt[j] == x;
        lemma_to_map_index(t, j);
        if j != i {
            lemma_to_map_index(s, j);
            assert(kt[i] == k);
            assert(x != k);
        }
    }
    assert(m =~= to_map(t));
}

/// Dropping entry `i` drops its key.
pub proof fn lemma_to_map_remove<K, V>(s: Seq<(K, V)>, i: int)
    requires
        keys_of(s).no_duplicates(),
        0 <= i < s.len(),
    ensures
        keys_of(s.remove(i)).no_duplicates(),
        to_map(s.remove(i)) == to_map(s).remove(s[i].0),
{
    let t = s.remove(i);
    assert(keys_of(t) =~= keys_of(s).remove(i));
    crate::names::lemma_remove_unique(keys_of(s), i);
    let m = to_map(s).remove(s[i].0);
    assert forall|x: K| #[trigger] m.contains_key(x) == to_map(t).contains_key(x) by {
        assert(keys_of(t).to_set().contains(x) == keys_of(t).contains(x));
        assert(keys_of(s).to_set().contains(x) == keys_of(s).contains(x));
    }
    assert forall|x: K| #[trigger] m.contains_key(x) implies m[x] == to_map(t)[x] by {
        let j = choose|j: int| 0 <= j < keys_of(t).len() && keys_of(t)[j] == x;
        lemma_to_map_index(t, j);
        if j < i {
            lemma_to_map_index(s, j);
        } else {
            lemma_to_map_index(s, j + 1);
        }
    }
    assert(m =~= to_map(t));
}

/// Adding an entry with a new key adds that key.
pub proof fn lemma_to_map_push<K, V>(s: Seq<(K, V)>, k: K, v: V)
    requires
        keys_of(s).no_duplicates(),
        !keys_of(s).contains(k),
    ensures
        keys_of(s.push((k, v))).no_duplicates(),
        to_map(s.push((k, v))) == to_map(s).insert(k, v),
{
    let t = s.push((k, v));
    assert(keys_of(t) =~= keys_of(s).push(k));
    assert forall|a: int, b: int| 0 <= a < t.len() && 0 <= b < t.len() && a != b implies keys_of(
        t,
    )[a] != keys_of(t)[b] by {
        if a < s.len() && b < s.len() {
            assert(keys_of(t)[a] == keys_of(s)[a]);
            assert(keys_of(t)[b] == keys_of(s)[b]);
        } else if a < s.len() {
            assert(keys_of(t)[a] == keys_of(s)[a]);
        } else {
            assert(keys_of(t)[b] == keys_of(s)[b]);
        }
    }
    let m = to_map(s).insert(k, v);
    assert forall|x: K| #[trigger] m.contains_key(x) == to_map(t).contains_key(x) by {
        if keys_of(s).contains(x) {
            let j = choose|j: int| 0 <= j < keys_of(s).len() && keys_of(s)[j] == x;
            assert(keys_of(t)[j] == x);
        }
        if keys_of(t).contains(x) && x != k {
            let j = choose|j: int| 0 <= j < keys_of(t).len() && keys_of(t)[j] == x;
            assert(keys_of(s)[j] == x);
        }
        assert(keys_of(t)[s.len() as int] == k);
    }
    assert forall|x: K| #[trigger] m.contains_key(x) implies m[x] == to_map(t)[x] by {
        let j = choose|j: int| 0 <= j < keys_of(t).len() && keys_of(t)[j] == x;
        lemma_to_map_index(t, j);
        if j < s.len() {
            lemma_to_map_index(s, j);
        }
    }
    assert(m =~= to_map(t));
}

} // verus!
