//! Association lists keyed by `String`, the representation behind every map of
//! the store: a vector of key/value pairs whose keys are distinct, read
//! abstractly as a `Map<Seq<char>, V>` plus the sequence of keys in insertion
//! order.
use vstd::prelude::*;

verus! {

/// Some entry of `s` has key `k`.
pub open spec fn str_has<V>(s: Seq<(String, V)>, k: Seq<char>) -> bool {
    exists|i: int| 0 <= i < s.len() && (#[trigger] s[i].0@) == k
}

/// The index of the entry with key `k` (unique when `str_uniq` holds).
pub open spec fn str_idx<V>(s: Seq<(String, V)>, k: Seq<char>) -> int {
    choose|i: int| 0 <= i < s.len() && (#[trigger] s[i].0@) == k
}

/// No two entries share a key.
pub open spec fn str_uniq<V>(s: Seq<(String, V)>) -> bool {
    forall|i: int, j: int|
        0 <= i < j < s.len() ==> (#[trigger] s[i].0@) != (#[trigger] s[j].0@)
}

/// The entries read as a finite map from key to stored value.
pub open spec fn str_map<V>(s: Seq<(String, V)>) -> Map<Seq<char>, V> {
    Map::new(|k: Seq<char>| str_has(s, k), |k: Seq<char>| s[str_idx(s, k)].1)
}

/// The keys of the entries, in storage order.
pub open spec fn keys_of<V>(s: Seq<(String, V)>) -> Seq<Seq<char>> {
    s.map_values(|p: (String, V)| p.0@)
}

/// With distinct keys, the entry at any index holding key `k` is the one the
/// map reads.
pub proof fn lemma_str_idx_of<V>(s: Seq<(String, V)>, k: Seq<char>, i: int)
    requires
        str_uniq(s),
        0 <= i < s.len(),
        s[i].0@ == k,
    ensures
        str_has(s, k),
        str_idx(s, k) == i,
        str_map(s).contains_key(k),
        str_map(s)[k] == s[i].1,
{
    assert(str_has(s, k));
    let j = str_idx(s, k);
    assert(0 <= j < s.len() && s[j].0@ == k);
}

/// Appending an entry with a fresh key inserts it into the map view.
pub proof fn lemma_str_push<V>(s: Seq<(String, V)>, p: (String, V))
    requires
        str_uniq(s),
        !str_has(s, p.0@),
    ensures
        str_uniq(s.push(p)),
        str_map(s.push(p)) == str_map(s).insert(p.0@, p.1),
        keys_of(s.push(p)) == keys_of(s).push(p.0@),
{
    let s2 = s.push(p);
    assert forall|i: int, j: int| 0 <= i < j < s2.len() implies (s2[i].0@) != (s2[j].0@) by {
        if j == s.len() {
            assert(s2[i] == s[i]);
            if s[i].0@ == p.0@ {
                assert(str_has(s, p.0@));
            }
        } else {
            assert(s2[i] == s[i]);
            assert(s2[j] == s[j]);
        }
    }
    assert forall|k: Seq<char>| #[trigger] str_map(s2).contains_key(k) implies
        str_map(s).insert(p.0@, p.1).contains_key(k)
        && str_map(s2)[k] == str_map(s).insert(p.0@, p.1)[k] by {
        let n = str_idx(s2, k);
        assert(0 <= n < s2.len() && s2[n].0@ == k);
        if n == s.len() {
            assert(s2[n] == p);
            lemma_str_idx_of(s2, k, n);
        } else {
            assert(s2[n] == s[n]);
            lemma_str_idx_of(s, k, n);
            lemma_str_idx_of(s2, k, n);
            assert(k != p.0@);
        }
    }
    assert forall|k: Seq<char>|
        #[trigger] str_map(s).insert(p.0@, p.1).contains_key(k) implies str_map(
        s2,
    ).contains_key(k) by {
        if k == p.0@ {
            assert(s2[s.len() as int] == p);
            lemma_str_idx_of(s2, k, s.len() as int);
        } else {
            let n = str_idx(s, k);
            assert(0 <= n < s.len() && s[n].0@ == k);
            assert(s2[n] == s[n]);
            assert(str_has(s2, k));
        }
    }
    assert(str_map(s2) =~= str_map(s).insert(p.0@, p.1));
    assert(keys_of(s2) =~= keys_of(s).push(p.0@));
}

/// Replacing the entry at the index of key `k` by a pair with the same key
/// updates the map view at `k` and keeps the key order.
pub proof fn lemma_str_update<V>(s: Seq<(String, V)>, i: int, p: (String, V))
    requires
        str_uniq(s),
        0 <= i < s.len(),
        s[i].0@ == p.0@,
    ensures
        str_uniq(s.update(i, p)),
        str_map(s.update(i, p)) == str_map(s).insert(p.0@, p.1),
        keys_of(s.update(i, p)) == keys_of(s),
{
    let s2 = s.update(i, p);
    assert forall|a: int, b: int| 0 <= a < b < s2.len() implies (s2[a].0@) != (s2[b].0@) by {
        assert(s2[a].0@ == s[a].0@);
        assert(s2[b].0@ == s[b].0@);
    }
    assert forall|k: Seq<char>| #[trigger] str_map(s2).contains_key(k) implies
        str_map(s).insert(p.0@, p.1).contains_key(k)
        && str_map(s2)[k] == str_map(s).insert(p.0@, p.1)[k] by {
        let n = str_idx(s2, k);
        assert(0 <= n < s2.len() && s2[n].0@ == k);
        lemma_str_idx_of(s2, k, n);
        if n == i {
            assert(s2[n] == p);
        } else {
            assert(s2[n] == s[n]);
            lemma_str_idx_of(s, k, n);
            assert(k != p.0@);
        }
    }
    assert forall|k: Seq<char>|
        #[trigger] str_map(s).insert(p.0@, p.1).contains_key(k) implies str_map(
        s2,
    ).contains_key(k) by {
        if k == p.0@ {
            assert(s2[i] == p);
            assert(str_has(s2, k));
        } else {
            let n = str_idx(s, k);
            assert(0 <= n < s.len() && s[n].0@ == k);
            assert(n != i);
            assert(s2[n] == s[n]);
            assert(str_has(s2, k));
        }
    }
    assert(str_map(s2) =~= str_map(s).insert(p.0@, p.1));
    assert(keys_of(s2) =~= keys_of(s));
}

/// Removing the entry at the index of key `k` removes `k` from the map view
/// and from the key order.
pub proof fn lemma_str_remove<V>(s: Seq<(String, V)>, i: int)
    requires
        str_uniq(s),
        0 <= i < s.len(),
    ensures
        str_uniq(s.remove(i)),
        str_map(s.remove(i)) == str_map(s).remove(s[i].0@),
        keys_of(s.remove(i)) == keys_of(s).remove_value(s[i].0@),
{
    let k0 = s[i].0@;
    let s2 = s.remove(i);
    assert forall|a: int, b: int| 0 <= a < b < s2.len() implies (s2[a].0@) != (s2[b].0@) by {
        let a0: int = if a < i { a } else { a + 1 };
        let b0: int = if b < i { b } else { b + 1 };
        assert(s2[a] == s[a0]);
        assert(s2[b] == s[b0]);
    }
    assert forall|k: Seq<char>| #[trigger] str_map(s2).contains_key(k) implies
        str_map(s).remove(k0).contains_key(k)
        && str_map(s2)[k] == str_map(s).remove(k0)[k] by {
        let n = str_idx(s2, k);
        assert(0 <= n < s2.len() && s2[n].0@ == k);
        lemma_str_idx_of(s2, k, n);
        let n0: int = if n < i { n } else { n + 1 };
        assert(s2[n] == s[n0]);
        lemma_str_idx_of(s, k, n0);
        assert(k != k0);
    }
    assert forall|k: Seq<char>| #[trigger] str_map(s).remove(k0).contains_key(k) implies str_map(
        s2,
    ).contains_key(k) by {
        let n = str_idx(s, k);
        assert(0 <= n < s.len() && s[n].0@ == k);
        assert(n != i);
        let n2: int = if n < i { n } else { n - 1 };
        assert(s2[n2] == s[n]);
        assert(str_has(s2, k));
    }
    assert(str_map(s2) =~= str_map(s).remove(k0));
    // key order: the one occurrence of k0 in keys_of(s) is at i
    let ks = keys_of(s);
    assert(ks[i] == k0);
    assert(ks.contains(k0));
    ks.index_of_first_ensures(k0);
    let f = ks.index_of_first(k0)->Some_0;
    assert(0 <= f < ks.len() && ks[f] == k0);
    assert(ks[f] == s[f].0@);
    assert(f == i);
    assert(ks.remove_value(k0) == ks.remove(i));
    assert forall|j: int| 0 <= j < s2.len() implies #[trigger] keys_of(s2)[j] == ks.remove(i)[j] by {
        if j < i {
            assert(s2[j] == s[j]);
        } else {
            assert(s2[j] == s[j + 1]);
        }
    }
    assert(keys_of(s2) =~= ks.remove(i));
}

/// A key list without duplicate entries has no duplicate keys.
pub proof fn lemma_keys_no_duplicates<V>(s: Seq<(String, V)>)
    requires
        str_uniq(s),
    ensures
        keys_of(s).no_duplicates(),
{
    assert forall|i: int, j: int|
        0 <= i < keys_of(s).len() && 0 <= j < keys_of(s).len() && i != j implies #[trigger] keys_of(
        s,
    )[i] != #[trigger] keys_of(s)[j] by {
        assert(keys_of(s)[i] == s[i].0@);
        assert(keys_of(s)[j] == s[j].0@);
    }
}

/// Membership in the key order agrees with the map view's domain.
pub proof fn lemma_keys_membership<V>(s: Seq<(String, V)>, k: Seq<char>)
    ensures
        keys_of(s).contains(k) <==> str_has(s, k),
{
    if keys_of(s).contains(k) {
        let i = choose|i: int| 0 <= i < keys_of(s).len() && keys_of(s)[i] == k;
        assert(s[i].0@ == k);
    }
    if str_has(s, k) {
        let i = str_idx(s, k);
        assert(0 <= i < s.len() && s[i].0@ == k);
        assert(keys_of(s)[i] == k);
    }
}

/// Pushing a value through `map_values` commutes with `insert`.
pub proof fn lemma_map_values_insert<K, V, W>(m: Map<K, V>, f: spec_fn(V) -> W, k: K, v: V)
    ensures
        m.insert(k, v).map_values(f) == m.map_values(f).insert(k, f(v)),
{
    assert(m.insert(k, v).map_values(f) =~= m.map_values(f).insert(k, f(v)));
}

/// Pushing a value through `map_values` commutes with `remove`.
pub proof fn lemma_map_values_remove<K, V, W>(m: Map<K, V>, f: spec_fn(V) -> W, k: K)
    ensures
        m.remove(k).map_values(f) == m.map_values(f).remove(k),
{
    assert(m.remove(k).map_values(f) =~= m.map_values(f).remove(k));
}

/// Removing then inserting at the same index replaces the element there.
pub proof fn lemma_remove_insert_is_update<T>(s: Seq<T>, i: int, x: T)
    requires
        0 <= i < s.len(),
    ensures
        s.remove(i).insert(i, x) == s.update(i, x),
{
    assert(s.remove(i).insert(i, x) =~= s.update(i, x));
}

/// Linear search for the entry with key `k`; the index of its first
/// occurrence, or `None` when no entry has that key.
pub fn str_pos<V>(v: &Vec<(String, V)>, k: &String) -> (r: Option<usize>)
    ensures
        match r {
            Some(i) => i < v.len() && v@[i as int].0@ == k@,
            None => !str_has(v@, k@),
        },
{
    let mut i: usize = 0;
    while i < v.len()
        invariant
            i <= v.len(),
            forall|j: int| 0 <= j < i ==> (#[trigger] v@[j].0@) != k@,
        decreases v.len() - i,
    {
        if v[i].0 == *k {
            return Some(i);
        }
        i += 1;
    }
    None
}

} // verus!
