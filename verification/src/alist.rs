//! The mathematical model behind the registry's keyed collections.
//!
//! Every persistent collection in this crate is a vector of entries whose
//! specification-level meaning is a `Map` (for key/value collections) or a
//! `Set` (for id collections).  The spec functions and lemmas here relate a
//! sequence of entries to that meaning: membership, lookup under distinct
//! keys, and how push, update and removal of entries act on the map.

use vstd::prelude::*;

verus! {

/// The map an association sequence denotes: later entries overwrite earlier
/// ones with the same key.
pub open spec fn alist_map<K, V>(s: Seq<(K, V)>) -> Map<K, V>
    decreases s.len(),
{
    if s.len() == 0 {
        Map::empty()
    } else {
        alist_map(s.drop_last()).insert(s.last().0, s.last().1)
    }
}

/// Whether the sequence holds pairwise distinct keys.
pub open spec fn alist_keys_distinct<K, V>(s: Seq<(K, V)>) -> bool {
    forall|i: int, j: int| 0 <= i < j < s.len() ==> s[i].0 != s[j].0
}

/// A key is in the denoted map exactly when some entry carries it.
pub proof fn lemma_alist_map_contains<K, V>(s: Seq<(K, V)>, k: K)
    ensures
        alist_map(s).contains_key(k) <==> exists|i: int| 0 <= i < s.len() && s[i].0 == k,
    decreases s.len(),
{
    if s.len() > 0 {
        lemma_alist_map_contains(s.drop_last(), k);
        if s.last().0 == k {
            assert(s[s.len() - 1].0 == k);
        } else if alist_map(s).contains_key(k) {
            let i = choose|i: int| 0 <= i < s.drop_last().len() && s.drop_last()[i].0 == k;
            assert(s[i].0 == k);
        } else if exists|i: int| 0 <= i < s.len() && s[i].0 == k {
            let i = choose|i: int| 0 <= i < s.len() && s[i].0 == k;
            assert(s.drop_last()[i].0 == k);
        }
    }
}

/// Under distinct keys, each entry's key maps to that entry's value.
pub proof fn lemma_alist_map_get<K, V>(s: Seq<(K, V)>, i: int)
    requires
        alist_keys_distinct(s),
        0 <= i < s.len(),
    ensures
        alist_map(s).contains_key(s[i].0),
        alist_map(s)[s[i].0] == s[i].1,
    decreases s.len(),
{
    if i == s.len() - 1 {
    } else {
        assert(alist_keys_distinct(s.drop_last()));
        assert(s.drop_last()[i] == s[i]);
        lemma_alist_map_get(s.drop_last(), i);
        assert(s[i].0 != s.last().0);
    }
}

/// Appending an entry inserts its key.
pub proof fn lemma_alist_map_push<K, V>(s: Seq<(K, V)>, k: K, v: V)
    ensures
        alist_map(s.push((k, v))) == alist_map(s).insert(k, v),
{
    assert(s.push((k, v)).drop_last() =~= s);
    assert(s.push((k, v)).last() == (k, v));
}

/// Appending an entry with a fresh key keeps the keys distinct.
pub proof fn lemma_alist_distinct_push<K, V>(s: Seq<(K, V)>, k: K, v: V)
    requires
        alist_keys_distinct(s),
        forall|i: int| 0 <= i < s.len() ==> s[i].0 != k,
    ensures
        alist_keys_distinct(s.push((k, v))),
{
}

/// Overwriting the value at an entry updates the map at that entry's key.
pub proof fn lemma_alist_map_update<K, V>(s: Seq<(K, V)>, i: int, v: V)
    requires
        alist_keys_distinct(s),
        0 <= i < s.len(),
    ensures
        alist_keys_distinct(s.update(i, (s[i].0, v))),
        alist_map(s.update(i, (s[i].0, v))) =~= alist_map(s).insert(s[i].0, v),
    decreases s.len(),
{
    let t = s.update(i, (s[i].0, v));
    assert forall|x: int, y: int| 0 <= x < y < t.len() implies t[x].0 != t[y].0 by {
        assert(t[x].0 == s[x].0);
        assert(t[y].0 == s[y].0);
    }
    if i == s.len() - 1 {
        assert(t.drop_last() =~= s.drop_last());
        assert(t.last() == (s[i].0, v));
    } else {
        assert(t.drop_last() =~= s.drop_last().update(i, (s[i].0, v)));
        assert(alist_keys_distinct(s.drop_last()));
        assert(s.drop_last()[i] == s[i]);
        lemma_alist_map_update(s.drop_last(), i, v);
        assert(t.last() == s.last());
        assert(s[i].0 != s.last().0);
        assert(alist_map(t) =~= alist_map(s).insert(s[i].0, v));
    }
}

/// Removing an entry removes its key from the map, if keys are distinct.
pub proof fn lemma_alist_map_remove<K, V>(s: Seq<(K, V)>, i: int)
    requires
        alist_keys_distinct(s),
        0 <= i < s.len(),
    ensures
        alist_keys_distinct(s.remove(i)),
        alist_map(s.remove(i)) =~= alist_map(s).remove(s[i].0),
    decreases s.len(),
{
    let t = s.remove(i);
    assert forall|x: int, y: int| 0 <= x < y < t.len() implies t[x].0 != t[y].0 by {
        if x < i {
            assert(t[x] == s[x]);
        } else {
            assert(t[x] == s[x + 1]);
        }
        if y < i {
            assert(t[y] == s[y]);
        } else {
            assert(t[y] == s[y + 1]);
        }
    }
    if i == s.len() - 1 {
        assert(t =~= s.drop_last());
        lemma_alist_map_not_contains(s.drop_last(), s[i].0);
        assert(alist_map(s.remove(i)) =~= alist_map(s).remove(s[i].0));
    } else {
        assert(t.drop_last() =~= s.drop_last().remove(i));
        assert(alist_keys_distinct(s.drop_last()));
        assert(s.drop_last()[i] == s[i]);
        lemma_alist_map_remove(s.drop_last(), i);
        assert(t.last() == s.last());
        assert(s[i].0 != s.last().0);
        assert(alist_map(t) =~= alist_map(s).remove(s[i].0));
    }
}

/// A key no entry carries is not in the map.
pub proof fn lemma_alist_map_not_contains<K, V>(s: Seq<(K, V)>, k: K)
    requires
        forall|i: int| 0 <= i < s.len() ==> s[i].0 != k,
    ensures
        !alist_map(s).contains_key(k),
{
    lemma_alist_map_contains(s, k);
}

/// The set a sequence of elements denotes.
pub open spec fn elem_set<T>(s: Seq<T>) -> Set<T>
    decreases s.len(),
{
    if s.len() == 0 {
        Set::empty()
    } else {
        elem_set(s.drop_last()).insert(s.last())
    }
}

/// An element is in the denoted set exactly when the sequence holds it.
pub proof fn lemma_elem_set_contains<T>(s: Seq<T>, x: T)
    ensures
        elem_set(s).contains(x) <==> exists|i: int| 0 <= i < s.len() && s[i] == x,
    decreases s.len(),
{
    if s.len() > 0 {
        lemma_elem_set_contains(s.drop_last(), x);
        if s.last() == x {
            assert(s[s.len() - 1] == x);
        } else if elem_set(s).contains(x) {
            let i = choose|i: int| 0 <= i < s.drop_last().len() && s.drop_last()[i] == x;
            assert(s[i] == x);
        } else if exists|i: int| 0 <= i < s.len() && s[i] == x {
            let i = choose|i: int| 0 <= i < s.len() && s[i] == x;
            assert(s.drop_last()[i] == x);
        }
    }
}

/// Appending an element inserts it into the set.
pub proof fn lemma_elem_set_push<T>(s: Seq<T>, x: T)
    ensures
        elem_set(s.push(x)) == elem_set(s).insert(x),
{
    assert(s.push(x).drop_last() =~= s);
    assert(s.push(x).last() == x);
}

} // verus!
