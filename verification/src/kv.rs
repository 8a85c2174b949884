//! Association sequences: the mathematical reading of a vector of key/value
//! pairs as a map, together with the lemmas the cache uses to maintain it.

use vstd::prelude::*;

verus! {

/// The map an association sequence denotes; a later pair overrides an
/// earlier one with the same key.
pub(crate) open spec fn assoc_map<K, V>(s: Seq<(K, V)>) -> Map<K, V>
    decreases s.len(),
{
    if s.len() == 0 {
        Map::empty()
    } else {
        assoc_map(s.drop_last()).insert(s.last().0, s.last().1)
    }
}

/// No two pairs share a key.
pub(crate) open spec fn unique_keys<K, V>(s: Seq<(K, V)>) -> bool {
    forall|i: int, j: int|
        0 <= i < j < s.len() ==> (#[trigger] s[i]).0 != (#[trigger] s[j]).0
}

/// A key that occurs in no pair is not in the map.
pub(crate) proof fn lemma_assoc_absent<K, V>(s: Seq<(K, V)>, k: K)
    requires
        forall|i: int| 0 <= i < s.len() ==> (#[trigger] s[i]).0 != k,
    ensures
        !assoc_map(s).contains_key(k),
    decreases s.len(),
{
    if s.len() > 0 {
        let t = s.drop_last();
        assert(forall|i: int| 0 <= i < t.len() ==> (#[trigger] t[i]).0 != k) by {
            assert(forall|i: int| 0 <= i < t.len() ==> t[i] == s[i]);
        }
        lemma_assoc_absent(t, k);
        assert(s.last() == s[s.len() - 1]);
    }
}

/// With unique keys, the pair at any index gives the map's value at its key.
pub(crate) proof fn lemma_assoc_found<K, V>(s: Seq<(K, V)>, k: K, i: int)
    requires
        unique_keys(s),
        0 <= i < s.len(),
        s[i].0 == k,
    ensures
        assoc_map(s).contains_key(k),
        assoc_map(s)[k] == s[i].1,
    decreases s.len(),
{
    let t = s.drop_last();
    assert(forall|x: int, y: int|
        0 <= x < y < t.len() ==> (#[trigger] t[x]).0 != (#[trigger] t[y]).0) by {
        assert(forall|x: int| 0 <= x < t.len() ==> t[x] == s[x]);
    }
    if i == s.len() - 1 {
        assert(s.last() == s[i]);
    } else {
        assert(t[i] == s[i]);
        lemma_assoc_found(t, k, i);
        assert(s.last() == s[s.len() - 1]);
        assert(s[s.len() - 1].0 != k);
    }
}

/// Every key in the map occurs in some pair.
pub(crate) proof fn lemma_assoc_dom_all<K, V>(s: Seq<(K, V)>)
    ensures
        forall|k: K|
            #[trigger] assoc_map(s).contains_key(k) ==> exists|i: int|
                0 <= i < s.len() && (#[trigger] s[i]).0 == k,
    decreases s.len(),
{
    if s.len() > 0 {
        let t = s.drop_last();
        lemma_assoc_dom_all(t);
        assert forall|k: K| #[trigger] assoc_map(s).contains_key(k) implies exists|i: int|
            0 <= i < s.len() && (#[trigger] s[i]).0 == k by {
            if k == s.last().0 {
                assert(s[s.len() - 1].0 == k);
            } else {
                assert(assoc_map(t).contains_key(k));
                let i = choose|i: int| 0 <= i < t.len() && (#[trigger] t[i]).0 == k;
                assert(t[i] == s[i]);
                assert(s[i].0 == k);
            }
        }
    }
}

/// The key of every pair is in the map.
pub(crate) proof fn lemma_assoc_contains_index<K, V>(s: Seq<(K, V)>)
    ensures
        forall|i: int| 0 <= i < s.len() ==> assoc_map(s).contains_key((#[trigger] s[i]).0),
    decreases s.len(),
{
    if s.len() > 0 {
        let t = s.drop_last();
        lemma_assoc_contains_index(t);
        assert forall|i: int| 0 <= i < s.len() implies assoc_map(s).contains_key(
            (#[trigger] s[i]).0,
        ) by {
            if i < s.len() - 1 {
                assert(t[i] == s[i]);
                assert(assoc_map(t).contains_key(t[i].0));
            } else {
                assert(s.last() == s[i]);
            }
        }
    }
}

/// With unique keys, dropping the pair at a key's index removes exactly that
/// key from the map, and keeps the remaining keys unique.
pub(crate) proof fn lemma_assoc_remove<K, V>(s: Seq<(K, V)>, k: K, i: int)
    requires
        unique_keys(s),
        0 <= i < s.len(),
        s[i].0 == k,
    ensures
        assoc_map(s.remove(i)) == assoc_map(s).remove(k),
        unique_keys(s.remove(i)),
    decreases s.len(),
{
    let r = s.remove(i);
    assert(forall|x: int, y: int|
        0 <= x < y < r.len() ==> (#[trigger] r[x]).0 != (#[trigger] r[y]).0) by {
        assert(forall|x: int| 0 <= x < r.len() ==> r[x] == (if x < i {
            s[x]
        } else {
            s[x + 1]
        }));
    }
    let t = s.drop_last();
    assert(forall|x: int, y: int|
        0 <= x < y < t.len() ==> (#[trigger] t[x]).0 != (#[trigger] t[y]).0) by {
        assert(forall|x: int| 0 <= x < t.len() ==> t[x] == s[x]);
    }
    if i == s.len() - 1 {
        assert(r =~= t);
        assert(forall|x: int| 0 <= x < t.len() ==> (#[trigger] t[x]).0 != k) by {
            assert(forall|x: int| 0 <= x < t.len() ==> t[x] == s[x]);
            assert(s[i].0 == k);
        }
        lemma_assoc_absent(t, k);
        assert(assoc_map(s) == assoc_map(t).insert(k, s.last().1));
        assert(assoc_map(s).remove(k) =~= assoc_map(t));
    } else {
        assert(r.len() == s.len() - 1);
        assert(r.last() == s.last());
        assert(r.drop_last() =~= t.remove(i));
        assert(t[i] == s[i]);
        lemma_assoc_remove(t, k, i);
        assert(assoc_map(r) == assoc_map(t).remove(k).insert(s.last().0, s.last().1));
        assert(s.last() == s[s.len() - 1]);
        assert(s.last().0 != k);
        assert(assoc_map(t).remove(k).insert(s.last().0, s.last().1) =~= assoc_map(t).insert(
            s.last().0,
            s.last().1,
        ).remove(k));
        assert(assoc_map(s) == assoc_map(t).insert(s.last().0, s.last().1));
    }
}

} // verus!
