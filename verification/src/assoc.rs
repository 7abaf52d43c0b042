//! String-keyed association sequences and the maps they denote.
//!
//! Both the per-show season table and the caches are kept as vectors of
//! `(key, value)` pairs with pairwise distinct keys.  `assoc_map` is the
//! map such a sequence denotes (later pairs win); the lemmas here say
//! how membership, lookup, in-place update, append and positional insert
//! act on it.

use vstd::prelude::*;

verus! {

/// The map denoted by an association sequence; on duplicate keys the
/// later pair wins.
pub open spec fn assoc_map<V>(s: Seq<(Seq<char>, V)>) -> Map<Seq<char>, V>
    decreases s.len(),
{
    if s.len() == 0 {
        Map::empty()
    } else {
        assoc_map(s.drop_last()).insert(s.last().0, s.last().1)
    }
}

/// Pairwise distinct keys.
pub open spec fn unique_keys<V>(s: Seq<(Seq<char>, V)>) -> bool {
    forall|i: int, j: int| 0 <= i < j < s.len() ==> s[i].0 != s[j].0
}

/// A key is in the map exactly when some pair carries it.
pub proof fn lemma_assoc_map_contains<V>(s: Seq<(Seq<char>, V)>, k: Seq<char>)
    ensures
        assoc_map(s).contains_key(k) == exists|i: int| 0 <= i < s.len() && s[i].0 == k,
    decreases s.len(),
{
    if s.len() > 0 {
        lemma_assoc_map_contains(s.drop_last(), k);
        if s.last().0 == k {
            assert(s[s.len() - 1].0 == k);
        } else if assoc_map(s).contains_key(k) {
            let i = choose|i: int| 0 <= i < s.len() - 1 && s.drop_last()[i].0 == k;
            assert(s[i].0 == k);
        } else {
            assert forall|i: int| 0 <= i < s.len() implies s[i].0 != k by {
                if i < s.len() - 1 {
                    assert(s.drop_last()[i].0 == s[i].0);
                }
            }
        }
    }
}

/// With distinct keys, the pair at any position is what the map holds.
pub proof fn lemma_assoc_map_index<V>(s: Seq<(Seq<char>, V)>, i: int)
    requires
        unique_keys(s),
        0 <= i < s.len(),
    ensures
        assoc_map(s).contains_key(s[i].0),
        assoc_map(s)[s[i].0] == s[i].1,
    decreases s.len(),
{
    if i < s.len() - 1 {
        assert(unique_keys(s.drop_last())) by {
            assert(forall|a: int, b: int|
                0 <= a < b < s.len() - 1 ==> s.drop_last()[a].0 == s[a].0 && s.drop_last()[b].0
                    == s[b].0);
        }
        assert(s.drop_last()[i] == s[i]);
        lemma_assoc_map_index(s.drop_last(), i);
        assert(s[i].0 != s.last().0);
    }
}

/// Replacing the value at a position updates the map at that key.
pub proof fn lemma_assoc_map_update<V>(s: Seq<(Seq<char>, V)>, i: int, v: V)
    requires
        unique_keys(s),
        0 <= i < s.len(),
    ensures
        assoc_map(s.update(i, (s[i].0, v))) == assoc_map(s).insert(s[i].0, v),
        unique_keys(s.update(i, (s[i].0, v))),
    decreases s.len(),
{
    let t = s.update(i, (s[i].0, v));
    assert(unique_keys(t)) by {
        assert(forall|a: int| 0 <= a < s.len() ==> t[a].0 == s[a].0);
    }
    if i == s.len() - 1 {
        assert(t.drop_last() =~= s.drop_last());
        assert(t.last() == (s[i].0, v));
        assert(assoc_map(s).insert(s[i].0, v) =~= assoc_map(s.drop_last()).insert(s[i].0, v));
    } else {
        assert(unique_keys(s.drop_last())) by {
            assert(forall|a: int, b: int|
                0 <= a < b < s.len() - 1 ==> s.drop_last()[a].0 == s[a].0 && s.drop_last()[b].0
                    == s[b].0);
        }
        assert(s.drop_last()[i] == s[i]);
        lemma_assoc_map_update(s.drop_last(), i, v);
        assert(t.drop_last() =~= s.drop_last().update(i, (s[i].0, v)));
        assert(t.last() == s.last());
        assert(s[i].0 != s.last().0);
        assert(assoc_map(s.drop_last()).insert(s[i].0, v).insert(s.last().0, s.last().1)
            =~= assoc_map(s.drop_last()).insert(s.last().0, s.last().1).insert(s[i].0, v));
    }
}

/// Inserting a pair with a fresh key at any position adds it to the map.
pub proof fn lemma_assoc_map_insert_at<V>(s: Seq<(Seq<char>, V)>, p: int, pair: (Seq<char>, V))
    requires
        0 <= p <= s.len(),
        forall|i: int| 0 <= i < s.len() ==> s[i].0 != pair.0,
    ensures
        assoc_map(s.insert(p, pair)) == assoc_map(s).insert(pair.0, pair.1),
    decreases s.len() - p,
{
    let t = s.insert(p, pair);
    if p == s.len() {
        assert(t.drop_last() =~= s);
        assert(t.last() == pair);
    } else {
        assert(t.drop_last() =~= s.drop_last().insert(p, pair));
        assert(t.last() == s.last());
        assert(forall|i: int|
            0 <= i < s.len() - 1 ==> s.drop_last()[i].0 == s[i].0);
        lemma_assoc_map_insert_at(s.drop_last(), p, pair);
        assert(s[s.len() - 1].0 != pair.0);
        assert(assoc_map(s.drop_last()).insert(pair.0, pair.1).insert(s.last().0, s.last().1)
            =~= assoc_map(s.drop_last()).insert(s.last().0, s.last().1).insert(pair.0, pair.1));
    }
}

} // verus!
