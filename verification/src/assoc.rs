//! Association lists and the finite maps they denote.
//!
//! The in-memory capability implementations store their data as vectors
//! of key/value pairs; their abstract state is the map over the values'
//! views. These helpers relate the two.

use vstd::prelude::*;

verus! {

/// The map denoted by an association list: later entries win, so pushing
/// a pair acts as an insertion.
pub open spec fn assoc_map<K, V: View>(s: Seq<(K, V)>) -> Map<K, <V as View>::V>
    decreases s.len(),
{
    if s.len() == 0 {
        Map::empty()
    } else {
        assoc_map(s.drop_last()).insert(s.last().0, s.last().1@)
    }
}

/// Whether the keys of an association list are pairwise distinct.
pub open spec fn distinct_keys<K, V>(s: Seq<(K, V)>) -> bool {
    forall|i: int, j: int| 0 <= i < j < s.len() ==> s[i].0 != s[j].0
}

/// A key is in the denoted map exactly when some entry carries it.
pub proof fn lemma_assoc_contains<K, V: View>(s: Seq<(K, V)>, k: K)
    ensures
        assoc_map(s).contains_key(k) <==> exists|i: int| 0 <= i < s.len() && s[i].0 == k,
    decreases s.len(),
{
    if s.len() > 0 {
        lemma_assoc_contains(s.drop_last(), k);
        if s.last().0 != k && assoc_map(s).contains_key(k) {
            let i = choose|i: int| 0 <= i < s.drop_last().len() && s.drop_last()[i].0 == k;
            assert(s[i].0 == k);
        }
        if exists|i: int| 0 <= i < s.len() && s[i].0 == k {
            let i = choose|i: int| 0 <= i < s.len() && s[i].0 == k;
            if i < s.len() - 1 {
                assert(s.drop_last()[i].0 == k);
            }
        }
    }
}

/// With distinct keys, entry `i` gives the map's value at its key.
pub proof fn lemma_assoc_index<K, V: View>(s: Seq<(K, V)>, i: int)
    requires
        distinct_keys(s),
        0 <= i < s.len(),
    ensures
        assoc_map(s).contains_key(s[i].0),
        assoc_map(s)[s[i].0] == s[i].1@,
    decreases s.len(),
{
    if i < s.len() - 1 {
        lemma_assoc_index(s.drop_last(), i);
        assert(s.drop_last()[i] == s[i]);
    }
}

/// With distinct keys, overwriting entry `i` in place updates the map at
/// that entry's key.
pub proof fn lemma_assoc_update<K, V: View>(s: Seq<(K, V)>, i: int, p: (K, V))
    requires
        distinct_keys(s),
        0 <= i < s.len(),
        p.0 == s[i].0,
    ensures
        assoc_map(s.update(i, p)) =~= assoc_map(s).insert(p.0, p.1@),
    decreases s.len(),
{
    let t = s.update(i, p);
    if i == s.len() - 1 {
        assert(t.drop_last() =~= s.drop_last());
    } else {
        lemma_assoc_update(s.drop_last(), i, p);
        assert(t.drop_last() =~= s.drop_last().update(i, p));
        assert(t.last() == s.last());
        lemma_assoc_contains(s.drop_last(), s.last().0);
        assert(assoc_map(t) =~= assoc_map(s).insert(p.0, p.1@));
    }
}

} // verus!
