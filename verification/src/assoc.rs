//! The abstract model shared by the engine's key-value stores.
//!
//! A store is represented as a sequence of entries with pairwise distinct
//! keys; its abstract value is the `Map` obtained by inserting the entries in
//! order. The lemmas here relate sequence edits (push, remove, prefixes) to
//! the corresponding `Map` operations, so that the executable stores can state
//! their contracts purely over `Map`.

use vstd::prelude::*;

verus! {

/// The map denoted by a sequence of key-value entries; a later entry for a
/// key overrides an earlier one.
pub open spec fn assoc_view<K: View, V: View>(s: Seq<(K, V)>) -> Map<K::V, V::V>
    decreases s.len(),
{
    if s.len() == 0 {
        Map::empty()
    } else {
        assoc_view(s.drop_last()).insert(s.last().0@, s.last().1@)
    }
}

/// The entries carry pairwise distinct keys.
pub open spec fn distinct_keys<K: View, V>(s: Seq<(K, V)>) -> bool {
    forall|i: int, j: int| 0 <= i < j < s.len() ==> s[i].0@ != s[j].0@
}

/// A key is in the map exactly when some entry carries it.
pub proof fn lemma_assoc_contains<K: View, V: View>(s: Seq<(K, V)>, k: K::V)
    ensures
        assoc_view(s).contains_key(k) <==> (exists|i: int| 0 <= i < s.len() && s[i].0@ == k),
    decreases s.len(),
{
    if s.len() == 0 {
    } else {
        lemma_assoc_contains(s.drop_last(), k);
        if s.last().0@ == k {
            assert(s[s.len() - 1].0@ == k);
        } else {
            if exists|i: int| 0 <= i < s.len() && s[i].0@ == k {
                let i = choose|i: int| 0 <= i < s.len() && s[i].0@ == k;
                assert(s.drop_last()[i] == s[i]);
            }
            if exists|i: int| 0 <= i < s.drop_last().len() && s.drop_last()[i].0@ == k {
                let i = choose|i: int| 0 <= i < s.drop_last().len() && s.drop_last()[i].0@ == k;
                assert(s[i].0@ == k);
            }
        }
    }
}

/// Distinctness carries over to a prefix of the entries.
pub proof fn lemma_distinct_prefix<K: View, V>(s: Seq<(K, V)>, n: int)
    requires
        distinct_keys(s),
        0 <= n <= s.len(),
    ensures
        distinct_keys(s.take(n)),
{
    assert forall|i: int, j: int| 0 <= i < j < s.take(n).len() implies s.take(n)[i].0@ != s.take(
        n,
    )[j].0@ by {
        assert(s.take(n)[i] == s[i]);
        assert(s.take(n)[j] == s[j]);
    }
}

/// With distinct keys, the entry at position `i` gives the map's value at its key.
pub proof fn lemma_assoc_index<K: View, V: View>(s: Seq<(K, V)>, i: int)
    requires
        distinct_keys(s),
        0 <= i < s.len(),
    ensures
        assoc_view(s).contains_key(s[i].0@),
        assoc_view(s)[s[i].0@] == s[i].1@,
    decreases s.len(),
{
    if i == s.len() - 1 {
    } else {
        lemma_distinct_prefix(s, s.len() - 1);
        lemma_assoc_index(s.drop_last(), i);
        assert(s.drop_last()[i] == s[i]);
        assert(s[i].0@ != s[s.len() - 1].0@);
    }
}

/// With distinct keys, removing entry `i` removes exactly its key from the map.
pub proof fn lemma_assoc_remove<K: View, V: View>(s: Seq<(K, V)>, i: int)
    requires
        distinct_keys(s),
        0 <= i < s.len(),
    ensures
        distinct_keys(s.remove(i)),
        assoc_view(s.remove(i)) == assoc_view(s).remove(s[i].0@),
    decreases s.len(),
{
    let k = s[i].0@;
    assert forall|x: int, y: int| 0 <= x < y < s.remove(i).len() implies s.remove(i)[x].0@
        != s.remove(i)[y].0@ by {
        let x0: int = if x < i {
            x
        } else {
            x + 1
        };
        let y0: int = if y < i {
            y
        } else {
            y + 1
        };
        assert(s.remove(i)[x] == s[x0]);
        assert(s.remove(i)[y] == s[y0]);
    }
    if i == s.len() - 1 {
        assert(s.remove(i) =~= s.drop_last());
        lemma_assoc_contains(s.drop_last(), k);
        assert forall|j: int| 0 <= j < s.drop_last().len() implies s.drop_last()[j].0@ != k by {
            assert(s.drop_last()[j] == s[j]);
        }
        assert(!assoc_view(s.drop_last()).contains_key(k));
        assert(assoc_view(s.drop_last()) =~= assoc_view(s.drop_last()).insert(
            k,
            s.last().1@,
        ).remove(k));
    } else {
        let dl = s.drop_last();
        lemma_distinct_prefix(s, s.len() - 1);
        lemma_assoc_remove(dl, i);
        assert(dl[i] == s[i]);
        assert(s.remove(i).drop_last() =~= dl.remove(i));
        assert(s.remove(i).last() == s.last());
        let lk = s.last().0@;
        let lv = s.last().1@;
        assert(k != lk);
        assert(assoc_view(dl).remove(k).insert(lk, lv) =~= assoc_view(dl).insert(lk, lv).remove(k));
        assert(assoc_view(s.remove(i)) == assoc_view(dl.remove(i)).insert(lk, lv));
    }
}

/// Extending the prefix by one entry inserts that entry's key.
pub proof fn lemma_assoc_take_succ<K: View, V: View>(s: Seq<(K, V)>, i: int)
    requires
        0 <= i < s.len(),
    ensures
        assoc_view(s.take(i + 1)) == assoc_view(s.take(i)).insert(s[i].0@, s[i].1@),
{
    assert(s.take(i + 1).drop_last() =~= s.take(i));
    assert(s.take(i + 1).last() == s[i]);
}

/// The whole sequence is its own full prefix.
pub proof fn lemma_assoc_take_all<K: View, V: View>(s: Seq<(K, V)>)
    ensures
        assoc_view(s.take(s.len() as int)) == assoc_view(s),
{
    assert(s.take(s.len() as int) =~= s);
}

/// Entry sequences equal view-for-view denote the same map.
pub proof fn lemma_assoc_congruent<K: View, V: View>(a: Seq<(K, V)>, b: Seq<(K, V)>)
    requires
        a.len() == b.len(),
        forall|i: int| 0 <= i < a.len() ==> a[i].0@ == b[i].0@ && a[i].1@ == b[i].1@,
    ensures
        assoc_view(a) == assoc_view(b),
    decreases a.len(),
{
    if a.len() == 0 {
    } else {
        assert forall|i: int| 0 <= i < a.drop_last().len() implies a.drop_last()[i].0@
            == b.drop_last()[i].0@ && a.drop_last()[i].1@ == b.drop_last()[i].1@ by {
            assert(a.drop_last()[i] == a[i]);
            assert(b.drop_last()[i] == b[i]);
        }
        lemma_assoc_congruent(a.drop_last(), b.drop_last());
        assert(a[a.len() - 1].0@ == b[a.len() - 1].0@ && a[a.len() - 1].1@ == b[a.len() - 1].1@);
    }
}

/// With distinct keys, the map has exactly one key per entry.
pub proof fn lemma_assoc_dom_len<K: View, V: View>(s: Seq<(K, V)>)
    requires
        distinct_keys(s),
    ensures
        assoc_view(s).dom().finite(),
        assoc_view(s).dom().len() == s.len(),
    decreases s.len(),
{
    if s.len() == 0 {
        assert(assoc_view(s).dom() =~= Set::<K::V>::empty());
    } else {
        let dl = s.drop_last();
        lemma_distinct_prefix(s, s.len() - 1);
        lemma_assoc_dom_len(dl);
        lemma_assoc_contains(dl, s.last().0@);
        assert forall|j: int| 0 <= j < dl.len() implies dl[j].0@ != s.last().0@ by {
            assert(dl[j] == s[j]);
        }
        assert(!assoc_view(dl).contains_key(s.last().0@));
        assert(assoc_view(s).dom() =~= assoc_view(dl).dom().insert(s.last().0@));
    }
}

} // verus!
