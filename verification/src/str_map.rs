//! A string-keyed store with `Map` semantics.
//!
//! Backs the document's `paths`, `definitions` and `securityDefinitions`
//! mappings. Keys are unique; inserting an existing key overwrites its value
//! (the engine's last-write-wins policy). Every operation is specified against
//! the abstract `Map` view, so callers reason about maps, not entry lists.

use vstd::prelude::*;

use crate::assoc::{
    assoc_view, distinct_keys, lemma_assoc_congruent, lemma_assoc_contains, lemma_assoc_dom_len,
    lemma_assoc_index, lemma_assoc_remove, lemma_assoc_take_all, lemma_assoc_take_succ,
};
use crate::model::Dup;

verus! {

/// A store of values keyed by strings, with unique keys.
pub struct StrMap<V> {
    entries: Vec<(String, V)>,
}

impl<V: View> View for StrMap<V> {
    type V = Map<Seq<char>, V::V>;

    closed spec fn view(&self) -> Map<Seq<char>, V::V> {
        assoc_view(self.entries@)
    }
}

impl<V: View> StrMap<V> {
    /// The store's keys are pairwise distinct.
    pub closed spec fn wf(&self) -> bool {
        distinct_keys(self.entries@)
    }

    /// Creates an empty store.
    pub fn new() -> (r: Self)
        ensures
            r.wf(),
            r@ == Map::<Seq<char>, V::V>::empty(),
    {
        StrMap { entries: Vec::new() }
    }

    /// Position of the entry carrying `k`, if any.
    fn find(&self, k: &String) -> (r: Option<usize>)
        ensures
            match r {
                Some(i) => i < self.entries@.len() && self.entries@[i as int].0@ == k@,
                None => forall|i: int| 0 <= i < self.entries@.len() ==> self.entries@[i].0@ != k@,
            },
    {
        let n = self.entries.len();
        let mut i: usize = 0;
        while i < n
            invariant
                i <= n,
                n == self.entries@.len(),
                forall|j: int| 0 <= j < i ==> self.entries@[j].0@ != k@,
            decreases n - i,
        {
            if self.entries[i].0 == *k {
                return Some(i);
            }
            i += 1;
        }
        None
    }

    /// Whether the store holds a value for `k`.
    pub fn contains(&self, k: &String) -> (r: bool)
        ensures
            r == self@.contains_key(k@),
    {
        proof {
            lemma_assoc_contains(self.entries@, k@);
        }
        self.find(k).is_some()
    }

    /// Number of keys held.
    pub fn len(&self) -> (r: usize)
        requires
            self.wf(),
        ensures
            r == self@.dom().len(),
    {
        proof {
            lemma_assoc_dom_len(self.entries@);
        }
        self.entries.len()
    }

    /// Binds `k` to `v`, overwriting any value previously bound to `k`.
    pub fn insert(&mut self, k: String, v: V)
        requires
            old(self).wf(),
        ensures
            final(self).wf(),
            final(self)@ == old(self)@.insert(k@, v@),
    {
        let ghost orig = self.entries@;
        let ghost kv = k@;
        let found = self.find(&k);
        match found {
            Some(i) => {
                proof {
                    lemma_assoc_remove(orig, i as int);
                }
                let _ = self.entries.remove(i);
                proof {
                    assert forall|j: int| 0 <= j < self.entries@.len() implies self.entries@[j].0@
                        != kv by {
                        let j0: int = if j < i {
                            j
                        } else {
                            j + 1
                        };
                        assert(self.entries@[j] == orig[j0]);
                        assert(orig[j0].0@ != orig[i as int].0@);
                    }
                    assert(assoc_view(self.entries@).insert(kv, v@) =~= assoc_view(orig).insert(
                        kv,
                        v@,
                    ));
                }
            },
            None => {},
        }
        let ghost pre = self.entries@;
        assert(forall|j: int| 0 <= j < pre.len() ==> pre[j].0@ != kv);
        assert(distinct_keys(pre));
        assert(assoc_view(pre).insert(kv, v@) == assoc_view(orig).insert(kv, v@));
        self.entries.push((k, v));
        proof {
            assert(self.entries@.drop_last() =~= pre);
            assert forall|x: int, y: int|
                0 <= x < y < self.entries@.len() implies self.entries@[x].0@
                != self.entries@[y].0@ by {
                assert(self.entries@[x] == pre[x]);
                if y < self.entries@.len() - 1 {
                    assert(self.entries@[y] == pre[y]);
                } else {
                    assert(self.entries@[y].0@ == kv);
                }
            }
        }
    }

    /// Removes and returns the value bound to `k`, if any.
    pub fn take_entry(&mut self, k: &String) -> (r: Option<V>)
        requires
            old(self).wf(),
        ensures
            final(self).wf(),
            match r {
                Some(v) => old(self)@.contains_key(k@) && v@ == old(self)@[k@] && final(self)@ == old(
                    self,
                )@.remove(k@),
                None => !old(self)@.contains_key(k@) && final(self)@ == old(self)@,
            },
    {
        proof {
            lemma_assoc_contains(self.entries@, k@);
        }
        let found = self.find(k);
        match found {
            Some(i) => {
                proof {
                    lemma_assoc_index(self.entries@, i as int);
                    lemma_assoc_remove(self.entries@, i as int);
                }
                Some(self.entries.remove(i).1)
            },
            None => None,
        }
    }

    /// The value bound to `k`, if any.
    pub fn get(&self, k: &String) -> (r: Option<&V>)
        requires
            self.wf(),
        ensures
            match r {
                Some(v) => self@.contains_key(k@) && v@ == self@[k@],
                None => !self@.contains_key(k@),
            },
    {
        proof {
            lemma_assoc_contains(self.entries@, k@);
        }
        let found = self.find(k);
        match found {
            Some(i) => {
                proof {
                    lemma_assoc_index(self.entries@, i as int);
                }
                Some(&self.entries[i].1)
            },
            None => None,
        }
    }
}

impl<V: View + Dup> StrMap<V> {
    /// The entries as owned pairs, denoting this store's map.
    pub fn to_entries(&self) -> (r: Vec<(String, V)>)
        ensures
            assoc_view(r@) == self@,
            self.wf() ==> distinct_keys(r@),
    {
        let n = self.entries.len();
        let mut out: Vec<(String, V)> = Vec::new();
        let mut i: usize = 0;
        while i < n
            invariant
                i <= n,
                n == self.entries@.len(),
                out@.len() == i,
                forall|j: int|
                    0 <= j < i ==> out@[j].0@ == self.entries@[j].0@ && out@[j].1@
                        == self.entries@[j].1@,
            decreases n - i,
        {
            let k = self.entries[i].0.clone();
            let v = self.entries[i].1.dup();
            out.push((k, v));
            i += 1;
        }
        proof {
            lemma_assoc_congruent(out@, self.entries@);
            if self.wf() {
                assert forall|x: int, y: int| 0 <= x < y < out@.len() implies out@[x].0@
                    != out@[y].0@ by {
                    assert(out@[x].0@ == self.entries@[x].0@);
                    assert(out@[y].0@ == self.entries@[y].0@);
                }
            }
        }
        out
    }

    /// A copy of the store denoting the same map.
    pub fn dup(&self) -> (r: Self)
        ensures
            r@ == self@,
            self.wf() ==> r.wf(),
    {
        let entries = self.to_entries();
        StrMap { entries }
    }

    /// Rebuilds the store entry by entry, restoring key uniqueness without
    /// changing the denoted map.
    pub fn into_canonical(self) -> (r: Self)
        ensures
            r.wf(),
            r@ == self@,
    {
        let mut r = StrMap::new();
        let ghost m = self@;
        r.extend(self);
        proof {
            assert(r@ =~= m);
        }
        r
    }

    /// Merges `other` into `self`; on a shared key, `other`'s value wins.
    pub fn extend(&mut self, other: StrMap<V>)
        requires
            old(self).wf(),
        ensures
            final(self).wf(),
            final(self)@ == old(self)@.union_prefer_right(other@),
    {
        let src = other.to_entries();
        let n = src.len();
        let mut i: usize = 0;
        while i < n
            invariant
                i <= n,
                n == src@.len(),
                assoc_view(src@) == other@,
                self.wf(),
                self@ == old(self)@.union_prefer_right(assoc_view(src@.take(i as int))),
            decreases n - i,
        {
            let ghost prefix = assoc_view(src@.take(i as int));
            let k = src[i].0.clone();
            let v2 = src[i].1.dup();
            proof {
                lemma_assoc_take_succ(src@, i as int);
            }
            self.insert(k, v2);
            proof {
                assert(old(self)@.union_prefer_right(prefix).insert(src@[i as int].0@, src@[
                    i as int].1@) =~= old(self)@.union_prefer_right(
                    prefix.insert(src@[i as int].0@, src@[i as int].1@),
                ));
            }
            i += 1;
        }
        proof {
            lemma_assoc_take_all(src@);
        }
    }
}

} // verus!
