//! Path items: the per-path map from HTTP method to operation, and its
//! canonical (normalized) form.
//!
//! A path item carries path-level parameter declarations shared by its
//! operations. The normalizer puts every parameter list into strictly sorted
//! order without duplicates and removes from each operation any declaration
//! already present at path level, so that two independently built path items
//! for the same logical path compare and serialize identically. Normalization
//! is idempotent, which `lemma_normalize_idempotent` proves.

use vstd::prelude::*;

use crate::assoc::{
    assoc_view, distinct_keys, lemma_assoc_congruent, lemma_assoc_contains, lemma_assoc_dom_len,
    lemma_assoc_index, lemma_assoc_remove, lemma_assoc_take_all, lemma_assoc_take_succ,
};
use crate::model::{Dup, Method, Operation, OperationModel};

verus! {

/// The elements appear in strictly increasing order (hence without duplicates).
pub open spec fn strictly_sorted(s: Seq<u64>) -> bool {
    forall|i: int, j: int| 0 <= i < j < s.len() ==> s[i] < s[j]
}

/// `ps` is the canonical form of `src` with `excluded` removed: strictly
/// sorted, and holding exactly the elements of `src` that are not excluded.
pub open spec fn params_canonical(ps: Seq<u64>, src: Seq<u64>, excluded: Seq<u64>) -> bool {
    &&& strictly_sorted(ps)
    &&& forall|x: u64| #![all_triggers] ps.contains(x) <==> (src.contains(x) && !excluded.contains(x))
}

/// `b` is `a` with its parameter list canonicalized against `excluded`.
pub open spec fn op_normal_wrt(b: OperationModel, a: OperationModel, excluded: Seq<u64>) -> bool {
    &&& b.body == a.body
    &&& params_canonical(b.parameters, a.parameters, excluded)
}

/// Whether a value is an element of the vector.
fn contains_val(v: &Vec<u64>, x: u64) -> (r: bool)
    ensures
        r == v@.contains(x),
{
    let n = v.len();
    let mut i: usize = 0;
    while i < n
        invariant
            i <= n,
            n == v@.len(),
            forall|j: int| 0 <= j < i ==> v@[j] != x,
        decreases n - i,
    {
        if v[i] == x {
            return true;
        }
        i += 1;
    }
    false
}

/// Inserts `x` into a strictly sorted vector, keeping it strictly sorted;
/// a value already present is not duplicated.
fn insert_sorted(v: &mut Vec<u64>, x: u64)
    requires
        strictly_sorted(old(v)@),
    ensures
        strictly_sorted(final(v)@),
        forall|y: u64| #![all_triggers] final(v)@.contains(y) <==> (old(v)@.contains(y) || y == x),
{
    let n = v.len();
    let mut i: usize = 0;
    while i < n && v[i] < x
        invariant
            i <= n,
            n == v@.len(),
            strictly_sorted(v@),
            v@ == old(v)@,
            forall|j: int| 0 <= j < i ==> v@[j] < x,
        decreases n - i,
    {
        i += 1;
    }
    if i < n && v[i] == x {
        proof {
            assert(v@.contains(x));
        }
        return ;
    }
    let ghost pre = v@;
    v.insert(i, x);
    proof {
        assert forall|p: int, q: int| 0 <= p < q < v@.len() implies v@[p] < v@[q] by {
            if q < i {
                assert(v@[p] == pre[p] && v@[q] == pre[q]);
            } else if q == i {
                assert(v@[p] == pre[p]);
                assert(v@[q] == x);
            } else {
                assert(v@[q] == pre[q - 1]);
                if p < i {
                    assert(v@[p] == pre[p]);
                    assert(pre[q - 1] >= pre[i as int]);
                    assert(pre[i as int] != x);
                    assert(pre[i as int] >= x);
                } else if p == i {
                    assert(v@[p] == x);
                    assert(pre[q - 1] >= pre[i as int]);
                    assert(pre[i as int] != x);
                    assert(pre[i as int] >= x);
                } else {
                    assert(v@[p] == pre[p - 1]);
                }
            }
        }
        assert forall|y: u64| #![all_triggers] v@.contains(y) <==> (pre.contains(y) || y == x) by {
            if v@.contains(y) {
                let q = choose|q: int| 0 <= q < v@.len() && v@[q] == y;
                if q < i {
                    assert(pre[q] == y);
                    assert(pre.contains(y));
                } else if q == i {
                } else {
                    assert(pre[q - 1] == y);
                    assert(pre.contains(y));
                }
            }
            if pre.contains(y) {
                let q = choose|q: int| 0 <= q < pre.len() && pre[q] == y;
                if q < i {
                    assert(v@[q] == y);
                } else {
                    assert(v@[q + 1] == y);
                }
                assert(v@.contains(y));
            }
            if y == x {
                assert(v@[i as int] == y);
                assert(v@.contains(y));
            }
        }
    }
}

/// The canonical parameter list: the elements of `src` not in `excluded`,
/// strictly sorted, without duplicates.
pub fn normalize_params(src: &Vec<u64>, excluded: &Vec<u64>) -> (r: Vec<u64>)
    ensures
        params_canonical(r@, src@, excluded@),
{
    let n = src.len();
    let mut out: Vec<u64> = Vec::new();
    let mut i: usize = 0;
    while i < n
        invariant
            i <= n,
            n == src@.len(),
            strictly_sorted(out@),
            forall|y: u64| #![all_triggers]
                out@.contains(y) <==> (src@.take(i as int).contains(y) && !excluded@.contains(y)),
        decreases n - i,
    {
        let x = src[i];
        if !contains_val(excluded, x) {
            insert_sorted(&mut out, x);
        }
        proof {
            assert(src@.take(i + 1).drop_last() =~= src@.take(i as int));
            assert(src@.take(i + 1).last() == src@[i as int]);
            assert forall|y: u64| #![all_triggers]
                out@.contains(y) <==> (src@.take(i + 1).contains(y) && !excluded@.contains(
                    y,
                )) by {
                if src@.take(i + 1).contains(y) {
                    let q = choose|q: int| 0 <= q < i + 1 && #[trigger] src@.take(i + 1)[q] == y;
                    if q < i {
                        assert(src@.take(i as int)[q] == y);
                        assert(src@.take(i as int).contains(y));
                    } else {
                        assert(y == x);
                    }
                }
                if src@.take(i as int).contains(y) {
                    let q = choose|q: int| 0 <= q < i && src@.take(i as int)[q] == y;
                    assert(src@.take(i + 1)[q] == y);
                    assert(src@.take(i + 1).contains(y));
                }
                if y == x {
                    assert(src@.take(i + 1)[i as int] == y);
                    assert(src@.take(i + 1).contains(y));
                }
            }
        }
        i += 1;
    }
    proof {
        assert(src@.take(n as int) =~= src@);
    }
    out
}

/// A store of operations keyed by HTTP method, with unique keys.
pub struct MethodMap {
    entries: Vec<(Method, Operation)>,
}

impl View for MethodMap {
    type V = Map<Method, OperationModel>;

    closed spec fn view(&self) -> Map<Method, OperationModel> {
        assoc_view(self.entries@)
    }
}

impl MethodMap {
    /// The store's keys are pairwise distinct.
    pub closed spec fn wf(&self) -> bool {
        distinct_keys(self.entries@)
    }

    /// Creates an empty store.
    pub fn new() -> (r: Self)
        ensures
            r.wf(),
            r@ == Map::<Method, OperationModel>::empty(),
    {
        MethodMap { entries: Vec::new() }
    }

    /// Position of the entry carrying `m`, if any.
    fn find(&self, m: Method) -> (r: Option<usize>)
        ensures
            match r {
                Some(i) => i < self.entries@.len() && self.entries@[i as int].0 == m,
                None => forall|i: int| 0 <= i < self.entries@.len() ==> self.entries@[i].0 != m,
            },
    {
        let n = self.entries.len();
        let mut i: usize = 0;
        while i < n
            invariant
                i <= n,
                n == self.entries@.len(),
                forall|j: int| 0 <= j < i ==> self.entries@[j].0 != m,
            decreases n - i,
        {
            if self.entries[i].0 == m {
                return Some(i);
            }
            i += 1;
        }
        None
    }

    /// Whether the store holds an operation for `m`.
    pub fn contains(&self, m: Method) -> (r: bool)
        ensures
            r == self@.contains_key(m),
    {
        proof {
            lemma_assoc_contains(self.entries@, m);
        }
        self.find(m).is_some()
    }

    /// Number of methods held.
    pub fn len(&self) -> (r: usize)
        requires
            self.wf(),
        ensures
            r == self@.dom().len(),
    {
        proof {
            lemma_assoc_dom_len(self.entries@);
        }
        self.entries.len()
    }

    /// Binds `m` to `op`, overwriting any operation previously bound to `m`
    /// (the last-write-wins policy).
    pub fn insert(&mut self, m: Method, op: Operation)
        requires
            old(self).wf(),
        ensures
            final(self).wf(),
            final(self)@ == old(self)@.insert(m, op@),
    {
        let ghost orig = self.entries@;
        let found = self.find(m);
        match found {
            Some(i) => {
                proof {
                    lemma_assoc_remove(orig, i as int);
                }
                let _ = self.entries.remove(i);
                proof {
                    assert forall|j: int| 0 <= j < self.entries@.len() implies self.entries@[j].0
                        != m by {
                        let j0: int = if j < i {
                            j
                        } else {
                            j + 1
                        };
                        assert(self.entries@[j] == orig[j0]);
                        assert(orig[j0].0 != orig[i as int].0);
                    }
                    assert(assoc_view(self.entries@).insert(m, op@) =~= assoc_view(orig).insert(
                        m,
                        op@,
                    ));
                }
            },
            None => {},
        }
        let ghost pre = self.entries@;
        assert(forall|j: int| 0 <= j < pre.len() ==> pre[j].0 != m);
        assert(distinct_keys(pre));
        assert(assoc_view(pre).insert(m, op@) == assoc_view(orig).insert(m, op@));
        self.entries.push((m, op));
        proof {
            assert(self.entries@.drop_last() =~= pre);
            assert forall|x: int, y: int|
                0 <= x < y < self.entries@.len() implies self.entries@[x].0
                != self.entries@[y].0 by {
                assert(self.entries@[x] == pre[x]);
                if y < self.entries@.len() - 1 {
                    assert(self.entries@[y] == pre[y]);
                }
            }
        }
    }

    /// The operation bound to `m`, if any.
    pub fn get(&self, m: Method) -> (r: Option<&Operation>)
        requires
            self.wf(),
        ensures
            match r {
                Some(op) => self@.contains_key(m) && op@ == self@[m],
                None => !self@.contains_key(m),
            },
    {
        proof {
            lemma_assoc_contains(self.entries@, m);
        }
        let found = self.find(m);
        match found {
            Some(i) => {
                proof {
                    lemma_assoc_index(self.entries@, i as int);
                }
                Some(&self.entries[i].1)
            },
            None => None,
        }
    }

    /// The entries as owned pairs, denoting this store's map.
    pub fn to_entries(&self) -> (r: Vec<(Method, Operation)>)
        ensures
            assoc_view(r@) == self@,
            self.wf() ==> distinct_keys(r@),
    {
        let n = self.entries.len();
        let mut out: Vec<(Method, Operation)> = Vec::new();
        let mut i: usize = 0;
        while i < n
            invariant
                i <= n,
                n == self.entries@.len(),
                out@.len() == i,
                forall|j: int|
                    0 <= j < i ==> out@[j].0 == self.entries@[j].0 && out@[j].1@
                        == self.entries@[j].1@,
            decreases n - i,
        {
            let m = self.entries[i].0;
            let op = self.entries[i].1.dup();
            out.push((m, op));
            i += 1;
        }
        proof {
            lemma_assoc_congruent(out@, self.entries@);
            if self.wf() {
                assert forall|x: int, y: int| 0 <= x < y < out@.len() implies out@[x].0
                    != out@[y].0 by {
                    assert(out@[x].0 == self.entries@[x].0);
                    assert(out@[y].0 == self.entries@[y].0);
                }
            }
        }
        out
    }

    /// A copy of the store denoting the same map.
    pub fn dup(&self) -> (r: Self)
        ensures
            r@ == self@,
            self.wf() ==> r.wf(),
    {
        let entries = self.to_entries();
        MethodMap { entries }
    }

    /// Rebuilds the store entry by entry, restoring key uniqueness without
    /// changing the denoted map.
    pub fn into_canonical(self) -> (r: MethodMap)
        ensures
            r.wf(),
            r@ == self@,
    {
        let mut r = MethodMap::new();
        let ghost m = self@;
        r.extend(self);
        proof {
            assert(r@ =~= m);
        }
        r
    }

    /// Merges `other` into `self`; on a shared method, `other`'s operation wins.
    pub fn extend(&mut self, other: MethodMap)
        requires
            old(self).wf(),
        ensures
            final(self).wf(),
            final(self)@ == old(self)@.union_prefer_right(other@),
    {
        let src = other.to_entries();
        let n = src.len();
        let mut i: usize = 0;
        while i < n
            invariant
                i <= n,
                n == src@.len(),
                assoc_view(src@) == other@,
                self.wf(),
                self@ == old(self)@.union_prefer_right(assoc_view(src@.take(i as int))),
            decreases n - i,
        {
            let ghost prefix = assoc_view(src@.take(i as int));
            let m = src[i].0;
            let op = src[i].1.dup();
            proof {
                lemma_assoc_take_succ(src@, i as int);
            }
            self.insert(m, op);
            proof {
                assert(old(self)@.union_prefer_right(prefix).insert(src@[i as int].0, src@[
                    i as int].1@) =~= old(self)@.union_prefer_right(
                    prefix.insert(src@[i as int].0, src@[i as int].1@),
                ));
            }
            i += 1;
        }
        proof {
            lemma_assoc_take_all(src@);
        }
    }

    /// Canonicalizes every operation's parameter list against `excluded`,
    /// leaving methods and bodies unchanged.
    fn normalize_values(&mut self, excluded: &Vec<u64>)
        requires
            old(self).wf(),
        ensures
            final(self).wf(),
            final(self)@.dom() == old(self)@.dom(),
            forall|m: Method| #[trigger]
                final(self)@.contains_key(m) ==> op_normal_wrt(
                    final(self)@[m],
                    old(self)@[m],
                    excluded@,
                ),
    {
        let n = self.entries.len();
        let mut out: Vec<(Method, Operation)> = Vec::new();
        let mut i: usize = 0;
        while i < n
            invariant
                i <= n,
                n == self.entries@.len(),
                self.wf(),
                self@ == old(self)@,
                self.entries@ == old(self).entries@,
                out@.len() == i,
                forall|j: int| #![all_triggers]
                    0 <= j < i ==> out@[j].0 == self.entries@[j].0 && op_normal_wrt(
                        out@[j].1@,
                        self.entries@[j].1@,
                        excluded@,
                    ),
            decreases n - i,
        {
            let m = self.entries[i].0;
            let body = self.entries[i].1.body();
            let ps = normalize_params(self.entries[i].1.parameters(), excluded);
            out.push((m, Operation::new(body, ps)));
            i += 1;
        }
        proof {
            assert forall|x: int, y: int| 0 <= x < y < out@.len() implies out@[x].0 != out@[y].0 by {
                assert(out@[x].0 == self.entries@[x].0);
                assert(out@[y].0 == self.entries@[y].0);
            }
        }
        let ghost orig = self.entries@;
        self.entries = out;
        proof {
            assert forall|m: Method|
                assoc_view(self.entries@).contains_key(m) == assoc_view(orig).contains_key(
                    m,
                ) by {
                lemma_assoc_contains(self.entries@, m);
                lemma_assoc_contains(orig, m);
                if exists|j: int| 0 <= j < orig.len() && orig[j].0 == m {
                    let j = choose|j: int| 0 <= j < orig.len() && orig[j].0 == m;
                    assert(self.entries@[j].0 == m);
                }
                if exists|j: int| 0 <= j < self.entries@.len() && self.entries@[j].0 == m {
                    let j = choose|j: int| 0 <= j < self.entries@.len() && self.entries@[j].0 == m;
                    assert(orig[j].0 == m);
                }
            }
            assert(assoc_view(self.entries@).dom() =~= assoc_view(orig).dom());
            assert forall|m: Method| #[trigger]
                assoc_view(self.entries@).contains_key(m) implies op_normal_wrt(
                assoc_view(self.entries@)[m],
                assoc_view(orig)[m],
                excluded@,
            ) by {
                lemma_assoc_contains(self.entries@, m);
                let j = choose|j: int| 0 <= j < self.entries@.len() && self.entries@[j].0 == m;
                lemma_assoc_index(self.entries@, j);
                lemma_assoc_index(orig, j);
            }
        }
    }
}

/// The abstract value of a [`PathItem`].
#[verifier::ext_equal]
pub struct PathItemModel {
    pub parameters: Seq<u64>,
    pub methods: Map<Method, OperationModel>,
}

/// The per-path mapping from HTTP method to operation, together with the
/// parameter declarations shared at path level.
pub struct PathItem {
    pub parameters: Vec<u64>,
    pub methods: MethodMap,
}

impl View for PathItem {
    type V = PathItemModel;

    open spec fn view(&self) -> PathItemModel {
        PathItemModel { parameters: self.parameters@, methods: self.methods@ }
    }
}

/// `b` is the canonical form of `a`: parameter lists strictly sorted and
/// deduplicated, methods and operation bodies unchanged, and every operation
/// freed of the declarations held at path level.
pub open spec fn norm_rel(a: PathItemModel, b: PathItemModel) -> bool {
    &&& params_canonical(b.parameters, a.parameters, Seq::<u64>::empty())
    &&& b.methods.dom() == a.methods.dom()
    &&& forall|m: Method| #[trigger]
        b.methods.contains_key(m) ==> op_normal_wrt(b.methods[m], a.methods[m], b.parameters)
}

impl PathItem {
    /// The method map's keys are distinct.
    pub open spec fn wf(&self) -> bool {
        self.methods.wf()
    }

    /// Creates a path item with no parameters and no operations.
    pub fn empty() -> (r: Self)
        ensures
            r.wf(),
            r@.parameters == Seq::<u64>::empty(),
            r@.methods == Map::<Method, OperationModel>::empty(),
    {
        PathItem { parameters: Vec::new(), methods: MethodMap::new() }
    }

    /// A copy of the path item denoting the same abstract value.
    pub fn dup(&self) -> (r: Self)
        ensures
            r@ == self@,
            self.wf() ==> r.wf(),
    {
        let mut parameters: Vec<u64> = Vec::new();
        let n = self.parameters.len();
        let mut i: usize = 0;
        while i < n
            invariant
                i <= n,
                n == self.parameters@.len(),
                parameters@ == self.parameters@.take(i as int),
            decreases n - i,
        {
            parameters.push(self.parameters[i]);
            proof {
                assert(parameters@ =~= self.parameters@.take(i + 1));
            }
            i += 1;
        }
        proof {
            assert(parameters@ =~= self.parameters@);
        }
        let r = PathItem { parameters, methods: self.methods.dup() };
        proof {
            assert(r@ =~= self@);
        }
        r
    }

    /// Puts the path item into its canonical form.
    pub fn normalize(&mut self)
        requires
            old(self).wf(),
        ensures
            final(self).wf(),
            norm_rel(old(self)@, final(self)@),
    {
        let none: Vec<u64> = Vec::new();
        let ps = normalize_params(&self.parameters, &none);
        self.parameters = ps;
        self.methods.normalize_values(&self.parameters);
        proof {
            assert(none@ =~= Seq::<u64>::empty());
        }
    }
}

impl Dup for PathItem {
    fn dup(&self) -> (r: Self) {
        PathItem::dup(self)
    }
}

/// Two canonical forms reached from the same origin are equal, and in
/// particular normalizing twice yields the result of normalizing once.
pub proof fn lemma_normalize_idempotent(a: PathItemModel, b: PathItemModel, c: PathItemModel)
    requires
        norm_rel(a, b),
        norm_rel(b, c),
    ensures
        c == b,
{
    assert forall|x: u64| #![all_triggers] c.parameters.contains(x) == b.parameters.contains(
        x,
    ) by {
        assert(!Seq::<u64>::empty().contains(x));
    }
    lemma_sorted_same_elems_eq(b.parameters, c.parameters);
    assert forall|m: Method| #[trigger] c.methods.contains_key(m) implies c.methods[m]
        == b.methods[m] by {
        assert(b.methods.contains_key(m));
        assert(op_normal_wrt(b.methods[m], a.methods[m], b.parameters));
        assert(op_normal_wrt(c.methods[m], b.methods[m], c.parameters));
        assert forall|x: u64| #![all_triggers] c.methods[m].parameters.contains(x)
            == b.methods[m].parameters.contains(x) by {
            if b.methods[m].parameters.contains(x) {
                assert(!b.parameters.contains(x));
            }
        }
        lemma_sorted_same_elems_eq(b.methods[m].parameters, c.methods[m].parameters);
        assert(c.methods[m] =~= b.methods[m]);
    }
    assert(c.methods =~= b.methods);
    assert(c =~= b);
}

/// Strictly sorted sequences with the same elements are equal.
pub proof fn lemma_sorted_same_elems_eq(a: Seq<u64>, b: Seq<u64>)
    requires
        strictly_sorted(a),
        strictly_sorted(b),
        forall|x: u64| #![all_triggers] a.contains(x) <==> b.contains(x),
    ensures
        a == b,
    decreases a.len(),
{
    if a.len() == 0 {
        if b.len() > 0 {
            assert(b.contains(b[0]));
            assert(a.contains(b[0]));
        }
        assert(a =~= b);
    } else {
        assert(a.contains(a[0]));
        assert(b.contains(b[0]));
        let i = choose|i: int| 0 <= i < a.len() && a[i] == b[0];
        let j = choose|j: int| 0 <= j < b.len() && b[j] == a[0];
        assert(a[0] <= a[i]);
        assert(b[0] <= b[j]);
        assert(a[0] == b[0]);
        assert forall|x: u64| #![all_triggers] a.skip(1).contains(x) <==> (a.contains(x) && x
            != a[0]) by {
            if a.skip(1).contains(x) {
                let q = choose|q: int| 0 <= q < a.skip(1).len() && a.skip(1)[q] == x;
                assert(a[q + 1] == x);
                assert(a.contains(x));
                assert(a[0] < a[q + 1]);
            }
            if a.contains(x) && x != a[0] {
                let q = choose|q: int| 0 <= q < a.len() && a[q] == x;
                assert(q >= 1);
                assert(a.skip(1)[q - 1] == x);
                assert(a.skip(1).contains(x));
            }
        }
        assert forall|x: u64| #![all_triggers] b.skip(1).contains(x) <==> (b.contains(x) && x
            != b[0]) by {
            if b.skip(1).contains(x) {
                let q = choose|q: int| 0 <= q < b.skip(1).len() && b.skip(1)[q] == x;
                assert(b[q + 1] == x);
                assert(b.contains(x));
                assert(b[0] < b[q + 1]);
            }
            if b.contains(x) && x != b[0] {
                let q = choose|q: int| 0 <= q < b.len() && b[q] == x;
                assert(q >= 1);
                assert(b.skip(1)[q - 1] == x);
                assert(b.skip(1).contains(x));
            }
        }
        assert forall|p: int, q: int| 0 <= p < q < a.skip(1).len() implies a.skip(1)[p] < a.skip(
            1,
        )[q] by {
            assert(a.skip(1)[p] == a[p + 1]);
            assert(a.skip(1)[q] == a[q + 1]);
        }
        assert forall|p: int, q: int| 0 <= p < q < b.skip(1).len() implies b.skip(1)[p] < b.skip(
            1,
        )[q] by {
            assert(b.skip(1)[p] == b[p + 1]);
            assert(b.skip(1)[q] == b[q + 1]);
        }
        lemma_sorted_same_elems_eq(a.skip(1), b.skip(1));
        assert(a.skip(1).len() == b.skip(1).len());
        assert(a.len() == b.len());
        assert forall|q: int| 0 <= q < a.len() implies a[q] == b[q] by {
            if q == 0 {
                assert(a[0] == b[0]);
            } else {
                assert(a.skip(1)[q - 1] == a[q]);
                assert(b.skip(1)[q - 1] == b[q]);
                assert(a.skip(1)[q - 1] == b.skip(1)[q - 1]);
            }
        }
        assert(a =~= b);
    }
}

} // verus!
