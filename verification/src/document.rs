//! The document and its aggregator.
//!
//! A [`Document`] is the canonical in-memory API specification: paths,
//! schema definitions, security-scheme definitions and an optional base path.
//! A [`Mountable`] contributor supplies one path's worth of operations,
//! definitions and security requirements; [`Document::update_from_mountable`]
//! merges that fragment in under the last-write-wins policy, optionally
//! normalizing every path item afterwards. The merge laws at the end of this
//! module prove that disjoint contributions commute and that on a collision
//! the later contribution wins.

use vstd::prelude::*;
use vstd::string::StrSliceExecFns;

use crate::model::{Method, OperationModel, Schema, SecurityScheme};
use crate::path_item::{norm_rel, MethodMap, PathItem, PathItemModel};
use crate::str_map::StrMap;

verus! {

/// The abstract value of a [`Document`].
#[verifier::ext_equal]
pub struct DocumentModel {
    pub paths: Map<Seq<char>, PathItemModel>,
    pub definitions: Map<Seq<char>, u64>,
    pub security_definitions: Map<Seq<char>, u64>,
    pub base_path: Option<Seq<char>>,
}

/// The canonical in-memory API specification.
pub struct Document {
    pub paths: StrMap<PathItem>,
    pub definitions: StrMap<Schema>,
    pub security_definitions: StrMap<SecurityScheme>,
    pub base_path: Option<String>,
}

impl View for Document {
    type V = DocumentModel;

    open spec fn view(&self) -> DocumentModel {
        DocumentModel {
            paths: self.paths@,
            definitions: self.definitions@,
            security_definitions: self.security_definitions@,
            base_path: match self.base_path {
                Some(b) => Some(b@),
                None => None,
            },
        }
    }
}

/// The path item that results from merging `ops` into whatever `paths` holds
/// at `p`: an existing item keeps its parameters and has its method map
/// extended (a method present on both sides takes `ops`'s operation); a fresh
/// item holds exactly `ops`.
pub open spec fn merged_item(
    paths: Map<Seq<char>, PathItemModel>,
    p: Seq<char>,
    ops: Map<Method, OperationModel>,
) -> PathItemModel {
    if paths.contains_key(p) {
        PathItemModel {
            parameters: paths[p].parameters,
            methods: paths[p].methods.union_prefer_right(ops),
        }
    } else {
        PathItemModel { parameters: Seq::<u64>::empty(), methods: ops }
    }
}

/// The paths mapping after mounting operations `ops` at path `p`.
pub open spec fn merge_paths_model(
    paths: Map<Seq<char>, PathItemModel>,
    p: Seq<char>,
    ops: Map<Method, OperationModel>,
) -> Map<Seq<char>, PathItemModel> {
    paths.insert(p, merged_item(paths, p, ops))
}

/// The document after merging one contributor's fragment: definitions and
/// security definitions are extended under last-write-wins, the path item at
/// `p` is extended with `ops`, and the base path is untouched.
pub open spec fn merge_model(
    d: DocumentModel,
    p: Seq<char>,
    ops: Map<Method, OperationModel>,
    defs: Map<Seq<char>, u64>,
    secs: Map<Seq<char>, u64>,
) -> DocumentModel {
    DocumentModel {
        paths: merge_paths_model(d.paths, p, ops),
        definitions: d.definitions.union_prefer_right(defs),
        security_definitions: d.security_definitions.union_prefer_right(secs),
        base_path: d.base_path,
    }
}

/// `b` holds the same paths as `a`, each path item in canonical form.
pub open spec fn paths_normalized(
    a: Map<Seq<char>, PathItemModel>,
    b: Map<Seq<char>, PathItemModel>,
) -> bool {
    &&& b.dom() == a.dom()
    &&& forall|k: Seq<char>| #[trigger] b.contains_key(k) ==> norm_rel(a[k], b[k])
}

/// A route-like object that contributes a path with its operations,
/// the schemas they reference, and the security schemes they require.
pub trait Mountable {
    /// Where this contributor mounts its operations.
    spec fn path_model(&self) -> Seq<char>;

    /// The operations contributed, one per HTTP method.
    spec fn operations_model(&self) -> Map<Method, OperationModel>;

    /// The schema definitions recorded by this contributor.
    spec fn definitions_model(&self) -> Map<Seq<char>, u64>;

    /// The security-scheme definitions recorded by this contributor.
    spec fn security_model(&self) -> Map<Seq<char>, u64>;

    /// Where this contributor gets mounted.
    fn path(&self) -> (r: &str)
        ensures
            r@ == self.path_model(),
    ;

    /// Hands over the map of HTTP methods to operations. This is a one-shot,
    /// consuming call; the other fragment parts are unaffected.
    fn operations(&mut self) -> (r: MethodMap)
        ensures
            r.wf(),
            r@ == old(self).operations_model(),
            final(self).path_model() == old(self).path_model(),
            final(self).definitions_model() == old(self).definitions_model(),
            final(self).security_model() == old(self).security_model(),
    ;

    /// Hands over the schema definitions. One-shot, consuming.
    fn definitions(&mut self) -> (r: StrMap<Schema>)
        ensures
            r.wf(),
            r@ == old(self).definitions_model(),
            final(self).path_model() == old(self).path_model(),
            final(self).operations_model() == old(self).operations_model(),
            final(self).security_model() == old(self).security_model(),
    ;

    /// Hands over the security-scheme definitions. One-shot, consuming.
    fn security_definitions(&mut self) -> (r: StrMap<SecurityScheme>)
        ensures
            r.wf(),
            r@ == old(self).security_model(),
            final(self).path_model() == old(self).path_model(),
            final(self).operations_model() == old(self).operations_model(),
            final(self).definitions_model() == old(self).definitions_model(),
    ;

    /// Merges this contributor's operations into the given paths mapping:
    /// the path item at this contributor's path is looked up or created, and
    /// its method map is extended, a method present on both sides taking this
    /// contributor's operation.
    fn update_operations(&mut self, map: &mut StrMap<PathItem>)
        requires
            old(map).wf(),
        ensures
            final(map).wf(),
            final(map)@ == merge_paths_model(
                old(map)@,
                old(self).path_model(),
                old(self).operations_model(),
            ),
            final(self).path_model() == old(self).path_model(),
            final(self).definitions_model() == old(self).definitions_model(),
            final(self).security_model() == old(self).security_model(),
    {
        let p = self.path().to_owned();
        let ops = self.operations();
        let taken = map.take_entry(&p);
        let mut item = match taken {
            Some(it) => {
                let PathItem { parameters, methods } = it;
                PathItem { parameters, methods: methods.into_canonical() }
            },
            None => PathItem::empty(),
        };
        item.methods.extend(ops);
        let ghost target = merge_paths_model(
            old(map)@,
            old(self).path_model(),
            old(self).operations_model(),
        );
        map.insert(p, item);
        proof {
            assert(item@ =~= merged_item(
                old(map)@,
                old(self).path_model(),
                old(self).operations_model(),
            ));
            assert(map@ =~= target);
        }
    }
}

/// A plain contributor fragment: a path, its operations, and the schema and
/// security definitions they rely on.
pub struct Fragment {
    path: String,
    operations: MethodMap,
    definitions: StrMap<Schema>,
    security_definitions: StrMap<SecurityScheme>,
}

impl Fragment {
    /// Builds a fragment from its parts.
    pub fn new(
        path: String,
        operations: MethodMap,
        definitions: StrMap<Schema>,
        security_definitions: StrMap<SecurityScheme>,
    ) -> (r: Self)
        ensures
            r.path_model() == path@,
            r.operations_model() == operations@,
            r.definitions_model() == definitions@,
            r.security_model() == security_definitions@,
    {
        Fragment { path, operations, definitions, security_definitions }
    }
}

impl Mountable for Fragment {
    closed spec fn path_model(&self) -> Seq<char> {
        self.path@
    }

    closed spec fn operations_model(&self) -> Map<Method, OperationModel> {
        self.operations@
    }

    closed spec fn definitions_model(&self) -> Map<Seq<char>, u64> {
        self.definitions@
    }

    closed spec fn security_model(&self) -> Map<Seq<char>, u64> {
        self.security_definitions@
    }

    fn path(&self) -> (r: &str) {
        self.path.as_str()
    }

    fn operations(&mut self) -> (r: MethodMap) {
        let mut tmp = MethodMap::new();
        core::mem::swap(&mut tmp, &mut self.operations);
        tmp.into_canonical()
    }

    fn definitions(&mut self) -> (r: StrMap<Schema>) {
        let mut tmp: StrMap<Schema> = StrMap::new();
        core::mem::swap(&mut tmp, &mut self.definitions);
        tmp.into_canonical()
    }

    fn security_definitions(&mut self) -> (r: StrMap<SecurityScheme>) {
        let mut tmp: StrMap<SecurityScheme> = StrMap::new();
        core::mem::swap(&mut tmp, &mut self.security_definitions);
        tmp.into_canonical()
    }
}

/// The prefix-stripped form of a path key: `k` with `base` removed from its
/// front when `base` is a prefix of `k`, and `k` unchanged otherwise.
pub open spec fn strip_prefix_model(base: Seq<char>, k: Seq<char>) -> Seq<char> {
    if k.len() >= base.len() && k.subrange(0, base.len() as int) == base {
        k.skip(base.len() as int)
    } else {
        k
    }
}

/// The document's base path, taken as empty when absent.
pub open spec fn base_of(d: DocumentModel) -> Seq<char> {
    match d.base_path {
        Some(b) => b,
        None => Seq::<char>::empty(),
    }
}

/// Whether `base` is a prefix of `k`.
fn is_prefix(base: &String, k: &String) -> (r: bool)
    requires
        base@.len() <= k@.len(),
    ensures
        r == (k@.subrange(0, base@.len() as int) == base@),
{
    let bl = base.as_str().unicode_len();
    let mut i: usize = 0;
    while i < bl
        invariant
            i <= bl,
            bl == base@.len(),
            base@.len() <= k@.len(),
            forall|j: int| 0 <= j < i ==> k@[j] == base@[j],
        decreases bl - i,
    {
        if k.as_str().get_char(i) != base.as_str().get_char(i) {
            proof {
                assert(k@.subrange(0, base@.len() as int)[i as int] != base@[i as int]);
            }
            return false;
        }
        i += 1;
    }
    proof {
        assert(k@.subrange(0, base@.len() as int) =~= base@);
    }
    true
}

/// The key with `base` stripped from its front, if it starts with `base`.
fn strip_prefix(base: &String, k: &String) -> (r: String)
    ensures
        r@ == strip_prefix_model(base@, k@),
{
    let bl = base.as_str().unicode_len();
    let kl = k.as_str().unicode_len();
    if bl <= kl && is_prefix(base, k) {
        k.as_str().substring_char(bl, kl).to_owned()
    } else {
        k.clone()
    }
}

impl Document {
    /// The key stores have pairwise distinct keys.
    pub open spec fn wf(&self) -> bool {
        &&& self.paths.wf()
        &&& self.definitions.wf()
        &&& self.security_definitions.wf()
    }

    /// Creates the empty document: no paths, no definitions, no security
    /// schemes, no base path.
    pub fn new() -> (r: Self)
        ensures
            r.wf(),
            r@.paths == Map::<Seq<char>, PathItemModel>::empty(),
            r@.definitions == Map::<Seq<char>, u64>::empty(),
            r@.security_definitions == Map::<Seq<char>, u64>::empty(),
            r@.base_path is None,
    {
        Document {
            paths: StrMap::new(),
            definitions: StrMap::new(),
            security_definitions: StrMap::new(),
            base_path: None,
        }
    }

    /// Sets the base path, leaving everything else untouched.
    pub fn set_base_path(&mut self, base: String)
        requires
            old(self).wf(),
        ensures
            final(self).wf(),
            final(self)@.base_path == Some(base@),
            final(self)@.paths == old(self)@.paths,
            final(self)@.definitions == old(self)@.definitions,
            final(self)@.security_definitions == old(self)@.security_definitions,
    {
        self.base_path = Some(base);
    }

    /// Merges one contributor's fragment into the document. With `normalize`
    /// set, every path item of the resulting document is then put into its
    /// canonical form (normalization is idempotent, so repeating it on
    /// untouched items is safe).
    pub fn update_from_mountable<F: Mountable>(&mut self, factory: &mut F, normalize: bool)
        requires
            old(self).wf(),
        ensures
            final(self).wf(),
            ({
                let m = merge_model(
                    old(self)@,
                    old(factory).path_model(),
                    old(factory).operations_model(),
                    old(factory).definitions_model(),
                    old(factory).security_model(),
                );
                if normalize {
                    &&& final(self)@.definitions == m.definitions
                    &&& final(self)@.security_definitions == m.security_definitions
                    &&& final(self)@.base_path == m.base_path
                    &&& paths_normalized(m.paths, final(self)@.paths)
                } else {
                    final(self)@ == m
                }
            }),
    {
        let defs = factory.definitions();
        self.definitions.extend(defs);
        let secs = factory.security_definitions();
        self.security_definitions.extend(secs);
        factory.update_operations(&mut self.paths);
        if normalize {
            self.normalize_paths();
        } else {
            proof {
                assert(self@ =~= merge_model(
                    old(self)@,
                    old(factory).path_model(),
                    old(factory).operations_model(),
                    old(factory).definitions_model(),
                    old(factory).security_model(),
                ));
            }
        }
    }

    /// Puts every path item of the document into its canonical form.
    pub fn normalize_paths(&mut self)
        requires
            old(self).wf(),
        ensures
            final(self).wf(),
            paths_normalized(old(self)@.paths, final(self)@.paths),
            final(self)@.definitions == old(self)@.definitions,
            final(self)@.security_definitions == old(self)@.security_definitions,
            final(self)@.base_path == old(self)@.base_path,
    {
        let mut entries = self.paths.to_entries();
        let ghost orig = entries@;
        let ghost pm = self.paths@;
        let mut out: StrMap<PathItem> = StrMap::new();
        loop
            invariant
                self.wf(),
                self@ == old(self)@,
                crate::assoc::distinct_keys(orig),
                crate::assoc::assoc_view(orig) == pm,
                pm == self.paths@,
                entries@ == orig.take(entries@.len() as int),
                entries@.len() <= orig.len(),
                out.wf(),
                forall|k: Seq<char>|
                    out@.contains_key(k) <==> (exists|j: int|
                        entries@.len() <= j < orig.len() && orig[j].0@ == k),
                forall|k: Seq<char>| #[trigger]
                    out@.contains_key(k) ==> pm.contains_key(k) && norm_rel(pm[k], out@[k]),
            ensures
                entries@.len() == 0,
            decreases entries@.len(),
        {
            let ghost pre = entries@;
            let popped = entries.pop();
            match popped {
                Some(kv) => {
                    let (k, item) = kv;
                    let ghost j = pre.len() - 1;
                    proof {
                        assert(pre[j] == orig[j]);
                        assert(entries@ =~= orig.take(entries@.len() as int));
                        crate::assoc::lemma_assoc_index(orig, j);
                        assert(pm.contains_key(k@) && pm[k@] == item@);
                    }
                    let PathItem { parameters, methods } = item;
                    let mut it = PathItem { parameters, methods: methods.into_canonical() };
                    it.normalize();
                    proof {
                        assert(norm_rel(pm[k@], it@));
                    }
                    out.insert(k, it);
                    proof {
                        assert forall|k2: Seq<char>| out@.contains_key(k2) implies (exists|j2: int|
                            entries@.len() <= j2 < orig.len() && orig[j2].0@ == k2) by {
                            if k2 == k@ {
                                assert(entries@.len() <= j < orig.len() && orig[j].0@ == k2);
                            }
                        }
                        assert forall|j2: int|
                            entries@.len() <= j2 < orig.len() implies out@.contains_key(
                            orig[j2].0@,
                        ) by {
                            if j2 != j {
                                assert(out@.contains_key(orig[j2].0@));
                            }
                        }
                    }
                },
                None => {
                    break ;
                },
            }
        }
        proof {
            assert forall|k: Seq<char>| pm.contains_key(k) implies out@.contains_key(k) by {
                crate::assoc::lemma_assoc_contains(orig, k);
            }
            assert forall|k: Seq<char>| out@.contains_key(k) implies pm.contains_key(k) by {}
            assert(out@.dom() =~= pm.dom());
        }
        self.paths = out;
    }

    /// Rewrites every path key by stripping the document's base path from its
    /// front where it is a prefix; other keys are kept verbatim. Every path of
    /// the input is represented in the result, every result entry stems from
    /// an input entry, and when stripping collides nothing beyond the colliding
    /// keys is disturbed. Definitions, security definitions and the base path
    /// itself are untouched.
    pub fn trim_base_path(self) -> (r: Self)
        requires
            self.wf(),
        ensures
            r.wf(),
            r@.definitions == self@.definitions,
            r@.security_definitions == self@.security_definitions,
            r@.base_path == self@.base_path,
            forall|k: Seq<char>| #[trigger]
                self@.paths.contains_key(k) ==> r@.paths.contains_key(
                    strip_prefix_model(base_of(self@), k),
                ),
            forall|k2: Seq<char>| #[trigger]
                r@.paths.contains_key(k2) ==> (exists|k: Seq<char>|
                    self@.paths.contains_key(k) && strip_prefix_model(base_of(self@), k) == k2
                        && r@.paths[k2] == self@.paths[k]),
    {
        let base: String = match &self.base_path {
            Some(b) => b.clone(),
            None => String::new(),
        };
        proof {
            assert(base@ == base_of(self@));
        }
        let ghost pm = self.paths@;
        let mut entries = self.paths.to_entries();
        let ghost orig = entries@;
        let mut out: StrMap<PathItem> = StrMap::new();
        loop
            invariant
                base@ == base_of(self@),
                crate::assoc::distinct_keys(orig),
                crate::assoc::assoc_view(orig) == pm,
                entries@ == orig.take(entries@.len() as int),
                entries@.len() <= orig.len(),
                out.wf(),
                forall|j: int| #![all_triggers]
                    entries@.len() <= j < orig.len() ==> out@.contains_key(
                        strip_prefix_model(base@, orig[j].0@),
                    ),
                forall|k2: Seq<char>| #[trigger]
                    out@.contains_key(k2) ==> (exists|k: Seq<char>|
                        pm.contains_key(k) && strip_prefix_model(base@, k) == k2 && out@[k2]
                            == pm[k]),
            ensures
                entries@.len() == 0,
            decreases entries@.len(),
        {
            let ghost pre = entries@;
            let popped = entries.pop();
            match popped {
                Some(kv) => {
                    let (k, item) = kv;
                    let ghost j = pre.len() - 1;
                    proof {
                        assert(pre[j] == orig[j]);
                        assert(entries@ =~= orig.take(entries@.len() as int));
                        crate::assoc::lemma_assoc_index(orig, j);
                        assert(pm.contains_key(k@) && pm[k@] == item@);
                    }
                    let nk = strip_prefix(&base, &k);
                    out.insert(nk, item);
                    proof {
                        assert forall|j2: int| #![all_triggers]
                            entries@.len() <= j2 < orig.len() implies out@.contains_key(
                            strip_prefix_model(base@, orig[j2].0@),
                        ) by {
                            if j2 != j {
                                assert(out@.contains_key(strip_prefix_model(base@, orig[j2].0@)));
                            }
                        }
                    }
                },
                None => {
                    break ;
                },
            }
        }
        proof {
            assert forall|k: Seq<char>| #[trigger] pm.contains_key(k) implies out@.contains_key(
                strip_prefix_model(base@, k),
            ) by {
                crate::assoc::lemma_assoc_contains(orig, k);
                let j = choose|j: int| 0 <= j < orig.len() && orig[j].0@ == k;
                assert(out@.contains_key(strip_prefix_model(base@, orig[j].0@)));
            }
        }
        Document {
            paths: out,
            definitions: self.definitions,
            security_definitions: self.security_definitions,
            base_path: self.base_path,
        }
    }

    /// A point-in-time copy of the document, denoting the same abstract value.
    pub fn snapshot(&self) -> (r: Document)
        requires
            self.wf(),
        ensures
            r.wf(),
            r@ == self@,
    {
        let base: Option<String> = match &self.base_path {
            Some(b) => Some(b.clone()),
            None => None,
        };
        let r = Document {
            paths: self.paths.dup(),
            definitions: self.definitions.dup(),
            security_definitions: self.security_definitions.dup(),
            base_path: base,
        };
        proof {
            assert(r@ =~= self@);
        }
        r
    }
}

/// When stripping the base path never makes two distinct path keys collide,
/// each rewritten key holds exactly the path item of the key it came from.
pub proof fn lemma_trim_injective(
    a: Map<Seq<char>, PathItemModel>,
    b: Map<Seq<char>, PathItemModel>,
    base: Seq<char>,
)
    requires
        forall|k: Seq<char>| #[trigger]
            a.contains_key(k) ==> b.contains_key(strip_prefix_model(base, k)),
        forall|k2: Seq<char>| #[trigger]
            b.contains_key(k2) ==> (exists|k: Seq<char>|
                a.contains_key(k) && strip_prefix_model(base, k) == k2 && b[k2] == a[k]),
        forall|k1: Seq<char>, k2: Seq<char>|
            a.contains_key(k1) && a.contains_key(k2) && strip_prefix_model(base, k1)
                == strip_prefix_model(base, k2) ==> k1 == k2,
    ensures
        forall|k: Seq<char>| #[trigger]
            a.contains_key(k) ==> b[strip_prefix_model(base, k)] == a[k],
{
    assert forall|k: Seq<char>| #[trigger] a.contains_key(k) implies b[strip_prefix_model(base, k)]
        == a[k] by {
        let k2 = strip_prefix_model(base, k);
        assert(b.contains_key(k2));
        let k0 = choose|k0: Seq<char>|
            a.contains_key(k0) && strip_prefix_model(base, k0) == k2 && b[k2] == a[k0];
        assert(k0 == k);
    }
}

/// Law: contributors with distinct paths commute, and the resulting paths
/// mapping holds exactly the original paths plus both contributed ones.
pub proof fn lemma_merge_disjoint_paths(
    paths: Map<Seq<char>, PathItemModel>,
    pa: Seq<char>,
    opsa: Map<Method, OperationModel>,
    pb: Seq<char>,
    opsb: Map<Method, OperationModel>,
)
    requires
        pa != pb,
    ensures
        merge_paths_model(merge_paths_model(paths, pa, opsa), pb, opsb) == merge_paths_model(
            merge_paths_model(paths, pb, opsb),
            pa,
            opsa,
        ),
        merge_paths_model(merge_paths_model(paths, pa, opsa), pb, opsb).dom() == paths.dom().insert(
            pa,
        ).insert(pb),
{
    let ab = merge_paths_model(merge_paths_model(paths, pa, opsa), pb, opsb);
    let ba = merge_paths_model(merge_paths_model(paths, pb, opsb), pa, opsa);
    assert(merged_item(merge_paths_model(paths, pa, opsa), pb, opsb) == merged_item(
        paths,
        pb,
        opsb,
    ));
    assert(merged_item(merge_paths_model(paths, pb, opsb), pa, opsa) == merged_item(
        paths,
        pa,
        opsa,
    ));
    assert(ab =~= ba);
    assert(ab.dom() =~= paths.dom().insert(pa).insert(pb));
}

/// Law: two contributors to the same fresh path with methods from both sides
/// yield a path item holding the union of both method maps; with disjoint
/// methods each side's operations survive verbatim.
pub proof fn lemma_merge_same_path_disjoint_methods(
    paths: Map<Seq<char>, PathItemModel>,
    p: Seq<char>,
    opsa: Map<Method, OperationModel>,
    opsb: Map<Method, OperationModel>,
)
    requires
        !paths.contains_key(p),
        opsa.dom().disjoint(opsb.dom()),
    ensures
        merge_paths_model(merge_paths_model(paths, p, opsa), p, opsb)[p].methods
            == opsa.union_prefer_right(opsb),
        merge_paths_model(merge_paths_model(paths, p, opsa), p, opsb)[p].methods.dom()
            == opsa.dom() + opsb.dom(),
        forall|m: Method| #[trigger]
            opsa.contains_key(m) ==> merge_paths_model(
                merge_paths_model(paths, p, opsa),
                p,
                opsb,
            )[p].methods[m] == opsa[m],
        forall|m: Method| #[trigger]
            opsb.contains_key(m) ==> merge_paths_model(
                merge_paths_model(paths, p, opsa),
                p,
                opsb,
            )[p].methods[m] == opsb[m],
{
    let merged = merge_paths_model(merge_paths_model(paths, p, opsa), p, opsb)[p].methods;
    assert(merged == opsa.union_prefer_right(opsb));
    assert(merged.dom() =~= opsa.dom() + opsb.dom());
    assert forall|m: Method| #[trigger] opsa.contains_key(m) implies merged[m] == opsa[m] by {
        assert(!opsb.contains_key(m));
    }
}

/// Law: when two contributors bind the same path and the same method, the one
/// merged later wins that method's entry.
pub proof fn lemma_merge_same_method_last_wins(
    paths: Map<Seq<char>, PathItemModel>,
    p: Seq<char>,
    opsa: Map<Method, OperationModel>,
    opsb: Map<Method, OperationModel>,
    m: Method,
)
    requires
        opsb.contains_key(m),
    ensures
        merge_paths_model(merge_paths_model(paths, p, opsa), p, opsb)[p].methods[m] == opsb[m],
{
}

} // verus!
