//! The packages of a `uv.lock` file and the edges between them.
use vstd::prelude::*;
use crate::names::{normalize_name, normalized};
use crate::text::str_equal;

verus! {

/// One dependency edge of a locked package: the package it names, the extras it
/// asks for, and its environment marker.
pub struct LockedDep {
    pub name: String,
    pub extra: Option<Vec<String>>,
    pub marker: Option<String>,
}

/// One `[[package]]` entry of `uv.lock`. `optional_dependencies` lists, for each
/// extra the package defines, the edges that the extra adds.
pub struct LockedPackage {
    pub name: String,
    pub version: String,
    pub dependencies: Option<Vec<LockedDep>>,
    pub optional_dependencies: Option<Vec<(String, Vec<LockedDep>)>>,
}

/// An edge as the traversals see it: the target's raw name and the extras requested.
pub type Edge = (Seq<char>, Seq<Seq<char>>);

/// The extras an edge requests (none when the field is absent).
pub open spec fn extras_view(extra: Option<Vec<String>>) -> Seq<Seq<char>> {
    match extra {
        Some(v) => v.deep_view(),
        None => seq![],
    }
}

pub open spec fn edge_of(d: LockedDep) -> Edge {
    (d.name@, extras_view(d.extra))
}

pub open spec fn edges_of(ds: Seq<LockedDep>) -> Seq<Edge> {
    ds.map_values(|d: LockedDep| edge_of(d))
}

/// The edges a package always has.
pub open spec fn base_deps(pkg: LockedPackage) -> Seq<LockedDep> {
    match pkg.dependencies {
        Some(v) => v@,
        None => seq![],
    }
}

/// The position of the first group named `extra`, or `groups.len()`.
pub open spec fn group_index(groups: Seq<(String, Vec<LockedDep>)>, extra: Seq<char>) -> int
    decreases groups.len(),
{
    if groups.len() == 0 {
        0
    } else if groups[0].0@ == extra {
        0
    } else {
        1 + group_index(groups.drop_first(), extra)
    }
}

/// The edges that the optional group `extra` adds (none when there is no such group).
pub open spec fn group_deps(groups: Seq<(String, Vec<LockedDep>)>, extra: Seq<char>) -> Seq<LockedDep> {
    let i = group_index(groups, extra);
    if 0 <= i < groups.len() {
        groups[i].1@
    } else {
        seq![]
    }
}

/// The edges added by the requested extras, in the order the extras are listed.
pub open spec fn extra_edges(groups: Seq<(String, Vec<LockedDep>)>, extras: Seq<Seq<char>>) -> Seq<Edge>
    decreases extras.len(),
{
    if extras.len() == 0 {
        seq![]
    } else {
        extra_edges(groups, extras.drop_last()) + edges_of(group_deps(groups, extras.last()))
    }
}

/// The optional groups a package defines (none when the field is absent).
pub open spec fn groups_of(pkg: LockedPackage) -> Seq<(String, Vec<LockedDep>)> {
    match pkg.optional_dependencies {
        Some(groups) => groups@,
        None => seq![],
    }
}

/// Whether the package defines the extra `x`.
pub open spec fn has_group(pkg: LockedPackage, x: Seq<char>) -> bool {
    group_index(groups_of(pkg), x) < groups_of(pkg).len()
}

/// The edges followed out of `pkg` when it is required with `extras`: its own
/// dependencies, then those of each requested extra that it defines.
pub open spec fn deps_of(pkg: LockedPackage, extras: Seq<Seq<char>>) -> Seq<Edge> {
    edges_of(base_deps(pkg)) + extra_edges(groups_of(pkg), extras)
}

/// Without groups, extras add no edges.
pub proof fn lemma_extra_edges_empty(extras: Seq<Seq<char>>)
    ensures
        extra_edges(Seq::<(String, Vec<LockedDep>)>::empty(), extras) == Seq::<Edge>::empty(),
    decreases extras.len(),
{
    if extras.len() > 0 {
        lemma_extra_edges_empty(extras.drop_last());
        assert(edges_of(Seq::<LockedDep>::empty()) =~= Seq::<Edge>::empty());
    }
}

pub open spec fn edge_views(v: Seq<(String, Vec<String>)>) -> Seq<Edge> {
    v.map_values(|p: (String, Vec<String>)| (p.0@, p.1.deep_view()))
}

/// A copy of a list of strings.
pub fn clone_strings(v: &Vec<String>) -> (r: Vec<String>)
    ensures
        r.deep_view() == v.deep_view(),
{
    let mut r: Vec<String> = Vec::new();
    let mut i: usize = 0;
    while i < v.len()
        invariant
            i <= v.len(),
            r.deep_view() == v.deep_view().take(i as int),
        decreases v.len() - i,
    {
        let s = v[i].clone();
        let ghost before = r.deep_view();
        r.push(s);
        assert(r.deep_view() =~= before.push(v@[i as int]@));
        i = i + 1;
        assert(r.deep_view() =~= v.deep_view().take(i as int));
    }
    assert(v.deep_view().take(v.len() as int) =~= v.deep_view());
    r
}

pub(crate) fn push_edges(out: &mut Vec<(String, Vec<String>)>, ds: &Vec<LockedDep>)
    ensures
        edge_views(final(out)@) == edge_views(old(out)@) + edges_of(ds@),
{
    let ghost start = edge_views(out@);
    let mut i: usize = 0;
    while i < ds.len()
        invariant
            i <= ds.len(),
            edge_views(out@) == start + edges_of(ds@.take(i as int)),
        decreases ds.len() - i,
    {
        let d = &ds[i];
        let extras = match &d.extra {
            Some(v) => clone_strings(v),
            None => Vec::new(),
        };
        assert(extras.deep_view() =~= extras_view(d.extra));
        let ghost before = edge_views(out@);
        out.push((d.name.clone(), extras));
        assert(edge_views(out@) =~= before.push(edge_of(ds@[i as int])));
        i = i + 1;
        assert(edges_of(ds@.take(i as int)) =~= edges_of(ds@.take(i - 1)).push(edge_of(ds@[i - 1])));
    }
    assert(ds@.take(ds.len() as int) =~= ds@);
}

/// `group_index` is the first group named `extra`.
pub proof fn lemma_group_index(groups: Seq<(String, Vec<LockedDep>)>, extra: Seq<char>, k: int)
    requires
        0 <= k <= groups.len(),
        forall|j: int| 0 <= j < k ==> (#[trigger] groups[j]).0@ != extra,
        k == groups.len() || groups[k].0@ == extra,
    ensures
        group_index(groups, extra) == k,
    decreases groups.len(),
{
    if groups.len() > 0 && k > 0 {
        let t = groups.drop_first();
        assert forall|j: int| 0 <= j < k - 1 implies (#[trigger] t[j]).0@ != extra by {
            assert(t[j] == groups[j + 1]);
        }
        if k < groups.len() {
            assert(t[k - 1] == groups[k]);
        }
        lemma_group_index(t, extra, k - 1);
    }
}

/// The position of the first group of `pkg` named `x`, or the number of groups.
pub fn group_position(pkg: &LockedPackage, x: &str) -> (r: usize)
    ensures
        r == group_index(groups_of(*pkg), x@),
        r <= groups_of(*pkg).len(),
{
    match &pkg.optional_dependencies {
        Some(groups) => {
            let mut j: usize = 0;
            while j < groups.len() && !str_equal(groups[j].0.as_str(), x)
                invariant
                    j <= groups.len(),
                    forall|m: int| 0 <= m < j ==> (#[trigger] groups@[m]).0@ != x@,
                decreases groups.len() - j,
            {
                j = j + 1;
            }
            proof {
                lemma_group_index(groups@, x@, j as int);
            }
            j
        },
        None => 0,
    }
}

/// Appends the edges that the requested extras of `pkg` add, in the order the
/// extras are listed.
pub fn push_group_edges(out: &mut Vec<(String, Vec<String>)>, pkg: &LockedPackage, extras: &Vec<String>)
    ensures
        edge_views(final(out)@) == edge_views(old(out)@) + extra_edges(groups_of(*pkg), extras.deep_view()),
{
    let ghost base = edge_views(out@);
    let ghost xs = extras.deep_view();
    match &pkg.optional_dependencies {
        Some(groups) => {
            let mut i: usize = 0;
            assert(base + extra_edges(groups@, xs.take(0)) =~= base);
            while i < extras.len()
                invariant
                    i <= extras.len(),
                    xs == extras.deep_view(),
                    pkg.optional_dependencies == Some(*groups),
                    edge_views(out@) == base + extra_edges(groups@, xs.take(i as int)),
                decreases extras.len() - i,
            {
                let j = group_position(pkg, extras[i].as_str());
                proof {
                    assert(xs.take(i + 1).drop_last() =~= xs.take(i as int));
                    assert(xs.take(i + 1).last() == extras@[i as int]@);
                }
                if j < groups.len() {
                    push_edges(out, &groups[j].1);
                } else {
                    assert(edges_of(seq![]) =~= seq![]);
                }
                i = i + 1;
            }
            assert(xs.take(extras.len() as int) =~= xs);
        },
        None => {
            proof {
                lemma_extra_edges_empty(xs);
            }
            assert(edge_views(out@) =~= base + extra_edges(groups_of(*pkg), xs));
        },
    }
}

/// Appends the edges that `pkg` always has.
pub fn push_base_edges(out: &mut Vec<(String, Vec<String>)>, pkg: &LockedPackage)
    ensures
        edge_views(final(out)@) == edge_views(old(out)@) + edges_of(base_deps(*pkg)),
{
    match &pkg.dependencies {
        Some(ds) => push_edges(out, ds),
        None => {
            assert(edge_views(out@) =~= edge_views(out@) + edges_of(base_deps(*pkg)));
        },
    }
}

/// The edges followed out of `pkg` when it is required with `extras`, each as the
/// target's raw name and the extras it requests.
pub fn get_deps(pkg: &LockedPackage, extras: &Vec<String>) -> (r: Vec<(String, Vec<String>)>)
    ensures
        edge_views(r@) == deps_of(*pkg, extras.deep_view()),
{
    let mut r: Vec<(String, Vec<String>)> = Vec::new();
    assert(edge_views(r@) =~= seq![]);
    push_base_edges(&mut r, pkg);
    push_group_edges(&mut r, pkg, extras);
    assert(edge_views(r@) =~= deps_of(*pkg, extras.deep_view()));
    r
}

/// The position of the last key equal to `k`: the entry that a map collected from
/// the keys, later entries replacing earlier ones, holds for `k`.
pub open spec fn lookup(keys: Seq<Seq<char>>, k: Seq<char>) -> Option<int>
    decreases keys.len(),
{
    if keys.len() == 0 {
        None
    } else if keys.last() == k {
        Some(keys.len() - 1)
    } else {
        lookup(keys.drop_last(), k)
    }
}

/// What `lookup` finds: the last matching key, and nothing when no key matches.
pub proof fn lemma_lookup(keys: Seq<Seq<char>>, k: Seq<char>)
    ensures
        lookup(keys, k) matches Some(i) ==> 0 <= i < keys.len() && keys[i] == k && forall|j: int|
            i < j < keys.len() ==> keys[j] != k,
        lookup(keys, k) is None ==> forall|j: int| 0 <= j < keys.len() ==> keys[j] != k,
        lookup(keys, k) is Some <==> keys.contains(k),
    decreases keys.len(),
{
    if keys.len() > 0 {
        lemma_lookup(keys.drop_last(), k);
        if keys.last() != k {
            assert forall|j: int| 0 <= j < keys.len() - 1 implies keys[j] == keys.drop_last()[j] by {}
        }
        if lookup(keys, k) is Some {
            let i = lookup(keys, k)->0;
            assert(keys[i] == k);
        }
    }
}

/// The packages of a lock file, each under its normalised name; when two
/// packages share a normalised name, the later one is found.
pub struct LockMap {
    keys: Vec<String>,
    packages: Vec<LockedPackage>,
}

impl LockMap {
    /// Each package stands under the normalised form of its name.
    pub closed spec fn wf(self) -> bool {
        &&& self.keys.len() == self.packages.len()
        &&& forall|i: int|
            0 <= i < self.keys.len() ==> (#[trigger] self.keys@[i])@ == normalized(
                self.packages@[i].name@,
            )
    }

    /// What well-formedness says in terms of the keys and packages.
    pub proof fn lemma_wf(self)
        requires
            self.wf(),
        ensures
            self.keys().len() == self.packages().len(),
            forall|i: int|
                0 <= i < self.keys().len() ==> #[trigger] self.keys()[i] == normalized(
                    self.packages()[i].name@,
                ),
    {
    }

    /// The normalised names, in lock-file order.
    pub closed spec fn keys(self) -> Seq<Seq<char>> {
        self.keys.deep_view()
    }

    /// The packages, in lock-file order.
    pub closed spec fn packages(self) -> Seq<LockedPackage> {
        self.packages@
    }

    /// The package found under a normalised name.
    pub open spec fn entry(self, name: Seq<char>) -> Option<LockedPackage> {
        match lookup(self.keys(), name) {
            Some(i) => Some(self.packages()[i]),
            None => None,
        }
    }

    /// Indexes the packages of a lock file by normalised name.
    pub fn from_packages(packages: Vec<LockedPackage>) -> (r: LockMap)
        ensures
            r.wf(),
            r.packages() == packages@,
            r.keys() == packages@.map_values(|p: LockedPackage| normalized(p.name@)),
    {
        let mut keys: Vec<String> = Vec::new();
        let mut i: usize = 0;
        while i < packages.len()
            invariant
                i <= packages.len(),
                keys.len() == i,
                forall|j: int| 0 <= j < i ==> (#[trigger] keys@[j])@ == normalized(packages@[j].name@),
            decreases packages.len() - i,
        {
            let k = normalize_name(packages[i].name.as_str());
            keys.push(k);
            i = i + 1;
        }
        let r = LockMap { keys, packages };
        assert(r.keys() =~= r.packages@.map_values(|p: LockedPackage| normalized(p.name@)));
        r
    }

    /// The position of the package found under `name`, if any.
    pub fn find(&self, name: &str) -> (r: Option<usize>)
        requires
            self.wf(),
        ensures
            r matches Some(i) ==> lookup(self.keys(), name@) == Some(i as int) && i
                < self.packages().len(),
            r is None ==> lookup(self.keys(), name@) is None,
    {
        let mut i = self.keys.len();
        assert(self.keys().take(i as int) =~= self.keys());
        while i > 0 && !str_equal(self.keys[i - 1].as_str(), name)
            invariant
                i <= self.keys.len(),
                lookup(self.keys(), name@) == lookup(self.keys().take(i as int), name@),
            decreases i,
        {
            assert(self.keys().take(i as int).drop_last() =~= self.keys().take(i - 1));
            i = i - 1;
        }
        if i == 0 {
            assert(self.keys().take(0) =~= Seq::<Seq<char>>::empty());
            None
        } else {
            assert(self.keys().take(i as int).last() == self.keys@[i - 1]@);
            Some(i - 1)
        }
    }

    /// The package at a position.
    pub fn package(&self, i: usize) -> (r: &LockedPackage)
        requires
            i < self.packages().len(),
        ensures
            *r == self.packages()[i as int],
    {
        &self.packages[i]
    }

    /// The number of packages.
    pub fn len(&self) -> (r: usize)
        ensures
            r == self.packages().len(),
    {
        self.packages.len()
    }
}

} // verus!
