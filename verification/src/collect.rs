//! The packages that a project pulls in, each once, in depth-first order.
//!
//! The walk goes over nodes: a package itself (its own dependencies) and each
//! extra it defines (the dependencies that extra adds). A package required again
//! with an extra not yet followed has that extra's dependencies followed then.
use vstd::prelude::*;
use vstd::set_lib::lemma_len_subset;
use vstd::seq_lib::seq_to_set_is_finite;
use crate::graph::path_contains;
use crate::lock::{
    base_deps, edge_views, edges_of, extra_edges, group_index, group_position, groups_of, has_group,
    lemma_lookup, lookup, push_base_edges, push_group_edges, Edge, LockMap, LockedDep, LockedPackage,
};
use crate::names::{extract_extras, extract_name, normalize_name, normalized, requirement_extras, requirement_name};
use crate::osv::opt_view;
use crate::text::str_equal;

verus! {

/// A node of the walk: a package name, with `None` for the package itself or
/// `Some(x)` for its extra `x`.
pub type Node = (Seq<char>, Option<Seq<char>>);

/// The nodes under a name: the package itself, and each extra it defines.
pub open spec fn nodes_of(lock: LockMap, k: Seq<char>) -> Seq<Node> {
    seq![(k, None::<Seq<char>>)] + match lookup(lock.keys(), k) {
        Some(i) => groups_of(lock.packages()[i]).map_values(
            |g: (String, Vec<LockedDep>)| (k, Some(g.0@)),
        ),
        None => seq![],
    }
}

/// The nodes under the first `m` names of the lock file.
pub open spec fn nodes_upto(lock: LockMap, m: int) -> Seq<Node>
    decreases m,
{
    if m <= 0 {
        seq![]
    } else {
        nodes_upto(lock, m - 1) + nodes_of(lock, lock.keys()[m - 1])
    }
}

/// Every node of the lock file.
pub open spec fn all_nodes(lock: LockMap) -> Set<Node> {
    nodes_upto(lock, lock.keys().len() as int).to_set()
}

/// The nodes of the lock file that have not been seen yet.
pub open spec fn unseen(lock: LockMap, seen: Set<Node>) -> nat {
    all_nodes(lock).difference(seen).len()
}

/// The nodes under the `k`-th name are among those under the first `m` names, `k < m`.
pub proof fn lemma_nodes_upto(lock: LockMap, m: int, k: int, e: Node)
    requires
        0 <= k < m,
        nodes_of(lock, lock.keys()[k]).contains(e),
    ensures
        nodes_upto(lock, m).contains(e),
    decreases m,
{
    let a = nodes_upto(lock, m - 1);
    let b = nodes_of(lock, lock.keys()[m - 1]);
    assert(nodes_upto(lock, m) == a + b);
    if k < m - 1 {
        lemma_nodes_upto(lock, m - 1, k, e);
        let j = choose|j: int| 0 <= j < a.len() && a[j] == e;
        assert((a + b)[j] == e);
    } else {
        let j = choose|j: int| 0 <= j < b.len() && b[j] == e;
        assert((a + b)[a.len() + j] == e);
    }
}

/// `group_index` points at a group of that name, when it points at a group.
pub proof fn lemma_group_index_found(groups: Seq<(String, Vec<LockedDep>)>, x: Seq<char>)
    ensures
        0 <= group_index(groups, x) <= groups.len(),
        group_index(groups, x) < groups.len() ==> groups[group_index(groups, x)].0@ == x,
    decreases groups.len(),
{
    if groups.len() > 0 && groups[0].0@ != x {
        lemma_group_index_found(groups.drop_first(), x);
        let j = group_index(groups.drop_first(), x);
        if j < groups.len() - 1 {
            assert(groups[j + 1] == groups.drop_first()[j]);
        }
    }
}

/// A package of the lock file, and each extra it defines, is a node of the lock file.
pub proof fn lemma_node_in_all(lock: LockMap, n: Seq<char>, x: Option<Seq<char>>)
    requires
        lookup(lock.keys(), n) is Some,
        x matches Some(g) ==> has_group(lock.packages()[lookup(lock.keys(), n)->0], g),
    ensures
        all_nodes(lock).contains((n, x)),
{
    lemma_lookup(lock.keys(), n);
    let i = lookup(lock.keys(), n)->0;
    let ns = nodes_of(lock, n);
    match x {
        None => {
            assert(ns[0] == (n, x));
        },
        Some(g) => {
            let gs = groups_of(lock.packages()[i]);
            lemma_group_index_found(gs, g);
            let j = group_index(gs, g);
            assert(ns[1 + j] == (n, Some(gs[j].0@)));
        },
    }
    assert(lock.keys()[i] == n);
    lemma_nodes_upto(lock, lock.keys().len() as int, i, (n, x));
}

/// Seeing more leaves no more nodes unseen.
pub proof fn lemma_unseen_mono(lock: LockMap, a: Set<Node>, b: Set<Node>)
    requires
        a.subset_of(b),
    ensures
        unseen(lock, b) <= unseen(lock, a),
{
    seq_to_set_is_finite(nodes_upto(lock, lock.keys().len() as int));
    let all = all_nodes(lock);
    lemma_len_subset(all.difference(a), all);
    lemma_len_subset(all.difference(b), all.difference(a));
}

/// Seeing a node of the lock file that was not seen leaves fewer nodes unseen.
pub proof fn lemma_unseen_step(lock: LockMap, a: Set<Node>, b: Set<Node>, e: Node)
    requires
        a.subset_of(b),
        all_nodes(lock).contains(e),
        !a.contains(e),
        b.contains(e),
    ensures
        unseen(lock, b) < unseen(lock, a),
{
    seq_to_set_is_finite(nodes_upto(lock, lock.keys().len() as int));
    let all = all_nodes(lock);
    let before = all.difference(a);
    lemma_len_subset(before, all);
    lemma_len_subset(all.difference(b), before.remove(e));
}

/// The extras of `extras` that `pkg` defines and whose node under `name` was not
/// seen, each once, in order.
pub open spec fn fresh_extras(pkg: LockedPackage, name: Seq<char>, extras: Seq<Seq<char>>, seen: Set<Node>) -> Seq<Seq<char>>
    decreases extras.len(),
{
    if extras.len() == 0 {
        seq![]
    } else {
        let r = fresh_extras(pkg, name, extras.drop_last(), seen);
        let x = extras.last();
        if has_group(pkg, x) && !seen.contains((name, Some(x))) && !r.contains(x) {
            r.push(x)
        } else {
            r
        }
    }
}

/// The fresh extras are requested, defined and not seen; every requested, defined
/// extra not seen is among them.
pub proof fn lemma_fresh_extras(pkg: LockedPackage, name: Seq<char>, extras: Seq<Seq<char>>, seen: Set<Node>)
    ensures
        forall|k: int|
            0 <= k < fresh_extras(pkg, name, extras, seen).len() ==> has_group(
                pkg,
                #[trigger] fresh_extras(pkg, name, extras, seen)[k],
            ) && !seen.contains((name, Some(fresh_extras(pkg, name, extras, seen)[k]))),
        forall|x: Seq<char>|
            #[trigger] extras.contains(x) && has_group(pkg, x) && !seen.contains((name, Some(x)))
                ==> fresh_extras(pkg, name, extras, seen).contains(x),
    decreases extras.len(),
{
    if extras.len() > 0 {
        let t = extras.drop_last();
        lemma_fresh_extras(pkg, name, t, seen);
        let r = fresh_extras(pkg, name, t, seen);
        let f = fresh_extras(pkg, name, extras, seen);
        assert forall|k: int| 0 <= k < f.len() implies has_group(pkg, #[trigger] f[k]) && !seen.contains(
            (name, Some(f[k])),
        ) by {
            if k < r.len() {
                assert(f[k] == r[k]);
            }
        }
        assert forall|x: Seq<char>| #[trigger] extras.contains(x) && has_group(pkg, x) && !seen.contains(
            (name, Some(x)),
        ) implies f.contains(x) by {
            let k = choose|k: int| 0 <= k < extras.len() && extras[k] == x;
            if k < extras.len() - 1 {
                assert(t[k] == x);
                assert(t.contains(x));
                let m = choose|m: int| 0 <= m < r.len() && r[m] == x;
                assert(f[m] == x);
            } else if !r.contains(x) {
                assert(f[r.len() as int] == x);
            } else {
                let m = choose|m: int| 0 <= m < r.len() && r[m] == x;
                assert(f[m] == x);
            }
        }
    }
}

/// The nodes of the extras `xs` under `name`.
pub open spec fn marks(name: Seq<char>, xs: Seq<Seq<char>>) -> Set<Node> {
    Set::new(|e: Node| e.0 == name && e.1 is Some && xs.contains(e.1->0))
}

/// What collecting from `name`, required with `extras`, adds: when the lock file
/// has the package, its node and the nodes of the requested extras it defines that
/// were not seen become seen; the package is listed if its node is new; and the
/// edges of what became seen (its own dependencies if its node is new, then those of
/// each new extra) are collected in turn.
pub open spec fn collect(lock: LockMap, name: Seq<char>, extras: Seq<Seq<char>>, seen: Set<Node>) -> (Set<Node>, Seq<Pin>)
    decreases unseen(lock, seen), 0nat,
{
    match lookup(lock.keys(), name) {
        None => (seen, seq![]),
        Some(i) => {
            let pkg = lock.packages()[i];
            let base_new = !seen.contains((name, None::<Seq<char>>));
            let xs = fresh_extras(pkg, name, extras, seen);
            if !base_new && xs.len() == 0 {
                (seen, seq![])
            } else {
                let seen1 = seen.insert((name, None::<Seq<char>>)).union(marks(name, xs));
                proof {
                    lemma_collect_step(lock, name, extras, seen);
                }
                let edges = (if base_new {
                    edges_of(base_deps(pkg))
                } else {
                    seq![]
                }) + extra_edges(groups_of(pkg), xs);
                let r = collect_edges(lock, edges, seen1);
                (r.0, (if base_new {
                    seq![(pkg.name@, pkg.version@)]
                } else {
                    seq![]
                }) + r.1)
            }
        },
    }
}

/// Entering a package whose node, or one of whose requested extras, is new leaves
/// fewer nodes unseen.
pub proof fn lemma_collect_step(lock: LockMap, name: Seq<char>, extras: Seq<Seq<char>>, seen: Set<Node>)
    requires
        lookup(lock.keys(), name) is Some,
        !seen.contains((name, None::<Seq<char>>)) || fresh_extras(
            lock.packages()[lookup(lock.keys(), name)->0],
            name,
            extras,
            seen,
        ).len() > 0,
    ensures
        ({
            let xs = fresh_extras(lock.packages()[lookup(lock.keys(), name)->0], name, extras, seen);
            unseen(lock, seen.insert((name, None::<Seq<char>>)).union(marks(name, xs))) < unseen(lock, seen)
        }),
{
    let i = lookup(lock.keys(), name)->0;
    let pkg = lock.packages()[i];
    let xs = fresh_extras(pkg, name, extras, seen);
    let seen1 = seen.insert((name, None::<Seq<char>>)).union(marks(name, xs));
    lemma_fresh_extras(pkg, name, extras, seen);
    if !seen.contains((name, None::<Seq<char>>)) {
        lemma_node_in_all(lock, name, None);
        lemma_unseen_step(lock, seen, seen1, (name, None));
    } else {
        assert(has_group(pkg, xs[0]));
        lemma_node_in_all(lock, name, Some(xs[0]));
        assert(marks(name, xs).contains((name, Some(xs[0]))));
        lemma_unseen_step(lock, seen, seen1, (name, Some(xs[0])));
    }
}

/// A package as the scan lists it: its name as the lock file spells it, and its version.
pub type Pin = (Seq<char>, Seq<char>);

/// Collecting along a list of edges in turn, each starting from what the ones
/// before it have seen.
pub open spec fn collect_edges(lock: LockMap, edges: Seq<Edge>, seen: Set<Node>) -> (Set<Node>, Seq<Pin>)
    decreases unseen(lock, seen), edges.len() + 1,
{
    if edges.len() == 0 {
        (seen, seq![])
    } else {
        let r1 = collect_edges(lock, edges.drop_last(), seen);
        let s1 = seen.union(r1.0);
        proof {
            lemma_unseen_mono(lock, seen, s1);
        }
        let r2 = collect(lock, normalized(edges.last().0), edges.last().1, s1);
        (r2.0, r1.1 + r2.1)
    }
}

/// Collecting from each requirement of `pyproject.toml` in turn.
pub open spec fn collect_requirements(lock: LockMap, reqs: Seq<Seq<char>>, seen: Set<Node>) -> (Set<Node>, Seq<Pin>)
    decreases reqs.len(),
{
    if reqs.len() == 0 {
        (seen, seq![])
    } else {
        let r1 = collect_requirements(lock, reqs.drop_last(), seen);
        let r2 = collect(
            lock,
            normalized(requirement_name(reqs.last())),
            requirement_extras(reqs.last()),
            r1.0,
        );
        (r2.0, r1.1 + r2.1)
    }
}

pub open spec fn pin_views(v: Seq<(String, String)>) -> Seq<Pin> {
    v.map_values(|p: (String, String)| (p.0@, p.1@))
}

/// The nodes recorded in a list of seen nodes.
pub open spec fn node_views(v: Seq<(String, Option<String>)>) -> Seq<Node> {
    v.map_values(|p: (String, Option<String>)| (p.0@, opt_view(p.1)))
}

/// Whether the node `(name, extra)` is recorded as seen.
pub(crate) fn node_seen(seen: &Vec<(String, Option<String>)>, name: &str, extra: &Option<String>) -> (r: bool)
    ensures
        r == node_views(seen@).contains((name@, opt_view(*extra))),
{
    let ghost nv = node_views(seen@);
    let mut i: usize = 0;
    while i < seen.len()
        invariant
            i <= seen.len(),
            nv == node_views(seen@),
            forall|j: int| 0 <= j < i ==> nv[j] != (name@, opt_view(*extra)),
        decreases seen.len() - i,
    {
        let same_extra = match (&seen[i].1, extra) {
            (None, None) => true,
            (Some(a), Some(b)) => str_equal(a.as_str(), b.as_str()),
            _ => false,
        };
        if same_extra && str_equal(seen[i].0.as_str(), name) {
            assert(nv[i as int] == (name@, opt_view(*extra)));
            return true;
        }
        i = i + 1;
    }
    false
}

/// Records a node as seen.
pub(crate) fn mark_seen(seen: &mut Vec<(String, Option<String>)>, name: &str, extra: Option<String>)
    ensures
        node_views(final(seen)@).to_set() == node_views(old(seen)@).to_set().insert((name@, opt_view(extra))),
{
    let ghost before = node_views(seen@);
    let ghost e = (name@, opt_view(extra));
    seen.push((name.to_owned(), extra));
    assert(node_views(seen@) =~= before.push(e));
    proof {
        before.lemma_push_to_set_commute(e);
    }
}

/// Whether `pkg` defines the extra `x`.
fn defines_extra(pkg: &LockedPackage, x: &str) -> (r: bool)
    ensures
        r == has_group(*pkg, x@),
{
    let j = group_position(pkg, x);
    let n = match &pkg.optional_dependencies {
        Some(groups) => groups.len(),
        None => 0,
    };
    j < n
}

/// The extras of `extras` that `pkg` defines and whose node under `name` is not
/// recorded as seen, each once, in order.
pub(crate) fn fresh_extras_of(
    pkg: &LockedPackage,
    name: &str,
    extras: &Vec<String>,
    seen: &Vec<(String, Option<String>)>,
) -> (r: Vec<String>)
    ensures
        r.deep_view() == fresh_extras(*pkg, name@, extras.deep_view(), node_views(seen@).to_set()),
{
    let ghost s = node_views(seen@).to_set();
    let ghost xs = extras.deep_view();
    let mut r: Vec<String> = Vec::new();
    let mut k: usize = 0;
    assert(xs.take(0) =~= Seq::<Seq<char>>::empty());
    while k < extras.len()
        invariant
            k <= extras.len(),
            xs == extras.deep_view(),
            s == node_views(seen@).to_set(),
            r.deep_view() == fresh_extras(*pkg, name@, xs.take(k as int), s),
        decreases extras.len() - k,
    {
        let x = extras[k].as_str();
        proof {
            assert(xs.take(k + 1).drop_last() =~= xs.take(k as int));
            assert(xs.take(k + 1).last() == x@);
        }
        let some_x = Some(extras[k].clone());
        let seen_x = node_seen(seen, name, &some_x);
        if defines_extra(pkg, x) && !seen_x && !path_contains(&r, x) {
            let ghost before = r.deep_view();
            r.push(x.to_owned());
            assert(r.deep_view() =~= before.push(x@));
        }
        k = k + 1;
    }
    assert(xs.take(extras.len() as int) =~= xs);
    r
}

/// Lists the packages reached from `name`, required with `extras`, that were not
/// listed, each once, and records every node it enters as seen.
#[verifier::rlimit(60)]
pub fn collect_packages(
    name: &str,
    extras: &Vec<String>,
    lock: &LockMap,
    seen: &mut Vec<(String, Option<String>)>,
    out: &mut Vec<(String, String)>,
)
    requires
        lock.wf(),
    ensures
        ({
            let r = collect(*lock, name@, extras.deep_view(), node_views(old(seen)@).to_set());
            &&& node_views(final(seen)@).to_set() == r.0
            &&& pin_views(final(out)@) == pin_views(old(out)@) + r.1
        }),
        node_views(old(seen)@).to_set().subset_of(node_views(final(seen)@).to_set()),
    decreases unseen(*lock, node_views(seen@).to_set()),
{
    let ghost s0 = node_views(seen@).to_set();
    let ghost o0 = pin_views(out@);
    let ghost xs0 = extras.deep_view();
    let i = match lock.find(name) {
        None => {
            assert(pin_views(out@) =~= o0 + Seq::<Pin>::empty());
            return;
        },
        Some(i) => i,
    };
    let pkg = lock.package(i);
    let none: Option<String> = None;
    let base_new = !node_seen(seen, name, &none);
    let xs = fresh_extras_of(pkg, name, extras, seen);
    let ghost fx = xs.deep_view();
    if !base_new && xs.len() == 0 {
        assert(pin_views(out@) =~= o0 + Seq::<Pin>::empty());
        return;
    }
    proof {
        lemma_collect_step(*lock, name@, xs0, s0);
    }
    mark_seen(seen, name, None);
    let ghost sb = node_views(seen@).to_set();
    let mut m: usize = 0;
    assert(sb.union(marks(name@, fx.take(0))) =~= sb);
    while m < xs.len()
        invariant
            m <= xs.len(),
            fx == xs.deep_view(),
            node_views(seen@).to_set() == sb.union(marks(name@, fx.take(m as int))),
        decreases xs.len() - m,
    {
        mark_seen(seen, name, Some(xs[m].clone()));
        proof {
            let ys = fx.take(m as int);
            let y = xs@[m as int]@;
            assert(fx.take(m + 1) =~= ys.push(y));
            assert forall|z: Seq<char>| #[trigger] ys.push(y).contains(z) <==> (ys.contains(z) || z == y) by {
                if ys.push(y).contains(z) && z != y {
                    let k = choose|k: int| 0 <= k < ys.len() + 1 && ys.push(y)[k] == z;
                    assert(ys[k] == z);
                }
                if ys.contains(z) {
                    let k = choose|k: int| 0 <= k < ys.len() && ys[k] == z;
                    assert(ys.push(y)[k] == z);
                }
                if z == y {
                    assert(ys.push(y)[ys.len() as int] == z);
                }
            }
            assert(sb.union(marks(name@, fx.take(m + 1))) =~= sb.union(marks(name@, fx.take(m as int))).insert(
                (name@, Some(xs@[m as int]@)),
            ));
        }
        m = m + 1;
    }
    assert(fx.take(xs.len() as int) =~= fx);
    let ghost s1 = node_views(seen@).to_set();
    assert(s1 == s0.insert((name@, None::<Seq<char>>)).union(marks(name@, fx)));
    let mut deps: Vec<(String, Vec<String>)> = Vec::new();
    assert(edge_views(deps@) =~= Seq::<Edge>::empty());
    if base_new {
        push_base_edges(&mut deps, pkg);
    }
    push_group_edges(&mut deps, pkg, &xs);
    let ghost edges = edge_views(deps@);
    assert(edges =~= (if base_new {
        edges_of(base_deps(*pkg))
    } else {
        seq![]
    }) + extra_edges(groups_of(*pkg), fx));
    if base_new {
        out.push((pkg.name.clone(), pkg.version.clone()));
    }
    let ghost o1 = pin_views(out@);
    assert(o1 =~= o0 + (if base_new {
        seq![(pkg.name@, pkg.version@)]
    } else {
        Seq::<Pin>::empty()
    }));
    let mut j: usize = 0;
    assert(edges.take(0) =~= Seq::<Edge>::empty());
    assert(pin_views(out@) =~= o1 + Seq::<Pin>::empty());
    assert(s1.union(s1) =~= s1);
    while j < deps.len()
        invariant
            j <= deps.len(),
            lock.wf(),
            edges == edge_views(deps@),
            s0 == node_views(old(seen)@).to_set(),
            unseen(*lock, s1) < unseen(*lock, s0),
            s0.subset_of(s1),
            s1.subset_of(node_views(seen@).to_set()),
            ({
                let c = collect_edges(*lock, edges.take(j as int), s1);
                &&& node_views(seen@).to_set() == c.0
                &&& pin_views(out@) == o1 + c.1
            }),
        decreases deps.len() - j,
    {
        let child = normalize_name(deps[j].0.as_str());
        let ghost cur = node_views(seen@).to_set();
        proof {
            lemma_unseen_mono(*lock, s1, cur);
        }
        collect_packages(child.as_str(), &deps[j].1, lock, seen, out);
        proof {
            let e = edges.take(j + 1);
            assert(e.drop_last() =~= edges.take(j as int));
            assert(e.last() == (deps@[j as int].0@, deps@[j as int].1.deep_view()));
            assert(s1.union(cur) =~= cur);
            let c = collect(*lock, child@, deps@[j as int].1.deep_view(), cur);
            assert(pin_views(out@) =~= o1 + (collect_edges(*lock, edges.take(j as int), s1).1 + c.1));
        }
        j = j + 1;
    }
    proof {
        assert(edges.take(deps.len() as int) =~= edges);
        let c = collect_edges(*lock, edges, s1);
        assert(pin_views(out@) =~= o0 + ((if base_new {
            seq![(pkg.name@, pkg.version@)]
        } else {
            Seq::<Pin>::empty()
        }) + c.1));
    }
}

/// The packages a project pulls in: what collecting from each requirement of
/// `pyproject.toml` in turn lists, each package once.
pub fn scan_packages(dependencies: &Vec<String>, lock: &LockMap) -> (r: Vec<(String, String)>)
    requires
        lock.wf(),
    ensures
        pin_views(r@) == collect_requirements(*lock, dependencies.deep_view(), Set::empty()).1,
{
    let mut seen: Vec<(String, Option<String>)> = Vec::new();
    let mut out: Vec<(String, String)> = Vec::new();
    let ghost reqs = dependencies.deep_view();
    let mut i: usize = 0;
    assert(reqs.take(0) =~= Seq::<Seq<char>>::empty());
    assert(node_views(seen@).to_set() =~= Set::<Node>::empty());
    assert(pin_views(out@) =~= Seq::<Pin>::empty());
    while i < dependencies.len()
        invariant
            i <= dependencies.len(),
            lock.wf(),
            reqs == dependencies.deep_view(),
            ({
                let c = collect_requirements(*lock, reqs.take(i as int), Set::empty());
                &&& node_views(seen@).to_set() == c.0
                &&& pin_views(out@) == c.1
            }),
        decreases dependencies.len() - i,
    {
        let raw = dependencies[i].as_str();
        let base = extract_name(raw);
        let name = normalize_name(base.as_str());
        let extras = extract_extras(raw);
        collect_packages(name.as_str(), &extras, lock, &mut seen, &mut out);
        proof {
            let r = reqs.take(i + 1);
            assert(r.drop_last() =~= reqs.take(i as int));
            assert(r.last() == dependencies@[i as int]@);
        }
        i = i + 1;
    }
    assert(reqs.take(dependencies.len() as int) =~= reqs);
    out
}

} // verus!
