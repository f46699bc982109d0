//! Properties of the library as a whole, stated over its specifications.
use vstd::prelude::*;
use crate::audit::{
    audit_edges, audit_requirements, audit_visit, cves_of, enter, ids_of, is_withdrawn, lemma_kept_paths,
    lemma_position_on, lemma_requirements_placed, live_ids, may_report, position_on, report_of,
    report_views, root_names, scan_audit, scan_of, ReportSpec, ScanResult,
};
use crate::collect::{collect, collect_edges, collect_requirements, fresh_extras, lemma_collect_step, lemma_fresh_extras, lemma_unseen_mono, marks, unseen, Node, Pin};
use crate::fix::{advice_for, advice_names, advised, fix_summary, fix_view, fix_views, suggestion_for, FixSuggestion};
use crate::scan::{bytes_le, sorted_strings, str_le};
use crate::graph::{dependency_tree_text, lemma_tree_text_concat, lemma_unvisited_push, unvisited, walk, walk_edges, walk_requirements, Visit, VisitKind};
use crate::lock::{base_deps, deps_of, edges_of, extra_edges, group_deps, groups_of, has_group, lemma_lookup, lookup, Edge, LockMap};
use crate::names::{normalized, requirement_extras, requirement_name};
use crate::osv::{fix_version_of, last_affected_of, OsvVulnDetail};
use crate::report::printable;
use crate::store::StringMap;
use crate::version::{later_version, triple_gt, version_triple};

verus! {


/// A normalised name holds no `_` and no `.`: every separator became `-`.
pub proof fn law_normalized_has_no_underscore_or_dot(name: Seq<char>)
    ensures
        forall|i: int| 0 <= i < normalized(name).len() ==> #[trigger] normalized(name)[i] != '_'
            && normalized(name)[i] != '.',
{
}

/// The later of two versions is one of them, and neither is later than it.
pub proof fn law_later_version_is_maximum(a: Seq<char>, b: Seq<char>)
    ensures
        later_version(a, b) == a || later_version(a, b) == b,
        !triple_gt(version_triple(a), version_triple(later_version(a, b))),
        !triple_gt(version_triple(b), version_triple(later_version(a, b))),
{
}

/// The dependency tree of a list of requirements followed by another is the two
/// trees one after the other: each requirement is walked from the root on its own.
pub proof fn law_tree_of_concatenated_requirements(lock: LockMap, a: Seq<Seq<char>>, b: Seq<Seq<char>>)
    ensures
        dependency_tree_text(lock, a + b) == dependency_tree_text(lock, a) + dependency_tree_text(lock, b),
    decreases b.len(),
{
    if b.len() == 0 {
        assert(a + b =~= a);
        assert(dependency_tree_text(lock, b) == Seq::<char>::empty());
        assert(dependency_tree_text(lock, a) + Seq::<char>::empty() =~= dependency_tree_text(lock, a));
    } else {
        law_tree_of_concatenated_requirements(lock, a, b.drop_last());
        assert((a + b).drop_last() =~= a + b.drop_last());
        assert((a + b).last() == b.last());
        let w = crate::graph::walk(lock, normalized(crate::names::requirement_name(b.last())), crate::names::requirement_extras(b.last()), seq![]);
        lemma_tree_text_concat(walk_requirements(lock, a + b.drop_last()), w);
        lemma_tree_text_concat(walk_requirements(lock, b.drop_last()), w);
    }
}

/// The normalised names of the listed packages.
pub open spec fn pin_keys(pins: Seq<Pin>) -> Seq<Seq<char>> {
    pins.map_values(|p: Pin| normalized(p.0))
}

/// What the listed packages of a collection satisfy: their names are distinct, and
/// each one's package node is seen afterwards and was not seen before.
pub open spec fn listed_fresh(pins: Seq<Pin>, before: Set<Node>, after: Set<Node>) -> bool {
    &&& pin_keys(pins).no_duplicates()
    &&& forall|i: int|
        0 <= i < pins.len() ==> after.contains((#[trigger] pin_keys(pins)[i], None::<Seq<char>>)) && !before.contains(
            (pin_keys(pins)[i], None::<Seq<char>>),
        )
}

/// Two runs of listed packages, the second made after the first, are listed fresh together.
pub proof fn lemma_listed_fresh_concat(a: Seq<Pin>, b: Seq<Pin>, s0: Set<Node>, s1: Set<Node>, s2: Set<Node>)
    requires
        listed_fresh(a, s0, s1),
        listed_fresh(b, s1, s2),
        s0.subset_of(s1),
        s1.subset_of(s2),
    ensures
        listed_fresh(a + b, s0, s2),
{
    assert(pin_keys(a + b) =~= pin_keys(a) + pin_keys(b));
    let k1 = pin_keys(a);
    let k2 = pin_keys(b);
    let ks = k1 + k2;
    assert forall|x: int, y: int| 0 <= x < y < ks.len() implies ks[x] != ks[y] by {
        if y >= k1.len() && x < k1.len() {
            assert(ks[x] == k1[x]);
            assert(ks[y] == k2[y - k1.len()]);
            assert(s1.contains((k1[x], None::<Seq<char>>)));
        } else if x >= k1.len() {
            assert(ks[x] == k2[x - k1.len()]);
            assert(ks[y] == k2[y - k1.len()]);
        } else {
            assert(ks[x] == k1[x]);
            assert(ks[y] == k1[y]);
        }
    }
    assert forall|i: int| 0 <= i < (a + b).len() implies s2.contains((#[trigger] pin_keys(a + b)[i], None::<Seq<char>>))
        && !s0.contains((pin_keys(a + b)[i], None::<Seq<char>>)) by {
        if i < k1.len() {
            assert(ks[i] == k1[i]);
        } else {
            assert(ks[i] == k2[i - k1.len()]);
        }
    }
}

/// What collecting from a name lists: packages whose nodes were not seen before
/// and are seen after, no two under the same normalised name; and nothing seen
/// is forgotten.
pub proof fn lemma_collect_fresh(lock: LockMap, name: Seq<char>, extras: Seq<Seq<char>>, seen: Set<Node>)
    requires
        lock.wf(),
    ensures
        seen.subset_of(collect(lock, name, extras, seen).0),
        listed_fresh(collect(lock, name, extras, seen).1, seen, collect(lock, name, extras, seen).0),
    decreases unseen(lock, seen), 0nat,
{
    assert(pin_keys(seq![]) =~= Seq::<Seq<char>>::empty());
    if let Some(i) = lookup(lock.keys(), name) {
        let pkg = lock.packages()[i];
        let base_new = !seen.contains((name, None::<Seq<char>>));
        let xs = fresh_extras(pkg, name, extras, seen);
        if base_new || xs.len() > 0 {
            lemma_collect_step(lock, name, extras, seen);
            lemma_lookup(lock.keys(), name);
            lock.lemma_wf();
            let seen1 = seen.insert((name, None::<Seq<char>>)).union(marks(name, xs));
            let edges = (if base_new {
                edges_of(base_deps(pkg))
            } else {
                seq![]
            }) + extra_edges(groups_of(pkg), xs);
            lemma_collect_edges_fresh(lock, edges, seen1);
            let r = collect_edges(lock, edges, seen1);
            let head: Seq<Pin> = if base_new {
                seq![(pkg.name@, pkg.version@)]
            } else {
                seq![]
            };
            assert(collect(lock, name, extras, seen) == (r.0, head + r.1));
            assert(listed_fresh(head, seen, seen1)) by {
                if base_new {
                    assert(pin_keys(head) =~= seq![name]);
                }
            }
            lemma_listed_fresh_concat(head, r.1, seen, seen1, r.0);
        }
    }
}

/// The same, for collecting along a list of edges.
pub proof fn lemma_collect_edges_fresh(lock: LockMap, edges: Seq<Edge>, seen: Set<Node>)
    requires
        lock.wf(),
    ensures
        seen.subset_of(collect_edges(lock, edges, seen).0),
        listed_fresh(collect_edges(lock, edges, seen).1, seen, collect_edges(lock, edges, seen).0),
    decreases unseen(lock, seen), edges.len() + 1,
{
    if edges.len() == 0 {
        assert(pin_keys(seq![]) =~= Seq::<Seq<char>>::empty());
    } else {
        lemma_collect_edges_fresh(lock, edges.drop_last(), seen);
        let r1 = collect_edges(lock, edges.drop_last(), seen);
        let s1 = seen.union(r1.0);
        assert(s1 =~= r1.0);
        lemma_unseen_mono(lock, seen, s1);
        lemma_collect_fresh(lock, normalized(edges.last().0), edges.last().1, s1);
        let r2 = collect(lock, normalized(edges.last().0), edges.last().1, s1);
        lemma_listed_fresh_concat(r1.1, r2.1, seen, s1, r2.0);
    }
}

/// Collecting from requirements in turn lists only packages not seen before, once each.
pub proof fn lemma_collect_requirements_fresh(lock: LockMap, reqs: Seq<Seq<char>>, seen: Set<Node>)
    requires
        lock.wf(),
    ensures
        seen.subset_of(collect_requirements(lock, reqs, seen).0),
        listed_fresh(collect_requirements(lock, reqs, seen).1, seen, collect_requirements(lock, reqs, seen).0),
    decreases reqs.len(),
{
    if reqs.len() == 0 {
        assert(pin_keys(seq![]) =~= Seq::<Seq<char>>::empty());
    } else {
        lemma_collect_requirements_fresh(lock, reqs.drop_last(), seen);
        let r1 = collect_requirements(lock, reqs.drop_last(), seen);
        let name = normalized(crate::names::requirement_name(reqs.last()));
        let extras = crate::names::requirement_extras(reqs.last());
        lemma_collect_fresh(lock, name, extras, r1.0);
        let r2 = collect(lock, name, extras, r1.0);
        lemma_listed_fresh_concat(r1.1, r2.1, seen, r1.0, r2.0);
    }
}

/// The scan queries each package once: no two scanned packages share a
/// normalised name.
pub proof fn law_scanned_packages_are_distinct(lock: LockMap, reqs: Seq<Seq<char>>)
    requires
        lock.wf(),
    ensures
        pin_keys(collect_requirements(lock, reqs, Set::empty()).1).no_duplicates(),
{
    lemma_collect_requirements_fresh(lock, reqs, Set::empty());
}

/// A scan reports each vulnerable package once.
pub proof fn law_reports_are_distinct(result: ScanResult)
    requires
        result.wf(),
    ensures
        report_views(result.vulnerabilities@).map_values(|x: ReportSpec| x.package).no_duplicates(),
{
}

/// The ids that a package's advice counts as unfixable are among its ids, so
/// there are no more of them than ids.
pub proof fn lemma_unfixable_bounded(ids: Seq<Seq<char>>, details: StringMap<OsvVulnDetail>)
    ensures
        fix_summary(ids, details).2.len() <= ids.len(),
    decreases ids.len(),
{
    if ids.len() > 0 {
        lemma_unfixable_bounded(ids.drop_last(), details);
    }
}

/// Advice built for any package can be printed.
pub proof fn law_advice_is_printable(
    name: Seq<char>,
    ancestors: Seq<Seq<char>>,
    ids: Seq<Seq<char>>,
    lock: LockMap,
    details: StringMap<OsvVulnDetail>,
)
    ensures
        printable(suggestion_for(name, ancestors, ids, lock, details)),
{
    lemma_unfixable_bounded(ids, details);
}

/// `triple_gt` is a strict order: it is transitive.
pub proof fn lemma_triple_gt_transitive(x: (u64, u64, u64), y: (u64, u64, u64), z: (u64, u64, u64))
    requires
        triple_gt(x, y),
        triple_gt(y, z),
    ensures
        triple_gt(x, z),
{
}

/// The fix version of a package's advice is not older than any fix version that
/// one of its records names, and is one of them.
pub proof fn law_fix_version_is_latest(ids: Seq<Seq<char>>, details: StringMap<OsvVulnDetail>)
    ensures
        ({
            let s = fix_summary(ids, details);
            &&& forall|i: int|
                0 <= i < ids.len() && details.get(ids[i]) is Some && fix_version_of(details.get(ids[i])->0)
                    is Some ==> s.0 is Some && !triple_gt(
                    version_triple(fix_version_of(details.get(#[trigger] ids[i])->0)->0),
                    version_triple(s.0->0),
                )
            &&& s.0 matches Some(v) ==> exists|i: int|
                0 <= i < ids.len() && details.get(#[trigger] ids[i]) is Some && fix_version_of(details.get(ids[i])->0)
                    == Some(v)
        }),
    decreases ids.len(),
{
    if ids.len() > 0 {
        let t = ids.drop_last();
        law_fix_version_is_latest(t, details);
        let r = fix_summary(t, details);
        let s = fix_summary(ids, details);
        assert forall|i: int|
            0 <= i < ids.len() && details.get(ids[i]) is Some && fix_version_of(details.get(ids[i])->0)
                is Some implies s.0 is Some && !triple_gt(
                version_triple(fix_version_of(details.get(#[trigger] ids[i])->0)->0),
                version_triple(s.0->0),
            ) by {
            if i < ids.len() - 1 {
                assert(ids[i] == t[i]);
                if s.0 != r.0 {
                    let v = fix_version_of(details.get(ids.last())->0)->0;
                    if triple_gt(version_triple(fix_version_of(details.get(ids[i])->0)->0), version_triple(s.0->0)) {
                        lemma_triple_gt_transitive(
                            version_triple(fix_version_of(details.get(ids[i])->0)->0),
                            version_triple(s.0->0),
                            version_triple(r.0->0),
                        );
                    }
                }
            }
        }
        if s.0 is Some {
            if s.0 == r.0 {
                let i = choose|i: int|
                    0 <= i < t.len() && details.get(#[trigger] t[i]) is Some && fix_version_of(details.get(t[i])->0)
                        == r.0;
                assert(ids[i] == t[i]);
            } else {
                assert(ids[ids.len() - 1] == ids.last());
            }
        }
    }
}

/// The package under `n`, if the lock file has one, has its node in `t`, and so
/// has each extra of `xs` that it defines.
pub open spec fn covered(lock: LockMap, t: Set<Node>, n: Seq<char>, xs: Seq<Seq<char>>) -> bool {
    match lookup(lock.keys(), n) {
        Some(i) => t.contains((n, None::<Seq<char>>)) && forall|x: Seq<char>|
            #[trigger] xs.contains(x) && has_group(lock.packages()[i], x) ==> t.contains((n, Some(x))),
        None => true,
    }
}

/// Every edge of the list is covered by `t`.
pub open spec fn edges_covered(lock: LockMap, t: Set<Node>, es: Seq<Edge>) -> bool {
    forall|k: int| 0 <= k < es.len() ==> covered(lock, t, normalized((#[trigger] es[k]).0), es[k].1)
}

/// The edges out of node `e` are covered by `t`: those of the package itself, or
/// those that its extra adds.
pub open spec fn node_closed(lock: LockMap, t: Set<Node>, e: Node) -> bool {
    match lookup(lock.keys(), e.0) {
        Some(i) => match e.1 {
            None => edges_covered(lock, t, edges_of(base_deps(lock.packages()[i]))),
            Some(g) => edges_covered(lock, t, edges_of(group_deps(groups_of(lock.packages()[i]), g))),
        },
        None => true,
    }
}

/// The package under `n`, if the lock file has one, is among the listed packages.
pub open spec fn listed_if_found(lock: LockMap, n: Seq<char>, pins: Seq<Pin>) -> bool {
    match lookup(lock.keys(), n) {
        Some(i) => pins.contains((lock.packages()[i].name@, lock.packages()[i].version@)),
        None => true,
    }
}

/// What collecting adds to `seen` to reach `t` is closed, and each package whose
/// node it adds is listed.
pub open spec fn closed_beyond(lock: LockMap, seen: Set<Node>, t: Set<Node>, pins: Seq<Pin>) -> bool {
    forall|e: Node|
        #[trigger] t.contains(e) && !seen.contains(e) ==> node_closed(lock, t, e) && (e.1 is None ==> listed_if_found(
            lock,
            e.0,
            pins,
        ))
}

/// Coverage holds of every larger set, and being listed of every longer list.
pub proof fn lemma_covered_grows(lock: LockMap, t: Set<Node>, u: Set<Node>)
    requires
        t.subset_of(u),
    ensures
        forall|n: Seq<char>, xs: Seq<Seq<char>>| #[trigger] covered(lock, t, n, xs) ==> covered(lock, u, n, xs),
        forall|es: Seq<Edge>| #[trigger] edges_covered(lock, t, es) ==> edges_covered(lock, u, es),
        forall|e: Node| #[trigger] node_closed(lock, t, e) ==> node_closed(lock, u, e),
{
}

/// Being listed holds of every longer list.
pub proof fn lemma_listed_grows(lock: LockMap, n: Seq<char>, a: Seq<Pin>, b: Seq<Pin>)
    ensures
        listed_if_found(lock, n, a) ==> listed_if_found(lock, n, a + b) && listed_if_found(lock, n, b + a),
{
    if let Some(i) = lookup(lock.keys(), n) {
        let p = (lock.packages()[i].name@, lock.packages()[i].version@);
        if a.contains(p) {
            let k = choose|k: int| 0 <= k < a.len() && a[k] == p;
            assert((a + b)[k] == p);
            assert((b + a)[b.len() + k] == p);
        }
    }
}

/// Two covered runs of edges make a covered run.
pub proof fn lemma_edges_covered_concat(lock: LockMap, t: Set<Node>, a: Seq<Edge>, b: Seq<Edge>)
    ensures
        edges_covered(lock, t, a + b) <==> edges_covered(lock, t, a) && edges_covered(lock, t, b),
{
    if edges_covered(lock, t, a + b) {
        assert forall|k: int| 0 <= k < a.len() implies covered(lock, t, normalized((#[trigger] a[k]).0), a[k].1) by {
            assert((a + b)[k] == a[k]);
        }
        assert forall|k: int| 0 <= k < b.len() implies covered(lock, t, normalized((#[trigger] b[k]).0), b[k].1) by {
            assert((a + b)[a.len() + k] == b[k]);
        }
    }
    if edges_covered(lock, t, a) && edges_covered(lock, t, b) {
        assert forall|k: int| 0 <= k < (a + b).len() implies covered(
            lock,
            t,
            normalized((#[trigger] (a + b)[k]).0),
            (a + b)[k].1,
        ) by {
            if k < a.len() {
                assert((a + b)[k] == a[k]);
            } else {
                assert((a + b)[k] == b[k - a.len()]);
            }
        }
    }
}

/// The edges that the extras `xs` of a package add are covered when each extra
/// that the package defines has a closed node.
pub proof fn lemma_extra_edges_covered(lock: LockMap, t: Set<Node>, n: Seq<char>, i: int, xs: Seq<Seq<char>>)
    requires
        lookup(lock.keys(), n) == Some(i),
        forall|x: Seq<char>| #[trigger] xs.contains(x) && has_group(lock.packages()[i], x) ==> node_closed(lock, t, (n, Some(x))),
    ensures
        edges_covered(lock, t, extra_edges(groups_of(lock.packages()[i]), xs)),
    decreases xs.len(),
{
    if xs.len() > 0 {
        let gs = groups_of(lock.packages()[i]);
        let ys = xs.drop_last();
        assert forall|x: Seq<char>| #[trigger] ys.contains(x) && has_group(lock.packages()[i], x) implies node_closed(
            lock,
            t,
            (n, Some(x)),
        ) by {
            let k = choose|k: int| 0 <= k < ys.len() && ys[k] == x;
            assert(xs[k] == x);
            assert(xs.contains(x));
        }
        lemma_extra_edges_covered(lock, t, n, i, ys);
        let x = xs.last();
        assert(xs[xs.len() - 1] == x);
        assert(xs.contains(x));
        assert(extra_edges(gs, xs) == extra_edges(gs, ys) + edges_of(group_deps(gs, x)));
        if !has_group(lock.packages()[i], x) {
            assert(group_deps(gs, x) == Seq::<crate::lock::LockedDep>::empty());
            assert(edges_of(group_deps(gs, x)) =~= Seq::<Edge>::empty());
        }
        lemma_edges_covered_concat(lock, t, extra_edges(gs, ys), edges_of(group_deps(gs, x)));
    }
}

/// The edges of each extra of `xs` are covered when those of all of `xs` are.
pub proof fn lemma_extra_edges_split(lock: LockMap, t: Set<Node>, gs: Seq<(String, Vec<crate::lock::LockedDep>)>, xs: Seq<Seq<char>>, x: Seq<char>)
    requires
        edges_covered(lock, t, extra_edges(gs, xs)),
        xs.contains(x),
    ensures
        edges_covered(lock, t, edges_of(group_deps(gs, x))),
    decreases xs.len(),
{
    let ys = xs.drop_last();
    lemma_edges_covered_concat(lock, t, extra_edges(gs, ys), edges_of(group_deps(gs, xs.last())));
    if xs.last() != x {
        let k = choose|k: int| 0 <= k < xs.len() && xs[k] == x;
        assert(ys[k] == x);
        lemma_extra_edges_split(lock, t, gs, ys, x);
    }
}

/// Collecting from a name covers it, forgets nothing, and closes every node it adds.
pub proof fn lemma_collect_covers(lock: LockMap, name: Seq<char>, extras: Seq<Seq<char>>, seen: Set<Node>)
    requires
        lock.wf(),
    ensures
        seen.subset_of(collect(lock, name, extras, seen).0),
        covered(lock, collect(lock, name, extras, seen).0, name, extras),
        closed_beyond(lock, seen, collect(lock, name, extras, seen).0, collect(lock, name, extras, seen).1),
    decreases unseen(lock, seen), 0nat,
{
    if let Some(i) = lookup(lock.keys(), name) {
        let pkg = lock.packages()[i];
        let base_new = !seen.contains((name, None::<Seq<char>>));
        let xs = fresh_extras(pkg, name, extras, seen);
        lemma_fresh_extras(pkg, name, extras, seen);
        if base_new || xs.len() > 0 {
            lemma_collect_step(lock, name, extras, seen);
            lemma_lookup(lock.keys(), name);
            lock.lemma_wf();
            let seen1 = seen.insert((name, None::<Seq<char>>)).union(marks(name, xs));
            let base: Seq<Edge> = if base_new {
                edges_of(base_deps(pkg))
            } else {
                seq![]
            };
            let ext = extra_edges(groups_of(pkg), xs);
            let edges = base + ext;
            lemma_collect_edges_covers(lock, edges, seen1);
            let r = collect_edges(lock, edges, seen1);
            let head: Seq<Pin> = if base_new {
                seq![(pkg.name@, pkg.version@)]
            } else {
                seq![]
            };
            let pins = head + r.1;
            assert(collect(lock, name, extras, seen) == (r.0, pins));
            lemma_edges_covered_concat(lock, r.0, base, ext);
            assert forall|x: Seq<char>| #[trigger] extras.contains(x) && has_group(pkg, x) implies r.0.contains(
                (name, Some(x)),
            ) by {
                if !seen.contains((name, Some(x))) {
                    assert(xs.contains(x));
                    assert(marks(name, xs).contains((name, Some(x))));
                }
            }
            assert forall|e: Node| #[trigger] r.0.contains(e) && !seen.contains(e) implies node_closed(lock, r.0, e) && (
            e.1 is None ==> listed_if_found(lock, e.0, pins)) by {
                if seen1.contains(e) {
                    if e == (name, None::<Seq<char>>) {
                        assert(pins[0] == (pkg.name@, pkg.version@));
                    } else {
                        assert(marks(name, xs).contains(e));
                        let x = e.1->0;
                        lemma_extra_edges_split(lock, r.0, groups_of(pkg), xs, x);
                    }
                } else {
                    lemma_listed_grows(lock, e.0, r.1, head);
                }
            }
        } else {
            assert forall|x: Seq<char>| #[trigger] extras.contains(x) && has_group(pkg, x) implies seen.contains(
                (name, Some(x)),
            ) by {
                if !seen.contains((name, Some(x))) {
                    assert(xs.contains(x));
                }
            }
        }
    }
}

/// The same, for collecting along a list of edges: every edge is covered.
pub proof fn lemma_collect_edges_covers(lock: LockMap, edges: Seq<Edge>, seen: Set<Node>)
    requires
        lock.wf(),
    ensures
        seen.subset_of(collect_edges(lock, edges, seen).0),
        edges_covered(lock, collect_edges(lock, edges, seen).0, edges),
        closed_beyond(lock, seen, collect_edges(lock, edges, seen).0, collect_edges(lock, edges, seen).1),
    decreases unseen(lock, seen), edges.len() + 1,
{
    if edges.len() > 0 {
        let t = edges.drop_last();
        lemma_collect_edges_covers(lock, t, seen);
        let r1 = collect_edges(lock, t, seen);
        let s1 = seen.union(r1.0);
        assert(s1 =~= r1.0);
        lemma_unseen_mono(lock, seen, s1);
        let last = edges.last();
        lemma_collect_covers(lock, normalized(last.0), last.1, s1);
        let r2 = collect(lock, normalized(last.0), last.1, s1);
        assert(collect_edges(lock, edges, seen) == (r2.0, r1.1 + r2.1));
        lemma_covered_grows(lock, r1.0, r2.0);
        assert(edges =~= t + seq![last]);
        assert(edges_covered(lock, r2.0, seq![last])) by {
            assert(seq![last][0] == last);
        }
        lemma_edges_covered_concat(lock, r2.0, t, seq![last]);
        assert forall|e: Node| #[trigger] r2.0.contains(e) && !seen.contains(e) implies node_closed(lock, r2.0, e) && (
        e.1 is None ==> listed_if_found(lock, e.0, r1.1 + r2.1)) by {
            if s1.contains(e) {
                lemma_listed_grows(lock, e.0, r1.1, r2.1);
            } else {
                lemma_listed_grows(lock, e.0, r2.1, r1.1);
            }
        }
    }
}

/// The same, for collecting from the requirements in turn: each requirement is covered.
pub proof fn lemma_collect_requirements_covers(lock: LockMap, reqs: Seq<Seq<char>>, seen: Set<Node>)
    requires
        lock.wf(),
    ensures
        seen.subset_of(collect_requirements(lock, reqs, seen).0),
        forall|k: int|
            0 <= k < reqs.len() ==> covered(
                lock,
                collect_requirements(lock, reqs, seen).0,
                normalized(crate::names::requirement_name(#[trigger] reqs[k])),
                crate::names::requirement_extras(reqs[k]),
            ),
        closed_beyond(lock, seen, collect_requirements(lock, reqs, seen).0, collect_requirements(lock, reqs, seen).1),
    decreases reqs.len(),
{
    if reqs.len() > 0 {
        let t = reqs.drop_last();
        lemma_collect_requirements_covers(lock, t, seen);
        let r1 = collect_requirements(lock, t, seen);
        let name = normalized(crate::names::requirement_name(reqs.last()));
        let extras = crate::names::requirement_extras(reqs.last());
        lemma_collect_covers(lock, name, extras, r1.0);
        let r2 = collect(lock, name, extras, r1.0);
        assert(collect_requirements(lock, reqs, seen) == (r2.0, r1.1 + r2.1));
        lemma_covered_grows(lock, r1.0, r2.0);
        assert forall|k: int| 0 <= k < reqs.len() implies covered(
            lock,
            r2.0,
            normalized(crate::names::requirement_name(#[trigger] reqs[k])),
            crate::names::requirement_extras(reqs[k]),
        ) by {
            if k < reqs.len() - 1 {
                assert(reqs[k] == t[k]);
            }
        }
        assert forall|e: Node| #[trigger] r2.0.contains(e) && !seen.contains(e) implies node_closed(lock, r2.0, e) && (
        e.1 is None ==> listed_if_found(lock, e.0, r1.1 + r2.1)) by {
            if r1.0.contains(e) {
                lemma_listed_grows(lock, e.0, r1.1, r2.1);
            } else {
                lemma_listed_grows(lock, e.0, r2.1, r1.1);
            }
        }
    }
}

/// Every node of a closed set has its edges covered by it.
pub open spec fn all_closed(lock: LockMap, t: Set<Node>) -> bool {
    forall|e: Node| #[trigger] t.contains(e) ==> node_closed(lock, t, e)
}

/// A walk that starts covered by a closed set stays covered, and each package it
/// finds is the one the lock file holds under the node's name.
pub proof fn lemma_walk_within(lock: LockMap, name: Seq<char>, extras: Seq<Seq<char>>, path: Seq<Seq<char>>, t: Set<Node>)
    requires
        lock.wf(),
        covered(lock, t, name, extras),
        all_closed(lock, t),
    ensures
        forall|k: int|
            0 <= k < walk(lock, name, extras, path).len() ==> covered(
                lock,
                t,
                (#[trigger] walk(lock, name, extras, path)[k]).name,
                walk(lock, name, extras, path)[k].extras,
            ) && (walk(lock, name, extras, path)[k].kind matches VisitKind::Found(pkg) ==> lookup(
                lock.keys(),
                walk(lock, name, extras, path)[k].name,
            ) is Some && pkg == lock.packages()[lookup(lock.keys(), walk(lock, name, extras, path)[k].name)->0]),
    decreases unvisited(lock, path), 0nat,
{
    if !path.contains(name) {
        if let Some(i) = lookup(lock.keys(), name) {
            lemma_unvisited_push(lock, path, name);
            let pkg = lock.packages()[i];
            let edges = deps_of(pkg, extras);
            assert(node_closed(lock, t, (name, None::<Seq<char>>)));
            lemma_extra_edges_covered(lock, t, name, i, extras);
            lemma_edges_covered_concat(lock, t, edges_of(base_deps(pkg)), extra_edges(groups_of(pkg), extras));
            lemma_walk_edges_within(lock, edges, path.push(name), t);
            let v = crate::graph::Visit { name, extras, path, kind: VisitKind::Found(pkg) };
            let we = walk_edges(lock, edges, path.push(name));
            let vs = walk(lock, name, extras, path);
            assert(vs == seq![v] + we);
            assert forall|k: int| 0 <= k < vs.len() implies covered(lock, t, (#[trigger] vs[k]).name, vs[k].extras) && (
            vs[k].kind matches VisitKind::Found(p) ==> lookup(lock.keys(), vs[k].name) is Some && p
                == lock.packages()[lookup(lock.keys(), vs[k].name)->0]) by {
                if k > 0 {
                    assert(vs[k] == we[k - 1]);
                }
            }
        }
    }
}

/// The same, for the walks along a list of covered edges.
pub proof fn lemma_walk_edges_within(lock: LockMap, edges: Seq<Edge>, path: Seq<Seq<char>>, t: Set<Node>)
    requires
        lock.wf(),
        edges_covered(lock, t, edges),
        all_closed(lock, t),
    ensures
        forall|k: int|
            0 <= k < walk_edges(lock, edges, path).len() ==> covered(
                lock,
                t,
                (#[trigger] walk_edges(lock, edges, path)[k]).name,
                walk_edges(lock, edges, path)[k].extras,
            ) && (walk_edges(lock, edges, path)[k].kind matches VisitKind::Found(pkg) ==> lookup(
                lock.keys(),
                walk_edges(lock, edges, path)[k].name,
            ) is Some && pkg == lock.packages()[lookup(lock.keys(), walk_edges(lock, edges, path)[k].name)->0]),
    decreases unvisited(lock, path), edges.len() + 1,
{
    if edges.len() > 0 {
        let e = edges.drop_last();
        assert(edges =~= e + seq![edges.last()]);
        lemma_edges_covered_concat(lock, t, e, seq![edges.last()]);
        assert(seq![edges.last()][0] == edges.last());
        lemma_walk_edges_within(lock, e, path, t);
        lemma_walk_within(lock, normalized(edges.last().0), edges.last().1, path, t);
        let a = walk_edges(lock, e, path);
        let b = walk(lock, normalized(edges.last().0), edges.last().1, path);
        let vs = walk_edges(lock, edges, path);
        assert(vs == a + b);
        assert forall|k: int| 0 <= k < vs.len() implies covered(lock, t, (#[trigger] vs[k]).name, vs[k].extras) && (
        vs[k].kind matches VisitKind::Found(p) ==> lookup(lock.keys(), vs[k].name) is Some && p
            == lock.packages()[lookup(lock.keys(), vs[k].name)->0]) by {
            if k < a.len() {
                assert(vs[k] == a[k]);
            } else {
                assert(vs[k] == b[k - a.len()]);
            }
        }
    }
}

/// The same, for the walks from the requirements, each covered.
pub proof fn lemma_walk_requirements_within(lock: LockMap, reqs: Seq<Seq<char>>, t: Set<Node>)
    requires
        lock.wf(),
        forall|k: int|
            0 <= k < reqs.len() ==> covered(
                lock,
                t,
                normalized(crate::names::requirement_name(#[trigger] reqs[k])),
                crate::names::requirement_extras(reqs[k]),
            ),
        all_closed(lock, t),
    ensures
        forall|k: int|
            0 <= k < walk_requirements(lock, reqs).len() ==> covered(
                lock,
                t,
                (#[trigger] walk_requirements(lock, reqs)[k]).name,
                walk_requirements(lock, reqs)[k].extras,
            ) && (walk_requirements(lock, reqs)[k].kind matches VisitKind::Found(pkg) ==> lookup(
                lock.keys(),
                walk_requirements(lock, reqs)[k].name,
            ) is Some && pkg == lock.packages()[lookup(lock.keys(), walk_requirements(lock, reqs)[k].name)->0]),
    decreases reqs.len(),
{
    if reqs.len() > 0 {
        let r = reqs.drop_last();
        assert forall|k: int| 0 <= k < r.len() implies covered(
            lock,
            t,
            normalized(crate::names::requirement_name(#[trigger] r[k])),
            crate::names::requirement_extras(r[k]),
        ) by {
            assert(r[k] == reqs[k]);
        }
        lemma_walk_requirements_within(lock, r, t);
        assert(reqs[reqs.len() - 1] == reqs.last());
        let name = normalized(crate::names::requirement_name(reqs.last()));
        let extras = crate::names::requirement_extras(reqs.last());
        lemma_walk_within(lock, name, extras, seq![], t);
        let a = walk_requirements(lock, r);
        let b = walk(lock, name, extras, seq![]);
        let vs = walk_requirements(lock, reqs);
        assert(vs == a + b);
        assert forall|k: int| 0 <= k < vs.len() implies covered(lock, t, (#[trigger] vs[k]).name, vs[k].extras) && (
        vs[k].kind matches VisitKind::Found(p) ==> lookup(lock.keys(), vs[k].name) is Some && p
            == lock.packages()[lookup(lock.keys(), vs[k].name)->0]) by {
            if k < a.len() {
                assert(vs[k] == a[k]);
            } else {
                assert(vs[k] == b[k - a.len()]);
            }
        }
    }
}

/// The package a node of a walk finds, as the scan lists it.
pub open spec fn pin_of(v: Visit) -> Option<Pin> {
    match v.kind {
        VisitKind::Found(pkg) => Some((pkg.name@, pkg.version@)),
        _ => None,
    }
}

/// Every package that the dependency tree shows is scanned: the scan follows the
/// dependencies that each requested extra adds, also when a package is required
/// again with an extra after it was first met without it.
pub proof fn law_every_package_in_the_tree_is_scanned(lock: LockMap, reqs: Seq<Seq<char>>)
    requires
        lock.wf(),
    ensures
        forall|k: int|
            0 <= k < walk_requirements(lock, reqs).len() && pin_of(#[trigger] walk_requirements(lock, reqs)[k]) is Some
                ==> collect_requirements(lock, reqs, Set::empty()).1.contains(
                pin_of(walk_requirements(lock, reqs)[k])->0,
            ),
{
    lemma_collect_requirements_covers(lock, reqs, Set::empty());
    let r = collect_requirements(lock, reqs, Set::empty());
    assert forall|e: Node| #[trigger] r.0.contains(e) implies node_closed(lock, r.0, e) by {
        assert(!Set::<Node>::empty().contains(e));
    }
    lemma_walk_requirements_within(lock, reqs, r.0);
    let vs = walk_requirements(lock, reqs);
    assert forall|k: int| 0 <= k < vs.len() && pin_of(#[trigger] vs[k]) is Some implies r.1.contains(
        pin_of(vs[k])->0,
    ) by {
        let n = vs[k].name;
        assert(covered(lock, r.0, n, vs[k].extras));
        assert(r.0.contains((n, None::<Seq<char>>)));
        assert(!Set::<Node>::empty().contains((n, None::<Seq<char>>)));
        assert(listed_if_found(lock, n, r.1));
    }
}

/// The name that the `j`-th edge out of the package under `from` leads to, when
/// that package is required with `xs`.
pub open spec fn edge_target(lock: LockMap, from: Seq<char>, xs: Seq<Seq<char>>, j: int) -> Option<Seq<char>> {
    match lookup(lock.keys(), from) {
        Some(i) => if 0 <= j < deps_of(lock.packages()[i], xs).len() {
            Some(normalized(deps_of(lock.packages()[i], xs)[j].0))
        } else {
            None
        },
        None => None,
    }
}

/// The package under `from` depends on `to`, with some requested extras.
pub open spec fn has_edge(lock: LockMap, from: Seq<char>, to: Seq<char>) -> bool {
    exists|xs: Seq<Seq<char>>, j: int| #[trigger] edge_target(lock, from, xs, j) == Some(to)
}

/// Each name of the sequence depends on the next.
pub open spec fn is_chain(lock: LockMap, names: Seq<Seq<char>>) -> bool {
    forall|k: int| 0 <= k < names.len() - 1 ==> has_edge(lock, #[trigger] names[k], names[k + 1])
}

/// Extending a chain by an edge out of its last name gives a chain.
pub proof fn lemma_chain_push(lock: LockMap, names: Seq<Seq<char>>, to: Seq<char>)
    requires
        names.len() > 0,
        is_chain(lock, names),
        has_edge(lock, names.last(), to),
    ensures
        is_chain(lock, names.push(to)),
{
    let t = names.push(to);
    assert forall|k: int| 0 <= k < t.len() - 1 implies has_edge(lock, #[trigger] t[k], t[k + 1]) by {
        assert(t[k] == names[k]);
        if k < names.len() - 1 {
            assert(t[k + 1] == names[k + 1]);
        }
    }
}

/// In a completed scan, the path kept for each reported package, from which its
/// advice is built, is the path that its report shows.
pub proof fn law_kept_paths_match_reports(result: ScanResult)
    requires
        result.wf(),
    ensures
        forall|i: int|
            0 <= i < result.vulnerabilities.len() ==> (result.ancestors_map.get(
                (#[trigger] result.vulnerabilities@[i]).package@,
            ) matches Some(a) && a.deep_view() == result.vulnerabilities@[i].ancestors.deep_view()),
{
    lemma_kept_paths(result);
}

/// A record that names no fix version but a last affected one.
pub open spec fn only_last_affected(details: StringMap<OsvVulnDetail>, id: Seq<char>) -> bool {
    &&& details.get(id) is Some
    &&& fix_version_of(details.get(id)->0) is None
    &&& last_affected_of(details.get(id)->0) is Some
}

/// The last affected version of a package's advice is not older than that of any
/// of its records that names no fix version but a last affected one, and is one
/// of them.
pub proof fn law_last_affected_is_latest(ids: Seq<Seq<char>>, details: StringMap<OsvVulnDetail>)
    ensures
        ({
            let s = fix_summary(ids, details);
            &&& forall|i: int|
                0 <= i < ids.len() && only_last_affected(details, #[trigger] ids[i]) ==> s.1 is Some && !triple_gt(
                    version_triple(last_affected_of(details.get(ids[i])->0)->0),
                    version_triple(s.1->0),
                )
            &&& s.1 matches Some(v) ==> exists|i: int|
                0 <= i < ids.len() && only_last_affected(details, #[trigger] ids[i]) && last_affected_of(
                    details.get(ids[i])->0,
                ) == Some(v)
        }),
    decreases ids.len(),
{
    if ids.len() > 0 {
        let t = ids.drop_last();
        law_last_affected_is_latest(t, details);
        let r = fix_summary(t, details);
        let s = fix_summary(ids, details);
        assert forall|i: int| 0 <= i < ids.len() && only_last_affected(details, #[trigger] ids[i]) implies s.1 is Some
            && !triple_gt(version_triple(last_affected_of(details.get(ids[i])->0)->0), version_triple(s.1->0)) by {
            if i < ids.len() - 1 {
                assert(ids[i] == t[i]);
                if s.1 != r.1 {
                    if triple_gt(version_triple(last_affected_of(details.get(ids[i])->0)->0), version_triple(s.1->0)) {
                        lemma_triple_gt_transitive(
                            version_triple(last_affected_of(details.get(ids[i])->0)->0),
                            version_triple(s.1->0),
                            version_triple(r.1->0),
                        );
                    }
                }
            }
        }
        if s.1 is Some {
            if s.1 == r.1 {
                let i = choose|i: int|
                    0 <= i < t.len() && only_last_affected(details, #[trigger] t[i]) && last_affected_of(
                        details.get(t[i])->0,
                    ) == r.1;
                assert(ids[i] == t[i]);
            } else {
                assert(ids[ids.len() - 1] == ids.last());
            }
        }
    }
}

/// `bytes_le` is antisymmetric.
pub proof fn lemma_bytes_le_antisymmetric(a: Seq<u8>, b: Seq<u8>)
    requires
        bytes_le(a, b),
        bytes_le(b, a),
    ensures
        a == b,
    decreases a.len(),
{
    if a.len() > 0 {
        lemma_bytes_le_antisymmetric(a.drop_first(), b.drop_first());
        assert(a =~= seq![a[0]] + a.drop_first());
        assert(b =~= seq![b[0]] + b.drop_first());
    } else {
        assert(b.len() == 0);
        assert(a =~= b);
    }
}

/// The order of strings is antisymmetric: UTF-8 encodes distinct strings differently.
pub proof fn lemma_str_le_antisymmetric(a: Seq<char>, b: Seq<char>)
    requires
        str_le(a, b),
        str_le(b, a),
    ensures
        a == b,
{
    lemma_bytes_le_antisymmetric(vstd::utf8::encode_utf8(a), vstd::utf8::encode_utf8(b));
    vstd::utf8::encode_utf8_decode_utf8(a);
    vstd::utf8::encode_utf8_decode_utf8(b);
}

/// Two sorted lists of strings without repeats that hold the same strings are equal.
pub proof fn lemma_sorted_strings_unique(s1: Seq<Seq<char>>, s2: Seq<Seq<char>>)
    requires
        sorted_strings(s1),
        sorted_strings(s2),
        s1.no_duplicates(),
        s2.no_duplicates(),
        forall|x: Seq<char>| #[trigger] s1.contains(x) <==> s2.contains(x),
    ensures
        s1 == s2,
    decreases s1.len(),
{
    if s1.len() == 0 {
        if s2.len() > 0 {
            assert(s2.contains(s2[0]));
            assert(s1.contains(s2[0]));
        }
        assert(s1 =~= s2);
    } else {
        assert(s1.contains(s1[0]));
        assert(s2.len() > 0);
        assert(s2.contains(s2[0]));
        let x1 = s1[0];
        let x2 = s2[0];
        assert(s1.contains(x2));
        assert(s2.contains(x1));
        let j = choose|j: int| 0 <= j < s2.len() && s2[j] == x1;
        let i = choose|i: int| 0 <= i < s1.len() && s1[i] == x2;
        if i > 0 && j > 0 {
            assert(str_le(s1[0], s1[i]));
            assert(str_le(s2[0], s2[j]));
            lemma_str_le_antisymmetric(x1, x2);
        }
        assert(x1 == x2);
        let t1 = s1.drop_first();
        let t2 = s2.drop_first();
        assert forall|a: int, b: int| 0 <= a < b < t1.len() implies str_le(#[trigger] t1[a], #[trigger] t1[b]) by {
            assert(t1[a] == s1[a + 1] && t1[b] == s1[b + 1]);
        }
        assert forall|a: int, b: int| 0 <= a < b < t2.len() implies str_le(#[trigger] t2[a], #[trigger] t2[b]) by {
            assert(t2[a] == s2[a + 1] && t2[b] == s2[b + 1]);
        }
        assert forall|a: int, b: int| 0 <= a < t1.len() && 0 <= b < t1.len() && a != b implies t1[a] != t1[b] by {
            assert(t1[a] == s1[a + 1] && t1[b] == s1[b + 1]);
        }
        assert forall|a: int, b: int| 0 <= a < t2.len() && 0 <= b < t2.len() && a != b implies t2[a] != t2[b] by {
            assert(t2[a] == s2[a + 1] && t2[b] == s2[b + 1]);
        }
        assert forall|x: Seq<char>| #[trigger] t1.contains(x) <==> t2.contains(x) by {
            if t1.contains(x) {
                let k = choose|k: int| 0 <= k < t1.len() && t1[k] == x;
                assert(s1[k + 1] == x);
                assert(s1.contains(x));
                let m = choose|m: int| 0 <= m < s2.len() && s2[m] == x;
                if m == 0 {
                    assert(s1[0] == s1[k + 1]);
                }
                assert(t2[m - 1] == x);
            }
            if t2.contains(x) {
                let k = choose|k: int| 0 <= k < t2.len() && t2[k] == x;
                assert(s2[k + 1] == x);
                assert(s2.contains(x));
                assert(s1.contains(x));
                let m = choose|m: int| 0 <= m < s1.len() && s1[m] == x;
                if m == 0 {
                    assert(s2[0] == s2[k + 1]);
                }
                assert(t1[m - 1] == x);
            }
        }
        lemma_sorted_strings_unique(t1, t2);
        assert(s1 =~= seq![x1] + t1);
        assert(s2 =~= seq![x2] + t2);
    }
}

/// The advice for a scan is determined by the scan: two lists that are both its
/// advice hold the same pieces, so calling `fix_suggestions_from_scan` twice on one
/// result gives equal advice.
pub proof fn law_advice_is_determined(result: ScanResult, a: Seq<FixSuggestion>, b: Seq<FixSuggestion>)
    requires
        advice_for(result, a),
        advice_for(result, b),
    ensures
        fix_views(a) == fix_views(b),
{
    let na = advice_names(a);
    let nb = advice_names(b);
    assert forall|x: Seq<char>| #[trigger] na.contains(x) <==> nb.contains(x) by {}
    lemma_sorted_strings_unique(na, nb);
    assert forall|i: int| 0 <= i < a.len() implies #[trigger] fix_views(a)[i] == fix_views(b)[i] by {
        assert(na[i] == nb[i]);
        assert(fix_view(a[i]) == suggestion_for(
            a[i].package@,
            result.ancestors_map.get(a[i].package@)->0.deep_view(),
            ids_of(result.vuln_ids, a[i].package@),
            result.lock_map,
            result.detail_map,
        ));
        assert(fix_view(b[i]) == suggestion_for(
            b[i].package@,
            result.ancestors_map.get(b[i].package@)->0.deep_view(),
            ids_of(result.vuln_ids, b[i].package@),
            result.lock_map,
            result.detail_map,
        ));
    }
    assert(fix_views(a) =~= fix_views(b));
}

/// Some node of `vs` finds the package `p`.
pub open spec fn found_in(vs: Seq<Visit>, p: Pin) -> bool {
    exists|k: int| 0 <= k < vs.len() && pin_of(#[trigger] vs[k]) == Some(p)
}

/// Finding a package in a walk holds of every run of nodes that contains it.
pub proof fn lemma_found_in_concat(a: Seq<Visit>, b: Seq<Visit>, p: Pin)
    ensures
        found_in(a, p) ==> found_in(a + b, p),
        found_in(b, p) ==> found_in(a + b, p),
{
    if found_in(a, p) {
        let k = choose|k: int| 0 <= k < a.len() && pin_of(#[trigger] a[k]) == Some(p);
        assert((a + b)[k] == a[k]);
    }
    if found_in(b, p) {
        let k = choose|k: int| 0 <= k < b.len() && pin_of(#[trigger] b[k]) == Some(p);
        assert((a + b)[a.len() + k] == b[k]);
    }
}

/// No extra of any package of the lock file adds an edge.
pub open spec fn extras_add_no_edges(lock: LockMap) -> bool {
    forall|i: int, xs: Seq<Seq<char>>|
        0 <= i < lock.packages().len() ==> #[trigger] extra_edges(groups_of(lock.packages()[i]), xs)
            == Seq::<Edge>::empty()
}

/// Without edges from extras, each package that collecting from a name lists is
/// found by the walk from the name along a path whose package nodes are all seen.
pub proof fn lemma_collect_in_walk(lock: LockMap, name: Seq<char>, extras: Seq<Seq<char>>, seen: Set<Node>, path: Seq<Seq<char>>)
    requires
        lock.wf(),
        extras_add_no_edges(lock),
        forall|j: int| 0 <= j < path.len() ==> seen.contains((#[trigger] path[j], None::<Seq<char>>)),
    ensures
        forall|m: int|
            0 <= m < collect(lock, name, extras, seen).1.len() ==> found_in(
                walk(lock, name, extras, path),
                #[trigger] collect(lock, name, extras, seen).1[m],
            ),
    decreases unseen(lock, seen), 0nat,
{
    if let Some(i) = lookup(lock.keys(), name) {
        let pkg = lock.packages()[i];
        let base_new = !seen.contains((name, None::<Seq<char>>));
        let xs = fresh_extras(pkg, name, extras, seen);
        if base_new || xs.len() > 0 {
            lemma_collect_step(lock, name, extras, seen);
            lemma_lookup(lock.keys(), name);
            lock.lemma_wf();
            let seen1 = seen.insert((name, None::<Seq<char>>)).union(marks(name, xs));
            assert(extra_edges(groups_of(pkg), xs) == Seq::<Edge>::empty());
            assert(extra_edges(groups_of(pkg), extras) == Seq::<Edge>::empty());
            if base_new {
                if path.contains(name) {
                    let j = choose|j: int| 0 <= j < path.len() && path[j] == name;
                    assert(seen.contains((path[j], None::<Seq<char>>)));
                }
                let edges = edges_of(base_deps(pkg));
                assert(edges + extra_edges(groups_of(pkg), xs) =~= edges);
                assert(deps_of(pkg, extras) =~= edges);
                let path1 = path.push(name);
                assert forall|j: int| 0 <= j < path1.len() implies seen1.contains((#[trigger] path1[j], None::<Seq<char>>)) by {
                    if j < path.len() {
                        assert(path1[j] == path[j]);
                    }
                }
                lemma_collect_edges_in_walk(lock, edges, seen1, path1);
                let r = collect_edges(lock, edges, seen1);
                let pins = seq![(pkg.name@, pkg.version@)] + r.1;
                let v = Visit { name, extras, path, kind: VisitKind::Found(pkg) };
                let we = walk_edges(lock, edges, path1);
                let vs = walk(lock, name, extras, path);
                assert(vs == seq![v] + we);
                assert(collect(lock, name, extras, seen).1 == pins);
                assert forall|m: int| 0 <= m < pins.len() implies found_in(vs, #[trigger] pins[m]) by {
                    if m == 0 {
                        assert(pin_of(vs[0]) == Some(pins[0]));
                    } else {
                        assert(pins[m] == r.1[m - 1]);
                        lemma_found_in_concat(seq![v], we, pins[m]);
                    }
                }
            } else {
                let edges = Seq::<Edge>::empty() + extra_edges(groups_of(pkg), xs);
                assert(edges =~= Seq::<Edge>::empty());
                assert(collect(lock, name, extras, seen).1 =~= Seq::<Pin>::empty());
            }
        }
    }
}

/// The same, for collecting and walking along a list of edges.
pub proof fn lemma_collect_edges_in_walk(lock: LockMap, edges: Seq<Edge>, seen: Set<Node>, path: Seq<Seq<char>>)
    requires
        lock.wf(),
        extras_add_no_edges(lock),
        forall|j: int| 0 <= j < path.len() ==> seen.contains((#[trigger] path[j], None::<Seq<char>>)),
    ensures
        forall|m: int|
            0 <= m < collect_edges(lock, edges, seen).1.len() ==> found_in(
                walk_edges(lock, edges, path),
                #[trigger] collect_edges(lock, edges, seen).1[m],
            ),
    decreases unseen(lock, seen), edges.len() + 1,
{
    if edges.len() > 0 {
        let t = edges.drop_last();
        lemma_collect_edges_in_walk(lock, t, seen, path);
        let r1 = collect_edges(lock, t, seen);
        let s1 = seen.union(r1.0);
        lemma_unseen_mono(lock, seen, s1);
        lemma_collect_in_walk(lock, normalized(edges.last().0), edges.last().1, s1, path);
        let r2 = collect(lock, normalized(edges.last().0), edges.last().1, s1);
        let a = walk_edges(lock, t, path);
        let b = walk(lock, normalized(edges.last().0), edges.last().1, path);
        assert(walk_edges(lock, edges, path) == a + b);
        let pins = r1.1 + r2.1;
        assert(collect_edges(lock, edges, seen).1 == pins);
        assert forall|m: int| 0 <= m < pins.len() implies found_in(a + b, #[trigger] pins[m]) by {
            if m < r1.1.len() {
                assert(pins[m] == r1.1[m]);
            } else {
                assert(pins[m] == r2.1[m - r1.1.len()]);
            }
            lemma_found_in_concat(a, b, pins[m]);
        }
    }
}

/// Every package the scan queries is one that the dependency tree shows, when no
/// extra adds an edge. (With extras, a package required again with a new extra
/// while it is on its own path is entered by the scan, which follows the extra,
/// but shown as a cycle by the tree.)
pub proof fn law_every_scanned_package_is_in_the_tree(lock: LockMap, reqs: Seq<Seq<char>>)
    requires
        lock.wf(),
        extras_add_no_edges(lock),
    ensures
        forall|m: int|
            0 <= m < collect_requirements(lock, reqs, Set::empty()).1.len() ==> found_in(
                walk_requirements(lock, reqs),
                #[trigger] collect_requirements(lock, reqs, Set::empty()).1[m],
            ),
    decreases reqs.len(),
{
    if reqs.len() > 0 {
        let t = reqs.drop_last();
        law_every_scanned_package_is_in_the_tree(lock, t);
        let r1 = collect_requirements(lock, t, Set::empty());
        let name = normalized(crate::names::requirement_name(reqs.last()));
        let extras = crate::names::requirement_extras(reqs.last());
        lemma_collect_in_walk(lock, name, extras, r1.0, seq![]);
        let r2 = collect(lock, name, extras, r1.0);
        let a = walk_requirements(lock, t);
        let b = walk(lock, name, extras, seq![]);
        assert(walk_requirements(lock, reqs) == a + b);
        let pins = r1.1 + r2.1;
        assert(collect_requirements(lock, reqs, Set::empty()).1 == pins);
        assert forall|m: int| 0 <= m < pins.len() implies found_in(a + b, #[trigger] pins[m]) by {
            if m < r1.1.len() {
                assert(pins[m] == r1.1[m]);
            } else {
                assert(pins[m] == r2.1[m - r1.1.len()]);
            }
            lemma_found_in_concat(a, b, pins[m]);
        }
    }
}


/// The report walk sees the nodes that the query walk sees.
pub proof fn lemma_audit_visit_seen(
    lock: LockMap,
    name: Seq<char>,
    extras: Seq<Seq<char>>,
    path: Seq<Seq<char>>,
    seen: Set<Node>,
    reported: Set<Seq<char>>,
    roots: Seq<Seq<char>>,
    vuln_ids: StringMap<Vec<String>>,
    details: StringMap<OsvVulnDetail>,
)
    ensures
        audit_visit(lock, name, extras, path, seen, reported, roots, vuln_ids, details).0 == collect(lock, name, extras, seen).0,
        reported.subset_of(audit_visit(lock, name, extras, path, seen, reported, roots, vuln_ids, details).1),
        may_report(name, path, vuln_ids, roots) ==> audit_visit(lock, name, extras, path, seen, reported, roots, vuln_ids, details).1.contains(name),
    decreases unseen(lock, seen), 0nat,
{
    if let Some(i) = lookup(lock.keys(), name) {
        let pkg = lock.packages()[i];
        let base_new = !seen.contains((name, None::<Seq<char>>));
        let xs = fresh_extras(pkg, name, extras, seen);
        if base_new || xs.len() > 0 {
            lemma_collect_step(lock, name, extras, seen);
            let now = may_report(name, path, vuln_ids, roots) && !reported.contains(name);
            let rep1 = if now { reported.insert(name) } else { reported };
            let seen1 = seen.insert((name, None::<Seq<char>>)).union(marks(name, xs));
            let edges = (if base_new {
                edges_of(base_deps(pkg))
            } else {
                seq![]
            }) + extra_edges(groups_of(pkg), xs);
            lemma_audit_edges_seen(lock, edges, enter(path, name), seen1, rep1, roots, vuln_ids, details);
        }
    }
}

/// The same, for the visits along a list of edges.
pub proof fn lemma_audit_edges_seen(
    lock: LockMap,
    edges: Seq<Edge>,
    path: Seq<Seq<char>>,
    seen: Set<Node>,
    reported: Set<Seq<char>>,
    roots: Seq<Seq<char>>,
    vuln_ids: StringMap<Vec<String>>,
    details: StringMap<OsvVulnDetail>,
)
    ensures
        audit_edges(lock, edges, path, seen, reported, roots, vuln_ids, details).0 == collect_edges(lock, edges, seen).0,
        reported.subset_of(audit_edges(lock, edges, path, seen, reported, roots, vuln_ids, details).1),
    decreases unseen(lock, seen), edges.len() + 1,
{
    if edges.len() > 0 {
        lemma_audit_edges_seen(lock, edges.drop_last(), path, seen, reported, roots, vuln_ids, details);
        let r1 = audit_edges(lock, edges.drop_last(), path, seen, reported, roots, vuln_ids, details);
        let s1 = seen.union(r1.0);
        lemma_unseen_mono(lock, seen, s1);
        lemma_audit_visit_seen(lock, normalized(edges.last().0), edges.last().1, path, s1, r1.1, roots, vuln_ids, details);
    }
}

/// The same, for the visits from the requirements.
pub proof fn lemma_audit_requirements_seen(
    lock: LockMap,
    reqs: Seq<Seq<char>>,
    seen: Set<Node>,
    reported: Set<Seq<char>>,
    roots: Seq<Seq<char>>,
    vuln_ids: StringMap<Vec<String>>,
    details: StringMap<OsvVulnDetail>,
)
    ensures
        audit_requirements(lock, reqs, seen, reported, roots, vuln_ids, details).0 == collect_requirements(lock, reqs, seen).0,
        reported.subset_of(audit_requirements(lock, reqs, seen, reported, roots, vuln_ids, details).1),
    decreases reqs.len(),
{
    if reqs.len() > 0 {
        lemma_audit_requirements_seen(lock, reqs.drop_last(), seen, reported, roots, vuln_ids, details);
        let r1 = audit_requirements(lock, reqs.drop_last(), seen, reported, roots, vuln_ids, details);
        lemma_audit_visit_seen(
            lock,
            normalized(requirement_name(reqs.last())),
            requirement_extras(reqs.last()),
            seq![],
            r1.0,
            r1.1,
            roots,
            vuln_ids,
            details,
        );
    }
}

/// The packages reported afterwards are those reported before and those of the
/// new reports.
pub open spec fn reported_after(before: Set<Seq<char>>, after: Set<Seq<char>>, reports: Seq<ReportSpec>) -> bool {
    forall|n: Seq<char>| #[trigger] after.contains(n) <==> (before.contains(n) || exists|k: int|
        0 <= k < reports.len() && #[trigger] reports[k].package == n)
}

/// Reporting through two runs in turn.
pub proof fn lemma_reported_after_concat(
    s0: Set<Seq<char>>,
    s1: Set<Seq<char>>,
    s2: Set<Seq<char>>,
    a: Seq<ReportSpec>,
    b: Seq<ReportSpec>,
)
    requires
        reported_after(s0, s1, a),
        reported_after(s1, s2, b),
    ensures
        reported_after(s0, s2, a + b),
{
    assert forall|n: Seq<char>| #[trigger] s2.contains(n) <==> (s0.contains(n) || exists|k: int|
        0 <= k < (a + b).len() && #[trigger] (a + b)[k].package == n) by {
        if exists|k: int| 0 <= k < a.len() && #[trigger] a[k].package == n {
            let k = choose|k: int| 0 <= k < a.len() && #[trigger] a[k].package == n;
            assert((a + b)[k] == a[k]);
        }
        if exists|k: int| 0 <= k < b.len() && #[trigger] b[k].package == n {
            let k = choose|k: int| 0 <= k < b.len() && #[trigger] b[k].package == n;
            assert((a + b)[a.len() + k] == b[k]);
        }
        if exists|k: int| 0 <= k < (a + b).len() && #[trigger] (a + b)[k].package == n {
            let k = choose|k: int| 0 <= k < (a + b).len() && #[trigger] (a + b)[k].package == n;
            if k < a.len() {
                assert(a[k] == (a + b)[k]);
            } else {
                assert(b[k - a.len()] == (a + b)[k]);
            }
        }
    }
}

/// What the report walk adds: the packages it reports; each package whose node it
/// newly enters and that has listed vulnerabilities is reported, unless a
/// requirement names it; and each reported package that the lock file has has its
/// node seen.
pub open spec fn visit_reports(
    lock: LockMap,
    seen: Set<Node>,
    r: (Set<Node>, Set<Seq<char>>, Seq<ReportSpec>),
    reported: Set<Seq<char>>,
    roots: Seq<Seq<char>>,
    vuln_ids: StringMap<Vec<String>>,
) -> bool {
    &&& reported_after(reported, r.1, r.2)
    &&& forall|n: Seq<char>|
        #[trigger] r.0.contains((n, None::<Seq<char>>)) && !seen.contains((n, None::<Seq<char>>)) && vuln_ids.get(n) is Some
            ==> r.1.contains(n) || roots.contains(n)
    &&& forall|k: int|
        0 <= k < r.2.len() && lookup(lock.keys(), (#[trigger] r.2[k]).package) is Some ==> r.0.contains(
            (r.2[k].package, None::<Seq<char>>),
        )
}

/// What a visit reports.
pub proof fn lemma_visit_reports(
    lock: LockMap,
    name: Seq<char>,
    extras: Seq<Seq<char>>,
    path: Seq<Seq<char>>,
    seen: Set<Node>,
    reported: Set<Seq<char>>,
    roots: Seq<Seq<char>>,
    vuln_ids: StringMap<Vec<String>>,
    details: StringMap<OsvVulnDetail>,
)
    requires
        lock.wf(),
    ensures
        visit_reports(
            lock,
            seen,
            audit_visit(lock, name, extras, path, seen, reported, roots, vuln_ids, details),
            reported,
            roots,
            vuln_ids,
        ),
        lookup(lock.keys(), name) is Some ==> audit_visit(lock, name, extras, path, seen, reported, roots, vuln_ids, details).0.contains(
            (name, None::<Seq<char>>),
        ),
    decreases unseen(lock, seen), 0nat,
{
    let now = may_report(name, path, vuln_ids, roots) && !reported.contains(name);
    let rep1 = if now { reported.insert(name) } else { reported };
    let out1: Seq<ReportSpec> = if now {
        seq![report_of(name, path, lock, vuln_ids, details)]
    } else {
        seq![]
    };
    assert(reported_after(reported, rep1, out1)) by {
        if now {
            assert(out1[0].package == name);
        }
    }
    let r = audit_visit(lock, name, extras, path, seen, reported, roots, vuln_ids, details);
    match lookup(lock.keys(), name) {
        None => {},
        Some(i) => {
            let pkg = lock.packages()[i];
            let base_new = !seen.contains((name, None::<Seq<char>>));
            let xs = fresh_extras(pkg, name, extras, seen);
            if base_new || xs.len() > 0 {
                lemma_collect_step(lock, name, extras, seen);
                let seen1 = seen.insert((name, None::<Seq<char>>)).union(marks(name, xs));
                let edges = (if base_new {
                    edges_of(base_deps(pkg))
                } else {
                    seq![]
                }) + extra_edges(groups_of(pkg), xs);
                let p1 = enter(path, name);
                lemma_edges_reports(lock, edges, p1, seen1, rep1, roots, vuln_ids, details);
                lemma_audit_edges_seen(lock, edges, p1, seen1, rep1, roots, vuln_ids, details);
                lemma_collect_edges_fresh(lock, edges, seen1);
                let re = audit_edges(lock, edges, p1, seen1, rep1, roots, vuln_ids, details);
                assert(r == (re.0, re.1, out1 + re.2));
                lemma_reported_after_concat(reported, rep1, re.1, out1, re.2);
                assert forall|n: Seq<char>| #[trigger] r.0.contains((n, None::<Seq<char>>)) && !seen.contains(
                    (n, None::<Seq<char>>),
                ) && vuln_ids.get(n) is Some implies r.1.contains(n) || roots.contains(n) by {
                    if seen1.contains((n, None::<Seq<char>>)) {
                        assert(n == name);
                        assert(rep1.contains(n) || roots.contains(n));
                    }
                }
                assert forall|k: int| 0 <= k < r.2.len() && lookup(lock.keys(), (#[trigger] r.2[k]).package) is Some implies r.0.contains(
                    (r.2[k].package, None::<Seq<char>>),
                ) by {
                    if k < out1.len() {
                        assert(r.2[k] == out1[k]);
                    } else {
                        assert(r.2[k] == re.2[k - out1.len()]);
                    }
                }
            } else {
                assert(r == (seen, rep1, out1));
            }
        },
    }
}

/// The same, for the visits along a list of edges.
pub proof fn lemma_edges_reports(
    lock: LockMap,
    edges: Seq<Edge>,
    path: Seq<Seq<char>>,
    seen: Set<Node>,
    reported: Set<Seq<char>>,
    roots: Seq<Seq<char>>,
    vuln_ids: StringMap<Vec<String>>,
    details: StringMap<OsvVulnDetail>,
)
    requires
        lock.wf(),
    ensures
        visit_reports(lock, seen, audit_edges(lock, edges, path, seen, reported, roots, vuln_ids, details), reported, roots, vuln_ids),
    decreases unseen(lock, seen), edges.len() + 1,
{
    if edges.len() == 0 {
        assert(reported_after(reported, reported, Seq::<ReportSpec>::empty()));
    } else {
        lemma_edges_reports(lock, edges.drop_last(), path, seen, reported, roots, vuln_ids, details);
        let r1 = audit_edges(lock, edges.drop_last(), path, seen, reported, roots, vuln_ids, details);
        lemma_audit_edges_seen(lock, edges.drop_last(), path, seen, reported, roots, vuln_ids, details);
        lemma_collect_edges_fresh(lock, edges.drop_last(), seen);
        let s1 = seen.union(r1.0);
        assert(s1 =~= r1.0);
        lemma_unseen_mono(lock, seen, s1);
        let child = normalized(edges.last().0);
        lemma_visit_reports(lock, child, edges.last().1, path, s1, r1.1, roots, vuln_ids, details);
        lemma_audit_visit_seen(lock, child, edges.last().1, path, s1, r1.1, roots, vuln_ids, details);
        lemma_collect_fresh(lock, child, edges.last().1, s1);
        let r2 = audit_visit(lock, child, edges.last().1, path, s1, r1.1, roots, vuln_ids, details);
        let r = audit_edges(lock, edges, path, seen, reported, roots, vuln_ids, details);
        assert(r == (r2.0, r2.1, r1.2 + r2.2));
        lemma_reported_after_concat(reported, r1.1, r2.1, r1.2, r2.2);
        assert forall|n: Seq<char>| #[trigger] r.0.contains((n, None::<Seq<char>>)) && !seen.contains((n, None::<Seq<char>>))
            && vuln_ids.get(n) is Some implies r.1.contains(n) || roots.contains(n) by {
            if s1.contains((n, None::<Seq<char>>)) {
                assert(r1.1.contains(n) || roots.contains(n));
            }
        }
        assert forall|k: int| 0 <= k < r.2.len() && lookup(lock.keys(), (#[trigger] r.2[k]).package) is Some implies r.0.contains(
            (r.2[k].package, None::<Seq<char>>),
        ) by {
            if k < r1.2.len() {
                assert(r.2[k] == r1.2[k]);
            } else {
                assert(r.2[k] == r2.2[k - r1.2.len()]);
            }
        }
    }
}

/// The same, for the visits from the requirements; and each requirement's package
/// with listed vulnerabilities is reported.
pub proof fn lemma_requirements_reports(
    lock: LockMap,
    reqs: Seq<Seq<char>>,
    seen: Set<Node>,
    reported: Set<Seq<char>>,
    roots: Seq<Seq<char>>,
    vuln_ids: StringMap<Vec<String>>,
    details: StringMap<OsvVulnDetail>,
)
    requires
        lock.wf(),
    ensures
        visit_reports(lock, seen, audit_requirements(lock, reqs, seen, reported, roots, vuln_ids, details), reported, roots, vuln_ids),
        forall|j: int|
            0 <= j < reqs.len() && vuln_ids.get(#[trigger] root_names(reqs)[j]) is Some ==> audit_requirements(
                lock,
                reqs,
                seen,
                reported,
                roots,
                vuln_ids,
                details,
            ).1.contains(root_names(reqs)[j]),
    decreases reqs.len(),
{
    if reqs.len() == 0 {
        assert(reported_after(reported, reported, Seq::<ReportSpec>::empty()));
    } else {
        let t = reqs.drop_last();
        lemma_requirements_reports(lock, t, seen, reported, roots, vuln_ids, details);
        let r1 = audit_requirements(lock, t, seen, reported, roots, vuln_ids, details);
        lemma_audit_requirements_seen(lock, t, seen, reported, roots, vuln_ids, details);
        lemma_collect_requirements_fresh(lock, t, seen);
        let name = normalized(requirement_name(reqs.last()));
        let extras = requirement_extras(reqs.last());
        lemma_visit_reports(lock, name, extras, seq![], r1.0, r1.1, roots, vuln_ids, details);
        lemma_audit_visit_seen(lock, name, extras, seq![], r1.0, r1.1, roots, vuln_ids, details);
        lemma_collect_fresh(lock, name, extras, r1.0);
        let r2 = audit_visit(lock, name, extras, seq![], r1.0, r1.1, roots, vuln_ids, details);
        let r = audit_requirements(lock, reqs, seen, reported, roots, vuln_ids, details);
        assert(r == (r2.0, r2.1, r1.2 + r2.2));
        lemma_reported_after_concat(reported, r1.1, r2.1, r1.2, r2.2);
        assert forall|n: Seq<char>| #[trigger] r.0.contains((n, None::<Seq<char>>)) && !seen.contains((n, None::<Seq<char>>))
            && vuln_ids.get(n) is Some implies r.1.contains(n) || roots.contains(n) by {
            if r1.0.contains((n, None::<Seq<char>>)) {
                assert(r1.1.contains(n) || roots.contains(n));
            }
        }
        assert forall|k: int| 0 <= k < r.2.len() && lookup(lock.keys(), (#[trigger] r.2[k]).package) is Some implies r.0.contains(
            (r.2[k].package, None::<Seq<char>>),
        ) by {
            if k < r1.2.len() {
                assert(r.2[k] == r1.2[k]);
            } else {
                assert(r.2[k] == r2.2[k - r1.2.len()]);
            }
        }
        assert forall|j: int| 0 <= j < reqs.len() && vuln_ids.get(#[trigger] root_names(reqs)[j]) is Some implies r.1.contains(
            root_names(reqs)[j],
        ) by {
            if j < t.len() {
                assert(root_names(reqs)[j] == root_names(t)[j]);
                assert(r1.1.contains(root_names(t)[j]));
            } else {
                assert(root_names(reqs)[j] == name);
                assert(may_report(name, seq![], vuln_ids, roots));
            }
        }
    }
}

/// Every package that the walk from the requirements queries and that has listed
/// vulnerabilities in `vuln_ids` is reported; and every reported package that the
/// lock file has was queried.
pub proof fn lemma_queried_and_reported_agree(
    lock: LockMap,
    reqs: Seq<Seq<char>>,
    vuln_ids: StringMap<Vec<String>>,
    details: StringMap<OsvVulnDetail>,
)
    requires
        lock.wf(),
    ensures
        forall|n: Seq<char>|
            #[trigger] pin_keys(collect_requirements(lock, reqs, Set::empty()).1).contains(n) && vuln_ids.get(n) is Some
                ==> exists|k: int|
                0 <= k < scan_audit(lock, reqs, vuln_ids, details).2.len() && #[trigger] scan_audit(
                    lock,
                    reqs,
                    vuln_ids,
                    details,
                ).2[k].package == n,
        forall|k: int|
            0 <= k < scan_audit(lock, reqs, vuln_ids, details).2.len() && lookup(
                lock.keys(),
                (#[trigger] scan_audit(lock, reqs, vuln_ids, details).2[k]).package,
            ) is Some ==> pin_keys(collect_requirements(lock, reqs, Set::empty()).1).contains(
                scan_audit(lock, reqs, vuln_ids, details).2[k].package,
            ),
{
    let roots = root_names(reqs);
    let empty_nodes = Set::<Node>::empty();
    let empty_names = Set::<Seq<char>>::empty();
    lemma_requirements_reports(lock, reqs, empty_nodes, empty_names, roots, vuln_ids, details);
    lemma_audit_requirements_seen(lock, reqs, empty_nodes, empty_names, roots, vuln_ids, details);
    lemma_collect_requirements_fresh(lock, reqs, empty_nodes);
    lemma_collect_requirements_covers(lock, reqs, empty_nodes);
    let a = scan_audit(lock, reqs, vuln_ids, details);
    let c = collect_requirements(lock, reqs, empty_nodes);
    let keys = pin_keys(c.1);
    assert forall|n: Seq<char>| #[trigger] keys.contains(n) && vuln_ids.get(n) is Some implies exists|k: int|
        0 <= k < a.2.len() && #[trigger] a.2[k].package == n by {
        let m = choose|m: int| 0 <= m < keys.len() && keys[m] == n;
        assert(c.0.contains((keys[m], None::<Seq<char>>)));
        assert(!empty_nodes.contains((n, None::<Seq<char>>)));
        assert(a.0.contains((n, None::<Seq<char>>)));
        if roots.contains(n) {
            let j = choose|j: int| 0 <= j < roots.len() && roots[j] == n;
            assert(vuln_ids.get(root_names(reqs)[j]) is Some);
        }
        assert(a.1.contains(n));
        assert(!empty_names.contains(n));
    }
    assert forall|k: int| 0 <= k < a.2.len() && lookup(lock.keys(), (#[trigger] a.2[k]).package) is Some implies keys.contains(
        a.2[k].package,
    ) by {
        let n = a.2[k].package;
        assert(c.0.contains((n, None::<Seq<char>>)));
        assert(!empty_nodes.contains((n, None::<Seq<char>>)));
        assert(listed_if_found(lock, n, c.1));
        let i = lookup(lock.keys(), n)->0;
        lemma_lookup(lock.keys(), n);
        lock.lemma_wf();
        let p = (lock.packages()[i].name@, lock.packages()[i].version@);
        let m = choose|m: int| 0 <= m < c.1.len() && c.1[m] == p;
        assert(keys[m] == normalized(lock.packages()[i].name@));
        assert(keys[m] == n);
    }
}

/// A package that a requirement names is reported as a direct dependency, with an
/// empty path, exactly when it has listed vulnerabilities; every other package is
/// reported with a non-empty path.
pub proof fn law_direct_dependencies_have_empty_paths(
    lock: LockMap,
    reqs: Seq<Seq<char>>,
    vuln_ids: StringMap<Vec<String>>,
    details: StringMap<OsvVulnDetail>,
)
    requires
        lock.wf(),
    ensures
        forall|i: int|
            0 <= i < scan_audit(lock, reqs, vuln_ids, details).2.len() ==> ((#[trigger] scan_audit(
                lock,
                reqs,
                vuln_ids,
                details,
            ).2[i]).ancestors.len() == 0 <==> root_names(reqs).contains(
                scan_audit(lock, reqs, vuln_ids, details).2[i].package,
            )),
        forall|j: int|
            0 <= j < reqs.len() && vuln_ids.get(#[trigger] root_names(reqs)[j]) is Some ==> exists|i: int|
                0 <= i < scan_audit(lock, reqs, vuln_ids, details).2.len() && scan_audit(lock, reqs, vuln_ids, details).2[i].package
                    == root_names(reqs)[j] && scan_audit(lock, reqs, vuln_ids, details).2[i].ancestors.len() == 0,
{
    let roots = root_names(reqs);
    lemma_requirements_placed(lock, reqs, Set::empty(), Set::empty(), roots, vuln_ids, details);
    lemma_requirements_reports(lock, reqs, Set::empty(), Set::empty(), roots, vuln_ids, details);
    let a = scan_audit(lock, reqs, vuln_ids, details);
    assert forall|j: int| 0 <= j < reqs.len() && vuln_ids.get(#[trigger] root_names(reqs)[j]) is Some implies exists|i: int|
        0 <= i < a.2.len() && a.2[i].package == root_names(reqs)[j] && a.2[i].ancestors.len() == 0 by {
        let n = root_names(reqs)[j];
        assert(a.1.contains(n));
        assert(!Set::<Seq<char>>::empty().contains(n));
        let i = choose|i: int| 0 <= i < a.2.len() && #[trigger] a.2[i].package == n;
        assert(roots.contains(n));
    }
}

/// The path below a visit, when the path has no repeats and, with the visited
/// name, is a chain: it has no repeats, is a chain, ends with the name, and starts
/// where the path with the name starts.
pub proof fn lemma_enter(lock: LockMap, path: Seq<Seq<char>>, name: Seq<char>)
    requires
        path.no_duplicates(),
        is_chain(lock, path.push(name)),
    ensures
        enter(path, name).no_duplicates(),
        is_chain(lock, enter(path, name)),
        enter(path, name).len() > 0,
        enter(path, name).last() == name,
        enter(path, name)[0] == path.push(name)[0],
{
    lemma_position_on(path, name);
    let k = position_on(path, name);
    let q = path.push(name);
    let p1 = enter(path, name);
    if k < path.len() {
        assert(p1 =~= q.take(k + 1));
        assert forall|m: int| 0 <= m < p1.len() - 1 implies has_edge(lock, #[trigger] p1[m], p1[m + 1]) by {
            assert(p1[m] == q[m] && p1[m + 1] == q[m + 1]);
        }
    } else {
        assert(!path.contains(name));
        assert forall|a: int, b: int| 0 <= a < p1.len() && 0 <= b < p1.len() && a != b implies p1[a] != p1[b] by {
            if b == path.len() {
                assert(path[a] == p1[a]);
            } else if a == path.len() {
                assert(path[b] == p1[b]);
            }
        }
    }
}

/// Each edge out of a visit leads from the visited package.
pub proof fn lemma_visit_edges(lock: LockMap, name: Seq<char>, i: int, base_new: bool, xs: Seq<Seq<char>>, edges: Seq<Edge>)
    requires
        lookup(lock.keys(), name) == Some(i),
        edges == (if base_new {
            edges_of(base_deps(lock.packages()[i]))
        } else {
            seq![]
        }) + extra_edges(groups_of(lock.packages()[i]), xs),
    ensures
        forall|m: int| 0 <= m < edges.len() ==> has_edge(lock, name, normalized((#[trigger] edges[m]).0)),
{
    let pkg = lock.packages()[i];
    let base = edges_of(base_deps(pkg));
    let head: Seq<Edge> = if base_new { base } else { seq![] };
    let ext = extra_edges(groups_of(pkg), xs);
    assert(edges == head + ext);
    assert(extra_edges(groups_of(pkg), Seq::<Seq<char>>::empty()) == Seq::<Edge>::empty());
    assert(deps_of(pkg, seq![]) =~= base);
    assert forall|m: int| 0 <= m < edges.len() implies has_edge(lock, name, normalized((#[trigger] edges[m]).0)) by {
        if m < head.len() {
            assert(edges[m] == base[m]);
            assert(edge_target(lock, name, seq![], m) == Some(normalized(edges[m].0)));
        } else {
            let j = base.len() + (m - head.len());
            assert(deps_of(pkg, xs)[j] == ext[m - head.len()]);
            assert(edges[m] == ext[m - head.len()]);
            assert(edge_target(lock, name, xs, j) == Some(normalized(edges[m].0)));
        }
    }
}

/// What holds of the paths of a visit's reports: each has no repeats and, with the
/// reported package, is a chain that starts at `first`.
pub open spec fn paths_are_chains(lock: LockMap, reports: Seq<ReportSpec>, first: Seq<char>) -> bool {
    forall|k: int|
        0 <= k < reports.len() ==> (#[trigger] reports[k]).ancestors.no_duplicates() && is_chain(
            lock,
            reports[k].ancestors.push(reports[k].package),
        ) && reports[k].ancestors.push(reports[k].package)[0] == first
}

/// The reports of a visit along a path that, with the name, is a chain.
pub proof fn lemma_visit_chains(
    lock: LockMap,
    name: Seq<char>,
    extras: Seq<Seq<char>>,
    path: Seq<Seq<char>>,
    seen: Set<Node>,
    reported: Set<Seq<char>>,
    roots: Seq<Seq<char>>,
    vuln_ids: StringMap<Vec<String>>,
    details: StringMap<OsvVulnDetail>,
)
    requires
        path.no_duplicates(),
        is_chain(lock, path.push(name)),
    ensures
        paths_are_chains(
            lock,
            audit_visit(lock, name, extras, path, seen, reported, roots, vuln_ids, details).2,
            path.push(name)[0],
        ),
    decreases unseen(lock, seen), 0nat,
{
    let now = may_report(name, path, vuln_ids, roots) && !reported.contains(name);
    let rep1 = if now { reported.insert(name) } else { reported };
    let out1: Seq<ReportSpec> = if now {
        seq![report_of(name, path, lock, vuln_ids, details)]
    } else {
        seq![]
    };
    assert(paths_are_chains(lock, out1, path.push(name)[0]));
    if let Some(i) = lookup(lock.keys(), name) {
        let pkg = lock.packages()[i];
        let base_new = !seen.contains((name, None::<Seq<char>>));
        let xs = fresh_extras(pkg, name, extras, seen);
        if base_new || xs.len() > 0 {
            lemma_collect_step(lock, name, extras, seen);
            let seen1 = seen.insert((name, None::<Seq<char>>)).union(marks(name, xs));
            let edges = (if base_new {
                edges_of(base_deps(pkg))
            } else {
                seq![]
            }) + extra_edges(groups_of(pkg), xs);
            let p1 = enter(path, name);
            lemma_enter(lock, path, name);
            lemma_visit_edges(lock, name, i, base_new, xs, edges);
            lemma_edges_chains(lock, edges, p1, seen1, rep1, roots, vuln_ids, details);
            let re = audit_edges(lock, edges, p1, seen1, rep1, roots, vuln_ids, details);
            let all = out1 + re.2;
            assert forall|k: int| 0 <= k < all.len() implies (#[trigger] all[k]).ancestors.no_duplicates() && is_chain(
                lock,
                all[k].ancestors.push(all[k].package),
            ) && all[k].ancestors.push(all[k].package)[0] == path.push(name)[0] by {
                if k < out1.len() {
                    assert(all[k] == out1[k]);
                } else {
                    assert(all[k] == re.2[k - out1.len()]);
                }
            }
        }
    }
}

/// The same, for the visits along edges that all leave the last name of a chain.
pub proof fn lemma_edges_chains(
    lock: LockMap,
    edges: Seq<Edge>,
    path: Seq<Seq<char>>,
    seen: Set<Node>,
    reported: Set<Seq<char>>,
    roots: Seq<Seq<char>>,
    vuln_ids: StringMap<Vec<String>>,
    details: StringMap<OsvVulnDetail>,
)
    requires
        path.len() > 0,
        path.no_duplicates(),
        is_chain(lock, path),
        forall|m: int| 0 <= m < edges.len() ==> has_edge(lock, path.last(), normalized((#[trigger] edges[m]).0)),
    ensures
        paths_are_chains(lock, audit_edges(lock, edges, path, seen, reported, roots, vuln_ids, details).2, path[0]),
    decreases unseen(lock, seen), edges.len() + 1,
{
    if edges.len() > 0 {
        let e = edges.drop_last();
        assert forall|m: int| 0 <= m < e.len() implies has_edge(lock, path.last(), normalized((#[trigger] e[m]).0)) by {
            assert(e[m] == edges[m]);
        }
        lemma_edges_chains(lock, e, path, seen, reported, roots, vuln_ids, details);
        let r1 = audit_edges(lock, e, path, seen, reported, roots, vuln_ids, details);
        let s1 = seen.union(r1.0);
        lemma_unseen_mono(lock, seen, s1);
        let child = normalized(edges.last().0);
        assert(has_edge(lock, path.last(), normalized(edges[edges.len() - 1].0)));
        lemma_chain_push(lock, path, child);
        assert(path.push(child)[0] == path[0]);
        lemma_visit_chains(lock, child, edges.last().1, path, s1, r1.1, roots, vuln_ids, details);
        let r2 = audit_visit(lock, child, edges.last().1, path, s1, r1.1, roots, vuln_ids, details);
        let all = r1.2 + r2.2;
        assert(audit_edges(lock, edges, path, seen, reported, roots, vuln_ids, details).2 == all);
        assert forall|k: int| 0 <= k < all.len() implies (#[trigger] all[k]).ancestors.no_duplicates() && is_chain(
            lock,
            all[k].ancestors.push(all[k].package),
        ) && all[k].ancestors.push(all[k].package)[0] == path[0] by {
            if k < r1.2.len() {
                assert(all[k] == r1.2[k]);
            } else {
                assert(all[k] == r2.2[k - r1.2.len()]);
            }
        }
    }
}

/// The path that a scan gives for a vulnerable package has no repeats and,
/// followed by the package, is a chain of dependencies of the lock file that
/// starts at the package of a requirement of `pyproject.toml`.
pub proof fn law_introduction_paths_are_dependency_chains(
    lock: LockMap,
    reqs: Seq<Seq<char>>,
    seen: Set<Node>,
    reported: Set<Seq<char>>,
    roots: Seq<Seq<char>>,
    vuln_ids: StringMap<Vec<String>>,
    details: StringMap<OsvVulnDetail>,
)
    ensures
        forall|k: int|
            0 <= k < audit_requirements(lock, reqs, seen, reported, roots, vuln_ids, details).2.len() ==> (
            #[trigger] audit_requirements(lock, reqs, seen, reported, roots, vuln_ids, details).2[k]).ancestors.no_duplicates()
                && is_chain(
                lock,
                audit_requirements(lock, reqs, seen, reported, roots, vuln_ids, details).2[k].ancestors.push(
                    audit_requirements(lock, reqs, seen, reported, roots, vuln_ids, details).2[k].package,
                ),
            ) && root_names(reqs).contains(
                audit_requirements(lock, reqs, seen, reported, roots, vuln_ids, details).2[k].ancestors.push(
                    audit_requirements(lock, reqs, seen, reported, roots, vuln_ids, details).2[k].package,
                )[0],
            ),
    decreases reqs.len(),
{
    if reqs.len() > 0 {
        let t = reqs.drop_last();
        law_introduction_paths_are_dependency_chains(lock, t, seen, reported, roots, vuln_ids, details);
        let r1 = audit_requirements(lock, t, seen, reported, roots, vuln_ids, details);
        let name = normalized(requirement_name(reqs.last()));
        let extras = requirement_extras(reqs.last());
        let empty = Seq::<Seq<char>>::empty();
        assert(is_chain(lock, empty.push(name)));
        assert(empty.no_duplicates());
        lemma_visit_chains(lock, name, extras, empty, r1.0, r1.1, roots, vuln_ids, details);
        let r2 = audit_visit(lock, name, extras, empty, r1.0, r1.1, roots, vuln_ids, details);
        let all = r1.2 + r2.2;
        assert(audit_requirements(lock, reqs, seen, reported, roots, vuln_ids, details).2 == all);
        assert(empty.push(name)[0] == name);
        assert(root_names(reqs)[reqs.len() - 1] == name);
        assert forall|k: int| 0 <= k < all.len() implies (#[trigger] all[k]).ancestors.no_duplicates() && is_chain(
            lock,
            all[k].ancestors.push(all[k].package),
        ) && root_names(reqs).contains(all[k].ancestors.push(all[k].package)[0]) by {
            if k < r1.2.len() {
                assert(all[k] == r1.2[k]);
                let first = all[k].ancestors.push(all[k].package)[0];
                let m = choose|m: int| 0 <= m < root_names(t).len() && root_names(t)[m] == first;
                assert(root_names(reqs)[m] == root_names(t)[m]);
            } else {
                assert(all[k] == r2.2[k - r1.2.len()]);
            }
        }
    }
}

/// The reports of a completed scan leave out every withdrawn vulnerability, and a
/// package whose listed vulnerabilities are all withdrawn is not reported.
pub proof fn law_withdrawn_vulnerabilities_are_not_reported(
    reqs: Seq<Seq<char>>,
    total: nat,
    lock: LockMap,
    vuln_ids: StringMap<Vec<String>>,
    details: StringMap<OsvVulnDetail>,
    r: ScanResult,
)
    requires
        scan_of(reqs, total, lock, vuln_ids, details, r),
    ensures
        forall|i: int, c: int|
            0 <= i < r.vulnerabilities.len() && 0 <= c < r.vulnerabilities@[i].cves.len() ==> !is_withdrawn(
                details,
                (#[trigger] r.vulnerabilities@[i].cves@[c]).id@,
            ),
        forall|i: int|
            0 <= i < r.vulnerabilities.len() ==> live_ids(ids_of(vuln_ids, (#[trigger] r.vulnerabilities@[i]).package@), details).len() > 0,
        forall|i: int|
            0 <= i < r.vulnerabilities.len() ==> ids_of(r.vuln_ids, (#[trigger] r.vulnerabilities@[i]).package@) == live_ids(
                ids_of(vuln_ids, r.vulnerabilities@[i].package@),
                details,
            ),
{
    let reps = report_views(r.vulnerabilities@);
    let a = scan_audit(lock, reqs, r.vuln_ids, details);
    lemma_requirements_placed(lock, reqs, Set::empty(), Set::empty(), root_names(reqs), r.vuln_ids, details);
    assert forall|i: int, c: int| 0 <= i < r.vulnerabilities.len() && 0 <= c < r.vulnerabilities@[i].cves.len() implies !is_withdrawn(
        details,
        (#[trigger] r.vulnerabilities@[i].cves@[c]).id@,
    ) by {
        assert(reps[i] == a.2[i]);
        let name = reps[i].package;
        let ids = ids_of(r.vuln_ids, name);
        assert(reps[i].cves == cves_of(name, r.vuln_ids, details));
        assert(reps[i].cves[c] == crate::audit::cve_view(r.vulnerabilities@[i].cves@[c]));
        assert(reps[i].cves[c].id == ids[c]);
        lemma_live_ids_live(ids_of(vuln_ids, name), details);
    }
    assert forall|i: int| 0 <= i < r.vulnerabilities.len() implies live_ids(
        ids_of(vuln_ids, (#[trigger] r.vulnerabilities@[i]).package@),
        details,
    ).len() > 0 by {
        assert(reps[i] == a.2[i]);
        assert(r.vuln_ids.get(a.2[i].package) is Some);
    }
}

/// No id that `live_ids` keeps is withdrawn.
pub proof fn lemma_live_ids_live(ids: Seq<Seq<char>>, details: StringMap<OsvVulnDetail>)
    ensures
        forall|k: int| 0 <= k < live_ids(ids, details).len() ==> !is_withdrawn(details, #[trigger] live_ids(ids, details)[k]),
    decreases ids.len(),
{
    if ids.len() > 0 {
        let r = live_ids(ids.drop_last(), details);
        lemma_live_ids_live(ids.drop_last(), details);
        assert forall|k: int| 0 <= k < live_ids(ids, details).len() implies !is_withdrawn(
            details,
            #[trigger] live_ids(ids, details)[k],
        ) by {
            if k < r.len() {
                assert(live_ids(ids, details)[k] == r[k]);
            }
        }
    }
}



/// The packages that a scan queries and the packages that it reports agree: each
/// package that `scan_packages` lists for the requirements and that has a listed
/// vulnerability whose record was not withdrawn is reported, and each reported
/// package that the lock file has was queried.
pub proof fn law_queried_and_reported_packages_agree(
    reqs: Seq<Seq<char>>,
    total: nat,
    lock: LockMap,
    vuln_ids: StringMap<Vec<String>>,
    details: StringMap<OsvVulnDetail>,
    r: ScanResult,
)
    requires
        scan_of(reqs, total, lock, vuln_ids, details, r),
    ensures
        forall|n: Seq<char>|
            #[trigger] pin_keys(collect_requirements(lock, reqs, Set::empty()).1).contains(n) && live_ids(
                ids_of(vuln_ids, n),
                details,
            ).len() > 0 ==> exists|i: int| 0 <= i < r.vulnerabilities.len() && #[trigger] r.vulnerabilities@[i].package@ == n,
        forall|i: int|
            0 <= i < r.vulnerabilities.len() && lookup(lock.keys(), (#[trigger] r.vulnerabilities@[i]).package@) is Some
                ==> pin_keys(collect_requirements(lock, reqs, Set::empty()).1).contains(r.vulnerabilities@[i].package@),
{
    lemma_queried_and_reported_agree(lock, reqs, r.vuln_ids, details);
    let a = scan_audit(lock, reqs, r.vuln_ids, details);
    let reps = report_views(r.vulnerabilities@);
    assert(reps == a.2);
    let keys = pin_keys(collect_requirements(lock, reqs, Set::empty()).1);
    assert forall|n: Seq<char>| #[trigger] keys.contains(n) && live_ids(ids_of(vuln_ids, n), details).len() > 0 implies exists|i: int|
        0 <= i < r.vulnerabilities.len() && #[trigger] r.vulnerabilities@[i].package@ == n by {
        assert(r.vuln_ids.get(n) is Some);
        let k = choose|k: int| 0 <= k < a.2.len() && #[trigger] a.2[k].package == n;
        assert(reps[k] == crate::audit::report_view(r.vulnerabilities@[k]));
        assert(r.vulnerabilities@[k].package@ == n);
    }
    assert forall|i: int| 0 <= i < r.vulnerabilities.len() && lookup(lock.keys(), (#[trigger] r.vulnerabilities@[i]).package@) is Some implies keys.contains(
        r.vulnerabilities@[i].package@,
    ) by {
        assert(reps[i] == crate::audit::report_view(r.vulnerabilities@[i]));
        assert(a.2[i].package == r.vulnerabilities@[i].package@);
    }
}

/// Two tables list the same ids for every package.
pub open spec fn same_listing(a: StringMap<Vec<String>>, b: StringMap<Vec<String>>) -> bool {
    forall|name: Seq<char>| (#[trigger] a.get(name) is Some <==> b.get(name) is Some) && ids_of(a, name) == ids_of(b, name)
}

/// A visit reports the same over two tables that list the same ids.
pub proof fn lemma_visit_same_listing(
    lock: LockMap,
    name: Seq<char>,
    extras: Seq<Seq<char>>,
    path: Seq<Seq<char>>,
    seen: Set<Node>,
    reported: Set<Seq<char>>,
    roots: Seq<Seq<char>>,
    a: StringMap<Vec<String>>,
    b: StringMap<Vec<String>>,
    details: StringMap<OsvVulnDetail>,
)
    requires
        same_listing(a, b),
    ensures
        audit_visit(lock, name, extras, path, seen, reported, roots, a, details) == audit_visit(
            lock,
            name,
            extras,
            path,
            seen,
            reported,
            roots,
            b,
            details,
        ),
    decreases unseen(lock, seen), 0nat,
{
    assert(a.get(name) is Some <==> b.get(name) is Some);
    assert(ids_of(a, name) == ids_of(b, name));
    assert(report_of(name, path, lock, a, details) == report_of(name, path, lock, b, details));
    let now = may_report(name, path, a, roots) && !reported.contains(name);
    let rep1 = if now { reported.insert(name) } else { reported };
    if let Some(i) = lookup(lock.keys(), name) {
        let pkg = lock.packages()[i];
        let base_new = !seen.contains((name, None::<Seq<char>>));
        let xs = fresh_extras(pkg, name, extras, seen);
        if base_new || xs.len() > 0 {
            lemma_collect_step(lock, name, extras, seen);
            let seen1 = seen.insert((name, None::<Seq<char>>)).union(marks(name, xs));
            let edges = (if base_new {
                edges_of(base_deps(pkg))
            } else {
                seq![]
            }) + extra_edges(groups_of(pkg), xs);
            lemma_edges_same_listing(lock, edges, enter(path, name), seen1, rep1, roots, a, b, details);
        }
    }
}

/// The visits along a list of edges report the same over two tables that list the
/// same ids.
pub proof fn lemma_edges_same_listing(
    lock: LockMap,
    edges: Seq<Edge>,
    path: Seq<Seq<char>>,
    seen: Set<Node>,
    reported: Set<Seq<char>>,
    roots: Seq<Seq<char>>,
    a: StringMap<Vec<String>>,
    b: StringMap<Vec<String>>,
    details: StringMap<OsvVulnDetail>,
)
    requires
        same_listing(a, b),
    ensures
        audit_edges(lock, edges, path, seen, reported, roots, a, details) == audit_edges(
            lock,
            edges,
            path,
            seen,
            reported,
            roots,
            b,
            details,
        ),
    decreases unseen(lock, seen), edges.len() + 1,
{
    if edges.len() > 0 {
        lemma_edges_same_listing(lock, edges.drop_last(), path, seen, reported, roots, a, b, details);
        let r1 = audit_edges(lock, edges.drop_last(), path, seen, reported, roots, a, details);
        let s1 = seen.union(r1.0);
        lemma_unseen_mono(lock, seen, s1);
        lemma_visit_same_listing(lock, normalized(edges.last().0), edges.last().1, path, s1, r1.1, roots, a, b, details);
    }
}

/// The visits from the requirements report the same over two tables that list the
/// same ids.
pub proof fn lemma_requirements_same_listing(
    lock: LockMap,
    reqs: Seq<Seq<char>>,
    seen: Set<Node>,
    reported: Set<Seq<char>>,
    roots: Seq<Seq<char>>,
    a: StringMap<Vec<String>>,
    b: StringMap<Vec<String>>,
    details: StringMap<OsvVulnDetail>,
)
    requires
        same_listing(a, b),
    ensures
        audit_requirements(lock, reqs, seen, reported, roots, a, details) == audit_requirements(
            lock,
            reqs,
            seen,
            reported,
            roots,
            b,
            details,
        ),
    decreases reqs.len(),
{
    if reqs.len() > 0 {
        lemma_requirements_same_listing(lock, reqs.drop_last(), seen, reported, roots, a, b, details);
        let r1 = audit_requirements(lock, reqs.drop_last(), seen, reported, roots, a, details);
        lemma_visit_same_listing(
            lock,
            normalized(requirement_name(reqs.last())),
            requirement_extras(reqs.last()),
            seq![],
            r1.0,
            r1.1,
            roots,
            a,
            b,
            details,
        );
    }
}

/// Two well-formed tables with the same keys and the same values give the same
/// value for each key.
pub proof fn lemma_same_paths(m1: StringMap<Vec<String>>, m2: StringMap<Vec<String>>, x: Seq<char>)
    requires
        m1.wf(),
        m2.wf(),
        m1.keys() == m2.keys(),
        crate::audit::path_views(m1) == crate::audit::path_views(m2),
    ensures
        (m1.get(x) is Some <==> m2.get(x) is Some),
        m1.get(x) is Some ==> m1.get(x)->0.deep_view() == m2.get(x)->0.deep_view(),
{
    if let Some(i) = lookup(m1.keys(), x) {
        lemma_lookup(m1.keys(), x);
        assert(crate::audit::path_views(m1)[i] == crate::audit::path_views(m2)[i]);
    }
}

/// Auditing a project and advising in one call gives what advising on the scan of
/// the project gives: two scans of the same requirements, lock file, listed ids
/// and records report the same packages, and the advice for one is the advice for
/// the other. So `fix_suggestions` returns `fix_suggestions_from_scan` of
/// `build_scan_result` for the same inputs.
pub proof fn law_fix_suggestions_match_the_scan_advice(
    reqs: Seq<Seq<char>>,
    total: nat,
    lock: LockMap,
    vuln_ids: StringMap<Vec<String>>,
    details: StringMap<OsvVulnDetail>,
    s1: ScanResult,
    s2: ScanResult,
    a: Seq<FixSuggestion>,
    b: Seq<FixSuggestion>,
)
    requires
        scan_of(reqs, total, lock, vuln_ids, details, s1),
        scan_of(reqs, total, lock, vuln_ids, details, s2),
        advice_for(s1, a),
        advice_for(s2, b),
    ensures
        report_views(s1.vulnerabilities@) == report_views(s2.vulnerabilities@),
        fix_views(a) == fix_views(b),
{
    assert(same_listing(s1.vuln_ids, s2.vuln_ids)) by {
        assert forall|name: Seq<char>| (#[trigger] s1.vuln_ids.get(name) is Some <==> s2.vuln_ids.get(name) is Some) && ids_of(
            s1.vuln_ids,
            name,
        ) == ids_of(s2.vuln_ids, name) by {
            assert(ids_of(s1.vuln_ids, name) == live_ids(ids_of(vuln_ids, name), details));
            assert(ids_of(s2.vuln_ids, name) == live_ids(ids_of(vuln_ids, name), details));
        }
    }
    lemma_requirements_same_listing(lock, reqs, Set::empty(), Set::empty(), root_names(reqs), s1.vuln_ids, s2.vuln_ids, details);
    let reps = report_views(s1.vulnerabilities@);
    assert(reps == report_views(s2.vulnerabilities@));
    assert(s1.ancestors_map.keys() == s2.ancestors_map.keys());
    assert(crate::audit::path_views(s1.ancestors_map) == crate::audit::path_views(s2.ancestors_map));
    let na = advice_names(a);
    let nb = advice_names(b);
    assert forall|x: Seq<char>| #[trigger] na.contains(x) <==> nb.contains(x) by {
        assert(advised(s1.ancestors_map, s1.vuln_ids, x) == advised(s2.ancestors_map, s2.vuln_ids, x));
    }
    lemma_sorted_strings_unique(na, nb);
    assert forall|i: int| 0 <= i < a.len() implies #[trigger] fix_views(a)[i] == fix_views(b)[i] by {
        assert(na[i] == nb[i]);
        let x = a[i].package@;
        assert(x == b[i].package@);
        lemma_same_paths(s1.ancestors_map, s2.ancestors_map, x);
        assert(ids_of(s1.vuln_ids, x) == ids_of(s2.vuln_ids, x));
        assert(fix_view(a[i]) == suggestion_for(
            x,
            s1.ancestors_map.get(x)->0.deep_view(),
            ids_of(s1.vuln_ids, x),
            lock,
            details,
        ));
        assert(fix_view(b[i]) == suggestion_for(
            x,
            s2.ancestors_map.get(x)->0.deep_view(),
            ids_of(s2.vuln_ids, x),
            lock,
            details,
        ));
    }
    assert(fix_views(a) =~= fix_views(b));
}

} // verus!
