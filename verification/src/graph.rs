//! Depth-first walks over the lock file's dependency graph, and the indented
//! dependency tree printed from such a walk.
use vstd::prelude::*;
use vstd::set_lib::lemma_len_subset;
use vstd::seq_lib::seq_to_set_is_finite;
use crate::lock::{deps_of, edge_views, get_deps, lemma_lookup, lookup, Edge, LockMap, LockedPackage};
use crate::names::{extract_extras, extract_name, normalize_name, normalized, requirement_extras, requirement_name};
use crate::text::{push_str, str_equal};

verus! {

/// What a walk finds at a node.
pub enum VisitKind {
    /// The name is already on the path from the root: a cycle, not followed.
    Cycle,
    /// The lock file has no package under the name.
    Missing,
    /// The package found under the name; its edges are followed.
    Found(LockedPackage),
}

/// One node of a walk: the normalised name reached, the extras it was required
/// with, the path of names from the root to it (excluded), and what was found.
pub struct Visit {
    pub name: Seq<char>,
    pub extras: Seq<Seq<char>>,
    pub path: Seq<Seq<char>>,
    pub kind: VisitKind,
}

/// The names of the lock file that are not on `path`; each step into a package
/// takes one away, which bounds the walk.
pub open spec fn unvisited(lock: LockMap, path: Seq<Seq<char>>) -> nat {
    lock.keys().to_set().difference(path.to_set()).len()
}

/// Entering a package not yet on the path leaves fewer names unvisited.
pub proof fn lemma_unvisited_push(lock: LockMap, path: Seq<Seq<char>>, name: Seq<char>)
    requires
        lookup(lock.keys(), name) is Some,
        !path.contains(name),
    ensures
        unvisited(lock, path.push(name)) < unvisited(lock, path),
{
    lemma_lookup(lock.keys(), name);
    let keys = lock.keys().to_set();
    seq_to_set_is_finite(lock.keys());
    let before = keys.difference(path.to_set());
    let after = keys.difference(path.push(name).to_set());
    assert(after =~= before.remove(name)) by {
        assert forall|x: Seq<char>| path.push(name).to_set().contains(x) <==> (path.to_set().contains(x) || x == name) by {
            if path.push(name).contains(x) && x != name {
                let i = choose|i: int| 0 <= i < path.len() + 1 && path.push(name)[i] == x;
                assert(path[i] == x);
            }
            if path.contains(x) {
                let i = choose|i: int| 0 <= i < path.len() && path[i] == x;
                assert(path.push(name)[i] == x);
            }
            if x == name {
                assert(path.push(name)[path.len() as int] == x);
            }
        }
    }
    assert(before.contains(name));
    lemma_len_subset(before, keys);
}

/// The nodes that a depth-first walk from `name` meets, in the order it meets
/// them. A name already on `path` is reported and not entered; a name the lock
/// file lacks is reported as missing; otherwise the package is reported and each
/// of its edges walked in turn, with the name added to the path.
pub open spec fn walk(lock: LockMap, name: Seq<char>, extras: Seq<Seq<char>>, path: Seq<Seq<char>>) -> Seq<Visit>
    decreases unvisited(lock, path), 0nat,
{
    if path.contains(name) {
        seq![Visit { name, extras, path, kind: VisitKind::Cycle }]
    } else {
        match lookup(lock.keys(), name) {
            None => seq![Visit { name, extras, path, kind: VisitKind::Missing }],
            Some(i) => {
                proof {
                    lemma_unvisited_push(lock, path, name);
                }
                let pkg = lock.packages()[i];
                seq![Visit { name, extras, path, kind: VisitKind::Found(pkg) }] + walk_edges(
                    lock,
                    deps_of(pkg, extras),
                    path.push(name),
                )
            },
        }
    }
}

/// The walks along a list of edges, one after the other, all from the same path.
pub open spec fn walk_edges(lock: LockMap, edges: Seq<Edge>, path: Seq<Seq<char>>) -> Seq<Visit>
    decreases unvisited(lock, path), edges.len() + 1,
{
    if edges.len() == 0 {
        seq![]
    } else {
        walk_edges(lock, edges.drop_last(), path) + walk(
            lock,
            normalized(edges.last().0),
            edges.last().1,
            path,
        )
    }
}

/// The walks from the requirements of `pyproject.toml`, in order, each from the root.
pub open spec fn walk_requirements(lock: LockMap, reqs: Seq<Seq<char>>) -> Seq<Visit>
    decreases reqs.len(),
{
    if reqs.len() == 0 {
        seq![]
    } else {
        walk_requirements(lock, reqs.drop_last()) + walk(
            lock,
            normalized(requirement_name(reqs.last())),
            requirement_extras(reqs.last()),
            seq![],
        )
    }
}

/// Two spaces per level.
pub open spec fn indent(depth: nat) -> Seq<char>
    decreases depth,
{
    if depth == 0 {
        seq![]
    } else {
        indent((depth - 1) as nat) + "  "@
    }
}

/// Items joined by commas.
pub open spec fn join_commas(xs: Seq<Seq<char>>) -> Seq<char>
    decreases xs.len(),
{
    if xs.len() == 0 {
        seq![]
    } else if xs.len() == 1 {
        xs[0]
    } else {
        join_commas(xs.drop_last()) + ","@ + xs.last()
    }
}

/// `[a,b]` for requested extras, nothing when there are none.
pub open spec fn extras_suffix(xs: Seq<Seq<char>>) -> Seq<char> {
    if xs.len() == 0 {
        seq![]
    } else {
        "["@ + join_commas(xs) + "]"@
    }
}

/// The line of the tree for one node.
pub open spec fn tree_line(v: Visit) -> Seq<char> {
    match v.kind {
        VisitKind::Cycle => indent(v.path.len()) + v.name + extras_suffix(v.extras) + " [*]\n"@,
        VisitKind::Missing => indent(v.path.len()) + v.name + extras_suffix(v.extras)
            + " [missing]\n"@,
        VisitKind::Found(pkg) => indent(v.path.len()) + v.name + " v"@ + pkg.version@
            + extras_suffix(v.extras) + "\n"@,
    }
}

/// The lines of the tree for a sequence of nodes.
pub open spec fn tree_text(vs: Seq<Visit>) -> Seq<char>
    decreases vs.len(),
{
    if vs.len() == 0 {
        seq![]
    } else {
        tree_text(vs.drop_last()) + tree_line(vs.last())
    }
}

/// The text of one node is its line.
pub proof fn lemma_tree_text_single(v: Visit)
    ensures
        tree_text(seq![v]) == tree_line(v),
{
    assert(seq![v].drop_last() =~= Seq::<Visit>::empty());
    assert(tree_text(Seq::<Visit>::empty()) == Seq::<char>::empty());
    assert(Seq::<char>::empty() + tree_line(v) =~= tree_line(v));
}

/// The text of a sequence of nodes followed by another is the two texts in turn.
pub proof fn lemma_tree_text_concat(a: Seq<Visit>, b: Seq<Visit>)
    ensures
        tree_text(a + b) == tree_text(a) + tree_text(b),
    decreases b.len(),
{
    if b.len() == 0 {
        assert(a + b =~= a);
        assert(tree_text(a) + seq![] =~= tree_text(a));
    } else {
        lemma_tree_text_concat(a, b.drop_last());
        assert((a + b).drop_last() =~= a + b.drop_last());
        assert((a + b).last() == b.last());
        assert(tree_text(a) + tree_text(b.drop_last()) + tree_line(b.last()) =~= tree_text(a)
            + (tree_text(b.drop_last()) + tree_line(b.last())));
    }
}

/// Whether `name` is on the path.
pub fn path_contains(path: &Vec<String>, name: &str) -> (r: bool)
    ensures
        r == path.deep_view().contains(name@),
{
    let mut i: usize = 0;
    while i < path.len()
        invariant
            i <= path.len(),
            forall|j: int| 0 <= j < i ==> path.deep_view()[j] != name@,
        decreases path.len() - i,
    {
        if str_equal(path[i].as_str(), name) {
            assert(path.deep_view()[i as int] == name@);
            return true;
        }
        i = i + 1;
    }
    false
}

/// `depth` levels of indentation.
pub fn indentation(depth: usize) -> (r: String)
    ensures
        r@ == indent(depth as nat),
{
    let mut r = String::new();
    let mut i: usize = 0;
    while i < depth
        invariant
            i <= depth,
            r@ == indent(i as nat),
        decreases depth - i,
    {
        push_str(&mut r, "  ");
        i = i + 1;
    }
    r
}

/// The `[a,b]` suffix of a node with extras.
pub fn extras_text(extras: &Vec<String>) -> (r: String)
    ensures
        r@ == extras_suffix(extras.deep_view()),
{
    let mut r = String::new();
    if extras.len() == 0 {
        return r;
    }
    let ghost xs = extras.deep_view();
    let mut joined = String::new();
    push_str(&mut joined, extras[0].as_str());
    assert(xs.take(1) =~= seq![xs[0]]);
    let mut i: usize = 1;
    while i < extras.len()
        invariant
            1 <= i <= extras.len(),
            xs == extras.deep_view(),
            joined@ == join_commas(xs.take(i as int)),
        decreases extras.len() - i,
    {
        push_str(&mut joined, ",");
        push_str(&mut joined, extras[i].as_str());
        assert(xs.take(i + 1).drop_last() =~= xs.take(i as int));
        i = i + 1;
    }
    assert(xs.take(extras.len() as int) =~= xs);
    push_str(&mut r, "[");
    push_str(&mut r, joined.as_str());
    push_str(&mut r, "]");
    r
}

/// Appends the tree below `name` to `out`: one line per node of the walk from
/// `name`, indented by its depth. `path` holds the names from the root to `name`
/// and is as it was on return.
#[verifier::rlimit(40)]
pub(crate) fn build_tree_string(
    name: &str,
    extras: &Vec<String>,
    lock: &LockMap,
    path: &mut Vec<String>,
    out: &mut String,
)
    requires
        lock.wf(),
    ensures
        final(path).deep_view() == old(path).deep_view(),
        final(out)@ == old(out)@ + tree_text(walk(*lock, name@, extras.deep_view(), old(path).deep_view())),
    decreases unvisited(*lock, path.deep_view()),
{
    let ghost p0 = path.deep_view();
    let ghost o0 = out@;
    let ghost xs = extras.deep_view();
    let ind = indentation(path.len());
    let ex = extras_text(extras);
    if path_contains(path, name) {
        push_str(out, ind.as_str());
        push_str(out, name);
        push_str(out, ex.as_str());
        push_str(out, " [*]\n");
        proof {
            let v = Visit { name: name@, extras: xs, path: p0, kind: VisitKind::Cycle };
            assert(walk(*lock, name@, xs, p0) == seq![v]);
            lemma_tree_text_single(v);
            assert(out@ =~= o0 + tree_line(v));
        }
        return;
    }
    match lock.find(name) {
        None => {
            push_str(out, ind.as_str());
            push_str(out, name);
            push_str(out, ex.as_str());
            push_str(out, " [missing]\n");
            proof {
                let v = Visit { name: name@, extras: xs, path: p0, kind: VisitKind::Missing };
                assert(walk(*lock, name@, xs, p0) == seq![v]);
                lemma_tree_text_single(v);
                assert(out@ =~= o0 + tree_line(v));
            }
        },
        Some(i) => {
            let pkg = lock.package(i);
            push_str(out, ind.as_str());
            push_str(out, name);
            push_str(out, " v");
            push_str(out, pkg.version.as_str());
            push_str(out, ex.as_str());
            push_str(out, "\n");
            let ghost v = Visit { name: name@, extras: xs, path: p0, kind: VisitKind::Found(*pkg) };
            let ghost o1 = out@;
            proof {
                lemma_tree_text_single(v);
                assert(o1 =~= o0 + tree_line(v));
            }
            path.push(name.to_owned());
            let ghost p1 = path.deep_view();
            assert(p1 =~= p0.push(name@));
            let deps = get_deps(pkg, extras);
            let ghost edges = edge_views(deps@);
            assert(edges == deps_of(*pkg, xs));
            let mut j: usize = 0;
            assert(edges.take(0) =~= Seq::<Edge>::empty());
            while j < deps.len()
                invariant
                    j <= deps.len(),
                    edges == edge_views(deps@),
                    path.deep_view() == p1,
                    p1 == p0.push(name@),
                    p0 == old(path).deep_view(),
                    !p0.contains(name@),
                    lookup(lock.keys(), name@) is Some,
                    lock.wf(),
                    out@ == o1 + tree_text(walk_edges(*lock, edges.take(j as int), p1)),
                decreases deps.len() - j,
            {
                let child = normalize_name(deps[j].0.as_str());
                let ghost ob = out@;
                proof {
                    lemma_unvisited_push(*lock, p0, name@);
                }
                build_tree_string(child.as_str(), &deps[j].1, lock, path, out);
                proof {
                    let e = edges.take(j + 1);
                    assert(e.drop_last() =~= edges.take(j as int));
                    assert(e.last() == (deps@[j as int].0@, deps@[j as int].1.deep_view()));
                    lemma_tree_text_concat(
                        walk_edges(*lock, edges.take(j as int), p1),
                        walk(*lock, child@, deps@[j as int].1.deep_view(), p1),
                    );
                }
                j = j + 1;
            }
            let ghost before_pop = path@;
            path.pop();
            assert(path.deep_view() =~= p0) by {
                assert forall|k: int| 0 <= k < p0.len() implies path.deep_view()[k] == p0[k] by {
                    assert(path@[k] == before_pop[k]);
                    assert(p1[k] == before_pop[k]@);
                }
            }
            proof {
                assert(edges.take(deps.len() as int) =~= edges);
                assert(walk(*lock, name@, xs, p0) == seq![v] + walk_edges(*lock, edges, p1));
                lemma_tree_text_concat(seq![v], walk_edges(*lock, edges, p1));
            }
        },
    }
}

/// The dependency tree of a project, as the text printed for it.
pub open spec fn dependency_tree_text(lock: LockMap, reqs: Seq<Seq<char>>) -> Seq<char> {
    tree_text(walk_requirements(lock, reqs))
}

/// The full dependency tree of a project: for each requirement of
/// `pyproject.toml`, in order, the tree below the package it names.
pub fn dependency_tree(dependencies: &Vec<String>, lock: &LockMap) -> (r: String)
    requires
        lock.wf(),
    ensures
        r@ == dependency_tree_text(*lock, dependencies.deep_view()),
{
    let mut out = String::new();
    let mut path: Vec<String> = Vec::new();
    let ghost reqs = dependencies.deep_view();
    let mut i: usize = 0;
    assert(reqs.take(0) =~= Seq::<Seq<char>>::empty());
    while i < dependencies.len()
        invariant
            i <= dependencies.len(),
            reqs == dependencies.deep_view(),
            lock.wf(),
            path.deep_view() == Seq::<Seq<char>>::empty(),
            out@ == tree_text(walk_requirements(*lock, reqs.take(i as int))),
        decreases dependencies.len() - i,
    {
        let raw = dependencies[i].as_str();
        let base = extract_name(raw);
        let name = normalize_name(base.as_str());
        let extras = extract_extras(raw);
        let ghost before = walk_requirements(*lock, reqs.take(i as int));
        build_tree_string(name.as_str(), &extras, lock, &mut path, &mut out);
        proof {
            let r = reqs.take(i + 1);
            assert(r.drop_last() =~= reqs.take(i as int));
            assert(r.last() == dependencies@[i as int]@);
            lemma_tree_text_concat(before, walk(*lock, name@, extras.deep_view(), seq![]));
            assert(path.deep_view() =~= Seq::<Seq<char>>::empty());
        }
        i = i + 1;
    }
    assert(reqs.take(dependencies.len() as int) =~= reqs);
    out
}

} // verus!
