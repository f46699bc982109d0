//! The vulnerability report: the vulnerable packages met on the walk from the
//! project's requirements, each reported once, with the path that introduced it.
//! The walk is the one the scan's queries took, so every queried package with
//! listed vulnerabilities is reported.
use vstd::prelude::*;
use crate::collect::{
    fresh_extras, fresh_extras_of, lemma_collect_step, lemma_unseen_mono, mark_seen, marks,
    node_seen, node_views, unseen, Node,
};
use crate::graph::path_contains;
use crate::lock::{
    base_deps, clone_strings, edge_views, edges_of, extra_edges, groups_of, lookup, push_base_edges,
    push_group_edges, Edge, LockMap,
};
use crate::names::{extract_extras, extract_name, normalize_name, normalized, requirement_extras, requirement_name};
use crate::osv::{
    advisory_url_of, extract_advisory_url, extract_fix_version, extract_last_affected,
    extract_severity, fix_version_of, last_affected_of, opt_view, severity_of, OsvVulnDetail,
};
use crate::store::StringMap;
use crate::text::str_equal;

verus! {

/// One vulnerability of a reported package.
#[derive(Debug, Clone)]
pub struct CveInfo {
    pub id: String,
    pub summary: Option<String>,
    pub details: Option<String>,
    pub severity: Option<String>,
    /// Exact version where this vulnerability was fixed, if available.
    pub fix_version: Option<String>,
    /// When no fix version exists: the last version known to be affected.
    pub last_affected_version: Option<String>,
    pub advisory_url: Option<String>,
}

/// A vulnerable package of the project.
#[derive(Debug, Clone)]
pub struct VulnerabilityReport {
    pub package: String,
    pub version: String,
    /// Empty for a direct dependency of `pyproject.toml`; otherwise the path of
    /// packages from the requirement down to this one.
    pub ancestors: Vec<String>,
    pub cves: Vec<CveInfo>,
}

/// The contents of a `CveInfo`.
pub struct CveSpec {
    pub id: Seq<char>,
    pub summary: Option<Seq<char>>,
    pub details: Option<Seq<char>>,
    pub severity: Option<Seq<char>>,
    pub fix_version: Option<Seq<char>>,
    pub last_affected_version: Option<Seq<char>>,
    pub advisory_url: Option<Seq<char>>,
}

/// The contents of a `VulnerabilityReport`.
pub struct ReportSpec {
    pub package: Seq<char>,
    pub version: Seq<char>,
    pub ancestors: Seq<Seq<char>>,
    pub cves: Seq<CveSpec>,
}

pub open spec fn cve_view(c: CveInfo) -> CveSpec {
    CveSpec {
        id: c.id@,
        summary: opt_view(c.summary),
        details: opt_view(c.details),
        severity: opt_view(c.severity),
        fix_version: opt_view(c.fix_version),
        last_affected_version: opt_view(c.last_affected_version),
        advisory_url: opt_view(c.advisory_url),
    }
}

pub open spec fn report_view(r: VulnerabilityReport) -> ReportSpec {
    ReportSpec {
        package: r.package@,
        version: r.version@,
        ancestors: r.ancestors.deep_view(),
        cves: r.cves@.map_values(|c: CveInfo| cve_view(c)),
    }
}

pub open spec fn report_views(rs: Seq<VulnerabilityReport>) -> Seq<ReportSpec> {
    rs.map_values(|r: VulnerabilityReport| report_view(r))
}

/// What the report says of one vulnerability id: what its record gives, or only
/// the id when no record was fetched for it.
pub open spec fn cve_for(id: Seq<char>, details: StringMap<OsvVulnDetail>) -> CveSpec {
    match details.get(id) {
        Some(d) => CveSpec {
            id,
            summary: opt_view(d.summary),
            details: opt_view(d.details),
            severity: severity_of(d),
            fix_version: fix_version_of(d),
            last_affected_version: last_affected_of(d),
            advisory_url: advisory_url_of(d),
        },
        None => CveSpec {
            id,
            summary: None,
            details: None,
            severity: None,
            fix_version: None,
            last_affected_version: None,
            advisory_url: None,
        },
    }
}

/// The locked version of a package, or `?` when the lock file lacks it.
pub open spec fn locked_version(lock: LockMap, name: Seq<char>) -> Seq<char> {
    match lookup(lock.keys(), name) {
        Some(i) => lock.packages()[i].version@,
        None => "?"@,
    }
}

/// The ids listed for a package (none when it is not listed).
pub open spec fn ids_of(vuln_ids: StringMap<Vec<String>>, name: Seq<char>) -> Seq<Seq<char>> {
    match vuln_ids.get(name) {
        Some(v) => v.deep_view(),
        None => seq![],
    }
}


/// The package names that the requirements of `pyproject.toml` name, in order.
pub open spec fn root_names(reqs: Seq<Seq<char>>) -> Seq<Seq<char>> {
    reqs.map_values(|r: Seq<char>| normalized(requirement_name(r)))
}

/// What the report of `name` lists: a `CveSpec` for each of its listed ids, in order.
pub open spec fn cves_of(name: Seq<char>, vuln_ids: StringMap<Vec<String>>, details: StringMap<OsvVulnDetail>) -> Seq<CveSpec> {
    ids_of(vuln_ids, name).map_values(|id: Seq<char>| cve_for(id, details))
}

/// The report for the vulnerable package `name`, met along `path`.
pub open spec fn report_of(
    name: Seq<char>,
    path: Seq<Seq<char>>,
    lock: LockMap,
    vuln_ids: StringMap<Vec<String>>,
    details: StringMap<OsvVulnDetail>,
) -> ReportSpec {
    ReportSpec {
        package: name,
        version: locked_version(lock, name),
        ancestors: path,
        cves: cves_of(name, vuln_ids, details),
    }
}

/// Whether a visit of `name` along `path` can report it: it has listed
/// vulnerabilities, and the visit is the root of a requirement's walk or the
/// package is not one that a requirement names (such a package is reported as a
/// direct dependency, from its root).
pub open spec fn may_report(name: Seq<char>, path: Seq<Seq<char>>, vuln_ids: StringMap<Vec<String>>, roots: Seq<Seq<char>>) -> bool {
    &&& vuln_ids.get(name) is Some
    &&& (path.len() == 0 || !roots.contains(name))
}

/// The position of the first `name` on the path, or its length.
pub open spec fn position_on(path: Seq<Seq<char>>, name: Seq<char>) -> int
    decreases path.len(),
{
    if path.len() == 0 {
        0
    } else if path[0] == name {
        0
    } else {
        1 + position_on(path.drop_first(), name)
    }
}

/// `position_on` is the first position that holds `name`.
pub proof fn lemma_position_on(path: Seq<Seq<char>>, name: Seq<char>)
    ensures
        0 <= position_on(path, name) <= path.len(),
        position_on(path, name) < path.len() ==> path[position_on(path, name)] == name,
        forall|j: int| 0 <= j < position_on(path, name) ==> path[j] != name,
    decreases path.len(),
{
    if path.len() > 0 && path[0] != name {
        let t = path.drop_first();
        lemma_position_on(t, name);
        assert forall|j: int| 0 <= j < position_on(path, name) implies path[j] != name by {
            if j > 0 {
                assert(path[j] == t[j - 1]);
            }
        }
    }
}

/// The path below a visit of `name` along `path`: the path followed by `name`, or,
/// when `name` is already on the path, the path up to and including it.
pub open spec fn enter(path: Seq<Seq<char>>, name: Seq<char>) -> Seq<Seq<char>> {
    let k = position_on(path, name);
    if k < path.len() {
        path.take(k + 1)
    } else {
        path.push(name)
    }
}

/// What the scan's walk reports from the visit of `name`, required with `extras`,
/// along `path`. It goes as `collect` does, over the same seen nodes; at each visit
/// it reports the package if it may and has not been reported yet.
pub open spec fn audit_visit(
    lock: LockMap,
    name: Seq<char>,
    extras: Seq<Seq<char>>,
    path: Seq<Seq<char>>,
    seen: Set<Node>,
    reported: Set<Seq<char>>,
    roots: Seq<Seq<char>>,
    vuln_ids: StringMap<Vec<String>>,
    details: StringMap<OsvVulnDetail>,
) -> (Set<Node>, Set<Seq<char>>, Seq<ReportSpec>)
    decreases unseen(lock, seen), 0nat,
{
    let now = may_report(name, path, vuln_ids, roots) && !reported.contains(name);
    let rep1 = if now {
        reported.insert(name)
    } else {
        reported
    };
    let out1: Seq<ReportSpec> = if now {
        seq![report_of(name, path, lock, vuln_ids, details)]
    } else {
        seq![]
    };
    match lookup(lock.keys(), name) {
        None => (seen, rep1, out1),
        Some(i) => {
            let pkg = lock.packages()[i];
            let base_new = !seen.contains((name, None::<Seq<char>>));
            let xs = fresh_extras(pkg, name, extras, seen);
            if !base_new && xs.len() == 0 {
                (seen, rep1, out1)
            } else {
                let seen1 = seen.insert((name, None::<Seq<char>>)).union(marks(name, xs));
                proof {
                    lemma_collect_step(lock, name, extras, seen);
                }
                let edges = (if base_new {
                    edges_of(base_deps(pkg))
                } else {
                    seq![]
                }) + extra_edges(groups_of(pkg), xs);
                let r = audit_edges(lock, edges, enter(path, name), seen1, rep1, roots, vuln_ids, details);
                (r.0, r.1, out1 + r.2)
            }
        },
    }
}

/// The visits along a list of edges in turn, all from the same path.
pub open spec fn audit_edges(
    lock: LockMap,
    edges: Seq<Edge>,
    path: Seq<Seq<char>>,
    seen: Set<Node>,
    reported: Set<Seq<char>>,
    roots: Seq<Seq<char>>,
    vuln_ids: StringMap<Vec<String>>,
    details: StringMap<OsvVulnDetail>,
) -> (Set<Node>, Set<Seq<char>>, Seq<ReportSpec>)
    decreases unseen(lock, seen), edges.len() + 1,
{
    if edges.len() == 0 {
        (seen, reported, seq![])
    } else {
        let r1 = audit_edges(lock, edges.drop_last(), path, seen, reported, roots, vuln_ids, details);
        let s1 = seen.union(r1.0);
        proof {
            lemma_unseen_mono(lock, seen, s1);
        }
        let r2 = audit_visit(
            lock,
            normalized(edges.last().0),
            edges.last().1,
            path,
            s1,
            r1.1,
            roots,
            vuln_ids,
            details,
        );
        (r2.0, r2.1, r1.2 + r2.2)
    }
}

/// The visits from the requirements of `pyproject.toml` in turn, each from the root.
pub open spec fn audit_requirements(
    lock: LockMap,
    reqs: Seq<Seq<char>>,
    seen: Set<Node>,
    reported: Set<Seq<char>>,
    roots: Seq<Seq<char>>,
    vuln_ids: StringMap<Vec<String>>,
    details: StringMap<OsvVulnDetail>,
) -> (Set<Node>, Set<Seq<char>>, Seq<ReportSpec>)
    decreases reqs.len(),
{
    if reqs.len() == 0 {
        (seen, reported, seq![])
    } else {
        let r1 = audit_requirements(lock, reqs.drop_last(), seen, reported, roots, vuln_ids, details);
        let r2 = audit_visit(
            lock,
            normalized(requirement_name(reqs.last())),
            requirement_extras(reqs.last()),
            seq![],
            r1.0,
            r1.1,
            roots,
            vuln_ids,
            details,
        );
        (r2.0, r2.1, r1.2 + r2.2)
    }
}

/// What the scan reports: the visits from the requirements, starting with nothing
/// seen and nothing reported.
pub open spec fn scan_audit(
    lock: LockMap,
    reqs: Seq<Seq<char>>,
    vuln_ids: StringMap<Vec<String>>,
    details: StringMap<OsvVulnDetail>,
) -> (Set<Node>, Set<Seq<char>>, Seq<ReportSpec>) {
    audit_requirements(lock, reqs, Set::empty(), Set::empty(), root_names(reqs), vuln_ids, details)
}

/// The path below a visit of `name` along `path`.
pub fn enter_path(path: &Vec<String>, name: &str) -> (r: Vec<String>)
    ensures
        r.deep_view() == enter(path.deep_view(), name@),
{
    let ghost p = path.deep_view();
    proof {
        lemma_position_on(p, name@);
    }
    let mut k: usize = 0;
    while k < path.len() && !str_equal(path[k].as_str(), name)
        invariant
            k <= path.len(),
            p == path.deep_view(),
            forall|j: int| 0 <= j < k ==> p[j] != name@,
            0 <= position_on(p, name@) <= p.len(),
            position_on(p, name@) < p.len() ==> p[position_on(p, name@)] == name@,
            forall|j: int| 0 <= j < position_on(p, name@) ==> p[j] != name@,
        decreases path.len() - k,
    {
        k = k + 1;
    }
    assert(k as int == position_on(p, name@)) by {
        if k < path.len() {
            assert(p[k as int] == name@);
        }
    }
    let mut r: Vec<String> = Vec::new();
    let end = if k < path.len() { k + 1 } else { path.len() };
    let mut i: usize = 0;
    while i < end
        invariant
            end <= path.len(),
            i <= end,
            p == path.deep_view(),
            r.deep_view() == p.take(i as int),
        decreases end - i,
    {
        let ghost before = r.deep_view();
        r.push(path[i].clone());
        assert(r.deep_view() =~= before.push(p[i as int]));
        i = i + 1;
        assert(r.deep_view() =~= p.take(i as int));
    }
    if k >= path.len() {
        let ghost before = r.deep_view();
        r.push(name.to_owned());
        assert(p.take(path.len() as int) =~= p);
        assert(r.deep_view() =~= before.push(name@));
    }
    r
}

/// The report of `name` along `path`, built from the tables.
fn build_report(
    name: &str,
    path: &Vec<String>,
    found: Option<usize>,
    lock: &LockMap,
    ids: &Vec<String>,
    detail_map: &StringMap<OsvVulnDetail>,
) -> (r: VulnerabilityReport)
    requires
        lock.wf(),
        detail_map.wf(),
        (found matches Some(i) ==> lookup(lock.keys(), name@) == Some(i as int) && i < lock.packages().len()),
        (found is None ==> lookup(lock.keys(), name@) is None),
    ensures
        report_view(r) == (ReportSpec {
            package: name@,
            version: locked_version(*lock, name@),
            ancestors: path.deep_view(),
            cves: ids.deep_view().map_values(|id: Seq<char>| cve_for(id, *detail_map)),
        }),
{
    let version = match found {
        Some(i) => lock.package(i).version.clone(),
        None => "?".to_owned(),
    };
    let ghost idv = ids.deep_view();
    let mut cves: Vec<CveInfo> = Vec::new();
    let mut k: usize = 0;
    while k < ids.len()
        invariant
            k <= ids.len(),
            idv == ids.deep_view(),
            detail_map.wf(),
            cves@.map_values(|c: CveInfo| cve_view(c)) == idv.take(k as int).map_values(
                |id: Seq<char>| cve_for(id, *detail_map),
            ),
        decreases ids.len() - k,
    {
        let c = cve_info(&ids[k], detail_map);
        let ghost cb = cves@.map_values(|c: CveInfo| cve_view(c));
        cves.push(c);
        assert(cves@.map_values(|c: CveInfo| cve_view(c)) =~= cb.push(cve_view(c)));
        k = k + 1;
        assert(idv.take(k as int).map_values(|id: Seq<char>| cve_for(id, *detail_map)) =~= idv.take(k - 1).map_values(
            |id: Seq<char>| cve_for(id, *detail_map),
        ).push(cve_for(idv[k - 1], *detail_map)));
    }
    assert(idv.take(ids.len() as int) =~= idv);
    let r = VulnerabilityReport { package: name.to_owned(), version, ancestors: clone_strings(path), cves };
    assert(report_view(r).cves =~= idv.map_values(|id: Seq<char>| cve_for(id, *detail_map)));
    r
}

/// The views of the reports, of the table of paths, and the set of reported
/// packages, after appending reports.
pub open spec fn audit_tables_extend(
    out0: Seq<ReportSpec>,
    keys0: Seq<Seq<char>>,
    vals0: Seq<Seq<Seq<char>>>,
    out: Seq<ReportSpec>,
    keys: Seq<Seq<char>>,
    vals: Seq<Seq<Seq<char>>>,
    new: Seq<ReportSpec>,
) -> bool {
    &&& out == out0 + new
    &&& keys == keys0 + new.map_values(|x: ReportSpec| x.package)
    &&& vals == vals0 + new.map_values(|x: ReportSpec| x.ancestors)
}

/// Appending runs of reports one after the other.
pub proof fn lemma_tables_extend(
    out0: Seq<ReportSpec>,
    keys0: Seq<Seq<char>>,
    vals0: Seq<Seq<Seq<char>>>,
    out1: Seq<ReportSpec>,
    keys1: Seq<Seq<char>>,
    vals1: Seq<Seq<Seq<char>>>,
    out2: Seq<ReportSpec>,
    keys2: Seq<Seq<char>>,
    vals2: Seq<Seq<Seq<char>>>,
    a: Seq<ReportSpec>,
    b: Seq<ReportSpec>,
)
    requires
        audit_tables_extend(out0, keys0, vals0, out1, keys1, vals1, a),
        audit_tables_extend(out1, keys1, vals1, out2, keys2, vals2, b),
    ensures
        audit_tables_extend(out0, keys0, vals0, out2, keys2, vals2, a + b),
{
    assert((a + b).map_values(|x: ReportSpec| x.package) =~= a.map_values(|x: ReportSpec| x.package) + b.map_values(
        |x: ReportSpec| x.package,
    ));
    assert((a + b).map_values(|x: ReportSpec| x.ancestors) =~= a.map_values(|x: ReportSpec| x.ancestors)
        + b.map_values(|x: ReportSpec| x.ancestors));
    assert(out2 =~= out0 + (a + b));
    assert(keys2 =~= keys0 + (a + b).map_values(|x: ReportSpec| x.package));
    assert(vals2 =~= vals0 + (a + b).map_values(|x: ReportSpec| x.ancestors));
}

pub open spec fn path_views(m: StringMap<Vec<String>>) -> Seq<Seq<Seq<char>>> {
    m.values().map_values(|v: Vec<String>| v.deep_view())
}

/// Walks from `name` as the scan's queries did and reports the vulnerable packages
/// it may report: `ancestors_out` maps each package reported so far to the path
/// that introduced it, `path` holds the path to this visit, and `roots` the
/// packages the requirements name, which are reported only from the root of
/// their own walk.
#[verifier::rlimit(100)]
pub(crate) fn collect_audit(
    name: &str,
    extras: &Vec<String>,
    lock: &LockMap,
    vuln_ids: &StringMap<Vec<String>>,
    detail_map: &StringMap<OsvVulnDetail>,
    path: &Vec<String>,
    roots: &Vec<String>,
    seen: &mut Vec<(String, Option<String>)>,
    ancestors_out: &mut StringMap<Vec<String>>,
    out: &mut Vec<VulnerabilityReport>,
)
    requires
        lock.wf(),
        vuln_ids.wf(),
        detail_map.wf(),
        old(ancestors_out).wf(),
    ensures
        ({
            let r = audit_visit(
                *lock,
                name@,
                extras.deep_view(),
                path.deep_view(),
                node_views(old(seen)@).to_set(),
                old(ancestors_out).keys().to_set(),
                roots.deep_view(),
                *vuln_ids,
                *detail_map,
            );
            &&& node_views(final(seen)@).to_set() == r.0
            &&& final(ancestors_out).keys().to_set() == r.1
            &&& audit_tables_extend(
                report_views(old(out)@),
                old(ancestors_out).keys(),
                path_views(*old(ancestors_out)),
                report_views(final(out)@),
                final(ancestors_out).keys(),
                path_views(*final(ancestors_out)),
                r.2,
            )
        }),
        final(ancestors_out).wf(),
        node_views(old(seen)@).to_set().subset_of(node_views(final(seen)@).to_set()),
    decreases unseen(*lock, node_views(seen@).to_set()),
{
    let ghost s0 = node_views(seen@).to_set();
    let ghost k0 = ancestors_out.keys();
    let ghost o0 = report_views(out@);
    let ghost a0 = path_views(*ancestors_out);
    let ghost p0 = path.deep_view();
    let ghost xs0 = extras.deep_view();
    let ghost rts = roots.deep_view();
    let found = lock.find(name);
    proof {
        crate::lock::lemma_lookup(k0, name@);
        if k0.contains(name@) {
            let m = choose|m: int| 0 <= m < k0.len() && k0[m] == name@;
            assert(k0.to_set().contains(k0[m]));
        }
        k0.lemma_push_to_set_commute(name@);
    }
    let ghost now = may_report(name@, p0, *vuln_ids, rts) && !k0.to_set().contains(name@);
    match vuln_ids.get_ref(name) {
        Some(ids) => {
            let may = path.len() == 0 || !path_contains(roots, name);
            if may && ancestors_out.position(name).is_none() {
                let report = build_report(name, path, found, lock, ids, detail_map);
                ancestors_out.insert(name.to_owned(), clone_strings(path));
                let ghost ob = report_views(out@);
                out.push(report);
                proof {
                    assert(ancestors_out.keys() == k0.push(name@));
                    assert(path_views(*ancestors_out) =~= a0.push(p0));
                    assert(report_views(out@) =~= ob.push(report_view(report)));
                    assert(report_view(report) == report_of(name@, p0, *lock, *vuln_ids, *detail_map));
                }
            }
        },
        None => {},
    }
    let ghost out1: Seq<ReportSpec> = if now {
        seq![report_of(name@, p0, *lock, *vuln_ids, *detail_map)]
    } else {
        seq![]
    };
    let ghost k1 = ancestors_out.keys();
    let ghost rep1 = k1.to_set();
    proof {
        if now {
            assert(seq![report_of(name@, p0, *lock, *vuln_ids, *detail_map)].map_values(|x: ReportSpec| x.package)
                =~= seq![name@]);
            assert(seq![report_of(name@, p0, *lock, *vuln_ids, *detail_map)].map_values(|x: ReportSpec| x.ancestors)
                =~= seq![p0]);
            assert(k1 =~= k0 + seq![name@]);
            assert(path_views(*ancestors_out) =~= a0 + seq![p0]);
            assert(report_views(out@) =~= o0 + out1);
        } else {
            assert(k1 =~= k0 + out1.map_values(|x: ReportSpec| x.package));
            assert(path_views(*ancestors_out) =~= a0 + out1.map_values(|x: ReportSpec| x.ancestors));
            assert(report_views(out@) =~= o0 + out1);
        }
        assert(rep1 == if now { k0.to_set().insert(name@) } else { k0.to_set() });
        assert(audit_tables_extend(o0, k0, a0, report_views(out@), k1, path_views(*ancestors_out), out1));
    }
    let i = match found {
        None => {
            return;
        },
        Some(i) => i,
    };
    let pkg = lock.package(i);
    let none: Option<String> = None;
    let base_new = !node_seen(seen, name, &none);
    let xs = fresh_extras_of(pkg, name, extras, seen);
    let ghost fx = xs.deep_view();
    if !base_new && xs.len() == 0 {
        return;
    }
    proof {
        lemma_collect_step(*lock, name@, xs0, s0);
    }
    mark_seen(seen, name, None);
    let ghost sb = node_views(seen@).to_set();
    let mut m: usize = 0;
    assert(sb.union(marks(name@, fx.take(0))) =~= sb);
    while m < xs.len()
        invariant
            m <= xs.len(),
            fx == xs.deep_view(),
            node_views(seen@).to_set() == sb.union(marks(name@, fx.take(m as int))),
        decreases xs.len() - m,
    {
        mark_seen(seen, name, Some(xs[m].clone()));
        proof {
            let ys = fx.take(m as int);
            let y = xs@[m as int]@;
            assert(fx.take(m + 1) =~= ys.push(y));
            assert forall|z: Seq<char>| #[trigger] ys.push(y).contains(z) <==> (ys.contains(z) || z == y) by {
                if ys.push(y).contains(z) && z != y {
                    let k = choose|k: int| 0 <= k < ys.len() + 1 && ys.push(y)[k] == z;
                    assert(ys[k] == z);
                }
                if ys.contains(z) {
                    let k = choose|k: int| 0 <= k < ys.len() && ys[k] == z;
                    assert(ys.push(y)[k] == z);
                }
                if z == y {
                    assert(ys.push(y)[ys.len() as int] == z);
                }
            }
            assert(sb.union(marks(name@, fx.take(m + 1))) =~= sb.union(marks(name@, fx.take(m as int))).insert(
                (name@, Some(xs@[m as int]@)),
            ));
        }
        m = m + 1;
    }
    assert(fx.take(xs.len() as int) =~= fx);
    let ghost s1 = node_views(seen@).to_set();
    assert(s1 == s0.insert((name@, None::<Seq<char>>)).union(marks(name@, fx)));
    let mut deps: Vec<(String, Vec<String>)> = Vec::new();
    assert(edge_views(deps@) =~= Seq::<Edge>::empty());
    if base_new {
        push_base_edges(&mut deps, pkg);
    }
    push_group_edges(&mut deps, pkg, &xs);
    let ghost edges = edge_views(deps@);
    assert(edges =~= (if base_new {
        edges_of(base_deps(*pkg))
    } else {
        seq![]
    }) + extra_edges(groups_of(*pkg), fx));
    let child_path = enter_path(path, name);
    let ghost p1 = child_path.deep_view();
    let ghost o1 = report_views(out@);
    let ghost a1 = path_views(*ancestors_out);
    let mut j: usize = 0;
    assert(edges.take(0) =~= Seq::<Edge>::empty());
    assert(s1.union(s1) =~= s1);
    assert(audit_tables_extend(o1, k1, a1, o1, k1, a1, Seq::<ReportSpec>::empty())) by {
        assert(o1 =~= o1 + Seq::<ReportSpec>::empty());
        assert(k1 =~= k1 + Seq::<ReportSpec>::empty().map_values(|x: ReportSpec| x.package));
        assert(a1 =~= a1 + Seq::<ReportSpec>::empty().map_values(|x: ReportSpec| x.ancestors));
    }
    while j < deps.len()
        invariant
            j <= deps.len(),
            lock.wf(),
            vuln_ids.wf(),
            detail_map.wf(),
            edges == edge_views(deps@),
            p1 == child_path.deep_view(),
            rts == roots.deep_view(),
            s0 == node_views(old(seen)@).to_set(),
            s0.subset_of(s1),
            unseen(*lock, s1) < unseen(*lock, s0),
            s1.subset_of(node_views(seen@).to_set()),
            ancestors_out.wf(),
            ({
                let c = audit_edges(*lock, edges.take(j as int), p1, s1, rep1, rts, *vuln_ids, *detail_map);
                &&& node_views(seen@).to_set() == c.0
                &&& ancestors_out.keys().to_set() == c.1
                &&& audit_tables_extend(o1, k1, a1, report_views(out@), ancestors_out.keys(), path_views(*ancestors_out), c.2)
            }),
        decreases deps.len() - j,
    {
        let child = normalize_name(deps[j].0.as_str());
        let ghost cur = node_views(seen@).to_set();
        let ghost oc = report_views(out@);
        let ghost kc = ancestors_out.keys();
        let ghost ac = path_views(*ancestors_out);
        let ghost prev = audit_edges(*lock, edges.take(j as int), p1, s1, rep1, rts, *vuln_ids, *detail_map);
        proof {
            lemma_unseen_mono(*lock, s1, cur);
        }
        collect_audit(child.as_str(), &deps[j].1, lock, vuln_ids, detail_map, &child_path, roots, seen, ancestors_out, out);
        proof {
            let e = edges.take(j + 1);
            assert(e.drop_last() =~= edges.take(j as int));
            assert(e.last() == (deps@[j as int].0@, deps@[j as int].1.deep_view()));
            assert(s1.union(cur) =~= cur);
            let c = audit_visit(*lock, child@, deps@[j as int].1.deep_view(), p1, cur, kc.to_set(), rts, *vuln_ids, *detail_map);
            lemma_tables_extend(o1, k1, a1, oc, kc, ac, report_views(out@), ancestors_out.keys(), path_views(*ancestors_out), prev.2, c.2);
        }
        j = j + 1;
    }
    proof {
        assert(edges.take(deps.len() as int) =~= edges);
        let c = audit_edges(*lock, edges, p1, s1, rep1, rts, *vuln_ids, *detail_map);
        lemma_tables_extend(o0, k0, a0, o1, k1, a1, report_views(out@), ancestors_out.keys(), path_views(*ancestors_out), out1, c.2);
    }
}

/// Builds the `CveInfo` of one id.
pub fn cve_info(id: &String, details: &StringMap<OsvVulnDetail>) -> (r: CveInfo)
    requires
        details.wf(),
    ensures
        cve_view(r) == cve_for(id@, *details),
{
    match details.get_ref(id.as_str()) {
        Some(d) => {
            let summary = match &d.summary {
                Some(s) => Some(s.clone()),
                None => None,
            };
            let det = match &d.details {
                Some(s) => Some(s.clone()),
                None => None,
            };
            CveInfo {
                id: id.clone(),
                summary,
                details: det,
                severity: extract_severity(d),
                fix_version: extract_fix_version(d),
                last_affected_version: extract_last_affected(d),
                advisory_url: extract_advisory_url(d),
            }
        },
        None => CveInfo {
            id: id.clone(),
            summary: None,
            details: None,
            severity: None,
            fix_version: None,
            last_affected_version: None,
            advisory_url: None,
        },
    }
}

/// Everything a scan found. Besides the report, it keeps the tables the report was
/// built from, so that remediation advice needs no second round of queries.
pub struct ScanResult {
    pub total_scanned: usize,
    pub vulnerabilities: Vec<VulnerabilityReport>,
    /// Each reported package, mapped to the path that introduced it.
    pub ancestors_map: StringMap<Vec<String>>,
    /// Each package with listed vulnerabilities whose records were not withdrawn,
    /// mapped to those ids.
    pub vuln_ids: StringMap<Vec<String>>,
    /// The fetched records, by id.
    pub detail_map: StringMap<OsvVulnDetail>,
    pub lock_map: LockMap,
}

impl ScanResult {
    /// The tables are well formed, and the map of paths holds exactly the reported
    /// packages, in report order, each with its listed vulnerabilities.
    pub open spec fn wf(self) -> bool {
        &&& self.lock_map.wf()
        &&& self.vuln_ids.wf()
        &&& self.detail_map.wf()
        &&& self.ancestors_map.wf()
        &&& self.ancestors_map.keys() == report_views(self.vulnerabilities@).map_values(
            |x: ReportSpec| x.package,
        )
        &&& self.ancestors_map.values().map_values(|v: Vec<String>| v.deep_view()) == report_views(
            self.vulnerabilities@,
        ).map_values(|x: ReportSpec| x.ancestors)
        &&& forall|i: int|
            0 <= i < self.ancestors_map.keys().len() ==> #[trigger] self.vuln_ids.get(
                self.ancestors_map.keys()[i],
            ) is Some
    }
}


/// The package names that the requirements name.
pub fn requirement_roots(dependencies: &Vec<String>) -> (r: Vec<String>)
    ensures
        r.deep_view() == root_names(dependencies.deep_view()),
{
    let mut r: Vec<String> = Vec::new();
    let mut i: usize = 0;
    while i < dependencies.len()
        invariant
            i <= dependencies.len(),
            r.deep_view() == root_names(dependencies.deep_view().take(i as int)),
        decreases dependencies.len() - i,
    {
        let base = extract_name(dependencies[i].as_str());
        let name = normalize_name(base.as_str());
        let ghost before = r.deep_view();
        r.push(name);
        assert(r.deep_view() =~= before.push(name@));
        i = i + 1;
        assert(root_names(dependencies.deep_view().take(i as int)) =~= root_names(
            dependencies.deep_view().take(i - 1),
        ).push(name@));
    }
    assert(dependencies.deep_view().take(dependencies.len() as int) =~= dependencies.deep_view());
    r
}

/// Whether the fetched record of `id` says it was withdrawn.
pub open spec fn is_withdrawn(details: StringMap<OsvVulnDetail>, id: Seq<char>) -> bool {
    details.get(id) matches Some(d) && d.withdrawn is Some
}

/// The ids whose records were not withdrawn, in order.
pub open spec fn live_ids(ids: Seq<Seq<char>>, details: StringMap<OsvVulnDetail>) -> Seq<Seq<char>>
    decreases ids.len(),
{
    if ids.len() == 0 {
        seq![]
    } else {
        let r = live_ids(ids.drop_last(), details);
        if is_withdrawn(details, ids.last()) {
            r
        } else {
            r.push(ids.last())
        }
    }
}

/// `t` is the table of listed ids with the withdrawn ones left out: each package
/// keeps its ids whose records were not withdrawn, and a package left with none is
/// not in it.
pub open spec fn live_table(t: StringMap<Vec<String>>, vuln_ids: StringMap<Vec<String>>, details: StringMap<OsvVulnDetail>) -> bool {
    &&& t.wf()
    &&& forall|name: Seq<char>| #[trigger] t.get(name) is Some <==> live_ids(ids_of(vuln_ids, name), details).len() > 0
    &&& forall|name: Seq<char>| #[trigger] ids_of(t, name) == live_ids(ids_of(vuln_ids, name), details)
}

/// The ids of the list whose records were not withdrawn.
fn live_list(ids: &Vec<String>, details: &StringMap<OsvVulnDetail>) -> (r: Vec<String>)
    requires
        details.wf(),
    ensures
        r.deep_view() == live_ids(ids.deep_view(), *details),
{
    let ghost v = ids.deep_view();
    let mut r: Vec<String> = Vec::new();
    let mut i: usize = 0;
    assert(v.take(0) =~= Seq::<Seq<char>>::empty());
    while i < ids.len()
        invariant
            i <= ids.len(),
            v == ids.deep_view(),
            details.wf(),
            r.deep_view() == live_ids(v.take(i as int), *details),
        decreases ids.len() - i,
    {
        assert(v.take(i + 1).drop_last() =~= v.take(i as int));
        assert(v.take(i + 1).last() == ids@[i as int]@);
        let withdrawn = match details.get_ref(ids[i].as_str()) {
            Some(d) => d.withdrawn.is_some(),
            None => false,
        };
        if !withdrawn {
            let ghost before = r.deep_view();
            r.push(ids[i].clone());
            assert(r.deep_view() =~= before.push(ids@[i as int]@));
        }
        i = i + 1;
    }
    assert(v.take(ids.len() as int) =~= v);
    r
}

/// The table of listed ids with the ids of withdrawn records left out, and the
/// packages left with no id dropped.
pub fn drop_withdrawn(vuln_ids: &StringMap<Vec<String>>, details: &StringMap<OsvVulnDetail>) -> (r: StringMap<Vec<String>>)
    requires
        vuln_ids.wf(),
        details.wf(),
    ensures
        live_table(r, *vuln_ids, *details),
{
    let ghost keys = vuln_ids.keys();
    let mut r: StringMap<Vec<String>> = StringMap::new();
    let mut i: usize = 0;
    while i < vuln_ids.len()
        invariant
            i <= keys.len(),
            keys == vuln_ids.keys(),
            vuln_ids.wf(),
            details.wf(),
            r.wf(),
            forall|name: Seq<char>| #[trigger] r.get(name) is Some <==> (keys.take(i as int).contains(name)
                && live_ids(ids_of(*vuln_ids, name), *details).len() > 0),
            forall|name: Seq<char>| keys.take(i as int).contains(name) ==> #[trigger] ids_of(r, name) == live_ids(
                ids_of(*vuln_ids, name),
                *details,
            ),
        decreases keys.len() - i,
    {
        let k = vuln_ids.key_at(i);
        let ids = vuln_ids.value_at(i);
        proof {
            crate::lock::lemma_lookup(keys, k@);
            let j = lookup(keys, k@)->0;
            assert(j == i) by {
                if j != i {
                    assert(keys[j] == keys[i as int]);
                }
            }
            assert(ids_of(*vuln_ids, k@) == ids.deep_view());
            assert(!keys.take(i as int).contains(k@)) by {
                if keys.take(i as int).contains(k@) {
                    let m = choose|m: int| 0 <= m < i && #[trigger] keys.take(i as int)[m] == k@;
                    assert(keys[m] == keys[i as int]);
                }
            }
            assert(r.get(k@) is None);
            assert forall|name: Seq<char>| #[trigger] keys.take(i + 1).contains(name) <==> (keys.take(i as int).contains(name)
                || name == k@) by {
                assert(keys.take(i + 1) =~= keys.take(i as int).push(k@));
                if keys.take(i + 1).contains(name) && name != k@ {
                    let m = choose|m: int| 0 <= m < i + 1 && #[trigger] keys.take(i + 1)[m] == name;
                    assert(keys.take(i as int)[m] == name);
                }
                if keys.take(i as int).contains(name) {
                    let m = choose|m: int| 0 <= m < i && #[trigger] keys.take(i as int)[m] == name;
                    assert(keys.take(i + 1)[m] == name);
                }
                if name == k@ {
                    assert(keys.take(i + 1)[i as int] == name);
                }
            }
        }
        let live = live_list(ids, details);
        let ghost r0 = r;
        if live.len() > 0 {
            r.insert(k.clone(), live);
        }
        proof {
            assert forall|name: Seq<char>| #[trigger] r.get(name) is Some <==> (keys.take(i + 1).contains(name)
                && live_ids(ids_of(*vuln_ids, name), *details).len() > 0) by {}
            assert forall|name: Seq<char>| keys.take(i + 1).contains(name) implies #[trigger] ids_of(r, name) == live_ids(
                ids_of(*vuln_ids, name),
                *details,
            ) by {
                if name == k@ && live.len() == 0 {
                    assert(r.get(name) is None);
                    assert(live.deep_view() =~= Seq::<Seq<char>>::empty());
                } else if name != k@ {
                    assert(keys.take(i as int).contains(name));
                    assert(r.get(name) == r0.get(name));
                    assert(ids_of(r0, name) == live_ids(ids_of(*vuln_ids, name), *details));
                }
            }
        }
        i = i + 1;
    }
    proof {
        assert(keys.take(keys.len() as int) =~= keys);
        assert forall|name: Seq<char>| #[trigger] r.get(name) is Some <==> live_ids(ids_of(*vuln_ids, name), *details).len() > 0 by {
            assert(keys.take(keys.len() as int).contains(name) == keys.contains(name));
            if !keys.contains(name) {
                crate::lock::lemma_lookup(keys, name);
                assert(ids_of(*vuln_ids, name) == Seq::<Seq<char>>::empty());
                assert(live_ids(Seq::<Seq<char>>::empty(), *details) == Seq::<Seq<char>>::empty());
            }
        }
        assert forall|name: Seq<char>| #[trigger] ids_of(r, name) == live_ids(ids_of(*vuln_ids, name), *details) by {
            assert(keys.take(keys.len() as int).contains(name) == keys.contains(name));
            if !keys.contains(name) {
                crate::lock::lemma_lookup(keys, name);
                assert(ids_of(*vuln_ids, name) == Seq::<Seq<char>>::empty());
                assert(live_ids(Seq::<Seq<char>>::empty(), *details) == Seq::<Seq<char>>::empty());
                assert(r.get(name) is None);
            }
        }
    }
    r
}

/// What a visit's reports satisfy: each package has listed vulnerabilities; a report
/// with an empty path comes from a visit along an empty path of the visited name;
/// a report with a non-empty path is of a package that no requirement names.
pub open spec fn reports_placed(
    reports: Seq<ReportSpec>,
    name: Option<Seq<char>>,
    path: Seq<Seq<char>>,
    roots: Seq<Seq<char>>,
    vuln_ids: StringMap<Vec<String>>,
    details: StringMap<OsvVulnDetail>,
) -> bool {
    forall|k: int|
        0 <= k < reports.len() ==> vuln_ids.get((#[trigger] reports[k]).package) is Some && (reports[k].ancestors.len()
            == 0 ==> path.len() == 0 && name == Some(reports[k].package)) && (reports[k].ancestors.len() > 0
            ==> !roots.contains(reports[k].package)) && reports[k].cves == cves_of(reports[k].package, vuln_ids, details)
}


/// The reports of a visit are placed.
pub proof fn lemma_visit_placed(
    lock: LockMap,
    name: Seq<char>,
    extras: Seq<Seq<char>>,
    path: Seq<Seq<char>>,
    seen: Set<Node>,
    reported: Set<Seq<char>>,
    roots: Seq<Seq<char>>,
    vuln_ids: StringMap<Vec<String>>,
    details: StringMap<OsvVulnDetail>,
)
    ensures
        reports_placed(
            audit_visit(lock, name, extras, path, seen, reported, roots, vuln_ids, details).2,
            Some(name),
            path,
            roots,
            vuln_ids,
            details,
        ),
    decreases unseen(lock, seen), 0nat,
{
    let now = may_report(name, path, vuln_ids, roots) && !reported.contains(name);
    let rep1 = if now { reported.insert(name) } else { reported };
    let out1: Seq<ReportSpec> = if now {
        seq![report_of(name, path, lock, vuln_ids, details)]
    } else {
        seq![]
    };
    assert(reports_placed(out1, Some(name), path, roots, vuln_ids, details));
    if let Some(i) = lookup(lock.keys(), name) {
        let pkg = lock.packages()[i];
        let base_new = !seen.contains((name, None::<Seq<char>>));
        let xs = fresh_extras(pkg, name, extras, seen);
        if base_new || xs.len() > 0 {
            lemma_collect_step(lock, name, extras, seen);
            let seen1 = seen.insert((name, None::<Seq<char>>)).union(marks(name, xs));
            let edges = (if base_new {
                edges_of(base_deps(pkg))
            } else {
                seq![]
            }) + extra_edges(groups_of(pkg), xs);
            let p1 = enter(path, name);
            lemma_position_on(path, name);
            assert(p1.len() > 0);
            lemma_edges_placed(lock, edges, p1, seen1, rep1, roots, vuln_ids, details);
            let r = audit_edges(lock, edges, p1, seen1, rep1, roots, vuln_ids, details);
            let all = out1 + r.2;
            assert forall|k: int| 0 <= k < all.len() implies vuln_ids.get((#[trigger] all[k]).package) is Some && (
            all[k].ancestors.len() == 0 ==> path.len() == 0 && Some(name) == Some(all[k].package)) && (
            all[k].ancestors.len() > 0 ==> !roots.contains(all[k].package)) && all[k].cves == cves_of(all[k].package, vuln_ids, details) by {
                if k < out1.len() {
                    assert(all[k] == out1[k]);
                } else {
                    assert(all[k] == r.2[k - out1.len()]);
                }
            }
        }
    }
}

/// The reports of the visits along a list of edges are placed, none with an empty
/// path when the visits' path is not empty.
pub proof fn lemma_edges_placed(
    lock: LockMap,
    edges: Seq<Edge>,
    path: Seq<Seq<char>>,
    seen: Set<Node>,
    reported: Set<Seq<char>>,
    roots: Seq<Seq<char>>,
    vuln_ids: StringMap<Vec<String>>,
    details: StringMap<OsvVulnDetail>,
)
    requires
        path.len() > 0,
    ensures
        reports_placed(audit_edges(lock, edges, path, seen, reported, roots, vuln_ids, details).2, None, path, roots, vuln_ids, details),
    decreases unseen(lock, seen), edges.len() + 1,
{
    if edges.len() > 0 {
        lemma_edges_placed(lock, edges.drop_last(), path, seen, reported, roots, vuln_ids, details);
        let r1 = audit_edges(lock, edges.drop_last(), path, seen, reported, roots, vuln_ids, details);
        let s1 = seen.union(r1.0);
        lemma_unseen_mono(lock, seen, s1);
        let child = normalized(edges.last().0);
        lemma_visit_placed(lock, child, edges.last().1, path, s1, r1.1, roots, vuln_ids, details);
        let r2 = audit_visit(lock, child, edges.last().1, path, s1, r1.1, roots, vuln_ids, details);
        let all = r1.2 + r2.2;
        assert forall|k: int| 0 <= k < all.len() implies vuln_ids.get((#[trigger] all[k]).package) is Some && (
        all[k].ancestors.len() == 0 ==> path.len() == 0 && None::<Seq<char>> == Some(all[k].package)) && (
        all[k].ancestors.len() > 0 ==> !roots.contains(all[k].package)) && all[k].cves == cves_of(all[k].package, vuln_ids, details) by {
            if k < r1.2.len() {
                assert(all[k] == r1.2[k]);
            } else {
                assert(all[k] == r2.2[k - r1.2.len()]);
            }
        }
    }
}

/// The reports of the visits from the requirements: each package has listed
/// vulnerabilities, a report has an empty path only for a package that a
/// requirement names, and otherwise is of a package that `roots` does not hold.
pub proof fn lemma_requirements_placed(
    lock: LockMap,
    reqs: Seq<Seq<char>>,
    seen: Set<Node>,
    reported: Set<Seq<char>>,
    roots: Seq<Seq<char>>,
    vuln_ids: StringMap<Vec<String>>,
    details: StringMap<OsvVulnDetail>,
)
    ensures
        forall|k: int|
            0 <= k < audit_requirements(lock, reqs, seen, reported, roots, vuln_ids, details).2.len() ==> vuln_ids.get(
                (#[trigger] audit_requirements(lock, reqs, seen, reported, roots, vuln_ids, details).2[k]).package,
            ) is Some && (audit_requirements(lock, reqs, seen, reported, roots, vuln_ids, details).2[k].ancestors.len() == 0
                ==> root_names(reqs).contains(
                audit_requirements(lock, reqs, seen, reported, roots, vuln_ids, details).2[k].package,
            )) && (audit_requirements(lock, reqs, seen, reported, roots, vuln_ids, details).2[k].ancestors.len() > 0
                ==> !roots.contains(audit_requirements(lock, reqs, seen, reported, roots, vuln_ids, details).2[k].package))
                && audit_requirements(lock, reqs, seen, reported, roots, vuln_ids, details).2[k].cves == cves_of(
                audit_requirements(lock, reqs, seen, reported, roots, vuln_ids, details).2[k].package,
                vuln_ids,
                details,
            ),
    decreases reqs.len(),
{
    if reqs.len() > 0 {
        let t = reqs.drop_last();
        lemma_requirements_placed(lock, t, seen, reported, roots, vuln_ids, details);
        let r1 = audit_requirements(lock, t, seen, reported, roots, vuln_ids, details);
        let name = normalized(requirement_name(reqs.last()));
        lemma_visit_placed(lock, name, requirement_extras(reqs.last()), seq![], r1.0, r1.1, roots, vuln_ids, details);
        let r2 = audit_visit(lock, name, requirement_extras(reqs.last()), seq![], r1.0, r1.1, roots, vuln_ids, details);
        let all = r1.2 + r2.2;
        assert(audit_requirements(lock, reqs, seen, reported, roots, vuln_ids, details).2 == all);
        assert forall|k: int| 0 <= k < all.len() implies vuln_ids.get((#[trigger] all[k]).package) is Some && (
        all[k].ancestors.len() == 0 ==> root_names(reqs).contains(all[k].package)) && (all[k].ancestors.len() > 0
            ==> !roots.contains(all[k].package)) && all[k].cves == cves_of(all[k].package, vuln_ids, details) by {
            if k < r1.2.len() {
                assert(all[k] == r1.2[k]);
                if all[k].ancestors.len() == 0 {
                    let m = choose|m: int| 0 <= m < root_names(t).len() && root_names(t)[m] == all[k].package;
                    assert(root_names(reqs)[m] == root_names(t)[m]);
                }
            } else {
                assert(all[k] == r2.2[k - r1.2.len()]);
                assert(root_names(reqs)[reqs.len() - 1] == name);
            }
        }
    }
}

/// `r` is what `build_scan_result` gives for the requirements `reqs`, `total`
/// scanned packages, the lock file, the listed ids and the fetched records.
pub open spec fn scan_of(
    reqs: Seq<Seq<char>>,
    total: nat,
    lock: LockMap,
    vuln_ids: StringMap<Vec<String>>,
    details: StringMap<OsvVulnDetail>,
    r: ScanResult,
) -> bool {
    &&& r.wf()
    &&& r.total_scanned == total
    &&& live_table(r.vuln_ids, vuln_ids, details)
    &&& report_views(r.vulnerabilities@) == scan_audit(lock, reqs, r.vuln_ids, details).2
    &&& r.lock_map == lock
    &&& r.detail_map == details
}

/// Audits the visits from each requirement of `pyproject.toml` in turn, starting
/// with nothing seen and nothing reported, over the listed ids whose records were
/// not withdrawn, and gathers the scan's findings.
#[verifier::rlimit(40)]
pub fn build_scan_result(
    dependencies: &Vec<String>,
    packages: &Vec<(String, String)>,
    lock_map: LockMap,
    vuln_ids: StringMap<Vec<String>>,
    detail_map: StringMap<OsvVulnDetail>,
) -> (r: ScanResult)
    requires
        lock_map.wf(),
        vuln_ids.wf(),
        detail_map.wf(),
    ensures
        scan_of(dependencies.deep_view(), packages.len() as nat, lock_map, vuln_ids, detail_map, r),
        forall|i: int|
            0 <= i < r.vulnerabilities.len() ==> ((#[trigger] r.vulnerabilities@[i]).ancestors.len() == 0
                <==> root_names(dependencies.deep_view()).contains(r.vulnerabilities@[i].package@)),
{
    let ghost reqs = dependencies.deep_view();
    let live = drop_withdrawn(&vuln_ids, &detail_map);
    let roots = requirement_roots(dependencies);
    let mut seen: Vec<(String, Option<String>)> = Vec::new();
    let mut ancestors_map: StringMap<Vec<String>> = StringMap::new();
    let mut out: Vec<VulnerabilityReport> = Vec::new();
    let root: Vec<String> = Vec::new();
    let mut i: usize = 0;
    assert(reqs.take(0) =~= Seq::<Seq<char>>::empty());
    assert(node_views(seen@).to_set() =~= Set::<Node>::empty());
    assert(ancestors_map.keys().to_set() =~= Set::<Seq<char>>::empty());
    assert(report_views(out@) =~= Seq::<ReportSpec>::empty());
    assert(path_views(ancestors_map) =~= Seq::<Seq<Seq<char>>>::empty()) by {
        assert(ancestors_map.values().len() == ancestors_map.keys().len());
    }
    assert(audit_tables_extend(
        Seq::<ReportSpec>::empty(),
        Seq::<Seq<char>>::empty(),
        Seq::<Seq<Seq<char>>>::empty(),
        report_views(out@),
        ancestors_map.keys(),
        path_views(ancestors_map),
        Seq::<ReportSpec>::empty(),
    ));
    while i < dependencies.len()
        invariant
            i <= dependencies.len(),
            reqs == dependencies.deep_view(),
            root.deep_view() == Seq::<Seq<char>>::empty(),
            lock_map.wf(),
            live.wf(),
            detail_map.wf(),
            ancestors_map.wf(),
            roots.deep_view() == root_names(reqs),
            ({
                let c = audit_requirements(lock_map, reqs.take(i as int), Set::empty(), Set::empty(), root_names(reqs), live, detail_map);
                &&& node_views(seen@).to_set() == c.0
                &&& ancestors_map.keys().to_set() == c.1
                &&& audit_tables_extend(
                    Seq::<ReportSpec>::empty(),
                    Seq::<Seq<char>>::empty(),
                    Seq::<Seq<Seq<char>>>::empty(),
                    report_views(out@),
                    ancestors_map.keys(),
                    path_views(ancestors_map),
                    c.2,
                )
            }),
        decreases dependencies.len() - i,
    {
        let raw = dependencies[i].as_str();
        let base = extract_name(raw);
        let name = normalize_name(base.as_str());
        let extras = extract_extras(raw);
        let ghost prev = audit_requirements(lock_map, reqs.take(i as int), Set::empty(), Set::empty(), root_names(reqs), live, detail_map);
        let ghost o1 = report_views(out@);
        let ghost k1 = ancestors_map.keys();
        let ghost a1 = path_views(ancestors_map);
        collect_audit(
            name.as_str(),
            &extras,
            &lock_map,
            &live,
            &detail_map,
            &root,
            &roots,
            &mut seen,
            &mut ancestors_map,
            &mut out,
        );
        proof {
            let r = reqs.take(i + 1);
            assert(r.drop_last() =~= reqs.take(i as int));
            assert(r.last() == dependencies@[i as int]@);
            assert(root.deep_view() =~= Seq::<Seq<char>>::empty());
            let c = audit_visit(lock_map, name@, extras.deep_view(), seq![], prev.0, prev.1, root_names(reqs), live, detail_map);
            lemma_tables_extend(
                Seq::<ReportSpec>::empty(),
                Seq::<Seq<char>>::empty(),
                Seq::<Seq<Seq<char>>>::empty(),
                o1,
                k1,
                a1,
                report_views(out@),
                ancestors_map.keys(),
                path_views(ancestors_map),
                prev.2,
                c.2,
            );
        }
        i = i + 1;
    }
    assert(reqs.take(dependencies.len() as int) =~= reqs);
    proof {
        let c = scan_audit(lock_map, reqs, live, detail_map);
        assert(report_views(out@) =~= c.2);
        assert(ancestors_map.keys() =~= c.2.map_values(|x: ReportSpec| x.package));
        assert(path_views(ancestors_map) =~= c.2.map_values(|x: ReportSpec| x.ancestors));
        lemma_requirements_placed(lock_map, reqs, Set::empty(), Set::empty(), root_names(reqs), live, detail_map);
        assert forall|k: int| 0 <= k < ancestors_map.keys().len() implies #[trigger] live.get(ancestors_map.keys()[k]) is Some by {
            assert(ancestors_map.keys()[k] == c.2[k].package);
        }
        let reps = report_views(out@);
        assert forall|k: int| 0 <= k < out.len() implies ((#[trigger] out@[k]).ancestors.len() == 0 <==> root_names(
            reqs,
        ).contains(out@[k].package@)) by {
            assert(reps[k] == report_view(out@[k]));
            assert(reps[k] == c.2[k]);
            assert(out@[k].ancestors.deep_view().len() == out@[k].ancestors.len());
        }
    }
    ScanResult {
        total_scanned: packages.len(),
        vulnerabilities: out,
        ancestors_map,
        vuln_ids: live,
        detail_map,
        lock_map,
    }
}

/// In a well-formed scan, the path kept for each reported package is the path
/// that its report shows.
pub proof fn lemma_kept_paths(result: ScanResult)
    requires
        result.wf(),
    ensures
        forall|i: int|
            0 <= i < result.vulnerabilities.len() ==> (result.ancestors_map.get(
                (#[trigger] result.vulnerabilities@[i]).package@,
            ) matches Some(a) && a.deep_view() == result.vulnerabilities@[i].ancestors.deep_view()),
{
    let keys = result.ancestors_map.keys();
    let reps = report_views(result.vulnerabilities@);
    assert forall|i: int| 0 <= i < result.vulnerabilities.len() implies (result.ancestors_map.get(
        (#[trigger] result.vulnerabilities@[i]).package@,
    ) matches Some(a) && a.deep_view() == result.vulnerabilities@[i].ancestors.deep_view()) by {
        let name = result.vulnerabilities@[i].package@;
        assert(reps[i].package == name);
        assert(keys[i] == reps.map_values(|x: ReportSpec| x.package)[i]);
        crate::lock::lemma_lookup(keys, name);
        let j = lookup(keys, name)->0;
        assert(j == i) by {
            if j != i {
                assert(keys[j] == keys[i]);
            }
        }
        assert(result.ancestors_map.values().map_values(|v: Vec<String>| v.deep_view())[i]
            == reps.map_values(|x: ReportSpec| x.ancestors)[i]);
    }
}

} // verus!
