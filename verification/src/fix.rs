//! Remediation advice: for each vulnerable package, the upgrade that fixes what
//! can be fixed, how far it reaches, and how to apply it.
use vstd::prelude::*;
use crate::audit::{scan_of, build_scan_result, ids_of, lemma_kept_paths, locked_version, report_view, report_views, root_names, ReportSpec, ScanResult};
use crate::lock::LockMap;
use crate::osv::{extract_fix_version, extract_last_affected, fix_version_of, last_affected_of, opt_view, OsvVulnDetail};
use crate::scan::{sort_strings, sorted_strings, str_le};
use crate::store::StringMap;
use crate::version::{bump_of, bump_reason, bump_reason_text, bump_text, bump_type_str, later_version, max_ver};
use crate::lock::clone_strings;

verus! {

/// The advice for one vulnerable package.
#[derive(Debug, Clone)]
pub struct FixSuggestion {
    pub package: String,
    pub current_version: String,
    /// The least version that fixes every fixable vulnerability of the package.
    pub fix_version: Option<String>,
    /// For vulnerabilities with no fix but a last affected version: upgrade beyond this.
    pub last_affected_version: Option<String>,
    /// `PATCH`, `MINOR`, `MAJOR`, or `NONE` when no fix exists.
    pub bump_type: String,
    pub is_direct: bool,
    /// The path of packages that introduced it; empty for a direct dependency.
    pub ancestors: Vec<String>,
    pub total_cve_count: usize,
    /// Ids of the vulnerabilities with neither a fix version nor a last affected version.
    pub unfixable_cve_ids: Vec<String>,
    /// Why upgrading a transitive dependency in place is safe (option A).
    pub option_a_reason: String,
    /// The package that directly requires a transitive dependency.
    pub immediate_parent: Option<String>,
    pub immediate_parent_version: Option<String>,
    /// The requirement of `pyproject.toml` that pulls a transitive dependency in.
    pub tier1_dep: Option<String>,
}

/// The contents of a `FixSuggestion`.
pub struct FixSpec {
    pub package: Seq<char>,
    pub current_version: Seq<char>,
    pub fix_version: Option<Seq<char>>,
    pub last_affected_version: Option<Seq<char>>,
    pub bump_type: Seq<char>,
    pub is_direct: bool,
    pub ancestors: Seq<Seq<char>>,
    pub total_cve_count: nat,
    pub unfixable_cve_ids: Seq<Seq<char>>,
    pub option_a_reason: Seq<char>,
    pub immediate_parent: Option<Seq<char>>,
    pub immediate_parent_version: Option<Seq<char>>,
    pub tier1_dep: Option<Seq<char>>,
}

pub open spec fn fix_view(f: FixSuggestion) -> FixSpec {
    FixSpec {
        package: f.package@,
        current_version: f.current_version@,
        fix_version: opt_view(f.fix_version),
        last_affected_version: opt_view(f.last_affected_version),
        bump_type: f.bump_type@,
        is_direct: f.is_direct,
        ancestors: f.ancestors.deep_view(),
        total_cve_count: f.total_cve_count as nat,
        unfixable_cve_ids: f.unfixable_cve_ids.deep_view(),
        option_a_reason: f.option_a_reason@,
        immediate_parent: opt_view(f.immediate_parent),
        immediate_parent_version: opt_view(f.immediate_parent_version),
        tier1_dep: opt_view(f.tier1_dep),
    }
}

pub open spec fn fix_views(fs: Seq<FixSuggestion>) -> Seq<FixSpec> {
    fs.map_values(|f: FixSuggestion| fix_view(f))
}

/// The packages that a list of advice is for, in order.
pub open spec fn advice_names(fs: Seq<FixSuggestion>) -> Seq<Seq<char>> {
    fix_views(fs).map_values(|f: FixSpec| f.package)
}

/// The later of an optional version and a version.
pub open spec fn raise(cur: Option<Seq<char>>, v: Seq<char>) -> Option<Seq<char>> {
    match cur {
        Some(c) => Some(later_version(c, v)),
        None => Some(v),
    }
}

/// Going through the ids of a package in order: the latest fix version among the
/// records that name one; the latest last affected version among the records
/// that name no fix but one; and the ids whose records name neither. Ids without a
/// fetched record count in none of the three.
pub open spec fn fix_summary(ids: Seq<Seq<char>>, details: StringMap<OsvVulnDetail>) -> (
    Option<Seq<char>>,
    Option<Seq<char>>,
    Seq<Seq<char>>,
)
    decreases ids.len(),
{
    if ids.len() == 0 {
        (None, None, seq![])
    } else {
        let r = fix_summary(ids.drop_last(), details);
        let id = ids.last();
        match details.get(id) {
            None => r,
            Some(d) => match fix_version_of(d) {
                Some(v) => (raise(r.0, v), r.1, r.2),
                None => match last_affected_of(d) {
                    Some(la) => (r.0, raise(r.1, la), r.2),
                    None => (r.0, r.1, r.2.push(id)),
                },
            },
        }
    }
}

/// The advice for the vulnerable package `name`, introduced through `ancestors`.
pub open spec fn suggestion_for(
    name: Seq<char>,
    ancestors: Seq<Seq<char>>,
    ids: Seq<Seq<char>>,
    lock: LockMap,
    details: StringMap<OsvVulnDetail>,
) -> FixSpec {
    let current = locked_version(lock, name);
    let s = fix_summary(ids, details);
    let direct = ancestors.len() == 0;
    let parent = if direct { None } else { Some(ancestors.last()) };
    let parent_ver = if direct { None } else { Some(locked_version(lock, ancestors.last())) };
    FixSpec {
        package: name,
        current_version: current,
        fix_version: s.0,
        last_affected_version: s.1,
        bump_type: match s.0 {
            Some(v) => bump_text(bump_of(current, v)),
            None => "NONE"@,
        },
        is_direct: direct,
        ancestors,
        total_cve_count: ids.len(),
        unfixable_cve_ids: s.2,
        option_a_reason: match s.0 {
            Some(v) => if direct {
                seq![]
            } else {
                bump_reason_text(current, v, ancestors.last(), locked_version(lock, ancestors.last()))
            },
            None => seq![],
        },
        immediate_parent: parent,
        immediate_parent_version: parent_ver,
        tier1_dep: if direct { None } else { Some(ancestors[0]) },
    }
}

/// The locked version of `name`, or `?`.
fn version_or_unknown(lock: &LockMap, name: &str) -> (r: String)
    requires
        lock.wf(),
    ensures
        r@ == locked_version(*lock, name@),
{
    match lock.find(name) {
        Some(i) => lock.package(i).version.clone(),
        None => "?".to_owned(),
    }
}

fn raise_exec(cur: Option<String>, v: String) -> (r: Option<String>)
    ensures
        opt_view(r) == raise(opt_view(cur), v@),
{
    match cur {
        Some(c) => {
            let m = max_ver(c.as_str(), v.as_str());
            Some(m.to_owned())
        },
        None => Some(v),
    }
}

/// The advice for one vulnerable package.
pub fn suggestion(
    name: &String,
    ancestors: &Vec<String>,
    ids: &Vec<String>,
    lock: &LockMap,
    details: &StringMap<OsvVulnDetail>,
) -> (r: FixSuggestion)
    requires
        lock.wf(),
        details.wf(),
    ensures
        fix_view(r) == suggestion_for(name@, ancestors.deep_view(), ids.deep_view(), *lock, *details),
{
    let current = version_or_unknown(lock, name.as_str());
    let is_direct = ancestors.len() == 0;
    let ghost idv = ids.deep_view();
    let mut min_safe: Option<String> = None;
    let mut min_last_affected: Option<String> = None;
    let mut unfixable: Vec<String> = Vec::new();
    let mut k: usize = 0;
    assert(idv.take(0) =~= Seq::<Seq<char>>::empty());
    assert(unfixable.deep_view() =~= Seq::<Seq<char>>::empty());
    while k < ids.len()
        invariant
            k <= ids.len(),
            idv == ids.deep_view(),
            details.wf(),
            ({
                let s = fix_summary(idv.take(k as int), *details);
                &&& opt_view(min_safe) == s.0
                &&& opt_view(min_last_affected) == s.1
                &&& unfixable.deep_view() == s.2
            }),
        decreases ids.len() - k,
    {
        assert(idv.take(k + 1).drop_last() =~= idv.take(k as int));
        assert(idv.take(k + 1).last() == ids@[k as int]@);
        match details.get_ref(ids[k].as_str()) {
            Some(d) => {
                match extract_fix_version(d) {
                    Some(v) => {
                        min_safe = raise_exec(min_safe, v);
                    },
                    None => {
                        match extract_last_affected(d) {
                            Some(la) => {
                                min_last_affected = raise_exec(min_last_affected, la);
                            },
                            None => {
                                let ghost before = unfixable.deep_view();
                                unfixable.push(ids[k].clone());
                                assert(unfixable.deep_view() =~= before.push(ids@[k as int]@));
                            },
                        }
                    },
                }
            },
            None => {},
        }
        k = k + 1;
    }
    assert(idv.take(ids.len() as int) =~= idv);
    let bump_type = match &min_safe {
        Some(v) => bump_type_str(current.as_str(), v.as_str()).to_owned(),
        None => "NONE".to_owned(),
    };
    let (immediate_parent, immediate_parent_version, tier1_dep) = if is_direct {
        (None, None, None)
    } else {
        let parent = ancestors[ancestors.len() - 1].clone();
        let parent_ver = version_or_unknown(lock, parent.as_str());
        (Some(parent), Some(parent_ver), Some(ancestors[0].clone()))
    };
    let option_a_reason = match &min_safe {
        Some(safe) => {
            if is_direct {
                String::new()
            } else {
                let last = ancestors.len() - 1;
                let parent_ver = version_or_unknown(lock, ancestors[last].as_str());
                bump_reason(current.as_str(), safe.as_str(), ancestors[last].as_str(), parent_ver.as_str())
            }
        },
        None => String::new(),
    };
    let r = FixSuggestion {
        package: name.clone(),
        current_version: current,
        fix_version: min_safe,
        last_affected_version: min_last_affected,
        bump_type,
        is_direct,
        ancestors: clone_strings(ancestors),
        total_cve_count: ids.len(),
        unfixable_cve_ids: unfixable,
        option_a_reason,
        immediate_parent,
        immediate_parent_version,
        tier1_dep,
    };
    proof {
        if !is_direct {
            assert(ancestors.deep_view().last() == ancestors@[ancestors.len() - 1]@);
        }
    }
    r
}

/// The names that get advice: the packages of the map of paths that have listed
/// vulnerabilities.
pub open spec fn advised(
    ancestors_map: StringMap<Vec<String>>,
    vuln_ids: StringMap<Vec<String>>,
    x: Seq<char>,
) -> bool {
    ancestors_map.keys().contains(x) && vuln_ids.get(x) is Some
}

/// The advice for each package of the map of paths that has listed
/// vulnerabilities, each once, in `str` order of the package names.
pub fn build_fix_suggestions_internal(
    ancestors_map: &StringMap<Vec<String>>,
    vuln_ids: &StringMap<Vec<String>>,
    detail_map: &StringMap<OsvVulnDetail>,
    lock_map: &LockMap,
) -> (r: Vec<FixSuggestion>)
    requires
        ancestors_map.wf(),
        vuln_ids.wf(),
        detail_map.wf(),
        lock_map.wf(),
    ensures
        ({
            let names = fix_views(r@).map_values(|f: FixSpec| f.package);
            &&& names.no_duplicates()
            &&& forall|x: Seq<char>| #[trigger] names.contains(x) <==> advised(*ancestors_map, *vuln_ids, x)
            &&& sorted_strings(names)
        }),
        forall|i: int|
            0 <= i < r.len() ==> #[trigger] fix_view(r@[i]) == suggestion_for(
                r@[i].package@,
                ancestors_map.get(r@[i].package@)->0.deep_view(),
                ids_of(*vuln_ids, r@[i].package@),
                *lock_map,
                *detail_map,
            ),
{
    let mut names: Vec<String> = Vec::new();
    let mut i: usize = 0;
    while i < ancestors_map.len()
        invariant
            i <= ancestors_map.keys().len(),
            names.deep_view() == ancestors_map.keys().take(i as int),
        decreases ancestors_map.keys().len() - i,
    {
        let ghost before = names.deep_view();
        names.push(ancestors_map.key_at(i).clone());
        assert(names.deep_view() =~= before.push(ancestors_map.keys()[i as int]));
        i = i + 1;
        assert(names.deep_view() =~= ancestors_map.keys().take(i as int));
    }
    assert(ancestors_map.keys().take(ancestors_map.keys().len() as int) =~= ancestors_map.keys());
    sort_strings(&mut names);
    let ghost sorted = names.deep_view();
    proof {
        let keys = ancestors_map.keys();
        keys.lemma_multiset_has_no_duplicates();
        assert forall|x: Seq<char>| sorted.to_multiset().contains(x) implies sorted.to_multiset().count(x) == 1 by {
            assert(keys.to_multiset().contains(x));
        }
        sorted.lemma_multiset_has_no_duplicates_conv();
        assert forall|x: Seq<char>| #[trigger] sorted.contains(x) <==> keys.contains(x) by {
            vstd::seq_lib::to_multiset_contains(sorted, x);
            vstd::seq_lib::to_multiset_contains(keys, x);
        }
    }
    let mut r: Vec<FixSuggestion> = Vec::new();
    let mut j: usize = 0;
    while j < names.len()
        invariant
            j <= names.len(),
            sorted == names.deep_view(),
            sorted.no_duplicates(),
            sorted_strings(sorted),
            forall|x: Seq<char>| #[trigger] sorted.contains(x) <==> ancestors_map.keys().contains(x),
            ancestors_map.wf(),
            vuln_ids.wf(),
            detail_map.wf(),
            lock_map.wf(),
            ({
                let rn = fix_views(r@).map_values(|f: FixSpec| f.package);
                &&& rn.no_duplicates()
                &&& sorted_strings(rn)
                &&& forall|a: int| #![trigger rn[a]] 0 <= a < rn.len() ==> exists|k: int| 0 <= k < j && #[trigger] sorted[k] == rn[a]
                &&& forall|x: Seq<char>| #[trigger] rn.contains(x) <==> (sorted.take(j as int).contains(x)
                    && vuln_ids.get(x) is Some)
            }),
            forall|i: int|
                0 <= i < r.len() ==> #[trigger] fix_view(r@[i]) == suggestion_for(
                    r@[i].package@,
                    ancestors_map.get(r@[i].package@)->0.deep_view(),
                    ids_of(*vuln_ids, r@[i].package@),
                    *lock_map,
                    *detail_map,
                ),
        decreases names.len() - j,
    {
        let name = &names[j];
        let ghost rn0 = fix_views(r@).map_values(|f: FixSpec| f.package);
        proof {
            assert(sorted[j as int] == name@);
            assert(sorted.contains(name@));
            crate::lock::lemma_lookup(ancestors_map.keys(), name@);
            assert(sorted.take(j + 1) =~= sorted.take(j as int).push(name@));
            assert forall|x: Seq<char>| #[trigger] sorted.take(j + 1).contains(x) <==> (sorted.take(j as int).contains(x)
                || x == name@) by {
                if sorted.take(j + 1).contains(x) && x != name@ {
                    let k = choose|k: int| 0 <= k < j + 1 && #[trigger] sorted.take(j + 1)[k] == x;
                    assert(sorted.take(j as int)[k] == x);
                }
                if sorted.take(j as int).contains(x) {
                    let k = choose|k: int| 0 <= k < j && #[trigger] sorted.take(j as int)[k] == x;
                    assert(sorted.take(j + 1)[k] == x);
                }
                if x == name@ {
                    assert(sorted.take(j + 1)[j as int] == x);
                }
            }
        }
        match vuln_ids.get_ref(name.as_str()) {
            Some(ids) => {
                match ancestors_map.get_ref(name.as_str()) {
                    Some(ancestors) => {
                        let s = suggestion(name, ancestors, ids, lock_map, detail_map);
                        r.push(s);
                        proof {
                            let rn = fix_views(r@).map_values(|f: FixSpec| f.package);
                            assert(rn =~= rn0.push(name@));
                            assert(!rn0.contains(name@)) by {
                                if rn0.contains(name@) {
                                    let a = choose|a: int| 0 <= a < rn0.len() && #[trigger] rn0[a] == name@;
                                    let k = choose|k: int| 0 <= k < j && #[trigger] sorted[k] == rn0[a];
                                    assert(sorted[k] == sorted[j as int]);
                                }
                            }
                            assert forall|a: int, b: int| 0 <= a < b < rn.len() implies str_le(#[trigger] rn[a], #[trigger] rn[b]) by {
                                if b == rn0.len() {
                                    let k = choose|k: int| 0 <= k < j && #[trigger] sorted[k] == rn0[a];
                                    assert(rn[a] == rn0[a]);
                                    assert(str_le(sorted[k], sorted[j as int]));
                                } else {
                                    assert(rn[a] == rn0[a] && rn[b] == rn0[b]);
                                }
                            }
                            assert forall|a: int| #![trigger rn[a]] 0 <= a < rn.len() implies exists|k: int| 0 <= k < j + 1 && #[trigger] sorted[k] == rn[a] by {
                                if a < rn0.len() {
                                    assert(rn[a] == rn0[a]);
                                    let k = choose|k: int| 0 <= k < j && #[trigger] sorted[k] == rn0[a];
                                    assert(sorted[k] == rn[a]);
                                } else {
                                    assert(sorted[j as int] == rn[a]);
                                }
                            }
                            assert forall|x: Seq<char>| #[trigger] rn.contains(x) <==> rn0.contains(x) || x == name@ by {
                                if rn.contains(x) && x != name@ {
                                    let a = choose|a: int| 0 <= a < rn.len() && #[trigger] rn[a] == x;
                                    assert(rn0[a] == x);
                                }
                                if rn0.contains(x) {
                                    let a = choose|a: int| 0 <= a < rn0.len() && #[trigger] rn0[a] == x;
                                    assert(rn[a] == x);
                                }
                                if x == name@ {
                                    assert(rn[rn0.len() as int] == x);
                                }
                            }
                        }
                    },
                    None => {
                        proof {
                            assert(ancestors_map.keys().contains(name@));
                        }
                    },
                }
            },
            None => {
                proof {
                    assert forall|x: Seq<char>| #[trigger] rn0.contains(x) <==> (sorted.take(j + 1).contains(x)
                        && vuln_ids.get(x) is Some) by {}
                    assert forall|a: int| #![trigger rn0[a]] 0 <= a < rn0.len() implies exists|k: int| 0 <= k < j + 1 && #[trigger] sorted[k] == rn0[a] by {
                        let k = choose|k: int| 0 <= k < j && #[trigger] sorted[k] == rn0[a];
                        assert(sorted[k] == rn0[a]);
                    }
                }
            },
        }
        j = j + 1;
    }
    proof {
        assert(sorted.take(names.len() as int) =~= sorted);
    }
    r
}

/// What the advice for a scan is: one piece for each package of the scan's map of
/// paths that has listed vulnerabilities, each once, in `str` order of the package
/// names, each built by `suggestion_for` from the scan's tables.
pub open spec fn advice_for(result: ScanResult, r: Seq<FixSuggestion>) -> bool {
    let names = advice_names(r);
    &&& names.no_duplicates()
    &&& forall|x: Seq<char>| #[trigger] names.contains(x) <==> advised(result.ancestors_map, result.vuln_ids, x)
    &&& sorted_strings(names)
    &&& forall|i: int|
        0 <= i < r.len() ==> #[trigger] fix_view(r[i]) == suggestion_for(
            r[i].package@,
            result.ancestors_map.get(r[i].package@)->0.deep_view(),
            ids_of(result.vuln_ids, r[i].package@),
            result.lock_map,
            result.detail_map,
        )
}

/// The advice for each vulnerable package of a completed scan, in `str` order of
/// the package names: the packages of the scan's map of paths that have listed
/// vulnerabilities; for a scan built by `build_scan_result`, the reported packages.
pub fn fix_suggestions_from_scan(result: &ScanResult) -> (r: Vec<FixSuggestion>)
    requires
        result.ancestors_map.wf(),
        result.vuln_ids.wf(),
        result.detail_map.wf(),
        result.lock_map.wf(),
    ensures
        advice_for(*result, r@),
        result.wf() ==> forall|x: Seq<char>| #[trigger] advice_names(r@).contains(x) <==> report_views(
            result.vulnerabilities@,
        ).map_values(|v: ReportSpec| v.package).contains(x),
        forall|i: int| 0 <= i < r.len() ==> ((#[trigger] r@[i]).is_direct <==> r@[i].ancestors.len() == 0),
{
    let r = build_fix_suggestions_internal(
        &result.ancestors_map,
        &result.vuln_ids,
        &result.detail_map,
        &result.lock_map,
    );
    proof {
        assert forall|i: int| 0 <= i < r.len() implies ((#[trigger] r@[i]).is_direct <==> r@[i].ancestors.len() == 0) by {
            assert(fix_view(r@[i]).ancestors.len() == r@[i].ancestors.len());
        }
        if result.wf() {
            let names = fix_views(r@).map_values(|f: FixSpec| f.package);
            let keys = result.ancestors_map.keys();
            assert forall|x: Seq<char>| #[trigger] names.contains(x) <==> keys.contains(x) by {
                if keys.contains(x) {
                    let k = choose|k: int| 0 <= k < keys.len() && #[trigger] keys[k] == x;
                    assert(result.vuln_ids.get(keys[k]) is Some);
                }
            }
        }
    }
    r
}

/// Audits a project and returns the advice for its vulnerable packages in one call:
/// the advice that `fix_suggestions_from_scan` gives for the scan of the project.
pub fn fix_suggestions(
    dependencies: &Vec<String>,
    packages: &Vec<(String, String)>,
    lock_map: LockMap,
    vuln_ids: StringMap<Vec<String>>,
    detail_map: StringMap<OsvVulnDetail>,
) -> (r: Vec<FixSuggestion>)
    requires
        lock_map.wf(),
        vuln_ids.wf(),
        detail_map.wf(),
    ensures
        exists|scan: ScanResult| {
            &&& scan_of(dependencies.deep_view(), packages.len() as nat, lock_map, vuln_ids, detail_map, scan)
            &&& advice_for(scan, r@)
            &&& forall|x: Seq<char>| #[trigger] advice_names(r@).contains(x) <==> report_views(
                scan.vulnerabilities@,
            ).map_values(|v: ReportSpec| v.package).contains(x)
            &&& forall|i: int|
                0 <= i < r.len() ==> ((#[trigger] r@[i]).is_direct <==> r@[i].ancestors.len() == 0)
            &&& forall|i: int|
                0 <= i < r.len() ==> ((#[trigger] r@[i]).is_direct <==> root_names(dependencies.deep_view()).contains(
                    r@[i].package@,
                ))
        },
{
    let scan = build_scan_result(dependencies, packages, lock_map, vuln_ids, detail_map);
    let r = fix_suggestions_from_scan(&scan);
    proof {
        lemma_kept_paths(scan);
        let reps = report_views(scan.vulnerabilities@);
        let names = advice_names(r@);
        assert forall|i: int| 0 <= i < r.len() implies ((#[trigger] r@[i]).is_direct <==> root_names(
            dependencies.deep_view(),
        ).contains(r@[i].package@)) by {
            let name = r@[i].package@;
            assert(names[i] == name);
            assert(names.contains(name));
            let pk = reps.map_values(|v: ReportSpec| v.package);
            assert(pk.contains(name));
            let j = choose|j: int| 0 <= j < pk.len() && #[trigger] pk[j] == name;
            assert(reps[j] == report_view(scan.vulnerabilities@[j]));
            assert(scan.vulnerabilities@[j].package@ == name);
            let a = scan.ancestors_map.get(name)->0;
            assert(a.deep_view() == scan.vulnerabilities@[j].ancestors.deep_view());
            assert(fix_view(r@[i]).ancestors == a.deep_view());
            assert(scan.vulnerabilities@[j].ancestors.deep_view().len() == scan.vulnerabilities@[j].ancestors.len());
            assert(r@[i].ancestors.deep_view().len() == r@[i].ancestors.len());
        }
    }
    r
}

} // verus!
