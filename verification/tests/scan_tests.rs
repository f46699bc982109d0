use py_uv_audit::audit::{build_scan_result, ScanResult};
use py_uv_audit::collect::scan_packages;
use py_uv_audit::fix::{build_fix_suggestions_internal, fix_suggestions, fix_suggestions_from_scan};
use py_uv_audit::graph::dependency_tree;
use py_uv_audit::lock::{LockMap, LockedDep, LockedPackage};
use py_uv_audit::osv::{OsvAffected, OsvEvent, OsvRange, OsvReference, OsvSeverity, OsvVulnDetail};
use py_uv_audit::report::{render_fix_suggestions, render_scan_report};
use py_uv_audit::scan::{record_batch_results, record_detail, unique_vuln_ids, osv_query_batches};
use py_uv_audit::store::StringMap;

fn dep(name: &str, extra: &[&str]) -> LockedDep {
    LockedDep {
        name: name.to_string(),
        extra: if extra.is_empty() { None } else { Some(extra.iter().map(|s| s.to_string()).collect()) },
        marker: None,
    }
}

fn pkg(name: &str, version: &str, deps: Vec<LockedDep>, opt: Vec<(&str, Vec<LockedDep>)>) -> LockedPackage {
    LockedPackage {
        name: name.to_string(),
        version: version.to_string(),
        dependencies: if deps.is_empty() { None } else { Some(deps) },
        optional_dependencies: if opt.is_empty() {
            None
        } else {
            Some(opt.into_iter().map(|(k, v)| (k.to_string(), v)).collect())
        },
    }
}

fn sample_lock() -> LockMap {
    LockMap::from_packages(vec![
        pkg("Flask", "3.0.0", vec![dep("Werkzeug", &[]), dep("click", &[])], vec![("async", vec![dep("asgiref", &[])])]),
        pkg("werkzeug", "3.0.1", vec![dep("MarkupSafe", &[])], vec![]),
        pkg("click", "8.1.7", vec![dep("flask", &[])], vec![]),
        pkg("asgiref", "3.7.2", vec![], vec![]),
    ])
}

fn requirements() -> Vec<String> {
    vec!["flask[async]>=3.0".to_string(), "requests".to_string()]
}

fn event(fixed: Option<&str>, last: Option<&str>) -> OsvEvent {
    OsvEvent { fixed: fixed.map(|s| s.to_string()), introduced: Some("0".to_string()), last_affected: last.map(|s| s.to_string()) }
}

fn detail(id: &str, summary: Option<&str>, events: Vec<OsvEvent>) -> OsvVulnDetail {
    OsvVulnDetail {
        id: id.to_string(),
        summary: summary.map(|s| s.to_string()),
        details: None,
        aliases: None,
        severity: None,
        affected: Some(vec![OsvAffected { ranges: Some(vec![OsvRange { events: Some(events) }]) }]),
        references: None,
        severity_label: None,
        withdrawn: None,
    }
}

fn sample_tables() -> (StringMap<Vec<String>>, StringMap<OsvVulnDetail>) {
    let mut ids = StringMap::new();
    ids.insert("werkzeug".to_string(), vec!["GHSA-b".to_string(), "GHSA-a".to_string()]);
    ids.insert("flask".to_string(), vec!["PYSEC-1".to_string()]);
    let mut details = StringMap::new();
    let mut b = detail("GHSA-b", Some("bad"), vec![event(None, None), event(Some("3.0.6"), None)]);
    b.severity_label = Some("HIGH".to_string());
    b.severity = Some(vec![OsvSeverity { severity_type: "CVSS_V3".to_string(), score: "x".to_string() }]);
    b.references = Some(vec![
        OsvReference { ref_type: "WEB".to_string(), url: "https://example.org".to_string() },
        OsvReference { ref_type: "ADVISORY".to_string(), url: "https://github.com/advisories/GHSA-b".to_string() },
    ]);
    let mut a = detail("GHSA-a", None, vec![event(Some("3.0.3"), None)]);
    a.aliases = Some(vec!["PYSEC-x".to_string(), "CVE-2024-1".to_string()]);
    record_detail(&mut details, "GHSA-b".to_string(), b);
    record_detail(&mut details, "GHSA-a".to_string(), a);
    (ids, details)
}

fn sample_scan() -> ScanResult {
    let lock = sample_lock();
    let packages = scan_packages(&requirements(), &lock);
    let (ids, details) = sample_tables();
    build_scan_result(&requirements(), &packages, lock, ids, details)
}

#[test]
fn tree_marks_cycles_and_missing_packages() {
    let tree = dependency_tree(&requirements(), &sample_lock());
    assert_eq!(
        tree,
        "flask v3.0.0[async]\n  werkzeug v3.0.1\n    markupsafe [missing]\n  click v8.1.7\n    flask [*]\n  asgiref v3.7.2\nrequests [missing]\n"
    );
}

#[test]
fn tree_without_extras_skips_optional_group() {
    let tree = dependency_tree(&vec!["Flask".to_string()], &sample_lock());
    assert_eq!(
        tree,
        "flask v3.0.0\n  werkzeug v3.0.1\n    markupsafe [missing]\n  click v8.1.7\n    flask [*]\n"
    );
}

#[test]
fn tree_of_empty_project_is_empty() {
    assert_eq!(dependency_tree(&vec![], &sample_lock()), "");
}

#[test]
fn later_lock_entry_wins() {
    let lock = LockMap::from_packages(vec![pkg("a", "1.0", vec![], vec![]), pkg("A", "2.0", vec![], vec![])]);
    assert_eq!(dependency_tree(&vec!["a".to_string()], &lock), "a v2.0\n");
}

#[test]
fn scan_lists_each_package_once_in_walk_order() {
    let lock = sample_lock();
    let mut reqs = requirements();
    reqs.push("click".to_string());
    let packages = scan_packages(&reqs, &lock);
    let names: Vec<(&str, &str)> = packages.iter().map(|(a, b)| (a.as_str(), b.as_str())).collect();
    assert_eq!(names, vec![("Flask", "3.0.0"), ("werkzeug", "3.0.1"), ("click", "8.1.7"), ("asgiref", "3.7.2")]);
}

#[test]
fn batches_hold_at_most_a_thousand_queries() {
    let packages: Vec<(String, String)> = (0..2500).map(|i| (format!("p{}", i), format!("{}.0", i))).collect();
    let batches = osv_query_batches(&packages);
    assert_eq!(batches.iter().map(|b| b.len()).collect::<Vec<_>>(), vec![1000, 1000, 500]);
    assert_eq!(batches[2][0].package.name, "p2000");
    assert_eq!(batches[2][0].version, "2000.0");
    assert_eq!(batches[1][999].package.ecosystem, "PyPI");
    assert!(osv_query_batches(&vec![]).is_empty());
}

#[test]
fn batch_answers_fill_the_id_table() {
    let packages = vec![("Foo_Bar".to_string(), "1.0".to_string()), ("baz".to_string(), "2.0".to_string())];
    let batches = osv_query_batches(&packages);
    let mut table = StringMap::new();
    record_batch_results(&mut table, &batches[0], vec![vec!["B-2".to_string(), "A-1".to_string()], vec![]]);
    assert_eq!(table.len(), 1);
    assert_eq!(table.get_ref("foo-bar"), Some(&vec!["B-2".to_string(), "A-1".to_string()]));
    assert_eq!(table.get_ref("baz"), None);
    let ids = unique_vuln_ids(&table);
    assert_eq!(ids, vec!["A-1".to_string(), "B-2".to_string()]);
}

#[test]
fn unique_ids_are_sorted_and_deduplicated() {
    let mut table = StringMap::new();
    table.insert("x".to_string(), vec!["b".to_string(), "a".to_string()]);
    table.insert("y".to_string(), vec!["a".to_string(), "c".to_string()]);
    assert_eq!(unique_vuln_ids(&table), vec!["a".to_string(), "b".to_string(), "c".to_string()]);
}

#[test]
fn withdrawn_records_are_kept_in_the_detail_table() {
    let mut details = StringMap::new();
    let mut d = detail("W-1", None, vec![]);
    d.withdrawn = Some("2024-01-01".to_string());
    record_detail(&mut details, "W-1".to_string(), d);
    assert_eq!(details.len(), 1);
}

#[test]
fn withdrawn_vulnerabilities_are_not_reported() {
    let lock = sample_lock();
    let packages = scan_packages(&requirements(), &lock);
    let (ids, mut details) = sample_tables();
    let mut p = detail("PYSEC-1", Some("retracted"), vec![event(Some("9.0"), None)]);
    p.withdrawn = Some("2024-02-02".to_string());
    record_detail(&mut details, "PYSEC-1".to_string(), p);
    let mut b = detail("GHSA-b", Some("bad"), vec![event(Some("3.0.6"), None)]);
    b.withdrawn = Some("2024-03-03".to_string());
    record_detail(&mut details, "GHSA-b".to_string(), b);
    let scan = build_scan_result(&requirements(), &packages, lock, ids, details);
    assert_eq!(scan.vulnerabilities.len(), 1);
    assert_eq!(scan.vulnerabilities[0].package, "werkzeug");
    let cve_ids: Vec<&str> = scan.vulnerabilities[0].cves.iter().map(|c| c.id.as_str()).collect();
    assert_eq!(cve_ids, vec!["GHSA-a"]);
    let s = fix_suggestions_from_scan(&scan);
    assert_eq!(s.len(), 1);
    assert_eq!(s[0].package, "werkzeug");
    assert_eq!(s[0].total_cve_count, 1);
    assert_eq!(s[0].fix_version.as_deref(), Some("3.0.3"));
}

#[test]
fn vulnerable_package_behind_a_self_requested_extra_is_reported() {
    let lock = LockMap::from_packages(vec![
        pkg("a", "1.0", vec![], vec![("all", vec![dep("a", &["y"])]), ("y", vec![dep("c", &[])])]),
        pkg("c", "2.0", vec![], vec![]),
    ]);
    let reqs = vec!["a[all]".to_string()];
    let packages = scan_packages(&reqs, &lock);
    let names: Vec<&str> = packages.iter().map(|(n, _)| n.as_str()).collect();
    assert_eq!(names, vec!["a", "c"]);
    let mut ids = StringMap::new();
    ids.insert("c".to_string(), vec!["GHSA-c".to_string()]);
    let scan = build_scan_result(&reqs, &packages, lock, ids, StringMap::new());
    assert_eq!(scan.total_scanned, 2);
    assert_eq!(scan.vulnerabilities.len(), 1);
    assert_eq!(scan.vulnerabilities[0].package, "c");
    assert_eq!(scan.vulnerabilities[0].version, "2.0");
    assert_eq!(scan.vulnerabilities[0].ancestors, vec!["a".to_string()]);
}

#[test]
fn scan_reports_vulnerable_packages_once() {
    let scan = sample_scan();
    assert_eq!(scan.total_scanned, 4);
    assert_eq!(scan.vulnerabilities.len(), 2);
    let first = &scan.vulnerabilities[0];
    assert_eq!(first.package, "flask");
    assert_eq!(first.version, "3.0.0");
    assert!(first.ancestors.is_empty());
    assert_eq!(first.cves.len(), 1);
    assert_eq!(first.cves[0].id, "PYSEC-1");
    assert_eq!(first.cves[0].fix_version, None);
    let second = &scan.vulnerabilities[1];
    assert_eq!(second.package, "werkzeug");
    assert_eq!(second.ancestors, vec!["flask".to_string()]);
    assert_eq!(second.cves[0].severity.as_deref(), Some("HIGH (CVSS_V3)"));
    assert_eq!(second.cves[0].fix_version.as_deref(), Some("3.0.6"));
    assert_eq!(second.cves[0].advisory_url.as_deref(), Some("https://github.com/advisories/GHSA-b"));
    assert_eq!(second.cves[1].advisory_url.as_deref(), Some("https://nvd.nist.gov/vuln/detail/CVE-2024-1"));
}

#[test]
fn scan_report_text() {
    let text = render_scan_report(&sample_scan());
    assert_eq!(
        text,
        [
            "\n=== VULNERABILITY REPORT ===\n\n",
            "VULNERABLE: flask v3.0.0\n  Introduced via: [direct dependency]\n  - PYSEC-1: (no summary)\n    Fixed in: no fix available\n\n",
            "VULNERABLE: werkzeug v3.0.1\n  Introduced via: flask → werkzeug\n  - GHSA-b: bad\n    Severity: \x1b[31mHIGH (CVSS_V3)\x1b[0m\n    Fixed in: 3.0.6\n    Advisory: https://github.com/advisories/GHSA-b\n  - GHSA-a: (no summary)\n    Fixed in: 3.0.3\n    Advisory: https://nvd.nist.gov/vuln/detail/CVE-2024-1\n\n",
            "--- 2 vulnerable package(s) found (4 total scanned) ---\n",
        ]
        .concat()
    );
}

#[test]
fn clean_scan_report_text() {
    let lock = sample_lock();
    let packages = scan_packages(&requirements(), &lock);
    let scan = build_scan_result(&requirements(), &packages, lock, StringMap::new(), StringMap::new());
    assert_eq!(
        render_scan_report(&scan),
        "\n=== VULNERABILITY REPORT ===\n\nNo vulnerabilities found across 4 packages scanned.\n"
    );
}

#[test]
fn suggestions_are_sorted_and_complete() {
    let scan = sample_scan();
    let s = fix_suggestions_from_scan(&scan);
    assert_eq!(s.len(), 2);
    assert_eq!(s[0].package, "flask");
    assert!(s[0].is_direct);
    assert_eq!(s[0].bump_type, "NONE");
    assert_eq!(s[0].fix_version, None);
    assert_eq!(s[0].total_cve_count, 1);
    assert!(s[0].unfixable_cve_ids.is_empty());
    assert_eq!(s[0].option_a_reason, "");
    assert_eq!(s[0].tier1_dep, None);
    assert_eq!(s[1].package, "werkzeug");
    assert!(!s[1].is_direct);
    assert_eq!(s[1].current_version, "3.0.1");
    assert_eq!(s[1].fix_version.as_deref(), Some("3.0.6"));
    assert_eq!(s[1].bump_type, "PATCH");
    assert_eq!(s[1].immediate_parent.as_deref(), Some("flask"));
    assert_eq!(s[1].immediate_parent_version.as_deref(), Some("3.0.0"));
    assert_eq!(s[1].tier1_dep.as_deref(), Some("flask"));
    assert_eq!(s[1].option_a_reason, "PATCH bump — flask v3.0.0 already supports this version");
}

#[test]
fn suggestions_in_one_call_match_the_scan() {
    let lock = sample_lock();
    let packages = scan_packages(&requirements(), &lock);
    let (ids, details) = sample_tables();
    let s = fix_suggestions(&requirements(), &packages, lock, ids, details);
    let names: Vec<&str> = s.iter().map(|x| x.package.as_str()).collect();
    assert_eq!(names, vec!["flask", "werkzeug"]);
    assert_eq!(render_fix_suggestions(&s), render_fix_suggestions(&fix_suggestions_from_scan(&sample_scan())));
}

#[test]
fn remediation_text() {
    let text = render_fix_suggestions(&fix_suggestions_from_scan(&sample_scan()));
    assert_eq!(
        text,
        [
            "\n=== REMEDIATION SUGGESTIONS ===\n\n",
            "Direct dependencies:\n\n",
            "  flask v3.0.0  \x1b[91m[NO FIX AVAILABLE]\x1b[0m\n    ⚠ No fix available for 1 vulnerability — consider replacing this dependency\n\n",
            "Transitive dependencies:\n\n",
            "  werkzeug 3.0.1 → 3.0.6  [\x1b[32mPATCH\x1b[0m]  (via: flask → werkzeug)\n",
            "    Option A: uv lock --upgrade-package werkzeug\n",
            "              PATCH bump — flask v3.0.0 already supports this version\n",
            "    Option B: add \"werkzeug>=3.0.6\" to pyproject.toml\n",
            "              if Option A causes a conflict, pin a version floor here\n",
            "    Option C: uv lock --upgrade-package flask\n",
            "              last resort — upgrades flask so it pulls in a compatible werkzeug\n\n",
        ]
        .concat()
    );
}

#[test]
fn remediation_for_direct_fix_with_unfixable() {
    let lock = LockMap::from_packages(vec![pkg("Django", "4.1.0", vec![], vec![])]);
    let reqs = vec!["django>=4".to_string()];
    let packages = scan_packages(&reqs, &lock);
    let mut ids = StringMap::new();
    ids.insert("django".to_string(), vec!["A".to_string(), "B".to_string(), "C".to_string(), "D".to_string()]);
    let mut details = StringMap::new();
    record_detail(&mut details, "A".to_string(), detail("A", None, vec![event(Some("4.2.1"), None)]));
    record_detail(&mut details, "B".to_string(), detail("B", None, vec![event(Some("5.0"), None)]));
    record_detail(&mut details, "C".to_string(), detail("C", None, vec![event(None, None)]));
    record_detail(&mut details, "D".to_string(), detail("D", None, vec![event(None, Some("4.1.9"))]));
    let scan = build_scan_result(&reqs, &packages, lock, ids, details);
    let s = fix_suggestions_from_scan(&scan);
    assert_eq!(s[0].fix_version.as_deref(), Some("5.0"));
    assert_eq!(s[0].bump_type, "MAJOR");
    assert_eq!(s[0].last_affected_version.as_deref(), Some("4.1.9"));
    assert_eq!(s[0].unfixable_cve_ids, vec!["C".to_string()]);
    assert_eq!(
        render_fix_suggestions(&s),
        [
            "\n=== REMEDIATION SUGGESTIONS ===\n\n",
            "Direct dependencies:\n\n",
            "  django 4.1.0 → 5.0  [\x1b[91mMAJOR\x1b[0m]\n",
            "    Command:         uv add \"django>=5.0\"\n",
            "    pyproject.toml:  \"django>=5.0\"\n",
            "    Fixes 3 of 4 vulnerabilities\n",
            "    \x1b[91m⚠ C has no fix available\x1b[0m\n\n",
        ]
        .concat()
    );
}

#[test]
fn remediation_for_last_affected_only() {
    let lock = LockMap::from_packages(vec![pkg("top", "1.0", vec![dep("leaf", &[])], vec![]), pkg("leaf", "0.1", vec![], vec![])]);
    let reqs = vec!["top".to_string()];
    let packages = scan_packages(&reqs, &lock);
    let mut ids = StringMap::new();
    ids.insert("leaf".to_string(), vec!["L".to_string()]);
    let mut details = StringMap::new();
    record_detail(&mut details, "L".to_string(), detail("L", None, vec![event(None, Some("0.3"))]));
    let scan = build_scan_result(&reqs, &packages, lock, ids, details);
    let s = fix_suggestions_from_scan(&scan);
    assert_eq!(s[0].bump_type, "NONE");
    assert_eq!(
        render_fix_suggestions(&s),
        [
            "\n=== REMEDIATION SUGGESTIONS ===\n\n",
            "Transitive dependencies:\n\n",
            "  leaf v0.1  \x1b[93m[UPGRADE BEYOND 0.3]\x1b[0m  (via: top → leaf)\n",
            "    Option A: uv lock --upgrade-package leaf\n",
            "    Option B: add \"leaf>0.3\" to pyproject.toml\n",
            "    Option C: uv lock --upgrade-package top\n\n",
        ]
        .concat()
    );
}

#[test]
fn tree_of_joined_requirements_is_the_joined_trees() {
    let lock = sample_lock();
    let a = vec!["click".to_string()];
    let b = vec!["werkzeug".to_string(), "asgiref".to_string()];
    let mut both = a.clone();
    both.extend(b.clone());
    assert_eq!(
        dependency_tree(&both, &lock),
        format!("{}{}", dependency_tree(&a, &lock), dependency_tree(&b, &lock))
    );
}

fn cyclic_lock() -> LockMap {
    LockMap::from_packages(vec![
        pkg("a", "1.0", vec![dep("b", &[])], vec![]),
        pkg("b", "1.0", vec![dep("c", &[]), dep("d", &[])], vec![]),
        pkg("c", "1.0", vec![dep("a", &[]), dep("d", &[])], vec![]),
        pkg("d", "2.0", vec![], vec![]),
    ])
}

#[test]
fn deep_vulnerable_package_is_reported_once_on_a_simple_path() {
    let lock = cyclic_lock();
    let reqs = vec!["a".to_string()];
    let packages = scan_packages(&reqs, &lock);
    assert_eq!(packages.len(), 4);
    let mut ids = StringMap::new();
    ids.insert("d".to_string(), vec!["D-1".to_string()]);
    ids.insert("a".to_string(), vec!["A-1".to_string()]);
    let scan = build_scan_result(&reqs, &packages, lock, ids, StringMap::new());
    let reported: Vec<(&str, Vec<&str>)> = scan
        .vulnerabilities
        .iter()
        .map(|v| (v.package.as_str(), v.ancestors.iter().map(|s| s.as_str()).collect()))
        .collect();
    assert_eq!(reported, vec![("a", vec![]), ("d", vec!["a", "b", "c"])]);
    assert_eq!(scan.vulnerabilities[1].version, "2.0");
    assert_eq!(scan.vulnerabilities[1].cves[0].id, "D-1");
}

#[test]
fn fix_version_is_the_latest_by_number() {
    let lock = LockMap::from_packages(vec![pkg("p", "1.2.0", vec![], vec![])]);
    let reqs = vec!["p".to_string()];
    let packages = scan_packages(&reqs, &lock);
    let mut ids = StringMap::new();
    ids.insert("p".to_string(), vec!["X".to_string(), "Y".to_string(), "Z".to_string()]);
    let mut details = StringMap::new();
    record_detail(&mut details, "X".to_string(), detail("X", None, vec![event(Some("1.9.0"), None)]));
    record_detail(&mut details, "Y".to_string(), detail("Y", None, vec![event(Some("1.10.0"), None)]));
    record_detail(&mut details, "Z".to_string(), detail("Z", None, vec![event(Some("1.2.5"), None)]));
    let scan = build_scan_result(&reqs, &packages, lock, ids, details);
    let s = fix_suggestions_from_scan(&scan);
    assert_eq!(s[0].fix_version.as_deref(), Some("1.10.0"));
    assert_eq!(s[0].bump_type, "MINOR");
    assert_eq!(s[0].total_cve_count, 3);
}

#[test]
fn empty_answers_past_the_batch_are_ignored() {
    let packages = vec![("a".to_string(), "1.0".to_string())];
    let batches = osv_query_batches(&packages);
    let mut table = StringMap::new();
    record_batch_results(&mut table, &batches[0], vec![vec!["X-1".to_string()], vec![], vec![]]);
    assert_eq!(table.len(), 1);
    assert_eq!(table.get_ref("a"), Some(&vec!["X-1".to_string()]));
}

#[test]
fn every_package_in_the_tree_is_scanned() {
    let lock = cyclic_lock();
    let reqs = vec!["a".to_string(), "d".to_string()];
    let tree = dependency_tree(&reqs, &lock);
    assert_eq!(tree, "a v1.0\n  b v1.0\n    c v1.0\n      a [*]\n      d v2.0\n    d v2.0\nd v2.0\n");
    let names: Vec<String> = scan_packages(&reqs, &lock).into_iter().map(|(n, _)| n).collect();
    assert_eq!(names, vec!["a".to_string(), "b".to_string(), "c".to_string(), "d".to_string()]);
}

#[test]
fn package_required_again_with_an_extra_is_entered_again() {
    let lock = LockMap::from_packages(vec![
        pkg("app", "1.0", vec![dep("base", &[]), dep("tool", &[])], vec![]),
        pkg("tool", "1.0", vec![dep("base", &["x"])], vec![]),
        pkg("base", "1.0", vec![], vec![("x", vec![dep("extra-only", &[])])]),
        pkg("extra-only", "1.0", vec![], vec![]),
    ]);
    let reqs = vec!["app".to_string()];
    assert!(dependency_tree(&reqs, &lock).contains("extra-only v1.0"));
    let names: Vec<String> = scan_packages(&reqs, &lock).into_iter().map(|(n, _)| n).collect();
    assert_eq!(names, vec!["app".to_string(), "base".to_string(), "tool".to_string(), "extra-only".to_string()]);
}

#[test]
fn extra_requested_by_a_later_requirement_is_scanned() {
    let lock = LockMap::from_packages(vec![
        pkg("a", "1.0", vec![dep("c", &[])], vec![]),
        pkg("b", "1.0", vec![dep("c", &["x"])], vec![]),
        pkg("c", "1.0", vec![], vec![("x", vec![dep("d", &[])])]),
        pkg("d", "1.0", vec![], vec![]),
    ]);
    let reqs = vec!["a".to_string(), "b".to_string()];
    let packages = scan_packages(&reqs, &lock);
    let names: Vec<&str> = packages.iter().map(|(n, _)| n.as_str()).collect();
    assert_eq!(names, vec!["a", "c", "b", "d"]);
    let again = scan_packages(&vec!["a".to_string(), "b".to_string(), "c[x]".to_string()], &lock);
    assert_eq!(again.len(), 4);
}

#[test]
fn requirement_met_inside_another_is_reported_as_direct() {
    let lock = LockMap::from_packages(vec![
        pkg("a", "1.0", vec![dep("c", &[])], vec![]),
        pkg("c", "2.0", vec![dep("e", &[])], vec![]),
        pkg("e", "3.0", vec![], vec![]),
    ]);
    let reqs = vec!["a".to_string(), "C>=2".to_string()];
    let packages = scan_packages(&reqs, &lock);
    let mut ids = StringMap::new();
    ids.insert("c".to_string(), vec!["C-1".to_string()]);
    ids.insert("e".to_string(), vec!["E-1".to_string()]);
    let scan = build_scan_result(&reqs, &packages, lock, ids, StringMap::new());
    let reported: Vec<(&str, Vec<&str>)> = scan
        .vulnerabilities
        .iter()
        .map(|v| (v.package.as_str(), v.ancestors.iter().map(|s| s.as_str()).collect()))
        .collect();
    assert_eq!(reported, vec![("e", vec!["a", "c"]), ("c", vec![])]);
    let s = fix_suggestions_from_scan(&scan);
    assert_eq!(s[0].package, "c");
    assert!(s[0].is_direct);
    assert!(s[0].ancestors.is_empty());
    assert_eq!(s[1].package, "e");
    assert!(!s[1].is_direct);
    assert_eq!(s[1].tier1_dep.as_deref(), Some("a"));
}

#[test]
fn last_affected_is_the_latest_by_number() {
    let lock = LockMap::from_packages(vec![pkg("q", "0.1", vec![], vec![])]);
    let reqs = vec!["q".to_string()];
    let packages = scan_packages(&reqs, &lock);
    let mut ids = StringMap::new();
    ids.insert("q".to_string(), vec!["M".to_string(), "N".to_string()]);
    let mut details = StringMap::new();
    record_detail(&mut details, "M".to_string(), detail("M", None, vec![event(None, Some("0.10"))]));
    record_detail(&mut details, "N".to_string(), detail("N", None, vec![event(None, Some("0.3"))]));
    let scan = build_scan_result(&reqs, &packages, lock, ids, details);
    let s = fix_suggestions_from_scan(&scan);
    assert_eq!(s[0].last_affected_version.as_deref(), Some("0.10"));
    assert_eq!(s[0].fix_version, None);
    assert!(s[0].unfixable_cve_ids.is_empty());
}

#[test]
fn advice_paths_are_the_report_paths() {
    let lock = cyclic_lock();
    let reqs = vec!["a".to_string()];
    let packages = scan_packages(&reqs, &lock);
    let mut ids = StringMap::new();
    ids.insert("d".to_string(), vec!["D-1".to_string()]);
    ids.insert("c".to_string(), vec!["C-1".to_string()]);
    let scan = build_scan_result(&reqs, &packages, lock, ids, StringMap::new());
    let s = fix_suggestions_from_scan(&scan);
    assert_eq!(s.len(), scan.vulnerabilities.len());
    for report in &scan.vulnerabilities {
        let advice = s.iter().find(|x| x.package == report.package).unwrap();
        assert_eq!(advice.ancestors, report.ancestors);
    }
    assert_eq!(s[0].package, "c");
    assert_eq!(s[0].immediate_parent.as_deref(), Some("b"));
    assert_eq!(s[0].tier1_dep.as_deref(), Some("a"));
}

#[test]
fn packages_without_listed_ids_get_no_advice() {
    let lock = sample_lock();
    let mut paths = StringMap::new();
    paths.insert("werkzeug".to_string(), vec!["flask".to_string()]);
    paths.insert("click".to_string(), vec!["flask".to_string()]);
    let (ids, details) = sample_tables();
    let s = build_fix_suggestions_internal(&paths, &ids, &details, &lock);
    let names: Vec<&str> = s.iter().map(|x| x.package.as_str()).collect();
    assert_eq!(names, vec!["werkzeug"]);
    assert_eq!(s[0].total_cve_count, 2);
}

#[test]
fn extra_requested_on_a_cycle_is_followed_by_the_scan() {
    let lock = LockMap::from_packages(vec![
        pkg("a", "1.0", vec![dep("b", &[])], vec![("x", vec![dep("d", &[])])]),
        pkg("b", "1.0", vec![dep("a", &["x"])], vec![]),
        pkg("d", "1.0", vec![], vec![]),
    ]);
    let reqs = vec!["a".to_string()];
    assert_eq!(dependency_tree(&reqs, &lock), "a v1.0\n  b v1.0\n    a[x] [*]\n");
    let names: Vec<String> = scan_packages(&reqs, &lock).into_iter().map(|(n, _)| n).collect();
    assert_eq!(names, vec!["a".to_string(), "b".to_string(), "d".to_string()]);
}
