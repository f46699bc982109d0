use py_uv_audit::names::{extract_extras, extract_name, normalize_name};
use py_uv_audit::osv::{
    extract_advisory_url, extract_fix_version, extract_last_affected, extract_severity, starts_with,
    OsvAffected, OsvEvent, OsvRange, OsvReference, OsvSeverity, OsvVulnDetail,
};
use py_uv_audit::report::{bump_label, check_project_files, colorize_severity};
use py_uv_audit::scan::vuln_detail_url;
use py_uv_audit::text::{parse_u64, str_contains, str_equal, trim};
use py_uv_audit::version::{bump_reason, bump_type_str, max_ver, parse_ver};

#[test]
fn normalize_folds_case_and_separators() {
    assert_eq!(normalize_name("Foo_Bar.baz"), "foo-bar-baz");
    assert_eq!(normalize_name("zope.interface"), "zope-interface");
    assert_eq!(normalize_name("already-normal"), "already-normal");
    assert_eq!(normalize_name(""), "");
}

#[test]
fn name_stops_at_the_first_operator() {
    assert_eq!(extract_name("requests[socks]>=2.31"), "requests");
    assert_eq!(extract_name("uvicorn >=0.20"), "uvicorn");
    assert_eq!(extract_name("numpy~=1.26"), "numpy");
    assert_eq!(extract_name("pywin32; sys_platform == 'win32'"), "pywin32");
    assert_eq!(extract_name("flask"), "flask");
    assert_eq!(extract_name("a!=1"), "a");
    assert_eq!(extract_name("a\tb"), "a");
}

#[test]
fn extras_are_trimmed_lowercased_and_non_empty() {
    assert_eq!(extract_extras("uvicorn[Standard, WS ]>=1"), vec!["standard".to_string(), "ws".to_string()]);
    assert_eq!(extract_extras("pkg[,x,,]"), vec!["x".to_string()]);
    assert!(extract_extras("pkg>=1").is_empty());
    assert!(extract_extras("pkg[unclosed").is_empty());
    assert!(extract_extras("pkg[]").is_empty());
    assert_eq!(extract_extras("a]b[c]"), vec!["c".to_string()]);
}

#[test]
fn versions_parse_into_triples() {
    assert_eq!(parse_ver("2.31.0"), (2, 31, 0));
    assert_eq!(parse_ver("1.0rc1"), (1, 0, 0));
    assert_eq!(parse_ver("7"), (7, 0, 0));
    assert_eq!(parse_ver(""), (0, 0, 0));
    assert_eq!(parse_ver("1.2.3.4"), (1, 2, 3));
    assert_eq!(parse_ver("v1.2"), (0, 2, 0));
    assert_eq!(parse_ver("99999999999999999999.1.2"), (0, 1, 2));
    assert_eq!(parse_ver("18446744073709551615.0.1"), (18446744073709551615, 0, 1));
}

#[test]
fn max_ver_prefers_the_first_on_ties() {
    assert_eq!(max_ver("1.2.3", "1.10.0"), "1.10.0");
    assert_eq!(max_ver("2.0", "1.9.9"), "2.0");
    assert_eq!(max_ver("1.0", "1.0.0"), "1.0");
}

#[test]
fn bump_types() {
    assert_eq!(bump_type_str("1.2.3", "2.0.0"), "MAJOR");
    assert_eq!(bump_type_str("1.2.3", "1.3.0"), "MINOR");
    assert_eq!(bump_type_str("1.2.3", "1.2.4"), "PATCH");
    assert_eq!(bump_type_str("2.5.0", "1.9.0"), "MINOR");
    assert_eq!(bump_type_str("2.5.0", "1.4.0"), "PATCH");
}

#[test]
fn bump_reasons() {
    assert_eq!(
        bump_reason("1.0", "2.0", "web", "3.1"),
        "MAJOR bump — verify web v3.1 supports this version before upgrading"
    );
    assert_eq!(
        bump_reason("1.0", "1.1", "web", "3.1"),
        "MINOR bump — web v3.1 supports this version (new features, no breaking changes)"
    );
    assert_eq!(bump_reason("1.0", "1.0.1", "web", "3.1"), "PATCH bump — web v3.1 already supports this version");
}

fn bare(id: &str) -> OsvVulnDetail {
    OsvVulnDetail {
        id: id.to_string(),
        summary: None,
        details: None,
        aliases: None,
        severity: None,
        affected: None,
        references: None,
        severity_label: None,
        withdrawn: None,
    }
}

fn ev(fixed: Option<&str>, last: Option<&str>) -> OsvEvent {
    OsvEvent { fixed: fixed.map(|s| s.to_string()), introduced: None, last_affected: last.map(|s| s.to_string()) }
}

#[test]
fn fix_and_last_affected_are_the_first_found() {
    let mut d = bare("X");
    d.affected = Some(vec![
        OsvAffected { ranges: None },
        OsvAffected {
            ranges: Some(vec![
                OsvRange { events: None },
                OsvRange { events: Some(vec![ev(None, Some("1.1")), ev(Some("1.2"), None), ev(Some("1.3"), None)]) },
            ]),
        },
        OsvAffected { ranges: Some(vec![OsvRange { events: Some(vec![ev(Some("0.9"), Some("0.8"))]) }]) },
    ]);
    assert_eq!(extract_fix_version(&d).as_deref(), Some("1.2"));
    assert_eq!(extract_last_affected(&d).as_deref(), Some("1.1"));
    assert_eq!(extract_fix_version(&bare("Y")), None);
}

#[test]
fn severity_labels() {
    let mut d = bare("X");
    assert_eq!(extract_severity(&d), None);
    d.severity = Some(vec![OsvSeverity { severity_type: "CVSS_V4".to_string(), score: "s".to_string() }]);
    assert_eq!(extract_severity(&d).as_deref(), Some("CVSS_V4"));
    d.severity_label = Some("UNSPECIFIED".to_string());
    assert_eq!(extract_severity(&d).as_deref(), Some("CVSS_V4"));
    d.severity_label = Some("".to_string());
    assert_eq!(extract_severity(&d).as_deref(), Some("CVSS_V4"));
    d.severity_label = Some("CRITICAL".to_string());
    assert_eq!(extract_severity(&d).as_deref(), Some("CRITICAL (CVSS_V4)"));
    d.severity = Some(vec![]);
    assert_eq!(extract_severity(&d).as_deref(), Some("CRITICAL"));
}

#[test]
fn advisory_links() {
    let mut d = bare("X");
    assert_eq!(extract_advisory_url(&d), None);
    d.aliases = Some(vec!["GHSA-1".to_string(), "CVE-2023-9".to_string(), "CVE-2023-10".to_string()]);
    assert_eq!(extract_advisory_url(&d).as_deref(), Some("https://nvd.nist.gov/vuln/detail/CVE-2023-9"));
    d.references = Some(vec![OsvReference { ref_type: "WEB".to_string(), url: "w".to_string() }]);
    assert_eq!(extract_advisory_url(&d).as_deref(), Some("https://nvd.nist.gov/vuln/detail/CVE-2023-9"));
    d.references = Some(vec![
        OsvReference { ref_type: "WEB".to_string(), url: "w".to_string() },
        OsvReference { ref_type: "ADVISORY".to_string(), url: "adv".to_string() },
    ]);
    assert_eq!(extract_advisory_url(&d).as_deref(), Some("adv"));
}

#[test]
fn severity_colours() {
    assert_eq!(colorize_severity("critical (CVSS_V3)"), "\x1b[91mcritical (CVSS_V3)\x1b[0m");
    assert_eq!(colorize_severity("High"), "\x1b[31mHigh\x1b[0m");
    assert_eq!(colorize_severity("MODERATE"), "\x1b[93mMODERATE\x1b[0m");
    assert_eq!(colorize_severity("medium"), "\x1b[93mmedium\x1b[0m");
    assert_eq!(colorize_severity("LOW"), "LOW");
    assert_eq!(colorize_severity("CVSS_V3"), "CVSS_V3");
}

#[test]
fn bump_labels() {
    assert_eq!(bump_label("MAJOR"), "\x1b[91mMAJOR\x1b[0m");
    assert_eq!(bump_label("MINOR"), "\x1b[93mMINOR\x1b[0m");
    assert_eq!(bump_label("PATCH"), "\x1b[32mPATCH\x1b[0m");
    assert_eq!(bump_label("NONE"), "\x1b[32mPATCH\x1b[0m");
}

#[test]
fn project_file_checks() {
    assert_eq!(check_project_files("a/pyproject.toml", "a/uv.lock", true, true), Ok(()));
    let e = check_project_files("a/pyproject.toml", "a/uv.lock", false, false).unwrap_err();
    assert!(e.starts_with("pyproject.toml not found at a/pyproject.toml\n\n"));
    let e = check_project_files("a/pyproject.toml", "a/uv.lock", true, false).unwrap_err();
    assert_eq!(
        e,
        "uv.lock not found at a/uv.lock\n\nRun `uv lock` to generate it, or point py-uv-audit at an existing\none with --lockfile <PATH>."
    );
}

#[test]
fn small_string_helpers() {
    assert!(str_contains("abcabd", "abd"));
    assert!(!str_contains("abc", "abcd"));
    assert!(str_contains("abc", ""));
    assert!(str_equal("x", "x"));
    assert!(!str_equal("x", "y"));
    assert!(starts_with("CVE-1", "CVE-"));
    assert!(!starts_with("CV", "CVE-"));
    assert_eq!(vuln_detail_url("GHSA-x"), "https://api.osv.dev/v1/vulns/GHSA-x");
}

#[test]
fn trim_drops_leading_and_trailing_white_space() {
    assert_eq!(trim("  a b \t\n"), "a b");
    assert_eq!(trim("\u{3000}x\u{a0}\u{2029}"), "x");
    assert_eq!(trim(" \r\n "), "");
    assert_eq!(trim("plain"), "plain");
    assert_eq!(trim("\u{200b}z"), "\u{200b}z");
}

#[test]
fn parse_u64_reads_decimal_digits() {
    assert_eq!(parse_u64("007"), Some(7));
    assert_eq!(parse_u64("18446744073709551615"), Some(u64::MAX));
    assert_eq!(parse_u64("18446744073709551616"), None);
    assert_eq!(parse_u64(""), None);
}
