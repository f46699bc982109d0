//! The texts shown to the user: the vulnerability report, the remediation advice,
//! and the message for a missing project file.
use vstd::prelude::*;
use crate::audit::{report_views, CveSpec, ReportSpec, ScanResult, VulnerabilityReport, CveInfo};
use crate::fix::{fix_view, fix_views, FixSpec, FixSuggestion};
use crate::osv::opt_view;
use crate::text::{contains_text, decimal_text, push_decimal, push_str, str_contains, str_equal, to_uppercase, uppercase};

verus! {

/// The colour that a severity is shown in: bright red for critical, red for high,
/// yellow for moderate or medium (matched case-insensitively), none otherwise.
pub open spec fn severity_color(s: Seq<char>) -> Option<Seq<char>> {
    let up = uppercase(s);
    if contains_text(up, "CRITICAL"@) {
        Some("\x1b[91m"@)
    } else if contains_text(up, "HIGH"@) {
        Some("\x1b[31m"@)
    } else if contains_text(up, "MODERATE"@) || contains_text(up, "MEDIUM"@) {
        Some("\x1b[93m"@)
    } else {
        None
    }
}

/// A severity as shown: in its colour, if it has one.
pub open spec fn colorized(s: Seq<char>) -> Seq<char> {
    match severity_color(s) {
        Some(code) => code + s + "\x1b[0m"@,
        None => s,
    }
}

/// Shows a severity in its colour.
pub fn colorize_severity(s: &str) -> (r: String)
    ensures
        r@ == colorized(s@),
{
    let upper = to_uppercase(s);
    let code = if str_contains(upper.as_str(), "CRITICAL") {
        "\x1b[91m"
    } else if str_contains(upper.as_str(), "HIGH") {
        "\x1b[31m"
    } else if str_contains(upper.as_str(), "MODERATE") || str_contains(upper.as_str(), "MEDIUM") {
        "\x1b[93m"
    } else {
        return s.to_owned();
    };
    let mut r = String::new();
    push_str(&mut r, code);
    push_str(&mut r, s);
    push_str(&mut r, "\x1b[0m");
    r
}

/// The label of an upgrade's reach, coloured: `MAJOR` red, `MINOR` yellow, and
/// `PATCH` green for anything else.
pub open spec fn bump_label_text(b: Seq<char>) -> Seq<char> {
    if b == "MAJOR"@ {
        "\x1b[91m"@ + "MAJOR"@ + "\x1b[0m"@
    } else if b == "MINOR"@ {
        "\x1b[93m"@ + "MINOR"@ + "\x1b[0m"@
    } else {
        "\x1b[32m"@ + "PATCH"@ + "\x1b[0m"@
    }
}

/// The coloured label of an upgrade's reach.
pub fn bump_label(bump_type: &str) -> (r: String)
    ensures
        r@ == bump_label_text(bump_type@),
{
    let (label, code) = if str_equal(bump_type, "MAJOR") {
        ("MAJOR", "\x1b[91m")
    } else if str_equal(bump_type, "MINOR") {
        ("MINOR", "\x1b[93m")
    } else {
        ("PATCH", "\x1b[32m")
    };
    let mut r = String::new();
    push_str(&mut r, code);
    push_str(&mut r, label);
    push_str(&mut r, "\x1b[0m");
    r
}

/// Each name followed by the separator.
pub open spec fn each_then(xs: Seq<Seq<char>>, sep: Seq<char>) -> Seq<char>
    decreases xs.len(),
{
    if xs.len() == 0 {
        seq![]
    } else {
        each_then(xs.drop_last(), sep) + xs.last() + sep
    }
}

/// The path from a requirement down to a package: the names joined by ` → `.
pub open spec fn chain_text(ancestors: Seq<Seq<char>>, package: Seq<char>) -> Seq<char> {
    each_then(ancestors, " → "@) + package
}

fn push_chain(out: &mut String, ancestors: &Vec<String>, package: &str)
    ensures
        final(out)@ == old(out)@ + chain_text(ancestors.deep_view(), package@),
{
    let ghost o0 = out@;
    let ghost xs = ancestors.deep_view();
    let mut i: usize = 0;
    assert(xs.take(0) =~= Seq::<Seq<char>>::empty());
    assert(out@ =~= o0 + each_then(xs.take(0), " → "@));
    while i < ancestors.len()
        invariant
            i <= ancestors.len(),
            xs == ancestors.deep_view(),
            out@ == o0 + each_then(xs.take(i as int), " → "@),
        decreases ancestors.len() - i,
    {
        push_str(out, ancestors[i].as_str());
        push_str(out, " → ");
        assert(xs.take(i + 1).drop_last() =~= xs.take(i as int));
        assert(xs.take(i + 1).last() == ancestors@[i as int]@);
        i = i + 1;
        assert(out@ =~= o0 + each_then(xs.take(i as int), " → "@));
    }
    assert(xs.take(ancestors.len() as int) =~= xs);
    push_str(out, package);
    assert(out@ =~= o0 + chain_text(xs, package@));
}

/// The first line of the report for one vulnerability: its id and summary.
pub open spec fn cve_head(c: CveSpec) -> Seq<char> {
    "  - "@ + c.id + ": "@ + match c.summary {
        Some(s) => s,
        None => "(no summary)"@,
    } + "\n"@
}

/// The severity line, when the vulnerability has a severity.
pub open spec fn cve_severity_line(c: CveSpec) -> Seq<char> {
    match c.severity {
        Some(sev) => "    Severity: "@ + colorized(sev) + "\n"@,
        None => seq![],
    }
}

/// The line saying where the vulnerability is fixed.
pub open spec fn cve_fixed_line(c: CveSpec) -> Seq<char> {
    match c.fix_version {
        Some(v) => "    Fixed in: "@ + v + "\n"@,
        None => match c.last_affected_version {
            Some(la) => "    Fixed in: no fix version — last affected: "@ + la + "\n"@,
            None => "    Fixed in: no fix available\n"@,
        },
    }
}

/// The advisory line, when the vulnerability has an advisory link.
pub open spec fn cve_advisory_line(c: CveSpec) -> Seq<char> {
    match c.advisory_url {
        Some(u) => "    Advisory: "@ + u + "\n"@,
        None => seq![],
    }
}

/// The lines of the report for one vulnerability.
pub open spec fn cve_text(c: CveSpec) -> Seq<char> {
    cve_head(c) + cve_severity_line(c) + cve_fixed_line(c) + cve_advisory_line(c)
}

pub open spec fn cves_text(cs: Seq<CveSpec>) -> Seq<char>
    decreases cs.len(),
{
    if cs.len() == 0 {
        seq![]
    } else {
        cves_text(cs.drop_last()) + cve_text(cs.last())
    }
}

/// The block of the report for one vulnerable package.
pub open spec fn report_block(r: ReportSpec) -> Seq<char> {
    "VULNERABLE: "@ + r.package + " v"@ + r.version + "\n"@ + (if r.ancestors.len() == 0 {
        "  Introduced via: [direct dependency]\n"@
    } else {
        "  Introduced via: "@ + chain_text(r.ancestors, r.package) + "\n"@
    }) + cves_text(r.cves) + "\n"@
}

pub open spec fn report_blocks(rs: Seq<ReportSpec>) -> Seq<char>
    decreases rs.len(),
{
    if rs.len() == 0 {
        seq![]
    } else {
        report_blocks(rs.drop_last()) + report_block(rs.last())
    }
}

/// The whole vulnerability report.
pub open spec fn scan_report_text(rs: Seq<ReportSpec>, total: nat) -> Seq<char> {
    "\n=== VULNERABILITY REPORT ===\n\n"@ + if rs.len() == 0 {
        "No vulnerabilities found across "@ + decimal_text(total) + " packages scanned.\n"@
    } else {
        report_blocks(rs) + "--- "@ + decimal_text(rs.len()) + " vulnerable package(s) found ("@
            + decimal_text(total) + " total scanned) ---\n"@
    }
}

fn push_opt_line(out: &mut String, label: &str, value: &Option<String>)
    ensures
        final(out)@ == old(out)@ + match opt_view(*value) {
            Some(v) => label@ + v + "\n"@,
            None => seq![],
        },
{
    match value {
        Some(v) => {
            push_str(out, label);
            push_str(out, v.as_str());
            push_str(out, "\n");
        },
        None => {},
    }
}

fn push_cve_head(out: &mut String, c: &CveInfo)
    ensures
        final(out)@ == old(out)@ + cve_head(crate::audit::cve_view(*c)),
{
    let ghost o0 = out@;
    push_str(out, "  - ");
    push_str(out, c.id.as_str());
    push_str(out, ": ");
    match &c.summary {
        Some(s) => push_str(out, s.as_str()),
        None => push_str(out, "(no summary)"),
    }
    push_str(out, "\n");
    assert(out@ =~= o0 + cve_head(crate::audit::cve_view(*c)));
}

fn push_cve_severity(out: &mut String, c: &CveInfo)
    ensures
        final(out)@ == old(out)@ + cve_severity_line(crate::audit::cve_view(*c)),
{
    let ghost o0 = out@;
    match &c.severity {
        Some(sev) => {
            push_str(out, "    Severity: ");
            let col = colorize_severity(sev.as_str());
            push_str(out, col.as_str());
            push_str(out, "\n");
        },
        None => {},
    }
    assert(out@ =~= o0 + cve_severity_line(crate::audit::cve_view(*c)));
}

fn push_cve_fixed(out: &mut String, c: &CveInfo)
    ensures
        final(out)@ == old(out)@ + cve_fixed_line(crate::audit::cve_view(*c)),
{
    let ghost o0 = out@;
    match &c.fix_version {
        Some(v) => {
            push_str(out, "    Fixed in: ");
            push_str(out, v.as_str());
            push_str(out, "\n");
        },
        None => match &c.last_affected_version {
            Some(la) => {
                push_str(out, "    Fixed in: no fix version — last affected: ");
                push_str(out, la.as_str());
                push_str(out, "\n");
            },
            None => push_str(out, "    Fixed in: no fix available\n"),
        },
    }
    assert(out@ =~= o0 + cve_fixed_line(crate::audit::cve_view(*c)));
}

fn push_cve(out: &mut String, c: &CveInfo)
    ensures
        final(out)@ == old(out)@ + cve_text(crate::audit::cve_view(*c)),
{
    let ghost o0 = out@;
    let ghost cv = crate::audit::cve_view(*c);
    push_cve_head(out, c);
    push_cve_severity(out, c);
    push_cve_fixed(out, c);
    push_opt_line(out, "    Advisory: ", &c.advisory_url);
    assert(out@ =~= o0 + cve_text(cv));
}

fn push_report(out: &mut String, r: &VulnerabilityReport)
    ensures
        final(out)@ == old(out)@ + report_block(crate::audit::report_view(*r)),
{
    let ghost o0 = out@;
    let ghost rv = crate::audit::report_view(*r);
    push_str(out, "VULNERABLE: ");
    push_str(out, r.package.as_str());
    push_str(out, " v");
    push_str(out, r.version.as_str());
    push_str(out, "\n");
    if r.ancestors.len() == 0 {
        push_str(out, "  Introduced via: [direct dependency]\n");
    } else {
        push_str(out, "  Introduced via: ");
        push_chain(out, &r.ancestors, r.package.as_str());
        push_str(out, "\n");
    }
    let ghost o1 = out@;
    let ghost cs = rv.cves;
    let mut i: usize = 0;
    assert(cs.take(0) =~= Seq::<CveSpec>::empty());
    assert(out@ =~= o1 + cves_text(cs.take(0)));
    while i < r.cves.len()
        invariant
            i <= r.cves.len(),
            cs == r.cves@.map_values(|c: CveInfo| crate::audit::cve_view(c)),
            out@ == o1 + cves_text(cs.take(i as int)),
        decreases r.cves.len() - i,
    {
        push_cve(out, &r.cves[i]);
        assert(cs.take(i + 1).drop_last() =~= cs.take(i as int));
        assert(cs.take(i + 1).last() == crate::audit::cve_view(r.cves@[i as int]));
        i = i + 1;
        assert(out@ =~= o1 + cves_text(cs.take(i as int)));
    }
    assert(cs.take(r.cves.len() as int) =~= cs);
    push_str(out, "\n");
    assert(out@ =~= o0 + report_block(rv));
}

/// The vulnerability report of a scan, as printed.
pub fn render_scan_report(result: &ScanResult) -> (r: String)
    ensures
        r@ == scan_report_text(report_views(result.vulnerabilities@), result.total_scanned as nat),
{
    let mut out = String::new();
    push_str(&mut out, "\n=== VULNERABILITY REPORT ===\n\n");
    let ghost o0 = out@;
    let ghost rs = report_views(result.vulnerabilities@);
    if result.vulnerabilities.len() == 0 {
        push_str(&mut out, "No vulnerabilities found across ");
        push_decimal(&mut out, result.total_scanned);
        push_str(&mut out, " packages scanned.\n");
        assert(out@ =~= scan_report_text(rs, result.total_scanned as nat));
        return out;
    }
    let mut i: usize = 0;
    assert(rs.take(0) =~= Seq::<ReportSpec>::empty());
    assert(out@ =~= o0 + report_blocks(rs.take(0)));
    while i < result.vulnerabilities.len()
        invariant
            i <= result.vulnerabilities.len(),
            rs == report_views(result.vulnerabilities@),
            out@ == o0 + report_blocks(rs.take(i as int)),
        decreases result.vulnerabilities.len() - i,
    {
        push_report(&mut out, &result.vulnerabilities[i]);
        assert(rs.take(i + 1).drop_last() =~= rs.take(i as int));
        i = i + 1;
        assert(out@ =~= o0 + report_blocks(rs.take(i as int)));
    }
    assert(rs.take(result.vulnerabilities.len() as int) =~= rs);
    push_str(&mut out, "--- ");
    push_decimal(&mut out, result.vulnerabilities.len());
    push_str(&mut out, " vulnerable package(s) found (");
    push_decimal(&mut out, result.total_scanned);
    push_str(&mut out, " total scanned) ---\n");
    assert(out@ =~= scan_report_text(rs, result.total_scanned as nat));
    out
}


/// `y` for one, `ies` otherwise (as in "vulnerability", "vulnerabilities").
pub open spec fn plural_y(n: nat) -> Seq<char> {
    if n == 1 {
        "y"@
    } else {
        "ies"@
    }
}

/// The warnings for the vulnerabilities of a direct dependency that have no fix.
pub open spec fn no_fix_lines(ids: Seq<Seq<char>>) -> Seq<char>
    decreases ids.len(),
{
    if ids.len() == 0 {
        seq![]
    } else {
        no_fix_lines(ids.drop_last()) + "    \x1b[91m⚠ "@ + ids.last() + " has no fix available\x1b[0m\n"@
    }
}

/// The warnings for the vulnerabilities of a transitive dependency that have no fix.
pub open spec fn replace_lines(ids: Seq<Seq<char>>, tier1: Seq<char>) -> Seq<char>
    decreases ids.len(),
{
    if ids.len() == 0 {
        seq![]
    } else {
        replace_lines(ids.drop_last(), tier1) + "    \x1b[91m⚠ "@ + ids.last() + " has no fix — consider replacing "@
            + tier1 + "\x1b[0m\n"@
    }
}

/// The advice for a direct dependency that has a fix version.
pub open spec fn direct_fix_text(f: FixSpec, fix: Seq<char>) -> Seq<char> {
    "  "@ + f.package + " "@ + f.current_version + " → "@ + fix + "  ["@ + bump_label_text(f.bump_type)
        + "]\n"@ + "    Command:         uv add \""@ + f.package + ">="@ + fix + "\"\n"@
        + "    pyproject.toml:  \""@ + f.package + ">="@ + fix + "\"\n"@ + direct_fix_tail(f)
}

/// The advice for a direct dependency.
pub open spec fn direct_entry(f: FixSpec) -> Seq<char> {
    (match f.fix_version {
        Some(fix) => direct_fix_text(f, fix),
        None => match f.last_affected_version {
            Some(la) => "  "@ + f.package + " v"@ + f.current_version + "  \x1b[93m[UPGRADE BEYOND "@ + la
                + "]\x1b[0m\n"@ + "    Command:  uv add \""@ + f.package + ">"@ + la + "\"\n"@,
            None => "  "@ + f.package + " v"@ + f.current_version + "  \x1b[91m[NO FIX AVAILABLE]\x1b[0m\n"@
                + "    ⚠ No fix available for "@ + decimal_text(f.total_cve_count) + " vulnerabilit"@
                + plural_y(f.total_cve_count) + " — consider replacing this dependency\n"@,
        },
    }) + "\n"@
}

/// The requirement that pulls a transitive dependency in (the package itself when unknown).
pub open spec fn tier1_of(f: FixSpec) -> Seq<char> {
    match f.tier1_dep {
        Some(t) => t,
        None => f.package,
    }
}

/// The advice for a transitive dependency that has a fix version.
pub open spec fn transitive_fix_text(f: FixSpec, fix: Seq<char>) -> Seq<char> {
    let tier1 = tier1_of(f);
    "  "@ + f.package + " "@ + f.current_version + " → "@ + fix + "  ["@ + bump_label_text(f.bump_type)
        + "]  (via: "@ + chain_text(f.ancestors, f.package) + ")\n"@
        + "    Option A: uv lock --upgrade-package "@ + f.package + "\n"@ + "              "@
        + f.option_a_reason + "\n"@ + "    Option B: add \""@ + f.package + ">="@ + fix
        + "\" to pyproject.toml\n"@ + "              if Option A causes a conflict, pin a version floor here\n"@
        + "    Option C: uv lock --upgrade-package "@ + tier1 + "\n"@ + "              last resort — upgrades "@
        + tier1 + " so it pulls in a compatible "@ + f.package + "\n"@
}

/// The advice for a transitive dependency.
pub open spec fn transitive_entry(f: FixSpec) -> Seq<char> {
    let tier1 = tier1_of(f);
    let via = chain_text(f.ancestors, f.package);
    (match f.fix_version {
        Some(fix) => transitive_fix_text(f, fix),
        None => match f.last_affected_version {
            Some(la) => "  "@ + f.package + " v"@ + f.current_version + "  \x1b[93m[UPGRADE BEYOND "@ + la
                + "]\x1b[0m  (via: "@ + via + ")\n"@ + "    Option A: uv lock --upgrade-package "@
                + f.package + "\n"@ + "    Option B: add \""@ + f.package + ">"@ + la
                + "\" to pyproject.toml\n"@ + "    Option C: uv lock --upgrade-package "@ + tier1 + "\n"@,
            None => "  "@ + f.package + " v"@ + f.current_version + "  \x1b[91m[NO FIX AVAILABLE]\x1b[0m  (via: "@
                + via + ")\n"@,
        },
    }) + replace_lines(f.unfixable_cve_ids, tier1) + "\n"@
}

/// The advice for the direct dependencies among `fs`, in order.
pub open spec fn direct_entries(fs: Seq<FixSpec>) -> Seq<char>
    decreases fs.len(),
{
    if fs.len() == 0 {
        seq![]
    } else if fs.last().is_direct {
        direct_entries(fs.drop_last()) + direct_entry(fs.last())
    } else {
        direct_entries(fs.drop_last())
    }
}

/// The advice for the transitive dependencies among `fs`, in order.
pub open spec fn transitive_entries(fs: Seq<FixSpec>) -> Seq<char>
    decreases fs.len(),
{
    if fs.len() == 0 {
        seq![]
    } else if !fs.last().is_direct {
        transitive_entries(fs.drop_last()) + transitive_entry(fs.last())
    } else {
        transitive_entries(fs.drop_last())
    }
}

/// The remediation advice as printed: the direct dependencies first, then the
/// transitive ones, each section present only when it has entries.
pub open spec fn fix_report_text(fs: Seq<FixSpec>) -> Seq<char> {
    "\n=== REMEDIATION SUGGESTIONS ===\n\n"@ + (if exists|i: int| 0 <= i < fs.len() && fs[i].is_direct {
        "Direct dependencies:\n\n"@ + direct_entries(fs)
    } else {
        seq![]
    }) + (if exists|i: int| 0 <= i < fs.len() && !fs[i].is_direct {
        "Transitive dependencies:\n\n"@ + transitive_entries(fs)
    } else {
        seq![]
    })
}

/// Advice that can be printed: a direct dependency with a fix version does not
/// have more unfixable vulnerabilities than vulnerabilities.
pub open spec fn printable(f: FixSpec) -> bool {
    f.is_direct && f.fix_version is Some ==> f.unfixable_cve_ids.len() <= f.total_cve_count
}

fn push_no_fix_lines(out: &mut String, ids: &Vec<String>)
    ensures
        final(out)@ == old(out)@ + no_fix_lines(ids.deep_view()),
{
    let ghost o0 = out@;
    let ghost xs = ids.deep_view();
    let mut i: usize = 0;
    assert(xs.take(0) =~= Seq::<Seq<char>>::empty());
    assert(out@ =~= o0 + no_fix_lines(xs.take(0)));
    while i < ids.len()
        invariant
            i <= ids.len(),
            xs == ids.deep_view(),
            out@ == o0 + no_fix_lines(xs.take(i as int)),
        decreases ids.len() - i,
    {
        push_str(out, "    \x1b[91m⚠ ");
        push_str(out, ids[i].as_str());
        push_str(out, " has no fix available\x1b[0m\n");
        assert(xs.take(i + 1).drop_last() =~= xs.take(i as int));
        assert(xs.take(i + 1).last() == ids@[i as int]@);
        i = i + 1;
        assert(out@ =~= o0 + no_fix_lines(xs.take(i as int)));
    }
    assert(xs.take(ids.len() as int) =~= xs);
}

fn push_replace_lines(out: &mut String, ids: &Vec<String>, tier1: &str)
    ensures
        final(out)@ == old(out)@ + replace_lines(ids.deep_view(), tier1@),
{
    let ghost o0 = out@;
    let ghost xs = ids.deep_view();
    let mut i: usize = 0;
    assert(xs.take(0) =~= Seq::<Seq<char>>::empty());
    assert(out@ =~= o0 + replace_lines(xs.take(0), tier1@));
    while i < ids.len()
        invariant
            i <= ids.len(),
            xs == ids.deep_view(),
            out@ == o0 + replace_lines(xs.take(i as int), tier1@),
        decreases ids.len() - i,
    {
        push_str(out, "    \x1b[91m⚠ ");
        push_str(out, ids[i].as_str());
        push_str(out, " has no fix — consider replacing ");
        push_str(out, tier1);
        push_str(out, "\x1b[0m\n");
        assert(xs.take(i + 1).drop_last() =~= xs.take(i as int));
        assert(xs.take(i + 1).last() == ids@[i as int]@);
        i = i + 1;
        assert(out@ =~= o0 + replace_lines(xs.take(i as int), tier1@));
    }
    assert(xs.take(ids.len() as int) =~= xs);
}

/// The closing line of the advice for a direct dependency with a fix version.
pub open spec fn direct_fix_tail(f: FixSpec) -> Seq<char> {
    let fixable = (f.total_cve_count - f.unfixable_cve_ids.len()) as nat;
    if f.unfixable_cve_ids.len() == 0 {
        "    Fixes "@ + decimal_text(fixable) + " vulnerabilit"@ + plural_y(fixable) + "\n"@
    } else {
        "    Fixes "@ + decimal_text(fixable) + " of "@ + decimal_text(f.total_cve_count)
            + " vulnerabilities\n"@ + no_fix_lines(f.unfixable_cve_ids)
    }
}

fn direct_fix_tail_string(s: &FixSuggestion) -> (r: String)
    requires
        s.unfixable_cve_ids.len() <= s.total_cve_count,
    ensures
        r@ == direct_fix_tail(fix_view(*s)),
{
    let mut l = String::new();
    push_str(&mut l, "    Fixes ");
    assert(l@ =~= "    Fixes "@);
    let fixable = s.total_cve_count - s.unfixable_cve_ids.len();
    if s.unfixable_cve_ids.len() == 0 {
        push_decimal(&mut l, fixable);
        push_str(&mut l, " vulnerabilit");
        push_str(&mut l, if fixable == 1 { "y" } else { "ies" });
        push_str(&mut l, "\n");
    } else {
        push_decimal(&mut l, fixable);
        push_str(&mut l, " of ");
        push_decimal(&mut l, s.total_cve_count);
        push_str(&mut l, " vulnerabilities\n");
        push_no_fix_lines(&mut l, &s.unfixable_cve_ids);
    }
    l
}

fn direct_fix_string(s: &FixSuggestion, fix: &String) -> (r: String)
    requires
        s.unfixable_cve_ids.len() <= s.total_cve_count,
    ensures
        r@ == direct_fix_text(fix_view(*s), fix@),
{
    let bump = bump_label(s.bump_type.as_str());
    let tail = direct_fix_tail_string(s);
    let mut l = String::new();
    push_str(&mut l, "  ");
    assert(l@ =~= "  "@);
    push_str(&mut l, s.package.as_str());
    push_str(&mut l, " ");
    push_str(&mut l, s.current_version.as_str());
    push_str(&mut l, " → ");
    push_str(&mut l, fix.as_str());
    push_str(&mut l, "  [");
    push_str(&mut l, bump.as_str());
    push_str(&mut l, "]\n");
    push_str(&mut l, "    Command:         uv add \"");
    push_str(&mut l, s.package.as_str());
    push_str(&mut l, ">=");
    push_str(&mut l, fix.as_str());
    push_str(&mut l, "\"\n");
    push_str(&mut l, "    pyproject.toml:  \"");
    push_str(&mut l, s.package.as_str());
    push_str(&mut l, ">=");
    push_str(&mut l, fix.as_str());
    push_str(&mut l, "\"\n");
    push_str(&mut l, tail.as_str());
    l
}

fn direct_entry_string(s: &FixSuggestion) -> (r: String)
    requires
        printable(fix_view(*s)),
        s.is_direct,
    ensures
        r@ == direct_entry(fix_view(*s)),
{
    let mut l = match &s.fix_version {
        Some(fix) => direct_fix_string(s, fix),
        None => match &s.last_affected_version {
            Some(la) => {
                let mut l = String::new();
                push_str(&mut l, "  ");
                assert(l@ =~= "  "@);
                push_str(&mut l, s.package.as_str());
                push_str(&mut l, " v");
                push_str(&mut l, s.current_version.as_str());
                push_str(&mut l, "  \x1b[93m[UPGRADE BEYOND ");
                push_str(&mut l, la.as_str());
                push_str(&mut l, "]\x1b[0m\n");
                push_str(&mut l, "    Command:  uv add \"");
                push_str(&mut l, s.package.as_str());
                push_str(&mut l, ">");
                push_str(&mut l, la.as_str());
                push_str(&mut l, "\"\n");
                l
            },
            None => {
                let mut l = String::new();
                push_str(&mut l, "  ");
                assert(l@ =~= "  "@);
                push_str(&mut l, s.package.as_str());
                push_str(&mut l, " v");
                push_str(&mut l, s.current_version.as_str());
                push_str(&mut l, "  \x1b[91m[NO FIX AVAILABLE]\x1b[0m\n");
                push_str(&mut l, "    ⚠ No fix available for ");
                push_decimal(&mut l, s.total_cve_count);
                push_str(&mut l, " vulnerabilit");
                push_str(&mut l, if s.total_cve_count == 1 { "y" } else { "ies" });
                push_str(&mut l, " — consider replacing this dependency\n");
                l
            },
        },
    };
    push_str(&mut l, "\n");
    l
}

fn transitive_fix_string(s: &FixSuggestion, fix: &String, tier1: &str) -> (r: String)
    requires
        tier1@ == tier1_of(fix_view(*s)),
    ensures
        r@ == transitive_fix_text(fix_view(*s), fix@),
{
    let bump = bump_label(s.bump_type.as_str());
    let mut l = String::new();
    push_str(&mut l, "  ");
    assert(l@ =~= "  "@);
    push_str(&mut l, s.package.as_str());
    push_str(&mut l, " ");
    push_str(&mut l, s.current_version.as_str());
    push_str(&mut l, " → ");
    push_str(&mut l, fix.as_str());
    push_str(&mut l, "  [");
    push_str(&mut l, bump.as_str());
    push_str(&mut l, "]  (via: ");
    push_chain(&mut l, &s.ancestors, s.package.as_str());
    push_str(&mut l, ")\n");
    push_str(&mut l, "    Option A: uv lock --upgrade-package ");
    push_str(&mut l, s.package.as_str());
    push_str(&mut l, "\n");
    push_str(&mut l, "              ");
    push_str(&mut l, s.option_a_reason.as_str());
    push_str(&mut l, "\n");
    push_str(&mut l, "    Option B: add \"");
    push_str(&mut l, s.package.as_str());
    push_str(&mut l, ">=");
    push_str(&mut l, fix.as_str());
    push_str(&mut l, "\" to pyproject.toml\n");
    push_str(&mut l, "              if Option A causes a conflict, pin a version floor here\n");
    push_str(&mut l, "    Option C: uv lock --upgrade-package ");
    push_str(&mut l, tier1);
    push_str(&mut l, "\n");
    push_str(&mut l, "              last resort — upgrades ");
    push_str(&mut l, tier1);
    push_str(&mut l, " so it pulls in a compatible ");
    push_str(&mut l, s.package.as_str());
    push_str(&mut l, "\n");
    l
}

fn transitive_head_string(s: &FixSuggestion, tier1: &str) -> (r: String)
    requires
        tier1@ == tier1_of(fix_view(*s)),
    ensures
        r@ == (match fix_view(*s).fix_version {
            Some(fix) => transitive_fix_text(fix_view(*s), fix),
            None => match fix_view(*s).last_affected_version {
                Some(la) => "  "@ + s.package@ + " v"@ + s.current_version@ + "  \x1b[93m[UPGRADE BEYOND "@ + la
                    + "]\x1b[0m  (via: "@ + chain_text(s.ancestors.deep_view(), s.package@) + ")\n"@
                    + "    Option A: uv lock --upgrade-package "@ + s.package@ + "\n"@ + "    Option B: add \""@
                    + s.package@ + ">"@ + la + "\" to pyproject.toml\n"@ + "    Option C: uv lock --upgrade-package "@
                    + tier1@ + "\n"@,
                None => "  "@ + s.package@ + " v"@ + s.current_version@
                    + "  \x1b[91m[NO FIX AVAILABLE]\x1b[0m  (via: "@ + chain_text(s.ancestors.deep_view(), s.package@)
                    + ")\n"@,
            },
        }),
{
    match &s.fix_version {
        Some(fix) => transitive_fix_string(s, fix, tier1),
        None => match &s.last_affected_version {
            Some(la) => {
                let mut l = String::new();
                push_str(&mut l, "  ");
                assert(l@ =~= "  "@);
                push_str(&mut l, s.package.as_str());
                push_str(&mut l, " v");
                push_str(&mut l, s.current_version.as_str());
                push_str(&mut l, "  \x1b[93m[UPGRADE BEYOND ");
                push_str(&mut l, la.as_str());
                push_str(&mut l, "]\x1b[0m  (via: ");
                push_chain(&mut l, &s.ancestors, s.package.as_str());
                push_str(&mut l, ")\n");
                push_str(&mut l, "    Option A: uv lock --upgrade-package ");
                push_str(&mut l, s.package.as_str());
                push_str(&mut l, "\n");
                push_str(&mut l, "    Option B: add \"");
                push_str(&mut l, s.package.as_str());
                push_str(&mut l, ">");
                push_str(&mut l, la.as_str());
                push_str(&mut l, "\" to pyproject.toml\n");
                push_str(&mut l, "    Option C: uv lock --upgrade-package ");
                push_str(&mut l, tier1);
                push_str(&mut l, "\n");
                l
            },
            None => {
                let mut l = String::new();
                push_str(&mut l, "  ");
                assert(l@ =~= "  "@);
                push_str(&mut l, s.package.as_str());
                push_str(&mut l, " v");
                push_str(&mut l, s.current_version.as_str());
                push_str(&mut l, "  \x1b[91m[NO FIX AVAILABLE]\x1b[0m  (via: ");
                push_chain(&mut l, &s.ancestors, s.package.as_str());
                push_str(&mut l, ")\n");
                l
            },
        },
    }
}

fn transitive_entry_string(s: &FixSuggestion) -> (r: String)
    ensures
        r@ == transitive_entry(fix_view(*s)),
{
    let tier1: &str = match &s.tier1_dep {
        Some(t) => t.as_str(),
        None => s.package.as_str(),
    };
    let mut l = transitive_head_string(s, tier1);
    push_replace_lines(&mut l, &s.unfixable_cve_ids, tier1);
    push_str(&mut l, "\n");
    l
}

/// The remediation advice, as printed.
pub fn render_fix_suggestions(suggestions: &Vec<FixSuggestion>) -> (r: String)
    requires
        forall|i: int| 0 <= i < suggestions.len() ==> printable(#[trigger] fix_view(suggestions@[i])),
    ensures
        r@ == fix_report_text(fix_views(suggestions@)),
{
    let ghost fs = fix_views(suggestions@);
    let mut out = String::new();
    push_str(&mut out, "\n=== REMEDIATION SUGGESTIONS ===\n\n");
    let ghost o0 = out@;
    let mut any_direct = false;
    let mut any_transitive = false;
    let mut i: usize = 0;
    while i < suggestions.len()
        invariant
            i <= suggestions.len(),
            fs == fix_views(suggestions@),
            any_direct == exists|k: int| 0 <= k < i && (#[trigger] fs[k]).is_direct,
            any_transitive == exists|k: int| 0 <= k < i && !(#[trigger] fs[k]).is_direct,
        decreases suggestions.len() - i,
    {
        assert(fs[i as int].is_direct == suggestions@[i as int].is_direct);
        if suggestions[i].is_direct {
            any_direct = true;
        } else {
            any_transitive = true;
        }
        i = i + 1;
    }
    if any_direct {
        push_str(&mut out, "Direct dependencies:\n\n");
        let ghost o1 = out@;
        let mut j: usize = 0;
        assert(fs.take(0) =~= Seq::<FixSpec>::empty());
        assert(out@ =~= o1 + direct_entries(fs.take(0)));
        while j < suggestions.len()
            invariant
                j <= suggestions.len(),
                fs == fix_views(suggestions@),
                forall|i: int| 0 <= i < suggestions.len() ==> printable(#[trigger] fix_view(suggestions@[i])),
                out@ == o1 + direct_entries(fs.take(j as int)),
            decreases suggestions.len() - j,
        {
            assert(fs.take(j + 1).drop_last() =~= fs.take(j as int));
            assert(fs.take(j + 1).last() == fix_view(suggestions@[j as int]));
            if suggestions[j].is_direct {
                let e = direct_entry_string(&suggestions[j]);
                push_str(&mut out, e.as_str());
            }
            j = j + 1;
            assert(out@ =~= o1 + direct_entries(fs.take(j as int)));
        }
        assert(fs.take(suggestions.len() as int) =~= fs);
    }
    let ghost o2 = out@;
    if any_transitive {
        push_str(&mut out, "Transitive dependencies:\n\n");
        let ghost o3 = out@;
        let mut j: usize = 0;
        assert(fs.take(0) =~= Seq::<FixSpec>::empty());
        assert(out@ =~= o3 + transitive_entries(fs.take(0)));
        while j < suggestions.len()
            invariant
                j <= suggestions.len(),
                fs == fix_views(suggestions@),
                out@ == o3 + transitive_entries(fs.take(j as int)),
            decreases suggestions.len() - j,
        {
            assert(fs.take(j + 1).drop_last() =~= fs.take(j as int));
            assert(fs.take(j + 1).last() == fix_view(suggestions@[j as int]));
            if !suggestions[j].is_direct {
                let e = transitive_entry_string(&suggestions[j]);
                push_str(&mut out, e.as_str());
            }
            j = j + 1;
            assert(out@ =~= o3 + transitive_entries(fs.take(j as int)));
        }
        assert(fs.take(suggestions.len() as int) =~= fs);
    }
    assert(out@ =~= fix_report_text(fs));
    out
}

/// The message for a project file that is not there, or nothing when both are.
pub open spec fn missing_file_message(pyproject: Seq<char>, lockfile: Seq<char>, pyproject_found: bool, lockfile_found: bool) -> Option<Seq<char>> {
    if !pyproject_found {
        Some("pyproject.toml not found at "@ + pyproject + "\n\npy-uv-audit must be run from the root of a uv-managed Python project,\nor pointed at one explicitly:\n\n    py-uv-audit audit --pyproject <PATH> --lockfile <PATH>\n\nA 'uv-managed project' is any directory containing both pyproject.toml\nand uv.lock (created by `uv init` or `uv lock`)."@)
    } else if !lockfile_found {
        Some("uv.lock not found at "@ + lockfile + "\n\nRun `uv lock` to generate it, or point py-uv-audit at an existing\none with --lockfile <PATH>."@)
    } else {
        None
    }
}

/// Checks that both project files exist, given whether each path names a file:
/// the error for the first one missing, `pyproject.toml` first.
pub fn check_project_files(pyproject: &str, lockfile: &str, pyproject_found: bool, lockfile_found: bool) -> (r: Result<(), String>)
    ensures
        match r {
            Ok(()) => missing_file_message(pyproject@, lockfile@, pyproject_found, lockfile_found) is None,
            Err(m) => missing_file_message(pyproject@, lockfile@, pyproject_found, lockfile_found) == Some(m@),
        },
{
    if !pyproject_found {
        let mut m = String::new();
        push_str(&mut m, "pyproject.toml not found at ");
        push_str(&mut m, pyproject);
        push_str(&mut m, "\n\npy-uv-audit must be run from the root of a uv-managed Python project,\nor pointed at one explicitly:\n\n    py-uv-audit audit --pyproject <PATH> --lockfile <PATH>\n\nA 'uv-managed project' is any directory containing both pyproject.toml\nand uv.lock (created by `uv init` or `uv lock`).");
        return Err(m);
    }
    if !lockfile_found {
        let mut m = String::new();
        push_str(&mut m, "uv.lock not found at ");
        push_str(&mut m, lockfile);
        push_str(&mut m, "\n\nRun `uv lock` to generate it, or point py-uv-audit at an existing\none with --lockfile <PATH>.");
        return Err(m);
    }
    Ok(())
}

} // verus!
