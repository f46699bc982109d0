//! Properties of the library's answers, stated over all inputs: the reach of an
//! upgrade, what a report says of each vulnerability record, and the lines that
//! the printed texts hold.
use vstd::prelude::*;
use crate::audit::{cve_for, cve_view, cves_of, lemma_requirements_placed, report_views, root_names, scan_audit, scan_of, CveSpec, ReportSpec, ScanResult};
use crate::fix::{suggestion_for, FixSpec};
use crate::graph::{extras_suffix, join_commas};
use crate::lock::LockMap;
use crate::osv::{
    advisory_url_of, first_in_events, fix_version_of, last_affected_of, opt_view, severity_of, OsvAffected, OsvEvent,
    OsvRange, OsvVulnDetail,
};
use crate::report::{cve_fixed_line, cve_text, cves_text, direct_entries, direct_entry, fix_report_text, report_block, report_blocks, scan_report_text, transitive_entry};
use crate::store::StringMap;
use crate::text::{contains_text, occurs_at};
use crate::names::{index_of_char, lemma_index_of_char, split_on};
use crate::text::{all_digits, decimal_value};
use crate::version::{bump_of, bump_reason_text, bump_text, digit_run, lemma_digit_run, part_value, version_triple};

verus! {

/// The reach of an upgrade is set by the first release number that grows: `MAJOR`
/// whenever the fixed version's major number is greater than the current one's,
/// whatever the minor numbers are; `MINOR` only when the major number does not
/// grow and the minor number does; `PATCH` otherwise. The sentence explaining an
/// in-place upgrade names the same reach.
pub proof fn law_bump_follows_the_first_number_that_grows(
    current: Seq<char>,
    fixed: Seq<char>,
    parent: Seq<char>,
    parent_ver: Seq<char>,
)
    ensures
        version_triple(fixed).0 > version_triple(current).0 ==> bump_text(bump_of(current, fixed)) == "MAJOR"@
            && bump_reason_text(current, fixed, parent, parent_ver) == "MAJOR bump — verify "@ + parent + " v"@
            + parent_ver + " supports this version before upgrading"@,
        version_triple(fixed).0 <= version_triple(current).0 && version_triple(fixed).1 > version_triple(current).1
            ==> bump_text(bump_of(current, fixed)) == "MINOR"@ && bump_reason_text(current, fixed, parent, parent_ver)
            == "MINOR bump — "@ + parent + " v"@ + parent_ver
            + " supports this version (new features, no breaking changes)"@,
        version_triple(fixed).0 <= version_triple(current).0 && version_triple(fixed).1 <= version_triple(current).1
            ==> bump_text(bump_of(current, fixed)) == "PATCH"@ && bump_reason_text(current, fixed, parent, parent_ver)
            == "PATCH bump — "@ + parent + " v"@ + parent_ver + " already supports this version"@,
        bump_text(bump_of(current, fixed)) == "MAJOR"@ <==> version_triple(fixed).0 > version_triple(current).0,
{
    reveal_strlit("MAJOR");
    reveal_strlit("MINOR");
    reveal_strlit("PATCH");
    assert("MINOR"@[1] != "MAJOR"@[1]);
    assert("PATCH"@[0] != "MAJOR"@[0]);
    assert("MINOR"@ != "MAJOR"@);
    assert("PATCH"@ != "MAJOR"@);
}

/// The advice for a package with a fix version is `MAJOR` whenever the fix
/// version's major number is greater than the locked version's, and then, for a
/// transitive package, the reason asks to verify the parent first.
pub proof fn law_advice_bump_follows_the_major_number(
    name: Seq<char>,
    ancestors: Seq<Seq<char>>,
    ids: Seq<Seq<char>>,
    lock: LockMap,
    details: StringMap<OsvVulnDetail>,
)
    ensures
        ({
            let f = suggestion_for(name, ancestors, ids, lock, details);
            f.fix_version matches Some(v) && version_triple(v).0 > version_triple(f.current_version).0 ==> {
                &&& f.bump_type == "MAJOR"@
                &&& ancestors.len() > 0 ==> f.option_a_reason == "MAJOR bump — verify "@ + ancestors.last() + " v"@
                    + f.immediate_parent_version->0 + " supports this version before upgrading"@
            }
        }),
{
    let f = suggestion_for(name, ancestors, ids, lock, details);
    if let Some(v) = f.fix_version {
        law_bump_follows_the_first_number_that_grows(
            f.current_version,
            v,
            if ancestors.len() > 0 { ancestors.last() } else { seq![] },
            if ancestors.len() > 0 { f.immediate_parent_version->0 } else { seq![] },
        );
    }
}

/// What a report says of a vulnerability whose record was fetched is what the
/// record gives: its summary and details, and the severity, fix version, last
/// affected version and advisory link that the record's extractors read from it.
pub proof fn law_reported_vulnerability_follows_its_record(id: Seq<char>, details: StringMap<OsvVulnDetail>)
    ensures
        cve_for(id, details).id == id,
        details.get(id) matches Some(d) ==> {
            &&& cve_for(id, details).summary == opt_view(d.summary)
            &&& cve_for(id, details).details == opt_view(d.details)
            &&& cve_for(id, details).severity == severity_of(d)
            &&& cve_for(id, details).fix_version == fix_version_of(d)
            &&& cve_for(id, details).last_affected_version == last_affected_of(d)
            &&& cve_for(id, details).advisory_url == advisory_url_of(d)
        },
        details.get(id) is None ==> cve_for(id, details).fix_version is None
            && cve_for(id, details).last_affected_version is None,
{
}

/// In a completed scan, each vulnerability of each report whose record was
/// fetched carries the record's fix version and last affected version, as
/// `extract_fix_version` and `extract_last_affected` read them from the record.
pub proof fn law_scan_reports_carry_the_record_versions(
    reqs: Seq<Seq<char>>,
    total: nat,
    lock: LockMap,
    vuln_ids: StringMap<Vec<String>>,
    details: StringMap<OsvVulnDetail>,
    r: ScanResult,
)
    requires
        scan_of(reqs, total, lock, vuln_ids, details, r),
    ensures
        forall|i: int, c: int|
            0 <= i < r.vulnerabilities.len() && 0 <= c < r.vulnerabilities@[i].cves.len() ==> (details.get(
                (#[trigger] r.vulnerabilities@[i].cves@[c]).id@,
            ) matches Some(d) ==> opt_view(r.vulnerabilities@[i].cves@[c].last_affected_version) == last_affected_of(d)
                && opt_view(r.vulnerabilities@[i].cves@[c].fix_version) == fix_version_of(d)),
{
    let reps = report_views(r.vulnerabilities@);
    let a = scan_audit(lock, reqs, r.vuln_ids, details);
    lemma_requirements_placed(lock, reqs, Set::empty(), Set::empty(), root_names(reqs), r.vuln_ids, details);
    assert forall|i: int, c: int|
        0 <= i < r.vulnerabilities.len() && 0 <= c < r.vulnerabilities@[i].cves.len() implies (details.get(
            (#[trigger] r.vulnerabilities@[i].cves@[c]).id@,
        ) matches Some(d) ==> opt_view(r.vulnerabilities@[i].cves@[c].last_affected_version) == last_affected_of(d)
            && opt_view(r.vulnerabilities@[i].cves@[c].fix_version) == fix_version_of(d)) by {
        assert(reps[i] == a.2[i]);
        let name = reps[i].package;
        assert(reps[i].cves == cves_of(name, r.vuln_ids, details));
        assert(reps[i].cves[c] == cve_view(r.vulnerabilities@[i].cves@[c]));
        let id = reps[i].cves[c].id;
        assert(reps[i].cves[c] == cve_for(crate::audit::ids_of(r.vuln_ids, name)[c], details));
    }
}


/// The first event of a list that names a `lastAffected` version is at `k`.
pub open spec fn first_last_affected_at(evs: Seq<OsvEvent>, k: int) -> bool {
    &&& 0 <= k < evs.len()
    &&& evs[k].last_affected is Some
    &&& forall|j: int| 0 <= j < k ==> (#[trigger] evs[j]).last_affected is None
}

/// The first event of a list that names a `fixed` version is at `k`.
pub open spec fn first_fixed_at(evs: Seq<OsvEvent>, k: int) -> bool {
    &&& 0 <= k < evs.len()
    &&& evs[k].fixed is Some
    &&& forall|j: int| 0 <= j < k ==> (#[trigger] evs[j]).fixed is None
}

/// Reading a list of events: the `lastAffected` version found is that of the first
/// event that names one, none when no event does; the same for `fixed`.
pub proof fn lemma_first_in_events(evs: Seq<OsvEvent>)
    ensures
        forall|k: int| first_last_affected_at(evs, k) ==> first_in_events(evs, true) == Some(evs[k].last_affected->0@),
        (forall|j: int| 0 <= j < evs.len() ==> (#[trigger] evs[j]).last_affected is None) ==> first_in_events(evs, true) is None,
        forall|k: int| first_fixed_at(evs, k) ==> first_in_events(evs, false) == Some(evs[k].fixed->0@),
        (forall|j: int| 0 <= j < evs.len() ==> (#[trigger] evs[j]).fixed is None) ==> first_in_events(evs, false) is None,
    decreases evs.len(),
{
    if evs.len() > 0 {
        let t = evs.drop_first();
        lemma_first_in_events(t);
        assert forall|k: int| first_last_affected_at(evs, k) implies first_in_events(evs, true) == Some(evs[k].last_affected->0@) by {
            if k > 0 {
                assert(evs[0].last_affected is None);
                assert(first_last_affected_at(t, k - 1)) by {
                    assert forall|j: int| 0 <= j < k - 1 implies (#[trigger] t[j]).last_affected is None by {
                        assert(t[j] == evs[j + 1]);
                    }
                }
            }
        }
        assert forall|k: int| first_fixed_at(evs, k) implies first_in_events(evs, false) == Some(evs[k].fixed->0@) by {
            if k > 0 {
                assert(evs[0].fixed is None);
                assert(first_fixed_at(t, k - 1)) by {
                    assert forall|j: int| 0 <= j < k - 1 implies (#[trigger] t[j]).fixed is None by {
                        assert(t[j] == evs[j + 1]);
                    }
                }
            }
        }
        if forall|j: int| 0 <= j < evs.len() ==> (#[trigger] evs[j]).last_affected is None {
            assert(evs[0].last_affected is None);
            assert forall|j: int| 0 <= j < t.len() implies (#[trigger] t[j]).last_affected is None by {
                assert(t[j] == evs[j + 1]);
            }
        }
        if forall|j: int| 0 <= j < evs.len() ==> (#[trigger] evs[j]).fixed is None {
            assert(evs[0].fixed is None);
            assert forall|j: int| 0 <= j < t.len() implies (#[trigger] t[j]).fixed is None by {
                assert(t[j] == evs[j + 1]);
            }
        }
    }
}

/// A record with one affected entry holding one range of events: its last affected
/// version is the version of the first `lastAffected` event, and its fix version
/// that of the first `fixed` event; a report of one of its vulnerabilities carries
/// both.
pub proof fn law_record_versions_are_the_first_events(
    d: OsvVulnDetail,
    evs: Vec<OsvEvent>,
    id: Seq<char>,
    details: StringMap<OsvVulnDetail>,
)
    requires
        (d.affected matches Some(afs) && afs@.len() == 1 && (afs@[0].ranges matches Some(rs) && rs@.len() == 1
            && rs@[0].events == Some(evs))),
        details.get(id) == Some(d),
    ensures
        forall|k: int| first_last_affected_at(evs@, k) ==> last_affected_of(d) == Some(evs@[k].last_affected->0@)
            && cve_for(id, details).last_affected_version == Some(evs@[k].last_affected->0@),
        (forall|j: int| 0 <= j < evs@.len() ==> (#[trigger] evs@[j]).last_affected is None) ==> last_affected_of(d) is None,
        forall|k: int| first_fixed_at(evs@, k) ==> fix_version_of(d) == Some(evs@[k].fixed->0@)
            && cve_for(id, details).fix_version == Some(evs@[k].fixed->0@),
        (forall|j: int| 0 <= j < evs@.len() ==> (#[trigger] evs@[j]).fixed is None) ==> fix_version_of(d) is None,
{
    lemma_first_in_events(evs@);
    let afs = d.affected->0@;
    let rs = afs[0].ranges->0@;
    assert(afs.drop_first().len() == 0);
    assert(rs.drop_first().len() == 0);
    assert(crate::osv::first_in_ranges(rs.drop_first(), true) is None);
    assert(crate::osv::first_in_ranges(rs.drop_first(), false) is None);
    assert(crate::osv::first_in_affected(afs.drop_first(), true) is None);
    assert(crate::osv::first_in_affected(afs.drop_first(), false) is None);
}

/// `small` stands somewhere in `big`.
pub open spec fn occurs_in(small: Seq<char>, big: Seq<char>) -> bool {
    contains_text(big, small)
}

/// A text stands in any text made of it with something before and after.
pub proof fn lemma_occurs_here(pre: Seq<char>, small: Seq<char>, post: Seq<char>)
    ensures
        occurs_in(small, pre + small + post),
{
    assert((pre + small + post).subrange(pre.len() as int, (pre.len() + small.len()) as int) =~= small);
    assert(occurs_at(pre + small + post, small, pre.len() as int));
}

/// What stands in a text stands in any text made of it with something before and
/// after.
pub proof fn lemma_occurs_within(small: Seq<char>, big: Seq<char>, pre: Seq<char>, post: Seq<char>)
    requires
        occurs_in(small, big),
    ensures
        occurs_in(small, pre + big + post),
{
    let i = choose|i: int| #[trigger] occurs_at(big, small, i);
    let all = pre + big + post;
    assert(all.subrange(pre.len() + i, pre.len() + i + small.len()) =~= big.subrange(i, i + small.len()));
    assert(occurs_at(all, small, pre.len() + i));
}

/// What stands in a part stands in the whole.
pub proof fn lemma_occurs_trans(a: Seq<char>, b: Seq<char>, c: Seq<char>)
    requires
        occurs_in(a, b),
        occurs_in(b, c),
    ensures
        occurs_in(a, c),
{
    let i = choose|i: int| #[trigger] occurs_at(b, a, i);
    let j = choose|j: int| #[trigger] occurs_at(c, b, j);
    assert forall|k: int| 0 <= k < a.len() implies c[j + i + k] == a[k] by {
        assert(b.subrange(i, i + a.len())[k] == a[k]);
        assert(c.subrange(j, j + b.len())[i + k] == b[i + k]);
    }
    assert(c.subrange(j + i, j + i + a.len()) =~= a);
    assert(occurs_at(c, a, j + i));
}

/// Each vulnerability's lines stand in the lines of the list.
pub proof fn lemma_cve_in_cves(cs: Seq<CveSpec>, m: int)
    requires
        0 <= m < cs.len(),
    ensures
        occurs_in(cve_text(cs[m]), cves_text(cs)),
    decreases cs.len(),
{
    let t = cs.drop_last();
    if m == cs.len() - 1 {
        lemma_occurs_here(cves_text(t), cve_text(cs[m]), seq![]);
        assert(cves_text(t) + cve_text(cs[m]) + Seq::<char>::empty() =~= cves_text(cs));
    } else {
        assert(cs[m] == t[m]);
        lemma_cve_in_cves(t, m);
        lemma_occurs_within(cve_text(cs[m]), cves_text(t), seq![], cve_text(cs.last()));
        assert(Seq::<char>::empty() + cves_text(t) + cve_text(cs.last()) =~= cves_text(cs));
    }
}

/// Each package's block stands in the blocks of the list.
pub proof fn lemma_block_in_blocks(rs: Seq<ReportSpec>, k: int)
    requires
        0 <= k < rs.len(),
    ensures
        occurs_in(report_block(rs[k]), report_blocks(rs)),
    decreases rs.len(),
{
    let t = rs.drop_last();
    if k == rs.len() - 1 {
        lemma_occurs_here(report_blocks(t), report_block(rs[k]), seq![]);
        assert(report_blocks(t) + report_block(rs[k]) + Seq::<char>::empty() =~= report_blocks(rs));
    } else {
        assert(rs[k] == t[k]);
        lemma_block_in_blocks(t, k);
        lemma_occurs_within(report_block(rs[k]), report_blocks(t), seq![], report_block(rs.last()));
        assert(Seq::<char>::empty() + report_blocks(t) + report_block(rs.last()) =~= report_blocks(rs));
    }
}

/// The line of the report that says where a vulnerability is fixed names a bare
/// version only when it is the vulnerability's fix version; with no fix version
/// and a last affected version `la`, it reads "no fix version — last affected: "
/// and `la`. That line stands in the printed report of every package that has the
/// vulnerability.
pub proof fn law_fixed_line_names_only_the_fix_version(
    c: CveSpec,
    v: Seq<char>,
    rs: Seq<ReportSpec>,
    total: nat,
    k: int,
    m: int,
)
    ensures
        cve_fixed_line(c) == "    Fixed in: "@ + v + "\n"@ ==> c.fix_version == Some(v) || v.take(7) == "no fix "@,
        c.fix_version == Some(v) ==> cve_fixed_line(c) == "    Fixed in: "@ + v + "\n"@,
        c.fix_version is None && c.last_affected_version is Some ==> cve_fixed_line(c)
            == "    Fixed in: no fix version — last affected: "@ + c.last_affected_version->0 + "\n"@,
        0 <= k < rs.len() && 0 <= m < rs[k].cves.len() ==> occurs_in(cve_fixed_line(rs[k].cves[m]), scan_report_text(rs, total)),
{
    reveal_strlit("    Fixed in: ");
    reveal_strlit("    Fixed in: no fix version — last affected: ");
    reveal_strlit("    Fixed in: no fix available\n");
    reveal_strlit("no fix ");
    reveal_strlit("\n");
    let head = "    Fixed in: "@;
    if cve_fixed_line(c) == head + v + "\n"@ {
        let line = cve_fixed_line(c);
        assert(line.subrange(head.len() as int, line.len() - 1) =~= v);
        match c.fix_version {
            Some(f) => {
                assert(line == head + f + "\n"@);
                assert(line.subrange(head.len() as int, line.len() - 1) =~= f);
            },
            None => match c.last_affected_version {
                Some(la) => {
                    assert(line == "    Fixed in: no fix version — last affected: "@ + la + "\n"@);
                    assert forall|q: int| 0 <= q < 7 implies v[q] == "no fix "@[q] by {
                        assert(v[q] == line[14 + q]);
                    }
                    assert(v.take(7) =~= "no fix "@);
                },
                None => {
                    assert(line == "    Fixed in: no fix available\n"@);
                    assert(v.len() == 16);
                    assert forall|q: int| 0 <= q < 7 implies v[q] == "no fix "@[q] by {
                        assert(v[q] == line[14 + q]);
                    }
                    assert(v.take(7) =~= "no fix "@);
                },
            },
        }
    }
    if 0 <= k < rs.len() && 0 <= m < rs[k].cves.len() {
        let cv = rs[k].cves[m];
        lemma_occurs_here(crate::report::cve_head(cv) + crate::report::cve_severity_line(cv), cve_fixed_line(cv), crate::report::cve_advisory_line(cv));
        assert(crate::report::cve_head(cv) + crate::report::cve_severity_line(cv) + cve_fixed_line(cv) + crate::report::cve_advisory_line(cv) =~= cve_text(cv));
        lemma_cve_in_cves(rs[k].cves, m);
        lemma_occurs_trans(cve_fixed_line(cv), cve_text(cv), cves_text(rs[k].cves));
        let r = rs[k];
        let pre = "VULNERABLE: "@ + r.package + " v"@ + r.version + "\n"@ + (if r.ancestors.len() == 0 {
            "  Introduced via: [direct dependency]\n"@
        } else {
            "  Introduced via: "@ + crate::report::chain_text(r.ancestors, r.package) + "\n"@
        });
        lemma_occurs_here(pre, cves_text(r.cves), "\n"@);
        assert(pre + cves_text(r.cves) + "\n"@ =~= report_block(r));
        lemma_occurs_trans(cve_fixed_line(cv), cves_text(r.cves), report_block(r));
        lemma_block_in_blocks(rs, k);
        lemma_occurs_trans(cve_fixed_line(cv), report_block(r), report_blocks(rs));
        let tail = "--- "@ + crate::text::decimal_text(rs.len()) + " vulnerable package(s) found ("@
            + crate::text::decimal_text(total) + " total scanned) ---\n"@;
        lemma_occurs_here("\n=== VULNERABILITY REPORT ===\n\n"@, report_blocks(rs), tail);
        assert("\n=== VULNERABILITY REPORT ===\n\n"@ + report_blocks(rs) + tail =~= scan_report_text(rs, total));
        lemma_occurs_trans(cve_fixed_line(cv), report_blocks(rs), scan_report_text(rs, total));
    }
}

/// Each direct entry stands in the direct entries of the list.
pub proof fn lemma_direct_in_entries(fs: Seq<FixSpec>, i: int)
    requires
        0 <= i < fs.len(),
        fs[i].is_direct,
    ensures
        occurs_in(direct_entry(fs[i]), direct_entries(fs)),
    decreases fs.len(),
{
    let t = fs.drop_last();
    if i == fs.len() - 1 {
        lemma_occurs_here(direct_entries(t), direct_entry(fs[i]), seq![]);
        assert(direct_entries(t) + direct_entry(fs[i]) + Seq::<char>::empty() =~= direct_entries(fs));
    } else {
        assert(fs[i] == t[i]);
        lemma_direct_in_entries(t, i);
        if fs.last().is_direct {
            lemma_occurs_within(direct_entry(fs[i]), direct_entries(t), seq![], direct_entry(fs.last()));
            assert(Seq::<char>::empty() + direct_entries(t) + direct_entry(fs.last()) =~= direct_entries(fs));
        }
    }
}

/// The command of a direct dependency with no fix version but a last affected
/// version stands in its entry.
pub proof fn lemma_direct_command_in_entry(f: FixSpec)
    requires
        f.fix_version is None,
        f.last_affected_version is Some,
    ensures
        occurs_in("    Command:  uv add \""@ + f.package + ">"@ + f.last_affected_version->0 + "\"\n"@, direct_entry(f)),
{
    let la = f.last_affected_version->0;
    let head = "  "@ + f.package + " v"@ + f.current_version + "  \x1b[93m[UPGRADE BEYOND "@ + la + "]\x1b[0m\n"@;
    let cmd = "    Command:  uv add \""@ + f.package + ">"@ + la + "\"\n"@;
    lemma_occurs_here(head, cmd, "\n"@);
    assert(head + cmd + "\n"@ =~= direct_entry(f));
}

/// Option B of a transitive dependency with no fix version but a last affected
/// version stands in its entry.
pub proof fn lemma_option_b_in_entry(f: FixSpec)
    requires
        f.fix_version is None,
        f.last_affected_version is Some,
    ensures
        occurs_in(
            "    Option B: add \""@ + f.package + ">"@ + f.last_affected_version->0 + "\" to pyproject.toml\n"@,
            transitive_entry(f),
        ),
{
    let la = f.last_affected_version->0;
    let tier1 = crate::report::tier1_of(f);
    let via = crate::report::chain_text(f.ancestors, f.package);
    let head = "  "@ + f.package + " v"@ + f.current_version + "  \x1b[93m[UPGRADE BEYOND "@ + la
        + "]\x1b[0m  (via: "@ + via + ")\n"@ + "    Option A: uv lock --upgrade-package "@ + f.package + "\n"@;
    let opt = "    Option B: add \""@ + f.package + ">"@ + la + "\" to pyproject.toml\n"@;
    let tail = "    Option C: uv lock --upgrade-package "@ + tier1 + "\n"@ + crate::report::replace_lines(
        f.unfixable_cve_ids,
        tier1,
    ) + "\n"@;
    lemma_occurs_here(head, opt, tail);
    assert(head + opt + tail =~= transitive_entry(f));
}

/// The direct entries stand in the printed advice when some advice is direct.
pub proof fn lemma_direct_entries_in_report(fs: Seq<FixSpec>, i: int)
    requires
        0 <= i < fs.len(),
        fs[i].is_direct,
    ensures
        occurs_in(direct_entries(fs), fix_report_text(fs)),
{
    let top = "\n=== REMEDIATION SUGGESTIONS ===\n\n"@ + "Direct dependencies:\n\n"@;
    let rest = if exists|j: int| 0 <= j < fs.len() && !fs[j].is_direct {
        "Transitive dependencies:\n\n"@ + crate::report::transitive_entries(fs)
    } else {
        seq![]
    };
    assert(exists|j: int| 0 <= j < fs.len() && fs[j].is_direct);
    lemma_occurs_here(top, direct_entries(fs), rest);
    assert(top + direct_entries(fs) + rest =~= fix_report_text(fs));
}

/// The command advised for a direct dependency with no fix version but a last
/// affected version `la` asks for a version strictly beyond `la`: it is
/// `uv add "<package>>la"`, the same constraint that the advice for a transitive
/// dependency puts in its option B. The command stands in the printed advice.
pub proof fn law_upgrade_beyond_is_strict(f: FixSpec, fs: Seq<FixSpec>, i: int)
    ensures
        f.fix_version is None && f.last_affected_version is Some ==> {
            &&& f.is_direct ==> occurs_in(
                "    Command:  uv add \""@ + f.package + ">"@ + f.last_affected_version->0 + "\"\n"@,
                direct_entry(f),
            )
            &&& !f.is_direct ==> occurs_in(
                "    Option B: add \""@ + f.package + ">"@ + f.last_affected_version->0 + "\" to pyproject.toml\n"@,
                transitive_entry(f),
            )
        },
        0 <= i < fs.len() && fs[i].is_direct && fs[i].fix_version is None && fs[i].last_affected_version is Some
            ==> occurs_in(
            "    Command:  uv add \""@ + fs[i].package + ">"@ + fs[i].last_affected_version->0 + "\"\n"@,
            fix_report_text(fs),
        ),
{
    if f.fix_version is None && f.last_affected_version is Some {
        lemma_direct_command_in_entry(f);
        lemma_option_b_in_entry(f);
    }
    if 0 <= i < fs.len() && fs[i].is_direct && fs[i].fix_version is None && fs[i].last_affected_version is Some {
        let g = fs[i];
        let cmd = "    Command:  uv add \""@ + g.package + ">"@ + g.last_affected_version->0 + "\"\n"@;
        lemma_direct_command_in_entry(g);
        lemma_direct_in_entries(fs, i);
        lemma_occurs_trans(cmd, direct_entry(g), direct_entries(fs));
        lemma_direct_entries_in_report(fs, i);
        lemma_occurs_trans(cmd, direct_entries(fs), fix_report_text(fs));
    }
}

/// The extras shown on a line of the tree list every requested extra, in order,
/// separated by commas and in square brackets: none shows nothing, one extra `x`
/// shows `[x]`, and requesting one more extra `x` puts `,x` before the closing
/// bracket.
pub proof fn law_extras_suffix_lists_every_extra(xs: Seq<Seq<char>>, x: Seq<char>)
    ensures
        extras_suffix(seq![]) == Seq::<char>::empty(),
        extras_suffix(seq![x]) == "["@ + x + "]"@,
        xs.len() > 0 ==> extras_suffix(xs.push(x)) == extras_suffix(xs).drop_last() + ","@ + x + "]"@,
        xs.len() > 0 ==> extras_suffix(xs).len() > 0 && extras_suffix(xs).last() == ']',
{
    reveal_strlit("]");
    reveal_strlit("[");
    assert(seq![x].len() == 1);
    if xs.len() > 0 {
        let ys = xs.push(x);
        assert(ys.drop_last() =~= xs);
        assert(ys.last() == x);
        assert(join_commas(ys) == join_commas(xs) + ","@ + x);
        assert(("["@ + join_commas(xs) + "]"@).drop_last() =~= "["@ + join_commas(xs));
        assert(extras_suffix(ys) =~= extras_suffix(xs).drop_last() + ","@ + x + "]"@);
    }
}


/// A string of digits that is not empty and holds no more than `u64::MAX` counts
/// as its value.
pub proof fn lemma_part_value_of_digits(a: Seq<char>)
    requires
        a.len() > 0,
        all_digits(a),
        decimal_value(a) <= u64::MAX,
    ensures
        part_value(a) == decimal_value(a),
{
    lemma_digit_run(a, a.len() as int);
    assert(a.take(a.len() as int) =~= a);
}

/// Splitting at the first `.` of `a + "." + rest`, where `a` holds no `.`.
pub proof fn lemma_split_at_first_dot(a: Seq<char>, rest: Seq<char>)
    requires
        all_digits(a),
    ensures
        split_on(a + "."@ + rest, '.') == seq![a] + split_on(rest, '.'),
{
    reveal_strlit(".");
    let s = a + "."@ + rest;
    assert(s[a.len() as int] == '.');
    assert forall|j: int| 0 <= j < a.len() implies #[trigger] s[j] != '.' by {
        assert(s[j] == a[j]);
        assert(crate::text::is_digit(a[j]));
    }
    lemma_index_of_char(s, '.', a.len() as int);
    assert(s.take(a.len() as int) =~= a);
    assert(s.skip(a.len() as int + 1) =~= rest);
}

/// The release numbers of a version written as three runs of digits joined by `.`
/// are the values of the three runs, in order.
pub proof fn law_version_triple_reads_dotted_numbers(a: Seq<char>, b: Seq<char>, c: Seq<char>)
    requires
        a.len() > 0 && b.len() > 0 && c.len() > 0,
        all_digits(a) && all_digits(b) && all_digits(c),
        decimal_value(a) <= u64::MAX && decimal_value(b) <= u64::MAX && decimal_value(c) <= u64::MAX,
    ensures
        version_triple(a + "."@ + b + "."@ + c) == (
            decimal_value(a) as u64,
            decimal_value(b) as u64,
            decimal_value(c) as u64,
        ),
{
    reveal_strlit(".");
    let rest = b + "."@ + c;
    assert(a + "."@ + b + "."@ + c =~= a + "."@ + rest);
    lemma_split_at_first_dot(a, rest);
    lemma_split_at_first_dot(b, c);
    assert forall|j: int| 0 <= j < c.len() implies #[trigger] c[j] != '.' by {
        assert(crate::text::is_digit(c[j]));
    }
    lemma_index_of_char(c, '.', c.len() as int);
    assert(split_on(c, '.') == seq![c]);
    let parts = split_on(a + "."@ + b + "."@ + c, '.');
    assert(parts =~= seq![a, b, c]);
    lemma_part_value_of_digits(a);
    lemma_part_value_of_digits(b);
    lemma_part_value_of_digits(c);
}


/// The command advised for a direct dependency with a fix version asks for that
/// version or a later one: `uv add "<package>>=fix"`.
pub proof fn law_direct_fix_command_asks_for_the_fix(f: FixSpec)
    ensures
        f.fix_version is Some ==> occurs_in(
            "    Command:         uv add \""@ + f.package + ">="@ + f.fix_version->0 + "\"\n"@,
            direct_entry(f),
        ),
{
    if let Some(fix) = f.fix_version {
        let head = "  "@ + f.package + " "@ + f.current_version + " → "@ + fix + "  ["@
            + crate::report::bump_label_text(f.bump_type) + "]\n"@;
        let cmd = "    Command:         uv add \""@ + f.package + ">="@ + fix + "\"\n"@;
        let tail = "    pyproject.toml:  \""@ + f.package + ">="@ + fix + "\"\n"@ + crate::report::direct_fix_tail(f)
            + "\n"@;
        lemma_occurs_here(head, cmd, tail);
        assert(head + cmd + tail =~= direct_entry(f));
    }
}

} // verus!
