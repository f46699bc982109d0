//! Records of the OSV vulnerability database, and what the report reads from them.
use vstd::prelude::*;
use crate::text::{chars_of, push_str, str_equal};

verus! {

/// A CVSS score of a record.
pub struct OsvSeverity {
    pub severity_type: String,
    pub score: String,
}

/// One event of an affected range.
pub struct OsvEvent {
    pub fixed: Option<String>,
    pub introduced: Option<String>,
    pub last_affected: Option<String>,
}

/// An affected range: its events.
pub struct OsvRange {
    pub events: Option<Vec<OsvEvent>>,
}

/// An affected package entry: its ranges.
pub struct OsvAffected {
    pub ranges: Option<Vec<OsvRange>>,
}

/// A reference link of a record.
pub struct OsvReference {
    pub ref_type: String,
    pub url: String,
}

/// What the report reads from one OSV vulnerability record. `severity_label` is
/// the string under `database_specific.severity`, when there is one (GHSA records
/// keep `HIGH`, `CRITICAL` and so on there).
pub struct OsvVulnDetail {
    pub id: String,
    pub summary: Option<String>,
    pub details: Option<String>,
    pub aliases: Option<Vec<String>>,
    pub severity: Option<Vec<OsvSeverity>>,
    pub affected: Option<Vec<OsvAffected>>,
    pub references: Option<Vec<OsvReference>>,
    pub severity_label: Option<String>,
    /// When the record was withdrawn (retracted), if it was: such a vulnerability
    /// is left out of the report and the advice.
    pub withdrawn: Option<String>,
}

pub open spec fn opt_view(o: Option<String>) -> Option<Seq<char>> {
    match o {
        Some(s) => Some(s@),
        None => None,
    }
}

/// The `fixed` (or, with `last`, the `lastAffected`) version an event names.
pub open spec fn event_version(e: OsvEvent, last: bool) -> Option<String> {
    if last {
        e.last_affected
    } else {
        e.fixed
    }
}

/// The first event of the list that names such a version.
pub open spec fn first_in_events(evs: Seq<OsvEvent>, last: bool) -> Option<Seq<char>>
    decreases evs.len(),
{
    if evs.len() == 0 {
        None
    } else {
        match event_version(evs[0], last) {
            Some(v) => Some(v@),
            None => first_in_events(evs.drop_first(), last),
        }
    }
}

pub open spec fn in_range(r: OsvRange, last: bool) -> Option<Seq<char>> {
    match r.events {
        Some(evs) => first_in_events(evs@, last),
        None => None,
    }
}

/// The first range of the list with such an event.
pub open spec fn first_in_ranges(rs: Seq<OsvRange>, last: bool) -> Option<Seq<char>>
    decreases rs.len(),
{
    if rs.len() == 0 {
        None
    } else {
        match in_range(rs[0], last) {
            Some(v) => Some(v),
            None => first_in_ranges(rs.drop_first(), last),
        }
    }
}

pub open spec fn in_affected(a: OsvAffected, last: bool) -> Option<Seq<char>> {
    match a.ranges {
        Some(rs) => first_in_ranges(rs@, last),
        None => None,
    }
}

/// The first affected entry of the list with such a range.
pub open spec fn first_in_affected(afs: Seq<OsvAffected>, last: bool) -> Option<Seq<char>>
    decreases afs.len(),
{
    if afs.len() == 0 {
        None
    } else {
        match in_affected(afs[0], last) {
            Some(v) => Some(v),
            None => first_in_affected(afs.drop_first(), last),
        }
    }
}

/// The first `fixed` (or `lastAffected`) version of a record, going through its
/// affected entries, their ranges and their events in order.
pub open spec fn record_version(d: OsvVulnDetail, last: bool) -> Option<Seq<char>> {
    match d.affected {
        Some(afs) => first_in_affected(afs@, last),
        None => None,
    }
}

/// The version in which a record's vulnerability was fixed, if it names one.
pub open spec fn fix_version_of(d: OsvVulnDetail) -> Option<Seq<char>> {
    record_version(d, false)
}

/// The last version a record names as affected, if any.
pub open spec fn last_affected_of(d: OsvVulnDetail) -> Option<Seq<char>> {
    record_version(d, true)
}

fn clone_opt(o: &Option<String>) -> (r: Option<String>)
    ensures
        opt_view(r) == opt_view(*o),
{
    match o {
        Some(s) => Some(s.clone()),
        None => None,
    }
}

fn find_in_events(evs: &Vec<OsvEvent>, last: bool) -> (r: Option<String>)
    ensures
        opt_view(r) == first_in_events(evs@, last),
{
    let mut i: usize = 0;
    assert(evs@.skip(0) =~= evs@);
    while i < evs.len()
        invariant
            i <= evs.len(),
            first_in_events(evs@, last) == first_in_events(evs@.skip(i as int), last),
        decreases evs.len() - i,
    {
        let e = &evs[i];
        let v = if last { &e.last_affected } else { &e.fixed };
        assert(evs@.skip(i as int)[0] == evs@[i as int]);
        assert(evs@.skip(i as int).drop_first() =~= evs@.skip(i + 1));
        match v {
            Some(s) => {
                return Some(s.clone());
            },
            None => {},
        }
        i = i + 1;
    }
    None
}

fn find_in_ranges(rs: &Vec<OsvRange>, last: bool) -> (r: Option<String>)
    ensures
        opt_view(r) == first_in_ranges(rs@, last),
{
    let mut i: usize = 0;
    assert(rs@.skip(0) =~= rs@);
    while i < rs.len()
        invariant
            i <= rs.len(),
            first_in_ranges(rs@, last) == first_in_ranges(rs@.skip(i as int), last),
        decreases rs.len() - i,
    {
        assert(rs@.skip(i as int)[0] == rs@[i as int]);
        assert(rs@.skip(i as int).drop_first() =~= rs@.skip(i + 1));
        match &rs[i].events {
            Some(evs) => {
                let found = find_in_events(evs, last);
                if found.is_some() {
                    return found;
                }
            },
            None => {},
        }
        i = i + 1;
    }
    None
}

fn find_in_affected(afs: &Vec<OsvAffected>, last: bool) -> (r: Option<String>)
    ensures
        opt_view(r) == first_in_affected(afs@, last),
{
    let mut i: usize = 0;
    assert(afs@.skip(0) =~= afs@);
    while i < afs.len()
        invariant
            i <= afs.len(),
            first_in_affected(afs@, last) == first_in_affected(afs@.skip(i as int), last),
        decreases afs.len() - i,
    {
        assert(afs@.skip(i as int)[0] == afs@[i as int]);
        assert(afs@.skip(i as int).drop_first() =~= afs@.skip(i + 1));
        match &afs[i].ranges {
            Some(rs) => {
                let found = find_in_ranges(rs, last);
                if found.is_some() {
                    return found;
                }
            },
            None => {},
        }
        i = i + 1;
    }
    None
}

/// The version in which a record's vulnerability was fixed: the first `fixed`
/// event, going through affected entries, ranges and events in order.
pub fn extract_fix_version(detail: &OsvVulnDetail) -> (r: Option<String>)
    ensures
        opt_view(r) == fix_version_of(*detail),
{
    match &detail.affected {
        Some(afs) => find_in_affected(afs, false),
        None => None,
    }
}

/// The last version a record names as affected: the first `lastAffected` event,
/// going through affected entries, ranges and events in order.
pub fn extract_last_affected(detail: &OsvVulnDetail) -> (r: Option<String>)
    ensures
        opt_view(r) == last_affected_of(*detail),
{
    match &detail.affected {
        Some(afs) => find_in_affected(afs, true),
        None => None,
    }
}

/// Whether `s` begins with `p`.
pub open spec fn has_prefix(s: Seq<char>, p: Seq<char>) -> bool {
    p.len() <= s.len() && s.take(p.len() as int) == p
}

/// Whether `s` begins with `prefix` (`str::starts_with`).
pub fn starts_with(s: &str, prefix: &str) -> (r: bool)
    ensures
        r == has_prefix(s@, prefix@),
{
    let a = chars_of(s);
    let p = chars_of(prefix);
    if p.len() > a.len() {
        return false;
    }
    let mut i: usize = 0;
    while i < p.len()
        invariant
            i <= p.len() <= a.len(),
            a@ == s@,
            p@ == prefix@,
            forall|j: int| 0 <= j < i ==> a@[j] == p@[j],
        decreases p.len() - i,
    {
        if a[i] != p[i] {
            assert(s@.take(prefix@.len() as int)[i as int] != prefix@[i as int]);
            return false;
        }
        i = i + 1;
    }
    assert(s@.take(prefix@.len() as int) =~= prefix@);
    true
}

/// The first reference of type `ADVISORY`.
pub open spec fn first_advisory(refs: Seq<OsvReference>) -> Option<Seq<char>>
    decreases refs.len(),
{
    if refs.len() == 0 {
        None
    } else if refs[0].ref_type@ == "ADVISORY"@ {
        Some(refs[0].url@)
    } else {
        first_advisory(refs.drop_first())
    }
}

/// The NVD page of the first alias that is a CVE identifier.
pub open spec fn first_cve_page(aliases: Seq<String>) -> Option<Seq<char>>
    decreases aliases.len(),
{
    if aliases.len() == 0 {
        None
    } else if has_prefix(aliases[0]@, "CVE-"@) {
        Some("https://nvd.nist.gov/vuln/detail/"@ + aliases[0]@)
    } else {
        first_cve_page(aliases.drop_first())
    }
}

/// The advisory link of a record: its first `ADVISORY` reference, else the NVD
/// page of its first `CVE-` alias.
pub open spec fn advisory_url_of(d: OsvVulnDetail) -> Option<Seq<char>> {
    let from_refs = match d.references {
        Some(refs) => first_advisory(refs@),
        None => None,
    };
    match from_refs {
        Some(u) => Some(u),
        None => match d.aliases {
            Some(a) => first_cve_page(a@),
            None => None,
        },
    }
}

/// The advisory link of a record.
pub fn extract_advisory_url(detail: &OsvVulnDetail) -> (r: Option<String>)
    ensures
        opt_view(r) == advisory_url_of(*detail),
{
    match &detail.references {
        Some(refs) => {
            let mut i: usize = 0;
            assert(refs@.skip(0) =~= refs@);
            while i < refs.len()
                invariant
                    i <= refs.len(),
                    detail.references == Some(*refs),
                    first_advisory(refs@) == first_advisory(refs@.skip(i as int)),
                decreases refs.len() - i,
            {
                assert(refs@.skip(i as int)[0] == refs@[i as int]);
                assert(refs@.skip(i as int).drop_first() =~= refs@.skip(i + 1));
                if str_equal(refs[i].ref_type.as_str(), "ADVISORY") {
                    assert(first_advisory(refs@.skip(i as int)) == Some(refs@[i as int].url@));
                    return Some(refs[i].url.clone());
                }
                i = i + 1;
            }
            assert(refs@.skip(refs.len() as int) =~= Seq::<OsvReference>::empty());
        },
        None => {},
    }
    assert(advisory_url_of(*detail) == match detail.aliases {
        Some(a) => first_cve_page(a@),
        None => None,
    });
    match &detail.aliases {
        Some(aliases) => {
            let mut i: usize = 0;
            assert(aliases@.skip(0) =~= aliases@);
            while i < aliases.len()
                invariant
                    i <= aliases.len(),
                    advisory_url_of(*detail) == first_cve_page(aliases@),
                    first_cve_page(aliases@) == first_cve_page(aliases@.skip(i as int)),
                decreases aliases.len() - i,
            {
                assert(aliases@.skip(i as int)[0] == aliases@[i as int]);
                assert(aliases@.skip(i as int).drop_first() =~= aliases@.skip(i + 1));
                if starts_with(aliases[i].as_str(), "CVE-") {
                    let mut u = String::new();
                    push_str(&mut u, "https://nvd.nist.gov/vuln/detail/");
                    push_str(&mut u, aliases[i].as_str());
                    assert(first_cve_page(aliases@.skip(i as int)) == Some(
                        "https://nvd.nist.gov/vuln/detail/"@ + aliases@[i as int]@,
                    ));
                    return Some(u);
                }
                i = i + 1;
            }
            assert(aliases@.skip(aliases.len() as int) =~= Seq::<String>::empty());
            None
        },
        None => None,
    }
}

/// The type of a record's first CVSS score, if it has one.
pub open spec fn first_score_type(d: OsvVulnDetail) -> Option<Seq<char>> {
    match d.severity {
        Some(v) => if v@.len() > 0 {
            Some(v@[0].severity_type@)
        } else {
            None
        },
        None => None,
    }
}

/// The severity shown for a record: its database label (when non-empty and not
/// `UNSPECIFIED`), followed by ` (TYPE)` for its first CVSS score; otherwise the
/// type of its first CVSS score.
pub open spec fn severity_of(d: OsvVulnDetail) -> Option<Seq<char>> {
    match d.severity_label {
        Some(label) if label@.len() > 0 && label@ != "UNSPECIFIED"@ => Some(
            label@ + match first_score_type(d) {
                Some(t) => " ("@ + t + ")"@,
                None => seq![],
            },
        ),
        _ => first_score_type(d),
    }
}

/// The severity shown for a record.
pub fn extract_severity(detail: &OsvVulnDetail) -> (r: Option<String>)
    ensures
        opt_view(r) == severity_of(*detail),
{
    let first_type: Option<&String> = match &detail.severity {
        Some(v) => if v.len() > 0 {
            Some(&v[0].severity_type)
        } else {
            None
        },
        None => None,
    };
    match &detail.severity_label {
        Some(label) => {
            if !label.as_str().is_empty() && !str_equal(label.as_str(), "UNSPECIFIED") {
                let mut r = String::new();
                push_str(&mut r, label.as_str());
                match first_type {
                    Some(t) => {
                        push_str(&mut r, " (");
                        push_str(&mut r, t.as_str());
                        push_str(&mut r, ")");
                    },
                    None => {},
                }
                assert(r@ =~= severity_of(*detail)->0);
                return Some(r);
            }
        },
        None => {},
    }
    match first_type {
        Some(t) => Some(t.clone()),
        None => None,
    }
}

} // verus!
