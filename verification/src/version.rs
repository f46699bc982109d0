//! Release numbers of the form `MAJOR.MINOR.PATCH`, and how far an upgrade reaches.
use vstd::prelude::*;
use crate::names::{split_chars, split_on};
use crate::text::{all_digits, chars_of, decimal_value, is_digit, parse_u64, push_str, string_from_chars};

verus! {

/// The length of the run of ASCII digits that `s` starts with.
pub open spec fn digit_run(s: Seq<char>) -> int
    decreases s.len(),
{
    if s.len() == 0 {
        0
    } else if !is_digit(s[0]) {
        0
    } else {
        1 + digit_run(s.drop_first())
    }
}

/// `digit_run` is the first position that does not hold a digit.
pub proof fn lemma_digit_run(s: Seq<char>, k: int)
    requires
        0 <= k <= s.len(),
        forall|j: int| 0 <= j < k ==> is_digit(#[trigger] s[j]),
        k == s.len() || !is_digit(s[k]),
    ensures
        digit_run(s) == k,
    decreases s.len(),
{
    if s.len() > 0 && k > 0 {
        let t = s.drop_first();
        assert forall|j: int| 0 <= j < k - 1 implies is_digit(#[trigger] t[j]) by {
            assert(t[j] == s[j + 1]);
        }
        if k < s.len() {
            assert(t[k - 1] == s[k]);
        }
        lemma_digit_run(t, k - 1);
    }
}

/// The number that one dot-separated part of a version contributes: the value of
/// its leading digits, or 0 when it has none or they exceed `u64::MAX`.
pub open spec fn part_value(p: Seq<char>) -> u64 {
    let d = p.take(digit_run(p));
    if d.len() > 0 && decimal_value(d) <= u64::MAX {
        decimal_value(d) as u64
    } else {
        0
    }
}

/// The value of the `k`-th dot-separated part, or 0 when there are fewer parts.
pub open spec fn part_at(parts: Seq<Seq<char>>, k: int) -> u64 {
    if k < parts.len() {
        part_value(parts[k])
    } else {
        0
    }
}

/// The (major, minor, patch) triple of a version string: `2.31.0` gives (2, 31, 0),
/// `1.0rc1` gives (1, 0, 0), `7` gives (7, 0, 0).
pub open spec fn version_triple(v: Seq<char>) -> (u64, u64, u64) {
    let parts = split_on(v, '.');
    (part_at(parts, 0), part_at(parts, 1), part_at(parts, 2))
}

/// Lexicographic order on triples, as `>` on tuples of integers.
pub open spec fn triple_gt(x: (u64, u64, u64), y: (u64, u64, u64)) -> bool {
    x.0 > y.0 || (x.0 == y.0 && (x.1 > y.1 || (x.1 == y.1 && x.2 > y.2)))
}

fn part_number(p: &Vec<char>) -> (r: u64)
    ensures
        r == part_value(p@),
{
    let mut i: usize = 0;
    while i < p.len() && '0' <= p[i] && p[i] <= '9'
        invariant
            i <= p.len(),
            forall|j: int| 0 <= j < i ==> is_digit(#[trigger] p@[j]),
        decreases p.len() - i,
    {
        i = i + 1;
    }
    proof {
        lemma_digit_run(p@, i as int);
    }
    let mut digits: Vec<char> = Vec::new();
    let mut k: usize = 0;
    while k < i
        invariant
            i <= p.len(),
            k <= i,
            digits@ == p@.take(k as int),
            forall|j: int| 0 <= j < i ==> is_digit(#[trigger] p@[j]),
        decreases i - k,
    {
        digits.push(p[k]);
        k = k + 1;
        assert(digits@ =~= p@.take(k as int));
    }
    let s = string_from_chars(&digits);
    assert(all_digits(s@));
    match parse_u64(s.as_str()) {
        Some(n) => n,
        None => 0,
    }
}

/// Parses a version string into its (major, minor, patch) triple.
pub fn parse_ver(v: &str) -> (r: (u64, u64, u64))
    ensures
        r == version_triple(v@),
{
    let cs = chars_of(v);
    let parts = split_chars(&cs, '.');
    let ghost ps = parts@.map_values(|p: Vec<char>| p@);
    let major = if parts.len() > 0 { part_number(&parts[0]) } else { 0 };
    let minor = if parts.len() > 1 { part_number(&parts[1]) } else { 0 };
    let patch = if parts.len() > 2 { part_number(&parts[2]) } else { 0 };
    proof {
        assert(ps.len() == parts.len());
        if parts.len() > 0 {
            assert(ps[0] == parts@[0]@);
        }
        if parts.len() > 1 {
            assert(ps[1] == parts@[1]@);
        }
        if parts.len() > 2 {
            assert(ps[2] == parts@[2]@);
        }
    }
    (major, minor, patch)
}

/// The later of two versions by their triples; the first on a tie.
pub open spec fn later_version(a: Seq<char>, b: Seq<char>) -> Seq<char> {
    if triple_gt(version_triple(b), version_triple(a)) {
        b
    } else {
        a
    }
}

/// The later of two versions, comparing (major, minor, patch); `a` on a tie.
pub fn max_ver<'a>(a: &'a str, b: &'a str) -> (r: &'a str)
    ensures
        r@ == later_version(a@, b@),
{
    let x = parse_ver(a);
    let y = parse_ver(b);
    if y.0 > x.0 || (y.0 == x.0 && (y.1 > x.1 || (y.1 == x.1 && y.2 > x.2))) {
        b
    } else {
        a
    }
}

/// How far an upgrade reaches.
pub enum Bump {
    Major,
    Minor,
    Patch,
}

/// The reach of an upgrade from `current` to `fixed`: major when the major number
/// grows, else minor when the minor number grows, else patch.
pub open spec fn bump_of(current: Seq<char>, fixed: Seq<char>) -> Bump {
    let c = version_triple(current);
    let f = version_triple(fixed);
    if f.0 > c.0 {
        Bump::Major
    } else if f.1 > c.1 {
        Bump::Minor
    } else {
        Bump::Patch
    }
}

/// The label of an upgrade's reach.
pub open spec fn bump_text(b: Bump) -> Seq<char> {
    match b {
        Bump::Major => "MAJOR"@,
        Bump::Minor => "MINOR"@,
        Bump::Patch => "PATCH"@,
    }
}

/// The reach of an upgrade from `current` to `fixed`.
pub fn bump_kind(current: &str, fixed: &str) -> (r: Bump)
    ensures
        r == bump_of(current@, fixed@),
{
    let c = parse_ver(current);
    let f = parse_ver(fixed);
    if f.0 > c.0 {
        Bump::Major
    } else if f.1 > c.1 {
        Bump::Minor
    } else {
        Bump::Patch
    }
}

/// `"MAJOR"`, `"MINOR"` or `"PATCH"`: the reach of an upgrade from `current` to `fixed`.
pub fn bump_type_str(current: &str, fixed: &str) -> (r: &'static str)
    ensures
        r@ == bump_text(bump_of(current@, fixed@)),
{
    match bump_kind(current, fixed) {
        Bump::Major => "MAJOR",
        Bump::Minor => "MINOR",
        Bump::Patch => "PATCH",
    }
}

/// Why upgrading a transitive dependency in place is safe, or what to check first.
pub open spec fn bump_reason_text(
    current: Seq<char>,
    fixed: Seq<char>,
    parent: Seq<char>,
    parent_ver: Seq<char>,
) -> Seq<char> {
    match bump_of(current, fixed) {
        Bump::Major => "MAJOR bump — verify "@ + parent + " v"@ + parent_ver
            + " supports this version before upgrading"@,
        Bump::Minor => "MINOR bump — "@ + parent + " v"@ + parent_ver
            + " supports this version (new features, no breaking changes)"@,
        Bump::Patch => "PATCH bump — "@ + parent + " v"@ + parent_ver
            + " already supports this version"@,
    }
}

/// The sentence that explains an in-place upgrade of a transitive dependency.
pub fn bump_reason(current: &str, fixed: &str, parent: &str, parent_ver: &str) -> (r: String)
    ensures
        r@ == bump_reason_text(current@, fixed@, parent@, parent_ver@),
{
    let mut r = String::new();
    match bump_kind(current, fixed) {
        Bump::Major => {
            push_str(&mut r, "MAJOR bump — verify ");
            push_str(&mut r, parent);
            push_str(&mut r, " v");
            push_str(&mut r, parent_ver);
            push_str(&mut r, " supports this version before upgrading");
        },
        Bump::Minor => {
            push_str(&mut r, "MINOR bump — ");
            push_str(&mut r, parent);
            push_str(&mut r, " v");
            push_str(&mut r, parent_ver);
            push_str(&mut r, " supports this version (new features, no breaking changes)");
        },
        Bump::Patch => {
            push_str(&mut r, "PATCH bump — ");
            push_str(&mut r, parent);
            push_str(&mut r, " v");
            push_str(&mut r, parent_ver);
            push_str(&mut r, " already supports this version");
        },
    }
    assert(r@ =~= bump_reason_text(current@, fixed@, parent@, parent_ver@));
    r
}

} // verus!
