//! The scan's exchanges with the OSV service, seen from the library's side: the
//! batches of queries it sends, and the tables it builds from the answers.
use vstd::prelude::*;
use vstd::utf8::encode_utf8;
use crate::names::{normalize_name, normalized};
use crate::osv::OsvVulnDetail;
use crate::store::StringMap;
use crate::text::{push_str, str_equal};

verus! {

/// Where the batch queries go.
pub const OSV_QUERYBATCH_URL: &'static str = "https://api.osv.dev/v1/querybatch";

/// The most queries that one batch request may carry.
pub const OSV_BATCH_LIMIT: usize = 1000;

/// The package part of a query.
pub struct OsvPackageQuery {
    pub name: String,
    pub ecosystem: String,
}

/// One query of a batch: a package at a version.
pub struct OsvQuery {
    pub version: String,
    pub package: OsvPackageQuery,
}

/// `q` asks about the PyPI package `p.0` at version `p.1`.
pub open spec fn queries(q: OsvQuery, p: (String, String)) -> bool {
    &&& q.version@ == p.1@
    &&& q.package.name@ == p.0@
    &&& q.package.ecosystem@ == "PyPI"@
}

/// The queries for the scanned packages, in order, cut into batches of
/// `OSV_BATCH_LIMIT` (the last one possibly shorter; none when there are no packages).
pub fn osv_query_batches(packages: &Vec<(String, String)>) -> (r: Vec<Vec<OsvQuery>>)
    ensures
        r.len() == (packages.len() + 999) / 1000,
        forall|k: int|
            0 <= k < r.len() ==> (#[trigger] r@[k]).len() == if packages.len() - 1000 * k < 1000 {
                packages.len() - 1000 * k
            } else {
                1000
            },
        forall|k: int, m: int|
            0 <= k < r.len() && 0 <= m < r@[k].len() ==> queries(
                #[trigger] r@[k]@[m],
                packages@[1000 * k + m],
            ),
{
    let mut r: Vec<Vec<OsvQuery>> = Vec::new();
    let mut start: usize = 0;
    while start < packages.len()
        invariant
            start <= packages.len(),
            start == 1000 * r.len(),
            forall|k: int| 0 <= k < r.len() ==> (#[trigger] r@[k]).len() == 1000,
            forall|k: int, m: int|
                0 <= k < r.len() && 0 <= m < r@[k].len() ==> queries(
                    #[trigger] r@[k]@[m],
                    packages@[1000 * k + m],
                ),
        decreases packages.len() - start,
    {
        let end = if packages.len() - start < OSV_BATCH_LIMIT {
            packages.len()
        } else {
            start + OSV_BATCH_LIMIT
        };
        let mut batch: Vec<OsvQuery> = Vec::new();
        let mut i = start;
        while i < end
            invariant
                start <= i <= end,
                end <= packages.len(),
                batch.len() == i - start,
                forall|m: int| 0 <= m < batch.len() ==> queries(#[trigger] batch@[m], packages@[start + m]),
            decreases end - i,
        {
            let q = OsvQuery {
                version: packages[i].1.clone(),
                package: OsvPackageQuery {
                    name: packages[i].0.clone(),
                    ecosystem: "PyPI".to_owned(),
                },
            };
            batch.push(q);
            i = i + 1;
        }
        let ghost before = r@;
        r.push(batch);
        assert forall|k: int, m: int|
            0 <= k < r.len() && 0 <= m < r@[k].len() implies queries(
                #[trigger] r@[k]@[m],
                packages@[1000 * k + m],
            ) by {
            if k < before.len() {
                assert(r@[k] == before[k]);
            }
        }
        if end == packages.len() {
            assert((packages.len() + 999) / 1000 == r.len()) by (nonlinear_arith)
                requires
                    start == 1000 * (r.len() - 1),
                    packages.len() - start <= 1000,
                    packages.len() > start,
            ;
            return r;
        }
        start = end;
    }
    assert((packages.len() + 999) / 1000 == r.len()) by (nonlinear_arith)
        requires
            start == 1000 * r.len(),
            packages.len() == start,
    ;
    r
}

/// The last query among the first `n` whose answer lists vulnerabilities and
/// whose package normalises to `name`.
pub open spec fn batch_hit(batch: Seq<OsvQuery>, results: Seq<Vec<String>>, name: Seq<char>, n: int) -> Option<int>
    decreases n,
{
    if n <= 0 {
        None
    } else if results[n - 1]@.len() > 0 && normalized(batch[n - 1].package.name@) == name {
        Some(n - 1)
    } else {
        batch_hit(batch, results, name, n - 1)
    }
}

/// The table after taking in one batch's answers: for each query whose answer lists
/// vulnerabilities, its package's normalised name now maps to the answer's ids; a
/// later query replaces an earlier one with the same name.
pub open spec fn after_batch(
    before: StringMap<Vec<String>>,
    batch: Seq<OsvQuery>,
    results: Seq<Vec<String>>,
    name: Seq<char>,
) -> Option<Vec<String>> {
    match batch_hit(batch, results, name, results.len() as int) {
        Some(i) => Some(results[i]),
        None => before.get(name),
    }
}

/// Takes in the answers to one batch: `results[i]` holds the ids of the
/// vulnerabilities that the service lists for the `i`-th query. Answers past the
/// last query must list nothing.
pub fn record_batch_results(
    vuln_ids: &mut StringMap<Vec<String>>,
    batch: &Vec<OsvQuery>,
    results: Vec<Vec<String>>,
)
    requires
        old(vuln_ids).wf(),
        forall|j: int| batch.len() <= j < results.len() ==> (#[trigger] results@[j])@.len() == 0,
    ensures
        final(vuln_ids).wf(),
        forall|name: Seq<char>| #[trigger] final(vuln_ids).get(name) == after_batch(
            *old(vuln_ids),
            batch@,
            results@,
            name,
        ),
{
    let ghost orig = results@;
    let ghost start = *vuln_ids;
    let mut results = results;
    let mut i: usize = 0;
    while i < results.len()
        invariant
            vuln_ids.wf(),
            i <= results.len(),
            results.len() == orig.len(),
            forall|j: int| batch.len() <= j < orig.len() ==> (#[trigger] orig[j])@.len() == 0,
            forall|j: int| i <= j < orig.len() ==> #[trigger] results@[j] == orig[j],
            forall|name: Seq<char>| #[trigger] vuln_ids.get(name) == match batch_hit(batch@, orig, name, i as int) {
                Some(j) => Some(orig[j]),
                None => start.get(name),
            },
        decreases results.len() - i,
    {
        let mut ids: Vec<String> = Vec::new();
        results.set_and_swap(i, &mut ids);
        assert(ids == orig[i as int]);
        if ids.len() > 0 {
            let key = normalize_name(batch[i].package.name.as_str());
            let ghost kv = key@;
            vuln_ids.insert(key, ids);
            assert forall|name: Seq<char>| #[trigger] vuln_ids.get(name) == match batch_hit(batch@, orig, name, i + 1) {
                Some(j) => Some(orig[j]),
                None => start.get(name),
            } by {
                if name == kv {
                    assert(batch_hit(batch@, orig, name, i + 1) == Some(i as int));
                }
            }
        }
        i = i + 1;
    }
}

/// `a` comes no later than `b` in byte order.
pub open spec fn bytes_le(a: Seq<u8>, b: Seq<u8>) -> bool
    decreases a.len(),
{
    if a.len() == 0 {
        true
    } else if b.len() == 0 {
        false
    } else if a[0] != b[0] {
        a[0] < b[0]
    } else {
        bytes_le(a.drop_first(), b.drop_first())
    }
}

/// The order of `str`: byte by byte over the UTF-8 encodings.
pub open spec fn str_le(a: Seq<char>, b: Seq<char>) -> bool {
    bytes_le(encode_utf8(a), encode_utf8(b))
}

pub open spec fn sorted_strings(s: Seq<Seq<char>>) -> bool {
    forall|i: int, j: int| 0 <= i < j < s.len() ==> str_le(#[trigger] s[i], #[trigger] s[j])
}

/// `slice::sort_unstable` on strings: the same strings, in `str` order (bytes of
/// the UTF-8 encoding compared lexicographically).
#[verifier::external_body]
pub(crate) fn sort_strings(v: &mut Vec<String>)
    ensures
        final(v).deep_view().to_multiset() == old(v).deep_view().to_multiset(),
        sorted_strings(final(v).deep_view()),
{
    v.sort_unstable()
}

/// The sequence with each run of equal neighbours cut to its first element
/// (`Vec::dedup`).
pub open spec fn dedup_adjacent(s: Seq<Seq<char>>) -> Seq<Seq<char>>
    decreases s.len(),
{
    if s.len() == 0 {
        seq![]
    } else {
        let r = dedup_adjacent(s.drop_last());
        if r.len() > 0 && r.last() == s.last() {
            r
        } else {
            r.push(s.last())
        }
    }
}

/// Every id that the table lists for some package.
pub open spec fn listed_id(vuln_ids: StringMap<Vec<String>>, id: Seq<char>) -> bool {
    exists|i: int| 0 <= i < vuln_ids.values().len() && (#[trigger] vuln_ids.values()[i]).deep_view().contains(id)
}

/// `dedup_adjacent` keeps exactly the elements of its input.
pub proof fn lemma_dedup_contains(s: Seq<Seq<char>>)
    ensures
        forall|x: Seq<char>| #[trigger] dedup_adjacent(s).contains(x) <==> s.contains(x),
        dedup_adjacent(s).len() > 0 ==> dedup_adjacent(s).last() == s.last(),
    decreases s.len(),
{
    if s.len() > 0 {
        let t = s.drop_last();
        lemma_dedup_contains(t);
        let r = dedup_adjacent(t);
        let d = dedup_adjacent(s);
        assert forall|x: Seq<char>| #[trigger] d.contains(x) <==> s.contains(x) by {
            if s.contains(x) {
                let k = choose|k: int| 0 <= k < s.len() && s[k] == x;
                if k < s.len() - 1 {
                    assert(t[k] == x);
                    assert(t.contains(x));
                    assert(r.contains(x));
                    let m = choose|m: int| 0 <= m < r.len() && r[m] == x;
                    assert(d[m] == x);
                } else if r.len() > 0 && r.last() == s.last() {
                    assert(d[r.len() - 1] == x);
                } else {
                    assert(d[r.len() as int] == x);
                }
                assert(d.contains(x));
            }
            if d.contains(x) {
                let m = choose|m: int| 0 <= m < d.len() && d[m] == x;
                if m < r.len() {
                    assert(r[m] == x);
                    assert(r.contains(x));
                    assert(t.contains(x));
                    let k = choose|k: int| 0 <= k < t.len() && t[k] == x;
                    assert(s[k] == x);
                } else {
                    assert(s[s.len() - 1] == x);
                }
                assert(s.contains(x));
            }
        }
    }
}

/// Every vulnerability id that the table lists, each once, in `str` order.
pub fn unique_vuln_ids(vuln_ids: &StringMap<Vec<String>>) -> (r: Vec<String>)
    requires
        vuln_ids.wf(),
    ensures
        forall|id: Seq<char>| #[trigger] r.deep_view().contains(id) <==> listed_id(*vuln_ids, id),
        sorted_strings(r.deep_view()),
        forall|i: int| 0 <= i < r.len() - 1 ==> #[trigger] r.deep_view()[i] != r.deep_view()[i + 1],
{
    let mut all: Vec<String> = Vec::new();
    let mut i: usize = 0;
    while i < vuln_ids.len()
        invariant
            i <= vuln_ids.values().len(),
            forall|id: Seq<char>| #[trigger] all.deep_view().contains(id) <==> exists|k: int|
                0 <= k < i && (#[trigger] vuln_ids.values()[k]).deep_view().contains(id),
        decreases vuln_ids.values().len() - i,
    {
        let ids = vuln_ids.value_at(i);
        let ghost before = all.deep_view();
        let mut j: usize = 0;
        while j < ids.len()
            invariant
                j <= ids.len(),
                i < vuln_ids.values().len(),
                *ids == vuln_ids.values()[i as int],
                all.deep_view() == before + ids.deep_view().take(j as int),
            decreases ids.len() - j,
        {
            let ghost b2 = all.deep_view();
            all.push(ids[j].clone());
            assert(all.deep_view() =~= b2.push(ids@[j as int]@));
            j = j + 1;
            assert(all.deep_view() =~= before + ids.deep_view().take(j as int));
        }
        assert(ids.deep_view().take(ids.len() as int) =~= ids.deep_view());
        assert forall|id: Seq<char>| #[trigger] all.deep_view().contains(id) <==> exists|k: int|
            0 <= k < i + 1 && (#[trigger] vuln_ids.values()[k]).deep_view().contains(id) by {
            vstd::seq_lib::lemma_seq_concat_contains_all_elements(before, ids.deep_view(), id);
            if ids.deep_view().contains(id) {
                assert(vuln_ids.values()[i as int].deep_view().contains(id));
            }
            if exists|k: int| 0 <= k < i + 1 && (#[trigger] vuln_ids.values()[k]).deep_view().contains(id) {
                let k = choose|k: int| 0 <= k < i + 1 && (#[trigger] vuln_ids.values()[k]).deep_view().contains(id);
                if k < i {
                    assert(before.contains(id));
                }
            }
        }
        i = i + 1;
    }
    let ghost unsorted = all.deep_view();
    sort_strings(&mut all);
    let ghost sorted = all.deep_view();
    proof {
        assert forall|id: Seq<char>| #[trigger] sorted.contains(id) <==> unsorted.contains(id) by {
            vstd::seq_lib::to_multiset_contains(sorted, id);
            vstd::seq_lib::to_multiset_contains(unsorted, id);
        }
    }
    let mut r: Vec<String> = Vec::new();
    let mut k: usize = 0;
    while k < all.len()
        invariant
            k <= all.len(),
            sorted == all.deep_view(),
            r.deep_view() == dedup_adjacent(sorted.take(k as int)),
        decreases all.len() - k,
    {
        assert(sorted.take(k + 1).drop_last() =~= sorted.take(k as int));
        assert(sorted.take(k + 1).last() == all@[k as int]@);
        let keep = if r.len() == 0 {
            true
        } else {
            let last = r.len() - 1;
            !str_equal(r[last].as_str(), all[k].as_str())
        };
        if keep {
            let ghost b = r.deep_view();
            r.push(all[k].clone());
            assert(r.deep_view() =~= b.push(all@[k as int]@));
        }
        k = k + 1;
    }
    assert(sorted.take(all.len() as int) =~= sorted);
    proof {
        lemma_dedup_contains(sorted);
        lemma_dedup_sorted(sorted);
    }
    r
}

/// Cutting runs keeps the order of a sorted sequence and leaves no equal neighbours.
pub proof fn lemma_dedup_sorted(s: Seq<Seq<char>>)
    requires
        sorted_strings(s),
    ensures
        sorted_strings(dedup_adjacent(s)),
        forall|i: int|
            0 <= i < dedup_adjacent(s).len() - 1 ==> #[trigger] dedup_adjacent(s)[i] != dedup_adjacent(s)[i + 1],
        forall|x: Seq<char>| #[trigger] dedup_adjacent(s).contains(x) ==> s.contains(x),
    decreases s.len(),
{
    lemma_dedup_contains(s);
    if s.len() > 0 {
        let t = s.drop_last();
        assert(sorted_strings(t)) by {
            assert forall|i: int, j: int| 0 <= i < j < t.len() implies str_le(#[trigger] t[i], #[trigger] t[j]) by {
                assert(t[i] == s[i] && t[j] == s[j]);
            }
        }
        lemma_dedup_sorted(t);
        lemma_dedup_contains(t);
        let r = dedup_adjacent(t);
        let d = dedup_adjacent(s);
        assert forall|i: int, j: int| 0 <= i < j < d.len() implies str_le(#[trigger] d[i], #[trigger] d[j]) by {
            if j < r.len() {
                assert(d[i] == r[i] && d[j] == r[j]);
            } else {
                assert(d[i] == r[i]);
                assert(r.contains(r[i]));
                assert(t.contains(r[i]));
                let k = choose|k: int| 0 <= k < t.len() && t[k] == r[i];
                assert(s[k] == r[i]);
                assert(d[j] == s.last());
                assert(str_le(s[k], s[s.len() - 1]));
            }
        }
    }
}

/// Keeps a fetched record under its id. A withdrawn record is kept too: the scan
/// leaves its id out of the report and the advice (`drop_withdrawn`).
pub fn record_detail(details: &mut StringMap<OsvVulnDetail>, id: String, detail: OsvVulnDetail)
    requires
        old(details).wf(),
    ensures
        final(details).wf(),
        forall|k: Seq<char>| #[trigger] final(details).get(k) == if k == id@ {
            Some(detail)
        } else {
            old(details).get(k)
        },
{
    details.insert(id, detail);
}

/// The address of a record's full entry.
pub fn vuln_detail_url(id: &str) -> (r: String)
    ensures
        r@ == "https://api.osv.dev/v1/vulns/"@ + id@,
{
    let mut r = String::new();
    push_str(&mut r, "https://api.osv.dev/v1/vulns/");
    push_str(&mut r, id);
    r
}

} // verus!
