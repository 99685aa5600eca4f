//! Per-run reports: what a run wrote down, how its file is named, how
//! reports are ordered and how a user's id picks one.
//!
//! A report's file is `<dir>/<rfc3339 start time>.json`, with `:`
//! written as `-`; its id is the file name without `.json`. Reading
//! and writing the files is the caller's; the decisions are here.
use vstd::prelude::*;

use crate::error::Error;
use crate::runner::{opt_str_view, TestResult};
use crate::text::{chars_of, starts_with, str_starts_with};
use crate::textops::{debug_of, debug_quoted, decimal, decimal_string, replace_all, replace_str};

verus! {

/// The version of the report layout.
pub const SCHEMA_VERSION: u32 = 1;

/// The target a run was aimed at.
#[derive(Debug)]
pub struct TargetRef {
    pub base_url: String,
    pub endpoint: String,
    pub method: String,
}

/// Counts of a run's results.
#[derive(Debug, Clone, Copy, PartialEq, Eq, Structural)]
pub struct RunSummary {
    pub total: usize,
    pub passed: usize,
    pub failed: usize,
}

/// A run as written to disk. Times are nanoseconds since the Unix
/// epoch (UTC).
#[derive(Debug)]
pub struct RunReport {
    pub schema_version: u32,
    pub started_at_ns: i128,
    pub finished_at_ns: i128,
    pub source_file: String,
    pub target: TargetRef,
    pub summary: RunSummary,
    pub results: Vec<TestResult>,
}

/// A report plus the id it is referred to by.
#[derive(Debug)]
pub struct ReportRecord {
    pub id: String,
    pub report: RunReport,
}

/// The number of passing results.
pub open spec fn passed_count(rs: Seq<TestResult>) -> nat
    decreases rs.len(),
{
    if rs.len() == 0 {
        0
    } else {
        passed_count(rs.drop_last()) + if rs.last().pass {
            1nat
        } else {
            0nat
        }
    }
}

proof fn lemma_passed_count_bound(rs: Seq<TestResult>)
    ensures
        passed_count(rs) <= rs.len(),
    decreases rs.len(),
{
    if rs.len() > 0 {
        lemma_passed_count_bound(rs.drop_last());
    }
}

impl RunSummary {
    /// Counts passes and failures.
    pub fn from_results(results: &Vec<TestResult>) -> (s: RunSummary)
        ensures
            s.total == results@.len(),
            s.passed == passed_count(results@),
            s.failed == results@.len() - passed_count(results@),
    {
        let mut passed: usize = 0;
        let mut i: usize = 0;
        while i < results.len()
            invariant
                i <= results.len(),
                passed == passed_count(results@.take(i as int)),
                passed <= i,
            decreases results.len() - i,
        {
            assert(results@.take(i + 1).drop_last() =~= results@.take(i as int));
            if results[i].pass {
                passed += 1;
            }
            i += 1;
        }
        assert(results@.take(i as int) =~= results@);
        RunSummary { total: results.len(), passed, failed: results.len() - passed }
    }
}

/// Whether every field of two targets agrees.
pub open spec fn same_target(a: TargetRef, b: TargetRef) -> bool {
    a.base_url@ == b.base_url@ && a.endpoint@ == b.endpoint@ && a.method@ == b.method@
}

/// Compares two targets field by field.
pub fn target_equal(a: &TargetRef, b: &TargetRef) -> (r: bool)
    ensures
        r == same_target(*a, *b),
{
    a.base_url == b.base_url && a.endpoint == b.endpoint && a.method == b.method
}

/// The RFC 3339 text `time` writes for the UTC instant `ns`
/// nanoseconds after the epoch, when it can.
pub uninterp spec fn rfc3339_of(ns: int) -> Option<Seq<char>>;

/// Formats an instant with `time`'s RFC 3339 format description.
#[verifier::external_body]
pub(crate) fn format_rfc3339(ns: i128) -> (r: Option<String>)
    ensures
        opt_str_view(r) == rfc3339_of(ns as int),
{
    let t = time::OffsetDateTime::from_unix_timestamp_nanos(ns).ok()?;
    t.format(&time::format_description::well_known::Rfc3339).ok()
}

/// Whole seconds since the epoch (rounded down).
pub open spec fn unix_seconds(ns: int) -> int {
    ns / 1_000_000_000
}

/// Whole seconds since the epoch, rounded down.
pub fn unix_seconds_of(ns: i128) -> (s: i128)
    requires
        ns > i128::MIN,
    ensures
        s == unix_seconds(ns as int),
        s > i128::MIN,
{
    if ns >= 0 {
        let q = (ns as u128) / 1_000_000_000;
        assert(q as int == (ns as int) / 1_000_000_000);
        q as i128
    } else {
        let m: u128 = (-ns) as u128;
        let q = (m + 999_999_999) / 1_000_000_000;
        assert(-(q as int) == (ns as int) / 1_000_000_000) by (nonlinear_arith)
            requires
                m as int == -(ns as int),
                q as int == (m as int + 999_999_999) / 1_000_000_000,
                m > 0,
        ;
        -(q as i128)
    }
}

/// The time stamp a report's file name is made of: RFC 3339, or the
/// Unix seconds when that cannot be formatted.
pub open spec fn stamp_text(ns: int) -> Seq<char> {
    match rfc3339_of(ns) {
        Some(t) => t,
        None => decimal(unix_seconds(ns)),
    }
}

/// A report's file name: the stamp with `:` written as `-`, then `.json`.
pub open spec fn report_filename(ns: int) -> Seq<char> {
    replace_all(stamp_text(ns), ":"@, "-"@) + ".json"@
}

/// The file name of the report of a run started at `started_at_ns`.
pub fn filename(started_at_ns: i128) -> (name: String)
    requires
        started_at_ns > i128::MIN,
    ensures
        name@ == report_filename(started_at_ns as int),
{
    let stamp = match format_rfc3339(started_at_ns) {
        Some(t) => t,
        None => decimal_string(unix_seconds_of(started_at_ns)),
    };
    proof {
        reveal_strlit(":");
    }
    let mut name = replace_str(stamp.as_str(), ":", "-");
    name.append(".json");
    name
}

/// The position a keyword id names: `latest` the newest, `previous`
/// the one before.
pub open spec fn keyword_position(id: Seq<char>) -> Option<int> {
    if id == "latest"@ {
        Some(0)
    } else if id == "previous"@ {
        Some(1)
    } else {
        None
    }
}

/// Where a report id is looked up.
#[derive(Debug, Clone, Copy, PartialEq, Eq, Structural)]
pub enum Lookup {
    /// `latest` / `previous`: this position of the newest-first list.
    Position(usize),
    /// The file named exactly `<id>.json`.
    Exact,
    /// The unique file whose name starts with the id.
    Prefix,
}

/// The message when the reports directory does not exist.
pub open spec fn no_directory_message(dir: Seq<char>) -> Seq<char> {
    "no reports directory at "@ + dir
}

/// Decides how an id is resolved: a keyword names a position; else an
/// existing `<id>.json` wins; else, when the directory is missing, an
/// error; else a prefix search over the directory's file names.
pub fn resolve_lookup(id: &str, exact_exists: bool, dir_exists: bool, dir: &str) -> (r: Result<Lookup, Error>)
    ensures
        match r {
            Ok(Lookup::Position(i)) => keyword_position(id@) == Some(i as int),
            Ok(Lookup::Exact) => keyword_position(id@) is None && exact_exists,
            Ok(Lookup::Prefix) => keyword_position(id@) is None && !exact_exists && dir_exists,
            Err(e) => keyword_position(id@) is None && !exact_exists && !dir_exists
                && (e matches Error::Spec(m) && m@ == no_directory_message(dir@)),
        },
{
    match resolve_position(id) {
        Some(i) => Ok(Lookup::Position(i)),
        None => if exact_exists {
            Ok(Lookup::Exact)
        } else if !dir_exists {
            let mut m = String::from_str("no reports directory at ");
            m.append(dir);
            Err(Error::Spec(m))
        } else {
            Ok(Lookup::Prefix)
        },
    }
}

/// Reads the `latest` / `previous` keywords.
pub fn resolve_position(id: &str) -> (r: Option<usize>)
    ensures
        match r {
            Some(i) => keyword_position(id@) == Some(i as int),
            None => keyword_position(id@) is None,
        },
{
    let v = chars_of(id);
    proof {
        reveal_strlit("latest");
        reveal_strlit("previous");
    }
    if crate::text::chars_eq(&v, &chars_of("latest")) {
        Some(0)
    } else if crate::text::chars_eq(&v, &chars_of("previous")) {
        Some(1)
    } else {
        None
    }
}

/// The message when a keyword's position is past the reports there are.
pub open spec fn no_position_message(id: Seq<char>, n: nat) -> Seq<char> {
    "no report at position "@ + id + " (have "@ + decimal(n as int) + " report(s))"@
}

/// Takes the record at a keyword's position from the newest-first
/// list, or says how many reports there are.
pub fn take_position(records: Vec<ReportRecord>, id: &str, index: usize) -> (r: Result<ReportRecord, Error>)
    ensures
        match r {
            Ok(rec) => index < records@.len() && rec == records@[index as int],
            Err(e) => index >= records@.len() && (e matches Error::Spec(m) && m@ == no_position_message(id@, records@.len())),
        },
{
    let mut records = records;
    let ghost orig = records@;
    if index < records.len() {
        let rec = records.swap_remove(index);
        Ok(rec)
    } else {
        let mut m = String::from_str("no report at position ");
        m.append(id);
        m.append(" (have ");
        let d = decimal_string(records.len() as i128);
        m.append(d.as_str());
        m.append(" report(s))");
        Err(Error::Spec(m))
    }
}

/// Whether a file name is a candidate for a prefix id.
pub open spec fn prefix_candidate(name: Seq<char>, id: Seq<char>) -> bool {
    starts_with(name, id) && name.len() >= 5 && name.subrange(name.len() - 5, name.len() as int) == ".json"@
}

/// The indices of the candidate names, in order.
pub open spec fn candidates(names: Seq<Seq<char>>, id: Seq<char>) -> Seq<int>
    decreases names.len(),
{
    if names.len() == 0 {
        seq![]
    } else if prefix_candidate(names.last(), id) {
        candidates(names.drop_last(), id).push(names.len() - 1)
    } else {
        candidates(names.drop_last(), id)
    }
}

/// The message when no name matches.
pub open spec fn no_match_message(id: Seq<char>) -> Seq<char> {
    "no report matches id "@ + debug_quoted(id)
}

/// The message when several names match.
pub open spec fn ambiguous_message(id: Seq<char>, n: nat) -> Seq<char> {
    "ambiguous id "@ + debug_quoted(id) + " matches "@ + decimal(n as int) + " reports"@
}

fn ends_with_json(v: &Vec<char>) -> (b: bool)
    ensures
        b == (v@.len() >= 5 && v@.subrange(v@.len() - 5, v@.len() as int) == ".json"@),
{
    let tail = chars_of(".json");
    proof {
        reveal_strlit(".json");
    }
    if v.len() < 5 {
        return false;
    }
    let mut k: usize = 0;
    let base = v.len() - 5;
    while k < 5
        invariant
            k <= 5,
            base + 5 == v.len(),
            tail@ == ".json"@,
            tail@.len() == 5,
            forall|j: int| 0 <= j < k ==> v@[base + j] == tail@[j],
        decreases 5 - k,
    {
        if v[base + k] != tail[k] {
            assert(v@.subrange(base as int, v@.len() as int)[k as int] != ".json"@[k as int]);
            return false;
        }
        k += 1;
    }
    assert(v@.subrange(base as int, v@.len() as int) =~= ".json"@);
    true
}

/// Picks the one file name in `names` that starts with `id` and ends
/// with `.json`; none or several are errors.
pub fn resolve_prefix(names: &Vec<String>, id: &str) -> (r: Result<usize, Error>)
    ensures
        match r {
            Ok(i) => candidates(crate::text::strs_view(names@), id@) == seq![i as int],
            Err(e) => {
                let c = candidates(crate::text::strs_view(names@), id@);
                c.len() != 1 && (e matches Error::Spec(m) && m@ == if c.len() == 0 {
                    no_match_message(id@)
                } else {
                    ambiguous_message(id@, c.len())
                })
            },
        },
{
    let ghost nv = crate::text::strs_view(names@);
    let mut found: Vec<usize> = Vec::new();
    let mut i: usize = 0;
    while i < names.len()
        invariant
            i <= names.len(),
            nv == crate::text::strs_view(names@),
            found@.map_values(|x: usize| x as int) == candidates(nv.take(i as int), id@),
            found@.len() <= i,
        decreases names.len() - i,
    {
        let nc = chars_of(names[i].as_str());
        let hit = str_starts_with(names[i].as_str(), id) && ends_with_json(&nc);
        proof {
            assert(nv.take(i + 1).drop_last() =~= nv.take(i as int));
            assert(nv.take(i + 1).last() == nv[i as int]);
        }
        if hit {
            let ghost fv = found@.map_values(|x: usize| x as int);
            found.push(i);
            assert(found@.map_values(|x: usize| x as int) =~= fv.push(i as int));
        }
        i += 1;
    }
    assert(nv.take(i as int) =~= nv);
    let ghost c = candidates(nv, id@);
    assert(found@.len() == c.len());
    if found.len() == 1 {
        assert(c =~= seq![found@[0] as int]);
        Ok(found[0])
    } else if found.len() == 0 {
        let mut m = String::from_str("no report matches id ");
        let q = debug_of(id);
        m.append(q.as_str());
        Err(Error::Spec(m))
    } else {
        let mut m = String::from_str("ambiguous id ");
        let q = debug_of(id);
        m.append(q.as_str());
        m.append(" matches ");
        let d = decimal_string(found.len() as i128);
        m.append(d.as_str());
        m.append(" reports");
        Err(Error::Spec(m))
    }
}

/// The id of a report file: the name without its last extension, when
/// that extension is `json` (`Path::extension` / `Path::file_stem`: a
/// leading dot does not start an extension).
pub open spec fn report_id_of(name: Seq<char>) -> Option<Seq<char>> {
    if name.len() > 5 && name.subrange(name.len() - 5, name.len() as int) == ".json"@ {
        Some(name.subrange(0, name.len() - 5))
    } else {
        None
    }
}

/// The id a directory entry named `name` stands for, if it is a report file.
pub fn report_id(name: &str) -> (r: Option<String>)
    ensures
        opt_str_view(r) == report_id_of(name@),
{
    let v = chars_of(name);
    if v.len() > 5 && ends_with_json(&v) {
        let stem = crate::text::slice_chars(&v, 0, v.len() - 5);
        Some(crate::text::string_of(stem.as_slice()))
    } else {
        None
    }
}

/// `a` comes before `b` in newest-first order: later start, or the
/// same start and listed earlier.
pub open spec fn newer_first(stamps: Seq<i128>, a: int, b: int) -> bool {
    stamps[a] > stamps[b] || (stamps[a] == stamps[b] && a < b)
}

/// `order` lists `0..n` once each.
pub open spec fn is_permutation(order: Seq<int>, n: int) -> bool {
    &&& order.len() == n
    &&& forall|i: int| 0 <= i < n ==> 0 <= #[trigger] order[i] < n
    &&& forall|i: int, j: int| 0 <= i < j < n ==> order[i] != order[j]
}

/// The order of records newest first (a stable sort by start time,
/// descending): the indices of `stamps`, each once, so that each comes
/// before the next in [`newer_first`].
pub fn newest_first(stamps: &Vec<i128>) -> (order: Vec<usize>)
    ensures
        is_permutation(order@.map_values(|x: usize| x as int), stamps@.len() as int),
        forall|i: int| 0 <= i < order@.len() - 1 ==> newer_first(stamps@, #[trigger] order@[i] as int, order@[i + 1] as int),
{
    let n = stamps.len();
    let mut used: Vec<bool> = Vec::new();
    let mut k: usize = 0;
    while k < n
        invariant
            k <= n,
            n == stamps.len(),
            used@.len() == k,
            forall|j: int| 0 <= j < k ==> !used@[j],
        decreases n - k,
    {
        used.push(false);
        k += 1;
    }
    let mut order: Vec<usize> = Vec::new();
    while order.len() < n
        invariant
            n == stamps.len(),
            used@.len() == n,
            order@.len() <= n,
            forall|i: int| 0 <= i < order@.len() ==> (#[trigger] order@[i]) < n && used@[order@[i] as int],
            forall|i: int, j: int| 0 <= i < j < order@.len() ==> order@[i] != order@[j],
            forall|j: int| 0 <= j < n ==> used@[j] ==> exists|i: int| 0 <= i < order@.len() && order@[i] == j,
            forall|i: int, j: int| 0 <= i < order@.len() && 0 <= j < n && !used@[j] ==> newer_first(stamps@, order@[i] as int, j),
            forall|i: int| 0 <= i < order@.len() - 1 ==> newer_first(stamps@, #[trigger] order@[i] as int, order@[i + 1] as int),
        decreases n - order@.len(),
    {
        // Count of used entries equals order's length, so some entry is free.
        proof {
            lemma_some_unused(used@, order@, n as int);
        }
        let mut best: usize = n;
        let mut j: usize = 0;
        while j < n
            invariant
                n == stamps.len(),
                used@.len() == n,
                j <= n,
                best == n || (best < j && !used@[best as int]),
                best == n ==> forall|x: int| 0 <= x < j ==> used@[x],
                best < n ==> forall|x: int| 0 <= x < j && !used@[x] ==> (x == best || newer_first(stamps@, best as int, x)),
            decreases n - j,
        {
            if !used[j] {
                if best == n || stamps[j] > stamps[best] {
                    best = j;
                }
            }
            j += 1;
        }
        assert(best < n) by {
            if best == n {
                let w = choose|x: int| 0 <= x < n && !used@[x];
            }
        }
        let ghost old_order = order@;
        let ghost old_used = used@;
        used.set(best, true);
        order.push(best);
        proof {
            assert forall|x: int| 0 <= x < n && used@[x] implies exists|i: int| 0 <= i < order@.len() && order@[i] == x by {
                if x == best as int {
                    assert(order@[old_order.len() as int] == x);
                } else {
                    assert(old_used[x]);
                    let i = choose|i: int| 0 <= i < old_order.len() && old_order[i] == x;
                    assert(order@[i] == x);
                }
            }
            assert forall|i: int, x: int| 0 <= i < order@.len() && 0 <= x < n && !used@[x] implies newer_first(stamps@, order@[i] as int, x) by {
                if i < old_order.len() {
                    assert(order@[i] == old_order[i]);
                } else {
                    assert(!old_used[x] && x != best as int);
                }
            }
            assert forall|i: int, j: int| 0 <= i < j < order@.len() implies order@[i] != order@[j] by {
                if j == old_order.len() {
                    assert(!old_used[best as int]);
                    assert(old_used[old_order[i] as int]);
                }
            }
        }
    }
    proof {
        let ov = order@.map_values(|x: usize| x as int);
        assert forall|i: int, j: int| 0 <= i < j < n implies ov[i] != ov[j] by {
            assert(order@[i] != order@[j]);
        }
    }
    order
}

pub(crate) proof fn lemma_some_unused(used: Seq<bool>, order: Seq<usize>, n: int)
    requires
        used.len() == n,
        order.len() < n,
        forall|i: int| 0 <= i < order.len() ==> (#[trigger] order[i]) < n,
        forall|i: int, j: int| 0 <= i < j < order.len() ==> order[i] != order[j],
        forall|j: int| 0 <= j < n ==> used[j] ==> exists|i: int| 0 <= i < order.len() && order[i] == j,
    ensures
        exists|x: int| 0 <= x < n && !used[x],
{
    if forall|x: int| 0 <= x < n ==> used[x] {
        // Every index in 0..n occurs in order, which is shorter than n: impossible.
        let s = Set::new(|x: int| 0 <= x < n);
        let t = order.map_values(|x: usize| x as int).to_set();
        assert(s.subset_of(t)) by {
            assert forall|x: int| s.contains(x) implies t.contains(x) by {
                assert(used[x]);
                let i = choose|i: int| 0 <= i < order.len() && order[i] == x;
                assert(order.map_values(|x: usize| x as int)[i] == x);
            }
        }
        vstd::set_lib::lemma_int_range(0, n);
        order.map_values(|x: usize| x as int).lemma_cardinality_of_set();
        vstd::set_lib::lemma_len_subset(s, t);
        assert(s =~= vstd::set_lib::set_int_range(0, n));
    }
}

} // verus!
