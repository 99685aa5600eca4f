//! `serval diff <before> <after>`: which scenario rows flipped between
//! two reports, which were added and which removed.
//!
//! Rows are keyed by scenario title and example index; when a report
//! holds a key twice, its last row counts. Changes come in a fixed
//! order: the keys of the earlier report in order of first appearance
//! (flips and removals), then the new keys of the later report.
use vstd::prelude::*;

use crate::report::{same_target, target_equal, ReportRecord, RunSummary};
use crate::runner::TestResult;
use crate::textops::{decimal, decimal_string};

verus! {

/// How one scenario row changed.
#[derive(Debug)]
pub enum ScenarioChange {
    /// Present in both reports, pass status flipped.
    Flipped {
        title: String,
        example_index: i32,
        was_pass: bool,
        now_pass: bool,
        status_before: i16,
        status_after: i16,
    },
    /// Only in the later report.
    Added { title: String, example_index: i32, pass: bool },
    /// Only in the earlier report.
    Removed { title: String, example_index: i32, pass: bool },
}

/// The comparison of two reports.
#[derive(Debug)]
pub struct ReportDiff {
    pub before_id: String,
    pub after_id: String,
    pub source_changed: bool,
    pub target_changed: bool,
    pub scenarios: Vec<ScenarioChange>,
    pub summary_before: RunSummary,
    pub summary_after: RunSummary,
}

/// The mathematical value of a [`ScenarioChange`].
pub enum ChangeV {
    Flipped { title: Seq<char>, example_index: i32, was_pass: bool, now_pass: bool, status_before: i16, status_after: i16 },
    Added { title: Seq<char>, example_index: i32, pass: bool },
    Removed { title: Seq<char>, example_index: i32, pass: bool },
}

/// The view of a change.
pub open spec fn change_view(c: ScenarioChange) -> ChangeV {
    match c {
        ScenarioChange::Flipped { title, example_index, was_pass, now_pass, status_before, status_after } =>
            ChangeV::Flipped { title: title@, example_index, was_pass, now_pass, status_before, status_after },
        ScenarioChange::Added { title, example_index, pass } => ChangeV::Added { title: title@, example_index, pass },
        ScenarioChange::Removed { title, example_index, pass } => ChangeV::Removed { title: title@, example_index, pass },
    }
}

/// The view of each change.
pub open spec fn changes_view(v: Seq<ScenarioChange>) -> Seq<ChangeV> {
    v.map_values(|c: ScenarioChange| change_view(c))
}

/// A row's key.
pub open spec fn key_of(r: TestResult) -> (Seq<char>, i32) {
    (r.scenario_title@, r.example_index)
}

/// The last row with key `k`.
pub open spec fn last_with(rs: Seq<TestResult>, k: (Seq<char>, i32)) -> Option<TestResult>
    decreases rs.len(),
{
    if rs.len() == 0 {
        None
    } else if key_of(rs.last()) == k {
        Some(rs.last())
    } else {
        last_with(rs.drop_last(), k)
    }
}

/// The distinct keys, in order of first appearance.
pub open spec fn unique_keys(rs: Seq<TestResult>) -> Seq<(Seq<char>, i32)>
    decreases rs.len(),
{
    if rs.len() == 0 {
        seq![]
    } else if unique_keys(rs.drop_last()).contains(key_of(rs.last())) {
        unique_keys(rs.drop_last())
    } else {
        unique_keys(rs.drop_last()).push(key_of(rs.last()))
    }
}

/// Flips and removals for the earlier report's keys, in order.
pub open spec fn before_changes(keys: Seq<(Seq<char>, i32)>, before: Seq<TestResult>, after: Seq<TestResult>) -> Seq<ChangeV>
    decreases keys.len(),
{
    if keys.len() == 0 {
        seq![]
    } else {
        let rest = before_changes(keys.drop_last(), before, after);
        let k = keys.last();
        let b = last_with(before, k)->0;
        match last_with(after, k) {
            Some(a) => if b.pass != a.pass {
                rest.push(ChangeV::Flipped {
                    title: k.0,
                    example_index: k.1,
                    was_pass: b.pass,
                    now_pass: a.pass,
                    status_before: b.response_status,
                    status_after: a.response_status,
                })
            } else {
                rest
            },
            None => rest.push(ChangeV::Removed { title: k.0, example_index: k.1, pass: b.pass }),
        }
    }
}

/// Additions for the later report's keys, in order.
pub open spec fn after_changes(keys: Seq<(Seq<char>, i32)>, before: Seq<TestResult>, after: Seq<TestResult>) -> Seq<ChangeV>
    decreases keys.len(),
{
    if keys.len() == 0 {
        seq![]
    } else {
        let rest = after_changes(keys.drop_last(), before, after);
        let k = keys.last();
        if last_with(before, k) is None {
            rest.push(ChangeV::Added { title: k.0, example_index: k.1, pass: last_with(after, k)->0.pass })
        } else {
            rest
        }
    }
}

/// All changes between two reports' rows.
pub open spec fn all_changes(before: Seq<TestResult>, after: Seq<TestResult>) -> Seq<ChangeV> {
    before_changes(unique_keys(before), before, after) + after_changes(unique_keys(after), before, after)
}

/// Index of the last row with key `(title, index)`.
fn last_index(rs: &Vec<TestResult>, title: &String, index: i32) -> (r: Option<usize>)
    ensures
        match r {
            Some(i) => i < rs@.len() && last_with(rs@, (title@, index)) == Some(rs@[i as int]),
            None => last_with(rs@, (title@, index)) is None,
        },
{
    let mut n = rs.len();
    assert(rs@.take(n as int) =~= rs@);
    while n > 0
        invariant
            n <= rs.len(),
            last_with(rs@.take(n as int), (title@, index)) == last_with(rs@, (title@, index)),
        decreases n,
    {
        assert(rs@.take(n as int).last() == rs@[n - 1]);
        assert(rs@.take(n as int).drop_last() =~= rs@.take(n - 1));
        if rs[n - 1].scenario_title == *title && rs[n - 1].example_index == index {
            return Some(n - 1);
        }
        n -= 1;
    }
    None
}

pub proof fn lemma_last_with_key(rs: Seq<TestResult>, k: (Seq<char>, i32))
    ensures
        last_with(rs, k) matches Some(r) ==> key_of(r) == k,
        (exists|i: int| 0 <= i < rs.len() && key_of(rs[i]) == k) ==> last_with(rs, k) is Some,
    decreases rs.len(),
{
    if rs.len() > 0 {
        lemma_last_with_key(rs.drop_last(), k);
        if key_of(rs.last()) != k && exists|i: int| 0 <= i < rs.len() && key_of(rs[i]) == k {
            let i = choose|i: int| 0 <= i < rs.len() && key_of(rs[i]) == k;
            assert(rs.drop_last()[i] == rs[i]);
        }
    }
}

proof fn lemma_unique_keys_present(rs: Seq<TestResult>)
    ensures
        forall|j: int| 0 <= j < unique_keys(rs).len() ==> exists|i: int| 0 <= i < rs.len() && key_of(rs[i]) == #[trigger] unique_keys(rs)[j],
    decreases rs.len(),
{
    if rs.len() > 0 {
        lemma_unique_keys_present(rs.drop_last());
        let u = unique_keys(rs);
        let p = unique_keys(rs.drop_last());
        assert forall|j: int| 0 <= j < u.len() implies exists|i: int| 0 <= i < rs.len() && key_of(rs[i]) == #[trigger] u[j] by {
            if j < p.len() {
                assert(u[j] == p[j]);
                let i = choose|i: int| 0 <= i < rs.len() - 1 && key_of(rs.drop_last()[i]) == p[j];
                assert(rs.drop_last()[i] == rs[i]);
            } else {
                assert(key_of(rs[rs.len() - 1]) == u[j]);
            }
        }
    }
}

/// The distinct keys of `rs` as exec values (see [`unique_keys`]).
fn unique_key_list(rs: &Vec<TestResult>) -> (r: Vec<(String, i32)>)
    ensures
        r@.map_values(|k: (String, i32)| (k.0@, k.1)) == unique_keys(rs@),
{
    let mut out: Vec<(String, i32)> = Vec::new();
    let mut i: usize = 0;
    while i < rs.len()
        invariant
            i <= rs.len(),
            out@.map_values(|k: (String, i32)| (k.0@, k.1)) == unique_keys(rs@.take(i as int)),
        decreases rs.len() - i,
    {
        let ghost ov = out@.map_values(|k: (String, i32)| (k.0@, k.1));
        assert(rs@.take(i + 1).drop_last() =~= rs@.take(i as int));
        assert(rs@.take(i + 1).last() == rs@[i as int]);
        let mut j: usize = 0;
        let mut seen = false;
        while j < out.len()
            invariant
                j <= out.len(),
                i < rs.len(),
                ov == out@.map_values(|k: (String, i32)| (k.0@, k.1)),
                seen == exists|x: int| 0 <= x < j && ov[x] == key_of(rs@[i as int]),
            decreases out.len() - j,
        {
            assert(ov[j as int] == (out@[j as int].0@, out@[j as int].1));
            if out[j].0 == rs[i].scenario_title && out[j].1 == rs[i].example_index {
                seen = true;
            }
            j += 1;
        }
        assert(seen == ov.contains(key_of(rs@[i as int])));
        if !seen {
            out.push((rs[i].scenario_title.clone(), rs[i].example_index));
            assert(out@.map_values(|k: (String, i32)| (k.0@, k.1)) =~= ov.push(key_of(rs@[i as int])));
        }
        i += 1;
    }
    assert(rs@.take(i as int) =~= rs@);
    out
}

/// Compares two reports (see [`all_changes`]).
pub fn compute_diff(before: &ReportRecord, after: &ReportRecord) -> (d: ReportDiff)
    ensures
        d.before_id@ == before.id@,
        d.after_id@ == after.id@,
        d.source_changed == (before.report.source_file@ != after.report.source_file@),
        d.target_changed == !same_target(before.report.target, after.report.target),
        changes_view(d.scenarios@) == all_changes(before.report.results@, after.report.results@),
        d.summary_before == before.report.summary,
        d.summary_after == after.report.summary,
{
    let b = &before.report.results;
    let a = &after.report.results;
    let bkeys = unique_key_list(b);
    let akeys = unique_key_list(a);
    let ghost bk = unique_keys(b@);
    let ghost ak = unique_keys(a@);
    proof {
        lemma_unique_keys_present(b@);
        lemma_unique_keys_present(a@);
    }
    let mut changes: Vec<ScenarioChange> = Vec::new();
    let mut i: usize = 0;
    assert(changes_view(changes@) =~= seq![]);
    while i < bkeys.len()
        invariant
            i <= bkeys.len(),
            bkeys@.map_values(|k: (String, i32)| (k.0@, k.1)) == bk,
            bk == unique_keys(b@),
            forall|j: int| 0 <= j < bk.len() ==> exists|x: int| 0 <= x < b@.len() && key_of(b@[x]) == #[trigger] bk[j],
            changes_view(changes@) == before_changes(bk.take(i as int), b@, a@),
        decreases bkeys.len() - i,
    {
        let title = &bkeys[i].0;
        let idx = bkeys[i].1;
        let ghost k = bk[i as int];
        assert(k == (title@, idx));
        assert(bk.take(i + 1).drop_last() =~= bk.take(i as int));
        assert(bk.take(i + 1).last() == k);
        proof {
            lemma_last_with_key(b@, k);
        }
        let bi = last_index(b, title, idx).unwrap();
        let ghost cv = changes_view(changes@);
        match last_index(a, title, idx) {
            Some(ai) => {
                if b[bi].pass != a[ai].pass {
                    changes.push(ScenarioChange::Flipped {
                        title: title.clone(),
                        example_index: idx,
                        was_pass: b[bi].pass,
                        now_pass: a[ai].pass,
                        status_before: b[bi].response_status,
                        status_after: a[ai].response_status,
                    });
                }
            },
            None => {
                changes.push(ScenarioChange::Removed { title: title.clone(), example_index: idx, pass: b[bi].pass });
            },
        }
        assert(changes_view(changes@) =~= before_changes(bk.take(i + 1), b@, a@));
        i += 1;
    }
    assert(bk.take(i as int) =~= bk);
    let ghost mid = changes_view(changes@);
    let mut j: usize = 0;
    assert(mid + after_changes(ak.take(0), b@, a@) =~= mid);
    while j < akeys.len()
        invariant
            j <= akeys.len(),
            akeys@.map_values(|k: (String, i32)| (k.0@, k.1)) == ak,
            ak == unique_keys(a@),
            forall|x: int| 0 <= x < ak.len() ==> exists|y: int| 0 <= y < a@.len() && key_of(a@[y]) == #[trigger] ak[x],
            changes_view(changes@) == mid + after_changes(ak.take(j as int), b@, a@),
        decreases akeys.len() - j,
    {
        let title = &akeys[j].0;
        let idx = akeys[j].1;
        let ghost k = ak[j as int];
        assert(k == (title@, idx));
        assert(ak.take(j + 1).drop_last() =~= ak.take(j as int));
        assert(ak.take(j + 1).last() == k);
        proof {
            lemma_last_with_key(a@, k);
        }
        let ghost cv = changes_view(changes@);
        if last_index(b, title, idx).is_none() {
            let ai = last_index(a, title, idx).unwrap();
            changes.push(ScenarioChange::Added { title: title.clone(), example_index: idx, pass: a[ai].pass });
            assert(changes_view(changes@) =~= cv.push(ChangeV::Added { title: title@, example_index: idx, pass: a@[ai as int].pass }));
        }
        assert(changes_view(changes@) =~= mid + after_changes(ak.take(j + 1), b@, a@));
        j += 1;
    }
    assert(ak.take(j as int) =~= ak);
    ReportDiff {
        before_id: before.id.clone(),
        after_id: after.id.clone(),
        source_changed: before.report.source_file != after.report.source_file,
        target_changed: !target_equal(&before.report.target, &after.report.target),
        scenarios: changes,
        summary_before: before.report.summary,
        summary_after: after.report.summary,
    }
}

/// `PASS` or `FAIL`.
pub open spec fn mark(pass: bool) -> Seq<char> {
    if pass {
        "PASS"@
    } else {
        "FAIL"@
    }
}

/// The table line of one change.
pub open spec fn change_line(c: ChangeV) -> Seq<char> {
    match c {
        ChangeV::Flipped { title, was_pass, now_pass, status_before, status_after, .. } =>
            "    ["@ + mark(was_pass) + " -> "@ + mark(now_pass) + "] "@ + title + "  ("@ + decimal(status_before as int) + " -> "@ + decimal(status_after as int) + ")"@,
        ChangeV::Added { title, pass, .. } => "    [+] "@ + title + "  ("@ + mark(pass) + ")"@,
        ChangeV::Removed { title, pass, .. } => "    [-] "@ + title + "  (was "@ + mark(pass) + ")"@,
    }
}

/// The summary line of one report.
pub open spec fn summary_line(label: Seq<char>, s: RunSummary) -> Seq<char> {
    label + decimal(s.passed as int) + " passed, "@ + decimal(s.failed as int) + " failed ("@ + decimal(s.total as int) + " total)"@
}

/// The lines of the diff table.
pub open spec fn diff_lines(before_id: Seq<char>, after_id: Seq<char>, source_changed: bool, target_changed: bool, changes: Seq<ChangeV>, sb: RunSummary, sa: RunSummary) -> Seq<Seq<char>> {
    seq!["  comparing "@ + before_id + " -> "@ + after_id]
        + (if source_changed { seq!["  (!) source_file changed"@] } else { seq![] })
        + (if target_changed { seq!["  (!) target changed"@] } else { seq![] })
        + seq![seq![]]
        + (if changes.len() == 0 { seq!["  CHANGES: none"@] } else { seq!["  CHANGES"@] + changes.map_values(|c: ChangeV| change_line(c)) })
        + seq![seq![], "  SUMMARY"@, summary_line("    before: "@, sb), summary_line("    after:  "@, sa)]
}

fn mark_str(pass: bool) -> (s: &'static str)
    ensures
        s@ == mark(pass),
{
    if pass {
        "PASS"
    } else {
        "FAIL"
    }
}

fn change_line_exec(c: &ScenarioChange) -> (s: String)
    ensures
        s@ == change_line(change_view(*c)),
{
    match c {
        ScenarioChange::Flipped { title, was_pass, now_pass, status_before, status_after, .. } => {
            let mut s = String::from_str("    [");
            s.append(mark_str(*was_pass));
            s.append(" -> ");
            s.append(mark_str(*now_pass));
            s.append("] ");
            s.append(title.as_str());
            s.append("  (");
            let d1 = decimal_string(*status_before as i128);
            s.append(d1.as_str());
            s.append(" -> ");
            let d2 = decimal_string(*status_after as i128);
            s.append(d2.as_str());
            s.append(")");
            s
        },
        ScenarioChange::Added { title, pass, .. } => {
            let mut s = String::from_str("    [+] ");
            s.append(title.as_str());
            s.append("  (");
            s.append(mark_str(*pass));
            s.append(")");
            s
        },
        ScenarioChange::Removed { title, pass, .. } => {
            let mut s = String::from_str("    [-] ");
            s.append(title.as_str());
            s.append("  (was ");
            s.append(mark_str(*pass));
            s.append(")");
            s
        },
    }
}

fn summary_line_exec(label: &str, s: &RunSummary) -> (r: String)
    ensures
        r@ == summary_line(label@, *s),
{
    let mut r = String::from_str(label);
    let p = decimal_string(s.passed as i128);
    r.append(p.as_str());
    r.append(" passed, ");
    let f = decimal_string(s.failed as i128);
    r.append(f.as_str());
    r.append(" failed (");
    let t = decimal_string(s.total as i128);
    r.append(t.as_str());
    r.append(" total)");
    r
}

/// The lines of the human-readable diff (see [`diff_lines`]).
pub fn diff_table(diff: &ReportDiff) -> (lines: Vec<String>)
    ensures
        crate::text::strs_view(lines@) == diff_lines(
            diff.before_id@,
            diff.after_id@,
            diff.source_changed,
            diff.target_changed,
            changes_view(diff.scenarios@),
            diff.summary_before,
            diff.summary_after,
        ),
{
    let mut lines: Vec<String> = Vec::new();
    let mut head = String::from_str("  comparing ");
    head.append(diff.before_id.as_str());
    head.append(" -> ");
    head.append(diff.after_id.as_str());
    lines.push(head);
    if diff.source_changed {
        lines.push(String::from_str("  (!) source_file changed"));
    }
    if diff.target_changed {
        lines.push(String::from_str("  (!) target changed"));
    }
    lines.push(String::new());
    let ghost pre = crate::text::strs_view(lines@);
    assert(pre =~= seq!["  comparing "@ + diff.before_id@ + " -> "@ + diff.after_id@]
        + (if diff.source_changed { seq!["  (!) source_file changed"@] } else { seq![] })
        + (if diff.target_changed { seq!["  (!) target changed"@] } else { seq![] })
        + seq![seq![]]);
    let ghost cv = changes_view(diff.scenarios@);
    if diff.scenarios.len() == 0 {
        lines.push(String::from_str("  CHANGES: none"));
    } else {
        lines.push(String::from_str("  CHANGES"));
        let mut i: usize = 0;
        while i < diff.scenarios.len()
            invariant
                i <= diff.scenarios.len(),
                cv == changes_view(diff.scenarios@),
                diff.scenarios@.len() > 0,
                crate::text::strs_view(lines@) == pre + seq!["  CHANGES"@] + cv.take(i as int).map_values(|c: ChangeV| change_line(c)),
            decreases diff.scenarios.len() - i,
        {
            let l = change_line_exec(&diff.scenarios[i]);
            let ghost lv = crate::text::strs_view(lines@);
            let ghost l_v = l@;
            lines.push(l);
            assert(crate::text::strs_view(lines@) =~= lv.push(l_v));
            assert(cv[i as int] == change_view(diff.scenarios@[i as int]));
            assert(cv.take(i + 1) =~= cv.take(i as int).push(cv[i as int]));
            assert(crate::text::strs_view(lines@) =~= pre + seq!["  CHANGES"@] + cv.take(i + 1).map_values(|c: ChangeV| change_line(c)));
            i += 1;
        }
        assert(cv.take(i as int) =~= cv);
    }
    let ghost mid = crate::text::strs_view(lines@);
    assert(mid =~= pre + (if cv.len() == 0 { seq!["  CHANGES: none"@] } else { seq!["  CHANGES"@] + cv.map_values(|c: ChangeV| change_line(c)) }));
    let sb = summary_line_exec("    before: ", &diff.summary_before);
    let sa = summary_line_exec("    after:  ", &diff.summary_after);
    lines.push(String::new());
    lines.push(String::from_str("  SUMMARY"));
    let ghost sbv = sb@;
    let ghost sav = sa@;
    lines.push(sb);
    lines.push(sa);
    assert(crate::text::strs_view(lines@) =~= mid + seq![seq![], "  SUMMARY"@, sbv, sav]);
    assert(crate::text::strs_view(lines@) =~= diff_lines(
        diff.before_id@,
        diff.after_id@,
        diff.source_changed,
        diff.target_changed,
        cv,
        diff.summary_before,
        diff.summary_after,
    ));
    lines
}

} // verus!
