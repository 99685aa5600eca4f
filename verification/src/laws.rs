//! Properties that relate several operations of the library, stated
//! over the same specifications their contracts use.
use vstd::prelude::*;

use crate::commands::diff::{
    after_changes, all_changes, before_changes, key_of, last_with, lemma_last_with_key, unique_keys, ChangeV,
};
use crate::report::same_target;
use crate::config::{
    envs_view, lemma_sorted_remove_lookup_other, lemma_sorted_remove_lookup_same,
    lemma_sorted_remove_sorted, lemma_sorted_set_lookup_other, lemma_sorted_set_lookup_same,
    lemma_sorted_set_sorted, resolve_spec, sorted_keys, sorted_remove, sorted_set, Config,
};
use crate::execution::{
    advance_spec, outcome_of, receive_spec, CommandV, OutcomeV, Phase, ReplyV, RunV,
};
use crate::frontmatter::{frontmatter_split, line_end, strip_bom};
use crate::gherkin::ScenarioV;
use crate::gherkin::obj_set;
use crate::json::{json_pointer, obj_lookup, JsonV};
use crate::patterns::{
    expand_pass, expand_template, keyword_accepts, matches_from, name_run, placeholder_at, KeywordType,
    StepPattern,
};
use crate::report::{passed_count, report_filename};
use crate::runner::{
    capture_all, has_assertion, opt_str_view, status_accepted, validation, ApiSpec, CtxV, EnvSpec, TestConfig,
    TestResult,
};
use crate::textops::{lowercase, replace_all};

verus! {

// ---------- run summaries ----------

/// A summary's passes never exceed its results, so passes and
/// failures add up to the total.
pub proof fn law_summary_partitions(results: Seq<TestResult>)
    ensures
        passed_count(results) <= results.len(),
        passed_count(results) + (results.len() - passed_count(results)) == results.len(),
    decreases results.len(),
{
    if results.len() > 0 {
        law_summary_partitions(results.drop_last());
    }
}

// ---------- environments ----------

/// Read after write: once `name` is set to `url`, resolving `name`
/// gives `url`; with `make_default`, resolving without a name gives it
/// too; any other name resolves as before; names stay sorted.
pub proof fn law_set_then_resolve(before: Config, after: Config, name: Seq<char>, url: Seq<char>, make_default: bool, other: Seq<char>)
    requires
        before.wf(),
        envs_view(after.envs@) == sorted_set(envs_view(before.envs@), name, url),
        opt_str_view(after.default_env) == if make_default {
            Some(name)
        } else {
            opt_str_view(before.default_env)
        },
    ensures
        after.wf(),
        resolve_spec(after, Some(name)) == Some((name, url)),
        make_default ==> resolve_spec(after, None) == Some((name, url)),
        other != name ==> resolve_spec(after, Some(other)) == resolve_spec(before, Some(other)),
{
    lemma_sorted_set_sorted(envs_view(before.envs@), name, url);
    lemma_sorted_set_lookup_same(envs_view(before.envs@), name, url);
    if other != name {
        lemma_sorted_set_lookup_other(envs_view(before.envs@), name, url, other);
    }
}

/// After `name` is removed it no longer resolves, not even as the
/// default; every other name resolves as before; names stay sorted.
pub proof fn law_remove_then_resolve(before: Config, after: Config, name: Seq<char>, removed: bool, other: Seq<char>)
    requires
        before.wf(),
        removed == crate::patterns::pairs_lookup(envs_view(before.envs@), name) is Some,
        envs_view(after.envs@) == sorted_remove(envs_view(before.envs@), name),
        opt_str_view(after.default_env) == if removed && opt_str_view(before.default_env) == Some(name) {
            None
        } else {
            opt_str_view(before.default_env)
        },
    ensures
        after.wf(),
        resolve_spec(after, Some(name)) is None,
        opt_str_view(before.default_env) == Some(name) ==> resolve_spec(after, None) is None,
        other != name ==> resolve_spec(after, Some(other)) == resolve_spec(before, Some(other)),
{
    lemma_sorted_remove_sorted(envs_view(before.envs@), name);
    lemma_sorted_remove_lookup_same(envs_view(before.envs@), name);
    if other != name {
        lemma_sorted_remove_lookup_other(envs_view(before.envs@), name, other);
    }
}

// ---------- report files ----------

proof fn lemma_replace_removes(s: Seq<char>, c: char, r: Seq<char>)
    requires
        !r.contains(c),
    ensures
        !replace_all(s, seq![c], r).contains(c),
    decreases s.len(),
{
    if s.len() > 0 {
        if crate::text::starts_with(s, seq![c]) {
            lemma_replace_removes(s.skip(1), c, r);
            let t = replace_all(s.skip(1), seq![c], r);
            assert forall|i: int| 0 <= i < (r + t).len() implies (r + t)[i] != c by {
                if i >= r.len() {
                    assert((r + t)[i] == t[i - r.len()]);
                }
            }
        } else {
            lemma_replace_removes(s.drop_first(), c, r);
            let t = replace_all(s.drop_first(), seq![c], r);
            assert(s.take(1) =~= seq![s[0]]);
            assert forall|i: int| 0 <= i < (seq![s[0]] + t).len() implies (seq![s[0]] + t)[i] != c by {
                if i >= 1 {
                    assert((seq![s[0]] + t)[i] == t[i - 1]);
                }
            }
        }
    }
}

/// A report's file name holds no `:` and ends with `.json`.
pub proof fn law_filename_is_safe(started_at_ns: int)
    ensures
        !report_filename(started_at_ns).contains(':'),
        report_filename(started_at_ns).len() >= 5,
        report_filename(started_at_ns).subrange(
            report_filename(started_at_ns).len() - 5,
            report_filename(started_at_ns).len() as int,
        ) == ".json"@,
{
    reveal_strlit(":");
    reveal_strlit("-");
    reveal_strlit(".json");
    let stamp = crate::report::stamp_text(started_at_ns);
    assert(":"@ =~= seq![':']);
    assert(!"-"@.contains(':'));
    lemma_replace_removes(stamp, ':', "-"@);
    let body = replace_all(stamp, ":"@, "-"@);
    let name = body + ".json"@;
    assert forall|i: int| 0 <= i < name.len() implies name[i] != ':' by {
        if i >= body.len() {
            assert(name[i] == ".json"@[i - body.len()]);
        }
    }
    assert(name.subrange(name.len() - 5, name.len() as int) =~= ".json"@);
}

// ---------- diffs ----------

proof fn lemma_key_present_has_last(rs: Seq<TestResult>, k: (Seq<char>, i32))
    requires
        exists|i: int| 0 <= i < rs.len() && key_of(rs[i]) == k,
    ensures
        last_with(rs, k) is Some,
    decreases rs.len(),
{
    if key_of(rs.last()) != k {
        let i = choose|i: int| 0 <= i < rs.len() && key_of(rs[i]) == k;
        assert(rs.drop_last()[i] == rs[i]);
        lemma_key_present_has_last(rs.drop_last(), k);
    }
}

proof fn lemma_unique_keys_in(rs: Seq<TestResult>, j: int)
    requires
        0 <= j < unique_keys(rs).len(),
    ensures
        exists|i: int| 0 <= i < rs.len() && key_of(rs[i]) == unique_keys(rs)[j],
    decreases rs.len(),
{
    let p = unique_keys(rs.drop_last());
    if j < p.len() {
        assert(unique_keys(rs)[j] == p[j]);
        lemma_unique_keys_in(rs.drop_last(), j);
        let i = choose|i: int| 0 <= i < rs.len() - 1 && key_of(rs.drop_last()[i]) == p[j];
        assert(rs.drop_last()[i] == rs[i]);
    } else {
        assert(key_of(rs[rs.len() - 1]) == unique_keys(rs)[j]);
    }
}

proof fn lemma_self_before(keys: Seq<(Seq<char>, i32)>, rs: Seq<TestResult>)
    requires
        forall|j: int| 0 <= j < keys.len() ==> last_with(rs, #[trigger] keys[j]) is Some,
    ensures
        before_changes(keys, rs, rs) == Seq::<crate::commands::diff::ChangeV>::empty(),
    decreases keys.len(),
{
    if keys.len() > 0 {
        assert forall|j: int| 0 <= j < keys.drop_last().len() implies last_with(rs, #[trigger] keys.drop_last()[j]) is Some by {
            assert(keys.drop_last()[j] == keys[j]);
        }
        lemma_self_before(keys.drop_last(), rs);
        assert(last_with(rs, keys[keys.len() - 1]) is Some);
    }
}

proof fn lemma_self_after(keys: Seq<(Seq<char>, i32)>, rs: Seq<TestResult>)
    requires
        forall|j: int| 0 <= j < keys.len() ==> last_with(rs, #[trigger] keys[j]) is Some,
    ensures
        after_changes(keys, rs, rs) == Seq::<crate::commands::diff::ChangeV>::empty(),
    decreases keys.len(),
{
    if keys.len() > 0 {
        assert forall|j: int| 0 <= j < keys.drop_last().len() implies last_with(rs, #[trigger] keys.drop_last()[j]) is Some by {
            assert(keys.drop_last()[j] == keys[j]);
        }
        lemma_self_after(keys.drop_last(), rs);
        assert(last_with(rs, keys[keys.len() - 1]) is Some);
    }
}

/// A report compared with itself shows no changes.
pub proof fn law_diff_with_itself_is_empty(results: Seq<TestResult>)
    ensures
        all_changes(results, results).len() == 0,
{
    let keys = unique_keys(results);
    assert forall|j: int| 0 <= j < keys.len() implies last_with(results, #[trigger] keys[j]) is Some by {
        lemma_unique_keys_in(results, j);
        lemma_key_present_has_last(results, keys[j]);
    }
    lemma_self_before(keys, results);
    lemma_self_after(keys, results);
}

/// The row key a change is about.
pub open spec fn change_key(c: ChangeV) -> (Seq<char>, i32) {
    match c {
        ChangeV::Flipped { title, example_index, .. } => (title, example_index),
        ChangeV::Added { title, example_index, .. } => (title, example_index),
        ChangeV::Removed { title, example_index, .. } => (title, example_index),
    }
}

/// Whether `c` describes how the key's last rows differ between the
/// two reports: a pass flip with both statuses, a key only in the
/// later report, or a key only in the earlier one.
pub open spec fn change_holds(before: Seq<TestResult>, after: Seq<TestResult>, c: ChangeV) -> bool {
    let k = change_key(c);
    match c {
        ChangeV::Flipped { was_pass, now_pass, status_before, status_after, .. } => {
            &&& last_with(before, k) matches Some(b)
            &&& last_with(after, k) matches Some(a)
            &&& b.pass != a.pass
            &&& was_pass == b.pass && now_pass == a.pass
            &&& status_before == b.response_status && status_after == a.response_status
        },
        ChangeV::Added { pass, .. } => last_with(before, k) is None && (last_with(after, k) matches Some(a) && a.pass == pass),
        ChangeV::Removed { pass, .. } => (last_with(before, k) matches Some(b) && b.pass == pass) && last_with(after, k) is None,
    }
}

proof fn lemma_unique_keys_contain(rs: Seq<TestResult>, k: (Seq<char>, i32))
    ensures
        unique_keys(rs).contains(k) <==> last_with(rs, k) is Some,
    decreases rs.len(),
{
    if rs.len() > 0 {
        lemma_unique_keys_contain(rs.drop_last(), k);
        let p = unique_keys(rs.drop_last());
        if !p.contains(key_of(rs.last())) {
            assert(p.push(key_of(rs.last())).contains(k) <==> (p.contains(k) || key_of(rs.last()) == k)) by {
                if p.push(key_of(rs.last())).contains(k) {
                    let i = choose|i: int| 0 <= i < p.len() + 1 && p.push(key_of(rs.last()))[i] == k;
                    if i < p.len() {
                        assert(p[i] == k);
                    }
                }
                if p.contains(k) {
                    let i = choose|i: int| 0 <= i < p.len() && p[i] == k;
                    assert(p.push(key_of(rs.last()))[i] == k);
                }
                if key_of(rs.last()) == k {
                    assert(p.push(key_of(rs.last()))[p.len() as int] == k);
                }
            }
        }
    }
}

proof fn lemma_push_contains<A>(s: Seq<A>, x: A, c: A)
    ensures
        s.push(x).contains(c) <==> (s.contains(c) || x == c),
{
    if s.push(x).contains(c) {
        let i = choose|i: int| 0 <= i < s.len() + 1 && s.push(x)[i] == c;
        if i < s.len() {
            assert(s[i] == c);
        }
    }
    if s.contains(c) {
        let i = choose|i: int| 0 <= i < s.len() && s[i] == c;
        assert(s.push(x)[i] == c);
    }
    if x == c {
        assert(s.push(x)[s.len() as int] == c);
    }
}

proof fn lemma_before_changes_contain(keys: Seq<(Seq<char>, i32)>, before: Seq<TestResult>, after: Seq<TestResult>, c: ChangeV)
    requires
        forall|j: int| 0 <= j < keys.len() ==> last_with(before, #[trigger] keys[j]) is Some,
    ensures
        before_changes(keys, before, after).contains(c) <==> (c !is Added && keys.contains(change_key(c)) && change_holds(before, after, c)),
    decreases keys.len(),
{
    if keys.len() == 0 {
        assert(!keys.contains(change_key(c)));
    } else {
        let kd = keys.drop_last();
        assert forall|j: int| 0 <= j < kd.len() implies last_with(before, #[trigger] kd[j]) is Some by {
            assert(kd[j] == keys[j]);
        }
        lemma_before_changes_contain(kd, before, after, c);
        lemma_push_contains(kd, keys.last(), change_key(c));
        assert(kd.push(keys.last()) =~= keys);
        let k = keys.last();
        assert(last_with(before, keys[keys.len() - 1]) is Some);
        lemma_last_with_key(before, k);
        lemma_last_with_key(after, k);
        let rest = before_changes(kd, before, after);
        let b = last_with(before, k)->0;
        match last_with(after, k) {
            Some(a) => {
                if b.pass != a.pass {
                    let x = ChangeV::Flipped {
                        title: k.0, example_index: k.1, was_pass: b.pass, now_pass: a.pass,
                        status_before: b.response_status, status_after: a.response_status,
                    };
                    lemma_push_contains(rest, x, c);
                }
            },
            None => {
                let x = ChangeV::Removed { title: k.0, example_index: k.1, pass: b.pass };
                lemma_push_contains(rest, x, c);
            },
        }
    }
}

proof fn lemma_after_changes_contain(keys: Seq<(Seq<char>, i32)>, before: Seq<TestResult>, after: Seq<TestResult>, c: ChangeV)
    requires
        forall|j: int| 0 <= j < keys.len() ==> last_with(after, #[trigger] keys[j]) is Some,
    ensures
        after_changes(keys, before, after).contains(c) <==> (c is Added && keys.contains(change_key(c)) && change_holds(before, after, c)),
    decreases keys.len(),
{
    if keys.len() == 0 {
        assert(!keys.contains(change_key(c)));
    } else {
        let kd = keys.drop_last();
        assert forall|j: int| 0 <= j < kd.len() implies last_with(after, #[trigger] kd[j]) is Some by {
            assert(kd[j] == keys[j]);
        }
        lemma_after_changes_contain(kd, before, after, c);
        lemma_push_contains(kd, keys.last(), change_key(c));
        assert(kd.push(keys.last()) =~= keys);
        let k = keys.last();
        assert(last_with(after, keys[keys.len() - 1]) is Some);
        lemma_last_with_key(before, k);
        lemma_last_with_key(after, k);
        let rest = after_changes(kd, before, after);
        if last_with(before, k) is None {
            let x = ChangeV::Added { title: k.0, example_index: k.1, pass: last_with(after, k)->0.pass };
            lemma_push_contains(rest, x, c);
        }
    }
}

/// A diff lists exactly the changes that hold: `c` is among the
/// changes from `before` to `after` if and only if it describes how
/// its key's last rows differ (see [`change_holds`]).
pub proof fn law_diff_lists_exactly_what_changed(before: Seq<TestResult>, after: Seq<TestResult>, c: ChangeV)
    ensures
        all_changes(before, after).contains(c) <==> change_holds(before, after, c),
{
    let kb = unique_keys(before);
    let ka = unique_keys(after);
    assert forall|j: int| 0 <= j < kb.len() implies last_with(before, #[trigger] kb[j]) is Some by {
        lemma_unique_keys_in(before, j);
        lemma_key_present_has_last(before, kb[j]);
    }
    assert forall|j: int| 0 <= j < ka.len() implies last_with(after, #[trigger] ka[j]) is Some by {
        lemma_unique_keys_in(after, j);
        lemma_key_present_has_last(after, ka[j]);
    }
    lemma_before_changes_contain(kb, before, after, c);
    lemma_after_changes_contain(ka, before, after, c);
    lemma_unique_keys_contain(before, change_key(c));
    lemma_unique_keys_contain(after, change_key(c));
    let x = before_changes(kb, before, after);
    let y = after_changes(ka, before, after);
    assert((x + y).contains(c) <==> (x.contains(c) || y.contains(c))) by {
        if (x + y).contains(c) {
            let i = choose|i: int| 0 <= i < (x + y).len() && (x + y)[i] == c;
            if i < x.len() {
                assert(x[i] == c);
            } else {
                assert(y[i - x.len()] == c);
            }
        }
        if x.contains(c) {
            let i = choose|i: int| 0 <= i < x.len() && x[i] == c;
            assert((x + y)[i] == c);
        }
        if y.contains(c) {
            let i = choose|i: int| 0 <= i < y.len() && y[i] == c;
            assert((x + y)[i + x.len()] == c);
        }
    }
}

/// Swapping the two reports swaps additions with removals and turns
/// each flip around; whether the source or the target changed stays
/// the same.
pub proof fn law_diff_swap(
    a: crate::report::ReportRecord,
    b: crate::report::ReportRecord,
    title: Seq<char>,
    example_index: i32,
    pass: bool,
    was_pass: bool,
    now_pass: bool,
    status_before: i16,
    status_after: i16,
)
    ensures
        all_changes(a.report.results@, b.report.results@).contains(ChangeV::Added { title, example_index, pass })
            <==> all_changes(b.report.results@, a.report.results@).contains(ChangeV::Removed { title, example_index, pass }),
        all_changes(a.report.results@, b.report.results@).contains(
            ChangeV::Flipped { title, example_index, was_pass, now_pass, status_before, status_after },
        ) <==> all_changes(b.report.results@, a.report.results@).contains(
            ChangeV::Flipped { title, example_index, was_pass: now_pass, now_pass: was_pass, status_before: status_after, status_after: status_before },
        ),
        (a.report.source_file@ != b.report.source_file@) == (b.report.source_file@ != a.report.source_file@),
        same_target(a.report.target, b.report.target) == same_target(b.report.target, a.report.target),
{
    let ra = a.report.results@;
    let rb = b.report.results@;
    law_diff_lists_exactly_what_changed(ra, rb, ChangeV::Added { title, example_index, pass });
    law_diff_lists_exactly_what_changed(rb, ra, ChangeV::Removed { title, example_index, pass });
    law_diff_lists_exactly_what_changed(ra, rb, ChangeV::Flipped { title, example_index, was_pass, now_pass, status_before, status_after });
    law_diff_lists_exactly_what_changed(rb, ra, ChangeV::Flipped { title, example_index, was_pass: now_pass, now_pass: was_pass, status_before: status_after, status_after: status_before });
}

// ---------- templates ----------

proof fn lemma_pass_without_braces(
    s: Seq<char>,
    caps: Seq<crate::patterns::GroupV>,
    vars: Seq<(Seq<char>, JsonV)>,
)
    requires
        !s.contains('{'),
    ensures
        expand_pass(s, caps, vars) == s,
    decreases s.len(),
{
    if s.len() > 0 {
        assert(placeholder_at(s) is None) by {
            assert(s[0] != '{');
        }
        assert(!s.drop_first().contains('{')) by {
            if s.drop_first().contains('{') {
                let i = choose|i: int| 0 <= i < s.drop_first().len() && s.drop_first()[i] == '{';
                assert(s[i + 1] == '{');
            }
        }
        lemma_pass_without_braces(s.drop_first(), caps, vars);
        assert(seq![s[0]] + s.drop_first() =~= s);
    }
}

/// A template without `{` comes out unchanged.
pub proof fn law_template_without_braces_unchanged(
    s: Seq<char>,
    caps: Seq<crate::patterns::GroupV>,
    vars: Seq<(Seq<char>, JsonV)>,
)
    requires
        !s.contains('{'),
    ensures
        expand_template(s, caps, vars) == s,
{
    lemma_pass_without_braces(s, caps, vars);
}

proof fn lemma_lookup_after_set(e: Seq<(Seq<char>, JsonV)>, k: Seq<char>, v: JsonV)
    ensures
        obj_lookup(obj_set(e, k, v), k) == Some(v),
    decreases e.len(),
{
    if e.len() > 0 && e[0].0 != k {
        lemma_lookup_after_set(e.drop_first(), k, v);
        assert((seq![e[0]] + obj_set(e.drop_first(), k, v)).drop_first() =~= obj_set(e.drop_first(), k, v));
    }
}

proof fn lemma_name_run_plain(s: Seq<char>, rest: Seq<char>)
    requires
        !s.contains('{'),
        !s.contains('}'),
        rest.len() > 0,
        rest[0] == '}',
    ensures
        name_run(s + rest) == s.len(),
    decreases s.len(),
{
    if s.len() == 0 {
        assert(s + rest =~= rest);
    } else {
        assert(s[0] != '{' && s[0] != '}') by {
            if s[0] == '{' || s[0] == '}' {
                assert(s.contains(s[0]));
            }
        }
        assert(!s.drop_first().contains('{') && !s.drop_first().contains('}')) by {
            if s.drop_first().contains('{') || s.drop_first().contains('}') {
                let i = choose|i: int| 0 <= i < s.drop_first().len() && (s.drop_first()[i] == '{' || s.drop_first()[i] == '}');
                assert(s.contains(s[i + 1]));
            }
        }
        assert((s + rest).drop_first() =~= s.drop_first() + rest);
        lemma_name_run_plain(s.drop_first(), rest);
    }
}

/// Read after write: a string that `capture_response` stores under a
/// plain name is what a later `{{$name}}` placeholder expands to.
pub proof fn law_captured_value_reads_back(
    vars: Seq<(Seq<char>, JsonV)>,
    name: Seq<char>,
    pointer: Seq<char>,
    body: JsonV,
    caps: Seq<crate::patterns::GroupV>,
    value: Seq<char>,
)
    requires
        name.len() > 0,
        !name.contains('{'),
        !name.contains('}'),
        json_pointer(body, pointer) == Some(JsonV::Str(value)),
        !value.contains('{'),
    ensures
        expand_template(
            "{{$"@ + name + "}}"@,
            caps,
            capture_all(vars, seq![(name, pointer)], body, caps),
        ) == value,
{
    law_template_without_braces_unchanged(name, caps, vars);
    let stored = obj_set(vars, name, JsonV::Str(value));
    let list = seq![(name, pointer)];
    assert(list.drop_first() =~= seq![]);
    assert(list[0] == (name, pointer));
    assert(capture_all(stored, list.drop_first(), body, caps) == stored);
    assert(capture_all(vars, list, body, caps) == stored);
    lemma_lookup_after_set(vars, name, JsonV::Str(value));
    let s = "{{$"@ + name + "}}"@;
    reveal_strlit("{{$");
    reveal_strlit("}}");
    assert(s.skip(2) =~= ("$"@ + name) + "}}"@) by {
        reveal_strlit("$");
    }
    assert(!("$"@ + name).contains('{') && !("$"@ + name).contains('}')) by {
        reveal_strlit("$");
        if ("$"@ + name).contains('{') || ("$"@ + name).contains('}') {
            let i = choose|i: int| 0 <= i < ("$"@ + name).len() && (("$"@ + name)[i] == '{' || ("$"@ + name)[i] == '}');
            assert(i > 0);
            assert(name.contains(name[i - 1]));
        }
    }
    lemma_name_run_plain("$"@ + name, "}}"@);
    assert(placeholder_at(s) == Some((true, name, s.len() as int))) by {
        assert(s.subrange(3, 3 + name.len() as int) =~= name);
    }
    assert(s.skip(s.len() as int) =~= seq![]);
    assert(expand_pass(s.skip(s.len() as int), caps, stored) == Seq::<char>::empty());
    assert(crate::patterns::template_value(true, name, caps, stored) == value);
    assert(expand_pass(s, caps, stored) == crate::patterns::template_value(true, name, caps, stored)
        + expand_pass(s.skip(s.len() as int), caps, stored));
    assert(expand_pass(s, caps, stored) =~= value);
    assert(s[0] == '{');
    assert(value != s) by {
        if value == s {
            assert(value.contains(s[0]));
        }
    }
    lemma_pass_without_braces(value, caps, stored);
    assert(crate::patterns::expand_rounds(value, caps, stored, 7) == value);
    assert(crate::patterns::expand_rounds(s, caps, stored, 8) == crate::patterns::expand_rounds(value, caps, stored, 7));
}

// ---------- pattern matching ----------

/// Every pattern that fires for a step is one whose keyword filter
/// accepts the step, and they come in pattern order.
pub proof fn law_matches_respect_keyword_filter(ps: Seq<StepPattern>, kt: Option<KeywordType>, text: Seq<char>, k: int)
    requires
        0 <= k,
    ensures
        forall|i: int| 0 <= i < matches_from(ps, kt, text, k).len() ==> {
            &&& k <= #[trigger] matches_from(ps, kt, text, k)[i].0 < ps.len()
            &&& keyword_accepts(ps[matches_from(ps, kt, text, k)[i].0].keyword_type, kt)
        },
        forall|i: int, j: int| 0 <= i < j < matches_from(ps, kt, text, k).len() ==> matches_from(ps, kt, text, k)[i].0 < matches_from(ps, kt, text, k)[j].0,
    decreases ps.len() - k,
{
    if k < ps.len() {
        law_matches_respect_keyword_filter(ps, kt, text, k + 1);
        let all = matches_from(ps, kt, text, k);
        let rest = matches_from(ps, kt, text, k + 1);
        if keyword_accepts(ps[k].keyword_type, kt) && crate::patterns::regex_groups(ps[k].regex@, text) is Some {
            assert forall|i: int| 0 <= i < all.len() implies {
                &&& k <= #[trigger] all[i].0 < ps.len()
                &&& keyword_accepts(ps[all[i].0].keyword_type, kt)
            } by {
                if i > 0 {
                    assert(all[i] == rest[i - 1]);
                }
            }
            assert forall|i: int, j: int| 0 <= i < j < all.len() implies all[i].0 < all[j].0 by {
                assert(all[j] == rest[j - 1]);
                if i > 0 {
                    assert(all[i] == rest[i - 1]);
                }
            }
        }
    }
}

// ---------- validation and row outcomes ----------

/// Strict mode: a row that set no assertion passes validation exactly
/// when `allow_no_assertions` is on.
pub proof fn law_no_assertion_passes_only_when_allowed(allow: bool, status: i16, body: JsonV, c: CtxV)
    requires
        !has_assertion(c),
    ensures
        validation(allow, status, body, c) is Ok <==> allow,
{
    assert(crate::runner::first_missing(c.expected_body_contains, crate::json::json_render(body), 0) is None);
}

/// The reply to the implicit request is what the row's outcome
/// validates: its status and body are reported, and the row passes
/// exactly when validation accepts them.
pub proof fn law_implicit_response_decides_outcome(
    r: RunV,
    ps: Seq<StepPattern>,
    config: TestConfig,
    sc: ScenarioV,
    api: ApiSpec,
    env: EnvSpec,
    status: i16,
    body: JsonV,
    duration_ms: i64,
)
    requires
        r.phase == Phase::AwaitFallback,
        r.failure is None,
    ensures
        ({
            let r2 = receive_spec(r, ps, ReplyV::Response { status, body, duration_ms });
            let v = validation(config.allow_no_assertions, status, body, r2.ctx);
            advance_spec(r2, ps, config, sc, api, env).1 == CommandV::Finish(OutcomeV {
                pass: v is Ok,
                error_message: match v {
                    Err(m) => Some(m),
                    Ok(_) => None,
                },
                response_status: status,
                response_data: Some(body),
            })
        }),
{
}

/// A response whose status is not in a non-empty `accepted_status`
/// list fails the row: the run records the failure and stops its
/// steps, and the outcome is a failure with status 0.
pub proof fn law_rejected_status_fails_row(
    r: RunV,
    ps: Seq<StepPattern>,
    config: TestConfig,
    sc: ScenarioV,
    api: ApiSpec,
    env: EnvSpec,
    status: i16,
    body: JsonV,
    duration_ms: i64,
)
    requires
        r.phase matches Phase::AwaitStep { matched: m, action: a, .. } && 0 <= m < r.matches.len() && 0 <= r.matches[m as int].0 < ps.len()
            && 0 <= a < ps[r.matches[m as int].0].actions.len()
            && !status_accepted(ps[r.matches[m as int].0].actions[a as int]->accepted_status@, status),
    ensures
        ({
            let r2 = receive_spec(r, ps, ReplyV::Response { status, body, duration_ms });
            &&& r2.failure is Some
            &&& r2.phase == Phase::Wrapup
            &&& advance_spec(r2, ps, config, sc, api, env).1 matches CommandV::Finish(o) && !o.pass && o.response_status == 0
        }),
{
}

/// A request that fails in transport fails the row with the reason.
pub proof fn law_transport_failure_fails_row(
    r: RunV,
    ps: Seq<StepPattern>,
    config: TestConfig,
    sc: ScenarioV,
    api: ApiSpec,
    env: EnvSpec,
    reason: Seq<char>,
)
    requires
        r.phase is AwaitStep || r.phase is AwaitFallback,
    ensures
        ({
            let r2 = receive_spec(r, ps, ReplyV::Failed(reason));
            &&& r2.failure == Some(crate::execution::transport_failure(reason))
            &&& advance_spec(r2, ps, config, sc, api, env).1 == CommandV::Finish(outcome_of(config.allow_no_assertions, r2.ctx, r2.failure))
            &&& !outcome_of(config.allow_no_assertions, r2.ctx, r2.failure).pass
        }),
{
}

// ---------- frontmatter ----------

/// Splitting loses nothing: a file with a frontmatter block is (after
/// a possible byte-order mark) its opening line, the block, the closing
/// line and the body, in order; a file without one passes through
/// unchanged.
pub proof fn law_split_keeps_everything(content: Seq<char>)
    ensures
        frontmatter_split(content) matches Ok((Some(y), b)) ==> exists|open: Seq<char>, close: Seq<char>|
            strip_bom(content) == open + y + close + b && crate::frontmatter::trim_crlf(open) == "---"@ && crate::frontmatter::trim_crlf(close) == "---"@,
        frontmatter_split(content) matches Ok((None, b)) ==> b == content,
{
    let c = strip_bom(content);
    if let Ok((Some(y), b)) = frontmatter_split(content) {
        let e0 = line_end(c, 0);
        let (a, z) = crate::frontmatter::closing_fence(c, e0)->0;
        lemma_closing_fence_is_fence(c, e0);
        let open = c.subrange(0, e0);
        let close = c.subrange(a, z);
        assert(c =~= open + y + close + b);
    }
}

proof fn lemma_closing_fence_is_fence(s: Seq<char>, p: int)
    ensures
        crate::frontmatter::closing_fence(s, p) matches Some((a, b)) ==> p <= a < b <= s.len() && crate::frontmatter::is_fence(s, a, b),
    decreases s.len() - p,
{
    if 0 <= p < s.len() {
        let e = line_end(s, p);
        if p < e <= s.len() && !crate::frontmatter::is_fence(s, p, e) {
            lemma_closing_fence_is_fence(s, e);
        }
    }
}


// ---------- deep matching, validation, word scans, request bodies, queries ----------

/// Outside numbers, objects and arrays a value matches only an equal
/// value: a boolean matches only the same boolean, a string only the
/// same string, `null` only `null`, and values of different kinds never.
pub proof fn law_scalars_match_only_when_equal(actual: JsonV, expected: JsonV)
    requires
        !(actual is Object && expected is Object),
        !(actual is Array && expected is Array),
        !(actual is Number && expected is Number),
    ensures
        crate::json::json_matches(actual, expected) <==> actual == expected,
{
}

/// The booleans case of [`law_scalars_match_only_when_equal`], inside an
/// object: an expected field `true` is not met by an actual `false`.
pub proof fn law_boolean_fields_must_agree(a: bool, b: bool, key: Seq<char>)
    ensures
        crate::json::json_matches(JsonV::Bool(a), JsonV::Bool(b)) <==> a == b,
        crate::json::json_matches(
            JsonV::Object(seq![(key, JsonV::Bool(a))]),
            JsonV::Object(seq![(key, JsonV::Bool(b))]),
        ) <==> a == b,
{
    let ae = seq![(key, JsonV::Bool(a))];
    let ee = seq![(key, JsonV::Bool(b))];
    assert(ee.drop_last() =~= Seq::<(Seq<char>, JsonV)>::empty());
    assert(obj_lookup(ae, key) == Some(JsonV::Bool(a)));
    assert(crate::json::entries_match(ae, ee.drop_last()));
    assert(ee[ee.len() - 1] == (key, JsonV::Bool(b)));
    assert(crate::json::json_matches(JsonV::Bool(a), JsonV::Bool(b)) <==> a == b);
    assert(crate::json::entries_match(ae, ee) == crate::json::json_matches(JsonV::Bool(a), JsonV::Bool(b)));
    assert(crate::json::json_matches(JsonV::Object(ae), JsonV::Object(ee)) == crate::json::entries_match(ae, ee));
}

proof fn lemma_none_missing(pats: Seq<Seq<char>>, text: Seq<char>, j: int, k: int)
    requires
        0 <= j <= k < pats.len(),
        crate::runner::first_missing(pats, text, j) is None,
    ensures
        crate::text::contains(text, pats[k]),
    decreases k - j,
{
    if j < k {
        lemma_none_missing(pats, text, j + 1, k);
    }
}

/// A response that passes validation contains, in its rendered body,
/// every substring the steps asked for, not just the first.
pub proof fn law_valid_response_contains_every_expected_substring(
    allow_no_assertions: bool,
    status: i16,
    body: JsonV,
    c: CtxV,
    k: int,
)
    requires
        validation(allow_no_assertions, status, body, c) is Ok,
        0 <= k < c.expected_body_contains.len(),
    ensures
        crate::text::contains(crate::json::json_render(body), c.expected_body_contains[k]),
{
    lemma_none_missing(c.expected_body_contains, crate::json::json_render(body), 0, k);
}

proof fn lemma_first_anchor(ws: Seq<Seq<char>>, anchors: Seq<Seq<char>>, i: int, k: int)
    requires
        0 <= k <= i < ws.len(),
        anchors.contains(ws[i]),
        forall|j: int| 0 <= j < i ==> !anchors.contains(#[trigger] ws[j]),
    ensures
        crate::patterns::find_anchor(ws, anchors, k) == i,
    decreases i - k,
{
    if k < i {
        lemma_first_anchor(ws, anchors, i, k + 1);
    }
}

proof fn lemma_no_anchor(ws: Seq<Seq<char>>, anchors: Seq<Seq<char>>, k: int)
    requires
        0 <= k <= ws.len(),
        forall|j: int| 0 <= j < ws.len() ==> !anchors.contains(#[trigger] ws[j]),
    ensures
        crate::patterns::find_anchor(ws, anchors, k) == ws.len(),
    decreases ws.len() - k,
{
    if k < ws.len() {
        lemma_no_anchor(ws, anchors, k + 1);
    }
}

proof fn lemma_pairs_lookup_after_set(e: Seq<(Seq<char>, Seq<char>)>, k: Seq<char>, v: Seq<char>)
    ensures
        crate::patterns::pairs_lookup(crate::patterns::pairs_set(e, k, v), k) == Some(v),
    decreases e.len(),
{
    if e.len() > 0 && e[0].0 != k {
        lemma_pairs_lookup_after_set(e.drop_first(), k, v);
        assert((seq![e[0]] + crate::patterns::pairs_set(e.drop_first(), k, v)).drop_first()
            =~= crate::patterns::pairs_set(e.drop_first(), k, v));
    }
}

/// A word scan keys its entry by the word after the first anchor word
/// and stores the text's last word as the value, both without quotes;
/// a text with no anchor word leaves the bucket as it was.
pub proof fn law_word_scan_stores_last_word(
    text: Seq<char>,
    anchors: Seq<Seq<char>>,
    bucket: Seq<(Seq<char>, Seq<char>)>,
    i: int,
)
    ensures
        ({
            let ws = crate::text::words(text);
            (0 <= i && i + 1 < ws.len() && anchors.contains(ws[i])
                && forall|j: int| 0 <= j < i ==> !anchors.contains(#[trigger] ws[j])) ==> crate::patterns::pairs_lookup(
                crate::patterns::word_pair(text, anchors, bucket),
                crate::textops::trim_quotes(ws[i + 1]),
            ) == Some(crate::textops::trim_quotes(ws.last()))
        }),
        (forall|j: int| 0 <= j < crate::text::words(text).len() ==> !anchors.contains(
            #[trigger] crate::text::words(text)[j],
        )) ==> crate::patterns::word_pair(text, anchors, bucket) == bucket,
{
    let ws = crate::text::words(text);
    if 0 <= i && i + 1 < ws.len() && anchors.contains(ws[i]) && forall|j: int| 0 <= j < i ==> !anchors.contains(#[trigger] ws[j]) {
        lemma_first_anchor(ws, anchors, i, 0);
        lemma_pairs_lookup_after_set(bucket, crate::textops::trim_quotes(ws[i + 1]), crate::textops::trim_quotes(ws.last()));
    }
    if forall|j: int| 0 <= j < ws.len() ==> !anchors.contains(#[trigger] ws[j]) {
        lemma_no_anchor(ws, anchors, 0);
    }
}

proof fn lemma_stripped_entries(e: Seq<(Seq<char>, JsonV)>, k: Seq<char>, v: JsonV)
    ensures
        crate::runner::strip_status_keys(e).contains((k, v)) <==> (e.contains((k, v)) && k != "expected_status"@
            && k != "expected_status_code"@ && k != "expected_response_body"@),
    decreases e.len(),
{
    if e.len() == 0 {
        assert(!e.contains((k, v)));
    } else {
        lemma_stripped_entries(e.drop_last(), k, v);
        lemma_push_contains(e.drop_last(), e.last(), (k, v));
        assert(e.drop_last().push(e.last()) =~= e);
        let s = crate::runner::strip_status_keys(e.drop_last());
        if !crate::runner::is_status_key(e.last().0) {
            lemma_push_contains(s, e.last(), (k, v));
        }
    }
}

/// The implicit request's body built from an example row holds every
/// entry of the row except the expectation columns `expected_status`,
/// `expected_status_code` and `expected_response_body`, and nothing else.
pub proof fn law_row_body_drops_only_expectation_columns(c: CtxV, e: Seq<(Seq<char>, JsonV)>, k: Seq<char>, v: JsonV)
    requires
        c.request_body is None,
    ensures
        crate::runner::request_body(c, JsonV::Object(e)) matches Some(JsonV::Object(r)) && (r.contains((k, v)) <==> (
        e.contains((k, v)) && k != "expected_status"@ && k != "expected_status_code"@ && k != "expected_response_body"@)),
{
    lemma_stripped_entries(e, k, v);
}

/// A spec matches a query when, lower-cased, its path, a feature's name
/// or a scenario tag contains the lower-cased query.
pub proof fn law_query_searches_paths_feature_names_and_tags(
    r: crate::spec::SpecRecord,
    query: Seq<char>,
    i: int,
    j: int,
    t: int,
)
    ensures
        crate::text::contains(lowercase(r.path@), lowercase(query)) ==> crate::commands::api::record_hit(r, query),
        (0 <= i < r.features@.len() && crate::text::contains(lowercase(r.features@[i].name@), lowercase(query)))
            ==> crate::commands::api::record_hit(r, query),
        (0 <= i < r.features@.len() && 0 <= j < r.features@[i].scenarios@.len() && 0 <= t
            < r.features@[i].scenarios@[j].tags@.len() && crate::text::contains(
            lowercase(r.features@[i].scenarios@[j].tags@[t]@),
            lowercase(query),
        )) ==> crate::commands::api::record_hit(r, query),
{
    if 0 <= i < r.features@.len() {
        let fv = crate::spec::features_view(r.features@)[i];
        assert(fv == r.features@[i]@);
        if 0 <= j < r.features@[i].scenarios@.len() {
            assert(fv.scenarios[j] == r.features@[i].scenarios@[j]@);
            if 0 <= t < r.features@[i].scenarios@[j].tags@.len() {
                assert(fv.scenarios[j].tags[t] == r.features@[i].scenarios@[j].tags@[t]@);
                if crate::text::contains(lowercase(r.features@[i].scenarios@[j].tags@[t]@), lowercase(query)) {
                    assert(crate::commands::api::tag_hit(fv.scenarios[j].tags, lowercase(query)));
                    assert(crate::commands::api::feature_hit(fv, lowercase(query)));
                }
            }
        }
        if crate::text::contains(lowercase(r.features@[i].name@), lowercase(query)) {
            assert(crate::commands::api::feature_hit(fv, lowercase(query)));
        }
    }
}


proof fn lemma_all_present(pats: Seq<Seq<char>>, text: Seq<char>, j: int)
    requires
        0 <= j,
        forall|k: int| j <= k < pats.len() ==> crate::text::contains(text, #[trigger] pats[k]),
    ensures
        crate::runner::first_missing(pats, text, j) is None,
    decreases pats.len() - j,
{
    if j < pats.len() {
        lemma_all_present(pats, text, j + 1);
    }
}

/// A response passes validation exactly when strict mode is met (some
/// assertion is set, unless `allow_no_assertions`), its status meets
/// the expected status (equal to an exact one, within a range's bounds),
/// its rendered body contains every expected substring, and its body
/// (or the part the pointer selects) deep-matches a non-null expected
/// body.
pub proof fn law_validation_accepts_exactly_what_meets_every_assertion(
    allow_no_assertions: bool,
    status: i16,
    body: JsonV,
    c: CtxV,
)
    ensures
        validation(allow_no_assertions, status, body, c) is Ok <==> {
            &&& (allow_no_assertions || c.expected_status is Some || c.expected_body is Some
                || c.expected_body_contains.len() > 0)
            &&& (c.expected_status matches Some(crate::runner::StatusMatcher::Exact(s)) ==> status == s)
            &&& (c.expected_status matches Some(crate::runner::StatusMatcher::Range { min, max }) ==> min <= status
                && status <= max)
            &&& forall|k: int| 0 <= k < c.expected_body_contains.len() ==> crate::text::contains(
                crate::json::json_render(body),
                #[trigger] c.expected_body_contains[k],
            )
            &&& ((c.expected_body is Some && c.expected_body->0 !is Null) ==> match c.expected_body_pointer {
                None => crate::json::json_matches(body, c.expected_body->0),
                Some(p) => json_pointer(body, p) matches Some(sub) && crate::json::json_matches(
                    sub,
                    c.expected_body->0,
                ),
            })
        },
{
    let text = crate::json::json_render(body);
    let pats = c.expected_body_contains;
    if forall|k: int| 0 <= k < pats.len() ==> crate::text::contains(text, #[trigger] pats[k]) {
        lemma_all_present(pats, text, 0);
    }
    if crate::runner::first_missing(pats, text, 0) is None {
        assert forall|k: int| 0 <= k < pats.len() implies crate::text::contains(text, #[trigger] pats[k]) by {
            lemma_none_missing(pats, text, 0, k);
        }
    }
}

proof fn lemma_entries_match(a: Seq<(Seq<char>, JsonV)>, e: Seq<(Seq<char>, JsonV)>)
    ensures
        crate::json::entries_match(a, e) <==> forall|i: int| 0 <= i < e.len() ==> (obj_lookup(a, #[trigger] e[i].0) matches Some(
            av,
        ) && crate::json::json_matches(av, e[i].1)),
    decreases e.len(),
{
    if e.len() > 0 {
        lemma_entries_match(a, e.drop_last());
        let d = e.drop_last();
        assert forall|i: int| 0 <= i < d.len() implies #[trigger] d[i] == e[i] by {}
        if forall|i: int| 0 <= i < e.len() ==> (obj_lookup(a, #[trigger] e[i].0) matches Some(av) && crate::json::json_matches(av, e[i].1)) {
            assert forall|i: int| 0 <= i < d.len() implies (obj_lookup(a, #[trigger] d[i].0) matches Some(av) && crate::json::json_matches(av, d[i].1)) by {
                assert(d[i] == e[i]);
            }
            assert(obj_lookup(a, e[e.len() - 1].0) matches Some(av) && crate::json::json_matches(av, e[e.len() - 1].1));
        }
        if crate::json::entries_match(a, e) {
            assert forall|i: int| 0 <= i < e.len() implies (obj_lookup(a, #[trigger] e[i].0) matches Some(av) && crate::json::json_matches(av, e[i].1)) by {
                if i < e.len() - 1 {
                    assert(d[i] == e[i]);
                }
            }
        }
    }
}

proof fn lemma_some_item(a: Seq<JsonV>, x: JsonV)
    ensures
        crate::json::some_item_matches(a, x) <==> exists|j: int| 0 <= j < a.len() && crate::json::json_matches(#[trigger] a[j], x),
    decreases a.len(),
{
    if a.len() > 0 {
        lemma_some_item(a.drop_last(), x);
        let d = a.drop_last();
        if exists|j: int| 0 <= j < a.len() && crate::json::json_matches(#[trigger] a[j], x) {
            let j = choose|j: int| 0 <= j < a.len() && crate::json::json_matches(#[trigger] a[j], x);
            if j < a.len() - 1 {
                assert(d[j] == a[j]);
            }
        }
        if crate::json::some_item_matches(d, x) {
            let j = choose|j: int| 0 <= j < d.len() && crate::json::json_matches(#[trigger] d[j], x);
            assert(d[j] == a[j]);
        }
        if crate::json::json_matches(a[a.len() - 1], x) {
            assert(crate::json::json_matches(a[a.len() - 1], x));
        }
    }
}

proof fn lemma_items_all(a: Seq<JsonV>, e: Seq<JsonV>)
    ensures
        crate::json::items_all_match(a, e) <==> forall|i: int| 0 <= i < e.len() ==> crate::json::some_item_matches(a, #[trigger] e[i]),
    decreases e.len(),
{
    if e.len() > 0 {
        lemma_items_all(a, e.drop_last());
        let d = e.drop_last();
        if forall|i: int| 0 <= i < e.len() ==> crate::json::some_item_matches(a, #[trigger] e[i]) {
            assert forall|i: int| 0 <= i < d.len() implies crate::json::some_item_matches(a, #[trigger] d[i]) by {
                assert(d[i] == e[i]);
            }
            assert(crate::json::some_item_matches(a, e[e.len() - 1]));
        }
        if crate::json::items_all_match(a, e) {
            assert forall|i: int| 0 <= i < e.len() implies crate::json::some_item_matches(a, #[trigger] e[i]) by {
                if i < e.len() - 1 {
                    assert(d[i] == e[i]);
                }
            }
        }
    }
}

/// An expected object matches exactly when each of its fields is in
/// the actual object with a matching value; an expected array matches
/// exactly when each of its items matches some actual item; numbers
/// match when their texts are equal or both are a float zero.
pub proof fn law_deep_match_structure(
    a: Seq<(Seq<char>, JsonV)>,
    e: Seq<(Seq<char>, JsonV)>,
    xs: Seq<JsonV>,
    ys: Seq<JsonV>,
    m: Seq<char>,
    n: Seq<char>,
)
    ensures
        crate::json::json_matches(JsonV::Object(a), JsonV::Object(e)) <==> forall|i: int| 0 <= i < e.len()
            ==> (obj_lookup(a, #[trigger] e[i].0) matches Some(av) && crate::json::json_matches(av, e[i].1)),
        crate::json::json_matches(JsonV::Array(xs), JsonV::Array(ys)) <==> forall|i: int| 0 <= i < ys.len()
            ==> exists|j: int| 0 <= j < xs.len() && crate::json::json_matches(#[trigger] xs[j], #[trigger] ys[i]),
        crate::json::json_matches(JsonV::Number(m), JsonV::Number(n)) <==> (m == n || ((m == "0.0"@ || m == "-0.0"@) && (
        n == "0.0"@ || n == "-0.0"@))),
{
    lemma_entries_match(a, e);
    lemma_items_all(xs, ys);
    assert forall|i: int| 0 <= i < ys.len() implies (crate::json::some_item_matches(xs, #[trigger] ys[i]) <==> exists|j: int|
        0 <= j < xs.len() && crate::json::json_matches(#[trigger] xs[j], ys[i])) by {
        lemma_some_item(xs, ys[i]);
    }
}

proof fn lemma_pairs_lookup_after_set_other(e: Seq<(Seq<char>, Seq<char>)>, k: Seq<char>, v: Seq<char>, o: Seq<char>)
    requires
        o != k,
    ensures
        crate::patterns::pairs_lookup(crate::patterns::pairs_set(e, k, v), o) == crate::patterns::pairs_lookup(e, o),
    decreases e.len(),
{
    let r = crate::patterns::pairs_set(e, k, v);
    if e.len() == 0 {
        assert(r == seq![(k, v)]);
        assert(r.drop_first() =~= Seq::<(Seq<char>, Seq<char>)>::empty());
        assert(crate::patterns::pairs_lookup(r, o) == crate::patterns::pairs_lookup(r.drop_first(), o));
    } else if e[0].0 == k {
        assert(r == e.update(0, (k, v)));
        assert(r.drop_first() =~= e.drop_first());
        assert(crate::patterns::pairs_lookup(r, o) == crate::patterns::pairs_lookup(r.drop_first(), o));
        assert(crate::patterns::pairs_lookup(e, o) == crate::patterns::pairs_lookup(e.drop_first(), o));
    } else {
        lemma_pairs_lookup_after_set_other(e.drop_first(), k, v, o);
        assert(r == seq![e[0]] + crate::patterns::pairs_set(e.drop_first(), k, v));
        assert(r.drop_first() =~= crate::patterns::pairs_set(e.drop_first(), k, v));
        assert(r[0] == e[0]);
    }
}

/// A word scan touches one key only: every other key of the bucket
/// looks up as before.
pub proof fn law_word_scan_keeps_other_keys(
    text: Seq<char>,
    anchors: Seq<Seq<char>>,
    bucket: Seq<(Seq<char>, Seq<char>)>,
    i: int,
    other: Seq<char>,
)
    requires
        0 <= i,
        i + 1 < crate::text::words(text).len(),
        anchors.contains(crate::text::words(text)[i]),
        forall|j: int| 0 <= j < i ==> !anchors.contains(#[trigger] crate::text::words(text)[j]),
        other != crate::textops::trim_quotes(crate::text::words(text)[i + 1]),
    ensures
        crate::patterns::pairs_lookup(crate::patterns::word_pair(text, anchors, bucket), other)
            == crate::patterns::pairs_lookup(bucket, other),
{
    let ws = crate::text::words(text);
    lemma_first_anchor(ws, anchors, i, 0);
    lemma_pairs_lookup_after_set_other(bucket, crate::textops::trim_quotes(ws[i + 1]), crate::textops::trim_quotes(ws.last()), other);
}

/// A spec matches a query only when, lower-cased, the query is in its
/// path, its `api:` path, method or collection, a feature's name, or a
/// scenario tag; and it does match when it is in any of them.
pub proof fn law_query_matches_only_where_the_query_occurs(r: crate::spec::SpecRecord, query: Seq<char>)
    ensures
        crate::commands::api::record_hit(r, query) <==> {
            let q = lowercase(query);
            ||| crate::text::contains(lowercase(r.path@), q)
            ||| (r.frontmatter matches Some(f) && f.api matches Some(a) && (crate::text::contains(lowercase(a.path@), q)
                || crate::text::contains(lowercase(a.method@), q) || (a.collection matches Some(col)
                && crate::text::contains(lowercase(col@), q))))
            ||| exists|i: int| 0 <= i < r.features@.len() && crate::text::contains(lowercase(#[trigger] r.features@[i].name@), q)
            ||| exists|i: int, j: int, t: int|
                0 <= i < r.features@.len() && 0 <= j < r.features@[i].scenarios@.len() && 0 <= t
                    < r.features@[i].scenarios@[j].tags@.len() && crate::text::contains(
                    lowercase(#[trigger] r.features@[i].scenarios@[j].tags@[t]@),
                    q,
                )
        },
{
    let q = lowercase(query);
    let fs = crate::spec::features_view(r.features@);
    if exists|i: int| 0 <= i < r.features@.len() && crate::commands::api::feature_hit(#[trigger] fs[i], q) {
        let i = choose|i: int| 0 <= i < r.features@.len() && crate::commands::api::feature_hit(#[trigger] fs[i], q);
        assert(fs[i] == r.features@[i]@);
        if !crate::text::contains(lowercase(fs[i].name), q) {
            let j = choose|j: int| 0 <= j < fs[i].scenarios.len() && crate::commands::api::tag_hit(#[trigger] fs[i].scenarios[j].tags, q);
            assert(fs[i].scenarios[j] == r.features@[i].scenarios@[j]@);
            let t = choose|t: int| 0 <= t < fs[i].scenarios[j].tags.len() && crate::text::contains(lowercase(#[trigger] fs[i].scenarios[j].tags[t]), q);
            assert(fs[i].scenarios[j].tags[t] == r.features@[i].scenarios@[j].tags@[t]@);
            assert(crate::text::contains(lowercase(r.features@[i].scenarios@[j].tags@[t]@), q));
        } else {
            assert(crate::text::contains(lowercase(r.features@[i].name@), q));
        }
    }
    if exists|i: int| 0 <= i < r.features@.len() && crate::text::contains(lowercase(#[trigger] r.features@[i].name@), q) {
        let i = choose|i: int| 0 <= i < r.features@.len() && crate::text::contains(lowercase(#[trigger] r.features@[i].name@), q);
        law_query_searches_paths_feature_names_and_tags(r, query, i, 0, 0);
    }
    if exists|i: int, j: int, t: int|
        0 <= i < r.features@.len() && 0 <= j < r.features@[i].scenarios@.len() && 0 <= t
            < r.features@[i].scenarios@[j].tags@.len() && crate::text::contains(
            lowercase(#[trigger] r.features@[i].scenarios@[j].tags@[t]@),
            q,
        ) {
        let (i, j, t) = choose|i: int, j: int, t: int|
            0 <= i < r.features@.len() && 0 <= j < r.features@[i].scenarios@.len() && 0 <= t
                < r.features@[i].scenarios@[j].tags@.len() && crate::text::contains(
                lowercase(#[trigger] r.features@[i].scenarios@[j].tags@[t]@),
                q,
            );
        law_query_searches_paths_feature_names_and_tags(r, query, i, j, t);
    }
}

} // verus!
