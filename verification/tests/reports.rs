use serval_cli::report::{resolve_lookup, Lookup};
use serval_cli::commands::diff::{compute_diff, diff_table, ScenarioChange};
use serval_cli::commands::history::{history_table, newest};
use serval_cli::report::{
    filename, newest_first, report_id, resolve_position, resolve_prefix, take_position,
    ReportRecord, RunReport, RunSummary, TargetRef, SCHEMA_VERSION,
};
use serval_cli::runner::TestResult;

fn mk_result(title: &str, index: i32, pass: bool, status: i16) -> TestResult {
    TestResult {
        scenario_title: title.to_string(),
        example_index: index,
        pass,
        error_message: None,
        response_status: status,
        response_data: None,
        request_duration_ms: 1,
        request_time_ns: 0,
    }
}

fn mk_report(seconds: i128, results: Vec<TestResult>) -> RunReport {
    let summary = RunSummary::from_results(&results);
    RunReport {
        schema_version: SCHEMA_VERSION,
        started_at_ns: seconds * 1_000_000_000,
        finished_at_ns: seconds * 1_000_000_000,
        source_file: "/x.feature".to_string(),
        target: TargetRef { base_url: "http://localhost".to_string(), endpoint: "/".to_string(), method: "GET".to_string() },
        summary,
        results,
    }
}

fn record(id: &str, seconds: i128, results: Vec<TestResult>) -> ReportRecord {
    ReportRecord { id: id.to_string(), report: mk_report(seconds, results) }
}

#[test]
fn filename_is_filesystem_safe_and_ends_with_json() {
    let name = filename(1_747_010_192 * 1_000_000_000);
    assert!(!name.contains(':'), "no colon allowed in filename: {name}");
    assert!(name.ends_with(".json"));
    assert_eq!(name, "2025-05-12T00-36-32Z.json");
}

#[test]
fn summary_counts_pass_and_fail() {
    let results = vec![mk_result("x", 0, true, 200), mk_result("x", 0, true, 200), mk_result("x", 0, false, 200)];
    let s = RunSummary::from_results(&results);
    assert_eq!(s.total, 3);
    assert_eq!(s.passed, 2);
    assert_eq!(s.failed, 1);
}

#[test]
fn list_sorts_by_started_at_descending() {
    let stamps = vec![1_000_000_000_i128, 2_000_000_000, 1_500_000_000];
    let order = newest_first(&stamps);
    assert_eq!(order, vec![1, 2, 0]);
    let ties = newest_first(&vec![5, 5, 7]);
    assert_eq!(ties, vec![2, 0, 1]);
}

#[test]
fn resolve_exact_id() {
    let names = vec!["abc123.json".to_string()];
    let i = resolve_prefix(&names, "abc123").expect("resolve");
    assert_eq!(report_id(&names[i]).unwrap(), "abc123");
}

#[test]
fn resolve_unique_prefix() {
    let names = vec!["2026-05-12T03-30.json".to_string(), "2026-05-13T11-22.json".to_string()];
    let i = resolve_prefix(&names, "2026-05-12").expect("unique prefix");
    assert_eq!(report_id(&names[i]).unwrap(), "2026-05-12T03-30");
}

#[test]
fn resolve_ambiguous_prefix_errors() {
    let names = vec!["2026-05-12T03-30.json".to_string(), "2026-05-12T11-22.json".to_string()];
    let err = resolve_prefix(&names, "2026-05-12").unwrap_err();
    let msg = err.to_text();
    assert!(msg.contains("ambiguous"), "got {msg}");
    assert_eq!(msg, "spec error: ambiguous id \"2026-05-12\" matches 2 reports");
}

#[test]
fn resolve_latest_and_previous_keywords() {
    assert_eq!(resolve_position("latest"), Some(0));
    assert_eq!(resolve_position("previous"), Some(1));
    assert_eq!(resolve_position("older"), None);
    let records = vec![record("newer", 2_000_000_000, vec![]), record("older", 1_000_000_000, vec![])];
    let latest = take_position(records, "latest", 0).expect("latest");
    assert_eq!(latest.id, "newer");
    let records = vec![record("newer", 2_000_000_000, vec![]), record("older", 1_000_000_000, vec![])];
    let previous = take_position(records, "previous", 1).expect("previous");
    assert_eq!(previous.id, "older");
    let err = take_position(vec![], "previous", 1).unwrap_err();
    assert_eq!(err.to_text(), "spec error: no report at position previous (have 0 report(s))");
}

#[test]
fn resolve_no_match_errors() {
    let names = vec!["abc.json".to_string(), "readme.txt".to_string()];
    let err = resolve_prefix(&names, "zzz").unwrap_err();
    assert!(err.to_text().contains("no report matches"));
    assert!(resolve_prefix(&names, "readme").is_err());
}

#[test]
fn report_ids_come_from_json_file_names() {
    assert_eq!(report_id("good.json").as_deref(), Some("good"));
    assert_eq!(report_id("readme.txt"), None);
    assert_eq!(report_id(".json"), None);
}

#[test]
fn diff_detects_flips_additions_and_removals() {
    let before = record("b", 1, vec![mk_result("stays", 0, true, 200), mk_result("flips", 0, true, 200), mk_result("gone", 0, false, 500)]);
    let after = record("a", 2, vec![mk_result("flips", 0, false, 500), mk_result("stays", 0, true, 200), mk_result("new", 1, true, 201)]);
    let d = compute_diff(&before, &after);
    assert_eq!(d.scenarios.len(), 3);
    assert!(matches!(&d.scenarios[0], ScenarioChange::Flipped { title, was_pass: true, now_pass: false, status_before: 200, status_after: 500, .. } if title == "flips"));
    assert!(matches!(&d.scenarios[1], ScenarioChange::Removed { title, pass: false, .. } if title == "gone"));
    assert!(matches!(&d.scenarios[2], ScenarioChange::Added { title, example_index: 1, pass: true } if title == "new"));
    assert!(!d.source_changed);
    assert!(!d.target_changed);
    assert_eq!(
        diff_table(&d),
        vec![
            "  comparing b -> a".to_string(),
            "".to_string(),
            "  CHANGES".to_string(),
            "    [PASS -> FAIL] flips  (200 -> 500)".to_string(),
            "    [-] gone  (was FAIL)".to_string(),
            "    [+] new  (PASS)".to_string(),
            "".to_string(),
            "  SUMMARY".to_string(),
            "    before: 2 passed, 1 failed (3 total)".to_string(),
            "    after:  2 passed, 1 failed (3 total)".to_string(),
        ]
    );
}

#[test]
fn diff_with_itself_reports_no_changes() {
    let r = record("same", 1, vec![mk_result("x", 0, true, 200), mk_result("x", 0, false, 500)]);
    let d = compute_diff(&r, &r);
    assert!(d.scenarios.is_empty());
    assert_eq!(diff_table(&d)[2], "  CHANGES: none");
}

#[test]
fn history_table_rows() {
    let records = vec![record("2026-05-12T03-30-00Z", 1_747_010_192, vec![mk_result("x", 0, false, 500)])];
    let lines = history_table(&records);
    assert_eq!(lines[0], "  ID                                STARTED              SUMMARY     SOURCE");
    assert_eq!(lines[1], "  2026-05-12T03-30-00Z              2025-05-12 00:36:32  0/1 (FAIL)  x.feature");
    assert_eq!(history_table(&vec![]), vec!["  no reports found".to_string()]);
    let kept = newest(vec![record("a", 3, vec![]), record("b", 2, vec![]), record("c", 1, vec![])], 2);
    assert_eq!(kept.len(), 2);
    assert_eq!(kept[1].id, "b");
}

fn mk_test_result(title: &str, pass: bool, status: i16, example_index: i32) -> TestResult {
    TestResult {
        scenario_title: title.to_string(),
        example_index,
        pass,
        error_message: if pass { None } else { Some("synthetic failure".to_string()) },
        response_status: status,
        response_data: None,
        request_duration_ms: 1,
        request_time_ns: 0,
    }
}

fn mk_synthetic_report(unix_seconds: i128, results: Vec<TestResult>) -> RunReport {
    let t = unix_seconds * 1_000_000_000;
    RunReport {
        schema_version: SCHEMA_VERSION,
        started_at_ns: t,
        finished_at_ns: t,
        source_file: "/synthetic.feature".to_string(),
        target: TargetRef {
            base_url: "http://localhost".to_string(),
            endpoint: "/api/test".to_string(),
            method: "GET".to_string(),
        },
        summary: RunSummary::from_results(&results),
        results,
    }
}

fn stored(id: &str, report: RunReport) -> ReportRecord {
    ReportRecord { id: id.to_string(), report }
}

/// Records ordered newest first, as the report directory lists them.
fn listed_newest_first(records: Vec<ReportRecord>) -> Vec<ReportRecord> {
    let stamps: Vec<i128> = records.iter().map(|r| r.report.started_at_ns).collect();
    let order = newest_first(&stamps);
    let mut slots: Vec<Option<ReportRecord>> = records.into_iter().map(Some).collect();
    order.into_iter().map(|i| slots[i].take().expect("each index once")).collect()
}

#[test]
fn diff_detects_pass_to_fail_flip() {
    let before = stored("before", mk_synthetic_report(1_000_000_000, vec![mk_test_result("login", true, 200, 0)]));
    let after = stored("after", mk_synthetic_report(2_000_000_000, vec![mk_test_result("login", false, 500, 0)]));
    let out = diff_table(&compute_diff(&before, &after)).join("\n");
    assert!(out.contains("PASS -> FAIL"));
    assert!(out.contains("login"));
    assert!(out.contains("200 -> 500"));
}

#[test]
fn diff_detects_added_scenario() {
    let before = stored("before", mk_synthetic_report(1_000_000_000, vec![mk_test_result("a", true, 200, 0)]));
    let after = stored(
        "after",
        mk_synthetic_report(2_000_000_000, vec![mk_test_result("a", true, 200, 0), mk_test_result("brand_new", true, 200, 0)]),
    );
    let out = diff_table(&compute_diff(&before, &after)).join("\n");
    assert!(out.contains("[+]"));
    assert!(out.contains("brand_new"));
}

#[test]
fn diff_detects_removed_scenario() {
    let before = stored(
        "before",
        mk_synthetic_report(1_000_000_000, vec![mk_test_result("a", true, 200, 0), mk_test_result("gone", true, 200, 0)]),
    );
    let after = stored("after", mk_synthetic_report(2_000_000_000, vec![mk_test_result("a", true, 200, 0)]));
    let out = diff_table(&compute_diff(&before, &after)).join("\n");
    assert!(out.contains("[-]"));
    assert!(out.contains("gone"));
}

#[test]
fn diff_resolves_latest_and_previous_keywords() {
    let dir = || {
        listed_newest_first(vec![
            stored("first", mk_synthetic_report(1_000_000_000, vec![mk_test_result("login", true, 200, 0)])),
            stored("second", mk_synthetic_report(2_000_000_000, vec![mk_test_result("login", false, 500, 0)])),
        ])
    };
    let before = take_position(dir(), "previous", resolve_position("previous").unwrap()).unwrap();
    let after = take_position(dir(), "latest", resolve_position("latest").unwrap()).unwrap();
    let out = diff_table(&compute_diff(&before, &after)).join("\n");
    assert!(out.contains("first"));
    assert!(out.contains("second"));
}

#[test]
fn diff_resolves_unique_prefix() {
    let names = vec!["aaa-older.json".to_string(), "bbb-newer.json".to_string()];
    let a = resolve_prefix(&names, "aaa").expect("aaa resolves");
    let b = resolve_prefix(&names, "bbb").expect("bbb resolves");
    assert_eq!(report_id(&names[a]).unwrap(), "aaa-older");
    assert_eq!(report_id(&names[b]).unwrap(), "bbb-newer");
}

#[test]
fn diff_errors_with_exit_3_on_ambiguous_prefix() {
    let names = vec!["2026-05-12T03-30.json".to_string(), "2026-05-12T11-22.json".to_string()];
    let err = resolve_prefix(&names, "2026-05-12").unwrap_err();
    assert_eq!(serval_cli::error::map_error_to_exit(&err), 3);
    assert!(err.to_text().contains("ambiguous"));
}

#[test]
fn history_lists_reports_newest_first() {
    let records = listed_newest_first(vec![
        stored("older", mk_synthetic_report(1_000_000_000, vec![mk_test_result("a", true, 200, 0)])),
        stored("newer", mk_synthetic_report(2_000_000_000, vec![mk_test_result("b", true, 200, 0)])),
    ]);
    let out = history_table(&records).join("\n");
    let (n, o) = (out.find("newer"), out.find("older"));
    assert!(matches!((n, o), (Some(n), Some(o)) if n < o), "got {out}");
}

#[test]
fn history_respects_limit() {
    let mut records = Vec::new();
    for i in 0..3 {
        records.push(stored(&format!("r{i}"), mk_synthetic_report(1_000_000_000 + i128::from(i), vec![])));
    }
    let kept = newest(listed_newest_first(records), 2);
    let out = history_table(&kept).join("\n");
    assert!(out.contains("r2") && out.contains("r1") && !out.contains("r0"), "got {out}");
}

#[test]
fn history_empty_dir_says_no_reports_found() {
    assert!(history_table(&vec![]).join("\n").contains("no reports found"));
}

#[test]
fn report_filename_is_filesystem_safe() {
    let name = filename(1_747_010_192_123_000_000);
    assert!(!name.contains(':'), "filename must be filesystem-safe (no colons); got {name}");
    assert!(name.ends_with(".json"), "filename should end with .json; got {name}");
}

#[test]
fn diff_swapped_turns_additions_into_removals_and_flips_around() {
    let a = stored("a", mk_synthetic_report(1, vec![mk_test_result("x", true, 200, 0), mk_test_result("gone", true, 200, 0)]));
    let b = stored("b", mk_synthetic_report(2, vec![mk_test_result("x", false, 500, 0), mk_test_result("new", true, 201, 0)]));
    let ab = compute_diff(&a, &b);
    let ba = compute_diff(&b, &a);
    assert!(matches!(&ab.scenarios[0], ScenarioChange::Flipped { title, was_pass: true, now_pass: false, status_before: 200, status_after: 500, .. } if title == "x"));
    assert!(matches!(&ba.scenarios[0], ScenarioChange::Flipped { title, was_pass: false, now_pass: true, status_before: 500, status_after: 200, .. } if title == "x"));
    assert!(ab.scenarios.iter().any(|c| matches!(c, ScenarioChange::Added { title, .. } if title == "new")));
    assert!(ba.scenarios.iter().any(|c| matches!(c, ScenarioChange::Removed { title, .. } if title == "new")));
    assert!(ab.scenarios.iter().any(|c| matches!(c, ScenarioChange::Removed { title, .. } if title == "gone")));
    assert!(ba.scenarios.iter().any(|c| matches!(c, ScenarioChange::Added { title, .. } if title == "gone")));
    assert_eq!(ab.source_changed, ba.source_changed);
    assert_eq!(ab.target_changed, ba.target_changed);
}

#[test]
fn lookup_prefers_keywords_then_exact_files() {
    assert_eq!(resolve_lookup("latest", false, false, "d").unwrap(), Lookup::Position(0));
    assert_eq!(resolve_lookup("previous", true, true, "d").unwrap(), Lookup::Position(1));
    assert_eq!(resolve_lookup("abc", true, true, "d").unwrap(), Lookup::Exact);
    assert_eq!(resolve_lookup("abc", false, true, "d").unwrap(), Lookup::Prefix);
    let err = resolve_lookup("abc", false, false, ".serval/reports").unwrap_err();
    assert_eq!(err.to_text(), "spec error: no reports directory at .serval/reports");
}
