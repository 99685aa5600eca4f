use serval_cli::commands::api::{detail_for, list_table, listed, listing_for, matches_query, show_selection, show_table};
use serval_cli::commands::run::{exit_code, resolve_api_spec, results_table};
use serval_cli::commands::spec::{collect_targets, read_failed, validate_body, validate_exit, validation_table, PathKind, Status};
use serval_cli::error::{map_error_to_exit, Error};
use serval_cli::frontmatter::{ApiFrontmatter, Frontmatter};
use serval_cli::runner::TestResult;
use serval_cli::spec::{parse_relaxed, SpecRecord};

fn record(path: &str, api: Option<(&str, &str, Option<&str>)>, gherkin: &str) -> SpecRecord {
    let frontmatter = api.map(|(p, m, c)| Frontmatter {
        api: Some(ApiFrontmatter { path: p.to_string(), method: m.to_string(), collection: c.map(|x| x.to_string()) }),
        implements: Some(vec!["src/handlers/order.rs::create_order".to_string()]),
    });
    SpecRecord { path: path.to_string(), frontmatter, features: parse_relaxed(gherkin).unwrap() }
}

fn specs() -> Vec<SpecRecord> {
    vec![
        record("specs/orders.feature", Some(("/api/orders", "POST", Some("orders"))), "Feature: Orders\n  @smoke @Billing\n  Scenario: create\n    Given x\n"),
        record("specs/users.feature", Some(("/api/users", "GET", None)), "Feature: Users\n  Scenario: list\n    Given x\n"),
        record("specs/plain.feature", None, "Feature: Plain\n  Scenario: p\n    Given x\n"),
    ]
}

#[test]
fn find_filters_by_method_case_insensitive() {
    let rs = specs();
    assert_eq!(listed(&rs, Some("post")), vec![0]);
    assert_eq!(listed(&rs, None), vec![0, 1]);
}

#[test]
fn find_filters_by_tag() {
    let rs = specs();
    assert!(matches_query(&rs[0], "billing"));
    assert!(!matches_query(&rs[1], "billing"));
    assert!(matches_query(&rs[2], "PLAIN"));
    assert_eq!(listed(&rs, Some("plain")), Vec::<usize>::new());
}

#[test]
fn list_shows_only_frontmatter_specs_with_scanned_count() {
    let rs = specs();
    let pick = listed(&rs, None);
    let lines = list_table(rs.len(), &rs, &pick);
    assert_eq!(lines[0], "  METHOD    PATH                              COLLECTION      SOURCE");
    assert_eq!(lines[1], "  POST      /api/orders                       orders          specs/orders.feature");
    assert_eq!(lines[2], "  GET       /api/users                        -               specs/users.feature");
    assert_eq!(lines[4], "  2 APIs (3 spec file(s) scanned; 1 without API frontmatter omitted).");
}

#[test]
fn list_empty_dir_message() {
    let rs: Vec<SpecRecord> = vec![];
    assert_eq!(list_table(0, &rs, &vec![]), vec!["  no `.feature` files found".to_string()]);
    let plain = vec![record("a.feature", None, "Feature: A\n  Scenario: a\n    Given x\n")];
    assert_eq!(
        list_table(1, &plain, &vec![]),
        vec!["  no APIs found (1 spec file(s) scanned, none with API frontmatter)".to_string()]
    );
}

#[test]
fn listing_and_detail_views() {
    let rs = specs();
    let l = listing_for(&rs[0]);
    assert_eq!(l.method, "POST");
    assert_eq!(l.scenario_count, 1);
    assert_eq!(l.tags, vec!["Billing".to_string(), "smoke".to_string()]);
    let d = detail_for(&rs[0]);
    assert_eq!(d.features[0].scenarios[0].title, "create");
    assert_eq!(d.implements.unwrap().len(), 1);
    assert!(detail_for(&rs[2]).api.is_none());
}

#[test]
fn show_exact_unique_match_renders_detail() {
    let rs = specs();
    let i = show_selection(&rs, "orders").unwrap();
    assert_eq!(i, 0);
    assert_eq!(
        show_table(&rs[i]),
        vec![
            "  source: specs/orders.feature".to_string(),
            "  api:".to_string(),
            "    path:       /api/orders".to_string(),
            "    method:     POST".to_string(),
            "    collection: orders".to_string(),
            "  implements:".to_string(),
            "    - src/handlers/order.rs::create_order".to_string(),
            "".to_string(),
            "  features (1):".to_string(),
            "    Orders".to_string(),
            "      scenarios (1):".to_string(),
            "        [smoke,Billing] create".to_string(),
        ]
    );
}

#[test]
fn show_ambiguous_and_missing_matches() {
    let rs = specs();
    let lines = show_selection(&rs, "api").unwrap_err();
    assert_eq!(
        lines,
        vec![
            "error: 2 specs match \"api\"".to_string(),
            "candidates:".to_string(),
            "  specs/orders.feature".to_string(),
            "  specs/users.feature".to_string(),
        ]
    );
    assert_eq!(show_selection(&rs, "zzz").unwrap_err(), vec!["error: no spec matches \"zzz\"".to_string()]);
}

#[test]
fn run_target_comes_from_flags_or_frontmatter() {
    let api = ApiFrontmatter { path: "/fm".to_string(), method: "GET".to_string(), collection: None };
    let a = resolve_api_spec(Some(&api), &Some("/flag".to_string()), &None).unwrap();
    assert_eq!(a.endpoint, "/flag");
    assert_eq!(a.http_method, "GET");
    let err = resolve_api_spec(None, &None, &Some("GET".to_string())).unwrap_err();
    assert_eq!(map_error_to_exit(&err), 3);
    assert_eq!(err.to_text(), "spec error: missing `--endpoint`: no `api.path` in frontmatter and no flag provided");
    let err = resolve_api_spec(None, &Some("/x".to_string()), &None).unwrap_err();
    assert!(err.to_text().contains("missing `--method`"));
}

fn result(title: &str, pass: bool, err: Option<&str>) -> TestResult {
    TestResult {
        scenario_title: title.to_string(),
        example_index: 0,
        pass,
        error_message: err.map(|e| e.to_string()),
        response_status: 200,
        response_data: None,
        request_duration_ms: 12,
        request_time_ns: 0,
    }
}

#[test]
fn run_table_and_exit_codes() {
    let results = vec![result("a", true, None), result("b", false, Some("Expected status 201, got 200"))];
    assert_eq!(
        results_table(&results),
        vec![
            "  [PASS] a (status 200, 12ms)".to_string(),
            "  [FAIL] b (status 200, 12ms)".to_string(),
            "         Expected status 201, got 200".to_string(),
            "".to_string(),
            "  1 passed, 1 failed, 2 total".to_string(),
        ]
    );
    assert_eq!(exit_code(&results), 1);
    assert_eq!(exit_code(&vec![result("a", true, None)]), 0);
}

#[test]
fn validate_directory_with_any_invalid_exits_3() {
    let good = validate_body("specs/good.feature", Ok("Feature: G\n  Scenario: s\n    Given x\n".to_string()));
    assert_eq!(good.status, Status::Valid);
    assert_eq!(good.features, Some(1));
    assert_eq!(good.scenarios, Some(1));
    let broken = validate_body("specs/fm.feature", Err(Error::Spec("frontmatter: opening `---` found but no closing `---`".to_string())));
    assert_eq!(broken.status, Status::Invalid);
    let unreadable = read_failed("specs/x.feature", "permission denied");
    assert_eq!(unreadable.error.as_deref(), Some("read error: permission denied"));
    let results = vec![good, broken];
    assert_eq!(validate_exit(&results), 3);
    let lines = validation_table(&results);
    assert_eq!(lines[0], "  STATUS  FEATURES  SCENARIOS   PATH");
    assert_eq!(lines[1], "  OK      1         1           specs/good.feature");
    assert_eq!(lines[2], "  ERR     -         -           specs/fm.feature");
    assert_eq!(lines[3], "          spec error: frontmatter: opening `---` found but no closing `---`");
    assert_eq!(lines[5], "  2 file(s) scanned: 1 valid, 1 invalid.");
}

#[test]
fn validate_empty_directory_reports_zero_files() {
    assert_eq!(validation_table(&vec![]), vec!["  no `.feature` files found".to_string()]);
    assert_eq!(validate_exit(&vec![]), 0);
}

#[test]
fn validate_missing_path_exits_3() {
    let err = collect_targets(PathKind::Missing, "nope", vec![]).unwrap_err();
    assert_eq!(err.to_text(), "spec error: path does not exist: nope");
    assert_eq!(collect_targets(PathKind::File, "a.feature", vec![]).unwrap(), vec!["a.feature".to_string()]);
}

fn populated() -> Vec<SpecRecord> {
    vec![
        record("users/create.feature", Some(("/api/users", "POST", Some("users"))), "Feature: Users — create\n  @happy-path\n  Scenario: signup OK\n    When I POST /api/users\n    Then status should be 201\n"),
        record("users/list.feature", Some(("/api/users", "GET", Some("users"))), "Feature: Users — list\n  Scenario: list users\n    When I GET /api/users\n    Then status should be 200\n"),
        record("orders/update.feature", Some(("/api/orders/:id", "PUT", Some("orders"))), "Feature: Orders — update\n  @editing\n  Scenario: rename order\n    When I PUT /api/orders/1\n    Then status should be 200\n"),
        record("misc/plain.feature", None, "Feature: Plain\n  Scenario: no api block\n    Given x\n"),
    ]
}

#[test]
fn show_ambiguous_match_exits_3_with_candidates() {
    let rs = populated();
    let err = show_selection(&rs, "users").unwrap_err().join("\n");
    assert!(err.contains("specs match"));
    assert!(err.contains("candidates:"));
    assert!(err.contains("users/create.feature"));
    assert!(err.contains("users/list.feature"));
}

#[test]
fn show_no_match_exits_3() {
    let rs = populated();
    let err = show_selection(&rs, "zzz-not-here").unwrap_err().join("\n");
    assert!(err.contains("no spec matches"));
}

const VALID: &str = "Feature: Valid\n  Scenario: x\n    Given y\n";
const VALID_WITH_FM: &str = "---\napi:\n  path: /api/users\n  method: GET\n---\nFeature: Valid with FM\n  Scenario: list\n    When I GET /api/users\n    Then status should be 200\n";
const BROKEN_GHERKIN: &str = "Feature: Broken\n  Scenario: x\n    Given y\n      \"\"\"\n      unclosed docstring\n";

/// The body `spec validate` checks: the text after the frontmatter
/// block, or the splitting error.
fn body_of(content: &str) -> Result<String, Error> {
    serval_cli::frontmatter::split_block(content).map(|(_, body)| body)
}

#[test]
fn validate_directory_with_all_valid_files_exits_0() {
    let results = vec![validate_body("ok1.feature", body_of(VALID)), validate_body("ok2.feature", body_of(VALID_WITH_FM))];
    assert_eq!(validate_exit(&results), 0);
    assert!(validation_table(&results).join("\n").contains("2 file(s) scanned: 2 valid, 0 invalid"));
}

#[test]
fn validate_single_file_valid_exits_0() {
    let results = vec![validate_body("ok.feature", body_of(VALID))];
    assert_eq!(validate_exit(&results), 0);
    let out = validation_table(&results).join("\n");
    assert!(out.contains("OK"));
    assert!(out.contains("1 file(s) scanned: 1 valid"));
}

#[test]
fn validate_single_file_broken_exits_3_with_message() {
    let results = vec![validate_body("broken.feature", body_of(BROKEN_GHERKIN))];
    assert_eq!(validate_exit(&results), 3);
    let out = validation_table(&results).join("\n");
    assert!(out.contains("ERR"));
    assert!(out.contains("Gherkin parse error"), "{out}");
}

#[test]
fn validate_unclosed_frontmatter_exits_3() {
    let unclosed = "---\napi: this is not a valid yaml block\n  path: /x\nFeature: F\n  Scenario: x\n    Given y\n";
    let results = vec![validate_body("fm_broken.feature", body_of(unclosed))];
    assert_eq!(validate_exit(&results), 3);
    assert!(validation_table(&results).join("\n").contains("ERR"));
}

#[test]
fn empty_query_matches_every_spec() {
    let rs = specs();
    for r in &rs {
        assert!(matches_query(r, ""));
    }
    assert_eq!(listed(&rs, Some("")), vec![0, 1]);
}
