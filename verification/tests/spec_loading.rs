use serval_cli::frontmatter::split_block;
use serval_cli::spec::{parse_relaxed, sort_paths, split_features, strip_language_directives, SpecRecord};

#[test]
fn strips_language_directive_before_parsing() {
    let input = "\
# language: zh-TW
Feature: hello
  Scenario: ok
    Given x
";
    let result = parse_relaxed(input).expect("must parse");
    assert_eq!(result.len(), 1);
    assert_eq!(result[0].name, "hello");
}

#[test]
fn splits_multi_feature_input_into_separate_results() {
    let input = "\
Feature: A
  Scenario: a1
    Given x

Feature: B
  Scenario: b1
    Given y
";
    let result = parse_relaxed(input).expect("must parse");
    assert_eq!(result.len(), 2);
    assert_eq!(result[0].name, "A");
    assert_eq!(result[1].name, "B");
}

#[test]
fn skips_leading_comment_chunk_before_first_feature() {
    let input = "\
# auto-generated by codegen — do not edit
# another comment line

Feature: X
  Scenario: x1
    Given x
";
    let result = parse_relaxed(input).expect("must parse");
    assert_eq!(result.len(), 1);
    assert_eq!(result[0].name, "X");
}

#[test]
fn unique_tags_dedup_and_sort() {
    let content = "\
Feature: F
  @beta @alpha
  Scenario: one
    Given x
  @alpha
  Scenario: two
    Given x
";
    let features = parse_relaxed(content).expect("parse");
    let record = SpecRecord { path: "tagged.feature".to_string(), frontmatter: None, features };
    let tags = record.unique_tags();
    assert_eq!(tags, vec!["alpha", "beta"]);
    assert_eq!(record.scenario_count(), 2);
    assert!(record.api().is_none());
}

#[test]
fn language_directive_lines_are_dropped() {
    let out = strip_language_directives("  # language: en\nFeature: a\n# language: fr");
    assert_eq!(out, "Feature: a");
}

#[test]
fn feature_lines_start_new_chunks() {
    let chunks = split_features("# c\nFeature: A\n x\nFeature: B\n");
    assert_eq!(
        chunks,
        vec!["# c\n".to_string(), "Feature: A\n x\n".to_string(), "Feature: B\n".to_string()]
    );
}

#[test]
fn malformed_gherkin_is_a_spec_error() {
    let err = parse_relaxed("Feature: A\n  Examples:\n    | a |\n").err();
    if let Some(e) = err {
        assert_eq!(serval_cli::error::map_error_to_exit(&e), 3);
    }
}

#[test]
fn paths_sort_by_components() {
    let paths = vec![
        "specs/sub/b.feature".to_string(),
        "specs/a.feature".to_string(),
        "specs/a-b.feature".to_string(),
        "specs/a/z.feature".to_string(),
    ];
    let sorted = sort_paths(&paths);
    assert_eq!(
        sorted,
        vec![
            "specs/a/z.feature".to_string(),
            "specs/a-b.feature".to_string(),
            "specs/a.feature".to_string(),
            "specs/sub/b.feature".to_string(),
        ]
    );
}

#[test]
fn no_frontmatter_returns_none_and_passes_content_through() {
    let content = "Feature: hello\n  Scenario: ok\n";
    let (fm, body) = split_block(content).expect("should split");
    assert!(fm.is_none());
    assert_eq!(body, content);
}

#[test]
fn frontmatter_block_is_separated_from_the_body() {
    let content = "---\napi:\n  path: /api/foo\n  method: GET\n---\nFeature: hello\n";
    let (fm, body) = split_block(content).expect("should split");
    assert_eq!(fm.as_deref(), Some("api:\n  path: /api/foo\n  method: GET\n"));
    assert_eq!(body, "Feature: hello\n");
}

#[test]
fn unclosed_frontmatter_errors() {
    let content = "---\napi:\n  path: /x\n  method: GET\nFeature: hello\n";
    let err = split_block(content).unwrap_err();
    assert_eq!(err.to_text(), "spec error: frontmatter: opening `---` found but no closing `---`");
}

#[test]
fn empty_input_returns_none() {
    let (fm, body) = split_block("").expect("should split");
    assert!(fm.is_none());
    assert_eq!(body, "");
}

#[test]
fn byte_order_mark_and_crlf_fences_are_accepted() {
    let content = "\u{FEFF}---\r\nx: 1\r\n---\r\nFeature: a\n";
    let (fm, body) = split_block(content).expect("should split");
    assert_eq!(fm.as_deref(), Some("x: 1\r\n"));
    assert_eq!(body, "Feature: a\n");
}

const CODEGEN_EXPORT: &str = "\
# language: zh-TW
Feature: Sign-up
  @happy-path
  Rule: Registration succeeds
    @happy-path
    Scenario: New email registers
      Given an unused email
      When I sign up
      Then status should be 201

    @rate-limit
    Scenario: Rate limited after repeated attempts
      Given ten sign-ups from one address
      When I sign up
      Then status should be 429

  @validation
  Rule: Registration is validated
    Scenario: Duplicate email blocks sign-up
      Given an email already registered
      When I sign up
      Then status should be 409

Feature: Login
  Scenario: Valid credentials log in
    When I log in
    Then status should be 200

Feature: Logout
  Scenario: Session ends
    When I log out
    Then status should be 204
";

fn load_export() -> Vec<serval_cli::gherkin::ParsedFeature> {
    parse_relaxed(CODEGEN_EXPORT).expect("fixture must parse")
}

#[test]
fn multi_feature_input_yields_one_result_per_feature() {
    let features = load_export();
    assert_eq!(features.len(), 3, "expected 3 top-level Features");
    let names: Vec<&str> = features.iter().map(|f| f.name.as_str()).collect();
    assert_eq!(names, ["Sign-up", "Login", "Logout"]);
}

#[test]
fn scenario_counts_match_per_feature() {
    let features = load_export();
    let by_name = |n: &str| features.iter().find(|f| f.name == n).unwrap_or_else(|| panic!("feature {n:?} missing"));
    assert_eq!(by_name("Sign-up").scenarios.len(), 3);
    assert_eq!(by_name("Login").scenarios.len(), 1);
    assert_eq!(by_name("Logout").scenarios.len(), 1);
}

#[test]
fn rule_tags_propagate_dedup_and_do_not_leak_across_rules() {
    let features = load_export();
    let signup = features.iter().find(|f| f.name == "Sign-up").expect("Sign-up missing");
    let by_title = |t: &str| signup.scenarios.iter().find(|s| s.title == t).unwrap_or_else(|| panic!("scenario {t:?} missing"));
    let new_email = by_title("New email registers");
    assert_eq!(new_email.tags.iter().filter(|t| *t == "happy-path").count(), 1, "got tags = {:?}", new_email.tags);
    let rate_limited = by_title("Rate limited after repeated attempts");
    assert!(rate_limited.tags.iter().any(|t| t == "happy-path"));
    assert!(rate_limited.tags.iter().any(|t| t == "rate-limit"), "got tags = {:?}", rate_limited.tags);
    let duplicate = by_title("Duplicate email blocks sign-up");
    assert!(duplicate.tags.iter().any(|t| t == "validation"));
    assert!(!duplicate.tags.iter().any(|t| t == "happy-path"), "got tags = {:?}", duplicate.tags);
}

#[test]
fn byte_order_mark_without_frontmatter_passes_through_unchanged() {
    let content = "\u{FEFF}x";
    let (fm, body) = split_block(content).expect("no block is fine");
    assert!(fm.is_none());
    assert_eq!(body, content);
    let plain = "\u{FEFF}Feature: marked\n  Scenario: s\n    Given x\n";
    let (fm, body) = split_block(plain).unwrap();
    assert!(fm.is_none());
    assert_eq!(body, plain);
    let features = parse_relaxed(&body).expect("a leading mark does not stop parsing");
    assert_eq!(features[0].name, "marked");
}

#[test]
fn feature_files_are_recognised_by_extension() {
    let f = serval_cli::spec::is_feature_file;
    assert!(f("health.feature"));
    assert!(f("..feature"));
    assert!(!f(".feature"));
    assert!(!f("health.feature.bak"));
    assert!(!f("notes.txt"));
    assert!(!f("feature"));
}
