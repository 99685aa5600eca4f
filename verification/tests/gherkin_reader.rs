use serval_cli::gherkin::GherkinService;
use serval_cli::json::Json;

fn num(j: &Json) -> Option<&str> {
    match j {
        Json::Number(n) => Some(n.as_str()),
        _ => None,
    }
}

fn field<'a>(j: &'a Json, key: &str) -> Option<&'a Json> {
    match j {
        Json::Object(entries) => entries.iter().find(|(k, _)| k == key).map(|(_, v)| v),
        _ => None,
    }
}

#[test]
fn reads_feature_name_tags_and_plain_scenario() {
    let input = "\
@smoke @api
Feature: Health
  Scenario: up
    Given the service is running
    Then status should be 200
";
    let f = GherkinService::parse(input).expect("must parse");
    assert_eq!(f.name, "Health");
    assert_eq!(f.tags, vec!["smoke".to_string(), "api".to_string()]);
    assert_eq!(f.scenarios.len(), 1);
    let sc = &f.scenarios[0];
    assert_eq!(sc.title, "up");
    assert_eq!(sc.steps.len(), 2);
    assert_eq!(sc.steps[0].keyword_type, "Context");
    assert_eq!(sc.steps[0].text, "the service is running");
    assert_eq!(sc.steps[1].keyword_type, "Outcome");
    assert!(sc.examples.is_empty());
}

#[test]
fn and_but_repeat_the_previous_step_type() {
    let input = "\
Feature: F
  Scenario: s
    When I call it
    And I call it again
    Then it works
    But nothing breaks
";
    let f = GherkinService::parse(input).expect("must parse");
    let kinds: Vec<&str> = f.scenarios[0].steps.iter().map(|s| s.keyword_type.as_str()).collect();
    assert_eq!(kinds, vec!["Action", "Action", "Outcome", "Outcome"]);
}

#[test]
fn background_steps_come_first_in_every_scenario() {
    let input = "\
Feature: F
  Background:
    Given a clean database
  Scenario: one
    When I add a row
  Scenario: two
    When I delete a row
";
    let f = GherkinService::parse(input).expect("must parse");
    assert_eq!(f.scenarios.len(), 2);
    for sc in &f.scenarios {
        assert_eq!(sc.steps.len(), 2);
        assert_eq!(sc.steps[0].text, "a clean database");
    }
    assert_eq!(f.scenarios[1].steps[1].text, "I delete a row");
}

#[test]
fn rule_tags_propagate_to_inner_scenarios_without_duplicates() {
    let input = "\
Feature: Ruled
  @billing
  Rule: invoices
    @billing @slow
    Scenario: inside
      Given x
";
    let f = GherkinService::parse(input).expect("must parse");
    assert_eq!(f.scenarios.len(), 1);
    let tags = &f.scenarios[0].tags;
    assert_eq!(tags.iter().filter(|t| t.as_str() == "billing").count(), 1);
    assert!(tags.iter().any(|t| t == "slow"));
}

#[test]
fn doc_string_attaches_to_the_last_step() {
    let input = "\
Feature: F
  Scenario: s
    When I post
      \"\"\"
      {\"a\": 1}
      \"\"\"
";
    let f = GherkinService::parse(input).expect("must parse");
    let step = &f.scenarios[0].steps[0];
    assert_eq!(step.doc_string.as_deref(), Some("{\"a\": 1}"));
}

#[test]
fn data_table_rows_keep_trimmed_cells() {
    let input = "\
Feature: F
  Scenario: s
    Given these users
      | name  | age |
      | alice | 30  |
";
    let f = GherkinService::parse(input).expect("must parse");
    let table = f.scenarios[0].steps[0].data_table.as_ref().expect("table");
    assert_eq!(table.len(), 2);
    assert_eq!(table[0], vec!["name".to_string(), "age".to_string()]);
    assert_eq!(table[1], vec!["alice".to_string(), "30".to_string()]);
}

#[test]
fn example_cells_infer_booleans_integers_and_text() {
    let input = "\
Feature: F
  Scenario Outline: s
    When I send <name>
    Examples:
      | name | active | count | expected_status_code |
      | bob  | true   | 007   | 201                  |
";
    let f = GherkinService::parse(input).expect("must parse");
    let ex = &f.scenarios[0].examples;
    assert_eq!(ex.len(), 1);
    let data = &ex[0].data;
    assert!(matches!(field(data, "name"), Some(Json::Str(s)) if s == "bob"));
    assert!(matches!(field(data, "active"), Some(Json::Bool(true))));
    assert!(matches!(field(data, "count"), Some(Json::Str(s)) if s == "007"));
    assert_eq!(field(data, "expected_status_code").and_then(num), Some("201"));
    assert_eq!(ex[0].expected_status_code, Some(201));
}

#[test]
fn input_without_feature_is_a_spec_error() {
    let err = GherkinService::parse("Scenario: orphan\n  Given x\n").unwrap_err();
    assert!(err.to_text().starts_with("spec error: "));
}

#[test]
fn empty_input_has_no_feature() {
    let err = GherkinService::parse("# only a comment\n").unwrap_err();
    assert_eq!(err.to_text(), "spec error: Gherkin parse error: no Feature found");
}

#[test]
fn unclosed_doc_string_is_reported() {
    let input = "\
Feature: F
  Scenario: s
    When I post
      \"\"\"
      {}
";
    let err = GherkinService::parse(input).unwrap_err();
    assert_eq!(err.to_text(), "spec error: Gherkin parse error: unclosed doc string");
}

const RULES_BASIC: &str = "\
Feature: Account session
  @authentication
  Rule: Login
    Scenario: User logs in with valid credentials
      Given a registered user
      When they log in
      Then status should be 200

    @rate-limit
    Scenario: Rate limited after repeated failures
      Given five failed attempts
      When they log in
      Then status should be 429

  @management
  Rule: Logout
    Scenario: User logs out
      Given a logged-in user
      When they log out
      Then status should be 204
";

fn load_rules() -> serval_cli::gherkin::ParsedFeature {
    GherkinService::parse(RULES_BASIC).expect("fixture must parse")
}

#[test]
fn scenarios_inside_rules_are_collected() {
    let feature = load_rules();
    assert_eq!(feature.scenarios.len(), 3, "expected 3 scenarios (2 in Login rule, 1 in Logout rule)");
    let titles: Vec<&str> = feature.scenarios.iter().map(|s| s.title.as_str()).collect();
    assert!(titles.contains(&"User logs in with valid credentials"));
    assert!(titles.contains(&"Rate limited after repeated failures"));
    assert!(titles.contains(&"User logs out"));
}

#[test]
fn rule_tags_propagate_onto_inner_scenarios() {
    let feature = load_rules();
    let by_title = |t: &str| {
        feature
            .scenarios
            .iter()
            .find(|s| s.title == t)
            .unwrap_or_else(|| panic!("scenario {t:?} missing"))
    };
    let login_ok = by_title("User logs in with valid credentials");
    assert!(login_ok.tags.iter().any(|t| t == "authentication"), "got tags = {:?}", login_ok.tags);
    let rate_limited = by_title("Rate limited after repeated failures");
    assert!(rate_limited.tags.iter().any(|t| t == "authentication"));
    assert!(rate_limited.tags.iter().any(|t| t == "rate-limit"), "got tags = {:?}", rate_limited.tags);
    let logout = by_title("User logs out");
    assert!(logout.tags.iter().any(|t| t == "management"), "got tags = {:?}", logout.tags);
    assert!(!logout.tags.iter().any(|t| t == "authentication"), "got tags = {:?}", logout.tags);
}

#[test]
fn free_text_after_headers_becomes_descriptions() {
    let input = "\
Feature: Accounts
  Users sign up
    and sign in.

  Rule: r
    rule text is skipped
  Scenario: signup
    A new user registers.
    Given an email
";
    let f = GherkinService::parse(input).expect("must parse");
    assert_eq!(f.description.as_deref(), Some("Users sign up\nand sign in."));
    assert_eq!(f.scenarios[0].description.as_deref(), Some("A new user registers."));
    let plain = GherkinService::parse("Feature: F\n  Scenario: s\n    Given x\n").unwrap();
    assert!(plain.description.is_none());
    assert!(plain.scenarios[0].description.is_none());
}

#[test]
fn example_row_keys_come_in_key_order() {
    let input = "\
Feature: F
  Scenario Outline: s
    When I send <b>
    Examples:
      | zeta | b   | a |
      | 1    | <a> | x |
";
    let f = GherkinService::parse(input).expect("must parse");
    let data = &f.scenarios[0].examples[0].data;
    let keys: Vec<&str> = match data {
        Json::Object(entries) => entries.iter().map(|(k, _)| k.as_str()).collect(),
        _ => vec![],
    };
    assert_eq!(keys, vec!["a", "b", "zeta"]);
    // `<a>` is replaced before `<b>`, so the `<a>` that `<b>` brings in stays.
    let text = serval_cli::patterns::substitute_placeholders(&f.scenarios[0].steps[0].text, data);
    assert_eq!(text, "I send <a>");
}

#[test]
fn repeated_example_column_keeps_its_last_cell() {
    let input = "\
Feature: F
  Scenario Outline: s
    Given x
    Examples:
      | k | k |
      | 1 | 2 |
";
    let f = GherkinService::parse(input).expect("must parse");
    assert!(matches!(&f.scenarios[0].examples[0].data, Json::Object(e) if e.len() == 1 && num(&e[0].1) == Some("2")));
}
