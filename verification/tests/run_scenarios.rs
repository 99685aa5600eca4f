//! `serval run` end to end, minus the network: a `.feature` text is
//! parsed, every row is driven through the same request/response
//! machine the binary drives, and each request is answered by a small
//! table of canned routes. The printed table and exit code come from
//! the library functions the binary prints.

use serval_cli::commands::run::{exit_code, results_table};
use serval_cli::execution::{scenario_examples, Command, Reply, TestRunner};
use serval_cli::json::{parse_json, render_json, Json};
use serval_cli::patterns::{build_pattern, Action, StepPattern, ValueSource};
use serval_cli::runner::{ApiSpec, EnvSpec, HttpMethod, HttpPlan, TestConfig, TestResult};
use serval_cli::spec::parse_relaxed;

const BASE: &str = "http://mock.local";

fn json(text: &str) -> Json {
    parse_json(text).expect("test JSON must parse")
}

/// One canned answer: method, path, an optional required header and
/// an optional body field the request must carry, then the reply.
struct Route {
    method: HttpMethod,
    path: &'static str,
    header: Option<(&'static str, &'static str)>,
    body_field: Option<(&'static str, &'static str)>,
    status: i16,
    body: &'static str,
}

fn route(method: HttpMethod, path: &'static str, status: i16, body: &'static str) -> Route {
    Route { method, path, header: None, body_field: None, status, body }
}

fn field<'a>(j: &'a Json, key: &str) -> Option<&'a Json> {
    match j {
        Json::Object(entries) => entries.iter().find(|(k, _)| k == key).map(|(_, v)| v),
        _ => None,
    }
}

fn answer(routes: &[Route], plan: &HttpPlan) -> Reply {
    for r in routes {
        if r.method != plan.method || plan.url != format!("{BASE}{}", r.path) {
            continue;
        }
        if let Some((k, v)) = r.header {
            if !plan.headers.iter().any(|(hk, hv)| hk == k && hv == v) {
                continue;
            }
        }
        if let Some((k, v)) = r.body_field {
            let ok = matches!(plan.body.as_ref().and_then(|b| field(b, k)), Some(Json::Str(s)) if s == v);
            if !ok {
                continue;
            }
        }
        let body = if r.body.is_empty() { Json::Null } else { json(r.body) };
        return Reply::Response { status: r.status, body, duration_ms: 1 };
    }
    Reply::Response { status: 404, body: Json::Null, duration_ms: 1 }
}

struct Run {
    results: Vec<TestResult>,
    sent: Vec<HttpPlan>,
    out: String,
    code: i32,
}

fn run(feature: &str, endpoint: &str, method: &str, config: TestConfig, user: Vec<StepPattern>, routes: &[Route]) -> Run {
    let features = parse_relaxed(feature).expect("feature parses");
    let runner = TestRunner::with_config(config).extend_patterns(user);
    let api = ApiSpec { endpoint: endpoint.to_string(), http_method: method.to_string() };
    let env = EnvSpec { base_url: BASE.to_string() };
    let mut results = Vec::new();
    let mut sent = Vec::new();
    for f in &features {
        for scenario in &f.scenarios {
            for (index, example) in scenario_examples(scenario).iter().enumerate() {
                let mut row = runner.start(example);
                let outcome = loop {
                    match row.advance(&runner.patterns, &runner.config, scenario, &api, &env) {
                        Command::Continue => {}
                        Command::Send(plan) => {
                            let reply = answer(routes, &plan);
                            sent.push(plan);
                            row.receive(&runner.patterns, scenario, reply);
                        }
                        Command::Finish(o) => break o,
                    }
                };
                results.push(TestResult::from_outcome(&scenario.title, index as i32, outcome, 1, 0));
            }
        }
    }
    let out = results_table(&results).join("\n");
    let code = exit_code(&results);
    Run { results, sent, out, code }
}

fn pattern(regex: &str, keyword_type: &str, actions: Vec<Action>) -> StepPattern {
    build_pattern(regex.to_string(), Some(keyword_type.to_string()), actions).expect("pattern compiles")
}

fn http(method: &str, endpoint_template: &str) -> Action {
    Action::HttpRequest {
        method: method.to_string(),
        endpoint_template: endpoint_template.to_string(),
        body_from: None,
        headers: vec![],
        capture_response: vec![],
        accepted_status: vec![],
        doc_captures: vec![],
    }
}

fn pairs(p: &[(&str, &str)]) -> Vec<(String, String)> {
    p.iter().map(|(a, b)| (a.to_string(), b.to_string())).collect()
}

const HEALTH: &str = "Feature: Health\n  Scenario: /health returns 200\n    Then status should be 200\n";

#[test]
fn run_passes_when_status_assertion_matches() {
    let routes = [route(HttpMethod::Get, "/health", 200, r#"{"status": "ok"}"#)];
    let r = run(HEALTH, "/health", "GET", TestConfig::new(), vec![], &routes);
    assert_eq!(r.code, 0);
    assert!(r.out.contains("[PASS]"));
    assert!(r.out.contains("1 passed, 0 failed"));
}

#[test]
fn run_returns_exit_1_when_assertion_fails() {
    let routes = [route(HttpMethod::Get, "/health", 500, "")];
    let r = run(HEALTH, "/health", "GET", TestConfig::new(), vec![], &routes);
    assert_eq!(r.code, 1);
    assert!(r.out.contains("[FAIL]"));
}

#[test]
fn run_loads_user_patterns_from_file() {
    let user = vec![pattern(r"(?i)the answer is\s+\d{3}", "Outcome", vec![Action::AssertStatusFromTextScan])];
    let routes = [route(HttpMethod::Get, "/x", 500, "")];
    let feature = "Feature: User pattern smoke\n  Scenario: custom assertion\n    When I GET /x\n    Then the answer is 200\n";
    let r = run(feature, "/x", "GET", TestConfig::new(), user, &routes);
    assert_eq!(r.code, 1);
    assert!(r.out.contains("Expected status 200, got 500"), "{}", r.out);
}

#[test]
fn run_fires_multi_step_http_requests_from_patterns() {
    let user = vec![
        pattern(r#"(?i)i fetch user "(?P<name>[^"]+)""#, "Action", vec![http("GET", "/users/{{name}}")]),
        pattern(r#"(?i)i delete user "(?P<name>[^"]+)""#, "Action", vec![http("DELETE", "/users/{{name}}")]),
    ];
    let routes = [
        route(HttpMethod::Get, "/users/alice", 200, r#"{"name": "alice"}"#),
        route(HttpMethod::Delete, "/users/alice", 204, ""),
    ];
    let feature = "Feature: Multi-step\n  Scenario: fetch then delete\n    When I fetch user \"alice\"\n    And I delete user \"alice\"\n    Then status should be 204\n";
    let r = run(feature, "/unused", "GET", TestConfig::new(), user, &routes);
    assert_eq!(r.code, 0, "{}", r.out);
    assert!(r.out.contains("[PASS]"));
    assert!(r.out.contains("status 204"));
    assert_eq!(r.sent.len(), 2);
}

#[test]
fn run_then_doc_string_deep_matches_response_body() {
    let routes = [route(HttpMethod::Get, "/users/1", 200, r#"{"id": 1, "name": "alice", "email": "a@b.c"}"#)];
    let feature = "Feature: Body match\n  Scenario: alice profile\n    When I GET /users/1\n    Then the response is:\n      \"\"\"\n      {\"id\": 1, \"name\": \"alice\"}\n      \"\"\"\n";
    let r = run(feature, "/users/1", "GET", TestConfig::new(), vec![], &routes);
    assert_eq!(r.code, 0, "{}", r.out);
    assert!(r.out.contains("[PASS]"));
}

#[test]
fn run_then_doc_string_mismatch_fails() {
    let routes = [route(HttpMethod::Get, "/users/1", 200, r#"{"id": 2, "name": "bob"}"#)];
    let feature = "Feature: Body mismatch\n  Scenario: expects alice\n    When I GET /users/1\n    Then the response is:\n      \"\"\"\n      {\"id\": 1, \"name\": \"alice\"}\n      \"\"\"\n";
    let r = run(feature, "/users/1", "GET", TestConfig::new(), vec![], &routes);
    assert_eq!(r.code, 1);
    assert!(r.out.contains("[FAIL]"));
    assert!(r.out.contains("Response body does not match expected"), "{}", r.out);
}

fn op_fails_patterns() -> Vec<StepPattern> {
    vec![pattern(
        r"(?i)the operation fails with:\s*(?P<msg>.+?)\s*$",
        "Outcome",
        vec![
            Action::AssertExpectedStatusInRange { min: 400, max: 499 },
            Action::AssertBodyContainsFromMatchGroup { group: "msg".to_string() },
        ],
    )]
}

#[test]
fn run_operation_fails_pattern_asserts_status_range_and_body_substring() {
    let routes = [route(HttpMethod::Post, "/x", 400, r#"{"error": "account does not exist"}"#)];
    let feature = "Feature: Op fails\n  Scenario: account missing\n    When I POST /x\n    Then the operation fails with: account does not exist\n";
    let r = run(feature, "/x", "POST", TestConfig::new(), op_fails_patterns(), &routes);
    assert_eq!(r.code, 0, "{}", r.out);
    assert!(r.out.contains("[PASS]"));
}

#[test]
fn run_operation_fails_status_outside_range_fails_validation() {
    let routes = [route(HttpMethod::Post, "/x", 200, r#"{"unexpected": "ok"}"#)];
    let feature = "Feature: Op unexpected\n  Scenario: should have failed\n    When I POST /x\n    Then the operation fails with: bad thing\n";
    let r = run(feature, "/x", "POST", TestConfig::new(), op_fails_patterns(), &routes);
    assert_eq!(r.code, 1);
    assert!(r.out.contains("[FAIL]"));
    assert!(r.out.contains("Expected status 400..=499, got 200"), "{}", r.out);
}

const VACUOUS: &str = "Feature: Vacuous\n  Scenario: no assertion\n    When I GET /health\n";

#[test]
fn run_vacuous_pass_fails_by_default() {
    let routes = [route(HttpMethod::Get, "/health", 200, "")];
    let r = run(VACUOUS, "/health", "GET", TestConfig::new(), vec![], &routes);
    assert_eq!(r.code, 1);
    assert!(r.out.contains("[FAIL]"));
    assert!(r.out.contains("scenario ran without setting any assertion"));
    assert!(r.out.contains("--allow-no-assertions"));
}

#[test]
fn run_vacuous_pass_allowed_with_flag() {
    let routes = [route(HttpMethod::Get, "/health", 200, "")];
    let config = TestConfig { allow_no_assertions: true, ..TestConfig::new() };
    let r = run(VACUOUS, "/health", "GET", config, vec![], &routes);
    assert_eq!(r.code, 0, "{}", r.out);
    assert!(r.out.contains("[PASS]"));
}

#[test]
fn run_vacuous_empty_doc_string_then_fails_by_default() {
    let routes = [route(HttpMethod::Post, "/login", 200, r#"{"token": "tk", "user_id": "u-1"}"#)];
    let feature = "Feature: Vacuous\n  Scenario: empty Then doc string\n    When I POST /login\n    Then the LoggedIn event is emitted with:\n      \"\"\"\n      {}\n      \"\"\"\n";
    let r = run(feature, "/login", "POST", TestConfig::new(), vec![], &routes);
    assert_eq!(r.code, 1);
    assert!(r.out.contains("[FAIL]"));
    assert!(r.out.contains("scenario ran without setting any assertion"));
}

#[test]
fn run_empty_doc_string_paired_with_status_assertion_still_passes() {
    let routes = [route(HttpMethod::Post, "/login", 200, r#"{"token": "tk", "user_id": "u-1"}"#)];
    let feature = "Feature: Vacuous body with status\n  Scenario: empty Then doc string but status fires\n    When I POST /login\n    Then status should be 200\n    And the LoggedIn event is emitted with:\n      \"\"\"\n      {}\n      \"\"\"\n";
    let r = run(feature, "/login", "POST", TestConfig::new(), vec![], &routes);
    assert_eq!(r.code, 0, "{}", r.out);
    assert!(r.out.contains("[PASS]"));
}

fn view_patterns() -> Vec<StepPattern> {
    vec![
        pattern("(?i)the AccountList view is queried", "Action", vec![http("GET", "/users/list")]),
        pattern("(?i)the view returns", "Outcome", vec![Action::AssertBodyMatchesAt { pointer: "/users".to_string() }]),
    ]
}

const VIEW: &str = "Feature: View partial-match\n  Scenario: AccountList view returns wrapped\n    When the AccountList view is queried\n    Then the view returns:\n      \"\"\"\n      [{\"name\": \"Alice\"}]\n      \"\"\"\n";

#[test]
fn run_assert_body_matches_at_scopes_partial_match_to_pointer() {
    let routes = [route(
        HttpMethod::Get,
        "/users/list",
        200,
        r#"{"users": [{"name": "Alice", "extra": "ignored-by-partial-match"}, {"name": "Bob"}]}"#,
    )];
    let r = run(VIEW, "/placeholder", "GET", TestConfig::new(), view_patterns(), &routes);
    assert_eq!(r.code, 0, "{}", r.out);
    assert!(r.out.contains("[PASS]"));
    assert!(r.out.contains("1 passed, 0 failed"));
}

#[test]
fn run_assert_body_matches_at_fails_when_pointer_missing() {
    let routes = [route(HttpMethod::Get, "/users/list", 200, r#"{"unexpected": "shape"}"#)];
    let r = run(VIEW, "/placeholder", "GET", TestConfig::new(), view_patterns(), &routes);
    assert_eq!(r.code, 1);
    assert!(r.out.contains("[FAIL]"));
    assert!(r.out.contains("Pointer /users resolved to nothing"), "{}", r.out);
}

fn seed(accepted: Vec<i16>) -> StepPattern {
    let mut a = http("POST", "/users/create");
    if let Action::HttpRequest { accepted_status, .. } = &mut a {
        *accepted_status = accepted;
    }
    pattern("(?i)the AccountCreated event has occurred", "Context", vec![a])
}

#[test]
fn run_accepted_status_treats_listed_codes_as_success() {
    let user = vec![seed(vec![201, 409]), pattern("(?i)Anonymous sends Login", "Action", vec![http("POST", "/auth/login")])];
    let routes = [
        route(HttpMethod::Post, "/users/create", 409, r#"{"detail": "already exists"}"#),
        route(HttpMethod::Post, "/auth/login", 200, r#"{"token": "tk"}"#),
    ];
    let feature = "Feature: Seed idempotency\n  Scenario: seed POST returns 409 but scenario continues\n    Given the AccountCreated event has occurred on stream \"acc-001\":\n      \"\"\"\n      {\"name\": \"Alice\"}\n      \"\"\"\n    When Anonymous sends Login on stream \"acc-001\":\n      \"\"\"\n      {\"username\": \"alice\"}\n      \"\"\"\n    Then status should be 200\n";
    let r = run(feature, "/placeholder", "GET", TestConfig::new(), user, &routes);
    assert_eq!(r.code, 0, "{}", r.out);
    assert!(r.out.contains("[PASS]"));
    assert!(r.out.contains("1 passed, 0 failed"));
}

#[test]
fn run_accepted_status_unlisted_code_fails_the_scenario() {
    let routes = [route(HttpMethod::Post, "/users/create", 500, r#"{"detail": "boom"}"#)];
    let feature = "Feature: Seed hard failure\n  Scenario: seed POST returns 500\n    Given the AccountCreated event has occurred on stream \"acc-001\":\n      \"\"\"\n      {\"name\": \"Alice\"}\n      \"\"\"\n    Then status should be 200\n";
    let r = run(feature, "/placeholder", "GET", TestConfig::new(), vec![seed(vec![201])], &routes);
    assert_eq!(r.code, 1);
    assert!(r.out.contains("[FAIL]"));
    assert!(r.out.contains("returned status 500"), "{}", r.out);
    assert!(r.out.contains("accepted_status"));
}

#[test]
fn run_stream_id_symbol_table_chains_seed_capture_into_delete() {
    let mut create = http("POST", "/users/create");
    if let Action::HttpRequest { capture_response, .. } = &mut create {
        *capture_response = pairs(&[("user_for_{{stream}}", "/id")]);
    }
    let user = vec![
        pattern(r#"(?i)the AccountCreated event has occurred on stream "(?P<stream>[^"]+)""#, "Context", vec![create]),
        pattern(
            r#"(?i)Coach sends DeleteAccount on stream "(?P<stream>[^"]+)""#,
            "Action",
            vec![http("DELETE", "/users/delete/{{$user_for_{{stream}}}}")],
        ),
        pattern("(?i)the AccountDeleted event is emitted", "Outcome", vec![Action::AssertStatusFromTextScan]),
    ];
    let routes = [
        route(HttpMethod::Post, "/users/create", 201, r#"{"id": "019e1f4d-3c69", "account": "coach"}"#),
        route(HttpMethod::Delete, "/users/delete/019e1f4d-3c69", 204, ""),
    ];
    let feature = "Feature: Stream id chain\n  Scenario: Delete by captured UUID\n    Given the AccountCreated event has occurred on stream \"acc-001\":\n      \"\"\"\n      {\"name\": \"coach\"}\n      \"\"\"\n    When Coach sends DeleteAccount on stream \"acc-001\":\n      \"\"\"\n      {}\n      \"\"\"\n    Then status should be 204\n";
    let r = run(feature, "/placeholder", "GET", TestConfig::new(), user, &routes);
    assert_eq!(r.sent[1].url, format!("{BASE}/users/delete/019e1f4d-3c69"));
    assert_eq!(r.code, 0, "{}", r.out);
    assert!(r.out.contains("[PASS]"));
    assert!(r.out.contains("1 passed, 0 failed"));
}

#[test]
fn run_doc_captures_resolves_stream_id_in_body_overrides() {
    let mut team = http("POST", "/teams/create");
    if let Action::HttpRequest { capture_response, accepted_status, .. } = &mut team {
        *capture_response = pairs(&[("team_for_{{stream}}", "/id")]);
        *accepted_status = vec![201, 409];
    }
    let mut player = http("POST", "/teams/members/create");
    if let Action::HttpRequest { body_from, accepted_status, doc_captures, .. } = &mut player {
        *doc_captures = pairs(&[("team_stream", "/teamId")]);
        *accepted_status = vec![201, 409];
        *body_from = Some(Box::new(ValueSource::DocStringTemplate {
            rename: pairs(&[("playerName", "name")]),
            defaults: json(r#"{"jersey_number": "1", "position": "PITCHER"}"#),
            overrides: json(r#"{"team_id": "{{$team_for_{{$team_stream}}}}"}"#),
        }));
    }
    let user = vec![
        pattern(r#"(?i)the TeamCreated event has occurred on stream "(?P<stream>[^"]+)""#, "Context", vec![team]),
        pattern(r#"(?i)the PlayerCreated event has occurred on stream "(?P<stream>[^"]+)""#, "Context", vec![player]),
        pattern("(?i)status should pass", "Outcome", vec![Action::AssertExpectedStatusInRange { min: 200, max: 299 }]),
    ];
    let routes = [
        route(HttpMethod::Post, "/teams/create", 201, r#"{"id": "019e1f49-team", "teamName": "T"}"#),
        Route {
            method: HttpMethod::Post,
            path: "/teams/members/create",
            header: None,
            body_field: Some(("team_id", "019e1f49-team")),
            status: 201,
            body: r#"{"id": "019e1f49-mem", "name": "Alice"}"#,
        },
    ];
    let feature = "Feature: doc_captures chain\n  Scenario: PlayerCreated rewrites teamId to captured team UUID\n    Given the TeamCreated event has occurred on stream \"team-001\":\n      \"\"\"\n      {\"teamName\": \"T\"}\n      \"\"\"\n    And the PlayerCreated event has occurred on stream \"player-001\":\n      \"\"\"\n      {\"playerName\": \"Alice\", \"teamId\": \"team-001\", \"height\": 165}\n      \"\"\"\n    Then status should pass\n";
    let r = run(feature, "/placeholder", "GET", TestConfig::new(), user, &routes);
    let body = render_json(r.sent[1].body.as_ref().expect("player body"));
    assert!(body.contains(r#""team_id":"019e1f49-team""#), "{body}");
    assert!(body.contains(r#""name":"Alice""#), "{body}");
    assert!(body.contains(r#""position":"PITCHER""#), "{body}");
    assert_eq!(r.code, 0, "{}", r.out);
    assert!(r.out.contains("[PASS]"));
    assert!(r.out.contains("1 passed, 0 failed"));
}

#[test]
fn run_captures_response_field_into_scenario_variable() {
    let mut login = http("POST", "/auth/login");
    if let Action::HttpRequest { body_from, capture_response, .. } = &mut login {
        *body_from = Some(Box::new(ValueSource::DocString));
        *capture_response = pairs(&[("token", "/access_token")]);
    }
    let mut fetch = http("GET", "/protected");
    if let Action::HttpRequest { headers, .. } = &mut fetch {
        *headers = pairs(&[("Authorization", "Bearer {{$token}}")]);
    }
    let user = vec![
        pattern("(?i)i log in", "Action", vec![login]),
        pattern("(?i)i fetch the protected resource", "Action", vec![fetch]),
    ];
    let routes = [
        route(HttpMethod::Post, "/auth/login", 200, r#"{"access_token": "tk-abc-123"}"#),
        Route {
            method: HttpMethod::Get,
            path: "/protected",
            header: Some(("Authorization", "Bearer tk-abc-123")),
            body_field: None,
            status: 200,
            body: r#"{"ok": true}"#,
        },
    ];
    let feature = "Feature: Chain\n  Scenario: login then fetch\n    When I log in\n      \"\"\"\n      {\"username\": \"u\", \"password\": \"p\"}\n      \"\"\"\n    And I fetch the protected resource\n    Then status should be 200\n";
    let r = run(feature, "/unused", "GET", TestConfig::new(), user, &routes);
    assert_eq!(r.code, 0, "{}", r.out);
    assert!(r.out.contains("[PASS]"));
}

#[test]
fn run_global_header_flag_flows_into_http_request_pattern() {
    let user = vec![pattern("(?i)i fetch things", "Action", vec![http("GET", "/things")])];
    let routes = [Route {
        method: HttpMethod::Get,
        path: "/things",
        header: Some(("X-Tenant", "acme")),
        body_field: None,
        status: 200,
        body: "[]",
    }];
    let config = TestConfig { custom_headers: pairs(&[("X-Tenant", "acme")]), ..TestConfig::new() };
    let feature = "Feature: Hdr\n  Scenario: with tenant header\n    When I fetch things\n    Then status should be 200\n";
    let r = run(feature, "/unused", "GET", config, user, &routes);
    assert_eq!(r.code, 0, "{}", r.out);
    assert!(r.out.contains("[PASS]"));
    assert_eq!(r.results.len(), 1);
}

#[test]
fn run_resolves_env_base_url_from_config_file() {
    let mut cfg = serval_cli::config::Config::new();
    cfg.set_env("local".to_string(), BASE.to_string(), false);
    let base = serval_cli::commands::run::resolve_base_url(&cfg, Some("local")).expect("env resolves");
    assert_eq!(base, BASE);
    let routes = [route(HttpMethod::Get, "/health", 200, "")];
    let r = run(HEALTH, "/health", "GET", TestConfig::new(), vec![], &routes);
    assert!(r.out.contains("[PASS]"));
}

#[test]
fn run_exits_3_when_no_base_url_nor_env_resolves() {
    let cfg = serval_cli::config::Config::new();
    let err = serval_cli::commands::run::resolve_base_url(&cfg, None).unwrap_err();
    assert_eq!(serval_cli::error::map_error_to_exit(&err), 3);
    assert!(err.to_text().contains("could not resolve target server"));
}

#[test]
fn run_exits_3_when_target_unspecified() {
    let err = serval_cli::commands::run::resolve_api_spec(None, &None, &None).unwrap_err();
    assert_eq!(serval_cli::error::map_error_to_exit(&err), 3);
    assert!(err.to_text().contains("missing `--endpoint`"));
}
