use serval_cli::json::json_at;
use serval_cli::execution::{scenario_examples, Command, ExampleRun, Outcome, Reply, TestRunner};
use serval_cli::gherkin::{GherkinService, ParsedScenario, ParsedStep};
use serval_cli::json::{parse_json, render_json, Json};
use serval_cli::patterns::{Action, KeywordType, StepPattern};
use serval_cli::runner::{
    build_request_body, fallback_request, parse_method, validate_response, ApiSpec, EnvSpec,
    HttpMethod, HttpPlan, ScenarioContext, StatusMatcher, TestConfig, TestResult,
};

fn json(text: &str) -> Json {
    parse_json(text).expect("test JSON must parse")
}

#[test]
fn test_json_contains() {
    let runner = TestRunner::new();
    let actual = json(r#"{"id": 1, "name": "test", "extra": "field"}"#);
    let expected = json(r#"{"id": 1, "name": "test"}"#);
    assert!(runner.json_contains(&actual, &expected));
    let not_expected = json(r#"{"id": 2}"#);
    assert!(!runner.json_contains(&actual, &not_expected));
}

#[test]
fn json_contains_arrays_match_items_anywhere() {
    let runner = TestRunner::new();
    assert!(runner.json_contains(&json(r#"[{"a":1,"b":2},{"a":3}]"#), &json(r#"[{"a":3},{"b":2}]"#)));
    assert!(!runner.json_contains(&json(r#"[1,2]"#), &json(r#"[3]"#)));
    assert!(!runner.json_contains(&json(r#"{"a":1}"#), &json(r#"[1]"#)));
}

#[test]
fn status_matcher_matches_and_describes() {
    assert!(StatusMatcher::Exact(200).matches(200));
    assert!(!StatusMatcher::Exact(200).matches(201));
    let r = StatusMatcher::Range { min: 400, max: 499 };
    assert!(r.matches(400) && r.matches(499) && !r.matches(500));
    assert_eq!(r.describe(), "400..=499");
    assert_eq!(StatusMatcher::Exact(-5).describe(), "-5");
}

#[test]
fn validation_reports_the_first_failed_check() {
    let config = TestConfig::new();
    let ctx = ScenarioContext::for_example(None);
    let msg = validate_response(&config, 200, &Json::Null, &ctx).unwrap_err();
    assert!(msg.starts_with("scenario ran without setting any assertion"));

    let allow = TestConfig { allow_no_assertions: true, ..TestConfig::new() };
    assert!(validate_response(&allow, 200, &Json::Null, &ctx).is_ok());

    let ctx = ScenarioContext::for_example(Some(201));
    assert_eq!(validate_response(&config, 500, &Json::Null, &ctx).unwrap_err(), "Expected status 201, got 500");

    let mut ctx = ScenarioContext::for_example(Some(200));
    ctx.expected_body_contains.push("needle".to_string());
    assert_eq!(
        validate_response(&config, 200, &json(r#"{"a":"hay"}"#), &ctx).unwrap_err(),
        "Response body does not contain expected pattern: needle"
    );

    let mut ctx = ScenarioContext::for_example(None);
    ctx.expected_body = Some(json(r#"{"a":1}"#));
    assert_eq!(
        validate_response(&config, 200, &json(r#"{"a":2}"#), &ctx).unwrap_err(),
        r#"Response body does not match expected. Expected: {"a":1}, Got: {"a":2}"#
    );
    ctx.expected_body_pointer = Some("/users".to_string());
    assert_eq!(
        validate_response(&config, 200, &json(r#"{"unexpected":"shape"}"#), &ctx).unwrap_err(),
        "Pointer /users resolved to nothing"
    );
    ctx.expected_body = Some(json(r#"[{"name":"Alice"}]"#));
    assert!(validate_response(&config, 200, &json(r#"{"users":[{"name":"Alice","x":1},{"name":"Bob"}]}"#), &ctx).is_ok());
}

#[test]
fn methods_parse_case_insensitively() {
    assert_eq!(parse_method("get").unwrap(), HttpMethod::Get);
    assert_eq!(parse_method("Options").unwrap(), HttpMethod::Options);
    assert_eq!(parse_method("TRACE").unwrap_err().to_text(), "spec error: Unsupported HTTP method: TRACE");
}

#[test]
fn implicit_request_plan() {
    let config = TestConfig { auth_token: Some("tok".to_string()), custom_headers: vec![("X-Tenant".to_string(), "acme".to_string())], ..TestConfig::new() };
    let api = ApiSpec { endpoint: "/users/<id>".to_string(), http_method: "post".to_string() };
    let env = EnvSpec { base_url: "http://localhost:3000//".to_string() };
    let mut ctx = ScenarioContext::for_example(None);
    ctx.query_params.push(("page".to_string(), "2".to_string()));
    ctx.query_params.push(("q".to_string(), "x".to_string()));
    ctx.request_headers.push(("X-Step".to_string(), "1".to_string()));
    let example = json(r#"{"id": 7, "name": "a", "expected_status": 201}"#);
    let plan = fallback_request(&config, &api, &env, &ctx, &example).unwrap();
    assert_eq!(plan.method, HttpMethod::Post);
    assert_eq!(plan.url, "http://localhost:3000/users/7?page=2&q=x");
    assert_eq!(
        plan.headers,
        vec![
            ("Authorization".to_string(), "Bearer tok".to_string()),
            ("X-Tenant".to_string(), "acme".to_string()),
            ("X-Step".to_string(), "1".to_string()),
        ]
    );
    assert_eq!(render_json(&plan.body.unwrap()), r#"{"id":7,"name":"a"}"#);

    let get = ApiSpec { endpoint: "/x".to_string(), http_method: "GET".to_string() };
    assert!(fallback_request(&config, &get, &env, &ctx, &example).unwrap().body.is_none());
    let bad = ApiSpec { endpoint: "/x".to_string(), http_method: "BREW".to_string() };
    assert!(fallback_request(&config, &bad, &env, &ctx, &example).is_err());
}

#[test]
fn request_body_substitutes_row_values() {
    let mut ctx = ScenarioContext::for_example(None);
    ctx.request_body = Some(json(r#"{"email":"<email>"}"#));
    let body = build_request_body(&ctx, &json(r#"{"email":"bob@x"}"#)).unwrap();
    assert_eq!(render_json(&body), r#"{"email":"bob@x"}"#);
    let empty = ScenarioContext::for_example(None);
    assert!(build_request_body(&empty, &Json::Null).is_none());
}

fn drive(runner: &TestRunner, scenario: &ParsedScenario, api: &ApiSpec, env: &EnvSpec, replies: &mut Vec<Reply>, sent: &mut Vec<HttpPlan>) -> Outcome {
    let examples = scenario_examples(scenario);
    let mut run = runner.start(&examples[0]);
    loop {
        match run.advance(&runner.patterns, &runner.config, scenario, api, env) {
            Command::Continue => {}
            Command::Send(plan) => {
                sent.push(plan);
                let reply = replies.remove(0);
                run.receive(&runner.patterns, scenario, reply);
            }
            Command::Finish(outcome) => return outcome,
        }
    }
}

fn only_scenario(text: &str) -> ParsedScenario {
    let mut f = GherkinService::parse(text).expect("feature parses");
    f.scenarios.remove(0)
}

#[test]
fn concrete_scenario_sends_the_implicit_request_once() {
    let runner = TestRunner::new();
    let scenario = only_scenario("Feature: F\n  Scenario: health\n    Then status should be 200\n");
    let api = ApiSpec { endpoint: "/health".to_string(), http_method: "GET".to_string() };
    let env = EnvSpec { base_url: "http://h".to_string() };
    let mut replies = vec![Reply::Response { status: 200, body: json(r#"{"ok":true}"#), duration_ms: 3 }];
    let mut sent = Vec::new();
    let outcome = drive(&runner, &scenario, &api, &env, &mut replies, &mut sent);
    assert_eq!(sent.len(), 1);
    assert_eq!(sent[0].url, "http://h/health");
    assert!(outcome.pass);
    assert_eq!(outcome.response_status, 200);
    let result = TestResult::from_outcome(&scenario.title, 0, outcome, 3, 1_000);
    assert!(result.pass);
    assert_eq!(result.scenario_title, "health");
}

#[test]
fn failing_status_fails_the_row() {
    let runner = TestRunner::new();
    let scenario = only_scenario("Feature: F\n  Scenario: s\n    Then status should be 200\n");
    let api = ApiSpec { endpoint: "/".to_string(), http_method: "GET".to_string() };
    let env = EnvSpec { base_url: "http://h".to_string() };
    let mut replies = vec![Reply::Response { status: 500, body: Json::Null, duration_ms: 1 }];
    let outcome = drive(&runner, &scenario, &api, &env, &mut replies, &mut Vec::new());
    assert!(!outcome.pass);
    assert_eq!(outcome.error_message.as_deref(), Some("Expected status 200, got 500"));
}

#[test]
fn pattern_requests_chain_captured_variables() {
    let login = StepPattern {
        regex: "(?i)i log in".to_string(),
        keyword_type: Some(KeywordType::Action),
        actions: vec![Action::HttpRequest {
            method: "POST".to_string(),
            endpoint_template: "/auth/login".to_string(),
            body_from: Some(Box::new(serval_cli::patterns::ValueSource::DocString)),
            headers: vec![],
            capture_response: vec![("token".to_string(), "/access_token".to_string())],
            accepted_status: vec![],
            doc_captures: vec![],
        }],
    };
    let fetch = StepPattern {
        regex: "(?i)i fetch the protected resource".to_string(),
        keyword_type: Some(KeywordType::Action),
        actions: vec![Action::HttpRequest {
            method: "GET".to_string(),
            endpoint_template: "/protected".to_string(),
            body_from: None,
            headers: vec![("Authorization".to_string(), "Bearer {{$token}}".to_string())],
            capture_response: vec![],
            accepted_status: vec![],
            doc_captures: vec![],
        }],
    };
    let runner = TestRunner::new().extend_patterns(vec![login, fetch]);
    let scenario = only_scenario(
        "Feature: Chain\n  Scenario: login then fetch\n    When I log in\n      \"\"\"\n      {\"username\": \"u\", \"password\": \"p\"}\n      \"\"\"\n    And I fetch the protected resource\n    Then status should be 200\n",
    );
    let api = ApiSpec { endpoint: "/unused".to_string(), http_method: "GET".to_string() };
    let env = EnvSpec { base_url: "http://h".to_string() };
    let mut replies = vec![
        Reply::Response { status: 200, body: json(r#"{"access_token":"tk-abc-123"}"#), duration_ms: 1 },
        Reply::Response { status: 200, body: json(r#"{"ok":true}"#), duration_ms: 1 },
    ];
    let mut sent = Vec::new();
    let outcome = drive(&runner, &scenario, &api, &env, &mut replies, &mut sent);
    assert_eq!(sent.len(), 2);
    assert_eq!(sent[0].url, "http://h/auth/login");
    assert_eq!(render_json(sent[0].body.as_ref().unwrap()), r#"{"password":"p","username":"u"}"#);
    assert_eq!(sent[1].headers, vec![("Authorization".to_string(), "Bearer tk-abc-123".to_string())]);
    assert!(outcome.pass, "{:?}", outcome.error_message);
}

#[test]
fn unaccepted_status_and_transport_failures_fail_the_row() {
    let seed = StepPattern {
        regex: "(?i)seeded".to_string(),
        keyword_type: Some(KeywordType::Context),
        actions: vec![Action::HttpRequest {
            method: "POST".to_string(),
            endpoint_template: "/users/create".to_string(),
            body_from: None,
            headers: vec![],
            capture_response: vec![],
            accepted_status: vec![201, 409],
            doc_captures: vec![],
        }],
    };
    let runner = TestRunner::new().extend_patterns(vec![seed]);
    let scenario = only_scenario("Feature: F\n  Scenario: s\n    Given the user is seeded\n    Then status should be 200\n");
    let api = ApiSpec { endpoint: "/".to_string(), http_method: "GET".to_string() };
    let env = EnvSpec { base_url: "http://h".to_string() };
    let mut replies = vec![Reply::Response { status: 500, body: Json::Null, duration_ms: 1 }];
    let outcome = drive(&runner, &scenario, &api, &env, &mut replies, &mut Vec::new());
    assert!(!outcome.pass);
    assert_eq!(outcome.response_status, 0);
    assert_eq!(
        outcome.error_message.as_deref(),
        Some("spec error: HTTP POST http://h/users/create returned status 500, not in accepted_status [201, 409]")
    );

    let mut replies = vec![Reply::Response { status: 409, body: Json::Null, duration_ms: 1 }];
    let outcome = drive(&runner, &scenario, &api, &env, &mut replies, &mut Vec::new());
    assert!(!outcome.pass);
    assert_eq!(outcome.error_message.as_deref(), Some("Expected status 200, got 409"));

    let mut replies = vec![Reply::Failed("connection refused".to_string())];
    let outcome = drive(&runner, &scenario, &api, &env, &mut replies, &mut Vec::new());
    assert_eq!(outcome.error_message.as_deref(), Some("system error: HTTP request failed: connection refused"));
}

#[test]
fn data_driven_scenario_has_one_row_per_example() {
    let scenario = only_scenario(
        "Feature: F\n  Scenario Outline: o\n    When I get <id>\n    Then status should be <expected_status>\n    Examples:\n      | id | expected_status |\n      | 1  | 200 |\n      | 2  | 404 |\n",
    );
    let rows = scenario_examples(&scenario);
    assert_eq!(rows.len(), 2);
    assert_eq!(rows[1].expected_status_code, Some(404));
    let concrete = only_scenario("Feature: F\n  Scenario: c\n    Given x\n");
    let rows = scenario_examples(&concrete);
    assert_eq!(rows.len(), 1);
    assert!(matches!(rows[0].data, Json::Null));
}

#[test]
fn unsupported_method_fails_before_sending() {
    let runner = TestRunner::new();
    let scenario = only_scenario("Feature: F\n  Scenario: s\n    Then status should be 200\n");
    let api = ApiSpec { endpoint: "/".to_string(), http_method: "BREW".to_string() };
    let env = EnvSpec { base_url: "http://h".to_string() };
    let mut sent = Vec::new();
    let outcome = drive(&runner, &scenario, &api, &env, &mut Vec::new(), &mut sent);
    assert!(sent.is_empty());
    assert_eq!(outcome.error_message.as_deref(), Some("spec error: Unsupported HTTP method: BREW"));
}

#[test]
fn step_data_table_becomes_setup_data() {
    let table = vec![vec!["a".to_string(), "<x>".to_string()]];
    let rows = serval_cli::runner::table_setup(&table, &json(r#"{"x":"1"}"#));
    assert_eq!(render_json(&rows[0]), r#"["a","1"]"#);
}

fn e2e_step(keyword: &str, keyword_type: &str, text: &str) -> ParsedStep {
    ParsedStep {
        keyword: keyword.to_string(),
        keyword_type: keyword_type.to_string(),
        text: text.to_string(),
        doc_string: None,
        data_table: None,
    }
}

/// Runs every row of the scenario, answering each request with `reply`.
fn run_rows(runner: &TestRunner, scenario: &ParsedScenario, api: &ApiSpec, env: &EnvSpec, reply: &dyn Fn() -> Reply, sent: &mut Vec<HttpPlan>) -> Vec<TestResult> {
    let examples = scenario_examples(scenario);
    let mut results = Vec::new();
    for (index, example) in examples.iter().enumerate() {
        let mut run = runner.start(example);
        let outcome = loop {
            match run.advance(&runner.patterns, &runner.config, scenario, api, env) {
                Command::Continue => {}
                Command::Send(plan) => {
                    sent.push(plan);
                    run.receive(&runner.patterns, scenario, reply());
                }
                Command::Finish(outcome) => break outcome,
            }
        };
        results.push(TestResult::from_outcome(&scenario.title, index as i32, outcome, 1, 0));
    }
    results
}

#[test]
fn concrete_scenario_runs_exactly_once() {
    let scenario = ParsedScenario {
        title: "Service is healthy".to_string(),
        description: None,
        tags: vec![],
        steps: vec![
            e2e_step("Given", "Context", "the service is deployed"),
            e2e_step("When", "Action", "I query /health"),
            e2e_step("Then", "Outcome", "status should be 200"),
        ],
        examples: vec![],
    };
    let api = ApiSpec { endpoint: "/health".to_string(), http_method: "GET".to_string() };
    let env = EnvSpec { base_url: "http://127.0.0.1:9".to_string() };
    let runner = TestRunner::new();
    let mut sent = Vec::new();
    let ok = || Reply::Response { status: 200, body: json(r#"{"status": "ok"}"#), duration_ms: 1 };
    let results = run_rows(&runner, &scenario, &api, &env, &ok, &mut sent);
    assert_eq!(results.len(), 1, "concrete scenario must yield 1 TestResult");
    assert!(results[0].pass, "expected pass, got: {:?}", results[0].error_message);
    assert_eq!(results[0].response_status, 200);
    assert_eq!(sent.len(), 1);
    assert_eq!(sent[0].url, "http://127.0.0.1:9/health");
}

#[test]
fn data_driven_scenario_runs_once_per_example() {
    let row = |page: &str| serval_cli::gherkin::ParsedExample {
        data: json(&format!(r#"{{"page": {page}}}"#)),
        expected_status_code: Some(200),
    };
    let scenario = ParsedScenario {
        title: "Listing users".to_string(),
        description: None,
        tags: vec![],
        steps: vec![e2e_step("Then", "Outcome", "the response status should be 200")],
        examples: vec![row("1"), row("2"), row("3")],
    };
    let api = ApiSpec { endpoint: "/users".to_string(), http_method: "GET".to_string() };
    let env = EnvSpec { base_url: "http://127.0.0.1:9".to_string() };
    let runner = TestRunner::new();
    let mut sent = Vec::new();
    let ok = || Reply::Response { status: 200, body: json("[]"), duration_ms: 1 };
    let results = run_rows(&runner, &scenario, &api, &env, &ok, &mut sent);
    assert_eq!(results.len(), 3, "one TestResult per example");
    assert!(results.iter().all(|r| r.pass), "all examples must pass");
    assert_eq!(sent.len(), 3);
}

#[test]
fn captured_value_reads_back_through_a_placeholder() {
    let mut ctx = ScenarioContext::for_example(None);
    let caps = serval_cli::patterns::match_groups(r#"stream "(?P<stream>[^"]+)""#, r#"stream "acc-001""#).unwrap();
    let capture = vec![
        ("token".to_string(), "/access_token".to_string()),
        ("user_for_{{stream}}".to_string(), "/id".to_string()),
    ];
    let r = serval_cli::runner::record_http_response(
        &mut ctx,
        &"POST".to_string(),
        &"http://h/login".to_string(),
        200,
        json(r#"{"access_token": "tk-1", "id": "u-9"}"#),
        3,
        &capture,
        &vec![],
        &caps,
    );
    assert!(r.is_ok());
    assert_eq!(serval_cli::patterns::substitute_template("Bearer {{$token}}", &caps, &ctx.variables), "Bearer tk-1");
    assert_eq!(serval_cli::patterns::substitute_template("{{$user_for_acc-001}}", &caps, &ctx.variables), "u-9");
    assert_eq!(ctx.responses.len(), 1);
}

#[test]
fn json_contains_compares_numbers_as_serde_json_does() {
    let runner = TestRunner::new();
    assert!(runner.json_contains(&json(r#"{"x": -0.0}"#), &json(r#"{"x": 0.0}"#)));
    assert!(runner.json_contains(&json("1e2"), &json("100.0")));
    assert!(!runner.json_contains(&json("1"), &json("1.0")));
    assert!(!runner.json_contains(&json("0"), &json("0.0")));
}

#[test]
fn json_pointer_lookup_follows_serde_json() {
    let doc = json(r#"{"a/b": {"~k": [10, 20]}, "users": []}"#);
    assert_eq!(render_json(&json_at(&doc, "/a~1b/~0k/1").unwrap()), "20");
    assert_eq!(render_json(&json_at(&doc, "").unwrap()), render_json(&doc));
    assert!(json_at(&doc, "/a~1b/~0k/01").is_none());
    assert!(json_at(&doc, "users").is_none());
    assert!(json_at(&doc, "/missing").is_none());
}
