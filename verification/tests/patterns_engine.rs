use serval_cli::gherkin::ParsedStep;
use serval_cli::json::{is_vacuous_expected_body, parse_json, render_json, Json};
use serval_cli::patterns::{
    apply_doc_string_template, build_pattern, builtin_patterns, execute_sync_action, match_groups,
    matching_patterns, resolve_value_source, scan_first_quoted, scan_status_code,
    substitute_placeholders, substitute_template, word_scan_pair, Action, Group, KeywordType,
    StepPattern, ValueSource,
};
use serval_cli::runner::{ScenarioContext, StatusMatcher};

fn json(text: &str) -> Json {
    parse_json(text).expect("test JSON must parse")
}

fn same(a: &Json, b: &Json) -> bool {
    render_json(a) == render_json(b)
}

fn step(keyword_type: &str, text: &str) -> ParsedStep {
    ParsedStep {
        keyword: "When".to_string(),
        keyword_type: keyword_type.to_string(),
        text: text.to_string(),
        doc_string: None,
        data_table: None,
    }
}

fn action_step(text: &str) -> ParsedStep {
    step("Action", text)
}

fn outcome_step(text: &str) -> ParsedStep {
    step("Outcome", text)
}

fn caps(re: &str, text: &str) -> Vec<Group> {
    match_groups(re, text).expect("regex must match")
}

fn empty_vars() -> Vec<(String, Json)> {
    Vec::new()
}

/// Runs every non-HTTP action of every pattern that fires for `step`.
fn apply_sync(patterns: &Vec<StepPattern>, step: &ParsedStep, ctx: &mut ScenarioContext, example: &Json) {
    let text = substitute_placeholders(&step.text, example);
    for m in matching_patterns(patterns, step, &text) {
        for action in &patterns[m.pattern].actions {
            execute_sync_action(action, &text, &m.groups, step, ctx, example);
        }
    }
}

fn fresh() -> ScenarioContext {
    ScenarioContext::for_example(None)
}

#[test]
fn status_pattern_picks_first_in_range_number() {
    let patterns = builtin_patterns();
    for (input, expected) in [
        ("status should be 200", 200_i16),
        ("the status code is 404", 404),
        ("expect 500 error", 500),
    ] {
        let mut ctx = fresh();
        apply_sync(&patterns, &outcome_step(input), &mut ctx, &Json::Null);
        assert_eq!(ctx.expected_status, Some(StatusMatcher::Exact(expected)), "{input}");
    }
}

#[test]
fn status_pattern_skips_non_outcome_steps() {
    let patterns = builtin_patterns();
    let mut ctx = fresh();
    apply_sync(&patterns, &action_step("status should be 200"), &mut ctx, &Json::Null);
    assert!(ctx.expected_status.is_none());
}

#[test]
fn body_contains_pattern_extracts_quoted_string() {
    let patterns = builtin_patterns();
    let mut ctx = fresh();
    apply_sync(&patterns, &outcome_step(r#"the body should have "hello world""#), &mut ctx, &Json::Null);
    assert_eq!(ctx.expected_body_contains, vec!["hello world".to_string()]);
}

#[test]
fn header_pattern_inserts_key_value() {
    let patterns = builtin_patterns();
    let mut ctx = fresh();
    apply_sync(&patterns, &action_step("I set header X-Custom my-token"), &mut ctx, &Json::Null);
    assert_eq!(ctx.request_headers, vec![("X-Custom".to_string(), "my-token".to_string())]);
}

#[test]
fn query_param_pattern_inserts_key_value() {
    let patterns = builtin_patterns();
    let mut ctx = fresh();
    apply_sync(&patterns, &action_step("I set query param page 2"), &mut ctx, &Json::Null);
    assert_eq!(ctx.query_params, vec![("page".to_string(), "2".to_string())]);
}

#[test]
fn header_and_query_param_patterns_insert_pairs() {
    let patterns = builtin_patterns();
    let mut ctx = fresh();
    apply_sync(&patterns, &step("Context", "I set header X-Api-Key 'secret'"), &mut ctx, &Json::Null);
    apply_sync(&patterns, &step("Context", "I set query param page 2"), &mut ctx, &Json::Null);
    assert_eq!(ctx.request_headers, vec![("X-Api-Key".to_string(), "secret".to_string())]);
    assert_eq!(ctx.query_params, vec![("page".to_string(), "2".to_string())]);
}

#[test]
fn body_cue_falls_back_to_example_data() {
    let patterns = builtin_patterns();
    let mut ctx = fresh();
    let example = json(r#"{"email": "a@b.c"}"#);
    apply_sync(&patterns, &action_step("I POST /users with body"), &mut ctx, &example);
    assert!(same(ctx.request_body.as_ref().unwrap(), &example));
}

#[test]
fn body_cue_reads_inline_json() {
    let patterns = builtin_patterns();
    let mut ctx = fresh();
    apply_sync(&patterns, &action_step(r#"I post with body {"a": 1}"#), &mut ctx, &Json::Null);
    assert!(same(ctx.request_body.as_ref().unwrap(), &json(r#"{"a":1}"#)));
}

#[test]
fn doc_string_on_when_step_sets_request_body() {
    let patterns = builtin_patterns();
    let mut s = action_step("I register");
    s.doc_string = Some(r#"{"email": "alice@example.com"}"#.to_string());
    let mut ctx = fresh();
    apply_sync(&patterns, &s, &mut ctx, &Json::Null);
    assert!(same(ctx.request_body.as_ref().unwrap(), &json(r#"{"email": "alice@example.com"}"#)));
}

#[test]
fn doc_string_on_then_step_sets_expected_body_not_request_body() {
    let patterns = builtin_patterns();
    let mut s = outcome_step("the response is");
    s.doc_string = Some(r#"{"id": 1, "name": "alice"}"#.to_string());
    let mut ctx = fresh();
    apply_sync(&patterns, &s, &mut ctx, &Json::Null);
    assert!(same(ctx.expected_body.as_ref().unwrap(), &json(r#"{"id": 1, "name": "alice"}"#)));
    assert!(ctx.request_body.is_none());
}

#[test]
fn empty_object_doc_string_around_status_keeps_status_assertion() {
    let patterns = builtin_patterns();
    let mut s = outcome_step("status should be 200");
    s.doc_string = Some("{}".to_string());
    let mut ctx = fresh();
    apply_sync(&patterns, &s, &mut ctx, &Json::Null);
    assert_eq!(ctx.expected_status, Some(StatusMatcher::Exact(200)));
    assert!(ctx.expected_body.is_none());
}

#[test]
fn empty_array_doc_string_still_sets_expected_body() {
    let patterns = builtin_patterns();
    let mut s = outcome_step("the list is");
    s.doc_string = Some("[]".to_string());
    let mut ctx = fresh();
    apply_sync(&patterns, &s, &mut ctx, &Json::Null);
    assert!(same(ctx.expected_body.as_ref().unwrap(), &json("[]")));
}

#[test]
fn doc_string_substitutes_placeholders_from_example_row() {
    let patterns = builtin_patterns();
    let mut s = action_step("I register");
    s.doc_string = Some(r#"{"email": "<email>"}"#.to_string());
    let example = json(r#"{"email": "bob@example.com"}"#);
    let mut ctx = fresh();
    apply_sync(&patterns, &s, &mut ctx, &example);
    assert!(same(ctx.request_body.as_ref().unwrap(), &json(r#"{"email": "bob@example.com"}"#)));
}

#[test]
fn doc_string_non_json_is_silently_ignored() {
    let patterns = builtin_patterns();
    let mut s = action_step("I register");
    s.doc_string = Some("not json at all".to_string());
    let mut ctx = fresh();
    apply_sync(&patterns, &s, &mut ctx, &Json::Null);
    assert!(ctx.request_body.is_none());
}

#[test]
fn body_cue_does_not_overwrite_existing_body() {
    let mut ctx = fresh();
    ctx.request_body = Some(json(r#"{"prior": true}"#));
    let s = action_step("send the request body");
    execute_sync_action(
        &Action::SetRequestBodyFromTextOrExampleData,
        "send the request body",
        &Vec::new(),
        &s,
        &mut ctx,
        &json(r#"{"email": "a@b.c"}"#),
    );
    assert!(same(ctx.request_body.as_ref().unwrap(), &json(r#"{"prior": true}"#)));
}

#[test]
fn assert_expected_status_in_range_and_match_group() {
    let pattern = StepPattern {
        regex: r"(?i)fails with:\s*(?P<msg>.+)".to_string(),
        keyword_type: Some(KeywordType::Outcome),
        actions: vec![
            Action::AssertExpectedStatusInRange { min: 400, max: 499 },
            Action::AssertBodyContainsFromMatchGroup { group: "msg".to_string() },
        ],
    };
    let patterns = vec![pattern];
    let mut ctx = fresh();
    apply_sync(&patterns, &outcome_step("the operation fails with: not found"), &mut ctx, &Json::Null);
    assert_eq!(ctx.expected_status, Some(StatusMatcher::Range { min: 400, max: 499 }));
    assert_eq!(ctx.expected_body_contains, vec!["not found".to_string()]);
}

#[test]
fn assert_body_matches_at_sets_expected_body_and_pointer() {
    let pattern = StepPattern {
        regex: r"(?i)the view returns".to_string(),
        keyword_type: Some(KeywordType::Outcome),
        actions: vec![Action::AssertBodyMatchesAt { pointer: "/users".to_string() }],
    };
    let mut patterns = builtin_patterns();
    patterns.push(pattern);
    let mut s = outcome_step("the view returns:");
    s.doc_string = Some(r#"[{"name": "Alice"}]"#.to_string());
    let mut ctx = fresh();
    apply_sync(&patterns, &s, &mut ctx, &Json::Null);
    assert!(same(ctx.expected_body.as_ref().unwrap(), &json(r#"[{"name": "Alice"}]"#)));
    assert_eq!(ctx.expected_body_pointer.as_deref(), Some("/users"));
}

#[test]
fn is_vacuous_expected_body_only_flags_empty_object() {
    assert!(is_vacuous_expected_body(&json("{}")));
    assert!(!is_vacuous_expected_body(&json(r#"{"a": 1}"#)));
    assert!(!is_vacuous_expected_body(&json("[]")));
    assert!(!is_vacuous_expected_body(&json("[1, 2]")));
    assert!(!is_vacuous_expected_body(&Json::Null));
    assert!(!is_vacuous_expected_body(&json("\"\"")));
    assert!(!is_vacuous_expected_body(&json("0")));
}

#[test]
fn substitute_placeholders_replaces_angle_bracket_keys() {
    let example = json(r#"{"email": "test@example.com", "password": "secret123"}"#);
    let out = substitute_placeholders("user <email> with password <password>", &example);
    assert_eq!(out, "user test@example.com with password secret123");
}

#[test]
fn substitute_placeholders_leaves_unknown_keys_intact() {
    let out = substitute_placeholders("hi <b>", &json(r#"{"a": 1}"#));
    assert_eq!(out, "hi <b>");
}

#[test]
fn substitute_placeholders_null_example_passes_through() {
    let out = substitute_placeholders("hello <name>", &Json::Null);
    assert_eq!(out, "hello <name>");
}

#[test]
fn substitute_placeholders_writes_numbers_bools_and_json() {
    let example = json(r#"{"n": 42, "b": true, "o": {"k": [1]}}"#);
    assert_eq!(substitute_placeholders("<n>/<b>/<o>", &example), r#"42/true/{"k":[1]}"#);
}

#[test]
fn endpoint_template_substitutes_named_groups() {
    let c = caps(r"^id=(?P<id>\w+)$", "id=alice");
    assert_eq!(substitute_template("/users/{{id}}", &c, &empty_vars()), "/users/alice");
    assert_eq!(substitute_template("/{{id}}/posts/{{id}}", &c, &empty_vars()), "/alice/posts/alice");
}

#[test]
fn endpoint_template_unknown_group_expands_to_empty() {
    let c = caps(r"^id=(?P<id>\w+)$", "id=alice");
    assert_eq!(substitute_template("/users/{{missing}}", &c, &empty_vars()), "/users/");
}

#[test]
fn endpoint_template_no_placeholders_passes_through() {
    let c = caps(r"^foo$", "foo");
    assert_eq!(substitute_template("/static/path", &c, &empty_vars()), "/static/path");
}

#[test]
fn template_substitutes_scenario_variable() {
    let c = caps(r"^x$", "x");
    let vars = vec![("user_id".to_string(), Json::Str("u-123".to_string()))];
    assert_eq!(substitute_template("/users/{{$user_id}}", &c, &vars), "/users/u-123");
}

#[test]
fn template_unknown_variable_expands_to_empty() {
    let c = caps(r"^x$", "x");
    assert_eq!(substitute_template("/auth/{{$missing}}", &c, &empty_vars()), "/auth/");
}

#[test]
fn template_variable_and_capture_in_same_string() {
    let c = caps(r"^id=(?P<id>\w+)$", "id=alice");
    let vars = vec![("tenant".to_string(), Json::Str("acme".to_string()))];
    assert_eq!(substitute_template("/{{$tenant}}/users/{{id}}", &c, &vars), "/acme/users/alice");
}

#[test]
fn template_non_string_variable_is_written_as_json() {
    let c = caps(r"^x$", "x");
    let vars = vec![("n".to_string(), json("7")), ("o".to_string(), json(r#"{"a":true}"#))];
    assert_eq!(substitute_template("{{$n}}-{{$o}}-{{{n}}}", &c, &vars), r#"7-{"a":true}-{}"#);
}

#[test]
fn template_nested_placeholders_resolve_innermost_first() {
    let c = caps(r#"stream "(?P<stream>[^"]+)""#, r#"stream "acc-001""#);
    let vars = vec![("user_for_acc-001".to_string(), Json::Str("019e1f4d-3c69".to_string()))];
    assert_eq!(
        substitute_template("/users/delete/{{$user_for_{{stream}}}}", &c, &vars),
        "/users/delete/019e1f4d-3c69"
    );
    let vars = vec![
        ("team_stream".to_string(), Json::Str("team-001".to_string())),
        ("team_for_team-001".to_string(), Json::Str("019e1f49-team".to_string())),
    ];
    assert_eq!(substitute_template("{{$team_for_{{$team_stream}}}}", &c, &vars), "019e1f49-team");
}

#[test]
fn template_names_may_hold_any_non_brace_characters() {
    let c = caps(r"^x$", "x");
    let vars = vec![("a-b.c d".to_string(), Json::Str("ok".to_string()))];
    assert_eq!(substitute_template("[{{$a-b.c d}}]", &c, &vars), "[ok]");
    assert_eq!(substitute_template("{{}}", &c, &vars), "{{}}");
}

#[test]
fn template_that_expands_to_itself_stops() {
    let c = caps(r"^x$", "x");
    let vars = vec![("x".to_string(), Json::Str("{{$x}}".to_string()))];
    assert_eq!(substitute_template("{{$x}}", &c, &vars), "{{$x}}");
    let vars = vec![("y".to_string(), Json::Str("<{{$y}}>".to_string()))];
    assert_eq!(substitute_template("{{$y}}", &c, &vars), "<<<<<<<<{{$y}}>>>>>>>>");
}

#[test]
fn doc_string_template_fields_expand_variables() {
    let c = caps(r"^x$", "x");
    let vars = vec![("team".to_string(), Json::Str("t-1".to_string()))];
    let src = ValueSource::DocStringTemplate {
        rename: vec![],
        defaults: json(r#"{"kind": "{{$team}}-default", "n": 1}"#),
        overrides: json(r#"{"team_id": "{{$team}}"}"#),
    };
    let mut step = action_step("");
    step.doc_string = Some(r#"{"name": "Alice"}"#.to_string());
    let r = resolve_value_source(&src, &step, &c, &vars).expect("object doc string");
    assert_eq!(render_json(&r), r#"{"kind":"t-1-default","n":1,"name":"Alice","team_id":"t-1"}"#);
}

#[test]
fn value_source_match_group_resolves() {
    let c = caps(r"name=(?P<name>\w+)", "name=bob");
    let r = resolve_value_source(&ValueSource::MatchGroup("name".to_string()), &action_step(""), &c, &empty_vars());
    assert!(same(&r.unwrap(), &Json::Str("bob".to_string())));
}

#[test]
fn value_source_match_group_missing_resolves_to_none() {
    let c = caps(r"x", "x");
    let r = resolve_value_source(&ValueSource::MatchGroup("nope".to_string()), &action_step(""), &c, &empty_vars());
    assert!(r.is_none());
}

#[test]
fn value_source_doc_string_parses_json() {
    let c = caps(r"x", "x");
    let mut s = action_step("");
    s.doc_string = Some(r#"{"a":1}"#.to_string());
    let r = resolve_value_source(&ValueSource::DocString, &s, &c, &empty_vars());
    assert!(same(&r.unwrap(), &json(r#"{"a": 1}"#)));
}

#[test]
fn value_source_doc_string_falls_back_to_string_on_invalid_json() {
    let c = caps(r"x", "x");
    let mut s = action_step("");
    s.doc_string = Some("not json".to_string());
    let r = resolve_value_source(&ValueSource::DocString, &s, &c, &empty_vars());
    assert!(same(&r.unwrap(), &Json::Str("not json".to_string())));
}

#[test]
fn value_source_literal_clones() {
    let c = caps(r"x", "x");
    let v = json(r#"{"hardcoded": true}"#);
    let r = resolve_value_source(&ValueSource::Literal(json(r#"{"hardcoded": true}"#)), &action_step(""), &c, &empty_vars());
    assert!(same(&r.unwrap(), &v));
}

#[test]
fn value_source_variable_resolves_when_present() {
    let c = caps(r"x", "x");
    let vars = vec![("token".to_string(), Json::Str("abc.def".to_string()))];
    let r = resolve_value_source(&ValueSource::Variable("token".to_string()), &action_step(""), &c, &vars);
    assert!(same(&r.unwrap(), &Json::Str("abc.def".to_string())));
}

#[test]
fn value_source_variable_missing_resolves_to_none() {
    let c = caps(r"x", "x");
    let r = resolve_value_source(&ValueSource::Variable("nope".to_string()), &action_step(""), &c, &empty_vars());
    assert!(r.is_none());
}

fn template(doc: Option<&str>, rename: Vec<(&str, &str)>, defaults: Json, overrides: Json) -> Option<Json> {
    let c = caps(r"x", "x");
    let mut s = action_step("");
    s.doc_string = doc.map(|d| d.to_string());
    let rename = rename.into_iter().map(|(a, b)| (a.to_string(), b.to_string())).collect();
    resolve_value_source(&ValueSource::DocStringTemplate { rename, defaults, overrides }, &s, &c, &empty_vars())
}

#[test]
fn doc_string_template_renames_keys() {
    let r = template(Some(r#"{"username": "coach_wang", "password": "p"}"#), vec![("username", "account")], Json::Null, Json::Null);
    assert!(same(&r.unwrap(), &json(r#"{"account": "coach_wang", "password": "p"}"#)));
}

#[test]
fn doc_string_template_fills_missing_fields_from_defaults() {
    let r = template(
        Some(r#"{"name": "王教練", "password": "p"}"#),
        vec![],
        json(r#"{"organization": "v2-dogfood", "position": "coach", "roles": ["user_full"]}"#),
        Json::Null,
    );
    assert!(same(
        &r.unwrap(),
        &json(r#"{"name": "王教練", "password": "p", "organization": "v2-dogfood", "position": "coach", "roles": ["user_full"]}"#)
    ));
}

#[test]
fn doc_string_template_doc_string_overrides_defaults() {
    let r = template(Some(r#"{"position": "captain"}"#), vec![], json(r#"{"position": "coach"}"#), Json::Null);
    assert!(same(&r.unwrap(), &json(r#"{"position": "captain"}"#)));
}

#[test]
fn doc_string_template_rename_and_defaults_compose() {
    let r = template(
        Some(r#"{"name": "王教練", "remark": "U12", "password": "p", "username": "coach_wang"}"#),
        vec![("username", "account")],
        json(r#"{"organization": "v2-dogfood", "position": "coach", "roles": ["user_full"]}"#),
        Json::Null,
    );
    assert!(same(
        &r.unwrap(),
        &json(r#"{"account": "coach_wang", "name": "王教練", "remark": "U12", "password": "p", "organization": "v2-dogfood", "position": "coach", "roles": ["user_full"]}"#)
    ));
}

#[test]
fn doc_string_template_no_doc_string_resolves_to_none() {
    assert!(template(None, vec![], json(r#"{"a": 1}"#), Json::Null).is_none());
}

#[test]
fn doc_string_template_invalid_json_resolves_to_none() {
    assert!(template(Some("not json at all"), vec![], Json::Null, Json::Null).is_none());
}

#[test]
fn doc_string_template_overrides_win_over_doc_string() {
    let r = template(Some(r#"{"password": "pass1234", "username": "coach"}"#), vec![], Json::Null, json(r#"{"password": "Pass12345!"}"#));
    assert!(same(&r.unwrap(), &json(r#"{"password": "Pass12345!", "username": "coach"}"#)));
}

#[test]
fn doc_string_template_overrides_win_over_defaults() {
    let r = template(Some(r#"{"name": "Alice"}"#), vec![], json(r#"{"role": "user"}"#), json(r#"{"role": "admin"}"#));
    assert!(same(&r.unwrap(), &json(r#"{"name": "Alice", "role": "admin"}"#)));
}

#[test]
fn doc_string_template_overrides_compose_with_rename_and_defaults() {
    let r = template(
        Some(r#"{"username": "coach_wang", "password": "pass1234"}"#),
        vec![("username", "account")],
        json(r#"{"placeholder": true}"#),
        json(r#"{"password": "Pass12345!"}"#),
    );
    assert!(same(&r.unwrap(), &json(r#"{"account": "coach_wang", "password": "Pass12345!", "placeholder": true}"#)));
}

#[test]
fn doc_string_template_non_object_overrides_ignored() {
    let r = template(Some(r#"{"a": 1}"#), vec![], Json::Null, json(r#""not an object""#));
    assert!(same(&r.unwrap(), &json(r#"{"a": 1}"#)));
}

#[test]
fn doc_string_template_non_object_doc_string_resolves_to_none() {
    assert!(template(Some("[1, 2, 3]"), vec![], Json::Null, Json::Null).is_none());
}

#[test]
fn doc_template_direct_call_keeps_insertion_order() {
    let doc = vec![("b".to_string(), json("1")), ("a".to_string(), json("2"))];
    let rename = vec![("b".to_string(), "c".to_string())];
    let out = apply_doc_string_template(&doc, &rename, &json(r#"{"z": 0}"#), &Json::Null);
    match out {
        Json::Object(entries) => {
            let keys: Vec<&str> = entries.iter().map(|(k, _)| k.as_str()).collect();
            assert_eq!(keys, vec!["z", "c", "a"]);
        }
        _ => panic!("object expected"),
    }
}

#[test]
fn scans_find_status_quote_and_word_pairs() {
    assert_eq!(scan_status_code("code 201 returned"), Some(201));
    assert_eq!(scan_status_code("returns 99 then 700"), None);
    assert_eq!(scan_first_quoted("say 'hi' and \"x\""), Some("hi".to_string()));
    assert_eq!(scan_first_quoted("unterminated \"quote"), None);
    let mut bucket = vec![("k".to_string(), "old".to_string())];
    word_scan_pair("set header k \"new\"", &vec!["header".to_string()], &mut bucket);
    assert_eq!(bucket, vec![("k".to_string(), "new".to_string())]);
    word_scan_pair("no anchor here", &vec!["header".to_string()], &mut bucket);
    assert_eq!(bucket.len(), 1);
}

#[test]
fn load_from_file_rejects_invalid_regex() {
    let err = build_pattern("(unclosed".to_string(), None, vec![Action::AssertBodyMatches]).unwrap_err();
    assert!(err.to_text().contains("invalid regex"), "{}", err.to_text());
}

#[test]
fn load_from_file_rejects_invalid_keyword_type() {
    let err = build_pattern("^x".to_string(), Some("Whenever".to_string()), vec![Action::AssertBodyMatches]).unwrap_err();
    assert_eq!(
        err.to_text(),
        "spec error: invalid keyword_type \"Whenever\" (expected Context / Action / Outcome)"
    );
}

#[test]
fn load_from_file_rejects_empty_actions() {
    let err = build_pattern("^x".to_string(), None, vec![]).unwrap_err();
    assert!(err.to_text().contains("at least one action"));
}

#[test]
fn load_from_file_parses_valid_pattern() {
    let p = build_pattern(r"(?i)^I log in$".to_string(), Some("Action".to_string()), vec![Action::AssertStatusFromTextScan]).unwrap();
    assert_eq!(p.keyword_type, Some(KeywordType::Action));
    assert_eq!(p.actions.len(), 1);
}

#[test]
fn keyword_types_read_from_text() {
    assert_eq!(KeywordType::from_str("Context"), Some(KeywordType::Context));
    assert_eq!(KeywordType::from_str("Outcome"), Some(KeywordType::Outcome));
    assert_eq!(KeywordType::from_str("context"), None);
}

fn user_pattern(regex: &str, actions: Vec<Action>) -> StepPattern {
    StepPattern { regex: regex.to_string(), keyword_type: Some(KeywordType::Outcome), actions }
}

#[test]
fn empty_object_doc_string_on_then_does_not_set_expected_body() {
    let patterns = builtin_patterns();
    let mut step = outcome_step("the response is");
    step.doc_string = Some("{}".to_string());
    let mut ctx = fresh();
    apply_sync(&patterns, &step, &mut ctx, &Json::Null);
    assert!(ctx.expected_body.is_none(), "empty object doc-string should leave expected_body unset; got {:?}", ctx.expected_body);
}

#[test]
fn assert_body_matches_at_overwrites_builtin_body_match() {
    let mut patterns = builtin_patterns();
    patterns.push(user_pattern(r"(?i)the view returns", vec![Action::AssertBodyMatchesAt { pointer: "/users".to_string() }]));
    let mut step = outcome_step("the view returns");
    step.doc_string = Some(r#"[{"name": "Alice"}]"#.to_string());
    let mut ctx = fresh();
    apply_sync(&patterns, &step, &mut ctx, &Json::Null);
    assert!(same(ctx.expected_body.as_ref().unwrap(), &json(r#"[{"name": "Alice"}]"#)));
    assert_eq!(ctx.expected_body_pointer.as_deref(), Some("/users"));
}

#[test]
fn assert_body_matches_at_empty_object_doc_string_skipped() {
    let patterns = vec![user_pattern(r"(?i)the view returns", vec![Action::AssertBodyMatchesAt { pointer: "/users".to_string() }])];
    let mut step = outcome_step("the view returns");
    step.doc_string = Some("{}".to_string());
    let mut ctx = fresh();
    apply_sync(&patterns, &step, &mut ctx, &Json::Null);
    assert!(ctx.expected_body.is_none());
    assert!(ctx.expected_body_pointer.is_none());
}

#[test]
fn no_doc_string_means_doc_actions_no_op() {
    let patterns = builtin_patterns();
    let step = outcome_step("status should be 200");
    let mut ctx = fresh();
    apply_sync(&patterns, &step, &mut ctx, &Json::Null);
    assert_eq!(ctx.expected_status, Some(StatusMatcher::Exact(200)));
    assert!(ctx.expected_body.is_none());
}

#[test]
fn assert_expected_status_in_range_sets_matcher() {
    let patterns = vec![user_pattern(r"^", vec![Action::AssertExpectedStatusInRange { min: 400, max: 499 }])];
    let step = outcome_step("the operation fails with: bad request");
    let mut ctx = fresh();
    apply_sync(&patterns, &step, &mut ctx, &Json::Null);
    assert_eq!(ctx.expected_status, Some(StatusMatcher::Range { min: 400, max: 499 }));
}

#[test]
fn assert_body_contains_from_match_group_captures() {
    let patterns = vec![user_pattern(r"(?i)fails with:\s*(?P<msg>.+)", vec![Action::AssertBodyContainsFromMatchGroup { group: "msg".to_string() }])];
    let step = outcome_step("the operation fails with: 帳號名稱已存在");
    let mut ctx = fresh();
    apply_sync(&patterns, &step, &mut ctx, &Json::Null);
    assert_eq!(ctx.expected_body_contains, vec!["帳號名稱已存在".to_string()]);
}

#[test]
fn multi_action_pattern_fires_each_action_in_order() {
    let patterns = vec![user_pattern(
        r"(?i)the operation fails with:\s*(?P<msg>.+)",
        vec![
            Action::AssertExpectedStatusInRange { min: 400, max: 499 },
            Action::AssertBodyContainsFromMatchGroup { group: "msg".to_string() },
        ],
    )];
    let step = outcome_step("the operation fails with: not found");
    let mut ctx = fresh();
    apply_sync(&patterns, &step, &mut ctx, &Json::Null);
    assert_eq!(ctx.expected_status, Some(StatusMatcher::Range { min: 400, max: 499 }));
    assert_eq!(ctx.expected_body_contains, vec!["not found".to_string()]);
}
