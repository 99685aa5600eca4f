//! Running one parsed scenario against an HTTP target.
//!
//! The runner works example row by example row. Each row is a
//! [`ScenarioContext`] filled step by step by the pattern engine
//! ([`crate::patterns`]); the requests the steps ask for, and the
//! implicit request driven by the API's endpoint and method when no
//! step fired one, are sent by the caller, which hands the responses
//! back (see [`ExampleRun`]). At the end of a row the last response
//! is validated against the assertions the steps set.
//!
//! Assertion failures are `pass: false` on a [`TestResult`], never an
//! `Err`; `Err` is kept for bad input and transport failures.
use vstd::prelude::*;

use crate::error::{error_text, Error};
use crate::gherkin::{obj_set, obj_set_exec, table_view, ExampleV, ParsedExample, ParsedScenario, ParsedStep};
use crate::patterns::{
    substitute, substitute_placeholders, expand_template, groups_view, resolve_value_source, substitute_template, value_source_result,
    Group, GroupV, ValueSource,
};
use crate::json::{
    is_vacuous, json_clone, json_contains, json_entries_view, json_matches, json_parse,
    json_pointer, json_render, json_at, json_seq_view, lemma_json_entries_view, lemma_json_seq_view, obj_lookup, opt_json_view,
    parse_json, render_json, splice_string, splice_text, Json, JsonV,
};
use crate::text::{contains, str_contains, strs_view};
use crate::textops::{
    decimal, decimal_string, replace_all, replace_str, to_upper, trim_end_char,
    trim_end_char_str, uppercase,
};

verus! {

/// The API endpoint and HTTP method a scenario targets.
#[derive(Debug)]
pub struct ApiSpec {
    pub endpoint: String,
    pub http_method: String,
}

/// The target server.
#[derive(Debug)]
pub struct EnvSpec {
    pub base_url: String,
}

/// How a run is configured.
#[derive(Debug)]
pub struct TestConfig {
    /// Per-request timeout, in seconds.
    pub timeout_secs: u64,
    pub auth_token: Option<String>,
    /// Headers sent with every request, in order.
    pub custom_headers: Vec<(String, String)>,
    /// When `false` (strict mode, the default) a row that sets no
    /// assertion at all fails.
    pub allow_no_assertions: bool,
}

/// The timeout a run uses unless told otherwise.
pub const DEFAULT_TIMEOUT_SECS: u64 = 30;

impl TestConfig {
    /// Strict mode, no token, no extra headers, a 30 second timeout.
    pub fn new() -> (c: TestConfig)
        ensures
            c.timeout_secs == DEFAULT_TIMEOUT_SECS,
            c.auth_token is None,
            c.custom_headers@.len() == 0,
            !c.allow_no_assertions,
    {
        TestConfig {
            timeout_secs: DEFAULT_TIMEOUT_SECS,
            auth_token: None,
            custom_headers: Vec::new(),
            allow_no_assertions: false,
        }
    }
}

/// How a row asserts the response status.
#[derive(Debug, Clone, Copy, PartialEq, Eq, Structural)]
pub enum StatusMatcher {
    /// The status must equal `n`.
    Exact(i16),
    /// The status must lie in `[min, max]`.
    Range { min: i16, max: i16 },
}

/// Whether `m` accepts `status`.
pub open spec fn matcher_accepts(m: StatusMatcher, status: i16) -> bool {
    match m {
        StatusMatcher::Exact(s) => s == status,
        StatusMatcher::Range { min, max } => min <= status && status <= max,
    }
}

/// How a matcher is written in messages: `200` or `400..=499`.
pub open spec fn matcher_text(m: StatusMatcher) -> Seq<char> {
    match m {
        StatusMatcher::Exact(s) => decimal(s as int),
        StatusMatcher::Range { min, max } => decimal(min as int) + "..="@ + decimal(max as int),
    }
}

impl StatusMatcher {
    /// Whether the matcher accepts `status`.
    pub fn matches(&self, status: i16) -> (b: bool)
        ensures
            b == matcher_accepts(*self, status),
    {
        match self {
            StatusMatcher::Exact(s) => *s == status,
            StatusMatcher::Range { min, max } => *min <= status && status <= *max,
        }
    }

    /// The matcher as written in messages.
    pub fn describe(&self) -> (s: String)
        ensures
            s@ == matcher_text(*self),
    {
        match self {
            StatusMatcher::Exact(s) => decimal_string(*s as i128),
            StatusMatcher::Range { min, max } => {
                let mut t = decimal_string(*min as i128);
                t.append("..=");
                let hi = decimal_string(*max as i128);
                t.append(hi.as_str());
                t
            },
        }
    }
}

/// The outcome of one example row.
#[derive(Debug)]
pub struct TestResult {
    pub scenario_title: String,
    pub example_index: i32,
    pub pass: bool,
    pub error_message: Option<String>,
    pub response_status: i16,
    pub response_data: Option<Json>,
    pub request_duration_ms: i64,
    /// When the row started, in nanoseconds since the Unix epoch (UTC).
    pub request_time_ns: i128,
}

/// One HTTP exchange made while running a row.
#[derive(Debug)]
pub struct HttpResponse {
    pub method: String,
    pub url: String,
    pub status: i16,
    pub body: Json,
    pub duration_ms: i64,
}

/// The mathematical value of an [`HttpResponse`].
pub struct RespV {
    pub method: Seq<char>,
    pub url: Seq<char>,
    pub status: i16,
    pub body: JsonV,
    pub duration_ms: i64,
}

impl View for HttpResponse {
    type V = RespV;

    open spec fn view(&self) -> RespV {
        RespV {
            method: self.method@,
            url: self.url@,
            status: self.status,
            body: self.body@,
            duration_ms: self.duration_ms,
        }
    }
}

/// The characters of each key and value.
pub open spec fn pairs_view(v: Seq<(String, String)>) -> Seq<(Seq<char>, Seq<char>)> {
    v.map_values(|p: (String, String)| (p.0@, p.1@))
}

/// The view of an optional string.
pub open spec fn opt_str_view(o: Option<String>) -> Option<Seq<char>> {
    match o {
        Some(s) => Some(s@),
        None => None,
    }
}

/// The view of each value.
pub open spec fn jsons_view(v: Seq<Json>) -> Seq<JsonV> {
    v.map_values(|j: Json| j@)
}

/// The view of each response.
pub open spec fn resps_view(v: Seq<HttpResponse>) -> Seq<RespV> {
    v.map_values(|r: HttpResponse| r@)
}

/// The state a row builds up while its steps run.
#[derive(Debug)]
pub struct ScenarioContext {
    pub request_body: Option<Json>,
    pub request_headers: Vec<(String, String)>,
    pub query_params: Vec<(String, String)>,
    pub path_params: Vec<(String, String)>,
    pub expected_status: Option<StatusMatcher>,
    pub expected_body: Option<Json>,
    /// A JSON pointer scoping the `expected_body` match to a part of
    /// the response.
    pub expected_body_pointer: Option<String>,
    pub expected_body_contains: Vec<String>,
    /// The rows of a step's data table, as JSON.
    pub setup_data: Option<Vec<Json>>,
    /// Every response received so far, in order.
    pub responses: Vec<HttpResponse>,
    /// Values captured from responses, by name.
    pub variables: Vec<(String, Json)>,
}

/// The mathematical value of a [`ScenarioContext`].
pub struct CtxV {
    pub request_body: Option<JsonV>,
    pub request_headers: Seq<(Seq<char>, Seq<char>)>,
    pub query_params: Seq<(Seq<char>, Seq<char>)>,
    pub path_params: Seq<(Seq<char>, Seq<char>)>,
    pub expected_status: Option<StatusMatcher>,
    pub expected_body: Option<JsonV>,
    pub expected_body_pointer: Option<Seq<char>>,
    pub expected_body_contains: Seq<Seq<char>>,
    pub setup_data: Option<Seq<JsonV>>,
    pub responses: Seq<RespV>,
    pub variables: Seq<(Seq<char>, JsonV)>,
}

impl View for ScenarioContext {
    type V = CtxV;

    open spec fn view(&self) -> CtxV {
        CtxV {
            request_body: opt_json_view(self.request_body),
            request_headers: pairs_view(self.request_headers@),
            query_params: pairs_view(self.query_params@),
            path_params: pairs_view(self.path_params@),
            expected_status: self.expected_status,
            expected_body: opt_json_view(self.expected_body),
            expected_body_pointer: opt_str_view(self.expected_body_pointer),
            expected_body_contains: self.expected_body_contains@.map_values(|s: String| s@),
            setup_data: match self.setup_data {
                Some(v) => Some(jsons_view(v@)),
                None => None,
            },
            responses: resps_view(self.responses@),
            variables: json_entries_view(self.variables@),
        }
    }
}

/// The empty context a row starts from, with the row's expected status.
pub open spec fn fresh_ctx(status: Option<i16>) -> CtxV {
    CtxV {
        request_body: None,
        request_headers: seq![],
        query_params: seq![],
        path_params: seq![],
        expected_status: match status {
            Some(s) => Some(StatusMatcher::Exact(s)),
            None => None,
        },
        expected_body: None,
        expected_body_pointer: None,
        expected_body_contains: seq![],
        setup_data: None,
        responses: seq![],
        variables: seq![],
    }
}

impl ScenarioContext {
    /// An empty context whose expected status is the row's, if any.
    pub fn for_example(status: Option<i16>) -> (c: ScenarioContext)
        ensures
            c@ == fresh_ctx(status),
    {
        let c = ScenarioContext {
            request_body: None,
            request_headers: Vec::new(),
            query_params: Vec::new(),
            path_params: Vec::new(),
            expected_status: match status {
                Some(s) => Some(StatusMatcher::Exact(s)),
                None => None,
            },
            expected_body: None,
            expected_body_pointer: None,
            expected_body_contains: Vec::new(),
            setup_data: None,
            responses: Vec::new(),
            variables: Vec::new(),
        };
        proof {
            lemma_json_entries_view(c.variables@);
            assert(c@.request_headers =~= seq![]);
            assert(c@.query_params =~= seq![]);
            assert(c@.path_params =~= seq![]);
            assert(c@.expected_body_contains =~= seq![]);
            assert(c@.responses =~= seq![]);
            assert(c@.variables =~= seq![]);
        }
        c
    }
}

/// At least one assertion is set.
pub open spec fn has_assertion(c: CtxV) -> bool {
    c.expected_status is Some || c.expected_body is Some || c.expected_body_contains.len() > 0
}

/// True when the context has at least one assertion set.
pub fn has_any_assertion(context: &ScenarioContext) -> (b: bool)
    ensures
        b == has_assertion(context@),
{
    context.expected_status.is_some() || context.expected_body.is_some()
        || context.expected_body_contains.len() > 0
}

/// The message of a strict-mode failure.
pub open spec fn no_assertion_message() -> Seq<char> {
    "scenario ran without setting any assertion; pass `--allow-no-assertions` to override or add a pattern that fires `AssertExpectedStatusInRange` / `AssertBodyContains*` / `AssertBodyMatches`"@
}

/// The first expected substring, from `k` on, missing from `text`.
pub open spec fn first_missing(pats: Seq<Seq<char>>, text: Seq<char>, k: int) -> Option<Seq<char>>
    decreases pats.len() - k,
{
    if k < 0 || k >= pats.len() {
        None
    } else if !contains(text, pats[k]) {
        Some(pats[k])
    } else {
        first_missing(pats, text, k + 1)
    }
}

/// The message when an expected body does not match.
pub open spec fn mismatch_message(expected: JsonV, got: JsonV) -> Seq<char> {
    "Response body does not match expected. Expected: "@ + json_render(expected) + ", Got: "@
        + json_render(got)
}

/// The deep match of the expected body, scoped by the pointer when set.
pub open spec fn body_check(body: JsonV, expected: JsonV, pointer: Option<Seq<char>>) -> Result<
    (),
    Seq<char>,
> {
    match pointer {
        Some(p) => match json_pointer(body, p) {
            Some(sub) => if json_matches(sub, expected) {
                Ok(())
            } else {
                Err(mismatch_message(expected, sub))
            },
            None => Err("Pointer "@ + p + " resolved to nothing"@),
        },
        None => if json_matches(body, expected) {
            Ok(())
        } else {
            Err(mismatch_message(expected, body))
        },
    }
}

/// What validating a response yields: the first failed check, in the
/// order strict mode, status, expected substrings, expected body.
pub open spec fn validation(allow_no_assertions: bool, status: i16, body: JsonV, c: CtxV) -> Result<
    (),
    Seq<char>,
> {
    if !allow_no_assertions && !has_assertion(c) {
        Err(no_assertion_message())
    } else if c.expected_status is Some && !matcher_accepts(c.expected_status->0, status) {
        Err("Expected status "@ + matcher_text(c.expected_status->0) + ", got "@ + decimal(
            status as int,
        ))
    } else if first_missing(c.expected_body_contains, json_render(body), 0) is Some {
        Err("Response body does not contain expected pattern: "@ + first_missing(
            c.expected_body_contains,
            json_render(body),
            0,
        )->0)
    } else {
        match c.expected_body {
            Some(e) => if e is Null {
                Ok(())
            } else {
                body_check(body, e, c.expected_body_pointer)
            },
            None => Ok(()),
        }
    }
}

/// The view of a validation outcome.
pub open spec fn unit_result_view(r: Result<(), String>) -> Result<(), Seq<char>> {
    match r {
        Ok(_) => Ok(()),
        Err(m) => Err(m@),
    }
}

/// Checks the deep match of `expected` against `body` (see [`body_check`]).
fn check_body(body: &Json, expected: &Json, pointer: &Option<String>) -> (r: Result<(), String>)
    ensures
        unit_result_view(r) == body_check(body@, expected@, opt_str_view(*pointer)),
{
    match pointer {
        Some(p) => match json_at(body, p.as_str()) {
            Some(sub) => {
                if json_contains(&sub, expected) {
                    Ok(())
                } else {
                    Err(mismatch_text(expected, &sub))
                }
            },
            None => {
                let mut m = String::from_str("Pointer ");
                m.append(p.as_str());
                m.append(" resolved to nothing");
                Err(m)
            },
        },
        None => {
            if json_contains(body, expected) {
                Ok(())
            } else {
                Err(mismatch_text(expected, body))
            }
        },
    }
}

fn mismatch_text(expected: &Json, got: &Json) -> (s: String)
    ensures
        s@ == mismatch_message(expected@, got@),
{
    let mut m = String::from_str("Response body does not match expected. Expected: ");
    let e = render_json(expected);
    m.append(e.as_str());
    m.append(", Got: ");
    let g = render_json(got);
    m.append(g.as_str());
    m
}

/// Validates a response against the row's assertions (see [`validation`]).
pub fn validate_response(config: &TestConfig, status: i16, body: &Json, context: &ScenarioContext) -> (r: Result<(), String>)
    ensures
        unit_result_view(r) == validation(config.allow_no_assertions, status, body@, context@),
{
    if !config.allow_no_assertions && !has_any_assertion(context) {
        let m = String::from_str(
            "scenario ran without setting any assertion; pass `--allow-no-assertions` to override or add a pattern that fires `AssertExpectedStatusInRange` / `AssertBodyContains*` / `AssertBodyMatches`",
        );
        return Err(m);
    }
    match &context.expected_status {
        Some(expected) => {
            if !expected.matches(status) {
                let mut m = String::from_str("Expected status ");
                let d = expected.describe();
                m.append(d.as_str());
                m.append(", got ");
                let s = decimal_string(status as i128);
                m.append(s.as_str());
                return Err(m);
            }
        },
        None => {},
    }
    let body_str = render_json(body);
    let ghost pats = context@.expected_body_contains;
    let mut k: usize = 0;
    while k < context.expected_body_contains.len()
        invariant
            k <= context.expected_body_contains.len(),
            pats == context@.expected_body_contains,
            pats.len() == context.expected_body_contains@.len(),
            body_str@ == json_render(body@),
            first_missing(pats, body_str@, 0) == first_missing(pats, body_str@, k as int),
            !(!config.allow_no_assertions && !has_assertion(context@)),
            context@.expected_status is Some ==> matcher_accepts(
                context@.expected_status->0,
                status,
            ),
        decreases context.expected_body_contains.len() - k,
    {
        let pattern = &context.expected_body_contains[k];
        assert(pats[k as int] == pattern@);
        if !str_contains(body_str.as_str(), pattern.as_str()) {
            let mut m = String::from_str("Response body does not contain expected pattern: ");
            m.append(pattern.as_str());
            assert(first_missing(pats, body_str@, k as int) == Some(pattern@));
            return Err(m);
        }
        k += 1;
    }
    match &context.expected_body {
        Some(expected) => {
            if let Json::Null = expected {
                Ok(())
            } else {
                check_body(body, expected, &context.expected_body_pointer)
            }
        },
        None => Ok(()),
    }
}


// ---------- requests ----------

/// The HTTP methods the runner sends.
#[derive(Debug, Clone, Copy, PartialEq, Eq, Structural)]
pub enum HttpMethod {
    Get,
    Post,
    Put,
    Delete,
    Patch,
    Head,
    Options,
}

/// The method an upper-case method name names.
pub open spec fn method_named(u: Seq<char>) -> Option<HttpMethod> {
    if u == "GET"@ {
        Some(HttpMethod::Get)
    } else if u == "POST"@ {
        Some(HttpMethod::Post)
    } else if u == "PUT"@ {
        Some(HttpMethod::Put)
    } else if u == "DELETE"@ {
        Some(HttpMethod::Delete)
    } else if u == "PATCH"@ {
        Some(HttpMethod::Patch)
    } else if u == "HEAD"@ {
        Some(HttpMethod::Head)
    } else if u == "OPTIONS"@ {
        Some(HttpMethod::Options)
    } else {
        None
    }
}

/// The error for a method the runner does not send.
pub open spec fn is_unsupported_method(e: Error, method: Seq<char>) -> bool {
    e matches Error::Spec(m) && m@ == "Unsupported HTTP method: "@ + method
}

/// Reads an HTTP method name, case-insensitively.
pub fn parse_method(method: &str) -> (r: Result<HttpMethod, Error>)
    ensures
        match r {
            Ok(m) => method_named(uppercase(method@)) == Some(m),
            Err(e) => method_named(uppercase(method@)) is None && is_unsupported_method(e, method@),
        },
{
    let u = to_upper(method);
    let uv = crate::text::chars_of(u.as_str());
    proof {
        reveal_strlit("GET");
        reveal_strlit("POST");
        reveal_strlit("PUT");
        reveal_strlit("DELETE");
        reveal_strlit("PATCH");
        reveal_strlit("HEAD");
        reveal_strlit("OPTIONS");
    }
    if crate::text::chars_eq(&uv, &crate::text::chars_of("GET")) {
        Ok(HttpMethod::Get)
    } else if crate::text::chars_eq(&uv, &crate::text::chars_of("POST")) {
        Ok(HttpMethod::Post)
    } else if crate::text::chars_eq(&uv, &crate::text::chars_of("PUT")) {
        Ok(HttpMethod::Put)
    } else if crate::text::chars_eq(&uv, &crate::text::chars_of("DELETE")) {
        Ok(HttpMethod::Delete)
    } else if crate::text::chars_eq(&uv, &crate::text::chars_of("PATCH")) {
        Ok(HttpMethod::Patch)
    } else if crate::text::chars_eq(&uv, &crate::text::chars_of("HEAD")) {
        Ok(HttpMethod::Head)
    } else if crate::text::chars_eq(&uv, &crate::text::chars_of("OPTIONS")) {
        Ok(HttpMethod::Options)
    } else {
        let mut m = String::from_str("Unsupported HTTP method: ");
        m.append(method);
        Err(Error::Spec(m))
    }
}

/// A request for the caller to send.
#[derive(Debug)]
pub struct HttpPlan {
    pub method: HttpMethod,
    pub url: String,
    /// Headers in the order they are attached.
    pub headers: Vec<(String, String)>,
    /// The JSON body, if any.
    pub body: Option<Json>,
}

/// `base` without trailing slashes, followed by `endpoint`.
pub open spec fn target_url(base: Seq<char>, endpoint: Seq<char>) -> Seq<char> {
    trim_end_char(base, '/') + endpoint
}

/// Header values with their placeholders expanded.
pub open spec fn expand_headers(
    h: Seq<(Seq<char>, Seq<char>)>,
    caps: Seq<GroupV>,
    vars: Seq<(Seq<char>, JsonV)>,
) -> Seq<(Seq<char>, Seq<char>)> {
    h.map_values(|p: (Seq<char>, Seq<char>)| (p.0, expand_template(p.1, caps, vars)))
}

/// The body a pattern's request carries.
pub open spec fn pattern_body(
    body_from: Option<Box<ValueSource>>,
    doc: Option<Seq<char>>,
    caps: Seq<GroupV>,
    vars: Seq<(Seq<char>, JsonV)>,
) -> Option<JsonV> {
    match body_from {
        Some(src) => value_source_result(*src, doc, caps, vars),
        None => None,
    }
}

/// Builds the request an `HttpRequest` action fires: the expanded
/// endpoint under the base URL; the global headers, then the
/// context's, then the pattern's (expanded); the body from
/// `body_from`.
pub fn pattern_request(
    method: &String,
    endpoint_template: &String,
    body_from: &Option<Box<ValueSource>>,
    pattern_headers: &Vec<(String, String)>,
    captures: &Vec<Group>,
    step: &ParsedStep,
    context: &ScenarioContext,
    base_url: &str,
    global_headers: &Vec<(String, String)>,
) -> (r: Result<HttpPlan, Error>)
    ensures
        match r {
            Ok(p) => {
                &&& method_named(uppercase(method@)) == Some(p.method)
                &&& p.url@ == target_url(
                    base_url@,
                    expand_template(endpoint_template@, groups_view(captures@), context@.variables),
                )
                &&& pairs_view(p.headers@) == pairs_view(global_headers@) + context@.request_headers
                    + expand_headers(
                    pairs_view(pattern_headers@),
                    groups_view(captures@),
                    context@.variables,
                )
                &&& opt_json_view(p.body) == pattern_body(
                    *body_from,
                    step@.doc,
                    groups_view(captures@),
                    context@.variables,
                )
            },
            Err(e) => method_named(uppercase(method@)) is None && is_unsupported_method(e, method@),
        },
{
    let ghost caps = groups_view(captures@);
    let ghost vars = context@.variables;
    let endpoint = substitute_template(endpoint_template.as_str(), captures, &context.variables);
    let mut url = trim_end_char_str(base_url, '/');
    url.append(endpoint.as_str());
    let m = match parse_method(method.as_str()) {
        Ok(m) => m,
        Err(e) => {
            return Err(e);
        },
    };
    let mut headers: Vec<(String, String)> = Vec::new();
    assert(pairs_view(headers@) =~= seq![]);
    append_pairs(&mut headers, global_headers);
    append_pairs(&mut headers, &context.request_headers);
    let ghost before = pairs_view(headers@);
    let mut i: usize = 0;
    while i < pattern_headers.len()
        invariant
            i <= pattern_headers.len(),
            caps == groups_view(captures@),
            vars == context@.variables,
            vars == json_entries_view(context.variables@),
            pairs_view(headers@) == before + expand_headers(
                pairs_view(pattern_headers@).take(i as int),
                caps,
                vars,
            ),
        decreases pattern_headers.len() - i,
    {
        let v = substitute_template(pattern_headers[i].1.as_str(), captures, &context.variables);
        let ghost hv = pairs_view(headers@);
        let ghost vv = v@;
        headers.push((pattern_headers[i].0.clone(), v));
        assert(pairs_view(headers@) =~= hv.push((pattern_headers@[i as int].0@, vv)));
        assert(pairs_view(pattern_headers@)[i as int] == (
            pattern_headers@[i as int].0@,
            pattern_headers@[i as int].1@,
        ));
        assert(pairs_view(pattern_headers@).take(i + 1) =~= pairs_view(pattern_headers@).take(
            i as int,
        ).push(pairs_view(pattern_headers@)[i as int]));
        assert(pairs_view(headers@) =~= before + expand_headers(
            pairs_view(pattern_headers@).take(i + 1),
            caps,
            vars,
        ));
        i += 1;
    }
    assert(pairs_view(pattern_headers@).take(i as int) =~= pairs_view(pattern_headers@));
    let body = match body_from {
        Some(src) => resolve_value_source(src, step, captures, &context.variables),
        None => None,
    };
    Ok(HttpPlan { method: m, url, headers, body })
}

/// Appends copies of all of `src` to `dst`.
fn append_pairs(dst: &mut Vec<(String, String)>, src: &Vec<(String, String)>)
    ensures
        pairs_view(final(dst)@) == pairs_view(old(dst)@) + pairs_view(src@),
{
    let ghost d0 = pairs_view(dst@);
    let mut i: usize = 0;
    while i < src.len()
        invariant
            i <= src.len(),
            pairs_view(dst@) == d0 + pairs_view(src@).take(i as int),
        decreases src.len() - i,
    {
        let ghost pv = pairs_view(dst@);
        dst.push((src[i].0.clone(), src[i].1.clone()));
        assert(pairs_view(dst@) =~= pv.push((src@[i as int].0@, src@[i as int].1@)));
        assert(pairs_view(src@).take(i + 1) =~= pairs_view(src@).take(i as int).push(
            (src@[i as int].0@, src@[i as int].1@),
        ));
        assert(pairs_view(dst@) =~= d0 + pairs_view(src@).take(i + 1));
        i += 1;
    }
    assert(pairs_view(src@).take(i as int) =~= pairs_view(src@));
}

/// The variables after storing, for each `(name, pointer)` in turn,
/// the value the pointer selects in `body` (skipping those that select
/// nothing). A name is a template (see [`expand_template`]), expanded
/// from the captures and the variables stored so far, so that
/// `user_for_{{stream}}` keys a value by the step's stream id.
pub open spec fn capture_all(
    vars: Seq<(Seq<char>, JsonV)>,
    list: Seq<(Seq<char>, Seq<char>)>,
    body: JsonV,
    caps: Seq<GroupV>,
) -> Seq<(Seq<char>, JsonV)>
    decreases list.len(),
{
    if list.len() == 0 {
        vars
    } else {
        let next = match json_pointer(body, list[0].1) {
            Some(x) => obj_set(vars, expand_template(list[0].0, caps, vars), x),
            None => vars,
        };
        capture_all(next, list.drop_first(), body, caps)
    }
}

/// The variables after `doc_captures` reads the step's doc-string as
/// JSON (see [`capture_all`]); unchanged when there is no doc-string
/// or it is not JSON.
pub open spec fn doc_capture_all(
    vars: Seq<(Seq<char>, JsonV)>,
    doc: Option<Seq<char>>,
    list: Seq<(Seq<char>, Seq<char>)>,
    caps: Seq<GroupV>,
) -> Seq<(Seq<char>, JsonV)> {
    match doc {
        Some(d) => match json_parse(d) {
            Some(j) => capture_all(vars, list, j, caps),
            None => vars,
        },
        None => vars,
    }
}

/// Stores the values `list` selects in `body` (see [`capture_all`]).
fn capture_into(
    variables: &mut Vec<(String, Json)>,
    list: &Vec<(String, String)>,
    body: &Json,
    captures: &Vec<Group>,
)
    ensures
        json_entries_view(final(variables)@) == capture_all(
            json_entries_view(old(variables)@),
            pairs_view(list@),
            body@,
            groups_view(captures@),
        ),
{
    let ghost cv = pairs_view(list@);
    let ghost caps = groups_view(captures@);
    let ghost v0 = json_entries_view(variables@);
    let mut i: usize = 0;
    assert(cv.skip(0) =~= cv);
    while i < list.len()
        invariant
            i <= list.len(),
            cv == pairs_view(list@),
            caps == groups_view(captures@),
            capture_all(json_entries_view(variables@), cv.skip(i as int), body@, caps)
                == capture_all(v0, cv, body@, caps),
        decreases list.len() - i,
    {
        assert(cv.skip(i as int)[0] == cv[i as int]);
        assert(cv.skip(i as int).drop_first() =~= cv.skip(i + 1));
        match json_at(body, list[i].1.as_str()) {
            Some(val) => {
                let name = substitute_template(list[i].0.as_str(), captures, variables);
                obj_set_exec(variables, name, val);
            },
            None => {},
        }
        i += 1;
    }
    assert(cv.skip(i as int).len() == 0);
}

/// Stores the doc-string fields that `doc_captures` points at (see
/// [`doc_capture_all`]); done before an `HttpRequest` action builds its
/// request, so that its endpoint, headers and body can use them.
pub fn capture_doc_fields(
    context: &mut ScenarioContext,
    step: &ParsedStep,
    doc_captures: &Vec<(String, String)>,
    captures: &Vec<Group>,
)
    ensures
        final(context)@ == (CtxV {
            variables: doc_capture_all(
                old(context)@.variables,
                step@.doc,
                pairs_view(doc_captures@),
                groups_view(captures@),
            ),
            ..old(context)@
        }),
{
    match &step.doc_string {
        Some(d) => match parse_json(d.as_str()) {
            Some(j) => {
                capture_into(&mut context.variables, doc_captures, &j, captures);
            },
            None => {},
        },
        None => {},
    }
}

/// An empty list accepts every status.
pub open spec fn status_accepted(accepted: Seq<i16>, status: i16) -> bool {
    accepted.len() == 0 || accepted.contains(status)
}

/// `format!("{:?}", list)` of a list of integers: `[201, 409]`.
pub open spec fn i16_list_text(v: Seq<i16>) -> Seq<char> {
    "["@ + i16_items_text(v) + "]"@
}

/// The items of a list of integers separated by `", "`.
pub open spec fn i16_items_text(v: Seq<i16>) -> Seq<char>
    decreases v.len(),
{
    if v.len() == 0 {
        seq![]
    } else if v.len() == 1 {
        decimal(v[0] as int)
    } else {
        i16_items_text(v.drop_last()) + ", "@ + decimal(v.last() as int)
    }
}

/// The message when a response status is not in `accepted_status`.
pub open spec fn rejected_status_message(method: Seq<char>, url: Seq<char>, status: i16, accepted: Seq<i16>) -> Seq<char> {
    "HTTP "@ + method + " "@ + url + " returned status "@ + decimal(status as int)
        + ", not in accepted_status "@ + i16_list_text(accepted)
}

fn i16_list_string(v: &Vec<i16>) -> (s: String)
    ensures
        s@ == i16_list_text(v@),
{
    let mut items = String::new();
    let mut i: usize = 0;
    while i < v.len()
        invariant
            i <= v.len(),
            items@ == i16_items_text(v@.take(i as int)),
        decreases v.len() - i,
    {
        let d = decimal_string(v[i] as i128);
        if i > 0 {
            items.append(", ");
        }
        items.append(d.as_str());
        proof {
            assert(v@.take(i + 1).drop_last() =~= v@.take(i as int));
            if i == 0 {
                assert(items@ =~= decimal(v@[0] as int));
            }
        }
        i += 1;
    }
    assert(v@.take(i as int) =~= v@);
    let mut s = String::from_str("[");
    s.append(items.as_str());
    s.append("]");
    s
}

/// Records the response to a pattern's request: captures variables,
/// appends the response, and fails when the status is not accepted.
pub fn record_http_response(
    context: &mut ScenarioContext,
    method: &String,
    url: &String,
    status: i16,
    body: Json,
    duration_ms: i64,
    capture_response: &Vec<(String, String)>,
    accepted_status: &Vec<i16>,
    captures: &Vec<Group>,
) -> (r: Result<(), Error>)
    ensures
        final(context)@ == (CtxV {
            variables: capture_all(
                old(context)@.variables,
                pairs_view(capture_response@),
                body@,
                groups_view(captures@),
            ),
            responses: old(context)@.responses.push(
                RespV { method: method@, url: url@, status, body: body@, duration_ms },
            ),
            ..old(context)@
        }),
        match r {
            Ok(_) => status_accepted(accepted_status@, status),
            Err(e) => !status_accepted(accepted_status@, status) && (e matches Error::Spec(m)
                && m@ == rejected_status_message(method@, url@, status, accepted_status@)),
        },
{
    let accepted = accepted_status.len() == 0 || vec_has_i16(accepted_status, status);
    capture_into(&mut context.variables, capture_response, &body, captures);
    let ghost bv = body@;
    let resp = HttpResponse { method: method.clone(), url: url.clone(), status, body, duration_ms };
    context.responses.push(resp);
    assert(resps_view(context.responses@) =~= resps_view(old(context).responses@).push(
        RespV { method: method@, url: url@, status, body: bv, duration_ms },
    ));
    if !accepted {
        let mut m = String::from_str("HTTP ");
        m.append(method.as_str());
        m.append(" ");
        m.append(url.as_str());
        m.append(" returned status ");
        let d = decimal_string(status as i128);
        m.append(d.as_str());
        m.append(", not in accepted_status ");
        let l = i16_list_string(accepted_status);
        m.append(l.as_str());
        return Err(Error::Spec(m));
    }
    Ok(())
}

fn vec_has_i16(v: &Vec<i16>, x: i16) -> (b: bool)
    ensures
        b == v@.contains(x),
{
    let mut i: usize = 0;
    while i < v.len()
        invariant
            i <= v.len(),
            forall|k: int| 0 <= k < i ==> v@[k] != x,
        decreases v.len() - i,
    {
        if v[i] == x {
            assert(v@[i as int] == x);
            return true;
        }
        i += 1;
    }
    false
}


// ---------- the implicit request ----------

/// The example-row columns that describe expectations, not request fields.
pub open spec fn is_status_key(k: Seq<char>) -> bool {
    k == "expected_status"@ || k == "expected_status_code"@ || k == "expected_response_body"@
}

/// The entries without the expectation columns.
pub open spec fn strip_status_keys(e: Seq<(Seq<char>, JsonV)>) -> Seq<(Seq<char>, JsonV)>
    decreases e.len(),
{
    if e.len() == 0 {
        e
    } else if is_status_key(e.last().0) {
        strip_status_keys(e.drop_last())
    } else {
        strip_status_keys(e.drop_last()).push(e.last())
    }
}

/// The body of the implicit request: the context's body with the
/// row's placeholders substituted in its JSON text (nothing when the
/// result does not parse), or else the row itself, when it is an
/// object, without its expectation columns.
pub open spec fn request_body(c: CtxV, ex: JsonV) -> Option<JsonV> {
    match c.request_body {
        Some(b) => json_parse(substitute(json_render(b), ex)),
        None => match ex {
            JsonV::Object(e) => Some(JsonV::Object(strip_status_keys(e))),
            _ => None,
        },
    }
}

/// Builds the implicit request's body (see [`request_body`]).
pub fn build_request_body(context: &ScenarioContext, example_data: &Json) -> (r: Option<Json>)
    ensures
        opt_json_view(r) == request_body(context@, example_data@),
{
    match &context.request_body {
        Some(body) => {
            let body_str = render_json(body);
            let substituted = substitute_placeholders(body_str.as_str(), example_data);
            parse_json(substituted.as_str())
        },
        None => match example_data {
            Json::Object(entries) => {
                let ghost ev = json_entries_view(entries@);
                proof {
                    lemma_json_entries_view(entries@);
                    reveal_strlit("expected_status");
                    reveal_strlit("expected_status_code");
                    reveal_strlit("expected_response_body");
                }
                let k1 = crate::text::chars_of("expected_status");
                let k2 = crate::text::chars_of("expected_status_code");
                let k3 = crate::text::chars_of("expected_response_body");
                let mut out: Vec<(String, Json)> = Vec::new();
                let mut i: usize = 0;
                proof {
                    lemma_json_entries_view(out@);
                    assert(ev.take(0) =~= seq![]);
                }
                while i < entries.len()
                    invariant
                        i <= entries.len(),
                        ev == json_entries_view(entries@),
                        ev.len() == entries.len(),
                        forall|k: int| 0 <= k < entries.len() ==> #[trigger] ev[k] == (entries@[k].0@, entries@[k].1@),
                        k1@ == "expected_status"@,
                        k2@ == "expected_status_code"@,
                        k3@ == "expected_response_body"@,
                        json_entries_view(out@) == strip_status_keys(ev.take(i as int)),
                    decreases entries.len() - i,
                {
                    let kc = crate::text::chars_of(entries[i].0.as_str());
                    let skip = crate::text::chars_eq(&kc, &k1) || crate::text::chars_eq(&kc, &k2)
                        || crate::text::chars_eq(&kc, &k3);
                    proof {
                        assert(ev.take(i + 1).drop_last() =~= ev.take(i as int));
                        assert(ev.take(i + 1).last() == ev[i as int]);
                    }
                    if !skip {
                        let ghost ov = json_entries_view(out@);
                        proof {
                            lemma_json_entries_view(out@);
                        }
                        let val = json_clone(&entries[i].1);
                        out.push((entries[i].0.clone(), val));
                        proof {
                            lemma_json_entries_view(out@);
                            assert(json_entries_view(out@) =~= ov.push(ev[i as int]));
                        }
                    }
                    i += 1;
                }
                assert(ev.take(i as int) =~= ev);
                Some(Json::Object(out))
            },
            _ => None,
        },
    }
}

/// `k=v`.
pub open spec fn pair_text(p: (Seq<char>, Seq<char>)) -> Seq<char> {
    p.0 + "="@ + p.1
}

/// The pairs as `k=v` joined by `&`.
pub open spec fn query_text(ps: Seq<(Seq<char>, Seq<char>)>) -> Seq<char>
    decreases ps.len(),
{
    if ps.len() == 0 {
        seq![]
    } else if ps.len() == 1 {
        pair_text(ps[0])
    } else {
        query_text(ps.drop_last()) + "&"@ + pair_text(ps.last())
    }
}

/// The implicit request's URL: the endpoint with the row's
/// placeholders substituted under the base URL, and the query
/// parameters, if any.
pub open spec fn fallback_url(base: Seq<char>, endpoint: Seq<char>, ex: JsonV, params: Seq<(Seq<char>, Seq<char>)>) -> Seq<char> {
    let u = target_url(base, substitute(endpoint, ex));
    if params.len() > 0 {
        u + "?"@ + query_text(params)
    } else {
        u
    }
}

/// The bearer-token header, when a token is configured.
pub open spec fn auth_headers(token: Option<Seq<char>>) -> Seq<(Seq<char>, Seq<char>)> {
    match token {
        Some(t) => seq![("Authorization"@, "Bearer "@ + t)],
        None => seq![],
    }
}

/// Methods whose implicit request carries a body.
pub open spec fn sends_body(m: HttpMethod) -> bool {
    m == HttpMethod::Post || m == HttpMethod::Put || m == HttpMethod::Patch
}

fn query_string(ps: &Vec<(String, String)>) -> (s: String)
    ensures
        s@ == query_text(pairs_view(ps@)),
{
    let ghost pv = pairs_view(ps@);
    let mut s = String::new();
    let mut i: usize = 0;
    while i < ps.len()
        invariant
            i <= ps.len(),
            pv == pairs_view(ps@),
            s@ == query_text(pv.take(i as int)),
        decreases ps.len() - i,
    {
        if i > 0 {
            s.append("&");
        }
        s.append(ps[i].0.as_str());
        s.append("=");
        s.append(ps[i].1.as_str());
        proof {
            assert(pv.take(i + 1).drop_last() =~= pv.take(i as int));
            assert(pv.take(i + 1).last() == pv[i as int]);
            assert(pv[i as int] == (ps@[i as int].0@, ps@[i as int].1@));
        }
        i += 1;
    }
    assert(pv.take(i as int) =~= pv);
    s
}

/// Builds the implicit request the API's endpoint and method drive,
/// used when no step fired a request.
pub fn fallback_request(
    config: &TestConfig,
    api: &ApiSpec,
    env: &EnvSpec,
    context: &ScenarioContext,
    example_data: &Json,
) -> (r: Result<HttpPlan, Error>)
    ensures
        match r {
            Ok(p) => {
                &&& method_named(uppercase(api.http_method@)) == Some(p.method)
                &&& p.url@ == fallback_url(
                    env.base_url@,
                    api.endpoint@,
                    example_data@,
                    context@.query_params,
                )
                &&& pairs_view(p.headers@) == auth_headers(opt_str_view(config.auth_token))
                    + pairs_view(config.custom_headers@) + context@.request_headers
                &&& opt_json_view(p.body) == if sends_body(p.method) {
                    request_body(context@, example_data@)
                } else {
                    None
                }
            },
            Err(e) => method_named(uppercase(api.http_method@)) is None && is_unsupported_method(
                e,
                api.http_method@,
            ),
        },
{
    let endpoint = substitute_placeholders(api.endpoint.as_str(), example_data);
    let mut url = trim_end_char_str(env.base_url.as_str(), '/');
    url.append(endpoint.as_str());
    if context.query_params.len() > 0 {
        url.append("?");
        let q = query_string(&context.query_params);
        url.append(q.as_str());
    }
    let m = match parse_method(api.http_method.as_str()) {
        Ok(m) => m,
        Err(e) => {
            return Err(e);
        },
    };
    let mut headers: Vec<(String, String)> = Vec::new();
    match &config.auth_token {
        Some(token) => {
            let mut v = String::from_str("Bearer ");
            v.append(token.as_str());
            headers.push((String::from_str("Authorization"), v));
        },
        None => {},
    }
    assert(pairs_view(headers@) =~= auth_headers(opt_str_view(config.auth_token)));
    append_pairs(&mut headers, &config.custom_headers);
    append_pairs(&mut headers, &context.request_headers);
    let body = match m {
        HttpMethod::Post | HttpMethod::Put | HttpMethod::Patch => build_request_body(
            context,
            example_data,
        ),
        _ => None,
    };
    Ok(HttpPlan { method: m, url, headers, body })
}

// ---------- data tables ----------

/// A data-table row as a JSON array of strings.
pub open spec fn row_json(r: Seq<Seq<char>>) -> JsonV {
    JsonV::Array(r.map_values(|c: Seq<char>| JsonV::Str(c)))
}

/// A row's setup value: its JSON text with the example row's
/// placeholders substituted, read back as JSON; the row itself when
/// that text does not parse.
pub open spec fn setup_row(r: Seq<Seq<char>>, ex: JsonV) -> JsonV {
    match json_parse(substitute(json_render(row_json(r)), ex)) {
        Some(j) => j,
        None => row_json(r),
    }
}

/// The setup data of a step's data table (see [`setup_row`]).
pub fn table_setup(table: &Vec<Vec<String>>, example_data: &Json) -> (r: Vec<Json>)
    ensures
        jsons_view(r@) == table_view(table@).map_values(|row: Seq<Seq<char>>| setup_row(row, example_data@)),
{
    let ghost tv = table_view(table@);
    let mut out: Vec<Json> = Vec::new();
    let mut i: usize = 0;
    while i < table.len()
        invariant
            i <= table.len(),
            tv == table_view(table@),
            jsons_view(out@) == tv.take(i as int).map_values(|row: Seq<Seq<char>>| setup_row(row, example_data@)),
        decreases table.len() - i,
    {
        let row = &table[i];
        let mut cells: Vec<Json> = Vec::new();
        let mut k: usize = 0;
        while k < row.len()
            invariant
                k <= row.len(),
                jsons_view(cells@) == strs_view(row@).take(k as int).map_values(|c: Seq<char>| JsonV::Str(c)),
            decreases row.len() - k,
        {
            let ghost cv = jsons_view(cells@);
            let cell = row[k].clone();
            assert(cell@ == strs_view(row@)[k as int]);
            cells.push(Json::Str(cell));
            assert(jsons_view(cells@) =~= cv.push(JsonV::Str(strs_view(row@)[k as int])));
            assert(strs_view(row@).take(k + 1) =~= strs_view(row@).take(k as int).push(strs_view(row@)[k as int]));
            assert(jsons_view(cells@) =~= strs_view(row@).take(k + 1).map_values(|c: Seq<char>| JsonV::Str(c)));
            k += 1;
        }
        proof {
            lemma_json_seq_view(cells@);
            assert(strs_view(row@).take(k as int) =~= strs_view(row@));
            assert(json_seq_view(cells@) =~= jsons_view(cells@));
        }
        let rj = Json::Array(cells);
        assert(rj@ == row_json(tv[i as int]));
        let text = render_json(&rj);
        let substituted = substitute_placeholders(text.as_str(), example_data);
        let v = match parse_json(substituted.as_str()) {
            Some(j) => j,
            None => rj,
        };
        let ghost ov = jsons_view(out@);
        assert(v@ == setup_row(tv[i as int], example_data@));
        out.push(v);
        assert(jsons_view(out@) =~= ov.push(setup_row(tv[i as int], example_data@)));
        assert(tv.take(i + 1) =~= tv.take(i as int).push(tv[i as int]));
        assert(jsons_view(out@) =~= tv.take(i + 1).map_values(|row: Seq<Seq<char>>| setup_row(row, example_data@)));
        i += 1;
    }
    assert(tv.take(i as int) =~= tv);
    out
}

} // verus!
