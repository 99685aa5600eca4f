//! Running one example row as a state machine.
//!
//! The steps of a row alternate computation and HTTP exchanges. An
//! [`ExampleRun`] does the computation: [`ExampleRun::advance`] takes
//! one step of work and says what to do next (keep going, send a
//! request, or the row's outcome), and [`ExampleRun::receive`] takes
//! the reply to a request it asked for. The caller sends the requests.
//!
//! Per row: each step's text gets the row's placeholders substituted,
//! its data table becomes setup data, and the actions of every pattern
//! that matches fire in order; a failed request ends the steps. When
//! no step sent a request, the implicit request of the API's endpoint
//! and method is sent. The last response is then validated.
use vstd::prelude::*;

use crate::error::{error_text, Error};
use crate::gherkin::{table_view, ParsedExample, ParsedScenario, ScenarioV, StepV};
use crate::json::{json_clone, opt_json_view, Json, JsonV};
use crate::patterns::{
    execute_sync_action, keyword_type_of, matches_from, matches_view, matching_patterns,
    substitute, substitute_placeholders, sync_effect, Action, GroupV, PatternMatch, StepPattern,
};
use crate::runner::{
    auth_headers, capture_all, capture_doc_fields, doc_capture_all, expand_headers, fallback_request, fallback_url, jsons_view,
    method_named, opt_str_view, pairs_view, pattern_body, pattern_request, record_http_response,
    rejected_status_message, request_body, sends_body, setup_row, status_accepted, table_setup,
    target_url, validate_response, validation, ApiSpec, CtxV, EnvSpec, HttpMethod, HttpPlan,
    HttpResponse, RespV, ScenarioContext, TestConfig, resps_view, unit_result_view,
};
use crate::patterns::expand_template;
use crate::textops::{to_upper, uppercase};

verus! {

/// Where a row's run stands.
#[derive(Debug, Clone, Copy, PartialEq, Eq, Structural)]
pub enum Phase {
    /// The step with this index starts next.
    Step(usize),
    /// Inside a step: the next action of the next matched pattern.
    Acting { step: usize, matched: usize, action: usize },
    /// The steps are over: the implicit request, or the outcome.
    Wrapup,
    /// Waiting for the reply to a pattern's request.
    AwaitStep { step: usize, matched: usize, action: usize },
    /// Waiting for the reply to the implicit request.
    AwaitFallback,
    /// The row has its outcome.
    Done,
}

/// The state of one example row's run.
#[derive(Debug)]
pub struct ExampleRun {
    pub context: ScenarioContext,
    /// The example row.
    pub data: Json,
    /// The current step's text, placeholders substituted.
    pub text: String,
    /// The patterns that matched the current step.
    pub matches: Vec<PatternMatch>,
    /// Why the row failed before validation, if it did.
    pub failure: Option<String>,
    /// Method and URL of the request awaiting its reply.
    pub pending_method: String,
    pub pending_url: String,
    pub phase: Phase,
}

/// The mathematical value of an [`ExampleRun`].
pub struct RunV {
    pub ctx: CtxV,
    pub data: JsonV,
    pub text: Seq<char>,
    pub matches: Seq<(int, Seq<GroupV>)>,
    pub failure: Option<Seq<char>>,
    pub pending_method: Seq<char>,
    pub pending_url: Seq<char>,
    pub phase: Phase,
}

impl View for ExampleRun {
    type V = RunV;

    open spec fn view(&self) -> RunV {
        RunV {
            ctx: self.context@,
            data: self.data@,
            text: self.text@,
            matches: matches_view(self.matches@),
            failure: opt_str_view(self.failure),
            pending_method: self.pending_method@,
            pending_url: self.pending_url@,
            phase: self.phase,
        }
    }
}

/// A row's outcome.
#[derive(Debug)]
pub struct Outcome {
    pub pass: bool,
    pub error_message: Option<String>,
    pub response_status: i16,
    pub response_data: Option<Json>,
}

/// The mathematical value of an [`Outcome`].
pub struct OutcomeV {
    pub pass: bool,
    pub error_message: Option<Seq<char>>,
    pub response_status: i16,
    pub response_data: Option<JsonV>,
}

impl View for Outcome {
    type V = OutcomeV;

    open spec fn view(&self) -> OutcomeV {
        OutcomeV {
            pass: self.pass,
            error_message: opt_str_view(self.error_message),
            response_status: self.response_status,
            response_data: opt_json_view(self.response_data),
        }
    }
}

/// The mathematical value of an [`HttpPlan`].
pub struct PlanV {
    pub method: HttpMethod,
    pub url: Seq<char>,
    pub headers: Seq<(Seq<char>, Seq<char>)>,
    pub body: Option<JsonV>,
}

/// The view of a plan.
pub open spec fn plan_view(p: HttpPlan) -> PlanV {
    PlanV { method: p.method, url: p.url@, headers: pairs_view(p.headers@), body: opt_json_view(p.body) }
}

/// What to do next.
#[derive(Debug)]
pub enum Command {
    /// Call [`ExampleRun::advance`] again.
    Continue,
    /// Send this request and hand the reply to [`ExampleRun::receive`].
    Send(HttpPlan),
    /// The row is over.
    Finish(Outcome),
}

/// The mathematical value of a [`Command`].
pub enum CommandV {
    Continue,
    Send(PlanV),
    Finish(OutcomeV),
}

/// The view of a command.
pub open spec fn command_view(c: Command) -> CommandV {
    match c {
        Command::Continue => CommandV::Continue,
        Command::Send(p) => CommandV::Send(plan_view(p)),
        Command::Finish(o) => CommandV::Finish(o@),
    }
}

/// The reply to a request.
#[derive(Debug)]
pub enum Reply {
    /// A response arrived.
    Response { status: i16, body: Json, duration_ms: i64 },
    /// The request failed in transport; the text says why.
    Failed(String),
}

/// A row's outcome: a failure before validation fails the row with
/// status 0 and no data; otherwise the last response is validated.
pub open spec fn outcome_of(allow_no_assertions: bool, c: CtxV, failure: Option<Seq<char>>) -> OutcomeV {
    match failure {
        Some(f) => OutcomeV { pass: false, error_message: Some(f), response_status: 0, response_data: None },
        None => {
            let last = c.responses.last();
            let v = validation(allow_no_assertions, last.status, last.body, c);
            OutcomeV {
                pass: v is Ok,
                error_message: match v {
                    Err(m) => Some(m),
                    Ok(_) => None,
                },
                response_status: last.status,
                response_data: Some(last.body),
            }
        },
    }
}

/// The request a pattern's `HttpRequest` action sends, or the text of
/// the error that stops the step.
pub open spec fn pattern_request_spec(a: Action, caps: Seq<GroupV>, step: StepV, c: CtxV, base: Seq<char>, globals: Seq<(Seq<char>, Seq<char>)>) -> Result<PlanV, Seq<char>> {
    match a {
        Action::HttpRequest { method, endpoint_template, body_from, headers, .. } => match method_named(uppercase(method@)) {
            Some(m) => Ok(PlanV {
                method: m,
                url: target_url(base, expand_template(endpoint_template@, caps, c.variables)),
                headers: globals + c.request_headers + expand_headers(pairs_view(headers@), caps, c.variables),
                body: pattern_body(body_from, step.doc, caps, c.variables),
            }),
            None => Err("spec error: "@ + ("Unsupported HTTP method: "@ + method@)),
        },
        _ => Err(seq![]),
    }
}

/// The implicit request, or the text of the error that stops the row.
pub open spec fn fallback_spec(config: TestConfig, api: ApiSpec, env: EnvSpec, c: CtxV, ex: JsonV) -> Result<PlanV, Seq<char>> {
    match method_named(uppercase(api.http_method@)) {
        Some(m) => Ok(PlanV {
            method: m,
            url: fallback_url(env.base_url@, api.endpoint@, ex, c.query_params),
            headers: auth_headers(opt_str_view(config.auth_token)) + pairs_view(config.custom_headers@) + c.request_headers,
            body: if sends_body(m) {
                request_body(c, ex)
            } else {
                None
            },
        }),
        None => Err("spec error: "@ + ("Unsupported HTTP method: "@ + api.http_method@)),
    }
}

/// The context once a step has started: its data table, if any, as setup data.
pub open spec fn start_step_ctx(c: CtxV, step: StepV, ex: JsonV) -> CtxV {
    match step.table {
        Some(t) => CtxV { setup_data: Some(t.map_values(|row: Seq<Seq<char>>| setup_row(row, ex))), ..c },
        None => c,
    }
}

/// One unit of work of a row's run: the state after it and the command.
pub open spec fn advance_spec(r: RunV, ps: Seq<StepPattern>, config: TestConfig, sc: ScenarioV, api: ApiSpec, env: EnvSpec) -> (RunV, CommandV) {
    let allow = config.allow_no_assertions;
    match r.phase {
        Phase::Step(k) => if k < sc.steps.len() {
            let step = sc.steps[k as int];
            let text = substitute(step.text, r.data);
            (RunV {
                ctx: start_step_ctx(r.ctx, step, r.data),
                text,
                matches: matches_from(ps, keyword_type_of(step.keyword_type), text, 0),
                phase: Phase::Acting { step: k, matched: 0, action: 0 },
                ..r
            }, CommandV::Continue)
        } else {
            (RunV { phase: Phase::Wrapup, ..r }, CommandV::Continue)
        },
        Phase::Acting { step: k, matched: m, action: a } => if m < r.matches.len() {
            let pat = ps[r.matches[m as int].0];
            if a < pat.actions.len() {
                let act = pat.actions[a as int];
                if act is HttpRequest {
                    let caps = r.matches[m as int].1;
                    let step = sc.steps[k as int];
                    let ctx = CtxV {
                        variables: doc_capture_all(r.ctx.variables, step.doc, pairs_view(act->doc_captures@), caps),
                        ..r.ctx
                    };
                    match pattern_request_spec(act, caps, step, ctx, env.base_url@, pairs_view(config.custom_headers@)) {
                        Ok(plan) => (RunV {
                            ctx,
                            phase: Phase::AwaitStep { step: k, matched: m, action: a },
                            pending_method: act->method@,
                            pending_url: plan.url,
                            ..r
                        }, CommandV::Send(plan)),
                        Err(msg) => (RunV { ctx, failure: Some(msg), phase: Phase::Wrapup, ..r }, CommandV::Continue),
                    }
                } else {
                    (RunV {
                        ctx: sync_effect(act, r.text, r.matches[m as int].1, sc.steps[k as int], r.ctx, r.data),
                        phase: Phase::Acting { step: k, matched: m, action: (a + 1) as usize },
                        ..r
                    }, CommandV::Continue)
                }
            } else {
                (RunV { phase: Phase::Acting { step: k, matched: (m + 1) as usize, action: 0 }, ..r }, CommandV::Continue)
            }
        } else {
            (RunV { phase: Phase::Step((k + 1) as usize), ..r }, CommandV::Continue)
        },
        Phase::Wrapup => if r.failure is None && r.ctx.responses.len() == 0 {
            match fallback_spec(config, api, env, r.ctx, r.data) {
                Ok(plan) => (RunV {
                    phase: Phase::AwaitFallback,
                    pending_method: uppercase(api.http_method@),
                    pending_url: plan.url,
                    ..r
                }, CommandV::Send(plan)),
                Err(msg) => (RunV { failure: Some(msg), phase: Phase::Done, ..r },
                    CommandV::Finish(outcome_of(allow, r.ctx, Some(msg)))),
            }
        } else {
            (RunV { phase: Phase::Done, ..r }, CommandV::Finish(outcome_of(allow, r.ctx, r.failure)))
        },
        Phase::Done => (r, CommandV::Finish(outcome_of(allow, r.ctx, r.failure))),
        _ => (r, CommandV::Continue),
    }
}

/// The mathematical value of a [`Reply`].
pub enum ReplyV {
    Response { status: i16, body: JsonV, duration_ms: i64 },
    Failed(Seq<char>),
}

/// The view of a reply.
pub open spec fn reply_view(r: Reply) -> ReplyV {
    match r {
        Reply::Response { status, body, duration_ms } => ReplyV::Response { status, body: body@, duration_ms },
        Reply::Failed(m) => ReplyV::Failed(m@),
    }
}

/// The failure text of a request that failed in transport.
pub open spec fn transport_failure(msg: Seq<char>) -> Seq<char> {
    "system error: HTTP request failed: "@ + msg
}

/// The state after the reply to the request the run waits for.
pub open spec fn receive_spec(r: RunV, ps: Seq<StepPattern>, reply: ReplyV) -> RunV {
    match r.phase {
        Phase::AwaitStep { step: k, matched: m, action: a } => {
            let act = ps[r.matches[m as int].0].actions[a as int];
            match reply {
                ReplyV::Response { status, body, duration_ms } => {
                    let ctx = CtxV {
                        variables: capture_all(r.ctx.variables, pairs_view(act->capture_response@), body, r.matches[m as int].1),
                        responses: r.ctx.responses.push(RespV { method: r.pending_method, url: r.pending_url, status, body, duration_ms }),
                        ..r.ctx
                    };
                    if status_accepted(act->accepted_status@, status) {
                        RunV { ctx, phase: Phase::Acting { step: k, matched: m, action: (a + 1) as usize }, ..r }
                    } else {
                        RunV {
                            ctx,
                            failure: Some("spec error: "@ + rejected_status_message(r.pending_method, r.pending_url, status, act->accepted_status@)),
                            phase: Phase::Wrapup,
                            ..r
                        }
                    }
                },
                ReplyV::Failed(msg) => RunV { failure: Some(transport_failure(msg)), phase: Phase::Wrapup, ..r },
            }
        },
        Phase::AwaitFallback => match reply {
            ReplyV::Response { status, body, duration_ms } => RunV {
                ctx: CtxV {
                    responses: r.ctx.responses.push(RespV { method: r.pending_method, url: r.pending_url, status, body, duration_ms }),
                    ..r.ctx
                },
                phase: Phase::Done,
                ..r
            },
            ReplyV::Failed(msg) => RunV { failure: Some(transport_failure(msg)), phase: Phase::Done, ..r },
        },
        _ => r,
    }
}

/// The run's bookkeeping is consistent with the patterns and the scenario.
pub open spec fn run_wf(r: RunV, ps: Seq<StepPattern>, sc: ScenarioV) -> bool {
    &&& forall|i: int| 0 <= i < r.matches.len() ==> 0 <= #[trigger] r.matches[i].0 < ps.len()
    &&& match r.phase {
        Phase::Acting { step: k, matched: m, .. } => k < sc.steps.len() && m <= r.matches.len(),
        Phase::AwaitStep { step: k, matched: m, action: a } => k < sc.steps.len() && m < r.matches.len()
            && a < ps[r.matches[m as int].0].actions.len() && ps[r.matches[m as int].0].actions[a as int] is HttpRequest,
        Phase::AwaitFallback => r.failure is None,
        Phase::Done => r.failure is Some || r.ctx.responses.len() > 0,
        _ => true,
    }
}


proof fn lemma_matches_from_bounds(ps: Seq<StepPattern>, kt: Option<crate::patterns::KeywordType>, text: Seq<char>, k: int)
    requires
        0 <= k,
    ensures
        forall|i: int| 0 <= i < matches_from(ps, kt, text, k).len() ==> k <= #[trigger] matches_from(ps, kt, text, k)[i].0 < ps.len(),
    decreases ps.len() - k,
{
    if k < ps.len() {
        lemma_matches_from_bounds(ps, kt, text, k + 1);
        let rest = matches_from(ps, kt, text, k + 1);
        if crate::patterns::keyword_accepts(ps[k].keyword_type, kt) && crate::patterns::regex_groups(ps[k].regex@, text) is Some {
            let all = matches_from(ps, kt, text, k);
            assert forall|i: int| 0 <= i < all.len() implies k <= #[trigger] all[i].0 < ps.len() by {
                if i > 0 {
                    assert(all[i] == rest[i - 1]);
                }
            }
        }
    }
}

impl ExampleRun {
    /// A run of `example` that starts at the first step.
    pub fn new(example: &ParsedExample) -> (r: ExampleRun)
        ensures
            r@ == (RunV {
                ctx: crate::runner::fresh_ctx(example@.status),
                data: example@.data,
                text: seq![],
                matches: seq![],
                failure: None,
                pending_method: seq![],
                pending_url: seq![],
                phase: Phase::Step(0),
            }),
    {
        let r = ExampleRun {
            context: ScenarioContext::for_example(example.expected_status_code),
            data: json_clone(&example.data),
            text: String::new(),
            matches: Vec::new(),
            failure: None,
            pending_method: String::new(),
            pending_url: String::new(),
            phase: Phase::Step(0),
        };
        assert(matches_view(r.matches@) =~= seq![]);
        r
    }

    /// The row's outcome (see [`outcome_of`]).
    fn outcome(&self, config: &TestConfig) -> (o: Outcome)
        requires
            self@.failure is Some || self@.ctx.responses.len() > 0,
        ensures
            o@ == outcome_of(config.allow_no_assertions, self@.ctx, self@.failure),
    {
        match &self.failure {
            Some(f) => Outcome { pass: false, error_message: Some(f.clone()), response_status: 0, response_data: None },
            None => {
                let n = self.context.responses.len();
                let last = &self.context.responses[n - 1];
                assert(self@.ctx.responses.last() == last@);
                let v = validate_response(config, last.status, &last.body, &self.context);
                let pass = v.is_ok();
                let error_message = match v {
                    Ok(_) => None,
                    Err(m) => Some(m),
                };
                Outcome { pass, error_message, response_status: last.status, response_data: Some(json_clone(&last.body)) }
            },
        }
    }

    /// One unit of work (see [`advance_spec`]).
    pub fn advance(
        &mut self,
        patterns: &Vec<StepPattern>,
        config: &TestConfig,
        scenario: &ParsedScenario,
        api: &ApiSpec,
        env: &EnvSpec,
    ) -> (cmd: Command)
        requires
            run_wf(old(self)@, patterns@, scenario@),
        ensures
            run_wf(final(self)@, patterns@, scenario@),
            (final(self)@, command_view(cmd)) == advance_spec(old(self)@, patterns@, *config, scenario@, *api, *env),
    {
        match self.phase {
            Phase::Step(k) => {
                if k < scenario.steps.len() {
                    let step = &scenario.steps[k];
                    assert(scenario@.steps[k as int] == step@);
                    let text = substitute_placeholders(step.text.as_str(), &self.data);
                    match &step.data_table {
                        Some(t) => {
                            let rows = table_setup(t, &self.data);
                            self.context.setup_data = Some(rows);
                        },
                        None => {},
                    }
                    let ms = matching_patterns(patterns, step, text.as_str());
                    proof {
                        lemma_matches_from_bounds(patterns@, keyword_type_of(step@.keyword_type), text@, 0);
                    }
                    self.text = text;
                    self.matches = ms;
                    self.phase = Phase::Acting { step: k, matched: 0, action: 0 };
                    Command::Continue
                } else {
                    self.phase = Phase::Wrapup;
                    Command::Continue
                }
            },
            Phase::Acting { step: k, matched: m, action: a } => {
                assert(old(self)@.phase == Phase::Acting { step: k, matched: m, action: a });
                assert(scenario@.steps.len() == scenario.steps@.len());
                assert(k < scenario.steps.len());
                if m < self.matches.len() {
                    let pi = self.matches[m].pattern;
                    assert(self@.matches[m as int].0 == pi as int);
                    let pat = &patterns[pi];
                    if a < pat.actions.len() {
                        let act = &pat.actions[a];
                        let step = &scenario.steps[k];
                        assert(scenario@.steps[k as int] == step@);
                        match act {
                            Action::HttpRequest { method, endpoint_template, body_from, headers, doc_captures, .. } => {
                                capture_doc_fields(&mut self.context, step, doc_captures, &self.matches[m].groups);
                                match pattern_request(method, endpoint_template, body_from, headers, &self.matches[m].groups, step, &self.context, env.base_url.as_str(), &config.custom_headers) {
                                    Ok(plan) => {
                                        self.pending_method = method.clone();
                                        self.pending_url = plan.url.clone();
                                        self.phase = Phase::AwaitStep { step: k, matched: m, action: a };
                                        Command::Send(plan)
                                    },
                                    Err(e) => {
                                        self.failure = Some(e.to_text());
                                        self.phase = Phase::Wrapup;
                                        Command::Continue
                                    },
                                }
                            },
                            _ => {
                                execute_sync_action(act, self.text.as_str(), &self.matches[m].groups, step, &mut self.context, &self.data);
                                self.phase = Phase::Acting { step: k, matched: m, action: a + 1 };
                                Command::Continue
                            },
                        }
                    } else {
                        self.phase = Phase::Acting { step: k, matched: m + 1, action: 0 };
                        Command::Continue
                    }
                } else {
                    assert(scenario@.steps.len() == scenario.steps@.len());
                    self.phase = Phase::Step(k + 1);
                    Command::Continue
                }
            },
            Phase::Wrapup => {
                if self.failure.is_none() && self.context.responses.len() == 0 {
                    match fallback_request(config, api, env, &self.context, &self.data) {
                        Ok(plan) => {
                            self.pending_method = to_upper(api.http_method.as_str());
                            self.pending_url = plan.url.clone();
                            self.phase = Phase::AwaitFallback;
                            Command::Send(plan)
                        },
                        Err(e) => {
                            self.failure = Some(e.to_text());
                            self.phase = Phase::Done;
                            Command::Finish(self.outcome(config))
                        },
                    }
                } else {
                    self.phase = Phase::Done;
                    Command::Finish(self.outcome(config))
                }
            },
            Phase::Done => Command::Finish(self.outcome(config)),
            _ => Command::Continue,
        }
    }

    /// Takes the reply to the request the run waits for (see [`receive_spec`]).
    pub fn receive(&mut self, patterns: &Vec<StepPattern>, scenario: &ParsedScenario, reply: Reply)
        requires
            run_wf(old(self)@, patterns@, scenario@),
        ensures
            run_wf(final(self)@, patterns@, scenario@),
            final(self)@ == receive_spec(old(self)@, patterns@, reply_view(reply)),
    {
        match self.phase {
            Phase::AwaitStep { step: k, matched: m, action: a } => {
                let pi = self.matches[m].pattern;
                assert(self@.matches[m as int].0 == pi as int);
                let act = &patterns[pi].actions[a];
                match act {
                    Action::HttpRequest { capture_response, accepted_status, .. } => {
                        match reply {
                            Reply::Response { status, body, duration_ms } => {
                                let method = self.pending_method.clone();
                                let url = self.pending_url.clone();
                                match record_http_response(&mut self.context, &method, &url, status, body, duration_ms, capture_response, accepted_status, &self.matches[m].groups) {
                                    Ok(_) => {
                                        self.phase = Phase::Acting { step: k, matched: m, action: a + 1 };
                                    },
                                    Err(e) => {
                                        self.failure = Some(e.to_text());
                                        self.phase = Phase::Wrapup;
                                    },
                                }
                            },
                            Reply::Failed(msg) => {
                                let mut f = String::from_str("system error: HTTP request failed: ");
                                f.append(msg.as_str());
                                self.failure = Some(f);
                                self.phase = Phase::Wrapup;
                            },
                        }
                    },
                    _ => {},
                }
            },
            Phase::AwaitFallback => {
                match reply {
                    Reply::Response { status, body, duration_ms } => {
                        let ghost bv = body@;
                        let resp = HttpResponse { method: self.pending_method.clone(), url: self.pending_url.clone(), status, body, duration_ms };
                        self.context.responses.push(resp);
                        assert(resps_view(self.context.responses@) =~= old(self)@.ctx.responses.push(
                            RespV { method: old(self)@.pending_method, url: old(self)@.pending_url, status, body: bv, duration_ms },
                        ));
                        self.phase = Phase::Done;
                    },
                    Reply::Failed(msg) => {
                        let mut f = String::from_str("system error: HTTP request failed: ");
                        f.append(msg.as_str());
                        self.failure = Some(f);
                        self.phase = Phase::Done;
                    },
                }
            },
            _ => {},
        }
    }
}


/// The rows a scenario runs: its examples, or one empty row when it
/// has none.
pub open spec fn rows_of(sc: ScenarioV) -> Seq<crate::gherkin::ExampleV> {
    if sc.examples.len() == 0 {
        seq![crate::gherkin::ExampleV { data: JsonV::Null, status: None }]
    } else {
        sc.examples
    }
}

/// The example rows of a scenario (see [`rows_of`]).
pub fn scenario_examples(scenario: &ParsedScenario) -> (r: Vec<ParsedExample>)
    ensures
        crate::gherkin::examples_view(r@) == rows_of(scenario@),
{
    let mut r: Vec<ParsedExample> = Vec::new();
    if scenario.examples.len() == 0 {
        r.push(ParsedExample { data: Json::Null, expected_status_code: None });
        assert(crate::gherkin::examples_view(r@) =~= rows_of(scenario@));
        return r;
    }
    let ghost ev = scenario@.examples;
    let mut i: usize = 0;
    while i < scenario.examples.len()
        invariant
            i <= scenario.examples.len(),
            ev == scenario@.examples,
            ev.len() == scenario.examples@.len(),
            crate::gherkin::examples_view(r@) == ev.take(i as int),
        decreases scenario.examples.len() - i,
    {
        let e = &scenario.examples[i];
        assert(ev[i as int] == e@);
        let ghost rv = crate::gherkin::examples_view(r@);
        let c = ParsedExample { data: json_clone(&e.data), expected_status_code: e.expected_status_code };
        let ghost cv = c@;
        r.push(c);
        assert(crate::gherkin::examples_view(r@) =~= rv.push(cv));
        assert(ev.take(i + 1) =~= ev.take(i as int).push(ev[i as int]));
        i += 1;
    }
    assert(ev.take(i as int) =~= ev);
    r
}

impl crate::runner::TestResult {
    /// The result of a row from its outcome and the caller's timing.
    pub fn from_outcome(scenario_title: &String, example_index: i32, outcome: Outcome, request_duration_ms: i64, request_time_ns: i128) -> (r: crate::runner::TestResult)
        ensures
            r.scenario_title@ == scenario_title@,
            r.example_index == example_index,
            r.pass == outcome@.pass,
            opt_str_view(r.error_message) == outcome@.error_message,
            r.response_status == outcome@.response_status,
            opt_json_view(r.response_data) == outcome@.response_data,
            r.request_duration_ms == request_duration_ms,
            r.request_time_ns == request_time_ns,
    {
        crate::runner::TestResult {
            scenario_title: scenario_title.clone(),
            example_index,
            pass: outcome.pass,
            error_message: outcome.error_message,
            response_status: outcome.response_status,
            response_data: outcome.response_data,
            request_duration_ms,
            request_time_ns,
        }
    }
}

/// The run configuration and the patterns, built-in ones first.
#[derive(Debug)]
pub struct TestRunner {
    pub config: TestConfig,
    pub patterns: Vec<StepPattern>,
}

impl TestRunner {
    /// The default configuration with the built-in patterns.
    pub fn new() -> (r: TestRunner)
        ensures
            r.config.timeout_secs == crate::runner::DEFAULT_TIMEOUT_SECS,
            r.config.auth_token is None,
            r.config.custom_headers@.len() == 0,
            !r.config.allow_no_assertions,
            crate::patterns::builtin_spec(r.patterns@),
    {
        TestRunner { config: TestConfig::new(), patterns: crate::patterns::builtin_patterns() }
    }

    /// `config` with the built-in patterns.
    pub fn with_config(config: TestConfig) -> (r: TestRunner)
        ensures
            r.config == config,
            crate::patterns::builtin_spec(r.patterns@),
    {
        TestRunner { config, patterns: crate::patterns::builtin_patterns() }
    }

    /// Appends patterns after the ones already there.
    pub fn extend_patterns(self, extra: Vec<StepPattern>) -> (r: TestRunner)
        ensures
            r.config == self.config,
            r.patterns@ == self.patterns@ + extra@,
    {
        let mut s = self;
        let mut extra = extra;
        s.patterns.append(&mut extra);
        s
    }

    /// Partial deep match of `expected` in `actual` (see
    /// [`crate::json::json_matches`]).
    pub fn json_contains(&self, actual: &Json, expected: &Json) -> (b: bool)
        ensures
            b == crate::json::json_matches(actual@, expected@),
    {
        crate::json::json_contains(actual, expected)
    }

    /// A run of `example` of a scenario.
    pub fn start(&self, example: &ParsedExample) -> (r: ExampleRun)
        ensures
            r@.phase == Phase::Step(0),
            r@.ctx == crate::runner::fresh_ctx(example@.status),
            r@.data == example@.data,
            r@.failure is None,
            r@.matches.len() == 0,
    {
        ExampleRun::new(example)
    }
}

} // verus!
