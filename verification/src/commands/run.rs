//! `serval run`: which endpoint and method a run targets, how its
//! results are shown, and its exit code.
use vstd::prelude::*;

use crate::config::{opt_slice_view, resolve_spec, Config};
use crate::error::{Error, OK, TEST_FAILED};
use crate::frontmatter::ApiFrontmatter;
use crate::report::passed_count;
use crate::runner::{opt_str_view, ApiSpec, TestResult};
use crate::text::strs_view;
use crate::textops::{decimal, decimal_string};

verus! {

/// The message when neither a flag nor the frontmatter gives the endpoint.
pub open spec fn missing_endpoint_message() -> Seq<char> {
    "missing `--endpoint`: no `api.path` in frontmatter and no flag provided"@
}

/// The message when neither a flag nor the frontmatter gives the method.
pub open spec fn missing_method_message() -> Seq<char> {
    "missing `--method`: no `api.method` in frontmatter and no flag provided"@
}

/// The message when no base URL can be found.
pub open spec fn unresolved_target_message() -> Seq<char> {
    "could not resolve target server: pass `--base-url`, `--env NAME`, or set `default_env` in the config"@
}

/// The base URL a run targets when no `--base-url` flag is given: that
/// of the environment `--env` names, or else the config's default one.
pub fn resolve_base_url(config: &Config, env: Option<&str>) -> (r: Result<String, Error>)
    ensures
        match r {
            Ok(u) => resolve_spec(*config, opt_slice_view(env)) matches Some(p) && u@ == p.1,
            Err(e) => resolve_spec(*config, opt_slice_view(env)) is None
                && (e matches Error::Spec(m) && m@ == unresolved_target_message()),
        },
{
    match config.resolve_env(env) {
        Some((_, e)) => Ok(e.base_url.clone()),
        None => Err(Error::Spec(String::from_str(
            "could not resolve target server: pass `--base-url`, `--env NAME`, or set `default_env` in the config",
        ))),
    }
}

/// Picks the endpoint and method: a flag wins over the frontmatter's
/// `api` block; with neither, the endpoint is checked first.
pub fn resolve_api_spec(fm_api: Option<&ApiFrontmatter>, endpoint: &Option<String>, method: &Option<String>) -> (r: Result<ApiSpec, Error>)
    ensures
        match r {
            Ok(a) => {
                &&& a.endpoint@ == match endpoint {
                    Some(e) => e@,
                    None => fm_api.unwrap().path@,
                }
                &&& a.http_method@ == match method {
                    Some(m) => m@,
                    None => fm_api.unwrap().method@,
                }
                &&& (endpoint is Some || fm_api is Some)
                &&& (method is Some || fm_api is Some)
            },
            Err(e) => if endpoint is None && fm_api is None {
                e matches Error::Spec(m) && m@ == missing_endpoint_message()
            } else {
                method is None && fm_api is None && (e matches Error::Spec(m) && m@ == missing_method_message())
            },
        },
{
    let ep = match (endpoint, fm_api) {
        (Some(e), _) => e.clone(),
        (None, Some(a)) => a.path.clone(),
        (None, None) => {
            return Err(Error::Spec(String::from_str("missing `--endpoint`: no `api.path` in frontmatter and no flag provided")));
        },
    };
    let m = match (method, fm_api) {
        (Some(m), _) => m.clone(),
        (None, Some(a)) => a.method.clone(),
        (None, None) => {
            return Err(Error::Spec(String::from_str("missing `--method`: no `api.method` in frontmatter and no flag provided")));
        },
    };
    Ok(ApiSpec { endpoint: ep, http_method: m })
}

/// `1` when any result failed, else `0`.
pub open spec fn run_exit(results: Seq<TestResult>) -> i32 {
    if exists|i: int| 0 <= i < results.len() && !results[i].pass {
        TEST_FAILED
    } else {
        OK
    }
}

/// The exit code of a finished run.
pub fn exit_code(results: &Vec<TestResult>) -> (code: i32)
    ensures
        code == run_exit(results@),
{
    let mut i: usize = 0;
    while i < results.len()
        invariant
            i <= results.len(),
            forall|k: int| 0 <= k < i ==> results@[k].pass,
        decreases results.len() - i,
    {
        if !results[i].pass {
            return TEST_FAILED;
        }
        i += 1;
    }
    OK
}

/// The lines of one result.
pub open spec fn result_lines(r: TestResult) -> Seq<Seq<char>> {
    seq!["  ["@ + (if r.pass { "PASS"@ } else { "FAIL"@ }) + "] "@ + r.scenario_title@ + " (status "@ + decimal(r.response_status as int) + ", "@ + decimal(r.request_duration_ms as int) + "ms)"@]
        + match r.error_message {
            Some(e) => seq!["         "@ + e@],
            None => seq![],
        }
}

/// The lines of all results, in order.
pub open spec fn results_lines(rs: Seq<TestResult>) -> Seq<Seq<char>>
    decreases rs.len(),
{
    if rs.len() == 0 {
        seq![]
    } else {
        results_lines(rs.drop_last()) + result_lines(rs.last())
    }
}

/// The table `run` prints: every result, then the counts.
pub open spec fn run_table(rs: Seq<TestResult>) -> Seq<Seq<char>> {
    results_lines(rs) + seq![seq![], "  "@ + decimal(passed_count(rs) as int) + " passed, "@ + decimal(rs.len() - passed_count(rs)) + " failed, "@ + decimal(rs.len() as int) + " total"@]
}

/// The lines `run` prints (see [`run_table`]).
pub fn results_table(results: &Vec<TestResult>) -> (lines: Vec<String>)
    ensures
        strs_view(lines@) == run_table(results@),
{
    let mut lines: Vec<String> = Vec::new();
    let mut passed: usize = 0;
    let mut i: usize = 0;
    while i < results.len()
        invariant
            i <= results.len(),
            passed == passed_count(results@.take(i as int)),
            passed <= i,
            strs_view(lines@) == results_lines(results@.take(i as int)),
        decreases results.len() - i,
    {
        let r = &results[i];
        let mut l = String::from_str("  [");
        l.append(if r.pass { "PASS" } else { "FAIL" });
        l.append("] ");
        l.append(r.scenario_title.as_str());
        l.append(" (status ");
        let st = decimal_string(r.response_status as i128);
        l.append(st.as_str());
        l.append(", ");
        let ms = decimal_string(r.request_duration_ms as i128);
        l.append(ms.as_str());
        l.append("ms)");
        let ghost before = strs_view(lines@);
        let ghost lv = l@;
        lines.push(l);
        assert(strs_view(lines@) =~= before.push(lv));
        match &r.error_message {
            Some(e) => {
                let mut m = String::from_str("         ");
                m.append(e.as_str());
                let ghost mid = strs_view(lines@);
                let ghost mv = m@;
                lines.push(m);
                assert(strs_view(lines@) =~= mid.push(mv));
            },
            None => {},
        }
        assert(results@.take(i + 1).drop_last() =~= results@.take(i as int));
        assert(results@.take(i + 1).last() == results@[i as int]);
        assert(strs_view(lines@) =~= results_lines(results@.take(i as int)) + result_lines(results@[i as int]));
        if r.pass {
            passed += 1;
        }
        i += 1;
    }
    assert(results@.take(i as int) =~= results@);
    let ghost body = strs_view(lines@);
    lines.push(String::new());
    let mut last = String::from_str("  ");
    let p = decimal_string(passed as i128);
    last.append(p.as_str());
    last.append(" passed, ");
    let f = decimal_string((results.len() - passed) as i128);
    last.append(f.as_str());
    last.append(" failed, ");
    let t = decimal_string(results.len() as i128);
    last.append(t.as_str());
    last.append(" total");
    let ghost lastv = last@;
    lines.push(last);
    assert(strs_view(lines@) =~= body + seq![seq![], lastv]);
    lines
}

} // verus!
