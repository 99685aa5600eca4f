//! `serval spec validate`: which files to check, what each check
//! found, the table of findings and the exit code.
use vstd::prelude::*;

use crate::error::{error_text, Error, OK, SPEC_ERROR};
use crate::gherkin::FeatureV;
use crate::runner::opt_str_view;
use crate::spec::{features_view, parse_relaxed, relaxed_parse, total_scenarios};
use crate::text::strs_view;
use crate::textops::{decimal, decimal_string, pad_right, pad_str};

verus! {

/// What a path on disk is.
#[derive(Debug, Clone, Copy, PartialEq, Eq, Structural)]
pub enum PathKind {
    File,
    Dir,
    Missing,
}

/// The files to check: the file itself, the `.feature` files found
/// under a directory, or an error for a path that does not exist.
pub fn collect_targets(kind: PathKind, path: &str, found: Vec<String>) -> (r: Result<Vec<String>, Error>)
    ensures
        match kind {
            PathKind::File => r matches Ok(v) && strs_view(v@) == seq![path@],
            PathKind::Dir => r matches Ok(v) && v@ == found@,
            PathKind::Missing => r matches Err(e) && (e matches Error::Spec(m) && m@ == "path does not exist: "@ + path@),
        },
{
    match kind {
        PathKind::File => {
            let mut v: Vec<String> = Vec::new();
            v.push(String::from_str(path));
            assert(strs_view(v@) =~= seq![path@]);
            Ok(v)
        },
        PathKind::Dir => Ok(found),
        PathKind::Missing => {
            let mut m = String::from_str("path does not exist: ");
            m.append(path);
            Err(Error::Spec(m))
        },
    }
}

/// Whether a file checked out.
#[derive(Debug, Clone, Copy, PartialEq, Eq, Structural)]
pub enum Status {
    Valid,
    Invalid,
}

/// What checking one file found.
#[derive(Debug)]
pub struct ValidationResult {
    pub path: String,
    pub status: Status,
    pub features: Option<usize>,
    pub scenarios: Option<usize>,
    pub error: Option<String>,
}

/// A file that could not be read.
pub fn read_failed(path: &str, reason: &str) -> (r: ValidationResult)
    ensures
        r.path@ == path@,
        r.status == Status::Invalid,
        r.features is None,
        r.scenarios is None,
        opt_str_view(r.error) == Some("read error: "@ + reason@),
{
    let mut m = String::from_str("read error: ");
    m.append(reason);
    ValidationResult { path: String::from_str(path), status: Status::Invalid, features: None, scenarios: None, error: Some(m) }
}

/// A count as a `usize`, capped at `usize::MAX`.
pub open spec fn capped(n: int) -> int {
    if n > usize::MAX {
        usize::MAX as int
    } else {
        n
    }
}

fn capped_total(fs: &Vec<crate::gherkin::ParsedFeature>) -> (n: usize)
    ensures
        n == capped(total_scenarios(features_view(fs@))),
{
    let ghost fv = features_view(fs@);
    let mut n: usize = 0;
    let mut i: usize = 0;
    while i < fs.len()
        invariant
            i <= fs.len(),
            fv == features_view(fs@),
            n == capped(total_scenarios(fv.take(i as int))),
            total_scenarios(fv.take(i as int)) >= 0,
        decreases fs.len() - i,
    {
        assert(fv.take(i + 1).drop_last() =~= fv.take(i as int));
        assert(fv.take(i + 1).last() == fs@[i as int]@);
        let k = fs[i].scenarios.len();
        n = n.saturating_add(k);
        i += 1;
    }
    assert(fv.take(i as int) =~= fv);
    n
}

/// Checks a file's Gherkin, given its body or the error splitting off
/// its frontmatter gave.
pub fn validate_body(path: &str, body: Result<String, Error>) -> (r: ValidationResult)
    ensures
        r.path@ == path@,
        match body {
            Err(e) => r.status == Status::Invalid && r.features is None && r.scenarios is None && opt_str_view(r.error) == Some(error_text(e)),
            Ok(b) => match relaxed_parse(b@) {
                Ok(fs) => r.status == Status::Valid && r.features == Some(fs.len() as usize) && r.scenarios == Some(capped(total_scenarios(fs)) as usize) && r.error is None,
                Err(m) => r.status == Status::Invalid && r.features is None && r.scenarios is None && opt_str_view(r.error) == Some("spec error: "@ + m),
            },
        },
{
    match body {
        Err(e) => ValidationResult { path: String::from_str(path), status: Status::Invalid, features: None, scenarios: None, error: Some(e.to_text()) },
        Ok(b) => match parse_relaxed(b.as_str()) {
            Ok(fs) => {
                let n = capped_total(&fs);
                ValidationResult { path: String::from_str(path), status: Status::Valid, features: Some(fs.len()), scenarios: Some(n), error: None }
            },
            Err(e) => ValidationResult { path: String::from_str(path), status: Status::Invalid, features: None, scenarios: None, error: Some(e.to_text()) },
        },
    }
}

/// Exit code 3 when any file failed its check, else 0.
pub fn validate_exit(results: &Vec<ValidationResult>) -> (code: i32)
    ensures
        code == if exists|i: int| 0 <= i < results@.len() && results@[i].error is Some { SPEC_ERROR } else { OK },
{
    let mut i: usize = 0;
    while i < results.len()
        invariant
            i <= results.len(),
            forall|k: int| 0 <= k < i ==> results@[k].error is None,
        decreases results.len() - i,
    {
        if results[i].error.is_some() {
            return SPEC_ERROR;
        }
        i += 1;
    }
    OK
}

/// A count, or `-`.
pub open spec fn count_text(n: Option<usize>) -> Seq<char> {
    match n {
        Some(k) => decimal(k as int),
        None => "-"@,
    }
}

/// The lines of one file's finding.
pub open spec fn validation_row(r: ValidationResult) -> Seq<Seq<char>> {
    seq!["  "@ + pad_right(if r.status == Status::Valid { "OK"@ } else { "ERR"@ }, 6) + "  "@ + pad_right(count_text(r.features), 8) + "  "@ + pad_right(count_text(r.scenarios), 10) + "  "@ + r.path@]
        + match r.error {
            Some(e) => seq!["          "@ + e@],
            None => seq![],
        }
}

/// The lines of every finding, in order.
pub open spec fn validation_rows(rs: Seq<ValidationResult>) -> Seq<Seq<char>>
    decreases rs.len(),
{
    if rs.len() == 0 {
        seq![]
    } else {
        validation_rows(rs.drop_last()) + validation_row(rs.last())
    }
}

/// The number of findings without an error.
pub open spec fn valid_count(rs: Seq<ValidationResult>) -> nat
    decreases rs.len(),
{
    if rs.len() == 0 {
        0
    } else {
        valid_count(rs.drop_last()) + if rs.last().error is None {
            1nat
        } else {
            0nat
        }
    }
}

/// The table `spec validate` prints.
pub open spec fn validation_lines(rs: Seq<ValidationResult>) -> Seq<Seq<char>> {
    if rs.len() == 0 {
        seq!["  no `.feature` files found"@]
    } else {
        seq!["  "@ + pad_right("STATUS"@, 6) + "  "@ + pad_right("FEATURES"@, 8) + "  "@ + pad_right("SCENARIOS"@, 10) + "  PATH"@]
            + validation_rows(rs)
            + seq![seq![], "  "@ + decimal(rs.len() as int) + " file(s) scanned: "@ + decimal(valid_count(rs) as int) + " valid, "@ + decimal(rs.len() - valid_count(rs)) + " invalid."@]
    }
}

fn count_string(n: Option<usize>) -> (s: String)
    ensures
        s@ == count_text(n),
{
    match n {
        Some(k) => decimal_string(k as i128),
        None => String::from_str("-"),
    }
}

/// The lines `spec validate` prints (see [`validation_lines`]).
pub fn validation_table(results: &Vec<ValidationResult>) -> (lines: Vec<String>)
    ensures
        strs_view(lines@) == validation_lines(results@),
{
    let mut lines: Vec<String> = Vec::new();
    if results.len() == 0 {
        lines.push(String::from_str("  no `.feature` files found"));
        assert(strs_view(lines@) =~= validation_lines(results@));
        return lines;
    }
    let mut head = String::from_str("  ");
    let h1 = pad_str("STATUS", 6);
    head.append(h1.as_str());
    head.append("  ");
    let h2 = pad_str("FEATURES", 8);
    head.append(h2.as_str());
    head.append("  ");
    let h3 = pad_str("SCENARIOS", 10);
    head.append(h3.as_str());
    head.append("  PATH");
    lines.push(head);
    let ghost first = strs_view(lines@);
    let mut valid: usize = 0;
    let mut i: usize = 0;
    while i < results.len()
        invariant
            i <= results.len(),
            valid == valid_count(results@.take(i as int)),
            valid <= i,
            strs_view(lines@) == first + validation_rows(results@.take(i as int)),
        decreases results.len() - i,
    {
        let r = &results[i];
        let mut l = String::from_str("  ");
        let st = pad_str(if r.status == Status::Valid { "OK" } else { "ERR" }, 6);
        l.append(st.as_str());
        l.append("  ");
        let fc = count_string(r.features);
        let fp = pad_str(fc.as_str(), 8);
        l.append(fp.as_str());
        l.append("  ");
        let sc = count_string(r.scenarios);
        let sp = pad_str(sc.as_str(), 10);
        l.append(sp.as_str());
        l.append("  ");
        l.append(r.path.as_str());
        let ghost before = strs_view(lines@);
        let ghost lv = l@;
        lines.push(l);
        assert(strs_view(lines@) =~= before.push(lv));
        match &r.error {
            Some(e) => {
                let mut m = String::from_str("          ");
                m.append(e.as_str());
                let ghost mid = strs_view(lines@);
                let ghost mv = m@;
                lines.push(m);
                assert(strs_view(lines@) =~= mid.push(mv));
            },
            None => {},
        }
        assert(results@.take(i + 1).drop_last() =~= results@.take(i as int));
        assert(results@.take(i + 1).last() == results@[i as int]);
        assert(strs_view(lines@) =~= first + validation_rows(results@.take(i + 1)));
        if r.error.is_none() {
            valid += 1;
        }
        i += 1;
    }
    assert(results@.take(i as int) =~= results@);
    let ghost body = strs_view(lines@);
    lines.push(String::new());
    let mut last = String::from_str("  ");
    let t = decimal_string(results.len() as i128);
    last.append(t.as_str());
    last.append(" file(s) scanned: ");
    let v = decimal_string(valid as i128);
    last.append(v.as_str());
    last.append(" valid, ");
    let inv = decimal_string((results.len() - valid) as i128);
    last.append(inv.as_str());
    last.append(" invalid.");
    let ghost lastv = last@;
    lines.push(last);
    assert(strs_view(lines@) =~= body + seq![seq![], lastv]);
    lines
}

} // verus!
