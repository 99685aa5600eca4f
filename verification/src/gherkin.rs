//! A line-oriented Gherkin reader producing `ParsedFeature` values.
//!
//! The accepted grammar (English keywords):
//! - blank lines and `#` comments are skipped; `@tag` lines collect
//!   tags for the next `Feature:`, `Rule:` or scenario header;
//! - `Feature:` names the feature (exactly one per input);
//! - `Rule:` opens a rule whose tags every scenario under it inherits;
//! - `Background:` steps are copied in front of every later scenario;
//! - `Scenario:`, `Example:`, `Scenario Outline:`, `Scenario Template:`
//!   open a scenario; `Examples:` / `Scenarios:` open its example table;
//! - `Given` / `When` / `Then` start steps of type Context / Action /
//!   Outcome, `And` / `But` / `*` repeat the previous type;
//! - `"""` or ```` ``` ```` delimit a doc string attached to the last
//!   step, `|`-rows are a data table (after a step) or example rows
//!   (after `Examples:`, the first row naming the columns);
//! - free text directly after a header is a description: after
//!   `Feature:` or a scenario header its trimmed lines, joined by
//!   newlines, become that feature's or scenario's `description`; after
//!   `Rule:`, `Background:` or `Examples:` it is allowed and skipped.
//!
//! [`gherkin_parse`] states the whole reading as a left fold of
//! [`gstep`] over the lines.
use vstd::prelude::*;

use crate::error::Error;
use crate::json::{Json, JsonV, json_entries_view, lemma_json_entries_view, obj_find, obj_lookup};
use crate::text::{
    lex_lt, chars_eq, chars_of, dedup_concat, dedup_first, is_digit, is_digits, join_lines,
    join_lines_of, lead_ws, lead_ws_len, lines, lines_of, slice_chars, split_chars, split_on,
    starts_with, starts_with_chars, string_of, strs_view, trim, trim_chars, words, words_of,
};

verus! {

/// One step of a scenario.
#[derive(Debug)]
pub struct ParsedStep {
    /// `Given`, `When`, `Then`, `And`, `But` or `*`.
    pub keyword: String,
    /// `Context`, `Action` or `Outcome`.
    pub keyword_type: String,
    pub text: String,
    pub doc_string: Option<String>,
    /// Data-table rows, each a list of trimmed cells.
    pub data_table: Option<Vec<Vec<String>>>,
}

/// One row of an `Examples:` table.
#[derive(Debug)]
pub struct ParsedExample {
    /// A JSON object from column name to cell value.
    pub data: Json,
    /// The row's `expected_status_code` (or `expected_status`) column.
    pub expected_status_code: Option<i16>,
}

/// A scenario with its steps (background steps first) and examples.
#[derive(Debug)]
pub struct ParsedScenario {
    pub title: String,
    pub description: Option<String>,
    pub tags: Vec<String>,
    pub steps: Vec<ParsedStep>,
    pub examples: Vec<ParsedExample>,
}

/// A parsed `Feature:` block.
#[derive(Debug)]
pub struct ParsedFeature {
    pub name: String,
    pub description: Option<String>,
    pub tags: Vec<String>,
    pub scenarios: Vec<ParsedScenario>,
}

/// Entry point mirroring the strict single-Feature parser.
pub struct GherkinService;

#[verifier::ext_equal]
pub struct StepV {
    pub keyword: Seq<char>,
    pub keyword_type: Seq<char>,
    pub text: Seq<char>,
    pub doc: Option<Seq<char>>,
    pub table: Option<Seq<Seq<Seq<char>>>>,
}

#[verifier::ext_equal]
pub struct ExampleV {
    pub data: JsonV,
    pub status: Option<i16>,
}

#[verifier::ext_equal]
pub struct ScenarioV {
    pub title: Seq<char>,
    pub description: Option<Seq<char>>,
    pub tags: Seq<Seq<char>>,
    pub steps: Seq<StepV>,
    pub examples: Seq<ExampleV>,
}

#[verifier::ext_equal]
pub struct FeatureV {
    pub name: Seq<char>,
    pub description: Option<Seq<char>>,
    pub tags: Seq<Seq<char>>,
    pub scenarios: Seq<ScenarioV>,
}

pub open spec fn table_view(t: Seq<Vec<String>>) -> Seq<Seq<Seq<char>>> {
    t.map_values(|r: Vec<String>| strs_view(r@))
}

impl View for ParsedStep {
    type V = StepV;

    open spec fn view(&self) -> StepV {
        StepV {
            keyword: self.keyword@,
            keyword_type: self.keyword_type@,
            text: self.text@,
            doc: match self.doc_string {
                Some(d) => Some(d@),
                None => None,
            },
            table: match self.data_table {
                Some(t) => Some(table_view(t@)),
                None => None,
            },
        }
    }
}

impl View for ParsedExample {
    type V = ExampleV;

    open spec fn view(&self) -> ExampleV {
        ExampleV { data: self.data@, status: self.expected_status_code }
    }
}

pub open spec fn steps_view(s: Seq<ParsedStep>) -> Seq<StepV> {
    s.map_values(|x: ParsedStep| x@)
}

pub open spec fn examples_view(s: Seq<ParsedExample>) -> Seq<ExampleV> {
    s.map_values(|x: ParsedExample| x@)
}

impl View for ParsedScenario {
    type V = ScenarioV;

    open spec fn view(&self) -> ScenarioV {
        ScenarioV {
            title: self.title@,
            description: match self.description {
                Some(d) => Some(d@),
                None => None,
            },
            tags: strs_view(self.tags@),
            steps: steps_view(self.steps@),
            examples: examples_view(self.examples@),
        }
    }
}

pub open spec fn scenarios_view(s: Seq<ParsedScenario>) -> Seq<ScenarioV> {
    s.map_values(|x: ParsedScenario| x@)
}

impl View for ParsedFeature {
    type V = FeatureV;

    open spec fn view(&self) -> FeatureV {
        FeatureV {
            name: self.name@,
            description: match self.description {
                Some(d) => Some(d@),
                None => None,
            },
            tags: strs_view(self.tags@),
            scenarios: scenarios_view(self.scenarios@),
        }
    }
}

// ---------- the grammar as a fold over lines ----------

pub const MODE_START: u8 = 0;

pub const MODE_FEATURE: u8 = 1;

pub const MODE_RULE: u8 = 2;

pub const MODE_BACKGROUND: u8 = 3;

pub const MODE_SCENARIO: u8 = 4;

pub const MODE_EXAMPLES: u8 = 5;

/// An open doc string: its delimiter, the indentation of the opening
/// line, and the content lines so far.
#[verifier::ext_equal]
pub struct DocV {
    pub delim: Seq<char>,
    pub indent: nat,
    pub lines: Seq<Seq<char>>,
}

/// The reader's state between lines.
#[verifier::ext_equal]
pub struct GState {
    pub name: Option<Seq<char>>,
    pub fdesc: Option<Seq<char>>,
    pub ftags: Seq<Seq<char>>,
    pub pending: Seq<Seq<char>>,
    pub rtags: Seq<Seq<char>>,
    pub mode: u8,
    pub desc_ok: bool,
    pub bg: Seq<StepV>,
    pub done: Seq<ScenarioV>,
    pub cur: Option<ScenarioV>,
    pub step: Option<StepV>,
    pub header: Option<Seq<Seq<char>>>,
    pub doc: Option<DocV>,
    pub err: Option<Seq<char>>,
}

pub open spec fn ginit() -> GState {
    GState {
        name: None,
        fdesc: None,
        ftags: seq![],
        pending: seq![],
        rtags: seq![],
        mode: MODE_START,
        desc_ok: false,
        bg: seq![],
        done: seq![],
        cur: None,
        step: None,
        header: None,
        doc: None,
        err: None,
    }
}

pub open spec fn gfail(s: GState, msg: Seq<char>) -> GState {
    GState { err: Some(msg), ..s }
}

/// Moves the step under way into the background or the current scenario.
pub open spec fn flush_step(s: GState) -> GState {
    match s.step {
        None => s,
        Some(st) => if s.mode == MODE_BACKGROUND {
            GState { bg: s.bg.push(st), step: None, ..s }
        } else {
            match s.cur {
                Some(c) => GState {
                    cur: Some(ScenarioV { steps: c.steps.push(st), ..c }),
                    step: None,
                    ..s
                },
                None => GState { step: None, ..s },
            }
        },
    }
}

/// Closes the step and the scenario under way.
pub open spec fn flush_all(s: GState) -> GState {
    let f = flush_step(s);
    match f.cur {
        Some(c) => GState { done: f.done.push(c), cur: None, ..f },
        None => f,
    }
}

/// Tag names on a tag line: the words that start with `@`, without it.
pub open spec fn tag_words(ws: Seq<Seq<char>>) -> Seq<Seq<char>>
    decreases ws.len(),
{
    if ws.len() == 0 {
        seq![]
    } else {
        let r = tag_words(ws.drop_last());
        let w = ws.last();
        if w.len() > 0 && w[0] == '@' {
            r.push(w.drop_first())
        } else {
            r
        }
    }
}

/// The trimmed cells of a `|`-delimited row.
pub open spec fn row_cells(t: Seq<char>) -> Seq<Seq<char>> {
    let p = split_on(t, '|');
    if p.len() >= 2 {
        p.subrange(1, p.len() - 1).map_values(|c: Seq<char>| trim(c))
    } else {
        seq![]
    }
}

/// A canonical decimal integer that fits in 18 digits.
pub open spec fn is_int_cell(c: Seq<char>) -> bool {
    let d = if c.len() > 0 && c[0] == '-' {
        c.drop_first()
    } else {
        c
    };
    &&& is_digits(d)
    &&& d.len() <= 18
    &&& (d[0] == '0' ==> d.len() == 1 && d.len() == c.len())
}

/// The JSON value of an example cell: booleans, integers, else text.
pub open spec fn cell_value(c: Seq<char>) -> JsonV {
    if c == "true"@ {
        JsonV::Bool(true)
    } else if c == "false"@ {
        JsonV::Bool(false)
    } else if is_int_cell(c) {
        JsonV::Number(c)
    } else {
        JsonV::Str(c)
    }
}

/// Sets `k` to `v`: replaces the first entry under `k`, else appends.
pub open spec fn obj_set(e: Seq<(Seq<char>, JsonV)>, k: Seq<char>, v: JsonV) -> Seq<
    (Seq<char>, JsonV),
>
    decreases e.len(),
{
    if e.len() == 0 {
        seq![(k, v)]
    } else if e[0].0 == k {
        e.update(0, (k, v))
    } else {
        seq![e[0]] + obj_set(e.drop_first(), k, v)
    }
}

/// Sets `k` to `v` in entries kept in key order, as `serde_json`'s
/// default map keeps them: replaces the entry under `k`, else inserts
/// before the first larger key.
pub open spec fn obj_insert(e: Seq<(Seq<char>, JsonV)>, k: Seq<char>, v: JsonV) -> Seq<
    (Seq<char>, JsonV),
>
    decreases e.len(),
{
    if e.len() == 0 {
        seq![(k, v)]
    } else if e[0].0 == k {
        e.update(0, (k, v))
    } else if lex_lt(k, e[0].0) {
        seq![(k, v)] + e
    } else {
        seq![e[0]] + obj_insert(e.drop_first(), k, v)
    }
}

/// The object built from the first `n` header/cell pairs, its keys in
/// order, a repeated column's last cell winning.
pub open spec fn row_entries(h: Seq<Seq<char>>, c: Seq<Seq<char>>, n: nat) -> Seq<
    (Seq<char>, JsonV),
>
    decreases n,
{
    if n == 0 {
        seq![]
    } else {
        obj_insert(row_entries(h, c, (n - 1) as nat), h[n - 1], cell_value(c[n - 1]))
    }
}

/// The expected status of a row, from its status column.
pub open spec fn row_status(e: Seq<(Seq<char>, JsonV)>) -> Option<i16> {
    match obj_lookup(e, "expected_status_code"@) {
        Some(JsonV::Number(t)) => crate::text::parse_i16(t),
        _ => match obj_lookup(e, "expected_status"@) {
            Some(JsonV::Number(t)) => crate::text::parse_i16(t),
            _ => None,
        },
    }
}

pub open spec fn example_of(h: Seq<Seq<char>>, c: Seq<Seq<char>>) -> ExampleV {
    let e = row_entries(h, c, h.len());
    ExampleV { data: JsonV::Object(e), status: row_status(e) }
}

/// Keyword type of the previous step, `Context` when there is none.
pub open spec fn prev_type(s: GState) -> Seq<char> {
    if s.mode == MODE_BACKGROUND {
        if s.bg.len() > 0 {
            s.bg.last().keyword_type
        } else {
            "Context"@
        }
    } else {
        match s.cur {
            Some(c) => if c.steps.len() > 0 {
                c.steps.last().keyword_type
            } else {
                "Context"@
            },
            None => "Context"@,
        }
    }
}

/// The step keyword that `t` starts with, and its type (`None` = inherit).
pub open spec fn step_keyword(t: Seq<char>) -> Option<(Seq<char>, Option<Seq<char>>)> {
    if starts_with(t, "Given "@) {
        Some(("Given"@, Some("Context"@)))
    } else if starts_with(t, "When "@) {
        Some(("When"@, Some("Action"@)))
    } else if starts_with(t, "Then "@) {
        Some(("Then"@, Some("Outcome"@)))
    } else if starts_with(t, "And "@) {
        Some(("And"@, None))
    } else if starts_with(t, "But "@) {
        Some(("But"@, None))
    } else if starts_with(t, "* "@) {
        Some(("*"@, None))
    } else {
        None
    }
}

/// The scenario header keyword that `t` starts with.
pub open spec fn scenario_keyword(t: Seq<char>) -> Option<Seq<char>> {
    if starts_with(t, "Scenario Outline:"@) {
        Some("Scenario Outline:"@)
    } else if starts_with(t, "Scenario Template:"@) {
        Some("Scenario Template:"@)
    } else if starts_with(t, "Scenario:"@) {
        Some("Scenario:"@)
    } else if starts_with(t, "Example:"@) {
        Some("Example:"@)
    } else {
        None
    }
}

/// Handles a line inside an open doc string.
pub open spec fn doc_line(s: GState, line: Seq<char>) -> GState {
    let d = s.doc.unwrap();
    if trim(line) == d.delim {
        match s.step {
            Some(st) => GState {
                doc: None,
                step: Some(StepV { doc: Some(join_lines(d.lines)), ..st }),
                ..s
            },
            None => GState { doc: None, ..s },
        }
    } else {
        let k = if d.indent <= lead_ws(line) {
            d.indent
        } else {
            lead_ws(line)
        };
        GState { doc: Some(DocV { lines: d.lines.push(line.skip(k as int)), ..d }), ..s }
    }
}

/// Handles a `|` row.
pub open spec fn row_line(s: GState, t: Seq<char>) -> GState {
    let cells = row_cells(t);
    if s.mode == MODE_EXAMPLES {
        match s.header {
            None => GState { header: Some(cells), desc_ok: false, ..s },
            Some(h) => if h.len() != cells.len() {
                gfail(s, "Gherkin parse error: inconsistent cell count"@)
            } else {
                match s.cur {
                    Some(c) => GState {
                        cur: Some(ScenarioV { examples: c.examples.push(example_of(h, cells)), ..c }),
                        desc_ok: false,
                        ..s
                    },
                    None => gfail(s, "Gherkin parse error: examples outside a scenario"@),
                }
            },
        }
    } else {
        match s.step {
            Some(st) => if st.doc is Some {
                gfail(s, "Gherkin parse error: step already has a doc string"@)
            } else {
                let rows = match st.table {
                    Some(r) => r,
                    None => seq![],
                };
                GState { step: Some(StepV { table: Some(rows.push(cells)), ..st }), ..s }
            },
            None => gfail(s, "Gherkin parse error: table row without a step"@),
        }
    }
}

/// A description with one more line.
pub open spec fn add_line(d: Option<Seq<char>>, t: Seq<char>) -> Option<Seq<char>> {
    match d {
        Some(x) => Some(x + "\n"@ + t),
        None => Some(t),
    }
}

/// Handles a line outside doc strings; `t` is the trimmed line and
/// `ind` its indentation.
pub open spec fn plain_line(s: GState, t: Seq<char>, ind: nat) -> GState {
    if t.len() == 0 || t[0] == '#' {
        s
    } else if t[0] == '@' {
        GState { pending: s.pending + tag_words(words(t)), ..s }
    } else if starts_with(t, "Feature:"@) {
        if s.name is Some {
            gfail(s, "Gherkin parse error: more than one Feature"@)
        } else {
            GState {
                name: Some(trim(t.skip("Feature:"@.len() as int))),
                ftags: s.pending,
                pending: seq![],
                mode: MODE_FEATURE,
                desc_ok: true,
                ..s
            }
        }
    } else if s.name is None {
        gfail(s, "Gherkin parse error: expected a Feature"@)
    } else if starts_with(t, "Rule:"@) {
        let f = flush_all(s);
        GState { mode: MODE_RULE, rtags: dedup_first(f.pending), pending: seq![], desc_ok: true, ..f }
    } else if starts_with(t, "Background:"@) {
        let f = flush_all(s);
        GState { mode: MODE_BACKGROUND, pending: seq![], desc_ok: true, ..f }
    } else if scenario_keyword(t) is Some {
        let kw = scenario_keyword(t).unwrap();
        let f = flush_all(s);
        GState {
            cur: Some(
                ScenarioV {
                    title: trim(t.skip(kw.len() as int)),
                    description: None,
                    tags: dedup_first(f.pending + f.rtags),
                    steps: f.bg,
                    examples: seq![],
                },
            ),
            pending: seq![],
            mode: MODE_SCENARIO,
            desc_ok: true,
            ..f
        }
    } else if starts_with(t, "Examples:"@) || starts_with(t, "Scenarios:"@) {
        if s.cur is None {
            gfail(s, "Gherkin parse error: examples outside a scenario"@)
        } else {
            let f = flush_step(s);
            GState { mode: MODE_EXAMPLES, header: None, pending: seq![], desc_ok: true, ..f }
        }
    } else if step_keyword(t) is Some {
        let (word, ty) = step_keyword(t).unwrap();
        if s.mode != MODE_BACKGROUND && s.mode != MODE_SCENARIO {
            gfail(s, "Gherkin parse error: step outside a scenario"@)
        } else {
            let f = flush_step(s);
            let kt = match ty {
                Some(k) => k,
                None => prev_type(f),
            };
            GState {
                step: Some(
                    StepV {
                        keyword: word,
                        keyword_type: kt,
                        text: trim(t.skip(word.len() as int)),
                        doc: None,
                        table: None,
                    },
                ),
                desc_ok: false,
                ..f
            }
        }
    } else if starts_with(t, "\"\"\""@) || starts_with(t, "```"@) {
        match s.step {
            None => gfail(s, "Gherkin parse error: doc string without a step"@),
            Some(st) => if st.doc is Some || st.table is Some {
                gfail(s, "Gherkin parse error: step already has an argument"@)
            } else {
                GState { doc: Some(DocV { delim: t.take(3), indent: ind, lines: seq![] }), ..s }
            },
        }
    } else if t[0] == '|' {
        row_line(s, t)
    } else if s.desc_ok {
        if s.mode == MODE_FEATURE {
            GState { fdesc: add_line(s.fdesc, t), ..s }
        } else if s.mode == MODE_SCENARIO && s.cur is Some {
            let c = s.cur->0;
            GState { cur: Some(ScenarioV { description: add_line(c.description, t), ..c }), ..s }
        } else {
            s
        }
    } else {
        gfail(s, "Gherkin parse error: unexpected text"@)
    }
}

/// One line of input.
pub open spec fn gstep(s: GState, line: Seq<char>) -> GState {
    if s.err is Some {
        s
    } else if s.doc is Some {
        doc_line(s, line)
    } else {
        plain_line(s, trim(line), lead_ws(line))
    }
}

/// The state after reading all of `ls`.
pub open spec fn gfold(ls: Seq<Seq<char>>) -> GState
    decreases ls.len(),
{
    if ls.len() == 0 {
        ginit()
    } else {
        gstep(gfold(ls.drop_last()), ls.last())
    }
}

/// The feature at the end of the input, or the error message.
pub open spec fn gfinish(s: GState) -> Result<FeatureV, Seq<char>> {
    if s.err is Some {
        Err(s.err.unwrap())
    } else if s.doc is Some {
        Err("Gherkin parse error: unclosed doc string"@)
    } else {
        match s.name {
            None => Err("Gherkin parse error: no Feature found"@),
            Some(n) => Ok(FeatureV { name: n, description: s.fdesc, tags: s.ftags, scenarios: flush_all(s).done }),
        }
    }
}

/// What [`GherkinService::parse`] reads from `text`.
pub open spec fn gherkin_parse(text: Seq<char>) -> Result<FeatureV, Seq<char>> {
    gfinish(gfold(lines(text)))
}

// ---------- the reader ----------

struct DocBuf {
    delim: Vec<char>,
    indent: usize,
    lines: Vec<Vec<char>>,
}

struct GParser {
    name: Option<String>,
    fdesc: Option<String>,
    ftags: Vec<String>,
    pending: Vec<String>,
    rtags: Vec<String>,
    mode: u8,
    desc_ok: bool,
    bg: Vec<ParsedStep>,
    done: Vec<ParsedScenario>,
    cur: Option<ParsedScenario>,
    step: Option<ParsedStep>,
    header: Option<Vec<String>>,
    doc: Option<DocBuf>,
    err: Option<String>,
}

spec fn chars_view(v: Seq<Vec<char>>) -> Seq<Seq<char>> {
    v.map_values(|x: Vec<char>| x@)
}

impl View for GParser {
    type V = GState;

    closed spec fn view(&self) -> GState {
        GState {
            name: match self.name {
                Some(n) => Some(n@),
                None => None,
            },
            fdesc: match self.fdesc {
                Some(d) => Some(d@),
                None => None,
            },
            ftags: strs_view(self.ftags@),
            pending: strs_view(self.pending@),
            rtags: strs_view(self.rtags@),
            mode: self.mode,
            desc_ok: self.desc_ok,
            bg: steps_view(self.bg@),
            done: scenarios_view(self.done@),
            cur: match self.cur {
                Some(c) => Some(c@),
                None => None,
            },
            step: match self.step {
                Some(st) => Some(st@),
                None => None,
            },
            header: match self.header {
                Some(h) => Some(strs_view(h@)),
                None => None,
            },
            doc: match self.doc {
                Some(d) => Some(DocV { delim: d.delim@, indent: d.indent as nat, lines: chars_view(d.lines@) }),
                None => None,
            },
            err: match self.err {
                Some(e) => Some(e@),
                None => None,
            },
        }
    }
}

fn add_line_exec(d: Option<String>, t: &Vec<char>) -> (r: Option<String>)
    ensures
        (match r {
            Some(x) => Some(x@),
            None => None,
        }) == add_line(
            match d {
                Some(x) => Some(x@),
                None => None,
            },
            t@,
        ),
{
    match d {
        Some(x) => {
            let mut x = x;
            x.append("\n");
            let tt = str_of(t);
            x.append(tt.as_str());
            Some(x)
        },
        None => Some(str_of(t)),
    }
}

fn clone_strs(v: &Vec<String>) -> (r: Vec<String>)
    ensures
        strs_view(r@) == strs_view(v@),
{
    let mut r: Vec<String> = Vec::new();
    let mut i: usize = 0;
    while i < v.len()
        invariant
            i <= v.len(),
            strs_view(r@) == strs_view(v@).take(i as int),
        decreases v.len() - i,
    {
        let ghost r0 = r@;
        let x = v[i].clone();
        r.push(x);
        assert(strs_view(r@) =~= strs_view(r0).push(v@[i as int]@));
        assert(strs_view(v@).take(i + 1) =~= strs_view(v@).take(i as int).push(v@[i as int]@));
        i += 1;
    }
    assert(strs_view(v@).take(i as int) =~= strs_view(v@));
    r
}

fn clone_step(st: &ParsedStep) -> (r: ParsedStep)
    ensures
        r@ == st@,
{
    let table = match &st.data_table {
        Some(t) => {
            let mut rows: Vec<Vec<String>> = Vec::new();
            let mut i: usize = 0;
            while i < t.len()
                invariant
                    i <= t.len(),
                    table_view(rows@) == table_view(t@).take(i as int),
                decreases t.len() - i,
            {
                let ghost r0 = rows@;
                let x = clone_strs(&t[i]);
                rows.push(x);
                assert(table_view(rows@) =~= table_view(r0).push(strs_view(t@[i as int]@)));
                assert(table_view(t@).take(i + 1) =~= table_view(t@).take(i as int).push(
                    strs_view(t@[i as int]@),
                ));
                i += 1;
            }
            assert(table_view(t@).take(i as int) =~= table_view(t@));
            Some(rows)
        },
        None => None,
    };
    ParsedStep {
        keyword: st.keyword.clone(),
        keyword_type: st.keyword_type.clone(),
        text: st.text.clone(),
        doc_string: match &st.doc_string {
            Some(d) => Some(d.clone()),
            None => None,
        },
        data_table: table,
    }
}

fn clone_steps(v: &Vec<ParsedStep>) -> (r: Vec<ParsedStep>)
    ensures
        steps_view(r@) == steps_view(v@),
{
    let mut r: Vec<ParsedStep> = Vec::new();
    let mut i: usize = 0;
    while i < v.len()
        invariant
            i <= v.len(),
            steps_view(r@) == steps_view(v@).take(i as int),
        decreases v.len() - i,
    {
        let ghost r0 = r@;
        let x = clone_step(&v[i]);
        r.push(x);
        assert(steps_view(r@) =~= steps_view(r0).push(v@[i as int]@));
        assert(steps_view(v@).take(i + 1) =~= steps_view(v@).take(i as int).push(v@[i as int]@));
        i += 1;
    }
    assert(steps_view(v@).take(i as int) =~= steps_view(v@));
    r
}

fn str_of(v: &Vec<char>) -> (s: String)
    ensures
        s@ == v@,
{
    string_of(v.as_slice())
}

fn lit(s: &str) -> (v: Vec<char>)
    ensures
        v@ == s@,
{
    chars_of(s)
}

impl GParser {
    fn new() -> (p: GParser)
        ensures
            p@ == ginit(),
    {
        let p = GParser {
            name: None,
            fdesc: None,
            ftags: Vec::new(),
            pending: Vec::new(),
            rtags: Vec::new(),
            mode: MODE_START,
            desc_ok: false,
            bg: Vec::new(),
            done: Vec::new(),
            cur: None,
            step: None,
            header: None,
            doc: None,
            err: None,
        };
        assert(p@ =~= ginit());
        p
    }

    fn fail(&mut self, msg: &str)
        ensures
            final(self)@ == gfail(old(self)@, msg@),
    {
        self.err = Some(msg.to_string());
        proof {
            vstd::string::to_string_from_display_ensures_for_str(msg, self.err.unwrap());
        }
    }

    fn flush_step(&mut self)
        ensures
            final(self)@ == flush_step(old(self)@),
    {
        let st = self.step.take();
        match st {
            None => {},
            Some(st) => {
                if self.mode == MODE_BACKGROUND {
                    self.bg.push(st);
                    assert(steps_view(self.bg@) =~= steps_view(old(self).bg@).push(st@));
                } else {
                    let c = self.cur.take();
                    match c {
                        Some(mut c) => {
                            let ghost c0 = c;
                            c.steps.push(st);
                            assert(steps_view(c.steps@) =~= steps_view(c0.steps@).push(st@));
                            self.cur = Some(c);
                        },
                        None => {},
                    }
                }
            },
        }
    }

    fn flush_all(&mut self)
        ensures
            final(self)@ == flush_all(old(self)@),
    {
        self.flush_step();
        let c = self.cur.take();
        match c {
            Some(c) => {
                let ghost cv = c@;
                let ghost d0 = self.done@;
                self.done.push(c);
                assert(scenarios_view(self.done@) =~= scenarios_view(d0).push(cv));
            },
            None => {},
        }
    }
}

fn tag_words_exec(ws: &Vec<Vec<char>>) -> (r: Vec<String>)
    ensures
        strs_view(r@) == tag_words(chars_view(ws@)),
{
    let ghost wv = chars_view(ws@);
    let mut r: Vec<String> = Vec::new();
    let mut i: usize = 0;
    while i < ws.len()
        invariant
            i <= ws.len(),
            wv == chars_view(ws@),
            strs_view(r@) == tag_words(wv.take(i as int)),
        decreases ws.len() - i,
    {
        assert(wv.take(i + 1).drop_last() =~= wv.take(i as int));
        assert(wv.take(i + 1).last() == ws@[i as int]@);
        let w = &ws[i];
        if w.len() > 0 && w[0] == '@' {
            let ghost r0 = r@;
            let t = slice_chars(w, 1, w.len());
            assert(t@ =~= w@.drop_first());
            r.push(str_of(&t));
            assert(strs_view(r@) =~= strs_view(r0).push(w@.drop_first()));
        }
        i += 1;
    }
    assert(wv.take(i as int) =~= wv);
    r
}

fn row_cells_exec(t: &Vec<char>) -> (r: Vec<String>)
    ensures
        strs_view(r@) == row_cells(t@),
{
    let p = split_chars(t, '|');
    let ghost pv = split_on(t@, '|');
    let mut r: Vec<String> = Vec::new();
    if p.len() < 2 {
        assert(strs_view(r@) =~= seq![]);
        return r;
    }
    let ghost mid = pv.subrange(1, pv.len() - 1);
    let mut i: usize = 1;
    while i + 1 < p.len()
        invariant
            1 <= i <= p.len() - 1,
            p@.len() == pv.len(),
            forall|k: int| 0 <= k < p@.len() ==> #[trigger] p@[k]@ == pv[k],
            mid == pv.subrange(1, pv.len() - 1),
            strs_view(r@) == mid.take(i - 1).map_values(|c: Seq<char>| trim(c)),
        decreases p.len() - i,
    {
        let ghost r0 = r@;
        let c = trim_chars(&p[i]);
        r.push(str_of(&c));
        assert(strs_view(r@) =~= strs_view(r0).push(trim(pv[i as int])));
        assert(mid.take(i as int) =~= mid.take(i - 1).push(pv[i as int]));
        assert(strs_view(r@) =~= mid.take(i as int).map_values(|c: Seq<char>| trim(c)));
        i += 1;
    }
    assert(mid.take(i - 1) =~= mid);
    r
}

fn is_int_cell_exec(c: &Vec<char>) -> (b: bool)
    ensures
        b == is_int_cell(c@),
{
    let start: usize = if c.len() > 0 && c[0] == '-' {
        1
    } else {
        0
    };
    let ghost d = if c@.len() > 0 && c@[0] == '-' {
        c@.drop_first()
    } else {
        c@
    };
    assert(d =~= c@.skip(start as int));
    let n = c.len() - start;
    assert(d.len() == n);
    if n == 0 || n > 18 {
        assert(!is_digits(d) || d.len() > 18);
        assert(is_int_cell(c@) ==> is_digits(d) && d.len() <= 18);
        return false;
    }
    let mut i = start;
    while i < c.len()
        invariant
            start <= i <= c.len(),
            d =~= c@.skip(start as int),
            d == (if c@.len() > 0 && c@[0] == '-' {
                c@.drop_first()
            } else {
                c@
            }),
            d.len() == n,
            0 < n <= 18,
            forall|k: int| 0 <= k < i - start ==> #[trigger] is_digit(d[k]),
        decreases c.len() - i,
    {
        if !('0' <= c[i] && c[i] <= '9') {
            assert(!is_digit(d[i - start]));
            return false;
        }
        assert(d[i - start] == c@[i as int]);
        i += 1;
    }
    assert(d[0] == c@[start as int]);
    if c[start] == '0' {
        return n == 1 && start == 0;
    }
    true
}

fn cell_value_exec(c: &Vec<char>) -> (r: Json)
    ensures
        r@ == cell_value(c@),
{
    if chars_eq(c, &lit("true")) {
        Json::Bool(true)
    } else if chars_eq(c, &lit("false")) {
        Json::Bool(false)
    } else if is_int_cell_exec(c) {
        Json::Number(str_of(c))
    } else {
        Json::Str(str_of(c))
    }
}

proof fn lemma_obj_set_at(e: Seq<(Seq<char>, JsonV)>, k: Seq<char>, v: JsonV, i: int)
    requires
        0 <= i <= e.len(),
        forall|j: int| 0 <= j < i ==> (#[trigger] e[j]).0 != k,
        i < e.len() ==> e[i].0 == k,
    ensures
        obj_set(e, k, v) == if i < e.len() {
            e.update(i, (k, v))
        } else {
            e.push((k, v))
        },
    decreases i,
{
    if i > 0 {
        assert(e[0].0 != k);
        assert forall|j: int| 0 <= j < i - 1 implies (#[trigger] e.drop_first()[j]).0 != k by {
            assert(e.drop_first()[j] == e[j + 1]);
        }
        if i < e.len() {
            assert(e.drop_first()[i - 1] == e[i]);
        }
        lemma_obj_set_at(e.drop_first(), k, v, i - 1);
        if i < e.len() {
            assert(seq![e[0]] + e.drop_first().update(i - 1, (k, v)) =~= e.update(i, (k, v)));
        } else {
            assert(seq![e[0]] + e.drop_first().push((k, v)) =~= e.push((k, v)));
        }
    } else if e.len() == 0 {
        assert(seq![(k, v)] =~= e.push((k, v)));
    }
}

/// Sets `k` to `v` in an object's entries (see [`obj_set`]).
pub fn obj_set_exec(e: &mut Vec<(String, Json)>, k: String, v: Json)
    ensures
        json_entries_view(final(e)@) == obj_set(json_entries_view(old(e)@), k@, v@),
{
    let ghost ev = json_entries_view(e@);
    let ghost kv = k@;
    let ghost vv = v@;
    proof {
        lemma_json_entries_view(e@);
    }
    let found = obj_find(e, &k);
    match found {
        Some(i) => {
            proof {
                assert forall|j: int| 0 <= j < i implies (#[trigger] ev[j]).0 != kv by {
                    assert(ev[j] == (e@[j].0@, e@[j].1@));
                }
                lemma_obj_set_at(ev, kv, vv, i as int);
            }
            e.set(i, (k, v));
            proof {
                lemma_json_entries_view(e@);
                assert(json_entries_view(e@) =~= ev.update(i as int, (kv, vv)));
            }
        },
        None => {
            proof {
                assert forall|j: int| 0 <= j < ev.len() implies (#[trigger] ev[j]).0 != kv by {
                    assert(ev[j] == (e@[j].0@, e@[j].1@));
                }
                lemma_obj_set_at(ev, kv, vv, ev.len() as int);
            }
            e.push((k, v));
            proof {
                lemma_json_entries_view(e@);
                assert(json_entries_view(e@) =~= ev.push((kv, vv)));
            }
        },
    }
}

proof fn lemma_obj_insert_at(e: Seq<(Seq<char>, JsonV)>, k: Seq<char>, v: JsonV, i: int)
    requires
        0 <= i <= e.len(),
        forall|j: int| 0 <= j < i ==> (#[trigger] e[j]).0 != k && !lex_lt(k, e[j].0),
        i < e.len() ==> (e[i].0 == k || lex_lt(k, e[i].0)),
    ensures
        obj_insert(e, k, v) == if i < e.len() && e[i].0 == k {
            e.update(i, (k, v))
        } else {
            e.insert(i, (k, v))
        },
    decreases i,
{
    if i > 0 {
        assert(e[0].0 != k && !lex_lt(k, e[0].0));
        let d = e.drop_first();
        assert forall|j: int| 0 <= j < i - 1 implies (#[trigger] d[j]).0 != k && !lex_lt(k, d[j].0) by {
            assert(d[j] == e[j + 1]);
        }
        if i < e.len() {
            assert(d[i - 1] == e[i]);
        }
        lemma_obj_insert_at(d, k, v, i - 1);
        if i < e.len() && e[i].0 == k {
            assert(seq![e[0]] + d.update(i - 1, (k, v)) =~= e.update(i, (k, v)));
        } else {
            assert(seq![e[0]] + d.insert(i - 1, (k, v)) =~= e.insert(i, (k, v)));
        }
    } else if e.len() == 0 {
        assert(seq![(k, v)] =~= e.insert(0, (k, v)));
    } else if e[0].0 != k {
        assert(seq![(k, v)] + e =~= e.insert(0, (k, v)));
    }
}

/// Sets `k` to `v` in key-ordered entries (see [`obj_insert`]).
pub fn obj_insert_exec(e: &mut Vec<(String, Json)>, k: String, v: Json)
    ensures
        json_entries_view(final(e)@) == obj_insert(json_entries_view(old(e)@), k@, v@),
{
    let ghost ev = json_entries_view(e@);
    let ghost kv = k@;
    let ghost vv = v@;
    proof {
        lemma_json_entries_view(e@);
    }
    let kc = chars_of(k.as_str());
    let mut i: usize = 0;
    let mut stop = false;
    while i < e.len() && !stop
        invariant
            i <= e.len(),
            ev == json_entries_view(e@),
            ev.len() == e.len(),
            forall|j: int| 0 <= j < e.len() ==> #[trigger] ev[j] == (e@[j].0@, e@[j].1@),
            kc@ == kv,
            kv == k@,
            forall|j: int| 0 <= j < i ==> (#[trigger] ev[j]).0 != kv && !lex_lt(kv, ev[j].0),
            stop ==> i < e.len() && (ev[i as int].0 == kv || lex_lt(kv, ev[i as int].0)),
        decreases e.len() - i + if stop { 0int } else { 1int },
    {
        let ec = chars_of(e[i].0.as_str());
        assert(ec@ == ev[i as int].0);
        if chars_eq(&ec, &kc) || crate::text::lex_lt_chars(&kc, &ec) {
            stop = true;
        } else {
            i += 1;
        }
    }
    proof {
        lemma_obj_insert_at(ev, kv, vv, i as int);
    }
    if i < e.len() {
        let ec = chars_of(e[i].0.as_str());
        if chars_eq(&ec, &kc) {
            e.set(i, (k, v));
            proof {
                lemma_json_entries_view(e@);
                assert(json_entries_view(e@) =~= ev.update(i as int, (kv, vv)));
            }
            return;
        }
    }
    e.insert(i, (k, v));
    proof {
        lemma_json_entries_view(e@);
        assert(json_entries_view(e@) =~= ev.insert(i as int, (kv, vv)));
    }
}

fn status_from(e: &Vec<(String, Json)>, key: &str) -> (r: Option<Option<i16>>)
    ensures
        match r {
            Some(x) => match obj_lookup(json_entries_view(e@), key@) {
                Some(JsonV::Number(t)) => x == crate::text::parse_i16(t),
                _ => false,
            },
            None => !(obj_lookup(json_entries_view(e@), key@) matches Some(JsonV::Number(_))),
        },
{
    let k = key.to_string();
    proof {
        vstd::string::to_string_from_display_ensures_for_str(key, k);
    }
    match obj_find(e, &k) {
        Some(i) => match &e[i].1 {
            Json::Number(t) => {
                let v = chars_of(t.as_str());
                Some(crate::text::parse_i16_chars(&v))
            },
            _ => None,
        },
        None => None,
    }
}

fn example_of_exec(h: &Vec<String>, c: &Vec<String>) -> (r: ParsedExample)
    requires
        h.len() == c.len(),
    ensures
        r@ == example_of(strs_view(h@), strs_view(c@)),
{
    let ghost hv = strs_view(h@);
    let ghost cv = strs_view(c@);
    let mut e: Vec<(String, Json)> = Vec::new();
    let mut i: usize = 0;
    while i < h.len()
        invariant
            i <= h.len() == c.len(),
            hv == strs_view(h@),
            cv == strs_view(c@),
            json_entries_view(e@) == row_entries(hv, cv, i as nat),
        decreases h.len() - i,
    {
        let cell = chars_of(c[i].as_str());
        let v = cell_value_exec(&cell);
        obj_insert_exec(&mut e, h[i].clone(), v);
        assert(hv[i as int] == h@[i as int]@);
        assert(cv[i as int] == c@[i as int]@);
        i += 1;
    }
    let ghost ev = json_entries_view(e@);
    let st = match status_from(&e, "expected_status_code") {
        Some(x) => x,
        None => match status_from(&e, "expected_status") {
            Some(x) => x,
            None => None,
        },
    };
    let r = ParsedExample { data: Json::Object(e), expected_status_code: st };
    assert(r@.data == JsonV::Object(ev));
    r
}

impl GParser {
    fn prev_type(&self) -> (r: Vec<char>)
        ensures
            r@ == prev_type(self@),
    {
        if self.mode == MODE_BACKGROUND {
            if self.bg.len() > 0 {
                let k = self.bg.len() - 1;
                assert(steps_view(self.bg@).last() == self.bg@[k as int]@);
                chars_of(self.bg[k].keyword_type.as_str())
            } else {
                lit("Context")
            }
        } else {
            match &self.cur {
                Some(c) => if c.steps.len() > 0 {
                    let k = c.steps.len() - 1;
                    assert(steps_view(c.steps@).last() == c.steps@[k as int]@);
                    chars_of(c.steps[k].keyword_type.as_str())
                } else {
                    lit("Context")
                },
                None => lit("Context"),
            }
        }
    }
}

fn step_keyword_exec(t: &Vec<char>) -> (r: Option<(Vec<char>, Option<Vec<char>>)>)
    ensures
        match r {
            Some((w, k)) => step_keyword(t@) == Some(
                (
                    w@,
                    match k {
                        Some(x) => Some(x@),
                        None => None,
                    },
                ),
            ),
            None => step_keyword(t@) is None,
        },
{
    if starts_with_chars(t, &lit("Given ")) {
        Some((lit("Given"), Some(lit("Context"))))
    } else if starts_with_chars(t, &lit("When ")) {
        Some((lit("When"), Some(lit("Action"))))
    } else if starts_with_chars(t, &lit("Then ")) {
        Some((lit("Then"), Some(lit("Outcome"))))
    } else if starts_with_chars(t, &lit("And ")) {
        Some((lit("And"), None))
    } else if starts_with_chars(t, &lit("But ")) {
        Some((lit("But"), None))
    } else if starts_with_chars(t, &lit("* ")) {
        Some((lit("*"), None))
    } else {
        None
    }
}

fn scenario_keyword_exec(t: &Vec<char>) -> (r: Option<Vec<char>>)
    ensures
        match r {
            Some(w) => scenario_keyword(t@) == Some(w@),
            None => scenario_keyword(t@) is None,
        },
{
    if starts_with_chars(t, &lit("Scenario Outline:")) {
        Some(lit("Scenario Outline:"))
    } else if starts_with_chars(t, &lit("Scenario Template:")) {
        Some(lit("Scenario Template:"))
    } else if starts_with_chars(t, &lit("Scenario:")) {
        Some(lit("Scenario:"))
    } else if starts_with_chars(t, &lit("Example:")) {
        Some(lit("Example:"))
    } else {
        None
    }
}

impl GParser {
    fn doc_line(&mut self, line: &Vec<char>)
        requires
            old(self)@.doc is Some,
        ensures
            final(self)@ == doc_line(old(self)@, line@),
    {
        let d = self.doc.take();
        match d {
            Some(mut d) => {
                let t = trim_chars(line);
                if chars_eq(&t, &d.delim) {
                    let joined = join_lines_of(&d.lines);
                    assert(d.lines@.map_values(|p: Vec<char>| p@) == chars_view(d.lines@));
                    let st = self.step.take();
                    match st {
                        Some(mut st) => {
                            st.doc_string = Some(str_of(&joined));
                            self.step = Some(st);
                        },
                        None => {},
                    }
                    assert(self@ =~= doc_line(old(self)@, line@));
                } else {
                    let lw = lead_ws_len(line);
                    let k = if d.indent <= lw {
                        d.indent
                    } else {
                        lw
                    };
                    let rest = slice_chars(line, k, line.len());
                    let ghost l0 = d.lines@;
                    d.lines.push(rest);
                    assert(chars_view(d.lines@) =~= chars_view(l0).push(line@.skip(k as int)));
                    self.doc = Some(d);
                    assert(self@ =~= doc_line(old(self)@, line@));
                }
            },
            None => {},
        }
    }

    fn row_line(&mut self, t: &Vec<char>)
        ensures
            final(self)@ == row_line(old(self)@, t@),
    {
        let cells = row_cells_exec(t);
        if self.mode == MODE_EXAMPLES {
            match &self.header {
                None => {
                    self.header = Some(cells);
                    self.desc_ok = false;
                    assert(self@ =~= row_line(old(self)@, t@));
                },
                Some(h) => {
                    if h.len() != cells.len() {
                        self.fail("Gherkin parse error: inconsistent cell count");
                    } else {
                        let ex = example_of_exec(h, &cells);
                        let c = self.cur.take();
                        match c {
                            Some(mut c) => {
                                let ghost e0 = c.examples@;
                                let ghost exv = ex@;
                                c.examples.push(ex);
                                assert(examples_view(c.examples@) =~= examples_view(e0).push(exv));
                                self.cur = Some(c);
                                self.desc_ok = false;
                                assert(self@ =~= row_line(old(self)@, t@));
                            },
                            None => {
                                self.fail("Gherkin parse error: examples outside a scenario");
                            },
                        }
                    }
                },
            }
        } else {
            let st = self.step.take();
            match st {
                Some(mut st) => {
                    if st.doc_string.is_some() {
                        self.step = Some(st);
                        self.fail("Gherkin parse error: step already has a doc string");
                    } else {
                        let ghost cv = strs_view(cells@);
                        let mut rows = match st.data_table.take() {
                            Some(r) => r,
                            None => Vec::new(),
                        };
                        let ghost r0 = rows@;
                        rows.push(cells);
                        assert(table_view(rows@) =~= table_view(r0).push(cv));
                        st.data_table = Some(rows);
                        self.step = Some(st);
                        assert(self@ =~= row_line(old(self)@, t@));
                    }
                },
                None => {
                    self.fail("Gherkin parse error: table row without a step");
                },
            }
        }
    }
}

impl GParser {
    fn plain_line(&mut self, t: &Vec<char>, ind: usize)
        ensures
            final(self)@ == plain_line(old(self)@, t@, ind as nat),
    {
        if t.len() == 0 || t[0] == '#' {
            return;
        }
        if t[0] == '@' {
            let ws = words_of(t);
            assert(chars_view(ws@) =~= words(t@));
            let tags = tag_words_exec(&ws);
            assert(strs_view(tags@) == tag_words(words(t@)));
            let ghost p0 = self.pending@;
            let mut np = clone_strs(&self.pending);
            let mut i: usize = 0;
            while i < tags.len()
                invariant
                    i <= tags.len(),
                    strs_view(np@) == strs_view(p0) + strs_view(tags@).take(i as int),
                decreases tags.len() - i,
            {
                let ghost q = np@;
                np.push(tags[i].clone());
                assert(strs_view(np@) =~= strs_view(q).push(tags@[i as int]@));
                assert(strs_view(tags@).take(i + 1) =~= strs_view(tags@).take(i as int).push(
                    tags@[i as int]@,
                ));
                i += 1;
            }
            assert(strs_view(tags@).take(i as int) =~= strs_view(tags@));
            self.pending = np;
            assert(self@ =~= plain_line(old(self)@, t@, ind as nat));
            return;
        }
        let feature = lit("Feature:");
        if starts_with_chars(t, &feature) {
            if self.name.is_some() {
                self.fail("Gherkin parse error: more than one Feature");
            } else {
                let rest = slice_chars(t, feature.len(), t.len());
                assert(rest@ =~= t@.skip(feature@.len() as int));
                let name = trim_chars(&rest);
                self.name = Some(str_of(&name));
                let mut tags: Vec<String> = Vec::new();
                std::mem::swap(&mut tags, &mut self.pending);
                self.ftags = tags;
                self.mode = MODE_FEATURE;
                self.desc_ok = true;
                assert(strs_view(self.pending@) =~= seq![]);
                assert(self@ =~= plain_line(old(self)@, t@, ind as nat));
            }
            return;
        }
        if self.name.is_none() {
            self.fail("Gherkin parse error: expected a Feature");
            return;
        }
        if starts_with_chars(t, &lit("Rule:")) {
            self.flush_all();
            let ghost f = self@;
            let mut pending: Vec<String> = Vec::new();
            std::mem::swap(&mut pending, &mut self.pending);
            let empty: Vec<String> = Vec::new();
            self.rtags = dedup_concat(&pending, &empty);
            assert(strs_view(pending@) + strs_view(empty@) =~= strs_view(pending@));
            self.mode = MODE_RULE;
            self.desc_ok = true;
            assert(strs_view(self.pending@) =~= seq![]);
            assert(self@ =~= plain_line(old(self)@, t@, ind as nat));
            return;
        }
        if starts_with_chars(t, &lit("Background:")) {
            self.flush_all();
            self.pending = Vec::new();
            self.mode = MODE_BACKGROUND;
            self.desc_ok = true;
            assert(strs_view(self.pending@) =~= seq![]);
            assert(self@ =~= plain_line(old(self)@, t@, ind as nat));
            return;
        }
        let sk = scenario_keyword_exec(t);
        match sk {
            Some(kw) => {
                self.flush_all();
                let rest = slice_chars(t, kw.len(), t.len());
                assert(rest@ =~= t@.skip(kw@.len() as int));
                let title = trim_chars(&rest);
                let tags = dedup_concat(&self.pending, &self.rtags);
                let steps = clone_steps(&self.bg);
                let examples: Vec<ParsedExample> = Vec::new();
                assert(examples_view(examples@) =~= seq![]);
                self.cur = Some(
                    ParsedScenario {
                        title: str_of(&title),
                        description: None,
                        tags,
                        steps,
                        examples,
                    },
                );
                self.pending = Vec::new();
                self.mode = MODE_SCENARIO;
                self.desc_ok = true;
                assert(strs_view(self.pending@) =~= seq![]);
                assert(self@ =~= plain_line(old(self)@, t@, ind as nat));
                return;
            },
            None => {},
        }
        if starts_with_chars(t, &lit("Examples:")) || starts_with_chars(t, &lit("Scenarios:")) {
            if self.cur.is_none() {
                self.fail("Gherkin parse error: examples outside a scenario");
            } else {
                self.flush_step();
                self.mode = MODE_EXAMPLES;
                self.header = None;
                self.pending = Vec::new();
                self.desc_ok = true;
                assert(strs_view(self.pending@) =~= seq![]);
                assert(self@ =~= plain_line(old(self)@, t@, ind as nat));
            }
            return;
        }
        let skw = step_keyword_exec(t);
        match skw {
            Some((word, ty)) => {
                if self.mode != MODE_BACKGROUND && self.mode != MODE_SCENARIO {
                    self.fail("Gherkin parse error: step outside a scenario");
                } else {
                    self.flush_step();
                    let kt = match ty {
                        Some(k) => k,
                        None => self.prev_type(),
                    };
                    proof {
                        reveal_strlit("Given");
                        reveal_strlit("Given ");
                        reveal_strlit("When");
                        reveal_strlit("When ");
                        reveal_strlit("Then");
                        reveal_strlit("Then ");
                        reveal_strlit("And");
                        reveal_strlit("And ");
                        reveal_strlit("But");
                        reveal_strlit("But ");
                        reveal_strlit("*");
                        reveal_strlit("* ");
                    }
                    let rest = slice_chars(t, word.len(), t.len());
                    assert(rest@ =~= t@.skip(word@.len() as int));
                    let text = trim_chars(&rest);
                    self.step = Some(
                        ParsedStep {
                            keyword: str_of(&word),
                            keyword_type: str_of(&kt),
                            text: str_of(&text),
                            doc_string: None,
                            data_table: None,
                        },
                    );
                    self.desc_ok = false;
                    assert(self@ =~= plain_line(old(self)@, t@, ind as nat));
                }
                return;
            },
            None => {},
        }
        if starts_with_chars(t, &lit("\"\"\"")) || starts_with_chars(t, &lit("```")) {
            match &self.step {
                None => {
                    self.fail("Gherkin parse error: doc string without a step");
                },
                Some(st) => {
                    if st.doc_string.is_some() || st.data_table.is_some() {
                        self.fail("Gherkin parse error: step already has an argument");
                    } else {
                        proof {
                            reveal_strlit("\"\"\"");
                            reveal_strlit("```");
                        }
                        let delim = slice_chars(t, 0, 3);
                        assert(delim@ =~= t@.take(3));
                        let lines: Vec<Vec<char>> = Vec::new();
                        assert(chars_view(lines@) =~= seq![]);
                        self.doc = Some(DocBuf { delim, indent: ind, lines });
                        assert(self@ =~= plain_line(old(self)@, t@, ind as nat));
                    }
                },
            }
            return;
        }
        if t[0] == '|' {
            self.row_line(t);
            return;
        }
        if !self.desc_ok {
            self.fail("Gherkin parse error: unexpected text");
        } else if self.mode == MODE_FEATURE {
            let d = self.fdesc.take();
            self.fdesc = add_line_exec(d, t);
            assert(self@ =~= plain_line(old(self)@, t@, ind as nat));
        } else if self.mode == MODE_SCENARIO && self.cur.is_some() {
            let mut c = self.cur.take().unwrap();
            let d = c.description.take();
            c.description = add_line_exec(d, t);
            self.cur = Some(c);
            assert(self@ =~= plain_line(old(self)@, t@, ind as nat));
        }
    }

    fn feed(&mut self, line: &Vec<char>)
        ensures
            final(self)@ == gstep(old(self)@, line@),
    {
        if self.err.is_some() {
            return;
        }
        if self.doc.is_some() {
            self.doc_line(line);
            return;
        }
        let t = trim_chars(line);
        let ind = lead_ws_len(line);
        self.plain_line(&t, ind);
    }
}

impl GParser {
    fn finish(self) -> (r: Result<ParsedFeature, String>)
        ensures
            match r {
                Ok(f) => gfinish(self@) == Ok::<FeatureV, Seq<char>>(f@),
                Err(m) => gfinish(self@) == Err::<FeatureV, Seq<char>>(m@),
            },
    {
        let ghost v = self@;
        let mut p = self;
        if p.err.is_some() {
            return Err(p.err.unwrap());
        }
        if p.doc.is_some() {
            return Err("Gherkin parse error: unclosed doc string".to_string());
        }
        if p.name.is_none() {
            return Err("Gherkin parse error: no Feature found".to_string());
        }
        p.flush_all();
        let f = ParsedFeature {
            name: p.name.unwrap(),
            description: p.fdesc,
            tags: p.ftags,
            scenarios: p.done,
        };
        proof {
            assert(gfinish(v) matches Ok(fv) && f@ =~= fv);
        }
        Ok(f)
    }
}

impl GherkinService {
    /// Parses one `Feature:` block; see [`gherkin_parse`].
    pub fn parse(content: &str) -> (r: Result<ParsedFeature, Error>)
        ensures
            match r {
                Ok(f) => gherkin_parse(content@) == Ok::<FeatureV, Seq<char>>(f@),
                Err(Error::Spec(m)) => gherkin_parse(content@) == Err::<FeatureV, Seq<char>>(m@),
                Err(_) => false,
            },
    {
        let v = chars_of(content);
        let ls = lines_of(&v);
        let mut p = GParser::new();
        let mut i: usize = 0;
        while i < ls.len()
            invariant
                i <= ls.len(),
                ls@.len() == lines(v@).len(),
                forall|k: int| 0 <= k < ls@.len() ==> #[trigger] ls@[k]@ == lines(v@)[k],
                p@ == gfold(lines(v@).take(i as int)),
            decreases ls.len() - i,
        {
            assert(lines(v@).take(i + 1).drop_last() =~= lines(v@).take(i as int));
            p.feed(&ls[i]);
            i += 1;
        }
        assert(lines(v@).take(i as int) =~= lines(v@));
        match p.finish() {
            Ok(f) => Ok(f),
            Err(m) => Err(Error::Spec(m)),
        }
    }
}

} // verus!
