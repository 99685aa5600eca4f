//! The step-pattern engine: turns Gherkin step text into effects on a
//! row's [`ScenarioContext`].
//!
//! A pattern is a regular expression, an optional keyword filter
//! (`Given` / `When` / `Then`) and a list of actions. When the regex
//! matches the (placeholder-substituted) step text and the filter
//! accepts the step, the actions run in order. Built-in patterns cover
//! generic HTTP-shaped Gherkin; user patterns are appended after them.
//!
//! Regular expressions are compiled and matched by the `regex` crate
//! ([`match_groups`]); everything done with the matched text is
//! verified here.
use vstd::prelude::*;

use crate::error::Error;
use crate::gherkin::{obj_set, obj_set_exec, ParsedStep, StepV};
use crate::json::{
    is_vacuous, is_vacuous_expected_body, json_clone, json_entries_view, json_parse,
    json_render, lemma_json_entries_view, obj_find, obj_lookup, opt_json_view, parse_json,
    render_json, splice_string, splice_text, Json, JsonV,
};
use crate::runner::{pairs_view, CtxV, ScenarioContext, StatusMatcher};
use crate::text::{chars_of, parse_i16, parse_i16_chars, string_of, words, words_of, strs_view};
use crate::textops::{replace_all, replace_str, trim_quotes, trim_quotes_chars};

verus! {

/// The keyword class of a step.
#[derive(Debug, Clone, Copy, PartialEq, Eq, Structural)]
pub enum KeywordType {
    /// `Given`
    Context,
    /// `When`
    Action,
    /// `Then`
    Outcome,
}

/// The keyword class a step's `keyword_type` text names.
pub open spec fn keyword_type_of(s: Seq<char>) -> Option<KeywordType> {
    if s == "Context"@ {
        Some(KeywordType::Context)
    } else if s == "Action"@ {
        Some(KeywordType::Action)
    } else if s == "Outcome"@ {
        Some(KeywordType::Outcome)
    } else {
        None
    }
}

impl KeywordType {
    /// Reads `Context` / `Action` / `Outcome`.
    pub fn from_str(s: &str) -> (r: Option<KeywordType>)
        ensures
            r == keyword_type_of(s@),
    {
        let v = chars_of(s);
        proof {
            reveal_strlit("Context");
            reveal_strlit("Action");
            reveal_strlit("Outcome");
        }
        if crate::text::chars_eq(&v, &chars_of("Context")) {
            Some(KeywordType::Context)
        } else if crate::text::chars_eq(&v, &chars_of("Action")) {
            Some(KeywordType::Action)
        } else if crate::text::chars_eq(&v, &chars_of("Outcome")) {
            Some(KeywordType::Outcome)
        } else {
            None
        }
    }
}

/// One capture group of a regex match: the group's name, if it has
/// one, and the text it matched, if it took part in the match.
pub type Group = (Option<String>, Option<String>);

/// The mathematical value of a [`Group`].
pub type GroupV = (Option<Seq<char>>, Option<Seq<char>>);

/// The view of each group.
pub open spec fn groups_view(g: Seq<Group>) -> Seq<GroupV> {
    g.map_values(
        |x: Group|
            (
                match x.0 {
                    Some(n) => Some(n@),
                    None => None,
                },
                match x.1 {
                    Some(t) => Some(t@),
                    None => None,
                },
            ),
    )
}

/// What the `regex` crate reports when `src` is compiled and searched
/// in `text`: for every capture group, in group order, its name and
/// the text it matched; `None` when `src` does not compile or does not
/// match.
pub uninterp spec fn regex_groups(src: Seq<char>, text: Seq<char>) -> Option<Seq<GroupV>>;

/// The message `regex::Regex::new` gives when `src` does not compile.
pub uninterp spec fn regex_error(src: Seq<char>) -> Option<Seq<char>>;

/// Compiles `src` with `regex::Regex::new` and reports the capture
/// groups of its first match in `text` (see [`regex_groups`]).
#[verifier::external_body]
pub fn match_groups(src: &str, text: &str) -> (r: Option<Vec<Group>>)
    ensures
        match r {
            Some(g) => regex_groups(src@, text@) == Some(groups_view(g@)),
            None => regex_groups(src@, text@) is None,
        },
{
    let re = match regex::Regex::new(src) { Ok(re) => re, Err(_) => return None };
    let caps = match re.captures(text) { Some(c) => c, None => return None };
    let mut out: Vec<Group> = Vec::new();
    for (i, n) in re.capture_names().enumerate() {
        let name = match n { Some(x) => Some(x.to_string()), None => None };
        let hit = match caps.get(i) { Some(m) => Some(m.as_str().to_string()), None => None };
        out.push((name, hit));
    }
    Some(out)
}

/// The error text of `regex::Regex::new(src)`, if it fails.
#[verifier::external_body]
pub(crate) fn regex_compile_error(src: &str) -> (r: Option<String>)
    ensures
        match r {
            Some(m) => regex_error(src@) == Some(m@),
            None => regex_error(src@) is None,
        },
{
    match regex::Regex::new(src) {
        Ok(_) => None,
        Err(e) => Some(e.to_string()),
    }
}

/// The text of the first group named `name`, if it took part.
pub open spec fn group_text(g: Seq<GroupV>, name: Seq<char>) -> Option<Seq<char>>
    decreases g.len(),
{
    if g.len() == 0 {
        None
    } else if g[0].0 == Some(name) {
        g[0].1
    } else {
        group_text(g.drop_first(), name)
    }
}

/// The text the group `name` matched (see [`group_text`]).
pub fn group_named(g: &Vec<Group>, name: &str) -> (r: Option<String>)
    ensures
        opt_view(r) == group_text(groups_view(g@), name@),
{
    let ghost gv = groups_view(g@);
    let mut i: usize = 0;
    assert(gv.skip(0) =~= gv);
    while i < g.len()
        invariant
            i <= g.len(),
            gv == groups_view(g@),
            group_text(gv.skip(i as int), name@) == group_text(gv, name@),
        decreases g.len() - i,
    {
        assert(gv.skip(i as int)[0] == gv[i as int]);
        assert(gv.skip(i as int).drop_first() =~= gv.skip(i + 1));
        match &g[i].0 {
            Some(n) => {
                if crate::text::chars_eq(&chars_of(n.as_str()), &chars_of(name)) {
                    return match &g[i].1 {
                        Some(t) => Some(t.clone()),
                        None => None,
                    };
                }
            },
            None => {},
        }
        i += 1;
    }
    assert(gv.skip(i as int).len() == 0);
    None
}

/// The view of an optional string.
pub open spec fn opt_view(o: Option<String>) -> Option<Seq<char>> {
    match o {
        Some(s) => Some(s@),
        None => None,
    }
}

// ---------- placeholder substitution ----------

/// Replaces `<key>` by the spliced text of each entry, entry by entry.
pub open spec fn subst_entries(text: Seq<char>, e: Seq<(Seq<char>, JsonV)>) -> Seq<char>
    decreases e.len(),
{
    if e.len() == 0 {
        text
    } else {
        subst_entries(
            replace_all(text, seq!['<'] + e[0].0 + seq!['>'], splice_text(e[0].1)),
            e.drop_first(),
        )
    }
}

/// `<key>` placeholders of `text` replaced from an example row; a row
/// that is not an object changes nothing.
pub open spec fn substitute(text: Seq<char>, data: JsonV) -> Seq<char> {
    match data {
        JsonV::Object(e) => subst_entries(text, e),
        _ => text,
    }
}

/// Replaces `<key>` placeholders in `text` with values from
/// `example_data` (see [`substitute`]).
pub fn substitute_placeholders(text: &str, example_data: &Json) -> (r: String)
    ensures
        r@ == substitute(text@, example_data@),
{
    let mut result = String::from_str(text);
    match example_data {
        Json::Object(entries) => {
            let ghost ev = json_entries_view(entries@);
            proof {
                lemma_json_entries_view(entries@);
            }
            let mut i: usize = 0;
            assert(ev.skip(0) =~= ev);
            while i < entries.len()
                invariant
                    i <= entries.len(),
                    ev == json_entries_view(entries@),
                    ev.len() == entries.len(),
                    forall|k: int|
                        0 <= k < entries.len() ==> #[trigger] ev[k] == (
                            entries@[k].0@,
                            entries@[k].1@,
                        ),
                    subst_entries(result@, ev.skip(i as int)) == subst_entries(text@, ev),
                decreases entries.len() - i,
            {
                let mut ph = String::from_str("<");
                ph.append(entries[i].0.as_str());
                ph.append(">");
                let rep = splice_string(&entries[i].1);
                proof {
                    reveal_strlit("<");
                    reveal_strlit(">");
                    assert(ev.skip(i as int)[0] == ev[i as int]);
                    assert(ev.skip(i as int).drop_first() =~= ev.skip(i + 1));
                    assert(ph@ =~= seq!['<'] + ev[i as int].0 + seq!['>']);
                }
                result = replace_str(result.as_str(), ph.as_str(), rep.as_str());
                i += 1;
            }
            assert(ev.skip(i as int).len() == 0);
            result
        },
        _ => result,
    }
}

// ---------- text scans ----------

/// Whether `s` reads as a status code in `100..600`.
pub open spec fn status_word(w: Seq<char>) -> Option<i16> {
    match parse_i16(w) {
        Some(v) => if 100 <= v && v < 600 {
            Some(v)
        } else {
            None
        },
        None => None,
    }
}

/// The first status code among the words from index `k` on: a word
/// that is one, or the word after `status` / `code`.
pub open spec fn scan_status_from(ws: Seq<Seq<char>>, k: int) -> Option<i16>
    decreases ws.len() - k,
{
    if k < 0 || k >= ws.len() {
        None
    } else if status_word(ws[k]) is Some {
        status_word(ws[k])
    } else if (ws[k] == "status"@ || ws[k] == "code"@) && k + 1 < ws.len() && status_word(
        ws[k + 1],
    ) is Some {
        status_word(ws[k + 1])
    } else {
        scan_status_from(ws, k + 1)
    }
}

/// The status code a step's text announces.
pub open spec fn scan_status(text: Seq<char>) -> Option<i16> {
    scan_status_from(words(text), 0)
}

fn status_word_exec(w: &Vec<char>) -> (r: Option<i16>)
    ensures
        r == status_word(w@),
{
    match parse_i16_chars(w) {
        Some(v) => if 100 <= v && v < 600 {
            Some(v)
        } else {
            None
        },
        None => None,
    }
}

/// Scans the words of `text` for the first status code in `100..600`
/// (see [`scan_status`]).
pub fn scan_status_code(text: &str) -> (r: Option<i16>)
    ensures
        r == scan_status(text@),
{
    let tv = chars_of(text);
    let ws = words_of(&tv);
    let ghost wv = words(text@);
    let status_lit = chars_of("status");
    let code_lit = chars_of("code");
    proof {
        reveal_strlit("status");
        reveal_strlit("code");
    }
    let mut i: usize = 0;
    while i < ws.len()
        invariant
            i <= ws.len(),
            wv == words(text@),
            ws@.len() == wv.len(),
            forall|k: int| 0 <= k < ws@.len() ==> #[trigger] ws@[k]@ == wv[k],
            status_lit@ == "status"@,
            code_lit@ == "code"@,
            scan_status_from(wv, i as int) == scan_status_from(wv, 0),
        decreases ws.len() - i,
    {
        let here = status_word_exec(&ws[i]);
        if here.is_some() {
            return here;
        }
        if (crate::text::chars_eq(&ws[i], &status_lit) || crate::text::chars_eq(&ws[i], &code_lit))
            && i + 1 < ws.len() {
            let next = status_word_exec(&ws[i + 1]);
            if next.is_some() {
                return next;
            }
        }
        i += 1;
    }
    None
}

/// Index of the first quote character at or after `k`, or `s.len()`.
pub open spec fn find_quote(s: Seq<char>, k: int) -> int
    decreases s.len() - k,
{
    if k < 0 || k >= s.len() {
        s.len() as int
    } else if s[k] == '"' || s[k] == '\'' {
        k
    } else {
        find_quote(s, k + 1)
    }
}

/// Index of the first `c` at or after `k`, or `s.len()`.
pub open spec fn find_char(s: Seq<char>, c: char, k: int) -> int
    decreases s.len() - k,
{
    if k < 0 || k >= s.len() {
        s.len() as int
    } else if s[k] == c {
        k
    } else {
        find_char(s, c, k + 1)
    }
}

/// The text between the first quote character and the next occurrence
/// of the same character, if both exist.
pub open spec fn first_quoted(s: Seq<char>) -> Option<Seq<char>> {
    let i = find_quote(s, 0);
    if i >= s.len() {
        None
    } else {
        let j = find_char(s, s[i], i + 1);
        if j >= s.len() {
            None
        } else {
            Some(s.subrange(i + 1, j))
        }
    }
}

proof fn lemma_find_quote_bounds(s: Seq<char>, k: int)
    requires
        0 <= k <= s.len(),
    ensures
        k <= find_quote(s, k) <= s.len(),
        find_quote(s, k) < s.len() ==> (s[find_quote(s, k)] == '"' || s[find_quote(s, k)] == '\''),
    decreases s.len() - k,
{
    if k < s.len() && !(s[k] == '"' || s[k] == '\'') {
        lemma_find_quote_bounds(s, k + 1);
    }
}

proof fn lemma_find_char_bounds(s: Seq<char>, c: char, k: int)
    requires
        0 <= k <= s.len(),
    ensures
        k <= find_char(s, c, k) <= s.len(),
        find_char(s, c, k) < s.len() ==> s[find_char(s, c, k)] == c,
    decreases s.len() - k,
{
    if k < s.len() && s[k] != c {
        lemma_find_char_bounds(s, c, k + 1);
    }
}

/// The first single- or double-quoted substring of `text` (see
/// [`first_quoted`]).
pub fn scan_first_quoted(text: &str) -> (r: Option<String>)
    ensures
        opt_view(r) == first_quoted(text@),
{
    let v = chars_of(text);
    let mut i: usize = 0;
    while i < v.len() && !(v[i] == '"' || v[i] == '\'')
        invariant
            i <= v.len(),
            v@ == text@,
            find_quote(v@, i as int) == find_quote(v@, 0),
        decreases v.len() - i,
    {
        i += 1;
    }
    if i >= v.len() {
        return None;
    }
    let q = v[i];
    let mut j: usize = i + 1;
    while j < v.len() && v[j] != q
        invariant
            i < j <= v.len(),
            v@ == text@,
            q == v@[i as int],
            find_quote(v@, 0) == i,
            find_char(v@, q, j as int) == find_char(v@, q, i + 1),
        decreases v.len() - j,
    {
        j += 1;
    }
    if j >= v.len() {
        return None;
    }
    let inner = crate::text::slice_chars(&v, i + 1, j);
    Some(string_of(inner.as_slice()))
}

/// Sets `k` to `v` in a list of pairs: replaces the first entry under
/// `k`, else appends (`HashMap::insert` on an association list).
pub open spec fn pairs_set(e: Seq<(Seq<char>, Seq<char>)>, k: Seq<char>, v: Seq<char>) -> Seq<
    (Seq<char>, Seq<char>),
>
    decreases e.len(),
{
    if e.len() == 0 {
        seq![(k, v)]
    } else if e[0].0 == k {
        e.update(0, (k, v))
    } else {
        seq![e[0]] + pairs_set(e.drop_first(), k, v)
    }
}

proof fn lemma_pairs_set_at(e: Seq<(Seq<char>, Seq<char>)>, k: Seq<char>, v: Seq<char>, i: int)
    requires
        0 <= i <= e.len(),
        forall|j: int| 0 <= j < i ==> (#[trigger] e[j]).0 != k,
        i < e.len() ==> e[i].0 == k,
    ensures
        pairs_set(e, k, v) == if i < e.len() {
            e.update(i, (k, v))
        } else {
            e.push((k, v))
        },
    decreases i,
{
    if i > 0 {
        assert(e[0].0 != k);
        assert forall|j: int| 0 <= j < i - 1 implies (#[trigger] e.drop_first()[j]).0 != k by {
            assert(e.drop_first()[j] == e[j + 1]);
        }
        lemma_pairs_set_at(e.drop_first(), k, v, i - 1);
        if i < e.len() {
            assert(seq![e[0]] + e.drop_first().update(i - 1, (k, v)) =~= e.update(i, (k, v)));
        } else {
            assert(seq![e[0]] + e.drop_first().push((k, v)) =~= e.push((k, v)));
        }
    } else if e.len() == 0 {
        assert(seq![(k, v)] =~= e.push((k, v)));
    }
}

/// Sets `k` to `v` in a list of string pairs (see [`pairs_set`]).
pub fn pairs_set_exec(e: &mut Vec<(String, String)>, k: String, v: String)
    ensures
        pairs_view(final(e)@) == pairs_set(pairs_view(old(e)@), k@, v@),
{
    let ghost ev = pairs_view(e@);
    let mut i: usize = 0;
    while i < e.len()
        invariant
            i <= e.len(),
            ev == pairs_view(e@),
            e@ == old(e)@,
            forall|j: int| 0 <= j < i ==> (#[trigger] ev[j]).0 != k@,
        decreases e.len() - i,
    {
        if e[i].0 == k {
            proof {
                lemma_pairs_set_at(ev, k@, v@, i as int);
            }
            let ghost kv = k@;
            let ghost vv = v@;
            e.set(i, (k, v));
            assert(pairs_view(e@) =~= ev.update(i as int, (kv, vv)));
            return;
        }
        i += 1;
    }
    proof {
        lemma_pairs_set_at(ev, k@, v@, ev.len() as int);
    }
    let ghost kv = k@;
    let ghost vv = v@;
    e.push((k, v));
    assert(pairs_view(e@) =~= ev.push((kv, vv)));
}

/// Index of the first word from `k` on that is one of `anchors`, or `ws.len()`.
pub open spec fn find_anchor(ws: Seq<Seq<char>>, anchors: Seq<Seq<char>>, k: int) -> int
    decreases ws.len() - k,
{
    if k < 0 || k >= ws.len() {
        ws.len() as int
    } else if anchors.contains(ws[k]) {
        k
    } else {
        find_anchor(ws, anchors, k + 1)
    }
}

/// The bucket after a word scan: after the first anchor word, the next
/// word is the key and the last word the value, both without quotes.
pub open spec fn word_pair(text: Seq<char>, anchors: Seq<Seq<char>>, bucket: Seq<
    (Seq<char>, Seq<char>),
>) -> Seq<(Seq<char>, Seq<char>)> {
    let ws = words(text);
    let i = find_anchor(ws, anchors, 0);
    if i + 1 < ws.len() {
        pairs_set(bucket, trim_quotes(ws[i + 1]), trim_quotes(ws.last()))
    } else {
        bucket
    }
}

proof fn lemma_find_anchor_bounds(ws: Seq<Seq<char>>, anchors: Seq<Seq<char>>, k: int)
    requires
        0 <= k <= ws.len(),
    ensures
        k <= find_anchor(ws, anchors, k) <= ws.len(),
    decreases ws.len() - k,
{
    if k < ws.len() && !anchors.contains(ws[k]) {
        lemma_find_anchor_bounds(ws, anchors, k + 1);
    }
}

/// Word-scans `text` for `anchor_words` and inserts the key/value pair
/// found into `bucket` (see [`word_pair`]).
pub fn word_scan_pair(text: &str, anchor_words: &Vec<String>, bucket: &mut Vec<(String, String)>)
    ensures
        pairs_view(final(bucket)@) == word_pair(
            text@,
            strs_view(anchor_words@),
            pairs_view(old(bucket)@),
        ),
{
    let tv = chars_of(text);
    let ws = words_of(&tv);
    let ghost wv = words(text@);
    let ghost av = strs_view(anchor_words@);
    let mut i: usize = 0;
    let mut found = false;
    while i < ws.len() && !found
        invariant
            i <= ws.len(),
            wv == words(text@),
            av == strs_view(anchor_words@),
            ws@.len() == wv.len(),
            forall|k: int| 0 <= k < ws@.len() ==> #[trigger] ws@[k]@ == wv[k],
            !found ==> find_anchor(wv, av, i as int) == find_anchor(wv, av, 0),
            found ==> i < ws.len() && find_anchor(wv, av, 0) == i,
        decreases ws.len() - i, if found { 0int } else { 1int },
    {
        let w = string_of(ws[i].as_slice());
        let hit = crate::text::contains_str(anchor_words, &w);
        if hit {
            found = true;
        } else {
            i += 1;
        }
    }
    proof {
        lemma_find_anchor_bounds(wv, av, 0);
    }
    if found && i + 1 < ws.len() {
        let key = trim_quotes_chars(&ws[i + 1]);
        let value = trim_quotes_chars(&ws[ws.len() - 1]);
        assert(wv.last() == wv[ws.len() - 1]);
        pairs_set_exec(bucket, string_of(key.as_slice()), string_of(value.as_slice()));
    }
}


// ---------- templates and value sources ----------

/// Length of the run of characters other than `{` and `}` that
/// starts `s`.
pub open spec fn name_run(s: Seq<char>) -> nat
    decreases s.len(),
{
    if s.len() > 0 && s[0] != '{' && s[0] != '}' {
        1 + name_run(s.drop_first())
    } else {
        0
    }
}

proof fn lemma_name_run_bound(s: Seq<char>)
    ensures
        name_run(s) <= s.len(),
        forall|i: int| 0 <= i < name_run(s) ==> #[trigger] s[i] != '{' && s[i] != '}',
        name_run(s) < s.len() ==> (s[name_run(s) as int] == '{' || s[name_run(s) as int] == '}'),
    decreases s.len(),
{
    if s.len() > 0 && s[0] != '{' && s[0] != '}' {
        lemma_name_run_bound(s.drop_first());
        assert forall|i: int| 0 <= i < name_run(s) implies #[trigger] s[i] != '{' && s[i] != '}' by {
            if i > 0 {
                assert(s[i] == s.drop_first()[i - 1]);
            }
        }
        if name_run(s) < s.len() {
            assert(s[name_run(s) as int] == s.drop_first()[name_run(s.drop_first()) as int]);
        }
    }
}

/// The placeholder at the head of `s`, `\{\{(\$)?([^{}]+)\}\}`:
/// whether it names a variable, the name and the placeholder's
/// length. Names hold no braces, so in nested placeholders only the
/// innermost ones match.
pub open spec fn placeholder_at(s: Seq<char>) -> Option<(bool, Seq<char>, int)> {
    if s.len() >= 2 && s[0] == '{' && s[1] == '{' {
        let n: int = name_run(s.skip(2)) as int;
        if n > 0 && 2 + n + 2 <= s.len() && s[2 + n] == '}' && s[2 + n + 1] == '}' {
            if s[2] == '$' && n > 1 {
                Some((true, s.subrange(3, 2 + n), 2 + n + 2))
            } else {
                Some((false, s.subrange(2, 2 + n), 2 + n + 2))
            }
        } else {
            None
        }
    } else {
        None
    }
}

/// The text a placeholder expands to: a variable's string (or its
/// compact JSON), or a capture group's text; empty when unknown.
pub open spec fn template_value(
    is_var: bool,
    name: Seq<char>,
    caps: Seq<GroupV>,
    vars: Seq<(Seq<char>, JsonV)>,
) -> Seq<char> {
    if is_var {
        match obj_lookup(vars, name) {
            Some(JsonV::Str(t)) => t,
            Some(v) => json_render(v),
            None => seq![],
        }
    } else {
        match group_text(caps, name) {
            Some(t) => t,
            None => seq![],
        }
    }
}

/// One pass over `s`: every placeholder, leftmost first, expanded;
/// the expanded text is not read again in the same pass.
pub open spec fn expand_pass(s: Seq<char>, caps: Seq<GroupV>, vars: Seq<(Seq<char>, JsonV)>) -> Seq<
    char,
>
    decreases s.len(),
{
    if s.len() == 0 {
        s
    } else {
        match placeholder_at(s) {
            Some((v, n, l)) => if 0 < l <= s.len() {
                template_value(v, n, caps, vars) + expand_pass(s.skip(l), caps, vars)
            } else {
                s
            },
            None => seq![s[0]] + expand_pass(s.drop_first(), caps, vars),
        }
    }
}

/// The most passes a template gets.
pub const TEMPLATE_PASSES: usize = 8;

/// Passes over `s`, at most `n`, until one changes nothing.
pub open spec fn expand_rounds(s: Seq<char>, caps: Seq<GroupV>, vars: Seq<(Seq<char>, JsonV)>, n: nat) -> Seq<
    char,
>
    decreases n,
{
    if n == 0 {
        s
    } else {
        let t = expand_pass(s, caps, vars);
        if t == s {
            s
        } else {
            expand_rounds(t, caps, vars, (n - 1) as nat)
        }
    }
}

/// `s` with its placeholders expanded pass after pass, so that a
/// nested `{{$user_for_{{stream}}}}` first becomes
/// `{{$user_for_acc-001}}` and then that variable's value; at most
/// [`TEMPLATE_PASSES`] passes.
pub open spec fn expand_template(s: Seq<char>, caps: Seq<GroupV>, vars: Seq<(Seq<char>, JsonV)>) -> Seq<
    char,
> {
    expand_rounds(s, caps, vars, TEMPLATE_PASSES as nat)
}

/// Exec form of [`placeholder_at`] on `v[i..]`: variable flag, name
/// bounds in `v`, and length.
fn placeholder_at_exec(v: &Vec<char>, i: usize) -> (r: Option<(bool, usize, usize, usize)>)
    requires
        i < v.len(),
    ensures
        match r {
            Some((var, a, b, l)) => i <= a <= b <= v.len() && 0 < l && i + l <= v.len()
                && placeholder_at(v@.skip(i as int)) == Some(
                (var, v@.subrange(a as int, b as int), l as int)),
            None => placeholder_at(v@.skip(i as int)) is None,
        },
{
    let ghost s = v@.skip(i as int);
    if !(v.len() - i >= 2 && v[i] == '{' && v[i + 1] == '{') {
        return None;
    }
    let start = i + 2;
    let mut j = start;
    proof {
        lemma_name_run_bound(s.skip(2));
    }
    while j < v.len() && v[j] != '{' && v[j] != '}'
        invariant
            start <= j <= v.len(),
            start == i + 2,
            s == v@.skip(i as int),
            forall|k: int| start <= k < j ==> #[trigger] v@[k] != '{' && v@[k] != '}',
            name_run(s.skip(2)) >= j - start,
            name_run(s.skip(2)) <= s.skip(2).len(),
            forall|k: int| 0 <= k < name_run(s.skip(2)) ==> #[trigger] s.skip(2)[k] != '{' && s.skip(2)[k] != '}',
            name_run(s.skip(2)) < s.skip(2).len() ==> (s.skip(2)[name_run(s.skip(2)) as int] == '{'
                || s.skip(2)[name_run(s.skip(2)) as int] == '}'),
        decreases v.len() - j,
    {
        assert(s.skip(2)[j - start] == v@[j as int]);
        j += 1;
    }
    let ghost n = name_run(s.skip(2));
    assert(n == j - start) by {
        if n > j - start {
            assert(s.skip(2)[j - start] == v@[j as int]);
        }
    }
    if j > start && v.len() - j >= 2 && v[j] == '}' && v[j + 1] == '}' {
        assert(s[2] == v@[start as int]);
        if v[start] == '$' && j - start > 1 {
            assert(s.subrange(3, j - i) =~= v@.subrange(start + 1, j as int));
            Some((true, start + 1, j, j + 2 - i))
        } else {
            assert(s.subrange(2, j - i) =~= v@.subrange(start as int, j as int));
            Some((false, start, j, j + 2 - i))
        }
    } else {
        None
    }
}

/// The value a placeholder expands to (see [`template_value`]).
fn template_value_exec(is_var: bool, name: &String, captures: &Vec<Group>, variables: &Vec<(String, Json)>) -> (r: String)
    ensures
        r@ == template_value(is_var, name@, groups_view(captures@), json_entries_view(variables@)),
{
    if is_var {
        match obj_find(variables, name) {
            Some(i) => {
                proof {
                    lemma_json_entries_view(variables@);
                }
                match &variables[i].1 {
                    Json::Str(t) => t.clone(),
                    other => render_json(other),
                }
            },
            None => String::new(),
        }
    } else {
        match group_named(captures, name.as_str()) {
            Some(t) => t,
            None => String::new(),
        }
    }
}

/// One pass of [`expand_pass`] over the characters of `v`.
fn expand_pass_exec(v: &Vec<char>, captures: &Vec<Group>, variables: &Vec<(String, Json)>) -> (r: Vec<char>)
    ensures
        r@ == expand_pass(v@, groups_view(captures@), json_entries_view(variables@)),
{
    let ghost caps = groups_view(captures@);
    let ghost vars = json_entries_view(variables@);
    let mut out: Vec<char> = Vec::new();
    let mut i: usize = 0;
    assert(v@.skip(0) =~= v@);
    while i < v.len()
        invariant
            i <= v.len(),
            caps == groups_view(captures@),
            vars == json_entries_view(variables@),
            out@ + expand_pass(v@.skip(i as int), caps, vars) == expand_pass(v@, caps, vars),
        decreases v.len() - i,
    {
        let ghost s = v@.skip(i as int);
        match placeholder_at_exec(v, i) {
            Some((var, a, b, l)) => {
                let name_chars = crate::text::slice_chars(v, a, b);
                let name = string_of(name_chars.as_slice());
                let t = template_value_exec(var, &name, captures, variables);
                assert(s.skip(l as int) =~= v@.skip(i + l));
                let tv = chars_of(t.as_str());
                let ghost before = out@;
                crate::text::push_all(&mut out, &tv);
                assert(out@ + expand_pass(v@.skip(i + l), caps, vars) =~= before + (t@ + expand_pass(s.skip(l as int), caps, vars)));
                i += l;
            },
            None => {
                assert(s[0] == v@[i as int]);
                assert(s.drop_first() =~= v@.skip(i + 1));
                let ghost before = out@;
                out.push(v[i]);
                assert(out@ + expand_pass(v@.skip(i + 1), caps, vars) =~= before + (seq![s[0]] + expand_pass(s.drop_first(), caps, vars)));
                i += 1;
            },
        }
    }
    assert(v@.skip(i as int).len() == 0);
    assert(out@ + seq![] =~= out@);
    out
}

/// Expands `{{group}}` and `{{$variable}}` placeholders in `template`
/// from the regex captures and the scenario variables, pass after
/// pass (see [`expand_template`]). Unknown names expand to nothing.
pub fn substitute_template(template: &str, captures: &Vec<Group>, variables: &Vec<(String, Json)>) -> (r: String)
    ensures
        r@ == expand_template(template@, groups_view(captures@), json_entries_view(variables@)),
{
    let ghost caps = groups_view(captures@);
    let ghost vars = json_entries_view(variables@);
    let mut cur = chars_of(template);
    let mut left: usize = TEMPLATE_PASSES;
    let mut settled = false;
    while left > 0 && !settled
        invariant
            left <= TEMPLATE_PASSES,
            caps == groups_view(captures@),
            vars == json_entries_view(variables@),
            expand_rounds(cur@, caps, vars, left as nat) == expand_template(template@, caps, vars),
            settled ==> expand_pass(cur@, caps, vars) == cur@,
        decreases left + if settled { 0int } else { 1int },
    {
        let next = expand_pass_exec(&cur, captures, variables);
        if crate::text::chars_eq(&next, &cur) {
            settled = true;
        } else {
            cur = next;
            left -= 1;
        }
    }
    string_of(cur.as_slice())
}

/// Where a value comes from when a data-driven action fires.
#[derive(Debug)]
pub enum ValueSource {
    /// The text of a named capture group of the step's match.
    MatchGroup(String),
    /// The step's doc-string: parsed as JSON, or kept as a string.
    DocString,
    /// A constant.
    Literal(Json),
    /// A scenario variable captured from an earlier response.
    Variable(String),
    /// The doc-string's top-level object reshaped: keys renamed, laid
    /// over `defaults`, with `overrides` stamped on top.
    DocStringTemplate { rename: Vec<(String, String)>, defaults: Json, overrides: Json },
}

/// The value stored under `k` in a list of string pairs: the first entry.
pub open spec fn pairs_lookup(e: Seq<(Seq<char>, Seq<char>)>, k: Seq<char>) -> Option<Seq<char>>
    decreases e.len(),
{
    if e.len() == 0 {
        None
    } else if e[0].0 == k {
        Some(e[0].1)
    } else {
        pairs_lookup(e.drop_first(), k)
    }
}

/// The entries of `e` set into `acc` one by one, each key mapped
/// through `rename` first.
pub open spec fn set_renamed(
    acc: Seq<(Seq<char>, JsonV)>,
    e: Seq<(Seq<char>, JsonV)>,
    rename: Seq<(Seq<char>, Seq<char>)>,
) -> Seq<(Seq<char>, JsonV)>
    decreases e.len(),
{
    if e.len() == 0 {
        acc
    } else {
        let k = match pairs_lookup(rename, e[0].0) {
            Some(m) => m,
            None => e[0].0,
        };
        set_renamed(obj_set(acc, k, e[0].1), e.drop_first(), rename)
    }
}

/// The entries of `e` set into `acc` one by one.
pub open spec fn set_all(acc: Seq<(Seq<char>, JsonV)>, e: Seq<(Seq<char>, JsonV)>) -> Seq<
    (Seq<char>, JsonV),
>
    decreases e.len(),
{
    if e.len() == 0 {
        acc
    } else {
        set_all(obj_set(acc, e[0].0, e[0].1), e.drop_first())
    }
}

/// The entries of an object value; nothing for any other value.
pub open spec fn entries_of(v: JsonV) -> Seq<(Seq<char>, JsonV)> {
    match v {
        JsonV::Object(e) => e,
        _ => seq![],
    }
}

/// The reshaped doc-string: `defaults`, then the renamed doc-string
/// entries, then `overrides`, later layers winning.
pub open spec fn doc_template(
    doc: Seq<(Seq<char>, JsonV)>,
    rename: Seq<(Seq<char>, Seq<char>)>,
    defaults: JsonV,
    overrides: JsonV,
) -> JsonV {
    let renamed = set_renamed(seq![], doc, rename);
    JsonV::Object(set_all(set_all(entries_of(defaults), renamed), entries_of(overrides)))
}

fn pairs_lookup_exec(e: &Vec<(String, String)>, k: &String) -> (r: Option<String>)
    ensures
        opt_view(r) == pairs_lookup(pairs_view(e@), k@),
{
    let ghost ev = pairs_view(e@);
    let mut i: usize = 0;
    assert(ev.skip(0) =~= ev);
    while i < e.len()
        invariant
            i <= e.len(),
            ev == pairs_view(e@),
            pairs_lookup(ev.skip(i as int), k@) == pairs_lookup(ev, k@),
        decreases e.len() - i,
    {
        assert(ev.skip(i as int)[0] == ev[i as int]);
        assert(ev.skip(i as int).drop_first() =~= ev.skip(i + 1));
        if e[i].0 == *k {
            return Some(e[i].1.clone());
        }
        i += 1;
    }
    assert(ev.skip(i as int).len() == 0);
    None
}

/// Sets every entry of `src` into `acc` (see [`set_all`]).
fn set_all_exec(acc: &mut Vec<(String, Json)>, src: &Vec<(String, Json)>)
    ensures
        json_entries_view(final(acc)@) == set_all(json_entries_view(old(acc)@), json_entries_view(src@)),
{
    let ghost sv = json_entries_view(src@);
    let ghost a0 = json_entries_view(acc@);
    proof {
        lemma_json_entries_view(src@);
    }
    let mut i: usize = 0;
    assert(sv.skip(0) =~= sv);
    while i < src.len()
        invariant
            i <= src.len(),
            sv == json_entries_view(src@),
            sv.len() == src.len(),
            forall|k: int| 0 <= k < src.len() ==> #[trigger] sv[k] == (src@[k].0@, src@[k].1@),
            set_all(json_entries_view(acc@), sv.skip(i as int)) == set_all(a0, sv),
        decreases src.len() - i,
    {
        assert(sv.skip(i as int)[0] == sv[i as int]);
        assert(sv.skip(i as int).drop_first() =~= sv.skip(i + 1));
        let val = json_clone(&src[i].1);
        obj_set_exec(acc, src[i].0.clone(), val);
        i += 1;
    }
    assert(sv.skip(i as int).len() == 0);
}

/// Reshapes a doc-string object (see [`doc_template`]); non-object
/// `defaults` / `overrides` count as empty.
pub fn apply_doc_string_template(
    doc_obj: &Vec<(String, Json)>,
    rename: &Vec<(String, String)>,
    defaults: &Json,
    overrides: &Json,
) -> (r: Json)
    ensures
        r@ == doc_template(json_entries_view(doc_obj@), pairs_view(rename@), defaults@, overrides@),
{
    let ghost dv = json_entries_view(doc_obj@);
    let ghost rv = pairs_view(rename@);
    proof {
        lemma_json_entries_view(doc_obj@);
    }
    let mut renamed: Vec<(String, Json)> = Vec::new();
    proof {
        lemma_json_entries_view(renamed@);
    }
    let mut i: usize = 0;
    assert(dv.skip(0) =~= dv);
    assert(json_entries_view(renamed@) =~= seq![]);
    while i < doc_obj.len()
        invariant
            i <= doc_obj.len(),
            dv == json_entries_view(doc_obj@),
            rv == pairs_view(rename@),
            dv.len() == doc_obj.len(),
            forall|k: int| 0 <= k < doc_obj.len() ==> #[trigger] dv[k] == (doc_obj@[k].0@, doc_obj@[k].1@),
            set_renamed(json_entries_view(renamed@), dv.skip(i as int), rv) == set_renamed(
                seq![],
                dv,
                rv,
            ),
        decreases doc_obj.len() - i,
    {
        assert(dv.skip(i as int)[0] == dv[i as int]);
        assert(dv.skip(i as int).drop_first() =~= dv.skip(i + 1));
        let mapped = match pairs_lookup_exec(rename, &doc_obj[i].0) {
            Some(m) => m,
            None => doc_obj[i].0.clone(),
        };
        let val = json_clone(&doc_obj[i].1);
        obj_set_exec(&mut renamed, mapped, val);
        i += 1;
    }
    assert(dv.skip(i as int).len() == 0);
    let mut out: Vec<(String, Json)> = match defaults {
        Json::Object(d) => {
            let c = json_clone(defaults);
            match c {
                Json::Object(dc) => dc,
                _ => Vec::new(),
            }
        },
        _ => Vec::new(),
    };
    proof {
        lemma_json_entries_view(out@);
        assert(json_entries_view(out@) =~= entries_of(defaults@));
    }
    set_all_exec(&mut out, &renamed);
    match overrides {
        Json::Object(o) => {
            set_all_exec(&mut out, o);
        },
        _ => {
            proof {
                assert(set_all(json_entries_view(out@), seq![]) == json_entries_view(out@));
            }
        },
    }
    Json::Object(out)
}

/// A string value expanded as a template; any other value as it is.
pub open spec fn template_field(v: JsonV, caps: Seq<GroupV>, vars: Seq<(Seq<char>, JsonV)>) -> JsonV {
    match v {
        JsonV::Str(t) => JsonV::Str(expand_template(t, caps, vars)),
        _ => v,
    }
}

/// An object with each of its string values expanded as a template
/// (see [`expand_template`]); any other value as it is.
pub open spec fn template_fields(v: JsonV, caps: Seq<GroupV>, vars: Seq<(Seq<char>, JsonV)>) -> JsonV {
    match v {
        JsonV::Object(e) => JsonV::Object(
            e.map_values(|p: (Seq<char>, JsonV)| (p.0, template_field(p.1, caps, vars))),
        ),
        _ => v,
    }
}

/// Exec form of [`template_fields`].
fn template_fields_exec(v: &Json, captures: &Vec<Group>, variables: &Vec<(String, Json)>) -> (r: Json)
    ensures
        r@ == template_fields(v@, groups_view(captures@), json_entries_view(variables@)),
{
    match v {
        Json::Object(e) => {
            let ghost caps = groups_view(captures@);
            let ghost vars = json_entries_view(variables@);
            let ghost ev = json_entries_view(e@);
            proof {
                lemma_json_entries_view(e@);
            }
            let mut out: Vec<(String, Json)> = Vec::new();
            let mut i: usize = 0;
            while i < e.len()
                invariant
                    i <= e.len(),
                    caps == groups_view(captures@),
                    vars == json_entries_view(variables@),
                    ev == json_entries_view(e@),
                    ev.len() == e.len(),
                    forall|k: int| 0 <= k < e.len() ==> #[trigger] ev[k] == (e@[k].0@, e@[k].1@),
                    json_entries_view(out@) == ev.take(i as int).map_values(
                        |p: (Seq<char>, JsonV)| (p.0, template_field(p.1, caps, vars)),
                    ),
                decreases e.len() - i,
            {
                let val = match &e[i].1 {
                    Json::Str(t) => Json::Str(substitute_template(t.as_str(), captures, variables)),
                    other => json_clone(other),
                };
                assert(val@ == template_field(e@[i as int].1@, caps, vars));
                let ghost before = json_entries_view(out@);
                let ghost prev = out@;
                let key = e[i].0.clone();
                out.push((key, val));
                assert(out@.drop_last() =~= prev);
                assert(json_entries_view(out@) == before.push((e@[i as int].0@, val@)));
                assert(ev.take(i + 1) =~= ev.take(i as int).push(ev[i as int]));
                assert(json_entries_view(out@) =~= ev.take(i + 1).map_values(
                    |p: (Seq<char>, JsonV)| (p.0, template_field(p.1, caps, vars)),
                ));
                i += 1;
            }
            assert(ev.take(i as int) =~= ev);
            Json::Object(out)
        },
        other => json_clone(other),
    }
}

/// What a value source yields (see [`ValueSource`]).
pub open spec fn value_source_result(
    src: ValueSource,
    doc: Option<Seq<char>>,
    caps: Seq<GroupV>,
    vars: Seq<(Seq<char>, JsonV)>,
) -> Option<JsonV> {
    match src {
        ValueSource::MatchGroup(name) => match group_text(caps, name@) {
            Some(t) => Some(JsonV::Str(t)),
            None => None,
        },
        ValueSource::DocString => match doc {
            Some(d) => match json_parse(d) {
                Some(j) => Some(j),
                None => Some(JsonV::Str(d)),
            },
            None => None,
        },
        ValueSource::Literal(v) => Some(v@),
        ValueSource::Variable(name) => obj_lookup(vars, name@),
        ValueSource::DocStringTemplate { rename, defaults, overrides } => match doc {
            Some(d) => match json_parse(d) {
                Some(JsonV::Object(e)) => Some(
                    doc_template(
                        e,
                        pairs_view(rename@),
                        template_fields(defaults@, caps, vars),
                        template_fields(overrides@, caps, vars),
                    ),
                ),
                _ => None,
            },
            None => None,
        },
    }
}

/// Resolves a value source against the step, its captures and the
/// scenario variables (see [`value_source_result`]).
pub fn resolve_value_source(
    src: &ValueSource,
    step: &ParsedStep,
    captures: &Vec<Group>,
    variables: &Vec<(String, Json)>,
) -> (r: Option<Json>)
    ensures
        opt_json_view(r) == value_source_result(
            *src,
            step@.doc,
            groups_view(captures@),
            json_entries_view(variables@),
        ),
{
    match src {
        ValueSource::MatchGroup(name) => match group_named(captures, name.as_str()) {
            Some(t) => Some(Json::Str(t)),
            None => None,
        },
        ValueSource::DocString => match &step.doc_string {
            Some(d) => match parse_json(d.as_str()) {
                Some(j) => Some(j),
                None => Some(Json::Str(d.clone())),
            },
            None => None,
        },
        ValueSource::Literal(v) => Some(json_clone(v)),
        ValueSource::Variable(name) => match obj_find(variables, name) {
            Some(i) => {
                proof {
                    lemma_json_entries_view(variables@);
                }
                Some(json_clone(&variables[i].1))
            },
            None => None,
        },
        ValueSource::DocStringTemplate { rename, defaults, overrides } => match &step.doc_string {
            Some(d) => match parse_json(d.as_str()) {
                Some(Json::Object(e)) => {
                    proof {
                        lemma_json_entries_view(e@);
                    }
                    let d = template_fields_exec(defaults, captures, variables);
                    let o = template_fields_exec(overrides, captures, variables);
                    Some(apply_doc_string_template(&e, rename, &d, &o))
                },
                _ => None,
            },
            None => None,
        },
    }
}


// ---------- patterns and actions ----------

/// What a pattern does when it matches a step.
#[derive(Debug)]
pub enum Action {
    /// Sets `expected_status` to the first status code the step text
    /// announces (see [`scan_status`]).
    AssertStatusFromTextScan,
    /// Adds the first quoted substring of the step text to
    /// `expected_body_contains`.
    AssertBodyContainsFromQuotedScan,
    /// Word-scans the text around `header` into `request_headers`.
    SetHeaderFromWordScan,
    /// Word-scans the text around `param` / `parameter` into
    /// `query_params`.
    SetQueryParamFromWordScan,
    /// Unless a body is set: the inline JSON from the first `{`, or
    /// else the example row when it is an object.
    SetRequestBodyFromTextOrExampleData,
    /// The step's doc-string, placeholders substituted, as the
    /// request body when it parses as JSON.
    SetRequestBodyFromDocString,
    /// The step's doc-string, placeholders substituted, as the
    /// expected body when it parses as JSON and is not `{}`.
    AssertBodyMatches,
    /// Like `AssertBodyMatches`, scoped to the part of the response a
    /// JSON pointer selects.
    AssertBodyMatchesAt { pointer: String },
    /// Sets `expected_status` to the range `[min, max]`.
    AssertExpectedStatusInRange { min: i16, max: i16 },
    /// Adds the text of a named capture group to
    /// `expected_body_contains`.
    AssertBodyContainsFromMatchGroup { group: String },
    /// Fires an HTTP request. First `doc_captures` stores the values
    /// that JSON pointers select in the step's doc-string as scenario
    /// variables; the endpoint and header values then expand
    /// `{{group}}` / `{{$variable}}` (nested ones too, see
    /// [`expand_template`]); `capture_response` stores the values
    /// that JSON pointers select in the response body; a non-empty
    /// `accepted_status` fails the step on any other status. The
    /// variable names of both capture lists are templates as well.
    HttpRequest {
        method: String,
        endpoint_template: String,
        body_from: Option<Box<ValueSource>>,
        headers: Vec<(String, String)>,
        capture_response: Vec<(String, String)>,
        accepted_status: Vec<i16>,
        doc_captures: Vec<(String, String)>,
    },
}

/// A regular expression (its source text), a keyword filter and the
/// actions to fire, in order.
#[derive(Debug)]
pub struct StepPattern {
    pub regex: String,
    /// `None` fires for any keyword.
    pub keyword_type: Option<KeywordType>,
    pub actions: Vec<Action>,
}

fn pattern_of(re: &str, kt: Option<KeywordType>, action: Action) -> (p: StepPattern)
    ensures
        p.regex@ == re@,
        p.keyword_type == kt,
        p.actions@ == seq![action],
{
    let mut actions: Vec<Action> = Vec::new();
    actions.push(action);
    StepPattern { regex: String::from_str(re), keyword_type: kt, actions }
}

/// The built-in patterns, as listed.
pub open spec fn builtin_spec(r: Seq<StepPattern>) -> bool {
    &&& r.len() == 8
    &&& r[0].regex@ == r"(?i)\b(?:status|code|expect)"@
    &&& r[0].keyword_type == Some(KeywordType::Outcome)
    &&& r[0].actions@ == seq![Action::AssertStatusFromTextScan]
    &&& r[1].regex@ == r"(?i)contains|should\s+have"@
    &&& r[1].keyword_type == Some(KeywordType::Outcome)
    &&& r[1].actions@ == seq![Action::AssertBodyContainsFromQuotedScan]
    &&& r[2].regex@ == r"(?i)\bheader\b"@
    &&& r[2].keyword_type is None
    &&& r[2].actions@ == seq![Action::SetHeaderFromWordScan]
    &&& r[3].regex@ == r"(?i)query\s+param(?:eter)?\b"@
    &&& r[3].keyword_type is None
    &&& r[3].actions@ == seq![Action::SetQueryParamFromWordScan]
    &&& r[4].regex@ == "^"@
    &&& r[4].keyword_type == Some(KeywordType::Context)
    &&& r[4].actions@ == seq![Action::SetRequestBodyFromDocString]
    &&& r[5].regex@ == "^"@
    &&& r[5].keyword_type == Some(KeywordType::Action)
    &&& r[5].actions@ == seq![Action::SetRequestBodyFromDocString]
    &&& r[6].regex@ == "^"@
    &&& r[6].keyword_type == Some(KeywordType::Outcome)
    &&& r[6].actions@ == seq![Action::AssertBodyMatches]
    &&& r[7].regex@ == r"(?i)\b(?:request\s+(?:body|payload)|with\s+body)\b"@
    &&& r[7].keyword_type is None
    &&& r[7].actions@ == seq![Action::SetRequestBodyFromTextOrExampleData]
}

/// The built-in patterns, in the order they apply.
pub fn builtin_patterns() -> (r: Vec<StepPattern>)
    ensures
        builtin_spec(r@),
{
    let mut v: Vec<StepPattern> = Vec::new();
    // Status code scan on Outcome steps; the regex only gates which
    // steps try.
    v.push(pattern_of(r"(?i)\b(?:status|code|expect)", Some(KeywordType::Outcome), Action::AssertStatusFromTextScan));
    // Body-contains assertion from a quoted literal.
    v.push(pattern_of(r"(?i)contains|should\s+have", Some(KeywordType::Outcome), Action::AssertBodyContainsFromQuotedScan));
    // Header and query-parameter extraction, any keyword.
    v.push(pattern_of(r"(?i)\bheader\b", None, Action::SetHeaderFromWordScan));
    v.push(pattern_of(r"(?i)query\s+param(?:eter)?\b", None, Action::SetQueryParamFromWordScan));
    // Doc-string bodies for Given / When, before the fallback below so
    // a triple-quoted block wins over inline JSON or row data.
    v.push(pattern_of("^", Some(KeywordType::Context), Action::SetRequestBodyFromDocString));
    v.push(pattern_of("^", Some(KeywordType::Action), Action::SetRequestBodyFromDocString));
    // Doc-string deep match for Then.
    v.push(pattern_of("^", Some(KeywordType::Outcome), Action::AssertBodyMatches));
    // Body cue fallback for steps that announce a body without a doc-string.
    v.push(pattern_of(r"(?i)\b(?:request\s+(?:body|payload)|with\s+body)\b", None, Action::SetRequestBodyFromTextOrExampleData));
    v
}

/// The JSON that starts at the first `{` of `text`, if it parses.
pub open spec fn inline_json(text: Seq<char>) -> Option<JsonV> {
    let i = find_char(text, '{', 0);
    if i < text.len() {
        json_parse(text.skip(i))
    } else {
        None
    }
}

/// The doc-string, placeholders substituted, read as JSON.
pub open spec fn doc_json(doc: Option<Seq<char>>, ex: JsonV) -> Option<JsonV> {
    match doc {
        Some(d) => json_parse(substitute(d, ex)),
        None => None,
    }
}

/// The context after a non-HTTP action (an HTTP action changes nothing here).
pub open spec fn sync_effect(
    a: Action,
    text: Seq<char>,
    caps: Seq<GroupV>,
    step: StepV,
    c: CtxV,
    ex: JsonV,
) -> CtxV {
    match a {
        Action::AssertStatusFromTextScan => match scan_status(text) {
            Some(s) => CtxV { expected_status: Some(StatusMatcher::Exact(s)), ..c },
            None => c,
        },
        Action::AssertExpectedStatusInRange { min, max } => CtxV {
            expected_status: Some(StatusMatcher::Range { min, max }),
            ..c
        },
        Action::AssertBodyContainsFromMatchGroup { group } => match group_text(caps, group@) {
            Some(m) => CtxV { expected_body_contains: c.expected_body_contains.push(m), ..c },
            None => c,
        },
        Action::AssertBodyContainsFromQuotedScan => match first_quoted(text) {
            Some(q) => CtxV { expected_body_contains: c.expected_body_contains.push(q), ..c },
            None => c,
        },
        Action::SetHeaderFromWordScan => CtxV {
            request_headers: word_pair(text, seq!["header"@], c.request_headers),
            ..c
        },
        Action::SetQueryParamFromWordScan => CtxV {
            query_params: word_pair(text, seq!["param"@, "parameter"@], c.query_params),
            ..c
        },
        Action::SetRequestBodyFromTextOrExampleData => if c.request_body is Some {
            c
        } else {
            match inline_json(text) {
                Some(j) => CtxV { request_body: Some(j), ..c },
                None => if ex is Object {
                    CtxV { request_body: Some(ex), ..c }
                } else {
                    c
                },
            }
        },
        Action::SetRequestBodyFromDocString => match doc_json(step.doc, ex) {
            Some(j) => CtxV { request_body: Some(j), ..c },
            None => c,
        },
        Action::AssertBodyMatches => match doc_json(step.doc, ex) {
            Some(j) => if is_vacuous(j) {
                c
            } else {
                CtxV { expected_body: Some(j), ..c }
            },
            None => c,
        },
        Action::AssertBodyMatchesAt { pointer } => match doc_json(step.doc, ex) {
            Some(j) => if is_vacuous(j) {
                c
            } else {
                CtxV { expected_body: Some(j), expected_body_pointer: Some(pointer@), ..c }
            },
            None => c,
        },
        Action::HttpRequest { .. } => c,
    }
}

fn doc_json_exec(step: &ParsedStep, example_data: &Json) -> (r: Option<Json>)
    ensures
        opt_json_view(r) == doc_json(step@.doc, example_data@),
{
    match &step.doc_string {
        Some(doc) => {
            let substituted = substitute_placeholders(doc.as_str(), example_data);
            parse_json(substituted.as_str())
        },
        None => None,
    }
}

fn inline_json_exec(text: &str) -> (r: Option<Json>)
    ensures
        opt_json_view(r) == inline_json(text@),
{
    let v = chars_of(text);
    let mut i: usize = 0;
    while i < v.len() && v[i] != '{'
        invariant
            i <= v.len(),
            v@ == text@,
            find_char(v@, '{', i as int) == find_char(v@, '{', 0),
        decreases v.len() - i,
    {
        i += 1;
    }
    if i < v.len() {
        let tail = crate::text::slice_chars(&v, i, v.len());
        assert(tail@ =~= v@.skip(i as int));
        let t = string_of(tail.as_slice());
        parse_json(t.as_str())
    } else {
        None
    }
}

/// Runs one non-HTTP action against the context (see [`sync_effect`]).
pub fn execute_sync_action(
    action: &Action,
    text: &str,
    captures: &Vec<Group>,
    step: &ParsedStep,
    context: &mut ScenarioContext,
    example_data: &Json,
)
    ensures
        final(context)@ == sync_effect(
            *action,
            text@,
            groups_view(captures@),
            step@,
            old(context)@,
            example_data@,
        ),
{
    match action {
        Action::AssertStatusFromTextScan => {
            match scan_status_code(text) {
                Some(status) => {
                    context.expected_status = Some(StatusMatcher::Exact(status));
                },
                None => {},
            }
        },
        Action::AssertExpectedStatusInRange { min, max } => {
            context.expected_status = Some(StatusMatcher::Range { min: *min, max: *max });
        },
        Action::AssertBodyContainsFromMatchGroup { group } => {
            match group_named(captures, group.as_str()) {
                Some(m) => {
                    context.expected_body_contains.push(m);
                    assert(context@.expected_body_contains =~= old(context)@.expected_body_contains.push(m@));
                },
                None => {},
            }
        },
        Action::AssertBodyContainsFromQuotedScan => {
            match scan_first_quoted(text) {
                Some(q) => {
                    let ghost qv = q@;
                    context.expected_body_contains.push(q);
                    assert(context@.expected_body_contains =~= old(context)@.expected_body_contains.push(qv));
                },
                None => {},
            }
        },
        Action::SetHeaderFromWordScan => {
            let mut anchors: Vec<String> = Vec::new();
            anchors.push(String::from_str("header"));
            assert(strs_view(anchors@) =~= seq!["header"@]);
            word_scan_pair(text, &anchors, &mut context.request_headers);
        },
        Action::SetQueryParamFromWordScan => {
            let mut anchors: Vec<String> = Vec::new();
            anchors.push(String::from_str("param"));
            anchors.push(String::from_str("parameter"));
            assert(strs_view(anchors@) =~= seq!["param"@, "parameter"@]);
            word_scan_pair(text, &anchors, &mut context.query_params);
        },
        Action::SetRequestBodyFromTextOrExampleData => {
            if context.request_body.is_some() {
                return;
            }
            match inline_json_exec(text) {
                Some(j) => {
                    context.request_body = Some(j);
                },
                None => {
                    if let Json::Object(_) = example_data {
                        context.request_body = Some(json_clone(example_data));
                    }
                },
            }
        },
        Action::SetRequestBodyFromDocString => {
            match doc_json_exec(step, example_data) {
                Some(j) => {
                    context.request_body = Some(j);
                },
                None => {},
            }
        },
        Action::AssertBodyMatches => {
            match doc_json_exec(step, example_data) {
                Some(j) => {
                    if !is_vacuous_expected_body(&j) {
                        context.expected_body = Some(j);
                    }
                },
                None => {},
            }
        },
        Action::AssertBodyMatchesAt { pointer } => {
            match doc_json_exec(step, example_data) {
                Some(j) => {
                    if !is_vacuous_expected_body(&j) {
                        context.expected_body = Some(j);
                        context.expected_body_pointer = Some(pointer.clone());
                    }
                },
                None => {},
            }
        },
        Action::HttpRequest { .. } => {},
    }
}

/// A pattern that matched a step: its index and the capture groups.
#[derive(Debug)]
pub struct PatternMatch {
    pub pattern: usize,
    pub groups: Vec<Group>,
}

/// Whether the keyword filter of a pattern accepts a step of class `kt`.
pub open spec fn keyword_accepts(filter: Option<KeywordType>, kt: Option<KeywordType>) -> bool {
    match filter {
        Some(req) => kt == Some(req),
        None => true,
    }
}

/// The patterns from index `k` on that fire for a step: their indices
/// and capture groups, in pattern order.
pub open spec fn matches_from(ps: Seq<StepPattern>, kt: Option<KeywordType>, text: Seq<char>, k: int) -> Seq<
    (int, Seq<GroupV>),
>
    decreases ps.len() - k,
{
    if k < 0 || k >= ps.len() {
        seq![]
    } else if keyword_accepts(ps[k].keyword_type, kt) && regex_groups(ps[k].regex@, text) is Some {
        seq![(k, regex_groups(ps[k].regex@, text)->0)] + matches_from(ps, kt, text, k + 1)
    } else {
        matches_from(ps, kt, text, k + 1)
    }
}

/// The view of each pattern match.
pub open spec fn matches_view(m: Seq<PatternMatch>) -> Seq<(int, Seq<GroupV>)> {
    m.map_values(|x: PatternMatch| (x.pattern as int, groups_view(x.groups@)))
}

/// The patterns that fire for `step` with substituted text `text`
/// (see [`matches_from`]).
pub fn matching_patterns(patterns: &Vec<StepPattern>, step: &ParsedStep, text: &str) -> (r: Vec<PatternMatch>)
    ensures
        matches_view(r@) == matches_from(patterns@, keyword_type_of(step@.keyword_type), text@, 0),
{
    let kt = KeywordType::from_str(step.keyword_type.as_str());
    let ghost ktv = keyword_type_of(step@.keyword_type);
    let mut out: Vec<PatternMatch> = Vec::new();
    let mut i: usize = 0;
    assert(matches_view(out@) =~= seq![]);
    while i < patterns.len()
        invariant
            i <= patterns.len(),
            kt == ktv,
            ktv == keyword_type_of(step@.keyword_type),
            matches_view(out@) + matches_from(patterns@, ktv, text@, i as int) == matches_from(
                patterns@,
                ktv,
                text@,
                0,
            ),
        decreases patterns.len() - i,
    {
        let p = &patterns[i];
        let accepts = match p.keyword_type {
            Some(req) => kt == Some(req),
            None => true,
        };
        if accepts {
            match match_groups(p.regex.as_str(), text) {
                Some(g) => {
                    let ghost before = matches_view(out@);
                    let ghost gv = groups_view(g@);
                    out.push(PatternMatch { pattern: i, groups: g });
                    assert(matches_view(out@) =~= before.push((i as int, gv)));
                    assert(before.push((i as int, gv)) + matches_from(patterns@, ktv, text@, i + 1)
                        =~= before + (seq![(i as int, gv)] + matches_from(patterns@, ktv, text@, i + 1)));
                },
                None => {},
            }
        }
        i += 1;
    }
    assert(matches_from(patterns@, ktv, text@, i as int) =~= seq![]);
    assert(matches_view(out@) + seq![] =~= matches_view(out@));
    out
}


/// The message for a regex that does not compile.
pub open spec fn invalid_regex_message(src: Seq<char>, err: Seq<char>) -> Seq<char> {
    "invalid regex "@ + crate::textops::debug_quoted(src) + ": "@ + err
}

/// The message for an unknown keyword type.
pub open spec fn invalid_keyword_message(kt: Seq<char>) -> Seq<char> {
    "invalid keyword_type "@ + crate::textops::debug_quoted(kt) + " (expected Context / Action / Outcome)"@
}

/// The message for a pattern without actions.
pub open spec fn no_actions_message() -> Seq<char> {
    "pattern must declare at least one action in `actions = [...]`"@
}

/// Checks a user pattern as read from a patterns file: the regex must
/// compile, the keyword type must be `Context` / `Action` / `Outcome`
/// when given, and there must be an action.
pub fn build_pattern(regex: String, keyword_type: Option<String>, actions: Vec<Action>) -> (r: Result<StepPattern, Error>)
    ensures
        match r {
            Ok(p) => {
                &&& regex_error(regex@) is None
                &&& p.regex@ == regex@
                &&& p.keyword_type == match keyword_type {
                    Some(k) => keyword_type_of(k@),
                    None => None,
                }
                &&& (keyword_type matches Some(k) ==> keyword_type_of(k@) is Some)
                &&& actions@.len() > 0
                &&& p.actions@ == actions@
            },
            Err(e) => e matches Error::Spec(m) && if regex_error(regex@) is Some {
                m@ == invalid_regex_message(regex@, regex_error(regex@)->0)
            } else if keyword_type matches Some(k) && keyword_type_of(k@) is None {
                m@ == invalid_keyword_message(keyword_type->0@)
            } else {
                actions@.len() == 0 && m@ == no_actions_message()
            },
        },
{
    match regex_compile_error(regex.as_str()) {
        Some(err) => {
            let mut m = String::from_str("invalid regex ");
            let q = crate::textops::debug_of(regex.as_str());
            m.append(q.as_str());
            m.append(": ");
            m.append(err.as_str());
            return Err(Error::Spec(m));
        },
        None => {},
    }
    let kt = match &keyword_type {
        Some(k) => match KeywordType::from_str(k.as_str()) {
            Some(t) => Some(t),
            None => {
                let mut m = String::from_str("invalid keyword_type ");
                let q = crate::textops::debug_of(k.as_str());
                m.append(q.as_str());
                m.append(" (expected Context / Action / Outcome)");
                return Err(Error::Spec(m));
            },
        },
        None => None,
    };
    if actions.len() == 0 {
        return Err(Error::Spec(String::from_str("pattern must declare at least one action in `actions = [...]`")));
    }
    Ok(StepPattern { regex, keyword_type: kt, actions })
}

} // verus!
