//! A JSON document model for request bodies, example rows and
//! expected responses.
//!
//! Objects are association lists whose keys are unique. JSON text is
//! read and written by `serde_json`; see [`parse_json`] and
//! [`render_json`].
use vstd::prelude::*;

use crate::text::chars_of;

verus! {

/// A JSON value. Numbers keep their textual form.
#[derive(Debug)]
pub enum Json {
    Null,
    Bool(bool),
    Number(String),
    Str(String),
    Array(Vec<Json>),
    Object(Vec<(String, Json)>),
}

/// The mathematical value of a [`Json`].
pub enum JsonV {
    Null,
    Bool(bool),
    Number(Seq<char>),
    Str(Seq<char>),
    Array(Seq<JsonV>),
    Object(Seq<(Seq<char>, JsonV)>),
}

impl View for Json {
    type V = JsonV;

    open spec fn view(&self) -> JsonV
        decreases self,
    {
        match self {
            Json::Null => JsonV::Null,
            Json::Bool(b) => JsonV::Bool(*b),
            Json::Number(n) => JsonV::Number(n@),
            Json::Str(s) => JsonV::Str(s@),
            Json::Array(items) => JsonV::Array(json_seq_view(items@)),
            Json::Object(entries) => JsonV::Object(json_entries_view(entries@)),
        }
    }
}

/// Element-wise view of a sequence of JSON values.
pub open spec fn json_seq_view(s: Seq<Json>) -> Seq<JsonV>
    decreases s,
{
    if s.len() == 0 {
        seq![]
    } else {
        json_seq_view(s.drop_last()).push(s[s.len() - 1]@)
    }
}

/// Element-wise view of the entries of a JSON object.
pub open spec fn json_entries_view(s: Seq<(String, Json)>) -> Seq<(Seq<char>, JsonV)>
    decreases s,
{
    if s.len() == 0 {
        seq![]
    } else {
        json_entries_view(s.drop_last()).push((s[s.len() - 1].0@, s[s.len() - 1].1@))
    }
}

pub proof fn lemma_json_seq_view(s: Seq<Json>)
    ensures
        json_seq_view(s).len() == s.len(),
        forall|i: int| 0 <= i < s.len() ==> #[trigger] json_seq_view(s)[i] == s[i]@,
    decreases s.len(),
{
    if s.len() > 0 {
        assert(json_seq_view(s) == json_seq_view(s.drop_last()).push(s[s.len() - 1]@));
        lemma_json_seq_view(s.drop_last());
        assert forall|i: int| 0 <= i < s.len() implies #[trigger] json_seq_view(s)[i] == s[i]@ by {
            if i < s.len() - 1 {
                assert(s.drop_last()[i] == s[i]);
            }
        }
    }
}

pub proof fn lemma_json_entries_view(s: Seq<(String, Json)>)
    ensures
        json_entries_view(s).len() == s.len(),
        forall|i: int|
            0 <= i < s.len() ==> #[trigger] json_entries_view(s)[i] == (s[i].0@, s[i].1@),
    decreases s.len(),
{
    if s.len() > 0 {
        assert(json_entries_view(s) == json_entries_view(s.drop_last()).push(
            (s[s.len() - 1].0@, s[s.len() - 1].1@),
        ));
        lemma_json_entries_view(s.drop_last());
        assert forall|i: int| 0 <= i < s.len() implies #[trigger] json_entries_view(s)[i] == (
        s[i].0@, s[i].1@) by {
            if i < s.len() - 1 {
                assert(s.drop_last()[i] == s[i]);
            }
        }
    }
}

/// The value stored under `key`: the first entry with that key.
pub open spec fn obj_lookup(entries: Seq<(Seq<char>, JsonV)>, key: Seq<char>) -> Option<JsonV>
    decreases entries.len(),
{
    if entries.len() == 0 {
        None
    } else if entries[0].0 == key {
        Some(entries[0].1)
    } else {
        obj_lookup(entries.drop_first(), key)
    }
}

/// The text `serde_json` writes for a floating-point zero, positive or
/// negative.
pub open spec fn float_zero(t: Seq<char>) -> bool {
    t == "0.0"@ || t == "-0.0"@
}

/// Equality of two number texts as `serde_json` compares numbers: equal
/// texts, or both float zeros (`0.0 == -0.0` for `f64`).
pub open spec fn number_eq(a: Seq<char>, b: Seq<char>) -> bool {
    a == b || (float_zero(a) && float_zero(b))
}

/// Equality of two values that are not both objects or both arrays:
/// numbers by [`number_eq`], anything else structurally.
pub open spec fn scalar_eq(x: JsonV, y: JsonV) -> bool {
    match (x, y) {
        (JsonV::Number(a), JsonV::Number(b)) => number_eq(a, b),
        _ => x == y,
    }
}

/// Partial deep match: every field of an expected object must be in
/// the actual object and match recursively, every item of an expected
/// array must match some actual item, anything else must be equal
/// (see [`scalar_eq`]).
pub open spec fn json_matches(actual: JsonV, expected: JsonV) -> bool
    decreases expected, actual,
{
    match (actual, expected) {
        (JsonV::Object(a), JsonV::Object(e)) => entries_match(a, e),
        (JsonV::Array(a), JsonV::Array(e)) => items_all_match(a, e),
        _ => scalar_eq(actual, expected),
    }
}

fn is_float_zero(t: &String) -> (b: bool)
    ensures
        b == float_zero(t@),
{
    let v = chars_of(t.as_str());
    let z = chars_of("0.0");
    let nz = chars_of("-0.0");
    proof {
        reveal_strlit("0.0");
        reveal_strlit("-0.0");
    }
    crate::text::chars_eq(&v, &z) || crate::text::chars_eq(&v, &nz)
}

/// Every expected entry is present in `a` with a matching value.
pub open spec fn entries_match(a: Seq<(Seq<char>, JsonV)>, e: Seq<(Seq<char>, JsonV)>) -> bool
    decreases e, a,
{
    if e.len() == 0 {
        true
    } else {
        entries_match(a, e.drop_last()) && match obj_lookup(a, e[e.len() - 1].0) {
            Some(av) => json_matches(av, e[e.len() - 1].1),
            None => false,
        }
    }
}

/// Every expected item matches some actual item.
pub open spec fn items_all_match(a: Seq<JsonV>, e: Seq<JsonV>) -> bool
    decreases e, a,
{
    if e.len() == 0 {
        true
    } else {
        items_all_match(a, e.drop_last()) && some_item_matches(a, e[e.len() - 1])
    }
}

/// Some item of `a` matches `x`.
pub open spec fn some_item_matches(a: Seq<JsonV>, x: JsonV) -> bool
    decreases x, a,
{
    if a.len() == 0 {
        false
    } else {
        json_matches(a[a.len() - 1], x) || some_item_matches(a.drop_last(), x)
    }
}

/// Deep copy.
pub fn json_clone(j: &Json) -> (r: Json)
    ensures
        r@ == j@,
    decreases j,
{
    match j {
        Json::Null => Json::Null,
        Json::Bool(b) => Json::Bool(*b),
        Json::Number(n) => Json::Number(n.clone()),
        Json::Str(t) => Json::Str(t.clone()),
        Json::Array(items) => {
            let mut v: Vec<Json> = Vec::new();
            let mut i: usize = 0;
            while i < items.len()
                invariant
                    i <= items.len(),
                    v@.len() == i,
                    *j == Json::Array(*items),
                    forall|k: int| 0 <= k < i ==> #[trigger] v@[k]@ == items@[k]@,
                decreases items.len() - i,
            {
                proof {
                    assert(*j == Json::Array(*items));
                    assert(decreases_to!(*j => (*j)->Array_0));
                    assert(decreases_to!(*j => *items));
                    assert(decreases_to!(*items => items@));
                    assert(decreases_to!(items@ => items@[i as int]));
                }
                let c = json_clone(&items[i]);
                v.push(c);
                i += 1;
            }
            proof {
                lemma_json_seq_view(v@);
                lemma_json_seq_view(items@);
                assert(json_seq_view(v@) =~= json_seq_view(items@));
            }
            Json::Array(v)
        },
        Json::Object(entries) => {
            let mut v: Vec<(String, Json)> = Vec::new();
            let mut i: usize = 0;
            while i < entries.len()
                invariant
                    i <= entries.len(),
                    v@.len() == i,
                    *j == Json::Object(*entries),
                    forall|k: int|
                        0 <= k < i ==> #[trigger] v@[k].0@ == entries@[k].0@ && v@[k].1@
                            == entries@[k].1@,
                decreases entries.len() - i,
            {
                proof {
                    assert(*j == Json::Object(*entries));
                    assert(decreases_to!(*j => (*j)->Object_0));
                    assert(decreases_to!(*j => *entries));
                    assert(decreases_to!(*entries => entries@));
                    assert(decreases_to!(entries@ => entries@[i as int]));
                    assert(decreases_to!(entries@[i as int] => entries@[i as int].1));
                }
                let c = json_clone(&entries[i].1);
                v.push((entries[i].0.clone(), c));
                i += 1;
            }
            proof {
                lemma_json_entries_view(v@);
                lemma_json_entries_view(entries@);
                assert(json_entries_view(v@) =~= json_entries_view(entries@));
            }
            Json::Object(v)
        },
    }
}

proof fn lemma_obj_lookup_index(entries: Seq<(Seq<char>, JsonV)>, key: Seq<char>, i: int)
    requires
        0 <= i <= entries.len(),
        forall|k: int| 0 <= k < i ==> (#[trigger] entries[k]).0 != key,
    ensures
        obj_lookup(entries, key) == obj_lookup(entries.skip(i), key),
    decreases i,
{
    if i > 0 {
        assert(entries[0].0 != key);
        assert forall|k: int| 0 <= k < i - 1 implies (#[trigger] entries.drop_first()[k]).0
            != key by {
            assert(entries.drop_first()[k] == entries[k + 1]);
        }
        lemma_obj_lookup_index(entries.drop_first(), key, i - 1);
        assert(entries.drop_first().skip(i - 1) =~= entries.skip(i));
    } else {
        assert(entries.skip(0) =~= entries);
    }
}

/// Index of the first entry under `key`.
pub fn obj_find(entries: &Vec<(String, Json)>, key: &String) -> (r: Option<usize>)
    ensures
        match r {
            Some(i) => i < entries.len() && entries@[i as int].0@ == key@ && obj_lookup(
                json_entries_view(entries@),
                key@,
            ) == Some(entries@[i as int].1@) && forall|j: int|
                0 <= j < i ==> (#[trigger] entries@[j]).0@ != key@,
            None => obj_lookup(json_entries_view(entries@), key@) is None && forall|j: int|
                0 <= j < entries@.len() ==> (#[trigger] entries@[j]).0@ != key@,
        },
{
    let ghost ev = json_entries_view(entries@);
    proof {
        lemma_json_entries_view(entries@);
    }
    let mut i: usize = 0;
    while i < entries.len()
        invariant
            i <= entries.len(),
            ev == json_entries_view(entries@),
            ev.len() == entries.len(),
            forall|k: int| 0 <= k < entries.len() ==> #[trigger] ev[k] == (entries@[k].0@, entries@[k].1@),
            forall|k: int| 0 <= k < i ==> (#[trigger] ev[k]).0 != key@,
        decreases entries.len() - i,
    {
        if entries[i].0 == *key {
            proof {
                lemma_obj_lookup_index(ev, key@, i as int);
                assert(ev.skip(i as int)[0] == ev[i as int]);
                assert forall|j: int| 0 <= j < i implies (#[trigger] entries@[j]).0@ != key@ by {
                    assert(ev[j].0 != key@);
                }
            }
            return Some(i);
        }
        assert(ev[i as int].0 != key@);
        i += 1;
    }
    proof {
        lemma_obj_lookup_index(ev, key@, i as int);
        assert(ev.skip(i as int).len() == 0);
        assert forall|j: int| 0 <= j < entries@.len() implies (#[trigger] entries@[j]).0@ != key@ by {
            assert(ev[j].0 != key@);
        }
    }
    None
}

/// Exec form of [`some_item_matches`].
fn any_item_matches(a: &Vec<Json>, x: &Json) -> (b: bool)
    ensures
        b == some_item_matches(json_seq_view(a@), x@),
    decreases x, 1nat,
{
    let ghost av = json_seq_view(a@);
    proof {
        lemma_json_seq_view(a@);
    }
    let mut i: usize = 0;
    let mut found = false;
    while i < a.len()
        invariant
            i <= a.len(),
            av == json_seq_view(a@),
            av.len() == a.len(),
            forall|k: int| 0 <= k < a.len() ==> #[trigger] av[k] == a@[k]@,
            found == some_item_matches(av.take(i as int), x@),
        decreases a.len() - i,
    {
        let m = json_contains(&a[i], x);
        proof {
            assert(av.take(i + 1).drop_last() =~= av.take(i as int));
            assert(av.take(i + 1)[i as int] == a@[i as int]@);
        }
        found = m || found;
        i += 1;
    }
    assert(av.take(a.len() as int) =~= av);
    found
}

/// Partial deep match of `actual` against `expected` (see [`json_matches`]).
pub fn json_contains(actual: &Json, expected: &Json) -> (b: bool)
    ensures
        b == json_matches(actual@, expected@),
    decreases expected, 0nat,
{
    match (actual, expected) {
        (Json::Object(a), Json::Object(e)) => {
            let ghost ev = json_entries_view(e@);
            let ghost av = json_entries_view(a@);
            proof {
                lemma_json_entries_view(e@);
            }
            let mut i: usize = 0;
            let mut ok = true;
            while i < e.len()
                invariant
                    i <= e.len(),
                    ev == json_entries_view(e@),
                    av == json_entries_view(a@),
                    ev.len() == e.len(),
                    forall|k: int| 0 <= k < e.len() ==> #[trigger] ev[k] == (e@[k].0@, e@[k].1@),
                    ok == entries_match(av, ev.take(i as int)),
                    *expected == Json::Object(*e),
                decreases e.len() - i,
            {
                proof {
                    assert(*expected == Json::Object(*e));
                    assert(decreases_to!(*expected => (*expected)->Object_0));
                    assert(decreases_to!(*expected => *e));
                    assert(decreases_to!(*e => e@));
                    assert(decreases_to!(e@ => e@[i as int]));
                    assert(decreases_to!(e@[i as int] => e@[i as int].1));
                }
                let found = obj_find(a, &e[i].0);
                let m = match found {
                    Some(j) => json_contains(&a[j].1, &e[i].1),
                    None => false,
                };
                proof {
                    assert(ev.take(i + 1).drop_last() =~= ev.take(i as int));
                    assert(ev.take(i + 1)[i as int] == ev[i as int]);
                }
                ok = ok && m;
                i += 1;
            }
            assert(ev.take(e.len() as int) =~= ev);
            ok
        },
        (Json::Array(a), Json::Array(e)) => {
            let ghost ev = json_seq_view(e@);
            let ghost av = json_seq_view(a@);
            proof {
                lemma_json_seq_view(e@);
            }
            let mut i: usize = 0;
            let mut ok = true;
            while i < e.len()
                invariant
                    i <= e.len(),
                    ev == json_seq_view(e@),
                    av == json_seq_view(a@),
                    ev.len() == e.len(),
                    forall|k: int| 0 <= k < e.len() ==> #[trigger] ev[k] == e@[k]@,
                    ok == items_all_match(av, ev.take(i as int)),
                    *expected == Json::Array(*e),
                decreases e.len() - i,
            {
                proof {
                    assert(*expected == Json::Array(*e));
                    assert(decreases_to!(*expected => (*expected)->Array_0));
                    assert(decreases_to!(*expected => *e));
                    assert(decreases_to!(*e => e@));
                    assert(decreases_to!(e@ => e@[i as int]));
                }
                let m = any_item_matches(a, &e[i]);
                proof {
                    assert(ev.take(i + 1).drop_last() =~= ev.take(i as int));
                    assert(ev.take(i + 1)[i as int] == ev[i as int]);
                }
                ok = ok && m;
                i += 1;
            }
            assert(ev.take(e.len() as int) =~= ev);
            ok
        },
        (Json::Number(a), Json::Number(b)) => json_eq(actual, expected) || (is_float_zero(a) && is_float_zero(b)),
        _ => json_eq(actual, expected),
    }
}

/// Structural equality of two JSON values.
pub fn json_eq(x: &Json, y: &Json) -> (b: bool)
    ensures
        b == (x@ == y@),
    decreases x,
{
    match (x, y) {
        (Json::Null, Json::Null) => true,
        (Json::Bool(a), Json::Bool(b)) => *a == *b,
        (Json::Number(a), Json::Number(b)) => *a == *b,
        (Json::Str(a), Json::Str(b)) => *a == *b,
        (Json::Array(a), Json::Array(b)) => {
            proof {
                lemma_json_seq_view(a@);
                lemma_json_seq_view(b@);
            }
            if a.len() != b.len() {
                assert(json_seq_view(a@).len() != json_seq_view(b@).len());
                return false;
            }
            let mut i: usize = 0;
            while i < a.len()
                invariant
                    i <= a.len(),
                    a.len() == b.len(),
                    json_seq_view(a@).len() == a.len(),
                    json_seq_view(b@).len() == b.len(),
                    forall|k: int| 0 <= k < a.len() ==> #[trigger] json_seq_view(a@)[k] == a@[k]@,
                    forall|k: int| 0 <= k < b.len() ==> #[trigger] json_seq_view(b@)[k] == b@[k]@,
                    forall|k: int| 0 <= k < i ==> a@[k]@ == b@[k]@,
                    *x == Json::Array(*a),
                    *y == Json::Array(*b),
                decreases a.len() - i,
            {
                proof {
                    assert(decreases_to!(*x => *a));
                    assert(decreases_to!(*a => a@));
                    assert(decreases_to!(a@ => a@[i as int]));
                }
                if !json_eq(&a[i], &b[i]) {
                    assert(json_seq_view(a@)[i as int] != json_seq_view(b@)[i as int]);
                    assert(x@ == JsonV::Array(json_seq_view(a@)));
                    assert(y@ == JsonV::Array(json_seq_view(b@)));
                    return false;
                }
                i += 1;
            }
            assert(json_seq_view(a@) =~= json_seq_view(b@));
            true
        },
        (Json::Object(a), Json::Object(b)) => {
            proof {
                lemma_json_entries_view(a@);
                lemma_json_entries_view(b@);
            }
            if a.len() != b.len() {
                assert(json_entries_view(a@).len() != json_entries_view(b@).len());
                return false;
            }
            let mut i: usize = 0;
            while i < a.len()
                invariant
                    i <= a.len(),
                    a.len() == b.len(),
                    json_entries_view(a@).len() == a.len(),
                    json_entries_view(b@).len() == b.len(),
                    forall|k: int|
                        0 <= k < a.len() ==> #[trigger] json_entries_view(a@)[k] == (
                        a@[k].0@,
                        a@[k].1@,
                    ),
                    forall|k: int|
                        0 <= k < b.len() ==> #[trigger] json_entries_view(b@)[k] == (
                        b@[k].0@,
                        b@[k].1@,
                    ),
                    forall|k: int| 0 <= k < i ==> a@[k].0@ == b@[k].0@ && a@[k].1@ == b@[k].1@,
                    *x == Json::Object(*a),
                    *y == Json::Object(*b),
                decreases a.len() - i,
            {
                proof {
                    assert(decreases_to!(*x => *a));
                    assert(decreases_to!(*a => a@));
                    assert(decreases_to!(a@ => a@[i as int]));
                    assert(decreases_to!(a@[i as int] => a@[i as int].1));
                }
                if a[i].0 != b[i].0 || !json_eq(&a[i].1, &b[i].1) {
                    assert(json_entries_view(a@)[i as int] != json_entries_view(b@)[i as int]);
                    assert(x@ == JsonV::Object(json_entries_view(a@)));
                    assert(y@ == JsonV::Object(json_entries_view(b@)));
                    return false;
                }
                i += 1;
            }
            assert(json_entries_view(a@) =~= json_entries_view(b@));
            true
        },
        _ => false,
    }
}


/// Shorthand for the view of an optional JSON value.
pub open spec fn opt_json_view(o: Option<Json>) -> Option<JsonV> {
    match o {
        Some(j) => Some(j@),
        None => None,
    }
}

#[verifier::external_type_specification]
#[verifier::external_body]
pub struct ExSerdeValue(serde_json::Value);

/// What `serde_json::from_str::<serde_json::Value>` reads from `text`,
/// as a [`JsonV`] (numbers by their `Display` text), or `None` when it
/// fails.
pub uninterp spec fn json_parse(text: Seq<char>) -> Option<JsonV>;

/// The compact text that `serde_json::Value::to_string` writes for the
/// `serde_json` value that `v` stands for.
pub uninterp spec fn json_render(v: JsonV) -> Seq<char>;

/// Converts a `serde_json` value into a [`Json`], one node for one
/// node; a number keeps the text its `Display` writes.
#[verifier::external_body]
fn from_serde(v: &serde_json::Value) -> Json {
    match v {
        serde_json::Value::Null => Json::Null,
        serde_json::Value::Bool(b) => Json::Bool(*b),
        serde_json::Value::Number(n) => Json::Number(n.to_string()),
        serde_json::Value::String(t) => Json::Str(t.clone()),
        serde_json::Value::Array(a) => Json::Array(a.iter().map(from_serde).collect()),
        serde_json::Value::Object(m) => Json::Object(
            m.iter().map(|(k, x)| (k.clone(), from_serde(x))).collect(),
        ),
    }
}

/// Converts a [`Json`] into a `serde_json` value, one node for one
/// node; a number is read back from its text by `serde_json`, and text
/// that `serde_json` does not accept as a number becomes `null`.
#[verifier::external_body]
fn to_serde(j: &Json) -> serde_json::Value {
    match j {
        Json::Null => serde_json::Value::Null,
        Json::Bool(b) => serde_json::Value::Bool(*b),
        Json::Number(n) => serde_json::from_str::<serde_json::Number>(n)
            .map(serde_json::Value::Number).unwrap_or(serde_json::Value::Null),
        Json::Str(t) => serde_json::Value::String(t.clone()),
        Json::Array(a) => serde_json::Value::Array(a.iter().map(to_serde).collect()),
        Json::Object(m) => serde_json::Value::Object(
            m.iter().map(|(k, x)| (k.clone(), to_serde(x))).collect(),
        ),
    }
}

/// Reads JSON text with `serde_json::from_str::<serde_json::Value>`.
/// The contract names the outcome ([`json_parse`]); the grammar itself
/// is not restated here.
#[verifier::external_body]
pub fn parse_json(text: &str) -> (r: Option<Json>)
    ensures
        opt_json_view(r) == json_parse(text@),
{
    match serde_json::from_str::<serde_json::Value>(text) {
        Ok(v) => Some(from_serde(&v)),
        Err(_) => None,
    }
}

/// Writes compact JSON text with `serde_json::Value::to_string`. The
/// contract names the outcome ([`json_render`]).
#[verifier::external_body]
pub fn render_json(j: &Json) -> (s: String)
    ensures
        s@ == json_render(j@),
{
    to_serde(j).to_string()
}

/// The text a value stands for when it is spliced into a string:
/// strings without quotes, numbers and booleans as written, anything
/// else as compact JSON.
pub open spec fn splice_text(v: JsonV) -> Seq<char> {
    match v {
        JsonV::Str(t) => t,
        JsonV::Number(n) => n,
        JsonV::Bool(b) => if b {
            "true"@
        } else {
            "false"@
        },
        _ => json_render(v),
    }
}

/// Exec form of [`splice_text`].
pub fn splice_string(v: &Json) -> (s: String)
    ensures
        s@ == splice_text(v@),
{
    match v {
        Json::Str(t) => t.clone(),
        Json::Number(n) => n.clone(),
        Json::Bool(b) => {
            if *b {
                let t = "true";
                proof {
                    reveal_strlit("true");
                }
                t.to_string()
            } else {
                let t = "false";
                proof {
                    reveal_strlit("false");
                }
                t.to_string()
            }
        },
        _ => render_json(v),
    }
}

/// An expected body too empty to assert anything: the empty object.
pub open spec fn is_vacuous(v: JsonV) -> bool {
    v matches JsonV::Object(e) && e.len() == 0
}

/// Exec form of [`is_vacuous`].
pub fn is_vacuous_expected_body(v: &Json) -> (b: bool)
    ensures
        b == is_vacuous(v@),
{
    match v {
        Json::Object(entries) => {
            proof {
                lemma_json_entries_view(entries@);
            }
            entries.len() == 0
        },
        _ => false,
    }
}

/// What `serde_json::Value::pointer` (RFC 6901) selects with `p` in
/// the `serde_json` value that `v` stands for, as a [`JsonV`]; `None`
/// when it selects nothing.
pub uninterp spec fn json_pointer(v: JsonV, p: Seq<char>) -> Option<JsonV>;

/// Looks `p` up in `v` with `serde_json::Value::pointer` (see
/// [`json_pointer`]). The contract names the result; the pointer
/// grammar is not restated here.
#[verifier::external_body]
pub fn json_at(v: &Json, p: &str) -> (r: Option<Json>)
    ensures
        opt_json_view(r) == json_pointer(v@, p@),
{
    to_serde(v).pointer(p).map(from_serde)
}

} // verus!
