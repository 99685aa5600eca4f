//! `serval api {list,show,find}`: which specs a query picks and how
//! they are shown.
//!
//! A query matches, case-insensitively, a substring of the spec's
//! path, its `api.path` / `api.method` / `api.collection`, a feature
//! name or a scenario tag. `list` and `find` only show specs with an
//! `api:` block.
use vstd::prelude::*;

use crate::frontmatter::{ApiFrontmatter, Frontmatter};
use crate::gherkin::{FeatureV, ParsedFeature};
use crate::runner::opt_str_view;
use crate::spec::{all_tags, features_view, total_scenarios, SpecRecord};
use crate::text::{contains, occurs_at, sort_unique, str_contains, strs_view};
use crate::textops::{debug_of, debug_quoted, decimal, decimal_string, lowercase, pad_right, pad_str, to_lower};

verus! {

/// Whether some tag contains `needle` once lower-cased.
pub open spec fn tag_hit(tags: Seq<Seq<char>>, needle: Seq<char>) -> bool {
    exists|i: int| 0 <= i < tags.len() && contains(lowercase(#[trigger] tags[i]), needle)
}

/// Whether a feature's name, or a tag of one of its scenarios, contains `needle`.
pub open spec fn feature_hit(f: FeatureV, needle: Seq<char>) -> bool {
    contains(lowercase(f.name), needle) || exists|j: int| 0 <= j < f.scenarios.len() && tag_hit(#[trigger] f.scenarios[j].tags, needle)
}

/// The `api:` block of a record's frontmatter.
pub open spec fn api_of(r: SpecRecord) -> Option<ApiFrontmatter> {
    match r.frontmatter {
        Some(f) => f.api,
        None => None,
    }
}

/// Whether the `api:` block contains `needle` in its path, method or collection.
pub open spec fn api_hit(a: Option<ApiFrontmatter>, needle: Seq<char>) -> bool {
    match a {
        Some(a) => contains(lowercase(a.path@), needle) || contains(lowercase(a.method@), needle) || match a.collection {
            Some(c) => contains(lowercase(c@), needle),
            None => false,
        },
        None => false,
    }
}

/// Whether a record matches a query (see the module comment).
pub open spec fn record_hit(r: SpecRecord, query: Seq<char>) -> bool {
    let needle = lowercase(query);
    contains(lowercase(r.path@), needle) || api_hit(api_of(r), needle) || exists|i: int|
        0 <= i < r.features@.len() && feature_hit(#[trigger] features_view(r.features@)[i], needle)
}

fn lower_contains(s: &str, needle: &String) -> (b: bool)
    ensures
        b == contains(lowercase(s@), needle@),
{
    let l = to_lower(s);
    str_contains(l.as_str(), needle.as_str())
}

/// Whether the record matches the query (see [`record_hit`]).
pub fn matches_query(r: &SpecRecord, query: &str) -> (b: bool)
    ensures
        b == record_hit(*r, query@),
        query@.len() == 0 ==> b,
{
    let needle = to_lower(query);
    proof {
        if query@.len() == 0 {
            assert(lowercase(r.path@).subrange(0, 0) =~= needle@);
            assert(occurs_at(lowercase(r.path@), needle@, 0));
        }
    }
    if lower_contains(r.path.as_str(), &needle) {
        return true;
    }
    match &r.frontmatter {
        Some(f) => match &f.api {
            Some(a) => {
                if lower_contains(a.path.as_str(), &needle) || lower_contains(a.method.as_str(), &needle) {
                    return true;
                }
                match &a.collection {
                    Some(c) => {
                        if lower_contains(c.as_str(), &needle) {
                            return true;
                        }
                    },
                    None => {},
                }
            },
            None => {},
        },
        None => {},
    }
    let ghost fv = features_view(r.features@);
    let mut i: usize = 0;
    while i < r.features.len()
        invariant
            i <= r.features.len(),
            fv == features_view(r.features@),
            needle@ == lowercase(query@),
            forall|k: int| 0 <= k < i ==> !feature_hit(#[trigger] fv[k], needle@),
        decreases r.features.len() - i,
    {
        let f = &r.features[i];
        assert(fv[i as int] == f@);
        if lower_contains(f.name.as_str(), &needle) {
            return true;
        }
        let mut j: usize = 0;
        while j < f.scenarios.len()
            invariant
                j <= f.scenarios.len(),
                i < r.features.len(),
                fv == features_view(r.features@),
                fv[i as int] == f@,
                needle@ == lowercase(query@),
                forall|k: int| 0 <= k < j ==> !tag_hit(#[trigger] f@.scenarios[k].tags, needle@),
            decreases f.scenarios.len() - j,
        {
            let s = &f.scenarios[j];
            assert(f@.scenarios[j as int] == s@);
            let mut t: usize = 0;
            while t < s.tags.len()
                invariant
                    t <= s.tags.len(),
                    j < f.scenarios.len(),
                    i < r.features.len(),
                    fv == features_view(r.features@),
                    fv[i as int] == f@,
                    f@.scenarios[j as int] == s@,
                    needle@ == lowercase(query@),
                    forall|k: int| 0 <= k < t ==> !contains(lowercase(#[trigger] s@.tags[k]), needle@),
                decreases s.tags.len() - t,
            {
                assert(s@.tags[t as int] == s.tags@[t as int]@);
                if lower_contains(s.tags[t].as_str(), &needle) {
                    assert(tag_hit(f@.scenarios[j as int].tags, needle@));
                    assert(feature_hit(fv[i as int], needle@));
                    return true;
                }
                t += 1;
            }
            j += 1;
        }
        i += 1;
    }
    false
}

/// One spec as the list views show it.
#[derive(Debug)]
pub struct ApiListing {
    pub source: String,
    pub method: String,
    pub path: String,
    pub collection: Option<String>,
    pub scenario_count: usize,
    pub tags: Vec<String>,
}

/// The list row of a record with an `api:` block.
pub fn listing_for(r: &SpecRecord) -> (l: ApiListing)
    requires
        api_of(*r) is Some,
        total_scenarios(features_view(r.features@)) <= usize::MAX,
    ensures
        l.source@ == r.path@,
        l.method@ == api_of(*r)->0.method@,
        l.path@ == api_of(*r)->0.path@,
        opt_str_view(l.collection) == opt_str_view(api_of(*r)->0.collection),
        l.scenario_count == total_scenarios(features_view(r.features@)),
        strs_view(l.tags@) == sort_unique(all_tags(features_view(r.features@))),
{
    let a = r.api().unwrap();
    ApiListing {
        source: r.path.clone(),
        method: a.method.clone(),
        path: a.path.clone(),
        collection: match &a.collection {
            Some(c) => Some(c.clone()),
            None => None,
        },
        scenario_count: r.scenario_count(),
        tags: r.unique_tags(),
    }
}

/// The indices of the records that satisfy `keep`, in order.
pub open spec fn picked(rs: Seq<SpecRecord>, query: Option<Seq<char>>) -> Seq<int>
    decreases rs.len(),
{
    if rs.len() == 0 {
        seq![]
    } else if api_of(rs.last()) is Some && match query {
        Some(q) => record_hit(rs.last(), q),
        None => true,
    } {
        picked(rs.drop_last(), query).push(rs.len() - 1)
    } else {
        picked(rs.drop_last(), query)
    }
}

/// The records `list` (no query) or `find` (a query) shows: those with
/// an `api:` block that match.
pub fn listed(records: &Vec<SpecRecord>, query: Option<&str>) -> (r: Vec<usize>)
    ensures
        r@.map_values(|x: usize| x as int) == picked(records@, crate::config::opt_slice_view(query)),
{
    let ghost q = crate::config::opt_slice_view(query);
    let mut out: Vec<usize> = Vec::new();
    let mut i: usize = 0;
    while i < records.len()
        invariant
            i <= records.len(),
            q == crate::config::opt_slice_view(query),
            out@.map_values(|x: usize| x as int) == picked(records@.take(i as int), q),
        decreases records.len() - i,
    {
        assert(records@.take(i + 1).drop_last() =~= records@.take(i as int));
        assert(records@.take(i + 1).last() == records@[i as int]);
        let keep = records[i].api().is_some() && match query {
            Some(qs) => matches_query(&records[i], qs),
            None => true,
        };
        if keep {
            let ghost ov = out@.map_values(|x: usize| x as int);
            out.push(i);
            assert(out@.map_values(|x: usize| x as int) =~= ov.push(i as int));
        }
        i += 1;
    }
    assert(records@.take(i as int) =~= records@);
    out
}

/// The row of a listed record.
pub open spec fn list_row(r: SpecRecord) -> Seq<char> {
    let a = api_of(r)->0;
    "  "@ + pad_right(a.method@, 8) + "  "@ + pad_right(a.path@, 32) + "  "@ + pad_right(match a.collection {
        Some(c) => c@,
        None => "-"@,
    }, 14) + "  "@ + r.path@
}

/// The lines `list` / `find` print for the picked records.
pub open spec fn list_lines(total: nat, rs: Seq<SpecRecord>, pick: Seq<int>) -> Seq<Seq<char>> {
    if pick.len() == 0 {
        if total == 0 {
            seq!["  no `.feature` files found"@]
        } else {
            seq!["  no APIs found ("@ + decimal(total as int) + " spec file(s) scanned, none with API frontmatter)"@]
        }
    } else {
        seq!["  "@ + pad_right("METHOD"@, 8) + "  "@ + pad_right("PATH"@, 32) + "  "@ + pad_right("COLLECTION"@, 14) + "  SOURCE"@]
            + pick.map_values(|i: int| list_row(rs[i]))
            + seq![seq![], if total > pick.len() {
                "  "@ + decimal(pick.len() as int) + " APIs ("@ + decimal(total as int) + " spec file(s) scanned; "@ + decimal(total - pick.len()) + " without API frontmatter omitted)."@
            } else {
                "  "@ + decimal(pick.len() as int) + " APIs in "@ + decimal(total as int) + " spec file(s)."@
            }]
    }
}

fn list_row_exec(r: &SpecRecord) -> (s: String)
    requires
        api_of(*r) is Some,
    ensures
        s@ == list_row(*r),
{
    let a = r.api().unwrap();
    let mut s = String::from_str("  ");
    let m = pad_str(a.method.as_str(), 8);
    s.append(m.as_str());
    s.append("  ");
    let p = pad_str(a.path.as_str(), 32);
    s.append(p.as_str());
    s.append("  ");
    let c = match &a.collection {
        Some(c) => pad_str(c.as_str(), 14),
        None => pad_str("-", 14),
    };
    s.append(c.as_str());
    s.append("  ");
    s.append(r.path.as_str());
    s
}

/// The lines `list` / `find` print (see [`list_lines`]).
pub fn list_table(total_scanned: usize, records: &Vec<SpecRecord>, pick: &Vec<usize>) -> (lines: Vec<String>)
    requires
        forall|k: int| 0 <= k < pick@.len() ==> (#[trigger] pick@[k]) < records@.len() && api_of(records@[pick@[k] as int]) is Some,
    ensures
        strs_view(lines@) == list_lines(total_scanned as nat, records@, pick@.map_values(|x: usize| x as int)),
{
    let ghost pv = pick@.map_values(|x: usize| x as int);
    let mut lines: Vec<String> = Vec::new();
    if pick.len() == 0 {
        if total_scanned == 0 {
            lines.push(String::from_str("  no `.feature` files found"));
        } else {
            let mut m = String::from_str("  no APIs found (");
            let d = decimal_string(total_scanned as i128);
            m.append(d.as_str());
            m.append(" spec file(s) scanned, none with API frontmatter)");
            lines.push(m);
        }
        assert(strs_view(lines@) =~= list_lines(total_scanned as nat, records@, pv));
        return lines;
    }
    let mut head = String::from_str("  ");
    let h1 = pad_str("METHOD", 8);
    head.append(h1.as_str());
    head.append("  ");
    let h2 = pad_str("PATH", 32);
    head.append(h2.as_str());
    head.append("  ");
    let h3 = pad_str("COLLECTION", 14);
    head.append(h3.as_str());
    head.append("  SOURCE");
    lines.push(head);
    let ghost first = strs_view(lines@);
    let mut i: usize = 0;
    while i < pick.len()
        invariant
            i <= pick.len(),
            pv == pick@.map_values(|x: usize| x as int),
            forall|k: int| 0 <= k < pick@.len() ==> (#[trigger] pick@[k]) < records@.len() && api_of(records@[pick@[k] as int]) is Some,
            strs_view(lines@) == first + pv.take(i as int).map_values(|k: int| list_row(records@[k])),
        decreases pick.len() - i,
    {
        let row = list_row_exec(&records[pick[i]]);
        let ghost lv = strs_view(lines@);
        let ghost rv = row@;
        lines.push(row);
        assert(strs_view(lines@) =~= lv.push(rv));
        assert(pv.take(i + 1) =~= pv.take(i as int).push(pv[i as int]));
        i += 1;
    }
    assert(pv.take(i as int) =~= pv);
    let ghost body = strs_view(lines@);
    lines.push(String::new());
    let n = pick.len();
    let mut last = String::from_str("  ");
    let nd = decimal_string(n as i128);
    last.append(nd.as_str());
    if total_scanned > n {
        last.append(" APIs (");
        let td = decimal_string(total_scanned as i128);
        last.append(td.as_str());
        last.append(" spec file(s) scanned; ");
        let dd = decimal_string((total_scanned - n) as i128);
        last.append(dd.as_str());
        last.append(" without API frontmatter omitted).");
    } else {
        last.append(" APIs in ");
        let td = decimal_string(total_scanned as i128);
        last.append(td.as_str());
        last.append(" spec file(s).");
    }
    let ghost lastv = last@;
    lines.push(last);
    assert(strs_view(lines@) =~= body + seq![seq![], lastv]);
    lines
}

/// The indices of the records a `show` pattern matches, in order.
pub open spec fn hits(rs: Seq<SpecRecord>, pattern: Seq<char>) -> Seq<int>
    decreases rs.len(),
{
    if rs.len() == 0 {
        seq![]
    } else if record_hit(rs.last(), pattern) {
        hits(rs.drop_last(), pattern).push(rs.len() - 1)
    } else {
        hits(rs.drop_last(), pattern)
    }
}

/// What `show` reports on stderr when the pattern does not pick one spec.
pub open spec fn show_error_lines(rs: Seq<SpecRecord>, pattern: Seq<char>, h: Seq<int>) -> Seq<Seq<char>> {
    if h.len() == 0 {
        seq!["error: no spec matches "@ + debug_quoted(pattern)]
    } else {
        seq!["error: "@ + decimal(h.len() as int) + " specs match "@ + debug_quoted(pattern), "candidates:"@]
            + h.map_values(|i: int| "  "@ + rs[i].path@)
    }
}

/// The one record `show` picks, or the error lines when there is none
/// or more than one.
pub fn show_selection(records: &Vec<SpecRecord>, pattern: &str) -> (r: Result<usize, Vec<String>>)
    ensures
        match r {
            Ok(i) => hits(records@, pattern@) == seq![i as int],
            Err(lines) => hits(records@, pattern@).len() != 1 && strs_view(lines@) == show_error_lines(records@, pattern@, hits(records@, pattern@)),
        },
{
    let mut found: Vec<usize> = Vec::new();
    let mut i: usize = 0;
    while i < records.len()
        invariant
            i <= records.len(),
            found@.map_values(|x: usize| x as int) == hits(records@.take(i as int), pattern@),
            forall|k: int| 0 <= k < found@.len() ==> (#[trigger] found@[k]) < i,
        decreases records.len() - i,
    {
        assert(records@.take(i + 1).drop_last() =~= records@.take(i as int));
        assert(records@.take(i + 1).last() == records@[i as int]);
        if matches_query(&records[i], pattern) {
            let ghost ov = found@.map_values(|x: usize| x as int);
            found.push(i);
            assert(found@.map_values(|x: usize| x as int) =~= ov.push(i as int));
        }
        i += 1;
    }
    assert(records@.take(i as int) =~= records@);
    let ghost h = hits(records@, pattern@);
    let ghost fv = found@.map_values(|x: usize| x as int);
    if found.len() == 1 {
        assert(h =~= seq![found@[0] as int]);
        return Ok(found[0]);
    }
    let mut lines: Vec<String> = Vec::new();
    if found.len() == 0 {
        let mut m = String::from_str("error: no spec matches ");
        let q = debug_of(pattern);
        m.append(q.as_str());
        lines.push(m);
        assert(strs_view(lines@) =~= show_error_lines(records@, pattern@, h));
        return Err(lines);
    }
    let mut m = String::from_str("error: ");
    let d = decimal_string(found.len() as i128);
    m.append(d.as_str());
    m.append(" specs match ");
    let q = debug_of(pattern);
    m.append(q.as_str());
    lines.push(m);
    lines.push(String::from_str("candidates:"));
    let ghost first = strs_view(lines@);
    let mut k: usize = 0;
    while k < found.len()
        invariant
            k <= found.len(),
            fv == found@.map_values(|x: usize| x as int),
            fv == h,
            forall|j: int| 0 <= j < found@.len() ==> (#[trigger] found@[j]) < records@.len(),
            strs_view(lines@) == first + fv.take(k as int).map_values(|x: int| "  "@ + records@[x].path@),
        decreases found.len() - k,
    {
        let mut c = String::from_str("  ");
        c.append(records[found[k]].path.as_str());
        let ghost lv = strs_view(lines@);
        let ghost cv = c@;
        lines.push(c);
        assert(strs_view(lines@) =~= lv.push(cv));
        assert(fv.take(k + 1) =~= fv.take(k as int).push(fv[k as int]));
        k += 1;
    }
    assert(fv.take(k as int) =~= fv);
    assert(strs_view(lines@) =~= show_error_lines(records@, pattern@, h));
    Err(lines)
}


/// One scenario in the detail view.
#[derive(Debug)]
pub struct ScenarioView {
    pub title: String,
    pub tags: Vec<String>,
}

/// One feature in the detail view.
#[derive(Debug)]
pub struct FeatureView {
    pub name: String,
    pub scenarios: Vec<ScenarioView>,
}

/// The `api:` block in the detail view.
#[derive(Debug)]
pub struct ApiSummary {
    pub path: String,
    pub method: String,
    pub collection: Option<String>,
}

/// The detail view of one spec.
#[derive(Debug)]
pub struct SpecDetail {
    pub source: String,
    pub api: Option<ApiSummary>,
    pub implements: Option<Vec<String>>,
    pub features: Vec<FeatureView>,
}

/// The `implements:` list of a record's frontmatter.
pub open spec fn implements_of(r: SpecRecord) -> Option<Seq<Seq<char>>> {
    match r.frontmatter {
        Some(f) => match f.implements {
            Some(v) => Some(strs_view(v@)),
            None => None,
        },
        None => None,
    }
}

/// Each feature's name, and each of its scenarios' title and tags.
pub open spec fn features_outline(fs: Seq<FeatureView>) -> Seq<(Seq<char>, Seq<(Seq<char>, Seq<Seq<char>>)>)> {
    fs.map_values(|f: FeatureView| (f.name@, f.scenarios@.map_values(|s: ScenarioView| (s.title@, strs_view(s.tags@)))))
}

/// The same outline read off parsed features.
pub open spec fn parsed_outline(fs: Seq<FeatureV>) -> Seq<(Seq<char>, Seq<(Seq<char>, Seq<Seq<char>>)>)> {
    fs.map_values(|f: FeatureV| (f.name, f.scenarios.map_values(|s: crate::gherkin::ScenarioV| (s.title, s.tags))))
}

fn clone_strings(v: &Vec<String>) -> (r: Vec<String>)
    ensures
        strs_view(r@) == strs_view(v@),
{
    let mut r: Vec<String> = Vec::new();
    let mut i: usize = 0;
    while i < v.len()
        invariant
            i <= v.len(),
            strs_view(r@) == strs_view(v@).take(i as int),
        decreases v.len() - i,
    {
        let ghost rv = strs_view(r@);
        let c = v[i].clone();
        let ghost cv = c@;
        r.push(c);
        assert(strs_view(r@) =~= rv.push(cv));
        assert(strs_view(v@).take(i + 1) =~= strs_view(v@).take(i as int).push(strs_view(v@)[i as int]));
        assert(strs_view(r@) =~= strs_view(v@).take(i + 1));
        i += 1;
    }
    assert(strs_view(v@).take(i as int) =~= strs_view(v@));
    r
}

/// The detail view of a record.
pub fn detail_for(r: &SpecRecord) -> (d: SpecDetail)
    ensures
        d.source@ == r.path@,
        match api_of(*r) {
            Some(a) => d.api matches Some(s) && s.path@ == a.path@ && s.method@ == a.method@ && opt_str_view(s.collection) == opt_str_view(a.collection),
            None => d.api is None,
        },
        match d.implements {
            Some(v) => implements_of(*r) == Some(strs_view(v@)),
            None => implements_of(*r) is None,
        },
        features_outline(d.features@) == parsed_outline(features_view(r.features@)),
{
    let api = match r.api() {
        Some(a) => Some(ApiSummary {
            path: a.path.clone(),
            method: a.method.clone(),
            collection: match &a.collection {
                Some(c) => Some(c.clone()),
                None => None,
            },
        }),
        None => None,
    };
    let implements = match &r.frontmatter {
        Some(f) => match &f.implements {
            Some(v) => Some(clone_strings(v)),
            None => None,
        },
        None => None,
    };
    let ghost target = parsed_outline(features_view(r.features@));
    let mut features: Vec<FeatureView> = Vec::new();
    let mut i: usize = 0;
    while i < r.features.len()
        invariant
            i <= r.features.len(),
            target == parsed_outline(features_view(r.features@)),
            features_outline(features@) == target.take(i as int),
        decreases r.features.len() - i,
    {
        let f = &r.features[i];
        let mut scenarios: Vec<ScenarioView> = Vec::new();
        let mut j: usize = 0;
        while j < f.scenarios.len()
            invariant
                j <= f.scenarios.len(),
                scenarios@.map_values(|s: ScenarioView| (s.title@, strs_view(s.tags@))) == f@.scenarios.map_values(|s: crate::gherkin::ScenarioV| (s.title, s.tags)).take(j as int),
            decreases f.scenarios.len() - j,
        {
            let s = &f.scenarios[j];
            assert(f@.scenarios[j as int] == s@);
            let ghost sv = scenarios@.map_values(|s: ScenarioView| (s.title@, strs_view(s.tags@)));
            let ghost tgt = f@.scenarios.map_values(|s: crate::gherkin::ScenarioV| (s.title, s.tags));
            let item = ScenarioView { title: s.title.clone(), tags: clone_strings(&s.tags) };
            let ghost iv = (item.title@, strs_view(item.tags@));
            scenarios.push(item);
            assert(scenarios@.map_values(|s: ScenarioView| (s.title@, strs_view(s.tags@))) =~= sv.push(iv));
            assert(tgt.take(j + 1) =~= tgt.take(j as int).push(tgt[j as int]));
            assert(scenarios@.map_values(|s: ScenarioView| (s.title@, strs_view(s.tags@))) =~= f@.scenarios.map_values(|s: crate::gherkin::ScenarioV| (s.title, s.tags)).take(j + 1));
            j += 1;
        }
        assert(f@.scenarios.map_values(|s: crate::gherkin::ScenarioV| (s.title, s.tags)).take(j as int) =~= f@.scenarios.map_values(|s: crate::gherkin::ScenarioV| (s.title, s.tags)));
        let ghost fo = features_outline(features@);
        let item = FeatureView { name: f.name.clone(), scenarios };
        let ghost iv = (item.name@, item.scenarios@.map_values(|s: ScenarioView| (s.title@, strs_view(s.tags@))));
        features.push(item);
        assert(features_outline(features@) =~= fo.push(iv));
        assert(features_view(r.features@)[i as int] == f@);
        assert(target.take(i + 1) =~= target.take(i as int).push(target[i as int]));
        assert(features_outline(features@) =~= target.take(i + 1));
        i += 1;
    }
    assert(target.take(i as int) =~= target);
    SpecDetail { source: r.path.clone(), api, implements, features }
}

/// Tags joined by `,`.
pub open spec fn comma_join(t: Seq<Seq<char>>) -> Seq<char>
    decreases t.len(),
{
    if t.len() == 0 {
        seq![]
    } else if t.len() == 1 {
        t[0]
    } else {
        comma_join(t.drop_last()) + ","@ + t.last()
    }
}

/// `[a,b] ` before a scenario's title, or nothing without tags.
pub open spec fn tags_prefix(t: Seq<Seq<char>>) -> Seq<char> {
    if t.len() == 0 {
        seq![]
    } else {
        "["@ + comma_join(t) + "] "@
    }
}

/// The lines of one feature in the detail table.
pub open spec fn feature_lines(f: FeatureV) -> Seq<Seq<char>> {
    seq!["    "@ + f.name] + if f.scenarios.len() > 0 {
        seq!["      scenarios ("@ + decimal(f.scenarios.len() as int) + "):"@]
            + f.scenarios.map_values(|s: crate::gherkin::ScenarioV| "        "@ + tags_prefix(s.tags) + s.title)
    } else {
        seq![]
    }
}

/// The lines of all features, in order.
pub open spec fn features_lines(fs: Seq<FeatureV>) -> Seq<Seq<char>>
    decreases fs.len(),
{
    if fs.len() == 0 {
        seq![]
    } else {
        features_lines(fs.drop_last()) + feature_lines(fs.last())
    }
}

/// The lines of the `api:` block.
pub open spec fn api_lines(a: Option<ApiFrontmatter>) -> Seq<Seq<char>> {
    match a {
        Some(a) => seq!["  api:"@, "    path:       "@ + a.path@, "    method:     "@ + a.method@] + match a.collection {
            Some(c) => seq!["    collection: "@ + c@],
            None => seq![],
        },
        None => seq!["  api: (none)"@],
    }
}

/// The lines of a non-empty `implements:` list.
pub open spec fn implements_lines(v: Option<Seq<Seq<char>>>) -> Seq<Seq<char>> {
    match v {
        Some(items) => if items.len() > 0 {
            seq!["  implements:"@] + items.map_values(|e: Seq<char>| "    - "@ + e)
        } else {
            seq![]
        },
        None => seq![],
    }
}

/// The lines `show` prints for one spec.
pub open spec fn show_lines(r: SpecRecord) -> Seq<Seq<char>> {
    seq!["  source: "@ + r.path@] + api_lines(api_of(r)) + implements_lines(implements_of(r))
        + seq![seq![], "  features ("@ + decimal(r.features@.len() as int) + "):"@]
        + features_lines(features_view(r.features@))
}

fn push_line(lines: &mut Vec<String>, s: String)
    ensures
        strs_view(final(lines)@) == strs_view(old(lines)@).push(s@),
{
    let ghost sv = s@;
    lines.push(s);
    assert(strs_view(lines@) =~= strs_view(old(lines)@).push(sv));
}

fn tags_prefix_exec(t: &Vec<String>) -> (s: String)
    ensures
        s@ == tags_prefix(strs_view(t@)),
{
    if t.len() == 0 {
        return String::new();
    }
    let ghost tv = strs_view(t@);
    let mut inner = String::new();
    let mut i: usize = 0;
    while i < t.len()
        invariant
            i <= t.len(),
            tv == strs_view(t@),
            inner@ == comma_join(tv.take(i as int)),
        decreases t.len() - i,
    {
        if i > 0 {
            inner.append(",");
        }
        inner.append(t[i].as_str());
        assert(tv.take(i + 1).drop_last() =~= tv.take(i as int));
        assert(tv.take(i + 1).last() == tv[i as int]);
        if i == 0 {
            assert(inner@ =~= tv[0]);
        }
        i += 1;
    }
    assert(tv.take(i as int) =~= tv);
    let mut s = String::from_str("[");
    s.append(inner.as_str());
    s.append("] ");
    s
}

/// The lines `show` prints (see [`show_lines`]).
pub fn show_table(r: &SpecRecord) -> (lines: Vec<String>)
    ensures
        strs_view(lines@) == show_lines(*r),
{
    let mut lines: Vec<String> = Vec::new();
    let mut src = String::from_str("  source: ");
    src.append(r.path.as_str());
    push_line(&mut lines, src);
    let ghost l0 = strs_view(lines@);
    match r.api() {
        Some(a) => {
            push_line(&mut lines, String::from_str("  api:"));
            let mut p = String::from_str("    path:       ");
            p.append(a.path.as_str());
            push_line(&mut lines, p);
            let mut m = String::from_str("    method:     ");
            m.append(a.method.as_str());
            push_line(&mut lines, m);
            match &a.collection {
                Some(c) => {
                    let mut cl = String::from_str("    collection: ");
                    cl.append(c.as_str());
                    push_line(&mut lines, cl);
                },
                None => {},
            }
        },
        None => {
            push_line(&mut lines, String::from_str("  api: (none)"));
        },
    }
    assert(strs_view(lines@) =~= l0 + api_lines(api_of(*r)));
    let ghost l1 = strs_view(lines@);
    match &r.frontmatter {
        Some(f) => match &f.implements {
            Some(v) => {
                if v.len() > 0 {
                    push_line(&mut lines, String::from_str("  implements:"));
                    let ghost base = strs_view(lines@);
                    let ghost vv = strs_view(v@);
                    let mut k: usize = 0;
                    while k < v.len()
                        invariant
                            k <= v.len(),
                            vv == strs_view(v@),
                            strs_view(lines@) == base + vv.take(k as int).map_values(|e: Seq<char>| "    - "@ + e),
                        decreases v.len() - k,
                    {
                        let mut e = String::from_str("    - ");
                        e.append(v[k].as_str());
                        push_line(&mut lines, e);
                        assert(vv.take(k + 1) =~= vv.take(k as int).push(vv[k as int]));
                        k += 1;
                    }
                    assert(vv.take(k as int) =~= vv);
                }
            },
            None => {},
        },
        None => {},
    }
    assert(strs_view(lines@) =~= l1 + implements_lines(implements_of(*r)));
    let ghost l2 = strs_view(lines@);
    push_line(&mut lines, String::new());
    let mut fh = String::from_str("  features (");
    let fd = decimal_string(r.features.len() as i128);
    fh.append(fd.as_str());
    fh.append("):");
    push_line(&mut lines, fh);
    let ghost l3 = strs_view(lines@);
    let ghost fv = features_view(r.features@);
    let mut i: usize = 0;
    while i < r.features.len()
        invariant
            i <= r.features.len(),
            fv == features_view(r.features@),
            strs_view(lines@) == l3 + features_lines(fv.take(i as int)),
        decreases r.features.len() - i,
    {
        let f = &r.features[i];
        assert(fv[i as int] == f@);
        let ghost before = strs_view(lines@);
        let mut nl = String::from_str("    ");
        nl.append(f.name.as_str());
        push_line(&mut lines, nl);
        if f.scenarios.len() > 0 {
            let mut sh = String::from_str("      scenarios (");
            let sd = decimal_string(f.scenarios.len() as i128);
            sh.append(sd.as_str());
            sh.append("):");
            push_line(&mut lines, sh);
            let ghost base = strs_view(lines@);
            let ghost ss = f@.scenarios;
            let mut j: usize = 0;
            while j < f.scenarios.len()
                invariant
                    j <= f.scenarios.len(),
                    ss == f@.scenarios,
                    strs_view(lines@) == base + ss.take(j as int).map_values(|s: crate::gherkin::ScenarioV| "        "@ + tags_prefix(s.tags) + s.title),
                decreases f.scenarios.len() - j,
            {
                let s = &f.scenarios[j];
                assert(ss[j as int] == s@);
                let mut l = String::from_str("        ");
                let tp = tags_prefix_exec(&s.tags);
                l.append(tp.as_str());
                l.append(s.title.as_str());
                push_line(&mut lines, l);
                assert(ss.take(j + 1) =~= ss.take(j as int).push(ss[j as int]));
                j += 1;
            }
            assert(ss.take(j as int) =~= ss);
        }
        assert(strs_view(lines@) =~= before + feature_lines(f@));
        assert(fv.take(i + 1).drop_last() =~= fv.take(i as int));
        assert(fv.take(i + 1).last() == fv[i as int]);
        i += 1;
    }
    assert(fv.take(i as int) =~= fv);
    assert(strs_view(lines@) =~= show_lines(*r));
    lines
}

} // verus!
