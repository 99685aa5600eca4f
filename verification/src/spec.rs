//! Permissive `.feature` loader for real-world Gherkin exports.
//!
//! [`GherkinService::parse`] is strict: one `Feature:` per input.
//! Files in the wild often hold several `Feature:` blocks and carry a
//! `# language:` directive that contradicts their English keywords.
//! [`parse_relaxed`] strips the directives, splits the text before
//! every line that starts with `Feature:`, and parses each chunk that
//! holds a `Feature:`.
use vstd::prelude::*;

use crate::error::Error;
use crate::frontmatter::{strip_bom, ApiFrontmatter, Frontmatter};
use crate::gherkin::{
    FeatureV, GherkinService, ParsedFeature, ParsedScenario, ScenarioV, gherkin_parse,
    scenarios_view,
};
use crate::text::{
    chars_of, contains, contains_chars, insert_sorted_exec, sort_unique, is_blank, blank_chars, join_lines, join_lines_of,
    lines, lines_of, push_all, starts_with, starts_with_chars, string_of, strs_view, trim_start,
    trim_start_chars,
};

verus! {

/// A line holding a `# language:` directive.
pub open spec fn is_language_directive(l: Seq<char>) -> bool {
    starts_with(trim_start(l), "# language:"@)
}

/// The lines that are not language directives, in order.
pub open spec fn drop_directives(ls: Seq<Seq<char>>) -> Seq<Seq<char>>
    decreases ls.len(),
{
    if ls.len() == 0 {
        seq![]
    } else {
        let r = drop_directives(ls.drop_last());
        if is_language_directive(ls.last()) {
            r
        } else {
            r.push(ls.last())
        }
    }
}

/// The input with every `# language:` line removed, lines joined by `\n`.
pub open spec fn stripped(s: Seq<char>) -> Seq<char> {
    join_lines(drop_directives(lines(s)))
}

/// Left fold behind [`feature_chunks`]: finished chunks and the chunk
/// under way.
pub open spec fn chunk_acc(ls: Seq<Seq<char>>) -> (Seq<Seq<char>>, Seq<char>)
    decreases ls.len(),
{
    if ls.len() == 0 {
        (seq![], seq![])
    } else {
        let (done, cur) = chunk_acc(ls.drop_last());
        let l = ls.last();
        if starts_with(l, "Feature:"@) && !is_blank(cur) {
            (done.push(cur), l + seq!['\n'])
        } else {
            (done, cur + l + seq!['\n'])
        }
    }
}

/// The input cut before every line that starts with `Feature:`; each
/// chunk is its lines, each followed by `\n`. Blank chunks are dropped
/// at the cuts and at the end.
pub open spec fn feature_chunks(s: Seq<char>) -> Seq<Seq<char>> {
    let (done, cur) = chunk_acc(lines(s));
    if !is_blank(cur) {
        done.push(cur)
    } else {
        done
    }
}

/// The chunks that hold `Feature:`, in order.
pub open spec fn feature_bearing(cs: Seq<Seq<char>>) -> Seq<Seq<char>>
    decreases cs.len(),
{
    if cs.len() == 0 {
        seq![]
    } else {
        let r = feature_bearing(cs.drop_last());
        if contains(cs.last(), "Feature:"@) {
            r.push(cs.last())
        } else {
            r
        }
    }
}

/// Parses each chunk in turn: all features, or the first chunk's error.
pub open spec fn parse_all(cs: Seq<Seq<char>>) -> Result<Seq<FeatureV>, Seq<char>>
    decreases cs.len(),
{
    if cs.len() == 0 {
        Ok(seq![])
    } else {
        match parse_all(cs.drop_last()) {
            Err(m) => Err(m),
            Ok(fs) => match gherkin_parse(cs.last()) {
                Ok(f) => Ok(fs.push(f)),
                Err(m) => Err(m),
            },
        }
    }
}

/// What [`parse_relaxed`] reads from `s`: a leading byte-order mark is
/// dropped, then the language directives, then each `Feature:` chunk
/// is parsed.
pub open spec fn relaxed_parse(s: Seq<char>) -> Result<Seq<FeatureV>, Seq<char>> {
    parse_all(feature_bearing(feature_chunks(stripped(strip_bom(s)))))
}

pub open spec fn features_view(v: Seq<ParsedFeature>) -> Seq<FeatureV> {
    v.map_values(|f: ParsedFeature| f@)
}

proof fn lemma_feature_bearing_append(a: Seq<Seq<char>>, b: Seq<Seq<char>>)
    ensures
        feature_bearing(a + b) == feature_bearing(a) + feature_bearing(b),
    decreases b.len(),
{
    if b.len() == 0 {
        assert(a + b =~= a);
        assert(feature_bearing(a) + feature_bearing(b) =~= feature_bearing(a));
    } else {
        lemma_feature_bearing_append(a, b.drop_last());
        assert((a + b).drop_last() =~= a + b.drop_last());
        assert((a + b).last() == b.last());
        if contains(b.last(), "Feature:"@) {
            assert(feature_bearing(a) + feature_bearing(b) =~= (feature_bearing(a)
                + feature_bearing(b.drop_last())).push(b.last()));
        } else {
            assert(feature_bearing(a) + feature_bearing(b) =~= feature_bearing(a)
                + feature_bearing(b.drop_last()));
        }
    }
}

proof fn lemma_parse_all_err_extends(x: Seq<Seq<char>>, y: Seq<Seq<char>>)
    requires
        parse_all(x) is Err,
    ensures
        parse_all(x + y) == parse_all(x),
    decreases y.len(),
{
    if y.len() == 0 {
        assert(x + y =~= x);
    } else {
        lemma_parse_all_err_extends(x, y.drop_last());
        assert((x + y).drop_last() =~= x + y.drop_last());
    }
}

/// Removes every `# language:` directive line; the remaining lines are
/// joined with `\n`.
pub fn strip_language_directives(s: &str) -> (r: String)
    ensures
        r@ == stripped(s@),
{
    let v = chars_of(s);
    let ls = lines_of(&v);
    let directive = chars_of("# language:");
    let ghost lv = lines(v@);
    let mut kept: Vec<Vec<char>> = Vec::new();
    let mut i: usize = 0;
    while i < ls.len()
        invariant
            i <= ls.len(),
            lv == lines(v@),
            ls@.len() == lv.len(),
            forall|k: int| 0 <= k < ls@.len() ==> #[trigger] ls@[k]@ == lv[k],
            directive@ == "# language:"@,
            kept@.map_values(|p: Vec<char>| p@) == drop_directives(lv.take(i as int)),
        decreases ls.len() - i,
    {
        assert(lv.take(i + 1).drop_last() =~= lv.take(i as int));
        assert(lv.take(i + 1).last() == ls@[i as int]@);
        let t = trim_start_chars(&ls[i]);
        if !starts_with_chars(&t, &directive) {
            let ghost k0 = kept@;
            let line = crate::text::slice_chars(&ls[i], 0, ls[i].len());
            assert(line@ =~= ls@[i as int]@);
            kept.push(line);
            assert(kept@.map_values(|p: Vec<char>| p@) =~= k0.map_values(|p: Vec<char>| p@).push(
                ls@[i as int]@,
            ));
        }
        i += 1;
    }
    assert(lv.take(i as int) =~= lv);
    let joined = join_lines_of(&kept);
    string_of(joined.as_slice())
}

/// Cuts the input before every line that starts with `Feature:`
/// (see [`feature_chunks`]).
pub fn split_features(s: &str) -> (r: Vec<String>)
    ensures
        strs_view(r@) == feature_chunks(s@),
{
    let v = chars_of(s);
    let ls = lines_of(&v);
    let feature = chars_of("Feature:");
    let ghost lv = lines(v@);
    let mut done: Vec<String> = Vec::new();
    let mut cur: Vec<char> = Vec::new();
    let mut i: usize = 0;
    while i < ls.len()
        invariant
            i <= ls.len(),
            lv == lines(v@),
            ls@.len() == lv.len(),
            forall|k: int| 0 <= k < ls@.len() ==> #[trigger] ls@[k]@ == lv[k],
            feature@ == "Feature:"@,
            strs_view(done@) == chunk_acc(lv.take(i as int)).0,
            cur@ == chunk_acc(lv.take(i as int)).1,
        decreases ls.len() - i,
    {
        assert(lv.take(i + 1).drop_last() =~= lv.take(i as int));
        assert(lv.take(i + 1).last() == ls@[i as int]@);
        let l = &ls[i];
        if starts_with_chars(l, &feature) && !blank_chars(&cur) {
            let ghost d0 = done@;
            let ghost c0 = cur@;
            done.push(string_of(cur.as_slice()));
            assert(strs_view(done@) =~= strs_view(d0).push(c0));
            cur = Vec::new();
        }
        push_all(&mut cur, l);
        cur.push('\n');
        i += 1;
    }
    assert(lv.take(i as int) =~= lv);
    if !blank_chars(&cur) {
        let ghost d0 = done@;
        let ghost c0 = cur@;
        done.push(string_of(cur.as_slice()));
        assert(strs_view(done@) =~= strs_view(d0).push(c0));
    }
    done
}

/// Parses a `.feature`-shaped string into one [`ParsedFeature`] per
/// `Feature:` block (see [`relaxed_parse`]).
pub fn parse_relaxed(content: &str) -> (r: Result<Vec<ParsedFeature>, Error>)
    ensures
        match r {
            Ok(fs) => relaxed_parse(content@) == Ok::<Seq<FeatureV>, Seq<char>>(features_view(fs@)),
            Err(Error::Spec(m)) => relaxed_parse(content@) == Err::<Seq<FeatureV>, Seq<char>>(m@),
            Err(_) => false,
        },
{
    let all = chars_of(content);
    let unmarked = if all.len() > 0 && all[0] == '\u{FEFF}' {
        let t = crate::text::slice_chars(&all, 1, all.len());
        assert(t@ =~= all@.drop_first());
        string_of(t.as_slice())
    } else {
        String::from_str(content)
    };
    assert(unmarked@ == strip_bom(content@));
    let pre = strip_language_directives(unmarked.as_str());
    let chunks = split_features(pre.as_str());
    let ghost cs = strs_view(chunks@);
    let marker = chars_of("Feature:");
    let mut out: Vec<ParsedFeature> = Vec::new();
    assert(cs.take(0) =~= seq![]);
    assert(features_view(out@) =~= seq![]);
    let mut i: usize = 0;
    while i < chunks.len()
        invariant
            i <= chunks.len(),
            cs == strs_view(chunks@),
            cs == feature_chunks(stripped(strip_bom(content@))),
            marker@ == "Feature:"@,
            parse_all(feature_bearing(cs.take(i as int))) == Ok::<Seq<FeatureV>, Seq<char>>(
                features_view(out@),
            ),
        decreases chunks.len() - i,
    {
        assert(cs.take(i + 1).drop_last() =~= cs.take(i as int));
        assert(cs.take(i + 1).last() == chunks@[i as int]@);
        let c = chars_of(chunks[i].as_str());
        assert(c@ == cs[i as int]);
        if contains_chars(&c, &marker) {
            assert(feature_bearing(cs.take(i + 1)) == feature_bearing(cs.take(i as int)).push(
                cs[i as int],
            ));
            assert(feature_bearing(cs.take(i + 1)).drop_last() =~= feature_bearing(
                cs.take(i as int),
            ));
            match GherkinService::parse(chunks[i].as_str()) {
                Ok(f) => {
                    let ghost o0 = out@;
                    let ghost fv = f@;
                    out.push(f);
                    assert(features_view(out@) =~= features_view(o0).push(fv));
                },
                Err(e) => {
                    assert(parse_all(feature_bearing(cs.take(i + 1))) is Err);
                    proof {
                        let pre = cs.take(i + 1);
                        let post = cs.skip(i + 1);
                        assert(pre + post =~= cs);
                        lemma_feature_bearing_append(pre, post);
                        lemma_parse_all_err_extends(feature_bearing(pre), feature_bearing(post));
                    }
                    return Err(e);
                },
            }
        } else {
            assert(feature_bearing(cs.take(i + 1)) == feature_bearing(cs.take(i as int)));
        }
        i += 1;
    }
    assert(cs.take(i as int) =~= cs);
    Ok(out)
}

/// A `.feature` file: its path, frontmatter and feature blocks.
#[derive(Debug)]
pub struct SpecRecord {
    pub path: String,
    pub frontmatter: Option<Frontmatter>,
    pub features: Vec<ParsedFeature>,
}

/// Number of scenarios over all features.
pub open spec fn total_scenarios(fs: Seq<FeatureV>) -> int
    decreases fs.len(),
{
    if fs.len() == 0 {
        0
    } else {
        total_scenarios(fs.drop_last()) + fs.last().scenarios.len()
    }
}

/// The tags of the scenarios, in order, duplicates kept.
pub open spec fn scenario_tags(ss: Seq<ScenarioV>) -> Seq<Seq<char>>
    decreases ss.len(),
{
    if ss.len() == 0 {
        seq![]
    } else {
        scenario_tags(ss.drop_last()) + ss.last().tags
    }
}

/// The tags of every scenario of every feature, in order.
pub open spec fn all_tags(fs: Seq<FeatureV>) -> Seq<Seq<char>>
    decreases fs.len(),
{
    if fs.len() == 0 {
        seq![]
    } else {
        all_tags(fs.drop_last()) + scenario_tags(fs.last().scenarios)
    }
}

proof fn lemma_sort_unique_append(a: Seq<Seq<char>>, b: Seq<Seq<char>>, acc: Seq<Seq<char>>)
    requires
        acc == sort_unique(a),
    ensures
        sort_unique(a + b) == insert_each(acc, b),
    decreases b.len(),
{
    if b.len() == 0 {
        assert(a + b =~= a);
    } else {
        lemma_sort_unique_append(a, b.drop_last(), acc);
        assert((a + b).drop_last() =~= a + b.drop_last());
    }
}

/// Inserts each element of `b` into `acc` with [`insert_sorted`].
pub open spec fn insert_each(acc: Seq<Seq<char>>, b: Seq<Seq<char>>) -> Seq<Seq<char>>
    decreases b.len(),
{
    if b.len() == 0 {
        acc
    } else {
        crate::text::insert_sorted(insert_each(acc, b.drop_last()), b.last())
    }
}

impl SpecRecord {
    /// API metadata, if the frontmatter has an `api:` block.
    pub fn api(&self) -> (r: Option<&ApiFrontmatter>)
        ensures
            match r {
                Some(a) => self.frontmatter is Some && self.frontmatter.unwrap().api == Some(*a),
                None => self.frontmatter is None || self.frontmatter.unwrap().api is None,
            },
    {
        match &self.frontmatter {
            Some(f) => match &f.api {
                Some(a) => Some(a),
                None => None,
            },
            None => None,
        }
    }

    /// Total scenario count across all features in the file.
    pub fn scenario_count(&self) -> (n: usize)
        requires
            total_scenarios(features_view(self.features@)) <= usize::MAX,
        ensures
            n == total_scenarios(features_view(self.features@)),
    {
        let ghost fv = features_view(self.features@);
        let mut n: usize = 0;
        let mut i: usize = 0;
        while i < self.features.len()
            invariant
                i <= self.features.len(),
                fv == features_view(self.features@),
                total_scenarios(fv) <= usize::MAX,
                n == total_scenarios(fv.take(i as int)),
            decreases self.features.len() - i,
        {
            assert(fv.take(i + 1).drop_last() =~= fv.take(i as int));
            assert(fv.take(i + 1).last() == self.features@[i as int]@);
            proof {
                lemma_total_prefix(fv, i + 1);
            }
            n = n + self.features[i].scenarios.len();
            i += 1;
        }
        assert(fv.take(i as int) =~= fv);
        n
    }

    /// Unique tags across all scenarios, sorted and deduplicated.
    pub fn unique_tags(&self) -> (r: Vec<String>)
        ensures
            strs_view(r@) == sort_unique(all_tags(features_view(self.features@))),
    {
        let ghost fv = features_view(self.features@);
        let mut r: Vec<String> = Vec::new();
        let mut i: usize = 0;
        while i < self.features.len()
            invariant
                i <= self.features.len(),
                fv == features_view(self.features@),
                strs_view(r@) == sort_unique(all_tags(fv.take(i as int))),
            decreases self.features.len() - i,
        {
            let ghost pre = all_tags(fv.take(i as int));
            let ghost r0 = strs_view(r@);
            let scs = &self.features[i].scenarios;
            let ghost sv = scenarios_view(scs@);
            let mut j: usize = 0;
            while j < scs.len()
                invariant
                    j <= scs.len(),
                    sv == scenarios_view(scs@),
                    r0 == sort_unique(pre),
                    strs_view(r@) == insert_each(r0, scenario_tags(sv.take(j as int))),
                decreases scs.len() - j,
            {
                let tags = &scs[j].tags;
                let ghost before = scenario_tags(sv.take(j as int));
                let ghost tv = strs_view(tags@);
                assert(sv.take(j + 1).drop_last() =~= sv.take(j as int));
                assert(sv.take(j + 1).last() == scs@[j as int]@);
                assert(scenario_tags(sv.take(j + 1)) == before + tv);
                let mut k: usize = 0;
                while k < tags.len()
                    invariant
                        k <= tags.len(),
                        tv == strs_view(tags@),
                        strs_view(r@) == insert_each(r0, before + tv.take(k as int)),
                    decreases tags.len() - k,
                {
                    assert((before + tv.take(k + 1)).drop_last() =~= before + tv.take(k as int));
                    assert((before + tv.take(k + 1)).last() == tags@[k as int]@);
                    insert_sorted_exec(&mut r, tags[k].clone());
                    k += 1;
                }
                assert(tv.take(k as int) =~= tv);
                j += 1;
            }
            assert(sv.take(j as int) =~= sv);
            proof {
                assert(fv.take(i + 1).drop_last() =~= fv.take(i as int));
                assert(fv.take(i + 1).last() == self.features@[i as int]@);
                lemma_sort_unique_append(pre, scenario_tags(sv), r0);
            }
            i += 1;
        }
        assert(fv.take(i as int) =~= fv);
        r
    }
}

proof fn lemma_total_prefix(fs: Seq<FeatureV>, k: int)
    requires
        0 <= k <= fs.len(),
    ensures
        total_scenarios(fs.take(k)) <= total_scenarios(fs),
        total_scenarios(fs.take(k)) >= 0,
    decreases fs.len() - k,
{
    lemma_total_nonneg(fs.take(k));
    if k < fs.len() {
        assert(fs.drop_last().take(k) =~= fs.take(k));
        lemma_total_prefix(fs.drop_last(), k);
    } else {
        assert(fs.take(k) =~= fs);
    }
}

proof fn lemma_total_nonneg(fs: Seq<FeatureV>)
    ensures
        total_scenarios(fs) >= 0,
    decreases fs.len(),
{
    if fs.len() > 0 {
        lemma_total_nonneg(fs.drop_last());
    }
}


// ---------- ordering of paths ----------

/// The parts of a split that are not empty.
pub open spec fn nonempty_parts(parts: Seq<Seq<char>>) -> Seq<Seq<char>>
    decreases parts.len(),
{
    if parts.len() == 0 {
        seq![]
    } else if parts.last().len() == 0 {
        nonempty_parts(parts.drop_last())
    } else {
        nonempty_parts(parts.drop_last()).push(parts.last())
    }
}

/// The components of a `/`-separated path (empty ones dropped).
pub open spec fn path_components(p: Seq<char>) -> Seq<Seq<char>> {
    nonempty_parts(crate::text::split_on(p, '/'))
}

/// Lexicographic order on component lists, components by [`crate::text::lex_lt`]
/// (the order of `Path`).
pub open spec fn comps_lt(a: Seq<Seq<char>>, b: Seq<Seq<char>>) -> bool
    decreases a.len(),
{
    if a.len() == 0 {
        b.len() > 0
    } else if b.len() == 0 {
        false
    } else if crate::text::lex_lt(a[0], b[0]) {
        true
    } else if a[0] != b[0] {
        false
    } else {
        comps_lt(a.drop_first(), b.drop_first())
    }
}

/// Path `a` sorts before path `b`: smaller components, or equal
/// components and listed earlier.
pub open spec fn path_before(ps: Seq<Seq<char>>, a: int, b: int) -> bool {
    comps_lt(path_components(ps[a]), path_components(ps[b])) || (path_components(ps[a]) == path_components(ps[b]) && a < b)
}

proof fn lemma_comps_irrefl(a: Seq<Seq<char>>)
    ensures
        !comps_lt(a, a),
    decreases a.len(),
{
    if a.len() > 0 {
        crate::text::lemma_lex_irrefl(a[0]);
        lemma_comps_irrefl(a.drop_first());
    }
}

proof fn lemma_comps_trans(a: Seq<Seq<char>>, b: Seq<Seq<char>>, c: Seq<Seq<char>>)
    requires
        comps_lt(a, b),
        comps_lt(b, c),
    ensures
        comps_lt(a, c),
    decreases a.len(),
{
    if a.len() > 0 && b.len() > 0 && c.len() > 0 {
        if crate::text::lex_lt(a[0], b[0]) && crate::text::lex_lt(b[0], c[0]) {
            crate::text::lemma_lex_trans(a[0], b[0], c[0]);
        } else if a[0] == b[0] && b[0] == c[0] {
            lemma_comps_trans(a.drop_first(), b.drop_first(), c.drop_first());
        }
    }
}

proof fn lemma_comps_total(a: Seq<Seq<char>>, b: Seq<Seq<char>>)
    requires
        a != b,
    ensures
        comps_lt(a, b) || comps_lt(b, a),
    decreases a.len(),
{
    if a.len() > 0 && b.len() > 0 {
        if a[0] == b[0] {
            if a.drop_first() == b.drop_first() {
                assert(a =~= seq![a[0]] + a.drop_first());
                assert(b =~= seq![b[0]] + b.drop_first());
            }
            lemma_comps_total(a.drop_first(), b.drop_first());
        } else {
            crate::text::lemma_lex_total(a[0], b[0]);
        }
    } else if a.len() == 0 && b.len() == 0 {
        assert(a =~= b);
    }
}

proof fn lemma_before_trans(ps: Seq<Seq<char>>, a: int, b: int, c: int)
    requires
        path_before(ps, a, b),
        path_before(ps, b, c),
    ensures
        path_before(ps, a, c),
{
    let ca = path_components(ps[a]);
    let cb = path_components(ps[b]);
    let cc = path_components(ps[c]);
    if comps_lt(ca, cb) && comps_lt(cb, cc) {
        lemma_comps_trans(ca, cb, cc);
    }
}

proof fn lemma_before_total(ps: Seq<Seq<char>>, a: int, b: int)
    requires
        a != b,
    ensures
        path_before(ps, a, b) || path_before(ps, b, a),
{
    let ca = path_components(ps[a]);
    let cb = path_components(ps[b]);
    if ca != cb {
        lemma_comps_total(ca, cb);
    }
}

fn components_exec(p: &String) -> (r: Vec<Vec<char>>)
    ensures
        r@.map_values(|c: Vec<char>| c@) == path_components(p@),
{
    let v = chars_of(p.as_str());
    let parts = crate::text::split_chars(&v, '/');
    let ghost sp = crate::text::split_on(p@, '/');
    let mut r: Vec<Vec<char>> = Vec::new();
    let mut i: usize = 0;
    while i < parts.len()
        invariant
            i <= parts.len(),
            sp == crate::text::split_on(p@, '/'),
            parts@.len() == sp.len(),
            forall|k: int| 0 <= k < parts@.len() ==> #[trigger] parts@[k]@ == sp[k],
            r@.map_values(|c: Vec<char>| c@) == nonempty_parts(sp.take(i as int)),
        decreases parts.len() - i,
    {
        assert(sp.take(i + 1).drop_last() =~= sp.take(i as int));
        assert(sp.take(i + 1).last() == sp[i as int]);
        if parts[i].len() > 0 {
            let ghost rv = r@.map_values(|c: Vec<char>| c@);
            let part = slice_chars_all(&parts[i]);
            r.push(part);
            assert(r@.map_values(|c: Vec<char>| c@) =~= rv.push(sp[i as int]));
        }
        i += 1;
    }
    assert(sp.take(i as int) =~= sp);
    r
}

fn slice_chars_all(v: &Vec<char>) -> (r: Vec<char>)
    ensures
        r@ == v@,
{
    let r = crate::text::slice_chars(v, 0, v.len());
    assert(r@ =~= v@);
    r
}

fn comps_lt_exec(a: &Vec<Vec<char>>, b: &Vec<Vec<char>>) -> (r: bool)
    ensures
        r == comps_lt(a@.map_values(|c: Vec<char>| c@), b@.map_values(|c: Vec<char>| c@)),
{
    let ghost av = a@.map_values(|c: Vec<char>| c@);
    let ghost bv = b@.map_values(|c: Vec<char>| c@);
    let mut i: usize = 0;
    assert(av.skip(0) =~= av);
    assert(bv.skip(0) =~= bv);
    while i < a.len() && i < b.len()
        invariant
            i <= a.len(),
            i <= b.len(),
            av == a@.map_values(|c: Vec<char>| c@),
            bv == b@.map_values(|c: Vec<char>| c@),
            comps_lt(av.skip(i as int), bv.skip(i as int)) == comps_lt(av, bv),
        decreases a.len() - i,
    {
        assert(av.skip(i as int)[0] == a@[i as int]@);
        assert(bv.skip(i as int)[0] == b@[i as int]@);
        if crate::text::lex_lt_chars(&a[i], &b[i]) {
            return true;
        }
        if !crate::text::chars_eq(&a[i], &b[i]) {
            return false;
        }
        assert(av.skip(i as int).drop_first() =~= av.skip(i + 1));
        assert(bv.skip(i as int).drop_first() =~= bv.skip(i + 1));
        i += 1;
    }
    assert(av.skip(i as int).len() == 0 || bv.skip(i as int).len() == 0);
    i == a.len() && i < b.len()
}

/// Whether a directory entry named `name` is a spec file: its
/// extension, by `Path::extension`, is `feature` (a leading dot does
/// not start an extension, so `.feature` alone is not one).
pub open spec fn is_feature_name(name: Seq<char>) -> bool {
    name.len() > 8 && name.subrange(name.len() - 8, name.len() as int) == ".feature"@
}

/// Exec form of [`is_feature_name`].
pub fn is_feature_file(name: &str) -> (b: bool)
    ensures
        b == is_feature_name(name@),
{
    let v = chars_of(name);
    if v.len() <= 8 {
        return false;
    }
    let tail = crate::text::slice_chars(&v, v.len() - 8, v.len());
    let ext = chars_of(".feature");
    crate::text::chars_eq(&tail, &ext)
}

/// Paths sorted the way `Vec<PathBuf>::sort` sorts them: by
/// components, equal ones in their original order.
pub fn sort_paths(paths: &Vec<String>) -> (r: Vec<String>)
    ensures
        r@.len() == paths@.len(),
        exists|order: Seq<int>| {
            &&& crate::report::is_permutation(order, paths@.len() as int)
            &&& forall|i: int| 0 <= i < r@.len() ==> (#[trigger] r@[i])@ == paths@[order[i]]@
            &&& forall|i: int| 0 <= i < order.len() - 1 ==> path_before(strs_view(paths@), #[trigger] order[i], order[i + 1])
        },
{
    let ghost ps = strs_view(paths@);
    let n = paths.len();
    let mut comps: Vec<Vec<Vec<char>>> = Vec::new();
    let mut k: usize = 0;
    while k < n
        invariant
            k <= n,
            n == paths.len(),
            ps == strs_view(paths@),
            comps@.len() == k,
            forall|j: int| 0 <= j < k ==> (#[trigger] comps@[j])@.map_values(|c: Vec<char>| c@) == path_components(ps[j]),
        decreases n - k,
    {
        comps.push(components_exec(&paths[k]));
        k += 1;
    }
    let mut used: Vec<bool> = Vec::new();
    let mut k2: usize = 0;
    while k2 < n
        invariant
            k2 <= n,
            used@.len() == k2,
            forall|j: int| 0 <= j < k2 ==> !used@[j],
        decreases n - k2,
    {
        used.push(false);
        k2 += 1;
    }
    let mut order: Vec<usize> = Vec::new();
    while order.len() < n
        invariant
            n == paths.len(),
            ps == strs_view(paths@),
            ps.len() == n,
            comps@.len() == n,
            forall|j: int| 0 <= j < n ==> (#[trigger] comps@[j])@.map_values(|c: Vec<char>| c@) == path_components(ps[j]),
            used@.len() == n,
            order@.len() <= n,
            forall|i: int| 0 <= i < order@.len() ==> (#[trigger] order@[i]) < n && used@[order@[i] as int],
            forall|i: int, j: int| 0 <= i < j < order@.len() ==> order@[i] != order@[j],
            forall|j: int| 0 <= j < n ==> used@[j] ==> exists|i: int| 0 <= i < order@.len() && order@[i] == j,
            forall|i: int, j: int| 0 <= i < order@.len() && 0 <= j < n && !used@[j] ==> path_before(ps, order@[i] as int, j),
            forall|i: int| 0 <= i < order@.len() - 1 ==> path_before(ps, #[trigger] order@[i] as int, order@[i + 1] as int),
        decreases n - order@.len(),
    {
        proof {
            crate::report::lemma_some_unused(used@, order@, n as int);
        }
        let mut best: usize = n;
        let mut j: usize = 0;
        while j < n
            invariant
                n == paths.len(),
                ps == strs_view(paths@),
                ps.len() == n,
                comps@.len() == n,
                forall|x: int| 0 <= x < n ==> (#[trigger] comps@[x])@.map_values(|c: Vec<char>| c@) == path_components(ps[x]),
                used@.len() == n,
                j <= n,
                best == n || (best < j && !used@[best as int]),
                best == n ==> forall|x: int| 0 <= x < j ==> used@[x],
                best < n ==> forall|x: int| 0 <= x < j && !used@[x] && x != best ==> path_before(ps, best as int, x),
            decreases n - j,
        {
            if !used[j] {
                if best == n {
                    best = j;
                } else {
                    let lt = comps_lt_exec(&comps[j], &comps[best]);
                    if lt {
                        proof {
                            assert(path_before(ps, j as int, best as int));
                            assert forall|x: int| 0 <= x < j + 1 && !used@[x] && x != j implies path_before(ps, j as int, x) by {
                                if x != best as int {
                                    lemma_before_trans(ps, j as int, best as int, x);
                                }
                            }
                        }
                        best = j;
                    } else {
                        proof {
                            assert(!path_before(ps, j as int, best as int));
                            lemma_before_total(ps, j as int, best as int);
                        }
                    }
                }
            }
            j += 1;
        }
        assert(best < n) by {
            if best == n {
                let w = choose|x: int| 0 <= x < n && !used@[x];
            }
        }
        let ghost old_order = order@;
        let ghost old_used = used@;
        used.set(best, true);
        order.push(best);
        proof {
            assert forall|x: int| 0 <= x < n && used@[x] implies exists|i: int| 0 <= i < order@.len() && order@[i] == x by {
                if x == best as int {
                    assert(order@[old_order.len() as int] == x);
                } else {
                    assert(old_used[x]);
                    let i = choose|i: int| 0 <= i < old_order.len() && old_order[i] == x;
                    assert(order@[i] == x);
                }
            }
            assert forall|i: int, x: int| 0 <= i < order@.len() && 0 <= x < n && !used@[x] implies path_before(ps, order@[i] as int, x) by {
                if i < old_order.len() {
                    assert(order@[i] == old_order[i]);
                } else {
                    assert(!old_used[x] && x != best as int);
                }
            }
            assert forall|i: int, j: int| 0 <= i < j < order@.len() implies order@[i] != order@[j] by {
                if j == old_order.len() {
                    assert(!old_used[best as int]);
                    assert(old_used[old_order[i] as int]);
                }
            }
        }
    }
    let mut r: Vec<String> = Vec::new();
    let mut i: usize = 0;
    while i < n
        invariant
            i <= n,
            n == paths.len(),
            order@.len() == n,
            forall|x: int| 0 <= x < order@.len() ==> (#[trigger] order@[x]) < n,
            r@.len() == i,
            forall|x: int| 0 <= x < i ==> (#[trigger] r@[x])@ == paths@[order@[x] as int]@,
        decreases n - i,
    {
        r.push(paths[order[i]].clone());
        i += 1;
    }
    proof {
        let ov = order@.map_values(|x: usize| x as int);
        assert forall|a: int, b: int| 0 <= a < b < n implies ov[a] != ov[b] by {
            assert(order@[a] != order@[b]);
        }
        assert(crate::report::is_permutation(ov, n as int));
        assert forall|x: int| 0 <= x < r@.len() implies (#[trigger] r@[x])@ == paths@[ov[x]]@ by {}
        assert forall|x: int| 0 <= x < ov.len() - 1 implies path_before(strs_view(paths@), #[trigger] ov[x], ov[x + 1]) by {}
    }
    r
}

} // verus!
