//! The user-global config: named environments, each with a base URL,
//! and an optional default environment.
//!
//! ```toml
//! default_env = "local"
//!
//! [envs.local]
//! base_url = "http://localhost:3000"
//! ```
//!
//! The environments are kept sorted by name, each name once, as the
//! TOML table reads and writes them. Reading and writing the file is
//! the caller's.
use vstd::prelude::*;

use crate::patterns::pairs_lookup;
use crate::runner::opt_str_view;
use crate::text::{chars_of, lemma_lex_irrefl, lemma_lex_total, lemma_lex_trans, lex_lt, lex_lt_chars};

verus! {

/// One environment.
#[derive(Debug)]
pub struct EnvConfig {
    pub base_url: String,
}

/// The config file's contents.
#[derive(Debug)]
pub struct Config {
    pub default_env: Option<String>,
    /// Environments by name, in name order.
    pub envs: Vec<(String, EnvConfig)>,
}

/// Each environment's name and base URL.
pub open spec fn envs_view(v: Seq<(String, EnvConfig)>) -> Seq<(Seq<char>, Seq<char>)> {
    v.map_values(|p: (String, EnvConfig)| (p.0@, p.1.base_url@))
}

/// Names strictly increasing.
pub open spec fn sorted_keys(e: Seq<(Seq<char>, Seq<char>)>) -> bool {
    forall|i: int, j: int| 0 <= i < j < e.len() ==> lex_lt(#[trigger] e[i].0, #[trigger] e[j].0)
}

/// Sets `k` to `v` in a name-sorted list: replaces the entry under
/// `k`, or inserts it in order.
pub open spec fn sorted_set(e: Seq<(Seq<char>, Seq<char>)>, k: Seq<char>, v: Seq<char>) -> Seq<(Seq<char>, Seq<char>)>
    decreases e.len(),
{
    if e.len() == 0 {
        seq![(k, v)]
    } else if e[0].0 == k {
        e.update(0, (k, v))
    } else if lex_lt(k, e[0].0) {
        seq![(k, v)] + e
    } else {
        seq![e[0]] + sorted_set(e.drop_first(), k, v)
    }
}

/// The entries without the one under `k`.
pub open spec fn sorted_remove(e: Seq<(Seq<char>, Seq<char>)>, k: Seq<char>) -> Seq<(Seq<char>, Seq<char>)>
    decreases e.len(),
{
    if e.len() == 0 {
        e
    } else if e[0].0 == k {
        sorted_remove(e.drop_first(), k)
    } else {
        seq![e[0]] + sorted_remove(e.drop_first(), k)
    }
}

/// The environment a lookup targets: the given name, or else the default.
pub open spec fn target_env(name: Option<Seq<char>>, default_env: Option<Seq<char>>) -> Option<Seq<char>> {
    match name {
        Some(n) => Some(n),
        None => default_env,
    }
}

/// What resolving yields: the target's name and base URL, if both exist.
pub open spec fn resolve_spec(c: Config, name: Option<Seq<char>>) -> Option<(Seq<char>, Seq<char>)> {
    match target_env(name, opt_str_view(c.default_env)) {
        Some(t) => match pairs_lookup(envs_view(c.envs@), t) {
            Some(u) => Some((t, u)),
            None => None,
        },
        None => None,
    }
}

// ---------- the order of names ----------

/// Every name of `sorted_set(e, k, v)` is `k` or a name of `e`.
proof fn lemma_sorted_set_keys(e: Seq<(Seq<char>, Seq<char>)>, k: Seq<char>, v: Seq<char>)
    ensures
        forall|i: int| 0 <= i < sorted_set(e, k, v).len() ==> (#[trigger] sorted_set(e, k, v)[i]).0 == k
            || exists|j: int| 0 <= j < e.len() && e[j].0 == sorted_set(e, k, v)[i].0,
    decreases e.len(),
{
    if e.len() > 0 && e[0].0 != k && !lex_lt(k, e[0].0) {
        lemma_sorted_set_keys(e.drop_first(), k, v);
        let s = sorted_set(e, k, v);
        let r = sorted_set(e.drop_first(), k, v);
        assert forall|i: int| 0 <= i < s.len() implies (#[trigger] s[i]).0 == k
            || exists|j: int| 0 <= j < e.len() && e[j].0 == s[i].0 by {
            if i == 0 {
                assert(e[0].0 == s[0].0);
            } else {
                assert(s[i] == r[i - 1]);
                if r[i - 1].0 != k {
                    let j = choose|j: int| 0 <= j < e.drop_first().len() && e.drop_first()[j].0 == r[i - 1].0;
                    assert(e[j + 1].0 == s[i].0);
                }
            }
        }
    } else if e.len() > 0 && e[0].0 != k {
        let s = sorted_set(e, k, v);
        assert forall|i: int| 0 <= i < s.len() implies (#[trigger] s[i]).0 == k
            || exists|j: int| 0 <= j < e.len() && e[j].0 == s[i].0 by {
            if i > 0 {
                assert(e[i - 1].0 == s[i].0);
            }
        }
    } else if e.len() > 0 {
        let s = sorted_set(e, k, v);
        assert forall|i: int| 0 <= i < s.len() implies (#[trigger] s[i]).0 == k
            || exists|j: int| 0 <= j < e.len() && e[j].0 == s[i].0 by {
            if i > 0 {
                assert(e[i].0 == s[i].0);
            }
        }
    }
}

/// Setting keeps the names sorted.
pub proof fn lemma_sorted_set_sorted(e: Seq<(Seq<char>, Seq<char>)>, k: Seq<char>, v: Seq<char>)
    requires
        sorted_keys(e),
    ensures
        sorted_keys(sorted_set(e, k, v)),
    decreases e.len(),
{
    let s = sorted_set(e, k, v);
    if e.len() == 0 {
    } else if e[0].0 == k {
        assert forall|i: int, j: int| 0 <= i < j < s.len() implies lex_lt(#[trigger] s[i].0, #[trigger] s[j].0) by {
            assert(s[i].0 == e[i].0);
            assert(s[j].0 == e[j].0);
        }
    } else if lex_lt(k, e[0].0) {
        assert forall|i: int, j: int| 0 <= i < j < s.len() implies lex_lt(#[trigger] s[i].0, #[trigger] s[j].0) by {
            if i == 0 {
                if j > 1 {
                    lemma_lex_trans(k, e[0].0, e[j - 1].0);
                }
            } else {
                assert(s[i] == e[i - 1]);
                assert(s[j] == e[j - 1]);
            }
        }
    } else {
        lemma_lex_total(k, e[0].0);
        let t = e.drop_first();
        assert(sorted_keys(t)) by {
            assert forall|i: int, j: int| 0 <= i < j < t.len() implies lex_lt(#[trigger] t[i].0, #[trigger] t[j].0) by {
                assert(t[i] == e[i + 1]);
                assert(t[j] == e[j + 1]);
            }
        }
        lemma_sorted_set_sorted(t, k, v);
        lemma_sorted_set_keys(t, k, v);
        let r = sorted_set(t, k, v);
        assert forall|i: int, j: int| 0 <= i < j < s.len() implies lex_lt(#[trigger] s[i].0, #[trigger] s[j].0) by {
            if i == 0 {
                assert(s[j] == r[j - 1]);
                if r[j - 1].0 != k {
                    let x = choose|x: int| 0 <= x < t.len() && t[x].0 == r[j - 1].0;
                    assert(t[x] == e[x + 1]);
                }
            } else {
                assert(s[i] == r[i - 1]);
                assert(s[j] == r[j - 1]);
            }
        }
    }
}

/// After setting `k` to `v`, `k` looks up `v`.
pub proof fn lemma_sorted_set_lookup_same(e: Seq<(Seq<char>, Seq<char>)>, k: Seq<char>, v: Seq<char>)
    ensures
        pairs_lookup(sorted_set(e, k, v), k) == Some(v),
    decreases e.len(),
{
    if e.len() > 0 && e[0].0 != k && !lex_lt(k, e[0].0) {
        lemma_sorted_set_lookup_same(e.drop_first(), k, v);
        assert((seq![e[0]] + sorted_set(e.drop_first(), k, v)).drop_first() =~= sorted_set(e.drop_first(), k, v));
    } else if e.len() > 0 && e[0].0 != k {
        assert((seq![(k, v)] + e)[0] == (k, v));
    }
}

/// Setting `k` leaves every other name's lookup as it was.
pub proof fn lemma_sorted_set_lookup_other(e: Seq<(Seq<char>, Seq<char>)>, k: Seq<char>, v: Seq<char>, x: Seq<char>)
    requires
        x != k,
    ensures
        pairs_lookup(sorted_set(e, k, v), x) == pairs_lookup(e, x),
    decreases e.len(),
{
    let s = sorted_set(e, k, v);
    if e.len() == 0 {
        assert(s[0].0 == k);
        assert(s.drop_first().len() == 0);
        assert(pairs_lookup(s.drop_first(), x) is None);
        assert(pairs_lookup(s, x) == pairs_lookup(s.drop_first(), x));
    } else if e[0].0 == k {
        assert(s[0].0 == k);
        assert(s.drop_first() =~= e.drop_first());
        assert(pairs_lookup(s, x) == pairs_lookup(s.drop_first(), x));
        assert(pairs_lookup(e, x) == pairs_lookup(e.drop_first(), x));
    } else if lex_lt(k, e[0].0) {
        assert(s[0].0 == k);
        assert(s.drop_first() =~= e);
        assert(pairs_lookup(s, x) == pairs_lookup(s.drop_first(), x));
    } else {
        lemma_sorted_set_lookup_other(e.drop_first(), k, v, x);
        assert(s[0] == e[0]);
        assert(s.drop_first() =~= sorted_set(e.drop_first(), k, v));
        if e[0].0 != x {
            assert(pairs_lookup(s, x) == pairs_lookup(s.drop_first(), x));
            assert(pairs_lookup(e, x) == pairs_lookup(e.drop_first(), x));
        }
    }
}

/// Removing keeps the names sorted.
pub proof fn lemma_sorted_remove_sorted(e: Seq<(Seq<char>, Seq<char>)>, k: Seq<char>)
    requires
        sorted_keys(e),
    ensures
        sorted_keys(sorted_remove(e, k)),
        forall|i: int| 0 <= i < sorted_remove(e, k).len() ==> exists|j: int| 0 <= j < e.len() && e[j] == #[trigger] sorted_remove(e, k)[i],
    decreases e.len(),
{
    if e.len() > 0 {
        let t = e.drop_first();
        assert(sorted_keys(t)) by {
            assert forall|i: int, j: int| 0 <= i < j < t.len() implies lex_lt(#[trigger] t[i].0, #[trigger] t[j].0) by {
                assert(t[i] == e[i + 1]);
                assert(t[j] == e[j + 1]);
            }
        }
        lemma_sorted_remove_sorted(t, k);
        let r = sorted_remove(t, k);
        let s = sorted_remove(e, k);
        assert forall|i: int| 0 <= i < s.len() implies exists|j: int| 0 <= j < e.len() && e[j] == #[trigger] s[i] by {
            if e[0].0 == k {
                let j = choose|j: int| 0 <= j < t.len() && t[j] == r[i];
                assert(e[j + 1] == s[i]);
            } else if i == 0 {
                assert(e[0] == s[0]);
            } else {
                assert(s[i] == r[i - 1]);
                let j = choose|j: int| 0 <= j < t.len() && t[j] == r[i - 1];
                assert(e[j + 1] == s[i]);
            }
        }
        if e[0].0 != k {
            assert forall|i: int, j: int| 0 <= i < j < s.len() implies lex_lt(#[trigger] s[i].0, #[trigger] s[j].0) by {
                if i == 0 {
                    assert(s[j] == r[j - 1]);
                    let x = choose|x: int| 0 <= x < t.len() && t[x] == r[j - 1];
                    assert(t[x] == e[x + 1]);
                } else {
                    assert(s[i] == r[i - 1]);
                    assert(s[j] == r[j - 1]);
                }
            }
        }
    }
}

/// After removing `k`, `k` looks up nothing.
pub proof fn lemma_sorted_remove_lookup_same(e: Seq<(Seq<char>, Seq<char>)>, k: Seq<char>)
    ensures
        pairs_lookup(sorted_remove(e, k), k) is None,
    decreases e.len(),
{
    if e.len() > 0 {
        lemma_sorted_remove_lookup_same(e.drop_first(), k);
        if e[0].0 != k {
            assert((seq![e[0]] + sorted_remove(e.drop_first(), k)).drop_first() =~= sorted_remove(e.drop_first(), k));
        }
    }
}

/// Removing `k` leaves every other name's lookup as it was.
pub proof fn lemma_sorted_remove_lookup_other(e: Seq<(Seq<char>, Seq<char>)>, k: Seq<char>, x: Seq<char>)
    requires
        x != k,
    ensures
        pairs_lookup(sorted_remove(e, k), x) == pairs_lookup(e, x),
    decreases e.len(),
{
    if e.len() > 0 {
        lemma_sorted_remove_lookup_other(e.drop_first(), k, x);
        if e[0].0 != k {
            assert((seq![e[0]] + sorted_remove(e.drop_first(), k)).drop_first() =~= sorted_remove(e.drop_first(), k));
        }
    }
}


proof fn lemma_sorted_set_at(e: Seq<(Seq<char>, Seq<char>)>, k: Seq<char>, v: Seq<char>, i: int)
    requires
        0 <= i <= e.len(),
        forall|j: int| 0 <= j < i ==> (#[trigger] e[j]).0 != k && !lex_lt(k, e[j].0),
        i < e.len() ==> e[i].0 == k || lex_lt(k, e[i].0),
    ensures
        sorted_set(e, k, v) == if i < e.len() && e[i].0 == k {
            e.update(i, (k, v))
        } else {
            e.insert(i, (k, v))
        },
    decreases i,
{
    if i > 0 {
        assert(e[0].0 != k && !lex_lt(k, e[0].0));
        assert forall|j: int| 0 <= j < i - 1 implies (#[trigger] e.drop_first()[j]).0 != k && !lex_lt(k, e.drop_first()[j].0) by {
            assert(e.drop_first()[j] == e[j + 1]);
        }
        lemma_sorted_set_at(e.drop_first(), k, v, i - 1);
        if i < e.len() && e[i].0 == k {
            assert(seq![e[0]] + e.drop_first().update(i - 1, (k, v)) =~= e.update(i, (k, v)));
        } else {
            assert(seq![e[0]] + e.drop_first().insert(i - 1, (k, v)) =~= e.insert(i, (k, v)));
        }
    } else if e.len() == 0 {
        assert(seq![(k, v)] =~= e.insert(0, (k, v)));
    } else if e[0].0 != k {
        assert(seq![(k, v)] + e =~= e.insert(0, (k, v)));
    }
}

proof fn lemma_sorted_remove_absent(e: Seq<(Seq<char>, Seq<char>)>, k: Seq<char>)
    requires
        forall|j: int| 0 <= j < e.len() ==> (#[trigger] e[j]).0 != k,
    ensures
        sorted_remove(e, k) == e,
    decreases e.len(),
{
    if e.len() > 0 {
        assert forall|j: int| 0 <= j < e.drop_first().len() implies (#[trigger] e.drop_first()[j]).0 != k by {
            assert(e.drop_first()[j] == e[j + 1]);
        }
        lemma_sorted_remove_absent(e.drop_first(), k);
        assert(e[0].0 != k);
        assert(seq![e[0]] + e.drop_first() =~= e);
    }
}

proof fn lemma_sorted_remove_at(e: Seq<(Seq<char>, Seq<char>)>, k: Seq<char>, i: int)
    requires
        sorted_keys(e),
        0 <= i < e.len(),
        e[i].0 == k,
        forall|j: int| 0 <= j < i ==> (#[trigger] e[j]).0 != k,
    ensures
        sorted_remove(e, k) == e.remove(i),
    decreases i,
{
    if i > 0 {
        let t = e.drop_first();
        assert(sorted_keys(t)) by {
            assert forall|a: int, b: int| 0 <= a < b < t.len() implies lex_lt(#[trigger] t[a].0, #[trigger] t[b].0) by {
                assert(t[a] == e[a + 1]);
                assert(t[b] == e[b + 1]);
            }
        }
        assert forall|j: int| 0 <= j < i - 1 implies (#[trigger] t[j]).0 != k by {
            assert(t[j] == e[j + 1]);
        }
        lemma_sorted_remove_at(t, k, i - 1);
        assert(e[0].0 != k);
        assert(seq![e[0]] + t.remove(i - 1) =~= e.remove(i));
    } else {
        let t = e.drop_first();
        assert forall|j: int| 0 <= j < t.len() implies (#[trigger] t[j]).0 != k by {
            assert(t[j] == e[j + 1]);
            assert(lex_lt(e[0].0, e[j + 1].0));
            lemma_lex_irrefl(k);
        }
        lemma_sorted_remove_absent(t, k);
        assert(t =~= e.remove(0));
    }
}

/// The view of an optional string slice.
pub open spec fn opt_slice_view(o: Option<&str>) -> Option<Seq<char>> {
    match o {
        Some(s) => Some(s@),
        None => None,
    }
}

/// The names from `e` set one by one into `acc` (see [`sorted_set`]).
pub open spec fn set_each(acc: Seq<(Seq<char>, Seq<char>)>, e: Seq<(Seq<char>, Seq<char>)>) -> Seq<(Seq<char>, Seq<char>)>
    decreases e.len(),
{
    if e.len() == 0 {
        acc
    } else {
        sorted_set(set_each(acc, e.drop_last()), e.last().0, e.last().1)
    }
}

impl Config {
    /// No environments and no default.
    pub fn new() -> (c: Config)
        ensures
            c.default_env is None,
            c.envs@.len() == 0,
    {
        Config { default_env: None, envs: Vec::new() }
    }

    /// The names are sorted, each once.
    pub open spec fn wf(&self) -> bool {
        sorted_keys(envs_view(self.envs@))
    }

    /// Index of the environment named `name`.
    fn find(&self, name: &str) -> (r: Option<usize>)
        ensures
            match r {
                Some(i) => i < self.envs@.len() && self.envs@[i as int].0@ == name@ && pairs_lookup(envs_view(self.envs@), name@) == Some(self.envs@[i as int].1.base_url@)
                    && forall|j: int| 0 <= j < i ==> (#[trigger] envs_view(self.envs@)[j]).0 != name@,
                None => pairs_lookup(envs_view(self.envs@), name@) is None && forall|j: int| 0 <= j < self.envs@.len() ==> (#[trigger] envs_view(self.envs@)[j]).0 != name@,
            },
    {
        let ghost ev = envs_view(self.envs@);
        let nv = chars_of(name);
        let mut i: usize = 0;
        assert(ev.skip(0) =~= ev);
        while i < self.envs.len()
            invariant
                i <= self.envs.len(),
                ev == envs_view(self.envs@),
                nv@ == name@,
                pairs_lookup(ev.skip(i as int), name@) == pairs_lookup(ev, name@),
                forall|j: int| 0 <= j < i ==> (#[trigger] ev[j]).0 != name@,
            decreases self.envs.len() - i,
        {
            assert(ev.skip(i as int)[0] == ev[i as int]);
            assert(ev.skip(i as int).drop_first() =~= ev.skip(i + 1));
            if crate::text::chars_eq(&chars_of(self.envs[i].0.as_str()), &nv) {
                return Some(i);
            }
            i += 1;
        }
        assert(ev.skip(i as int).len() == 0);
        None
    }

    /// The named environment, or, without a name, the default one:
    /// its name and settings, when it exists (see [`resolve_spec`]).
    pub fn resolve_env<'a>(&'a self, name: Option<&str>) -> (r: Option<(&'a str, &'a EnvConfig)>)
        ensures
            match r {
                Some((n, env)) => resolve_spec(*self, opt_slice_view(name)) == Some((n@, env.base_url@)),
                None => resolve_spec(*self, opt_slice_view(name)) is None,
            },
    {
        let target: &str = match name {
            Some(n) => n,
            None => match &self.default_env {
                Some(d) => d.as_str(),
                None => {
                    return None;
                },
            },
        };
        match self.find(target) {
            Some(i) => Some((self.envs[i].0.as_str(), &self.envs[i].1)),
            None => None,
        }
    }

    /// The environment named `name`.
    pub fn get<'a>(&'a self, name: &str) -> (r: Option<&'a EnvConfig>)
        ensures
            match r {
                Some(env) => pairs_lookup(envs_view(self.envs@), name@) == Some(env.base_url@),
                None => pairs_lookup(envs_view(self.envs@), name@) is None,
            },
    {
        match self.find(name) {
            Some(i) => Some(&self.envs[i].1),
            None => None,
        }
    }

    /// Creates or updates the environment `name`, and makes it the
    /// default when asked to.
    pub fn set_env(&mut self, name: String, base_url: String, make_default: bool)
        requires
            old(self).wf(),
        ensures
            final(self).wf(),
            envs_view(final(self).envs@) == sorted_set(envs_view(old(self).envs@), name@, base_url@),
            opt_str_view(final(self).default_env) == if make_default {
                Some(name@)
            } else {
                opt_str_view(old(self).default_env)
            },
    {
        let ghost ev = envs_view(self.envs@);
        let nv = chars_of(name.as_str());
        let mut i: usize = 0;
        let mut stop = false;
        while i < self.envs.len() && !stop
            invariant
                i <= self.envs.len(),
                ev == envs_view(self.envs@),
                self.envs@ == old(self).envs@,
                self.default_env == old(self).default_env,
                nv@ == name@,
                forall|j: int| 0 <= j < i ==> (#[trigger] ev[j]).0 != name@ && !lex_lt(name@, ev[j].0),
                stop ==> i < self.envs.len() && (ev[i as int].0 == name@ || lex_lt(name@, ev[i as int].0)),
            decreases self.envs.len() - i, if stop { 0int } else { 1int },
        {
            let kv = chars_of(self.envs[i].0.as_str());
            if crate::text::chars_eq(&kv, &nv) || lex_lt_chars(&nv, &kv) {
                stop = true;
            } else {
                i += 1;
            }
        }
        proof {
            lemma_sorted_set_at(ev, name@, base_url@, i as int);
            lemma_sorted_set_sorted(ev, name@, base_url@);
        }
        let ghost nm = name@;
        let ghost bu = base_url@;
        let key = if make_default {
            self.default_env = Some(name.clone());
            name
        } else {
            name
        };
        if stop && crate::text::chars_eq(&chars_of(self.envs[i].0.as_str()), &nv) {
            self.envs.set(i, (key, EnvConfig { base_url }));
            assert(envs_view(self.envs@) =~= ev.update(i as int, (nm, bu)));
        } else {
            self.envs.insert(i, (key, EnvConfig { base_url }));
            assert(envs_view(self.envs@) =~= ev.insert(i as int, (nm, bu)));
        }
    }

    /// Deletes the environment `name`; the default is cleared when it
    /// named it. Returns whether there was one.
    pub fn remove_env(&mut self, name: &str) -> (removed: bool)
        requires
            old(self).wf(),
        ensures
            final(self).wf(),
            removed == pairs_lookup(envs_view(old(self).envs@), name@) is Some,
            envs_view(final(self).envs@) == sorted_remove(envs_view(old(self).envs@), name@),
            opt_str_view(final(self).default_env) == if removed && opt_str_view(old(self).default_env) == Some(name@) {
                None
            } else {
                opt_str_view(old(self).default_env)
            },
    {
        let ghost ev = envs_view(self.envs@);
        proof {
            lemma_sorted_remove_sorted(ev, name@);
        }
        match self.find(name) {
            Some(i) => {
                proof {
                    lemma_sorted_remove_at(ev, name@, i as int);
                }
                self.envs.remove(i);
                assert(envs_view(self.envs@) =~= ev.remove(i as int));
                let clear = match &self.default_env {
                    Some(d) => crate::text::chars_eq(&chars_of(d.as_str()), &chars_of(name)),
                    None => false,
                };
                if clear {
                    self.default_env = None;
                }
                true
            },
            None => {
                proof {
                    lemma_sorted_remove_absent(ev, name@);
                }
                false
            },
        }
    }

    /// A config holding `entries`, set one by one in order, and the default.
    pub fn from_entries(default_env: Option<String>, entries: Vec<(String, EnvConfig)>) -> (c: Config)
        ensures
            c.wf(),
            opt_str_view(c.default_env) == opt_str_view(default_env),
            envs_view(c.envs@) == set_each(seq![], envs_view(entries@)),
    {
        let ghost ev = envs_view(entries@);
        let mut c = Config::new();
        assert(envs_view(c.envs@) =~= seq![]);
        let mut i: usize = 0;
        assert(ev.take(0) =~= seq![]);
        while i < entries.len()
            invariant
                i <= entries.len(),
                ev == envs_view(entries@),
                c.wf(),
                c.default_env is None,
                envs_view(c.envs@) == set_each(seq![], ev.take(i as int)),
            decreases entries.len() - i,
        {
            assert(ev[i as int] == (entries@[i as int].0@, entries@[i as int].1.base_url@));
            assert(ev.take(i + 1).drop_last() =~= ev.take(i as int));
            assert(ev.take(i + 1).last() == ev[i as int]);
            c.set_env(entries[i].0.clone(), entries[i].1.base_url.clone(), false);
            i += 1;
        }
        assert(ev.take(i as int) =~= ev);
        c.default_env = default_env;
        c
    }
}

} // verus!
