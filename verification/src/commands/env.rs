//! `serval env {list,show,set,remove}`: what the environment listing
//! and detail views show.
use vstd::prelude::*;

use crate::config::{envs_view, Config, EnvConfig};
use crate::runner::opt_str_view;
use crate::text::{chars_of, strs_view};
use crate::textops::{pad_right, pad_str};

verus! {

/// One environment as the JSON listing shows it.
#[derive(Debug)]
pub struct EnvListing {
    pub name: String,
    pub base_url: String,
    pub is_default: bool,
}

/// Whether `name` is the config's default environment.
pub open spec fn is_default_env(default_env: Option<Seq<char>>, name: Seq<char>) -> bool {
    default_env == Some(name)
}

fn is_default_exec(cfg: &Config, name: &str) -> (b: bool)
    ensures
        b == is_default_env(opt_str_view(cfg.default_env), name@),
{
    match &cfg.default_env {
        Some(d) => crate::text::chars_eq(&chars_of(d.as_str()), &chars_of(name)),
        None => false,
    }
}

/// The JSON listing of every environment, in name order.
pub fn listings(cfg: &Config) -> (r: Vec<EnvListing>)
    ensures
        r@.len() == cfg.envs@.len(),
        forall|i: int| 0 <= i < r@.len() ==> {
            &&& (#[trigger] r@[i]).name@ == envs_view(cfg.envs@)[i].0
            &&& r@[i].base_url@ == envs_view(cfg.envs@)[i].1
            &&& r@[i].is_default == is_default_env(opt_str_view(cfg.default_env), envs_view(cfg.envs@)[i].0)
        },
{
    let mut r: Vec<EnvListing> = Vec::new();
    let mut i: usize = 0;
    while i < cfg.envs.len()
        invariant
            i <= cfg.envs.len(),
            r@.len() == i,
            forall|j: int| 0 <= j < i ==> {
                &&& (#[trigger] r@[j]).name@ == envs_view(cfg.envs@)[j].0
                &&& r@[j].base_url@ == envs_view(cfg.envs@)[j].1
                &&& r@[j].is_default == is_default_env(opt_str_view(cfg.default_env), envs_view(cfg.envs@)[j].0)
            },
        decreases cfg.envs.len() - i,
    {
        let d = is_default_exec(cfg, cfg.envs[i].0.as_str());
        r.push(EnvListing { name: cfg.envs[i].0.clone(), base_url: cfg.envs[i].1.base_url.clone(), is_default: d });
        i += 1;
    }
    r
}

/// The JSON view of one environment.
pub fn listing_of(name: &str, env: &EnvConfig, cfg: &Config) -> (r: EnvListing)
    ensures
        r.name@ == name@,
        r.base_url@ == env.base_url@,
        r.is_default == is_default_env(opt_str_view(cfg.default_env), name@),
{
    EnvListing { name: String::from_str(name), base_url: env.base_url.clone(), is_default: is_default_exec(cfg, name) }
}

/// The table row of one environment.
pub open spec fn env_row(name: Seq<char>, url: Seq<char>, is_default: bool) -> Seq<char> {
    "  "@ + pad_right(name, 16) + "  "@ + pad_right(if is_default { "yes"@ } else { "-"@ }, 10) + "  "@ + url
}

/// The lines of the environment table.
pub open spec fn env_table(envs: Seq<(Seq<char>, Seq<char>)>, default_env: Option<Seq<char>>) -> Seq<Seq<char>> {
    if envs.len() == 0 {
        seq!["  no environments configured"@]
    } else {
        seq!["  "@ + pad_right("NAME"@, 16) + "  "@ + pad_right("DEFAULT"@, 10) + "  BASE URL"@]
            + envs.map_values(|e: (Seq<char>, Seq<char>)| env_row(e.0, e.1, is_default_env(default_env, e.0)))
    }
}

fn env_row_exec(name: &str, url: &str, is_default: bool) -> (s: String)
    ensures
        s@ == env_row(name@, url@, is_default),
{
    let mut s = String::from_str("  ");
    let n = pad_str(name, 16);
    s.append(n.as_str());
    s.append("  ");
    let m = pad_str(if is_default { "yes" } else { "-" }, 10);
    s.append(m.as_str());
    s.append("  ");
    s.append(url);
    s
}

/// The lines `env list` prints (see [`env_table`]).
pub fn list_table(cfg: &Config) -> (lines: Vec<String>)
    ensures
        strs_view(lines@) == env_table(envs_view(cfg.envs@), opt_str_view(cfg.default_env)),
{
    let ghost ev = envs_view(cfg.envs@);
    let ghost dv = opt_str_view(cfg.default_env);
    let mut lines: Vec<String> = Vec::new();
    if cfg.envs.len() == 0 {
        lines.push(String::from_str("  no environments configured"));
        assert(strs_view(lines@) =~= env_table(ev, dv));
        return lines;
    }
    let mut head = String::from_str("  ");
    let h1 = pad_str("NAME", 16);
    head.append(h1.as_str());
    head.append("  ");
    let h2 = pad_str("DEFAULT", 10);
    head.append(h2.as_str());
    head.append("  BASE URL");
    lines.push(head);
    let ghost first = strs_view(lines@);
    let mut i: usize = 0;
    while i < cfg.envs.len()
        invariant
            i <= cfg.envs.len(),
            ev == envs_view(cfg.envs@),
            dv == opt_str_view(cfg.default_env),
            strs_view(lines@) == first + ev.take(i as int).map_values(|e: (Seq<char>, Seq<char>)| env_row(e.0, e.1, is_default_env(dv, e.0))),
        decreases cfg.envs.len() - i,
    {
        let d = is_default_exec(cfg, cfg.envs[i].0.as_str());
        let row = env_row_exec(cfg.envs[i].0.as_str(), cfg.envs[i].1.base_url.as_str(), d);
        let ghost lv = strs_view(lines@);
        let ghost rv = row@;
        lines.push(row);
        assert(ev[i as int] == (cfg.envs@[i as int].0@, cfg.envs@[i as int].1.base_url@));
        assert(strs_view(lines@) =~= lv.push(rv));
        assert(ev.take(i + 1) =~= ev.take(i as int).push(ev[i as int]));
        i += 1;
    }
    assert(ev.take(i as int) =~= ev);
    lines
}

/// The lines `env show` prints.
pub open spec fn env_detail(name: Seq<char>, url: Seq<char>, is_default: bool) -> Seq<Seq<char>> {
    seq!["  name:     "@ + name, "  base_url: "@ + url] + if is_default {
        seq!["  default:  yes"@]
    } else {
        seq![]
    }
}

/// The lines `env show` prints for one environment (see [`env_detail`]).
pub fn show_table(name: &str, env: &EnvConfig, cfg: &Config) -> (lines: Vec<String>)
    ensures
        strs_view(lines@) == env_detail(name@, env.base_url@, is_default_env(opt_str_view(cfg.default_env), name@)),
{
    let mut lines: Vec<String> = Vec::new();
    let mut a = String::from_str("  name:     ");
    a.append(name);
    lines.push(a);
    let mut b = String::from_str("  base_url: ");
    b.append(env.base_url.as_str());
    lines.push(b);
    if is_default_exec(cfg, name) {
        lines.push(String::from_str("  default:  yes"));
    }
    assert(strs_view(lines@) =~= env_detail(name@, env.base_url@, is_default_env(opt_str_view(cfg.default_env), name@)));
    lines
}

} // verus!
