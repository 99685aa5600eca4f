//! Optional YAML frontmatter at the top of a `.feature` file.
//!
//! ```yaml
//! ---
//! api:
//!   path: /api/orders
//!   method: POST
//!   collection: orders         # optional
//! implements:                  # optional
//!   - src/handlers/order.rs::create_order
//! ---
//! ```
//!
//! [`split`] finds the block and hands back its YAML text and the
//! Gherkin body; the YAML itself is read into [`Frontmatter`] by the
//! caller.
use vstd::prelude::*;

use crate::error::Error;
use crate::text::{chars_of, slice_chars, string_of};

verus! {

/// The frontmatter block.
#[derive(Debug)]
pub struct Frontmatter {
    pub api: Option<ApiFrontmatter>,
    pub implements: Option<Vec<String>>,
}

/// The `api:` entry of the frontmatter.
#[derive(Debug)]
pub struct ApiFrontmatter {
    pub path: String,
    pub method: String,
    pub collection: Option<String>,
}


/// `s` without a leading byte-order mark.
pub open spec fn strip_bom(s: Seq<char>) -> Seq<char> {
    if s.len() > 0 && s[0] == '\u{FEFF}' {
        s.drop_first()
    } else {
        s
    }
}

/// `s.trim_end_matches(['\r', '\n'])`.
pub open spec fn trim_crlf(s: Seq<char>) -> Seq<char>
    decreases s.len(),
{
    if s.len() > 0 && (s.last() == '\r' || s.last() == '\n') {
        trim_crlf(s.drop_last())
    } else {
        s
    }
}

/// Index of the first `'\n'` at or after `k`, or `s.len()`.
pub open spec fn find_newline(s: Seq<char>, k: int) -> int
    decreases s.len() - k,
{
    if k < 0 || k >= s.len() {
        s.len() as int
    } else if s[k] == '\n' {
        k
    } else {
        find_newline(s, k + 1)
    }
}

/// The end of the line that starts at `p`, its `'\n'` included
/// (`split_inclusive('\n')`).
pub open spec fn line_end(s: Seq<char>, p: int) -> int {
    let j = find_newline(s, p);
    if j < s.len() {
        j + 1
    } else {
        s.len() as int
    }
}

/// Whether the line `s[a..b]` is a `---` fence.
pub open spec fn is_fence(s: Seq<char>, a: int, b: int) -> bool {
    trim_crlf(s.subrange(a, b)) == "---"@
}

/// The first fence line starting at or after line start `p`: its bounds.
pub open spec fn closing_fence(s: Seq<char>, p: int) -> Option<(int, int)>
    decreases s.len() - p,
{
    if p < 0 || p >= s.len() {
        None
    } else {
        let e = line_end(s, p);
        if e <= p || e > s.len() {
            None
        } else if is_fence(s, p, e) {
            Some((p, e))
        } else {
            closing_fence(s, e)
        }
    }
}

/// The message for a block that is opened but never closed.
pub open spec fn unclosed_message() -> Seq<char> {
    "frontmatter: opening `---` found but no closing `---`"@
}

/// How a file splits: without a leading `---` line (after a possible
/// byte-order mark), no block and the text passed through unchanged;
/// with one, the text between it and the next `---` line and what
/// follows (the mark dropped); an error when there is no closing line.
pub open spec fn frontmatter_split(content: Seq<char>) -> Result<(Option<Seq<char>>, Seq<char>), Seq<char>> {
    let c = strip_bom(content);
    if c.len() == 0 {
        Ok((None, content))
    } else {
        let e0 = line_end(c, 0);
        if !(0 < e0 <= c.len()) || !is_fence(c, 0, e0) {
            Ok((None, content))
        } else {
            match closing_fence(c, e0) {
                Some((a, b)) => if e0 <= a <= b <= c.len() {
                    Ok((Some(c.subrange(e0, a)), c.skip(b)))
                } else {
                    Ok((None, content))
                },
                None => Err(unclosed_message()),
            }
        }
    }
}

proof fn lemma_find_newline_bounds(s: Seq<char>, k: int)
    requires
        0 <= k <= s.len(),
    ensures
        k <= find_newline(s, k) <= s.len(),
    decreases s.len() - k,
{
    if k < s.len() && s[k] != '\n' {
        lemma_find_newline_bounds(s, k + 1);
    }
}

fn trim_crlf_is_fence(v: &Vec<char>, a: usize, b: usize) -> (r: bool)
    requires
        a <= b <= v.len(),
    ensures
        r == is_fence(v@, a as int, b as int),
{
    let mut e = b;
    assert(v@.subrange(a as int, e as int) =~= v@.subrange(a as int, b as int));
    while e > a && (v[e - 1] == '\r' || v[e - 1] == '\n')
        invariant
            a <= e <= b <= v.len(),
            trim_crlf(v@.subrange(a as int, e as int)) == trim_crlf(v@.subrange(a as int, b as int)),
        decreases e,
    {
        assert(v@.subrange(a as int, e as int).drop_last() =~= v@.subrange(a as int, e - 1));
        e -= 1;
    }
    let fence = chars_of("---");
    proof {
        reveal_strlit("---");
    }
    let core = slice_chars(v, a, e);
    crate::text::chars_eq(&core, &fence)
}

fn line_end_exec(v: &Vec<char>, p: usize) -> (e: usize)
    requires
        p <= v.len(),
    ensures
        e == line_end(v@, p as int),
        p <= e <= v.len(),
        p < v.len() ==> p < e,
{
    let mut j = p;
    while j < v.len() && v[j] != '\n'
        invariant
            p <= j <= v.len(),
            find_newline(v@, j as int) == find_newline(v@, p as int),
        decreases v.len() - j,
    {
        j += 1;
    }
    if j < v.len() {
        j + 1
    } else {
        v.len()
    }
}

/// Splits a `.feature` file into its frontmatter block's YAML text,
/// if it has one, and the Gherkin that follows (see
/// [`frontmatter_split`]).
pub fn split_block(content: &str) -> (r: Result<(Option<String>, String), Error>)
    ensures
        match r {
            Ok((y, b)) => frontmatter_split(content@) == Ok::<(Option<Seq<char>>, Seq<char>), Seq<char>>((crate::runner::opt_str_view(y), b@)),
            Err(e) => frontmatter_split(content@) == Err::<(Option<Seq<char>>, Seq<char>), Seq<char>>(unclosed_message())
                && (e matches Error::Spec(m) && m@ == unclosed_message()),
        },
{
    let all = chars_of(content);
    let c = if all.len() > 0 && all[0] == '\u{FEFF}' {
        let t = slice_chars(&all, 1, all.len());
        assert(t@ =~= all@.drop_first());
        t
    } else {
        all
    };
    assert(c@ == strip_bom(content@));
    if c.len() == 0 {
        return Ok((None, String::from_str(content)));
    }
    let e0 = line_end_exec(&c, 0);
    if !trim_crlf_is_fence(&c, 0, e0) {
        return Ok((None, String::from_str(content)));
    }
    let mut p = e0;
    while p < c.len() && !trim_crlf_is_fence(&c, p, line_end_exec(&c, p))
        invariant
            e0 <= p <= c.len(),
            closing_fence(c@, p as int) == closing_fence(c@, e0 as int),
        decreases c.len() - p,
    {
        let e = line_end_exec(&c, p);
        p = e;
    }
    if p >= c.len() {
        return Err(Error::Spec(String::from_str("frontmatter: opening `---` found but no closing `---`")));
    }
    let e = line_end_exec(&c, p);
    let yaml = slice_chars(&c, e0, p);
    let body = slice_chars(&c, e, c.len());
    assert(body@ =~= c@.skip(e as int));
    Ok((Some(string_of(yaml.as_slice())), string_of(body.as_slice())))
}

} // verus!
