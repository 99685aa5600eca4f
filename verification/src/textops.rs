//! String building blocks: `str::replace`, `{:<w}` padding, integer
//! `Display`, trimming of given characters, and the case mappings and
//! `Debug` quoting that `std` computes.
use vstd::prelude::*;

use crate::text::{chars_of, push_all, starts_with, string_of};

verus! {

/// `str::replace(p, r)` for a non-empty pattern: every leftmost,
/// non-overlapping occurrence of `p` is replaced by `r`.
pub open spec fn replace_all(s: Seq<char>, p: Seq<char>, r: Seq<char>) -> Seq<char>
    decreases s.len(),
{
    if p.len() == 0 || s.len() == 0 {
        s
    } else if starts_with(s, p) {
        r + replace_all(s.skip(p.len() as int), p, r)
    } else {
        seq![s[0]] + replace_all(s.drop_first(), p, r)
    }
}

/// `n` spaces.
pub open spec fn spaces(n: nat) -> Seq<char> {
    Seq::new(n, |i: int| ' ')
}

/// `format!("{:<w}", s)`: `s` padded on the right with spaces to `w` characters.
pub open spec fn pad_right(s: Seq<char>, w: nat) -> Seq<char> {
    if s.len() < w {
        s + spaces((w - s.len()) as nat)
    } else {
        s
    }
}

/// The decimal digit for `d` in `0..10`.
pub open spec fn digit_char(d: nat) -> char {
    ((48 + d) as u8) as char
}

/// Decimal digits of `n`, most significant first, no leading zeros.
pub open spec fn digits(n: nat) -> Seq<char>
    decreases n,
{
    if n < 10 {
        seq![digit_char(n)]
    } else {
        digits(n / 10).push(digit_char(n % 10))
    }
}

/// The `Display` text of an integer.
pub open spec fn decimal(n: int) -> Seq<char> {
    if n < 0 {
        seq!['-'] + digits((-n) as nat)
    } else {
        digits(n as nat)
    }
}

/// `s.trim_end_matches(c)`.
pub open spec fn trim_end_char(s: Seq<char>, c: char) -> Seq<char>
    decreases s.len(),
{
    if s.len() > 0 && s.last() == c {
        trim_end_char(s.drop_last(), c)
    } else {
        s
    }
}

/// A single or a double quote.
pub open spec fn is_quote(c: char) -> bool {
    c == '\'' || c == '"'
}

/// `s` without its leading quote characters.
pub open spec fn trim_quotes_start(s: Seq<char>) -> Seq<char>
    decreases s.len(),
{
    if s.len() > 0 && is_quote(s[0]) {
        trim_quotes_start(s.drop_first())
    } else {
        s
    }
}

/// `s` without its trailing quote characters.
pub open spec fn trim_quotes_end(s: Seq<char>) -> Seq<char>
    decreases s.len(),
{
    if s.len() > 0 && is_quote(s.last()) {
        trim_quotes_end(s.drop_last())
    } else {
        s
    }
}

/// `s.trim_matches(|c| c == '\'' || c == '"')`.
pub open spec fn trim_quotes(s: Seq<char>) -> Seq<char> {
    trim_quotes_end(trim_quotes_start(s))
}

/// What `str::to_lowercase` returns for `s`.
pub uninterp spec fn lowercase(s: Seq<char>) -> Seq<char>;

/// What `str::to_uppercase` returns for `s`.
pub uninterp spec fn uppercase(s: Seq<char>) -> Seq<char>;

/// What `format!("{:?}", s)` returns for a string `s`.
pub uninterp spec fn debug_quoted(s: Seq<char>) -> Seq<char>;

/// Calls `str::to_lowercase`, which maps each character, so an empty
/// string stays empty.
#[verifier::external_body]
pub(crate) fn to_lower(s: &str) -> (r: String)
    ensures
        r@ == lowercase(s@),
        s@.len() == 0 ==> r@.len() == 0,
{
    s.to_lowercase()
}

/// Calls `str::to_uppercase`.
#[verifier::external_body]
pub(crate) fn to_upper(s: &str) -> (r: String)
    ensures
        r@ == uppercase(s@),
{
    s.to_uppercase()
}

/// Formats `s` with `{:?}` (the quoted, escaped form `std` writes for a `str`).
#[verifier::external_body]
pub(crate) fn debug_of(s: &str) -> (r: String)
    ensures
        r@ == debug_quoted(s@),
{
    format!("{:?}", s)
}

proof fn lemma_replace_skip(s: Seq<char>, p: Seq<char>, r: Seq<char>, i: int)
    requires
        p.len() > 0,
        0 <= i < s.len(),
    ensures
        replace_all(s.skip(i), p, r) == if starts_with(s.skip(i), p) {
            r + replace_all(s.skip(i + p.len()), p, r)
        } else {
            seq![s[i]] + replace_all(s.skip(i + 1), p, r)
        },
{
    if starts_with(s.skip(i), p) {
        assert(s.skip(i).skip(p.len() as int) =~= s.skip(i + p.len()));
    } else {
        assert(s.skip(i).drop_first() =~= s.skip(i + 1));
    }
}

/// `s.replace(p, r)` for a non-empty `p`.
pub fn replace_str(s: &str, p: &str, r: &str) -> (out: String)
    requires
        p@.len() > 0,
    ensures
        out@ == replace_all(s@, p@, r@),
{
    let sv = chars_of(s);
    let pv = chars_of(p);
    let rv = chars_of(r);
    let mut acc: Vec<char> = Vec::new();
    let mut i: usize = 0;
    assert(sv@.skip(0) =~= sv@);
    assert(acc@ + replace_all(sv@, pv@, rv@) =~= replace_all(sv@, pv@, rv@));
    while i < sv.len()
        invariant
            i <= sv.len(),
            sv@ == s@,
            pv@ == p@,
            rv@ == r@,
            p@.len() > 0,
            acc@ + replace_all(sv@.skip(i as int), pv@, rv@) == replace_all(sv@, pv@, rv@),
        decreases sv.len() - i,
    {
        proof {
            lemma_replace_skip(sv@, pv@, rv@, i as int);
        }
        let at = i;
        let mut hit = pv.len() <= sv.len() - i;
        let mut k: usize = 0;
        while hit && k < pv.len()
            invariant
                at == i,
                i < sv.len(),
                k <= pv.len(),
                hit ==> pv.len() <= sv.len() - i,
                hit ==> forall|j: int| 0 <= j < k ==> sv@[i + j] == pv@[j],
                !hit ==> !starts_with(sv@.skip(i as int), pv@),
            decreases pv.len() - k, if hit { 1int } else { 0int },
        {
            if sv[i + k] != pv[k] {
                hit = false;
                assert(sv@.skip(i as int)[k as int] == sv@[i + k]);
            } else {
                k += 1;
            }
        }
        if hit {
            assert(sv@.skip(i as int).take(pv@.len() as int) =~= pv@);
            push_all(&mut acc, &rv);
            i += pv.len();
        } else {
            acc.push(sv[i]);
            i += 1;
        }
        assert(acc@ + replace_all(sv@.skip(i as int), pv@, rv@) == replace_all(sv@, pv@, rv@))
            by {
            assert(sv@.skip(at as int)[0] == sv@[at as int]);
        }
    }
    assert(sv@.skip(i as int).len() == 0);
    assert(acc@ + seq![] =~= acc@);
    string_of(acc.as_slice())
}

/// Pads `s` on the right with spaces to `w` characters (`{:<w}`).
pub fn pad_str(s: &str, w: usize) -> (out: String)
    ensures
        out@ == pad_right(s@, w as nat),
{
    let mut v = chars_of(s);
    let n = v.len();
    if n < w {
        let ghost v0 = v@;
        let mut k: usize = n;
        while k < w
            invariant
                n <= k <= w,
                v@ == v0 + spaces((k - n) as nat),
            decreases w - k,
        {
            v.push(' ');
            k += 1;
            assert(v@ =~= v0 + spaces((k - n) as nat));
        }
    }
    string_of(v.as_slice())
}

/// Appends the decimal digits of `n` to `out`.
pub fn push_digits(out: &mut Vec<char>, n: u128)
    ensures
        final(out)@ == old(out)@ + digits(n as nat),
    decreases n,
{
    if n >= 10 {
        push_digits(out, n / 10);
    }
    let d = (n % 10) as u8;
    let c = (48 + d) as char;
    assert(c == digit_char((n % 10) as nat));
    out.push(c);
    if n >= 10 {
        assert(final(out)@ =~= old(out)@ + digits(n as nat)) by {
            assert(digits(n as nat) == digits((n / 10) as nat).push(digit_char((n % 10) as nat)));
        }
    } else {
        assert(out@ =~= old(out)@ + digits(n as nat));
    }
}

/// The `Display` text of `n`.
pub fn decimal_string(n: i128) -> (s: String)
    requires
        n > i128::MIN,
    ensures
        s@ == decimal(n as int),
{
    let mut v: Vec<char> = Vec::new();
    if n < 0 {
        v.push('-');
        let m: u128 = (-n) as u128;
        push_digits(&mut v, m);
    } else {
        push_digits(&mut v, n as u128);
        assert(v@ =~= digits(n as nat));
    }
    string_of(v.as_slice())
}

/// `s.trim_end_matches(c)`.
pub fn trim_end_char_str(s: &str, c: char) -> (out: String)
    ensures
        out@ == trim_end_char(s@, c),
{
    let v = chars_of(s);
    let mut n = v.len();
    assert(v@.take(n as int) =~= v@);
    while n > 0 && v[n - 1] == c
        invariant
            n <= v.len(),
            trim_end_char(v@.take(n as int), c) == trim_end_char(v@, c),
        decreases n,
    {
        assert(v@.take(n as int).drop_last() =~= v@.take(n - 1));
        n -= 1;
    }
    assert(v@ =~= v@.take(v.len() as int));
    let mut out: Vec<char> = Vec::new();
    let mut k: usize = 0;
    while k < n
        invariant
            k <= n <= v.len(),
            out@ == v@.take(k as int),
        decreases n - k,
    {
        out.push(v[k]);
        k += 1;
        assert(out@ =~= v@.take(k as int));
    }
    string_of(out.as_slice())
}

/// Trims quote characters from both ends of `v` (see [`trim_quotes`]).
pub fn trim_quotes_chars(v: &Vec<char>) -> (out: Vec<char>)
    ensures
        out@ == trim_quotes(v@),
{
    let mut a: usize = 0;
    assert(v@.skip(0) =~= v@);
    while a < v.len() && (v[a] == '\'' || v[a] == '"')
        invariant
            a <= v.len(),
            trim_quotes_start(v@.skip(a as int)) == trim_quotes_start(v@),
        decreases v.len() - a,
    {
        assert(v@.skip(a as int).drop_first() =~= v@.skip(a + 1));
        a += 1;
    }
    assert(v@.skip(0) =~= v@);
    assert(trim_quotes_start(v@.skip(a as int)) == v@.skip(a as int));
    assert(v@.subrange(a as int, v.len() as int) =~= v@.skip(a as int));
    let mut b: usize = v.len();
    while b > a && (v[b - 1] == '\'' || v[b - 1] == '"')
        invariant
            a <= b <= v.len(),
            trim_quotes_end(v@.subrange(a as int, b as int)) == trim_quotes(v@),
        decreases b,
    {
        assert(v@.subrange(a as int, b as int).drop_last() =~= v@.subrange(a as int, b - 1));
        b -= 1;
    }
    assert(trim_quotes_end(v@.subrange(a as int, b as int)) == v@.subrange(a as int, b as int));
    let mut out: Vec<char> = Vec::new();
    let mut k: usize = a;
    while k < b
        invariant
            a <= k <= b <= v.len(),
            out@ == v@.subrange(a as int, k as int),
        decreases b - k,
    {
        out.push(v[k]);
        k += 1;
        assert(out@ =~= v@.subrange(a as int, k as int));
    }
    out
}

} // verus!
