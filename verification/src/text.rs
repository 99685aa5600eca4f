//! Character-level text utilities shared by the parsers.
//!
//! Every function works on `Seq<char>` in its contract, the view of a
//! `String` / `&str`, so the behaviour of `str::lines`, `str::trim`,
//! `str::starts_with`, `str::contains` and friends is stated exactly.
use vstd::prelude::*;

verus! {

/// Unicode `White_Space`, the set that `char::is_whitespace` accepts.
pub open spec fn is_space(c: char) -> bool {
    let u = c as u32;
    ||| u == 0x20
    ||| (0x09 <= u && u <= 0x0d)
    ||| u == 0x85
    ||| u == 0xa0
    ||| u == 0x1680
    ||| (0x2000 <= u && u <= 0x200a)
    ||| u == 0x2028
    ||| u == 0x2029
    ||| u == 0x202f
    ||| u == 0x205f
    ||| u == 0x3000
}

/// True when every character of `s` is whitespace (`s.trim().is_empty()`).
pub open spec fn is_blank(s: Seq<char>) -> bool {
    forall|i: int| 0 <= i < s.len() ==> #[trigger] is_space(s[i])
}

/// Number of leading whitespace characters.
pub open spec fn lead_ws(s: Seq<char>) -> nat
    decreases s.len(),
{
    if s.len() > 0 && is_space(s[0]) {
        1 + lead_ws(s.drop_first())
    } else {
        0
    }
}

/// `str::trim_start`.
pub open spec fn trim_start(s: Seq<char>) -> Seq<char> {
    s.skip(lead_ws(s) as int)
}

/// `str::trim_end`.
pub open spec fn trim_end(s: Seq<char>) -> Seq<char>
    decreases s.len(),
{
    if s.len() > 0 && is_space(s.last()) {
        trim_end(s.drop_last())
    } else {
        s
    }
}

/// `str::trim`.
pub open spec fn trim(s: Seq<char>) -> Seq<char> {
    trim_end(trim_start(s))
}

/// `str::starts_with` for a string pattern.
pub open spec fn starts_with(s: Seq<char>, p: Seq<char>) -> bool {
    p.len() <= s.len() && s.take(p.len() as int) == p
}

/// `p` occurs in `s` starting at index `i`.
pub open spec fn occurs_at(s: Seq<char>, p: Seq<char>, i: int) -> bool {
    0 <= i && i + p.len() <= s.len() && s.subrange(i, i + p.len()) == p
}

/// `str::contains` for a string pattern.
pub open spec fn contains(s: Seq<char>, p: Seq<char>) -> bool {
    exists|i: int| #[trigger] occurs_at(s, p, i)
}

/// Removes one trailing `'\r'`, as `str::lines` does after a `'\n'`.
pub open spec fn strip_cr(l: Seq<char>) -> Seq<char> {
    if l.len() > 0 && l.last() == '\r' {
        l.drop_last()
    } else {
        l
    }
}

/// Left fold behind [`lines`]: the finished lines and the line under way.
pub open spec fn lines_acc(s: Seq<char>) -> (Seq<Seq<char>>, Seq<char>)
    decreases s.len(),
{
    if s.len() == 0 {
        (seq![], seq![])
    } else {
        let (done, cur) = lines_acc(s.drop_last());
        if s.last() == '\n' {
            (done.push(strip_cr(cur)), seq![])
        } else {
            (done, cur.push(s.last()))
        }
    }
}

/// `str::lines`: split at `"\n"` or `"\r\n"`; a final line ending is optional.
pub open spec fn lines(s: Seq<char>) -> Seq<Seq<char>> {
    let (done, cur) = lines_acc(s);
    if cur.len() > 0 {
        done.push(cur)
    } else {
        done
    }
}

/// `parts.join("\n")`.
pub open spec fn join_lines(parts: Seq<Seq<char>>) -> Seq<char>
    decreases parts.len(),
{
    if parts.len() == 0 {
        seq![]
    } else if parts.len() == 1 {
        parts[0]
    } else {
        join_lines(parts.drop_last()) + seq!['\n'] + parts.last()
    }
}

/// Exec form of [`is_space`].
pub fn char_is_space(c: char) -> (b: bool)
    ensures
        b == is_space(c),
{
    let u = c as u32;
    u == 0x20 || (0x09 <= u && u <= 0x0d) || u == 0x85 || u == 0xa0 || u == 0x1680 || (0x2000
        <= u && u <= 0x200a) || u == 0x2028 || u == 0x2029 || u == 0x202f || u == 0x205f || u
        == 0x3000
}

/// The characters of `s`, in order.
pub fn chars_of(s: &str) -> (v: Vec<char>)
    ensures
        v@ == s@,
{
    let mut v: Vec<char> = Vec::new();
    for c in it: s.chars()
        invariant
            v@ == it.seq().take(it.index() as int),
    {
        v.push(c);
    }
    v
}

/// Builds a `String` from its characters.
#[verifier::external_body]
pub(crate) fn string_of(v: &[char]) -> (s: String)
    ensures
        s@ == v@,
{
    v.iter().collect()
}

/// Copy of `v[from..to]`.
pub fn slice_chars(v: &Vec<char>, from: usize, to: usize) -> (r: Vec<char>)
    requires
        from <= to <= v.len(),
    ensures
        r@ == v@.subrange(from as int, to as int),
{
    let mut r: Vec<char> = Vec::new();
    let mut i = from;
    while i < to
        invariant
            from <= i <= to <= v.len(),
            r@ == v@.subrange(from as int, i as int),
        decreases to - i,
    {
        r.push(v[i]);
        i += 1;
    }
    r
}

/// Appends all of `b` to `a`.
pub fn push_all(a: &mut Vec<char>, b: &Vec<char>)
    ensures
        final(a)@ == old(a)@ + b@,
{
    let mut i: usize = 0;
    let ghost a0 = a@;
    while i < b.len()
        invariant
            i <= b.len(),
            a@ == a0 + b@.take(i as int),
        decreases b.len() - i,
    {
        a.push(b[i]);
        i += 1;
        assert(b@.take(i as int) == b@.take(i - 1).push(b@[i - 1]));
    }
    assert(b@.take(b.len() as int) == b@);
}

proof fn lemma_lead_ws_skip(s: Seq<char>, i: int)
    requires
        0 <= i <= s.len(),
        forall|j: int| 0 <= j < i ==> is_space(#[trigger] s[j]),
    ensures
        lead_ws(s) == i + lead_ws(s.skip(i)),
    decreases i,
{
    if i > 0 {
        assert(is_space(s[0]));
        assert forall|j: int| 0 <= j < i - 1 implies is_space(#[trigger] s.drop_first()[j]) by {
            assert(s.drop_first()[j] == s[j + 1]);
        }
        lemma_lead_ws_skip(s.drop_first(), i - 1);
        assert(s.drop_first().skip(i - 1) =~= s.skip(i));
    } else {
        assert(s.skip(0) =~= s);
    }
}

proof fn lemma_lead_ws_bound(s: Seq<char>)
    ensures
        lead_ws(s) <= s.len(),
        forall|j: int| 0 <= j < lead_ws(s) ==> is_space(#[trigger] s[j]),
        lead_ws(s) < s.len() ==> !is_space(s[lead_ws(s) as int]),
    decreases s.len(),
{
    if s.len() > 0 && is_space(s[0]) {
        lemma_lead_ws_bound(s.drop_first());
        assert forall|j: int| 0 <= j < lead_ws(s) implies is_space(#[trigger] s[j]) by {
            if j > 0 {
                assert(s[j] == s.drop_first()[j - 1]);
            }
        }
        if lead_ws(s) < s.len() {
            assert(s[lead_ws(s) as int] == s.drop_first()[lead_ws(s.drop_first()) as int]);
        }
    }
}

/// Index of the first non-whitespace character (the length when none).
pub fn lead_ws_len(v: &Vec<char>) -> (n: usize)
    ensures
        n == lead_ws(v@),
        n <= v.len(),
{
    let mut i: usize = 0;
    while i < v.len() && char_is_space(v[i])
        invariant
            i <= v.len(),
            forall|j: int| 0 <= j < i ==> is_space(#[trigger] v@[j]),
        decreases v.len() - i,
    {
        i += 1;
    }
    proof {
        lemma_lead_ws_skip(v@, i as int);
        if i < v.len() {
            assert(v@.skip(i as int)[0] == v@[i as int]);
        }
    }
    i
}

/// Length of `v` once trailing whitespace is dropped.
pub fn trim_end_len(v: &Vec<char>) -> (n: usize)
    ensures
        v@.take(n as int) == trim_end(v@),
        n <= v.len(),
{
    let mut j = v.len();
    assert(v@.take(j as int) =~= v@);
    while j > 0 && char_is_space(v[j - 1])
        invariant
            j <= v.len(),
            trim_end(v@) == trim_end(v@.take(j as int)),
        decreases j,
    {
        assert(v@.take(j as int).drop_last() =~= v@.take(j - 1));
        j -= 1;
    }
    j
}

/// `trim_start` on characters.
pub fn trim_start_chars(v: &Vec<char>) -> (r: Vec<char>)
    ensures
        r@ == trim_start(v@),
{
    let n = lead_ws_len(v);
    slice_chars(v, n, v.len())
}

/// `trim` on characters.
pub fn trim_chars(v: &Vec<char>) -> (r: Vec<char>)
    ensures
        r@ == trim(v@),
{
    let t = trim_start_chars(v);
    let n = trim_end_len(&t);
    slice_chars(&t, 0, n)
}

/// Whether `v` holds only whitespace.
pub fn blank_chars(v: &Vec<char>) -> (b: bool)
    ensures
        b == is_blank(v@),
{
    let n = lead_ws_len(v);
    proof {
        lemma_lead_ws_bound(v@);
    }
    n == v.len()
}

/// `str::starts_with` on characters.
pub fn starts_with_chars(v: &Vec<char>, p: &Vec<char>) -> (b: bool)
    ensures
        b == starts_with(v@, p@),
{
    if p.len() > v.len() {
        return false;
    }
    let mut i: usize = 0;
    while i < p.len()
        invariant
            p.len() <= v.len(),
            i <= p.len(),
            v@.take(i as int) == p@.take(i as int),
        decreases p.len() - i,
    {
        if v[i] != p[i] {
            assert(v@.take(p.len() as int)[i as int] != p@[i as int]);
            return false;
        }
        i += 1;
        assert(v@.take(i as int) =~= p@.take(i as int));
    }
    assert(p@.take(p.len() as int) =~= p@);
    true
}

/// Whether `p` occurs in `v` at index `i`.
pub fn occurs_at_chars(v: &Vec<char>, p: &Vec<char>, i: usize) -> (b: bool)
    ensures
        b == occurs_at(v@, p@, i as int),
{
    if p.len() > v.len() || i > v.len() - p.len() {
        return false;
    }
    let mut k: usize = 0;
    while k < p.len()
        invariant
            i + p.len() <= v.len(),
            k <= p.len(),
            forall|j: int| 0 <= j < k ==> v@[i + j] == p@[j],
        decreases p.len() - k,
    {
        if v[i + k] != p[k] {
            assert(v@.subrange(i as int, i + p.len())[k as int] != p@[k as int]);
            return false;
        }
        k += 1;
    }
    assert(v@.subrange(i as int, i + p.len()) =~= p@);
    true
}

/// `str::contains` on characters.
pub fn contains_chars(v: &Vec<char>, p: &Vec<char>) -> (b: bool)
    ensures
        b == contains(v@, p@),
{
    if p.len() > v.len() {
        assert(forall|i: int| !#[trigger] occurs_at(v@, p@, i));
        return false;
    }
    let last = v.len() - p.len();
    let mut i: usize = 0;
    while i < last
        invariant
            p.len() <= v.len(),
            last == v.len() - p.len(),
            i <= last,
            forall|j: int| 0 <= j < i ==> !#[trigger] occurs_at(v@, p@, j),
        decreases last - i,
    {
        if occurs_at_chars(v, p, i) {
            return true;
        }
        i += 1;
    }
    if occurs_at_chars(v, p, last) {
        return true;
    }
    assert(forall|j: int| !#[trigger] occurs_at(v@, p@, j));
    false
}

/// `s.contains(p)` on strings.
pub fn str_contains(s: &str, p: &str) -> (b: bool)
    ensures
        b == contains(s@, p@),
{
    let v = chars_of(s);
    let q = chars_of(p);
    contains_chars(&v, &q)
}

/// `s.starts_with(p)` on strings.
pub fn str_starts_with(s: &str, p: &str) -> (b: bool)
    ensures
        b == starts_with(s@, p@),
{
    let v = chars_of(s);
    let q = chars_of(p);
    starts_with_chars(&v, &q)
}

proof fn lemma_lines_acc_len(s: Seq<char>)
    ensures
        lines_acc(s).1.len() <= s.len(),
    decreases s.len(),
{
    if s.len() > 0 {
        lemma_lines_acc_len(s.drop_last());
    }
}

/// `str::lines`, each line as characters.
pub fn lines_of(v: &Vec<char>) -> (r: Vec<Vec<char>>)
    ensures
        r@.len() == lines(v@).len(),
        forall|i: int| 0 <= i < r@.len() ==> #[trigger] r@[i]@ == lines(v@)[i],
{
    let mut done: Vec<Vec<char>> = Vec::new();
    let mut cur: Vec<char> = Vec::new();
    let mut i: usize = 0;
    while i < v.len()
        invariant
            i <= v.len(),
            done@.len() == lines_acc(v@.take(i as int)).0.len(),
            forall|k: int|
                0 <= k < done@.len() ==> #[trigger] done@[k]@ == lines_acc(v@.take(i as int)).0[k],
            cur@ == lines_acc(v@.take(i as int)).1,
        decreases v.len() - i,
    {
        let c = v[i];
        assert(v@.take(i + 1).drop_last() =~= v@.take(i as int));
        if c == '\n' {
            let n = cur.len();
            if n > 0 && cur[n - 1] == '\r' {
                cur.pop();
            }
            done.push(cur);
            cur = Vec::new();
        } else {
            cur.push(c);
        }
        i += 1;
    }
    assert(v@.take(v.len() as int) =~= v@);
    if cur.len() > 0 {
        done.push(cur);
    }
    done
}

/// `parts.join("\n")` on characters.
pub fn join_lines_of(parts: &Vec<Vec<char>>) -> (r: Vec<char>)
    ensures
        r@ == join_lines(parts@.map_values(|p: Vec<char>| p@)),
{
    let ghost ps = parts@.map_values(|p: Vec<char>| p@);
    let mut r: Vec<char> = Vec::new();
    let mut i: usize = 0;
    while i < parts.len()
        invariant
            i <= parts.len(),
            ps == parts@.map_values(|p: Vec<char>| p@),
            r@ == join_lines(ps.take(i as int)),
        decreases parts.len() - i,
    {
        assert(ps.take(i + 1).drop_last() =~= ps.take(i as int));
        if i > 0 {
            r.push('\n');
        }
        push_all(&mut r, &parts[i]);
        i += 1;
        assert(ps.take(i as int).last() == parts@[i - 1]@);
        if i == 1 {
            assert(join_lines(ps.take(1)) == ps.take(1)[0]);
        }
    }
    assert(ps.take(parts.len() as int) =~= ps);
    r
}

/// Left fold behind [`split_on`].
pub open spec fn split_acc(s: Seq<char>, sep: char) -> (Seq<Seq<char>>, Seq<char>)
    decreases s.len(),
{
    if s.len() == 0 {
        (seq![], seq![])
    } else {
        let (done, cur) = split_acc(s.drop_last(), sep);
        if s.last() == sep {
            (done.push(cur), seq![])
        } else {
            (done, cur.push(s.last()))
        }
    }
}

/// `str::split(sep)` for a single character.
pub open spec fn split_on(s: Seq<char>, sep: char) -> Seq<Seq<char>> {
    let (done, cur) = split_acc(s, sep);
    done.push(cur)
}

/// Left fold behind [`words`].
pub open spec fn words_acc(s: Seq<char>) -> (Seq<Seq<char>>, Seq<char>)
    decreases s.len(),
{
    if s.len() == 0 {
        (seq![], seq![])
    } else {
        let (done, cur) = words_acc(s.drop_last());
        if is_space(s.last()) {
            if cur.len() > 0 {
                (done.push(cur), seq![])
            } else {
                (done, cur)
            }
        } else {
            (done, cur.push(s.last()))
        }
    }
}

/// `str::split_whitespace`.
pub open spec fn words(s: Seq<char>) -> Seq<Seq<char>> {
    let (done, cur) = words_acc(s);
    if cur.len() > 0 {
        done.push(cur)
    } else {
        done
    }
}

/// Keeps the first occurrence of each element, in order.
pub open spec fn dedup_first(s: Seq<Seq<char>>) -> Seq<Seq<char>>
    decreases s.len(),
{
    if s.len() == 0 {
        seq![]
    } else {
        let d = dedup_first(s.drop_last());
        if d.contains(s.last()) {
            d
        } else {
            d.push(s.last())
        }
    }
}

/// The characters of each string.
pub open spec fn strs_view(v: Seq<String>) -> Seq<Seq<char>> {
    v.map_values(|x: String| x@)
}

/// `str::split(sep)` on characters.
pub fn split_chars(v: &Vec<char>, sep: char) -> (r: Vec<Vec<char>>)
    ensures
        r@.len() == split_on(v@, sep).len(),
        forall|i: int| 0 <= i < r@.len() ==> #[trigger] r@[i]@ == split_on(v@, sep)[i],
{
    let mut done: Vec<Vec<char>> = Vec::new();
    let mut cur: Vec<char> = Vec::new();
    let mut i: usize = 0;
    while i < v.len()
        invariant
            i <= v.len(),
            done@.len() == split_acc(v@.take(i as int), sep).0.len(),
            forall|k: int|
                0 <= k < done@.len() ==> #[trigger] done@[k]@ == split_acc(
                    v@.take(i as int),
                    sep,
                ).0[k],
            cur@ == split_acc(v@.take(i as int), sep).1,
        decreases v.len() - i,
    {
        assert(v@.take(i + 1).drop_last() =~= v@.take(i as int));
        if v[i] == sep {
            done.push(cur);
            cur = Vec::new();
        } else {
            cur.push(v[i]);
        }
        i += 1;
    }
    assert(v@.take(v.len() as int) =~= v@);
    done.push(cur);
    done
}

/// `str::split_whitespace` on characters.
pub fn words_of(v: &Vec<char>) -> (r: Vec<Vec<char>>)
    ensures
        r@.len() == words(v@).len(),
        forall|i: int| 0 <= i < r@.len() ==> #[trigger] r@[i]@ == words(v@)[i],
{
    let mut done: Vec<Vec<char>> = Vec::new();
    let mut cur: Vec<char> = Vec::new();
    let mut i: usize = 0;
    while i < v.len()
        invariant
            i <= v.len(),
            done@.len() == words_acc(v@.take(i as int)).0.len(),
            forall|k: int|
                0 <= k < done@.len() ==> #[trigger] done@[k]@ == words_acc(v@.take(i as int)).0[k],
            cur@ == words_acc(v@.take(i as int)).1,
        decreases v.len() - i,
    {
        assert(v@.take(i + 1).drop_last() =~= v@.take(i as int));
        if char_is_space(v[i]) {
            if cur.len() > 0 {
                done.push(cur);
                cur = Vec::new();
            }
        } else {
            cur.push(v[i]);
        }
        i += 1;
    }
    assert(v@.take(v.len() as int) =~= v@);
    if cur.len() > 0 {
        done.push(cur);
    }
    done
}

/// Equality of two character vectors.
pub fn chars_eq(a: &Vec<char>, b: &Vec<char>) -> (r: bool)
    ensures
        r == (a@ == b@),
{
    if a.len() != b.len() {
        return false;
    }
    let mut i: usize = 0;
    while i < a.len()
        invariant
            i <= a.len() == b.len(),
            forall|k: int| 0 <= k < i ==> a@[k] == b@[k],
        decreases a.len() - i,
    {
        if a[i] != b[i] {
            return false;
        }
        i += 1;
    }
    assert(a@ =~= b@);
    true
}

/// Whether `v` holds `x`.
pub fn contains_str(v: &Vec<String>, x: &String) -> (r: bool)
    ensures
        r == strs_view(v@).contains(x@),
{
    let mut i: usize = 0;
    while i < v.len()
        invariant
            i <= v.len(),
            forall|k: int| 0 <= k < i ==> v@[k]@ != x@,
        decreases v.len() - i,
    {
        if v[i] == *x {
            assert(strs_view(v@)[i as int] == x@);
            return true;
        }
        i += 1;
    }
    assert forall|k: int| 0 <= k < strs_view(v@).len() implies strs_view(v@)[k] != x@ by {
        assert(strs_view(v@)[k] == v@[k]@);
    }
    false
}

/// Appends `x` unless it is already present.
pub fn push_unique(v: &mut Vec<String>, x: String)
    ensures
        final(v)@.len() <= old(v)@.len() + 1,
        strs_view(final(v)@) == if strs_view(old(v)@).contains(x@) {
            strs_view(old(v)@)
        } else {
            strs_view(old(v)@).push(x@)
        },
{
    if !contains_str(v, &x) {
        let ghost x_view = x@;
        v.push(x);
        assert(strs_view(v@) =~= strs_view(old(v)@).push(x_view));
    }
}

/// [`dedup_first`] of `a` followed by `b`.
pub fn dedup_concat(a: &Vec<String>, b: &Vec<String>) -> (r: Vec<String>)
    ensures
        strs_view(r@) == dedup_first(strs_view(a@) + strs_view(b@)),
{
    let ghost all = strs_view(a@) + strs_view(b@);
    let mut r: Vec<String> = Vec::new();
    let mut i: usize = 0;
    while i < a.len()
        invariant
            i <= a.len(),
            all == strs_view(a@) + strs_view(b@),
            all.len() == a.len() + b.len(),
            strs_view(r@) == dedup_first(all.take(i as int)),
        decreases a.len() - i,
    {
        let x = a[i].clone();
        assert(all[i as int] == x@);
        assert(all.take(i + 1).drop_last() =~= all.take(i as int));
        push_unique(&mut r, x);
        i += 1;
    }
    let mut k: usize = 0;
    while k < b.len()
        invariant
            k <= b.len(),
            all == strs_view(a@) + strs_view(b@),
            all.len() == a.len() + b.len(),
            strs_view(r@) == dedup_first(all.take(a.len() + k)),
        decreases b.len() - k,
    {
        let x = b[k].clone();
        assert(all[a.len() + k] == x@);
        assert(all.take(a.len() + k + 1).drop_last() =~= all.take(a.len() + k));
        push_unique(&mut r, x);
        k += 1;
    }
    assert(all.take(a.len() + b.len()) =~= all);
    r
}

/// Whether `c` is an ASCII decimal digit.
pub open spec fn is_digit(c: char) -> bool {
    '0' <= c && c <= '9'
}

/// A non-empty run of decimal digits.
pub open spec fn is_digits(d: Seq<char>) -> bool {
    d.len() > 0 && forall|i: int| 0 <= i < d.len() ==> #[trigger] is_digit(d[i])
}

/// The value of a run of decimal digits.
pub open spec fn digits_val(d: Seq<char>) -> int
    decreases d.len(),
{
    if d.len() == 0 {
        0
    } else {
        digits_val(d.drop_last()) * 10 + (d.last() as int - '0' as int)
    }
}

/// The integer `str::parse::<i64>` would read, ignoring range: an
/// optional `+` or `-` followed by decimal digits.
pub open spec fn parse_int(t: Seq<char>) -> Option<int> {
    if t.len() > 0 && t[0] == '-' && is_digits(t.drop_first()) {
        Some(-digits_val(t.drop_first()))
    } else if t.len() > 0 && t[0] == '+' && is_digits(t.drop_first()) {
        Some(digits_val(t.drop_first()))
    } else if is_digits(t) {
        Some(digits_val(t))
    } else {
        None
    }
}

/// `str::parse::<i16>`.
pub open spec fn parse_i16(t: Seq<char>) -> Option<i16> {
    match parse_int(t) {
        Some(v) => if i16::MIN <= v && v <= i16::MAX {
            Some(v as i16)
        } else {
            None
        },
        None => None,
    }
}

proof fn lemma_digits_val_nonneg(d: Seq<char>)
    requires
        forall|i: int| 0 <= i < d.len() ==> #[trigger] is_digit(d[i]),
    ensures
        digits_val(d) >= 0,
    decreases d.len(),
{
    if d.len() > 0 {
        assert forall|i: int| 0 <= i < d.drop_last().len() implies #[trigger] is_digit(
            d.drop_last()[i],
        ) by {
            assert(d.drop_last()[i] == d[i]);
        }
        lemma_digits_val_nonneg(d.drop_last());
        assert(is_digit(d[d.len() - 1]));
    }
}

proof fn lemma_digits_val_mono(d: Seq<char>, k: int)
    requires
        0 <= k <= d.len(),
        forall|i: int| 0 <= i < d.len() ==> #[trigger] is_digit(d[i]),
    ensures
        digits_val(d.take(k)) <= digits_val(d),
    decreases d.len() - k,
{
    if k < d.len() {
        assert(d.take(d.len() - 1) =~= d.drop_last());
        assert forall|i: int| 0 <= i < d.drop_last().len() implies #[trigger] is_digit(
            d.drop_last()[i],
        ) by {
            assert(d.drop_last()[i] == d[i]);
        }
        assert(d.drop_last().take(k) =~= d.take(k));
        lemma_digits_val_mono(d.drop_last(), k);
        lemma_digits_val_nonneg(d.drop_last());
        assert(is_digit(d[d.len() - 1]));
    } else {
        assert(d.take(k) =~= d);
    }
}

/// Value of the digits `v[from..]`, or `None` when they are not all
/// digits, are empty, or exceed 99999.
pub fn small_digits_value(v: &Vec<char>, from: usize) -> (r: Option<u32>)
    requires
        from <= v.len(),
    ensures
        match r {
            Some(n) => is_digits(v@.skip(from as int)) && n == digits_val(v@.skip(from as int))
                && n <= 99999,
            None => !is_digits(v@.skip(from as int)) || digits_val(v@.skip(from as int)) > 99999,
        },
{
    let ghost d = v@.skip(from as int);
    if from == v.len() {
        return None;
    }
    let mut i = from;
    let mut acc: u32 = 0;
    while i < v.len()
        invariant
            from <= i <= v.len(),
            d == v@.skip(from as int),
            forall|k: int| 0 <= k < i - from ==> #[trigger] is_digit(d[k]),
            acc as int == if digits_val(d.take(i - from)) > 100000 {
                100000
            } else {
                digits_val(d.take(i - from))
            },
        decreases v.len() - i,
    {
        let c = v[i];
        if !('0' <= c && c <= '9') {
            assert(!is_digit(d[i - from]));
            return None;
        }
        proof {
            assert(d.take(i - from + 1).drop_last() =~= d.take(i - from));
            assert(d[i - from] == c);
            assert forall|k: int| 0 <= k < d.take(i - from).len() implies #[trigger] is_digit(
                d.take(i - from)[k],
            ) by {
                assert(d.take(i - from)[k] == d[k]);
            }
            lemma_digits_val_nonneg(d.take(i - from));
        }
        let dv = (c as u32) - ('0' as u32);
        if acc >= 10000 {
            acc = 100000;
        } else {
            acc = acc * 10 + dv;
        }
        i += 1;
    }
    assert(d.take(i - from) =~= d);
    if acc > 99999 {
        None
    } else {
        Some(acc)
    }
}

/// `str::parse::<i16>` on characters.
pub fn parse_i16_chars(v: &Vec<char>) -> (r: Option<i16>)
    ensures
        r == parse_i16(v@),
{
    if v.len() > 0 && (v[0] == '-' || v[0] == '+') {
        let neg = v[0] == '-';
        let m = small_digits_value(v, 1);
        assert(v@.skip(1) =~= v@.drop_first());
        assert(!is_digit(v@[0]));
        match m {
            Some(n) => {
                if neg {
                    if n <= 32768 {
                        Some((0 - (n as i32)) as i16)
                    } else {
                        None
                    }
                } else {
                    if n <= 32767 {
                        Some(n as i16)
                    } else {
                        None
                    }
                }
            },
            None => None,
        }
    } else {
        let m = small_digits_value(v, 0);
        assert(v@.skip(0) =~= v@);
        proof {
            if v.len() > 0 {
                assert(!is_digit(v@[0]) ==> !is_digits(v@));
            }
        }
        match m {
            Some(n) => {
                if n <= 32767 {
                    Some(n as i16)
                } else {
                    None
                }
            },
            None => None,
        }
    }
}

/// Lexicographic order on characters (the order of `str`).
pub open spec fn lex_lt(a: Seq<char>, b: Seq<char>) -> bool
    decreases a.len(),
{
    if a.len() == 0 {
        b.len() > 0
    } else if b.len() == 0 {
        false
    } else if a[0] < b[0] {
        true
    } else if a[0] != b[0] {
        false
    } else {
        lex_lt(a.drop_first(), b.drop_first())
    }
}

/// Inserts `x` into a sorted list of distinct strings, unless present.
pub open spec fn insert_sorted(v: Seq<Seq<char>>, x: Seq<char>) -> Seq<Seq<char>>
    decreases v.len(),
{
    if v.len() == 0 {
        seq![x]
    } else if v[0] == x {
        v
    } else if lex_lt(x, v[0]) {
        seq![x] + v
    } else {
        seq![v[0]] + insert_sorted(v.drop_first(), x)
    }
}

/// `s` sorted and deduplicated (`sort_unstable` + `dedup`).
pub open spec fn sort_unique(s: Seq<Seq<char>>) -> Seq<Seq<char>>
    decreases s.len(),
{
    if s.len() == 0 {
        seq![]
    } else {
        insert_sorted(sort_unique(s.drop_last()), s.last())
    }
}

/// Exec form of [`lex_lt`].
pub fn lex_lt_chars(a: &Vec<char>, b: &Vec<char>) -> (r: bool)
    ensures
        r == lex_lt(a@, b@),
{
    let mut i: usize = 0;
    assert(a@.skip(0) =~= a@);
    assert(b@.skip(0) =~= b@);
    while i < a.len() && i < b.len() && a[i] == b[i]
        invariant
            i <= a.len(),
            i <= b.len(),
            lex_lt(a@, b@) == lex_lt(a@.skip(i as int), b@.skip(i as int)),
        decreases a.len() - i,
    {
        assert(a@.skip(i as int).drop_first() =~= a@.skip(i + 1));
        assert(b@.skip(i as int).drop_first() =~= b@.skip(i + 1));
        assert(a@.skip(i as int)[0] == a@[i as int]);
        assert(b@.skip(i as int)[0] == b@[i as int]);
        i += 1;
    }
    if i == a.len() {
        assert(a@.skip(i as int).len() == 0);
        i < b.len()
    } else if i == b.len() {
        assert(b@.skip(i as int).len() == 0);
        false
    } else {
        assert(a@.skip(i as int)[0] == a@[i as int]);
        assert(b@.skip(i as int)[0] == b@[i as int]);
        a[i] < b[i]
    }
}

proof fn lemma_insert_sorted_at(v: Seq<Seq<char>>, x: Seq<char>, j: int)
    requires
        0 <= j <= v.len(),
        forall|k: int| 0 <= k < j ==> (#[trigger] v[k]) != x && !lex_lt(x, v[k]),
        j < v.len() ==> (v[j] == x || lex_lt(x, v[j])),
    ensures
        insert_sorted(v, x) == if j < v.len() && v[j] == x {
            v
        } else {
            v.insert(j, x)
        },
    decreases j,
{
    if j > 0 {
        assert(v[0] != x && !lex_lt(x, v[0]));
        assert forall|k: int| 0 <= k < j - 1 implies (#[trigger] v.drop_first()[k]) != x
            && !lex_lt(x, v.drop_first()[k]) by {
            assert(v.drop_first()[k] == v[k + 1]);
        }
        if j < v.len() {
            assert(v.drop_first()[j - 1] == v[j]);
        }
        lemma_insert_sorted_at(v.drop_first(), x, j - 1);
        if j < v.len() && v[j] == x {
            assert(seq![v[0]] + v.drop_first() =~= v);
        } else {
            assert(seq![v[0]] + v.drop_first().insert(j - 1, x) =~= v.insert(j, x));
        }
    } else {
        if v.len() == 0 {
            assert(seq![x] =~= v.insert(0, x));
        } else if v[0] != x {
            assert(seq![x] + v =~= v.insert(0, x));
        }
    }
}

/// Inserts `x` into a sorted list of distinct strings (see [`insert_sorted`]).
pub fn insert_sorted_exec(v: &mut Vec<String>, x: String)
    ensures
        strs_view(final(v)@) == insert_sorted(strs_view(old(v)@), x@),
{
    let ghost sv = strs_view(v@);
    let xc = chars_of(x.as_str());
    let mut j: usize = 0;
    let mut stop = false;
    while j < v.len() && !stop
        invariant
            j <= v.len(),
            sv == strs_view(v@),
            xc@ == x@,
            forall|k: int| 0 <= k < j ==> (#[trigger] sv[k]) != x@ && !lex_lt(x@, sv[k]),
            stop ==> j < v.len() && (sv[j as int] == x@ || lex_lt(x@, sv[j as int])),
        decreases v.len() - j, if stop { 0nat } else { 1nat },
    {
        let vc = chars_of(v[j].as_str());
        assert(sv[j as int] == vc@);
        if v[j] == x || lex_lt_chars(&xc, &vc) {
            stop = true;
        } else {
            j += 1;
        }
    }
    proof {
        lemma_insert_sorted_at(sv, x@, j as int);
    }
    if j < v.len() && v[j] == x {
        return;
    }
    let ghost xv = x@;
    v.insert(j, x);
    assert(strs_view(v@) =~= sv.insert(j as int, xv));
}

/// [`lex_lt`] is irreflexive.
pub proof fn lemma_lex_irrefl(a: Seq<char>)
    ensures
        !lex_lt(a, a),
    decreases a.len(),
{
    if a.len() > 0 {
        lemma_lex_irrefl(a.drop_first());
    }
}

/// [`lex_lt`] is transitive.
pub proof fn lemma_lex_trans(a: Seq<char>, b: Seq<char>, c: Seq<char>)
    requires
        lex_lt(a, b),
        lex_lt(b, c),
    ensures
        lex_lt(a, c),
    decreases a.len(),
{
    if a.len() > 0 && b.len() > 0 && c.len() > 0 && a[0] == b[0] && b[0] == c[0] {
        lemma_lex_trans(a.drop_first(), b.drop_first(), c.drop_first());
    }
}

/// Two different strings are ordered one way or the other.
pub proof fn lemma_lex_total(a: Seq<char>, b: Seq<char>)
    requires
        a != b,
    ensures
        lex_lt(a, b) || lex_lt(b, a),
    decreases a.len(),
{
    if a.len() > 0 && b.len() > 0 && a[0] == b[0] {
        if a.drop_first() == b.drop_first() {
            assert(a =~= seq![a[0]] + a.drop_first());
            assert(b =~= seq![b[0]] + b.drop_first());
        }
        lemma_lex_total(a.drop_first(), b.drop_first());
    } else if a.len() == 0 && b.len() == 0 {
        assert(a =~= b);
    }
}

/// [`lex_lt`] is asymmetric.
pub proof fn lemma_lex_asym(a: Seq<char>, b: Seq<char>)
    requires
        lex_lt(a, b),
    ensures
        !lex_lt(b, a),
{
    if lex_lt(b, a) {
        lemma_lex_trans(a, b, a);
        lemma_lex_irrefl(a);
    }
}

} // verus!
