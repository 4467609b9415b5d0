//! Character-level model of the string operations the terminal helpers rely on:
//! Unicode whitespace, trimming, prefix/suffix tests, substring search and UTF-8
//! byte widths, each with an executable counterpart over `Vec<char>`.

use vstd::prelude::*;

verus! {

// ---------------------------------------------------------------------------
// Characters
// ---------------------------------------------------------------------------

/// The Unicode `White_Space` property (what `char::is_whitespace` and `str::trim` use).
pub open spec fn is_ws(c: char) -> bool {
    ||| ('\u{9}' <= c && c <= '\u{d}')
    ||| c == ' '
    ||| c == '\u{85}'
    ||| c == '\u{a0}'
    ||| c == '\u{1680}'
    ||| ('\u{2000}' <= c && c <= '\u{200a}')
    ||| c == '\u{2028}'
    ||| c == '\u{2029}'
    ||| c == '\u{202f}'
    ||| c == '\u{205f}'
    ||| c == '\u{3000}'
}

pub fn is_whitespace(c: char) -> (b: bool)
    ensures
        b == is_ws(c),
{
    ('\u{9}' <= c && c <= '\u{d}') || c == ' ' || c == '\u{85}' || c == '\u{a0}' || c
        == '\u{1680}' || ('\u{2000}' <= c && c <= '\u{200a}') || c == '\u{2028}' || c
        == '\u{2029}' || c == '\u{202f}' || c == '\u{205f}' || c == '\u{3000}'
}

/// Number of bytes of the UTF-8 encoding of `c`.
pub open spec fn char_utf8_width(c: char) -> nat {
    if (c as u32) < 0x80 {
        1
    } else if (c as u32) < 0x800 {
        2
    } else if (c as u32) < 0x10000 {
        3
    } else {
        4
    }
}

/// Number of bytes of the UTF-8 encoding of `s` (what `str::len` reports).
pub open spec fn utf8_len(s: Seq<char>) -> nat
    decreases s.len(),
{
    if s.len() == 0 {
        0
    } else {
        utf8_len(s.drop_last()) + char_utf8_width(s.last())
    }
}

/// Byte offset `b` falls between two characters of `s`.
pub open spec fn is_char_boundary(s: Seq<char>, b: int) -> bool {
    exists|k: int| 0 <= k <= s.len() && utf8_len(#[trigger] s.take(k)) == b
}

pub fn utf8_width(c: char) -> (w: usize)
    ensures
        w == char_utf8_width(c),
{
    let u = c as u32;
    if u < 0x80 {
        1
    } else if u < 0x800 {
        2
    } else if u < 0x10000 {
        3
    } else {
        4
    }
}

pub proof fn lemma_utf8_len_ge_len(s: Seq<char>)
    ensures
        utf8_len(s) >= s.len(),
    decreases s.len(),
{
    if s.len() > 0 {
        lemma_utf8_len_ge_len(s.drop_last());
    }
}

// ---------------------------------------------------------------------------
// Prefixes, suffixes and occurrences
// ---------------------------------------------------------------------------

pub open spec fn starts_with(s: Seq<char>, p: Seq<char>) -> bool {
    p.len() <= s.len() && s.subrange(0, p.len() as int) == p
}

pub open spec fn ends_with(s: Seq<char>, p: Seq<char>) -> bool {
    p.len() <= s.len() && s.subrange(s.len() - p.len(), s.len() as int) == p
}

/// `p` occurs in `s` starting at index `i`.
pub open spec fn occurs_at(s: Seq<char>, p: Seq<char>, i: int) -> bool {
    0 <= i && i + p.len() <= s.len() && s.subrange(i, i + p.len()) == p
}

pub open spec fn contains_seq(s: Seq<char>, p: Seq<char>) -> bool {
    exists|i: int| occurs_at(s, p, i)
}

/// The greatest `i <= n` at which `p` occurs in `s`.
pub open spec fn last_occurrence_upto(s: Seq<char>, p: Seq<char>, n: int) -> Option<int>
    decreases n + 1,
{
    if n < 0 {
        None
    } else if occurs_at(s, p, n) {
        Some(n)
    } else {
        last_occurrence_upto(s, p, n - 1)
    }
}

/// Index of the last occurrence of `p` in `s` (what `str::rfind` reports, counted in characters).
pub open spec fn rfind(s: Seq<char>, p: Seq<char>) -> Option<int> {
    last_occurrence_upto(s, p, s.len() - p.len())
}

pub proof fn lemma_last_occurrence_upto(s: Seq<char>, p: Seq<char>, n: int)
    ensures
        match last_occurrence_upto(s, p, n) {
            Some(i) => i <= n && occurs_at(s, p, i) && forall|j: int|
                i < j <= n ==> !occurs_at(s, p, j),
            None => forall|j: int| j <= n ==> !occurs_at(s, p, j),
        },
    decreases n + 1,
{
    if n >= 0 && !occurs_at(s, p, n) {
        lemma_last_occurrence_upto(s, p, n - 1);
    }
}

/// `rfind` yields the last index at which the pattern occurs.
pub proof fn lemma_rfind(s: Seq<char>, p: Seq<char>)
    ensures
        match rfind(s, p) {
            Some(i) => occurs_at(s, p, i) && forall|j: int| i < j ==> !occurs_at(s, p, j),
            None => !contains_seq(s, p),
        },
{
    lemma_last_occurrence_upto(s, p, s.len() - p.len());
}

// ---------------------------------------------------------------------------
// Leading / trailing runs and trimming
// ---------------------------------------------------------------------------

/// Length of the longest prefix of `s` whose characters all satisfy `f`.
pub open spec fn lead_while(s: Seq<char>, f: spec_fn(char) -> bool) -> nat
    decreases s.len(),
{
    if s.len() > 0 && f(s[0]) {
        1 + lead_while(s.drop_first(), f)
    } else {
        0
    }
}

/// Length of the longest suffix of `s` whose characters all satisfy `f`.
pub open spec fn trail_while(s: Seq<char>, f: spec_fn(char) -> bool) -> nat
    decreases s.len(),
{
    if s.len() > 0 && f(s.last()) {
        1 + trail_while(s.drop_last(), f)
    } else {
        0
    }
}

pub open spec fn ws_pred() -> spec_fn(char) -> bool {
    |c: char| is_ws(c)
}

pub open spec fn is_char_pred(x: char) -> spec_fn(char) -> bool {
    |c: char| c == x
}

/// `str::trim_start`.
pub open spec fn trim_start(s: Seq<char>) -> Seq<char> {
    s.skip(lead_while(s, ws_pred()) as int)
}

/// `str::trim_end`.
pub open spec fn trim_end(s: Seq<char>) -> Seq<char> {
    s.take(s.len() - trail_while(s, ws_pred()))
}

/// `str::trim`.
pub open spec fn trim(s: Seq<char>) -> Seq<char> {
    trim_end(trim_start(s))
}

/// `str::trim_start_matches(x)` for a single character `x`.
pub open spec fn trim_start_char(s: Seq<char>, x: char) -> Seq<char> {
    s.skip(lead_while(s, is_char_pred(x)) as int)
}

/// `str::trim_end_matches(x)` for a single character `x`.
pub open spec fn trim_end_char(s: Seq<char>, x: char) -> Seq<char> {
    s.take(s.len() - trail_while(s, is_char_pred(x)))
}

pub proof fn lemma_lead_while(s: Seq<char>, f: spec_fn(char) -> bool)
    ensures
        lead_while(s, f) <= s.len(),
        forall|k: int| 0 <= k < lead_while(s, f) ==> f(#[trigger] s[k]),
        lead_while(s, f) < s.len() ==> !f(s[lead_while(s, f) as int]),
    decreases s.len(),
{
    if s.len() > 0 && f(s[0]) {
        lemma_lead_while(s.drop_first(), f);
        assert forall|k: int| 0 <= k < lead_while(s, f) implies f(#[trigger] s[k]) by {
            if k > 0 {
                assert(s[k] == s.drop_first()[k - 1]);
            }
        }
    }
}

/// A run of `n` characters satisfying `f`, followed by the end or a character that does not,
/// is exactly the leading run.
pub proof fn lemma_lead_while_is(s: Seq<char>, f: spec_fn(char) -> bool, n: int)
    requires
        0 <= n <= s.len(),
        forall|k: int| 0 <= k < n ==> f(#[trigger] s[k]),
        n == s.len() || !f(s[n]),
    ensures
        lead_while(s, f) == n,
{
    lemma_lead_while(s, f);
    if lead_while(s, f) < n {
        assert(f(s[lead_while(s, f) as int]));
    }
    if lead_while(s, f) > n {
        assert(f(s[n]));
    }
}

pub proof fn lemma_trail_while(s: Seq<char>, f: spec_fn(char) -> bool)
    ensures
        trail_while(s, f) <= s.len(),
        forall|k: int| s.len() - trail_while(s, f) <= k < s.len() ==> f(#[trigger] s[k]),
        trail_while(s, f) < s.len() ==> !f(s[s.len() - trail_while(s, f) - 1]),
    decreases s.len(),
{
    if s.len() > 0 && f(s.last()) {
        lemma_trail_while(s.drop_last(), f);
        assert forall|k: int| s.len() - trail_while(s, f) <= k < s.len() implies f(
            #[trigger] s[k],
        ) by {
            if k < s.len() - 1 {
                assert(s[k] == s.drop_last()[k]);
            }
        }
    }
}

pub proof fn lemma_trail_while_is(s: Seq<char>, f: spec_fn(char) -> bool, n: int)
    requires
        0 <= n <= s.len(),
        forall|k: int| s.len() - n <= k < s.len() ==> f(#[trigger] s[k]),
        n == s.len() || !f(s[s.len() - n - 1]),
    ensures
        trail_while(s, f) == n,
{
    lemma_trail_while(s, f);
    if trail_while(s, f) < n {
        assert(f(s[s.len() - trail_while(s, f) - 1]));
    }
    if trail_while(s, f) > n {
        assert(f(s[s.len() - n - 1]));
    }
}

/// `trim` yields a sequence with no whitespace at either end.
pub proof fn lemma_trim_shape(s: Seq<char>)
    ensures
        trim(s).len() > 0 ==> !is_ws(trim(s)[0]) && !is_ws(trim(s).last()),
        trim_start(s).len() > 0 ==> !is_ws(trim_start(s)[0]),
        trim_end(s).len() > 0 ==> !is_ws(trim_end(s).last()),
{
    let f = ws_pred();
    lemma_lead_while(s, f);
    lemma_trail_while(s, f);
    let t = trim_start(s);
    lemma_lead_while(t, f);
    lemma_trail_while(t, f);
    if t.len() > 0 {
        assert(t[0] == s[lead_while(s, f) as int]);
    }
    if trim(s).len() > 0 {
        assert(trim(s)[0] == t[0]);
        assert(trim(s).last() == t[t.len() - trail_while(t, f) - 1]);
    }
    if trim_end(s).len() > 0 {
        assert(trim_end(s).last() == s[s.len() - trail_while(s, f) - 1]);
    }
}

/// Trimming a sequence that starts and ends with non-whitespace changes nothing.
pub proof fn lemma_trim_of_trimmed(s: Seq<char>)
    requires
        s.len() > 0 ==> !is_ws(s[0]) && !is_ws(s.last()),
    ensures
        trim(s) == s,
        trim_start(s) == s,
        trim_end(s) == s,
{
    let f = ws_pred();
    lemma_lead_while_is(s, f, 0);
    lemma_trail_while_is(s, f, 0);
    assert(s.skip(0) =~= s);
    assert(s.take(s.len() as int) =~= s);
}

/// `trim` is idempotent.
pub proof fn lemma_trim_idempotent(s: Seq<char>)
    ensures
        trim(trim(s)) == trim(s),
{
    lemma_trim_shape(s);
    lemma_trim_of_trimmed(trim(s));
}

/// A sequence splits into its leading whitespace and `trim_start` of it.
pub proof fn lemma_trim_start_split(s: Seq<char>)
    ensures
        s == s.take(lead_while(s, ws_pred()) as int) + trim_start(s),
        forall|k: int|
            0 <= k < lead_while(s, ws_pred()) ==> is_ws(#[trigger] s.take(
                lead_while(s, ws_pred()) as int,
            )[k]),
{
    lemma_lead_while(s, ws_pred());
    assert(s =~= s.take(lead_while(s, ws_pred()) as int) + trim_start(s));
    assert forall|k: int| 0 <= k < lead_while(s, ws_pred()) implies is_ws(
        #[trigger] s.take(lead_while(s, ws_pred()) as int)[k],
    ) by {
        assert(s.take(lead_while(s, ws_pred()) as int)[k] == s[k]);
        assert(ws_pred()(s[k]));
    }
}

/// `t` is `s` with the whitespace at its two ends removed: `t` neither starts nor ends with
/// whitespace, and `s` is some whitespace, then `t`, then some whitespace.
pub open spec fn outer_whitespace_removed(s: Seq<char>, t: Seq<char>) -> bool {
    &&& t.len() > 0 ==> !is_ws(t[0]) && !is_ws(t.last())
    &&& exists|i: int|
        0 <= i && i + t.len() <= s.len() && #[trigger] s.subrange(i, i + t.len()) == t
            && (forall|j: int| 0 <= j < i ==> is_ws(#[trigger] s[j])) && (forall|j: int|
            i + t.len() <= j < s.len() ==> is_ws(#[trigger] s[j]))
}

/// `trim` removes the whitespace at both ends of a sequence and nothing else; it gives the
/// empty sequence exactly when the whole sequence is whitespace.
pub proof fn lemma_trim_removes_outer_whitespace(s: Seq<char>)
    ensures
        outer_whitespace_removed(s, trim(s)),
        trim(s).len() == 0 <==> (forall|j: int| 0 <= j < s.len() ==> is_ws(#[trigger] s[j])),
{
    let f = ws_pred();
    let i = lead_while(s, f) as int;
    let u = trim_start(s);
    let t = trim(s);
    lemma_trim_shape(s);
    lemma_lead_while(s, f);
    lemma_trail_while(u, f);
    assert(u =~= s.skip(i));
    assert(t =~= u.take(u.len() - trail_while(u, f)));
    assert(s.subrange(i, i + t.len()) =~= t);
    assert forall|j: int| 0 <= j < i implies is_ws(#[trigger] s[j]) by {
        assert(f(s[j]));
    }
    assert forall|j: int| i + t.len() <= j < s.len() implies is_ws(#[trigger] s[j]) by {
        assert(s[j] == u[j - i]);
        assert(f(u[j - i]));
    }
    if t.len() == 0 {
        assert forall|j: int| 0 <= j < s.len() implies is_ws(#[trigger] s[j]) by {
            if j < i {
                assert(f(s[j]));
            } else {
                assert(s[j] == u[j - i]);
                assert(f(u[j - i]));
            }
        }
    } else {
        assert(s[i] == t[0]);
    }
}

/// A non-empty `t` that is `s` with its outer whitespace removed is `trim(s)`.
pub proof fn lemma_outer_whitespace_removed_is_trim(s: Seq<char>, t: Seq<char>)
    requires
        outer_whitespace_removed(s, t),
        t.len() > 0,
    ensures
        t == trim(s),
{
    let f = ws_pred();
    let i = choose|i: int|
        0 <= i && i + t.len() <= s.len() && #[trigger] s.subrange(i, i + t.len()) == t
            && (forall|j: int| 0 <= j < i ==> is_ws(#[trigger] s[j])) && (forall|j: int|
            i + t.len() <= j < s.len() ==> is_ws(#[trigger] s[j]));
    assert(s[i] == s.subrange(i, i + t.len())[0]);
    assert forall|k: int| 0 <= k < i implies f(#[trigger] s[k]) by {
        assert(is_ws(s[k]));
    }
    lemma_lead_while_is(s, f, i);
    let u = trim_start(s);
    assert(u =~= s.skip(i));
    let n = u.len() - t.len();
    assert forall|k: int| u.len() - n <= k < u.len() implies f(#[trigger] u[k]) by {
        assert(u[k] == s[i + k]);
        assert(is_ws(s[i + k]));
    }
    assert(u[t.len() - 1] == s.subrange(i, i + t.len())[t.len() - 1]);
    lemma_trail_while_is(u, f, n);
    assert(trim(s) =~= u.take(t.len() as int));
    assert(t =~= u.take(t.len() as int));
}

// ---------------------------------------------------------------------------
// Executable helpers over `Vec<char>`
// ---------------------------------------------------------------------------

/// `String::push` appends one character to the end of the string.
pub assume_specification[ String::push ](s: &mut String, ch: char)
    ensures
        final(s)@ == old(s)@.push(ch),
;

/// `String::pop` removes and returns the last character, or returns `None` for an empty string.
pub assume_specification[ String::pop ](s: &mut String) -> (r: Option<char>)
    ensures
        old(s)@.len() > 0 ==> final(s)@ == old(s)@.drop_last() && r == Some(old(s)@.last()),
        old(s)@.len() == 0 ==> final(s)@ == old(s)@ && r is None,
;

/// The characters of `s`, in order.
pub fn chars_of(s: &str) -> (v: Vec<char>)
    ensures
        v@ == s@,
{
    let mut v: Vec<char> = Vec::new();
    for c in it: s.chars()
        invariant
            v@ == it.history(),
    {
        v.push(c);
    }
    proof {
        broadcast use vstd::string::axiom_spec_iter;

    }
    v
}

/// The string made of the characters `v[lo..hi]`.
pub fn string_of_range(v: &Vec<char>, lo: usize, hi: usize) -> (s: String)
    requires
        lo <= hi <= v.len(),
    ensures
        s@ == v@.subrange(lo as int, hi as int),
{
    let mut s = String::new();
    let mut i = lo;
    while i < hi
        invariant
            lo <= i <= hi <= v.len(),
            s@ == v@.subrange(lo as int, i as int),
        decreases hi - i,
    {
        s.push(v[i]);
        assert(v@.subrange(lo as int, i as int).push(v@[i as int]) =~= v@.subrange(
            lo as int,
            i + 1,
        ));
        i = i + 1;
    }
    s
}

/// The string made of all characters of `v`.
pub fn string_of(v: &Vec<char>) -> (s: String)
    ensures
        s@ == v@,
{
    let s = string_of_range(v, 0, v.len());
    assert(v@.subrange(0, v@.len() as int) =~= v@);
    s
}

/// `a` followed by `b`.
pub fn concat_str(a: &str, b: &str) -> (s: String)
    ensures
        s@ == a@ + b@,
{
    let mut s = String::new();
    s.append(a);
    s.append(b);
    assert(s@ =~= a@ + b@);
    s
}

/// Appends the characters `v[lo..hi]` to `s`.
pub fn push_range(s: &mut String, v: &Vec<char>, lo: usize, hi: usize)
    requires
        lo <= hi <= v.len(),
    ensures
        final(s)@ == old(s)@ + v@.subrange(lo as int, hi as int),
{
    let ghost start = s@;
    let mut i = lo;
    while i < hi
        invariant
            lo <= i <= hi <= v.len(),
            s@ == start + v@.subrange(lo as int, i as int),
        decreases hi - i,
    {
        s.push(v[i]);
        assert(start + v@.subrange(lo as int, i as int) + seq![v@[i as int]] =~= start
            + v@.subrange(lo as int, i + 1));
        i = i + 1;
    }
}

/// Index of the first non-whitespace character of `v[lo..hi]` (or `hi`).
pub fn skip_ws_forward(v: &Vec<char>, lo: usize, hi: usize) -> (i: usize)
    requires
        lo <= hi <= v.len(),
    ensures
        lo <= i <= hi,
        i - lo == lead_while(v@.subrange(lo as int, hi as int), ws_pred()),
        trim_start(v@.subrange(lo as int, hi as int)) == v@.subrange(i as int, hi as int),
{
    let mut i = lo;
    while i < hi && is_whitespace(v[i])
        invariant
            lo <= i <= hi <= v.len(),
            forall|k: int| lo <= k < i ==> is_ws(#[trigger] v@[k]),
        decreases hi - i,
    {
        i = i + 1;
    }
    let ghost s = v@.subrange(lo as int, hi as int);
    proof {
        assert forall|k: int| 0 <= k < i - lo implies ws_pred()(#[trigger] s[k]) by {
            assert(s[k] == v@[lo + k]);
        }
        if i < hi {
            assert(s[i - lo] == v@[i as int]);
        }
        lemma_lead_while_is(s, ws_pred(), i - lo);
        assert(s.skip(i - lo) =~= v@.subrange(i as int, hi as int));
    }
    i
}

/// Index just past the last non-whitespace character of `v[lo..hi]` (or `lo`).
pub fn skip_ws_backward(v: &Vec<char>, lo: usize, hi: usize) -> (j: usize)
    requires
        lo <= hi <= v.len(),
    ensures
        lo <= j <= hi,
        hi - j == trail_while(v@.subrange(lo as int, hi as int), ws_pred()),
        trim_end(v@.subrange(lo as int, hi as int)) == v@.subrange(lo as int, j as int),
{
    let mut j = hi;
    while j > lo && is_whitespace(v[j - 1])
        invariant
            lo <= j <= hi <= v.len(),
            forall|k: int| j <= k < hi ==> is_ws(#[trigger] v@[k]),
        decreases j - lo,
    {
        j = j - 1;
    }
    let ghost s = v@.subrange(lo as int, hi as int);
    proof {
        assert forall|k: int| s.len() - (hi - j) <= k < s.len() implies ws_pred()(
            #[trigger] s[k],
        ) by {
            assert(s[k] == v@[lo + k]);
        }
        if j > lo {
            assert(s[s.len() - (hi - j) - 1] == v@[j - 1]);
        }
        lemma_trail_while_is(s, ws_pred(), hi - j);
        assert(s.take(s.len() - (hi - j)) =~= v@.subrange(lo as int, j as int));
    }
    j
}

/// Bounds `[a, b)` of `trim(v[lo..hi])` inside `v`.
pub fn trim_bounds(v: &Vec<char>, lo: usize, hi: usize) -> (r: (usize, usize))
    requires
        lo <= hi <= v.len(),
    ensures
        lo <= r.0 <= r.1 <= hi,
        trim(v@.subrange(lo as int, hi as int)) == v@.subrange(r.0 as int, r.1 as int),
        trim_start(v@.subrange(lo as int, hi as int)) == v@.subrange(r.0 as int, hi as int),
{
    let a = skip_ws_forward(v, lo, hi);
    let b = skip_ws_backward(v, a, hi);
    (a, b)
}

/// Number of leading characters of `v[lo..hi]` equal to `x`.
pub fn skip_char_forward(v: &Vec<char>, lo: usize, hi: usize, x: char) -> (i: usize)
    requires
        lo <= hi <= v.len(),
    ensures
        lo <= i <= hi,
        trim_start_char(v@.subrange(lo as int, hi as int), x) == v@.subrange(i as int, hi as int),
{
    let mut i = lo;
    while i < hi && v[i] == x
        invariant
            lo <= i <= hi <= v.len(),
            forall|k: int| lo <= k < i ==> #[trigger] v@[k] == x,
        decreases hi - i,
    {
        i = i + 1;
    }
    let ghost s = v@.subrange(lo as int, hi as int);
    proof {
        assert forall|k: int| 0 <= k < i - lo implies is_char_pred(x)(#[trigger] s[k]) by {
            assert(s[k] == v@[lo + k]);
        }
        if i < hi {
            assert(s[i - lo] == v@[i as int]);
        }
        lemma_lead_while_is(s, is_char_pred(x), i - lo);
        assert(s.skip(i - lo) =~= v@.subrange(i as int, hi as int));
    }
    i
}

/// Index just past the last character of `v[lo..hi]` that differs from `x` (or `lo`).
pub fn skip_char_backward(v: &Vec<char>, lo: usize, hi: usize, x: char) -> (j: usize)
    requires
        lo <= hi <= v.len(),
    ensures
        lo <= j <= hi,
        trim_end_char(v@.subrange(lo as int, hi as int), x) == v@.subrange(lo as int, j as int),
{
    let mut j = hi;
    while j > lo && v[j - 1] == x
        invariant
            lo <= j <= hi <= v.len(),
            forall|k: int| j <= k < hi ==> #[trigger] v@[k] == x,
        decreases j - lo,
    {
        j = j - 1;
    }
    let ghost s = v@.subrange(lo as int, hi as int);
    proof {
        assert forall|k: int| s.len() - (hi - j) <= k < s.len() implies is_char_pred(x)(
            #[trigger] s[k],
        ) by {
            assert(s[k] == v@[lo + k]);
        }
        if j > lo {
            assert(s[s.len() - (hi - j) - 1] == v@[j - 1]);
        }
        lemma_trail_while_is(s, is_char_pred(x), hi - j);
        assert(s.take(s.len() - (hi - j)) =~= v@.subrange(lo as int, j as int));
    }
    j
}

/// Whether `p` occurs in `v` at index `i`.
pub fn occurs_at_exec(v: &Vec<char>, p: &Vec<char>, i: usize) -> (b: bool)
    ensures
        b == occurs_at(v@, p@, i as int),
{
    if i > v.len() || p.len() > v.len() - i {
        return false;
    }
    let mut k: usize = 0;
    while k < p.len()
        invariant
            i + p.len() <= v.len(),
            k <= p.len(),
            forall|m: int| 0 <= m < k ==> v@[i + m] == p@[m],
        decreases p.len() - k,
    {
        if v[i + k] != p[k] {
            proof {
                assert(v@.subrange(i as int, i + p.len())[k as int] == v@[i + k]);
            }
            return false;
        }
        k = k + 1;
    }
    assert(v@.subrange(i as int, i + p.len()) =~= p@);
    true
}

/// Whether `v` begins with `p`.
pub fn starts_with_exec(v: &Vec<char>, p: &Vec<char>) -> (b: bool)
    ensures
        b == starts_with(v@, p@),
{
    occurs_at_exec(v, p, 0)
}

/// Whether `p` occurs anywhere in `v`.
pub fn contains_exec(v: &Vec<char>, p: &Vec<char>) -> (b: bool)
    ensures
        b == contains_seq(v@, p@),
{
    if p.len() > v.len() {
        assert forall|i: int| !occurs_at(v@, p@, i) by {}
        return false;
    }
    let last = v.len() - p.len();
    let mut i: usize = 0;
    loop
        invariant
            last == v.len() - p.len(),
            i <= last,
            forall|j: int| 0 <= j < i ==> !occurs_at(v@, p@, j),
        decreases last - i,
    {
        if occurs_at_exec(v, p, i) {
            return true;
        }
        if i == last {
            assert forall|j: int| !occurs_at(v@, p@, j) by {
                if 0 <= j <= last {
                    assert(j < i || j == i);
                }
            }
            return false;
        }
        i = i + 1;
    }
}

/// Index of the last occurrence of `p` in `v`.
pub fn rfind_exec(v: &Vec<char>, p: &Vec<char>) -> (r: Option<usize>)
    ensures
        match r {
            Some(i) => rfind(v@, p@) == Some(i as int),
            None => rfind(v@, p@) is None,
        },
{
    if p.len() > v.len() {
        proof {
            assert(rfind(v@, p@) == last_occurrence_upto(v@, p@, v@.len() - p@.len()));
            assert(v@.len() - p@.len() < 0);
        }
        return None;
    }
    let mut n: usize = v.len() - p.len();
    loop
        invariant
            n <= v.len() - p.len(),
            rfind(v@, p@) == last_occurrence_upto(v@, p@, n as int),
        decreases n,
    {
        if occurs_at_exec(v, p, n) {
            return Some(n);
        }
        if n == 0 {
            assert(last_occurrence_upto(v@, p@, -1) is None);
            return None;
        }
        n = n - 1;
    }
}

/// Whether the characters `v[lo..hi]` equal `p`.
pub fn range_equals(v: &Vec<char>, lo: usize, hi: usize, p: &Vec<char>) -> (b: bool)
    requires
        lo <= hi <= v.len(),
    ensures
        b == (v@.subrange(lo as int, hi as int) == p@),
{
    if hi - lo != p.len() {
        return false;
    }
    occurs_at_exec(v, p, lo)
}

/// Whether the characters `v[lo..hi]` begin with `p`.
pub fn range_starts_with(v: &Vec<char>, lo: usize, hi: usize, p: &Vec<char>) -> (b: bool)
    requires
        lo <= hi <= v.len(),
    ensures
        b == starts_with(v@.subrange(lo as int, hi as int), p@),
{
    if hi - lo < p.len() {
        return false;
    }
    let b = occurs_at_exec(v, p, lo);
    assert(v@.subrange(lo as int, hi as int).subrange(0, p@.len() as int) =~= v@.subrange(
        lo as int,
        lo + p@.len(),
    ));
    b
}

pub open spec fn non_ws_pred() -> spec_fn(char) -> bool {
    |c: char| !is_ws(c)
}

/// Index of the first whitespace character of `v[lo..hi]` (or `hi`).
pub fn skip_non_ws_forward(v: &Vec<char>, lo: usize, hi: usize) -> (i: usize)
    requires
        lo <= hi <= v.len(),
    ensures
        lo <= i <= hi,
        i - lo == lead_while(v@.subrange(lo as int, hi as int), non_ws_pred()),
{
    let mut i = lo;
    while i < hi && !is_whitespace(v[i])
        invariant
            lo <= i <= hi <= v.len(),
            forall|k: int| lo <= k < i ==> !is_ws(#[trigger] v@[k]),
        decreases hi - i,
    {
        i = i + 1;
    }
    let ghost s = v@.subrange(lo as int, hi as int);
    proof {
        assert forall|k: int| 0 <= k < i - lo implies non_ws_pred()(#[trigger] s[k]) by {
            assert(s[k] == v@[lo + k]);
        }
        if i < hi {
            assert(s[i - lo] == v@[i as int]);
        }
        lemma_lead_while_is(s, non_ws_pred(), i - lo);
    }
    i
}

/// A fresh vector holding `v[lo..hi]`.
pub fn vec_range(v: &Vec<char>, lo: usize, hi: usize) -> (r: Vec<char>)
    requires
        lo <= hi <= v.len(),
    ensures
        r@ == v@.subrange(lo as int, hi as int),
{
    let mut r: Vec<char> = Vec::new();
    let mut i = lo;
    while i < hi
        invariant
            lo <= i <= hi <= v.len(),
            r@ == v@.subrange(lo as int, i as int),
        decreases hi - i,
    {
        r.push(v[i]);
        assert(v@.subrange(lo as int, i as int).push(v@[i as int]) =~= v@.subrange(
            lo as int,
            i + 1,
        ));
        i = i + 1;
    }
    r
}

/// What `str::to_lowercase` returns for a string with characters `s` (Unicode lowercase
/// mapping); a function of `s` alone.
pub uninterp spec fn str_lowercase(s: Seq<char>) -> Seq<char>;

/// Every character is ASCII.
pub open spec fn is_ascii_text(s: Seq<char>) -> bool {
    forall|i: int| 0 <= i < s.len() ==> (#[trigger] s[i] as u32) < 0x80
}

/// ASCII uppercase letters made lowercase, every other character kept.
pub open spec fn ascii_lower(s: Seq<char>) -> Seq<char> {
    s.map_values(
        |c: char|
            if 'A' <= c && c <= 'Z' {
                ((c as u32) + 32) as char
            } else {
                c
            },
    )
}

/// Calls `str::to_lowercase`. Trusted: the result is `str_lowercase` of the input's
/// characters, and for ASCII text (where the Unicode lowercase mapping of `A`–`Z` is
/// `a`–`z` and every other character maps to itself) it is that text with `A`–`Z` made
/// lowercase; nothing else is stated of the Unicode mapping.
#[verifier::external_body]
pub(crate) fn to_lowercase(s: &str) -> (r: String)
    ensures
        r@ == str_lowercase(s@),
        is_ascii_text(s@) ==> r@ == ascii_lower(s@),
{
    s.to_lowercase()
}

/// The words of `s` (`str::split_whitespace`): its maximal runs of non-whitespace
/// characters, in order.
pub open spec fn words(s: Seq<char>) -> Seq<Seq<char>>
    decreases s.len(),
{
    let t = trim_start(s);
    if t.len() == 0 {
        Seq::empty()
    } else {
        let w = lead_while(t, non_ws_pred());
        proof {
            lemma_lead_while(s, ws_pred());
            lemma_lead_while(t, non_ws_pred());
            assert(t[0] == s[lead_while(s, ws_pred()) as int]);
            assert(non_ws_pred()(t[0]));
        }
        seq![t.take(w as int)] + words(t.skip(w as int))
    }
}

/// The words of `s`, each as a string.
pub fn split_words(s: &str) -> (r: Vec<String>)
    ensures
        strings_view(r@) == words(s@),
{
    let v = chars_of(s);
    let n = v.len();
    let mut out: Vec<String> = Vec::new();
    let mut i: usize = 0;
    assert(v@.subrange(0, n as int) =~= v@);
    while i < n
        invariant
            n == v@.len(),
            v@ == s@,
            i <= n,
            strings_view(out@) + words(v@.subrange(i as int, n as int)) == words(v@),
        ensures
            strings_view(out@) == words(v@),
        decreases n - i,
    {
        let ghost sub = v@.subrange(i as int, n as int);
        let a = skip_ws_forward(&v, i, n);
        proof {
            lemma_lead_while(sub, ws_pred());
        }
        if a == n {
            assert(trim_start(sub).len() == 0);
            assert(strings_view(out@) =~= words(v@));
            break;
        }
        let b = skip_non_ws_forward(&v, a, n);
        let ghost t = v@.subrange(a as int, n as int);
        proof {
            assert(t[0] == sub[a - i]);
            lemma_lead_while(t, non_ws_pred());
            assert(t.take(b - a) =~= v@.subrange(a as int, b as int));
            assert(t.skip(b - a) =~= v@.subrange(b as int, n as int));
        }
        let ghost before = out@;
        out.push(string_of_range(&v, a, b));
        proof {
            assert(strings_view(out@) =~= strings_view(before).push(v@.subrange(a as int, b as int)));
            assert(words(sub) == seq![v@.subrange(a as int, b as int)] + words(
                v@.subrange(b as int, n as int),
            ));
            assert(strings_view(out@) + words(v@.subrange(b as int, n as int)) =~= strings_view(before)
                + words(sub));
        }
        i = b;
    }
    out
}

/// Lines joined with `'\n'` (what `lines.join("\n")` gives).
pub open spec fn join_lines(lines: Seq<Seq<char>>) -> Seq<char>
    decreases lines.len(),
{
    if lines.len() == 0 {
        Seq::empty()
    } else if lines.len() == 1 {
        lines[0]
    } else {
        join_lines(lines.drop_last()) + seq!['\n'] + lines.last()
    }
}

/// Appends line number `i` of a join to the join of the lines before it.
pub fn push_joined_line(out: &mut String, i: usize, line: &String, lines: Ghost<Seq<Seq<char>>>)
    requires
        i < lines@.len(),
        old(out)@ == join_lines(lines@.take(i as int)),
        line@ == lines@[i as int],
    ensures
        final(out)@ == join_lines(lines@.take(i + 1)),
{
    if i > 0 {
        out.push('\n');
    }
    out.append(line.as_str());
    assert(lines@.take(i + 1).drop_last() =~= lines@.take(i as int));
    if i == 0 {
        assert(out@ =~= lines@.take(1)[0]);
    } else {
        assert(out@ =~= join_lines(lines@.take(i as int)) + seq!['\n'] + lines@.take(i + 1).last());
    }
}

/// Parts joined with `sep` between consecutive parts (what `parts.join(sep)` gives).
pub open spec fn join_with(parts: Seq<Seq<char>>, sep: Seq<char>) -> Seq<char>
    decreases parts.len(),
{
    if parts.len() == 0 {
        Seq::empty()
    } else if parts.len() == 1 {
        parts[0]
    } else {
        join_with(parts.drop_last(), sep) + sep + parts.last()
    }
}

/// The views of a vector of strings.
pub open spec fn strings_view(v: Seq<String>) -> Seq<Seq<char>> {
    v.map_values(|s: String| s@)
}

/// `parts.join(sep)`.
pub fn join_strings(parts: &Vec<String>, sep: &str) -> (r: String)
    ensures
        r@ == join_with(strings_view(parts@), sep@),
{
    let ghost views = strings_view(parts@);
    let mut out = String::new();
    let mut i: usize = 0;
    assert(views.take(0) =~= Seq::<Seq<char>>::empty());
    while i < parts.len()
        invariant
            i <= parts@.len(),
            views == strings_view(parts@),
            out@ == join_with(views.take(i as int), sep@),
        decreases parts.len() - i,
    {
        if i > 0 {
            out.append(sep);
        }
        out.append(parts[i].as_str());
        assert(views.take(i + 1).drop_last() =~= views.take(i as int));
        if i == 0 {
            assert(out@ =~= views.take(1)[0]);
        } else {
            assert(out@ =~= join_with(views.take(i as int), sep@) + sep@ + views.take(i + 1).last());
        }
        i = i + 1;
    }
    assert(views.take(parts@.len() as int) =~= views);
    out
}

} // verus!
