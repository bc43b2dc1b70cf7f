//! Character-level text utilities: character classes, run scanners,
//! trimming, splitting, and conversions between `str` and `Vec<char>`.
//!
//! All parsing in this crate works over sequences of characters; the spec
//! functions here are the vocabulary the parser's contracts are written in.

use vstd::prelude::*;
use vstd::string::StrSliceExecFns;

verus! {

// --- character classes ---

/// ASCII whitespace, as the extraction heuristics understand it.
pub open spec fn is_ws_char(c: char) -> bool {
    c == ' ' || c == '\t' || c == '\r' || c == '\n' || c == '\u{b}' || c == '\u{c}'
}

#[verifier::when_used_as_spec(is_ws_char)]
pub fn is_ws(c: char) -> (r: bool)
    ensures
        r == is_ws_char(c),
{
    c == ' ' || c == '\t' || c == '\r' || c == '\n' || c == '\u{b}' || c == '\u{c}'
}

/// An ASCII letter: the only characters accepted as a short flag name.
pub open spec fn is_alpha_char(c: char) -> bool {
    ('a' <= c && c <= 'z') || ('A' <= c && c <= 'Z')
}

#[verifier::when_used_as_spec(is_alpha_char)]
pub fn is_alpha(c: char) -> (r: bool)
    ensures
        r == is_alpha_char(c),
{
    ('a' <= c && c <= 'z') || ('A' <= c && c <= 'Z')
}

/// A character a long flag name may consist of: letters, digits, `_`, `-`.
pub open spec fn is_word_char(c: char) -> bool {
    is_alpha_char(c) || ('0' <= c && c <= '9') || c == '_' || c == '-'
}

#[verifier::when_used_as_spec(is_word_char)]
pub fn is_word(c: char) -> (r: bool)
    ensures
        r == is_word_char(c),
{
    is_alpha(c) || ('0' <= c && c <= '9') || c == '_' || c == '-'
}

// --- run scanners over a character sequence ---

/// First index at or after `i` holding a non-whitespace character, or the
/// length of `s` if the rest is all whitespace.
pub open spec fn skip_ws(s: Seq<char>, i: int) -> int
    decreases s.len() - i,
{
    if 0 <= i < s.len() && is_ws_char(s[i]) {
        skip_ws(s, i + 1)
    } else {
        i
    }
}

/// First index at or after `i` that does not hold a word character.
pub open spec fn word_end(s: Seq<char>, i: int) -> int
    decreases s.len() - i,
{
    if 0 <= i < s.len() && is_word_char(s[i]) {
        word_end(s, i + 1)
    } else {
        i
    }
}

/// First index at or after `i` holding a whitespace character, or the length.
pub open spec fn nonws_end(s: Seq<char>, i: int) -> int
    decreases s.len() - i,
{
    if 0 <= i < s.len() && !is_ws_char(s[i]) {
        nonws_end(s, i + 1)
    } else {
        i
    }
}

/// First index at or after `i` holding exactly `c`, or the length of `s`.
pub open spec fn find_char(s: Seq<char>, i: int, c: char) -> int
    decreases s.len() - i,
{
    if 0 <= i < s.len() && s[i] != c {
        find_char(s, i + 1, c)
    } else {
        i
    }
}

pub proof fn lemma_find_char(s: Seq<char>, i: int, c: char)
    requires
        0 <= i <= s.len(),
    ensures
        i <= find_char(s, i, c) <= s.len(),
        find_char(s, i, c) < s.len() ==> s[find_char(s, i, c)] == c,
        forall|j: int| i <= j < find_char(s, i, c) ==> s[j] != c,
    decreases s.len() - i,
{
    if i < s.len() && s[i] != c {
        lemma_find_char(s, i + 1, c);
    }
}

/// The position of the first occurrence characterises `find_char` uniquely.
pub proof fn lemma_find_char_is(s: Seq<char>, i: int, c: char, r: int)
    requires
        0 <= i <= r <= s.len(),
        forall|j: int| i <= j < r ==> s[j] != c,
        r < s.len() ==> s[r] == c,
    ensures
        find_char(s, i, c) == r,
    decreases r - i,
{
    if i < r {
        lemma_find_char_is(s, i + 1, c, r);
    }
}

// --- executable scanners ---

pub fn scan_ws(s: &[char], i: usize) -> (r: usize)
    requires
        i <= s.len(),
    ensures
        r == skip_ws(s@, i as int),
        i <= r <= s.len(),
{
    let mut k = i;
    while k < s.len() && is_ws(s[k])
        invariant
            i <= k <= s.len(),
            skip_ws(s@, i as int) == skip_ws(s@, k as int),
        decreases s.len() - k,
    {
        k = k + 1;
    }
    k
}

pub fn scan_word(s: &[char], i: usize) -> (r: usize)
    requires
        i <= s.len(),
    ensures
        r == word_end(s@, i as int),
        i <= r <= s.len(),
{
    let mut k = i;
    while k < s.len() && is_word(s[k])
        invariant
            i <= k <= s.len(),
            word_end(s@, i as int) == word_end(s@, k as int),
        decreases s.len() - k,
    {
        k = k + 1;
    }
    k
}

pub fn scan_nonws(s: &[char], i: usize) -> (r: usize)
    requires
        i <= s.len(),
    ensures
        r == nonws_end(s@, i as int),
        i <= r <= s.len(),
{
    let mut k = i;
    while k < s.len() && !is_ws(s[k])
        invariant
            i <= k <= s.len(),
            nonws_end(s@, i as int) == nonws_end(s@, k as int),
        decreases s.len() - k,
    {
        k = k + 1;
    }
    k
}

pub fn scan_to_char(s: &[char], i: usize, c: char) -> (r: usize)
    requires
        i <= s.len(),
    ensures
        r == find_char(s@, i as int, c),
        i <= r <= s.len(),
{
    let mut k = i;
    while k < s.len() && s[k] != c
        invariant
            i <= k <= s.len(),
            find_char(s@, i as int, c) == find_char(s@, k as int, c),
        decreases s.len() - k,
    {
        k = k + 1;
    }
    k
}

// --- trimming ---

/// `s` with trailing whitespace removed.
pub open spec fn trim_end(s: Seq<char>) -> Seq<char>
    decreases s.len(),
{
    if s.len() > 0 && is_ws_char(s[s.len() - 1]) {
        trim_end(s.drop_last())
    } else {
        s
    }
}

/// `s` with leading and trailing whitespace removed.
pub open spec fn trim(s: Seq<char>) -> Seq<char> {
    trim_end(s.skip(skip_ws(s, 0)))
}

/// Copy of `s[from..to]` with trailing whitespace removed.
pub fn subrange_trim_end(s: &[char], from: usize, to: usize) -> (r: Vec<char>)
    requires
        from <= to <= s.len(),
    ensures
        r@ == trim_end(s@.subrange(from as int, to as int)),
{
    let ghost sub = s@.subrange(from as int, to as int);
    let mut end = to;
    while end > from && is_ws(s[end - 1])
        invariant
            from <= end <= to <= s.len(),
            trim_end(sub) == trim_end(s@.subrange(from as int, end as int)),
        decreases end,
    {
        proof {
            let cur = s@.subrange(from as int, end as int);
            assert(cur.drop_last() =~= s@.subrange(from as int, end - 1));
        }
        end = end - 1;
    }
    let mut r: Vec<char> = Vec::new();
    let mut k = from;
    while k < end
        invariant
            from <= k <= end <= s.len(),
            r@ == s@.subrange(from as int, k as int),
        decreases end - k,
    {
        r.push(s[k]);
        proof {
            assert(s@.subrange(from as int, k + 1)
                =~= s@.subrange(from as int, k as int).push(s@[k as int]));
        }
        k = k + 1;
    }
    proof {
        let fin = s@.subrange(from as int, end as int);
        if end > from {
            assert(!is_ws_char(fin.last()));
        }
        assert(trim_end(fin) == fin);
    }
    r
}

// --- splitting on a separator character ---

/// `s` split at every occurrence of `c`; the separators are not kept.
/// Splitting the empty sequence gives one empty piece, as `str::split` does.
pub open spec fn split_char(s: Seq<char>, c: char) -> Seq<Seq<char>>
    decreases s.len(),
{
    let j = find_char(s, 0, c);
    if j == s.len() {
        seq![s]
    } else if 0 <= j < s.len() {
        seq![s.take(j)] + split_char(s.skip(j + 1), c)
    } else {
        seq![s]
    }
}

pub fn split_at_char(s: &[char], c: char) -> (r: Vec<Vec<char>>)
    ensures
        r.deep_view() == split_char(s@, c),
{
    let mut r: Vec<Vec<char>> = Vec::new();
    let mut start: usize = 0;
    let ghost whole = s@;
    proof {
        assert(s@.skip(0) =~= s@);
        assert(r.deep_view() + split_char(s@, c) =~~= split_char(whole, c));
    }
    loop
        invariant
            start <= s.len(),
            whole == s@,
            split_char(whole, c) == r.deep_view() + split_char(s@.skip(start as int), c),
        decreases s.len() - start,
    {
        proof {
            lemma_find_char(s@, start as int, c);
        }
        let j = scan_to_char(s, start, c);
        let ghost rest = s@.skip(start as int);
        proof {
            assert forall|k: int| 0 <= k < j - start implies rest[k] != c by {
                assert(rest[k] == s@[start + k]);
            }
            if j < s.len() {
                assert(rest[j - start] == s@[j as int]);
            }
            lemma_find_char_is(rest, 0, c, j - start);
        }
        let piece = copy_range(s, start, j);
        let ghost acc = r.deep_view();
        proof {
            assert(piece@ =~= rest.take(j - start));
        }
        r.push(piece);
        proof {
            assert(r.deep_view() =~~= acc.push(rest.take(j - start)));
        }
        if j == s.len() {
            proof {
                assert(rest =~= rest.take(j - start));
                assert(split_char(rest, c) == seq![rest]);
                assert(r.deep_view() =~~= split_char(whole, c));
            }
            return r;
        }
        proof {
            assert(split_char(rest, c) == seq![rest.take(j - start)] + split_char(
                rest.skip(j - start + 1),
                c,
            ));
            assert(rest.skip(j - start + 1) =~= s@.skip(j + 1));
            assert(r.deep_view() + split_char(s@.skip(j + 1), c) =~~= split_char(whole, c));
        }
        start = j + 1;
    }
}

/// Copy of `s[from..to]`.
pub fn copy_range(s: &[char], from: usize, to: usize) -> (r: Vec<char>)
    requires
        from <= to <= s.len(),
    ensures
        r@ == s@.subrange(from as int, to as int),
{
    let mut r: Vec<char> = Vec::new();
    let mut k = from;
    while k < to
        invariant
            from <= k <= to <= s.len(),
            r@ == s@.subrange(from as int, k as int),
        decreases to - k,
    {
        r.push(s[k]);
        proof {
            assert(s@.subrange(from as int, k + 1)
                =~= s@.subrange(from as int, k as int).push(s@[k as int]));
        }
        k = k + 1;
    }
    r
}

/// Copy of `s` with leading and trailing whitespace removed.
pub fn trim_chars(s: &[char]) -> (r: Vec<char>)
    ensures
        r@ == trim(s@),
{
    let start = scan_ws(s, 0);
    let r = subrange_trim_end(s, start, s.len());
    proof {
        assert(s@.subrange(start as int, s.len() as int) =~= s@.skip(skip_ws(s@, 0)));
    }
    r
}

// --- conversions between strings and character vectors ---

pub fn str_chars(s: &str) -> (r: Vec<char>)
    ensures
        r@ == s@,
{
    let n = s.unicode_len();
    let mut r: Vec<char> = Vec::new();
    let mut i: usize = 0;
    while i < n
        invariant
            i <= n,
            n == s@.len(),
            r@ == s@.take(i as int),
        decreases n - i,
    {
        r.push(s.get_char(i));
        proof {
            assert(s@.take(i + 1) =~= s@.take(i as int).push(s@[i as int]));
        }
        i = i + 1;
    }
    proof {
        assert(s@.take(n as int) =~= s@);
    }
    r
}

/// Relies on `String::push`: appends exactly the given character.
#[verifier::external_body]
pub(crate) fn push_char(s: &mut String, c: char)
    ensures
        final(s)@ == old(s)@.push(c),
{
    s.push(c);
}

/// Relies on `String::pop`: removes exactly the last character, and does
/// nothing on an empty string.
#[verifier::external_body]
pub(crate) fn pop_char(s: &mut String)
    ensures
        final(s)@ == if old(s)@.len() > 0 {
            old(s)@.drop_last()
        } else {
            old(s)@
        },
{
    s.pop();
}

pub fn chars_string(v: &[char]) -> (r: String)
    ensures
        r@ == v@,
{
    let mut r = String::new();
    let mut i: usize = 0;
    while i < v.len()
        invariant
            i <= v.len(),
            r@ == v@.take(i as int),
        decreases v.len() - i,
    {
        push_char(&mut r, v[i]);
        proof {
            assert(v@.take(i + 1) =~= v@.take(i as int).push(v@[i as int]));
        }
        i = i + 1;
    }
    proof {
        assert(v@.take(v.len() as int) =~= v@);
    }
    r
}

} // verus!
