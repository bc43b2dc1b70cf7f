//! The option extractor: cascading heuristics that recover a structured,
//! deduplicated option list from free-form help text.
//!
//! A line is scanned for an optional short flag (`-x`, optionally followed
//! by a comma), an optional long flag (`--name`), an optional repeat marker
//! (`...`), an optional value placeholder (`<HINT>` after one `=` or
//! whitespace separator, or `=WORD`), then at least two whitespace
//! characters and a non-empty description. A line contributes an option
//! only if a short or a long flag matched. If no line matches, two fallback
//! passes look for a short flag alone and a long flag alone. Candidates are
//! deduplicated by flag identity, keeping the first occurrence.

use vstd::prelude::*;
use crate::model::{CliOption, CliOptionView};
use crate::text::{
    is_ws_char, is_alpha_char, is_word_char, skip_ws, word_end, nonws_end, find_char, trim_end,
    trim, split_char, is_ws, is_alpha, is_word, scan_ws, scan_word, scan_nonws, scan_to_char,
    subrange_trim_end, copy_range, split_at_char, str_chars, chars_string, trim_chars,
};

verus! {

/// Mathematical view of one raw line match, before choice extraction.
#[verifier::ext_equal]
pub ghost struct RawOptView {
    pub short: Option<char>,
    pub long: Option<Seq<char>>,
    pub hint: Option<Seq<char>>,
    pub desc: Seq<char>,
}

// --- the line grammar, as spec functions ---

/// Optional short flag at `i`: `-` followed by one letter, then an optional
/// comma. Returns the letter and the position after the token.
pub open spec fn short_at(s: Seq<char>, i: int) -> (Option<char>, int) {
    if i + 1 < s.len() && s[i] == '-' && is_alpha_char(s[i + 1]) {
        if i + 2 < s.len() && s[i + 2] == ',' {
            (Some(s[i + 1]), i + 3)
        } else {
            (Some(s[i + 1]), i + 2)
        }
    } else {
        (None, i)
    }
}

/// Optional long flag after optional whitespace: `--` followed by a
/// non-empty run of word characters. When absent the position is unchanged,
/// so the whitespace still counts towards the description gap.
pub open spec fn long_at(s: Seq<char>, i: int) -> (Option<Seq<char>>, int) {
    let k = skip_ws(s, i);
    if k + 2 < s.len() && s[k] == '-' && s[k + 1] == '-' && is_word_char(s[k + 2]) {
        (Some(s.subrange(k + 2, word_end(s, k + 2))), word_end(s, k + 2))
    } else {
        (None, i)
    }
}

/// Optional repeat marker `...` directly after the flag tokens.
pub open spec fn ellipsis_at(s: Seq<char>, i: int) -> int {
    if i + 2 < s.len() && s[i] == '.' && s[i + 1] == '.' && s[i + 2] == '.' {
        i + 3
    } else {
        i
    }
}

/// Optional value placeholder: `<HINT>` after a single `=` or whitespace
/// separator (the hint is the non-empty text up to the first `>`), or
/// `=WORD` with a non-empty run of non-whitespace characters.
pub open spec fn hint_at(s: Seq<char>, i: int) -> (Option<Seq<char>>, int) {
    if i + 1 < s.len() && (s[i] == '=' || is_ws_char(s[i])) && s[i + 1] == '<' && find_char(
        s,
        i + 2,
        '>',
    ) < s.len() && find_char(s, i + 2, '>') > i + 2 {
        (Some(s.subrange(i + 2, find_char(s, i + 2, '>'))), find_char(s, i + 2, '>') + 1)
    } else if i + 1 < s.len() && s[i] == '=' && !is_ws_char(s[i + 1]) {
        (Some(s.subrange(i + 1, nonws_end(s, i + 1))), nonws_end(s, i + 1))
    } else {
        (None, i)
    }
}

/// The gap and the description: at least two whitespace characters, then a
/// non-empty rest of the line, taken with trailing whitespace trimmed.
pub open spec fn gap_desc_at(s: Seq<char>, i: int) -> Option<Seq<char>> {
    let g = skip_ws(s, i);
    if g - i >= 2 && g < s.len() {
        Some(trim_end(s.skip(g)))
    } else {
        None
    }
}

/// The primary heuristic on one line: optional short flag, optional long
/// flag, optional repeat marker, optional value placeholder, gap,
/// description. The line contributes only if a short or long flag matched.
pub open spec fn primary_line(s: Seq<char>) -> Option<RawOptView> {
    let p0 = skip_ws(s, 0);
    let short = short_at(s, p0);
    let long = long_at(s, short.1);
    let p3 = ellipsis_at(s, long.1);
    let hint = hint_at(s, p3);
    if short.0 is Some || long.0 is Some {
        match gap_desc_at(s, hint.1) {
            Some(desc) => Some(
                RawOptView { short: short.0, long: long.0, hint: hint.0, desc: desc },
            ),
            None => None,
        }
    } else {
        None
    }
}

/// Fallback: a line holding only a short flag, a gap and a description.
pub open spec fn short_only_line(s: Seq<char>) -> Option<RawOptView> {
    let p0 = skip_ws(s, 0);
    if p0 + 1 < s.len() && s[p0] == '-' && is_alpha_char(s[p0 + 1]) {
        match gap_desc_at(s, p0 + 2) {
            Some(desc) => Some(
                RawOptView { short: Some(s[p0 + 1]), long: None, hint: None, desc: desc },
            ),
            None => None,
        }
    } else {
        None
    }
}

/// Fallback: a line holding only a long flag, an optional value
/// placeholder, a gap and a description.
pub open spec fn long_only_line(s: Seq<char>) -> Option<RawOptView> {
    let p0 = skip_ws(s, 0);
    if p0 + 2 < s.len() && s[p0] == '-' && s[p0 + 1] == '-' && is_word_char(s[p0 + 2]) {
        let e = word_end(s, p0 + 2);
        let hint = hint_at(s, e);
        match gap_desc_at(s, hint.1) {
            Some(desc) => Some(
                RawOptView {
                    short: None,
                    long: Some(s.subrange(p0 + 2, e)),
                    hint: hint.0,
                    desc: desc,
                },
            ),
            None => None,
        }
    } else {
        None
    }
}

// --- raw matches, executable ---

/// One raw line match: the pieces of a matched line, before the description
/// is searched for a choice list.
pub struct RawOpt {
    pub short: Option<char>,
    pub long: Option<Vec<char>>,
    pub hint: Option<Vec<char>>,
    pub desc: Vec<char>,
}

impl View for RawOpt {
    type V = RawOptView;

    open spec fn view(&self) -> RawOptView {
        RawOptView {
            short: self.short,
            long: match self.long {
                Some(l) => Some(l@),
                None => None,
            },
            hint: match self.hint {
                Some(h) => Some(h@),
                None => None,
            },
            desc: self.desc@,
        }
    }
}

impl DeepView for RawOpt {
    type V = RawOptView;

    open spec fn deep_view(&self) -> RawOptView {
        self.view()
    }
}

fn parse_primary_line(line: &[char]) -> (r: Option<RawOpt>)
    ensures
        r.deep_view() == primary_line(line@),
{
    let n = line.len();
    let p0 = scan_ws(line, 0);
    let mut short: Option<char> = None;
    let mut p1 = p0;
    if p0 < n && p0 + 1 < n && line[p0] == '-' && is_alpha(line[p0 + 1]) {
        short = Some(line[p0 + 1]);
        p1 = p0 + 2;
        if p1 < n && line[p1] == ',' {
            p1 = p1 + 1;
        }
    }
    proof {
        assert(short_at(line@, p0 as int) == (short, p1 as int));
    }
    let q = scan_ws(line, p1);
    let mut long: Option<Vec<char>> = None;
    let mut p2 = p1;
    if q < n && q + 1 < n && q + 2 < n && line[q] == '-' && line[q + 1] == '-' && is_word(
        line[q + 2],
    ) {
        let e = scan_word(line, q + 2);
        long = Some(copy_range(line, q + 2, e));
        p2 = e;
    }
    proof {
        assert(long_at(line@, p1 as int).1 == p2 as int);
        match &long {
            Some(l) => assert(long_at(line@, p1 as int).0 == Some(l@)),
            None => assert(long_at(line@, p1 as int).0 is None),
        }
    }
    let mut p3 = p2;
    if p2 < n && p2 + 1 < n && p2 + 2 < n && line[p2] == '.' && line[p2 + 1] == '.' && line[p2
        + 2] == '.' {
        p3 = p2 + 3;
    }
    proof {
        assert(ellipsis_at(line@, p2 as int) == p3 as int);
    }
    let (hint, p4) = parse_hint(line, p3);
    if short.is_some() || long.is_some() {
        let g = scan_ws(line, p4);
        if g - p4 >= 2 && g < n {
            let desc = subrange_trim_end(line, g, n);
            proof {
                assert(line@.subrange(g as int, n as int) =~= line@.skip(g as int));
            }
            Some(RawOpt { short, long, hint, desc })
        } else {
            None
        }
    } else {
        None
    }
}

/// Parse an optional value placeholder at `i`, exactly [`hint_at`].
fn parse_hint(line: &[char], i: usize) -> (r: (Option<Vec<char>>, usize))
    requires
        i <= line.len(),
    ensures
        hint_at(line@, i as int).1 == r.1 as int,
        match r.0 {
            Some(h) => hint_at(line@, i as int).0 == Some(h@),
            None => hint_at(line@, i as int).0 is None,
        },
        i <= r.1 <= line.len(),
{
    let n = line.len();
    if i < n && i + 1 < n && (line[i] == '=' || is_ws(line[i])) && line[i + 1] == '<' {
        let e = scan_to_char(line, i + 2, '>');
        if e < n && e > i + 2 {
            return (Some(copy_range(line, i + 2, e)), e + 1);
        }
    }
    if i < n && i + 1 < n && line[i] == '=' && !is_ws(line[i + 1]) {
        let e = scan_nonws(line, i + 1);
        return (Some(copy_range(line, i + 1, e)), e);
    }
    (None, i)
}

fn parse_short_only_line(line: &[char]) -> (r: Option<RawOpt>)
    ensures
        r.deep_view() == short_only_line(line@),
{
    let n = line.len();
    let p0 = scan_ws(line, 0);
    if p0 < n && p0 + 1 < n && line[p0] == '-' && is_alpha(line[p0 + 1]) {
        let g = scan_ws(line, p0 + 2);
        if g - (p0 + 2) >= 2 && g < n {
            let desc = subrange_trim_end(line, g, n);
            proof {
                assert(line@.subrange(g as int, n as int) =~= line@.skip(g as int));
            }
            return Some(
                RawOpt { short: Some(line[p0 + 1]), long: None, hint: None, desc: desc },
            );
        }
        return None;
    }
    None
}

// --- choice-list extraction from a description ---

/// Case-insensitive match of `a` against the lower-case letter `b`.
pub open spec fn matches_ci(a: char, b: char) -> bool {
    a == b || ('A' <= a && a <= 'Z' && a as u32 + 32 == b as u32)
}

#[verifier::when_used_as_spec(matches_ci)]
fn char_ci(a: char, b: char) -> (r: bool)
    ensures
        r == matches_ci(a, b),
{
    a == b || ('A' <= a && a <= 'Z' && a as u32 + 32 == b as u32)
}

/// The word `possible`, case-insensitively, starting at `i`.
pub open spec fn possible_at(s: Seq<char>, i: int) -> bool {
    i + 7 < s.len() && matches_ci(s[i], 'p') && matches_ci(s[i + 1], 'o') && matches_ci(
        s[i + 2],
        's',
    ) && matches_ci(s[i + 3], 's') && matches_ci(s[i + 4], 'i') && matches_ci(s[i + 5], 'b')
        && matches_ci(s[i + 6], 'l') && matches_ci(s[i + 7], 'e')
}

/// The word `value`, case-insensitively, starting at `i`.
pub open spec fn value_at(s: Seq<char>, i: int) -> bool {
    i + 4 < s.len() && matches_ci(s[i], 'v') && matches_ci(s[i + 1], 'a') && matches_ci(
        s[i + 2],
        'l',
    ) && matches_ci(s[i + 3], 'u') && matches_ci(s[i + 4], 'e')
}

/// A bracketed choice enumeration starting at `i`: `[`, an optional
/// case-insensitive `possible` followed by whitespace, case-insensitive
/// `value` or `values`, `:`, optional whitespace, then at least one
/// character before the closing `]`. Returns the captured list text and
/// the position just after the `]`.
pub open spec fn annot_at(s: Seq<char>, i: int) -> Option<(Seq<char>, int)> {
    if 0 <= i < s.len() && s[i] == '[' {
        let j = if possible_at(s, i + 1) && skip_ws(s, i + 9) > i + 9 {
            skip_ws(s, i + 9)
        } else {
            i + 1
        };
        if value_at(s, j) {
            let j2 = if j + 5 < s.len() && matches_ci(s[j + 5], 's') {
                j + 6
            } else {
                j + 5
            };
            if j2 < s.len() && s[j2] == ':' {
                let c0 = skip_ws(s, j2 + 1);
                let e = find_char(s, c0, ']');
                if e < s.len() && e > c0 {
                    Some((s.subrange(c0, e), e + 1))
                } else {
                    None
                }
            } else {
                None
            }
        } else {
            None
        }
    } else {
        None
    }
}

/// The first position at or after `i` where a choice enumeration starts,
/// or the length of `s` if there is none.
pub open spec fn find_annot(s: Seq<char>, i: int) -> int
    decreases s.len() - i,
{
    if 0 <= i < s.len() {
        if annot_at(s, i) is Some {
            i
        } else {
            find_annot(s, i + 1)
        }
    } else {
        i
    }
}

pub proof fn lemma_find_annot(s: Seq<char>, i: int)
    requires
        0 <= i <= s.len(),
    ensures
        i <= find_annot(s, i) <= s.len(),
        find_annot(s, i) < s.len() ==> annot_at(s, find_annot(s, i)) is Some,
    decreases s.len() - i,
{
    if i < s.len() && annot_at(s, i) is None {
        lemma_find_annot(s, i + 1);
    }
}

/// The captured list split on commas, each entry trimmed, empty entries
/// dropped, order kept.
pub open spec fn clean_entries(parts: Seq<Seq<char>>) -> Seq<Seq<char>>
    decreases parts.len(),
{
    if parts.len() == 0 {
        Seq::empty()
    } else {
        let rest = clean_entries(parts.drop_last());
        if trim(parts.last()).len() > 0 {
            rest.push(trim(parts.last()))
        } else {
            rest
        }
    }
}

/// The description and choice list after searching for a bracketed
/// enumeration: when one with at least one non-empty entry is found, the
/// choices are that list and the description loses the bracketed fragment,
/// trimmed; otherwise both are unchanged and there are no choices.
pub open spec fn extract_choices_view(desc: Seq<char>) -> (Seq<char>, Option<Seq<Seq<char>>>) {
    let i = find_annot(desc, 0);
    if 0 <= i < desc.len() && annot_at(desc, i) is Some {
        let cap_end = annot_at(desc, i)->Some_0;
        let entries = clean_entries(split_char(cap_end.0, ','));
        if entries.len() > 0 {
            (trim(desc.take(i) + desc.skip(cap_end.1)), Some(entries))
        } else {
            (desc, None)
        }
    } else {
        (desc, None)
    }
}

/// Match a choice enumeration at `i`, exactly [`annot_at`].
fn annot_match(s: &[char], i: usize) -> (r: Option<(Vec<char>, usize)>)
    requires
        i < s.len(),
    ensures
        match r {
            Some(p) => annot_at(s@, i as int) == Some((p.0@, p.1 as int)) && p.1 <= s.len(),
            None => annot_at(s@, i as int) is None,
        },
{
    let n = s.len();
    if s[i] != '[' {
        return None;
    }
    let mut j = i + 1;
    if n - i > 8 && char_ci(s[i + 1], 'p') && char_ci(s[i + 2], 'o') && char_ci(s[i + 3], 's')
        && char_ci(s[i + 4], 's') && char_ci(s[i + 5], 'i') && char_ci(s[i + 6], 'b') && char_ci(
        s[i + 7],
        'l',
    ) && char_ci(s[i + 8], 'e') {
        let w = scan_ws(s, i + 9);
        if w > i + 9 {
            j = w;
        }
    }
    proof {
        assert(j as int == if possible_at(s@, i + 1) && skip_ws(s@, i + 9) > i + 9 {
            skip_ws(s@, i + 9)
        } else {
            i + 1
        });
    }
    if n - j > 4 && char_ci(s[j], 'v') && char_ci(s[j + 1], 'a') && char_ci(s[j + 2], 'l')
        && char_ci(s[j + 3], 'u') && char_ci(s[j + 4], 'e') {
        let mut j2 = j + 5;
        if j2 < n && char_ci(s[j2], 's') {
            j2 = j2 + 1;
        }
        if j2 < n && s[j2] == ':' {
            let c0 = scan_ws(s, j2 + 1);
            let e = scan_to_char(s, c0, ']');
            if e < n && e > c0 {
                return Some((copy_range(s, c0, e), e + 1));
            }
        }
    }
    None
}

/// First position of a choice enumeration, exactly [`find_annot`] from 0.
fn scan_annot(s: &[char]) -> (r: usize)
    ensures
        r as int == find_annot(s@, 0),
        r <= s.len(),
{
    let mut i: usize = 0;
    while i < s.len()
        invariant
            i <= s.len(),
            find_annot(s@, 0) == find_annot(s@, i as int),
        decreases s.len() - i,
    {
        if annot_match(s, i).is_some() {
            return i;
        }
        i = i + 1;
    }
    i
}

/// Split a description into the cleaned description and the extracted
/// choice list, exactly [`extract_choices_view`].
fn extract_choices(desc: &[char]) -> (r: (Vec<char>, Option<Vec<Vec<char>>>))
    ensures
        r.0@ == extract_choices_view(desc@).0,
        match r.1 {
            Some(c) => extract_choices_view(desc@).1 == Some(c.deep_view()),
            None => extract_choices_view(desc@).1 is None,
        },
{
    let n = desc.len();
    let i = scan_annot(desc);
    proof {
        lemma_find_annot(desc@, 0);
    }
    if i < n {
        match annot_match(desc, i) {
            Some((cap, end)) => {
                let parts = split_at_char(cap.as_slice(), ',');
                let ghost parts_dv = parts.deep_view();
                let mut entries: Vec<Vec<char>> = Vec::new();
                let mut k: usize = 0;
                proof {
                    assert(entries.deep_view() =~~= clean_entries(parts_dv.take(0)));
                }
                while k < parts.len()
                    invariant
                        k <= parts.len(),
                        parts_dv == parts.deep_view(),
                        entries.deep_view() == clean_entries(parts_dv.take(k as int)),
                    decreases parts.len() - k,
                {
                    let t = trim_chars(parts[k].as_slice());
                    let ghost acc = entries.deep_view();
                    proof {
                        assert(parts_dv[k as int] =~= parts@[k as int]@);
                        assert(parts_dv.take(k + 1).drop_last() =~= parts_dv.take(k as int));
                        assert(parts_dv.take(k + 1).last() == parts_dv[k as int]);
                    }
                    if t.len() > 0 {
                        entries.push(t);
                        proof {
                            assert(entries.deep_view() =~~= acc.push(trim(parts_dv[k as int])));
                        }
                    }
                    k = k + 1;
                }
                proof {
                    assert(parts_dv.take(parts.len() as int) =~= parts_dv);
                }
                if entries.len() > 0 {
                    let mut cleaned = copy_range(desc, 0, i);
                    let mut tail = copy_range(desc, end, n);
                    cleaned.append(&mut tail);
                    proof {
                        assert(cleaned@ =~= desc@.take(i as int) + desc@.skip(end as int));
                    }
                    let cleaned = trim_chars(cleaned.as_slice());
                    (cleaned, Some(entries))
                } else {
                    (copy_range(desc, 0, n), None)
                }
            },
            None => {
                proof {
                    assert(false);
                }
                (Vec::new(), None)
            },
        }
    } else {
        (copy_range(desc, 0, n), None)
    }
}

fn parse_long_only_line(line: &[char]) -> (r: Option<RawOpt>)
    ensures
        r.deep_view() == long_only_line(line@),
{
    let n = line.len();
    let p0 = scan_ws(line, 0);
    if p0 < n && p0 + 1 < n && p0 + 2 < n && line[p0] == '-' && line[p0 + 1] == '-' && is_word(
        line[p0 + 2],
    ) {
        let e = scan_word(line, p0 + 2);
        let (hint, p1) = parse_hint(line, e);
        let g = scan_ws(line, p1);
        if g - p1 >= 2 && g < n {
            let desc = subrange_trim_end(line, g, n);
            proof {
                assert(line@.subrange(g as int, n as int) =~= line@.skip(g as int));
            }
            return Some(
                RawOpt {
                    short: None,
                    long: Some(copy_range(line, p0 + 2, e)),
                    hint: hint,
                    desc: desc,
                },
            );
        }
        return None;
    }
    None
}


// --- whole-text passes ---

/// The primary-pass matches over the lines, in order.
pub open spec fn primary_matches(lines: Seq<Seq<char>>) -> Seq<RawOptView>
    decreases lines.len(),
{
    if lines.len() == 0 {
        Seq::empty()
    } else {
        primary_matches(lines.drop_last()) + match primary_line(lines.last()) {
            Some(r) => seq![r],
            None => Seq::empty(),
        }
    }
}

/// The short-flag fallback matches over the lines, in order.
pub open spec fn short_only_matches(lines: Seq<Seq<char>>) -> Seq<RawOptView>
    decreases lines.len(),
{
    if lines.len() == 0 {
        Seq::empty()
    } else {
        short_only_matches(lines.drop_last()) + match short_only_line(lines.last()) {
            Some(r) => seq![r],
            None => Seq::empty(),
        }
    }
}

/// The long-flag fallback matches over the lines, in order.
pub open spec fn long_only_matches(lines: Seq<Seq<char>>) -> Seq<RawOptView>
    decreases lines.len(),
{
    if lines.len() == 0 {
        Seq::empty()
    } else {
        long_only_matches(lines.drop_last()) + match long_only_line(lines.last()) {
            Some(r) => seq![r],
            None => Seq::empty(),
        }
    }
}

/// All raw candidates of a help text: the primary pass over its lines, or,
/// when that finds nothing, the two fallback passes merged.
pub open spec fn raw_candidates(text: Seq<char>) -> Seq<RawOptView> {
    let lines = split_char(text, '\n');
    if primary_matches(lines).len() > 0 {
        primary_matches(lines)
    } else {
        short_only_matches(lines) + long_only_matches(lines)
    }
}

/// The finished option made of one raw match: choices extracted from the
/// description, `takes_value` exactly when a value placeholder or a choice
/// list is present, interaction state at its defaults.
pub open spec fn option_of_raw(r: RawOptView) -> CliOptionView {
    let dc = extract_choices_view(r.desc);
    CliOptionView {
        short: r.short,
        long: r.long,
        description: dc.0,
        takes_value: r.hint is Some || dc.1 is Some,
        value_hint: r.hint,
        choices: dc.1,
        selected: false,
        value: Seq::empty(),
        choice_index: 0,
    }
}

/// The finished options of all raw matches, in order.
pub open spec fn options_of(raws: Seq<RawOptView>) -> Seq<CliOptionView>
    decreases raws.len(),
{
    if raws.len() == 0 {
        Seq::empty()
    } else {
        options_of(raws.drop_last()).push(option_of_raw(raws.last()))
    }
}

/// Whether some option in `s` has flag identity `id`.
pub open spec fn contains_identity(
    s: Seq<CliOptionView>,
    id: (Option<char>, Option<Seq<char>>),
) -> bool {
    exists|k: int| 0 <= k < s.len() && s[k].identity() == id
}

/// First-occurrence deduplication by flag identity, order kept: an option
/// stays exactly when no earlier candidate has the same identity.
pub open spec fn dedup_options(s: Seq<CliOptionView>) -> Seq<CliOptionView>
    decreases s.len(),
{
    if s.len() == 0 {
        Seq::empty()
    } else {
        let rest = dedup_options(s.drop_last());
        if contains_identity(s.drop_last(), s.last().identity()) {
            rest
        } else {
            rest.push(s.last())
        }
    }
}

/// The full extraction pipeline on a help text.
pub open spec fn parse_help_view(text: Seq<char>) -> Seq<CliOptionView> {
    dedup_options(options_of(raw_candidates(text)))
}

pub proof fn lemma_contains_identity_push(
    s: Seq<CliOptionView>,
    x: CliOptionView,
    id: (Option<char>, Option<Seq<char>>),
)
    ensures
        contains_identity(s.push(x), id) <==> (contains_identity(s, id) || x.identity() == id),
{
    if contains_identity(s, id) {
        let k = choose|k: int| 0 <= k < s.len() && s[k].identity() == id;
        assert(s.push(x)[k].identity() == id);
    }
    if x.identity() == id {
        assert(s.push(x)[s.len() as int].identity() == id);
    }
    if contains_identity(s.push(x), id) && x.identity() != id {
        let k = choose|k: int| 0 <= k < s.push(x).len() && s.push(x)[k].identity() == id;
        assert(0 <= k < s.len() && s[k].identity() == id);
    }
}

/// Deduplication keeps exactly the identities that were present.
pub proof fn lemma_dedup_identities(s: Seq<CliOptionView>, id: (Option<char>, Option<Seq<char>>))
    ensures
        contains_identity(dedup_options(s), id) <==> contains_identity(s, id),
    decreases s.len(),
{
    if s.len() > 0 {
        let pre = s.drop_last();
        lemma_dedup_identities(pre, id);
        assert(s == pre.push(s.last()));
        lemma_contains_identity_push(pre, s.last(), id);
        if !contains_identity(pre, s.last().identity()) {
            lemma_contains_identity_push(dedup_options(pre), s.last(), id);
        }
    }
}

// --- the executable passes and pipeline ---

fn primary_pass(lines: &Vec<Vec<char>>) -> (r: Vec<RawOpt>)
    ensures
        r.deep_view() == primary_matches(lines.deep_view()),
{
    let ghost ldv = lines.deep_view();
    let mut r: Vec<RawOpt> = Vec::new();
    proof {
        assert(r.deep_view() =~= primary_matches(ldv.take(0)));
    }
    let mut i: usize = 0;
    while i < lines.len()
        invariant
            i <= lines.len(),
            ldv == lines.deep_view(),
            r.deep_view() == primary_matches(ldv.take(i as int)),
        decreases lines.len() - i,
    {
        let ghost acc = r.deep_view();
        proof {
            assert(ldv.take(i + 1).drop_last() =~= ldv.take(i as int));
            assert(ldv.take(i + 1).last() == ldv[i as int]);
            assert(ldv[i as int] =~= lines@[i as int]@);
        }
        match parse_primary_line(lines[i].as_slice()) {
            Some(o) => {
                let ghost ov = o@;
                r.push(o);
                proof {
                    assert(r.deep_view() =~= acc.push(ov));
                    assert(acc.push(ov) =~= acc + seq![ov]);
                }
            },
            None => {
                proof {
                    assert(acc =~= acc + Seq::<RawOptView>::empty());
                }
            },
        }
        i = i + 1;
    }
    proof {
        assert(ldv.take(lines.len() as int) =~= ldv);
    }
    r
}

fn short_only_pass(lines: &Vec<Vec<char>>) -> (r: Vec<RawOpt>)
    ensures
        r.deep_view() == short_only_matches(lines.deep_view()),
{
    let ghost ldv = lines.deep_view();
    let mut r: Vec<RawOpt> = Vec::new();
    proof {
        assert(r.deep_view() =~= short_only_matches(ldv.take(0)));
    }
    let mut i: usize = 0;
    while i < lines.len()
        invariant
            i <= lines.len(),
            ldv == lines.deep_view(),
            r.deep_view() == short_only_matches(ldv.take(i as int)),
        decreases lines.len() - i,
    {
        let ghost acc = r.deep_view();
        proof {
            assert(ldv.take(i + 1).drop_last() =~= ldv.take(i as int));
            assert(ldv.take(i + 1).last() == ldv[i as int]);
            assert(ldv[i as int] =~= lines@[i as int]@);
        }
        match parse_short_only_line(lines[i].as_slice()) {
            Some(o) => {
                let ghost ov = o@;
                r.push(o);
                proof {
                    assert(r.deep_view() =~= acc.push(ov));
                    assert(acc.push(ov) =~= acc + seq![ov]);
                }
            },
            None => {
                proof {
                    assert(acc =~= acc + Seq::<RawOptView>::empty());
                }
            },
        }
        i = i + 1;
    }
    proof {
        assert(ldv.take(lines.len() as int) =~= ldv);
    }
    r
}

fn long_only_pass(lines: &Vec<Vec<char>>) -> (r: Vec<RawOpt>)
    ensures
        r.deep_view() == long_only_matches(lines.deep_view()),
{
    let ghost ldv = lines.deep_view();
    let mut r: Vec<RawOpt> = Vec::new();
    proof {
        assert(r.deep_view() =~= long_only_matches(ldv.take(0)));
    }
    let mut i: usize = 0;
    while i < lines.len()
        invariant
            i <= lines.len(),
            ldv == lines.deep_view(),
            r.deep_view() == long_only_matches(ldv.take(i as int)),
        decreases lines.len() - i,
    {
        let ghost acc = r.deep_view();
        proof {
            assert(ldv.take(i + 1).drop_last() =~= ldv.take(i as int));
            assert(ldv.take(i + 1).last() == ldv[i as int]);
            assert(ldv[i as int] =~= lines@[i as int]@);
        }
        match parse_long_only_line(lines[i].as_slice()) {
            Some(o) => {
                let ghost ov = o@;
                r.push(o);
                proof {
                    assert(r.deep_view() =~= acc.push(ov));
                    assert(acc.push(ov) =~= acc + seq![ov]);
                }
            },
            None => {
                proof {
                    assert(acc =~= acc + Seq::<RawOptView>::empty());
                }
            },
        }
        i = i + 1;
    }
    proof {
        assert(ldv.take(lines.len() as int) =~= ldv);
    }
    r
}

/// Build the finished option of one raw match, exactly [`option_of_raw`].
fn finish_option(raw: &RawOpt) -> (r: CliOption)
    ensures
        r@ == option_of_raw(raw@),
        r.wf(),
{
    let dc = extract_choices(raw.desc.as_slice());
    let description = chars_string(dc.0.as_slice());
    let long = match &raw.long {
        Some(l) => Some(chars_string(l.as_slice())),
        None => None,
    };
    let hint = match &raw.hint {
        Some(h) => Some(chars_string(h.as_slice())),
        None => None,
    };
    let choices: Option<Vec<String>> = match dc.1 {
        Some(cs) => {
            let ghost csdv = cs.deep_view();
            let mut built: Vec<String> = Vec::new();
            let mut k: usize = 0;
            while k < cs.len()
                invariant
                    k <= cs.len(),
                    csdv == cs.deep_view(),
                    built.deep_view() == csdv.take(k as int),
                decreases cs.len() - k,
            {
                let ghost acc = built.deep_view();
                built.push(chars_string(cs[k].as_slice()));
                proof {
                    assert(csdv[k as int] =~= cs@[k as int]@);
                    assert(built.deep_view() =~~= acc.push(csdv[k as int]));
                    assert(acc.push(csdv[k as int]) =~~= csdv.take(k + 1));
                }
                k = k + 1;
            }
            proof {
                assert(csdv.take(cs.len() as int) =~~= csdv);
            }
            Some(built)
        },
        None => None,
    };
    let takes_value = hint.is_some() || choices.is_some();
    let r = CliOption::new(raw.short, long, description, takes_value, hint, choices);
    proof {
        assert(r@ =~~= option_of_raw(raw@));
    }
    r
}

/// Whether two options are the same flag.
fn same_identity(a: &CliOption, b: &CliOption) -> (r: bool)
    ensures
        r == (a@.identity() == b@.identity()),
{
    let sh = match (&a.short, &b.short) {
        (Some(x), Some(y)) => *x == *y,
        (None, None) => true,
        _ => false,
    };
    let lo = match (&a.long, &b.long) {
        (Some(x), Some(y)) => *x == *y,
        (None, None) => true,
        _ => false,
    };
    sh && lo
}

/// Whether some already-retained option has the same identity as `o`.
fn contains_same(r: &Vec<CliOption>, o: &CliOption) -> (b: bool)
    ensures
        b == contains_identity(r.deep_view(), o@.identity()),
{
    let mut k: usize = 0;
    while k < r.len()
        invariant
            k <= r.len(),
            forall|m: int| 0 <= m < k ==> (#[trigger] r.deep_view()[m]).identity()
                != o@.identity(),
        decreases r.len() - k,
    {
        if same_identity(&r[k], o) {
            proof {
                assert(r.deep_view()[k as int].identity() == o@.identity());
            }
            return true;
        }
        k = k + 1;
    }
    false
}

/// Extract the option set from raw help text.
///
/// The result is the primary heuristic applied to every line — or, when it
/// matches no line, the two fallback passes merged — with each description
/// searched for a choice list, deduplicated by flag identity keeping first
/// occurrences, in line order. Every returned option is well-formed,
/// unselected, with an empty value and the first choice indexed.
pub fn parse_help(input: &str) -> (r: Vec<CliOption>)
    ensures
        r.deep_view() == parse_help_view(input@),
        forall|k: int| 0 <= k < r@.len() ==> #[trigger] r@[k].wf(),
{
    let chars = str_chars(input);
    let lines = split_at_char(chars.as_slice(), '\n');
    let ghost lines_dv = lines.deep_view();
    let prim = primary_pass(&lines);
    let raws: Vec<RawOpt> = if prim.len() > 0 {
        prim
    } else {
        let mut a = short_only_pass(&lines);
        let mut b = long_only_pass(&lines);
        a.append(&mut b);
        proof {
            assert(a.deep_view() =~= short_only_matches(lines_dv) + long_only_matches(lines_dv));
        }
        a
    };
    let ghost rdv = raws.deep_view();
    proof {
        assert(rdv == raw_candidates(input@));
    }
    let mut r: Vec<CliOption> = Vec::new();
    let mut i: usize = 0;
    proof {
        assert(r.deep_view() =~= dedup_options(options_of(rdv.take(0))));
    }
    while i < raws.len()
        invariant
            i <= raws.len(),
            rdv == raws.deep_view(),
            r.deep_view() == dedup_options(options_of(rdv.take(i as int))),
            forall|k: int| 0 <= k < r@.len() ==> (#[trigger] r@[k]).wf(),
        decreases raws.len() - i,
    {
        let opt = finish_option(&raws[i]);
        let ghost x = options_of(rdv.take(i as int));
        let ghost y = opt@;
        proof {
            assert(rdv[i as int] =~= raws@[i as int]@);
            assert(options_of(rdv.take(i + 1)).drop_last() =~= x) by {
                assert(rdv.take(i + 1).drop_last() =~= rdv.take(i as int));
            }
            assert(options_of(rdv.take(i + 1)) == x.push(y)) by {
                assert(rdv.take(i + 1).drop_last() =~= rdv.take(i as int));
                assert(rdv.take(i + 1).last() == rdv[i as int]);
            }
            lemma_dedup_identities(x, y.identity());
        }
        let dup = contains_same(&r, &opt);
        let ghost acc = r.deep_view();
        if !dup {
            r.push(opt);
            proof {
                assert(r.deep_view() =~= acc.push(y));
            }
        }
        proof {
            assert(x.push(y).drop_last() =~= x);
            assert(r.deep_view() == dedup_options(options_of(rdv.take(i + 1))));
        }
        i = i + 1;
    }
    proof {
        assert(rdv.take(raws.len() as int) =~= rdv);
    }
    r
}
} // verus!