//! Laws of the library: properties that relate several operations, stated
//! and proved once and for all inputs.

use vstd::prelude::*;
use crate::model::CliOptionView;
use crate::builder::command_view;
use crate::engine::{AppView, EditKey, Mode};
use crate::parser::{
    primary_line, short_only_line, long_only_line, primary_matches, short_only_matches,
    long_only_matches, raw_candidates, options_of, dedup_options, contains_identity,
    parse_help_view, lemma_dedup_identities, lemma_contains_identity_push,
};
use crate::text::split_char;

verus! {

/// An unselected option contributes nothing to the assembled command,
/// whatever its other fields hold.
pub proof fn lemma_unselected_contributes_nothing(o: CliOptionView)
    requires
        !o.selected,
    ensures
        o.to_arg() is None,
{
}

/// For a selected, well-formed option with a choice list and a flag token,
/// the contribution is the flag followed by the currently indexed choice.
pub proof fn lemma_selected_choice_arg(o: CliOptionView)
    requires
        o.wf(),
        o.selected,
        o.has_choices(),
        o.arg_flag() is Some,
    ensures
        o.to_arg() == Some(
            o.arg_flag()->Some_0 + seq![' '] + o.choices->Some_0[o.choice_index],
        ),
{
}

/// Cycling forward from the last choice wraps around to the first.
pub proof fn lemma_cycle_wraps(o: CliOptionView)
    requires
        o.wf(),
        o.has_choices(),
        o.choice_index == o.choices->Some_0.len() - 1,
    ensures
        o.cycled_next().choice_index == 0,
{
    let n = o.choices->Some_0.len() as int;
    assert(n % n == 0) by (nonlinear_arith)
        requires
            n > 0,
    ;
}

/// Toggling a value-taking option on and at once committing the untouched
/// (empty) edit buffer returns the engine to where it stood: the option is
/// deselected again and its value still empty.
pub proof fn lemma_toggle_then_empty_commit(s: AppView)
    requires
        s.wf(),
        s.options.len() > 0,
        !s.options[s.cursor].selected,
        s.options[s.cursor].takes_value,
        !s.options[s.cursor].has_choices(),
        s.options[s.cursor].value.len() == 0,
    ensures
        s.toggled_at_cursor().edited(EditKey::Confirm) == (AppView {
            mode: Mode::Normal,
            input_buffer: Seq::<char>::empty(),
            ..s
        }),
{
    let c = s.cursor;
    let o = s.options[c];
    let t = s.toggled_at_cursor();
    assert(t.options[c] == o.toggled());
    assert(o.toggled().committed(o.value) =~= o);
    assert(t.options.update(c, o) =~= s.options);
    assert(t.edited(EditKey::Confirm) =~~= (AppView {
        mode: Mode::Normal,
        input_buffer: Seq::<char>::empty(),
        ..s
    }));
}

/// The assembled command depends only on the current option states: two
/// toggles land in the same state, and so in the same command, whichever
/// of the two distinct options was toggled first.
pub proof fn lemma_toggle_order_irrelevant(
    base: Seq<Seq<char>>,
    opts: Seq<CliOptionView>,
    i: int,
    j: int,
)
    requires
        0 <= i < opts.len(),
        0 <= j < opts.len(),
        i != j,
    ensures
        command_view(base, opts.update(i, opts[i].toggled()).update(j, opts[j].toggled()))
            == command_view(base, opts.update(j, opts[j].toggled()).update(i, opts[i].toggled())),
{
    assert(opts.update(i, opts[i].toggled()).update(j, opts[j].toggled()) =~= opts.update(
        j,
        opts[j].toggled(),
    ).update(i, opts[i].toggled()));
}

/// Retained options have pairwise distinct flag identities: candidates
/// with an already-seen identity were dropped.
pub proof fn lemma_dedup_distinct(s: Seq<CliOptionView>)
    ensures
        forall|i: int, j: int|
            0 <= i < j < dedup_options(s).len() ==> (#[trigger] dedup_options(s)[i]).identity() != (
            #[trigger] dedup_options(s)[j]).identity(),
    decreases s.len(),
{
    if s.len() > 0 {
        let pre = s.drop_last();
        let d = dedup_options(pre);
        lemma_dedup_distinct(pre);
        if !contains_identity(pre, s.last().identity()) {
            lemma_dedup_identities(pre, s.last().identity());
            assert forall|i: int, j: int|
                0 <= i < j < dedup_options(s).len() implies (#[trigger] dedup_options(
                s,
            )[i]).identity() != (#[trigger] dedup_options(s)[j]).identity() by {
                if j == d.len() {
                    assert(dedup_options(s)[j] == s.last());
                    if dedup_options(s)[i].identity() == s.last().identity() {
                        assert(d[i].identity() == s.last().identity());
                        assert(contains_identity(d, s.last().identity()));
                    }
                } else {
                    assert(dedup_options(s)[i] == d[i]);
                    assert(dedup_options(s)[j] == d[j]);
                }
            }
        }
    }
}

/// The option-set invariant: no two options extracted from one help text
/// share a flag identity.
pub proof fn lemma_extracted_identities_distinct(text: Seq<char>)
    ensures
        forall|i: int, j: int|
            0 <= i < j < parse_help_view(text).len() ==> (#[trigger] parse_help_view(
                text,
            )[i]).identity() != (#[trigger] parse_help_view(text)[j]).identity(),
{
    lemma_dedup_distinct(options_of(raw_candidates(text)));
}

/// The first occurrence of each flag identity wins: a candidate whose
/// identity no earlier candidate carries is retained.
pub proof fn lemma_dedup_keeps_first(s: Seq<CliOptionView>, i: int)
    requires
        0 <= i < s.len(),
        forall|j: int| 0 <= j < i ==> (#[trigger] s[j]).identity() != s[i].identity(),
    ensures
        dedup_options(s).contains(s[i]),
    decreases s.len(),
{
    let pre = s.drop_last();
    if i == s.len() - 1 {
        assert(!contains_identity(pre, s.last().identity())) by {
            if contains_identity(pre, s.last().identity()) {
                let k = choose|k: int|
                    0 <= k < pre.len() && pre[k].identity() == s.last().identity();
                assert(s[k].identity() == s[i].identity());
            }
        }
        assert(dedup_options(s) == dedup_options(pre).push(s.last()));
        assert(dedup_options(s).last() == s[i]);
    } else {
        assert forall|j: int| 0 <= j < i implies (#[trigger] pre[j]).identity()
            != pre[i].identity() by {
            assert(pre[j] == s[j]);
        }
        lemma_dedup_keeps_first(pre, i);
        let k = choose|k: int| 0 <= k < dedup_options(pre).len() && dedup_options(pre)[k] == pre[i];
        if contains_identity(pre, s.last().identity()) {
            assert(dedup_options(s)[k] == s[i]);
        } else {
            assert(dedup_options(s)[k] == s[i]);
        }
    }
}

proof fn lemma_primary_matches_empty(lines: Seq<Seq<char>>)
    requires
        forall|k: int| 0 <= k < lines.len() ==> primary_line(#[trigger] lines[k]) is None,
    ensures
        primary_matches(lines) == Seq::<crate::parser::RawOptView>::empty(),
    decreases lines.len(),
{
    if lines.len() > 0 {
        assert forall|k: int| 0 <= k < lines.drop_last().len() implies primary_line(
            #[trigger] lines.drop_last()[k],
        ) is None by {
            assert(lines.drop_last()[k] == lines[k]);
        }
        lemma_primary_matches_empty(lines.drop_last());
        assert(primary_line(lines.last()) is None);
        assert(primary_matches(lines) =~= Seq::<crate::parser::RawOptView>::empty());
    }
}

proof fn lemma_short_only_matches_empty(lines: Seq<Seq<char>>)
    requires
        forall|k: int| 0 <= k < lines.len() ==> short_only_line(#[trigger] lines[k]) is None,
    ensures
        short_only_matches(lines) == Seq::<crate::parser::RawOptView>::empty(),
    decreases lines.len(),
{
    if lines.len() > 0 {
        assert forall|k: int| 0 <= k < lines.drop_last().len() implies short_only_line(
            #[trigger] lines.drop_last()[k],
        ) is None by {
            assert(lines.drop_last()[k] == lines[k]);
        }
        lemma_short_only_matches_empty(lines.drop_last());
        assert(short_only_matches(lines) =~= Seq::<crate::parser::RawOptView>::empty());
    }
}

proof fn lemma_long_only_matches_empty(lines: Seq<Seq<char>>)
    requires
        forall|k: int| 0 <= k < lines.len() ==> long_only_line(#[trigger] lines[k]) is None,
    ensures
        long_only_matches(lines) == Seq::<crate::parser::RawOptView>::empty(),
    decreases lines.len(),
{
    if lines.len() > 0 {
        assert forall|k: int| 0 <= k < lines.drop_last().len() implies long_only_line(
            #[trigger] lines.drop_last()[k],
        ) is None by {
            assert(lines.drop_last()[k] == lines[k]);
        }
        lemma_long_only_matches_empty(lines.drop_last());
        assert(long_only_matches(lines) =~= Seq::<crate::parser::RawOptView>::empty());
    }
}

/// A text none of whose lines matches any of the three line patterns
/// yields an empty option set.
pub proof fn lemma_no_matches_no_options(text: Seq<char>)
    requires
        forall|k: int|
            0 <= k < split_char(text, '\n').len() ==> primary_line(
                #[trigger] split_char(text, '\n')[k],
            ) is None,
        forall|k: int|
            0 <= k < split_char(text, '\n').len() ==> short_only_line(
                #[trigger] split_char(text, '\n')[k],
            ) is None,
        forall|k: int|
            0 <= k < split_char(text, '\n').len() ==> long_only_line(
                #[trigger] split_char(text, '\n')[k],
            ) is None,
    ensures
        parse_help_view(text) == Seq::<CliOptionView>::empty(),
{
    let lines = split_char(text, '\n');
    lemma_primary_matches_empty(lines);
    lemma_short_only_matches_empty(lines);
    lemma_long_only_matches_empty(lines);
    assert(raw_candidates(text) =~= Seq::<crate::parser::RawOptView>::empty());
}

} // verus!
