//! Deterministic command assembly: base tokens followed by the contribution
//! of every selected option, in extraction order, joined by single spaces.

use vstd::prelude::*;
use vstd::string::StringExecFns;
use crate::model::{CliOption, CliOptionView};

verus! {

/// The arguments contributed by `opts`, in order: `to_arg` of each option
/// that contributes one.
pub open spec fn option_args(opts: Seq<CliOptionView>) -> Seq<Seq<char>>
    decreases opts.len(),
{
    if opts.len() == 0 {
        Seq::empty()
    } else {
        option_args(opts.drop_last()) + match opts.last().to_arg() {
            Some(a) => seq![a],
            None => Seq::empty(),
        }
    }
}

/// `parts` joined with a single space between consecutive parts.
pub open spec fn join_space(parts: Seq<Seq<char>>) -> Seq<char>
    decreases parts.len(),
{
    if parts.len() == 0 {
        Seq::empty()
    } else if parts.len() == 1 {
        parts[0]
    } else {
        join_space(parts.drop_last()) + seq![' '] + parts.last()
    }
}

/// The command assembled from base tokens and the current option states.
pub open spec fn command_view(base: Seq<Seq<char>>, opts: Seq<CliOptionView>) -> Seq<char> {
    join_space(base + option_args(opts))
}

/// Assemble the final command line: the base tokens, then `to_arg` of every
/// option in canonical order, joined by single spaces.
pub fn build_command(base_command: &[String], options: &[CliOption]) -> (r: String)
    ensures
        r@ == command_view(base_command.deep_view(), options.deep_view()),
{
    let ghost base_dv = base_command.deep_view();
    let ghost opts_dv = options.deep_view();
    let mut parts: Vec<String> = Vec::new();
    proof {
        assert(parts.deep_view() =~~= base_dv.take(0));
    }
    let mut i: usize = 0;
    while i < base_command.len()
        invariant
            i <= base_command.len(),
            base_dv == base_command.deep_view(),
            parts.deep_view() == base_dv.take(i as int),
        decreases base_command.len() - i,
    {
        let ghost acc = parts.deep_view();
        parts.push(base_command[i].clone());
        proof {
            assert(parts.deep_view() =~~= acc.push(base_dv[i as int]));
            assert(acc.push(base_dv[i as int]) =~~= base_dv.take(i + 1));
        }
        i = i + 1;
    }
    proof {
        assert(base_dv.take(base_command.len() as int) =~~= base_dv);
    }
    let mut j: usize = 0;
    while j < options.len()
        invariant
            j <= options.len(),
            base_dv == base_command.deep_view(),
            opts_dv == options.deep_view(),
            parts.deep_view() == base_dv + option_args(opts_dv.take(j as int)),
        decreases options.len() - j,
    {
        let ghost acc = parts.deep_view();
        proof {
            assert(opts_dv.take(j + 1).drop_last() =~~= opts_dv.take(j as int));
            assert(opts_dv.take(j + 1).last() == opts_dv[j as int]);
        }
        match options[j].to_arg() {
            Some(a) => {
                parts.push(a);
                proof {
                    assert(parts.deep_view() =~~= acc.push(opts_dv[j as int].to_arg()->Some_0));
                    assert(acc.push(opts_dv[j as int].to_arg()->Some_0) =~~= base_dv
                        + option_args(opts_dv.take(j + 1)));
                }
            },
            None => {
                proof {
                    assert(acc =~~= base_dv + option_args(opts_dv.take(j + 1)));
                }
            },
        }
        j = j + 1;
    }
    proof {
        assert(opts_dv.take(options.len() as int) =~~= opts_dv);
    }
    let ghost all = base_dv + option_args(opts_dv);
    proof {
        reveal_strlit(" ");
    }
    let mut r = String::new();
    let mut k: usize = 0;
    while k < parts.len()
        invariant
            k <= parts.len(),
            parts.deep_view() == all,
            r@ == join_space(all.take(k as int)),
        decreases parts.len() - k,
    {
        if k > 0 {
            r.append(" ");
        }
        r.append(parts[k].as_str());
        proof {
            reveal_strlit(" ");
            assert((" ")@ =~= seq![' ']);
            assert(all.take(k + 1).drop_last() =~~= all.take(k as int));
            assert(all.take(k + 1).last() == all[k as int]);
            if k == 0 {
                assert(r@ =~= join_space(all.take(1)));
            } else {
                assert(r@ =~= join_space(all.take(k + 1)));
            }
        }
        k = k + 1;
    }
    proof {
        assert(all.take(parts.len() as int) =~~= all);
    }
    r
}

} // verus!
