//! The option model: one `CliOption` per distinct flag extracted from help
//! text, together with its live interaction state.

use vstd::prelude::*;
use vstd::string::StringExecFns;
use crate::text::push_char;

verus! {

/// Mathematical view of a [`CliOption`]: the same fields over `Seq<char>`.
pub ghost struct CliOptionView {
    pub short: Option<char>,
    pub long: Option<Seq<char>>,
    pub description: Seq<char>,
    pub takes_value: bool,
    pub value_hint: Option<Seq<char>>,
    pub choices: Option<Seq<Seq<char>>>,
    pub selected: bool,
    pub value: Seq<char>,
    pub choice_index: int,
}

impl CliOptionView {
    /// Identity of a flag: two options are the same flag exactly when both
    /// their short and their long names agree.
    pub open spec fn identity(self) -> (Option<char>, Option<Seq<char>>) {
        (self.short, self.long)
    }

    /// A non-empty choice list is present.
    pub open spec fn has_choices(self) -> bool {
        match self.choices {
            Some(c) => c.len() > 0,
            None => false,
        }
    }

    /// The choice currently pointed at, when the index is in range.
    pub open spec fn current_choice(self) -> Option<Seq<char>> {
        match self.choices {
            Some(c) => if 0 <= self.choice_index < c.len() {
                Some(c[self.choice_index])
            } else {
                None
            },
            None => None,
        }
    }

    /// Well-formed: whenever a non-empty choice list is present, the choice
    /// index points into it.
    pub open spec fn wf(self) -> bool {
        self.has_choices() ==> 0 <= self.choice_index < self.choices->Some_0.len()
    }

    /// The flag token used in an assembled command: the long form when
    /// present, else the short form, else nothing.
    pub open spec fn arg_flag(self) -> Option<Seq<char>> {
        match self.long {
            Some(l) => Some(seq!['-', '-'] + l),
            None => match self.short {
                Some(s) => Some(seq!['-', s]),
                None => None,
            },
        }
    }

    /// The flag rendered for presentation, showing both forms when present.
    pub open spec fn display_flag(self) -> Seq<char> {
        match (self.short, self.long) {
            (Some(s), Some(l)) => seq!['-', s, ',', ' ', '-', '-'] + l,
            (Some(s), None) => seq!['-', s],
            (None, Some(l)) => seq!['-', '-'] + l,
            (None, None) => Seq::empty(),
        }
    }

    /// What the option contributes to the assembled command.
    ///
    /// Nothing while unselected or nameless; the flag plus the current
    /// choice when a choice list is present; the flag plus the free-text
    /// value when one is required and non-empty; nothing when a required
    /// value is missing; the bare flag for a boolean option.
    pub open spec fn to_arg(self) -> Option<Seq<char>> {
        if !self.selected {
            None
        } else {
            match self.arg_flag() {
                None => None,
                Some(flag) => match self.current_choice() {
                    Some(choice) => Some(flag + seq![' '] + choice),
                    None => if self.takes_value && self.value.len() > 0 {
                        Some(flag + seq![' '] + self.value)
                    } else if self.takes_value {
                        None
                    } else {
                        Some(flag)
                    },
                },
            }
        }
    }

    /// The option with its selection flipped.
    pub open spec fn toggled(self) -> CliOptionView {
        CliOptionView { selected: !self.selected, ..self }
    }

    /// The option after an edit commits `buf` as its value: an empty value
    /// also deselects the option.
    pub open spec fn committed(self, buf: Seq<char>) -> CliOptionView {
        CliOptionView {
            value: buf,
            selected: if buf.len() == 0 {
                false
            } else {
                self.selected
            },
            ..self
        }
    }

    /// The option after cycling one choice forward.
    pub open spec fn cycled_next(self) -> CliOptionView {
        if self.has_choices() {
            CliOptionView {
                choice_index: (self.choice_index + 1) % self.choices->Some_0.len() as int,
                ..self
            }
        } else {
            self
        }
    }

    /// The option after cycling one choice backward.
    pub open spec fn cycled_prev(self) -> CliOptionView {
        if self.has_choices() {
            let n = self.choices->Some_0.len() as int;
            CliOptionView { choice_index: (self.choice_index + n - 1) % n, ..self }
        } else {
            self
        }
    }
}

/// One extracted flag and its interaction state.
///
/// Flag identity (`short`, `long`) and the extracted facts (`description`,
/// `takes_value`, `value_hint`, `choices`) are fixed at extraction; only
/// `selected`, `value` and `choice_index` change during interaction.
#[derive(Debug, Clone)]
pub struct CliOption {
    pub short: Option<char>,
    pub long: Option<String>,
    pub description: String,
    pub takes_value: bool,
    pub value_hint: Option<String>,
    pub selected: bool,
    pub value: String,
    pub choices: Option<Vec<String>>,
    pub choice_index: usize,
}

impl View for CliOption {
    type V = CliOptionView;

    open spec fn view(&self) -> CliOptionView {
        CliOptionView {
            short: self.short,
            long: self.long.deep_view(),
            description: self.description@,
            takes_value: self.takes_value,
            value_hint: self.value_hint.deep_view(),
            choices: self.choices.deep_view(),
            selected: self.selected,
            value: self.value@,
            choice_index: self.choice_index as int,
        }
    }
}

impl DeepView for CliOption {
    type V = CliOptionView;

    open spec fn deep_view(&self) -> CliOptionView {
        self.view()
    }
}

impl CliOption {
    pub open spec fn wf(&self) -> bool {
        self@.wf()
    }

    /// A freshly extracted option: unselected, empty value, first choice.
    pub fn new(
        short: Option<char>,
        long: Option<String>,
        description: String,
        takes_value: bool,
        value_hint: Option<String>,
        choices: Option<Vec<String>>,
    ) -> (r: Self)
        ensures
            r@ == (CliOptionView {
                short: short,
                long: long.deep_view(),
                description: description@,
                takes_value: takes_value,
                value_hint: value_hint.deep_view(),
                choices: choices.deep_view(),
                selected: false,
                value: Seq::<char>::empty(),
                choice_index: 0,
            }),
            r.wf(),
    {
        Self {
            short,
            long,
            description,
            takes_value,
            value_hint,
            selected: false,
            value: String::new(),
            choices,
            choice_index: 0,
        }
    }

    pub fn has_choices(&self) -> (r: bool)
        ensures
            r == self@.has_choices(),
    {
        match &self.choices {
            Some(c) => c.len() > 0,
            None => false,
        }
    }

    pub fn current_choice(&self) -> (r: Option<&str>)
        ensures
            r.deep_view() == self@.current_choice(),
    {
        match &self.choices {
            Some(c) => if self.choice_index < c.len() {
                Some(c[self.choice_index].as_str())
            } else {
                None
            },
            None => None,
        }
    }

    /// Cycle one choice forward, wrapping from the last choice to the first;
    /// a no-op without a non-empty choice list.
    pub fn next_choice(&mut self)
        requires
            old(self).wf(),
        ensures
            final(self)@ == old(self)@.cycled_next(),
            final(self).wf(),
    {
        if let Some(c) = &self.choices {
            if c.len() > 0 {
                self.choice_index = (self.choice_index + 1) % c.len();
            }
        }
    }

    /// Cycle one choice backward, wrapping from the first choice to the last;
    /// a no-op without a non-empty choice list.
    pub fn prev_choice(&mut self)
        requires
            old(self).wf(),
        ensures
            final(self)@ == old(self)@.cycled_prev(),
            final(self).wf(),
    {
        if let Some(c) = &self.choices {
            if c.len() > 0 {
                self.choice_index = if self.choice_index == 0 {
                    c.len() - 1
                } else {
                    self.choice_index - 1
                };
                proof {
                    let n = old(self)@.choices->Some_0.len() as int;
                    let ci = old(self)@.choice_index;
                    assert((ci + n - 1) % n == if ci == 0 {
                        n - 1
                    } else {
                        ci - 1
                    }) by (nonlinear_arith)
                        requires
                            0 <= ci < n,
                    ;
                }
            }
        }
    }

    /// The flag rendered for presentation (not part of command assembly).
    pub fn display_flag(&self) -> (r: String)
        ensures
            r@ == self@.display_flag(),
    {
        proof {
            reveal_strlit("-");
            reveal_strlit(", --");
            reveal_strlit("--");
            reveal_strlit("");
        }
        match (&self.short, &self.long) {
            (Some(s), Some(l)) => {
                let mut r = String::from_str("-");
                push_char(&mut r, *s);
                r.append(", --");
                r.append(l.as_str());
                proof {
                    assert(r@ =~= self@.display_flag());
                }
                r
            },
            (Some(s), None) => {
                let mut r = String::from_str("-");
                push_char(&mut r, *s);
                proof {
                    assert(r@ =~= self@.display_flag());
                }
                r
            },
            (None, Some(l)) => {
                let mut r = String::from_str("--");
                r.append(l.as_str());
                proof {
                    assert(r@ =~= self@.display_flag());
                }
                r
            },
            (None, None) => {
                let r = String::from_str("");
                proof {
                    assert(r@ =~= self@.display_flag());
                }
                r
            },
        }
    }

    /// What the option contributes to the assembled command, exactly
    /// [`CliOptionView::to_arg`] of the current state.
    pub fn to_arg(&self) -> (r: Option<String>)
        ensures
            r.deep_view() == self@.to_arg(),
    {
        proof {
            reveal_strlit("-");
            reveal_strlit("--");
            reveal_strlit(" ");
        }
        if !self.selected {
            return None;
        }
        let mut flag: String;
        if let Some(l) = &self.long {
            flag = String::from_str("--");
            flag.append(l.as_str());
            proof {
                assert(flag@ =~= self@.arg_flag()->Some_0);
            }
        } else if let Some(s) = self.short {
            flag = String::from_str("-");
            push_char(&mut flag, s);
            proof {
                assert(flag@ =~= self@.arg_flag()->Some_0);
            }
        } else {
            return None;
        }
        match self.current_choice() {
            Some(choice) => {
                let mut r = flag;
                r.append(" ");
                r.append(choice);
                proof {
                    assert(r@ =~= self@.to_arg()->Some_0);
                }
                Some(r)
            },
            None => {
                if self.takes_value && !self.value.as_str().is_empty() {
                    let mut r = flag;
                    r.append(" ");
                    r.append(self.value.as_str());
                    proof {
                        assert(r@ =~= self@.to_arg()->Some_0);
                    }
                    Some(r)
                } else if self.takes_value {
                    None
                } else {
                    proof {
                        assert(flag@ =~= self@.to_arg()->Some_0);
                    }
                    Some(flag)
                }
            },
        }
    }
}

} // verus!
