//! The interaction engine: a state machine over an owned option set,
//! addressed by a cursor, mutated only through the transitions defined
//! here. A front end feeds it events and renders its state; the engine
//! itself performs no input or output.

use vstd::prelude::*;
use crate::model::{CliOption, CliOptionView};
use crate::builder;
use crate::builder::command_view;
use crate::text::{push_char, pop_char};

verus! {

/// The two interaction states: browsing and toggling, or editing the
/// free-text value of one option.
#[derive(Debug, Clone, Copy, PartialEq, Eq, Structural)]
pub enum Mode {
    Normal,
    Input,
}

/// A key event while editing: confirm and cancel both commit the buffer;
/// a character extends it; backspace shortens it.
#[derive(Debug, Clone, Copy, PartialEq, Eq, Structural)]
pub enum EditKey {
    Confirm,
    Cancel,
    Char(char),
    Backspace,
}

/// Mathematical view of the engine state.
#[verifier::ext_equal]
pub ghost struct AppView {
    pub options: Seq<CliOptionView>,
    pub base_command: Seq<Seq<char>>,
    pub cursor: int,
    pub mode: Mode,
    pub input_buffer: Seq<char>,
}

impl AppView {
    /// Well-formed: the cursor stays inside the option set (and at 0 when
    /// the set is empty), and every option is itself well-formed.
    pub open spec fn wf(self) -> bool {
        &&& (self.options.len() == 0 ==> self.cursor == 0)
        &&& (self.options.len() > 0 ==> 0 <= self.cursor < self.options.len())
        &&& (forall|k: int| 0 <= k < self.options.len() ==> (#[trigger] self.options[k]).wf())
    }

    /// The cursor position presented to a front end: nothing when the
    /// option set is empty.
    pub open spec fn selected_index(self) -> Option<int> {
        if self.options.len() == 0 {
            None
        } else {
            Some(self.cursor)
        }
    }

    /// The state after moving the cursor up one step, clamped at 0.
    pub open spec fn moved_up(self) -> AppView {
        if self.cursor > 0 {
            AppView { cursor: self.cursor - 1, ..self }
        } else {
            self
        }
    }

    /// The state after moving the cursor down one step, clamped at the last
    /// option.
    pub open spec fn moved_down(self) -> AppView {
        if self.options.len() > 0 && self.cursor < self.options.len() - 1 {
            AppView { cursor: self.cursor + 1, ..self }
        } else {
            self
        }
    }

    /// The state after toggling the option under the cursor. When the
    /// toggle turns on an option that takes a free-text value and has no
    /// choice list, the engine enters editing mode with the edit buffer
    /// seeded from the option's current value.
    pub open spec fn toggled_at_cursor(self) -> AppView {
        if self.options.len() == 0 {
            self
        } else {
            let o = self.options[self.cursor].toggled();
            let opens = o.selected && o.takes_value && !o.has_choices();
            AppView {
                options: self.options.update(self.cursor, o),
                mode: if opens {
                    Mode::Input
                } else {
                    self.mode
                },
                input_buffer: if opens {
                    o.value
                } else {
                    self.input_buffer
                },
                ..self
            }
        }
    }

    /// The state after cycling the option under the cursor one choice
    /// forward: a no-op unless that option is selected and has choices.
    pub open spec fn cycled_next_at_cursor(self) -> AppView {
        if self.options.len() > 0 && self.options[self.cursor].has_choices()
            && self.options[self.cursor].selected {
            AppView {
                options: self.options.update(self.cursor, self.options[self.cursor].cycled_next()),
                ..self
            }
        } else {
            self
        }
    }

    /// The state after cycling the option under the cursor one choice
    /// backward: a no-op unless that option is selected and has choices.
    pub open spec fn cycled_prev_at_cursor(self) -> AppView {
        if self.options.len() > 0 && self.options[self.cursor].has_choices()
            && self.options[self.cursor].selected {
            AppView {
                options: self.options.update(self.cursor, self.options[self.cursor].cycled_prev()),
                ..self
            }
        } else {
            self
        }
    }

    /// The state after an explicit edit request: editing starts, seeded
    /// with the current value, only if the option under the cursor is
    /// selected and takes a value.
    pub open spec fn edit_requested(self) -> AppView {
        if self.options.len() > 0 && self.options[self.cursor].selected
            && self.options[self.cursor].takes_value {
            AppView {
                mode: Mode::Input,
                input_buffer: self.options[self.cursor].value,
                ..self
            }
        } else {
            self
        }
    }

    /// The state after one editing-mode key: confirm and cancel both write
    /// the buffer into the option under the cursor (an empty buffer also
    /// deselects it) and return to browsing with the buffer cleared; a
    /// character extends the buffer; backspace drops its last character.
    pub open spec fn edited(self, key: EditKey) -> AppView {
        match key {
            EditKey::Char(c) => AppView { input_buffer: self.input_buffer.push(c), ..self },
            EditKey::Backspace => AppView {
                input_buffer: if self.input_buffer.len() > 0 {
                    self.input_buffer.drop_last()
                } else {
                    self.input_buffer
                },
                ..self
            },
            _ => AppView {
                options: if self.options.len() == 0 {
                    self.options
                } else {
                    self.options.update(
                        self.cursor,
                        self.options[self.cursor].committed(self.input_buffer),
                    )
                },
                mode: Mode::Normal,
                input_buffer: Seq::empty(),
                ..self
            },
        }
    }
}

/// The interaction engine over one extracted option set.
pub struct App {
    options: Vec<CliOption>,
    base_command: Vec<String>,
    cursor: usize,
    mode: Mode,
    input_buffer: String,
}

impl View for App {
    type V = AppView;

    closed spec fn view(&self) -> AppView {
        AppView {
            options: self.options.deep_view(),
            base_command: self.base_command.deep_view(),
            cursor: self.cursor as int,
            mode: self.mode,
            input_buffer: self.input_buffer@,
        }
    }
}

impl App {
    /// A fresh session: cursor at the first option, browsing mode, empty
    /// edit buffer, options as handed in.
    pub fn new(options: Vec<CliOption>, base_command: Vec<String>) -> (r: Self)
        requires
            forall|k: int| 0 <= k < options@.len() ==> #[trigger] options@[k].wf(),
        ensures
            r@ == (AppView {
                options: options.deep_view(),
                base_command: base_command.deep_view(),
                cursor: 0,
                mode: Mode::Normal,
                input_buffer: Seq::<char>::empty(),
            }),
            r@.wf(),
    {
        let ghost oseq = options@;
        let r = Self { options, base_command, cursor: 0, mode: Mode::Normal, input_buffer: String::new() };
        proof {
            assert forall|k: int| 0 <= k < r@.options.len() implies (#[trigger] r@.options[k]).wf()
                by {
                assert(oseq[k].wf());
                assert(r@.options[k] == oseq[k]@);
            }
        }
        r
    }

    pub fn options(&self) -> (r: &Vec<CliOption>)
        ensures
            r.deep_view() == self@.options,
    {
        &self.options
    }

    pub fn base_command(&self) -> (r: &Vec<String>)
        ensures
            r.deep_view() == self@.base_command,
    {
        &self.base_command
    }

    pub fn mode(&self) -> (r: Mode)
        ensures
            r == self@.mode,
    {
        self.mode
    }

    pub fn input_buffer(&self) -> (r: &String)
        ensures
            r@ == self@.input_buffer,
    {
        &self.input_buffer
    }

    /// The cursor position, or nothing while the option set is empty.
    pub fn selected_index(&self) -> (r: Option<usize>)
        ensures
            match r {
                Some(i) => self@.selected_index() == Some(i as int),
                None => self@.selected_index() is None,
            },
    {
        if self.options.len() == 0 {
            None
        } else {
            Some(self.cursor)
        }
    }

    /// The option under the cursor, when there is one.
    pub fn selected_option(&self) -> (r: Option<&CliOption>)
        requires
            self@.wf(),
        ensures
            match r {
                Some(o) => self@.options.len() > 0 && o@ == self@.options[self@.cursor],
                None => self@.options.len() == 0,
            },
    {
        if self.cursor < self.options.len() {
            Some(&self.options[self.cursor])
        } else {
            None
        }
    }

    /// Move the cursor up one option, stopping at the first.
    pub fn move_up(&mut self)
        requires
            old(self)@.wf(),
        ensures
            final(self)@ == old(self)@.moved_up(),
            final(self)@.wf(),
    {
        if self.cursor > 0 {
            self.cursor = self.cursor - 1;
        }
    }

    /// Move the cursor down one option, stopping at the last.
    pub fn move_down(&mut self)
        requires
            old(self)@.wf(),
        ensures
            final(self)@ == old(self)@.moved_down(),
            final(self)@.wf(),
    {
        if self.options.len() > 0 && self.cursor < self.options.len() - 1 {
            self.cursor = self.cursor + 1;
        }
    }

    /// Toggle the option under the cursor, entering editing mode when the
    /// toggle turns on a value-taking option without choices.
    pub fn toggle_selected(&mut self)
        requires
            old(self)@.wf(),
        ensures
            final(self)@ == old(self)@.toggled_at_cursor(),
            final(self)@.wf(),
    {
        let ghost ov = old(self)@;
        if self.options.len() == 0 {
            return ;
        }
        let i = self.cursor;
        let ns = !self.options[i].selected;
        self.options[i].selected = ns;
        proof {
            assert(self@.options =~~= ov.options.update(i as int, ov.options[i as int].toggled()));
        }
        let needs_input = ns && self.options[i].takes_value && !self.options[i].has_choices();
        if needs_input {
            self.mode = Mode::Input;
            self.input_buffer = self.options[i].value.clone();
        }
        proof {
            assert(final(self)@ =~~= ov.toggled_at_cursor());
        }
    }

    /// Cycle the option under the cursor one choice forward, if it is
    /// selected and has choices.
    pub fn cycle_choice_next(&mut self)
        requires
            old(self)@.wf(),
        ensures
            final(self)@ == old(self)@.cycled_next_at_cursor(),
            final(self)@.wf(),
    {
        let ghost ov = old(self)@;
        if self.options.len() == 0 {
            return ;
        }
        let i = self.cursor;
        if self.options[i].has_choices() && self.options[i].selected {
            self.options[i].next_choice();
            proof {
                assert(final(self)@ =~~= ov.cycled_next_at_cursor());
            }
        }
    }

    /// Cycle the option under the cursor one choice backward, if it is
    /// selected and has choices.
    pub fn cycle_choice_prev(&mut self)
        requires
            old(self)@.wf(),
        ensures
            final(self)@ == old(self)@.cycled_prev_at_cursor(),
            final(self)@.wf(),
    {
        let ghost ov = old(self)@;
        if self.options.len() == 0 {
            return ;
        }
        let i = self.cursor;
        if self.options[i].has_choices() && self.options[i].selected {
            self.options[i].prev_choice();
            proof {
                assert(final(self)@ =~~= ov.cycled_prev_at_cursor());
            }
        }
    }

    /// Start editing the option under the cursor, if it is selected and
    /// takes a value; the buffer is seeded with its current value.
    pub fn request_edit(&mut self)
        requires
            old(self)@.wf(),
        ensures
            final(self)@ == old(self)@.edit_requested(),
            final(self)@.wf(),
    {
        if self.options.len() == 0 {
            return ;
        }
        let i = self.cursor;
        if self.options[i].selected && self.options[i].takes_value {
            self.mode = Mode::Input;
            self.input_buffer = self.options[i].value.clone();
        }
    }

    /// Apply one editing-mode key, exactly [`AppView::edited`].
    pub fn handle_input_key(&mut self, key: EditKey)
        requires
            old(self)@.wf(),
        ensures
            final(self)@ == old(self)@.edited(key),
            final(self)@.wf(),
    {
        let ghost ov = old(self)@;
        match key {
            EditKey::Char(c) => {
                push_char(&mut self.input_buffer, c);
            },
            EditKey::Backspace => {
                pop_char(&mut self.input_buffer);
            },
            _ => {
                if self.options.len() > 0 {
                    let i = self.cursor;
                    let is_empty = self.input_buffer.as_str().is_empty();
                    self.options[i].value = self.input_buffer.clone();
                    if is_empty {
                        self.options[i].selected = false;
                    }
                    proof {
                        assert(self@.options =~~= ov.options.update(
                            i as int,
                            ov.options[i as int].committed(ov.input_buffer),
                        ));
                    }
                }
                self.mode = Mode::Normal;
                self.input_buffer = String::new();
                proof {
                    assert(final(self)@ =~~= ov.edited(key));
                }
            },
        }
    }

    /// The command assembled from the current state, in canonical order.
    pub fn build_command(&self) -> (r: String)
        ensures
            r@ == command_view(self@.base_command, self@.options),
    {
        builder::build_command(self.base_command.as_slice(), self.options.as_slice())
    }
}

} // verus!
