//! The three ways a finished command line can leave the session.

use vstd::prelude::*;

verus! {

/// How the assembled command is handed to the output sink: written to
/// standard output, copied to the clipboard, or executed through a shell.
#[derive(Debug, Clone, Copy, PartialEq, Eq, Structural)]
pub enum OutputMode {
    Print,
    Clipboard,
    Execute,
}

} // verus!
