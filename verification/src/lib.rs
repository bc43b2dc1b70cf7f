//! Turn a command-line program's help text into an interactive option picker:
//! extract a structured list of flags from free-form help output, let a user
//! toggle and fill them, and assemble the final command line.

pub mod builder;
pub mod engine;
pub mod laws;
pub mod model;
pub mod output;
pub mod parser;
pub mod text;
