//! Centoria: named shell-command templates.
//!
//! A registry maps names to executable entries.  An entry is an alias (extra
//! arguments are appended verbatim), a function (its command is a template
//! whose placeholders are filled from the extra arguments), or a subcommand
//! (a namespace of named sub-templates, one of which is selected by the first
//! extra argument).  This crate holds the template grammar, the filler and the
//! entry dispatch; reading the configuration file and spawning the shell are
//! left to the surrounding program.

pub mod argparse;
pub mod config;
pub mod display;
pub mod errors;
pub mod executors;
pub mod fmt;
pub mod function;
pub mod laws;
pub mod pad;
pub mod shell;
pub mod text;
