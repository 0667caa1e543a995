//! The error kinds that the engine reports.

use vstd::prelude::*;
use vstd::string::StringExecFns;

verus! {

/// Everything that can go wrong while parsing a template, filling it, or
/// editing the registry.  `can_execute` never reports an error: a failed
/// precondition is an ordinary "do not run" answer, not an exceptional one.
#[derive(Debug)]
pub enum Error {
    /// A `{...}` group matched the placeholder grammar but its numeric field
    /// does not fit the machine's index type.
    MalformedPlaceholder,
    /// A required placeholder resolved to an empty argument slice.
    MissingArgument,
    /// A required placeholder's span lies outside the supplied arguments.
    OutOfBounds,
    /// `fill` or `has_arguments` was called before `parse`.
    NotParsed,
    /// A function's template could not be filled from the extra arguments.
    TemplateUnsatisfied(Box<Error>),
    /// The entry names a shell this program cannot chain commands for.
    UnsupportedShell(String),
    /// The shell process could not be started (reported by the caller).
    SpawnFailed(String),
    /// A merged subcommand already owns a sub-entry of this name.
    DuplicateSubName(String),
    /// A subcommand owns no sub-entry of this name.
    UnknownSubName(String),
    /// The registry holds no entry of this name.
    EntryNotFound(String),
    /// The registry already holds an entry of this name.
    EntryAlreadyExists(String),
}

impl Error {
    /// The text shown to the user for this error.
    pub open spec fn message_spec(self) -> Seq<char>
        decreases self,
    {
        match self {
            Error::MalformedPlaceholder => "malformed placeholder"@,
            Error::MissingArgument => "argument is empty"@,
            Error::OutOfBounds => "index out of bounds or invalid access"@,
            Error::NotParsed => "could not found parsed caches"@,
            Error::TemplateUnsatisfied(e) => e.message_spec()
                + ", please use `show` subcommand for checking parameters"@,
            Error::UnsupportedShell(s) => "not supported shell: "@ + s@,
            Error::SpawnFailed(s) => "function failed: "@ + s@,
            Error::DuplicateSubName(s) => "sub-function `"@ + s@
                + "` is already exists in this function"@,
            Error::UnknownSubName(s) => "sub-function `"@ + s@
                + "` is not exists in this function"@,
            Error::EntryNotFound(s) => "function `"@ + s@ + "` is not exists"@,
            Error::EntryAlreadyExists(s) => "function `"@ + s@ + "` is already exists"@,
        }
    }

    /// Renders the message of this error.
    pub fn message(&self) -> (r: String)
        ensures
            r@ == self.message_spec(),
        decreases *self,
    {
        match self {
            Error::MalformedPlaceholder => String::from_str("malformed placeholder"),
            Error::MissingArgument => String::from_str("argument is empty"),
            Error::OutOfBounds => String::from_str("index out of bounds or invalid access"),
            Error::NotParsed => String::from_str("could not found parsed caches"),
            Error::TemplateUnsatisfied(e) => e.message().concat(
                ", please use `show` subcommand for checking parameters",
            ),
            Error::UnsupportedShell(s) => String::from_str("not supported shell: ").concat(
                s.as_str(),
            ),
            Error::SpawnFailed(s) => String::from_str("function failed: ").concat(s.as_str()),
            Error::DuplicateSubName(s) => String::from_str("sub-function `").concat(
                s.as_str(),
            ).concat("` is already exists in this function"),
            Error::UnknownSubName(s) => String::from_str("sub-function `").concat(
                s.as_str(),
            ).concat("` is not exists in this function"),
            Error::EntryNotFound(s) => String::from_str("function `").concat(s.as_str()).concat(
                "` is not exists",
            ),
            Error::EntryAlreadyExists(s) => String::from_str("function `").concat(
                s.as_str(),
            ).concat("` is already exists"),
        }
    }
}

} // verus!
