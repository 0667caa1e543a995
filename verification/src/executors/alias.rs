//! The alias entry: extra arguments are quoted and appended verbatim; no
//! placeholder resolution.

use vstd::prelude::*;

use crate::executors::{quote_arg, quoted_views};
use crate::shell::shell_name;
use crate::text::{join_with, str_chars, string_from_chars, trim_chars, trim_spec};

verus! {

/// A registered alias.
pub struct Alias {
    pub command: String,
    pub condition: Option<String>,
    pub description: Option<String>,
    pub shell: Option<String>,
}

/// The line an alias runs for the given (already quoted) extra arguments:
/// they are appended space-joined, and the whole is trimmed.
pub open spec fn alias_line(cmd: Seq<char>, quoted: Seq<Seq<char>>) -> Seq<char> {
    if quoted.len() == 0 {
        trim_spec(cmd)
    } else {
        trim_spec(cmd + seq![' '] + join_with(quoted, seq![' ']))
    }
}

impl Alias {
    /// An alias with the given command, precondition, description and shell.
    pub fn new(
        command: &str,
        condition: Option<&str>,
        description: Option<&str>,
        shell: Option<&str>,
    ) -> (r: Alias)
        ensures
            r.command@ == command@,
            crate::shell::opt_view(r.condition) == crate::executors::opt_str_view(condition),
            crate::shell::opt_view(r.description) == crate::executors::opt_str_view(description),
            crate::shell::opt_view(r.shell) == crate::executors::opt_str_view(shell),
    {
        let condition = match condition {
            Some(s) => Some(s.to_owned()),
            None => None,
        };
        let description = match description {
            Some(s) => Some(s.to_owned()),
            None => None,
        };
        let shell = match shell {
            Some(s) => Some(s.to_owned()),
            None => None,
        };
        Alias { command: command.to_owned(), condition, description, shell }
    }

    /// The shell this alias runs under: the stored one, or `sh`.
    pub fn shell(&self) -> (r: &str)
        ensures
            r@ == shell_name(self.shell),
    {
        match &self.shell {
            Some(shell) => shell.as_str(),
            None => "sh",
        }
    }

    /// Quotes one extra argument: double quotes around it when it contains a
    /// space.
    pub fn format_args(&self, arg: &str) -> (r: Result<String, ()>)
        ensures
            r matches Ok(s) && s@ == quote_arg(arg@),
    {
        Ok(crate::executors::quote(arg))
    }

    /// Assembles the line this alias runs: the extra arguments are quoted and
    /// appended, and the whole is trimmed.
    pub fn build_command_line(&self, extra: &Vec<String>) -> (r: String)
        ensures
            r@ == alias_line(self.command@, quoted_views(extra.deep_view())),
    {
        let quoted = crate::executors::quote_all(extra);
        let mut line = str_chars(self.command.as_str());
        if quoted.len() > 0 {
            line.push(' ');
            proof {
                assert(line@ =~= self.command@ + seq![' ']);
            }
            crate::text::append_joined(&mut line, &quoted);
        }
        let trimmed = trim_chars(&line);
        string_from_chars(&trimmed)
    }
}

} // verus!
