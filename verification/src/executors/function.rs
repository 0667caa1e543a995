//! The function entry: its command is a template whose placeholders are
//! filled from the quoted extra arguments before the shell runs it.

use vstd::prelude::*;

use crate::argparse::{fill_from, parse_ok, parse_result, ArgParser, FillErr};
use crate::errors::Error;
use crate::executors::{quote_arg, quoted_views};
use crate::shell::{create_command, create_command_spec, opt_view, shell_name};
use crate::text::{str_chars, string_from_chars, trim_chars, trim_spec};

verus! {

/// A registered function.
pub struct Function {
    pub command: String,
    pub condition: Option<String>,
    pub cwd: Option<String>,
    pub description: Option<String>,
    pub shell: Option<String>,
    pub descriptions: Option<Vec<String>>,
}

impl Function {
    /// A function with the given template, precondition, working directory,
    /// description and shell, and no per-argument descriptions yet.
    pub fn new(
        command: &str,
        condition: Option<&str>,
        cwd: Option<&str>,
        description: Option<&str>,
        shell: Option<&str>,
    ) -> (r: Function)
        ensures
            r.command@ == command@,
            crate::shell::opt_view(r.condition) == crate::executors::opt_str_view(condition),
            crate::shell::opt_view(r.cwd) == crate::executors::opt_str_view(cwd),
            crate::shell::opt_view(r.description) == crate::executors::opt_str_view(description),
            crate::shell::opt_view(r.shell) == crate::executors::opt_str_view(shell),
            r.descriptions is None,
    {
        let condition = match condition {
            Some(s) => Some(s.to_owned()),
            None => None,
        };
        let cwd = match cwd {
            Some(s) => Some(s.to_owned()),
            None => None,
        };
        let description = match description {
            Some(s) => Some(s.to_owned()),
            None => None,
        };
        let shell = match shell {
            Some(s) => Some(s.to_owned()),
            None => None,
        };
        Function { command: command.to_owned(), condition, cwd, description, descriptions: None, shell }
    }

    /// The shell this function runs under: the stored one, or `sh`.
    pub fn shell(&self) -> (r: &str)
        ensures
            r@ == shell_name(self.shell),
    {
        match &self.shell {
            Some(shell) => shell.as_str(),
            None => "sh",
        }
    }

    /// Quotes one extra argument: double quotes around it when it contains a
    /// space.
    pub fn format_args(&self, arg: &str) -> (r: Result<String, ()>)
        ensures
            r matches Ok(s) && s@ == quote_arg(arg@),
    {
        Ok(crate::executors::quote(arg))
    }

    /// Assembles the full line the shell runs for this function: the extra
    /// arguments are quoted and fill the template's placeholders, the result
    /// is trimmed, and the line changes into the working directory first when
    /// one is stored.  A template whose numbers do not fit is malformed; a
    /// template the arguments cannot satisfy is reported with the failure
    /// wrapped; a working directory under an unrecognized shell is reported
    /// as such.
    pub fn build_command_line(&self, extra: &Vec<String>) -> (r: Result<String, Error>)
        ensures
            ({
                let cmd = self.command@;
                let quoted = quoted_views(extra.deep_view());
                if !parse_ok(cmd) {
                    r matches Err(e) && e is MalformedPlaceholder
                } else {
                    match fill_from(cmd, parse_result(cmd, None), quoted, 0) {
                        Err(k) => r matches Err(e) && (e matches Error::TemplateUnsatisfied(inner)
                            && (match k {
                            FillErr::OutOfBounds => *inner is OutOfBounds,
                            FillErr::MissingArgument => *inner is MissingArgument,
                        })),
                        Ok(filled) => match create_command_spec(
                            shell_name(self.shell),
                            trim_spec(filled),
                            opt_view(self.cwd),
                        ) {
                            Some(line) => r matches Ok(s) && s@ == line,
                            None => r matches Err(e) && (e matches Error::UnsupportedShell(n)
                                && n@ == shell_name(self.shell)),
                        },
                    }
                }
            }),
    {
        let quoted = crate::executors::quote_all(extra);
        let mut parser = ArgParser::new(self.command.as_str(), None);
        match parser.parse() {
            Ok(()) => {},
            Err(e) => {
                return Err(e);
            },
        }
        let filled = match parser.fill(quoted) {
            Ok(f) => f,
            Err(e) => {
                return Err(Error::TemplateUnsatisfied(Box::new(e)));
            },
        };
        let fchars = str_chars(filled.as_str());
        let trimmed = trim_chars(&fchars);
        let tstr = string_from_chars(&trimmed);
        let cwd = match &self.cwd {
            Some(d) => Some(d.clone()),
            None => None,
        };
        create_command(self.shell(), tstr.as_str(), cwd)
    }
}

} // verus!
