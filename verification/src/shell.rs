//! Building the line handed to `<shell> -c`: the chain operator for a working
//! directory, and the `command` prefix that bypasses same-named aliases in
//! the invoking shell.

use vstd::prelude::*;
use vstd::string::StringExecFns;

use crate::errors::Error;
use crate::text::str_equal;

verus! {

/// The shell a registered entry runs under: the stored one, or `sh`.
pub open spec fn shell_name(o: Option<String>) -> Seq<char> {
    match o {
        Some(s) => s@,
        None => "sh"@,
    }
}

/// The view of an optional string.
pub open spec fn opt_view(o: Option<String>) -> Option<Seq<char>> {
    match o {
        Some(s) => Some(s@),
        None => None,
    }
}

/// The operator this shell chains commands with, if the shell is known.
pub open spec fn chain_operator_spec(shell: Seq<char>) -> Option<Seq<char>> {
    if shell == "sh"@ || shell == "bash"@ || shell == "zsh"@ {
        Some("&&"@)
    } else if shell == "fish"@ {
        Some("; and"@)
    } else {
        None
    }
}

/// The operator this shell chains commands with; an error names the
/// unrecognized shell.
pub fn chain_operator(shell: &str) -> (r: Result<String, Error>)
    ensures
        match chain_operator_spec(shell@) {
            Some(op) => r matches Ok(s) && s@ == op,
            None => r matches Err(e) && (e matches Error::UnsupportedShell(n) && n@ == shell@),
        },
{
    if str_equal(shell, "sh") || str_equal(shell, "bash") || str_equal(shell, "zsh") {
        Ok(String::from_str("&&"))
    } else if str_equal(shell, "fish") {
        Ok(String::from_str("; and"))
    } else {
        Err(Error::UnsupportedShell(shell.to_owned()))
    }
}

/// The line handed to the shell: `command <cmd>`, prefixed by a change into
/// `cwd` chained with the shell's operator when a directory is given.  `None`
/// marks an unrecognized shell (possible only with a directory).
pub open spec fn create_command_spec(
    shell: Seq<char>,
    command: Seq<char>,
    cwd: Option<Seq<char>>,
) -> Option<Seq<char>> {
    match cwd {
        None => Some("command "@ + command),
        Some(dir) => match chain_operator_spec(shell) {
            Some(op) => Some("cd "@ + dir + " "@ + op + " command "@ + command),
            None => None,
        },
    }
}

/// Builds the line handed to the shell, running `command` in `cwd` when a
/// directory is given; an error names an unrecognized shell.
pub fn create_command(shell: &str, command: &str, cwd: Option<String>) -> (r: Result<
    String,
    Error,
>)
    ensures
        match create_command_spec(shell@, command@, opt_view(cwd)) {
            Some(line) => r matches Ok(s) && s@ == line,
            None => r matches Err(e) && (e matches Error::UnsupportedShell(n) && n@ == shell@),
        },
{
    match cwd {
        Some(dir) => {
            let op = match chain_operator(shell) {
                Ok(op) => op,
                Err(e) => {
                    return Err(e);
                },
            };
            Ok(
                String::from_str("cd ").concat(dir.as_str()).concat(" ").concat(
                    op.as_str(),
                ).concat(" command ").concat(command),
            )
        },
        None => Ok(String::from_str("command ").concat(command)),
    }
}

} // verus!
