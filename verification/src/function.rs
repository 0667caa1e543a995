//! A plain registered command: the earliest entry form, kept for programs
//! that still build on it.  Extra arguments are appended verbatim, with no
//! placeholder resolution and no quoting.

use vstd::prelude::*;

use crate::shell::shell_name;
use crate::text::{join_with, str_chars, string_from_chars, trim_chars, trim_spec};

verus! {

/// A command with an optional precondition and an optional shell.
pub struct Function {
    pub command: String,
    pub condition: Option<String>,
    pub shell: Option<String>,
}

/// The line this entry runs when called with `extra` arguments: the command,
/// the arguments appended space-joined, the whole trimmed.
pub open spec fn plain_command_line(command: Seq<char>, extra: Option<Seq<Seq<char>>>) -> Seq<
    char,
> {
    match extra {
        None => trim_spec(command),
        Some(parts) => trim_spec(command + seq![' '] + join_with(parts, seq![' '])),
    }
}

impl Function {
    /// A plain entry with the given command, precondition and shell.
    pub fn new(command: &str, condition: Option<&str>, shell: Option<&str>) -> (r: Function)
        ensures
            r.command@ == command@,
            match (condition, r.condition) {
                (Some(c), Some(rc)) => rc@ == c@,
                (None, None) => true,
                _ => false,
            },
            match (shell, r.shell) {
                (Some(s), Some(rs)) => rs@ == s@,
                (None, None) => true,
                _ => false,
            },
    {
        let condition = match condition {
            Some(s) => Some(s.to_owned()),
            None => None,
        };
        let shell = match shell {
            Some(s) => Some(s.to_owned()),
            None => None,
        };
        Function { command: command.to_owned(), condition, shell }
    }

    /// The shell this entry runs under: the stored one, or `sh`.
    pub fn shell(&self) -> (r: &str)
        ensures
            r@ == shell_name(self.shell),
    {
        match &self.shell {
            Some(shell) => shell.as_str(),
            None => "sh",
        }
    }

    /// Assembles the line this entry runs: extra arguments are appended
    /// verbatim, space-joined, and the whole is trimmed.
    pub fn command_line(&self, extra: Option<Vec<&str>>) -> (r: String)
        ensures
            r@ == plain_command_line(
                self.command@,
                match extra {
                    Some(v) => Some(v.deep_view()),
                    None => None,
                },
            ),
    {
        let mut line = str_chars(self.command.as_str());
        match &extra {
            Some(parts) => {
                line.push(' ');
                let mut k: usize = 0;
                let ghost pv = parts.deep_view();
                proof {
                    assert(pv.subrange(0, 0) =~= Seq::<Seq<char>>::empty());
                    assert(line@ =~= self.command@ + seq![' '] + join_with(
                        pv.subrange(0, 0),
                        seq![' '],
                    ));
                }
                while k < parts.len()
                    invariant
                        0 <= k <= parts@.len(),
                        pv == parts.deep_view(),
                        pv.len() == parts@.len(),
                        line@ == self.command@ + seq![' '] + join_with(
                            pv.subrange(0, k as int),
                            seq![' '],
                        ),
                    decreases parts@.len() - k,
                {
                    let ghost done = pv.subrange(0, k as int);
                    proof {
                        crate::text::lemma_join_push(done, seq![' '], pv[k as int]);
                        assert(pv.subrange(0, k + 1) =~= done.push(pv[k as int]));
                        assert(pv[k as int] == parts@[k as int]@);
                    }
                    if k > 0 {
                        line.push(' ');
                    }
                    let vc = str_chars(parts[k]);
                    crate::text::append_chars(&mut line, &vc);
                    proof {
                        if k > 0 {
                            assert(line@ =~= self.command@ + seq![' '] + (join_with(done, seq![' '])
                                + seq![' '] + pv[k as int]));
                        } else {
                            assert(line@ =~= self.command@ + seq![' '] + pv[k as int]);
                        }
                    }
                    k = k + 1;
                }
                proof {
                    assert(pv.subrange(0, pv.len() as int) =~= pv);
                }
            },
            None => {},
        }
        let trimmed = trim_chars(&line);
        string_from_chars(&trimmed)
    }
}

} // verus!
