//! The registered entry kinds and what they share: argument quoting, the
//! can-run decision, shell-alias export, and the choice of kind when an entry
//! is added.

use vstd::prelude::*;
use vstd::string::StringExecFns;

use crate::argparse::{digit_run_end, digit_run_end_exec, lemma_digit_run_end};
use crate::errors::Error;
use crate::shell::shell_name;
use crate::text::{contains_char, str_chars, str_contains_char};

pub mod alias;
pub mod function;
pub mod subcommand;

pub use alias::Alias;
pub use function::Function;
pub use subcommand::SubCommand;

verus! {

// ---------------------------------------------------------------------------
// shared pieces
// ---------------------------------------------------------------------------

/// An extra argument as it is passed to the shell: double-quoted when it
/// contains a space, bare otherwise.
pub open spec fn quote_arg(a: Seq<char>) -> Seq<char> {
    if contains_char(a, ' ') {
        seq!['"'] + a + seq!['"']
    } else {
        a
    }
}

/// The extra arguments, each quoted.
pub open spec fn quoted_views(parts: Seq<Seq<char>>) -> Seq<Seq<char>> {
    parts.map_values(|p: Seq<char>| quote_arg(p))
}

/// Quotes one extra argument.
pub fn quote(arg: &str) -> (r: String)
    ensures
        r@ == quote_arg(arg@),
{
    if str_contains_char(arg, ' ') {
        proof {
            reveal_strlit("\"");
        }
        let r = String::from_str("\"").concat(arg).concat("\"");
        proof {
            assert(r@ =~= seq!['"'] + arg@ + seq!['"']);
        }
        r
    } else {
        arg.to_owned()
    }
}

/// Quotes every extra argument.
pub fn quote_all(extra: &Vec<String>) -> (r: Vec<String>)
    ensures
        r.deep_view() == quoted_views(extra.deep_view()),
        r@.len() == extra@.len(),
{
    let mut out: Vec<String> = Vec::new();
    let mut k: usize = 0;
    while k < extra.len()
        invariant
            0 <= k <= extra@.len(),
            out@.len() == k,
            forall|j: int| 0 <= j < k ==> out@[j]@ == quote_arg(extra@[j]@),
        decreases extra@.len() - k,
    {
        out.push(quote(extra[k].as_str()));
        k = k + 1;
    }
    proof {
        assert(out.deep_view() =~= quoted_views(extra.deep_view()));
    }
    out
}

/// The can-run answer, given the outcomes of the probes the caller ran: the
/// shell probe must not have failed, and the precondition, when there is one,
/// must have exited zero.  Every failure collapses to `false`; nothing is
/// reported.
pub fn can_execute_from(shell_probe_ok: bool, condition_status: Option<bool>) -> (r: bool)
    ensures
        r == (shell_probe_ok && match condition_status {
            Some(ok) => ok,
            None => true,
        }),
{
    if !shell_probe_ok {
        return false;
    }
    match condition_status {
        Some(ok) => ok,
        None => true,
    }
}

/// The one-line alias definition `init` writes for a registered name.
pub open spec fn export_line(name: Seq<char>) -> Seq<char> {
    "alias "@ + name + "='cet exec "@ + name + " -- '"@
}

/// Renders the alias definition that re-invokes this program for `name`.
pub fn export_as_alias(name: &str) -> (r: String)
    ensures
        r@ == export_line(name@),
{
    String::from_str("alias ").concat(name).concat("='cet exec ").concat(name).concat(" -- '")
}

// ---------------------------------------------------------------------------
// the entry kinds
// ---------------------------------------------------------------------------

/// A registered entry: one of the three kinds.
pub enum Executor {
    Alias(Alias),
    Function(Function),
    SubCommand(SubCommand),
}

/// The shell an entry runs under.
pub open spec fn executor_shell(e: Executor) -> Seq<char> {
    match e {
        Executor::Alias(a) => shell_name(a.shell),
        Executor::Function(f) => shell_name(f.shell),
        Executor::SubCommand(s) => shell_name(s.shell),
    }
}

/// The stored precondition of an entry.
pub open spec fn executor_condition(e: Executor) -> Option<Seq<char>> {
    match e {
        Executor::Alias(a) => crate::shell::opt_view(a.condition),
        Executor::Function(f) => crate::shell::opt_view(f.condition),
        Executor::SubCommand(s) => crate::shell::opt_view(s.condition),
    }
}

/// The stored description of an entry.
pub open spec fn executor_description(e: Executor) -> Option<Seq<char>> {
    match e {
        Executor::Alias(a) => crate::shell::opt_view(a.description),
        Executor::Function(f) => crate::shell::opt_view(f.description),
        Executor::SubCommand(s) => crate::shell::opt_view(s.description),
    }
}

/// A subcommand entry owns well-formed sub-entries; the other kinds always
/// are well formed.
pub open spec fn executor_wf(e: Executor) -> bool {
    match e {
        Executor::SubCommand(s) => s.wf(),
        _ => true,
    }
}

impl Executor {
    /// The shell this entry runs under: the stored one, or `sh`.
    pub fn shell(&self) -> (r: &str)
        ensures
            r@ == executor_shell(*self),
    {
        match self {
            Executor::Alias(a) => a.shell(),
            Executor::Function(f) => f.shell(),
            Executor::SubCommand(s) => s.shell(),
        }
    }

    /// The stored precondition snippet, if any.
    pub fn condition(&self) -> (r: &Option<String>)
        ensures
            crate::shell::opt_view(*r) == executor_condition(*self),
    {
        match self {
            Executor::Alias(a) => &a.condition,
            Executor::Function(f) => &f.condition,
            Executor::SubCommand(s) => &s.condition,
        }
    }

    /// The entry's description, or the fixed default.
    pub fn description(&self) -> (r: &str)
        ensures
            match executor_description(*self) {
                Some(d) => r@ == d,
                None => r@ == "No description provided"@,
            },
    {
        let d = match self {
            Executor::Alias(a) => &a.description,
            Executor::Function(f) => &f.description,
            Executor::SubCommand(s) => &s.description,
        };
        match d {
            Some(value) => value.as_str(),
            None => "No description provided",
        }
    }

    /// Renders the alias definition that re-invokes this program for `name`.
    pub fn export_as(&self, name: &str) -> (r: Result<String, Error>)
        ensures
            r matches Ok(s) && s@ == export_line(name@),
    {
        Ok(export_as_alias(name))
    }
}

// ---------------------------------------------------------------------------
// choosing the kind
// ---------------------------------------------------------------------------

/// A group of the restricted shape `"{" DIGITS (".." DIGITS?)? "}"` starts at
/// position `i`: the test that decides, at `add` time, whether a command is a
/// template.  Optional markers (`?`) do not count here.
pub open spec fn simple_tok_at(s: Seq<char>, i: int) -> bool {
    0 <= i < s.len() && s[i] == '{' && {
        let d = digit_run_end(s, i + 1);
        d > i + 1 && ((d < s.len() && s[d] == '}') || (d + 1 < s.len() && s[d] == '.' && s[d + 1]
            == '.' && {
            let e = digit_run_end(s, d + 2);
            e < s.len() && s[e] == '}'
        }))
    }
}

/// The command holds a placeholder of the restricted shape somewhere.
pub open spec fn has_function_placeholder(s: Seq<char>) -> bool {
    exists|i: int| simple_tok_at(s, i)
}

/// Decides [`simple_tok_at`] at one position.
fn simple_match_at(chars: &Vec<char>, i: usize) -> (b: bool)
    requires
        i < chars@.len(),
    ensures
        b == simple_tok_at(chars@, i as int),
{
    let n = chars.len();
    if chars[i] != '{' {
        return false;
    }
    let d = digit_run_end_exec(chars, i + 1);
    proof {
        lemma_digit_run_end(chars@, i + 1);
    }
    if d == i + 1 {
        return false;
    }
    if d < n && chars[d] == '}' {
        return true;
    }
    if n - d > 1 && chars[d] == '.' && chars[d + 1] == '.' {
        let e = digit_run_end_exec(chars, d + 2);
        proof {
            lemma_digit_run_end(chars@, d + 2);
        }
        return e < n && chars[e] == '}';
    }
    false
}

/// Builds the entry `add` registers: a function when the command holds a
/// placeholder of the restricted shape, else an alias (which keeps no working
/// directory).
pub fn construct(
    command: &str,
    condition: Option<&str>,
    cwd: Option<&str>,
    description: Option<&str>,
    shell: Option<&str>,
) -> (r: Executor)
    ensures
        has_function_placeholder(command@) ==> (r matches Executor::Function(f) && f.command@
            == command@ && crate::shell::opt_view(f.condition) == opt_str_view(condition)
            && crate::shell::opt_view(f.cwd) == opt_str_view(cwd) && crate::shell::opt_view(
            f.description,
        ) == opt_str_view(description) && crate::shell::opt_view(f.shell) == opt_str_view(shell)
            && f.descriptions is None),
        !has_function_placeholder(command@) ==> (r matches Executor::Alias(a) && a.command@
            == command@ && crate::shell::opt_view(a.condition) == opt_str_view(condition)
            && crate::shell::opt_view(a.description) == opt_str_view(description)
            && crate::shell::opt_view(a.shell) == opt_str_view(shell)),
{
    let chars = str_chars(command);
    if has_function_placeholder_exec(&chars) {
        Executor::Function(Function::new(command, condition, cwd, description, shell))
    } else {
        Executor::Alias(Alias::new(command, condition, description, shell))
    }
}

/// Decides [`has_function_placeholder`].
fn has_function_placeholder_exec(chars: &Vec<char>) -> (b: bool)
    ensures
        b == has_function_placeholder(chars@),
{
    let n = chars.len();
    let mut i: usize = 0;
    while i < n
        invariant
            0 <= i <= n,
            n == chars@.len(),
            forall|j: int| 0 <= j < i ==> !simple_tok_at(chars@, j),
        decreases n - i,
    {
        if simple_match_at(chars, i) {
            return true;
        }
        i = i + 1;
    }
    proof {
        assert(forall|j: int| !(0 <= j < n) ==> !simple_tok_at(chars@, j));
    }
    false
}

/// The view of an optional borrowed string.
pub open spec fn opt_str_view(o: Option<&str>) -> Option<Seq<char>> {
    match o {
        Some(s) => Some(s@),
        None => None,
    }
}

} // verus!
