//! The subcommand entry: a parent command owning named sub-templates.  The
//! first extra argument selects one; unknown names are forwarded verbatim.

use vstd::prelude::*;

use crate::argparse::{fill_from, parse_ok, parse_result, ArgParser, FillErr};
use crate::errors::Error;
use crate::executors::quoted_views;
use crate::shell::shell_name;
use crate::text::{join_with, str_chars, str_equal, string_from_chars};

verus! {

/// The mathematical value of one sub-template.
pub struct FunctionV {
    pub command: Seq<char>,
    pub description: Option<Seq<char>>,
    pub descriptions: Option<Seq<Seq<char>>>,
}

/// One sub-template: a command with an optional description and optional
/// per-argument descriptions.
pub struct Function {
    pub command: String,
    pub description: Option<String>,
    pub descriptions: Option<Vec<String>>,
}

impl View for Function {
    type V = FunctionV;

    open spec fn view(&self) -> FunctionV {
        FunctionV {
            command: self.command@,
            description: match self.description {
                Some(d) => Some(d@),
                None => None,
            },
            descriptions: match self.descriptions {
                Some(ds) => Some(ds.deep_view()),
                None => None,
            },
        }
    }
}

impl Function {
    /// Copies a sub-template.
    pub fn duplicate(&self) -> (r: Function)
        ensures
            r@ == self@,
    {
        let descriptions = match &self.descriptions {
            Some(ds) => {
                let mut owned: Vec<String> = Vec::new();
                let mut k: usize = 0;
                while k < ds.len()
                    invariant
                        0 <= k <= ds@.len(),
                        owned@ == ds@.subrange(0, k as int),
                    decreases ds@.len() - k,
                {
                    owned.push(ds[k].clone());
                    k = k + 1;
                    proof {
                        assert(ds@.subrange(0, k as int) =~= ds@.subrange(0, k - 1).push(
                            ds@[k - 1],
                        ));
                    }
                }
                proof {
                    assert(ds@.subrange(0, ds@.len() as int) =~= ds@);
                }
                Some(owned)
            },
            None => None,
        };
        let r = Function {
            command: self.command.clone(),
            description: match &self.description {
                Some(d) => Some(d.clone()),
                None => None,
            },
            descriptions,
        };
        proof {
            assert(r@ == self@);
        }
        r
    }
}

/// A registered subcommand: a parent command and its named sub-templates.
pub struct SubCommand {
    pub command: String,
    pub condition: Option<String>,
    pub description: Option<String>,
    pub shell: Option<String>,
    pub subcommands: Vec<(String, Function)>,
}

/// The values of a stored sub-template list: each name with its template.
pub open spec fn subs_view(s: Seq<(String, Function)>) -> Seq<(Seq<char>, FunctionV)> {
    s.map_values(|p: (String, Function)| (p.0@, p.1@))
}

/// The first sub-template stored under `name`.
pub open spec fn sub_lookup(subs: Seq<(Seq<char>, FunctionV)>, name: Seq<char>) -> Option<
    FunctionV,
>
    decreases subs.len(),
{
    if subs.len() == 0 {
        None
    } else if subs[0].0 == name {
        Some(subs[0].1)
    } else {
        sub_lookup(subs.drop_first(), name)
    }
}

/// A name carried by no entry is never found.
pub proof fn lemma_sub_lookup_none_of(subs: Seq<(Seq<char>, FunctionV)>, name: Seq<char>)
    requires
        forall|i: int| 0 <= i < subs.len() ==> (#[trigger] subs[i]).0 != name,
    ensures
        sub_lookup(subs, name) is None,
    decreases subs.len(),
{
    if subs.len() > 0 {
        assert(forall|i: int|
            0 <= i < subs.drop_first().len() ==> #[trigger] subs.drop_first()[i] == subs[i + 1]);
        lemma_sub_lookup_none_of(subs.drop_first(), name);
    }
}

/// A name that is not found is carried by no entry.
pub proof fn lemma_sub_lookup_none_all(subs: Seq<(Seq<char>, FunctionV)>, name: Seq<char>)
    requires
        sub_lookup(subs, name) is None,
    ensures
        forall|i: int| 0 <= i < subs.len() ==> (#[trigger] subs[i]).0 != name,
    decreases subs.len(),
{
    if subs.len() > 0 {
        lemma_sub_lookup_none_all(subs.drop_first(), name);
        assert forall|i: int| 0 <= i < subs.len() implies (#[trigger] subs[i]).0 != name by {
            if i > 0 {
                assert(subs[i] == subs.drop_first()[i - 1]);
            }
        }
    }
}

/// The first sub-template under `name` stands at the first index carrying it.
pub proof fn lemma_sub_lookup_at(subs: Seq<(Seq<char>, FunctionV)>, name: Seq<char>, k: int)
    requires
        0 <= k < subs.len(),
        subs[k].0 == name,
        forall|j: int| 0 <= j < k ==> (#[trigger] subs[j]).0 != name,
    ensures
        sub_lookup(subs, name) == Some(subs[k].1),
    decreases k,
{
    if k > 0 {
        assert(forall|j: int|
            0 <= j < subs.drop_first().len() ==> #[trigger] subs.drop_first()[j] == subs[j + 1]);
        lemma_sub_lookup_at(subs.drop_first(), name, k - 1);
    }
}

/// The first name of `other` that `mine` already stores.
pub open spec fn first_dup(
    mine: Seq<(Seq<char>, FunctionV)>,
    other: Seq<(Seq<char>, FunctionV)>,
) -> Option<Seq<char>>
    decreases other.len(),
{
    if other.len() == 0 {
        None
    } else if sub_lookup(mine, other[0].0) is Some {
        Some(other[0].0)
    } else {
        first_dup(mine, other.drop_first())
    }
}

/// When no name of `other` is stored in `mine`, none of its entries is found
/// there.
pub proof fn lemma_first_dup_none_all(
    mine: Seq<(Seq<char>, FunctionV)>,
    other: Seq<(Seq<char>, FunctionV)>,
)
    requires
        first_dup(mine, other) is None,
    ensures
        forall|j: int| 0 <= j < other.len() ==> sub_lookup(mine, (#[trigger] other[j]).0) is None,
    decreases other.len(),
{
    if other.len() > 0 {
        lemma_first_dup_none_all(mine, other.drop_first());
        assert forall|j: int|
            0 <= j < other.len() implies sub_lookup(mine, (#[trigger] other[j]).0) is None by {
            if j > 0 {
                assert(other[j] == other.drop_first()[j - 1]);
            }
        }
    }
}

/// `subs` without the first sub-template stored under `name`.
pub open spec fn remove_sub(
    subs: Seq<(Seq<char>, FunctionV)>,
    name: Seq<char>,
) -> Seq<(Seq<char>, FunctionV)>
    decreases subs.len(),
{
    if subs.len() == 0 {
        subs
    } else if subs[0].0 == name {
        subs.drop_first()
    } else {
        seq![subs[0]] + remove_sub(subs.drop_first(), name)
    }
}

proof fn lemma_remove_sub_at(subs: Seq<(Seq<char>, FunctionV)>, name: Seq<char>, k: int)
    requires
        0 <= k < subs.len(),
        subs[k].0 == name,
        forall|j: int| 0 <= j < k ==> (#[trigger] subs[j]).0 != name,
    ensures
        remove_sub(subs, name) == subs.remove(k),
    decreases k,
{
    if k == 0 {
        assert(subs.drop_first() =~= subs.remove(0));
    } else {
        assert(forall|j: int|
            0 <= j < subs.drop_first().len() ==> #[trigger] subs.drop_first()[j] == subs[j + 1]);
        lemma_remove_sub_at(subs.drop_first(), name, k - 1);
        assert(seq![subs[0]] + subs.drop_first().remove(k - 1) =~= subs.remove(k));
    }
}

impl SubCommand {
    /// The stored sub-templates, as name/template values.
    pub open spec fn subs(&self) -> Seq<(Seq<char>, FunctionV)> {
        subs_view(self.subcommands@)
    }

    /// The names of the sub-templates are unique.
    pub open spec fn wf(&self) -> bool {
        forall|i: int, j: int|
            0 <= i < j < self.subs().len() ==> (#[trigger] self.subs()[i]).0 != (
            #[trigger] self.subs()[j]).0
    }

    /// A subcommand wrapping `program`, holding one sub-template `name`
    /// running `command`.  The description belongs to the sub-template, not
    /// to the parent.
    pub fn new(
        program: &str,
        name: &str,
        command: &str,
        condition: Option<&str>,
        description: Option<&str>,
        shell: Option<&str>,
    ) -> (r: SubCommand)
        ensures
            r.command@ == program@,
            crate::shell::opt_view(r.condition) == crate::executors::opt_str_view(condition),
            r.description is None,
            crate::shell::opt_view(r.shell) == crate::executors::opt_str_view(shell),
            r.subs().len() == 1,
            r.subs()[0].0 == name@,
            r.subs()[0].1.command == command@,
            r.subs()[0].1.description == crate::executors::opt_str_view(description),
            r.subs()[0].1.descriptions is None,
            r.wf(),
    {
        let condition = match condition {
            Some(s) => Some(s.to_owned()),
            None => None,
        };
        let description = match description {
            Some(s) => Some(s.to_owned()),
            None => None,
        };
        let shell = match shell {
            Some(s) => Some(s.to_owned()),
            None => None,
        };
        let mut subcommands: Vec<(String, Function)> = Vec::new();
        subcommands.push(
            (
                name.to_owned(),
                Function { command: command.to_owned(), description, descriptions: None },
            ),
        );
        SubCommand { command: program.to_owned(), condition, description: None, shell, subcommands }
    }

    /// The index of the first sub-template stored under `name`.
    fn index_of(&self, name: &str) -> (r: Option<usize>)
        ensures
            match r {
                Some(k) => k < self.subs().len() && self.subs()[k as int].0 == name@ && forall|
                    j: int,
                |
                    0 <= j < k ==> (#[trigger] self.subs()[j]).0 != name@,
                None => sub_lookup(self.subs(), name@) is None,
            },
    {
        let mut k: usize = 0;
        while k < self.subcommands.len()
            invariant
                0 <= k <= self.subcommands@.len(),
                forall|j: int| 0 <= j < k ==> (#[trigger] self.subs()[j]).0 != name@,
            decreases self.subcommands@.len() - k,
        {
            let pair = &self.subcommands[k];
            if str_equal(pair.0.as_str(), name) {
                proof {
                    assert(self.subs()[k as int].0 == name@);
                }
                return Some(k);
            }
            k = k + 1;
        }
        proof {
            lemma_sub_lookup_none_of(self.subs(), name@);
        }
        None
    }

    /// The sub-template stored under `name`, if any.
    pub fn get(&self, name: &str) -> (r: Option<&Function>)
        ensures
            match r {
                Some(f) => sub_lookup(self.subs(), name@) matches Some(g) && f@ == g,
                None => sub_lookup(self.subs(), name@) is None,
            },
    {
        match self.index_of(name) {
            Some(k) => {
                proof {
                    lemma_sub_lookup_at(self.subs(), name@, k as int);
                }
                let pair = &self.subcommands[k];
                Some(&pair.1)
            },
            None => None,
        }
    }

    /// Whether a sub-template is stored under `name`.
    pub fn contains(&self, name: &str) -> (r: bool)
        ensures
            r == (sub_lookup(self.subs(), name@) is Some),
    {
        match self.get(name) {
            Some(_) => true,
            None => false,
        }
    }

    /// Merges the sub-templates of `executor` into this entry; nothing is
    /// changed if any of its names is already stored here, and the first such
    /// name is reported.
    pub fn add(&mut self, executor: SubCommand) -> (r: Result<(), Error>)
        requires
            old(self).wf(),
            executor.wf(),
        ensures
            final(self).command == old(self).command,
            final(self).condition == old(self).condition,
            final(self).description == old(self).description,
            final(self).shell == old(self).shell,
            match r {
                Ok(()) => first_dup(old(self).subs(), executor.subs()) is None
                    && final(self).subs() == old(self).subs() + executor.subs()
                    && final(self).wf(),
                Err(e) => (e matches Error::DuplicateSubName(n) && first_dup(
                    old(self).subs(),
                    executor.subs(),
                ) matches Some(d) && n@ == d) && *final(self) == *old(self),
            },
    {
        let ghost mine = self.subs();
        let ghost others = executor.subs();
        let n = executor.subcommands.len();
        let mut k: usize = 0;
        proof {
            assert(others.skip(0) =~= others);
        }
        while k < n
            invariant
                0 <= k <= n,
                n == executor.subcommands@.len(),
                others == executor.subs(),
                others.len() == n,
                mine == self.subs(),
                first_dup(mine, others) == first_dup(mine, others.skip(k as int)),
                *self == *old(self),
            decreases n - k,
        {
            let ghost rest = others.skip(k as int);
            proof {
                assert(rest[0] == others[k as int]);
                assert(rest.drop_first() =~= others.skip(k + 1));
            }
            let pair = &executor.subcommands[k];
            proof {
                assert(others[k as int].0 == pair.0@);
            }
            if self.contains(pair.0.as_str()) {
                return Err(Error::DuplicateSubName(pair.0.clone()));
            }
            k = k + 1;
        }
        proof {
            assert(others.skip(n as int) =~= Seq::<(Seq<char>, FunctionV)>::empty());
        }
        let mut k2: usize = 0;
        proof {
            assert(others.subrange(0, 0) =~= Seq::<(Seq<char>, FunctionV)>::empty());
            assert(mine + others.subrange(0, 0) =~= mine);
        }
        while k2 < n
            invariant
                0 <= k2 <= n,
                n == executor.subcommands@.len(),
                others == executor.subs(),
                others.len() == n,
                self.subs() == mine + others.subrange(0, k2 as int),
                self.command == old(self).command,
                self.condition == old(self).condition,
                self.description == old(self).description,
                self.shell == old(self).shell,
            decreases n - k2,
        {
            let pair = &executor.subcommands[k2];
            let copy = (pair.0.clone(), pair.1.duplicate());
            proof {
                assert((copy.0@, copy.1@) == others[k2 as int]);
            }
            let ghost before = self.subs();
            self.subcommands.push(copy);
            k2 = k2 + 1;
            proof {
                assert(self.subs() =~~= before.push(others[k2 - 1]));
                assert(mine + others.subrange(0, k2 as int) =~= (mine + others.subrange(
                    0,
                    k2 - 1,
                )).push(others[k2 - 1]));
            }
        }
        proof {
            assert(others.subrange(0, n as int) =~= others);
            lemma_first_dup_none_all(mine, others);
            let merged = self.subs();
            assert forall|i: int, j: int|
                0 <= i < j < merged.len() implies (#[trigger] merged[i]).0 != (
            #[trigger] merged[j]).0 by {
                let m = mine.len() as int;
                if j < m {
                } else if i >= m {
                    assert(merged[i] == others[i - m] && merged[j] == others[j - m]);
                } else {
                    assert(merged[i] == mine[i] && merged[j] == others[j - m]);
                    assert(sub_lookup(mine, others[j - m].0) is None);
                    lemma_sub_lookup_none_all(mine, others[j - m].0);
                }
            }
        }
        Ok(())
    }

    /// Removes the sub-template stored under `name`; an error when there is
    /// none.  The owning registry drops an entry whose last sub-template was
    /// removed.
    pub fn remove(&mut self, name: &str) -> (r: Result<(), Error>)
        ensures
            old(self).wf() ==> final(self).wf(),
            final(self).command == old(self).command,
            final(self).condition == old(self).condition,
            final(self).description == old(self).description,
            final(self).shell == old(self).shell,
            match r {
                Ok(()) => sub_lookup(old(self).subs(), name@) is Some
                    && final(self).subs() == remove_sub(old(self).subs(), name@),
                Err(e) => (e matches Error::UnknownSubName(n) && n@ == name@) && sub_lookup(
                    old(self).subs(),
                    name@,
                ) is None && *final(self) == *old(self),
            },
    {
        match self.index_of(name) {
            Some(k) => {
                proof {
                    lemma_sub_lookup_at(self.subs(), name@, k as int);
                    lemma_remove_sub_at(self.subs(), name@, k as int);
                }
                let ghost before = self.subs();
                self.subcommands.remove(k);
                proof {
                    assert(self.subs() =~= before.remove(k as int));
                    if old(self).wf() {
                        assert forall|i: int, j: int|
                            0 <= i < j < self.subs().len() implies (#[trigger] self.subs()[i]).0
                            != (#[trigger] self.subs()[j]).0 by {
                            let i0: int = if i < k { i } else { i + 1 };
                            let j0: int = if j < k { j } else { j + 1 };
                            assert(self.subs()[i] == before[i0] && self.subs()[j] == before[j0]);
                        }
                    }
                }
                Ok(())
            },
            None => Err(Error::UnknownSubName(name.to_owned())),
        }
    }

    /// Whether any sub-template is stored.
    pub fn has_subcommands(&self) -> (r: bool)
        ensures
            r == (self.subs().len() != 0),
    {
        !self.subcommands.is_empty()
    }

    /// Quotes one extra argument: double quotes around it when it contains a
    /// space.
    pub fn format_args(&self, arg: &str) -> (r: Result<String, ()>)
        ensures
            r matches Ok(s) && s@ == crate::executors::quote_arg(arg@),
    {
        Ok(crate::executors::quote(arg))
    }

    /// The shell this entry runs under: the stored one, or `sh`.
    pub fn shell(&self) -> (r: &str)
        ensures
            r@ == shell_name(self.shell),
    {
        match &self.shell {
            Some(shell) => shell.as_str(),
            None => "sh",
        }
    }

    /// Assembles the line this entry runs for the given extra arguments,
    /// which are quoted first.  With none, the parent command runs verbatim.
    /// When the first argument is no stored name, all of them are forwarded
    /// verbatim.  Otherwise the matched sub-template is appended: filled from
    /// the remaining arguments when it has placeholders, else as it stands
    /// with the remaining arguments after it.
    pub fn build_command_line(&self, extra: &Vec<String>) -> (r: Result<String, Error>)
        ensures
            ({
                let quoted = quoted_views(extra.deep_view());
                if quoted.len() == 0 {
                    r matches Ok(s) && s@ == self.command@
                } else {
                    match sub_lookup(self.subs(), quoted[0]) {
                        None => r matches Ok(s) && s@ == self.command@ + seq![' '] + join_with(
                            quoted,
                            seq![' '],
                        ),
                        Some(f) => {
                            if !parse_ok(f.command) {
                                r matches Err(e) && e is MalformedPlaceholder
                            } else if parse_result(f.command, None).len() != 0 {
                                match fill_from(
                                    f.command,
                                    parse_result(f.command, None),
                                    quoted.skip(1),
                                    0,
                                ) {
                                    Ok(filled) => r matches Ok(s) && s@ == self.command@
                                        + seq![' '] + filled,
                                    Err(FillErr::OutOfBounds) => r matches Err(e) && e
                                        is OutOfBounds,
                                    Err(FillErr::MissingArgument) => r matches Err(e) && e
                                        is MissingArgument,
                                }
                            } else {
                                r matches Ok(s) && s@ == self.command@ + seq![' '] + f.command
                                    + seq![' '] + join_with(quoted.skip(1), seq![' '])
                            }
                        },
                    }
                }
            }),
    {
        let quoted = crate::executors::quote_all(extra);
        let ghost qv = quoted_views(extra.deep_view());
        if quoted.len() == 0 {
            return Ok(self.command.clone());
        }
        proof {
            assert(qv[0] == quoted@[0]@);
        }
        let rest = tail_strings(&quoted);
        proof {
            assert(rest.deep_view() =~= qv.skip(1));
        }
        let sub = match self.get(quoted[0].as_str()) {
            None => {
                let mut line = str_chars(self.command.as_str());
                line.push(' ');
                proof {
                    assert(line@ =~= self.command@ + seq![' ']);
                }
                crate::text::append_joined(&mut line, &quoted);
                proof {
                    assert(quoted.deep_view() == qv);
                }
                return Ok(string_from_chars(&line));
            },
            Some(f) => f,
        };
        let mut parser = ArgParser::new(sub.command.as_str(), None);
        match parser.parse() {
            Ok(()) => {},
            Err(e) => {
                return Err(e);
            },
        }
        let has = match parser.has_arguments() {
            Ok(b) => b,
            Err(e) => {
                return Err(e);
            },
        };
        if has {
            let filled = match parser.fill(rest) {
                Ok(f) => f,
                Err(e) => {
                    return Err(e);
                },
            };
            let mut line = str_chars(self.command.as_str());
            line.push(' ');
            proof {
                assert(line@ =~= self.command@ + seq![' ']);
            }
            let fc = str_chars(filled.as_str());
            crate::text::append_chars(&mut line, &fc);
            Ok(string_from_chars(&line))
        } else {
            let mut line = str_chars(self.command.as_str());
            line.push(' ');
            proof {
                assert(line@ =~= self.command@ + seq![' ']);
            }
            let sc = str_chars(sub.command.as_str());
            crate::text::append_chars(&mut line, &sc);
            line.push(' ');
            proof {
                assert(line@ =~= self.command@ + seq![' '] + sub.command@ + seq![' ']);
            }
            crate::text::append_joined(&mut line, &rest);
            Ok(string_from_chars(&line))
        }
    }
}

/// All strings of `v` but the first.
fn tail_strings(v: &Vec<String>) -> (r: Vec<String>)
    requires
        v@.len() >= 1,
    ensures
        r.deep_view() == v.deep_view().skip(1),
        r@.len() == v@.len() - 1,
{
    let mut out: Vec<String> = Vec::new();
    let mut k: usize = 1;
    while k < v.len()
        invariant
            1 <= k <= v@.len(),
            out@.len() == k - 1,
            forall|j: int| 0 <= j < k - 1 ==> out@[j]@ == v@[j + 1]@,
        decreases v@.len() - k,
    {
        out.push(v[k].clone());
        k = k + 1;
    }
    proof {
        assert(out.deep_view() =~= v.deep_view().skip(1));
    }
    out
}

} // verus!
