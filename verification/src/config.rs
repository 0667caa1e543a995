//! The registry: named entries, looked up, added and removed.  Reading and
//! writing the configuration file is the surrounding program's business; the
//! registry itself is plain data with the add/remove rules of the engine.

use vstd::prelude::*;

use crate::errors::Error;
use crate::executors::subcommand::{first_dup, remove_sub, sub_lookup};
use crate::executors::{executor_wf, Executor, SubCommand};
use crate::text::str_equal;

verus! {

/// The registry: entries in insertion order, with unique names.
pub struct Config {
    pub entries: Vec<(String, Executor)>,
}

/// The first entry stored under `name`.
pub open spec fn lookup_entry(entries: Seq<(String, Executor)>, name: Seq<char>) -> Option<
    Executor,
>
    decreases entries.len(),
{
    if entries.len() == 0 {
        None
    } else if entries[0].0@ == name {
        Some(entries[0].1)
    } else {
        lookup_entry(entries.drop_first(), name)
    }
}

/// A name carried by no entry is never found.
pub proof fn lemma_lookup_entry_none_of(entries: Seq<(String, Executor)>, name: Seq<char>)
    requires
        forall|i: int| 0 <= i < entries.len() ==> (#[trigger] entries[i]).0@ != name,
    ensures
        lookup_entry(entries, name) is None,
    decreases entries.len(),
{
    if entries.len() > 0 {
        assert(forall|i: int|
            0 <= i < entries.drop_first().len() ==> #[trigger] entries.drop_first()[i] == entries[
                i + 1
            ]);
        lemma_lookup_entry_none_of(entries.drop_first(), name);
    }
}

/// A name that is not found is carried by no entry.
pub proof fn lemma_lookup_entry_none_all(entries: Seq<(String, Executor)>, name: Seq<char>)
    requires
        lookup_entry(entries, name) is None,
    ensures
        forall|i: int| 0 <= i < entries.len() ==> (#[trigger] entries[i]).0@ != name,
    decreases entries.len(),
{
    if entries.len() > 0 {
        lemma_lookup_entry_none_all(entries.drop_first(), name);
        assert forall|i: int| 0 <= i < entries.len() implies (#[trigger] entries[i]).0@ != name by {
            if i > 0 {
                assert(entries[i] == entries.drop_first()[i - 1]);
            }
        }
    }
}

/// The first entry under `name` stands at the first index carrying it.
pub proof fn lemma_lookup_entry_at(entries: Seq<(String, Executor)>, name: Seq<char>, k: int)
    requires
        0 <= k < entries.len(),
        entries[k].0@ == name,
        forall|j: int| 0 <= j < k ==> (#[trigger] entries[j]).0@ != name,
    ensures
        lookup_entry(entries, name) == Some(entries[k].1),
    decreases k,
{
    if k > 0 {
        assert(forall|j: int|
            0 <= j < entries.drop_first().len() ==> #[trigger] entries.drop_first()[j] == entries[
                j + 1
            ]);
        lemma_lookup_entry_at(entries.drop_first(), name, k - 1);
    }
}

/// `entries` without the first entry stored under `name`.
pub open spec fn remove_entry(entries: Seq<(String, Executor)>, name: Seq<char>) -> Seq<
    (String, Executor),
>
    decreases entries.len(),
{
    if entries.len() == 0 {
        entries
    } else if entries[0].0@ == name {
        entries.drop_first()
    } else {
        seq![entries[0]] + remove_entry(entries.drop_first(), name)
    }
}

proof fn lemma_remove_entry_at(entries: Seq<(String, Executor)>, name: Seq<char>, k: int)
    requires
        0 <= k < entries.len(),
        entries[k].0@ == name,
        forall|j: int| 0 <= j < k ==> (#[trigger] entries[j]).0@ != name,
    ensures
        remove_entry(entries, name) == entries.remove(k),
    decreases k,
{
    if k == 0 {
        assert(entries.drop_first() =~= entries.remove(0));
    } else {
        assert(forall|j: int|
            0 <= j < entries.drop_first().len() ==> #[trigger] entries.drop_first()[j] == entries[
                j + 1
            ]);
        lemma_remove_entry_at(entries.drop_first(), name, k - 1);
        assert(seq![entries[0]] + entries.drop_first().remove(k - 1) =~= entries.remove(k));
    }
}

/// Removing an entry keeps names unique and subcommands well formed.
proof fn lemma_entries_remove_wf(entries: Seq<(String, Executor)>, k: int)
    requires
        0 <= k < entries.len(),
        forall|i: int, j: int|
            0 <= i < j < entries.len() ==> (#[trigger] entries[i]).0@ != (
            #[trigger] entries[j]).0@,
        forall|i: int| 0 <= i < entries.len() ==> executor_wf((#[trigger] entries[i]).1),
    ensures
        forall|i: int, j: int|
            0 <= i < j < entries.remove(k).len() ==> (#[trigger] entries.remove(k)[i]).0@ != (
            #[trigger] entries.remove(k)[j]).0@,
        forall|i: int|
            0 <= i < entries.remove(k).len() ==> executor_wf((#[trigger] entries.remove(k)[i]).1),
{
    assert forall|i: int, j: int|
        0 <= i < j < entries.remove(k).len() implies (#[trigger] entries.remove(k)[i]).0@ != (
    #[trigger] entries.remove(k)[j]).0@ by {
        let i0: int = if i < k {
            i
        } else {
            i + 1
        };
        let j0: int = if j < k {
            j
        } else {
            j + 1
        };
        assert(entries.remove(k)[i] == entries[i0] && entries.remove(k)[j] == entries[j0]);
    }
    assert forall|i: int|
        0 <= i < entries.remove(k).len() implies executor_wf(
        (#[trigger] entries.remove(k)[i]).1,
    ) by {
        let i0: int = if i < k {
            i
        } else {
            i + 1
        };
        assert(entries.remove(k)[i] == entries[i0]);
    }
}

impl Config {
    /// Entry names are unique, and stored subcommands are well formed.
    pub open spec fn wf(&self) -> bool {
        &&& forall|i: int, j: int|
            0 <= i < j < self.entries@.len() ==> (#[trigger] self.entries@[i]).0@ != (
            #[trigger] self.entries@[j]).0@
        &&& forall|i: int|
            0 <= i < self.entries@.len() ==> executor_wf((#[trigger] self.entries@[i]).1)
    }

    /// An empty registry.
    pub fn new() -> (r: Config)
        ensures
            r.entries@.len() == 0,
            r.wf(),
    {
        Config { entries: Vec::new() }
    }

    /// The index of the first entry stored under `name`.
    fn index_of(&self, name: &str) -> (r: Option<usize>)
        ensures
            match r {
                Some(k) => k < self.entries@.len() && self.entries@[k as int].0@ == name@ && forall|
                    j: int,
                |
                    0 <= j < k ==> (#[trigger] self.entries@[j]).0@ != name@,
                None => lookup_entry(self.entries@, name@) is None,
            },
    {
        let mut k: usize = 0;
        while k < self.entries.len()
            invariant
                0 <= k <= self.entries@.len(),
                forall|j: int| 0 <= j < k ==> (#[trigger] self.entries@[j]).0@ != name@,
            decreases self.entries@.len() - k,
        {
            let pair = &self.entries[k];
            if str_equal(pair.0.as_str(), name) {
                return Some(k);
            }
            k = k + 1;
        }
        proof {
            lemma_lookup_entry_none_of(self.entries@, name@);
        }
        None
    }

    /// The entry stored under `name`, if any.
    pub fn get(&self, name: &str) -> (r: Option<&Executor>)
        ensures
            match r {
                Some(e) => lookup_entry(self.entries@, name@) matches Some(x) && *e == x,
                None => lookup_entry(self.entries@, name@) is None,
            },
    {
        match self.index_of(name) {
            Some(k) => {
                proof {
                    lemma_lookup_entry_at(self.entries@, name@, k as int);
                }
                let pair = &self.entries[k];
                Some(&pair.1)
            },
            None => None,
        }
    }

    /// Whether an entry is stored under `name`.
    pub fn contains(&self, name: &str) -> (r: bool)
        ensures
            r == (lookup_entry(self.entries@, name@) is Some),
    {
        match self.get(name) {
            Some(_) => true,
            None => false,
        }
    }

    /// The stored names, in insertion order.
    pub fn keys(&self) -> (r: Vec<String>)
        ensures
            r.deep_view() == self.entries@.map_values(|p: (String, Executor)| p.0@),
    {
        let mut out: Vec<String> = Vec::new();
        let mut k: usize = 0;
        while k < self.entries.len()
            invariant
                0 <= k <= self.entries@.len(),
                out@.len() == k,
                forall|j: int| 0 <= j < k ==> out@[j]@ == (#[trigger] self.entries@[j]).0@,
            decreases self.entries@.len() - k,
        {
            let pair = &self.entries[k];
            out.push(pair.0.clone());
            k = k + 1;
        }
        proof {
            assert(out.deep_view() =~= self.entries@.map_values(|p: (String, Executor)| p.0@));
        }
        out
    }

    /// Registers `executor` under `name`.  A subcommand merges into an
    /// existing subcommand of that name (whole or not at all); any other
    /// collision is an error.
    pub fn add(&mut self, name: &str, executor: Executor) -> (r: Result<(), Error>)
        requires
            old(self).wf(),
            executor_wf(executor),
        ensures
            final(self).wf(),
            match r {
                Ok(()) => ({
                    if lookup_entry(old(self).entries@, name@) is None {
                        final(self).entries@.len() == old(self).entries@.len() + 1
                            && final(self).entries@.subrange(0, old(self).entries@.len() as int)
                            == old(self).entries@ && final(self).entries@.last().0@ == name@
                            && final(self).entries@.last().1 == executor
                    } else {
                        executor matches Executor::SubCommand(sc) && lookup_entry(
                            old(self).entries@,
                            name@,
                        ) matches Some(Executor::SubCommand(p)) && first_dup(p.subs(), sc.subs())
                            is None && merged_at(old(self).entries@, final(self).entries@, name@, sc)
                    }
                }),
                Err(e) => final(self).entries@ == old(self).entries@ && ({
                    ||| ((e matches Error::EntryAlreadyExists(n) && n@ == name@) && lookup_entry(
                        old(self).entries@,
                        name@,
                    ) is Some && (executor matches Executor::SubCommand(sc) ==> !(lookup_entry(
                        old(self).entries@,
                        name@,
                    ) matches Some(Executor::SubCommand(p)))))
                    ||| ((e matches Error::DuplicateSubName(d) && executor matches
                        Executor::SubCommand(sc) && lookup_entry(old(self).entries@, name@) matches
                        Some(Executor::SubCommand(p)) && first_dup(p.subs(), sc.subs()) matches
                        Some(x) && d@ == x))
                }),
            },
    {
        match executor {
            Executor::SubCommand(sc) => self.add_child(name, sc),
            other => {
                if self.contains(name) {
                    return Err(Error::EntryAlreadyExists(name.to_owned()));
                }
                let ghost before = self.entries@;
                self.entries.push((name.to_owned(), other));
                proof {
                    assert(self.entries@.subrange(0, before.len() as int) =~= before);
                    lemma_lookup_entry_none_all(before, name@);
                }
                Ok(())
            },
        }
    }

    /// Registers a subcommand: pushed when the name is free, merged when the
    /// name already holds a subcommand, an error otherwise.
    fn add_child(&mut self, name: &str, executor: SubCommand) -> (r: Result<(), Error>)
        requires
            old(self).wf(),
            executor.wf(),
        ensures
            final(self).wf(),
            match r {
                Ok(()) => ({
                    if lookup_entry(old(self).entries@, name@) is None {
                        final(self).entries@.len() == old(self).entries@.len() + 1
                            && final(self).entries@.subrange(0, old(self).entries@.len() as int)
                            == old(self).entries@ && final(self).entries@.last().0@ == name@
                            && final(self).entries@.last().1 == Executor::SubCommand(executor)
                    } else {
                        lookup_entry(old(self).entries@, name@) matches Some(
                            Executor::SubCommand(p),
                        ) && first_dup(p.subs(), executor.subs()) is None && merged_at(
                            old(self).entries@,
                            final(self).entries@,
                            name@,
                            executor,
                        )
                    }
                }),
                Err(e) => final(self).entries@ == old(self).entries@ && ({
                    ||| ((e matches Error::EntryAlreadyExists(n) && n@ == name@) && lookup_entry(
                        old(self).entries@,
                        name@,
                    ) is Some && !(lookup_entry(old(self).entries@, name@) matches Some(
                        Executor::SubCommand(p),
                    )))
                    ||| ((e matches Error::DuplicateSubName(d) && lookup_entry(
                        old(self).entries@,
                        name@,
                    ) matches Some(Executor::SubCommand(p)) && first_dup(p.subs(), executor.subs())
                        matches Some(x) && d@ == x))
                }),
            },
    {
        let idx = self.index_of(name);
        match idx {
            None => {
                let ghost before = self.entries@;
                self.entries.push((name.to_owned(), Executor::SubCommand(executor)));
                proof {
                    assert(self.entries@.subrange(0, before.len() as int) =~= before);
                    lemma_lookup_entry_none_all(before, name@);
                }
                Ok(())
            },
            Some(k) => {
                proof {
                    lemma_lookup_entry_at(self.entries@, name@, k as int);
                }
                let ghost before = self.entries@;
                let pair = self.entries.remove(k);
                let (key, ex) = pair;
                match ex {
                    Executor::SubCommand(mut parent) => {
                        proof {
                            assert(executor_wf(before[k as int].1));
                        }
                        let res = parent.add(executor);
                        let restored = (key, Executor::SubCommand(parent));
                        self.entries.insert(k, restored);
                        match res {
                            Ok(()) => {
                                proof {
                                    assert(self.entries@ =~= before.update(
                                        k as int,
                                        self.entries@[k as int],
                                    ));
                                }
                                Ok(())
                            },
                            Err(e) => {
                                proof {
                                    assert(self.entries@ =~= before);
                                }
                                Err(e)
                            },
                        }
                    },
                    other => {
                        self.entries.insert(k, (key, other));
                        proof {
                            assert(self.entries@ =~= before);
                        }
                        Err(Error::EntryAlreadyExists(name.to_owned()))
                    },
                }
            },
        }
    }

    /// Unregisters.  Without `program`, the entry `name` is removed whole.
    /// With it, the sub-template `name` is removed from the subcommand entry
    /// `program`, and that entry is dropped when its last sub-template goes.
    pub fn remove(&mut self, name: &str, program: Option<&str>) -> (r: Result<(), Error>)
        requires
            old(self).wf(),
        ensures
            final(self).wf(),
            match program {
                None => match r {
                    Ok(()) => lookup_entry(old(self).entries@, name@) is Some
                        && final(self).entries@ == remove_entry(old(self).entries@, name@),
                    Err(e) => (e matches Error::EntryNotFound(n) && n@ == name@) && lookup_entry(
                        old(self).entries@,
                        name@,
                    ) is None && final(self).entries@ == old(self).entries@,
                },
                Some(prog) => match r {
                    Ok(()) => ({
                        &&& lookup_entry(old(self).entries@, prog@) matches Some(
                            Executor::SubCommand(p),
                        )
                        &&& ({
                            let p = lookup_parent(old(self).entries@, prog@);
                            &&& sub_lookup(p.subs(), name@) is Some
                            &&& if remove_sub(p.subs(), name@).len() == 0 {
                                final(self).entries@ == remove_entry(old(self).entries@, prog@)
                            } else {
                                shrunk_at(old(self).entries@, final(self).entries@, prog@, name@)
                            }
                        })
                    }),
                    Err(e) => final(self).entries@ == old(self).entries@ && ({
                        ||| ((e matches Error::EntryNotFound(n) && n@ == prog@) && lookup_entry(
                            old(self).entries@,
                            prog@,
                        ) is None)
                        ||| ((e matches Error::UnknownSubName(n) && n@ == name@) && lookup_entry(
                            old(self).entries@,
                            prog@,
                        ) is Some && (lookup_entry(old(self).entries@, prog@) matches Some(
                            Executor::SubCommand(p),
                        ) ==> sub_lookup(p.subs(), name@) is None))
                    }),
                },
            },
    {
        match program {
            Some(prog) => {
                let idx = self.index_of(prog);
                let k = match idx {
                    None => {
                        return Err(Error::EntryNotFound(prog.to_owned()));
                    },
                    Some(k) => k,
                };
                proof {
                    lemma_lookup_entry_at(self.entries@, prog@, k as int);
                }
                let ghost before = self.entries@;
                let pair = self.entries.remove(k);
                let (key, ex) = pair;
                match ex {
                    Executor::SubCommand(mut parent) => {
                        let res = parent.remove(name);
                        match res {
                            Err(e) => {
                                self.entries.insert(k, (key, Executor::SubCommand(parent)));
                                proof {
                                    assert(self.entries@ =~= before);
                                }
                                Err(e)
                            },
                            Ok(()) => {
                                if parent.has_subcommands() {
                                    self.entries.insert(k, (key, Executor::SubCommand(parent)));
                                    proof {
                                        assert(self.entries@ =~= before.update(
                                            k as int,
                                            self.entries@[k as int],
                                        ));
                                        assert(executor_wf(before[k as int].1));
                                        assert forall|i: int, j: int|
                                            0 <= i < j < self.entries@.len() implies (
                                        #[trigger] self.entries@[i]).0@ != (
                                        #[trigger] self.entries@[j]).0@ by {
                                            assert(self.entries@[i].0 == before[i].0
                                                && self.entries@[j].0 == before[j].0);
                                        }
                                    }
                                    Ok(())
                                } else {
                                    proof {
                                        lemma_remove_entry_at(before, prog@, k as int);
                                        lemma_entries_remove_wf(before, k as int);
                                        assert(self.entries@ == before.remove(k as int));
                                    }
                                    Ok(())
                                }
                            },
                        }
                    },
                    other => {
                        self.entries.insert(k, (key, other));
                        proof {
                            assert(self.entries@ =~= before);
                        }
                        Err(Error::UnknownSubName(name.to_owned()))
                    },
                }
            },
            None => {
                match self.index_of(name) {
                    None => Err(Error::EntryNotFound(name.to_owned())),
                    Some(k) => {
                        proof {
                            lemma_lookup_entry_at(self.entries@, name@, k as int);
                            lemma_remove_entry_at(self.entries@, name@, k as int);
                            lemma_entries_remove_wf(self.entries@, k as int);
                        }
                        self.entries.remove(k);
                        Ok(())
                    },
                }
            },
        }
    }
}

/// The subcommand entry stored under `name` (meaningful only when one is).
pub open spec fn lookup_parent(entries: Seq<(String, Executor)>, name: Seq<char>) -> SubCommand {
    match lookup_entry(entries, name) {
        Some(Executor::SubCommand(p)) => p,
        _ => arbitrary(),
    }
}

/// `after` is `before` with the sub-templates of `sc` merged into the
/// subcommand entry under `name`; everything else is unchanged.
pub open spec fn merged_at(
    before: Seq<(String, Executor)>,
    after: Seq<(String, Executor)>,
    name: Seq<char>,
    sc: SubCommand,
) -> bool {
    exists|k: int|
        {
            &&& 0 <= k < before.len()
            &&& (#[trigger] before[k]).0@ == name
            &&& after.len() == before.len()
            &&& (forall|j: int| 0 <= j < before.len() && j != k ==> after[j] == #[trigger] before[j])
            &&& after[k].0 == before[k].0
            &&& before[k].1 matches Executor::SubCommand(p) && (after[k].1 matches
                Executor::SubCommand(m) && m.command == p.command && m.condition == p.condition
                && m.description == p.description && m.shell == p.shell && m.subs() == p.subs()
                + sc.subs())
        }
}

/// `after` is `before` with the sub-template `sub` removed from the
/// subcommand entry under `name`; everything else is unchanged.
pub open spec fn shrunk_at(
    before: Seq<(String, Executor)>,
    after: Seq<(String, Executor)>,
    name: Seq<char>,
    sub: Seq<char>,
) -> bool {
    exists|k: int|
        {
            &&& 0 <= k < before.len()
            &&& (#[trigger] before[k]).0@ == name
            &&& after.len() == before.len()
            &&& (forall|j: int| 0 <= j < before.len() && j != k ==> after[j] == #[trigger] before[j])
            &&& after[k].0 == before[k].0
            &&& before[k].1 matches Executor::SubCommand(p) && (after[k].1 matches
                Executor::SubCommand(m) && m.command == p.command && m.condition == p.condition
                && m.description == p.description && m.shell == p.shell && m.subs() == remove_sub(
                p.subs(),
                sub,
            ))
        }
}

} // verus!
