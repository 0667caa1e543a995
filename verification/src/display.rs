//! Renders the usage text `show` prints for an entry.  Everything here builds
//! strings only; printing is the surrounding program's business.

use vstd::prelude::*;
use vstd::string::StringExecFns;

use crate::argparse::{descs_view, parse_ok, parse_result, views_of, ArgParser, Argument, ArgumentV};
use crate::errors::Error;
use crate::executors::alias::Alias;
use crate::executors::function::Function;
use crate::executors::subcommand::{sub_lookup, FunctionV, SubCommand};
use crate::pad::{left_pad_without_1st_spec, pad_gap, spaces};
use crate::shell::{opt_view, shell_name};
use crate::text::{
    append_chars, append_str, dec_digits, join_with, push_decimal, replace_all_spec, str_chars,
    string_from_chars, trim_chars, trim_spec,
};

verus! {

/// The stored description, or the fixed default.
pub open spec fn desc_or_default(d: Option<Seq<char>>) -> Seq<char> {
    match d {
        Some(v) => v,
        None => "No description provided"@,
    }
}

/// The stored description on one line, or the fixed default.
pub open spec fn single_line_desc(d: Option<Seq<char>>) -> Seq<char> {
    match d {
        Some(v) => replace_all_spec(v, seq!['\n'], seq![' ']),
        None => "No description provided"@,
    }
}

/// The two usage lines every entry shows.
pub open spec fn usage_header(name: Seq<char>) -> Seq<char> {
    "Usage (Cet)    : cet exec "@ + name + " -- <EXTRA ARGS>\nUsage (Direct) : "@ + name
        + " <EXTRA ARGS>\n"@
}

/// One parameter line: index, required or optional, description on one line.
pub open spec fn param_line(i: nat, a: ArgumentV) -> Seq<char> {
    "    "@ + dec_digits(i) + " ("@ + (if a.required {
        "required"@
    } else {
        "optional"@
    }) + "): "@ + replace_all_spec(
        match a.description {
            Some(d) => d,
            None => if !a.required && a.end == usize::MAX as int {
                "Extra arguments that passing to original command"@
            } else {
                "No description provided"@
            },
        },
        seq!['\n'],
        seq![' '],
    )
}

/// The parameter lines of a placeholder list, in order.
pub open spec fn param_lines(args: Seq<ArgumentV>) -> Seq<Seq<char>> {
    Seq::new(args.len(), |i: int| param_line(i as nat, args[i]))
}

/// Appends the parameter lines, joined by line breaks.
fn append_param_lines(out: &mut Vec<char>, args: &Vec<Argument>)
    ensures
        final(out)@ == old(out)@ + join_with(param_lines(views_of(args@)), seq!['\n']),
{
    let ghost base = out@;
    let ghost pls = param_lines(views_of(args@));
    let mut i: usize = 0;
    proof {
        assert(pls.subrange(0, 0) =~= Seq::<Seq<char>>::empty());
        assert(base + join_with(pls.subrange(0, 0), seq!['\n']) =~= base);
    }
    while i < args.len()
        invariant
            0 <= i <= args@.len(),
            pls == param_lines(views_of(args@)),
            pls.len() == args@.len(),
            out@ == base + join_with(pls.subrange(0, i as int), seq!['\n']),
        decreases args@.len() - i,
    {
        let ghost done = pls.subrange(0, i as int);
        proof {
            crate::text::lemma_join_push(done, seq!['\n'], pls[i as int]);
            assert(pls.subrange(0, i + 1) =~= done.push(pls[i as int]));
            assert(views_of(args@)[i as int] == args@[i as int]@);
        }
        if i > 0 {
            out.push('\n');
        }
        let ghost mark = out@;
        append_str(out, "    ");
        push_decimal(out, i);
        append_str(out, " (");
        let a = &args[i];
        append_str(out, a.attribute());
        append_str(out, "): ");
        let single = crate::fmt::to_single_line(a.description());
        append_str(out, single.as_str());
        proof {
            assert(out@ =~= mark + param_line(i as nat, views_of(args@)[i as int]));
            if i > 0 {
                assert(out@ =~= base + (join_with(done, seq!['\n']) + seq!['\n'] + pls[i as int]));
            } else {
                assert(out@ =~= base + pls[0]);
            }
        }
        i = i + 1;
    }
    proof {
        assert(pls.subrange(0, pls.len() as int) =~= pls);
    }
}

/// What `show` prints for an alias.
pub open spec fn alias_display(a: Alias, name: Seq<char>) -> Seq<char> {
    usage_header(name) + "Execute        : "@ + left_pad_without_1st_spec(a.command@, 17)
        + "\nShell          : "@ + shell_name(a.shell) + "\n\n"@ + trim_spec(
        desc_or_default(opt_view(a.description)),
    )
}

/// Renders the usage text of an alias.
pub fn render_alias(a: &Alias, name: &str) -> (r: String)
    ensures
        r@ == alias_display(*a, name@),
{
    let mut out: Vec<char> = Vec::new();
    append_str(&mut out, "Usage (Cet)    : cet exec ");
    proof {
        assert(out@ =~= "Usage (Cet)    : cet exec "@);
    }
    append_str(&mut out, name);
    append_str(&mut out, " -- <EXTRA ARGS>\nUsage (Direct) : ");
    append_str(&mut out, name);
    append_str(&mut out, " <EXTRA ARGS>\n");
    append_str(&mut out, "Execute        : ");
    let padded = crate::pad::left_pad_without_1st(a.command.as_str(), 17);
    append_str(&mut out, padded.as_str());
    append_str(&mut out, "\nShell          : ");
    append_str(&mut out, a.shell());
    append_str(&mut out, "\n\n");
    let desc = match &a.description {
        Some(v) => v.as_str(),
        None => "No description provided",
    };
    let dchars = str_chars(desc);
    let trimmed = trim_chars(&dchars);
    append_chars(&mut out, &trimmed);
    proof {
        assert(out@ =~= alias_display(*a, name@));
    }
    string_from_chars(&out)
}

/// What `show` prints for a function whose placeholders are `args`.
pub open spec fn function_display(f: Function, name: Seq<char>, args: Seq<ArgumentV>) -> Seq<
    char,
> {
    usage_header(name) + "Execute        : "@ + left_pad_without_1st_spec(f.command@, 17)
        + "\nShell          : "@ + shell_name(f.shell) + "\nParameters     :\n"@ + join_with(
        param_lines(args),
        seq!['\n'],
    ) + "\n\n"@ + trim_spec(single_line_desc(opt_view(f.description)))
}

/// Renders the usage text of a function, its parameters taken from its
/// parsed template; fails only on a malformed template.
pub fn render_function(f: &Function, name: &str) -> (r: Result<String, Error>)
    ensures
        ({
            if !parse_ok(f.command@) {
                r matches Err(e) && e is MalformedPlaceholder
            } else {
                r matches Ok(s) && s@ == function_display(
                    *f,
                    name@,
                    parse_result(f.command@, descs_view(f.descriptions)),
                )
            }
        }),
{
    let descs: Option<Vec<&str>> = match &f.descriptions {
        Some(ds) => {
            let mut v: Vec<&str> = Vec::new();
            let mut k: usize = 0;
            while k < ds.len()
                invariant
                    0 <= k <= ds@.len(),
                    v@.len() == k,
                    forall|t: int| 0 <= t < k ==> v@[t]@ == ds@[t]@,
                decreases ds@.len() - k,
            {
                v.push(ds[k].as_str());
                k = k + 1;
            }
            proof {
                assert(v.deep_view() =~= ds.deep_view());
            }
            Some(v)
        },
        None => None,
    };
    let mut parser = ArgParser::new(f.command.as_str(), descs);
    proof {
        assert(descs_view(parser.descriptions) == descs_view(f.descriptions));
    }
    match parser.parse() {
        Ok(()) => {},
        Err(e) => {
            return Err(e);
        },
    }
    let arguments = match parser.arguments() {
        Some(v) => v,
        None => {
            return Err(Error::NotParsed);
        },
    };
    let mut out: Vec<char> = Vec::new();
    append_str(&mut out, "Usage (Cet)    : cet exec ");
    proof {
        assert(out@ =~= "Usage (Cet)    : cet exec "@);
    }
    append_str(&mut out, name);
    append_str(&mut out, " -- <EXTRA ARGS>\nUsage (Direct) : ");
    append_str(&mut out, name);
    append_str(&mut out, " <EXTRA ARGS>\n");
    append_str(&mut out, "Execute        : ");
    let padded = crate::pad::left_pad_without_1st(f.command.as_str(), 17);
    append_str(&mut out, padded.as_str());
    append_str(&mut out, "\nShell          : ");
    append_str(&mut out, f.shell());
    append_str(&mut out, "\nParameters     :\n");
    append_param_lines(&mut out, arguments);
    append_str(&mut out, "\n\n");
    let desc = match &f.description {
        Some(v) => crate::fmt::to_single_line(v.as_str()),
        None => String::from_str("No description provided"),
    };
    let dchars = str_chars(desc.as_str());
    let trimmed = trim_chars(&dchars);
    append_chars(&mut out, &trimmed);
    proof {
        assert(out@ =~= function_display(
            *f,
            name@,
            parse_result(f.command@, descs_view(f.descriptions)),
        ));
    }
    Ok(string_from_chars(&out))
}

/// The byte length of a stored name, as the machine reports it.
pub open spec fn key_len(s: Seq<char>) -> nat {
    (vstd::utf8::encode_utf8(s).len() as usize) as nat
}

/// The larger of two lengths.
pub open spec fn nat_max(a: nat, b: nat) -> nat {
    if a >= b {
        a
    } else {
        b
    }
}

/// The longest stored sub-name, in bytes.
pub open spec fn sub_longest(subs: Seq<(Seq<char>, FunctionV)>) -> nat
    decreases subs.len(),
{
    if subs.len() == 0 {
        0
    } else {
        nat_max(key_len(subs[0].0), sub_longest(subs.drop_first()))
    }
}

/// One listing line for a sub-template: padded name and one-line description.
pub open spec fn sub_line(subs: Seq<(Seq<char>, FunctionV)>, i: int) -> Seq<char> {
    "    "@ + (subs[i].0 + spaces(pad_gap(sub_longest(subs), key_len(subs[i].0)))) + " : "@
        + single_line_desc(subs[i].1.description)
}

/// The listing lines of all sub-templates, in storage order.
pub open spec fn sub_lines(subs: Seq<(Seq<char>, FunctionV)>) -> Seq<Seq<char>> {
    Seq::new(subs.len(), |i: int| sub_line(subs, i))
}

/// What `show` prints for a subcommand entry.
pub open spec fn subcommand_display(s: SubCommand, name: Seq<char>) -> Seq<char> {
    usage_header(name) + "Wrapped        : "@ + left_pad_without_1st_spec(s.command@, 17)
        + "\nShell          : "@ + shell_name(s.shell) + "\n\n"@ + desc_or_default(
        opt_view(s.description),
    ) + "\n\nSubCommands (show details of subcommand, pass `-s <name>`):\n"@ + join_with(
        sub_lines(s.subs()),
        seq!['\n'],
    )
}

/// What `show -s <name>` prints for one sub-template.
pub open spec fn sub_function_display(
    parent: Seq<char>,
    myself: Seq<char>,
    fv: FunctionV,
    args: Seq<ArgumentV>,
) -> Seq<char> {
    "Usage (Cet)    : cet exec "@ + parent + " -- "@ + myself
        + " <EXTRA ARGS>\nUsage (Direct) : "@ + parent + " "@ + myself
        + " <EXTRA ARGS>\nWrapped        : "@ + parent + " "@ + fv.command + "\n"@ + (if args.len()
        != 0 {
        "Parameters     :\n"@ + join_with(param_lines(args), seq!['\n']) + "\n"@
    } else {
        Seq::<char>::empty()
    }) + "\n"@ + trim_spec(desc_or_default(fv.description))
}

impl SubCommand {
    /// The longest stored sub-name, in bytes.
    fn longest_name(&self) -> (r: usize)
        ensures
            r as nat == sub_longest(self.subs()),
    {
        let n = self.subcommands.len();
        let mut longest: usize = 0;
        let mut k: usize = 0;
        proof {
            assert(self.subs().skip(0) =~= self.subs());
        }
        while k < n
            invariant
                0 <= k <= n,
                n == self.subcommands@.len(),
                self.subs().len() == n,
                sub_longest(self.subs()) == nat_max(
                    longest as nat,
                    sub_longest(self.subs().skip(k as int)),
                ),
            decreases n - k,
        {
            let ghost rest = self.subs().skip(k as int);
            proof {
                assert(rest[0] == self.subs()[k as int]);
                assert(rest.drop_first() =~= self.subs().skip(k + 1));
            }
            let pair = &self.subcommands[k];
            let len = pair.0.as_str().len();
            if len > longest {
                longest = len;
            }
            k = k + 1;
        }
        proof {
            assert(self.subs().skip(n as int) =~= Seq::<(Seq<char>, FunctionV)>::empty());
        }
        longest
    }

    /// Appends the listing lines of the sub-templates, joined by line breaks.
    fn append_sub_lines(&self, out: &mut Vec<char>)
        ensures
            final(out)@ == old(out)@ + join_with(sub_lines(self.subs()), seq!['\n']),
    {
        let longest = self.longest_name();
        let ghost base = out@;
        let ghost sls = sub_lines(self.subs());
        let n = self.subcommands.len();
        let mut i: usize = 0;
        proof {
            assert(sls.subrange(0, 0) =~= Seq::<Seq<char>>::empty());
            assert(base + join_with(sls.subrange(0, 0), seq!['\n']) =~= base);
        }
        while i < n
            invariant
                0 <= i <= n,
                n == self.subcommands@.len(),
                longest as nat == sub_longest(self.subs()),
                sls == sub_lines(self.subs()),
                sls.len() == n,
                out@ == base + join_with(sls.subrange(0, i as int), seq!['\n']),
            decreases n - i,
        {
            let ghost done = sls.subrange(0, i as int);
            proof {
                crate::text::lemma_join_push(done, seq!['\n'], sls[i as int]);
                assert(sls.subrange(0, i + 1) =~= done.push(sls[i as int]));
            }
            if i > 0 {
                out.push('\n');
            }
            let ghost mark = out@;
            append_str(out, "    ");
            let pair = &self.subcommands[i];
            let padded = crate::pad::right_pad(pair.0.as_str(), longest);
            append_str(out, padded.as_str());
            append_str(out, " : ");
            let desc = match &pair.1.description {
                Some(v) => crate::fmt::to_single_line(v.as_str()),
                None => String::from_str("No description provided"),
            };
            append_str(out, desc.as_str());
            proof {
                assert(self.subs()[i as int].0 == pair.0@);
                assert(self.subs()[i as int].1 == pair.1@);
                assert(out@ =~= mark + sub_line(self.subs(), i as int));
                if i > 0 {
                    assert(out@ =~= base + (join_with(done, seq!['\n']) + seq!['\n']
                        + sls[i as int]));
                } else {
                    assert(out@ =~= base + sls[0]);
                }
            }
            i = i + 1;
        }
        proof {
            assert(sls.subrange(0, sls.len() as int) =~= sls);
        }
    }

    /// Renders the usage text of this entry: the sub-template `sub` when one
    /// is named (an error when it is not stored), else the entry with its
    /// sub-template listing.
    pub fn render(&self, name: &str, sub: Option<&str>) -> (r: Result<String, Error>)
        requires
            sub is None ==> self.subs().len() != 0,
        ensures
            match sub {
                None => r matches Ok(s) && s@ == subcommand_display(*self, name@),
                Some(x) => match sub_lookup(self.subs(), x@) {
                    None => r matches Err(e) && (e matches Error::UnknownSubName(n) && n@ == x@),
                    Some(fv) => {
                        if !parse_ok(fv.command) {
                            r matches Err(e) && e is MalformedPlaceholder
                        } else {
                            r matches Ok(s) && s@ == sub_function_display(
                                name@,
                                x@,
                                fv,
                                parse_result(fv.command, fv.descriptions),
                            )
                        }
                    },
                },
            },
    {
        let subname = match sub {
            Some(x) => x,
            None => {
                let mut out: Vec<char> = Vec::new();
                append_str(&mut out, "Usage (Cet)    : cet exec ");
                proof {
                    assert(out@ =~= "Usage (Cet)    : cet exec "@);
                }
                append_str(&mut out, name);
                append_str(&mut out, " -- <EXTRA ARGS>\nUsage (Direct) : ");
                append_str(&mut out, name);
                append_str(&mut out, " <EXTRA ARGS>\n");
                append_str(&mut out, "Wrapped        : ");
                let padded = crate::pad::left_pad_without_1st(self.command.as_str(), 17);
                append_str(&mut out, padded.as_str());
                append_str(&mut out, "\nShell          : ");
                append_str(&mut out, self.shell());
                append_str(&mut out, "\n\n");
                let desc = match &self.description {
                    Some(v) => v.as_str(),
                    None => "No description provided",
                };
                append_str(&mut out, desc);
                append_str(&mut out, "\n\nSubCommands (show details of subcommand, pass `-s <name>`):\n");
                self.append_sub_lines(&mut out);
                proof {
                    assert(out@ =~= subcommand_display(*self, name@));
                }
                return Ok(string_from_chars(&out));
            },
        };
        let sub_fn = match self.get(subname) {
            Some(f) => f,
            None => {
                return Err(Error::UnknownSubName(subname.to_owned()));
            },
        };
        let descs: Option<Vec<&str>> = match &sub_fn.descriptions {
            Some(ds) => {
                let mut v: Vec<&str> = Vec::new();
                let mut k: usize = 0;
                while k < ds.len()
                    invariant
                        0 <= k <= ds@.len(),
                        v@.len() == k,
                        forall|t: int| 0 <= t < k ==> v@[t]@ == ds@[t]@,
                    decreases ds@.len() - k,
                {
                    v.push(ds[k].as_str());
                    k = k + 1;
                }
                proof {
                    assert(v.deep_view() =~= ds.deep_view());
                }
                Some(v)
            },
            None => None,
        };
        let mut parser = ArgParser::new(sub_fn.command.as_str(), descs);
        proof {
            assert(descs_view(parser.descriptions) == sub_fn@.descriptions);
        }
        match parser.parse() {
            Ok(()) => {},
            Err(e) => {
                return Err(e);
            },
        }
        let arguments = match parser.arguments() {
            Some(v) => v,
            None => {
                return Err(Error::NotParsed);
            },
        };
        let mut out: Vec<char> = Vec::new();
        append_str(&mut out, "Usage (Cet)    : cet exec ");
        proof {
            assert(out@ =~= "Usage (Cet)    : cet exec "@);
        }
        append_str(&mut out, name);
        append_str(&mut out, " -- ");
        append_str(&mut out, subname);
        append_str(&mut out, " <EXTRA ARGS>\nUsage (Direct) : ");
        append_str(&mut out, name);
        append_str(&mut out, " ");
        append_str(&mut out, subname);
        append_str(&mut out, " <EXTRA ARGS>\nWrapped        : ");
        append_str(&mut out, name);
        append_str(&mut out, " ");
        append_str(&mut out, sub_fn.command.as_str());
        append_str(&mut out, "\n");
        if !arguments.is_empty() {
            append_str(&mut out, "Parameters     :\n");
            append_param_lines(&mut out, arguments);
            append_str(&mut out, "\n");
        }
        append_str(&mut out, "\n");
        let desc = match &sub_fn.description {
            Some(v) => v.as_str(),
            None => "No description provided",
        };
        let dchars = str_chars(desc);
        let trimmed = trim_chars(&dchars);
        append_chars(&mut out, &trimmed);
        proof {
            let fv = sub_lookup(self.subs(), subname@)->Some_0;
            let args = parse_result(fv.command, fv.descriptions);
            assert(views_of(arguments@).len() == args.len());
            assert(out@ =~= sub_function_display(name@, subname@, fv, args));
        }
        Ok(string_from_chars(&out))
    }
}

} // verus!
