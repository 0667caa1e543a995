//! The engine's two global guarantees, proved once and for all: a template
//! without placeholder-shaped groups is left untouched, and filling a tidy
//! template from brace-free arguments leaves no placeholder behind.

use vstd::prelude::*;

use crate::argparse::{
    arg_of, cap_of, dedup_by_capture, digit_run_end, fill_from, insert_by_start,
    lemma_digit_run_end, parse_ok, parse_result, sort_by_start, token_at, tokens_from, ArgumentV,
    FillErr, Tok,
};
use crate::text::{is_digit_char, join_with, matches_at, replace_all_spec};

verus! {

// ---------------------------------------------------------------------------
// a template without placeholders
// ---------------------------------------------------------------------------

proof fn lemma_tokens_from_all_none(s: Seq<char>, i: int)
    requires
        0 <= i <= s.len(),
        forall|j: int| token_at(s, j) is None,
    ensures
        tokens_from(s, i) == Seq::<Tok>::empty(),
    decreases s.len() - i,
{
    if i < s.len() {
        lemma_tokens_from_all_none(s, i + 1);
    }
}

/// A template in which no placeholder-shaped group starts anywhere parses to
/// no placeholders, and filling it returns it unchanged, whatever the
/// arguments.
pub proof fn lemma_no_placeholders(
    s: Seq<char>,
    descs: Option<Seq<Seq<char>>>,
    vars: Seq<Seq<char>>,
)
    requires
        forall|j: int| token_at(s, j) is None,
    ensures
        parse_ok(s),
        parse_result(s, descs) == Seq::<ArgumentV>::empty(),
        fill_from(s, parse_result(s, descs), vars, 0) == Ok::<Seq<char>, FillErr>(s),
{
    lemma_tokens_from_all_none(s, 0);
    assert(tokens_from(s, 0).map_values(|t: Tok| arg_of(s, descs, t))
        =~= Seq::<ArgumentV>::empty());
}

// ---------------------------------------------------------------------------
// the shape of a capture
// ---------------------------------------------------------------------------

/// The shape every capture text has: an opening brace, a closing brace, and
/// no brace in between.
pub open spec fn cap_shaped(c: Seq<char>) -> bool {
    c.len() >= 2 && c[0] == '{' && c.last() == '}' && forall|k: int|
        1 <= k < c.len() - 1 ==> c[k] != '{' && c[k] != '}'
}

/// `s` holds no brace at all.
pub open spec fn brace_free(s: Seq<char>) -> bool {
    forall|i: int| 0 <= i < s.len() ==> s[i] != '{' && s[i] != '}'
}

/// Two shaped captures matching at the same position are the same text.
proof fn lemma_shaped_unique(s: Seq<char>, i: int, a: Seq<char>, b: Seq<char>)
    requires
        cap_shaped(a),
        cap_shaped(b),
        matches_at(s, i, a),
        matches_at(s, i, b),
    ensures
        a == b,
{
    if a.len() < b.len() {
        assert(s[i + a.len() - 1] == a.last());
        assert(b[a.len() - 1] == s[i + a.len() - 1]);
        assert(false);
    } else if b.len() < a.len() {
        assert(s[i + b.len() - 1] == b.last());
        assert(a[b.len() - 1] == s[i + b.len() - 1]);
        assert(false);
    } else {
        assert(a =~= b);
    }
}

// ---------------------------------------------------------------------------
// tidiness: braces only inside capture occurrences
// ---------------------------------------------------------------------------

/// The first capture of `caps` that matches in `s` at position `i`.
pub open spec fn caps_match_at(caps: Seq<Seq<char>>, s: Seq<char>, i: int) -> Option<Seq<char>>
    decreases caps.len(),
{
    if caps.len() == 0 {
        None
    } else if matches_at(s, i, caps[0]) {
        Some(caps[0])
    } else {
        caps_match_at(caps.drop_first(), s, i)
    }
}

proof fn lemma_caps_match_at_some(caps: Seq<Seq<char>>, s: Seq<char>, i: int)
    ensures
        caps_match_at(caps, s, i) matches Some(c) ==> matches_at(s, i, c) && caps.contains(c),
        caps_match_at(caps, s, i) is None ==> forall|k: int|
            0 <= k < caps.len() ==> !matches_at(s, i, #[trigger] caps[k]),
    decreases caps.len(),
{
    if caps.len() > 0 {
        lemma_caps_match_at_some(caps.drop_first(), s, i);
        if caps_match_at(caps, s, i) is Some {
            if !matches_at(s, i, caps[0]) {
                assert(caps.drop_first().contains(caps_match_at(caps, s, i)->Some_0));
            }
        } else {
            assert forall|k: int|
                0 <= k < caps.len() implies !matches_at(s, i, #[trigger] caps[k]) by {
                if k > 0 {
                    assert(caps[k] == caps.drop_first()[k - 1]);
                }
            }
        }
    }
}

/// If some capture of `caps` matches at `i`, the scan finds one (maybe an
/// earlier one in the list).
proof fn lemma_caps_match_at_finds(caps: Seq<Seq<char>>, s: Seq<char>, i: int, k: int)
    requires
        0 <= k < caps.len(),
        matches_at(s, i, caps[k]),
    ensures
        caps_match_at(caps, s, i) is Some,
    decreases caps.len(),
{
    if !matches_at(s, i, caps[0]) {
        assert(caps.drop_first()[k - 1] == caps[k]);
        lemma_caps_match_at_finds(caps.drop_first(), s, i, k - 1);
    }
}

/// Every capture of `caps` is shaped and so at least two characters long.
pub open spec fn caps_shaped(caps: Seq<Seq<char>>) -> bool {
    forall|k: int| 0 <= k < caps.len() ==> cap_shaped(#[trigger] caps[k])
}

/// Scanning from `i`, every brace of `s` lies inside an occurrence of one of
/// the captures `caps`; occurrences are skipped whole.
pub open spec fn clean_from(s: Seq<char>, caps: Seq<Seq<char>>, i: int) -> bool
    decreases s.len() - i when 0 <= i <= s.len() && caps_shaped(caps) via clean_from_decreases
{
    if i >= s.len() {
        true
    } else {
        match caps_match_at(caps, s, i) {
            Some(c) => clean_from(s, caps, i + c.len()),
            None => s[i] != '{' && s[i] != '}' && clean_from(s, caps, i + 1),
        }
    }
}

#[via_fn]
proof fn clean_from_decreases(s: Seq<char>, caps: Seq<Seq<char>>, i: int) {
    lemma_caps_match_at_some(caps, s, i);
    if 0 <= i < s.len() {
        match caps_match_at(caps, s, i) {
            Some(c) => {
                assert(caps.contains(c));
                let k = choose|k: int| 0 <= k < caps.len() && caps[k] == c;
                assert(cap_shaped(c));
            },
            None => {},
        }
    }
}

proof fn lemma_contains_shaped(caps: Seq<Seq<char>>, c: Seq<char>)
    requires
        caps_shaped(caps),
        caps.contains(c),
    ensures
        cap_shaped(c),
{
    let k = choose|k: int| 0 <= k < caps.len() && caps[k] == c;
}

proof fn lemma_caps_match_congruent(
    caps: Seq<Seq<char>>,
    s1: Seq<char>,
    i1: int,
    s2: Seq<char>,
    i2: int,
)
    requires
        forall|k: int|
            0 <= k < caps.len() ==> matches_at(s1, i1, #[trigger] caps[k]) == matches_at(
                s2,
                i2,
                caps[k],
            ),
    ensures
        caps_match_at(caps, s1, i1) == caps_match_at(caps, s2, i2),
    decreases caps.len(),
{
    if caps.len() > 0 {
        assert(forall|k: int|
            0 <= k < caps.drop_first().len() ==> #[trigger] caps.drop_first()[k] == caps[k + 1]);
        lemma_caps_match_congruent(caps.drop_first(), s1, i1, s2, i2);
    }
}

/// Scanning a concatenation past its first part is scanning the second part.
proof fn lemma_clean_shift(y: Seq<char>, x: Seq<char>, caps: Seq<Seq<char>>, i: int)
    requires
        caps_shaped(caps),
        y.len() <= i <= y.len() + x.len(),
    ensures
        clean_from(y + x, caps, i) == clean_from(x, caps, i - y.len()),
    decreases y.len() + x.len() - i,
{
    let s = y + x;
    assert forall|k: int|
        0 <= k < caps.len() implies matches_at(s, i, #[trigger] caps[k]) == matches_at(
        x,
        i - y.len(),
        caps[k],
    ) by {
        let ln = caps[k].len() as int;
        if i + ln <= s.len() {
            assert(s.subrange(i, i + ln) =~= x.subrange(i - y.len(), i - y.len() + ln));
        }
    }
    lemma_caps_match_congruent(caps, s, i, x, i - y.len());
    if i < s.len() {
        lemma_caps_match_at_some(caps, s, i);
        match caps_match_at(caps, s, i) {
            Some(c) => {
                lemma_contains_shaped(caps, c);
                lemma_clean_shift(y, x, caps, i + c.len());
            },
            None => {
                assert(s[i] == x[i - y.len()]);
                lemma_clean_shift(y, x, caps, i + 1);
            },
        }
    }
}

/// A brace-free prefix never disturbs tidiness.
proof fn lemma_clean_prepend(y: Seq<char>, x: Seq<char>, caps: Seq<Seq<char>>, i: int)
    requires
        caps_shaped(caps),
        brace_free(y),
        clean_from(x, caps, 0),
        0 <= i <= y.len(),
    ensures
        clean_from(y + x, caps, i),
    decreases y.len() - i,
{
    let s = y + x;
    if i == y.len() {
        lemma_clean_shift(y, x, caps, i);
    } else {
        lemma_caps_match_at_some(caps, s, i);
        match caps_match_at(caps, s, i) {
            Some(c) => {
                lemma_contains_shaped(caps, c);
                assert(s.subrange(i, i + c.len() as int)[0] == s[i]);
                assert(s[i] == y[i]);
                assert(false);
            },
            None => {
                assert(s[i] == y[i]);
                lemma_clean_prepend(y, x, caps, i + 1);
            },
        }
    }
}

/// Replacement copies a match-free prefix verbatim.
proof fn lemma_replace_skip_prefix(s: Seq<char>, f: Seq<char>, to: Seq<char>, m: int)
    requires
        0 <= m <= s.len(),
        f.len() > 0,
        forall|j: int| 0 <= j < m ==> !matches_at(s, j, f),
    ensures
        replace_all_spec(s, f, to) == s.take(m) + replace_all_spec(s.skip(m), f, to),
    decreases m,
{
    if m == 0 {
        assert(s.skip(0) =~= s);
        assert(s.take(0) + replace_all_spec(s, f, to) =~= replace_all_spec(s, f, to));
    } else {
        assert(!matches_at(s, 0, f));
        if f.len() <= s.len() {
            assert(s.subrange(0, f.len() as int) == f ==> matches_at(s, 0, f));
        }
        assert(replace_all_spec(s, f, to) == seq![s[0]] + replace_all_spec(s.drop_first(), f, to));
        let d = s.drop_first();
        assert forall|j: int| 0 <= j < m - 1 implies !matches_at(d, j, f) by {
            let ln = f.len() as int;
            if j + ln <= d.len() {
                assert(d.subrange(j, j + ln) =~= s.subrange(j + 1, j + 1 + ln));
            }
            assert(!matches_at(s, j + 1, f));
        }
        lemma_replace_skip_prefix(d, f, to, m - 1);
        assert(d.skip(m - 1) =~= s.skip(m));
        assert(seq![s[0]] + (d.take(m - 1) + replace_all_spec(s.skip(m), f, to)) =~= s.take(m)
            + replace_all_spec(s.skip(m), f, to));
    }
}

/// Replacing the first capture by brace-free text keeps the string tidy with
/// respect to the remaining captures.
proof fn lemma_replace_clean(s: Seq<char>, caps: Seq<Seq<char>>, to: Seq<char>)
    requires
        caps.len() >= 1,
        caps_shaped(caps),
        clean_from(s, caps, 0),
        brace_free(to),
    ensures
        clean_from(replace_all_spec(s, caps[0], to), caps.drop_first(), 0),
    decreases s.len(),
{
    let f = caps[0];
    let caps2 = caps.drop_first();
    assert(forall|k: int| 0 <= k < caps2.len() ==> #[trigger] caps2[k] == caps[k + 1]);
    assert(caps_shaped(caps2));
    if s.len() == 0 {
        assert(replace_all_spec(s, f, to) == s);
    } else if matches_at(s, 0, f) {
        assert(caps_match_at(caps, s, 0) == Some(f));
        assert(clean_from(s, caps, f.len() as int));
        let tail = s.skip(f.len() as int);
        assert(s =~= s.take(f.len() as int) + tail);
        lemma_clean_shift(s.take(f.len() as int), tail, caps, f.len() as int);
        assert(clean_from(tail, caps, 0));
        lemma_replace_clean(tail, caps, to);
        let x = replace_all_spec(tail, f, to);
        assert(replace_all_spec(s, f, to) == to + x);
        lemma_clean_prepend(to, x, caps2, 0);
    } else {
        lemma_caps_match_at_some(caps, s, 0);
        match caps_match_at(caps, s, 0) {
            Some(c) => {
                lemma_contains_shaped(caps, c);
                assert(c != f);
                assert(clean_from(s, caps, c.len() as int));
                assert forall|j: int| 0 <= j < c.len() implies !matches_at(s, j, f) by {
                    if j == 0 {
                    } else if matches_at(s, j, f) {
                        assert(s.subrange(j, j + f.len() as int)[0] == s[j]);
                        assert(s[j] == s.subrange(0, c.len() as int)[j]);
                        assert(s.subrange(0, c.len() as int) == c);
                        assert(c[j] == '{');
                        assert(false);
                    }
                }
                lemma_replace_skip_prefix(s, f, to, c.len() as int);
                let tail = s.skip(c.len() as int);
                assert(s =~= s.take(c.len() as int) + tail);
                lemma_clean_shift(s.take(c.len() as int), tail, caps, c.len() as int);
                assert(clean_from(tail, caps, 0));
                lemma_replace_clean(tail, caps, to);
                let x = replace_all_spec(tail, f, to);
                assert(s.take(c.len() as int) =~= c);
                assert(replace_all_spec(s, f, to) == c + x);
                // the scan of `c + x` starts on an occurrence of `c`
                assert((c + x).subrange(0, c.len() as int) =~= c);
                assert(matches_at(c + x, 0, c));
                let ki = choose|k: int| 0 <= k < caps.len() && caps[k] == c;
                assert(caps2[ki - 1] == c);
                lemma_caps_match_at_finds(caps2, c + x, 0, ki - 1);
                lemma_caps_match_at_some(caps2, c + x, 0);
                let found = caps_match_at(caps2, c + x, 0)->Some_0;
                lemma_contains_shaped(caps2, found);
                lemma_shaped_unique(c + x, 0, found, c);
                lemma_clean_shift(c, x, caps2, c.len() as int);
                assert(clean_from(c + x, caps2, 0));
            },
            None => {
                assert(clean_from(s, caps, 1));
                let d = s.drop_first();
                assert(s =~= s.take(1) + d);
                lemma_clean_shift(s.take(1), d, caps, 1);
                assert(clean_from(d, caps, 0));
                lemma_replace_clean(d, caps, to);
                let x = replace_all_spec(d, f, to);
                if f.len() <= s.len() {
                    assert(s.subrange(0, f.len() as int) == f ==> matches_at(s, 0, f));
                }
                assert(replace_all_spec(s, f, to) == seq![s[0]] + x);
                assert(brace_free(seq![s[0]]));
                lemma_clean_prepend(seq![s[0]], x, caps2, 0);
            },
        }
    }
}

// ---------------------------------------------------------------------------
// filling a tidy template
// ---------------------------------------------------------------------------

/// The capture texts of a placeholder list, in order.
pub open spec fn caps_of(args: Seq<ArgumentV>) -> Seq<Seq<char>> {
    args.map_values(|a: ArgumentV| a.capture)
}

proof fn lemma_join_brace_free(parts: Seq<Seq<char>>)
    requires
        forall|k: int| 0 <= k < parts.len() ==> brace_free(#[trigger] parts[k]),
    ensures
        brace_free(join_with(parts, seq![' '])),
    decreases parts.len(),
{
    if parts.len() >= 2 {
        assert(forall|k: int|
            0 <= k < parts.drop_first().len() ==> #[trigger] parts.drop_first()[k] == parts[k
                + 1]);
        lemma_join_brace_free(parts.drop_first());
        let j = join_with(parts, seq![' ']);
        assert forall|i: int| 0 <= i < j.len() implies j[i] != '{' && j[i] != '}' by {
            let front = parts[0] + seq![' '];
            if i < front.len() {
                if i < parts[0].len() {
                    assert(j[i] == parts[0][i]);
                } else {
                    assert(j[i] == ' ');
                }
            } else {
                assert(j[i] == join_with(parts.drop_first(), seq![' '])[i - front.len()]);
            }
        }
    }
}

proof fn lemma_clean_empty_brace_free(s: Seq<char>, i: int)
    requires
        0 <= i <= s.len(),
        clean_from(s, Seq::<Seq<char>>::empty(), i),
    ensures
        forall|j: int| i <= j < s.len() ==> s[j] != '{' && s[j] != '}',
    decreases s.len() - i,
{
    if i < s.len() {
        lemma_clean_empty_brace_free(s, i + 1);
    }
}

/// Placeholders whose spans are still to be filled keep the string tidy;
/// once all are filled, no brace is left.
proof fn lemma_fill_clean(cur: Seq<char>, args: Seq<ArgumentV>, vars: Seq<Seq<char>>, i: int)
    requires
        0 <= i <= args.len(),
        forall|k: int|
            i <= k < args.len() ==> cap_shaped((#[trigger] args[k]).capture) && args[k].start
                >= 0,
        clean_from(cur, caps_of(args).skip(i), 0),
        forall|k: int| 0 <= k < vars.len() ==> brace_free(#[trigger] vars[k]),
        fill_from(cur, args, vars, i) is Ok,
    ensures
        brace_free(fill_from(cur, args, vars, i)->Ok_0),
    decreases args.len() - i,
{
    let caps = caps_of(args).skip(i);
    assert forall|k: int| 0 <= k < caps.len() implies cap_shaped(#[trigger] caps[k]) by {
        assert(caps[k] == args[k + i].capture);
    }
    if i >= args.len() {
        assert(caps =~= Seq::<Seq<char>>::empty());
        lemma_clean_empty_brace_free(cur, 0);
    } else {
        let a = args[i];
        assert(caps[0] == a.capture);
        assert(caps.drop_first() =~= caps_of(args).skip(i + 1));
        let actual: int = if a.end == usize::MAX as int {
            vars.len() as int
        } else {
            a.end
        };
        if !(a.start <= actual && actual <= vars.len()) {
            assert(!a.required);
            assert(brace_free(Seq::<char>::empty()));
            lemma_replace_clean(cur, caps, Seq::<char>::empty());
            lemma_fill_clean(
                replace_all_spec(cur, a.capture, Seq::<char>::empty()),
                args,
                vars,
                i + 1,
            );
        } else {
            assert(!(a.required && actual == a.start));
            let parts = vars.subrange(a.start, actual);
            assert(forall|k: int| 0 <= k < parts.len() ==> parts[k] == vars[a.start + k]);
            lemma_join_brace_free(parts);
            let to = join_with(parts, seq![' ']);
            lemma_replace_clean(cur, caps, to);
            lemma_fill_clean(replace_all_spec(cur, a.capture, to), args, vars, i + 1);
        }
    }
}

// ---------------------------------------------------------------------------
// every parsed capture is shaped
// ---------------------------------------------------------------------------

proof fn lemma_token_cap_shaped(s: Seq<char>, i: int)
    requires
        token_at(s, i) is Some,
    ensures
        cap_shaped(cap_of(s, token_at(s, i)->Some_0)),
{
    lemma_digit_run_end(s, i + 1);
    let d = digit_run_end(s, i + 1);
    let t = token_at(s, i)->Some_0;
    let c = cap_of(s, t);
    if !(d < s.len() && s[d] == '}') && !(d + 1 < s.len() && s[d] == '?' && s[d + 1] == '}') && (d
        + 1 < s.len() && s[d] == '.' && s[d + 1] == '.') && !(d + 2 < s.len() && s[d + 2] == '}')
        && !(d + 3 < s.len() && s[d + 2] == '?' && s[d + 3] == '}') {
        lemma_digit_run_end(s, d + 2);
    }
    assert forall|k: int| 1 <= k < c.len() - 1 implies c[k] != '{' && c[k] != '}' by {
        assert(c[k] == s[i + k]);
        if is_digit_char(s[i + k]) {
            assert(s[i + k] as u32 <= 57);
        }
    }
}

/// Every group the scanner finds has a shaped capture.
proof fn lemma_tokens_caps_shaped(s: Seq<char>, i: int)
    requires
        0 <= i <= s.len(),
    ensures
        forall|j: int|
            0 <= j < tokens_from(s, i).len() ==> cap_shaped(
                cap_of(s, #[trigger] tokens_from(s, i)[j]),
            ),
    decreases s.len() - i,
{
    if i < s.len() {
        match token_at(s, i) {
            Some(t) => {
                crate::argparse::lemma_token_at_bounds(s, i);
                lemma_tokens_caps_shaped(s, i + t.len);
                lemma_token_cap_shaped(s, i);
                assert(tokens_from(s, i) == seq![t] + tokens_from(s, i + t.len));
                assert forall|j: int|
                    0 <= j < tokens_from(s, i).len() implies cap_shaped(
                    cap_of(s, #[trigger] tokens_from(s, i)[j]),
                ) by {
                    if j == 0 {
                        assert(tokens_from(s, i)[0] == t);
                    } else {
                        assert(tokens_from(s, i)[j] == tokens_from(s, i + t.len)[j - 1]);
                    }
                }
            },
            None => {
                lemma_tokens_caps_shaped(s, i + 1);
                assert(tokens_from(s, i) == tokens_from(s, i + 1));
                assert forall|j: int|
                    0 <= j < tokens_from(s, i).len() implies cap_shaped(
                    cap_of(s, #[trigger] tokens_from(s, i)[j]),
                ) by {
                    assert(tokens_from(s, i)[j] == tokens_from(s, i + 1)[j]);
                }
            },
        }
    }
}

/// Every capture of `args` is shaped and every span start is a position.
pub open spec fn args_fill_ok(args: Seq<ArgumentV>) -> bool {
    forall|k: int|
        0 <= k < args.len() ==> cap_shaped((#[trigger] args[k]).capture) && args[k].start >= 0
}

proof fn lemma_insert_caps_shaped(x: ArgumentV, s: Seq<ArgumentV>)
    requires
        args_fill_ok(s),
        cap_shaped(x.capture),
        x.start >= 0,
    ensures
        args_fill_ok(insert_by_start(x, s)),
    decreases s.len(),
{
    if s.len() == 0 {
    } else if s[0].start <= x.start {
        assert(forall|k: int|
            0 <= k < s.drop_first().len() ==> #[trigger] s.drop_first()[k] == s[k + 1]);
        lemma_insert_caps_shaped(x, s.drop_first());
        let r = seq![s[0]] + insert_by_start(x, s.drop_first());
        assert forall|k: int| 0 <= k < r.len() implies cap_shaped((#[trigger] r[k]).capture) && r[k].start >= 0 by {
            if k > 0 {
                assert(r[k] == insert_by_start(x, s.drop_first())[k - 1]);
            }
        }
    } else {
        let r = seq![x] + s;
        assert forall|k: int| 0 <= k < r.len() implies cap_shaped((#[trigger] r[k]).capture) && r[k].start >= 0 by {
            if k > 0 {
                assert(r[k] == s[k - 1]);
            }
        }
    }
}

proof fn lemma_sort_caps_shaped(s: Seq<ArgumentV>)
    requires
        args_fill_ok(s),
    ensures
        args_fill_ok(sort_by_start(s)),
    decreases s.len(),
{
    if s.len() > 0 {
        lemma_sort_caps_shaped(s.drop_last());
        lemma_insert_caps_shaped(s.last(), sort_by_start(s.drop_last()));
    }
}

proof fn lemma_dedup_caps_shaped(s: Seq<ArgumentV>, seen: Set<Seq<char>>)
    requires
        args_fill_ok(s),
    ensures
        args_fill_ok(dedup_by_capture(s, seen)),
    decreases s.len(),
{
    if s.len() > 0 {
        assert(forall|k: int|
            0 <= k < s.drop_first().len() ==> #[trigger] s.drop_first()[k] == s[k + 1]);
        if seen.contains(s[0].capture) {
            lemma_dedup_caps_shaped(s.drop_first(), seen);
        } else {
            lemma_dedup_caps_shaped(s.drop_first(), seen.insert(s[0].capture));
            let r = seq![s[0]] + dedup_by_capture(s.drop_first(), seen.insert(s[0].capture));
            assert forall|k: int|
                0 <= k < r.len() implies cap_shaped((#[trigger] r[k]).capture) && r[k].start >= 0 by {
                if k > 0 {
                    assert(r[k] == dedup_by_capture(s.drop_first(), seen.insert(s[0].capture))[k
                        - 1]);
                }
            }
        }
    }
}

/// Every placeholder `parse` returns carries a shaped capture.
pub proof fn lemma_parse_result_caps_shaped(s: Seq<char>, descs: Option<Seq<Seq<char>>>)
    ensures
        args_fill_ok(parse_result(s, descs)),
{
    lemma_tokens_caps_shaped(s, 0);
    let mapped = tokens_from(s, 0).map_values(|t: Tok| arg_of(s, descs, t));
    assert forall|k: int|
        0 <= k < mapped.len() implies cap_shaped((#[trigger] mapped[k]).capture) && mapped[k].start >= 0 by {
        assert(mapped[k] == arg_of(s, descs, tokens_from(s, 0)[k]));
    }
    lemma_sort_caps_shaped(mapped);
    lemma_dedup_caps_shaped(sort_by_start(mapped), Set::empty());
}

// ---------------------------------------------------------------------------
// order and uniqueness of the parse result
// ---------------------------------------------------------------------------

/// Span starts never decrease along the list.
pub open spec fn sorted_by_start(s: Seq<ArgumentV>) -> bool {
    forall|i: int, j: int|
        0 <= i < j < s.len() ==> (#[trigger] s[i]).start <= (#[trigger] s[j]).start
}

/// No capture text appears twice.
pub open spec fn unique_captures(s: Seq<ArgumentV>) -> bool {
    forall|i: int, j: int|
        0 <= i < j < s.len() ==> (#[trigger] s[i]).capture != (#[trigger] s[j]).capture
}

proof fn lemma_insert_sorted(x: ArgumentV, s: Seq<ArgumentV>)
    requires
        sorted_by_start(s),
    ensures
        sorted_by_start(insert_by_start(x, s)),
        forall|k: int|
            0 <= k < insert_by_start(x, s).len() ==> (#[trigger] insert_by_start(x, s)[k]) == x
                || s.contains(insert_by_start(x, s)[k]),
    decreases s.len(),
{
    let r = insert_by_start(x, s);
    if s.len() == 0 {
    } else if s[0].start <= x.start {
        assert(forall|k: int|
            0 <= k < s.drop_first().len() ==> #[trigger] s.drop_first()[k] == s[k + 1]);
        lemma_insert_sorted(x, s.drop_first());
        let rest = insert_by_start(x, s.drop_first());
        assert forall|k: int| 0 <= k < r.len() implies (#[trigger] r[k]) == x || s.contains(
            r[k],
        ) by {
            if k > 0 {
                assert(r[k] == rest[k - 1]);
                if rest[k - 1] != x {
                    let w = choose|w: int|
                        0 <= w < s.drop_first().len() && s.drop_first()[w] == rest[k - 1];
                    assert(s[w + 1] == rest[k - 1]);
                }
            } else {
                assert(s.contains(s[0]));
            }
        }
        assert forall|i: int, j: int|
            0 <= i < j < r.len() implies (#[trigger] r[i]).start <= (#[trigger] r[j]).start by {
            if i == 0 {
                assert(r[j] == rest[j - 1]);
                if rest[j - 1] == x {
                } else {
                    let w = choose|w: int|
                        0 <= w < s.drop_first().len() && s.drop_first()[w] == rest[j - 1];
                    assert(s[w + 1] == rest[j - 1]);
                }
            } else {
                assert(r[i] == rest[i - 1] && r[j] == rest[j - 1]);
            }
        }
    } else {
        assert forall|k: int| 0 <= k < r.len() implies (#[trigger] r[k]) == x || s.contains(
            r[k],
        ) by {
            if k > 0 {
                assert(r[k] == s[k - 1]);
                assert(s.contains(s[k - 1]));
            }
        }
        assert forall|i: int, j: int|
            0 <= i < j < r.len() implies (#[trigger] r[i]).start <= (#[trigger] r[j]).start by {
            if i > 0 {
                assert(r[i] == s[i - 1] && r[j] == s[j - 1]);
            } else {
                assert(r[j] == s[j - 1]);
            }
        }
    }
}

proof fn lemma_sort_sorted(s: Seq<ArgumentV>)
    ensures
        sorted_by_start(sort_by_start(s)),
    decreases s.len(),
{
    if s.len() > 0 {
        lemma_sort_sorted(s.drop_last());
        lemma_insert_sorted(s.last(), sort_by_start(s.drop_last()));
    }
}

proof fn lemma_dedup_sorted(s: Seq<ArgumentV>, seen: Set<Seq<char>>)
    requires
        sorted_by_start(s),
    ensures
        sorted_by_start(dedup_by_capture(s, seen)),
        forall|k: int|
            0 <= k < dedup_by_capture(s, seen).len() ==> s.contains(
                #[trigger] dedup_by_capture(s, seen)[k],
            ),
    decreases s.len(),
{
    let r = dedup_by_capture(s, seen);
    if s.len() > 0 {
        let rest = s.drop_first();
        assert(forall|k: int| 0 <= k < rest.len() ==> #[trigger] rest[k] == s[k + 1]);
        if seen.contains(s[0].capture) {
            lemma_dedup_sorted(rest, seen);
            assert forall|k: int| 0 <= k < r.len() implies s.contains(#[trigger] r[k]) by {
                let w = choose|w: int| 0 <= w < rest.len() && rest[w] == r[k];
                assert(s[w + 1] == r[k]);
            }
        } else {
            let seen2 = seen.insert(s[0].capture);
            lemma_dedup_sorted(rest, seen2);
            let tail = dedup_by_capture(rest, seen2);
            assert forall|k: int| 0 <= k < r.len() implies s.contains(#[trigger] r[k]) by {
                if k == 0 {
                    assert(s.contains(s[0]));
                } else {
                    assert(r[k] == tail[k - 1]);
                    let w = choose|w: int| 0 <= w < rest.len() && rest[w] == tail[k - 1];
                    assert(s[w + 1] == r[k]);
                }
            }
            assert forall|i: int, j: int|
                0 <= i < j < r.len() implies (#[trigger] r[i]).start <= (
            #[trigger] r[j]).start by {
                if i == 0 {
                    assert(r[j] == tail[j - 1]);
                    let w = choose|w: int| 0 <= w < rest.len() && rest[w] == tail[j - 1];
                    assert(s[w + 1] == r[j]);
                } else {
                    assert(r[i] == tail[i - 1] && r[j] == tail[j - 1]);
                }
            }
        }
    }
}

proof fn lemma_dedup_unique(s: Seq<ArgumentV>, seen: Set<Seq<char>>)
    ensures
        unique_captures(dedup_by_capture(s, seen)),
        forall|k: int|
            0 <= k < dedup_by_capture(s, seen).len() ==> !seen.contains(
                (#[trigger] dedup_by_capture(s, seen)[k]).capture,
            ),
    decreases s.len(),
{
    let r = dedup_by_capture(s, seen);
    if s.len() > 0 {
        let rest = s.drop_first();
        if seen.contains(s[0].capture) {
            lemma_dedup_unique(rest, seen);
        } else {
            let seen2 = seen.insert(s[0].capture);
            lemma_dedup_unique(rest, seen2);
            let tail = dedup_by_capture(rest, seen2);
            assert forall|i: int, j: int|
                0 <= i < j < r.len() implies (#[trigger] r[i]).capture != (
            #[trigger] r[j]).capture by {
                if i == 0 {
                    assert(r[j] == tail[j - 1]);
                    assert(!seen2.contains(tail[j - 1].capture));
                } else {
                    assert(r[i] == tail[i - 1] && r[j] == tail[j - 1]);
                }
            }
            assert forall|k: int| 0 <= k < r.len() implies !seen.contains(
                (#[trigger] r[k]).capture,
            ) by {
                if k > 0 {
                    assert(r[k] == tail[k - 1]);
                    assert(!seen2.contains(tail[k - 1].capture));
                }
            }
        }
    }
}

/// The parsed placeholders come sorted by span start, and no capture text
/// appears twice among them.
pub proof fn lemma_parse_result_ordered(s: Seq<char>, descs: Option<Seq<Seq<char>>>)
    ensures
        sorted_by_start(parse_result(s, descs)),
        unique_captures(parse_result(s, descs)),
{
    let mapped = tokens_from(s, 0).map_values(|t: Tok| arg_of(s, descs, t));
    lemma_sort_sorted(mapped);
    lemma_dedup_sorted(sort_by_start(mapped), Set::empty());
    lemma_dedup_unique(sort_by_start(mapped), Set::empty());
}

// ---------------------------------------------------------------------------
// the round trip
// ---------------------------------------------------------------------------

/// Round trip: take a template whose braces all lie within occurrences of its
/// own parsed placeholders, and arguments free of braces.  When filling
/// succeeds, the result carries no brace at all — so no placeholder of the
/// template survives in it.  (A template with stray braces can see one
/// recreated by the substitutions and is excluded here.)
pub proof fn lemma_fill_round_trip(
    s: Seq<char>,
    descs: Option<Seq<Seq<char>>>,
    vars: Seq<Seq<char>>,
    out: Seq<char>,
)
    requires
        clean_from(s, caps_of(parse_result(s, descs)), 0),
        forall|k: int| 0 <= k < vars.len() ==> brace_free(#[trigger] vars[k]),
        fill_from(s, parse_result(s, descs), vars, 0) == Ok::<Seq<char>, FillErr>(out),
    ensures
        brace_free(out),
        forall|j: int, p: int|
            0 <= j < parse_result(s, descs).len() ==> !(#[trigger] matches_at(
                out,
                p,
                parse_result(s, descs)[j].capture,
            )),
{
    let args = parse_result(s, descs);
    lemma_parse_result_caps_shaped(s, descs);
    assert(caps_of(args).skip(0) =~= caps_of(args));
    lemma_fill_clean(s, args, vars, 0);
    assert forall|j: int, p: int| 0 <= j < args.len() implies !(#[trigger] matches_at(
        out,
        p,
        args[j].capture,
    )) by {
        let c = args[j].capture;
        if matches_at(out, p, c) {
            assert(out.subrange(p, p + c.len() as int)[0] == out[p]);
            assert(out[p] == '{');
            assert(false);
        }
    }
}

} // verus!
