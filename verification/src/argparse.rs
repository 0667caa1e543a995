//! The placeholder grammar and the template filler.
//!
//! A template may contain placeholder groups of the shapes `{N}`, `{N?}`,
//! `{S..}`, `{S..E}` and `{S..?}`, where `N`, `S`, `E` are runs of decimal
//! digits.  `parse` collects them in scan order, sorts them by span start
//! (stably) and drops later duplicates of the same capture text.  `fill`
//! substitutes each one by the matching slice of the caller's arguments,
//! joined by single spaces.

use vstd::prelude::*;

use crate::errors::Error;
use crate::text::{
    digits_value, is_digit, is_digit_char, join_with, lemma_join_push, replace_all,
    replace_all_spec, str_chars, string_from_chars, string_from_range,
};

verus! {

// ---------------------------------------------------------------------------
// the grammar
// ---------------------------------------------------------------------------

/// The first position at or after `i` that does not carry a decimal digit.
pub open spec fn digit_run_end(s: Seq<char>, i: int) -> int
    decreases s.len() - i when 0 <= i <= s.len()
{
    if i == s.len() || !is_digit_char(s[i]) {
        i
    } else {
        digit_run_end(s, i + 1)
    }
}

pub proof fn lemma_digit_run_end(s: Seq<char>, i: int)
    requires
        0 <= i <= s.len(),
    ensures
        i <= digit_run_end(s, i) <= s.len(),
        forall|k: int| i <= k < digit_run_end(s, i) ==> is_digit_char(s[k]),
        digit_run_end(s, i) < s.len() ==> !is_digit_char(s[digit_run_end(s, i)]),
    decreases s.len() - i,
{
    if i < s.len() && is_digit_char(s[i]) {
        lemma_digit_run_end(s, i + 1);
    }
}

/// One parsed placeholder group, before captures are extracted: its position
/// and length in the template, its shape, and its numeric fields.  `hi` is
/// `lo + 1` for single-index groups and `usize::MAX` (the "to the end of the
/// arguments" sentinel) for unbounded ranges.
pub struct Tok {
    pub pos: int,
    pub len: int,
    pub single: bool,
    pub required: bool,
    pub lo: nat,
    pub hi: nat,
}

/// The placeholder group starting at position `i`, if the text there matches
/// the grammar `"{" (DIGITS "?"? | DIGITS ".." (DIGITS | "?")?) "}"`.
pub open spec fn token_at(s: Seq<char>, i: int) -> Option<Tok> {
    if !(0 <= i < s.len() && s[i] == '{') {
        None
    } else {
        let d = digit_run_end(s, i + 1);
        if d == i + 1 {
            None
        } else {
            let lo = digits_value(s.subrange(i + 1, d));
            if d < s.len() && s[d] == '}' {
                Some(Tok { pos: i, len: d + 1 - i, single: true, required: true, lo, hi: lo + 1 })
            } else if d + 1 < s.len() && s[d] == '?' && s[d + 1] == '}' {
                Some(Tok { pos: i, len: d + 2 - i, single: true, required: false, lo, hi: lo + 1 })
            } else if d + 1 < s.len() && s[d] == '.' && s[d + 1] == '.' {
                if d + 2 < s.len() && s[d + 2] == '}' {
                    Some(
                        Tok {
                            pos: i,
                            len: d + 3 - i,
                            single: false,
                            required: true,
                            lo,
                            hi: usize::MAX as nat,
                        },
                    )
                } else if d + 3 < s.len() && s[d + 2] == '?' && s[d + 3] == '}' {
                    Some(
                        Tok {
                            pos: i,
                            len: d + 4 - i,
                            single: false,
                            required: false,
                            lo,
                            hi: usize::MAX as nat,
                        },
                    )
                } else {
                    let e = digit_run_end(s, d + 2);
                    if e > d + 2 && e < s.len() && s[e] == '}' {
                        Some(
                            Tok {
                                pos: i,
                                len: e + 1 - i,
                                single: false,
                                required: true,
                                lo,
                                hi: digits_value(s.subrange(d + 2, e)),
                            },
                        )
                    } else {
                        None
                    }
                }
            } else {
                None
            }
        }
    }
}

pub proof fn lemma_token_at_bounds(s: Seq<char>, i: int)
    ensures
        token_at(s, i) matches Some(t) ==> t.pos == i && 3 <= t.len && i + t.len <= s.len(),
{
    if token_at(s, i) is Some {
        lemma_digit_run_end(s, i + 1);
        let d = digit_run_end(s, i + 1);
        if !(d < s.len() && s[d] == '}') && !(d + 1 < s.len() && s[d] == '?' && s[d + 1] == '}')
            && (d + 1 < s.len() && s[d] == '.' && s[d + 1] == '.') {
            lemma_digit_run_end(s, d + 2);
        }
    }
}

/// All placeholder groups found scanning left to right from position `i`,
/// skipping over each match.
pub open spec fn tokens_from(s: Seq<char>, i: int) -> Seq<Tok>
    decreases s.len() - i when 0 <= i <= s.len() via tokens_from_decreases
{
    if i >= s.len() {
        Seq::empty()
    } else {
        match token_at(s, i) {
            Some(t) => seq![t] + tokens_from(s, i + t.len),
            None => tokens_from(s, i + 1),
        }
    }
}

#[via_fn]
proof fn tokens_from_decreases(s: Seq<char>, i: int) {
    lemma_token_at_bounds(s, i);
}

/// The numeric fields of the group fit the machine's index type; the grammar
/// admits arbitrarily long digit runs, but spans are machine indices.
pub open spec fn tok_ok(t: Tok) -> bool {
    t.lo <= usize::MAX as nat && t.hi <= usize::MAX as nat
}

/// The literal text of the group, used as the substitution search key.
pub open spec fn cap_of(s: Seq<char>, t: Tok) -> Seq<char> {
    s.subrange(t.pos, t.pos + t.len)
}

// ---------------------------------------------------------------------------
// parsed placeholders
// ---------------------------------------------------------------------------

/// The mathematical value of one parsed placeholder.
pub struct ArgumentV {
    pub capture: Seq<char>,
    pub description: Option<Seq<char>>,
    pub required: bool,
    pub start: int,
    pub end: int,
}

/// One parsed placeholder: the captured text, the optional per-index
/// description, whether the arguments it names must be present, and the
/// half-open span of caller arguments it consumes.  `range_end == usize::MAX`
/// means "to the end of the supplied arguments".
pub struct Argument {
    pub capture_str: String,
    pub description: Option<String>,
    pub is_required: bool,
    pub range_start: usize,
    pub range_end: usize,
}

impl View for Argument {
    type V = ArgumentV;

    open spec fn view(&self) -> ArgumentV {
        ArgumentV {
            capture: self.capture_str@,
            description: match self.description {
                Some(d) => Some(d@),
                None => None,
            },
            required: self.is_required,
            start: self.range_start as int,
            end: self.range_end as int,
        }
    }
}

/// The values of a sequence of parsed placeholders.
pub open spec fn views_of(s: Seq<Argument>) -> Seq<ArgumentV> {
    s.map_values(|a: Argument| a@)
}

/// The placeholder an ok group denotes: its capture text, its description
/// (looked up by index for single-index groups when a description list was
/// supplied), and its span.
pub open spec fn arg_of(s: Seq<char>, descs: Option<Seq<Seq<char>>>, t: Tok) -> ArgumentV {
    ArgumentV {
        capture: cap_of(s, t),
        description: match descs {
            Some(ds) => if t.single && t.lo < ds.len() {
                Some(ds[t.lo as int])
            } else {
                None
            },
            None => None,
        },
        required: t.required,
        start: t.lo as int,
        end: t.hi as int,
    }
}

/// Stable insertion before the first element with a greater span start.
pub open spec fn insert_by_start(x: ArgumentV, s: Seq<ArgumentV>) -> Seq<ArgumentV>
    decreases s.len(),
{
    if s.len() == 0 {
        seq![x]
    } else if s[0].start <= x.start {
        seq![s[0]] + insert_by_start(x, s.drop_first())
    } else {
        seq![x] + s
    }
}

/// Stable sort by span start: later elements are inserted after earlier ones
/// with the same start.
pub open spec fn sort_by_start(s: Seq<ArgumentV>) -> Seq<ArgumentV>
    decreases s.len(),
{
    if s.len() == 0 {
        Seq::empty()
    } else {
        insert_by_start(s.last(), sort_by_start(s.drop_last()))
    }
}

/// Keeps the first occurrence of each capture text, dropping later ones.
pub open spec fn dedup_by_capture(s: Seq<ArgumentV>, seen: Set<Seq<char>>) -> Seq<ArgumentV>
    decreases s.len(),
{
    if s.len() == 0 {
        Seq::empty()
    } else if seen.contains(s[0].capture) {
        dedup_by_capture(s.drop_first(), seen)
    } else {
        seq![s[0]] + dedup_by_capture(s.drop_first(), seen.insert(s[0].capture))
    }
}

/// Every group of the template has spans that fit the machine's index type.
pub open spec fn parse_ok(s: Seq<char>) -> bool {
    forall|j: int| 0 <= j < tokens_from(s, 0).len() ==> tok_ok(#[trigger] tokens_from(s, 0)[j])
}

/// What `parse` produces for a template whose groups are all ok: the groups
/// in scan order, mapped to placeholders, stably sorted by span start, with
/// later duplicates of a capture dropped.
pub open spec fn parse_result(s: Seq<char>, descs: Option<Seq<Seq<char>>>) -> Seq<ArgumentV> {
    dedup_by_capture(
        sort_by_start(tokens_from(s, 0).map_values(|t: Tok| arg_of(s, descs, t))),
        Set::empty(),
    )
}

// ---------------------------------------------------------------------------
// the scanner
// ---------------------------------------------------------------------------

/// Executable form of [`digit_run_end`].
pub(crate) fn digit_run_end_exec(chars: &Vec<char>, i: usize) -> (d: usize)
    requires
        i <= chars@.len(),
    ensures
        d == digit_run_end(chars@, i as int),
        i <= d <= chars@.len(),
{
    let n = chars.len();
    let mut d = i;
    while d < n && is_digit(chars[d])
        invariant
            i <= d <= n,
            n == chars@.len(),
            digit_run_end(chars@, i as int) == digit_run_end(chars@, d as int),
        decreases n - d,
    {
        d = d + 1;
    }
    proof {
        lemma_digit_run_end(chars@, d as int);
    }
    d
}

proof fn lemma_mul_ten_ge(x: nat)
    ensures
        x * 10 >= x,
{
}

proof fn lemma_digits_prefix_le(s: Seq<char>, from: int, k: int, j: int)
    requires
        0 <= from <= k <= j <= s.len(),
    ensures
        digits_value(s.subrange(from, k)) <= digits_value(s.subrange(from, j)),
    decreases j - k,
{
    if k < j {
        lemma_digits_prefix_le(s, from, k, j - 1);
        assert(s.subrange(from, j).drop_last() =~= s.subrange(from, j - 1));
        lemma_mul_ten_ge(digits_value(s.subrange(from, j - 1)));
    }
}

/// Reads the digit run `chars[from..to]` as a machine index; reports the runs
/// whose value does not fit.
fn parse_usize(chars: &Vec<char>, from: usize, to: usize) -> (r: Option<usize>)
    requires
        from <= to <= chars@.len(),
        forall|k: int| from <= k < to ==> is_digit_char(chars@[k]),
    ensures
        match r {
            Some(v) => v as nat == digits_value(chars@.subrange(from as int, to as int)),
            None => digits_value(chars@.subrange(from as int, to as int)) > usize::MAX as nat,
        },
{
    let mut val: usize = 0;
    let mut k: usize = from;
    proof {
        assert(chars@.subrange(from as int, from as int) =~= Seq::<char>::empty());
    }
    while k < to
        invariant
            from <= k <= to <= chars@.len(),
            forall|k2: int| from <= k2 < to ==> is_digit_char(chars@[k2]),
            val as nat == digits_value(chars@.subrange(from as int, k as int)),
        decreases to - k,
    {
        let c = chars[k];
        assert(is_digit_char(c));
        let d = (c as u32 - 48) as usize;
        let q = (usize::MAX - d) / 10;
        proof {
            vstd::arithmetic::div_mod::lemma_fundamental_div_mod((usize::MAX - d) as int, 10);
            assert(chars@.subrange(from as int, k + 1).drop_last() =~= chars@.subrange(
                from as int,
                k as int,
            ));
            assert(chars@.subrange(from as int, k + 1).last() == chars@[k as int]);
        }
        if val > q {
            proof {
                assert(digits_value(chars@.subrange(from as int, k + 1)) > usize::MAX as nat);
                lemma_digits_prefix_le(chars@, from as int, k + 1, to as int);
            }
            return None;
        }
        val = val * 10 + d;
        k = k + 1;
    }
    Some(val)
}

/// One scanned group: like [`Tok`], but with the numeric fields checked
/// against the machine's index type (`None` marks a field that does not fit).
struct ScanTok {
    len: usize,
    single: bool,
    required: bool,
    lo: Option<usize>,
    hi: Option<usize>,
}

/// `st` reports exactly the fields of the group `t`.
spec fn scan_tok_matches(st: ScanTok, t: Tok) -> bool {
    &&& st.len == t.len
    &&& st.single == t.single
    &&& st.required == t.required
    &&& (match st.lo {
        Some(v) => t.lo == v as nat,
        None => t.lo > usize::MAX as nat,
    })
    &&& (match st.hi {
        Some(v) => t.hi == v as nat,
        None => t.hi > usize::MAX as nat,
    })
}

/// Scans for a placeholder group starting exactly at position `i`.
fn scan_token(chars: &Vec<char>, i: usize) -> (r: Option<ScanTok>)
    requires
        i < chars@.len(),
    ensures
        match r {
            Some(st) => token_at(chars@, i as int) matches Some(t) && scan_tok_matches(st, t),
            None => token_at(chars@, i as int) is None,
        },
{
    let n = chars.len();
    if chars[i] != '{' {
        return None;
    }
    let d = digit_run_end_exec(chars, i + 1);
    if d == i + 1 {
        return None;
    }
    proof {
        lemma_digit_run_end(chars@, i + 1);
    }
    let lo = parse_usize(chars, i + 1, d);
    if d < n && chars[d] == '}' {
        let hi = match lo {
            Some(v) => if v < usize::MAX {
                Some(v + 1)
            } else {
                None
            },
            None => None,
        };
        Some(ScanTok { len: d + 1 - i, single: true, required: true, lo, hi })
    } else if n - d > 1 && chars[d] == '?' && chars[d + 1] == '}' {
        let hi = match lo {
            Some(v) => if v < usize::MAX {
                Some(v + 1)
            } else {
                None
            },
            None => None,
        };
        Some(ScanTok { len: d + 2 - i, single: true, required: false, lo, hi })
    } else if n - d > 1 && chars[d] == '.' && chars[d + 1] == '.' {
        if n - d > 2 && chars[d + 2] == '}' {
            Some(
                ScanTok {
                    len: d + 3 - i,
                    single: false,
                    required: true,
                    lo,
                    hi: Some(usize::MAX),
                },
            )
        } else if n - d > 3 && chars[d + 2] == '?' && chars[d + 3] == '}' {
            Some(
                ScanTok {
                    len: d + 4 - i,
                    single: false,
                    required: false,
                    lo,
                    hi: Some(usize::MAX),
                },
            )
        } else {
            let e = digit_run_end_exec(chars, d + 2);
            if e > d + 2 && e < n && chars[e] == '}' {
                proof {
                    lemma_digit_run_end(chars@, d + 2);
                }
                let hi = parse_usize(chars, d + 2, e);
                Some(ScanTok { len: e + 1 - i, single: false, required: true, lo, hi })
            } else {
                None
            }
        }
    } else {
        None
    }
}

/// Copies a parsed placeholder.
fn clone_argument(a: &Argument) -> (r: Argument)
    ensures
        r@ == a@,
{
    Argument {
        capture_str: a.capture_str.clone(),
        description: match &a.description {
            Some(d) => Some(d.clone()),
            None => None,
        },
        is_required: a.is_required,
        range_start: a.range_start,
        range_end: a.range_end,
    }
}

/// The views of an optional description list.
pub open spec fn descs_view(d: Option<Vec<String>>) -> Option<Seq<Seq<char>>> {
    match d {
        Some(v) => Some(v.deep_view()),
        None => None,
    }
}

/// Collects the groups of the template in scan order, with captures and
/// descriptions resolved; fails if some group's numbers do not fit.
fn scan_arguments(chars: &Vec<char>, descriptions: &Option<Vec<String>>) -> (r: Result<
    Vec<Argument>,
    Error,
>)
    ensures
        match r {
            Ok(v) => parse_ok(chars@) && views_of(v@) == tokens_from(chars@, 0).map_values(
                |t: Tok| arg_of(chars@, descs_view(*descriptions), t),
            ),
            Err(e) => e is MalformedPlaceholder && !parse_ok(chars@),
        },
{
    let ghost dv = descs_view(*descriptions);
    let n = chars.len();
    let mut out: Vec<Argument> = Vec::new();
    let ghost mut emitted: Seq<Tok> = Seq::empty();
    let mut i: usize = 0;
    proof {
        assert(Seq::<Tok>::empty() + tokens_from(chars@, 0) =~= tokens_from(chars@, 0));
        assert(views_of(out@) =~= emitted.map_values(|t: Tok| arg_of(chars@, dv, t)));
    }
    while i < n
        invariant
            0 <= i <= n,
            n == chars@.len(),
            tokens_from(chars@, 0) == emitted + tokens_from(chars@, i as int),
            views_of(out@) == emitted.map_values(|t: Tok| arg_of(chars@, dv, t)),
            forall|j: int| 0 <= j < emitted.len() ==> tok_ok(#[trigger] emitted[j]),
            dv == descs_view(*descriptions),
        decreases n - i,
    {
        let ghost oi = i as int;
        match scan_token(chars, i) {
            None => {
                proof {
                    assert(tokens_from(chars@, oi) == tokens_from(chars@, oi + 1));
                }
                i = i + 1;
            },
            Some(st) => {
                let ghost t = token_at(chars@, oi)->Some_0;
                proof {
                    lemma_token_at_bounds(chars@, oi);
                    assert(tokens_from(chars@, oi) == seq![t] + tokens_from(chars@, oi + t.len));
                    assert(tokens_from(chars@, 0)[emitted.len() as int] == t);
                }
                let (lo_v, hi_v) = match (st.lo, st.hi) {
                    (Some(a), Some(b)) => (a, b),
                    _ => {
                        proof {
                            assert(!tok_ok(t));
                            assert(!parse_ok(chars@));
                        }
                        return Err(Error::MalformedPlaceholder);
                    },
                };
                let capture_str = string_from_range(chars, i, i + st.len);
                let description: Option<String> = if st.single {
                    match descriptions {
                        Some(ds) => if lo_v < ds.len() {
                            Some(ds[lo_v].clone())
                        } else {
                            None
                        },
                        None => None,
                    }
                } else {
                    None
                };
                let arg = Argument {
                    capture_str,
                    description,
                    is_required: st.required,
                    range_start: lo_v,
                    range_end: hi_v,
                };
                proof {
                    assert(arg@ == arg_of(chars@, dv, t));
                }
                out.push(arg);
                i = i + st.len;
                proof {
                    let f = |t2: Tok| arg_of(chars@, dv, t2);
                    assert(emitted.push(t).map_values(f) =~= emitted.map_values(f).push(f(t)));
                    assert(views_of(out@) =~= emitted.map_values(f).push(f(t)));
                    emitted = emitted.push(t);
                    assert(tokens_from(chars@, 0) =~= emitted + tokens_from(chars@, i as int));
                }
            },
        }
    }
    proof {
        assert(tokens_from(chars@, n as int) =~= Seq::<Tok>::empty());
        assert(tokens_from(chars@, 0) =~= emitted);
    }
    Ok(out)
}

proof fn lemma_insert_by_start_at(x: ArgumentV, s: Seq<ArgumentV>, k: int)
    requires
        0 <= k <= s.len(),
        forall|t: int| 0 <= t < k ==> s[t].start <= x.start,
        k < s.len() ==> s[k].start > x.start,
    ensures
        insert_by_start(x, s) == s.subrange(0, k) + seq![x] + s.subrange(k, s.len() as int),
    decreases s.len(),
{
    if s.len() == 0 {
        assert(s.subrange(0, 0) + seq![x] + s.subrange(0, 0) =~= seq![x]);
    } else if k == 0 {
        assert(s[0].start > x.start);
        assert(s.subrange(0, 0) + seq![x] + s.subrange(0, s.len() as int) =~= seq![x] + s);
    } else {
        assert(s[0].start <= x.start);
        lemma_insert_by_start_at(x, s.drop_first(), k - 1);
        assert(seq![s[0]] + (s.drop_first().subrange(0, k - 1) + seq![x] + s.drop_first().subrange(
            k - 1,
            s.drop_first().len() as int,
        )) =~= s.subrange(0, k) + seq![x] + s.subrange(k, s.len() as int));
    }
}

/// Sorts placeholders by span start, keeping the scan order of equal starts.
fn sort_arguments(v: Vec<Argument>) -> (r: Vec<Argument>)
    ensures
        views_of(r@) == sort_by_start(views_of(v@)),
{
    let mut out: Vec<Argument> = Vec::new();
    let mut j: usize = 0;
    proof {
        assert(views_of(v@).subrange(0, 0) =~= Seq::<ArgumentV>::empty());
        assert(views_of(out@) =~= Seq::<ArgumentV>::empty());
    }
    while j < v.len()
        invariant
            0 <= j <= v@.len(),
            views_of(out@) == sort_by_start(views_of(v@).subrange(0, j as int)),
        decreases v@.len() - j,
    {
        let ghost pre = views_of(out@);
        let x = clone_argument(&v[j]);
        let mut k: usize = 0;
        while k < out.len() && out[k].range_start <= x.range_start
            invariant
                0 <= k <= out@.len(),
                forall|t: int| 0 <= t < k ==> out@[t]@.start <= x@.start,
        decreases out@.len() - k,
        {
            k = k + 1;
        }
        proof {
            assert(forall|t: int| 0 <= t < k ==> pre[t].start <= x@.start);
            assert(k < pre.len() ==> pre[k as int].start > x@.start);
            lemma_insert_by_start_at(x@, pre, k as int);
        }
        out.insert(k, x);
        j = j + 1;
        proof {
            assert(views_of(out@) =~= pre.subrange(0, k as int) + seq![x@] + pre.subrange(
                k as int,
                pre.len() as int,
            ));
            assert(views_of(v@).subrange(0, j as int).drop_last() =~= views_of(v@).subrange(
                0,
                j - 1,
            ));
            assert(views_of(v@).subrange(0, j as int).last() == v@[j - 1]@);
            assert(views_of(out@) =~= sort_by_start(views_of(v@).subrange(0, j as int)));
        }
    }
    proof {
        assert(views_of(v@).subrange(0, v@.len() as int) =~= views_of(v@));
    }
    out
}

/// `out` already holds a placeholder with this capture text.
fn contains_capture(out: &Vec<Argument>, cap: &String) -> (b: bool)
    ensures
        b == exists|t: int| 0 <= t < out@.len() && out@[t].capture_str@ == cap@,
{
    let mut k: usize = 0;
    while k < out.len()
        invariant
            0 <= k <= out@.len(),
            forall|t: int| 0 <= t < k ==> out@[t].capture_str@ != cap@,
        decreases out@.len() - k,
    {
        if crate::text::str_equal(out[k].capture_str.as_str(), cap.as_str()) {
            return true;
        }
        k = k + 1;
    }
    false
}

/// Drops every placeholder whose capture text appeared earlier in the list.
fn dedup_arguments(v: Vec<Argument>) -> (r: Vec<Argument>)
    ensures
        views_of(r@) == dedup_by_capture(views_of(v@), Set::empty()),
{
    let mut out: Vec<Argument> = Vec::new();
    let ghost mut seen: Set<Seq<char>> = Set::empty();
    let mut j: usize = 0;
    proof {
        assert(views_of(v@).skip(0) =~= views_of(v@));
        assert(views_of(out@) =~= Seq::<ArgumentV>::empty());
        assert(Seq::<ArgumentV>::empty() + dedup_by_capture(views_of(v@), seen)
            =~= dedup_by_capture(views_of(v@), seen));
    }
    while j < v.len()
        invariant
            0 <= j <= v@.len(),
            dedup_by_capture(views_of(v@), Set::empty()) == views_of(out@) + dedup_by_capture(
                views_of(v@).skip(j as int),
                seen,
            ),
            forall|c: Seq<char>|
                seen.contains(c) <==> exists|t: int|
                    0 <= t < out@.len() && #[trigger] out@[t].capture_str@ == c,
        decreases v@.len() - j,
    {
        let ghost rest = views_of(v@).skip(j as int);
        let ghost out0 = views_of(out@);
        proof {
            assert(rest[0] == v@[j as int]@);
            assert(rest.drop_first() =~= views_of(v@).skip(j + 1));
        }
        let dup = contains_capture(&out, &v[j].capture_str);
        if dup {
            proof {
                assert(seen.contains(rest[0].capture));
                assert(dedup_by_capture(rest, seen) == dedup_by_capture(rest.drop_first(), seen));
            }
            j = j + 1;
        } else {
            proof {
                assert(!seen.contains(rest[0].capture));
                assert(dedup_by_capture(rest, seen) == seq![rest[0]] + dedup_by_capture(
                    rest.drop_first(),
                    seen.insert(rest[0].capture),
                ));
            }
            let x = clone_argument(&v[j]);
            let ghost prevout = out@;
            out.push(x);
            proof {
                seen = seen.insert(rest[0].capture);
                assert(x.capture_str@ == rest[0].capture);
                assert(views_of(out@) =~= out0.push(rest[0]));
                assert(out0 + (seq![rest[0]] + dedup_by_capture(
                    views_of(v@).skip(j + 1),
                    seen,
                )) =~= views_of(out@) + dedup_by_capture(views_of(v@).skip(j + 1), seen));
                assert forall|c: Seq<char>| seen.contains(c) implies (exists|t: int|
                    0 <= t < out@.len() && #[trigger] out@[t].capture_str@ == c) by {
                    if c == rest[0].capture {
                        assert(out@[out@.len() - 1].capture_str@ == c);
                    } else {
                        let t0 = choose|t: int|
                            0 <= t < prevout.len() && #[trigger] prevout[t].capture_str@ == c;
                        assert(out@[t0].capture_str@ == c);
                    }
                };
                assert forall|c: Seq<char>| (exists|t: int|
                    0 <= t < out@.len() && #[trigger] out@[t].capture_str@ == c) implies
                    seen.contains(c) by {
                    let t0 = choose|t: int|
                        0 <= t < out@.len() && #[trigger] out@[t].capture_str@ == c;
                    if t0 < out@.len() - 1 {
                        assert(prevout[t0].capture_str@ == c);
                    }
                };
            }
            j = j + 1;
        }
    }
    proof {
        assert(views_of(v@).skip(v@.len() as int) =~= Seq::<ArgumentV>::empty());
        assert(views_of(out@) + Seq::<ArgumentV>::empty() =~= views_of(out@));
    }
    out
}

// ---------------------------------------------------------------------------
// the parser
// ---------------------------------------------------------------------------

/// Scans one template for placeholders.  `parse` stores what it found; `fill`
/// and `has_arguments` answer from that store and fail before a `parse`.
pub struct ArgParser {
    /// The placeholders of `string`, once `parse` has run.
    pub arguments: Option<Vec<Argument>>,
    /// Descriptions for single-index placeholders, by index.
    pub descriptions: Option<Vec<String>>,
    /// The template text.
    pub string: String,
}

impl ArgParser {
    /// A parser for `string`, not yet parsed.
    pub fn new(string: &str, descriptions: Option<Vec<&str>>) -> (r: ArgParser)
        ensures
            r.string@ == string@,
            r.arguments is None,
            match (descriptions, r.descriptions) {
                (Some(d), Some(rd)) => rd.deep_view() == d.deep_view(),
                (None, None) => true,
                _ => false,
            },
    {
        let descriptions: Option<Vec<String>> = match descriptions {
            Some(ds) => {
                let mut owned: Vec<String> = Vec::new();
                let mut k: usize = 0;
                while k < ds.len()
                    invariant
                        0 <= k <= ds@.len(),
                        owned@.len() == k,
                        forall|t: int| 0 <= t < k ==> owned@[t]@ == ds@[t]@,
                    decreases ds@.len() - k,
                {
                    owned.push(ds[k].to_owned());
                    k = k + 1;
                }
                proof {
                    assert(owned.deep_view() =~= ds.deep_view());
                }
                Some(owned)
            },
            None => None,
        };
        ArgParser { arguments: None, descriptions, string: string.to_owned() }
    }

    /// The parsed placeholders, if `parse` has run.
    pub fn arguments(&self) -> (r: Option<&Vec<Argument>>)
        ensures
            match r {
                Some(v) => self.arguments matches Some(a) && v == a,
                None => self.arguments is None,
            },
    {
        match &self.arguments {
            Some(v) => Some(v),
            None => None,
        }
    }

    /// Whether the template has any placeholder; an error before `parse`.
    pub fn has_arguments(&self) -> (r: Result<bool, Error>)
        ensures
            match self.arguments {
                Some(v) => r matches Ok(b) && b == (v@.len() != 0),
                None => r matches Err(e) && e is NotParsed,
            },
    {
        match &self.arguments {
            Some(value) => Ok(!value.is_empty()),
            None => Err(Error::NotParsed),
        }
    }

    /// Scans the template and stores its placeholders: the groups in scan
    /// order, stably sorted by span start, later duplicates of a capture
    /// dropped.  Fails only when a group's number does not fit the machine's
    /// index type, and then leaves the store unchanged.
    pub fn parse(&mut self) -> (r: Result<(), Error>)
        ensures
            final(self).string == old(self).string,
            final(self).descriptions == old(self).descriptions,
            match r {
                Ok(()) => parse_ok(old(self).string@) && (final(self).arguments matches Some(args)
                    && views_of(args@) == parse_result(
                    old(self).string@,
                    descs_view(old(self).descriptions),
                )),
                Err(e) => e is MalformedPlaceholder && !parse_ok(old(self).string@)
                    && final(self).arguments == old(self).arguments,
            },
    {
        let chars = str_chars(self.string.as_str());
        let scanned = match scan_arguments(&chars, &self.descriptions) {
            Ok(v) => v,
            Err(e) => {
                return Err(e);
            },
        };
        let sorted = sort_arguments(scanned);
        let deduped = dedup_arguments(sorted);
        self.arguments = Some(deduped);
        Ok(())
    }
}

// ---------------------------------------------------------------------------
// the filler
// ---------------------------------------------------------------------------

/// How filling a template can fail.
pub enum FillErr {
    /// A required span lies outside the supplied arguments.
    OutOfBounds,
    /// A required span resolved to zero arguments.
    MissingArgument,
}

/// Fills `cur` with the placeholders `args[i..]`, in order: each one's span is
/// sliced out of `vars` (an unbounded end reaches to the last argument), the
/// slice is joined by single spaces, and every occurrence of the capture text
/// in the working string is replaced by the joined value.  A required
/// placeholder fails on an out-of-range span or an empty slice; an optional
/// one substitutes the empty string instead.
pub open spec fn fill_from(
    cur: Seq<char>,
    args: Seq<ArgumentV>,
    vars: Seq<Seq<char>>,
    i: int,
) -> Result<Seq<char>, FillErr>
    decreases args.len() - i when 0 <= i <= args.len()
{
    if i >= args.len() {
        Ok(cur)
    } else {
        let a = args[i];
        let actual: int = if a.end == usize::MAX as int {
            vars.len() as int
        } else {
            a.end
        };
        if !(a.start <= actual && actual <= vars.len()) {
            if a.required {
                Err(FillErr::OutOfBounds)
            } else {
                fill_from(replace_all_spec(cur, a.capture, Seq::empty()), args, vars, i + 1)
            }
        } else if a.required && actual == a.start {
            Err(FillErr::MissingArgument)
        } else {
            fill_from(
                replace_all_spec(
                    cur,
                    a.capture,
                    join_with(vars.subrange(a.start, actual), seq![' ']),
                ),
                args,
                vars,
                i + 1,
            )
        }
    }
}

/// `r` is exactly what filling `s` against `args` and `vars` yields.
pub open spec fn fill_result_matches(
    s: Seq<char>,
    args: Seq<ArgumentV>,
    vars: Seq<Seq<char>>,
    r: Result<String, Error>,
) -> bool {
    match fill_from(s, args, vars, 0) {
        Ok(out) => r matches Ok(x) && x@ == out,
        Err(FillErr::OutOfBounds) => r matches Err(e) && e is OutOfBounds,
        Err(FillErr::MissingArgument) => r matches Err(e) && e is MissingArgument,
    }
}

impl ArgParser {
    /// Substitutes the parsed placeholders of the template from `variables`;
    /// an error before `parse`.
    pub fn fill(&mut self, variables: Vec<String>) -> (r: Result<String, Error>)
        ensures
            *final(self) == *old(self),
            match old(self).arguments {
                None => r matches Err(e) && e is NotParsed,
                Some(args) => fill_result_matches(
                    old(self).string@,
                    views_of(args@),
                    variables.deep_view(),
                    r,
                ),
            },
    {
        match &self.arguments {
            Some(values) => fill_args(&self.string, values, variables),
            None => Err(Error::NotParsed),
        }
    }
}

/// Fills `string` against the placeholders `arguments` from `variables`.
fn fill_args(string: &String, arguments: &Vec<Argument>, variables: Vec<String>) -> (r: Result<
    String,
    Error,
>)
    ensures
        fill_result_matches(string@, views_of(arguments@), variables.deep_view(), r),
{
    let ghost s0 = string@;
    let ghost argsv = views_of(arguments@);
    let ghost varsv = variables.deep_view();
    let mut cur: Vec<char> = str_chars(string.as_str());
    let n = arguments.len();
    let mut i: usize = 0;
    while i < n
        invariant
            0 <= i <= n,
            n == arguments@.len(),
            s0 == string@,
            argsv == views_of(arguments@),
            varsv == variables.deep_view(),
            fill_from(s0, argsv, varsv, 0) == fill_from(cur@, argsv, varsv, i as int),
        decreases n - i,
    {
        let ghost oi = i as int;
        let ghost cur0 = cur@;
        let a = &arguments[i];
        proof {
            assert(argsv[oi] == arguments@[oi]@);
        }
        let actual: usize = if a.range_end == usize::MAX {
            variables.len()
        } else {
            a.range_end
        };
        let from = str_chars(a.capture_str.as_str());
        if !(a.range_start <= actual && actual <= variables.len()) {
            if a.is_required {
                proof {
                    assert(fill_from(cur0, argsv, varsv, oi) == Err::<Seq<char>, FillErr>(
                        FillErr::OutOfBounds,
                    ));
                }
                return Err(Error::OutOfBounds);
            }
            let empty: Vec<char> = Vec::new();
            cur = replace_all(&cur, &from, &empty);
            i = i + 1;
        } else if a.is_required && actual == a.range_start {
            proof {
                assert(fill_from(cur0, argsv, varsv, oi) == Err::<Seq<char>, FillErr>(
                    FillErr::MissingArgument,
                ));
            }
            return Err(Error::MissingArgument);
        } else {
            let start = a.range_start;
            let mut joined: Vec<char> = Vec::new();
            let mut k: usize = start;
            proof {
                assert(varsv.subrange(start as int, start as int) =~= Seq::<Seq<char>>::empty());
            }
            while k < actual
                invariant
                    start <= k <= actual <= varsv.len(),
                    varsv == variables.deep_view(),
                    varsv.len() == variables@.len(),
                    joined@ == join_with(varsv.subrange(start as int, k as int), seq![' ']),
                decreases actual - k,
            {
                let ghost parts = varsv.subrange(start as int, k as int);
                proof {
                    lemma_join_push(parts, seq![' '], varsv[k as int]);
                    assert(varsv.subrange(start as int, k + 1) =~= parts.push(varsv[k as int]));
                    assert(varsv[k as int] == variables@[k as int]@);
                }
                if k > start {
                    joined.push(' ');
                }
                let vc = str_chars(variables[k].as_str());
                crate::text::append_chars(&mut joined, &vc);
                proof {
                    if k > start {
                        assert(joined@ =~= join_with(parts, seq![' ']) + seq![' ']
                            + varsv[k as int]);
                    } else {
                        assert(joined@ =~= varsv[k as int]);
                    }
                }
                k = k + 1;
            }
            cur = replace_all(&cur, &from, &joined);
            i = i + 1;
        }
    }
    proof {
        assert(fill_from(cur@, argsv, varsv, n as int) == Ok::<Seq<char>, FillErr>(cur@));
    }
    Ok(string_from_chars(&cur))
}

impl Argument {
    /// The placeholder's description: the stored one, a fixed note for an
    /// optional unbounded span, or a fixed default.
    pub fn description(&self) -> (r: &str)
        ensures
            match self.description {
                Some(d) => r@ == d@,
                None => r@ == (if !self.is_required && self.range_end == usize::MAX {
                    "Extra arguments that passing to original command"@
                } else {
                    "No description provided"@
                }),
            },
    {
        match &self.description {
            Some(value) => value.as_str(),
            None => {
                if self.is_optional_range() {
                    "Extra arguments that passing to original command"
                } else {
                    "No description provided"
                }
            },
        }
    }

    /// `"required"` or `"optional"`.
    pub fn attribute(&self) -> (r: &str)
        ensures
            r@ == (if self.is_required {
                "required"@
            } else {
                "optional"@
            }),
    {
        if self.is_required {
            "required"
        } else {
            "optional"
        }
    }

    /// The span reaches to the end of the supplied arguments.
    pub fn is_unlimited_range(&self) -> (r: bool)
        ensures
            r == (self.range_end == usize::MAX),
    {
        self.range_end == usize::MAX
    }

    /// The placeholder is optional and its span is unbounded.
    pub fn is_optional_range(&self) -> (r: bool)
        ensures
            r == (!self.is_required && self.range_end == usize::MAX),
    {
        !self.is_required && self.is_unlimited_range()
    }
}

} // verus!
