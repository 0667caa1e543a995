//! Space padding for the aligned listings the surrounding program prints.

use vstd::prelude::*;
use vstd::string::StringExecFns;

use crate::text::{join_with, split_char, string_from_chars, str_chars, trim_chars, trim_spec};

verus! {

/// `n` spaces.
pub open spec fn spaces(n: nat) -> Seq<char> {
    Seq::new(n, |i: int| ' ')
}

/// How many spaces padding to width `p` adds to a text of length `l`.
pub open spec fn pad_gap(p: nat, l: nat) -> nat {
    if p >= l {
        (p - l) as nat
    } else {
        0
    }
}

/// The padding width minus the text length, and zero when that would be
/// negative.
fn checked_calculate(s1: usize, s2: usize) -> (r: usize)
    ensures
        r as nat == pad_gap(s1 as nat, s2 as nat),
{
    if s1 >= s2 {
        s1 - s2
    } else {
        0
    }
}

/// A vector of `n` spaces.
fn make_spaces(n: usize) -> (r: Vec<char>)
    ensures
        r@ == spaces(n as nat),
{
    let mut r: Vec<char> = Vec::new();
    let mut i: usize = 0;
    while i < n
        invariant
            0 <= i <= n,
            r@ =~= spaces(i as nat),
        decreases n - i,
    {
        r.push(' ');
        i = i + 1;
        proof {
            assert(r@ =~= spaces(i as nat));
        }
    }
    r
}

/// Pads `string` on the left with spaces up to `pad` bytes.
pub fn left_pad(string: &str, pad: usize) -> (r: String)
    ensures
        r@ == spaces(pad_gap(pad as nat, string.len() as nat)) + string@,
{
    let gap = checked_calculate(pad, string.len());
    let sp = make_spaces(gap);
    string_from_chars(&sp).concat(string)
}

/// Pads `string` on the right with spaces up to `pad` bytes.
pub fn right_pad(string: &str, pad: usize) -> (r: String)
    ensures
        r@ == string@ + spaces(pad_gap(pad as nat, string.len() as nat)),
{
    let gap = checked_calculate(pad, string.len());
    let sp = make_spaces(gap);
    String::from_str(string).concat(string_from_chars(&sp).as_str())
}

/// Every line of `ls` but the first, padded on the left with `pad` spaces.
pub open spec fn padded_tail_lines(ls: Seq<Seq<char>>, pad: nat) -> Seq<Seq<char>> {
    Seq::new(
        ls.len(),
        |i: int|
            if i == 0 {
                ls[i]
            } else {
                spaces(pad) + ls[i]
            },
    )
}

/// The multi-line text `string` with every line but the first padded on the
/// left by `pad` spaces, and the whole trimmed.
pub open spec fn left_pad_without_1st_spec(s: Seq<char>, pad: nat) -> Seq<char> {
    trim_spec(join_with(padded_tail_lines(split_char(s, '\n'), pad), seq!['\n']))
}

/// Pads every line but the first on the left with `pad` spaces and trims the
/// result.
pub fn left_pad_without_1st(string: &str, pad: usize) -> (r: String)
    ensures
        r@ == left_pad_without_1st_spec(string@, pad as nat),
{
    let chars = str_chars(string);
    let lines = crate::text::split_chars(&chars, '\n');
    let ghost ls = lines.deep_view();
    let ghost padded = padded_tail_lines(ls, pad as nat);
    let mut out: Vec<char> = Vec::new();
    let mut i: usize = 0;
    proof {
        assert(padded.len() == ls.len());
        assert(padded.subrange(0, 0) =~= Seq::<Seq<char>>::empty());
    }
    while i < lines.len()
        invariant
            0 <= i <= lines@.len(),
            ls == lines.deep_view(),
            ls.len() == lines@.len(),
            padded == padded_tail_lines(ls, pad as nat),
            out@ == join_with(padded.subrange(0, i as int), seq!['\n']),
        decreases lines@.len() - i,
    {
        let ghost done = padded.subrange(0, i as int);
        proof {
            crate::text::lemma_join_push(done, seq!['\n'], padded[i as int]);
            assert(padded.subrange(0, i + 1) =~= done.push(padded[i as int]));
            assert(ls[i as int] == lines@[i as int]@);
        }
        if i > 0 {
            out.push('\n');
            let sp = make_spaces(pad);
            crate::text::append_chars(&mut out, &sp);
        }
        crate::text::append_chars(&mut out, &lines[i]);
        proof {
            if i > 0 {
                assert(out@ =~= join_with(done, seq!['\n']) + seq!['\n'] + padded[i as int]);
            } else {
                assert(out@ =~= padded[0]);
            }
        }
        i = i + 1;
    }
    proof {
        assert(padded.subrange(0, padded.len() as int) =~= padded);
        if lines@.len() == 0 {
            assert(out@ =~= join_with(padded, seq!['\n']));
        }
    }
    let trimmed = trim_chars(&out);
    string_from_chars(&trimmed)
}

} // verus!
