//! Small text helpers for rendering entry details.

use vstd::prelude::*;

use crate::text::{replace_all, replace_all_spec, str_chars, string_from_chars};

verus! {

/// Replaces every line break in `string` by a space.
pub fn to_single_line(string: &str) -> (r: String)
    ensures
        r@ == replace_all_spec(string@, seq!['\n'], seq![' ']),
{
    let chars = str_chars(string);
    let mut from: Vec<char> = Vec::new();
    from.push('\n');
    let mut to: Vec<char> = Vec::new();
    to.push(' ');
    proof {
        assert(from@ =~= seq!['\n']);
        assert(to@ =~= seq![' ']);
    }
    let replaced = replace_all(&chars, &from, &to);
    string_from_chars(&replaced)
}

/// Pads every line but the first on the left with `pad` spaces and trims the
/// result.
pub fn left_pad_without_1st(string: &str, pad: usize) -> (r: String)
    ensures
        r@ == crate::pad::left_pad_without_1st_spec(string@, pad as nat),
{
    crate::pad::left_pad_without_1st(string, pad)
}

} // verus!
