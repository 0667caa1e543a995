//! Character-sequence utilities shared by the template engine: digit runs,
//! whitespace trimming, joining, and plain-text replacement.

use vstd::prelude::*;

verus! {

// ---------------------------------------------------------------------------
// characters
// ---------------------------------------------------------------------------

/// `c` is a decimal digit.
pub open spec fn is_digit_char(c: char) -> bool {
    48 <= c as u32 && c as u32 <= 57
}

/// The numeric value of a decimal digit.
pub open spec fn digit_val(c: char) -> nat {
    (c as u32 - 48) as nat
}

/// The value of a run of decimal digits, most significant first.
pub open spec fn digits_value(s: Seq<char>) -> nat
    decreases s.len(),
{
    if s.len() == 0 {
        0
    } else {
        digits_value(s.drop_last()) * 10 + digit_val(s.last())
    }
}

/// `c` has the Unicode white-space property, exactly as `char::is_whitespace`
/// decides it.
pub open spec fn is_space_char(c: char) -> bool {
    let u = c as u32;
    u == 32 || (9 <= u && u <= 13) || u == 0x85 || u == 0xA0 || u == 0x1680 || (0x2000 <= u && u
        <= 0x200A) || u == 0x2028 || u == 0x2029 || u == 0x202F || u == 0x205F || u == 0x3000
}

/// Executable form of [`is_space_char`].
pub fn is_space(c: char) -> (b: bool)
    ensures
        b == is_space_char(c),
{
    let u = c as u32;
    u == 32 || (9 <= u && u <= 13) || u == 0x85 || u == 0xA0 || u == 0x1680 || (0x2000 <= u && u
        <= 0x200A) || u == 0x2028 || u == 0x2029 || u == 0x202F || u == 0x205F || u == 0x3000
}

/// Executable form of [`is_digit_char`].
pub fn is_digit(c: char) -> (b: bool)
    ensures
        b == is_digit_char(c),
{
    let u = c as u32;
    48 <= u && u <= 57
}

// ---------------------------------------------------------------------------
// trimming
// ---------------------------------------------------------------------------

/// `s` without its leading white space.
pub open spec fn trim_front(s: Seq<char>) -> Seq<char>
    decreases s.len(),
{
    if s.len() > 0 && is_space_char(s[0]) {
        trim_front(s.drop_first())
    } else {
        s
    }
}

/// `s` without its trailing white space.
pub open spec fn trim_back(s: Seq<char>) -> Seq<char>
    decreases s.len(),
{
    if s.len() > 0 && is_space_char(s.last()) {
        trim_back(s.drop_last())
    } else {
        s
    }
}

/// `s` without leading and trailing white space, as `str::trim` returns it.
pub open spec fn trim_spec(s: Seq<char>) -> Seq<char> {
    trim_back(trim_front(s))
}

proof fn lemma_trim_front_skip(s: Seq<char>, a: int)
    requires
        0 <= a <= s.len(),
        forall|k: int| 0 <= k < a ==> is_space_char(s[k]),
        a < s.len() ==> !is_space_char(s[a]),
    ensures
        trim_front(s) == s.subrange(a, s.len() as int),
    decreases a,
{
    if a == 0 {
        assert(s.subrange(0, s.len() as int) =~= s);
    } else {
        assert(is_space_char(s[0]));
        lemma_trim_front_skip(s.drop_first(), a - 1);
        assert(s.drop_first().subrange(a - 1, s.drop_first().len() as int) =~= s.subrange(
            a,
            s.len() as int,
        ));
    }
}

proof fn lemma_trim_back_take(s: Seq<char>, b: int)
    requires
        0 <= b <= s.len(),
        forall|k: int| b <= k < s.len() ==> is_space_char(s[k]),
        b > 0 ==> !is_space_char(s[b - 1]),
    ensures
        trim_back(s) == s.subrange(0, b),
    decreases s.len() - b,
{
    if b == s.len() {
        assert(s.subrange(0, s.len() as int) =~= s);
    } else {
        assert(is_space_char(s.last()));
        lemma_trim_back_take(s.drop_last(), b);
        assert(s.drop_last().subrange(0, b) =~= s.subrange(0, b));
    }
}

/// Removes leading and trailing white space from a character vector.
pub fn trim_chars(s: &Vec<char>) -> (r: Vec<char>)
    ensures
        r@ == trim_spec(s@),
{
    let n = s.len();
    let mut a: usize = 0;
    while a < n && is_space(s[a])
        invariant
            0 <= a <= n,
            n == s@.len(),
            forall|k: int| 0 <= k < a ==> is_space_char(s@[k]),
        decreases n - a,
    {
        a = a + 1;
    }
    proof {
        lemma_trim_front_skip(s@, a as int);
    }
    let ghost t = s@.subrange(a as int, s@.len() as int);
    let mut b: usize = n;
    while b > a && is_space(s[b - 1])
        invariant
            a <= b <= n,
            n == s@.len(),
            forall|k: int| b <= k < n ==> is_space_char(s@[k]),
        decreases b,
    {
        b = b - 1;
    }
    proof {
        lemma_trim_back_take(t, b - a);
        assert(t.subrange(0, b - a) =~= s@.subrange(a as int, b as int));
    }
    let mut r: Vec<char> = Vec::new();
    let mut i: usize = a;
    while i < b
        invariant
            a <= i <= b <= n,
            n == s@.len(),
            r@ == s@.subrange(a as int, i as int),
        decreases b - i,
    {
        r.push(s[i]);
        i = i + 1;
        proof {
            assert(s@.subrange(a as int, i as int) =~= s@.subrange(a as int, i - 1).push(
                s@[i - 1],
            ));
        }
    }
    r
}

// ---------------------------------------------------------------------------
// joining
// ---------------------------------------------------------------------------

/// `parts` joined by `sep`: empty for no parts, and no separator around a
/// single part.
pub open spec fn join_with(parts: Seq<Seq<char>>, sep: Seq<char>) -> Seq<char>
    decreases parts.len(),
{
    if parts.len() == 0 {
        Seq::empty()
    } else if parts.len() == 1 {
        parts[0]
    } else {
        parts[0] + sep + join_with(parts.drop_first(), sep)
    }
}

/// Appending one more part extends the join by one separator and the part.
pub proof fn lemma_join_push(parts: Seq<Seq<char>>, sep: Seq<char>, p: Seq<char>)
    ensures
        parts.len() == 0 ==> join_with(parts.push(p), sep) == p,
        parts.len() > 0 ==> join_with(parts.push(p), sep) == join_with(parts, sep) + sep + p,
    decreases parts.len(),
{
    if parts.len() == 0 {
        assert(parts.push(p)[0] == p);
    } else if parts.len() == 1 {
        assert(parts.push(p).drop_first() =~= seq![p]);
        assert(join_with(seq![p], sep) == p);
        assert(parts.push(p)[0] == parts[0]);
        assert(join_with(parts.push(p), sep) == parts[0] + sep + p);
        assert(join_with(parts, sep) == parts[0]);
    } else {
        lemma_join_push(parts.drop_first(), sep, p);
        assert(parts.push(p).drop_first() =~= parts.drop_first().push(p));
        assert(parts.push(p)[0] == parts[0]);
        assert(join_with(parts.push(p), sep) == parts[0] + sep + (join_with(
            parts.drop_first(),
            sep,
        ) + sep + p));
        assert(join_with(parts, sep) + sep + p =~= parts[0] + sep + (join_with(
            parts.drop_first(),
            sep,
        ) + sep + p));
    }
}

/// Appends the characters of `s` to `out`.
pub fn append_str(out: &mut Vec<char>, s: &str)
    ensures
        final(out)@ == old(out)@ + s@,
{
    let vc = str_chars(s);
    append_chars(out, &vc);
}

/// Appends `parts`, joined by single spaces, to `out`.
pub fn append_joined(out: &mut Vec<char>, parts: &Vec<String>)
    ensures
        final(out)@ == old(out)@ + join_with(parts.deep_view(), seq![' ']),
{
    let ghost base = out@;
    let ghost pv = parts.deep_view();
    let mut k: usize = 0;
    proof {
        assert(pv.subrange(0, 0) =~= Seq::<Seq<char>>::empty());
        assert(base + join_with(pv.subrange(0, 0), seq![' ']) =~= base);
    }
    while k < parts.len()
        invariant
            0 <= k <= parts@.len(),
            pv == parts.deep_view(),
            pv.len() == parts@.len(),
            out@ == base + join_with(pv.subrange(0, k as int), seq![' ']),
        decreases parts@.len() - k,
    {
        let ghost done = pv.subrange(0, k as int);
        proof {
            lemma_join_push(done, seq![' '], pv[k as int]);
            assert(pv.subrange(0, k + 1) =~= done.push(pv[k as int]));
            assert(pv[k as int] == parts@[k as int]@);
        }
        if k > 0 {
            out.push(' ');
        }
        let vc = str_chars(parts[k].as_str());
        append_chars(out, &vc);
        proof {
            if k > 0 {
                assert(out@ =~= base + (join_with(done, seq![' ']) + seq![' '] + pv[k as int]));
            } else {
                assert(out@ =~= base + pv[k as int]);
            }
        }
        k = k + 1;
    }
    proof {
        assert(pv.subrange(0, pv.len() as int) =~= pv);
    }
}

// ---------------------------------------------------------------------------
// replacement
// ---------------------------------------------------------------------------

/// Replaces every occurrence of `from` in `s` by `to`, scanning left to right
/// and never rescanning inserted text — for a nonempty `from`, exactly as
/// `str::replace` does.  An empty `from` leaves `s` unchanged (there
/// `str::replace` would instead insert `to` at every character boundary; no
/// capture text is ever empty, so the case never arises in this crate).
pub open spec fn replace_all_spec(s: Seq<char>, from: Seq<char>, to: Seq<char>) -> Seq<char>
    decreases s.len(),
{
    if from.len() == 0 || s.len() == 0 {
        s
    } else if from.len() <= s.len() && s.subrange(0, from.len() as int) == from {
        to + replace_all_spec(s.skip(from.len() as int), from, to)
    } else {
        seq![s[0]] + replace_all_spec(s.drop_first(), from, to)
    }
}

/// `s` contains `pat` starting at position `i`.
pub open spec fn matches_at(s: Seq<char>, i: int, pat: Seq<char>) -> bool {
    0 <= i && i + pat.len() <= s.len() && s.subrange(i, i + pat.len()) == pat
}

/// Decides [`matches_at`] on vectors.
pub fn match_at(s: &Vec<char>, i: usize, pat: &Vec<char>) -> (b: bool)
    requires
        i <= s@.len(),
    ensures
        b == matches_at(s@, i as int, pat@),
{
    let n = s.len();
    if pat.len() > n - i {
        return false;
    }
    let mut k: usize = 0;
    while k < pat.len()
        invariant
            0 <= k <= pat@.len(),
            n == s@.len(),
            i + pat@.len() <= n,
            forall|j: int| 0 <= j < k ==> s@[i + j] == pat@[j],
        decreases pat@.len() - k,
    {
        if s[i + k] != pat[k] {
            proof {
                assert(s@.subrange(i as int, i + pat@.len())[k as int] == s@[i + k]);
            }
            return false;
        }
        k = k + 1;
    }
    proof {
        assert(s@.subrange(i as int, i + pat@.len()) =~= pat@);
    }
    true
}

/// Appends `src` to `out`.
pub fn append_chars(out: &mut Vec<char>, src: &Vec<char>)
    ensures
        final(out)@ == old(out)@ + src@,
{
    let mut k: usize = 0;
    while k < src.len()
        invariant
            0 <= k <= src@.len(),
            out@ == old(out)@ + src@.subrange(0, k as int),
        decreases src@.len() - k,
    {
        out.push(src[k]);
        k = k + 1;
        proof {
            assert(src@.subrange(0, k as int) =~= src@.subrange(0, k - 1).push(src@[k - 1]));
        }
    }
    proof {
        assert(src@.subrange(0, src@.len() as int) =~= src@);
    }
}

/// Replaces every occurrence of `from` in `s` by `to`.
pub fn replace_all(s: &Vec<char>, from: &Vec<char>, to: &Vec<char>) -> (r: Vec<char>)
    ensures
        r@ == replace_all_spec(s@, from@, to@),
{
    let mut out: Vec<char> = Vec::new();
    if from.len() == 0 {
        append_chars(&mut out, s);
        proof {
            lemma_replace_empty_pattern(s@, to@);
            assert(out@ =~= s@);
        }
        return out;
    }
    let n = s.len();
    proof {
        assert(s@.skip(0) =~= s@);
        assert(Seq::<char>::empty() + replace_all_spec(s@, from@, to@) =~= replace_all_spec(
            s@,
            from@,
            to@,
        ));
    }
    let mut i: usize = 0;
    while i < n
        invariant
            0 <= i <= n,
            n == s@.len(),
            from@.len() > 0,
            replace_all_spec(s@, from@, to@) == out@ + replace_all_spec(
                s@.skip(i as int),
                from@,
                to@,
            ),
        decreases n - i,
    {
        let ghost oi = i as int;
        let ghost rest = s@.skip(oi);
        let ghost out0 = out@;
        let m = match_at(s, i, from);
        proof {
            assert(rest.len() == s@.len() - oi);
            if from@.len() <= rest.len() {
                assert(rest.subrange(0, from@.len() as int) =~= s@.subrange(
                    oi,
                    oi + from@.len(),
                ));
            }
        }
        if m {
            append_chars(&mut out, to);
            i = i + from.len();
            proof {
                assert(rest.skip(from@.len() as int) =~= s@.skip(i as int));
                assert(replace_all_spec(rest, from@, to@) == to@ + replace_all_spec(
                    s@.skip(i as int),
                    from@,
                    to@,
                ));
                assert(out@ == out0 + to@);
                assert(out0 + (to@ + replace_all_spec(s@.skip(i as int), from@, to@)) =~= out@
                    + replace_all_spec(s@.skip(i as int), from@, to@));
            }
        } else {
            out.push(s[i]);
            i = i + 1;
            proof {
                assert(rest[0] == s@[oi]);
                assert(rest.drop_first() =~= s@.skip(i as int));
                assert(replace_all_spec(rest, from@, to@) == seq![s@[oi]] + replace_all_spec(
                    s@.skip(i as int),
                    from@,
                    to@,
                ));
                assert(out@ == out0.push(s@[oi]));
                assert(out0 + (seq![s@[oi]] + replace_all_spec(s@.skip(i as int), from@, to@))
                    =~= out@ + replace_all_spec(s@.skip(i as int), from@, to@));
            }
        }
    }
    proof {
        assert(s@.skip(n as int) =~= Seq::<char>::empty());
        assert(out@ + Seq::<char>::empty() =~= out@);
    }
    out
}

/// An empty pattern never matches, so replacement is the identity.
proof fn lemma_replace_empty_pattern(s: Seq<char>, to: Seq<char>)
    ensures
        replace_all_spec(s, Seq::<char>::empty(), to) == s,
{
}

// ---------------------------------------------------------------------------
// strings and characters
// ---------------------------------------------------------------------------

/// The characters of `s` as a vector.
pub fn str_chars(s: &str) -> (r: Vec<char>)
    ensures
        r@ == s@,
{
    let n = s.unicode_len();
    let mut r: Vec<char> = Vec::new();
    let mut i: usize = 0;
    while i < n
        invariant
            0 <= i <= n,
            n == s@.len(),
            r@ == s@.subrange(0, i as int),
        decreases n - i,
    {
        r.push(s.get_char(i));
        i = i + 1;
        proof {
            assert(s@.subrange(0, i as int) =~= s@.subrange(0, i - 1).push(s@[i - 1]));
        }
    }
    proof {
        assert(s@.subrange(0, n as int) =~= s@);
    }
    r
}

/// Appends one character to a string.
///
/// Relies on `String::push`: it appends exactly the given character.
#[verifier::external_body]
pub fn push_char(s: &mut String, c: char)
    ensures
        final(s)@ == old(s)@.push(c),
{
    s.push(c);
}

/// The characters `v[from..to]` as a string.
pub fn string_from_range(v: &Vec<char>, from: usize, to: usize) -> (r: String)
    requires
        from <= to <= v@.len(),
    ensures
        r@ == v@.subrange(from as int, to as int),
{
    let mut r = String::new();
    let mut i: usize = from;
    while i < to
        invariant
            from <= i <= to <= v@.len(),
            r@ == v@.subrange(from as int, i as int),
        decreases to - i,
    {
        push_char(&mut r, v[i]);
        i = i + 1;
        proof {
            assert(v@.subrange(from as int, i as int) =~= v@.subrange(from as int, i - 1).push(
                v@[i - 1],
            ));
        }
    }
    r
}

/// The characters of `v` as a string.
pub fn string_from_chars(v: &Vec<char>) -> (r: String)
    ensures
        r@ == v@,
{
    let r = string_from_range(v, 0, v.len());
    proof {
        assert(v@.subrange(0, v@.len() as int) =~= v@);
    }
    r
}

/// Compares two string slices by their characters.
pub fn str_equal(a: &str, b: &str) -> (r: bool)
    ensures
        r == (a@ == b@),
{
    let na = a.unicode_len();
    let nb = b.unicode_len();
    if na != nb {
        return false;
    }
    let mut i: usize = 0;
    while i < na
        invariant
            0 <= i <= na,
            na == a@.len(),
            na == b@.len(),
            forall|k: int| 0 <= k < i ==> a@[k] == b@[k],
        decreases na - i,
    {
        if a.get_char(i) != b.get_char(i) {
            return false;
        }
        i = i + 1;
    }
    proof {
        assert(a@ =~= b@);
    }
    true
}

// ---------------------------------------------------------------------------
// decimal rendering
// ---------------------------------------------------------------------------

/// The digit character for a value below ten.
pub open spec fn digit_char(d: nat) -> char {
    ((48 + d) as u8) as char
}

/// `n` in decimal, most significant digit first, no leading zero.
pub open spec fn dec_digits(n: nat) -> Seq<char>
    decreases n,
{
    if n < 10 {
        seq![digit_char(n)]
    } else {
        dec_digits(n / 10).push(digit_char(n % 10))
    }
}

/// Appends `n` in decimal to `out`.
pub fn push_decimal(out: &mut Vec<char>, n: usize)
    ensures
        final(out)@ == old(out)@ + dec_digits(n as nat),
    decreases n,
{
    if n < 10 {
        let d = (48 + n as u8) as char;
        out.push(d);
        proof {
            assert(out@ =~= old(out)@ + dec_digits(n as nat));
        }
    } else {
        push_decimal(out, n / 10);
        let d = (48 + (n % 10) as u8) as char;
        out.push(d);
        proof {
            assert(out@ =~= old(out)@ + dec_digits(n as nat));
        }
    }
}

// ---------------------------------------------------------------------------
// splitting
// ---------------------------------------------------------------------------

/// `s` split at every occurrence of `sep`: always at least one piece, and one
/// empty piece for each separator at the ends or doubled in the middle.
pub open spec fn split_char(s: Seq<char>, sep: char) -> Seq<Seq<char>>
    decreases s.len(),
{
    if s.len() == 0 {
        seq![Seq::<char>::empty()]
    } else {
        let r = split_char(s.drop_first(), sep);
        if s[0] == sep {
            seq![Seq::<char>::empty()] + r
        } else {
            seq![seq![s[0]] + r[0]] + r.skip(1)
        }
    }
}

proof fn lemma_split_char_len(s: Seq<char>, sep: char)
    ensures
        split_char(s, sep).len() >= 1,
    decreases s.len(),
{
    if s.len() > 0 {
        lemma_split_char_len(s.drop_first(), sep);
    }
}

/// If `s[..k]` is separator-free, the first piece of the split is `s[..k]`
/// when a separator stands at `k`, and the split is just `s` when `k` is the
/// end.
proof fn lemma_split_char_at(s: Seq<char>, sep: char, k: int)
    requires
        0 <= k <= s.len(),
        forall|j: int| 0 <= j < k ==> s[j] != sep,
    ensures
        k == s.len() ==> split_char(s, sep) == seq![s],
        (k < s.len() && s[k] == sep) ==> split_char(s, sep) == seq![s.subrange(0, k)]
            + split_char(s.skip(k + 1), sep),
    decreases k,
{
    lemma_split_char_len(s, sep);
    if k == 0 {
        if 0 < s.len() && s[0] == sep {
            assert(s.subrange(0, 0) =~= Seq::<char>::empty());
            assert(s.skip(1) =~= s.drop_first());
        } else if s.len() == 0 {
            assert(s =~= Seq::<char>::empty());
        }
    } else {
        let df = s.drop_first();
        lemma_split_char_at(df, sep, k - 1);
        lemma_split_char_len(df, sep);
        let r = split_char(df, sep);
        if k == s.len() {
            assert(r == seq![df]);
            assert(seq![s[0]] + df =~= s);
            assert(r.skip(1) =~= Seq::<Seq<char>>::empty());
            assert(seq![seq![s[0]] + r[0]] + r.skip(1) =~= seq![seq![s[0]] + df]);
        } else if s[k] == sep {
            assert(df[k - 1] == sep);
            assert(r == seq![df.subrange(0, k - 1)] + split_char(df.skip(k), sep));
            assert(df.skip(k) =~= s.skip(k + 1));
            assert(seq![s[0]] + r[0] =~= s.subrange(0, k));
            assert(r.skip(1) =~= split_char(s.skip(k + 1), sep));
            assert(seq![seq![s[0]] + r[0]] + r.skip(1) =~= seq![s.subrange(0, k)] + split_char(
                s.skip(k + 1),
                sep,
            ));
        }
    }
}

/// Splits `s` at every occurrence of `sep`.
pub fn split_chars(s: &Vec<char>, sep: char) -> (r: Vec<Vec<char>>)
    ensures
        r.deep_view() == split_char(s@, sep),
{
    let n = s.len();
    let mut out: Vec<Vec<char>> = Vec::new();
    let mut piece: Vec<char> = Vec::new();
    let mut p: usize = 0;
    let mut i: usize = 0;
    proof {
        assert(s@.skip(0) =~= s@);
        assert(Seq::<Seq<char>>::empty() + split_char(s@, sep) =~= split_char(s@, sep));
        assert(piece@ =~= s@.subrange(0, 0));
    }
    while i < n
        invariant
            0 <= p <= i <= n,
            n == s@.len(),
            piece@ == s@.subrange(p as int, i as int),
            forall|j: int| p <= j < i ==> s@[j] != sep,
            split_char(s@, sep) == out.deep_view() + split_char(s@.skip(p as int), sep),
        decreases n - i,
    {
        let c = s[i];
        if c == sep {
            proof {
                let rest = s@.skip(p as int);
                assert(forall|j: int| 0 <= j < i - p ==> rest[j] == s@[p + j] && rest[j] != sep);
                assert(rest[i - p] == sep);
                lemma_split_char_at(rest, sep, i - p);
                assert(rest.subrange(0, i - p) =~= piece@);
                assert(rest.skip(i - p + 1) =~= s@.skip(i + 1));
                assert(out.deep_view() + (seq![piece@] + split_char(s@.skip(i + 1), sep))
                    =~= out.deep_view().push(piece@) + split_char(s@.skip(i + 1), sep));
            }
            let ghost dv0 = out.deep_view();
            out.push(piece);
            proof {
                assert(out.deep_view() =~~= dv0.push(s@.subrange(p as int, i as int)));
            }
            piece = Vec::new();
            p = i + 1;
            i = i + 1;
            proof {
                assert(piece@ =~= s@.subrange(p as int, i as int));
            }
        } else {
            piece.push(c);
            i = i + 1;
            proof {
                assert(piece@ =~= s@.subrange(p as int, i as int));
            }
        }
    }
    proof {
        let rest = s@.skip(p as int);
        assert(forall|j: int| 0 <= j < n - p ==> rest[j] == s@[p + j] && rest[j] != sep);
        lemma_split_char_at(rest, sep, n - p);
        assert(rest =~= piece@);
        assert(out.deep_view() + seq![piece@] =~= out.deep_view().push(piece@));
    }
    let ghost dv0 = out.deep_view();
    out.push(piece);
    proof {
        assert(out.deep_view() =~~= dv0.push(s@.subrange(p as int, n as int)));
        assert(s@.skip(p as int) =~= s@.subrange(p as int, n as int));
    }
    out
}

/// `s` contains the character `c`.
pub open spec fn contains_char(s: Seq<char>, c: char) -> bool {
    exists|i: int| 0 <= i < s.len() && s[i] == c
}

/// Decides [`contains_char`] over a string slice.
pub fn str_contains_char(s: &str, c: char) -> (r: bool)
    ensures
        r == contains_char(s@, c),
{
    let n = s.unicode_len();
    let mut i: usize = 0;
    while i < n
        invariant
            0 <= i <= n,
            n == s@.len(),
            forall|k: int| 0 <= k < i ==> s@[k] != c,
        decreases n - i,
    {
        if s.get_char(i) == c {
            return true;
        }
        i = i + 1;
    }
    false
}

} // verus!
