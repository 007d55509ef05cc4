//! Character-level text helpers shared by the document codec, the command
//! splitter and the version-control wrappers.
//!
//! Text is handled as `Vec<char>`, whose view is the same `Seq<char>` that
//! `String` and `&str` present, so contracts can speak of one model of text
//! throughout the crate.

use vstd::prelude::*;

verus! {

/// Relies on `core::str::Chars` via `Iterator::collect`: the characters of a
/// string, in order, which are exactly the string's view.
#[verifier::external_body]
pub fn chars_of(s: &str) -> (r: Vec<char>)
    ensures
        r@ == s@,
{
    s.chars().collect()
}

/// Relies on `String: FromIterator<char>` via `Iterator::collect`: a string
/// built from characters in order views as exactly those characters.
#[verifier::external_body]
pub fn string_of(v: &Vec<char>) -> (r: String)
    ensures
        r@ == v@,
{
    v.iter().collect()
}

/// Whether `c` is blank space for this crate's purposes: the ASCII space,
/// tab, line feed and carriage return characters.
pub open spec fn spec_is_space(c: char) -> bool {
    c == ' ' || c == '\t' || c == '\n' || c == '\r'
}

/// Executable test for [`spec_is_space`].
#[verifier::when_used_as_spec(spec_is_space)]
pub fn is_space(c: char) -> (r: bool)
    ensures
        r == spec_is_space(c),
{
    c == ' ' || c == '\t' || c == '\n' || c == '\r'
}

/// Appends every character of the literal `lit` to `out`.
pub fn append_lit(out: &mut Vec<char>, lit: &str)
    ensures
        final(out)@ == old(out)@ + lit@,
{
    let n = lit.unicode_len();
    let mut i: usize = 0;
    while i < n
        invariant
            n == lit@.len(),
            0 <= i <= n,
            out@ == old(out)@ + lit@.subrange(0, i as int),
        decreases n - i,
    {
        let c = lit.get_char(i);
        out.push(c);
        proof {
            assert(lit@.subrange(0, i + 1) =~= lit@.subrange(0, i as int) + seq![lit@[i as int]]);
        }
        i += 1;
    }
    proof {
        assert(lit@.subrange(0, n as int) =~= lit@);
    }
}

/// Whether the characters of `lit` occur in `v` starting at position `i`.
pub fn lit_at(v: &Vec<char>, i: usize, lit: &str) -> (r: bool)
    ensures
        r == (i + lit@.len() <= v@.len() && v@.subrange(i as int, i + lit@.len()) == lit@),
{
    let n = lit.unicode_len();
    let vn = v.len();
    if n > vn || i > vn - n {
        return false;
    }
    let mut j: usize = 0;
    while j < n
        invariant
            n == lit@.len(),
            vn == v@.len(),
            i + n <= vn,
            0 <= j <= n,
            forall|k: int| 0 <= k < j ==> v@[i + k] == lit@[k],
        decreases n - j,
    {
        if v[i + j] != lit.get_char(j) {
            proof {
                assert(v@.subrange(i as int, i + lit@.len())[j as int] != lit@[j as int]);
            }
            return false;
        }
        j += 1;
    }
    proof {
        assert(v@.subrange(i as int, i + lit@.len()) =~= lit@);
    }
    true
}

/// Text with leading and trailing blank space removed.
pub open spec fn trim_of(s: Seq<char>) -> Seq<char>
    decreases s.len(),
{
    if s.len() > 0 && spec_is_space(s[0]) {
        trim_of(s.drop_first())
    } else if s.len() > 0 && spec_is_space(s.last()) {
        trim_of(s.drop_last())
    } else {
        s
    }
}

/// Characterisation of [`trim_of`] by the first and last non-space
/// positions.
pub proof fn lemma_trim_of_is(s: Seq<char>, lo: int, hi: int)
    requires
        0 <= lo <= hi <= s.len(),
        forall|i: int| 0 <= i < lo ==> spec_is_space(s[i]),
        forall|i: int| hi <= i < s.len() ==> spec_is_space(s[i]),
        lo < hi ==> !spec_is_space(s[lo]) && !spec_is_space(s[hi - 1]),
    ensures
        trim_of(s) == s.subrange(lo, hi),
    decreases s.len(),
{
    if s.len() == 0 {
        assert(s.subrange(lo, hi) =~= s);
    } else if spec_is_space(s[0]) {
        let rest = s.drop_first();
        assert(forall|i: int| 0 <= i < rest.len() ==> rest[i] == s[i + 1]);
        if lo > 0 {
            lemma_trim_of_is(rest, lo - 1, hi - 1);
            assert(rest.subrange(lo - 1, hi - 1) =~= s.subrange(lo, hi));
        } else {
            assert(lo == 0);
            assert(lo == hi);
            lemma_trim_of_is(rest, 0, 0);
            assert(rest.subrange(0, 0) =~= s.subrange(lo, hi));
        }
    } else if spec_is_space(s.last()) {
        let rest = s.drop_last();
        assert(forall|i: int| 0 <= i < rest.len() ==> rest[i] == s[i]);
        if hi < s.len() {
            lemma_trim_of_is(rest, lo, hi);
            assert(rest.subrange(lo, hi) =~= s.subrange(lo, hi));
        } else {
            assert(hi == s.len());
            if lo < hi {
                assert(!spec_is_space(s[hi - 1]));
                assert(false);
            } else {
                assert(lo == hi && hi == s.len());
                assert(spec_is_space(s[0]));
                assert(false);
            }
        }
    } else {
        if lo > 0 {
            assert(spec_is_space(s[0]));
            assert(false);
        }
        if hi < s.len() {
            assert(spec_is_space(s[s.len() - 1]));
            assert(s.last() == s[s.len() - 1]);
            assert(false);
        }
        assert(s.subrange(lo, hi) =~= s);
    }
}

/// Removes leading and trailing blank space from a string.
pub fn trimmed_str(s: &str) -> (r: String)
    ensures
        r@ == trim_of(s@),
{
    let chars = chars_of(s);
    let n = chars.len();
    let mut lo: usize = 0;
    while lo < n && is_space(chars[lo])
        invariant
            n == chars@.len(),
            chars@ == s@,
            0 <= lo <= n,
            forall|i: int| 0 <= i < lo ==> spec_is_space(s@[i]),
        decreases n - lo,
    {
        lo += 1;
    }
    if lo == n {
        proof {
            lemma_trim_of_is(s@, n as int, n as int);
            assert(s@.subrange(n as int, n as int) =~= Seq::<char>::empty());
        }
        return String::new();
    }
    let mut hi: usize = n;
    while hi > lo && is_space(chars[hi - 1])
        invariant
            n == chars@.len(),
            chars@ == s@,
            0 <= lo <= hi <= n,
            lo < n,
            !spec_is_space(s@[lo as int]),
            forall|i: int| hi <= i < n ==> spec_is_space(s@[i]),
        decreases hi,
    {
        hi -= 1;
    }
    proof {
        lemma_trim_of_is(s@, lo as int, hi as int);
    }
    let core = copy_range(&chars, lo, hi);
    string_of(&core)
}

/// The character of one decimal digit.
pub open spec fn digit_char(d: int) -> char {
    if d == 0 {
        '0'
    } else if d == 1 {
        '1'
    } else if d == 2 {
        '2'
    } else if d == 3 {
        '3'
    } else if d == 4 {
        '4'
    } else if d == 5 {
        '5'
    } else if d == 6 {
        '6'
    } else if d == 7 {
        '7'
    } else if d == 8 {
        '8'
    } else {
        '9'
    }
}

/// The decimal digits of a number, most significant first, with no sign
/// and no leading zero (a single `'0'` for zero).
pub open spec fn decimal_digits(n: int) -> Seq<char>
    decreases n,
{
    if n < 10 {
        seq![digit_char(n)]
    } else {
        decimal_digits(n / 10).push(digit_char(n % 10))
    }
}

/// The character of one decimal digit.
fn digit_char_exec(d: usize) -> (c: char)
    requires
        d < 10,
    ensures
        c == digit_char(d as int),
{
    if d == 0 {
        '0'
    } else if d == 1 {
        '1'
    } else if d == 2 {
        '2'
    } else if d == 3 {
        '3'
    } else if d == 4 {
        '4'
    } else if d == 5 {
        '5'
    } else if d == 6 {
        '6'
    } else if d == 7 {
        '7'
    } else if d == 8 {
        '8'
    } else {
        '9'
    }
}

/// Appends the decimal form of `n` to `out`.
pub fn push_decimal(out: &mut Vec<char>, n: usize)
    ensures
        final(out)@ == old(out)@ + decimal_digits(n as int),
    decreases n,
{
    if n < 10 {
        let c = digit_char_exec(n);
        out.push(c);
        proof {
            assert(out@ =~= old(out)@ + decimal_digits(n as int));
        }
    } else {
        push_decimal(out, n / 10);
        let c = digit_char_exec(n % 10);
        out.push(c);
        proof {
            assert(out@ =~= old(out)@ + decimal_digits(n as int));
        }
    }
}

/// Copies `v[from..to]` into a fresh vector.
pub fn copy_range(v: &Vec<char>, from: usize, to: usize) -> (r: Vec<char>)
    requires
        from <= to <= v@.len(),
    ensures
        r@ == v@.subrange(from as int, to as int),
{
    let mut out: Vec<char> = Vec::new();
    let mut i: usize = from;
    while i < to
        invariant
            from <= i <= to <= v@.len(),
            out@ == v@.subrange(from as int, i as int),
        decreases to - i,
    {
        out.push(v[i]);
        proof {
            assert(v@.subrange(from as int, i + 1) =~= v@.subrange(from as int, i as int)
                + seq![v@[i as int]]);
        }
        i += 1;
    }
    out
}

} // verus!
