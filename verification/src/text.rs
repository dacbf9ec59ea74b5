//! Character and string helpers used by the parsers and renderers.

use vstd::prelude::*;

verus! {

/// `String::push` appends one character.
pub assume_specification[ String::push ](s: &mut String, ch: char)
    ensures
        final(s)@ == old(s)@.push(ch),
;

/// The characters that carry Unicode's `White_Space` property.
pub open spec fn is_white_space(c: char) -> bool {
    ||| ('\u{9}' <= c && c <= '\u{d}')
    ||| c == ' '
    ||| c == '\u{85}'
    ||| c == '\u{a0}'
    ||| c == '\u{1680}'
    ||| ('\u{2000}' <= c && c <= '\u{200a}')
    ||| c == '\u{2028}'
    ||| c == '\u{2029}'
    ||| c == '\u{202f}'
    ||| c == '\u{205f}'
    ||| c == '\u{3000}'
}

/// Whether `c` is white space in the sense of `char::is_whitespace`.
pub fn is_whitespace(c: char) -> (r: bool)
    ensures
        r == is_white_space(c),
{
    ('\u{9}' <= c && c <= '\u{d}') || c == ' ' || c == '\u{85}' || c == '\u{a0}' || c == '\u{1680}'
        || ('\u{2000}' <= c && c <= '\u{200a}') || c == '\u{2028}' || c == '\u{2029}' || c
        == '\u{202f}' || c == '\u{205f}' || c == '\u{3000}'
}

/// The characters of `s`, in order.
pub fn chars_of(s: &str) -> (r: Vec<char>)
    ensures
        r@ == s@,
{
    let mut out: Vec<char> = Vec::new();
    for c in it: s.chars()
        invariant
            it.seq() == s@,
            out@ == it.seq().take(it.index() as int),
    {
        out.push(c);
    }
    assert(out@ == s@);
    out
}


/// Moves the contents out of `v`, leaving it empty.
pub fn take_vec<T>(v: &mut Vec<T>) -> (r: Vec<T>)
    ensures
        r == *old(v),
        final(v)@.len() == 0,
{
    let mut e: Vec<T> = Vec::new();
    std::mem::swap(v, &mut e);
    e
}

/// Moves the contents out of `s`, leaving it empty.
pub fn take_string(s: &mut String) -> (r: String)
    ensures
        r == *old(s),
        final(s)@.len() == 0,
{
    let mut e = String::new();
    std::mem::swap(s, &mut e);
    e
}


/// The string made of `cs[lo..hi]`.
pub fn string_from_chars(cs: &Vec<char>, lo: usize, hi: usize) -> (r: String)
    requires
        lo <= hi <= cs@.len(),
    ensures
        r@ == cs@.subrange(lo as int, hi as int),
{
    let mut out = String::new();
    let mut i = lo;
    while i < hi
        invariant
            lo <= i <= hi <= cs@.len(),
            out@ == cs@.subrange(lo as int, i as int),
        decreases hi - i,
    {
        out.push(cs[i]);
        assert(cs@.subrange(lo as int, i + 1) =~= cs@.subrange(lo as int, i as int).push(cs@[i as int]));
        i = i + 1;
    }
    out
}

/// The number of white-space characters at the start of `s`.
pub open spec fn leading_white_space(s: Seq<char>) -> nat
    decreases s.len(),
{
    if s.len() > 0 && is_white_space(s[0]) {
        1 + leading_white_space(s.drop_first())
    } else {
        0
    }
}

/// `s` without its leading white space, as `str::trim_start` gives it.
pub open spec fn trim_start(s: Seq<char>) -> Seq<char> {
    s.skip(leading_white_space(s) as int)
}

/// The number of white-space characters at the end of `s`.
pub open spec fn trailing_white_space(s: Seq<char>) -> nat
    decreases s.len(),
{
    if s.len() > 0 && is_white_space(s.last()) {
        1 + trailing_white_space(s.drop_last())
    } else {
        0
    }
}

/// `s` without its leading and trailing white space, as `str::trim` gives it.
pub open spec fn trim(s: Seq<char>) -> Seq<char> {
    let t = trim_start(s);
    t.take(t.len() - trailing_white_space(t))
}

proof fn lemma_leading_white_space(s: Seq<char>, i: int)
    requires
        0 <= i <= s.len(),
        forall|k: int| 0 <= k < i ==> is_white_space(#[trigger] s[k]),
    ensures
        i < s.len() && !is_white_space(s[i]) ==> leading_white_space(s) == i,
        i == s.len() ==> leading_white_space(s) == i,
    decreases i,
{
    if i > 0 {
        let t = s.drop_first();
        assert forall|k: int| 0 <= k < i - 1 implies is_white_space(#[trigger] t[k]) by {
            assert(t[k] == s[k + 1]);
        }
        lemma_leading_white_space(t, i - 1);
    }
}

/// The index of the first character of `cs` that is not white space (its length if none).
pub fn skip_white_space(cs: &Vec<char>) -> (r: usize)
    ensures
        r == leading_white_space(cs@),
        r <= cs@.len(),
{
    let mut i: usize = 0;
    while i < cs.len() && is_whitespace(cs[i])
        invariant
            0 <= i <= cs@.len(),
            forall|k: int| 0 <= k < i ==> is_white_space(#[trigger] cs@[k]),
        decreases cs@.len() - i,
    {
        i = i + 1;
    }
    proof {
        lemma_leading_white_space(cs@, i as int);
    }
    i
}


proof fn lemma_trailing_white_space(s: Seq<char>, h: int)
    requires
        0 <= h <= s.len(),
        forall|k: int| h <= k < s.len() ==> is_white_space(#[trigger] s[k]),
        h == 0 || !is_white_space(s[h - 1]),
    ensures
        trailing_white_space(s) == s.len() - h,
    decreases s.len(),
{
    if s.len() > h {
        let d = s.drop_last();
        assert forall|k: int| h <= k < d.len() implies is_white_space(#[trigger] d[k]) by {
            assert(d[k] == s[k]);
        }
        lemma_trailing_white_space(d, h);
    }
}

/// The bounds of `cs` without its leading and trailing white space.
pub fn trimmed_bounds(cs: &Vec<char>) -> (r: (usize, usize))
    ensures
        r.0 <= r.1 <= cs@.len(),
        cs@.subrange(r.0 as int, r.1 as int) == trim(cs@),
{
    let lo = skip_white_space(cs);
    let mut hi = cs.len();
    while hi > lo && is_whitespace(cs[hi - 1])
        invariant
            lo <= hi <= cs@.len(),
            forall|k: int| hi <= k < cs@.len() ==> is_white_space(#[trigger] cs@[k]),
        decreases hi,
    {
        hi = hi - 1;
    }
    proof {
        let t = cs@.skip(lo as int);
        assert forall|k: int| hi - lo <= k < t.len() implies is_white_space(#[trigger] t[k]) by {
            assert(t[k] == cs@[k + lo]);
        }
        if hi > lo {
            assert(t[hi - lo - 1] == cs@[hi - 1]);
        }
        lemma_trailing_white_space(t, hi - lo);
        assert(cs@.subrange(lo as int, hi as int) =~= t.take(t.len() - trailing_white_space(t)));
    }
    (lo, hi)
}

/// The decimal digit of `d` (below 10).
pub open spec fn digit_char(d: nat) -> char {
    ((48 + d) as u8) as char
}

/// The decimal form of a number, without leading zeros.
pub open spec fn decimal(n: nat) -> Seq<char>
    decreases n,
{
    if n < 10 {
        seq![digit_char(n)]
    } else {
        decimal(n / 10).push(digit_char(n % 10))
    }
}

/// Whether `c` is one of the digits `0` to `9`.
pub open spec fn is_digit(c: char) -> bool {
    '0' <= c && c <= '9'
}

/// The number that a string of decimal digits stands for.
pub open spec fn digits_value(s: Seq<char>) -> nat
    decreases s.len(),
{
    if s.len() == 0 {
        0
    } else {
        digits_value(s.drop_last()) * 10 + ((s.last() as int - 48) as nat)
    }
}

proof fn lemma_digit_char(d: nat)
    requires
        d < 10,
    ensures
        digit_char(d) as int == 48 + d,
        is_digit(digit_char(d)),
{
    let b: u8 = (48 + d) as u8;
    assert(b as int == 48 + d);
}

/// The decimal form of a number is made of digits, starts with a digit other than `0`
/// unless the number is 0, and reads back as the number.
pub proof fn lemma_decimal_reads_back(n: nat)
    ensures
        decimal(n).len() > 0,
        forall|i: int| 0 <= i < decimal(n).len() ==> is_digit(#[trigger] decimal(n)[i]),
        decimal(n)[0] != '0' || n == 0,
        digits_value(decimal(n)) == n,
    decreases n,
{
    if n < 10 {
        lemma_digit_char(n);
        assert(decimal(n)[0] == digit_char(n));
        assert(decimal(n).drop_last() =~= Seq::<char>::empty());
        assert(decimal(n).last() == digit_char(n));
        assert(digits_value(Seq::<char>::empty()) == 0);
        assert(digits_value(decimal(n)) == digits_value(decimal(n).drop_last()) * 10 + ((decimal(n).last() as int - 48) as nat));
    } else {
        lemma_digit_char(n % 10);
        assert((n / 10) * 10 + n % 10 == n) by (nonlinear_arith);
        lemma_decimal_reads_back(n / 10);
        let d = decimal(n);
        assert(d.drop_last() =~= decimal(n / 10));
        assert(d.last() == digit_char(n % 10));
        assert(digits_value(d) == digits_value(d.drop_last()) * 10 + ((d.last() as int - 48) as nat));
        assert(d[0] == decimal(n / 10)[0]);
        assert forall|i: int| 0 <= i < d.len() implies is_digit(#[trigger] d[i]) by {
            if i < d.len() - 1 {
                assert(d[i] == decimal(n / 10)[i]);
            }
        }
    }
}

/// The decimal form of `n`, as `n.to_string()` gives it.
pub fn usize_to_decimal(n: usize) -> (r: String)
    ensures
        r@ == decimal(n as nat),
    decreases n,
{
    let d: u8 = (n % 10) as u8;
    let c = (48u8 + d) as char;
    if n < 10 {
        let mut s = String::new();
        s.push(c);
        assert(s@ =~= seq![c]);
        s
    } else {
        let mut s = usize_to_decimal(n / 10);
        s.push(c);
        s
    }
}

/// The upper-case form of a text, as `str::to_uppercase` gives it (Unicode case mapping).
pub uninterp spec fn spec_to_uppercase(s: Seq<char>) -> Seq<char>;

/// `str::to_uppercase`.
///
/// Trusted: the result is the named [`spec_to_uppercase`] of the text.
#[verifier::external_body]
pub(crate) fn to_uppercase(s: &str) -> (r: String)
    ensures
        r@ == spec_to_uppercase(s@),
{
    s.to_uppercase()
}

} // verus!
