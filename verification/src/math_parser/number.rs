use vstd::prelude::*;
use crate::math_parser::text::{digit, is_digit};

verus! {

/// A sign before a number or an exponent.
pub open spec fn is_sign(c: char) -> bool {
    c == '+' || c == '-'
}

/// How many decimal digits open the text.
pub open spec fn digit_run(s: Seq<char>) -> nat
    decreases s.len(),
{
    if s.len() > 0 && is_digit(s[0]) {
        1 + digit_run(s.drop_first())
    } else {
        0
    }
}

/// The text spells the word, in lower or upper case letter by letter.
pub open spec fn spells(s: Seq<char>, lower: Seq<char>, upper: Seq<char>) -> bool {
    &&& s.len() == lower.len()
    &&& forall|i: int| 0 <= i < s.len() ==> s[i] == lower[i] || s[i] == upper[i]
}

/// One of the three names a number can go by: `inf`, `infinity`, `nan`, in any case.
pub open spec fn is_named_number(s: Seq<char>) -> bool {
    ||| spells(s, seq!['i', 'n', 'f'], seq!['I', 'N', 'F'])
    ||| spells(s, seq!['n', 'a', 'n'], seq!['N', 'A', 'N'])
    ||| spells(
        s,
        seq!['i', 'n', 'f', 'i', 'n', 'i', 't', 'y'],
        seq!['I', 'N', 'F', 'I', 'N', 'I', 'T', 'Y'],
    )
}

/// An exponent: `e` or `E`, an optional sign, and at least one digit up to the end.
pub open spec fn is_exponent(s: Seq<char>) -> bool {
    &&& s.len() >= 2
    &&& s[0] == 'e' || s[0] == 'E'
    &&& {
        let digits = if is_sign(s[1]) {
            s.skip(2)
        } else {
            s.skip(1)
        };
        digits.len() > 0 && digit_run(digits) == digits.len()
    }
}

/// Digits with an optional point among them, at least one digit in all, and an optional
/// exponent behind.
pub open spec fn is_decimal(s: Seq<char>) -> bool {
    let whole = digit_run(s);
    let rest = s.skip(whole as int);
    if rest.len() > 0 && rest[0] == '.' {
        let fraction = digit_run(rest.skip(1));
        let tail = rest.skip(1 + fraction as int);
        whole + fraction > 0 && (tail.len() == 0 || is_exponent(tail))
    } else {
        whole > 0 && (rest.len() == 0 || is_exponent(rest))
    }
}

/// The texts that read as a number: an optional sign, then a named number or a decimal.
/// No whitespace, no digit separators, no other base.
pub open spec fn is_number(s: Seq<char>) -> bool {
    let body = if s.len() > 0 && is_sign(s[0]) {
        s.skip(1)
    } else {
        s
    };
    is_named_number(body) || is_decimal(body)
}

/// Counts the digits that stand at `from`.
fn digits_at(v: &Vec<char>, from: usize) -> (n: usize)
    requires
        from <= v.len(),
    ensures
        n == digit_run(v@.skip(from as int)),
        from + n <= v.len(),
{
    let mut i: usize = from;
    while i < v.len() && digit(v[i])
        invariant
            from <= i <= v.len(),
            digit_run(v@.skip(from as int)) == (i - from) + digit_run(v@.skip(i as int)),
        decreases v.len() - i,
    {
        assert(v@.skip(i as int).drop_first() == v@.skip(i + 1));
        i += 1;
    }
    i - from
}

/// Whether `c` is the letter given in its two cases.
fn either(c: char, lower: char, upper: char) -> (r: bool)
    ensures
        r == (c == lower || c == upper),
{
    c == lower || c == upper
}

/// Whether a named number fills the text from `from` to the end.
fn named_at(v: &Vec<char>, from: usize) -> (r: bool)
    requires
        from <= v.len(),
    ensures
        r == is_named_number(v@.skip(from as int)),
{
    let ghost s = v@.skip(from as int);
    let n = v.len() - from;
    if n == 3 {
        let a = v[from];
        let b = v[from + 1];
        let c = v[from + 2];
        assert(s[0] == a && s[1] == b && s[2] == c);
        (either(a, 'i', 'I') && either(b, 'n', 'N') && either(c, 'f', 'F')) || (either(a, 'n', 'N')
            && either(b, 'a', 'A') && either(c, 'n', 'N'))
    } else if n == 8 {
        assert(s[0] == v@[from + 0] && s[1] == v@[from + 1] && s[2] == v@[from + 2] && s[3] == v@[from
            + 3] && s[4] == v@[from + 4] && s[5] == v@[from + 5] && s[6] == v@[from + 6] && s[7]
            == v@[from + 7]);
        either(v[from], 'i', 'I') && either(v[from + 1], 'n', 'N') && either(v[from + 2], 'f', 'F')
            && either(v[from + 3], 'i', 'I') && either(v[from + 4], 'n', 'N') && either(
            v[from + 5],
            'i',
            'I',
        ) && either(v[from + 6], 't', 'T') && either(v[from + 7], 'y', 'Y')
    } else {
        false
    }
}

/// Whether an exponent fills the text from `from` to the end.
fn exponent_at(v: &Vec<char>, from: usize) -> (r: bool)
    requires
        from <= v.len(),
    ensures
        r == is_exponent(v@.skip(from as int)),
{
    let ghost s = v@.skip(from as int);
    if v.len() - from < 2 {
        return false;
    }
    assert(s[0] == v@[from as int] && s[1] == v@[from + 1]);
    if !(v[from] == 'e' || v[from] == 'E') {
        return false;
    }
    let start: usize = if v[from + 1] == '+' || v[from + 1] == '-' {
        from + 2
    } else {
        from + 1
    };
    assert(s.skip(start - from) == v@.skip(start as int));
    let n = digits_at(v, start);
    start < v.len() && start + n == v.len()
}

/// Whether a decimal fills the text from `from` to the end.
fn decimal_at(v: &Vec<char>, from: usize) -> (r: bool)
    requires
        from <= v.len(),
    ensures
        r == is_decimal(v@.skip(from as int)),
{
    let ghost s = v@.skip(from as int);
    let whole = digits_at(v, from);
    let at = from + whole;
    assert(s.skip(whole as int) == v@.skip(at as int));
    if at < v.len() && v[at] == '.' {
        assert(s.skip(whole as int)[0] == v@[at as int]);
        assert(s.skip(whole as int).skip(1) == v@.skip(at + 1));
        let fraction = digits_at(v, at + 1);
        let tail = at + 1 + fraction;
        assert(s.skip(whole as int).skip(1 + fraction) == v@.skip(tail as int));
        whole + fraction > 0 && (tail == v.len() || exponent_at(v, tail))
    } else {
        assert(at < v.len() ==> s.skip(whole as int)[0] == v@[at as int]);
        whole > 0 && (at == v.len() || exponent_at(v, at))
    }
}

/// Decides whether the text reads as a number.
pub fn number(v: &Vec<char>) -> (r: bool)
    ensures
        r == is_number(v@),
{
    let from: usize = if v.len() > 0 && (v[0] == '+' || v[0] == '-') {
        1
    } else {
        0
    };
    assert(v@.skip(0) == v@);
    named_at(v, from) || decimal_at(v, from)
}

} // verus!
