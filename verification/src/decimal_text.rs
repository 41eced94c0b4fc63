//! The texts that `str::parse::<f64>` accepts, as its documentation gives
//! them:
//!
//! ```text
//! Float  ::= Sign? ( 'inf' | 'infinity' | 'nan' | Number )
//! Number ::= ( Digit+ | Digit+ '.' Digit* | Digit* '.' Digit+ ) Exp?
//! Exp    ::= 'e' Sign? Digit+
//! Sign   ::= [+-]
//! Digit  ::= [0-9]
//! ```
//!
//! where the words and the exponent letter are matched without regard to
//! case, and nothing else (no white space) may stand around them.

use vstd::prelude::*;

use crate::text::{chars_of, is_digit};

verus! {

/// `1` when `s` starts with a sign, else `0`.
pub open spec fn sign_len(s: Seq<char>) -> int {
    if s.len() > 0 && (s[0] == '+' || s[0] == '-') {
        1
    } else {
        0
    }
}

/// `c` is the lowercase letter `l`, or its uppercase form.
pub open spec fn letter_matches(c: char, l: char) -> bool {
    c == l || ('A' <= c <= 'Z' && c as int + 32 == l as int)
}

/// `s` spells the lowercase word `word`, in any case.
pub open spec fn matches_word(s: Seq<char>, word: Seq<char>) -> bool {
    s.len() == word.len() && forall|i: int| 0 <= i < s.len() ==> letter_matches(#[trigger] s[i], word[i])
}

/// The exponent letter.
pub open spec fn is_exp_letter(c: char) -> bool {
    c == 'e' || c == 'E'
}

/// Digits with at most one `.` among them, and at least one digit.
pub open spec fn is_mantissa(m: Seq<char>) -> bool {
    &&& forall|i: int| 0 <= i < m.len() ==> is_digit(#[trigger] m[i]) || m[i] == '.'
    &&& forall|i: int, j: int| #![trigger m[i], m[j]] 0 <= i < j < m.len() && m[i] == '.' ==> m[j] != '.'
    &&& exists|i: int| 0 <= i < m.len() && is_digit(#[trigger] m[i])
}

/// Nothing but digits, and at least one.
pub open spec fn is_digits(d: Seq<char>) -> bool {
    d.len() > 0 && forall|i: int| 0 <= i < d.len() ==> is_digit(#[trigger] d[i])
}

/// `e` or `E`, an optional sign, then digits.
pub open spec fn is_exponent(x: Seq<char>) -> bool {
    x.len() >= 1 && is_exp_letter(x[0]) && is_digits(x.skip(1).skip(sign_len(x.skip(1))))
}

/// A mantissa, optionally followed at its first exponent letter by an exponent.
pub open spec fn is_number(b: Seq<char>) -> bool {
    ||| (forall|i: int| 0 <= i < b.len() ==> !is_exp_letter(#[trigger] b[i])) && is_mantissa(b)
    ||| exists|k: int|
        #![trigger b[k]]
        0 <= k < b.len() && is_exp_letter(b[k]) && (forall|i: int| 0 <= i < k ==> !is_exp_letter(
            #[trigger] b[i],
        )) && is_mantissa(b.take(k)) && is_exponent(b.skip(k))
}

/// The text reads as a floating-point number: an optional sign, then
/// `inf`, `infinity`, `nan` or a number.
pub open spec fn is_float_text(s: Seq<char>) -> bool {
    let b = s.skip(sign_len(s));
    ||| matches_word(b, "inf"@)
    ||| matches_word(b, "infinity"@)
    ||| matches_word(b, "nan"@)
    ||| is_number(b)
}

/// Whether `c` matches the lowercase letter `l`, in any case.
fn letter_matches_exec(c: char, l: char) -> (r: bool)
    ensures
        r == letter_matches(c, l),
{
    c == l || ('A' <= c && c <= 'Z' && (c as u32) + 32 == (l as u32))
}

/// Whether `cs[lo..]` spells `word` in any case.
fn tail_matches_word(cs: &Vec<char>, lo: usize, word: &str) -> (r: bool)
    requires
        lo <= cs@.len(),
    ensures
        r == matches_word(cs@.skip(lo as int), word@),
{
    let w = chars_of(word);
    let ghost t = cs@.skip(lo as int);
    let n = cs.len();
    if n - lo != w.len() {
        return false;
    }
    let mut i: usize = 0;
    while i < w.len()
        invariant
            n == cs@.len(),
            w@ == word@,
            t == cs@.skip(lo as int),
            t.len() == w@.len(),
            lo + w@.len() == cs@.len(),
            i <= w@.len(),
            forall|k: int| 0 <= k < i ==> letter_matches(#[trigger] t[k], w@[k]),
        decreases w@.len() - i,
    {
        let j = lo + i;
        assert(t[i as int] == cs@[j as int]);
        if !letter_matches_exec(cs[j], w[i]) {
            return false;
        }
        i = i + 1;
    }
    true
}

/// Whether `cs[lo..hi]` is a mantissa.
fn mantissa_at(cs: &Vec<char>, lo: usize, hi: usize) -> (r: bool)
    requires
        lo <= hi <= cs@.len(),
    ensures
        r == is_mantissa(cs@.subrange(lo as int, hi as int)),
{
    let ghost m = cs@.subrange(lo as int, hi as int);
    let mut dot: bool = false;
    let mut digit: bool = false;
    let mut i = lo;
    while i < hi
        invariant
            lo <= i <= hi <= cs@.len(),
            m == cs@.subrange(lo as int, hi as int),
            forall|k: int| 0 <= k < i - lo ==> is_digit(#[trigger] m[k]) || m[k] == '.',
            forall|a: int, b: int| #![trigger m[a], m[b]] 0 <= a < b < i - lo && m[a] == '.' ==> m[b] != '.',
            dot == exists|k: int| 0 <= k < i - lo && #[trigger] m[k] == '.',
            digit == exists|k: int| 0 <= k < i - lo && is_digit(#[trigger] m[k]),
        decreases hi - i,
    {
        let c = cs[i];
        let ghost at = i - lo;
        assert(m[at] == c);
        if c == '.' {
            if dot {
                let ghost a = choose|k: int| 0 <= k < i - lo && #[trigger] m[k] == '.';
                assert(m[a] == '.' && m[at] == '.' && a < at);
                return false;
            }
            dot = true;
        } else if '0' <= c && c <= '9' {
            digit = true;
        } else {
            assert(!(is_digit(m[at]) || m[at] == '.'));
            return false;
        }
        i = i + 1;
    }
    digit
}

/// Whether `cs[lo..]` is digits only, and at least one.
fn digits_at(cs: &Vec<char>, lo: usize) -> (r: bool)
    requires
        lo <= cs@.len(),
    ensures
        r == is_digits(cs@.skip(lo as int)),
{
    let ghost d = cs@.skip(lo as int);
    if lo == cs.len() {
        return false;
    }
    let mut i = lo;
    while i < cs.len()
        invariant
            lo <= i <= cs@.len(),
            d == cs@.skip(lo as int),
            forall|k: int| 0 <= k < i - lo ==> is_digit(#[trigger] d[k]),
        decreases cs@.len() - i,
    {
        let c = cs[i];
        assert(d[i - lo] == c);
        if !('0' <= c && c <= '9') {
            return false;
        }
        i = i + 1;
    }
    true
}

/// Whether `cs[k..]` is an exponent.
fn exponent_at(cs: &Vec<char>, k: usize) -> (r: bool)
    requires
        k <= cs@.len(),
    ensures
        r == is_exponent(cs@.skip(k as int)),
{
    let ghost x = cs@.skip(k as int);
    if k == cs.len() {
        return false;
    }
    assert(x[0] == cs@[k as int]);
    if !(cs[k] == 'e' || cs[k] == 'E') {
        return false;
    }
    let ghost r = x.skip(1);
    assert(r =~= cs@.skip(k + 1));
    let start = if k + 1 < cs.len() && (cs[k + 1] == '+' || cs[k + 1] == '-') {
        assert(r[0] == cs@[k + 1]);
        k + 2
    } else {
        if k + 1 < cs.len() {
            assert(r[0] == cs@[k + 1]);
        }
        k + 1
    };
    assert(r.skip(sign_len(r)) =~= cs@.skip(start as int));
    digits_at(cs, start)
}

/// Whether the text reads as a floating-point number (see [`is_float_text`]).
pub fn float_text(s: &str) -> (r: bool)
    ensures
        r == is_float_text(s@),
{
    let cs = chars_of(s);
    let lo: usize = if cs.len() > 0 && (cs[0] == '+' || cs[0] == '-') {
        1
    } else {
        0
    };
    let ghost b = cs@.skip(lo as int);
    assert(lo as int == sign_len(s@));
    if tail_matches_word(&cs, lo, "inf") || tail_matches_word(&cs, lo, "infinity") || tail_matches_word(
        &cs,
        lo,
        "nan",
    ) {
        return true;
    }
    let mut k = lo;
    while k < cs.len() && cs[k] != 'e' && cs[k] != 'E'
        invariant
            lo <= k <= cs@.len(),
            b == cs@.skip(lo as int),
            forall|i: int| 0 <= i < k - lo ==> !is_exp_letter(#[trigger] b[i]),
        decreases cs@.len() - k,
    {
        assert(b[k - lo] == cs@[k as int]);
        k = k + 1;
    }
    let ghost e = k - lo;
    assert(cs@.subrange(lo as int, k as int) =~= b.take(e));
    let mantissa = mantissa_at(&cs, lo, k);
    if k == cs.len() {
        assert(b.take(e) =~= b);
        assert(b.len() == e);
        assert(forall|i: int| 0 <= i < b.len() ==> !is_exp_letter(#[trigger] b[i]));
        mantissa
    } else {
        assert(b[e] == cs@[k as int]);
        assert(is_exp_letter(b[e]));
        assert(cs@.skip(k as int) =~= b.skip(e));
        let exponent = exponent_at(&cs, k);
        assert forall|j: int|
            #![trigger b[j]]
            0 <= j < b.len() && is_exp_letter(b[j]) && (forall|i: int|
                0 <= i < j ==> !is_exp_letter(#[trigger] b[i])) implies j == e by {
            if j < e {
                assert(!is_exp_letter(b[j]));
            }
            if j > e {
                assert(!is_exp_letter(b[e]));
            }
        }
        mantissa && exponent
    }
}

} // verus!
