//! Character-level text operations used by the CSV parsing code.
//!
//! Every operation is stated over `Seq<char>`, the view of `str` and `String`.

use vstd::prelude::*;

verus! {

broadcast use vstd::seq_lib::group_seq_properties;

// ---------------------------------------------------------------------------
// Specifications
// ---------------------------------------------------------------------------

/// Unicode `White_Space`, the set that `char::is_whitespace` tests.
pub open spec fn is_white_space(c: char) -> bool {
    ||| ('\u{9}' <= c && c <= '\u{d}')
    ||| c == ' '
    ||| c == '\u{85}'
    ||| c == '\u{a0}'
    ||| c == '\u{1680}'
    ||| ('\u{2000}' <= c && c <= '\u{200a}')
    ||| c == '\u{2028}'
    ||| c == '\u{2029}'
    ||| c == '\u{202f}'
    ||| c == '\u{205f}'
    ||| c == '\u{3000}'
}

/// `'0'..='9'`.
pub open spec fn is_digit(c: char) -> bool {
    '0' <= c && c <= '9'
}

/// The numeric value of an ASCII digit.
pub open spec fn digit_value(c: char) -> nat {
    (c as int - '0' as int) as nat
}

/// The ASCII digit for `d < 10`.
pub open spec fn digit_char(d: nat) -> char {
    (d + '0' as int) as char
}

/// `s` without its leading white space.
pub open spec fn trim_start(s: Seq<char>) -> Seq<char>
    decreases s.len(),
{
    if s.len() > 0 && is_white_space(s[0]) {
        trim_start(s.drop_first())
    } else {
        s
    }
}

/// `s` without its trailing white space.
pub open spec fn trim_end(s: Seq<char>) -> Seq<char>
    decreases s.len(),
{
    if s.len() > 0 && is_white_space(s.last()) {
        trim_end(s.drop_last())
    } else {
        s
    }
}

/// `s` without leading and trailing white space (`str::trim`).
pub open spec fn trim(s: Seq<char>) -> Seq<char> {
    trim_end(trim_start(s))
}

/// The fields of `s` between occurrences of `sep` (`str::split` on a char):
/// always at least one field, and one more than the number of separators.
pub open spec fn split(s: Seq<char>, sep: char) -> Seq<Seq<char>>
    decreases s.len(),
{
    if s.len() == 0 {
        seq![Seq::<char>::empty()]
    } else {
        let rest = split(s.drop_last(), sep);
        if s.last() == sep {
            rest.push(Seq::<char>::empty())
        } else {
            rest.update(rest.len() - 1, rest.last().push(s.last()))
        }
    }
}

/// The fields joined back together with `sep` between consecutive ones.
pub open spec fn join(parts: Seq<Seq<char>>, sep: char) -> Seq<char>
    decreases parts.len(),
{
    if parts.len() == 0 {
        Seq::<char>::empty()
    } else if parts.len() == 1 {
        parts[0]
    } else {
        join(parts.drop_last(), sep).push(sep) + parts.last()
    }
}

/// `s` with every occurrence of `c` removed (`str::replace(c, "")`).
pub open spec fn without(s: Seq<char>, c: char) -> Seq<char>
    decreases s.len(),
{
    if s.len() == 0 {
        s
    } else if s.last() == c {
        without(s.drop_last(), c)
    } else {
        without(s.drop_last(), c).push(s.last())
    }
}

/// `s` with every `from` replaced by `to` (`str::replace` of one character by one character).
pub open spec fn replace_char(s: Seq<char>, from: char, to: char) -> Seq<char> {
    s.map_values(|x: char| if x == from { to } else { x })
}

/// The ASCII digits of `s`, in order.
pub open spec fn digits_of(s: Seq<char>) -> Seq<char>
    decreases s.len(),
{
    if s.len() == 0 {
        s
    } else if is_digit(s.last()) {
        digits_of(s.drop_last()).push(s.last())
    } else {
        digits_of(s.drop_last())
    }
}

/// Decimal notation of `n`, without leading zeros.
pub open spec fn decimal(n: nat) -> Seq<char>
    decreases n,
{
    if n < 10 {
        seq![digit_char(n)]
    } else {
        decimal(n / 10).push(digit_char(n % 10))
    }
}

/// Decimal notation of `n` with at least `width` digits, zero-padded on the left.
pub open spec fn padded_decimal(n: nat, width: nat) -> Seq<char>
    decreases width,
{
    if decimal(n).len() >= width {
        decimal(n)
    } else {
        padded_decimal(n, (width - 1) as nat).insert(0, '0')
    }
}

/// Decimal notation of an integer: a `-` in front of negative ones.
pub open spec fn signed_decimal(n: int) -> Seq<char> {
    if n < 0 {
        seq!['-'] + decimal((-n) as nat)
    } else {
        decimal(n as nat)
    }
}

/// `s` is all ASCII digits and not empty.
pub open spec fn all_digits(s: Seq<char>) -> bool {
    s.len() > 0 && forall|i: int| 0 <= i < s.len() ==> is_digit(#[trigger] s[i])
}

/// The value of a string of ASCII digits.
pub open spec fn digits_value(s: Seq<char>) -> nat
    decreases s.len(),
{
    if s.len() == 0 {
        0
    } else {
        digits_value(s.drop_last()) * 10 + digit_value(s.last())
    }
}

/// The unsigned magnitude that `str::parse` reads: an optional `+`, then one
/// or more ASCII digits.
pub open spec fn unsigned_magnitude(s: Seq<char>) -> Option<nat> {
    let body = if s.len() > 0 && s[0] == '+' { s.drop_first() } else { s };
    if all_digits(body) {
        Some(digits_value(body))
    } else {
        None
    }
}

/// What `s.parse::<usize>()` gives back.
pub open spec fn parse_usize_spec(s: Seq<char>) -> Option<usize> {
    match unsigned_magnitude(s) {
        Some(v) => if v <= usize::MAX {
            Some(v as usize)
        } else {
            None
        },
        None => None,
    }
}

/// What `s.parse::<i32>()` gives back: an optional sign, then one or more
/// ASCII digits, in the range of `i32`.
pub open spec fn parse_i32_spec(s: Seq<char>) -> Option<i32> {
    if s.len() > 0 && s[0] == '-' {
        let body = s.drop_first();
        if all_digits(body) && digits_value(body) <= 0x8000_0000 {
            Some((0 - digits_value(body)) as i32)
        } else {
            None
        }
    } else {
        match unsigned_magnitude(s) {
            Some(v) => if v <= i32::MAX {
                Some(v as i32)
            } else {
                None
            },
            None => None,
        }
    }
}

/// `pattern` occurs in `s` at position `i`.
pub open spec fn occurs_at(s: Seq<char>, pattern: Seq<char>, i: int) -> bool {
    0 <= i && i + pattern.len() <= s.len() && s.subrange(i, i + pattern.len()) == pattern
}

/// `pattern` occurs somewhere in `s` (`str::contains`).
pub open spec fn contains_text(s: Seq<char>, pattern: Seq<char>) -> bool {
    exists|i: int| occurs_at(s, pattern, i)
}

// ---------------------------------------------------------------------------
// Lemmas
// ---------------------------------------------------------------------------

/// Each field of `split(s, sep)` is free of `sep`, and there is at least one.
pub proof fn lemma_split_fields(s: Seq<char>, sep: char)
    ensures
        split(s, sep).len() >= 1,
        forall|k: int| 0 <= k < split(s, sep).len() ==> !(#[trigger] split(s, sep)[k]).contains(sep),
    decreases s.len(),
{
    if s.len() > 0 {
        lemma_split_fields(s.drop_last(), sep);
        let rest = split(s.drop_last(), sep);
        if s.last() != sep {
            assert forall|k: int| 0 <= k < split(s, sep).len() implies !(#[trigger] split(s, sep)[k]).contains(sep) by {
                if k == rest.len() - 1 {
                    let f = rest.last().push(s.last());
                    assert(split(s, sep)[k] == f);
                    if f.contains(sep) {
                        let j = choose|j: int| 0 <= j < f.len() && f[j] == sep;
                        assert(rest.last()[j] == sep);
                    }
                }
            }
        } else {
            assert forall|k: int| 0 <= k < split(s, sep).len() implies !(#[trigger] split(s, sep)[k]).contains(sep) by {
                if k < rest.len() {
                    assert(split(s, sep)[k] == rest[k]);
                } else {
                    assert(split(s, sep)[k] == Seq::<char>::empty());
                }
            }
        }
    }
}

/// Joining the fields of `split(s, sep)` with `sep` gives `s` back.
pub proof fn law_join_split(s: Seq<char>, sep: char)
    ensures
        join(split(s, sep), sep) == s,
    decreases s.len(),
{
    if s.len() > 0 {
        let rest = split(s.drop_last(), sep);
        law_join_split(s.drop_last(), sep);
        lemma_split_fields(s.drop_last(), sep);
        if s.last() == sep {
            let parts = rest.push(Seq::<char>::empty());
            assert(parts.drop_last() == rest);
            assert(join(parts, sep) == join(rest, sep).push(sep) + Seq::<char>::empty());
            assert(s == s.drop_last().push(sep));
        } else {
            let parts = rest.update(rest.len() - 1, rest.last().push(s.last()));
            if rest.len() == 1 {
                assert(join(rest, sep) == rest[0]);
                assert(s == s.drop_last().push(s.last()));
            } else {
                assert(parts.drop_last() == rest.drop_last());
                assert(join(parts, sep) == join(rest.drop_last(), sep).push(sep) + rest.last().push(s.last()));
                assert(join(rest, sep) == join(rest.drop_last(), sep).push(sep) + rest.last());
                assert(join(parts, sep) == join(rest, sep).push(s.last()));
                assert(s == s.drop_last().push(s.last()));
            }
        }
    }
}

/// Every character of a field of `split(s, sep)` is a character of `s`.
pub proof fn lemma_split_chars(s: Seq<char>, sep: char, c: char)
    requires
        !s.contains(c),
    ensures
        forall|k: int| 0 <= k < split(s, sep).len() ==> !(#[trigger] split(s, sep)[k]).contains(c),
    decreases s.len(),
{
    if s.len() > 0 {
        let rest = split(s.drop_last(), sep);
        assert(!s.drop_last().contains(c)) by {
            if s.drop_last().contains(c) {
                let j = choose|j: int| 0 <= j < s.drop_last().len() && s.drop_last()[j] == c;
                assert(s[j] == c);
            }
        }
        lemma_split_chars(s.drop_last(), sep, c);
        lemma_split_fields(s.drop_last(), sep);
        assert forall|k: int| 0 <= k < split(s, sep).len() implies !(#[trigger] split(s, sep)[k]).contains(c) by {
            if s.last() != sep && k == rest.len() - 1 {
                let f = rest.last().push(s.last());
                assert(split(s, sep)[k] == f);
                assert(s[s.len() - 1] != c);
                if f.contains(c) {
                    let j = choose|j: int| 0 <= j < f.len() && f[j] == c;
                    if j < rest.last().len() {
                        assert(rest.last()[j] == c);
                        assert(rest[rest.len() - 1] == rest.last());
                    }
                }
            } else if k < rest.len() {
                assert(split(s, sep)[k] == rest[k]);
            } else {
                assert(split(s, sep)[k] == Seq::<char>::empty());
            }
        }
    }
}

/// Removing a character that does not occur changes nothing.
pub proof fn lemma_without_absent(s: Seq<char>, c: char)
    requires
        !s.contains(c),
    ensures
        without(s, c) == s,
    decreases s.len(),
{
    if s.len() > 0 {
        assert(!s.drop_last().contains(c)) by {
            if s.drop_last().contains(c) {
                let j = choose|j: int| 0 <= j < s.drop_last().len() && s.drop_last()[j] == c;
                assert(s[j] == c);
            }
        }
        lemma_without_absent(s.drop_last(), c);
        assert(s[s.len() - 1] != c);
        assert(s.drop_last().push(s.last()) == s);
    }
}

/// `decimal(n)` is non-empty and made of digits.
pub proof fn lemma_decimal_digits(n: nat)
    ensures
        all_digits(decimal(n)),
        digits_value(decimal(n)) == n,
    decreases n,
{
    lemma_digit_char_value(n % 10);
    if n >= 10 {
        lemma_decimal_digits(n / 10);
        let d = decimal(n);
        assert(d.drop_last() == decimal(n / 10));
        assert(d.last() == digit_char(n % 10));
        assert(digits_value(d) == digits_value(decimal(n / 10)) * 10 + digit_value(d.last()));
        assert(n == (n / 10) * 10 + n % 10);
    } else {
        let d = decimal(n);
        assert(d.drop_last() == Seq::<char>::empty());
        assert(digits_value(d) == digits_value(d.drop_last()) * 10 + digit_value(d.last()));
    }
}

/// The digit character of `d < 10` is a digit worth `d`.
pub proof fn lemma_digit_char_value(d: nat)
    requires
        d < 10,
    ensures
        is_digit(digit_char(d)),
        digit_value(digit_char(d)) == d,
{
    assert((d + '0' as int) as char as int == d + 48);
}

/// Reading a decimal number back gives the number: `parse(decimal(n)) == n`.
pub proof fn law_parse_usize_decimal(n: usize)
    ensures
        parse_usize_spec(decimal(n as nat)) == Some(n),
{
    lemma_decimal_digits(n as nat);
    assert(decimal(n as nat)[0] != '+');
}

/// Reading the decimal notation of an `i32` back gives the number.
pub proof fn law_parse_i32_decimal(n: i32)
    ensures
        parse_i32_spec(signed_decimal(n as int)) == Some(n),
{
    if n < 0 {
        let m = (-(n as int)) as nat;
        lemma_decimal_digits(m);
        let t = seq!['-'] + decimal(m);
        assert(t[0] == '-');
        assert(t.drop_first() == decimal(m));
    } else {
        lemma_decimal_digits(n as nat);
        let d = decimal(n as nat);
        assert(is_digit(d[0]));
    }
}

/// Number of occurrences of `c` in `s`.
pub open spec fn count_char(s: Seq<char>, c: char) -> nat
    decreases s.len(),
{
    if s.len() == 0 {
        0
    } else {
        count_char(s.drop_last(), c) + if s.last() == c {
            1nat
        } else {
            0nat
        }
    }
}

/// Splitting gives one field more than there are separators.
pub proof fn lemma_split_count(s: Seq<char>, sep: char)
    ensures
        split(s, sep).len() == count_char(s, sep) + 1,
    decreases s.len(),
{
    if s.len() > 0 {
        lemma_split_count(s.drop_last(), sep);
    }
}

/// Text with no white space at either end.
pub open spec fn is_trimmed(s: Seq<char>) -> bool {
    s.len() == 0 || (!is_white_space(s[0]) && !is_white_space(s.last()))
}

/// `trim_start` drops a prefix, and what is left does not start with white space.
pub proof fn lemma_trim_start_shape(s: Seq<char>)
    ensures
        exists|k: int| 0 <= k <= s.len() && trim_start(s) == s.skip(k),
        trim_start(s).len() == 0 || !is_white_space(trim_start(s)[0]),
    decreases s.len(),
{
    if s.len() > 0 && is_white_space(s[0]) {
        lemma_trim_start_shape(s.drop_first());
        let k = choose|k: int| 0 <= k <= s.drop_first().len() && trim_start(s.drop_first()) == s.drop_first().skip(k);
        assert(s.drop_first().skip(k) == s.skip(k + 1));
    } else {
        assert(s.skip(0) == s);
    }
}

/// `trim_end` keeps a prefix, and what is left does not end with white space.
pub proof fn lemma_trim_end_shape(s: Seq<char>)
    ensures
        exists|k: int| 0 <= k <= s.len() && trim_end(s) == s.take(k),
        trim_end(s).len() == 0 || !is_white_space(trim_end(s).last()),
    decreases s.len(),
{
    if s.len() > 0 && is_white_space(s.last()) {
        lemma_trim_end_shape(s.drop_last());
        let k = choose|k: int| 0 <= k <= s.drop_last().len() && trim_end(s.drop_last()) == s.drop_last().take(k);
        assert(s.drop_last().take(k) == s.take(k));
    } else {
        assert(s.take(s.len() as int) == s);
    }
}

/// Trimmed text has no white space at either end.
pub proof fn law_trim_is_trimmed(s: Seq<char>)
    ensures
        is_trimmed(trim(s)),
{
    let t = trim_start(s);
    lemma_trim_start_shape(s);
    lemma_trim_end_shape(t);
    let k = choose|k: int| 0 <= k <= t.len() && trim_end(t) == t.take(k);
    if trim(s).len() > 0 {
        assert(trim(s)[0] == t[0]);
    }
}

// ---------------------------------------------------------------------------
// Executable operations
// ---------------------------------------------------------------------------

/// Appends one character to a `String`.
///
/// Trusted: `String::push` appends `c` at the end of the string, which is all
/// that this contract states.
#[verifier::external_body]
pub(crate) fn push_char(s: &mut String, c: char)
    ensures
        final(s)@ == old(s)@.push(c),
{
    s.push(c);
}

/// The characters of `s`, in order.
pub fn chars_of(s: &str) -> (r: Vec<char>)
    ensures
        r@ == s@,
{
    let mut r: Vec<char> = Vec::new();
    for c in it: s.chars()
        invariant
            r@ == it.seq().take(it.index() as int),
    {
        r.push(c);
    }
    r
}

/// Builds a `String` from a sequence of characters.
pub fn string_of(cs: &Vec<char>) -> (r: String)
    ensures
        r@ == cs@,
{
    let mut r = String::new();
    for i in 0..cs.len()
        invariant
            r@ == cs@.take(i as int),
    {
        push_char(&mut r, cs[i]);
        assert(cs@.take(i + 1) == cs@.take(i as int).push(cs@[i as int]));
    }
    r
}

/// `char::is_whitespace`.
pub fn is_whitespace_char(c: char) -> (r: bool)
    ensures
        r == is_white_space(c),
{
    ('\u{9}' <= c && c <= '\u{d}') || c == ' ' || c == '\u{85}' || c == '\u{a0}' || c
        == '\u{1680}' || ('\u{2000}' <= c && c <= '\u{200a}') || c == '\u{2028}' || c
        == '\u{2029}' || c == '\u{202f}' || c == '\u{205f}' || c == '\u{3000}'
}

/// Index of the first character that is not white space.
fn trim_start_index(cs: &Vec<char>) -> (i: usize)
    ensures
        i <= cs.len(),
        trim_start(cs@) == cs@.skip(i as int),
{
    let mut i: usize = 0;
    while i < cs.len() && is_whitespace_char(cs[i])
        invariant
            i <= cs.len(),
            trim_start(cs@) == trim_start(cs@.skip(i as int)),
        decreases cs.len() - i,
    {
        assert(cs@.skip(i as int).drop_first() == cs@.skip(i + 1));
        i = i + 1;
    }
    i
}

/// One past the last character that is not white space, looking at `cs[..end]`.
fn trim_end_index(cs: &Vec<char>, start: usize) -> (j: usize)
    requires
        start <= cs.len(),
    ensures
        start <= j <= cs.len(),
        trim_end(cs@.skip(start as int)) == cs@.subrange(start as int, j as int),
{
    let mut j: usize = cs.len();
    assert(cs@.skip(start as int) == cs@.subrange(start as int, cs.len() as int));
    while j > start && is_whitespace_char(cs[j - 1])
        invariant
            start <= j <= cs.len(),
            trim_end(cs@.skip(start as int)) == trim_end(cs@.subrange(start as int, j as int)),
        decreases j,
    {
        assert(cs@.subrange(start as int, j as int).drop_last() == cs@.subrange(
            start as int,
            j - 1,
        ));
        j = j - 1;
    }
    j
}

/// `str::trim`: `s` without leading and trailing white space.
pub fn trim_text(s: &str) -> (r: String)
    ensures
        r@ == trim(s@),
{
    let cs = chars_of(s);
    let i = trim_start_index(&cs);
    let j = trim_end_index(&cs, i);
    let mut out: Vec<char> = Vec::new();
    for k in i..j
        invariant
            i <= j <= cs.len(),
            out@ == cs@.subrange(i as int, k as int),
    {
        out.push(cs[k]);
        assert(cs@.subrange(i as int, k + 1) == cs@.subrange(i as int, k as int).push(cs@[k as int]));
    }
    string_of(&out)
}

/// `str::split` on one character: the fields between occurrences of `sep`.
pub fn split_text(s: &str, sep: char) -> (r: Vec<String>)
    ensures
        r@.len() == split(s@, sep).len(),
        forall|k: int| 0 <= k < r@.len() ==> (#[trigger] r@[k])@ == split(s@, sep)[k],
{
    let cs = chars_of(s);
    let mut done: Vec<String> = Vec::new();
    let mut cur: Vec<char> = Vec::new();
    for i in 0..cs.len()
        invariant
            cs@ == s@,
            done@.len() + 1 == split(cs@.take(i as int), sep).len(),
            forall|k: int| 0 <= k < done@.len() ==> (#[trigger] done@[k])@ == split(cs@.take(i as int), sep)[k],
            cur@ == split(cs@.take(i as int), sep).last(),
    {
        let ghost before = cs@.take(i as int);
        assert(cs@.take(i + 1).drop_last() == before);
        assert(cs@.take(i + 1).last() == cs@[i as int]);
        let c = cs[i];
        if c == sep {
            let field = string_of(&cur);
            done.push(field);
            cur = Vec::new();
        } else {
            cur.push(c);
        }
    }
    assert(cs@.take(cs.len() as int) == cs@);
    let last = string_of(&cur);
    done.push(last);
    done
}

/// `s` with every occurrence of `c` removed.
pub fn remove_char(s: &str, c: char) -> (r: String)
    ensures
        r@ == without(s@, c),
{
    let cs = chars_of(s);
    let mut out: Vec<char> = Vec::new();
    for i in 0..cs.len()
        invariant
            cs@ == s@,
            out@ == without(cs@.take(i as int), c),
    {
        assert(cs@.take(i + 1) == cs@.take(i as int).push(cs@[i as int]));
        assert(cs@.take(i + 1).drop_last() == cs@.take(i as int));
        if cs[i] != c {
            out.push(cs[i]);
        }
    }
    assert(cs@.take(cs.len() as int) == cs@);
    string_of(&out)
}

/// `s` with every `from` replaced by `to`.
pub fn replace_text(s: &str, from: char, to: char) -> (r: String)
    ensures
        r@ == replace_char(s@, from, to),
{
    let cs = chars_of(s);
    let mut out: Vec<char> = Vec::new();
    for i in 0..cs.len()
        invariant
            cs@ == s@,
            out@ == replace_char(cs@.take(i as int), from, to),
    {
        if cs[i] == from {
            out.push(to);
        } else {
            out.push(cs[i]);
        }
        assert(replace_char(cs@.take(i + 1), from, to) == replace_char(cs@.take(i as int), from, to).push(out@.last()));
    }
    assert(cs@.take(cs.len() as int) == cs@);
    string_of(&out)
}

/// The ASCII digits of `s`, in order.
pub fn keep_digits(s: &str) -> (r: String)
    ensures
        r@ == digits_of(s@),
{
    let cs = chars_of(s);
    let mut out: Vec<char> = Vec::new();
    for i in 0..cs.len()
        invariant
            cs@ == s@,
            out@ == digits_of(cs@.take(i as int)),
    {
        assert(cs@.take(i + 1) == cs@.take(i as int).push(cs@[i as int]));
        assert(cs@.take(i + 1).drop_last() == cs@.take(i as int));
        if '0' <= cs[i] && cs[i] <= '9' {
            out.push(cs[i]);
        }
    }
    assert(cs@.take(cs.len() as int) == cs@);
    string_of(&out)
}

/// Whether two texts are equal.
pub fn same_text(a: &str, b: &str) -> (r: bool)
    ensures
        r == (a@ == b@),
{
    let x = chars_of(a);
    let y = chars_of(b);
    if x.len() != y.len() {
        return false;
    }
    for i in 0..x.len()
        invariant
            x@ == a@,
            y@ == b@,
            x.len() == y.len(),
            forall|k: int| 0 <= k < i ==> x@[k] == y@[k],
    {
        if x[i] != y[i] {
            return false;
        }
    }
    assert(x@ == y@);
    true
}

/// Whether `s` begins with `prefix` (`str::starts_with`).
pub fn starts_with_text(s: &str, prefix: &str) -> (r: bool)
    ensures
        r == prefix@.is_prefix_of(s@),
{
    let x = chars_of(s);
    let p = chars_of(prefix);
    if p.len() > x.len() {
        return false;
    }
    for i in 0..p.len()
        invariant
            x@ == s@,
            p@ == prefix@,
            p.len() <= x.len(),
            forall|k: int| 0 <= k < i ==> p@[k] == x@[k],
    {
        if p[i] != x[i] {
            return false;
        }
    }
    true
}

/// Whether `pattern` matches `cs` at position `i`.
fn matches_at(cs: &Vec<char>, p: &Vec<char>, i: usize) -> (r: bool)
    requires
        i + p.len() <= cs.len(),
    ensures
        r == occurs_at(cs@, p@, i as int),
{
    for k in 0..p.len()
        invariant
            i + p.len() <= cs.len(),
            forall|t: int| 0 <= t < k ==> p@[t] == cs@[i + t],
    {
        if p[k] != cs[i + k] {
            assert(cs@.subrange(i as int, i + p.len())[k as int] != p@[k as int]);
            return false;
        }
    }
    assert(cs@.subrange(i as int, i + p.len()) == p@);
    true
}

/// Whether `pattern` occurs in `s` (`str::contains`).
pub fn contains_pattern(s: &str, pattern: &str) -> (r: bool)
    ensures
        r == contains_text(s@, pattern@),
{
    let cs = chars_of(s);
    let p = chars_of(pattern);
    if p.len() > cs.len() {
        assert forall|i: int| !occurs_at(s@, pattern@, i) by {}
        return false;
    }
    let last = cs.len() - p.len();
    let mut i: usize = 0;
    loop
        invariant
            cs@ == s@,
            p@ == pattern@,
            last + p.len() == cs.len(),
            i <= last,
            forall|t: int| 0 <= t < i ==> !occurs_at(s@, pattern@, t),
        ensures
            forall|t: int| 0 <= t <= last ==> !occurs_at(s@, pattern@, t),
        decreases last - i,
    {
        if matches_at(&cs, &p, i) {
            return true;
        }
        if i == last {
            break;
        }
        i = i + 1;
    }
    assert forall|t: int| !occurs_at(s@, pattern@, t) by {
        if 0 <= t && t + p.len() <= cs.len() {
            assert(t <= last);
        }
    }
    false
}

/// Decimal notation of `n`.
pub fn usize_text(n: usize) -> (r: String)
    ensures
        r@ == decimal(n as nat),
    decreases n,
{
    if n < 10 {
        let mut r = String::new();
        push_char(&mut r, digit_of(n));
        r
    } else {
        let mut r = usize_text(n / 10);
        push_char(&mut r, digit_of(n % 10));
        r
    }
}

/// The ASCII digit of `d < 10`.
fn digit_of(d: usize) -> (c: char)
    requires
        d < 10,
    ensures
        c == digit_char(d as nat),
{
    if d == 0 {
        '0'
    } else if d == 1 {
        '1'
    } else if d == 2 {
        '2'
    } else if d == 3 {
        '3'
    } else if d == 4 {
        '4'
    } else if d == 5 {
        '5'
    } else if d == 6 {
        '6'
    } else if d == 7 {
        '7'
    } else if d == 8 {
        '8'
    } else {
        '9'
    }
}

/// Decimal notation of an `i32`, with a `-` in front of negative values.
pub fn i32_text(n: i32) -> (r: String)
    ensures
        r@ == signed_decimal(n as int),
{
    if n < 0 {
        let magnitude: u32 = if n == i32::MIN {
            0x8000_0000u32
        } else {
            (-n) as u32
        };
        let digits = usize_text(magnitude as usize);
        let mut r = String::new();
        push_char(&mut r, '-');
        r.append(digits.as_str());
        r
    } else {
        usize_text(n as usize)
    }
}

/// The value of a non-empty string of digits, or `None` when it does not fit
/// below `limit`.
fn digits_up_to(cs: &Vec<char>, start: usize, limit: u64) -> (r: Option<u64>)
    requires
        start <= cs.len(),
        limit >= 9,
    ensures
        match r {
            Some(v) => all_digits(cs@.skip(start as int)) && v == digits_value(cs@.skip(start as int))
                && v <= limit,
            None => !all_digits(cs@.skip(start as int)) || digits_value(cs@.skip(start as int))
                > limit,
        },
{
    if start == cs.len() {
        return None;
    }
    let mut v: u64 = 0;
    let mut i: usize = start;
    while i < cs.len()
        invariant
            start < cs.len(),
            limit >= 9,
            start <= i <= cs.len(),
            all_digits(cs@.subrange(start as int, i as int)) || i == start,
            v == digits_value(cs@.subrange(start as int, i as int)),
            v <= limit,
        decreases cs.len() - i,
    {
        let c = cs[i];
        let ghost before = cs@.subrange(start as int, i as int);
        let ghost after = cs@.subrange(start as int, i + 1);
        assert(after.drop_last() == before);
        assert(after.last() == c);
        if !('0' <= c && c <= '9') {
            assert(!is_digit(cs@.skip(start as int)[i - start]));
            return None;
        }
        let d: u64 = ((c as u32) - ('0' as u32)) as u64;
        assert(d < 10);
        if v > (limit - d) / 10 {
            proof {
                assert(digits_value(after) == v * 10 + d);
                assert(v * 10 + d > limit) by (nonlinear_arith)
                    requires
                        v > (limit - d) / 10,
                        d < 10,
                        d <= limit,
                ;
                lemma_digits_value_prefix_le(cs@.skip(start as int), i + 1 - start);
                assert(cs@.skip(start as int).take(i + 1 - start) == after);
            }
            return None;
        }
        proof {
            assert((v * 10 + d) <= limit) by (nonlinear_arith)
                requires
                    v <= (limit - d) / 10,
                    d <= limit,
            ;
        }
        v = v * 10 + d;
        i = i + 1;
    }
    assert(cs@.subrange(start as int, cs.len() as int) == cs@.skip(start as int));
    Some(v)
}

/// A digit string is worth at least any of its prefixes.
proof fn lemma_digits_value_prefix_le(s: Seq<char>, k: int)
    requires
        0 <= k <= s.len(),
    ensures
        all_digits(s) ==> digits_value(s.take(k)) <= digits_value(s),
    decreases s.len() - k,
{
    if k < s.len() {
        lemma_digits_value_prefix_le(s, k + 1);
        let t = s.take(k + 1);
        assert(t.drop_last() == s.take(k));
        if all_digits(s) {
            assert(is_digit(s[k]));
        }
    }
}

/// `str::parse::<usize>`.
pub fn parse_usize(s: &str) -> (r: Option<usize>)
    ensures
        r == parse_usize_spec(s@),
{
    let cs = chars_of(s);
    let start: usize = if cs.len() > 0 && cs[0] == '+' {
        1
    } else {
        0
    };
    assert(cs@.skip(start as int) == if s@.len() > 0 && s@[0] == '+' {
        s@.drop_first()
    } else {
        s@
    });
    match digits_up_to(&cs, start, usize::MAX as u64) {
        Some(v) => Some(v as usize),
        None => None,
    }
}

/// `str::parse::<i32>`.
pub fn parse_i32(s: &str) -> (r: Option<i32>)
    ensures
        r == parse_i32_spec(s@),
{
    let cs = chars_of(s);
    if cs.len() > 0 && cs[0] == '-' {
        assert(cs@.skip(1) == s@.drop_first());
        match digits_up_to(&cs, 1, 0x8000_0000u64) {
            Some(v) => {
                if v == 0x8000_0000u64 {
                    Some(i32::MIN)
                } else {
                    Some(0i32 - (v as i32))
                }
            },
            None => None,
        }
    } else {
        let start: usize = if cs.len() > 0 && cs[0] == '+' {
            1
        } else {
            0
        };
        assert(cs@.skip(start as int) == if s@.len() > 0 && s@[0] == '+' {
            s@.drop_first()
        } else {
            s@
        });
        match digits_up_to(&cs, start, i32::MAX as u64) {
            Some(v) => Some(v as i32),
            None => None,
        }
    }
}

} // verus!
