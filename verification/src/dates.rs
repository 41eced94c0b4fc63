//! Calendar dates read from `YYYY-MM-DD` text and written back in that form.

use vstd::prelude::*;

use chrono::Datelike;

use crate::text::{decimal, padded_decimal, push_char, usize_text};

verus! {

/// A calendar date.
#[derive(Debug, Clone, Copy, PartialEq, Eq, Structural)]
pub struct CalendarDate {
    pub year: i32,
    pub month: u32,
    pub day: u32,
}

/// The date (year, month, day) that chrono's `NaiveDate::parse_from_str`
/// reads from `text` with the format `%Y-%m-%d`, or `None` when it refuses it.
pub uninterp spec fn chrono_ymd(text: Seq<char>) -> Option<(i32, u32, u32)>;

/// Reads a `%Y-%m-%d` date with chrono.
///
/// Trusted: calls `chrono::NaiveDate::parse_from_str(text, "%Y-%m-%d")` and
/// takes the year, month and day of the date it gives. The contract claims
/// that the result is a function of `text` alone (named `chrono_ymd`) and, as
/// chrono documents for `month()` and `day()`, that the month is in 1..=12 and
/// the day in 1..=31. Which texts chrono accepts is not stated here.
#[verifier::external_body]
pub(crate) fn chrono_parse_ymd(text: &str) -> (r: Option<CalendarDate>)
    ensures
        match r {
            Some(d) => chrono_ymd(text@) == Some((d.year, d.month, d.day)) && 1 <= d.month <= 12 && 1
                <= d.day <= 31,
            None => chrono_ymd(text@) is None,
        },
{
    match chrono::NaiveDate::parse_from_str(text, "%Y-%m-%d") {
        Ok(d) => Some(CalendarDate { year: d.year(), month: d.month(), day: d.day() }),
        Err(_) => None,
    }
}

/// The date that `text` reads as in `%Y-%m-%d`.
pub open spec fn date_of(text: Seq<char>) -> Option<CalendarDate> {
    match chrono_ymd(text) {
        Some((y, m, d)) => Some(CalendarDate { year: y, month: m, day: d }),
        None => None,
    }
}

/// Reads a `%Y-%m-%d` date.
pub fn parse_date(text: &str) -> (r: Option<CalendarDate>)
    ensures
        r == date_of(text@),
        r matches Some(d) ==> 1 <= d.month <= 12 && 1 <= d.day <= 31,
{
    chrono_parse_ymd(text)
}

/// The year as `%Y` writes it: four digits at least, with a sign in front of
/// years outside 0..=9999.
pub open spec fn year_text(y: int) -> Seq<char> {
    if 0 <= y <= 9999 {
        padded_decimal(y as nat, 4)
    } else if y < 0 {
        seq!['-'] + padded_decimal((-y) as nat, 4)
    } else {
        seq!['+'] + padded_decimal(y as nat, 4)
    }
}

/// The date as `%Y-%m-%d` writes it.
pub open spec fn iso_date(d: CalendarDate) -> Seq<char> {
    year_text(d.year as int) + seq!['-'] + padded_decimal(d.month as nat, 2) + seq!['-']
        + padded_decimal(d.day as nat, 2)
}

/// Zero-padded decimal notation.
pub fn padded_text(n: u64, width: usize) -> (r: String)
    ensures
        r@ == padded_decimal(n as nat, width as nat),
    decreases width,
{
    let digits = usize_text_u64(n);
    if digits.as_str().unicode_len() >= width {
        digits
    } else {
        let rest = padded_text(n, width - 1);
        let mut r = String::new();
        push_char(&mut r, '0');
        r.append(rest.as_str());
        proof {
            assert(seq!['0'] + rest@ == rest@.insert(0, '0'));
        }
        r
    }
}

/// Decimal notation of a `u64`.
fn usize_text_u64(n: u64) -> (r: String)
    ensures
        r@ == decimal(n as nat),
    decreases n,
{
    if n < 10 {
        usize_text(n as usize)
    } else {
        let mut r = usize_text_u64(n / 10);
        let d = usize_text((n % 10) as usize);
        r.append(d.as_str());
        r
    }
}

/// Writes the date as `%Y-%m-%d`.
pub fn format_date(d: &CalendarDate) -> (r: String)
    ensures
        r@ == iso_date(*d),
{
    let y = d.year;
    let mut r = if 0 <= y && y <= 9999 {
        padded_text(y as u64, 4)
    } else if y < 0 {
        let magnitude: u64 = if y == i32::MIN {
            0x8000_0000u64
        } else {
            (-y) as u64
        };
        let mut t = String::new();
        push_char(&mut t, '-');
        let p = padded_text(magnitude, 4);
        t.append(p.as_str());
        t
    } else {
        let mut t = String::new();
        push_char(&mut t, '+');
        let p = padded_text(y as u64, 4);
        t.append(p.as_str());
        t
    };
    push_char(&mut r, '-');
    let m = padded_text(d.month as u64, 2);
    r.append(m.as_str());
    push_char(&mut r, '-');
    let dd = padded_text(d.day as u64, 2);
    r.append(dd.as_str());
    r
}

} // verus!
