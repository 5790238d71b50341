//! Calendar timestamps as they appear in backup archive names
//! (`%Y%m%d_%H%M%S`), and reading them back with chrono.

use vstd::prelude::*;
use chrono::{Datelike, Timelike};

verus! {

/// A date and time of day, as chrono holds it: the nanosecond part goes up
/// to 1,999,999,999 in the second `:59` of a leap second (shown as `:60`).
#[derive(Clone, Copy, Debug, PartialEq, Eq)]
pub struct Stamp {
    pub year: i32,
    pub month: u32,
    pub day: u32,
    pub hour: u32,
    pub minute: u32,
    pub second: u32,
    pub nanosecond: u32,
}

pub open spec fn is_leap_year(y: int) -> bool {
    (y % 4 == 0 && y % 100 != 0) || y % 400 == 0
}

pub open spec fn days_in_month(y: int, m: int) -> int {
    if m == 2 {
        if is_leap_year(y) {
            29
        } else {
            28
        }
    } else if m == 4 || m == 6 || m == 9 || m == 11 {
        30
    } else {
        31
    }
}

/// A real calendar date and time of day; a nanosecond part of a second or
/// more only in a leap second (after `:59`).
pub open spec fn valid_stamp(t: Stamp) -> bool {
    &&& 1 <= t.month <= 12
    &&& 1 <= t.day <= days_in_month(t.year as int, t.month as int)
    &&& t.hour < 24
    &&& t.minute < 60
    &&& t.second < 60
    &&& t.nanosecond < 2_000_000_000
    &&& (t.nanosecond >= 1_000_000_000 ==> t.second == 59)
}

/// The second as written: 60 during a leap second.
pub open spec fn shown_second(t: Stamp) -> nat {
    (t.second + t.nanosecond / 1_000_000_000) as nat
}

/// A timestamp that its text `%Y%m%d_%H%M%S` gives back whole: no fraction
/// of a second other than the leap second itself.
pub open spec fn whole_second(t: Stamp) -> bool {
    t.nanosecond == 0 || (t.second == 59 && t.nanosecond == 1_000_000_000)
}

/// One decimal digit.
pub open spec fn digit(d: nat) -> char {
    (48 + d) as char
}

/// The decimal digits of `n`, without leading zeros.
pub open spec fn decimal(n: nat) -> Seq<char>
    decreases n,
{
    if n < 10 {
        seq![digit(n)]
    } else {
        decimal(n / 10).push(digit(n % 10))
    }
}

/// The decimal digits of `n`, zero-padded to at least `w` characters.
pub open spec fn padded(n: nat, w: nat) -> Seq<char> {
    let d = decimal(n);
    if d.len() < w {
        Seq::new((w - d.len()) as nat, |i: int| '0') + d
    } else {
        d
    }
}

/// The year as chrono's `%Y` writes it: four digits for years 0 to 9999,
/// else a sign and at least four digits.
pub open spec fn year_text(y: int) -> Seq<char> {
    if 0 <= y <= 9999 {
        padded(y as nat, 4)
    } else if y > 9999 {
        seq!['+'] + decimal(y as nat)
    } else {
        seq!['-'] + padded((-y) as nat, 4)
    }
}

/// `%Y%m%d`.
pub open spec fn date_text(t: Stamp) -> Seq<char> {
    year_text(t.year as int) + padded(t.month as nat, 2) + padded(t.day as nat, 2)
}

/// `%H%M%S` (chrono writes a leap second as `60`).
pub open spec fn time_text(t: Stamp) -> Seq<char> {
    padded(t.hour as nat, 2) + padded(t.minute as nat, 2) + padded(shown_second(t), 2)
}

/// `%Y%m%d_%H%M%S`, the form used in archive names.
pub open spec fn stamp_text(t: Stamp) -> Seq<char> {
    date_text(t) + seq!['_'] + time_text(t)
}

/// The chrono pattern that reads a date and a time separated by a space.
pub open spec fn spaced_pattern() -> Seq<char> {
    seq!['%', 'Y', '%', 'm', '%', 'd', ' ', '%', 'H', '%', 'M', '%', 'S']
}

/// What chrono's `NaiveDateTime::parse_from_str(text, pattern)` gives,
/// taken field by field.
pub uninterp spec fn naive_datetime_parse(text: Seq<char>, pattern: Seq<char>) -> Option<Stamp>;

/// Calls chrono's `NaiveDateTime::parse_from_str` and takes the date and
/// time fields of what it reads, the nanosecond part included. Claimed of
/// it: the result is the named parse of the two arguments; a date and time
/// that chrono gives is a real one (its `NaiveTime` holds a nanosecond part
/// of a second or more only after `:59`); and with the pattern
/// `%Y%m%d %H%M%S`, a real date and time of whole seconds (or a leap
/// second) whose year lies in 0..=9999, written as four, two and two
/// digits, a space, and two, two and two digits (`60` for the leap second),
/// reads back as itself.
#[verifier::external_body]
pub(crate) fn parse_naive_datetime(text: &str, pattern: &str) -> (r: Option<Stamp>)
    ensures
        r == naive_datetime_parse(text@, pattern@),
        r matches Some(t) ==> valid_stamp(t),
        forall|t: Stamp|
            valid_stamp(t) && whole_second(t) && 0 <= t.year <= 9999 && pattern@ == spaced_pattern()
                && text@ == (#[trigger] date_text(t)) + seq![' '] + time_text(t) ==> r == Some(t),
{
    chrono::NaiveDateTime::parse_from_str(text, pattern).ok().map(
        |d| Stamp {
            year: d.year(),
            month: d.month(),
            day: d.day(),
            hour: d.hour(),
            minute: d.minute(),
            second: d.second(),
            nanosecond: d.nanosecond(),
        },
    )
}

/// The decimal digits of `n`.
pub fn decimal_digits(n: u64) -> (v: Vec<char>)
    ensures
        v@ == decimal(n as nat),
    decreases n,
{
    if n < 10 {
        let c = ((48 + n) as u8) as char;
        vec![c]
    } else {
        let mut v = decimal_digits(n / 10);
        let c = ((48 + n % 10) as u8) as char;
        v.push(c);
        v
    }
}

/// The decimal digits of `n`, zero-padded to at least `w` characters.
pub fn padded_digits(n: u64, w: usize) -> (v: Vec<char>)
    ensures
        v@ == padded(n as nat, w as nat),
{
    let d = decimal_digits(n);
    if d.len() < w {
        let mut v: Vec<char> = Vec::new();
        let zeros: usize = w - d.len();
        let mut i: usize = 0;
        while i < zeros
            invariant
                i <= zeros,
                v@ == Seq::new(i as nat, |k: int| '0'),
            decreases zeros - i,
        {
            v.push('0');
            i = i + 1;
            assert(v@ =~= Seq::new(i as nat, |k: int| '0'));
        }
        crate::text::append(&mut v, &d);
        v
    } else {
        d
    }
}

/// Appends `%Y` of `y`.
fn push_year(out: &mut Vec<char>, y: i32)
    ensures
        final(out)@ == old(out)@ + year_text(y as int),
{
    if 0 <= y && y <= 9999 {
        let d = padded_digits(y as u64, 4);
        crate::text::append(out, &d);
    } else if y > 9999 {
        out.push('+');
        let d = decimal_digits(y as u64);
        crate::text::append(out, &d);
        assert(out@ =~= old(out)@ + year_text(y as int));
    } else {
        out.push('-');
        let m: i64 = -(y as i64);
        let d = padded_digits(m as u64, 4);
        crate::text::append(out, &d);
        assert(out@ =~= old(out)@ + year_text(y as int));
    }
}

impl Stamp {
    /// `%Y%m%d_%H%M%S`, as chrono formats it.
    pub fn compact_text(&self) -> (v: Vec<char>)
        ensures
            v@ == stamp_text(*self),
    {
        let shown: u64 = self.second as u64 + (self.nanosecond / 1_000_000_000) as u64;
        let mut out: Vec<char> = Vec::new();
        push_year(&mut out, self.year);
        crate::text::append(&mut out, &padded_digits(self.month as u64, 2));
        crate::text::append(&mut out, &padded_digits(self.day as u64, 2));
        out.push('_');
        crate::text::append(&mut out, &padded_digits(self.hour as u64, 2));
        crate::text::append(&mut out, &padded_digits(self.minute as u64, 2));
        crate::text::append(&mut out, &padded_digits(shown, 2));
        assert(out@ =~= stamp_text(*self));
        out
    }
}

} // verus!
