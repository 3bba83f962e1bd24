//! The proleptic Gregorian calendar and the text that a plain strftime
//! pattern gives for a wall-clock time, counted in seconds from
//! 1970-01-01 00:00:00 of that wall clock.
use vstd::prelude::*;
use crate::text::decimal;

verus! {

/// Whether `y` is a leap year.
pub open spec fn is_leap(y: int) -> bool {
    y % 4 == 0 && (y % 100 != 0 || y % 400 == 0)
}

/// The number of days of month `m` (1–12) of year `y`.
pub open spec fn month_days(y: int, m: int) -> int {
    if m == 2 {
        if is_leap(y) {
            29
        } else {
            28
        }
    } else if m == 4 || m == 6 || m == 9 || m == 11 {
        30
    } else {
        31
    }
}

/// The days of year `y` before month `m` (1–13).
pub open spec fn days_before_month(y: int, m: int) -> int
    decreases m,
{
    if m <= 1 {
        0
    } else {
        days_before_month(y, m - 1) + month_days(y, m - 1)
    }
}

/// The days from 1 January of year 1 to 1 January of year `y`.
pub open spec fn days_before_year(y: int) -> int {
    365 * (y - 1) + (y - 1) / 4 - (y - 1) / 100 + (y - 1) / 400
}

/// The day number of the date `y-m-d`, with 1970-01-01 as day 0.
pub open spec fn day_number(y: int, m: int, d: int) -> int {
    days_before_year(y) - days_before_year(1970) + days_before_month(y, m) + d - 1
}

/// Whether `y-m-d` is a date of the calendar.
pub open spec fn valid_date(y: int, m: int, d: int) -> bool {
    1 <= m <= 12 && 1 <= d <= month_days(y, m)
}

/// The date (year, month, day) with day number `n`.
pub open spec fn civil_date(n: int) -> (int, int, int) {
    choose|y: int, m: int, d: int| valid_date(y, m, d) && day_number(y, m, d) == n
}

/// `v` in decimal, padded with zeros on the left to at least `w` digits.
pub open spec fn padded(v: nat, w: nat) -> Seq<char> {
    let t = decimal(v);
    if t.len() < w {
        Seq::new((w - t.len()) as nat, |i: int| '0') + t
    } else {
        t
    }
}

/// A year as `%Y` writes it: four digits for 0–9999, otherwise a sign and
/// at least four digits.
pub open spec fn year_text(y: int) -> Seq<char> {
    if 0 <= y <= 9999 {
        padded(y as nat, 4)
    } else if y < 0 {
        seq!['-'] + padded((-y) as nat, 4)
    } else {
        seq!['+'] + padded(y as nat, 4)
    }
}

/// A number below 100 as two digits.
pub open spec fn two_digits(v: int) -> Seq<char> {
    padded(v as nat, 2)
}

/// A number below 100 as two characters, a space in place of a leading zero.
pub open spec fn two_spaced(v: int) -> Seq<char> {
    if v < 10 {
        seq![' '] + decimal(v as nat)
    } else {
        decimal(v as nat)
    }
}

pub open spec fn short_weekday(w: int) -> Seq<char> {
    seq!["Sun"@, "Mon"@, "Tue"@, "Wed"@, "Thu"@, "Fri"@, "Sat"@][w]
}

pub open spec fn long_weekday(w: int) -> Seq<char> {
    seq!["Sunday"@, "Monday"@, "Tuesday"@, "Wednesday"@, "Thursday"@, "Friday"@, "Saturday"@][w]
}

pub open spec fn short_month(m: int) -> Seq<char> {
    seq![
        "Jan"@,
        "Feb"@,
        "Mar"@,
        "Apr"@,
        "May"@,
        "Jun"@,
        "Jul"@,
        "Aug"@,
        "Sep"@,
        "Oct"@,
        "Nov"@,
        "Dec"@,
    ][m - 1]
}

pub open spec fn long_month(m: int) -> Seq<char> {
    seq![
        "January"@,
        "February"@,
        "March"@,
        "April"@,
        "May"@,
        "June"@,
        "July"@,
        "August"@,
        "September"@,
        "October"@,
        "November"@,
        "December"@,
    ][m - 1]
}

/// What the plain specifier `%c` writes for the wall-clock time `t`.
pub open spec fn specifier_text(c: char, t: int) -> Seq<char> {
    let n = t / 86400;
    let secs = t % 86400;
    let date = civil_date(n);
    let (y, m, d) = (date.0, date.1, date.2);
    let hour = secs / 3600;
    let hour12 = if hour % 12 == 0 {
        12
    } else {
        hour % 12
    };
    let weekday = (n + 4) % 7;
    if c == 'Y' {
        year_text(y)
    } else if c == 'y' {
        two_digits(y % 100)
    } else if c == 'm' {
        two_digits(m)
    } else if c == 'd' {
        two_digits(d)
    } else if c == 'e' {
        two_spaced(d)
    } else if c == 'j' {
        padded((days_before_month(y, m) + d) as nat, 3)
    } else if c == 'H' {
        two_digits(hour)
    } else if c == 'I' {
        two_digits(hour12)
    } else if c == 'M' {
        two_digits((secs % 3600) / 60)
    } else if c == 'S' {
        two_digits(secs % 60)
    } else if c == 'p' {
        if hour < 12 {
            "AM"@
        } else {
            "PM"@
        }
    } else if c == 'a' {
        short_weekday(weekday)
    } else if c == 'A' {
        long_weekday(weekday)
    } else if c == 'b' {
        short_month(m)
    } else if c == 'B' {
        long_month(m)
    } else {
        seq!['%']
    }
}

/// The text a plain pattern `f` gives, from position `i` on, for the
/// wall-clock time `t`: literal characters are copied and each `%c` is
/// replaced by what the specifier writes.
pub open spec fn strftime_from(f: Seq<char>, i: nat, t: int) -> Seq<char>
    decreases f.len() - i,
{
    if i >= f.len() {
        Seq::<char>::empty()
    } else if f[i as int] == '%' && i + 1 < f.len() {
        specifier_text(f[i + 1int], t) + strftime_from(f, i + 2, t)
    } else {
        seq![f[i as int]] + strftime_from(f, i + 1, t)
    }
}

/// The text of the plain pattern `f` for the wall-clock time `t`.
pub open spec fn strftime_text(f: Seq<char>, t: int) -> Seq<char> {
    strftime_from(f, 0, t)
}

/// Whether `s` is the text of pattern `f` for the UNIX time `ts` read on a
/// wall clock that is less than a day ahead of or behind UTC (as every
/// time zone is).
pub open spec fn local_text(f: Seq<char>, ts: int, s: Seq<char>) -> bool {
    exists|t: int| ts - 86400 < t < ts + 86400 && s == #[trigger] strftime_text(f, t)
}

} // verus!
