//! Civil (proleptic Gregorian) calendar dates.
//!
//! A `Date` is a day number: day 0 is January 1 of year 1, and every valid
//! date between year 1 and year 9999 has exactly one day number. The day
//! number is defined by the recursive specifications below, and both
//! conversion directions are verified against them, so date differences,
//! window arithmetic and ISO-8601 text all rest on one model.

use vstd::prelude::*;

use crate::error::EngineError;
use crate::text::{
    chars_to_string, digit_val, exec_is_digit, is_digit_char, is_space_char, str_chars, trim_chars,
    trim_of, lemma_lead_spaces_is, lemma_trail_spaces_is,
};

verus! {

pub open spec fn is_leap_year(y: int) -> bool {
    (y % 4 == 0 && y % 100 != 0) || y % 400 == 0
}

pub open spec fn year_len(y: int) -> int {
    if is_leap_year(y) {
        366
    } else {
        365
    }
}

pub open spec fn month_len(y: int, m: int) -> int {
    if m == 2 {
        if is_leap_year(y) {
            29
        } else {
            28
        }
    } else if m == 4 || m == 6 || m == 9 || m == 11 {
        30
    } else {
        31
    }
}

/// Days strictly before January 1 of year `y`, counted from year 1.
pub open spec fn days_before_year(y: int) -> int
    decreases y,
{
    if y <= 1 {
        0
    } else {
        days_before_year(y - 1) + year_len(y - 1)
    }
}

/// Days of year `y` strictly before the first day of month `m`.
pub open spec fn days_before_month(y: int, m: int) -> int
    decreases m,
{
    if m <= 1 {
        0
    } else {
        days_before_month(y, m - 1) + month_len(y, m - 1)
    }
}

pub open spec fn valid_ymd(y: int, m: int, d: int) -> bool {
    1 <= y <= 9999 && 1 <= m <= 12 && 1 <= d <= month_len(y, m)
}

/// The day number of a civil date: days elapsed since January 1 of year 1.
pub open spec fn day_number(y: int, m: int, d: int) -> int {
    days_before_year(y) + days_before_month(y, m) + d - 1
}

/// Day numbers the engine accepts: every date of years 1 through 9999.
pub open spec fn valid_day_number(n: int) -> bool {
    0 <= n < days_before_year(10000)
}

pub proof fn lemma_days_before_year_bounds(y: int)
    requires
        y >= 1,
    ensures
        365 * (y - 1) <= days_before_year(y) <= 366 * (y - 1),
    decreases y,
{
    if y > 1 {
        lemma_days_before_year_bounds(y - 1);
    }
}

pub proof fn lemma_days_before_year_mono(y1: int, y2: int)
    requires
        1 <= y1 <= y2,
    ensures
        days_before_year(y1) <= days_before_year(y2),
        y1 < y2 ==> days_before_year(y1) + year_len(y1) <= days_before_year(y2),
    decreases y2,
{
    if y1 < y2 {
        lemma_days_before_year_mono(y1, y2 - 1);
    }
}

pub proof fn lemma_days_before_month_bounds(y: int, m: int)
    requires
        1 <= m <= 13,
    ensures
        28 * (m - 1) <= days_before_month(y, m) <= 31 * (m - 1),
    decreases m,
{
    if m > 1 {
        lemma_days_before_month_bounds(y, m - 1);
    }
}

pub proof fn lemma_days_before_month_mono(y: int, m1: int, m2: int)
    requires
        1 <= m1 <= m2 <= 13,
    ensures
        days_before_month(y, m1) <= days_before_month(y, m2),
        m1 < m2 ==> days_before_month(y, m1) + month_len(y, m1) <= days_before_month(y, m2),
    decreases m2,
{
    if m1 < m2 {
        lemma_days_before_month_mono(y, m1, m2 - 1);
    }
}

/// The twelve months of year `y` sum to the length of year `y`.
pub proof fn lemma_months_cover_year(y: int)
    ensures
        days_before_month(y, 13) == year_len(y),
{
    reveal_with_fuel(days_before_month, 14);
}

/// A valid date's day number lies inside its year, and inside the range of
/// day numbers the engine accepts.
pub proof fn lemma_day_number_range(y: int, m: int, d: int)
    requires
        valid_ymd(y, m, d),
    ensures
        days_before_year(y) <= day_number(y, m, d) < days_before_year(y + 1),
        valid_day_number(day_number(y, m, d)),
{
    lemma_days_before_month_mono(y, m, 13);
    lemma_months_cover_year(y);
    lemma_days_before_month_bounds(y, m);
    lemma_days_before_year_bounds(y);
    assert(days_before_month(y, m) + month_len(y, m) <= year_len(y));
    assert(days_before_year(y + 1) == days_before_year(y) + year_len(y));
    lemma_days_before_year_mono(y + 1, 10000);
}

pub open spec fn year_of_day_from(n: int, y: int) -> int
    decreases 10000 - y,
{
    if y >= 9999 || 10000 - y <= 0 {
        9999
    } else if n < days_before_year(y + 1) {
        y
    } else {
        year_of_day_from(n, y + 1)
    }
}

/// The year a day number falls in.
pub open spec fn year_of_day(n: int) -> int {
    year_of_day_from(n, 1)
}

proof fn lemma_year_of_day_from(n: int, y: int)
    requires
        1 <= y <= 9999,
        days_before_year(y) <= n < days_before_year(10000),
    ensures
        y <= year_of_day_from(n, y) <= 9999,
        days_before_year(year_of_day_from(n, y)) <= n,
        year_of_day_from(n, y) < 9999 ==> n < days_before_year(year_of_day_from(n, y) + 1),
    decreases 10000 - y,
{
    if y < 9999 && n >= days_before_year(y + 1) {
        lemma_year_of_day_from(n, y + 1);
    }
}

/// For a valid day number, `year_of_day` brackets it between the year's
/// first day and the next year's first day.
pub proof fn lemma_year_of_day(n: int)
    requires
        valid_day_number(n),
    ensures
        1 <= year_of_day(n) <= 9999,
        days_before_year(year_of_day(n)) <= n < days_before_year(year_of_day(n) + 1),
{
    lemma_year_of_day_from(n, 1);
    if year_of_day(n) == 9999 {
        assert(days_before_year(10000) == days_before_year(9999) + year_len(9999));
    }
}

/// The bracketing property pins the year uniquely.
pub proof fn lemma_year_of_day_unique(n: int, y: int)
    requires
        valid_day_number(n),
        1 <= y <= 9999,
        days_before_year(y) <= n < days_before_year(y + 1),
    ensures
        year_of_day(n) == y,
{
    lemma_year_of_day(n);
    let z = year_of_day(n);
    if z < y {
        lemma_days_before_year_mono(z + 1, y);
        assert(false);
    }
    if z > y {
        lemma_days_before_year_mono(y + 1, z);
        assert(false);
    }
}

/// A calendar date, stored as its day number.
#[derive(Clone, Copy, Debug, PartialEq, Eq, Structural)]
pub struct Date {
    pub days: i64,
}

impl Date {
    pub open spec fn wf(self) -> bool {
        valid_day_number(self.days as int)
    }
}

pub fn leap_year(y: i64) -> (r: bool)
    requires
        1 <= y <= 10000,
    ensures
        r == is_leap_year(y as int),
{
    (y % 4 == 0 && y % 100 != 0) || y % 400 == 0
}

pub fn year_len_exec(y: i64) -> (r: i64)
    requires
        1 <= y <= 10000,
    ensures
        r == year_len(y as int),
{
    if leap_year(y) {
        366
    } else {
        365
    }
}

pub fn month_len_exec(y: i64, m: i64) -> (r: i64)
    requires
        1 <= y <= 10000,
        1 <= m <= 12,
    ensures
        r == month_len(y as int, m as int),
{
    if m == 2 {
        if leap_year(y) {
            29
        } else {
            28
        }
    } else if m == 4 || m == 6 || m == 9 || m == 11 {
        30
    } else {
        31
    }
}

pub fn days_before_year_exec(y: i64) -> (r: i64)
    requires
        1 <= y <= 10000,
    ensures
        r == days_before_year(y as int),
        0 <= r <= 366 * (y - 1),
{
    let mut acc: i64 = 0;
    let mut i: i64 = 1;
    while i < y
        invariant
            1 <= i <= y <= 10000,
            acc == days_before_year(i as int),
            0 <= acc <= 366 * (i - 1),
        decreases y - i,
    {
        acc = acc + year_len_exec(i);
        i = i + 1;
    }
    acc
}

pub fn days_before_month_exec(y: i64, m: i64) -> (r: i64)
    requires
        1 <= y <= 10000,
        1 <= m <= 13,
    ensures
        r == days_before_month(y as int, m as int),
        0 <= r <= 31 * (m - 1),
{
    let mut acc: i64 = 0;
    let mut i: i64 = 1;
    while i < m
        invariant
            1 <= i <= m <= 13,
            1 <= y <= 10000,
            acc == days_before_month(y as int, i as int),
            0 <= acc <= 31 * (i - 1),
        decreases m - i,
    {
        acc = acc + month_len_exec(y, i);
        i = i + 1;
    }
    acc
}

impl Date {
    /// The date with the given civil components, when they are valid.
    pub fn from_ymd(y: i64, m: i64, d: i64) -> (r: Option<Date>)
        ensures
            r is Some <==> valid_ymd(y as int, m as int, d as int),
            r matches Some(dt) ==> dt.wf() && dt.days == day_number(y as int, m as int, d as int),
    {
        if y < 1 || y > 9999 || m < 1 || m > 12 || d < 1 {
            return None;
        }
        if d > month_len_exec(y, m) {
            return None;
        }
        let days = days_before_year_exec(y) + days_before_month_exec(y, m) + d - 1;
        proof {
            lemma_day_number_range(y as int, m as int, d as int);
        }
        Some(Date { days })
    }

    /// The civil components (year, month, day) of this date.
    pub fn to_ymd(self) -> (r: (i64, i64, i64))
        requires
            self.wf(),
        ensures
            valid_ymd(r.0 as int, r.1 as int, r.2 as int),
            day_number(r.0 as int, r.1 as int, r.2 as int) == self.days,
    {
        let mut y: i64 = 1;
        let mut rem: i64 = self.days;
        proof {
            lemma_days_before_year_bounds(10000);
        }
        while rem >= year_len_exec(y)
            invariant
                1 <= y <= 9999,
                rem == self.days - days_before_year(y as int),
                rem >= 0,
                valid_day_number(self.days as int),
            decreases rem,
        {
            proof {
                if y == 9999 {
                    assert(days_before_year(10000) == days_before_year(9999) + year_len(9999));
                    assert(false);
                }
            }
            rem = rem - year_len_exec(y);
            y = y + 1;
        }
        proof {
            lemma_months_cover_year(y as int);
        }
        let mut m: i64 = 1;
        while rem >= month_len_exec(y, m)
            invariant
                1 <= y <= 9999,
                1 <= m <= 12,
                rem == self.days - days_before_year(y as int) - days_before_month(
                    y as int,
                    m as int,
                ),
                rem >= 0,
                self.days - days_before_year(y as int) < year_len(y as int),
                days_before_month(y as int, 13) == year_len(y as int),
            decreases rem,
        {
            proof {
                if m == 12 {
                    lemma_days_before_month_mono(y as int, 12, 13);
                    assert(days_before_month(y as int, 13) == days_before_month(y as int, 12)
                        + month_len(y as int, 12));
                    assert(false);
                }
            }
            rem = rem - month_len_exec(y, m);
            m = m + 1;
        }
        (y, m, rem + 1)
    }

    /// The year this date falls in, pinned by the year's day-number bounds.
    pub fn year(self) -> (r: i64)
        requires
            self.wf(),
        ensures
            1 <= r <= 9999,
            days_before_year(r as int) <= self.days < days_before_year(r as int + 1),
            r == year_of_day(self.days as int),
    {
        let (y, m, d) = self.to_ymd();
        proof {
            lemma_day_number_range(y as int, m as int, d as int);
            lemma_year_of_day_unique(self.days as int, y as int);
        }
        y
    }

    /// January 1 of the given year.
    pub fn jan1(y: i64) -> (r: Date)
        requires
            1 <= y <= 9999,
        ensures
            r.wf(),
            r.days == days_before_year(y as int),
            r.days == day_number(y as int, 1, 1),
    {
        proof {
            lemma_day_number_range(y as int, 1, 1);
        }
        Date { days: days_before_year_exec(y) }
    }

    /// This date moved `n` days back, clamped at day 0 (January 1, year 1).
    pub fn minus_days_clamped(self, n: i64) -> (r: Date)
        requires
            self.wf(),
            n >= 0,
        ensures
            r.wf(),
            r.days == if self.days - n >= 0 {
                self.days - n
            } else {
                0
            },
    {
        if self.days >= n {
            Date { days: self.days - n }
        } else {
            Date { days: 0 }
        }
    }
}

/// Shape of strict ISO-8601 date text: `YYYY-MM-DD`.
pub open spec fn iso_shape(s: Seq<char>) -> bool {
    s.len() == 10 && s[4] == '-' && s[7] == '-' && is_digit_char(s[0]) && is_digit_char(s[1])
        && is_digit_char(s[2]) && is_digit_char(s[3]) && is_digit_char(s[5]) && is_digit_char(s[6])
        && is_digit_char(s[8]) && is_digit_char(s[9])
}

pub open spec fn iso_year(s: Seq<char>) -> int {
    digit_val(s[0]) * 1000 + digit_val(s[1]) * 100 + digit_val(s[2]) * 10 + digit_val(s[3])
}

pub open spec fn iso_month(s: Seq<char>) -> int {
    digit_val(s[5]) * 10 + digit_val(s[6])
}

pub open spec fn iso_day(s: Seq<char>) -> int {
    digit_val(s[8]) * 10 + digit_val(s[9])
}

/// The day number denoted by `s` after trimming, if `s` holds a valid
/// strict ISO-8601 date.
pub open spec fn parse_iso_spec(s: Seq<char>) -> Option<int> {
    let t = trim_of(s);
    if iso_shape(t) && valid_ymd(iso_year(t), iso_month(t), iso_day(t)) {
        Some(day_number(iso_year(t), iso_month(t), iso_day(t)))
    } else {
        None
    }
}

fn digit_at(cs: &Vec<char>, i: usize) -> (r: Option<i64>)
    requires
        i < cs@.len(),
    ensures
        r is Some <==> is_digit_char(cs@[i as int]),
        r matches Some(v) ==> v == digit_val(cs@[i as int]) && 0 <= v <= 9,
{
    let c = cs[i];
    if exec_is_digit(c) {
        Some((c as u32) as i64 - 48)
    } else {
        None
    }
}

/// Parse trimmed `YYYY-MM-DD` text into a date. Every malformed input is a
/// `Validation` failure.
pub fn parse_iso_date(raw: &str) -> (r: Result<Date, EngineError>)
    ensures
        r is Ok <==> parse_iso_spec(raw@) is Some,
        r matches Ok(d) ==> d.wf() && parse_iso_spec(raw@) == Some(d.days as int),
        r matches Err(e) ==> e == EngineError::Validation,
{
    let cs = str_chars(raw);
    let t = trim_chars(&cs);
    if t.len() != 10 {
        return Err(EngineError::Validation);
    }
    if t[4] != '-' || t[7] != '-' {
        return Err(EngineError::Validation);
    }
    let d0 = digit_at(&t, 0);
    let d1 = digit_at(&t, 1);
    let d2 = digit_at(&t, 2);
    let d3 = digit_at(&t, 3);
    let m0 = digit_at(&t, 5);
    let m1 = digit_at(&t, 6);
    let a0 = digit_at(&t, 8);
    let a1 = digit_at(&t, 9);
    match (d0, d1, d2, d3, m0, m1, a0, a1) {
        (
            Some(d0),
            Some(d1),
            Some(d2),
            Some(d3),
            Some(m0),
            Some(m1),
            Some(a0),
            Some(a1),
        ) => {
            let y = d0 * 1000 + d1 * 100 + d2 * 10 + d3;
            let mo = m0 * 10 + m1;
            let da = a0 * 10 + a1;
            match Date::from_ymd(y, mo, da) {
                Some(dt) => Ok(dt),
                None => Err(EngineError::Validation),
            }
        },
        _ => Err(EngineError::Validation),
    }
}

fn digit_char(d: i64) -> (r: char)
    requires
        0 <= d <= 9,
    ensures
        is_digit_char(r),
        digit_val(r) == d,
        !is_space_char(r),
{
    match d {
        0 => '0',
        1 => '1',
        2 => '2',
        3 => '3',
        4 => '4',
        5 => '5',
        6 => '6',
        7 => '7',
        8 => '8',
        _ => '9',
    }
}

impl Date {
    /// This date as `YYYY-MM-DD` text. Formatting inverts parsing: the
    /// produced text parses back to exactly this date.
    pub fn format_iso(self) -> (r: String)
        requires
            self.wf(),
        ensures
            r@.len() == 10,
            parse_iso_spec(r@) == Some(self.days as int),
    {
        let (y, m, d) = self.to_ymd();
        let y1 = y / 1000;
        let yr = y % 1000;
        let y2 = yr / 100;
        let yrr = yr % 100;
        let y3 = yrr / 10;
        let y4 = yrr % 10;
        let m1 = m / 10;
        let m2 = m % 10;
        let d1 = d / 10;
        let d2 = d % 10;
        proof {
            assert(y == y1 * 1000 + yr);
            assert(yr == y2 * 100 + yrr);
            assert(yrr == y3 * 10 + y4);
            assert(m == m1 * 10 + m2);
            assert(d == d1 * 10 + d2);
        }
        let mut out: Vec<char> = Vec::new();
        out.push(digit_char(y1));
        out.push(digit_char(y2));
        out.push(digit_char(y3));
        out.push(digit_char(y4));
        out.push('-');
        out.push(digit_char(m1));
        out.push(digit_char(m2));
        out.push('-');
        out.push(digit_char(d1));
        out.push(digit_char(d2));
        proof {
            let t = out@;
            lemma_lead_spaces_is(t, 0);
            lemma_trail_spaces_is(t, 0);
            assert(trim_of(t) =~= t);
            assert(iso_shape(t));
            assert(iso_year(t) == y as int);
            assert(iso_month(t) == m as int);
            assert(iso_day(t) == d as int);
        }
        chars_to_string(&out)
    }
}

} // verus!
