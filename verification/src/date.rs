//! Calendar dates in the proleptic Gregorian calendar, together with their
//! day numbers relative to 1970-01-01 and the millisecond boundaries of a
//! calendar day.  All analytics keys days by these dates.

use vstd::prelude::*;
use crate::fmt::char_of_digit;
use crate::fmt::digit_str;

verus! {

/// Why a caller-supplied date string was rejected.
#[derive(Clone, Copy, PartialEq, Eq, Structural, Debug)]
pub enum ValidationError {
    /// Not of the ten-character `YYYY-MM-DD` shape.
    BadFormat,
    /// Shaped correctly but naming no supported calendar day.
    BadValue,
}

impl ValidationError {
    /// A short description, for error reporting at the boundary.
    pub fn message(&self) -> (s: &'static str)
        ensures
            *self is BadFormat ==> s@ == "date must have the form YYYY-MM-DD"@,
            *self is BadValue ==> s@ == "date names no valid calendar day"@,
    {
        match self {
            ValidationError::BadFormat => "date must have the form YYYY-MM-DD",
            ValidationError::BadValue => "date names no valid calendar day",
        }
    }
}

pub open spec fn is_leap_year(y: int) -> bool {
    (y % 4 == 0 && y % 100 != 0) || y % 400 == 0
}

pub open spec fn days_in_year(y: int) -> int {
    if is_leap_year(y) {
        366
    } else {
        365
    }
}

pub open spec fn days_in_month(y: int, m: int) -> int {
    if m == 2 {
        if is_leap_year(y) {
            29
        } else {
            28
        }
    } else if m == 4 || m == 6 || m == 9 || m == 11 {
        30
    } else {
        31
    }
}

/// A calendar day.  Only years 1970 through 9999 are representable: break
/// records carry unsigned millisecond timestamps, so no record can fall
/// before 1970, and the four-digit year keeps the text form fixed-width.
#[derive(Clone, Copy, PartialEq, Eq, Structural, Debug)]
pub struct Date {
    pub year: u32,
    pub month: u32,
    pub day: u32,
}

/// Days from 1970-01-01 up to the first day of year `y`.
pub open spec fn days_before_year(y: int) -> int
    decreases y,
{
    if y <= 1970 {
        0
    } else {
        days_before_year(y - 1) + days_in_year(y - 1)
    }
}

/// Days from the first of January of year `y` up to the first day of month `m`.
pub open spec fn days_before_month(y: int, m: int) -> int
    decreases m,
{
    if m <= 1 {
        0
    } else {
        days_before_month(y, m - 1) + days_in_month(y, m - 1)
    }
}

/// Day number of a date: days since 1970-01-01.
pub open spec fn spec_day_number(d: Date) -> int {
    days_before_year(d.year as int) + days_before_month(d.year as int, d.month as int) + d.day - 1
}

impl Date {
    pub open spec fn valid(self) -> bool {
        &&& 1970 <= self.year <= 9999
        &&& 1 <= self.month <= 12
        &&& 1 <= self.day <= days_in_month(self.year as int, self.month as int)
    }
}

/// A year is at most 366 days long, so day numbers stay small.
pub proof fn lemma_days_before_year_bound(y: int)
    requires
        1970 <= y,
    ensures
        days_before_year(y) <= 366 * (y - 1970),
        365 * (y - 1970) <= days_before_year(y),
    decreases y,
{
    if y > 1970 {
        lemma_days_before_year_bound(y - 1);
    }
}

proof fn lemma_days_before_year_mono(y1: int, y2: int)
    requires
        y1 <= y2,
    ensures
        days_before_year(y1) <= days_before_year(y2),
    decreases y2,
{
    if y1 < y2 && y2 > 1970 {
        lemma_days_before_year_mono(y1, y2 - 1);
    }
}

proof fn lemma_days_before_month_mono(y: int, m1: int, m2: int)
    requires
        m1 <= m2,
    ensures
        days_before_month(y, m1) <= days_before_month(y, m2),
    decreases m2,
{
    if m1 < m2 && m2 > 1 {
        lemma_days_before_month_mono(y, m1, m2 - 1);
    }
}

/// The months of a year add up to the length of the year.
proof fn lemma_months_fill_year(y: int)
    ensures
        days_before_month(y, 13) == days_in_year(y),
{
    reveal_with_fuel(days_before_month, 13);
}

/// A valid date's day number lies inside its own year.
proof fn lemma_day_number_in_year(d: Date)
    requires
        d.valid(),
    ensures
        days_before_year(d.year as int) <= spec_day_number(d),
        spec_day_number(d) < days_before_year(d.year as int + 1),
{
    lemma_days_before_month_mono(d.year as int, 1, d.month as int);
    lemma_days_before_month_mono(d.year as int, d.month as int + 1, 13);
    lemma_months_fill_year(d.year as int);
}

/// Calendar order implies day-number order.
proof fn lemma_day_number_lt(d1: Date, d2: Date)
    requires
        d1.valid(),
        d2.valid(),
        (d1.year < d2.year) || (d1.year == d2.year && d1.month < d2.month) || (d1.year == d2.year
            && d1.month == d2.month && d1.day < d2.day),
    ensures
        spec_day_number(d1) < spec_day_number(d2),
{
    lemma_day_number_in_year(d1);
    lemma_day_number_in_year(d2);
    if d1.year < d2.year {
        lemma_days_before_year_mono(d1.year as int + 1, d2.year as int);
    } else if d1.month < d2.month {
        assert(days_before_month(d1.year as int, d1.month as int + 1) == days_before_month(
            d1.year as int,
            d1.month as int,
        ) + days_in_month(d1.year as int, d1.month as int));
        lemma_days_before_month_mono(d1.year as int, d1.month as int + 1, d2.month as int);
    }
}

/// A day number names one calendar day: two valid dates with the same day
/// number are the same date.  Together with the range contracts this pins
/// the date of every zero-filled rollup entry.
pub proof fn lemma_day_number_injective(d1: Date, d2: Date)
    requires
        d1.valid(),
        d2.valid(),
        spec_day_number(d1) == spec_day_number(d2),
    ensures
        d1 == d2,
{
    if d1 != d2 {
        if d1.year < d2.year || (d1.year == d2.year && d1.month < d2.month) || (d1.year == d2.year
            && d1.month == d2.month && d1.day < d2.day) {
            lemma_day_number_lt(d1, d2);
        } else {
            lemma_day_number_lt(d2, d1);
        }
    }
}

/// Day numbers of valid dates are nonnegative and below the year-10000 bound.
pub proof fn lemma_day_number_range(d: Date)
    requires
        d.valid(),
    ensures
        0 <= spec_day_number(d),
        spec_day_number(d) < days_before_year(10000),
{
    lemma_day_number_in_year(d);
    lemma_days_before_year_bound(d.year as int);
    lemma_days_before_year_mono(d.year as int + 1, 10000);
}

impl Date {
    /// Days since 1970-01-01.
    pub fn day_number(&self) -> (n: u64)
        requires
            self.valid(),
        ensures
            n == spec_day_number(*self),
    {
        let mut n: u64 = 0;
        let mut y: u32 = 1970;
        while y < self.year
            invariant
                1970 <= y <= self.year,
                self.valid(),
                n == days_before_year(y as int),
                n <= 366 * (y - 1970),
            decreases self.year - y,
        {
            if (y % 4 == 0 && y % 100 != 0) || y % 400 == 0 {
                n = n + 366;
            } else {
                n = n + 365;
            }
            y = y + 1;
        }
        let mut m: u32 = 1;
        while m < self.month
            invariant
                1 <= m <= self.month,
                self.valid(),
                n == days_before_year(self.year as int) + days_before_month(self.year as int, m as int),
                n <= 366 * (self.year - 1970) + 31 * (m - 1),
            decreases self.month - m,
        {
            let dim: u32 = if m == 2 {
                if (self.year % 4 == 0 && self.year % 100 != 0) || self.year % 400 == 0 {
                    29
                } else {
                    28
                }
            } else if m == 4 || m == 6 || m == 9 || m == 11 {
                30
            } else {
                31
            };
            n = n + dim as u64;
            m = m + 1;
        }
        n + self.day as u64 - 1
    }
}

fn year_length(y: u32) -> (l: u64)
    ensures
        l == days_in_year(y as int),
{
    if (y % 4 == 0 && y % 100 != 0) || y % 400 == 0 {
        366
    } else {
        365
    }
}

fn month_length(y: u32, m: u32) -> (l: u64)
    ensures
        l == days_in_month(y as int, m as int),
{
    if m == 2 {
        if (y % 4 == 0 && y % 100 != 0) || y % 400 == 0 {
            29
        } else {
            28
        }
    } else if m == 4 || m == 6 || m == 9 || m == 11 {
        30
    } else {
        31
    }
}

/// The date with the given day number.
pub fn from_day_number(n: u64) -> (d: Date)
    requires
        n < days_before_year(10000),
    ensures
        d.valid(),
        spec_day_number(d) == n,
{
    let mut y: u32 = 1970;
    let mut rem: u64 = n;
    while year_length(y) <= rem
        invariant
            1970 <= y <= 9999,
            n < days_before_year(10000),
            days_before_year(y as int) + rem == n,
        decreases rem,
    {
        proof {
            if y == 9999 {
                assert(days_before_year(10000) == days_before_year(9999) + days_in_year(9999));
            }
        }
        rem = rem - year_length(y);
        y = y + 1;
    }
    let ghost y_start = days_before_year(y as int);
    let mut m: u32 = 1;
    while month_length(y, m) <= rem
        invariant
            1 <= m <= 12,
            1970 <= y <= 9999,
            days_before_year(y as int) == y_start,
            y_start + days_before_month(y as int, m as int) + rem == n,
            days_before_month(y as int, m as int) + rem < days_in_year(y as int),
        decreases rem,
    {
        proof {
            if m == 12 {
                lemma_months_fill_year(y as int);
            }
        }
        rem = rem - month_length(y, m);
        m = m + 1;
    }
    Date { year: y, month: m, day: (rem + 1) as u32 }
}

/// First millisecond of the calendar day, in milliseconds since the epoch.
pub open spec fn spec_start_of_day_ms(d: Date) -> int {
    spec_day_number(d) * 86400000
}

/// Last millisecond of the calendar day.
pub open spec fn spec_end_of_day_ms(d: Date) -> int {
    spec_start_of_day_ms(d) + 86399999
}

impl Date {
    pub fn start_of_day_ms(&self) -> (ms: u64)
        requires
            self.valid(),
        ensures
            ms == spec_start_of_day_ms(*self),
    {
        proof {
            lemma_day_number_range(*self);
            lemma_days_before_year_bound(10000);
        }
        self.day_number() * 86400000
    }

    pub fn end_of_day_ms(&self) -> (ms: u64)
        requires
            self.valid(),
        ensures
            ms == spec_end_of_day_ms(*self),
    {
        proof {
            lemma_day_number_range(*self);
            lemma_days_before_year_bound(10000);
        }
        self.start_of_day_ms() + 86399999
    }
}

/// The UTC calendar day that a millisecond timestamp falls in, or `None`
/// past the last representable day.
pub fn date_of_ms(ms: u64) -> (r: Option<Date>)
    ensures
        match r {
            Some(d) => d.valid() && spec_day_number(d) == ms as int / 86400000,
            None => ms as int / 86400000 >= days_before_year(10000),
        },
{
    let last = Date { year: 9999, month: 12, day: 31 };
    proof {
        lemma_months_fill_year(9999);
        assert(days_before_year(10000) == days_before_year(9999) + days_in_year(9999));
        assert(spec_day_number(last) == days_before_year(10000) - 1);
    }
    let limit = last.day_number();
    let n = ms / 86400000;
    if n <= limit {
        Some(from_day_number(n))
    } else {
        None
    }
}

/// The local calendar day number of a UTC millisecond timestamp in a zone
/// `tz_offset_seconds` east of UTC, clamped into the supported range: time
/// before the epoch's first local day reads as day zero, and time past the
/// last representable day reads as that day.
pub open spec fn spec_local_day_clamped(ms: u64, tz_offset_seconds: int) -> int {
    let shifted = ms + tz_offset_seconds * 1000;
    let day = if shifted <= 0 {
        0int
    } else {
        shifted / 86400000
    };
    if day < days_before_year(10000) {
        day
    } else {
        days_before_year(10000) - 1
    }
}

/// The local calendar day containing a UTC timestamp, clamped to the
/// supported range at both ends.
pub fn local_date_of_ms(ms: u64, tz_offset_seconds: i32) -> (d: Date)
    requires
        -86400 < tz_offset_seconds < 86400,
    ensures
        d.valid(),
        spec_day_number(d) == spec_local_day_clamped(ms, tz_offset_seconds as int),
{
    let last = Date { year: 9999, month: 12, day: 31 };
    proof {
        lemma_months_fill_year(9999);
        assert(days_before_year(10000) == days_before_year(9999) + days_in_year(9999));
        assert(spec_day_number(last) == days_before_year(10000) - 1);
        lemma_days_before_year_bound(10000);
    }
    let limit = last.day_number();
    let shift: i64 = tz_offset_seconds as i64 * 1000;
    let day: u64 = if shift >= 0 {
        match ms.checked_add(shift as u64) {
            Some(s) => s / 86400000,
            None => {
                proof {
                    let shifted = ms + tz_offset_seconds as int * 1000;
                    assert(shifted > u64::MAX);
                    assert(shifted / 86400000 >= 0x10000000000000000int / 86400000) by {
                        vstd::arithmetic::div_mod::lemma_div_is_ordered(
                            0x10000000000000000int,
                            shifted,
                            86400000int,
                        );
                    }
                }
                limit + 1
            },
        }
    } else {
        let neg = (-shift) as u64;
        if ms <= neg {
            0
        } else {
            (ms - neg) / 86400000
        }
    };
    let day_clamped = if day <= limit {
        day
    } else {
        limit
    };
    from_day_number(day_clamped)
}

/// Value of a decimal digit character, `-1` for any other character.
pub open spec fn spec_digit(c: char) -> int {
    if c == '0' {
        0
    } else if c == '1' {
        1
    } else if c == '2' {
        2
    } else if c == '3' {
        3
    } else if c == '4' {
        4
    } else if c == '5' {
        5
    } else if c == '6' {
        6
    } else if c == '7' {
        7
    } else if c == '8' {
        8
    } else if c == '9' {
        9
    } else {
        -1
    }
}

/// Ten characters, `YYYY-MM-DD`, all digit positions decimal digits.
pub open spec fn date_text_shaped(s: Seq<char>) -> bool {
    &&& s.len() == 10
    &&& s[4] == '-'
    &&& s[7] == '-'
    &&& spec_digit(s[0]) >= 0
    &&& spec_digit(s[1]) >= 0
    &&& spec_digit(s[2]) >= 0
    &&& spec_digit(s[3]) >= 0
    &&& spec_digit(s[5]) >= 0
    &&& spec_digit(s[6]) >= 0
    &&& spec_digit(s[8]) >= 0
    &&& spec_digit(s[9]) >= 0
}

/// The date named by a correctly shaped `YYYY-MM-DD` text.
pub open spec fn spec_date_fields(s: Seq<char>) -> Date {
    Date {
        year: (1000 * spec_digit(s[0]) + 100 * spec_digit(s[1]) + 10 * spec_digit(s[2]) + spec_digit(
            s[3],
        )) as u32,
        month: (10 * spec_digit(s[5]) + spec_digit(s[6])) as u32,
        day: (10 * spec_digit(s[8]) + spec_digit(s[9])) as u32,
    }
}

pub open spec fn spec_parse_date(s: Seq<char>) -> Result<Date, ValidationError> {
    if !date_text_shaped(s) {
        Err(ValidationError::BadFormat)
    } else if !spec_date_fields(s).valid() {
        Err(ValidationError::BadValue)
    } else {
        Ok(spec_date_fields(s))
    }
}

/// Value of a digit character; `10` marks a non-digit.
fn digit_of(c: char) -> (d: u32)
    ensures
        spec_digit(c) >= 0 ==> d == spec_digit(c),
        spec_digit(c) < 0 ==> d == 10,
{
    match c {
        '0' => 0,
        '1' => 1,
        '2' => 2,
        '3' => 3,
        '4' => 4,
        '5' => 5,
        '6' => 6,
        '7' => 7,
        '8' => 8,
        '9' => 9,
        _ => 10,
    }
}

/// Reads a `YYYY-MM-DD` date, rejecting malformed text and days that do not
/// exist in the calendar.
pub fn parse_date(s: &str) -> (r: Result<Date, ValidationError>)
    ensures
        r == spec_parse_date(s@),
{
    if s.unicode_len() != 10 {
        return Err(ValidationError::BadFormat);
    }
    if s.get_char(4) != '-' || s.get_char(7) != '-' {
        return Err(ValidationError::BadFormat);
    }
    let d0 = digit_of(s.get_char(0));
    let d1 = digit_of(s.get_char(1));
    let d2 = digit_of(s.get_char(2));
    let d3 = digit_of(s.get_char(3));
    let d5 = digit_of(s.get_char(5));
    let d6 = digit_of(s.get_char(6));
    let d8 = digit_of(s.get_char(8));
    let d9 = digit_of(s.get_char(9));
    if d0 > 9 || d1 > 9 || d2 > 9 || d3 > 9 || d5 > 9 || d6 > 9 || d8 > 9 || d9 > 9 {
        return Err(ValidationError::BadFormat);
    }
    let date = Date {
        year: 1000 * d0 + 100 * d1 + 10 * d2 + d3,
        month: 10 * d5 + d6,
        day: 10 * d8 + d9,
    };
    if date.year < 1970 || date.month < 1 || date.month > 12 {
        return Err(ValidationError::BadValue);
    }
    if date.day < 1 || (date.day as u64) > month_length(date.year, date.month) {
        return Err(ValidationError::BadValue);
    }
    Ok(date)
}

/// The `YYYY-MM-DD` text of a date.
pub open spec fn spec_format_date(d: Date) -> Seq<char> {
    seq![
        char_of_digit(d.year as int / 1000),
        char_of_digit(d.year as int / 100 % 10),
        char_of_digit(d.year as int / 10 % 10),
        char_of_digit(d.year as int % 10),
        '-',
        char_of_digit(d.month as int / 10),
        char_of_digit(d.month as int % 10),
        '-',
        char_of_digit(d.day as int / 10),
        char_of_digit(d.day as int % 10),
    ]
}

/// Writing a valid date as text and parsing the text back yields the same
/// date.
pub proof fn lemma_format_parse_round_trip(d: Date)
    requires
        d.valid(),
    ensures
        spec_parse_date(spec_format_date(d)) == Ok::<Date, ValidationError>(d),
{
    let s = spec_format_date(d);
    assert forall|n: int| 0 <= n <= 9 implies spec_digit(char_of_digit(n)) == n by {}
    let y = d.year as int;
    let m = d.month as int;
    let day = d.day as int;
    assert(0 <= y / 1000 <= 9 && 0 <= y / 100 % 10 <= 9 && 0 <= y / 10 % 10 <= 9 && 0 <= y % 10
        <= 9) by (nonlinear_arith)
        requires
            1970 <= y <= 9999,
    ;
    assert(1000 * (y / 1000) + 100 * (y / 100 % 10) + 10 * (y / 10 % 10) + y % 10 == y)
        by (nonlinear_arith)
        requires
            0 <= y < 10000,
    ;
    assert(0 <= m / 10 <= 9 && 0 <= m % 10 <= 9 && 10 * (m / 10) + m % 10 == m)
        by (nonlinear_arith)
        requires
            1 <= m <= 12,
    ;
    assert(0 <= day / 10 <= 9 && 0 <= day % 10 <= 9 && 10 * (day / 10) + day % 10 == day)
        by (nonlinear_arith)
        requires
            1 <= day <= 31,
    ;
    assert(date_text_shaped(s));
    assert(spec_date_fields(s) == d);
}

/// Writes a date as `YYYY-MM-DD`.
pub fn format_date(d: &Date) -> (s: String)
    requires
        d.valid(),
    ensures
        s@ == spec_format_date(*d),
{
    proof {
        reveal_strlit("-");
    }
    let mut out = String::new();
    out.append(digit_str(d.year / 1000));
    out.append(digit_str(d.year / 100 % 10));
    out.append(digit_str(d.year / 10 % 10));
    out.append(digit_str(d.year % 10));
    out.append("-");
    out.append(digit_str(d.month / 10));
    out.append(digit_str(d.month % 10));
    out.append("-");
    out.append(digit_str(d.day / 10));
    out.append(digit_str(d.day % 10));
    proof {
        assert(out@ =~= spec_format_date(*d));
    }
    out
}

} // verus!
