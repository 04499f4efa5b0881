//! Calendar dates of the proleptic Gregorian calendar, backed by `chrono`.

use vstd::prelude::*;
use chrono::Datelike;
use crate::text::{two_digit_text, year_text};

verus! {

/// The earliest year that a [`Date`] can hold.
pub const MIN_YEAR: i32 = -262143;

/// The latest year that a [`Date`] can hold.
pub const MAX_YEAR: i32 = 262142;

/// Whether `year` has a 29th of February.
pub open spec fn is_leap_year(year: int) -> bool {
    year % 4 == 0 && (year % 100 != 0 || year % 400 == 0)
}

/// The number of days of `month` (1 to 12) in `year`.
pub open spec fn days_in_month(year: int, month: int) -> int {
    if month == 2 {
        if is_leap_year(year) { 29 } else { 28 }
    } else if month == 4 || month == 6 || month == 9 || month == 11 {
        30
    } else {
        31
    }
}

/// Whether year, month and day name a day that a [`Date`] can hold.
pub open spec fn is_calendar_date(year: int, month: int, day: int) -> bool {
    &&& MIN_YEAR <= year <= MAX_YEAR
    &&& 1 <= month <= 12
    &&& 1 <= day <= days_in_month(year, month)
}

/// The number of days in all years before `year`, counted from year 0.
pub open spec fn days_before_year(year: int) -> int {
    365 * year + (year - 1) / 4 - (year - 1) / 100 + (year - 1) / 400
}

/// The number of days of `year` that lie before the first of `month`.
pub open spec fn days_before_month(year: int, month: int) -> int {
    let common: int = if month <= 1 { 0 }
        else if month == 2 { 31 }
        else if month == 3 { 59 }
        else if month == 4 { 90 }
        else if month == 5 { 120 }
        else if month == 6 { 151 }
        else if month == 7 { 181 }
        else if month == 8 { 212 }
        else if month == 9 { 243 }
        else if month == 10 { 273 }
        else if month == 11 { 304 }
        else { 334 };
    if month > 2 && is_leap_year(year) { common + 1 } else { common }
}

/// A calendar day.
#[derive(Clone, Copy, Debug, PartialEq, Eq, Structural)]
pub struct Date {
    pub year: i32,
    pub month: u32,
    pub day: u32,
}

impl Date {
    /// The day exists in the calendar and its year is in range.
    pub open spec fn valid(self) -> bool {
        is_calendar_date(self.year as int, self.month as int, self.day as int)
    }

    /// The last day that a `Date` can hold.
    pub open spec fn last() -> Date {
        Date { year: MAX_YEAR, month: 12, day: 31 }
    }

    /// The day after this one.
    pub open spec fn next(self) -> Date {
        if (self.day as int) < days_in_month(self.year as int, self.month as int) {
            Date { year: self.year, month: self.month, day: (self.day + 1) as u32 }
        } else if self.month < 12 {
            Date { year: self.year, month: (self.month + 1) as u32, day: 1 }
        } else {
            Date { year: (self.year + 1) as i32, month: 1, day: 1 }
        }
    }

    /// The day `n` days after this one.
    pub open spec fn plus_days(self, n: nat) -> Date
        decreases n,
    {
        if n == 0 {
            self
        } else {
            self.plus_days((n - 1) as nat).next()
        }
    }

    /// The position of this day on the line of all days: consecutive days
    /// have consecutive numbers.
    pub open spec fn day_number(self) -> int {
        days_before_year(self.year as int) + days_before_month(
            self.year as int,
            self.month as int,
        ) + self.day as int
    }

    /// This day comes strictly before `other`, by year, then month, then day.
    pub open spec fn is_before(self, other: Date) -> bool {
        self.year < other.year || (self.year == other.year && (self.month < other.month || (
        self.month == other.month && self.day < other.day)))
    }

    /// The date of the given year, month and day, if there is such a day.
    pub fn from_ymd(year: i32, month: u32, day: u32) -> (r: Option<Date>)
        ensures
            r.is_some() == is_calendar_date(year as int, month as int, day as int),
            r.is_some() ==> r.unwrap() == (Date { year, month, day }),
    {
        chrono_from_ymd(year, month, day)
    }

    /// The following day, or `None` for the last day.
    pub fn successor(self) -> (r: Option<Date>)
        requires
            self.valid(),
        ensures
            r == (if self == Date::last() { None } else { Some(self.next()) }),
            r.is_some() ==> r.unwrap().valid() && r.unwrap().day_number() == self.day_number() + 1,
    {
        proof {
            if self != Date::last() {
                lemma_next_day(self);
            }
        }
        chrono_succ(self)
    }

    /// The year as text: four digits for the years 0 to 9999, else a sign
    /// and at least four digits.
    pub fn year_string(self) -> (text: String)
        requires
            self.valid(),
        ensures
            text@ == year_text(self.year as int),
    {
        chrono_format(self, "%Y")
    }

    /// The month in two digits.
    pub fn month_string(self) -> (text: String)
        requires
            self.valid(),
        ensures
            text@ == two_digit_text(self.month as int),
    {
        proof {
            reveal_strlit("%Y");
            reveal_strlit("%m");
            assert("%m"@[1] != "%Y"@[1]);
        }
        chrono_format(self, "%m")
    }

    /// The day of the month in two digits.
    pub fn day_string(self) -> (text: String)
        requires
            self.valid(),
        ensures
            text@ == two_digit_text(self.day as int),
    {
        proof {
            reveal_strlit("%Y");
            reveal_strlit("%m");
            reveal_strlit("%d");
            assert("%d"@[1] != "%Y"@[1]);
            assert("%d"@[1] != "%m"@[1]);
        }
        chrono_format(self, "%d")
    }

    /// Whether this day comes strictly before `other`.
    pub fn before(self, other: Date) -> (r: bool)
        ensures
            r == self.is_before(other),
            self.valid() && other.valid() ==> r == (self.day_number() < other.day_number()),
    {
        proof {
            if self.valid() && other.valid() {
                lemma_order_by_day_number(self, other);
            }
        }
        self.year < other.year || (self.year == other.year && (self.month < other.month || (
        self.month == other.month && self.day < other.day)))
    }
}

/// `chrono::NaiveDate::from_ymd_opt`, with the date it builds read back
/// through `Datelike::{year, month, day}`. Claimed: a date comes back exactly
/// for the days of the proleptic Gregorian calendar whose year lies between
/// `MIN_YEAR` and `MAX_YEAR`, and it names the day that was asked for.
#[verifier::external_body]
fn chrono_from_ymd(year: i32, month: u32, day: u32) -> (r: Option<Date>)
    ensures
        r.is_some() == is_calendar_date(year as int, month as int, day as int),
        r.is_some() ==> r.unwrap() == (Date { year, month, day }),
{
    match chrono::NaiveDate::from_ymd_opt(year, month, day) {
        Some(d) => Some(Date { year: d.year(), month: d.month(), day: d.day() }),
        None => None,
    }
}

/// `chrono::NaiveDate::succ_opt`. Claimed: the last representable day has no
/// successor; every other day is followed by the next day of the month, else
/// the first of the next month, else the first of January of the next year.
#[verifier::external_body]
fn chrono_succ(date: Date) -> (r: Option<Date>)
    requires
        date.valid(),
    ensures
        r == (if date == Date::last() { None } else { Some(date.next()) }),
{
    match chrono::NaiveDate::from_ymd_opt(date.year, date.month, date.day) {
        Some(d) => match d.succ_opt() {
            Some(n) => Some(Date { year: n.year(), month: n.month(), day: n.day() }),
            None => None,
        },
        None => None,
    }
}

/// What a date shows under one of the patterns `%Y`, `%m` and `%d`: the
/// year, the month in two digits, the day of the month in two digits.
pub open spec fn field_text(date: Date, pattern: Seq<char>) -> Seq<char> {
    if pattern == "%Y"@ {
        year_text(date.year as int)
    } else if pattern == "%m"@ {
        two_digit_text(date.month as int)
    } else {
        two_digit_text(date.day as int)
    }
}

/// `chrono::NaiveDate::format`, written out with `to_string`, for the three
/// patterns `%Y`, `%m` and `%d`. Claimed: `%Y` gives the year in four
/// zero-padded digits for the years 0 to 9999 and otherwise a sign and at
/// least four zero-padded digits; `%m` and `%d` give month and day of the
/// month in two zero-padded digits.
#[verifier::external_body]
fn chrono_format(date: Date, pattern: &str) -> (text: String)
    requires
        date.valid(),
        pattern@ == "%Y"@ || pattern@ == "%m"@ || pattern@ == "%d"@,
    ensures
        text@ == field_text(date, pattern@),
{
    match chrono::NaiveDate::from_ymd_opt(date.year, date.month, date.day) {
        Some(d) => d.format(pattern).to_string(),
        None => String::new(),
    }
}

/// A year's days follow those of the year before it.
pub proof fn lemma_year_step(year: int)
    ensures
        days_before_year(year + 1) == days_before_year(year) + 365 + (if is_leap_year(year) {
            1int
        } else {
            0int
        }),
{
    let prev = year - 1;
    assert(year / 4 - prev / 4 == (if year % 4 == 0 { 1int } else { 0int })) by {
        lemma_quotient_step(year, 4);
    }
    assert(year / 100 - prev / 100 == (if year % 100 == 0 { 1int } else { 0int })) by {
        lemma_quotient_step(year, 100);
    }
    assert(year / 400 - prev / 400 == (if year % 400 == 0 { 1int } else { 0int })) by {
        lemma_quotient_step(year, 400);
    }
    assert(year % 400 == 0 ==> year % 100 == 0) by {
        lemma_multiple(year, 100, 4);
    }
    assert(year % 100 == 0 ==> year % 4 == 0) by {
        lemma_multiple(year, 4, 25);
    }
}

proof fn lemma_quotient_step(x: int, k: int)
    requires
        k > 0,
    ensures
        x / k - (x - 1) / k == (if x % k == 0 { 1int } else { 0int }),
{
    vstd::arithmetic::div_mod::lemma_fundamental_div_mod(x, k);
    vstd::arithmetic::div_mod::lemma_fundamental_div_mod(x - 1, k);
    vstd::arithmetic::div_mod::lemma_mod_bound(x, k);
    vstd::arithmetic::div_mod::lemma_mod_bound(x - 1, k);
    let q = x / k;
    let p = (x - 1) / k;
    assert(k * q + x % k == k * p + (x - 1) % k + 1);
    assert(q - p == 0 || q - p == 1) by (nonlinear_arith)
        requires
            k > 0,
            k * q + x % k == k * p + (x - 1) % k + 1,
            0 <= x % k < k,
            0 <= (x - 1) % k < k,
    ;
    assert(k * q - k * p == k * (q - p)) by (nonlinear_arith);
}

proof fn lemma_multiple(x: int, k: int, f: int)
    requires
        k > 0,
        f > 0,
    ensures
        x % (k * f) == 0 ==> x % k == 0,
{
    if x % (k * f) == 0 {
        assert(k * f > 0) by (nonlinear_arith)
            requires
                k > 0,
                f > 0,
        ;
        vstd::arithmetic::div_mod::lemma_fundamental_div_mod(x, k * f);
        let q = x / (k * f);
        assert(x == q * f * k) by (nonlinear_arith)
            requires
                x == (k * f) * q + 0,
        ;
        vstd::arithmetic::div_mod::lemma_mod_multiples_basic(q * f, k);
    }
}

/// Later years start on later days.
pub proof fn lemma_years_monotone(a: int, b: int)
    requires
        a <= b,
    ensures
        days_before_year(a) <= days_before_year(b),
    decreases b - a,
{
    if a < b {
        lemma_years_monotone(a, b - 1);
        lemma_year_step(b - 1);
    }
}

/// The day after a valid day other than the last is valid and has the next
/// day number.
pub proof fn lemma_next_day(d: Date)
    requires
        d.valid(),
        d != Date::last(),
    ensures
        d.next().valid(),
        d.next().day_number() == d.day_number() + 1,
{
    lemma_year_step(d.year as int);
}

/// Calendar order and day numbers agree.
pub proof fn lemma_order_by_day_number(a: Date, b: Date)
    requires
        a.valid(),
        b.valid(),
    ensures
        a.is_before(b) <==> a.day_number() < b.day_number(),
        a == b <==> a.day_number() == b.day_number(),
{
    lemma_before_implies_smaller(a, b);
    lemma_before_implies_smaller(b, a);
}

proof fn lemma_before_implies_smaller(a: Date, b: Date)
    requires
        a.valid(),
        b.valid(),
    ensures
        a.is_before(b) ==> a.day_number() < b.day_number(),
{
    if a.year < b.year {
        lemma_year_step(a.year as int);
        lemma_years_monotone(a.year + 1, b.year as int);
    }
}

} // verus!
