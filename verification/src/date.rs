//! Calendar dates as plain year/month/day values.
//!
//! A `Date` always names a day that exists in the proleptic Gregorian
//! calendar, within the year range that chrono's `NaiveDate` can hold, so
//! the two convert into each other one for one.

use vstd::prelude::*;

use crate::text::{push_char, push_zero_padded, zero_padded};

verus! {

/// Earliest year that a calendar date can carry.
pub const MIN_YEAR: i32 = -262143;

/// Latest year that a calendar date can carry.
pub const MAX_YEAR: i32 = 262142;

/// Gregorian leap-year rule.
pub open spec fn spec_is_leap_year(year: int) -> bool {
    year % 4 == 0 && (year % 100 != 0 || year % 400 == 0)
}

/// Number of days in `month` of `year` (31 for any month number other than 2, 4, 6, 9, 11).
pub open spec fn spec_days_in_month(year: int, month: int) -> int {
    if month == 2 {
        if spec_is_leap_year(year) {
            29
        } else {
            28
        }
    } else if month == 4 || month == 6 || month == 9 || month == 11 {
        30
    } else {
        31
    }
}

/// Whether year/month/day name an existing day within the supported year range.
pub open spec fn valid_ymd(year: int, month: int, day: int) -> bool {
    &&& MIN_YEAR <= year <= MAX_YEAR
    &&& 1 <= month <= 12
    &&& 1 <= day <= spec_days_in_month(year, month)
}

proof fn lemma_mod_shift(y: int, k: int, m: int)
    requires
        m > 0,
    ensures
        (y + k * m) % m == y % m,
{
    vstd::arithmetic::div_mod::lemma_mod_multiples_vanish(k, y, m);
    assert(m * k + y == y + k * m) by (nonlinear_arith);
}

/// Gregorian leap-year rule.
pub fn is_leap_year(year: i32) -> (leap: bool)
    ensures
        leap == spec_is_leap_year(year as int),
{
    // A shift by a multiple of 400 makes the year non-negative and keeps all three remainders.
    let shifted = (year as i64 + 400 * 5_368_710) as u64;
    proof {
        lemma_mod_shift(year as int, 536_871_000int, 4);
        lemma_mod_shift(year as int, 21_474_840int, 100);
        lemma_mod_shift(year as int, 5_368_710int, 400);
    }
    shifted % 4 == 0 && (shifted % 100 != 0 || shifted % 400 == 0)
}

/// Days in a month, with February following the Gregorian leap-year rule.
pub fn days_in_month(year: i32, month: u32) -> (days: u32)
    ensures
        days == spec_days_in_month(year as int, month as int),
{
    if month == 2 {
        if is_leap_year(year) {
            29
        } else {
            28
        }
    } else if month == 4 || month == 6 || month == 9 || month == 11 {
        30
    } else {
        31
    }
}

/// Asks chrono whether year/month/day form a date it can represent.
#[verifier::external_body]
fn chrono_date_exists(year: i32, month: u32, day: u32) -> (exists: bool)
    ensures
        exists == valid_ymd(year as int, month as int, day as int),
{
    chrono::NaiveDate::from_ymd_opt(year, month, day).is_some()
}

/// A day of the Gregorian calendar.
#[derive(Clone, Copy, Debug, PartialEq, Eq, Hash, Structural)]
pub struct Date {
    year: i32,
    month: u32,
    day: u32,
}

impl Date {
    #[verifier::type_invariant]
    spec fn well_formed(self) -> bool {
        valid_ymd(self.year as int, self.month as int, self.day as int)
    }

    /// The year of this date.
    pub closed spec fn spec_year(self) -> int {
        self.year as int
    }

    /// The month of this date, 1 to 12.
    pub closed spec fn spec_month(self) -> int {
        self.month as int
    }

    /// The day of the month, from 1.
    pub closed spec fn spec_day(self) -> int {
        self.day as int
    }

    /// Whether `self` falls strictly before `other`.
    pub open spec fn precedes(self, other: Date) -> bool {
        ||| self.spec_year() < other.spec_year()
        ||| self.spec_year() == other.spec_year() && self.spec_month() < other.spec_month()
        ||| self.spec_year() == other.spec_year() && self.spec_month() == other.spec_month()
            && self.spec_day() < other.spec_day()
    }

    /// Whether `self` falls on or before `other`.
    pub open spec fn not_after(self, other: Date) -> bool {
        self.precedes(other) || self == other
    }

    /// Whether two dates fall in the same calendar month of the same year.
    pub open spec fn same_month(self, other: Date) -> bool {
        self.spec_year() == other.spec_year() && self.spec_month() == other.spec_month()
    }

    /// Equal dates agree on year, month and day, and the other way round.
    pub proof fn lemma_eq_fields(a: Date, b: Date)
        ensures
            (a == b) <==> (a.spec_year() == b.spec_year() && a.spec_month()
                == b.spec_month() && a.spec_day() == b.spec_day()),
    {
    }

    /// Makes the date year-month-day, or `None` where that day does not exist.
    pub fn from_ymd_opt(year: i32, month: u32, day: u32) -> (date: Option<Date>)
        ensures
            date is Some <==> valid_ymd(year as int, month as int, day as int),
            date matches Some(d) ==> d.spec_year() == year && d.spec_month() == month
                && d.spec_day() == day,
    {
        if chrono_date_exists(year, month, day) {
            Some(Date { year, month, day })
        } else {
            None
        }
    }

    pub fn year(&self) -> (year: i32)
        ensures
            year == self.spec_year(),
            MIN_YEAR <= year <= MAX_YEAR,
    {
        proof {
            use_type_invariant(self);
        }
        self.year
    }

    pub fn month(&self) -> (month: u32)
        ensures
            month == self.spec_month(),
            1 <= month <= 12,
    {
        proof {
            use_type_invariant(self);
        }
        self.month
    }

    pub fn day(&self) -> (day: u32)
        ensures
            day == self.spec_day(),
            1 <= day <= spec_days_in_month(self.spec_year(), self.spec_month()),
    {
        proof {
            use_type_invariant(self);
        }
        self.day
    }

    /// Whether `self` falls strictly before `other`.
    pub fn is_before(&self, other: &Date) -> (before: bool)
        ensures
            before == self.precedes(*other),
    {
        self.year < other.year || (self.year == other.year && (self.month < other.month || (
        self.month == other.month && self.day < other.day)))
    }

    /// Whether `self` falls on or before `other`.
    pub fn is_not_after(&self, other: &Date) -> (not_after: bool)
        ensures
            not_after == self.not_after(*other),
    {
        !other.is_before(self)
    }
}

impl Date {
    /// Whether this is the earliest date the calendar supports.
    pub open spec fn is_first_supported(self) -> bool {
        self.spec_year() == MIN_YEAR && self.spec_month() == 1 && self.spec_day() == 1
    }

    /// Whether `self` is the calendar day right before `next`.
    pub open spec fn is_day_before(self, next: Date) -> bool {
        if next.spec_day() > 1 {
            self.spec_year() == next.spec_year() && self.spec_month() == next.spec_month()
                && self.spec_day() == next.spec_day() - 1
        } else if next.spec_month() > 1 {
            self.spec_year() == next.spec_year() && self.spec_month() == next.spec_month() - 1
                && self.spec_day() == spec_days_in_month(next.spec_year(), next.spec_month() - 1)
        } else {
            self.spec_year() == next.spec_year() - 1 && self.spec_month() == 12 && self.spec_day()
                == 31
        }
    }

    /// The previous calendar day, or `None` for the earliest supported date.
    pub fn pred_opt(&self) -> (prev: Option<Date>)
        ensures
            prev is None <==> self.is_first_supported(),
            prev matches Some(p) ==> p.is_day_before(*self),
    {
        proof {
            use_type_invariant(self);
        }
        if self.day > 1 {
            Date::from_ymd_opt(self.year, self.month, self.day - 1)
        } else if self.month > 1 {
            let last = days_in_month(self.year, self.month - 1);
            Date::from_ymd_opt(self.year, self.month - 1, last)
        } else if self.year > MIN_YEAR {
            Date::from_ymd_opt(self.year - 1, 12, 31)
        } else {
            None
        }
    }
}

/// Dates are totally ordered by `precedes`.
pub proof fn lemma_date_order(a: Date, b: Date, c: Date)
    ensures
        !a.precedes(a),
        a.precedes(b) ==> !b.precedes(a),
        a.precedes(b) || a == b || b.precedes(a),
        a.precedes(b) && b.precedes(c) ==> a.precedes(c),
{
    Date::lemma_eq_fields(a, b);
    Date::lemma_eq_fields(a, c);
    Date::lemma_eq_fields(b, c);
}

/// Month index counting from year 0, month 1.
pub open spec fn month_index(year: int, month: int) -> int {
    year * 12 + (month - 1)
}

/// `months` read as a signed 32-bit count, the way the calendar arithmetic takes it.
pub open spec fn month_shift(months: u32) -> int {
    if months <= 0x7fff_ffff {
        months as int
    } else {
        months as int - 0x1_0000_0000
    }
}

/// The month that lies `months` calendar months after the month of `date`.
pub open spec fn shifted_index(date: Date, months: u32) -> int {
    month_index(date.spec_year(), date.spec_month()) + month_shift(months)
}

/// Whether shifting `date` by `months` stays within the supported years.
pub open spec fn add_months_in_range(date: Date, months: u32) -> bool {
    MIN_YEAR <= shifted_index(date, months) / 12 <= MAX_YEAR
}

/// Moves `date` forward by `months` calendar months; a day that the target month does
/// not have becomes that month's last day (2024-02-29 plus 12 months is 2025-02-28).
pub fn add_months(date: Date, months: u32) -> (shifted: Date)
    requires
        add_months_in_range(date, months),
    ensures
        shifted.spec_year() == shifted_index(date, months) / 12,
        shifted.spec_month() == shifted_index(date, months) % 12 + 1,
        shifted.spec_day() == if date.spec_day() <= spec_days_in_month(
            shifted.spec_year(),
            shifted.spec_month(),
        ) {
            date.spec_day()
        } else {
            spec_days_in_month(shifted.spec_year(), shifted.spec_month())
        },
{
    let year0 = date.year() as i64;
    let month0 = (date.month() - 1) as i64;
    let shift: i64 = if months <= 0x7fff_ffff {
        months as i64
    } else {
        months as i64 - 0x1_0000_0000
    };
    let index: i64 = year0 * 12 + month0 + shift;
    // Shifting by a multiple of 12 keeps the division exact and non-negative.
    let offset: i64 = 12 * 0x1000_0000;
    let shifted_index = (index + offset) as u64;
    let year_wide: i64 = (shifted_index / 12) as i64 - 0x1000_0000;
    let month_wide: i64 = (shifted_index % 12) as i64;
    assert(year_wide == index / 12 && month_wide == index % 12) by (nonlinear_arith)
        requires
            shifted_index == index + offset,
            offset == 12 * 0x1000_0000,
            year_wide == shifted_index / 12 - 0x1000_0000,
            month_wide == shifted_index % 12,
            shifted_index >= 0,
    ;
    let year = year_wide as i32;
    let month = (month_wide + 1) as u32;
    let last_day = days_in_month(year, month);
    let day = if date.day() <= last_day {
        date.day()
    } else {
        last_day
    };
    match Date::from_ymd_opt(year, month, day) {
        Some(shifted) => shifted,
        None => {
            assert(false);
            date
        },
    }
}

/// The year as ISO 8601 writes it: four digits from 0 to 9999, else a sign and at
/// least four digits.
pub open spec fn iso_year(year: int) -> Seq<char> {
    if 0 <= year <= 9999 {
        zero_padded(year as nat, 4)
    } else if year < 0 {
        seq!['-'] + zero_padded((-year) as nat, 4)
    } else {
        seq!['+'] + zero_padded(year as nat, 4)
    }
}

/// A date as `YYYY-MM-DD`, the way chrono's `NaiveDate` displays it.
pub open spec fn iso_date(date: Date) -> Seq<char> {
    iso_year(date.spec_year()) + seq!['-'] + zero_padded(date.spec_month() as nat, 2) + seq![
        '-',
    ] + zero_padded(date.spec_day() as nat, 2)
}

impl Date {
    /// The date as `YYYY-MM-DD`.
    pub fn iso_text(&self) -> (text: String)
        ensures
            text@ == iso_date(*self),
    {
        let year = self.year();
        let mut text = String::new();
        if year < 0 {
            push_char(&mut text, '-');
            push_zero_padded(&mut text, (-year) as u64, 4);
        } else if year > 9999 {
            push_char(&mut text, '+');
            push_zero_padded(&mut text, year as u64, 4);
        } else {
            push_zero_padded(&mut text, year as u64, 4);
        }
        assert(text@ =~= iso_year(self.spec_year()));
        push_char(&mut text, '-');
        push_zero_padded(&mut text, self.month() as u64, 2);
        push_char(&mut text, '-');
        push_zero_padded(&mut text, self.day() as u64, 2);
        assert(text@ =~= iso_date(*self));
        text
    }
}

} // verus!
