//! Calendar dates of the proleptic Gregorian calendar.
//!
//! The rules that decide which dates exist, which date follows which and
//! on which day of the week a date falls are stated here as short spec
//! functions. The dates themselves come from
//! `chrono`: the two functions at the end of this file hand plain numbers to
//! it and take plain numbers back.

use vstd::prelude::*;

verus! {

/// Day of the week.
#[derive(Clone, Copy, Debug, PartialEq, Eq, Structural)]
pub enum Weekday {
    Mon,
    Tue,
    Wed,
    Thu,
    Fri,
    Sat,
    Sun,
}

/// The greatest year a [`CalendarDate`] can lie in.
pub const MAX_YEAR: i32 = 65_535;

/// A year is a leap year when it is divisible by 4, but not by 100 unless
/// also by 400.
pub open spec fn is_leap_year(year: int) -> bool {
    year % 4 == 0 && (year % 100 != 0 || year % 400 == 0)
}

/// Number of days of a month (1 to 12) of a year; 0 for any other month.
pub open spec fn days_in_month(year: int, month: int) -> int {
    if month == 2 {
        if is_leap_year(year) {
            29
        } else {
            28
        }
    } else if month == 4 || month == 6 || month == 9 || month == 11 {
        30
    } else if 1 <= month <= 12 {
        31
    } else {
        0
    }
}

/// Number of days of a year: 366 in a leap year, else 365.
pub open spec fn days_in_year(year: int) -> int {
    if is_leap_year(year) {
        366
    } else {
        365
    }
}

/// Whether `month` and `day` name a day that exists in `year`.
pub open spec fn valid_ymd(year: int, month: int, day: int) -> bool {
    1 <= month <= 12 && 1 <= day <= days_in_month(year, month)
}

/// Whether a [`CalendarDate`] can hold this date.
pub open spec fn supported_ymd(year: int, month: int, day: int) -> bool {
    0 <= year <= MAX_YEAR && valid_ymd(year, month, day)
}

/// Number of days of `year` that lie before the first of `month`.
pub open spec fn days_before_month(year: int, month: int) -> int
    decreases month,
{
    if month <= 1 {
        0
    } else {
        days_before_month(year, month - 1) + days_in_month(year, month - 1)
    }
}

/// Position of a day within its year, counted from 1 for the first of
/// January.
pub open spec fn day_of_year(year: int, month: int, day: int) -> int {
    days_before_month(year, month) + day
}

/// The calendar day that follows the given one.
pub open spec fn next_ymd(year: int, month: int, day: int) -> (int, int, int) {
    if day < days_in_month(year, month) {
        (year, month, day + 1)
    } else if month < 12 {
        (year, month + 1, 1)
    } else {
        (year + 1, 1, 1)
    }
}

/// Number of leap years among the years from 0 up to, but without, `year`.
pub open spec fn leap_years_before(year: int) -> int {
    if year <= 0 {
        0
    } else {
        (year + 3) / 4 - (year + 99) / 100 + (year + 399) / 400
    }
}

/// Number of days from the first of January of the year 0 to a day of a
/// year from 0 onwards.
pub open spec fn day_number(year: int, month: int, day: int) -> int {
    365 * year + leap_years_before(year) + day_of_year(year, month, day) - 1
}

/// The day of the week that stands the given number of days after a
/// Monday.
pub open spec fn weekday_after_monday(days: int) -> Weekday {
    let rest = days % 7;
    if rest == 0 {
        Weekday::Mon
    } else if rest == 1 {
        Weekday::Tue
    } else if rest == 2 {
        Weekday::Wed
    } else if rest == 3 {
        Weekday::Thu
    } else if rest == 4 {
        Weekday::Fri
    } else if rest == 5 {
        Weekday::Sat
    } else {
        Weekday::Sun
    }
}

/// The day of the week that follows the given one.
pub open spec fn weekday_following(weekday: Weekday) -> Weekday {
    match weekday {
        Weekday::Mon => Weekday::Tue,
        Weekday::Tue => Weekday::Wed,
        Weekday::Wed => Weekday::Thu,
        Weekday::Thu => Weekday::Fri,
        Weekday::Fri => Weekday::Sat,
        Weekday::Sat => Weekday::Sun,
        Weekday::Sun => Weekday::Mon,
    }
}

/// The day of the week on which a date of a year from 0 onwards falls. The
/// first of January of the year 0 was a Saturday, five days after a
/// Monday, and the days of the week follow one another without a gap.
pub open spec fn weekday_of(year: int, month: int, day: int) -> Weekday {
    weekday_after_monday(day_number(year, month, day) + 5)
}

/// A date of the calendar together with its day of the week.
#[derive(Clone, Copy, Debug)]
pub struct CalendarDate {
    year: i32,
    month: u32,
    day: u32,
    weekday: Weekday,
}

impl CalendarDate {
    /// The year of this date.
    pub closed spec fn spec_year(self) -> int {
        self.year as int
    }

    /// The month of this date, 1 to 12.
    pub closed spec fn spec_month(self) -> int {
        self.month as int
    }

    /// The day of the month of this date, counted from 1.
    pub closed spec fn spec_day(self) -> int {
        self.day as int
    }

    /// The day of the week of this date.
    pub closed spec fn spec_weekday(self) -> Weekday {
        self.weekday
    }

    /// Year, month and day as one value.
    pub open spec fn ymd(self) -> (int, int, int) {
        (self.spec_year(), self.spec_month(), self.spec_day())
    }

    /// Position of this date within its year, counted from 1.
    pub open spec fn ordinal(self) -> int {
        day_of_year(self.spec_year(), self.spec_month(), self.spec_day())
    }

    /// A date is well formed when it exists, lies in a supported year and
    /// carries the day of the week on which it falls.
    #[verifier::type_invariant]
    pub open spec fn wf(self) -> bool {
        &&& supported_ymd(self.spec_year(), self.spec_month(), self.spec_day())
        &&& self.spec_weekday() == weekday_of(self.spec_year(), self.spec_month(), self.spec_day())
    }

    /// The date of the given year, month and day, if there is such a day and
    /// the year is supported.
    pub fn from_ymd(year: i32, month: u32, day: u32) -> (date: Option<CalendarDate>)
        ensures
            date is Some <==> supported_ymd(year as int, month as int, day as int),
            date matches Some(d) ==> d.ymd() == (year as int, month as int, day as int) && d.wf(),
    {
        if year < 0 || year > MAX_YEAR {
            return None;
        }
        match weekday_on(year, month, day) {
            Some(weekday) => Some(CalendarDate { year, month, day, weekday }),
            None => None,
        }
    }

    /// The day after this one, which falls on the day of the week that
    /// follows, or `None` after the last day of the last supported year.
    pub fn succ(&self) -> (next: Option<CalendarDate>)
        ensures
            next is Some <==> self.ymd() != (MAX_YEAR as int, 12int, 31int),
            next matches Some(d) ==> d.wf() && d.ymd() == next_ymd(
                self.spec_year(),
                self.spec_month(),
                self.spec_day(),
            ),
            next matches Some(d) ==> d.spec_weekday() == weekday_following(self.spec_weekday()),
    {
        proof {
            use_type_invariant(self);
            lemma_next_ymd(self.spec_year(), self.spec_month(), self.spec_day());
            lemma_weekday_follows(self.spec_year(), self.spec_month(), self.spec_day());
        }
        match day_after(self.year, self.month, self.day) {
            Some((year, month, day)) => CalendarDate::from_ymd(year, month, day),
            None => None,
        }
    }

    /// The year of this date.
    pub fn year(&self) -> (year: i32)
        ensures
            year == self.spec_year(),
    {
        self.year
    }

    /// The month of this date, 1 to 12.
    pub fn month(&self) -> (month: u32)
        ensures
            month == self.spec_month(),
    {
        self.month
    }

    /// The day of the month of this date, counted from 1.
    pub fn day(&self) -> (day: u32)
        ensures
            day == self.spec_day(),
    {
        self.day
    }

    /// The day of the week of this date.
    pub fn weekday(&self) -> (weekday: Weekday)
        ensures
            weekday == self.spec_weekday(),
    {
        self.weekday
    }
}

/// A date is determined by its year, month and day and its day of the
/// week.
pub proof fn lemma_date_determined(a: CalendarDate, b: CalendarDate)
    requires
        a.ymd() == b.ymd(),
        a.spec_weekday() == b.spec_weekday(),
    ensures
        a == b,
{
}

/// The month table: how many days of a year lie before each month.
pub proof fn lemma_days_before_month(year: int)
    ensures
        days_before_month(year, 1) == 0,
        days_before_month(year, 2) == 31,
        days_before_month(year, 3) == days_in_year(year) - 306,
        days_before_month(year, 4) == days_in_year(year) - 275,
        days_before_month(year, 5) == days_in_year(year) - 245,
        days_before_month(year, 6) == days_in_year(year) - 214,
        days_before_month(year, 7) == days_in_year(year) - 184,
        days_before_month(year, 8) == days_in_year(year) - 153,
        days_before_month(year, 9) == days_in_year(year) - 122,
        days_before_month(year, 10) == days_in_year(year) - 92,
        days_before_month(year, 11) == days_in_year(year) - 61,
        days_before_month(year, 12) == days_in_year(year) - 31,
        days_before_month(year, 13) == days_in_year(year),
{
    reveal_with_fuel(days_before_month, 14);
}

/// A day that exists has a position from 1 to the length of its year, and
/// only the 31st of December has the last one.
pub proof fn lemma_day_of_year_bounds(year: int, month: int, day: int)
    requires
        valid_ymd(year, month, day),
    ensures
        1 <= day_of_year(year, month, day) <= days_in_year(year),
        day_of_year(year, month, day) == days_in_year(year) <==> (month == 12 && day == 31),
        day_of_year(year, month, day) == 1 <==> (month == 1 && day == 1),
        days_before_month(year, month) < day_of_year(year, month, day) <= days_before_month(
            year,
            month + 1,
        ),
{
    lemma_days_before_month(year);
}

/// The day after a day that exists also exists; it is the first of January
/// of the next year after the 31st of December, and otherwise the day of
/// the same year whose position is one greater.
pub proof fn lemma_next_ymd(year: int, month: int, day: int)
    requires
        valid_ymd(year, month, day),
    ensures
        ({
            let next = next_ymd(year, month, day);
            &&& valid_ymd(next.0, next.1, next.2)
            &&& (month == 12 && day == 31) ==> next == (year + 1, 1int, 1int)
            &&& !(month == 12 && day == 31) ==> next.0 == year && day_of_year(
                next.0,
                next.1,
                next.2,
            ) == day_of_year(year, month, day) + 1
        }),
{
    lemma_days_before_month(year);
}

/// One more multiple of 4 lies below `year + 1` than below `year` exactly
/// when `year` is one.
proof fn lemma_count_by_4(year: int)
    requires
        0 <= year,
    ensures
        (year + 4) / 4 == (year + 3) / 4 + if year % 4 == 0 {
            1int
        } else {
            0int
        },
{
}

/// One more multiple of 100 lies below `year + 1` than below `year`
/// exactly when `year` is one, and a multiple of 100 is one of 4.
proof fn lemma_count_by_100(year: int)
    requires
        0 <= year,
    ensures
        (year + 100) / 100 == (year + 99) / 100 + if year % 100 == 0 {
            1int
        } else {
            0int
        },
        year % 100 == 0 ==> year % 4 == 0,
{
}

/// One more multiple of 400 lies below `year + 1` than below `year`
/// exactly when `year` is one, and a multiple of 400 is one of 100.
proof fn lemma_count_by_400(year: int)
    requires
        0 <= year,
    ensures
        (year + 400) / 400 == (year + 399) / 400 + if year % 400 == 0 {
            1int
        } else {
            0int
        },
        year % 400 == 0 ==> year % 100 == 0,
{
}

/// A year has one leap year more before its end than before its start
/// exactly when it is a leap year itself.
pub proof fn lemma_leap_years_before(year: int)
    requires
        0 <= year,
    ensures
        leap_years_before(year + 1) == leap_years_before(year) + if is_leap_year(year) {
            1int
        } else {
            0int
        },
        365 * (year + 1) + leap_years_before(year + 1) == 365 * year + leap_years_before(year)
            + days_in_year(year),
{
    lemma_count_by_4(year);
    lemma_count_by_100(year);
    lemma_count_by_400(year);
    let fours = (year + 3) / 4;
    let hundreds = (year + 99) / 100;
    let four_hundreds = (year + 399) / 400;
    if year == 0 {
        assert(leap_years_before(1) == 1);
    } else {
        assert(leap_years_before(year) == fours - hundreds + four_hundreds);
        assert(leap_years_before(year + 1) == (year + 4) / 4 - (year + 100) / 100 + (year + 400)
            / 400);
    }
}

/// The day after a day has the next number, also across the end of a
/// month or of a year.
pub proof fn lemma_day_number_next(year: int, month: int, day: int)
    requires
        0 <= year,
        valid_ymd(year, month, day),
    ensures
        ({
            let next = next_ymd(year, month, day);
            day_number(next.0, next.1, next.2) == day_number(year, month, day) + 1
        }),
{
    lemma_next_ymd(year, month, day);
    if month == 12 && day == 31 {
        lemma_day_of_year_bounds(year, month, day);
        lemma_leap_years_before(year);
        assert(day_of_year(year + 1, 1, 1) == 1) by {
            lemma_days_before_month(year + 1);
        }
    }
}

/// One day later it is the day of the week that follows.
pub proof fn lemma_weekday_step(days: int)
    ensures
        weekday_after_monday(days + 1) == weekday_following(weekday_after_monday(days)),
{
    let rest = days % 7;
    assert((days + 1) % 7 == if rest == 6 {
        0int
    } else {
        rest + 1
    });
}

/// The day after a day falls on the day of the week that follows, also
/// across the end of a month or of a year.
pub proof fn lemma_weekday_follows(year: int, month: int, day: int)
    requires
        0 <= year,
        valid_ymd(year, month, day),
    ensures
        ({
            let next = next_ymd(year, month, day);
            weekday_of(next.0, next.1, next.2) == weekday_following(weekday_of(year, month, day))
        }),
{
    lemma_day_number_next(year, month, day);
    lemma_weekday_step(day_number(year, month, day) + 5);
}

/// Within one year, two days that exist and have the same position are the
/// same day, and the earlier of two days has the smaller position.
pub proof fn lemma_day_of_year_orders(year: int, m1: int, d1: int, m2: int, d2: int)
    requires
        valid_ymd(year, m1, d1),
        valid_ymd(year, m2, d2),
    ensures
        day_of_year(year, m1, d1) == day_of_year(year, m2, d2) <==> (m1 == m2 && d1 == d2),
        day_of_year(year, m1, d1) < day_of_year(year, m2, d2) <==> (m1 < m2 || (m1 == m2 && d1
            < d2)),
{
    lemma_days_before_month(year);
}

/// Calls `chrono::NaiveDate::from_ymd_opt` and then `weekday` on the result.
///
/// Trusted: `chrono` has a date for exactly the days that exist (its range
/// of years is far wider than the one admitted here), and the day of the
/// week it reports is the one that [`weekday_of`] computes from the number
/// of days since the first of January of the year 0.
#[verifier::external_body]
fn weekday_on(year: i32, month: u32, day: u32) -> (weekday: Option<Weekday>)
    requires
        0 <= year <= MAX_YEAR,
    ensures
        weekday is Some <==> valid_ymd(year as int, month as int, day as int),
        weekday matches Some(w) ==> w == weekday_of(year as int, month as int, day as int),
{
    let date = chrono::NaiveDate::from_ymd_opt(year, month, day)?;
    Some(
        match chrono::Datelike::weekday(&date) {
            chrono::Weekday::Mon => Weekday::Mon,
            chrono::Weekday::Tue => Weekday::Tue,
            chrono::Weekday::Wed => Weekday::Wed,
            chrono::Weekday::Thu => Weekday::Thu,
            chrono::Weekday::Fri => Weekday::Fri,
            chrono::Weekday::Sat => Weekday::Sat,
            chrono::Weekday::Sun => Weekday::Sun,
        },
    )
}

/// Calls `chrono::NaiveDate::from_ymd_opt` and then `succ_opt` on the result.
///
/// Trusted: for a day that exists, `chrono` gives the next calendar day,
/// which is the day that [`next_ymd`] states.
#[verifier::external_body]
fn day_after(year: i32, month: u32, day: u32) -> (after: Option<(i32, u32, u32)>)
    requires
        0 <= year <= MAX_YEAR,
        valid_ymd(year as int, month as int, day as int),
    ensures
        after is Some,
        after matches Some(n) ==> (n.0 as int, n.1 as int, n.2 as int) == next_ymd(
            year as int,
            month as int,
            day as int,
        ),
{
    let next = chrono::NaiveDate::from_ymd_opt(year, month, day)?.succ_opt()?;
    Some(
        (
            chrono::Datelike::year(&next),
            chrono::Datelike::month(&next),
            chrono::Datelike::day(&next),
        ),
    )
}

} // verus!
