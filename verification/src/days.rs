//! Days of a year, each with the kind of work day it is.

use crate::calendar::{
    day_of_year, days_before_month, days_in_month, days_in_year, is_leap_year,
    lemma_date_determined, lemma_day_of_year_bounds, lemma_day_of_year_orders,
    lemma_days_before_month, lemma_next_ymd, next_ymd, valid_ymd, weekday_of, CalendarDate,
    Weekday,
};
use crate::error::EngineError;
use crate::holidays::HolidayDates;
use vstd::prelude::*;
use vstd::string::StringExecFns;

verus! {

/// The first year for which the holiday source has data.
pub const MIN_YEAR: u16 = 2017;

/// The kind of work day a date is.
#[derive(Clone, Copy, Debug, PartialEq, Eq, Structural)]
pub enum DayType {
    /// An ordinary working day.
    Usual,
    /// A Saturday or a holiday: hours worked draw a bonus.
    Earn,
    /// A Sunday.
    Weekend,
}

/// The season a month belongs to.
#[derive(Clone, Copy, Debug, PartialEq, Eq, Structural)]
pub enum Season {
    Winter,
    Spring,
    Summer,
    Autumn,
}

/// The kind of a day, from its day of the week and from whether it is a
/// holiday: a Sunday is a weekend day whatever else it is; a Saturday or a
/// holiday draws a bonus; any other day is usual.
pub open spec fn classify_day(weekday: Weekday, holiday: bool) -> DayType {
    if weekday == Weekday::Sun {
        DayType::Weekend
    } else if weekday == Weekday::Sat || holiday {
        DayType::Earn
    } else {
        DayType::Usual
    }
}

/// The season of a month.
pub open spec fn season_of(month: int) -> Season {
    if month == 3 || month == 4 || month == 5 {
        Season::Spring
    } else if month == 6 || month == 7 || month == 8 {
        Season::Summer
    } else if month == 9 || month == 10 || month == 11 {
        Season::Autumn
    } else {
        Season::Winter
    }
}

/// The two-letter name of a day of the week.
pub open spec fn weekday_short_text(weekday: Weekday) -> Seq<char> {
    match weekday {
        Weekday::Mon => "Пн"@,
        Weekday::Tue => "Вт"@,
        Weekday::Wed => "Ср"@,
        Weekday::Thu => "Чт"@,
        Weekday::Fri => "Пт"@,
        Weekday::Sat => "Сб"@,
        Weekday::Sun => "Вс"@,
    }
}

/// The name under which a month's sheet is shown.
pub open spec fn month_name_text(month: int) -> Seq<char> {
    if month == 1 {
        "❄️ Январь"@
    } else if month == 2 {
        "🌨️ Февраль"@
    } else if month == 3 {
        "🌱 Март"@
    } else if month == 4 {
        "🌸 Апрель"@
    } else if month == 5 {
        "🌿 Май"@
    } else if month == 6 {
        "☀️ Июнь"@
    } else if month == 7 {
        "🏖️ Июль"@
    } else if month == 8 {
        "🍉 Август"@
    } else if month == 9 {
        "🍂 Сентябрь"@
    } else if month == 10 {
        "🍁 Октябрь"@
    } else if month == 11 {
        "🌧️ Ноябрь"@
    } else if month == 12 {
        "🎄 Декабрь"@
    } else {
        "❓ Неизвестный месяц"@
    }
}

/// Decides the kind of a date, given the holidays of its year.
pub fn classify(date: &CalendarDate, holidays: &HolidayDates) -> (kind: DayType)
    ensures
        kind == classify_day(date.spec_weekday(), holidays@.contains(date.ymd())),
        kind == DayType::Weekend <==> date.spec_weekday() == Weekday::Sun,
        kind == DayType::Earn <==> date.spec_weekday() != Weekday::Sun && (date.spec_weekday()
            == Weekday::Sat || holidays@.contains(date.ymd())),
        kind == DayType::Usual <==> date.spec_weekday() != Weekday::Sun && date.spec_weekday()
            != Weekday::Sat && !holidays@.contains(date.ymd()),
{
    let weekday = date.weekday();
    if weekday == Weekday::Sun {
        DayType::Weekend
    } else if weekday == Weekday::Sat || holidays.contains(date) {
        DayType::Earn
    } else {
        DayType::Usual
    }
}

/// A date with the kind of work day it is.
#[derive(Clone, Copy, Debug)]
pub struct Day {
    day: CalendarDate,
    flag: DayType,
}

impl Day {
    /// The date of this day.
    pub closed spec fn date(self) -> CalendarDate {
        self.day
    }

    /// The kind of this day.
    pub closed spec fn flag(self) -> DayType {
        self.flag
    }

    /// A day is well formed when its date is.
    #[verifier::type_invariant]
    pub open spec fn wf(self) -> bool {
        self.date().wf()
    }

    /// The day of the given date and kind.
    pub fn new(day: CalendarDate, flag: DayType) -> (made: Day)
        ensures
            made.date() == day,
            made.flag() == flag,
    {
        proof {
            use_type_invariant(&day);
        }
        Day { day, flag }
    }

    /// The date of this day.
    pub fn calendar_date(&self) -> (date: CalendarDate)
        ensures
            date == self.date(),
    {
        self.day
    }

    /// The year of this day.
    pub fn year(&self) -> (year: i32)
        ensures
            year == self.date().spec_year(),
    {
        self.day.year()
    }

    /// The kind of this day.
    pub fn earn_type(&self) -> (flag: DayType)
        ensures
            flag == self.flag(),
    {
        self.flag
    }

    /// The day of the month, counted from 1.
    pub fn number(&self) -> (number: u32)
        ensures
            number == self.date().spec_day(),
            1 <= number <= 31,
    {
        proof {
            use_type_invariant(self);
        }
        self.day.day()
    }

    /// The two-letter name of this day's day of the week.
    pub fn weekday_short(&self) -> (name: String)
        ensures
            name@ == weekday_short_text(self.date().spec_weekday()),
    {
        match self.day.weekday() {
            Weekday::Mon => String::from_str("Пн"),
            Weekday::Tue => String::from_str("Вт"),
            Weekday::Wed => String::from_str("Ср"),
            Weekday::Thu => String::from_str("Чт"),
            Weekday::Fri => String::from_str("Пт"),
            Weekday::Sat => String::from_str("Сб"),
            Weekday::Sun => String::from_str("Вс"),
        }
    }

    /// The name under which this day's month is shown.
    pub fn month_name(&self) -> (name: String)
        ensures
            name@ == month_name_text(self.date().spec_month()),
    {
        match self.day.month() {
            1 => String::from_str("❄️ Январь"),
            2 => String::from_str("🌨️ Февраль"),
            3 => String::from_str("🌱 Март"),
            4 => String::from_str("🌸 Апрель"),
            5 => String::from_str("🌿 Май"),
            6 => String::from_str("☀️ Июнь"),
            7 => String::from_str("🏖️ Июль"),
            8 => String::from_str("🍉 Август"),
            9 => String::from_str("🍂 Сентябрь"),
            10 => String::from_str("🍁 Октябрь"),
            11 => String::from_str("🌧️ Ноябрь"),
            12 => String::from_str("🎄 Декабрь"),
            _ => String::from_str("❓ Неизвестный месяц"),
        }
    }

    /// The season of this day's month.
    pub fn season(&self) -> (season: Season)
        ensures
            season == season_of(self.date().spec_month()),
    {
        match self.day.month() {
            1 | 2 | 12 => Season::Winter,
            3 | 4 | 5 => Season::Spring,
            6 | 7 | 8 => Season::Summer,
            9 | 10 | 11 => Season::Autumn,
            _ => Season::Winter,
        }
    }
}

/// Whether each day of `days` but the first is the calendar day after the
/// one before it.
pub open spec fn is_consecutive(days: Seq<Day>) -> bool {
    forall|i: int|
        0 <= i < days.len() - 1 ==> (#[trigger] days[i + 1]).date().ymd() == next_ymd(
            days[i].date().spec_year(),
            days[i].date().spec_month(),
            days[i].date().spec_day(),
        )
}

/// Whether `days` holds every day of `year` once, from the first of January
/// to the 31st of December, each with the kind that the holidays give it.
pub open spec fn is_year_calendar(
    days: Seq<Day>,
    year: int,
    holidays: Set<(int, int, int)>,
) -> bool {
    &&& days.len() == days_in_year(year)
    &&& forall|i: int|
        0 <= i < days.len() ==> {
            let date = (#[trigger] days[i]).date();
            &&& date.wf()
            &&& date.spec_year() == year
            &&& date.ordinal() == i + 1
            &&& days[i].flag() == classify_day(date.spec_weekday(), holidays.contains(date.ymd()))
        }
}

/// Whether the date `a` lies before the date `b`.
pub open spec fn ymd_before(a: (int, int, int), b: (int, int, int)) -> bool {
    a.0 < b.0 || (a.0 == b.0 && (a.1 < b.1 || (a.1 == b.1 && a.2 < b.2)))
}

/// A year's calendar has 365 days, or 366 exactly when the year is a leap
/// year. It starts on the first of January and ends on the 31st of
/// December. Each day but the first is the calendar day after the one
/// before it, so there is no gap; dates ascend, so none occurs twice; and
/// every day of the year stands at the position that its place in the year
/// gives it.
pub proof fn lemma_year_calendar_is_complete(
    days: Seq<Day>,
    year: int,
    holidays: Set<(int, int, int)>,
)
    requires
        is_year_calendar(days, year, holidays),
    ensures
        days.len() == 365 || days.len() == 366,
        days.len() == 366 <==> is_leap_year(year),
        days.first().date().ymd() == (year, 1int, 1int),
        days.last().date().ymd() == (year, 12int, 31int),
        is_consecutive(days),
        forall|i: int, j: int|
            0 <= i < j < days.len() ==> ymd_before(
                (#[trigger] days[i]).date().ymd(),
                (#[trigger] days[j]).date().ymd(),
            ),
        forall|month: int, day: int|
            valid_ymd(year, month, day) ==> 1 <= #[trigger] day_of_year(year, month, day)
                <= days.len() && days[day_of_year(year, month, day) - 1].date().ymd() == (
                year,
                month,
                day,
            ),
{
    let first = days.first().date();
    lemma_day_of_year_bounds(year, first.spec_month(), first.spec_day());
    let last = days.last().date();
    lemma_day_of_year_bounds(year, last.spec_month(), last.spec_day());
    assert forall|i: int| 0 <= i < days.len() - 1 implies (#[trigger] days[i + 1]).date().ymd()
        == next_ymd(
        days[i].date().spec_year(),
        days[i].date().spec_month(),
        days[i].date().spec_day(),
    ) by {
        let d = days[i].date();
        let e = days[i + 1].date();
        lemma_day_of_year_bounds(year, d.spec_month(), d.spec_day());
        lemma_next_ymd(year, d.spec_month(), d.spec_day());
        let n = next_ymd(year, d.spec_month(), d.spec_day());
        lemma_day_of_year_orders(year, n.1, n.2, e.spec_month(), e.spec_day());
    }
    assert forall|i: int, j: int| 0 <= i < j < days.len() implies ymd_before(
        (#[trigger] days[i]).date().ymd(),
        (#[trigger] days[j]).date().ymd(),
    ) by {
        let d = days[i].date();
        let e = days[j].date();
        lemma_day_of_year_orders(year, d.spec_month(), d.spec_day(), e.spec_month(), e.spec_day());
    }
    assert forall|month: int, day: int| valid_ymd(year, month, day) implies 1
        <= #[trigger] day_of_year(year, month, day) <= days.len() && days[day_of_year(
        year,
        month,
        day,
    ) - 1].date().ymd() == (year, month, day) by {
        lemma_day_of_year_bounds(year, month, day);
        let d = days[day_of_year(year, month, day) - 1].date();
        lemma_day_of_year_orders(year, month, day, d.spec_month(), d.spec_day());
    }
}

/// A day is determined by its date and its kind.
pub proof fn lemma_day_determined(a: Day, b: Day)
    requires
        a.date() == b.date(),
        a.flag() == b.flag(),
    ensures
        a == b,
{
}

/// There is one calendar only of a year with given holidays.
pub proof fn lemma_year_calendar_unique(
    a: Seq<Day>,
    b: Seq<Day>,
    year: int,
    holidays: Set<(int, int, int)>,
)
    requires
        is_year_calendar(a, year, holidays),
        is_year_calendar(b, year, holidays),
    ensures
        a == b,
{
    assert forall|i: int| 0 <= i < a.len() implies a[i] == b[i] by {
        let d = a[i].date();
        let e = b[i].date();
        lemma_day_of_year_orders(year, d.spec_month(), d.spec_day(), e.spec_month(), e.spec_day());
        lemma_date_determined(d, e);
        lemma_day_determined(a[i], b[i]);
    }
    assert(a =~= b);
}

/// The calendar of a year with given holidays: every day of the year once,
/// from the first of January to the 31st of December, each with the kind
/// that the holidays give it.
pub open spec fn year_calendar(year: int, holidays: Set<(int, int, int)>) -> Seq<Day> {
    choose|days: Seq<Day>| is_year_calendar(days, year, holidays)
}

/// A calendar of a year with given holidays is the calendar of that year:
/// [`year_calendar`] picks it, as there is no other.
pub proof fn lemma_year_calendar_is(days: Seq<Day>, year: int, holidays: Set<(int, int, int)>)
    requires
        is_year_calendar(days, year, holidays),
    ensures
        is_year_calendar(year_calendar(year, holidays), year, holidays),
        year_calendar(year, holidays) == days,
{
    let picked = choose|picked: Seq<Day>| is_year_calendar(picked, year, holidays);
    assert(is_year_calendar(picked, year, holidays));
    assert(picked == year_calendar(year, holidays));
    lemma_year_calendar_unique(days, picked, year, holidays);
}

/// A run of consecutive days, in the order of the calendar.
pub struct Days {
    days: Vec<Day>,
}

impl View for Days {
    type V = Seq<Day>;

    closed spec fn view(&self) -> Seq<Day> {
        self.days@
    }
}

impl Days {
    /// Days follow one another without a gap.
    #[verifier::type_invariant]
    pub open spec fn wf(self) -> bool {
        is_consecutive(self@)
    }

    /// All the days of `year`, classified with the holidays given: 365 of
    /// them, or 366 in a leap year, from the first of January to the 31st
    /// of December, each the calendar day after the one before it.
    pub fn new_with_holidays(year: u16, holidays: &HolidayDates) -> (days: Days)
        ensures
            days@ == year_calendar(year as int, holidays@),
            is_year_calendar(days@, year as int, holidays@),
            days@.len() == 365 || days@.len() == 366,
            days@.len() == 366 <==> is_leap_year(year as int),
            days@.first().date().ymd() == (year as int, 1int, 1int),
            days@.last().date().ymd() == (year as int, 12int, 31int),
            is_consecutive(days@),
            forall|i: int, j: int|
                0 <= i < j < days@.len() ==> ymd_before(
                    (#[trigger] days@[i]).date().ymd(),
                    (#[trigger] days@[j]).date().ymd(),
                ),
    {
        let mut days: Vec<Day> = Vec::new();
        let first = CalendarDate::from_ymd(year as i32, 1, 1);
        let mut date = first.unwrap();
        let mut done = false;
        proof {
            lemma_day_of_year_bounds(year as int, 1, 1);
        }
        while !done
            invariant
                days.len() <= days_in_year(year as int),
                done ==> days.len() == days_in_year(year as int),
                !done ==> date.wf() && date.spec_year() == year && date.ordinal() == days.len() + 1,
                !done && days.len() > 0 ==> date.ymd() == next_ymd(
                    days[days.len() - 1].date().spec_year(),
                    days[days.len() - 1].date().spec_month(),
                    days[days.len() - 1].date().spec_day(),
                ),
                is_consecutive(days@),
                forall|i: int|
                    0 <= i < days.len() ==> {
                        let d = (#[trigger] days[i]).date();
                        &&& d.wf()
                        &&& d.spec_year() == year
                        &&& d.ordinal() == i + 1
                        &&& days[i].flag() == classify_day(
                            d.spec_weekday(),
                            holidays@.contains(d.ymd()),
                        )
                    },
            decreases days_in_year(year as int) - days.len() + (if done { 0int } else { 1int }),
        {
            proof {
                lemma_day_of_year_bounds(date.spec_year(), date.spec_month(), date.spec_day());
                lemma_next_ymd(date.spec_year(), date.spec_month(), date.spec_day());
            }
            let ghost before = days@;
            days.push(Day::new(date, classify(&date, holidays)));
            assert(is_consecutive(days@)) by {
                assert forall|i: int| 0 <= i < days.len() - 1 implies (#[trigger] days[i
                    + 1]).date().ymd() == next_ymd(
                    days[i].date().spec_year(),
                    days[i].date().spec_month(),
                    days[i].date().spec_day(),
                ) by {
                    if i < before.len() - 1 {
                        assert(before[i + 1] == days[i + 1]);
                    }
                }
            }
            match date.succ() {
                Some(next) => {
                    if next.year() == year as i32 {
                        date = next;
                    } else {
                        done = true;
                    }
                },
                None => {
                    done = true;
                },
            }
        }
        proof {
            lemma_year_calendar_is_complete(days@, year as int, holidays@);
            lemma_year_calendar_is(days@, year as int, holidays@);
        }
        Days { days }
    }

    /// The given days as a run, if each but the first is the calendar day
    /// after the one before it.
    pub fn from_vec(days: Vec<Day>) -> (run: Option<Days>)
        ensures
            run is Some <==> is_consecutive(days@),
            run matches Some(r) ==> r@ == days@,
    {
        let mut i: usize = 1;
        while i < days.len()
            invariant
                1 <= i,
                forall|k: int|
                    0 <= k < i - 1 && k < days.len() - 1 ==> (#[trigger] days[k + 1]).date().ymd()
                        == next_ymd(
                        days[k].date().spec_year(),
                        days[k].date().spec_month(),
                        days[k].date().spec_day(),
                    ),
            decreases days.len() - i,
        {
            let before = days[i - 1].calendar_date();
            let here = days[i].calendar_date();
            let follows = match before.succ() {
                Some(next) => next.year() == here.year() && next.month() == here.month()
                    && next.day() == here.day(),
                None => false,
            };
            if !follows {
                proof {
                    use_type_invariant(&before);
                    use_type_invariant(&here);
                    assert(days[(i - 1) + 1] == days[i as int]);
                }
                return None;
            }
            proof {
                assert(days[(i - 1) + 1] == days[i as int]);
            }
            i += 1;
        }
        Some(Days { days })
    }

    /// How many days there are.
    pub fn len(&self) -> (len: usize)
        ensures
            len == self@.len(),
    {
        self.days.len()
    }

    /// The day at position `index`, if there is one.
    pub fn get(&self, index: usize) -> (day: Option<Day>)
        ensures
            day == (if index < self@.len() {
                Some(self@[index as int])
            } else {
                None
            }),
    {
        if index < self.days.len() {
            Some(self.days[index])
        } else {
            None
        }
    }
}

/// Whether all the days of `days` lie in the month of the first.
pub open spec fn same_month(days: Seq<Day>) -> bool {
    forall|i: int|
        0 <= i < days.len() ==> (#[trigger] days[i]).date().spec_month()
            == days[0].date().spec_month()
}

/// Whether `groups` cuts `days` into its months: laid end to end the groups
/// give `days` again; no group is empty; the days of a group share one
/// month; and where one group ends and the next begins, the month changes.
pub open spec fn is_month_partition(days: Seq<Day>, groups: Seq<Seq<Day>>) -> bool {
    &&& groups.flatten() == days
    &&& forall|g: int| 0 <= g < groups.len() ==> (#[trigger] groups[g]).len() > 0
    &&& forall|g: int| 0 <= g < groups.len() ==> same_month(#[trigger] groups[g])
    &&& forall|g: int|
        0 <= g < groups.len() - 1 ==> (#[trigger] groups[g]).last().date().spec_month()
            != groups[g + 1].first().date().spec_month()
}

/// Whether `days` is a run of days of one month: there is at least one day,
/// each is a date that exists, each but the first is the calendar day after
/// the one before it, and all lie in one month.
pub open spec fn is_month_run(days: Seq<Day>) -> bool {
    &&& days.len() > 0
    &&& is_consecutive(days)
    &&& same_month(days)
    &&& forall|i: int| 0 <= i < days.len() ==> (#[trigger] days[i]).wf()
}

/// The days of a run of one month lie in one year and are numbered one
/// after the other, so there are at most 31 of them.
pub proof fn lemma_month_run_numbers(days: Seq<Day>)
    requires
        is_month_run(days),
    ensures
        days.len() <= 31,
        forall|i: int|
            0 <= i < days.len() ==> (#[trigger] days[i]).date().ymd() == (
                days[0].date().spec_year(),
                days[0].date().spec_month(),
                days[0].date().spec_day() + i,
            ),
{
    lemma_month_run_numbers_up_to(days, days.len() as int - 1);
    let last = days.last();
    assert(last.wf());
}

proof fn lemma_month_run_numbers_up_to(days: Seq<Day>, k: int)
    requires
        is_month_run(days),
        0 <= k < days.len(),
    ensures
        forall|i: int|
            0 <= i <= k ==> (#[trigger] days[i]).date().ymd() == (
                days[0].date().spec_year(),
                days[0].date().spec_month(),
                days[0].date().spec_day() + i,
            ),
    decreases k,
{
    if k > 0 {
        lemma_month_run_numbers_up_to(days, k - 1);
        let before = days[k - 1];
        let here = days[k - 1 + 1];
        assert(before.wf() && here.wf());
    }
}

/// The months of the given days: the one way to cut them into months.
pub open spec fn months_of(days: Seq<Day>) -> Seq<Seq<Day>> {
    choose|groups: Seq<Seq<Day>>| is_month_partition(days, groups)
}

/// The days of one month, in the order of the calendar.
pub struct MonthGroup {
    days: Vec<Day>,
}

impl View for MonthGroup {
    type V = Seq<Day>;

    closed spec fn view(&self) -> Seq<Day> {
        self.days@
    }
}

/// The groups as sequences of days.
pub open spec fn groups_view(groups: Seq<MonthGroup>) -> Seq<Seq<Day>> {
    groups.map_values(|g: MonthGroup| g@)
}

impl MonthGroup {
    /// A group is not empty, and its days follow one another within one
    /// month.
    #[verifier::type_invariant]
    pub open spec fn wf(self) -> bool {
        is_month_run(self@)
    }

    /// How many days the group has.
    pub fn len(&self) -> (len: usize)
        ensures
            len == self@.len(),
            len > 0,
    {
        proof {
            use_type_invariant(self);
        }
        self.days.len()
    }

    /// The first day of the group.
    pub fn first(&self) -> (day: Day)
        ensures
            day == self@.first(),
    {
        proof {
            use_type_invariant(self);
        }
        self.days[0]
    }

    /// The day at position `index`, if there is one.
    pub fn get(&self, index: usize) -> (day: Option<Day>)
        ensures
            day == (if index < self@.len() {
                Some(self@[index as int])
            } else {
                None
            }),
    {
        if index < self.days.len() {
            Some(self.days[index])
        } else {
            None
        }
    }
}

impl Days {
    /// Cuts the days into months: one scan from the first day to the last
    /// that starts a new group wherever the month changes.
    pub fn split_months(&self) -> (groups: Vec<MonthGroup>)
        ensures
            groups_view(groups@) == months_of(self@),
            is_month_partition(self@, groups_view(groups@)),
    {
        proof {
            use_type_invariant(self);
        }
        let mut groups: Vec<MonthGroup> = Vec::new();
        let mut current: Vec<Day> = Vec::new();
        let mut i: usize = 0;
        assert(groups_view(groups@) =~= Seq::<Seq<Day>>::empty());
        while i < self.days.len()
            invariant
                i <= self.days.len(),
                is_consecutive(self.days@),
                forall|k: int| 0 <= k < i ==> (#[trigger] self.days@[k]).wf(),
                current.len() <= i,
                current@ == self.days@.subrange(i - current.len(), i as int),
                current.len() == 0 ==> i == 0 && groups.len() == 0,
                same_month(current@),
                groups_view(groups@).flatten() + current@ == self.days@.take(i as int),
                forall|g: int|
                    0 <= g < groups.len() ==> (#[trigger] groups_view(groups@)[g]).len() > 0,
                forall|g: int|
                    0 <= g < groups.len() ==> same_month(#[trigger] groups_view(groups@)[g]),
                forall|g: int|
                    0 <= g < groups.len() - 1 ==> (#[trigger] groups_view(
                        groups@,
                    )[g]).last().date().spec_month() != groups_view(
                        groups@,
                    )[g + 1].first().date().spec_month(),
                groups.len() > 0 && current.len() > 0 ==> groups_view(
                    groups@,
                ).last().last().date().spec_month() != current[0].date().spec_month(),
            decreases self.days.len() - i,
        {
            let day = self.days[i];
            proof {
                use_type_invariant(&day);
            }
            let ghost old_groups = groups_view(groups@);
            let ghost old_current = current@;
            if current.len() > 0 && current[current.len() - 1].calendar_date().month()
                != day.calendar_date().month() {
                proof {
                    lemma_subrange_consecutive(
                        self.days@,
                        i - current.len(),
                        i as int,
                    );
                }
                let group = MonthGroup { days: current };
                groups.push(group);
                current = Vec::new();
                proof {
                    assert(groups_view(groups@) =~= old_groups.push(old_current));
                    old_groups.lemma_flatten_push(old_current);
                    assert(groups_view(groups@).flatten() + current@ =~= self.days@.take(i as int));
                }
            }
            current.push(day);
            i += 1;
            proof {
                assert(current@ =~= self.days@.subrange(i - current.len(), i as int));
                assert(groups_view(groups@).flatten() + current@ =~= self.days@.take(i as int)) by {
                    assert(self.days@.take(i as int) =~= self.days@.take(i - 1).push(day));
                }
            }
        }
        if current.len() > 0 {
            let ghost old_groups = groups_view(groups@);
            let ghost old_current = current@;
            proof {
                lemma_subrange_consecutive(self.days@, i - current.len(), i as int);
            }
            groups.push(MonthGroup { days: current });
            proof {
                assert(groups_view(groups@) =~= old_groups.push(old_current));
                old_groups.lemma_flatten_push(old_current);
                assert(self.days@.take(i as int) =~= self.days@);
            }
        } else {
            proof {
                assert(self.days@.take(i as int) =~= self.days@);
                let whole = groups_view(groups@).flatten();
                assert(whole + current@ =~= whole);
            }
        }
        proof {
            assert(is_month_partition(self@, groups_view(groups@)));
            lemma_months_of_is(self@, groups_view(groups@));
        }
        groups
    }
}

/// A stretch of consecutive days is consecutive.
proof fn lemma_subrange_consecutive(days: Seq<Day>, from: int, to: int)
    requires
        is_consecutive(days),
        0 <= from <= to <= days.len(),
    ensures
        is_consecutive(days.subrange(from, to)),
{
    let part = days.subrange(from, to);
    assert forall|i: int| 0 <= i < part.len() - 1 implies (#[trigger] part[i + 1]).date().ymd()
        == next_ymd(
        part[i].date().spec_year(),
        part[i].date().spec_month(),
        part[i].date().spec_day(),
    ) by {
        assert(part[i + 1] == days[from + i + 1]);
        assert(part[i] == days[from + i]);
    }
}

/// The position in the whole at which group `k` begins: the number of days
/// in the groups before it.
pub open spec fn group_start(groups: Seq<Seq<Day>>, k: int) -> int
    decreases k,
{
    if k <= 0 {
        0
    } else {
        group_start(groups, k - 1) + groups[k - 1].len()
    }
}

/// Laid end to end, the first `k` groups have as many days as the start of
/// group `k` says; each earlier group lies within them; and day `i` of an
/// earlier group `j` stands at the start of that group plus `i`.
proof fn lemma_flatten_prefix(groups: Seq<Seq<Day>>, k: int)
    requires
        0 <= k <= groups.len(),
    ensures
        groups.take(k).flatten().len() == group_start(groups, k),
        forall|j: int|
            0 <= j < k ==> 0 <= #[trigger] group_start(groups, j) && group_start(groups, j)
                + groups[j].len() <= group_start(groups, k),
        forall|j: int, i: int|
            0 <= j < k && 0 <= i < groups[j].len() ==> groups.take(k).flatten()[group_start(
                groups,
                j,
            ) + i] == #[trigger] groups[j][i],
    decreases k,
{
    if k == 0 {
        assert(groups.take(0) =~= Seq::<Seq<Day>>::empty());
    } else {
        lemma_flatten_prefix(groups, k - 1);
        assert(groups.take(k) =~= groups.take(k - 1).push(groups[k - 1]));
        groups.take(k - 1).lemma_flatten_push(groups[k - 1]);
        let shorter = groups.take(k - 1).flatten();
        let longer = groups.take(k).flatten();
        assert(longer == shorter + groups[k - 1]);
        assert forall|j: int, i: int| 0 <= j < k && 0 <= i < groups[j].len() implies longer[group_start(
            groups,
            j,
        ) + i] == #[trigger] groups[j][i] by {
            if j < k - 1 {
                assert(0 <= group_start(groups, j));
                assert(shorter[group_start(groups, j) + i] == groups[j][i]);
            }
        }
    }
}

/// No group begins before the start.
proof fn lemma_group_start_nonnegative(groups: Seq<Seq<Day>>, k: int)
    ensures
        0 <= group_start(groups, k),
    decreases k,
{
    if k > 0 {
        lemma_group_start_nonnegative(groups, k - 1);
    }
}

/// A day of a year whose position lies within the span of month `m` is a
/// day of month `m`, and it is the day that its distance from the start of
/// the month gives.
proof fn lemma_month_of_position(year: int, month: int, day: int, m: int)
    requires
        valid_ymd(year, month, day),
        1 <= m <= 12,
        days_before_month(year, m) < day_of_year(year, month, day) <= days_before_month(
            year,
            m + 1,
        ),
    ensures
        month == m,
        day == day_of_year(year, month, day) - days_before_month(year, m),
{
    lemma_days_before_month(year);
}

/// The months of a year: cut into months, a year's calendar gives twelve
/// groups; group `i`, counted from 0, holds the days of month `i + 1`, all
/// of them, beginning with the first of the month; and laid end to end the
/// groups give the calendar again.
pub proof fn lemma_year_has_twelve_months(
    days: Seq<Day>,
    year: int,
    holidays: Set<(int, int, int)>,
    groups: Seq<Seq<Day>>,
)
    requires
        is_year_calendar(days, year, holidays),
        is_month_partition(days, groups),
    ensures
        groups.len() == 12,
        groups.flatten() == days,
        forall|g: int|
            0 <= g < 12 ==> (#[trigger] groups[g]).len() == days_in_month(year, g + 1)
                && group_start(groups, g) == days_before_month(year, g + 1),
        forall|g: int, i: int|
            0 <= g < 12 && 0 <= i < groups[g].len() ==> (#[trigger] groups[g][i]).date().ymd() == (
                year,
                g + 1,
                i + 1,
            ),
{
    assert(holds_year_dates(days, year)) by {
        assert forall|i: int| 0 <= i < days.len() implies valid_ymd(
            (#[trigger] days[i]).date().spec_year(),
            days[i].date().spec_month(),
            days[i].date().spec_day(),
        ) by {
            assert(days[i].date().wf());
        }
    }
    lemma_months_up_to(days, year, groups, groups.len() as int);
    lemma_flatten_prefix(groups, groups.len() as int);
    assert(groups.take(groups.len() as int) =~= groups);
    lemma_days_before_month(year);
}

/// The days of the months of a year: each month is a run of days, and each
/// of its days has the kind that its day of the week and the holidays give
/// its date.
pub proof fn lemma_year_months_are_runs(
    days: Seq<Day>,
    year: int,
    holidays: Set<(int, int, int)>,
    groups: Seq<Seq<Day>>,
)
    requires
        is_year_calendar(days, year, holidays),
        is_month_partition(days, groups),
    ensures
        groups.len() == 12,
        forall|g: int| 0 <= g < 12 ==> is_month_run(#[trigger] groups[g]),
        forall|g: int, i: int|
            0 <= g < 12 && 0 <= i < groups[g].len() ==> (#[trigger] groups[g][i]).flag()
                == classify_day(
                weekday_of(year, g + 1, i + 1),
                holidays.contains((year, g + 1, i + 1)),
            ),
{
    lemma_year_has_twelve_months(days, year, holidays, groups);
    lemma_flatten_prefix(groups, 12);
    assert(groups.take(12) =~= groups);
    assert forall|g: int, i: int| 0 <= g < 12 && 0 <= i < groups[g].len() implies (
    #[trigger] groups[g][i]).wf() && groups[g][i].flag() == classify_day(
        weekday_of(year, g + 1, i + 1),
        holidays.contains((year, g + 1, i + 1)),
    ) by {
        let at = group_start(groups, g) + i;
        assert(0 <= group_start(groups, g));
        assert(group_start(groups, g) + groups[g].len() <= days.len());
        assert(days[at] == groups[g][i]);
        assert(days[at].date().wf());
        assert(groups[g][i].date().ymd() == (year, g + 1, i + 1));
    }
    assert forall|g: int| 0 <= g < 12 implies is_month_run(#[trigger] groups[g]) by {
        let run = groups[g];
        assert(run.len() == days_in_month(year, g + 1));
        assert forall|i: int| 0 <= i < run.len() - 1 implies (#[trigger] run[i + 1]).date().ymd()
            == next_ymd(
            run[i].date().spec_year(),
            run[i].date().spec_month(),
            run[i].date().spec_day(),
        ) by {
            assert(groups[g][i].date().ymd() == (year, g + 1, i + 1));
            assert(groups[g][i + 1].date().ymd() == (year, g + 1, i + 1 + 1));
        }
        assert(same_month(run));
        assert forall|i: int| 0 <= i < run.len() implies (#[trigger] run[i]).wf() by {
            assert(groups[g][i].wf());
        }
    }
}

/// Whether `days` holds the dates of `year` in their order, whatever the
/// kinds of the days and their days of the week.
spec fn holds_year_dates(days: Seq<Day>, year: int) -> bool {
    &&& days.len() == days_in_year(year)
    &&& forall|i: int|
        0 <= i < days.len() ==> {
            let date = (#[trigger] days[i]).date();
            &&& valid_ymd(date.spec_year(), date.spec_month(), date.spec_day())
            &&& date.spec_year() == year
            &&& date.ordinal() == i + 1
        }
}

/// The first `k` groups of the dates of a year are its first `k` months.
proof fn lemma_months_up_to(days: Seq<Day>, year: int, groups: Seq<Seq<Day>>, k: int)
    requires
        holds_year_dates(days, year),
        is_month_partition(days, groups),
        0 <= k <= groups.len(),
    ensures
        k <= 12,
        group_start(groups, k) == days_before_month(year, k + 1),
        forall|g: int|
            0 <= g < k ==> (#[trigger] groups[g]).len() == days_in_month(year, g + 1)
                && group_start(groups, g) == days_before_month(year, g + 1),
        forall|g: int, i: int|
            0 <= g < k && 0 <= i < groups[g].len() ==> (#[trigger] groups[g][i]).date().ymd() == (
                year,
                g + 1,
                i + 1,
            ),
    decreases k,
{
    lemma_days_before_month(year);
    if k > 0 {
        lemma_months_up_to(days, year, groups, k - 1);
        let g = k - 1;
        let start = group_start(groups, g);
        let group = groups[g];
        let n = groups.len() as int;
        lemma_flatten_prefix(groups, n);
        assert(groups.take(n) =~= groups);
        lemma_flatten_prefix(groups, k);
        lemma_group_start_monotonic(groups, k, n);
        // The group begins within the year, so there is a month for it.
        assert(groups[g][0] == days[start + 0]);
        assert(start < days_in_year(year));
        assert(g + 1 <= 12);
        let m = g + 1;
        // Its first day is the first of that month.
        let first = group[0].date();
        assert(days[start].date().ordinal() == start + 1);
        lemma_month_of_position(year, first.spec_month(), first.spec_day(), m);
        // Every day of the group lies in that month, at its place.
        assert forall|i: int| 0 <= i < group.len() implies (#[trigger] group[i]).date().ymd() == (
            year,
            m,
            i + 1,
        ) by {
            assert(groups[g][i] == days[start + i]);
            let d = group[i].date();
            assert(days[start + i].date().ordinal() == start + i + 1);
            lemma_day_of_year_bounds(year, d.spec_month(), d.spec_day());
            assert(d.spec_month() == m);
            lemma_month_of_position(year, d.spec_month(), d.spec_day(), m);
        }
        assert(group[group.len() - 1].date().ymd() == (year, m, group.len() as int));
        assert(valid_ymd(year, m, group.len() as int));
        // The group does not end before the month does: the day after its
        // last would begin the next group, in the same month.
        if group.len() < days_in_month(year, m) {
            let next_at = start + group.len();
            assert(next_at < days_in_year(year));
            assert(k < n) by {
                if k == n {
                    assert(group_start(groups, n) == days.len());
                }
            }
            lemma_flatten_prefix(groups, k + 1);
            lemma_group_start_monotonic(groups, k + 1, n);
            assert(groups[k][0] == days[group_start(groups, k) + 0]);
            let next = groups[k][0].date();
            assert(days[next_at].date().ordinal() == next_at + 1);
            lemma_month_of_position(year, next.spec_month(), next.spec_day(), m);
            let month_here = groups[g].last().date().spec_month();
            assert(month_here != groups[g + 1].first().date().spec_month());
            assert(false);
        }
    }
}

/// A later group begins no earlier than an earlier one.
proof fn lemma_group_start_monotonic(groups: Seq<Seq<Day>>, j: int, k: int)
    requires
        0 <= j <= k,
    ensures
        group_start(groups, j) <= group_start(groups, k),
    decreases k,
{
    if j < k {
        lemma_group_start_monotonic(groups, j, k - 1);
    }
}

/// A group of days laid end to end lies in the whole at its start, day by
/// day.
proof fn lemma_group_in_whole(days: Seq<Day>, groups: Seq<Seq<Day>>, g: int)
    requires
        groups.flatten() == days,
        0 <= g < groups.len(),
    ensures
        0 <= group_start(groups, g),
        group_start(groups, g + 1) == group_start(groups, g) + groups[g].len(),
        group_start(groups, g + 1) <= days.len(),
        forall|i: int|
            0 <= i < groups[g].len() ==> #[trigger] groups[g][i] == days[group_start(groups, g)
                + i],
{
    let n = groups.len() as int;
    lemma_flatten_prefix(groups, n);
    assert(groups.take(n) =~= groups);
    lemma_group_start_monotonic(groups, g + 1, n);
}

/// The first `k` groups of two ways to cut the same days into months are
/// the same.
proof fn lemma_month_partitions_agree(days: Seq<Day>, a: Seq<Seq<Day>>, b: Seq<Seq<Day>>, k: int)
    requires
        is_month_partition(days, a),
        is_month_partition(days, b),
        0 <= k <= a.len(),
        k <= b.len(),
    ensures
        forall|j: int| 0 <= j < k ==> #[trigger] a[j] == b[j],
        group_start(a, k) == group_start(b, k),
    decreases k,
{
    if k > 0 {
        lemma_month_partitions_agree(days, a, b, k - 1);
        let g = k - 1;
        let start = group_start(a, g);
        assert(group_start(b, g) == start);
        lemma_group_in_whole(days, a, g);
        lemma_group_in_whole(days, b, g);
        assert(same_month(a[g]) && same_month(b[g]));
        lemma_group_is_whole_run(days, a, g, b[g]);
        lemma_group_is_whole_run(days, b, g, a[g]);
        assert(a[g].len() == b[g].len());
        assert forall|i: int| 0 <= i < a[g].len() implies a[g][i] == b[g][i] by {
            assert(a[g][i] == days[start + i]);
            assert(b[g][i] == days[start + i]);
        }
        assert(a[g] =~= b[g]);
    }
}

/// A run of days of one month that starts where a group of a cut into
/// months starts is no longer than the group.
proof fn lemma_group_is_whole_run(days: Seq<Day>, groups: Seq<Seq<Day>>, g: int, run: Seq<Day>)
    requires
        is_month_partition(days, groups),
        0 <= g < groups.len(),
        same_month(run),
        group_start(groups, g) + run.len() <= days.len(),
        forall|i: int| 0 <= i < run.len() ==> #[trigger] run[i] == days[group_start(groups, g) + i],
    ensures
        run.len() <= groups[g].len(),
{
    let n = groups.len() as int;
    let start = group_start(groups, g);
    let len = groups[g].len() as int;
    if len < run.len() {
        lemma_flatten_prefix(groups, n);
        assert(groups.take(n) =~= groups);
        lemma_flatten_prefix(groups, g + 1);
        lemma_group_start_monotonic(groups, g + 1, n);
        // The day after the group begins the next group.
        assert(g + 1 < n) by {
            if g + 1 == n {
                assert(group_start(groups, n) == days.len());
            }
        }
        lemma_flatten_prefix(groups, g + 2);
        assert(groups[g + 1][0] == days[group_start(groups, g + 1) + 0]);
        assert(groups[g][len - 1] == days[start + (len - 1)]);
        // Both that day and the last of the group lie in the run, and so in
        // one month.
        assert(run[len] == days[start + len]);
        assert(run[len - 1] == days[start + (len - 1)]);
        assert(run[len].date().spec_month() == run[0].date().spec_month());
        assert(run[len - 1].date().spec_month() == run[0].date().spec_month());
        assert(groups[g].last().date().spec_month() != groups[g + 1].first().date().spec_month());
    }
}

/// There is one way only to cut days into months.
pub proof fn lemma_month_partition_unique(days: Seq<Day>, a: Seq<Seq<Day>>, b: Seq<Seq<Day>>)
    requires
        is_month_partition(days, a),
        is_month_partition(days, b),
    ensures
        a == b,
{
    let least = if a.len() <= b.len() {
        a.len() as int
    } else {
        b.len() as int
    };
    lemma_month_partitions_agree(days, a, b, least);
    lemma_flatten_prefix(a, a.len() as int);
    lemma_flatten_prefix(b, b.len() as int);
    assert(a.take(a.len() as int) =~= a);
    assert(b.take(b.len() as int) =~= b);
    if a.len() < b.len() {
        lemma_flatten_prefix(b, least + 1);
        lemma_group_start_monotonic(b, least + 1, b.len() as int);
        assert(b[least].len() > 0);
        assert(false);
    }
    if b.len() < a.len() {
        lemma_flatten_prefix(a, least + 1);
        lemma_group_start_monotonic(a, least + 1, a.len() as int);
        assert(a[least].len() > 0);
        assert(false);
    }
    assert(a =~= b);
}

/// A way to cut days into months is the months of those days:
/// [`months_of`] picks it, as there is no other.
pub proof fn lemma_months_of_is(days: Seq<Day>, groups: Seq<Seq<Day>>)
    requires
        is_month_partition(days, groups),
    ensures
        is_month_partition(days, months_of(days)),
        months_of(days) == groups,
{
    let picked = choose|picked: Seq<Seq<Day>>| is_month_partition(days, picked);
    assert(is_month_partition(days, picked));
    assert(picked == months_of(days));
    lemma_month_partition_unique(days, groups, picked);
}

/// Why there is no calendar for a year, if there is none: the year lies
/// before [`MIN_YEAR`], or else the holiday source gave nothing.
pub open spec fn calendar_error(year: u16, fetched: bool) -> Option<EngineError> {
    if year < MIN_YEAR {
        Some(EngineError::UnsupportedYear)
    } else if !fetched {
        Some(EngineError::HolidaySourceUnavailable)
    } else {
        None
    }
}

/// All the days of `year`, classified with the holidays that the holiday
/// source gave. A year before [`MIN_YEAR`] is refused whatever the source
/// gave; for any other year the failure of the source is handed on.
pub fn get_dates_at_year(
    year: u16,
    fetched: Option<&HolidayDates>,
) -> (days: Result<Days, EngineError>)
    ensures
        days is Err <==> calendar_error(year, fetched is Some) is Some,
        days matches Err(error) ==> calendar_error(year, fetched is Some) == Some(error),
        days matches Ok(d) ==> fetched matches Some(holidays) && d@ == year_calendar(
            year as int,
            holidays@,
        ) && is_year_calendar(d@, year as int, holidays@),
{
    if year < MIN_YEAR {
        return Err(EngineError::UnsupportedYear);
    }
    match fetched {
        Some(holidays) => Ok(Days::new_with_holidays(year, holidays)),
        None => Err(EngineError::HolidaySourceUnavailable),
    }
}

} // verus!
