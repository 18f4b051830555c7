//! The set of public holidays that the engine is given.

use crate::calendar::{supported_ymd, CalendarDate};
use crate::error::EngineError;
use std::collections::HashSet;
use vstd::prelude::*;

verus! {

broadcast use vstd::std_specs::hash::group_hash_axioms;

/// The number under which a date is kept: year, month and day written one
/// after the other in decimal.
pub open spec fn date_key(year: int, month: int, day: int) -> int {
    year * 10_000 + month * 100 + day
}

/// Two different dates have different keys.
pub proof fn lemma_date_key_injective(a: (int, int, int), b: (int, int, int))
    requires
        supported_ymd(a.0, a.1, a.2),
        supported_ymd(b.0, b.1, b.2),
        date_key(a.0, a.1, a.2) == date_key(b.0, b.1, b.2),
    ensures
        a == b,
{
}

/// The greatest year among the given dates, 0 if there is none.
pub open spec fn last_year(dates: Seq<CalendarDate>) -> int
    decreases dates.len(),
{
    if dates.len() == 0 {
        0
    } else if dates.last().spec_year() > last_year(dates.drop_last()) {
        dates.last().spec_year()
    } else {
        last_year(dates.drop_last())
    }
}

/// The dates, as year, month and day, that occur in `dates`.
pub open spec fn dates_set(dates: Seq<CalendarDate>) -> Set<(int, int, int)> {
    Set::new(
        |d: (int, int, int)| exists|i: int| 0 <= i < dates.len() && #[trigger] dates[i].ymd() == d,
    )
}

/// The dates of `dates` that lie in `year`.
pub open spec fn dates_set_of_year(dates: Seq<CalendarDate>, year: int) -> Set<(int, int, int)> {
    Set::new(
        |d: (int, int, int)|
            d.0 == year && exists|i: int| 0 <= i < dates.len() && #[trigger] dates[i].ymd() == d,
    )
}

/// The greatest year among the given dates, if there is a date.
pub fn find_last_year(dates: &Vec<CalendarDate>) -> (year: Option<i32>)
    ensures
        year is None <==> dates@.len() == 0,
        year matches Some(y) ==> y == last_year(dates@),
{
    if dates.len() == 0 {
        return None;
    }
    let first = dates[0];
    let mut year: i32 = first.year();
    let mut i: usize = 1;
    proof {
        use_type_invariant(&first);
        assert(dates@.take(1).drop_last() =~= Seq::<CalendarDate>::empty());
        assert(dates@.take(1).last() == dates@[0]);
        reveal_with_fuel(last_year, 2);
    }
    while i < dates.len()
        invariant
            1 <= i <= dates.len(),
            year == last_year(dates@.take(i as int)),
        decreases dates.len() - i,
    {
        proof {
            assert(dates@.take(i + 1).drop_last() =~= dates@.take(i as int));
            assert(dates@.take(i + 1).last() == dates@[i as int]);
        }
        if dates[i].year() > year {
            year = dates[i].year();
        }
        i += 1;
    }
    proof {
        assert(dates@.take(dates.len() as int) =~= dates@);
    }
    Some(year)
}

/// A set of holiday dates.
pub struct HolidayDates {
    holidays: HashSet<u32>,
}

impl View for HolidayDates {
    type V = Set<(int, int, int)>;

    /// The holidays as a set of (year, month, day).
    closed spec fn view(&self) -> Set<(int, int, int)> {
        Set::new(
            |d: (int, int, int)|
                supported_ymd(d.0, d.1, d.2) && self.holidays@.contains(
                    date_key(d.0, d.1, d.2) as u32,
                ),
        )
    }
}

impl HolidayDates {
    /// The empty set of holidays.
    pub fn new() -> (holidays: HolidayDates)
        ensures
            holidays@ == Set::<(int, int, int)>::empty(),
    {
        let holidays = HolidayDates { holidays: HashSet::new() };
        assert(holidays@ =~= Set::<(int, int, int)>::empty());
        holidays
    }

    /// Adds a date to the set.
    pub fn insert(&mut self, date: &CalendarDate)
        ensures
            final(self)@ == old(self)@.insert(date.ymd()),
    {
        proof {
            use_type_invariant(date);
        }
        let key: u32 = date.year() as u32 * 10_000 + date.month() * 100 + date.day();
        self.holidays.insert(key);
        proof {
            assert forall|d: (int, int, int)| #[trigger]
                self@.contains(d) == old(self)@.insert(date.ymd()).contains(d) by {
                if supported_ymd(d.0, d.1, d.2) && d != date.ymd() {
                    if date_key(d.0, d.1, d.2) == key as int {
                        lemma_date_key_injective(d, date.ymd());
                    }
                }
            }
            assert(self@ =~= old(self)@.insert(date.ymd()));
        }
    }

    /// The keys of the holidays: a date is a holiday exactly when its
    /// [`date_key`] is among them.
    pub fn get_holidays(&self) -> (keys: &HashSet<u32>)
        ensures
            forall|d: (int, int, int)|
                supported_ymd(d.0, d.1, d.2) ==> (self@.contains(d) <==> keys@.contains(
                    #[trigger] date_key(d.0, d.1, d.2) as u32,
                )),
    {
        &self.holidays
    }

    /// Whether a date is a holiday.
    pub fn contains(&self, date: &CalendarDate) -> (found: bool)
        ensures
            found == self@.contains(date.ymd()),
    {
        proof {
            use_type_invariant(date);
        }
        let key: u32 = date.year() as u32 * 10_000 + date.month() * 100 + date.day();
        self.holidays.contains(&key)
    }

    /// The set of all the given dates.
    pub fn from_dates(dates: &Vec<CalendarDate>) -> (holidays: HolidayDates)
        ensures
            holidays@ == dates_set(dates@),
    {
        let mut holidays = HolidayDates::new();
        let mut i: usize = 0;
        while i < dates.len()
            invariant
                i <= dates.len(),
                holidays@ == dates_set(dates@.take(i as int)),
            decreases dates.len() - i,
        {
            holidays.insert(&dates[i]);
            proof {
                let before = dates@.take(i as int);
                let after = dates@.take(i + 1);
                assert forall|d: (int, int, int)| #[trigger]
                    dates_set(after).contains(d) == dates_set(before).insert(
                        dates[i as int].ymd(),
                    ).contains(d) by {
                    if dates_set(after).contains(d) {
                        let j = choose|j: int|
                            0 <= j < after.len() && #[trigger] after[j].ymd() == d;
                        if j < i {
                            assert(before[j].ymd() == d);
                        }
                    }
                    if dates_set(before).contains(d) {
                        let j = choose|j: int|
                            0 <= j < before.len() && #[trigger] before[j].ymd() == d;
                            assert(after[j].ymd() == d);
                    }
                    if d == dates[i as int].ymd() {
                        assert(after[i as int].ymd() == d);
                    }
                }
                assert(dates_set(after) =~= dates_set(before).insert(dates[i as int].ymd()));
            }
            i += 1;
        }
        proof {
            assert(dates@.take(dates.len() as int) =~= dates@);
            assert(dates_set(dates@.take(0)) =~= Set::<(int, int, int)>::empty());
        }
        holidays
    }

    /// The holidays of the last year among the given dates, or an error if
    /// no date was given.
    pub fn init(dates: &Vec<CalendarDate>) -> (holidays: Result<HolidayDates, EngineError>)
        ensures
            holidays is Err <==> dates@.len() == 0,
            holidays matches Err(e) ==> e == EngineError::HolidaySourceUnavailable,
            holidays matches Ok(h) ==> h@ == dates_set_of_year(dates@, last_year(dates@)),
    {
        let year: i32 = match find_last_year(dates) {
            Some(year) => year,
            None => {
                return Err(EngineError::HolidaySourceUnavailable);
            },
        };
        let mut holidays = HolidayDates::new();
        let mut j: usize = 0;
        while j < dates.len()
            invariant
                j <= dates.len(),
                holidays@ == dates_set_of_year(dates@.take(j as int), year as int),
            decreases dates.len() - j,
        {
            let ghost before = dates@.take(j as int);
            let ghost after = dates@.take(j + 1);
            let ghost kept = holidays@;
            if dates[j].year() == year {
                holidays.insert(&dates[j]);
            }
            proof {
                let added = dates[j as int];
                assert forall|d: (int, int, int)| #[trigger]
                    dates_set_of_year(after, year as int).contains(d) == holidays@.contains(d) by {
                    if dates_set_of_year(after, year as int).contains(d) {
                        let k = choose|k: int|
                            0 <= k < after.len() && #[trigger] after[k].ymd() == d;
                        if k < j {
                            assert(before[k].ymd() == d);
                        }
                    }
                    if kept.contains(d) {
                        let k = choose|k: int|
                            0 <= k < before.len() && #[trigger] before[k].ymd() == d;
                            assert(after[k].ymd() == d);
                    }
                    if d == added.ymd() {
                        assert(after[j as int].ymd() == d);
                    }
                }
                assert(dates_set_of_year(after, year as int) =~= holidays@);
            }
            j += 1;
        }
        proof {
            assert(dates@.take(dates.len() as int) =~= dates@);
        }
        Ok(holidays)
    }
}

/// Whether each year of `years` is less than the next.
pub open spec fn strictly_ascending(years: Seq<u16>) -> bool {
    forall|i: int, j: int|
        0 <= i < j < years.len() ==> (#[trigger] years[i]) < (#[trigger] years[j])
}

/// Whether one of `dates` lies in `year`.
pub open spec fn has_year(dates: Seq<CalendarDate>, year: int) -> bool {
    exists|k: int| 0 <= k < dates.len() && (#[trigger] dates[k]).spec_year() == year
}

/// Whether `years` lists the years in which `dates` lie, each once, in
/// ascending order.
pub open spec fn is_year_list(years: Seq<u16>, dates: Seq<CalendarDate>) -> bool {
    &&& strictly_ascending(years)
    &&& forall|year: u16| #[trigger] years.contains(year) <==> has_year(dates, year as int)
}

/// Puts a year into an ascending list of years, unless it is there.
fn insert_year(years: &mut Vec<u16>, year: u16)
    requires
        strictly_ascending(old(years)@),
    ensures
        strictly_ascending(final(years)@),
        forall|y: u16| #[trigger]
            final(years)@.contains(y) <==> (old(years)@.contains(y) || y == year),
{
    let mut at: usize = 0;
    while at < years.len() && years[at] < year
        invariant
            at <= years.len(),
            years@ == old(years)@,
            forall|j: int| 0 <= j < at ==> (#[trigger] years[j]) < year,
        decreases years.len() - at,
    {
        at += 1;
    }
    let ghost before = years@;
    if at < years.len() && years[at] == year {
        assert(before.contains(year));
    } else {
        assert(forall|j: int| at <= j < before.len() ==> (#[trigger] before[j]) > year) by {
            if at < before.len() {
                assert(before[at as int] > year);
            }
        }
        years.insert(at, year);
        assert forall|y: u16| #[trigger]
            years@.contains(y) <==> (before.contains(y) || y == year) by {
            if before.contains(y) {
                let j = choose|j: int| 0 <= j < before.len() && before[j] == y;
                let nj = if j < at { j } else { j + 1 };
                assert(years@[nj] == y);
            }
            if y == year {
                assert(years@[at as int] == y);
            }
            if years@.contains(y) {
                let j = choose|j: int| 0 <= j < years@.len() && years@[j] == y;
                if j != at {
                    let oj = if j < at { j } else { j - 1 };
                    assert(before[oj] == y);
                }
            }
        }
        assert forall|a: int, b: int| 0 <= a < b < years@.len() implies (#[trigger] years@[a])
            < (#[trigger] years@[b]) by {
            let oa = if a < at { a } else { a - 1 };
            let ob = if b < at { b } else { b - 1 };
            if a != at && b != at {
                assert(before[oa] < before[ob]);
            } else if a == at {
                assert(years@[b] == before[ob]);
            } else {
                assert(years@[a] == before[oa]);
            }
        }
    }
}

/// The holiday dates of all years, as the holiday source gave them.
pub struct FetchedDates {
    holidays: Vec<CalendarDate>,
    exist_years: Option<Vec<u16>>,
}

impl FetchedDates {
    /// The dates, in the order in which they were given.
    pub closed spec fn dates(self) -> Seq<CalendarDate> {
        self.holidays@
    }

    /// The list of years, once it has been computed, is the list of the
    /// years of the dates.
    #[verifier::type_invariant]
    closed spec fn wf(self) -> bool {
        self.exist_years matches Some(years) ==> is_year_list(years@, self.holidays@)
    }

    /// Keeps the dates that the holiday source gave.
    pub fn init(holidays: Vec<CalendarDate>) -> (fetched: FetchedDates)
        ensures
            fetched.dates() == holidays@,
    {
        FetchedDates { holidays, exist_years: None }
    }

    /// The dates that lie in `year`, in the order in which they were given.
    pub fn get_year_dates(&self, year: u16) -> (dates: Vec<CalendarDate>)
        ensures
            dates@ == self.dates().filter(|d: CalendarDate| d.spec_year() == year),
    {
        let ghost in_year = |d: CalendarDate| d.spec_year() == year;
        let mut dates: Vec<CalendarDate> = Vec::new();
        let mut i: usize = 0;
        proof {
            reveal(Seq::filter);
            assert(self.holidays@.take(0).filter(in_year) =~= Seq::<CalendarDate>::empty());
        }
        while i < self.holidays.len()
            invariant
                i <= self.holidays.len(),
                in_year == |d: CalendarDate| d.spec_year() == year,
                dates@ == self.holidays@.take(i as int).filter(in_year),
            decreases self.holidays.len() - i,
        {
            let date = self.holidays[i];
            proof {
                assert(self.holidays@.take(i + 1) =~= self.holidays@.take(i as int).push(date));
                self.holidays@.take(i as int).lemma_filter_push(date, in_year);
            }
            if date.year() == year as i32 {
                dates.push(date);
            }
            i += 1;
        }
        proof {
            assert(self.holidays@.take(self.holidays.len() as int) =~= self.holidays@);
        }
        dates
    }

    /// The years in which the dates lie, each once, in ascending order. The
    /// list is computed once and kept.
    pub fn get_exist_years(&mut self) -> (years: Vec<u16>)
        ensures
            is_year_list(years@, old(self).dates()),
            final(self).dates() == old(self).dates(),
    {
        proof {
            use_type_invariant(&*self);
        }
        if let Some(cached) = &self.exist_years {
            let years = cached.clone();
            assert(years@ =~= cached@);
            return years;
        }
        let mut years: Vec<u16> = Vec::new();
        let mut i: usize = 0;
        assert forall|year: u16| #[trigger]
            years@.contains(year) <==> has_year(self.holidays@.take(0), year as int) by {}
        while i < self.holidays.len()
            invariant
                i <= self.holidays.len(),
                self.holidays@ == old(self).holidays@,
                self.exist_years is None,
                is_year_list(years@, self.holidays@.take(i as int)),
            decreases self.holidays.len() - i,
        {
            let date = self.holidays[i];
            proof {
                use_type_invariant(&date);
            }
            let year = date.year() as u16;
            let ghost before = self.holidays@.take(i as int);
            let ghost after = self.holidays@.take(i + 1);
            let ghost old_years = years@;
            insert_year(&mut years, year);
            proof {
                assert forall|y: u16| #[trigger]
                    years@.contains(y) <==> has_year(after, y as int) by {
                        assert(old_years.contains(y) <==> has_year(before, y as int));
                    if has_year(before, y as int) {
                        let k = choose|k: int|
                            0 <= k < before.len() && (#[trigger] before[k]).spec_year() == y;
                            assert(after[k].spec_year() == y);
                    }
                    if y == year {
                        assert(after[i as int].spec_year() == y);
                    }
                    if has_year(after, y as int) {
                        let k = choose|k: int|
                            0 <= k < after.len() && (#[trigger] after[k]).spec_year() == y;
                        if k < i {
                            assert(before[k].spec_year() == y);
                        }
                    }
                }
            }
            i += 1;
        }
        proof {
            assert(self.holidays@.take(self.holidays.len() as int) =~= self.holidays@);
        }
        self.exist_years = Some(years.clone());
        proof {
            let kept = self.exist_years->Some_0;
            assert(kept@ =~= years@);
        }
        years
    }
}

} // verus!
