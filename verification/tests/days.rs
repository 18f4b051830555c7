use tabel::calendar::{CalendarDate, Weekday};
use tabel::days::{classify, get_dates_at_year, Day, DayType, Days, Season, MIN_YEAR};
use tabel::error::EngineError;
use tabel::holidays::HolidayDates;

fn date(year: i32, month: u32, day: u32) -> CalendarDate {
    CalendarDate::from_ymd(year, month, day).unwrap()
}

fn holidays_of(dates: &[(i32, u32, u32)]) -> HolidayDates {
    let dates: Vec<CalendarDate> = dates.iter().map(|d| date(d.0, d.1, d.2)).collect();
    HolidayDates::from_dates(&dates)
}

fn all_days(days: &Days) -> Vec<Day> {
    (0..days.len()).map(|i| days.get(i).unwrap()).collect()
}

fn is_leap(year: u16) -> bool {
    year % 4 == 0 && (year % 100 != 0 || year % 400 == 0)
}

#[test]
fn classify_sunday_is_weekend() {
    let none = HolidayDates::new();
    assert_eq!(classify(&date(2024, 1, 7), &none), DayType::Weekend);
}

#[test]
fn classify_sunday_that_is_a_holiday_is_still_weekend() {
    let holidays = holidays_of(&[(2024, 1, 7)]);
    assert_eq!(classify(&date(2024, 1, 7), &holidays), DayType::Weekend);
}

#[test]
fn classify_saturday_is_earn_day() {
    let none = HolidayDates::new();
    assert_eq!(classify(&date(2024, 1, 6), &none), DayType::Earn);
}

#[test]
fn classify_holiday_on_a_weekday_is_earn_day() {
    let holidays = holidays_of(&[(2024, 1, 1), (2024, 1, 8)]);
    assert_eq!(classify(&date(2024, 1, 1), &holidays), DayType::Earn);
    assert_eq!(classify(&date(2024, 1, 8), &holidays), DayType::Earn);
}

#[test]
fn classify_weekday_without_holiday_is_usual() {
    let holidays = holidays_of(&[(2024, 1, 1), (2024, 1, 8)]);
    for day in [2, 3, 4, 5, 9, 10, 11, 12] {
        assert_eq!(classify(&date(2024, 1, day), &holidays), DayType::Usual);
    }
}

#[test]
fn classify_gives_the_same_answer_each_time() {
    let holidays = holidays_of(&[(2024, 5, 1)]);
    let d = date(2024, 5, 1);
    assert_eq!(classify(&d, &holidays), classify(&d, &holidays));
}

#[test]
fn year_has_365_days_or_366_in_a_leap_year() {
    let none = HolidayDates::new();
    for year in [2017u16, 2020, 2023, 2024, 2100, 2400, 65_535] {
        let days = Days::new_with_holidays(year, &none);
        assert_eq!(days.len(), if is_leap(year) { 366 } else { 365 });
    }
    assert_eq!(Days::new_with_holidays(2024, &none).len(), 366);
    assert_eq!(Days::new_with_holidays(2023, &none).len(), 365);
    assert_eq!(Days::new_with_holidays(2100, &none).len(), 365);
    assert_eq!(Days::new_with_holidays(2000, &none).len(), 366);
}

#[test]
fn year_runs_from_the_first_of_january_to_the_31st_of_december() {
    let none = HolidayDates::new();
    let days = all_days(&Days::new_with_holidays(2024, &none));
    let first = days.first().unwrap().calendar_date();
    let last = days.last().unwrap().calendar_date();
    assert_eq!((first.year(), first.month(), first.day()), (2024, 1, 1));
    assert_eq!((last.year(), last.month(), last.day()), (2024, 12, 31));
}

#[test]
fn year_has_no_gap_and_no_date_twice() {
    let none = HolidayDates::new();
    for year in [2023u16, 2024] {
        let days = all_days(&Days::new_with_holidays(year, &none));
        for pair in days.windows(2) {
            let next = pair[0].calendar_date().succ().unwrap();
            let found = pair[1].calendar_date();
            assert_eq!(
                (next.year(), next.month(), next.day()),
                (found.year(), found.month(), found.day())
            );
            let a = pair[0].calendar_date();
            assert!((a.year(), a.month(), a.day()) < (found.year(), found.month(), found.day()));
        }
    }
}

#[test]
fn year_agrees_with_chrono_day_by_day() {
    let none = HolidayDates::new();
    let days = all_days(&Days::new_with_holidays(2024, &none));
    let first = chrono::NaiveDate::from_ymd_opt(2024, 1, 1).unwrap();
    let expected: Vec<chrono::NaiveDate> =
        first.iter_days().take_while(|d| chrono::Datelike::year(d) == 2024).collect();
    assert_eq!(days.len(), expected.len());
    for (day, want) in days.iter().zip(expected.iter()) {
        let got = day.calendar_date();
        assert_eq!(got.year(), chrono::Datelike::year(want));
        assert_eq!(got.month(), chrono::Datelike::month(want));
        assert_eq!(got.day(), chrono::Datelike::day(want));
    }
}

#[test]
fn year_classifies_each_day() {
    let holidays = holidays_of(&[(2024, 1, 1), (2024, 1, 8)]);
    let days = all_days(&Days::new_with_holidays(2024, &holidays));
    assert_eq!(days[0].earn_type(), DayType::Earn);
    assert_eq!(days[1].earn_type(), DayType::Usual);
    assert_eq!(days[5].earn_type(), DayType::Earn);
    assert_eq!(days[6].earn_type(), DayType::Weekend);
    assert_eq!(days[7].earn_type(), DayType::Earn);
    assert_eq!(days[8].earn_type(), DayType::Usual);
    for day in &days {
        assert_eq!(day.earn_type(), classify(&day.calendar_date(), &holidays));
    }
}

#[test]
fn get_dates_at_year_refuses_years_before_2017() {
    let none = HolidayDates::new();
    assert_eq!(MIN_YEAR, 2017);
    assert!(matches!(get_dates_at_year(2016, Some(&none)), Err(EngineError::UnsupportedYear)));
    assert!(matches!(get_dates_at_year(0, Some(&none)), Err(EngineError::UnsupportedYear)));
}

#[test]
fn get_dates_at_year_refuses_the_year_before_it_looks_at_the_holidays() {
    assert!(matches!(get_dates_at_year(2016, None), Err(EngineError::UnsupportedYear)));
}

#[test]
fn get_dates_at_year_hands_on_the_failure_of_the_holiday_source() {
    assert!(matches!(get_dates_at_year(2017, None), Err(EngineError::HolidaySourceUnavailable)));
    assert!(matches!(get_dates_at_year(2024, None), Err(EngineError::HolidaySourceUnavailable)));
}

#[test]
fn get_dates_at_year_gives_the_year() {
    let none = HolidayDates::new();
    assert_eq!(get_dates_at_year(2017, Some(&none)).unwrap().len(), 365);
    assert_eq!(get_dates_at_year(2024, Some(&none)).unwrap().len(), 366);
    let holidays = holidays_of(&[(2024, 1, 1)]);
    let days = get_dates_at_year(2024, Some(&holidays)).unwrap();
    assert_eq!(days.get(0).unwrap().earn_type(), DayType::Earn);
}

#[test]
fn split_months_gives_twelve_groups_for_a_year() {
    let none = HolidayDates::new();
    let lengths_2024 = [31, 29, 31, 30, 31, 30, 31, 31, 30, 31, 30, 31];
    let lengths_2023 = [31, 28, 31, 30, 31, 30, 31, 31, 30, 31, 30, 31];
    for (year, lengths) in [(2024u16, lengths_2024), (2023, lengths_2023)] {
        let groups = Days::new_with_holidays(year, &none).split_months();
        assert_eq!(groups.len(), 12);
        for (i, group) in groups.iter().enumerate() {
            assert_eq!(group.len(), lengths[i]);
            let first = group.first().calendar_date();
            assert_eq!((first.month(), first.day()), (i as u32 + 1, 1));
            for k in 0..group.len() {
                let d = group.get(k).unwrap().calendar_date();
                assert_eq!(d.month(), i as u32 + 1);
                assert_eq!(d.day(), k as u32 + 1);
            }
            assert!(group.get(group.len()).is_none());
        }
    }
}

#[test]
fn split_months_laid_end_to_end_gives_the_year_again() {
    let holidays = holidays_of(&[(2024, 1, 1), (2024, 5, 9)]);
    let year = Days::new_with_holidays(2024, &holidays);
    let whole = all_days(&year);
    let mut again: Vec<Day> = Vec::new();
    for group in year.split_months() {
        for k in 0..group.len() {
            again.push(group.get(k).unwrap());
        }
    }
    assert_eq!(again.len(), whole.len());
    for (a, b) in again.iter().zip(whole.iter()) {
        let (x, y) = (a.calendar_date(), b.calendar_date());
        assert_eq!((x.year(), x.month(), x.day()), (y.year(), y.month(), y.day()));
        assert_eq!(a.earn_type(), b.earn_type());
    }
}

#[test]
fn day_getters() {
    let day = Day::new(date(2024, 1, 8), DayType::Earn);
    assert_eq!(day.year(), 2024);
    assert_eq!(day.number(), 8);
    assert_eq!(day.earn_type(), DayType::Earn);
    assert_eq!(day.calendar_date().weekday(), Weekday::Mon);
}

#[test]
fn weekday_short_names() {
    let names = ["Пн", "Вт", "Ср", "Чт", "Пт", "Сб", "Вс"];
    for (i, name) in names.iter().enumerate() {
        let day = Day::new(date(2024, 1, 1 + i as u32), DayType::Usual);
        assert_eq!(day.weekday_short(), *name);
    }
}

#[test]
fn month_names() {
    let names = [
        "❄️ Январь",
        "🌨️ Февраль",
        "🌱 Март",
        "🌸 Апрель",
        "🌿 Май",
        "☀️ Июнь",
        "🏖️ Июль",
        "🍉 Август",
        "🍂 Сентябрь",
        "🍁 Октябрь",
        "🌧️ Ноябрь",
        "🎄 Декабрь",
    ];
    for (i, name) in names.iter().enumerate() {
        let day = Day::new(date(2024, 1 + i as u32, 1), DayType::Usual);
        assert_eq!(day.month_name(), *name);
    }
}

#[test]
fn seasons() {
    let seasons = [
        Season::Winter,
        Season::Winter,
        Season::Spring,
        Season::Spring,
        Season::Spring,
        Season::Summer,
        Season::Summer,
        Season::Summer,
        Season::Autumn,
        Season::Autumn,
        Season::Autumn,
        Season::Winter,
    ];
    for (i, season) in seasons.iter().enumerate() {
        let day = Day::new(date(2024, 1 + i as u32, 1), DayType::Usual);
        assert_eq!(day.season(), *season);
    }
}
