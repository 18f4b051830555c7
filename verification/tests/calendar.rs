use tabel::calendar::{CalendarDate, Weekday};

fn date(year: i32, month: u32, day: u32) -> CalendarDate {
    CalendarDate::from_ymd(year, month, day).unwrap()
}

fn ymd(date: &CalendarDate) -> (i32, u32, u32) {
    (date.year(), date.month(), date.day())
}

#[test]
fn from_ymd_keeps_year_month_and_day() {
    let d = date(2024, 3, 14);
    assert_eq!(ymd(&d), (2024, 3, 14));
}

#[test]
fn from_ymd_accepts_the_29th_of_february_in_leap_years_only() {
    assert!(CalendarDate::from_ymd(2024, 2, 29).is_some());
    assert!(CalendarDate::from_ymd(2000, 2, 29).is_some());
    assert!(CalendarDate::from_ymd(2023, 2, 29).is_none());
    assert!(CalendarDate::from_ymd(2100, 2, 29).is_none());
    assert!(CalendarDate::from_ymd(1900, 2, 29).is_none());
}

#[test]
fn from_ymd_knows_the_length_of_each_month() {
    let lengths = [31, 28, 31, 30, 31, 30, 31, 31, 30, 31, 30, 31];
    for month in 1..=12u32 {
        let length = lengths[(month - 1) as usize];
        assert!(CalendarDate::from_ymd(2023, month, length).is_some());
        assert!(CalendarDate::from_ymd(2023, month, length + 1).is_none());
    }
}

#[test]
fn from_ymd_refuses_month_and_day_out_of_range() {
    assert!(CalendarDate::from_ymd(2024, 0, 1).is_none());
    assert!(CalendarDate::from_ymd(2024, 13, 1).is_none());
    assert!(CalendarDate::from_ymd(2024, 1, 0).is_none());
    assert!(CalendarDate::from_ymd(2024, 1, 32).is_none());
    assert!(CalendarDate::from_ymd(2024, 4, 31).is_none());
    assert!(CalendarDate::from_ymd(2024, u32::MAX, u32::MAX).is_none());
}

#[test]
fn from_ymd_supports_years_0_to_65535() {
    assert!(CalendarDate::from_ymd(0, 1, 1).is_some());
    assert!(CalendarDate::from_ymd(0, 2, 29).is_some());
    assert!(CalendarDate::from_ymd(65_535, 12, 31).is_some());
    assert!(CalendarDate::from_ymd(-1, 12, 31).is_none());
    assert!(CalendarDate::from_ymd(65_536, 1, 1).is_none());
    assert!(CalendarDate::from_ymd(i32::MIN, 1, 1).is_none());
    assert!(CalendarDate::from_ymd(i32::MAX, 1, 1).is_none());
}

#[test]
fn weekday_of_known_dates() {
    assert_eq!(date(2024, 1, 1).weekday(), Weekday::Mon);
    assert_eq!(date(2024, 1, 2).weekday(), Weekday::Tue);
    assert_eq!(date(2024, 1, 3).weekday(), Weekday::Wed);
    assert_eq!(date(2024, 1, 4).weekday(), Weekday::Thu);
    assert_eq!(date(2024, 1, 5).weekday(), Weekday::Fri);
    assert_eq!(date(2024, 1, 6).weekday(), Weekday::Sat);
    assert_eq!(date(2024, 1, 7).weekday(), Weekday::Sun);
    assert_eq!(date(2024, 1, 8).weekday(), Weekday::Mon);
    assert_eq!(date(2017, 1, 1).weekday(), Weekday::Sun);
    assert_eq!(date(2000, 2, 29).weekday(), Weekday::Tue);
    assert_eq!(date(2015, 9, 8).weekday(), Weekday::Tue);
    assert_eq!(date(1970, 1, 1).weekday(), Weekday::Thu);
}

#[test]
fn weekday_agrees_with_chrono() {
    let d = chrono::NaiveDate::from_ymd_opt(2031, 7, 19).unwrap();
    let expected = match chrono::Datelike::weekday(&d) {
        chrono::Weekday::Mon => Weekday::Mon,
        chrono::Weekday::Tue => Weekday::Tue,
        chrono::Weekday::Wed => Weekday::Wed,
        chrono::Weekday::Thu => Weekday::Thu,
        chrono::Weekday::Fri => Weekday::Fri,
        chrono::Weekday::Sat => Weekday::Sat,
        chrono::Weekday::Sun => Weekday::Sun,
    };
    assert_eq!(date(2031, 7, 19).weekday(), expected);
    assert_eq!(expected, Weekday::Sat);
}

#[test]
fn succ_within_a_month() {
    assert_eq!(ymd(&date(2015, 6, 3).succ().unwrap()), (2015, 6, 4));
}

#[test]
fn succ_at_the_end_of_a_month() {
    assert_eq!(ymd(&date(2024, 1, 31).succ().unwrap()), (2024, 2, 1));
    assert_eq!(ymd(&date(2024, 4, 30).succ().unwrap()), (2024, 5, 1));
}

#[test]
fn succ_at_the_end_of_february() {
    assert_eq!(ymd(&date(2024, 2, 28).succ().unwrap()), (2024, 2, 29));
    assert_eq!(ymd(&date(2024, 2, 29).succ().unwrap()), (2024, 3, 1));
    assert_eq!(ymd(&date(2023, 2, 28).succ().unwrap()), (2023, 3, 1));
    assert_eq!(ymd(&date(2100, 2, 28).succ().unwrap()), (2100, 3, 1));
}

#[test]
fn succ_at_the_end_of_a_year() {
    assert_eq!(ymd(&date(2023, 12, 31).succ().unwrap()), (2024, 1, 1));
}

#[test]
fn succ_of_the_last_supported_day_is_none() {
    assert!(date(65_535, 12, 31).succ().is_none());
    assert_eq!(ymd(&date(65_535, 12, 30).succ().unwrap()), (65_535, 12, 31));
}

#[test]
fn succ_moves_the_weekday_on_by_one() {
    let monday = date(2024, 1, 1);
    assert_eq!(monday.succ().unwrap().weekday(), Weekday::Tue);
    let sunday = date(2024, 1, 7);
    assert_eq!(sunday.succ().unwrap().weekday(), Weekday::Mon);
}

fn leap(year: i32) -> bool {
    year % 4 == 0 && (year % 100 != 0 || year % 400 == 0)
}

fn leap_years_before(year: i64) -> i64 {
    if year <= 0 {
        0
    } else {
        (year + 3) / 4 - (year + 99) / 100 + (year + 399) / 400
    }
}

fn day_number(year: i32, month: u32, day: u32) -> i64 {
    let lengths: [i64; 12] =
        [31, if leap(year) { 29 } else { 28 }, 31, 30, 31, 30, 31, 31, 30, 31, 30, 31];
    let before: i64 = lengths[..(month as usize - 1)].iter().sum();
    365 * year as i64 + leap_years_before(year as i64) + before + day as i64 - 1
}

fn weekday_after_monday(days: i64) -> Weekday {
    match days % 7 {
        0 => Weekday::Mon,
        1 => Weekday::Tue,
        2 => Weekday::Wed,
        3 => Weekday::Thu,
        4 => Weekday::Fri,
        5 => Weekday::Sat,
        _ => Weekday::Sun,
    }
}

#[test]
fn first_day_of_year_0_is_a_saturday() {
    assert_eq!(day_number(0, 1, 1), 0);
    assert_eq!(date(0, 1, 1).weekday(), Weekday::Sat);
    assert_eq!(date(0, 1, 3).weekday(), Weekday::Mon);
}

#[test]
fn day_number_of_known_dates() {
    assert_eq!(day_number(0, 12, 31), 365);
    assert_eq!(day_number(1, 1, 1), 366);
    assert_eq!(day_number(2024, 1, 1), 739_251);
    assert_eq!(day_number(1970, 1, 1), 719_528);
    assert_eq!(weekday_after_monday(739_251 + 5), Weekday::Mon);
}

#[test]
fn weekday_is_the_count_of_days_from_year_0_in_sevens() {
    let mut day = date(0, 1, 1);
    let mut number: i64 = 0;
    while day.year() < 820 {
        assert_eq!(day_number(day.year(), day.month(), day.day()), number);
        assert_eq!(day.weekday(), weekday_after_monday(number + 5));
        day = day.succ().unwrap();
        number += 1;
    }
}

#[test]
fn weekday_is_the_count_of_days_in_the_years_of_the_engine() {
    let mut day = date(1999, 12, 25);
    let mut number = day_number(1999, 12, 25);
    while day.year() < 2120 {
        assert_eq!(day_number(day.year(), day.month(), day.day()), number);
        assert_eq!(day.weekday(), weekday_after_monday(number + 5));
        day = day.succ().unwrap();
        number += 1;
    }
}

#[test]
fn weekday_is_the_count_of_days_at_the_turn_of_every_year() {
    for year in 0..=65_535 {
        for (month, day) in [(1, 1), (2, 28), (3, 1), (12, 31)] {
            let expected = weekday_after_monday(day_number(year, month, day) + 5);
            assert_eq!(date(year, month, day).weekday(), expected, "{year}-{month}-{day}");
        }
    }
}
