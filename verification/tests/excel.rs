use std::io::Read;
use tabel::calendar::CalendarDate;
use tabel::days::{Day, DayType, Days};
use tabel::error::EngineError;
use tabel::excel::{build_workbook, build_year_workbook, finish_table, get_filled_table, request_table};
use tabel::holidays::HolidayDates;
use tabel::sheet::assemble_sheet;

const MONTHS: [&str; 12] = [
    "❄️ Январь",
    "🌨️ Февраль",
    "🌱 Март",
    "🌸 Апрель",
    "🌿 Май",
    "☀️ Июнь",
    "🏖️ Июль",
    "🍉 Август",
    "🍂 Сентябрь",
    "🍁 Октябрь",
    "🌧️ Ноябрь",
    "🎄 Декабрь",
];

fn holidays_of(dates: &[(i32, u32, u32)]) -> HolidayDates {
    let dates: Vec<CalendarDate> =
        dates.iter().map(|d| CalendarDate::from_ymd(d.0, d.1, d.2).unwrap()).collect();
    HolidayDates::from_dates(&dates)
}

fn entry(bytes: &[u8], name: &str) -> String {
    let mut archive = zip::ZipArchive::new(std::io::Cursor::new(bytes.to_vec())).unwrap();
    let mut file = archive.by_name(name).unwrap();
    let mut text = String::new();
    file.read_to_string(&mut text).unwrap();
    text
}

fn sheet_names(bytes: &[u8]) -> Vec<String> {
    let book = entry(bytes, "xl/workbook.xml");
    book.split("<sheet name=\"")
        .skip(1)
        .map(|rest| rest[..rest.find('"').unwrap()].to_string())
        .collect()
}

fn cell_xml(sheet: &str, name: &str) -> String {
    let open = format!("<c r=\"{}\"", name);
    let start = sheet.find(&open).unwrap();
    let rest = &sheet[start..];
    let end = match (rest.find("</c>"), rest.find("/>")) {
        (Some(a), Some(b)) if b < a && !rest[..b].contains('>') => b + 2,
        (Some(a), _) => a + 4,
        (None, Some(b)) => b + 2,
        (None, None) => rest.len(),
    };
    rest[..end].to_string()
}

fn style_index(sheet: &str, name: &str) -> String {
    let xml = cell_xml(sheet, name);
    let at = xml.find(" s=\"").unwrap() + 4;
    xml[at..at + xml[at..].find('"').unwrap()].to_string()
}

#[test]
fn year_before_2017_is_refused() {
    let none = HolidayDates::new();
    assert_eq!(get_filled_table(2016, 60_000, Some(&none)), Err(EngineError::UnsupportedYear));
    assert_eq!(get_filled_table(2016, 0, Some(&none)), Err(EngineError::UnsupportedYear));
    assert_eq!(get_filled_table(0, 1, Some(&none)), Err(EngineError::UnsupportedYear));
}

#[test]
fn year_before_2017_is_refused_whatever_the_holiday_source_gave() {
    assert_eq!(get_filled_table(2016, 60_000, None), Err(EngineError::UnsupportedYear));
    assert!(matches!(build_year_workbook(2016, 1, None), Err(EngineError::UnsupportedYear)));
}

#[test]
fn failure_of_the_holiday_source_is_handed_on() {
    assert_eq!(get_filled_table(2017, 60_000, None), Err(EngineError::HolidaySourceUnavailable));
    assert!(matches!(
        build_year_workbook(2024, 1, None),
        Err(EngineError::HolidaySourceUnavailable)
    ));
}

#[test]
fn request_for_a_year_before_2017_fails_before_anything_is_fetched() {
    for salary in [0u32, 1, 60_000, u32::MAX] {
        assert!(matches!(request_table(2016, salary), Err(EngineError::UnsupportedYear)));
    }
    assert!(matches!(request_table(0, 5), Err(EngineError::UnsupportedYear)));
}

#[test]
fn request_for_a_supported_year_waits_for_the_holidays() {
    let pending = request_table(2017, 5).unwrap();
    assert_eq!(pending.year(), 2017);
    assert_eq!(pending.salary(), 5);
    assert!(request_table(u16::MAX, 0).is_ok());
}

#[test]
fn failure_of_the_holiday_source_is_reported() {
    let pending = request_table(2024, 60_000).unwrap();
    assert_eq!(pending.complete(None), Err(EngineError::HolidaySourceUnavailable));
}

#[test]
fn request_with_holidays_gives_the_table() {
    let holidays = holidays_of(&[(2024, 1, 1)]);
    let bytes = request_table(2024, 60_000).unwrap().complete(Some(&holidays)).unwrap();
    assert_eq!(sheet_names(&bytes), MONTHS);
}

#[test]
fn failure_of_the_sink_is_reported() {
    assert_eq!(
        finish_table(Err(rust_xlsxwriter::XlsxError::RowColumnLimitError)),
        Err(EngineError::SinkWriteFailure)
    );
    assert_eq!(
        finish_table(Err(rust_xlsxwriter::XlsxError::SheetnameReused("a".to_string()))),
        Err(EngineError::SinkWriteFailure)
    );
}

#[test]
fn bytes_of_the_sink_are_handed_on() {
    assert_eq!(finish_table(Ok(vec![80, 75, 3, 4])), Ok(vec![80, 75, 3, 4]));
    assert_eq!(finish_table(Ok(vec![])), Ok(vec![]));
}

#[test]
fn table_is_a_zip_file() {
    let bytes = get_filled_table(2017, 0, Some(&HolidayDates::new())).unwrap();
    assert_eq!(&bytes[..4], &[0x50, 0x4B, 0x03, 0x04]);
}

#[test]
fn table_of_2024_has_twelve_sheets_in_month_order() {
    let holidays = holidays_of(&[(2024, 1, 1), (2024, 1, 8)]);
    let bytes = get_filled_table(2024, 60_000, Some(&holidays)).unwrap();
    assert_eq!(sheet_names(&bytes), MONTHS);
    for i in 1..=12 {
        let sheet = entry(&bytes, &format!("xl/worksheets/sheet{}.xml", i));
        assert!(sheet.contains("<f>E5/E1*B4*2</f>"));
        assert!(sheet.contains("<f>60000</f>"));
        assert!(sheet.contains("showGridLines=\"0\""));
    }
}

#[test]
fn table_of_2024_january_rows_are_styled_by_kind_of_day() {
    let holidays = holidays_of(&[(2024, 1, 1), (2024, 1, 8)]);
    let bytes = get_filled_table(2024, 60_000, Some(&holidays)).unwrap();
    let january = entry(&bytes, "xl/worksheets/sheet1.xml");
    let earn = style_index(&january, "A4");
    let usual = style_index(&january, "A5");
    let weekend = style_index(&january, "A10");
    assert_ne!(earn, usual);
    assert_ne!(earn, weekend);
    assert_ne!(usual, weekend);
    assert_eq!(style_index(&january, "B4"), earn);
    assert_eq!(style_index(&january, "A11"), earn);
    assert_eq!(style_index(&january, "B11"), earn);
    assert_eq!(style_index(&january, "A9"), earn);
    assert_eq!(style_index(&january, "B10"), weekend);
    assert_eq!(style_index(&january, "A17"), weekend);
    assert_eq!(style_index(&january, "A6"), usual);
    assert_eq!(style_index(&january, "B34"), usual);
}

#[test]
fn table_of_2024_january_sums_leave_out_holidays_and_weekends() {
    let holidays = holidays_of(&[(2024, 1, 1), (2024, 1, 8)]);
    let bytes = get_filled_table(2024, 60_000, Some(&holidays)).unwrap();
    let january = entry(&bytes, "xl/worksheets/sheet1.xml");
    let usual =
        "B5+B6+B7+B8+B12+B13+B14+B15+B18+B19+B20+B21+B22+B25+B26+B27+B28+B29+B32+B33+B34";
    assert!(cell_xml(&january, "E3").contains(&format!("<f>{}</f>", usual)));
    assert!(cell_xml(&january, "E2")
        .contains("<f>B4+B9+B10+B11+B16+B17+B23+B24+B30+B31</f>"));
    assert!(cell_xml(&january, "E1").contains("<v>168</v>"));
    assert!(cell_xml(&january, "E6").contains("<f>SUM(C4:C34)+E5</f>"));
    assert!(cell_xml(&january, "E5").contains("<f>60000</f>"));
    assert!(cell_xml(&january, "A1").contains("<v>2024</v>"));
    assert!(january.contains("<mergeCell ref=\"B1:C1\"/>"));
    assert!(january.contains("<mergeCell ref=\"A2:C2\"/>"));
    assert!(january.contains("<mergeCell ref=\"A35:C35\"/>"));
    for day in [1, 7, 8, 6, 13, 14, 20, 21, 27, 28] {
        assert!(!format!("+{}+", usual).contains(&format!("+B{}+", day + 3)));
    }
}

#[test]
fn table_holds_the_texts_of_the_sheet() {
    let bytes = get_filled_table(2024, 60_000, Some(&HolidayDates::new())).unwrap();
    let strings = entry(&bytes, "xl/sharedStrings.xml");
    for text in [
        "1 Пн",
        "7 Вс",
        "31 Ср",
        "dev.release",
        "Число/День",
        "Часы",
        "Доплата",
        "Рабочие часы:",
        "Часы выходных:",
        "Часы переработки:",
        "Оклад:",
        "К получению:",
    ] {
        assert!(strings.contains(&format!("<t>{}</t>", text)));
    }
}

#[test]
fn table_with_salary_zero_leaves_the_salary_empty() {
    let bytes = get_filled_table(2024, 0, Some(&HolidayDates::new())).unwrap();
    let january = entry(&bytes, "xl/worksheets/sheet1.xml");
    let salary = cell_xml(&january, "E5");
    assert!(salary.contains("<f></f>") || salary.contains("<f/>"));
    assert!(!salary.contains("<f>0</f>"));
}

#[test]
fn table_with_a_salary_writes_the_amount() {
    let bytes = get_filled_table(2024, 50_000, Some(&HolidayDates::new())).unwrap();
    let january = entry(&bytes, "xl/worksheets/sheet1.xml");
    assert!(cell_xml(&january, "E5").contains("<f>50000</f>"));
}

#[test]
fn table_of_february_ends_with_its_last_day() {
    let none = HolidayDates::new();
    for (year, last) in [(2023u16, 28u32), (2024, 29)] {
        let bytes = get_filled_table(year, 1, Some(&none)).unwrap();
        let february = entry(&bytes, "xl/worksheets/sheet2.xml");
        assert!(february.contains(&format!("<f>SUM(C4:C{})+E5</f>", last + 3)));
        assert!(february.contains(&format!("<mergeCell ref=\"A{0}:C{0}\"/>", last + 4)));
        assert!(february.contains(&format!("<c r=\"A{}\"", last + 3)));
        assert!(!february.contains(&format!("<f>E5/E1*B{}*2</f>", last + 4)));
    }
}

#[test]
fn year_workbook_is_refused_before_2017() {
    assert!(matches!(
        build_year_workbook(2016, 1, Some(&HolidayDates::new())),
        Err(EngineError::UnsupportedYear)
    ));
}

#[test]
fn year_workbook_has_the_twelve_months() {
    let mut book = build_year_workbook(2025, 1, Some(&HolidayDates::new())).unwrap();
    let names: Vec<String> = book.worksheets().iter().map(|s| s.name()).collect();
    assert_eq!(names, MONTHS);
    assert!(book.save_to_buffer().is_ok());
}

#[test]
fn workbook_of_a_few_days_has_a_sheet_for_each_month_begun() {
    let dates = [(2024, 2, 28), (2024, 2, 29), (2024, 3, 1), (2024, 3, 2)];
    let days: Vec<Day> = dates
        .iter()
        .map(|d| Day::new(CalendarDate::from_ymd(d.0, d.1, d.2).unwrap(), DayType::Usual))
        .collect();
    let run = Days::from_vec(days).unwrap();
    let mut book = build_workbook(&run, 7).unwrap();
    let names: Vec<String> = book.worksheets().iter().map(|s| s.name()).collect();
    assert_eq!(names, vec!["🌨️ Февраль", "🌱 Март"]);
}

#[test]
fn workbook_of_no_days_has_no_sheet() {
    let run = Days::from_vec(vec![]).unwrap();
    let mut book = build_workbook(&run, 7).unwrap();
    assert!(book.worksheets().is_empty());
}

#[test]
fn days_are_a_run_only_without_a_gap() {
    let day = |y, m, d| Day::new(CalendarDate::from_ymd(y, m, d).unwrap(), DayType::Usual);
    assert!(Days::from_vec(vec![day(2024, 12, 31), day(2025, 1, 1)]).is_some());
    assert!(Days::from_vec(vec![day(2024, 1, 1)]).is_some());
    assert!(Days::from_vec(vec![day(2024, 1, 1), day(2024, 1, 3)]).is_none());
    assert!(Days::from_vec(vec![day(2024, 1, 2), day(2024, 1, 1)]).is_none());
    assert!(Days::from_vec(vec![day(2024, 1, 1), day(2024, 1, 1)]).is_none());
    assert!(Days::from_vec(vec![day(2024, 1, 31), day(2025, 2, 1)]).is_none());
    assert!(Days::from_vec(vec![day(65_535, 12, 31), day(0, 1, 1)]).is_none());
    let run = Days::from_vec(vec![day(2024, 2, 29), day(2024, 3, 1)]).unwrap();
    assert_eq!(run.len(), 2);
    assert_eq!(run.get(1).unwrap().number(), 1);
    assert!(run.get(2).is_none());
}

#[test]
fn sheet_of_a_month_is_named_after_it() {
    let months = Days::new_with_holidays(2024, &HolidayDates::new()).split_months();
    for (i, month) in months.iter().enumerate() {
        assert_eq!(assemble_sheet(month, 60_000).unwrap().name(), MONTHS[i]);
    }
}

#[test]
fn sheet_of_part_of_a_month_is_accepted() {
    let day = |d| Day::new(CalendarDate::from_ymd(2024, 5, d).unwrap(), DayType::Earn);
    let run = Days::from_vec(vec![day(30), day(31)]).unwrap();
    let months = run.split_months();
    assert_eq!(months.len(), 1);
    let sheet = assemble_sheet(&months[0], 0).unwrap();
    assert_eq!(sheet.name(), "🌿 Май");
}

#[test]
fn messages_of_the_errors() {
    assert_eq!(EngineError::UnsupportedYear.message(), "You cant use year lowest than 2017!");
    assert_eq!(
        EngineError::HolidaySourceUnavailable.message(),
        "Cannot fetch holidays from github!"
    );
    assert_eq!(EngineError::SinkWriteFailure.message(), "Cannot write the table!");
}

#[test]
fn table_of_the_first_and_the_last_supported_year() {
    let none = HolidayDates::new();
    for year in [2017u16, u16::MAX] {
        let bytes = get_filled_table(year, u32::MAX, Some(&none)).unwrap();
        assert_eq!(sheet_names(&bytes), MONTHS);
        let january = entry(&bytes, "xl/worksheets/sheet1.xml");
        assert!(cell_xml(&january, "A1").contains(&format!("<v>{}</v>", year)));
        assert!(cell_xml(&january, "E5").contains("<f>4294967295</f>"));
        let december = entry(&bytes, "xl/worksheets/sheet12.xml");
        assert!(december.contains("<mergeCell ref=\"A35:C35\"/>"));
    }
}

#[test]
fn file_of_a_few_days_lists_the_months_begun() {
    let dates = [(2024, 2, 28), (2024, 2, 29), (2024, 3, 1), (2024, 3, 2)];
    let days: Vec<Day> = dates
        .iter()
        .map(|d| Day::new(CalendarDate::from_ymd(d.0, d.1, d.2).unwrap(), DayType::Usual))
        .collect();
    let mut book = build_workbook(&Days::from_vec(days).unwrap(), 7).unwrap();
    let bytes = finish_table(book.save_to_buffer()).unwrap();
    assert_eq!(sheet_names(&bytes), vec!["🌨️ Февраль", "🌱 Март"]);
}

#[test]
fn file_of_a_workbook_without_sheets_lists_one_of_the_sink() {
    let mut book = build_workbook(&Days::from_vec(vec![]).unwrap(), 7).unwrap();
    let bytes = finish_table(book.save_to_buffer()).unwrap();
    assert_eq!(sheet_names(&bytes), vec!["Sheet1"]);
}

#[test]
fn file_of_every_supported_kind_of_year_lists_the_twelve_months() {
    for year in [2017, 2020, 2023, 2100] {
        let bytes = get_filled_table(year, 1, Some(&HolidayDates::new())).unwrap();
        assert_eq!(sheet_names(&bytes), MONTHS);
    }
}
