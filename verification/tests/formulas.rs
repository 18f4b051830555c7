use tabel::calendar::CalendarDate;
use tabel::days::{DayType, Days};
use tabel::formulas::{
    bonus_formula, month_totals, salary_formula, sum_formula, total_payment_formula, HOURS_PER_DAY,
};
use tabel::holidays::HolidayDates;
use tabel::layout::{cell_name_string, cell_of, last_col_of, CellCoord, CellRole};
use tabel::text::{column_name_string, decimal_string};

fn cell(row: u32, col: u16) -> CellCoord {
    CellCoord { row, col }
}

fn holidays_of(dates: &[(i32, u32, u32)]) -> HolidayDates {
    let dates: Vec<CalendarDate> =
        dates.iter().map(|d| CalendarDate::from_ymd(d.0, d.1, d.2).unwrap()).collect();
    HolidayDates::from_dates(&dates)
}

#[test]
fn decimal_of_small_and_large_numbers() {
    assert_eq!(decimal_string(0), "0");
    assert_eq!(decimal_string(7), "7");
    assert_eq!(decimal_string(10), "10");
    assert_eq!(decimal_string(31), "31");
    assert_eq!(decimal_string(50_000), "50000");
    assert_eq!(decimal_string(1_000_000_007), "1000000007");
    assert_eq!(decimal_string(u32::MAX as u64), "4294967295");
    assert_eq!(decimal_string(u64::MAX), "18446744073709551615");
}

#[test]
fn decimal_agrees_with_to_string() {
    for n in [0u64, 9, 10, 99, 100, 101, 999, 1000, 65_535, 65_536, 123_456_789] {
        assert_eq!(decimal_string(n), n.to_string());
    }
}

#[test]
fn column_names() {
    assert_eq!(column_name_string(0), "A");
    assert_eq!(column_name_string(1), "B");
    assert_eq!(column_name_string(4), "E");
    assert_eq!(column_name_string(25), "Z");
    assert_eq!(column_name_string(26), "AA");
    assert_eq!(column_name_string(27), "AB");
    assert_eq!(column_name_string(51), "AZ");
    assert_eq!(column_name_string(52), "BA");
    assert_eq!(column_name_string(701), "ZZ");
    assert_eq!(column_name_string(702), "AAA");
    assert_eq!(column_name_string(16_383), "XFD");
}

#[test]
fn column_names_agree_with_the_sink() {
    for col in [0u16, 1, 25, 26, 27, 255, 256, 701, 702, 703, 16_383, 16_384, 65_534] {
        assert_eq!(
            column_name_string(col),
            rust_xlsxwriter::utility::column_number_to_name(col)
        );
    }
}

#[test]
fn cell_names_count_rows_from_one() {
    assert_eq!(cell_name_string(cell(0, 0)), "A1");
    assert_eq!(cell_name_string(cell(0, 4)), "E1");
    assert_eq!(cell_name_string(cell(4, 4)), "E5");
    assert_eq!(cell_name_string(cell(3, 1)), "B4");
    assert_eq!(cell_name_string(cell(1_048_575, 16_383)), "XFD1048576");
    assert_eq!(cell_name_string(cell(u32::MAX, 0)), "A4294967296");
}

#[test]
fn day_rows_start_on_row_three() {
    assert_eq!(cell_of(CellRole::DayLabel, 1), cell(3, 0));
    assert_eq!(cell_of(CellRole::DayHours, 1), cell(3, 1));
    assert_eq!(cell_of(CellRole::DayBonus, 1), cell(3, 2));
    assert_eq!(cell_of(CellRole::DayLabel, 31), cell(33, 0));
    assert_eq!(cell_of(CellRole::DayHours, 31), cell(33, 1));
    assert_eq!(cell_of(CellRole::DayBonus, 31), cell(33, 2));
    assert_eq!(cell_of(CellRole::DayBonus, 255), cell(257, 2));
}

#[test]
fn fixed_cells_of_the_layout() {
    assert_eq!(cell_of(CellRole::Year, 0), cell(0, 0));
    assert_eq!(cell_of(CellRole::AppInfo, 0), cell(0, 1));
    assert_eq!(cell_of(CellRole::MonthBanner, 0), cell(1, 0));
    assert_eq!(cell_of(CellRole::Header, 0), cell(2, 0));
    assert_eq!(cell_of(CellRole::InputHeader, 0), cell(2, 1));
    assert_eq!(cell_of(CellRole::BonusHeader, 0), cell(2, 2));
    assert_eq!(cell_of(CellRole::TotalHoursLabel, 0), cell(0, 3));
    assert_eq!(cell_of(CellRole::TotalHoursValue, 0), cell(0, 4));
    assert_eq!(cell_of(CellRole::WeekendHoursLabel, 0), cell(1, 3));
    assert_eq!(cell_of(CellRole::WeekendHoursValue, 0), cell(1, 4));
    assert_eq!(cell_of(CellRole::OverworkLabel, 0), cell(2, 3));
    assert_eq!(cell_of(CellRole::OverworkValue, 0), cell(2, 4));
    assert_eq!(cell_of(CellRole::SalaryLabel, 0), cell(4, 3));
    assert_eq!(cell_of(CellRole::SalaryValue, 0), cell(4, 4));
    assert_eq!(cell_of(CellRole::TotalPaymentLabel, 0), cell(5, 3));
    assert_eq!(cell_of(CellRole::TotalPaymentValue, 0), cell(5, 4));
}

#[test]
fn fixed_cells_do_not_depend_on_the_day() {
    for role in [CellRole::Year, CellRole::SalaryValue, CellRole::MonthBanner, CellRole::Header] {
        assert_eq!(cell_of(role, 0), cell_of(role, 31));
    }
}

#[test]
fn rule_stands_below_the_last_day_row() {
    assert_eq!(cell_of(CellRole::BottomRule, 31), cell(34, 0));
    assert_eq!(cell_of(CellRole::BottomRule, 28), cell(31, 0));
    assert_eq!(cell_of(CellRole::BottomRule, 255), cell(258, 0));
}

#[test]
fn last_columns_of_merged_roles() {
    assert_eq!(last_col_of(CellRole::AppInfo), 2);
    assert_eq!(last_col_of(CellRole::MonthBanner), 2);
    assert_eq!(last_col_of(CellRole::BottomRule), 2);
    assert_eq!(last_col_of(CellRole::SalaryValue), 4);
    assert_eq!(last_col_of(CellRole::DayHours), 1);
    assert_eq!(last_col_of(CellRole::Year), 0);
}

#[test]
fn bonus_formula_names_salary_baseline_and_hours_of_the_day() {
    assert_eq!(bonus_formula(1), "=E5/E1*B4*2");
    assert_eq!(bonus_formula(7), "=E5/E1*B10*2");
    assert_eq!(bonus_formula(31), "=E5/E1*B34*2");
}

#[test]
fn bonus_formula_names_the_cells_of_the_layout() {
    let salary = cell_name_string(cell_of(CellRole::SalaryValue, 0));
    let baseline = cell_name_string(cell_of(CellRole::TotalHoursValue, 0));
    let hours = cell_name_string(cell_of(CellRole::DayHours, 15));
    assert_eq!(bonus_formula(15), format!("={}/{}*{}*2", salary, baseline, hours));
}

#[test]
fn sum_of_no_cells_is_zero() {
    assert_eq!(sum_formula(&vec![]), "=0");
}

#[test]
fn sum_of_one_cell_is_the_cell() {
    assert_eq!(sum_formula(&vec![cell(3, 1)]), "=B4");
}

#[test]
fn sum_of_cells_joins_them_with_plus() {
    assert_eq!(sum_formula(&vec![cell(3, 1), cell(4, 1)]), "=B4+B5");
    assert_eq!(sum_formula(&vec![cell(3, 1), cell(9, 1), cell(33, 1)]), "=B4+B10+B34");
}

#[test]
fn total_payment_sums_the_bonuses_of_the_month() {
    assert_eq!(total_payment_formula(1, 31), "=SUM(C4:C34)+E5");
    assert_eq!(total_payment_formula(1, 28), "=SUM(C4:C31)+E5");
    assert_eq!(total_payment_formula(1, 29), "=SUM(C4:C32)+E5");
    assert_eq!(total_payment_formula(1, 30), "=SUM(C4:C33)+E5");
}

#[test]
fn salary_of_zero_is_an_empty_input() {
    assert_eq!(salary_formula(0), "=");
}

#[test]
fn salary_is_written_as_the_amount() {
    assert_eq!(salary_formula(50_000), "=50000");
    assert_eq!(salary_formula(60_000), "=60000");
    assert_eq!(salary_formula(1), "=1");
    assert_eq!(salary_formula(u32::MAX), "=4294967295");
}

#[test]
fn totals_of_january_2024() {
    let holidays = holidays_of(&[(2024, 1, 1), (2024, 1, 8)]);
    let months = Days::new_with_holidays(2024, &holidays).split_months();
    let totals = month_totals(&months[0]);
    let usual_days = [2, 3, 4, 5, 9, 10, 11, 12, 15, 16, 17, 18, 19, 22, 23, 24, 25, 26, 29, 30, 31];
    let other_days = [1, 6, 7, 8, 13, 14, 20, 21, 27, 28];
    let usual: Vec<CellCoord> = usual_days.iter().map(|d| cell(2 + d, 1)).collect();
    let other: Vec<CellCoord> = other_days.iter().map(|d| cell(2 + d, 1)).collect();
    assert_eq!(totals.usual_day_cells, usual);
    assert_eq!(totals.weekend_cells, other);
    assert_eq!(totals.work_hours, 21 * 8);
    assert_eq!(HOURS_PER_DAY, 8);
    assert_eq!(
        sum_formula(&totals.usual_day_cells),
        "=B5+B6+B7+B8+B12+B13+B14+B15+B18+B19+B20+B21+B22+B25+B26+B27+B28+B29+B32+B33+B34"
    );
    assert_eq!(sum_formula(&totals.weekend_cells), "=B4+B9+B10+B11+B16+B17+B23+B24+B30+B31");
}

#[test]
fn totals_stay_within_the_rows_of_the_month() {
    let none = HolidayDates::new();
    for year in [2023u16, 2024] {
        for month in Days::new_with_holidays(year, &none).split_months() {
            let totals = month_totals(&month);
            let first = 2 + month.first().number();
            let last = 2 + month.get(month.len() - 1).unwrap().number();
            assert_eq!(totals.usual_day_cells.len() + totals.weekend_cells.len(), month.len());
            for c in totals.usual_day_cells.iter().chain(totals.weekend_cells.iter()) {
                assert_eq!(c.col, 1);
                assert!(first <= c.row && c.row <= last);
            }
            assert_eq!(totals.work_hours as usize, 8 * totals.usual_day_cells.len());
        }
    }
}

#[test]
fn days_of_each_kind_go_to_their_list() {
    let holidays = holidays_of(&[(2024, 5, 9)]);
    let months = Days::new_with_holidays(2024, &holidays).split_months();
    let may = &months[4];
    let totals = month_totals(may);
    for k in 0..may.len() {
        let day = may.get(k).unwrap();
        let c = cell(2 + day.number(), 1);
        assert_eq!(totals.usual_day_cells.contains(&c), day.earn_type() == DayType::Usual);
        assert_eq!(totals.weekend_cells.contains(&c), day.earn_type() != DayType::Usual);
    }
}

#[test]
fn formulas_are_written_in_ascii() {
    assert!(bonus_formula(31).is_ascii());
    assert!(sum_formula(&vec![]).is_ascii());
    assert!(sum_formula(&vec![cell(3, 1), cell(u32::MAX, u16::MAX)]).is_ascii());
    assert!(total_payment_formula(1, 31).is_ascii());
    assert!(salary_formula(0).is_ascii());
    assert!(salary_formula(u32::MAX).is_ascii());
}
