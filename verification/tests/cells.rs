use tabel::calendar::CalendarDate;
use tabel::cells_filling::{
    add_day_cell, add_header_cells, add_overworked_hours, add_polish, add_salary, add_total_cells,
    add_total_hours, add_total_payment, add_weekend_hours, fill_month_sheet, label, WIDTH_BONUS,
    WIDTH_HOURS, WIDTH_TOTALS,
};
use tabel::days::{Day, DayType, Days, MonthGroup, Season};
use tabel::holidays::HolidayDates;
use tabel::layout::{CellCoord, CellRole};
use tabel::plan::{SheetPlan, SinkOp};
use tabel::styles::{cell_style, style_for, CellType, DataType, StyleDescriptor};

fn cell(row: u32, col: u16) -> CellCoord {
    CellCoord { row, col }
}

fn day(year: i32, month: u32, number: u32, flag: DayType) -> Day {
    Day::new(CalendarDate::from_ymd(year, month, number).unwrap(), flag)
}

fn holidays_of(dates: &[(i32, u32, u32)]) -> HolidayDates {
    let dates: Vec<CalendarDate> =
        dates.iter().map(|d| CalendarDate::from_ymd(d.0, d.1, d.2).unwrap()).collect();
    HolidayDates::from_dates(&dates)
}

fn months_of(year: u16, holidays: &HolidayDates) -> Vec<MonthGroup> {
    Days::new_with_holidays(year, holidays).split_months()
}

fn text(row: u32, col: u16, text: &str, style: StyleDescriptor) -> SinkOp {
    SinkOp::WriteText { cell: cell(row, col), text: text.to_string(), style }
}

fn formula(row: u32, col: u16, formula: &str, style: StyleDescriptor) -> SinkOp {
    SinkOp::WriteFormula { cell: cell(row, col), formula: formula.to_string(), style }
}

fn header_style() -> StyleDescriptor {
    cell_style(DataType::UsualText, CellType::Header)
}

fn input_style() -> StyleDescriptor {
    cell_style(DataType::UsualText, CellType::InputHeader)
}

fn day_ops(plan: &SheetPlan, number: usize) -> &[SinkOp] {
    &plan.ops[1 + 3 * (number - 1)..1 + 3 * number]
}

fn style_of(op: &SinkOp) -> StyleDescriptor {
    match op {
        SinkOp::WriteText { style, .. } => *style,
        SinkOp::WriteNumber { style, .. } => *style,
        SinkOp::WriteFormula { style, .. } => *style,
        SinkOp::Merge { style, .. } => *style,
        _ => panic!("an operation without a look"),
    }
}

#[test]
fn labels_of_the_sheet() {
    assert_eq!(label(CellRole::DayHours), "0");
    assert_eq!(label(CellRole::AppInfo), "dev.release");
    assert_eq!(label(CellRole::Header), "Число/День");
    assert_eq!(label(CellRole::InputHeader), "Часы");
    assert_eq!(label(CellRole::BonusHeader), "Доплата");
    assert_eq!(label(CellRole::TotalHoursLabel), "Рабочие часы:");
    assert_eq!(label(CellRole::WeekendHoursLabel), "Часы выходных:");
    assert_eq!(label(CellRole::OverworkLabel), "Часы переработки:");
    assert_eq!(label(CellRole::SalaryLabel), "Оклад:");
    assert_eq!(label(CellRole::TotalPaymentLabel), "К получению:");
    assert_eq!(label(CellRole::BottomRule), "");
    assert_eq!(label(CellRole::Year), "");
}

#[test]
fn row_of_a_usual_day() {
    let mut plan = SheetPlan::new();
    let flag = add_day_cell(&mut plan, &day(2024, 1, 2, DayType::Usual));
    assert_eq!(flag, DayType::Usual);
    let usual = cell_style(DataType::UsualText, CellType::Usual);
    let money = cell_style(DataType::Money, CellType::Usual);
    assert_eq!(
        plan.ops,
        vec![
            text(4, 0, "2 Вт", usual),
            text(4, 1, "0", usual),
            formula(4, 2, "=E5/E1*B5*2", money),
        ]
    );
    assert_eq!(plan.name, "");
}

#[test]
fn row_of_a_day_takes_the_look_of_its_kind() {
    let cases =
        [(DayType::Earn, CellType::Earn), (DayType::Weekend, CellType::Weekend)];
    for (flag, cell_type) in cases {
        let mut plan = SheetPlan::new();
        assert_eq!(add_day_cell(&mut plan, &day(2024, 1, 31, flag)), flag);
        let plain = cell_style(DataType::UsualText, cell_type);
        let money = cell_style(DataType::Money, cell_type);
        assert_eq!(
            plan.ops,
            vec![
                text(33, 0, "31 Ср", plain),
                text(33, 1, "0", plain),
                formula(33, 2, "=E5/E1*B34*2", money),
            ]
        );
    }
}

#[test]
fn rows_are_added_after_what_is_planned() {
    let mut plan = SheetPlan::new();
    plan.push(SinkOp::HideGridlines);
    add_day_cell(&mut plan, &day(2024, 1, 1, DayType::Usual));
    add_day_cell(&mut plan, &day(2024, 1, 2, DayType::Usual));
    assert_eq!(plan.ops.len(), 7);
    assert_eq!(plan.ops[0], SinkOp::HideGridlines);
    assert_eq!(plan.ops[1], text(3, 0, "1 Пн", cell_style(DataType::UsualText, CellType::Usual)));
    assert_eq!(plan.ops[4], text(4, 0, "2 Вт", cell_style(DataType::UsualText, CellType::Usual)));
}

#[test]
fn head_of_a_winter_month() {
    let mut plan = SheetPlan::new();
    add_header_cells(&mut plan, &day(2024, 1, 1, DayType::Earn));
    assert_eq!(
        plan.ops,
        vec![
            SinkOp::WriteNumber { cell: cell(0, 0), number: 2024, style: header_style() },
            SinkOp::Merge {
                first: cell(0, 1),
                last: cell(0, 2),
                text: "dev.release".to_string(),
                style: header_style(),
            },
            text(2, 0, "Число/День", header_style()),
            text(2, 2, "Доплата", header_style()),
            text(2, 1, "Часы", input_style()),
            SinkOp::Merge {
                first: cell(1, 0),
                last: cell(1, 2),
                text: "❄️ Январь".to_string(),
                style: cell_style(DataType::UsualText, CellType::MonthWinter),
            },
        ]
    );
}

#[test]
fn banner_follows_month_and_season() {
    let cases = [
        (4, "🌸 Апрель", CellType::MonthSpring),
        (7, "🏖️ Июль", CellType::MonthSummer),
        (10, "🍁 Октябрь", CellType::MonthAutumn),
        (12, "🎄 Декабрь", CellType::MonthWinter),
    ];
    for (month, name, cell_type) in cases {
        let mut plan = SheetPlan::new();
        add_header_cells(&mut plan, &day(2023, month, 1, DayType::Usual));
        assert_eq!(plan.ops.len(), 6);
        assert_eq!(
            plan.ops[5],
            SinkOp::Merge {
                first: cell(1, 0),
                last: cell(1, 2),
                text: name.to_string(),
                style: cell_style(DataType::UsualText, cell_type),
            }
        );
        assert_eq!(
            plan.ops[0],
            SinkOp::WriteNumber { cell: cell(0, 0), number: 2023, style: header_style() }
        );
    }
}

#[test]
fn salary_of_zero_is_left_for_the_user() {
    let mut plan = SheetPlan::new();
    add_salary(&mut plan, 0);
    assert_eq!(
        plan.ops,
        vec![
            text(4, 3, "Оклад:", input_style()),
            formula(4, 4, "=", cell_style(DataType::Money, CellType::InputHeader)),
        ]
    );
}

#[test]
fn salary_is_written_as_an_input() {
    let mut plan = SheetPlan::new();
    add_salary(&mut plan, 50_000);
    assert_eq!(
        plan.ops,
        vec![
            text(4, 3, "Оклад:", input_style()),
            formula(4, 4, "=50000", cell_style(DataType::Money, CellType::InputHeader)),
        ]
    );
}

#[test]
fn baseline_hours_are_written_as_a_number() {
    let mut plan = SheetPlan::new();
    add_total_hours(&mut plan, 168);
    assert_eq!(
        plan.ops,
        vec![
            text(0, 3, "Рабочие часы:", header_style()),
            SinkOp::WriteNumber { cell: cell(0, 4), number: 168, style: header_style() },
        ]
    );
}

#[test]
fn weekend_hours_stand_on_row_one() {
    let mut plan = SheetPlan::new();
    add_weekend_hours(&mut plan, "=B9+B10".to_string());
    assert_eq!(
        plan.ops,
        vec![text(1, 3, "Часы выходных:", header_style()), formula(1, 4, "=B9+B10", header_style())]
    );
}

#[test]
fn overworked_hours_stand_on_row_two() {
    let mut plan = SheetPlan::new();
    add_overworked_hours(&mut plan, "=B4+B5".to_string());
    assert_eq!(
        plan.ops,
        vec![
            text(2, 3, "Часы переработки:", header_style()),
            formula(2, 4, "=B4+B5", header_style()),
        ]
    );
}

#[test]
fn total_payment_stands_on_row_five() {
    let mut plan = SheetPlan::new();
    add_total_payment(&mut plan, 1, 30);
    assert_eq!(
        plan.ops,
        vec![
            text(5, 3, "К получению:", cell_style(DataType::UsualText, CellType::TotalPayment)),
            formula(5, 4, "=SUM(C4:C33)+E5", cell_style(DataType::Money, CellType::TotalPayment)),
        ]
    );
}

#[test]
fn totals_block_is_made_of_its_four_parts() {
    let mut whole = SheetPlan::new();
    add_total_cells(&mut whole, 160, 1, 31, "=B4".to_string(), "=B9".to_string());
    let mut parts = SheetPlan::new();
    add_total_hours(&mut parts, 160);
    add_weekend_hours(&mut parts, "=B9".to_string());
    add_overworked_hours(&mut parts, "=B4".to_string());
    add_total_payment(&mut parts, 1, 31);
    assert_eq!(whole, parts);
    assert_eq!(whole.ops.len(), 8);
}

#[test]
fn finish_of_the_sheet() {
    let mut plan = SheetPlan::new();
    add_polish(&mut plan, 31);
    assert_eq!(
        plan.ops,
        vec![
            SinkOp::Merge {
                first: cell(34, 0),
                last: cell(34, 2),
                text: String::new(),
                style: style_for(CellRole::BottomRule, DayType::Usual, Season::Winter),
            },
            SinkOp::Autofit,
            SinkOp::SetColumnWidth { col: 4, pixels: 89 },
            SinkOp::SetColumnWidth { col: 2, pixels: 75 },
            SinkOp::SetColumnWidth { col: 1, pixels: 58 },
        ]
    );
    assert_eq!((WIDTH_TOTALS, WIDTH_BONUS, WIDTH_HOURS), (89, 75, 58));
}

#[test]
fn sheet_of_january_2024_row_by_row() {
    let holidays = holidays_of(&[(2024, 1, 1), (2024, 1, 8)]);
    let months = months_of(2024, &holidays);
    let plan = fill_month_sheet(&months[0], 60_000);
    assert_eq!(plan.name, "❄️ Январь");
    assert_eq!(plan.ops.len(), 1 + 3 * 31 + 6 + 2 + 8 + 5);
    assert_eq!(plan.ops[0], SinkOp::HideGridlines);
    let earn = cell_style(DataType::UsualText, CellType::Earn);
    let weekend = cell_style(DataType::UsualText, CellType::Weekend);
    let usual = cell_style(DataType::UsualText, CellType::Usual);
    assert_eq!(
        day_ops(&plan, 1),
        &[
            text(3, 0, "1 Пн", earn),
            text(3, 1, "0", earn),
            formula(3, 2, "=E5/E1*B4*2", cell_style(DataType::Money, CellType::Earn)),
        ]
    );
    assert_eq!(
        day_ops(&plan, 7),
        &[
            text(9, 0, "7 Вс", weekend),
            text(9, 1, "0", weekend),
            formula(9, 2, "=E5/E1*B10*2", cell_style(DataType::Money, CellType::Weekend)),
        ]
    );
    assert_eq!(day_ops(&plan, 8)[0], text(10, 0, "8 Пн", earn));
    assert_eq!(day_ops(&plan, 2)[0], text(4, 0, "2 Вт", usual));
    assert_eq!(day_ops(&plan, 6)[0], text(8, 0, "6 Сб", earn));
    for number in 1..=31usize {
        let ops = day_ops(&plan, number);
        assert_eq!(style_of(&ops[0]), style_of(&ops[1]));
        assert_eq!(
            StyleDescriptor { num_format: style_of(&ops[0]).num_format, ..style_of(&ops[2]) },
            style_of(&ops[0])
        );
    }
}

#[test]
fn sheet_of_january_2024_totals() {
    let holidays = holidays_of(&[(2024, 1, 1), (2024, 1, 8)]);
    let months = months_of(2024, &holidays);
    let plan = fill_month_sheet(&months[0], 60_000);
    let rest = &plan.ops[1 + 3 * 31..];
    let mut expected = SheetPlan::new();
    add_header_cells(&mut expected, &months[0].first());
    add_salary(&mut expected, 60_000);
    add_total_cells(
        &mut expected,
        21 * 8,
        1,
        31,
        "=B5+B6+B7+B8+B12+B13+B14+B15+B18+B19+B20+B21+B22+B25+B26+B27+B28+B29+B32+B33+B34"
            .to_string(),
        "=B4+B9+B10+B11+B16+B17+B23+B24+B30+B31".to_string(),
    );
    add_polish(&mut expected, 31);
    assert_eq!(rest, &expected.ops[..]);
    assert!(plan.ops.contains(&formula(
        4,
        4,
        "=60000",
        cell_style(DataType::Money, CellType::InputHeader)
    )));
    assert!(plan.ops.contains(&formula(
        5,
        4,
        "=SUM(C4:C34)+E5",
        cell_style(DataType::Money, CellType::TotalPayment)
    )));
    assert!(plan.ops.contains(&SinkOp::WriteNumber {
        cell: cell(0, 4),
        number: 168,
        style: header_style()
    }));
}

#[test]
fn sheet_of_february_ends_after_its_last_day() {
    let none = HolidayDates::new();
    for (year, last) in [(2023u16, 28u32), (2024, 29)] {
        let months = months_of(year, &none);
        let plan = fill_month_sheet(&months[1], 0);
        assert_eq!(plan.name, "🌨️ Февраль");
        assert_eq!(plan.ops.len(), 1 + 3 * last as usize + 6 + 2 + 8 + 5);
        assert!(plan.ops.contains(&formula(
            5,
            4,
            &format!("=SUM(C4:C{})+E5", last + 3),
            cell_style(DataType::Money, CellType::TotalPayment)
        )));
        assert!(plan.ops.contains(&SinkOp::Merge {
            first: cell(last + 3, 0),
            last: cell(last + 3, 2),
            text: String::new(),
            style: style_for(CellRole::BottomRule, DayType::Usual, Season::Winter),
        }));
        assert!(plan.ops.contains(&formula(
            4,
            4,
            "=",
            cell_style(DataType::Money, CellType::InputHeader)
        )));
    }
}

#[test]
fn sheet_never_names_a_row_of_another_month() {
    let none = HolidayDates::new();
    for month in months_of(2023, &none) {
        let plan = fill_month_sheet(&month, 1);
        let last_row = 2 + month.len() as u32;
        for op in &plan.ops {
            if let SinkOp::WriteText { cell, .. } | SinkOp::WriteFormula { cell, .. } = op {
                if cell.col <= 2 {
                    assert!(cell.row <= last_row);
                }
            }
        }
    }
}

#[test]
fn sheets_of_a_year_are_named_after_the_months() {
    let none = HolidayDates::new();
    let names: Vec<String> =
        months_of(2024, &none).iter().map(|m| fill_month_sheet(m, 0).name).collect();
    assert_eq!(
        names,
        vec![
            "❄️ Январь",
            "🌨️ Февраль",
            "🌱 Март",
            "🌸 Апрель",
            "🌿 Май",
            "☀️ Июнь",
            "🏖️ Июль",
            "🍉 Август",
            "🍂 Сентябрь",
            "🍁 Октябрь",
            "🌧️ Ноябрь",
            "🎄 Декабрь",
        ]
    );
}

#[test]
fn month_of_usual_days_only_sums_no_weekend_hours() {
    let days = vec![day(2024, 1, 2, DayType::Usual), day(2024, 1, 3, DayType::Usual)];
    let months = Days::from_vec(days).unwrap().split_months();
    assert_eq!(months.len(), 1);
    let plan = fill_month_sheet(&months[0], 1);
    assert!(plan.ops.contains(&formula(1, 4, "=0", header_style())));
    assert!(plan.ops.contains(&formula(2, 4, "=B5+B6", header_style())));
    assert!(plan.ops.contains(&formula(
        5,
        4,
        "=SUM(C5:C6)+E5",
        cell_style(DataType::Money, CellType::TotalPayment)
    )));
    assert!(plan.ops.contains(&SinkOp::WriteNumber {
        cell: cell(0, 4),
        number: 16,
        style: header_style()
    }));
}

#[test]
fn month_without_usual_days_sums_no_usual_hours() {
    let days = vec![day(2024, 1, 6, DayType::Earn), day(2024, 1, 7, DayType::Weekend)];
    let months = Days::from_vec(days).unwrap().split_months();
    let plan = fill_month_sheet(&months[0], 1);
    assert!(plan.ops.contains(&formula(2, 4, "=0", header_style())));
    assert!(plan.ops.contains(&formula(1, 4, "=B9+B10", header_style())));
    assert!(plan.ops.contains(&SinkOp::WriteNumber {
        cell: cell(0, 4),
        number: 0,
        style: header_style()
    }));
}
