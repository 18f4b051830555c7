//! The cells of a month's sheet: what is written where, and how it looks.

use crate::days::{
    lemma_month_run_numbers, month_name_text, season_of, weekday_short_text, Day, DayType,
    MonthGroup, Season,
};
use crate::formulas::{
    bonus_formula, bonus_formula_text, hours_cells, month_totals, salary_formula,
    salary_formula_text, sum_formula, sum_formula_text, total_payment_formula,
    total_payment_formula_text, HOURS_PER_DAY,
};
use crate::layout::{
    cell_of, last_col_of, role_cell, role_last_col, CellCoord, CellRole, COL_BONUS,
    COL_OVERWORKED_COUNTER, COL_SALARY,
};
use crate::plan::{SheetPlan, SheetPlanView, SinkOp, SinkOpView};
use crate::styles::{role_style, style_for};
use crate::text::{decimal, decimal_string};
use vstd::prelude::*;
use vstd::string::StringExecFns;

verus! {

/// Width of the column of the totals, in pixels: 12 characters of the
/// default font.
pub const WIDTH_TOTALS: u32 = 89;

/// Width of the column of bonuses, in pixels: 10 characters of the default
/// font.
pub const WIDTH_BONUS: u32 = 75;

/// Width of the column of hours, in pixels: 7.5 characters of the default
/// font.
pub const WIDTH_HOURS: u32 = 58;

/// The fixed text of a role; empty for a role that has none.
pub open spec fn label_text(role: CellRole) -> Seq<char> {
    match role {
        CellRole::DayHours => "0"@,
        CellRole::AppInfo => "dev.release"@,
        CellRole::Header => "Число/День"@,
        CellRole::InputHeader => "Часы"@,
        CellRole::BonusHeader => "Доплата"@,
        CellRole::TotalHoursLabel => "Рабочие часы:"@,
        CellRole::WeekendHoursLabel => "Часы выходных:"@,
        CellRole::OverworkLabel => "Часы переработки:"@,
        CellRole::SalaryLabel => "Оклад:"@,
        CellRole::TotalPaymentLabel => "К получению:"@,
        _ => ""@,
    }
}

/// The first cell of a role.
pub open spec fn coord_of(role: CellRole, day: int) -> CellCoord {
    CellCoord { row: role_cell(role, day).0 as u32, col: role_cell(role, day).1 as u16 }
}

/// The last cell of a role.
pub open spec fn last_coord_of(role: CellRole, day: int) -> CellCoord {
    CellCoord { row: role_cell(role, day).0 as u32, col: role_last_col(role) as u16 }
}

/// Writing a text into the cell of a role.
pub open spec fn text_op(
    role: CellRole,
    day: int,
    text: Seq<char>,
    flag: DayType,
    season: Season,
) -> SinkOpView {
    SinkOpView::WriteText { cell: coord_of(role, day), text, style: role_style(role, flag, season) }
}

/// Writing a number into the cell of a role.
pub open spec fn number_op(role: CellRole, number: u32) -> SinkOpView {
    SinkOpView::WriteNumber {
        cell: coord_of(role, 0),
        number,
        style: role_style(role, DayType::Usual, Season::Winter),
    }
}

/// Writing a formula into the cell of a role.
pub open spec fn formula_op(
    role: CellRole,
    day: int,
    formula: Seq<char>,
    flag: DayType,
) -> SinkOpView {
    SinkOpView::WriteFormula {
        cell: coord_of(role, day),
        formula,
        style: role_style(role, flag, Season::Winter),
    }
}

/// Merging the cells of a role and writing a text into them.
pub open spec fn merge_op(role: CellRole, day: int, text: Seq<char>, season: Season) -> SinkOpView {
    SinkOpView::Merge {
        first: coord_of(role, day),
        last: last_coord_of(role, day),
        text,
        style: role_style(role, DayType::Usual, season),
    }
}

/// The label of a day: its number, a space, and the short name of its day
/// of the week.
pub open spec fn day_label_text(day: Day) -> Seq<char> {
    decimal(day.date().spec_day() as nat) + " "@ + weekday_short_text(day.date().spec_weekday())
}

/// The row of a day: its label, the cell for its hours with `0` in it, and
/// the formula for its bonus, all three in the look of the kind of day.
pub open spec fn day_cell_ops(day: Day) -> Seq<SinkOpView> {
    let n = day.date().spec_day();
    seq![
        text_op(CellRole::DayLabel, n, day_label_text(day), day.flag(), Season::Winter),
        text_op(CellRole::DayHours, n, label_text(CellRole::DayHours), day.flag(), Season::Winter),
        formula_op(CellRole::DayBonus, n, bonus_formula_text(n), day.flag()),
    ]
}

/// The rows of the given days, one after the other.
pub open spec fn all_day_ops(days: Seq<Day>) -> Seq<SinkOpView>
    decreases days.len(),
{
    if days.len() == 0 {
        Seq::empty()
    } else {
        all_day_ops(days.drop_last()) + day_cell_ops(days.last())
    }
}

/// The head of the sheet: the year, the note beside it, the headers of the
/// three columns of the day rows, and the banner with the name of the
/// month in the colour of its season.
pub open spec fn header_ops(first_day: Day) -> Seq<SinkOpView> {
    let month = first_day.date().spec_month();
    seq![
        number_op(CellRole::Year, first_day.date().spec_year() as u32),
        merge_op(CellRole::AppInfo, 0, label_text(CellRole::AppInfo), Season::Winter),
        text_op(CellRole::Header, 0, label_text(CellRole::Header), DayType::Usual, Season::Winter),
        text_op(
            CellRole::BonusHeader,
            0,
            label_text(CellRole::BonusHeader),
            DayType::Usual,
            Season::Winter,
        ),
        text_op(
            CellRole::InputHeader,
            0,
            label_text(CellRole::InputHeader),
            DayType::Usual,
            Season::Winter,
        ),
        merge_op(CellRole::MonthBanner, 0, month_name_text(month), season_of(month)),
    ]
}

/// A label of the totals block.
pub open spec fn label_op(role: CellRole) -> SinkOpView {
    text_op(role, 0, label_text(role), DayType::Usual, Season::Winter)
}

/// The salary: its label, and the amount as an input for the user.
pub open spec fn salary_ops(salary: nat) -> Seq<SinkOpView> {
    seq![
        label_op(CellRole::SalaryLabel),
        formula_op(CellRole::SalaryValue, 0, salary_formula_text(salary), DayType::Usual),
    ]
}

/// The baseline hours of the month: their label and their number.
pub open spec fn total_hours_ops(work_hours: u32) -> Seq<SinkOpView> {
    seq![label_op(CellRole::TotalHoursLabel), number_op(CellRole::TotalHoursValue, work_hours)]
}

/// The hours worked on days that are not usual: their label and their sum.
pub open spec fn weekend_hours_ops(formula: Seq<char>) -> Seq<SinkOpView> {
    seq![
        label_op(CellRole::WeekendHoursLabel),
        formula_op(CellRole::WeekendHoursValue, 0, formula, DayType::Usual),
    ]
}

/// The hours worked on usual days: their label and their sum.
pub open spec fn overworked_hours_ops(formula: Seq<char>) -> Seq<SinkOpView> {
    seq![
        label_op(CellRole::OverworkLabel),
        formula_op(CellRole::OverworkValue, 0, formula, DayType::Usual),
    ]
}

/// The total payment: its label and its formula.
pub open spec fn total_payment_ops(first_day: int, last_day: int) -> Seq<SinkOpView> {
    seq![
        label_op(CellRole::TotalPaymentLabel),
        formula_op(
            CellRole::TotalPaymentValue,
            0,
            total_payment_formula_text(first_day, last_day),
            DayType::Usual,
        ),
    ]
}

/// The totals block but for the salary.
pub open spec fn total_cells_ops(
    work_hours: u32,
    first_day: int,
    last_day: int,
    usual_days_formula: Seq<char>,
    weekend_formula: Seq<char>,
) -> Seq<SinkOpView> {
    total_hours_ops(work_hours) + weekend_hours_ops(weekend_formula) + overworked_hours_ops(
        usual_days_formula,
    ) + total_payment_ops(first_day, last_day)
}

/// The finish: the rule below the last day row, columns fitted to their
/// content, and three columns set to widths of their own.
pub open spec fn polish_ops(last_day: int) -> Seq<SinkOpView> {
    seq![
        merge_op(CellRole::BottomRule, last_day, label_text(CellRole::BottomRule), Season::Winter),
        SinkOpView::Autofit,
        SinkOpView::SetColumnWidth { col: COL_SALARY, pixels: WIDTH_TOTALS },
        SinkOpView::SetColumnWidth { col: COL_BONUS, pixels: WIDTH_BONUS },
        SinkOpView::SetColumnWidth { col: COL_OVERWORKED_COUNTER, pixels: WIDTH_HOURS },
    ]
}

/// The sheet of a month: named after the month; without grid; a row for
/// each day; the head; the salary; the totals, computed from the hours of
/// the days of this month; and the finish.
pub open spec fn month_sheet_plan(days: Seq<Day>, salary: nat) -> SheetPlanView {
    let first_day = days.first().date().spec_day();
    let last_day = days.last().date().spec_day();
    SheetPlanView {
        name: month_name_text(days.first().date().spec_month()),
        ops: seq![SinkOpView::HideGridlines] + all_day_ops(days) + header_ops(days.first())
            + salary_ops(salary) + total_cells_ops(
            (HOURS_PER_DAY * hours_cells(days, true).len()) as u32,
            first_day,
            last_day,
            sum_formula_text(hours_cells(days, true)),
            sum_formula_text(hours_cells(days, false)),
        ) + polish_ops(last_day),
    }
}

/// The fixed text of a role.
pub fn label(role: CellRole) -> (text: String)
    ensures
        text@ == label_text(role),
{
    match role {
        CellRole::DayHours => String::from_str("0"),
        CellRole::AppInfo => String::from_str("dev.release"),
        CellRole::Header => String::from_str("Число/День"),
        CellRole::InputHeader => String::from_str("Часы"),
        CellRole::BonusHeader => String::from_str("Доплата"),
        CellRole::TotalHoursLabel => String::from_str("Рабочие часы:"),
        CellRole::WeekendHoursLabel => String::from_str("Часы выходных:"),
        CellRole::OverworkLabel => String::from_str("Часы переработки:"),
        CellRole::SalaryLabel => String::from_str("Оклад:"),
        CellRole::TotalPaymentLabel => String::from_str("К получению:"),
        _ => String::from_str(""),
    }
}

fn write_text(plan: &mut SheetPlan, role: CellRole, day: u8, text: String, flag: DayType)
    ensures
        final(plan)@.name == old(plan)@.name,
        final(plan)@.ops == old(plan)@.ops.push(
            text_op(role, day as int, text@, flag, Season::Winter),
        ),
{
    plan.push(
        SinkOp::WriteText {
            cell: cell_of(role, day),
            text,
            style: style_for(role, flag, Season::Winter),
        },
    );
}

fn write_label(plan: &mut SheetPlan, role: CellRole)
    ensures
        final(plan)@.name == old(plan)@.name,
        final(plan)@.ops == old(plan)@.ops.push(label_op(role)),
{
    write_text(plan, role, 0, label(role), DayType::Usual);
}

fn write_number(plan: &mut SheetPlan, role: CellRole, number: u32)
    ensures
        final(plan)@.name == old(plan)@.name,
        final(plan)@.ops == old(plan)@.ops.push(number_op(role, number)),
{
    plan.push(
        SinkOp::WriteNumber {
            cell: cell_of(role, 0),
            number,
            style: style_for(role, DayType::Usual, Season::Winter),
        },
    );
}

fn write_formula(plan: &mut SheetPlan, role: CellRole, day: u8, formula: String, flag: DayType)
    ensures
        final(plan)@.name == old(plan)@.name,
        final(plan)@.ops == old(plan)@.ops.push(formula_op(role, day as int, formula@, flag)),
{
    plan.push(
        SinkOp::WriteFormula {
            cell: cell_of(role, day),
            formula,
            style: style_for(role, flag, Season::Winter),
        },
    );
}

fn merge(plan: &mut SheetPlan, role: CellRole, day: u8, text: String, season: Season)
    ensures
        final(plan)@.name == old(plan)@.name,
        final(plan)@.ops == old(plan)@.ops.push(merge_op(role, day as int, text@, season)),
{
    let first = cell_of(role, day);
    plan.push(
        SinkOp::Merge {
            first,
            last: CellCoord { row: first.row, col: last_col_of(role) },
            text,
            style: style_for(role, DayType::Usual, season),
        },
    );
}

/// Adds the row of a day to the plan and tells the kind of the day.
pub fn add_day_cell(plan: &mut SheetPlan, day: &Day) -> (flag: DayType)
    ensures
        flag == day.flag(),
        final(plan)@.name == old(plan)@.name,
        final(plan)@.ops == old(plan)@.ops + day_cell_ops(*day),
{
    let number = day.number() as u8;
    let flag = day.earn_type();
    let mut day_label = decimal_string(day.number() as u64);
    day_label.append(" ");
    let weekday = day.weekday_short();
    day_label.append(weekday.as_str());
    write_text(plan, CellRole::DayLabel, number, day_label, flag);
    write_text(plan, CellRole::DayHours, number, label(CellRole::DayHours), flag);
    write_formula(plan, CellRole::DayBonus, number, bonus_formula(number), flag);
    assert(plan@.ops =~= old(plan)@.ops + day_cell_ops(*day));
    flag
}

/// Adds the head of the sheet to the plan.
pub fn add_header_cells(plan: &mut SheetPlan, first_day: &Day)
    ensures
        final(plan)@.name == old(plan)@.name,
        final(plan)@.ops == old(plan)@.ops + header_ops(*first_day),
{
    proof {
        use_type_invariant(first_day);
    }
    write_number(plan, CellRole::Year, first_day.year() as u32);
    merge(plan, CellRole::AppInfo, 0, label(CellRole::AppInfo), Season::Winter);
    write_label(plan, CellRole::Header);
    write_label(plan, CellRole::BonusHeader);
    write_label(plan, CellRole::InputHeader);
    merge(plan, CellRole::MonthBanner, 0, first_day.month_name(), first_day.season());
    assert(plan@.ops =~= old(plan)@.ops + header_ops(*first_day));
}

/// Adds the salary to the plan: its label, and the amount as an input that
/// the user can overwrite, left empty for a salary of 0.
pub fn add_salary(plan: &mut SheetPlan, salary: u32)
    ensures
        final(plan)@.name == old(plan)@.name,
        final(plan)@.ops == old(plan)@.ops + salary_ops(salary as nat),
{
    write_label(plan, CellRole::SalaryLabel);
    write_formula(plan, CellRole::SalaryValue, 0, salary_formula(salary), DayType::Usual);
    assert(plan@.ops =~= old(plan)@.ops + salary_ops(salary as nat));
}

/// Adds the baseline hours of the month to the plan.
pub fn add_total_hours(plan: &mut SheetPlan, work_hours: u32)
    ensures
        final(plan)@.name == old(plan)@.name,
        final(plan)@.ops == old(plan)@.ops + total_hours_ops(work_hours),
{
    write_label(plan, CellRole::TotalHoursLabel);
    write_number(plan, CellRole::TotalHoursValue, work_hours);
    assert(plan@.ops =~= old(plan)@.ops + total_hours_ops(work_hours));
}

/// Adds the sum of the hours worked on days that are not usual.
pub fn add_weekend_hours(plan: &mut SheetPlan, weekends_formula: String)
    ensures
        final(plan)@.name == old(plan)@.name,
        final(plan)@.ops == old(plan)@.ops + weekend_hours_ops(weekends_formula@),
{
    write_label(plan, CellRole::WeekendHoursLabel);
    write_formula(plan, CellRole::WeekendHoursValue, 0, weekends_formula, DayType::Usual);
    assert(plan@.ops =~= old(plan)@.ops + weekend_hours_ops(weekends_formula@));
}

/// Adds the sum of the hours worked on usual days.
pub fn add_overworked_hours(plan: &mut SheetPlan, usual_days_formula: String)
    ensures
        final(plan)@.name == old(plan)@.name,
        final(plan)@.ops == old(plan)@.ops + overworked_hours_ops(usual_days_formula@),
{
    write_label(plan, CellRole::OverworkLabel);
    write_formula(plan, CellRole::OverworkValue, 0, usual_days_formula, DayType::Usual);
    assert(plan@.ops =~= old(plan)@.ops + overworked_hours_ops(usual_days_formula@));
}

/// Adds the total payment of a month whose day rows run from the day with
/// number `first_day` to the one with number `last_day`.
pub fn add_total_payment(plan: &mut SheetPlan, first_day: u8, last_day: u8)
    ensures
        final(plan)@.name == old(plan)@.name,
        final(plan)@.ops == old(plan)@.ops + total_payment_ops(first_day as int, last_day as int),
{
    write_label(plan, CellRole::TotalPaymentLabel);
    write_formula(
        plan,
        CellRole::TotalPaymentValue,
        0,
        total_payment_formula(first_day, last_day),
        DayType::Usual,
    );
    assert(plan@.ops =~= old(plan)@.ops + total_payment_ops(first_day as int, last_day as int));
}

/// Adds the totals block but for the salary.
pub fn add_total_cells(
    plan: &mut SheetPlan,
    work_hours: u32,
    first_day: u8,
    last_day: u8,
    usual_days_formula: String,
    weekend_formula: String,
)
    ensures
        final(plan)@.name == old(plan)@.name,
        final(plan)@.ops == old(plan)@.ops + total_cells_ops(
            work_hours,
            first_day as int,
            last_day as int,
            usual_days_formula@,
            weekend_formula@,
        ),
{
    let ghost usual = usual_days_formula@;
    let ghost weekend = weekend_formula@;
    add_total_hours(plan, work_hours);
    add_weekend_hours(plan, weekend_formula);
    add_overworked_hours(plan, usual_days_formula);
    add_total_payment(plan, first_day, last_day);
    assert(plan@.ops =~= old(plan)@.ops + total_cells_ops(
        work_hours,
        first_day as int,
        last_day as int,
        usual,
        weekend,
    ));
}

/// Adds the finish of the sheet to the plan.
pub fn add_polish(plan: &mut SheetPlan, last_day: u8)
    ensures
        final(plan)@.name == old(plan)@.name,
        final(plan)@.ops == old(plan)@.ops + polish_ops(last_day as int),
{
    merge(plan, CellRole::BottomRule, last_day, label(CellRole::BottomRule), Season::Winter);
    plan.push(SinkOp::Autofit);
    plan.push(SinkOp::SetColumnWidth { col: COL_SALARY, pixels: WIDTH_TOTALS });
    plan.push(SinkOp::SetColumnWidth { col: COL_BONUS, pixels: WIDTH_BONUS });
    plan.push(SinkOp::SetColumnWidth { col: COL_OVERWORKED_COUNTER, pixels: WIDTH_HOURS });
    assert(plan@.ops =~= old(plan)@.ops + polish_ops(last_day as int));
}

/// Plans the sheet of a month.
pub fn fill_month_sheet(month: &MonthGroup, salary: u32) -> (plan: SheetPlan)
    ensures
        plan@ == month_sheet_plan(month@, salary as nat),
{
    proof {
        use_type_invariant(month);
        lemma_month_run_numbers(month@);
    }
    let mut plan = SheetPlan::new();
    plan.push(SinkOp::HideGridlines);
    let mut i: usize = 0;
    assert(plan@.ops =~= seq![SinkOpView::HideGridlines] + all_day_ops(month@.take(0)));
    while i < month.len()
        invariant
            i <= month@.len(),
            plan@.name == Seq::<char>::empty(),
            plan@.ops == seq![SinkOpView::HideGridlines] + all_day_ops(month@.take(i as int)),
        decreases month@.len() - i,
    {
        let day = month.get(i).unwrap();
        add_day_cell(&mut plan, &day);
        proof {
            assert(month@.take(i + 1).drop_last() =~= month@.take(i as int));
            assert(month@.take(i + 1).last() == month@[i as int]);
            assert(plan@.ops =~= seq![SinkOpView::HideGridlines] + all_day_ops(month@.take(i + 1)));
        }
        i += 1;
    }
    proof {
        assert(month@.take(month@.len() as int) =~= month@);
    }
    let first = month.first();
    let last = month.get(month.len() - 1).unwrap();
    let first_day = first.number() as u8;
    let last_day = last.number() as u8;
    let totals = month_totals(month);
    add_header_cells(&mut plan, &first);
    add_salary(&mut plan, salary);
    add_total_cells(
        &mut plan,
        totals.work_hours,
        first_day,
        last_day,
        sum_formula(&totals.usual_day_cells),
        sum_formula(&totals.weekend_cells),
    );
    add_polish(&mut plan, last_day);
    plan.set_name(first.month_name());
    assert(plan@.ops =~= month_sheet_plan(month@, salary as nat).ops);
    plan
}

} // verus!
