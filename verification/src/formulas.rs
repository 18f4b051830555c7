//! The formulas of a month's sheet, as text.
//!
//! A formula names the cells it reads; the names come from the layout, so a
//! formula and the cell it refers to cannot drift apart.

use crate::days::{is_month_run, lemma_month_run_numbers, Day, DayType, MonthGroup};
use crate::layout::{
    cell_name, cell_name_string, cell_of, day_row, role_cell, CellCoord, CellRole,
    COL_OVERWORKED_COUNTER,
};
use crate::text::{
    column_name, decimal, decimal_string, lemma_ascii_concat, lemma_column_name_ascii,
    lemma_decimal_ascii,
};
use vstd::prelude::*;
use vstd::string::StringExecFns;
use vstd::utf8::is_ascii_chars;

verus! {

/// Hours in the working day of a usual day.
pub const HOURS_PER_DAY: u32 = 8;

/// The name of the first cell of a role.
pub open spec fn role_name(role: CellRole, day: int) -> Seq<char> {
    cell_name(role_cell(role, day).0, role_cell(role, day).1)
}

/// The bonus of a day: the salary, divided by the baseline hours of the
/// month, times the hours entered for the day, times two.
pub open spec fn bonus_formula_text(day: int) -> Seq<char> {
    "="@ + role_name(CellRole::SalaryValue, 0) + "/"@ + role_name(CellRole::TotalHoursValue, 0)
        + "*"@ + role_name(CellRole::DayHours, day) + "*2"@
}

/// The names of the given cells with `+` between them.
pub open spec fn joined_names(cells: Seq<CellCoord>) -> Seq<char>
    decreases cells.len(),
{
    if cells.len() == 0 {
        Seq::empty()
    } else if cells.len() == 1 {
        cell_name(cells[0].row as int, cells[0].col as int)
    } else {
        joined_names(cells.drop_last()) + "+"@ + cell_name(
            cells.last().row as int,
            cells.last().col as int,
        )
    }
}

/// The sum of the given cells; of no cells, zero.
pub open spec fn sum_formula_text(cells: Seq<CellCoord>) -> Seq<char> {
    if cells.len() == 0 {
        "=0"@
    } else {
        "="@ + joined_names(cells)
    }
}

/// The total payment: the bonuses of the day rows from `first_day` to
/// `last_day`, plus the salary.
pub open spec fn total_payment_formula_text(first_day: int, last_day: int) -> Seq<char> {
    "=SUM("@ + role_name(CellRole::DayBonus, first_day) + ":"@ + role_name(
        CellRole::DayBonus,
        last_day,
    ) + ")+"@ + role_name(CellRole::SalaryValue, 0)
}

/// The salary as the user would type it: nothing for 0, else the amount.
pub open spec fn salary_text(salary: nat) -> Seq<char> {
    if salary == 0 {
        Seq::empty()
    } else {
        decimal(salary)
    }
}

/// The content of the salary cell: an input that the user can overwrite.
pub open spec fn salary_formula_text(salary: nat) -> Seq<char> {
    "="@ + salary_text(salary)
}

/// The cell for the hours of a day.
pub open spec fn hours_cell(day: Day) -> CellCoord {
    CellCoord { row: day_row(day.date().spec_day()) as u32, col: COL_OVERWORKED_COUNTER }
}

/// The cells for the hours of the usual days of `days` (if `usual`) or of
/// all its other days (if not), in the order of the days.
pub open spec fn hours_cells(days: Seq<Day>, usual: bool) -> Seq<CellCoord>
    decreases days.len(),
{
    if days.len() == 0 {
        Seq::empty()
    } else if (days.last().flag() == DayType::Usual) == usual {
        hours_cells(days.drop_last(), usual).push(hours_cell(days.last()))
    } else {
        hours_cells(days.drop_last(), usual)
    }
}

/// Whether a cell lies in the column of hours, on a row of the given days
/// of one month: not before the row of the first, not after the row of the
/// last.
pub open spec fn in_month_rows(cell: CellCoord, days: Seq<Day>) -> bool {
    &&& cell.col == COL_OVERWORKED_COUNTER
    &&& day_row(days.first().date().spec_day()) <= cell.row <= day_row(
        days.last().date().spec_day(),
    )
}

/// The hours cells of a run of days of one month lie in the column of hours
/// and on rows of that run: none before the row of its first day, none
/// after the row of its last. There are no more of them than days.
pub proof fn lemma_hours_cells_in_month(days: Seq<Day>, usual: bool)
    requires
        is_month_run(days),
    ensures
        hours_cells(days, usual).len() <= days.len(),
        forall|i: int|
            0 <= i < hours_cells(days, usual).len() ==> in_month_rows(
                #[trigger] hours_cells(days, usual)[i],
                days,
            ),
{
    lemma_month_run_numbers(days);
    lemma_hours_cells_from(days, usual, days.len() as int);
    assert(days.take(days.len() as int) =~= days);
}

/// A month without a day that draws a bonus or falls on a weekend has no
/// hours cell for such days, and the sum of none is written as zero.
pub proof fn lemma_no_weekend_cells(days: Seq<Day>)
    requires
        forall|i: int| 0 <= i < days.len() ==> (#[trigger] days[i]).flag() == DayType::Usual,
    ensures
        hours_cells(days, false).len() == 0,
        sum_formula_text(hours_cells(days, false)) == "=0"@,
    decreases days.len(),
{
    if days.len() > 0 {
        lemma_no_weekend_cells(days.drop_last());
    }
}

/// The name of a cell is a text in ASCII.
pub proof fn lemma_cell_name_ascii(row: int, col: int)
    requires
        0 <= row,
        0 <= col,
    ensures
        is_ascii_chars(cell_name(row, col)),
{
    lemma_column_name_ascii(col as nat);
    lemma_decimal_ascii((row + 1) as nat);
    lemma_ascii_concat(column_name(col as nat), decimal((row + 1) as nat));
}

/// The names of cells with `+` between them are a text in ASCII.
proof fn lemma_joined_names_ascii(cells: Seq<CellCoord>)
    ensures
        is_ascii_chars(joined_names(cells)),
    decreases cells.len(),
{
    reveal_strlit("+");
    if cells.len() == 1 {
        lemma_cell_name_ascii(cells[0].row as int, cells[0].col as int);
    } else if cells.len() > 1 {
        lemma_joined_names_ascii(cells.drop_last());
        lemma_cell_name_ascii(cells.last().row as int, cells.last().col as int);
        lemma_ascii_concat(joined_names(cells.drop_last()), "+"@);
        lemma_ascii_concat(
            joined_names(cells.drop_last()) + "+"@,
            cell_name(cells.last().row as int, cells.last().col as int),
        );
    }
}

/// Every formula of a sheet is a text in ASCII.
pub proof fn lemma_formulas_are_ascii(
    day: int,
    first_day: int,
    last_day: int,
    cells: Seq<CellCoord>,
    salary: nat,
)
    requires
        0 <= day,
        0 <= first_day,
        0 <= last_day,
    ensures
        is_ascii_chars(bonus_formula_text(day)),
        is_ascii_chars(sum_formula_text(cells)),
        is_ascii_chars(total_payment_formula_text(first_day, last_day)),
        is_ascii_chars(salary_formula_text(salary)),
{
    reveal_strlit("=");
    reveal_strlit("/");
    reveal_strlit("*");
    reveal_strlit("*2");
    reveal_strlit("=0");
    reveal_strlit("=SUM(");
    reveal_strlit(":");
    reveal_strlit(")+");
    let salary_cell = role_name(CellRole::SalaryValue, 0);
    let hours_total = role_name(CellRole::TotalHoursValue, 0);
    let hours = role_name(CellRole::DayHours, day);
    lemma_cell_name_ascii(
        role_cell(CellRole::SalaryValue, 0).0,
        role_cell(CellRole::SalaryValue, 0).1,
    );
    lemma_cell_name_ascii(
        role_cell(CellRole::TotalHoursValue, 0).0,
        role_cell(CellRole::TotalHoursValue, 0).1,
    );
    lemma_cell_name_ascii(
        role_cell(CellRole::DayHours, day).0,
        role_cell(CellRole::DayHours, day).1,
    );
    lemma_ascii_concat("="@, salary_cell);
    lemma_ascii_concat("="@ + salary_cell, "/"@);
    lemma_ascii_concat("="@ + salary_cell + "/"@, hours_total);
    lemma_ascii_concat("="@ + salary_cell + "/"@ + hours_total, "*"@);
    lemma_ascii_concat("="@ + salary_cell + "/"@ + hours_total + "*"@, hours);
    lemma_ascii_concat("="@ + salary_cell + "/"@ + hours_total + "*"@ + hours, "*2"@);
    lemma_joined_names_ascii(cells);
    lemma_ascii_concat("="@, joined_names(cells));
    let first = role_name(CellRole::DayBonus, first_day);
    let last = role_name(CellRole::DayBonus, last_day);
    lemma_cell_name_ascii(
        role_cell(CellRole::DayBonus, first_day).0,
        role_cell(CellRole::DayBonus, first_day).1,
    );
    lemma_cell_name_ascii(
        role_cell(CellRole::DayBonus, last_day).0,
        role_cell(CellRole::DayBonus, last_day).1,
    );
    lemma_ascii_concat("=SUM("@, first);
    lemma_ascii_concat("=SUM("@ + first, ":"@);
    lemma_ascii_concat("=SUM("@ + first + ":"@, last);
    lemma_ascii_concat("=SUM("@ + first + ":"@ + last, ")+"@);
    lemma_ascii_concat("=SUM("@ + first + ":"@ + last + ")+"@, salary_cell);
    lemma_decimal_ascii(salary);
    lemma_ascii_concat("="@, salary_text(salary));
}

proof fn lemma_hours_cells_from(days: Seq<Day>, usual: bool, k: int)
    requires
        0 <= k <= days.len(),
    ensures
        hours_cells(days.take(k), usual).len() <= k,
        forall|i: int|
            0 <= i < hours_cells(days.take(k), usual).len() ==> exists|j: int|
                0 <= j < k && #[trigger] hours_cells(days.take(k), usual)[i] == hours_cell(days[j]),
    decreases k,
{
    if k > 0 {
        lemma_hours_cells_from(days, usual, k - 1);
        assert(days.take(k).drop_last() =~= days.take(k - 1));
        let shorter = hours_cells(days.take(k - 1), usual);
        let longer = hours_cells(days.take(k), usual);
        assert forall|i: int| 0 <= i < longer.len() implies exists|j: int|
            0 <= j < k && #[trigger] longer[i] == hours_cell(days[j]) by {
            if i < shorter.len() {
                let j = choose|j: int| 0 <= j < k - 1 && shorter[i] == hours_cell(days[j]);
                assert(longer[i] == hours_cell(days[j]));
            } else {
                assert(longer[i] == hours_cell(days[k - 1]));
            }
        }
    }
}

/// The formula for the bonus of the day with number `day`.
pub fn bonus_formula(day: u8) -> (formula: String)
    ensures
        formula@ == bonus_formula_text(day as int),
        is_ascii_chars(formula@),
{
    proof {
        lemma_formulas_are_ascii(day as int, 0, 0, Seq::empty(), 0);
    }
    let mut formula = String::from_str("=");
    let salary = cell_name_string(cell_of(CellRole::SalaryValue, 0));
    formula.append(salary.as_str());
    formula.append("/");
    let total_hours = cell_name_string(cell_of(CellRole::TotalHoursValue, 0));
    formula.append(total_hours.as_str());
    formula.append("*");
    let hours = cell_name_string(cell_of(CellRole::DayHours, day));
    formula.append(hours.as_str());
    formula.append("*2");
    formula
}

/// The formula for the sum of the given cells.
pub fn sum_formula(cells: &Vec<CellCoord>) -> (formula: String)
    ensures
        formula@ == sum_formula_text(cells@),
        cells@.len() == 0 ==> formula@ == "=0"@,
        is_ascii_chars(formula@),
{
    proof {
        lemma_formulas_are_ascii(0, 0, 0, cells@, 0);
    }
    if cells.len() == 0 {
        return String::from_str("=0");
    }
    let mut formula = String::from_str("=");
    let first = cell_name_string(cells[0]);
    formula.append(first.as_str());
    let mut i: usize = 1;
    assert(cells@.take(1).len() == 1 && cells@.take(1)[0] == cells@[0]);
    while i < cells.len()
        invariant
            1 <= i <= cells.len(),
            formula@ == "="@ + joined_names(cells@.take(i as int)),
        decreases cells.len() - i,
    {
        formula.append("+");
        let name = cell_name_string(cells[i]);
        formula.append(name.as_str());
        proof {
            assert(cells@.take(i + 1).drop_last() =~= cells@.take(i as int));
            assert(cells@.take(i + 1).last() == cells@[i as int]);
            assert(formula@ =~= "="@ + joined_names(cells@.take(i + 1)));
        }
        i += 1;
    }
    assert(cells@.take(cells.len() as int) =~= cells@);
    formula
}

/// The formula for the total payment of a month whose day rows run from
/// the day with number `first_day` to the one with number `last_day`.
pub fn total_payment_formula(first_day: u8, last_day: u8) -> (formula: String)
    ensures
        formula@ == total_payment_formula_text(first_day as int, last_day as int),
        is_ascii_chars(formula@),
{
    proof {
        lemma_formulas_are_ascii(0, first_day as int, last_day as int, Seq::empty(), 0);
    }
    let mut formula = String::from_str("=SUM(");
    let first = cell_name_string(cell_of(CellRole::DayBonus, first_day));
    formula.append(first.as_str());
    formula.append(":");
    let last = cell_name_string(cell_of(CellRole::DayBonus, last_day));
    formula.append(last.as_str());
    formula.append(")+");
    let salary = cell_name_string(cell_of(CellRole::SalaryValue, 0));
    formula.append(salary.as_str());
    formula
}

/// The content of the salary cell: empty for a salary of 0, which leaves
/// the cell for the user to fill in, else the amount.
pub fn salary_formula(salary: u32) -> (formula: String)
    ensures
        formula@ == salary_formula_text(salary as nat),
        salary == 0 ==> formula@ == "="@,
        salary != 0 ==> formula@ == "="@ + decimal(salary as nat),
        is_ascii_chars(formula@),
{
    proof {
        lemma_formulas_are_ascii(0, 0, 0, Seq::empty(), salary as nat);
    }
    let mut formula = String::from_str("=");
    if salary != 0 {
        let amount = decimal_string(salary as u64);
        formula.append(amount.as_str());
    } else {
        assert(formula@ =~= "="@ + Seq::<char>::empty());
    }
    formula
}

/// What the totals block of a month is computed from.
pub struct MonthTotals {
    /// The hours cells of the usual days.
    pub usual_day_cells: Vec<CellCoord>,
    /// The hours cells of all other days.
    pub weekend_cells: Vec<CellCoord>,
    /// The baseline hours of the month: eight for each usual day.
    pub work_hours: u32,
}

/// Goes through the days of a month once and collects the hours cells of
/// the usual days, those of the other days, and the baseline hours.
pub fn month_totals(month: &MonthGroup) -> (totals: MonthTotals)
    ensures
        totals.usual_day_cells@ == hours_cells(month@, true),
        totals.weekend_cells@ == hours_cells(month@, false),
        totals.work_hours == HOURS_PER_DAY * hours_cells(month@, true).len(),
        forall|i: int|
            0 <= i < totals.usual_day_cells@.len() ==> in_month_rows(
                #[trigger] totals.usual_day_cells@[i],
                month@,
            ),
        forall|i: int|
            0 <= i < totals.weekend_cells@.len() ==> in_month_rows(
                #[trigger] totals.weekend_cells@[i],
                month@,
            ),
{
    proof {
        use_type_invariant(month);
        lemma_month_run_numbers(month@);
        lemma_hours_cells_in_month(month@, true);
        lemma_hours_cells_in_month(month@, false);
    }
    let mut usual_day_cells: Vec<CellCoord> = Vec::new();
    let mut weekend_cells: Vec<CellCoord> = Vec::new();
    let mut work_hours: u32 = 0;
    let mut i: usize = 0;
    while i < month.len()
        invariant
            i <= month@.len() <= 31,
            usual_day_cells@ == hours_cells(month@.take(i as int), true),
            weekend_cells@ == hours_cells(month@.take(i as int), false),
            usual_day_cells.len() <= i,
            work_hours == HOURS_PER_DAY * usual_day_cells.len(),
        decreases month@.len() - i,
    {
        let day = month.get(i).unwrap();
        let cell = cell_of(CellRole::DayHours, day.number() as u8);
        proof {
            assert(month@.take(i + 1).drop_last() =~= month@.take(i as int));
            assert(month@.take(i + 1).last() == month@[i as int]);
            assert(cell == hours_cell(day));
        }
        match day.earn_type() {
            DayType::Usual => {
                usual_day_cells.push(cell);
                work_hours = work_hours + HOURS_PER_DAY;
            },
            _ => {
                weekend_cells.push(cell);
            },
        }
        i += 1;
    }
    proof {
        assert(month@.take(month@.len() as int) =~= month@);
    }
    MonthTotals { usual_day_cells, weekend_cells, work_hours }
}

} // verus!
