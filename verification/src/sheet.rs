//! From a month to its sheet.

use crate::cells_filling::{
    all_day_ops, day_cell_ops, day_label_text, fill_month_sheet, header_ops, label_text,
    month_sheet_plan, polish_ops, salary_ops, total_cells_ops, WIDTH_BONUS, WIDTH_HOURS,
    WIDTH_TOTALS,
};
use crate::contents::{lemma_month_sheet_cells, month_cells_hold};
use crate::days::{is_month_run, month_name_text, Day, MonthGroup};
use crate::error::EngineError;
use crate::formulas::{hours_cells, sum_formula_text, HOURS_PER_DAY};
use crate::layout::{CellRole, COL_BONUS, COL_OVERWORKED_COUNTER, COL_SALARY};
use crate::looks::{lemma_month_sheet_looks, month_looks_hold};
use crate::plan::SinkOpView;
use crate::sink::{
    hides_grid, lemma_ops_concat, merged_after, merged_after_op, no_widths, op_accepted,
    ops_accepted, plan_accepted, range_cells, render_sheet, sheet_follows, sheet_view,
    valid_sheet_name, widths_after, widths_after_op, SheetView,
};
use crate::text::lemma_decimal_len_u64;
use rust_xlsxwriter::Worksheet;
use vstd::prelude::*;

verus! {

/// The cells that a month's sheet merges: the note beside the year, the
/// banner of the month, and the rule below the row of the day with number
/// `last_day`.
pub open spec fn month_merged_cells(last_day: int) -> Set<(int, int)> {
    range_cells(0, 1, 0, 2).union(range_cells(1, 0, 1, 2)).union(
        range_cells(last_day + 3, 0, last_day + 3, 2),
    )
}

/// One more operation is accepted exactly when those before it are and it
/// is by the sheet that they leave.
proof fn lemma_ops_push(ops: Seq<SinkOpView>, op: SinkOpView, start: Set<(int, int)>)
    ensures
        merged_after(ops.push(op), start) == merged_after_op(op, merged_after(ops, start)),
        ops_accepted(ops.push(op), start) == (ops_accepted(ops, start) && op_accepted(
            op,
            merged_after(ops, start),
        )),
{
    assert(ops.push(op).drop_last() =~= ops);
}

/// The fixed texts are short.
proof fn lemma_label_len(role: CellRole)
    ensures
        label_text(role).len() <= 17,
{
    reveal_strlit("0");
    reveal_strlit("dev.release");
    reveal_strlit("Число/День");
    reveal_strlit("Часы");
    reveal_strlit("Доплата");
    reveal_strlit("Рабочие часы:");
    reveal_strlit("Часы выходных:");
    reveal_strlit("Часы переработки:");
    reveal_strlit("Оклад:");
    reveal_strlit("К получению:");
    reveal_strlit("");
}

/// The label of a day is short.
proof fn lemma_day_label_len(day: Day)
    requires
        day.wf(),
    ensures
        day_label_text(day).len() <= 23,
{
    reveal_strlit(" ");
    reveal_strlit("Пн");
    reveal_strlit("Вт");
    reveal_strlit("Ср");
    reveal_strlit("Чт");
    reveal_strlit("Пт");
    reveal_strlit("Сб");
    reveal_strlit("Вс");
    lemma_decimal_len_u64(day.date().spec_day() as nat);
}

/// The name of each of the twelve months is a valid name for a sheet.
pub proof fn lemma_month_names_valid(month: int)
    requires
        1 <= month <= 12,
    ensures
        valid_sheet_name(month_name_text(month)),
        month_name_text(month).len() <= 11,
{
    reveal_strlit("❄️ Январь");
    reveal_strlit("🌨️ Февраль");
    reveal_strlit("🌱 Март");
    reveal_strlit("🌸 Апрель");
    reveal_strlit("🌿 Май");
    reveal_strlit("☀️ Июнь");
    reveal_strlit("🏖️ Июль");
    reveal_strlit("🍉 Август");
    reveal_strlit("🍂 Сентябрь");
    reveal_strlit("🍁 Октябрь");
    reveal_strlit("🌧️ Ноябрь");
    reveal_strlit("🎄 Декабрь");
}

/// Any sheet accepts the row of a day, which merges nothing.
proof fn lemma_day_cell_ops_accepted(day: Day, merged: Set<(int, int)>)
    requires
        day.wf(),
    ensures
        ops_accepted(day_cell_ops(day), merged),
        merged_after(day_cell_ops(day), merged) == merged,
{
    lemma_day_label_len(day);
    lemma_label_len(CellRole::DayHours);
    let ops = day_cell_ops(day);
    let none = Seq::<SinkOpView>::empty();
    lemma_ops_push(none, ops[0], merged);
    lemma_ops_push(none.push(ops[0]), ops[1], merged);
    lemma_ops_push(none.push(ops[0]).push(ops[1]), ops[2], merged);
    assert(ops =~= none.push(ops[0]).push(ops[1]).push(ops[2]));
}

/// Any sheet accepts the rows of days, which merge nothing.
proof fn lemma_all_day_ops_accepted(days: Seq<Day>, merged: Set<(int, int)>)
    requires
        forall|i: int| 0 <= i < days.len() ==> (#[trigger] days[i]).wf(),
    ensures
        ops_accepted(all_day_ops(days), merged),
        merged_after(all_day_ops(days), merged) == merged,
    decreases days.len(),
{
    if days.len() > 0 {
        lemma_all_day_ops_accepted(days.drop_last(), merged);
        lemma_day_cell_ops_accepted(days.last(), merged);
        lemma_ops_concat(all_day_ops(days.drop_last()), day_cell_ops(days.last()), merged);
    }
}

/// A sheet without merged cells accepts the head, which merges the note
/// beside the year and the banner of the month.
proof fn lemma_header_ops_accepted(first_day: Day)
    requires
        first_day.wf(),
    ensures
        ops_accepted(header_ops(first_day), Set::empty()),
        merged_after(header_ops(first_day), Set::empty()) == range_cells(0, 1, 0, 2).union(
            range_cells(1, 0, 1, 2),
        ),
{
    lemma_label_len(CellRole::AppInfo);
    lemma_label_len(CellRole::Header);
    lemma_label_len(CellRole::BonusHeader);
    lemma_label_len(CellRole::InputHeader);
    lemma_month_names_valid(first_day.date().spec_month());
    let ops = header_ops(first_day);
    let start = Set::<(int, int)>::empty();
    let s0 = Seq::<SinkOpView>::empty();
    let s1 = s0.push(ops[0]);
    let s2 = s1.push(ops[1]);
    let s3 = s2.push(ops[2]);
    let s4 = s3.push(ops[3]);
    let s5 = s4.push(ops[4]);
    let s6 = s5.push(ops[5]);
    lemma_ops_push(s0, ops[0], start);
    lemma_ops_push(s1, ops[1], start);
    lemma_ops_push(s2, ops[2], start);
    lemma_ops_push(s3, ops[3], start);
    lemma_ops_push(s4, ops[4], start);
    lemma_ops_push(s5, ops[5], start);
    assert(ops =~= s6);
    assert(merged_after(s1, start) == start);
    assert(merged_after(s2, start) =~= range_cells(0, 1, 0, 2));
    assert(ops_accepted(s2, start));
    assert(merged_after(s5, start) =~= range_cells(0, 1, 0, 2));
    assert(ops_accepted(s5, start));
    assert(range_cells(1, 0, 1, 2).disjoint(range_cells(0, 1, 0, 2)));
    assert(ops_accepted(s6, start));
}

/// Any sheet accepts the salary, which merges nothing.
proof fn lemma_salary_ops_accepted(salary: nat, merged: Set<(int, int)>)
    ensures
        ops_accepted(salary_ops(salary), merged),
        merged_after(salary_ops(salary), merged) == merged,
{
    lemma_label_len(CellRole::SalaryLabel);
    let ops = salary_ops(salary);
    let s0 = Seq::<SinkOpView>::empty();
    lemma_ops_push(s0, ops[0], merged);
    lemma_ops_push(s0.push(ops[0]), ops[1], merged);
    assert(ops =~= s0.push(ops[0]).push(ops[1]));
}

/// Any sheet accepts the totals, which merge nothing.
proof fn lemma_total_cells_ops_accepted(
    work_hours: u32,
    first_day: int,
    last_day: int,
    usual_days_formula: Seq<char>,
    weekend_formula: Seq<char>,
    merged: Set<(int, int)>,
)
    ensures
        ops_accepted(
            total_cells_ops(work_hours, first_day, last_day, usual_days_formula, weekend_formula),
            merged,
        ),
        merged_after(
            total_cells_ops(work_hours, first_day, last_day, usual_days_formula, weekend_formula),
            merged,
        ) == merged,
{
    lemma_label_len(CellRole::TotalHoursLabel);
    lemma_label_len(CellRole::WeekendHoursLabel);
    lemma_label_len(CellRole::OverworkLabel);
    lemma_label_len(CellRole::TotalPaymentLabel);
    let ops = total_cells_ops(
        work_hours,
        first_day,
        last_day,
        usual_days_formula,
        weekend_formula,
    );
    let s0 = Seq::<SinkOpView>::empty();
    let s1 = s0.push(ops[0]);
    let s2 = s1.push(ops[1]);
    let s3 = s2.push(ops[2]);
    let s4 = s3.push(ops[3]);
    let s5 = s4.push(ops[4]);
    let s6 = s5.push(ops[5]);
    let s7 = s6.push(ops[6]);
    let s8 = s7.push(ops[7]);
    lemma_ops_push(s0, ops[0], merged);
    lemma_ops_push(s1, ops[1], merged);
    lemma_ops_push(s2, ops[2], merged);
    lemma_ops_push(s3, ops[3], merged);
    lemma_ops_push(s4, ops[4], merged);
    lemma_ops_push(s5, ops[5], merged);
    lemma_ops_push(s6, ops[6], merged);
    lemma_ops_push(s7, ops[7], merged);
    assert(ops =~= s8);
}

/// A sheet that has merged only the head accepts the finish, which merges
/// the rule below the day rows.
proof fn lemma_polish_ops_accepted(last_day: int)
    requires
        1 <= last_day <= 31,
    ensures
        ops_accepted(
            polish_ops(last_day),
            range_cells(0, 1, 0, 2).union(range_cells(1, 0, 1, 2)),
        ),
        merged_after(polish_ops(last_day), range_cells(0, 1, 0, 2).union(range_cells(1, 0, 1, 2)))
            == month_merged_cells(last_day),
{
    lemma_label_len(CellRole::BottomRule);
    let start = range_cells(0, 1, 0, 2).union(range_cells(1, 0, 1, 2));
    let ops = polish_ops(last_day);
    let s0 = Seq::<SinkOpView>::empty();
    let s1 = s0.push(ops[0]);
    let s2 = s1.push(ops[1]);
    let s3 = s2.push(ops[2]);
    let s4 = s3.push(ops[3]);
    let s5 = s4.push(ops[4]);
    lemma_ops_push(s0, ops[0], start);
    lemma_ops_push(s1, ops[1], start);
    lemma_ops_push(s2, ops[2], start);
    lemma_ops_push(s3, ops[3], start);
    lemma_ops_push(s4, ops[4], start);
    assert(ops =~= s5);
    assert(range_cells(last_day + 3, 0, last_day + 3, 2).disjoint(start));
    assert(merged_after(s1, start) =~= month_merged_cells(last_day));
}

/// The sink makes a sheet of the plan of any month: every cell of the plan
/// lies on the sheet, every text is short enough, the merged ranges do not
/// overlap, and the name of the month is a valid name for a sheet.
pub proof fn lemma_month_plan_accepted(days: Seq<Day>, salary: nat)
    requires
        is_month_run(days),
    ensures
        plan_accepted(month_sheet_plan(days, salary)),
        merged_after(month_sheet_plan(days, salary).ops, Set::empty()) == month_merged_cells(
            days.last().date().spec_day(),
        ),
{
    let none = Set::<(int, int)>::empty();
    let head = range_cells(0, 1, 0, 2).union(range_cells(1, 0, 1, 2));
    let first = days.first();
    let last = days.last();
    assert(first.wf() && last.wf());
    let first_day = first.date().spec_day();
    let last_day = last.date().spec_day();
    let plan = month_sheet_plan(days, salary);
    let a = seq![SinkOpView::HideGridlines];
    let b = all_day_ops(days);
    let c = header_ops(first);
    let d = salary_ops(salary);
    let e = total_cells_ops(
        (HOURS_PER_DAY * hours_cells(days, true).len()) as u32,
        first_day,
        last_day,
        sum_formula_text(hours_cells(days, true)),
        sum_formula_text(hours_cells(days, false)),
    );
    let f = polish_ops(last_day);
    assert(plan.ops == a + b + c + d + e + f);
    lemma_ops_push(Seq::<SinkOpView>::empty(), SinkOpView::HideGridlines, none);
    assert(a =~= Seq::<SinkOpView>::empty().push(SinkOpView::HideGridlines));
    lemma_all_day_ops_accepted(days, none);
    lemma_ops_concat(a, b, none);
    lemma_header_ops_accepted(first);
    lemma_ops_concat(a + b, c, none);
    lemma_salary_ops_accepted(salary, head);
    lemma_ops_concat(a + b + c, d, none);
    lemma_total_cells_ops_accepted(
        (HOURS_PER_DAY * hours_cells(days, true).len()) as u32,
        first_day,
        last_day,
        sum_formula_text(hours_cells(days, true)),
        sum_formula_text(hours_cells(days, false)),
        head,
    );
    lemma_ops_concat(a + b + c + d, e, none);
    lemma_polish_ops_accepted(last_day);
    lemma_ops_concat(a + b + c + d + e, f, none);
    lemma_month_names_valid(first.date().spec_month());
}

/// The widths that the sheet of a month sets: for the column of the
/// totals, that of the bonuses and that of the hours.
pub open spec fn month_widths() -> Map<int, int> {
    no_widths().insert(COL_SALARY as int, WIDTH_TOTALS as int).insert(
        COL_BONUS as int,
        WIDTH_BONUS as int,
    ).insert(COL_OVERWORKED_COUNTER as int, WIDTH_HOURS as int)
}

/// Operations `a` followed by operations `b` leave known the widths that
/// `b` leaves of those that `a` leaves.
proof fn lemma_widths_concat(a: Seq<SinkOpView>, b: Seq<SinkOpView>, start: Map<int, int>)
    ensures
        widths_after(a + b, start) == widths_after(b, widths_after(a, start)),
    decreases b.len(),
{
    if b.len() == 0 {
        assert(a + b =~= a);
    } else {
        lemma_widths_concat(a, b.drop_last(), start);
        assert((a + b).drop_last() =~= a + b.drop_last());
        assert((a + b).last() == b.last());
    }
}

/// One more operation changes the known widths as the operation says.
proof fn lemma_widths_push(ops: Seq<SinkOpView>, op: SinkOpView, start: Map<int, int>)
    ensures
        widths_after(ops.push(op), start) == widths_after_op(op, widths_after(ops, start)),
{
    assert(ops.push(op).drop_last() =~= ops);
}

/// The plan of a month hides the grid, and once the columns are fitted to
/// their content it sets the widths of three of them.
pub proof fn lemma_month_plan_finish(days: Seq<Day>, salary: nat)
    ensures
        hides_grid(month_sheet_plan(days, salary).ops),
        widths_after(month_sheet_plan(days, salary).ops, no_widths()) == month_widths(),
{
    let ops = month_sheet_plan(days, salary).ops;
    assert(ops[0] == SinkOpView::HideGridlines);
    let finish = polish_ops(days.last().date().spec_day());
    let before = ops.take(ops.len() - 5);
    assert(ops =~= before + finish);
    lemma_widths_concat(before, finish, no_widths());
    let known = widths_after(before, no_widths());
    let s0 = Seq::<SinkOpView>::empty();
    let s1 = s0.push(finish[0]);
    let s2 = s1.push(finish[1]);
    let s3 = s2.push(finish[2]);
    let s4 = s3.push(finish[3]);
    let s5 = s4.push(finish[4]);
    lemma_widths_push(s0, finish[0], known);
    lemma_widths_push(s1, finish[1], known);
    lemma_widths_push(s2, finish[2], known);
    lemma_widths_push(s3, finish[3], known);
    lemma_widths_push(s4, finish[4], known);
    assert(finish =~= s5);
    assert(widths_after(s2, known) == no_widths());
    assert(widths_after(finish, known) =~= month_widths());
}

/// Whether a sheet is the sheet of a month: the sheet that the plan of the
/// month describes.
pub open spec fn is_month_sheet(sheet: SheetView, days: Seq<Day>, salary: nat) -> bool {
    sheet_follows(sheet, month_sheet_plan(days, salary))
}

/// Makes the sheet of a month. The sink never refuses it. The sheet is
/// named after the month; its grid is hidden; its cells hold the rows of
/// the days, the head, the salary, the totals and the rule below the last
/// day row, and nothing else; each of these cells has the look of its
/// role, the rows of the days that of the kind of day; the note beside the
/// year, the banner of the month and the rule are merged; and the columns
/// of the totals, of the bonuses and of the hours have their widths.
pub fn assemble_sheet(month: &MonthGroup, salary: u32) -> (made: Result<Worksheet, EngineError>)
    ensures
        made is Ok,
        made matches Ok(sheet) ==> is_month_sheet(sheet_view(sheet), month@, salary as nat),
        made matches Ok(sheet) ==> {
            let made_sheet = sheet_view(sheet);
            &&& made_sheet.name == month_name_text(month@.first().date().spec_month())
            &&& made_sheet.grid_hidden
            &&& month_cells_hold(made_sheet.cells, month@, salary as nat)
            &&& month_looks_hold(made_sheet.looks, month@)
            &&& made_sheet.whole
            &&& made_sheet.merged == month_merged_cells(month@.last().date().spec_day())
            &&& month_widths().submap_of(made_sheet.widths)
        },
{
    proof {
        use_type_invariant(month);
        lemma_month_plan_accepted(month@, salary as nat);
        lemma_month_sheet_cells(month@, salary as nat);
        lemma_month_sheet_looks(month@, salary as nat);
        lemma_month_plan_finish(month@, salary as nat);
    }
    let plan = fill_month_sheet(month, salary);
    match render_sheet(&plan) {
        Ok(sheet) => Ok(sheet),
        Err(_) => Err(EngineError::SinkWriteFailure),
    }
}

} // verus!
