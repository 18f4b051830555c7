//! What the sheet of a month holds, cell by cell.
//!
//! The plan of a month is a list of operations. This file works out what
//! the cells hold once the sink has performed them all: no operation of
//! the plan overwrites what another has written.

use crate::cells_filling::{
    all_day_ops, day_cell_ops, day_label_text, header_ops, label_text, month_sheet_plan,
    polish_ops, salary_ops, total_cells_ops,
};
use crate::days::{is_month_run, lemma_month_run_numbers, month_name_text, Day};
use crate::formulas::{
    bonus_formula_text, hours_cells, salary_formula_text, sum_formula_text,
    total_payment_formula_text, HOURS_PER_DAY,
};
use crate::layout::{role_cell, role_last_col, CellRole};
use crate::plan::SinkOpView;
use crate::sink::{
    cells_after, cells_after_op, formula_text, no_cells, range_cells, text_cell, CellContent,
};
use vstd::prelude::*;

verus! {

/// Whether an operation writes into a cell.
pub open spec fn touches(op: SinkOpView, cell: (int, int)) -> bool {
    match op {
        SinkOpView::WriteText { cell: c, .. } => cell == (c.row as int, c.col as int),
        SinkOpView::WriteNumber { cell: c, .. } => cell == (c.row as int, c.col as int),
        SinkOpView::WriteFormula { cell: c, .. } => cell == (c.row as int, c.col as int),
        SinkOpView::Merge { first, last, .. } => cell == (first.row as int, first.col as int)
            || range_cells(
            first.row as int,
            first.col as int,
            last.row as int,
            last.col as int,
        ).contains(cell),
        _ => false,
    }
}

/// Whether the operations write into cells of `area` only.
pub open spec fn writes_within(ops: Seq<SinkOpView>, area: Set<(int, int)>) -> bool {
    forall|i: int, cell: (int, int)|
        0 <= i < ops.len() && #[trigger] touches(ops[i], cell) ==> area.contains(cell)
}

/// Whether a cell holds the given content.
pub open spec fn holds(
    cells: Map<(int, int), CellContent>,
    cell: (int, int),
    content: CellContent,
) -> bool {
    cells.dom().contains(cell) && cells[cell] == content
}

/// Whether the first cell of a role holds the given content.
pub open spec fn role_holds(
    cells: Map<(int, int), CellContent>,
    role: CellRole,
    day: int,
    content: CellContent,
) -> bool {
    holds(cells, role_cell(role, day), content)
}

/// Whether the cells of a merged role hold the given text in the first
/// cell and nothing in the others.
pub open spec fn merged_role_holds(
    cells: Map<(int, int), CellContent>,
    role: CellRole,
    day: int,
    text: Seq<char>,
) -> bool {
    let first = role_cell(role, day);
    &&& holds(cells, first, text_cell(text))
    &&& forall|col: int|
        first.1 < col <= role_last_col(role) ==> #[trigger] holds(
            cells,
            (first.0, col),
            CellContent::Blank,
        )
}

/// Whether the row of a day holds its label, its hours and its bonus.
pub open spec fn day_row_holds(cells: Map<(int, int), CellContent>, day: Day) -> bool {
    let n = day.date().spec_day();
    &&& role_holds(cells, CellRole::DayLabel, n, text_cell(day_label_text(day)))
    &&& role_holds(cells, CellRole::DayHours, n, text_cell(label_text(CellRole::DayHours)))
    &&& role_holds(
        cells,
        CellRole::DayBonus,
        n,
        CellContent::Formula(formula_text(bonus_formula_text(n))),
    )
}

/// Whether the cell of a label holds its text.
pub open spec fn label_holds(cells: Map<(int, int), CellContent>, role: CellRole) -> bool {
    role_holds(cells, role, 0, text_cell(label_text(role)))
}

/// Whether a cell of the totals block holds the given formula.
pub open spec fn formula_holds(
    cells: Map<(int, int), CellContent>,
    role: CellRole,
    formula: Seq<char>,
) -> bool {
    role_holds(cells, role, 0, CellContent::Formula(formula_text(formula)))
}

/// Whether the cells hold the head of the sheet of a month that begins
/// with `first_day`.
pub open spec fn head_holds(cells: Map<(int, int), CellContent>, first_day: Day) -> bool {
    &&& role_holds(
        cells,
        CellRole::Year,
        0,
        CellContent::Number(first_day.date().spec_year() as u32),
    )
    &&& merged_role_holds(cells, CellRole::AppInfo, 0, label_text(CellRole::AppInfo))
    &&& merged_role_holds(
        cells,
        CellRole::MonthBanner,
        0,
        month_name_text(first_day.date().spec_month()),
    )
    &&& label_holds(cells, CellRole::Header)
    &&& label_holds(cells, CellRole::InputHeader)
    &&& label_holds(cells, CellRole::BonusHeader)
}

/// Whether the cells hold the salary.
pub open spec fn salary_holds(cells: Map<(int, int), CellContent>, salary: nat) -> bool {
    &&& label_holds(cells, CellRole::SalaryLabel)
    &&& formula_holds(cells, CellRole::SalaryValue, salary_formula_text(salary))
}

/// Whether the cells hold the totals of the given days.
pub open spec fn totals_hold(cells: Map<(int, int), CellContent>, days: Seq<Day>) -> bool {
    &&& label_holds(cells, CellRole::TotalHoursLabel)
    &&& role_holds(
        cells,
        CellRole::TotalHoursValue,
        0,
        CellContent::Number((HOURS_PER_DAY * hours_cells(days, true).len()) as u32),
    )
    &&& label_holds(cells, CellRole::WeekendHoursLabel)
    &&& formula_holds(
        cells,
        CellRole::WeekendHoursValue,
        sum_formula_text(hours_cells(days, false)),
    )
    &&& label_holds(cells, CellRole::OverworkLabel)
    &&& formula_holds(cells, CellRole::OverworkValue, sum_formula_text(hours_cells(days, true)))
    &&& label_holds(cells, CellRole::TotalPaymentLabel)
    &&& formula_holds(
        cells,
        CellRole::TotalPaymentValue,
        total_payment_formula_text(
            days.first().date().spec_day(),
            days.last().date().spec_day(),
        ),
    )
}

/// The cells into which the sheet of a month is written: the day rows from
/// the first day to the last, the head above them, the rule below them, and
/// the totals block beside them.
pub open spec fn month_area(first_day: int, last_day: int) -> Set<(int, int)> {
    range_cells(first_day + 2, 0, last_day + 2, 2).union(range_cells(0, 0, 2, 2)).union(
        range_cells(last_day + 3, 0, last_day + 3, 2),
    ).union(range_cells(0, 3, 5, 4))
}

/// Whether the cells are those of the sheet of a month: each day has its
/// row; the head, the salary, the totals and the rule below the last day
/// row are in place; and nothing is written anywhere else.
pub open spec fn month_cells_hold(
    cells: Map<(int, int), CellContent>,
    days: Seq<Day>,
    salary: nat,
) -> bool {
    &&& forall|i: int| 0 <= i < days.len() ==> day_row_holds(cells, #[trigger] days[i])
    &&& head_holds(cells, days.first())
    &&& salary_holds(cells, salary)
    &&& totals_hold(cells, days)
    &&& merged_role_holds(
        cells,
        CellRole::BottomRule,
        days.last().date().spec_day(),
        label_text(CellRole::BottomRule),
    )
    &&& cells.dom().subset_of(
        month_area(days.first().date().spec_day(), days.last().date().spec_day()),
    )
}

/// One more operation changes the cells as the operation says.
proof fn lemma_cells_push(
    ops: Seq<SinkOpView>,
    op: SinkOpView,
    start: Map<(int, int), CellContent>,
)
    ensures
        cells_after(ops.push(op), start) == cells_after_op(op, cells_after(ops, start)),
{
    assert(ops.push(op).drop_last() =~= ops);
}

/// Operations `a` followed by operations `b` leave what `b` leaves of what
/// `a` leaves.
proof fn lemma_cells_concat(
    a: Seq<SinkOpView>,
    b: Seq<SinkOpView>,
    start: Map<(int, int), CellContent>,
)
    ensures
        cells_after(a + b, start) == cells_after(b, cells_after(a, start)),
    decreases b.len(),
{
    if b.len() == 0 {
        assert(a + b =~= a);
    } else {
        lemma_cells_concat(a, b.drop_last(), start);
        assert((a + b).drop_last() =~= a + b.drop_last());
        assert((a + b).last() == b.last());
    }
}

/// Operations that write into an area leave every cell outside it as it
/// was.
proof fn lemma_outside_kept(
    ops: Seq<SinkOpView>,
    start: Map<(int, int), CellContent>,
    area: Set<(int, int)>,
)
    requires
        writes_within(ops, area),
    ensures
        forall|cell: (int, int)|
            !area.contains(cell) ==> (#[trigger] cells_after(ops, start).dom().contains(cell))
                == start.dom().contains(cell),
        forall|cell: (int, int)|
            !area.contains(cell) && start.dom().contains(cell) ==> #[trigger] cells_after(
                ops,
                start,
            )[cell] == start[cell],
    decreases ops.len(),
{
    if ops.len() > 0 {
        let before = ops.drop_last();
        assert forall|i: int, cell: (int, int)|
            0 <= i < before.len() && #[trigger] touches(before[i], cell) implies area.contains(
            cell,
        ) by {
            assert(before[i] == ops[i]);
        }
        lemma_outside_kept(before, start, area);
        let mid = cells_after(before, start);
        assert forall|cell: (int, int)| !area.contains(cell) implies (#[trigger] cells_after(
            ops,
            start,
        ).dom().contains(cell)) == start.dom().contains(cell) by {
            assert(!touches(ops[ops.len() - 1], cell));
            assert(mid.dom().contains(cell) == start.dom().contains(cell));
        }
        assert forall|cell: (int, int)|
            !area.contains(cell) && start.dom().contains(cell) implies #[trigger] cells_after(
            ops,
            start,
        )[cell] == start[cell] by {
            assert(!touches(ops[ops.len() - 1], cell));
            assert(mid.dom().contains(cell) == start.dom().contains(cell));
            assert(mid[cell] == start[cell]);
        }
    }
}

/// Operations that write into an area write into any wider area.
proof fn lemma_writes_within_wider(
    ops: Seq<SinkOpView>,
    area: Set<(int, int)>,
    wider: Set<(int, int)>,
)
    requires
        writes_within(ops, area),
        area.subset_of(wider),
    ensures
        writes_within(ops, wider),
{
}

/// Operations `a` followed by operations `b` write into an area if both
/// do.
proof fn lemma_writes_within_concat(
    a: Seq<SinkOpView>,
    b: Seq<SinkOpView>,
    area: Set<(int, int)>,
)
    requires
        writes_within(a, area),
        writes_within(b, area),
    ensures
        writes_within(a + b, area),
{
    assert forall|i: int, cell: (int, int)|
        0 <= i < (a + b).len() && #[trigger] touches((a + b)[i], cell) implies area.contains(
        cell,
    ) by {
        if i < a.len() {
            assert(touches(a[i], cell));
        } else {
            assert(touches(b[i - a.len()], cell));
        }
    }
}

/// The three operations of the row of a day write its three cells.
pub(crate) proof fn lemma_day_cell_ops_cells(day: Day, start: Map<(int, int), CellContent>)
    requires
        day.wf(),
    ensures
        day_row_holds(cells_after(day_cell_ops(day), start), day),
        writes_within(
            day_cell_ops(day),
            range_cells(day.date().spec_day() + 2, 0, day.date().spec_day() + 2, 2),
        ),
{
    let ops = day_cell_ops(day);
    let s0 = Seq::<SinkOpView>::empty();
    let s1 = s0.push(ops[0]);
    let s2 = s1.push(ops[1]);
    let s3 = s2.push(ops[2]);
    lemma_cells_push(s0, ops[0], start);
    lemma_cells_push(s1, ops[1], start);
    lemma_cells_push(s2, ops[2], start);
    assert(ops =~= s3);
}

/// Whether the days exist, have numbers from `low` to `high`, and no two
/// of them the same number.
pub(crate) open spec fn distinct_days(days: Seq<Day>, low: int, high: int) -> bool {
    &&& forall|i: int|
        0 <= i < days.len() ==> (#[trigger] days[i]).wf() && low <= days[i].date().spec_day()
            <= high
    &&& forall|i: int, j: int|
        0 <= i < j < days.len() ==> (#[trigger] days[i]).date().spec_day() != (
        #[trigger] days[j]).date().spec_day()
}

/// The rows of days with different numbers do not overwrite one another.
pub(crate) proof fn lemma_all_day_ops_cells(
    days: Seq<Day>,
    low: int,
    high: int,
    start: Map<(int, int), CellContent>,
)
    requires
        distinct_days(days, low, high),
    ensures
        forall|i: int|
            0 <= i < days.len() ==> day_row_holds(
                cells_after(all_day_ops(days), start),
                #[trigger] days[i],
            ),
        writes_within(all_day_ops(days), range_cells(low + 2, 0, high + 2, 2)),
    decreases days.len(),
{
    let area = range_cells(low + 2, 0, high + 2, 2);
    if days.len() > 0 {
        let init = days.drop_last();
        let last = days.last();
        assert(distinct_days(init, low, high)) by {
            assert forall|i: int| 0 <= i < init.len() implies (#[trigger] init[i]).wf() && low
                <= init[i].date().spec_day() <= high by {
                    assert(init[i] == days[i]);
            }
            assert forall|i: int, j: int| 0 <= i < j < init.len() implies (
            #[trigger] init[i]).date().spec_day() != (#[trigger] init[j]).date().spec_day() by {
                assert(init[i] == days[i] && init[j] == days[j]);
            }
        }
        lemma_all_day_ops_cells(init, low, high, start);
        let mid = cells_after(all_day_ops(init), start);
        lemma_cells_concat(all_day_ops(init), day_cell_ops(last), start);
        lemma_day_cell_ops_cells(last, mid);
        let row = range_cells(last.date().spec_day() + 2, 0, last.date().spec_day() + 2, 2);
        assert(last == days[days.len() - 1]);
        lemma_writes_within_wider(day_cell_ops(last), row, area);
        lemma_writes_within_concat(all_day_ops(init), day_cell_ops(last), area);
        lemma_outside_kept(day_cell_ops(last), mid, row);
        assert forall|i: int| 0 <= i < days.len() implies day_row_holds(
            cells_after(all_day_ops(days), start),
            #[trigger] days[i],
        ) by {
            if i < days.len() - 1 {
                assert(init[i] == days[i]);
                assert(day_row_holds(mid, days[i]));
                assert(days[i].date().spec_day() != last.date().spec_day());
            }
        }
    }
}

/// The operations of the head write the head.
pub(crate) proof fn lemma_header_ops_cells(first_day: Day, start: Map<(int, int), CellContent>)
    requires
        first_day.wf(),
    ensures
        head_holds(cells_after(header_ops(first_day), start), first_day),
        writes_within(header_ops(first_day), range_cells(0, 0, 2, 2)),
{
    let ops = header_ops(first_day);
    let s0 = Seq::<SinkOpView>::empty();
    let s1 = s0.push(ops[0]);
    let s2 = s1.push(ops[1]);
    let s3 = s2.push(ops[2]);
    let s4 = s3.push(ops[3]);
    let s5 = s4.push(ops[4]);
    let s6 = s5.push(ops[5]);
    lemma_cells_push(s0, ops[0], start);
    lemma_cells_push(s1, ops[1], start);
    lemma_cells_push(s2, ops[2], start);
    lemma_cells_push(s3, ops[3], start);
    lemma_cells_push(s4, ops[4], start);
    lemma_cells_push(s5, ops[5], start);
    assert(ops =~= s6);
    let cells = cells_after(ops, start);
    assert(holds(cells, (0, 2), CellContent::Blank));
    assert(holds(cells, (1, 1), CellContent::Blank));
    assert(holds(cells, (1, 2), CellContent::Blank));
    assert(merged_role_holds(cells, CellRole::AppInfo, 0, label_text(CellRole::AppInfo)));
    assert(merged_role_holds(
        cells,
        CellRole::MonthBanner,
        0,
        month_name_text(first_day.date().spec_month()),
    ));
}

/// The operations of the salary write the salary.
pub(crate) proof fn lemma_salary_ops_cells(salary: nat, start: Map<(int, int), CellContent>)
    ensures
        salary_holds(cells_after(salary_ops(salary), start), salary),
        writes_within(salary_ops(salary), range_cells(4, 3, 4, 4)),
{
    let ops = salary_ops(salary);
    let s0 = Seq::<SinkOpView>::empty();
    let s1 = s0.push(ops[0]);
    let s2 = s1.push(ops[1]);
    lemma_cells_push(s0, ops[0], start);
    lemma_cells_push(s1, ops[1], start);
    assert(ops =~= s2);
}

/// The operations of the totals write the totals.
pub(crate) proof fn lemma_total_cells_ops_cells(days: Seq<Day>, start: Map<(int, int), CellContent>)
    ensures
        ({
            let ops = total_cells_ops(
                (HOURS_PER_DAY * hours_cells(days, true).len()) as u32,
                days.first().date().spec_day(),
                days.last().date().spec_day(),
                sum_formula_text(hours_cells(days, true)),
                sum_formula_text(hours_cells(days, false)),
            );
            &&& writes_within(ops, range_cells(0, 3, 2, 4).union(range_cells(5, 3, 5, 4)))
            &&& totals_hold(cells_after(ops, start), days)
        }),
{
    let ops = total_cells_ops(
        (HOURS_PER_DAY * hours_cells(days, true).len()) as u32,
        days.first().date().spec_day(),
        days.last().date().spec_day(),
        sum_formula_text(hours_cells(days, true)),
        sum_formula_text(hours_cells(days, false)),
    );
    let s0 = Seq::<SinkOpView>::empty();
    let s1 = s0.push(ops[0]);
    let s2 = s1.push(ops[1]);
    let s3 = s2.push(ops[2]);
    let s4 = s3.push(ops[3]);
    let s5 = s4.push(ops[4]);
    let s6 = s5.push(ops[5]);
    let s7 = s6.push(ops[6]);
    let s8 = s7.push(ops[7]);
    lemma_cells_push(s0, ops[0], start);
    lemma_cells_push(s1, ops[1], start);
    lemma_cells_push(s2, ops[2], start);
    lemma_cells_push(s3, ops[3], start);
    lemma_cells_push(s4, ops[4], start);
    lemma_cells_push(s5, ops[5], start);
    lemma_cells_push(s6, ops[6], start);
    lemma_cells_push(s7, ops[7], start);
    assert(ops =~= s8);
}

/// The operations of the finish write the rule below the day rows.
pub(crate) proof fn lemma_polish_ops_cells(last_day: int, start: Map<(int, int), CellContent>)
    requires
        1 <= last_day <= 31,
    ensures
        merged_role_holds(
            cells_after(polish_ops(last_day), start),
            CellRole::BottomRule,
            last_day,
            label_text(CellRole::BottomRule),
        ),
        writes_within(polish_ops(last_day), range_cells(last_day + 3, 0, last_day + 3, 2)),
{
    let ops = polish_ops(last_day);
    let s0 = Seq::<SinkOpView>::empty();
    let s1 = s0.push(ops[0]);
    let s2 = s1.push(ops[1]);
    let s3 = s2.push(ops[2]);
    let s4 = s3.push(ops[3]);
    let s5 = s4.push(ops[4]);
    lemma_cells_push(s0, ops[0], start);
    lemma_cells_push(s1, ops[1], start);
    lemma_cells_push(s2, ops[2], start);
    lemma_cells_push(s3, ops[3], start);
    lemma_cells_push(s4, ops[4], start);
    assert(ops =~= s5);
    let cells = cells_after(ops, start);
    assert(holds(cells, (last_day + 3, 1), CellContent::Blank));
    assert(holds(cells, (last_day + 3, 2), CellContent::Blank));
}

/// Operations that write into an area leave a merged role outside it
/// holding what it held.
proof fn lemma_merged_role_kept(
    ops: Seq<SinkOpView>,
    start: Map<(int, int), CellContent>,
    area: Set<(int, int)>,
    role: CellRole,
    day: int,
    text: Seq<char>,
)
    requires
        writes_within(ops, area),
        merged_role_holds(start, role, day, text),
        role_cell(role, day).1 <= role_last_col(role),
        forall|col: int|
            role_cell(role, day).1 <= col <= role_last_col(role) ==> !area.contains(
                (role_cell(role, day).0, col),
            ),
    ensures
        merged_role_holds(cells_after(ops, start), role, day, text),
{
    lemma_outside_kept(ops, start, area);
    let first = role_cell(role, day);
    let after = cells_after(ops, start);
    assert(!area.contains((first.0, first.1)));
    assert(first == (first.0, first.1));
    assert(holds(after, first, text_cell(text)));
    assert forall|col: int| first.1 < col <= role_last_col(role) implies #[trigger] holds(
        after,
        (first.0, col),
        CellContent::Blank,
    ) by {
        assert(holds(start, (first.0, col), CellContent::Blank));
    }
}

/// Operations that write nothing into the first three rows of the first
/// three columns leave the head as it was.
proof fn lemma_head_kept(
    ops: Seq<SinkOpView>,
    start: Map<(int, int), CellContent>,
    area: Set<(int, int)>,
    first_day: Day,
)
    requires
        writes_within(ops, area),
        head_holds(start, first_day),
        area.disjoint(range_cells(0, 0, 2, 2)),
    ensures
        head_holds(cells_after(ops, start), first_day),
{
    let head = range_cells(0, 0, 2, 2);
    assert forall|row: int, col: int| 0 <= row <= 2 && 0 <= col <= 2 implies !area.contains(
        (row, col),
    ) by {
        assert(head.contains((row, col)));
    }
    lemma_outside_kept(ops, start, area);
    lemma_merged_role_kept(
        ops,
        start,
        area,
        CellRole::AppInfo,
        0,
        label_text(CellRole::AppInfo),
    );
    lemma_merged_role_kept(
        ops,
        start,
        area,
        CellRole::MonthBanner,
        0,
        month_name_text(first_day.date().spec_month()),
    );
}

/// Operations that write nothing into the rows of the days leave those
/// rows as they were.
proof fn lemma_day_rows_kept(
    ops: Seq<SinkOpView>,
    start: Map<(int, int), CellContent>,
    area: Set<(int, int)>,
    days: Seq<Day>,
    low: int,
    high: int,
)
    requires
        writes_within(ops, area),
        area.disjoint(range_cells(low + 2, 0, high + 2, 2)),
        forall|i: int|
            0 <= i < days.len() ==> low <= (#[trigger] days[i]).date().spec_day() <= high
                && day_row_holds(start, days[i]),
    ensures
        forall|i: int|
            0 <= i < days.len() ==> day_row_holds(cells_after(ops, start), #[trigger] days[i]),
{
    lemma_outside_kept(ops, start, area);
    let rows = range_cells(low + 2, 0, high + 2, 2);
    assert forall|i: int| 0 <= i < days.len() implies day_row_holds(
        cells_after(ops, start),
        #[trigger] days[i],
    ) by {
        let n = days[i].date().spec_day();
        assert(day_row_holds(start, days[i]));
        assert(rows.contains((n + 2, 0)) && rows.contains((n + 2, 1)) && rows.contains((n + 2, 2)));
    }
}

/// Operations that write nothing into the cells of the salary leave the
/// salary as it was.
proof fn lemma_salary_kept(
    ops: Seq<SinkOpView>,
    start: Map<(int, int), CellContent>,
    area: Set<(int, int)>,
    salary: nat,
)
    requires
        writes_within(ops, area),
        area.disjoint(range_cells(4, 3, 4, 4)),
        salary_holds(start, salary),
    ensures
        salary_holds(cells_after(ops, start), salary),
{
    lemma_outside_kept(ops, start, area);
    let cells = range_cells(4, 3, 4, 4);
    assert(cells.contains((4, 3)) && cells.contains((4, 4)));
}

/// Operations that write nothing into the cells of the totals leave the
/// totals as they were.
proof fn lemma_totals_kept(
    ops: Seq<SinkOpView>,
    start: Map<(int, int), CellContent>,
    area: Set<(int, int)>,
    days: Seq<Day>,
)
    requires
        writes_within(ops, area),
        area.disjoint(range_cells(0, 3, 5, 4)),
        totals_hold(start, days),
    ensures
        totals_hold(cells_after(ops, start), days),
{
    lemma_outside_kept(ops, start, area);
    let cells = range_cells(0, 3, 5, 4);
    assert(cells.contains((0, 3)) && cells.contains((0, 4)));
    assert(cells.contains((1, 3)) && cells.contains((1, 4)));
    assert(cells.contains((2, 3)) && cells.contains((2, 4)));
    assert(cells.contains((5, 3)) && cells.contains((5, 4)));
}

/// Operations that write into part of an area leave all that is written
/// within the area, if it was.
proof fn lemma_written_within(
    ops: Seq<SinkOpView>,
    start: Map<(int, int), CellContent>,
    area: Set<(int, int)>,
    whole: Set<(int, int)>,
)
    requires
        writes_within(ops, area),
        area.subset_of(whole),
        start.dom().subset_of(whole),
    ensures
        cells_after(ops, start).dom().subset_of(whole),
{
    lemma_outside_kept(ops, start, area);
    let after = cells_after(ops, start);
    assert forall|cell: (int, int)| after.dom().contains(cell) implies whole.contains(cell) by {
        if !area.contains(cell) {
            assert(start.dom().contains(cell));
        }
    }
}

/// What the cells hold once the rows of the days are written.
proof fn lemma_after_day_rows(days: Seq<Day>)
    requires
        is_month_run(days),
    ensures
        ({
            let low = days.first().date().spec_day();
            let high = days.last().date().spec_day();
            let cells = cells_after(
                seq![SinkOpView::HideGridlines] + all_day_ops(days),
                no_cells(),
            );
            &&& 1 <= low <= high <= 31
            &&& forall|i: int|
                0 <= i < days.len() ==> low <= (#[trigger] days[i]).date().spec_day() <= high
                    && day_row_holds(cells, days[i])
            &&& cells.dom().subset_of(month_area(low, high))
        }),
{
    lemma_month_run_numbers(days);
    let first = days.first();
    let last = days.last();
    assert(first.wf() && last.wf());
    let low = first.date().spec_day();
    let high = last.date().spec_day();
    assert(high == low + days.len() - 1);
    assert(distinct_days(days, low, high));
    let a = seq![SinkOpView::HideGridlines];
    let b = all_day_ops(days);
    let c0 = no_cells();
    lemma_cells_push(Seq::<SinkOpView>::empty(), SinkOpView::HideGridlines, c0);
    assert(a =~= Seq::<SinkOpView>::empty().push(SinkOpView::HideGridlines));
    assert(cells_after(a, c0) == c0);
    lemma_cells_concat(a, b, c0);
    lemma_all_day_ops_cells(days, low, high, c0);
    lemma_written_within(b, c0, range_cells(low + 2, 0, high + 2, 2), month_area(low, high));
}

/// The sheet of a month, cell by cell: each day has its row, with its
/// label, its hours and the formula for its bonus; the head, the salary,
/// the totals and the rule below the last day row are in place; and
/// nothing is written anywhere else. No operation of the plan overwrites
/// what another has written.
pub proof fn lemma_month_sheet_cells(days: Seq<Day>, salary: nat)
    requires
        is_month_run(days),
    ensures
        month_cells_hold(
            cells_after(month_sheet_plan(days, salary).ops, no_cells()),
            days,
            salary,
        ),
{
    let first = days.first();
    let low = first.date().spec_day();
    let high = days.last().date().spec_day();
    assert(first.wf());
    let whole = month_area(low, high);
    let a = seq![SinkOpView::HideGridlines];
    let b = all_day_ops(days);
    let c = header_ops(first);
    let d = salary_ops(salary);
    let e = total_cells_ops(
        (HOURS_PER_DAY * hours_cells(days, true).len()) as u32,
        low,
        high,
        sum_formula_text(hours_cells(days, true)),
        sum_formula_text(hours_cells(days, false)),
    );
    let f = polish_ops(high);
    assert(month_sheet_plan(days, salary).ops == a + b + c + d + e + f);
    let head_area = range_cells(0, 0, 2, 2);
    let salary_area = range_cells(4, 3, 4, 4);
    let totals_area = range_cells(0, 3, 2, 4).union(range_cells(5, 3, 5, 4));
    let rule_area = range_cells(high + 3, 0, high + 3, 2);
    let c0 = no_cells();
    // The day rows.
    lemma_after_day_rows(days);
    let cb = cells_after(a + b, c0);
    // The head.
    let cc = cells_after(a + b + c, c0);
    assert(cc == cells_after(c, cb)) by {
        lemma_cells_concat(a + b, c, c0);
    }
    lemma_header_ops_cells(first, cb);
    lemma_day_rows_kept(c, cb, head_area, days, low, high);
    lemma_written_within(c, cb, head_area, whole);
    // The salary.
    let cd = cells_after(a + b + c + d, c0);
    assert(cd == cells_after(d, cc)) by {
        lemma_cells_concat(a + b + c, d, c0);
    }
    lemma_salary_ops_cells(salary, cc);
    lemma_day_rows_kept(d, cc, salary_area, days, low, high);
    lemma_head_kept(d, cc, salary_area, first);
    lemma_written_within(d, cc, salary_area, whole);
    // The totals.
    let ce = cells_after(a + b + c + d + e, c0);
    assert(ce == cells_after(e, cd)) by {
        lemma_cells_concat(a + b + c + d, e, c0);
    }
    lemma_total_cells_ops_cells(days, cd);
    lemma_day_rows_kept(e, cd, totals_area, days, low, high);
    lemma_head_kept(e, cd, totals_area, first);
    lemma_salary_kept(e, cd, totals_area, salary);
    lemma_written_within(e, cd, totals_area, whole);
    // The finish.
    let cf = cells_after(a + b + c + d + e + f, c0);
    assert(cf == cells_after(f, ce)) by {
        lemma_cells_concat(a + b + c + d + e, f, c0);
    }
    lemma_polish_ops_cells(high, ce);
    lemma_day_rows_kept(f, ce, rule_area, days, low, high);
    lemma_head_kept(f, ce, rule_area, first);
    lemma_salary_kept(f, ce, rule_area, salary);
    lemma_totals_kept(f, ce, rule_area, days);
    lemma_written_within(f, ce, rule_area, whole);
}

} // verus!
