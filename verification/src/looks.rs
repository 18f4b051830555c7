//! How the sheet of a month looks, cell by cell.
//!
//! Each operation of the plan of a month gives the cells that it writes
//! the look of their role. This file works out the look of every cell once
//! the sink has performed them all: no operation of the plan changes the
//! look that another has given.

use crate::cells_filling::{
    all_day_ops, day_cell_ops, header_ops, month_sheet_plan, polish_ops, salary_ops,
    total_cells_ops,
};
use crate::contents::{
    distinct_days, lemma_all_day_ops_cells, lemma_day_cell_ops_cells, lemma_header_ops_cells,
    lemma_polish_ops_cells, lemma_salary_ops_cells, lemma_total_cells_ops_cells, month_area,
    touches, writes_within,
};
use crate::days::{is_month_run, lemma_month_run_numbers, season_of, Day, DayType, Season};
use crate::formulas::{hours_cells, sum_formula_text, HOURS_PER_DAY};
use crate::layout::{role_cell, role_last_col, CellRole};
use crate::plan::SinkOpView;
use crate::sink::{
    look_of, looks_after, looks_after_op, no_cells, no_looks, range_cells, FormatField,
    FormatValue,
};
use crate::styles::role_style;
use vstd::prelude::*;

verus! {

/// Whether a cell has the given look.
pub open spec fn has_look(
    looks: Map<(int, int), Map<FormatField, FormatValue>>,
    cell: (int, int),
    look: Map<FormatField, FormatValue>,
) -> bool {
    looks.dom().contains(cell) && looks[cell] == look
}

/// Whether every cell of a role, from its first to the one in its last
/// column, has the look of the role, for a day of the given kind and a
/// month of the given season.
pub open spec fn role_looks(
    looks: Map<(int, int), Map<FormatField, FormatValue>>,
    role: CellRole,
    day: int,
    flag: DayType,
    season: Season,
) -> bool {
    let first = role_cell(role, day);
    let look = look_of(role_style(role, flag, season));
    &&& has_look(looks, first, look)
    &&& forall|col: int|
        first.1 < col <= role_last_col(role) ==> #[trigger] has_look(looks, (first.0, col), look)
}

/// Whether the cell of a role that depends on no day has the look of the
/// role.
pub open spec fn fixed_role_looks(
    looks: Map<(int, int), Map<FormatField, FormatValue>>,
    role: CellRole,
) -> bool {
    role_looks(looks, role, 0, DayType::Usual, Season::Winter)
}

/// Whether the three cells of the row of a day have the look of the kind
/// of day.
pub open spec fn day_row_looks(
    looks: Map<(int, int), Map<FormatField, FormatValue>>,
    day: Day,
) -> bool {
    let n = day.date().spec_day();
    &&& role_looks(looks, CellRole::DayLabel, n, day.flag(), Season::Winter)
    &&& role_looks(looks, CellRole::DayHours, n, day.flag(), Season::Winter)
    &&& role_looks(looks, CellRole::DayBonus, n, day.flag(), Season::Winter)
}

/// Whether the head of the sheet of a month that begins with `first_day`
/// has its looks: the banner that of the season of the month.
pub open spec fn head_looks(
    looks: Map<(int, int), Map<FormatField, FormatValue>>,
    first_day: Day,
) -> bool {
    &&& fixed_role_looks(looks, CellRole::Year)
    &&& fixed_role_looks(looks, CellRole::AppInfo)
    &&& fixed_role_looks(looks, CellRole::Header)
    &&& fixed_role_looks(looks, CellRole::InputHeader)
    &&& fixed_role_looks(looks, CellRole::BonusHeader)
    &&& role_looks(
        looks,
        CellRole::MonthBanner,
        0,
        DayType::Usual,
        season_of(first_day.date().spec_month()),
    )
}

/// Whether the two cells of the salary have their looks.
pub open spec fn salary_looks(looks: Map<(int, int), Map<FormatField, FormatValue>>) -> bool {
    &&& fixed_role_looks(looks, CellRole::SalaryLabel)
    &&& fixed_role_looks(looks, CellRole::SalaryValue)
}

/// Whether the cells of the totals have their looks.
pub open spec fn totals_look(looks: Map<(int, int), Map<FormatField, FormatValue>>) -> bool {
    &&& fixed_role_looks(looks, CellRole::TotalHoursLabel)
    &&& fixed_role_looks(looks, CellRole::TotalHoursValue)
    &&& fixed_role_looks(looks, CellRole::WeekendHoursLabel)
    &&& fixed_role_looks(looks, CellRole::WeekendHoursValue)
    &&& fixed_role_looks(looks, CellRole::OverworkLabel)
    &&& fixed_role_looks(looks, CellRole::OverworkValue)
    &&& fixed_role_looks(looks, CellRole::TotalPaymentLabel)
    &&& fixed_role_looks(looks, CellRole::TotalPaymentValue)
}

/// Whether the looks are those of the sheet of a month: the row of each
/// day has the look of the kind of day; the head, the salary, the totals
/// and the rule below the last day row have theirs; and no other cell has
/// a look.
pub open spec fn month_looks_hold(
    looks: Map<(int, int), Map<FormatField, FormatValue>>,
    days: Seq<Day>,
) -> bool {
    &&& forall|i: int| 0 <= i < days.len() ==> day_row_looks(looks, #[trigger] days[i])
    &&& head_looks(looks, days.first())
    &&& salary_looks(looks)
    &&& totals_look(looks)
    &&& role_looks(
        looks,
        CellRole::BottomRule,
        days.last().date().spec_day(),
        DayType::Usual,
        Season::Winter,
    )
    &&& looks.dom().subset_of(
        month_area(days.first().date().spec_day(), days.last().date().spec_day()),
    )
}

/// One more operation changes the looks as the operation says.
proof fn lemma_looks_push(
    ops: Seq<SinkOpView>,
    op: SinkOpView,
    start: Map<(int, int), Map<FormatField, FormatValue>>,
)
    ensures
        looks_after(ops.push(op), start) == looks_after_op(op, looks_after(ops, start)),
{
    assert(ops.push(op).drop_last() =~= ops);
}

/// Operations `a` followed by operations `b` leave what `b` leaves of what
/// `a` leaves.
proof fn lemma_looks_concat(
    a: Seq<SinkOpView>,
    b: Seq<SinkOpView>,
    start: Map<(int, int), Map<FormatField, FormatValue>>,
)
    ensures
        looks_after(a + b, start) == looks_after(b, looks_after(a, start)),
    decreases b.len(),
{
    if b.len() == 0 {
        assert(a + b =~= a);
    } else {
        lemma_looks_concat(a, b.drop_last(), start);
        assert((a + b).drop_last() =~= a + b.drop_last());
        assert((a + b).last() == b.last());
    }
}

/// Operations that write into an area leave the look of every cell
/// outside it as it was.
proof fn lemma_looks_outside_kept(
    ops: Seq<SinkOpView>,
    start: Map<(int, int), Map<FormatField, FormatValue>>,
    area: Set<(int, int)>,
)
    requires
        writes_within(ops, area),
    ensures
        forall|cell: (int, int)|
            !area.contains(cell) ==> (#[trigger] looks_after(ops, start).dom().contains(cell))
                == start.dom().contains(cell),
        forall|cell: (int, int)|
            !area.contains(cell) && start.dom().contains(cell) ==> #[trigger] looks_after(
                ops,
                start,
            )[cell] == start[cell],
    decreases ops.len(),
{
    if ops.len() > 0 {
        let before = ops.drop_last();
        assert forall|i: int, cell: (int, int)|
            0 <= i < before.len() && #[trigger] touches(before[i], cell) implies area.contains(
            cell,
        ) by {
            assert(before[i] == ops[i]);
        }
        lemma_looks_outside_kept(before, start, area);
        let mid = looks_after(before, start);
        assert forall|cell: (int, int)| !area.contains(cell) implies (#[trigger] looks_after(
            ops,
            start,
        ).dom().contains(cell)) == start.dom().contains(cell) by {
            assert(!touches(ops[ops.len() - 1], cell));
            assert(mid.dom().contains(cell) == start.dom().contains(cell));
        }
        assert forall|cell: (int, int)|
            !area.contains(cell) && start.dom().contains(cell) implies #[trigger] looks_after(
            ops,
            start,
        )[cell] == start[cell] by {
            assert(!touches(ops[ops.len() - 1], cell));
            assert(mid.dom().contains(cell) == start.dom().contains(cell));
            assert(mid[cell] == start[cell]);
        }
    }
}

/// Operations that write into an area leave the look of a role whose cells
/// lie apart from it.
proof fn lemma_role_looks_kept(
    ops: Seq<SinkOpView>,
    start: Map<(int, int), Map<FormatField, FormatValue>>,
    area: Set<(int, int)>,
    apart: Set<(int, int)>,
    role: CellRole,
    day: int,
    flag: DayType,
    season: Season,
)
    requires
        writes_within(ops, area),
        area.disjoint(apart),
        role_looks(start, role, day, flag, season),
        forall|col: int|
            role_cell(role, day).1 <= col <= role_last_col(role) ==> #[trigger] apart.contains(
                (role_cell(role, day).0, col),
            ),
    ensures
        role_looks(looks_after(ops, start), role, day, flag, season),
{
    lemma_looks_outside_kept(ops, start, area);
    let first = role_cell(role, day);
    let look = look_of(role_style(role, flag, season));
    let after = looks_after(ops, start);
    assert(has_look(after, first, look)) by {
        assert(first == (first.0, first.1));
        assert(apart.contains((first.0, first.1)));
        assert(!area.contains(first));
    }
    assert forall|col: int| first.1 < col <= role_last_col(role) implies #[trigger] has_look(
        after,
        (first.0, col),
        look,
    ) by {
        assert(has_look(start, (first.0, col), look));
        assert(apart.contains((first.0, col)));
        assert(!area.contains((first.0, col)));
    }
}

/// Operations that write into part of an area leave every look within the
/// area, if all were.
proof fn lemma_looks_within(
    ops: Seq<SinkOpView>,
    start: Map<(int, int), Map<FormatField, FormatValue>>,
    area: Set<(int, int)>,
    whole: Set<(int, int)>,
)
    requires
        writes_within(ops, area),
        area.subset_of(whole),
        start.dom().subset_of(whole),
    ensures
        looks_after(ops, start).dom().subset_of(whole),
{
    lemma_looks_outside_kept(ops, start, area);
    let after = looks_after(ops, start);
    assert forall|cell: (int, int)| after.dom().contains(cell) implies whole.contains(cell) by {
        if !area.contains(cell) {
            assert(start.dom().contains(cell));
        }
    }
}

/// The three operations of the row of a day give its three cells the look
/// of the kind of day.
proof fn lemma_day_cell_ops_looks(day: Day, start: Map<(int, int), Map<FormatField, FormatValue>>)
    requires
        day.wf(),
    ensures
        day_row_looks(looks_after(day_cell_ops(day), start), day),
{
    let ops = day_cell_ops(day);
    let s0 = Seq::<SinkOpView>::empty();
    let s1 = s0.push(ops[0]);
    let s2 = s1.push(ops[1]);
    let s3 = s2.push(ops[2]);
    lemma_looks_push(s0, ops[0], start);
    lemma_looks_push(s1, ops[1], start);
    lemma_looks_push(s2, ops[2], start);
    assert(ops =~= s3);
}

/// The rows of days with different numbers do not change the looks of one
/// another.
proof fn lemma_all_day_ops_looks(
    days: Seq<Day>,
    low: int,
    high: int,
    start: Map<(int, int), Map<FormatField, FormatValue>>,
)
    requires
        distinct_days(days, low, high),
    ensures
        forall|i: int|
            0 <= i < days.len() ==> day_row_looks(
                looks_after(all_day_ops(days), start),
                #[trigger] days[i],
            ),
    decreases days.len(),
{
    if days.len() > 0 {
        let init = days.drop_last();
        let last = days.last();
        assert(distinct_days(init, low, high)) by {
            assert forall|i: int| 0 <= i < init.len() implies (#[trigger] init[i]).wf() && low
                <= init[i].date().spec_day() <= high by {
                assert(init[i] == days[i]);
            }
            assert forall|i: int, j: int| 0 <= i < j < init.len() implies (
            #[trigger] init[i]).date().spec_day() != (#[trigger] init[j]).date().spec_day() by {
                assert(init[i] == days[i] && init[j] == days[j]);
            }
        }
        lemma_all_day_ops_looks(init, low, high, start);
        let mid = looks_after(all_day_ops(init), start);
        lemma_looks_concat(all_day_ops(init), day_cell_ops(last), start);
        lemma_day_cell_ops_looks(last, mid);
        lemma_day_cell_ops_cells(last, no_cells());
        let row = range_cells(last.date().spec_day() + 2, 0, last.date().spec_day() + 2, 2);
        assert(last == days[days.len() - 1]);
        assert forall|i: int| 0 <= i < days.len() implies day_row_looks(
            looks_after(all_day_ops(days), start),
            #[trigger] days[i],
        ) by {
            if i < days.len() - 1 {
                assert(init[i] == days[i]);
                assert(day_row_looks(mid, days[i]));
                let n = days[i].date().spec_day();
                assert(n != last.date().spec_day());
                let apart = range_cells(n + 2, 0, n + 2, 2);
                let flag = days[i].flag();
                lemma_role_looks_kept(
                    day_cell_ops(last),
                    mid,
                    row,
                    apart,
                    CellRole::DayLabel,
                    n,
                    flag,
                    Season::Winter,
                );
                lemma_role_looks_kept(
                    day_cell_ops(last),
                    mid,
                    row,
                    apart,
                    CellRole::DayHours,
                    n,
                    flag,
                    Season::Winter,
                );
                lemma_role_looks_kept(
                    day_cell_ops(last),
                    mid,
                    row,
                    apart,
                    CellRole::DayBonus,
                    n,
                    flag,
                    Season::Winter,
                );
            }
        }
    }
}

/// The operations of the head give the head its looks.
proof fn lemma_header_ops_looks(
    first_day: Day,
    start: Map<(int, int), Map<FormatField, FormatValue>>,
)
    requires
        first_day.wf(),
    ensures
        head_looks(looks_after(header_ops(first_day), start), first_day),
{
    let ops = header_ops(first_day);
    let s0 = Seq::<SinkOpView>::empty();
    let s1 = s0.push(ops[0]);
    let s2 = s1.push(ops[1]);
    let s3 = s2.push(ops[2]);
    let s4 = s3.push(ops[3]);
    let s5 = s4.push(ops[4]);
    let s6 = s5.push(ops[5]);
    lemma_looks_push(s0, ops[0], start);
    lemma_looks_push(s1, ops[1], start);
    lemma_looks_push(s2, ops[2], start);
    lemma_looks_push(s3, ops[3], start);
    lemma_looks_push(s4, ops[4], start);
    lemma_looks_push(s5, ops[5], start);
    assert(ops =~= s6);
}

/// The operations of the salary give its two cells their looks.
proof fn lemma_salary_ops_looks(
    salary: nat,
    start: Map<(int, int), Map<FormatField, FormatValue>>,
)
    ensures
        salary_looks(looks_after(salary_ops(salary), start)),
{
    let ops = salary_ops(salary);
    let s0 = Seq::<SinkOpView>::empty();
    let s1 = s0.push(ops[0]);
    let s2 = s1.push(ops[1]);
    lemma_looks_push(s0, ops[0], start);
    lemma_looks_push(s1, ops[1], start);
    assert(ops =~= s2);
}

/// The operations of the totals give their cells their looks.
proof fn lemma_total_cells_ops_looks(
    ops: Seq<SinkOpView>,
    work_hours: u32,
    first_day: int,
    last_day: int,
    usual_days_formula: Seq<char>,
    weekend_formula: Seq<char>,
    start: Map<(int, int), Map<FormatField, FormatValue>>,
)
    requires
        ops == total_cells_ops(
            work_hours,
            first_day,
            last_day,
            usual_days_formula,
            weekend_formula,
        ),
    ensures
        totals_look(looks_after(ops, start)),
{
    let s0 = Seq::<SinkOpView>::empty();
    let s1 = s0.push(ops[0]);
    let s2 = s1.push(ops[1]);
    let s3 = s2.push(ops[2]);
    let s4 = s3.push(ops[3]);
    let s5 = s4.push(ops[4]);
    let s6 = s5.push(ops[5]);
    let s7 = s6.push(ops[6]);
    let s8 = s7.push(ops[7]);
    lemma_looks_push(s0, ops[0], start);
    lemma_looks_push(s1, ops[1], start);
    lemma_looks_push(s2, ops[2], start);
    lemma_looks_push(s3, ops[3], start);
    lemma_looks_push(s4, ops[4], start);
    lemma_looks_push(s5, ops[5], start);
    lemma_looks_push(s6, ops[6], start);
    lemma_looks_push(s7, ops[7], start);
    assert(ops =~= s8);
}

/// The operations of the finish give the rule below the day rows its
/// look.
proof fn lemma_polish_ops_looks(
    last_day: int,
    start: Map<(int, int), Map<FormatField, FormatValue>>,
)
    requires
        1 <= last_day <= 31,
    ensures
        role_looks(
            looks_after(polish_ops(last_day), start),
            CellRole::BottomRule,
            last_day,
            DayType::Usual,
            Season::Winter,
        ),
{
    let ops = polish_ops(last_day);
    let s0 = Seq::<SinkOpView>::empty();
    let s1 = s0.push(ops[0]);
    let s2 = s1.push(ops[1]);
    let s3 = s2.push(ops[2]);
    let s4 = s3.push(ops[3]);
    let s5 = s4.push(ops[4]);
    lemma_looks_push(s0, ops[0], start);
    lemma_looks_push(s1, ops[1], start);
    lemma_looks_push(s2, ops[2], start);
    lemma_looks_push(s3, ops[3], start);
    lemma_looks_push(s4, ops[4], start);
    assert(ops =~= s5);
}

/// Operations that write nothing into the rows of the days leave the
/// looks of those rows as they were.
proof fn lemma_day_rows_look_kept(
    ops: Seq<SinkOpView>,
    start: Map<(int, int), Map<FormatField, FormatValue>>,
    area: Set<(int, int)>,
    days: Seq<Day>,
    low: int,
    high: int,
)
    requires
        writes_within(ops, area),
        area.disjoint(range_cells(low + 2, 0, high + 2, 2)),
        forall|i: int|
            0 <= i < days.len() ==> low <= (#[trigger] days[i]).date().spec_day() <= high
                && day_row_looks(start, days[i]),
    ensures
        forall|i: int|
            0 <= i < days.len() ==> day_row_looks(looks_after(ops, start), #[trigger] days[i]),
{
    let rows = range_cells(low + 2, 0, high + 2, 2);
    assert forall|i: int| 0 <= i < days.len() implies day_row_looks(
        looks_after(ops, start),
        #[trigger] days[i],
    ) by {
        let n = days[i].date().spec_day();
        let flag = days[i].flag();
        assert(day_row_looks(start, days[i]));
        lemma_role_looks_kept(ops, start, area, rows, CellRole::DayLabel, n, flag, Season::Winter);
        lemma_role_looks_kept(ops, start, area, rows, CellRole::DayHours, n, flag, Season::Winter);
        lemma_role_looks_kept(ops, start, area, rows, CellRole::DayBonus, n, flag, Season::Winter);
    }
}

/// Operations that write nothing into the cells of a role that depends on
/// no day leave its look as it was.
proof fn lemma_fixed_role_looks_kept(
    ops: Seq<SinkOpView>,
    start: Map<(int, int), Map<FormatField, FormatValue>>,
    area: Set<(int, int)>,
    apart: Set<(int, int)>,
    role: CellRole,
)
    requires
        writes_within(ops, area),
        area.disjoint(apart),
        fixed_role_looks(start, role),
        forall|col: int|
            role_cell(role, 0).1 <= col <= role_last_col(role) ==> #[trigger] apart.contains(
                (role_cell(role, 0).0, col),
            ),
    ensures
        fixed_role_looks(looks_after(ops, start), role),
{
    lemma_role_looks_kept(ops, start, area, apart, role, 0, DayType::Usual, Season::Winter);
}

/// Operations that write nothing into the first three rows of the first
/// three columns leave the looks of the head as they were.
proof fn lemma_head_looks_kept(
    ops: Seq<SinkOpView>,
    start: Map<(int, int), Map<FormatField, FormatValue>>,
    area: Set<(int, int)>,
    first_day: Day,
)
    requires
        writes_within(ops, area),
        head_looks(start, first_day),
        area.disjoint(range_cells(0, 0, 2, 2)),
    ensures
        head_looks(looks_after(ops, start), first_day),
{
    let head = range_cells(0, 0, 2, 2);
    lemma_fixed_role_looks_kept(ops, start, area, head, CellRole::Year);
    lemma_fixed_role_looks_kept(ops, start, area, head, CellRole::AppInfo);
    lemma_fixed_role_looks_kept(ops, start, area, head, CellRole::Header);
    lemma_fixed_role_looks_kept(ops, start, area, head, CellRole::InputHeader);
    lemma_fixed_role_looks_kept(ops, start, area, head, CellRole::BonusHeader);
    lemma_role_looks_kept(
        ops,
        start,
        area,
        head,
        CellRole::MonthBanner,
        0,
        DayType::Usual,
        season_of(first_day.date().spec_month()),
    );
}

/// Operations that write nothing into the cells of the salary leave their
/// looks as they were.
proof fn lemma_salary_looks_kept(
    ops: Seq<SinkOpView>,
    start: Map<(int, int), Map<FormatField, FormatValue>>,
    area: Set<(int, int)>,
)
    requires
        writes_within(ops, area),
        area.disjoint(range_cells(4, 3, 4, 4)),
        salary_looks(start),
    ensures
        salary_looks(looks_after(ops, start)),
{
    let cells = range_cells(4, 3, 4, 4);
    lemma_fixed_role_looks_kept(ops, start, area, cells, CellRole::SalaryLabel);
    lemma_fixed_role_looks_kept(ops, start, area, cells, CellRole::SalaryValue);
}

/// Operations that write nothing into the cells of the totals leave their
/// looks as they were.
proof fn lemma_totals_look_kept(
    ops: Seq<SinkOpView>,
    start: Map<(int, int), Map<FormatField, FormatValue>>,
    area: Set<(int, int)>,
)
    requires
        writes_within(ops, area),
        area.disjoint(range_cells(0, 3, 5, 4)),
        totals_look(start),
    ensures
        totals_look(looks_after(ops, start)),
{
    let cells = range_cells(0, 3, 5, 4);
    lemma_fixed_role_looks_kept(ops, start, area, cells, CellRole::TotalHoursLabel);
    lemma_fixed_role_looks_kept(ops, start, area, cells, CellRole::TotalHoursValue);
    lemma_fixed_role_looks_kept(ops, start, area, cells, CellRole::WeekendHoursLabel);
    lemma_fixed_role_looks_kept(ops, start, area, cells, CellRole::WeekendHoursValue);
    lemma_fixed_role_looks_kept(ops, start, area, cells, CellRole::OverworkLabel);
    lemma_fixed_role_looks_kept(ops, start, area, cells, CellRole::OverworkValue);
    lemma_fixed_role_looks_kept(ops, start, area, cells, CellRole::TotalPaymentLabel);
    lemma_fixed_role_looks_kept(ops, start, area, cells, CellRole::TotalPaymentValue);
}

/// The looks of the cells once the rows of the days are written.
proof fn lemma_looks_after_day_rows(days: Seq<Day>)
    requires
        is_month_run(days),
    ensures
        ({
            let low = days.first().date().spec_day();
            let high = days.last().date().spec_day();
            let looks = looks_after(
                seq![SinkOpView::HideGridlines] + all_day_ops(days),
                no_looks(),
            );
            &&& 1 <= low <= high <= 31
            &&& forall|i: int|
                0 <= i < days.len() ==> low <= (#[trigger] days[i]).date().spec_day() <= high
                    && day_row_looks(looks, days[i])
            &&& looks.dom().subset_of(month_area(low, high))
        }),
{
    lemma_month_run_numbers(days);
    let first = days.first();
    let last = days.last();
    assert(first.wf() && last.wf());
    let low = first.date().spec_day();
    let high = last.date().spec_day();
    assert(high == low + days.len() - 1);
    assert(distinct_days(days, low, high));
    let a = seq![SinkOpView::HideGridlines];
    let b = all_day_ops(days);
    let l0 = no_looks();
    lemma_looks_push(Seq::<SinkOpView>::empty(), SinkOpView::HideGridlines, l0);
    assert(a =~= Seq::<SinkOpView>::empty().push(SinkOpView::HideGridlines));
    assert(looks_after(a, l0) == l0);
    lemma_looks_concat(a, b, l0);
    lemma_all_day_ops_looks(days, low, high, l0);
    lemma_all_day_ops_cells(days, low, high, no_cells());
    lemma_looks_within(b, l0, range_cells(low + 2, 0, high + 2, 2), month_area(low, high));
}

/// The sheet of a month, look by look: the three cells of the row of each
/// day have the look of the kind of day; the head, the salary, the totals
/// and the rule below the last day row have the looks of their roles, the
/// banner that of the season of the month; and no other cell has a look.
/// No operation of the plan changes the look that another has given.
pub proof fn lemma_month_sheet_looks(days: Seq<Day>, salary: nat)
    requires
        is_month_run(days),
    ensures
        month_looks_hold(looks_after(month_sheet_plan(days, salary).ops, no_looks()), days),
{
    let first = days.first();
    let low = first.date().spec_day();
    let high = days.last().date().spec_day();
    assert(first.wf());
    let whole = month_area(low, high);
    let work_hours = (HOURS_PER_DAY * hours_cells(days, true).len()) as u32;
    let a = seq![SinkOpView::HideGridlines];
    let b = all_day_ops(days);
    let c = header_ops(first);
    let d = salary_ops(salary);
    let e = total_cells_ops(
        work_hours,
        low,
        high,
        sum_formula_text(hours_cells(days, true)),
        sum_formula_text(hours_cells(days, false)),
    );
    let f = polish_ops(high);
    assert(month_sheet_plan(days, salary).ops == a + b + c + d + e + f);
    let head_area = range_cells(0, 0, 2, 2);
    let salary_area = range_cells(4, 3, 4, 4);
    let totals_area = range_cells(0, 3, 2, 4).union(range_cells(5, 3, 5, 4));
    let rule_area = range_cells(high + 3, 0, high + 3, 2);
    let l0 = no_looks();
    // The day rows.
    lemma_looks_after_day_rows(days);
    let lb = looks_after(a + b, l0);
    // The head.
    let lc = looks_after(a + b + c, l0);
    assert(lc == looks_after(c, lb)) by {
        lemma_looks_concat(a + b, c, l0);
    }
    lemma_header_ops_cells(first, no_cells());
    lemma_header_ops_looks(first, lb);
    lemma_day_rows_look_kept(c, lb, head_area, days, low, high);
    lemma_looks_within(c, lb, head_area, whole);
    // The salary.
    let ld = looks_after(a + b + c + d, l0);
    assert(ld == looks_after(d, lc)) by {
        lemma_looks_concat(a + b + c, d, l0);
    }
    lemma_salary_ops_cells(salary, no_cells());
    lemma_salary_ops_looks(salary, lc);
    lemma_day_rows_look_kept(d, lc, salary_area, days, low, high);
    lemma_head_looks_kept(d, lc, salary_area, first);
    lemma_looks_within(d, lc, salary_area, whole);
    // The totals.
    let le = looks_after(a + b + c + d + e, l0);
    assert(le == looks_after(e, ld)) by {
        lemma_looks_concat(a + b + c + d, e, l0);
    }
    lemma_total_cells_ops_cells(days, no_cells());
    lemma_total_cells_ops_looks(
        e,
        work_hours,
        low,
        high,
        sum_formula_text(hours_cells(days, true)),
        sum_formula_text(hours_cells(days, false)),
        ld,
    );
    lemma_day_rows_look_kept(e, ld, totals_area, days, low, high);
    lemma_head_looks_kept(e, ld, totals_area, first);
    lemma_salary_looks_kept(e, ld, totals_area);
    lemma_looks_within(e, ld, totals_area, whole);
    // The finish.
    let lf = looks_after(a + b + c + d + e + f, l0);
    assert(lf == looks_after(f, le)) by {
        lemma_looks_concat(a + b + c + d + e, f, l0);
    }
    lemma_polish_ops_cells(high, no_cells());
    lemma_polish_ops_looks(high, le);
    lemma_day_rows_look_kept(f, le, rule_area, days, low, high);
    lemma_head_looks_kept(f, le, rule_area, first);
    lemma_salary_looks_kept(f, le, rule_area);
    lemma_totals_look_kept(f, le, rule_area);
    lemma_looks_within(f, le, rule_area, whole);
}

} // verus!
