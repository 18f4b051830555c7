//! Where each cell of a month's sheet stands.
//!
//! Rows and columns are counted from 0. Rows 0 to 2 hold the banners and the
//! headers; the day with number `n` stands on row `2 + n`. Columns 0 to 2
//! hold the day rows, column 3 the labels of the totals block and column 4
//! its values.

use crate::text::{column_name, column_name_string, decimal, decimal_string};
use vstd::prelude::*;
use vstd::string::StringExecFns;

verus! {

pub const COL_DATE: u16 = 0;

pub const COL_OVERWORKED_COUNTER: u16 = 1;

pub const COL_BONUS: u16 = 2;

pub const COL_YEAR: u16 = 0;

pub const COL_SALARY_HEADER: u16 = 3;

pub const COL_SALARY: u16 = 4;

pub const COL_TOTAL_HOURS_HEADER: u16 = 3;

pub const COL_TOTAL_HOURS: u16 = 4;

pub const COL_WEEKEND_HOURS_HEADER: u16 = 3;

pub const COL_WEEKEND_HOURS: u16 = 4;

pub const COL_OVERWORKED_HOURS_HEADER: u16 = 3;

pub const COL_OVERWORKED_HOURS: u16 = 4;

pub const COL_TOTAL_PAYMENT_HEADER: u16 = 3;

pub const COL_TOTAL_PAYMENT: u16 = 4;

pub const ROW_DAYS_HEADER: u32 = 2;

pub const ROW_YEAR: u32 = 0;

pub const ROW_SALARY: u32 = 4;

pub const ROW_TOTAL_HOURS: u32 = 0;

pub const ROW_WEEKEND_HOURS: u32 = 1;

pub const ROW_OVERWORKED_HOURS: u32 = 2;

pub const ROW_TOTAL_PAYMENT: u32 = 5;

/// The day with number `n` stands on row `ROW_DAY_OFFSET + n`.
pub const ROW_DAY_OFFSET: u32 = 2;

pub const COL_INFO_START: u16 = 1;

pub const COL_INFO_END: u16 = 2;

pub const COL_MONTH_START: u16 = 0;

pub const COL_MONTH_END: u16 = 2;

pub const ROW_INFO: u32 = 0;

pub const ROW_MONTH: u32 = 1;

/// What a cell of the sheet is for.
#[derive(Clone, Copy, Debug, PartialEq, Eq, Structural)]
pub enum CellRole {
    /// Day of the month and day of the week, one per day row.
    DayLabel,
    /// The hours worked on a day, filled in by the user.
    DayHours,
    /// The bonus earned on a day.
    DayBonus,
    /// The year.
    Year,
    /// The note beside the year, across two columns.
    AppInfo,
    /// Header of the column of day labels.
    Header,
    /// Header of the column of hours, which the user fills in.
    InputHeader,
    /// Header of the column of bonuses.
    BonusHeader,
    TotalHoursLabel,
    TotalHoursValue,
    WeekendHoursLabel,
    WeekendHoursValue,
    OverworkLabel,
    OverworkValue,
    SalaryLabel,
    SalaryValue,
    TotalPaymentLabel,
    TotalPaymentValue,
    /// The name of the month, across the three columns of the day rows.
    MonthBanner,
    /// The rule below the last day row, across the three columns of the day
    /// rows.
    BottomRule,
}

/// A cell of a sheet, by row and column counted from 0.
#[derive(Clone, Copy, Debug, PartialEq, Eq, Structural)]
pub struct CellCoord {
    pub row: u32,
    pub col: u16,
}

/// The row on which the day with number `day` stands.
pub open spec fn day_row(day: int) -> int {
    ROW_DAY_OFFSET + day
}

/// The first cell of a role, as (row, column). Only the roles of the day
/// rows and the rule below them depend on `day`.
pub open spec fn role_cell(role: CellRole, day: int) -> (int, int) {
    match role {
        CellRole::DayLabel => (day_row(day), COL_DATE as int),
        CellRole::DayHours => (day_row(day), COL_OVERWORKED_COUNTER as int),
        CellRole::DayBonus => (day_row(day), COL_BONUS as int),
        CellRole::Year => (ROW_YEAR as int, COL_YEAR as int),
        CellRole::AppInfo => (ROW_INFO as int, COL_INFO_START as int),
        CellRole::Header => (ROW_DAYS_HEADER as int, COL_DATE as int),
        CellRole::InputHeader => (ROW_DAYS_HEADER as int, COL_OVERWORKED_COUNTER as int),
        CellRole::BonusHeader => (ROW_DAYS_HEADER as int, COL_BONUS as int),
        CellRole::TotalHoursLabel => (ROW_TOTAL_HOURS as int, COL_TOTAL_HOURS_HEADER as int),
        CellRole::TotalHoursValue => (ROW_TOTAL_HOURS as int, COL_TOTAL_HOURS as int),
        CellRole::WeekendHoursLabel => (ROW_WEEKEND_HOURS as int, COL_WEEKEND_HOURS_HEADER as int),
        CellRole::WeekendHoursValue => (ROW_WEEKEND_HOURS as int, COL_WEEKEND_HOURS as int),
        CellRole::OverworkLabel => (
            ROW_OVERWORKED_HOURS as int,
            COL_OVERWORKED_HOURS_HEADER as int,
        ),
        CellRole::OverworkValue => (ROW_OVERWORKED_HOURS as int, COL_OVERWORKED_HOURS as int),
        CellRole::SalaryLabel => (ROW_SALARY as int, COL_SALARY_HEADER as int),
        CellRole::SalaryValue => (ROW_SALARY as int, COL_SALARY as int),
        CellRole::TotalPaymentLabel => (ROW_TOTAL_PAYMENT as int, COL_TOTAL_PAYMENT_HEADER as int),
        CellRole::TotalPaymentValue => (ROW_TOTAL_PAYMENT as int, COL_TOTAL_PAYMENT as int),
        CellRole::MonthBanner => (ROW_MONTH as int, COL_MONTH_START as int),
        CellRole::BottomRule => (day_row(day) + 1, COL_MONTH_START as int),
    }
}

/// The last column of a role: its own column, but for the three roles that
/// span several.
pub open spec fn role_last_col(role: CellRole) -> int {
    match role {
        CellRole::AppInfo => COL_INFO_END as int,
        CellRole::MonthBanner => COL_MONTH_END as int,
        CellRole::BottomRule => COL_MONTH_END as int,
        _ => role_cell(role, 0).1,
    }
}

/// The first cell of a role. Only the roles of the day rows and the rule
/// below them depend on `day`.
pub fn cell_of(role: CellRole, day: u8) -> (cell: CellCoord)
    ensures
        (cell.row as int, cell.col as int) == role_cell(role, day as int),
{
    let row: u32 = ROW_DAY_OFFSET + day as u32;
    match role {
        CellRole::DayLabel => CellCoord { row, col: COL_DATE },
        CellRole::DayHours => CellCoord { row, col: COL_OVERWORKED_COUNTER },
        CellRole::DayBonus => CellCoord { row, col: COL_BONUS },
        CellRole::Year => CellCoord { row: ROW_YEAR, col: COL_YEAR },
        CellRole::AppInfo => CellCoord { row: ROW_INFO, col: COL_INFO_START },
        CellRole::Header => CellCoord { row: ROW_DAYS_HEADER, col: COL_DATE },
        CellRole::InputHeader => CellCoord { row: ROW_DAYS_HEADER, col: COL_OVERWORKED_COUNTER },
        CellRole::BonusHeader => CellCoord { row: ROW_DAYS_HEADER, col: COL_BONUS },
        CellRole::TotalHoursLabel => CellCoord {
            row: ROW_TOTAL_HOURS,
            col: COL_TOTAL_HOURS_HEADER,
        },
        CellRole::TotalHoursValue => CellCoord { row: ROW_TOTAL_HOURS, col: COL_TOTAL_HOURS },
        CellRole::WeekendHoursLabel => CellCoord {
            row: ROW_WEEKEND_HOURS,
            col: COL_WEEKEND_HOURS_HEADER,
        },
        CellRole::WeekendHoursValue => CellCoord { row: ROW_WEEKEND_HOURS, col: COL_WEEKEND_HOURS },
        CellRole::OverworkLabel => CellCoord {
            row: ROW_OVERWORKED_HOURS,
            col: COL_OVERWORKED_HOURS_HEADER,
        },
        CellRole::OverworkValue => CellCoord {
            row: ROW_OVERWORKED_HOURS,
            col: COL_OVERWORKED_HOURS,
        },
        CellRole::SalaryLabel => CellCoord { row: ROW_SALARY, col: COL_SALARY_HEADER },
        CellRole::SalaryValue => CellCoord { row: ROW_SALARY, col: COL_SALARY },
        CellRole::TotalPaymentLabel => CellCoord {
            row: ROW_TOTAL_PAYMENT,
            col: COL_TOTAL_PAYMENT_HEADER,
        },
        CellRole::TotalPaymentValue => CellCoord { row: ROW_TOTAL_PAYMENT, col: COL_TOTAL_PAYMENT },
        CellRole::MonthBanner => CellCoord { row: ROW_MONTH, col: COL_MONTH_START },
        CellRole::BottomRule => CellCoord { row: row + 1, col: COL_MONTH_START },
    }
}

/// The last column of a role.
pub fn last_col_of(role: CellRole) -> (col: u16)
    ensures
        col == role_last_col(role),
{
    match role {
        CellRole::AppInfo => COL_INFO_END,
        CellRole::MonthBanner => COL_MONTH_END,
        CellRole::BottomRule => COL_MONTH_END,
        _ => cell_of(role, 0).col,
    }
}

/// The name by which a formula refers to a cell: the name of its column,
/// then its row counted from 1.
pub open spec fn cell_name(row: int, col: int) -> Seq<char> {
    column_name(col as nat) + decimal((row + 1) as nat)
}

/// Writes the name by which a formula refers to a cell.
pub fn cell_name_string(cell: CellCoord) -> (name: String)
    ensures
        name@ == cell_name(cell.row as int, cell.col as int),
{
    let mut name = column_name_string(cell.col);
    let row = decimal_string(cell.row as u64 + 1);
    name.append(row.as_str());
    name
}

} // verus!
