//! How each kind of cell looks.

use crate::days::{DayType, Season};
use crate::layout::CellRole;
use vstd::prelude::*;

verus! {

pub const BG_WEEKEND: u32 = 0xF8B9B8;

pub const BG_EARN: u32 = 0xB2E19E;

pub const BG_HEADER: u32 = 0xEDCAE9;

pub const BG_TOTAL_PAYMENT: u32 = 0xB2E19E;

pub const BG_INPUT_HEADER: u32 = 0xF0C2A7;

pub const BG_MONTH_WINTER: u32 = 0xC6E8F4;

pub const BG_MONTH_SPRING: u32 = 0xB2E19E;

pub const BG_MONTH_SUMMER: u32 = 0xFFE699;

pub const BG_MONTH_AUTUMN: u32 = 0xF0C1A7;

/// What kind of value a cell holds.
#[derive(Clone, Copy, Debug, PartialEq, Eq, Structural)]
pub enum DataType {
    /// An amount of money: shown with two decimal places and the currency.
    Money,
    /// Anything else: shown as it is.
    UsualText,
}

/// The kinds of cell that look alike.
#[derive(Clone, Copy, Debug, PartialEq, Eq, Structural)]
pub enum CellType {
    /// A usual day: dotted border, bold, no background.
    Usual,
    /// A weekend day: dotted border, bold, red background.
    Weekend,
    /// A day that draws a bonus: dotted border, bold, green background.
    Earn,
    /// A header: medium border, pink background.
    Header,
    /// A total bonus: medium border, bold, no background.
    TotalBonus,
    /// The total payment: medium border, bold, green background.
    TotalPayment,
    /// A header of something the user fills in: medium border, orange
    /// background.
    InputHeader,
    /// The banner of a winter month: medium border, blue background.
    MonthWinter,
    /// The banner of a summer month: medium border, yellow background.
    MonthSummer,
    /// The banner of an autumn month: medium border, orange background.
    MonthAutumn,
    /// The banner of a spring month: medium border, green background.
    MonthSpring,
}

/// The line of a border.
#[derive(Clone, Copy, Debug, PartialEq, Eq, Structural)]
pub enum BorderKind {
    NoBorder,
    Dotted,
    Medium,
}

/// The edges of a cell on which its border is drawn.
#[derive(Clone, Copy, Debug, PartialEq, Eq, Structural)]
pub enum BorderEdges {
    /// All four edges.
    All,
    /// The top edge only.
    Top,
}

/// The colour behind a cell's content.
#[derive(Clone, Copy, Debug, PartialEq, Eq, Structural)]
pub enum Fill {
    NoFill,
    /// A colour as red, green and blue, eight bits each.
    Rgb(u32),
}

/// Where a cell's content stands between its left and right edge.
#[derive(Clone, Copy, Debug, PartialEq, Eq, Structural)]
pub enum Alignment {
    General,
    Center,
}

/// How a number in a cell is shown.
#[derive(Clone, Copy, Debug, PartialEq, Eq, Structural)]
pub enum NumberFormat {
    General,
    /// Two decimal places, thousands separated, followed by the currency.
    Currency,
}

/// The look of a cell.
#[derive(Clone, Copy, Debug, PartialEq, Eq, Structural)]
pub struct StyleDescriptor {
    pub border: BorderKind,
    pub edges: BorderEdges,
    pub bold: bool,
    pub background: Fill,
    pub align: Alignment,
    pub num_format: NumberFormat,
}

/// The border that a kind of cell has on all four edges.
pub open spec fn border_of(cell_type: CellType) -> BorderKind {
    match cell_type {
        CellType::Usual | CellType::Weekend | CellType::Earn => BorderKind::Dotted,
        _ => BorderKind::Medium,
    }
}

/// Whether a kind of cell is written in bold.
pub open spec fn bold_of(cell_type: CellType) -> bool {
    match cell_type {
        CellType::Usual
        | CellType::Weekend
        | CellType::Earn
        | CellType::TotalBonus
        | CellType::TotalPayment => true,
        _ => false,
    }
}

/// The background of a kind of cell.
pub open spec fn background_of(cell_type: CellType) -> Fill {
    match cell_type {
        CellType::Usual => Fill::NoFill,
        CellType::Weekend => Fill::Rgb(BG_WEEKEND),
        CellType::Earn => Fill::Rgb(BG_EARN),
        CellType::Header => Fill::Rgb(BG_HEADER),
        CellType::TotalBonus => Fill::NoFill,
        CellType::TotalPayment => Fill::Rgb(BG_TOTAL_PAYMENT),
        CellType::InputHeader => Fill::Rgb(BG_INPUT_HEADER),
        CellType::MonthWinter => Fill::Rgb(BG_MONTH_WINTER),
        CellType::MonthSpring => Fill::Rgb(BG_MONTH_SPRING),
        CellType::MonthSummer => Fill::Rgb(BG_MONTH_SUMMER),
        CellType::MonthAutumn => Fill::Rgb(BG_MONTH_AUTUMN),
    }
}

/// The look of a cell of the given kind that holds a value of the given
/// kind: border, weight and background come from the kind of cell, the
/// number format from the kind of value, and the content is always centred.
pub open spec fn style_of(data_type: DataType, cell_type: CellType) -> StyleDescriptor {
    StyleDescriptor {
        border: border_of(cell_type),
        edges: BorderEdges::All,
        bold: bold_of(cell_type),
        background: background_of(cell_type),
        align: Alignment::Center,
        num_format: match data_type {
            DataType::Money => NumberFormat::Currency,
            DataType::UsualText => NumberFormat::General,
        },
    }
}

/// The look of the rule below the day rows: a medium line on top and
/// nothing else.
pub open spec fn rule_style() -> StyleDescriptor {
    StyleDescriptor {
        border: BorderKind::Medium,
        edges: BorderEdges::Top,
        bold: false,
        background: Fill::NoFill,
        align: Alignment::General,
        num_format: NumberFormat::General,
    }
}

/// The kind of cell for a day of the given kind.
pub open spec fn day_cell_type(flag: DayType) -> CellType {
    match flag {
        DayType::Usual => CellType::Usual,
        DayType::Earn => CellType::Earn,
        DayType::Weekend => CellType::Weekend,
    }
}

/// The kind of cell for the banner of a month of the given season.
pub open spec fn season_cell_type(season: Season) -> CellType {
    match season {
        Season::Winter => CellType::MonthWinter,
        Season::Spring => CellType::MonthSpring,
        Season::Summer => CellType::MonthSummer,
        Season::Autumn => CellType::MonthAutumn,
    }
}

/// The kind of cell that a role is shown as. The cells of a day row follow
/// the kind of the day, the banner of the month its season; `flag` and
/// `season` matter to no other role.
pub open spec fn role_class(role: CellRole, flag: DayType, season: Season) -> CellType {
    match role {
        CellRole::DayLabel | CellRole::DayHours | CellRole::DayBonus => day_cell_type(flag),
        CellRole::InputHeader
        | CellRole::SalaryLabel
        | CellRole::SalaryValue => CellType::InputHeader,
        CellRole::TotalPaymentLabel | CellRole::TotalPaymentValue => CellType::TotalPayment,
        CellRole::MonthBanner => season_cell_type(season),
        _ => CellType::Header,
    }
}

/// The kind of value that a role holds: money in the bonus of a day, the
/// salary and the total payment.
pub open spec fn role_data_type(role: CellRole) -> DataType {
    match role {
        CellRole::DayBonus | CellRole::SalaryValue | CellRole::TotalPaymentValue => DataType::Money,
        _ => DataType::UsualText,
    }
}

/// The look of the cell of a role.
pub open spec fn role_style(role: CellRole, flag: DayType, season: Season) -> StyleDescriptor {
    if role == CellRole::BottomRule {
        rule_style()
    } else {
        style_of(role_data_type(role), role_class(role, flag, season))
    }
}

/// The look of a cell of the given kind that holds a value of the given
/// kind.
pub fn cell_style(data_type: DataType, cell_type: CellType) -> (style: StyleDescriptor)
    ensures
        style == style_of(data_type, cell_type),
        style.align == Alignment::Center,
        style.num_format == NumberFormat::Currency <==> data_type == DataType::Money,
{
    let border = match cell_type {
        CellType::Usual | CellType::Weekend | CellType::Earn => BorderKind::Dotted,
        _ => BorderKind::Medium,
    };
    let bold = match cell_type {
        CellType::Usual
        | CellType::Weekend
        | CellType::Earn
        | CellType::TotalBonus
        | CellType::TotalPayment => true,
        _ => false,
    };
    let background = match cell_type {
        CellType::Usual => Fill::NoFill,
        CellType::Weekend => Fill::Rgb(BG_WEEKEND),
        CellType::Earn => Fill::Rgb(BG_EARN),
        CellType::Header => Fill::Rgb(BG_HEADER),
        CellType::TotalBonus => Fill::NoFill,
        CellType::TotalPayment => Fill::Rgb(BG_TOTAL_PAYMENT),
        CellType::InputHeader => Fill::Rgb(BG_INPUT_HEADER),
        CellType::MonthWinter => Fill::Rgb(BG_MONTH_WINTER),
        CellType::MonthSpring => Fill::Rgb(BG_MONTH_SPRING),
        CellType::MonthSummer => Fill::Rgb(BG_MONTH_SUMMER),
        CellType::MonthAutumn => Fill::Rgb(BG_MONTH_AUTUMN),
    };
    let num_format = match data_type {
        DataType::Money => NumberFormat::Currency,
        DataType::UsualText => NumberFormat::General,
    };
    StyleDescriptor {
        border,
        edges: BorderEdges::All,
        bold,
        background,
        align: Alignment::Center,
        num_format,
    }
}

/// The look of the cell of a role. `flag` matters only to the cells of a
/// day row, `season` only to the banner of the month.
pub fn style_for(role: CellRole, flag: DayType, season: Season) -> (style: StyleDescriptor)
    ensures
        style == role_style(role, flag, season),
{
    let cell_type = match role {
        CellRole::BottomRule => {
            return StyleDescriptor {
                border: BorderKind::Medium,
                edges: BorderEdges::Top,
                bold: false,
                background: Fill::NoFill,
                align: Alignment::General,
                num_format: NumberFormat::General,
            };
        },
        CellRole::DayLabel | CellRole::DayHours | CellRole::DayBonus => match flag {
            DayType::Usual => CellType::Usual,
            DayType::Earn => CellType::Earn,
            DayType::Weekend => CellType::Weekend,
        },
        CellRole::InputHeader
        | CellRole::SalaryLabel
        | CellRole::SalaryValue => CellType::InputHeader,
        CellRole::TotalPaymentLabel | CellRole::TotalPaymentValue => CellType::TotalPayment,
        CellRole::MonthBanner => match season {
            Season::Winter => CellType::MonthWinter,
            Season::Spring => CellType::MonthSpring,
            Season::Summer => CellType::MonthSummer,
            Season::Autumn => CellType::MonthAutumn,
        },
        _ => CellType::Header,
    };
    let data_type = match role {
        CellRole::DayBonus | CellRole::SalaryValue | CellRole::TotalPaymentValue => DataType::Money,
        _ => DataType::UsualText,
    };
    cell_style(data_type, cell_type)
}

} // verus!
