use tabel::days::{DayType, Season};
use tabel::layout::CellRole;
use tabel::styles::{
    cell_style, style_for, Alignment, BorderEdges, BorderKind, CellType, DataType, Fill,
    NumberFormat, StyleDescriptor,
};

fn look(border: BorderKind, bold: bool, background: Fill, num_format: NumberFormat) -> StyleDescriptor {
    StyleDescriptor {
        border,
        edges: BorderEdges::All,
        bold,
        background,
        align: Alignment::Center,
        num_format,
    }
}

const ALL_CELL_TYPES: [CellType; 11] = [
    CellType::Usual,
    CellType::Weekend,
    CellType::Earn,
    CellType::Header,
    CellType::TotalBonus,
    CellType::TotalPayment,
    CellType::InputHeader,
    CellType::MonthWinter,
    CellType::MonthSummer,
    CellType::MonthAutumn,
    CellType::MonthSpring,
];

#[test]
fn look_of_each_kind_of_cell() {
    let text = NumberFormat::General;
    let cases = [
        (CellType::Usual, look(BorderKind::Dotted, true, Fill::NoFill, text)),
        (CellType::Weekend, look(BorderKind::Dotted, true, Fill::Rgb(0xF8B9B8), text)),
        (CellType::Earn, look(BorderKind::Dotted, true, Fill::Rgb(0xB2E19E), text)),
        (CellType::Header, look(BorderKind::Medium, false, Fill::Rgb(0xEDCAE9), text)),
        (CellType::TotalBonus, look(BorderKind::Medium, true, Fill::NoFill, text)),
        (CellType::TotalPayment, look(BorderKind::Medium, true, Fill::Rgb(0xB2E19E), text)),
        (CellType::InputHeader, look(BorderKind::Medium, false, Fill::Rgb(0xF0C2A7), text)),
        (CellType::MonthWinter, look(BorderKind::Medium, false, Fill::Rgb(0xC6E8F4), text)),
        (CellType::MonthSpring, look(BorderKind::Medium, false, Fill::Rgb(0xB2E19E), text)),
        (CellType::MonthSummer, look(BorderKind::Medium, false, Fill::Rgb(0xFFE699), text)),
        (CellType::MonthAutumn, look(BorderKind::Medium, false, Fill::Rgb(0xF0C1A7), text)),
    ];
    for (cell_type, expected) in cases {
        assert_eq!(cell_style(DataType::UsualText, cell_type), expected);
    }
}

#[test]
fn money_differs_from_text_in_the_number_format_only() {
    for cell_type in ALL_CELL_TYPES {
        let text = cell_style(DataType::UsualText, cell_type);
        let money = cell_style(DataType::Money, cell_type);
        assert_eq!(text.num_format, NumberFormat::General);
        assert_eq!(money.num_format, NumberFormat::Currency);
        assert_eq!(StyleDescriptor { num_format: NumberFormat::General, ..money }, text);
    }
}

#[test]
fn every_look_is_centred_with_a_border_on_all_edges() {
    for cell_type in ALL_CELL_TYPES {
        for data_type in [DataType::Money, DataType::UsualText] {
            let style = cell_style(data_type, cell_type);
            assert_eq!(style.align, Alignment::Center);
            assert_eq!(style.edges, BorderEdges::All);
            assert_ne!(style.border, BorderKind::NoBorder);
        }
    }
}

#[test]
fn day_rows_take_the_look_of_the_kind_of_day() {
    let cases = [
        (DayType::Usual, CellType::Usual),
        (DayType::Earn, CellType::Earn),
        (DayType::Weekend, CellType::Weekend),
    ];
    for (flag, cell_type) in cases {
        for season in [Season::Winter, Season::Summer] {
            assert_eq!(
                style_for(CellRole::DayLabel, flag, season),
                cell_style(DataType::UsualText, cell_type)
            );
            assert_eq!(
                style_for(CellRole::DayHours, flag, season),
                cell_style(DataType::UsualText, cell_type)
            );
            assert_eq!(
                style_for(CellRole::DayBonus, flag, season),
                cell_style(DataType::Money, cell_type)
            );
        }
    }
}

#[test]
fn banner_takes_the_look_of_the_season() {
    let cases = [
        (Season::Winter, CellType::MonthWinter),
        (Season::Spring, CellType::MonthSpring),
        (Season::Summer, CellType::MonthSummer),
        (Season::Autumn, CellType::MonthAutumn),
    ];
    for (season, cell_type) in cases {
        for flag in [DayType::Usual, DayType::Weekend] {
            assert_eq!(
                style_for(CellRole::MonthBanner, flag, season),
                cell_style(DataType::UsualText, cell_type)
            );
        }
    }
}

#[test]
fn look_of_the_fixed_roles() {
    let flag = DayType::Earn;
    let season = Season::Autumn;
    let header = cell_style(DataType::UsualText, CellType::Header);
    for role in [
        CellRole::Year,
        CellRole::AppInfo,
        CellRole::Header,
        CellRole::BonusHeader,
        CellRole::TotalHoursLabel,
        CellRole::TotalHoursValue,
        CellRole::WeekendHoursLabel,
        CellRole::WeekendHoursValue,
        CellRole::OverworkLabel,
        CellRole::OverworkValue,
    ] {
        assert_eq!(style_for(role, flag, season), header);
    }
    let input = cell_style(DataType::UsualText, CellType::InputHeader);
    assert_eq!(style_for(CellRole::InputHeader, flag, season), input);
    assert_eq!(style_for(CellRole::SalaryLabel, flag, season), input);
    assert_eq!(
        style_for(CellRole::SalaryValue, flag, season),
        cell_style(DataType::Money, CellType::InputHeader)
    );
    assert_eq!(
        style_for(CellRole::TotalPaymentLabel, flag, season),
        cell_style(DataType::UsualText, CellType::TotalPayment)
    );
    assert_eq!(
        style_for(CellRole::TotalPaymentValue, flag, season),
        cell_style(DataType::Money, CellType::TotalPayment)
    );
}

#[test]
fn look_of_the_rule() {
    let rule = style_for(CellRole::BottomRule, DayType::Usual, Season::Winter);
    assert_eq!(
        rule,
        StyleDescriptor {
            border: BorderKind::Medium,
            edges: BorderEdges::Top,
            bold: false,
            background: Fill::NoFill,
            align: Alignment::General,
            num_format: NumberFormat::General,
        }
    );
}
