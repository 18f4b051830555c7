//! The document sink: `rust_xlsxwriter`.
//!
//! The engine hands the sink plans; the sink makes sheets of them. What the
//! library relies on of the sink is stated here, on the functions that call
//! it: which calls it accepts, and what a sheet then holds. A sheet is seen
//! as its name, the content of its cells, its merged cells, the widths set
//! for its columns, whether its grid is hidden, and the look of each cell.
//! A look is handed to the sink as a format, which is seen as the values
//! of the properties that the library sets.

use crate::plan::{SheetPlan, SheetPlanView, SinkOp, SinkOpView};
use crate::styles::{Alignment, BorderEdges, BorderKind, Fill, NumberFormat, StyleDescriptor};
use rust_xlsxwriter::{Format, FormatBorder, Workbook, Worksheet, XlsxError};
use vstd::prelude::*;

verus! {

/// Declares `rust_xlsxwriter::Worksheet`, a sheet of the sink.
#[verifier::external_type_specification]
#[verifier::external_body]
pub struct ExWorksheet(Worksheet);

/// Declares `rust_xlsxwriter::Workbook`, a document of the sink.
#[verifier::external_type_specification]
#[verifier::external_body]
pub struct ExWorkbook(Workbook);

/// Declares `rust_xlsxwriter::Format`, the look of a cell as the sink
/// takes it.
#[verifier::external_type_specification]
#[verifier::external_body]
pub struct ExFormat(Format);

/// Declares `rust_xlsxwriter::XlsxError`, the error of the sink.
#[verifier::external_type_specification]
#[verifier::external_body]
pub struct ExXlsxError(XlsxError);

/// A sheet has rows 0 to `ROW_MAX - 1`.
pub const ROW_MAX: u32 = 1_048_576;

/// A sheet has columns 0 to `COL_MAX - 1`.
pub const COL_MAX: u16 = 16_384;

/// The greatest number of characters of a text in a cell.
pub const MAX_STRING_LEN: usize = 32_767;

/// The greatest number of characters of the name of a sheet.
pub const MAX_NAME_LEN: usize = 31;

/// The greatest width of a column, in pixels; a greater width is cut down
/// to it.
pub const MAX_COL_WIDTH: u32 = 1_790;

/// The number format of an amount of money.
pub const FORMAT_MONEY: &'static str = "#,##0.00\" ₽\"";

/// A property of a format that the library sets.
pub enum FormatField {
    BorderTop,
    BorderBottom,
    BorderLeft,
    BorderRight,
    Bold,
    Background,
    Align,
    NumFormat,
}

/// The value of a property of a format.
pub enum FormatValue {
    Border(BorderKind),
    Flag(bool),
    Fill(Fill),
    Align(Alignment),
    Text(Seq<char>),
}

/// What a cell of a sheet holds.
pub enum CellContent {
    /// Nothing but its look.
    Blank,
    Text(Seq<char>),
    Number(u32),
    Formula(Seq<char>),
}

/// A sheet as the engine sees it.
pub struct SheetView {
    /// The name of the sheet; empty until one is set.
    pub name: Seq<char>,
    /// What the cells hold, by (row, column); a cell that was never written
    /// is not in the map.
    pub cells: Map<(int, int), CellContent>,
    /// The cells, as (row, column), that lie in a merged range.
    pub merged: Set<(int, int)>,
    /// The look of each cell that holds anything, as what its format
    /// holds.
    pub looks: Map<(int, int), Map<FormatField, FormatValue>>,
    /// The widths, in pixels, kept for the columns that have one of their
    /// own.
    pub widths: Map<int, int>,
    /// Whether the grid between the cells is hidden on the screen.
    pub grid_hidden: bool,
    /// Whether the sheet is whole: see [`sheet_whole`].
    pub whole: bool,
}

/// The name of a sheet; empty until one is set.
pub uninterp spec fn sheet_name(sheet: Worksheet) -> Seq<char>;

/// What the cells of a sheet hold, by (row, column); a cell that was never
/// written is not in the map.
pub uninterp spec fn sheet_cells(sheet: Worksheet) -> Map<(int, int), CellContent>;

/// The cells of a sheet, as (row, column), that lie in a merged range.
pub uninterp spec fn sheet_merged(sheet: Worksheet) -> Set<(int, int)>;

/// The widths, in pixels, kept for the columns of a sheet that have one of
/// their own.
pub uninterp spec fn sheet_widths(sheet: Worksheet) -> Map<int, int>;

/// Whether the grid between the cells of a sheet is hidden on the screen.
pub uninterp spec fn sheet_grid_hidden(sheet: Worksheet) -> bool;

/// The look of each cell of a sheet that holds anything: what the format
/// kept for the cell holds.
pub uninterp spec fn sheet_looks(sheet: Worksheet) -> Map<(int, int), Map<FormatField, FormatValue>>;

/// Whether a sheet is whole: each of its merged cells belongs to a merged
/// range that the sheet keeps, and no row or column has a format of its
/// own. A new sheet is whole, and a whole sheet stays so under every call
/// that the sink accepts. A merge that the sink refuses may leave a sheet
/// that is not.
pub uninterp spec fn sheet_whole(sheet: Worksheet) -> bool;

/// The sheets of a workbook, in their order.
pub uninterp spec fn book_sheets(book: Workbook) -> Seq<SheetView>;

/// The names of the sheets that a workbook file lists, in their order.
pub uninterp spec fn file_sheet_names(bytes: Seq<u8>) -> Seq<Seq<char>>;

/// What a format holds: the value of each property that the library sets.
pub uninterp spec fn format_look(format: Format) -> Map<FormatField, FormatValue>;

/// The formula that the sink keeps for a formula given as text: the text
/// without the `=` in front, with the names of newer functions written as
/// the file format wants them.
pub uninterp spec fn formula_text(formula: Seq<char>) -> Seq<char>;

/// A sheet as the engine sees it.
pub open spec fn sheet_view(sheet: Worksheet) -> SheetView {
    SheetView {
        name: sheet_name(sheet),
        cells: sheet_cells(sheet),
        merged: sheet_merged(sheet),
        looks: sheet_looks(sheet),
        widths: sheet_widths(sheet),
        grid_hidden: sheet_grid_hidden(sheet),
        whole: sheet_whole(sheet),
    }
}

/// The names of the given sheets, in their order.
pub open spec fn names_of(sheets: Seq<SheetView>) -> Seq<Seq<char>> {
    sheets.map_values(|sheet: SheetView| sheet.name)
}

/// The cells of a sheet on which nothing was written.
pub open spec fn no_cells() -> Map<(int, int), CellContent> {
    Map::empty()
}

/// The looks of the cells of a sheet on which nothing was written.
pub open spec fn no_looks() -> Map<(int, int), Map<FormatField, FormatValue>> {
    Map::empty()
}

/// The widths of the columns of a sheet on which none was set.
pub open spec fn no_widths() -> Map<int, int> {
    Map::empty()
}

/// What a cell holds once a text is written into it: the text, or nothing
/// if the text is empty.
pub open spec fn text_cell(text: Seq<char>) -> CellContent {
    if text.len() == 0 {
        CellContent::Blank
    } else {
        CellContent::Text(text)
    }
}

/// Whether a cell lies on the sheet.
pub open spec fn in_sheet(row: int, col: int) -> bool {
    0 <= row < ROW_MAX && 0 <= col < COL_MAX
}

/// Whether a text may be written into a cell.
pub open spec fn text_fits(row: int, col: int, text: Seq<char>) -> bool {
    in_sheet(row, col) && text.len() <= MAX_STRING_LEN
}

/// Whether a character may not stand in the name of a sheet.
pub open spec fn forbidden_in_name(c: char) -> bool {
    c == '*' || c == '?' || c == ':' || c == '[' || c == ']' || c == '\\' || c == '/'
}

/// Whether a sheet may have this name: 1 to 31 characters, none of them
/// forbidden, and no apostrophe at either end.
pub open spec fn valid_sheet_name(name: Seq<char>) -> bool {
    &&& 1 <= name.len() <= MAX_NAME_LEN
    &&& forall|i: int| 0 <= i < name.len() ==> !forbidden_in_name(#[trigger] name[i])
    &&& name.first() != '\''
    &&& name.last() != '\''
}

/// The cells from (`first_row`, `first_col`) to (`last_row`, `last_col`).
pub open spec fn range_cells(first_row: int, first_col: int, last_row: int, last_col: int) -> Set<
    (int, int),
> {
    Set::new(|cell: (int, int)| first_row <= cell.0 <= last_row && first_col <= cell.1 <= last_col)
}

/// Whether a range may be merged on a sheet whose merged cells are
/// `merged`, with `text` written into it: both corners lie on the sheet,
/// the first is not after the last, the range has more than one cell, the
/// text is not too long, and no cell of the range is merged already.
pub open spec fn merge_fits(
    merged: Set<(int, int)>,
    first_row: int,
    first_col: int,
    last_row: int,
    last_col: int,
    text: Seq<char>,
) -> bool {
    &&& in_sheet(first_row, first_col)
    &&& in_sheet(last_row, last_col)
    &&& first_row <= last_row
    &&& first_col <= last_col
    &&& !(first_row == last_row && first_col == last_col)
    &&& text.len() <= MAX_STRING_LEN
    &&& range_cells(first_row, first_col, last_row, last_col).disjoint(merged)
}

/// What the cells of a sheet hold once a range is merged with `text`
/// written into it: the first cell of the range holds the text, its other
/// cells nothing, and all other cells what they held.
pub open spec fn cells_after_merge(
    cells: Map<(int, int), CellContent>,
    first_row: int,
    first_col: int,
    last_row: int,
    last_col: int,
    text: Seq<char>,
) -> Map<(int, int), CellContent> {
    let range = range_cells(first_row, first_col, last_row, last_col);
    Map::new(
        |cell: (int, int)| cells.dom().contains(cell) || range.contains(cell),
        |cell: (int, int)|
            if cell == (first_row, first_col) {
                text_cell(text)
            } else if range.contains(cell) {
                CellContent::Blank
            } else {
                cells[cell]
            },
    )
}

/// The looks of the cells of a sheet once a range is merged: every cell of
/// the range has the look given, and all other cells the look they had.
pub open spec fn looks_after_merge(
    looks: Map<(int, int), Map<FormatField, FormatValue>>,
    first_row: int,
    first_col: int,
    last_row: int,
    last_col: int,
    look: Map<FormatField, FormatValue>,
) -> Map<(int, int), Map<FormatField, FormatValue>> {
    let range = range_cells(first_row, first_col, last_row, last_col);
    Map::new(
        |cell: (int, int)| looks.dom().contains(cell) || range.contains(cell),
        |cell: (int, int)|
            if range.contains(cell) {
                look
            } else {
                looks[cell]
            },
    )
}

/// The width that a column gets when the given width is set: the width,
/// cut down to the greatest there is.
pub open spec fn width_set(pixels: int) -> int {
    if pixels > MAX_COL_WIDTH {
        MAX_COL_WIDTH as int
    } else {
        pixels
    }
}

/// Whether the widths `after` are those that follow from the widths
/// `before` when the width of a column is set: all other columns have the
/// width they had, and the column has the width set. A width of 0 hides
/// the column, and nothing is said of its width.
pub open spec fn widths_follow(
    before: Map<int, int>,
    after: Map<int, int>,
    col: int,
    pixels: int,
) -> bool {
    &&& after.remove(col) == before.remove(col)
    &&& pixels > 0 ==> after.dom().contains(col) && after[col] == width_set(pixels)
}

/// Calls `Worksheet::new`.
///
/// Trusted: a new sheet has no name, no cell that holds anything or has a
/// look, no merged cell and no column with a width of its own; its grid is
/// shown; and it is whole.
#[verifier::external_body]
fn sheet_new() -> (sheet: Worksheet)
    ensures
        sheet_name(sheet) == Seq::<char>::empty(),
        sheet_cells(sheet) == no_cells(),
        sheet_merged(sheet) == Set::<(int, int)>::empty(),
        sheet_looks(sheet) == no_looks(),
        sheet_widths(sheet) == no_widths(),
        !sheet_grid_hidden(sheet),
        sheet_whole(sheet),
{
    Worksheet::new()
}

/// Calls `Worksheet::set_name`.
///
/// Trusted: the name is refused exactly when it is not a valid name for a
/// sheet. Once accepted it is the name of the sheet, and nothing else
/// changes.
#[verifier::external_body]
fn sheet_set_name(sheet: &mut Worksheet, name: &str) -> (done: Result<(), XlsxError>)
    ensures
        done is Ok <==> valid_sheet_name(name@),
        done is Ok ==> sheet_view(*final(sheet)) == (SheetView {
            name: name@,
            ..sheet_view(*old(sheet))
        }),
{
    sheet.set_name(name)?;
    Ok(())
}

/// Calls `Worksheet::set_screen_gridlines`.
///
/// Trusted: the grid is shown or hidden as asked, and nothing else
/// changes.
#[verifier::external_body]
fn sheet_set_screen_gridlines(sheet: &mut Worksheet, shown: bool)
    ensures
        sheet_view(*final(sheet)) == (SheetView { grid_hidden: !shown, ..sheet_view(*old(sheet)) }),
{
    sheet.set_screen_gridlines(shown);
}

/// Calls `Worksheet::write_string_with_format`.
///
/// Trusted: the text is refused exactly when the cell does not lie on the
/// sheet or the text has more than `MAX_STRING_LEN` characters. Once
/// accepted, the cell holds the text, or nothing if the text is empty; it
/// has the look that the format holds; and nothing else changes. The sheet
/// is to be whole: on a sheet whose rows and columns have formats, an empty
/// text with a format on which nothing is set would take theirs.
#[verifier::external_body]
fn sheet_write_string(
    sheet: &mut Worksheet,
    row: u32,
    col: u16,
    text: &str,
    format: &Format,
) -> (done: Result<(), XlsxError>)
    requires
        sheet_whole(*old(sheet)),
    ensures
        done is Ok <==> text_fits(row as int, col as int, text@),
        done is Ok ==> sheet_view(*final(sheet)) == (SheetView {
            cells: sheet_cells(*old(sheet)).insert((row as int, col as int), text_cell(text@)),
            looks: sheet_looks(*old(sheet)).insert((row as int, col as int), format_look(*format)),
            ..sheet_view(*old(sheet))
        }),
{
    sheet.write_string_with_format(row, col, text, format)?;
    Ok(())
}

/// Calls `Worksheet::write_number_with_format`.
///
/// Trusted: the number is refused exactly when the cell does not lie on
/// the sheet. Once accepted, the cell holds the number; it has the look
/// that the format holds; and nothing else changes.
#[verifier::external_body]
fn sheet_write_number(
    sheet: &mut Worksheet,
    row: u32,
    col: u16,
    number: u32,
    format: &Format,
) -> (done: Result<(), XlsxError>)
    ensures
        done is Ok <==> in_sheet(row as int, col as int),
        done is Ok ==> sheet_view(*final(sheet)) == (SheetView {
            cells: sheet_cells(*old(sheet)).insert(
                (row as int, col as int),
                CellContent::Number(number),
            ),
            looks: sheet_looks(*old(sheet)).insert((row as int, col as int), format_look(*format)),
            ..sheet_view(*old(sheet))
        }),
{
    sheet.write_number_with_format(row, col, number, format)?;
    Ok(())
}

/// Calls `Worksheet::write_formula_with_format`.
///
/// Trusted: the formula is refused exactly when the cell does not lie on
/// the sheet. Once accepted, the cell holds the formula that
/// [`formula_text`] names; it has the look that the format holds; and
/// nothing else changes.
#[verifier::external_body]
fn sheet_write_formula(
    sheet: &mut Worksheet,
    row: u32,
    col: u16,
    formula: &str,
    format: &Format,
) -> (done: Result<(), XlsxError>)
    ensures
        done is Ok <==> in_sheet(row as int, col as int),
        done is Ok ==> sheet_view(*final(sheet)) == (SheetView {
            cells: sheet_cells(*old(sheet)).insert(
                (row as int, col as int),
                CellContent::Formula(formula_text(formula@)),
            ),
            looks: sheet_looks(*old(sheet)).insert((row as int, col as int), format_look(*format)),
            ..sheet_view(*old(sheet))
        }),
{
    sheet.write_formula_with_format(row, col, formula, format)?;
    Ok(())
}

/// Calls `Worksheet::merge_range`.
///
/// Trusted: on a sheet that is whole, the range is refused exactly when it
/// does not fit, as [`merge_fits`] says. Once accepted, its cells are
/// merged cells of the sheet beside those that were; its first cell holds
/// the text, or nothing if the text is empty, its other cells nothing; all
/// its cells have the look that the format holds; and nothing else
/// changes, so the sheet is whole again. Nothing is said of the sheet after
/// a refusal: it may not be whole, and on a sheet that is not whole the
/// sink may not return from a merge.
#[verifier::external_body]
fn sheet_merge_range(
    sheet: &mut Worksheet,
    first_row: u32,
    first_col: u16,
    last_row: u32,
    last_col: u16,
    text: &str,
    format: &Format,
) -> (done: Result<(), XlsxError>)
    requires
        sheet_whole(*old(sheet)),
    ensures
        done is Ok <==> merge_fits(
            sheet_merged(*old(sheet)),
            first_row as int,
            first_col as int,
            last_row as int,
            last_col as int,
            text@,
        ),
        done is Ok ==> sheet_view(*final(sheet)) == (SheetView {
            cells: cells_after_merge(
                sheet_cells(*old(sheet)),
                first_row as int,
                first_col as int,
                last_row as int,
                last_col as int,
                text@,
            ),
            merged: sheet_merged(*old(sheet)).union(
                range_cells(first_row as int, first_col as int, last_row as int, last_col as int),
            ),
            looks: looks_after_merge(
                sheet_looks(*old(sheet)),
                first_row as int,
                first_col as int,
                last_row as int,
                last_col as int,
                format_look(*format),
            ),
            ..sheet_view(*old(sheet))
        }),
{
    sheet.merge_range(first_row, first_col, last_row, last_col, text, format)?;
    Ok(())
}

/// Calls `Worksheet::autofit`.
///
/// Trusted: nothing but the widths of the columns changes.
#[verifier::external_body]
fn sheet_autofit(sheet: &mut Worksheet)
    ensures
        sheet_view(*final(sheet)) == (SheetView {
            widths: sheet_widths(*final(sheet)),
            ..sheet_view(*old(sheet))
        }),
{
    sheet.autofit();
}

/// Calls `Worksheet::set_column_width_pixels`.
///
/// Trusted: the width is refused exactly when the column does not lie on
/// the sheet. Once accepted, the widths of the columns follow as
/// [`widths_follow`] says, and nothing else changes.
#[verifier::external_body]
fn sheet_set_column_width(sheet: &mut Worksheet, col: u16, pixels: u32) -> (done: Result<(), XlsxError>)
    ensures
        done is Ok <==> col < COL_MAX,
        done is Ok ==> sheet_view(*final(sheet)) == (SheetView {
            widths: sheet_widths(*final(sheet)),
            ..sheet_view(*old(sheet))
        }),
        done is Ok ==> widths_follow(
            sheet_widths(*old(sheet)),
            sheet_widths(*final(sheet)),
            col as int,
            pixels as int,
        ),
{
    sheet.set_column_width_pixels(col, pixels)?;
    Ok(())
}

/// The greatest colour there is: eight bits each of red, green and blue.
pub const MAX_RGB: u32 = 0xFF_FFFF;

/// What a format holds on which nothing was set: no border, no bold, no
/// background, no alignment and no number format of its own.
pub open spec fn plain_look() -> Map<FormatField, FormatValue> {
    Map::empty().insert(FormatField::BorderTop, FormatValue::Border(BorderKind::NoBorder)).insert(
        FormatField::BorderBottom,
        FormatValue::Border(BorderKind::NoBorder),
    ).insert(FormatField::BorderLeft, FormatValue::Border(BorderKind::NoBorder)).insert(
        FormatField::BorderRight,
        FormatValue::Border(BorderKind::NoBorder),
    ).insert(FormatField::Bold, FormatValue::Flag(false)).insert(
        FormatField::Background,
        FormatValue::Fill(Fill::NoFill),
    ).insert(FormatField::Align, FormatValue::Align(Alignment::General)).insert(
        FormatField::NumFormat,
        FormatValue::Text(Seq::empty()),
    )
}

/// The border that a look draws on an edge other than the top one.
pub open spec fn side_border(style: StyleDescriptor) -> BorderKind {
    match style.edges {
        BorderEdges::All => style.border,
        BorderEdges::Top => BorderKind::NoBorder,
    }
}

/// The background that the sink shows for a look: its own, unless that is
/// a colour beyond the greatest there is, which the sink leaves out.
pub open spec fn shown_fill(style: StyleDescriptor) -> Fill {
    match style.background {
        Fill::Rgb(rgb) if rgb > MAX_RGB => Fill::NoFill,
        fill => fill,
    }
}

/// The number format that the sink is given for a look: that of money, or
/// none.
pub open spec fn num_format_text(style: StyleDescriptor) -> Seq<char> {
    match style.num_format {
        NumberFormat::Currency => FORMAT_MONEY@,
        NumberFormat::General => Seq::empty(),
    }
}

/// What the format of a look holds: the border of the look on the edges on
/// which it is drawn, and its weight, background, alignment and number
/// format.
pub open spec fn look_of(style: StyleDescriptor) -> Map<FormatField, FormatValue> {
    Map::empty().insert(FormatField::BorderTop, FormatValue::Border(style.border)).insert(
        FormatField::BorderBottom,
        FormatValue::Border(side_border(style)),
    ).insert(FormatField::BorderLeft, FormatValue::Border(side_border(style))).insert(
        FormatField::BorderRight,
        FormatValue::Border(side_border(style)),
    ).insert(FormatField::Bold, FormatValue::Flag(style.bold)).insert(
        FormatField::Background,
        FormatValue::Fill(shown_fill(style)),
    ).insert(FormatField::Align, FormatValue::Align(style.align)).insert(
        FormatField::NumFormat,
        FormatValue::Text(num_format_text(style)),
    )
}

/// Calls `Workbook::new`.
///
/// Trusted: a new workbook has no sheets. It also keeps the time at which
/// it was made, of which nothing is said here.
#[verifier::external_body]
pub(crate) fn book_new() -> (book: Workbook)
    ensures
        book_sheets(book) == Seq::<SheetView>::empty(),
{
    Workbook::new()
}

/// Calls `Workbook::push_worksheet`.
///
/// Trusted: a sheet that has a name becomes the last sheet of the
/// workbook, as it is.
#[verifier::external_body]
pub(crate) fn book_push_worksheet(book: &mut Workbook, sheet: Worksheet)
    requires
        sheet_name(sheet).len() > 0,
    ensures
        book_sheets(*final(book)) == book_sheets(*old(book)).push(sheet_view(sheet)),
{
    book.push_worksheet(sheet);
}

/// Calls `Workbook::save_to_buffer`, which gives the workbook as the bytes
/// of a file or fails.
///
/// Trusted: the file of a workbook that has sheets lists them by name, one
/// entry for each sheet, in their order. To a workbook without a sheet the
/// sink adds one before it saves, so nothing is said of its file. Nothing
/// else is said of the bytes, which also hold the time at which the
/// workbook was made.
#[verifier::external_body]
pub(crate) fn book_save_to_buffer(book: Workbook) -> (saved: Result<Vec<u8>, XlsxError>)
    ensures
        saved matches Ok(bytes) ==> (book_sheets(book).len() > 0 ==> file_sheet_names(bytes@)
            == names_of(book_sheets(book))),
{
    let mut book = book;
    book.save_to_buffer()
}

/// Calls `Format::new`.
///
/// Trusted: nothing is set on a new format.
#[verifier::external_body]
fn format_new() -> (format: Format)
    ensures
        format_look(format) == plain_look(),
{
    Format::new()
}

/// Calls `Format::set_border`.
///
/// Trusted: the format gets the border on all four edges, and nothing else
/// of it changes.
#[verifier::external_body]
fn format_set_border(format: Format, kind: BorderKind) -> (styled: Format)
    ensures
        format_look(styled) == format_look(format).insert(
            FormatField::BorderTop,
            FormatValue::Border(kind),
        ).insert(FormatField::BorderBottom, FormatValue::Border(kind)).insert(
            FormatField::BorderLeft,
            FormatValue::Border(kind),
        ).insert(FormatField::BorderRight, FormatValue::Border(kind)),
{
    format.set_border(
        match kind {
            BorderKind::NoBorder => FormatBorder::None,
            BorderKind::Dotted => FormatBorder::Dotted,
            BorderKind::Medium => FormatBorder::Medium,
        },
    )
}

/// Calls `Format::set_border_top`.
///
/// Trusted: the format gets the border on the top edge, and nothing else
/// of it changes.
#[verifier::external_body]
fn format_set_border_top(format: Format, kind: BorderKind) -> (styled: Format)
    ensures
        format_look(styled) == format_look(format).insert(
            FormatField::BorderTop,
            FormatValue::Border(kind),
        ),
{
    format.set_border_top(
        match kind {
            BorderKind::NoBorder => FormatBorder::None,
            BorderKind::Dotted => FormatBorder::Dotted,
            BorderKind::Medium => FormatBorder::Medium,
        },
    )
}

/// Calls `Format::set_bold`.
///
/// Trusted: the format is bold, and nothing else of it changes.
#[verifier::external_body]
fn format_set_bold(format: Format) -> (styled: Format)
    ensures
        format_look(styled) == format_look(format).insert(
            FormatField::Bold,
            FormatValue::Flag(true),
        ),
{
    format.set_bold()
}

/// Calls `Format::set_background_color` with a colour given as red, green
/// and blue.
///
/// Trusted: the format gets the colour as its background, and nothing else
/// of it changes.
#[verifier::external_body]
fn format_set_background_color(format: Format, rgb: u32) -> (styled: Format)
    requires
        rgb <= MAX_RGB,
    ensures
        format_look(styled) == format_look(format).insert(
            FormatField::Background,
            FormatValue::Fill(Fill::Rgb(rgb)),
        ),
{
    format.set_background_color(rust_xlsxwriter::Color::RGB(rgb))
}

/// Calls `Format::set_num_format`.
///
/// Trusted: the format gets the number format, and nothing else of it
/// changes.
#[verifier::external_body]
fn format_set_num_format(format: Format, num_format: &str) -> (styled: Format)
    ensures
        format_look(styled) == format_look(format).insert(
            FormatField::NumFormat,
            FormatValue::Text(num_format@),
        ),
{
    format.set_num_format(num_format)
}

/// Calls `Format::set_align` with the alignment between the left and the
/// right edge.
///
/// Trusted: the content is aligned between the left and the right edge as
/// asked, and nothing else that a look holds changes.
#[verifier::external_body]
fn format_set_align(format: Format, align: Alignment) -> (styled: Format)
    ensures
        format_look(styled) == format_look(format).insert(
            FormatField::Align,
            FormatValue::Align(align),
        ),
{
    format.set_align(
        match align {
            Alignment::General => rust_xlsxwriter::FormatAlign::General,
            Alignment::Center => rust_xlsxwriter::FormatAlign::Center,
        },
    )
}

/// The format of `rust_xlsxwriter` for a look: each property of the look
/// that is not the default is set on a new format. A background beyond the
/// greatest colour is left out, as the sink would leave it out.
pub(crate) fn to_format(style: &StyleDescriptor) -> (format: Format)
    ensures
        format_look(format) == look_of(*style),
{
    let mut format = format_new();
    match style.border {
        BorderKind::NoBorder => {},
        kind => {
            format = match style.edges {
                BorderEdges::All => format_set_border(format, kind),
                BorderEdges::Top => format_set_border_top(format, kind),
            };
        },
    }
    if style.bold {
        format = format_set_bold(format);
    }
    match style.background {
        Fill::NoFill => {},
        Fill::Rgb(rgb) => {
            if rgb <= MAX_RGB {
                format = format_set_background_color(format, rgb);
            }
        },
    }
    match style.num_format {
        NumberFormat::General => {},
        NumberFormat::Currency => {
            format = format_set_num_format(format, FORMAT_MONEY);
        },
    }
    match style.align {
        Alignment::General => {},
        align => {
            format = format_set_align(format, align);
        },
    }
    assert(format_look(format) =~= look_of(*style));
    format
}

/// Whether a sheet whose merged cells are `merged` accepts an operation.
pub open spec fn op_accepted(op: SinkOpView, merged: Set<(int, int)>) -> bool {
    match op {
        SinkOpView::HideGridlines => true,
        SinkOpView::WriteText { cell, text, .. } => text_fits(
            cell.row as int,
            cell.col as int,
            text,
        ),
        SinkOpView::WriteNumber { cell, .. } => in_sheet(cell.row as int, cell.col as int),
        SinkOpView::WriteFormula { cell, .. } => in_sheet(cell.row as int, cell.col as int),
        SinkOpView::Merge { first, last, text, .. } => merge_fits(
            merged,
            first.row as int,
            first.col as int,
            last.row as int,
            last.col as int,
            text,
        ),
        SinkOpView::Autofit => true,
        SinkOpView::SetColumnWidth { col, .. } => col < COL_MAX,
    }
}

/// The merged cells of a sheet after an operation that it accepted.
pub open spec fn merged_after_op(op: SinkOpView, merged: Set<(int, int)>) -> Set<(int, int)> {
    match op {
        SinkOpView::Merge { first, last, .. } => merged.union(
            range_cells(first.row as int, first.col as int, last.row as int, last.col as int),
        ),
        _ => merged,
    }
}

/// What the cells of a sheet hold after an operation that it accepted.
pub open spec fn cells_after_op(op: SinkOpView, cells: Map<(int, int), CellContent>) -> Map<
    (int, int),
    CellContent,
> {
    match op {
        SinkOpView::WriteText { cell, text, .. } => cells.insert(
            (cell.row as int, cell.col as int),
            text_cell(text),
        ),
        SinkOpView::WriteNumber { cell, number, .. } => cells.insert(
            (cell.row as int, cell.col as int),
            CellContent::Number(number),
        ),
        SinkOpView::WriteFormula { cell, formula, .. } => cells.insert(
            (cell.row as int, cell.col as int),
            CellContent::Formula(formula_text(formula)),
        ),
        SinkOpView::Merge { first, last, text, .. } => cells_after_merge(
            cells,
            first.row as int,
            first.col as int,
            last.row as int,
            last.col as int,
            text,
        ),
        _ => cells,
    }
}

/// The looks of the cells of a sheet after an operation that it accepted.
pub open spec fn looks_after_op(
    op: SinkOpView,
    looks: Map<(int, int), Map<FormatField, FormatValue>>,
) -> Map<(int, int), Map<FormatField, FormatValue>> {
    match op {
        SinkOpView::WriteText { cell, style, .. } => looks.insert(
            (cell.row as int, cell.col as int),
            look_of(style),
        ),
        SinkOpView::WriteNumber { cell, style, .. } => looks.insert(
            (cell.row as int, cell.col as int),
            look_of(style),
        ),
        SinkOpView::WriteFormula { cell, style, .. } => looks.insert(
            (cell.row as int, cell.col as int),
            look_of(style),
        ),
        SinkOpView::Merge { first, last, style, .. } => looks_after_merge(
            looks,
            first.row as int,
            first.col as int,
            last.row as int,
            last.col as int,
            look_of(style),
        ),
        _ => looks,
    }
}

/// The widths that are known of a sheet after an operation that it
/// accepted, if `widths` were known before: fitting the columns to their
/// content leaves none known; setting the width of a column makes it
/// known; and hiding a column leaves its width unknown.
pub open spec fn widths_after_op(op: SinkOpView, widths: Map<int, int>) -> Map<int, int> {
    match op {
        SinkOpView::Autofit => no_widths(),
        SinkOpView::SetColumnWidth { col, pixels } => if pixels == 0 {
            widths.remove(col as int)
        } else {
            widths.insert(col as int, width_set(pixels as int))
        },
        _ => widths,
    }
}

/// What the cells of a sheet hold that held `start` and then accepted the
/// operations `ops`.
pub open spec fn cells_after(ops: Seq<SinkOpView>, start: Map<(int, int), CellContent>) -> Map<
    (int, int),
    CellContent,
>
    decreases ops.len(),
{
    if ops.len() == 0 {
        start
    } else {
        cells_after_op(ops.last(), cells_after(ops.drop_last(), start))
    }
}

/// The looks of the cells of a sheet whose cells had the looks `start` and
/// which then accepted the operations `ops`.
pub open spec fn looks_after(
    ops: Seq<SinkOpView>,
    start: Map<(int, int), Map<FormatField, FormatValue>>,
) -> Map<(int, int), Map<FormatField, FormatValue>>
    decreases ops.len(),
{
    if ops.len() == 0 {
        start
    } else {
        looks_after_op(ops.last(), looks_after(ops.drop_last(), start))
    }
}

/// The merged cells of a sheet that had the merged cells `start` and then
/// accepted the operations `ops`.
pub open spec fn merged_after(ops: Seq<SinkOpView>, start: Set<(int, int)>) -> Set<(int, int)>
    decreases ops.len(),
{
    if ops.len() == 0 {
        start
    } else {
        merged_after_op(ops.last(), merged_after(ops.drop_last(), start))
    }
}

/// The widths that are known of a sheet of which the widths `start` were
/// known and which then accepted the operations `ops`: those of `start`
/// and those set since, unless the columns were fitted to their content,
/// and then those set since they last were.
pub open spec fn widths_after(ops: Seq<SinkOpView>, start: Map<int, int>) -> Map<int, int>
    decreases ops.len(),
{
    if ops.len() == 0 {
        start
    } else {
        widths_after_op(ops.last(), widths_after(ops.drop_last(), start))
    }
}

/// Whether one of the operations hides the grid.
pub open spec fn hides_grid(ops: Seq<SinkOpView>) -> bool {
    exists|i: int| 0 <= i < ops.len() && #[trigger] ops[i] == SinkOpView::HideGridlines
}

/// Whether a sheet whose merged cells are `start` accepts the operations
/// `ops` one after the other.
pub open spec fn ops_accepted(ops: Seq<SinkOpView>, start: Set<(int, int)>) -> bool
    decreases ops.len(),
{
    if ops.len() == 0 {
        true
    } else {
        ops_accepted(ops.drop_last(), start) && op_accepted(
            ops.last(),
            merged_after(ops.drop_last(), start),
        )
    }
}

/// Whether the sink makes a sheet of a plan: a new sheet accepts its
/// operations, and its name is a valid name for a sheet.
pub open spec fn plan_accepted(plan: SheetPlanView) -> bool {
    ops_accepted(plan.ops, Set::empty()) && valid_sheet_name(plan.name)
}

/// Whether a sheet is the one that a plan describes: it has the name of
/// the plan; its cells hold what the operations of the plan write, one
/// after the other, each in the look that its operation gives it, and no
/// other cell holds anything; its merged cells are those that the plan
/// merges; its grid is hidden if the plan hides it; its columns have the
/// widths that the plan sets after it last fits the columns to their
/// content; and it is whole.
pub open spec fn sheet_follows(sheet: SheetView, plan: SheetPlanView) -> bool {
    &&& sheet.name == plan.name
    &&& sheet.cells == cells_after(plan.ops, no_cells())
    &&& sheet.looks == looks_after(plan.ops, no_looks())
    &&& sheet.merged == merged_after(plan.ops, Set::empty())
    &&& sheet.grid_hidden == hides_grid(plan.ops)
    &&& widths_after(plan.ops, no_widths()).submap_of(sheet.widths)
    &&& sheet.whole
}

/// Operations that are accepted are accepted up to any point.
pub proof fn lemma_ops_accepted_prefix(ops: Seq<SinkOpView>, start: Set<(int, int)>, k: int)
    requires
        ops_accepted(ops, start),
        0 <= k <= ops.len(),
    ensures
        ops_accepted(ops.take(k), start),
    decreases ops.len(),
{
    if k == ops.len() {
        assert(ops.take(k) =~= ops);
    } else {
        lemma_ops_accepted_prefix(ops.drop_last(), start, k);
        assert(ops.drop_last().take(k) =~= ops.take(k));
    }
}

/// Operations `a` followed by operations `b` are accepted exactly when `a`
/// is and `b` is by the sheet that `a` leaves; and they leave what `b`
/// leaves of that.
pub proof fn lemma_ops_concat(a: Seq<SinkOpView>, b: Seq<SinkOpView>, start: Set<(int, int)>)
    ensures
        merged_after(a + b, start) == merged_after(b, merged_after(a, start)),
        ops_accepted(a + b, start) == (ops_accepted(a, start) && ops_accepted(
            b,
            merged_after(a, start),
        )),
    decreases b.len(),
{
    if b.len() == 0 {
        assert(a + b =~= a);
    } else {
        lemma_ops_concat(a, b.drop_last(), start);
        assert((a + b).drop_last() =~= a + b.drop_last());
        assert((a + b).last() == b.last());
    }
}

/// What is known of the widths stays known when the width of a column is
/// set, but for that column, whose width is known if it is not hidden.
proof fn lemma_known_widths_follow(
    known: Map<int, int>,
    before: Map<int, int>,
    after: Map<int, int>,
    col: int,
    pixels: int,
)
    requires
        known.submap_of(before),
        widths_follow(before, after, col, pixels),
    ensures
        known.remove(col).submap_of(after),
        pixels > 0 ==> known.insert(col, width_set(pixels)).submap_of(after),
{
    let less = known.remove(col);
    assert forall|k: int| #[trigger] less.dom().contains(k) implies after.dom().contains(k)
        && less[k] == after[k] by {
        assert(known.dom().contains(k) && before.dom().contains(k));
        assert(before.remove(col).dom().contains(k));
        assert(after.remove(col).dom().contains(k));
        assert(before.remove(col)[k] == after.remove(col)[k]);
    }
    if pixels > 0 {
        let more = known.insert(col, width_set(pixels));
        assert forall|k: int| #[trigger] more.dom().contains(k) implies after.dom().contains(k)
            && more[k] == after[k] by {
            if k != col {
                assert(less.dom().contains(k));
            }
        }
    }
}

/// Performs one operation on a sheet that is whole and of which the
/// widths `known` are known.
fn apply_op(
    sheet: &mut Worksheet,
    op: &SinkOp,
    Ghost(known): Ghost<Map<int, int>>,
) -> (done: Result<(), XlsxError>)
    requires
        sheet_whole(*old(sheet)),
        known.submap_of(sheet_widths(*old(sheet))),
    ensures
        done is Ok <==> op_accepted(op@, sheet_merged(*old(sheet))),
        done is Ok ==> {
            let before = sheet_view(*old(sheet));
            let after = sheet_view(*final(sheet));
            &&& after.whole
            &&& after.name == before.name
            &&& after.cells == cells_after_op(op@, before.cells)
            &&& after.looks == looks_after_op(op@, before.looks)
            &&& after.merged == merged_after_op(op@, before.merged)
            &&& after.grid_hidden == (before.grid_hidden || op@ == SinkOpView::HideGridlines)
            &&& widths_after_op(op@, known).submap_of(after.widths)
        },
{
    match op {
        SinkOp::HideGridlines => {
            sheet_set_screen_gridlines(sheet, false);
            Ok(())
        },
        SinkOp::WriteText { cell, text, style } => sheet_write_string(
            sheet,
            cell.row,
            cell.col,
            text.as_str(),
            &to_format(style),
        ),
        SinkOp::WriteNumber { cell, number, style } => sheet_write_number(
            sheet,
            cell.row,
            cell.col,
            *number,
            &to_format(style),
        ),
        SinkOp::WriteFormula { cell, formula, style } => sheet_write_formula(
            sheet,
            cell.row,
            cell.col,
            formula.as_str(),
            &to_format(style),
        ),
        SinkOp::Merge { first, last, text, style } => sheet_merge_range(
            sheet,
            first.row,
            first.col,
            last.row,
            last.col,
            text.as_str(),
            &to_format(style),
        ),
        SinkOp::Autofit => {
            sheet_autofit(sheet);
            Ok(())
        },
        SinkOp::SetColumnWidth { col, pixels } => {
            let done = sheet_set_column_width(sheet, *col, *pixels);
            proof {
                if done is Ok {
                    lemma_known_widths_follow(
                        known,
                        sheet_widths(*old(sheet)),
                        sheet_widths(*sheet),
                        *col as int,
                        *pixels as int,
                    );
                }
            }
            done
        },
    }
}

/// Makes a sheet of a plan: performs its operations in order on a new
/// sheet, then names the sheet. Stops at the first operation that the sink
/// refuses; there is then no sheet.
pub fn render_sheet(plan: &SheetPlan) -> (rendered: Result<Worksheet, XlsxError>)
    ensures
        rendered is Ok <==> plan_accepted(plan@),
        rendered matches Ok(sheet) ==> sheet_follows(sheet_view(sheet), plan@),
{
    let mut sheet = sheet_new();
    let mut i: usize = 0;
    let ghost none = Set::<(int, int)>::empty();
    proof {
        assert(!hides_grid(plan@.ops.take(0)));
    }
    while i < plan.ops.len()
        invariant
            i <= plan.ops.len(),
            none == Set::<(int, int)>::empty(),
            ops_accepted(plan@.ops.take(i as int), none),
            sheet_name(sheet) == Seq::<char>::empty(),
            sheet_whole(sheet),
            sheet_cells(sheet) == cells_after(plan@.ops.take(i as int), no_cells()),
            sheet_looks(sheet) == looks_after(plan@.ops.take(i as int), no_looks()),
            sheet_merged(sheet) == merged_after(plan@.ops.take(i as int), none),
            sheet_grid_hidden(sheet) == hides_grid(plan@.ops.take(i as int)),
            widths_after(plan@.ops.take(i as int), no_widths()).submap_of(sheet_widths(sheet)),
        decreases plan.ops.len() - i,
    {
        let ghost before = plan@.ops.take(i as int);
        let ghost after = plan@.ops.take(i + 1);
        proof {
            assert(after.drop_last() =~= before);
            assert(after.last() == plan.ops@[i as int]@);
        }
        match apply_op(&mut sheet, &plan.ops[i], Ghost(widths_after(before, no_widths()))) {
            Ok(()) => {},
            Err(error) => {
                proof {
                    if ops_accepted(plan@.ops, none) {
                        lemma_ops_accepted_prefix(plan@.ops, none, i + 1);
                    }
                }
                return Err(error);
            },
        }
        proof {
            assert(hides_grid(after) == (hides_grid(before) || after.last()
                == SinkOpView::HideGridlines)) by {
                if hides_grid(before) {
                    let k = choose|k: int|
                        0 <= k < before.len() && #[trigger] before[k] == SinkOpView::HideGridlines;
                    assert(after[k] == SinkOpView::HideGridlines);
                }
                if after.last() == SinkOpView::HideGridlines {
                    assert(after[i as int] == SinkOpView::HideGridlines);
                }
                if hides_grid(after) {
                    let k = choose|k: int|
                        0 <= k < after.len() && #[trigger] after[k] == SinkOpView::HideGridlines;
                    if k < i {
                        assert(before[k] == SinkOpView::HideGridlines);
                    }
                }
            }
        }
        i += 1;
    }
    proof {
        assert(plan@.ops.take(plan.ops.len() as int) =~= plan@.ops);
    }
    match sheet_set_name(&mut sheet, plan.name.as_str()) {
        Ok(()) => Ok(sheet),
        Err(error) => Err(error),
    }
}

} // verus!
