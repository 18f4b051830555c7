//! The engine: from a year, a salary and the holidays to a workbook.

use crate::calendar::{days_in_month, weekday_of};
use crate::contents::{day_row_holds, lemma_month_sheet_cells, month_cells_hold};
use crate::days::{
    calendar_error, classify_day, get_dates_at_year, groups_view, is_month_partition,
    is_month_run, is_year_calendar, lemma_year_has_twelve_months, lemma_year_months_are_runs,
    month_name_text, months_of, year_calendar, Day, Days, MIN_YEAR,
};
use crate::looks::{day_row_looks, lemma_month_sheet_looks, month_looks_hold};
use crate::error::EngineError;
use crate::holidays::HolidayDates;
use crate::sheet::{assemble_sheet, is_month_sheet, lemma_month_names_valid};
use crate::sink::{
    book_new, book_push_worksheet, book_save_to_buffer, book_sheets, file_sheet_names, names_of,
    SheetView,
};
use rust_xlsxwriter::{Workbook, XlsxError};
use vstd::prelude::*;

verus! {

/// Whether `sheets` are the sheets of the given months, one for each in
/// their order.
pub open spec fn sheets_follow(
    sheets: Seq<SheetView>,
    groups: Seq<Seq<Day>>,
    salary: nat,
) -> bool {
    &&& sheets.len() == groups.len()
    &&& forall|i: int|
        0 <= i < sheets.len() ==> is_month_sheet(#[trigger] sheets[i], groups[i], salary)
}

/// The sheets of a year are twelve, named after the months from January to
/// December.
pub proof fn lemma_year_sheet_names(
    days: Seq<Day>,
    year: int,
    holidays: Set<(int, int, int)>,
    groups: Seq<Seq<Day>>,
    sheets: Seq<SheetView>,
    salary: nat,
)
    requires
        is_year_calendar(days, year, holidays),
        is_month_partition(days, groups),
        sheets_follow(sheets, groups, salary),
    ensures
        sheets.len() == 12,
        forall|i: int| 0 <= i < 12 ==> (#[trigger] sheets[i]).name == month_name_text(i + 1),
{
    lemma_year_has_twelve_months(days, year, holidays, groups);
    assert forall|i: int| 0 <= i < 12 implies (#[trigger] sheets[i]).name == month_name_text(
        i + 1,
    ) by {
        assert(groups[i].len() > 0);
        assert(groups[i][0].date().ymd() == (year, i + 1, 0 + 1int));
    }
}

/// The sheets of a year, row by row. The sheet of each month holds what
/// the sheet of a month holds, in the looks of a month; and on it the row
/// of each day of the month, which stands two rows below the number of the
/// day, holds the label, the hours and the bonus of that day in the look
/// of the kind of day that its day of the week and the holidays give it.
pub proof fn lemma_year_sheet_rows(
    days: Seq<Day>,
    year: int,
    holidays: Set<(int, int, int)>,
    groups: Seq<Seq<Day>>,
    sheets: Seq<SheetView>,
    salary: nat,
)
    requires
        is_year_calendar(days, year, holidays),
        is_month_partition(days, groups),
        sheets_follow(sheets, groups, salary),
    ensures
        sheets.len() == 12,
        forall|g: int|
            0 <= g < 12 ==> month_cells_hold((#[trigger] sheets[g]).cells, groups[g], salary)
                && month_looks_hold(sheets[g].looks, groups[g]),
        forall|g: int, i: int|
            0 <= g < 12 && 0 <= i < days_in_month(year, g + 1) ==> {
                let day = #[trigger] groups[g][i];
                &&& day.date().ymd() == (year, g + 1, i + 1)
                &&& day.flag() == classify_day(
                    weekday_of(year, g + 1, i + 1),
                    holidays.contains((year, g + 1, i + 1)),
                )
                &&& day_row_holds(sheets[g].cells, day)
                &&& day_row_looks(sheets[g].looks, day)
            },
{
    lemma_year_has_twelve_months(days, year, holidays, groups);
    lemma_year_months_are_runs(days, year, holidays, groups);
    assert forall|g: int| 0 <= g < 12 implies month_cells_hold(
        (#[trigger] sheets[g]).cells,
        groups[g],
        salary,
    ) && month_looks_hold(sheets[g].looks, groups[g]) by {
        assert(is_month_run(groups[g]));
        assert(is_month_sheet(sheets[g], groups[g], salary));
        lemma_month_sheet_cells(groups[g], salary);
        lemma_month_sheet_looks(groups[g], salary);
    }
    assert forall|g: int, i: int| 0 <= g < 12 && 0 <= i < days_in_month(year, g + 1) implies {
        let day = #[trigger] groups[g][i];
        &&& day.date().ymd() == (year, g + 1, i + 1)
        &&& day.flag() == classify_day(
            weekday_of(year, g + 1, i + 1),
            holidays.contains((year, g + 1, i + 1)),
        )
        &&& day_row_holds(sheets[g].cells, day)
        &&& day_row_looks(sheets[g].looks, day)
    } by {
        assert(groups[g].len() == days_in_month(year, g + 1));
        assert(month_cells_hold(sheets[g].cells, groups[g], salary));
        assert(month_looks_hold(sheets[g].looks, groups[g]));
    }
}

/// A workbook with one sheet for each month of `days`, in the order of the
/// months. The sink never refuses a sheet.
pub fn build_workbook(days: &Days, salary: u32) -> (built: Result<Workbook, EngineError>)
    ensures
        built is Ok,
        built matches Ok(book) ==> sheets_follow(
            book_sheets(book),
            months_of(days@),
            salary as nat,
        ),
        is_month_partition(days@, months_of(days@)),
{
    let months = days.split_months();
    let mut book = book_new();
    let mut i: usize = 0;
    let ghost groups = groups_view(months@);
    while i < months.len()
        invariant
            i <= months.len(),
            groups == groups_view(months@),
            sheets_follow(book_sheets(book), groups.take(i as int), salary as nat),
        decreases months.len() - i,
    {
        let month = &months[i];
        let ghost sheets = book_sheets(book);
        proof {
            use_type_invariant(month);
            assert(month@.first().wf());
            lemma_month_names_valid(month@.first().date().spec_month());
        }
        match assemble_sheet(month, salary) {
            Ok(sheet) => {
                book_push_worksheet(&mut book, sheet);
            },
            Err(error) => {
                return Err(error);
            },
        }
        proof {
            assert(groups[i as int] == month@);
            assert forall|k: int| 0 <= k < book_sheets(book).len() implies is_month_sheet(
                #[trigger] book_sheets(book)[k],
                groups.take(i + 1)[k],
                salary as nat,
            ) by {
                if k < i {
                    assert(book_sheets(book)[k] == sheets[k]);
                    assert(groups.take(i + 1)[k] == groups.take(i as int)[k]);
                }
            }
        }
        i += 1;
    }
    proof {
        assert(groups.take(months.len() as int) =~= groups);
    }
    Ok(book)
}

/// Whether a workbook file lists the sheets of a year: twelve, named after
/// the months from January to December, in that order.
pub open spec fn lists_year_sheets(bytes: Seq<u8>) -> bool {
    &&& file_sheet_names(bytes).len() == 12
    &&& forall|i: int|
        0 <= i < 12 ==> (#[trigger] file_sheet_names(bytes)[i]) == month_name_text(i + 1)
}

/// What the sink gave, as the engine reports it: the bytes, or that the
/// sink failed.
pub fn finish_table(saved: Result<Vec<u8>, XlsxError>) -> (table: Result<Vec<u8>, EngineError>)
    ensures
        saved matches Ok(bytes) ==> table == Ok::<Vec<u8>, EngineError>(bytes),
        saved is Err ==> table == Err::<Vec<u8>, EngineError>(EngineError::SinkWriteFailure),
{
    match saved {
        Ok(bytes) => Ok(bytes),
        Err(_) => Err(EngineError::SinkWriteFailure),
    }
}

/// The workbook of a year. A year before [`MIN_YEAR`] is refused whatever
/// the holiday source gave; for any other year the failure of the source
/// is handed on; and with holidays the workbook holds the sheets of the
/// twelve months of the year, named after the months from January to
/// December. The months are those of the calendar of the year, so what
/// [`lemma_year_sheet_rows`] says of the sheets of a year holds of these.
pub fn build_year_workbook(
    year: u16,
    salary: u32,
    fetched: Option<&HolidayDates>,
) -> (built: Result<Workbook, EngineError>)
    ensures
        built is Err <==> calendar_error(year, fetched is Some) is Some,
        built matches Err(error) ==> calendar_error(year, fetched is Some) == Some(error),
        built matches Ok(book) ==> fetched matches Some(holidays) && sheets_follow(
            book_sheets(book),
            months_of(year_calendar(year as int, holidays@)),
            salary as nat,
        ),
        built matches Ok(book) ==> book_sheets(book).len() == 12 && forall|i: int|
            0 <= i < 12 ==> (#[trigger] book_sheets(book)[i]).name == month_name_text(i + 1),
        built is Ok ==> (fetched matches Some(holidays) ==> {
            let days = year_calendar(year as int, holidays@);
            &&& is_year_calendar(days, year as int, holidays@)
            &&& is_month_partition(days, months_of(days))
        }),
{
    let days = match get_dates_at_year(year, fetched) {
        Ok(days) => days,
        Err(error) => {
            return Err(error);
        },
    };
    match build_workbook(&days, salary) {
        Ok(book) => {
            proof {
                let holidays = fetched->Some_0;
                lemma_year_sheet_names(
                    days@,
                    year as int,
                    holidays@,
                    months_of(days@),
                    book_sheets(book),
                    salary as nat,
                );
            }
            Ok(book)
        },
        Err(error) => Err(error),
    }
}

/// The timesheet of a year as the bytes of a workbook file. A year before
/// [`MIN_YEAR`] is refused whatever the holiday source gave; for any other
/// year the failure of the source is handed on; and with holidays the only
/// failure left is that of the sink when it serialises the workbook. The
/// file then lists the sheets of the twelve months, from January to
/// December: it is the file of the workbook of [`build_year_workbook`].
pub fn get_filled_table(
    year: u16,
    salary: u32,
    fetched: Option<&HolidayDates>,
) -> (table: Result<Vec<u8>, EngineError>)
    ensures
        calendar_error(year, fetched is Some) matches Some(error) ==> table == Err::<
            Vec<u8>,
            EngineError,
        >(error),
        calendar_error(year, fetched is Some) is None ==> table is Ok || table == Err::<
            Vec<u8>,
            EngineError,
        >(EngineError::SinkWriteFailure),
        table matches Ok(bytes) ==> lists_year_sheets(bytes@),
{
    match build_year_workbook(year, salary, fetched) {
        Ok(book) => {
            let ghost sheets = book_sheets(book);
            let table = finish_table(book_save_to_buffer(book));
            proof {
                if table is Ok {
                    let bytes = table->Ok_0;
                    assert(file_sheet_names(bytes@) == names_of(sheets));
                    assert forall|i: int| 0 <= i < 12 implies (#[trigger] file_sheet_names(
                        bytes@,
                    )[i]) == month_name_text(i + 1) by {
                        assert(names_of(sheets)[i] == sheets[i].name);
                    }
                }
            }
            table
        },
        Err(error) => Err(error),
    }
}

/// A timesheet that has been asked for and waits for the holidays of its
/// year. There is one only for a year that the engine supports.
pub struct PendingTable {
    year: u16,
    salary: u32,
}

impl PendingTable {
    /// The year asked for.
    pub closed spec fn spec_year(self) -> u16 {
        self.year
    }

    /// The salary asked for.
    pub closed spec fn spec_salary(self) -> u32 {
        self.salary
    }

    /// The year is one that the engine supports.
    #[verifier::type_invariant]
    pub open spec fn wf(self) -> bool {
        self.spec_year() >= MIN_YEAR
    }

    /// The year asked for.
    pub fn year(&self) -> (year: u16)
        ensures
            year == self.spec_year(),
            year >= MIN_YEAR,
    {
        proof {
            use_type_invariant(self);
        }
        self.year
    }

    /// The salary asked for.
    pub fn salary(&self) -> (salary: u32)
        ensures
            salary == self.spec_salary(),
    {
        self.salary
    }

    /// Finishes the timesheet with what the holiday source gave: its
    /// failure is handed on, and with holidays the workbook is built and
    /// saved. The file then lists the sheets of the twelve months, from
    /// January to December.
    pub fn complete(self, fetched: Option<&HolidayDates>) -> (table: Result<Vec<u8>, EngineError>)
        ensures
            fetched is None <==> table == Err::<Vec<u8>, EngineError>(
                EngineError::HolidaySourceUnavailable,
            ),
            fetched is Some ==> table is Ok || table == Err::<Vec<u8>, EngineError>(
                EngineError::SinkWriteFailure,
            ),
            table matches Ok(bytes) ==> lists_year_sheets(bytes@),
    {
        proof {
            use_type_invariant(&self);
        }
        get_filled_table(self.year, self.salary, fetched)
    }
}

/// Takes the request for a timesheet. A year before [`MIN_YEAR`] is
/// refused at once, before anything is fetched; for any other year the
/// caller is to fetch the holidays and hand them to
/// [`PendingTable::complete`].
pub fn request_table(year: u16, salary: u32) -> (pending: Result<PendingTable, EngineError>)
    ensures
        pending is Err <==> year < MIN_YEAR,
        pending matches Err(error) ==> error == EngineError::UnsupportedYear,
        pending matches Ok(p) ==> p.spec_year() == year && p.spec_salary() == salary,
{
    if year < MIN_YEAR {
        Err(EngineError::UnsupportedYear)
    } else {
        Ok(PendingTable { year, salary })
    }
}

} // verus!
