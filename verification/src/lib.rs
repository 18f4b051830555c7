//! Builds a yearly timesheet as a workbook: one sheet per month, one row
//! per day, with formulas for the hours worked and the bonus earned.
//!
//! The engine takes a year, a salary and the public holidays of the year.
//! It classifies each day ([`days`]), cuts the year into months, plans the
//! sheet of each month ([`cells_filling`]) from the layout ([`layout`]),
//! the looks ([`styles`]) and the formulas ([`formulas`]), and hands the
//! plans to the document sink ([`sink`]). [`excel`] puts it all together;
//! [`contents`] states what a finished sheet holds, cell by cell, and
//! [`looks`] how each cell looks.
//!
//! Dates come from `chrono` ([`calendar`]), documents from
//! `rust_xlsxwriter` ([`sink`]). What the library relies on of either is
//! stated on the few functions that call them.

pub mod calendar;
pub mod cells_filling;
pub mod contents;
pub mod days;
pub mod dialogue;
pub mod error;
pub mod excel;
pub mod formulas;
pub mod holidays;
pub mod layout;
pub mod looks;
pub mod plan;
pub mod sheet;
pub mod sink;
pub mod styles;
pub mod text;
