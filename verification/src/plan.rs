//! What is to be written on a sheet, as plain data.
//!
//! A plan lists, in order, the operations that the document sink is asked
//! to perform. The engine computes plans; only the sink turns them into a
//! document.

use crate::layout::CellCoord;
use crate::styles::StyleDescriptor;
use vstd::prelude::*;

verus! {

/// One operation on a sheet.
#[derive(Debug, PartialEq, Eq)]
pub enum SinkOp {
    /// Do not show the grid between the cells.
    HideGridlines,
    /// Write a text into a cell.
    WriteText { cell: CellCoord, text: String, style: StyleDescriptor },
    /// Write a number into a cell.
    WriteNumber { cell: CellCoord, number: u32, style: StyleDescriptor },
    /// Write a formula into a cell.
    WriteFormula { cell: CellCoord, formula: String, style: StyleDescriptor },
    /// Merge the cells from `first` to `last` and write a text into them.
    Merge { first: CellCoord, last: CellCoord, text: String, style: StyleDescriptor },
    /// Fit the width of each column to what has been written so far.
    Autofit,
    /// Set the width of a column, in pixels; a width of 0 hides the column.
    SetColumnWidth { col: u16, pixels: u32 },
}

/// One operation on a sheet, with its texts as sequences of characters.
pub enum SinkOpView {
    HideGridlines,
    WriteText { cell: CellCoord, text: Seq<char>, style: StyleDescriptor },
    WriteNumber { cell: CellCoord, number: u32, style: StyleDescriptor },
    WriteFormula { cell: CellCoord, formula: Seq<char>, style: StyleDescriptor },
    Merge { first: CellCoord, last: CellCoord, text: Seq<char>, style: StyleDescriptor },
    Autofit,
    SetColumnWidth { col: u16, pixels: u32 },
}

impl View for SinkOp {
    type V = SinkOpView;

    open spec fn view(&self) -> SinkOpView {
        match *self {
            SinkOp::HideGridlines => SinkOpView::HideGridlines,
            SinkOp::WriteText { cell, text, style } => SinkOpView::WriteText {
                cell,
                text: text@,
                style,
            },
            SinkOp::WriteNumber { cell, number, style } => SinkOpView::WriteNumber {
                cell,
                number,
                style,
            },
            SinkOp::WriteFormula { cell, formula, style } => SinkOpView::WriteFormula {
                cell,
                formula: formula@,
                style,
            },
            SinkOp::Merge { first, last, text, style } => SinkOpView::Merge {
                first,
                last,
                text: text@,
                style,
            },
            SinkOp::Autofit => SinkOpView::Autofit,
            SinkOp::SetColumnWidth { col, pixels } => SinkOpView::SetColumnWidth { col, pixels },
        }
    }
}

/// The operations with their texts as sequences of characters.
pub open spec fn ops_view(ops: Seq<SinkOp>) -> Seq<SinkOpView> {
    ops.map_values(|op: SinkOp| op@)
}

/// A sheet to be: its name and the operations that fill it, in order.
#[derive(Debug, PartialEq, Eq)]
pub struct SheetPlan {
    pub name: String,
    pub ops: Vec<SinkOp>,
}

/// A sheet to be, with its texts as sequences of characters.
pub struct SheetPlanView {
    pub name: Seq<char>,
    pub ops: Seq<SinkOpView>,
}

impl View for SheetPlan {
    type V = SheetPlanView;

    open spec fn view(&self) -> SheetPlanView {
        SheetPlanView { name: self.name@, ops: ops_view(self.ops@) }
    }
}

impl SheetPlan {
    /// A plan without a name and without operations.
    pub fn new() -> (plan: SheetPlan)
        ensures
            plan@.name == Seq::<char>::empty(),
            plan@.ops == Seq::<SinkOpView>::empty(),
    {
        let plan = SheetPlan { name: String::new(), ops: Vec::new() };
        assert(plan@.ops =~= Seq::<SinkOpView>::empty());
        plan
    }

    /// Adds an operation at the end of the plan.
    pub fn push(&mut self, op: SinkOp)
        ensures
            final(self)@.name == old(self)@.name,
            final(self)@.ops == old(self)@.ops.push(op@),
    {
        self.ops.push(op);
        assert(self@.ops =~= old(self)@.ops.push(op@));
    }

    /// Gives the sheet its name.
    pub fn set_name(&mut self, name: String)
        ensures
            final(self)@.name == name@,
            final(self)@.ops == old(self)@.ops,
    {
        self.name = name;
    }
}

} // verus!
