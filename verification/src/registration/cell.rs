//! The value of one cell of a roster sheet.

use vstd::prelude::*;

verus! {

/// What a cell of the sheet holds, as far as a roster reads it.
#[derive(Debug)]
pub enum Cell {
    /// A whole number.
    Int(i64),
    /// A number stored with a fraction: `whole` is the number cut to a
    /// whole one within `0..=u64::MAX`, `shown` is the number as displayed.
    Float { whole: u64, shown: String },
    /// A text.
    Text(String),
    /// A truth value.
    Bool(bool),
    /// A date or time in the sheet's own encoding, as displayed.
    DateTime(String),
    /// A date or time in ISO 8601.
    DateTimeIso(String),
    /// Nothing.
    Empty,
    /// Any other content: a duration, or an error of the sheet.
    Other,
}

/// Mathematical value of a [`Cell`].
pub enum CellView {
    Int(i64),
    Float { whole: u64, shown: Seq<char> },
    Text(Seq<char>),
    Bool(bool),
    DateTime(Seq<char>),
    DateTimeIso(Seq<char>),
    Empty,
    Other,
}

impl View for Cell {
    type V = CellView;

    open spec fn view(&self) -> CellView {
        match self {
            Cell::Int(i) => CellView::Int(*i),
            Cell::Float { whole, shown } => CellView::Float { whole: *whole, shown: shown@ },
            Cell::Text(s) => CellView::Text(s@),
            Cell::Bool(b) => CellView::Bool(*b),
            Cell::DateTime(s) => CellView::DateTime(s@),
            Cell::DateTimeIso(s) => CellView::DateTimeIso(s@),
            Cell::Empty => CellView::Empty,
            Cell::Other => CellView::Other,
        }
    }
}

impl DeepView for Cell {
    type V = CellView;

    open spec fn deep_view(&self) -> CellView {
        self@
    }
}

impl Clone for Cell {
    fn clone(&self) -> (r: Self)
        ensures
            r == *self,
    {
        match self {
            Cell::Int(i) => Cell::Int(*i),
            Cell::Float { whole, shown } => Cell::Float { whole: *whole, shown: shown.clone() },
            Cell::Text(s) => Cell::Text(s.clone()),
            Cell::Bool(b) => Cell::Bool(*b),
            Cell::DateTime(s) => Cell::DateTime(s.clone()),
            Cell::DateTimeIso(s) => Cell::DateTimeIso(s.clone()),
            Cell::Empty => Cell::Empty,
            Cell::Other => Cell::Other,
        }
    }
}

} // verus!
