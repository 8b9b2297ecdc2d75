//! Errors raised while a chart is drawn.

use vstd::prelude::*;
use vstd::string::*;

verus! {

/// What can go wrong with a chart, each with the words of its cause.
#[derive(Debug)]
pub enum DrawingError {
    Presentation(String),
    DrawingArea(String),
    ChartContext(String),
    ChartDrawing(String),
}

/// Mathematical value of a [`DrawingError`].
pub enum DrawingErrorView {
    Presentation(Seq<char>),
    DrawingArea(Seq<char>),
    ChartContext(Seq<char>),
    ChartDrawing(Seq<char>),
}

impl View for DrawingError {
    type V = DrawingErrorView;

    open spec fn view(&self) -> DrawingErrorView {
        match self {
            DrawingError::Presentation(cause) => DrawingErrorView::Presentation(cause@),
            DrawingError::DrawingArea(cause) => DrawingErrorView::DrawingArea(cause@),
            DrawingError::ChartContext(cause) => DrawingErrorView::ChartContext(cause@),
            DrawingError::ChartDrawing(cause) => DrawingErrorView::ChartDrawing(cause@),
        }
    }
}

impl DrawingErrorView {
    /// The sentence shown to a user for this error.
    pub open spec fn message(self) -> Seq<char> {
        match self {
            DrawingErrorView::Presentation(cause) => "Error while presenting the graph: "@
                + cause,
            DrawingErrorView::DrawingArea(cause) => "Error with the drawing area: "@ + cause,
            DrawingErrorView::ChartContext(cause) => "Error with the chart context: "@ + cause,
            DrawingErrorView::ChartDrawing(cause) => "Error while drawing the chart: "@ + cause,
        }
    }
}

impl DrawingError {
    /// The sentence shown to a user for this error.
    pub fn message(&self) -> (r: String)
        ensures
            r@ == self@.message(),
    {
        let (mut text, cause) = match self {
            DrawingError::Presentation(cause) => (
                String::from_str("Error while presenting the graph: "),
                cause,
            ),
            DrawingError::DrawingArea(cause) => (
                String::from_str("Error with the drawing area: "),
                cause,
            ),
            DrawingError::ChartContext(cause) => (
                String::from_str("Error with the chart context: "),
                cause,
            ),
            DrawingError::ChartDrawing(cause) => (
                String::from_str("Error while drawing the chart: "),
                cause,
            ),
        };
        text.append(cause.as_str());
        text
    }
}

} // verus!
