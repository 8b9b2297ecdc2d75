//! Errors raised while a roster is read.

use vstd::prelude::*;
use vstd::string::*;

verus! {

/// What can be wrong with the rows of a roster.
#[derive(Debug)]
pub enum ApplicationError {
    /// The sheet has no header row.
    NoHeaders,
    /// A row is too short to hold the identity of a registrant.
    MisformattedRow,
    /// A cell holds a value that its column does not admit; the text names
    /// the column and, where there is one, the offending value.
    WrongFormat(String),
}

/// Mathematical value of an [`ApplicationError`].
pub enum ApplicationErrorView {
    NoHeaders,
    MisformattedRow,
    WrongFormat(Seq<char>),
}

impl View for ApplicationError {
    type V = ApplicationErrorView;

    open spec fn view(&self) -> ApplicationErrorView {
        match self {
            ApplicationError::NoHeaders => ApplicationErrorView::NoHeaders,
            ApplicationError::MisformattedRow => ApplicationErrorView::MisformattedRow,
            ApplicationError::WrongFormat(detail) => ApplicationErrorView::WrongFormat(detail@),
        }
    }
}

impl DeepView for ApplicationError {
    type V = ApplicationErrorView;

    open spec fn deep_view(&self) -> ApplicationErrorView {
        self@
    }
}

impl ApplicationErrorView {
    /// The sentence shown to a user for this error.
    pub open spec fn message(self) -> Seq<char> {
        match self {
            ApplicationErrorView::NoHeaders => "The file has no header row."@,
            ApplicationErrorView::MisformattedRow => "The row is misformatted."@,
            ApplicationErrorView::WrongFormat(detail) => "A cell has a wrong format: "@ + detail,
        }
    }
}

impl ApplicationError {
    /// The sentence shown to a user for this error.
    pub fn message(&self) -> (r: String)
        ensures
            r@ == self@.message(),
    {
        match self {
            ApplicationError::NoHeaders => String::from_str("The file has no header row."),
            ApplicationError::MisformattedRow => String::from_str("The row is misformatted."),
            ApplicationError::WrongFormat(detail) => {
                let mut text = String::from_str("A cell has a wrong format: ");
                text.append(detail.as_str());
                text
            },
        }
    }
}

impl PartialEq for ApplicationError {
    fn eq(&self, other: &Self) -> (r: bool) {
        match self {
            ApplicationError::NoHeaders => match other {
                ApplicationError::NoHeaders => true,
                _ => false,
            },
            ApplicationError::MisformattedRow => match other {
                ApplicationError::MisformattedRow => true,
                _ => false,
            },
            ApplicationError::WrongFormat(a) => match other {
                ApplicationError::WrongFormat(b) => *a == *b,
                _ => false,
            },
        }
    }
}

impl vstd::std_specs::cmp::PartialEqSpecImpl for ApplicationError {
    open spec fn obeys_eq_spec() -> bool {
        true
    }

    open spec fn eq_spec(&self, other: &Self) -> bool {
        self@ == other@
    }
}

} // verus!
