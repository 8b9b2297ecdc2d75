//! The closed set of genders a registrant may declare.

use crate::error::ApplicationError;
use crate::error::ApplicationErrorView;
use crate::text::same_text;
use vstd::prelude::*;
use vstd::string::*;

verus! {

/// Gender of a registrant.
#[derive(Debug, Clone, Copy, PartialEq, Eq, Structural, PartialOrd, Ord, Hash)]
pub enum Gender {
    Male,
    Female,
}

/// What reading a gender from `value` gives: one of the two names, spelled
/// exactly, or an error that quotes the value.
pub open spec fn gender_of(value: Seq<char>) -> Result<Gender, ApplicationErrorView> {
    if value == "Male"@ {
        Ok(Gender::Male)
    } else if value == "Female"@ {
        Ok(Gender::Female)
    } else {
        Err(
            ApplicationErrorView::WrongFormat(
                "Gender should be `Male` or `Female`. Got `"@ + value + "` instead."@,
            ),
        )
    }
}

/// View of the outcome of a step that reads a gender.
pub open spec fn gender_outcome(r: Result<Gender, ApplicationError>) -> Result<
    Gender,
    ApplicationErrorView,
> {
    match r {
        Ok(g) => Ok(g),
        Err(e) => Err(e@),
    }
}

impl TryFrom<&String> for Gender {
    type Error = ApplicationError;

    fn try_from(value: &String) -> (r: Result<Self, Self::Error>)
        ensures
            gender_outcome(r) == gender_of(value@),
    {
        if same_text(value.as_str(), "Male") {
            Ok(Gender::Male)
        } else if same_text(value.as_str(), "Female") {
            Ok(Gender::Female)
        } else {
            let mut detail = String::from_str("Gender should be `Male` or `Female`. Got `");
            detail.append(value.as_str());
            detail.append("` instead.");
            Err(ApplicationError::WrongFormat(detail))
        }
    }
}

impl vstd::std_specs::convert::TryFromSpecImpl<&String> for Gender {
    open spec fn obeys_try_from_spec() -> bool {
        false
    }

    open spec fn try_from_spec(value: &String) -> Result<Self, Self::Error> {
        arbitrary()
    }
}

} // verus!
