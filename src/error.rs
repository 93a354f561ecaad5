//! The ways an operation of the library can refuse its input.

use vstd::prelude::*;

verus! {

/// Why an operation did not produce a value.
#[derive(Clone, Copy, Debug, PartialEq, Eq, Structural)]
pub enum JournalError {
    /// Nothing is stored under the name or date asked for; a normal outcome.
    NotFound,
    /// The input asks for something that the entry's current text does not allow.
    Rejected,
    /// A folder that should be named by a year is not.
    InvalidYearFolder,
}

impl JournalError {
    /// A sentence for the user.
    pub fn message(&self) -> (r: String)
        ensures
            r@ == match self {
                JournalError::NotFound => "There are no journals."@,
                JournalError::Rejected => "Can't use '~' when there aren't any entries"@,
                JournalError::InvalidYearFolder => "Folders in the journal root must all be years"@,
            },
    {
        match self {
            JournalError::NotFound => "There are no journals.".to_owned(),
            JournalError::Rejected => "Can't use '~' when there aren't any entries".to_owned(),
            JournalError::InvalidYearFolder => "Folders in the journal root must all be years".to_owned(),
        }
    }
}

} // verus!
