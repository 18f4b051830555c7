//! The ways in which building a timesheet can fail.

use vstd::prelude::*;
use vstd::string::StringExecFns;

verus! {

/// Why the engine did not deliver a workbook.
#[derive(Clone, Copy, Debug, PartialEq, Eq, Structural)]
pub enum EngineError {
    /// The year lies before the first year the holiday source covers.
    UnsupportedYear,
    /// The holiday source gave no data.
    HolidaySourceUnavailable,
    /// The document sink rejected a write or could not serialise the
    /// workbook.
    SinkWriteFailure,
}

impl EngineError {
    /// The text of the message for each error.
    pub open spec fn message_text(self) -> Seq<char> {
        match self {
            EngineError::UnsupportedYear => "You cant use year lowest than 2017!"@,
            EngineError::HolidaySourceUnavailable => "Cannot fetch holidays from github!"@,
            EngineError::SinkWriteFailure => "Cannot write the table!"@,
        }
    }

    /// A message for the person who asked for the timesheet.
    pub fn message(&self) -> (text: String)
        ensures
            text@ == self.message_text(),
    {
        match self {
            EngineError::UnsupportedYear => String::from_str("You cant use year lowest than 2017!"),
            EngineError::HolidaySourceUnavailable => String::from_str(
                "Cannot fetch holidays from github!",
            ),
            EngineError::SinkWriteFailure => String::from_str("Cannot write the table!"),
        }
    }
}

} // verus!
