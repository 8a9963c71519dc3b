//! The errors of the library.

use vstd::prelude::*;
use vstd::string::*;

verus! {

/// Why the library refused to do something.
#[derive(Debug)]
pub enum SparrowError {
    /// The user gave up on an input.
    InputCanceled,
    /// Any other refusal, with its explanation.
    BasicMessage(String),
    /// A date or a time of day could not be read; the words say why.
    ChronoParse(String),
    /// A schedule was asked for, but there is no task to schedule.
    NoTasks,
    /// A local date and time of day names no instant, or names two, in the
    /// local time zone.
    InvalidTimezoneConversion,
}

pub type SparrowResult<T> = Result<T, SparrowError>;

/// The result is a refusal with the explanation `message`.
pub open spec fn is_refusal<T>(result: Result<T, SparrowError>, message: Seq<char>) -> bool {
    match result {
        Err(SparrowError::BasicMessage(m)) => m@ == message,
        _ => false,
    }
}

impl SparrowError {
    /// What the text of the error says.
    pub open spec fn message_spec(self) -> Seq<char> {
        match self {
            SparrowError::InputCanceled => "input canceled"@,
            SparrowError::BasicMessage(b) => "sparrow hit an error: "@ + b@,
            SparrowError::ChronoParse(e) => e@,
            SparrowError::NoTasks => "sparrow hit an error: can't make a schedule without tasks"@,
            SparrowError::InvalidTimezoneConversion =>
                "sparrow hit an error: a time can't be converted to your local timezone"@,
        }
    }

    /// The text of the error, for people.
    pub fn message(&self) -> (text: String)
        ensures
            text@ == self.message_spec(),
    {
        match self {
            SparrowError::InputCanceled => String::from_str("input canceled"),
            SparrowError::BasicMessage(b) => {
                String::from_str("sparrow hit an error: ").concat(b.as_str())
            },
            SparrowError::ChronoParse(e) => e.clone(),
            SparrowError::NoTasks => String::from_str(
                "sparrow hit an error: can't make a schedule without tasks",
            ),
            SparrowError::InvalidTimezoneConversion => String::from_str(
                "sparrow hit an error: a time can't be converted to your local timezone",
            ),
        }
    }
}

} // verus!
