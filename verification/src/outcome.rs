//! What one pass of the cycle decides, and the two ways a reading can fail.

use vstd::prelude::*;
use vstd::string::StringExecFns;

verus! {

/// Whether the cycle asks for another line or is over.
#[derive(Clone, Copy, Debug, PartialEq, Eq, Structural)]
pub enum LoopOutcome {
    /// Another line is requested.
    Continue,
    /// The cycle has reached its end.
    Terminate,
}

/// Why a reading gave no integer.
#[derive(Clone, Copy, Debug, PartialEq, Eq, Structural)]
pub enum InputError {
    /// The line is not the decimal text of an integer of the expected type.
    InvalidInput,
    /// The line source has nothing more to give.
    EndOfInput,
}

impl InputError {
    /// The text that explains the failure.
    pub open spec fn wording(self) -> Seq<char> {
        match self {
            InputError::InvalidInput => "Enter a number!"@,
            InputError::EndOfInput => "Failed to read line"@,
        }
    }

    /// The text that explains the failure.
    pub fn text(&self) -> (text: String)
        ensures
            text@ == self.wording(),
    {
        match self {
            InputError::InvalidInput => String::from_str("Enter a number!"),
            InputError::EndOfInput => String::from_str("Failed to read line"),
        }
    }
}

} // verus!
