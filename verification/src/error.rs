//! The failures that the tracker reports to its callers.
use vstd::prelude::*;

verus! {

/// Why an operation on a task or a store did not take place.
#[derive(Debug, PartialEq, Eq)]
pub enum Error {
    /// A task that is done cannot move further forward.
    AlreadyDone,
    /// A task that was abandoned cannot move further back.
    AlreadyWont,
    /// Something outside the tracker failed; the text says what.
    External(String),
    /// No task has the identifier, or the rank, that was asked for.
    NoSuchTask,
}

impl Error {
    /// The sentence that tells a user of the failure.
    pub open spec fn description_text(&self) -> Seq<char> {
        match self {
            Error::AlreadyDone => "The task is already finished"@,
            Error::AlreadyWont => "The task has already been closed"@,
            Error::NoSuchTask => "No such task could be found"@,
            Error::External(_) => "An external error occured"@,
        }
    }

    /// The sentence that tells a user of the failure.
    pub fn description(&self) -> (r: &'static str)
        ensures
            r@ == self.description_text(),
    {
        match self {
            Error::AlreadyDone => "The task is already finished",
            Error::AlreadyWont => "The task has already been closed",
            Error::NoSuchTask => "No such task could be found",
            Error::External(_) => "An external error occured",
        }
    }
}

} // verus!
