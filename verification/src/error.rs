//! The ways in which one invocation can fail.

use vstd::prelude::*;

verus! {

/// Why an invocation could not be carried through. Nothing is retried:
/// every error ends the invocation it arose in.
#[derive(Clone, Copy, Debug, PartialEq, Eq, Structural)]
pub enum Error {
    /// A string that the launcher always hands over is missing.
    Config,
    /// A selector, a timestamp or a document of the task store is malformed.
    Format,
    /// A token is not one that this library wrote.
    Decode,
    /// The task store knows no task of the number asked for.
    NotFound,
    /// A command of the task store could not be started, or failed.
    ExternalTool,
    /// A token was handed over, or was missing, where the step taken
    /// cannot work with that.
    InvalidInput,
}

impl Error {
    /// A short description for a log line or a warning row.
    pub fn to_string(&self) -> (text: String)
        ensures
            text@ == self.message(),
    {
        match self {
            Error::Config => "the launcher's environment is incomplete".to_owned(),
            Error::Format => "malformed input".to_owned(),
            Error::Decode => "unreadable token".to_owned(),
            Error::NotFound => "no such task".to_owned(),
            Error::ExternalTool => "the task store failed".to_owned(),
            Error::InvalidInput => "nothing to act on".to_owned(),
        }
    }

    /// What `to_string` returns.
    pub open spec fn message(&self) -> Seq<char> {
        match self {
            Error::Config => "the launcher's environment is incomplete"@,
            Error::Format => "malformed input"@,
            Error::Decode => "unreadable token"@,
            Error::NotFound => "no such task"@,
            Error::ExternalTool => "the task store failed"@,
            Error::InvalidInput => "nothing to act on"@,
        }
    }
}

} // verus!
