//! The stages of an exchange and the ways in which a command can fail.

use vstd::prelude::*;

verus! {

/// The phase that an exchange is in.
#[derive(Debug, Clone, Copy, PartialEq, Eq, Structural)]
pub enum Stage {
    /// Participants hand in their sets.
    Submission,
    /// Participants vote on the sets of the others.
    Voting,
    /// Assignments have been computed and may still be tuned.
    Selection,
    /// Assignments are final; nothing changes any more.
    Frozen,
}

/// Why a command was refused. Every refusal leaves the exchange as it was.
#[derive(Debug, Clone, Copy, PartialEq, Eq, Structural)]
pub enum ExchangeError {
    /// No exchange has the given id, or no ballot the given voter.
    NotFound,
    /// The secret does not match.
    Unauthorized,
    /// The command is not legal in the exchange's current stage.
    InvalidState,
    /// The requested stage cannot be reached from the current one, or is the
    /// current one.
    InvalidTransition,
    /// The exchange is frozen.
    Locked,
    /// A required input is empty or out of range.
    ValidationError,
}

impl ExchangeError {
    /// The status code that tells a client of the refusal.
    pub open spec fn spec_status_code(self) -> u16 {
        match self {
            ExchangeError::NotFound => 404,
            ExchangeError::Unauthorized => 401,
            ExchangeError::Locked => 423,
            ExchangeError::InvalidState => 400,
            ExchangeError::InvalidTransition => 400,
            ExchangeError::ValidationError => 400,
        }
    }

    /// The status code that tells a client of the refusal.
    pub fn status_code(&self) -> (code: u16)
        ensures
            code == self.spec_status_code(),
    {
        match self {
            ExchangeError::NotFound => 404,
            ExchangeError::Unauthorized => 401,
            ExchangeError::Locked => 423,
            _ => 400,
        }
    }
}

} // verus!
