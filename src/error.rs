use vstd::prelude::*;

verus! {

/// Failures that an operation of the coordinator reports to its caller.
/// Each carries the identifier that the failure is about.
#[derive(Debug, Clone, PartialEq, Eq)]
pub enum AppError {
    /// An identity that must be unique is taken (a wallet id, a `tx_id`).
    Conflict(String),
    /// The wallet or proposal that was referenced does not exist.
    NotFound(String),
    /// The proposal has left `Pending`: no more signatures are taken.
    NotPending(String),
    /// The actor is not a participant of the wallet.
    NotParticipant(String),
    /// The operation is not legal in the proposal's current status.
    InvalidState(String),
    /// The signer has already signed this proposal.
    AlreadySigned(String),
    /// A value from outside could not be read (an unknown status name).
    InvalidInput(String),
}

impl AppError {
    /// A short machine-readable code for the kind of failure.
    pub fn code(&self) -> (r: &'static str)
        ensures
            r@ == self.code_spec(),
    {
        match self {
            AppError::Conflict(_) => "CONFLICT",
            AppError::NotFound(_) => "NOT_FOUND",
            AppError::NotPending(_) => "INVALID_STATE",
            AppError::InvalidState(_) => "INVALID_STATE",
            AppError::NotParticipant(_) => "NOT_PARTICIPANT",
            AppError::AlreadySigned(_) => "ALREADY_SIGNED",
            AppError::InvalidInput(_) => "INVALID_INPUT",
        }
    }

    pub open spec fn code_spec(&self) -> Seq<char> {
        match self {
            AppError::Conflict(_) => "CONFLICT"@,
            AppError::NotFound(_) => "NOT_FOUND"@,
            AppError::NotPending(_) => "INVALID_STATE"@,
            AppError::InvalidState(_) => "INVALID_STATE"@,
            AppError::NotParticipant(_) => "NOT_PARTICIPANT"@,
            AppError::AlreadySigned(_) => "ALREADY_SIGNED"@,
            AppError::InvalidInput(_) => "INVALID_INPUT"@,
        }
    }

    /// The identifier or value that the failure is about.
    pub fn subject(&self) -> (r: &String)
        ensures
            *r == self.subject_spec(),
    {
        match self {
            AppError::Conflict(s) => s,
            AppError::NotFound(s) => s,
            AppError::NotPending(s) => s,
            AppError::InvalidState(s) => s,
            AppError::NotParticipant(s) => s,
            AppError::AlreadySigned(s) => s,
            AppError::InvalidInput(s) => s,
        }
    }

    pub open spec fn subject_spec(&self) -> String {
        match self {
            AppError::Conflict(s) => *s,
            AppError::NotFound(s) => *s,
            AppError::NotPending(s) => *s,
            AppError::InvalidState(s) => *s,
            AppError::NotParticipant(s) => *s,
            AppError::AlreadySigned(s) => *s,
            AppError::InvalidInput(s) => *s,
        }
    }
}

} // verus!
