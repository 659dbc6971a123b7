//! What can go wrong in a ledger operation.

use vstd::prelude::*;
use vstd::string::StringExecFns;

verus! {

/// The reason a ledger operation was refused.
#[derive(Clone, Copy, Debug, PartialEq, Eq, Structural)]
pub enum LedgerError {
    /// No card with the given id belongs to the requester.
    NotFound,
    /// The card has no running state to update.
    MissingState,
    /// The reported total is not admitted by the monotonicity policy.
    StaleTransaction,
    /// The store could not carry out a step.
    Persistence,
}

/// The class of a refusal, which decides how it is shown to the caller.
#[derive(Clone, Copy, Debug, PartialEq, Eq, Structural)]
pub enum ErrorKind {
    /// Ownership mismatch or card not found.
    Validation,
    /// The conditional balance update was rejected.
    Consistency,
    /// A storage operation failed.
    Persistence,
}

impl LedgerError {
    /// The class each refusal belongs to.
    pub open spec fn spec_kind(self) -> ErrorKind {
        match self {
            LedgerError::NotFound => ErrorKind::Validation,
            LedgerError::MissingState => ErrorKind::Consistency,
            LedgerError::StaleTransaction => ErrorKind::Consistency,
            LedgerError::Persistence => ErrorKind::Persistence,
        }
    }

    /// The status a refusal is answered with: not found, conflict, or
    /// internal error.
    pub open spec fn spec_status(self) -> u16 {
        match self {
            LedgerError::NotFound => 404,
            LedgerError::MissingState => 409,
            LedgerError::StaleTransaction => 409,
            LedgerError::Persistence => 500,
        }
    }

    /// The class of this refusal.
    #[verifier::when_used_as_spec(spec_kind)]
    pub fn kind(self) -> (k: ErrorKind)
        ensures
            k == self.spec_kind(),
    {
        match self {
            LedgerError::NotFound => ErrorKind::Validation,
            LedgerError::MissingState => ErrorKind::Consistency,
            LedgerError::StaleTransaction => ErrorKind::Consistency,
            LedgerError::Persistence => ErrorKind::Persistence,
        }
    }

    /// The status this refusal is answered with.
    #[verifier::when_used_as_spec(spec_status)]
    pub fn status(self) -> (code: u16)
        ensures
            code == self.spec_status(),
    {
        match self {
            LedgerError::NotFound => 404,
            LedgerError::MissingState => 409,
            LedgerError::StaleTransaction => 409,
            LedgerError::Persistence => 500,
        }
    }
}

/// The reason given to the caller for a refusal. `action` names what was
/// asked of the card.
pub open spec fn refusal_text(error: LedgerError, action: Seq<char>) -> Seq<char> {
    match error {
        LedgerError::NotFound => "Card not found or you don't have permission to "@ + action
            + " it"@,
        LedgerError::MissingState => "Card has no running state"@,
        LedgerError::StaleTransaction => "Reported total is below the current balance"@,
        LedgerError::Persistence => "Storage operation failed"@,
    }
}

/// A refusal as it is answered: a status and a reason in words.
#[derive(Debug)]
pub struct AppError(pub u16, pub String);

impl AppError {
    /// The answer to the refusal `error` of the action `action`.
    pub fn refusing(error: LedgerError, action: &str) -> (answer: AppError)
        ensures
            answer.0 == error.status(),
            answer.1@ == refusal_text(error, action@),
    {
        let text = match error {
            LedgerError::NotFound => {
                let mut text = String::from_str("Card not found or you don't have permission to ");
                text.append(action);
                text.append(" it");
                text
            },
            LedgerError::MissingState => String::from_str("Card has no running state"),
            LedgerError::StaleTransaction => String::from_str(
                "Reported total is below the current balance",
            ),
            LedgerError::Persistence => String::from_str("Storage operation failed"),
        };
        AppError(error.status(), text)
    }
}

} // verus!
