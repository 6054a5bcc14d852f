//! The kinds of failure that the service reports, and how each is surfaced.

use vstd::prelude::*;

verus! {

/// The taxonomy of failures.
#[derive(Debug, Clone, Copy, PartialEq, Eq, Structural)]
pub enum ErrorKind {
    /// The session is missing or invalid.
    Unauthorized,
    /// The caller is known but lacks the right.
    Forbidden,
    /// The target does not exist.
    NotFound,
    /// The write would duplicate what must be unique.
    Conflict,
    /// The input is empty, oversized or malformed.
    Validation,
    /// The request cannot be answered without more from the caller.
    BadRequest,
    /// The store or the transaction failed.
    Internal,
}

impl ErrorKind {
    /// The HTTP status that reports the kind.
    pub open spec fn status_spec(self) -> u16 {
        match self {
            ErrorKind::Unauthorized => 401,
            ErrorKind::Forbidden => 403,
            ErrorKind::NotFound => 404,
            ErrorKind::Conflict => 409,
            ErrorKind::Validation => 400,
            ErrorKind::BadRequest => 400,
            ErrorKind::Internal => 500,
        }
    }

    pub fn status(&self) -> (r: u16)
        ensures
            r == self.status_spec(),
    {
        match self {
            ErrorKind::Unauthorized => 401,
            ErrorKind::Forbidden => 403,
            ErrorKind::NotFound => 404,
            ErrorKind::Conflict => 409,
            ErrorKind::Validation => 400,
            ErrorKind::BadRequest => 400,
            ErrorKind::Internal => 500,
        }
    }

    /// Whether the failure is detected before any transaction is opened.
    /// Validation and authorization failures are; storage failures abort an
    /// open transaction.
    pub open spec fn precedes_transaction_spec(self) -> bool {
        self == ErrorKind::Unauthorized || self == ErrorKind::Forbidden || self
            == ErrorKind::Validation || self == ErrorKind::BadRequest
    }

    pub fn precedes_transaction(&self) -> (r: bool)
        ensures
            r == self.precedes_transaction_spec(),
    {
        match self {
            ErrorKind::Unauthorized => true,
            ErrorKind::Forbidden => true,
            ErrorKind::Validation => true,
            ErrorKind::BadRequest => true,
            _ => false,
        }
    }
}

} // verus!
