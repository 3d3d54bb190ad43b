//! Errors of the ledger and identity store, with stable numeric codes.
use vstd::prelude::*;

verus! {

#[derive(Debug, Clone)]
pub enum LedgerError {
    Unauthorized,
    InvalidInitialState { expected: String, actual: String },
    UnknownSymbol,
    InsufficientFunds,
    InvalidAddress,
    InvalidCredentialId,
    RecallPhraseGenerationFailed,
    NotFound,
    DeserializationError,
    Unknown,
}

impl LedgerError {
    /// The wire-stable code of the error.
    pub fn code(&self) -> (r: i64)
        ensures
            r == error_code(*self),
    {
        match self {
            LedgerError::Unknown => 1,
            LedgerError::DeserializationError => 2,
            LedgerError::Unauthorized => 9,
            LedgerError::InvalidInitialState { .. } => 10,
            LedgerError::UnknownSymbol => 11,
            LedgerError::InsufficientFunds => 12,
            LedgerError::InvalidAddress => 13,
            LedgerError::InvalidCredentialId => 14,
            LedgerError::RecallPhraseGenerationFailed => 15,
            LedgerError::NotFound => 16,
        }
    }
}

pub open spec fn error_code(e: LedgerError) -> i64 {
    match e {
        LedgerError::Unknown => 1,
        LedgerError::DeserializationError => 2,
        LedgerError::Unauthorized => 9,
        LedgerError::InvalidInitialState { .. } => 10,
        LedgerError::UnknownSymbol => 11,
        LedgerError::InsufficientFunds => 12,
        LedgerError::InvalidAddress => 13,
        LedgerError::InvalidCredentialId => 14,
        LedgerError::RecallPhraseGenerationFailed => 15,
        LedgerError::NotFound => 16,
    }
}

} // verus!
