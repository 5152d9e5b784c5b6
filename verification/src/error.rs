//! The failures that the history's operations report.

use vstd::prelude::*;

verus! {

/// Why an operation on the history did not succeed.
#[derive(Clone, Copy, Debug, PartialEq, Eq, Structural)]
pub enum AppError {
    /// No row has the id that was asked for.
    NotFound,
    /// A payload is too long for the cipher to seal.
    Encryption,
    /// A stored token is not hexadecimal text, is too short to hold a nonce,
    /// does not open under the key, or opens to bytes that are not UTF-8.
    Decryption,
    /// The largest id has been handed out: no further row can be created.
    IdsExhausted,
    /// Rows offered at construction break the table's rules.
    InvalidRows,
}

impl AppError {
    /// The words that stand for this failure.
    pub open spec fn description(self) -> Seq<char> {
        match self {
            AppError::NotFound => "no clipboard item has this id"@,
            AppError::Encryption => "content is too long to be encrypted"@,
            AppError::Decryption => "stored content could not be decrypted"@,
            AppError::IdsExhausted => "no further row id is available"@,
            AppError::InvalidRows => "stored rows break the table's constraints"@,
        }
    }

    /// A short description for logs and for the interface.
    pub fn message(&self) -> (text: String)
        ensures
            text@ == self.description(),
    {
        match self {
            AppError::NotFound => "no clipboard item has this id".to_owned(),
            AppError::Encryption => "content is too long to be encrypted".to_owned(),
            AppError::Decryption => "stored content could not be decrypted".to_owned(),
            AppError::IdsExhausted => "no further row id is available".to_owned(),
            AppError::InvalidRows => "stored rows break the table's constraints".to_owned(),
        }
    }
}

} // verus!
