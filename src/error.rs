//! The failures that directory operations report.

use vstd::prelude::*;

verus! {

/// Why an account edit was refused, in the order the rules are checked.
#[derive(PartialEq, Eq, Structural, Clone, Copy, Debug)]
pub enum ValidationError {
    MissingName,
    MissingDisplayName,
    MissingPassword,
    PasswordMismatch,
}

/// The text shown for each refusal.
pub open spec fn message_of(e: ValidationError) -> Seq<char> {
    match e {
        ValidationError::MissingName => "Name must be present."@,
        ValidationError::MissingDisplayName => "Display name must be present."@,
        ValidationError::MissingPassword => "Password must be supplied."@,
        ValidationError::PasswordMismatch => "Passwords do not match."@,
    }
}

impl ValidationError {
    /// The human-readable reason.
    pub fn message(&self) -> (r: String)
        ensures
            r@ == message_of(*self),
    {
        match self {
            ValidationError::MissingName => "Name must be present.".to_owned(),
            ValidationError::MissingDisplayName => "Display name must be present.".to_owned(),
            ValidationError::MissingPassword => "Password must be supplied.".to_owned(),
            ValidationError::PasswordMismatch => "Passwords do not match.".to_owned(),
        }
    }
}

/// The outcome of a failed directory or credential operation.
#[derive(PartialEq, Eq, Structural, Clone, Copy, Debug)]
pub enum DirectoryError {
    /// The edit request broke one of the validation rules.
    ValidationFailed(ValidationError),
    /// A stored credential is not a parseable encoded hash.
    MalformedCredential,
    /// The backing file could not be read, parsed or written.
    StoreUnavailable,
    /// The hashing primitive failed; the cryptographic subsystem is unusable.
    HashingFailed,
}

} // verus!
