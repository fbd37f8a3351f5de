//! Error taxonomy: construction-time errors stay on the client side and are
//! reported before anything is signed; apply-time errors surface as a rejected
//! transaction.

use vstd::prelude::*;

verus! {

/// A required field was missing or malformed while constructing an action,
/// payload or transaction. Reported to the caller before anything is signed.
#[derive(Debug, Clone, PartialEq, Eq)]
pub enum BuildError {
    MissingField(String),
    InvalidField(String),
}

/// The signing key was unavailable or malformed; fatal for the build attempt.
#[derive(Debug, Clone, PartialEq, Eq)]
pub enum SigningError {
    InvalidKey,
}

/// Payload bytes received from outside do not match the canonical encoding.
#[derive(Debug, Clone, PartialEq, Eq)]
pub enum DecodeError {
    Malformed,
}

/// A semantic rule was violated during ledger-side validation or apply.
/// The message is opaque diagnostic text, not a programmatic signal.
#[derive(Debug, Clone, PartialEq, Eq)]
pub enum ApplyError {
    InvalidTransaction(String),
}

impl ApplyError {
    /// The diagnostic text carried by this rejection.
    pub fn message(&self) -> (r: &String)
        ensures
            *r == self->InvalidTransaction_0,
    {
        match self {
            ApplyError::InvalidTransaction(m) => m,
        }
    }
}

/// A failure while interpreting parsed document values as domain input.
#[derive(Debug, Clone, PartialEq, Eq)]
pub enum ParseError {
    InvalidYaml(String),
    Payload(String),
}

/// The whole client-side error surface: every construction failure, reported
/// to the caller before anything is submitted.
#[derive(Debug, Clone, PartialEq, Eq)]
pub enum ClientError {
    Build(BuildError),
    Signing(SigningError),
    Parse(ParseError),
}

} // verus!
