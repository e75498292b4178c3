//! The errors that the library reports.
use vstd::prelude::*;
use crate::registry::RegistryCheckResult;

verus! {

/// Why an operation failed.
#[derive(Debug)]
pub enum CaptchaError {
    /// The caller gave a malformed id or an out-of-range guess.
    InvalidInput(String),
    /// A source photograph could not be decoded.
    Decode(String),
    /// The sprite could not be encoded.
    Encode(String),
    /// The registry refused the challenge.
    Registry(RegistryCheckResult),
    /// An internal invariant did not hold.
    Internal(String),
}

} // verus!
