//! Failure taxonomy for the rating pipeline.

use vstd::prelude::*;

verus! {

/// Everything that can go wrong between a show name and its rating record.
///
/// - `NotFound`: a search produced no candidate result; not retryable.
/// - `ParseError`: scraped markup did not match the expected shape
///   (missing attribute, missing text node, or non-numeric rating text);
///   not retryable.
/// - `TransportError`: a network request failed; possibly transient.
/// - `Timeout`: a network request exceeded its deadline; treated like a
///   transport failure.
#[derive(Clone, Copy, Debug, PartialEq, Eq, Structural)]
pub enum Error {
    NotFound,
    ParseError,
    TransportError,
    Timeout,
}

impl Error {
    /// A short human-readable description, one per variant.
    pub fn describe(&self) -> (r: &'static str)
        ensures
            *self == Error::NotFound ==> r@ == "not found"@,
            *self == Error::ParseError ==> r@ == "parse error"@,
            *self == Error::TransportError ==> r@ == "transport error"@,
            *self == Error::Timeout ==> r@ == "timeout"@,
    {
        match self {
            Error::NotFound => "not found",
            Error::ParseError => "parse error",
            Error::TransportError => "transport error",
            Error::Timeout => "timeout",
        }
    }
}

} // verus!
