//! Failures that the codec reports to its caller.

use vstd::prelude::*;

verus! {

/// Why a read could not produce a value.
#[derive(Debug, Clone, Copy, PartialEq, Eq, Structural)]
pub enum Error {
    /// Fewer bytes remain in the source than the operation needs.
    Truncation,
    /// The bytes of a string are not valid UTF-8.
    InvalidEncoding,
}

impl Error {
    /// A short description of the failure.
    pub fn description(&self) -> (r: &'static str)
        ensures
            r@ == (match *self {
                Error::Truncation => "Unexpected end of input"@,
                Error::InvalidEncoding => "Invalid UTF-8 string"@,
            }),
    {
        match self {
            Error::Truncation => "Unexpected end of input",
            Error::InvalidEncoding => "Invalid UTF-8 string",
        }
    }
}

} // verus!
