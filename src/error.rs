use vstd::prelude::*;

verus! {

/// The kind of a parse or extraction failure.
#[derive(Debug, Clone, PartialEq, Eq)]
pub enum ErrorType {
    /// A malformed or out-of-range number literal.
    Syntax,
    /// The cursor ran past the end of the tape.
    UnexpectedEnd,
    /// A typed extraction wanted an unsigned integer of some width.
    ExpectedUnsigned,
    /// A typed extraction wanted a signed integer of some width.
    ExpectedSigned,
    /// A typed extraction wanted a number that widens to floating point.
    ExpectedFloat,
    /// Reading the input failed; the message describes the failure.
    IO(String),
}

/// A parse or extraction failure, with the tape position where it arose.
#[derive(Debug, Clone, PartialEq, Eq)]
pub struct Error {
    pub index: usize,
    pub error: ErrorType,
}

impl Error {
    /// A failure at the given tape position.
    pub fn new(index: usize, error: ErrorType) -> (r: Error)
        ensures
            r.index == index,
            r.error == error,
    {
        Error { index, error }
    }

    /// A failure that belongs to no tape position.
    pub fn generic(error: ErrorType) -> (r: Error)
        ensures
            r.index == 0,
            r.error == error,
    {
        Error { index: 0, error }
    }
}

} // verus!
