use vstd::prelude::*;

verus! {

/// The kind of failure a fallible operation reports.
#[derive(Debug, PartialEq, Eq, Structural, Clone, Copy)]
pub enum ErrorType {
    /// An unrecognized or unsupported HTTP method string.
    InvalidMethod,
    /// A malformed protocol line, status line, or status code.
    ParserError,
}

/// An error value carrying a kind tag and a human-readable message.
#[derive(Debug, PartialEq, Eq)]
pub struct Error {
    pub err_type: ErrorType,
    pub msg: String,
}

} // verus!
