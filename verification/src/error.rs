use vstd::prelude::*;

verus! {

/// The ways in which an operation of this library can fail.
#[derive(Debug, Clone, PartialEq, Eq)]
pub enum Error {
    /// A contract class lacks a required part, or a part has the wrong shape.
    MalformedClass { msg: String },
    /// A text or a number does not encode what it should: a hex string with
    /// bad syntax, too many digits or a number not below the prime; for a key
    /// or an address, a field element not below `2^251`.
    InvalidFeltEncoding,
    /// A contract was deployed against a class hash that was never declared.
    ClassNotDeclared,
    /// An underlying primitive failed; the message is the primitive's own.
    UnexpectedInternalError { msg: String },
}

pub type DevnetResult<T> = Result<T, Error>;

} // verus!
