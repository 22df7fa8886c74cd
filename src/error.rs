//! The error type of the library's fallible operations.
use vstd::prelude::*;
use vstd::string::StringExecFns;

verus! {

/// Errors of fallible operations.
#[derive(Debug, Clone, PartialEq, Eq)]
pub enum Error {
    /// The arguments of a function or method are invalid; the message says how.
    InvalidArguments(String),
}

/// The result of a fallible operation of this library.
pub type Result<T> = core::result::Result<T, Error>;

impl Error {
    /// Text that describes the error: `Invalid arguments: ` and the message.
    pub fn to_string(&self) -> (r: String)
        ensures
            match self {
                Error::InvalidArguments(msg) => r@ == "Invalid arguments: "@ + msg@,
            },
    {
        match self {
            Error::InvalidArguments(msg) => String::from_str("Invalid arguments: ").concat(msg.as_str()),
        }
    }
}

} // verus!
