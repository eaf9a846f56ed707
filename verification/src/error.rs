//! The error that every fallible operation of the library returns.

use vstd::prelude::*;
use vstd::string::StringExecFns;

verus! {

/// Why an operation was refused.
///
/// The format is so simple that it has only two failure modes, and both are
/// reported as invalid data: a malformed or truncated byte stream, and
/// dimensions whose byte stream would not fit in the address space.
#[derive(Debug, PartialEq, Eq)]
pub enum FarbfeldError {
    /// The input does not describe an image: wrong magic, truncated body,
    /// dimensions that overflow `usize`, or a row or pixel count mismatch.
    InvalidData(String),
}

impl FarbfeldError {
    /// The message that the error carries.
    pub open spec fn text(self) -> Seq<char> {
        match self {
            FarbfeldError::InvalidData(s) => s@,
        }
    }

    /// An [`FarbfeldError::InvalidData`] with the given message.
    pub fn invalid(msg: String) -> (r: Self)
        ensures
            r == FarbfeldError::InvalidData(msg),
            r.text() == msg@,
    {
        FarbfeldError::InvalidData(msg)
    }

    /// The error as one line for a reader: the message behind `invalid data: `.
    pub fn describe(&self) -> (r: String)
        ensures
            r@ == "invalid data: "@ + self.text(),
    {
        let mut out = String::from_str("invalid data: ");
        match self {
            FarbfeldError::InvalidData(s) => {
                out.append(s.as_str());
            },
        }
        out
    }
}

impl Clone for FarbfeldError {
    /// The same error again.
    fn clone(&self) -> (r: Self)
        ensures
            r.text() == self.text(),
    {
        match self {
            FarbfeldError::InvalidData(s) => FarbfeldError::InvalidData(s.clone()),
        }
    }
}

/// What an operation returned, with an error seen as the message it carries.
pub open spec fn outcome<T>(r: Result<T, FarbfeldError>) -> Result<T, Seq<char>> {
    match r {
        Ok(v) => Ok(v),
        Err(e) => Err(e.text()),
    }
}

/// What an operation returned, with a result seen as its view and an error as
/// the message it carries.
pub open spec fn viewed_outcome<T: View>(r: Result<T, FarbfeldError>) -> Result<T::V, Seq<char>> {
    match r {
        Ok(v) => Ok(v@),
        Err(e) => Err(e.text()),
    }
}

} // verus!
