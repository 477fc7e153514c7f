//! The error value that every fallible codec operation returns.

use vstd::prelude::*;

verus! {

/// What went wrong while moving a geometry across a byte stream.
///
/// `Read` covers malformed or truncated input (a short buffer, an
/// unsupported type code, an unterminated varint); `Write` covers failures
/// while emitting bytes; `Other` is anything not classifiable. Each variant
/// carries a diagnostic string.
#[derive(Debug)]
pub enum Error {
    Read(String),
    Write(String),
    Other(String),
}

impl Error {
    /// A short, fixed description of the error kind.
    pub fn description(&self) -> (r: &str)
        ensures
            self is Read ==> r@ == "postgis error while reading"@,
            self is Write ==> r@ == "postgis error while writing"@,
            self is Other ==> r@ == "postgis unknown error"@,
    {
        match self {
            Error::Read(_) => "postgis error while reading",
            Error::Write(_) => "postgis error while writing",
            Error::Other(_) => "postgis unknown error",
        }
    }
}

} // verus!
