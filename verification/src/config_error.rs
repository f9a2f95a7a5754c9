//! Errors of configuration loading and parsing.

use vstd::prelude::*;

verus! {

/// What went wrong with a configuration.
#[derive(Debug, Clone, Copy, PartialEq, Eq, Structural)]
pub enum ErrorKind {
    /// Reading the file failed.
    IOError,
    /// A listen address did not parse.
    AddrError,
    /// A section header names no known section.
    InvalidSection,
    /// A key/value line stands outside any section.
    InvalidKey,
}

/// A configuration error: its kind and a short text for logs.
#[derive(Debug)]
pub struct Error {
    pub kind: ErrorKind,
    pub message: &'static str,
}

impl Error {
    pub fn new(kind: ErrorKind, message: &'static str) -> (r: Error)
        ensures
            r.kind == kind,
            r.message == message,
    {
        Error { kind, message }
    }
}

} // verus!
