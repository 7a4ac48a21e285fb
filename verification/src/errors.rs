//! The errors that cross to the host.

use vstd::prelude::*;

verus! {

/// An error that the host binding turns into an exception.
#[derive(Debug, PartialEq, Eq)]
pub enum FFIError {
    /// The socket listener could not be started; this is the text of the
    /// error.
    Uds(String),
    /// Bytes that had to be UTF-8 are not; this is the text of the error.
    Utf8(String),
}

/// An error for the host, with its text as plain characters.
pub enum HostError {
    Uds(Seq<char>),
    Utf8(Seq<char>),
}

impl View for FFIError {
    type V = HostError;

    open spec fn view(&self) -> HostError {
        match self {
            FFIError::Uds(text) => HostError::Uds(text@),
            FFIError::Utf8(text) => HostError::Utf8(text@),
        }
    }
}

} // verus!
