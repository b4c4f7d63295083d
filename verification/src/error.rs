//! Error types.

use crate::source::Span;
use vstd::prelude::*;

verus! {

/// An error with a message.
#[derive(Debug)]
pub struct Error {
    message: &'static str,
}

impl Error {
    /// The message that the error carries.
    pub closed spec fn message(&self) -> &'static str {
        self.message
    }

    /// Build an error with the given message.
    pub fn new(message: &'static str) -> (r: Error)
        ensures
            r.message() == message,
    {
        Error { message }
    }
}

impl From<&'static str> for Error {
    fn from(message: &'static str) -> (r: Error) {
        Error { message }
    }
}

impl vstd::std_specs::convert::FromSpecImpl<&'static str> for Error {
    open spec fn obeys_from_spec() -> bool {
        true
    }

    closed spec fn from_spec(message: &'static str) -> Error {
        Error { message }
    }
}

/// An error converted from a message carries that message, as one built by
/// `Error::new` does.
pub proof fn lemma_from_message(message: &'static str)
    ensures
        <Error as vstd::std_specs::convert::FromSpec<&'static str>>::from_spec(message).message()
            == message,
        <Error as vstd::std_specs::convert::FromSpec<&'static str>>::obeys_from_spec(),
{
}

/// A syntax error that causes lexing or parsing to fail.
#[derive(Debug)]
pub struct ParseError {
    /// Where the error is.
    pub span: Span,
    /// What is wrong.
    pub message: &'static str,
    /// A second location that explains the error, with its message.
    pub note: Option<(&'static str, Span)>,
}

} // verus!
