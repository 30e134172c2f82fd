//! The error that parsing ends with.

use vstd::prelude::*;

verus! {

/// An error met while parsing: a message for the reader.
#[derive(Debug, PartialEq, Eq)]
pub struct ParserError(String);

impl View for ParserError {
    type V = Seq<char>;

    /// The error's message.
    closed spec fn view(&self) -> Seq<char> {
        self.0@
    }
}

impl Clone for ParserError {
    fn clone(&self) -> (copy: Self)
        ensures
            copy@ == self@,
    {
        ParserError(self.0.clone())
    }
}

impl ParserError {
    /// An error with the message `msg`.
    pub fn new(msg: String) -> (error: ParserError)
        ensures
            error@ == msg@,
    {
        ParserError(msg)
    }

    /// The error's message.
    pub fn to_string(&self) -> (text: String)
        ensures
            text@ == self@,
    {
        self.0.clone()
    }
}

} // verus!
