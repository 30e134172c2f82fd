//! The error that evaluation ends with.

use vstd::prelude::*;

verus! {

/// An error met while evaluating: a message for the reader.
#[derive(Debug, PartialEq, Eq)]
pub struct EvaluationError(String);

impl View for EvaluationError {
    type V = Seq<char>;

    /// The error's message.
    closed spec fn view(&self) -> Seq<char> {
        self.0@
    }
}

impl Clone for EvaluationError {
    fn clone(&self) -> (copy: Self)
        ensures
            copy@ == self@,
    {
        EvaluationError(self.0.clone())
    }
}

impl EvaluationError {
    /// An error with the message `msg`.
    pub fn new(msg: String) -> (error: EvaluationError)
        ensures
            error@ == msg@,
    {
        EvaluationError(msg)
    }

    /// The error's message.
    pub fn to_string(&self) -> (text: String)
        ensures
            text@ == self@,
    {
        self.0.clone()
    }
}

} // verus!
