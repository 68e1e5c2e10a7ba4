//! The error type of the front end.

use vstd::prelude::*;

use crate::span::Span;

verus! {

/// An error from lexing, parsing or a later static stage. At most one is
/// reported per input: processing stops at the first error.
#[derive(Debug, Clone, PartialEq)]
pub struct ParseError {
    /// Human-readable, single-line message.
    pub message: String,
    /// Source span the error attaches to. For unexpected end of input this
    /// is a zero-length span at the end of the file.
    pub span: Span,
}

impl ParseError {
    /// The text shown for the error: its message.
    pub fn to_string(&self) -> (s: String)
        ensures
            s@ == self.message@,
    {
        self.message.clone()
    }
}

} // verus!
