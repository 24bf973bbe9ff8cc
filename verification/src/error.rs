//! Structured errors carrying the file and source span they arose at.

use vstd::prelude::*;
use crate::span::Span;

verus! {

/// An error inside one file: a malformed lexeme, a grammar violation, or a
/// failed resolution reported during expansion.
#[derive(Debug)]
pub struct LiveError {
    pub span: Span,
    pub message: String,
}

/// A `LiveError` together with the name of the file it arose in, the form
/// handed to callers of registration.
#[derive(Debug)]
pub struct LiveFileError {
    pub file_name: String,
    pub span: Span,
    pub message: String,
}

impl LiveError {
    pub fn new(span: Span, message: &str) -> (r: LiveError)
        ensures
            r.span == span,
            r.message@ == message@,
    {
        LiveError { span, message: message.to_owned() }
    }

    /// Attaches a file name, consuming the error.
    pub fn to_live_file_error(self, file_name: &str) -> (r: LiveFileError)
        ensures
            r.file_name@ == file_name@,
            r.span == self.span,
            r.message == self.message,
    {
        LiveFileError { file_name: file_name.to_owned(), span: self.span, message: self.message }
    }
}

} // verus!
