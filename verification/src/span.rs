//! Source positions and spans, in characters, line by line.

use vstd::prelude::*;
use crate::ids::LiveFileId;

verus! {

/// A position in source text: zero-based line and column, counted in
/// characters.
#[derive(Clone, Copy, Debug, PartialEq, Eq, Structural)]
pub struct TextPos {
    pub line: usize,
    pub column: usize,
}

impl TextPos {
    pub fn start() -> (r: TextPos)
        ensures
            r.line == 0,
            r.column == 0,
    {
        TextPos { line: 0, column: 0 }
    }
}

/// A half-open region of source text inside one file.
#[derive(Clone, Copy, Debug, PartialEq, Eq, Structural)]
pub struct Span {
    pub file_id: LiveFileId,
    pub start: TextPos,
    pub end: TextPos,
}

impl Span {
    /// The span used where no source region applies, such as on the
    /// end-of-file token.
    pub fn empty(file_id: LiveFileId) -> (r: Span)
        ensures
            r.file_id == file_id,
            r.start.line == 0 && r.start.column == 0,
            r.end.line == 0 && r.end.column == 0,
    {
        Span {
            file_id,
            start: TextPos { line: 0, column: 0 },
            end: TextPos { line: 0, column: 0 },
        }
    }
}

} // verus!
