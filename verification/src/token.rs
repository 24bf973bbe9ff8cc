//! Token values.
//!
//! `RawToken` mirrors, one variant per case, what the external lexer
//! recognises for a lexeme, with identifier hashes and float bit patterns as
//! plain values.  `LiveToken` is the form stored in a file's token stream:
//! trivia is dropped, string bodies live out of line in the file's character
//! pool, and an explicit end-of-file token closes every stream.

use vstd::prelude::*;
use crate::span::Span;

verus! {

/// A bracketing delimiter kind.
#[derive(Clone, Copy, Debug, PartialEq, Eq, Structural)]
pub enum DelimKind {
    Paren,
    Bracket,
    Brace,
}

/// One lexeme kind as the external lexer reports it.  `Float` carries the
/// bit pattern of the literal's value; `Str` carries no text, the lexeme's
/// span does.  `Trivia` is whitespace or a comment; `Invalid` is a lexeme no
/// token can be made of (unknown character, malformed number, lifetime).
#[derive(Clone, Copy, Debug, PartialEq, Eq, Structural)]
pub enum RawToken {
    Punct(u64),
    Ident(u64),
    Open(DelimKind),
    Close(DelimKind),
    Str,
    Bool(bool),
    Color(u32),
    Float(u64),
    Int(i64),
    Trivia,
    Invalid,
}

/// A lexeme: its kind and its length in characters, as consumed from the
/// source line, quotes and trivia included.
#[derive(Clone, Copy, Debug, PartialEq, Eq, Structural)]
pub struct RawLexeme {
    pub len: usize,
    pub token: RawToken,
}

/// A token as stored in a file's token stream.  A string token holds only an
/// offset and length into the file's character pool.
#[derive(Clone, Copy, Debug, PartialEq, Eq, Structural)]
pub enum LiveToken {
    Punct(u64),
    Ident(u64),
    Open(DelimKind),
    Close(DelimKind),
    Str { index: usize, len: usize },
    Bool(bool),
    Color(u32),
    Float(u64),
    Int(i64),
    Eof,
}

/// A token with the source span it was read from.
#[derive(Clone, Copy, Debug, PartialEq, Eq, Structural)]
pub struct TokenWithSpan {
    pub span: Span,
    pub token: LiveToken,
}

impl LiveToken {
    /// Two tokens parse alike: exchanging one for the other cannot change
    /// the shape of a parse.  Identifiers and punctuation take part in
    /// grammar decisions, so they must match exactly; for the literal kinds
    /// only the kind matters, the carried value may differ.
    pub open spec fn spec_parse_equal(self, other: LiveToken) -> bool {
        match (self, other) {
            (LiveToken::Punct(a), LiveToken::Punct(b)) => a == b,
            (LiveToken::Ident(a), LiveToken::Ident(b)) => a == b,
            (LiveToken::Open(a), LiveToken::Open(b)) => a == b,
            (LiveToken::Close(a), LiveToken::Close(b)) => a == b,
            (LiveToken::Str { .. }, LiveToken::Str { .. }) => true,
            (LiveToken::Bool(_), LiveToken::Bool(_)) => true,
            (LiveToken::Color(_), LiveToken::Color(_)) => true,
            (LiveToken::Float(_), LiveToken::Float(_)) => true,
            (LiveToken::Int(_), LiveToken::Int(_)) => true,
            (LiveToken::Eof, LiveToken::Eof) => true,
            _ => false,
        }
    }

    pub fn parse_equal(&self, other: &LiveToken) -> (r: bool)
        ensures
            r == self.spec_parse_equal(*other),
    {
        match (self, other) {
            (LiveToken::Punct(a), LiveToken::Punct(b)) => a == b,
            (LiveToken::Ident(a), LiveToken::Ident(b)) => a == b,
            (LiveToken::Open(a), LiveToken::Open(b)) => a == b,
            (LiveToken::Close(a), LiveToken::Close(b)) => a == b,
            (LiveToken::Str { .. }, LiveToken::Str { .. }) => true,
            (LiveToken::Bool(_), LiveToken::Bool(_)) => true,
            (LiveToken::Color(_), LiveToken::Color(_)) => true,
            (LiveToken::Float(_), LiveToken::Float(_)) => true,
            (LiveToken::Int(_), LiveToken::Int(_)) => true,
            (LiveToken::Eof, LiveToken::Eof) => true,
            _ => false,
        }
    }

    pub open spec fn spec_is_ident(self) -> bool {
        self is Ident
    }

    pub fn is_ident(&self) -> (r: bool)
        ensures
            r == self.spec_is_ident(),
    {
        match self {
            LiveToken::Ident(_) => true,
            _ => false,
        }
    }

    pub open spec fn spec_is_punct_id(self, id: u64) -> bool {
        self == LiveToken::Punct(id)
    }

    pub fn is_punct_id(&self, id: u64) -> (r: bool)
        ensures
            r == self.spec_is_punct_id(id),
    {
        match self {
            LiveToken::Punct(p) => *p == id,
            _ => false,
        }
    }

    pub open spec fn spec_is_open_brace(self) -> bool {
        self == LiveToken::Open(DelimKind::Brace)
    }

    pub fn is_open_brace(&self) -> (r: bool)
        ensures
            r == self.spec_is_open_brace(),
    {
        match self {
            LiveToken::Open(DelimKind::Brace) => true,
            _ => false,
        }
    }

    pub open spec fn spec_is_int(self) -> bool {
        self is Int
    }

    pub fn is_int(&self) -> (r: bool)
        ensures
            r == self.spec_is_int(),
    {
        match self {
            LiveToken::Int(_) => true,
            _ => false,
        }
    }
}

/// What a non-string, non-trivia lexeme becomes in the token stream.
/// `None` for trivia, for invalid lexemes, and for strings, whose pool
/// bookkeeping the tokenizer does itself.
pub open spec fn spec_live_token_of_raw(raw: RawToken) -> Option<LiveToken> {
    match raw {
        RawToken::Punct(id) => Some(LiveToken::Punct(id)),
        RawToken::Ident(id) => Some(LiveToken::Ident(id)),
        RawToken::Open(d) => Some(LiveToken::Open(d)),
        RawToken::Close(d) => Some(LiveToken::Close(d)),
        RawToken::Bool(b) => Some(LiveToken::Bool(b)),
        RawToken::Color(c) => Some(LiveToken::Color(c)),
        RawToken::Float(f) => Some(LiveToken::Float(f)),
        RawToken::Int(i) => Some(LiveToken::Int(i)),
        RawToken::Str => None,
        RawToken::Trivia => None,
        RawToken::Invalid => None,
    }
}

pub fn live_token_of_raw(raw: &RawToken) -> (r: Option<LiveToken>)
    ensures
        r == spec_live_token_of_raw(*raw),
{
    match raw {
        RawToken::Punct(id) => Some(LiveToken::Punct(*id)),
        RawToken::Ident(id) => Some(LiveToken::Ident(*id)),
        RawToken::Open(d) => Some(LiveToken::Open(*d)),
        RawToken::Close(d) => Some(LiveToken::Close(*d)),
        RawToken::Bool(b) => Some(LiveToken::Bool(*b)),
        RawToken::Color(c) => Some(LiveToken::Color(*c)),
        RawToken::Float(f) => Some(LiveToken::Float(*f)),
        RawToken::Int(i) => Some(LiveToken::Int(*i)),
        RawToken::Str => None,
        RawToken::Trivia => None,
        RawToken::Invalid => None,
    }
}

} // verus!
