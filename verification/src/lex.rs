//! The boundary to the external lexical state machine.
//!
//! Character classification is delegated to `makepad_live_tokenizer`: its
//! `State::next` consumes one lexeme from a line of characters and reports
//! its kind and length.  This module declares that machine's state type,
//! wraps the single call into it, and builds on top the verified loop that
//! lexes a whole line.

use vstd::prelude::*;
use makepad_live_tokenizer::{Cursor, State, TokenWithLen};
use makepad_live_tokenizer::FullToken as FT;
use crate::token::{DelimKind, RawLexeme, RawToken};
use crate::token::RawToken as RT;

verus! {

#[verifier::external_type_specification]
#[verifier::external_body]
pub struct ExState(State);

#[verifier::external_type_specification]
pub struct ExDelim(makepad_live_tokenizer::Delim);

#[verifier::external_type_specification]
#[verifier::external_body]
pub struct ExTokenWithLen(TokenWithLen);

/// The lexer's delimiter kinds as this crate's own.
fn delim_of(d: makepad_live_tokenizer::Delim) -> (r: DelimKind)
    ensures
        r == (match d {
            makepad_live_tokenizer::Delim::Paren => DelimKind::Paren,
            makepad_live_tokenizer::Delim::Bracket => DelimKind::Bracket,
            makepad_live_tokenizer::Delim::Brace => DelimKind::Brace,
        }),
{
    match d {
        makepad_live_tokenizer::Delim::Paren => DelimKind::Paren,
        makepad_live_tokenizer::Delim::Bracket => DelimKind::Bracket,
        makepad_live_tokenizer::Delim::Brace => DelimKind::Brace,
    }
}

/// Relies on `State::default`: the lexer state outside of any multi-line
/// token, from which lexing starts at the top of a file.
#[verifier::external_body]
pub(crate) fn lex_start() -> State {
    State::default()
}

/// Relies on the shape of `makepad_live_tokenizer::TokenWithLen`: carries
/// the lexeme's kind and its length in characters; the conversion maps each
/// kind to this crate's own, moving the carried values.
#[verifier::external_body]
fn raw_of(t: TokenWithLen) -> (r: RawLexeme) {
    RawLexeme { len: t.len, token: match t.token {
        FT::Punct(id) => RT::Punct(id.0),
        FT::Ident(id) => RT::Ident(id.0),
        FT::Open(d) => RT::Open(delim_of(d)),
        FT::Close(d) => RT::Close(delim_of(d)),
        FT::String(_) => RT::Str,
        FT::Bool(b) => RT::Bool(b),
        FT::Color(c) => RT::Color(c),
        FT::Float(f) => RT::Float(f.to_bits()),
        FT::Int(i) => RT::Int(i),
        FT::Comment | FT::Whitespace => RT::Trivia, _ => RT::Invalid,
    } }
}

/// Relies on `makepad_live_tokenizer::State::next`: consumes the lexeme that
/// starts at `pos` in `line` and returns its kind, its length in characters
/// and the state the machine is left in, or `None` at the end of the line.
/// The lexer treats a NUL character as end of input, so lines must not carry
/// one; identifier hashing aborts the process on a 64-bit hash collision
/// between two distinct identifier spellings in one process.
#[verifier::external_body]
pub(crate) fn lex_next(state: State, line: &Vec<char>, pos: usize) -> (r: (State, Option<RawLexeme>))
    requires
        pos <= line@.len(),
        forall|i: int| 0 <= i < line@.len() ==> line@[i] != '\0',
    ensures
        r.1 is Some <==> pos < line@.len(),
        r.1 matches Some(lx) ==> 1 <= lx.len && pos + lx.len <= line@.len(),
{
    let mut scratch = String::new();
    let mut cursor = Cursor::new(&line[pos..], &mut scratch);
    let (next, tok) = state.next(&mut cursor);
    match tok {
        Some(t) => (next, Some(raw_of(t))),
        None => (next, None),
    }
}

/// The lexemes' lengths summed: a line's lexemes tile the line exactly.
pub open spec fn lexeme_total_len(s: Seq<RawLexeme>) -> int
    decreases s.len(),
{
    if s.len() == 0 {
        0
    } else {
        lexeme_total_len(s.drop_last()) + s.last().len
    }
}

/// Lexes one whole line of characters, threading the external machine's
/// state through, so that tokens that continue across lines (block comments,
/// multi-line strings) resume correctly on the next line.
pub fn lex_line(state: State, line: &Vec<char>) -> (r: (State, Vec<RawLexeme>))
    requires
        forall|i: int| 0 <= i < line@.len() ==> line@[i] != '\0',
    ensures
        lexeme_total_len(r.1@) == line@.len(),
        forall|i: int| 0 <= i < r.1@.len() ==> #[trigger] r.1@[i].len >= 1,
{
    let n = line.len();
    let mut st = state;
    let mut out: Vec<RawLexeme> = Vec::new();
    let mut pos: usize = 0;
    while pos < n
        invariant
            n == line@.len(),
            pos <= n,
            lexeme_total_len(out@) == pos,
            forall|i: int| 0 <= i < out@.len() ==> #[trigger] out@[i].len >= 1,
            forall|i: int| 0 <= i < line@.len() ==> line@[i] != '\0',
        ensures
            lexeme_total_len(out@) == line@.len(),
            forall|i: int| 0 <= i < out@.len() ==> #[trigger] out@[i].len >= 1,
        decreases n - pos,
    {
        let (next, lx) = lex_next(st, line, pos);
        st = next;
        match lx {
            None => {
                proof {
                    assert(false);
                }
                break;
            },
            Some(lx) => {
                let ghost prev = out@;
                out.push(lx);
                proof {
                    assert(out@.drop_last() =~= prev);
                }
                pos = pos + lx.len;
            },
        }
    }
    (st, out)
}

} // verus!
