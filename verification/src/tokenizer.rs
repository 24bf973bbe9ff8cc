//! The tokenizer: source text to a flat, spanned token stream plus the
//! out-of-line character pool for string literal bodies.
//!
//! The source is processed line by line; line boundaries reset the column
//! and advance the line counter.  Character classification is delegated to
//! the external lexical state machine behind `crate::lex`.  A lexeme the
//! machine cannot classify is a fatal error for the whole call.  String
//! lexemes have their quote characters stripped; the body is appended to the
//! pool and the token records only its offset and length there.  The stream
//! always ends with one explicit end-of-file token.

use vstd::prelude::*;
use makepad_live_tokenizer::State;
use vstd::std_specs::iter::IteratorSpec;
use crate::error::LiveError;
use crate::ids::LiveFileId;
use crate::span::{Span, TextPos};
use crate::token::{live_token_of_raw, LiveToken, RawLexeme, RawToken, TokenWithSpan};

verus! {

/// Collects the characters of a string slice.
pub fn chars_of(s: &str) -> (r: Vec<char>)
    ensures
        r@ == s@,
{
    let mut it = s.chars();
    let mut out: Vec<char> = Vec::new();
    loop
        invariant
            it.decrease() is Some,
            out@ + it.remaining() == s@,
        ensures
            out@ == s@,
        decreases it.decrease()->0,
    {
        match it.next() {
            Some(c) => {
                out.push(c);
                proof {
                    assert(out@ + it.remaining() =~= s@);
                }
            },
            None => {
                proof {
                    assert(out@ + it.remaining() =~= out@);
                }
                break ;
            },
        }
    }
    out
}

/// The position of the first line break at or after `i`, or the length when
/// none follows.
pub open spec fn spec_next_nl(s: Seq<char>, i: int) -> int
    decreases s.len() - i,
{
    if i < 0 || i >= s.len() {
        s.len() as int
    } else if s[i] == '\n' {
        i
    } else {
        spec_next_nl(s, i + 1)
    }
}

pub proof fn lemma_next_nl_range(s: Seq<char>, i: int)
    requires
        0 <= i <= s.len(),
    ensures
        i <= spec_next_nl(s, i) <= s.len(),
    decreases s.len() - i,
{
    if i < s.len() && s[i] != '\n' {
        lemma_next_nl_range(s, i + 1);
    }
}

proof fn lemma_next_nl_at(s: Seq<char>, i: int, k: int)
    requires
        0 <= i <= k <= s.len(),
        forall|j: int| i <= j < k ==> s[j] != '\n',
        k < s.len() ==> s[k] == '\n',
    ensures
        spec_next_nl(s, i) == if k < s.len() {
            k
        } else {
            s.len() as int
        },
    decreases k - i,
{
    if i < k {
        lemma_next_nl_at(s, i + 1, k);
    }
}

/// The source split at line breaks: the separators are dropped, and a
/// source without a final line break still ends in one (possibly empty)
/// line, so the result is never empty.
pub open spec fn spec_split_lines(s: Seq<char>) -> Seq<Seq<char>>
    decreases s.len(),
    via spec_split_lines_decreases
{
    let nl = spec_next_nl(s, 0);
    if nl == s.len() {
        seq![s]
    } else {
        seq![s.subrange(0, nl)] + spec_split_lines(s.subrange(nl + 1, s.len() as int))
    }
}

#[via_fn]
proof fn spec_split_lines_decreases(s: Seq<char>) {
    lemma_next_nl_range(s, 0);
}

pub proof fn lemma_split_lines_count(s: Seq<char>)
    ensures
        1 <= spec_split_lines(s).len() <= s.len() + 1,
    decreases s.len(),
{
    lemma_next_nl_range(s, 0);
    let nl = spec_next_nl(s, 0);
    if nl != s.len() {
        lemma_split_lines_count(s.subrange(nl + 1, s.len() as int));
    }
}

/// Splits the characters of a source at line breaks, mirroring
/// `spec_split_lines`.
pub fn split_lines(chars: &Vec<char>) -> (r: Vec<Vec<char>>)
    ensures
        r.deep_view() == spec_split_lines(chars@),
{
    let n = chars.len();
    let mut out: Vec<Vec<char>> = Vec::new();
    let mut cur: Vec<char> = Vec::new();
    let mut c: usize = 0;
    let ghost s = chars@;
    proof {
        assert(s.subrange(0, s.len() as int) =~= s);
        assert(out.deep_view() + spec_split_lines(s) =~~= spec_split_lines(s));
    }
    while c < n
        invariant
            n == s.len(),
            cur@.len() <= c <= n,
            s == chars@,
            cur@ == s.subrange(c - cur@.len(), c as int),
            forall|j: int| c - cur@.len() <= j < c ==> s[j] != '\n',
            spec_split_lines(s) == out.deep_view() + spec_split_lines(
                s.subrange(c - cur@.len(), s.len() as int),
            ),
        decreases n - c,
    {
        let ghost ls = c - cur@.len();
        let ch = chars[c];
        if ch == '\n' {
            proof {
                let rest = s.subrange(ls, s.len() as int);
                assert forall|j: int| 0 <= j < c - ls implies rest[j] != '\n' by {
                    assert(rest[j] == s[ls + j]);
                }
                assert(rest[c - ls] == '\n');
                lemma_next_nl_at(rest, 0, c - ls);
                assert(rest.subrange(0, c - ls) =~= s.subrange(ls, c as int));
                assert(rest.subrange(c - ls + 1, rest.len() as int) =~= s.subrange(
                    c + 1,
                    s.len() as int,
                ));
                assert(spec_split_lines(rest) == seq![cur@] + spec_split_lines(
                    s.subrange(c + 1, s.len() as int),
                ));
            }
            let ghost out0 = out.deep_view();
            out.push(cur);
            proof {
                assert(out.deep_view() =~~= out0 + seq![cur@]);
                assert((out0 + seq![cur@]) + spec_split_lines(s.subrange(c + 1, s.len() as int))
                    =~~= out0 + (seq![cur@] + spec_split_lines(s.subrange(c + 1, s.len() as int))));
            }
            cur = Vec::new();
            proof {
                assert(cur@ =~= s.subrange(c + 1, c + 1));
            }
        } else {
            cur.push(ch);
            proof {
                assert(cur@ =~= s.subrange(ls, c + 1));
            }
        }
        c = c + 1;
    }
    proof {
        let ls = c - cur@.len();
        let rest = s.subrange(ls, s.len() as int);
        assert forall|j: int| 0 <= j < rest.len() implies rest[j] != '\n' by {
            assert(rest[j] == s[ls + j]);
        }
        lemma_next_nl_at(rest, 0, rest.len() as int);
        assert(spec_split_lines(rest) == seq![rest]);
        assert(rest =~= cur@);
    }
    let ghost out0 = out.deep_view();
    out.push(cur);
    proof {
        assert(out.deep_view() =~~= out0 + seq![cur@]);
        assert(out.deep_view() =~~= spec_split_lines(s));
    }
    out
}

/// What holds of a string token's pool entry relative to the line it was
/// read from: the body is exactly the characters strictly between the
/// quotes, copied verbatim into the pool.
pub open spec fn str_token_line_post(
    t: TokenWithSpan,
    line: Seq<char>,
    base_col: int,
    strings: Seq<char>,
) -> bool {
    t.token matches LiveToken::Str { index, len } ==> ({
        let width = t.span.end.column - t.span.start.column;
        let c0 = t.span.start.column - base_col;
        &&& index + len <= strings.len()
        &&& (width >= 2 ==> len == width - 2)
        &&& (width < 2 ==> len == 0)
        &&& c0 + 1 + len <= line.len()
        &&& forall|u: int| 0 <= u < len ==> #[trigger] strings[index + u] == line[c0 + 1 + u]
    })
}

/// What holds of every token a single line contributes to the stream.
pub open spec fn line_token_post(
    t: TokenWithSpan,
    file_id: LiveFileId,
    line_no: int,
    base_col: int,
    line: Seq<char>,
    strings: Seq<char>,
) -> bool {
    &&& !(t.token is Eof)
    &&& t.span.file_id == file_id
    &&& t.span.start.line == line_no
    &&& t.span.end.line == line_no
    &&& base_col <= t.span.start.column <= t.span.end.column <= base_col + line.len()
    &&& str_token_line_post(t, line, base_col, strings)
}

/// A token's facts survive appending to the pool: the pool is only ever
/// extended, never rewritten, within one tokenization.
proof fn lemma_line_token_post_extend(
    t: TokenWithSpan,
    file_id: LiveFileId,
    line_no: int,
    base_col: int,
    line: Seq<char>,
    s1: Seq<char>,
    s2: Seq<char>,
)
    requires
        line_token_post(t, file_id, line_no, base_col, line, s1),
        s2.len() >= s1.len(),
        forall|j: int| 0 <= j < s1.len() ==> s2[j] == s1[j],
    ensures
        line_token_post(t, file_id, line_no, base_col, line, s2),
{
    match t.token {
        LiveToken::Str { index, len } => {
            let c0 = t.span.start.column - base_col;
            assert forall|u: int|
                0 <= u < len implies #[trigger] s2[index + u] == line[c0 + 1 + u] by {
                assert(s1[index + u] == line[c0 + 1 + u]);
            }
        },
        _ => {},
    }
}

/// Some character of the text is a NUL, which the external lexer treats
/// as end of input; such a text is rejected before lexing.
pub open spec fn spec_has_nul(s: Seq<char>) -> bool {
    exists|i: int| 0 <= i < s.len() && s[i] == '\0'
}

/// Every character of every split line is a character of the source.
proof fn lemma_split_lines_chars(s: Seq<char>)
    ensures
        forall|l: int, i: int|
            0 <= l < spec_split_lines(s).len() && 0 <= i < spec_split_lines(s)[l].len()
                ==> s.contains(#[trigger] spec_split_lines(s)[l][i]),
    decreases s.len(),
{
    lemma_next_nl_range(s, 0);
    let nl = spec_next_nl(s, 0);
    let lines = spec_split_lines(s);
    if nl == s.len() {
        assert forall|l: int, i: int|
            0 <= l < lines.len() && 0 <= i < lines[l].len() implies s.contains(
            #[trigger] lines[l][i],
        ) by {
            assert(lines[l] == s);
        }
    } else {
        let rest = s.subrange(nl + 1, s.len() as int);
        lemma_split_lines_chars(rest);
        assert forall|l: int, i: int|
            0 <= l < lines.len() && 0 <= i < lines[l].len() implies s.contains(
            #[trigger] lines[l][i],
        ) by {
            if l == 0 {
                assert(lines[0] == s.subrange(0, nl));
                assert(lines[0][i] == s[i]);
            } else {
                assert(lines[l] == spec_split_lines(rest)[l - 1]);
                assert(rest.contains(lines[l][i]));
                let j = choose|j: int| 0 <= j < rest.len() && rest[j] == lines[l][i];
                assert(s[nl + 1 + j] == lines[l][i]);
            }
        }
    }
}

/// Builds the tokens one lexed line contributes: trivia dropped, string
/// bodies copied verbatim into the pool, spans laid out left to right on
/// the line.  Succeeds exactly when no lexeme of the line is one no token
/// can be made of.
pub fn build_line_tokens(
    file_id: LiveFileId,
    line: &Vec<char>,
    lexemes: &Vec<RawLexeme>,
    line_no: usize,
    base_col: usize,
    tokens: &mut Vec<TokenWithSpan>,
    strings: &mut Vec<char>,
) -> (r: Result<(), LiveError>)
    requires
        crate::lex::lexeme_total_len(lexemes@) == line@.len(),
        forall|i: int| 0 <= i < lexemes@.len() ==> #[trigger] lexemes@[i].len >= 1,
        base_col + line@.len() <= usize::MAX,
    ensures
        r is Ok <==> (forall|k: int|
            0 <= k < lexemes@.len() ==> !((#[trigger] lexemes@[k]).token is Invalid)),
        r matches Err(e) ==> e.span.file_id == file_id && e.span.start.line == line_no,
        r is Ok ==> {
            &&& final(tokens)@.len() >= old(tokens)@.len()
            &&& forall|k: int| 0 <= k < old(tokens)@.len() ==> final(tokens)@[k] == old(tokens)@[k]
            &&& final(strings)@.len() >= old(strings)@.len()
            &&& forall|j: int|
                0 <= j < old(strings)@.len() ==> final(strings)@[j] == old(strings)@[j]
            &&& forall|k: int|
                old(tokens)@.len() <= k < final(tokens)@.len() ==> line_token_post(
                    #[trigger] final(tokens)@[k],
                    file_id,
                    line_no as int,
                    base_col as int,
                    line@,
                    final(strings)@,
                )
            &&& forall|k1: int, k2: int|
                old(tokens)@.len() <= k1 < k2 < final(tokens)@.len() ==> (
                #[trigger] final(tokens)@[k1]).span.end.column <= (
                #[trigger] final(tokens)@[k2]).span.start.column
        },
{
    let nk = lexemes.len();
    let n = line.len();
    let mut k: usize = 0;
    let mut col: usize = 0;
    while k < nk
        invariant
            nk == lexemes@.len(),
            n == line@.len(),
            k <= nk,
            base_col + n <= usize::MAX,
            crate::lex::lexeme_total_len(lexemes@) == n,
            forall|i: int| 0 <= i < lexemes@.len() ==> #[trigger] lexemes@[i].len >= 1,
            col == crate::update::lexeme_prefix_len(lexemes@, k as int),
            forall|k2: int| 0 <= k2 < k ==> !((#[trigger] lexemes@[k2]).token is Invalid),
            tokens@.len() >= old(tokens)@.len(),
            forall|k2: int| 0 <= k2 < old(tokens)@.len() ==> tokens@[k2] == old(tokens)@[k2],
            strings@.len() >= old(strings)@.len(),
            forall|j: int| 0 <= j < old(strings)@.len() ==> strings@[j] == old(strings)@[j],
            forall|k2: int|
                old(tokens)@.len() <= k2 < tokens@.len() ==> line_token_post(
                    #[trigger] tokens@[k2],
                    file_id,
                    line_no as int,
                    base_col as int,
                    line@,
                    strings@,
                ),
            forall|k2: int|
                old(tokens)@.len() <= k2 < tokens@.len() ==> (
                #[trigger] tokens@[k2]).span.end.column <= base_col + col,
            forall|k1: int, k2: int|
                old(tokens)@.len() <= k1 < k2 < tokens@.len() ==> (
                #[trigger] tokens@[k1]).span.end.column <= (
                #[trigger] tokens@[k2]).span.start.column,
        decreases nk - k,
    {
        proof {
            crate::update::lemma_prefix_in_chars(lexemes@, n as int, k as int);
        }
        let lx = lexemes[k];
        let col2 = col + lx.len;
        let span = Span {
            file_id,
            start: TextPos { line: line_no, column: base_col + col },
            end: TextPos { line: line_no, column: base_col + col2 },
        };
        match lx.token {
            RawToken::Invalid => {
                return Err(LiveError::new(span, "error tokenizing"));
            },
            RawToken::Trivia => {},
            RawToken::Str => {
                let body_len = if lx.len >= 2 {
                    lx.len - 2
                } else {
                    0
                };
                let sidx = strings.len();
                let ghost strs_snap = strings@;
                let mut u: usize = 0;
                while u < body_len
                    invariant
                        u <= body_len,
                        lx.len >= 2 ==> body_len == lx.len - 2,
                        lx.len < 2 ==> body_len == 0,
                        col + lx.len <= n,
                        n == line@.len(),
                        sidx == strs_snap.len(),
                        strings@.len() == sidx + u,
                        forall|j: int| 0 <= j < sidx ==> strings@[j] == strs_snap[j],
                        forall|v: int|
                            0 <= v < u ==> #[trigger] strings@[sidx + v] == line@[col + 1 + v],
                    decreases body_len - u,
                {
                    strings.push(line[col + 1 + u]);
                    u = u + 1;
                }
                proof {
                    assert forall|k2: int|
                        old(tokens)@.len() <= k2 < tokens@.len() implies line_token_post(
                        #[trigger] tokens@[k2],
                        file_id,
                        line_no as int,
                        base_col as int,
                        line@,
                        strings@,
                    ) by {
                        lemma_line_token_post_extend(
                            tokens@[k2],
                            file_id,
                            line_no as int,
                            base_col as int,
                            line@,
                            strs_snap,
                            strings@,
                        );
                    }
                }
                let ghost toks0 = tokens@;
                let new_tok = TokenWithSpan {
                    span,
                    token: LiveToken::Str { index: sidx, len: body_len },
                };
                tokens.push(new_tok);
                proof {
                    assert(line_token_post(
                        new_tok,
                        file_id,
                        line_no as int,
                        base_col as int,
                        line@,
                        strings@,
                    ));
                    assert forall|k2: int|
                        old(tokens)@.len() <= k2 < tokens@.len() implies line_token_post(
                        #[trigger] tokens@[k2],
                        file_id,
                        line_no as int,
                        base_col as int,
                        line@,
                        strings@,
                    ) by {
                        if k2 < toks0.len() {
                            assert(tokens@[k2] == toks0[k2]);
                        } else {
                            assert(tokens@[k2] == new_tok);
                        }
                    }
                }
            },
            _ => {
                match live_token_of_raw(&lx.token) {
                    Some(t) => {
                        let ghost toks0 = tokens@;
                        let new_tok = TokenWithSpan { span, token: t };
                        tokens.push(new_tok);
                        proof {
                            assert forall|k2: int|
                                old(tokens)@.len() <= k2 < tokens@.len() implies line_token_post(
                                #[trigger] tokens@[k2],
                                file_id,
                                line_no as int,
                                base_col as int,
                                line@,
                                strings@,
                            ) by {
                                if k2 < toks0.len() {
                                    assert(tokens@[k2] == toks0[k2]);
                                } else {
                                    assert(tokens@[k2] == new_tok);
                                    assert(!(new_tok.token is Str));
                                }
                            }
                        }
                    },
                    None => {},
                }
            },
        }
        col = col2;
        k = k + 1;
    }
    Ok(())
}

/// What the tokenizer guarantees of a successful result: the stream ends
/// in exactly one end-of-file token, carrying the empty span with this
/// file's id; every other token is spanned on one line of the source, the
/// spans in nondecreasing source order; and every string token's pool
/// entry holds, verbatim, the characters that stand strictly between its
/// quotes on its line.
pub open spec fn tokenize_post(
    source: Seq<char>,
    start_pos: TextPos,
    file_id: LiveFileId,
    tokens: Seq<TokenWithSpan>,
    strings: Seq<char>,
) -> bool {
    let lines = spec_split_lines(source);
    &&& tokens.len() >= 1
    &&& tokens[tokens.len() - 1].token is Eof
    &&& tokens[tokens.len() - 1].span == (Span {
        file_id,
        start: TextPos { line: 0, column: 0 },
        end: TextPos { line: 0, column: 0 },
    })
    &&& forall|k: int|
        0 <= k < tokens.len() - 1 ==> {
            let t = #[trigger] tokens[k];
            let ln = t.span.start.line - start_pos.line;
            let base = if ln == 0 {
                start_pos.column as int
            } else {
                0
            };
            &&& start_pos.line <= t.span.start.line < start_pos.line + lines.len()
            &&& line_token_post(t, file_id, t.span.start.line as int, base, lines[ln], strings)
        }
    &&& forall|k1: int, k2: int|
        0 <= k1 < k2 < tokens.len() - 1 ==> (#[trigger] tokens[k1]).span.start.line < (
        #[trigger] tokens[k2]).span.start.line || (tokens[k1].span.start.line
            == tokens[k2].span.start.line && tokens[k1].span.end.column
            <= tokens[k2].span.start.column)
}

/// Tokenizes a whole source text, line by line: each line is lexed by the
/// external machine and its tokens built by the verified
/// `build_line_tokens`, which succeeds exactly when no lexeme is invalid.
/// A NUL character anywhere in the source is rejected before lexing, since
/// the machine would treat it as end of input.
pub fn tokenize_from_str(source: &str, start_pos: TextPos, file_id: LiveFileId) -> (r: Result<
    (Vec<TokenWithSpan>, Vec<char>),
    LiveError,
>)
    requires
        start_pos.column + source@.len() <= usize::MAX,
        start_pos.line + source@.len() < usize::MAX,
    ensures
        r matches Ok(ok) ==> tokenize_post(source@, start_pos, file_id, ok.0@, ok.1@),
        r matches Err(e) ==> e.span.file_id == file_id,
        spec_has_nul(source@) ==> r is Err,
{
    let chars = chars_of(source);
    let nc = chars.len();
    let mut c: usize = 0;
    let mut ln: usize = start_pos.line;
    let mut cl: usize = start_pos.column;
    while c < nc
        invariant
            nc == chars@.len(),
            chars@ == source@,
            start_pos.column + source@.len() <= usize::MAX,
            start_pos.line + source@.len() < usize::MAX,
            c <= nc,
            ln <= start_pos.line + c,
            cl <= start_pos.column + c,
            forall|j: int| 0 <= j < c ==> chars@[j] != '\0',
        decreases nc - c,
    {
        if chars[c] == '\0' {
            let span = Span {
                file_id,
                start: TextPos { line: ln, column: cl },
                end: TextPos { line: ln, column: cl },
            };
            return Err(LiveError::new(span, "source contains a NUL character"));
        }
        if chars[c] == '\n' {
            ln = ln + 1;
            cl = 0;
        } else {
            cl = cl + 1;
        }
        c = c + 1;
    }
    proof {
        if spec_has_nul(source@) {
            let i = choose|i: int| 0 <= i < source@.len() && source@[i] == '\0';
        }
        lemma_split_lines_chars(source@);
    }
    let lines = split_lines(&chars);
    proof {
        lemma_split_lines_count(source@);
    }
    let mut tokens: Vec<TokenWithSpan> = Vec::new();
    let mut strings: Vec<char> = Vec::new();
    let mut st = crate::lex::lex_start();
    let mut i: usize = 0;
    let nl = lines.len();
    while i < nl
        invariant
            nl == lines@.len(),
            lines.deep_view() == spec_split_lines(source@),
            1 <= nl <= source@.len() + 1,
            start_pos.column + source@.len() <= usize::MAX,
            start_pos.line + source@.len() < usize::MAX,
            forall|j: int| 0 <= j < source@.len() ==> source@[j] != '\0',
            i <= nl,
            forall|k: int|
                0 <= k < tokens@.len() ==> {
                    let t = #[trigger] tokens@[k];
                    let lno = t.span.start.line - start_pos.line;
                    let base = if lno == 0 {
                        start_pos.column as int
                    } else {
                        0
                    };
                    &&& start_pos.line <= t.span.start.line < start_pos.line + i
                    &&& line_token_post(
                        t,
                        file_id,
                        t.span.start.line as int,
                        base,
                        spec_split_lines(source@)[lno],
                        strings@,
                    )
                },
            forall|k1: int, k2: int|
                0 <= k1 < k2 < tokens@.len() ==> (#[trigger] tokens@[k1]).span.start.line < (
                #[trigger] tokens@[k2]).span.start.line || (tokens@[k1].span.start.line
                    == tokens@[k2].span.start.line && tokens@[k1].span.end.column
                    <= tokens@[k2].span.start.column),
        decreases nl - i,
    {
        let line = &lines[i];
        proof {
            assert(lines.deep_view()[i as int] == lines@[i as int].deep_view());
            assert(line@ =~= lines@[i as int].deep_view());
            if i == 0 {
                lemma_next_nl_range(source@, 0);
                assert(spec_split_lines(source@)[0].len() <= source@.len());
            }
            lemma_split_lines_chars(source@);
            assert forall|j: int| 0 <= j < line@.len() implies line@[j] != '\0' by {
                assert(source@.contains(spec_split_lines(source@)[i as int][j]));
                let w = choose|w: int|
                    0 <= w < source@.len() && source@[w] == spec_split_lines(source@)[i as int][j];
            }
        }
        let base_col = if i == 0 {
            start_pos.column
        } else {
            0
        };
        let line_len = line.len();
        assert(base_col + line@.len() <= usize::MAX);
        let line_no = start_pos.line + i;
        let (next, lexemes) = crate::lex::lex_line(st, line);
        st = next;
        let ghost toks0 = tokens@;
        let ghost strs0 = strings@;
        let res = build_line_tokens(
            file_id,
            line,
            &lexemes,
            line_no,
            base_col,
            &mut tokens,
            &mut strings,
        );
        match res {
            Ok(_) => {},
            Err(e) => {
                return Err(e);
            },
        }
        proof {
            assert forall|k: int| 0 <= k < tokens@.len() implies {
                let t = #[trigger] tokens@[k];
                let lno = t.span.start.line - start_pos.line;
                let base = if lno == 0 {
                    start_pos.column as int
                } else {
                    0
                };
                &&& start_pos.line <= t.span.start.line < start_pos.line + i + 1
                &&& line_token_post(
                    t,
                    file_id,
                    t.span.start.line as int,
                    base,
                    spec_split_lines(source@)[lno],
                    strings@,
                )
            } by {
                let t = tokens@[k];
                let lno = t.span.start.line - start_pos.line;
                let base = if lno == 0 {
                    start_pos.column as int
                } else {
                    0
                };
                if k < toks0.len() {
                    assert(tokens@[k] == toks0[k]);
                    lemma_line_token_post_extend(
                        t,
                        file_id,
                        t.span.start.line as int,
                        base,
                        spec_split_lines(source@)[lno],
                        strs0,
                        strings@,
                    );
                } else {
                    assert(line_token_post(
                        t,
                        file_id,
                        line_no as int,
                        base_col as int,
                        line@,
                        strings@,
                    ));
                    assert(t.span.start.line == line_no);
                    assert(lno == i);
                    assert(spec_split_lines(source@)[lno] == line@);
                }
            }
            assert forall|k1: int, k2: int|
                0 <= k1 < k2 < tokens@.len() implies (#[trigger] tokens@[k1]).span.start.line < (
            #[trigger] tokens@[k2]).span.start.line || (tokens@[k1].span.start.line
                == tokens@[k2].span.start.line && tokens@[k1].span.end.column
                <= tokens@[k2].span.start.column) by {
                if k2 < toks0.len() {
                    assert(tokens@[k1] == toks0[k1]);
                    assert(tokens@[k2] == toks0[k2]);
                } else if k1 < toks0.len() {
                    assert(tokens@[k1] == toks0[k1]);
                    assert(tokens@[k1].span.start.line < start_pos.line + i);
                    assert(tokens@[k2].span.start.line == line_no);
                } else {
                    assert(tokens@[k1].span.end.column <= tokens@[k2].span.start.column);
                    assert(tokens@[k1].span.start.line == line_no);
                    assert(tokens@[k2].span.start.line == line_no);
                }
            }
        }
        i = i + 1;
    }
    let eof_span = Span {
        file_id,
        start: TextPos { line: 0, column: 0 },
        end: TextPos { line: 0, column: 0 },
    };
    tokens.push(TokenWithSpan { span: eof_span, token: LiveToken::Eof });
    Ok((tokens, strings))
}

/// Reads a pool entry back as characters: the rendering of a string token.
pub fn read_string(strings: &Vec<char>, index: usize, len: usize) -> (r: Option<Vec<char>>)
    ensures
        index + len <= strings@.len() ==> (r matches Some(v) && v@ == strings@.subrange(
            index as int,
            index + len,
        )),
        index + len > strings@.len() ==> r is None,
{
    let n = strings.len();
    if len > n || index > n - len {
        return None;
    }
    let mut out: Vec<char> = Vec::new();
    let mut u: usize = 0;
    while u < len
        invariant
            n == strings@.len(),
            index + len <= n,
            u <= len,
            out@ == strings@.subrange(index as int, index + u),
        decreases len - u,
    {
        out.push(strings[index + u]);
        proof {
            assert(out@ =~= strings@.subrange(index as int, index + u + 1));
        }
        u = u + 1;
    }
    Some(out)
}

/// Law: tokenizing then rendering a string-literal token round-trips to the
/// original literal body.  For every source text and every string token of a
/// successful tokenization, reading the token's pool entry back yields
/// exactly the characters that stand strictly between the quotes on the
/// token's source line.
pub proof fn lemma_string_literal_round_trip(
    source: Seq<char>,
    start_pos: TextPos,
    file_id: LiveFileId,
    tokens: Seq<TokenWithSpan>,
    strings: Seq<char>,
    k: int,
    index: usize,
    len: usize,
)
    requires
        tokenize_post(source, start_pos, file_id, tokens, strings),
        0 <= k < tokens.len() - 1,
        tokens[k].token == (LiveToken::Str { index, len }),
    ensures
        ({
            let t = tokens[k];
            let lines = spec_split_lines(source);
            let ln = t.span.start.line - start_pos.line;
            let base = if ln == 0 {
                start_pos.column as int
            } else {
                0
            };
            let c0 = t.span.start.column - base;
            &&& index + len <= strings.len()
            &&& c0 + 1 + len <= lines[ln].len()
            &&& strings.subrange(index as int, index + len) == lines[ln].subrange(
                c0 + 1,
                c0 + 1 + len,
            )
        }),
{
    let t = tokens[k];
    let lines = spec_split_lines(source);
    let ln = t.span.start.line - start_pos.line;
    let base = if ln == 0 {
        start_pos.column as int
    } else {
        0
    };
    let c0 = t.span.start.column - base;
    assert(line_token_post(t, file_id, t.span.start.line as int, base, lines[ln], strings));
    assert(str_token_line_post(t, lines[ln], base, strings));
    assert forall|u: int|
        0 <= u < len implies #[trigger] strings.subrange(index as int, index + len)[u]
        == lines[ln].subrange(c0 + 1, c0 + 1 + len)[u] by {
        assert(strings[index + u] == lines[ln][c0 + 1 + u]);
    }
    assert(strings.subrange(index as int, index + len) =~= lines[ln].subrange(
        c0 + 1,
        c0 + 1 + len,
    ));
}

} // verus!
