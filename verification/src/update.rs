//! The incremental updater.
//!
//! An edit is handed in as freshly lexed lines for an edited token range.
//! The updater rebuilds the token stream the range describes, diffs it
//! against the file's previous stream, and classifies the edit: a change
//! that only alters scalar values at fixed token positions is a list of
//! mutations for the patch propagator, anything that would change the parse
//! shape demands a full reparse, which the caller triggers.

use vstd::prelude::*;
use crate::document::LiveDocument;
use crate::error::LiveError;
use crate::ids::LiveFileId;
use crate::lex::lexeme_total_len;
use crate::span::{Span, TextPos};
use crate::token::{live_token_of_raw, spec_live_token_of_raw, DelimKind, LiveToken, RawLexeme,
    RawToken, TokenWithSpan};

verus! {

/// A position in a token stream: a line and a lexeme index within it.
#[derive(Clone, Copy, Debug, PartialEq, Eq, Structural)]
pub struct TokenPos {
    pub line: usize,
    pub index: usize,
}

/// A half-open range of token positions, spanning whole or partial lines.
#[derive(Clone, Copy, Debug, PartialEq, Eq, Structural)]
pub struct TokenRange {
    pub start: TokenPos,
    pub end: TokenPos,
}

impl TokenRange {
    pub open spec fn spec_is_in_range(self, pos: TokenPos) -> bool {
        if self.start.line == self.end.line {
            pos.line == self.start.line && pos.index >= self.start.index && pos.index
                < self.end.index
        } else {
            (pos.line == self.start.line && pos.index >= self.start.index) || (pos.line
                > self.start.line && pos.line < self.end.line) || (pos.line == self.end.line
                && pos.index < self.end.index)
        }
    }

    pub fn is_in_range(&self, pos: TokenPos) -> (r: bool)
        ensures
            r == self.spec_is_in_range(pos),
    {
        if self.start.line == self.end.line {
            pos.line == self.start.line && pos.index >= self.start.index && pos.index
                < self.end.index
        } else {
            (pos.line == self.start.line && pos.index >= self.start.index) || (pos.line
                > self.start.line && pos.line < self.end.line) || (pos.line == self.end.line
                && pos.index < self.end.index)
        }
    }
}

/// One freshly lexed line, as the editing host supplies it: the line's
/// characters and its lexemes in order.  The entry for line
/// `range.start.line + l` is at position `l`.
pub struct RelexedLine {
    pub chars: Vec<char>,
    pub lexemes: Vec<RawLexeme>,
}

impl RelexedLine {
    /// The lexemes tile the line: each consumes at least one character and
    /// their lengths sum to the line's length.  `crate::lex::lex_line`
    /// produces exactly this.
    pub open spec fn wf(self) -> bool {
        &&& lexeme_total_len(self.lexemes@) == self.chars@.len()
        &&& forall|i: int| 0 <= i < self.lexemes@.len() ==> #[trigger] self.lexemes@[i].len >= 1
    }
}

/// The length of the first `k` lexemes summed: the column where lexeme `k`
/// starts.
pub open spec fn lexeme_prefix_len(s: Seq<RawLexeme>, k: int) -> int
    decreases k,
{
    if k <= 0 {
        0
    } else {
        lexeme_prefix_len(s, k - 1) + s[k - 1].len
    }
}

proof fn lemma_prefix_agree(s: Seq<RawLexeme>, k: int)
    requires
        0 <= k <= s.len() - 1,
    ensures
        lexeme_prefix_len(s.drop_last(), k) == lexeme_prefix_len(s, k),
    decreases k,
{
    if k > 0 {
        lemma_prefix_agree(s, k - 1);
    }
}

proof fn lemma_prefix_full(s: Seq<RawLexeme>)
    ensures
        lexeme_prefix_len(s, s.len() as int) == lexeme_total_len(s),
    decreases s.len(),
{
    if s.len() > 0 {
        lemma_prefix_full(s.drop_last());
        lemma_prefix_agree(s, s.len() - 1);
    }
}

proof fn lemma_prefix_monotone(s: Seq<RawLexeme>, a: int, b: int)
    requires
        0 <= a <= b <= s.len(),
        forall|i: int| 0 <= i < s.len() ==> #[trigger] s[i].len >= 1,
    ensures
        lexeme_prefix_len(s, a) <= lexeme_prefix_len(s, b),
    decreases b - a,
{
    if a < b {
        lemma_prefix_monotone(s, a, b - 1);
    }
}

/// The column bound used by the token-building loops: every lexeme of a
/// line it tiles starts and ends within the line.
pub(crate) proof fn lemma_prefix_in_chars(lexemes: Seq<RawLexeme>, clen: int, k: int)
    requires
        lexeme_total_len(lexemes) == clen,
        forall|i: int| 0 <= i < lexemes.len() ==> #[trigger] lexemes[i].len >= 1,
        0 <= k <= lexemes.len(),
    ensures
        0 <= lexeme_prefix_len(lexemes, k) <= clen,
        k < lexemes.len() ==> lexeme_prefix_len(lexemes, k) + lexemes[k].len <= clen,
{
    lemma_prefix_monotone(lexemes, 0, k);
    lemma_prefix_full(lexemes);
    lemma_prefix_monotone(lexemes, k, lexemes.len() as int);
    if k < lexemes.len() {
        lemma_prefix_monotone(lexemes, k + 1, lexemes.len() as int);
    }
}

/// The stream one line contributes, in accumulator form mirroring the
/// executable loop: starting at lexeme `k` and column `col`, with the
/// stream and pool built so far; `None` on a lexeme no token can be made
/// of.
pub open spec fn spec_flatten_line(
    chars: Seq<char>,
    lexemes: Seq<RawLexeme>,
    line_no: int,
    range: TokenRange,
    file_id: LiveFileId,
    k: int,
    col: int,
    toks: Seq<TokenWithSpan>,
    strs: Seq<char>,
) -> Option<(Seq<TokenWithSpan>, Seq<char>)>
    decreases lexemes.len() - k,
{
    if k < 0 || k >= lexemes.len() {
        Some((toks, strs))
    } else {
        let lx = lexemes[k];
        let col2 = col + lx.len;
        if range.spec_is_in_range(TokenPos { line: line_no as usize, index: k as usize }) {
            let span = Span {
                file_id,
                start: TextPos { line: line_no as usize, column: col as usize },
                end: TextPos { line: line_no as usize, column: col2 as usize },
            };
            match lx.token {
                RawToken::Invalid => None,
                RawToken::Trivia => spec_flatten_line(
                    chars,
                    lexemes,
                    line_no,
                    range,
                    file_id,
                    k + 1,
                    col2,
                    toks,
                    strs,
                ),
                RawToken::Str => {
                    let bl: int = if lx.len >= 2 {
                        lx.len - 2
                    } else {
                        0
                    };
                    let body = chars.subrange(col + 1, col + 1 + bl);
                    let t = TokenWithSpan {
                        span,
                        token: LiveToken::Str { index: strs.len() as usize, len: bl as usize },
                    };
                    spec_flatten_line(
                        chars,
                        lexemes,
                        line_no,
                        range,
                        file_id,
                        k + 1,
                        col2,
                        toks.push(t),
                        strs + body,
                    )
                },
                _ => {
                    let t = TokenWithSpan {
                        span,
                        token: spec_live_token_of_raw(lx.token)->Some_0,
                    };
                    spec_flatten_line(
                        chars,
                        lexemes,
                        line_no,
                        range,
                        file_id,
                        k + 1,
                        col2,
                        toks.push(t),
                        strs,
                    )
                },
            }
        } else {
            spec_flatten_line(chars, lexemes, line_no, range, file_id, k + 1, col2, toks, strs)
        }
    }
}

/// The stream the whole edited range contributes: the lines' contributions
/// in order, starting from line `range.start.line + li`.
pub open spec fn spec_flatten(
    relex: Seq<RelexedLine>,
    range: TokenRange,
    file_id: LiveFileId,
    li: int,
    toks: Seq<TokenWithSpan>,
    strs: Seq<char>,
) -> Option<(Seq<TokenWithSpan>, Seq<char>)>
    decreases relex.len() - li,
{
    if li < 0 || li >= relex.len() {
        Some((toks, strs))
    } else {
        match spec_flatten_line(
            relex[li].chars@,
            relex[li].lexemes@,
            range.start.line + li,
            range,
            file_id,
            0,
            0,
            toks,
            strs,
        ) {
            None => None,
            Some(ts) => spec_flatten(relex, range, file_id, li + 1, ts.0, ts.1),
        }
    }
}

/// Rebuilds the token stream and string pool for the edited range from the
/// freshly lexed lines.  Mirrors `spec_flatten` exactly; fails on a lexeme
/// no token can be made of.
fn flatten_relex(relex: &Vec<RelexedLine>, range: TokenRange, file_id: LiveFileId) -> (r: Result<
    (Vec<TokenWithSpan>, Vec<char>),
    LiveError,
>)
    requires
        forall|l: int| 0 <= l < relex@.len() ==> (#[trigger] relex@[l]).wf(),
        range.start.line + relex@.len() <= usize::MAX,
    ensures
        r matches Ok(ok) ==> spec_flatten(relex@, range, file_id, 0, Seq::empty(), Seq::empty())
            == Some((ok.0@, ok.1@)) && tokens_pool_wf(ok.0@, ok.1@) && (forall|k: int|
            0 <= k < ok.0@.len() ==> !((#[trigger] ok.0@[k].token) is Eof)),
        r matches Err(e) ==> spec_flatten(relex@, range, file_id, 0, Seq::empty(), Seq::empty())
            is None && e.span.file_id == file_id,
{
    let mut toks: Vec<TokenWithSpan> = Vec::new();
    let mut strs: Vec<char> = Vec::new();
    let nl = relex.len();
    let mut li: usize = 0;
    proof {
        assert(toks@ =~= Seq::<TokenWithSpan>::empty());
        assert(strs@ =~= Seq::<char>::empty());
    }
    while li < nl
        invariant
            nl == relex@.len(),
            li <= nl,
            range.start.line + nl <= usize::MAX,
            forall|l: int| 0 <= l < relex@.len() ==> (#[trigger] relex@[l]).wf(),
            spec_flatten(relex@, range, file_id, 0, Seq::empty(), Seq::empty()) == spec_flatten(
                relex@,
                range,
                file_id,
                li as int,
                toks@,
                strs@,
            ),
            tokens_pool_wf(toks@, strs@),
            forall|k: int| 0 <= k < toks@.len() ==> !((#[trigger] toks@[k].token) is Eof),
        decreases nl - li,
    {
        let line = &relex[li];
        let line_no = range.start.line + li;
        let nk = line.lexemes.len();
        let cn = line.chars.len();
        let ghost toks_ls = toks@;
        let ghost strs_ls = strs@;
        let mut k: usize = 0;
        let mut col: usize = 0;
        while k < nk
            invariant
                nk == line.lexemes@.len(),
                cn == line.chars@.len(),
                k <= nk,
                spec_flatten(relex@, range, file_id, 0, Seq::empty(), Seq::empty())
                    == spec_flatten(relex@, range, file_id, li as int, toks_ls, strs_ls),
                line.wf(),
                line == relex@[li as int],
                li < nl,
                nl == relex@.len(),
                line_no == range.start.line + li,
                range.start.line + nl <= usize::MAX,
                col == lexeme_prefix_len(line.lexemes@, k as int),
                spec_flatten_line(
                    line.chars@,
                    line.lexemes@,
                    line_no as int,
                    range,
                    file_id,
                    0,
                    0,
                    toks_ls,
                    strs_ls,
                ) == spec_flatten_line(
                    line.chars@,
                    line.lexemes@,
                    line_no as int,
                    range,
                    file_id,
                    k as int,
                    col as int,
                    toks@,
                    strs@,
                ),
                tokens_pool_wf(toks@, strs@),
                forall|k2: int| 0 <= k2 < toks@.len() ==> !((#[trigger] toks@[k2].token) is Eof),
            decreases nk - k,
        {
            proof {
                lemma_prefix_in_chars(line.lexemes@, line.chars@.len() as int, k as int);
            }
            let lx = line.lexemes[k];
            assert(col + lx.len <= cn);
            let col2 = col + lx.len;
            let pos = TokenPos { line: line_no, index: k };
            if range.is_in_range(pos) {
                let span = Span {
                    file_id,
                    start: TextPos { line: line_no, column: col },
                    end: TextPos { line: line_no, column: col2 },
                };
                match lx.token {
                    RawToken::Invalid => {
                        proof {
                            assert(spec_flatten_line(
                                line.chars@,
                                line.lexemes@,
                                line_no as int,
                                range,
                                file_id,
                                k as int,
                                col as int,
                                toks@,
                                strs@,
                            ) is None);
                            assert(spec_flatten(relex@, range, file_id, li as int, toks_ls, strs_ls)
                                is None);
                        }
                        return Err(LiveError::new(span, "error tokenizing"));
                    },
                    RawToken::Trivia => {},
                    RawToken::Str => {
                        let bl = if lx.len >= 2 {
                            lx.len - 2
                        } else {
                            0
                        };
                        let sidx = strs.len();
                        let ghost strs0 = strs@;
                        let mut u: usize = 0;
                        while u < bl
                            invariant
                                u <= bl,
                                cn == line.chars@.len(),
                                bl > 0 ==> col + 1 + bl <= cn,
                                strs@ == strs0 + line.chars@.subrange(
                                    col + 1,
                                    col + 1 + u as int,
                                ),
                            decreases bl - u,
                        {
                            strs.push(line.chars[col + 1 + u]);
                            proof {
                                assert(strs@ =~= strs0 + line.chars@.subrange(
                                    col + 1,
                                    col + 1 + u + 1,
                                ));
                            }
                            u = u + 1;
                        }
                        proof {
                            if bl == 0 {
                                assert(strs@ =~= strs0 + line.chars@.subrange(
                                    col + 1,
                                    col + 1 as int,
                                ));
                            }
                        }
                        toks.push(
                            TokenWithSpan { span, token: LiveToken::Str { index: sidx, len: bl } },
                        );
                    },
                    _ => {
                        match live_token_of_raw(&lx.token) {
                            Some(t) => {
                                toks.push(TokenWithSpan { span, token: t });
                            },
                            None => {
                                proof {
                                    assert(false);
                                }
                            },
                        }
                    },
                }
            }
            col = col2;
            k = k + 1;
        }
        li = li + 1;
    }
    Ok((toks, strs))
}


/// The tolerated exchange inside a double-brace binding placeholder: a
/// token directly preceded by two open braces may flip between a number and
/// an identifier without forcing a reparse.  The rule is purely local to
/// the three tokens, so it applies at any nesting depth.
pub open spec fn brace_exception_at(
    old: Seq<TokenWithSpan>,
    new: Seq<TokenWithSpan>,
    j: int,
) -> bool {
    &&& j > 2
    &&& old[j - 2].token == LiveToken::Open(DelimKind::Brace)
    &&& old[j - 1].token == LiveToken::Open(DelimKind::Brace)
    &&& ((old[j].token is Int && new[j].token is Ident) || (old[j].token is Ident
        && new[j].token is Int))
}

/// Position `j` changed in a way that changes the parse shape.
pub open spec fn structural_at(old: Seq<TokenWithSpan>, new: Seq<TokenWithSpan>, j: int) -> bool {
    &&& !old[j].token.spec_parse_equal(new[j].token)
    &&& !brace_exception_at(old, new, j)
}

/// The edit changes structure: the token count changed (the old stream ends
/// in its end-of-file token, which the rebuilt stream never carries), or
/// some position changed in a way that changes the parse shape.
pub open spec fn spec_structural(old: Seq<TokenWithSpan>, new: Seq<TokenWithSpan>) -> bool {
    ||| new.len() != old.len() - 1
    ||| exists|j: int| 0 <= j < new.len() && j < old.len() && structural_at(old, new, j)
}

/// Position `j` keeps its parse shape but carries a different value: a
/// scalar whose payload changed, or a string whose body or pool position
/// changed.
pub open spec fn mutation_at(
    old: Seq<TokenWithSpan>,
    olds: Seq<char>,
    new: Seq<TokenWithSpan>,
    news: Seq<char>,
    j: int,
) -> bool {
    match (old[j].token, new[j].token) {
        (LiveToken::Str { index: oi, len: ol }, LiveToken::Str { index: ni, len: nl }) => {
            ||| olds.subrange(oi as int, oi + ol) != news.subrange(ni as int, ni + nl)
            ||| oi != ni
            ||| ol != nl
        },
        (a, b) => a.spec_parse_equal(b) && a != b,
    }
}

/// Every string token points inside its pool.
pub open spec fn tokens_pool_wf(tokens: Seq<TokenWithSpan>, strings: Seq<char>) -> bool {
    forall|k: int|
        0 <= k < tokens.len() ==> ((#[trigger] tokens[k].token) matches LiveToken::Str {
            index,
            len,
        } ==> index + len <= strings.len())
}

/// Compares two pool slices.
fn str_slices_equal(
    olds: &Vec<char>,
    oi: usize,
    ol: usize,
    news: &Vec<char>,
    ni: usize,
    nl: usize,
) -> (r: bool)
    requires
        oi + ol <= olds@.len(),
        ni + nl <= news@.len(),
    ensures
        r == (olds@.subrange(oi as int, oi + ol) == news@.subrange(ni as int, ni + nl)),
{
    if ol != nl {
        proof {
            assert(olds@.subrange(oi as int, oi + ol).len() == ol);
            assert(news@.subrange(ni as int, ni + nl).len() == nl);
        }
        return false;
    }
    let no = olds.len();
    let nw = news.len();
    let mut t: usize = 0;
    while t < ol
        invariant
            ol == nl,
            no == olds@.len(),
            nw == news@.len(),
            oi + ol <= no,
            ni + nl <= nw,
            t <= ol,
            forall|v: int|
                0 <= v < t ==> #[trigger] olds@.subrange(oi as int, oi + ol)[v] == news@.subrange(
                    ni as int,
                    ni + nl,
                )[v],
        decreases ol - t,
    {
        if olds[oi + t] != news[ni + t] {
            proof {
                assert(olds@.subrange(oi as int, oi + ol)[t as int] != news@.subrange(
                    ni as int,
                    ni + nl,
                )[t as int]);
            }
            return false;
        }
        t = t + 1;
    }
    proof {
        assert(olds@.subrange(oi as int, oi + ol) =~= news@.subrange(ni as int, ni + nl));
    }
    true
}

/// The classification and merge of one diff step, as `diff_merge` promises
/// it for a non-structural edit: spans come from the rebuilt stream, values
/// from the rebuilt stream except under the double-brace exception, where
/// the old value stays.
pub open spec fn merged_token_at(
    old: Seq<TokenWithSpan>,
    new: Seq<TokenWithSpan>,
    j: int,
) -> TokenWithSpan {
    if brace_exception_at(old, new, j) {
        TokenWithSpan { span: new[j].span, token: old[j].token }
    } else {
        new[j]
    }
}

/// Diffs the rebuilt stream against the file's previous one.  Returns the
/// reparse flag, the mutated positions in ascending order, and the merged
/// stream that replaces the file's tokens when no reparse is needed.
fn diff_merge(
    old_tokens: &Vec<TokenWithSpan>,
    old_strings: &Vec<char>,
    new_tokens: &Vec<TokenWithSpan>,
    new_strings: &Vec<char>,
) -> (r: (bool, Vec<usize>, Vec<TokenWithSpan>))
    requires
        old_tokens@.len() >= 1,
        tokens_pool_wf(old_tokens@, old_strings@),
        tokens_pool_wf(new_tokens@, new_strings@),
    ensures
        r.0 == spec_structural(old_tokens@, new_tokens@),
        forall|q: int|
            0 <= q < r.1@.len() ==> 0 <= #[trigger] r.1@[q] < new_tokens@.len() && r.1@[q]
                < old_tokens@.len() && mutation_at(
                old_tokens@,
                old_strings@,
                new_tokens@,
                new_strings@,
                r.1@[q] as int,
            ),
        forall|j: int|
            0 <= j < new_tokens@.len() && j < old_tokens@.len() && mutation_at(
                old_tokens@,
                old_strings@,
                new_tokens@,
                new_strings@,
                j,
            ) ==> r.1@.contains(j as usize),
        forall|q1: int, q2: int| 0 <= q1 < q2 < r.1@.len() ==> r.1@[q1] < r.1@[q2],
        !r.0 ==> {
            &&& r.2@.len() == old_tokens@.len()
            &&& forall|j: int|
                0 <= j < new_tokens@.len() ==> #[trigger] r.2@[j] == merged_token_at(
                    old_tokens@,
                    new_tokens@,
                    j,
                )
            &&& r.2@[r.2@.len() - 1] == old_tokens@[old_tokens@.len() - 1]
        },
{
    let on = old_tokens.len();
    let nn = new_tokens.len();
    let mut structural = false;
    let mut mutations: Vec<usize> = Vec::new();
    let mut merged: Vec<TokenWithSpan> = Vec::new();
    let mut j: usize = 0;
    while j < nn
        invariant
            on == old_tokens@.len(),
            nn == new_tokens@.len(),
            on >= 1,
            j <= nn,
            tokens_pool_wf(old_tokens@, old_strings@),
            tokens_pool_wf(new_tokens@, new_strings@),
            merged@.len() == j,
            structural == ((exists|p: int|
                0 <= p < j && p < on && structural_at(old_tokens@, new_tokens@, p)) || j > on),
            !structural ==> forall|p: int|
                0 <= p < j ==> #[trigger] merged@[p] == merged_token_at(
                    old_tokens@,
                    new_tokens@,
                    p,
                ),
            forall|q: int|
                0 <= q < mutations@.len() ==> 0 <= #[trigger] mutations@[q] < j && mutations@[q]
                    < on && mutation_at(
                    old_tokens@,
                    old_strings@,
                    new_tokens@,
                    new_strings@,
                    mutations@[q] as int,
                ),
            forall|p: int|
                0 <= p < j && p < on && mutation_at(
                    old_tokens@,
                    old_strings@,
                    new_tokens@,
                    new_strings@,
                    p,
                ) ==> mutations@.contains(p as usize),
            forall|q1: int, q2: int| 0 <= q1 < q2 < mutations@.len() ==> mutations@[q1]
                < mutations@[q2],
        decreases nn - j,
    {
        let nt = new_tokens[j];
        let ghost muts0 = mutations@;
        let ghost structural0 = structural;
        if j >= on {
            structural = true;
            merged.push(nt);
        } else {
            let ot = old_tokens[j];
            let mut is_mutation = false;
            let mut is_structural_here = false;
            let mut out_tok = nt;
            match (ot.token, nt.token) {
                (
                    LiveToken::Str { index: oi, len: ol },
                    LiveToken::Str { index: ni, len: nl },
                ) => {
                    let same = str_slices_equal(old_strings, oi, ol, new_strings, ni, nl);
                    if !same || oi != ni || ol != nl {
                        is_mutation = true;
                    }
                },
                _ => {
                    if ot.token.parse_equal(&nt.token) {
                        if !token_eq(&ot.token, &nt.token) {
                            is_mutation = true;
                        }
                    } else {
                        let exception = j > 2 && is_open_brace_at(old_tokens, j - 2)
                            && is_open_brace_at(old_tokens, j - 1) && ((matches!(
                            ot.token,
                            LiveToken::Int(_),
                        ) && matches!(nt.token, LiveToken::Ident(_))) || (matches!(
                            ot.token,
                            LiveToken::Ident(_),
                        ) && matches!(nt.token, LiveToken::Int(_))));
                        if exception {
                            out_tok = TokenWithSpan { span: nt.span, token: ot.token };
                        } else {
                            is_structural_here = true;
                        }
                    }
                },
            }
            proof {
                assert(is_mutation == mutation_at(
                    old_tokens@,
                    old_strings@,
                    new_tokens@,
                    new_strings@,
                    j as int,
                ));
                assert(is_structural_here == structural_at(old_tokens@, new_tokens@, j as int));
            }
            if is_mutation {
                mutations.push(j);
                proof {
                    assert forall|q1: int, q2: int|
                        0 <= q1 < q2 < mutations@.len() implies mutations@[q1]
                        < mutations@[q2] by {
                        if q2 < muts0.len() {
                        } else {
                            assert(mutations@[q2] == j);
                        }
                    }
                }
            }
            proof {
                assert forall|p: int|
                    0 <= p < j + 1 && p < on && mutation_at(
                        old_tokens@,
                        old_strings@,
                        new_tokens@,
                        new_strings@,
                        p,
                    ) implies mutations@.contains(p as usize) by {
                    if p < j {
                        assert(muts0.contains(p as usize));
                        let qi = choose|qi: int|
                            0 <= qi < muts0.len() && muts0[qi] == p as usize;
                        assert(mutations@[qi] == p as usize);
                    } else {
                        assert(mutations@[mutations@.len() - 1] == j as usize);
                    }
                }
            }
            if is_structural_here {
                structural = true;
            }
            merged.push(out_tok);
        }
        j = j + 1;
    }
    if nn < on {
        let mut tail = nn;
        while tail < on
            invariant
                on == old_tokens@.len(),
                nn == new_tokens@.len(),
                nn <= tail <= on,
                merged@.len() == tail,
                forall|p: int| nn <= p < tail ==> #[trigger] merged@[p] == old_tokens@[p],
                structural == ((exists|p: int|
                    0 <= p < nn && p < on && structural_at(old_tokens@, new_tokens@, p)) || nn
                    > on),
                !structural ==> forall|p: int|
                    0 <= p < nn ==> #[trigger] merged@[p] == merged_token_at(
                        old_tokens@,
                        new_tokens@,
                        p,
                    ),
            decreases on - tail,
        {
            merged.push(old_tokens[tail]);
            tail = tail + 1;
        }
    }
    if nn != on - 1 {
        structural = true;
    }
    (structural, mutations, merged)
}

fn is_open_brace_at(tokens: &Vec<TokenWithSpan>, j: usize) -> (r: bool)
    requires
        j < tokens@.len(),
    ensures
        r == (tokens@[j as int].token == LiveToken::Open(DelimKind::Brace)),
{
    tokens[j].token.is_open_brace()
}

fn token_eq(a: &LiveToken, b: &LiveToken) -> (r: bool)
    ensures
        r == (a == b),
{
    match (a, b) {
        (LiveToken::Punct(x), LiveToken::Punct(y)) => x == y,
        (LiveToken::Ident(x), LiveToken::Ident(y)) => x == y,
        (LiveToken::Open(x), LiveToken::Open(y)) => delim_eq(*x, *y),
        (LiveToken::Close(x), LiveToken::Close(y)) => delim_eq(*x, *y),
        (LiveToken::Str { index: xi, len: xl }, LiveToken::Str { index: yi, len: yl }) => xi == yi
            && xl == yl,
        (LiveToken::Bool(x), LiveToken::Bool(y)) => x == y,
        (LiveToken::Color(x), LiveToken::Color(y)) => x == y,
        (LiveToken::Float(x), LiveToken::Float(y)) => x == y,
        (LiveToken::Int(x), LiveToken::Int(y)) => x == y,
        (LiveToken::Eof, LiveToken::Eof) => true,
        _ => false,
    }
}

fn delim_eq(a: DelimKind, b: DelimKind) -> (r: bool)
    ensures
        r == (a == b),
{
    match (a, b) {
        (DelimKind::Paren, DelimKind::Paren) => true,
        (DelimKind::Bracket, DelimKind::Bracket) => true,
        (DelimKind::Brace, DelimKind::Brace) => true,
        _ => false,
    }
}


/// Applies an edit to a file's document: rebuilds the edited range's token
/// stream, classifies the change, and on a value-only change writes the
/// merged stream and the new string pool into the document.  The first
/// component of a successful result says whether the caller must reparse
/// the file; on a structural change the document is left untouched.  The
/// second component lists the mutated token positions, in ascending order,
/// for the patch propagator.
pub fn update_document(
    doc: &mut LiveDocument,
    file_id: LiveFileId,
    range: TokenRange,
    relex: &Vec<RelexedLine>,
) -> (r: Result<(bool, Vec<usize>), LiveError>)
    requires
        old(doc).tokens@.len() >= 1,
        old(doc).tokens@[old(doc).tokens@.len() - 1].token is Eof,
        tokens_pool_wf(old(doc).tokens@, old(doc).strings@),
        forall|l: int| 0 <= l < relex@.len() ==> (#[trigger] relex@[l]).wf(),
        range.start.line + relex@.len() <= usize::MAX,
    ensures
        r matches Err(e) ==> *final(doc) == *old(doc) && spec_flatten(
            relex@,
            range,
            file_id,
            0,
            Seq::empty(),
            Seq::empty(),
        ) is None && e.span.file_id == file_id,
        r matches Ok(ok) ==> ({
            let flat = spec_flatten(relex@, range, file_id, 0, Seq::empty(), Seq::empty());
            &&& flat matches Some(ns)
            &&& ok.0 == spec_structural(old(doc).tokens@, ns.0)
            &&& (ok.0 ==> *final(doc) == *old(doc))
            &&& (!ok.0 ==> {
                &&& final(doc).nodes == old(doc).nodes
                &&& final(doc).recompile == old(doc).recompile
                &&& final(doc).tokens@.len() == old(doc).tokens@.len()
                &&& forall|j: int| 0 <= j < ns.0.len() ==> !((#[trigger] ns.0[j].token) is Eof)
                &&& forall|j: int|
                    0 <= j < ns.0.len() ==> #[trigger] final(doc).tokens@[j] == merged_token_at(
                        old(doc).tokens@,
                        ns.0,
                        j,
                    )
                &&& final(doc).tokens@[final(doc).tokens@.len() - 1] == old(doc).tokens@[old(
                    doc,
                ).tokens@.len() - 1]
                &&& (ok.1@.len() > 0 ==> final(doc).strings@ == ns.1)
                &&& (ok.1@.len() == 0 ==> final(doc).strings == old(doc).strings)
                &&& forall|q: int|
                    0 <= q < ok.1@.len() ==> 0 <= #[trigger] ok.1@[q] < ns.0.len() && mutation_at(
                        old(doc).tokens@,
                        old(doc).strings@,
                        ns.0,
                        ns.1,
                        ok.1@[q] as int,
                    )
                &&& forall|j: int|
                    0 <= j < ns.0.len() && mutation_at(
                        old(doc).tokens@,
                        old(doc).strings@,
                        ns.0,
                        ns.1,
                        j,
                    ) ==> ok.1@.contains(j as usize)
                &&& forall|q1: int, q2: int| 0 <= q1 < q2 < ok.1@.len() ==> ok.1@[q1] < ok.1@[q2]
                &&& tokens_pool_wf(final(doc).tokens@, final(doc).strings@)
            })
        }),
{
    let flat = flatten_relex(relex, range, file_id);
    let (new_tokens, new_strings) = match flat {
        Ok(ns) => ns,
        Err(e) => {
            return Err(e);
        },
    };
    let (structural, mutations, merged) = diff_merge(
        &doc.tokens,
        &doc.strings,
        &new_tokens,
        &new_strings,
    );
    if structural {
        return Ok((true, Vec::new()));
    }
    let ghost old_tokens = doc.tokens@;
    let ghost old_strings = doc.strings@;
    let has_mutations = mutations.len() > 0;
    doc.tokens = merged;
    if has_mutations {
        doc.strings = new_strings;
    }
    proof {
        let ns0 = new_tokens@;
        assert forall|k: int|
            0 <= k < doc.tokens@.len() implies ((#[trigger] doc.tokens@[k].token)
            matches LiveToken::Str { index, len } ==> index + len <= doc.strings@.len()) by {
            if k < ns0.len() {
                assert(doc.tokens@[k] == merged_token_at(old_tokens, ns0, k));
                if !brace_exception_at(old_tokens, ns0, k) {
                    assert(doc.tokens@[k] == ns0[k]);
                    assert(tokens_pool_wf(new_tokens@, new_strings@));
                    assert((new_tokens@[k].token matches LiveToken::Str { index, len } ==> index
                        + len <= new_strings@.len()));
                    assert((old_tokens[k].token matches LiveToken::Str { index, len } ==> index
                        + len <= old_strings.len()));
                    match (old_tokens[k].token, ns0[k].token) {
                        (
                            LiveToken::Str { index: oi, len: ol },
                            LiveToken::Str { index: ni, len: nl },
                        ) => {
                            if !has_mutations {
                                if oi != ni || ol != nl {
                                    assert(mutation_at(
                                        old_tokens,
                                        old_strings,
                                        ns0,
                                        new_strings@,
                                        k,
                                    ));
                                    assert(mutations@.contains(k as usize));
                                    assert(false);
                                }
                            }
                        },
                        (a, b) => {
                            if ns0[k].token is Str {
                                assert(!spec_structural(old_tokens, ns0));
                                assert(!structural_at(old_tokens, ns0, k));
                                assert(a.spec_parse_equal(b) || brace_exception_at(
                                    old_tokens,
                                    ns0,
                                    k,
                                ));
                                assert(a is Str);
                            }
                        },
                    }
                }
            } else {
                assert(k == old_tokens.len() - 1);
                assert(doc.tokens@[k] == old_tokens[k]);
                assert(old_tokens[k].token is Eof);
            }
        }
    }
    Ok((false, mutations))
}

/// Law (structural-edit detection): an edit that inserts or removes a token
/// always forces a full reparse, however unchanged the remaining tokens
/// are: a rebuilt stream whose length differs from the previous stream's
/// (less its end-of-file token) is classified as structural.
pub proof fn lemma_count_change_forces_reparse(old: Seq<TokenWithSpan>, new: Seq<TokenWithSpan>)
    requires
        new.len() != old.len() - 1,
    ensures
        spec_structural(old, new),
{
}

/// Law (value-only classification): an edit that keeps the token count and
/// every token's parse shape — such as changing only a numeric literal's
/// digits — is never classified as structural, so no reparse is demanded.
pub proof fn lemma_value_only_edit_no_reparse(old: Seq<TokenWithSpan>, new: Seq<TokenWithSpan>)
    requires
        new.len() == old.len() - 1,
        forall|j: int|
            0 <= j < new.len() ==> (#[trigger] old[j].token).spec_parse_equal(new[j].token),
    ensures
        !spec_structural(old, new),
{
}

} // verus!
