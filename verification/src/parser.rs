//! The parser: a token stream to an unexpanded flat node array.
//!
//! Grammar, entries separated by optional commas:
//!
//! ```text
//! document := entry* EOF
//! entry    := "use" ident "::" ident "::" (ident | "*")
//!           | ident ":" value
//! value    := bool | int | float | color | string
//!           | "{{" ident "}}" "{" entry* "}"     (class backed by a native type)
//!           | ident "{" entry* "}"               (clone of a scope item)
//!           | "{" entry* "}"                     (object)
//!           | "[" (value ","?)* "]"              (array of anonymous values)
//! ```
//!
//! The contract pins the shape of the output: one balanced tree rooted in a
//! single open node, every node's origin pointing at a token of this file,
//! every class node naming a known native type, and every string value
//! pointing inside the string pool.  A grammar violation is a structured
//! error carrying the offending token's span.

use vstd::prelude::*;
use crate::document::{depth_to, lemma_depth_to_agree, node_delta, nodes_rooted, LiveNode,
    LiveNodeOrigin, LiveTypeInfo, LiveValue};
use crate::error::LiveError;
use crate::ids::{live_id_from_str, live_id_of, LiveFileId, LiveModuleId, LiveTokenId};
use crate::token::{DelimKind, LiveToken, TokenWithSpan};

verus! {

/// The identifier hashes of the fixed words of the grammar, computed once
/// per parse through the external hash.
pub struct Keywords {
    pub use_id: u64,
    pub colon: u64,
    pub colon_colon: u64,
    pub comma: u64,
    pub star: u64,
}

impl Keywords {
    pub fn new() -> (r: Keywords)
        ensures
            r.use_id == live_id_of("use"@),
            r.colon == live_id_of(":"@),
            r.colon_colon == live_id_of("::"@),
            r.comma == live_id_of(","@),
            r.star == live_id_of("*"@),
    {
        Keywords {
            use_id: live_id_from_str("use"),
            colon: live_id_from_str(":"),
            colon_colon: live_id_from_str("::"),
            comma: live_id_from_str(","),
            star: live_id_from_str("*"),
        }
    }
}

/// What the parser guarantees of every node it emits.
pub open spec fn parsed_node_wf(
    n: LiveNode,
    file_id: LiveFileId,
    n_tokens: int,
    pool_len: int,
    infos: Seq<LiveTypeInfo>,
) -> bool {
    &&& (n.origin.token_id matches Some(t) ==> t.file_id == file_id && t.index < n_tokens)
    &&& n.origin.node_index is None
    &&& (n.value matches LiveValue::Class { live_type, class_parent } ==> class_parent is None
        && exists|q: int| 0 <= q < infos.len() && (#[trigger] infos[q]).live_type == live_type)
    &&& (n.value matches LiveValue::Str { index, len } ==> index + len <= pool_len)
}

/// A token stream fit for parsing: non-empty, exactly one end-of-file token
/// and it stands last, string tokens point inside the pool.  The tokenizer
/// produces exactly this.
pub open spec fn parse_input_wf(tokens: Seq<TokenWithSpan>, pool_len: int) -> bool {
    &&& tokens.len() >= 1
    &&& tokens[tokens.len() - 1].token is Eof
    &&& forall|k: int| 0 <= k < tokens.len() - 1 ==> !((#[trigger] tokens[k].token) is Eof)
    &&& forall|k: int|
        0 <= k < tokens.len() ==> ((#[trigger] tokens[k].token) matches LiveToken::Str {
            index,
            len,
        } ==> index + len <= pool_len)
}

/// The ensures every parsing step shares: earlier nodes stay, the appended
/// segment is depth-neutral and never dips below the depth it started at,
/// and each appended node is well formed.
pub open spec fn parse_step_post(
    tokens: Seq<TokenWithSpan>,
    file_id: LiveFileId,
    pool_len: int,
    infos: Seq<LiveTypeInfo>,
    out0: Seq<LiveNode>,
    out1: Seq<LiveNode>,
) -> bool {
    &&& out1.len() >= out0.len()
    &&& forall|j: int| 0 <= j < out0.len() ==> out1[j] == out0[j]
    &&& depth_to(out1, out1.len() as int) == depth_to(out0, out0.len() as int)
    &&& forall|i: int|
        out0.len() < i <= out1.len() ==> #[trigger] depth_to(out1, i) >= depth_to(
            out0,
            out0.len() as int,
        )
    &&& forall|j: int|
        out0.len() <= j < out1.len() ==> parsed_node_wf(
            #[trigger] out1[j],
            file_id,
            tokens.len() as int,
            pool_len,
            infos,
        )
}

/// Two parsing steps in sequence are one.
proof fn lemma_parse_step_trans(
    tokens: Seq<TokenWithSpan>,
    file_id: LiveFileId,
    pool_len: int,
    infos: Seq<LiveTypeInfo>,
    a: Seq<LiveNode>,
    b: Seq<LiveNode>,
    c: Seq<LiveNode>,
)
    requires
        parse_step_post(tokens, file_id, pool_len, infos, a, b),
        parse_step_post(tokens, file_id, pool_len, infos, b, c),
    ensures
        parse_step_post(tokens, file_id, pool_len, infos, a, c),
{
    assert forall|i: int| a.len() < i <= c.len() implies #[trigger] depth_to(c, i) >= depth_to(
        a,
        a.len() as int,
    ) by {
        if i <= b.len() {
            lemma_depth_to_agree(c, b, i);
        }
    }
}

/// Appends one node, carrying the depth bookkeeping with it.
fn push_node(out: &mut Vec<LiveNode>, n: LiveNode)
    ensures
        final(out)@.len() == old(out)@.len() + 1,
        forall|j: int| 0 <= j < old(out)@.len() ==> final(out)@[j] == old(out)@[j],
        final(out)@[old(out)@.len() as int] == n,
        forall|i: int|
            0 <= i <= old(out)@.len() ==> #[trigger] depth_to(final(out)@, i) == depth_to(
                old(out)@,
                i,
            ),
        depth_to(final(out)@, final(out)@.len() as int) == depth_to(
            old(out)@,
            old(out)@.len() as int,
        ) + node_delta(n),
{
    let ghost before = out@;
    out.push(n);
    proof {
        assert forall|i: int| 0 <= i <= before.len() implies #[trigger] depth_to(out@, i)
            == depth_to(before, i) by {
            lemma_depth_to_agree(out@, before, i);
        }
        assert(out@.len() == before.len() + 1);
        assert(out@[before.len() as int] == n);
        assert(depth_to(out@, before.len() as int + 1) == depth_to(out@, before.len() as int)
            + node_delta(out@[before.len() as int]));
    }
}

/// Appends the close node ending a subtree: the open node and its entries
/// stand between `out0` and the current contents, one level deep.
fn push_close(
    out: &mut Vec<LiveNode>,
    origin: LiveNodeOrigin,
    Ghost(tokens): Ghost<Seq<TokenWithSpan>>,
    Ghost(file_id): Ghost<LiveFileId>,
    Ghost(pool_len): Ghost<int>,
    Ghost(infos): Ghost<Seq<LiveTypeInfo>>,
    Ghost(out0): Ghost<Seq<LiveNode>>,
)
    requires
        old(out)@.len() > out0.len(),
        forall|j: int| 0 <= j < out0.len() ==> old(out)@[j] == out0[j],
        forall|j: int|
            out0.len() <= j < old(out)@.len() ==> parsed_node_wf(
                #[trigger] old(out)@[j],
                file_id,
                tokens.len() as int,
                pool_len,
                infos,
            ),
        depth_to(old(out)@, old(out)@.len() as int) == depth_to(out0, out0.len() as int) + 1,
        forall|i: int|
            out0.len() < i <= old(out)@.len() ==> #[trigger] depth_to(old(out)@, i) >= depth_to(
                out0,
                out0.len() as int,
            ) + 1,
        origin.node_index is None,
        origin.token_id matches Some(t) ==> t.file_id == file_id && t.index < tokens.len(),
    ensures
        parse_step_post(tokens, file_id, pool_len, infos, out0, final(out)@),
        final(out)@.len() == old(out)@.len() + 1,
        forall|j: int| 0 <= j < old(out)@.len() ==> final(out)@[j] == old(out)@[j],
        final(out)@[final(out)@.len() - 1].value is Close,
        forall|i: int|
            out0.len() < i < final(out)@.len() ==> #[trigger] depth_to(final(out)@, i)
                >= depth_to(out0, out0.len() as int) + 1,
{
    let node = LiveNode { id: 0, origin, value: LiveValue::Close };
    let ghost before = out@;
    push_node(out, node);
    proof {
        assert forall|i: int|
            out0.len() < i <= out@.len() implies #[trigger] depth_to(out@, i) >= depth_to(
            out0,
            out0.len() as int,
        ) by {
            if i <= before.len() {
                assert(depth_to(out@, i) == depth_to(before, i));
            }
        }
    }
}

/// Looks a native type up by the identifier it is written as.
fn find_type_by_name(infos: &Vec<LiveTypeInfo>, name: u64) -> (r: Option<u64>)
    ensures
        r matches Some(lt) ==> exists|q: int|
            0 <= q < infos@.len() && (#[trigger] infos@[q]).live_type == lt,
{
    let n = infos.len();
    let mut q: usize = 0;
    while q < n
        invariant
            n == infos@.len(),
            q <= n,
        decreases n - q,
    {
        if infos[q].name_id == name {
            return Some(infos[q].live_type);
        }
        q = q + 1;
    }
    None
}

fn delim_matches(a: DelimKind, b: DelimKind) -> (r: bool)
    ensures
        r == (a == b),
{
    match (a, b) {
        (DelimKind::Paren, DelimKind::Paren) => true,
        (DelimKind::Bracket, DelimKind::Bracket) => true,
        (DelimKind::Brace, DelimKind::Brace) => true,
        _ => false,
    }
}

/// Parses entries until the closing delimiter (consuming it) or, when
/// parsing at top level, until the end-of-file token (not consuming it).
fn parse_entries(
    tokens: &Vec<TokenWithSpan>,
    infos: &Vec<LiveTypeInfo>,
    kw: &Keywords,
    file_id: LiveFileId,
    pool_len: usize,
    pos: usize,
    out: &mut Vec<LiveNode>,
    close_delim: Option<DelimKind>,
) -> (r: Result<usize, LiveError>)
    requires
        parse_input_wf(tokens@, pool_len as int),
        pos < tokens@.len(),
    ensures
        r matches Ok(p2) ==> pos <= p2 < tokens@.len() && parse_step_post(
            tokens@,
            file_id,
            pool_len as int,
            infos@,
            old(out)@,
            final(out)@,
        ) && (close_delim is None ==> tokens@[p2 as int].token is Eof),
    decreases tokens@.len() - pos, 1int,
{
    let n = tokens.len();
    let ghost out0 = out@;
    let mut p = pos;
    loop
        invariant
            n == tokens@.len(),
            parse_input_wf(tokens@, pool_len as int),
            pos <= p < n,
            out0 == old(out)@,
            parse_step_post(tokens@, file_id, pool_len as int, infos@, out0, out@),
        decreases n - p, 0int,
    {
        let t = tokens[p];
        match t.token {
            LiveToken::Eof => {
                match close_delim {
                    None => {
                        return Ok(p);
                    },
                    Some(_) => {
                        return Err(LiveError::new(t.span, "unexpected end of file"));
                    },
                }
            },
            LiveToken::Close(d) => {
                match close_delim {
                    Some(cd) => {
                        if delim_matches(d, cd) {
                            return Ok(p + 1);
                        } else {
                            return Err(LiveError::new(t.span, "mismatched closing delimiter"));
                        }
                    },
                    None => {
                        return Err(LiveError::new(t.span, "unexpected closing delimiter"));
                    },
                }
            },
            LiveToken::Punct(c) => {
                if c == kw.comma {
                    p = p + 1;
                } else {
                    return Err(LiveError::new(t.span, "unexpected punctuation"));
                }
            },
            LiveToken::Ident(name) => {
                let next_colon = match tokens[p + 1].token {
                    LiveToken::Punct(c) => c == kw.colon,
                    _ => false,
                };
                let ghost before = out@;
                if name == kw.use_id && !next_colon {
                    let p2 = match parse_use(tokens, infos, kw, file_id, pool_len, p, out) {
                        Ok(p2) => p2,
                        Err(e) => {
                            return Err(e);
                        },
                    };
                    proof {
                        lemma_parse_step_trans(
                            tokens@,
                            file_id,
                            pool_len as int,
                            infos@,
                            out0,
                            before,
                            out@,
                        );
                    }
                    p = p2;
                } else {
                    if !next_colon {
                        return Err(
                            LiveError::new(tokens[p + 1].span, "expected a colon after the name"),
                        );
                    }
                    let p2 = match parse_value(
                        tokens,
                        infos,
                        kw,
                        file_id,
                        pool_len,
                        name,
                        p,
                        p + 2,
                        out,
                    ) {
                        Ok(p2) => p2,
                        Err(e) => {
                            return Err(e);
                        },
                    };
                    proof {
                        lemma_parse_step_trans(
                            tokens@,
                            file_id,
                            pool_len as int,
                            infos@,
                            out0,
                            before,
                            out@,
                        );
                    }
                    p = p2;
                }
            },
            _ => {
                return Err(LiveError::new(t.span, "expected a name, a use, or a close"));
            },
        }
    }
}

/// Parses one `use` declaration starting at its keyword, emitting a single
/// `Use` node whose identifier is the imported name, or the empty
/// identifier for a glob import.
fn parse_use(
    tokens: &Vec<TokenWithSpan>,
    infos: &Vec<LiveTypeInfo>,
    kw: &Keywords,
    file_id: LiveFileId,
    pool_len: usize,
    pos: usize,
    out: &mut Vec<LiveNode>,
) -> (r: Result<usize, LiveError>)
    requires
        parse_input_wf(tokens@, pool_len as int),
        pos < tokens@.len(),
        !(tokens@[pos as int].token is Eof),
    ensures
        r matches Ok(p2) ==> pos < p2 < tokens@.len() && parse_step_post(
            tokens@,
            file_id,
            pool_len as int,
            infos@,
            old(out)@,
            final(out)@,
        ),
{
    let n = tokens.len();
    if n - pos < 7 {
        return Err(LiveError::new(tokens[pos].span, "incomplete use declaration"));
    }
    let crate_part = match tokens[pos + 1].token {
        LiveToken::Ident(id) => id,
        _ => {
            return Err(LiveError::new(tokens[pos + 1].span, "expected a crate name"));
        },
    };
    let sep1 = match tokens[pos + 2].token {
        LiveToken::Punct(c) => c == kw.colon_colon,
        _ => false,
    };
    if !sep1 {
        return Err(LiveError::new(tokens[pos + 2].span, "expected a path separator"));
    }
    let module_part = match tokens[pos + 3].token {
        LiveToken::Ident(id) => id,
        _ => {
            return Err(LiveError::new(tokens[pos + 3].span, "expected a module name"));
        },
    };
    let sep2 = match tokens[pos + 4].token {
        LiveToken::Punct(c) => c == kw.colon_colon,
        _ => false,
    };
    if !sep2 {
        return Err(LiveError::new(tokens[pos + 4].span, "expected a path separator"));
    }
    let item = match tokens[pos + 5].token {
        LiveToken::Ident(id) => id,
        LiveToken::Punct(c) => {
            if c == kw.star {
                0
            } else {
                return Err(LiveError::new(tokens[pos + 5].span, "expected an item or a glob"));
            }
        },
        _ => {
            return Err(LiveError::new(tokens[pos + 5].span, "expected an item or a glob"));
        },
    };
    let node = LiveNode {
        id: item,
        origin: LiveNodeOrigin {
            token_id: Some(LiveTokenId { file_id, index: pos }),
            node_index: None,
        },
        value: LiveValue::Use { module_id: LiveModuleId(crate_part, module_part) },
    };
    push_node(out, node);
    Ok(pos + 6)
}

/// Parses one value for the property `name` whose name token stands at
/// `name_tok`; `pos` is the first token of the value itself.
#[verifier::rlimit(50)]
fn parse_value(
    tokens: &Vec<TokenWithSpan>,
    infos: &Vec<LiveTypeInfo>,
    kw: &Keywords,
    file_id: LiveFileId,
    pool_len: usize,
    name: u64,
    name_tok: usize,
    pos: usize,
    out: &mut Vec<LiveNode>,
) -> (r: Result<usize, LiveError>)
    requires
        parse_input_wf(tokens@, pool_len as int),
        name_tok < tokens@.len(),
        pos < tokens@.len(),
    ensures
        r matches Ok(p2) ==> pos < p2 < tokens@.len() && parse_step_post(
            tokens@,
            file_id,
            pool_len as int,
            infos@,
            old(out)@,
            final(out)@,
        ),
    decreases tokens@.len() - pos, 0int,
{
    let n = tokens.len();
    let t = tokens[pos];
    let origin = LiveNodeOrigin {
        token_id: Some(LiveTokenId { file_id, index: name_tok }),
        node_index: None,
    };
    let ghost out0 = out@;
    match t.token {
        LiveToken::Bool(b) => {
            push_node(out, LiveNode { id: name, origin, value: LiveValue::Bool(b) });
            Ok(pos + 1)
        },
        LiveToken::Int(v) => {
            push_node(out, LiveNode { id: name, origin, value: LiveValue::Int(v) });
            Ok(pos + 1)
        },
        LiveToken::Float(v) => {
            push_node(out, LiveNode { id: name, origin, value: LiveValue::Float(v) });
            Ok(pos + 1)
        },
        LiveToken::Color(v) => {
            push_node(out, LiveNode { id: name, origin, value: LiveValue::Color(v) });
            Ok(pos + 1)
        },
        LiveToken::Str { index, len } => {
            push_node(out, LiveNode { id: name, origin, value: LiveValue::Str { index, len } });
            Ok(pos + 1)
        },
        LiveToken::Ident(target) => {
            let open_ok = match tokens[pos + 1].token {
                LiveToken::Open(DelimKind::Brace) => true,
                _ => false,
            };
            if !open_ok {
                return Err(LiveError::new(tokens[pos + 1].span, "expected an opening brace"));
            }
            push_node(out, LiveNode { id: name, origin, value: LiveValue::Clone(target) });
            let ghost out1 = out@;
            let p2 = match parse_entries(
                tokens,
                infos,
                kw,
                file_id,
                pool_len,
                pos + 2,
                out,
                Some(DelimKind::Brace),
            ) {
                Ok(p2) => p2,
                Err(e) => {
                    return Err(e);
                },
            };
            proof {
                seam_facts(tokens@, file_id, pool_len as int, infos@, out0, out1, out@);
            }
            push_close(
                out,
                LiveNodeOrigin { token_id: None, node_index: None },
                Ghost(tokens@),
                Ghost(file_id),
                Ghost(pool_len as int),
                Ghost(infos@),
                Ghost(out0),
            );
            Ok(p2)
        },
        LiveToken::Open(DelimKind::Brace) => {
            let double = match tokens[pos + 1].token {
                LiveToken::Open(DelimKind::Brace) => true,
                _ => false,
            };
            if double {
                if n - pos < 8 {
                    return Err(LiveError::new(t.span, "incomplete class value"));
                }
                let tyname = match tokens[pos + 2].token {
                    LiveToken::Ident(id) => id,
                    _ => {
                        return Err(LiveError::new(tokens[pos + 2].span, "expected a type name"));
                    },
                };
                let c1 = match tokens[pos + 3].token {
                    LiveToken::Close(DelimKind::Brace) => true,
                    _ => false,
                };
                let c2 = c1 && match tokens[pos + 4].token {
                    LiveToken::Close(DelimKind::Brace) => true,
                    _ => false,
                };
                let o2 = c2 && match tokens[pos + 5].token {
                    LiveToken::Open(DelimKind::Brace) => true,
                    _ => false,
                };
                if !o2 {
                    return Err(LiveError::new(tokens[pos + 3].span, "malformed class value"));
                }
                let live_type = match find_type_by_name(infos, tyname) {
                    Some(lt) => lt,
                    None => {
                        return Err(LiveError::new(tokens[pos + 2].span, "unknown native type"));
                    },
                };
                push_node(
                    out,
                    LiveNode {
                        id: name,
                        origin,
                        value: LiveValue::Class { live_type, class_parent: None },
                    },
                );
                let ghost out1 = out@;
                let p2 = match parse_entries(
                    tokens,
                    infos,
                    kw,
                    file_id,
                    pool_len,
                    pos + 6,
                    out,
                    Some(DelimKind::Brace),
                ) {
                    Ok(p2) => p2,
                    Err(e) => {
                        return Err(e);
                    },
                };
                proof {
                    seam_facts(tokens@, file_id, pool_len as int, infos@, out0, out1, out@);
                }
                push_close(
                    out,
                    LiveNodeOrigin { token_id: None, node_index: None },
                    Ghost(tokens@),
                    Ghost(file_id),
                    Ghost(pool_len as int),
                    Ghost(infos@),
                    Ghost(out0),
                );
                Ok(p2)
            } else {
                push_node(out, LiveNode { id: name, origin, value: LiveValue::Object });
                let ghost out1 = out@;
                let p2 = match parse_entries(
                    tokens,
                    infos,
                    kw,
                    file_id,
                    pool_len,
                    pos + 1,
                    out,
                    Some(DelimKind::Brace),
                ) {
                    Ok(p2) => p2,
                    Err(e) => {
                        return Err(e);
                    },
                };
                proof {
                    seam_facts(tokens@, file_id, pool_len as int, infos@, out0, out1, out@);
                }
                push_close(
                    out,
                    LiveNodeOrigin { token_id: None, node_index: None },
                    Ghost(tokens@),
                    Ghost(file_id),
                    Ghost(pool_len as int),
                    Ghost(infos@),
                    Ghost(out0),
                );
                Ok(p2)
            }
        },
        LiveToken::Open(DelimKind::Bracket) => {
            push_node(out, LiveNode { id: name, origin, value: LiveValue::Array });
            let ghost out1 = out@;
            let mut p = pos + 1;
            loop
                invariant
                    n == tokens@.len(),
                    parse_input_wf(tokens@, pool_len as int),
                    pos + 1 <= p < n,
                    parse_step_post(tokens@, file_id, pool_len as int, infos@, out1, out@),
                ensures
                    p < n,
                    parse_step_post(tokens@, file_id, pool_len as int, infos@, out1, out@),
                    tokens@[p as int].token == LiveToken::Close(DelimKind::Bracket),
                decreases n - p,
            {
                let e = tokens[p];
                match e.token {
                    LiveToken::Close(DelimKind::Bracket) => {
                        break ;
                    },
                    LiveToken::Eof => {
                        return Err(LiveError::new(e.span, "unexpected end of file"));
                    },
                    LiveToken::Punct(c) => {
                        if c == kw.comma {
                            p = p + 1;
                        } else {
                            return Err(LiveError::new(e.span, "unexpected punctuation"));
                        }
                    },
                    _ => {
                        let ghost before = out@;
                        let p2 = match parse_value(
                            tokens,
                            infos,
                            kw,
                            file_id,
                            pool_len,
                            0,
                            p,
                            p,
                            out,
                        ) {
                            Ok(p2) => p2,
                            Err(e2) => {
                                return Err(e2);
                            },
                        };
                        proof {
                            lemma_parse_step_trans(
                                tokens@,
                                file_id,
                                pool_len as int,
                                infos@,
                                out1,
                                before,
                                out@,
                            );
                        }
                        p = p2;
                    },
                }
            }
            proof {
                seam_facts(tokens@, file_id, pool_len as int, infos@, out0, out1, out@);
            }
            push_close(
                out,
                LiveNodeOrigin {
                    token_id: Some(LiveTokenId { file_id, index: p }),
                    node_index: None,
                },
                Ghost(tokens@),
                Ghost(file_id),
                Ghost(pool_len as int),
                Ghost(infos@),
                Ghost(out0),
            );
            Ok(p + 1)
        },
        _ => Err(LiveError::new(t.span, "expected a value")),
    }
}

/// Combines the facts of an open node pushed at `out0` and the entry
/// segment parsed after it (`out1` to `cur`) into the shape `push_close`
/// consumes.
proof fn seam_facts(
    tokens: Seq<TokenWithSpan>,
    file_id: LiveFileId,
    pool_len: int,
    infos: Seq<LiveTypeInfo>,
    out0: Seq<LiveNode>,
    out1: Seq<LiveNode>,
    cur: Seq<LiveNode>,
)
    requires
        out1.len() == out0.len() + 1,
        forall|j: int| 0 <= j < out0.len() ==> out1[j] == out0[j],
        forall|i: int| 0 <= i <= out0.len() ==> #[trigger] depth_to(out1, i) == depth_to(out0, i),
        depth_to(out1, out1.len() as int) == depth_to(out0, out0.len() as int) + 1,
        parsed_node_wf(out1[out0.len() as int], file_id, tokens.len() as int, pool_len, infos),
        parse_step_post(tokens, file_id, pool_len, infos, out1, cur),
    ensures
        cur.len() > out0.len(),
        forall|j: int| 0 <= j < out0.len() ==> cur[j] == out0[j],
        forall|j: int|
            out0.len() <= j < cur.len() ==> parsed_node_wf(
                #[trigger] cur[j],
                file_id,
                tokens.len() as int,
                pool_len,
                infos,
            ),
        depth_to(cur, cur.len() as int) == depth_to(out0, out0.len() as int) + 1,
        forall|i: int|
            out0.len() < i <= cur.len() ==> #[trigger] depth_to(cur, i) >= depth_to(
                out0,
                out0.len() as int,
            ) + 1,
{
    assert forall|j: int|
        out0.len() <= j < cur.len() implies parsed_node_wf(
        #[trigger] cur[j],
        file_id,
        tokens.len() as int,
        pool_len,
        infos,
    ) by {
        if j < out1.len() {
            assert(cur[j] == out1[j]);
        }
    }
    assert forall|i: int|
        out0.len() < i <= cur.len() implies #[trigger] depth_to(cur, i) >= depth_to(
        out0,
        out0.len() as int,
    ) + 1 by {
        if i <= out1.len() {
            lemma_depth_to_agree(cur, out1, i);
        }
    }
}

/// Parses a whole token stream into an unexpanded flat node array: one
/// balanced tree under a single root object node, every node carrying its
/// origin token and no expanded node index, every class naming a known
/// native type, every string value pointing inside the pool.
pub fn parse_document(
    tokens: &Vec<TokenWithSpan>,
    infos: &Vec<LiveTypeInfo>,
    file_id: LiveFileId,
    pool_len: usize,
) -> (r: Result<Vec<LiveNode>, LiveError>)
    requires
        parse_input_wf(tokens@, pool_len as int),
    ensures
        r matches Ok(nodes) ==> {
            &&& nodes_rooted(nodes@)
            &&& nodes@[0].value is Object
            &&& forall|j: int|
                0 <= j < nodes@.len() ==> parsed_node_wf(
                    #[trigger] nodes@[j],
                    file_id,
                    tokens@.len() as int,
                    pool_len as int,
                    infos@,
                )
        },
{
    let kw = Keywords::new();
    let mut out: Vec<LiveNode> = Vec::new();
    let ghost out0 = out@;
    push_node(
        &mut out,
        LiveNode {
            id: 0,
            origin: LiveNodeOrigin { token_id: None, node_index: None },
            value: LiveValue::Object,
        },
    );
    let ghost out1 = out@;
    let p = match parse_entries(tokens, infos, &kw, file_id, pool_len, 0, &mut out, None) {
        Ok(p) => p,
        Err(e) => {
            return Err(e);
        },
    };
    proof {
        seam_facts(tokens@, file_id, pool_len as int, infos@, out0, out1, out@);
    }
    push_close(
        &mut out,
        LiveNodeOrigin { token_id: None, node_index: None },
        Ghost(tokens@),
        Ghost(file_id),
        Ghost(pool_len as int),
        Ghost(infos@),
        Ghost(out0),
    );
    proof {
        assert(out@.len() >= 2);
        assert(out1[0].value is Object);
        assert(out@[0] == out1[0]);
        assert(depth_to(out@, out@.len() as int) == 0);
        assert forall|i: int| 0 < i < out@.len() implies #[trigger] depth_to(out@, i) >= 1 by {
        }
        assert(out@[out@.len() - 1].value is Close);
        assert(nodes_rooted(out@));
    }
    Ok(out)
}

} // verus!
