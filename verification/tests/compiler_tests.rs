use live_compiler::document::{LiveTypeInfo, LiveValue};
use live_compiler::ids::{LiveFileId, LiveModuleId};
use live_compiler::lex::lex_line;
use live_compiler::registry::LiveRegistry;
use live_compiler::span::TextPos;
use live_compiler::token::LiveToken;
use live_compiler::tokenizer::{read_string, tokenize_from_str};
use live_compiler::update::{RelexedLine, TokenPos, TokenRange};
use makepad_live_tokenizer::{LiveId, State};

fn id(s: &str) -> u64 {
    LiveId::from_str(s).0
}

fn start() -> TextPos {
    TextPos { line: 0, column: 0 }
}

fn relex_lines(src_lines: &[&str]) -> Vec<RelexedLine> {
    let mut state = State::default();
    let mut out = Vec::new();
    for l in src_lines {
        let chars: Vec<char> = l.chars().collect();
        let (next, lexemes) = lex_line(state, &chars);
        state = next;
        out.push(RelexedLine { chars, lexemes });
    }
    out
}

fn whole_range(n_lines: usize) -> TokenRange {
    TokenRange {
        start: TokenPos { line: 0, index: 0 },
        end: TokenPos { line: n_lines, index: 0 },
    }
}

fn find_top_node(reg: &LiveRegistry, file: usize, name: u64) -> usize {
    let doc = &reg.expanded[file];
    for (i, n) in doc.nodes.iter().enumerate() {
        if i > 0 && n.id == name {
            return i;
        }
    }
    panic!("node not found");
}

fn widget_info(module_id: LiveModuleId) -> LiveTypeInfo {
    LiveTypeInfo { live_type: 77, name_id: id("Widget"), module_id, fields: Vec::new() }
}

#[test]
fn string_literal_round_trips() {
    let src = "name: \"h\u{e9}llo w\u{f6}rld\"";
    let (tokens, strings) =
        tokenize_from_str(src, start(), LiveFileId(0)).expect("tokenize failed");
    let mut found = false;
    for t in &tokens {
        if let LiveToken::Str { index, len } = t.token {
            found = true;
            let body = read_string(&strings, index, len).expect("pool bounds");
            let expected: Vec<char> = "h\u{e9}llo w\u{f6}rld".chars().collect();
            assert_eq!(body, expected);
        }
    }
    assert!(found);
}

#[test]
fn string_round_trips_empty_and_ascii() {
    let src = "a: \"\"\nb: \"xy z\"";
    let (tokens, strings) =
        tokenize_from_str(src, start(), LiveFileId(0)).expect("tokenize failed");
    let mut bodies = Vec::new();
    for t in &tokens {
        if let LiveToken::Str { index, len } = t.token {
            let body: String =
                read_string(&strings, index, len).expect("pool bounds").into_iter().collect();
            bodies.push(body);
        }
    }
    assert_eq!(bodies, vec![String::new(), "xy z".to_string()]);
}

#[test]
fn tokenize_kinds_and_spans() {
    let src = "a: 12 #f00 true";
    let (tokens, _strings) =
        tokenize_from_str(src, start(), LiveFileId(0)).expect("tokenize failed");
    assert!(matches!(tokens[0].token, LiveToken::Ident(_)));
    assert!(matches!(tokens[1].token, LiveToken::Punct(_)));
    assert_eq!(tokens[2].token, LiveToken::Int(12));
    assert!(matches!(tokens[3].token, LiveToken::Color(_)));
    assert_eq!(tokens[4].token, LiveToken::Bool(true));
    assert_eq!(tokens[5].token, LiveToken::Eof);
    assert_eq!(tokens[0].span.start.column, 0);
    assert_eq!(tokens[0].span.end.column, 1);
    assert_eq!(tokens[2].span.start.column, 3);
    assert_eq!(tokens[2].span.end.column, 5);
    assert_eq!(tokens[2].span.start.line, 0);
}

#[test]
fn tokenize_rejects_unknown_lexeme() {
    let src = "a: `";
    let r = tokenize_from_str(src, start(), LiveFileId(0));
    assert!(r.is_err());
}

#[test]
fn lex_line_tiles_the_line() {
    let chars: Vec<char> = "base: {{Widget}}{ size: 10 }".chars().collect();
    let (_state, lexemes) = lex_line(State::default(), &chars);
    let total: usize = lexemes.iter().map(|l| l.len).sum();
    assert_eq!(total, chars.len());
    assert!(lexemes.iter().all(|l| l.len >= 1));
}

#[test]
fn register_rejects_bad_grammar() {
    let mut reg = LiveRegistry::new();
    let r = reg.register_live_file(
        "bad",
        LiveModuleId(id("cr"), id("m")),
        "size 10",
        Vec::new(),
        start(),
    );
    let e = r.err().expect("expected a parse error");
    assert_eq!(e.file_name, "bad");
    assert_eq!(reg.live_files.len(), 0);
}

#[test]
fn register_rejects_unknown_native_type() {
    let mut reg = LiveRegistry::new();
    let r = reg.register_live_file(
        "bad",
        LiveModuleId(id("cr"), id("m")),
        "w: {{Nope}}{ }",
        Vec::new(),
        start(),
    );
    assert!(r.is_err());
}

#[test]
fn register_rejects_bad_lexeme() {
    let mut reg = LiveRegistry::new();
    let r = reg.register_live_file(
        "bad",
        LiveModuleId(id("cr"), id("m")),
        "a: `",
        Vec::new(),
        start(),
    );
    assert!(r.is_err());
}

#[test]
fn duplicate_name_is_detected_before_registration() {
    let mut reg = LiveRegistry::new();
    assert!(!reg.is_file_registered("a"));
    reg.register_live_file("a", LiveModuleId(id("cr"), id("am")), "x: 1", Vec::new(), start())
        .expect("register");
    assert!(reg.is_file_registered("a"));
    assert!(!reg.is_file_registered("b"));
    assert_eq!(reg.path_str_to_file_id("a"), Some(LiveFileId(0)));
    assert_eq!(reg.path_str_to_file_id("b"), None);
}

#[test]
fn expansion_is_idempotent_for_plain_files() {
    let mut reg = LiveRegistry::new();
    reg.register_live_file(
        "a",
        LiveModuleId(id("cr"), id("am")),
        "pad: 1\nbox: { size: 10 b: true }",
        Vec::new(),
        start(),
    )
    .expect("register");
    let mut errors = Vec::new();
    reg.expand_all_documents(&mut errors);
    assert!(errors.is_empty());
    let first = reg.expanded[0].clone();
    reg.expand_all_documents(&mut errors);
    assert!(errors.is_empty());
    assert_eq!(reg.expanded[0], first);
}

#[test]
fn dependency_order_is_transitively_respected() {
    let mut reg = LiveRegistry::new();
    // c depends on b, b depends on a; registered most-dependent first.
    reg.register_live_file(
        "c",
        LiveModuleId(id("cr"), id("cm")),
        "use cr::bm::y\ninst: y { }",
        Vec::new(),
        start(),
    )
    .expect("register c");
    reg.register_live_file(
        "b",
        LiveModuleId(id("cr"), id("bm")),
        "use cr::am::x\ny: x { }",
        Vec::new(),
        start(),
    )
    .expect("register b");
    reg.register_live_file(
        "a",
        LiveModuleId(id("cr"), id("am")),
        "x: { v: 1 }",
        Vec::new(),
        start(),
    )
    .expect("register a");
    let order = live_compiler::dep_order::compute_dep_order(&reg.live_files);
    let pos = |f: usize| order.iter().position(|&o| o == f).expect("file in order");
    // a (index 2) before b (index 1) before c (index 0)
    assert!(pos(2) < pos(1));
    assert!(pos(1) < pos(0));
    assert_eq!(order.len(), 3);
}

#[test]
fn expansion_flattens_inheritance_across_files() {
    let mut reg = LiveRegistry::new();
    let am = LiveModuleId(id("cr"), id("am"));
    let bm = LiveModuleId(id("cr"), id("bm"));
    reg.register_live_file(
        "a",
        am,
        "pad: 1\nbase: {{Widget}}{ size: 10 }",
        vec![widget_info(am)],
        start(),
    )
    .expect("register a");
    reg.register_live_file("b", bm, "use cr::am::base\ninst: base{ }", Vec::new(), start())
        .expect("register b");
    let mut errors = Vec::new();
    reg.expand_all_documents(&mut errors);
    assert!(errors.is_empty(), "{:?}", errors);
    // b's expanded inst carries a copy of base's size with its a-file origin
    let inst = find_top_node(&reg, 1, id("inst"));
    let size = inst + 1;
    let node = &reg.expanded[1].nodes[size];
    assert_eq!(node.id, id("size"));
    assert_eq!(node.value, LiveValue::Int(10));
    let origin = node.origin.token_id.expect("origin token");
    assert_eq!(origin.file_id, LiveFileId(0));
}

#[test]
fn expansion_reports_unresolved_clone_parent() {
    let mut reg = LiveRegistry::new();
    reg.register_live_file(
        "a",
        LiveModuleId(id("cr"), id("am")),
        "inst: nothere { }",
        Vec::new(),
        start(),
    )
    .expect("register");
    let mut errors = Vec::new();
    reg.expand_all_documents(&mut errors);
    assert_eq!(errors.len(), 1);
    // the node degrades to a plain object and expansion goes on
    let inst = find_top_node(&reg, 0, id("inst"));
    assert_eq!(reg.expanded[0].nodes[inst].value, LiveValue::Object);
}

#[test]
fn scope_precedence_three_tiers() {
    let mut reg = LiveRegistry::new();
    let gm = LiveModuleId(id("cr"), id("gm"));
    let am = LiveModuleId(id("cr"), id("am"));
    let mm = LiveModuleId(id("cr"), id("mm"));
    // glob module: provides both names with its own values
    reg.register_live_file("g", gm, "x: 3\ny: 7", Vec::new(), start()).expect("register g");
    // parent module: a top-level sibling y next to base, and x inside base
    reg.register_live_file(
        "a",
        am,
        "y: 9\nbase: {{Widget}}{ x: 2 }",
        vec![widget_info(am)],
        start(),
    )
    .expect("register a");
    // main module: imports base, glob-imports g, clones base
    reg.register_live_file(
        "m",
        mm,
        "use cr::am::base\nuse cr::gm::*\ninst: base { }",
        Vec::new(),
        start(),
    )
    .expect("register m");
    let mut errors = Vec::new();
    reg.expand_all_documents(&mut errors);
    assert!(errors.is_empty(), "{:?}", errors);
    let m_file = reg.path_str_to_file_id("m").unwrap();
    let inst = find_top_node(&reg, m_file.0, id("inst"));
    // resolve from inside inst: the copied local x wins over the glob x
    let inside = inst + 1;
    let nodes = &reg.expanded[m_file.0].nodes;
    match reg.expand_resolve(m_file, nodes, inside, id("x")).expect("x resolves") {
        live_compiler::scope::LiveScopeTarget::LocalPtr(i) => {
            assert_eq!(reg.expanded[m_file.0].nodes[i].value, LiveValue::Int(2));
        },
        other => panic!("expected a local match, got {:?}", other),
    }
    // y is not among the copied children: the class-parent tier finds the
    // sibling in the parent's file, beating the glob import's y
    match reg.expand_resolve(m_file, nodes, inside, id("y")).expect("y resolves") {
        live_compiler::scope::LiveScopeTarget::ForeignPtr(p) => {
            assert_eq!(p.file_id, reg.path_str_to_file_id("a").unwrap());
            assert_eq!(reg.ptr_to_node(p).value, LiveValue::Int(9));
        },
        other => panic!("expected a foreign match, got {:?}", other),
    }
}

#[test]
fn glob_import_resolves_when_nothing_nearer_matches() {
    let mut reg = LiveRegistry::new();
    let gm = LiveModuleId(id("cr"), id("gm"));
    let mm = LiveModuleId(id("cr"), id("mm"));
    reg.register_live_file("g", gm, "z: 5", Vec::new(), start()).expect("register g");
    reg.register_live_file("m", mm, "use cr::gm::*\nw: { }", Vec::new(), start())
        .expect("register m");
    let mut errors = Vec::new();
    reg.expand_all_documents(&mut errors);
    let m_file = reg.path_str_to_file_id("m").unwrap();
    let w = find_top_node(&reg, m_file.0, id("w"));
    let nodes = &reg.expanded[m_file.0].nodes;
    match reg.expand_resolve(m_file, nodes, w, id("z")).expect("z resolves via glob") {
        live_compiler::scope::LiveScopeTarget::ForeignPtr(p) => {
            assert_eq!(reg.ptr_to_node(p).value, LiveValue::Int(5));
        },
        other => panic!("expected a glob match, got {:?}", other),
    }
}

#[test]
fn value_only_edit_patches_without_reparse() {
    let mut reg = LiveRegistry::new();
    let am = LiveModuleId(id("cr"), id("am"));
    reg.register_live_file("a", am, "pad: 1\nsize: 10", Vec::new(), start()).expect("register");
    reg.set_main_module(Some(LiveFileId(0)));
    let mut errors = Vec::new();
    reg.expand_all_documents(&mut errors);
    let relex = relex_lines(&["pad: 1", "size: 42"]);
    let needs_reparse = reg
        .update_live_file("a", whole_range(2), &relex)
        .expect("update succeeds");
    assert!(!needs_reparse);
    let size = find_top_node(&reg, 0, id("size"));
    assert_eq!(reg.expanded[0].nodes[size].value, LiveValue::Int(42));
    // the parsed token stream carries the new literal too
    let has_42 = reg.live_files[0]
        .document
        .tokens
        .iter()
        .any(|t| t.token == LiveToken::Int(42));
    assert!(has_42);
    let patches = reg.take_main_apply().expect("patch list present");
    assert_eq!(patches.len(), 1);
    assert_eq!(patches[0].path, vec![id("size")]);
    assert_eq!(patches[0].value, LiveValue::Int(42));
    assert!(reg.take_main_apply().is_none());
}

#[test]
fn string_value_edit_replaces_the_pool() {
    let mut reg = LiveRegistry::new();
    let am = LiveModuleId(id("cr"), id("am"));
    reg.register_live_file("a", am, "pad: 1\nname: \"aa\"", Vec::new(), start())
        .expect("register");
    let mut errors = Vec::new();
    reg.expand_all_documents(&mut errors);
    let relex = relex_lines(&["pad: 1", "name: \"bb\""]);
    let needs_reparse = reg.update_live_file("a", whole_range(2), &relex).expect("update");
    assert!(!needs_reparse);
    let pool: String = reg.live_files[0].document.strings.iter().collect();
    assert_eq!(pool, "bb");
}

#[test]
fn inserted_property_forces_reparse() {
    let mut reg = LiveRegistry::new();
    let am = LiveModuleId(id("cr"), id("am"));
    reg.register_live_file("a", am, "pad: 1\nsize: 10", Vec::new(), start()).expect("register");
    let mut errors = Vec::new();
    reg.expand_all_documents(&mut errors);
    let before_tokens = reg.live_files[0].document.tokens.clone();
    let before_expanded = reg.expanded[0].clone();
    let relex = relex_lines(&["pad: 1", "size: 10", "extra: 3"]);
    let range = whole_range(3);
    let needs_reparse = reg.update_live_file("a", range, &relex).expect("update");
    assert!(needs_reparse);
    assert_eq!(reg.live_files[0].document.tokens, before_tokens);
    assert_eq!(reg.expanded[0], before_expanded);
}

#[test]
fn kind_change_forces_reparse() {
    let mut reg = LiveRegistry::new();
    let am = LiveModuleId(id("cr"), id("am"));
    reg.register_live_file("a", am, "pad: 1\nsize: 10", Vec::new(), start()).expect("register");
    let relex = relex_lines(&["pad: 1", "size: true"]);
    let needs_reparse = reg.update_live_file("a", whole_range(2), &relex).expect("update");
    assert!(needs_reparse);
}

#[test]
fn cross_file_propagation_updates_both_documents() {
    let mut reg = LiveRegistry::new();
    let am = LiveModuleId(id("cr"), id("am"));
    let bm = LiveModuleId(id("cr"), id("bm"));
    reg.register_live_file(
        "a",
        am,
        "pad: 1\nbase: {{Widget}}{ size: 10 }",
        vec![widget_info(am)],
        start(),
    )
    .expect("register a");
    reg.register_live_file("b", bm, "use cr::am::base\ninst: base{ }", Vec::new(), start())
        .expect("register b");
    reg.set_main_module(Some(LiveFileId(0)));
    let mut errors = Vec::new();
    reg.expand_all_documents(&mut errors);
    assert!(errors.is_empty(), "{:?}", errors);
    let relex = relex_lines(&["pad: 1", "base: {{Widget}}{ size: 99 }"]);
    let needs_reparse = reg.update_live_file("a", whole_range(2), &relex).expect("update");
    assert!(!needs_reparse);
    // a's own expanded document
    let base = find_top_node(&reg, 0, id("base"));
    let a_size = &reg.expanded[0].nodes[base + 1];
    assert_eq!(a_size.id, id("size"));
    assert_eq!(a_size.value, LiveValue::Int(99));
    // b's expanded document, through the copied origin
    let inst = find_top_node(&reg, 1, id("inst"));
    let b_size = &reg.expanded[1].nodes[inst + 1];
    assert_eq!(b_size.id, id("size"));
    assert_eq!(b_size.value, LiveValue::Int(99));
    // exactly one pending patch for the main module, keyed by dotted path
    let patches = reg.take_main_apply().expect("patch list present");
    assert_eq!(patches.len(), 1);
    assert_eq!(patches[0].path, vec![id("base"), id("size")]);
    assert_eq!(patches[0].value, LiveValue::Int(99));
}

#[test]
fn crate_reference_is_rewritten_to_own_module() {
    let mut reg = LiveRegistry::new();
    let am = LiveModuleId(id("mycrate"), id("am"));
    reg.register_live_file("a", am, "use crate::am::base\nbase: { v: 4 }\ninst: base { }",
        Vec::new(), start())
        .expect("register");
    // the use of the literal crate key now names this file's own crate
    let use_node = reg.live_files[0]
        .document
        .nodes
        .iter()
        .find_map(|n| match n.value {
            LiveValue::Use { module_id } => Some(module_id),
            _ => None,
        })
        .expect("use node");
    assert_eq!(use_node.0, id("mycrate"));
    assert_eq!(use_node.1, id("am"));
    assert!(reg.live_files[0].deps.contains(&LiveModuleId(id("mycrate"), id("am"))));
}

#[test]
fn class_fields_contribute_dependencies() {
    let mut reg = LiveRegistry::new();
    let am = LiveModuleId(id("cr"), id("am"));
    let depm = LiveModuleId(id("cr"), id("depm"));
    let info = LiveTypeInfo {
        live_type: 42,
        name_id: id("Widget"),
        module_id: am,
        fields: vec![live_compiler::document::LiveTypeField { id: id("part"), module_id: depm }],
    };
    reg.register_live_file("a", am, "w: {{Widget}}{ }", vec![info], start())
        .expect("register");
    assert!(reg.live_files[0].deps.contains(&depm));
    assert!(!reg.live_files[0].deps.contains(&am));
}

#[test]
fn arrays_and_scalars_survive_plain_expansion() {
    let mut reg = LiveRegistry::new();
    let am = LiveModuleId(id("cr"), id("am"));
    reg.register_live_file(
        "a",
        am,
        "vals: [1, 2.5, true, #ff0000]\nname: \"s\"",
        Vec::new(),
        start(),
    )
    .expect("register");
    let mut errors = Vec::new();
    reg.expand_all_documents(&mut errors);
    assert!(errors.is_empty());
    let vals = find_top_node(&reg, 0, id("vals"));
    let nodes = &reg.expanded[0].nodes;
    assert_eq!(nodes[vals].value, LiveValue::Array);
    assert_eq!(nodes[vals + 1].value, LiveValue::Int(1));
    assert_eq!(nodes[vals + 2].value, LiveValue::Float((2.5f64).to_bits()));
    assert_eq!(nodes[vals + 3].value, LiveValue::Bool(true));
    assert!(matches!(nodes[vals + 4].value, LiveValue::Color(_)));
    assert_eq!(nodes[vals + 5].value, LiveValue::Close);
}

#[test]
fn token_spans_reach_error_reports() {
    let mut reg = LiveRegistry::new();
    let am = LiveModuleId(id("cr"), id("am"));
    let e = reg
        .register_live_file("a", am, "x: ?", Vec::new(), start())
        .err()
        .expect("grammar error");
    assert_eq!(e.file_name, "a");
    assert_eq!(e.span.start.line, 0);
}

#[test]
fn double_brace_placeholder_tolerates_kind_flip() {
    // a numeric binding placeholder may become an identifier without a
    // reparse: only its span is refreshed, the stored token stays
    let (tokens, strings) =
        tokenize_from_str("a {{0}}", start(), LiveFileId(0)).expect("tokenize");
    let mut doc = live_compiler::document::LiveDocument {
        nodes: Vec::new(),
        tokens,
        strings,
        recompile: false,
    };
    let relex = relex_lines(&["a {{w}}"]);
    let (needs_reparse, muts) =
        live_compiler::update::update_document(&mut doc, LiveFileId(0), whole_range(1), &relex)
            .expect("update");
    assert!(!needs_reparse);
    assert!(muts.is_empty());
    assert_eq!(doc.tokens[3].token, LiveToken::Int(0));
}

#[test]
fn float_value_edit_patches_bits() {
    let mut reg = LiveRegistry::new();
    let am = LiveModuleId(id("cr"), id("am"));
    reg.register_live_file("a", am, "pad: 1\nsize: 1.5", Vec::new(), start()).expect("register");
    let mut errors = Vec::new();
    reg.expand_all_documents(&mut errors);
    let relex = relex_lines(&["pad: 1", "size: 2.5"]);
    let needs_reparse = reg.update_live_file("a", whole_range(2), &relex).expect("update");
    assert!(!needs_reparse);
    let size = find_top_node(&reg, 0, id("size"));
    assert_eq!(reg.expanded[0].nodes[size].value, LiveValue::Float((2.5f64).to_bits()));
}

#[test]
fn bool_value_edit_patches() {
    let mut reg = LiveRegistry::new();
    let am = LiveModuleId(id("cr"), id("am"));
    reg.register_live_file("a", am, "pad: 1\nflag: true", Vec::new(), start())
        .expect("register");
    let mut errors = Vec::new();
    reg.expand_all_documents(&mut errors);
    let relex = relex_lines(&["pad: 1", "flag: false"]);
    let needs_reparse = reg.update_live_file("a", whole_range(2), &relex).expect("update");
    assert!(!needs_reparse);
    let flag = find_top_node(&reg, 0, id("flag"));
    assert_eq!(reg.expanded[0].nodes[flag].value, LiveValue::Bool(false));
}

#[test]
fn removed_tokens_force_reparse() {
    let mut reg = LiveRegistry::new();
    let am = LiveModuleId(id("cr"), id("am"));
    reg.register_live_file("a", am, "pad: 1\nsize: 10", Vec::new(), start()).expect("register");
    let relex = relex_lines(&["pad: 1"]);
    let range = TokenRange {
        start: TokenPos { line: 0, index: 0 },
        end: TokenPos { line: 1, index: 0 },
    };
    let needs_reparse = reg.update_live_file("a", range, &relex).expect("update");
    assert!(needs_reparse);
}

#[test]
fn first_glob_import_wins() {
    let mut reg = LiveRegistry::new();
    let g1 = LiveModuleId(id("cr"), id("g1"));
    let g2 = LiveModuleId(id("cr"), id("g2"));
    let mm = LiveModuleId(id("cr"), id("mm"));
    reg.register_live_file("g1", g1, "z: 5", Vec::new(), start()).expect("register g1");
    reg.register_live_file("g2", g2, "z: 6", Vec::new(), start()).expect("register g2");
    reg.register_live_file(
        "m",
        mm,
        "use cr::g1::*\nuse cr::g2::*\nw: { }",
        Vec::new(),
        start(),
    )
    .expect("register m");
    let mut errors = Vec::new();
    reg.expand_all_documents(&mut errors);
    let m_file = reg.path_str_to_file_id("m").unwrap();
    let w = find_top_node(&reg, m_file.0, id("w"));
    let nodes = &reg.expanded[m_file.0].nodes;
    match reg.expand_resolve(m_file, nodes, w, id("z")).expect("z resolves") {
        live_compiler::scope::LiveScopeTarget::ForeignPtr(p) => {
            // the glob declared first decides
            assert_eq!(p.file_id, reg.path_str_to_file_id("g1").unwrap());
            assert_eq!(reg.ptr_to_node(p).value, LiveValue::Int(5));
        },
        other => panic!("expected a glob match, got {:?}", other),
    }
}

#[test]
fn kind_mismatch_patch_is_skipped() {
    // a mutation whose value kind disagrees with the node is skipped, never
    // fatal: the node keeps its value
    let mut reg = LiveRegistry::new();
    let am = LiveModuleId(id("cr"), id("am"));
    reg.register_live_file("a", am, "pad: 1\nsize: 10", Vec::new(), start()).expect("register");
    let mut errors = Vec::new();
    reg.expand_all_documents(&mut errors);
    // hand-built mutation list pointing at the size value token, whose new
    // token is an int while the node was already patched to keep ints: use
    // apply_mutations directly with a mutated token of a different kind
    let size = find_top_node(&reg, 0, id("size"));
    let before = reg.expanded[0].nodes[size].value.clone();
    // mutation index 5 is the size value token; rewrite it to a bool first
    let mut doc = reg.live_files[0].document.clone();
    doc.tokens[5].token = LiveToken::Bool(true);
    let file = &reg.live_files[0];
    let rebuilt = live_compiler::registry::LiveFile {
        module_id: file.module_id,
        start_pos: file.start_pos,
        file_name: file.file_name.clone(),
        source: file.source.clone(),
        deps: file.deps.clone(),
        document: doc,
    };
    reg.live_files[0] = rebuilt;
    reg.apply_mutations(LiveFileId(0), &vec![5]);
    assert_eq!(reg.expanded[0].nodes[size].value, before);
}
