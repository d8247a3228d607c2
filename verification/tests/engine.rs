use coloring::invocation::{RepeatInput, expand_invocation, repeat_for_types};
use coloring::render::{ExpandError, render_top, synthesize};
use coloring::template::{TemplateNode, compile};
use coloring::token::{Delim, SubstitutionEntry, Token};

fn id(s: &str, p: usize) -> Token {
    Token::Ident { text: s.to_string(), pos: p }
}

fn punct(c: char, p: usize) -> Token {
    Token::Punct { ch: c, pos: p }
}

fn lit(s: &str, p: usize) -> Token {
    Token::Literal { text: s.to_string(), pos: p }
}

fn group(d: Delim, children: Vec<Token>, p: usize) -> Token {
    Token::Group { delim: d, children, pos: p }
}

fn entry(s: &str, p: usize) -> SubstitutionEntry {
    SubstitutionEntry::from_tokens(vec![id(s, p)])
}

/// `for T in [ ... ] { ... }` as a raw token stream.
fn invocation(entries: Vec<Token>, body: Vec<Token>) -> Vec<Token> {
    vec![
        id("for", 1),
        id("T", 2),
        id("in", 3),
        group(Delim::Bracket, entries, 4),
        group(Delim::Brace, body, 5),
    ]
}

#[test]
fn parse_extracts_request() {
    let toks = invocation(
        vec![id("u32", 10), punct(',', 11), id("i32", 12)],
        vec![id("T", 20)],
    );
    let req = RepeatInput::parse(&toks).unwrap();
    assert_eq!(req.variable, "T".to_string());
    assert_eq!(req.entries.len(), 2);
    assert_eq!(req.entries[0].tokens, vec![id("u32", 10)]);
    assert_eq!(req.entries[0].segment, Some("u32".to_string()));
    assert_eq!(req.entries[1].tokens, vec![id("i32", 12)]);
    assert_eq!(req.body, vec![id("T", 20)]);
}

#[test]
fn parse_is_deterministic() {
    let toks = invocation(
        vec![id("a", 10), punct(',', 11), id("b", 12), punct(',', 13)],
        vec![id("T", 20), punct(';', 21)],
    );
    let first = RepeatInput::parse(&toks).unwrap();
    let second = RepeatInput::parse(&toks).unwrap();
    assert_eq!(first, second);
}

#[test]
fn parse_rejects_missing_for() {
    let toks = vec![id("fox", 3)];
    assert_eq!(
        RepeatInput::parse(&toks),
        Err(ExpandError::StructuralError { pos: 3 })
    );
}

#[test]
fn parse_rejects_empty_stream() {
    let toks: Vec<Token> = vec![];
    assert_eq!(
        RepeatInput::parse(&toks),
        Err(ExpandError::StructuralError { pos: 0 })
    );
}

#[test]
fn parse_rejects_wrong_list_delimiter() {
    let toks = vec![
        id("for", 1),
        id("T", 2),
        id("in", 3),
        group(Delim::Brace, vec![], 4),
        group(Delim::Brace, vec![], 5),
    ];
    assert_eq!(
        RepeatInput::parse(&toks),
        Err(ExpandError::StructuralError { pos: 4 })
    );
}

#[test]
fn parse_rejects_trailing_tokens() {
    let mut toks = invocation(vec![], vec![]);
    toks.push(punct(';', 99));
    assert_eq!(
        RepeatInput::parse(&toks),
        Err(ExpandError::StructuralError { pos: 99 })
    );
}

#[test]
fn parse_rejects_empty_entry() {
    let toks = invocation(vec![punct(',', 7)], vec![id("T", 20)]);
    assert_eq!(
        RepeatInput::parse(&toks),
        Err(ExpandError::StructuralError { pos: 7 })
    );
}

#[test]
fn parse_allows_trailing_comma() {
    let toks = invocation(vec![id("a", 10), punct(',', 11)], vec![]);
    let req = RepeatInput::parse(&toks).unwrap();
    assert_eq!(req.entries.len(), 1);
}

#[test]
fn entry_without_identifier_tail_has_no_segment() {
    let e = SubstitutionEntry::from_tokens(vec![punct('!', 4)]);
    assert_eq!(e.segment, None);
    let e2 = SubstitutionEntry::from_tokens(vec![id("a", 1), punct(':', 2), punct(':', 3), id("Name", 4)]);
    assert_eq!(e2.segment, Some("Name".to_string()));
}

#[test]
fn compile_marks_implicit_mode() {
    let ph = "T".to_string();
    let body = vec![id("T", 1), punct(';', 2)];
    let (tree, explicit) = compile(&ph, &body);
    assert!(!explicit);
    assert_eq!(
        tree,
        TemplateNode::RepeatTarget {
            children: vec![
                TemplateNode::Placeholder { pos: 1 },
                TemplateNode::Other { token: punct(';', 2) },
            ],
            pos: 0,
        }
    );
}

#[test]
fn compile_marks_explicit_mode_inside_groups() {
    let ph = "T".to_string();
    let body = vec![group(
        Delim::Brace,
        vec![punct('#', 1), group(Delim::Paren, vec![id("T", 2)], 3), punct('*', 4)],
        5,
    )];
    let (_, explicit) = compile(&ph, &body);
    assert!(explicit);
}

#[test]
fn compile_leaves_unmatched_pound_alone() {
    let ph = "T".to_string();
    // `#` before a bracket group is not a repeat marker.
    let body = vec![punct('#', 1), group(Delim::Bracket, vec![], 2), punct('*', 3)];
    let (tree, explicit) = compile(&ph, &body);
    assert!(!explicit);
    assert_eq!(
        tree,
        TemplateNode::RepeatTarget {
            children: vec![
                TemplateNode::Other { token: punct('#', 1) },
                TemplateNode::Group { delim: Delim::Bracket, children: vec![], pos: 2 },
                TemplateNode::Other { token: punct('*', 3) },
            ],
            pos: 0,
        }
    );
}

#[test]
fn compile_requires_marker_target_to_match() {
    let ph = "T".to_string();
    // `a ~ B` with B not the placeholder stays ordinary tokens.
    let body = vec![id("a", 1), punct('~', 2), id("B", 3)];
    let (tree, _) = compile(&ph, &body);
    assert_eq!(
        tree,
        TemplateNode::RepeatTarget {
            children: vec![
                TemplateNode::Other { token: id("a", 1) },
                TemplateNode::Other { token: punct('~', 2) },
                TemplateNode::Other { token: id("B", 3) },
            ],
            pos: 0,
        }
    );
}

#[test]
fn concat_suffix_needs_an_identifier() {
    let ph = "T".to_string();
    // `a ~ T ~ 1`: the marker stops before the second tilde, which
    // stays an ordinary token.
    let body = vec![
        id("a", 1),
        punct('~', 2),
        id("T", 3),
        punct('~', 4),
        Token::Literal { text: "1".to_string(), pos: 5 },
    ];
    let (tree, _) = compile(&ph, &body);
    assert_eq!(
        tree,
        TemplateNode::RepeatTarget {
            children: vec![
                TemplateNode::IdentConcat {
                    prefix: "a".to_string(),
                    target: "T".to_string(),
                    suffix: None,
                    pos: 1,
                },
                TemplateNode::Other { token: punct('~', 4) },
                TemplateNode::Other { token: lit("1", 5) },
            ],
            pos: 0,
        }
    );
}

#[test]
fn pound_at_end_of_stream_is_ordinary() {
    let ph = "T".to_string();
    let body = vec![punct('#', 1)];
    let (tree, explicit) = compile(&ph, &body);
    assert!(!explicit);
    assert_eq!(
        tree,
        TemplateNode::RepeatTarget {
            children: vec![TemplateNode::Other { token: punct('#', 1) }],
            pos: 0,
        }
    );
}

#[test]
fn compile_recognises_concat_marker_with_suffix() {
    let ph = "T".to_string();
    let body = vec![id("make_", 1), punct('~', 2), id("T", 3), punct('~', 4), id("_new", 5)];
    let (tree, _) = compile(&ph, &body);
    assert_eq!(
        tree,
        TemplateNode::RepeatTarget {
            children: vec![TemplateNode::IdentConcat {
                prefix: "make_".to_string(),
                target: "T".to_string(),
                suffix: Some("_new".to_string()),
                pos: 1,
            }],
            pos: 0,
        }
    );
}

#[test]
fn entry_count_matches_entry_list() {
    // One bare placeholder, three entries: three renderings in order.
    let toks = invocation(
        vec![id("a", 10), punct(',', 11), id("b", 12), punct(',', 13), id("c", 14)],
        vec![id("T", 20)],
    );
    let out = expand_invocation(&toks).unwrap();
    assert_eq!(out, vec![id("a", 10), id("b", 12), id("c", 14)]);
}

#[test]
fn implicit_wrap_is_equivalent_to_manual_wrap() {
    let ph = "T".to_string();
    let entries = vec![entry("u32", 10), entry("i32", 11)];
    let body = vec![id("T", 1), punct(';', 2)];
    let wrapped = vec![
        punct('#', 0),
        group(Delim::Paren, vec![id("T", 1), punct(';', 2)], 0),
        punct('*', 0),
    ];
    let (tree_a, ea) = compile(&ph, &body);
    let (tree_b, eb) = compile(&ph, &wrapped);
    assert!(!ea);
    assert!(eb);
    let out_a = render_top(&tree_a, &entries).unwrap();
    let out_b = render_top(&tree_b, &entries).unwrap();
    assert_eq!(out_b, vec![group(Delim::Invisible, out_a, 0)]);
}

#[test]
fn misplaced_placeholder_is_rejected() {
    // A hand-built tree that bypasses the implicit wrap.
    let node = TemplateNode::Placeholder { pos: 7 };
    let none: Vec<SubstitutionEntry> = vec![];
    assert_eq!(
        render_top(&node, &none),
        Err(ExpandError::MisplacedPlaceholder { pos: 7 })
    );
    let some = vec![entry("u32", 1)];
    assert_eq!(
        render_top(&node, &some),
        Err(ExpandError::MisplacedPlaceholder { pos: 7 })
    );
}

#[test]
fn misplaced_concat_marker_is_rejected() {
    let node = TemplateNode::IdentConcat {
        prefix: "make_".to_string(),
        target: "T".to_string(),
        suffix: None,
        pos: 9,
    };
    let some = vec![entry("u32", 1)];
    assert_eq!(
        render_top(&node, &some),
        Err(ExpandError::MisplacedPlaceholder { pos: 9 })
    );
}

#[test]
fn synthesize_builds_identifier() {
    let e = entry("Widget", 30);
    let prefix = "make_".to_string();
    let out = synthesize(&prefix, &e, &None, 5).unwrap();
    assert_eq!(out, id("make_Widget", 5));
    let out2 = synthesize(&prefix, &e, &Some("_new".to_string()), 5).unwrap();
    assert_eq!(out2, id("make_Widget_new", 5));
}

#[test]
fn synthesize_rejects_entry_without_segment() {
    let e = SubstitutionEntry::from_tokens(vec![punct('!', 4)]);
    let prefix = "make_".to_string();
    assert_eq!(
        synthesize(&prefix, &e, &None, 5),
        Err(ExpandError::InvalidSubstitutionShape { pos: 5 })
    );
}

#[test]
fn concat_marker_renders_per_entry() {
    let toks = invocation(
        vec![id("Widget", 10), punct(',', 11), id("Gadget", 12)],
        vec![id("make_", 20), punct('~', 21), id("T", 22)],
    );
    let out = expand_invocation(&toks).unwrap();
    assert_eq!(out, vec![id("make_Widget", 20), id("make_Gadget", 20)]);
}

#[test]
fn concat_marker_failure_names_marker_position() {
    let toks = invocation(
        vec![punct('!', 10)],
        vec![id("make_", 20), punct('~', 21), id("T", 22)],
    );
    assert_eq!(
        expand_invocation(&toks),
        Err(ExpandError::InvalidSubstitutionShape { pos: 20 })
    );
}

#[test]
fn two_entries_expand_impl_block() {
    // entries [u32, i32], body { impl Trait for T {} }
    let body = vec![
        id("impl", 20),
        id("Trait", 21),
        id("for", 22),
        id("T", 23),
        group(Delim::Brace, vec![], 24),
    ];
    let toks = invocation(vec![id("u32", 10), punct(',', 11), id("i32", 12)], body);
    let out = expand_invocation(&toks).unwrap();
    let expected = vec![
        id("impl", 20),
        id("Trait", 21),
        id("for", 22),
        id("u32", 10),
        group(Delim::Brace, vec![], 24),
        id("impl", 20),
        id("Trait", 21),
        id("for", 22),
        id("i32", 12),
        group(Delim::Brace, vec![], 24),
    ];
    assert_eq!(out, expected);
}

#[test]
fn three_entries_expand_match_arms() {
    // entries [A, B, C], body { match e { #( Kind::T => 1, )* } }
    let arm = vec![
        id("Kind", 30),
        punct(':', 31),
        punct(':', 32),
        id("T", 33),
        punct('=', 34),
        punct('>', 35),
        lit("1", 36),
        punct(',', 37),
    ];
    let body = vec![
        id("match", 20),
        id("e", 21),
        group(
            Delim::Brace,
            vec![punct('#', 22), group(Delim::Paren, arm, 23), punct('*', 24)],
            25,
        ),
    ];
    let toks = invocation(
        vec![id("A", 10), punct(',', 11), id("B", 12), punct(',', 13), id("C", 14)],
        body,
    );
    let out = expand_invocation(&toks).unwrap();
    let mut arms: Vec<Token> = Vec::new();
    for (name, p) in [("A", 10), ("B", 12), ("C", 14)] {
        arms.extend(vec![
            id("Kind", 30),
            punct(':', 31),
            punct(':', 32),
            id(name, p),
            punct('=', 34),
            punct('>', 35),
            lit("1", 36),
            punct(',', 37),
        ]);
    }
    let expected = vec![group(
        Delim::Invisible,
        vec![id("match", 20), id("e", 21), group(Delim::Brace, arms, 25)],
        0,
    )];
    assert_eq!(out, expected);
    // exactly one match construct in the output
    let inner = match &out[0] {
        Token::Group { children, .. } => children,
        _ => panic!("expected the invisible wrapper group"),
    };
    let matches_count = inner
        .iter()
        .filter(|t| matches!(t, Token::Ident { text, .. } if text == "match"))
        .count();
    assert_eq!(matches_count, 1);
}

#[test]
fn nested_repeat_marker_is_passed_through() {
    // #( #( T )* )* : the inner marker survives, once per entry.
    let inner = vec![punct('#', 30), group(Delim::Paren, vec![id("T", 31)], 32), punct('*', 33)];
    let body = vec![punct('#', 20), group(Delim::Paren, inner, 21), punct('*', 22)];
    let toks = invocation(vec![id("u32", 10), punct(',', 11), id("i32", 12)], body);
    let out = expand_invocation(&toks).unwrap();
    let expected = vec![group(
        Delim::Invisible,
        vec![
            punct('#', 32),
            group(Delim::Paren, vec![id("u32", 10)], 32),
            punct('*', 32),
            punct('#', 32),
            group(Delim::Paren, vec![id("i32", 12)], 32),
            punct('*', 32),
        ],
        0,
    )];
    assert_eq!(out, expected);
}

#[test]
fn empty_entry_list_gives_zero_repetitions() {
    let body = vec![punct('#', 20), group(Delim::Paren, vec![id("T", 21)], 22), punct('*', 23)];
    let toks = invocation(vec![], body);
    let out = expand_invocation(&toks).unwrap();
    assert_eq!(out, vec![group(Delim::Invisible, vec![], 0)]);
}

#[test]
fn repeat_for_types_expands_parsed_request() {
    let toks = invocation(vec![id("u8", 10)], vec![id("T", 20), id("T", 21)]);
    let req = RepeatInput::parse(&toks).unwrap();
    let out = repeat_for_types(&req).unwrap();
    assert_eq!(out, vec![id("u8", 10), id("u8", 10)]);
}

#[test]
fn groups_are_rebuilt_with_their_positions() {
    let body = vec![group(Delim::Bracket, vec![id("T", 21)], 22)];
    let toks = invocation(vec![id("u8", 10)], body);
    let out = expand_invocation(&toks).unwrap();
    assert_eq!(out, vec![group(Delim::Bracket, vec![id("u8", 10)], 22)]);
}

#[test]
fn node_to_tokens_respells_markers() {
    let ph = "T".to_string();
    let node = TemplateNode::IdentConcat {
        prefix: "make_".to_string(),
        target: "T".to_string(),
        suffix: Some("_new".to_string()),
        pos: 4,
    };
    assert_eq!(
        node.to_tokens(&ph),
        vec![id("make_", 4), punct('~', 4), id("T", 4), punct('~', 4), id("_new", 4)]
    );
    let rt = TemplateNode::RepeatTarget {
        children: vec![TemplateNode::Placeholder { pos: 6 }],
        pos: 5,
    };
    assert_eq!(
        rt.to_tokens(&ph),
        vec![punct('#', 5), group(Delim::Paren, vec![id("T", 6)], 5), punct('*', 5)]
    );
}

#[test]
fn error_accessors_report_position_and_message() {
    let e = ExpandError::MisplacedPlaceholder { pos: 12 };
    assert_eq!(e.pos(), 12);
    assert_eq!(e.message(), "invalid position of repeat variable place holder.");
    let s = ExpandError::StructuralError { pos: 3 };
    assert_eq!(s.pos(), 3);
    let i = ExpandError::InvalidSubstitutionShape { pos: 8 };
    assert_eq!(i.message(), "invalid type expression.");
}
