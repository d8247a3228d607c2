//! The template compiler: a single forward pass over the raw template
//! body that recognises the three marker forms (bare placeholder,
//! identifier-concatenation marker, repeat-target group) and builds the
//! internal template tree.

use vstd::prelude::*;

use crate::token::{
    Delim, Token, TokenModel, lemma_toks_model, lemma_toks_size_elem, lemma_toks_size_skip,
    tok_model, tok_size, toks_model, toks_size,
};

verus! {

/// The internal template tree. Exactly one of two shapes holds for a
/// compiled template: it contains at least one `RepeatTarget` somewhere
/// (explicit mode), or the whole body is wrapped in one synthetic
/// `RepeatTarget` (implicit mode).
#[derive(Debug, PartialEq, Eq)]
pub enum TemplateNode {
    Group { delim: Delim, children: Vec<TemplateNode>, pos: usize },
    Placeholder { pos: usize },
    IdentConcat { prefix: String, target: String, suffix: Option<String>, pos: usize },
    Other { token: Token },
    RepeatTarget { children: Vec<TemplateNode>, pos: usize },
}

/// Mathematical model of a template node.
pub enum NodeModel {
    Group { delim: Delim, children: Seq<NodeModel>, pos: usize },
    Placeholder { pos: usize },
    IdentConcat { prefix: Seq<char>, target: Seq<char>, suffix: Option<Seq<char>>, pos: usize },
    Other { token: TokenModel },
    RepeatTarget { children: Seq<NodeModel>, pos: usize },
}

pub open spec fn node_model(n: TemplateNode) -> NodeModel
    decreases n,
{
    match n {
        TemplateNode::Group { delim, children, pos } => NodeModel::Group {
            delim,
            children: nodes_model(children@),
            pos,
        },
        TemplateNode::Placeholder { pos } => NodeModel::Placeholder { pos },
        TemplateNode::IdentConcat { prefix, target, suffix, pos } => NodeModel::IdentConcat {
            prefix: prefix@,
            target: target@,
            suffix: match suffix {
                Some(s) => Some(s@),
                None => None,
            },
            pos,
        },
        TemplateNode::Other { token } => NodeModel::Other { token: tok_model(token) },
        TemplateNode::RepeatTarget { children, pos } => NodeModel::RepeatTarget {
            children: nodes_model(children@),
            pos,
        },
    }
}

pub open spec fn nodes_model(s: Seq<TemplateNode>) -> Seq<NodeModel>
    decreases s,
{
    if s.len() == 0 {
        Seq::empty()
    } else {
        seq![node_model(s[0])] + nodes_model(s.drop_first())
    }
}

/// Pointwise characterisation of `nodes_model`.
pub proof fn lemma_nodes_model(s: Seq<TemplateNode>)
    ensures
        nodes_model(s).len() == s.len(),
        forall|i: int| 0 <= i < s.len() ==> nodes_model(s)[i] == node_model(s[i]),
    decreases s,
{
    if s.len() > 0 {
        lemma_nodes_model(s.drop_first());
    }
}

/// Size of a template tree; used as a termination measure.
pub open spec fn node_size(n: NodeModel) -> nat
    decreases n,
{
    match n {
        NodeModel::Group { children, .. } => 1 + nodes_size(children),
        NodeModel::RepeatTarget { children, .. } => 1 + nodes_size(children),
        _ => 1,
    }
}

pub open spec fn nodes_size(s: Seq<NodeModel>) -> nat
    decreases s,
{
    if s.len() == 0 {
        0
    } else {
        node_size(s[0]) + nodes_size(s.drop_first())
    }
}

pub proof fn lemma_nodes_size_elem(s: Seq<NodeModel>, i: int)
    requires
        0 <= i < s.len(),
    ensures
        node_size(s[i]) <= nodes_size(s),
    decreases s,
{
    if i > 0 {
        lemma_nodes_size_elem(s.drop_first(), i - 1);
    }
}

/// Head tokens form an identifier-concatenation marker
/// `prefix ~ placeholder`: a tilde then the placeholder name.
pub open spec fn concat_marker_follows(ph: Seq<char>, toks: Seq<TokenModel>) -> bool {
    &&& toks.len() >= 3
    &&& toks[1] matches TokenModel::Punct { ch, .. } && ch == '~'
    &&& toks[2] matches TokenModel::Ident { text, .. } && text == ph
}

/// The marker continues with `~ suffix`.
pub open spec fn concat_suffix_follows(toks: Seq<TokenModel>) -> bool {
    &&& toks.len() >= 5
    &&& toks[3] matches TokenModel::Punct { ch, .. } && ch == '~'
    &&& toks[4] is Ident
}

/// A `#` is followed by a parenthesised group and a `*`.
pub open spec fn repeat_marker_follows(toks: Seq<TokenModel>) -> bool {
    &&& toks.len() >= 3
    &&& toks[1] matches TokenModel::Group { delim, .. } && delim == Delim::Paren
    &&& toks[2] matches TokenModel::Punct { ch, .. } && ch == '*'
}

/// A repeat-target marker starts at the head of `toks`.
pub open spec fn repeat_marker_at(toks: Seq<TokenModel>) -> bool {
    &&& toks.len() > 0
    &&& toks[0] matches TokenModel::Punct { ch, .. } && ch == '#'
    &&& repeat_marker_follows(toks)
}

/// How many head tokens the marker or token at the head of `toks`
/// consumes: five or three for an identifier-concatenation marker,
/// three for a repeat-target marker, one otherwise.
pub open spec fn step_used(ph: Seq<char>, toks: Seq<TokenModel>) -> nat
    recommends
        toks.len() > 0,
{
    match toks[0] {
        TokenModel::Ident { text, .. } => {
            if text == ph {
                1
            } else if concat_marker_follows(ph, toks) {
                if concat_suffix_follows(toks) {
                    5
                } else {
                    3
                }
            } else {
                1
            }
        },
        TokenModel::Punct { .. } => {
            if repeat_marker_at(toks) {
                3
            } else {
                1
            }
        },
        _ => 1,
    }
}

/// The node produced by a non-recursive head form: a bare placeholder,
/// an identifier-concatenation marker, or an ordinary token.
pub open spec fn head_node(ph: Seq<char>, toks: Seq<TokenModel>) -> NodeModel
    recommends
        toks.len() > 0,
        !(toks[0] is Group),
        !repeat_marker_at(toks),
{
    match toks[0] {
        TokenModel::Ident { text, pos } => {
            if text == ph {
                NodeModel::Placeholder { pos }
            } else if concat_marker_follows(ph, toks) {
                NodeModel::IdentConcat {
                    prefix: text,
                    target: ph,
                    suffix: if concat_suffix_follows(toks) {
                        Some(toks[4]->Ident_text)
                    } else {
                        None
                    },
                    pos,
                }
            } else {
                NodeModel::Other { token: toks[0] }
            }
        },
        _ => NodeModel::Other { token: toks[0] },
    }
}

/// Compile a whole token stream: the produced nodes, and whether any
/// explicit repeat-target was produced anywhere (descendants included).
pub open spec fn spec_compile(ph: Seq<char>, toks: Seq<TokenModel>) -> (Seq<NodeModel>, bool)
    decreases toks_size(toks),
        via spec_compile_dec
{
    if toks.len() == 0 {
        (Seq::empty(), false)
    } else if toks[0] is Group {
        let inner = spec_compile(ph, toks[0]->Group_children);
        let node = NodeModel::Group {
            delim: toks[0]->Group_delim,
            children: inner.0,
            pos: toks[0]->Group_pos,
        };
        let rest = spec_compile(ph, toks.skip(1));
        (seq![node] + rest.0, inner.1 || rest.1)
    } else if repeat_marker_at(toks) {
        let inner = spec_compile(ph, toks[1]->Group_children);
        let node = NodeModel::RepeatTarget { children: inner.0, pos: toks[1]->Group_pos };
        let rest = spec_compile(ph, toks.skip(3));
        (seq![node] + rest.0, true)
    } else {
        let rest = spec_compile(ph, toks.skip(step_used(ph, toks) as int));
        (seq![head_node(ph, toks)] + rest.0, rest.1)
    }
}

#[via_fn]
proof fn spec_compile_dec(ph: Seq<char>, toks: Seq<TokenModel>) {
    if toks.len() > 0 {
        lemma_toks_size_elem(toks, 0);
        if toks[0] is Group {
            assert(tok_size(toks[0]) == 1 + toks_size(toks[0]->Group_children));
        }
        if toks.len() >= 3 {
            lemma_toks_size_elem(toks, 1);
            if toks[1] is Group {
                assert(tok_size(toks[1]) == 1 + toks_size(toks[1]->Group_children));
            }
        }
        assert(1 <= step_used(ph, toks) <= toks.len());
        lemma_toks_size_skip(toks, 1);
        if toks.len() >= 3 {
            lemma_toks_size_skip(toks, 3);
        }
        if toks.len() >= 5 {
            lemma_toks_size_skip(toks, 5);
        }
    }
}

/// Compile a token stream into template nodes, reporting whether an
/// explicit repeat-target marker was recognised anywhere in it.
pub fn compile_tokens(ph: &String, toks: &Vec<Token>) -> (r: (Vec<TemplateNode>, bool))
    ensures
        nodes_model(r.0@) == spec_compile(ph@, toks_model(toks@)).0,
        r.1 == spec_compile(ph@, toks_model(toks@)).1,
    decreases toks_size(toks_model(toks@)),
{
    let ghost t_all = toks_model(toks@);
    proof {
        lemma_toks_model(toks@);
    }
    let mut out: Vec<TemplateNode> = Vec::new();
    let mut found = false;
    let mut i: usize = 0;
    let n = toks.len();
    proof {
        assert(t_all.skip(0) =~= t_all);
        assert(nodes_model(out@) + spec_compile(ph@, t_all).0 =~= spec_compile(ph@, t_all).0);
    }
    while i < n
        invariant
            n == toks.len(),
            i <= n,
            t_all == toks_model(toks@),
            spec_compile(ph@, t_all).0 == nodes_model(out@) + spec_compile(
                ph@,
                t_all.skip(i as int),
            ).0,
            spec_compile(ph@, t_all).1 == (found || spec_compile(ph@, t_all.skip(i as int)).1),
        decreases n - i,
    {
        let ghost s = t_all.skip(i as int);
        let ghost out0 = out@;
        proof {
            lemma_toks_model(toks@);
            assert(s[0] == t_all[i as int]);
        }
        match &toks[i] {
            Token::Group { delim, children, pos } => {
                proof {
                    lemma_toks_size_elem(s, 0);
                    assert(tok_size(s[0]) == 1 + toks_size(toks_model(children@)));
                    lemma_toks_size_skip(t_all, i as int);
                }
                let (cn, cf) = compile_tokens(ph, children);
                let node = TemplateNode::Group { delim: *delim, children: cn, pos: *pos };
                out.push(node);
                found = found || cf;
                i = i + 1;
                proof {
                    lemma_nodes_model(out0);
                    lemma_nodes_model(out@);
                    assert(nodes_model(out@) =~= nodes_model(out0) + spec_compile(ph@, s).0.take(
                        1,
                    ));
                    assert(s.skip(1) =~= t_all.skip(i as int));
                    assert(spec_compile(ph@, s).0.take(1) + spec_compile(ph@, s.skip(1)).0
                        =~= spec_compile(ph@, s).0);
                }
            },
            Token::Ident { text, pos } => {
                if text.eq(ph) {
                    let node = TemplateNode::Placeholder { pos: *pos };
                    out.push(node);
                    i = i + 1;
                    proof {
                        lemma_nodes_model(out0);
                        lemma_nodes_model(out@);
                        assert(head_node(ph@, s) == NodeModel::Placeholder { pos: *pos });
                        assert(nodes_model(out@) =~= nodes_model(out0) + seq![
                            head_node(ph@, s),
                        ]);
                        assert(s.skip(1) =~= t_all.skip(i as int));
                    }
                } else {
                    let mut suffix: Option<String> = None;
                    let mut is_marker = false;
                    if n - i > 2 {
                        proof {
                            assert(s[1] == t_all[i + 1]);
                            assert(s[2] == t_all[i + 2]);
                        }
                        let tilde_ok = match &toks[i + 1] {
                            Token::Punct { ch, .. } => *ch == '~',
                            _ => false,
                        };
                        let target_ok = match &toks[i + 2] {
                            Token::Ident { text: t2, .. } => t2.eq(ph),
                            _ => false,
                        };
                        if tilde_ok && target_ok {
                            is_marker = true;
                            if n - i > 4 {
                                proof {
                                    assert(s[3] == t_all[i + 3]);
                                    assert(s[4] == t_all[i + 4]);
                                }
                                let tilde2_ok = match &toks[i + 3] {
                                    Token::Punct { ch, .. } => *ch == '~',
                                    _ => false,
                                };
                                if tilde2_ok {
                                    suffix = match &toks[i + 4] {
                                        Token::Ident { text: t4, .. } => Some(t4.clone()),
                                        _ => None,
                                    };
                                }
                            }
                        }
                    }
                    proof {
                        assert(is_marker == concat_marker_follows(ph@, s));
                        assert(is_marker ==> ((suffix is Some) == concat_suffix_follows(s)));
                    }
                    if is_marker {
                        let used: usize = if suffix.is_some() {
                            5
                        } else {
                            3
                        };
                        let node = TemplateNode::IdentConcat {
                            prefix: text.clone(),
                            target: ph.clone(),
                            suffix,
                            pos: *pos,
                        };
                        proof {
                            assert(node_model(node) == head_node(ph@, s));
                        }
                        out.push(node);
                        i = i + used;
                        proof {
                            lemma_nodes_model(out0);
                            lemma_nodes_model(out@);
                            assert(nodes_model(out@) =~= nodes_model(out0) + seq![
                                head_node(ph@, s),
                            ]);
                            assert(s.skip(used as int) =~= t_all.skip(i as int));
                        }
                    } else {
                        let node = TemplateNode::Other { token: toks[i].duplicate() };
                        out.push(node);
                        i = i + 1;
                        proof {
                            lemma_nodes_model(out0);
                            lemma_nodes_model(out@);
                            assert(head_node(ph@, s) == NodeModel::Other { token: s[0] });
                            assert(nodes_model(out@) =~= nodes_model(out0) + seq![
                                head_node(ph@, s),
                            ]);
                            assert(s.skip(1) =~= t_all.skip(i as int));
                        }
                    }
                }
            },
            Token::Punct { ch, pos } => {
                let mut handled = false;
                if *ch == '#' && n - i > 2 {
                    proof {
                        assert(s[1] == t_all[i + 1]);
                        assert(s[2] == t_all[i + 2]);
                    }
                    let star_ok = match &toks[i + 2] {
                        Token::Punct { ch: c2, .. } => *c2 == '*',
                        _ => false,
                    };
                    if star_ok {
                        match &toks[i + 1] {
                            Token::Group { delim: Delim::Paren, children, pos: gpos } => {
                                proof {
                                    assert(repeat_marker_at(s));
                                    lemma_toks_size_elem(s, 1);
                                    assert(tok_size(s[1]) == 1 + toks_size(
                                        toks_model(children@),
                                    ));
                                    lemma_toks_size_skip(t_all, i as int);
                                }
                                let (cn, _cf) = compile_tokens(ph, children);
                                let node = TemplateNode::RepeatTarget {
                                    children: cn,
                                    pos: *gpos,
                                };
                                out.push(node);
                                found = true;
                                i = i + 3;
                                handled = true;
                                proof {
                                    lemma_nodes_model(out0);
                                    lemma_nodes_model(out@);
                                    assert(nodes_model(out@) =~= nodes_model(out0)
                                        + spec_compile(ph@, s).0.take(1));
                                    assert(s.skip(3) =~= t_all.skip(i as int));
                                    assert(spec_compile(ph@, s).0.take(1) + spec_compile(
                                        ph@,
                                        s.skip(3),
                                    ).0 =~= spec_compile(ph@, s).0);
                                }
                            },
                            _ => {
                                proof {
                                    assert(!repeat_marker_at(s));
                                }
                            },
                        }
                    }
                }
                if !handled {
                    proof {
                        assert(!repeat_marker_at(s));
                    }
                    let node = TemplateNode::Other { token: toks[i].duplicate() };
                    out.push(node);
                    i = i + 1;
                    proof {
                        lemma_nodes_model(out0);
                        lemma_nodes_model(out@);
                        assert(head_node(ph@, s) == NodeModel::Other { token: s[0] });
                        assert(nodes_model(out@) =~= nodes_model(out0) + seq![
                            head_node(ph@, s),
                        ]);
                        assert(s.skip(1) =~= t_all.skip(i as int));
                    }
                }
            },
            Token::Literal { .. } => {
                let node = TemplateNode::Other { token: toks[i].duplicate() };
                out.push(node);
                i = i + 1;
                proof {
                    lemma_nodes_model(out0);
                    lemma_nodes_model(out@);
                    assert(head_node(ph@, s) == NodeModel::Other { token: s[0] });
                    assert(nodes_model(out@) =~= nodes_model(out0) + seq![head_node(ph@, s)]);
                    assert(s.skip(1) =~= t_all.skip(i as int));
                }
            },
        }
    }
    proof {
        assert(t_all.skip(n as int) =~= Seq::<TokenModel>::empty());
        assert(nodes_model(out@) + Seq::<NodeModel>::empty() =~= nodes_model(out@));
    }
    (out, found)
}

/// The compiled template: if the body produced no explicit
/// repeat-target anywhere, the whole node list is wrapped in one
/// synthetic `RepeatTarget` spanning the body (implicit mode);
/// otherwise the list is kept under an invisible group (explicit mode).
pub open spec fn spec_compile_template(ph: Seq<char>, toks: Seq<TokenModel>) -> NodeModel {
    let r = spec_compile(ph, toks);
    if r.1 {
        NodeModel::Group { delim: Delim::Invisible, children: r.0, pos: 0 }
    } else {
        NodeModel::RepeatTarget { children: r.0, pos: 0 }
    }
}

/// The node is, or contains anywhere below it, a repeat-target.
pub open spec fn node_has_repeat(n: NodeModel) -> bool
    decreases node_size(n), 0nat,
        via node_has_repeat_dec
{
    match n {
        NodeModel::RepeatTarget { .. } => true,
        NodeModel::Group { children, .. } => nodes_have_repeat(children),
        _ => false,
    }
}

pub open spec fn nodes_have_repeat(s: Seq<NodeModel>) -> bool
    decreases nodes_size(s), 1nat,
        via nodes_have_repeat_dec
{
    if s.len() == 0 {
        false
    } else {
        node_has_repeat(s[0]) || nodes_have_repeat(s.drop_first())
    }
}

#[via_fn]
proof fn node_has_repeat_dec(n: NodeModel) {
}

#[via_fn]
proof fn nodes_have_repeat_dec(s: Seq<NodeModel>) {
    if s.len() > 0 {
        lemma_nodes_size_elem(s, 0);
    }
}

/// The token sequence a node list prints back to: groups and
/// repeat-target markers are rebuilt around their children's tokens,
/// markers are re-spelled, and ordinary tokens pass through.
pub open spec fn spec_nodes_tokens(ph: Seq<char>, s: Seq<NodeModel>) -> Seq<TokenModel>
    decreases nodes_size(s),
        via spec_nodes_tokens_dec
{
    if s.len() == 0 {
        Seq::empty()
    } else {
        (match s[0] {
            NodeModel::Group { delim, children, pos } => seq![
                TokenModel::Group { delim, children: spec_nodes_tokens(ph, children), pos },
            ],
            NodeModel::Placeholder { pos } => seq![TokenModel::Ident { text: ph, pos }],
            NodeModel::IdentConcat { prefix, target, suffix, pos } => seq![
                TokenModel::Ident { text: prefix, pos },
                TokenModel::Punct { ch: '~', pos },
                TokenModel::Ident { text: target, pos },
            ] + (match suffix {
                Some(sfx) => seq![
                    TokenModel::Punct { ch: '~', pos },
                    TokenModel::Ident { text: sfx, pos },
                ],
                None => Seq::<TokenModel>::empty(),
            }),
            NodeModel::Other { token } => seq![token],
            NodeModel::RepeatTarget { children, pos } => seq![
                TokenModel::Punct { ch: '#', pos },
                TokenModel::Group {
                    delim: Delim::Paren,
                    children: spec_nodes_tokens(ph, children),
                    pos,
                },
                TokenModel::Punct { ch: '*', pos },
            ],
        }) + spec_nodes_tokens(ph, s.drop_first())
    }
}

#[via_fn]
proof fn spec_nodes_tokens_dec(ph: Seq<char>, s: Seq<NodeModel>) {
    if s.len() > 0 {
        lemma_nodes_size_elem(s, 0);
    }
}

/// The token sequence one node prints back to.
pub open spec fn spec_node_tokens(ph: Seq<char>, n: NodeModel) -> Seq<TokenModel> {
    match n {
        NodeModel::Group { delim, children, pos } => seq![
            TokenModel::Group { delim, children: spec_nodes_tokens(ph, children), pos },
        ],
        NodeModel::Placeholder { pos } => seq![TokenModel::Ident { text: ph, pos }],
        NodeModel::IdentConcat { prefix, target, suffix, pos } => seq![
            TokenModel::Ident { text: prefix, pos },
            TokenModel::Punct { ch: '~', pos },
            TokenModel::Ident { text: target, pos },
        ] + (match suffix {
            Some(sfx) => seq![
                TokenModel::Punct { ch: '~', pos },
                TokenModel::Ident { text: sfx, pos },
            ],
            None => Seq::<TokenModel>::empty(),
        }),
        NodeModel::Other { token } => seq![token],
        NodeModel::RepeatTarget { children, pos } => seq![
            TokenModel::Punct { ch: '#', pos },
            TokenModel::Group {
                delim: Delim::Paren,
                children: spec_nodes_tokens(ph, children),
                pos,
            },
            TokenModel::Punct { ch: '*', pos },
        ],
    }
}

/// Print a node list back to tokens.
pub fn nodes_to_tokens(ph: &String, nodes: &Vec<TemplateNode>) -> (r: Vec<Token>)
    ensures
        toks_model(r@) == spec_nodes_tokens(ph@, nodes_model(nodes@)),
    decreases nodes_size(nodes_model(nodes@)),
{
    let ghost nm = nodes_model(nodes@);
    proof {
        lemma_nodes_model(nodes@);
        assert(nm.skip(0) =~= nm);
    }
    let mut out: Vec<Token> = Vec::new();
    let n = nodes.len();
    let mut j: usize = 0;
    proof {
        assert(toks_model(out@) =~= Seq::<TokenModel>::empty());
    }
    while j < n
        invariant
            n == nodes.len(),
            j <= n,
            nm == nodes_model(nodes@),
            toks_model(out@) + spec_nodes_tokens(ph@, nm.skip(j as int)) == spec_nodes_tokens(
                ph@,
                nm,
            ),
        decreases n - j,
    {
        let ghost srem = nm.skip(j as int);
        let ghost out0 = out@;
        proof {
            lemma_nodes_model(nodes@);
            assert(srem[0] == nm[j as int]);
            assert(srem.drop_first() =~= nm.skip(j + 1));
            lemma_nodes_size_elem(nm, j as int);
        }
        match &nodes[j] {
            TemplateNode::Group { delim, children, pos } => {
                let inner = nodes_to_tokens(ph, children);
                out.push(Token::Group { delim: *delim, children: inner, pos: *pos });
            },
            TemplateNode::Placeholder { pos } => {
                out.push(Token::Ident { text: ph.clone(), pos: *pos });
            },
            TemplateNode::IdentConcat { prefix, target, suffix, pos } => {
                out.push(Token::Ident { text: prefix.clone(), pos: *pos });
                out.push(Token::Punct { ch: '~', pos: *pos });
                out.push(Token::Ident { text: target.clone(), pos: *pos });
                match suffix {
                    Some(sfx) => {
                        out.push(Token::Punct { ch: '~', pos: *pos });
                        out.push(Token::Ident { text: sfx.clone(), pos: *pos });
                    },
                    None => {},
                }
            },
            TemplateNode::Other { token } => {
                out.push(token.duplicate());
            },
            TemplateNode::RepeatTarget { children, pos } => {
                let inner = nodes_to_tokens(ph, children);
                out.push(Token::Punct { ch: '#', pos: *pos });
                out.push(Token::Group { delim: Delim::Paren, children: inner, pos: *pos });
                out.push(Token::Punct { ch: '*', pos: *pos });
            },
        }
        j = j + 1;
        proof {
            lemma_toks_model(out@);
            lemma_toks_model(out0);
            assert(toks_model(out@) =~= toks_model(out0) + spec_node_tokens(ph@, srem[0]));
            assert(toks_model(out0) + (spec_node_tokens(ph@, srem[0]) + spec_nodes_tokens(
                ph@,
                nm.skip(j as int),
            )) =~= (toks_model(out0) + spec_node_tokens(ph@, srem[0])) + spec_nodes_tokens(
                ph@,
                nm.skip(j as int),
            ));
        }
    }
    proof {
        assert(nm.skip(n as int) =~= Seq::<NodeModel>::empty());
        assert(toks_model(out@) + Seq::<TokenModel>::empty() =~= toks_model(out@));
    }
    out
}

impl TemplateNode {
    /// Print one node back to tokens, `ph` being the placeholder name
    /// a bare placeholder re-spells to.
    pub fn to_tokens(&self, ph: &String) -> (r: Vec<Token>)
        ensures
            toks_model(r@) == spec_node_tokens(ph@, node_model(*self)),
    {
        match self {
            TemplateNode::Group { delim, children, pos } => {
                let inner = nodes_to_tokens(ph, children);
                let mut out: Vec<Token> = Vec::new();
                out.push(Token::Group { delim: *delim, children: inner, pos: *pos });
                proof {
                    lemma_toks_model(out@);
                    assert(toks_model(out@) =~= spec_node_tokens(ph@, node_model(*self)));
                }
                out
            },
            TemplateNode::RepeatTarget { children, pos } => {
                let inner = nodes_to_tokens(ph, children);
                let mut out: Vec<Token> = Vec::new();
                out.push(Token::Punct { ch: '#', pos: *pos });
                out.push(Token::Group { delim: Delim::Paren, children: inner, pos: *pos });
                out.push(Token::Punct { ch: '*', pos: *pos });
                proof {
                    lemma_toks_model(out@);
                    assert(toks_model(out@) =~= spec_node_tokens(ph@, node_model(*self)));
                }
                out
            },
            _ => {
                let mut nodes_one: Vec<TemplateNode> = Vec::new();
                let ghost snap = *self;
                proof {
                    assert(!(snap is Group) && !(snap is RepeatTarget));
                }
                match self {
                    TemplateNode::Placeholder { pos } => {
                        nodes_one.push(TemplateNode::Placeholder { pos: *pos });
                    },
                    TemplateNode::IdentConcat { prefix, target, suffix, pos } => {
                        let sfx: Option<String> = match suffix {
                            Some(s) => Some(s.clone()),
                            None => None,
                        };
                        nodes_one.push(
                            TemplateNode::IdentConcat {
                                prefix: prefix.clone(),
                                target: target.clone(),
                                suffix: sfx,
                                pos: *pos,
                            },
                        );
                    },
                    TemplateNode::Other { token } => {
                        nodes_one.push(TemplateNode::Other { token: token.duplicate() });
                    },
                    _ => {},
                }
                proof {
                    lemma_nodes_model(nodes_one@);
                    assert(nodes_model(nodes_one@) =~= seq![node_model(snap)]);
                    assert(seq![node_model(snap)].drop_first() =~= Seq::<NodeModel>::empty());
                }
                let r = nodes_to_tokens(ph, &nodes_one);
                proof {
                    assert(spec_nodes_tokens(ph@, Seq::<NodeModel>::empty())
                        == Seq::<TokenModel>::empty());
                    assert(spec_node_tokens(ph@, node_model(snap)) + Seq::<TokenModel>::empty()
                        =~= spec_node_tokens(ph@, node_model(snap)));
                }
                r
            },
        }
    }
}

/// Compile a template body under the placeholder name `variable`:
/// the compiled tree, and whether the template is in explicit mode
/// (it contained at least one explicit repeat-target marker).
pub fn compile(variable: &String, body: &Vec<Token>) -> (r: (TemplateNode, bool))
    ensures
        node_model(r.0) == spec_compile_template(variable@, toks_model(body@)),
        r.1 == spec_compile(variable@, toks_model(body@)).1,
{
    let (nodes, found) = compile_tokens(variable, body);
    if found {
        (TemplateNode::Group { delim: Delim::Invisible, children: nodes, pos: 0 }, true)
    } else {
        (TemplateNode::RepeatTarget { children: nodes, pos: 0 }, false)
    }
}

} // verus!
