//! The renderer: walks a compiled template tree and the substitution
//! list and produces the expanded token sequence, dispatching through
//! three rendering contexts (top-level, inside one repeat, inside a
//! nested repeat).

use vstd::prelude::*;

use crate::template::{
    NodeModel, TemplateNode, lemma_nodes_model, lemma_nodes_size_elem, node_model, node_size,
    nodes_model, nodes_size,
};
use crate::token::{
    Delim, EntryModel, SubstitutionEntry, Token, TokenModel, duplicate_tokens, entries_model,
    entry_model, lemma_toks_model, tok_model, toks_model,
};

verus! {

/// An error of the expansion, carrying the source position at which
/// the diagnostic is to be reported.
#[derive(Clone, Copy, Debug, PartialEq, Eq, Structural)]
pub enum ExpandError {
    /// The invocation surface itself is malformed.
    StructuralError { pos: usize },
    /// A placeholder or identifier-concatenation marker stands outside
    /// any active repeat context.
    MisplacedPlaceholder { pos: usize },
    /// An identifier-concatenation marker met a substitution entry
    /// with no extractable final path segment.
    InvalidSubstitutionShape { pos: usize },
}

impl ExpandError {
    /// The position the diagnostic is rooted at.
    pub open spec fn spec_pos(&self) -> usize {
        match *self {
            ExpandError::StructuralError { pos } => pos,
            ExpandError::MisplacedPlaceholder { pos } => pos,
            ExpandError::InvalidSubstitutionShape { pos } => pos,
        }
    }

    pub fn pos(&self) -> (p: usize)
        ensures
            p == self.spec_pos(),
    {
        match self {
            ExpandError::StructuralError { pos } => *pos,
            ExpandError::MisplacedPlaceholder { pos } => *pos,
            ExpandError::InvalidSubstitutionShape { pos } => *pos,
        }
    }

    /// A short description, as a diagnostic message.
    pub fn message(&self) -> (m: &'static str)
        ensures
            self is StructuralError ==> m@ == "invalid repeat invocation."@,
            self is MisplacedPlaceholder ==> m@
                == "invalid position of repeat variable place holder."@,
            self is InvalidSubstitutionShape ==> m@ == "invalid type expression."@,
    {
        match self {
            ExpandError::StructuralError { .. } => "invalid repeat invocation.",
            ExpandError::MisplacedPlaceholder { .. } => {
                "invalid position of repeat variable place holder."
            },
            ExpandError::InvalidSubstitutionShape { .. } => "invalid type expression.",
        }
    }
}

/// The identifier synthesised by an identifier-concatenation marker:
/// prefix text, then the entry's final segment, then the optional
/// suffix text, at the marker's own position.
pub open spec fn spec_synthesize(
    prefix: Seq<char>,
    suffix: Option<Seq<char>>,
    e: EntryModel,
    pos: usize,
) -> Result<Seq<TokenModel>, ExpandError> {
    match e.segment {
        None => Err(ExpandError::InvalidSubstitutionShape { pos }),
        Some(seg) => Ok(
            seq![
                TokenModel::Ident {
                    text: prefix + seg + match suffix {
                        Some(sfx) => sfx,
                        None => Seq::empty(),
                    },
                    pos,
                },
            ],
        ),
    }
}

/// Rendering of one node in the top-level context: no repeat is
/// active, so placeholder markers are misplaced, and a repeat-target
/// iterates over every substitution entry.
pub open spec fn spec_render_top(n: NodeModel, es: Seq<EntryModel>) -> Result<
    Seq<TokenModel>,
    ExpandError,
>
    decreases node_size(n), 0nat, 0nat,
        via spec_render_top_dec
{
    match n {
        NodeModel::Group { delim, children, pos } => match spec_render_nodes_top(children, es) {
            Ok(ts) => Ok(seq![TokenModel::Group { delim, children: ts, pos }]),
            Err(e) => Err(e),
        },
        NodeModel::Placeholder { pos } => Err(ExpandError::MisplacedPlaceholder { pos }),
        NodeModel::IdentConcat { pos, .. } => Err(ExpandError::MisplacedPlaceholder { pos }),
        NodeModel::Other { token } => Ok(seq![token]),
        NodeModel::RepeatTarget { children, .. } => spec_render_entries(children, es),
    }
}

pub open spec fn spec_render_nodes_top(s: Seq<NodeModel>, es: Seq<EntryModel>) -> Result<
    Seq<TokenModel>,
    ExpandError,
>
    decreases nodes_size(s), 1nat, 0nat,
        via spec_render_nodes_top_dec
{
    if s.len() == 0 {
        Ok(Seq::empty())
    } else {
        match spec_render_top(s[0], es) {
            Err(e) => Err(e),
            Ok(h) => match spec_render_nodes_top(s.drop_first(), es) {
                Err(e) => Err(e),
                Ok(t) => Ok(h + t),
            },
        }
    }
}

/// One repeat-target at the top level: render its children once per
/// substitution entry, in entry-list order, and concatenate.
pub open spec fn spec_render_entries(cs: Seq<NodeModel>, es: Seq<EntryModel>) -> Result<
    Seq<TokenModel>,
    ExpandError,
>
    decreases nodes_size(cs), 2nat, es.len(),
        via spec_render_entries_dec
{
    if es.len() == 0 {
        Ok(Seq::empty())
    } else {
        match spec_render_nodes_in(cs, es[0]) {
            Err(e) => Err(e),
            Ok(h) => match spec_render_entries(cs, es.drop_first()) {
                Err(e) => Err(e),
                Ok(t) => Ok(h + t),
            },
        }
    }
}

/// Rendering of one node inside one repeat, bound to the current
/// entry `e`: placeholders emit the entry's tokens, and a nested
/// repeat-target is passed through with its marker tokens kept.
pub open spec fn spec_render_in(n: NodeModel, e: EntryModel) -> Result<
    Seq<TokenModel>,
    ExpandError,
>
    decreases node_size(n), 0nat, 0nat,
        via spec_render_in_dec
{
    match n {
        NodeModel::Group { delim, children, pos } => match spec_render_nodes_in(children, e) {
            Ok(ts) => Ok(seq![TokenModel::Group { delim, children: ts, pos }]),
            Err(er) => Err(er),
        },
        NodeModel::Placeholder { .. } => Ok(e.tokens),
        NodeModel::IdentConcat { prefix, suffix, pos, .. } => spec_synthesize(
            prefix,
            suffix,
            e,
            pos,
        ),
        NodeModel::Other { token } => Ok(seq![token]),
        NodeModel::RepeatTarget { children, pos } => match spec_render_nodes_nest(children, e) {
            Ok(ts) => Ok(
                seq![
                    TokenModel::Punct { ch: '#', pos },
                    TokenModel::Group { delim: Delim::Paren, children: ts, pos },
                    TokenModel::Punct { ch: '*', pos },
                ],
            ),
            Err(er) => Err(er),
        },
    }
}

pub open spec fn spec_render_nodes_in(s: Seq<NodeModel>, e: EntryModel) -> Result<
    Seq<TokenModel>,
    ExpandError,
>
    decreases nodes_size(s), 1nat, 0nat,
        via spec_render_nodes_in_dec
{
    if s.len() == 0 {
        Ok(Seq::empty())
    } else {
        match spec_render_in(s[0], e) {
            Err(er) => Err(er),
            Ok(h) => match spec_render_nodes_in(s.drop_first(), e) {
                Err(er) => Err(er),
                Ok(t) => Ok(h + t),
            },
        }
    }
}

/// Rendering of one node inside a nested repeat: identical to the
/// inside-one-repeat context for every node kind; a deeper
/// repeat-target is again passed through without iterating.
pub open spec fn spec_render_nest(n: NodeModel, e: EntryModel) -> Result<
    Seq<TokenModel>,
    ExpandError,
>
    decreases node_size(n), 0nat, 0nat,
        via spec_render_nest_dec
{
    match n {
        NodeModel::Group { delim, children, pos } => match spec_render_nodes_nest(children, e) {
            Ok(ts) => Ok(seq![TokenModel::Group { delim, children: ts, pos }]),
            Err(er) => Err(er),
        },
        NodeModel::Placeholder { .. } => Ok(e.tokens),
        NodeModel::IdentConcat { prefix, suffix, pos, .. } => spec_synthesize(
            prefix,
            suffix,
            e,
            pos,
        ),
        NodeModel::Other { token } => Ok(seq![token]),
        NodeModel::RepeatTarget { children, pos } => match spec_render_nodes_nest(children, e) {
            Ok(ts) => Ok(
                seq![
                    TokenModel::Punct { ch: '#', pos },
                    TokenModel::Group { delim: Delim::Paren, children: ts, pos },
                    TokenModel::Punct { ch: '*', pos },
                ],
            ),
            Err(er) => Err(er),
        },
    }
}

pub open spec fn spec_render_nodes_nest(s: Seq<NodeModel>, e: EntryModel) -> Result<
    Seq<TokenModel>,
    ExpandError,
>
    decreases nodes_size(s), 1nat, 0nat,
        via spec_render_nodes_nest_dec
{
    if s.len() == 0 {
        Ok(Seq::empty())
    } else {
        match spec_render_nest(s[0], e) {
            Err(er) => Err(er),
            Ok(h) => match spec_render_nodes_nest(s.drop_first(), e) {
                Err(er) => Err(er),
                Ok(t) => Ok(h + t),
            },
        }
    }
}

/// The executable result `r` realises the specified result `sr`:
/// same success or failure, same error, and the tokens model the
/// specified token sequence.
pub open spec fn models_result(
    r: Result<Vec<Token>, ExpandError>,
    sr: Result<Seq<TokenModel>, ExpandError>,
) -> bool {
    match sr {
        Ok(ts) => r matches Ok(v) && toks_model(v@) == ts,
        Err(e) => r matches Err(e2) && e2 == e,
    }
}

/// Synthesise one identifier from the prefix, the entry's final path
/// segment, and the optional suffix; the result carries the marker's
/// own position, so diagnostics point at the invocation site.
pub fn synthesize(
    prefix: &String,
    entry: &SubstitutionEntry,
    suffix: &Option<String>,
    pos: usize,
) -> (r: Result<Token, ExpandError>)
    ensures
        (match entry_model(*entry).segment {
            None => r == Err::<Token, ExpandError>(ExpandError::InvalidSubstitutionShape { pos }),
            Some(seg) => r matches Ok(t) && tok_model(t) == TokenModel::Ident {
                text: prefix@ + seg + (match *suffix {
                    Some(sfx) => sfx@,
                    None => Seq::empty(),
                }),
                pos,
            },
        }),
{
    match &entry.segment {
        None => Err(ExpandError::InvalidSubstitutionShape { pos }),
        Some(seg) => {
            let mut text = prefix.clone();
            text.append(seg.as_str());
            match suffix {
                Some(sfx) => {
                    text.append(sfx.as_str());
                },
                None => {},
            }
            Ok(Token::Ident { text, pos })
        },
    }
}

/// Render one node in the top-level context.
pub fn render_top(node: &TemplateNode, entries: &Vec<SubstitutionEntry>) -> (r: Result<
    Vec<Token>,
    ExpandError,
>)
    ensures
        models_result(r, spec_render_top(node_model(*node), entries_model(entries@))),
    decreases node_size(node_model(*node)), 0nat, 0nat,
{
    match node {
        TemplateNode::Group { delim, children, pos } => {
            match render_nodes_top(children, entries) {
                Err(e) => Err(e),
                Ok(ts) => {
                    let g = Token::Group { delim: *delim, children: ts, pos: *pos };
                    let out = vec![g];
                    proof {
                        lemma_toks_model(out@);
                        assert(toks_model(out@) =~= seq![tok_model(out@[0])]);
                    }
                    Ok(out)
                },
            }
        },
        TemplateNode::Placeholder { pos } => Err(ExpandError::MisplacedPlaceholder { pos: *pos }),
        TemplateNode::IdentConcat { pos, .. } => Err(
            ExpandError::MisplacedPlaceholder { pos: *pos },
        ),
        TemplateNode::Other { token } => {
            let out = vec![token.duplicate()];
            proof {
                lemma_toks_model(out@);
                assert(toks_model(out@) =~= seq![tok_model(out@[0])]);
            }
            Ok(out)
        },
        TemplateNode::RepeatTarget { children, .. } => render_entries(children, entries),
    }
}

/// Render a node list in the top-level context, concatenating the
/// renderings; the first error aborts.
pub fn render_nodes_top(nodes: &Vec<TemplateNode>, entries: &Vec<SubstitutionEntry>) -> (r: Result<
    Vec<Token>,
    ExpandError,
>)
    ensures
        models_result(r, spec_render_nodes_top(nodes_model(nodes@), entries_model(entries@))),
    decreases nodes_size(nodes_model(nodes@)), 1nat, 0nat,
{
    let ghost nm = nodes_model(nodes@);
    let ghost em = entries_model(entries@);
    proof {
        lemma_nodes_model(nodes@);
        assert(nm.skip(0) =~= nm);
    }
    let mut out: Vec<Token> = Vec::new();
    let n = nodes.len();
    let mut j: usize = 0;
    while j < n
        invariant
            n == nodes.len(),
            j <= n,
            nm == nodes_model(nodes@),
            em == entries_model(entries@),
            spec_render_nodes_top(nm, em) == (match spec_render_nodes_top(
                nm.skip(j as int),
                em,
            ) {
                Ok(t) => Ok::<Seq<TokenModel>, ExpandError>(toks_model(out@) + t),
                Err(e) => Err::<Seq<TokenModel>, ExpandError>(e),
            }),
        decreases n - j,
    {
        let ghost s = nm.skip(j as int);
        proof {
            lemma_nodes_model(nodes@);
            assert(s[0] == nm[j as int]);
            lemma_nodes_size_elem(nm, j as int);
        }
        match render_top(&nodes[j], entries) {
            Err(e) => {
                return Err(e);
            },
            Ok(mut h) => {
                let ghost hv = h@;
                let ghost out0 = out@;
                out.append(&mut h);
                j = j + 1;
                proof {
                    crate::token::lemma_toks_model_concat(out0, hv);
                    assert(s.drop_first() =~= nm.skip(j as int));
                    if spec_render_nodes_top(nm.skip(j as int), em) is Ok {
                        let t = spec_render_nodes_top(nm.skip(j as int), em)->Ok_0;
                        assert((toks_model(out0) + toks_model(hv)) + t =~= toks_model(out0) + (
                        toks_model(hv) + t));
                    }
                }
            },
        }
    }
    proof {
        assert(nm.skip(n as int) =~= Seq::<NodeModel>::empty());
        assert(toks_model(out@) + Seq::<TokenModel>::empty() =~= toks_model(out@));
    }
    Ok(out)
}

/// Render one repeat-target's children once per entry, in order.
pub fn render_entries(children: &Vec<TemplateNode>, entries: &Vec<SubstitutionEntry>) -> (r:
    Result<Vec<Token>, ExpandError>)
    ensures
        models_result(r, spec_render_entries(nodes_model(children@), entries_model(entries@))),
    decreases nodes_size(nodes_model(children@)), 2nat, 0nat,
{
    let ghost cm = nodes_model(children@);
    let ghost em = entries_model(entries@);
    proof {
        assert(em.skip(0) =~= em);
    }
    let mut out: Vec<Token> = Vec::new();
    let n = entries.len();
    let mut k: usize = 0;
    while k < n
        invariant
            n == entries.len(),
            k <= n,
            cm == nodes_model(children@),
            em == entries_model(entries@),
            spec_render_entries(cm, em) == (match spec_render_entries(cm, em.skip(k as int)) {
                Ok(t) => Ok::<Seq<TokenModel>, ExpandError>(toks_model(out@) + t),
                Err(e) => Err::<Seq<TokenModel>, ExpandError>(e),
            }),
        decreases n - k,
    {
        let ghost s = em.skip(k as int);
        proof {
            assert(s[0] == em[k as int]);
            assert(em[k as int] == entry_model(entries@[k as int]));
        }
        match render_nodes_in(children, &entries[k]) {
            Err(e) => {
                return Err(e);
            },
            Ok(mut h) => {
                let ghost hv = h@;
                let ghost out0 = out@;
                out.append(&mut h);
                k = k + 1;
                proof {
                    crate::token::lemma_toks_model_concat(out0, hv);
                    assert(s.drop_first() =~= em.skip(k as int));
                    if spec_render_entries(cm, em.skip(k as int)) is Ok {
                        let t = spec_render_entries(cm, em.skip(k as int))->Ok_0;
                        assert((toks_model(out0) + toks_model(hv)) + t =~= toks_model(out0) + (
                        toks_model(hv) + t));
                    }
                }
            },
        }
    }
    proof {
        assert(em.skip(n as int) =~= Seq::<EntryModel>::empty());
        assert(toks_model(out@) + Seq::<TokenModel>::empty() =~= toks_model(out@));
    }
    Ok(out)
}

/// Render one node inside one repeat, bound to the entry `entry`.
pub fn render_in(node: &TemplateNode, entry: &SubstitutionEntry) -> (r: Result<
    Vec<Token>,
    ExpandError,
>)
    ensures
        models_result(r, spec_render_in(node_model(*node), entry_model(*entry))),
    decreases node_size(node_model(*node)), 0nat, 0nat,
{
    match node {
        TemplateNode::Group { delim, children, pos } => {
            match render_nodes_in(children, entry) {
                Err(e) => Err(e),
                Ok(ts) => {
                    let g = Token::Group { delim: *delim, children: ts, pos: *pos };
                    let out = vec![g];
                    proof {
                        lemma_toks_model(out@);
                        assert(toks_model(out@) =~= seq![tok_model(out@[0])]);
                    }
                    Ok(out)
                },
            }
        },
        TemplateNode::Placeholder { .. } => Ok(duplicate_tokens(&entry.tokens)),
        TemplateNode::IdentConcat { prefix, suffix, pos, .. } => {
            match synthesize(prefix, entry, suffix, *pos) {
                Err(e) => Err(e),
                Ok(t) => {
                    let out = vec![t];
                    proof {
                        lemma_toks_model(out@);
                        assert(toks_model(out@) =~= seq![tok_model(out@[0])]);
                    }
                    Ok(out)
                },
            }
        },
        TemplateNode::Other { token } => {
            let out = vec![token.duplicate()];
            proof {
                lemma_toks_model(out@);
                assert(toks_model(out@) =~= seq![tok_model(out@[0])]);
            }
            Ok(out)
        },
        TemplateNode::RepeatTarget { children, pos } => {
            match render_nodes_nest(children, entry) {
                Err(e) => Err(e),
                Ok(ts) => {
                    let mut out: Vec<Token> = Vec::new();
                    out.push(Token::Punct { ch: '#', pos: *pos });
                    out.push(Token::Group { delim: Delim::Paren, children: ts, pos: *pos });
                    out.push(Token::Punct { ch: '*', pos: *pos });
                    proof {
                        lemma_toks_model(out@);
                        assert(toks_model(out@) =~= seq![
                            tok_model(out@[0]),
                            tok_model(out@[1]),
                            tok_model(out@[2]),
                        ]);
                    }
                    Ok(out)
                },
            }
        },
    }
}

/// Render a node list inside one repeat.
pub fn render_nodes_in(nodes: &Vec<TemplateNode>, entry: &SubstitutionEntry) -> (r: Result<
    Vec<Token>,
    ExpandError,
>)
    ensures
        models_result(r, spec_render_nodes_in(nodes_model(nodes@), entry_model(*entry))),
    decreases nodes_size(nodes_model(nodes@)), 1nat, 0nat,
{
    let ghost nm = nodes_model(nodes@);
    let ghost em = entry_model(*entry);
    proof {
        lemma_nodes_model(nodes@);
        assert(nm.skip(0) =~= nm);
    }
    let mut out: Vec<Token> = Vec::new();
    let n = nodes.len();
    let mut j: usize = 0;
    while j < n
        invariant
            n == nodes.len(),
            j <= n,
            nm == nodes_model(nodes@),
            em == entry_model(*entry),
            spec_render_nodes_in(nm, em) == (match spec_render_nodes_in(nm.skip(j as int), em) {
                Ok(t) => Ok::<Seq<TokenModel>, ExpandError>(toks_model(out@) + t),
                Err(e) => Err::<Seq<TokenModel>, ExpandError>(e),
            }),
        decreases n - j,
    {
        let ghost s = nm.skip(j as int);
        proof {
            lemma_nodes_model(nodes@);
            assert(s[0] == nm[j as int]);
            lemma_nodes_size_elem(nm, j as int);
        }
        match render_in(&nodes[j], entry) {
            Err(e) => {
                return Err(e);
            },
            Ok(mut h) => {
                let ghost hv = h@;
                let ghost out0 = out@;
                out.append(&mut h);
                j = j + 1;
                proof {
                    crate::token::lemma_toks_model_concat(out0, hv);
                    assert(s.drop_first() =~= nm.skip(j as int));
                    if spec_render_nodes_in(nm.skip(j as int), em) is Ok {
                        let t = spec_render_nodes_in(nm.skip(j as int), em)->Ok_0;
                        assert((toks_model(out0) + toks_model(hv)) + t =~= toks_model(out0) + (
                        toks_model(hv) + t));
                    }
                }
            },
        }
    }
    proof {
        assert(nm.skip(n as int) =~= Seq::<NodeModel>::empty());
        assert(toks_model(out@) + Seq::<TokenModel>::empty() =~= toks_model(out@));
    }
    Ok(out)
}

/// Render one node inside a nested repeat.
pub fn render_nest(node: &TemplateNode, entry: &SubstitutionEntry) -> (r: Result<
    Vec<Token>,
    ExpandError,
>)
    ensures
        models_result(r, spec_render_nest(node_model(*node), entry_model(*entry))),
    decreases node_size(node_model(*node)), 0nat, 0nat,
{
    match node {
        TemplateNode::Group { delim, children, pos } => {
            match render_nodes_nest(children, entry) {
                Err(e) => Err(e),
                Ok(ts) => {
                    let g = Token::Group { delim: *delim, children: ts, pos: *pos };
                    let out = vec![g];
                    proof {
                        lemma_toks_model(out@);
                        assert(toks_model(out@) =~= seq![tok_model(out@[0])]);
                    }
                    Ok(out)
                },
            }
        },
        TemplateNode::Placeholder { .. } => Ok(duplicate_tokens(&entry.tokens)),
        TemplateNode::IdentConcat { prefix, suffix, pos, .. } => {
            match synthesize(prefix, entry, suffix, *pos) {
                Err(e) => Err(e),
                Ok(t) => {
                    let out = vec![t];
                    proof {
                        lemma_toks_model(out@);
                        assert(toks_model(out@) =~= seq![tok_model(out@[0])]);
                    }
                    Ok(out)
                },
            }
        },
        TemplateNode::Other { token } => {
            let out = vec![token.duplicate()];
            proof {
                lemma_toks_model(out@);
                assert(toks_model(out@) =~= seq![tok_model(out@[0])]);
            }
            Ok(out)
        },
        TemplateNode::RepeatTarget { children, pos } => {
            match render_nodes_nest(children, entry) {
                Err(e) => Err(e),
                Ok(ts) => {
                    let mut out: Vec<Token> = Vec::new();
                    out.push(Token::Punct { ch: '#', pos: *pos });
                    out.push(Token::Group { delim: Delim::Paren, children: ts, pos: *pos });
                    out.push(Token::Punct { ch: '*', pos: *pos });
                    proof {
                        lemma_toks_model(out@);
                        assert(toks_model(out@) =~= seq![
                            tok_model(out@[0]),
                            tok_model(out@[1]),
                            tok_model(out@[2]),
                        ]);
                    }
                    Ok(out)
                },
            }
        },
    }
}

/// Render a node list inside a nested repeat.
pub fn render_nodes_nest(nodes: &Vec<TemplateNode>, entry: &SubstitutionEntry) -> (r: Result<
    Vec<Token>,
    ExpandError,
>)
    ensures
        models_result(r, spec_render_nodes_nest(nodes_model(nodes@), entry_model(*entry))),
    decreases nodes_size(nodes_model(nodes@)), 1nat, 0nat,
{
    let ghost nm = nodes_model(nodes@);
    let ghost em = entry_model(*entry);
    proof {
        lemma_nodes_model(nodes@);
        assert(nm.skip(0) =~= nm);
    }
    let mut out: Vec<Token> = Vec::new();
    let n = nodes.len();
    let mut j: usize = 0;
    while j < n
        invariant
            n == nodes.len(),
            j <= n,
            nm == nodes_model(nodes@),
            em == entry_model(*entry),
            spec_render_nodes_nest(nm, em) == (match spec_render_nodes_nest(
                nm.skip(j as int),
                em,
            ) {
                Ok(t) => Ok::<Seq<TokenModel>, ExpandError>(toks_model(out@) + t),
                Err(e) => Err::<Seq<TokenModel>, ExpandError>(e),
            }),
        decreases n - j,
    {
        let ghost s = nm.skip(j as int);
        proof {
            lemma_nodes_model(nodes@);
            assert(s[0] == nm[j as int]);
            lemma_nodes_size_elem(nm, j as int);
        }
        match render_nest(&nodes[j], entry) {
            Err(e) => {
                return Err(e);
            },
            Ok(mut h) => {
                let ghost hv = h@;
                let ghost out0 = out@;
                out.append(&mut h);
                j = j + 1;
                proof {
                    crate::token::lemma_toks_model_concat(out0, hv);
                    assert(s.drop_first() =~= nm.skip(j as int));
                    if spec_render_nodes_nest(nm.skip(j as int), em) is Ok {
                        let t = spec_render_nodes_nest(nm.skip(j as int), em)->Ok_0;
                        assert((toks_model(out0) + toks_model(hv)) + t =~= toks_model(out0) + (
                        toks_model(hv) + t));
                    }
                }
            },
        }
    }
    proof {
        assert(nm.skip(n as int) =~= Seq::<NodeModel>::empty());
        assert(toks_model(out@) + Seq::<TokenModel>::empty() =~= toks_model(out@));
    }
    Ok(out)
}

#[via_fn]
proof fn spec_render_top_dec(n: NodeModel, es: Seq<EntryModel>) {
    node_children_smaller(n);
}

#[via_fn]
proof fn spec_render_nodes_top_dec(s: Seq<NodeModel>, es: Seq<EntryModel>) {
    nodes_head_smaller(s);
}

#[via_fn]
proof fn spec_render_entries_dec(cs: Seq<NodeModel>, es: Seq<EntryModel>) {
}

#[via_fn]
proof fn spec_render_in_dec(n: NodeModel, e: EntryModel) {
    node_children_smaller(n);
}

#[via_fn]
proof fn spec_render_nodes_in_dec(s: Seq<NodeModel>, e: EntryModel) {
    nodes_head_smaller(s);
}

#[via_fn]
proof fn spec_render_nest_dec(n: NodeModel, e: EntryModel) {
    node_children_smaller(n);
}

#[via_fn]
proof fn spec_render_nodes_nest_dec(s: Seq<NodeModel>, e: EntryModel) {
    nodes_head_smaller(s);
}

proof fn node_children_smaller(n: NodeModel)
    ensures
        n is Group ==> nodes_size(n->Group_children) < node_size(n),
        n is RepeatTarget ==> nodes_size(n->RepeatTarget_children) < node_size(n),
{
}

proof fn nodes_head_smaller(s: Seq<NodeModel>)
    ensures
        s.len() > 0 ==> node_size(s[0]) <= nodes_size(s),
        s.len() > 0 ==> nodes_size(s.drop_first()) < nodes_size(s),
{
    if s.len() > 0 {
        lemma_nodes_size_elem(s, 0);
    }
}

} // verus!
