//! Laws of the expansion engine, stated over the same models that the
//! executable functions' contracts use, and proved once and for all.

use vstd::prelude::*;

use crate::render::{
    ExpandError, spec_render_entries, spec_render_in, spec_render_nest, spec_render_nodes_in,
    spec_render_nodes_nest, spec_render_nodes_top, spec_render_top,
};
use crate::template::{
    NodeModel, lemma_nodes_size_elem, node_size, nodes_size, spec_compile, spec_compile_template,
};
use crate::token::{Delim, EntryModel, TokenModel};

verus! {

/// The two inside-repeat contexts agree on every node: a repeat-target
/// found while already rendering one entry's expansion is passed
/// through identically however deeply it is nested. There is no
/// fourth rendering tier.
pub proof fn lemma_no_fourth_tier(n: NodeModel, e: EntryModel)
    ensures
        spec_render_in(n, e) == spec_render_nest(n, e),
    decreases node_size(n), 0nat,
{
    match n {
        NodeModel::Group { children, .. } => {
            lemma_no_fourth_tier_nodes(children, e);
        },
        _ => {},
    }
}

pub proof fn lemma_no_fourth_tier_nodes(s: Seq<NodeModel>, e: EntryModel)
    ensures
        spec_render_nodes_in(s, e) == spec_render_nodes_nest(s, e),
    decreases nodes_size(s), 1nat,
{
    if s.len() > 0 {
        lemma_nodes_size_elem(s, 0);
        lemma_no_fourth_tier(s[0], e);
        lemma_no_fourth_tier_nodes(s.drop_first(), e);
    }
}

/// Nested-repeat passthrough: a repeat-target met inside a repeat does
/// not iterate again; its children are rendered under the same outer
/// entry and the result is re-wrapped in the `#( ... )*` marker
/// tokens, which stay in the output verbatim.
pub proof fn lemma_nested_repeat_passthrough(
    children: Seq<NodeModel>,
    pos: usize,
    e: EntryModel,
)
    ensures
        spec_render_in(NodeModel::RepeatTarget { children, pos }, e) == (match
            spec_render_nodes_nest(children, e) {
            Ok(ts) => Ok::<Seq<TokenModel>, ExpandError>(
                seq![
                    TokenModel::Punct { ch: '#', pos },
                    TokenModel::Group { delim: Delim::Paren, children: ts, pos },
                    TokenModel::Punct { ch: '*', pos },
                ],
            ),
            Err(er) => Err::<Seq<TokenModel>, ExpandError>(er),
        }),
{
}

/// Misplacement rejection, node form: a bare placeholder or an
/// identifier-concatenation marker rendered in the top-level context
/// always fails with `MisplacedPlaceholder` at the marker's position,
/// whatever the entry list — never silent omission.
pub proof fn lemma_misplaced_placeholder(n: NodeModel, es: Seq<EntryModel>)
    requires
        n is Placeholder || n is IdentConcat,
    ensures
        n is Placeholder ==> spec_render_top(n, es) == Err::<Seq<TokenModel>, ExpandError>(
            ExpandError::MisplacedPlaceholder { pos: n->Placeholder_pos },
        ),
        n is IdentConcat ==> spec_render_top(n, es) == Err::<Seq<TokenModel>, ExpandError>(
            ExpandError::MisplacedPlaceholder { pos: n->IdentConcat_pos },
        ),
{
}

/// Misplacement rejection, list form: a node list holding a
/// placeholder or identifier-concatenation marker anywhere at the top
/// level never renders successfully.
pub proof fn lemma_misplaced_placeholder_in_list(
    s: Seq<NodeModel>,
    es: Seq<EntryModel>,
    i: int,
)
    requires
        0 <= i < s.len(),
        s[i] is Placeholder || s[i] is IdentConcat,
    ensures
        spec_render_nodes_top(s, es) is Err,
    decreases s.len(),
{
    if i > 0 {
        if spec_render_top(s[0], es) is Ok {
            lemma_misplaced_placeholder_in_list(s.drop_first(), es, i - 1);
        }
    }
}

/// Concatenation of the entries' full token renderings, in entry-list
/// order.
pub open spec fn concat_entry_tokens(es: Seq<EntryModel>) -> Seq<TokenModel>
    decreases es.len(),
{
    if es.len() == 0 {
        Seq::empty()
    } else {
        es[0].tokens + concat_entry_tokens(es.drop_first())
    }
}

proof fn lemma_render_entries_single_placeholder(p: usize, es: Seq<EntryModel>)
    ensures
        spec_render_entries(seq![NodeModel::Placeholder { pos: p }], es) == Ok::<
            Seq<TokenModel>,
            ExpandError,
        >(concat_entry_tokens(es)),
    decreases es.len(),
{
    let cs = seq![NodeModel::Placeholder { pos: p }];
    if es.len() == 0 {
    } else {
        lemma_render_entries_single_placeholder(p, es.drop_first());
        assert(cs.drop_first() =~= Seq::<NodeModel>::empty());
        assert(spec_render_in(cs[0], es[0]) == Ok::<Seq<TokenModel>, ExpandError>(es[0].tokens));
        assert(spec_render_nodes_in(Seq::<NodeModel>::empty(), es[0]) == Ok::<
            Seq<TokenModel>,
            ExpandError,
        >(Seq::empty()));
        assert(spec_render_nodes_in(cs, es[0]) == Ok::<Seq<TokenModel>, ExpandError>(
            es[0].tokens + Seq::<TokenModel>::empty(),
        ));
        assert(es[0].tokens + Seq::<TokenModel>::empty() =~= es[0].tokens);
    }
}

/// Entry-count law: a template body that is exactly one bare
/// placeholder expands to exactly the concatenation of every entry's
/// own token rendering, one per entry, in entry-list order.
pub proof fn lemma_entry_count(ph: Seq<char>, p: usize, es: Seq<EntryModel>)
    ensures
        crate::invocation::spec_expand(ph, es, seq![TokenModel::Ident { text: ph, pos: p }])
            == Ok::<Seq<TokenModel>, ExpandError>(concat_entry_tokens(es)),
{
    let body = seq![TokenModel::Ident { text: ph, pos: p }];
    assert(body.skip(1) =~= Seq::<TokenModel>::empty());
    assert(spec_compile(ph, Seq::<TokenModel>::empty()) == (Seq::<NodeModel>::empty(), false));
    let c = spec_compile(ph, body);
    assert(crate::template::step_used(ph, body) == 1);
    assert(crate::template::head_node(ph, body) == NodeModel::Placeholder { pos: p });
    assert(c.0 =~= seq![NodeModel::Placeholder { pos: p }]);
    assert(c.1 == false);
    lemma_render_entries_single_placeholder(p, es);
}

/// Implicit-wrap equivalence: a body with no explicit repeat-target
/// marker expands exactly as the same body wrapped by hand in one
/// `#( ... )*` marker, up to the invisible group that the explicit
/// form's top level adds around the output.
pub proof fn lemma_implicit_wrap_equivalence(
    ph: Seq<char>,
    body: Seq<TokenModel>,
    es: Seq<EntryModel>,
    p: usize,
)
    requires
        spec_compile(ph, body).1 == false,
    ensures
        ({
            let implicit = spec_render_top(spec_compile_template(ph, body), es);
            let wrapped = spec_render_top(
                spec_compile_template(ph, wrap_in_repeat(body, p)),
                es,
            );
            match implicit {
                Ok(ts) => wrapped == Ok::<Seq<TokenModel>, ExpandError>(
                    seq![TokenModel::Group { delim: Delim::Invisible, children: ts, pos: 0 }],
                ),
                Err(e) => wrapped == Err::<Seq<TokenModel>, ExpandError>(e),
            }
        }),
{
    let wb = wrap_in_repeat(body, p);
    assert(wb[0] matches TokenModel::Punct { ch, .. } && ch == '#');
    assert(wb[1] matches TokenModel::Group { delim, children, .. } && delim == Delim::Paren
        && children == body);
    assert(wb[2] matches TokenModel::Punct { ch, .. } && ch == '*');
    assert(wb.skip(3) =~= Seq::<TokenModel>::empty());
    assert(spec_compile(ph, Seq::<TokenModel>::empty()) == (Seq::<NodeModel>::empty(), false));
    assert(crate::template::repeat_marker_at(wb));
    let inner = spec_compile(ph, body);
    let cw = spec_compile(ph, wb);
    assert(cw.0 =~= seq![NodeModel::RepeatTarget { children: inner.0, pos: p }]);
    assert(cw.1);
    let template = spec_compile_template(ph, wb);
    let rt = NodeModel::RepeatTarget { children: inner.0, pos: p };
    assert(template == NodeModel::Group { delim: Delim::Invisible, children: cw.0, pos: 0 });
    assert(cw.0.drop_first() =~= Seq::<NodeModel>::empty());
    assert(cw.0[0] == rt);
    let er = spec_render_entries(inner.0, es);
    assert(spec_render_top(rt, es) == er);
    assert(spec_render_nodes_top(Seq::<NodeModel>::empty(), es) == Ok::<
        Seq<TokenModel>,
        ExpandError,
    >(Seq::empty()));
    match er {
        Ok(h) => {
            assert(h + Seq::<TokenModel>::empty() =~= h);
            assert(spec_render_nodes_top(cw.0, es) == Ok::<Seq<TokenModel>, ExpandError>(h));
        },
        Err(e) => {
            assert(spec_render_nodes_top(cw.0, es) == Err::<Seq<TokenModel>, ExpandError>(e));
        },
    }
}

/// An explicit repeat-target under the template root repeats zero
/// times over an empty entry list: that region's output is empty.
pub proof fn lemma_zero_entries(cs: Seq<NodeModel>)
    ensures
        spec_render_entries(cs, Seq::empty()) == Ok::<Seq<TokenModel>, ExpandError>(Seq::empty()),
{
}

proof fn lemma_compile_flag_is_containment(ph: Seq<char>, toks: Seq<TokenModel>)
    ensures
        spec_compile(ph, toks).1 == crate::template::nodes_have_repeat(spec_compile(ph, toks).0),
    decreases crate::token::toks_size(toks),
{
    if toks.len() == 0 {
    } else if toks[0] is Group {
        let children = toks[0]->Group_children;
        crate::token::lemma_toks_size_elem(toks, 0);
        crate::token::lemma_toks_size_skip(toks, 1);
        assert(crate::token::tok_size(toks[0]) == 1 + crate::token::toks_size(children));
        lemma_compile_flag_is_containment(ph, children);
        lemma_compile_flag_is_containment(ph, toks.skip(1));
        let inner = spec_compile(ph, children);
        let rest = spec_compile(ph, toks.skip(1));
        let node = NodeModel::Group {
            delim: toks[0]->Group_delim,
            children: inner.0,
            pos: toks[0]->Group_pos,
        };
        lemma_have_repeat_cons(node, rest.0);
    } else if crate::template::repeat_marker_at(toks) {
        crate::token::lemma_toks_size_elem(toks, 1);
        crate::token::lemma_toks_size_skip(toks, 3);
        assert(crate::token::tok_size(toks[1]) == 1 + crate::token::toks_size(
            toks[1]->Group_children,
        ));
        assert(toks.len() >= 3);
        assert(crate::token::toks_size(toks.skip(3)) < crate::token::toks_size(toks));
        lemma_compile_flag_is_containment(ph, toks.skip(3));
        let inner = spec_compile(ph, toks[1]->Group_children);
        let rest = spec_compile(ph, toks.skip(3));
        let node = NodeModel::RepeatTarget { children: inner.0, pos: toks[1]->Group_pos };
        lemma_have_repeat_cons(node, rest.0);
    } else {
        let used = crate::template::step_used(ph, toks) as int;
        assert(used == 1 || used == 3 || used == 5);
        assert(used <= toks.len());
        crate::token::lemma_toks_size_skip(toks, used);
        assert(crate::token::toks_size(toks.skip(used)) < crate::token::toks_size(toks));
        lemma_compile_flag_is_containment(ph, toks.skip(used));
        let rest = spec_compile(ph, toks.skip(used));
        let node = crate::template::head_node(ph, toks);
        assert(!crate::template::node_has_repeat(node));
        lemma_have_repeat_cons(node, rest.0);
    }
}

proof fn lemma_have_repeat_cons(n: NodeModel, rest: Seq<NodeModel>)
    ensures
        crate::template::nodes_have_repeat(seq![n] + rest) == (crate::template::node_has_repeat(
            n,
        ) || crate::template::nodes_have_repeat(rest)),
{
    assert((seq![n] + rest)[0] == n);
    assert((seq![n] + rest).drop_first() =~= rest);
}

/// The compiled-template invariant: exactly one of two shapes holds.
/// In explicit mode the tree holds at least one repeat-target
/// somewhere below it; in implicit mode the whole body is wrapped in
/// one synthetic repeat-target.
pub proof fn lemma_template_shape(ph: Seq<char>, toks: Seq<TokenModel>)
    ensures
        spec_compile(ph, toks).1 ==> crate::template::node_has_repeat(
            spec_compile_template(ph, toks),
        ),
        !spec_compile(ph, toks).1 ==> spec_compile_template(ph, toks)
            == (NodeModel::RepeatTarget { children: spec_compile(ph, toks).0, pos: 0 }),
{
    lemma_compile_flag_is_containment(ph, toks);
}

/// A body wrapped by hand in one explicit repeat-target marker:
/// `#`, the parenthesised body, `*`, all at position `p`.
pub open spec fn wrap_in_repeat(body: Seq<TokenModel>, p: usize) -> Seq<TokenModel> {
    seq![
        TokenModel::Punct { ch: '#', pos: p },
        TokenModel::Group { delim: Delim::Paren, children: body, pos: p },
        TokenModel::Punct { ch: '*', pos: p },
    ]
}

} // verus!
