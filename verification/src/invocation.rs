//! The invocation parser: takes the invocation's raw token stream
//! (`for` placeholder `in` `[` entries `]` `{` body `}`) and extracts
//! a structured request, and the whole-expansion entry point.

use vstd::prelude::*;
use vstd::string::StringExecFns;

use crate::render::{ExpandError, models_result, render_top, spec_render_top};
use crate::template::{compile, spec_compile_template};
use crate::token::{
    Delim, EntryModel, SubstitutionEntry, Token, TokenModel, entries_model, entry_model,
    lemma_toks_model, spec_entry_from, tok_model, toks_model,
};

verus! {

/// The structured request extracted from an invocation.
#[derive(Debug, PartialEq, Eq)]
pub struct RepeatInput {
    /// The placeholder identifier.
    pub variable: String,
    /// The bracketed, comma-separated substitution entries.
    pub entries: Vec<SubstitutionEntry>,
    /// The braced template body.
    pub body: Vec<Token>,
}

/// Model of a structured request.
pub struct RequestModel {
    pub variable: Seq<char>,
    pub entries: Seq<EntryModel>,
    pub body: Seq<TokenModel>,
}

pub open spec fn request_model(r: RepeatInput) -> RequestModel {
    RequestModel {
        variable: r.variable@,
        entries: entries_model(r.entries@),
        body: toks_model(r.body@),
    }
}

/// Index of the first top-level comma in `toks`, or `toks.len()` if
/// there is none.
pub open spec fn first_comma(toks: Seq<TokenModel>) -> int
    decreases toks.len(),
{
    if toks.len() == 0 {
        0
    } else if toks[0] matches TokenModel::Punct { ch, .. } && ch == ',' {
        0
    } else {
        1 + first_comma(toks.drop_first())
    }
}

pub proof fn lemma_first_comma(toks: Seq<TokenModel>)
    ensures
        0 <= first_comma(toks) <= toks.len(),
        first_comma(toks) < toks.len() ==> (toks[first_comma(toks)] matches TokenModel::Punct {
            ch,
            ..
        } && ch == ','),
        forall|i: int| #![trigger toks[i]]
            0 <= i < first_comma(toks) ==> !(toks[i] matches TokenModel::Punct { ch, .. } && ch
                == ','),
    decreases toks.len(),
{
    if toks.len() > 0 {
        lemma_first_comma(toks.drop_first());
        assert forall|i: int| #![trigger toks[i]]
            0 <= i < first_comma(toks) implies !(toks[i] matches TokenModel::Punct {
            ch,
            ..
        } && ch == ',') by {
            if i > 0 {
                assert(toks[i] == toks.drop_first()[i - 1]);
            }
        }
    }
}

/// Split a bracketed list body on commas into substitution entries.
/// An empty run before a comma is malformed; a trailing comma is
/// allowed; an empty list yields no entries.
pub open spec fn spec_parse_entries(toks: Seq<TokenModel>) -> Result<Seq<EntryModel>, ExpandError>
    decreases toks.len(),
        via spec_parse_entries_dec
{
    if toks.len() == 0 {
        Ok(Seq::empty())
    } else {
        let k = first_comma(toks);
        if k == 0 {
            Err(ExpandError::StructuralError { pos: toks[0]->Punct_pos })
        } else if k == toks.len() {
            Ok(seq![spec_entry_from(toks)])
        } else {
            match spec_parse_entries(toks.skip(k + 1)) {
                Err(e) => Err(e),
                Ok(rest) => Ok(seq![spec_entry_from(toks.take(k))] + rest),
            }
        }
    }
}

#[via_fn]
proof fn spec_parse_entries_dec(toks: Seq<TokenModel>) {
    lemma_first_comma(toks);
}

/// Position of the token at `i`, or zero past the end; the fallback
/// places diagnostics for truncated invocations at the call site.
pub open spec fn pos_at(toks: Seq<TokenModel>, i: int) -> usize {
    if 0 <= i < toks.len() {
        match toks[i] {
            TokenModel::Ident { pos, .. } => pos,
            TokenModel::Punct { pos, .. } => pos,
            TokenModel::Literal { pos, .. } => pos,
            TokenModel::Group { pos, .. } => pos,
        }
    } else {
        0
    }
}

/// Parse the invocation surface: keyword `for`, the placeholder
/// identifier, keyword `in`, a bracketed entry list, a braced body,
/// and nothing further.
/// The token is the identifier spelled `kw`.
pub open spec fn is_keyword(t: TokenModel, kw: Seq<char>) -> bool {
    t matches TokenModel::Ident { text, .. } && text == kw
}

/// The token is a group with delimiter `d`.
pub open spec fn is_group_of(t: TokenModel, d: Delim) -> bool {
    t matches TokenModel::Group { delim, .. } && delim == d
}

pub open spec fn spec_parse_invocation(toks: Seq<TokenModel>) -> Result<RequestModel, ExpandError> {
    if !(toks.len() >= 1 && is_keyword(toks[0], "for"@)) {
        Err(ExpandError::StructuralError { pos: pos_at(toks, 0) })
    } else if !(toks.len() >= 2 && toks[1] is Ident) {
        Err(ExpandError::StructuralError { pos: pos_at(toks, 1) })
    } else if !(toks.len() >= 3 && is_keyword(toks[2], "in"@)) {
        Err(ExpandError::StructuralError { pos: pos_at(toks, 2) })
    } else if !(toks.len() >= 4 && is_group_of(toks[3], Delim::Bracket)) {
        Err(ExpandError::StructuralError { pos: pos_at(toks, 3) })
    } else if !(toks.len() >= 5 && is_group_of(toks[4], Delim::Brace)) {
        Err(ExpandError::StructuralError { pos: pos_at(toks, 4) })
    } else if toks.len() != 5 {
        Err(ExpandError::StructuralError { pos: pos_at(toks, 5) })
    } else {
        match spec_parse_entries(toks[3]->Group_children) {
            Err(e) => Err(e),
            Ok(entries) => Ok(
                RequestModel {
                    variable: toks[1]->Ident_text,
                    entries,
                    body: toks[4]->Group_children,
                },
            ),
        }
    }
}

/// The expansion of a whole invocation: compile the body under the
/// placeholder, then render the tree once over the entry list.
pub open spec fn spec_expand(ph: Seq<char>, es: Seq<EntryModel>, body: Seq<TokenModel>) -> Result<
    Seq<TokenModel>,
    ExpandError,
> {
    spec_render_top(spec_compile_template(ph, body), es)
}

/// One entry built from the token run `toks[start .. end]`.
fn run_entry(toks: &Vec<Token>, start: usize, end: usize) -> (r: SubstitutionEntry)
    requires
        start <= end <= toks@.len(),
    ensures
        entry_model(r) == spec_entry_from(toks_model(toks@).subrange(start as int, end as int)),
{
    let mut run: Vec<Token> = Vec::new();
    let mut j = start;
    while j < end
        invariant
            start <= j <= end <= toks@.len(),
            run@.len() == j - start,
            forall|k: int|
                0 <= k < run@.len() ==> tok_model(run@[k]) == tok_model(toks@[start + k]),
        decreases end - j,
    {
        let t = toks[j].duplicate();
        run.push(t);
        j = j + 1;
    }
    proof {
        lemma_toks_model(run@);
        lemma_toks_model(toks@);
        assert(toks_model(run@) =~= toks_model(toks@).subrange(start as int, end as int));
    }
    SubstitutionEntry::from_tokens(run)
}

/// Parse a bracketed list body into its substitution entries.
fn parse_entries(toks: &Vec<Token>) -> (r: Result<Vec<SubstitutionEntry>, ExpandError>)
    ensures
        (match spec_parse_entries(toks_model(toks@)) {
            Ok(es) => r matches Ok(v) && entries_model(v@) == es,
            Err(e) => r matches Err(e2) && e2 == e,
        }),
{
    let ghost tm = toks_model(toks@);
    proof {
        lemma_toks_model(toks@);
        assert(tm.skip(0) =~= tm);
    }
    let mut out: Vec<SubstitutionEntry> = Vec::new();
    let n = toks.len();
    let mut start: usize = 0;
    let mut i: usize = 0;
    while i < n
        invariant
            n == toks.len(),
            start <= i <= n,
            tm == toks_model(toks@),
            forall|k: int| #![trigger tm[k]]
                start <= k < i ==> !(tm[k] matches TokenModel::Punct { ch, .. } && ch == ','),
            spec_parse_entries(tm) == (match spec_parse_entries(tm.skip(start as int)) {
                Ok(rest) => Ok::<Seq<EntryModel>, ExpandError>(entries_model(out@) + rest),
                Err(e) => Err::<Seq<EntryModel>, ExpandError>(e),
            }),
        decreases n - i,
    {
        let ghost s = tm.skip(start as int);
        let is_comma = match &toks[i] {
            Token::Punct { ch, .. } => *ch == ',',
            _ => false,
        };
        proof {
            lemma_toks_model(toks@);
            lemma_first_comma(s);
            if is_comma {
                assert(forall|k: int| #![trigger s[k]]
                    0 <= k < i - start ==> !(s[k] matches TokenModel::Punct { ch, .. } && ch
                        == ','));
                assert(s[i - start] matches TokenModel::Punct { ch, .. } && ch == ',');
                assert(first_comma(s) == i - start) by {
                    if first_comma(s) < i - start {
                        assert(!(s[first_comma(s)] matches TokenModel::Punct { ch, .. } && ch
                            == ','));
                    }
                }
            }
        }
        if is_comma {
            if i == start {
                return Err(ExpandError::StructuralError { pos: toks[i].pos() });
            }
            let e = run_entry(toks, start, i);
            let ghost out0 = out@;
            out.push(e);
            proof {
                let k = i - start;
                assert(s.len() == n - start);
                assert(k > 0 && k < s.len());
                assert(spec_parse_entries(s) == (match spec_parse_entries(s.skip(k + 1)) {
                    Err(e2) => Err::<Seq<EntryModel>, ExpandError>(e2),
                    Ok(rest) => Ok::<Seq<EntryModel>, ExpandError>(
                        seq![spec_entry_from(s.take(k))] + rest,
                    ),
                }));
                assert(s.take(k) =~= tm.subrange(start as int, i as int));
                assert(spec_entry_from(s.take(k)) == entry_model(e));
                assert(s.skip(k + 1) =~= tm.skip(i + 1));
                assert(out@ == out0.push(e));
                assert(entries_model(out@) =~= entries_model(out0) + seq![entry_model(e)]);
                if spec_parse_entries(tm.skip(i + 1)) is Ok {
                    let rest = spec_parse_entries(tm.skip(i + 1))->Ok_0;
                    assert((entries_model(out0) + seq![entry_model(e)]) + rest =~= entries_model(
                        out0,
                    ) + (seq![entry_model(e)] + rest));
                }
            }
            start = i + 1;
        } else {
            proof {
                assert(tm[i as int] == tok_model(toks@[i as int]));
                assert(!(tm[i as int] matches TokenModel::Punct { ch, .. } && ch == ','));
            }
        }
        i = i + 1;
    }
    let ghost s = tm.skip(start as int);
    proof {
        lemma_first_comma(s);
        if start < n {
            assert(forall|k: int| #![trigger s[k]]
                0 <= k < s.len() ==> !(s[k] matches TokenModel::Punct { ch, .. } && ch == ','));
            if first_comma(s) < s.len() {
                assert(!(s[first_comma(s)] matches TokenModel::Punct { ch, .. } && ch == ','));
            }
            assert(first_comma(s) == s.len());
        }
    }
    if start < n {
        let e = run_entry(toks, start, n);
        out.push(e);
        proof {
            assert(tm.subrange(start as int, n as int) =~= s);
            assert(entries_model(out@) =~= entries_model(out@.drop_last()) + seq![
                entry_model(e),
            ]);
        }
        Ok(out)
    } else {
        proof {
            assert(s =~= Seq::<TokenModel>::empty());
            assert(entries_model(out@) + Seq::<EntryModel>::empty() =~= entries_model(out@));
        }
        Ok(out)
    }
}

impl RepeatInput {
    /// Parse the invocation's raw token stream into a structured
    /// request. A pure parse: equal streams give equal requests.
    pub fn parse(toks: &Vec<Token>) -> (r: Result<RepeatInput, ExpandError>)
        ensures
            (match spec_parse_invocation(toks_model(toks@)) {
                Ok(req) => r matches Ok(v) && request_model(v) == req,
                Err(e) => r matches Err(e2) && e2 == e,
            }),
    {
        let ghost tm = toks_model(toks@);
        proof {
            lemma_toks_model(toks@);
        }
        let n = toks.len();
        let kw_for = String::from_str("for");
        let kw_in = String::from_str("in");
        if !(n >= 1 && (match &toks[0] {
            Token::Ident { text, .. } => text.eq(&kw_for),
            _ => false,
        })) {
            let pos = if n >= 1 {
                toks[0].pos()
            } else {
                0
            };
            return Err(ExpandError::StructuralError { pos });
        }
        if !(n >= 2 && (match &toks[1] {
            Token::Ident { .. } => true,
            _ => false,
        })) {
            let pos = if n >= 2 {
                toks[1].pos()
            } else {
                0
            };
            return Err(ExpandError::StructuralError { pos });
        }
        if !(n >= 3 && (match &toks[2] {
            Token::Ident { text, .. } => text.eq(&kw_in),
            _ => false,
        })) {
            let pos = if n >= 3 {
                toks[2].pos()
            } else {
                0
            };
            return Err(ExpandError::StructuralError { pos });
        }
        if !(n >= 4 && (match &toks[3] {
            Token::Group { delim: Delim::Bracket, .. } => true,
            _ => false,
        })) {
            let pos = if n >= 4 {
                toks[3].pos()
            } else {
                0
            };
            return Err(ExpandError::StructuralError { pos });
        }
        if !(n >= 5 && (match &toks[4] {
            Token::Group { delim: Delim::Brace, .. } => true,
            _ => false,
        })) {
            let pos = if n >= 5 {
                toks[4].pos()
            } else {
                0
            };
            return Err(ExpandError::StructuralError { pos });
        }
        if n != 5 {
            return Err(ExpandError::StructuralError { pos: toks[5].pos() });
        }
        let variable = match &toks[1] {
            Token::Ident { text, .. } => text.clone(),
            _ => {
                return Err(ExpandError::StructuralError { pos: 0 });
            },
        };
        let entries = match &toks[3] {
            Token::Group { children, .. } => {
                match parse_entries(children) {
                    Ok(es) => es,
                    Err(e) => {
                        return Err(e);
                    },
                }
            },
            _ => {
                return Err(ExpandError::StructuralError { pos: 0 });
            },
        };
        let body = match &toks[4] {
            Token::Group { children, .. } => crate::token::duplicate_tokens(children),
            _ => {
                return Err(ExpandError::StructuralError { pos: 0 });
            },
        };
        Ok(RepeatInput { variable, entries, body })
    }
}

/// Expand a parsed request: compile the template body once, then
/// render it over the substitution entries.
pub fn repeat_for_types(input: &RepeatInput) -> (r: Result<Vec<Token>, ExpandError>)
    ensures
        models_result(
            r,
            spec_expand(
                input.variable@,
                entries_model(input.entries@),
                toks_model(input.body@),
            ),
        ),
{
    let (tree, _explicit) = compile(&input.variable, &input.body);
    render_top(&tree, &input.entries)
}

/// Parse and expand a whole invocation token stream.
pub fn expand_invocation(toks: &Vec<Token>) -> (r: Result<Vec<Token>, ExpandError>)
    ensures
        (match spec_parse_invocation(toks_model(toks@)) {
            Err(e) => r matches Err(e2) && e2 == e,
            Ok(req) => models_result(r, spec_expand(req.variable, req.entries, req.body)),
        }),
{
    match RepeatInput::parse(toks) {
        Err(e) => Err(e),
        Ok(input) => repeat_for_types(&input),
    }
}

/// The invocation parser is deterministic: equal raw token streams
/// always yield the same structured request (or the same error).
pub proof fn lemma_parse_deterministic(t1: Seq<TokenModel>, t2: Seq<TokenModel>)
    requires
        t1 == t2,
    ensures
        spec_parse_invocation(t1) == spec_parse_invocation(t2),
{
}

} // verus!
