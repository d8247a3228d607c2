//! The token model: atoms (identifiers, literals, punctuation) and
//! delimited groups, each carrying a source position.

use vstd::prelude::*;

verus! {

/// A group's delimiter kind.
#[derive(Clone, Copy, Debug, PartialEq, Eq, Structural)]
pub enum Delim {
    Paren,
    Bracket,
    Brace,
    Invisible,
}

/// One unit of template text: an atom or a delimited group of tokens.
#[derive(Debug, PartialEq, Eq)]
pub enum Token {
    Ident { text: String, pos: usize },
    Punct { ch: char, pos: usize },
    Literal { text: String, pos: usize },
    Group { delim: Delim, children: Vec<Token>, pos: usize },
}

/// The mathematical model of a `Token`: identifier and literal text
/// becomes a sequence of characters, group children become a sequence
/// of modelled tokens.
pub enum TokenModel {
    Ident { text: Seq<char>, pos: usize },
    Punct { ch: char, pos: usize },
    Literal { text: Seq<char>, pos: usize },
    Group { delim: Delim, children: Seq<TokenModel>, pos: usize },
}

pub open spec fn tok_model(t: Token) -> TokenModel
    decreases t,
{
    match t {
        Token::Ident { text, pos } => TokenModel::Ident { text: text@, pos },
        Token::Punct { ch, pos } => TokenModel::Punct { ch, pos },
        Token::Literal { text, pos } => TokenModel::Literal { text: text@, pos },
        Token::Group { delim, children, pos } => TokenModel::Group {
            delim,
            children: toks_model(children@),
            pos,
        },
    }
}

pub open spec fn toks_model(s: Seq<Token>) -> Seq<TokenModel>
    decreases s,
{
    if s.len() == 0 {
        Seq::empty()
    } else {
        seq![tok_model(s[0])] + toks_model(s.drop_first())
    }
}

/// Size of a modelled token tree; used as a termination measure.
pub open spec fn tok_size(t: TokenModel) -> nat
    decreases t,
{
    match t {
        TokenModel::Group { children, .. } => 1 + toks_size(children),
        _ => 1,
    }
}

pub open spec fn toks_size(s: Seq<TokenModel>) -> nat
    decreases s,
{
    if s.len() == 0 {
        0
    } else {
        tok_size(s[0]) + toks_size(s.drop_first())
    }
}

/// Pointwise characterisation of `toks_model`.
pub proof fn lemma_toks_model(s: Seq<Token>)
    ensures
        toks_model(s).len() == s.len(),
        forall|i: int| 0 <= i < s.len() ==> toks_model(s)[i] == tok_model(s[i]),
    decreases s,
{
    if s.len() > 0 {
        lemma_toks_model(s.drop_first());
    }
}

/// `toks_model` distributes over concatenation.
pub proof fn lemma_toks_model_concat(a: Seq<Token>, b: Seq<Token>)
    ensures
        toks_model(a + b) == toks_model(a) + toks_model(b),
{
    lemma_toks_model(a);
    lemma_toks_model(b);
    lemma_toks_model(a + b);
    assert(toks_model(a + b) =~= toks_model(a) + toks_model(b));
}

pub proof fn lemma_tok_size_pos(t: TokenModel)
    ensures
        tok_size(t) >= 1,
{
}

/// Each element's size is bounded by the whole sequence's size.
pub proof fn lemma_toks_size_elem(s: Seq<TokenModel>, i: int)
    requires
        0 <= i < s.len(),
    ensures
        tok_size(s[i]) <= toks_size(s),
    decreases s,
{
    if i > 0 {
        lemma_toks_size_elem(s.drop_first(), i - 1);
    }
}

/// Dropping a prefix of length `k` lowers the size by at least `k`.
pub proof fn lemma_toks_size_skip(s: Seq<TokenModel>, k: int)
    requires
        0 <= k <= s.len(),
    ensures
        toks_size(s.skip(k)) + k <= toks_size(s),
    decreases k,
{
    if k == 0 {
        assert(s.skip(0) =~= s);
    } else {
        assert(s.skip(k) =~= s.drop_first().skip(k - 1));
        lemma_toks_size_skip(s.drop_first(), k - 1);
        lemma_tok_size_pos(s[0]);
    }
}

impl Token {
    /// Position carried by this token.
    pub open spec fn spec_pos(&self) -> usize {
        match *self {
            Token::Ident { pos, .. } => pos,
            Token::Punct { pos, .. } => pos,
            Token::Literal { pos, .. } => pos,
            Token::Group { pos, .. } => pos,
        }
    }

    pub fn pos(&self) -> (p: usize)
        ensures
            p == self.spec_pos(),
    {
        match self {
            Token::Ident { pos, .. } => *pos,
            Token::Punct { pos, .. } => *pos,
            Token::Literal { pos, .. } => *pos,
            Token::Group { pos, .. } => *pos,
        }
    }

    /// Structure-preserving copy; the tree is owned by value, so callers
    /// that keep the original work on a fresh copy.
    pub fn duplicate(&self) -> (r: Token)
        ensures
            tok_model(r) == tok_model(*self),
        decreases tok_size(tok_model(*self)),
    {
        match self {
            Token::Ident { text, pos } => Token::Ident { text: text.clone(), pos: *pos },
            Token::Punct { ch, pos } => Token::Punct { ch: *ch, pos: *pos },
            Token::Literal { text, pos } => Token::Literal { text: text.clone(), pos: *pos },
            Token::Group { delim, children, pos } => {
                let mut out: Vec<Token> = Vec::new();
                let n = children.len();
                for j in 0..n
                    invariant
                        n == children.len(),
                        out.len() == j,
                        forall|k: int|
                            0 <= k < j ==> tok_model(out[k]) == tok_model(children[k]),
                        tok_size(tok_model(*self)) == 1 + toks_size(toks_model(children@)),
                {
                    proof {
                        lemma_toks_model(children@);
                        lemma_toks_size_elem(toks_model(children@), j as int);
                    }
                    let c = children[j].duplicate();
                    out.push(c);
                }
                proof {
                    lemma_toks_model(children@);
                    lemma_toks_model(out@);
                    assert(toks_model(out@) =~= toks_model(children@));
                }
                Token::Group { delim: *delim, children: out, pos: *pos }
            },
        }
    }
}

/// Copy of a whole token sequence, preserving its model.
pub fn duplicate_tokens(toks: &Vec<Token>) -> (r: Vec<Token>)
    ensures
        toks_model(r@) == toks_model(toks@),
{
    let mut out: Vec<Token> = Vec::new();
    let n = toks.len();
    for j in 0..n
        invariant
            n == toks.len(),
            out.len() == j,
            forall|k: int| 0 <= k < j ==> tok_model(out[k]) == tok_model(toks[k]),
    {
        let c = toks[j].duplicate();
        out.push(c);
    }
    proof {
        lemma_toks_model(toks@);
        lemma_toks_model(out@);
        assert(toks_model(out@) =~= toks_model(toks@));
    }
    out
}

/// One substitution entry: the token sequence it renders to, and its
/// final path segment, if it has one. Entries are opaque to the engine
/// except for these two views, so callers may build them directly.
#[derive(Debug, PartialEq, Eq)]
pub struct SubstitutionEntry {
    pub tokens: Vec<Token>,
    pub segment: Option<String>,
}

/// Model of a substitution entry.
pub struct EntryModel {
    pub tokens: Seq<TokenModel>,
    pub segment: Option<Seq<char>>,
}

pub open spec fn entry_model(e: SubstitutionEntry) -> EntryModel {
    EntryModel {
        tokens: toks_model(e.tokens@),
        segment: match e.segment {
            Some(s) => Some(s@),
            None => None,
        },
    }
}

pub open spec fn entries_model(s: Seq<SubstitutionEntry>) -> Seq<EntryModel> {
    s.map_values(|e: SubstitutionEntry| entry_model(e))
}

/// The final path segment of an entry written as a plain token run:
/// the text of its last token, when that token is an identifier.
pub open spec fn spec_entry_from(ts: Seq<TokenModel>) -> EntryModel {
    EntryModel {
        tokens: ts,
        segment: if ts.len() > 0 && ts.last() is Ident {
            Some(ts.last()->Ident_text)
        } else {
            None
        },
    }
}

impl SubstitutionEntry {
    /// Build an entry from its token run, extracting the final path
    /// segment when the run ends in an identifier.
    pub fn from_tokens(tokens: Vec<Token>) -> (r: SubstitutionEntry)
        ensures
            entry_model(r) == spec_entry_from(toks_model(tokens@)),
    {
        proof {
            lemma_toks_model(tokens@);
        }
        let segment: Option<String> = if tokens.len() > 0 {
            match &tokens[tokens.len() - 1] {
                Token::Ident { text, .. } => Some(text.clone()),
                _ => None,
            }
        } else {
            None
        };
        SubstitutionEntry { tokens, segment }
    }
}

} // verus!
