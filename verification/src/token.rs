//! The compiled form of a template: an immutable tree of tokens.

use vstd::prelude::*;

verus! {

/// One node of a compiled template.
pub enum Token {
    /// Literal text, copied to the output with indentation applied at
    /// line starts.
    Text(String),
    /// A tag that resolves a path and emits the value HTML-escaped.
    EscapedTag(Vec<String>),
    /// A tag that resolves a path and emits the value unescaped.
    UnescapedTag(Vec<String>),
    /// A section: path, whether inverted, children, the opening and closing
    /// delimiters it was compiled under, and its raw source text (the
    /// delimiters and source feed producer re-expansion).
    Section(Vec<String>, bool, Vec<Token>, String, String, String),
    /// A partial reference with its per-occurrence indentation.
    Partial(String, String),
    /// The current iteration anchor (key or index) as text.
    At,
    /// Structured serialization of a resolved value; the flag asks for the
    /// pretty multi-line form.
    Json(Vec<String>, bool),
    /// A section that iterates the whole context stack instead of one value.
    TopSection(Vec<Token>),
    /// A sentinel the compiler must never leak; rendering it is an error.
    Incomplete,
}

/// Structural size of one token, for termination measures.
pub open spec fn tok_size(t: Token) -> nat
    decreases t,
{
    match t {
        Token::Section(_, _, children, _, _, _) => 2 + toks_size(children@),
        Token::TopSection(children) => 2 + toks_size(children@),
        _ => 1,
    }
}

/// Structural size of a token list, for termination measures.
pub open spec fn toks_size(ts: Seq<Token>) -> nat
    decreases ts,
{
    if ts.len() == 0 {
        1
    } else {
        toks_size(ts.drop_last()) + tok_size(ts.last())
    }
}

pub proof fn lemma_toks_size_pos(ts: Seq<Token>)
    ensures
        toks_size(ts) >= 1,
    decreases ts,
{
    if ts.len() == 0 {
    } else {
        lemma_toks_size_pos(ts.drop_last());
    }
}

pub proof fn lemma_tok_size_pos(t: Token)
    ensures
        tok_size(t) >= 1,
{
}

/// An element weighs less than its list.
pub proof fn lemma_tok_elem_size(ts: Seq<Token>, i: int)
    requires
        0 <= i < ts.len(),
    ensures
        tok_size(ts[i]) < toks_size(ts),
    decreases ts,
{
    if i == ts.len() - 1 {
        lemma_toks_size_pos(ts.drop_last());
    } else {
        lemma_tok_elem_size(ts.drop_last(), i);
        assert(ts.drop_last()[i] == ts[i]);
        lemma_tok_size_pos(ts.last());
    }
}

/// Whether an anchor token stands directly in the list (not in nested
/// sections); it switches a mapping section into entry iteration.
pub open spec fn seq_has_at(ts: Seq<Token>) -> bool {
    exists|i: int| 0 <= i < ts.len() && (#[trigger] ts[i]) is At
}

/// Whether an anchor token stands directly in the list.
pub fn tokens_have_at(ts: &Vec<Token>) -> (r: bool)
    ensures
        r == seq_has_at(ts@),
{
    let mut j: usize = 0;
    while j < ts.len()
        invariant
            j <= ts@.len(),
            forall|i: int| 0 <= i < j ==> !((#[trigger] ts@[i]) is At),
        decreases ts@.len() - j,
    {
        if matches!(&ts[j], Token::At) {
            assert(ts@[j as int] is At);
            return true;
        }
        j = j + 1;
    }
    false
}

/// Whether no incomplete-section sentinel occurs anywhere in the token.
pub open spec fn tok_complete(t: Token) -> bool
    decreases t,
{
    match t {
        Token::Incomplete => false,
        Token::Section(_, _, children, _, _, _) => forall|i: int|
            0 <= i < children@.len() ==> tok_complete(#[trigger] children@[i]),
        Token::TopSection(children) => forall|i: int|
            0 <= i < children@.len() ==> tok_complete(#[trigger] children@[i]),
        _ => true,
    }
}

/// Whether no incomplete-section sentinel occurs anywhere in the list.
pub open spec fn toks_complete(ts: Seq<Token>) -> bool {
    forall|i: int| 0 <= i < ts.len() ==> tok_complete(#[trigger] ts[i])
}

} // verus!
