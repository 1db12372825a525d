//! Token trees as plain values: what a procedural macro receives and returns.

use vstd::prelude::*;

verus! {

/// The delimiter of a group.
#[derive(Debug, PartialEq, Eq, Structural, Clone, Copy)]
pub enum Delim {
    Paren,
    Brace,
    Bracket,
    /// An invisible delimiter.
    NoDelim,
}

/// The span given to a token written at the place where the macro is
/// called: span number 0.
pub const CALL_SITE: usize = 0;

/// A token tree: an identifier, a punctuation character (and whether it is
/// joined to the next one), a literal (by its text), or a delimited group.
/// The last field of each is its span, a number that stands for a place in
/// the source (`CALL_SITE` for the place of the macro call).
#[derive(Debug)]
pub enum Token {
    Ident(String, usize),
    Punct(char, bool, usize),
    Literal(String, usize),
    Group(Delim, Vec<Token>, usize),
}

/// The value of a token tree.
pub enum TokenV {
    Ident(Seq<char>, usize),
    Punct(char, bool, usize),
    Literal(Seq<char>, usize),
    Group(Delim, Seq<TokenV>, usize),
}

/// The span of a token.
pub open spec fn span_of(t: TokenV) -> usize {
    match t {
        TokenV::Ident(_, sp) => sp,
        TokenV::Punct(_, _, sp) => sp,
        TokenV::Literal(_, sp) => sp,
        TokenV::Group(_, _, sp) => sp,
    }
}

/// The values of a sequence of token trees.
pub open spec fn views(s: Seq<Token>) -> Seq<TokenV>
    decreases s,
{
    if s.len() == 0 {
        Seq::empty()
    } else {
        views(s.drop_last()).push(view_of(s.last()))
    }
}

pub open spec fn view_of(t: Token) -> TokenV
    decreases t,
{
    match t {
        Token::Ident(s, sp) => TokenV::Ident(s@, sp),
        Token::Punct(c, j, sp) => TokenV::Punct(c, j, sp),
        Token::Literal(s, sp) => TokenV::Literal(s@, sp),
        Token::Group(d, v, sp) => TokenV::Group(d, views(v@), sp),
    }
}

impl View for Token {
    type V = TokenV;

    open spec fn view(&self) -> TokenV {
        view_of(*self)
    }
}

pub proof fn lemma_views_len(s: Seq<Token>)
    ensures
        views(s).len() == s.len(),
    decreases s.len(),
{
    if s.len() > 0 {
        lemma_views_len(s.drop_last());
    }
}

pub proof fn lemma_views_index(s: Seq<Token>, i: int)
    requires
        0 <= i < s.len(),
    ensures
        views(s).len() == s.len(),
        views(s)[i] == view_of(s[i]),
    decreases s.len(),
{
    lemma_views_len(s);
    if i < s.len() - 1 {
        lemma_views_index(s.drop_last(), i);
    }
}

pub proof fn lemma_views_push(s: Seq<Token>, t: Token)
    ensures
        views(s.push(t)) == views(s).push(view_of(t)),
{
    assert(s.push(t).drop_last() =~= s);
}

/// The span of a token.
pub fn token_span(t: &Token) -> (r: usize)
    ensures
        r == span_of(t@),
{
    match t {
        Token::Ident(_, sp) => *sp,
        Token::Punct(_, _, sp) => *sp,
        Token::Literal(_, sp) => *sp,
        Token::Group(_, _, sp) => *sp,
    }
}

/// A copy of a token tree.
pub fn copy_token(t: &Token) -> (r: Token)
    ensures
        r@ == t@,
    decreases t,
{
    match t {
        Token::Ident(s, sp) => Token::Ident(s.clone(), *sp),
        Token::Punct(c, j, sp) => Token::Punct(*c, *j, *sp),
        Token::Literal(s, sp) => Token::Literal(s.clone(), *sp),
        Token::Group(d, v, sp) => Token::Group(*d, copy_tokens(v), *sp),
    }
}

/// A copy of a sequence of token trees.
pub fn copy_tokens(v: &Vec<Token>) -> (r: Vec<Token>)
    ensures
        views(r@) == views(v@),
    decreases v,
{
    let mut r: Vec<Token> = Vec::new();
    let mut i: usize = 0;
    while i < v.len()
        invariant
            i <= v@.len(),
            views(r@) == views(v@.take(i as int)),
        decreases v@.len() - i,
    {
        proof {
            assert(decreases_to!(v => v@[i as int]));
        }
        let t = copy_token(&v[i]);
        proof {
            lemma_views_push(r@, t);
            assert(v@.take(i + 1).drop_last() =~= v@.take(i as int));
        }
        r.push(t);
        i = i + 1;
    }
    proof {
        assert(v@.take(i as int) =~= v@);
    }
    r
}

} // verus!
