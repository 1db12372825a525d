//! `seq!(N in lo..hi { body })`: the body repeated once for each `N` in the
//! range, with `N` replaced by the number and `prefix~N` pasted into one
//! identifier.

use vstd::prelude::*;
use crate::text::{ident_valid, name_eq, valid_ident};
use crate::tokens::{
    copy_token, lemma_views_index, lemma_views_len, lemma_views_push, span_of, token_span, view_of, views, Delim, Token,
    TokenV, CALL_SITE,
};

verus! {

/// Where the replacement stands after the tokens seen so far: nothing
/// special, right after the variable (or a token pasted from it), or right
/// after a `~` that follows the variable.
#[derive(Debug, PartialEq, Eq, Structural, Clone, Copy)]
pub enum PasteState {
    Nothing,
    Var,
    Tilde,
}

/// The digit `d` as a character.
pub open spec fn digit_char(d: nat) -> char {
    if d == 0 { '0' } else if d == 1 { '1' } else if d == 2 { '2' } else if d == 3 { '3' }
    else if d == 4 { '4' } else if d == 5 { '5' } else if d == 6 { '6' } else if d == 7 { '7' }
    else if d == 8 { '8' } else { '9' }
}

/// The decimal digits of `n`.
pub open spec fn digits(n: nat) -> Seq<char>
    decreases n,
{
    if n < 10 {
        seq![digit_char(n)]
    } else {
        digits(n / 10).push(digit_char(n % 10))
    }
}

/// `i` written in decimal, with a leading `-` when it is negative.
pub open spec fn decimal(i: int) -> Seq<char> {
    if i < 0 {
        seq!['-'] + digits((-i) as nat)
    } else {
        digits(i as nat)
    }
}

/// The text that a token prints as, when that text can make part of an
/// identifier: the token itself, or an invisible group of at most one token.
pub open spec fn text_opt(t: TokenV) -> Option<Seq<char>>
    decreases t,
{
    match t {
        TokenV::Ident(s, _) => Some(s),
        TokenV::Punct(c, _, _) => Some(seq![c]),
        TokenV::Literal(s, _) => Some(s),
        TokenV::Group(d, inner, _) => {
            if d != Delim::NoDelim {
                None
            } else if inner.len() == 0 {
                Some(Seq::empty())
            } else if inner.len() == 1 {
                text_opt(inner[0])
            } else {
                None
            }
        },
    }
}

/// The token is the punctuation `~`.
pub open spec fn is_tilde(t: TokenV) -> bool {
    match t {
        TokenV::Punct(c, _, _) => c == '~',
        _ => false,
    }
}

/// One token of the replacement. `None` where the replacement fails: a token
/// to paste onto is missing, a pasted token is a group whose text is no part
/// of an identifier, or the pasted text is no identifier.
pub open spec fn step(var: Seq<char>, idx: int, acc: Option<(Seq<TokenV>, PasteState)>, t: TokenV) -> Option<(Seq<TokenV>, PasteState)>
    decreases t, 0int,
{
    match acc {
        None => None,
        Some((out, st)) => {
            if st == PasteState::Tilde {
                if out.len() == 0 {
                    None
                } else {
                    match (text_opt(out.last()), text_opt(t)) {
                        (Some(a), Some(b)) => if ident_valid(a + b) {
                            Some((out.drop_last().push(TokenV::Ident(a + b, span_of(out.last()))), PasteState::Nothing))
                        } else {
                            None
                        },
                        _ => None,
                    }
                }
            } else {
                match t {
                    TokenV::Group(d, inner, sp) => match replace_spec(var, inner, idx) {
                        Some(r) => Some((out.push(TokenV::Group(d, r, sp)), st)),
                        None => None,
                    },
                    TokenV::Ident(s, _) => {
                        if s == var {
                            if out.len() > 0 && is_tilde(out.last()) {
                                let o1 = out.drop_last();
                                if o1.len() == 0 {
                                    None
                                } else {
                                    match text_opt(o1.last()) {
                                        Some(a) => if ident_valid(a + decimal(idx)) {
                                            Some((o1.drop_last().push(TokenV::Ident(a + decimal(idx), span_of(o1.last()))), PasteState::Var))
                                        } else {
                                            None
                                        },
                                        None => None,
                                    }
                                }
                            } else {
                                Some((out.push(TokenV::Literal(decimal(idx), CALL_SITE)), PasteState::Var))
                            }
                        } else {
                            Some((out.push(t), st))
                        }
                    },
                    TokenV::Punct(c, _, _) => {
                        if c == '~' && st == PasteState::Var {
                            Some((out, PasteState::Tilde))
                        } else {
                            Some((out.push(t), st))
                        }
                    },
                    TokenV::Literal(_, _) => Some((out.push(t), st)),
                }
            }
        },
    }
}

/// The replacement after the first `k` tokens of `ts`.
pub open spec fn run(var: Seq<char>, ts: Seq<TokenV>, idx: int, k: int) -> Option<(Seq<TokenV>, PasteState)>
    decreases ts, k,
{
    if k <= 0 || k > ts.len() {
        if k <= 0 {
            Some((Seq::empty(), PasteState::Nothing))
        } else {
            None
        }
    } else {
        step(var, idx, run(var, ts, idx, k - 1), ts[k - 1])
    }
}

/// The tokens `ts` with the variable `var` replaced by `idx`.
pub open spec fn replace_spec(var: Seq<char>, ts: Seq<TokenV>, idx: int) -> Option<Seq<TokenV>>
    decreases ts, ts.len() + 1,
{
    match run(var, ts, idx, ts.len() as int) {
        Some((out, _)) => Some(out),
        None => None,
    }
}


proof fn lemma_views_pop(s: Seq<Token>)
    requires
        s.len() > 0,
    ensures
        views(s).drop_last() == views(s.drop_last()),
        views(s).last() == view_of(s.last()),
        views(s).len() == s.len(),
{
    lemma_views_len(s);
    assert(views(s) == views(s.drop_last()).push(view_of(s.last())));
    assert(views(s).drop_last() =~= views(s.drop_last()));
}

/// The text of a token as `text_opt` gives it.
pub fn token_text(t: &Token) -> (r: Option<String>)
    ensures
        match r {
            Some(s) => text_opt(t@) == Some(s@),
            None => text_opt(t@) is None,
        },
    decreases t,
{
    match t {
        Token::Ident(s, _) => Some(s.clone()),
        Token::Literal(s, _) => Some(s.clone()),
        Token::Punct(c, _, _) => {
            let mut s = String::new();
            push_char(&mut s, *c);
            proof {
                assert(s@ =~= seq![*c]);
            }
            Some(s)
        },
        Token::Group(d, inner, _) => {
            if *d != Delim::NoDelim {
                None
            } else if inner.len() == 0 {
                let s = String::new();
                proof {
                    assert(s@ =~= Seq::<char>::empty());
                }
                Some(s)
            } else if inner.len() == 1 {
                proof {
                    lemma_views_index(inner@, 0);
                    assert(decreases_to!(t => inner));
                    assert(decreases_to!(inner => inner@[0]));
                }
                token_text(&inner[0])
            } else {
                proof {
                    lemma_views_len(inner@);
                }
                None
            }
        },
    }
}

/// `String::push`: appends the character `c`.
#[verifier::external_body]
pub(crate) fn push_char(s: &mut String, c: char)
    ensures
        final(s)@ == old(s)@.push(c),
{
    s.push(c);
}

/// Once the replacement fails, it stays failed.
proof fn lemma_run_none(var: Seq<char>, ts: Seq<TokenV>, idx: int, j: int, k: int)
    requires
        0 <= j <= k <= ts.len(),
        run(var, ts, idx, j) is None,
    ensures
        run(var, ts, idx, k) is None,
    decreases k - j,
{
    if k > j {
        lemma_run_none(var, ts, idx, j, k - 1);
        assert(run(var, ts, idx, k) == step(var, idx, run(var, ts, idx, k - 1), ts[k - 1]));
        assert(step(var, idx, None, ts[k - 1]) is None);
    }
}

/// Whether the token is the punctuation `~`.
fn token_is_tilde(t: &Token) -> (r: bool)
    ensures
        r == is_tilde(t@),
{
    match t {
        Token::Punct(c, _, _) => *c == '~',
        _ => false,
    }
}

/// Replaces the variable `var` in `tokens` by the number `index@`, whose
/// decimal text is `idx_text`; `None` where `replace_spec` fails.
fn try_replace(var: &str, tokens: &Vec<Token>, index: Ghost<int>, idx_text: &String) -> (r: Option<Vec<Token>>)
    requires
        idx_text@ == decimal(index@),
    ensures
        match r {
            Some(v) => replace_spec(var@, views(tokens@), index@) == Some(views(v@)),
            None => replace_spec(var@, views(tokens@), index@) is None,
        },
    decreases tokens,
{
    let ghost ts = views(tokens@);
    let mut out: Vec<Token> = Vec::new();
    let mut state = PasteState::Nothing;
    let mut i: usize = 0;
    proof {
        lemma_views_len(tokens@);
        assert(views(out@) =~= Seq::<TokenV>::empty());
    }
    while i < tokens.len()
        invariant
            i <= tokens@.len(),
            ts == views(tokens@),
            ts.len() == tokens@.len(),
            idx_text@ == decimal(index@),
            run(var@, ts, index@, i as int) == Some((views(out@), state)),
        decreases tokens@.len() - i,
    {
        let t = &tokens[i];
        let ghost out0 = out@;
        proof {
            if run(var@, ts, index@, i + 1) is None {
                lemma_run_none(var@, ts, index@, i + 1, ts.len() as int);
            }
        }
        let ghost vt = view_of(*t);
        proof {
            lemma_views_index(tokens@, i as int);
            assert(ts[i as int] == vt);
            assert(run(var@, ts, index@, i + 1) == step(var@, index@, Some((views(out0), state)), vt));
            lemma_views_len(out0);
        }
        if state == PasteState::Tilde {
            match out.pop() {
                None => {
                    return None;
                },
                Some(p) => {
                    proof {
                        lemma_views_pop(out0);
                    }
                    match (token_text(&p), token_text(t)) {
                        (Some(a), Some(b)) => {
                            let name = a.concat(b.as_str());
                            if !valid_ident(name.as_str()) {
                                return None;
                            }
                            let n = Token::Ident(name, token_span(&p));
                            proof {
                                lemma_views_push(out@, n);
                            }
                            out.push(n);
                            state = PasteState::Nothing;
                        },
                        _ => {
                            return None;
                        },
                    }
                },
            }
        } else {
            match t {
                Token::Group(d, inner, sp) => {
                    proof {
                        assert(decreases_to!(tokens => tokens@[i as int]));
                        assert(decreases_to!(tokens@[i as int] => inner));
                    }
                    match try_replace(var, inner, index, idx_text) {
                        Some(r) => {
                            let n = Token::Group(*d, r, *sp);
                            proof {
                                lemma_views_push(out@, n);
                            }
                            out.push(n);
                        },
                        None => {
                            return None;
                        },
                    }
                },
                Token::Ident(s, sp) => {
                    if crate::text::name_eq(s.as_str(), var) {
                        let tilde_last = out.len() > 0 && token_is_tilde(&out[out.len() - 1]);
                        proof {
                            if out0.len() > 0 {
                                lemma_views_pop(out0);
                            }
                        }
                        if tilde_last {
                            let _ = out.pop();
                            let ghost out1 = out@;
                            match out.pop() {
                                None => {
                                    return None;
                                },
                                Some(p) => {
                                    proof {
                                        lemma_views_pop(out1);
                                    }
                                    match token_text(&p) {
                                        Some(a) => {
                                            let name = a.concat(idx_text.as_str());
                                            if !valid_ident(name.as_str()) {
                                                return None;
                                            }
                                            let n = Token::Ident(name, token_span(&p));
                                            proof {
                                                lemma_views_push(out@, n);
                                            }
                                            out.push(n);
                                        },
                                        None => {
                                            return None;
                                        },
                                    }
                                },
                            }
                        } else {
                            let n = Token::Literal(idx_text.clone(), CALL_SITE);
                            proof {
                                lemma_views_push(out@, n);
                            }
                            out.push(n);
                        }
                        state = PasteState::Var;
                    } else {
                        let n = Token::Ident(s.clone(), *sp);
                        proof {
                            lemma_views_push(out@, n);
                        }
                        out.push(n);
                    }
                },
                Token::Punct(c, j, sp) => {
                    if *c == '~' && state == PasteState::Var {
                        state = PasteState::Tilde;
                    } else {
                        let n = Token::Punct(*c, *j, *sp);
                        proof {
                            lemma_views_push(out@, n);
                        }
                        out.push(n);
                    }
                },
                Token::Literal(s, sp) => {
                    let n = Token::Literal(s.clone(), *sp);
                    proof {
                        lemma_views_push(out@, n);
                    }
                    out.push(n);
                },
            }
        }
        i = i + 1;
    }
    Some(out)
}


fn digit_to_char(d: u128) -> (c: char)
    requires
        d < 10,
    ensures
        c == digit_char(d as nat),
{
    if d == 0 { '0' } else if d == 1 { '1' } else if d == 2 { '2' } else if d == 3 { '3' }
    else if d == 4 { '4' } else if d == 5 { '5' } else if d == 6 { '6' } else if d == 7 { '7' }
    else if d == 8 { '8' } else { '9' }
}

/// The decimal digits of `n`.
fn digits_string(n: u128) -> (s: String)
    ensures
        s@ == digits(n as nat),
    decreases n,
{
    if n < 10 {
        let mut s = String::new();
        push_char(&mut s, digit_to_char(n));
        proof {
            assert(s@ =~= seq![digit_char(n as nat)]);
        }
        s
    } else {
        let mut s = digits_string(n / 10);
        push_char(&mut s, digit_to_char(n % 10));
        s
    }
}

/// `i` in decimal, as `Display` writes an `i128`.
pub fn decimal_string(i: i128) -> (s: String)
    ensures
        s@ == decimal(i as int),
{
    if i < 0 {
        let m: u128 = if i == i128::MIN {
            0x8000_0000_0000_0000_0000_0000_0000_0000u128
        } else {
            (-i) as u128
        };
        let mut s = String::new();
        push_char(&mut s, '-');
        let d = digits_string(m);
        s.append(d.as_str());
        proof {
            assert(s@ =~= seq!['-'] + digits((-i) as nat));
        }
        s
    } else {
        digits_string(i as u128)
    }
}


/// Two tokens behave alike for the replacement: both or neither are `~`, and
/// both or neither have a text.
pub open spec fn alike(a: TokenV, b: TokenV) -> bool {
    &&& is_tilde(a) == is_tilde(b)
    &&& text_opt(a) is Some == text_opt(b) is Some
}

pub open spec fn all_alike(a: Seq<TokenV>, b: Seq<TokenV>) -> bool {
    &&& a.len() == b.len()
    &&& forall|p: int| 0 <= p < a.len() ==> #[trigger] alike(a[p], b[p])
}

proof fn lemma_all_alike_push(a: Seq<TokenV>, b: Seq<TokenV>, x: TokenV, y: TokenV)
    requires
        all_alike(a, b),
        alike(x, y),
    ensures
        all_alike(a.push(x), b.push(y)),
{
    assert forall|p: int| 0 <= p < a.len() + 1 implies #[trigger] alike(a.push(x)[p], b.push(y)[p]) by {
        if p < a.len() {
            assert(a.push(x)[p] == a[p]);
            assert(b.push(y)[p] == b[p]);
        }
    }
}

proof fn lemma_all_alike_drop(a: Seq<TokenV>, b: Seq<TokenV>)
    requires
        all_alike(a, b),
        a.len() > 0,
    ensures
        all_alike(a.drop_last(), b.drop_last()),
        alike(a.last(), b.last()),
{
    assert forall|p: int| 0 <= p < a.len() - 1 implies #[trigger] alike(a.drop_last()[p], b.drop_last()[p]) by {
        assert(alike(a[p], b[p]));
    }
    assert(alike(a[a.len() - 1], b[b.len() - 1]));
}

/// Where the replacement succeeds for two numbers, it ends in the same state
/// and the tokens it yields behave alike.
pub proof fn lemma_run_alike(var: Seq<char>, ts: Seq<TokenV>, i: int, j: int, k: int)
    requires
        0 <= k <= ts.len(),
    ensures
        run(var, ts, i, k) is Some && run(var, ts, j, k) is Some ==> run(var, ts, i, k).unwrap().1 == run(var, ts, j, k).unwrap().1
            && all_alike(run(var, ts, i, k).unwrap().0, run(var, ts, j, k).unwrap().0),
    decreases ts, k,
{
    if k == 0 {
        assert(all_alike(Seq::<TokenV>::empty(), Seq::<TokenV>::empty()));
    } else {
        lemma_run_alike(var, ts, i, j, k - 1);
        let t = ts[k - 1];
        let ri = run(var, ts, i, k - 1);
        let rj = run(var, ts, j, k - 1);
        assert(run(var, ts, i, k) == step(var, i, ri, t));
        assert(run(var, ts, j, k) == step(var, j, rj, t));
        if run(var, ts, i, k) is Some && run(var, ts, j, k) is Some {
            let (oi, st) = ri.unwrap();
            let (oj, _) = rj.unwrap();
            if st == PasteState::Tilde {
                if oi.len() > 0 {
                    lemma_all_alike_drop(oi, oj);
                    if text_opt(oi.last()) is Some && text_opt(t) is Some {
                        let a = text_opt(oi.last()).unwrap();
                        let b = text_opt(t).unwrap();
                        let a2 = text_opt(oj.last()).unwrap();
                        lemma_all_alike_push(oi.drop_last(), oj.drop_last(), TokenV::Ident(a + b, span_of(oi.last())), TokenV::Ident(a2 + b, span_of(oj.last())));
                    }
                }
            } else {
                match t {
                    TokenV::Group(d, inner, sp) => {
                        assert(decreases_to!(ts => ts[k - 1]));
                        lemma_replace_alike(var, inner, i, j);
                        if replace_spec(var, inner, i) is Some {
                            let gi = TokenV::Group(d, replace_spec(var, inner, i).unwrap(), sp);
                            let gj = TokenV::Group(d, replace_spec(var, inner, j).unwrap(), sp);
                            let si = replace_spec(var, inner, i).unwrap();
                            let sj = replace_spec(var, inner, j).unwrap();
                            if si.len() == 1 {
                                assert(alike(si[0], sj[0]));
                            }
                            assert(alike(gi, gj));
                            lemma_all_alike_push(oi, oj, gi, gj);
                        }
                    },
                    TokenV::Ident(s, _) => {
                        if s == var {
                            if oi.len() > 0 {
                                lemma_all_alike_drop(oi, oj);
                            }
                            if oi.len() > 0 && is_tilde(oi.last()) {
                                let o1 = oi.drop_last();
                                let o2 = oj.drop_last();
                                if o1.len() > 0 {
                                    lemma_all_alike_drop(o1, o2);
                                    if text_opt(o1.last()) is Some {
                                        let a = text_opt(o1.last()).unwrap();
                                        let a2 = text_opt(o2.last()).unwrap();
                                        lemma_all_alike_push(o1.drop_last(), o2.drop_last(), TokenV::Ident(a + decimal(i), span_of(o1.last())), TokenV::Ident(a2 + decimal(j), span_of(o2.last())));
                                    }
                                }
                            } else {
                                lemma_all_alike_push(oi, oj, TokenV::Literal(decimal(i), CALL_SITE), TokenV::Literal(decimal(j), CALL_SITE));
                            }
                        } else {
                            lemma_all_alike_push(oi, oj, t, t);
                        }
                    },
                    TokenV::Punct(c, _, _) => {
                        if !(c == '~' && st == PasteState::Var) {
                            lemma_all_alike_push(oi, oj, t, t);
                        }
                    },
                    TokenV::Literal(_, _) => {
                        lemma_all_alike_push(oi, oj, t, t);
                    },
                }
            }
        }
    }
}

/// Where the replacement succeeds for two numbers, it yields as many tokens
/// for both, and tokens at the same place behave alike.
pub proof fn lemma_replace_alike(var: Seq<char>, ts: Seq<TokenV>, i: int, j: int)
    ensures
        replace_spec(var, ts, i) is Some && replace_spec(var, ts, j) is Some ==> all_alike(
            replace_spec(var, ts, i).unwrap(),
            replace_spec(var, ts, j).unwrap(),
        ),
    decreases ts, ts.len() + 1,
{
    lemma_run_alike(var, ts, i, j, ts.len() as int);
}


/// Whether `syn` takes an identifier token written `text` as an identifier
/// (it refuses `_` and the keywords).
pub uninterp spec fn ident_accepted(text: Seq<char>) -> bool;

/// `syn::parse_str::<syn::Ident>` on `text`: whether it succeeds is the named
/// `ident_accepted` of the text; nothing more is claimed of it.
#[verifier::external_body]
fn accepts_as_ident(text: &str) -> (r: bool)
    ensures
        r == ident_accepted(text@),
{
    syn::parse_str::<syn::Ident>(text).is_ok()
}

/// The base-10 digits that `syn` gives an integer literal written as
/// `text` (`LitInt::base10_digits`, with a leading `-` for a negative
/// literal), or `None` where the text is no integer literal.
pub uninterp spec fn lit_int_digits(text: Seq<char>) -> Option<Seq<char>>;

/// A character from `0` to `9`.
pub open spec fn is_digit(c: char) -> bool {
    '0' <= c && c <= '9'
}

/// The text without its leading `-`, if it has one.
pub open spec fn unsigned_part(d: Seq<char>) -> Seq<char> {
    if d.len() > 0 && d[0] == '-' { d.drop_first() } else { d }
}

/// One or more decimal digits, perhaps after a `-`.
pub open spec fn signed_digits(d: Seq<char>) -> bool {
    let m = unsigned_part(d);
    &&& m.len() > 0
    &&& forall|i: int| 0 <= i < m.len() ==> #[trigger] is_digit(m[i])
}

/// The number that the decimal digits `m` write.
pub open spec fn digits_value(m: Seq<char>) -> nat
    decreases m.len(),
{
    if m.len() == 0 {
        0
    } else {
        10 * digits_value(m.drop_last()) + ((m.last() as int - '0' as int) as nat)
    }
}

/// What `str::parse::<i128>` gives the digits: their value, negated after a
/// `-`, or `None` where it does not fit an `i128`.
pub open spec fn i128_of(d: Seq<char>) -> Option<i128> {
    let v = digits_value(unsigned_part(d)) as int;
    if d.len() > 0 && d[0] == '-' {
        if v <= 0x8000_0000_0000_0000_0000_0000_0000_0000 { Some((-v) as i128) } else { None }
    } else {
        if v < 0x8000_0000_0000_0000_0000_0000_0000_0000 { Some(v as i128) } else { None }
    }
}

/// The value that `syn` gives an integer literal written as `text`
/// (`LitInt::base10_parse::<i128>`): `None` where the text is no integer
/// literal, `Some(None)` where its value does not fit an `i128`.
pub open spec fn lit_int_value(text: Seq<char>) -> Option<Option<i128>> {
    match lit_int_digits(text) {
        None => None,
        Some(d) => Some(i128_of(d)),
    }
}

/// `syn::parse_str::<syn::LitInt>` on `text`, then `LitInt::base10_digits`:
/// the result is the named `lit_int_digits` of the text; the digits are one
/// or more decimal digits, after a `-` for a negative literal.
#[verifier::external_body]
fn lit_digits(text: &str) -> (r: Option<String>)
    ensures
        match r {
            Some(d) => lit_int_digits(text@) == Some(d@) && signed_digits(d@),
            None => lit_int_digits(text@) is None,
        },
{
    match syn::parse_str::<syn::LitInt>(text) {
        Ok(lit) => Some(lit.base10_digits().to_string()),
        Err(_) => None,
    }
}

proof fn lemma_digits_value_grows(m: Seq<char>, j: int, k: int)
    requires
        0 <= j <= k <= m.len(),
    ensures
        digits_value(m.take(j)) <= digits_value(m.take(k)),
    decreases k - j,
{
    if j < k {
        lemma_digits_value_grows(m, j, k - 1);
        assert(m.take(k).drop_last() =~= m.take(k - 1));
    }
}

/// The digits as an `i128`, as `str::parse::<i128>` reads them.
fn parse_i128(d: &str) -> (r: Option<i128>)
    requires
        signed_digits(d@),
    ensures
        r == i128_of(d@),
{
    let n = d.unicode_len();
    let neg = d.get_char(0) == '-';
    let start: usize = if neg { 1 } else { 0 };
    let ghost m = unsigned_part(d@);
    proof {
        assert(m =~= d@.subrange(start as int, n as int));
    }
    let limit: u128 = 0x8000_0000_0000_0000_0000_0000_0000_0000u128;
    let mut v: u128 = 0;
    let mut i: usize = start;
    proof {
        assert(m.take(0) =~= Seq::<char>::empty());
    }
    while i < n
        invariant
            start <= i <= n,
            n == d@.len(),
            m == d@.subrange(start as int, n as int),
            signed_digits(d@),
            m == unsigned_part(d@),
            v as nat == digits_value(m.take(i - start)),
            v <= limit,
            limit == 0x8000_0000_0000_0000_0000_0000_0000_0000u128,
        decreases n - i,
    {
        let c = d.get_char(i);
        proof {
            assert(c == m[i - start]);
            assert(is_digit(m[i - start]));
            assert(m.take(i - start + 1).drop_last() =~= m.take(i - start));
        }
        let digit = (c as u32 - '0' as u32) as u128;
        proof {
            assert(digit as int == m[i - start] as int - '0' as int);
            assert(digit <= 9);
            assert(digits_value(m.take(i - start + 1)) == 10 * v + digit);
        }
        if v > limit / 10 {
            proof {
                assert(10 * v > limit) by (nonlinear_arith)
                    requires
                        v > limit / 10,
                        limit == 0x8000_0000_0000_0000_0000_0000_0000_0000u128,
                ;
                lemma_digits_value_grows(m, i - start + 1, m.len() as int);
                assert(m.take(m.len() as int) =~= m);
            }
            return None;
        }
        proof {
            assert(10 * v <= limit) by (nonlinear_arith)
                requires
                    v <= limit / 10,
                    limit == 0x8000_0000_0000_0000_0000_0000_0000_0000u128,
            ;
        }
        v = v * 10 + digit;
        if v > limit {
            proof {
                lemma_digits_value_grows(m, i - start + 1, m.len() as int);
                assert(m.take(m.len() as int) =~= m);
            }
            return None;
        }
        i = i + 1;
    }
    proof {
        assert(m.take(n - start) =~= m);
    }
    if neg {
        if v == limit {
            Some(i128::MIN)
        } else {
            Some(-(v as i128))
        }
    } else if v == limit {
        None
    } else {
        Some(v as i128)
    }
}

/// `syn`'s reading of an integer literal written as `text`, and of its value
/// as an `i128`.
fn parse_lit_int(text: &str) -> (r: Option<Option<i128>>)
    ensures
        r == lit_int_value(text@),
{
    match lit_digits(text) {
        None => None,
        Some(d) => Some(parse_i128(d.as_str())),
    }
}


/// The replacement succeeds on `ts` for every number from `lo` up to (not
/// including) `hi`.
pub open spec fn pastes_in_range(var: Seq<char>, ts: Seq<TokenV>, lo: int, hi: int) -> bool {
    forall|i: int| lo <= i < hi ==> #[trigger] replace_spec(var, ts, i) is Some
}

/// Replaces the variable `var` in `tokens` by `index`, and pastes `prefix~N`
/// (and `prefix~N~suffix`) into one identifier.
pub fn replace_tokens(var: &str, tokens: &Vec<Token>, index: i128) -> (r: Vec<Token>)
    requires
        replace_spec(var@, views(tokens@), index as int) is Some,
    ensures
        replace_spec(var@, views(tokens@), index as int) == Some(views(r@)),
{
    let text = decimal_string(index);
    match try_replace(var, tokens, Ghost(index as int), &text) {
        Some(v) => v,
        None => {
            proof {
                assert(false);
            }
            Vec::new()
        },
    }
}

/// Whether the replacement of the variable by `index` succeeds on `tokens`:
/// every paste gives an identifier.
pub fn check_pastes(var: &str, tokens: &Vec<Token>, index: i128) -> (r: bool)
    ensures
        r == replace_spec(var@, views(tokens@), index as int) is Some,
{
    let text = decimal_string(index);
    try_replace(var, tokens, Ghost(index as int), &text).is_some()
}

/// An entry of the input read as `syn` reads it: invisible groups are opened
/// in place, and the place where one opens is marked.
pub enum EntryV {
    Open,
    Tok(TokenV),
}

pub open spec fn flat(ts: Seq<TokenV>) -> Seq<EntryV>
    decreases ts,
{
    if ts.len() == 0 {
        Seq::empty()
    } else {
        flat(ts.drop_last()) + flat_one(ts.last())
    }
}

pub open spec fn flat_one(t: TokenV) -> Seq<EntryV>
    decreases t,
{
    match t {
        TokenV::Group(d, inner, _) => {
            if d == Delim::NoDelim {
                seq![EntryV::Open] + flat(inner)
            } else {
                seq![EntryV::Tok(t)]
            }
        },
        _ => seq![EntryV::Tok(t)],
    }
}

/// The first token at or after `p`, stepping into invisible groups.
pub open spec fn next_tok(e: Seq<EntryV>, p: int) -> int
    decreases e.len() - p,
{
    if p < 0 || p >= e.len() {
        if p < 0 { 0 } else { e.len() as int }
    } else if e[p] is Open {
        next_tok(e, p + 1)
    } else {
        p
    }
}

pub open spec fn tok_at(e: Seq<EntryV>, q: int) -> Option<TokenV> {
    if 0 <= q < e.len() {
        match e[q] {
            EntryV::Tok(t) => Some(t),
            EntryV::Open => None,
        }
    } else {
        None
    }
}

/// An identifier that `syn` takes as one (no keyword), and the place after it.
pub open spec fn var_at(e: Seq<EntryV>, p: int) -> Option<(Seq<char>, int)> {
    let q = next_tok(e, p);
    match tok_at(e, q) {
        Some(TokenV::Ident(v, _)) => if ident_accepted(v) { Some((v, q + 1)) } else { None },
        _ => None,
    }
}

/// The keyword `in`, and the place after it.
pub open spec fn in_at(e: Seq<EntryV>, p: int) -> Option<int> {
    let q = next_tok(e, p);
    match tok_at(e, q) {
        Some(TokenV::Ident(v, _)) => if v == "in"@ { Some(q + 1) } else { None },
        _ => None,
    }
}

/// An integer literal, perhaps after a `-`: its text and the place after it.
pub open spec fn int_lit_at(e: Seq<EntryV>, p: int) -> Option<(Seq<char>, int)> {
    let q = next_tok(e, p);
    match tok_at(e, q) {
        Some(TokenV::Literal(t, _)) => if lit_int_digits(t) is Some { Some((t, q + 1)) } else { None },
        Some(TokenV::Punct(c, _, _)) => {
            if c == '-' {
                let q2 = next_tok(e, q + 1);
                match tok_at(e, q2) {
                    Some(TokenV::Literal(t, _)) => if lit_int_digits(seq!['-'] + t) is Some {
                        Some((seq!['-'] + t, q2 + 1))
                    } else {
                        None
                    },
                    _ => None,
                }
            } else {
                None
            }
        },
        _ => None,
    }
}

/// `..` (a `.` joined to a second `.`) or `..=` (the second `.` joined to an
/// `=`): whether the range includes its upper bound, and the place after the
/// dots and the `=`.
pub open spec fn dotdot_at(e: Seq<EntryV>, p: int) -> Option<(bool, int)> {
    let q = next_tok(e, p);
    match tok_at(e, q) {
        Some(TokenV::Punct(c, joint, _)) => {
            if c == '.' && joint {
                let q2 = next_tok(e, q + 1);
                match tok_at(e, q2) {
                    Some(TokenV::Punct(c2, joint2, _)) => if c2 == '.' {
                        let q3 = next_tok(e, q2 + 1);
                        if joint2 && (tok_at(e, q3) matches Some(TokenV::Punct(c3, _, _)) && c3 == '=') {
                            Some((true, q3 + 1))
                        } else {
                            Some((false, q2 + 1))
                        }
                    } else {
                        None
                    },
                    _ => None,
                }
            } else {
                None
            }
        },
        _ => None,
    }
}

/// A delimited group right at `p`: its tokens and the place after it.
pub open spec fn group_at(e: Seq<EntryV>, p: int) -> Option<(Seq<TokenV>, int)> {
    match tok_at(e, p) {
        Some(TokenV::Group(d, inner, _)) => if d != Delim::NoDelim { Some((inner, p + 1)) } else { None },
        _ => None,
    }
}

/// Some token is left at or after `p`.
pub open spec fn tok_left(e: Seq<EntryV>, p: int) -> bool {
    next_tok(e, p) < e.len()
}

/// Why the input of `seq!` is refused.
#[derive(Debug, PartialEq, Eq, Structural, Clone, Copy)]
pub enum SeqError {
    /// "expected identifier"
    ExpectedIdent,
    /// "expected `in`"
    ExpectedIn,
    /// "expected integer literal"
    ExpectedIntLiteral,
    /// "expected `..`"
    ExpectedDotDot,
    /// "expected group token"
    ExpectedGroup,
    /// "unexpected token"
    UnexpectedToken,
    /// The literal's value does not fit an `i128`.
    OutOfRange,
    /// Pasting gives no identifier, or has nothing to paste onto.
    InvalidPaste,
}

/// The parts of the input of `seq!`, as values.
pub struct SeqInputV {
    pub var: Seq<char>,
    pub lower: Seq<char>,
    pub upper: Seq<char>,
    pub inclusive: bool,
    pub body: Seq<TokenV>,
}

/// How `syn` reads `N in lo..hi { body }` and `N in lo..=hi { body }`.
pub open spec fn parse_spec(ts: Seq<TokenV>) -> Result<SeqInputV, SeqError> {
    let e = flat(ts);
    match var_at(e, 0) {
        None => Err(SeqError::ExpectedIdent),
        Some((var, p1)) => match in_at(e, p1) {
            None => Err(SeqError::ExpectedIn),
            Some(p2) => match int_lit_at(e, p2) {
                None => Err(SeqError::ExpectedIntLiteral),
                Some((lower, p3)) => match dotdot_at(e, p3) {
                    None => Err(SeqError::ExpectedDotDot),
                    Some((inclusive, p4)) => match int_lit_at(e, p4) {
                        None => Err(SeqError::ExpectedIntLiteral),
                        Some((upper, p5)) => match group_at(e, p5) {
                            None => Err(SeqError::ExpectedGroup),
                            Some((body, p6)) => if tok_left(e, p6) {
                                Err(SeqError::UnexpectedToken)
                            } else {
                                Ok(SeqInputV { var, lower, upper, inclusive, body })
                            },
                        },
                    },
                },
            },
        },
    }
}

/// The body repeated for each number from `lo` up to (not including) `hi`.
pub open spec fn expand(var: Seq<char>, body: Seq<TokenV>, lo: int, hi: int) -> Seq<TokenV>
    decreases hi - lo,
{
    if hi <= lo {
        Seq::empty()
    } else {
        expand(var, body, lo, hi - 1) + replace_spec(var, body, hi - 1).unwrap()
    }
}


/// An entry of the flattened input.
pub enum Entry {
    Open,
    Tok(Token),
}

pub open spec fn ev_one(x: Entry) -> EntryV {
    match x {
        Entry::Open => EntryV::Open,
        Entry::Tok(t) => EntryV::Tok(t@),
    }
}

pub open spec fn ev(s: Seq<Entry>) -> Seq<EntryV> {
    s.map_values(|x: Entry| ev_one(x))
}

proof fn lemma_ev_push(s: Seq<Entry>, x: Entry)
    ensures
        ev(s.push(x)) == ev(s).push(ev_one(x)),
{
    assert(ev(s.push(x)) =~= ev(s).push(ev_one(x)));
}

/// Appends the entries of `ts` to `out`.
fn flatten_into(ts: &Vec<Token>, out: &mut Vec<Entry>)
    ensures
        ev(final(out)@) == ev(old(out)@) + flat(views(ts@)),
    decreases ts,
{
    let ghost start = ev(out@);
    let mut i: usize = 0;
    proof {
        assert(views(ts@.take(0)) =~= Seq::<TokenV>::empty());
        assert(start + flat(Seq::<TokenV>::empty()) =~= start);
    }
    while i < ts.len()
        invariant
            i <= ts@.len(),
            ev(out@) == start + flat(views(ts@.take(i as int))),
        decreases ts@.len() - i,
    {
        let t = &ts[i];
        let ghost pre = ev(out@);
        proof {
            let tk = ts@.take(i + 1);
            assert(tk.drop_last() =~= ts@.take(i as int));
            assert(tk.last() == ts@[i as int]);
            lemma_views_len(tk);
            assert(views(tk) == views(tk.drop_last()).push(view_of(tk.last())));
            assert(views(tk).drop_last() =~= views(ts@.take(i as int)));
            assert(flat(views(tk)) == flat(views(ts@.take(i as int))) + flat_one(view_of(*t)));
        }
        match t {
            Token::Group(d, inner, _) => {
                if *d == Delim::NoDelim {
                    proof {
                        lemma_ev_push(out@, Entry::Open);
                        assert(decreases_to!(ts => ts@[i as int]));
                    }
                    out.push(Entry::Open);
                    flatten_into(inner, out);
                    proof {
                        assert(ev(out@) =~= start + flat(views(ts@.take(i + 1))));
                    }
                } else {
                    let c = copy_token(t);
                    proof {
                        lemma_ev_push(out@, Entry::Tok(c));
                    }
                    out.push(Entry::Tok(c));
                    proof {
                        assert(ev(out@) =~= start + flat(views(ts@.take(i + 1))));
                    }
                }
            },
            _ => {
                let c = copy_token(t);
                proof {
                    lemma_ev_push(out@, Entry::Tok(c));
                }
                out.push(Entry::Tok(c));
                proof {
                    assert(ev(out@) =~= start + flat(views(ts@.take(i + 1))));
                }
            },
        }
        i = i + 1;
    }
    proof {
        assert(ts@.take(i as int) =~= ts@);
    }
}


fn next_tok_exec(e: &Vec<Entry>, p: usize) -> (r: usize)
    requires
        p <= e@.len(),
    ensures
        r == next_tok(ev(e@), p as int),
        p <= r <= e@.len(),
{
    let ghost ee = ev(e@);
    let mut q = p;
    while q < e.len() && matches!(e[q], Entry::Open)
        invariant
            p <= q <= e@.len(),
            ee == ev(e@),
            ee.len() == e@.len(),
            next_tok(ee, p as int) == next_tok(ee, q as int),
        decreases e@.len() - q,
    {
        q = q + 1;
    }
    q
}

fn minus_text(t: &String) -> (r: String)
    ensures
        r@ == seq!['-'] + t@,
{
    let mut r = String::new();
    push_char(&mut r, '-');
    r.append(t.as_str());
    proof {
        assert(r@ =~= seq!['-'] + t@);
    }
    r
}

fn int_lit_exec(e: &Vec<Entry>, p: usize) -> (r: Option<(String, usize)>)
    requires
        p <= e@.len(),
    ensures
        match r {
            Some((t, q)) => int_lit_at(ev(e@), p as int) == Some((t@, q as int)) && q <= e@.len(),
            None => int_lit_at(ev(e@), p as int) is None,
        },
{
    let q = next_tok_exec(e, p);
    if q >= e.len() {
        return None;
    }
    match &e[q] {
        Entry::Tok(Token::Literal(t, _)) => {
            if lit_digits(t.as_str()).is_some() {
                Some((t.clone(), q + 1))
            } else {
                None
            }
        },
        Entry::Tok(Token::Punct(c, _, _)) => {
            if *c == '-' {
                let q2 = next_tok_exec(e, q + 1);
                if q2 >= e.len() {
                    return None;
                }
                match &e[q2] {
                    Entry::Tok(Token::Literal(t, _)) => {
                        let m = minus_text(t);
                        if lit_digits(m.as_str()).is_some() {
                            Some((m, q2 + 1))
                        } else {
                            None
                        }
                    },
                    _ => None,
                }
            } else {
                None
            }
        },
        _ => None,
    }
}

/// The parts of the input of `seq!`.
pub struct SeqInput {
    pub var: String,
    pub lower: String,
    pub upper: String,
    /// The range is written `lo..=hi`: it includes `hi`.
    pub inclusive: bool,
    pub body: Vec<Token>,
}

impl SeqInput {
    pub open spec fn value(&self) -> SeqInputV {
        SeqInputV {
            var: self.var@,
            lower: self.lower@,
            upper: self.upper@,
            inclusive: self.inclusive,
            body: views(self.body@),
        }
    }

    /// Reads `N in lo..hi { body }` or `N in lo..=hi { body }` as `syn` does.
    pub fn parse(input: &Vec<Token>) -> (r: Result<SeqInput, SeqError>)
        ensures
            match r {
                Ok(v) => parse_spec(views(input@)) == Ok::<SeqInputV, SeqError>(v.value()),
                Err(err) => parse_spec(views(input@)) == Err::<SeqInputV, SeqError>(err),
            },
    {
        let mut e: Vec<Entry> = Vec::new();
        flatten_into(input, &mut e);
        proof {
            assert(ev(e@) =~= flat(views(input@)));
        }
        let ghost ee = ev(e@);
        // the variable
        let q0 = next_tok_exec(&e, 0);
        let var = if q0 < e.len() {
            match &e[q0] {
                Entry::Tok(Token::Ident(v, _)) => {
                    if !accepts_as_ident(v.as_str()) {
                        return Err(SeqError::ExpectedIdent);
                    }
                    v.clone()
                },
                _ => {
                    return Err(SeqError::ExpectedIdent);
                },
            }
        } else {
            return Err(SeqError::ExpectedIdent);
        };
        let p1 = q0 + 1;
        // `in`
        let q1 = next_tok_exec(&e, p1);
        if q1 >= e.len() {
            return Err(SeqError::ExpectedIn);
        }
        match &e[q1] {
            Entry::Tok(Token::Ident(v, _)) => {
                if !name_eq(v.as_str(), "in") {
                    return Err(SeqError::ExpectedIn);
                }
            },
            _ => {
                return Err(SeqError::ExpectedIn);
            },
        }
        let p2 = q1 + 1;
        let (lower, p3) = match int_lit_exec(&e, p2) {
            Some(x) => x,
            None => {
                return Err(SeqError::ExpectedIntLiteral);
            },
        };
        // `..`
        let q3 = next_tok_exec(&e, p3);
        if q3 >= e.len() {
            return Err(SeqError::ExpectedDotDot);
        }
        match &e[q3] {
            Entry::Tok(Token::Punct(c, joint, _)) => {
                if !(*c == '.' && *joint) {
                    return Err(SeqError::ExpectedDotDot);
                }
            },
            _ => {
                return Err(SeqError::ExpectedDotDot);
            },
        }
        let q4 = next_tok_exec(&e, q3 + 1);
        if q4 >= e.len() {
            return Err(SeqError::ExpectedDotDot);
        }
        let joint2 = match &e[q4] {
            Entry::Tok(Token::Punct(c, j, _)) => {
                if *c != '.' {
                    return Err(SeqError::ExpectedDotDot);
                }
                *j
            },
            _ => {
                return Err(SeqError::ExpectedDotDot);
            },
        };
        // `=` of `..=`
        let q5 = next_tok_exec(&e, q4 + 1);
        let inclusive = joint2 && q5 < e.len() && match &e[q5] {
            Entry::Tok(Token::Punct(c, _, _)) => *c == '=',
            _ => false,
        };
        let p4 = if inclusive { q5 + 1 } else { q4 + 1 };
        let (upper, p5) = match int_lit_exec(&e, p4) {
            Some(x) => x,
            None => {
                return Err(SeqError::ExpectedIntLiteral);
            },
        };
        // the body
        if p5 >= e.len() {
            return Err(SeqError::ExpectedGroup);
        }
        let body = match &e[p5] {
            Entry::Tok(Token::Group(d, inner, _)) => {
                if *d == Delim::NoDelim {
                    return Err(SeqError::ExpectedGroup);
                }
                crate::tokens::copy_tokens(inner)
            },
            _ => {
                return Err(SeqError::ExpectedGroup);
            },
        };
        let p6 = p5 + 1;
        let q6 = next_tok_exec(&e, p6);
        if q6 < e.len() {
            return Err(SeqError::UnexpectedToken);
        }
        Ok(SeqInput { var, lower, upper, inclusive, body })
    }
}

/// The number after the last of a range up to `hi`: `hi + 1` where the range
/// includes `hi` (`lo..=hi`), `hi` where it does not (`lo..hi`).
pub open spec fn range_end(hi: int, inclusive: bool) -> int {
    if inclusive { hi + 1 } else { hi }
}

/// Appends to `out` the tokens with the variable replaced by `i`; `false`,
/// with `out` as it was, where the replacement fails.
fn append_replaced(var: &str, body: &Vec<Token>, i: i128, out: &mut Vec<Token>) -> (ok: bool)
    ensures
        ok == replace_spec(var@, views(body@), i as int) is Some,
        ok ==> views(final(out)@) == views(old(out)@) + replace_spec(var@, views(body@), i as int).unwrap(),
        !ok ==> final(out)@ == old(out)@,
{
    let text = decimal_string(i);
    let part = match try_replace(var, body, Ghost(i as int), &text) {
        Some(p) => p,
        None => {
            return false;
        },
    };
    let mut k: usize = 0;
    let ghost before = views(out@);
    proof {
        lemma_views_len(part@);
        assert(part@.take(0) =~= Seq::<Token>::empty());
        assert(before + views(part@.take(0)) =~= before);
    }
    while k < part.len()
        invariant
            k <= part@.len(),
            views(out@) == before + views(part@.take(k as int)),
        decreases part@.len() - k,
    {
        let t = copy_token(&part[k]);
        proof {
            lemma_views_push(out@, t);
            let tk = part@.take(k + 1);
            assert(tk.drop_last() =~= part@.take(k as int));
            lemma_views_push(part@.take(k as int), part@[k as int]);
            assert(tk =~= part@.take(k as int).push(part@[k as int]));
        }
        out.push(t);
        proof {
            assert(views(out@) =~= before + views(part@.take(k + 1)));
        }
        k = k + 1;
    }
    proof {
        assert(part@.take(k as int) =~= part@);
    }
    true
}

/// Expands `seq!`: the body once for each number of the range, in order;
/// the range includes its upper bound where it is written `lo..=hi`.
pub fn seq_impl(input: &SeqInput) -> (r: Result<Vec<Token>, SeqError>)
    ensures
        match (lit_int_value(input.lower@), lit_int_value(input.upper@)) {
            (Some(Some(lo)), Some(Some(hi))) => {
                let end = range_end(hi as int, input.inclusive);
                if pastes_in_range(input.var@, views(input.body@), lo as int, end) {
                    r matches Ok(v) && views(v@) == expand(input.var@, views(input.body@), lo as int, end)
                } else {
                    r == Err::<Vec<Token>, SeqError>(SeqError::InvalidPaste)
                }
            },
            _ => r == Err::<Vec<Token>, SeqError>(SeqError::OutOfRange),
        },
{
    let lo = match parse_lit_int(input.lower.as_str()) {
        Some(Some(v)) => v,
        _ => {
            return Err(SeqError::OutOfRange);
        },
    };
    let hi = match parse_lit_int(input.upper.as_str()) {
        Some(Some(v)) => v,
        _ => {
            return Err(SeqError::OutOfRange);
        },
    };
    let ghost var = input.var@;
    let ghost body = views(input.body@);
    let ghost end = range_end(hi as int, input.inclusive);
    let mut out: Vec<Token> = Vec::new();
    proof {
        assert(views(out@) =~= Seq::<TokenV>::empty());
    }
    if (input.inclusive && lo > hi) || (!input.inclusive && lo >= hi) {
        return Ok(out);
    }
    let last: i128 = if input.inclusive { hi } else { hi - 1 };
    let mut i: i128 = lo;
    loop
        invariant
            lo <= i <= last,
            last + 1 == end,
            pastes_in_range(var, body, lo as int, i as int),
            lit_int_value(input.lower@) == Some(Some(lo)),
            lit_int_value(input.upper@) == Some(Some(hi)),
            end == range_end(hi as int, input.inclusive),
            var == input.var@,
            body == views(input.body@),
            views(out@) == expand(var, body, lo as int, i as int),
        decreases last - i,
    {
        if !append_replaced(input.var.as_str(), &input.body, i, &mut out) {
            proof {
                assert(replace_spec(var, body, i as int) is None);
                assert(!pastes_in_range(var, body, lo as int, end));
            }
            return Err(SeqError::InvalidPaste);
        }
        proof {
            assert(expand(var, body, lo as int, i + 1) == expand(var, body, lo as int, i as int) + replace_spec(var, body, i as int).unwrap());
        }
        if i == last {
            return Ok(out);
        }
        i = i + 1;
    }
}

/// `seq!` on its input: parses it, reads the bounds, and expands the body
/// for each number of the range (`lo..hi`, or `lo..=hi` with `hi` included);
/// `InvalidPaste` where, for some number of the range, a paste has nothing to
/// paste onto or gives no identifier.
pub fn seq(input: &Vec<Token>) -> (r: Result<Vec<Token>, SeqError>)
    ensures
        match parse_spec(views(input@)) {
            Err(err) => r == Err::<Vec<Token>, SeqError>(err),
            Ok(inp) => match (lit_int_value(inp.lower), lit_int_value(inp.upper)) {
                (Some(Some(lo)), Some(Some(hi))) => {
                    let end = range_end(hi as int, inp.inclusive);
                    if pastes_in_range(inp.var, inp.body, lo as int, end) {
                        r matches Ok(v) && views(v@) == expand(inp.var, inp.body, lo as int, end)
                    } else {
                        r == Err::<Vec<Token>, SeqError>(SeqError::InvalidPaste)
                    }
                },
                _ => r == Err::<Vec<Token>, SeqError>(SeqError::OutOfRange),
            },
        },
{
    let parsed = SeqInput::parse(input)?;
    seq_impl(&parsed)
}


/// The variable occurs nowhere in the tokens, not even inside groups.
pub open spec fn var_free(var: Seq<char>, ts: Seq<TokenV>) -> bool
    decreases ts, ts.len() + 1,
{
    var_free_upto(var, ts, ts.len() as int)
}

/// The variable occurs nowhere in the first `k` tokens.
pub open spec fn var_free_upto(var: Seq<char>, ts: Seq<TokenV>, k: int) -> bool
    decreases ts, k,
{
    if k <= 0 || k > ts.len() {
        k <= 0
    } else {
        var_free_upto(var, ts, k - 1) && var_free_tok(var, ts[k - 1])
    }
}

pub open spec fn var_free_tok(var: Seq<char>, t: TokenV) -> bool
    decreases t, 0int,
{
    match t {
        TokenV::Ident(s, _) => s != var,
        TokenV::Group(_, inner, _) => var_free(var, inner),
        _ => true,
    }
}

proof fn lemma_run_var_free(var: Seq<char>, ts: Seq<TokenV>, idx: int, k: int)
    requires
        0 <= k <= ts.len(),
        var_free_upto(var, ts, k),
    ensures
        run(var, ts, idx, k) == Some((ts.take(k), PasteState::Nothing)),
    decreases ts, k,
{
    if k == 0 {
        assert(ts.take(0) =~= Seq::<TokenV>::empty());
    } else {
        lemma_run_var_free(var, ts, idx, k - 1);
        let t = ts[k - 1];
        assert(var_free_upto(var, ts, k) == (var_free_upto(var, ts, k - 1) && var_free_tok(var, t)));
        assert(ts.take(k) =~= ts.take(k - 1).push(t));
        match t {
            TokenV::Group(d, inner, _) => {
                assert(decreases_to!(ts => ts[k - 1]));
                assert(var_free_tok(var, t) == var_free(var, inner));
                law_replace_var_free(var, inner, idx);
            },
            TokenV::Ident(s, _) => {
                assert(var_free_tok(var, t) == (s != var));
            },
            _ => {},
        }
        assert(run(var, ts, idx, k) == step(var, idx, run(var, ts, idx, k - 1), t));
    }
}

/// A body in which the variable does not occur comes back unchanged for
/// every number.
pub proof fn law_replace_var_free(var: Seq<char>, ts: Seq<TokenV>, idx: int)
    requires
        var_free(var, ts),
    ensures
        replace_spec(var, ts, idx) == Some(ts),
    decreases ts, ts.len() + 1,
{
    lemma_run_var_free(var, ts, idx, ts.len() as int);
    assert(ts.take(ts.len() as int) =~= ts);
}

/// The expansion holds one copy of the body per number, so a body without
/// the variable is repeated `hi - lo` times.
pub proof fn law_expand_var_free(var: Seq<char>, body: Seq<TokenV>, lo: int, hi: int)
    requires
        var_free(var, body),
        lo <= hi,
    ensures
        expand(var, body, lo, hi).len() == (hi - lo) * body.len(),
        forall|k: int, j: int| 0 <= k < hi - lo && 0 <= j < body.len() ==> #[trigger] expand(var, body, lo, hi)[k * body.len() + j] == body[j],
    decreases hi - lo,
{
    if hi > lo {
        law_expand_var_free(var, body, lo, hi - 1);
        law_replace_var_free(var, body, hi - 1);
        let e1 = expand(var, body, lo, hi - 1);
        let n = body.len() as int;
        assert(expand(var, body, lo, hi) == e1 + body);
        assert((hi - lo) * n == (hi - 1 - lo) * n + n) by (nonlinear_arith);
        assert forall|k: int, j: int| 0 <= k < hi - lo && 0 <= j < body.len() implies #[trigger] expand(var, body, lo, hi)[k * body.len() + j] == body[j] by {
            if k < hi - 1 - lo {
                assert(k * n + j < (hi - 1 - lo) * n) by (nonlinear_arith)
                    requires
                        0 <= k < hi - 1 - lo,
                        0 <= j < n,
                ;
                assert(e1[k * n + j] == body[j]);
            } else {
                assert(k * n == (hi - 1 - lo) * n);
            }
        }
    } else {
        assert((hi - lo) * body.len() == 0) by (nonlinear_arith)
            requires
                hi == lo,
        ;
    }
}


/// One token alone, for a variable `var` and a number `idx`: the variable
/// becomes the number as a literal at the call site, a group keeps its
/// delimiter and its span and gets its stream replaced, and any other
/// identifier, punctuation or literal is kept with its span; `p ~ var`
/// becomes the identifier `p` followed by the number, at the span of `p`,
/// where that is an identifier.
pub proof fn law_replace_cases(var: Seq<char>, idx: int, t: TokenV, p: Seq<char>, j: bool, sp: usize, sq: usize, sr: usize)
    ensures
        replace_spec(var, seq![TokenV::Ident(var, sp)], idx) == Some(seq![TokenV::Literal(decimal(idx), CALL_SITE)]),
        t matches TokenV::Group(d, inner, sg) ==> replace_spec(var, seq![t], idx) == match replace_spec(var, inner, idx) {
            Some(r) => Some(seq![TokenV::Group(d, r, sg)]),
            None => None::<Seq<TokenV>>,
        },
        !(t is Group) && !(t matches TokenV::Ident(s, _) && s == var) ==> replace_spec(var, seq![t], idx) == Some(seq![t]),
        p != var && ident_valid(p + decimal(idx)) ==> replace_spec(
            var,
            seq![TokenV::Ident(p, sp), TokenV::Punct('~', j, sq), TokenV::Ident(var, sr)],
            idx,
        ) == Some(seq![TokenV::Ident(p + decimal(idx), sp)]),
{
    let one = seq![TokenV::Ident(var, sp)];
    assert(run(var, one, idx, 1) == step(var, idx, run(var, one, idx, 0), one[0]));
    assert(Seq::<TokenV>::empty().push(TokenV::Literal(decimal(idx), CALL_SITE)) =~= seq![TokenV::Literal(decimal(idx), CALL_SITE)]);
    let ts = seq![t];
    assert(run(var, ts, idx, 1) == step(var, idx, run(var, ts, idx, 0), ts[0]));
    match t {
        TokenV::Group(d, inner, sg) => {
            if replace_spec(var, inner, idx) is Some {
                let r = replace_spec(var, inner, idx).unwrap();
                assert(Seq::<TokenV>::empty().push(TokenV::Group(d, r, sg)) =~= seq![TokenV::Group(d, r, sg)]);
            }
        },
        _ => {
            assert(Seq::<TokenV>::empty().push(t) =~= seq![t]);
        },
    }
    let a = TokenV::Ident(p, sp);
    let tl = TokenV::Punct('~', j, sq);
    let three = seq![a, tl, TokenV::Ident(var, sr)];
    if p != var && ident_valid(p + decimal(idx)) {
        assert(run(var, three, idx, 1) == step(var, idx, run(var, three, idx, 0), three[0]));
        assert(Seq::<TokenV>::empty().push(a) =~= seq![a]);
        assert(run(var, three, idx, 1) == Some((seq![a], PasteState::Nothing)));
        assert(run(var, three, idx, 2) == step(var, idx, run(var, three, idx, 1), three[1]));
        assert(seq![a].push(tl) =~= seq![a, tl]);
        assert(run(var, three, idx, 2) == Some((seq![a, tl], PasteState::Nothing)));
        assert(run(var, three, idx, 3) == step(var, idx, run(var, three, idx, 2), three[2]));
        let o = seq![a, tl];
        assert(o.drop_last() =~= seq![a]);
        assert(seq![a].drop_last() =~= Seq::<TokenV>::empty());
        assert(Seq::<TokenV>::empty().push(TokenV::Ident(p + decimal(idx), sp)) =~= seq![TokenV::Ident(p + decimal(idx), sp)]);
    }
}

proof fn lemma_run_prefix(var: Seq<char>, a: Seq<TokenV>, b: Seq<TokenV>, idx: int, k: int)
    requires
        0 <= k <= a.len(),
    ensures
        run(var, a + b, idx, k) == run(var, a, idx, k),
    decreases k,
{
    if k > 0 {
        lemma_run_prefix(var, a, b, idx, k - 1);
        assert((a + b)[k - 1] == a[k - 1]);
    }
}

proof fn lemma_run_concat(var: Seq<char>, a: Seq<TokenV>, b: Seq<TokenV>, idx: int, ra: Seq<TokenV>, k: int)
    requires
        run(var, a, idx, a.len() as int) == Some((ra, PasteState::Nothing)),
        replace_spec(var, b, idx) is Some,
        !(b.len() > 0 && (b[0] matches TokenV::Ident(s, _) && s == var)),
        0 <= k <= b.len(),
    ensures
        run(var, b, idx, k) is Some,
        k > 0 ==> run(var, b, idx, k).unwrap().0.len() > 0,
        run(var, a + b, idx, a.len() + k) == Some((ra + run(var, b, idx, k).unwrap().0, run(var, b, idx, k).unwrap().1)),
    decreases k,
{
    if k == 0 {
        lemma_run_prefix(var, a, b, idx, a.len() as int);
        assert(ra + Seq::<TokenV>::empty() =~= ra);
    } else {
        if run(var, b, idx, k) is None {
            lemma_run_none(var, b, idx, k, b.len() as int);
        }
        lemma_run_concat(var, a, b, idx, ra, k - 1);
        let (ob, st) = run(var, b, idx, k - 1).unwrap();
        let t = b[k - 1];
        assert((a + b)[a.len() + k - 1] == t);
        assert(run(var, b, idx, k) == step(var, idx, Some((ob, st)), t));
        assert(run(var, a + b, idx, a.len() + k) == step(var, idx, Some((ra + ob, st)), t));
        let (ob2, st2) = run(var, b, idx, k).unwrap();
        if st == PasteState::Tilde {
            assert(ob.len() > 0);
            assert((ra + ob).last() == ob.last());
            assert((ra + ob).drop_last() =~= ra + ob.drop_last());
            assert((ra + ob).drop_last().push(ob2.last()) =~= ra + ob2);
        } else {
            match t {
                TokenV::Ident(s, _) => {
                    if s == var {
                        assert(k > 1);
                        assert(ob.len() > 0);
                        assert((ra + ob).last() == ob.last());
                        assert((ra + ob).drop_last() =~= ra + ob.drop_last());
                        if is_tilde(ob.last()) {
                            let o1 = ob.drop_last();
                            assert(o1.len() > 0);
                            assert((ra + o1).last() == o1.last());
                            assert((ra + o1).drop_last() =~= ra + o1.drop_last());
                            assert((ra + o1).drop_last().push(ob2.last()) =~= ra + ob2);
                        } else {
                            assert((ra + ob).push(ob2.last()) =~= ra + ob2);
                        }
                    } else {
                        assert((ra + ob).push(t) =~= ra + ob2);
                    }
                },
                TokenV::Group(d, inner, _) => {
                    assert((ra + ob).push(ob2.last()) =~= ra + ob2);
                },
                TokenV::Punct(c, _, _) => {
                    if !(c == '~' && st == PasteState::Var) {
                        assert((ra + ob).push(t) =~= ra + ob2);
                    }
                },
                TokenV::Literal(_, _) => {
                    assert((ra + ob).push(t) =~= ra + ob2);
                },
            }
        }
    }
}

/// The replacement works token by token: after tokens `a` whose replacement
/// ends outside a paste, the replacement of `a + b` is that of `a` followed by
/// that of `b`, unless `b` starts with the variable (which may paste onto the
/// end of `a`).
pub proof fn law_replace_concat(var: Seq<char>, a: Seq<TokenV>, b: Seq<TokenV>, idx: int)
    requires
        run(var, a, idx, a.len() as int) matches Some((_, st)) && st == PasteState::Nothing,
        replace_spec(var, b, idx) is Some,
        !(b.len() > 0 && (b[0] matches TokenV::Ident(s, _) && s == var)),
    ensures
        replace_spec(var, a + b, idx) == Some(replace_spec(var, a, idx).unwrap() + replace_spec(var, b, idx).unwrap()),
{
    let ra = run(var, a, idx, a.len() as int).unwrap().0;
    lemma_run_concat(var, a, b, idx, ra, b.len() as int);
    assert((a + b).len() == a.len() + b.len());
}


/// A completed suffix paste `p ~ N ~ s` leaves the replacement as at the
/// start: replacing `p ~ N ~ s` followed by tokens `c` (that do not start
/// with the variable) gives the one identifier `p<number>s`, at the span of
/// `p`, followed by the replacement of `c` on its own. So `f ~ N ~ _x` then
/// `g ~ N` give `f0_x` then `g0`.
pub proof fn law_suffix_paste_resets(
    var: Seq<char>,
    idx: int,
    p: Seq<char>,
    sfx: Seq<char>,
    j1: bool,
    j2: bool,
    sp: usize,
    s1: usize,
    s2: usize,
    s3: usize,
    s4: usize,
    c: Seq<TokenV>,
)
    requires
        p != var,
        ident_valid(p + decimal(idx)),
        ident_valid(p + decimal(idx) + sfx),
        replace_spec(var, c, idx) is Some,
        !(c.len() > 0 && (c[0] matches TokenV::Ident(s, _) && s == var)),
    ensures
        replace_spec(
            var,
            seq![
                TokenV::Ident(p, sp),
                TokenV::Punct('~', j1, s1),
                TokenV::Ident(var, s2),
                TokenV::Punct('~', j2, s3),
                TokenV::Ident(sfx, s4),
            ] + c,
            idx,
        ) == Some(seq![TokenV::Ident(p + decimal(idx) + sfx, sp)] + replace_spec(var, c, idx).unwrap()),
{
    let t0 = TokenV::Ident(p, sp);
    let t1 = TokenV::Punct('~', j1, s1);
    let t2 = TokenV::Ident(var, s2);
    let t3 = TokenV::Punct('~', j2, s3);
    let t4 = TokenV::Ident(sfx, s4);
    let a = seq![t0, t1, t2, t3, t4];
    let d = decimal(idx);
    let pd = TokenV::Ident(p + d, sp);
    assert(run(var, a, idx, 1) == step(var, idx, run(var, a, idx, 0), a[0]));
    assert(Seq::<TokenV>::empty().push(t0) =~= seq![t0]);
    assert(run(var, a, idx, 1) == Some((seq![t0], PasteState::Nothing)));
    assert(run(var, a, idx, 2) == step(var, idx, run(var, a, idx, 1), a[1]));
    assert(seq![t0].push(t1) =~= seq![t0, t1]);
    assert(run(var, a, idx, 2) == Some((seq![t0, t1], PasteState::Nothing)));
    assert(run(var, a, idx, 3) == step(var, idx, run(var, a, idx, 2), a[2]));
    assert(seq![t0, t1].drop_last() =~= seq![t0]);
    assert(seq![t0].drop_last() =~= Seq::<TokenV>::empty());
    assert(Seq::<TokenV>::empty().push(pd) =~= seq![pd]);
    assert(run(var, a, idx, 3) == Some((seq![pd], PasteState::Var)));
    assert(run(var, a, idx, 4) == step(var, idx, run(var, a, idx, 3), a[3]));
    assert(run(var, a, idx, 4) == Some((seq![pd], PasteState::Tilde)));
    assert(run(var, a, idx, 5) == step(var, idx, run(var, a, idx, 4), a[4]));
    let res = TokenV::Ident(p + d + sfx, sp);
    assert(seq![pd].drop_last().push(res) =~= seq![res]);
    assert(run(var, a, idx, 5) == Some((seq![res], PasteState::Nothing)));
    law_replace_concat(var, a, c, idx);
}

} // verus!
