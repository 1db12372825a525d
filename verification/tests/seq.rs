use proc_workshop::seq::{check_pastes, decimal_string, replace_tokens, SeqError, SeqInput};
use proc_workshop::tokens::{Delim, Token};

fn id(s: &str) -> Token {
    Token::Ident(s.to_string(), 0)
}
fn lit(s: &str) -> Token {
    Token::Literal(s.to_string(), 0)
}
fn p(c: char) -> Token {
    Token::Punct(c, false, 0)
}
fn pj(c: char) -> Token {
    Token::Punct(c, true, 0)
}
fn brace(v: Vec<Token>) -> Token {
    Token::Group(Delim::Brace, v, 0)
}

fn show(ts: &[Token]) -> Vec<String> {
    ts.iter()
        .map(|t| match t {
            Token::Ident(s, _) => format!("i:{}", s),
            Token::Literal(s, _) => format!("l:{}", s),
            Token::Punct(c, _, _) => format!("p:{}", c),
            Token::Group(d, inner, _) => format!("g:{:?}:{:?}", d, show(inner)),
        })
        .collect()
}

fn header(lo: Vec<Token>, hi: Vec<Token>, body: Vec<Token>) -> Vec<Token> {
    let mut v = vec![id("N"), id("in")];
    v.extend(lo);
    v.push(pj('.'));
    v.push(p('.'));
    v.extend(hi);
    v.push(brace(body));
    v
}

#[test]
fn pasted_identifiers() {
    let input = header(vec![lit("0")], vec![lit("3")], vec![id("f"), p('~'), id("N")]);
    let out = proc_workshop::seq::seq(&input).unwrap();
    assert_eq!(show(&out), vec!["i:f0", "i:f1", "i:f2"]);
}

#[test]
fn variable_becomes_literal() {
    let input = header(vec![lit("1")], vec![lit("3")], vec![id("x"), p('='), id("N"), p(';')]);
    let out = proc_workshop::seq::seq(&input).unwrap();
    assert_eq!(show(&out), vec!["i:x", "p:=", "l:1", "p:;", "i:x", "p:=", "l:2", "p:;"]);
}

#[test]
fn state_after_variable_lasts_until_a_tilde() {
    // after `N` is seen, the next `~` pastes, even across other tokens: `B ~ N`
    // becomes `B` pasted with the text `N`
    let body = vec![Token::Group(Delim::Paren, vec![id("N"), p(','), id("B"), p('~'), id("N")], 0)];
    let input = header(vec![lit("4")], vec![lit("6")], body);
    let out = proc_workshop::seq::seq(&input).unwrap();
    assert_eq!(
        show(&out),
        vec![
            "g:Paren:[\"l:4\", \"p:,\", \"i:BN\"]".to_string(),
            "g:Paren:[\"l:5\", \"p:,\", \"i:BN\"]".to_string()
        ]
    );
}

#[test]
fn replacement_inside_groups() {
    let body = vec![Token::Group(Delim::Paren, vec![id("B"), p('~'), id("N"), p(','), id("N")], 0)];
    let input = header(vec![lit("4")], vec![lit("6")], body);
    let out = proc_workshop::seq::seq(&input).unwrap();
    assert_eq!(
        show(&out),
        vec![
            "g:Paren:[\"i:B4\", \"p:,\", \"l:4\"]".to_string(),
            "g:Paren:[\"i:B5\", \"p:,\", \"l:5\"]".to_string()
        ]
    );
}

#[test]
fn suffix_after_second_tilde() {
    let input = header(vec![lit("1")], vec![lit("2")], vec![id("f"), p('~'), id("N"), p('~'), id("_x")]);
    let out = proc_workshop::seq::seq(&input).unwrap();
    assert_eq!(show(&out), vec!["i:f1_x"]);
}

#[test]
fn negative_and_empty_ranges() {
    let input = header(vec![p('-'), lit("2")], vec![lit("0")], vec![id("N")]);
    let out = proc_workshop::seq::seq(&input).unwrap();
    assert_eq!(show(&out), vec!["l:-2", "l:-1"]);
    let empty = header(vec![lit("5")], vec![lit("5")], vec![id("N")]);
    assert!(proc_workshop::seq::seq(&empty).unwrap().is_empty());
    let backwards = header(vec![lit("5")], vec![lit("2")], vec![id("N")]);
    assert!(proc_workshop::seq::seq(&backwards).unwrap().is_empty());
}

#[test]
fn body_without_variable_is_repeated() {
    let body = vec![id("a"), brace(vec![id("b")])];
    let input = header(vec![lit("0")], vec![lit("3")], body);
    let out = proc_workshop::seq::seq(&input).unwrap();
    assert_eq!(out.len(), 6);
    assert_eq!(show(&out[0..2]), show(&out[2..4]));
    assert_eq!(show(&out[2..4]), show(&out[4..6]));
}

#[test]
fn parse_errors() {
    assert_eq!(proc_workshop::seq::seq(&vec![]).err(), Some(SeqError::ExpectedIdent));
    assert_eq!(proc_workshop::seq::seq(&vec![id("in"), id("in")]).err(), Some(SeqError::ExpectedIdent));
    assert_eq!(proc_workshop::seq::seq(&vec![id("N"), id("of")]).err(), Some(SeqError::ExpectedIn));
    assert_eq!(proc_workshop::seq::seq(&vec![id("N"), id("in"), lit("\"a\"")]).err(), Some(SeqError::ExpectedIntLiteral));
    assert_eq!(proc_workshop::seq::seq(&vec![id("N"), id("in"), lit("0"), p('.'), p('.')]).err(), Some(SeqError::ExpectedDotDot));
    // `.. =` with the second `.` not joined to the `=`: the `=` is no integer literal
    let spaced = vec![id("N"), id("in"), lit("0"), pj('.'), p('.'), p('='), lit("3"), brace(vec![])];
    assert_eq!(proc_workshop::seq::seq(&spaced).err(), Some(SeqError::ExpectedIntLiteral));
    let no_body = vec![id("N"), id("in"), lit("0"), pj('.'), p('.'), lit("3")];
    assert_eq!(proc_workshop::seq::seq(&no_body).err(), Some(SeqError::ExpectedGroup));
    let mut extra = header(vec![lit("0")], vec![lit("1")], vec![]);
    extra.push(p(';'));
    assert_eq!(proc_workshop::seq::seq(&extra).err(), Some(SeqError::UnexpectedToken));
    let huge = header(vec![lit("0")], vec![lit("999999999999999999999999999999999999999999")], vec![]);
    assert_eq!(proc_workshop::seq::seq(&huge).err(), Some(SeqError::OutOfRange));
}

#[test]
fn invisible_groups_are_read_through() {
    let input = vec![
        Token::Group(Delim::NoDelim, vec![id("N"), id("in")], 0),
        lit("0"),
        pj('.'),
        p('.'),
        Token::Group(Delim::NoDelim, vec![lit("2")], 0),
        brace(vec![id("N")]),
    ];
    let out = proc_workshop::seq::seq(&input).unwrap();
    assert_eq!(show(&out), vec!["l:0", "l:1"]);
    let wrapped_body = header(vec![lit("0")], vec![lit("1")], vec![]);
    let mut v = wrapped_body[..wrapped_body.len() - 1].to_vec_like();
    v.push(Token::Group(Delim::NoDelim, vec![brace(vec![])], 0));
    assert_eq!(proc_workshop::seq::seq(&v).err(), Some(SeqError::ExpectedGroup));
}

trait ToVecLike {
    fn to_vec_like(&self) -> Vec<Token>;
}
impl ToVecLike for [Token] {
    fn to_vec_like(&self) -> Vec<Token> {
        self.iter()
            .map(|t| match t {
                Token::Ident(s, sp) => Token::Ident(s.clone(), *sp),
                Token::Literal(s, sp) => Token::Literal(s.clone(), *sp),
                Token::Punct(c, j, sp) => Token::Punct(*c, *j, *sp),
                Token::Group(d, inner, sp) => Token::Group(*d, inner.to_vec_like(), *sp),
            })
            .collect()
    }
}

#[test]
fn paste_with_nothing_before_fails() {
    let input = header(vec![lit("0")], vec![lit("1")], vec![p('~'), id("N")]);
    assert_eq!(proc_workshop::seq::seq(&input).err(), Some(SeqError::InvalidPaste));
    assert!(!check_pastes("N", &vec![p('~'), id("N")], 0));
    assert!(check_pastes("N", &vec![id("a"), p('~'), id("N")], 0));
}

#[test]
fn paste_that_gives_no_identifier_fails() {
    // `+` pasted with a number is no identifier
    let plus = header(vec![lit("0")], vec![lit("2")], vec![p('+'), p('~'), id("N")]);
    assert_eq!(proc_workshop::seq::seq(&plus).err(), Some(SeqError::InvalidPaste));
    assert!(!check_pastes("N", &vec![p('+'), p('~'), id("N")], 0));
    // `f` pasted with `-1` is no identifier, `f` with `0` is
    let neg = header(vec![p('-'), lit("1")], vec![lit("1")], vec![id("f"), p('~'), id("N")]);
    assert_eq!(proc_workshop::seq::seq(&neg).err(), Some(SeqError::InvalidPaste));
    assert!(!check_pastes("N", &vec![id("f"), p('~'), id("N")], -1));
    assert!(check_pastes("N", &vec![id("f"), p('~'), id("N")], 0));
    // a string literal pasted after `f0` is no identifier
    let string = header(vec![lit("0")], vec![lit("1")], vec![id("f"), p('~'), id("N"), p('~'), lit("\"s\"")]);
    assert_eq!(proc_workshop::seq::seq(&string).err(), Some(SeqError::InvalidPaste));
    // an identifier pasted after `f0` is
    let suffix = header(vec![lit("0")], vec![lit("1")], vec![id("f"), p('~'), id("N"), p('~'), id("x")]);
    assert_eq!(show(&proc_workshop::seq::seq(&suffix).unwrap()), vec!["i:f0x"]);
    // an empty range pastes nothing, and so cannot fail
    let empty = header(vec![lit("3")], vec![lit("3")], vec![p('+'), p('~'), id("N")]);
    assert!(proc_workshop::seq::seq(&empty).unwrap().is_empty());
}

#[test]
fn replace_one_number() {
    let out = replace_tokens("N", &vec![id("x"), p('~'), id("N")], 42);
    assert_eq!(show(&out), vec!["i:x42"]);
    let out = replace_tokens("N", &vec![id("N")], -7);
    assert_eq!(show(&out), vec!["l:-7"]);
}

#[test]
fn decimals_and_keywords() {
    assert_eq!(decimal_string(0), "0");
    assert_eq!(decimal_string(1234), "1234");
    assert_eq!(decimal_string(-56), "-56");
    assert_eq!(decimal_string(i128::MIN), i128::MIN.to_string());
    assert_eq!(decimal_string(i128::MAX), i128::MAX.to_string());
    // `_` and the keywords are refused as the variable; a raw identifier is not
    for word in ["in", "_", "Self", "fn"] {
        let input = vec![id(word), id("in"), lit("0"), pj('.'), p('.'), lit("1"), brace(vec![])];
        assert_eq!(proc_workshop::seq::seq(&input).err(), Some(SeqError::ExpectedIdent));
    }
    let raw = vec![id("r#fn"), id("in"), lit("0"), pj('.'), p('.'), lit("1"), brace(vec![id("r#fn")])];
    assert_eq!(show(&proc_workshop::seq::seq(&raw).unwrap()), vec!["l:0"]);
}

#[test]
fn parse_gives_parts() {
    let input = header(vec![lit("0")], vec![lit("0x10")], vec![id("N")]);
    let parsed = SeqInput::parse(&input).ok().unwrap();
    assert_eq!(parsed.var, "N");
    assert_eq!(parsed.lower, "0");
    assert_eq!(parsed.upper, "0x10");
    assert_eq!(parsed.body.len(), 1);
    let out = proc_workshop::seq::seq(&input).unwrap();
    assert_eq!(out.len(), 16);
}

#[test]
fn literal_forms_of_the_bounds() {
    let hex = header(vec![lit("0x2")], vec![lit("0b100")], vec![id("N")]);
    assert_eq!(show(&proc_workshop::seq::seq(&hex).unwrap()), vec!["l:2", "l:3"]);
    let spaced = header(vec![lit("1_0")], vec![lit("12u8")], vec![id("N")]);
    assert_eq!(show(&proc_workshop::seq::seq(&spaced).unwrap()), vec!["l:10", "l:11"]);
    let octal = header(vec![lit("0o7")], vec![lit("0o10")], vec![id("N")]);
    assert_eq!(show(&proc_workshop::seq::seq(&octal).unwrap()), vec!["l:7"]);
}

#[test]
fn bounds_at_the_ends_of_i128() {
    let top = header(
        vec![lit("170141183460469231731687303715884105726")],
        vec![lit("170141183460469231731687303715884105727")],
        vec![id("N")],
    );
    assert_eq!(
        show(&proc_workshop::seq::seq(&top).unwrap()),
        vec!["l:170141183460469231731687303715884105726"]
    );
    let over = header(vec![lit("0")], vec![lit("170141183460469231731687303715884105728")], vec![]);
    assert_eq!(proc_workshop::seq::seq(&over).err(), Some(SeqError::OutOfRange));
    let bottom = header(
        vec![p('-'), lit("170141183460469231731687303715884105728")],
        vec![p('-'), lit("170141183460469231731687303715884105727")],
        vec![id("N")],
    );
    assert_eq!(
        show(&proc_workshop::seq::seq(&bottom).unwrap()),
        vec!["l:-170141183460469231731687303715884105728"]
    );
    let under = header(vec![p('-'), lit("170141183460469231731687303715884105729")], vec![lit("0")], vec![]);
    assert_eq!(proc_workshop::seq::seq(&under).err(), Some(SeqError::OutOfRange));
}

#[test]
fn inclusive_range_includes_its_upper_bound() {
    // N in 1..=8 { pub enum B~N {} }
    let body = vec![id("pub"), id("enum"), id("B"), p('~'), id("N"), brace(vec![])];
    let input = vec![id("N"), id("in"), lit("1"), pj('.'), pj('.'), p('='), lit("8"), brace(body)];
    let parsed = SeqInput::parse(&input).ok().unwrap();
    assert!(parsed.inclusive);
    let out = proc_workshop::seq::seq(&input).unwrap();
    let names: Vec<String> = out
        .iter()
        .filter_map(|t| match t {
            Token::Ident(s, _) if s.starts_with('B') => Some(s.clone()),
            _ => None,
        })
        .collect();
    assert_eq!(names, vec!["B1", "B2", "B3", "B4", "B5", "B6", "B7", "B8"]);
    assert_eq!(out.len(), 8 * 4);
    // 5..=5 gives one copy, 6..=5 none
    let one = vec![id("N"), id("in"), lit("5"), pj('.'), pj('.'), p('='), lit("5"), brace(vec![id("N")])];
    assert_eq!(show(&proc_workshop::seq::seq(&one).unwrap()), vec!["l:5"]);
    let none = vec![id("N"), id("in"), lit("6"), pj('.'), pj('.'), p('='), lit("5"), brace(vec![id("N")])];
    assert!(proc_workshop::seq::seq(&none).unwrap().is_empty());
    // the top of i128 is reached without overflow
    let top = vec![
        id("N"), id("in"), lit("170141183460469231731687303715884105726"), pj('.'), pj('.'), p('='),
        lit("170141183460469231731687303715884105727"), brace(vec![id("N")]),
    ];
    assert_eq!(
        show(&proc_workshop::seq::seq(&top).unwrap()),
        vec!["l:170141183460469231731687303715884105726", "l:170141183460469231731687303715884105727"]
    );
    // an exclusive range is not inclusive
    let exclusive = header(vec![lit("0")], vec![lit("2")], vec![id("N")]);
    assert!(!SeqInput::parse(&exclusive).ok().unwrap().inclusive);
}

#[test]
fn spans_are_kept() {
    // `x ~ N` at spans 1, 2, 3, then `N` at 4 and `y` at 5, inside a group at 6
    let body = vec![
        Token::Ident("x".to_string(), 1),
        Token::Punct('~', false, 2),
        Token::Ident("N".to_string(), 3),
        Token::Group(Delim::Paren, vec![Token::Ident("N".to_string(), 4), Token::Ident("y".to_string(), 5)], 6),
    ];
    let out = replace_tokens("N", &body, 7);
    assert_eq!(out.len(), 2);
    // the pasted identifier takes the span of what it is pasted onto
    assert!(matches!(&out[0], Token::Ident(s, 1) if s == "x7"));
    match &out[1] {
        Token::Group(Delim::Paren, inner, 6) => {
            // the number is written at the call site; other tokens keep theirs
            assert!(matches!(&inner[0], Token::Literal(s, 0) if s == "7"));
            assert!(matches!(&inner[1], Token::Ident(s, 5) if s == "y"));
        }
        other => panic!("unexpected {:?}", other),
    }
}
