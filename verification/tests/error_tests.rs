use rsx_parser::error::ParseErrorKind;
use rsx_parser::node::Node;
use rsx_parser::parser::{Parser, ParserConfig};
use rsx_parser::token::{Delim, Token, TokenKind};

fn lt(pos: usize) -> Token {
    Token { kind: TokenKind::Lt, pos }
}

fn gt(pos: usize) -> Token {
    Token { kind: TokenKind::Gt, pos }
}

fn slash(pos: usize) -> Token {
    Token { kind: TokenKind::Slash, pos }
}

fn equals(pos: usize) -> Token {
    Token { kind: TokenKind::Equals, pos }
}

fn ident(s: &str, pos: usize) -> Token {
    Token { kind: TokenKind::Ident(s.to_owned()), pos }
}

fn lit(s: &str, pos: usize) -> Token {
    Token { kind: TokenKind::Literal(s.to_owned()), pos }
}

fn paren(s: &str, pos: usize) -> Token {
    Token { kind: TokenKind::Group(Delim::Paren, s.to_owned()), pos }
}

fn parse(tokens: Vec<Token>) -> Result<Vec<Node>, rsx_parser::error::ParseError> {
    Parser::new(ParserConfig { flatten: false }).parse(&tokens)
}

#[test]
fn mismatched_close_tag_is_tag_name_mismatch_at_close_name() {
    // <a></b>
    let err = parse(vec![
        lt(0),
        ident("a", 1),
        gt(2),
        lt(3),
        slash(4),
        ident("b", 5),
        gt(6),
    ])
    .unwrap_err();
    assert_eq!(err.kind, ParseErrorKind::TagNameMismatch);
    assert_eq!(err.pos, 5);
}

#[test]
fn missing_close_tag_is_unterminated_open_tag_at_open_name() {
    // <a>"text"
    let err = parse(vec![lt(0), ident("a", 1), gt(2), lit("\"text\"", 3)]).unwrap_err();
    assert_eq!(err.kind, ParseErrorKind::UnterminatedOpenTag);
    assert_eq!(err.pos, 1);
}

#[test]
fn stray_close_tag_is_orphan_close_tag_at_its_name() {
    // </a>
    let err = parse(vec![lt(0), slash(1), ident("a", 2), gt(3)]).unwrap_err();
    assert_eq!(err.kind, ParseErrorKind::OrphanCloseTag);
    assert_eq!(err.pos, 2);
}

#[test]
fn close_tag_for_already_closed_child_is_tag_name_mismatch() {
    // <a><b/></b></a>: after b closes, </b> no longer matches <a>.
    let err = parse(vec![
        lt(0),
        ident("a", 1),
        gt(2),
        lt(3),
        ident("b", 4),
        slash(5),
        gt(6),
        lt(7),
        slash(8),
        ident("b", 9),
        gt(10),
        lt(11),
        slash(12),
        ident("a", 13),
        gt(14),
    ])
    .unwrap_err();
    assert_eq!(err.kind, ParseErrorKind::TagNameMismatch);
    assert_eq!(err.pos, 9);
}

#[test]
fn token_matching_no_alternative_is_grammar_mismatch() {
    // A bare `>` matches neither text, block nor element.
    let err = parse(vec![gt(7)]).unwrap_err();
    assert_eq!(err.kind, ParseErrorKind::GrammarMismatch);
    assert_eq!(err.pos, 7);
}

#[test]
fn non_brace_group_is_grammar_mismatch() {
    // A parenthesized group is no block and no tag.
    let err = parse(vec![paren("1, 2", 3)]).unwrap_err();
    assert_eq!(err.kind, ParseErrorKind::GrammarMismatch);
    assert_eq!(err.pos, 3);
}

#[test]
fn lone_open_bracket_is_grammar_mismatch() {
    let err = parse(vec![lt(4)]).unwrap_err();
    assert_eq!(err.kind, ParseErrorKind::GrammarMismatch);
    assert_eq!(err.pos, 4);
}

#[test]
fn open_tag_without_terminator_is_unterminated() {
    // <a x
    let err = parse(vec![lt(0), ident("a", 1), ident("x", 2)]).unwrap_err();
    assert_eq!(err.kind, ParseErrorKind::UnterminatedOpenTag);
    assert_eq!(err.pos, 1);
}

#[test]
fn leftover_attribute_tokens_are_malformed_attribute() {
    // <a = >: the attribute range holds a stray `=`.
    let err = parse(vec![lt(0), ident("a", 1), equals(2), gt(3)]).unwrap_err();
    assert_eq!(err.kind, ParseErrorKind::MalformedAttribute);
    assert_eq!(err.pos, 2);
}

#[test]
fn dangling_attribute_equals_is_malformed_attribute() {
    // <a x= >: `x=` has no value before the terminator.
    let err = parse(vec![lt(0), ident("a", 1), ident("x", 2), equals(3), gt(4)]).unwrap_err();
    assert_eq!(err.kind, ParseErrorKind::MalformedAttribute);
    assert_eq!(err.pos, 2);
}

#[test]
fn error_messages_match_kinds() {
    let orphan = parse(vec![lt(0), slash(1), ident("a", 2), gt(3)]).unwrap_err();
    assert_eq!(orphan.message(), "close tag has no corresponding open tag");

    let unterminated = parse(vec![lt(0), ident("a", 1), gt(2)]).unwrap_err();
    assert_eq!(unterminated.kind, ParseErrorKind::UnterminatedOpenTag);
    assert_eq!(unterminated.message(), "open tag has no corresponding close tag");

    let mismatch = parse(vec![
        lt(0),
        ident("a", 1),
        gt(2),
        lt(3),
        slash(4),
        ident("b", 5),
        gt(6),
    ])
    .unwrap_err();
    assert_eq!(mismatch.message(), "close tag has no corresponding open tag");

    let grammar = parse(vec![gt(0)]).unwrap_err();
    assert_eq!(grammar.message(), "expected a text, block or element node");

    let malformed = parse(vec![lt(0), ident("a", 1), equals(2), gt(3)]).unwrap_err();
    assert_eq!(malformed.message(), "invalid tokens in attribute list");
}

#[test]
fn both_modes_fail_alike() {
    let tokens = || vec![lt(0), ident("a", 1), gt(2), lit("\"x\"", 3)];
    let nested = Parser::new(ParserConfig { flatten: false }).parse(&tokens()).unwrap_err();
    let flat = Parser::new(ParserConfig { flatten: true }).parse(&tokens()).unwrap_err();
    assert_eq!(nested, flat);
}
