use glass::error::GlassError;
use glass::lexer::tokenize;
use glass::node::Node;
use glass::parser::Parser;
use glass::span::Span;
use glass::token::{NumberLiteral, Token};
use std::collections::VecDeque;

const FILE: &str = "test.glass";

fn parse(source: &str) -> Result<Node, GlassError> {
    Parser::new(tokenize(source), source.to_string(), FILE.to_string()).parse()
}

fn num(text: &str) -> Node {
    Node::Number { value: NumberLiteral::Decimal(text.to_string()) }
}

fn bin(op: Token, left: Node, right: Node) -> Node {
    Node::BinaryOp { op, left: Box::new(left), right: Box::new(right) }
}

fn un(op: Token, expr: Node) -> Node {
    Node::UnaryOp { op, expr: Box::new(expr) }
}

fn span(start: usize, end: usize) -> Span {
    Span { start, end }
}

#[test]
fn atoms() {
    assert_eq!(parse("42"), Ok(num("42")));
    assert_eq!(parse("0x10"), Ok(Node::Number { value: NumberLiteral::Bits(16.0f64.to_bits()) }));
    assert_eq!(parse("\"hi\""), Ok(Node::String { value: "hi".to_string() }));
    assert_eq!(parse("name"), Ok(Node::Identifier { name: "name".to_string() }));
    assert_eq!(parse("(7)"), Ok(num("7")));
    assert_eq!(parse("((7))"), Ok(num("7")));
}

#[test]
fn factor_binds_tighter_than_term() {
    assert_eq!(
        parse("2 + 3 * 4"),
        Ok(bin(Token::Plus, num("2"), bin(Token::Star, num("3"), num("4"))))
    );
    assert_eq!(
        parse("2 * 3 + 4"),
        Ok(bin(Token::Plus, bin(Token::Star, num("2"), num("3")), num("4")))
    );
    assert_eq!(
        parse("8 / 4 % 3 - 1"),
        Ok(bin(
            Token::Minus,
            bin(Token::Percent, bin(Token::Slash, num("8"), num("4")), num("3")),
            num("1")
        ))
    );
}

#[test]
fn parentheses_group() {
    assert_eq!(
        parse("(2 + 3) * 4"),
        Ok(bin(Token::Star, bin(Token::Plus, num("2"), num("3")), num("4")))
    );
}

#[test]
fn every_level_is_left_associative() {
    assert_eq!(
        parse("1 - 2 - 3"),
        Ok(bin(Token::Minus, bin(Token::Minus, num("1"), num("2")), num("3")))
    );
    assert_eq!(
        parse("2 ** 3 ** 2"),
        Ok(bin(Token::StarStar, bin(Token::StarStar, num("2"), num("3")), num("2")))
    );
    assert_eq!(
        parse("1 == 2 != 3"),
        Ok(bin(Token::ExclamationEqual, bin(Token::EqualEqual, num("1"), num("2")), num("3")))
    );
    assert_eq!(
        parse("1 < 2 >= 3"),
        Ok(bin(Token::GreaterThanEqual, bin(Token::LessThan, num("1"), num("2")), num("3")))
    );
}

#[test]
fn comparison_binds_tighter_than_equality() {
    assert_eq!(
        parse("1 < 2 == 3 > 4"),
        Ok(bin(
            Token::EqualEqual,
            bin(Token::LessThan, num("1"), num("2")),
            bin(Token::GreaterThan, num("3"), num("4"))
        ))
    );
    assert_eq!(
        parse("1 + 2 <= 3 * 4"),
        Ok(bin(
            Token::LessThanEqual,
            bin(Token::Plus, num("1"), num("2")),
            bin(Token::Star, num("3"), num("4"))
        ))
    );
}

#[test]
fn power_binds_tighter_than_factor() {
    assert_eq!(
        parse("2 * 3 ** 4"),
        Ok(bin(Token::Star, num("2"), bin(Token::StarStar, num("3"), num("4"))))
    );
}

#[test]
fn unary_binds_tighter_than_every_binary_operator() {
    assert_eq!(
        parse("-2 ** 2"),
        Ok(bin(Token::StarStar, un(Token::Minus, num("2")), num("2")))
    );
    assert_eq!(
        parse("not 1 < 2"),
        Ok(bin(Token::LessThan, un(Token::Not, num("1")), num("2")))
    );
    assert_eq!(
        parse("2 - -3"),
        Ok(bin(Token::Minus, num("2"), un(Token::Minus, num("3"))))
    );
    assert_eq!(
        parse("- + not x"),
        Ok(un(
            Token::Minus,
            un(Token::Plus, un(Token::Not, Node::Identifier { name: "x".to_string() }))
        ))
    );
}

#[test]
fn empty_input_is_unexpected_end() {
    assert_eq!(parse(""), Err(GlassError::UnexpectedEndOfInput { filename: FILE.to_string() }));
    assert_eq!(
        parse("  // only a comment"),
        Err(GlassError::UnexpectedEndOfInput { filename: FILE.to_string() })
    );
}

#[test]
fn missing_operand_is_unexpected_end() {
    assert_eq!(parse("1 +"), Err(GlassError::UnexpectedEndOfInput { filename: FILE.to_string() }));
    assert_eq!(parse("-"), Err(GlassError::UnexpectedEndOfInput { filename: FILE.to_string() }));
    assert_eq!(parse("("), Err(GlassError::UnexpectedEndOfInput { filename: FILE.to_string() }));
    assert_eq!(parse("(1"), Err(GlassError::UnexpectedEndOfInput { filename: FILE.to_string() }));
}

#[test]
fn missing_closing_parenthesis_names_what_was_expected() {
    assert_eq!(
        parse("(1 2"),
        Err(GlassError::UnexpectedToken {
            expected: Some(Token::RParen),
            actual: Token::Number(NumberLiteral::Decimal("2".to_string())),
            src: "(1 2".to_string(),
            filename: FILE.to_string(),
            span: span(3, 4),
        })
    );
}

#[test]
fn token_that_is_no_atom_is_unexpected() {
    assert_eq!(
        parse("1 + *"),
        Err(GlassError::UnexpectedToken {
            expected: None,
            actual: Token::Star,
            src: "1 + *".to_string(),
            filename: FILE.to_string(),
            span: span(4, 5),
        })
    );
    assert_eq!(
        parse(")"),
        Err(GlassError::UnexpectedToken {
            expected: None,
            actual: Token::RParen,
            src: ")".to_string(),
            filename: FILE.to_string(),
            span: span(0, 1),
        })
    );
}

#[test]
fn keywords_are_no_atoms() {
    assert_eq!(
        parse("1 < 2 == true"),
        Err(GlassError::UnexpectedToken {
            expected: None,
            actual: Token::True,
            src: "1 < 2 == true".to_string(),
            filename: FILE.to_string(),
            span: span(9, 13),
        })
    );
    assert_eq!(
        parse("not true and false"),
        Err(GlassError::UnexpectedToken {
            expected: None,
            actual: Token::True,
            src: "not true and false".to_string(),
            filename: FILE.to_string(),
            span: span(4, 8),
        })
    );
}

#[test]
fn error_tokens_become_errors_when_they_are_taken() {
    assert_eq!(
        parse("1 + @"),
        Err(GlassError::UnknownToken {
            src: "1 + @".to_string(),
            span: span(4, 5),
            filename: FILE.to_string(),
        })
    );
    assert_eq!(
        parse("\"abc"),
        Err(GlassError::UnclosedString {
            src: "\"abc".to_string(),
            span: span(0, 4),
            filename: FILE.to_string(),
        })
    );
    assert_eq!(
        parse("1 + \"a\\qb\""),
        Err(GlassError::UnknownEscapeSequence {
            escape_sequence: "\\q".to_string(),
            src: "1 + \"a\\qb\"".to_string(),
            filename: FILE.to_string(),
            span: span(6, 8),
        })
    );
    assert_eq!(
        parse("(1 @"),
        Err(GlassError::UnknownToken {
            src: "(1 @".to_string(),
            span: span(3, 4),
            filename: FILE.to_string(),
        })
    );
}

#[test]
fn tokens_behind_the_expression_stay_in_the_queue() {
    assert_eq!(parse("1 2"), Ok(num("1")));
    assert_eq!(parse("1 ) + 2"), Ok(num("1")));
    let mut parser = Parser::new(tokenize("1 2 + 3"), "1 2 + 3".to_string(), FILE.to_string());
    assert_eq!(parser.parse(), Ok(num("1")));
    assert_eq!(parser.parse(), Ok(bin(Token::Plus, num("2"), num("3"))));
    assert_eq!(
        parser.parse(),
        Err(GlassError::UnexpectedEndOfInput { filename: FILE.to_string() })
    );
}

#[test]
fn error_token_behind_an_operand_ends_the_parse() {
    assert_eq!(
        parse("1 @"),
        Err(GlassError::UnknownToken {
            src: "1 @".to_string(),
            span: span(2, 3),
            filename: FILE.to_string(),
        })
    );
    assert_eq!(
        parse("1 + 2 * 3 $ 4"),
        Err(GlassError::UnknownToken {
            src: "1 + 2 * 3 $ 4".to_string(),
            span: span(10, 11),
            filename: FILE.to_string(),
        })
    );
    assert_eq!(
        parse("x \"abc"),
        Err(GlassError::UnclosedString {
            src: "x \"abc".to_string(),
            span: span(2, 6),
            filename: FILE.to_string(),
        })
    );
    assert_eq!(
        parse("-x \"a\\qb\" + 1"),
        Err(GlassError::UnknownEscapeSequence {
            escape_sequence: "\\q".to_string(),
            src: "-x \"a\\qb\" + 1".to_string(),
            filename: FILE.to_string(),
            span: span(5, 7),
        })
    );
    let mut parser = Parser::new(tokenize("1 @ 2"), "1 @ 2".to_string(), FILE.to_string());
    assert!(parser.parse().is_err());
    assert_eq!(parser.parse(), Ok(num("2")));
}

#[test]
fn unverified_string_behind_an_operand_is_judged_too() {
    let tokens: VecDeque<(Token, Span)> = VecDeque::from(vec![
        (Token::Number(NumberLiteral::Decimal("1".to_string())), span(0, 1)),
        (Token::UnverifiedString(Err("\\q".to_string())), span(2, 6)),
    ]);
    let mut parser = Parser::new(tokens, "1 \"\\q\"".to_string(), FILE.to_string());
    assert_eq!(
        parser.parse(),
        Err(GlassError::UnknownEscapeSequence {
            escape_sequence: "\\q".to_string(),
            src: "1 \"\\q\"".to_string(),
            filename: FILE.to_string(),
            span: span(2, 6),
        })
    );
    let tokens: VecDeque<(Token, Span)> = VecDeque::from(vec![
        (Token::Number(NumberLiteral::Decimal("1".to_string())), span(0, 1)),
        (Token::UnverifiedString(Ok("q".to_string())), span(2, 5)),
    ]);
    let mut parser = Parser::new(tokens, "1 \"q\"".to_string(), FILE.to_string());
    assert_eq!(parser.parse(), Ok(num("1")));
    assert_eq!(parser.parse(), Ok(Node::String { value: "q".to_string() }));
}

#[test]
fn unverified_string_is_judged_when_it_is_taken() {
    let tokens: VecDeque<(Token, Span)> =
        VecDeque::from(vec![(Token::UnverifiedString(Ok("text".to_string())), span(0, 6))]);
    let mut parser = Parser::new(tokens, "\"text\"".to_string(), FILE.to_string());
    assert_eq!(parser.parse(), Ok(Node::String { value: "text".to_string() }));

    let tokens: VecDeque<(Token, Span)> =
        VecDeque::from(vec![(Token::UnverifiedString(Err("\\q".to_string())), span(0, 4))]);
    let mut parser = Parser::new(tokens, "\"\\q\"".to_string(), FILE.to_string());
    assert_eq!(
        parser.parse(),
        Err(GlassError::UnknownEscapeSequence {
            escape_sequence: "\\q".to_string(),
            src: "\"\\q\"".to_string(),
            filename: FILE.to_string(),
            span: span(0, 4),
        })
    );
}

#[test]
fn span_that_cuts_no_piece_of_the_text_gives_an_empty_escape() {
    let tokens: VecDeque<(Token, Span)> =
        VecDeque::from(vec![(Token::InvalidEscapeSequence, span(3, 90))]);
    let mut parser = Parser::new(tokens, "short".to_string(), FILE.to_string());
    assert_eq!(
        parser.parse(),
        Err(GlassError::UnknownEscapeSequence {
            escape_sequence: String::new(),
            src: "short".to_string(),
            filename: FILE.to_string(),
            span: span(3, 90),
        })
    );
}
