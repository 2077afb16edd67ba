use glass::error::{lay_out, write_decimal, GlassError};
use glass::span::Span;
use glass::token::Token;

const VERSION: &str = "0.1.0";
const REVISION: &str = "abc1234";

fn message(error: &GlassError) -> String {
    error.message(VERSION, REVISION)
}

fn span(start: usize, end: usize) -> Span {
    Span { start, end }
}

#[test]
fn unknown_error_names_the_build() {
    let error = GlassError::UnknownError { error_message: "boom".to_string() };
    assert_eq!(
        message(&error),
        "Unknown error 'boom'. Please report this bug with the following information: Glass Version = '0.1.0', Git Revision = 'abc1234'"
    );
}

#[test]
fn file_not_found_names_the_file() {
    let error = GlassError::FileNotFound { filename: "a.glass".to_string() };
    assert_eq!(message(&error), "File 'a.glass' not found");
}

#[test]
fn unknown_token_points_at_the_token() {
    let error = GlassError::UnknownToken {
        src: "1 + @".to_string(),
        span: span(4, 5),
        filename: "a.glass".to_string(),
    };
    assert_eq!(
        message(&error),
        "Unknown token '@' encountered at \n\n\t1 + @\n\t    ^\n[a.glass(Ln:1, Col:4..5)]"
    );
}

#[test]
fn location_counts_lines_from_one() {
    let error = GlassError::UnknownToken {
        src: "1 +\n2 * $$$ 4\n5".to_string(),
        span: span(8, 11),
        filename: "a.glass".to_string(),
    };
    assert_eq!(
        message(&error),
        "Unknown token '$$$' encountered at \n\n\t2 * $$$ 4\n\t    ^^^\n[a.glass(Ln:2, Col:4..7)]"
    );
    let error = GlassError::UnknownToken {
        src: "a\nb\nc\n@".to_string(),
        span: span(6, 7),
        filename: "a.glass".to_string(),
    };
    assert_eq!(
        message(&error),
        "Unknown token '@' encountered at \n\n\t@\n\t^\n[a.glass(Ln:4, Col:0..1)]"
    );
}

#[test]
fn line_ends_before_a_carriage_return() {
    let error = GlassError::UnknownToken {
        src: "1 + 2\r\n3 ? 4\r\n5".to_string(),
        span: span(9, 10),
        filename: "a.glass".to_string(),
    };
    assert_eq!(
        message(&error),
        "Unknown token '?' encountered at \n\n\t3 ? 4\n\t  ^\n[a.glass(Ln:2, Col:2..3)]"
    );
}

#[test]
fn carets_stop_at_the_end_of_the_line() {
    let error = GlassError::UnclosedString {
        src: "x + \"abc".to_string(),
        span: span(4, 20),
        filename: "a.glass".to_string(),
    };
    assert_eq!(
        message(&error),
        "Unclosed string literal starting at \n\n\tx + \"abc\n\t    ^^^^\n[a.glass(Ln:1, Col:4..20)]"
    );
}

#[test]
fn line_is_shown_without_the_white_space_at_its_ends() {
    let error = GlassError::UnknownToken {
        src: "1 +\n  $".to_string(),
        span: span(6, 7),
        filename: "a.glass".to_string(),
    };
    assert_eq!(
        message(&error),
        "Unknown token '$' encountered at \n\n\t$\n\t  \n[a.glass(Ln:2, Col:2..3)]"
    );
}

#[test]
fn unclosed_string_message() {
    let error = GlassError::UnclosedString {
        src: "\"abc".to_string(),
        span: span(0, 4),
        filename: "a.glass".to_string(),
    };
    assert_eq!(
        message(&error),
        "Unclosed string literal starting at \n\n\t\"abc\n\t^^^^\n[a.glass(Ln:1, Col:0..4)]"
    );
}

#[test]
fn unknown_escape_sequence_message() {
    let error = GlassError::UnknownEscapeSequence {
        escape_sequence: "\\q".to_string(),
        src: "\"a\\qb\"".to_string(),
        filename: "a.glass".to_string(),
        span: span(2, 4),
    };
    assert_eq!(
        message(&error),
        "Unknown escape sequence '\\q' at \n\n\t\"a\\qb\"\n\t  ^^\n[a.glass(Ln:1, Col:2..4)]"
    );
}

#[test]
fn unexpected_token_message_with_an_expectation() {
    let error = GlassError::UnexpectedToken {
        expected: Some(Token::RParen),
        actual: Token::Semicolon,
        src: "(1 ;".to_string(),
        filename: "a.glass".to_string(),
        span: span(3, 4),
    };
    assert_eq!(
        message(&error),
        "Expected ')' but found ';' instead at \n\n\t(1 ;\n\t   ^\n[a.glass(Ln:1, Col:3..4)]"
    );
}

#[test]
fn unexpected_token_message_without_an_expectation() {
    let error = GlassError::UnexpectedToken {
        expected: None,
        actual: Token::Star,
        src: "1 + *".to_string(),
        filename: "a.glass".to_string(),
        span: span(4, 5),
    };
    assert_eq!(
        message(&error),
        "Unexpected token '*' at \n\n\t1 + *\n\t    ^\n[a.glass(Ln:1, Col:4..5)]"
    );
}

#[test]
fn unexpected_end_of_input_message() {
    let error = GlassError::UnexpectedEndOfInput { filename: "a.glass".to_string() };
    assert_eq!(message(&error), "Unexpected end of file in source file 'a.glass'");
}

#[test]
fn invalid_operation_message() {
    let error = GlassError::InvalidOperation {
        operation: "+".to_string(),
        left: "number".to_string(),
        right: "boolean".to_string(),
    };
    assert_eq!(message(&error), "Cannot use operation '+' on type 'number' and 'boolean'");
}

#[test]
fn invalid_unary_operation_message() {
    let error = GlassError::InvalidUnaryOperation {
        operation: "-".to_string(),
        operand: "string".to_string(),
    };
    assert_eq!(message(&error), "Unary operator '-' cannot be applied to type 'string'");
}

#[test]
fn placeholder_message_is_the_message() {
    let error = GlassError::PlaceholderError { message: "REPL not implemented yet".to_string() };
    assert_eq!(message(&error), "REPL not implemented yet");
}

#[test]
fn span_at_no_character_is_located_by_the_file_alone() {
    let error = GlassError::UnknownToken {
        src: "é".to_string(),
        span: span(1, 2),
        filename: "a.glass".to_string(),
    };
    assert_eq!(message(&error), "Unknown token '' encountered at \n[a.glass]");
    let error = GlassError::UnclosedString {
        src: "abc".to_string(),
        span: span(7, 9),
        filename: "a.glass".to_string(),
    };
    assert_eq!(message(&error), "Unclosed string literal starting at \n[a.glass]");
    let error = GlassError::UnclosedString {
        src: "abc".to_string(),
        span: span(2, 1),
        filename: "a.glass".to_string(),
    };
    assert_eq!(message(&error), "Unclosed string literal starting at \n[a.glass]");
}

#[test]
fn span_at_the_end_of_the_text() {
    let error = GlassError::UnknownToken {
        src: "1 +".to_string(),
        span: span(3, 3),
        filename: "a.glass".to_string(),
    };
    assert_eq!(
        message(&error),
        "Unknown token '' encountered at \n\n\t1 +\n\t   \n[a.glass(Ln:1, Col:3..3)]"
    );
}

#[test]
fn multibyte_token_is_quoted_whole() {
    let error = GlassError::UnknownToken {
        src: "1 + 東".to_string(),
        span: span(4, 7),
        filename: "a.glass".to_string(),
    };
    assert_eq!(
        message(&error),
        "Unknown token '東' encountered at \n\n\t1 + 東\n\t    ^^^\n[a.glass(Ln:1, Col:4..7)]"
    );
}

#[test]
fn decimal_digits() {
    assert_eq!(write_decimal(0), "0");
    assert_eq!(write_decimal(7), "7");
    assert_eq!(write_decimal(10), "10");
    assert_eq!(write_decimal(1234567890), "1234567890");
    assert_eq!(write_decimal(u128::MAX), "340282366920938463463374607431768211455");
}

#[test]
fn token_is_quoted_without_the_white_space_around_it() {
    let error = GlassError::UnexpectedToken {
        expected: None,
        actual: Token::Star,
        src: "1 +  *  ".to_string(),
        filename: "a.glass".to_string(),
        span: span(3, 8),
    };
    assert_eq!(
        message(&error),
        "Unexpected token '*' at \n\n\t1 +  *\n\t   ^^^\n[a.glass(Ln:1, Col:3..8)]"
    );
}

#[test]
fn lay_out_draws_carets_as_far_as_the_line_reaches() {
    assert_eq!(lay_out("abc", "f", 3, 1, 1), "\n\n\tabc\n\t ^\n[f(Ln:3, Col:1..2)]");
    assert_eq!(lay_out("abc", "f", 3, 1, 9), "\n\n\tabc\n\t ^^\n[f(Ln:3, Col:1..10)]");
    assert_eq!(lay_out("abc", "f", 12, 3, 2), "\n\n\tabc\n\t   \n[f(Ln:12, Col:3..5)]");
    assert_eq!(lay_out("abc", "f", 1, 5, 2), "\n\n\tabc\n\t     \n[f(Ln:1, Col:5..7)]");
    assert_eq!(lay_out("", "", 0, 0, 0), "\n\n\t\n\t\n[(Ln:0, Col:0..0)]");
}

#[test]
fn compose_puts_the_parts_of_a_message_together() {
    let error = GlassError::UnexpectedToken {
        expected: Some(Token::RParen),
        actual: Token::Semicolon,
        src: String::new(),
        filename: String::new(),
        span: span(0, 0),
    };
    assert_eq!(
        error.compose(";", " <here>", VERSION, REVISION),
        "Expected ')' but found ';' instead at  <here>"
    );
    let error = GlassError::UnknownToken {
        src: String::new(),
        span: span(0, 0),
        filename: String::new(),
    };
    assert_eq!(
        error.compose("@", "<here>", VERSION, REVISION),
        "Unknown token '@' encountered at <here>"
    );
    let error = GlassError::FileNotFound { filename: "x".to_string() };
    assert_eq!(error.compose("@", "<here>", VERSION, REVISION), "File 'x' not found");
}

#[test]
fn white_space_of_every_kind_is_trimmed_from_the_token() {
    let blanks = "\u{9}\u{a}\u{b}\u{c}\u{d}\u{20}\u{85}\u{a0}\u{1680}\u{2000}\u{2001}\u{2002}\u{2003}\u{2004}\u{2005}\u{2006}\u{2007}\u{2008}\u{2009}\u{200a}\u{2028}\u{2029}\u{202f}\u{205f}\u{3000}";
    let src = format!("{}@{}", blanks, blanks);
    let error = GlassError::UnknownToken {
        src: src.clone(),
        span: span(0, src.len()),
        filename: "a.glass".to_string(),
    };
    assert_eq!(error.compose("", "", VERSION, REVISION), "Unknown token '' encountered at ");
    assert!(message(&error).starts_with("Unknown token '@' encountered at "));
}

#[test]
fn only_white_space_is_trimmed_from_the_token() {
    for c in ['\u{8}', '\u{e}', '\u{1f}', '\u{21}', '\u{84}', '\u{86}', '\u{9f}', '\u{a1}',
        '\u{167f}', '\u{1681}', '\u{180e}', '\u{1fff}', '\u{200b}', '\u{200c}', '\u{2027}',
        '\u{202a}', '\u{202e}', '\u{2030}', '\u{205e}', '\u{2060}', '\u{2fff}', '\u{3001}',
        '\u{feff}', '_', '0']
    {
        let src = format!("{}@{}", c, c);
        let error = GlassError::UnknownToken {
            src: src.clone(),
            span: span(0, src.len()),
            filename: "a.glass".to_string(),
        };
        assert!(
            message(&error).starts_with(&format!("Unknown token '{}' encountered at ", src)),
            "{:?}",
            c
        );
    }
}

#[test]
fn white_space_is_what_the_standard_library_takes_for_it() {
    let listed = |code: u32| {
        (0x9..=0xd).contains(&code)
            || [0x20, 0x85, 0xa0, 0x1680, 0x2028, 0x2029, 0x202f, 0x205f, 0x3000].contains(&code)
            || (0x2000..=0x200a).contains(&code)
    };
    for code in 0..=0x10ffffu32 {
        if let Some(c) = char::from_u32(code) {
            assert_eq!(c.is_whitespace(), listed(code), "{:x}", code);
        }
    }
}
