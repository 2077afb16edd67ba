use crate::lexer::{run_end, lemma_run_end, ByteClass};
use crate::span::Span;
use crate::text::{excerpt, lemma_boundary_after_ascii, on_boundary, slice, take_excerpt};
use crate::token::{Token, TokenView};
use crate::value::repeated;
use vstd::prelude::*;
use vstd::string::*;
use vstd::utf8::*;

verus! {

/// Why a stage of the pipeline gave up. Each kind owns what it takes to
/// report it: the source text and the bytes concerned, the name of the
/// source file, the token found and the token that was called for.
#[derive(Debug, PartialEq, Eq)]
pub enum GlassError {
    /// A fault that no input should bring about, with a description.
    UnknownError { error_message: String },
    FileNotFound { filename: String },
    /// A character that starts no token.
    UnknownToken { src: String, span: Span, filename: String },
    /// A string literal without its closing quote.
    UnclosedString { src: String, span: Span, filename: String },
    /// An escape inside a string literal that is not supported.
    UnknownEscapeSequence { escape_sequence: String, src: String, filename: String, span: Span },
    /// A token that the grammar has no use for where it stands; `expected`
    /// is the one token that would have done, if there is just one.
    UnexpectedToken {
        expected: Option<Token>,
        actual: Token,
        src: String,
        filename: String,
        span: Span,
    },
    /// The tokens ran out where the grammar called for more.
    UnexpectedEndOfInput { filename: String },
    /// A binary operator on a pair of types that it is not defined for.
    InvalidOperation { operation: String, left: String, right: String },
    /// A unary operator on a type that it is not defined for.
    InvalidUnaryOperation { operation: String, operand: String },
    /// Something that is not built yet.
    PlaceholderError { message: String },
}

/// An error with every text it carries as a sequence of characters.
pub enum ErrorView {
    UnknownError { error_message: Seq<char> },
    FileNotFound { filename: Seq<char> },
    UnknownToken { src: Seq<char>, span: Span, filename: Seq<char> },
    UnclosedString { src: Seq<char>, span: Span, filename: Seq<char> },
    UnknownEscapeSequence {
        escape_sequence: Seq<char>,
        src: Seq<char>,
        filename: Seq<char>,
        span: Span,
    },
    UnexpectedToken {
        expected: Option<TokenView>,
        actual: TokenView,
        src: Seq<char>,
        filename: Seq<char>,
        span: Span,
    },
    UnexpectedEndOfInput { filename: Seq<char> },
    InvalidOperation { operation: Seq<char>, left: Seq<char>, right: Seq<char> },
    InvalidUnaryOperation { operation: Seq<char>, operand: Seq<char> },
    PlaceholderError { message: Seq<char> },
}

impl ErrorView {
    /// The bytes of the source text that the error points at, for the
    /// errors that point into the source text.
    pub open spec fn place(self) -> Option<Span> {
        match self {
            ErrorView::UnknownToken { span, .. } => Some(span),
            ErrorView::UnclosedString { span, .. } => Some(span),
            ErrorView::UnknownEscapeSequence { span, .. } => Some(span),
            ErrorView::UnexpectedToken { span, .. } => Some(span),
            _ => None,
        }
    }
}

impl View for GlassError {
    type V = ErrorView;

    open spec fn view(&self) -> ErrorView {
        match self {
            GlassError::UnknownError { error_message } => ErrorView::UnknownError {
                error_message: error_message@,
            },
            GlassError::FileNotFound { filename } => ErrorView::FileNotFound {
                filename: filename@,
            },
            GlassError::UnknownToken { src, span, filename } => ErrorView::UnknownToken {
                src: src@,
                span: *span,
                filename: filename@,
            },
            GlassError::UnclosedString { src, span, filename } => ErrorView::UnclosedString {
                src: src@,
                span: *span,
                filename: filename@,
            },
            GlassError::UnknownEscapeSequence {
                escape_sequence,
                src,
                filename,
                span,
            } => ErrorView::UnknownEscapeSequence {
                escape_sequence: escape_sequence@,
                src: src@,
                filename: filename@,
                span: *span,
            },
            GlassError::UnexpectedToken {
                expected,
                actual,
                src,
                filename,
                span,
            } => ErrorView::UnexpectedToken {
                expected: match expected {
                    Some(token) => Some(token@),
                    None => None,
                },
                actual: actual@,
                src: src@,
                filename: filename@,
                span: *span,
            },
            GlassError::UnexpectedEndOfInput { filename } => ErrorView::UnexpectedEndOfInput {
                filename: filename@,
            },
            GlassError::InvalidOperation { operation, left, right } => ErrorView::InvalidOperation {
                operation: operation@,
                left: left@,
                right: right@,
            },
            GlassError::InvalidUnaryOperation {
                operation,
                operand,
            } => ErrorView::InvalidUnaryOperation { operation: operation@, operand: operand@ },
            GlassError::PlaceholderError { message } => ErrorView::PlaceholderError {
                message: message@,
            },
        }
    }
}

broadcast use vstd::utf8::group_utf8_lib;

/// The character has the Unicode property White_Space, by which
/// `str::trim` goes.
pub open spec fn white_space(c: char) -> bool {
    let code = c as u32;
    ||| 0x0009 <= code <= 0x000d
    ||| code == 0x0020
    ||| code == 0x0085
    ||| code == 0x00a0
    ||| code == 0x1680
    ||| 0x2000 <= code <= 0x200a
    ||| code == 0x2028
    ||| code == 0x2029
    ||| code == 0x202f
    ||| code == 0x205f
    ||| code == 0x3000
}

/// The text without the white space at its start.
pub open spec fn trimmed_start(text: Seq<char>) -> Seq<char>
    decreases text.len(),
{
    if text.len() > 0 && white_space(text[0]) {
        trimmed_start(text.drop_first())
    } else {
        text
    }
}

/// The text without the white space at its end.
pub open spec fn trimmed_end(text: Seq<char>) -> Seq<char>
    decreases text.len(),
{
    if text.len() > 0 && white_space(text.last()) {
        trimmed_end(text.drop_last())
    } else {
        text
    }
}

/// The text without the white space at its two ends.
pub open spec fn trimmed(text: Seq<char>) -> Seq<char> {
    trimmed_end(trimmed_start(text))
}

/// Calls `str::trim`, which gives the text without the white space at its
/// start and at its end. White space is what has the Unicode property
/// White_Space: the characters that `white_space` lists.
#[verifier::external_body]
fn trim(text: &str) -> (rest: &str)
    ensures
        rest@ == trimmed(text@),
{
    text.trim()
}

/// Where the line starts that `index` lies in: behind the last line feed
/// before `index`, or at the start of the text.
pub open spec fn line_start_of(s: Seq<u8>, index: int) -> int
    decreases index,
{
    if index <= 0 {
        0
    } else if s[index - 1] == '\n' as u8 {
        index
    } else {
        line_start_of(s, index - 1)
    }
}

/// Where the line ends that `index` lies in: at the first line feed from
/// `index` on, or at the end of the text; and one byte earlier where a
/// carriage return stands there.
pub open spec fn line_end_of(s: Seq<u8>, index: int) -> int {
    let end = run_end(s, index, ByteClass::NotNewline);
    if end > 0 && s[end - 1] == '\r' as u8 {
        end - 1
    } else {
        end
    }
}

/// Calls `line_span::find_line_start`, which looks for the last line feed
/// in the text before `index` and gives the position behind it, or 0.
/// It panics where `index` is no character boundary of the text.
#[verifier::external_body]
fn find_line_start(text: &str, index: usize) -> (start: usize)
    requires
        on_boundary(text.spec_bytes(), index as int),
    ensures
        start == line_start_of(text.spec_bytes(), index as int),
{
    line_span::find_line_start(text, index)
}

/// Calls `line_span::find_line_end`, which looks for the first line feed in
/// the text from `index` on and gives its position, or the length of the
/// text; where the byte before that is a carriage return, it gives the
/// position of that byte. It panics where `index` is no character boundary
/// of the text.
#[verifier::external_body]
fn find_line_end(text: &str, index: usize) -> (end: usize)
    requires
        on_boundary(text.spec_bytes(), index as int),
    ensures
        end == line_end_of(text.spec_bytes(), index as int),
{
    line_span::find_line_end(text, index)
}

/// The number of line feeds before `end`.
pub open spec fn line_feeds(s: Seq<u8>, end: int) -> nat
    decreases end,
{
    if end <= 0 {
        0
    } else if s[end - 1] == '\n' as u8 {
        line_feeds(s, end - 1) + 1
    } else {
        line_feeds(s, end - 1)
    }
}

/// The decimal digit for a number below ten.
pub open spec fn digit(n: nat) -> char {
    if n == 0 {
        '0'
    } else if n == 1 {
        '1'
    } else if n == 2 {
        '2'
    } else if n == 3 {
        '3'
    } else if n == 4 {
        '4'
    } else if n == 5 {
        '5'
    } else if n == 6 {
        '6'
    } else if n == 7 {
        '7'
    } else if n == 8 {
        '8'
    } else {
        '9'
    }
}

/// A number written in decimal digits.
pub open spec fn decimal(n: nat) -> Seq<char>
    decreases n,
{
    if n < 10 {
        seq![digit(n)]
    } else {
        decimal(n / 10).push(digit(n % 10))
    }
}

/// The token that an error points at, as it stands in the source text,
/// without the white space around it.
pub open spec fn token_text(src: Seq<char>, span: Span) -> Seq<char> {
    trimmed(excerpt(encode_utf8(src), span))
}

/// The place of an error as it is laid out: the line, under it carets
/// for `width` columns from `column` on, as far as the line reaches, and in
/// brackets the file, the number of the line and the columns.
pub open spec fn laid_out(
    line: Seq<char>,
    filename: Seq<char>,
    number: nat,
    column: nat,
    width: nat,
) -> Seq<char> {
    let room = if encode_utf8(line).len() >= column {
        (encode_utf8(line).len() - column) as nat
    } else {
        0
    };
    "\n\n\t"@ + line + "\n\t"@ + repeated(" "@, column) + repeated(
        "^"@,
        if width <= room {
            width
        } else {
            room
        },
    ) + "\n["@ + filename + "(Ln:"@ + decimal(number) + ", Col:"@ + decimal(column) + ".."@
        + decimal(column + width) + ")]"@
}

/// Where an error lies: the line that the span starts in, without the white
/// space at its ends, laid out with the columns of the span, which are
/// counted in bytes from the start of the line, and the number of the line,
/// counted from 1. A span that starts at no character of the text is
/// located by the file alone.
pub open spec fn location(src: Seq<char>, filename: Seq<char>, span: Span) -> Seq<char> {
    let s = encode_utf8(src);
    if span.start <= span.end && on_boundary(s, span.start as int) {
        let start = line_start_of(s, span.start as int);
        laid_out(
            trimmed(decode_utf8(s.subrange(start, line_end_of(s, span.start as int)))),
            filename,
            line_feeds(s, span.start as int) + 1,
            (span.start - start) as nat,
            (span.end - span.start) as nat,
        )
    } else {
        "\n["@ + filename + "]"@
    }
}

/// The message of an error, given the token that it points at as it
/// stands in the source text (`found`) and where it lies (`place`): one
/// line that says what went wrong, and for an error in the source text the
/// place. `version` and `revision` name the build in the message of an
/// unknown error.
pub open spec fn composed(
    error: ErrorView,
    found: Seq<char>,
    place: Seq<char>,
    version: Seq<char>,
    revision: Seq<char>,
) -> Seq<char> {
    match error {
        ErrorView::UnknownError { error_message } => "Unknown error '"@ + error_message
            + "'. Please report this bug with the following information: Glass Version = '"@
            + version + "', Git Revision = '"@ + revision + "'"@,
        ErrorView::FileNotFound { filename } => "File '"@ + filename + "' not found"@,
        ErrorView::UnknownToken { .. } => "Unknown token '"@ + found + "' encountered at "@
            + place,
        ErrorView::UnclosedString { .. } => "Unclosed string literal starting at "@ + place,
        ErrorView::UnknownEscapeSequence { escape_sequence, .. } => "Unknown escape sequence '"@
            + escape_sequence + "' at "@ + place,
        ErrorView::UnexpectedToken { expected, .. } => match expected {
            Some(token) => "Expected '"@ + rep_of(token) + "' but found '"@ + found
                + "' instead at "@ + place,
            None => "Unexpected token '"@ + found + "' at "@ + place,
        },
        ErrorView::UnexpectedEndOfInput {
            filename,
        } => "Unexpected end of file in source file '"@ + filename + "'"@,
        ErrorView::InvalidOperation { operation, left, right } => "Cannot use operation '"@
            + operation + "' on type '"@ + left + "' and '"@ + right + "'"@,
        ErrorView::InvalidUnaryOperation { operation, operand } => "Unary operator '"@
            + operation + "' cannot be applied to type '"@ + operand + "'"@,
        ErrorView::PlaceholderError { message } => message,
    }
}

/// The message of an error: for an error in the source text, composed
/// with the token that its span cuts out of the text and with the location
/// of the span; for any other error, composed of what the error holds.
pub open spec fn message_of(error: ErrorView, version: Seq<char>, revision: Seq<char>) -> Seq<
    char,
> {
    match error {
        ErrorView::UnknownToken { src, span, filename } => composed(
            error,
            token_text(src, span),
            location(src, filename, span),
            version,
            revision,
        ),
        ErrorView::UnclosedString { src, span, filename } => composed(
            error,
            token_text(src, span),
            location(src, filename, span),
            version,
            revision,
        ),
        ErrorView::UnknownEscapeSequence { src, span, filename, .. } => composed(
            error,
            token_text(src, span),
            location(src, filename, span),
            version,
            revision,
        ),
        ErrorView::UnexpectedToken { src, span, filename, .. } => composed(
            error,
            token_text(src, span),
            location(src, filename, span),
            version,
            revision,
        ),
        _ => composed(error, Seq::empty(), Seq::empty(), version, revision),
    }
}

/// How a token is named in a message, by its view.
pub open spec fn rep_of(token: TokenView) -> Seq<char> {
    match token {
        TokenView::Number(_) => "number"@,
        TokenView::Identifier(_) => "identifier"@,
        TokenView::String(_) => "string"@,
        TokenView::UnverifiedString(_) => "unverified string"@,
        TokenView::Fixed(fixed) => fixed.rep(),
    }
}

/// The decimal digit for a number below ten, as a text.
fn digit_text(n: u128) -> (text: &'static str)
    requires
        n < 10,
    ensures
        text@ == seq![digit(n as nat)],
{
    proof {
        reveal_strlit("0");
        reveal_strlit("1");
        reveal_strlit("2");
        reveal_strlit("3");
        reveal_strlit("4");
        reveal_strlit("5");
        reveal_strlit("6");
        reveal_strlit("7");
        reveal_strlit("8");
        reveal_strlit("9");
    }
    let text = if n == 0 {
        "0"
    } else if n == 1 {
        "1"
    } else if n == 2 {
        "2"
    } else if n == 3 {
        "3"
    } else if n == 4 {
        "4"
    } else if n == 5 {
        "5"
    } else if n == 6 {
        "6"
    } else if n == 7 {
        "7"
    } else if n == 8 {
        "8"
    } else {
        "9"
    };
    text
}

/// Writes a number in decimal digits.
pub fn write_decimal(n: u128) -> (text: String)
    ensures
        text@ == decimal(n as nat),
    decreases n,
{
    if n < 10 {
        digit_text(n).to_owned()
    } else {
        let mut text = write_decimal(n / 10);
        text.append(digit_text(n % 10));
        text
    }
}

/// `text`, `n` times in a row.
fn repeat(text: &str, n: usize) -> (out: String)
    ensures
        out@ == repeated(text@, n as nat),
{
    let mut out = String::new();
    let mut i: usize = 0;
    while i < n
        invariant
            i <= n,
            out@ == repeated(text@, i as nat),
        decreases n - i,
    {
        out.append(text);
        i += 1;
    }
    out
}

proof fn lemma_line_start(s: Seq<u8>, index: int)
    requires
        0 <= index <= s.len(),
    ensures
        0 <= line_start_of(s, index) <= index,
        line_start_of(s, index) > 0 ==> s[line_start_of(s, index) - 1] == '\n' as u8,
        line_feeds(s, line_start_of(s, index)) == line_feeds(s, index),
    decreases index,
{
    if index > 0 && s[index - 1] != '\n' as u8 {
        lemma_line_start(s, index - 1);
    }
}

/// The number of line feeds before `end`.
fn count_line_feeds(bytes: &[u8], end: usize) -> (n: usize)
    requires
        end <= bytes.len(),
    ensures
        n == line_feeds(bytes@, end as int),
        n <= end,
{
    let mut n: usize = 0;
    let mut i: usize = 0;
    while i < end
        invariant
            i <= end <= bytes.len(),
            n <= i,
            n == line_feeds(bytes@, i as int),
        decreases end - i,
    {
        if bytes[i] == '\n' as u8 {
            n += 1;
        }
        i += 1;
    }
    n
}

/// The token that an error points at, as it stands in the source text.
fn get_token<'a>(src: &'a str, span: Span) -> (text: &'a str)
    ensures
        text@ == token_text(src@, span),
{
    trim(take_excerpt(src, span))
}

/// Lays out the place of an error: the line, the carets under it, and
/// the file with the number of the line and the columns.
pub fn lay_out(line: &str, filename: &str, number: u128, column: usize, width: usize) -> (text:
    String)
    ensures
        text@ == laid_out(line@, filename@, number as nat, column as nat, width as nat),
{
    let length = line.as_bytes().len();
    let room = if length >= column {
        length - column
    } else {
        0
    };
    let mut text = String::new();
    text.append("\n\n\t");
    text.append(line);
    text.append("\n\t");
    text.append(repeat(" ", column).as_str());
    text.append(repeat("^", if width <= room { width } else { room }).as_str());
    text.append("\n[");
    text.append(filename);
    text.append("(Ln:");
    text.append(write_decimal(number).as_str());
    text.append(", Col:");
    text.append(write_decimal(column as u128).as_str());
    text.append("..");
    text.append(write_decimal(column as u128 + width as u128).as_str());
    text.append(")]");
    text
}

/// Where an error lies, as `location` says.
fn get_line(src: &str, filename: &str, span: Span) -> (text: String)
    ensures
        text@ == location(src@, filename@, span),
{
    let bytes = src.as_bytes();
    if !(span.start <= span.end && crate::text::boundary(bytes, span.start)) {
        let mut text = String::new();
        text.append("\n[");
        text.append(filename);
        text.append("]");
        return text;
    }
    let start = find_line_start(src, span.start);
    let end = find_line_end(src, span.start);
    proof {
        let s = bytes@;
        let index = span.start as int;
        lemma_line_start(s, index);
        lemma_run_end(s, index, ByteClass::NotNewline);
        if start > 0 {
            lemma_boundary_after_ascii(s, start - 1);
        }
    }
    let line = trim(slice(src, start, end));
    let number = count_line_feeds(bytes, span.start);
    lay_out(line, filename, number as u128 + 1, span.start - start, span.end - span.start)
}

impl GlassError {
    /// Composes the message of the error from the token that it points at
    /// as it stands in the source text (`found`) and from where it lies
    /// (`place`). `version` and `revision` name the build in the message of
    /// an unknown error.
    pub fn compose(&self, found: &str, place: &str, version: &str, revision: &str) -> (text:
        String)
        ensures
            text@ == composed(self@, found@, place@, version@, revision@),
    {
        let mut text = String::new();
        match self {
            GlassError::UnknownError { error_message } => {
                text.append("Unknown error '");
                text.append(error_message.as_str());
                text.append(
                    "'. Please report this bug with the following information: Glass Version = '",
                );
                text.append(version);
                text.append("', Git Revision = '");
                text.append(revision);
                text.append("'");
            },
            GlassError::FileNotFound { filename } => {
                text.append("File '");
                text.append(filename.as_str());
                text.append("' not found");
            },
            GlassError::UnknownToken { .. } => {
                text.append("Unknown token '");
                text.append(found);
                text.append("' encountered at ");
                text.append(place);
            },
            GlassError::UnclosedString { .. } => {
                text.append("Unclosed string literal starting at ");
                text.append(place);
            },
            GlassError::UnknownEscapeSequence { escape_sequence, .. } => {
                text.append("Unknown escape sequence '");
                text.append(escape_sequence.as_str());
                text.append("' at ");
                text.append(place);
            },
            GlassError::UnexpectedToken { expected, .. } => {
                match expected {
                    Some(token) => {
                        text.append("Expected '");
                        text.append(token.get_rep());
                        text.append("' but found '");
                        text.append(found);
                        text.append("' instead at ");
                    },
                    None => {
                        text.append("Unexpected token '");
                        text.append(found);
                        text.append("' at ");
                    },
                }
                text.append(place);
            },
            GlassError::UnexpectedEndOfInput { filename } => {
                text.append("Unexpected end of file in source file '");
                text.append(filename.as_str());
                text.append("'");
            },
            GlassError::InvalidOperation { operation, left, right } => {
                text.append("Cannot use operation '");
                text.append(operation.as_str());
                text.append("' on type '");
                text.append(left.as_str());
                text.append("' and '");
                text.append(right.as_str());
                text.append("'");
            },
            GlassError::InvalidUnaryOperation { operation, operand } => {
                text.append("Unary operator '");
                text.append(operation.as_str());
                text.append("' cannot be applied to type '");
                text.append(operand.as_str());
                text.append("'");
            },
            GlassError::PlaceholderError { message } => {
                text.append(message.as_str());
            },
        }
        text
    }

    /// The message of the error. `version` and `revision` name the build
    /// in the message of an unknown error.
    pub fn message(&self, version: &str, revision: &str) -> (text: String)
        ensures
            text@ == message_of(self@, version@, revision@),
    {
        match self {
            GlassError::UnknownToken { src, span, filename }
            | GlassError::UnclosedString { src, span, filename }
            | GlassError::UnknownEscapeSequence { src, span, filename, .. }
            | GlassError::UnexpectedToken { src, span, filename, .. } => {
                let found = get_token(src.as_str(), *span);
                let place = get_line(src.as_str(), filename.as_str(), *span);
                self.compose(found, place.as_str(), version, revision)
            },
            _ => {
                proof {
                    reveal_strlit("");
                }
                self.compose("", "", version, revision)
            },
        }
    }
}

} // verus!
