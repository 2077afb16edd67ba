use crate::escape::{content, outcome_view, replaced, unescape_quoted, unescaped};
use crate::number::{binade, lemma_binade, lemma_nearest_scaled, nearest, round_scaled};
use vstd::arithmetic::power2::*;
use crate::span::Span;
use crate::text::{cuts, lemma_boundary_after_ascii, on_boundary, same_text, slice};
use crate::token::{NumberLiteral, NumberLiteralView, Token, TokenView};
use std::collections::VecDeque;
use vstd::prelude::*;
use vstd::string::*;
use vstd::utf8::*;

verus! {

broadcast use vstd::utf8::group_utf8_lib;

/// A set of bytes that a run of the source text is made of.
#[derive(Clone, Copy, Debug, PartialEq, Eq, Structural)]
pub enum ByteClass {
    /// `0` to `9`
    Digit,
    /// `0` to `9`, `a` to `f`, `A` to `F`
    Hex,
    /// `0` to `7`
    Octal,
    /// `0` and `1`
    Binary,
    /// letters, digits and `_`
    Word,
    /// space, tab, line feed, carriage return
    Space,
    /// the second and later bytes of a character's UTF-8 encoding
    Continuation,
    /// every byte but the line feed
    NotNewline,
}

impl ByteClass {
    /// The byte belongs to the class.
    pub open spec fn has(self, b: u8) -> bool {
        match self {
            ByteClass::Digit => '0' as u8 <= b <= '9' as u8,
            ByteClass::Hex => ('0' as u8 <= b <= '9' as u8) || ('a' as u8 <= b <= 'f' as u8) || (
            'A' as u8 <= b <= 'F' as u8),
            ByteClass::Octal => '0' as u8 <= b <= '7' as u8,
            ByteClass::Binary => b == '0' as u8 || b == '1' as u8,
            ByteClass::Word => ('0' as u8 <= b <= '9' as u8) || ('a' as u8 <= b <= 'z' as u8) || (
            'A' as u8 <= b <= 'Z' as u8) || b == '_' as u8,
            ByteClass::Space => b == ' ' as u8 || b == '\t' as u8 || b == '\n' as u8 || b
                == '\r' as u8,
            ByteClass::Continuation => 0x80 <= b <= 0xbf,
            ByteClass::NotNewline => b != '\n' as u8,
        }
    }

    /// Whether the byte belongs to the class.
    pub fn holds(self, b: u8) -> (r: bool)
        ensures
            r == self.has(b),
    {
        match self {
            ByteClass::Digit => '0' as u8 <= b && b <= '9' as u8,
            ByteClass::Hex => ('0' as u8 <= b && b <= '9' as u8) || ('a' as u8 <= b && b
                <= 'f' as u8) || ('A' as u8 <= b && b <= 'F' as u8),
            ByteClass::Octal => '0' as u8 <= b && b <= '7' as u8,
            ByteClass::Binary => b == '0' as u8 || b == '1' as u8,
            ByteClass::Word => ('0' as u8 <= b && b <= '9' as u8) || ('a' as u8 <= b && b
                <= 'z' as u8) || ('A' as u8 <= b && b <= 'Z' as u8) || b == '_' as u8,
            ByteClass::Space => b == ' ' as u8 || b == '\t' as u8 || b == '\n' as u8 || b
                == '\r' as u8,
            ByteClass::Continuation => 0x80 <= b && b <= 0xbf,
            ByteClass::NotNewline => b != '\n' as u8,
        }
    }
}

/// The byte at `i`, or -1 outside the text.
pub open spec fn at(s: Seq<u8>, i: int) -> int {
    if 0 <= i < s.len() {
        s[i] as int
    } else {
        -1
    }
}

/// Where the longest run of bytes of `class` that starts at `pos` ends.
pub open spec fn run_end(s: Seq<u8>, pos: int, class: ByteClass) -> int
    decreases s.len() - pos,
{
    if 0 <= pos < s.len() && class.has(s[pos]) {
        run_end(s, pos + 1, class)
    } else {
        pos
    }
}

/// A run ends inside the text, every byte of it is of the class, and the
/// byte behind it is not.
pub proof fn lemma_run_end(s: Seq<u8>, pos: int, class: ByteClass)
    ensures
        pos <= run_end(s, pos, class),
        0 <= pos <= s.len() ==> run_end(s, pos, class) <= s.len(),
        forall|i: int| 0 <= pos <= i < run_end(s, pos, class) ==> class.has(#[trigger] s[i]),
        0 <= pos && run_end(s, pos, class) < s.len() ==> !class.has(s[run_end(s, pos, class)]),
    decreases s.len() - pos,
{
    if 0 <= pos < s.len() && class.has(s[pos]) {
        lemma_run_end(s, pos + 1, class);
    }
}

/// Where the blank stretch that starts at `pos` ends: white space and
/// comments, which run from `//` to the end of the line.
pub open spec fn skip_blank(s: Seq<u8>, pos: int) -> int
    decreases s.len() - pos,
{
    if pos < 0 || pos >= s.len() {
        pos
    } else if ByteClass::Space.has(s[pos]) {
        skip_blank(s, pos + 1)
    } else if s[pos] == '/' as u8 && at(s, pos + 1) == '/' as u8 {
        proof {
            lemma_run_end(s, pos + 2, ByteClass::NotNewline);
        }
        skip_blank(s, run_end(s, pos + 2, ByteClass::NotNewline))
    } else {
        pos
    }
}

/// A blank stretch ends inside the text, and no blank stretch starts
/// where one ends.
pub proof fn lemma_skip_blank(s: Seq<u8>, pos: int)
    requires
        0 <= pos <= s.len(),
    ensures
        pos <= skip_blank(s, pos) <= s.len(),
        skip_blank(s, skip_blank(s, pos)) == skip_blank(s, pos),
    decreases s.len() - pos,
{
    if pos >= s.len() {
    } else if ByteClass::Space.has(s[pos]) {
        lemma_skip_blank(s, pos + 1);
    } else if s[pos] == '/' as u8 && at(s, pos + 1) == '/' as u8 {
        lemma_run_end(s, pos + 2, ByteClass::NotNewline);
        lemma_skip_blank(s, run_end(s, pos + 2, ByteClass::NotNewline));
    }
}

/// The operator or punctuation mark that starts at `pos`, the longest there
/// is, with its length.
pub open spec fn symbol_at(s: Seq<u8>, pos: int) -> Option<(Token, int)> {
    let a = at(s, pos);
    let b = at(s, pos + 1);
    let c = at(s, pos + 2);
    if a == '+' as u8 {
        if b == '=' as u8 {
            Some((Token::PlusEqual, 2))
        } else {
            Some((Token::Plus, 1))
        }
    } else if a == '-' as u8 {
        if b == '=' as u8 {
            Some((Token::MinusEqual, 2))
        } else {
            Some((Token::Minus, 1))
        }
    } else if a == '*' as u8 {
        if b == '*' as u8 {
            if c == '=' as u8 {
                Some((Token::StarStarEqual, 3))
            } else {
                Some((Token::StarStar, 2))
            }
        } else if b == '=' as u8 {
            Some((Token::StarEqual, 2))
        } else {
            Some((Token::Star, 1))
        }
    } else if a == '/' as u8 {
        if b == '=' as u8 {
            Some((Token::SlashEqual, 2))
        } else {
            Some((Token::Slash, 1))
        }
    } else if a == '%' as u8 {
        if b == '=' as u8 {
            Some((Token::PercentEqual, 2))
        } else {
            Some((Token::Percent, 1))
        }
    } else if a == '=' as u8 {
        if b == '=' as u8 {
            Some((Token::EqualEqual, 2))
        } else if b == '>' as u8 {
            Some((Token::Arrow, 2))
        } else {
            Some((Token::Equal, 1))
        }
    } else if a == '!' as u8 {
        if b == '=' as u8 {
            Some((Token::ExclamationEqual, 2))
        } else {
            None
        }
    } else if a == '<' as u8 {
        if b == '=' as u8 {
            Some((Token::LessThanEqual, 2))
        } else {
            Some((Token::LessThan, 1))
        }
    } else if a == '>' as u8 {
        if b == '=' as u8 {
            Some((Token::GreaterThanEqual, 2))
        } else {
            Some((Token::GreaterThan, 1))
        }
    } else if a == '(' as u8 {
        Some((Token::LParen, 1))
    } else if a == ')' as u8 {
        Some((Token::RParen, 1))
    } else if a == '{' as u8 {
        Some((Token::LBrace, 1))
    } else if a == '}' as u8 {
        Some((Token::RBrace, 1))
    } else if a == '[' as u8 {
        Some((Token::LBracket, 1))
    } else if a == ']' as u8 {
        Some((Token::RBracket, 1))
    } else if a == ';' as u8 {
        Some((Token::Semicolon, 1))
    } else if a == ',' as u8 {
        Some((Token::Comma, 1))
    } else if a == '.' as u8 {
        if b == '.' as u8 {
            if c == '.' as u8 {
                Some((Token::DotDotDot, 3))
            } else if c == '=' as u8 {
                Some((Token::DotDotEqual, 3))
            } else {
                Some((Token::DotDot, 2))
            }
        } else {
            Some((Token::Dot, 1))
        }
    } else if a == '#' as u8 {
        Some((Token::Hash, 1))
    } else {
        None
    }
}

/// The keyword that `text` spells, if it spells one.
pub open spec fn keyword(text: Seq<char>) -> Option<Token> {
    if text == "not"@ {
        Some(Token::Not)
    } else if text == "and"@ {
        Some(Token::And)
    } else if text == "or"@ {
        Some(Token::Or)
    } else if text == "if"@ {
        Some(Token::If)
    } else if text == "else"@ {
        Some(Token::Else)
    } else if text == "while"@ {
        Some(Token::While)
    } else if text == "for"@ {
        Some(Token::For)
    } else if text == "in"@ {
        Some(Token::In)
    } else if text == "return"@ {
        Some(Token::Return)
    } else if text == "break"@ {
        Some(Token::Break)
    } else if text == "continue"@ {
        Some(Token::Continue)
    } else if text == "import"@ {
        Some(Token::Import)
    } else if text == "match"@ {
        Some(Token::Match)
    } else if text == "true"@ {
        Some(Token::True)
    } else if text == "false"@ {
        Some(Token::False)
    } else if text == "void"@ {
        Some(Token::Void)
    } else if text == "func"@ {
        Some(Token::Func)
    } else {
        None
    }
}

/// A word is a keyword where it spells one, and an identifier otherwise.
pub open spec fn word_token(text: Seq<char>) -> TokenView {
    match keyword(text) {
        Some(token) => TokenView::Fixed(token),
        None => TokenView::Identifier(text),
    }
}

/// What a digit of a hexadecimal, octal or binary literal counts for.
pub open spec fn digit_value(b: u8) -> int {
    if b <= '9' as u8 {
        b - '0' as u8
    } else if b >= 'a' as u8 {
        b - 'a' as u8 + 10
    } else {
        b - 'A' as u8 + 10
    }
}

/// The number that `digits` spell in base `radix`.
pub open spec fn digits_value(digits: Seq<u8>, radix: int) -> int
    decreases digits.len(),
{
    if digits.len() == 0 {
        0
    } else {
        digits_value(digits.drop_last(), radix) * radix + digit_value(digits.last())
    }
}

/// The base and the digits that the letter after a leading `0` announces.
pub open spec fn radix_of(marker: int) -> Option<(int, ByteClass)> {
    if marker == 'x' as u8 {
        Some((16, ByteClass::Hex))
    } else if marker == 'o' as u8 {
        Some((8, ByteClass::Octal))
    } else if marker == 'b' as u8 {
        Some((2, ByteClass::Binary))
    } else {
        None
    }
}

/// Where the decimal literal that starts at `pos` ends: behind its digits,
/// or behind the point and the digits that follow it, if there are any.
pub open spec fn decimal_end(s: Seq<u8>, pos: int) -> int {
    let whole = run_end(s, pos, ByteClass::Digit);
    if at(s, whole) == '.' as u8 && run_end(s, whole + 1, ByteClass::Digit) > whole + 1 {
        run_end(s, whole + 1, ByteClass::Digit)
    } else {
        whole
    }
}

/// One step of the tokenizer: the token found, the bytes that it is
/// reported at, and where the scan goes on.
pub struct Scanned {
    pub token: TokenView,
    pub span: Span,
    pub next: int,
}

/// The span from `start` to `end`.
pub open spec fn span_of(start: int, end: int) -> Span {
    Span { start: start as usize, end: end as usize }
}

/// The numeric literal that starts at the digit at `pos`. A `0x`, `0o` or
/// `0b` with at least one digit of its base behind it is a prefixed
/// literal, and its token holds the number nearest to what the digits
/// spell. Anything else is a decimal literal: digits, then optionally a
/// point and more digits.
pub open spec fn number_at(s: Seq<u8>, pos: int) -> Scanned {
    match radix_of(at(s, pos + 1)) {
        Some((base, class)) if s[pos] == '0' as u8 && run_end(s, pos + 2, class) > pos + 2 => {
            let end = run_end(s, pos + 2, class);
            Scanned {
                token: TokenView::Number(
                    NumberLiteralView::Bits(
                        nearest(digits_value(s.subrange(pos + 2, end), base) as nat),
                    ),
                ),
                span: span_of(pos, end),
                next: end,
            }
        },
        _ => {
            let end = decimal_end(s, pos);
            Scanned {
                token: TokenView::Number(
                    NumberLiteralView::Decimal(decode_utf8(s.subrange(pos, end))),
                ),
                span: span_of(pos, end),
                next: end,
            }
        },
    }
}

/// Scans the inside of a string literal from `pos` on: whether a closing
/// quote is found before the line or the text ends, and where the scan
/// stops (behind the closing quote, at the line feed, or at the end of the
/// text). A backslash takes the byte behind it along, a line feed excepted.
pub open spec fn string_end(s: Seq<u8>, pos: int) -> (bool, int)
    decreases s.len() - pos,
{
    if pos < 0 || pos >= s.len() {
        (false, s.len() as int)
    } else if s[pos] == '"' as u8 {
        (true, pos + 1)
    } else if s[pos] == '\n' as u8 {
        (false, pos)
    } else if s[pos] == '\\' as u8 && pos + 1 < s.len() && s[pos + 1] != '\n' as u8 {
        string_end(s, pos + 2)
    } else {
        string_end(s, pos + 1)
    }
}

/// Where the character that starts at `pos` ends.
pub open spec fn char_end(s: Seq<u8>, pos: int) -> int {
    run_end(s, pos + 1, ByteClass::Continuation)
}

/// Where the character starts that comes `n` characters after the one at `from`.
pub open spec fn nth_char(s: Seq<u8>, from: int, n: nat) -> int
    decreases n,
{
    if n == 0 {
        from
    } else {
        char_end(s, nth_char(s, from, (n - 1) as nat))
    }
}

/// The bytes of the escape that un-escaping the literal at `start..end`
/// objected to. `index` counts characters from the opening quote and points
/// behind the backslash. The span is the backslash and the character behind
/// it; where `index` points at no such pair, it is the whole literal.
pub open spec fn escape_span(s: Seq<u8>, start: int, end: int, index: usize) -> Span {
    let slash = nth_char(s, start, (index - 1) as nat);
    if index >= 1 && slash + 1 < end && s[slash] == '\\' as u8 {
        let stop = char_end(s, slash + 1);
        span_of(
            slash,
            if stop < end {
                stop
            } else {
                end
            },
        )
    } else {
        span_of(start, end)
    }
}

/// The token that a closed string literal at `start..end` gives, by what
/// un-escaping it came to.
pub open spec fn string_token(
    s: Seq<u8>,
    start: int,
    end: int,
    outcome: Result<Seq<char>, usize>,
) -> Scanned {
    match outcome {
        Ok(text) => Scanned {
            token: TokenView::String(text),
            span: span_of(start, end),
            next: end,
        },
        Err(index) => Scanned {
            token: TokenView::Fixed(Token::InvalidEscapeSequence),
            span: escape_span(s, start, end, index),
            next: end,
        },
    }
}

/// The string literal that starts at the quote at `pos`.
pub open spec fn string_at(s: Seq<u8>, pos: int) -> Scanned {
    let (closed, end) = string_end(s, pos + 1);
    if closed {
        string_token(s, pos, end, unescaped(decode_utf8(s.subrange(pos, end))))
    } else {
        Scanned {
            token: TokenView::Fixed(Token::UnclosedString),
            span: span_of(pos, end),
            next: end,
        }
    }
}

/// The token that starts at `pos`, where `pos` lies inside the text and on no blank.
pub open spec fn token_at(s: Seq<u8>, pos: int) -> Scanned {
    if ByteClass::Digit.has(s[pos]) {
        number_at(s, pos)
    } else if ByteClass::Word.has(s[pos]) {
        let end = run_end(s, pos + 1, ByteClass::Word);
        Scanned {
            token: word_token(decode_utf8(s.subrange(pos, end))),
            span: span_of(pos, end),
            next: end,
        }
    } else if s[pos] == '"' as u8 {
        string_at(s, pos)
    } else {
        match symbol_at(s, pos) {
            Some((token, len)) => Scanned {
                token: TokenView::Fixed(token),
                span: span_of(pos, pos + len),
                next: pos + len,
            },
            None => Scanned {
                token: TokenView::Fixed(Token::Error),
                span: span_of(pos, char_end(s, pos)),
                next: char_end(s, pos),
            },
        }
    }
}

/// The scan of a string literal stops inside the text: behind a quote
/// where it found the closing one, and else at a line feed or at the end.
pub proof fn lemma_string_end(s: Seq<u8>, pos: int)
    requires
        0 <= pos <= s.len(),
    ensures
        pos <= string_end(s, pos).1 <= s.len(),
        string_end(s, pos).0 ==> pos < string_end(s, pos).1 && s[string_end(s, pos).1 - 1]
            == '"' as u8,
        !string_end(s, pos).0 && string_end(s, pos).1 < s.len() ==> s[string_end(s, pos).1]
            == '\n' as u8,
    decreases s.len() - pos,
{
    if pos >= s.len() {
    } else if s[pos] == '"' as u8 {
    } else if s[pos] == '\n' as u8 {
    } else if s[pos] == '\\' as u8 && pos + 1 < s.len() && s[pos + 1] != '\n' as u8 {
        lemma_string_end(s, pos + 2);
    } else {
        lemma_string_end(s, pos + 1);
    }
}

/// Every token takes at least one byte and ends inside the text.
pub proof fn lemma_token_at(s: Seq<u8>, pos: int)
    requires
        0 <= pos < s.len(),
    ensures
        pos < token_at(s, pos).next <= s.len(),
{
    lemma_run_end(s, pos, ByteClass::Digit);
    lemma_run_end(s, pos + 1, ByteClass::Word);
    lemma_run_end(s, pos + 1, ByteClass::Continuation);
    lemma_run_end(s, pos + 2, ByteClass::Hex);
    lemma_run_end(s, pos + 2, ByteClass::Octal);
    lemma_run_end(s, pos + 2, ByteClass::Binary);
    lemma_run_end(s, run_end(s, pos, ByteClass::Digit) + 1, ByteClass::Digit);
    lemma_string_end(s, pos + 1);
}

/// The tokens of the text from `pos` on, each with the bytes it is reported at.
pub open spec fn lex(s: Seq<u8>, pos: int) -> Seq<(TokenView, Span)>
    decreases s.len() - pos,
{
    let start = skip_blank(s, pos);
    if pos < 0 || start >= s.len() {
        Seq::empty()
    } else {
        proof {
            lemma_skip_blank(s, pos);
            lemma_token_at(s, start);
        }
        seq![(token_at(s, start).token, token_at(s, start).span)] + lex(
            s,
            token_at(s, start).next,
        )
    }
}

/// The closed string literal that starts at the quote at `pos`, if one
/// starts there: its text, quotes included.
pub open spec fn literal_at(s: Seq<u8>, pos: int) -> Option<Seq<char>> {
    if 0 <= pos < s.len() && s[pos] == '"' as u8 && string_end(s, pos + 1).0 {
        Some(decode_utf8(s.subrange(pos, string_end(s, pos + 1).1)))
    } else {
        None
    }
}

/// Un-escaping a literal gives what the literal says: where the literal is
/// made of nothing but plain characters and escapes of the table, it gives
/// the characters, with each escape replaced by the character it stands for.
pub open spec fn agrees(quoted: Seq<char>) -> bool {
    content(quoted) matches Some(meant) ==> unescaped(quoted) == Ok::<Seq<char>, usize>(meant)
}

/// Un-escaping agrees with every closed string literal that the scan of
/// the text meets from `pos` on. The token of such a literal is then the
/// string that the literal says.
pub open spec fn literals_agree(s: Seq<u8>, pos: int) -> bool
    decreases s.len() - pos,
{
    let start = skip_blank(s, pos);
    if pos < 0 || start >= s.len() {
        true
    } else {
        proof {
            lemma_skip_blank(s, pos);
            lemma_token_at(s, start);
        }
        (literal_at(s, start) matches Some(quoted) ==> agrees(quoted)) && literals_agree(
            s,
            token_at(s, start).next,
        )
    }
}

/// The tokens of a queue, as the contracts speak of them.
pub open spec fn views(tokens: Seq<(Token, Span)>) -> Seq<(TokenView, Span)> {
    tokens.map_values(|pair: (Token, Span)| (pair.0@, pair.1))
}

/// The end of the longest run of bytes of `class` that starts at `pos`.
fn scan_run(bytes: &[u8], pos: usize, class: ByteClass) -> (end: usize)
    requires
        pos <= bytes.len(),
    ensures
        end == run_end(bytes@, pos as int, class),
        pos <= end <= bytes.len(),
{
    let mut i: usize = pos;
    while i < bytes.len() && class.holds(bytes[i])
        invariant
            pos <= i <= bytes.len(),
            run_end(bytes@, i as int, class) == run_end(bytes@, pos as int, class),
        decreases bytes.len() - i,
    {
        i += 1;
    }
    i
}

/// The end of the blank stretch that starts at `pos`.
fn skip(bytes: &[u8], pos: usize) -> (end: usize)
    requires
        pos <= bytes.len(),
    ensures
        end == skip_blank(bytes@, pos as int),
        pos <= end <= bytes.len(),
{
    let mut i: usize = pos;
    loop
        invariant
            pos <= i <= bytes.len(),
            skip_blank(bytes@, i as int) == skip_blank(bytes@, pos as int),
        decreases bytes.len() - i,
    {
        if i >= bytes.len() {
            return i;
        }
        if ByteClass::Space.holds(bytes[i]) {
            i += 1;
        } else if bytes[i] == '/' as u8 && bytes.len() - i > 1 && bytes[i + 1] == '/' as u8 {
            i = scan_run(bytes, i + 2, ByteClass::NotNewline);
        } else {
            return i;
        }
    }
}

/// The byte `ahead` places behind `pos`, or 0 behind the end of the text.
fn look(bytes: &[u8], pos: usize, ahead: usize) -> (b: u8)
    requires
        pos < bytes.len(),
    ensures
        b == if pos + ahead < bytes.len() {
            bytes@[pos + ahead]
        } else {
            0
        },
{
    if bytes.len() - pos > ahead {
        bytes[pos + ahead]
    } else {
        0
    }
}

/// The operator or punctuation mark that starts at `pos`, with its length.
fn symbol(bytes: &[u8], pos: usize) -> (found: Option<(Token, usize)>)
    requires
        pos < bytes.len(),
    ensures
        match found {
            Some((token, len)) => symbol_at(bytes@, pos as int) == Some((token, len as int))
                && pos + len <= bytes.len(),
            None => symbol_at(bytes@, pos as int) is None,
        },
{
    let a = bytes[pos];
    let b = look(bytes, pos, 1);
    let c = look(bytes, pos, 2);
    if a == '+' as u8 {
        if b == '=' as u8 {
            Some((Token::PlusEqual, 2))
        } else {
            Some((Token::Plus, 1))
        }
    } else if a == '-' as u8 {
        if b == '=' as u8 {
            Some((Token::MinusEqual, 2))
        } else {
            Some((Token::Minus, 1))
        }
    } else if a == '*' as u8 {
        if b == '*' as u8 {
            if c == '=' as u8 {
                Some((Token::StarStarEqual, 3))
            } else {
                Some((Token::StarStar, 2))
            }
        } else if b == '=' as u8 {
            Some((Token::StarEqual, 2))
        } else {
            Some((Token::Star, 1))
        }
    } else if a == '/' as u8 {
        if b == '=' as u8 {
            Some((Token::SlashEqual, 2))
        } else {
            Some((Token::Slash, 1))
        }
    } else if a == '%' as u8 {
        if b == '=' as u8 {
            Some((Token::PercentEqual, 2))
        } else {
            Some((Token::Percent, 1))
        }
    } else if a == '=' as u8 {
        if b == '=' as u8 {
            Some((Token::EqualEqual, 2))
        } else if b == '>' as u8 {
            Some((Token::Arrow, 2))
        } else {
            Some((Token::Equal, 1))
        }
    } else if a == '!' as u8 {
        if b == '=' as u8 {
            Some((Token::ExclamationEqual, 2))
        } else {
            None
        }
    } else if a == '<' as u8 {
        if b == '=' as u8 {
            Some((Token::LessThanEqual, 2))
        } else {
            Some((Token::LessThan, 1))
        }
    } else if a == '>' as u8 {
        if b == '=' as u8 {
            Some((Token::GreaterThanEqual, 2))
        } else {
            Some((Token::GreaterThan, 1))
        }
    } else if a == '(' as u8 {
        Some((Token::LParen, 1))
    } else if a == ')' as u8 {
        Some((Token::RParen, 1))
    } else if a == '{' as u8 {
        Some((Token::LBrace, 1))
    } else if a == '}' as u8 {
        Some((Token::RBrace, 1))
    } else if a == '[' as u8 {
        Some((Token::LBracket, 1))
    } else if a == ']' as u8 {
        Some((Token::RBracket, 1))
    } else if a == ';' as u8 {
        Some((Token::Semicolon, 1))
    } else if a == ',' as u8 {
        Some((Token::Comma, 1))
    } else if a == '.' as u8 {
        if b == '.' as u8 {
            if c == '.' as u8 {
                Some((Token::DotDotDot, 3))
            } else if c == '=' as u8 {
                Some((Token::DotDotEqual, 3))
            } else {
                Some((Token::DotDot, 2))
            }
        } else {
            Some((Token::Dot, 1))
        }
    } else if a == '#' as u8 {
        Some((Token::Hash, 1))
    } else {
        None
    }
}

/// The keyword that `text` spells, if it spells one.
fn keyword_of(text: &str) -> (found: Option<Token>)
    ensures
        found == keyword(text@),
{
    if same_text(text, "not") {
        Some(Token::Not)
    } else if same_text(text, "and") {
        Some(Token::And)
    } else if same_text(text, "or") {
        Some(Token::Or)
    } else if same_text(text, "if") {
        Some(Token::If)
    } else if same_text(text, "else") {
        Some(Token::Else)
    } else if same_text(text, "while") {
        Some(Token::While)
    } else if same_text(text, "for") {
        Some(Token::For)
    } else if same_text(text, "in") {
        Some(Token::In)
    } else if same_text(text, "return") {
        Some(Token::Return)
    } else if same_text(text, "break") {
        Some(Token::Break)
    } else if same_text(text, "continue") {
        Some(Token::Continue)
    } else if same_text(text, "import") {
        Some(Token::Import)
    } else if same_text(text, "match") {
        Some(Token::Match)
    } else if same_text(text, "true") {
        Some(Token::True)
    } else if same_text(text, "false") {
        Some(Token::False)
    } else if same_text(text, "void") {
        Some(Token::Void)
    } else if same_text(text, "func") {
        Some(Token::Func)
    } else {
        None
    }
}

/// The number nearest to what the digits at `start..end` spell in the
/// base of `width` bits to the digit. Digits are taken into the head of the
/// number as long as it holds 64 bits or fewer; of the digits behind that
/// only their number counts, and whether one of them is not zero.
fn radix_bits(bytes: &[u8], start: usize, end: usize, width: u128) -> (bits: u64)
    requires
        start <= end <= bytes.len(),
        1 <= width <= 4,
        forall|i: int|
            start <= i < end ==> ByteClass::Hex.has(#[trigger] bytes@[i]) && digit_value(bytes@[i])
                < pow2(width as nat),
    ensures
        bits == nearest(
            digits_value(bytes@.subrange(start as int, end as int), pow2(width as nat) as int) as nat,
        ),
{
    let ghost radix = pow2(width as nat) as int;
    let mut head: u128 = 0;
    let mut shift: u128 = 0;
    let mut more = false;
    let ghost mut rest: nat = 0;
    let mut i: usize = start;
    proof {
        lemma2_to64();
        lemma2_to64_rest();
    }
    while i < end
        invariant
            start <= i <= end <= bytes.len(),
            1 <= width <= 4,
            radix == pow2(width as nat),
            forall|k: int|
                start <= k < end ==> ByteClass::Hex.has(#[trigger] bytes@[k]) && digit_value(
                    bytes@[k],
                ) < radix,
            head < 0x10_0000_0000_0000_0000,
            shift <= 4 * (i - start),
            shift > 0 ==> head >= 0x1_0000_0000_0000_0000,
            shift == 0 ==> rest == 0,
            rest < pow2(shift as nat),
            more == (rest != 0),
            digits_value(bytes@.subrange(start as int, i as int), radix) == head * pow2(
                shift as nat,
            ) + rest,
        decreases end - i,
    {
        let b = bytes[i];
        let digit: u128 = if b <= '9' as u8 {
            (b - '0' as u8) as u128
        } else if b >= 'a' as u8 {
            (b - 'a' as u8) as u128 + 10
        } else {
            (b - 'A' as u8) as u128 + 10
        };
        let ghost before = digits_value(bytes@.subrange(start as int, i as int), radix);
        proof {
            let longer = bytes@.subrange(start as int, i + 1);
            assert(longer.drop_last() =~= bytes@.subrange(start as int, i as int));
            assert(longer.last() == b);
            assert(digit == digit_value(b));
            assert(digits_value(longer, radix) == before * radix + digit);
            lemma_pow2_pos(shift as nat);
        }
        if head < 0x1_0000_0000_0000_0000 {
            let scale: u128 = if width == 1 {
                2
            } else if width == 3 {
                8
            } else if width == 4 {
                16
            } else {
                4
            };
            assert(scale == radix) by {
                lemma2_to64();
            }
            assert(head * scale + digit < 0x10_0000_0000_0000_0000) by (nonlinear_arith)
                requires
                    head < 0x1_0000_0000_0000_0000,
                    scale <= 16,
                    digit < scale,
            ;
            proof {
                lemma2_to64();
                assert(pow2(0) == 1);
                assert(before == head) by (nonlinear_arith)
                    requires
                        before == head * pow2(shift as nat) + rest,
                        pow2(shift as nat) == 1,
                        rest == 0,
                ;
                assert((head * scale + digit) * pow2(0) + 0 == before * radix + digit)
                    by (nonlinear_arith)
                    requires
                        before == head,
                        scale == radix,
                        pow2(0) == 1,
                ;
            }
            head = head * scale + digit;
        } else {
            proof {
                let x = pow2(shift as nat);
                lemma_pow2_adds(shift as nat, width as nat);
                assert(before * radix + digit == head * (x * radix) + (rest * radix + digit)
                    && rest * radix + digit < x * radix) by (nonlinear_arith)
                    requires
                        before == head * x + rest,
                        rest < x,
                        0 <= digit < radix,
                ;
                assert((rest * radix + digit != 0) == (rest != 0 || digit != 0))
                    by (nonlinear_arith)
                    requires
                        radix > 0,
                        digit >= 0,
                        rest >= 0,
                ;
                rest = (rest * radix + digit) as nat;
            }
            shift = shift + width;
            more = more || digit != 0;
        }
        i += 1;
    }
    proof {
        if shift > 0 {
            lemma_binade(head as nat);
            if binade(head as nat) <= 52 {
                if binade(head as nat) < 52 {
                    lemma_pow2_strictly_increases(binade(head as nat), 52);
                }
            }
        }
        lemma_nearest_scaled(head as nat, shift as nat, rest);
    }
    round_scaled(head, shift, more)
}

proof fn lemma_nth_char_grows(s: Seq<u8>, from: int, n: nat, m: nat)
    requires
        n <= m,
    ensures
        nth_char(s, from, n) <= nth_char(s, from, m),
        from + n <= nth_char(s, from, n),
    decreases m,
{
    if n < m {
        lemma_nth_char_grows(s, from, n, (m - 1) as nat);
        lemma_run_end(s, nth_char(s, from, (m - 1) as nat) + 1, ByteClass::Continuation);
    }
    if n > 0 {
        lemma_nth_char_grows(s, from, (n - 1) as nat, (n - 1) as nat);
        lemma_run_end(s, nth_char(s, from, (n - 1) as nat) + 1, ByteClass::Continuation);
    }
}

/// The bytes of the escape that un-escaping the literal at `start..end`
/// objected to at the character `index`.
fn locate_escape(bytes: &[u8], start: usize, end: usize, index: usize) -> (span: Span)
    requires
        start < end <= bytes.len(),
    ensures
        span == escape_span(bytes@, start as int, end as int, index),
        start <= span.start <= span.end <= end,
{
    if index == 0 {
        return Span { start, end };
    }
    let mut i: usize = start;
    let mut k: usize = 0;
    while k < index - 1 && i < end
        invariant
            start <= i <= bytes.len(),
            end <= bytes.len(),
            k <= index - 1,
            i == nth_char(bytes@, start as int, k as nat),
        decreases index - 1 - k,
    {
        i = scan_run(bytes, i + 1, ByteClass::Continuation);
        k += 1;
    }
    proof {
        lemma_nth_char_grows(bytes@, start as int, k as nat, (index - 1) as nat);
    }
    if i < end && end - i > 1 && bytes[i] == '\\' as u8 {
        let stop = scan_run(bytes, i + 2, ByteClass::Continuation);
        Span { start: i, end: if stop < end { stop } else { end } }
    } else {
        Span { start, end }
    }
}

/// The token that the closed string literal at `start..end` of `bytes`
/// gives, by what un-escaping it came to, and the bytes it is reported at.
pub fn string_token_of(bytes: &[u8], start: usize, end: usize, outcome: Result<String, usize>) -> (found:
    (Token, Span))
    requires
        start < end <= bytes.len(),
    ensures
        found.0@ == string_token(bytes@, start as int, end as int, outcome_view(outcome)).token,
        found.1 == string_token(bytes@, start as int, end as int, outcome_view(outcome)).span,
        start <= found.1.start <= found.1.end <= end,
{
    match outcome {
        Ok(text) => (Token::String(text), Span { start, end }),
        Err(index) => (Token::InvalidEscapeSequence, locate_escape(bytes, start, end, index)),
    }
}

/// Scans the inside of a string literal from `pos` on.
fn scan_string(bytes: &[u8], pos: usize) -> (found: (bool, usize))
    requires
        pos <= bytes.len(),
    ensures
        found.0 == string_end(bytes@, pos as int).0,
        found.1 == string_end(bytes@, pos as int).1,
{
    let mut i: usize = pos;
    loop
        invariant
            pos <= i <= bytes.len(),
            string_end(bytes@, i as int) == string_end(bytes@, pos as int),
        decreases bytes.len() - i,
    {
        if i >= bytes.len() {
            return (false, bytes.len());
        }
        let b = bytes[i];
        if b == '"' as u8 {
            return (true, i + 1);
        } else if b == '\n' as u8 {
            return (false, i);
        } else if b == '\\' as u8 && bytes.len() - i > 1 && bytes[i + 1] != '\n' as u8 {
            i += 2;
        } else {
            i += 1;
        }
    }
}

/// The numeric literal that starts at the digit at `pos`.
fn scan_number(source: &str, bytes: &[u8], pos: usize) -> (found: (Token, Span, usize))
    requires
        bytes@ == source.spec_bytes(),
        pos < bytes.len(),
        ByteClass::Digit.has(bytes@[pos as int]),
    ensures
        found.0@ == number_at(bytes@, pos as int).token,
        found.1 == number_at(bytes@, pos as int).span,
        found.2 == number_at(bytes@, pos as int).next,
{
    let marker = look(bytes, pos, 1);
    let radix: Option<(u128, ByteClass)> = if marker == 'x' as u8 {
        Some((4, ByteClass::Hex))
    } else if marker == 'o' as u8 {
        Some((3, ByteClass::Octal))
    } else if marker == 'b' as u8 {
        Some((1, ByteClass::Binary))
    } else {
        None
    };
    if bytes[pos] == '0' as u8 {
        if let Some((width, class)) = radix {
            let end = scan_run(bytes, pos + 2, class);
            if end > pos + 2 {
                proof {
                    lemma_run_end(bytes@, pos + 2, class);
                    lemma2_to64();
                }
                let bits = radix_bits(bytes, pos + 2, end, width);
                return (Token::Number(NumberLiteral::Bits(bits)), Span { start: pos, end }, end);
            }
        }
    }
    let whole = scan_run(bytes, pos, ByteClass::Digit);
    let mut end = whole;
    if whole < bytes.len() && bytes[whole] == '.' as u8 {
        let behind = scan_run(bytes, whole + 1, ByteClass::Digit);
        if behind > whole + 1 {
            end = behind;
        }
    }
    proof {
        lemma_run_end(bytes@, pos as int, ByteClass::Digit);
        lemma_run_end(bytes@, whole + 1, ByteClass::Digit);
        lemma_boundary_after_ascii(bytes@, end - 1);
    }
    let lexeme = slice(source, pos, end);
    (Token::Number(NumberLiteral::Decimal(lexeme.to_owned())), Span { start: pos, end }, end)
}

/// The token that starts at `pos`, the bytes it is reported at, and where
/// the scan goes on.
fn scan_token(source: &str, bytes: &[u8], pos: usize) -> (found: (Token, Span, usize))
    requires
        bytes@ == source.spec_bytes(),
        pos < bytes.len(),
    ensures
        found.0@ == token_at(bytes@, pos as int).token,
        found.1 == token_at(bytes@, pos as int).span,
        found.2 == token_at(bytes@, pos as int).next,
        pos < found.2 <= bytes.len(),
        literal_at(bytes@, pos as int) matches Some(quoted) ==> agrees(quoted),
{
    proof {
        lemma_token_at(bytes@, pos as int);
    }
    let first = bytes[pos];
    if ByteClass::Digit.holds(first) {
        scan_number(source, bytes, pos)
    } else if ByteClass::Word.holds(first) {
        let end = scan_run(bytes, pos + 1, ByteClass::Word);
        proof {
            lemma_run_end(bytes@, pos + 1, ByteClass::Word);
            lemma_boundary_after_ascii(bytes@, end - 1);
        }
        let lexeme = slice(source, pos, end);
        let token = match keyword_of(lexeme) {
            Some(token) => token,
            None => Token::Identifier(lexeme.to_owned()),
        };
        (token, Span { start: pos, end }, end)
    } else if first == '"' as u8 {
        let (closed, end) = scan_string(bytes, pos + 1);
        proof {
            lemma_string_end(bytes@, pos + 1);
        }
        if closed {
            proof {
                lemma_boundary_after_ascii(bytes@, end - 1);
            }
            let lexeme = slice(source, pos, end);
            let outcome = unescape_quoted(lexeme);
            let (token, span) = string_token_of(bytes, pos, end, outcome);
            (token, span, end)
        } else {
            (Token::UnclosedString, Span { start: pos, end }, end)
        }
    } else {
        match symbol(bytes, pos) {
            Some((token, len)) => (token, Span { start: pos, end: pos + len }, pos + len),
            None => {
                let end = scan_run(bytes, pos + 1, ByteClass::Continuation);
                (Token::Error, Span { start: pos, end }, end)
            },
        }
    }
}

/// Splits the source text into its tokens, each with the bytes it is
/// reported at. White space and comments separate tokens and are dropped.
/// What cannot be read becomes an error token in place, and the scan goes on
/// behind it.
pub fn tokenize(source: &str) -> (tokens: VecDeque<(Token, Span)>)
    ensures
        views(tokens@) == lex(source.spec_bytes(), 0),
        literals_agree(source.spec_bytes(), 0),
        in_order(source.spec_bytes(), 0, views(tokens@)),
{
    let bytes = source.as_bytes();
    let mut tokens: VecDeque<(Token, Span)> = VecDeque::new();
    let mut pos: usize = 0;
    let length = bytes.len();
    proof {
        lemma_lex_in_order(bytes@, 0);
    }
    loop
        invariant
            bytes@ == source.spec_bytes(),
            length == bytes.len(),
            pos <= length,
            views(tokens@) + lex(bytes@, pos as int) == lex(bytes@, 0),
            in_order(bytes@, 0, lex(bytes@, 0)),
            literals_agree(bytes@, pos as int) ==> literals_agree(bytes@, 0),
        decreases length - pos,
    {
        let start = skip(bytes, pos);
        if start >= length {
            return tokens;
        }
        let ghost before = tokens@;
        let (token, span, next) = scan_token(source, bytes, start);
        tokens.push_back((token, span));
        proof {
            let head = (token@, span);
            assert(views(tokens@) =~= views(before).push(head));
            assert(views(tokens@) + lex(bytes@, next as int) =~= views(before) + lex(
                bytes@,
                pos as int,
            ));
        }
        pos = next;
    }
}

/// Every byte from `from` up to `to` is of `class`.
pub open spec fn all_of(s: Seq<u8>, from: int, to: int, class: ByteClass) -> bool {
    forall|i: int| from <= i < to ==> class.has(#[trigger] s[i])
}

/// A run of bytes of `class` that something else or the end of the text
/// ends is the longest run there.
pub proof fn lemma_run_end_is(s: Seq<u8>, from: int, to: int, class: ByteClass)
    requires
        0 <= from <= to <= s.len(),
        all_of(s, from, to, class),
        to < s.len() ==> !class.has(s[to]),
    ensures
        run_end(s, from, class) == to,
    decreases to - from,
{
    if from < to {
        lemma_run_end_is(s, from + 1, to, class);
    }
}

/// The text is a decimal literal with `whole` digits before the point, or
/// without a point: digits, then optionally a point and at least one digit.
pub open spec fn is_decimal_literal(s: Seq<u8>, whole: int) -> bool {
    &&& 0 < whole <= s.len()
    &&& all_of(s, 0, whole, ByteClass::Digit)
    &&& whole < s.len() ==> s[whole] == '.' as u8 && whole + 1 < s.len() && all_of(
        s,
        whole + 1,
        s.len() as int,
        ByteClass::Digit,
    )
}

/// A decimal literal is one token: a number that carries the literal as it
/// is written, reported at the whole text.
pub proof fn lemma_decimal_literal(s: Seq<u8>, whole: int)
    requires
        is_decimal_literal(s, whole),
    ensures
        lex(s, 0) == seq![
            (
                TokenView::Number(NumberLiteralView::Decimal(decode_utf8(s))),
                span_of(0, s.len() as int),
            ),
        ],
{
    let len = s.len() as int;
    if whole < len {
        lemma_run_end_is(s, 0, whole, ByteClass::Digit);
        lemma_run_end_is(s, whole + 1, len, ByteClass::Digit);
    } else {
        lemma_run_end_is(s, 0, len, ByteClass::Digit);
    }
    assert(s.subrange(0, len) =~= s);
    assert(lex(s, len) =~= Seq::empty());
    assert(lex(s, 0) =~= seq![
        (
            TokenView::Number(NumberLiteralView::Decimal(decode_utf8(s))),
            span_of(0, s.len() as int),
        ),
    ]);
}

/// A `0x`, `0o` or `0b` with digits of its base behind it is one token,
/// reported at the whole text: the number nearest to what the digits
/// spell, however many they are.
pub proof fn lemma_radix_literal(s: Seq<u8>, base: int, class: ByteClass)
    requires
        s.len() > 2,
        s[0] == '0' as u8,
        radix_of(s[1] as int) == Some((base, class)),
        all_of(s, 2, s.len() as int, class),
    ensures
        lex(s, 0) == seq![
            (
                TokenView::Number(
                    NumberLiteralView::Bits(
                        nearest(digits_value(s.subrange(2, s.len() as int), base) as nat),
                    ),
                ),
                span_of(0, s.len() as int),
            ),
        ],
{
    let len = s.len() as int;
    lemma_run_end_is(s, 2, len, class);
    assert(skip_blank(s, 0) == 0);
    assert(skip_blank(s, len) == len);
    assert(lex(s, len) =~= Seq::empty());
    assert(token_at(s, 0) == number_at(s, 0));
}

/// Blank stretches end where a character starts.
pub proof fn lemma_skip_blank_boundary(s: Seq<u8>, pos: int)
    requires
        valid_utf8(s),
        on_boundary(s, pos),
    ensures
        on_boundary(s, skip_blank(s, pos)),
    decreases s.len() - pos,
{
    if pos >= s.len() {
    } else if ByteClass::Space.has(s[pos]) {
        lemma_boundary_after_ascii(s, pos);
        lemma_skip_blank_boundary(s, pos + 1);
    } else if s[pos] == '/' as u8 && at(s, pos + 1) == '/' as u8 {
        lemma_run_end(s, pos + 2, ByteClass::NotNewline);
        lemma_skip_blank_boundary(s, run_end(s, pos + 2, ByteClass::NotNewline));
    }
}

/// The bytes that an escape is reported at lie inside its literal and are
/// a piece of the text.
pub proof fn lemma_escape_span(s: Seq<u8>, start: int, end: int, index: usize)
    requires
        s.len() <= usize::MAX,
        0 <= start < end <= s.len(),
        on_boundary(s, start),
        on_boundary(s, end),
    ensures
        cuts(s, escape_span(s, start, end, index)),
        start <= escape_span(s, start, end, index).start,
        escape_span(s, start, end, index).end <= end,
{
    if index >= 1 {
        lemma_nth_char_grows(s, start, 0, (index - 1) as nat);
        let slash = nth_char(s, start, (index - 1) as nat);
        if slash + 1 < end && s[slash] == '\\' as u8 {
            lemma_run_end(s, slash + 2, ByteClass::Continuation);
        }
    }
}

/// A token is reported at a piece of the text that lies between the place
/// where it was looked for and the place where the scan goes on, and the
/// scan goes on where a character starts.
pub proof fn lemma_token_cuts(s: Seq<u8>, pos: int)
    requires
        valid_utf8(s),
        s.len() <= usize::MAX,
        0 <= pos < s.len(),
        on_boundary(s, pos),
    ensures
        cuts(s, token_at(s, pos).span),
        pos <= token_at(s, pos).span.start,
        token_at(s, pos).span.end <= token_at(s, pos).next,
        on_boundary(s, token_at(s, pos).next),
{
    lemma_token_at(s, pos);
    let next = token_at(s, pos).next;
    if ByteClass::Digit.has(s[pos]) {
        lemma_run_end(s, pos, ByteClass::Digit);
        lemma_run_end(s, pos + 1, ByteClass::Word);
        lemma_run_end(s, pos + 2, ByteClass::Hex);
        lemma_run_end(s, pos + 2, ByteClass::Octal);
        lemma_run_end(s, pos + 2, ByteClass::Binary);
        lemma_run_end(s, run_end(s, pos, ByteClass::Digit) + 1, ByteClass::Digit);
        lemma_boundary_after_ascii(s, next - 1);
    } else if ByteClass::Word.has(s[pos]) {
        lemma_run_end(s, pos + 1, ByteClass::Word);
        lemma_boundary_after_ascii(s, next - 1);
    } else if s[pos] == '"' as u8 {
        lemma_string_end(s, pos + 1);
        if string_end(s, pos + 1).0 {
            lemma_boundary_after_ascii(s, next - 1);
            match unescaped(decode_utf8(s.subrange(pos, next))) {
                Ok(_) => {},
                Err(index) => {
                    lemma_escape_span(s, pos, next, index);
                },
            }
        }
    } else {
        match symbol_at(s, pos) {
            Some((_, len)) => {
                lemma_boundary_after_ascii(s, next - 1);
            },
            None => {
                lemma_run_end(s, pos + 1, ByteClass::Continuation);
            },
        }
    }
}

/// The spans of the tokens are pieces of the text, and they come in the
/// order of the text without overlapping.
pub open spec fn in_order(s: Seq<u8>, from: int, items: Seq<(TokenView, Span)>) -> bool {
    &&& forall|i: int| 0 <= i < items.len() ==> cuts(s, (#[trigger] items[i]).1)
    &&& forall|i: int| 0 <= i < items.len() ==> from <= (#[trigger] items[i]).1.start
    &&& forall|i: int, j: int|
        0 <= i < j < items.len() ==> (#[trigger] items[i]).1.end <= (#[trigger] items[j]).1.start
}

/// Every token of a text is reported at a piece of the text, and the
/// pieces come in the order of the text without overlapping.
pub proof fn lemma_lex_in_order(s: Seq<u8>, pos: int)
    requires
        valid_utf8(s),
        s.len() <= usize::MAX,
        0 <= pos <= s.len(),
        on_boundary(s, pos),
    ensures
        in_order(s, pos, lex(s, pos)),
    decreases s.len() - pos,
{
    let start = skip_blank(s, pos);
    lemma_skip_blank(s, pos);
    lemma_skip_blank_boundary(s, pos);
    if start < s.len() {
        lemma_token_at(s, start);
        lemma_token_cuts(s, start);
        let token = token_at(s, start);
        lemma_lex_in_order(s, token.next);
        let all = lex(s, pos);
        assert forall|i: int| 0 <= i < all.len() implies cuts(s, (#[trigger] all[i]).1) && pos
            <= all[i].1.start by {}
        assert forall|i: int, j: int| 0 <= i < j < all.len() implies (#[trigger] all[i]).1.end <= (
        #[trigger] all[j]).1.start by {}
    }
}

/// A text that is one closed string literal, made of nothing but plain
/// characters and escapes of the table, is one token: the string that the
/// literal says, reported at the whole text. `literals_agree` is what
/// `tokenize` ensures of the text.
pub proof fn lemma_string_literal(s: Seq<u8>, meant: Seq<char>)
    requires
        s.len() > 0,
        s[0] == '"' as u8,
        string_end(s, 1) == (true, s.len() as int),
        content(decode_utf8(s)) == Some(meant),
        literals_agree(s, 0),
    ensures
        lex(s, 0) == seq![(TokenView::String(meant), span_of(0, s.len() as int))],
{
    let len = s.len() as int;
    assert(skip_blank(s, 0) == 0);
    assert(s.subrange(0, len) =~= s);
    assert(literal_at(s, 0) == Some(decode_utf8(s)));
    assert(agrees(decode_utf8(s)));
    assert(token_at(s, 0) == string_at(s, 0));
    assert(skip_blank(s, len) == len);
    assert(lex(s, len) =~= Seq::empty());
    assert(lex(s, 0) =~= seq![(TokenView::String(meant), span_of(0, len))]);
}


/// The scan of an ASCII literal whose inside `replaced` covers from `i` on
/// finds the closing quote at the end of the literal.
proof fn lemma_scan_closes(quoted: Seq<char>, i: int)
    requires
        is_ascii_chars(quoted),
        quoted.len() >= 2,
        quoted.last() == '"',
        1 <= i <= quoted.len() - 1,
        replaced(quoted.subrange(i, quoted.len() - 1)) is Some,
        forall|k: int| 0 <= k < quoted.len() ==> quoted[k] != '\n',
    ensures
        string_end(encode_utf8(quoted), i) == (true, quoted.len() as int),
    decreases quoted.len() - i,
{
    let s = encode_utf8(quoted);
    let len = quoted.len() as int;
    is_ascii_chars_encode_utf8(quoted);
    let body = quoted.subrange(i, len - 1);
    assert(s[i] == quoted[i] as u8);
    if i < len - 1 {
        assert(body[0] == quoted[i]);
        if quoted[i] == '\\' {
            assert(body[1] == quoted[i + 1]);
            assert(s[i + 1] == quoted[i + 1] as u8);
            assert(body.subrange(2, body.len() as int) =~= quoted.subrange(i + 2, len - 1));
            lemma_scan_closes(quoted, i + 2);
        } else {
            assert(body.drop_first() =~= quoted.subrange(i + 1, len - 1));
            lemma_scan_closes(quoted, i + 1);
        }
    }
}

/// An ASCII text on one line that is one string literal, made of nothing
/// but plain characters and escapes of the table, is one token: the string
/// that the literal says. `literals_agree` is what `tokenize` ensures of
/// the text.
pub proof fn lemma_ascii_literal(quoted: Seq<char>, meant: Seq<char>)
    requires
        is_ascii_chars(quoted),
        content(quoted) == Some(meant),
        forall|k: int| 0 <= k < quoted.len() ==> quoted[k] != '\n',
        literals_agree(encode_utf8(quoted), 0),
    ensures
        lex(encode_utf8(quoted), 0) == seq![
            (TokenView::String(meant), span_of(0, quoted.len() as int)),
        ],
{
    let s = encode_utf8(quoted);
    is_ascii_chars_encode_utf8(quoted);
    assert(s[0] == quoted[0] as u8);
    lemma_scan_closes(quoted, 1);
    assert(decode_utf8(s) == quoted);
    lemma_string_literal(s, meant);
}

} // verus!
