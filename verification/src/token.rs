use crate::text::same_text;
use vstd::prelude::*;

verus! {

/// A numeric literal as it stands in the source, before it becomes a binary64.
#[derive(Debug, PartialEq, Eq)]
pub enum NumberLiteral {
    /// A decimal literal, kept as written: digits, optionally a point and more digits.
    Decimal(String),
    /// The number nearest to the value of a `0x`, `0o` or `0b` literal,
    /// as its binary64 bit pattern.
    Bits(u64),
}

pub enum NumberLiteralView {
    Decimal(Seq<char>),
    Bits(u64),
}

impl View for NumberLiteral {
    type V = NumberLiteralView;

    open spec fn view(&self) -> NumberLiteralView {
        match self {
            NumberLiteral::Decimal(text) => NumberLiteralView::Decimal(text@),
            NumberLiteral::Bits(bits) => NumberLiteralView::Bits(*bits),
        }
    }
}

impl Clone for NumberLiteral {
    fn clone(&self) -> (r: NumberLiteral)
        ensures
            r@ == self@,
    {
        match self {
            NumberLiteral::Decimal(text) => NumberLiteral::Decimal(text.clone()),
            NumberLiteral::Bits(bits) => NumberLiteral::Bits(*bits),
        }
    }
}

/// One lexical unit of the source text.
#[derive(Debug, PartialEq, Eq)]
pub enum Token {
    Number(NumberLiteral),
    Identifier(String),
    /// A string literal with its escapes already replaced.
    String(String),
    /// A string literal whose escapes have not been judged yet: the text with
    /// the escapes replaced, or the escape that is not supported.
    UnverifiedString(Result<String, String>),
    Plus,
    Minus,
    Star,
    StarStar,
    Slash,
    Percent,
    Equal,
    PlusEqual,
    MinusEqual,
    StarEqual,
    SlashEqual,
    PercentEqual,
    StarStarEqual,
    EqualEqual,
    ExclamationEqual,
    LessThan,
    LessThanEqual,
    GreaterThan,
    GreaterThanEqual,
    Not,
    And,
    Or,
    If,
    Else,
    While,
    For,
    In,
    Return,
    Break,
    Continue,
    Import,
    Match,
    True,
    False,
    Void,
    Func,
    Arrow,
    LParen,
    RParen,
    LBrace,
    RBrace,
    LBracket,
    RBracket,
    Semicolon,
    Comma,
    Dot,
    DotDot,
    DotDotDot,
    DotDotEqual,
    Hash,
    /// A string literal without its closing quote.
    UnclosedString,
    /// An escape inside a string literal that is not supported.
    InvalidEscapeSequence,
    /// A character that starts no token.
    Error,
}

/// What a token is, with every text it carries as a sequence of characters.
/// A token that carries nothing stands for itself.
pub enum TokenView {
    Number(NumberLiteralView),
    Identifier(Seq<char>),
    String(Seq<char>),
    UnverifiedString(Result<Seq<char>, Seq<char>>),
    Fixed(Token),
}

impl View for Token {
    type V = TokenView;

    open spec fn view(&self) -> TokenView {
        match self {
            Token::Number(n) => TokenView::Number(n@),
            Token::Identifier(name) => TokenView::Identifier(name@),
            Token::String(text) => TokenView::String(text@),
            Token::UnverifiedString(Ok(text)) => TokenView::UnverifiedString(Ok(text@)),
            Token::UnverifiedString(Err(escape)) => TokenView::UnverifiedString(Err(escape@)),
            fixed => TokenView::Fixed(*fixed),
        }
    }
}

impl Clone for Token {
    fn clone(&self) -> (r: Token)
        ensures
            r@ == self@,
    {
        match self {
            Token::Number(value) => Token::Number(value.clone()),
            Token::Identifier(name) => Token::Identifier(name.clone()),
            Token::String(text) => Token::String(text.clone()),
            Token::UnverifiedString(Ok(text)) => Token::UnverifiedString(Ok(text.clone())),
            Token::UnverifiedString(Err(escape)) => Token::UnverifiedString(Err(escape.clone())),
            Token::Plus => Token::Plus,
            Token::Minus => Token::Minus,
            Token::Star => Token::Star,
            Token::StarStar => Token::StarStar,
            Token::Slash => Token::Slash,
            Token::Percent => Token::Percent,
            Token::Equal => Token::Equal,
            Token::PlusEqual => Token::PlusEqual,
            Token::MinusEqual => Token::MinusEqual,
            Token::StarEqual => Token::StarEqual,
            Token::SlashEqual => Token::SlashEqual,
            Token::PercentEqual => Token::PercentEqual,
            Token::StarStarEqual => Token::StarStarEqual,
            Token::EqualEqual => Token::EqualEqual,
            Token::ExclamationEqual => Token::ExclamationEqual,
            Token::LessThan => Token::LessThan,
            Token::LessThanEqual => Token::LessThanEqual,
            Token::GreaterThan => Token::GreaterThan,
            Token::GreaterThanEqual => Token::GreaterThanEqual,
            Token::Not => Token::Not,
            Token::And => Token::And,
            Token::Or => Token::Or,
            Token::If => Token::If,
            Token::Else => Token::Else,
            Token::While => Token::While,
            Token::For => Token::For,
            Token::In => Token::In,
            Token::Return => Token::Return,
            Token::Break => Token::Break,
            Token::Continue => Token::Continue,
            Token::Import => Token::Import,
            Token::Match => Token::Match,
            Token::True => Token::True,
            Token::False => Token::False,
            Token::Void => Token::Void,
            Token::Func => Token::Func,
            Token::Arrow => Token::Arrow,
            Token::LParen => Token::LParen,
            Token::RParen => Token::RParen,
            Token::LBrace => Token::LBrace,
            Token::RBrace => Token::RBrace,
            Token::LBracket => Token::LBracket,
            Token::RBracket => Token::RBracket,
            Token::Semicolon => Token::Semicolon,
            Token::Comma => Token::Comma,
            Token::Dot => Token::Dot,
            Token::DotDot => Token::DotDot,
            Token::DotDotDot => Token::DotDotDot,
            Token::DotDotEqual => Token::DotDotEqual,
            Token::Hash => Token::Hash,
            Token::UnclosedString => Token::UnclosedString,
            Token::InvalidEscapeSequence => Token::InvalidEscapeSequence,
            Token::Error => Token::Error,
        }
    }
}

impl Token {
    /// The token carries no text or number: it is an operator, a keyword,
    /// a punctuation mark or an error marker.
    pub open spec fn is_fixed(&self) -> bool {
        self@ is Fixed
    }

    /// How the token is named in a message: the lexeme of an operator, a
    /// keyword or a punctuation mark, and the category of any other token.
    pub open spec fn rep(&self) -> Seq<char> {
        match self {
            Token::Number(_) => "number"@,
            Token::Identifier(_) => "identifier"@,
            Token::String(_) => "string"@,
            Token::Plus => "+"@,
            Token::Minus => "-"@,
            Token::Star => "*"@,
            Token::StarStar => "**"@,
            Token::Slash => "/"@,
            Token::Percent => "%"@,
            Token::Equal => "="@,
            Token::PlusEqual => "+="@,
            Token::MinusEqual => "-="@,
            Token::StarEqual => "*="@,
            Token::SlashEqual => "/="@,
            Token::PercentEqual => "%="@,
            Token::StarStarEqual => "**="@,
            Token::EqualEqual => "=="@,
            Token::ExclamationEqual => "!="@,
            Token::LessThan => "<"@,
            Token::LessThanEqual => "<="@,
            Token::GreaterThan => ">"@,
            Token::GreaterThanEqual => ">="@,
            Token::Not => "not"@,
            Token::And => "and"@,
            Token::Or => "or"@,
            Token::If => "if"@,
            Token::Else => "else"@,
            Token::While => "while"@,
            Token::For => "for"@,
            Token::In => "in"@,
            Token::Return => "return"@,
            Token::Break => "break"@,
            Token::Continue => "continue"@,
            Token::Import => "import"@,
            Token::Match => "match"@,
            Token::True => "true"@,
            Token::False => "false"@,
            Token::Void => "void"@,
            Token::Func => "func"@,
            Token::Arrow => "=>"@,
            Token::LParen => "("@,
            Token::RParen => ")"@,
            Token::LBrace => "{"@,
            Token::RBrace => "}"@,
            Token::LBracket => "["@,
            Token::RBracket => "]"@,
            Token::Semicolon => ";"@,
            Token::Comma => ","@,
            Token::Dot => "."@,
            Token::DotDot => ".."@,
            Token::DotDotDot => "..."@,
            Token::DotDotEqual => "..="@,
            Token::Hash => "#"@,
            Token::UnclosedString => "unclosed string"@,
            Token::InvalidEscapeSequence => "invalid escape sequence"@,
            Token::UnverifiedString(_) => "unverified string"@,
            Token::Error => "error"@,
        }
    }

    /// How the token is named in a message.
    pub fn get_rep(&self) -> (r: &'static str)
        ensures
            r@ == self.rep(),
    {
        match self {
            Token::Number(_) => "number",
            Token::Identifier(_) => "identifier",
            Token::String(_) => "string",
            Token::Plus => "+",
            Token::Minus => "-",
            Token::Star => "*",
            Token::StarStar => "**",
            Token::Slash => "/",
            Token::Percent => "%",
            Token::Equal => "=",
            Token::PlusEqual => "+=",
            Token::MinusEqual => "-=",
            Token::StarEqual => "*=",
            Token::SlashEqual => "/=",
            Token::PercentEqual => "%=",
            Token::StarStarEqual => "**=",
            Token::EqualEqual => "==",
            Token::ExclamationEqual => "!=",
            Token::LessThan => "<",
            Token::LessThanEqual => "<=",
            Token::GreaterThan => ">",
            Token::GreaterThanEqual => ">=",
            Token::Not => "not",
            Token::And => "and",
            Token::Or => "or",
            Token::If => "if",
            Token::Else => "else",
            Token::While => "while",
            Token::For => "for",
            Token::In => "in",
            Token::Return => "return",
            Token::Break => "break",
            Token::Continue => "continue",
            Token::Import => "import",
            Token::Match => "match",
            Token::True => "true",
            Token::False => "false",
            Token::Void => "void",
            Token::Func => "func",
            Token::Arrow => "=>",
            Token::LParen => "(",
            Token::RParen => ")",
            Token::LBrace => "{",
            Token::RBrace => "}",
            Token::LBracket => "[",
            Token::RBracket => "]",
            Token::Semicolon => ";",
            Token::Comma => ",",
            Token::Dot => ".",
            Token::DotDot => "..",
            Token::DotDotDot => "...",
            Token::DotDotEqual => "..=",
            Token::Hash => "#",
            Token::UnclosedString => "unclosed string",
            Token::InvalidEscapeSequence => "invalid escape sequence",
            Token::UnverifiedString(_) => "unverified string",
            Token::Error => "error",
        }
    }
    /// Whether two tokens are the same token, with the same text or number.
    pub fn same(&self, other: &Token) -> (r: bool)
        ensures
            r == (self@ == other@),
    {
        match (self, other) {
            (Token::Number(a), Token::Number(b)) => a.same(b),
            (Token::Identifier(a), Token::Identifier(b)) => same_text(a.as_str(), b.as_str()),
            (Token::String(a), Token::String(b)) => same_text(a.as_str(), b.as_str()),
            (Token::UnverifiedString(Ok(a)), Token::UnverifiedString(Ok(b))) => same_text(
                a.as_str(),
                b.as_str(),
            ),
            (Token::UnverifiedString(Err(a)), Token::UnverifiedString(Err(b))) => same_text(
                a.as_str(),
                b.as_str(),
            ),
            (Token::Plus, Token::Plus) => true,
            (Token::Minus, Token::Minus) => true,
            (Token::Star, Token::Star) => true,
            (Token::StarStar, Token::StarStar) => true,
            (Token::Slash, Token::Slash) => true,
            (Token::Percent, Token::Percent) => true,
            (Token::Equal, Token::Equal) => true,
            (Token::PlusEqual, Token::PlusEqual) => true,
            (Token::MinusEqual, Token::MinusEqual) => true,
            (Token::StarEqual, Token::StarEqual) => true,
            (Token::SlashEqual, Token::SlashEqual) => true,
            (Token::PercentEqual, Token::PercentEqual) => true,
            (Token::StarStarEqual, Token::StarStarEqual) => true,
            (Token::EqualEqual, Token::EqualEqual) => true,
            (Token::ExclamationEqual, Token::ExclamationEqual) => true,
            (Token::LessThan, Token::LessThan) => true,
            (Token::LessThanEqual, Token::LessThanEqual) => true,
            (Token::GreaterThan, Token::GreaterThan) => true,
            (Token::GreaterThanEqual, Token::GreaterThanEqual) => true,
            (Token::Not, Token::Not) => true,
            (Token::And, Token::And) => true,
            (Token::Or, Token::Or) => true,
            (Token::If, Token::If) => true,
            (Token::Else, Token::Else) => true,
            (Token::While, Token::While) => true,
            (Token::For, Token::For) => true,
            (Token::In, Token::In) => true,
            (Token::Return, Token::Return) => true,
            (Token::Break, Token::Break) => true,
            (Token::Continue, Token::Continue) => true,
            (Token::Import, Token::Import) => true,
            (Token::Match, Token::Match) => true,
            (Token::True, Token::True) => true,
            (Token::False, Token::False) => true,
            (Token::Void, Token::Void) => true,
            (Token::Func, Token::Func) => true,
            (Token::Arrow, Token::Arrow) => true,
            (Token::LParen, Token::LParen) => true,
            (Token::RParen, Token::RParen) => true,
            (Token::LBrace, Token::LBrace) => true,
            (Token::RBrace, Token::RBrace) => true,
            (Token::LBracket, Token::LBracket) => true,
            (Token::RBracket, Token::RBracket) => true,
            (Token::Semicolon, Token::Semicolon) => true,
            (Token::Comma, Token::Comma) => true,
            (Token::Dot, Token::Dot) => true,
            (Token::DotDot, Token::DotDot) => true,
            (Token::DotDotDot, Token::DotDotDot) => true,
            (Token::DotDotEqual, Token::DotDotEqual) => true,
            (Token::Hash, Token::Hash) => true,
            (Token::UnclosedString, Token::UnclosedString) => true,
            (Token::InvalidEscapeSequence, Token::InvalidEscapeSequence) => true,
            (Token::Error, Token::Error) => true,
            _ => false,
        }
    }
}

impl NumberLiteral {
    /// Whether two literals are the same: the same digits, or the same pattern.
    pub fn same(&self, other: &NumberLiteral) -> (r: bool)
        ensures
            r == (self@ == other@),
    {
        match (self, other) {
            (NumberLiteral::Decimal(a), NumberLiteral::Decimal(b)) => same_text(
                a.as_str(),
                b.as_str(),
            ),
            (NumberLiteral::Bits(a), NumberLiteral::Bits(b)) => *a == *b,
            _ => false,
        }
    }
}

} // verus!
