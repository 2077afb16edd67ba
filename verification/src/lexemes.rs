use crate::lexer::{keyword, lemma_run_end_is, lex, span_of, symbol_at, ByteClass};
use crate::token::{Token, TokenView};
use vstd::prelude::*;
use vstd::utf8::*;

verus! {

broadcast use vstd::utf8::group_utf8_lib;

/// The text is the lexeme of `token` and nothing else: its tokens are
/// `token` alone, reported at the whole text.
pub open spec fn spells(text: Seq<char>, token: Token) -> bool {
    lex(encode_utf8(text), 0) == seq![
        (TokenView::Fixed(token), span_of(0, encode_utf8(text).len() as int)),
    ]
}

/// The token is an operator, a punctuation mark or a keyword: a token
/// with one lexeme.
pub open spec fn has_lexeme(token: Token) -> bool {
    token.is_fixed() && token != Token::UnclosedString && token != Token::InvalidEscapeSequence
        && token != Token::Error
}

/// A text in which an operator or punctuation mark starts and ends is the
/// lexeme of that mark.
proof fn lemma_symbol(text: Seq<char>, token: Token)
    requires
        is_ascii_chars(text),
        0 < text.len() <= 3,
        symbol_at(encode_utf8(text), 0) == Some((token, text.len() as int)),
    ensures
        spells(text, token),
{
    let s = encode_utf8(text);
    is_ascii_chars_encode_utf8(text);
    let len = s.len() as int;
    assert(lex(s, len) =~= Seq::empty());
}

/// A text of small letters that spells a keyword is the lexeme of that keyword.
proof fn lemma_word(text: Seq<char>, token: Token)
    requires
        text.len() > 0,
        forall|i: int| 0 <= i < text.len() ==> 'a' <= #[trigger] text[i] <= 'z',
        keyword(text) == Some(token),
    ensures
        spells(text, token),
{
    let s = encode_utf8(text);
    is_ascii_chars_encode_utf8(text);
    let len = s.len() as int;
    assert forall|i: int| 0 <= i < len implies ByteClass::Word.has(#[trigger] s[i]) && !(
    ByteClass::Digit.has(s[i])) by {}
    lemma_run_end_is(s, 1, len, ByteClass::Word);
    assert(s.subrange(0, len) =~= s);
    assert(lex(s, len) =~= Seq::empty());
}

/// Each keyword is spelled by its own text alone.
proof fn lemma_keywords()
    ensures
        keyword("not"@) == Some(Token::Not),
        keyword("and"@) == Some(Token::And),
        keyword("or"@) == Some(Token::Or),
        keyword("if"@) == Some(Token::If),
        keyword("else"@) == Some(Token::Else),
        keyword("while"@) == Some(Token::While),
        keyword("for"@) == Some(Token::For),
        keyword("in"@) == Some(Token::In),
        keyword("return"@) == Some(Token::Return),
        keyword("break"@) == Some(Token::Break),
        keyword("continue"@) == Some(Token::Continue),
        keyword("import"@) == Some(Token::Import),
        keyword("match"@) == Some(Token::Match),
        keyword("true"@) == Some(Token::True),
        keyword("false"@) == Some(Token::False),
        keyword("void"@) == Some(Token::Void),
        keyword("func"@) == Some(Token::Func),
{
    reveal_strlit("not");
    reveal_strlit("and");
    reveal_strlit("or");
    reveal_strlit("if");
    reveal_strlit("else");
    reveal_strlit("while");
    reveal_strlit("for");
    reveal_strlit("in");
    reveal_strlit("return");
    reveal_strlit("break");
    reveal_strlit("continue");
    reveal_strlit("import");
    reveal_strlit("match");
    reveal_strlit("true");
    reveal_strlit("false");
    reveal_strlit("void");
    reveal_strlit("func");
    assert("not"@.len() == 3 && "not"@[0] == 'n' && "not"@[1] == 'o');
    assert("and"@.len() == 3 && "and"@[0] == 'a' && "and"@[1] == 'n');
    assert("or"@.len() == 2 && "or"@[0] == 'o' && "or"@[1] == 'r');
    assert("if"@.len() == 2 && "if"@[0] == 'i' && "if"@[1] == 'f');
    assert("else"@.len() == 4 && "else"@[0] == 'e' && "else"@[1] == 'l');
    assert("while"@.len() == 5 && "while"@[0] == 'w' && "while"@[1] == 'h');
    assert("for"@.len() == 3 && "for"@[0] == 'f' && "for"@[1] == 'o');
    assert("in"@.len() == 2 && "in"@[0] == 'i' && "in"@[1] == 'n');
    assert("return"@.len() == 6 && "return"@[0] == 'r' && "return"@[1] == 'e');
    assert("break"@.len() == 5 && "break"@[0] == 'b' && "break"@[1] == 'r');
    assert("continue"@.len() == 8 && "continue"@[0] == 'c' && "continue"@[1] == 'o');
    assert("import"@.len() == 6 && "import"@[0] == 'i' && "import"@[1] == 'm');
    assert("match"@.len() == 5 && "match"@[0] == 'm' && "match"@[1] == 'a');
    assert("true"@.len() == 4 && "true"@[0] == 't' && "true"@[1] == 'r');
    assert("false"@.len() == 5 && "false"@[0] == 'f' && "false"@[1] == 'a');
    assert("void"@.len() == 4 && "void"@[0] == 'v' && "void"@[1] == 'o');
}

proof fn lemma_arithmetic_marks()
    ensures
        spells("+"@, Token::Plus),
        spells("-"@, Token::Minus),
        spells("*"@, Token::Star),
        spells("**"@, Token::StarStar),
        spells("/"@, Token::Slash),
        spells("%"@, Token::Percent),
{
    reveal_strlit("+");
    is_ascii_chars_encode_utf8("+"@);
    lemma_symbol("+"@, Token::Plus);
    reveal_strlit("-");
    is_ascii_chars_encode_utf8("-"@);
    lemma_symbol("-"@, Token::Minus);
    reveal_strlit("*");
    is_ascii_chars_encode_utf8("*"@);
    lemma_symbol("*"@, Token::Star);
    reveal_strlit("**");
    is_ascii_chars_encode_utf8("**"@);
    lemma_symbol("**"@, Token::StarStar);
    reveal_strlit("/");
    is_ascii_chars_encode_utf8("/"@);
    lemma_symbol("/"@, Token::Slash);
    reveal_strlit("%");
    is_ascii_chars_encode_utf8("%"@);
    lemma_symbol("%"@, Token::Percent);
}

proof fn lemma_assignment_marks()
    ensures
        spells("="@, Token::Equal),
        spells("+="@, Token::PlusEqual),
        spells("-="@, Token::MinusEqual),
        spells("*="@, Token::StarEqual),
{
    reveal_strlit("=");
    is_ascii_chars_encode_utf8("="@);
    lemma_symbol("="@, Token::Equal);
    reveal_strlit("+=");
    is_ascii_chars_encode_utf8("+="@);
    lemma_symbol("+="@, Token::PlusEqual);
    reveal_strlit("-=");
    is_ascii_chars_encode_utf8("-="@);
    lemma_symbol("-="@, Token::MinusEqual);
    reveal_strlit("*=");
    is_ascii_chars_encode_utf8("*="@);
    lemma_symbol("*="@, Token::StarEqual);
}

proof fn lemma_compound_marks()
    ensures
        spells("/="@, Token::SlashEqual),
        spells("%="@, Token::PercentEqual),
        spells("**="@, Token::StarStarEqual),
        spells("=="@, Token::EqualEqual),
{
    reveal_strlit("/=");
    is_ascii_chars_encode_utf8("/="@);
    lemma_symbol("/="@, Token::SlashEqual);
    reveal_strlit("%=");
    is_ascii_chars_encode_utf8("%="@);
    lemma_symbol("%="@, Token::PercentEqual);
    reveal_strlit("**=");
    is_ascii_chars_encode_utf8("**="@);
    lemma_symbol("**="@, Token::StarStarEqual);
    reveal_strlit("==");
    is_ascii_chars_encode_utf8("=="@);
    lemma_symbol("=="@, Token::EqualEqual);
}

proof fn lemma_comparison_marks()
    ensures
        spells("!="@, Token::ExclamationEqual),
        spells("<"@, Token::LessThan),
        spells("<="@, Token::LessThanEqual),
{
    reveal_strlit("!=");
    is_ascii_chars_encode_utf8("!="@);
    lemma_symbol("!="@, Token::ExclamationEqual);
    reveal_strlit("<");
    is_ascii_chars_encode_utf8("<"@);
    lemma_symbol("<"@, Token::LessThan);
    reveal_strlit("<=");
    is_ascii_chars_encode_utf8("<="@);
    lemma_symbol("<="@, Token::LessThanEqual);
}

proof fn lemma_order_marks()
    ensures
        spells(">"@, Token::GreaterThan),
        spells(">="@, Token::GreaterThanEqual),
        spells("=>"@, Token::Arrow),
{
    reveal_strlit(">");
    is_ascii_chars_encode_utf8(">"@);
    lemma_symbol(">"@, Token::GreaterThan);
    reveal_strlit(">=");
    is_ascii_chars_encode_utf8(">="@);
    lemma_symbol(">="@, Token::GreaterThanEqual);
    reveal_strlit("=>");
    is_ascii_chars_encode_utf8("=>"@);
    lemma_symbol("=>"@, Token::Arrow);
}

proof fn lemma_opening_marks()
    ensures
        spells("("@, Token::LParen),
        spells(")"@, Token::RParen),
        spells("{"@, Token::LBrace),
        spells("}"@, Token::RBrace),
{
    reveal_strlit("(");
    is_ascii_chars_encode_utf8("("@);
    lemma_symbol("("@, Token::LParen);
    reveal_strlit(")");
    is_ascii_chars_encode_utf8(")"@);
    lemma_symbol(")"@, Token::RParen);
    reveal_strlit("{");
    is_ascii_chars_encode_utf8("{"@);
    lemma_symbol("{"@, Token::LBrace);
    reveal_strlit("}");
    is_ascii_chars_encode_utf8("}"@);
    lemma_symbol("}"@, Token::RBrace);
}

proof fn lemma_closing_marks()
    ensures
        spells("["@, Token::LBracket),
        spells("]"@, Token::RBracket),
        spells(";"@, Token::Semicolon),
        spells(","@, Token::Comma),
{
    reveal_strlit("[");
    is_ascii_chars_encode_utf8("["@);
    lemma_symbol("["@, Token::LBracket);
    reveal_strlit("]");
    is_ascii_chars_encode_utf8("]"@);
    lemma_symbol("]"@, Token::RBracket);
    reveal_strlit(";");
    is_ascii_chars_encode_utf8(";"@);
    lemma_symbol(";"@, Token::Semicolon);
    reveal_strlit(",");
    is_ascii_chars_encode_utf8(","@);
    lemma_symbol(","@, Token::Comma);
}

proof fn lemma_dot_marks()
    ensures
        spells("."@, Token::Dot),
        spells(".."@, Token::DotDot),
        spells("..."@, Token::DotDotDot),
        spells("..="@, Token::DotDotEqual),
        spells("#"@, Token::Hash),
{
    reveal_strlit(".");
    is_ascii_chars_encode_utf8("."@);
    lemma_symbol("."@, Token::Dot);
    reveal_strlit("..");
    is_ascii_chars_encode_utf8(".."@);
    lemma_symbol(".."@, Token::DotDot);
    reveal_strlit("...");
    is_ascii_chars_encode_utf8("..."@);
    lemma_symbol("..."@, Token::DotDotDot);
    reveal_strlit("..=");
    is_ascii_chars_encode_utf8("..="@);
    lemma_symbol("..="@, Token::DotDotEqual);
    reveal_strlit("#");
    is_ascii_chars_encode_utf8("#"@);
    lemma_symbol("#"@, Token::Hash);
}

proof fn lemma_logic_words()
    ensures
        spells("not"@, Token::Not),
        spells("and"@, Token::And),
        spells("or"@, Token::Or),
        spells("if"@, Token::If),
{
    lemma_keywords();
    reveal_strlit("not");
    lemma_word("not"@, Token::Not);
    reveal_strlit("and");
    lemma_word("and"@, Token::And);
    reveal_strlit("or");
    lemma_word("or"@, Token::Or);
    reveal_strlit("if");
    lemma_word("if"@, Token::If);
}

proof fn lemma_loop_words()
    ensures
        spells("else"@, Token::Else),
        spells("while"@, Token::While),
        spells("for"@, Token::For),
        spells("in"@, Token::In),
{
    lemma_keywords();
    reveal_strlit("else");
    lemma_word("else"@, Token::Else);
    reveal_strlit("while");
    lemma_word("while"@, Token::While);
    reveal_strlit("for");
    lemma_word("for"@, Token::For);
    reveal_strlit("in");
    lemma_word("in"@, Token::In);
}

proof fn lemma_jump_words()
    ensures
        spells("return"@, Token::Return),
        spells("break"@, Token::Break),
        spells("continue"@, Token::Continue),
        spells("import"@, Token::Import),
{
    lemma_keywords();
    reveal_strlit("return");
    lemma_word("return"@, Token::Return);
    reveal_strlit("break");
    lemma_word("break"@, Token::Break);
    reveal_strlit("continue");
    lemma_word("continue"@, Token::Continue);
    reveal_strlit("import");
    lemma_word("import"@, Token::Import);
}

proof fn lemma_value_words()
    ensures
        spells("match"@, Token::Match),
        spells("true"@, Token::True),
        spells("false"@, Token::False),
        spells("void"@, Token::Void),
        spells("func"@, Token::Func),
{
    lemma_keywords();
    reveal_strlit("match");
    lemma_word("match"@, Token::Match);
    reveal_strlit("true");
    lemma_word("true"@, Token::True);
    reveal_strlit("false");
    lemma_word("false"@, Token::False);
    reveal_strlit("void");
    lemma_word("void"@, Token::Void);
    reveal_strlit("func");
    lemma_word("func"@, Token::Func);
}

/// The tokenizer reads back what `rep` writes: the text that names an
/// operator, a punctuation mark or a keyword in a message is the lexeme of
/// that token, so its tokens are the token alone.
pub proof fn lemma_lexeme(token: Token)
    requires
        has_lexeme(token),
    ensures
        spells(token.rep(), token),
{
    match token {
        Token::Plus | Token::Minus | Token::Star | Token::StarStar | Token::Slash | Token::Percent => {
            lemma_arithmetic_marks();
        },
        Token::Equal | Token::PlusEqual | Token::MinusEqual | Token::StarEqual => {
            lemma_assignment_marks();
        },
        Token::SlashEqual | Token::PercentEqual | Token::StarStarEqual | Token::EqualEqual => {
            lemma_compound_marks();
        },
        Token::ExclamationEqual | Token::LessThan | Token::LessThanEqual => {
            lemma_comparison_marks();
        },
        Token::GreaterThan | Token::GreaterThanEqual | Token::Arrow => {
            lemma_order_marks();
        },
        Token::LParen | Token::RParen | Token::LBrace | Token::RBrace => {
            lemma_opening_marks();
        },
        Token::LBracket | Token::RBracket | Token::Semicolon | Token::Comma => {
            lemma_closing_marks();
        },
        Token::Dot | Token::DotDot | Token::DotDotDot | Token::DotDotEqual | Token::Hash => {
            lemma_dot_marks();
        },
        Token::Not | Token::And | Token::Or | Token::If => {
            lemma_logic_words();
        },
        Token::Else | Token::While | Token::For | Token::In => {
            lemma_loop_words();
        },
        Token::Return | Token::Break | Token::Continue | Token::Import => {
            lemma_jump_words();
        },
        Token::Match | Token::True | Token::False | Token::Void | Token::Func => {
            lemma_value_words();
        },
        _ => {},
    }
}

} // verus!
