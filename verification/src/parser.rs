use crate::error::{ErrorView, GlassError};
use crate::lexer::views;
use crate::node::{Node, Tree};
use crate::span::Span;
use crate::text::{excerpt, take_excerpt};
use crate::token::{Token, TokenView};
use std::collections::VecDeque;
use vstd::prelude::*;
use vstd::string::*;
use vstd::utf8::*;

verus! {

broadcast use vstd::utf8::group_utf8_lib;

pub type ParseResult = Result<Node, GlassError>;

/// A level of binary operators. The levels bind from `Equality`, the
/// loosest, to `Power`, the tightest; each is left-associative.
#[derive(Clone, Copy, Debug, PartialEq, Eq, Structural)]
pub enum Level {
    /// `==` and `!=`
    Equality,
    /// `<`, `>`, `<=` and `>=`
    Comparison,
    /// `+` and `-`
    Term,
    /// `*`, `/` and `%`
    Factor,
    /// `**`
    Power,
}

impl Level {
    /// The token is one of the level's operators.
    pub open spec fn takes(self, token: TokenView) -> bool {
        match self {
            Level::Equality => token == TokenView::Fixed(Token::EqualEqual) || token
                == TokenView::Fixed(Token::ExclamationEqual),
            Level::Comparison => token == TokenView::Fixed(Token::LessThan) || token
                == TokenView::Fixed(Token::GreaterThan) || token == TokenView::Fixed(
                Token::LessThanEqual,
            ) || token == TokenView::Fixed(Token::GreaterThanEqual),
            Level::Term => token == TokenView::Fixed(Token::Plus) || token == TokenView::Fixed(
                Token::Minus,
            ),
            Level::Factor => token == TokenView::Fixed(Token::Star) || token == TokenView::Fixed(
                Token::Slash,
            ) || token == TokenView::Fixed(Token::Percent),
            Level::Power => token == TokenView::Fixed(Token::StarStar),
        }
    }

    /// How loosely the level binds: 0 for the tightest.
    pub open spec fn rank(self) -> nat {
        match self {
            Level::Equality => 4,
            Level::Comparison => 3,
            Level::Term => 2,
            Level::Factor => 1,
            Level::Power => 0,
        }
    }

    fn accepts(self, token: &Token) -> (r: bool)
        ensures
            r == self.takes(token@),
    {
        match self {
            Level::Equality => match token {
                Token::EqualEqual | Token::ExclamationEqual => true,
                _ => false,
            },
            Level::Comparison => match token {
                Token::LessThan
                | Token::GreaterThan
                | Token::LessThanEqual
                | Token::GreaterThanEqual => true,
                _ => false,
            },
            Level::Term => match token {
                Token::Plus | Token::Minus => true,
                _ => false,
            },
            Level::Factor => match token {
                Token::Star | Token::Slash | Token::Percent => true,
                _ => false,
            },
            Level::Power => match token {
                Token::StarStar => true,
                _ => false,
            },
        }
    }
}

/// `-`, `+` and `not` stand before an operand.
pub open spec fn is_prefix_operator(token: TokenView) -> bool {
    token == TokenView::Fixed(Token::Minus) || token == TokenView::Fixed(Token::Plus) || token
        == TokenView::Fixed(Token::Not)
}

/// What the parser makes of a token as it takes it from the queue: an error
/// marker becomes the error that it stands for, a string literal whose
/// escapes were left unjudged is judged now, and any other token is kept.
pub open spec fn checked(item: (TokenView, Span), src: Seq<char>, filename: Seq<char>) -> Result<
    (TokenView, Span),
    ErrorView,
> {
    let span = item.1;
    match item.0 {
        TokenView::Fixed(Token::Error) => Err(ErrorView::UnknownToken { src, span, filename }),
        TokenView::Fixed(Token::UnclosedString) => Err(
            ErrorView::UnclosedString { src, span, filename },
        ),
        TokenView::Fixed(Token::InvalidEscapeSequence) => Err(
            ErrorView::UnknownEscapeSequence {
                escape_sequence: excerpt(encode_utf8(src), span),
                src,
                filename,
                span,
            },
        ),
        TokenView::UnverifiedString(Ok(text)) => Ok((TokenView::String(text), span)),
        TokenView::UnverifiedString(Err(escape)) => Err(
            ErrorView::UnknownEscapeSequence { escape_sequence: escape, src, filename, span },
        ),
        _ => Ok(item),
    }
}

/// What a parsing step comes to, and the tokens that it leaves in the queue.
pub struct Parsed {
    pub outcome: Result<Tree, ErrorView>,
    pub rest: Seq<(TokenView, Span)>,
}

/// Takes the closing parenthesis behind a parenthesized expression.
pub open spec fn closing(
    inner: Tree,
    ts: Seq<(TokenView, Span)>,
    src: Seq<char>,
    filename: Seq<char>,
) -> Parsed {
    if ts.len() == 0 {
        Parsed { outcome: Err(ErrorView::UnexpectedEndOfInput { filename }), rest: ts }
    } else {
        match checked(ts[0], src, filename) {
            Err(error) => Parsed { outcome: Err(error), rest: ts.drop_first() },
            Ok((token, span)) => if token == TokenView::Fixed(Token::RParen) {
                Parsed { outcome: Ok(inner), rest: ts.drop_first() }
            } else {
                Parsed {
                    outcome: Err(
                        ErrorView::UnexpectedToken {
                            expected: Some(TokenView::Fixed(Token::RParen)),
                            actual: token,
                            src,
                            filename,
                            span,
                        },
                    ),
                    rest: ts.drop_first(),
                }
            },
        }
    }
}

/// An atom: a number, a string, an identifier, or an expression in parentheses.
pub open spec fn atom(ts: Seq<(TokenView, Span)>, src: Seq<char>, filename: Seq<char>) -> Parsed
    decreases ts.len(), 0nat,
{
    if ts.len() == 0 {
        Parsed { outcome: Err(ErrorView::UnexpectedEndOfInput { filename }), rest: ts }
    } else {
        match checked(ts[0], src, filename) {
            Err(error) => Parsed { outcome: Err(error), rest: ts.drop_first() },
            Ok((token, span)) => match token {
                TokenView::Number(value) => Parsed {
                    outcome: Ok(Tree::Number { value }),
                    rest: ts.drop_first(),
                },
                TokenView::String(value) => Parsed {
                    outcome: Ok(Tree::String { value }),
                    rest: ts.drop_first(),
                },
                TokenView::Identifier(name) => Parsed {
                    outcome: Ok(Tree::Identifier { name }),
                    rest: ts.drop_first(),
                },
                TokenView::Fixed(Token::LParen) => {
                    let inner = climb(Level::Equality, ts.drop_first(), src, filename);
                    match inner.outcome {
                        Ok(tree) => closing(tree, inner.rest, src, filename),
                        Err(_) => inner,
                    }
                },
                _ => Parsed {
                    outcome: Err(
                        ErrorView::UnexpectedToken {
                            expected: None,
                            actual: token,
                            src,
                            filename,
                            span,
                        },
                    ),
                    rest: ts.drop_first(),
                },
            },
        }
    }
}

/// A unary expression: prefix operators, then an atom.
pub open spec fn unary(ts: Seq<(TokenView, Span)>, src: Seq<char>, filename: Seq<char>) -> Parsed
    decreases ts.len(), 1nat,
{
    if ts.len() == 0 {
        Parsed { outcome: Err(ErrorView::UnexpectedEndOfInput { filename }), rest: ts }
    } else if is_prefix_operator(ts[0].0) {
        let operand = unary(ts.drop_first(), src, filename);
        match operand.outcome {
            Ok(tree) => Parsed {
                outcome: Ok(Tree::UnaryOp { op: ts[0].0, expr: Box::new(tree) }),
                rest: operand.rest,
            },
            Err(_) => operand,
        }
    } else {
        atom(ts, src, filename)
    }
}

/// An operand of `level`: an expression of the next tighter level, and a
/// unary expression for the tightest.
pub open spec fn operand(
    level: Level,
    ts: Seq<(TokenView, Span)>,
    src: Seq<char>,
    filename: Seq<char>,
) -> Parsed
    decreases ts.len(), 3 * level.rank() + 2,
{
    match level {
        Level::Equality => climb(Level::Comparison, ts, src, filename),
        Level::Comparison => climb(Level::Term, ts, src, filename),
        Level::Term => climb(Level::Factor, ts, src, filename),
        Level::Factor => climb(Level::Power, ts, src, filename),
        Level::Power => unary(ts, src, filename),
    }
}

/// An expression of `level`: an operand, then operators of the level, each
/// with an operand behind it, folded from the left.
pub open spec fn climb(
    level: Level,
    ts: Seq<(TokenView, Span)>,
    src: Seq<char>,
    filename: Seq<char>,
) -> Parsed
    decreases ts.len(), 3 * level.rank() + 4,
{
    let first = operand(level, ts, src, filename);
    match first.outcome {
        Ok(left) if first.rest.len() <= ts.len() => fold(level, left, first.rest, src, filename),
        _ => first,
    }
}

/// Goes on behind the operand `left`: while the next token is an operator
/// of `level`, takes it and an operand, and puts the two operands under it.
/// A next token that is an error marker is taken and ends the parse with
/// the error that it stands for.
pub open spec fn fold(
    level: Level,
    left: Tree,
    ts: Seq<(TokenView, Span)>,
    src: Seq<char>,
    filename: Seq<char>,
) -> Parsed
    decreases ts.len(), 3 * level.rank() + 3,
{
    if ts.len() == 0 {
        Parsed { outcome: Ok(left), rest: ts }
    } else {
        match checked(ts[0], src, filename) {
            Err(error) => Parsed { outcome: Err(error), rest: ts.drop_first() },
            Ok((token, _)) => if level.takes(token) {
                let next = operand(level, ts.drop_first(), src, filename);
                match next.outcome {
                    Ok(right) if next.rest.len() < ts.len() => fold(
                        level,
                        Tree::BinaryOp { op: token, left: Box::new(left), right: Box::new(right) },
                        next.rest,
                        src,
                        filename,
                    ),
                    _ => next,
                }
            } else {
                Parsed { outcome: Ok(left), rest: ts }
            },
        }
    }
}

/// A whole expression.
pub open spec fn expression(
    ts: Seq<(TokenView, Span)>,
    src: Seq<char>,
    filename: Seq<char>,
) -> Parsed {
    climb(Level::Equality, ts, src, filename)
}

/// The outcome of parsing, as the contracts speak of it.
pub open spec fn outcome_view(result: ParseResult) -> Result<Tree, ErrorView> {
    match result {
        Ok(node) => Ok(node@),
        Err(error) => Err(error@),
    }
}

/// No parsing step puts tokens into the queue: what it leaves is no longer
/// than what it found, and shorter where it came to a tree.
pub proof fn lemma_rest(level: Level, ts: Seq<(TokenView, Span)>, src: Seq<char>, filename: Seq<char>)
    ensures
        atom(ts, src, filename).rest.len() <= ts.len(),
        unary(ts, src, filename).rest.len() <= ts.len(),
        operand(level, ts, src, filename).rest.len() <= ts.len(),
        climb(level, ts, src, filename).rest.len() <= ts.len(),
        atom(ts, src, filename).outcome is Ok ==> atom(ts, src, filename).rest.len() < ts.len(),
        unary(ts, src, filename).outcome is Ok ==> unary(ts, src, filename).rest.len() < ts.len(),
        operand(level, ts, src, filename).outcome is Ok ==> operand(
            level,
            ts,
            src,
            filename,
        ).rest.len() < ts.len(),
        climb(level, ts, src, filename).outcome is Ok ==> climb(level, ts, src, filename).rest.len()
            < ts.len(),
    decreases ts.len(), 3 * level.rank() + 5,
{
    if ts.len() > 0 {
        lemma_rest(Level::Equality, ts.drop_first(), src, filename);
        lemma_rest(level, ts.drop_first(), src, filename);
    }
    match level {
        Level::Equality => lemma_rest(Level::Comparison, ts, src, filename),
        Level::Comparison => lemma_rest(Level::Term, ts, src, filename),
        Level::Term => lemma_rest(Level::Factor, ts, src, filename),
        Level::Factor => lemma_rest(Level::Power, ts, src, filename),
        Level::Power => {},
    }
    let first = operand(level, ts, src, filename);
    if let Ok(left) = first.outcome {
        lemma_fold_rest(level, left, first.rest, src, filename);
    }
}

/// Going on behind an operand puts no token into the queue either.
pub proof fn lemma_fold_rest(
    level: Level,
    left: Tree,
    ts: Seq<(TokenView, Span)>,
    src: Seq<char>,
    filename: Seq<char>,
)
    ensures
        fold(level, left, ts, src, filename).rest.len() <= ts.len(),
    decreases ts.len(), 3 * level.rank() + 3,
{
    if ts.len() > 0 {
        if let Ok((token, _)) = checked(ts[0], src, filename) {
            if level.takes(token) {
                lemma_rest(level, ts.drop_first(), src, filename);
                let next = operand(level, ts.drop_first(), src, filename);
                if let Ok(right) = next.outcome {
                    lemma_fold_rest(
                        level,
                        Tree::BinaryOp { op: token, left: Box::new(left), right: Box::new(right) },
                        next.rest,
                        src,
                        filename,
                    );
                }
            }
        }
    }
}

/// `rest` is what is left of `all` once some tokens are taken from its front.
pub open spec fn is_suffix(rest: Seq<(TokenView, Span)>, all: Seq<(TokenView, Span)>) -> bool {
    rest.len() <= all.len() && rest =~= all.subrange(all.len() - rest.len(), all.len() as int)
}

/// A parsing step keeps to the queue `ts`: it leaves what some tokens
/// taken from the front of `ts` leave, and an error that points into the
/// source text points at the span of a token of `ts`.
pub open spec fn keeps_to(parsed: Parsed, ts: Seq<(TokenView, Span)>) -> bool {
    &&& is_suffix(parsed.rest, ts)
    &&& parsed.outcome matches Err(error) ==> (error.place() matches Some(span) ==> exists|
        i: int,
    |
        0 <= i < ts.len() && (#[trigger] ts[i]).1 == span)
}

/// What keeps to the rest of a queue keeps to the queue.
pub proof fn lemma_keeps_to_more(
    parsed: Parsed,
    rest: Seq<(TokenView, Span)>,
    all: Seq<(TokenView, Span)>,
)
    requires
        keeps_to(parsed, rest),
        is_suffix(rest, all),
    ensures
        keeps_to(parsed, all),
{
}

/// The parser never puts a token back: every parsing step leaves what is
/// left of the queue once some tokens are taken from its front. And its
/// errors point at tokens of the queue.
pub proof fn lemma_keeps_to(
    level: Level,
    ts: Seq<(TokenView, Span)>,
    src: Seq<char>,
    filename: Seq<char>,
)
    ensures
        keeps_to(atom(ts, src, filename), ts),
        keeps_to(unary(ts, src, filename), ts),
        keeps_to(operand(level, ts, src, filename), ts),
        keeps_to(climb(level, ts, src, filename), ts),
    decreases ts.len(), 3 * level.rank() + 5,
{
    if ts.len() > 0 {
        let tail = ts.drop_first();
        lemma_keeps_to(Level::Equality, tail, src, filename);
        lemma_keeps_to(level, tail, src, filename);
        // an expression in parentheses
        let inner = climb(Level::Equality, tail, src, filename);
        lemma_keeps_to_more(inner, tail, ts);
        if let Ok(tree) = inner.outcome {
            let closed = closing(tree, inner.rest, src, filename);
            lemma_keeps_to_more(closed, inner.rest, ts);
        }
        // an operand behind a prefix operator
        let behind = unary(tail, src, filename);
        lemma_keeps_to_more(behind, tail, ts);
    }
    match level {
        Level::Equality => lemma_keeps_to(Level::Comparison, ts, src, filename),
        Level::Comparison => lemma_keeps_to(Level::Term, ts, src, filename),
        Level::Term => lemma_keeps_to(Level::Factor, ts, src, filename),
        Level::Factor => lemma_keeps_to(Level::Power, ts, src, filename),
        Level::Power => {},
    }
    let first = operand(level, ts, src, filename);
    if let Ok(left) = first.outcome {
        lemma_rest(level, ts, src, filename);
        lemma_fold_keeps_to(level, left, first.rest, src, filename);
        lemma_keeps_to_more(fold(level, left, first.rest, src, filename), first.rest, ts);
    }
}

/// Going on behind an operand keeps to the queue as well.
pub proof fn lemma_fold_keeps_to(
    level: Level,
    left: Tree,
    ts: Seq<(TokenView, Span)>,
    src: Seq<char>,
    filename: Seq<char>,
)
    ensures
        keeps_to(fold(level, left, ts, src, filename), ts),
    decreases ts.len(), 3 * level.rank() + 3,
{
    assert(is_suffix(ts, ts));
    if ts.len() > 0 {
        let tail = ts.drop_first();
        assert(is_suffix(tail, ts));
        assert(ts[0].1 == ts[0].1);
        if let Ok((token, _)) = checked(ts[0], src, filename) {
            if level.takes(token) {
                lemma_keeps_to(level, tail, src, filename);
                lemma_rest(level, tail, src, filename);
                let next = operand(level, tail, src, filename);
                lemma_keeps_to_more(next, tail, ts);
                if let Ok(right) = next.outcome {
                    let node = Tree::BinaryOp {
                        op: token,
                        left: Box::new(left),
                        right: Box::new(right),
                    };
                    lemma_fold_keeps_to(level, node, next.rest, src, filename);
                    lemma_keeps_to_more(
                        fold(level, node, next.rest, src, filename),
                        next.rest,
                        tail,
                    );
                    lemma_keeps_to_more(fold(level, node, next.rest, src, filename), tail, ts);
                }
            }
        }
    }
}

/// A recursive-descent parser over a queue of tokens, which it takes from
/// the front and never puts back.
pub struct Parser {
    tokens: VecDeque<(Token, Span)>,
    src: String,
    filename: String,
}

impl Parser {
    /// The tokens that are still in the queue.
    pub closed spec fn remaining(&self) -> Seq<(TokenView, Span)> {
        views(self.tokens@)
    }

    /// The source text that errors quote.
    pub closed spec fn source(&self) -> Seq<char> {
        self.src@
    }

    /// The name of the source file that errors name.
    pub closed spec fn origin(&self) -> Seq<char> {
        self.filename@
    }

    /// A parser of the tokens in `tokens`, which were read from the text
    /// `src` of the file `filename`.
    pub fn new(tokens: VecDeque<(Token, Span)>, src: String, filename: String) -> (parser: Self)
        ensures
            parser.remaining() == views(tokens@),
            parser.source() == src@,
            parser.origin() == filename@,
    {
        Self { tokens, src, filename }
    }

    /// Parses one expression from the front of the queue. Tokens behind the
    /// expression stay in the queue.
    pub fn parse(&mut self) -> (result: ParseResult)
        ensures
            outcome_view(result) == expression(
                old(self).remaining(),
                old(self).source(),
                old(self).origin(),
            ).outcome,
            final(self).remaining() == expression(
                old(self).remaining(),
                old(self).source(),
                old(self).origin(),
            ).rest,
            final(self).source() == old(self).source(),
            final(self).origin() == old(self).origin(),
    {
        self.parse_expression()
    }

    fn parse_expression(&mut self) -> (result: ParseResult)
        ensures
            outcome_view(result) == expression(views(old(self).tokens@), old(self).src@, old(self).filename@).outcome,
            views(final(self).tokens@) == expression(views(old(self).tokens@), old(self).src@, old(self).filename@).rest,
            final(self).src@ == old(self).src@,
            final(self).filename@ == old(self).filename@,
            final(self).tokens.len() <= old(self).tokens.len(),
        decreases old(self).tokens.len(), 23nat,
    {
        self.parse_equality()
    }

    fn parse_equality(&mut self) -> (result: ParseResult)
        ensures
            outcome_view(result) == climb(Level::Equality, views(old(self).tokens@), old(self).src@, old(self).filename@).outcome,
            views(final(self).tokens@) == climb(Level::Equality, views(old(self).tokens@), old(self).src@, old(self).filename@).rest,
            final(self).src@ == old(self).src@,
            final(self).filename@ == old(self).filename@,
            final(self).tokens.len() <= old(self).tokens.len(),
        decreases old(self).tokens.len(), 22nat,
    {
        self.parse_math_expression(Level::Equality)
    }

    fn parse_comparison(&mut self) -> (result: ParseResult)
        ensures
            outcome_view(result) == climb(Level::Comparison, views(old(self).tokens@), old(self).src@, old(self).filename@).outcome,
            views(final(self).tokens@) == climb(Level::Comparison, views(old(self).tokens@), old(self).src@, old(self).filename@).rest,
            final(self).src@ == old(self).src@,
            final(self).filename@ == old(self).filename@,
            final(self).tokens.len() <= old(self).tokens.len(),
        decreases old(self).tokens.len(), 18nat,
    {
        self.parse_math_expression(Level::Comparison)
    }

    fn parse_term(&mut self) -> (result: ParseResult)
        ensures
            outcome_view(result) == climb(Level::Term, views(old(self).tokens@), old(self).src@, old(self).filename@).outcome,
            views(final(self).tokens@) == climb(Level::Term, views(old(self).tokens@), old(self).src@, old(self).filename@).rest,
            final(self).src@ == old(self).src@,
            final(self).filename@ == old(self).filename@,
            final(self).tokens.len() <= old(self).tokens.len(),
        decreases old(self).tokens.len(), 14nat,
    {
        self.parse_math_expression(Level::Term)
    }

    fn parse_factor(&mut self) -> (result: ParseResult)
        ensures
            outcome_view(result) == climb(Level::Factor, views(old(self).tokens@), old(self).src@, old(self).filename@).outcome,
            views(final(self).tokens@) == climb(Level::Factor, views(old(self).tokens@), old(self).src@, old(self).filename@).rest,
            final(self).src@ == old(self).src@,
            final(self).filename@ == old(self).filename@,
            final(self).tokens.len() <= old(self).tokens.len(),
        decreases old(self).tokens.len(), 10nat,
    {
        self.parse_math_expression(Level::Factor)
    }

    fn parse_power(&mut self) -> (result: ParseResult)
        ensures
            outcome_view(result) == climb(Level::Power, views(old(self).tokens@), old(self).src@, old(self).filename@).outcome,
            views(final(self).tokens@) == climb(Level::Power, views(old(self).tokens@), old(self).src@, old(self).filename@).rest,
            final(self).src@ == old(self).src@,
            final(self).filename@ == old(self).filename@,
            final(self).tokens.len() <= old(self).tokens.len(),
        decreases old(self).tokens.len(), 6nat,
    {
        self.parse_math_expression(Level::Power)
    }

    /// Parses an operand of `level`.
    fn parse_operand(&mut self, level: Level) -> (result: ParseResult)
        ensures
            outcome_view(result) == operand(level, views(old(self).tokens@), old(self).src@, old(self).filename@).outcome,
            views(final(self).tokens@) == operand(level, views(old(self).tokens@), old(self).src@, old(self).filename@).rest,
            final(self).src@ == old(self).src@,
            final(self).filename@ == old(self).filename@,
            final(self).tokens.len() <= old(self).tokens.len(),
        decreases old(self).tokens.len(), 4 * level.rank() + 4,
    {
        match level {
            Level::Equality => self.parse_comparison(),
            Level::Comparison => self.parse_term(),
            Level::Term => self.parse_factor(),
            Level::Factor => self.parse_power(),
            Level::Power => self.parse_unary(),
        }
    }

    /// Parses an expression of `level`: an operand, then as long as an
    /// operator of the level comes next, the operator and another operand.
    fn parse_math_expression(&mut self, level: Level) -> (result: ParseResult)
        ensures
            outcome_view(result) == climb(level, views(old(self).tokens@), old(self).src@, old(self).filename@).outcome,
            views(final(self).tokens@) == climb(level, views(old(self).tokens@), old(self).src@, old(self).filename@).rest,
            final(self).src@ == old(self).src@,
            final(self).filename@ == old(self).filename@,
            final(self).tokens.len() <= old(self).tokens.len(),
        decreases old(self).tokens.len(), 4 * level.rank() + 5,
    {
        let ghost start = views(self.tokens@);
        let ghost src = self.src@;
        let ghost filename = self.filename@;
        let ghost count = self.tokens.len();
        let mut left = match self.parse_operand(level) {
            Ok(node) => node,
            Err(error) => {
                return Err(error);
            },
        };
        loop
            invariant
                src == old(self).src@,
                filename == old(self).filename@,
                start == views(old(self).tokens@),
                count == old(self).tokens.len(),
                self.src@ == src,
                self.filename@ == filename,
                self.tokens.len() <= count,
                fold(level, left@, views(self.tokens@), src, filename) == climb(
                    level,
                    start,
                    src,
                    filename,
                ),
            decreases self.tokens.len(),
        {
            let ghost before = views(self.tokens@);
            let op = match self.peek() {
                Err(error) => {
                    self.tokens.pop_front();
                    assert(views(self.tokens@) =~= before.drop_first());
                    return Err(error);
                },
                Ok(Some((token, _))) => {
                    if !level.accepts(&token) {
                        return Ok(left);
                    }
                    token
                },
                Ok(None) => {
                    return Ok(left);
                },
            };
            self.tokens.pop_front();
            proof {
                assert(views(self.tokens@) =~= before.drop_first());
                lemma_rest(level, before.drop_first(), src, filename);
            }
            let right = match self.parse_operand(level) {
                Ok(node) => node,
                Err(error) => {
                    return Err(error);
                },
            };
            left = Node::BinaryOp { op, left: Box::new(left), right: Box::new(right) };
        }
    }

    /// Parses a unary expression: `-`, `+` or `not` before a unary
    /// expression, or an atom.
    fn parse_unary(&mut self) -> (result: ParseResult)
        ensures
            outcome_view(result) == unary(views(old(self).tokens@), old(self).src@, old(self).filename@).outcome,
            views(final(self).tokens@) == unary(views(old(self).tokens@), old(self).src@, old(self).filename@).rest,
            final(self).src@ == old(self).src@,
            final(self).filename@ == old(self).filename@,
            final(self).tokens.len() <= old(self).tokens.len(),
        decreases old(self).tokens.len(), 2nat,
    {
        let ghost before = views(self.tokens@);
        let op = match self.peek() {
            Ok(Some((token, _))) => match token {
                Token::Minus | Token::Plus | Token::Not => Some(token),
                _ => None,
            },
            Ok(None) => {
                return Err(GlassError::UnexpectedEndOfInput { filename: self.filename.clone() });
            },
            Err(_) => None,
        };
        if let Some(op) = op {
            self.tokens.pop_front();
            assert(views(self.tokens@) =~= before.drop_first());
            let expr = match self.parse_unary() {
                Ok(node) => node,
                Err(error) => {
                    return Err(error);
                },
            };
            return Ok(Node::UnaryOp { op, expr: Box::new(expr) });
        }
        self.parse_atom()
    }

    /// Parses an atom: a number, a string, an identifier, or an expression
    /// in parentheses.
    fn parse_atom(&mut self) -> (result: ParseResult)
        ensures
            outcome_view(result) == atom(views(old(self).tokens@), old(self).src@, old(self).filename@).outcome,
            views(final(self).tokens@) == atom(views(old(self).tokens@), old(self).src@, old(self).filename@).rest,
            final(self).src@ == old(self).src@,
            final(self).filename@ == old(self).filename@,
            final(self).tokens.len() <= old(self).tokens.len(),
        decreases old(self).tokens.len(), 1nat,
    {
        let token = match self.next() {
            Ok(token) => token,
            Err(error) => {
                return Err(error);
            },
        };
        match token {
            Some((Token::Number(value), _)) => Ok(Node::Number { value }),
            Some((Token::String(value), _)) => Ok(Node::String { value }),
            Some((Token::Identifier(name), _)) => Ok(Node::Identifier { name }),
            Some((Token::LParen, _)) => {
                let node = match self.parse_expression() {
                    Ok(node) => node,
                    Err(error) => {
                        return Err(error);
                    },
                };
                match self.expect(Token::RParen) {
                    Ok(()) => Ok(node),
                    Err(error) => Err(error),
                }
            },
            Some((actual, span)) => Err(
                GlassError::UnexpectedToken {
                    expected: None,
                    actual,
                    src: self.src.clone(),
                    filename: self.filename.clone(),
                    span,
                },
            ),
            None => Err(GlassError::UnexpectedEndOfInput { filename: self.filename.clone() }),
        }
    }

    /// Takes the next token, which has to be `token`.
    fn expect(&mut self, token: Token) -> (result: Result<(), GlassError>)
        ensures
            final(self).src@ == old(self).src@,
            final(self).filename@ == old(self).filename@,
            final(self).tokens.len() <= old(self).tokens.len(),
            old(self).tokens.len() > 0 ==> views(final(self).tokens@) == views(old(self).tokens@).drop_first(),
            old(self).tokens.len() == 0 ==> final(self).tokens@ == old(self).tokens@,
            match result {
                Ok(()) => old(self).tokens.len() > 0 && (checked(
                    views(old(self).tokens@)[0],
                    old(self).src@,
                    old(self).filename@,
                ) matches Ok((found, _)) && found == token@),
                Err(error) => if old(self).tokens.len() == 0 {
                    error@ == (ErrorView::UnexpectedEndOfInput { filename: old(self).filename@ })
                } else {
                    match checked(views(old(self).tokens@)[0], old(self).src@, old(self).filename@) {
                        Err(fault) => error@ == fault,
                        Ok((found, span)) => found != token@ && error@ == (
                            ErrorView::UnexpectedToken {
                                expected: Some(token@),
                                actual: found,
                                src: old(self).src@,
                                filename: old(self).filename@,
                                span,
                            }
                        ),
                    }
                },
            },
    {
        let next = match self.next() {
            Ok(next) => next,
            Err(error) => {
                return Err(error);
            },
        };
        if let Some((actual, span)) = next {
            if actual.same(&token) {
                Ok(())
            } else {
                Err(
                    GlassError::UnexpectedToken {
                        expected: Some(token),
                        actual,
                        src: self.src.clone(),
                        filename: self.filename.clone(),
                        span,
                    },
                )
            }
        } else {
            Err(GlassError::UnexpectedEndOfInput { filename: self.filename.clone() })
        }
    }

    /// Takes the token at the front of the queue, if there is one, and
    /// checks it.
    fn next(&mut self) -> (result: Result<Option<(Token, Span)>, GlassError>)
        ensures
            final(self).src@ == old(self).src@,
            final(self).filename@ == old(self).filename@,
            final(self).tokens.len() <= old(self).tokens.len(),
            old(self).tokens.len() > 0 ==> views(final(self).tokens@) == views(old(self).tokens@).drop_first(),
            old(self).tokens.len() == 0 ==> final(self).tokens@ == old(self).tokens@,
            match result {
                Ok(None) => old(self).tokens.len() == 0,
                Ok(Some((token, span))) => old(self).tokens.len() > 0 && checked(
                    views(old(self).tokens@)[0],
                    old(self).src@,
                    old(self).filename@,
                ) == Ok::<(TokenView, Span), ErrorView>((token@, span)),
                Err(error) => old(self).tokens.len() > 0 && checked(
                    views(old(self).tokens@)[0],
                    old(self).src@,
                    old(self).filename@,
                ) == Err::<(TokenView, Span), ErrorView>(error@),
            },
    {
        match self.tokens.pop_front() {
            Some((token, span)) => {
                match self.check_error(token, span) {
                    Ok(item) => Ok(Some(item)),
                    Err(error) => Err(error),
                }
            },
            None => Ok(None),
        }
    }

    /// Looks at the token at the front of the queue, if there is one, and
    /// checks it. The queue stays as it is.
    fn peek(&self) -> (result: Result<Option<(Token, Span)>, GlassError>)
        ensures
            match result {
                Ok(None) => self.tokens.len() == 0,
                Ok(Some((token, span))) => self.tokens.len() > 0 && checked(
                    views(self.tokens@)[0],
                    self.src@,
                    self.filename@,
                ) == Ok::<(TokenView, Span), ErrorView>((token@, span)),
                Err(error) => self.tokens.len() > 0 && checked(
                    views(self.tokens@)[0],
                    self.src@,
                    self.filename@,
                ) == Err::<(TokenView, Span), ErrorView>(error@),
            },
    {
        if self.tokens.len() == 0 {
            return Ok(None);
        }
        let token = self.tokens[0].0.clone();
        let span = self.tokens[0].1;
        match self.check_error(token, span) {
            Ok(item) => Ok(Some(item)),
            Err(error) => Err(error),
        }
    }

    /// Turns an error marker into the error that it stands for, and judges
    /// a string literal whose escapes were left unjudged.
    fn check_error(&self, token: Token, span: Span) -> (result: Result<(Token, Span), GlassError>)
        ensures
            match result {
                Ok((kept, place)) => checked((token@, span), self.src@, self.filename@) == Ok::<
                    (TokenView, Span),
                    ErrorView,
                >((kept@, place)),
                Err(error) => checked((token@, span), self.src@, self.filename@) == Err::<
                    (TokenView, Span),
                    ErrorView,
                >(error@),
            },
    {
        match token {
            Token::Error => Err(
                GlassError::UnknownToken {
                    src: self.src.clone(),
                    span,
                    filename: self.filename.clone(),
                },
            ),
            Token::UnclosedString => Err(
                GlassError::UnclosedString {
                    src: self.src.clone(),
                    span,
                    filename: self.filename.clone(),
                },
            ),
            Token::InvalidEscapeSequence => Err(
                GlassError::UnknownEscapeSequence {
                    escape_sequence: take_excerpt(self.src.as_str(), span).to_owned(),
                    src: self.src.clone(),
                    filename: self.filename.clone(),
                    span,
                },
            ),
            Token::UnverifiedString(Ok(text)) => Ok((Token::String(text), span)),
            Token::UnverifiedString(Err(escape)) => Err(
                GlassError::UnknownEscapeSequence {
                    escape_sequence: escape,
                    src: self.src.clone(),
                    filename: self.filename.clone(),
                    span,
                },
            ),
            token => Ok((token, span)),
        }
    }
}

} // verus!
