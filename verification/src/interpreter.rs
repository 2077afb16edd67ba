use crate::arithmetic::{answers, ask, steady, writes, NumOp, Task, TaskView};
use crate::context::Context;
use crate::error::{ErrorView, GlassError};
use crate::node::{depths, lemma_depths, lemma_trees, trees, Node, Tree};
use crate::token::{NumberLiteralView, Token, TokenView};
use crate::value::{
    equals, inverted, joined, negated, on_numbers, ordered, product, result_view, sum, Value,
    ValueView,
};
use crate::number;
use vstd::prelude::*;

verus! {

pub type InterpreterResult = Result<Value, GlassError>;

/// The error of a fault inside the evaluator, with a description.
pub open spec fn unknown(message: Seq<char>) -> ErrorView {
    ErrorView::UnknownError { error_message: message }
}

/// The tokens that a binary operation can stand under.
pub open spec fn is_binary_operator(op: TokenView) -> bool {
    match op {
        TokenView::Fixed(Token::Plus)
        | TokenView::Fixed(Token::Minus)
        | TokenView::Fixed(Token::Star)
        | TokenView::Fixed(Token::Slash)
        | TokenView::Fixed(Token::Percent)
        | TokenView::Fixed(Token::StarStar)
        | TokenView::Fixed(Token::EqualEqual)
        | TokenView::Fixed(Token::ExclamationEqual)
        | TokenView::Fixed(Token::LessThan)
        | TokenView::Fixed(Token::GreaterThan)
        | TokenView::Fixed(Token::LessThanEqual)
        | TokenView::Fixed(Token::GreaterThanEqual)
        | TokenView::Fixed(Token::And)
        | TokenView::Fixed(Token::Or) => true,
        _ => false,
    }
}

/// `out` is an outcome of the operator `op` on the values `a` and `b`.
pub open spec fn applies<N: Fn(Task) -> u64, S: Fn(u64) -> String>(
    op: TokenView,
    a: ValueView,
    b: ValueView,
    num: N,
    show: S,
    out: Result<ValueView, ErrorView>,
) -> bool {
    match op {
        TokenView::Fixed(Token::Plus) => sum(a, b, num, show, out),
        TokenView::Fixed(Token::Minus) => on_numbers(NumOp::Sub, "-"@, a, b, num, out),
        TokenView::Fixed(Token::Star) => product(a, b, num, out),
        TokenView::Fixed(Token::Slash) => on_numbers(NumOp::Div, "/"@, a, b, num, out),
        TokenView::Fixed(Token::Percent) => on_numbers(NumOp::Rem, "%"@, a, b, num, out),
        TokenView::Fixed(Token::StarStar) => on_numbers(NumOp::Pow, "**"@, a, b, num, out),
        TokenView::Fixed(Token::EqualEqual) => out == Ok::<ValueView, ErrorView>(
            ValueView::Bool(equals(a, b)),
        ),
        TokenView::Fixed(Token::ExclamationEqual) => out == Ok::<ValueView, ErrorView>(
            ValueView::Bool(!equals(a, b)),
        ),
        TokenView::Fixed(Token::LessThan) => out == ordered(
            "<"@,
            a,
            b,
            |x: u64, y: u64| number::below(x, y),
        ),
        TokenView::Fixed(Token::GreaterThan) => out == ordered(
            ">"@,
            a,
            b,
            |x: u64, y: u64| number::below(y, x),
        ),
        TokenView::Fixed(Token::LessThanEqual) => out == ordered(
            "<="@,
            a,
            b,
            |x: u64, y: u64| number::below(x, y) || number::same(x, y),
        ),
        TokenView::Fixed(Token::GreaterThanEqual) => out == ordered(
            ">="@,
            a,
            b,
            |x: u64, y: u64| number::below(y, x) || number::same(x, y),
        ),
        TokenView::Fixed(Token::And) => out == joined("and"@, a, b, |x: bool, y: bool| x && y),
        TokenView::Fixed(Token::Or) => out == joined("or"@, a, b, |x: bool, y: bool| x || y),
        _ => false,
    }
}

/// Marks the outcome of a part of an evaluation. It holds of every outcome;
/// it gives proofs a term to find the outcome by.
pub open spec fn part(outcome: Result<ValueView, ErrorView>) -> bool {
    true
}

/// `out` is an outcome of evaluating `tree`: its value, or the first error
/// on the way. A decimal literal is the number that `num` answers with, a
/// prefixed literal is the number that its token holds. Operands are evaluated before their operator is applied, the
/// left one first, and both always; a block evaluates its statements in
/// order and comes to `Void`. The answers of `num` and `show` decide what
/// the numbers are and how they are written; nothing else is left open.
pub open spec fn evaluates<N: Fn(Task) -> u64, S: Fn(u64) -> String>(
    tree: Tree,
    num: N,
    show: S,
    out: Result<ValueView, ErrorView>,
) -> bool
    decreases tree,
{
    match tree {
        Tree::String { value } => out == Ok::<ValueView, ErrorView>(ValueView::Str(value)),
        Tree::Number { value } => match value {
            NumberLiteralView::Decimal(text) => out matches Ok(ValueView::Num(bits)) && answers(
                num,
                TaskView::Decimal(text),
                bits,
            ),
            NumberLiteralView::Bits(bits) => out == Ok::<ValueView, ErrorView>(
                ValueView::Num(bits),
            ),
        },
        Tree::BinaryOp { op, left, right } => if is_binary_operator(op) {
            exists|first: Result<ValueView, ErrorView>| #[trigger]
                part(first) && evaluates(*left, num, show, first) && match first {
                    Err(error) => out == Err::<ValueView, ErrorView>(error),
                    Ok(a) => exists|second: Result<ValueView, ErrorView>| #[trigger]
                        part(second) && evaluates(*right, num, show, second) && match second {
                            Err(error) => out == Err::<ValueView, ErrorView>(error),
                            Ok(b) => applies(op, a, b, num, show, out),
                        },
                }
        } else {
            out == Err::<ValueView, ErrorView>(
                unknown("Parsed invalid binary operation expression"@),
            )
        },
        Tree::UnaryOp { op, expr } => if op == TokenView::Fixed(Token::Minus) {
            exists|inner: Result<ValueView, ErrorView>| #[trigger]
                part(inner) && evaluates(*expr, num, show, inner) && match inner {
                    Err(error) => out == Err::<ValueView, ErrorView>(error),
                    Ok(a) => out == negated(a),
                }
        } else if op == TokenView::Fixed(Token::Not) {
            exists|inner: Result<ValueView, ErrorView>| #[trigger]
                part(inner) && evaluates(*expr, num, show, inner) && match inner {
                    Err(error) => out == Err::<ValueView, ErrorView>(error),
                    Ok(a) => out == inverted(a),
                }
        } else if op == TokenView::Fixed(Token::Plus) {
            evaluates(*expr, num, show, out)
        } else {
            out == Err::<ValueView, ErrorView>(unknown("Parsed invalid unary expression"@))
        },
        Tree::Block { statements } => runs(statements, num, show, out),
        Tree::Identifier { .. } => out == Err::<ValueView, ErrorView>(
            unknown("not yet implemented: identifier"@),
        ),
        Tree::Assignment { .. } => out == Err::<ValueView, ErrorView>(
            unknown("not yet implemented: assignment"@),
        ),
        Tree::FunctionCall { .. } => out == Err::<ValueView, ErrorView>(
            unknown("not yet implemented: function call"@),
        ),
        Tree::FunctionDefinition { .. } => out == Err::<ValueView, ErrorView>(
            unknown("not yet implemented: function definition"@),
        ),
        Tree::Return { .. } => out == Err::<ValueView, ErrorView>(
            unknown("not yet implemented: return"@),
        ),
        Tree::If { .. } => out == Err::<ValueView, ErrorView>(
            unknown("not yet implemented: if"@),
        ),
        Tree::While { .. } => out == Err::<ValueView, ErrorView>(
            unknown("not yet implemented: while"@),
        ),
        Tree::For { .. } => out == Err::<ValueView, ErrorView>(
            unknown("not yet implemented: for"@),
        ),
    }
}

/// `out` is an outcome of evaluating `statements` one after the other: the
/// first error, or `Void` once all are done.
pub open spec fn runs<N: Fn(Task) -> u64, S: Fn(u64) -> String>(
    statements: Seq<Tree>,
    num: N,
    show: S,
    out: Result<ValueView, ErrorView>,
) -> bool
    decreases statements,
{
    if statements.len() == 0 {
        out == Ok::<ValueView, ErrorView>(ValueView::Void)
    } else {
        exists|first: Result<ValueView, ErrorView>| #[trigger]
            part(first) && evaluates(statements[0], num, show, first) && match first {
                Err(error) => out == Err::<ValueView, ErrorView>(error),
                Ok(_) => runs(statements.drop_first(), num, show, out),
            }
    }
}

/// An operand that fails fails the whole unary operation, and a value goes
/// through the operator.
pub proof fn lemma_unary<N: Fn(Task) -> u64, S: Fn(u64) -> String>(
    op: TokenView,
    expr: Tree,
    num: N,
    show: S,
    inner: Result<ValueView, ErrorView>,
    out: Result<ValueView, ErrorView>,
)
    requires
        evaluates(expr, num, show, inner),
        op == TokenView::Fixed(Token::Minus) || op == TokenView::Fixed(Token::Not) || op
            == TokenView::Fixed(Token::Plus),
        match inner {
            Err(error) => out == Err::<ValueView, ErrorView>(error),
            Ok(a) => if op == TokenView::Fixed(Token::Minus) {
                out == negated(a)
            } else if op == TokenView::Fixed(Token::Not) {
                out == inverted(a)
            } else {
                out == inner
            },
        },
    ensures
        evaluates(Tree::UnaryOp { op, expr: Box::new(expr) }, num, show, out),
{
    assert(part(inner));
}

/// A left operand that fails fails the whole binary operation.
pub proof fn lemma_binary_left<N: Fn(Task) -> u64, S: Fn(u64) -> String>(
    op: TokenView,
    left: Tree,
    right: Tree,
    num: N,
    show: S,
    error: ErrorView,
)
    requires
        is_binary_operator(op),
        evaluates(left, num, show, Err(error)),
    ensures
        evaluates(
            Tree::BinaryOp { op, left: Box::new(left), right: Box::new(right) },
            num,
            show,
            Err(error),
        ),
{
    assert(part(Err::<ValueView, ErrorView>(error)));
}

/// Behind a left operand that came to a value, the right operand decides:
/// its error fails the whole operation, and its value goes into the operator.
pub proof fn lemma_binary_right<N: Fn(Task) -> u64, S: Fn(u64) -> String>(
    op: TokenView,
    left: Tree,
    right: Tree,
    num: N,
    show: S,
    a: ValueView,
    second: Result<ValueView, ErrorView>,
    out: Result<ValueView, ErrorView>,
)
    requires
        is_binary_operator(op),
        evaluates(left, num, show, Ok(a)),
        evaluates(right, num, show, second),
        match second {
            Err(error) => out == Err::<ValueView, ErrorView>(error),
            Ok(b) => applies(op, a, b, num, show, out),
        },
    ensures
        evaluates(
            Tree::BinaryOp { op, left: Box::new(left), right: Box::new(right) },
            num,
            show,
            out,
        ),
{
    assert(part(Ok::<ValueView, ErrorView>(a)));
    assert(part(second));
}

/// A first statement that fails fails the statements.
pub proof fn lemma_runs_error<N: Fn(Task) -> u64, S: Fn(u64) -> String>(
    statements: Seq<Tree>,
    num: N,
    show: S,
    error: ErrorView,
)
    requires
        statements.len() > 0,
        evaluates(statements[0], num, show, Err(error)),
    ensures
        runs(statements, num, show, Err(error)),
{
    assert(part(Err::<ValueView, ErrorView>(error)));
}

/// Behind a first statement that came to a value, the other statements decide.
pub proof fn lemma_runs_step<N: Fn(Task) -> u64, S: Fn(u64) -> String>(
    statements: Seq<Tree>,
    num: N,
    show: S,
    value: ValueView,
    out: Result<ValueView, ErrorView>,
)
    requires
        statements.len() > 0,
        evaluates(statements[0], num, show, Ok(value)),
        runs(statements.drop_first(), num, show, out),
    ensures
        runs(statements, num, show, out),
{
    assert(part(Ok::<ValueView, ErrorView>(value)));
}

/// With functions that answer by what they are asked alone, an operator
/// has one outcome.
pub proof fn lemma_applies_once<N: Fn(Task) -> u64, S: Fn(u64) -> String>(
    op: TokenView,
    a: ValueView,
    b: ValueView,
    num: N,
    show: S,
    first: Result<ValueView, ErrorView>,
    second: Result<ValueView, ErrorView>,
)
    requires
        steady(num, show),
        applies(op, a, b, num, show, first),
        applies(op, a, b, num, show, second),
    ensures
        first == second,
{
}

/// Evaluating the same tree twice comes to the same outcome, as long as the
/// two functions answer by what they are asked alone.
pub proof fn lemma_evaluates_once<N: Fn(Task) -> u64, S: Fn(u64) -> String>(
    tree: Tree,
    num: N,
    show: S,
    first: Result<ValueView, ErrorView>,
    second: Result<ValueView, ErrorView>,
)
    requires
        steady(num, show),
        evaluates(tree, num, show, first),
        evaluates(tree, num, show, second),
    ensures
        first == second,
    decreases tree,
{
    match tree {
        Tree::BinaryOp { op, left, right } => {
            if is_binary_operator(op) {
                let l1 = choose|l: Result<ValueView, ErrorView>| #[trigger]
                    part(l) && evaluates(*left, num, show, l) && match l {
                        Err(error) => first == Err::<ValueView, ErrorView>(error),
                        Ok(a) => exists|r: Result<ValueView, ErrorView>| #[trigger]
                            part(r) && evaluates(*right, num, show, r) && match r {
                                Err(error) => first == Err::<ValueView, ErrorView>(error),
                                Ok(b) => applies(op, a, b, num, show, first),
                            },
                    };
                let l2 = choose|l: Result<ValueView, ErrorView>| #[trigger]
                    part(l) && evaluates(*left, num, show, l) && match l {
                        Err(error) => second == Err::<ValueView, ErrorView>(error),
                        Ok(a) => exists|r: Result<ValueView, ErrorView>| #[trigger]
                            part(r) && evaluates(*right, num, show, r) && match r {
                                Err(error) => second == Err::<ValueView, ErrorView>(error),
                                Ok(b) => applies(op, a, b, num, show, second),
                            },
                    };
                lemma_evaluates_once(*left, num, show, l1, l2);
                if let Ok(a) = l1 {
                    let r1 = choose|r: Result<ValueView, ErrorView>| #[trigger]
                        part(r) && evaluates(*right, num, show, r) && match r {
                            Err(error) => first == Err::<ValueView, ErrorView>(error),
                            Ok(b) => applies(op, a, b, num, show, first),
                        };
                    let r2 = choose|r: Result<ValueView, ErrorView>| #[trigger]
                        part(r) && evaluates(*right, num, show, r) && match r {
                            Err(error) => second == Err::<ValueView, ErrorView>(error),
                            Ok(b) => applies(op, a, b, num, show, second),
                        };
                    lemma_evaluates_once(*right, num, show, r1, r2);
                    if let Ok(b) = r1 {
                        lemma_applies_once(op, a, b, num, show, first, second);
                    }
                }
            }
        },
        Tree::UnaryOp { op, expr } => {
            if op == TokenView::Fixed(Token::Minus) {
                let i1 = choose|inner: Result<ValueView, ErrorView>| #[trigger]
                    part(inner) && evaluates(*expr, num, show, inner) && match inner {
                        Err(error) => first == Err::<ValueView, ErrorView>(error),
                        Ok(a) => first == negated(a),
                    };
                let i2 = choose|inner: Result<ValueView, ErrorView>| #[trigger]
                    part(inner) && evaluates(*expr, num, show, inner) && match inner {
                        Err(error) => second == Err::<ValueView, ErrorView>(error),
                        Ok(a) => second == negated(a),
                    };
                lemma_evaluates_once(*expr, num, show, i1, i2);
            } else if op == TokenView::Fixed(Token::Not) {
                let i1 = choose|inner: Result<ValueView, ErrorView>| #[trigger]
                    part(inner) && evaluates(*expr, num, show, inner) && match inner {
                        Err(error) => first == Err::<ValueView, ErrorView>(error),
                        Ok(a) => first == inverted(a),
                    };
                let i2 = choose|inner: Result<ValueView, ErrorView>| #[trigger]
                    part(inner) && evaluates(*expr, num, show, inner) && match inner {
                        Err(error) => second == Err::<ValueView, ErrorView>(error),
                        Ok(a) => second == inverted(a),
                    };
                lemma_evaluates_once(*expr, num, show, i1, i2);
            } else if op == TokenView::Fixed(Token::Plus) {
                lemma_evaluates_once(*expr, num, show, first, second);
            }
        },
        Tree::Block { statements } => {
            lemma_runs_once(statements, num, show, first, second);
        },
        _ => {},
    }
}

/// Running the same statements twice comes to the same outcome, as long as
/// the two functions answer by what they are asked alone.
pub proof fn lemma_runs_once<N: Fn(Task) -> u64, S: Fn(u64) -> String>(
    statements: Seq<Tree>,
    num: N,
    show: S,
    first: Result<ValueView, ErrorView>,
    second: Result<ValueView, ErrorView>,
)
    requires
        steady(num, show),
        runs(statements, num, show, first),
        runs(statements, num, show, second),
    ensures
        first == second,
    decreases statements,
{
    if statements.len() > 0 {
        let s1 = choose|s: Result<ValueView, ErrorView>| #[trigger]
            part(s) && evaluates(statements[0], num, show, s) && match s {
                Err(error) => first == Err::<ValueView, ErrorView>(error),
                Ok(_) => runs(statements.drop_first(), num, show, first),
            };
        let s2 = choose|s: Result<ValueView, ErrorView>| #[trigger]
            part(s) && evaluates(statements[0], num, show, s) && match s {
                Err(error) => second == Err::<ValueView, ErrorView>(error),
                Ok(_) => runs(statements.drop_first(), num, show, second),
            };
        lemma_evaluates_once(statements[0], num, show, s1, s2);
        if s1 is Ok {
            lemma_runs_once(statements.drop_first(), num, show, first, second);
        }
    }
}

/// No error of an operator points into the source text.
pub proof fn lemma_applies_nowhere<N: Fn(Task) -> u64, S: Fn(u64) -> String>(
    op: TokenView,
    a: ValueView,
    b: ValueView,
    num: N,
    show: S,
    error: ErrorView,
)
    requires
        applies(op, a, b, num, show, Err(error)),
    ensures
        error.place() is None,
{
}

/// No error of evaluation points into the source text: the evaluator
/// knows values, not places.
pub proof fn lemma_evaluates_nowhere<N: Fn(Task) -> u64, S: Fn(u64) -> String>(
    tree: Tree,
    num: N,
    show: S,
    error: ErrorView,
)
    requires
        evaluates(tree, num, show, Err(error)),
    ensures
        error.place() is None,
    decreases tree,
{
    let out = Err::<ValueView, ErrorView>(error);
    match tree {
        Tree::BinaryOp { op, left, right } => {
            if is_binary_operator(op) {
                let first = choose|l: Result<ValueView, ErrorView>| #[trigger]
                    part(l) && evaluates(*left, num, show, l) && match l {
                        Err(error) => out == Err::<ValueView, ErrorView>(error),
                        Ok(a) => exists|r: Result<ValueView, ErrorView>| #[trigger]
                            part(r) && evaluates(*right, num, show, r) && match r {
                                Err(error) => out == Err::<ValueView, ErrorView>(error),
                                Ok(b) => applies(op, a, b, num, show, out),
                            },
                    };
                match first {
                    Err(_) => {
                        lemma_evaluates_nowhere(*left, num, show, error);
                    },
                    Ok(a) => {
                        let second = choose|r: Result<ValueView, ErrorView>| #[trigger]
                            part(r) && evaluates(*right, num, show, r) && match r {
                                Err(error) => out == Err::<ValueView, ErrorView>(error),
                                Ok(b) => applies(op, a, b, num, show, out),
                            };
                        match second {
                            Err(_) => {
                                lemma_evaluates_nowhere(*right, num, show, error);
                            },
                            Ok(b) => {
                                lemma_applies_nowhere(op, a, b, num, show, error);
                            },
                        }
                    },
                }
            }
        },
        Tree::UnaryOp { op, expr } => {
            if op == TokenView::Fixed(Token::Minus) {
                let inner = choose|inner: Result<ValueView, ErrorView>| #[trigger]
                    part(inner) && evaluates(*expr, num, show, inner) && match inner {
                        Err(error) => out == Err::<ValueView, ErrorView>(error),
                        Ok(a) => out == negated(a),
                    };
                if inner is Err {
                    lemma_evaluates_nowhere(*expr, num, show, error);
                }
            } else if op == TokenView::Fixed(Token::Not) {
                let inner = choose|inner: Result<ValueView, ErrorView>| #[trigger]
                    part(inner) && evaluates(*expr, num, show, inner) && match inner {
                        Err(error) => out == Err::<ValueView, ErrorView>(error),
                        Ok(a) => out == inverted(a),
                    };
                if inner is Err {
                    lemma_evaluates_nowhere(*expr, num, show, error);
                }
            } else if op == TokenView::Fixed(Token::Plus) {
                lemma_evaluates_nowhere(*expr, num, show, error);
            }
        },
        Tree::Block { statements } => {
            lemma_runs_nowhere(statements, num, show, error);
        },
        _ => {},
    }
}

/// No error of a run of statements points into the source text.
pub proof fn lemma_runs_nowhere<N: Fn(Task) -> u64, S: Fn(u64) -> String>(
    statements: Seq<Tree>,
    num: N,
    show: S,
    error: ErrorView,
)
    requires
        runs(statements, num, show, Err(error)),
    ensures
        error.place() is None,
    decreases statements,
{
    let out = Err::<ValueView, ErrorView>(error);
    if statements.len() > 0 {
        let first = choose|s: Result<ValueView, ErrorView>| #[trigger]
            part(s) && evaluates(statements[0], num, show, s) && match s {
                Err(error) => out == Err::<ValueView, ErrorView>(error),
                Ok(_) => runs(statements.drop_first(), num, show, out),
            };
        if first is Err {
            lemma_evaluates_nowhere(statements[0], num, show, error);
        } else {
            lemma_runs_nowhere(statements.drop_first(), num, show, error);
        }
    }
}

/// The outcome is the only one: as long as the two functions answer by
/// what they are asked alone, evaluating the tree again comes to `out` again.
pub open spec fn once<N: Fn(Task) -> u64, S: Fn(u64) -> String>(
    tree: Tree,
    num: N,
    show: S,
    out: Result<ValueView, ErrorView>,
) -> bool {
    steady(num, show) ==> forall|other: Result<ValueView, ErrorView>| #[trigger]
        evaluates(tree, num, show, other) ==> other == out
}

/// An outcome of evaluation is the only one.
pub proof fn lemma_once<N: Fn(Task) -> u64, S: Fn(u64) -> String>(
    tree: Tree,
    num: N,
    show: S,
    out: Result<ValueView, ErrorView>,
)
    requires
        evaluates(tree, num, show, out),
    ensures
        once(tree, num, show, out),
{
    if steady(num, show) {
        assert forall|other: Result<ValueView, ErrorView>| #[trigger]
            evaluates(tree, num, show, other) implies other == out by {
            lemma_evaluates_once(tree, num, show, other, out);
        }
    }
}

/// A tree-walking evaluator. It holds the source text and the name of its
/// file, a scope, and the two functions that do the arithmetic.
pub struct Interpreter<'a, N, S> {
    src: String,
    filename: String,
    context: Context,
    num: &'a N,
    show: &'a S,
}

impl<'a, N: Fn(Task) -> u64, S: Fn(u64) -> String> Interpreter<'a, N, S> {
    /// The function that answers with numbers.
    pub closed spec fn arith(&self) -> N {
        *self.num
    }

    /// The function that writes numbers out.
    pub closed spec fn writer(&self) -> S {
        *self.show
    }

    /// Both functions take every question.
    pub open spec fn ready(&self) -> bool {
        crate::arithmetic::ready(self.arith(), self.writer())
    }

    /// The source text.
    pub closed spec fn source(&self) -> Seq<char> {
        self.src@
    }

    /// The name of the source file.
    pub closed spec fn origin(&self) -> Seq<char> {
        self.filename@
    }

    /// The scope.
    pub closed spec fn scope(&self) -> Context {
        self.context
    }

    /// An evaluator of the text `src` from the file `filename`, with the
    /// outermost scope and the two functions that do the arithmetic.
    pub fn new(src: String, filename: String, num: &'a N, show: &'a S) -> (interpreter: Self)
        ensures
            interpreter.source() == src@,
            interpreter.origin() == filename@,
            interpreter.arith() == *num,
            interpreter.writer() == *show,
            interpreter.scope().name() == "global"@,
            !interpreter.scope().has_parent(),
            interpreter.scope().variables() == Map::<Seq<char>, ValueView>::empty(),
    {
        Self { src, filename, context: Context::new(), num, show }
    }

    /// Puts `task` to the function that answers with numbers.
    pub fn number(&self, task: Task) -> (bits: u64)
        requires
            self.ready(),
        ensures
            answers(self.arith(), task@, bits),
    {
        ask(self.num, task)
    }

    /// Evaluates `node`.
    pub fn visit_node(&self, node: Node) -> (result: InterpreterResult)
        requires
            self.ready(),
        ensures
            evaluates(node@, self.arith(), self.writer(), result_view(result)),
            once(node@, self.arith(), self.writer(), result_view(result)),
    {
        node.visit(self)
    }

    /// Evaluates both operands, the left one first, and applies `op` to
    /// their values. A token that is no binary operator is an error, and
    /// then no operand is evaluated.
    pub fn visit_bin_op_node(&self, op: &Token, left: &Box<Node>, right: &Box<Node>) -> (result:
        InterpreterResult)
        requires
            self.ready(),
        ensures
            evaluates(
                Tree::BinaryOp { op: op@, left: Box::new(left@), right: Box::new(right@) },
                self.arith(),
                self.writer(),
                result_view(result),
            ),
        decreases
                (if left.depth() >= right.depth() {
                    left.depth() + 1
                } else {
                    right.depth() + 1
                }),
                0nat,
    {
        match op {
            Token::Plus
            | Token::Minus
            | Token::Star
            | Token::Slash
            | Token::Percent
            | Token::StarStar
            | Token::EqualEqual
            | Token::ExclamationEqual
            | Token::LessThan
            | Token::GreaterThan
            | Token::LessThanEqual
            | Token::GreaterThanEqual
            | Token::And
            | Token::Or => {},
            _ => {
                return Err(
                    GlassError::UnknownError {
                        error_message: "Parsed invalid binary operation expression".to_owned(),
                    },
                );
            },
        }
        let a = match left.visit(self) {
            Ok(value) => value,
            Err(error) => {
                proof {
                    lemma_binary_left(op@, left@, right@, self.arith(), self.writer(), error@);
                }
                return Err(error);
            },
        };
        let ghost first = a@;
        let second = right.visit(self);
        let ghost seen = result_view(second);
        let b = match second {
            Ok(value) => value,
            Err(error) => {
                proof {
                    lemma_binary_right(
                        op@,
                        left@,
                        right@,
                        self.arith(),
                        self.writer(),
                        first,
                        seen,
                        Err(error@),
                    );
                }
                return Err(error);
            },
        };
        let result = match op {
            Token::Plus => a.add(b, self.num, self.show),
            Token::Minus => a.sub(b, self.num),
            Token::Star => a.mul(b, self.num),
            Token::Slash => a.div(b, self.num),
            Token::Percent => a.rem(b, self.num),
            Token::StarStar => a.pow(b, self.num),
            Token::EqualEqual => a.eq(b),
            Token::ExclamationEqual => a.ne(b),
            Token::LessThan => a.lt(b),
            Token::GreaterThan => a.gt(b),
            Token::LessThanEqual => a.le(b),
            Token::GreaterThanEqual => a.ge(b),
            Token::And => a.and(b),
            Token::Or => a.or(b),
            _ => Err(
                GlassError::UnknownError {
                    error_message: "Parsed invalid binary operation expression".to_owned(),
                },
            ),
        };
        proof {
            lemma_binary_right(
                op@,
                left@,
                right@,
                self.arith(),
                self.writer(),
                first,
                seen,
                result_view(result),
            );
        }
        result
    }

    /// Evaluates the operand and applies `op` to its value: `-` negates,
    /// `not` inverts, `+` leaves it as it is. Any other token is an error.
    pub fn visit_unary_op_node(&self, op: &Token, right: &Box<Node>) -> (result:
        InterpreterResult)
        requires
            self.ready(),
        ensures
            evaluates(
                Tree::UnaryOp { op: op@, expr: Box::new(right@) },
                self.arith(),
                self.writer(),
                result_view(result),
            ),
        decreases right.depth() + 1, 0nat,
    {
        match op {
            Token::Minus | Token::Not | Token::Plus => {},
            _ => {
                return Err(
                    GlassError::UnknownError {
                        error_message: "Parsed invalid unary expression".to_owned(),
                    },
                );
            },
        }
        let inner = right.visit(self);
        let ghost seen = result_view(inner);
        let result = match inner {
            Ok(value) => match op {
                Token::Minus => value.neg(),
                Token::Not => value.not(),
                _ => Ok(value),
            },
            Err(error) => Err(error),
        };
        proof {
            lemma_unary(op@, right@, self.arith(), self.writer(), seen, result_view(result));
        }
        result
    }

    /// Evaluates the statements in order and drops their values; the block
    /// itself comes to `Void`. The first error ends it.
    pub fn visit_block_node(&self, statements: &Vec<Node>) -> (result: InterpreterResult)
        requires
            self.ready(),
        ensures
            evaluates(
                Tree::Block { statements: trees(statements@) },
                self.arith(),
                self.writer(),
                result_view(result),
            ),
        decreases depths(statements@) + 1, 0nat,
    {
        let ghost all = trees(statements@);
        let mut i: usize = 0;
        assert(all.subrange(0, all.len() as int) =~= all);
        proof {
            lemma_trees(statements@);
        }
        while i < statements.len()
            invariant
                self.ready(),
                i <= statements.len(),
                all == trees(statements@),
                all.len() == statements.len(),
                forall|out: Result<ValueView, ErrorView>| #[trigger]
                    runs(all.subrange(i as int, all.len() as int), self.arith(), self.writer(), out)
                        ==> runs(all, self.arith(), self.writer(), out),
            decreases statements.len() - i,
        {
            let ghost rest = all.subrange(i as int, all.len() as int);
            proof {
                lemma_depths(statements@, i as int);
                lemma_trees(statements@);
                assert(rest.drop_first() =~= all.subrange(i + 1, all.len() as int));
            }
            match statements[i].visit(self) {
                Ok(value) => {
                    assert forall|out: Result<ValueView, ErrorView>| #[trigger]
                        runs(
                            all.subrange(i + 1, all.len() as int),
                            self.arith(),
                            self.writer(),
                            out,
                        ) implies runs(all, self.arith(), self.writer(), out) by {
                        lemma_runs_step(rest, self.arith(), self.writer(), value@, out);
                    }
                },
                Err(error) => {
                    proof {
                        lemma_runs_error(rest, self.arith(), self.writer(), error@);
                    }
                    return Err(error);
                },
            }
            i += 1;
        }
        assert(runs(
            all.subrange(i as int, all.len() as int),
            self.arith(),
            self.writer(),
            Ok(ValueView::Void),
        ));
        Ok(Value::Void)
    }

    /// An evaluator of the same text with the same functions and a fresh
    /// scope named `name`.
    pub fn new_child_context(&self, name: &str) -> (child: Self)
        ensures
            child.source() == self.source(),
            child.origin() == self.origin(),
            child.arith() == self.arith(),
            child.writer() == self.writer(),
            child.scope().name() == name@,
            !child.scope().has_parent(),
            child.scope().variables() == Map::<Seq<char>, ValueView>::empty(),
    {
        Self {
            src: self.src.clone(),
            filename: self.filename.clone(),
            context: self.context.new_child(name),
            num: self.num,
            show: self.show,
        }
    }
}

} // verus!
