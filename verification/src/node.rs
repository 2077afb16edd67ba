use crate::arithmetic::Task;
use crate::interpreter::{evaluates, lemma_once, once, Interpreter, InterpreterResult};
use crate::token::{NumberLiteral, NumberLiteralView, Token, TokenView};
use crate::value::{result_view, Value};
use crate::error::GlassError;
use vstd::prelude::*;

verus! {

/// A node of the syntax tree. Each child belongs to its parent alone.
#[derive(Debug, PartialEq, Eq)]
#[allow(inconsistent_fields)]
pub enum Node {
    String { value: String },
    Number { value: NumberLiteral },
    Identifier { name: String },
    BinaryOp { op: Token, left: Box<Node>, right: Box<Node> },
    Assignment { op: Token, left: Box<Node>, right: Box<Node> },
    UnaryOp { op: Token, expr: Box<Node> },
    FunctionCall { name: String, args: Vec<Node> },
    FunctionDefinition { name: String, args: Vec<String>, body: Box<Node> },
    Return { value: Box<Node> },
    If { condition: Box<Node>, body: Box<Node>, else_body: Option<Box<Node>> },
    While { condition: Box<Node>, body: Box<Node> },
    For {
        variable: String,
        start: Box<Node>,
        end: Box<Node>,
        step: Option<Box<Node>>,
        body: Box<Node>,
    },
    Block { statements: Vec<Node> },
}

/// A syntax tree with every text it carries as a sequence of characters.
#[allow(inconsistent_fields)]
pub enum Tree {
    String { value: Seq<char> },
    Number { value: NumberLiteralView },
    Identifier { name: Seq<char> },
    BinaryOp { op: TokenView, left: Box<Tree>, right: Box<Tree> },
    Assignment { op: TokenView, left: Box<Tree>, right: Box<Tree> },
    UnaryOp { op: TokenView, expr: Box<Tree> },
    FunctionCall { name: Seq<char>, args: Seq<Tree> },
    FunctionDefinition { name: Seq<char>, args: Seq<Seq<char>>, body: Box<Tree> },
    Return { value: Box<Tree> },
    If { condition: Box<Tree>, body: Box<Tree>, else_body: Option<Box<Tree>> },
    While { condition: Box<Tree>, body: Box<Tree> },
    For {
        variable: Seq<char>,
        start: Box<Tree>,
        end: Box<Tree>,
        step: Option<Box<Tree>>,
        body: Box<Tree>,
    },
    Block { statements: Seq<Tree> },
}

/// The trees of a list of nodes.
pub open spec fn trees(nodes: Seq<Node>) -> Seq<Tree>
    decreases nodes,
{
    if nodes.len() == 0 {
        Seq::empty()
    } else {
        trees(nodes.drop_last()).push(nodes.last().tree())
    }
}

impl Node {
    /// The tree that the node is the root of.
    pub open spec fn tree(&self) -> Tree
        decreases self,
    {
        match self {
            Node::String { value } => Tree::String { value: value@ },
            Node::Number { value } => Tree::Number { value: value@ },
            Node::Identifier { name } => Tree::Identifier { name: name@ },
            Node::BinaryOp { op, left, right } => Tree::BinaryOp {
                op: op@,
                left: Box::new(left.tree()),
                right: Box::new(right.tree()),
            },
            Node::Assignment { op, left, right } => Tree::Assignment {
                op: op@,
                left: Box::new(left.tree()),
                right: Box::new(right.tree()),
            },
            Node::UnaryOp { op, expr } => Tree::UnaryOp { op: op@, expr: Box::new(expr.tree()) },
            Node::FunctionCall { name, args } => Tree::FunctionCall {
                name: name@,
                args: trees(args@),
            },
            Node::FunctionDefinition { name, args, body } => Tree::FunctionDefinition {
                name: name@,
                args: args@.map_values(|arg: String| arg@),
                body: Box::new(body.tree()),
            },
            Node::Return { value } => Tree::Return { value: Box::new(value.tree()) },
            Node::If { condition, body, else_body } => Tree::If {
                condition: Box::new(condition.tree()),
                body: Box::new(body.tree()),
                else_body: match else_body {
                    Some(node) => Some(Box::new(node.tree())),
                    None => None,
                },
            },
            Node::While { condition, body } => Tree::While {
                condition: Box::new(condition.tree()),
                body: Box::new(body.tree()),
            },
            Node::For { variable, start, end, step, body } => Tree::For {
                variable: variable@,
                start: Box::new(start.tree()),
                end: Box::new(end.tree()),
                step: match step {
                    Some(node) => Some(Box::new(node.tree())),
                    None => None,
                },
                body: Box::new(body.tree()),
            },
            Node::Block { statements } => Tree::Block { statements: trees(statements@) },
        }
    }
}

impl View for Node {
    type V = Tree;

    open spec fn view(&self) -> Tree {
        self.tree()
    }
}

/// The depth of the deepest of `nodes`.
pub open spec fn depths(nodes: Seq<Node>) -> nat
    decreases nodes,
{
    if nodes.len() == 0 {
        0
    } else if depths(nodes.drop_last()) >= nodes.last().depth() {
        depths(nodes.drop_last())
    } else {
        nodes.last().depth()
    }
}

/// No node of a list is deeper than the deepest.
pub proof fn lemma_depths(nodes: Seq<Node>, i: int)
    requires
        0 <= i < nodes.len(),
    ensures
        nodes[i].depth() <= depths(nodes),
    decreases nodes.len(),
{
    if i < nodes.len() - 1 {
        lemma_depths(nodes.drop_last(), i);
    }
}

/// The trees of a list are the trees of its nodes, in order.
pub proof fn lemma_trees(nodes: Seq<Node>)
    ensures
        trees(nodes).len() == nodes.len(),
        forall|i: int| 0 <= i < nodes.len() ==> (#[trigger] trees(nodes)[i]) == nodes[i].tree(),
    decreases nodes.len(),
{
    if nodes.len() > 0 {
        lemma_trees(nodes.drop_last());
    }
}

impl Node {
    /// How deep evaluation descends into the node: operators and blocks
    /// stand one above their deepest child, everything else at 0.
    pub open spec fn depth(&self) -> nat
        decreases self,
    {
        match self {
            Node::BinaryOp { left, right, .. } => if left.depth() >= right.depth() {
                left.depth() + 1
            } else {
                right.depth() + 1
            },
            Node::UnaryOp { expr, .. } => expr.depth() + 1,
            Node::Block { statements } => depths(statements@) + 1,
            _ => 0,
        }
    }

    /// Evaluates the node.
    pub fn visit<N: Fn(Task) -> u64, S: Fn(u64) -> String>(
        &self,
        interpreter: &Interpreter<'_, N, S>,
    ) -> (result: InterpreterResult)
        requires
            interpreter.ready(),
        ensures
            evaluates(self@, interpreter.arith(), interpreter.writer(), result_view(result)),
            once(self@, interpreter.arith(), interpreter.writer(), result_view(result)),
        decreases self.depth(), 1nat,
    {
        let result = match self {
            Node::String { value } => Ok(Value::Str(value.clone())),
            Node::Number { value } => match value {
                NumberLiteral::Decimal(text) => Ok(
                    Value::Num(interpreter.number(Task::Decimal(text.clone()))),
                ),
                NumberLiteral::Bits(bits) => Ok(Value::Num(*bits)),
            },
            Node::Identifier { .. } => Err(unsupported("not yet implemented: identifier")),
            Node::BinaryOp { op, left, right } => interpreter.visit_bin_op_node(op, left, right),
            Node::Assignment { .. } => Err(unsupported("not yet implemented: assignment")),
            Node::UnaryOp { op, expr } => interpreter.visit_unary_op_node(op, expr),
            Node::FunctionCall { .. } => Err(unsupported("not yet implemented: function call")),
            Node::FunctionDefinition { .. } => Err(
                unsupported("not yet implemented: function definition"),
            ),
            Node::Return { .. } => Err(unsupported("not yet implemented: return")),
            Node::If { .. } => Err(unsupported("not yet implemented: if")),
            Node::While { .. } => Err(unsupported("not yet implemented: while")),
            Node::For { .. } => Err(unsupported("not yet implemented: for")),
            Node::Block { statements } => interpreter.visit_block_node(statements),
        };
        proof {
            lemma_once(self@, interpreter.arith(), interpreter.writer(), result_view(result));
        }
        result
    }
}

/// The error of a node that evaluation does not cover.
fn unsupported(message: &str) -> (error: GlassError)
    ensures
        error@ == crate::interpreter::unknown(message@),
{
    GlassError::UnknownError { error_message: message.to_owned() }
}

} // verus!
