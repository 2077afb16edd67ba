//! What the evaluator asks of its caller. Floating-point arithmetic lies
//! outside what Verus reasons about, so the caller supplies it as two
//! functions: one answers a `Task` with a number, the other writes a number
//! out. The contracts say which questions are put and where the answers go;
//! they hold whatever the two functions answer.

use vstd::prelude::*;

verus! {

/// The arithmetic operators on two numbers.
#[derive(Clone, Copy, Debug, PartialEq, Eq, Structural)]
pub enum NumOp {
    Add,
    Sub,
    Mul,
    Div,
    Rem,
    Pow,
}

/// A question whose answer is a number, as its binary64 bit pattern.
#[derive(Debug)]
pub enum Task {
    /// The number nearest to a decimal literal.
    Decimal(String),
    /// The result of an operator on two numbers.
    Binary(NumOp, u64, u64),
}

pub enum TaskView {
    Decimal(Seq<char>),
    Binary(NumOp, u64, u64),
}

impl View for Task {
    type V = TaskView;

    open spec fn view(&self) -> TaskView {
        match self {
            Task::Decimal(text) => TaskView::Decimal(text@),
            Task::Binary(op, a, b) => TaskView::Binary(*op, *a, *b),
        }
    }
}

/// `bits` is an answer that `num` may give to `task`.
pub open spec fn answers<N: Fn(Task) -> u64>(num: N, task: TaskView, bits: u64) -> bool {
    exists|asked: Task| #[trigger] asked@ == task && call_ensures(num, (asked,), bits)
}

/// `text` is a way in which `show` may write the number `bits` out.
pub open spec fn writes<S: Fn(u64) -> String>(show: S, bits: u64, text: Seq<char>) -> bool {
    exists|written: String| #[trigger] written@ == text && call_ensures(show, (bits,), written)
}

/// Both functions take every question.
pub open spec fn ready<N: Fn(Task) -> u64, S: Fn(u64) -> String>(num: N, show: S) -> bool {
    &&& forall|task: Task| call_requires(num, (task,))
    &&& forall|bits: u64| call_requires(show, (bits,))
}

/// Both functions answer by what they are asked alone: the same question
/// gets the same answer.
pub open spec fn steady<N: Fn(Task) -> u64, S: Fn(u64) -> String>(num: N, show: S) -> bool {
    &&& forall|task: TaskView, a: u64, b: u64|
        answers(num, task, a) && answers(num, task, b) ==> a == b
    &&& forall|bits: u64, a: Seq<char>, b: Seq<char>|
        writes(show, bits, a) && writes(show, bits, b) ==> a == b
}

/// Puts `task` to `num`.
pub fn ask<N: Fn(Task) -> u64>(num: &N, task: Task) -> (bits: u64)
    requires
        forall|any: Task| call_requires(*num, (any,)),
    ensures
        answers(*num, task@, bits),
{
    let bits = num(task);
    bits
}

/// Has `show` write `bits` out.
pub fn write_out<S: Fn(u64) -> String>(show: &S, bits: u64) -> (text: String)
    requires
        forall|any: u64| call_requires(*show, (any,)),
    ensures
        writes(*show, bits, text@),
{
    let text = show(bits);
    text
}

} // verus!
