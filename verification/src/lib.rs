//! Front end and evaluator of the Glass expression language: a tokenizer, a
//! precedence-climbing parser, a tree-walking evaluator over dynamically typed
//! values, and diagnostics that point into the source text.
//!
//! Numbers are IEEE-754 binary64 values. Verus does not model
//! floating-point arithmetic, so a number is carried as its 64-bit pattern and
//! the arithmetic itself is supplied by the caller as two functions; every
//! contract states what is handed to them and what becomes of their answers.

pub mod span;
pub mod token;
pub mod text;
pub mod escape;
pub mod lexer;
pub mod number;
pub mod error;
pub mod node;
pub mod parser;
pub mod arithmetic;
pub mod value;
pub mod context;
pub mod interpreter;
pub mod run;
pub mod lexemes;
