//! A tree-walking interpreter for a small, dynamically typed scripting
//! language with first-class functions and closures.
//!
//! Source text goes through a lexer, a parser and an evaluator. Each stage
//! is proved against a mathematical description of what it computes: the
//! tokens of a text ([`lexer::tokens`]), the program that a list of tokens
//! stands for ([`grammar::parse_program`]) and the result and the
//! environment that the evaluation of a program leaves
//! ([`semantics::eval_program`]). What holds of the stages together is in
//! [`laws`]; [`recovery`] holds what the law on statements that fail rests
//! on.

pub mod ast;
pub mod environment;
pub mod error;
pub mod evaluator;
pub mod grammar;
pub mod laws;
pub mod lexer;
pub mod object;
pub mod parser;
pub mod recovery;
pub mod repl;
pub mod semantics;
pub mod text;
pub mod token;
