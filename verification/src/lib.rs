//! A lexer, a recursive-descent parser and a tree-walking evaluator for a
//! small dynamically typed scripting language.
//!
//! Source text goes through [`scanner::Scanner`] to tokens, through
//! [`parser::Parser`] to statements, and through
//! [`interpreter::Interpreter`] to printed lines and a final outcome.
//! Every function states what it computes over the mathematical views of
//! its arguments:
//!
//! - [`scanner::scan`] says which tokens a text yields,
//! - [`grammar::program`] which statements a token sequence writes,
//! - [`semantics::exec`] and [`semantics::eval`] what a statement does
//!   and what an expression is worth.
//!
//! On top of these stand the laws: a token sequence ends with the
//! end-of-input token ([`scanner::lemma_scan_ends_with_eof`]), parsing is
//! idempotent ([`idempotence::lemma_parse_idempotent`]), and no statement
//! leaks a scope ([`semantics::lemma_no_scope_leak`]).
//!
//! Numbers are exact decimals with nine fractional digits
//! ([`number::Number`]). The evaluator is total: the depth of nested
//! calls and the rounds of a loop are bounded, and running into a bound
//! is a runtime error.

pub mod ast;
pub mod callable;
pub mod env;
pub mod err;
pub mod grammar;
pub mod idempotence;
pub mod interpreter;
pub mod number;
pub mod parser;
pub mod printer;
pub mod readback;
pub mod roundtrip;
pub mod scanner;
pub mod semantics;
pub mod shape;
pub mod text;
pub mod value;
