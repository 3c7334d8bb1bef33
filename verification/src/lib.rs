//! A verified arithmetic expression engine.
//!
//! The engine has three verified stages:
//!
//! - a tokenizer ([`parser`]) that turns an expression string into a token
//!   sequence, classifying unary minus, constants and function-call syntax;
//! - a macro expander ([`functions`]) that substitutes calls to user-defined
//!   functions with their parenthesized, parameter-substituted bodies;
//! - an evaluator ([`evaluator`]) that reduces a token sequence, by the
//!   operator-precedence discipline, to a straight-line numeric program.
//!
//! Numbers themselves are opaque to the engine: a token carries the numeral's
//! text, and the evaluator emits a [`evaluator::Instr`] program whose
//! instructions a host executes over its numeric domain. Everything the
//! engine decides - lexical analysis, precedence, associativity, parenthesis
//! matching, arity checks, macro expansion, and the integer combinatorics
//! behind `fact`, `comb` and `perm` - is specified and proved here; only the
//! host's floating-point arithmetic stays outside.

pub mod arith;
pub mod evaluator;
pub mod functions;
pub mod history;
pub mod parser;
pub mod text;
