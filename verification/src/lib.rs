//! A verified normalizer for untyped lambda-calculus terms.
//!
//! Terms are built from variables, applications and abstractions. The engine
//! repeatedly contracts beta-redexes in leftmost-outermost order, using the
//! classical seven-rule capture-avoiding substitution, until no redex remains
//! or the rewrite sequence repeats a rendering (reported as non-termination).

pub mod except;
pub mod interpreter;
pub mod lexer;
pub mod term;

pub use interpreter::Interpreter;
pub use term::Node;
