//! A tree-walking interpreter for the Monkey scripting language: a lexer, a
//! Pratt parser and an evaluator, each with a mathematical model that its
//! contracts are stated over.

pub mod text;
pub mod token;
pub mod lexer;
pub mod parser;
pub mod eval;
pub mod repl;
