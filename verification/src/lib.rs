//! A tree-walking interpreter for a small dynamically typed scripting
//! language with C-like syntax: variables, blocks, `if`/`while`/`for`,
//! first-class functions and closures, arrays and strings with indexing.
//!
//! The pipeline is scanner (source text to tokens), parser (tokens to an
//! abstract syntax tree), resolver (a static pass that computes, for every
//! variable reference, how many enclosing scopes to hop to reach its
//! binding), and the evaluator (which executes statements against a runtime
//! environment).  Runtime scopes form an arena of frames addressed by stable
//! index; a closure stores the index of the frame it was defined in, which is
//! what makes captured variables shared and mutable across calls.

pub mod callable;
pub mod environment;
pub mod errors;
pub mod expr;
pub mod interpreter;
pub mod native;
pub mod numbers;
pub mod parser;
pub mod resolver;
pub mod scanner;
pub mod stmt;
pub mod text;
pub mod token;

pub use token::Token;
pub use token::TokenType;

