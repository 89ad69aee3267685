//! A small dynamically typed expression language: a lexer that turns source
//! text into tokens, an operator-precedence parser that builds an abstract
//! syntax tree, and a tree-walking evaluator that runs the tree against a
//! chain of mutable scopes.

pub mod error;
pub mod helper;
pub mod text;
pub mod token;
pub mod lexer;
pub mod ast;
pub mod object;
pub mod env;
pub mod builtin;
pub mod interpreter;
pub mod parser;
pub mod expression;
pub mod laws;
pub mod grammar;
