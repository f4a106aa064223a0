//! Front end and evaluation core of a small dynamically-typed scripting
//! language: a lexer from bytes to tokens, a recursive-descent parser from
//! tokens to an abstract syntax tree, and a tree-walking interpreter that
//! evaluates expressions and executes statements against a chain of lexical
//! scopes.

pub mod token;
pub mod numeric;
pub mod ast;
pub mod error;
pub mod environment;
pub mod scanner;
pub mod parser;
pub mod interpreter;
