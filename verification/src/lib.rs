//! The front end of a small expression-oriented language: `lexer::tokenize`
//! turns raw source bytes into a token sequence, and `parser::parse` turns
//! the token sequence into an abstract syntax tree.  Both stages are
//! specified by mathematical models of their inputs and outputs, and each
//! is verified to return exactly its model's result.

pub mod lexer;
pub mod parser;
