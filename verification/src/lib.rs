//! A tokenizer and operator-precedence parser for a small expression and
//! statement language, with the syntax tree they produce.

pub mod ast;
pub mod grammar;
pub mod integer;
pub mod laws;
pub mod lexer;
pub mod parser;
pub mod text;
pub mod token;
