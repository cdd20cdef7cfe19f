//! Front end of a small imperative language: a tokenizer, a recursive-descent
//! parser and positioned diagnostics, each stated over mathematical models.

pub mod text;
pub mod token;
pub mod lexer;
pub mod ast;
pub mod parser;
pub mod grammar;
pub mod syntax;
pub mod util;
