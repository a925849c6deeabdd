//! Front end of a small interpreted language: a character-level lexer that
//! turns source text into a token stream, and a recursive-descent parser with
//! precedence climbing that turns the token stream into an abstract syntax
//! tree together with a list of structured parse errors.

pub mod tokens;
pub mod lexer;
pub mod ast;
pub mod parser;
