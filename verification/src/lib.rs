//! Front end of a small expression-oriented language: a lexical scanner that
//! turns source text into tokens, and a recursive-descent parser that turns
//! the token stream into declarations, patterns and expressions.

pub mod chars;
pub mod error;
pub mod lexer;
pub mod scan;
pub mod grammar;
pub mod identifier;
pub mod laws;
pub mod location;
pub mod parser;
pub mod token;
