//! The lexical front end of a small scripting language: the token model, the
//! lexer that cuts a source text into tokens, and the pieces that consume it.
pub mod ast;
pub mod chars;
pub mod grammar;
pub mod laws;
pub mod lexer;
pub mod parser;
pub mod repl;
pub mod token;
