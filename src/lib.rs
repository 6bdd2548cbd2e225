//! A small lexer for a C-like language: it turns source text into a lazy
//! stream of tokens, one per call.
pub mod chars;
pub mod laws;
pub mod lexer;
pub mod text;
pub mod token;

pub use lexer::{tokenize, Lexer};
pub use token::Token;
