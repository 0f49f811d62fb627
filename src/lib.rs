//! A lexer for a small arithmetic and assignment language: numbers, the
//! operators `+ - * =`, newlines, one-letter variables and the keyword `LET`.

pub mod grammar;
pub mod lexer;
pub mod theorems;
pub mod token;

pub use lexer::Lexer;
pub use token::{LexError, Token, TokenKind};
