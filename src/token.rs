use vstd::prelude::*;

verus! {

/// The category of a token, without its text.
#[derive(Clone, Copy, Debug, PartialEq, Eq, Structural)]
pub enum TokenKind {
    Newline,
    Number,
    Var,
    Let,
    Plus,
    Minus,
    Asterisk,
    EQ,
    InvalidToken,
}

/// One lexical unit; each variant carries the exact text it was read from.
#[derive(Debug, PartialEq, Eq)]
pub enum Token {
    Newline(String),
    Number(String),
    Var(String),
    // Keywords
    Let(String),
    // Operators
    Plus(String),
    Minus(String),
    Asterisk(String),
    EQ(String),
    InvalidToken(String),
}

impl View for Token {
    type V = (TokenKind, Seq<char>);

    open spec fn view(&self) -> (TokenKind, Seq<char>) {
        match self {
            Token::Newline(s) => (TokenKind::Newline, s@),
            Token::Number(s) => (TokenKind::Number, s@),
            Token::Var(s) => (TokenKind::Var, s@),
            Token::Let(s) => (TokenKind::Let, s@),
            Token::Plus(s) => (TokenKind::Plus, s@),
            Token::Minus(s) => (TokenKind::Minus, s@),
            Token::Asterisk(s) => (TokenKind::Asterisk, s@),
            Token::EQ(s) => (TokenKind::EQ, s@),
            Token::InvalidToken(s) => (TokenKind::InvalidToken, s@),
        }
    }
}

/// Why a run of the lexer was abandoned.
#[derive(Debug, PartialEq, Eq)]
pub enum LexError {
    /// An alphabetic run of two or more letters that is not a keyword.
    InvalidKeyword(String),
}

impl View for LexError {
    type V = Seq<char>;

    open spec fn view(&self) -> Seq<char> {
        match self {
            LexError::InvalidKeyword(s) => s@,
        }
    }
}

} // verus!
