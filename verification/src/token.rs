//! Tokens produced by the lexer, and their mathematical counterpart.
use vstd::prelude::*;

verus! {

/// A lexical token. A number carries the exact run of digit and `.`
/// characters it was scanned from; turning that text into a machine number is
/// left to the consumer of a compiled program, so that everything up to the
/// final floating-point arithmetic can be verified.
#[derive(Debug, Clone, PartialEq)]
pub enum Token {
    Number(String),
    Plus,
    Minus,
    Multiply,
    Divide,
    LParen,
    RParen,
    Eof,
}

/// The mathematical view of a token: the same variants over `Seq<char>`.
pub enum Lexeme {
    Number(Seq<char>),
    Plus,
    Minus,
    Multiply,
    Divide,
    LParen,
    RParen,
    Eof,
}

impl View for Token {
    type V = Lexeme;

    open spec fn view(&self) -> Lexeme {
        match self {
            Token::Number(s) => Lexeme::Number(s@),
            Token::Plus => Lexeme::Plus,
            Token::Minus => Lexeme::Minus,
            Token::Multiply => Lexeme::Multiply,
            Token::Divide => Lexeme::Divide,
            Token::LParen => Lexeme::LParen,
            Token::RParen => Lexeme::RParen,
            Token::Eof => Lexeme::Eof,
        }
    }
}

/// Operator precedence over lexemes: `+ -` bind at 1, `* /` at 2, everything
/// else (in particular an open parenthesis resting on the operator stack) at 0.
pub open spec fn lex_prec(l: Lexeme) -> int {
    match l {
        Lexeme::Plus | Lexeme::Minus => 1,
        Lexeme::Multiply | Lexeme::Divide => 2,
        _ => 0,
    }
}

} // verus!
