//! Tokens: what the lexer hands to the parser.
use vstd::prelude::*;
use crate::interner::Atom;

verus! {

#[derive(Debug, Clone, Copy, PartialEq, Eq, Structural)]
pub enum TokenType {
    Plus,
    Minus,
    Star,
    Slash,
    Percent,
    DoubleDot,
    DoubleStar,
    DoubleSlash,
    Identifier,
    Number,
    String,
    True,
    False,
    Nil,
    ParenOpen,
    ParenClose,
    BracketOpen,
    BracketClose,
    BraceOpen,
    BraceClose,
    Let,
    Comma,
    BangEqual,
    DoubleEqual,
    ColonEqual,
    Less,
    LessEqual,
    Greater,
    GreaterEqual,
    Fn,
    Return,
    If,
    Else,
    While,
    And,
    Or,
    Not,
    Print,
    Eof,
    Semicolon,
    BadCharacter,
}

/// A source position; line and column both count from 1.
#[derive(Debug, Clone, Copy, PartialEq, Eq, Structural)]
pub struct TokenPos {
    pub line: usize,
    pub column: usize,
}

impl TokenPos {
    pub fn new(line: usize, column: usize) -> (r: Self)
        ensures
            r.line == line,
            r.column == column,
    {
        TokenPos { line, column }
    }
}

#[derive(Debug, Clone, Copy, PartialEq, Eq, Structural)]
pub struct Token {
    pub pos: TokenPos,
    pub token_type: TokenType,
    pub lexeme: Atom,
}

/// Tokens that end a statement list.
pub open spec fn is_block_ending(t: TokenType) -> bool {
    t == TokenType::BraceClose || t == TokenType::Eof
}

pub open spec fn is_comparison_operator(t: TokenType) -> bool {
    t == TokenType::DoubleEqual || t == TokenType::Less || t == TokenType::LessEqual
        || t == TokenType::Greater || t == TokenType::GreaterEqual || t == TokenType::BangEqual
}

pub fn is_block_ending_type(t: TokenType) -> (r: bool)
    ensures
        r == is_block_ending(t),
{
    t == TokenType::BraceClose || t == TokenType::Eof
}

pub fn is_comparison_operator_type(t: TokenType) -> (r: bool)
    ensures
        r == is_comparison_operator(t),
{
    match t {
        TokenType::DoubleEqual | TokenType::Less | TokenType::LessEqual | TokenType::Greater
        | TokenType::GreaterEqual | TokenType::BangEqual => true,
        _ => false,
    }
}

} // verus!
