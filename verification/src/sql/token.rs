//! Tokens, and what can go wrong while cutting the input into them.

use vstd::prelude::*;
use vstd::std_specs::cmp::PartialEqSpecImpl;

verus! {

/// A token of the input.
#[derive(Debug)]
pub enum Token {
    // Keywords
    Create,
    Table,
    Insert,
    Into,
    Values,
    Select,
    From,
    Int,
    Varchar,
    // Identifier
    Ident(String),
    // Literals
    Integer(i64),
    String(String),
    // Symbols
    LParen,
    RParen,
    Comma,
    Semicolon,
    // End of input
    Eof,
}

/// A token as a mathematical value.
pub enum TokenView {
    Create,
    Table,
    Insert,
    Into,
    Values,
    Select,
    From,
    Int,
    Varchar,
    Ident(Seq<char>),
    Integer(i64),
    String(Seq<char>),
    LParen,
    RParen,
    Comma,
    Semicolon,
    Eof,
}

impl View for Token {
    type V = TokenView;

    open spec fn view(&self) -> TokenView {
        match self {
            Token::Create => TokenView::Create,
            Token::Table => TokenView::Table,
            Token::Insert => TokenView::Insert,
            Token::Into => TokenView::Into,
            Token::Values => TokenView::Values,
            Token::Select => TokenView::Select,
            Token::From => TokenView::From,
            Token::Int => TokenView::Int,
            Token::Varchar => TokenView::Varchar,
            Token::Ident(s) => TokenView::Ident(s@),
            Token::Integer(i) => TokenView::Integer(*i),
            Token::String(s) => TokenView::String(s@),
            Token::LParen => TokenView::LParen,
            Token::RParen => TokenView::RParen,
            Token::Comma => TokenView::Comma,
            Token::Semicolon => TokenView::Semicolon,
            Token::Eof => TokenView::Eof,
        }
    }
}

impl Clone for Token {
    fn clone(&self) -> (copy: Token)
        ensures
            copy@ == self@,
    {
        match self {
            Token::Create => Token::Create,
            Token::Table => Token::Table,
            Token::Insert => Token::Insert,
            Token::Into => Token::Into,
            Token::Values => Token::Values,
            Token::Select => Token::Select,
            Token::From => Token::From,
            Token::Int => Token::Int,
            Token::Varchar => Token::Varchar,
            Token::Ident(s) => Token::Ident(s.clone()),
            Token::Integer(i) => Token::Integer(*i),
            Token::String(s) => Token::String(s.clone()),
            Token::LParen => Token::LParen,
            Token::RParen => Token::RParen,
            Token::Comma => Token::Comma,
            Token::Semicolon => Token::Semicolon,
            Token::Eof => Token::Eof,
        }
    }
}

impl PartialEq for Token {
    /// Two tokens are equal when they are of the same kind and carry the
    /// same text or number.
    fn eq(&self, other: &Token) -> (equal: bool) {
        match (self, other) {
            (Token::Create, Token::Create) => true,
            (Token::Table, Token::Table) => true,
            (Token::Insert, Token::Insert) => true,
            (Token::Into, Token::Into) => true,
            (Token::Values, Token::Values) => true,
            (Token::Select, Token::Select) => true,
            (Token::From, Token::From) => true,
            (Token::Int, Token::Int) => true,
            (Token::Varchar, Token::Varchar) => true,
            (Token::Ident(a), Token::Ident(b)) => *a == *b,
            (Token::Integer(a), Token::Integer(b)) => *a == *b,
            (Token::String(a), Token::String(b)) => *a == *b,
            (Token::LParen, Token::LParen) => true,
            (Token::RParen, Token::RParen) => true,
            (Token::Comma, Token::Comma) => true,
            (Token::Semicolon, Token::Semicolon) => true,
            (Token::Eof, Token::Eof) => true,
            _ => false,
        }
    }
}

impl PartialEqSpecImpl for Token {
    open spec fn obeys_eq_spec() -> bool {
        true
    }

    open spec fn eq_spec(&self, other: &Token) -> bool {
        self@ == other@
    }
}

/// What the lexer can stumble over.
#[derive(Debug, Clone, Copy, PartialEq, Eq)]
pub enum LexerError {
    InvalidCharacter(char),
    UnterminatedString,
}

} // verus!
