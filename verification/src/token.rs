//! Tokens produced by the lexer and their models.
use vstd::prelude::*;

verus! {

/// A position in the source text, both counted from 1.
#[derive(Debug, Clone, Copy, PartialEq, Eq, Structural)]
pub struct Span {
    pub line: usize,
    pub col: usize,
}

/// The reserved words of the language.
#[derive(Debug, Clone, Copy, PartialEq, Eq, Structural)]
pub enum Keyword {
    SharedContract,
    Contract,
    State,
    Var,
    On,
    If,
    Else,
    Call,
    Let,
    Send,
    Transition,
    Violation,
    Drop,
}

#[derive(Debug, Clone, PartialEq)]
pub enum TokenKind {
    Ident(String),
    Number(u64),
    Keyword(Keyword),
    LBrace,
    RBrace,
    LParen,
    RParen,
    Colon,
    Semicolon,
    Comma,
    Dot,
    Plus,
    Minus,
    EqEq,
    Greater,
    Less,
    Assign,
    Arrow,
    Eof,
}

#[derive(Debug, Clone)]
pub struct Token {
    pub kind: TokenKind,
    pub span: Span,
}

/// The model of a token kind: identifiers are character sequences.
pub enum SpecTokenKind {
    Ident(Seq<char>),
    Number(u64),
    Keyword(Keyword),
    LBrace,
    RBrace,
    LParen,
    RParen,
    Colon,
    Semicolon,
    Comma,
    Dot,
    Plus,
    Minus,
    EqEq,
    Greater,
    Less,
    Assign,
    Arrow,
    Eof,
}

/// The model of a token.
pub struct SpecToken {
    pub kind: SpecTokenKind,
    pub span: Span,
}

impl View for TokenKind {
    type V = SpecTokenKind;

    open spec fn view(&self) -> SpecTokenKind {
        match self {
            TokenKind::Ident(s) => SpecTokenKind::Ident(s@),
            TokenKind::Number(n) => SpecTokenKind::Number(*n),
            TokenKind::Keyword(k) => SpecTokenKind::Keyword(*k),
            TokenKind::LBrace => SpecTokenKind::LBrace,
            TokenKind::RBrace => SpecTokenKind::RBrace,
            TokenKind::LParen => SpecTokenKind::LParen,
            TokenKind::RParen => SpecTokenKind::RParen,
            TokenKind::Colon => SpecTokenKind::Colon,
            TokenKind::Semicolon => SpecTokenKind::Semicolon,
            TokenKind::Comma => SpecTokenKind::Comma,
            TokenKind::Dot => SpecTokenKind::Dot,
            TokenKind::Plus => SpecTokenKind::Plus,
            TokenKind::Minus => SpecTokenKind::Minus,
            TokenKind::EqEq => SpecTokenKind::EqEq,
            TokenKind::Greater => SpecTokenKind::Greater,
            TokenKind::Less => SpecTokenKind::Less,
            TokenKind::Assign => SpecTokenKind::Assign,
            TokenKind::Arrow => SpecTokenKind::Arrow,
            TokenKind::Eof => SpecTokenKind::Eof,
        }
    }
}

impl View for Token {
    type V = SpecToken;

    open spec fn view(&self) -> SpecToken {
        SpecToken { kind: self.kind@, span: self.span }
    }
}

/// The models of a sequence of tokens.
pub open spec fn tokens_view(ts: Seq<Token>) -> Seq<SpecToken> {
    ts.map_values(|t: Token| t@)
}

} // verus!
