//! Tokens and their kinds.

use crate::utils::span::Span;
use vstd::prelude::*;

verus! {

/// The lexical category of a token.
#[derive(Debug, Clone, Copy, PartialEq, Eq, Structural)]
pub enum TokenKind {
    If,
    Else,
    While,
    For,
    Return,
    Int,
    Void,
    Identifier,
    IntegerLiteral,
    Plus,
    Minus,
    Star,
    Slash,
    Assign,
    Equal,
    NotEqual,
    Less,
    LessEqual,
    Greater,
    GreaterEqual,
    LogicalAnd,
    LogicalOr,
    LogicalNot,
    Semicolon,
    Comma,
    LParen,
    RParen,
    LBrace,
    RBrace,
    /// A lexeme that belongs to no other category.
    Error,
}

impl TokenKind {
    /// The name of the kind, as diagnostics print it.
    pub open spec fn spec_name(self) -> Seq<char> {
        match self {
            TokenKind::If => "If"@,
            TokenKind::Else => "Else"@,
            TokenKind::While => "While"@,
            TokenKind::For => "For"@,
            TokenKind::Return => "Return"@,
            TokenKind::Int => "Int"@,
            TokenKind::Void => "Void"@,
            TokenKind::Identifier => "Identifier"@,
            TokenKind::IntegerLiteral => "IntegerLiteral"@,
            TokenKind::Plus => "Plus"@,
            TokenKind::Minus => "Minus"@,
            TokenKind::Star => "Star"@,
            TokenKind::Slash => "Slash"@,
            TokenKind::Assign => "Assign"@,
            TokenKind::Equal => "Equal"@,
            TokenKind::NotEqual => "NotEqual"@,
            TokenKind::Less => "Less"@,
            TokenKind::LessEqual => "LessEqual"@,
            TokenKind::Greater => "Greater"@,
            TokenKind::GreaterEqual => "GreaterEqual"@,
            TokenKind::LogicalAnd => "LogicalAnd"@,
            TokenKind::LogicalOr => "LogicalOr"@,
            TokenKind::LogicalNot => "LogicalNot"@,
            TokenKind::Semicolon => "Semicolon"@,
            TokenKind::Comma => "Comma"@,
            TokenKind::LParen => "LParen"@,
            TokenKind::RParen => "RParen"@,
            TokenKind::LBrace => "LBrace"@,
            TokenKind::RBrace => "RBrace"@,
            TokenKind::Error => "Error"@,
        }
    }

    /// The name of the kind, as diagnostics print it.
    pub fn name(self) -> (name: String)
        ensures
            name@ == self.spec_name(),
    {
        match self {
            TokenKind::If => "If".to_owned(),
            TokenKind::Else => "Else".to_owned(),
            TokenKind::While => "While".to_owned(),
            TokenKind::For => "For".to_owned(),
            TokenKind::Return => "Return".to_owned(),
            TokenKind::Int => "Int".to_owned(),
            TokenKind::Void => "Void".to_owned(),
            TokenKind::Identifier => "Identifier".to_owned(),
            TokenKind::IntegerLiteral => "IntegerLiteral".to_owned(),
            TokenKind::Plus => "Plus".to_owned(),
            TokenKind::Minus => "Minus".to_owned(),
            TokenKind::Star => "Star".to_owned(),
            TokenKind::Slash => "Slash".to_owned(),
            TokenKind::Assign => "Assign".to_owned(),
            TokenKind::Equal => "Equal".to_owned(),
            TokenKind::NotEqual => "NotEqual".to_owned(),
            TokenKind::Less => "Less".to_owned(),
            TokenKind::LessEqual => "LessEqual".to_owned(),
            TokenKind::Greater => "Greater".to_owned(),
            TokenKind::GreaterEqual => "GreaterEqual".to_owned(),
            TokenKind::LogicalAnd => "LogicalAnd".to_owned(),
            TokenKind::LogicalOr => "LogicalOr".to_owned(),
            TokenKind::LogicalNot => "LogicalNot".to_owned(),
            TokenKind::Semicolon => "Semicolon".to_owned(),
            TokenKind::Comma => "Comma".to_owned(),
            TokenKind::LParen => "LParen".to_owned(),
            TokenKind::RParen => "RParen".to_owned(),
            TokenKind::LBrace => "LBrace".to_owned(),
            TokenKind::RBrace => "RBrace".to_owned(),
            TokenKind::Error => "Error".to_owned(),
        }
    }
}

/// A token: its kind, where it stands in the source, and the text it covers.
#[derive(Debug, PartialEq)]
pub struct Token {
    pub kind: TokenKind,
    pub span: Span,
    pub text: String,
}

/// The mathematical value of a [`Token`]: the text is a sequence of characters.
pub struct TokenView {
    pub kind: TokenKind,
    pub span: Span,
    pub text: Seq<char>,
}

impl View for Token {
    type V = TokenView;

    open spec fn view(&self) -> TokenView {
        TokenView { kind: self.kind, span: self.span, text: self.text@ }
    }
}

impl Clone for Token {
    fn clone(&self) -> (copy: Self)
        ensures
            copy@ == self@,
    {
        Token { kind: self.kind, span: self.span, text: self.text.clone() }
    }
}

/// The values of a sequence of tokens, in order.
pub open spec fn tokens_view(tokens: Seq<Token>) -> Seq<TokenView> {
    Seq::new(tokens.len(), |i: int| tokens[i]@)
}

} // verus!
