//! The tokens that the lexer hands to the parser, with their models.

use vstd::prelude::*;
use crate::ast::{Ident, IdentModel};

verus! {

/// One token of the surface syntax.
#[derive(Debug, PartialEq, Eq)]
pub enum Token {
    /// An identifier: a variable, or a reserved word
    Ident(Ident),
    /// An integer literal
    Int(i128),
    /// A boolean literal
    Bool(bool),
    /// A string literal, without its quotes
    Str(String),
    /// The operator `&&`
    And,
    /// The operator `||`
    Or,
    /// The operator `<`
    LessThan,
    /// The operator `<=`
    LessThanOrEqual,
    /// The operator `>`
    GreaterThan,
    /// The operator `>=`
    GreaterThanOrEqual,
    /// The operator `==`
    Equals,
    /// The operator `!=`
    NotEquals,
    /// The membership operator `in`
    In,
    /// The operator `!`
    Not,
    /// The operator `-`
    Minus,
    /// The punctuation `.`
    Dot,
    /// The punctuation `,`
    Comma,
    /// The punctuation `[`
    LeftBracket,
    /// The punctuation `]`
    RightBracket,
    /// The punctuation `(`
    LeftParen,
    /// The punctuation `)`
    RightParen,
}

/// Mathematical model of a token: text is a `Seq<char>`.
pub enum TokenModel {
    Ident(IdentModel),
    Int(i128),
    Bool(bool),
    Str(Seq<char>),
    And,
    Or,
    LessThan,
    LessThanOrEqual,
    GreaterThan,
    GreaterThanOrEqual,
    Equals,
    NotEquals,
    In,
    Not,
    Minus,
    Dot,
    Comma,
    LeftBracket,
    RightBracket,
    LeftParen,
    RightParen,
}

impl Token {
    pub open spec fn model(self) -> TokenModel {
        match self {
            Token::Ident(id) => TokenModel::Ident(id.model()),
            Token::Int(i) => TokenModel::Int(i),
            Token::Bool(b) => TokenModel::Bool(b),
            Token::Str(s) => TokenModel::Str(s@),
            Token::And => TokenModel::And,
            Token::Or => TokenModel::Or,
            Token::LessThan => TokenModel::LessThan,
            Token::LessThanOrEqual => TokenModel::LessThanOrEqual,
            Token::GreaterThan => TokenModel::GreaterThan,
            Token::GreaterThanOrEqual => TokenModel::GreaterThanOrEqual,
            Token::Equals => TokenModel::Equals,
            Token::NotEquals => TokenModel::NotEquals,
            Token::In => TokenModel::In,
            Token::Not => TokenModel::Not,
            Token::Minus => TokenModel::Minus,
            Token::Dot => TokenModel::Dot,
            Token::Comma => TokenModel::Comma,
            Token::LeftBracket => TokenModel::LeftBracket,
            Token::RightBracket => TokenModel::RightBracket,
            Token::LeftParen => TokenModel::LeftParen,
            Token::RightParen => TokenModel::RightParen,
        }
    }
}

/// Whether a token can end an operand: after such a token a `-` is an
/// operator of its own, never the sign of an integer literal.
pub open spec fn ends_operand(t: TokenModel) -> bool {
    match t {
        TokenModel::Ident(_) => true,
        TokenModel::Int(_) => true,
        TokenModel::Bool(_) => true,
        TokenModel::Str(_) => true,
        TokenModel::RightBracket => true,
        TokenModel::RightParen => true,
        _ => false,
    }
}

/// The models of a token sequence, elementwise; positions stay as they are.
pub open spec fn tokens_model(ts: Seq<(Token, usize)>) -> Seq<(TokenModel, usize)> {
    Seq::new(ts.len(), |i: int| (ts[i].0.model(), ts[i].1))
}

} // verus!
