//! Structured errors: every malformed input yields one of these, with the
//! source position at which the problem was seen.

use vstd::prelude::*;
use crate::token::{Token, TokenModel};

verus! {

/// Why the lexer rejected the input.
#[derive(Debug, PartialEq, Eq, Clone)]
pub enum LexReason {
    /// A string literal with no terminating quote
    UnterminatedString,
    /// An integer literal outside the signed 128-bit range
    IntegerOverflow,
    /// A character no token starts with
    InvalidCharacter,
}

/// A lexer error: the position of the offending character and the reason.
#[derive(Debug, PartialEq, Eq, Clone)]
pub struct LexError {
    /// Character offset into the input at which the problem was seen
    pub position: usize,
    /// What went wrong
    pub reason: LexReason,
}

/// What the parser was looking for when it stopped.
#[derive(Debug, PartialEq, Eq, Clone)]
pub enum Expected {
    /// The start of an expression
    Expression,
    /// A closing `)`
    ClosingParen,
    /// A closing `]`
    ClosingBracket,
    /// A `,` or a closing `]` after a list element
    CommaOrClosingBracket,
    /// A `,`
    Comma,
    /// A field or function name after `.`
    FieldName,
    /// One of the recognized function names before `(`
    KnownFunction,
    /// A bare variable as the bound name of `all`, `any` or `filter`
    VariableBinder,
    /// A literal as the argument of `contains`
    LiteralArgument,
    /// An index literal within unsigned 32-bit range
    IndexLiteral,
    /// A slice whose start does not exceed its end
    OrderedSliceBounds,
    /// The end of the input
    EndOfInput,
    /// Nesting within the recursion limit
    ShallowerNesting,
}

/// A parser error: where it stopped, what it was looking for, and the token
/// it found instead (`None` at the end of the input).
#[derive(Debug, PartialEq, Eq)]
pub struct ParseError {
    /// Character offset into the input at which the problem was seen
    pub position: usize,
    /// What the parser was looking for
    pub expected: Expected,
    /// The token found instead, if any
    pub found: Option<Token>,
}

/// Mathematical model of a parser error.
pub struct ParseErrorModel {
    pub position: usize,
    pub expected: Expected,
    pub found: Option<TokenModel>,
}

impl ParseError {
    pub open spec fn model(self) -> ParseErrorModel {
        ParseErrorModel {
            position: self.position,
            expected: self.expected,
            found: match self.found {
                Option::None => Option::None,
                Option::Some(t) => Option::Some(t.model()),
            },
        }
    }
}

/// Any failure of `parse`: from the lexer or from the parser.
#[derive(Debug, PartialEq, Eq)]
pub enum Error {
    /// The lexer rejected the input
    Lex(LexError),
    /// The parser rejected the token sequence
    Parse(ParseError),
}

/// Mathematical model of a `parse` failure.
pub enum ErrorModel {
    Lex(LexError),
    Parse(ParseErrorModel),
}

impl Error {
    pub open spec fn model(self) -> ErrorModel {
        match self {
            Error::Lex(e) => ErrorModel::Lex(e),
            Error::Parse(e) => ErrorModel::Parse(e.model()),
        }
    }
}

} // verus!
