//! A parser for a small expression language: boolean logic, comparisons,
//! collection functions (`all`, `any`, `filter`, `contains`, `count`),
//! field/index/slice access, list literals and scalar literals.
//!
//! `parse` turns text into an [`Expr`] or a structured error; each tree
//! renders back to surface syntax through its `display` method. Both are
//! specified exactly against spec-level models of the lexer, the grammar
//! and the printer.

mod ast;
mod errors;
mod laws;
mod lexer;
mod parser;
mod token;

pub use errors::{LexError, LexReason, ParseError, ParseErrorModel, Expected, Error, ErrorModel};
pub use token::{Token, TokenModel};
pub use lexer::tokenize;
pub use laws::{
    lemma_round_trip_variable, lemma_round_trip_keyword, lemma_round_trip_bool,
    lemma_round_trip_int, lemma_round_trip_negated_int, lemma_round_trip_string,
    lemma_round_trip_field_access, ident_lexes_back, lemma_parse_binders_are_variables,
};
pub use parser::{parse, spec_parse, spec_parse_tokens, PARSE_DEPTH};
pub use ast::{
    Expr, LogicalOp, FunctionOp, ComparisonOp, AccessOp, UnaryOp, Literal, Ident,
    ExprModel, FunctionOpModel, AccessOpModel, LiteralModel, IdentModel,
    binders_are_variables, function_binders_are_variables, level_of, print_expr,
};
