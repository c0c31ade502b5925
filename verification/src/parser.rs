//! The parser: a precedence-ordered recursive descent over the token
//! sequence. Each level is defined once as a spec function and mirrored by
//! an executable function proved equal to it.

use vstd::prelude::*;
use vstd::string::{StrSliceExecFns, StringExecFns};
use crate::ast::{
    Expr, LogicalOp, FunctionOp, ComparisonOp, AccessOp, UnaryOp, Literal, Ident, ExprModel,
    FunctionOpModel, AccessOpModel, LiteralModel, IdentModel,
};
use crate::token::{Token, TokenModel, tokens_model};
use crate::errors::{Error, ErrorModel, ParseError, ParseErrorModel, Expected, LexError};
use crate::lexer::{spec_tokens, is_function_word, tokenize};

verus! {

broadcast use vstd::std_specs::vec::axiom_spec_len;

/// How deep the grammar may recurse before the parser gives up: a guard
/// against stack exhaustion on adversarial nesting. Each unit of depth
/// crosses several native stack frames, so the bound is kept low enough
/// that the guard fails with an error well before the stack runs out.
pub const PARSE_DEPTH: usize = 256;

/// The kind of token sequence the parser walks: each token with its start.
pub type TokenSeq = Seq<(TokenModel, usize)>;

/// The source position of token `i`, or the end of the input.
pub open spec fn pos_at(ts: TokenSeq, end: usize, i: int) -> usize {
    if 0 <= i < ts.len() {
        ts[i].1
    } else {
        end
    }
}

/// The token at `i`, if any.
pub open spec fn found_at(ts: TokenSeq, i: int) -> Option<TokenModel> {
    if 0 <= i < ts.len() {
        Some(ts[i].0)
    } else {
        None
    }
}

/// The parser error raised at token `i`.
pub open spec fn perr(ts: TokenSeq, end: usize, i: int, exp: Expected) -> ParseErrorModel {
    ParseErrorModel { position: pos_at(ts, end, i), expected: exp, found: found_at(ts, i) }
}

/// Whether a token is a comparison operator.
pub open spec fn is_cmp_token(t: TokenModel) -> bool {
    match t {
        TokenModel::LessThan => true,
        TokenModel::LessThanOrEqual => true,
        TokenModel::GreaterThan => true,
        TokenModel::GreaterThanOrEqual => true,
        TokenModel::Equals => true,
        TokenModel::NotEquals => true,
        TokenModel::In => true,
        _ => false,
    }
}

/// The comparison operator a token stands for.
pub open spec fn cmp_op_of(t: TokenModel) -> ComparisonOp {
    match t {
        TokenModel::LessThan => ComparisonOp::LessThan,
        TokenModel::LessThanOrEqual => ComparisonOp::LessThanOrEqual,
        TokenModel::GreaterThan => ComparisonOp::GreaterThan,
        TokenModel::GreaterThanOrEqual => ComparisonOp::GreaterThanOrEqual,
        TokenModel::Equals => ComparisonOp::Equals,
        TokenModel::NotEquals => ComparisonOp::NotEquals,
        _ => ComparisonOp::In,
    }
}

/// The literal a token stands for, if it is a literal token.
pub open spec fn lit_of_token(t: TokenModel) -> Option<LiteralModel> {
    match t {
        TokenModel::Int(v) => Some(LiteralModel::Int(v)),
        TokenModel::Bool(b) => Some(LiteralModel::Bool(b)),
        TokenModel::Str(s) => Some(LiteralModel::Str(s)),
        _ => None,
    }
}

/// One parsing outcome: the expression built and the index just past it.
pub type SpecParsed = Result<(ExprModel, int), ParseErrorModel>;

/// Logical level: `&&`-chains joined by `||`, both left-associative, with
/// `&&` binding tighter.
pub open spec fn spec_parse_or(ts: TokenSeq, end: usize, i: int, d: nat) -> SpecParsed
    decreases d, 9int,
{
    match spec_parse_and(ts, end, i, d) {
        Err(e) => Err(e),
        Ok((l, j)) => spec_or_rest(l, ts, end, j, d),
    }
}

/// The rest of a `||`-chain after its first operand.
pub open spec fn spec_or_rest(l: ExprModel, ts: TokenSeq, end: usize, i: int, d: nat) -> SpecParsed
    decreases d, 8int,
{
    if 0 <= i < ts.len() && ts[i].0 == TokenModel::Or {
        if d == 0 {
            Err(perr(ts, end, i, Expected::ShallowerNesting))
        } else {
            match spec_parse_and(ts, end, i + 1, (d - 1) as nat) {
                Err(e) => Err(e),
                Ok((r0, j)) => spec_or_rest(
                    ExprModel::Logical(Box::new(l), LogicalOp::Or, Box::new(r0)),
                    ts,
                    end,
                    j,
                    (d - 1) as nat,
                ),
            }
        }
    } else {
        Ok((l, i))
    }
}

/// `&&` level.
pub open spec fn spec_parse_and(ts: TokenSeq, end: usize, i: int, d: nat) -> SpecParsed
    decreases d, 7int,
{
    match spec_parse_cmp(ts, end, i, d) {
        Err(e) => Err(e),
        Ok((l, j)) => spec_and_rest(l, ts, end, j, d),
    }
}

/// The rest of a `&&`-chain after its first operand.
pub open spec fn spec_and_rest(l: ExprModel, ts: TokenSeq, end: usize, i: int, d: nat) -> SpecParsed
    decreases d, 6int,
{
    if 0 <= i < ts.len() && ts[i].0 == TokenModel::And {
        if d == 0 {
            Err(perr(ts, end, i, Expected::ShallowerNesting))
        } else {
            match spec_parse_cmp(ts, end, i + 1, (d - 1) as nat) {
                Err(e) => Err(e),
                Ok((r0, j)) => spec_and_rest(
                    ExprModel::Logical(Box::new(l), LogicalOp::And, Box::new(r0)),
                    ts,
                    end,
                    j,
                    (d - 1) as nat,
                ),
            }
        }
    } else {
        Ok((l, i))
    }
}

/// Comparison level: at most one comparison operator; `a < b < c` does not
/// parse as a tree.
pub open spec fn spec_parse_cmp(ts: TokenSeq, end: usize, i: int, d: nat) -> SpecParsed
    decreases d, 5int,
{
    match spec_parse_unary(ts, end, i, d) {
        Err(e) => Err(e),
        Ok((l, j)) => {
            if 0 <= j < ts.len() && is_cmp_token(ts[j].0) {
                match spec_parse_unary(ts, end, j + 1, d) {
                    Err(e) => Err(e),
                    Ok((r0, k)) => Ok(
                        (
                            ExprModel::Comparison(Box::new(l), cmp_op_of(ts[j].0), Box::new(r0)),
                            k,
                        ),
                    ),
                }
            } else {
                Ok((l, j))
            }
        },
    }
}

/// Unary level: prefix `!` and `-`, right-associative, stacking permitted.
pub open spec fn spec_parse_unary(ts: TokenSeq, end: usize, i: int, d: nat) -> SpecParsed
    decreases d, 4int,
{
    if 0 <= i < ts.len() && (ts[i].0 == TokenModel::Not || ts[i].0 == TokenModel::Minus) {
        if d == 0 {
            Err(perr(ts, end, i, Expected::ShallowerNesting))
        } else {
            let op = if ts[i].0 == TokenModel::Not {
                UnaryOp::Not
            } else {
                UnaryOp::Negative
            };
            match spec_parse_unary(ts, end, i + 1, (d - 1) as nat) {
                Err(e) => Err(e),
                Ok((e0, j)) => Ok((ExprModel::Unary(op, Box::new(e0)), j)),
            }
        }
    } else {
        spec_parse_postfix(ts, end, i, d)
    }
}

/// Postfix level: a primary followed by a left-associative chain of field,
/// index, slice and function-call suffixes.
pub open spec fn spec_parse_postfix(ts: TokenSeq, end: usize, i: int, d: nat) -> SpecParsed
    decreases d, 3int,
{
    match spec_parse_primary(ts, end, i, d) {
        Err(e) => Err(e),
        Ok((e0, j)) => spec_postfix_rest(e0, ts, end, j, d),
    }
}

/// One `.name(...)` suffix: which function call it denotes, the expression
/// built, and the index just past it.
pub open spec fn spec_function_suffix(
    recv: ExprModel,
    name: Seq<char>,
    ts: TokenSeq,
    end: usize,
    i: int,
    d: nat,
) -> SpecParsed
    decreases d, 1int,
{
    // `i` is the index of the `(` that follows the function name
    if name == "count"@ {
        if 0 <= i + 1 < ts.len() && ts[i + 1].0 == TokenModel::RightParen {
            Ok((ExprModel::Function(FunctionOpModel::Count(Box::new(recv))), i + 2))
        } else {
            Err(perr(ts, end, i + 1, Expected::ClosingParen))
        }
    } else if name == "contains"@ {
        if 0 <= i + 1 < ts.len() && lit_of_token(ts[i + 1].0) is Some {
            if 0 <= i + 2 < ts.len() && ts[i + 2].0 == TokenModel::RightParen {
                Ok(
                    (
                        ExprModel::Function(
                            FunctionOpModel::Contains(
                                Box::new(recv),
                                lit_of_token(ts[i + 1].0)->Some_0,
                            ),
                        ),
                        i + 3,
                    ),
                )
            } else {
                Err(perr(ts, end, i + 2, Expected::ClosingParen))
            }
        } else {
            Err(perr(ts, end, i + 1, Expected::LiteralArgument))
        }
    } else {
        // all, any, filter: a bare variable binder, a comma, a predicate
        if 0 <= i + 1 < ts.len() && ts[i + 1].0 matches TokenModel::Ident(IdentModel::Variable(_)) {
            let binder = ts[i + 1].0->Ident_0;
            if 0 <= i + 2 < ts.len() && ts[i + 2].0 == TokenModel::Comma {
                if d == 0 {
                    Err(perr(ts, end, i + 3, Expected::ShallowerNesting))
                } else {
                    match spec_parse_or(ts, end, i + 3, (d - 1) as nat) {
                        Err(e) => Err(e),
                        Ok((p, j)) => {
                            if 0 <= j < ts.len() && ts[j].0 == TokenModel::RightParen {
                                let f = if name == "all"@ {
                                    FunctionOpModel::All(Box::new(recv), binder, Box::new(p))
                                } else if name == "any"@ {
                                    FunctionOpModel::Any(Box::new(recv), binder, Box::new(p))
                                } else {
                                    FunctionOpModel::Filter(Box::new(recv), binder, Box::new(p))
                                };
                                Ok((ExprModel::Function(f), j + 1))
                            } else {
                                Err(perr(ts, end, j, Expected::ClosingParen))
                            }
                        },
                    }
                }
            } else {
                Err(perr(ts, end, i + 2, Expected::Comma))
            }
        } else {
            Err(perr(ts, end, i + 1, Expected::VariableBinder))
        }
    }
}

/// The rest of a postfix chain after the expression built so far.
pub open spec fn spec_postfix_rest(e: ExprModel, ts: TokenSeq, end: usize, i: int, d: nat) -> SpecParsed
    decreases d, 2int,
{
    if 0 <= i < ts.len() && ts[i].0 == TokenModel::Dot {
        if 0 <= i + 1 < ts.len() && ts[i + 1].0 matches TokenModel::Ident(_) {
            let id = ts[i + 1].0->Ident_0;
            let has_paren = 0 <= i + 2 < ts.len() && ts[i + 2].0 == TokenModel::LeftParen;
            if id matches IdentModel::Keyword(name) && is_function_word(name) && has_paren {
                if d == 0 {
                    Err(perr(ts, end, i, Expected::ShallowerNesting))
                } else {
                    match spec_function_suffix(e, id->Keyword_0, ts, end, i + 2, (d - 1) as nat) {
                        Err(er) => Err(er),
                        Ok((e2, k)) => spec_postfix_rest(e2, ts, end, k, (d - 1) as nat),
                    }
                }
            } else if has_paren {
                Err(perr(ts, end, i + 1, Expected::KnownFunction))
            } else {
                if d == 0 {
                    Err(perr(ts, end, i, Expected::ShallowerNesting))
                } else {
                    spec_postfix_rest(
                        ExprModel::Access(Box::new(e), AccessOpModel::Field(id)),
                        ts,
                        end,
                        i + 2,
                        (d - 1) as nat,
                    )
                }
            }
        } else {
            Err(perr(ts, end, i + 1, Expected::FieldName))
        }
    } else if 0 <= i < ts.len() && ts[i].0 == TokenModel::LeftBracket {
        if 0 <= i + 1 < ts.len() && ts[i + 1].0 matches TokenModel::Int(v) {
            let v = ts[i + 1].0->Int_0;
            if v < 0 || v > u32::MAX as i128 {
                Err(perr(ts, end, i + 1, Expected::IndexLiteral))
            } else if 0 <= i + 2 < ts.len() && ts[i + 2].0 == TokenModel::RightBracket {
                if d == 0 {
                    Err(perr(ts, end, i, Expected::ShallowerNesting))
                } else {
                    spec_postfix_rest(
                        ExprModel::Access(Box::new(e), AccessOpModel::Index(v as u32)),
                        ts,
                        end,
                        i + 3,
                        (d - 1) as nat,
                    )
                }
            } else if 0 <= i + 2 < ts.len() && ts[i + 2].0 == TokenModel::Dot && 0 <= i + 3
                < ts.len() && ts[i + 3].0 == TokenModel::Dot {
                if 0 <= i + 4 < ts.len() && ts[i + 4].0 matches TokenModel::Int(w) {
                    let w = ts[i + 4].0->Int_0;
                    if w < 0 || w > u32::MAX as i128 {
                        Err(perr(ts, end, i + 4, Expected::IndexLiteral))
                    } else if v > w {
                        Err(perr(ts, end, i + 1, Expected::OrderedSliceBounds))
                    } else if 0 <= i + 5 < ts.len() && ts[i + 5].0 == TokenModel::RightBracket {
                        if d == 0 {
                            Err(perr(ts, end, i, Expected::ShallowerNesting))
                        } else {
                            spec_postfix_rest(
                                ExprModel::Access(
                                    Box::new(e),
                                    AccessOpModel::Slice(v as u32, w as u32),
                                ),
                                ts,
                                end,
                                i + 6,
                                (d - 1) as nat,
                            )
                        }
                    } else {
                        Err(perr(ts, end, i + 5, Expected::ClosingBracket))
                    }
                } else {
                    Err(perr(ts, end, i + 4, Expected::IndexLiteral))
                }
            } else {
                Err(perr(ts, end, i + 2, Expected::ClosingBracket))
            }
        } else {
            Err(perr(ts, end, i + 1, Expected::IndexLiteral))
        }
    } else {
        Ok((e, i))
    }
}

/// Primary level: a parenthesized expression, a list literal, a literal
/// token or an identifier.
pub open spec fn spec_parse_primary(ts: TokenSeq, end: usize, i: int, d: nat) -> SpecParsed
    decreases d, 2int,
{
    if !(0 <= i < ts.len()) {
        Err(perr(ts, end, i, Expected::Expression))
    } else {
        match ts[i].0 {
            TokenModel::LeftParen => {
                if d == 0 {
                    Err(perr(ts, end, i, Expected::ShallowerNesting))
                } else {
                    match spec_parse_or(ts, end, i + 1, (d - 1) as nat) {
                        Err(e) => Err(e),
                        Ok((e0, j)) => {
                            if 0 <= j < ts.len() && ts[j].0 == TokenModel::RightParen {
                                Ok((e0, j + 1))
                            } else {
                                Err(perr(ts, end, j, Expected::ClosingParen))
                            }
                        },
                    }
                }
            },
            TokenModel::LeftBracket => {
                if 0 <= i + 1 < ts.len() && ts[i + 1].0 == TokenModel::RightBracket {
                    Ok((ExprModel::List(Seq::empty()), i + 2))
                } else {
                    spec_parse_elems(Seq::empty(), ts, end, i + 1, d)
                }
            },
            TokenModel::Int(v) => Ok((ExprModel::Literal(LiteralModel::Int(v)), i + 1)),
            TokenModel::Bool(b) => Ok((ExprModel::Literal(LiteralModel::Bool(b)), i + 1)),
            TokenModel::Str(s) => Ok((ExprModel::Literal(LiteralModel::Str(s)), i + 1)),
            TokenModel::Ident(id) => Ok((ExprModel::Ident(id), i + 1)),
            _ => Err(perr(ts, end, i, Expected::Expression)),
        }
    }
}

/// The elements of a non-empty list literal, after those already parsed.
pub open spec fn spec_parse_elems(
    acc: Seq<ExprModel>,
    ts: TokenSeq,
    end: usize,
    i: int,
    d: nat,
) -> SpecParsed
    decreases d, 1int,
{
    if d == 0 {
        Err(perr(ts, end, i, Expected::ShallowerNesting))
    } else {
        match spec_parse_or(ts, end, i, (d - 1) as nat) {
            Err(e) => Err(e),
            Ok((e0, j)) => {
                if 0 <= j < ts.len() && ts[j].0 == TokenModel::Comma {
                    spec_parse_elems(acc.push(e0), ts, end, j + 1, (d - 1) as nat)
                } else if 0 <= j < ts.len() && ts[j].0 == TokenModel::RightBracket {
                    Ok((ExprModel::List(acc.push(e0)), j + 1))
                } else {
                    Err(perr(ts, end, j, Expected::CommaOrClosingBracket))
                }
            },
        }
    }
}

/// The whole token sequence parsed as one expression: trailing tokens are
/// an error.
pub open spec fn spec_parse_tokens(ts: TokenSeq, end: usize) -> Result<ExprModel, ParseErrorModel> {
    match spec_parse_or(ts, end, 0, PARSE_DEPTH as nat) {
        Err(e) => Err(e),
        Ok((e0, j)) => {
            if j == ts.len() {
                Ok(e0)
            } else {
                Err(perr(ts, end, j, Expected::EndOfInput))
            }
        },
    }
}

/// What `parse` returns on `s`: the tokens of `s` parsed as one expression,
/// or the first lexer or parser error.
pub open spec fn spec_parse(s: Seq<char>) -> Result<ExprModel, ErrorModel> {
    match spec_tokens(s) {
        Err(le) => Err(ErrorModel::Lex(le)),
        Ok(ts) => match spec_parse_tokens(ts, s.len() as usize) {
            Err(pe) => Err(ErrorModel::Parse(pe)),
            Ok(e) => Ok(e),
        },
    }
}

/// The model of one executable parsing outcome.
pub open spec fn parsed_model(r: Result<(Expr, usize), ParseError>) -> SpecParsed {
    match r {
        Ok(p) => Ok((p.0.model(), p.1 as int)),
        Err(e) => Err(e.model()),
    }
}

/// A copy of an identifier, equal to the one given.
fn clone_ident(id: &Ident) -> (r: Ident)
    ensures
        r == *id,
{
    match id {
        Ident::Variable(s) => Ident::Variable(s.clone()),
        Ident::Keyword(s) => Ident::Keyword(s.clone()),
    }
}

/// A copy of a token, equal to the one given.
fn clone_token(t: &Token) -> (r: Token)
    ensures
        r == *t,
{
    match t {
        Token::Ident(id) => Token::Ident(clone_ident(id)),
        Token::Int(v) => Token::Int(*v),
        Token::Bool(b) => Token::Bool(*b),
        Token::Str(s) => Token::Str(s.clone()),
        Token::And => Token::And,
        Token::Or => Token::Or,
        Token::LessThan => Token::LessThan,
        Token::LessThanOrEqual => Token::LessThanOrEqual,
        Token::GreaterThan => Token::GreaterThan,
        Token::GreaterThanOrEqual => Token::GreaterThanOrEqual,
        Token::Equals => Token::Equals,
        Token::NotEquals => Token::NotEquals,
        Token::In => Token::In,
        Token::Not => Token::Not,
        Token::Minus => Token::Minus,
        Token::Dot => Token::Dot,
        Token::Comma => Token::Comma,
        Token::LeftBracket => Token::LeftBracket,
        Token::RightBracket => Token::RightBracket,
        Token::LeftParen => Token::LeftParen,
        Token::RightParen => Token::RightParen,
    }
}

/// The parser error raised at token `i`; mirrors `perr`.
fn make_err(ts: &Vec<(Token, usize)>, end: usize, i: usize, exp: Expected) -> (r: ParseError)
    ensures
        r.model() == perr(tokens_model(ts@), end, i as int, exp),
{
    if i < ts.len() {
        ParseError { position: ts[i].1, expected: exp, found: Some(clone_token(&ts[i].0)) }
    } else {
        ParseError { position: end, expected: exp, found: None }
    }
}

/// Logical `||` level; mirrors `spec_parse_or`.
fn parse_or(ts: &Vec<(Token, usize)>, end: usize, i: usize, d: usize) -> (r: Result<
    (Expr, usize),
    ParseError,
>)
    ensures
        parsed_model(r) == spec_parse_or(tokens_model(ts@), end, i as int, d as nat),
    decreases d, 9int,
{
    match parse_and(ts, end, i, d) {
        Err(e) => Err(e),
        Ok((l, j)) => or_rest(l, ts, end, j, d),
    }
}

/// The rest of a `||`-chain; mirrors `spec_or_rest`.
fn or_rest(l: Expr, ts: &Vec<(Token, usize)>, end: usize, i: usize, d: usize) -> (r: Result<
    (Expr, usize),
    ParseError,
>)
    ensures
        parsed_model(r) == spec_or_rest(l.model(), tokens_model(ts@), end, i as int, d as nat),
    decreases d, 8int,
{
    if i < ts.len() && matches!(&ts[i].0, Token::Or) {
        if d == 0 {
            Err(make_err(ts, end, i, Expected::ShallowerNesting))
        } else {
            match parse_and(ts, end, i + 1, d - 1) {
                Err(e) => Err(e),
                Ok((r0, j)) => or_rest(
                    Expr::Logical(Box::new(l), LogicalOp::Or, Box::new(r0)),
                    ts,
                    end,
                    j,
                    d - 1,
                ),
            }
        }
    } else {
        Ok((l, i))
    }
}

/// Logical `&&` level; mirrors `spec_parse_and`.
fn parse_and(ts: &Vec<(Token, usize)>, end: usize, i: usize, d: usize) -> (r: Result<
    (Expr, usize),
    ParseError,
>)
    ensures
        parsed_model(r) == spec_parse_and(tokens_model(ts@), end, i as int, d as nat),
    decreases d, 7int,
{
    match parse_cmp(ts, end, i, d) {
        Err(e) => Err(e),
        Ok((l, j)) => and_rest(l, ts, end, j, d),
    }
}

/// The rest of a `&&`-chain; mirrors `spec_and_rest`.
fn and_rest(l: Expr, ts: &Vec<(Token, usize)>, end: usize, i: usize, d: usize) -> (r: Result<
    (Expr, usize),
    ParseError,
>)
    ensures
        parsed_model(r) == spec_and_rest(l.model(), tokens_model(ts@), end, i as int, d as nat),
    decreases d, 6int,
{
    if i < ts.len() && matches!(&ts[i].0, Token::And) {
        if d == 0 {
            Err(make_err(ts, end, i, Expected::ShallowerNesting))
        } else {
            match parse_cmp(ts, end, i + 1, d - 1) {
                Err(e) => Err(e),
                Ok((r0, j)) => and_rest(
                    Expr::Logical(Box::new(l), LogicalOp::And, Box::new(r0)),
                    ts,
                    end,
                    j,
                    d - 1,
                ),
            }
        }
    } else {
        Ok((l, i))
    }
}

/// The comparison operator a token stands for; mirrors `cmp_op_of` on
/// comparison tokens.
fn cmp_op_token(t: &Token) -> (r: Option<ComparisonOp>)
    ensures
        match r {
            Some(op) => is_cmp_token(t.model()) && op == cmp_op_of(t.model()),
            None => !is_cmp_token(t.model()),
        },
{
    match t {
        Token::LessThan => Some(ComparisonOp::LessThan),
        Token::LessThanOrEqual => Some(ComparisonOp::LessThanOrEqual),
        Token::GreaterThan => Some(ComparisonOp::GreaterThan),
        Token::GreaterThanOrEqual => Some(ComparisonOp::GreaterThanOrEqual),
        Token::Equals => Some(ComparisonOp::Equals),
        Token::NotEquals => Some(ComparisonOp::NotEquals),
        Token::In => Some(ComparisonOp::In),
        _ => None,
    }
}

/// Comparison level; mirrors `spec_parse_cmp`.
fn parse_cmp(ts: &Vec<(Token, usize)>, end: usize, i: usize, d: usize) -> (r: Result<
    (Expr, usize),
    ParseError,
>)
    ensures
        parsed_model(r) == spec_parse_cmp(tokens_model(ts@), end, i as int, d as nat),
    decreases d, 5int,
{
    match parse_unary(ts, end, i, d) {
        Err(e) => Err(e),
        Ok((l, j)) => {
            if j < ts.len() {
                match cmp_op_token(&ts[j].0) {
                    Some(op) => match parse_unary(ts, end, j + 1, d) {
                        Err(e) => Err(e),
                        Ok((r0, k)) => Ok(
                            (Expr::Comparison(Box::new(l), op, Box::new(r0)), k),
                        ),
                    },
                    None => Ok((l, j)),
                }
            } else {
                Ok((l, j))
            }
        },
    }
}

/// Unary level; mirrors `spec_parse_unary`.
fn parse_unary(ts: &Vec<(Token, usize)>, end: usize, i: usize, d: usize) -> (r: Result<
    (Expr, usize),
    ParseError,
>)
    ensures
        parsed_model(r) == spec_parse_unary(tokens_model(ts@), end, i as int, d as nat),
    decreases d, 4int,
{
    if i < ts.len() && (matches!(&ts[i].0, Token::Not) || matches!(&ts[i].0, Token::Minus)) {
        if d == 0 {
            Err(make_err(ts, end, i, Expected::ShallowerNesting))
        } else {
            let op = if matches!(&ts[i].0, Token::Not) {
                UnaryOp::Not
            } else {
                UnaryOp::Negative
            };
            match parse_unary(ts, end, i + 1, d - 1) {
                Err(e) => Err(e),
                Ok((e0, j)) => Ok((Expr::Unary(op, Box::new(e0)), j)),
            }
        }
    } else {
        parse_postfix(ts, end, i, d)
    }
}

/// Postfix level; mirrors `spec_parse_postfix`.
fn parse_postfix(ts: &Vec<(Token, usize)>, end: usize, i: usize, d: usize) -> (r: Result<
    (Expr, usize),
    ParseError,
>)
    ensures
        parsed_model(r) == spec_parse_postfix(tokens_model(ts@), end, i as int, d as nat),
    decreases d, 3int,
{
    match parse_primary(ts, end, i, d) {
        Err(e) => Err(e),
        Ok((e0, j)) => postfix_rest(e0, ts, end, j, d),
    }
}

/// One `.name(...)` suffix; mirrors `spec_function_suffix`. `i` is the
/// index of the `(` after the function name.
#[verifier::rlimit(100)]
#[verifier::spinoff_prover]
fn function_suffix(
    recv: Expr,
    name: &String,
    ts: &Vec<(Token, usize)>,
    end: usize,
    i: usize,
    d: usize,
) -> (r: Result<(Expr, usize), ParseError>)
    requires
        i < ts.len(),
    ensures
        parsed_model(r) == spec_function_suffix(
            recv.model(),
            name@,
            tokens_model(ts@),
            end,
            i as int,
            d as nat,
        ),
    decreases d, 1int,
{
    if *name == String::from_str("count") {
        if i + 1 < ts.len() && matches!(&ts[i + 1].0, Token::RightParen) {
            let ghost recvm = recv.model();
            let f = FunctionOp::Count(Box::new(recv));
            proof {
                assert(f.model() == FunctionOpModel::Count(Box::new(recvm)));
            }
            Ok((Expr::Function(f), i + 2))
        } else {
            Err(make_err(ts, end, i + 1, Expected::ClosingParen))
        }
    } else if *name == String::from_str("contains") {
        if i + 1 < ts.len() {
            let lit = match &ts[i + 1].0 {
                Token::Int(v) => Some(Literal::Int(*v)),
                Token::Bool(b) => Some(Literal::Bool(*b)),
                Token::Str(s) => Some(Literal::String(s.clone())),
                _ => None,
            };
            match lit {
                Some(lit) => {
                    if i + 2 < ts.len() && matches!(&ts[i + 2].0, Token::RightParen) {
                        let ghost recvm = recv.model();
                        let ghost litm = lit.model();
                        let f = FunctionOp::Contains(Box::new(recv), lit);
                        proof {
                            assert(f.model() == FunctionOpModel::Contains(Box::new(recvm), litm));
                        }
                        Ok((Expr::Function(f), i + 3))
                    } else {
                        Err(make_err(ts, end, i + 2, Expected::ClosingParen))
                    }
                },
                None => Err(make_err(ts, end, i + 1, Expected::LiteralArgument)),
            }
        } else {
            Err(make_err(ts, end, i + 1, Expected::LiteralArgument))
        }
    } else {
        if i + 1 < ts.len() && matches!(&ts[i + 1].0, Token::Ident(Ident::Variable(_))) {
            let binder = match &ts[i + 1].0 {
                Token::Ident(bid) => clone_ident(bid),
                _ => Ident::Variable(String::new()),
            };
            if i + 2 < ts.len() && matches!(&ts[i + 2].0, Token::Comma) {
                if d == 0 {
                    Err(make_err(ts, end, i + 3, Expected::ShallowerNesting))
                } else {
                    match parse_or(ts, end, i + 3, d - 1) {
                        Err(e) => Err(e),
                        Ok((p, j)) => {
                            if j < ts.len() && matches!(&ts[j].0, Token::RightParen) {
                                let ghost recvm = recv.model();
                                let ghost binderm = binder.model();
                                let ghost pm = p.model();
                                let f = if *name == String::from_str("all") {
                                    FunctionOp::All(Box::new(recv), binder, Box::new(p))
                                } else if *name == String::from_str("any") {
                                    FunctionOp::Any(Box::new(recv), binder, Box::new(p))
                                } else {
                                    FunctionOp::Filter(Box::new(recv), binder, Box::new(p))
                                };
                                proof {
                                    assert(f is All ==> f->All_0.model() == recvm);
                                    assert(f is All ==> f->All_1.model() == binderm);
                                    assert(f is All ==> f->All_2.model() == pm);
                                    assert(f is All ==> f.model() == FunctionOpModel::All(
                                        Box::new(recvm),
                                        binderm,
                                        Box::new(pm),
                                    ));
                                    assert(f is Any ==> f->Any_0.model() == recvm
                                        && f->Any_1.model() == binderm && f->Any_2.model() == pm);
                                    assert(f is Any ==> f.model() == FunctionOpModel::Any(
                                        Box::new(recvm),
                                        binderm,
                                        Box::new(pm),
                                    ));
                                    assert(f is Filter ==> f->Filter_0.model() == recvm
                                        && f->Filter_1.model() == binderm && f->Filter_2.model()
                                        == pm);
                                    assert(f is Filter ==> f.model() == FunctionOpModel::Filter(
                                        Box::new(recvm),
                                        binderm,
                                        Box::new(pm),
                                    ));
                                }
                                Ok((Expr::Function(f), j + 1))
                            } else {
                                Err(make_err(ts, end, j, Expected::ClosingParen))
                            }
                        },
                    }
                }
            } else {
                Err(make_err(ts, end, i + 2, Expected::Comma))
            }
        } else {
            Err(make_err(ts, end, i + 1, Expected::VariableBinder))
        }
    }
}

/// The rest of a postfix chain; mirrors `spec_postfix_rest`.
fn postfix_rest(e: Expr, ts: &Vec<(Token, usize)>, end: usize, i: usize, d: usize) -> (r: Result<
    (Expr, usize),
    ParseError,
>)
    ensures
        parsed_model(r) == spec_postfix_rest(e.model(), tokens_model(ts@), end, i as int, d as nat),
    decreases d, 2int,
{
    if i < ts.len() && matches!(&ts[i].0, Token::Dot) {
        if i + 1 < ts.len() && matches!(&ts[i + 1].0, Token::Ident(_)) {
            let has_paren = i + 2 < ts.len() && matches!(&ts[i + 2].0, Token::LeftParen);
            let is_function = match &ts[i + 1].0 {
                Token::Ident(Ident::Keyword(name)) => *name == String::from_str("all") || *name
                    == String::from_str("any") || *name == String::from_str("contains") || *name
                    == String::from_str("count") || *name == String::from_str("filter"),
                _ => false,
            };
            if is_function && has_paren {
                if d == 0 {
                    Err(make_err(ts, end, i, Expected::ShallowerNesting))
                } else {
                    let name = match &ts[i + 1].0 {
                        Token::Ident(Ident::Keyword(name)) => name,
                        _ => vstd::pervasive::unreached(),
                    };
                    match function_suffix(e, name, ts, end, i + 2, d - 1) {
                        Err(er) => Err(er),
                        Ok((e2, k)) => postfix_rest(e2, ts, end, k, d - 1),
                    }
                }
            } else if has_paren {
                Err(make_err(ts, end, i + 1, Expected::KnownFunction))
            } else {
                if d == 0 {
                    Err(make_err(ts, end, i, Expected::ShallowerNesting))
                } else {
                    let id = match &ts[i + 1].0 {
                        Token::Ident(id) => clone_ident(id),
                        _ => Ident::Variable(String::new()),
                    };
                    postfix_rest(Expr::Access(Box::new(e), AccessOp::Field(id)), ts, end, i + 2, d - 1)
                }
            }
        } else {
            Err(make_err(ts, end, i + 1, Expected::FieldName))
        }
    } else if i < ts.len() && matches!(&ts[i].0, Token::LeftBracket) {
        if i + 1 < ts.len() && matches!(&ts[i + 1].0, Token::Int(_)) {
            let v = match &ts[i + 1].0 {
                Token::Int(v) => *v,
                _ => 0,
            };
            if v < 0 || v > u32::MAX as i128 {
                Err(make_err(ts, end, i + 1, Expected::IndexLiteral))
            } else if i + 2 < ts.len() && matches!(&ts[i + 2].0, Token::RightBracket) {
                if d == 0 {
                    Err(make_err(ts, end, i, Expected::ShallowerNesting))
                } else {
                    postfix_rest(
                        Expr::Access(Box::new(e), AccessOp::Index(v as u32)),
                        ts,
                        end,
                        i + 3,
                        d - 1,
                    )
                }
            } else if i + 2 < ts.len() && matches!(&ts[i + 2].0, Token::Dot) && i + 3 < ts.len()
                && matches!(&ts[i + 3].0, Token::Dot) {
                if i + 4 < ts.len() && matches!(&ts[i + 4].0, Token::Int(_)) {
                    let w = match &ts[i + 4].0 {
                        Token::Int(w) => *w,
                        _ => 0,
                    };
                    if w < 0 || w > u32::MAX as i128 {
                        Err(make_err(ts, end, i + 4, Expected::IndexLiteral))
                    } else if v > w {
                        Err(make_err(ts, end, i + 1, Expected::OrderedSliceBounds))
                    } else if i + 5 < ts.len() && matches!(&ts[i + 5].0, Token::RightBracket) {
                        if d == 0 {
                            Err(make_err(ts, end, i, Expected::ShallowerNesting))
                        } else {
                            postfix_rest(
                                Expr::Access(Box::new(e), AccessOp::Slice(v as u32, w as u32)),
                                ts,
                                end,
                                i + 6,
                                d - 1,
                            )
                        }
                    } else {
                        Err(make_err(ts, end, i + 5, Expected::ClosingBracket))
                    }
                } else {
                    Err(make_err(ts, end, i + 4, Expected::IndexLiteral))
                }
            } else {
                Err(make_err(ts, end, i + 2, Expected::ClosingBracket))
            }
        } else {
            Err(make_err(ts, end, i + 1, Expected::IndexLiteral))
        }
    } else {
        Ok((e, i))
    }
}

/// Primary level; mirrors `spec_parse_primary`.
#[verifier::rlimit(50)]
fn parse_primary(ts: &Vec<(Token, usize)>, end: usize, i: usize, d: usize) -> (r: Result<
    (Expr, usize),
    ParseError,
>)
    ensures
        parsed_model(r) == spec_parse_primary(tokens_model(ts@), end, i as int, d as nat),
    decreases d, 2int,
{
    if i >= ts.len() {
        return Err(make_err(ts, end, i, Expected::Expression));
    }
    match &ts[i].0 {
        Token::LeftParen => {
            if d == 0 {
                Err(make_err(ts, end, i, Expected::ShallowerNesting))
            } else {
                match parse_or(ts, end, i + 1, d - 1) {
                    Err(e) => Err(e),
                    Ok((e0, j)) => {
                        if j < ts.len() && matches!(&ts[j].0, Token::RightParen) {
                            Ok((e0, j + 1))
                        } else {
                            Err(make_err(ts, end, j, Expected::ClosingParen))
                        }
                    },
                }
            }
        },
        Token::LeftBracket => {
            if i + 1 < ts.len() && matches!(&ts[i + 1].0, Token::RightBracket) {
                let empty_list: Vec<Box<Expr>> = Vec::new();
                proof {
                    assert(crate::ast::models_of(empty_list@) =~= Seq::<ExprModel>::empty());
                }
                Ok((Expr::List(empty_list), i + 2))
            } else {
                let acc0: Vec<Box<Expr>> = Vec::new();
                proof {
                    assert(crate::ast::models_of(acc0@) =~= Seq::<ExprModel>::empty());
                }
                parse_elems(acc0, ts, end, i + 1, d)
            }
        },
        Token::Int(v) => Ok((Expr::Literal(Literal::Int(*v)), i + 1)),
        Token::Bool(b) => Ok((Expr::Literal(Literal::Bool(*b)), i + 1)),
        Token::Str(s) => Ok((Expr::Literal(Literal::String(s.clone())), i + 1)),
        Token::Ident(id) => Ok((Expr::Ident(clone_ident(id)), i + 1)),
        _ => Err(make_err(ts, end, i, Expected::Expression)),
    }
}

/// The elements of a non-empty list literal; mirrors `spec_parse_elems`.
fn parse_elems(
    acc: Vec<Box<Expr>>,
    ts: &Vec<(Token, usize)>,
    end: usize,
    i: usize,
    d: usize,
) -> (r: Result<(Expr, usize), ParseError>)
    ensures
        parsed_model(r) == spec_parse_elems(
            crate::ast::models_of(acc@),
            tokens_model(ts@),
            end,
            i as int,
            d as nat,
        ),
    decreases d, 1int,
{
    if d == 0 {
        Err(make_err(ts, end, i, Expected::ShallowerNesting))
    } else {
        match parse_or(ts, end, i, d - 1) {
            Err(e) => Err(e),
            Ok((e0, j)) => {
                proof {
                    assert(crate::ast::models_of(acc@.push(Box::new(e0))) =~= crate::ast::models_of(
                        acc@,
                    ).push(e0.model()));
                }
                let mut acc2 = acc;
                acc2.push(Box::new(e0));
                if j < ts.len() && matches!(&ts[j].0, Token::Comma) {
                    parse_elems(acc2, ts, end, j + 1, d - 1)
                } else if j < ts.len() && matches!(&ts[j].0, Token::RightBracket) {
                    Ok((Expr::List(acc2), j + 1))
                } else {
                    Err(make_err(ts, end, j, Expected::CommaOrClosingBracket))
                }
            },
        }
    }
}

/// Parses one expression: the entry point. Consumes the full input; trailing
/// tokens are an error, as is every malformed input — never a panic.
pub fn parse(input: &str) -> (r: Result<Expr, Error>)
    ensures
        match r {
            Ok(e) => spec_parse(input@) == Ok::<_, ErrorModel>(e.model()),
            Err(err) => spec_parse(input@) == Err::<ExprModel, _>(err.model()),
        },
{
    let end = input.unicode_len();
    match tokenize(input) {
        Err(le) => Err(Error::Lex(le)),
        Ok(ts) => {
            match parse_or(&ts, end, 0, PARSE_DEPTH) {
                Err(pe) => Err(Error::Parse(pe)),
                Ok((e, j)) => {
                    if j == ts.len() {
                        Ok(e)
                    } else {
                        Err(Error::Parse(make_err(&ts, end, j, Expected::EndOfInput)))
                    }
                },
            }
        },
    }
}

} // verus!
