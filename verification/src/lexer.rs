//! The lexer: turns text into a finite token sequence, a pure function of
//! the input. Re-tokenizing the same text yields the same sequence.

use vstd::prelude::*;
use vstd::string::{StrSliceExecFns, StringExecFns};
use crate::ast::{Ident, IdentModel};
use crate::token::{Token, TokenModel, ends_operand, tokens_model};
use crate::errors::{LexError, LexReason};

verus! {

/// Whitespace between tokens.
pub open spec fn is_space(c: char) -> bool {
    c == ' ' || c == '\t' || c == '\n' || c == '\r'
}

/// A decimal digit.
pub open spec fn is_digit(c: char) -> bool {
    48 <= c as u32 <= 57
}

/// A character that can start an identifier: a letter or `_`.
pub open spec fn is_word_start(c: char) -> bool {
    (65 <= c as u32 <= 90) || (97 <= c as u32 <= 122) || c as u32 == 95
}

/// A character that can continue an identifier.
pub open spec fn is_word_char(c: char) -> bool {
    is_word_start(c) || is_digit(c)
}

/// The numeric value of a digit character.
pub open spec fn digit_val(c: char) -> int {
    c as u32 - 48
}

/// The first position at or after `i` that does not continue an identifier.
pub open spec fn word_end(s: Seq<char>, i: int) -> int
    decreases s.len() - i,
{
    if 0 <= i < s.len() && is_word_char(s[i]) {
        word_end(s, i + 1)
    } else {
        i
    }
}

/// The first position at or after `i` that does not hold a digit.
pub open spec fn digits_end(s: Seq<char>, i: int) -> int
    decreases s.len() - i,
{
    if 0 <= i < s.len() && is_digit(s[i]) {
        digits_end(s, i + 1)
    } else {
        i
    }
}

/// The position of the first quote `q` at or after `i`, or the input length
/// if there is none.
pub open spec fn quote_end(s: Seq<char>, i: int, q: char) -> int
    decreases s.len() - i,
{
    if 0 <= i < s.len() {
        if s[i] == q {
            i
        } else {
            quote_end(s, i + 1, q)
        }
    } else {
        s.len() as int
    }
}

/// The value of the digit run `s[i..j]`, read in decimal.
pub open spec fn dec_value(s: Seq<char>, i: int, j: int) -> int
    decreases j - i,
{
    if j <= i {
        0
    } else {
        dec_value(s, i, j - 1) * 10 + digit_val(s[j - 1])
    }
}

/// The largest magnitude an integer literal may have: one more for a
/// negative literal, since the signed 128-bit range is asymmetric.
pub open spec fn int_limit(neg: bool) -> int {
    if neg {
        170141183460469231731687303715884105728
    } else {
        170141183460469231731687303715884105727
    }
}

/// The reserved words that name collection functions.
pub open spec fn is_function_word(w: Seq<char>) -> bool {
    w == "all"@ || w == "any"@ || w == "contains"@ || w == "count"@ || w == "filter"@
}

/// The token an identifier-shaped word stands for. `true` and `false` are
/// boolean literals, and `in` is always the membership operator — a word
/// spelled `in` never becomes a keyword identifier, unlike the five
/// collection-function words. So `x.in` is a parse error while `x.all` is a
/// field access.
pub open spec fn word_token(w: Seq<char>) -> TokenModel {
    if w == "true"@ {
        TokenModel::Bool(true)
    } else if w == "false"@ {
        TokenModel::Bool(false)
    } else if w == "in"@ {
        TokenModel::In
    } else if is_function_word(w) {
        TokenModel::Ident(IdentModel::Keyword(w))
    } else {
        TokenModel::Ident(IdentModel::Variable(w))
    }
}

/// A lexer error at position `i`.
pub open spec fn lex_err(i: int, reason: LexReason) -> LexError {
    LexError { position: i as usize, reason }
}

/// The integer literal whose digits start at `d0`; `at` is where the token
/// itself starts (at the sign, if there is one).
pub open spec fn spec_number(s: Seq<char>, at: int, d0: int, neg: bool) -> Result<
    (TokenModel, int),
    LexError,
> {
    let e = digits_end(s, d0);
    let v = dec_value(s, d0, e);
    if v > int_limit(neg) {
        Err(lex_err(at, LexReason::IntegerOverflow))
    } else {
        Ok((TokenModel::Int((if neg { -v } else { v }) as i128), e))
    }
}

/// The token starting at position `i`, which holds no whitespace. `prev`
/// says whether the previous token ended an operand: only then is a `-`
/// never the sign of an integer literal.
pub open spec fn spec_token_at(s: Seq<char>, i: int, prev: bool) -> Result<
    (TokenModel, int),
    LexError,
>
    recommends
        0 <= i < s.len(),
{
    let c = s[i];
    if c == '&' {
        if i + 1 < s.len() && s[i + 1] == '&' {
            Ok((TokenModel::And, i + 2))
        } else {
            Err(lex_err(i, LexReason::InvalidCharacter))
        }
    } else if c == '|' {
        if i + 1 < s.len() && s[i + 1] == '|' {
            Ok((TokenModel::Or, i + 2))
        } else {
            Err(lex_err(i, LexReason::InvalidCharacter))
        }
    } else if c == '<' {
        if i + 1 < s.len() && s[i + 1] == '=' {
            Ok((TokenModel::LessThanOrEqual, i + 2))
        } else {
            Ok((TokenModel::LessThan, i + 1))
        }
    } else if c == '>' {
        if i + 1 < s.len() && s[i + 1] == '=' {
            Ok((TokenModel::GreaterThanOrEqual, i + 2))
        } else {
            Ok((TokenModel::GreaterThan, i + 1))
        }
    } else if c == '=' {
        if i + 1 < s.len() && s[i + 1] == '=' {
            Ok((TokenModel::Equals, i + 2))
        } else {
            Err(lex_err(i, LexReason::InvalidCharacter))
        }
    } else if c == '!' {
        if i + 1 < s.len() && s[i + 1] == '=' {
            Ok((TokenModel::NotEquals, i + 2))
        } else {
            Ok((TokenModel::Not, i + 1))
        }
    } else if c == '.' {
        Ok((TokenModel::Dot, i + 1))
    } else if c == ',' {
        Ok((TokenModel::Comma, i + 1))
    } else if c == '[' {
        Ok((TokenModel::LeftBracket, i + 1))
    } else if c == ']' {
        Ok((TokenModel::RightBracket, i + 1))
    } else if c == '(' {
        Ok((TokenModel::LeftParen, i + 1))
    } else if c == ')' {
        Ok((TokenModel::RightParen, i + 1))
    } else if c == '\'' || c == '"' {
        let e = quote_end(s, i + 1, c);
        if e >= s.len() {
            Err(lex_err(i, LexReason::UnterminatedString))
        } else {
            Ok((TokenModel::Str(s.subrange(i + 1, e)), e + 1))
        }
    } else if is_digit(c) {
        spec_number(s, i, i, false)
    } else if c == '-' {
        if i + 1 < s.len() && is_digit(s[i + 1]) && !prev {
            spec_number(s, i, i + 1, true)
        } else {
            Ok((TokenModel::Minus, i + 1))
        }
    } else if is_word_start(c) {
        let e = word_end(s, i);
        Ok((word_token(s.subrange(i, e)), e))
    } else {
        Err(lex_err(i, LexReason::InvalidCharacter))
    }
}

/// The tokens of `s` from position `i` on, each paired with its start.
pub open spec fn spec_lex_at(s: Seq<char>, i: int, prev: bool) -> Result<
    Seq<(TokenModel, usize)>,
    LexError,
>
    decreases s.len() - i,
{
    if !(0 <= i < s.len()) {
        Ok(Seq::empty())
    } else if is_space(s[i]) {
        spec_lex_at(s, i + 1, prev)
    } else {
        match spec_token_at(s, i, prev) {
            Err(e) => Err(e),
            Ok((t, k)) => {
                // a token always reaches past its start and never past the
                // end; the clamp only states that for the termination measure
                let k2 = if k < i + 1 {
                    i + 1
                } else if k > s.len() {
                    s.len() as int
                } else {
                    k
                };
                match spec_lex_at(s, k2, ends_operand(t)) {
                    Err(e) => Err(e),
                    Ok(rest) => Ok(seq![(t, i as usize)] + rest),
                }
            },
        }
    }
}

/// The whole token sequence of `s`, or the first lexer error.
pub open spec fn spec_tokens(s: Seq<char>) -> Result<Seq<(TokenModel, usize)>, LexError> {
    spec_lex_at(s, 0, false)
}

/// Every position in `[i, digits_end(s, i))` holds a digit, and the run
/// stays within the input.
proof fn lemma_digits_end(s: Seq<char>, i: int)
    requires
        0 <= i <= s.len(),
    ensures
        i <= digits_end(s, i) <= s.len(),
        forall|m: int| i <= m < digits_end(s, i) ==> is_digit(s[m]),
    decreases s.len() - i,
{
    if i < s.len() && is_digit(s[i]) {
        lemma_digits_end(s, i + 1);
    }
}

/// Over a digit run the decimal value only grows as the run extends.
proof fn lemma_dec_value_grows(s: Seq<char>, i: int, j: int, e: int)
    requires
        i <= j <= e,
        forall|m: int| i <= m < e ==> is_digit(s[m]),
    ensures
        0 <= dec_value(s, i, j) <= dec_value(s, i, e),
    decreases e - j,
{
    if j == e {
        lemma_dec_value_nonneg(s, i, j);
    } else {
        lemma_dec_value_grows(s, i, j, e - 1);
        lemma_dec_value_nonneg(s, i, e - 1);
    }
}

/// The decimal value of a digit run is never negative.
proof fn lemma_dec_value_nonneg(s: Seq<char>, i: int, j: int)
    requires
        forall|m: int| i <= m < j ==> is_digit(s[m]),
    ensures
        dec_value(s, i, j) >= 0,
    decreases j - i,
{
    if j > i {
        lemma_dec_value_nonneg(s, i, j - 1);
    }
}

fn ch_is_space(c: char) -> (r: bool)
    ensures
        r == is_space(c),
{
    c == ' ' || c == '\t' || c == '\n' || c == '\r'
}

fn ch_is_digit(c: char) -> (r: bool)
    ensures
        r == is_digit(c),
{
    let u = c as u32;
    48 <= u && u <= 57
}

fn ch_is_word_start(c: char) -> (r: bool)
    ensures
        r == is_word_start(c),
{
    let u = c as u32;
    (65 <= u && u <= 90) || (97 <= u && u <= 122) || u == 95
}

fn ch_is_word_char(c: char) -> (r: bool)
    ensures
        r == is_word_char(c),
{
    ch_is_word_start(c) || ch_is_digit(c)
}

/// Whether a token can end an operand; mirrors `ends_operand`.
fn token_ends_operand(t: &Token) -> (r: bool)
    ensures
        r == ends_operand(t.model()),
{
    match t {
        Token::Ident(_) => true,
        Token::Int(_) => true,
        Token::Bool(_) => true,
        Token::Str(_) => true,
        Token::RightBracket => true,
        Token::RightParen => true,
        _ => false,
    }
}

/// Scans a string literal whose opening quote stands at `i`.
fn lex_string(input: &str, i: usize, n: usize, q: char) -> (r: Result<(Token, usize), LexError>)
    requires
        n == input@.len(),
        i < n,
        input@[i as int] == q,
    ensures
        match r {
            Ok(p) => {
                let e = quote_end(input@, i + 1, q);
                &&& e < n
                &&& p.0.model() == TokenModel::Str(input@.subrange(i + 1, e))
                &&& p.1 == e + 1
                &&& i < p.1 <= n
            },
            Err(e) => {
                &&& quote_end(input@, i + 1, q) >= n
                &&& e == lex_err(i as int, LexReason::UnterminatedString)
            },
        },
{
    let ghost s = input@;
    let mut j = i + 1;
    while j < n
        invariant
            n == input@.len(),
            s == input@,
            i + 1 <= j <= n,
            quote_end(s, i + 1, q) == quote_end(s, j as int, q),
        decreases n - j,
    {
        let c = input.get_char(j);
        if c == q {
            let text = input.substring_char(i + 1, j).to_owned();
            return Ok((Token::Str(text), j + 1));
        }
        j = j + 1;
    }
    Err(LexError { position: i, reason: LexReason::UnterminatedString })
}

/// Scans an identifier-shaped word starting at `i` and classifies it.
fn lex_word(input: &str, i: usize, n: usize) -> (r: (Token, usize))
    requires
        n == input@.len(),
        i < n,
        is_word_start(input@[i as int]),
    ensures
        r.0.model() == word_token(input@.subrange(i as int, word_end(input@, i as int))),
        r.1 == word_end(input@, i as int),
        i < r.1 <= n,
{
    let ghost s = input@;
    let mut j = i + 1;
    while j < n && ch_is_word_char(input.get_char(j))
        invariant
            n == input@.len(),
            s == input@,
            i + 1 <= j <= n,
            word_end(s, i as int) == word_end(s, j as int),
        decreases n - j,
    {
        j = j + 1;
    }
    let w = input.substring_char(i, j).to_owned();
    let tok = if w == String::from_str("true") {
        Token::Bool(true)
    } else if w == String::from_str("false") {
        Token::Bool(false)
    } else if w == String::from_str("in") {
        Token::In
    } else if w == String::from_str("all") || w == String::from_str("any") || w
        == String::from_str("contains") || w == String::from_str("count") || w == String::from_str(
        "filter",
    ) {
        Token::Ident(Ident::Keyword(w))
    } else {
        Token::Ident(Ident::Variable(w))
    };
    (tok, j)
}

/// Scans an integer literal: `at` is where the token starts, `d0` where its
/// digits start (one past a leading sign).
fn lex_number(input: &str, at: usize, d0: usize, neg: bool, n: usize) -> (r: Result<
    (Token, usize),
    LexError,
>)
    requires
        n == input@.len(),
        at < n,
        d0 == at + (if neg {
            1int
        } else {
            0int
        }),
        d0 < n,
        is_digit(input@[d0 as int]),
    ensures
        match r {
            Ok(p) => spec_number(input@, at as int, d0 as int, neg) == Ok::<_, LexError>(
                (p.0.model(), p.1 as int),
            ) && at < p.1 <= n,
            Err(e) => spec_number(input@, at as int, d0 as int, neg) == Err::<(TokenModel, int), _>(
                e,
            ),
        },
{
    let ghost s = input@;
    let limit: u128 = if neg {
        170141183460469231731687303715884105728u128
    } else {
        170141183460469231731687303715884105727u128
    };
    let mut j = d0;
    let mut acc: u128 = 0;
    while j < n && ch_is_digit(input.get_char(j))
        invariant
            n == input@.len(),
            s == input@,
            d0 <= j <= n,
            limit as int == int_limit(neg),
            at < d0 <= n || (at == d0 && !neg),
            digits_end(s, d0 as int) == digits_end(s, j as int),
            forall|m: int| d0 <= m < j ==> is_digit(s[m]),
            acc == dec_value(s, d0 as int, j as int),
            acc <= limit,
        decreases n - j,
    {
        let c = input.get_char(j);
        let d: u128 = (c as u32 - 48) as u128;
        proof {
            assert(dec_value(s, d0 as int, j + 1) == dec_value(s, d0 as int, j as int) * 10
                + digit_val(s[j as int]));
        }
        if acc > (limit - d) / 10 {
            proof {
                let li = limit as int;
                let di = d as int;
                assert(((limit - d) / 10) as int == (li - di) / 10);
                assert((li - di) == 10 * ((li - di) / 10) + ((li - di) % 10) && 0 <= (li - di) % 10
                    < 10) by {
                    vstd::arithmetic::div_mod::lemma_fundamental_div_mod(li - di, 10);
                    vstd::arithmetic::div_mod::lemma_mod_bound(li - di, 10);
                }
                assert(acc as int * 10 + di > li);
                lemma_digits_end(s, d0 as int);
                lemma_digits_end(s, j + 1);
                assert(digits_end(s, j as int) == digits_end(s, j + 1));
                lemma_dec_value_grows(s, d0 as int, j + 1, digits_end(s, d0 as int));
            }
            return Err(LexError { position: at, reason: LexReason::IntegerOverflow });
        }
        proof {
            let li = limit as int;
            let di = d as int;
            assert((li - di) == 10 * ((li - di) / 10) + ((li - di) % 10) && 0 <= (li - di) % 10
                < 10) by {
                vstd::arithmetic::div_mod::lemma_fundamental_div_mod(li - di, 10);
                vstd::arithmetic::div_mod::lemma_mod_bound(li - di, 10);
            }
            assert(acc as int * 10 + di <= li);
        }
        acc = acc * 10 + d;
        j = j + 1;
    }
    proof {
        lemma_dec_value_nonneg(s, d0 as int, j as int);
    }
    let value: i128 = if neg {
        if acc == 170141183460469231731687303715884105728u128 {
            i128::MIN
        } else {
            -(acc as i128)
        }
    } else {
        acc as i128
    };
    Ok((Token::Int(value), j))
}

/// Scans the token starting at `i`, which holds no whitespace.
fn next_token(input: &str, i: usize, n: usize, prev: bool) -> (r: Result<
    (Token, usize),
    LexError,
>)
    requires
        n == input@.len(),
        i < n,
        !is_space(input@[i as int]),
    ensures
        match r {
            Ok(p) => spec_token_at(input@, i as int, prev) == Ok::<_, LexError>(
                (p.0.model(), p.1 as int),
            ) && i < p.1 <= n,
            Err(e) => spec_token_at(input@, i as int, prev) == Err::<(TokenModel, int), _>(e),
        },
{
    let c = input.get_char(i);
    if c == '&' {
        if i + 1 < n && input.get_char(i + 1) == '&' {
            Ok((Token::And, i + 2))
        } else {
            Err(LexError { position: i, reason: LexReason::InvalidCharacter })
        }
    } else if c == '|' {
        if i + 1 < n && input.get_char(i + 1) == '|' {
            Ok((Token::Or, i + 2))
        } else {
            Err(LexError { position: i, reason: LexReason::InvalidCharacter })
        }
    } else if c == '<' {
        if i + 1 < n && input.get_char(i + 1) == '=' {
            Ok((Token::LessThanOrEqual, i + 2))
        } else {
            Ok((Token::LessThan, i + 1))
        }
    } else if c == '>' {
        if i + 1 < n && input.get_char(i + 1) == '=' {
            Ok((Token::GreaterThanOrEqual, i + 2))
        } else {
            Ok((Token::GreaterThan, i + 1))
        }
    } else if c == '=' {
        if i + 1 < n && input.get_char(i + 1) == '=' {
            Ok((Token::Equals, i + 2))
        } else {
            Err(LexError { position: i, reason: LexReason::InvalidCharacter })
        }
    } else if c == '!' {
        if i + 1 < n && input.get_char(i + 1) == '=' {
            Ok((Token::NotEquals, i + 2))
        } else {
            Ok((Token::Not, i + 1))
        }
    } else if c == '.' {
        Ok((Token::Dot, i + 1))
    } else if c == ',' {
        Ok((Token::Comma, i + 1))
    } else if c == '[' {
        Ok((Token::LeftBracket, i + 1))
    } else if c == ']' {
        Ok((Token::RightBracket, i + 1))
    } else if c == '(' {
        Ok((Token::LeftParen, i + 1))
    } else if c == ')' {
        Ok((Token::RightParen, i + 1))
    } else if c == '\'' || c == '"' {
        lex_string(input, i, n, c)
    } else if ch_is_digit(c) {
        lex_number(input, i, i, false, n)
    } else if c == '-' {
        if i + 1 < n && ch_is_digit(input.get_char(i + 1)) && !prev {
            lex_number(input, i, i + 1, true, n)
        } else {
            Ok((Token::Minus, i + 1))
        }
    } else if ch_is_word_start(c) {
        let p = lex_word(input, i, n);
        Ok(p)
    } else {
        Err(LexError { position: i, reason: LexReason::InvalidCharacter })
    }
}

/// Joins the tokens already scanned with what scanning the rest yields.
pub open spec fn lex_join(
    done: Seq<(TokenModel, usize)>,
    rest: Result<Seq<(TokenModel, usize)>, LexError>,
) -> Result<Seq<(TokenModel, usize)>, LexError> {
    match rest {
        Ok(ts) => Ok(done + ts),
        Err(e) => Err(e),
    }
}

/// Turns the whole input into tokens, each paired with its start position,
/// or reports the first lexer error.
pub fn tokenize(input: &str) -> (r: Result<Vec<(Token, usize)>, LexError>)
    ensures
        match r {
            Ok(ts) => spec_tokens(input@) == Ok::<_, LexError>(tokens_model(ts@)),
            Err(e) => spec_tokens(input@) == Err::<Seq<(TokenModel, usize)>, _>(e),
        },
{
    let ghost s = input@;
    let n = input.unicode_len();
    let mut out: Vec<(Token, usize)> = Vec::new();
    let mut i: usize = 0;
    let mut prev = false;
    while i < n
        invariant
            n == input@.len(),
            s == input@,
            i <= n,
            spec_tokens(s) == lex_join(tokens_model(out@), spec_lex_at(s, i as int, prev)),
        decreases n - i,
    {
        let c = input.get_char(i);
        if ch_is_space(c) {
            i = i + 1;
        } else {
            match next_token(input, i, n, prev) {
                Err(e) => {
                    return Err(e);
                },
                Ok((t, k)) => {
                    proof {
                        let done = tokens_model(out@);
                        let tm = t.model();
                        let rest = spec_lex_at(s, k as int, ends_operand(tm));
                        assert(spec_lex_at(s, i as int, prev) == match rest {
                            Err(e) => Err(e),
                            Ok(ts) => Ok(seq![(tm, i)] + ts),
                        });
                        assert(tokens_model(out@.push((t, i))) =~= done + seq![(tm, i)]);
                        if rest is Ok {
                            assert(done + (seq![(tm, i)] + rest->Ok_0) =~= (done + seq![(tm, i)])
                                + rest->Ok_0);
                        }
                    }
                    prev = token_ends_operand(&t);
                    out.push((t, i));
                    i = k;
                },
            }
        }
    }
    proof {
        assert(spec_lex_at(s, i as int, prev) == Ok::<_, LexError>(Seq::<(TokenModel, usize)>::empty()));
        assert(tokens_model(out@) + Seq::<(TokenModel, usize)>::empty() =~= tokens_model(out@));
    }
    Ok(out)
}

} // verus!
