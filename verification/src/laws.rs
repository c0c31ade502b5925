//! Laws that hold of every parse: round-trip facts for whole families of
//! trees, and the binder invariant of the trees the parser returns.

use vstd::prelude::*;
use crate::ast::{
    ExprModel, FunctionOpModel, AccessOpModel, IdentModel, LiteralModel, LogicalOp, UnaryOp,
    print_expr, print_operand, print_access_op, print_ident, print_int, print_nat, digit_seq,
    level_of, binders_are_variables, function_binders_are_variables,
};
use crate::errors::{ErrorModel, ParseErrorModel, LexError};
use crate::token::{TokenModel, ends_operand};
use crate::lexer::{
    is_word_start, is_word_char, is_function_word, word_end, word_token, spec_tokens, spec_lex_at,
    spec_token_at, is_space, is_digit, quote_end, digits_end, dec_value, digit_val, int_limit,
    spec_number,
};
use crate::parser::{
    spec_parse, spec_parse_tokens, spec_parse_or, spec_parse_and, spec_parse_cmp, spec_parse_unary,
    spec_parse_postfix, spec_parse_primary, spec_or_rest, spec_and_rest, spec_postfix_rest,
    spec_function_suffix, spec_parse_elems, lit_of_token, TokenSeq, PARSE_DEPTH,
};

verus! {

/// A word whose characters all continue an identifier ends only at the end
/// of the input.
proof fn lemma_word_end_full(s: Seq<char>, i: int)
    requires
        0 <= i <= s.len(),
        forall|k: int| i <= k < s.len() ==> is_word_char(s[k]),
    ensures
        word_end(s, i) == s.len(),
    decreases s.len() - i,
{
    if i < s.len() {
        lemma_word_end_full(s, i + 1);
    }
}

/// A token sequence holding one literal or identifier token parses to the
/// leaf expression that token stands for.
proof fn lemma_parse_single_token(tok: TokenModel, e: ExprModel, end: usize)
    requires
        match tok {
            TokenModel::Ident(id) => e == ExprModel::Ident(id),
            TokenModel::Int(v) => e == ExprModel::Literal(LiteralModel::Int(v)),
            TokenModel::Bool(b) => e == ExprModel::Literal(LiteralModel::Bool(b)),
            TokenModel::Str(t) => e == ExprModel::Literal(LiteralModel::Str(t)),
            _ => false,
        },
    ensures
        spec_parse_tokens(seq![(tok, 0usize)], end) == Ok::<ExprModel, ParseErrorModel>(e),
{
    let ts: TokenSeq = seq![(tok, 0usize)];
    let d = PARSE_DEPTH as nat;
    assert(spec_parse_primary(ts, end, 0, d) == Ok::<(ExprModel, int), ParseErrorModel>((e, 1)));
    assert(spec_postfix_rest(e, ts, end, 1, d) == Ok::<(ExprModel, int), ParseErrorModel>((e, 1)));
    assert(spec_parse_postfix(ts, end, 0, d) == Ok::<(ExprModel, int), ParseErrorModel>((e, 1)));
    assert(spec_parse_unary(ts, end, 0, d) == Ok::<(ExprModel, int), ParseErrorModel>((e, 1)));
    assert(spec_parse_cmp(ts, end, 0, d) == Ok::<(ExprModel, int), ParseErrorModel>((e, 1)));
    assert(spec_and_rest(e, ts, end, 1, d) == Ok::<(ExprModel, int), ParseErrorModel>((e, 1)));
    assert(spec_parse_and(ts, end, 0, d) == Ok::<(ExprModel, int), ParseErrorModel>((e, 1)));
    assert(spec_or_rest(e, ts, end, 1, d) == Ok::<(ExprModel, int), ParseErrorModel>((e, 1)));
    assert(spec_parse_or(ts, end, 0, d) == Ok::<(ExprModel, int), ParseErrorModel>((e, 1)));
}

/// A well-formed word lexes to the one token it stands for.
proof fn lemma_word_lexes(name: Seq<char>)
    requires
        name.len() > 0,
        is_word_start(name[0]),
        forall|k: int| 0 <= k < name.len() ==> is_word_char(name[k]),
    ensures
        spec_tokens(name) == Ok::<Seq<(TokenModel, usize)>, LexError>(
            seq![(word_token(name), 0usize)],
        ),
{
    let n = name.len() as int;
    let c = name[0];
    assert(is_word_char(c));
    assert(!is_space(c) && !is_digit(c));
    lemma_word_end_full(name, 0);
    assert(name.subrange(0, n) =~= name);
    let tok = word_token(name);
    assert(spec_token_at(name, 0, false) == Ok::<(TokenModel, int), LexError>((tok, n)));
    assert(spec_lex_at(name, n, ends_operand(tok)) == Ok::<Seq<(TokenModel, usize)>, LexError>(
        Seq::empty(),
    ));
    let ts: Seq<(TokenModel, usize)> = seq![(tok, 0usize)];
    assert(seq![(tok, 0usize)] + Seq::<(TokenModel, usize)>::empty() =~= ts);
    assert(spec_lex_at(name, 0, false) == Ok::<Seq<(TokenModel, usize)>, LexError>(ts));
}

/// Round-trip on identifier expressions: rendering a variable whose name is
/// a well-formed, unreserved word and parsing the result rebuilds the tree.
pub proof fn lemma_round_trip_variable(name: Seq<char>)
    requires
        name.len() > 0,
        is_word_start(name[0]),
        forall|k: int| 0 <= k < name.len() ==> is_word_char(name[k]),
        name != "true"@,
        name != "false"@,
        name != "in"@,
        !is_function_word(name),
    ensures
        spec_parse(print_expr(ExprModel::Ident(IdentModel::Variable(name)))) == Ok::<
            ExprModel,
            ErrorModel,
        >(ExprModel::Ident(IdentModel::Variable(name))),
{
    let e = ExprModel::Ident(IdentModel::Variable(name));
    assert(print_expr(e) == name);
    lemma_word_lexes(name);
    let tok = TokenModel::Ident(IdentModel::Variable(name));
    assert(word_token(name) == tok);
    lemma_parse_single_token(tok, e, name.len() as usize);
}

/// Round-trip on keyword identifiers: rendering an identifier named by one
/// of the five collection-function words and parsing the result rebuilds it.
pub proof fn lemma_round_trip_keyword(name: Seq<char>)
    requires
        is_function_word(name),
    ensures
        spec_parse(print_expr(ExprModel::Ident(IdentModel::Keyword(name)))) == Ok::<
            ExprModel,
            ErrorModel,
        >(ExprModel::Ident(IdentModel::Keyword(name))),
{
    reveal_strlit("all");
    reveal_strlit("any");
    reveal_strlit("contains");
    reveal_strlit("count");
    reveal_strlit("filter");
    reveal_strlit("true");
    reveal_strlit("false");
    reveal_strlit("in");
    let e = ExprModel::Ident(IdentModel::Keyword(name));
    assert(print_expr(e) == name);
    assert(name.len() > 0 && is_word_start(name[0]) && forall|k: int|
        0 <= k < name.len() ==> is_word_char(#[trigger] name[k])) by {
        if name == "all"@ {
            assert(is_word_char(name[0]) && is_word_char(name[1]) && is_word_char(name[2]));
        } else if name == "any"@ {
            assert(is_word_char(name[0]) && is_word_char(name[1]) && is_word_char(name[2]));
        } else if name == "contains"@ {
            assert(is_word_char(name[0]) && is_word_char(name[1]) && is_word_char(name[2])
                && is_word_char(name[3]) && is_word_char(name[4]) && is_word_char(name[5])
                && is_word_char(name[6]) && is_word_char(name[7]));
        } else if name == "count"@ {
            assert(is_word_char(name[0]) && is_word_char(name[1]) && is_word_char(name[2])
                && is_word_char(name[3]) && is_word_char(name[4]));
        } else {
            assert(is_word_char(name[0]) && is_word_char(name[1]) && is_word_char(name[2])
                && is_word_char(name[3]) && is_word_char(name[4]) && is_word_char(name[5]));
        }
    }
    lemma_word_lexes(name);
    let tok = TokenModel::Ident(IdentModel::Keyword(name));
    assert(name != "true"@ && name != "false"@ && name != "in"@);
    assert(word_token(name) == tok);
    lemma_parse_single_token(tok, e, name.len() as usize);
}

/// Round-trip on boolean literals: rendering one and parsing the result
/// rebuilds it.
pub proof fn lemma_round_trip_bool(b: bool)
    ensures
        spec_parse(print_expr(ExprModel::Literal(LiteralModel::Bool(b)))) == Ok::<
            ExprModel,
            ErrorModel,
        >(ExprModel::Literal(LiteralModel::Bool(b))),
{
    reveal_strlit("true");
    reveal_strlit("false");
    let e = ExprModel::Literal(LiteralModel::Bool(b));
    let s = if b { "true"@ } else { "false"@ };
    assert(print_expr(e) == s);
    assert(forall|k: int| 0 <= k < s.len() ==> is_word_char(s[k])) by {
        assert(is_word_char(s[0]));
        assert(is_word_char(s[1]));
        assert(is_word_char(s[2]));
        assert(is_word_char(s[3]));
        if !b {
            assert(is_word_char(s[4]));
        }
    }
    lemma_word_lexes(s);
    let tok = TokenModel::Bool(b);
    assert(word_token(s) == tok);
    lemma_parse_single_token(tok, e, s.len() as usize);
}

/// Scanning for a quote finds the first one.
proof fn lemma_quote_scan(t: Seq<char>, q: char, i: int, e: int)
    requires
        0 <= i <= e < t.len(),
        t[e] == q,
        forall|k: int| i <= k < e ==> t[k] != q,
    ensures
        quote_end(t, i, q) == e,
    decreases e - i,
{
    if i < e {
        lemma_quote_scan(t, q, i + 1, e);
    }
}

/// Round-trip on string literals: rendering one that does not hold both
/// kinds of quote — no lexed string ever does — and parsing the result
/// rebuilds it.
pub proof fn lemma_round_trip_string(text: Seq<char>)
    requires
        !(text.contains('\'') && text.contains('"')),
    ensures
        spec_parse(print_expr(ExprModel::Literal(LiteralModel::Str(text)))) == Ok::<
            ExprModel,
            ErrorModel,
        >(ExprModel::Literal(LiteralModel::Str(text))),
{
    reveal_strlit("'");
    reveal_strlit("\"");
    let e = ExprModel::Literal(LiteralModel::Str(text));
    let q = if text.contains('\'') {
        '"'
    } else {
        '\''
    };
    let qs = if text.contains('\'') {
        "\""@
    } else {
        "'"@
    };
    assert(qs.len() == 1 && qs[0] == q);
    assert(!text.contains(q));
    let s = qs + text + qs;
    assert(print_expr(e) == s);
    let n = text.len() as int;
    assert(s.len() == n + 2);
    assert(s[0] == q);
    assert(s[n + 1] == q);
    assert(forall|k: int| 0 <= k < text.len() ==> text[k] != q) by {
        if exists|k: int| 0 <= k < text.len() && text[k] == q {
            assert(text.contains(q));
        }
    }
    assert(forall|k: int| 1 <= k < n + 1 ==> s[k] == text[k - 1]);
    lemma_quote_scan(s, q, 1, n + 1);
    assert(s.subrange(1, n + 1) =~= text);
    let tok = TokenModel::Str(text);
    assert(spec_token_at(s, 0, false) == Ok::<(TokenModel, int), LexError>((tok, n + 2)));
    assert(spec_lex_at(s, n + 2, ends_operand(tok)) == Ok::<Seq<(TokenModel, usize)>, LexError>(
        Seq::empty(),
    ));
    let ts: TokenSeq = seq![(tok, 0usize)];
    assert(seq![(tok, 0usize)] + Seq::<(TokenModel, usize)>::empty() =~= ts);
    assert(spec_tokens(s) == Ok::<Seq<(TokenModel, usize)>, LexError>(ts));
    lemma_parse_single_token(tok, e, s.len() as usize);
}

/// An identifier that lexes back to itself: its name is a well-formed word
/// which the lexer classifies as this very identifier.
pub open spec fn ident_lexes_back(id: IdentModel) -> bool {
    let w = print_ident(id);
    &&& w.len() > 0
    &&& is_word_start(w[0])
    &&& (forall|k: int| 0 <= k < w.len() ==> is_word_char(w[k]))
    &&& word_token(w) == TokenModel::Ident(id)
}

/// A word followed by something that does not continue it ends there.
proof fn lemma_word_end_until(s: Seq<char>, i: int, e: int)
    requires
        0 <= i <= e <= s.len(),
        forall|k: int| i <= k < e ==> is_word_char(s[k]),
        e == s.len() || !is_word_char(s[e]),
    ensures
        word_end(s, i) == e,
    decreases e - i,
{
    if i < e {
        lemma_word_end_until(s, i + 1, e);
    }
}

/// The text `w1.w2` lexes to exactly three tokens: the two words around a
/// dot.
#[verifier::rlimit(100)]
#[verifier::spinoff_prover]
proof fn lemma_lex_field_access(w1: Seq<char>, w2: Seq<char>)
    requires
        w1.len() > 0,
        is_word_start(w1[0]),
        forall|k: int| 0 <= k < w1.len() ==> is_word_char(w1[k]),
        word_token(w1) matches TokenModel::Ident(_),
        w2.len() > 0,
        is_word_start(w2[0]),
        forall|k: int| 0 <= k < w2.len() ==> is_word_char(w2[k]),
    ensures
        spec_tokens(w1 + "."@ + w2) == Ok::<Seq<(TokenModel, usize)>, LexError>(
            seq![
                (word_token(w1), 0usize),
                (TokenModel::Dot, w1.len() as usize),
                (word_token(w2), (w1.len() + 1) as usize),
            ],
        ),
{
    reveal_strlit(".");
    let s = w1 + "."@ + w2;
    let m = w1.len() as int;
    let n = s.len() as int;
    assert(n == m + 1 + w2.len());
    assert(forall|k: int| 0 <= k < m ==> s[k] == w1[k]);
    assert(s[m] == '.');
    assert(forall|k: int| 0 <= k < w2.len() ==> s[m + 1 + k] == w2[k]);
    assert(!is_word_char('.'));

    let c0 = s[0];
    assert(is_word_char(c0) && !is_space(c0) && !is_digit(c0));
    lemma_word_end_until(s, 0, m);
    assert(s.subrange(0, m) =~= w1);
    let t1 = word_token(w1);
    assert(spec_token_at(s, 0, false) == Ok::<(TokenModel, int), LexError>((t1, m)));
    assert(ends_operand(t1));

    assert(!is_space(s[m]));
    assert(spec_token_at(s, m, true) == Ok::<(TokenModel, int), LexError>((TokenModel::Dot, m + 1)));

    let c2 = s[m + 1];
    assert(c2 == w2[0]);
    assert(is_word_char(c2) && !is_space(c2) && !is_digit(c2));
    lemma_word_end_until(s, m + 1, n);
    assert(s.subrange(m + 1, n) =~= w2);
    let t2 = word_token(w2);
    assert(spec_token_at(s, m + 1, false) == Ok::<(TokenModel, int), LexError>((t2, n)));

    assert(spec_lex_at(s, n, ends_operand(t2)) == Ok::<Seq<(TokenModel, usize)>, LexError>(
        Seq::empty(),
    ));
    assert(spec_lex_at(s, m + 1, false) == Ok::<Seq<(TokenModel, usize)>, LexError>(
        seq![(t2, (m + 1) as usize)] + Seq::empty(),
    ));
    assert(seq![(t2, (m + 1) as usize)] + Seq::<(TokenModel, usize)>::empty() =~= seq![
        (t2, (m + 1) as usize),
    ]);
    assert(spec_lex_at(s, m, true) == Ok::<Seq<(TokenModel, usize)>, LexError>(
        seq![(TokenModel::Dot, m as usize)] + seq![(t2, (m + 1) as usize)],
    ));
    assert(seq![(TokenModel::Dot, m as usize)] + seq![(t2, (m + 1) as usize)] =~= seq![
        (TokenModel::Dot, m as usize),
        (t2, (m + 1) as usize),
    ]);
    assert(spec_lex_at(s, 0, false) == Ok::<Seq<(TokenModel, usize)>, LexError>(
        seq![(t1, 0usize)] + seq![(TokenModel::Dot, m as usize), (t2, (m + 1) as usize)],
    ));
    assert(seq![(t1, 0usize)] + seq![(TokenModel::Dot, m as usize), (t2, (m + 1) as usize)] =~= seq![
        (t1, 0usize),
        (TokenModel::Dot, m as usize),
        (t2, (m + 1) as usize),
    ]);
}

/// Three tokens `ident`, `.`, `ident` parse to one field access.
proof fn lemma_parse_field_access(
    id1: IdentModel,
    id2: IdentModel,
    p0: usize,
    p1: usize,
    p2: usize,
    end: usize,
)
    ensures
        spec_parse_tokens(
            seq![
                (TokenModel::Ident(id1), p0),
                (TokenModel::Dot, p1),
                (TokenModel::Ident(id2), p2),
            ],
            end,
        ) == Ok::<ExprModel, ParseErrorModel>(
            ExprModel::Access(Box::new(ExprModel::Ident(id1)), AccessOpModel::Field(id2)),
        ),
{
    let ts: TokenSeq = seq![
        (TokenModel::Ident(id1), p0),
        (TokenModel::Dot, p1),
        (TokenModel::Ident(id2), p2),
    ];
    let d = PARSE_DEPTH as nat;
    let e0 = ExprModel::Ident(id1);
    let e = ExprModel::Access(Box::new(e0), AccessOpModel::Field(id2));
    assert(spec_parse_primary(ts, end, 0, d) == Ok::<(ExprModel, int), ParseErrorModel>((e0, 1)));
    assert(spec_postfix_rest(e, ts, end, 3, (d - 1) as nat) == Ok::<
        (ExprModel, int),
        ParseErrorModel,
    >((e, 3)));
    assert(spec_postfix_rest(e0, ts, end, 1, d) == Ok::<(ExprModel, int), ParseErrorModel>((e, 3)));
    assert(spec_parse_postfix(ts, end, 0, d) == Ok::<(ExprModel, int), ParseErrorModel>((e, 3)));
    assert(spec_parse_unary(ts, end, 0, d) == Ok::<(ExprModel, int), ParseErrorModel>((e, 3)));
    assert(spec_parse_cmp(ts, end, 0, d) == Ok::<(ExprModel, int), ParseErrorModel>((e, 3)));
    assert(spec_and_rest(e, ts, end, 3, d) == Ok::<(ExprModel, int), ParseErrorModel>((e, 3)));
    assert(spec_parse_and(ts, end, 0, d) == Ok::<(ExprModel, int), ParseErrorModel>((e, 3)));
    assert(spec_or_rest(e, ts, end, 3, d) == Ok::<(ExprModel, int), ParseErrorModel>((e, 3)));
    assert(spec_parse_or(ts, end, 0, d) == Ok::<(ExprModel, int), ParseErrorModel>((e, 3)));
}

/// Round-trip on field access: rendering `base.field`, where both
/// identifiers lex back to themselves, and parsing the result rebuilds the
/// tree.
pub proof fn lemma_round_trip_field_access(base: IdentModel, field: IdentModel)
    requires
        ident_lexes_back(base),
        ident_lexes_back(field),
    ensures
        spec_parse(
            print_expr(
                ExprModel::Access(
                    Box::new(ExprModel::Ident(base)),
                    AccessOpModel::Field(field),
                ),
            ),
        ) == Ok::<ExprModel, ErrorModel>(
            ExprModel::Access(Box::new(ExprModel::Ident(base)), AccessOpModel::Field(field)),
        ),
{
    let e = ExprModel::Access(Box::new(ExprModel::Ident(base)), AccessOpModel::Field(field));
    let w1 = print_ident(base);
    let w2 = print_ident(field);
    let s = w1 + "."@ + w2;
    assert(level_of(ExprModel::Ident(base)) == 6);
    assert(print_operand(ExprModel::Ident(base), 5) == print_expr(ExprModel::Ident(base)));
    assert(print_expr(ExprModel::Ident(base)) == w1);
    assert(print_access_op(AccessOpModel::Field(field)) == "."@ + w2);
    assert(print_expr(e) == w1 + ("."@ + w2));
    assert(w1 + ("."@ + w2) =~= s);
    lemma_lex_field_access(w1, w2);
    lemma_parse_field_access(base, field, 0, w1.len() as usize, (w1.len() + 1) as usize, s.len() as usize);
}

/// A digit's text is one digit character carrying its value.
proof fn lemma_digit_seq(d: nat)
    requires
        d < 10,
    ensures
        digit_seq(d).len() == 1,
        is_digit(digit_seq(d)[0]),
        digit_val(digit_seq(d)[0]) == d,
{
    reveal_strlit("0");
    reveal_strlit("1");
    reveal_strlit("2");
    reveal_strlit("3");
    reveal_strlit("4");
    reveal_strlit("5");
    reveal_strlit("6");
    reveal_strlit("7");
    reveal_strlit("8");
    reveal_strlit("9");
}

/// A rendered natural number is a non-empty run of digits.
proof fn lemma_print_nat_digits(n: nat)
    ensures
        print_nat(n).len() >= 1,
        forall|k: int| 0 <= k < print_nat(n).len() ==> is_digit(#[trigger] print_nat(n)[k]),
    decreases n,
{
    if n < 10 {
        lemma_digit_seq(n);
    } else {
        lemma_print_nat_digits(n / 10);
        lemma_digit_seq(n % 10);
    }
}

/// The decimal value of a run depends only on the characters it reads.
proof fn lemma_dec_value_shift(s: Seq<char>, t: Seq<char>, off: int, j: int)
    requires
        0 <= off,
        0 <= j <= t.len(),
        off + t.len() <= s.len(),
        forall|k: int| 0 <= k < t.len() ==> s[off + k] == t[k],
    ensures
        dec_value(s, off, off + j) == dec_value(t, 0, j),
    decreases j,
{
    if j > 0 {
        lemma_dec_value_shift(s, t, off, j - 1);
    }
}

/// Reading back a rendered natural number yields the number.
proof fn lemma_dec_value_of_print_nat(n: nat)
    ensures
        dec_value(print_nat(n), 0, print_nat(n).len() as int) == n,
    decreases n,
{
    let s = print_nat(n);
    if n < 10 {
        lemma_digit_seq(n);
        assert(dec_value(s, 0, 0) == 0);
        assert(dec_value(s, 0, 1) == digit_val(s[0]));
    } else {
        let head = print_nat(n / 10);
        let tail = digit_seq(n % 10);
        lemma_dec_value_of_print_nat(n / 10);
        lemma_digit_seq(n % 10);
        let m = head.len() as int;
        assert(s.len() == m + 1);
        assert(forall|k: int| 0 <= k < head.len() ==> s[k] == head[k]);
        lemma_dec_value_shift(s, head, 0, m);
        assert(dec_value(s, 0, m + 1) == dec_value(s, 0, m) * 10 + digit_val(s[m]));
        assert(s[m] == tail[0]);
        assert(n == (n / 10) * 10 + (n % 10)) by {
            vstd::arithmetic::div_mod::lemma_fundamental_div_mod(n as int, 10);
        }
    }
}

/// A rendered natural number's digit run ends only at the end of the text.
proof fn lemma_digits_end_full(s: Seq<char>, i: int)
    requires
        0 <= i <= s.len(),
        forall|k: int| i <= k < s.len() ==> is_digit(s[k]),
    ensures
        digits_end(s, i) == s.len(),
    decreases s.len() - i,
{
    if i < s.len() {
        lemma_digits_end_full(s, i + 1);
    }
}

/// The rendering of an integer literal, standing at the tail of the text,
/// lexes to that one integer token.
proof fn lemma_int_token_at(s: Seq<char>, off: int, v: i128)
    requires
        0 <= off < s.len(),
        s.len() - off == print_int(v as int).len(),
        forall|k: int| off <= k < s.len() ==> s[k] == print_int(v as int)[k - off],
    ensures
        spec_token_at(s, off, false) == Ok::<(TokenModel, int), LexError>(
            (TokenModel::Int(v), s.len() as int),
        ),
        !is_space(s[off]),
{
    reveal_strlit("-");
    let tok = TokenModel::Int(v);
    let n = s.len() as int;
    if v >= 0 {
        let m = v as nat;
        lemma_print_nat_digits(m);
        lemma_dec_value_of_print_nat(m);
        assert(forall|k: int| off <= k < n ==> is_digit(s[k]));
        lemma_digits_end_full(s, off);
        lemma_dec_value_shift(s, print_nat(m), off, n - off);
        assert(dec_value(s, off, n) == m);
        assert(is_digit(s[off]) && !is_space(s[off]) && !is_word_start(s[off]) && s[off] != '-');
        assert(spec_number(s, off, off, false) == Ok::<(TokenModel, int), LexError>((tok, n)));
    } else {
        let m = (-(v as int)) as nat;
        let digits = print_nat(m);
        lemma_print_nat_digits(m);
        lemma_dec_value_of_print_nat(m);
        assert(print_int(v as int) == "-"@ + digits);
        assert(s[off] == '-');
        assert(forall|k: int| off + 1 <= k < n ==> s[k] == digits[k - (off + 1)]);
        assert(forall|k: int| off + 1 <= k < n ==> is_digit(s[k]));
        lemma_digits_end_full(s, off + 1);
        lemma_dec_value_shift(s, digits, off + 1, n - (off + 1));
        assert(dec_value(s, off + 1, n) == m);
        assert(m <= int_limit(true));
        assert(spec_number(s, off, off + 1, true) == Ok::<(TokenModel, int), LexError>(
            (TokenModel::Int((-(m as int)) as i128), n),
        ));
        assert((-(m as int)) as i128 == v);
        assert(is_digit(s[off + 1]));
        assert(!is_space(s[off]) && !is_word_start(s[off]) && !is_digit(s[off]));
    }
}

/// Round-trip on integer literals: rendering any signed 128-bit literal and
/// parsing the result rebuilds it.
pub proof fn lemma_round_trip_int(v: i128)
    ensures
        spec_parse(print_expr(ExprModel::Literal(LiteralModel::Int(v)))) == Ok::<
            ExprModel,
            ErrorModel,
        >(ExprModel::Literal(LiteralModel::Int(v))),
{
    let e = ExprModel::Literal(LiteralModel::Int(v));
    let s = print_int(v as int);
    assert(print_expr(e) == s);
    let tok = TokenModel::Int(v);
    assert(s.len() > 0) by {
        if v >= 0 {
            lemma_print_nat_digits(v as nat);
        } else {
            lemma_print_nat_digits((-(v as int)) as nat);
        }
    }
    lemma_int_token_at(s, 0, v);
    assert(spec_lex_at(s, s.len() as int, ends_operand(tok)) == Ok::<
        Seq<(TokenModel, usize)>,
        LexError,
    >(Seq::empty()));
    let ts: TokenSeq = seq![(tok, 0usize)];
    assert(seq![(tok, 0usize)] + Seq::<(TokenModel, usize)>::empty() =~= ts);
    assert(spec_tokens(s) == Ok::<Seq<(TokenModel, usize)>, LexError>(ts));
    lemma_parse_single_token(tok, e, s.len() as usize);
}

/// Two tokens `-`, integer parse to one negation node.
proof fn lemma_parse_minus_int(v: i128, p0: usize, p1: usize, end: usize)
    ensures
        spec_parse_tokens(seq![(TokenModel::Minus, p0), (TokenModel::Int(v), p1)], end) == Ok::<
            ExprModel,
            ParseErrorModel,
        >(ExprModel::Unary(UnaryOp::Negative, Box::new(ExprModel::Literal(LiteralModel::Int(v))))),
{
    let ts: TokenSeq = seq![(TokenModel::Minus, p0), (TokenModel::Int(v), p1)];
    let d = PARSE_DEPTH as nat;
    let inner = ExprModel::Literal(LiteralModel::Int(v));
    let e = ExprModel::Unary(UnaryOp::Negative, Box::new(inner));
    let d1 = (d - 1) as nat;
    assert(spec_parse_primary(ts, end, 1, d1) == Ok::<(ExprModel, int), ParseErrorModel>(
        (inner, 2),
    ));
    assert(spec_postfix_rest(inner, ts, end, 2, d1) == Ok::<(ExprModel, int), ParseErrorModel>(
        (inner, 2),
    ));
    assert(spec_parse_postfix(ts, end, 1, d1) == Ok::<(ExprModel, int), ParseErrorModel>(
        (inner, 2),
    ));
    assert(spec_parse_unary(ts, end, 1, d1) == Ok::<(ExprModel, int), ParseErrorModel>(
        (inner, 2),
    ));
    assert(spec_parse_unary(ts, end, 0, d) == Ok::<(ExprModel, int), ParseErrorModel>((e, 2)));
    assert(spec_parse_cmp(ts, end, 0, d) == Ok::<(ExprModel, int), ParseErrorModel>((e, 2)));
    assert(spec_and_rest(e, ts, end, 2, d) == Ok::<(ExprModel, int), ParseErrorModel>((e, 2)));
    assert(spec_parse_and(ts, end, 0, d) == Ok::<(ExprModel, int), ParseErrorModel>((e, 2)));
    assert(spec_or_rest(e, ts, end, 2, d) == Ok::<(ExprModel, int), ParseErrorModel>((e, 2)));
    assert(spec_parse_or(ts, end, 0, d) == Ok::<(ExprModel, int), ParseErrorModel>((e, 2)));
}

/// Round-trip on negated integer literals: the rendering keeps the `-`
/// apart, so re-parsing rebuilds the negation node rather than folding it
/// into the literal.
pub proof fn lemma_round_trip_negated_int(v: i128)
    ensures
        spec_parse(
            print_expr(
                ExprModel::Unary(
                    UnaryOp::Negative,
                    Box::new(ExprModel::Literal(LiteralModel::Int(v))),
                ),
            ),
        ) == Ok::<ExprModel, ErrorModel>(
            ExprModel::Unary(UnaryOp::Negative, Box::new(ExprModel::Literal(LiteralModel::Int(v)))),
        ),
{
    reveal_strlit("-");
    reveal_strlit(" ");
    let inner = ExprModel::Literal(LiteralModel::Int(v));
    let e = ExprModel::Unary(UnaryOp::Negative, Box::new(inner));
    let body = print_int(v as int);
    assert(body.len() > 0) by {
        if v >= 0 {
            lemma_print_nat_digits(v as nat);
        } else {
            lemma_print_nat_digits((-(v as int)) as nat);
        }
    }
    assert(level_of(inner) == 6);
    assert(print_operand(inner, 4) == print_expr(inner));
    assert(print_expr(inner) == body);
    let s = ("-"@ + " "@) + body;
    assert(print_expr(e) == s);
    let n = s.len() as int;
    assert(s[0] == '-');
    assert(s[1] == ' ');
    assert(forall|k: int| 2 <= k < n ==> s[k] == body[k - 2]);
    assert(!is_digit(s[1]));
    assert(spec_token_at(s, 0, false) == Ok::<(TokenModel, int), LexError>(
        (TokenModel::Minus, 1),
    ));
    let tok = TokenModel::Int(v);
    lemma_int_token_at(s, 2, v);
    assert(spec_lex_at(s, n, ends_operand(tok)) == Ok::<Seq<(TokenModel, usize)>, LexError>(
        Seq::empty(),
    ));
    assert(spec_lex_at(s, 2, false) == Ok::<Seq<(TokenModel, usize)>, LexError>(
        seq![(tok, 2usize)] + Seq::empty(),
    ));
    assert(seq![(tok, 2usize)] + Seq::<(TokenModel, usize)>::empty() =~= seq![(tok, 2usize)]);
    assert(is_space(s[1]));
    assert(spec_lex_at(s, 1, false) == spec_lex_at(s, 2, false));
    assert(spec_lex_at(s, 0, false) == Ok::<Seq<(TokenModel, usize)>, LexError>(
        seq![(TokenModel::Minus, 0usize)] + seq![(tok, 2usize)],
    ));
    assert(seq![(TokenModel::Minus, 0usize)] + seq![(tok, 2usize)] =~= seq![
        (TokenModel::Minus, 0usize),
        (tok, 2usize),
    ]);
    assert(spec_tokens(s) == Ok::<Seq<(TokenModel, usize)>, LexError>(
        seq![(TokenModel::Minus, 0usize), (tok, 2usize)],
    ));
    lemma_parse_minus_int(v, 0, 2, s.len() as usize);
}

/// Whatever expression the logical level yields binds bare variables only.
proof fn lemma_or_binders(ts: TokenSeq, end: usize, i: int, d: nat)
    ensures
        spec_parse_or(ts, end, i, d) matches Ok(p) ==> binders_are_variables(p.0),
    decreases d, 9int,
{
    lemma_and_binders(ts, end, i, d);
    match spec_parse_and(ts, end, i, d) {
        Ok((l, j)) => lemma_or_rest_binders(l, ts, end, j, d),
        Err(_) => {},
    }
}

proof fn lemma_or_rest_binders(l: ExprModel, ts: TokenSeq, end: usize, i: int, d: nat)
    requires
        binders_are_variables(l),
    ensures
        spec_or_rest(l, ts, end, i, d) matches Ok(p) ==> binders_are_variables(p.0),
    decreases d, 8int,
{
    if 0 <= i < ts.len() && ts[i].0 == TokenModel::Or && d > 0 {
        lemma_and_binders(ts, end, i + 1, (d - 1) as nat);
        match spec_parse_and(ts, end, i + 1, (d - 1) as nat) {
            Ok((r0, j)) => {
                let l2 = ExprModel::Logical(Box::new(l), LogicalOp::Or, Box::new(r0));
                assert(binders_are_variables(l2));
                lemma_or_rest_binders(l2, ts, end, j, (d - 1) as nat);
            },
            Err(_) => {},
        }
    }
}

proof fn lemma_and_binders(ts: TokenSeq, end: usize, i: int, d: nat)
    ensures
        spec_parse_and(ts, end, i, d) matches Ok(p) ==> binders_are_variables(p.0),
    decreases d, 7int,
{
    lemma_cmp_binders(ts, end, i, d);
    match spec_parse_cmp(ts, end, i, d) {
        Ok((l, j)) => lemma_and_rest_binders(l, ts, end, j, d),
        Err(_) => {},
    }
}

proof fn lemma_and_rest_binders(l: ExprModel, ts: TokenSeq, end: usize, i: int, d: nat)
    requires
        binders_are_variables(l),
    ensures
        spec_and_rest(l, ts, end, i, d) matches Ok(p) ==> binders_are_variables(p.0),
    decreases d, 6int,
{
    if 0 <= i < ts.len() && ts[i].0 == TokenModel::And && d > 0 {
        lemma_cmp_binders(ts, end, i + 1, (d - 1) as nat);
        match spec_parse_cmp(ts, end, i + 1, (d - 1) as nat) {
            Ok((r0, j)) => {
                let l2 = ExprModel::Logical(Box::new(l), LogicalOp::And, Box::new(r0));
                assert(binders_are_variables(l2));
                lemma_and_rest_binders(l2, ts, end, j, (d - 1) as nat);
            },
            Err(_) => {},
        }
    }
}

proof fn lemma_cmp_binders(ts: TokenSeq, end: usize, i: int, d: nat)
    ensures
        spec_parse_cmp(ts, end, i, d) matches Ok(p) ==> binders_are_variables(p.0),
    decreases d, 5int,
{
    lemma_unary_binders(ts, end, i, d);
    match spec_parse_unary(ts, end, i, d) {
        Ok((_, j)) => lemma_unary_binders(ts, end, j + 1, d),
        Err(_) => {},
    }
}

proof fn lemma_unary_binders(ts: TokenSeq, end: usize, i: int, d: nat)
    ensures
        spec_parse_unary(ts, end, i, d) matches Ok(p) ==> binders_are_variables(p.0),
    decreases d, 4int,
{
    if 0 <= i < ts.len() && (ts[i].0 == TokenModel::Not || ts[i].0 == TokenModel::Minus) {
        if d > 0 {
            lemma_unary_binders(ts, end, i + 1, (d - 1) as nat);
        }
    } else {
        lemma_postfix_binders(ts, end, i, d);
    }
}

proof fn lemma_postfix_binders(ts: TokenSeq, end: usize, i: int, d: nat)
    ensures
        spec_parse_postfix(ts, end, i, d) matches Ok(p) ==> binders_are_variables(p.0),
    decreases d, 3int,
{
    lemma_primary_binders(ts, end, i, d);
    match spec_parse_primary(ts, end, i, d) {
        Ok((e0, j)) => lemma_postfix_rest_binders(e0, ts, end, j, d),
        Err(_) => {},
    }
}

proof fn lemma_function_suffix_binders(
    recv: ExprModel,
    name: Seq<char>,
    ts: TokenSeq,
    end: usize,
    i: int,
    d: nat,
)
    requires
        binders_are_variables(recv),
    ensures
        spec_function_suffix(recv, name, ts, end, i, d) matches Ok(p) ==> binders_are_variables(
            p.0,
        ),
    decreases d, 1int,
{
    if name == "count"@ {
        let f = FunctionOpModel::Count(Box::new(recv));
        assert(function_binders_are_variables(f));
        assert(binders_are_variables(ExprModel::Function(f)));
    } else if name == "contains"@ {
        if 0 <= i + 1 < ts.len() && lit_of_token(ts[i + 1].0) is Some {
            let f = FunctionOpModel::Contains(Box::new(recv), lit_of_token(ts[i + 1].0)->Some_0);
            assert(function_binders_are_variables(f));
            assert(binders_are_variables(ExprModel::Function(f)));
        }
    } else {
        if (0 <= i + 1 < ts.len() && (ts[i + 1].0 matches TokenModel::Ident(
            IdentModel::Variable(_),
        ))) && 0 <= i + 2 < ts.len() && ts[i + 2].0 == TokenModel::Comma && d > 0 {
            lemma_or_binders(ts, end, i + 3, (d - 1) as nat);
            let binder = ts[i + 1].0->Ident_0;
            assert(binder is Variable);
            match spec_parse_or(ts, end, i + 3, (d - 1) as nat) {
                Ok((p, j)) => {
                    let fa = FunctionOpModel::All(Box::new(recv), binder, Box::new(p));
                    let fy = FunctionOpModel::Any(Box::new(recv), binder, Box::new(p));
                    let ff = FunctionOpModel::Filter(Box::new(recv), binder, Box::new(p));
                    assert(function_binders_are_variables(fa));
                    assert(function_binders_are_variables(fy));
                    assert(function_binders_are_variables(ff));
                    assert(binders_are_variables(ExprModel::Function(fa)));
                    assert(binders_are_variables(ExprModel::Function(fy)));
                    assert(binders_are_variables(ExprModel::Function(ff)));
                },
                Err(_) => {},
            }
        }
    }
}

proof fn lemma_postfix_rest_binders(e: ExprModel, ts: TokenSeq, end: usize, i: int, d: nat)
    requires
        binders_are_variables(e),
    ensures
        spec_postfix_rest(e, ts, end, i, d) matches Ok(p) ==> binders_are_variables(p.0),
    decreases d, 2int,
{
    if 0 <= i < ts.len() && ts[i].0 == TokenModel::Dot {
        if 0 <= i + 1 < ts.len() && (ts[i + 1].0 matches TokenModel::Ident(_)) {
            let id = ts[i + 1].0->Ident_0;
            let has_paren = 0 <= i + 2 < ts.len() && ts[i + 2].0 == TokenModel::LeftParen;
            if id matches IdentModel::Keyword(name) && is_function_word(name) && has_paren {
                if d > 0 {
                    lemma_function_suffix_binders(e, id->Keyword_0, ts, end, i + 2, (d - 1) as nat);
                    match spec_function_suffix(e, id->Keyword_0, ts, end, i + 2, (d - 1) as nat) {
                        Ok((e2, k)) => lemma_postfix_rest_binders(e2, ts, end, k, (d - 1) as nat),
                        Err(_) => {},
                    }
                }
            } else if !has_paren {
                if d > 0 {
                    let e2 = ExprModel::Access(Box::new(e), crate::ast::AccessOpModel::Field(id));
                    assert(binders_are_variables(e2));
                    lemma_postfix_rest_binders(e2, ts, end, i + 2, (d - 1) as nat);
                }
            }
        }
    } else if 0 <= i < ts.len() && ts[i].0 == TokenModel::LeftBracket {
        if 0 <= i + 1 < ts.len() && (ts[i + 1].0 matches TokenModel::Int(_)) {
            let v = ts[i + 1].0->Int_0;
            if !(v < 0 || v > u32::MAX as i128) {
                if 0 <= i + 2 < ts.len() && ts[i + 2].0 == TokenModel::RightBracket {
                    if d > 0 {
                        let e2 = ExprModel::Access(
                            Box::new(e),
                            crate::ast::AccessOpModel::Index(v as u32),
                        );
                        assert(binders_are_variables(e2));
                        lemma_postfix_rest_binders(e2, ts, end, i + 3, (d - 1) as nat);
                    }
                } else if 0 <= i + 2 < ts.len() && ts[i + 2].0 == TokenModel::Dot && 0 <= i + 3
                    < ts.len() && ts[i + 3].0 == TokenModel::Dot {
                    if 0 <= i + 4 < ts.len() && (ts[i + 4].0 matches TokenModel::Int(_)) {
                        let w = ts[i + 4].0->Int_0;
                        if !(w < 0 || w > u32::MAX as i128) && v <= w && 0 <= i + 5 < ts.len()
                            && ts[i + 5].0 == TokenModel::RightBracket && d > 0 {
                            let e2 = ExprModel::Access(
                                Box::new(e),
                                crate::ast::AccessOpModel::Slice(v as u32, w as u32),
                            );
                            assert(binders_are_variables(e2));
                            lemma_postfix_rest_binders(e2, ts, end, i + 6, (d - 1) as nat);
                        }
                    }
                }
            }
        }
    }
}

proof fn lemma_primary_binders(ts: TokenSeq, end: usize, i: int, d: nat)
    ensures
        spec_parse_primary(ts, end, i, d) matches Ok(p) ==> binders_are_variables(p.0),
    decreases d, 2int,
{
    if 0 <= i < ts.len() {
        match ts[i].0 {
            TokenModel::LeftParen => {
                if d > 0 {
                    lemma_or_binders(ts, end, i + 1, (d - 1) as nat);
                }
            },
            TokenModel::LeftBracket => {
                if 0 <= i + 1 < ts.len() && ts[i + 1].0 == TokenModel::RightBracket {
                    assert(binders_are_variables(ExprModel::List(Seq::empty())));
                } else {
                    lemma_elems_binders(Seq::empty(), ts, end, i + 1, d);
                }
            },
            _ => {},
        }
    }
}

proof fn lemma_elems_binders(acc: Seq<ExprModel>, ts: TokenSeq, end: usize, i: int, d: nat)
    requires
        forall|k: int| 0 <= k < acc.len() ==> binders_are_variables(#[trigger] acc[k]),
    ensures
        spec_parse_elems(acc, ts, end, i, d) matches Ok(p) ==> binders_are_variables(p.0),
    decreases d, 1int,
{
    if d > 0 {
        lemma_or_binders(ts, end, i, (d - 1) as nat);
        match spec_parse_or(ts, end, i, (d - 1) as nat) {
            Ok((e0, j)) => {
                assert(forall|k: int|
                    0 <= k < acc.push(e0).len() ==> binders_are_variables(
                        #[trigger] acc.push(e0)[k],
                    ));
                if 0 <= j < ts.len() && ts[j].0 == TokenModel::Comma {
                    lemma_elems_binders(acc.push(e0), ts, end, j + 1, (d - 1) as nat);
                } else if 0 <= j < ts.len() && ts[j].0 == TokenModel::RightBracket {
                    assert(binders_are_variables(ExprModel::List(acc.push(e0))));
                }
            },
            Err(_) => {},
        }
    }
}

/// Every tree `parse` returns binds bare variables in its `all`, `any` and
/// `filter` nodes: the parser rejects any other binder rather than coercing.
pub proof fn lemma_parse_binders_are_variables(s: Seq<char>)
    ensures
        spec_parse(s) matches Ok(e) ==> binders_are_variables(e),
{
    match spec_tokens(s) {
        Ok(ts) => {
            lemma_or_binders(ts, s.len() as usize, 0, PARSE_DEPTH as nat);
        },
        Err(_) => {},
    }
}

} // verus!
