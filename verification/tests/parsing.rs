use exprparse::{
    parse, AccessOp, ComparisonOp, Error, Expected, Expr, FunctionOp, Ident, LexReason, Literal,
    LogicalOp, UnaryOp,
};

fn var(name: &str) -> Expr {
    Expr::Ident(Ident::Variable(name.to_string()))
}

fn lit(v: i128) -> Expr {
    Expr::Literal(Literal::Int(v))
}

#[test]
fn precedence_of_comparison_under_logical() {
    let expected = Expr::Logical(
        Box::new(Expr::Comparison(
            Box::new(lit(1)),
            ComparisonOp::LessThan,
            Box::new(lit(2)),
        )),
        LogicalOp::And,
        Box::new(Expr::Comparison(
            Box::new(lit(3)),
            ComparisonOp::GreaterThan,
            Box::new(lit(4)),
        )),
    );
    assert_eq!(parse("1 < 2 && 3 > 4"), Ok(expected));
}

#[test]
fn and_binds_tighter_than_or() {
    let expected = Expr::Logical(
        Box::new(Expr::Logical(
            Box::new(var("a")),
            LogicalOp::And,
            Box::new(var("b")),
        )),
        LogicalOp::Or,
        Box::new(var("c")),
    );
    assert_eq!(parse("a && b || c"), Ok(expected));
}

#[test]
fn access_chain_is_left_associative() {
    let expected = Expr::Access(
        Box::new(Expr::Access(
            Box::new(Expr::Access(
                Box::new(var("x")),
                AccessOp::Field(Ident::Variable("a".to_string())),
            )),
            AccessOp::Field(Ident::Variable("b".to_string())),
        )),
        AccessOp::Index(0),
    );
    assert_eq!(parse("x.a.b[0]"), Ok(expected));
}

#[test]
fn filter_binds_a_variable_over_its_predicate() {
    let expected = Expr::Function(FunctionOp::Filter(
        Box::new(var("x")),
        Ident::Variable("y".to_string()),
        Box::new(Expr::Comparison(
            Box::new(var("y")),
            ComparisonOp::GreaterThan,
            Box::new(lit(1)),
        )),
    ));
    assert_eq!(parse("x.filter(y, y > 1)"), Ok(expected));
}

#[test]
fn list_literal_with_index_suffix() {
    let expected = Expr::Access(
        Box::new(Expr::List(vec![
            Box::new(lit(1)),
            Box::new(lit(2)),
            Box::new(lit(3)),
        ])),
        AccessOp::Index(1),
    );
    assert_eq!(parse("[1, 2, 3][1]"), Ok(expected));
}

#[test]
fn chained_comparison_is_rejected() {
    assert!(matches!(parse("1 < 2 < 3"), Err(Error::Parse(_))));
}

#[test]
fn contains_rejects_a_non_literal_argument() {
    let r = parse("x.contains(y)");
    match r {
        Err(Error::Parse(e)) => assert_eq!(e.expected, Expected::LiteralArgument),
        other => panic!("expected a parse error, got {:?}", other),
    }
}

#[test]
fn oversized_integer_literal_is_a_lex_error() {
    let r = parse("170141183460469231731687303715884105728");
    match r {
        Err(Error::Lex(e)) => {
            assert_eq!(e.reason, LexReason::IntegerOverflow);
            assert_eq!(e.position, 0);
        }
        other => panic!("expected a lexer error, got {:?}", other),
    }
}

#[test]
fn extreme_integer_literals_parse_exactly() {
    assert_eq!(
        parse("170141183460469231731687303715884105727"),
        Ok(lit(i128::MAX))
    );
    assert_eq!(
        parse("-170141183460469231731687303715884105728"),
        Ok(lit(i128::MIN))
    );
}

#[test]
fn adjacent_minus_digit_folds_into_a_negative_literal() {
    assert_eq!(parse("-5"), Ok(lit(-5)));
    assert_eq!(
        parse("1 < -5"),
        Ok(Expr::Comparison(
            Box::new(lit(1)),
            ComparisonOp::LessThan,
            Box::new(lit(-5)),
        ))
    );
}

#[test]
fn minus_after_an_operand_stays_an_operator() {
    // `x` ends an operand, so `-` is a unary token, and the tokens
    // `x - 5` do not form one expression
    assert!(matches!(parse("x -5"), Err(Error::Parse(_))));
}

#[test]
fn unary_operators_stack() {
    assert_eq!(
        parse("!!x"),
        Ok(Expr::Unary(
            UnaryOp::Not,
            Box::new(Expr::Unary(UnaryOp::Not, Box::new(var("x")))),
        ))
    );
    assert_eq!(
        parse("- -5"),
        Ok(Expr::Unary(UnaryOp::Negative, Box::new(lit(-5))))
    );
}

#[test]
fn parentheses_group_without_a_node() {
    assert_eq!(parse("(1)"), Ok(lit(1)));
    let expected = Expr::Logical(
        Box::new(var("a")),
        LogicalOp::And,
        Box::new(Expr::Logical(
            Box::new(var("b")),
            LogicalOp::Or,
            Box::new(var("c")),
        )),
    );
    assert_eq!(parse("a && (b || c)"), Ok(expected));
}

#[test]
fn empty_list_parses_and_trailing_comma_does_not() {
    assert_eq!(parse("[]"), Ok(Expr::List(vec![])));
    assert!(matches!(parse("[1, 2,]"), Err(Error::Parse(_))));
}

#[test]
fn membership_comparison() {
    let expected = Expr::Comparison(
        Box::new(var("x")),
        ComparisonOp::In,
        Box::new(Expr::List(vec![Box::new(lit(1)), Box::new(lit(2))])),
    );
    assert_eq!(parse("x in [1, 2]"), Ok(expected));
}

#[test]
fn slice_access_and_its_bounds() {
    assert_eq!(
        parse("x[1..3]"),
        Ok(Expr::Access(Box::new(var("x")), AccessOp::Slice(1, 3)))
    );
    let r = parse("x[3..1]");
    match r {
        Err(Error::Parse(e)) => assert_eq!(e.expected, Expected::OrderedSliceBounds),
        other => panic!("expected a parse error, got {:?}", other),
    }
    let r = parse("x[-1]");
    match r {
        Err(Error::Parse(e)) => assert_eq!(e.expected, Expected::IndexLiteral),
        other => panic!("expected a parse error, got {:?}", other),
    }
    let r = parse("x[4294967296]");
    match r {
        Err(Error::Parse(e)) => assert_eq!(e.expected, Expected::IndexLiteral),
        other => panic!("expected a parse error, got {:?}", other),
    }
}

#[test]
fn function_suffixes_parse() {
    assert_eq!(
        parse("x.count()"),
        Ok(Expr::Function(FunctionOp::Count(Box::new(var("x")))))
    );
    assert_eq!(
        parse("x.contains('a')"),
        Ok(Expr::Function(FunctionOp::Contains(
            Box::new(var("x")),
            Literal::String("a".to_string()),
        )))
    );
    assert_eq!(
        parse("x.all(y, y == 1)"),
        Ok(Expr::Function(FunctionOp::All(
            Box::new(var("x")),
            Ident::Variable("y".to_string()),
            Box::new(Expr::Comparison(
                Box::new(var("y")),
                ComparisonOp::Equals,
                Box::new(lit(1)),
            )),
        )))
    );
}

#[test]
fn unknown_method_call_is_rejected() {
    let r = parse("x.foo()");
    match r {
        Err(Error::Parse(e)) => assert_eq!(e.expected, Expected::KnownFunction),
        other => panic!("expected a parse error, got {:?}", other),
    }
}

#[test]
fn binder_must_be_a_bare_variable() {
    let r = parse("x.all(1, y > 1)");
    match r {
        Err(Error::Parse(e)) => assert_eq!(e.expected, Expected::VariableBinder),
        other => panic!("expected a parse error, got {:?}", other),
    }
}

#[test]
fn function_word_without_call_is_a_field() {
    assert_eq!(
        parse("x.all"),
        Ok(Expr::Access(
            Box::new(var("x")),
            AccessOp::Field(Ident::Keyword("all".to_string())),
        ))
    );
}

#[test]
fn bare_keyword_is_an_identifier_and_in_is_not() {
    assert_eq!(
        parse("all"),
        Ok(Expr::Ident(Ident::Keyword("all".to_string())))
    );
    let round = parse("all").expect("parses");
    assert_eq!(parse(&round.display()), Ok(round));
    // `in` always lexes as the membership operator, so it is no field name
    assert!(matches!(parse("x.in"), Err(Error::Parse(_))));
}

#[test]
fn lexer_error_positions_and_reasons() {
    match parse("a && 'oops") {
        Err(Error::Lex(e)) => {
            assert_eq!(e.reason, LexReason::UnterminatedString);
            assert_eq!(e.position, 5);
        }
        other => panic!("expected a lexer error, got {:?}", other),
    }
    match parse("a # b") {
        Err(Error::Lex(e)) => {
            assert_eq!(e.reason, LexReason::InvalidCharacter);
            assert_eq!(e.position, 2);
        }
        other => panic!("expected a lexer error, got {:?}", other),
    }
}

#[test]
fn trailing_input_is_rejected() {
    match parse("1 2") {
        Err(Error::Parse(e)) => {
            assert_eq!(e.expected, Expected::EndOfInput);
            assert_eq!(e.position, 2);
        }
        other => panic!("expected a parse error, got {:?}", other),
    }
    assert!(matches!(parse(""), Err(Error::Parse(_))));
}

#[test]
fn booleans_and_strings_parse() {
    assert_eq!(
        parse("true && false"),
        Ok(Expr::Logical(
            Box::new(Expr::Literal(Literal::Bool(true))),
            LogicalOp::And,
            Box::new(Expr::Literal(Literal::Bool(false))),
        ))
    );
    assert_eq!(
        parse("\"double\""),
        Ok(Expr::Literal(Literal::String("double".to_string())))
    );
}
