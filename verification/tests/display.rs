use exprparse::{parse, AccessOp, ComparisonOp, Expr, FunctionOp, Ident, Literal, LogicalOp, UnaryOp};

fn var(name: &str) -> Expr {
    Expr::Ident(Ident::Variable(name.to_string()))
}

fn lit(v: i128) -> Expr {
    Expr::Literal(Literal::Int(v))
}

#[test]
fn display_renders_surface_syntax() {
    let e = Expr::Logical(
        Box::new(Expr::Comparison(
            Box::new(lit(1)),
            ComparisonOp::LessThan,
            Box::new(lit(2)),
        )),
        LogicalOp::And,
        Box::new(Expr::Comparison(
            Box::new(lit(3)),
            ComparisonOp::GreaterThan,
            Box::new(lit(4)),
        )),
    );
    assert_eq!(e.display(), "1 < 2 && 3 > 4");
}

#[test]
fn display_of_each_node_kind() {
    assert_eq!(lit(-42).display(), "-42");
    assert_eq!(lit(i128::MIN).display(), "-170141183460469231731687303715884105728");
    assert_eq!(Expr::Literal(Literal::Bool(true)).display(), "true");
    assert_eq!(
        Expr::Literal(Literal::String("hi".to_string())).display(),
        "'hi'"
    );
    assert_eq!(
        Expr::List(vec![Box::new(lit(1)), Box::new(lit(2))]).display(),
        "[1, 2]"
    );
    assert_eq!(Expr::List(vec![]).display(), "[]");
    assert_eq!(
        Expr::Unary(UnaryOp::Not, Box::new(var("x"))).display(),
        "!x"
    );
    assert_eq!(
        Expr::Access(Box::new(var("x")), AccessOp::Slice(2, 7)).display(),
        "x[2..7]"
    );
    assert_eq!(
        Expr::Access(
            Box::new(var("x")),
            AccessOp::Field(Ident::Variable("a".to_string()))
        )
        .display(),
        "x.a"
    );
    assert_eq!(
        Expr::Function(FunctionOp::Filter(
            Box::new(var("x")),
            Ident::Variable("y".to_string()),
            Box::new(Expr::Comparison(
                Box::new(var("y")),
                ComparisonOp::GreaterThanOrEqual,
                Box::new(lit(0)),
            )),
        ))
        .display(),
        "x.filter(y, y >= 0)"
    );
    assert_eq!(
        Expr::Function(FunctionOp::Count(Box::new(var("x")))).display(),
        "x.count()"
    );
}

#[test]
fn display_parenthesizes_loose_operands() {
    let or_under_and = Expr::Logical(
        Box::new(Expr::Logical(
            Box::new(var("a")),
            LogicalOp::Or,
            Box::new(var("b")),
        )),
        LogicalOp::And,
        Box::new(var("c")),
    );
    assert_eq!(or_under_and.display(), "(a || b) && c");
    assert_eq!(parse(&or_under_and.display()), Ok(or_under_and));

    let and_under_and_right = Expr::Logical(
        Box::new(var("a")),
        LogicalOp::And,
        Box::new(Expr::Logical(
            Box::new(var("b")),
            LogicalOp::And,
            Box::new(var("c")),
        )),
    );
    assert_eq!(and_under_and_right.display(), "a && (b && c)");
    assert_eq!(parse(&and_under_and_right.display()), Ok(and_under_and_right));

    let cmp_under_cmp = Expr::Comparison(
        Box::new(Expr::Comparison(
            Box::new(lit(1)),
            ComparisonOp::LessThan,
            Box::new(lit(2)),
        )),
        ComparisonOp::LessThan,
        Box::new(lit(3)),
    );
    assert_eq!(cmp_under_cmp.display(), "(1 < 2) < 3");
    assert_eq!(parse(&cmp_under_cmp.display()), Ok(cmp_under_cmp));

    let not_over_cmp = Expr::Unary(
        UnaryOp::Not,
        Box::new(Expr::Comparison(
            Box::new(var("a")),
            ComparisonOp::Equals,
            Box::new(var("b")),
        )),
    );
    assert_eq!(not_over_cmp.display(), "!(a == b)");
    assert_eq!(parse(&not_over_cmp.display()), Ok(not_over_cmp));

    let logical_receiver = Expr::Function(FunctionOp::Count(Box::new(Expr::Logical(
        Box::new(var("a")),
        LogicalOp::And,
        Box::new(var("b")),
    ))));
    assert_eq!(logical_receiver.display(), "(a && b).count()");
    assert_eq!(parse(&logical_receiver.display()), Ok(logical_receiver));
}

#[test]
fn display_chooses_the_quote_by_content() {
    assert_eq!(
        Expr::Literal(Literal::String("it's".to_string())).display(),
        "\"it's\""
    );
    assert_eq!(
        Expr::Literal(Literal::String("say \"hi\"".to_string())).display(),
        "'say \"hi\"'"
    );
    let quoted = parse("x.all(y, \"it's\")").expect("parses");
    assert_eq!(
        quoted,
        Expr::Function(FunctionOp::All(
            Box::new(var("x")),
            Ident::Variable("y".to_string()),
            Box::new(Expr::Literal(Literal::String("it's".to_string()))),
        ))
    );
    assert_eq!(quoted.display(), "x.all(y, \"it's\")");
    assert_eq!(parse(&quoted.display()), Ok(quoted));

    let other = parse("x.contains('say \"hi\"')").expect("parses");
    assert_eq!(parse(&other.display()), Ok(other));
}

#[test]
fn display_keeps_unary_minus_apart() {
    let neg_five = Expr::Unary(UnaryOp::Negative, Box::new(lit(5)));
    assert_eq!(neg_five.display(), "- 5");
    assert_eq!(parse(&neg_five.display()), Ok(neg_five));
}

#[test]
fn parse_of_display_rebuilds_the_tree() {
    let samples = [
        "1 < 2 && 3 > 4",
        "x.a.b[0]",
        "x.filter(y, y > 1)",
        "[1, 2, 3][1]",
        "a && b || c in [1, 2]",
        "!x.count()",
        "x[2..7].any(v, v != 'q')",
        "-5",
        "- 5",
        "x.all",
        "(a || b) && c",
        "!(a == b)",
        "- -5",
        "(1 < 2) < 3",
    ];
    for text in samples {
        let tree = parse(text).expect(text);
        let rendered = tree.display();
        let again = parse(&rendered).expect(&rendered);
        assert_eq!(again, tree, "round trip through {rendered}");
    }
}

#[test]
fn clone_makes_an_equal_tree() {
    let e = parse("x.filter(y, y > 1) && [1, 2][0] == - 3").expect("parses");
    assert_eq!(e.clone(), e);
}

#[test]
fn display_then_parse_on_a_built_tree() {
    let e = Expr::Function(FunctionOp::Any(
        Box::new(Expr::List(vec![
            Box::new(lit(1)),
            Box::new(Expr::Literal(Literal::String("two".to_string()))),
        ])),
        Ident::Variable("v".to_string()),
        Box::new(Expr::Comparison(
            Box::new(var("v")),
            ComparisonOp::NotEquals,
            Box::new(lit(1)),
        )),
    ));
    assert_eq!(parse(&e.display()), Ok(e));
}
