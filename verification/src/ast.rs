//! The AST nodes produced by the grammar, together with their mathematical
//! models: a node holding `String` or `Vec` is modelled by the same shape
//! over `Seq<char>` and `Seq`.

use vstd::prelude::*;
use vstd::string::{StrSliceExecFns, StringExecFns};

verus! {

broadcast use
    vstd::std_specs::vec::axiom_vec_index_decreases,
    vstd::std_specs::vec::axiom_vec_decreases_to_view,
    vstd::seq::group_seq_axioms;

/// An expression: (root node)
#[derive(Debug, PartialEq, Eq)]
pub enum Expr {
    /// An expression representing a logical operator applied to two expressions
    Logical(Box<Expr>, LogicalOp, Box<Expr>),
    /// An expression representing a function
    Function(FunctionOp),
    /// An expression representing a comparison operator applied to two expressions
    Comparison(Box<Expr>, ComparisonOp, Box<Expr>),
    /// An expression representing a unary operator applied to a expression
    Unary(UnaryOp, Box<Expr>),
    /// An expression representing an access operator applied to a expression
    Access(Box<Expr>, AccessOp),
    /// An expression representing a list of expressions
    List(Vec<Box<Expr>>),
    /// An expression representing a literal expression
    Literal(Literal),
    /// An expression representing an identifier
    Ident(Ident),
}

/// A logical operator
#[derive(Debug, PartialEq, Eq, Clone)]
pub enum LogicalOp {
    /// The logical operator: &&
    And,
    /// The logical operator: ||
    Or,
}

/// A function operator
#[derive(Debug, PartialEq, Eq)]
pub enum FunctionOp {
    /// The all operation: x.all(y, predicate)
    All(Box<Expr>, Ident, Box<Expr>),
    /// The any operation: x.any(y, predicate)
    Any(Box<Expr>, Ident, Box<Expr>),
    /// The has operation: x.contains(<literal>)
    Contains(Box<Expr>, Literal),
    /// The count operation: x.count()
    Count(Box<Expr>),
    /// The filter operation: x.filter(y, predicate)
    Filter(Box<Expr>, Ident, Box<Expr>),
}

/// A comparison operator
#[derive(Debug, PartialEq, Eq, Clone)]
pub enum ComparisonOp {
    /// The comparison operator: <
    LessThan,
    /// The comparison operator: <=
    LessThanOrEqual,
    /// The comparison operator: >
    GreaterThan,
    /// The comparison operator: >=
    GreaterThanOrEqual,
    /// The comparison operator: ==
    Equals,
    /// The comparison operator: !=
    NotEquals,
    /// The comparison operator: a in {a,b,c}
    In,
}

/// An access operator
#[derive(Debug, PartialEq, Eq, Clone)]
pub enum AccessOp {
    /// The access operator: x.field
    Field(Ident),
    /// The access operator: \[i\]
    Index(u32),
    /// The access operator: \[i..j\]
    Slice(u32, u32),
}

/// A unary operator
#[derive(Debug, PartialEq, Eq, Clone)]
pub enum UnaryOp {
    /// The unary operator: !
    Not,
    /// The unary operator: -
    Negative,
}

/// A literal value (leaf node)
#[derive(Debug, PartialEq, Eq, Clone)]
pub enum Literal {
    /// The literal value: i128
    Int(i128),
    /// The literal value: bool
    Bool(bool),
    /// The literal value: String
    String(String),
}

/// An identifier
#[derive(Debug, PartialEq, Eq, Clone)]
pub enum Ident {
    /// A variable identifier
    Variable(String),
    /// A reserved, keyword identifier
    Keyword(String),
}

/// Mathematical model of an expression tree: `String` becomes `Seq<char>`,
/// a `Vec` of children becomes a `Seq`.
pub enum ExprModel {
    Logical(Box<ExprModel>, LogicalOp, Box<ExprModel>),
    Function(FunctionOpModel),
    Comparison(Box<ExprModel>, ComparisonOp, Box<ExprModel>),
    Unary(UnaryOp, Box<ExprModel>),
    Access(Box<ExprModel>, AccessOpModel),
    List(Seq<ExprModel>),
    Literal(LiteralModel),
    Ident(IdentModel),
}

/// Mathematical model of a function operator.
pub enum FunctionOpModel {
    All(Box<ExprModel>, IdentModel, Box<ExprModel>),
    Any(Box<ExprModel>, IdentModel, Box<ExprModel>),
    Contains(Box<ExprModel>, LiteralModel),
    Count(Box<ExprModel>),
    Filter(Box<ExprModel>, IdentModel, Box<ExprModel>),
}

/// Mathematical model of an access operator.
pub enum AccessOpModel {
    Field(IdentModel),
    Index(u32),
    Slice(u32, u32),
}

/// Mathematical model of a literal.
pub enum LiteralModel {
    Int(i128),
    Bool(bool),
    Str(Seq<char>),
}

/// Mathematical model of an identifier.
pub enum IdentModel {
    Variable(Seq<char>),
    Keyword(Seq<char>),
}

/// The models of a sequence of child expressions, elementwise.
pub open spec fn models_of(items: Seq<Box<Expr>>) -> Seq<ExprModel>
    decreases items,
{
    Seq::new(
        items.len(),
        |i: int|
            if 0 <= i < items.len() {
                items[i].model()
            } else {
                vstd::pervasive::arbitrary()
            },
    )
}

/// Every `all`, `any` or `filter` node in the tree binds a bare variable,
/// never a keyword: the shape of every tree the parser returns.
pub open spec fn binders_are_variables(e: ExprModel) -> bool
    decreases e, 0int,
{
    match e {
        ExprModel::Logical(l, _, r) => binders_are_variables(*l) && binders_are_variables(*r),
        ExprModel::Function(f) => function_binders_are_variables(f),
        ExprModel::Comparison(l, _, r) => binders_are_variables(*l) && binders_are_variables(*r),
        ExprModel::Unary(_, inner) => binders_are_variables(*inner),
        ExprModel::Access(inner, _) => binders_are_variables(*inner),
        ExprModel::List(items) => forall|k: int|
            0 <= k < items.len() ==> binders_are_variables(#[trigger] items[k]),
        ExprModel::Literal(_) => true,
        ExprModel::Ident(_) => true,
    }
}

/// The binder of this node, if it has one, is a bare variable, and so are
/// the binders below it.
pub open spec fn function_binders_are_variables(f: FunctionOpModel) -> bool
    decreases f, 1int,
{
    match f {
        FunctionOpModel::All(recv, b, p) => b is Variable && binders_are_variables(*recv)
            && binders_are_variables(*p),
        FunctionOpModel::Any(recv, b, p) => b is Variable && binders_are_variables(*recv)
            && binders_are_variables(*p),
        FunctionOpModel::Contains(recv, _) => binders_are_variables(*recv),
        FunctionOpModel::Count(recv) => binders_are_variables(*recv),
        FunctionOpModel::Filter(recv, b, p) => b is Variable && binders_are_variables(*recv)
            && binders_are_variables(*p),
    }
}

impl Literal {
    pub open spec fn model(self) -> LiteralModel {
        match self {
            Literal::Int(i) => LiteralModel::Int(i),
            Literal::Bool(b) => LiteralModel::Bool(b),
            Literal::String(s) => LiteralModel::Str(s@),
        }
    }
}

impl Ident {
    pub open spec fn model(self) -> IdentModel {
        match self {
            Ident::Variable(s) => IdentModel::Variable(s@),
            Ident::Keyword(s) => IdentModel::Keyword(s@),
        }
    }
}

impl AccessOp {
    pub open spec fn model(self) -> AccessOpModel {
        match self {
            AccessOp::Field(id) => AccessOpModel::Field(id.model()),
            AccessOp::Index(i) => AccessOpModel::Index(i),
            AccessOp::Slice(a, b) => AccessOpModel::Slice(a, b),
        }
    }
}

impl Expr {
    pub open spec fn model(self) -> ExprModel
        decreases self,
    {
        match self {
            Expr::Logical(l, op, r) => ExprModel::Logical(
                Box::new(l.model()),
                op,
                Box::new(r.model()),
            ),
            Expr::Function(f) => ExprModel::Function(f.model()),
            Expr::Comparison(l, op, r) => ExprModel::Comparison(
                Box::new(l.model()),
                op,
                Box::new(r.model()),
            ),
            Expr::Unary(op, e) => ExprModel::Unary(op, Box::new(e.model())),
            Expr::Access(e, op) => ExprModel::Access(Box::new(e.model()), op.model()),
            Expr::List(items) => ExprModel::List(models_of(items@)),
            Expr::Literal(lit) => ExprModel::Literal(lit.model()),
            Expr::Ident(id) => ExprModel::Ident(id.model()),
        }
    }
}

impl FunctionOp {
    pub open spec fn model(self) -> FunctionOpModel
        decreases self,
    {
        match self {
            FunctionOp::All(recv, v, p) => FunctionOpModel::All(
                Box::new(recv.model()),
                v.model(),
                Box::new(p.model()),
            ),
            FunctionOp::Any(recv, v, p) => FunctionOpModel::Any(
                Box::new(recv.model()),
                v.model(),
                Box::new(p.model()),
            ),
            FunctionOp::Contains(recv, lit) => FunctionOpModel::Contains(
                Box::new(recv.model()),
                lit.model(),
            ),
            FunctionOp::Count(recv) => FunctionOpModel::Count(Box::new(recv.model())),
            FunctionOp::Filter(recv, v, p) => FunctionOpModel::Filter(
                Box::new(recv.model()),
                v.model(),
                Box::new(p.model()),
            ),
        }
    }
}

/// One decimal digit as text.
pub open spec fn digit_seq(d: nat) -> Seq<char> {
    if d == 0 {
        "0"@
    } else if d == 1 {
        "1"@
    } else if d == 2 {
        "2"@
    } else if d == 3 {
        "3"@
    } else if d == 4 {
        "4"@
    } else if d == 5 {
        "5"@
    } else if d == 6 {
        "6"@
    } else if d == 7 {
        "7"@
    } else if d == 8 {
        "8"@
    } else {
        "9"@
    }
}

/// The decimal rendering of a natural number.
pub open spec fn print_nat(n: nat) -> Seq<char>
    decreases n,
{
    if n < 10 {
        digit_seq(n)
    } else {
        print_nat(n / 10) + digit_seq(n % 10)
    }
}

/// The decimal rendering of an integer: a leading `-` for negative values.
pub open spec fn print_int(i: int) -> Seq<char> {
    if i >= 0 {
        print_nat(i as nat)
    } else {
        "-"@ + print_nat((-i) as nat)
    }
}

/// How a logical operator renders.
pub open spec fn print_logical_op(op: LogicalOp) -> Seq<char> {
    match op {
        LogicalOp::And => "&&"@,
        LogicalOp::Or => "||"@,
    }
}

/// How a comparison operator renders.
pub open spec fn print_comparison_op(op: ComparisonOp) -> Seq<char> {
    match op {
        ComparisonOp::LessThan => "<"@,
        ComparisonOp::LessThanOrEqual => "<="@,
        ComparisonOp::GreaterThan => ">"@,
        ComparisonOp::GreaterThanOrEqual => ">="@,
        ComparisonOp::Equals => "=="@,
        ComparisonOp::NotEquals => "!="@,
        ComparisonOp::In => "in"@,
    }
}

/// How a unary operator renders.
pub open spec fn print_unary_op(op: UnaryOp) -> Seq<char> {
    match op {
        UnaryOp::Not => "!"@,
        UnaryOp::Negative => "-"@,
    }
}

/// How an identifier renders: its name, either kind.
pub open spec fn print_ident(id: IdentModel) -> Seq<char> {
    match id {
        IdentModel::Variable(s) => s,
        IdentModel::Keyword(s) => s,
    }
}

/// How a literal renders: decimal integers, `true`/`false`, and quoted
/// strings. A string holding a single quote is double-quoted, else single-
/// quoted, so the quote never ends the literal early. (A lexed string never
/// holds its own delimiter, hence never both kinds of quote.)
pub open spec fn print_literal(lit: LiteralModel) -> Seq<char> {
    match lit {
        LiteralModel::Int(i) => print_int(i as int),
        LiteralModel::Bool(b) => if b {
            "true"@
        } else {
            "false"@
        },
        LiteralModel::Str(s) => if s.contains('\'') {
            "\""@ + s + "\""@
        } else {
            "'"@ + s + "'"@
        },
    }
}

/// How an access operator renders.
pub open spec fn print_access_op(op: AccessOpModel) -> Seq<char> {
    match op {
        AccessOpModel::Field(id) => "."@ + print_ident(id),
        AccessOpModel::Index(i) => "["@ + print_nat(i as nat) + "]"@,
        AccessOpModel::Slice(a, b) => "["@ + print_nat(a as nat) + ".."@ + print_nat(b as nat)
            + "]"@,
    }
}

/// How tightly an expression binds: `||` loosest, then `&&`, comparisons,
/// unary operators, the postfix chain, and primaries tightest.
pub open spec fn level_of(e: ExprModel) -> int {
    match e {
        ExprModel::Logical(_, op, _) => match op {
            LogicalOp::Or => 1,
            LogicalOp::And => 2,
        },
        ExprModel::Comparison(_, _, _) => 3,
        ExprModel::Unary(_, _) => 4,
        ExprModel::Access(_, _) => 5,
        ExprModel::Function(_) => 5,
        ExprModel::List(_) => 6,
        ExprModel::Literal(_) => 6,
        ExprModel::Ident(_) => 6,
    }
}

/// How an expression renders back to surface syntax. An operand that binds
/// no tighter than its context is parenthesized, and a unary `-` is kept
/// apart from its operand, so that re-parsing neither regroups operators
/// nor folds the `-` into an integer literal.
pub open spec fn print_expr(e: ExprModel) -> Seq<char>
    decreases e, 0int,
{
    match e {
        ExprModel::Logical(l, op, r) => {
            let lm = if op is And {
                2int
            } else {
                1int
            };
            print_operand(*l, lm) + " "@ + print_logical_op(op) + " "@ + print_operand(*r, lm + 1)
        },
        ExprModel::Function(f) => print_function_op(f),
        ExprModel::Comparison(l, op, r) => print_operand(*l, 4) + " "@ + print_comparison_op(op)
            + " "@ + print_operand(*r, 4),
        ExprModel::Unary(op, inner) => print_unary_op(op) + (if op is Negative {
            " "@
        } else {
            ""@
        }) + print_operand(*inner, 4),
        ExprModel::Access(inner, op) => print_operand(*inner, 5) + print_access_op(op),
        ExprModel::List(items) => "["@ + print_items(items) + "]"@,
        ExprModel::Literal(lit) => print_literal(lit),
        ExprModel::Ident(id) => print_ident(id),
    }
}

/// How an operand renders in a context that admits nothing looser than
/// `min`: parenthesized where it binds too loosely.
pub open spec fn print_operand(e: ExprModel, min: int) -> Seq<char>
    decreases e, 1int,
{
    if level_of(e) >= min {
        print_expr(e)
    } else {
        "("@ + print_expr(e) + ")"@
    }
}

/// How the elements of a list literal render: comma-separated.
pub open spec fn print_items(items: Seq<ExprModel>) -> Seq<char>
    decreases items, 0int,
{
    if items.len() == 0 {
        Seq::<char>::empty()
    } else if items.len() == 1 {
        print_expr(items[0])
    } else {
        print_items(items.drop_last()) + ", "@ + print_expr(items.last())
    }
}

/// How a function operator renders.
pub open spec fn print_function_op(f: FunctionOpModel) -> Seq<char>
    decreases f, 0int,
{
    match f {
        FunctionOpModel::All(recv, v, p) => print_operand(*recv, 5) + ".all("@ + print_ident(v)
            + ", "@ + print_expr(*p) + ")"@,
        FunctionOpModel::Any(recv, v, p) => print_operand(*recv, 5) + ".any("@ + print_ident(v)
            + ", "@ + print_expr(*p) + ")"@,
        FunctionOpModel::Contains(recv, lit) => print_operand(*recv, 5) + ".contains("@
            + print_literal(lit) + ")"@,
        FunctionOpModel::Count(recv) => print_operand(*recv, 5) + ".count()"@,
        FunctionOpModel::Filter(recv, v, p) => print_operand(*recv, 5) + ".filter("@
            + print_ident(v) + ", "@ + print_expr(*p) + ")"@,
    }
}

/// One decimal digit rendered as text.
fn digit_str(d: u128) -> (r: String)
    requires
        d < 10,
    ensures
        r@ == digit_seq(d as nat),
{
    if d == 0 {
        String::from_str("0")
    } else if d == 1 {
        String::from_str("1")
    } else if d == 2 {
        String::from_str("2")
    } else if d == 3 {
        String::from_str("3")
    } else if d == 4 {
        String::from_str("4")
    } else if d == 5 {
        String::from_str("5")
    } else if d == 6 {
        String::from_str("6")
    } else if d == 7 {
        String::from_str("7")
    } else if d == 8 {
        String::from_str("8")
    } else {
        String::from_str("9")
    }
}

/// Renders a natural number in decimal.
fn nat_to_string(n: u128) -> (r: String)
    ensures
        r@ == print_nat(n as nat),
    decreases n,
{
    if n < 10 {
        digit_str(n)
    } else {
        nat_to_string(n / 10).concat(digit_str(n % 10).as_str())
    }
}

/// Renders a signed integer in decimal.
fn int_to_string(i: i128) -> (r: String)
    ensures
        r@ == print_int(i as int),
{
    if i >= 0 {
        nat_to_string(i as u128)
    } else if i == i128::MIN {
        proof {
            assert(170141183460469231731687303715884105728u128 as nat == (-(i as int)) as nat);
        }
        String::from_str("-").concat(
            nat_to_string(170141183460469231731687303715884105728u128).as_str(),
        )
    } else {
        String::from_str("-").concat(nat_to_string((-i) as u128).as_str())
    }
}

impl LogicalOp {
    /// Renders this operator as text.
    pub fn display(&self) -> (r: String)
        ensures
            r@ == print_logical_op(*self),
    {
        match self {
            LogicalOp::And => String::from_str("&&"),
            LogicalOp::Or => String::from_str("||"),
        }
    }
}

impl ComparisonOp {
    /// Renders this operator as text.
    pub fn display(&self) -> (r: String)
        ensures
            r@ == print_comparison_op(*self),
    {
        match self {
            ComparisonOp::LessThan => String::from_str("<"),
            ComparisonOp::LessThanOrEqual => String::from_str("<="),
            ComparisonOp::GreaterThan => String::from_str(">"),
            ComparisonOp::GreaterThanOrEqual => String::from_str(">="),
            ComparisonOp::Equals => String::from_str("=="),
            ComparisonOp::NotEquals => String::from_str("!="),
            ComparisonOp::In => String::from_str("in"),
        }
    }
}

impl UnaryOp {
    /// Renders this operator as text.
    pub fn display(&self) -> (r: String)
        ensures
            r@ == print_unary_op(*self),
    {
        match self {
            UnaryOp::Not => String::from_str("!"),
            UnaryOp::Negative => String::from_str("-"),
        }
    }
}

impl Ident {
    /// Renders this identifier as text: its bare name.
    pub fn display(&self) -> (r: String)
        ensures
            r@ == print_ident(self.model()),
    {
        match self {
            Ident::Variable(v) => v.clone(),
            Ident::Keyword(k) => k.clone(),
        }
    }
}

/// Whether the text holds the given character.
fn str_contains_char(s: &str, c: char) -> (r: bool)
    ensures
        r == s@.contains(c),
{
    let n = s.unicode_len();
    let mut i: usize = 0;
    while i < n
        invariant
            n == s@.len(),
            i <= n,
            forall|k: int| 0 <= k < i ==> s@[k] != c,
        decreases n - i,
    {
        if s.get_char(i) == c {
            proof {
                assert(s@.contains(c)) by {
                    assert(s@[i as int] == c);
                }
            }
            return true;
        }
        i = i + 1;
    }
    false
}

impl Literal {
    /// Renders this literal as text.
    pub fn display(&self) -> (r: String)
        ensures
            r@ == print_literal(self.model()),
    {
        match self {
            Literal::Int(i) => int_to_string(*i),
            Literal::Bool(b) => if *b {
                String::from_str("true")
            } else {
                String::from_str("false")
            },
            Literal::String(s) => if str_contains_char(s.as_str(), '\'') {
                String::from_str("\"").concat(s.as_str()).concat("\"")
            } else {
                String::from_str("'").concat(s.as_str()).concat("'")
            },
        }
    }
}

impl AccessOp {
    /// Renders this access operator as text.
    pub fn display(&self) -> (r: String)
        ensures
            r@ == print_access_op(self.model()),
    {
        match self {
            AccessOp::Field(id) => String::from_str(".").concat(id.display().as_str()),
            AccessOp::Index(i) => String::from_str("[").concat(
                nat_to_string(*i as u128).as_str(),
            ).concat("]"),
            AccessOp::Slice(a, b) => String::from_str("[").concat(
                nat_to_string(*a as u128).as_str(),
            ).concat("..").concat(nat_to_string(*b as u128).as_str()).concat("]"),
        }
    }
}

impl Expr {
    /// Renders this expression back to surface syntax.
    #[verifier::rlimit(50)]
    pub fn display(&self) -> (r: String)
        ensures
            r@ == print_expr(self.model()),
        decreases *self, 1int, 0int,
    {
        match self {
            Expr::Logical(lhs, op, rhs) => {
                let lm: u8 = if matches!(op, LogicalOp::And) {
                    2
                } else {
                    1
                };
                display_operand(lhs, lm).concat(" ").concat(op.display().as_str()).concat(
                    " ",
                ).concat(display_operand(rhs, lm + 1).as_str())
            },
            Expr::Function(f) => f.display(),
            Expr::Comparison(lhs, op, rhs) => display_operand(lhs, 4).concat(" ").concat(
                op.display().as_str(),
            ).concat(" ").concat(display_operand(rhs, 4).as_str()),
            Expr::Unary(op, inner) => {
                let sep: &str = if matches!(op, UnaryOp::Negative) {
                    " "
                } else {
                    ""
                };
                op.display().concat(sep).concat(display_operand(inner, 4).as_str())
            },
            Expr::Access(inner, op) => display_operand(inner, 5).concat(op.display().as_str()),
            Expr::List(items) => {
                let inner = display_items(items, items.len());
                proof {
                    assert(models_of(items@).subrange(0, items@.len() as int) =~= models_of(
                        items@,
                    ));
                }
                String::from_str("[").concat(inner.as_str()).concat("]")
            },
            Expr::Literal(lit) => lit.display(),
            Expr::Ident(id) => id.display(),
        }
    }
}

/// How tightly an expression binds; mirrors `level_of`.
fn expr_level(e: &Expr) -> (r: u8)
    ensures
        r as int == level_of(e.model()),
{
    match e {
        Expr::Logical(_, op, _) => match op {
            LogicalOp::Or => 1,
            LogicalOp::And => 2,
        },
        Expr::Comparison(_, _, _) => 3,
        Expr::Unary(_, _) => 4,
        Expr::Access(_, _) => 5,
        Expr::Function(_) => 5,
        Expr::List(_) => 6,
        Expr::Literal(_) => 6,
        Expr::Ident(_) => 6,
    }
}

/// Renders an operand, parenthesized where it binds too loosely; mirrors
/// `print_operand`.
fn display_operand(e: &Expr, min: u8) -> (r: String)
    ensures
        r@ == print_operand(e.model(), min as int),
    decreases *e, 2int, 0int,
{
    let lv = expr_level(e);
    if lv >= min {
        e.display()
    } else {
        String::from_str("(").concat(e.display().as_str()).concat(")")
    }
}

/// Renders the first `k` elements of a list literal, comma-separated.
fn display_items(items: &Vec<Box<Expr>>, k: usize) -> (r: String)
    requires
        k <= items@.len(),
    ensures
        r@ == print_items(models_of(items@).subrange(0, k as int)),
    decreases *items, 0int, k,
{
    let ghost full = models_of(items@);
    if k == 0 {
        proof {
            assert(full.subrange(0, 0) =~= Seq::<ExprModel>::empty());
        }
        String::new()
    } else if k == 1 {
        proof {
            assert(full.subrange(0, 1).len() == 1);
            assert(full.subrange(0, 1)[0] == items[0].model());
        }
        items[0].display()
    } else {
        let head = display_items(items, k - 1);
        proof {
            assert(full.subrange(0, k as int).drop_last() =~= full.subrange(0, k as int - 1));
            assert(full.subrange(0, k as int).last() == items[k - 1].model());
        }
        head.concat(", ").concat(items[k - 1].display().as_str())
    }
}

impl FunctionOp {
    /// Renders this function operator as text.
    pub fn display(&self) -> (r: String)
        ensures
            r@ == print_function_op(self.model()),
        decreases *self, 1int, 0int,
    {
        match self {
            FunctionOp::All(recv, v, p) => display_operand(recv, 5).concat(".all(").concat(
                v.display().as_str(),
            ).concat(", ").concat(p.display().as_str()).concat(")"),
            FunctionOp::Any(recv, v, p) => display_operand(recv, 5).concat(".any(").concat(
                v.display().as_str(),
            ).concat(", ").concat(p.display().as_str()).concat(")"),
            FunctionOp::Contains(recv, lit) => display_operand(recv, 5).concat(
                ".contains(",
            ).concat(lit.display().as_str()).concat(")"),
            FunctionOp::Count(recv) => display_operand(recv, 5).concat(".count()"),
            FunctionOp::Filter(recv, v, p) => display_operand(recv, 5).concat(".filter(").concat(
                v.display().as_str(),
            ).concat(", ").concat(p.display().as_str()).concat(")"),
        }
    }
}

/// A copy of a literal, equal to the one given.
fn copy_literal(lit: &Literal) -> (r: Literal)
    ensures
        r == *lit,
{
    match lit {
        Literal::Int(v) => Literal::Int(*v),
        Literal::Bool(b) => Literal::Bool(*b),
        Literal::String(s) => Literal::String(s.clone()),
    }
}

/// A copy of an identifier, equal to the one given.
fn copy_ident(id: &Ident) -> (r: Ident)
    ensures
        r == *id,
{
    match id {
        Ident::Variable(s) => Ident::Variable(s.clone()),
        Ident::Keyword(s) => Ident::Keyword(s.clone()),
    }
}

/// A copy of an access operator, equal to the one given.
fn copy_access_op(op: &AccessOp) -> (r: AccessOp)
    ensures
        r == *op,
{
    match op {
        AccessOp::Field(id) => AccessOp::Field(copy_ident(id)),
        AccessOp::Index(i) => AccessOp::Index(*i),
        AccessOp::Slice(a, b) => AccessOp::Slice(*a, *b),
    }
}

impl Clone for Expr {
    /// A deep copy: its model is the model of the original.
    fn clone(&self) -> (r: Self)
        ensures
            r.model() == self.model(),
        decreases *self, 1int, 0int,
    {
        match self {
            Expr::Logical(lhs, op, rhs) => Expr::Logical(
                Box::new((&**lhs).clone()),
                match op {
                    LogicalOp::And => LogicalOp::And,
                    LogicalOp::Or => LogicalOp::Or,
                },
                Box::new((&**rhs).clone()),
            ),
            Expr::Function(f) => Expr::Function(f.clone()),
            Expr::Comparison(lhs, op, rhs) => Expr::Comparison(
                Box::new((&**lhs).clone()),
                match op {
                    ComparisonOp::LessThan => ComparisonOp::LessThan,
                    ComparisonOp::LessThanOrEqual => ComparisonOp::LessThanOrEqual,
                    ComparisonOp::GreaterThan => ComparisonOp::GreaterThan,
                    ComparisonOp::GreaterThanOrEqual => ComparisonOp::GreaterThanOrEqual,
                    ComparisonOp::Equals => ComparisonOp::Equals,
                    ComparisonOp::NotEquals => ComparisonOp::NotEquals,
                    ComparisonOp::In => ComparisonOp::In,
                },
                Box::new((&**rhs).clone()),
            ),
            Expr::Unary(op, inner) => Expr::Unary(
                match op {
                    UnaryOp::Not => UnaryOp::Not,
                    UnaryOp::Negative => UnaryOp::Negative,
                },
                Box::new((&**inner).clone()),
            ),
            Expr::Access(inner, op) => Expr::Access(
                Box::new((&**inner).clone()),
                copy_access_op(op),
            ),
            Expr::List(items) => Expr::List(clone_items(items)),
            Expr::Literal(lit) => Expr::Literal(copy_literal(lit)),
            Expr::Ident(id) => Expr::Ident(copy_ident(id)),
        }
    }
}

/// Deep copies of a list's elements: their models are the originals'.
fn clone_items(items: &Vec<Box<Expr>>) -> (r: Vec<Box<Expr>>)
    ensures
        models_of(r@) == models_of(items@),
    decreases *items, 0int, 0int,
{
    let mut out: Vec<Box<Expr>> = Vec::new();
    let mut k: usize = 0;
    while k < items.len()
        invariant
            k <= items@.len(),
            models_of(out@) == models_of(items@).subrange(0, k as int),
        decreases items@.len() - k,
    {
        let ghost prev = out@;
        let copied = (&*items[k]).clone();
        proof {
            assert(copied.model() == items[k as int].model());
        }
        out.push(Box::new(copied));
        proof {
            assert(models_of(out@) =~= models_of(prev).push(out@.last().model()));
            assert(models_of(items@).subrange(0, k + 1) =~= models_of(items@).subrange(
                0,
                k as int,
            ).push(models_of(items@)[k as int]));
        }
        k = k + 1;
    }
    proof {
        assert(models_of(items@).subrange(0, items@.len() as int) =~= models_of(items@));
    }
    out
}

impl Clone for FunctionOp {
    /// A deep copy: its model is the model of the original.
    fn clone(&self) -> (r: Self)
        ensures
            r.model() == self.model(),
        decreases *self, 1int, 0int,
    {
        match self {
            FunctionOp::All(recv, v, p) => FunctionOp::All(
                Box::new((&**recv).clone()),
                copy_ident(v),
                Box::new((&**p).clone()),
            ),
            FunctionOp::Any(recv, v, p) => FunctionOp::Any(
                Box::new((&**recv).clone()),
                copy_ident(v),
                Box::new((&**p).clone()),
            ),
            FunctionOp::Contains(recv, lit) => FunctionOp::Contains(
                Box::new((&**recv).clone()),
                copy_literal(lit),
            ),
            FunctionOp::Count(recv) => FunctionOp::Count(Box::new((&**recv).clone())),
            FunctionOp::Filter(recv, v, p) => FunctionOp::Filter(
                Box::new((&**recv).clone()),
                copy_ident(v),
                Box::new((&**p).clone()),
            ),
        }
    }
}

} // verus!
