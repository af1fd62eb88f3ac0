use butter::doc::render;
use butter::expr::{
    Arg, Assign, Binary, Block, Bound, Call, Collection, ControlFlow, Element, Expr, ExprKind, Field,
    FieldAccess, If, Jump, Literal, Match, PlaceExpr, Range, Statement, Tag, Unary, WithSplat,
};
use butter::expr_parser::statement;
use butter::operator::{BinaryType, BoundType, ElementKind, UnaryType};
use butter::pattern::{PatternKind, Var};

fn var_place(var: &str) -> PlaceExpr<()> {
    PlaceExpr::Var(String::from(var))
}

fn var_expr(var: &str) -> Expr<()> {
    ExprKind::Place(var_place(var)).into_untyped()
}

fn binary(kind: BinaryType, left: Expr<()>, right: Expr<()>) -> Expr<()> {
    ExprKind::Binary(Binary { kind, left: Box::new(left), right: Box::new(right) }).into_untyped()
}

fn show(expr: &Expr<()>, width: usize) -> String {
    render(&expr.to_doc(), width)
}

#[test]
fn binary_brackets_follow_precedence() {
    let tight = binary(
        BinaryType::Add,
        var_expr("foo"),
        binary(BinaryType::Multiply, var_expr("bar"), var_expr("baz")),
    );
    assert_eq!(show(&tight, 80), "foo + bar * baz");
    let loose = binary(
        BinaryType::Multiply,
        binary(BinaryType::Add, var_expr("foo"), var_expr("bar")),
        var_expr("baz"),
    );
    assert_eq!(show(&loose, 80), "(foo + bar) * baz");
}

#[test]
fn unary_and_literals_printed() {
    let not = ExprKind::Unary(Unary { kind: UnaryType::Not, expr: Box::new(var_expr("foo")) });
    assert_eq!(show(&not.into_untyped(), 80), "not foo");
    let minus = ExprKind::Unary(Unary { kind: UnaryType::Minus, expr: Box::new(var_expr("foo")) });
    assert_eq!(show(&minus.into_untyped(), 80), "-foo");
    assert_eq!(show(&ExprKind::Literal(Literal::UInt(10)).into_untyped(), 80), "10");
    assert_eq!(show(&ExprKind::Literal(Literal::True).into_untyped(), 80), "true");
    assert_eq!(show(&ExprKind::Unit.into_untyped(), 80), "()");
}

#[test]
fn tuples_break_when_narrow() {
    let tuple =
        ExprKind::Tuple(Collection::Collection(vec![var_expr("foo"), var_expr("bar")])).into_untyped();
    assert_eq!(show(&tuple, 80), "(foo, bar,)");
    assert_eq!(show(&tuple, 4), "(\n    foo,\n    bar,\n)");
}

#[test]
fn assignments_printed() {
    let single = ExprKind::Assign(vec![Assign { place: var_place("foo"), expr: var_expr("bar") }]);
    assert_eq!(show(&single.into_untyped(), 80), "foo <- bar");
    let parallel = ExprKind::Assign(vec![
        Assign { place: var_place("foo"), expr: var_expr("bar") },
        Assign { place: var_place("bar"), expr: var_expr("foo") },
    ]);
    assert_eq!(show(&parallel.into_untyped(), 80), "foo, bar, <- bar, foo,");
}

#[test]
fn places_and_calls_printed() {
    let field = ExprKind::Place(PlaceExpr::FieldAccess(FieldAccess {
        expr: Box::new(var_expr("foo")),
        name: "bar".to_string(),
    }));
    assert_eq!(show(&field.into_untyped(), 80), "foo.bar");
    let len = ExprKind::Place(PlaceExpr::Len(Box::new(var_expr("foo"))));
    assert_eq!(show(&len.into_untyped(), 80), "foo.len");
    let deref = ExprKind::Place(PlaceExpr::Deref(Box::new(var_expr("foo"))));
    assert_eq!(show(&deref.into_untyped(), 80), "foo^");
    let call = ExprKind::Call(Call { expr: Box::new(var_expr("foo")), arg: Arg::Unit });
    assert_eq!(show(&call.into_untyped(), 80), "foo()");
}

#[test]
fn ranges_jumps_and_tags_printed() {
    let range = ExprKind::ArrayRange(Range {
        left: Some(Bound { kind: BoundType::Inclusive, expr: Box::new(var_expr("foo")) }),
        right: Some(Bound { kind: BoundType::Exclusive, expr: Box::new(var_expr("bar")) }),
    });
    assert_eq!(show(&range.into_untyped(), 80), "[foo .< bar]");
    let open = ExprKind::ArrayRange(Range { left: None, right: None });
    assert_eq!(show(&open.into_untyped(), 80), "[..]");
    assert_eq!(show(&ExprKind::Jump(Jump::Break(None)).into_untyped(), 80), "break");
    let ret = ExprKind::Jump(Jump::Return(Some(Box::new(var_expr("foo")))));
    assert_eq!(show(&ret.into_untyped(), 80), "return foo");
    let tag = ExprKind::Tag(Tag { tag: "some".to_string(), expr: Some(Box::new(var_expr("foo"))) });
    assert_eq!(show(&tag.into_untyped(), 80), "@some (foo)");
}

#[test]
fn control_flow_printed() {
    let block = Block {
        statement: vec![Statement::Expr(var_expr("foo"))],
        expr: Some(Box::new(var_expr("bar"))),
    };
    let block_expr = ExprKind::ControlFlow(ControlFlow::Block(block)).into_untyped();
    assert_eq!(show(&block_expr, 80), "{foo; bar}");
    let empty = Block { statement: vec![], expr: None };
    assert_eq!(render(&empty.to_doc(), 80), "{}");
    let if_expr = ExprKind::ControlFlow(ControlFlow::If(If {
        condition: Box::new(var_expr("foo")),
        body: Block { statement: vec![], expr: Some(Box::new(var_expr("bar"))) },
        else_part: None,
    }));
    assert_eq!(show(&if_expr.into_untyped(), 80), "if foo {bar}");
    let match_expr =
        ExprKind::ControlFlow(ControlFlow::Match(Match { expr: Box::new(var_expr("foo")), arm: vec![] }));
    assert_eq!(show(&match_expr.into_untyped(), 80), "match foo {}");
}

#[test]
fn statements_printed() {
    let (parsed, rest) = statement("foo <- 10;").unwrap();
    assert_eq!(rest, "");
    assert_eq!(render(&parsed.to_doc(), 80), "foo <- 10");
    let pattern = PatternKind::<()>::Var(Var { ident: "x".to_string(), mutable: true, bind_to_ref: false })
        .into_untyped();
    assert_eq!(render(&pattern.to_doc(), 80), "mut &<x");
}

#[test]
fn records_and_arrays_printed() {
    let record = ExprKind::Record(Collection::WithSplat(WithSplat {
        left: vec![Field { name: "x".to_string(), expr: var_expr("foo") }],
        splat: Box::new(var_expr("bar")),
        right: vec![],
    }));
    assert_eq!(show(&record.into_untyped(), 80), "(x = foo, *bar,)");
    let array = ExprKind::Array(vec![
        Element { expr: var_expr("foo"), kind: ElementKind::Element },
        Element { expr: var_expr("bar"), kind: ElementKind::Splat },
    ]);
    assert_eq!(show(&array.into_untyped(), 80), "[foo, *bar,]");
}
