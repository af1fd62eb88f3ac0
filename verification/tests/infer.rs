use butter::expr::{
    Binary, Bound, Collection, Element, Expr, ExprKind, FieldAccess, Jump, Literal, PlaceExpr, Range, Slice, Tag, Unary,
};
use butter::expr_parser::expr_parser;
use butter::operator::{BinaryType, BoundType, ElementKind, UnaryType};
use butter::ty::cons::{Cons, Keyed, OrderedAnd};
use butter::ty::infer::test_infer;
use butter::ty::scheme::{Env, Scheme, SchemeMut};
use butter::ty::{Kind, KindedVar, MutType, Subs, Type, TypeError, Var, VarState};

fn num() -> Type {
    Type::Cons(Cons::Num)
}

fn boolean() -> Type {
    Type::Cons(Cons::Bool)
}

fn literal(l: Literal) -> Expr<()> {
    ExprKind::Literal(l).into_untyped()
}

fn binary(kind: BinaryType, left: Expr<()>, right: Expr<()>) -> Expr<()> {
    ExprKind::Binary(Binary { kind, left: Box::new(left), right: Box::new(right) }).into_untyped()
}

fn unary(kind: UnaryType, expr: Expr<()>) -> Expr<()> {
    ExprKind::Unary(Unary { kind, expr: Box::new(expr) }).into_untyped()
}

#[test]
fn literals_inferred() {
    assert_eq!(test_infer(literal(Literal::UInt(10))), Ok(num()));
    assert_eq!(test_infer(literal(Literal::True)), Ok(boolean()));
}

#[test]
fn arithmetic_and_comparison_inferred() {
    let sum = binary(BinaryType::Add, literal(Literal::UInt(1)), literal(Literal::UInt(2)));
    assert_eq!(test_infer(sum), Ok(num()));
    let less = binary(BinaryType::Less, literal(Literal::UInt(1)), literal(Literal::UInt(2)));
    assert_eq!(test_infer(less), Ok(boolean()));
    let both = binary(
        BinaryType::And,
        binary(BinaryType::Less, literal(Literal::UInt(1)), literal(Literal::UInt(2))),
        literal(Literal::True),
    );
    assert_eq!(test_infer(both), Ok(boolean()));
}

#[test]
fn mismatches_refused() {
    let wrong = binary(BinaryType::Add, literal(Literal::UInt(1)), literal(Literal::True));
    assert_eq!(test_infer(wrong), Err(TypeError::MismatchCons));
    assert_eq!(test_infer(unary(UnaryType::Not, literal(Literal::UInt(1)))), Err(TypeError::MismatchCons));
}

#[test]
fn unary_operators_inferred() {
    assert_eq!(test_infer(unary(UnaryType::Minus, literal(Literal::UInt(1)))), Ok(num()));
    assert_eq!(test_infer(unary(UnaryType::Not, literal(Literal::False))), Ok(boolean()));
    assert_eq!(test_infer(unary(UnaryType::Move, literal(Literal::UInt(1)))), Ok(num()));
    let reference = Type::Cons(Cons::Ref(
        MutType::Var(Var { name: String::new(), id: 1 }),
        Box::new(num()),
    ));
    assert_eq!(test_infer(unary(UnaryType::Ref, literal(Literal::UInt(1)))), Ok(reference));
}

#[test]
fn unbound_variables_refused() {
    let var = ExprKind::Place(PlaceExpr::Var("foo".to_string())).into_untyped();
    assert_eq!(test_infer(var), Err(TypeError::UnboundVar));
    let parsed = expr_parser("foo + 1").unwrap();
    assert_eq!(test_infer(parsed), Err(TypeError::UnboundVar));
}

#[test]
fn places_inferred() {
    let len = ExprKind::Place(PlaceExpr::Len(Box::new(literal(Literal::UInt(1))))).into_untyped();
    assert_eq!(test_infer(len), Err(TypeError::MismatchCons));
    let field = ExprKind::Place(PlaceExpr::FieldAccess(FieldAccess {
        expr: Box::new(literal(Literal::UInt(1))),
        name: "x".to_string(),
    }))
    .into_untyped();
    assert_eq!(test_infer(field), Err(TypeError::MismatchCons));
}

fn range(left: u64, right: u64) -> Range<()> {
    Range {
        left: Some(Bound { kind: BoundType::Inclusive, expr: Box::new(literal(Literal::UInt(left))) }),
        right: Some(Bound { kind: BoundType::Exclusive, expr: Box::new(literal(Literal::UInt(right))) }),
    }
}

#[test]
fn units_ranges_and_slices_inferred() {
    let unit = Type::Cons(Cons::RecordTuple(OrderedAnd::NonRow(vec![])));
    assert_eq!(test_infer(ExprKind::Unit.into_untyped()), Ok(unit));
    let numbers = Type::Cons(Cons::Array(Box::new(num())));
    assert_eq!(test_infer(ExprKind::ArrayRange(range(1, 2)).into_untyped()), Ok(numbers.clone()));
    let slice = ExprKind::Place(PlaceExpr::Slice(Slice {
        expr: Box::new(ExprKind::ArrayRange(range(1, 5)).into_untyped()),
        range: Range { left: None, right: None },
    }));
    assert_eq!(test_infer(slice.into_untyped()), Ok(numbers));
    let bad_range = ExprKind::ArrayRange(Range {
        left: Some(Bound { kind: BoundType::Inclusive, expr: Box::new(literal(Literal::True)) }),
        right: None,
    });
    assert_eq!(test_infer(bad_range.into_untyped()), Err(TypeError::MismatchCons));
}

#[test]
fn tags_inferred() {
    let tag = ExprKind::Tag(Tag {
        tag: "some".to_string(),
        expr: Some(Box::new(literal(Literal::UInt(1)))),
    });
    let union = Type::Cons(Cons::Union(Keyed {
        fields: vec![("some".to_string(), num())],
        rest: Some(Var { name: String::new(), id: 1 }),
    }));
    assert_eq!(test_infer(tag.into_untyped()), Ok(union));
}

fn element(expr: Expr<()>) -> Element<()> {
    Element { expr, kind: ElementKind::Element }
}

#[test]
fn arrays_inferred() {
    let numbers = Type::Cons(Cons::Array(Box::new(num())));
    let array = ExprKind::Array(vec![element(literal(Literal::UInt(1))), element(literal(Literal::UInt(2)))]);
    assert_eq!(test_infer(array.into_untyped()), Ok(numbers.clone()));
    let spread = ExprKind::Array(vec![
        element(literal(Literal::UInt(1))),
        Element { expr: ExprKind::ArrayRange(range(2, 4)).into_untyped(), kind: ElementKind::Splat },
    ]);
    assert_eq!(test_infer(spread.into_untyped()), Ok(numbers));
    let mixed = ExprKind::Array(vec![element(literal(Literal::UInt(1))), element(literal(Literal::True))]);
    assert_eq!(test_infer(mixed.into_untyped()), Err(TypeError::MismatchCons));
    let empty = ExprKind::Array(vec![]);
    let open = Type::Cons(Cons::Array(Box::new(Type::Var(Var { name: String::new(), id: 1 }))));
    assert_eq!(test_infer(empty.into_untyped()), Ok(open));
}

fn bound_env(name: &str, scheme: Scheme) -> Env {
    let mut env = Env::new();
    env.insert(Var { name: name.to_string(), id: 0 }, SchemeMut { is_mut: false, scheme });
    env
}

fn place(name: &str) -> Expr<()> {
    ExprKind::Place(PlaceExpr::Var(name.to_string())).into_untyped()
}

#[test]
fn bound_variables_instantiated() {
    let env = bound_env("n", Scheme { for_all: vec![], ty: num() });
    let sum = binary(BinaryType::Add, place("n"), literal(Literal::UInt(1)));
    let typed = sum.infer(&mut Subs::new(), &mut VarState::new(), &env).unwrap();
    assert_eq!(typed.ty, num());
    let a = Var { name: "a".to_string(), id: 0 };
    let identity = Scheme {
        for_all: vec![KindedVar::new(Kind::Type, a.clone())],
        ty: Type::Cons(Cons::Fun(Box::new(Type::Var(a.clone())), Box::new(Type::Var(a)))),
    };
    let env = bound_env("id", identity);
    let typed = place("id").infer(&mut Subs::new(), &mut VarState::new(), &env).unwrap();
    let fresh = Var { name: "a".to_string(), id: 1 };
    let instance = Type::Cons(Cons::Fun(Box::new(Type::Var(fresh.clone())), Box::new(Type::Var(fresh))));
    assert_eq!(typed.ty, instance);
}

#[test]
fn returns_and_spreads_inferred() {
    let env = bound_env("return", Scheme { for_all: vec![], ty: num() });
    let ret = ExprKind::Jump(Jump::Return(Some(Box::new(literal(Literal::UInt(1)))))).into_untyped();
    let typed = ret.infer(&mut Subs::new(), &mut VarState::new(), &env).unwrap();
    assert_eq!(typed.ty, Type::Var(Var { name: String::new(), id: 1 }));
    let wrong = ExprKind::Jump(Jump::Return(Some(Box::new(literal(Literal::True))))).into_untyped();
    assert_eq!(wrong.infer(&mut Subs::new(), &mut VarState::new(), &env).err(), Some(TypeError::MismatchCons));
    let unbound = ExprKind::Jump(Jump::Return(None)).into_untyped();
    assert_eq!(test_infer(unbound), Err(TypeError::UnboundVar));
}

#[test]
fn tuples_inferred() {
    let tuple = ExprKind::Tuple(Collection::Collection(vec![
        literal(Literal::UInt(1)),
        literal(Literal::True),
    ]));
    let expected = Type::Cons(Cons::Tuple(OrderedAnd::NonRow(vec![num(), boolean()])));
    assert_eq!(test_infer(tuple.into_untyped()), Ok(expected));
    let wrong = ExprKind::Tuple(Collection::Collection(vec![
        unary(UnaryType::Not, literal(Literal::UInt(1))),
    ]));
    assert_eq!(test_infer(wrong.into_untyped()), Err(TypeError::MismatchCons));
}
