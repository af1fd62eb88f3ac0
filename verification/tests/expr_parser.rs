use butter::expr::{
    Arg, Assign, Binary, Bound, Call, Collection, Element, Expr, ExprKind, Field, FieldAccess,
    Index, Jump, Literal, PlaceExpr, Range, Tag, Unary, WithSplat,
};
use butter::expr_parser::{char_literal, expr, expr_parser, float, string_literal, ParseError};
use butter::lexeme::insignificants;
use butter::operator::{BinaryType, BoundType, ElementKind, UnaryType};

fn var_place(var: &str) -> PlaceExpr<()> {
    PlaceExpr::Var(String::from(var))
}

fn var_expr(var: &str) -> Expr<()> {
    ExprKind::Place(var_place(var)).into_untyped()
}

fn uint(n: u64) -> Expr<()> {
    ExprKind::Literal(Literal::UInt(n)).into_untyped()
}

fn binary(kind: BinaryType, left: Expr<()>, right: Expr<()>) -> Expr<()> {
    ExprKind::Binary(Binary { kind, left: Box::new(left), right: Box::new(right) }).into_untyped()
}

#[test]
fn expr_group() {
    let src = "(foo)";
    let expected = var_expr("foo");
    assert_eq!(expr(src, 0), Ok((expected, "")));
}

#[test]
fn expr_precedence() {
    let src = "foo + bar * baz";
    let expected = binary(
        BinaryType::Add,
        var_expr("foo"),
        binary(BinaryType::Multiply, var_expr("bar"), var_expr("baz")),
    );
    assert_eq!(expr(src, 0), Ok((expected, "")));
    let src = "foo * bar + baz";
    let expected = binary(
        BinaryType::Add,
        binary(BinaryType::Multiply, var_expr("foo"), var_expr("bar")),
        var_expr("baz"),
    );
    assert_eq!(expr(src, 0), Ok((expected, "")));
}

#[test]
fn expr_right_associative() {
    let src = "foo <- bar <- baz";
    let expected = ExprKind::Assign(vec![Assign {
        place: var_place("foo"),
        expr: ExprKind::Assign(vec![Assign { place: var_place("bar"), expr: var_expr("baz") }])
            .into_untyped(),
    }])
    .into_untyped();
    assert_eq!(expr(src, 0), Ok((expected, "")));
}

#[test]
fn expr_ignore_higher_precedence() {
    let src = "foo + bar";
    let expected = var_expr("foo");
    let left = "+ bar";
    assert_eq!(expr(src, 6), Ok((expected, left)));
}

#[test]
fn expr_ignore_range() {
    let src = "foo..";
    let expected = var_expr("foo");
    let left = "..";
    assert_eq!(expr(src, 0), Ok((expected, left)));
}

fn float_value(src: &str) -> f64 {
    let (text, _) = float(src).unwrap();
    text.parse().unwrap()
}

#[test]
fn float_not_float() {
    let src = "01234";
    assert!(float(src).is_err());
}

#[test]
fn float_float_0() {
    let src = "1.2";
    let expected = 1.2;
    let result = float_value(src);
    assert!((expected - result).abs() <= <f64>::EPSILON);
}

#[test]
fn float_float_1() {
    let src = "01.2e3";
    let expected = 1.2e3;
    let result = float_value(src);
    assert!((expected - result).abs() <= <f64>::EPSILON);
}

#[test]
fn float_float_2() {
    let src = "01.2e+3";
    let expected = 1.2e+3;
    let result = float_value(src);
    assert!((expected - result).abs() <= <f64>::EPSILON);
}

#[test]
fn float_float_3() {
    let src = "01.2e-3";
    let expected = 1.2e-3;
    let result = float_value(src);
    assert!((expected - result).abs() <= <f64>::EPSILON);
}

#[test]
fn number_not_float() {
    let src = "01234";
    assert!(float(src).is_err());
}

#[test]
fn number_float_0() {
    let src = "1.2";
    let expected = 1.2;
    let result = float_value(src);
    assert!((expected - result).abs() <= <f64>::EPSILON);
}

#[test]
fn number_float_1() {
    let src = "01.2e3";
    let expected = 1.2e3;
    let result = float_value(src);
    assert!((expected - result).abs() <= <f64>::EPSILON);
}

#[test]
fn number_float_2() {
    let src = "01.2e+3";
    let expected = 1.2e+3;
    let result = float_value(src);
    assert!((expected - result).abs() <= <f64>::EPSILON);
}

#[test]
fn number_float_3() {
    let src = "01.2e-3";
    let expected = 1.2e-3;
    let result = float_value(src);
    assert!((expected - result).abs() <= <f64>::EPSILON);
}

#[test]
fn string() {
    let src = r#""\x41Aßℝ💣\n""#;
    let expected: Vec<u8> = "\x41Aßℝ💣\n".into();
    assert_eq!(string_literal(src), Ok((expected, "")));
}

#[test]
fn insignificant() {
    assert_eq!(insignificants("  -- comment\n  -- more comment"), "");
}

#[test]
fn float_text_keeps_the_digits() {
    assert_eq!(float("1_0.2_5e-1_2 x"), Ok((String::from("010.250e-012"), " x")));
    assert_eq!(float(".5"), Ok((String::from("0.50e+0"), "")));
    assert_eq!(float("3e5"), Ok((String::from("03.0e+05"), "")));
}

#[test]
fn float_errors() {
    // A `.` must be followed by a digit to make a float.
    assert_eq!(float("1.x"), Err(ParseError));
    // An exponent needs digits.
    assert_eq!(float("1e"), Err(ParseError));
    // No letter may follow.
    assert_eq!(float("1.5a"), Err(ParseError));
}

#[test]
fn char_literals() {
    assert_eq!(char_literal("'a' rest"), Ok((97, " rest")));
    assert_eq!(char_literal(r"'\n'"), Ok((10, "")));
    assert_eq!(char_literal(r"'\x7f'"), Ok((127, "")));
    // A character beyond one byte is refused.
    assert_eq!(char_literal("'ß'"), Err(ParseError));
    assert_eq!(char_literal("''"), Err(ParseError));
}

#[test]
fn string_escapes() {
    assert_eq!(string_literal(r#""a\tb\0""#), Ok((vec![97, 9, 98, 0], "")));
    // An unknown escape and an unclosed literal are refused.
    assert_eq!(string_literal(r#""\q""#), Err(ParseError));
    assert_eq!(string_literal("\"abc"), Err(ParseError));
    assert_eq!(string_literal("\"a\nb\""), Err(ParseError));
}

#[test]
fn operator_levels() {
    let src = "a || b && c == d ++ e // f";
    let expected = binary(
        BinaryType::LazyOr,
        var_expr("a"),
        binary(
            BinaryType::LazyAnd,
            var_expr("b"),
            binary(
                BinaryType::Equal,
                var_expr("c"),
                binary(
                    BinaryType::Concatenate,
                    var_expr("d"),
                    binary(BinaryType::FloorDiv, var_expr("e"), var_expr("f")),
                ),
            ),
        ),
    );
    assert_eq!(expr(src, 0), Ok((expected, "")));
}

#[test]
fn left_associative() {
    let src = "a - b - c";
    let expected = binary(
        BinaryType::Sub,
        binary(BinaryType::Sub, var_expr("a"), var_expr("b")),
        var_expr("c"),
    );
    assert_eq!(expr(src, 0), Ok((expected, "")));
}

#[test]
fn comparison_does_not_take_an_arrow() {
    // `<` before `-` is the start of an assignment, not a comparison.
    let src = "a <- b";
    let expected = ExprKind::Assign(vec![Assign { place: var_place("a"), expr: var_expr("b") }])
        .into_untyped();
    assert_eq!(expr(src, 0), Ok((expected, "")));
    assert_eq!(expr(src, 1), Ok((var_expr("a"), "<- b")));
}

#[test]
fn assignment_needs_a_place() {
    assert_eq!(expr("1 <- b", 0), Err(ParseError));
}

#[test]
fn postfix_chain() {
    let src = "f(x).y[0]^";
    let call = ExprKind::Call(Call {
        expr: Box::new(var_expr("f")),
        arg: Arg::Tuple(Collection::Collection(vec![var_expr("x")])),
    })
    .into_untyped();
    let field = ExprKind::Place(PlaceExpr::FieldAccess(FieldAccess {
        expr: Box::new(call),
        name: String::from("y"),
    }))
    .into_untyped();
    let index = ExprKind::Place(PlaceExpr::Index(Index {
        expr: Box::new(field),
        index: Box::new(uint(0)),
    }))
    .into_untyped();
    let expected = ExprKind::Place(PlaceExpr::Deref(Box::new(index))).into_untyped();
    assert_eq!(expr(src, 0), Ok((expected, "")));
}

#[test]
fn unit_splat_and_tuple() {
    assert_eq!(expr("( )", 0), Ok((ExprKind::Unit.into_untyped(), "")));
    let splat = ExprKind::Splat(Box::new(var_expr("xs"))).into_untyped();
    assert_eq!(expr("(*xs,)", 0), Ok((splat, "")));
    let tuple = ExprKind::Tuple(Collection::WithSplat(WithSplat {
        left: vec![var_expr("a")],
        splat: Box::new(var_expr("xs")),
        right: vec![var_expr("b")],
    }))
    .into_untyped();
    assert_eq!(expr("(a, *xs, b)", 0), Ok((tuple, "")));
    let pair = ExprKind::Tuple(Collection::Collection(vec![var_expr("a"), var_expr("b")]))
        .into_untyped();
    assert_eq!(expr("(a, b,)", 0), Ok((pair, "")));
}

#[test]
fn records() {
    let record = ExprKind::Record(Collection::Collection(vec![
        Field { name: String::from("a"), expr: uint(1) },
        Field { name: String::from("b"), expr: var_expr("b") },
    ]))
    .into_untyped();
    assert_eq!(expr("(a = 1, = b)", 0), Ok((record, "")));
    // Two fields of one name, and a field whose name cannot be told.
    assert_eq!(expr("(a = 1, a = 2)", 0), Err(ParseError));
    assert_eq!(expr("(= 1)", 0), Err(ParseError));
}

#[test]
fn arrays_and_ranges() {
    let array = ExprKind::Array(vec![
        Element { expr: uint(1), kind: ElementKind::Element },
        Element { expr: var_expr("xs"), kind: ElementKind::Splat },
    ])
    .into_untyped();
    assert_eq!(expr("[1, *xs]", 0), Ok((array, "")));
    let range = ExprKind::ArrayRange(Range {
        left: Some(Bound { kind: BoundType::Inclusive, expr: Box::new(uint(1)) }),
        right: Some(Bound { kind: BoundType::Exclusive, expr: Box::new(uint(5)) }),
    })
    .into_untyped();
    assert_eq!(expr("[1.<5]", 0), Ok((range, "")));
    let open = ExprKind::ArrayRange(Range { left: None, right: None }).into_untyped();
    assert_eq!(expr("[..]", 0), Ok((open, "")));
}

#[test]
fn strings_are_byte_arrays() {
    let expected = ExprKind::Array(vec![
        Element { expr: uint(104), kind: ElementKind::Element },
        Element { expr: uint(105), kind: ElementKind::Element },
    ])
    .into_untyped();
    assert_eq!(expr("\"hi\"", 0), Ok((expected, "")));
}

#[test]
fn prefix_operators_and_tags() {
    let minus = ExprKind::Unary(Unary { kind: UnaryType::Minus, expr: Box::new(uint(5)) })
        .into_untyped();
    assert_eq!(expr("-5", 0), Ok((minus, "")));
    let clone = ExprKind::Unary(Unary { kind: UnaryType::Clone, expr: Box::new(var_expr("x")) })
        .into_untyped();
    assert_eq!(expr("clone x", 0), Ok((clone, "")));
    let tag = ExprKind::Tag(Tag { tag: String::from("some"), expr: Some(Box::new(uint(1))) })
        .into_untyped();
    assert_eq!(expr("@some 1", 0), Ok((tag, "")));
    let bare = ExprKind::Tag(Tag { tag: String::from("none"), expr: None }).into_untyped();
    assert_eq!(expr("@none)", 0), Ok((bare, ")")));
}

#[test]
fn jumps_and_literals() {
    let brk = ExprKind::Jump(Jump::Break(Some(Box::new(uint(1))))).into_untyped();
    assert_eq!(expr("break 1", 0), Ok((brk, "")));
    let cont = ExprKind::Jump(Jump::Continue).into_untyped();
    assert_eq!(expr("continue;", 0), Ok((cont, ";")));
    let ret = ExprKind::Jump(Jump::Return(None)).into_untyped();
    assert_eq!(expr("return", 0), Ok((ret, "")));
    let float_lit = ExprKind::Literal(Literal::Float(String::from("02.50e+0"))).into_untyped();
    assert_eq!(expr("2.5", 0), Ok((float_lit, "")));
    assert_eq!(expr("'a'", 0), Ok((uint(97), "")));
    // `true` is read as an identifier: it is no reserved word.
    assert_eq!(expr("true", 0), Ok((var_expr("true"), "")));
    // A reserved word is no expression.
    assert_eq!(expr("else", 0), Err(ParseError));
}

#[test]
fn whole_expression() {
    assert_eq!(expr_parser("  a -- note\n"), Ok(var_expr("a")));
    assert_eq!(expr_parser("a b"), Err(ParseError));
}
