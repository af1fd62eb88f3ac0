use butter::expr::{
    Assign, Binary, Block, ControlFlow, Declare, Expr, ExprKind, For, Fun, FunDeclare, If, Literal,
    Match, MatchArm, PlaceExpr, Statement, While,
};
use butter::expr_parser::{ast, block, expr, statement, ParseError};
use butter::operator::BinaryType;
use butter::pattern::{Pattern, PatternKind, TypedVar, Var};
use butter::pattern_parser::pattern;

fn var_place(var: &str) -> PlaceExpr<()> {
    PlaceExpr::Var(String::from(var))
}

fn var_expr(var: &str) -> Expr<()> {
    ExprKind::Place(var_place(var)).into_untyped()
}

fn uint(n: u64) -> Expr<()> {
    ExprKind::Literal(Literal::UInt(n)).into_untyped()
}

fn var_pattern(name: &str) -> Pattern<()> {
    PatternKind::Var(Var { ident: String::from(name), mutable: false, bind_to_ref: false })
        .into_untyped()
}

#[test]
fn parallel_assign() {
    let src = "foo, bar <- bar, foo;";
    let expected = Statement::Expr(
        ExprKind::Assign(vec![
            Assign { place: var_place("foo"), expr: var_expr("bar") },
            Assign { place: var_place("bar"), expr: var_expr("foo") },
        ])
        .into_untyped(),
    );
    assert_eq!(statement(src), Ok((expected, "")));
}

#[test]
fn chain_assign() {
    let src = "foo <- bar <- baz;";
    let expected: Statement<()> = Statement::Expr(
        ExprKind::Assign(vec![Assign {
            place: var_place("foo"),
            expr: ExprKind::Assign(vec![Assign { place: var_place("bar"), expr: var_expr("baz") }])
                .into_untyped(),
        }])
        .into_untyped(),
    );
    assert_eq!(statement(src), Ok((expected, "")));
}

#[test]
fn var() {
    let src = "foo = 10;";
    let expected = Statement::Declare(Declare {
        pattern: PatternKind::Var(Var {
            ident: String::from("foo"),
            mutable: false,
            bind_to_ref: false,
        })
        .into_untyped(),
        expr: ExprKind::Literal(Literal::UInt(10)).into_untyped(),
    });
    assert_eq!(statement(src), Ok((expected, "")));
}

#[test]
fn parallel_assign_counts_must_match() {
    assert_eq!(statement("a, b <- c;"), Err(ParseError));
}

#[test]
fn block_value_is_the_last_expression() {
    let expected = Block {
        statement: vec![Statement::Expr(var_expr("a"))],
        expr: Some(Box::new(var_expr("b"))),
    };
    assert_eq!(block("{ a; b }"), Ok((expected, "")));
    let empty = Block { statement: vec![], expr: None };
    assert_eq!(block("{}"), Ok((empty, "")));
}

#[test]
fn if_else() {
    let expected = ControlFlow::If(If {
        condition: Box::new(var_expr("c")),
        body: Block { statement: vec![], expr: Some(Box::new(uint(1))) },
        else_part: Some(Box::new(ControlFlow::Block(Block {
            statement: vec![],
            expr: Some(Box::new(uint(2))),
        }))),
    });
    assert_eq!(expr("if c { 1 } else { 2 }", 0), Ok((ExprKind::ControlFlow(expected).into_untyped(), "")));
}

#[test]
fn loops() {
    let body = Block { statement: vec![Statement::Expr(var_expr("x"))], expr: None };
    let while_loop = ControlFlow::While(While {
        condition: Box::new(var_expr("c")),
        body: Block { statement: vec![Statement::Expr(var_expr("x"))], expr: None },
    });
    assert_eq!(
        expr("while c { x; }", 0),
        Ok((ExprKind::ControlFlow(while_loop).into_untyped(), ""))
    );
    let for_loop = ControlFlow::For(For {
        pattern: var_pattern("i"),
        expr: Box::new(var_expr("xs")),
        body,
    });
    assert_eq!(
        expr("for i in xs { x; }", 0),
        Ok((ExprKind::ControlFlow(for_loop).into_untyped(), ""))
    );
    let forever = ControlFlow::Loop(Block { statement: vec![], expr: None });
    assert_eq!(expr("loop {}", 0), Ok((ExprKind::ControlFlow(forever).into_untyped(), "")));
}

#[test]
fn match_arms() {
    let expected = ControlFlow::Match(Match {
        expr: Box::new(var_expr("x")),
        arm: vec![
            MatchArm { pattern: PatternKind::Discard.into_untyped(), expr: uint(1) },
            MatchArm { pattern: var_pattern("y"), expr: var_expr("y") },
        ],
    });
    assert_eq!(
        expr("match x { _ => 1, y => y }", 0),
        Ok((ExprKind::ControlFlow(expected).into_untyped(), ""))
    );
}

#[test]
fn functions() {
    let param = PatternKind::Param(vec![TypedVar {
        var: Var { ident: String::from("x"), mutable: false, bind_to_ref: false },
        ty: (),
    }])
    .into_untyped();
    let body = ExprKind::Binary(Binary {
        kind: BinaryType::Add,
        left: Box::new(var_expr("x")),
        right: Box::new(uint(1)),
    })
    .into_untyped();
    let fun = ExprKind::Fun(Fun { param, body: Box::new(body) }).into_untyped();
    assert_eq!(expr("(x) => x + 1", 0), Ok((fun, "")));
    let declared = statement("inc(x) => x + 1;");
    let (st, rest) = declared.unwrap();
    assert_eq!(rest, "");
    match st {
        Statement::FunDeclare(FunDeclare { ident, fun: Fun { body, .. }, ty: () }) => {
            assert_eq!(ident, "inc");
            assert_eq!(
                *body,
                ExprKind::Binary(Binary {
                    kind: BinaryType::Add,
                    left: Box::new(var_expr("x")),
                    right: Box::new(uint(1)),
                })
                .into_untyped()
            );
        },
        other => panic!("not a function declaration: {:?}", other),
    }
}

#[test]
fn programs() {
    let src = "#!/usr/bin/env butter\n-- a comment\na = 1;\nprint(a);\n";
    let statements = ast(src).unwrap();
    assert_eq!(statements.len(), 2);
    assert!(matches!(statements[0], Statement::Declare(_)));
    assert_eq!(ast("a = 1"), Err(ParseError));
}

#[test]
fn patterns() {
    let (p, rest) = pattern("@some &x rest").unwrap();
    assert_eq!(rest, "rest");
    match p.pattern {
        PatternKind::Tag(tag) => {
            assert_eq!(tag.tag, "some");
            assert!(matches!(tag.pattern.unwrap().pattern, PatternKind::Ref(_)));
        },
        other => panic!("not a tag pattern: {:?}", other),
    }
    assert_eq!(pattern("_"), Ok((PatternKind::Discard.into_untyped(), "")));
    assert_eq!(pattern("12"), Ok((PatternKind::UInt(12).into_untyped(), "")));
    let (m, _) = pattern("ref mut x").unwrap();
    assert_eq!(
        m,
        PatternKind::Var(Var { ident: String::from("x"), mutable: true, bind_to_ref: true })
            .into_untyped()
    );
    let (arr, _) = pattern("[a, *rest]").unwrap();
    assert!(matches!(arr.pattern, PatternKind::Array(_)));
    let (rec, _) = pattern("(a = x, = y)").unwrap();
    match rec.pattern {
        PatternKind::Record(r) => {
            assert_eq!(r.fields.len(), 2);
            assert_eq!(r.fields[1].0, "y");
            assert!(r.rest.is_none());
        },
        other => panic!("not a record pattern: {:?}", other),
    }
}
