use butter::pattern::{Pattern, PatternKind, TypedVar, Var};

fn var(ident: &str, mutable: bool, bind_to_ref: bool) -> Var {
    Var { ident: ident.to_string(), mutable, bind_to_ref }
}

#[test]
fn field_names() {
    let pattern = PatternKind::<()>::Var(var("foo", false, false)).into_untyped();
    assert_eq!(pattern.field_name(), Some("foo".to_string()));
    assert_eq!(pattern.ty, ());
    let pattern: Pattern<()> = PatternKind::Discard.into_untyped();
    assert_eq!(pattern.field_name(), None);
    assert_eq!(PatternKind::<()>::UInt(3).field_name(), None);
}

#[test]
fn pattern_variables_written() {
    assert_eq!(var("x", false, false).display(), "x");
    assert_eq!(var("x", true, false).display(), "mut x");
    assert_eq!(var("x", false, true).display(), "&<x");
    assert_eq!(var("x", true, true).display(), "mut &<x");
    let typed: TypedVar<()> = var("y", false, false).into_untyped();
    assert_eq!(typed.var.ident, "y");
}
