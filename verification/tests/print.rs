use butter::doc::{bracket, intersperse_with_line, intersperse_with_space, render, text};
use butter::ty::cons::{Cons, Keyed, OrderedAnd};
use butter::ty::{MutType, Type, Var};

fn num() -> Type {
    Type::Cons(Cons::Num)
}

fn var(name: &str, id: u32) -> Var {
    Var { name: name.to_string(), id }
}

fn show(ty: &Type, width: usize) -> String {
    render(&ty.to_doc(), width)
}

fn keyed(fields: Vec<(&str, Type)>, rest: Option<Var>) -> Keyed {
    Keyed { fields: fields.into_iter().map(|(n, t)| (n.to_string(), t)).collect(), rest }
}

#[test]
fn simple_types_printed() {
    assert_eq!(show(&num(), 80), "Num");
    assert_eq!(show(&Type::Var(var("a", 2)), 80), "a#2");
    let fun = Type::Cons(Cons::Fun(Box::new(num()), Box::new(Type::Var(var("a", 0)))));
    assert_eq!(show(&fun, 80), "Num -> a");
    assert_eq!(show(&Type::Cons(Cons::Array(Box::new(num()))), 80), "[Num]");
    let reference = Type::Cons(Cons::Ref(MutType::Imm, Box::new(num())));
    assert_eq!(show(&reference, 80), "&:imm Num");
}

#[test]
fn records_and_unions_printed() {
    let record = Type::Cons(Cons::Record(keyed(vec![("x", num()), ("y", num())], None)));
    assert_eq!(show(&record, 80), "(x : Num, y : Num,)");
    assert_eq!(show(&record, 10), "(\n    x : Num,\n    y : Num,\n)");
    let open = Type::Cons(Cons::Record(keyed(vec![("x", num())], Some(var("r", 0)))));
    assert_eq!(show(&open, 80), "(x : Num, *r,)");
    assert_eq!(show(&Type::Cons(Cons::Record(keyed(vec![], None))), 80), "()");
    let union = Type::Cons(Cons::Union(keyed(vec![("a", num()), ("b", num())], None)));
    assert_eq!(show(&union, 80), "@a Num | @b Num");
    assert_eq!(show(&Type::Cons(Cons::Union(keyed(vec![], None))), 80), "never");
}

#[test]
fn tuples_printed() {
    let tuple = Type::Cons(Cons::Tuple(OrderedAnd::NonRow(vec![num(), num()])));
    assert_eq!(show(&tuple, 80), "(Num, Num,)");
    let row = Type::Cons(Cons::Tuple(OrderedAnd::Row(vec![num()], var("r", 0), vec![])));
    assert_eq!(show(&row, 80), "(Num, *r,)");
    let record_tuple =
        Type::Cons(Cons::RecordTuple(OrderedAnd::NonRow(vec![("a".to_string(), num())])));
    assert_eq!(show(&record_tuple, 80), "ordered(a = Num,)");
    assert_eq!(show(&Type::Cons(Cons::Tuple(OrderedAnd::NonRow(vec![]))), 80), "()");
}

#[test]
fn layout_helpers() {
    let spaced = intersperse_with_space(vec![text("a".to_string()), text("b".to_string())]);
    assert_eq!(render(&spaced, 80), "a b");
    let lined = intersperse_with_line(vec![text("aaa".to_string()), text("bbb".to_string())]);
    assert_eq!(render(&lined, 80), "aaa bbb");
    assert_eq!(render(&lined, 5), "aaa\nbbb");
    let bracketed = bracket("[", "]", text("x".to_string()));
    assert_eq!(render(&bracketed, 80), "[x]");
}
