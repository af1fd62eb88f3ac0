use butter::ty::cons::{Cons, Keyed, OrderedAnd};
use butter::ty::model::KeyedKind;
use butter::ty::scheme::{Env, Scheme, SchemeMut};
use butter::ty::{Kind, KindedVar, MutType, Subs, Type, Type1, TypeError, Var, VarState};

fn var(name: &str, id: u32) -> Var {
    Var { name: name.to_string(), id }
}

fn tvar(name: &str, id: u32) -> Type {
    Type::Var(var(name, id))
}

fn num() -> Type {
    Type::Cons(Cons::Num)
}

fn fun(param: Type, ret: Type) -> Type {
    Type::Cons(Cons::Fun(Box::new(param), Box::new(ret)))
}

fn record(fields: Vec<(&str, Type)>, rest: Option<Var>) -> Type {
    Type::Cons(Cons::Record(Keyed {
        fields: fields.into_iter().map(|(name, ty)| (name.to_string(), ty)).collect(),
        rest,
    }))
}

fn tuple(types: Vec<Type>) -> Type {
    Type::Cons(Cons::Tuple(OrderedAnd::NonRow(types)))
}

fn bound(subs: &Subs, v: Var) -> Option<Type1> {
    subs.get(&v)
}

#[test]
fn substitution_replaces_bound_variables_once() {
    let mut subs = Subs::new();
    subs.insert(var("a", 0), Type1::Type(tvar("b", 0)));
    subs.insert(var("b", 0), Type1::Type(num()));
    let mut ty = fun(tvar("a", 0), tvar("c", 0));
    assert_eq!(ty.substitute(&subs), Ok(()));
    assert_eq!(ty, fun(tvar("b", 0), tvar("c", 0)));
}

#[test]
fn substitution_checks_kinds() {
    let mut subs = Subs::new();
    subs.insert(var("a", 0), Type1::MutType(MutType::Imm));
    let mut ty = fun(tvar("a", 0), num());
    assert_eq!(ty.substitute(&subs), Err(TypeError::MismatchKind));
    let mut m = MutType::Var(var("a", 0));
    assert_eq!(m.substitute(&subs), Ok(()));
    assert_eq!(m, MutType::Imm);
}

#[test]
fn row_of_record_tuple_becomes_record() {
    let mut subs = Subs::new();
    subs.insert(var("r", 0), Type1::Type(record(vec![("b", num())], None)));
    let mut ty = Type::Cons(Cons::RecordTuple(OrderedAnd::Row(
        vec![("a".to_string(), num())],
        var("r", 0),
        vec![],
    )));
    assert_eq!(ty.substitute(&subs), Ok(()));
    assert_eq!(ty, record(vec![("a", num()), ("b", num())], None));
    let mut unbound = Type::Cons(Cons::RecordTuple(OrderedAnd::Row(vec![], var("s", 0), vec![])));
    assert_eq!(unbound.substitute(&subs), Err(TypeError::MismatchCons));
}

#[test]
fn record_rows_refuse_overlapping_fields() {
    let mut subs = Subs::new();
    subs.insert(var("r", 0), Type1::Type(record(vec![("a", num())], None)));
    let mut ty = record(vec![("a", num())], Some(var("r", 0)));
    assert_eq!(ty.substitute(&subs), Err(TypeError::Overlap));
}

#[test]
fn free_variables_collected_once() {
    let ty = fun(tvar("a", 0), record(vec![("x", tvar("a", 0)), ("y", tvar("b", 1))], Some(var("r", 0))));
    let vars = ty.free_vars();
    assert_eq!(vars.len(), 3);
    assert!(vars.contains(&KindedVar::new(Kind::Type, var("a", 0))));
    assert!(vars.contains(&KindedVar::new(Kind::Type, var("b", 1))));
    assert!(vars.contains(&KindedVar::new(Kind::Type, var("r", 0))));
    let reference = Type::Cons(Cons::Ref(MutType::Var(var("m", 0)), Box::new(num())));
    assert_eq!(reference.free_vars(), vec![KindedVar::new(Kind::MutType, var("m", 0))]);
}

#[test]
fn fresh_variables_are_numbered() {
    let mut state = VarState::new();
    assert_eq!(state.new_named("x".to_string()), var("x", 1));
    assert_eq!(state.new_named("x".to_string()), var("x", 2));
    assert_eq!(state.new_var(), var("", 1));
    assert_eq!(state.new_named("y".to_string()), var("y", 1));
    assert_eq!(state.new_var(), var("", 2));
}

#[test]
fn unify_binds_variables() {
    let mut subs = Subs::new();
    let mut state = VarState::new();
    assert_eq!(tvar("a", 0).unify_with(num(), &mut subs, &mut state), Ok(()));
    assert_eq!(bound(&subs, var("a", 0)), Some(Type1::Type(num())));
    assert_eq!(num().unify_with(tvar("b", 0), &mut subs, &mut state), Ok(()));
    assert_eq!(bound(&subs, var("b", 0)), Some(Type1::Type(num())));
    assert_eq!(tvar("c", 0).unify_with(tvar("c", 0), &mut subs, &mut state), Ok(()));
    assert_eq!(bound(&subs, var("c", 0)), None);
}

#[test]
fn unify_prefers_named_variables() {
    let mut subs = Subs::new();
    let mut state = VarState::new();
    assert_eq!(tvar("x", 1).unify_with(tvar("", 2), &mut subs, &mut state), Ok(()));
    assert_eq!(bound(&subs, var("", 2)), Some(Type1::Type(tvar("x", 1))));
    assert_eq!(bound(&subs, var("x", 1)), None);
}

#[test]
fn unify_occurs_check() {
    let mut subs = Subs::new();
    let mut state = VarState::new();
    let result = tvar("a", 0).unify_with(fun(tvar("a", 0), num()), &mut subs, &mut state);
    assert_eq!(result, Err(TypeError::InfiniteOccurrence));
}

#[test]
fn unify_constructors() {
    let mut subs = Subs::new();
    let mut state = VarState::new();
    let result = fun(tvar("a", 0), num()).unify_with(fun(num(), tvar("b", 0)), &mut subs, &mut state);
    assert_eq!(result, Ok(()));
    assert_eq!(bound(&subs, var("a", 0)), Some(Type1::Type(num())));
    assert_eq!(bound(&subs, var("b", 0)), Some(Type1::Type(num())));
    let result = num().unify_with(fun(num(), num()), &mut subs, &mut state);
    assert_eq!(result, Err(TypeError::MismatchCons));
    let result = tuple(vec![num()]).unify_with(tuple(vec![num(), num()]), &mut subs, &mut state);
    assert_eq!(result, Err(TypeError::MismatchArity));
}

#[test]
fn unify_open_records() {
    let mut subs = Subs::new();
    let mut state = VarState::new();
    let left = record(vec![("a", num())], Some(var("r", 0)));
    let right = record(vec![("b", num())], Some(var("s", 0)));
    assert_eq!(left.unify_with(right, &mut subs, &mut state), Ok(()));
    assert_eq!(
        bound(&subs, var("r", 0)),
        Some(Type1::Type(record(vec![("b", num())], Some(var("", 1))))),
    );
    assert_eq!(
        bound(&subs, var("s", 0)),
        Some(Type1::Type(record(vec![("a", num())], Some(var("", 1))))),
    );
    assert_eq!(state.new_var(), var("", 2));
}

#[test]
fn unify_closed_records() {
    let mut subs = Subs::new();
    let mut state = VarState::new();
    let left = record(vec![("a", tvar("t", 0)), ("b", num())], None);
    let right = record(vec![("b", num()), ("a", num())], None);
    assert_eq!(left.unify_with(right, &mut subs, &mut state), Ok(()));
    assert_eq!(bound(&subs, var("t", 0)), Some(Type1::Type(num())));
    let left = record(vec![("a", num())], None);
    let right = record(vec![("b", num())], None);
    assert_eq!(left.unify_with(right, &mut subs, &mut state), Err(TypeError::MismatchArity));
    let open = Keyed { fields: vec![("a".to_string(), num())], rest: Some(var("r", 0)) };
    let closed = Keyed { fields: vec![("a".to_string(), num()), ("b".to_string(), num())], rest: None };
    assert_eq!(open.unify_with(closed, &mut subs, &mut state, KeyedKind::Record), Ok(()));
    assert_eq!(bound(&subs, var("r", 0)), Some(Type1::Type(record(vec![("b", num())], None))));
}

#[test]
fn unify_tuple_with_row() {
    let mut subs = Subs::new();
    let mut state = VarState::new();
    let row = Type::Cons(Cons::Tuple(OrderedAnd::Row(vec![tvar("a", 0)], var("r", 0), vec![])));
    let full = tuple(vec![num(), num(), num()]);
    assert_eq!(row.unify_with(full, &mut subs, &mut state), Ok(()));
    assert_eq!(bound(&subs, var("a", 0)), Some(Type1::Type(num())));
    assert_eq!(bound(&subs, var("r", 0)), Some(Type1::Type(tuple(vec![num(), num()]))));
}

#[test]
fn unify_record_tuple_names() {
    let mut subs = Subs::new();
    let mut state = VarState::new();
    let left = Type::Cons(Cons::RecordTuple(OrderedAnd::NonRow(vec![("a".to_string(), num())])));
    let right = Type::Cons(Cons::RecordTuple(OrderedAnd::NonRow(vec![("b".to_string(), num())])));
    assert_eq!(left.unify_with(right, &mut subs, &mut state), Err(TypeError::MismatchName));
    let left = Type::Cons(Cons::RecordTuple(OrderedAnd::NonRow(vec![("a".to_string(), tvar("t", 0))])));
    assert_eq!(left.unify_with(tuple(vec![num()]), &mut subs, &mut state), Ok(()));
    assert_eq!(bound(&subs, var("t", 0)), Some(Type1::Type(num())));
}

#[test]
fn unify_mutabilities() {
    let mut subs = Subs::new();
    let mut state = VarState::new();
    assert_eq!(MutType::Imm.unify_with(MutType::Mut, &mut subs, &mut state), Err(TypeError::MismatchCons));
    assert_eq!(MutType::Var(var("m", 0)).unify_with(MutType::Mut, &mut subs, &mut state), Ok(()));
    assert_eq!(bound(&subs, var("m", 0)), Some(Type1::MutType(MutType::Mut)));
}

#[test]
fn compose_applies_then_adds() {
    let mut first = Subs::new();
    first.insert(var("a", 0), Type1::Type(tvar("b", 0)));
    let mut second = Subs::new();
    second.insert(var("b", 0), Type1::Type(num()));
    assert_eq!(first.compose_with(second), Ok(()));
    assert_eq!(bound(&first, var("a", 0)), Some(Type1::Type(num())));
    assert_eq!(bound(&first, var("b", 0)), Some(Type1::Type(num())));
    let mut empty = Subs::new();
    let mut other = Subs::new();
    other.insert(var("c", 0), Type1::Type(num()));
    assert_eq!(empty.compose_with(other), Ok(()));
    assert_eq!(bound(&empty, var("c", 0)), Some(Type1::Type(num())));
}

#[test]
fn filter_off_unbinds() {
    let mut subs = Subs::new();
    subs.insert(var("a", 0), Type1::Type(num()));
    subs.insert(var("b", 0), Type1::Type(num()));
    subs.filter_off(&vec![KindedVar::new(Kind::MutType, var("a", 0))]);
    assert_eq!(bound(&subs, var("a", 0)), None);
    assert_eq!(bound(&subs, var("b", 0)), Some(Type1::Type(num())));
    assert!(!subs.is_empty());
}

#[test]
fn schemes_instantiate_and_substitute() {
    let scheme = Scheme {
        for_all: vec![KindedVar::new(Kind::Type, var("a", 0))],
        ty: fun(tvar("a", 0), tvar("b", 0)),
    };
    let mut state = VarState::new();
    let ty = scheme.instantiate(&mut state);
    assert_eq!(ty, Ok(fun(tvar("a", 1), tvar("b", 0))));
    let mut scheme = Scheme {
        for_all: vec![KindedVar::new(Kind::Type, var("a", 0))],
        ty: fun(tvar("a", 0), tvar("b", 0)),
    };
    let mut subs = Subs::new();
    subs.insert(var("a", 0), Type1::Type(num()));
    subs.insert(var("b", 0), Type1::Type(num()));
    assert_eq!(scheme.substitute(&subs), Ok(()));
    assert_eq!(scheme.ty, fun(tvar("a", 0), num()));
    assert_eq!(scheme.free_vars(), vec![]);
}

#[test]
fn environment_binds_and_generalizes() {
    let mut env = Env::new();
    let scheme = SchemeMut { is_mut: true, scheme: Scheme { for_all: vec![], ty: tvar("b", 0) } };
    assert_eq!(env.insert(var("x", 0), scheme), None);
    assert_eq!(env.get_mut(var("x", 0)), Some(true));
    assert_eq!(env.get_ty(var("x", 0)).map(|s| s.ty), Some(tvar("b", 0)));
    assert_eq!(env.get_ty(var("y", 0)), None);
    assert_eq!(env.free_vars(), vec![KindedVar::new(Kind::Type, var("b", 0))]);
    let general = env.generalize(fun(tvar("a", 0), tvar("b", 0)));
    assert_eq!(general.for_all, vec![KindedVar::new(Kind::Type, var("a", 0))]);
    let mut subs = Subs::new();
    subs.insert(var("b", 0), Type1::Type(num()));
    assert_eq!(env.substitute(&subs), Ok(()));
    assert_eq!(env.get_ty(var("x", 0)).map(|s| s.ty), Some(num()));
    env.remove(var("x", 0));
    assert_eq!(env.get_mut(var("x", 0)), None);
    env.extend(vec![(var("z", 0), SchemeMut { is_mut: false, scheme: Scheme { for_all: vec![], ty: num() } })]);
    assert_eq!(env.get_mut(var("z", 0)), Some(false));
}
