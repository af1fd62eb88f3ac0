//! Unification of types, as `unification` describes it.
use crate::ty::cons::{find_field, Cons, Keyed, OrderedAnd};
use crate::ty::free::contains_var;
use crate::ty::model::{
    key_index, lemma_key_index, lemma_size_fields_elem, lemma_size_into_keyed,
    lemma_size_into_ordered, lemma_size_types_elem, size_cons, size_fields, size_ordered_fields,
    size_ordered_types, size_type, size_types, FieldV, KeyedKind, TypeV,
};
use crate::ty::unification::{
    bind_mut, bind_type, fields_absent_from, goes_on, keyed_cons, lemma_common_stop,
    lemma_size_fields_split3, lemma_size_types_split3, lemma_zip_fields_stop,
    lemma_zip_types_stop, split3, unified_ok, unify_common, unify_cons, unify_keyed, unify_mut,
    unify_ordered_fields, unify_ordered_types, unify_rests, unify_row_fields, unify_row_types,
    unify_type, unify_zip_fields, unify_zip_types, Unified,
};
use crate::ty::{
    clone_fields, cons_view, fields_view, keyed_view, lemma_fields_view,
    lemma_fields_view_subrange, lemma_types_view, lemma_types_view_subrange,
    ordered_fields_view, ordered_types_view, type_view, types_view, Atom, Kind, KindedVar,
    MutType, Subs, Type, Type1, TypeError, Var, VarState,
};
use vstd::prelude::*;

verus! {

/// The outcome of a step together with the state it left.
pub open spec fn outcome(
    result: Result<(), TypeError>,
    subs: Subs,
    vars: VarState,
) -> Option<Unified> {
    Some(Unified { result, subs: subs@, vars: vars@ })
}

fn bind_type_var(var: &Var, ty: &Type, subs: &mut Subs) -> (result: Result<(), TypeError>)
    ensures
        (result, final(subs)@) == bind_type(var@, ty@, old(subs)@),
{
    if let Type::Var(w) = ty {
        if w.same(var) {
            return Ok(());
        }
    }
    let vars = ty.free_vars();
    if contains_var(&vars, &KindedVar::new(Kind::Type, var.clone())) {
        return Err(TypeError::InfiniteOccurrence);
    }
    if var.is_fresh_name() {
        subs.insert(var.clone(), Type1::Type(ty.deep_clone()));
        return Ok(());
    }
    if let Type::Var(w) = ty {
        if w.is_fresh_name() {
            subs.insert(w.clone(), Type1::Type(Type::Var(var.clone())));
            return Ok(());
        }
    }
    subs.insert(var.clone(), Type1::Type(ty.deep_clone()));
    Ok(())
}

fn bind_mut_var(var: &Var, m: &MutType, subs: &mut Subs) -> (result: Result<(), TypeError>)
    ensures
        (result, final(subs)@) == bind_mut(var@, m@, old(subs)@),
{
    if let MutType::Var(w) = m {
        if w.same(var) {
            return Ok(());
        }
    }
    let vars = m.free_vars();
    if contains_var(&vars, &KindedVar::new(Kind::MutType, var.clone())) {
        return Err(TypeError::InfiniteOccurrence);
    }
    if var.is_fresh_name() {
        subs.insert(var.clone(), Type1::MutType(m.clone()));
        return Ok(());
    }
    if let MutType::Var(w) = m {
        if w.is_fresh_name() {
            subs.insert(w.clone(), Type1::MutType(MutType::Var(var.clone())));
            return Ok(());
        }
    }
    subs.insert(var.clone(), Type1::MutType(m.clone()));
    Ok(())
}

fn unify_mut_ref(a: &MutType, b: &MutType, subs: &mut Subs, vars: &VarState) -> (result: Result<
    (),
    TypeError,
>)
    ensures
        unify_mut(a@, b@, old(subs)@, vars@) == (Unified {
            result,
            subs: final(subs)@,
            vars: vars@,
        }),
{
    match (a, b) {
        (MutType::Mut, MutType::Mut) => Ok(()),
        (MutType::Imm, MutType::Imm) => Ok(()),
        (MutType::Var(v), m) => bind_mut_var(v, m, subs),
        (m, MutType::Var(v)) => bind_mut_var(v, m, subs),
        _ => Err(TypeError::MismatchCons),
    }
}

fn unify_type_ref(a: &Type, b: &Type, subs: &mut Subs, vars: &mut VarState) -> (result: Result<
    (),
    TypeError,
>)
    requires
        unify_type(a@, b@, old(subs)@, old(vars)@) is Some,
    ensures
        unify_type(a@, b@, old(subs)@, old(vars)@) == outcome(result, *final(subs), *final(vars)),
    decreases size_type(a@) + size_type(b@), 0int,
{
    match (a, b) {
        (Type::Cons(c1), Type::Cons(c2)) => unify_cons_ref(c1, c2, subs, vars),
        (Type::Var(v), t) => bind_type_var(v, t, subs),
        (t, Type::Var(v)) => bind_type_var(v, t, subs),
    }
}

fn unify_cons_ref(a: &Cons, b: &Cons, subs: &mut Subs, vars: &mut VarState) -> (result: Result<
    (),
    TypeError,
>)
    requires
        unify_cons(cons_view(*a), cons_view(*b), old(subs)@, old(vars)@) is Some,
    ensures
        unify_cons(cons_view(*a), cons_view(*b), old(subs)@, old(vars)@) == outcome(
            result,
            *final(subs),
            *final(vars),
        ),
    decreases size_cons(cons_view(*a)) + size_cons(cons_view(*b)), 0int,
{
    match (a, b) {
        (Cons::Num, Cons::Num) | (Cons::Bool, Cons::Bool) => Ok(()),
        (Cons::Ref(m1, t1), Cons::Ref(m2, t2)) => {
            match unify_mut_ref(m1, m2, subs, vars) {
                Err(e) => Err(e),
                Ok(()) => unify_type_ref(t1, t2, subs, vars),
            }
        },
        (Cons::Array(t1), Cons::Array(t2)) => unify_type_ref(t1, t2, subs, vars),
        (Cons::Fun(p1, r1), Cons::Fun(p2, r2)) => {
            match unify_type_ref(p1, p2, subs, vars) {
                Err(e) => Err(e),
                Ok(()) => unify_type_ref(r1, r2, subs, vars),
            }
        },
        (Cons::Record(k1), Cons::Record(k2)) => unify_keyed_ref(k1, k2, KeyedKind::Record, subs, vars),
        (Cons::Record(k), Cons::RecordTuple(o)) => {
            proof {
                lemma_size_into_keyed(ordered_fields_view(*o));
            }
            let other = o.clone_fields().into_keyed();
            unify_keyed_ref(k, &other, KeyedKind::Record, subs, vars)
        },
        (Cons::RecordTuple(o), Cons::Record(k)) => {
            proof {
                lemma_size_into_keyed(ordered_fields_view(*o));
            }
            let other = o.clone_fields().into_keyed();
            unify_keyed_ref(k, &other, KeyedKind::Record, subs, vars)
        },
        (Cons::Tuple(o1), Cons::Tuple(o2)) => unify_ordered_types_ref(o1, o2, subs, vars),
        (Cons::Tuple(o), Cons::RecordTuple(r)) => {
            proof {
                lemma_size_into_ordered(ordered_fields_view(*r));
            }
            let other = r.clone_fields().into_ordered();
            unify_ordered_types_ref(o, &other, subs, vars)
        },
        (Cons::RecordTuple(r), Cons::Tuple(o)) => {
            proof {
                lemma_size_into_ordered(ordered_fields_view(*r));
            }
            let other = r.clone_fields().into_ordered();
            unify_ordered_types_ref(o, &other, subs, vars)
        },
        (Cons::RecordTuple(r1), Cons::RecordTuple(r2)) => unify_ordered_fields_ref(
            r1,
            r2,
            subs,
            vars,
        ),
        (Cons::Union(k1), Cons::Union(k2)) => unify_keyed_ref(k1, k2, KeyedKind::Union, subs, vars),
        _ => Err(TypeError::MismatchCons),
    }
}

fn unify_keyed_ref(
    k1: &Keyed,
    k2: &Keyed,
    kind: KeyedKind,
    subs: &mut Subs,
    vars: &mut VarState,
) -> (result: Result<(), TypeError>)
    requires
        unify_keyed(keyed_view(*k1), keyed_view(*k2), kind, old(subs)@, old(vars)@) is Some,
    ensures
        unify_keyed(keyed_view(*k1), keyed_view(*k2), kind, old(subs)@, old(vars)@) == outcome(
            result,
            *final(subs),
            *final(vars),
        ),
    decreases size_fields(fields_view(k1.fields@)) + size_fields(fields_view(k2.fields@)), 2int,
{
    match unify_common_ref(&k1.fields, &k2.fields, subs, vars) {
        Err(e) => Err(e),
        Ok(()) => unify_rests_ref(k1, k2, kind, subs, vars),
    }
}

fn unify_common_ref(
    f1: &Vec<(Atom, Type)>,
    f2: &Vec<(Atom, Type)>,
    subs: &mut Subs,
    vars: &mut VarState,
) -> (result: Result<(), TypeError>)
    requires
        unify_common(fields_view(f1@), fields_view(f2@), old(subs)@, old(vars)@) is Some,
    ensures
        unify_common(fields_view(f1@), fields_view(f2@), old(subs)@, old(vars)@) == outcome(
            result,
            *final(subs),
            *final(vars),
        ),
    decreases size_fields(fields_view(f1@)) + size_fields(fields_view(f2@)), 1int,
{
    let ghost a = fields_view(f1@);
    let ghost b = fields_view(f2@);
    let ghost s0 = subs@;
    let ghost v0 = vars@;
    proof {
        lemma_fields_view(f1@);
        lemma_fields_view(f2@);
        assert(a.subrange(0, 0) =~= Seq::<FieldV>::empty());
    }
    let mut i: usize = 0;
    while i < f1.len()
        invariant
            i <= f1@.len(),
            a == fields_view(f1@),
            b == fields_view(f2@),
            a.len() == f1@.len(),
            b.len() == f2@.len(),
            s0 == old(subs)@,
            v0 == old(vars)@,
            forall|j: int| 0 <= j < f1@.len() ==> #[trigger] a[j] == (f1@[j].0@, type_view(f1@[j].1)),
            forall|j: int| 0 <= j < f2@.len() ==> #[trigger] b[j] == (f2@[j].0@, type_view(f2@[j].1)),
            unify_common(a, b, s0, v0) is Some,
            unify_common(a.subrange(0, i as int), b, s0, v0) == Some(unified_ok(subs@, vars@)),
        decreases f1@.len() - i,
    {
        let ghost pre = a.subrange(0, i + 1);
        let ghost si = subs@;
        let ghost vi = vars@;
        proof {
            assert(pre.drop_last() =~= a.subrange(0, i as int));
            assert(pre[pre.len() - 1] == a[i as int]);
            lemma_size_fields_elem(a, i as int);
        }
        match find_field(f2, &f1[i].0) {
            None => {
                proof {
                    assert(key_index(b, a[i as int].0) is None);
                    assert(unify_common(pre, b, s0, v0) == Some(unified_ok(si, vi)));
                }
            },
            Some(j) => {
                proof {
                    lemma_key_index(b, a[i as int].0);
                    lemma_size_fields_elem(b, j as int);
                    assert(unify_common(pre, b, s0, v0) == unify_type(
                        a[i as int].1,
                        b[j as int].1,
                        si,
                        vi,
                    ));
                    if unify_type(a[i as int].1, b[j as int].1, subs@, vars@) is None {
                        lemma_common_stop(a, b, i + 1, s0, v0);
                    }
                }
                match unify_type_ref(&f1[i].1, &f2[j].1, subs, vars) {
                    Err(e) => {
                        proof {
                            lemma_common_stop(a, b, i + 1, s0, v0);
                        }
                        return Err(e);
                    },
                    Ok(u) => {
                        proof {
                            assert(u == ());
                        }
                    },
                }
            },
        }
        i = i + 1;
    }
    proof {
        assert(a.subrange(0, f1@.len() as int) =~= a);
    }
    Ok(())
}

/// The fields of `fields` whose names `other` lacks, in order.
fn absent_from(fields: &Vec<(Atom, Type)>, other: &Vec<(Atom, Type)>) -> (kept: Vec<(Atom, Type)>)
    ensures
        fields_view(kept@) == fields_absent_from(fields_view(fields@), fields_view(other@)),
{
    let ghost a = fields_view(fields@);
    let ghost b = fields_view(other@);
    proof {
        lemma_fields_view(fields@);
        assert(a.subrange(0, 0) =~= Seq::<FieldV>::empty());
    }
    let mut kept: Vec<(Atom, Type)> = Vec::new();
    let mut i: usize = 0;
    while i < fields.len()
        invariant
            i <= fields@.len(),
            a == fields_view(fields@),
            b == fields_view(other@),
            a.len() == fields@.len(),
            forall|j: int|
                0 <= j < fields@.len() ==> #[trigger] a[j] == (fields@[j].0@, type_view(
                    fields@[j].1,
                )),
            fields_view(kept@) == fields_absent_from(a.subrange(0, i as int), b),
        decreases fields@.len() - i,
    {
        let ghost pre = a.subrange(0, i + 1);
        proof {
            assert(pre.drop_last() =~= a.subrange(0, i as int));
            assert(pre[pre.len() - 1] == a[i as int]);
        }
        match find_field(other, &fields[i].0) {
            Some(_) => {},
            None => {
                let ghost before = kept@;
                kept.push((fields[i].0.clone(), fields[i].1.deep_clone()));
                proof {
                    assert(kept@.drop_last() =~= before);
                }
            },
        }
        i = i + 1;
    }
    proof {
        assert(a.subrange(0, fields@.len() as int) =~= a);
    }
    kept
}

/// The constructor of a keyed row of the given kind.
fn make_keyed_cons(kind: KeyedKind, k: Keyed) -> (cons: Cons)
    ensures
        cons_view(cons) == keyed_cons(kind, keyed_view(k)),
{
    match kind {
        KeyedKind::Record => Cons::Record(k),
        KeyedKind::Union => Cons::Union(k),
    }
}

fn unify_rests_ref(
    k1: &Keyed,
    k2: &Keyed,
    kind: KeyedKind,
    subs: &mut Subs,
    vars: &mut VarState,
) -> (result: Result<(), TypeError>)
    requires
        unify_rests(keyed_view(*k1), keyed_view(*k2), kind, old(subs)@, old(vars)@) is Some,
    ensures
        unify_rests(keyed_view(*k1), keyed_view(*k2), kind, old(subs)@, old(vars)@) == outcome(
            result,
            *final(subs),
            *final(vars),
        ),
{
    let only1 = absent_from(&k1.fields, &k2.fields);
    let only2 = absent_from(&k2.fields, &k1.fields);
    match (&k1.rest, &k2.rest) {
        (Some(r1), Some(r2)) => {
            let fresh = vars.new_var();
            let row1 = make_keyed_cons(kind, Keyed { fields: only2, rest: Some(fresh.clone()) });
            let row2 = make_keyed_cons(kind, Keyed { fields: only1, rest: Some(fresh) });
            subs.insert(r1.clone(), Type1::Type(Type::Cons(row1)));
            subs.insert(r2.clone(), Type1::Type(Type::Cons(row2)));
            Ok(())
        },
        (Some(r1), None) => {
            if only1.len() > 0 {
                return Err(TypeError::MismatchArity);
            }
            let row = make_keyed_cons(kind, Keyed { fields: only2, rest: None });
            subs.insert(r1.clone(), Type1::Type(Type::Cons(row)));
            Ok(())
        },
        (None, Some(r2)) => {
            if only2.len() > 0 {
                return Err(TypeError::MismatchArity);
            }
            let row = make_keyed_cons(kind, Keyed { fields: only1, rest: None });
            subs.insert(r2.clone(), Type1::Type(Type::Cons(row)));
            Ok(())
        },
        (None, None) => {
            if only1.len() > 0 || only2.len() > 0 {
                return Err(TypeError::MismatchArity);
            }
            Ok(())
        },
    }
}

fn unify_zip_types_ref(a: &Vec<Type>, b: &Vec<Type>, subs: &mut Subs, vars: &mut VarState) -> (result:
    Result<(), TypeError>)
    requires
        a@.len() == b@.len(),
        unify_zip_types(types_view(a@), types_view(b@), old(subs)@, old(vars)@) is Some,
    ensures
        unify_zip_types(types_view(a@), types_view(b@), old(subs)@, old(vars)@) == outcome(
            result,
            *final(subs),
            *final(vars),
        ),
    decreases size_types(types_view(a@)) + size_types(types_view(b@)), 1int,
{
    let ghost ta = types_view(a@);
    let ghost tb = types_view(b@);
    let ghost s0 = subs@;
    let ghost v0 = vars@;
    proof {
        lemma_types_view(a@);
        lemma_types_view(b@);
        assert(ta.subrange(0, 0) =~= Seq::<TypeV>::empty());
    }
    let mut i: usize = 0;
    while i < a.len()
        invariant
            i <= a@.len(),
            a@.len() == b@.len(),
            ta == types_view(a@),
            tb == types_view(b@),
            ta.len() == a@.len(),
            tb.len() == b@.len(),
            s0 == old(subs)@,
            v0 == old(vars)@,
            forall|j: int| 0 <= j < a@.len() ==> #[trigger] ta[j] == type_view(a@[j]),
            forall|j: int| 0 <= j < b@.len() ==> #[trigger] tb[j] == type_view(b@[j]),
            unify_zip_types(ta, tb, s0, v0) is Some,
            unify_zip_types(ta.subrange(0, i as int), tb.subrange(0, i as int), s0, v0) == Some(
                unified_ok(subs@, vars@),
            ),
        decreases a@.len() - i,
    {
        let ghost pa = ta.subrange(0, i + 1);
        let ghost pb = tb.subrange(0, i + 1);
        proof {
            assert(pa.drop_last() =~= ta.subrange(0, i as int));
            assert(pb.drop_last() =~= tb.subrange(0, i as int));
            assert(pa[pa.len() - 1] == ta[i as int]);
            assert(pb[pb.len() - 1] == tb[i as int]);
            assert(unify_zip_types(pa, pb, s0, v0) == unify_type(ta[i as int], tb[i as int], subs@, vars@));
            lemma_size_types_elem(ta, i as int);
            lemma_size_types_elem(tb, i as int);
            if unify_type(ta[i as int], tb[i as int], subs@, vars@) is None {
                lemma_zip_types_stop(ta, tb, i + 1, s0, v0);
            }
        }
        let ghost si = subs@;
        let ghost vi = vars@;
        let r = unify_type_ref(&a[i], &b[i], subs, vars);
        match r {
            Err(e) => {
                proof {
                    lemma_zip_types_stop(ta, tb, i + 1, s0, v0);
                }
                return Err(e);
            },
            Ok(u) => {
                proof {
                    assert(u == ());
                }
            },
        }
        i = i + 1;
    }
    proof {
        assert(ta.subrange(0, a@.len() as int) =~= ta);
        assert(tb.subrange(0, b@.len() as int) =~= tb);
    }
    Ok(())
}

fn unify_zip_fields_ref(
    a: &Vec<(Atom, Type)>,
    b: &Vec<(Atom, Type)>,
    subs: &mut Subs,
    vars: &mut VarState,
) -> (result: Result<(), TypeError>)
    requires
        a@.len() == b@.len(),
        unify_zip_fields(fields_view(a@), fields_view(b@), old(subs)@, old(vars)@) is Some,
    ensures
        unify_zip_fields(fields_view(a@), fields_view(b@), old(subs)@, old(vars)@) == outcome(
            result,
            *final(subs),
            *final(vars),
        ),
    decreases size_fields(fields_view(a@)) + size_fields(fields_view(b@)), 1int,
{
    let ghost fa = fields_view(a@);
    let ghost fb = fields_view(b@);
    let ghost s0 = subs@;
    let ghost v0 = vars@;
    proof {
        lemma_fields_view(a@);
        lemma_fields_view(b@);
        assert(fa.subrange(0, 0) =~= Seq::<FieldV>::empty());
    }
    let mut i: usize = 0;
    while i < a.len()
        invariant
            i <= a@.len(),
            a@.len() == b@.len(),
            fa == fields_view(a@),
            fb == fields_view(b@),
            fa.len() == a@.len(),
            fb.len() == b@.len(),
            s0 == old(subs)@,
            v0 == old(vars)@,
            forall|j: int| 0 <= j < a@.len() ==> #[trigger] fa[j] == (a@[j].0@, type_view(a@[j].1)),
            forall|j: int| 0 <= j < b@.len() ==> #[trigger] fb[j] == (b@[j].0@, type_view(b@[j].1)),
            unify_zip_fields(fa, fb, s0, v0) is Some,
            unify_zip_fields(fa.subrange(0, i as int), fb.subrange(0, i as int), s0, v0) == Some(
                unified_ok(subs@, vars@),
            ),
        decreases a@.len() - i,
    {
        let ghost pa = fa.subrange(0, i + 1);
        let ghost pb = fb.subrange(0, i + 1);
        let ghost si = subs@;
        let ghost vi = vars@;
        proof {
            assert(pa.drop_last() =~= fa.subrange(0, i as int));
            assert(pb.drop_last() =~= fb.subrange(0, i as int));
            assert(pa[pa.len() - 1] == fa[i as int]);
            assert(pb[pb.len() - 1] == fb[i as int]);
            lemma_size_fields_elem(fa, i as int);
            lemma_size_fields_elem(fb, i as int);
        }
        if a[i].0 != b[i].0 {
            proof {
                lemma_zip_fields_stop(fa, fb, i + 1, s0, v0);
            }
            return Err(TypeError::MismatchName);
        }
        proof {
            assert(unify_zip_fields(pa, pb, s0, v0) == unify_type(fa[i as int].1, fb[i as int].1, si, vi));
            if unify_type(fa[i as int].1, fb[i as int].1, subs@, vars@) is None {
                lemma_zip_fields_stop(fa, fb, i + 1, s0, v0);
            }
        }
        match unify_type_ref(&a[i].1, &b[i].1, subs, vars) {
            Err(e) => {
                proof {
                    lemma_zip_fields_stop(fa, fb, i + 1, s0, v0);
                }
                return Err(e);
            },
            Ok(u) => {
                proof {
                    assert(u == ());
                }
            },
        }
        i = i + 1;
    }
    proof {
        assert(fa.subrange(0, a@.len() as int) =~= fa);
        assert(fb.subrange(0, b@.len() as int) =~= fb);
    }
    Ok(())
}

/// The types `v[from..to]`, copied.
fn copy_types(v: &Vec<Type>, from: usize, to: usize) -> (part: Vec<Type>)
    requires
        from <= to <= v@.len(),
    ensures
        part@.len() == to - from,
        types_view(part@) == types_view(v@).subrange(from as int, to as int),
{
    let mut part: Vec<Type> = Vec::new();
    let mut i: usize = from;
    proof {
        lemma_types_view(v@);
    }
    while i < to
        invariant
            from <= i <= to <= v@.len(),
            part@.len() == i - from,
            types_view(v@).len() == v@.len(),
            forall|j: int| 0 <= j < v@.len() ==> #[trigger] types_view(v@)[j] == type_view(v@[j]),
            types_view(part@) == types_view(v@).subrange(from as int, i as int),
        decreases to - i,
    {
        let ghost before = part@;
        part.push(v[i].deep_clone());
        proof {
            assert(part@.drop_last() =~= before);
            assert(types_view(part@) =~= types_view(v@).subrange(from as int, i + 1));
        }
        i = i + 1;
    }
    part
}

/// The named types `v[from..to]`, copied.
fn copy_fields(v: &Vec<(Atom, Type)>, from: usize, to: usize) -> (part: Vec<(Atom, Type)>)
    requires
        from <= to <= v@.len(),
    ensures
        part@.len() == to - from,
        fields_view(part@) == fields_view(v@).subrange(from as int, to as int),
{
    let mut part: Vec<(Atom, Type)> = Vec::new();
    let mut i: usize = from;
    proof {
        lemma_fields_view(v@);
    }
    while i < to
        invariant
            from <= i <= to <= v@.len(),
            part@.len() == i - from,
            fields_view(v@).len() == v@.len(),
            forall|j: int|
                0 <= j < v@.len() ==> #[trigger] fields_view(v@)[j] == (v@[j].0@, type_view(
                    v@[j].1,
                )),
            fields_view(part@) == fields_view(v@).subrange(from as int, i as int),
        decreases to - i,
    {
        let ghost before = part@;
        part.push((v[i].0.clone(), v[i].1.deep_clone()));
        proof {
            assert(part@.drop_last() =~= before);
            assert(fields_view(part@) =~= fields_view(v@).subrange(from as int, i + 1));
        }
        i = i + 1;
    }
    part
}

fn unify_row_types_ref(
    l: &Vec<Type>,
    rest: &Var,
    r: &Vec<Type>,
    tup: &Vec<Type>,
    subs: &mut Subs,
    vars: &mut VarState,
) -> (result: Result<(), TypeError>)
    requires
        unify_row_types(types_view(l@), rest@, types_view(r@), types_view(tup@), old(subs)@, old(vars)@) is Some,
    ensures
        unify_row_types(types_view(l@), rest@, types_view(r@), types_view(tup@), old(subs)@, old(vars)@)
            == outcome(result, *final(subs), *final(vars)),
    decreases size_types(types_view(l@)) + 1 + size_types(types_view(r@)) + size_types(
        types_view(tup@),
    ), 1int,
{
    proof {
        lemma_types_view(l@);
        lemma_types_view(r@);
        lemma_types_view(tup@);
    }
    if l.len() > tup.len() || r.len() > tup.len() - l.len() {
        return Err(TypeError::MismatchArity);
    }
    let n = tup.len();
    let l2 = copy_types(tup, 0, l.len());
    let mid = copy_types(tup, l.len(), n - r.len());
    let r2 = copy_types(tup, n - r.len(), n);
    proof {
        lemma_size_types_split3(types_view(tup@), l@.len() as int, r@.len() as int);
    }
    match unify_zip_types_ref(l, &l2, subs, vars) {
        Err(e) => {
            return Err(e);
        },
        Ok(()) => {},
    }
    match unify_zip_types_ref(r, &r2, subs, vars) {
        Err(e) => {
            return Err(e);
        },
        Ok(()) => {},
    }
    let row = Type1::Type(Type::Cons(Cons::Tuple(OrderedAnd::NonRow(mid))));
    proof {
        let (_, m, _) = split3(types_view(tup@), l@.len() as int, r@.len() as int);
        assert(types_view(mid@) == m);
        let o = OrderedAnd::NonRow(mid);
        assert(ordered_types_view(o) == crate::ty::model::OrderedAndV::NonRow(m));
        assert(cons_view(Cons::Tuple(o)) == crate::ty::model::ConsV::Tuple(
            crate::ty::model::OrderedAndV::NonRow(m),
        ));
    }
    subs.insert(rest.clone(), row);
    Ok(())
}

fn unify_row_fields_ref(
    l: &Vec<(Atom, Type)>,
    rest: &Var,
    r: &Vec<(Atom, Type)>,
    tup: &Vec<(Atom, Type)>,
    subs: &mut Subs,
    vars: &mut VarState,
) -> (result: Result<(), TypeError>)
    requires
        unify_row_fields(fields_view(l@), rest@, fields_view(r@), fields_view(tup@), old(subs)@, old(vars)@) is Some,
    ensures
        unify_row_fields(fields_view(l@), rest@, fields_view(r@), fields_view(tup@), old(subs)@, old(vars)@)
            == outcome(result, *final(subs), *final(vars)),
    decreases size_fields(fields_view(l@)) + 1 + size_fields(fields_view(r@)) + size_fields(
        fields_view(tup@),
    ), 1int,
{
    proof {
        lemma_fields_view(l@);
        lemma_fields_view(r@);
        lemma_fields_view(tup@);
    }
    if l.len() > tup.len() || r.len() > tup.len() - l.len() {
        return Err(TypeError::MismatchArity);
    }
    let n = tup.len();
    let l2 = copy_fields(tup, 0, l.len());
    let mid = copy_fields(tup, l.len(), n - r.len());
    let r2 = copy_fields(tup, n - r.len(), n);
    proof {
        lemma_size_fields_split3(fields_view(tup@), l@.len() as int, r@.len() as int);
    }
    match unify_zip_fields_ref(l, &l2, subs, vars) {
        Err(e) => {
            return Err(e);
        },
        Ok(()) => {},
    }
    match unify_zip_fields_ref(r, &r2, subs, vars) {
        Err(e) => {
            return Err(e);
        },
        Ok(()) => {},
    }
    let row = Type1::Type(Type::Cons(Cons::RecordTuple(OrderedAnd::NonRow(mid))));
    proof {
        let (_, m, _) = split3(fields_view(tup@), l@.len() as int, r@.len() as int);
        assert(fields_view(mid@) == m);
        let o = OrderedAnd::NonRow(mid);
        assert(ordered_fields_view(o) == crate::ty::model::OrderedAndV::NonRow(m));
        assert(cons_view(Cons::RecordTuple(o)) == crate::ty::model::ConsV::RecordTuple(
            crate::ty::model::OrderedAndV::NonRow(m),
        ));
    }
    subs.insert(rest.clone(), row);
    Ok(())
}

fn unify_ordered_types_ref(
    o1: &OrderedAnd<Type>,
    o2: &OrderedAnd<Type>,
    subs: &mut Subs,
    vars: &mut VarState,
) -> (result: Result<(), TypeError>)
    requires
        unify_ordered_types(ordered_types_view(*o1), ordered_types_view(*o2), old(subs)@, old(vars)@) is Some,
    ensures
        unify_ordered_types(ordered_types_view(*o1), ordered_types_view(*o2), old(subs)@, old(vars)@)
            == outcome(result, *final(subs), *final(vars)),
    decreases size_ordered_types(ordered_types_view(*o1)) + size_ordered_types(
        ordered_types_view(*o2),
    ), 2int,
{
    match (o1, o2) {
        (OrderedAnd::NonRow(t1), OrderedAnd::NonRow(t2)) => {
            proof {
                lemma_types_view(t1@);
                lemma_types_view(t2@);
            }
            if t1.len() != t2.len() {
                return Err(TypeError::MismatchArity);
            }
            unify_zip_types_ref(t1, t2, subs, vars)
        },
        (OrderedAnd::NonRow(tup), OrderedAnd::Row(l, rest, r)) => unify_row_types_ref(
            l,
            rest,
            r,
            tup,
            subs,
            vars,
        ),
        (OrderedAnd::Row(l, rest, r), OrderedAnd::NonRow(tup)) => unify_row_types_ref(
            l,
            rest,
            r,
            tup,
            subs,
            vars,
        ),
        (OrderedAnd::Row(_, _, _), OrderedAnd::Row(_, _, _)) => {
            proof {
                assert(false);
            }
            Ok(())
        },
    }
}

fn unify_ordered_fields_ref(
    o1: &OrderedAnd<(Atom, Type)>,
    o2: &OrderedAnd<(Atom, Type)>,
    subs: &mut Subs,
    vars: &mut VarState,
) -> (result: Result<(), TypeError>)
    requires
        unify_ordered_fields(ordered_fields_view(*o1), ordered_fields_view(*o2), old(subs)@, old(vars)@) is Some,
    ensures
        unify_ordered_fields(ordered_fields_view(*o1), ordered_fields_view(*o2), old(subs)@, old(vars)@)
            == outcome(result, *final(subs), *final(vars)),
    decreases size_ordered_fields(ordered_fields_view(*o1)) + size_ordered_fields(
        ordered_fields_view(*o2),
    ), 2int,
{
    match (o1, o2) {
        (OrderedAnd::NonRow(t1), OrderedAnd::NonRow(t2)) => {
            proof {
                lemma_fields_view(t1@);
                lemma_fields_view(t2@);
            }
            if t1.len() != t2.len() {
                return Err(TypeError::MismatchArity);
            }
            unify_zip_fields_ref(t1, t2, subs, vars)
        },
        (OrderedAnd::NonRow(tup), OrderedAnd::Row(l, rest, r)) => unify_row_fields_ref(
            l,
            rest,
            r,
            tup,
            subs,
            vars,
        ),
        (OrderedAnd::Row(l, rest, r), OrderedAnd::NonRow(tup)) => unify_row_fields_ref(
            l,
            rest,
            r,
            tup,
            subs,
            vars,
        ),
        (OrderedAnd::Row(_, _, _), OrderedAnd::Row(_, _, _)) => {
            proof {
                assert(false);
            }
            Ok(())
        },
    }
}

// ---------------------------------------------------------------------
// Unification of owned values

impl Type {
    /// Unifies the type with `other`, adding the bindings found to `subs`
    /// and drawing fresh variables from `var_state`.
    pub fn unify_with(self, other: Type, subs: &mut Subs, var_state: &mut VarState) -> (result:
        Result<(), TypeError>)
        requires
            unify_type(self@, other@, old(subs)@, old(var_state)@) is Some,
        ensures
            unify_type(self@, other@, old(subs)@, old(var_state)@) == outcome(
                result,
                *final(subs),
                *final(var_state),
            ),
    {
        unify_type_ref(&self, &other, subs, var_state)
    }
}

impl MutType {
    /// Unifies the mutability with `other`, adding the binding found to
    /// `subs`.
    pub fn unify_with(self, other: MutType, subs: &mut Subs, var_state: &mut VarState) -> (result:
        Result<(), TypeError>)
        ensures
            unify_mut(self@, other@, old(subs)@, old(var_state)@) == (Unified {
                result,
                subs: final(subs)@,
                vars: final(var_state)@,
            }),
    {
        unify_mut_ref(&self, &other, subs, var_state)
    }
}

impl Cons {
    /// Unifies the constructor with `other`.
    pub fn unify_with(self, other: Cons, subs: &mut Subs, var_state: &mut VarState) -> (result:
        Result<(), TypeError>)
        requires
            unify_cons(cons_view(self), cons_view(other), old(subs)@, old(var_state)@) is Some,
        ensures
            unify_cons(cons_view(self), cons_view(other), old(subs)@, old(var_state)@) == outcome(
                result,
                *final(subs),
                *final(var_state),
            ),
    {
        unify_cons_ref(&self, &other, subs, var_state)
    }
}

impl Keyed {
    /// Unifies two keyed rows of the given kind: the common fields pairwise,
    /// then each row variable with the fields only the other side has.
    pub fn unify_with(
        self,
        other: Keyed,
        subs: &mut Subs,
        var_state: &mut VarState,
        kind: KeyedKind,
    ) -> (result: Result<(), TypeError>)
        requires
            unify_keyed(keyed_view(self), keyed_view(other), kind, old(subs)@, old(var_state)@) is Some,
        ensures
            unify_keyed(keyed_view(self), keyed_view(other), kind, old(subs)@, old(var_state)@)
                == outcome(result, *final(subs), *final(var_state)),
    {
        unify_keyed_ref(&self, &other, kind, subs, var_state)
    }
}

impl OrderedAnd<Type> {
    /// Unifies two tuples element by element; a row variable takes the
    /// elements the other side has in its place.
    pub fn unify_with(self, other: OrderedAnd<Type>, subs: &mut Subs, var_state: &mut VarState) -> (result:
        Result<(), TypeError>)
        requires
            unify_ordered_types(ordered_types_view(self), ordered_types_view(other), old(subs)@, old(var_state)@) is Some,
        ensures
            unify_ordered_types(ordered_types_view(self), ordered_types_view(other), old(subs)@, old(var_state)@)
                == outcome(result, *final(subs), *final(var_state)),
    {
        unify_ordered_types_ref(&self, &other, subs, var_state)
    }
}

impl OrderedAnd<(Atom, Type)> {
    /// Unifies two record tuples element by element, names included.
    pub fn unify_with(
        self,
        other: OrderedAnd<(Atom, Type)>,
        subs: &mut Subs,
        var_state: &mut VarState,
    ) -> (result: Result<(), TypeError>)
        requires
            unify_ordered_fields(ordered_fields_view(self), ordered_fields_view(other), old(subs)@, old(var_state)@) is Some,
        ensures
            unify_ordered_fields(ordered_fields_view(self), ordered_fields_view(other), old(subs)@, old(var_state)@)
                == outcome(result, *final(subs), *final(var_state)),
    {
        unify_ordered_fields_ref(&self, &other, subs, var_state)
    }
}

} // verus!
