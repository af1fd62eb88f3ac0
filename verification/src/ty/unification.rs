//! What unifying two types does: the bindings it adds to a substitution, the
//! fresh variables it draws, and the error it stops at.
//!
//! Unification walks both types side by side. A variable meets a type and is
//! bound to it (unless the type holds the variable); constructors must agree
//! and their parts are unified in order. Bindings are added to the
//! substitution as they are found, and are not applied to what follows.
use crate::ty::model::{
    fv_mut, fv_type, into_keyed, into_ordered, key_index, lemma_key_index,
    lemma_size_fields_elem, lemma_size_into_keyed, lemma_size_into_ordered, lemma_size_types_elem,
    mut_kv, size_cons, size_fields, size_ordered_fields, size_ordered_types, size_type, size_types,
    type_kv, ConsV, FieldV, KeyedKind, KeyedV, MutTypeV, OrderedAndV, Type1V, TypeV, VarV,
};
use crate::ty::TypeError;
use vstd::prelude::*;

verus! {

/// The state after a unification step: its outcome, the substitution and the
/// counters of variable names.
pub struct Unified {
    pub result: Result<(), TypeError>,
    pub subs: Map<VarV, Type1V>,
    pub vars: Map<Seq<char>, u32>,
}

pub open spec fn unified_ok(subs: Map<VarV, Type1V>, vars: Map<Seq<char>, u32>) -> Unified {
    Unified { result: Ok(()), subs, vars }
}

pub open spec fn unified_err(e: TypeError, subs: Map<VarV, Type1V>, vars: Map<Seq<char>, u32>) -> Unified {
    Unified { result: Err(e), subs, vars }
}

/// Whether a step leaves the rest of the walk to be done.
pub open spec fn goes_on(u: Option<Unified>) -> bool {
    u matches Some(v) && v.result is Ok
}

/// The number the next variable called `name` gets: counters start at one.
pub open spec fn next_id(vars: Map<Seq<char>, u32>, name: Seq<char>) -> u32 {
    if vars.contains_key(name) {
        vars[name]
    } else {
        1
    }
}

/// The name of fresh variables.
pub open spec fn fresh_name() -> Seq<char> {
    Seq::empty()
}

/// Binds the type variable `var` to `ty`. A variable meeting itself binds
/// nothing; a type holding the variable fails. A named variable meeting a
/// fresh one has the fresh one bound to it, so that names survive.
pub open spec fn bind_type(var: VarV, ty: TypeV, subs: Map<VarV, Type1V>) -> (Result<
    (),
    TypeError,
>, Map<VarV, Type1V>) {
    if ty == TypeV::Var(var) {
        (Ok(()), subs)
    } else if fv_type(ty).contains(type_kv(var)) {
        (Err(TypeError::InfiniteOccurrence), subs)
    } else if var.name.len() == 0 {
        (Ok(()), subs.insert(var, Type1V::Type(ty)))
    } else if ty is Var && ty->Var_0.name.len() == 0 {
        (Ok(()), subs.insert(ty->Var_0, Type1V::Type(TypeV::Var(var))))
    } else {
        (Ok(()), subs.insert(var, Type1V::Type(ty)))
    }
}

/// Binds the mutability variable `var` to `m`, as `bind_type` does.
pub open spec fn bind_mut(var: VarV, m: MutTypeV, subs: Map<VarV, Type1V>) -> (Result<
    (),
    TypeError,
>, Map<VarV, Type1V>) {
    if m == MutTypeV::Var(var) {
        (Ok(()), subs)
    } else if fv_mut(m).contains(mut_kv(var)) {
        (Err(TypeError::InfiniteOccurrence), subs)
    } else if var.name.len() == 0 {
        (Ok(()), subs.insert(var, Type1V::MutType(m)))
    } else if m is Var && m->Var_0.name.len() == 0 {
        (Ok(()), subs.insert(m->Var_0, Type1V::MutType(MutTypeV::Var(var))))
    } else {
        (Ok(()), subs.insert(var, Type1V::MutType(m)))
    }
}

pub open spec fn from_bind(
    bound: (Result<(), TypeError>, Map<VarV, Type1V>),
    vars: Map<Seq<char>, u32>,
) -> Unified {
    Unified { result: bound.0, subs: bound.1, vars }
}

pub open spec fn unify_mut(
    a: MutTypeV,
    b: MutTypeV,
    subs: Map<VarV, Type1V>,
    vars: Map<Seq<char>, u32>,
) -> Unified {
    match (a, b) {
        (MutTypeV::Mut, MutTypeV::Mut) => unified_ok(subs, vars),
        (MutTypeV::Imm, MutTypeV::Imm) => unified_ok(subs, vars),
        (MutTypeV::Var(var), m) => from_bind(bind_mut(var, m, subs), vars),
        (m, MutTypeV::Var(var)) => from_bind(bind_mut(var, m, subs), vars),
        _ => unified_err(TypeError::MismatchCons, subs, vars),
    }
}

/// The constructor of a keyed row of the given kind.
pub open spec fn keyed_cons(kind: KeyedKind, k: KeyedV) -> ConsV {
    match kind {
        KeyedKind::Record => ConsV::Record(k),
        KeyedKind::Union => ConsV::Union(k),
    }
}

/// The fields of `fields` whose names `other` lacks, in order.
pub open spec fn fields_absent_from(fields: Seq<FieldV>, other: Seq<FieldV>) -> Seq<FieldV>
    decreases fields.len(),
{
    if fields.len() == 0 {
        Seq::empty()
    } else {
        let kept = fields_absent_from(fields.drop_last(), other);
        if key_index(other, fields.last().0) is None {
            kept.push(fields.last())
        } else {
            kept
        }
    }
}

/// Unifies two types. `None` where the walk would not return: two row
/// tuples meeting, or the counter of fresh variables running out.
pub open spec fn unify_type(
    a: TypeV,
    b: TypeV,
    subs: Map<VarV, Type1V>,
    vars: Map<Seq<char>, u32>,
) -> Option<Unified>
    decreases size_type(a) + size_type(b), 0int,
{
    match (a, b) {
        (TypeV::Cons(c1), TypeV::Cons(c2)) => unify_cons(c1, c2, subs, vars),
        (TypeV::Var(var), t) => Some(from_bind(bind_type(var, t, subs), vars)),
        (t, TypeV::Var(var)) => Some(from_bind(bind_type(var, t, subs), vars)),
    }
}

pub open spec fn unify_cons(
    a: ConsV,
    b: ConsV,
    subs: Map<VarV, Type1V>,
    vars: Map<Seq<char>, u32>,
) -> Option<Unified>
    decreases size_cons(a) + size_cons(b), 0int,
{
    match (a, b) {
        (ConsV::Num, ConsV::Num) => Some(unified_ok(subs, vars)),
        (ConsV::Bool, ConsV::Bool) => Some(unified_ok(subs, vars)),
        (ConsV::Ref(m1, t1), ConsV::Ref(m2, t2)) => {
            let u = unify_mut(m1, m2, subs, vars);
            if u.result is Err {
                Some(u)
            } else {
                unify_type(*t1, *t2, u.subs, u.vars)
            }
        },
        (ConsV::Array(t1), ConsV::Array(t2)) => unify_type(*t1, *t2, subs, vars),
        (ConsV::Fun(p1, r1), ConsV::Fun(p2, r2)) => {
            let u = unify_type(*p1, *p2, subs, vars);
            if goes_on(u) {
                unify_type(*r1, *r2, u->Some_0.subs, u->Some_0.vars)
            } else {
                u
            }
        },
        (ConsV::Record(k1), ConsV::Record(k2)) => unify_keyed(
            k1,
            k2,
            KeyedKind::Record,
            subs,
            vars,
        ),
        (ConsV::Record(k), ConsV::RecordTuple(o)) => {
            proof {
                lemma_size_into_keyed(o);
            }
            unify_keyed(k, into_keyed(o), KeyedKind::Record, subs, vars)
        },
        (ConsV::RecordTuple(o), ConsV::Record(k)) => {
            proof {
                lemma_size_into_keyed(o);
            }
            unify_keyed(k, into_keyed(o), KeyedKind::Record, subs, vars)
        },
        (ConsV::Tuple(o1), ConsV::Tuple(o2)) => unify_ordered_types(o1, o2, subs, vars),
        (ConsV::Tuple(o), ConsV::RecordTuple(r)) => {
            proof {
                lemma_size_into_ordered(r);
            }
            unify_ordered_types(o, into_ordered(r), subs, vars)
        },
        (ConsV::RecordTuple(r), ConsV::Tuple(o)) => {
            proof {
                lemma_size_into_ordered(r);
            }
            unify_ordered_types(o, into_ordered(r), subs, vars)
        },
        (ConsV::RecordTuple(r1), ConsV::RecordTuple(r2)) => unify_ordered_fields(
            r1,
            r2,
            subs,
            vars,
        ),
        (ConsV::Union(k1), ConsV::Union(k2)) => unify_keyed(k1, k2, KeyedKind::Union, subs, vars),
        _ => Some(unified_err(TypeError::MismatchCons, subs, vars)),
    }
}

/// Unifies the types of the fields of `f1` with those of the same name in
/// `f2`, in the order of `f1`.
pub open spec fn unify_common(
    f1: Seq<FieldV>,
    f2: Seq<FieldV>,
    subs: Map<VarV, Type1V>,
    vars: Map<Seq<char>, u32>,
) -> Option<Unified>
    decreases size_fields(f1) + size_fields(f2), 1int,
{
    if f1.len() == 0 {
        Some(unified_ok(subs, vars))
    } else {
        let u = unify_common(f1.drop_last(), f2, subs, vars);
        if goes_on(u) {
            let last = f1[f1.len() - 1];
            match key_index(f2, last.0) {
                None => u,
                Some(j) => {
                    proof {
                        lemma_key_index(f2, last.0);
                        lemma_size_fields_elem(f2, j as int);
                    }
                    unify_type(last.1, f2[j as int].1, u->Some_0.subs, u->Some_0.vars)
                },
            }
        } else {
            u
        }
    }
}

/// Binds the row variables of two keyed rows after their common fields are
/// unified: each row variable takes the fields only the other side has.
pub open spec fn unify_rests(
    k1: KeyedV,
    k2: KeyedV,
    kind: KeyedKind,
    subs: Map<VarV, Type1V>,
    vars: Map<Seq<char>, u32>,
) -> Option<Unified> {
    let only1 = fields_absent_from(k1.fields, k2.fields);
    let only2 = fields_absent_from(k2.fields, k1.fields);
    match (k1.rest, k2.rest) {
        (Some(r1), Some(r2)) => {
            let id = next_id(vars, fresh_name());
            if id == u32::MAX {
                None
            } else {
                let fresh = VarV { name: fresh_name(), id };
                let row1 = keyed_cons(kind, KeyedV { fields: only2, rest: Some(fresh) });
                let row2 = keyed_cons(kind, KeyedV { fields: only1, rest: Some(fresh) });
                Some(
                    unified_ok(
                        subs.insert(r1, Type1V::Type(TypeV::Cons(row1))).insert(
                            r2,
                            Type1V::Type(TypeV::Cons(row2)),
                        ),
                        vars.insert(fresh_name(), (id + 1) as u32),
                    ),
                )
            }
        },
        (Some(r1), None) => if only1.len() > 0 {
            Some(unified_err(TypeError::MismatchArity, subs, vars))
        } else {
            let row = keyed_cons(kind, KeyedV { fields: only2, rest: None });
            Some(unified_ok(subs.insert(r1, Type1V::Type(TypeV::Cons(row))), vars))
        },
        (None, Some(r2)) => if only2.len() > 0 {
            Some(unified_err(TypeError::MismatchArity, subs, vars))
        } else {
            let row = keyed_cons(kind, KeyedV { fields: only1, rest: None });
            Some(unified_ok(subs.insert(r2, Type1V::Type(TypeV::Cons(row))), vars))
        },
        (None, None) => if only1.len() > 0 || only2.len() > 0 {
            Some(unified_err(TypeError::MismatchArity, subs, vars))
        } else {
            Some(unified_ok(subs, vars))
        },
    }
}

pub open spec fn unify_keyed(
    k1: KeyedV,
    k2: KeyedV,
    kind: KeyedKind,
    subs: Map<VarV, Type1V>,
    vars: Map<Seq<char>, u32>,
) -> Option<Unified>
    decreases size_fields(k1.fields) + size_fields(k2.fields), 2int,
{
    let u = unify_common(k1.fields, k2.fields, subs, vars);
    if goes_on(u) {
        unify_rests(k1, k2, kind, u->Some_0.subs, u->Some_0.vars)
    } else {
        u
    }
}

/// Unifies two lists of types element by element, in order (the lists are
/// of equal length where this is used).
pub open spec fn unify_zip_types(
    a: Seq<TypeV>,
    b: Seq<TypeV>,
    subs: Map<VarV, Type1V>,
    vars: Map<Seq<char>, u32>,
) -> Option<Unified>
    decreases size_types(a) + size_types(b), 1int,
{
    if a.len() == 0 || b.len() == 0 {
        Some(unified_ok(subs, vars))
    } else {
        let u = unify_zip_types(a.drop_last(), b.drop_last(), subs, vars);
        if goes_on(u) {
            unify_type(a[a.len() - 1], b[b.len() - 1], u->Some_0.subs, u->Some_0.vars)
        } else {
            u
        }
    }
}

/// Unifies two lists of named types element by element: the names must
/// agree, then the types are unified.
pub open spec fn unify_zip_fields(
    a: Seq<FieldV>,
    b: Seq<FieldV>,
    subs: Map<VarV, Type1V>,
    vars: Map<Seq<char>, u32>,
) -> Option<Unified>
    decreases size_fields(a) + size_fields(b), 1int,
{
    if a.len() == 0 || b.len() == 0 {
        Some(unified_ok(subs, vars))
    } else {
        let u = unify_zip_fields(a.drop_last(), b.drop_last(), subs, vars);
        if goes_on(u) {
            let (x, y) = (a[a.len() - 1], b[b.len() - 1]);
            if x.0 != y.0 {
                Some(unified_err(TypeError::MismatchName, u->Some_0.subs, u->Some_0.vars))
            } else {
                unify_type(x.1, y.1, u->Some_0.subs, u->Some_0.vars)
            }
        } else {
            u
        }
    }
}

/// The left part, the middle and the right part of `s`, the outer parts of
/// lengths `l` and `r`.
pub open spec fn split3<T>(s: Seq<T>, l: int, r: int) -> (Seq<T>, Seq<T>, Seq<T>) {
    (s.subrange(0, l), s.subrange(l, s.len() - r), s.subrange(s.len() - r, s.len() as int))
}

pub open spec fn unify_ordered_types(
    o1: OrderedAndV<TypeV>,
    o2: OrderedAndV<TypeV>,
    subs: Map<VarV, Type1V>,
    vars: Map<Seq<char>, u32>,
) -> Option<Unified>
    decreases size_ordered_types(o1) + size_ordered_types(o2), 2int,
{
    match (o1, o2) {
        (OrderedAndV::NonRow(t1), OrderedAndV::NonRow(t2)) => if t1.len() != t2.len() {
            Some(unified_err(TypeError::MismatchArity, subs, vars))
        } else {
            unify_zip_types(t1, t2, subs, vars)
        },
        (OrderedAndV::NonRow(tup), OrderedAndV::Row(l, rest, r)) => unify_row_types(
            l,
            rest,
            r,
            tup,
            subs,
            vars,
        ),
        (OrderedAndV::Row(l, rest, r), OrderedAndV::NonRow(tup)) => unify_row_types(
            l,
            rest,
            r,
            tup,
            subs,
            vars,
        ),
        (OrderedAndV::Row(_, _, _), OrderedAndV::Row(_, _, _)) => None,
    }
}

/// A tuple with a row variable against one without: the outer parts are
/// unified with the ends of the other, and the row variable is bound to the
/// middle.
pub open spec fn unify_row_types(
    l: Seq<TypeV>,
    rest: VarV,
    r: Seq<TypeV>,
    tup: Seq<TypeV>,
    subs: Map<VarV, Type1V>,
    vars: Map<Seq<char>, u32>,
) -> Option<Unified>
    decreases size_types(l) + 1 + size_types(r) + size_types(tup), 1int,
{
    if l.len() + r.len() > tup.len() {
        Some(unified_err(TypeError::MismatchArity, subs, vars))
    } else {
        let (l2, mid, r2) = split3(tup, l.len() as int, r.len() as int);
        proof {
            lemma_size_types_split3(tup, l.len() as int, r.len() as int);
        }
        let u = unify_zip_types(l, l2, subs, vars);
        if goes_on(u) {
            let w = unify_zip_types(r, r2, u->Some_0.subs, u->Some_0.vars);
            if goes_on(w) {
                let row = ConsV::Tuple(OrderedAndV::NonRow(mid));
                Some(
                    unified_ok(
                        w->Some_0.subs.insert(rest, Type1V::Type(TypeV::Cons(row))),
                        w->Some_0.vars,
                    ),
                )
            } else {
                w
            }
        } else {
            u
        }
    }
}

pub open spec fn unify_ordered_fields(
    o1: OrderedAndV<FieldV>,
    o2: OrderedAndV<FieldV>,
    subs: Map<VarV, Type1V>,
    vars: Map<Seq<char>, u32>,
) -> Option<Unified>
    decreases size_ordered_fields(o1) + size_ordered_fields(o2), 2int,
{
    match (o1, o2) {
        (OrderedAndV::NonRow(t1), OrderedAndV::NonRow(t2)) => if t1.len() != t2.len() {
            Some(unified_err(TypeError::MismatchArity, subs, vars))
        } else {
            unify_zip_fields(t1, t2, subs, vars)
        },
        (OrderedAndV::NonRow(tup), OrderedAndV::Row(l, rest, r)) => unify_row_fields(
            l,
            rest,
            r,
            tup,
            subs,
            vars,
        ),
        (OrderedAndV::Row(l, rest, r), OrderedAndV::NonRow(tup)) => unify_row_fields(
            l,
            rest,
            r,
            tup,
            subs,
            vars,
        ),
        (OrderedAndV::Row(_, _, _), OrderedAndV::Row(_, _, _)) => None,
    }
}

/// A record tuple with a row variable against one without, as
/// `unify_row_types` does.
pub open spec fn unify_row_fields(
    l: Seq<FieldV>,
    rest: VarV,
    r: Seq<FieldV>,
    tup: Seq<FieldV>,
    subs: Map<VarV, Type1V>,
    vars: Map<Seq<char>, u32>,
) -> Option<Unified>
    decreases size_fields(l) + 1 + size_fields(r) + size_fields(tup), 1int,
{
    if l.len() + r.len() > tup.len() {
        Some(unified_err(TypeError::MismatchArity, subs, vars))
    } else {
        let (l2, mid, r2) = split3(tup, l.len() as int, r.len() as int);
        proof {
            lemma_size_fields_split3(tup, l.len() as int, r.len() as int);
        }
        let u = unify_zip_fields(l, l2, subs, vars);
        if goes_on(u) {
            let w = unify_zip_fields(r, r2, u->Some_0.subs, u->Some_0.vars);
            if goes_on(w) {
                let row = ConsV::RecordTuple(OrderedAndV::NonRow(mid));
                Some(
                    unified_ok(
                        w->Some_0.subs.insert(rest, Type1V::Type(TypeV::Cons(row))),
                        w->Some_0.vars,
                    ),
                )
            } else {
                w
            }
        } else {
            u
        }
    }
}

// ---------------------------------------------------------------------
// Sizes of parts

pub proof fn lemma_size_types_add(a: Seq<TypeV>, b: Seq<TypeV>)
    ensures
        size_types(a + b) == size_types(a) + size_types(b),
    decreases b.len(),
{
    if b.len() == 0 {
        assert(a + b =~= a);
    } else {
        lemma_size_types_add(a, b.drop_last());
        assert((a + b).drop_last() =~= a + b.drop_last());
    }
}

pub proof fn lemma_size_types_split3(s: Seq<TypeV>, l: int, r: int)
    requires
        0 <= l,
        0 <= r,
        l + r <= s.len(),
    ensures
        size_types(split3(s, l, r).0) + size_types(split3(s, l, r).1) + size_types(
            split3(s, l, r).2,
        ) == size_types(s),
{
    let (a, b, c) = split3(s, l, r);
    lemma_size_types_add(a, b);
    lemma_size_types_add(a + b, c);
    assert(a + b + c =~= s);
}

pub proof fn lemma_size_fields_split3(s: Seq<FieldV>, l: int, r: int)
    requires
        0 <= l,
        0 <= r,
        l + r <= s.len(),
    ensures
        size_fields(split3(s, l, r).0) + size_fields(split3(s, l, r).1) + size_fields(
            split3(s, l, r).2,
        ) == size_fields(s),
{
    let (a, b, c) = split3(s, l, r);
    crate::ty::model::lemma_size_fields_add(a, b);
    crate::ty::model::lemma_size_fields_add(a + b, c);
    assert(a + b + c =~= s);
}

// ---------------------------------------------------------------------
// A walk that stops in a prefix stops the whole walk there

pub proof fn lemma_common_stop(
    f1: Seq<FieldV>,
    f2: Seq<FieldV>,
    k: int,
    subs: Map<VarV, Type1V>,
    vars: Map<Seq<char>, u32>,
)
    requires
        0 <= k <= f1.len(),
        !goes_on(unify_common(f1.subrange(0, k), f2, subs, vars)),
    ensures
        unify_common(f1, f2, subs, vars) == unify_common(f1.subrange(0, k), f2, subs, vars),
    decreases f1.len(),
{
    if k < f1.len() {
        assert(f1.drop_last().subrange(0, k) =~= f1.subrange(0, k));
        lemma_common_stop(f1.drop_last(), f2, k, subs, vars);
    } else {
        assert(f1.subrange(0, k) =~= f1);
    }
}

pub proof fn lemma_zip_types_stop(
    a: Seq<TypeV>,
    b: Seq<TypeV>,
    k: int,
    subs: Map<VarV, Type1V>,
    vars: Map<Seq<char>, u32>,
)
    requires
        a.len() == b.len(),
        0 <= k <= a.len(),
        !goes_on(unify_zip_types(a.subrange(0, k), b.subrange(0, k), subs, vars)),
    ensures
        unify_zip_types(a, b, subs, vars) == unify_zip_types(
            a.subrange(0, k),
            b.subrange(0, k),
            subs,
            vars,
        ),
    decreases a.len(),
{
    if k < a.len() {
        assert(a.drop_last().subrange(0, k) =~= a.subrange(0, k));
        assert(b.drop_last().subrange(0, k) =~= b.subrange(0, k));
        lemma_zip_types_stop(a.drop_last(), b.drop_last(), k, subs, vars);
    } else {
        assert(a.subrange(0, k) =~= a);
        assert(b.subrange(0, k) =~= b);
    }
}

pub proof fn lemma_zip_fields_stop(
    a: Seq<FieldV>,
    b: Seq<FieldV>,
    k: int,
    subs: Map<VarV, Type1V>,
    vars: Map<Seq<char>, u32>,
)
    requires
        a.len() == b.len(),
        0 <= k <= a.len(),
        !goes_on(unify_zip_fields(a.subrange(0, k), b.subrange(0, k), subs, vars)),
    ensures
        unify_zip_fields(a, b, subs, vars) == unify_zip_fields(
            a.subrange(0, k),
            b.subrange(0, k),
            subs,
            vars,
        ),
    decreases a.len(),
{
    if k < a.len() {
        assert(a.drop_last().subrange(0, k) =~= a.subrange(0, k));
        assert(b.drop_last().subrange(0, k) =~= b.subrange(0, k));
        lemma_zip_fields_stop(a.drop_last(), b.drop_last(), k, subs, vars);
    } else {
        assert(a.subrange(0, k) =~= a);
        assert(b.subrange(0, k) =~= b);
    }
}

} // verus!
