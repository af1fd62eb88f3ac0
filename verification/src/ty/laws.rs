//! Properties of substitution, unification, fresh variables and
//! environments that hold across calls.
use crate::ty::model::{
    fv_type, key_index, lemma_key_index, lemma_size_fields_elem, lemma_size_types_elem,
    size_cons, size_fields, size_ordered_types, size_type, size_types, subst_cons, subst_fields,
    subst_keyed, subst_ordered_types, subst_type, subst_types, type_kv, ConsV, FieldV,
    KeyedKind, KeyedV,
    MutTypeV, OrderedAndV, Type1V, TypeV, VarV,
};
use crate::ty::scheme::{env_fv, scheme_fv, SchemeMutV, SchemeV};
use crate::ty::unification::{
    fields_absent_from, goes_on, next_id, unified_err, unified_ok, unify_common, unify_cons, unify_rests,
    unify_keyed, unify_mut, unify_type, unify_zip_fields, unify_zip_types,
};
use crate::ty::TypeError;
use vstd::prelude::*;

verus! {

/// Two variables drawn one after the other are different: the second draw
/// of a name is numbered one past the first, and different names give
/// different variables.
pub proof fn law_fresh_vars_distinct(vars: Map<Seq<char>, u32>, first: Seq<char>, second: Seq<char>)
    requires
        next_id(vars, first) < u32::MAX,
    ensures
        ({
            let id1 = next_id(vars, first);
            let after = vars.insert(first, (id1 + 1) as u32);
            let id2 = next_id(after, second);
            &&& first == second ==> id2 == id1 + 1
            &&& VarV { name: first, id: id1 } != VarV { name: second, id: id2 }
        }),
{
}

/// The counters after drawing a variable of each of `names` in turn,
/// starting from `vars`.
pub open spec fn counters_after(vars: Map<Seq<char>, u32>, names: Seq<Seq<char>>) -> Map<
    Seq<char>,
    u32,
>
    decreases names.len(),
{
    if names.len() == 0 {
        vars
    } else {
        let before = counters_after(vars, names.drop_last());
        before.insert(names.last(), (next_id(before, names.last()) + 1) as u32)
    }
}

/// The `i`-th variable drawn when drawing one of each of `names` in turn.
pub open spec fn drawn(vars: Map<Seq<char>, u32>, names: Seq<Seq<char>>, i: int) -> VarV {
    VarV { name: names[i], id: next_id(counters_after(vars, names.take(i)), names[i]) }
}

/// No counter runs out while drawing `names` in turn.
pub open spec fn draws_fit(vars: Map<Seq<char>, u32>, names: Seq<Seq<char>>) -> bool {
    forall|i: int|
        0 <= i < names.len() ==> #[trigger] next_id(counters_after(vars, names.take(i)), names[i])
            < u32::MAX
}

/// After the `i`-th draw, the counter of its name stays past its number.
proof fn lemma_counter_passes(vars: Map<Seq<char>, u32>, names: Seq<Seq<char>>, i: int, k: int)
    requires
        0 <= i < k <= names.len(),
        draws_fit(vars, names),
    ensures
        next_id(counters_after(vars, names.take(k)), names[i]) > drawn(vars, names, i).id,
    decreases k,
{
    assert(names.take(k).drop_last() =~= names.take(k - 1));
    assert(names.take(k).last() == names[k - 1]);
    assert(next_id(counters_after(vars, names.take(k - 1)), names[k - 1]) < u32::MAX);
    if k > i + 1 {
        lemma_counter_passes(vars, names, i, k - 1);
    }
}

/// Variables drawn one after the other from the same counters are all
/// different, whatever names are drawn in between: each draw of a name is
/// numbered past every earlier draw of it.
pub proof fn law_drawn_vars_distinct(
    vars: Map<Seq<char>, u32>,
    names: Seq<Seq<char>>,
    i: int,
    j: int,
)
    requires
        draws_fit(vars, names),
        0 <= i < j < names.len(),
    ensures
        drawn(vars, names, i) != drawn(vars, names, j),
{
    lemma_counter_passes(vars, names, i, j);
}

/// Unifying a variable with a type that does not hold it binds it: a
/// fresh variable to the type, a named one to the type unless the type is
/// a fresh variable, which is then bound to the named one.
pub proof fn law_unify_binds_variable(
    v: VarV,
    t: TypeV,
    subs: Map<VarV, Type1V>,
    vars: Map<Seq<char>, u32>,
)
    requires
        t != TypeV::Var(v),
        !fv_type(t).contains(type_kv(v)),
    ensures
        unify_type(TypeV::Var(v), t, subs, vars) == Some(
            if v.name.len() != 0 && t is Var && t->Var_0.name.len() == 0 {
                unified_ok(subs.insert(t->Var_0, Type1V::Type(TypeV::Var(v))), vars)
            } else {
                unified_ok(subs.insert(v, Type1V::Type(t)), vars)
            },
        ),
{
}

/// A variable never unifies with a larger type that holds it (the occurs
/// check): the substitution and the counters are left as they were.
pub proof fn law_occurs_check(
    v: VarV,
    t: TypeV,
    subs: Map<VarV, Type1V>,
    vars: Map<Seq<char>, u32>,
)
    requires
        t != TypeV::Var(v),
        fv_type(t).contains(type_kv(v)),
    ensures
        unify_type(TypeV::Var(v), t, subs, vars) == Some(
            unified_err(TypeError::InfiniteOccurrence, subs, vars),
        ),
        unify_type(t, TypeV::Var(v), subs, vars) == Some(
            unified_err(TypeError::InfiniteOccurrence, subs, vars),
        ),
{
    assert(t is Var ==> fv_type(t) == set![type_kv(t->Var_0)]);
}

/// Generalizing a type over an environment leaves free only variables the
/// environment holds free: no variable escapes.
pub proof fn law_generalize_closed(env: Map<VarV, SchemeMutV>, t: TypeV)
    ensures
        scheme_fv(
            SchemeV { for_all: fv_type(t).difference(env_fv(env)), order: Seq::empty(), ty: t },
        ).subset_of(
            env_fv(env),
        ),
{
}

/// Binding a variable in an environment and reading it back gives what was
/// bound; other variables keep their schemes.
pub proof fn law_env_read_after_write(
    env: Map<VarV, SchemeMutV>,
    v: VarV,
    w: VarV,
    s: SchemeMutV,
)
    ensures
        env.insert(v, s).contains_key(v) && env.insert(v, s)[v] == s,
        v != w ==> (env.insert(v, s).contains_key(w) == env.contains_key(w)),
        v != w && env.contains_key(w) ==> env.insert(v, s)[w] == env[w],
        !env.remove(v).contains_key(v),
{
}

// ---------------------------------------------------------------------
// Unifying a type with itself

/// No two fields have the same name.
pub open spec fn distinct_names(fields: Seq<FieldV>) -> bool {
    forall|i: int, j: int| 0 <= i < j < fields.len() ==> fields[i].0 != fields[j].0
}

/// A type without row variables, whose records and unions name each field
/// once.
pub open spec fn closed_type(t: TypeV) -> bool
    decreases size_type(t),
{
    match t {
        TypeV::Var(_) => true,
        TypeV::Cons(c) => closed_cons(c),
    }
}

pub open spec fn closed_cons(c: ConsV) -> bool
    decreases size_cons(c),
{
    match c {
        ConsV::Num | ConsV::Bool => true,
        ConsV::Ref(_, t) => closed_type(*t),
        ConsV::Array(t) => closed_type(*t),
        ConsV::Fun(p, r) => closed_type(*p) && closed_type(*r),
        ConsV::Record(k) => k.rest is None && distinct_names(k.fields) && closed_fields(k.fields),
        ConsV::Union(k) => k.rest is None && distinct_names(k.fields) && closed_fields(k.fields),
        ConsV::Tuple(o) => match o {
            OrderedAndV::NonRow(ts) => closed_types(ts),
            OrderedAndV::Row(_, _, _) => false,
        },
        ConsV::RecordTuple(o) => match o {
            OrderedAndV::NonRow(fs) => closed_fields(fs),
            OrderedAndV::Row(_, _, _) => false,
        },
    }
}

pub open spec fn closed_fields(fs: Seq<FieldV>) -> bool
    decreases size_fields(fs),
{
    if fs.len() == 0 {
        true
    } else {
        closed_fields(fs.drop_last()) && closed_type(fs[fs.len() - 1].1)
    }
}

pub open spec fn closed_types(ts: Seq<TypeV>) -> bool
    decreases size_types(ts),
{
    if ts.len() == 0 {
        true
    } else {
        closed_types(ts.drop_last()) && closed_type(ts[ts.len() - 1])
    }
}

proof fn lemma_closed_fields_elem(fs: Seq<FieldV>, i: int)
    requires
        closed_fields(fs),
        0 <= i < fs.len(),
    ensures
        closed_type(fs[i].1),
    decreases fs.len(),
{
    if i < fs.len() - 1 {
        lemma_closed_fields_elem(fs.drop_last(), i);
    }
}

/// Every field of a list is present in the list: none is left over.
proof fn lemma_absent_self(fs: Seq<FieldV>, n: int)
    requires
        0 <= n <= fs.len(),
    ensures
        fields_absent_from(fs.subrange(0, n), fs).len() == 0,
    decreases n,
{
    if n > 0 {
        let p = fs.subrange(0, n);
        assert(p.drop_last() =~= fs.subrange(0, n - 1));
        lemma_absent_self(fs, n - 1);
        lemma_key_index(fs, fs[n - 1].0);
        assert(p.last() == fs[n - 1]);
    }
}

/// Unifying a type with itself succeeds and binds nothing, for types
/// without row variables whose records and unions name each field once.
pub proof fn law_unify_self(t: TypeV, subs: Map<VarV, Type1V>, vars: Map<Seq<char>, u32>)
    requires
        closed_type(t),
    ensures
        unify_type(t, t, subs, vars) == Some(unified_ok(subs, vars)),
    decreases size_type(t), 0int,
{
    match t {
        TypeV::Var(_) => {},
        TypeV::Cons(c) => lemma_unify_cons_self(c, subs, vars),
    }
}

proof fn lemma_unify_cons_self(c: ConsV, subs: Map<VarV, Type1V>, vars: Map<Seq<char>, u32>)
    requires
        closed_cons(c),
    ensures
        unify_cons(c, c, subs, vars) == Some(unified_ok(subs, vars)),
    decreases size_cons(c), 0int,
{
    match c {
        ConsV::Num | ConsV::Bool => {},
        ConsV::Ref(m, t) => {
            assert(unify_mut(m, m, subs, vars) == unified_ok(subs, vars));
            law_unify_self(*t, subs, vars);
        },
        ConsV::Array(t) => law_unify_self(*t, subs, vars),
        ConsV::Fun(p, r) => {
            law_unify_self(*p, subs, vars);
            law_unify_self(*r, subs, vars);
        },
        ConsV::Record(k) => lemma_unify_keyed_self(k, KeyedKind::Record, subs, vars),
        ConsV::Union(k) => lemma_unify_keyed_self(k, KeyedKind::Union, subs, vars),
        ConsV::Tuple(o) => match o {
            OrderedAndV::NonRow(ts) => lemma_zip_types_self(ts, subs, vars),
            OrderedAndV::Row(_, _, _) => {},
        },
        ConsV::RecordTuple(o) => match o {
            OrderedAndV::NonRow(fs) => lemma_zip_fields_self(fs, subs, vars),
            OrderedAndV::Row(_, _, _) => {},
        },
    }
}

proof fn lemma_unify_keyed_self(
    k: KeyedV,
    kind: KeyedKind,
    subs: Map<VarV, Type1V>,
    vars: Map<Seq<char>, u32>,
)
    requires
        k.rest is None,
        distinct_names(k.fields),
        closed_fields(k.fields),
    ensures
        unify_keyed(k, k, kind, subs, vars) == Some(unified_ok(subs, vars)),
    decreases size_fields(k.fields) + 1, 0int,
{
    lemma_unify_common_self(k.fields, k.fields.len() as int, subs, vars);
    assert(k.fields.subrange(0, k.fields.len() as int) =~= k.fields);
    lemma_absent_self(k.fields, k.fields.len() as int);
}

proof fn lemma_unify_common_self(
    fs: Seq<FieldV>,
    n: int,
    subs: Map<VarV, Type1V>,
    vars: Map<Seq<char>, u32>,
)
    requires
        0 <= n <= fs.len(),
        distinct_names(fs),
        closed_fields(fs),
    ensures
        unify_common(fs.subrange(0, n), fs, subs, vars) == Some(unified_ok(subs, vars)),
    decreases size_fields(fs), n,
{
    if n > 0 {
        let p = fs.subrange(0, n);
        assert(p.drop_last() =~= fs.subrange(0, n - 1));
        assert(p[p.len() - 1] == fs[n - 1]);
        lemma_unify_common_self(fs, n - 1, subs, vars);
        lemma_key_index(fs, fs[n - 1].0);
        assert(key_index(fs, fs[n - 1].0) == Some((n - 1) as nat));
        lemma_closed_fields_elem(fs, n - 1);
        lemma_size_fields_elem(fs, n - 1);
        law_unify_self(fs[n - 1].1, subs, vars);
    } else {
        assert(fs.subrange(0, 0) =~= Seq::<FieldV>::empty());
    }
}

proof fn lemma_zip_types_self(ts: Seq<TypeV>, subs: Map<VarV, Type1V>, vars: Map<Seq<char>, u32>)
    requires
        closed_types(ts),
    ensures
        unify_zip_types(ts, ts, subs, vars) == Some(unified_ok(subs, vars)),
    decreases size_types(ts), 0int,
{
    if ts.len() > 0 {
        lemma_zip_types_self(ts.drop_last(), subs, vars);
        lemma_size_types_elem(ts, ts.len() - 1);
        law_unify_self(ts[ts.len() - 1], subs, vars);
    }
}

proof fn lemma_zip_fields_self(fs: Seq<FieldV>, subs: Map<VarV, Type1V>, vars: Map<Seq<char>, u32>)
    requires
        closed_fields(fs),
    ensures
        unify_zip_fields(fs, fs, subs, vars) == Some(unified_ok(subs, vars)),
    decreases size_fields(fs), 0int,
{
    if fs.len() > 0 {
        lemma_zip_fields_self(fs.drop_last(), subs, vars);
        lemma_size_fields_elem(fs, fs.len() - 1);
        law_unify_self(fs[fs.len() - 1].1, subs, vars);
    }
}

// ---------------------------------------------------------------------
// Substituting nothing

/// A type without a record tuple that has a row variable: the one shape
/// that substitution requires a binding for.
pub open spec fn no_record_tuple_row(t: TypeV) -> bool
    decreases size_type(t),
{
    match t {
        TypeV::Var(_) => true,
        TypeV::Cons(c) => no_record_tuple_row_cons(c),
    }
}

pub open spec fn no_record_tuple_row_cons(c: ConsV) -> bool
    decreases size_cons(c),
{
    match c {
        ConsV::Num | ConsV::Bool => true,
        ConsV::Ref(_, t) => no_record_tuple_row(*t),
        ConsV::Array(t) => no_record_tuple_row(*t),
        ConsV::Fun(p, r) => no_record_tuple_row(*p) && no_record_tuple_row(*r),
        ConsV::Record(k) => no_record_tuple_row_fields(k.fields),
        ConsV::Union(k) => no_record_tuple_row_fields(k.fields),
        ConsV::Tuple(o) => match o {
            OrderedAndV::NonRow(ts) => no_record_tuple_row_types(ts),
            OrderedAndV::Row(l, _, r) => no_record_tuple_row_types(l) && no_record_tuple_row_types(
                r,
            ),
        },
        ConsV::RecordTuple(o) => match o {
            OrderedAndV::NonRow(fs) => no_record_tuple_row_fields(fs),
            OrderedAndV::Row(_, _, _) => false,
        },
    }
}

pub open spec fn no_record_tuple_row_fields(fs: Seq<FieldV>) -> bool
    decreases size_fields(fs),
{
    if fs.len() == 0 {
        true
    } else {
        no_record_tuple_row_fields(fs.drop_last()) && no_record_tuple_row(fs[fs.len() - 1].1)
    }
}

pub open spec fn no_record_tuple_row_types(ts: Seq<TypeV>) -> bool
    decreases size_types(ts),
{
    if ts.len() == 0 {
        true
    } else {
        no_record_tuple_row_types(ts.drop_last()) && no_record_tuple_row(ts[ts.len() - 1])
    }
}

/// Substituting with the empty substitution changes nothing, for types
/// without a record tuple with a row variable (which fails when its row
/// variable is unbound).
pub proof fn law_subst_empty(t: TypeV)
    requires
        no_record_tuple_row(t),
    ensures
        subst_type(t, Map::empty()) == Ok::<TypeV, TypeError>(t),
    decreases size_type(t),
{
    match t {
        TypeV::Var(_) => {},
        TypeV::Cons(c) => lemma_subst_cons_empty(c),
    }
}

proof fn lemma_subst_cons_empty(c: ConsV)
    requires
        no_record_tuple_row_cons(c),
    ensures
        subst_cons(c, Map::empty()) == Ok::<ConsV, TypeError>(c),
    decreases size_cons(c),
{
    match c {
        ConsV::Num | ConsV::Bool => {},
        ConsV::Ref(m, t) => {
            law_subst_empty(*t);
        },
        ConsV::Array(t) => law_subst_empty(*t),
        ConsV::Fun(p, r) => {
            law_subst_empty(*p);
            law_subst_empty(*r);
        },
        ConsV::Record(k) => {
            lemma_subst_fields_empty(k.fields);
            assert(subst_keyed(k, Map::empty(), KeyedKind::Record) == Ok::<KeyedV, TypeError>(k));
        },
        ConsV::Union(k) => {
            lemma_subst_fields_empty(k.fields);
            assert(subst_keyed(k, Map::empty(), KeyedKind::Union) == Ok::<KeyedV, TypeError>(k));
        },
        ConsV::Tuple(o) => {
            match o {
                OrderedAndV::NonRow(ts) => lemma_subst_types_empty(ts),
                OrderedAndV::Row(l, _, r) => {
                    lemma_subst_types_empty(l);
                    lemma_subst_types_empty(r);
                },
            }
            assert(subst_ordered_types(o, Map::empty()) == Ok::<OrderedAndV<TypeV>, TypeError>(o));
        },
        ConsV::RecordTuple(o) => match o {
            OrderedAndV::NonRow(fs) => lemma_subst_fields_empty(fs),
            OrderedAndV::Row(_, _, _) => {},
        },
    }
}

proof fn lemma_subst_fields_empty(fs: Seq<FieldV>)
    requires
        no_record_tuple_row_fields(fs),
    ensures
        subst_fields(fs, Map::empty()) == Ok::<Seq<FieldV>, TypeError>(fs),
    decreases size_fields(fs),
{
    if fs.len() > 0 {
        lemma_subst_fields_empty(fs.drop_last());
        law_subst_empty(fs[fs.len() - 1].1);
        assert(fs.drop_last().push((fs.last().0, fs.last().1)) =~= fs);
    } else {
        assert(fs =~= Seq::<FieldV>::empty());
    }
}

proof fn lemma_subst_types_empty(ts: Seq<TypeV>)
    requires
        no_record_tuple_row_types(ts),
    ensures
        subst_types(ts, Map::empty()) == Ok::<Seq<TypeV>, TypeError>(ts),
    decreases size_types(ts),
{
    if ts.len() > 0 {
        lemma_subst_types_empty(ts.drop_last());
        law_subst_empty(ts[ts.len() - 1]);
        assert(ts.drop_last().push(ts.last()) =~= ts);
    } else {
        assert(ts =~= Seq::<TypeV>::empty());
    }
}


/// Whether `b` binds a row variable of a union (`union`) or a record to a
/// constructor of the same kind whose fields are fields of `theirs` that
/// `mine` does not name: the other side's extra fields or variants.
pub open spec fn row_binding(b: Type1V, union: bool, mine: Seq<FieldV>, theirs: Seq<FieldV>) -> bool {
    b matches Type1V::Type(TypeV::Cons(c)) && (if union {
        c is Union
    } else {
        c is Record
    }) && {
        let k = if union {
            c->Union_0
        } else {
            c->Record_0
        };
        forall|i: int|
            0 <= i < k.fields.len() ==> theirs.contains(#[trigger] k.fields[i]) && key_index(
                mine,
                k.fields[i].0,
            ) is None
    }
}

/// The fields kept by `fields_absent_from` are fields of the list, absent
/// from the other list.
proof fn lemma_absent_from(fields: Seq<FieldV>, other: Seq<FieldV>)
    ensures
        forall|i: int|
            0 <= i < fields_absent_from(fields, other).len() ==> fields.contains(
                #[trigger] fields_absent_from(fields, other)[i],
            ) && key_index(other, fields_absent_from(fields, other)[i].0) is None,
    decreases fields.len(),
{
    if fields.len() > 0 {
        let prefix = fields.drop_last();
        lemma_absent_from(prefix, other);
        let kept = fields_absent_from(prefix, other);
        assert forall|i: int| 0 <= i < kept.len() implies fields.contains(kept[i]) by {
            let j = choose|j: int| 0 <= j < prefix.len() && prefix[j] == kept[i];
            assert(fields[j] == kept[i]);
        }
        assert(fields[fields.len() - 1] == fields.last());
    }
}

/// Unifying two unions binds each of their row variables to a union, and
/// two records each row variable to a record, made of the fields (or
/// variants) only the other side has; a row variable shared by both sides
/// is left out, as it is bound twice.
pub proof fn law_unify_rows_keep_kind(
    k1: KeyedV,
    k2: KeyedV,
    union: bool,
    subs: Map<VarV, Type1V>,
    vars: Map<Seq<char>, u32>,
)
    ensures
        ({
            let c1 = if union {
                ConsV::Union(k1)
            } else {
                ConsV::Record(k1)
            };
            let c2 = if union {
                ConsV::Union(k2)
            } else {
                ConsV::Record(k2)
            };
            let res = unify_type(TypeV::Cons(c1), TypeV::Cons(c2), subs, vars);
            let u = res->Some_0;
            res is Some && u.result is Ok ==> {
                &&& (k1.rest is Some && k2.rest != k1.rest ==> u.subs.contains_key(k1.rest->Some_0)
                    && row_binding(u.subs[k1.rest->Some_0], union, k1.fields, k2.fields))
                &&& (k2.rest is Some ==> u.subs.contains_key(k2.rest->Some_0) && row_binding(
                    u.subs[k2.rest->Some_0],
                    union,
                    k2.fields,
                    k1.fields,
                ))
            }
        }),
{
    lemma_absent_from(k1.fields, k2.fields);
    lemma_absent_from(k2.fields, k1.fields);
    let kind = if union {
        KeyedKind::Union
    } else {
        KeyedKind::Record
    };
    let u = unify_common(k1.fields, k2.fields, subs, vars);
    if goes_on(u) {
        let w = u->Some_0;
        assert(unify_keyed(k1, k2, kind, subs, vars) == unify_rests(k1, k2, kind, w.subs, w.vars));
    }
}

} // verus!
