//! Type inference of expressions: literals, variables, unary and binary
//! operators. Each operand is inferred, unified with what its operator
//! takes under a substitution of its own, which is then applied to the
//! operand's typed tree and composed into the running substitution.
use crate::expr::{
    Binary, Bound, Collection, Element, Expr, ExprKind, ExprV, FieldAccess, Jump, WithSplat, Index, Literal, LiteralV, PlaceExpr, PlaceV,
    Range, Slice, Tag, Unary,
};
use crate::expr::{CollectionV, JumpV, RangeV};
use crate::operator::{BinaryType, BoundType, ElementKind, UnaryType};
use crate::ty::cons::{Cons, Keyed, OrderedAnd};
use crate::ty::model::{
    subst_type, subst_type1, ConsV, KeyedV, MutTypeV, OrderedAndV, Type1V, TypeV, VarV,
};
use crate::ty::scheme::{renaming, Env, SchemeMutV, SchemeV};
use crate::ty::unification::{fresh_name, next_id, unified_ok, unify_type};
use crate::ty::{compose_map, types_view, Atom, MutType, Subs, Type, TypeError, Var, VarState};
use vstd::prelude::*;

verus! {

/// What inference gives: a type with the types of the typed tree in
/// preorder (the node's own first), the substitution and the counters
/// after it; an error; or an error that is not pinned down (composing
/// substitutions failed on some binding).
pub enum InferV {
    Done(TypeV, Seq<TypeV>, Map<VarV, Type1V>, Map<Seq<char>, u32>),
    Failed(TypeError),
    Unsettled,
}

/// An inferred expression: its type and the types of its typed tree in
/// preorder, the expression's own first.
pub struct Typed {
    pub ty: Type,
    pub types: Vec<Type>,
}

/// Whether `r`, with the substitution and counters left, is what `spec`
/// says.
pub open spec fn infers(spec: InferV, r: Result<Typed, TypeError>, subs: Subs, vars: VarState) -> bool {
    match spec {
        InferV::Done(t, ts, s, v) => r matches Ok(x) && x.ty@ == t && types_view(x.types@) == ts
            && subs@ == s && vars@ == v,
        InferV::Failed(e) => r == Err::<Typed, TypeError>(e),
        InferV::Unsettled => r is Err,
    }
}

/// Each type substituted in turn; the first failure is the answer.
pub open spec fn subst_all(ts: Seq<TypeV>, s: Map<VarV, Type1V>) -> Result<Seq<TypeV>, TypeError>
    decreases ts.len(),
{
    if ts.len() == 0 {
        Ok(Seq::empty())
    } else {
        match subst_all(ts.drop_last(), s) {
            Err(e) => Err(e),
            Ok(done) => match subst_type(ts.last(), s) {
                Err(e) => Err(e),
                Ok(t) => Ok(done.push(t)),
            },
        }
    }
}

/// Whether composing `first` with `second` succeeds: `second` applies to
/// every binding of `first`.
pub open spec fn compose_ok(first: Map<VarV, Type1V>, second: Map<VarV, Type1V>) -> bool {
    forall|v: VarV| #[trigger] first.contains_key(v) ==> subst_type1(first[v], second) is Ok
}

/// Unifies `a` with `b` under a fresh substitution, applies it to `extra`
/// and then to the typed tree `types`, and composes it into `subs`. `None`
/// where unification does not return.
pub open spec fn unify_step(
    types: Seq<TypeV>,
    extra: TypeV,
    a: TypeV,
    b: TypeV,
    subs: Map<VarV, Type1V>,
    vars: Map<Seq<char>, u32>,
) -> Option<InferV> {
    match unify_type(a, b, Map::empty(), vars) {
        None => None,
        Some(u) => Some(
            match u.result {
                Err(e) => InferV::Failed(e),
                Ok(_) => match subst_type(extra, u.subs) {
                    Err(e) => InferV::Failed(e),
                    Ok(x) => match subst_all(types, u.subs) {
                        Err(e) => InferV::Failed(e),
                        Ok(ts) => if compose_ok(subs, u.subs) {
                            InferV::Done(x, ts, compose_map(subs, u.subs), u.vars)
                        } else {
                            InferV::Unsettled
                        },
                    },
                },
            },
        ),
    }
}

/// A fresh variable drawn from `vars`, and the counters after; `None` when
/// the counter has run out.
pub open spec fn draw(vars: Map<Seq<char>, u32>) -> Option<(VarV, Map<Seq<char>, u32>)> {
    let id = next_id(vars, fresh_name());
    if id < u32::MAX {
        Some((VarV { name: fresh_name(), id }, vars.insert(fresh_name(), (id + 1) as u32)))
    } else {
        None
    }
}

/// The type of numbers.
pub open spec fn num() -> TypeV {
    TypeV::Cons(ConsV::Num)
}

/// The type of booleans.
pub open spec fn boolean() -> TypeV {
    TypeV::Cons(ConsV::Bool)
}

/// The type of a literal.
pub open spec fn literal_type(l: LiteralV) -> TypeV {
    match l {
        LiteralV::True | LiteralV::False => boolean(),
        _ => num(),
    }
}

/// What a unary operator makes of its operand, inferred as `t` with the
/// typed tree `ts`.
pub open spec fn infer_unary_rest(
    op: UnaryType,
    t: TypeV,
    ts: Seq<TypeV>,
    subs: Map<VarV, Type1V>,
    vars: Map<Seq<char>, u32>,
) -> Option<InferV> {
    match op {
        UnaryType::Move | UnaryType::Clone => Some(InferV::Done(t, seq![t] + ts, subs, vars)),
        UnaryType::Minus | UnaryType::Not => {
            let target = if op == UnaryType::Minus {
                num()
            } else {
                boolean()
            };
            match unify_step(ts, num(), t, target, subs, vars) {
                Some(InferV::Done(_, ts2, s2, v2)) => Some(
                    InferV::Done(target, seq![target] + ts2, s2, v2),
                ),
                other => other,
            }
        },
        UnaryType::Ref => match draw(vars) {
            None => None,
            Some((m, v2)) => {
                let ty = TypeV::Cons(ConsV::Ref(MutTypeV::Var(m), Box::new(t)));
                Some(InferV::Done(ty, seq![ty] + ts, subs, v2))
            },
        },
    }
}

/// The operand type and result type of a binary operator that takes no
/// fresh variable.
pub open spec fn binary_types(op: BinaryType) -> (TypeV, TypeV) {
    match op {
        BinaryType::Add | BinaryType::Sub | BinaryType::Multiply | BinaryType::Div
        | BinaryType::FloorDiv | BinaryType::Mod => (num(), num()),
        BinaryType::Equal | BinaryType::NotEqual | BinaryType::Greater | BinaryType::GreaterEqual
        | BinaryType::Less | BinaryType::LessEqual => (num(), boolean()),
        _ => (boolean(), boolean()),
    }
}

/// What a binary operator makes of its operands, inferred as `lt` (typed
/// tree `lts`) and `rt` (typed tree `rts`): both are unified in turn with
/// the type the operator takes.
pub open spec fn infer_binary_rest(
    op: BinaryType,
    lt: TypeV,
    lts: Seq<TypeV>,
    rt: TypeV,
    rts: Seq<TypeV>,
    subs: Map<VarV, Type1V>,
    vars: Map<Seq<char>, u32>,
) -> Option<InferV> {
    let types = if op == BinaryType::Concatenate {
        match draw(vars) {
            None => None,
            Some((w, v)) => {
                let array = TypeV::Cons(ConsV::Array(Box::new(TypeV::Var(w))));
                Some((array, array, v))
            },
        }
    } else {
        Some((binary_types(op).0, binary_types(op).1, vars))
    };
    match types {
        None => None,
        Some((operand, result, v0)) => match unify_step(lts, result, lt, operand, subs, v0) {
            Some(InferV::Done(r1, lts1, s1, v1)) => match unify_step(rts, r1, rt, operand, s1, v1) {
                Some(InferV::Done(r2, rts2, s2, v2)) => Some(
                    InferV::Done(r2, seq![r2] + lts1 + rts2, s2, v2),
                ),
                other => other,
            },
            other => other,
        },
    }
}

/// A fresh instance of the scheme `s`: its general variables renamed in
/// its order. `None` where a counter could run out.
pub open spec fn infer_instance(
    s: SchemeV,
    subs: Map<VarV, Type1V>,
    vars: Map<Seq<char>, u32>,
) -> Option<InferV> {
    if forall|n: Seq<char>| #[trigger] next_id(vars, n) + s.order.len() < u32::MAX {
        let (renamed, counters) = renaming(s.order, vars);
        match subst_type(s.ty, renamed) {
            Ok(t) => Some(InferV::Done(t, seq![t], subs, counters)),
            Err(e) => Some(InferV::Failed(e)),
        }
    } else {
        None
    }
}

/// The name a function's return type is bound to in the environment.
pub open spec fn return_name() -> Seq<char> {
    seq!['r', 'e', 't', 'u', 'r', 'n']
}

/// A record tuple of the row variable `r` alone.
pub open spec fn row_tuple(r: VarV) -> TypeV {
    TypeV::Cons(ConsV::RecordTuple(OrderedAndV::Row(Seq::empty(), r, Seq::empty())))
}

/// An array of the variable `a`.
pub open spec fn array_of(a: VarV) -> TypeV {
    TypeV::Cons(ConsV::Array(Box::new(TypeV::Var(a))))
}

/// A node over one operand whose step gave the node's type.
pub open spec fn node(step: Option<InferV>) -> Option<InferV> {
    match step {
        Some(InferV::Done(ty, ts, s, v)) => Some(InferV::Done(ty, seq![ty] + ts, s, v)),
        other => other,
    }
}

/// The type of `()`: the empty record tuple.
pub open spec fn unit_type() -> TypeV {
    TypeV::Cons(ConsV::RecordTuple(OrderedAndV::NonRow(Seq::empty())))
}

/// An array of numbers, the type of a range.
pub open spec fn num_array() -> TypeV {
    TypeV::Cons(ConsV::Array(Box::new(num())))
}

/// Inference of an optional bound of a range: its expression, unified with
/// a number. The type given is `()`.
pub open spec fn infer_bound(
    b: Option<(BoundType, Box<ExprV>)>,
    subs: Map<VarV, Type1V>,
    vars: Map<Seq<char>, u32>,
    env: Map<VarV, SchemeMutV>,
) -> Option<InferV>
    decreases b,
{
    match b {
        None => Some(InferV::Done(unit_type(), Seq::empty(), subs, vars)),
        Some((_, x)) => match infer_expr(*x, subs, vars, env) {
            Some(InferV::Done(t, ts, s1, v1)) => match unify_step(ts, num(), t, num(), s1, v1) {
                Some(InferV::Done(_, ts2, s2, v2)) => Some(InferV::Done(unit_type(), ts2, s2, v2)),
                other => other,
            },
            other => other,
        },
    }
}

/// Inference of a range: both bounds in turn. The type given is an array
/// of numbers; the typed tree holds the bounds' trees.
pub open spec fn infer_range(
    r: RangeV,
    subs: Map<VarV, Type1V>,
    vars: Map<Seq<char>, u32>,
    env: Map<VarV, SchemeMutV>,
) -> Option<InferV>
    decreases r,
{
    match infer_bound(r.left, subs, vars, env) {
        Some(InferV::Done(_, lts, s1, v1)) => match infer_bound(r.right, s1, v1, env) {
            Some(InferV::Done(_, rts, s2, v2)) => Some(InferV::Done(num_array(), lts + rts, s2, v2)),
            other => other,
        },
        other => other,
    }
}

/// Inference of the elements of an array in turn: each is unified with the
/// element type (a spread element with the array type), and the element and
/// array types follow the substitutions found. `acc` holds the typed trees
/// of the elements before.
pub open spec fn infer_elements(
    items: Seq<(ExprV, ElementKind)>,
    elem: TypeV,
    array: TypeV,
    acc: Seq<TypeV>,
    subs: Map<VarV, Type1V>,
    vars: Map<Seq<char>, u32>,
    env: Map<VarV, SchemeMutV>,
) -> Option<InferV>
    decreases items,
{
    if items.len() == 0 {
        Some(InferV::Done(array, acc, subs, vars))
    } else {
        proof {
            assert(decreases_to!(items => items[0]));
            assert(decreases_to!(items => items.drop_first()));
        }
        match infer_expr(items[0].0, subs, vars, env) {
            Some(InferV::Done(t, ts, s1, v1)) => {
                let target = if items[0].1 == ElementKind::Splat {
                    array
                } else {
                    elem
                };
                match unify_step(seq![array] + ts, elem, t, target, s1, v1) {
                    Some(InferV::Done(elem2, ts2, s2, v2)) => if ts2.len() > 0 {
                        infer_elements(items.drop_first(), elem2, ts2[0], acc + ts2.drop_first(), s2, v2, env)
                    } else {
                        None
                    },
                    other => other,
                }
            },
            other => other,
        }
    }
}

/// A tuple of the given types.
pub open spec fn tuple_of(types: Seq<TypeV>) -> TypeV {
    TypeV::Cons(ConsV::Tuple(OrderedAndV::NonRow(types)))
}

/// Inference of the items of a tuple in turn; the types found so far are
/// `tys` and their typed trees `acc`. Gives the tuple of the items' types.
pub open spec fn infer_list(
    items: Seq<ExprV>,
    tys: Seq<TypeV>,
    acc: Seq<TypeV>,
    subs: Map<VarV, Type1V>,
    vars: Map<Seq<char>, u32>,
    env: Map<VarV, SchemeMutV>,
) -> Option<InferV>
    decreases items,
{
    if items.len() == 0 {
        Some(InferV::Done(tuple_of(tys), acc, subs, vars))
    } else {
        proof {
            assert(decreases_to!(items => items[0]));
            assert(decreases_to!(items => items.drop_first()));
        }
        match infer_expr(items[0], subs, vars, env) {
            Some(InferV::Done(t, ts, s1, v1)) => infer_list(items.drop_first(), tys.push(t), acc + ts, s1, v1, env),
            other => other,
        }
    }
}

/// Inference of a tuple, possibly with a spread part: the spread is
/// unified with a fresh row variable standing between the items before and
/// after it.
pub open spec fn infer_tuple(
    c: CollectionV<ExprV>,
    subs: Map<VarV, Type1V>,
    vars: Map<Seq<char>, u32>,
    env: Map<VarV, SchemeMutV>,
) -> Option<InferV>
    decreases c,
{
    match c {
        CollectionV::Collection(items) => match infer_list(items, Seq::empty(), Seq::empty(), subs, vars, env) {
            Some(InferV::Done(t, trees, s1, v1)) => Some(InferV::Done(t, seq![t] + trees, s1, v1)),
            other => other,
        },
        CollectionV::WithSplat(left, splat, right) => match infer_list(left, Seq::empty(), Seq::empty(), subs, vars, env) {
            Some(InferV::Done(lt, ltrees, s1, v1)) => match infer_expr(*splat, s1, v1, env) {
                Some(InferV::Done(st, sts, s2, v2)) => match infer_list(right, Seq::empty(), Seq::empty(), s2, v2, env) {
                    Some(InferV::Done(rt, rtrees, s3, v3)) => match draw(v3) {
                        None => None,
                        Some((r, v4)) => {
                            let row = TypeV::Cons(ConsV::Tuple(OrderedAndV::Row(
                                lt->Cons_0->Tuple_0->NonRow_0,
                                r,
                                rt->Cons_0->Tuple_0->NonRow_0,
                            )));
                            match unify_step(sts, row, st, TypeV::Var(r), s3, v4) {
                                Some(InferV::Done(ty, sts2, s5, v5)) => Some(
                                    InferV::Done(ty, seq![ty] + ltrees + sts2 + rtrees, s5, v5),
                                ),
                                other => other,
                            }
                        },
                    },
                    other => other,
                },
                other => other,
            },
            other => other,
        },
    }
}

/// Inference of an expression under `subs`, the counters `vars` and the
/// environment `env`. `None` beyond literals, `()`, arrays, tuples, tags, ranges, unbound
/// variables, field access, indexing, slices, lengths, dereferences, unary
/// and binary operators, or where unification does not return or a counter
/// runs out.
pub open spec fn infer_expr(
    e: ExprV,
    subs: Map<VarV, Type1V>,
    vars: Map<Seq<char>, u32>,
    env: Map<VarV, SchemeMutV>,
) -> Option<InferV>
    decreases e,
{
    match e {
        ExprV::Literal(l) => Some(InferV::Done(literal_type(l), seq![literal_type(l)], subs, vars)),
        ExprV::Place(PlaceV::Var(name)) => if env.contains_key(VarV { name, id: 0 }) {
            infer_instance(env[VarV { name, id: 0 }].scheme, subs, vars)
        } else {
            Some(InferV::Failed(TypeError::UnboundVar))
        },
        ExprV::Place(PlaceV::FieldAccess(x, name)) => match infer_expr(*x, subs, vars, env) {
            Some(InferV::Done(t, ts, s1, v1)) => match draw(v1) {
                None => None,
                Some((a, v2)) => match draw(v2) {
                    None => None,
                    Some((r, v3)) => {
                        let record = TypeV::Cons(
                            ConsV::Record(KeyedV { fields: seq![(name, TypeV::Var(a))], rest: Some(r) }),
                        );
                        node(unify_step(ts, TypeV::Var(a), t, record, s1, v3))
                    },
                },
            },
            other => other,
        },
        ExprV::Place(PlaceV::Index(x, i)) => match infer_expr(*x, subs, vars, env) {
            Some(InferV::Done(t, ts, s1, v1)) => match draw(v1) {
                None => None,
                Some((a, v2)) => match unify_step(ts, TypeV::Var(a), t, array_of(a), s1, v2) {
                    Some(InferV::Done(ty, ts2, s2, v3)) => match infer_expr(*i, s2, v3, env) {
                        Some(InferV::Done(it, its, s3, v4)) => match unify_step(its, num(), it, num(), s3, v4) {
                            Some(InferV::Done(_, its2, s4, v5)) => Some(
                                InferV::Done(ty, seq![ty] + ts2 + its2, s4, v5),
                            ),
                            other => other,
                        },
                        other => other,
                    },
                    other => other,
                },
            },
            other => other,
        },
        ExprV::Place(PlaceV::Len(x)) => match infer_expr(*x, subs, vars, env) {
            Some(InferV::Done(t, ts, s1, v1)) => match draw(v1) {
                None => None,
                Some((a, v2)) => match unify_step(ts, num(), t, array_of(a), s1, v2) {
                    Some(InferV::Done(_, ts2, s2, v3)) => Some(InferV::Done(num(), seq![num()] + ts2, s2, v3)),
                    other => other,
                },
            },
            other => other,
        },
        ExprV::Place(PlaceV::Deref(x)) => match infer_expr(*x, subs, vars, env) {
            Some(InferV::Done(t, ts, s1, v1)) => match draw(v1) {
                None => None,
                Some((a, v2)) => match draw(v2) {
                    None => None,
                    Some((m, v3)) => {
                        let reference = TypeV::Cons(
                            ConsV::Ref(MutTypeV::Var(m), Box::new(TypeV::Var(a))),
                        );
                        node(unify_step(ts, TypeV::Var(a), t, reference, s1, v3))
                    },
                },
            },
            other => other,
        },
        ExprV::Unit => Some(InferV::Done(unit_type(), seq![unit_type()], subs, vars)),
        ExprV::Tuple(c) => infer_tuple(c, subs, vars, env),
        ExprV::Splat(x) => match infer_expr(*x, subs, vars, env) {
            Some(InferV::Done(t, ts, s1, v1)) => match draw(v1) {
                None => None,
                Some((r, v2)) => node(unify_step(ts, row_tuple(r), t, TypeV::Var(r), s1, v2)),
            },
            other => other,
        },
        ExprV::Jump(JumpV::Return(operand)) => {
            let first = match operand {
                Some(x) => infer_expr(*x, subs, vars, env),
                None => Some(InferV::Done(unit_type(), Seq::empty(), subs, vars)),
            };
            match first {
                Some(InferV::Done(t, ts, s1, v1)) => {
                    let key = VarV { name: return_name(), id: 0 };
                    let target = if env.contains_key(key) {
                        infer_instance(env[key].scheme, s1, v1)
                    } else {
                        Some(InferV::Failed(TypeError::UnboundVar))
                    };
                    match target {
                        Some(InferV::Done(rt, _, s2, v2)) => match unify_step(ts, num(), t, rt, s2, v2) {
                            Some(InferV::Done(_, ts2, s3, v3)) => match draw(v3) {
                                None => None,
                                Some((w, v4)) => Some(
                                    InferV::Done(TypeV::Var(w), seq![TypeV::Var(w)] + ts2, s3, v4),
                                ),
                            },
                            other => other,
                        },
                        other => other,
                    }
                },
                other => other,
            }
        },
        ExprV::Array(items) => match draw(vars) {
            None => None,
            Some((a, v1)) => node(infer_elements(items, TypeV::Var(a), array_of(a), Seq::empty(), subs, v1, env)),
        },
        ExprV::ArrayRange(r) => node(infer_range(r, subs, vars, env)),
        ExprV::Tag(tag, inner) => {
            let operand = match inner {
                Some(x) => infer_expr(*x, subs, vars, env),
                None => Some(InferV::Done(unit_type(), Seq::empty(), subs, vars)),
            };
            match operand {
                Some(InferV::Done(t, ts, s1, v1)) => match draw(v1) {
                    None => None,
                    Some((r, v2)) => {
                        let union = TypeV::Cons(
                            ConsV::Union(KeyedV { fields: seq![(tag, t)], rest: Some(r) }),
                        );
                        Some(InferV::Done(union, seq![union] + ts, s1, v2))
                    },
                },
                other => other,
            }
        },
        ExprV::Place(PlaceV::Slice(x, r)) => match infer_expr(*x, subs, vars, env) {
            Some(InferV::Done(t, ts, s1, v1)) => match draw(v1) {
                None => None,
                Some((a, v2)) => match unify_step(ts, TypeV::Var(a), t, array_of(a), s1, v2) {
                    Some(InferV::Done(elem, ts2, s2, v3)) => match infer_range(r, s2, v3, env) {
                        Some(InferV::Done(_, rts, s3, v4)) => {
                            let ty = TypeV::Cons(ConsV::Array(Box::new(elem)));
                            Some(InferV::Done(ty, seq![ty] + ts2 + rts, s3, v4))
                        },
                        other => other,
                    },
                    other => other,
                },
            },
            other => other,
        },
        ExprV::Unary(op, x) => match infer_expr(*x, subs, vars, env) {
            Some(InferV::Done(t, ts, s1, v1)) => infer_unary_rest(op, t, ts, s1, v1),
            other => other,
        },
        ExprV::Binary(op, l, r) => match infer_expr(*l, subs, vars, env) {
            Some(InferV::Done(lt, lts, s1, v1)) => match infer_expr(*r, s1, v1, env) {
                Some(InferV::Done(rt, rts, s2, v2)) => infer_binary_rest(op, lt, lts, rt, rts, s2, v2),
                other => other,
            },
            other => other,
        },
        _ => None,
    }
}

/// Whether `op` is an arithmetic operator: `+`, `-`, `*`, `/`, `//`, `%`.
pub open spec fn arithmetic(op: BinaryType) -> bool {
    op == BinaryType::Add || op == BinaryType::Sub || op == BinaryType::Multiply || op
        == BinaryType::Div || op == BinaryType::FloorDiv || op == BinaryType::Mod
}

/// Whether `op` compares two numbers: `==`, `!=`, `>`, `>=`, `<`, `<=`.
pub open spec fn comparison(op: BinaryType) -> bool {
    op == BinaryType::Equal || op == BinaryType::NotEqual || op == BinaryType::Greater || op
        == BinaryType::GreaterEqual || op == BinaryType::Less || op == BinaryType::LessEqual
}

/// The arithmetic operators give numbers, the comparisons and the logical
/// operators booleans, and concatenation an array: whenever a binary
/// operation is inferred, its type is of that kind, whatever its operands,
/// the substitution, the counters and the environment.
pub proof fn law_binary_result_type(
    op: BinaryType,
    l: ExprV,
    r: ExprV,
    subs: Map<VarV, Type1V>,
    vars: Map<Seq<char>, u32>,
    env: Map<VarV, SchemeMutV>,
)
    ensures
        infer_expr(ExprV::Binary(op, Box::new(l), Box::new(r)), subs, vars, env) matches Some(
            InferV::Done(t, _, _, _),
        ) ==> if op == BinaryType::Concatenate {
            t is Cons && t->Cons_0 is Array
        } else if arithmetic(op) {
            t == num()
        } else {
            t == boolean()
        },
{
    assert forall|s: Map<VarV, Type1V>| subst_type(num(), s) == Ok::<TypeV, TypeError>(num())
        && subst_type(boolean(), s) == Ok::<TypeV, TypeError>(boolean()) by {}
    assert forall|x: TypeV, s: Map<VarV, Type1V>|
        #[trigger] subst_type(TypeV::Cons(ConsV::Array(Box::new(x))), s) is Ok ==> subst_type(
            TypeV::Cons(ConsV::Array(Box::new(x))),
            s,
        )->Ok_0 matches TypeV::Cons(ConsV::Array(_)) by {}
}

/// What a unary operation is typed as: `-` a number, `not` a boolean, `&` a
/// reference, and moving or cloning keeps the operand's type; whatever the
/// operand, the substitution, the counters and the environment.
pub proof fn law_unary_result_type(
    op: UnaryType,
    x: ExprV,
    subs: Map<VarV, Type1V>,
    vars: Map<Seq<char>, u32>,
    env: Map<VarV, SchemeMutV>,
)
    ensures
        infer_expr(ExprV::Unary(op, Box::new(x)), subs, vars, env) matches Some(
            InferV::Done(t, _, _, _),
        ) ==> {
            &&& op == UnaryType::Minus ==> t == num()
            &&& op == UnaryType::Not ==> t == boolean()
            &&& op == UnaryType::Ref ==> t is Cons && t->Cons_0 is Ref && infer_expr(x, subs, vars, env)
                is Some && infer_expr(x, subs, vars, env)->Some_0 is Done && t->Cons_0->Ref_1
                == Box::new(infer_expr(x, subs, vars, env)->Some_0->Done_0)
            &&& (op == UnaryType::Move || op == UnaryType::Clone) ==> infer_expr(x, subs, vars, env)
                is Some && infer_expr(x, subs, vars, env)->Some_0 is Done && t == infer_expr(
                x,
                subs,
                vars,
                env,
            )->Some_0->Done_0
        },
{
}

/// Two numbers combined by an arithmetic operator infer as a number, and
/// compared as a boolean: for every two number literals, counters and
/// environment, from an empty substitution, inference succeeds with that
/// type, the operands typed as numbers, nothing bound and no variable
/// drawn.
pub proof fn law_binary_on_numbers(
    op: BinaryType,
    a: LiteralV,
    b: LiteralV,
    vars: Map<Seq<char>, u32>,
    env: Map<VarV, SchemeMutV>,
)
    requires
        arithmetic(op) || comparison(op),
        !(a is True) && !(a is False),
        !(b is True) && !(b is False),
    ensures
        ({
            let t = if arithmetic(op) {
                num()
            } else {
                boolean()
            };
            infer_expr(
                ExprV::Binary(op, Box::new(ExprV::Literal(a)), Box::new(ExprV::Literal(b))),
                Map::empty(),
                vars,
                env,
            ) == Some(InferV::Done(t, seq![t, num(), num()], Map::<VarV, Type1V>::empty(), vars))
        }),
{
    let e = Map::<VarV, Type1V>::empty();
    assert(seq![num()].drop_last() =~= Seq::<TypeV>::empty());
    assert(subst_all(Seq::<TypeV>::empty(), e) == Ok::<Seq<TypeV>, TypeError>(Seq::empty()));
    assert(subst_all(seq![num()], e) == Ok::<Seq<TypeV>, TypeError>(seq![num()]));
    assert(compose_map(e, e) =~= e);
    assert(subst_type(num(), e) == Ok::<TypeV, TypeError>(num()));
    assert(subst_type(boolean(), e) == Ok::<TypeV, TypeError>(boolean()));
    let t = if arithmetic(op) {
        num()
    } else {
        boolean()
    };
    assert(seq![t] + seq![num()] + seq![num()] =~= seq![t, num(), num()]);
    assert(binary_types(op) == (num(), t));
    assert(op != BinaryType::Concatenate);
    assert(unify_type(num(), num(), e, vars) == Some(unified_ok(e, vars)));
    assert(compose_ok(e, e));
    assert(unify_step(seq![num()], t, num(), num(), e, vars) == Some(
        InferV::Done(t, seq![num()], e, vars),
    ));
    assert(infer_expr(ExprV::Literal(a), e, vars, env) == Some(
        InferV::Done(num(), seq![num()], e, vars),
    ));
    assert(infer_expr(ExprV::Literal(b), e, vars, env) == Some(
        InferV::Done(num(), seq![num()], e, vars),
    ));
    assert(infer_binary_rest(op, num(), seq![num()], num(), seq![num()], e, vars) == Some(
        InferV::Done(t, seq![t] + seq![num()] + seq![num()], e, vars),
    ));
}

// ---------------------------------------------------------------------
// Executable inference

/// The types, each substituted in turn.
fn substitute_all(types: &mut Vec<Type>, subs: &Subs) -> (result: Result<(), TypeError>)
    ensures
        match subst_all(types_view(old(types)@), subs@) {
            Ok(ts) => result is Ok && types_view(final(types)@) == ts,
            Err(e) => result == Err::<(), TypeError>(e),
        },
{
    let ghost all = types_view(types@);
    let mut out: Vec<Type> = Vec::new();
    let mut i: usize = 0;
    proof {
        lemma_types_view_take(types@, 0);
    }
    while i < types.len()
        invariant
            i <= types@.len(),
            all == types_view(types@),
            subst_all(all.take(i as int), subs@) == Ok::<Seq<TypeV>, TypeError>(types_view(out@)),
        decreases types@.len() - i,
    {
        proof {
            lemma_types_view_take(types@, i as int);
            lemma_types_view_take(types@, i + 1);
            assert(all.take(i + 1).drop_last() =~= all.take(i as int));
        }
        let mut t = types[i].deep_clone();
        match t.substitute(subs) {
            Err(e) => {
                proof {
                    assert(subst_all(all.take(i + 1), subs@) == Err::<Seq<TypeV>, TypeError>(e));
                    lemma_subst_all_prefix(all, i + 1, subs@);
                }
                return Err(e);
            },
            Ok(()) => {},
        }
        proof {
            lemma_types_view_push(out@, t);
        }
        out.push(t);
        i = i + 1;
    }
    proof {
        assert(all.take(types@.len() as int) =~= all);
    }
    *types = out;
    Ok(())
}

/// A failure on a prefix is the failure of the whole list.
proof fn lemma_subst_all_prefix(ts: Seq<TypeV>, i: int, s: Map<VarV, Type1V>)
    requires
        0 <= i <= ts.len(),
        subst_all(ts.take(i), s) is Err,
    ensures
        subst_all(ts, s) == subst_all(ts.take(i), s),
    decreases ts.len() - i,
{
    if i == ts.len() {
        assert(ts.take(i) =~= ts);
    } else {
        assert(ts.take(i + 1).drop_last() =~= ts.take(i));
        lemma_subst_all_prefix(ts, i + 1, s);
    }
}

/// The view of a list of types is taken item by item.
proof fn lemma_types_view_take(s: Seq<Type>, i: int)
    requires
        0 <= i <= s.len(),
    ensures
        types_view(s).len() == s.len(),
        types_view(s).take(i) == types_view(s.take(i)),
        forall|k: int| 0 <= k < s.len() ==> #[trigger] types_view(s)[k] == s[k]@,
    decreases s.len(),
{
    if s.len() > 0 {
        if i == s.len() {
            lemma_types_view_take(s.drop_last(), i - 1);
            assert(s.take(i) =~= s);
            assert(types_view(s).take(i) =~= types_view(s));
        } else {
            lemma_types_view_take(s.drop_last(), i);
            assert(s.take(i) =~= s.drop_last().take(i));
            assert(types_view(s).take(i) =~= types_view(s.drop_last()).take(i));
        }
    } else {
        assert(types_view(s).take(i) =~= types_view(s.take(i)));
    }
}

/// The view of a list with one more type.
proof fn lemma_types_view_push(s: Seq<Type>, t: Type)
    ensures
        types_view(s.push(t)) == types_view(s).push(t@),
{
    assert(s.push(t).drop_last() =~= s);
}

/// `[ty] + a + b` as a list of types.
fn node_types(ty: &Type, a: Vec<Type>, b: Vec<Type>) -> (types: Vec<Type>)
    ensures
        types_view(types@) == seq![ty@] + types_view(a@) + types_view(b@),
{
    let mut types: Vec<Type> = Vec::new();
    types.push(ty.deep_clone());
    let mut a = a;
    let mut b = b;
    let ghost va = a@;
    let ghost vb = b@;
    types.append(&mut a);
    types.append(&mut b);
    proof {
        let first = types@[0];
        assert(types@ =~= seq![first] + va + vb);
        lemma_types_view_concat(seq![first] + va, vb);
        lemma_types_view_concat(seq![first], va);
        lemma_types_view_push(Seq::empty(), first);
        assert(seq![first] =~= Seq::<Type>::empty().push(first));
    }
    types
}

/// The view of two lists joined is the two views joined.
proof fn lemma_types_view_concat(a: Seq<Type>, b: Seq<Type>)
    ensures
        types_view(a + b) == types_view(a) + types_view(b),
    decreases b.len(),
{
    if b.len() == 0 {
        assert(a + b =~= a);
        assert(types_view(a) + types_view(b) =~= types_view(a));
    } else {
        lemma_types_view_concat(a, b.drop_last());
        assert((a + b).drop_last() =~= a + b.drop_last());
        assert((a + b).last() == b.last());
        assert(types_view(a) + types_view(b) =~= (types_view(a) + types_view(b.drop_last())).push(
            b.last()@,
        ));
    }
}


/// Unifies `a` with `b` under a fresh substitution, applies it to `extra`
/// and to the typed tree `types`, and composes it into `subs`.
fn unify_step_exec(
    types: &mut Vec<Type>,
    extra: &mut Type,
    a: Type,
    b: Type,
    subs: &mut Subs,
    var_state: &mut VarState,
) -> (result: Result<(), TypeError>)
    requires
        unify_step(types_view(old(types)@), old(extra)@, a@, b@, old(subs)@, old(var_state)@) is Some,
    ensures
        match unify_step(types_view(old(types)@), old(extra)@, a@, b@, old(subs)@, old(var_state)@)
            ->Some_0 {
            InferV::Done(x, ts, s, v) => result is Ok && final(extra)@ == x && types_view(
                final(types)@,
            ) == ts && final(subs)@ == s && final(var_state)@ == v,
            InferV::Failed(e) => result == Err::<(), TypeError>(e),
            InferV::Unsettled => result is Err,
        },
{
    let mut local = Subs::new();
    match a.unify_with(b, &mut local, var_state) {
        Err(e) => {
            return Err(e);
        },
        Ok(()) => {},
    }
    match extra.substitute(&local) {
        Err(e) => {
            return Err(e);
        },
        Ok(()) => {},
    }
    match substitute_all(types, &local) {
        Err(e) => {
            return Err(e);
        },
        Ok(()) => {},
    }
    subs.compose_with(local)
}

/// A fresh variable.
fn draw_exec(var_state: &mut VarState) -> (var: Var)
    requires
        draw(old(var_state)@) is Some,
    ensures
        draw(old(var_state)@) == Some((var@, final(var_state)@)),
{
    var_state.new_var()
}

/// The type of a literal, with its typed tree.
fn literal_infer(l: &Literal) -> (typed: Typed)
    ensures
        typed.ty@ == literal_type(crate::expr::literal_view(*l)),
        types_view(typed.types@) == seq![typed.ty@],
{
    let ty = match l {
        Literal::True | Literal::False => Type::Cons(Cons::Bool),
        _ => Type::Cons(Cons::Num),
    };
    let types = node_types(&ty, Vec::new(), Vec::new());
    proof {
        assert(types_view(Seq::<Type>::empty()) =~= Seq::<TypeV>::empty());
    }
    Typed { ty, types }
}

impl PlaceExpr<()> {
    /// Infers the type of a place; also gives the mutability variable of
    /// the reference it reads through, if any. A variable is looked up in
    /// the environment.
    pub fn infer_with_mut(self, subs: &mut Subs, var_state: &mut VarState, env: &Env) -> (r:
        Result<(Option<Var>, Typed), TypeError>)
        requires
            infer_expr(ExprV::Place(crate::expr::place_view(self)), old(subs)@, old(var_state)@, env@)
                is Some,
        ensures
            infers(
                infer_expr(
                    ExprV::Place(crate::expr::place_view(self)),
                    old(subs)@,
                    old(var_state)@,
                    env@,
                )->Some_0,
                match r {
                    Ok((_, t)) => Ok(t),
                    Err(e) => Err(e),
                },
                *final(subs),
                *final(var_state),
            ),
            r matches Ok((m, _)) ==> (m is Some <==> self is Deref),
        decreases self,
    {
        match self {
            PlaceExpr::Var(name) => {
                match env.get_ty(Var::new_bare(name)) {
                    Some(scheme) => {
                        proof {
                            assert(scheme.for_all@.len() == scheme@.order.len());
                        }
                        match scheme.instantiate(var_state) {
                            Err(e) => Err(e),
                            Ok(ty) => {
                                let types = node_types(&ty, Vec::new(), Vec::new());
                                proof {
                                    assert(types_view(Seq::<Type>::empty()) =~= Seq::<TypeV>::empty());
                                }
                                Ok((None, Typed { ty, types }))
                            },
                        }
                    },
                    None => Err(TypeError::UnboundVar),
                }
            },
            PlaceExpr::FieldAccess(f) => field_access_infer(f, subs, var_state, env),
            PlaceExpr::Index(ix) => index_infer(ix, subs, var_state, env),
            PlaceExpr::Len(x) => len_infer(x, subs, var_state, env),
            PlaceExpr::Deref(x) => deref_infer(x, subs, var_state, env),
            PlaceExpr::Slice(sl) => slice_infer(sl, subs, var_state, env),
        }
    }
}

/// A field access: the operand is unified with a record holding the field, of a fresh type, and more fields.
#[verifier::rlimit(40)]
fn field_access_infer(f: FieldAccess<()>, subs: &mut Subs, var_state: &mut VarState, env: &Env) -> (r: Result<
    (Option<Var>, Typed),
    TypeError,
>)
    requires
        infer_expr(ExprV::Place(crate::expr::place_view(PlaceExpr::FieldAccess(f))), old(subs)@, old(var_state)@, env@)
            is Some,
    ensures
        infers(
            infer_expr(
                ExprV::Place(crate::expr::place_view(PlaceExpr::FieldAccess(f))),
                old(subs)@,
                old(var_state)@,
                env@,
            )->Some_0,
            match r {
                Ok((_, t)) => Ok(t),
                Err(e) => Err(e),
            },
            *final(subs),
            *final(var_state),
        ),
        r matches Ok((m, _)) ==> (m is Some <==> PlaceExpr::FieldAccess(f) is Deref),
    decreases f,
{
        let name = f.name;
        let Typed { ty: t, types: mut ts } = match (*f.expr).infer(subs, var_state, env) {
            Err(e) => {
                return Err(e);
            },
            Ok(typed) => typed,
        };
        let a = draw_exec(var_state);
        let r = draw_exec(var_state);
        let mut extra = Type::Var(a);
        proof {
            assert(extra@ == TypeV::Var(a@));
        }
        let mut fields: Vec<(Atom, Type)> = Vec::new();
        let ghost name_view = name@;
        fields.push((name, extra.deep_clone()));
        proof {
            assert(fields@.drop_last() =~= Seq::<(Atom, Type)>::empty());
            assert(fields@[0].0@ == name_view && fields@[0].1@ == extra@);
            assert(crate::ty::fields_view(Seq::<(Atom, Type)>::empty()) =~= Seq::<
                (Seq<char>, TypeV),
            >::empty());
            assert(crate::ty::fields_view(fields@) =~= seq![(name_view, extra@)]);
        }
        let keyed = Keyed { fields, rest: Some(r) };
        proof {
            assert(crate::ty::keyed_view(keyed) == KeyedV {
                fields: seq![(name_view, TypeV::Var(a@))],
                rest: Some(r@),
            });
        }
        let record = Type::Cons(Cons::Record(keyed));
        proof {
            assert(record@ == TypeV::Cons(
                ConsV::Record(KeyedV { fields: seq![(name_view, TypeV::Var(a@))], rest: Some(r@) }),
            ));
        }
        match unify_step_exec(&mut ts, &mut extra, t, record, subs, var_state) {
            Err(e) => {
                return Err(e);
            },
            Ok(()) => {},
        }
        let types = node_types(&extra, ts, Vec::new());
        proof {
            assert(types_view(Seq::<Type>::empty()) =~= Seq::<TypeV>::empty());
        }
        Ok((None, Typed { ty: extra, types }))
}

/// Indexing: the operand is unified with an array of a fresh element type, then the index with a number.
#[verifier::rlimit(40)]
fn index_infer(ix: Index<()>, subs: &mut Subs, var_state: &mut VarState, env: &Env) -> (r: Result<
    (Option<Var>, Typed),
    TypeError,
>)
    requires
        infer_expr(ExprV::Place(crate::expr::place_view(PlaceExpr::Index(ix))), old(subs)@, old(var_state)@, env@)
            is Some,
    ensures
        infers(
            infer_expr(
                ExprV::Place(crate::expr::place_view(PlaceExpr::Index(ix))),
                old(subs)@,
                old(var_state)@,
                env@,
            )->Some_0,
            match r {
                Ok((_, t)) => Ok(t),
                Err(e) => Err(e),
            },
            *final(subs),
            *final(var_state),
        ),
        r matches Ok((m, _)) ==> (m is Some <==> PlaceExpr::Index(ix) is Deref),
    decreases ix,
{
        let Typed { ty: t, types: mut ts } = match (*ix.expr).infer(subs, var_state, env) {
            Err(e) => {
                return Err(e);
            },
            Ok(typed) => typed,
        };
        let a = draw_exec(var_state);
        let mut extra = Type::Var(a);
        let element = extra.deep_clone();
        proof {
            assert(element@ == TypeV::Var(a@));
        }
        let array = Type::Cons(Cons::Array(Box::new(element)));
        proof {
            assert(array@ == array_of(a@));
        }
        match unify_step_exec(&mut ts, &mut extra, t, array, subs, var_state) {
            Err(e) => {
                return Err(e);
            },
            Ok(()) => {},
        }
        let Typed { ty: it, types: mut its } = match (*ix.index).infer(subs, var_state, env) {
            Err(e) => {
                return Err(e);
            },
            Ok(typed) => typed,
        };
        let mut unused = Type::Cons(Cons::Num);
        match unify_step_exec(&mut its, &mut unused, it, Type::Cons(Cons::Num), subs, var_state) {
            Err(e) => {
                return Err(e);
            },
            Ok(()) => {},
        }
        let types = node_types(&extra, ts, its);
        Ok((None, Typed { ty: extra, types }))
}

/// The length of an array: a number; the operand is unified with an array.
#[verifier::rlimit(40)]
fn len_infer(x: Box<Expr<()>>, subs: &mut Subs, var_state: &mut VarState, env: &Env) -> (r: Result<
    (Option<Var>, Typed),
    TypeError,
>)
    requires
        infer_expr(ExprV::Place(crate::expr::place_view(PlaceExpr::Len(x))), old(subs)@, old(var_state)@, env@)
            is Some,
    ensures
        infers(
            infer_expr(
                ExprV::Place(crate::expr::place_view(PlaceExpr::Len(x))),
                old(subs)@,
                old(var_state)@,
                env@,
            )->Some_0,
            match r {
                Ok((_, t)) => Ok(t),
                Err(e) => Err(e),
            },
            *final(subs),
            *final(var_state),
        ),
        r matches Ok((m, _)) ==> (m is Some <==> PlaceExpr::Len(x) is Deref),
    decreases x,
{
        let operand = *x;
        let Typed { ty: t, types: mut ts } = match operand.expr.infer(subs, var_state, env) {
            Err(e) => {
                return Err(e);
            },
            Ok(typed) => typed,
        };
        let a = draw_exec(var_state);
        let element = Type::Var(a);
        proof {
            assert(element@ == TypeV::Var(a@));
        }
        let array = Type::Cons(Cons::Array(Box::new(element)));
        proof {
            assert(array@ == array_of(a@));
        }
        let mut unused = Type::Cons(Cons::Num);
        match unify_step_exec(&mut ts, &mut unused, t, array, subs, var_state) {
            Err(e) => {
                return Err(e);
            },
            Ok(()) => {},
        }
        let ty = Type::Cons(Cons::Num);
        let types = node_types(&ty, ts, Vec::new());
        proof {
            assert(types_view(Seq::<Type>::empty()) =~= Seq::<TypeV>::empty());
        }
        Ok((None, Typed { ty, types }))
}

/// A dereference: the operand is unified with a reference of a fresh mutability to a fresh type; the mutability is given back.
#[verifier::rlimit(40)]
fn deref_infer(x: Box<Expr<()>>, subs: &mut Subs, var_state: &mut VarState, env: &Env) -> (r: Result<
    (Option<Var>, Typed),
    TypeError,
>)
    requires
        infer_expr(ExprV::Place(crate::expr::place_view(PlaceExpr::Deref(x))), old(subs)@, old(var_state)@, env@)
            is Some,
    ensures
        infers(
            infer_expr(
                ExprV::Place(crate::expr::place_view(PlaceExpr::Deref(x))),
                old(subs)@,
                old(var_state)@,
                env@,
            )->Some_0,
            match r {
                Ok((_, t)) => Ok(t),
                Err(e) => Err(e),
            },
            *final(subs),
            *final(var_state),
        ),
        r matches Ok((m, _)) ==> (m is Some <==> PlaceExpr::Deref(x) is Deref),
    decreases x,
{
        let operand = *x;
        let Typed { ty: t, types: mut ts } = match operand.expr.infer(subs, var_state, env) {
            Err(e) => {
                return Err(e);
            },
            Ok(typed) => typed,
        };
        let a = draw_exec(var_state);
        let m = draw_exec(var_state);
        let mut extra = Type::Var(a);
        let target = extra.deep_clone();
        let mutability = MutType::Var(m.clone());
        proof {
            assert(target@ == TypeV::Var(a@));
            assert(mutability@ == MutTypeV::Var(m@));
        }
        let reference = Type::Cons(Cons::Ref(mutability, Box::new(target)));
        proof {
            assert(reference@ == TypeV::Cons(ConsV::Ref(MutTypeV::Var(m@), Box::new(TypeV::Var(a@)))));
        }
        match unify_step_exec(&mut ts, &mut extra, t, reference, subs, var_state) {
            Err(e) => {
                return Err(e);
            },
            Ok(()) => {},
        }
        let types = node_types(&extra, ts, Vec::new());
        proof {
            assert(types_view(Seq::<Type>::empty()) =~= Seq::<TypeV>::empty());
        }
        Ok((Some(m), Typed { ty: extra, types }))
}

/// The type `()`.
fn unit_exec() -> (ty: Type)
    ensures
        ty@ == unit_type(),
{
    let fields: Vec<(Atom, Type)> = Vec::new();
    proof {
        assert(crate::ty::fields_view(fields@) =~= Seq::<(Seq<char>, TypeV)>::empty());
    }
    let ordered = OrderedAnd::NonRow(fields);
    proof {
        assert(crate::ty::ordered_fields_view(ordered) == OrderedAndV::<(Seq<char>, TypeV)>::NonRow(
            Seq::empty(),
        ));
    }
    let cons = Cons::RecordTuple(ordered);
    proof {
        assert(crate::ty::cons_view(cons) == ConsV::RecordTuple(
            OrderedAndV::<(Seq<char>, TypeV)>::NonRow(Seq::empty()),
        ));
    }
    Type::Cons(cons)
}

/// Infers an optional bound of a range: its expression is unified with a
/// number.
fn bound_infer(b: Option<Bound<()>>, subs: &mut Subs, var_state: &mut VarState, env: &Env) -> (r:
    Result<Typed, TypeError>)
    requires
        infer_bound(crate::expr::bound_view(b), old(subs)@, old(var_state)@, env@) is Some,
    ensures
        infers(
            infer_bound(crate::expr::bound_view(b), old(subs)@, old(var_state)@, env@)->Some_0,
            r,
            *final(subs),
            *final(var_state),
        ),
    decreases b,
{
    match b {
        None => {
            let types: Vec<Type> = Vec::new();
            proof {
                assert(types_view(types@) =~= Seq::<TypeV>::empty());
            }
            Ok(Typed { ty: unit_exec(), types })
        },
        Some(bound) => {
            let operand = *bound.expr;
            let Typed { ty: t, types: mut ts } = match operand.expr.infer(subs, var_state, env) {
                Err(e) => {
                    return Err(e);
                },
                Ok(typed) => typed,
            };
            let mut unused = Type::Cons(Cons::Num);
            match unify_step_exec(&mut ts, &mut unused, t, Type::Cons(Cons::Num), subs, var_state) {
                Err(e) => {
                    return Err(e);
                },
                Ok(()) => {},
            }
            Ok(Typed { ty: unit_exec(), types: ts })
        },
    }
}

impl Range<()> {
    /// Infers the type of a range: an array of numbers, each bound unified
    /// with a number.
    pub fn infer(self, subs: &mut Subs, var_state: &mut VarState, env: &Env) -> (r: Result<
        Typed,
        TypeError,
    >)
        requires
            infer_range(crate::expr::range_view(self), old(subs)@, old(var_state)@, env@) is Some,
        ensures
            infers(
                infer_range(crate::expr::range_view(self), old(subs)@, old(var_state)@, env@)->Some_0,
                r,
                *final(subs),
                *final(var_state),
            ),
        decreases self,
    {
        let Typed { ty: _, types: mut left } = match bound_infer(self.left, subs, var_state, env) {
            Err(e) => {
                return Err(e);
            },
            Ok(typed) => typed,
        };
        let Typed { ty: _, types: mut right } = match bound_infer(self.right, subs, var_state, env) {
            Err(e) => {
                return Err(e);
            },
            Ok(typed) => typed,
        };
        let ghost l = left@;
        let ghost r = right@;
        left.append(&mut right);
        proof {
            lemma_types_view_concat(l, r);
        }
        let element = Type::Cons(Cons::Num);
        let ty = Type::Cons(Cons::Array(Box::new(element)));
        proof {
            assert(element@ == num());
            assert(ty@ == num_array());
        }
        Ok(Typed { ty, types: left })
    }
}

/// A slice: the operand is unified with an array of a fresh element type,
/// then the range is inferred; the slice is an array of that type.
#[verifier::rlimit(40)]
fn slice_infer(sl: Slice<()>, subs: &mut Subs, var_state: &mut VarState, env: &Env) -> (r: Result<
    (Option<Var>, Typed),
    TypeError,
>)
    requires
        infer_expr(ExprV::Place(crate::expr::place_view(PlaceExpr::Slice(sl))), old(subs)@, old(var_state)@, env@)
            is Some,
    ensures
        infers(
            infer_expr(
                ExprV::Place(crate::expr::place_view(PlaceExpr::Slice(sl))),
                old(subs)@,
                old(var_state)@,
                env@,
            )->Some_0,
            match r {
                Ok((_, t)) => Ok(t),
                Err(e) => Err(e),
            },
            *final(subs),
            *final(var_state),
        ),
        r matches Ok((m, _)) ==> m is None,
    decreases sl,
{
    let operand = *sl.expr;
    let Typed { ty: t, types: mut ts } = match operand.expr.infer(subs, var_state, env) {
        Err(e) => {
            return Err(e);
        },
        Ok(typed) => typed,
    };
    let a = draw_exec(var_state);
    let mut extra = Type::Var(a);
    let element = extra.deep_clone();
    proof {
        assert(element@ == TypeV::Var(a@));
    }
    let array = Type::Cons(Cons::Array(Box::new(element)));
    proof {
        assert(array@ == array_of(a@));
    }
    match unify_step_exec(&mut ts, &mut extra, t, array, subs, var_state) {
        Err(e) => {
            return Err(e);
        },
        Ok(()) => {},
    }
    let Typed { ty: _, types: range_types } = match sl.range.infer(subs, var_state, env) {
        Err(e) => {
            return Err(e);
        },
        Ok(typed) => typed,
    };
    let ghost elem = extra@;
    let ty = Type::Cons(Cons::Array(Box::new(extra)));
    proof {
        assert(ty@ == TypeV::Cons(ConsV::Array(Box::new(elem))));
    }
    let types = node_types(&ty, ts, range_types);
    Ok((None, Typed { ty, types }))
}

/// A tag: its payload (or `()`) inferred, the tag's type a union holding
/// that tag and more.
#[verifier::rlimit(40)]
fn tag_infer(tag: Tag<()>, subs: &mut Subs, var_state: &mut VarState, env: &Env) -> (r: Result<
    Typed,
    TypeError,
>)
    requires
        infer_expr(crate::expr::kind_view(ExprKind::Tag(tag)), old(subs)@, old(var_state)@, env@) is Some,
    ensures
        infers(
            infer_expr(crate::expr::kind_view(ExprKind::Tag(tag)), old(subs)@, old(var_state)@, env@)->Some_0,
            r,
            *final(subs),
            *final(var_state),
        ),
    decreases tag,
{
    let name = tag.tag;
    let ghost inner = crate::expr::opt_view(tag.expr);
    let Typed { ty: t, types: ts } = match tag.expr {
        Some(x) => {
            let operand = *x;
            proof {
                assert(inner == Some(Box::new(crate::expr::kind_view(operand.expr))));
            }
            match operand.expr.infer(subs, var_state, env) {
                Err(e) => {
                    return Err(e);
                },
                Ok(typed) => typed,
            }
        },
        None => {
            let types: Vec<Type> = Vec::new();
            proof {
                assert(types_view(types@) =~= Seq::<TypeV>::empty());
            }
            Typed { ty: unit_exec(), types }
        },
    };
    let r = draw_exec(var_state);
    let ghost name_view = name@;
    let ghost t_view = t@;
    let mut fields: Vec<(Atom, Type)> = Vec::new();
    fields.push((name, t));
    proof {
        assert(fields@.drop_last() =~= Seq::<(Atom, Type)>::empty());
        assert(crate::ty::fields_view(Seq::<(Atom, Type)>::empty()) =~= Seq::<
            (Seq<char>, TypeV),
        >::empty());
        assert(crate::ty::fields_view(fields@) =~= seq![(name_view, t_view)]);
    }
    let keyed = Keyed { fields, rest: Some(r) };
    proof {
        assert(crate::ty::keyed_view(keyed) == KeyedV { fields: seq![(name_view, t_view)], rest: Some(r@) });
    }
    let union = Type::Cons(Cons::Union(keyed));
    let types = node_types(&union, ts, Vec::new());
    proof {
        assert(types_view(Seq::<Type>::empty()) =~= Seq::<TypeV>::empty());
    }
    Ok(Typed { ty: union, types })
}

/// The substitution of a list keeps its length.
proof fn lemma_subst_all_len(ts: Seq<TypeV>, s: Map<VarV, Type1V>)
    ensures
        subst_all(ts, s) matches Ok(r) ==> r.len() == ts.len(),
    decreases ts.len(),
{
    if ts.len() > 0 {
        lemma_subst_all_len(ts.drop_last(), s);
    }
}

/// The view of the elements of an array is taken item by item.
proof fn lemma_elements_view(s: Seq<Element<()>>)
    ensures
        crate::expr::elements_view(s).len() == s.len(),
        forall|i: int|
            0 <= i < s.len() ==> #[trigger] crate::expr::elements_view(s)[i] == (
                s[i].expr@,
                s[i].kind,
            ),
    decreases s.len(),
{
    if s.len() > 0 {
        lemma_elements_view(s.drop_last());
    }
}

/// An array: one fresh element type, which every element is unified with
/// (a spread element with the array type), in turn.
#[verifier::rlimit(100)]
#[verifier::spinoff_prover]
fn array_infer(items: Vec<Element<()>>, subs: &mut Subs, var_state: &mut VarState, env: &Env) -> (r:
    Result<Typed, TypeError>)
    requires
        infer_expr(ExprV::Array(crate::expr::elements_view(items@)), old(subs)@, old(var_state)@, env@)
            is Some,
    ensures
        infers(
            infer_expr(
                ExprV::Array(crate::expr::elements_view(items@)),
                old(subs)@,
                old(var_state)@,
                env@,
            )->Some_0,
            r,
            *final(subs),
            *final(var_state),
        ),
    decreases items@,
{
    let ghost all = items@;
    let ghost outer = infer_expr(
        ExprV::Array(crate::expr::elements_view(items@)),
        subs@,
        var_state@,
        env@,
    );
    let a = draw_exec(var_state);
    let mut elem = Type::Var(a.clone());
    let element = Type::Var(a);
    proof {
        assert(elem@ == TypeV::Var(a@));
        assert(element@ == TypeV::Var(a@));
    }
    let mut array = Type::Cons(Cons::Array(Box::new(element)));
    proof {
        assert(array@ == array_of(a@));
    }
    let mut rest = items;
    let mut rev: Vec<Element<()>> = Vec::new();
    while rest.len() > 0
        invariant
            all == rest@ + rev@.reverse(),
        decreases rest@.len(),
    {
        let ghost before = rest@;
        let x = rest.pop().unwrap();
        let ghost tail = rev@;
        rev.push(x);
        proof {
            assert(rev@.reverse() =~= seq![x] + tail.reverse());
            assert(before =~= rest@.push(x));
            assert(all =~= rest@ + rev@.reverse());
        }
    }
    proof {
        assert(all =~= rev@.reverse());
        lemma_elements_view(all);
    }
    let mut acc: Vec<Type> = Vec::new();
    let ghost target = infer_elements(
        crate::expr::elements_view(all),
        elem@,
        array@,
        Seq::empty(),
        subs@,
        var_state@,
        env@,
    );
    let ghost mut k: int = 0;
    proof {
        assert(all.skip(0) =~= all);
        assert(types_view(acc@) =~= Seq::<TypeV>::empty());
    }
    while rev.len() > 0
        invariant
            0 <= k <= all.len(),
            all == items@,
            rev@.reverse() == all.skip(k),
            target is Some,
            infer_elements(
                crate::expr::elements_view(all.skip(k)),
                elem@,
                array@,
                types_view(acc@),
                subs@,
                var_state@,
                env@,
            ) == target,
            outer == node(target),
            outer == infer_expr(
                ExprV::Array(crate::expr::elements_view(items@)),
                old(subs)@,
                old(var_state)@,
                env@,
            ),
            outer is Some,
            forall|i: int|
                0 <= i < all.len() ==> #[trigger] crate::expr::elements_view(all)[i] == (
                    all[i].expr@,
                    all[i].kind,
                ),
        decreases rev@.len(),
    {
        let ghost before = rev@;
        let x = rev.pop().unwrap();
        proof {
            assert(before.reverse()[0] == x);
            assert(all.skip(k)[0] == all[k]);
            assert(x == all[k]);
            assert(before =~= rev@.push(x));
            assert(before.reverse() =~= seq![x] + rev@.reverse());
            assert(rev@.reverse() =~= before.reverse().drop_first());
            assert(all.skip(k).drop_first() =~= all.skip(k + 1));
            assert(rev@.reverse() =~= all.skip(k + 1));
            lemma_elements_view(all.skip(k));
            lemma_elements_view(all.skip(k + 1));
            assert(crate::expr::elements_view(all.skip(k)).drop_first() =~= crate::expr::elements_view(
                all.skip(k + 1),
            ));
            assert(crate::expr::elements_view(all.skip(k))[0] == (x.expr@, x.kind));
            assert(decreases_to!(all => all[k]));
            assert(decreases_to!(all[k] => all[k].expr));
            assert(decreases_to!(all[k].expr => all[k].expr.expr));
            assert(decreases_to!(all => x.expr.expr));
        }
        let kind = x.kind;
        let operand = x.expr;
        let ghost cur = crate::expr::elements_view(all.skip(k));
        let ghost s0 = subs@;
        let ghost v0 = var_state@;
        let ghost step = infer_expr(cur[0].0, s0, v0, env@);
        proof {
            assert(cur.len() > 0);
            assert(cur[0].0 == crate::expr::kind_view(operand.expr));
        }
        let Typed { ty: t, types: ts } = match operand.expr.infer(subs, var_state, env) {
            Err(e) => {
                proof {
                    assert(!(step->Some_0 is Done));
                    assert(infer_elements(cur, elem@, array@, types_view(acc@), s0, v0, env@) == step);
                    assert(target == step);
                    assert(outer == step);
                }
                return Err(e);
            },
            Ok(typed) => typed,
        };
        let target_ty = match kind {
            ElementKind::Splat => array.deep_clone(),
            ElementKind::Element => elem.deep_clone(),
        };
        let mut list = node_types(&array, ts, Vec::new());
        proof {
            assert(types_view(Seq::<Type>::empty()) =~= Seq::<TypeV>::empty());
        }
        let ghost list_before = types_view(list@);
        let ghost elem_before = elem@;
        let ghost s1 = subs@;
        let ghost v1 = var_state@;
        proof {
            assert forall|m: Map<VarV, Type1V>| #[trigger]
                subst_all(list_before, m) is Ok implies subst_all(list_before, m)->Ok_0.len()
                == list_before.len() by {
                lemma_subst_all_len(list_before, m);
            }
        }
        let ghost unified = unify_step(list_before, elem_before, t@, target_ty@, s1, v1);
        match unify_step_exec(&mut list, &mut elem, t, target_ty, subs, var_state) {
            Err(e) => {
                proof {
                    assert(!(unified->Some_0 is Done));
                    assert(infer_elements(cur, elem_before, array@, types_view(acc@), s0, v0, env@)
                        == unified);
                    assert(outer == unified);
                }
                return Err(e);
            },
            Ok(()) => {},
        }
        proof {
            lemma_types_view_take(list@, 0);
        }
        let ghost list_after = list@;
        let new_array = list.remove(0);
        proof {
            lemma_types_view_take(list@, 0);
            assert(types_view(list@) =~= types_view(list_after).drop_first());
        }
        array = new_array;
        let ghost acc_before = acc@;
        let ghost list_rest = list@;
        acc.append(&mut list);
        proof {
            lemma_types_view_concat(acc_before, list_rest);
            k = k + 1;
        }
    }
    proof {
        assert(all.skip(k).len() == 0);
        assert(crate::expr::elements_view(all.skip(k)) =~= Seq::<(ExprV, ElementKind)>::empty());
    }
    let types = node_types(&array, acc, Vec::new());
    proof {
        assert(types_view(Seq::<Type>::empty()) =~= Seq::<TypeV>::empty());
    }
    Ok(Typed { ty: array, types })
}

/// A spread expression: its operand is unified with a fresh row variable;
/// the spread is a record tuple of that row.
#[verifier::rlimit(40)]
fn splat_infer(x: Box<Expr<()>>, subs: &mut Subs, var_state: &mut VarState, env: &Env) -> (r: Result<
    Typed,
    TypeError,
>)
    requires
        infer_expr(crate::expr::kind_view(ExprKind::Splat(x)), old(subs)@, old(var_state)@, env@) is Some,
    ensures
        infers(
            infer_expr(crate::expr::kind_view(ExprKind::Splat(x)), old(subs)@, old(var_state)@, env@)->Some_0,
            r,
            *final(subs),
            *final(var_state),
        ),
    decreases x,
{
    let operand = *x;
    let Typed { ty: t, types: mut ts } = match operand.expr.infer(subs, var_state, env) {
        Err(e) => {
            return Err(e);
        },
        Ok(typed) => typed,
    };
    let r = draw_exec(var_state);
    let left: Vec<(Atom, Type)> = Vec::new();
    let right: Vec<(Atom, Type)> = Vec::new();
    proof {
        assert(crate::ty::fields_view(left@) =~= Seq::<(Seq<char>, TypeV)>::empty());
        assert(crate::ty::fields_view(right@) =~= Seq::<(Seq<char>, TypeV)>::empty());
    }
    let ordered = OrderedAnd::Row(left, r.clone(), right);
    proof {
        assert(crate::ty::ordered_fields_view(ordered) == OrderedAndV::<(Seq<char>, TypeV)>::Row(
            Seq::empty(),
            r@,
            Seq::empty(),
        ));
    }
    let cons = Cons::RecordTuple(ordered);
    proof {
        assert(crate::ty::cons_view(cons) == ConsV::RecordTuple(
            OrderedAndV::<(Seq<char>, TypeV)>::Row(Seq::empty(), r@, Seq::empty()),
        ));
    }
    let mut row = Type::Cons(cons);
    proof {
        assert(row@ == row_tuple(r@));
    }
    match unify_step_exec(&mut ts, &mut row, t, Type::Var(r), subs, var_state) {
        Err(e) => {
            return Err(e);
        },
        Ok(()) => {},
    }
    let types = node_types(&row, ts, Vec::new());
    proof {
        assert(types_view(Seq::<Type>::empty()) =~= Seq::<TypeV>::empty());
    }
    Ok(Typed { ty: row, types })
}

/// A `return`: its operand (or `()`) is unified with what `return` is bound
/// to in the environment; the jump itself is of a fresh type.
#[verifier::rlimit(60)]
fn return_infer(
    operand: Option<Box<Expr<()>>>,
    subs: &mut Subs,
    var_state: &mut VarState,
    env: &Env,
) -> (r: Result<Typed, TypeError>)
    requires
        infer_expr(
            crate::expr::kind_view(ExprKind::Jump(Jump::Return(operand))),
            old(subs)@,
            old(var_state)@,
            env@,
        ) is Some,
    ensures
        infers(
            infer_expr(
                crate::expr::kind_view(ExprKind::Jump(Jump::Return(operand))),
                old(subs)@,
                old(var_state)@,
                env@,
            )->Some_0,
            r,
            *final(subs),
            *final(var_state),
        ),
    decreases operand,
{
    let ghost inner = crate::expr::opt_view(operand);
    proof {
        assert(crate::expr::kind_view(ExprKind::Jump(Jump::Return(operand))) == ExprV::Jump(
            JumpV::Return(inner),
        ));
    }
    let Typed { ty: t, types: mut ts } = match operand {
        Some(x) => {
            let e = *x;
            proof {
                assert(inner == Some(Box::new(crate::expr::kind_view(e.expr))));
            }
            match e.expr.infer(subs, var_state, env) {
                Err(e) => {
                    return Err(e);
                },
                Ok(typed) => typed,
            }
        },
        None => {
            let types: Vec<Type> = Vec::new();
            proof {
                assert(types_view(types@) =~= Seq::<TypeV>::empty());
            }
            Typed { ty: unit_exec(), types }
        },
    };
    let name = String::from_str("return");
    proof {
        reveal_strlit("return");
        assert(name@ =~= return_name());
    }
    let target = match env.get_ty(Var::new_bare(name)) {
        None => {
            return Err(TypeError::UnboundVar);
        },
        Some(scheme) => {
            proof {
                assert(scheme.for_all@.len() == scheme@.order.len());
            }
            match scheme.instantiate(var_state) {
                Err(e) => {
                    return Err(e);
                },
                Ok(ty) => ty,
            }
        },
    };
    let mut unused = Type::Cons(Cons::Num);
    match unify_step_exec(&mut ts, &mut unused, t, target, subs, var_state) {
        Err(e) => {
            return Err(e);
        },
        Ok(()) => {},
    }
    let w = draw_exec(var_state);
    let ty = Type::Var(w);
    let types = node_types(&ty, ts, Vec::new());
    proof {
        assert(types_view(Seq::<Type>::empty()) =~= Seq::<TypeV>::empty());
    }
    Ok(Typed { ty, types })
}

/// The view of a list of expressions is taken item by item.
proof fn lemma_exprs_view(s: Seq<Expr<()>>)
    ensures
        crate::expr::exprs_view(s).len() == s.len(),
        forall|i: int| 0 <= i < s.len() ==> #[trigger] crate::expr::exprs_view(s)[i] == s[i]@,
    decreases s.len(),
{
    if s.len() > 0 {
        lemma_exprs_view(s.drop_last());
    }
}

/// Whether `r` with the state left is what `spec` says of a list: the types
/// of the items and their typed trees.
pub open spec fn infers_list(
    spec: InferV,
    r: Result<(Vec<Type>, Vec<Type>), TypeError>,
    subs: Subs,
    vars: VarState,
) -> bool {
    match spec {
        InferV::Done(t, ts, s, v) => r matches Ok((tys, trees)) && t == tuple_of(types_view(tys@))
            && types_view(trees@) == ts && subs@ == s && vars@ == v,
        InferV::Failed(e) => r == Err::<(Vec<Type>, Vec<Type>), TypeError>(e),
        InferV::Unsettled => r is Err,
    }
}

/// Infers the items of a tuple in turn.
#[verifier::rlimit(100)]
#[verifier::spinoff_prover]
fn list_infer(items: Vec<Expr<()>>, subs: &mut Subs, var_state: &mut VarState, env: &Env) -> (r:
    Result<(Vec<Type>, Vec<Type>), TypeError>)
    requires
        infer_list(crate::expr::exprs_view(items@), Seq::empty(), Seq::empty(), old(subs)@, old(var_state)@, env@)
            is Some,
    ensures
        infers_list(
            infer_list(crate::expr::exprs_view(items@), Seq::empty(), Seq::empty(), old(subs)@, old(var_state)@, env@)->Some_0,
            r,
            *final(subs),
            *final(var_state),
        ),
    decreases items@,
{
    let ghost all = items@;
    let ghost target = infer_list(
        crate::expr::exprs_view(items@),
        Seq::empty(),
        Seq::empty(),
        subs@,
        var_state@,
        env@,
    );
    let mut rest = items;
    let mut rev: Vec<Expr<()>> = Vec::new();
    while rest.len() > 0
        invariant
            all == rest@ + rev@.reverse(),
        decreases rest@.len(),
    {
        let ghost before = rest@;
        let x = rest.pop().unwrap();
        let ghost tail = rev@;
        rev.push(x);
        proof {
            assert(rev@.reverse() =~= seq![x] + tail.reverse());
            assert(before =~= rest@.push(x));
            assert(all =~= rest@ + rev@.reverse());
        }
    }
    proof {
        assert(all =~= rev@.reverse());
        lemma_exprs_view(all);
    }
    let mut tys: Vec<Type> = Vec::new();
    let mut acc: Vec<Type> = Vec::new();
    let ghost mut k: int = 0;
    proof {
        assert(all.skip(0) =~= all);
        assert(types_view(acc@) =~= Seq::<TypeV>::empty());
        assert(types_view(tys@) =~= Seq::<TypeV>::empty());
    }
    while rev.len() > 0
        invariant
            0 <= k <= all.len(),
            all == items@,
            rev@.reverse() == all.skip(k),
            target is Some,
            infer_list(
                crate::expr::exprs_view(all.skip(k)),
                types_view(tys@),
                types_view(acc@),
                subs@,
                var_state@,
                env@,
            ) == target,
            target == infer_list(
                crate::expr::exprs_view(items@),
                Seq::empty(),
                Seq::empty(),
                old(subs)@,
                old(var_state)@,
                env@,
            ),
            forall|i: int| 0 <= i < all.len() ==> #[trigger] crate::expr::exprs_view(all)[i] == all[i]@,
        decreases rev@.len(),
    {
        let ghost before = rev@;
        let x = rev.pop().unwrap();
        proof {
            assert(before.reverse()[0] == x);
            assert(all.skip(k)[0] == all[k]);
            assert(before =~= rev@.push(x));
            assert(before.reverse() =~= seq![x] + rev@.reverse());
            assert(rev@.reverse() =~= before.reverse().drop_first());
            assert(all.skip(k).drop_first() =~= all.skip(k + 1));
            lemma_exprs_view(all.skip(k));
            lemma_exprs_view(all.skip(k + 1));
            assert(crate::expr::exprs_view(all.skip(k)).drop_first() =~= crate::expr::exprs_view(
                all.skip(k + 1),
            ));
            assert(crate::expr::exprs_view(all.skip(k))[0] == x@);
            assert(decreases_to!(all => all[k]));
            assert(decreases_to!(all[k] => all[k].expr));
            assert(decreases_to!(all => x.expr));
        }
        let ghost cur = crate::expr::exprs_view(all.skip(k));
        let ghost s0 = subs@;
        let ghost v0 = var_state@;
        let ghost step = infer_expr(cur[0], s0, v0, env@);
        let Typed { ty: t, types: mut ts } = match x.expr.infer(subs, var_state, env) {
            Err(e) => {
                proof {
                    assert(!(step->Some_0 is Done));
                    assert(infer_list(cur, types_view(tys@), types_view(acc@), s0, v0, env@) == step);
                    assert(target == step);
                }
                return Err(e);
            },
            Ok(typed) => typed,
        };
        let ghost tys_before = tys@;
        let ghost acc_before = acc@;
        let ghost t_val = t;
        let ghost ts_val = ts@;
        tys.push(t);
        acc.append(&mut ts);
        proof {
            lemma_types_view_push(tys_before, t_val);
            lemma_types_view_concat(acc_before, ts_val);
            k = k + 1;
        }
    }
    proof {
        assert(all.skip(k).len() == 0);
        assert(crate::expr::exprs_view(all.skip(k)) =~= Seq::<ExprV>::empty());
    }
    Ok((tys, acc))
}

/// Infers a tuple with a spread part.
#[verifier::rlimit(80)]
fn with_splat_infer(w: WithSplat<Expr<()>, ()>, subs: &mut Subs, var_state: &mut VarState, env: &Env) -> (r:
    Result<Typed, TypeError>)
    requires
        infer_tuple(crate::expr::expr_coll_view(Collection::WithSplat(w)), old(subs)@, old(var_state)@, env@)
            is Some,
    ensures
        infers(
            infer_tuple(crate::expr::expr_coll_view(Collection::WithSplat(w)), old(subs)@, old(var_state)@, env@)->Some_0,
            r,
            *final(subs),
            *final(var_state),
        ),
    decreases w,
{
    let (left, left_trees) = match list_infer(w.left, subs, var_state, env) {
        Err(e) => {
            return Err(e);
        },
        Ok(pair) => pair,
    };
    let splat = *w.splat;
    let Typed { ty: st, types: mut sts } = match splat.expr.infer(subs, var_state, env) {
        Err(e) => {
            return Err(e);
        },
        Ok(typed) => typed,
    };
    let (right, right_trees) = match list_infer(w.right, subs, var_state, env) {
        Err(e) => {
            return Err(e);
        },
        Ok(pair) => pair,
    };
    let r = draw_exec(var_state);
    let ghost lv = types_view(left@);
    let ghost rv = types_view(right@);
    let ordered = OrderedAnd::Row(left, r.clone(), right);
    proof {
        assert(crate::ty::ordered_types_view(ordered) == OrderedAndV::Row(lv, r@, rv));
    }
    let cons = Cons::Tuple(ordered);
    proof {
        assert(crate::ty::cons_view(cons) == ConsV::Tuple(OrderedAndV::Row(lv, r@, rv)));
    }
    let mut ty = Type::Cons(cons);
    proof {
        assert(ty@ == TypeV::Cons(ConsV::Tuple(OrderedAndV::Row(lv, r@, rv))));
    }
    match unify_step_exec(&mut sts, &mut ty, st, Type::Var(r), subs, var_state) {
        Err(e) => {
            return Err(e);
        },
        Ok(()) => {},
    }
    let ghost lt = types_view(left_trees@);
    let ghost rt = types_view(right_trees@);
    let ghost st2 = types_view(sts@);
    let ghost lt_seq = left_trees@;
    let ghost st_seq = sts@;
    let mut middle = left_trees;
    middle.append(&mut sts);
    proof {
        lemma_types_view_concat(lt_seq, st_seq);
        assert(middle@ =~= lt_seq + st_seq);
    }
    let types = node_types(&ty, middle, right_trees);
    proof {
        assert(seq![ty@] + (lt + st2) + rt =~= seq![ty@] + lt + st2 + rt);
    }
    Ok(Typed { ty, types })

}

/// Infers a tuple: the tuple of its items' types; a spread part is unified
/// with a fresh row variable standing between the items around it.
#[verifier::rlimit(80)]
fn tuple_infer(c: Collection<Expr<()>, ()>, subs: &mut Subs, var_state: &mut VarState, env: &Env) -> (r:
    Result<Typed, TypeError>)
    requires
        infer_tuple(crate::expr::expr_coll_view(c), old(subs)@, old(var_state)@, env@) is Some,
    ensures
        infers(
            infer_tuple(crate::expr::expr_coll_view(c), old(subs)@, old(var_state)@, env@)->Some_0,
            r,
            *final(subs),
            *final(var_state),
        ),
    decreases c,
{
    match c {
        Collection::Collection(items) => {
            let (tys, trees) = match list_infer(items, subs, var_state, env) {
                Err(e) => {
                    return Err(e);
                },
                Ok(pair) => pair,
            };
            let ghost tys_view = types_view(tys@);
            let ordered = OrderedAnd::NonRow(tys);
            proof {
                assert(crate::ty::ordered_types_view(ordered) == OrderedAndV::NonRow(tys_view));
            }
            let cons = Cons::Tuple(ordered);
            proof {
                assert(crate::ty::cons_view(cons) == ConsV::Tuple(OrderedAndV::NonRow(tys_view)));
            }
            let ty = Type::Cons(cons);
            proof {
                assert(ty@ == tuple_of(tys_view));
            }
            let types = node_types(&ty, trees, Vec::new());
            proof {
                assert(types_view(Seq::<Type>::empty()) =~= Seq::<TypeV>::empty());
            }
            Ok(Typed { ty, types })
        },
        Collection::WithSplat(w) => with_splat_infer(w, subs, var_state, env),
    }
}

impl Unary<()> {
    /// Infers the type of a unary operation: a moved or cloned operand keeps
    /// its type, `-` takes and gives a number, `not` a boolean, and `&`
    /// gives a reference of a fresh mutability.
    pub fn infer(self, subs: &mut Subs, var_state: &mut VarState, env: &Env) -> (r: Result<
        Typed,
        TypeError,
    >)
        requires
            infer_expr(crate::expr::kind_view(ExprKind::Unary(self)), old(subs)@, old(var_state)@, env@)
                is Some,
        ensures
            infers(
                infer_expr(
                    crate::expr::kind_view(ExprKind::Unary(self)),
                    old(subs)@,
                    old(var_state)@,
                    env@,
                )->Some_0,
                r,
                *final(subs),
                *final(var_state),
            ),
        decreases self,
    {
        let kind = self.kind;
        let operand = match (*self.expr).infer(subs, var_state, env) {
            Err(e) => {
                return Err(e);
            },
            Ok(t) => t,
        };
        let Typed { ty: operand_ty, types: operand_types } = operand;
        match kind {
            UnaryType::Move | UnaryType::Clone => {
                let types = node_types(&operand_ty, operand_types, Vec::new());
                proof {
                    assert(types_view(Seq::<Type>::empty()) =~= Seq::<TypeV>::empty());
                }
                Ok(Typed { ty: operand_ty, types })
            },
            UnaryType::Minus | UnaryType::Not => {
                let target = if kind == UnaryType::Minus {
                    Type::Cons(Cons::Num)
                } else {
                    Type::Cons(Cons::Bool)
                };
                let mut operand_types = operand_types;
                let mut extra = Type::Cons(Cons::Num);
                let target_copy = target.deep_clone();
                match unify_step_exec(
                    &mut operand_types,
                    &mut extra,
                    operand_ty,
                    target_copy,
                    subs,
                    var_state,
                ) {
                    Err(e) => {
                        return Err(e);
                    },
                    Ok(()) => {},
                }
                let types = node_types(&target, operand_types, Vec::new());
                proof {
                    assert(types_view(Seq::<Type>::empty()) =~= Seq::<TypeV>::empty());
                }
                Ok(Typed { ty: target, types })
            },
            UnaryType::Ref => {
                let var = draw_exec(var_state);
                let ty = Type::Cons(Cons::Ref(MutType::Var(var), Box::new(operand_ty)));
                let types = node_types(&ty, operand_types, Vec::new());
                proof {
                    assert(types_view(Seq::<Type>::empty()) =~= Seq::<TypeV>::empty());
                }
                Ok(Typed { ty, types })
            },
        }
    }
}

impl Binary<()> {
    /// Infers the type of a binary operation: both operands are inferred,
    /// then each is unified with the type the operator takes: numbers for
    /// arithmetic and comparisons, booleans for logic, arrays of one fresh
    /// element type for concatenation.
    #[verifier::rlimit(80)]
    pub fn infer(self, subs: &mut Subs, var_state: &mut VarState, env: &Env) -> (r: Result<
        Typed,
        TypeError,
    >)
        requires
            infer_expr(crate::expr::kind_view(ExprKind::Binary(self)), old(subs)@, old(var_state)@, env@)
                is Some,
        ensures
            infers(
                infer_expr(
                    crate::expr::kind_view(ExprKind::Binary(self)),
                    old(subs)@,
                    old(var_state)@,
                    env@,
                )->Some_0,
                r,
                *final(subs),
                *final(var_state),
            ),
        decreases self,
    {
        let kind = self.kind;
        let left = match (*self.left).infer(subs, var_state, env) {
            Err(e) => {
                return Err(e);
            },
            Ok(t) => t,
        };
        let right = match (*self.right).infer(subs, var_state, env) {
            Err(e) => {
                return Err(e);
            },
            Ok(t) => t,
        };
        let Typed { ty: left_ty, types: left_types } = left;
        let Typed { ty: right_ty, types: right_types } = right;
        binary_rest(kind, left_ty, left_types, right_ty, right_types, subs, var_state)
    }
}

/// The type the operator takes and the type it gives.
fn binary_operand_types(kind: BinaryType, var_state: &mut VarState) -> (types: (Type, Type))
    requires
        kind == BinaryType::Concatenate ==> draw(old(var_state)@) is Some,
    ensures
        kind == BinaryType::Concatenate ==> ({
            let (w, v) = draw(old(var_state)@)->Some_0;
            let array = TypeV::Cons(ConsV::Array(Box::new(TypeV::Var(w))));
            types.0@ == array && types.1@ == array && final(var_state)@ == v
        }),
        kind != BinaryType::Concatenate ==> types.0@ == binary_types(kind).0 && types.1@
            == binary_types(kind).1 && final(var_state)@ == old(var_state)@,
{
    match kind {
        BinaryType::Concatenate => {
            let var = draw_exec(var_state);
            let element = Type::Var(var);
            let array = Type::Cons(Cons::Array(Box::new(element)));
            proof {
                assert(element@ == TypeV::Var(var@));
                assert(array@ == TypeV::Cons(ConsV::Array(Box::new(TypeV::Var(var@)))));
            }
            let copy = array.deep_clone();
            (array, copy)
        },
        BinaryType::Add | BinaryType::Sub | BinaryType::Multiply | BinaryType::Div
        | BinaryType::FloorDiv | BinaryType::Mod => (Type::Cons(Cons::Num), Type::Cons(Cons::Num)),
        BinaryType::Equal | BinaryType::NotEqual | BinaryType::Greater
        | BinaryType::GreaterEqual | BinaryType::Less | BinaryType::LessEqual => (
            Type::Cons(Cons::Num),
            Type::Cons(Cons::Bool),
        ),
        _ => (Type::Cons(Cons::Bool), Type::Cons(Cons::Bool)),
    }
}

/// The rest of a binary operation once both operands are inferred.
#[verifier::rlimit(40)]
fn binary_rest(
    kind: BinaryType,
    left_ty: Type,
    left_types: Vec<Type>,
    right_ty: Type,
    right_types: Vec<Type>,
    subs: &mut Subs,
    var_state: &mut VarState,
) -> (r: Result<Typed, TypeError>)
    requires
        infer_binary_rest(
            kind,
            left_ty@,
            types_view(left_types@),
            right_ty@,
            types_view(right_types@),
            old(subs)@,
            old(var_state)@,
        ) is Some,
    ensures
        infers(
            infer_binary_rest(
                kind,
                left_ty@,
                types_view(left_types@),
                right_ty@,
                types_view(right_types@),
                old(subs)@,
                old(var_state)@,
            )->Some_0,
            r,
            *final(subs),
            *final(var_state),
        ),
{
    let mut left_types = left_types;
    let mut right_types = right_types;
    let (operand, mut result) = binary_operand_types(kind, var_state);
    let operand_copy = operand.deep_clone();
    match unify_step_exec(&mut left_types, &mut result, left_ty, operand_copy, subs, var_state) {
        Err(e) => {
            return Err(e);
        },
        Ok(()) => {},
    }
    match unify_step_exec(&mut right_types, &mut result, right_ty, operand, subs, var_state) {
        Err(e) => {
            return Err(e);
        },
        Ok(()) => {},
    }
    let types = node_types(&result, left_types, right_types);
    Ok(Typed { ty: result, types })
}

impl ExprKind<()> {
    /// Infers the type of an expression.
    #[verifier::rlimit(80)]
    pub fn infer(self, subs: &mut Subs, var_state: &mut VarState, env: &Env) -> (r: Result<
        Typed,
        TypeError,
    >)
        requires
            infer_expr(crate::expr::kind_view(self), old(subs)@, old(var_state)@, env@) is Some,
        ensures
            infers(
                infer_expr(crate::expr::kind_view(self), old(subs)@, old(var_state)@, env@)->Some_0,
                r,
                *final(subs),
                *final(var_state),
            ),
        decreases self,
    {
        match self {
            ExprKind::Literal(l) => Ok(literal_infer(&l)),
            ExprKind::Place(p) => match p.infer_with_mut(subs, var_state, env) {
                Err(e) => Err(e),
                Ok((_, t)) => Ok(t),
            },
            ExprKind::Unary(u) => u.infer(subs, var_state, env),
            ExprKind::Binary(b) => b.infer(subs, var_state, env),
            ExprKind::Unit => {
                let ty = unit_exec();
                let types = node_types(&ty, Vec::new(), Vec::new());
                proof {
                    assert(types_view(Seq::<Type>::empty()) =~= Seq::<TypeV>::empty());
                }
                Ok(Typed { ty, types })
            },
            ExprKind::ArrayRange(r) => {
                let Typed { ty, types: inner } = match r.infer(subs, var_state, env) {
                    Err(e) => {
                        return Err(e);
                    },
                    Ok(typed) => typed,
                };
                let types = node_types(&ty, inner, Vec::new());
                proof {
                    assert(types_view(Seq::<Type>::empty()) =~= Seq::<TypeV>::empty());
                }
                Ok(Typed { ty, types })
            },
            ExprKind::Tag(t) => tag_infer(t, subs, var_state, env),
            ExprKind::Array(items) => array_infer(items, subs, var_state, env),
            ExprKind::Splat(x) => splat_infer(x, subs, var_state, env),
            ExprKind::Tuple(c) => tuple_infer(c, subs, var_state, env),
            ExprKind::Jump(Jump::Return(operand)) => return_infer(operand, subs, var_state, env),
            _ => vstd::pervasive::unreached(),
        }
    }
}

impl Expr<()> {
    /// Infers the type of an expression.
    pub fn infer(self, subs: &mut Subs, var_state: &mut VarState, env: &Env) -> (r: Result<
        Typed,
        TypeError,
    >)
        requires
            infer_expr(self@, old(subs)@, old(var_state)@, env@) is Some,
        ensures
            infers(
                infer_expr(self@, old(subs)@, old(var_state)@, env@)->Some_0,
                r,
                *final(subs),
                *final(var_state),
            ),
        decreases self,
    {
        self.expr.infer(subs, var_state, env)
    }
}

/// The type of an expression inferred from scratch, with the substitution
/// found applied to it.
pub fn test_infer(expr: Expr<()>) -> (r: Result<Type, TypeError>)
    requires
        infer_expr(expr@, Map::empty(), Map::empty(), Map::empty()) is Some,
    ensures
        match infer_expr(expr@, Map::empty(), Map::empty(), Map::empty())->Some_0 {
            InferV::Done(t, _, s, _) => match subst_type(t, s) {
                Ok(u) => r matches Ok(x) && x@ == u,
                Err(e) => r == Err::<Type, TypeError>(e),
            },
            InferV::Failed(e) => r == Err::<Type, TypeError>(e),
            InferV::Unsettled => r is Err,
        },
{
    let mut subs = Subs::new();
    let mut var_state = VarState::new();
    let env = Env::new();
    let typed = match expr.infer(&mut subs, &mut var_state, &env) {
        Err(e) => {
            return Err(e);
        },
        Ok(t) => t,
    };
    let mut ty = typed.ty;
    match ty.substitute(&subs) {
        Err(e) => Err(e),
        Ok(()) => Ok(ty),
    }
}

} // verus!
