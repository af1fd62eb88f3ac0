//! The mathematical model of types, and the meaning of substitution, free
//! variables and unification over it.
use crate::ty::{Kind, TypeError};
use vstd::prelude::*;

verus! {

/// A type variable: a name and a number telling apart variables of one name.
pub struct VarV {
    pub name: Seq<char>,
    pub id: u32,
}

/// A variable together with the kind of what it stands for.
pub struct KindedVarV {
    pub kind: Kind,
    pub var: VarV,
}

/// A field or variant name together with its type.
pub type FieldV = (Seq<char>, TypeV);

pub enum TypeV {
    Var(VarV),
    Cons(ConsV),
}

pub enum MutTypeV {
    Var(VarV),
    Imm,
    Mut,
}

pub enum ConsV {
    Num,
    Bool,
    Ref(MutTypeV, Box<TypeV>),
    Array(Box<TypeV>),
    Fun(Box<TypeV>, Box<TypeV>),
    RecordTuple(OrderedAndV<FieldV>),
    Record(KeyedV),
    Tuple(OrderedAndV<TypeV>),
    Union(KeyedV),
}

/// Fields looked up by name, possibly extended by a row variable.
pub struct KeyedV {
    pub fields: Seq<FieldV>,
    pub rest: Option<VarV>,
}

/// Ordered elements, possibly with a row variable between a left and a right
/// part.
pub enum OrderedAndV<T> {
    NonRow(Seq<T>),
    Row(Seq<T>, VarV, Seq<T>),
}

/// What a substitution binds a variable to: a type or a mutability.
pub enum Type1V {
    Type(TypeV),
    MutType(MutTypeV),
}

/// The kinded variable of a type variable.
pub open spec fn type_kv(v: VarV) -> KindedVarV {
    KindedVarV { kind: Kind::Type, var: v }
}

/// The kinded variable of a mutability variable.
pub open spec fn mut_kv(v: VarV) -> KindedVarV {
    KindedVarV { kind: Kind::MutType, var: v }
}

// ---------------------------------------------------------------------
// Free variables

pub open spec fn fv_type(t: TypeV) -> Set<KindedVarV>
    decreases t,
{
    match t {
        TypeV::Var(v) => set![type_kv(v)],
        TypeV::Cons(c) => fv_cons(c),
    }
}

pub open spec fn fv_mut(m: MutTypeV) -> Set<KindedVarV> {
    match m {
        MutTypeV::Var(v) => set![mut_kv(v)],
        _ => Set::empty(),
    }
}

pub open spec fn fv_cons(c: ConsV) -> Set<KindedVarV>
    decreases c,
{
    match c {
        ConsV::Num | ConsV::Bool => Set::empty(),
        ConsV::Ref(m, t) => fv_mut(m) + fv_type(*t),
        ConsV::Array(t) => fv_type(*t),
        ConsV::Fun(p, r) => fv_type(*p) + fv_type(*r),
        ConsV::Record(k) => fv_keyed(k),
        ConsV::Union(k) => fv_keyed(k),
        ConsV::Tuple(o) => fv_ordered_types(o),
        ConsV::RecordTuple(o) => fv_ordered_fields(o),
    }
}

pub open spec fn fv_keyed(k: KeyedV) -> Set<KindedVarV>
    decreases k,
{
    fv_fields(k.fields) + match k.rest {
        Some(v) => set![type_kv(v)],
        None => Set::empty(),
    }
}

pub open spec fn fv_fields(s: Seq<FieldV>) -> Set<KindedVarV>
    decreases s,
{
    if s.len() == 0 {
        Set::empty()
    } else {
        proof {
            assert(decreases_to!(s => s[s.len() - 1]));
        }
        fv_fields(s.drop_last()) + fv_type(s[s.len() - 1].1)
    }
}

pub open spec fn fv_types(s: Seq<TypeV>) -> Set<KindedVarV>
    decreases s,
{
    if s.len() == 0 {
        Set::empty()
    } else {
        proof {
            assert(decreases_to!(s => s[s.len() - 1]));
        }
        fv_types(s.drop_last()) + fv_type(s[s.len() - 1])
    }
}

pub open spec fn fv_ordered_types(o: OrderedAndV<TypeV>) -> Set<KindedVarV>
    decreases o,
{
    match o {
        OrderedAndV::NonRow(s) => fv_types(s),
        OrderedAndV::Row(l, v, r) => fv_types(l) + set![type_kv(v)] + fv_types(r),
    }
}

pub open spec fn fv_ordered_fields(o: OrderedAndV<FieldV>) -> Set<KindedVarV>
    decreases o,
{
    match o {
        OrderedAndV::NonRow(s) => fv_fields(s),
        OrderedAndV::Row(l, v, r) => fv_fields(l) + set![type_kv(v)] + fv_fields(r),
    }
}

pub open spec fn fv_type1(t: Type1V) -> Set<KindedVarV> {
    match t {
        Type1V::Type(t) => fv_type(t),
        Type1V::MutType(m) => fv_mut(m),
    }
}


// ---------------------------------------------------------------------
// Sizes, a measure for the recursive definitions below

pub open spec fn size_type(t: TypeV) -> nat
    decreases t,
{
    match t {
        TypeV::Var(_) => 1,
        TypeV::Cons(c) => 1 + size_cons(c),
    }
}

pub open spec fn size_cons(c: ConsV) -> nat
    decreases c,
{
    match c {
        ConsV::Num | ConsV::Bool => 1,
        ConsV::Ref(_, t) => 2 + size_type(*t),
        ConsV::Array(t) => 2 + size_type(*t),
        ConsV::Fun(p, r) => 2 + size_type(*p) + size_type(*r),
        ConsV::Record(k) => 2 + size_fields(k.fields),
        ConsV::Union(k) => 2 + size_fields(k.fields),
        ConsV::Tuple(o) => 2 + size_ordered_types(o),
        ConsV::RecordTuple(o) => 3 + size_ordered_fields(o),
    }
}

pub open spec fn size_fields(s: Seq<FieldV>) -> nat
    decreases s,
{
    if s.len() == 0 {
        0
    } else {
        proof {
            assert(decreases_to!(s => s[s.len() - 1]));
        }
        size_fields(s.drop_last()) + 1 + size_type(s[s.len() - 1].1)
    }
}

pub open spec fn size_types(s: Seq<TypeV>) -> nat
    decreases s,
{
    if s.len() == 0 {
        0
    } else {
        proof {
            assert(decreases_to!(s => s[s.len() - 1]));
        }
        size_types(s.drop_last()) + 1 + size_type(s[s.len() - 1])
    }
}

pub open spec fn size_ordered_types(o: OrderedAndV<TypeV>) -> nat
    decreases o,
{
    match o {
        OrderedAndV::NonRow(s) => size_types(s),
        OrderedAndV::Row(l, _, r) => size_types(l) + 1 + size_types(r),
    }
}

pub open spec fn size_ordered_fields(o: OrderedAndV<FieldV>) -> nat
    decreases o,
{
    match o {
        OrderedAndV::NonRow(s) => size_fields(s),
        OrderedAndV::Row(l, _, r) => size_fields(l) + 1 + size_fields(r),
    }
}

// ---------------------------------------------------------------------
// Fields as an association list

/// The position of the first field named `key`.
pub open spec fn key_index(fields: Seq<FieldV>, key: Seq<char>) -> Option<nat>
    decreases fields.len(),
{
    if fields.len() == 0 {
        None
    } else if fields[0].0 == key {
        Some(0)
    } else {
        match key_index(fields.drop_first(), key) {
            Some(i) => Some(i + 1),
            None => None,
        }
    }
}

/// Sets the field `field.0` to `field.1`, in place when it is present, at the
/// end otherwise.
pub open spec fn insert_field(fields: Seq<FieldV>, field: FieldV) -> Seq<FieldV> {
    match key_index(fields, field.0) {
        Some(i) => fields.update(i as int, field),
        None => fields.push(field),
    }
}

/// The fields that inserting `pairs` one after the other gives: each name
/// once, with the last type given for it.
pub open spec fn from_pairs(pairs: Seq<FieldV>) -> Seq<FieldV>
    decreases pairs.len(),
{
    if pairs.len() == 0 {
        Seq::empty()
    } else {
        insert_field(from_pairs(pairs.drop_last()), pairs.last())
    }
}

pub open spec fn into_keyed(o: OrderedAndV<FieldV>) -> KeyedV {
    match o {
        OrderedAndV::NonRow(s) => KeyedV { fields: from_pairs(s), rest: None },
        OrderedAndV::Row(l, v, r) => KeyedV { fields: from_pairs(l + r), rest: Some(v) },
    }
}

pub open spec fn field_types(s: Seq<FieldV>) -> Seq<TypeV> {
    s.map_values(|f: FieldV| f.1)
}

pub open spec fn into_ordered(o: OrderedAndV<FieldV>) -> OrderedAndV<TypeV> {
    match o {
        OrderedAndV::NonRow(s) => OrderedAndV::NonRow(field_types(s)),
        OrderedAndV::Row(l, v, r) => OrderedAndV::Row(field_types(l), v, field_types(r)),
    }
}

// ---------------------------------------------------------------------
// Size lemmas

pub proof fn lemma_size_fields_add(a: Seq<FieldV>, b: Seq<FieldV>)
    ensures
        size_fields(a + b) == size_fields(a) + size_fields(b),
    decreases b.len(),
{
    if b.len() == 0 {
        assert(a + b =~= a);
    } else {
        lemma_size_fields_add(a, b.drop_last());
        assert((a + b).drop_last() =~= a + b.drop_last());
    }
}

pub proof fn lemma_size_fields_update(s: Seq<FieldV>, i: int, f: FieldV)
    requires
        0 <= i < s.len(),
    ensures
        size_fields(s.update(i, f)) + size_type(s[i].1) == size_fields(s) + size_type(f.1),
    decreases s.len(),
{
    if i < s.len() - 1 {
        lemma_size_fields_update(s.drop_last(), i, f);
        assert(s.update(i, f).drop_last() =~= s.drop_last().update(i, f));
    } else {
        assert(s.update(i, f).drop_last() =~= s.drop_last());
    }
}

pub proof fn lemma_key_index(fields: Seq<FieldV>, key: Seq<char>)
    ensures
        match key_index(fields, key) {
            Some(i) => i < fields.len() && fields[i as int].0 == key && forall|j: int|
                0 <= j < i ==> #[trigger] fields[j].0 != key,
            None => forall|j: int| 0 <= j < fields.len() ==> #[trigger] fields[j].0 != key,
        },
    decreases fields.len(),
{
    if fields.len() > 0 {
        lemma_key_index(fields.drop_first(), key);
        assert forall|j: int| 1 <= j < fields.len() implies fields[j] == fields.drop_first()[j
            - 1] by {}
    }
}

pub proof fn lemma_size_from_pairs(pairs: Seq<FieldV>)
    ensures
        size_fields(from_pairs(pairs)) <= size_fields(pairs),
    decreases pairs.len(),
{
    if pairs.len() > 0 {
        let prev = from_pairs(pairs.drop_last());
        let f = pairs.last();
        lemma_size_from_pairs(pairs.drop_last());
        lemma_key_index(prev, f.0);
        match key_index(prev, f.0) {
            Some(i) => {
                lemma_size_fields_update(prev, i as int, f);
            },
            None => {
                assert(prev.push(f).drop_last() =~= prev);
            },
        }
    }
}

pub proof fn lemma_size_field_types(s: Seq<FieldV>)
    ensures
        size_types(field_types(s)) == size_fields(s),
    decreases s.len(),
{
    if s.len() > 0 {
        lemma_size_field_types(s.drop_last());
        assert(field_types(s).drop_last() =~= field_types(s.drop_last()));
    }
}

pub proof fn lemma_size_into_keyed(o: OrderedAndV<FieldV>)
    ensures
        size_fields(into_keyed(o).fields) <= size_ordered_fields(o),
{
    match o {
        OrderedAndV::NonRow(s) => lemma_size_from_pairs(s),
        OrderedAndV::Row(l, _, r) => {
            lemma_size_from_pairs(l + r);
            lemma_size_fields_add(l, r);
        },
    }
}

pub proof fn lemma_size_into_ordered(o: OrderedAndV<FieldV>)
    ensures
        size_ordered_types(into_ordered(o)) == size_ordered_fields(o),
{
    match o {
        OrderedAndV::NonRow(s) => lemma_size_field_types(s),
        OrderedAndV::Row(l, _, r) => {
            lemma_size_field_types(l);
            lemma_size_field_types(r);
        },
    }
}


// ---------------------------------------------------------------------
// Substitution

/// Which constructors a keyed row variable may be bound to.
#[derive(Debug, PartialEq, Eq, Clone, Copy, Structural)]
pub enum KeyedKind {
    /// Records: bound to a record, or to a record tuple seen as a record.
    Record,
    /// Unions: bound to a union.
    Union,
}

pub open spec fn match_keyed(kind: KeyedKind, c: ConsV) -> Option<KeyedV> {
    match (kind, c) {
        (KeyedKind::Record, ConsV::Record(k)) => Some(k),
        (KeyedKind::Record, ConsV::RecordTuple(o)) => Some(into_keyed(o)),
        (KeyedKind::Union, ConsV::Union(k)) => Some(k),
        _ => None,
    }
}

pub open spec fn match_tuple(c: ConsV) -> Option<OrderedAndV<TypeV>> {
    match c {
        ConsV::Tuple(o) => Some(o),
        ConsV::RecordTuple(o) => Some(into_ordered(o)),
        _ => None,
    }
}

pub open spec fn match_record_tuple(c: ConsV) -> Option<OrderedAndV<FieldV>> {
    match c {
        ConsV::RecordTuple(o) => Some(o),
        _ => None,
    }
}

pub open spec fn subst_mut(m: MutTypeV, s: Map<VarV, Type1V>) -> Result<MutTypeV, TypeError> {
    match m {
        MutTypeV::Var(v) => if s.contains_key(v) {
            match s[v] {
                Type1V::MutType(bound) => Ok(bound),
                Type1V::Type(_) => Err(TypeError::MismatchKind),
            }
        } else {
            Ok(m)
        },
        _ => Ok(m),
    }
}

pub open spec fn subst_type(t: TypeV, s: Map<VarV, Type1V>) -> Result<TypeV, TypeError>
    decreases size_type(t),
{
    match t {
        TypeV::Var(v) => if s.contains_key(v) {
            match s[v] {
                Type1V::Type(bound) => Ok(bound),
                Type1V::MutType(_) => Err(TypeError::MismatchKind),
            }
        } else {
            Ok(t)
        },
        TypeV::Cons(c) => match subst_cons(c, s) {
            Ok(c) => Ok(TypeV::Cons(c)),
            Err(e) => Err(e),
        },
    }
}

pub open spec fn subst_cons(c: ConsV, s: Map<VarV, Type1V>) -> Result<ConsV, TypeError>
    decreases size_cons(c),
{
    match c {
        ConsV::Num => Ok(ConsV::Num),
        ConsV::Bool => Ok(ConsV::Bool),
        ConsV::Ref(m, t) => match subst_mut(m, s) {
            Err(e) => Err(e),
            Ok(m) => match subst_type(*t, s) {
                Err(e) => Err(e),
                Ok(t) => Ok(ConsV::Ref(m, Box::new(t))),
            },
        },
        ConsV::Array(t) => match subst_type(*t, s) {
            Err(e) => Err(e),
            Ok(t) => Ok(ConsV::Array(Box::new(t))),
        },
        ConsV::Fun(p, r) => match subst_type(*p, s) {
            Err(e) => Err(e),
            Ok(p) => match subst_type(*r, s) {
                Err(e) => Err(e),
                Ok(r) => Ok(ConsV::Fun(Box::new(p), Box::new(r))),
            },
        },
        ConsV::Record(k) => match subst_keyed(k, s, KeyedKind::Record) {
            Err(e) => Err(e),
            Ok(k) => Ok(ConsV::Record(k)),
        },
        ConsV::Union(k) => match subst_keyed(k, s, KeyedKind::Union) {
            Err(e) => Err(e),
            Ok(k) => Ok(ConsV::Union(k)),
        },
        ConsV::Tuple(o) => match subst_ordered_types(o, s) {
            Err(e) => Err(e),
            Ok(o) => Ok(ConsV::Tuple(o)),
        },
        ConsV::RecordTuple(o) => match o {
            OrderedAndV::NonRow(fs) => match subst_fields(fs, s) {
                Err(e) => Err(e),
                Ok(fs) => Ok(ConsV::RecordTuple(OrderedAndV::NonRow(fs))),
            },
            OrderedAndV::Row(_, v, _) => if !s.contains_key(v) {
                Err(TypeError::MismatchCons)
            } else {
                match s[v] {
                    Type1V::Type(TypeV::Var(_))
                    | Type1V::Type(TypeV::Cons(ConsV::RecordTuple(_))) => match subst_ordered_fields(
                        o,
                        s,
                    ) {
                        Err(e) => Err(e),
                        Ok(o) => Ok(ConsV::RecordTuple(o)),
                    },
                    Type1V::Type(TypeV::Cons(ConsV::Record(_))) => {
                        proof {
                            lemma_size_into_keyed(o);
                        }
                        match subst_keyed(into_keyed(o), s, KeyedKind::Record) {
                            Err(e) => Err(e),
                            Ok(k) => Ok(ConsV::Record(k)),
                        }
                    },
                    Type1V::Type(TypeV::Cons(ConsV::Tuple(_))) => {
                        proof {
                            lemma_size_into_ordered(o);
                        }
                        match subst_ordered_types(into_ordered(o), s) {
                            Err(e) => Err(e),
                            Ok(o) => Ok(ConsV::Tuple(o)),
                        }
                    },
                    _ => Err(TypeError::MismatchCons),
                }
            },
        },
    }
}

pub open spec fn subst_fields(fs: Seq<FieldV>, s: Map<VarV, Type1V>) -> Result<
    Seq<FieldV>,
    TypeError,
>
    decreases size_fields(fs),
{
    if fs.len() == 0 {
        Ok(Seq::empty())
    } else {
        match subst_fields(fs.drop_last(), s) {
            Err(e) => Err(e),
            Ok(prefix) => match subst_type(fs.last().1, s) {
                Err(e) => Err(e),
                Ok(t) => Ok(prefix.push((fs.last().0, t))),
            },
        }
    }
}

pub open spec fn subst_types(ts: Seq<TypeV>, s: Map<VarV, Type1V>) -> Result<
    Seq<TypeV>,
    TypeError,
>
    decreases size_types(ts),
{
    if ts.len() == 0 {
        Ok(Seq::empty())
    } else {
        match subst_types(ts.drop_last(), s) {
            Err(e) => Err(e),
            Ok(prefix) => match subst_type(ts.last(), s) {
                Err(e) => Err(e),
                Ok(t) => Ok(prefix.push(t)),
            },
        }
    }
}

/// Adds `new` to `fields` one field after the other, failing on a name
/// already present.
pub open spec fn extend_fields(fields: Seq<FieldV>, new: Seq<FieldV>) -> Result<
    Seq<FieldV>,
    TypeError,
>
    decreases new.len(),
{
    if new.len() == 0 {
        Ok(fields)
    } else {
        match extend_fields(fields, new.drop_last()) {
            Err(e) => Err(e),
            Ok(extended) => if key_index(extended, new.last().0) is Some {
                Err(TypeError::Overlap)
            } else {
                Ok(extended.push(new.last()))
            },
        }
    }
}

/// The row variable of keyed fields after substitution.
pub open spec fn subst_keyed_rest(
    fields: Seq<FieldV>,
    rest: Option<VarV>,
    s: Map<VarV, Type1V>,
    kind: KeyedKind,
) -> Result<KeyedV, TypeError> {
    match rest {
        None => Ok(KeyedV { fields, rest: None }),
        Some(v) => if !s.contains_key(v) {
            Ok(KeyedV { fields, rest: Some(v) })
        } else {
            match s[v] {
                Type1V::Type(TypeV::Var(nv)) => Ok(KeyedV { fields, rest: Some(nv) }),
                Type1V::Type(TypeV::Cons(c)) => match match_keyed(kind, c) {
                    None => Err(TypeError::MismatchCons),
                    Some(new_rest) => match extend_fields(fields, new_rest.fields) {
                        Err(e) => Err(e),
                        Ok(fields) => Ok(KeyedV { fields, rest: new_rest.rest }),
                    },
                },
                Type1V::MutType(_) => Err(TypeError::MismatchCons),
            }
        },
    }
}

pub open spec fn subst_keyed(k: KeyedV, s: Map<VarV, Type1V>, kind: KeyedKind) -> Result<
    KeyedV,
    TypeError,
>
    decreases size_fields(k.fields) + 1,
{
    match subst_fields(k.fields, s) {
        Err(e) => Err(e),
        Ok(fields) => subst_keyed_rest(fields, k.rest, s, kind),
    }
}

/// The row variable of ordered types after substitution.
pub open spec fn subst_ordered_rest<T>(
    left: Seq<T>,
    v: VarV,
    right: Seq<T>,
    s: Map<VarV, Type1V>,
    matcher: spec_fn(ConsV) -> Option<OrderedAndV<T>>,
) -> Result<OrderedAndV<T>, TypeError> {
    if !s.contains_key(v) {
        Ok(OrderedAndV::Row(left, v, right))
    } else {
        match s[v] {
            Type1V::Type(TypeV::Var(nv)) => Ok(OrderedAndV::Row(left, nv, right)),
            Type1V::Type(TypeV::Cons(c)) => match matcher(c) {
                None => Err(TypeError::MismatchCons),
                Some(OrderedAndV::Row(more_left, nv, more_right)) => Ok(
                    OrderedAndV::Row(left + more_left, nv, more_right + right),
                ),
                Some(OrderedAndV::NonRow(middle)) => Ok(OrderedAndV::NonRow(left + middle + right)),
            },
            Type1V::MutType(_) => Err(TypeError::MismatchCons),
        }
    }
}

pub open spec fn subst_ordered_types(o: OrderedAndV<TypeV>, s: Map<VarV, Type1V>) -> Result<
    OrderedAndV<TypeV>,
    TypeError,
>
    decreases size_ordered_types(o) + 1,
{
    match o {
        OrderedAndV::NonRow(ts) => match subst_types(ts, s) {
            Err(e) => Err(e),
            Ok(ts) => Ok(OrderedAndV::NonRow(ts)),
        },
        OrderedAndV::Row(l, v, r) => match subst_types(l, s) {
            Err(e) => Err(e),
            Ok(l) => match subst_types(r, s) {
                Err(e) => Err(e),
                Ok(r) => subst_ordered_rest(l, v, r, s, |c: ConsV| match_tuple(c)),
            },
        },
    }
}

pub open spec fn subst_ordered_fields(o: OrderedAndV<FieldV>, s: Map<VarV, Type1V>) -> Result<
    OrderedAndV<FieldV>,
    TypeError,
>
    decreases size_ordered_fields(o) + 1,
{
    match o {
        OrderedAndV::NonRow(fs) => match subst_fields(fs, s) {
            Err(e) => Err(e),
            Ok(fs) => Ok(OrderedAndV::NonRow(fs)),
        },
        OrderedAndV::Row(l, v, r) => match subst_fields(l, s) {
            Err(e) => Err(e),
            Ok(l) => match subst_fields(r, s) {
                Err(e) => Err(e),
                Ok(r) => subst_ordered_rest(l, v, r, s, |c: ConsV| match_record_tuple(c)),
            },
        },
    }
}

pub open spec fn subst_type1(t: Type1V, s: Map<VarV, Type1V>) -> Result<Type1V, TypeError> {
    match t {
        Type1V::Type(t) => match subst_type(t, s) {
            Err(e) => Err(e),
            Ok(t) => Ok(Type1V::Type(t)),
        },
        Type1V::MutType(m) => match subst_mut(m, s) {
            Err(e) => Err(e),
            Ok(m) => Ok(Type1V::MutType(m)),
        },
    }
}


// ---------------------------------------------------------------------
// Prefix lemmas: an error in a prefix is the error of the whole

pub proof fn lemma_subst_fields_err(x: Seq<FieldV>, j: int, s: Map<VarV, Type1V>)
    requires
        0 <= j <= x.len(),
        subst_fields(x.subrange(0, j), s) is Err,
    ensures
        subst_fields(x, s) == subst_fields(x.subrange(0, j), s),
    decreases x.len(),
{
    if j < x.len() {
        assert(x.drop_last().subrange(0, j) =~= x.subrange(0, j));
        lemma_subst_fields_err(x.drop_last(), j, s);
    } else {
        assert(x.subrange(0, j) =~= x);
    }
}

pub proof fn lemma_subst_types_err(x: Seq<TypeV>, j: int, s: Map<VarV, Type1V>)
    requires
        0 <= j <= x.len(),
        subst_types(x.subrange(0, j), s) is Err,
    ensures
        subst_types(x, s) == subst_types(x.subrange(0, j), s),
    decreases x.len(),
{
    if j < x.len() {
        assert(x.drop_last().subrange(0, j) =~= x.subrange(0, j));
        lemma_subst_types_err(x.drop_last(), j, s);
    } else {
        assert(x.subrange(0, j) =~= x);
    }
}

pub proof fn lemma_extend_fields_err(f: Seq<FieldV>, x: Seq<FieldV>, j: int)
    requires
        0 <= j <= x.len(),
        extend_fields(f, x.subrange(0, j)) is Err,
    ensures
        extend_fields(f, x) == extend_fields(f, x.subrange(0, j)),
    decreases x.len(),
{
    if j < x.len() {
        assert(x.drop_last().subrange(0, j) =~= x.subrange(0, j));
        lemma_extend_fields_err(f, x.drop_last(), j);
    } else {
        assert(x.subrange(0, j) =~= x);
    }
}

/// A successful substitution of named types keeps the names and length.
pub proof fn lemma_subst_fields_shape(x: Seq<FieldV>, s: Map<VarV, Type1V>)
    requires
        subst_fields(x, s) is Ok,
    ensures
        subst_fields(x, s)->Ok_0.len() == x.len(),
        forall|i: int|
            0 <= i < x.len() ==> (#[trigger] subst_fields(x, s)->Ok_0[i]).0 == x[i].0
                && subst_type(x[i].1, s) == Ok::<TypeV, TypeError>(subst_fields(x, s)->Ok_0[i].1),
    decreases x.len(),
{
    if x.len() > 0 {
        lemma_subst_fields_shape(x.drop_last(), s);
    }
}


pub proof fn lemma_size_types_elem(s: Seq<TypeV>, i: int)
    requires
        0 <= i < s.len(),
    ensures
        size_type(s[i]) < size_types(s),
    decreases s.len(),
{
    if i < s.len() - 1 {
        lemma_size_types_elem(s.drop_last(), i);
    }
}

pub proof fn lemma_size_fields_elem(s: Seq<FieldV>, i: int)
    requires
        0 <= i < s.len(),
    ensures
        size_type(s[i].1) < size_fields(s),
    decreases s.len(),
{
    if i < s.len() - 1 {
        lemma_size_fields_elem(s.drop_last(), i);
    }
}

} // verus!
