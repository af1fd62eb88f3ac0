//! Type constructors: numbers, references, arrays, functions, records,
//! tuples and unions.
use crate::ty::model::{
    from_pairs, insert_field, into_keyed, into_ordered, key_index, lemma_extend_fields_err,
    lemma_key_index, lemma_size_fields_elem, lemma_size_into_keyed, lemma_size_into_ordered,
    lemma_size_types_elem, lemma_subst_fields_err, lemma_subst_types_err, extend_fields,
    field_types, match_keyed, match_record_tuple, match_tuple, size_cons, size_fields,
    size_ordered_fields, size_ordered_types, size_types, subst_cons, subst_fields,
    subst_keyed, subst_ordered_fields, subst_ordered_types, subst_types, ConsV, KeyedKind,
    OrderedAndV, Type1V, TypeV,
};
use crate::ty::{
    clone_fields, clone_types, cons_view, fields_view, keyed_view, lemma_fields_view,
    lemma_fields_view_add, lemma_fields_view_subrange, lemma_fields_view_update,
    lemma_types_view, lemma_types_view_add, lemma_types_view_subrange, lemma_types_view_update,
    ordered_fields_view, ordered_types_view, type_view, types_view, Atom, Subs, Type, Type1,
    TypeError, Var,
};
use vstd::prelude::*;

verus! {

/// A type constructor.
#[derive(Debug, PartialEq, Eq)]
pub enum Cons {
    Num,
    Bool,
    Ref(crate::ty::MutType, Box<Type>),
    Array(Box<Type>),
    Fun(Box<Type>, Box<Type>),
    RecordTuple(OrderedAnd<(Atom, Type)>),
    Record(Keyed),
    Tuple(OrderedAnd<Type>),
    Union(Keyed),
}

/// Fields looked up by name, possibly extended by a row variable.
#[derive(Debug, PartialEq, Eq)]
pub struct Keyed {
    pub fields: Vec<(Atom, Type)>,
    pub rest: Option<Var>,
}

/// Ordered elements, possibly with a row variable between a left and a right
/// part.
#[derive(Debug, PartialEq, Eq)]
pub enum OrderedAnd<T> {
    NonRow(Vec<T>),
    Row(Vec<T>, Var, Vec<T>),
}


impl Cons {
    /// A copy of the constructor.
    pub fn deep_clone(&self) -> (cons: Cons)
        ensures
            cons_view(cons) == cons_view(*self),
        decreases self,
    {
        match self {
            Cons::Num => Cons::Num,
            Cons::Bool => Cons::Bool,
            Cons::Ref(m, t) => Cons::Ref(m.clone(), Box::new((**t).deep_clone())),
            Cons::Array(t) => Cons::Array(Box::new((**t).deep_clone())),
            Cons::Fun(p, r) => Cons::Fun(
                Box::new((**p).deep_clone()),
                Box::new((**r).deep_clone()),
            ),
            Cons::RecordTuple(o) => Cons::RecordTuple(o.clone_fields()),
            Cons::Record(k) => Cons::Record(k.deep_clone()),
            Cons::Tuple(o) => Cons::Tuple(o.clone_types()),
            Cons::Union(k) => Cons::Union(k.deep_clone()),
        }
    }
}

impl Keyed {
    /// A copy of the fields and row variable.
    pub fn deep_clone(&self) -> (keyed: Keyed)
        ensures
            keyed_view(keyed) == keyed_view(*self),
        decreases self,
    {
        let rest = match &self.rest {
            Some(v) => Some(v.clone()),
            None => None,
        };
        Keyed { fields: clone_fields(&self.fields), rest }
    }
}

impl OrderedAnd<Type> {
    pub(crate) fn clone_types(&self) -> (copy: Self)
        ensures
            ordered_types_view(copy) == ordered_types_view(*self),
        decreases self,
    {
        match self {
            OrderedAnd::NonRow(s) => OrderedAnd::NonRow(clone_types(s)),
            OrderedAnd::Row(l, v, r) => OrderedAnd::Row(clone_types(l), v.clone(), clone_types(r)),
        }
    }
}

impl OrderedAnd<(Atom, Type)> {
    pub(crate) fn clone_fields(&self) -> (copy: Self)
        ensures
            ordered_fields_view(copy) == ordered_fields_view(*self),
        decreases self,
    {
        match self {
            OrderedAnd::NonRow(s) => OrderedAnd::NonRow(clone_fields(s)),
            OrderedAnd::Row(l, v, r) => OrderedAnd::Row(clone_fields(l), v.clone(), clone_fields(r)),
        }
    }
}

impl Clone for Cons {
    fn clone(&self) -> (cons: Self)
        ensures
            cons_view(cons) == cons_view(*self),
    {
        self.deep_clone()
    }
}

impl Clone for Keyed {
    fn clone(&self) -> (keyed: Self)
        ensures
            keyed_view(keyed) == keyed_view(*self),
    {
        self.deep_clone()
    }
}


// ---------------------------------------------------------------------
// Lists of named types and of types

/// The position of the first field named `key`.
pub fn find_field(fields: &Vec<(Atom, Type)>, key: &Atom) -> (pos: Option<usize>)
    ensures
        match pos {
            Some(k) => key_index(fields_view(fields@), key@) == Some(k as nat) && k < fields@.len(),
            None => key_index(fields_view(fields@), key@) is None,
        },
{
    proof {
        lemma_fields_view(fields@);
        lemma_key_index(fields_view(fields@), key@);
    }
    let mut i: usize = 0;
    while i < fields.len()
        invariant
            i <= fields@.len(),
            fields_view(fields@).len() == fields@.len(),
            forall|j: int| 0 <= j < i ==> #[trigger] fields_view(fields@)[j].0 != key@,
            forall|j: int|
                0 <= j < fields@.len() ==> #[trigger] fields_view(fields@)[j] == (
                    fields@[j].0@,
                    type_view(fields@[j].1),
                ),
            key_index(fields_view(fields@), key@) matches Some(k) ==> i <= k,
        decreases fields@.len() - i,
    {
        proof {
            lemma_key_index(fields_view(fields@), key@);
        }
        if fields[i].0 == *key {
            proof {
                assert(fields_view(fields@)[i as int].0 == key@);
            }
            return Some(i);
        }
        proof {
            assert(fields_view(fields@)[i as int].0 != key@);
        }
        i = i + 1;
    }
    None
}

/// Substitutes into every type of a list of named types, in order.
fn substitute_fields(fields: &mut Vec<(Atom, Type)>, subs: &Subs) -> (result: Result<
    (),
    TypeError,
>)
    ensures
        match subst_fields(fields_view(old(fields)@), subs@) {
            Ok(f) => result is Ok && fields_view(final(fields)@) == f,
            Err(e) => result == Err::<(), TypeError>(e),
        },
    decreases size_fields(fields_view(old(fields)@)),
{
    let ghost orig = fields_view(fields@);
    let n = fields.len();
    proof {
        lemma_fields_view(fields@);
        assert(orig.subrange(0, 0) =~= Seq::<(Seq<char>, TypeV)>::empty());
        assert(fields_view(fields@).subrange(0, n as int) =~= orig.subrange(0, n as int));
    }
    let mut i: usize = 0;
    while i < n
        invariant
            i <= n,
            n == fields@.len(),
            orig.len() == n,
            orig == fields_view(old(fields)@),
            fields_view(fields@).len() == n,
            subst_fields(orig.subrange(0, i as int), subs@) is Ok,
            fields_view(fields@).subrange(0, i as int) == subst_fields(
                orig.subrange(0, i as int),
                subs@,
            )->Ok_0,
            fields_view(fields@).subrange(i as int, n as int) == orig.subrange(i as int, n as int),
        decreases n - i,
    {
        let ghost before = fields@;
        proof {
            lemma_fields_view(before);
            assert(orig[i as int] == fields_view(before).subrange(i as int, n as int)[0]);
            lemma_size_fields_elem(orig, i as int);
        }
        let result = fields[i].1.substitute(subs);
        proof {
            let pre = orig.subrange(0, i + 1);
            assert(pre.drop_last() =~= orig.subrange(0, i as int));
            assert(pre.last() == orig[i as int]);
        }
        match result {
            Err(e) => {
                proof {
                    lemma_subst_fields_err(orig, i + 1, subs@);
                }
                return Err(e);
            },
            Ok(()) => {},
        }
        proof {
            assert(fields@ == before.update(i as int, (before[i as int].0, fields@[i as int].1)));
            lemma_fields_view_update(before, i as int, (before[i as int].0, fields@[i as int].1));
            lemma_fields_view(fields@);
            assert forall|j: int| i + 1 <= j < n implies fields_view(fields@)[j] == orig[j] by {
                assert(fields_view(before).subrange(i as int, n as int)[j - i] == orig.subrange(
                    i as int,
                    n as int,
                )[j - i]);
            }
            assert(fields_view(fields@).subrange(0, i + 1) =~= subst_fields(
                orig.subrange(0, i + 1),
                subs@,
            )->Ok_0);
            assert(fields_view(fields@).subrange(i + 1, n as int) =~= orig.subrange(
                i + 1,
                n as int,
            ));
        }
        i = i + 1;
    }
    proof {
        assert(orig.subrange(0, n as int) =~= orig);
        assert(fields_view(fields@).subrange(0, n as int) =~= fields_view(fields@));
    }
    Ok(())
}

/// Substitutes into every type of a list, in order.
fn substitute_types(types: &mut Vec<Type>, subs: &Subs) -> (result: Result<(), TypeError>)
    ensures
        match subst_types(types_view(old(types)@), subs@) {
            Ok(t) => result is Ok && types_view(final(types)@) == t,
            Err(e) => result == Err::<(), TypeError>(e),
        },
    decreases size_types(types_view(old(types)@)),
{
    let ghost orig = types_view(types@);
    let n = types.len();
    proof {
        lemma_types_view(types@);
        assert(orig.subrange(0, 0) =~= Seq::<TypeV>::empty());
        assert(types_view(types@).subrange(0, n as int) =~= orig.subrange(0, n as int));
    }
    let mut i: usize = 0;
    while i < n
        invariant
            i <= n,
            n == types@.len(),
            orig.len() == n,
            orig == types_view(old(types)@),
            types_view(types@).len() == n,
            subst_types(orig.subrange(0, i as int), subs@) is Ok,
            types_view(types@).subrange(0, i as int) == subst_types(
                orig.subrange(0, i as int),
                subs@,
            )->Ok_0,
            types_view(types@).subrange(i as int, n as int) == orig.subrange(i as int, n as int),
        decreases n - i,
    {
        let ghost before = types@;
        proof {
            lemma_types_view(before);
            assert(orig[i as int] == types_view(before).subrange(i as int, n as int)[0]);
            lemma_size_types_elem(orig, i as int);
        }
        let result = types[i].substitute(subs);
        proof {
            let pre = orig.subrange(0, i + 1);
            assert(pre.drop_last() =~= orig.subrange(0, i as int));
            assert(pre.last() == orig[i as int]);
        }
        match result {
            Err(e) => {
                proof {
                    lemma_subst_types_err(orig, i + 1, subs@);
                }
                return Err(e);
            },
            Ok(()) => {},
        }
        proof {
            assert(types@ =~= before.update(i as int, types@[i as int]));
            lemma_types_view_update(before, i as int, types@[i as int]);
            lemma_types_view(types@);
            assert forall|j: int| i + 1 <= j < n implies types_view(types@)[j] == orig[j] by {
                assert(types_view(before).subrange(i as int, n as int)[j - i] == orig.subrange(
                    i as int,
                    n as int,
                )[j - i]);
            }
            assert(types_view(types@).subrange(0, i + 1) =~= subst_types(
                orig.subrange(0, i + 1),
                subs@,
            )->Ok_0);
            assert(types_view(types@).subrange(i + 1, n as int) =~= orig.subrange(
                i + 1,
                n as int,
            ));
        }
        i = i + 1;
    }
    proof {
        assert(orig.subrange(0, n as int) =~= orig);
        assert(types_view(types@).subrange(0, n as int) =~= types_view(types@));
    }
    Ok(())
}

/// Adds `new` to `fields` one after the other, failing on a name already
/// present.
#[verifier::loop_isolation(false)]
fn extend_fields_exec(fields: &mut Vec<(Atom, Type)>, new: Vec<(Atom, Type)>) -> (result: Result<
    (),
    TypeError,
>)
    ensures
        match extend_fields(fields_view(old(fields)@), fields_view(new@)) {
            Ok(f) => result is Ok && fields_view(final(fields)@) == f,
            Err(e) => result == Err::<(), TypeError>(e),
        },
{
    let ghost start = fields_view(fields@);
    let ghost added = fields_view(new@);
    let mut new = new;
    let n = new.len();
    proof {
        lemma_fields_view(new@);
        assert(added.subrange(0, 0) =~= Seq::<(Seq<char>, TypeV)>::empty());
    }
    let mut i: usize = 0;
    while i < n
        invariant
            i <= n,
            n == added.len(),
            fields_view(new@) == added.subrange(i as int, n as int),
            extend_fields(start, added.subrange(0, i as int)) == Ok::<
                Seq<(Seq<char>, TypeV)>,
                TypeError,
            >(fields_view(fields@)),
        decreases n - i,
    {
        let ghost rest = new@;
        proof {
            lemma_fields_view(rest);
        }
        let field = new.remove(0);
        proof {
            let pre = added.subrange(0, i + 1);
            assert(pre.drop_last() =~= added.subrange(0, i as int));
            assert(pre.last() == added[i as int]);
            assert(added[i as int] == fields_view(rest)[0]);
            assert(new@ =~= rest.subrange(1, rest.len() as int));
            lemma_fields_view_subrange(rest, 1, rest.len() as int);
            assert(fields_view(new@) =~= added.subrange(i + 1, n as int));
        }
        proof {
            assert(added[i as int] == (field.0@, type_view(field.1)));
        }
        match find_field(fields, &field.0) {
            Some(_) => {
                proof {
                    let pre = added.subrange(0, i + 1);
                    assert(key_index(fields_view(fields@), pre.last().0) is Some);
                    assert(extend_fields(start, pre) == Err::<Seq<(Seq<char>, TypeV)>, TypeError>(TypeError::Overlap));
                    lemma_extend_fields_err(start, added, i + 1);
                    assert(added.subrange(0, n as int) =~= added);
                }
                return Err(TypeError::Overlap);
            },
            None => {
                let ghost before = fields@;
                fields.push(field);
                proof {
                    assert(fields@.drop_last() =~= before);
                }
            },
        }
        i = i + 1;
    }
    proof {
        assert(added.subrange(0, n as int) =~= added);
    }
    Ok(())
}

// ---------------------------------------------------------------------
// Conversions between record tuples, records and tuples

impl OrderedAnd<(Atom, Type)> {
    /// The record of a record tuple: fields by name (the last field of a
    /// repeated name wins), and the row variable kept.
    pub fn into_keyed(self) -> (keyed: Keyed)
        ensures
            keyed_view(keyed) == into_keyed(ordered_fields_view(self)),
    {
        match self {
            OrderedAnd::NonRow(fields) => Keyed { fields: fields_from_pairs(fields), rest: None },
            OrderedAnd::Row(left, rest, right) => {
                let mut pairs = left;
                let mut right = right;
                let ghost (l, r) = (pairs@, right@);
                pairs.append(&mut right);
                proof {
                    assert(pairs@ == l + r);
                    lemma_fields_view_add(l, r);
                }
                Keyed { fields: fields_from_pairs(pairs), rest: Some(rest) }
            },
        }
    }

    /// The tuple of a record tuple: the names dropped, the row variable kept.
    pub fn into_ordered(self) -> (ordered: OrderedAnd<Type>)
        ensures
            ordered_types_view(ordered) == into_ordered(ordered_fields_view(self)),
    {
        match self {
            OrderedAnd::NonRow(fields) => OrderedAnd::NonRow(drop_names(fields)),
            OrderedAnd::Row(left, rest, right) => OrderedAnd::Row(
                drop_names(left),
                rest,
                drop_names(right),
            ),
        }
    }
}

/// The fields that inserting `pairs` one after the other gives.
#[verifier::loop_isolation(false)]
fn fields_from_pairs(pairs: Vec<(Atom, Type)>) -> (fields: Vec<(Atom, Type)>)
    ensures
        fields_view(fields@) == from_pairs(fields_view(pairs@)),
{
    let ghost all = fields_view(pairs@);
    let mut pairs = pairs;
    let mut fields: Vec<(Atom, Type)> = Vec::new();
    let n = pairs.len();
    proof {
        lemma_fields_view(pairs@);
        assert(all.subrange(0, 0) =~= Seq::<(Seq<char>, TypeV)>::empty());
    }
    let mut i: usize = 0;
    while i < n
        invariant
            i <= n,
            n == all.len(),
            fields_view(pairs@) == all.subrange(i as int, n as int),
            fields_view(fields@) == from_pairs(all.subrange(0, i as int)),
        decreases n - i,
    {
        let ghost rest = pairs@;
        proof {
            lemma_fields_view(rest);
        }
        let pair = pairs.remove(0);
        proof {
            let pre = all.subrange(0, i + 1);
            assert(pre.drop_last() =~= all.subrange(0, i as int));
            assert(pre.last() == all[i as int]);
            assert(all[i as int] == fields_view(rest)[0]);
            assert(pairs@ =~= rest.subrange(1, rest.len() as int));
            lemma_fields_view_subrange(rest, 1, rest.len() as int);
            assert(fields_view(pairs@) =~= all.subrange(i + 1, n as int));
        }
        let ghost before = fields@;
        proof {
            lemma_fields_view(before);
            let pre = all.subrange(0, i + 1);
            assert(from_pairs(pre) == insert_field(from_pairs(all.subrange(0, i as int)), all[i as int]));
            assert(all[i as int] == (pair.0@, type_view(pair.1)));
        }
        match find_field(&fields, &pair.0) {
            Some(k) => {
                let ghost p = pair;
                fields.set(k, pair);
                proof {
                    assert(fields@ == before.update(k as int, p));
                    lemma_fields_view_update(before, k as int, p);
                    lemma_key_index(fields_view(before), p.0@);
                    assert(key_index(fields_view(before), p.0@) == Some(k as nat));
                    assert(p.0@ == all[i as int].0);
                    assert(insert_field(fields_view(before), all[i as int]) == fields_view(
                        before,
                    ).update(k as int, all[i as int]));
                }
            },
            None => {
                let ghost p = pair;
                fields.push(pair);
                proof {
                    assert(fields@.drop_last() =~= before);
                    assert(fields@.last() == p);
                    assert(fields_view(fields@) == fields_view(before).push(all[i as int]));
                    assert(insert_field(fields_view(before), all[i as int]) == fields_view(
                        before,
                    ).push(all[i as int]));
                }
            },
        }
        proof {
            let pre = all.subrange(0, i + 1);
            assert(from_pairs(pre) == insert_field(from_pairs(all.subrange(0, i as int)), all[i as int]));
        }
        i = i + 1;
    }
    proof {
        assert(all.subrange(0, n as int) =~= all);
    }
    fields
}

/// The types of a list of named types.
fn drop_names(fields: Vec<(Atom, Type)>) -> (types: Vec<Type>)
    ensures
        types_view(types@) == field_types(fields_view(fields@)),
{
    let ghost all = fields@;
    let mut fields = fields;
    let mut types: Vec<Type> = Vec::new();
    let n = fields.len();
    let mut i: usize = 0;
    while i < n
        invariant
            i <= n,
            n == all.len(),
            fields@ == all.subrange(i as int, n as int),
            types_view(types@) == field_types(fields_view(all.subrange(0, i as int))),
        decreases n - i,
    {
        let (_, ty) = fields.remove(0);
        let ghost before = types@;
        types.push(ty);
        proof {
            assert(fields@ =~= all.subrange(i + 1, n as int));
            assert(types@.drop_last() =~= before);
            lemma_fields_view(all.subrange(0, i + 1));
            lemma_fields_view(all.subrange(0, i as int));
            lemma_types_view(types@);
            assert(types_view(types@) =~= field_types(fields_view(all.subrange(0, i + 1))));
        }
        i = i + 1;
    }
    proof {
        assert(all.subrange(0, n as int) =~= all);
    }
    types
}

/// The record, or union, a keyed row variable bound to `cons` stands for.
fn keyed_of(kind: KeyedKind, cons: Cons) -> (keyed: Option<Keyed>)
    ensures
        match keyed {
            Some(k) => match_keyed(kind, cons_view(cons)) == Some(keyed_view(k)),
            None => match_keyed(kind, cons_view(cons)) is None,
        },
{
    match (kind, cons) {
        (KeyedKind::Record, Cons::Record(k)) => Some(k),
        (KeyedKind::Record, Cons::RecordTuple(o)) => Some(o.into_keyed()),
        (KeyedKind::Union, Cons::Union(k)) => Some(k),
        _ => None,
    }
}

/// The tuple a tuple row variable bound to `cons` stands for.
fn tuple_of(cons: Cons) -> (tuple: Option<OrderedAnd<Type>>)
    ensures
        match tuple {
            Some(o) => match_tuple(cons_view(cons)) == Some(ordered_types_view(o)),
            None => match_tuple(cons_view(cons)) is None,
        },
{
    match cons {
        Cons::Tuple(o) => Some(o),
        Cons::RecordTuple(o) => Some(o.into_ordered()),
        _ => None,
    }
}

/// The record tuple a record-tuple row variable bound to `cons` stands for.
fn record_tuple_of(cons: Cons) -> (tuple: Option<OrderedAnd<(Atom, Type)>>)
    ensures
        match tuple {
            Some(o) => match_record_tuple(cons_view(cons)) == Some(ordered_fields_view(o)),
            None => match_record_tuple(cons_view(cons)) is None,
        },
{
    match cons {
        Cons::RecordTuple(o) => Some(o),
        _ => None,
    }
}

// ---------------------------------------------------------------------
// Substitution

impl Keyed {
    /// Applies a substitution to the field types, then to the row variable:
    /// a row variable bound to a variable is renamed, one bound to a fitting
    /// constructor contributes its fields (a name already present fails with
    /// `Overlap`) and its row variable.
    pub fn substitute(&mut self, subs: &Subs, kind: KeyedKind) -> (result: Result<(), TypeError>)
        ensures
            match subst_keyed(keyed_view(*old(self)), subs@, kind) {
                Ok(k) => result is Ok && keyed_view(*final(self)) == k,
                Err(e) => result == Err::<(), TypeError>(e),
            },
        decreases size_fields(fields_view(old(self).fields@)) + 1,
    {
        match substitute_fields(&mut self.fields, subs) {
            Err(e) => return Err(e),
            Ok(()) => {},
        }
        let binding = match &self.rest {
            Some(var) => subs.get(var),
            None => None,
        };
        match binding {
            None => Ok(()),
            Some(Type1::Type(Type::Var(new_var))) => {
                self.rest = Some(new_var);
                Ok(())
            },
            Some(Type1::Type(Type::Cons(cons))) => match keyed_of(kind, cons) {
                None => Err(TypeError::MismatchCons),
                Some(new_rest) => {
                    let Keyed { fields: new_fields, rest: new_rest_var } = new_rest;
                    match extend_fields_exec(&mut self.fields, new_fields) {
                        Err(e) => Err(e),
                        Ok(()) => {
                            self.rest = new_rest_var;
                            Ok(())
                        },
                    }
                },
            },
            Some(Type1::MutType(_)) => Err(TypeError::MismatchCons),
        }
    }
}

impl OrderedAnd<Type> {
    /// Applies a substitution to the element types, then to the row
    /// variable: one bound to a variable is renamed, one bound to a tuple (or
    /// a record tuple seen as a tuple) is spliced in.
    pub fn substitute(&mut self, subs: &Subs) -> (result: Result<(), TypeError>)
        ensures
            match subst_ordered_types(ordered_types_view(*old(self)), subs@) {
                Ok(o) => result is Ok && ordered_types_view(*final(self)) == o,
                Err(e) => result == Err::<(), TypeError>(e),
            },
        decreases size_ordered_types(ordered_types_view(*old(self))) + 1,
    {
        let mut spliced: Option<OrderedAnd<Type>> = None;
        match self {
            OrderedAnd::NonRow(types) => {
                return substitute_types(types, subs);
            },
            OrderedAnd::Row(left, rest, right) => {
                match substitute_types(left, subs) {
                    Err(e) => return Err(e),
                    Ok(()) => {},
                }
                match substitute_types(right, subs) {
                    Err(e) => return Err(e),
                    Ok(()) => {},
                }
                match subs.get(rest) {
                    None => {},
                    Some(Type1::Type(Type::Var(new_var))) => {
                        *rest = new_var;
                    },
                    Some(Type1::Type(Type::Cons(cons))) => match tuple_of(cons) {
                        None => return Err(TypeError::MismatchCons),
                        Some(OrderedAnd::Row(more_left, new_rest, more_right)) => {
                            let mut more_left = more_left;
                            let mut more_right = more_right;
                            let ghost (l, ml, r, mr) = (left@, more_left@, right@, more_right@);
                            left.append(&mut more_left);
                            *rest = new_rest;
                            more_right.append(right);
                            *right = more_right;
                            proof {
                                lemma_types_view_add(l, ml);
                                lemma_types_view_add(mr, r);
                            }
                        },
                        Some(OrderedAnd::NonRow(middle)) => {
                            let mut middle = middle;
                            let mut all: Vec<Type> = Vec::new();
                            let ghost (l, m, r) = (left@, middle@, right@);
                            all.append(left);
                            all.append(&mut middle);
                            all.append(right);
                            proof {
                                assert(all@ == l + m + r);
                                lemma_types_view_add(l, m);
                                lemma_types_view_add(l + m, r);
                            }
                            spliced = Some(OrderedAnd::NonRow(all));
                        },
                    },
                    Some(Type1::MutType(_)) => return Err(TypeError::MismatchCons),
                }
            },
        }
        if let Some(tuple) = spliced {
            *self = tuple;
        }
        Ok(())
    }
}

impl OrderedAnd<(Atom, Type)> {
    /// Applies a substitution to the element types, then to the row
    /// variable: one bound to a variable is renamed, one bound to a record
    /// tuple is spliced in.
    pub fn substitute(&mut self, subs: &Subs) -> (result: Result<(), TypeError>)
        ensures
            match subst_ordered_fields(ordered_fields_view(*old(self)), subs@) {
                Ok(o) => result is Ok && ordered_fields_view(*final(self)) == o,
                Err(e) => result == Err::<(), TypeError>(e),
            },
        decreases size_ordered_fields(ordered_fields_view(*old(self))) + 1,
    {
        let mut spliced: Option<OrderedAnd<(Atom, Type)>> = None;
        match self {
            OrderedAnd::NonRow(fields) => {
                return substitute_fields(fields, subs);
            },
            OrderedAnd::Row(left, rest, right) => {
                match substitute_fields(left, subs) {
                    Err(e) => return Err(e),
                    Ok(()) => {},
                }
                match substitute_fields(right, subs) {
                    Err(e) => return Err(e),
                    Ok(()) => {},
                }
                match subs.get(rest) {
                    None => {},
                    Some(Type1::Type(Type::Var(new_var))) => {
                        *rest = new_var;
                    },
                    Some(Type1::Type(Type::Cons(cons))) => match record_tuple_of(cons) {
                        None => return Err(TypeError::MismatchCons),
                        Some(OrderedAnd::Row(more_left, new_rest, more_right)) => {
                            let mut more_left = more_left;
                            let mut more_right = more_right;
                            let ghost (l, ml, r, mr) = (left@, more_left@, right@, more_right@);
                            left.append(&mut more_left);
                            *rest = new_rest;
                            more_right.append(right);
                            *right = more_right;
                            proof {
                                lemma_fields_view_add(l, ml);
                                lemma_fields_view_add(mr, r);
                            }
                        },
                        Some(OrderedAnd::NonRow(middle)) => {
                            let mut middle = middle;
                            let mut all: Vec<(Atom, Type)> = Vec::new();
                            let ghost (l, m, r) = (left@, middle@, right@);
                            all.append(left);
                            all.append(&mut middle);
                            all.append(right);
                            proof {
                                assert(all@ == l + m + r);
                                lemma_fields_view_add(l, m);
                                lemma_fields_view_add(l + m, r);
                            }
                            spliced = Some(OrderedAnd::NonRow(all));
                        },
                    },
                    Some(Type1::MutType(_)) => return Err(TypeError::MismatchCons),
                }
            },
        }
        if let Some(tuple) = spliced {
            *self = tuple;
        }
        Ok(())
    }
}

impl Cons {
    /// Substitution into a record tuple with a row variable, given what the
    /// row variable is bound to.
    #[verifier::rlimit(30)]
    fn substitute_row(&mut self, subs: &Subs, binding: Option<Type1>) -> (result: Result<
        (),
        TypeError,
    >)
        requires
            *old(self) matches Cons::RecordTuple(OrderedAnd::Row(_, rest, _)) && match binding {
                Some(t) => subs@.contains_key(rest@) && t@ == subs@[rest@],
                None => !subs@.contains_key(rest@),
            },
        ensures
            match subst_cons(cons_view(*old(self)), subs@) {
                Ok(c) => result is Ok && cons_view(*final(self)) == c,
                Err(e) => result == Err::<(), TypeError>(e),
            },
        decreases size_cons(cons_view(*old(self))) - 1,
    {
        let fits_record_tuple = match &binding {
            Some(Type1::Type(Type::Var(_))) => true,
            Some(Type1::Type(Type::Cons(Cons::RecordTuple(_)))) => true,
            _ => false,
        };
        let to_record = match &binding {
            Some(Type1::Type(Type::Cons(Cons::Record(_)))) => true,
            _ => false,
        };
        let to_tuple = match &binding {
            Some(Type1::Type(Type::Cons(Cons::Tuple(_)))) => true,
            _ => false,
        };
        if !fits_record_tuple && !to_record && !to_tuple {
            return Err(TypeError::MismatchCons);
        }
        let mut taken = Cons::Num;
        std::mem::swap(&mut taken, self);
        let mut record_tuple = match taken {
            Cons::RecordTuple(o) => o,
            _ => {
                return Ok(());
            },
        };
        let ghost o = ordered_fields_view(record_tuple);
        if fits_record_tuple {
            let result = record_tuple.substitute(subs);
            *self = Cons::RecordTuple(record_tuple);
            result
        } else if to_record {
            let mut keyed = record_tuple.into_keyed();
            proof {
                lemma_size_into_keyed(o);
            }
            let result = keyed.substitute(subs, KeyedKind::Record);
            *self = Cons::Record(keyed);
            result
        } else {
            let mut tuple = record_tuple.into_ordered();
            proof {
                lemma_size_into_ordered(o);
            }
            let result = tuple.substitute(subs);
            *self = Cons::Tuple(tuple);
            result
        }
    }

    /// Applies a substitution to every type the constructor holds (see
    /// `Type::substitute`). A record tuple with a row variable turns into a
    /// record, or a tuple, when its row variable is bound to one; it fails
    /// when the row variable is unbound or bound to anything else.
    #[verifier::rlimit(50)]
    pub fn substitute(&mut self, subs: &Subs) -> (result: Result<(), TypeError>)
        ensures
            match subst_cons(cons_view(*old(self)), subs@) {
                Ok(c) => result is Ok && cons_view(*final(self)) == c,
                Err(e) => result == Err::<(), TypeError>(e),
            },
        decreases size_cons(cons_view(*old(self))),
    {
        if let Cons::RecordTuple(OrderedAnd::Row(_, rest, _)) = &*self {
            let binding = subs.get(rest);
            return self.substitute_row(subs, binding);
        }
        match self {
            Cons::Num | Cons::Bool => Ok(()),
            Cons::Ref(m, t) => {
                match m.substitute(subs) {
                    Err(e) => return Err(e),
                    Ok(()) => {},
                }
                t.substitute(subs)
            },
            Cons::Array(t) => t.substitute(subs),
            Cons::Fun(p, r) => {
                match p.substitute(subs) {
                    Err(e) => return Err(e),
                    Ok(()) => {},
                }
                r.substitute(subs)
            },
            Cons::Record(k) => k.substitute(subs, KeyedKind::Record),
            Cons::Union(k) => k.substitute(subs, KeyedKind::Union),
            Cons::Tuple(o) => o.substitute(subs),
            Cons::RecordTuple(o) => o.substitute(subs),
        }
    }
}

} // verus!
