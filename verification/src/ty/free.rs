//! Free variables of types, collected without repetition.
use crate::ty::cons::{Cons, Keyed, OrderedAnd};
use crate::ty::model::{
    fv_cons, fv_fields, fv_keyed, fv_mut, fv_ordered_fields, fv_ordered_types, fv_type,
    fv_type1, fv_types, lemma_size_fields_elem, lemma_size_types_elem, mut_kv, size_cons,
    size_fields, size_ordered_fields, size_ordered_types, size_type, size_types, type_kv,
    KindedVarV,
};
use crate::ty::{
    cons_view, fields_view, keyed_view, lemma_fields_view, lemma_types_view,
    ordered_fields_view, ordered_types_view, type_view, types_view, Atom, Kind, KindedVar,
    MutType, Type, Type1, Var,
};
use vstd::prelude::*;

verus! {

/// The kinded variables a list holds.
pub open spec fn kv_set(s: Seq<KindedVar>) -> Set<KindedVarV> {
    Set::new(|k: KindedVarV| exists|j: int| 0 <= j < s.len() && #[trigger] s[j]@ == k)
}

/// No kinded variable occurs twice in the list.
pub open spec fn kv_distinct(s: Seq<KindedVar>) -> bool {
    forall|i: int, j: int| 0 <= i < j < s.len() ==> s[i]@ != s[j]@
}

/// Whether `kv` is among `vars`.
pub fn contains_var(vars: &Vec<KindedVar>, kv: &KindedVar) -> (found: bool)
    ensures
        found == kv_set(vars@).contains(kv@),
{
    let mut i: usize = 0;
    while i < vars.len()
        invariant
            i <= vars@.len(),
            forall|j: int| 0 <= j < i ==> vars@[j]@ != kv@,
        decreases vars@.len() - i,
    {
        if vars[i].same(kv) {
            proof {
                assert(vars@[i as int]@ == kv@);
            }
            return true;
        }
        i = i + 1;
    }
    false
}

/// Adds `kv` to `acc` unless it is there already.
pub fn add_var(acc: &mut Vec<KindedVar>, kv: KindedVar)
    requires
        kv_distinct(old(acc)@),
    ensures
        kv_distinct(final(acc)@),
        kv_set(final(acc)@) == kv_set(old(acc)@).insert(kv@),
{
    if contains_var(acc, &kv) {
        proof {
            assert(kv_set(acc@).insert(kv@) =~= kv_set(acc@));
        }
        return;
    }
    let ghost before = acc@;
    acc.push(kv);
    proof {
        assert forall|k: KindedVarV| kv_set(acc@).contains(k) <==> kv_set(before).insert(
            kv@,
        ).contains(k) by {
            if kv_set(acc@).contains(k) {
                let j = choose|j: int| 0 <= j < acc@.len() && #[trigger] acc@[j]@ == k;
                if j < before.len() {
                    assert(before[j] == acc@[j]);
                }
            }
            if kv_set(before).contains(k) {
                let j = choose|j: int| 0 <= j < before.len() && #[trigger] before[j]@ == k;
                assert(acc@[j] == before[j]);
            }
            if k == kv@ {
                assert(acc@[before.len() as int]@ == k);
            }
        }
        assert(kv_set(acc@) =~= kv_set(before).insert(kv@));
    }
}

/// Adds the variable `var` of kind `kind`.
fn add_kinded(acc: &mut Vec<KindedVar>, kind: Kind, var: &Var)
    requires
        kv_distinct(old(acc)@),
    ensures
        kv_distinct(final(acc)@),
        kv_set(final(acc)@) == kv_set(old(acc)@).insert(KindedVarV { kind, var: var@ }),
{
    add_var(acc, KindedVar::new(kind, var.clone()));
}

fn collect_type(t: &Type, acc: &mut Vec<KindedVar>)
    requires
        kv_distinct(old(acc)@),
    ensures
        kv_distinct(final(acc)@),
        kv_set(final(acc)@) == kv_set(old(acc)@) + fv_type(t@),
    decreases size_type(t@), 0int,
{
    match t {
        Type::Var(v) => {
            add_kinded(acc, Kind::Type, v);
            proof {
                assert(kv_set(old(acc)@).insert(type_kv(v@)) =~= kv_set(old(acc)@) + fv_type(t@));
            }
        },
        Type::Cons(c) => collect_cons(c, acc),
    }
}

fn collect_mut(m: &MutType, acc: &mut Vec<KindedVar>)
    requires
        kv_distinct(old(acc)@),
    ensures
        kv_distinct(final(acc)@),
        kv_set(final(acc)@) == kv_set(old(acc)@) + fv_mut(m@),
{
    match m {
        MutType::Var(v) => {
            add_kinded(acc, Kind::MutType, v);
            proof {
                assert(kv_set(old(acc)@).insert(mut_kv(v@)) =~= kv_set(old(acc)@) + fv_mut(m@));
            }
        },
        _ => {
            proof {
                assert(kv_set(acc@) =~= kv_set(acc@) + fv_mut(m@));
            }
        },
    }
}

fn collect_cons(c: &Cons, acc: &mut Vec<KindedVar>)
    requires
        kv_distinct(old(acc)@),
    ensures
        kv_distinct(final(acc)@),
        kv_set(final(acc)@) == kv_set(old(acc)@) + fv_cons(cons_view(*c)),
    decreases size_cons(cons_view(*c)), 0int,
{
    let ghost start = kv_set(acc@);
    match c {
        Cons::Num | Cons::Bool => {
            proof {
                assert(start =~= start + fv_cons(cons_view(*c)));
            }
        },
        Cons::Ref(m, t) => {
            collect_mut(m, acc);
            collect_type(t, acc);
            proof {
                assert(start + fv_mut(m@) + fv_type(t@) =~= start + fv_cons(cons_view(*c)));
            }
        },
        Cons::Array(t) => collect_type(t, acc),
        Cons::Fun(p, r) => {
            collect_type(p, acc);
            collect_type(r, acc);
            proof {
                assert(start + fv_type(p@) + fv_type(r@) =~= start + fv_cons(cons_view(*c)));
            }
        },
        Cons::Record(k) => collect_keyed(k, acc),
        Cons::Union(k) => collect_keyed(k, acc),
        Cons::Tuple(o) => collect_ordered_types(o, acc),
        Cons::RecordTuple(o) => collect_ordered_fields(o, acc),
    }
}

fn collect_keyed(k: &Keyed, acc: &mut Vec<KindedVar>)
    requires
        kv_distinct(old(acc)@),
    ensures
        kv_distinct(final(acc)@),
        kv_set(final(acc)@) == kv_set(old(acc)@) + fv_keyed(keyed_view(*k)),
    decreases size_fields(fields_view(k.fields@)) + 1, 0int,
{
    let ghost start = kv_set(acc@);
    collect_fields(&k.fields, acc);
    match &k.rest {
        Some(v) => {
            add_kinded(acc, Kind::Type, v);
            proof {
                assert((start + fv_fields(fields_view(k.fields@))).insert(type_kv(v@)) =~= start
                    + fv_keyed(keyed_view(*k)));
            }
        },
        None => {
            proof {
                assert(start + fv_fields(fields_view(k.fields@)) =~= start + fv_keyed(
                    keyed_view(*k),
                ));
            }
        },
    }
}

fn collect_fields(fields: &Vec<(Atom, Type)>, acc: &mut Vec<KindedVar>)
    requires
        kv_distinct(old(acc)@),
    ensures
        kv_distinct(final(acc)@),
        kv_set(final(acc)@) == kv_set(old(acc)@) + fv_fields(fields_view(fields@)),
    decreases size_fields(fields_view(fields@)), 0int,
{
    let ghost start = kv_set(acc@);
    let ghost all = fields_view(fields@);
    proof {
        lemma_fields_view(fields@);
        assert(all.subrange(0, 0) =~= Seq::<(Seq<char>, crate::ty::model::TypeV)>::empty());
        assert(start + fv_fields(all.subrange(0, 0)) =~= start);
    }
    let mut i: usize = 0;
    while i < fields.len()
        invariant
            i <= fields@.len(),
            all == fields_view(fields@),
            all.len() == fields@.len(),
            forall|j: int| 0 <= j < fields@.len() ==> #[trigger] all[j] == (fields@[j].0@, type_view(fields@[j].1)),
            kv_distinct(acc@),
            kv_set(acc@) == start + fv_fields(all.subrange(0, i as int)),
        decreases fields@.len() - i,
    {
        proof {
            lemma_size_fields_elem(all, i as int);
            assert(all[i as int].1 == type_view(fields@[i as int].1));
        }
        let ghost mid = kv_set(acc@);
        collect_type(&fields[i].1, acc);
        proof {
            let pre = all.subrange(0, i + 1);
            assert(pre.drop_last() =~= all.subrange(0, i as int));
            assert(pre[pre.len() - 1] == all[i as int]);
            assert(fv_fields(pre) == fv_fields(all.subrange(0, i as int)) + fv_type(all[i as int].1));
            assert(kv_set(acc@) =~= start + fv_fields(pre));
        }
        i = i + 1;
    }
    proof {
        assert(all.subrange(0, fields@.len() as int) =~= all);
    }
}

fn collect_types(types: &Vec<Type>, acc: &mut Vec<KindedVar>)
    requires
        kv_distinct(old(acc)@),
    ensures
        kv_distinct(final(acc)@),
        kv_set(final(acc)@) == kv_set(old(acc)@) + fv_types(types_view(types@)),
    decreases size_types(types_view(types@)), 0int,
{
    let ghost start = kv_set(acc@);
    let ghost all = types_view(types@);
    proof {
        lemma_types_view(types@);
        assert(all.subrange(0, 0) =~= Seq::<crate::ty::model::TypeV>::empty());
        assert(start + fv_types(all.subrange(0, 0)) =~= start);
    }
    let mut i: usize = 0;
    while i < types.len()
        invariant
            i <= types@.len(),
            all == types_view(types@),
            all.len() == types@.len(),
            forall|j: int| 0 <= j < types@.len() ==> #[trigger] all[j] == type_view(types@[j]),
            kv_distinct(acc@),
            kv_set(acc@) == start + fv_types(all.subrange(0, i as int)),
        decreases types@.len() - i,
    {
        proof {
            lemma_size_types_elem(all, i as int);
            assert(all[i as int] == type_view(types@[i as int]));
        }
        collect_type(&types[i], acc);
        proof {
            let pre = all.subrange(0, i + 1);
            assert(pre.drop_last() =~= all.subrange(0, i as int));
            assert(pre[pre.len() - 1] == all[i as int]);
            assert(fv_types(pre) == fv_types(all.subrange(0, i as int)) + fv_type(all[i as int]));
            assert(kv_set(acc@) =~= start + fv_types(pre));
        }
        i = i + 1;
    }
    proof {
        assert(all.subrange(0, types@.len() as int) =~= all);
    }
}

fn collect_ordered_types(o: &OrderedAnd<Type>, acc: &mut Vec<KindedVar>)
    requires
        kv_distinct(old(acc)@),
    ensures
        kv_distinct(final(acc)@),
        kv_set(final(acc)@) == kv_set(old(acc)@) + fv_ordered_types(ordered_types_view(*o)),
    decreases size_ordered_types(ordered_types_view(*o)) + 1, 0int,
{
    let ghost start = kv_set(acc@);
    match o {
        OrderedAnd::NonRow(s) => collect_types(s, acc),
        OrderedAnd::Row(l, v, r) => {
            collect_types(l, acc);
            add_kinded(acc, Kind::Type, v);
            collect_types(r, acc);
            proof {
                assert((start + fv_types(types_view(l@))).insert(type_kv(v@)) + fv_types(
                    types_view(r@),
                ) =~= start + fv_ordered_types(ordered_types_view(*o)));
            }
        },
    }
}

fn collect_ordered_fields(o: &OrderedAnd<(Atom, Type)>, acc: &mut Vec<KindedVar>)
    requires
        kv_distinct(old(acc)@),
    ensures
        kv_distinct(final(acc)@),
        kv_set(final(acc)@) == kv_set(old(acc)@) + fv_ordered_fields(ordered_fields_view(*o)),
    decreases size_ordered_fields(ordered_fields_view(*o)) + 1, 0int,
{
    let ghost start = kv_set(acc@);
    match o {
        OrderedAnd::NonRow(s) => collect_fields(s, acc),
        OrderedAnd::Row(l, v, r) => {
            collect_fields(l, acc);
            add_kinded(acc, Kind::Type, v);
            collect_fields(r, acc);
            proof {
                assert((start + fv_fields(fields_view(l@))).insert(type_kv(v@)) + fv_fields(
                    fields_view(r@),
                ) =~= start + fv_ordered_fields(ordered_fields_view(*o)));
            }
        },
    }
}

proof fn lemma_empty_kv_set()
    ensures
        kv_set(Seq::<KindedVar>::empty()) == Set::<KindedVarV>::empty(),
        kv_distinct(Seq::<KindedVar>::empty()),
{
    assert(kv_set(Seq::<KindedVar>::empty()) =~= Set::<KindedVarV>::empty());
}

impl Type {
    /// The variables the type holds, each once.
    pub fn free_vars(&self) -> (vars: Vec<KindedVar>)
        ensures
            kv_distinct(vars@),
            kv_set(vars@) == fv_type(self@),
    {
        let mut vars: Vec<KindedVar> = Vec::new();
        proof {
            lemma_empty_kv_set();
        }
        collect_type(self, &mut vars);
        proof {
            assert(Set::<KindedVarV>::empty() + fv_type(self@) =~= fv_type(self@));
        }
        vars
    }
}

impl MutType {
    /// The variable of the mutability, if it is one.
    pub fn free_vars(&self) -> (vars: Vec<KindedVar>)
        ensures
            kv_distinct(vars@),
            kv_set(vars@) == fv_mut(self@),
    {
        let mut vars: Vec<KindedVar> = Vec::new();
        proof {
            lemma_empty_kv_set();
        }
        collect_mut(self, &mut vars);
        proof {
            assert(Set::<KindedVarV>::empty() + fv_mut(self@) =~= fv_mut(self@));
        }
        vars
    }
}

impl Cons {
    /// The variables the constructor holds, each once.
    pub fn free_vars(&self) -> (vars: Vec<KindedVar>)
        ensures
            kv_distinct(vars@),
            kv_set(vars@) == fv_cons(cons_view(*self)),
    {
        let mut vars: Vec<KindedVar> = Vec::new();
        proof {
            lemma_empty_kv_set();
        }
        collect_cons(self, &mut vars);
        proof {
            assert(Set::<KindedVarV>::empty() + fv_cons(cons_view(*self)) =~= fv_cons(
                cons_view(*self),
            ));
        }
        vars
    }
}

impl Keyed {
    /// The variables of the fields and the row variable, each once.
    pub fn free_vars(&self) -> (vars: Vec<KindedVar>)
        ensures
            kv_distinct(vars@),
            kv_set(vars@) == fv_keyed(keyed_view(*self)),
    {
        let mut vars: Vec<KindedVar> = Vec::new();
        proof {
            lemma_empty_kv_set();
        }
        collect_keyed(self, &mut vars);
        proof {
            assert(Set::<KindedVarV>::empty() + fv_keyed(keyed_view(*self)) =~= fv_keyed(
                keyed_view(*self),
            ));
        }
        vars
    }
}

impl OrderedAnd<Type> {
    /// The variables of the elements and the row variable, each once.
    pub fn free_vars(&self) -> (vars: Vec<KindedVar>)
        ensures
            kv_distinct(vars@),
            kv_set(vars@) == fv_ordered_types(ordered_types_view(*self)),
    {
        let mut vars: Vec<KindedVar> = Vec::new();
        proof {
            lemma_empty_kv_set();
        }
        collect_ordered_types(self, &mut vars);
        proof {
            assert(Set::<KindedVarV>::empty() + fv_ordered_types(ordered_types_view(*self))
                =~= fv_ordered_types(ordered_types_view(*self)));
        }
        vars
    }
}

impl OrderedAnd<(Atom, Type)> {
    /// The variables of the fields and the row variable, each once.
    pub fn free_vars(&self) -> (vars: Vec<KindedVar>)
        ensures
            kv_distinct(vars@),
            kv_set(vars@) == fv_ordered_fields(ordered_fields_view(*self)),
    {
        let mut vars: Vec<KindedVar> = Vec::new();
        proof {
            lemma_empty_kv_set();
        }
        collect_ordered_fields(self, &mut vars);
        proof {
            assert(Set::<KindedVarV>::empty() + fv_ordered_fields(ordered_fields_view(*self))
                =~= fv_ordered_fields(ordered_fields_view(*self)));
        }
        vars
    }
}

impl Type1 {
    /// The variables of the type or mutability, each once.
    pub fn free_vars(&self) -> (vars: Vec<KindedVar>)
        ensures
            kv_distinct(vars@),
            kv_set(vars@) == fv_type1(self@),
    {
        match self {
            Type1::Type(t) => t.free_vars(),
            Type1::MutType(m) => m.free_vars(),
        }
    }
}

proof fn lemma_kv_set_push(s: Seq<KindedVar>, i: int)
    requires
        0 <= i < s.len(),
    ensures
        kv_set(s.subrange(0, i + 1)) == kv_set(s.subrange(0, i)).insert(s[i]@),
{
    let prefix = s.subrange(0, i + 1);
    let shorter = s.subrange(0, i);
    assert forall|k: KindedVarV| kv_set(prefix).contains(k) implies kv_set(shorter).insert(
        s[i]@,
    ).contains(k) by {
        let j = choose|j: int| 0 <= j < prefix.len() && #[trigger] prefix[j]@ == k;
        if j < i {
            assert(shorter[j] == prefix[j]);
        }
    }
    assert forall|k: KindedVarV| kv_set(shorter).insert(s[i]@).contains(k) implies kv_set(
        prefix,
    ).contains(k) by {
        if k == s[i]@ {
            assert(prefix[i] == s[i]);
        } else {
            let j = choose|j: int| 0 <= j < shorter.len() && #[trigger] shorter[j]@ == k;
            assert(prefix[j] == shorter[j]);
        }
    }
    assert(kv_set(prefix) =~= kv_set(shorter).insert(s[i]@));
}

/// Adds the variables of `more` to `acc`, each unless it is there already.
pub fn add_all(acc: &mut Vec<KindedVar>, more: &Vec<KindedVar>)
    requires
        kv_distinct(old(acc)@),
    ensures
        kv_distinct(final(acc)@),
        kv_set(final(acc)@) == kv_set(old(acc)@) + kv_set(more@),
{
    let ghost start = kv_set(acc@);
    let mut i: usize = 0;
    proof {
        assert(kv_set(more@.subrange(0, 0)) =~= Set::<KindedVarV>::empty());
        assert(start + kv_set(more@.subrange(0, 0)) =~= start);
    }
    while i < more.len()
        invariant
            i <= more@.len(),
            kv_distinct(acc@),
            kv_set(acc@) == start + kv_set(more@.subrange(0, i as int)),
        decreases more@.len() - i,
    {
        proof {
            lemma_kv_set_push(more@, i as int);
        }
        add_var(acc, more[i].clone());
        proof {
            assert(kv_set(acc@) =~= start + kv_set(more@.subrange(0, i + 1)));
        }
        i = i + 1;
    }
    proof {
        assert(more@.subrange(0, more@.len() as int) =~= more@);
    }
}

/// The variables of `all` that are not among `minus`, each once.
pub fn difference(all: &Vec<KindedVar>, minus: &Vec<KindedVar>) -> (kept: Vec<KindedVar>)
    ensures
        kv_distinct(kept@),
        kv_set(kept@) == kv_set(all@).difference(kv_set(minus@)),
{
    let mut kept: Vec<KindedVar> = Vec::new();
    let mut i: usize = 0;
    proof {
        assert(kv_set(kept@) =~= Set::<KindedVarV>::empty());
        assert(kv_set(all@.subrange(0, 0)) =~= Set::<KindedVarV>::empty());
    }
    while i < all.len()
        invariant
            i <= all@.len(),
            kv_distinct(kept@),
            kv_set(kept@) == kv_set(all@.subrange(0, i as int)).difference(kv_set(minus@)),
        decreases all@.len() - i,
    {
        proof {
            lemma_kv_set_push(all@, i as int);
        }
        if !contains_var(minus, &all[i]) {
            add_var(&mut kept, all[i].clone());
        }
        proof {
            assert(kv_set(kept@) =~= kv_set(all@.subrange(0, i + 1)).difference(kv_set(minus@)));
        }
        i = i + 1;
    }
    proof {
        assert(all@.subrange(0, all@.len() as int) =~= all@);
    }
    kept
}

} // verus!
