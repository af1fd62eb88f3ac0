//! Type schemes, and the environment that binds variables to them.
use crate::assoc::{lemma_map_of, map_of, Assoc};
use crate::ty::free::{add_all, difference, kv_distinct, kv_set};
use crate::ty::model::{fv_type, subst_type, KindedVarV, MutTypeV, Type1V, TypeV, VarV};
use crate::ty::unification::next_id;
use crate::ty::{vars_of, Kind, KindedVar, MutType, Subs, Type, Type1, TypeError, Var, VarState};
use vstd::prelude::*;

verus! {

/// A type with the variables it is general in, and the order in which
/// instantiation renames them.
pub struct SchemeV {
    pub for_all: Set<KindedVarV>,
    pub order: Seq<KindedVarV>,
    pub ty: TypeV,
}

/// A scheme together with whether its variable may be assigned to.
pub struct SchemeMutV {
    pub is_mut: bool,
    pub scheme: SchemeV,
}

/// The free variables of a scheme: those of its type it is not general in.
pub open spec fn scheme_fv(s: SchemeV) -> Set<KindedVarV> {
    fv_type(s.ty).difference(s.for_all)
}

/// The variables a scheme is general in, kinds dropped.
pub open spec fn scheme_vars(s: SchemeV) -> Set<VarV> {
    s.for_all.map(|k: KindedVarV| k.var)
}

/// Substitution into a scheme: its general variables are left alone.
pub open spec fn subst_scheme(s: SchemeV, subs: Map<VarV, Type1V>) -> Result<SchemeV, TypeError> {
    match subst_type(s.ty, subs.remove_keys(scheme_vars(s))) {
        Ok(t) => Ok(SchemeV { for_all: s.for_all, order: s.order, ty: t }),
        Err(e) => Err(e),
    }
}

pub open spec fn subst_scheme_mut(s: SchemeMutV, subs: Map<VarV, Type1V>) -> Result<
    SchemeMutV,
    TypeError,
> {
    match subst_scheme(s.scheme, subs) {
        Ok(t) => Ok(SchemeMutV { is_mut: s.is_mut, scheme: t }),
        Err(e) => Err(e),
    }
}

/// What instantiation binds a general variable to: a variable of the same
/// name and kind, numbered `id`.
pub open spec fn fresh_binding(kv: KindedVarV, id: u32) -> Type1V {
    let fresh = VarV { name: kv.var.name, id };
    match kv.kind {
        Kind::Type => Type1V::Type(TypeV::Var(fresh)),
        Kind::MutType => Type1V::MutType(MutTypeV::Var(fresh)),
    }
}

/// The renaming instantiation builds, one general variable after the other,
/// and the name counters it leaves.
pub open spec fn renaming(for_all: Seq<KindedVarV>, vars: Map<Seq<char>, u32>) -> (Map<
    VarV,
    Type1V,
>, Map<Seq<char>, u32>)
    decreases for_all.len(),
{
    if for_all.len() == 0 {
        (Map::empty(), vars)
    } else {
        let (subs, counters) = renaming(for_all.drop_last(), vars);
        let kv = for_all.last();
        let id = next_id(counters, kv.var.name);
        (
            subs.insert(kv.var, fresh_binding(kv, id)),
            counters.insert(kv.var.name, (id + 1) as u32),
        )
    }
}

/// The free variables of an environment: those of all its schemes.
pub open spec fn env_fv(env: Map<VarV, SchemeMutV>) -> Set<KindedVarV> {
    Set::new(
        |k: KindedVarV|
            exists|v: VarV| env.contains_key(v) && #[trigger] scheme_fv(env[v].scheme).contains(k),
    )
}

/// The kinded variables of a list, in order.
pub open spec fn kv_views(s: Seq<KindedVar>) -> Seq<KindedVarV> {
    s.map_values(|k: KindedVar| k@)
}

/// A type general in some of its variables.
#[derive(Debug, PartialEq, Eq)]
pub struct Scheme {
    pub for_all: Vec<KindedVar>,
    pub ty: Type,
}

impl View for Scheme {
    type V = SchemeV;

    open spec fn view(&self) -> SchemeV {
        SchemeV { for_all: kv_set(self.for_all@), order: kv_views(self.for_all@), ty: self.ty@ }
    }
}

/// A scheme together with whether its variable may be assigned to.
#[derive(Debug, PartialEq, Eq)]
pub struct SchemeMut {
    pub is_mut: bool,
    pub scheme: Scheme,
}

impl View for SchemeMut {
    type V = SchemeMutV;

    open spec fn view(&self) -> SchemeMutV {
        SchemeMutV { is_mut: self.is_mut, scheme: self.scheme@ }
    }
}

/// A copy of a list of kinded variables.
fn clone_vars(vars: &Vec<KindedVar>) -> (copy: Vec<KindedVar>)
    ensures
        copy@.len() == vars@.len(),
        forall|i: int| 0 <= i < vars@.len() ==> #[trigger] copy@[i]@ == vars@[i]@,
        kv_set(copy@) == kv_set(vars@),
        kv_distinct(vars@) ==> kv_distinct(copy@),
{
    let mut copy: Vec<KindedVar> = Vec::new();
    let mut i: usize = 0;
    while i < vars.len()
        invariant
            i <= vars@.len(),
            copy@.len() == i,
            forall|j: int| 0 <= j < i ==> #[trigger] copy@[j]@ == vars@[j]@,
        decreases vars@.len() - i,
    {
        copy.push(vars[i].clone());
        i = i + 1;
    }
    proof {
        assert forall|k: KindedVarV| kv_set(copy@).contains(k) <==> kv_set(vars@).contains(k) by {
            if kv_set(copy@).contains(k) {
                let j = choose|j: int| 0 <= j < copy@.len() && #[trigger] copy@[j]@ == k;
                assert(vars@[j]@ == k);
            }
            if kv_set(vars@).contains(k) {
                let j = choose|j: int| 0 <= j < vars@.len() && #[trigger] vars@[j]@ == k;
                assert(copy@[j]@ == k);
            }
        }
        assert(kv_set(copy@) =~= kv_set(vars@));
    }
    copy
}

/// The variables of a list of kinded variables are those of its set.
proof fn lemma_vars_of(s: Seq<KindedVar>)
    ensures
        vars_of(s) == kv_set(s).map(|k: KindedVarV| k.var),
{
    assert forall|v: VarV| vars_of(s).contains(v) <==> kv_set(s).map(|k: KindedVarV| k.var).contains(
        v,
    ) by {
        if vars_of(s).contains(v) {
            let j = choose|j: int| 0 <= j < s.len() && #[trigger] s[j]@.var == v;
            assert(kv_set(s).contains(s[j]@));
        }
        if kv_set(s).map(|k: KindedVarV| k.var).contains(v) {
            let k = choose|k: KindedVarV| kv_set(s).contains(k) && k.var == v;
            let j = choose|j: int| 0 <= j < s.len() && #[trigger] s[j]@ == k;
            assert(s[j]@.var == v);
        }
    }
    assert(vars_of(s) =~= kv_set(s).map(|k: KindedVarV| k.var));
}

impl Scheme {
    /// A copy of the scheme.
    pub fn deep_clone(&self) -> (copy: Scheme)
        ensures
            copy@ == self@,
            kv_views(copy.for_all@) == kv_views(self.for_all@),
    {
        let for_all = clone_vars(&self.for_all);
        proof {
            assert(kv_views(for_all@) =~= kv_views(self.for_all@));
        }
        Scheme { for_all, ty: self.ty.deep_clone() }
    }

    /// The variables of the type the scheme is not general in, each once.
    pub fn free_vars(&self) -> (vars: Vec<KindedVar>)
        ensures
            kv_distinct(vars@),
            kv_set(vars@) == scheme_fv(self@),
    {
        difference(&self.ty.free_vars(), &self.for_all)
    }

    /// Applies a substitution to the type, leaving the general variables
    /// alone.
    pub fn substitute(&mut self, subs: &Subs) -> (result: Result<(), TypeError>)
        ensures
            final(self).for_all@ == old(self).for_all@,
            match subst_scheme(old(self)@, subs@) {
                Ok(s) => result is Ok && final(self)@ == s,
                Err(e) => result == Err::<(), TypeError>(e),
            },
    {
        let mut subs = subs.clone();
        subs.filter_off(&self.for_all);
        proof {
            lemma_vars_of(self.for_all@);
        }
        self.ty.substitute(&subs)
    }

    /// The type with its general variables renamed to fresh ones of the same
    /// names, drawn from `var_state` in the order of `for_all`.
    pub fn instantiate(self, var_state: &mut VarState) -> (result: Result<Type, TypeError>)
        requires
            forall|n: Seq<char>| #[trigger] next_id(old(var_state)@, n) + self.for_all@.len() < u32::MAX,
        ensures
            final(var_state)@ == renaming(kv_views(self.for_all@), old(var_state)@).1,
            match subst_type(self.ty@, renaming(kv_views(self.for_all@), old(var_state)@).0) {
                Ok(t) => result matches Ok(r) && r@ == t,
                Err(e) => result == Err::<Type, TypeError>(e),
            },
    {
        let ghost start = var_state@;
        let ghost all = kv_views(self.for_all@);
        let mut subs = Subs::new();
        let mut i: usize = 0;
        proof {
            assert(all.subrange(0, 0) =~= Seq::<KindedVarV>::empty());
        }
        while i < self.for_all.len()
            invariant
                i <= self.for_all@.len(),
                start == old(var_state)@,
                all == kv_views(self.for_all@),
                forall|n: Seq<char>| #[trigger] next_id(start, n) + self.for_all@.len() < u32::MAX,
                forall|n: Seq<char>| #[trigger] next_id(var_state@, n) <= next_id(start, n) + i,
                renaming(all.subrange(0, i as int), start) == (subs@, var_state@),
            decreases self.for_all@.len() - i,
        {
            let kv = &self.for_all[i];
            let ghost before = var_state@;
            proof {
                assert(next_id(before, kv@.var.name) <= next_id(start, kv@.var.name) + i);
            }
            let fresh = var_state.new_named(kv.var().name.clone());
            let bound = match kv.kind() {
                Kind::Type => Type1::Type(Type::Var(fresh)),
                Kind::MutType => Type1::MutType(MutType::Var(fresh)),
            };
            subs.insert(kv.var().clone(), bound);
            proof {
                let pre = all.subrange(0, i + 1);
                assert(pre.drop_last() =~= all.subrange(0, i as int));
                assert(pre.last() == kv@);
                assert forall|n: Seq<char>| #[trigger] next_id(var_state@, n) <= next_id(start, n)
                    + i + 1 by {
                    if n != kv@.var.name {
                        assert(next_id(var_state@, n) == next_id(before, n));
                    }
                }
            }
            i = i + 1;
        }
        proof {
            assert(all.subrange(0, self.for_all@.len() as int) =~= all);
        }
        let mut ty = self.ty;
        match ty.substitute(&subs) {
            Ok(()) => Ok(ty),
            Err(e) => Err(e),
        }
    }
}

impl SchemeMut {
    /// A copy.
    pub fn deep_clone(&self) -> (copy: SchemeMut)
        ensures
            copy@ == self@,
    {
        SchemeMut { is_mut: self.is_mut, scheme: self.scheme.deep_clone() }
    }

    /// The free variables of the scheme, each once.
    pub fn free_vars(&self) -> (vars: Vec<KindedVar>)
        ensures
            kv_distinct(vars@),
            kv_set(vars@) == scheme_fv(self@.scheme),
    {
        self.scheme.free_vars()
    }

    /// Applies a substitution to the scheme.
    pub fn substitute(&mut self, subs: &Subs) -> (result: Result<(), TypeError>)
        ensures
            match subst_scheme_mut(old(self)@, subs@) {
                Ok(s) => result is Ok && final(self)@ == s,
                Err(e) => result == Err::<(), TypeError>(e),
            },
    {
        self.scheme.substitute(subs)
    }
}

/// The free variables of the schemes of some entries.
pub open spec fn entries_fv(e: Seq<(Var, SchemeMut)>) -> Set<KindedVarV> {
    Set::new(
        |k: KindedVarV|
            exists|j: int| 0 <= j < e.len() && #[trigger] scheme_fv(e[j].1@.scheme).contains(k),
    )
}

/// The map after inserting `items` one after the other.
pub open spec fn insert_all(m: Map<VarV, SchemeMutV>, items: Seq<(Var, SchemeMut)>) -> Map<
    VarV,
    SchemeMutV,
>
    decreases items.len(),
{
    if items.len() == 0 {
        m
    } else {
        insert_all(m, items.drop_last()).insert(items.last().0@, items.last().1@)
    }
}

/// The schemes of the variables in scope.
#[derive(Debug)]
pub struct Env(Assoc<Var, SchemeMut>);

impl View for Env {
    type V = Map<VarV, SchemeMutV>;

    closed spec fn view(&self) -> Map<VarV, SchemeMutV> {
        self.0@
    }
}

impl Env {
    /// The empty environment.
    pub fn new() -> (env: Self)
        ensures
            env@ == Map::<VarV, SchemeMutV>::empty(),
    {
        Env(Assoc::new())
    }

    /// The scheme of `var`.
    pub fn get_ty(&self, var: Var) -> (scheme: Option<Scheme>)
        ensures
            match scheme {
                Some(s) => self@.contains_key(var@) && s@ == self@[var@].scheme,
                None => !self@.contains_key(var@),
            },
    {
        match self.0.get(&var) {
            Some(s) => Some(s.scheme.deep_clone()),
            None => None,
        }
    }

    /// Whether `var` may be assigned to.
    pub fn get_mut(&self, var: Var) -> (is_mut: Option<bool>)
        ensures
            is_mut == (if self@.contains_key(var@) {
                Some(self@[var@].is_mut)
            } else {
                None
            }),
    {
        match self.0.get(&var) {
            Some(s) => Some(s.is_mut),
            None => None,
        }
    }

    /// Binds `var` to `scheme_mut`, handing back what it was bound to.
    pub fn insert(&mut self, var: Var, scheme_mut: SchemeMut) -> (replaced: Option<SchemeMut>)
        ensures
            final(self)@ == old(self)@.insert(var@, scheme_mut@),
            match replaced {
                Some(s) => old(self)@.contains_key(var@) && s@ == old(self)@[var@],
                None => !old(self)@.contains_key(var@),
            },
    {
        self.0.insert(var, scheme_mut)
    }

    /// Unbinds `var`.
    pub fn remove(&mut self, var: Var)
        ensures
            final(self)@ == old(self)@.remove(var@),
    {
        self.0.remove(&var);
    }

    /// Binds each of `items` in turn.
    pub fn extend(&mut self, items: Vec<(Var, SchemeMut)>)
        ensures
            final(self)@ == insert_all(old(self)@, items@),
    {
        let ghost start = self@;
        let ghost all = items@;
        let mut items = items;
        let n = items.len();
        let mut i: usize = 0;
        proof {
            assert(all.subrange(0, 0) =~= Seq::<(Var, SchemeMut)>::empty());
            assert(all.subrange(0, n as int) =~= all);
        }
        while i < n
            invariant
                i <= n,
                n == all.len(),
                start == old(self)@,
                items@ == all.subrange(i as int, n as int),
                self@ == insert_all(start, all.subrange(0, i as int)),
            decreases n - i,
        {
            let ghost rest = items@;
            let (var, scheme) = items.remove(0);
            proof {
                assert(rest[0] == all[i as int]);
                assert(items@ =~= all.subrange(i + 1, n as int));
                assert(all.subrange(0, i + 1).drop_last() =~= all.subrange(0, i as int));
            }
            self.0.insert(var, scheme);
            i = i + 1;
        }
        proof {
            assert(all.subrange(0, n as int) =~= all);
        }
    }

    /// The free variables of all schemes, each once.
    pub fn free_vars(&self) -> (vars: Vec<KindedVar>)
        ensures
            kv_distinct(vars@),
            kv_set(vars@) == env_fv(self@),
    {
        let n = self.0.len();
        let ghost entries = self.0.entries();
        let mut vars: Vec<KindedVar> = Vec::new();
        let mut i: usize = 0;
        proof {
            assert(kv_set(vars@) =~= entries_fv(entries.subrange(0, 0)));
        }
        while i < n
            invariant
                i <= n,
                n == entries.len(),
                entries == self.0.entries(),
                kv_distinct(vars@),
                kv_set(vars@) == entries_fv(entries.subrange(0, i as int)),
            decreases n - i,
        {
            let entry = self.0.entry(i);
            let more = entry.1.free_vars();
            add_all(&mut vars, &more);
            proof {
                let pre = entries.subrange(0, i + 1);
                let shorter = entries.subrange(0, i as int);
                assert forall|k: KindedVarV| entries_fv(pre).contains(k) <==> entries_fv(
                    shorter,
                ).contains(k) || scheme_fv(entries[i as int].1@.scheme).contains(k) by {
                    if entries_fv(pre).contains(k) {
                        let j = choose|j: int|
                            0 <= j < pre.len() && #[trigger] scheme_fv(pre[j].1@.scheme).contains(k);
                        if j < i {
                            assert(shorter[j] == pre[j]);
                        }
                    }
                    if entries_fv(shorter).contains(k) {
                        let j = choose|j: int|
                            0 <= j < shorter.len() && #[trigger] scheme_fv(
                                shorter[j].1@.scheme,
                            ).contains(k);
                        assert(pre[j] == shorter[j]);
                    }
                    if scheme_fv(entries[i as int].1@.scheme).contains(k) {
                        assert(pre[i as int] == entries[i as int]);
                    }
                }
                assert(kv_set(vars@) =~= entries_fv(pre));
            }
            i = i + 1;
        }
        proof {
            assert(entries.subrange(0, n as int) =~= entries);
            lemma_map_of(entries);
            assert forall|k: KindedVarV| entries_fv(entries).contains(k) <==> env_fv(
                self@,
            ).contains(k) by {
                if entries_fv(entries).contains(k) {
                    let j = choose|j: int|
                        0 <= j < entries.len() && #[trigger] scheme_fv(entries[j].1@.scheme).contains(k);
                    assert(self@.contains_key(entries[j].0@));
                }
                if env_fv(self@).contains(k) {
                    let v = choose|v: VarV|
                        self@.contains_key(v) && #[trigger] scheme_fv(self@[v].scheme).contains(k);
                    let j = choose|j: int| 0 <= j < entries.len() && #[trigger] entries[j].0@ == v;
                    assert(scheme_fv(entries[j].1@.scheme).contains(k));
                }
            }
            assert(entries_fv(entries) =~= env_fv(self@));
        }
        vars
    }

    /// The scheme of `ty` general in the variables the environment does not
    /// hold free.
    pub fn generalize(&self, ty: Type) -> (scheme: Scheme)
        ensures
            kv_distinct(scheme.for_all@),
            scheme@ == (SchemeV {
                for_all: fv_type(ty@).difference(env_fv(self@)),
                order: kv_views(scheme.for_all@),
                ty: ty@,
            }),
    {
        let env_free = self.free_vars();
        let for_all = difference(&ty.free_vars(), &env_free);
        Scheme { for_all, ty }
    }
    /// Applies a substitution to every scheme. Fails when one of them fails.
    pub fn substitute(&mut self, subs: &Subs) -> (result: Result<(), TypeError>)
        ensures
            result is Ok <==> forall|v: VarV|
                #[trigger] old(self)@.contains_key(v) ==> subst_scheme_mut(old(self)@[v], subs@) is Ok,
            result is Ok ==> final(self)@ == old(self)@.map_values(
                |s: SchemeMutV| subst_scheme_mut(s, subs@)->Ok_0,
            ),
            result matches Err(e) ==> exists|v: VarV|
                #[trigger] old(self)@.contains_key(v) && subst_scheme_mut(old(self)@[v], subs@)
                    == Err::<SchemeMutV, TypeError>(e),
    {
        let ghost start = self@;
        let n = self.0.len();
        let ghost entries0 = self.0.entries();
        let ghost keys = entries0.map_values(|e: (Var, SchemeMut)| e.0@);
        proof {
            lemma_map_of(entries0);
            assert forall|j: int| 0 <= j < n implies #[trigger] start.contains_key(keys[j]) by {
                assert(keys[j] == entries0[j].0@);
            }
            assert forall|v: VarV| #[trigger] start.contains_key(v) implies exists|j: int|
                0 <= j < n && keys[j] == v by {
                let j = choose|j: int| 0 <= j < entries0.len() && #[trigger] entries0[j].0@ == v;
                assert(keys[j] == entries0[j].0@);
            }
            assert forall|j: int, k: int| 0 <= j < k < n implies keys[j] != keys[k] by {
                assert(keys[j] == entries0[j].0@ && keys[k] == entries0[k].0@);
            }
        }
        let mut i: usize = 0;
        while i < n
            invariant
                i <= n,
                start == old(self)@,
                n == self.0.entries().len(),
                keys.len() == n,
                forall|j: int| 0 <= j < n ==> #[trigger] self.0.entries()[j].0@ == keys[j],
                forall|v: VarV| #[trigger] start.contains_key(v) <==> exists|j: int|
                    0 <= j < n && keys[j] == v,
                forall|j: int, k: int| 0 <= j < k < n ==> keys[j] != keys[k],
                forall|j: int| 0 <= j < n ==> #[trigger] start.contains_key(keys[j]),
                self@.dom() == start.dom(),
                forall|j: int|
                    0 <= j < i ==> subst_scheme_mut(start[keys[j]], subs@) is Ok && self@[keys[j]]
                        == subst_scheme_mut(start[#[trigger] keys[j]], subs@)->Ok_0,
                forall|j: int| i <= j < n ==> self@[#[trigger] keys[j]] == start[keys[j]],
            decreases n - i,
        {
            let ghost before = self@;
            proof {
                assert(self.0.entries()[i as int].0@ == keys[i as int]);
            }
            let placeholder = SchemeMut {
                is_mut: false,
                scheme: Scheme { for_all: Vec::new(), ty: Type::Cons(crate::ty::cons::Cons::Num) },
            };
            let mut value = self.0.replace_value(i, placeholder);
            let result = value.substitute(subs);
            self.0.replace_value(i, value);
            proof {
                assert forall|j: int| 0 <= j < n && j != i implies self@[#[trigger] keys[j]]
                    == before[keys[j]] by {
                    assert(keys[j] != keys[i as int]);
                }
            }
            match result {
                Err(e) => {
                    proof {
                        assert(start.contains_key(keys[i as int]));
                        assert(subst_scheme_mut(start[keys[i as int]], subs@) == Err::<
                            SchemeMutV,
                            TypeError,
                        >(e));
                    }
                    return Err(e);
                },
                Ok(()) => {},
            }
            i = i + 1;
        }
        proof {
            assert forall|v: VarV| #[trigger] start.contains_key(v) implies subst_scheme_mut(
                start[v],
                subs@,
            ) is Ok by {
                let j = choose|j: int| 0 <= j < n && keys[j] == v;
            }
            assert forall|v: VarV| #[trigger] self@.contains_key(v) implies self@[v]
                == subst_scheme_mut(start[v], subs@)->Ok_0 by {
                let j = choose|j: int| 0 <= j < n && keys[j] == v;
            }
            assert(self@ =~= start.map_values(|s: SchemeMutV| subst_scheme_mut(s, subs@)->Ok_0));
        }
        Ok(())
    }
}

} // verus!
