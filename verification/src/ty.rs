//! Types, substitutions and environments of the type checker.
use crate::assoc::{lemma_map_of, Assoc, Key};
use crate::decimal::{decimal, decimal_string};
use crate::ty::cons::{Cons, Keyed, OrderedAnd};
use crate::ty::unification::{fresh_name, next_id};
use crate::ty::model::{
    subst_mut, subst_type, subst_type1, ConsV, FieldV, KeyedV, KindedVarV, MutTypeV, OrderedAndV,
    Type1V, TypeV, VarV, size_type, size_cons,
};
use vstd::prelude::*;

pub mod cons;
pub mod free;
pub mod infer;
pub mod laws;
pub mod scheme;
pub mod unification;
pub mod unify;
pub mod model;
pub mod print;

verus! {

/// An interned name: a field, a variant, a variable.
pub type Atom = String;

/// What a variable stands for.
#[derive(Debug, PartialEq, Eq, Clone, Copy, Hash, Structural)]
pub enum Kind {
    Type,
    MutType,
}

/// Why typing failed.
#[derive(Debug, PartialEq, Eq, Clone, Copy, Structural)]
pub enum TypeError {
    MismatchCons,
    MismatchKind,
    MismatchArity,
    MismatchName,
    InfiniteOccurrence,
    Overlap,
    UnboundVar,
    AssignedImm,
}

/// A type variable: a name and a number telling apart variables of one name.
#[derive(Debug)]
pub struct Var {
    pub name: Atom,
    pub id: u32,
}

impl View for Var {
    type V = VarV;

    open spec fn view(&self) -> VarV {
        VarV { name: self.name@, id: self.id }
    }
}

impl Clone for Var {
    fn clone(&self) -> (var: Self)
        ensures
            var@ == self@,
    {
        Var { name: self.name.clone(), id: self.id }
    }
}

impl PartialEq for Var {
    fn eq(&self, other: &Self) -> (same: bool) {
        self.name == other.name && self.id == other.id
    }
}

impl vstd::std_specs::cmp::PartialEqSpecImpl for Var {
    open spec fn obeys_eq_spec() -> bool {
        true
    }

    open spec fn eq_spec(&self, other: &Var) -> bool {
        self@ == other@
    }
}

impl Eq for Var {}

impl Key for Var {
    fn same_key(&self, other: &Self) -> (same: bool) {
        self.same(other)
    }
}

impl Var {
    /// A variable of the given name numbered 0, as the environment keys its
    /// bindings.
    pub fn new_bare(name: Atom) -> (var: Self)
        ensures
            var@ == (VarV { name: name@, id: 0 }),
    {
        Self { name, id: 0 }
    }

    /// Whether two variables are the same.
    pub fn same(&self, other: &Var) -> (same: bool)
        ensures
            same == (self@ == other@),
    {
        self.name == other.name && self.id == other.id
    }

    /// How the variable is written: `#` for the fresh variable numbered 0,
    /// the name for a named one numbered 0, else the name, `#` and the
    /// number.
    pub fn display(&self) -> (text: String)
        ensures
            text@ == var_text(self@),
    {
        if self.id == 0 {
            if self.is_fresh_name() {
                let mut text = String::new();
                text.append("#");
                proof {
                    reveal_strlit("#");
                }
                text
            } else {
                self.name.clone()
            }
        } else {
            let mut text = self.name.clone();
            text.append("#");
            text.append(decimal_string(self.id).as_str());
            proof {
                reveal_strlit("#");
                assert(text@ =~= var_text(self@));
            }
            text
        }
    }

    /// Whether the variable has the empty name of fresh variables.
    pub fn is_fresh_name(&self) -> (fresh: bool)
        ensures
            fresh == (self@.name.len() == 0),
    {
        self.name.as_str().is_empty()
    }
}

/// How a variable is written.
pub open spec fn var_text(v: VarV) -> Seq<char> {
    if v.id == 0 {
        if v.name.len() == 0 {
            seq!['#']
        } else {
            v.name
        }
    } else {
        v.name + seq!['#'] + decimal(v.id as nat)
    }
}

/// How a mutability is written.
pub open spec fn mut_text(m: MutTypeV) -> Seq<char> {
    match m {
        MutTypeV::Var(v) => var_text(v),
        MutTypeV::Imm => seq!['i', 'm', 'm'],
        MutTypeV::Mut => seq!['m', 'u', 't'],
    }
}

impl TypeError {
    /// How the error is written.
    pub fn display(&self) -> (text: String)
        ensures
            text@ == seq!['T', 'y', 'p', 'e', 'E', 'r', 'r', 'o', 'r'],
    {
        let text = String::from_str("TypeError");
        proof {
            reveal_strlit("TypeError");
        }
        text
    }
}

/// A variable together with the kind of what it stands for.
#[derive(Debug, PartialEq, Eq)]
pub struct KindedVar {
    kind: Kind,
    var: Var,
}

impl View for KindedVar {
    type V = KindedVarV;

    closed spec fn view(&self) -> KindedVarV {
        KindedVarV { kind: self.kind, var: self.var@ }
    }
}

impl Clone for KindedVar {
    fn clone(&self) -> (kinded: Self)
        ensures
            kinded@ == self@,
    {
        KindedVar { kind: self.kind, var: self.var.clone() }
    }
}

impl KindedVar {
    /// A kinded variable.
    pub fn new(kind: Kind, var: Var) -> (kinded: Self)
        ensures
            kinded@ == (KindedVarV { kind, var: var@ }),
    {
        KindedVar { kind, var }
    }

    /// Whether two kinded variables are the same.
    pub fn same(&self, other: &KindedVar) -> (same: bool)
        ensures
            same == (self@ == other@),
    {
        self.kind == other.kind && self.var.same(&other.var)
    }

    /// The kind.
    pub fn kind(&self) -> (kind: Kind)
        ensures
            kind == self@.kind,
    {
        self.kind
    }

    /// The variable.
    pub fn var(&self) -> (var: &Var)
        ensures
            var@ == self@.var,
    {
        &self.var
    }
}

/// A type: a variable or a constructor applied to types.
#[derive(Debug, PartialEq, Eq)]
pub enum Type {
    Var(Var),
    Cons(Cons),
}

/// A mutability: a variable, immutable or mutable.
#[derive(Debug, PartialEq, Eq)]
pub enum MutType {
    Var(Var),
    Imm,
    Mut,
}

/// What a substitution binds a variable to.
#[derive(Debug, PartialEq, Eq)]
pub enum Type1 {
    Type(Type),
    MutType(MutType),
}

// ---------------------------------------------------------------------
// Views

pub open spec fn type_view(t: Type) -> TypeV
    decreases t,
{
    match t {
        Type::Var(v) => TypeV::Var(v@),
        Type::Cons(c) => TypeV::Cons(cons_view(c)),
    }
}

pub open spec fn mut_view(m: MutType) -> MutTypeV {
    match m {
        MutType::Var(v) => MutTypeV::Var(v@),
        MutType::Imm => MutTypeV::Imm,
        MutType::Mut => MutTypeV::Mut,
    }
}

pub open spec fn cons_view(c: Cons) -> ConsV
    decreases c,
{
    match c {
        Cons::Num => ConsV::Num,
        Cons::Bool => ConsV::Bool,
        Cons::Ref(m, t) => ConsV::Ref(mut_view(m), Box::new(type_view(*t))),
        Cons::Array(t) => ConsV::Array(Box::new(type_view(*t))),
        Cons::Fun(p, r) => ConsV::Fun(Box::new(type_view(*p)), Box::new(type_view(*r))),
        Cons::RecordTuple(o) => ConsV::RecordTuple(ordered_fields_view(o)),
        Cons::Record(k) => ConsV::Record(keyed_view(k)),
        Cons::Tuple(o) => ConsV::Tuple(ordered_types_view(o)),
        Cons::Union(k) => ConsV::Union(keyed_view(k)),
    }
}

pub open spec fn keyed_view(k: Keyed) -> KeyedV
    decreases k,
{
    KeyedV {
        fields: fields_view(k.fields@),
        rest: match k.rest {
            Some(v) => Some(v@),
            None => None,
        },
    }
}

pub open spec fn fields_view(s: Seq<(Atom, Type)>) -> Seq<FieldV>
    decreases s,
{
    if s.len() == 0 {
        Seq::empty()
    } else {
        proof {
            assert(decreases_to!(s => s[s.len() - 1]));
        }
        fields_view(s.drop_last()).push((s[s.len() - 1].0@, type_view(s[s.len() - 1].1)))
    }
}

pub open spec fn types_view(s: Seq<Type>) -> Seq<TypeV>
    decreases s,
{
    if s.len() == 0 {
        Seq::empty()
    } else {
        proof {
            assert(decreases_to!(s => s[s.len() - 1]));
        }
        types_view(s.drop_last()).push(type_view(s[s.len() - 1]))
    }
}

pub open spec fn ordered_types_view(o: OrderedAnd<Type>) -> OrderedAndV<TypeV>
    decreases o,
{
    match o {
        OrderedAnd::NonRow(s) => OrderedAndV::NonRow(types_view(s@)),
        OrderedAnd::Row(l, v, r) => OrderedAndV::Row(types_view(l@), v@, types_view(r@)),
    }
}

pub open spec fn ordered_fields_view(o: OrderedAnd<(Atom, Type)>) -> OrderedAndV<FieldV>
    decreases o,
{
    match o {
        OrderedAnd::NonRow(s) => OrderedAndV::NonRow(fields_view(s@)),
        OrderedAnd::Row(l, v, r) => OrderedAndV::Row(fields_view(l@), v@, fields_view(r@)),
    }
}

impl View for Type {
    type V = TypeV;

    open spec fn view(&self) -> TypeV {
        type_view(*self)
    }
}

impl View for MutType {
    type V = MutTypeV;

    open spec fn view(&self) -> MutTypeV {
        mut_view(*self)
    }
}

impl View for Type1 {
    type V = Type1V;

    open spec fn view(&self) -> Type1V {
        match self {
            Type1::Type(t) => Type1V::Type(t@),
            Type1::MutType(m) => Type1V::MutType(m@),
        }
    }
}

impl Type {
    /// A copy of the type.
    pub fn deep_clone(&self) -> (ty: Type)
        ensures
            ty@ == self@,
        decreases self,
    {
        match self {
            Type::Var(v) => Type::Var(v.clone()),
            Type::Cons(c) => Type::Cons(c.deep_clone()),
        }
    }
}

impl Clone for Type {
    fn clone(&self) -> (ty: Self)
        ensures
            ty@ == self@,
    {
        self.deep_clone()
    }
}

impl Clone for MutType {
    fn clone(&self) -> (m: Self)
        ensures
            m@ == self@,
    {
        match self {
            MutType::Var(v) => MutType::Var(v.clone()),
            MutType::Imm => MutType::Imm,
            MutType::Mut => MutType::Mut,
        }
    }
}

impl Clone for Type1 {
    fn clone(&self) -> (t: Self)
        ensures
            t@ == self@,
    {
        match self {
            Type1::Type(t) => Type1::Type(t.deep_clone()),
            Type1::MutType(m) => Type1::MutType(m.clone()),
        }
    }
}

/// A copy of a list of named types.
pub fn clone_fields(fields: &Vec<(Atom, Type)>) -> (copy: Vec<(Atom, Type)>)
    ensures
        fields_view(copy@) == fields_view(fields@),
    decreases fields@,
{
    let mut copy: Vec<(Atom, Type)> = Vec::with_capacity(fields.len());
    let mut i: usize = 0;
    while i < fields.len()
        invariant
            i <= fields@.len(),
            fields_view(copy@) == fields_view(fields@.subrange(0, i as int)),
        decreases fields@.len() - i,
    {
        let (name, ty) = &fields[i];
        proof {
            assert(decreases_to!(fields@ => fields@[i as int]));
        }
        let field = (name.clone(), ty.deep_clone());
        let ghost before = copy@;
        copy.push(field);
        proof {
            assert(copy@.drop_last() =~= before);
            assert(fields@.subrange(0, i + 1).drop_last() =~= fields@.subrange(0, i as int));
        }
        i = i + 1;
    }
    proof {
        assert(fields@.subrange(0, fields@.len() as int) =~= fields@);
    }
    copy
}

/// A copy of a list of types.
pub fn clone_types(types: &Vec<Type>) -> (copy: Vec<Type>)
    ensures
        types_view(copy@) == types_view(types@),
    decreases types@,
{
    let mut copy: Vec<Type> = Vec::with_capacity(types.len());
    let mut i: usize = 0;
    while i < types.len()
        invariant
            i <= types@.len(),
            types_view(copy@) == types_view(types@.subrange(0, i as int)),
        decreases types@.len() - i,
    {
        proof {
            assert(decreases_to!(types@ => types@[i as int]));
        }
        let ty = types[i].deep_clone();
        let ghost before = copy@;
        copy.push(ty);
        proof {
            assert(copy@.drop_last() =~= before);
            assert(types@.subrange(0, i + 1).drop_last() =~= types@.subrange(0, i as int));
        }
        i = i + 1;
    }
    proof {
        assert(types@.subrange(0, types@.len() as int) =~= types@);
    }
    copy
}

// ---------------------------------------------------------------------
// Substitutions

/// The variables of a list of kinded variables, kinds dropped.
pub open spec fn vars_of(vars: Seq<KindedVar>) -> Set<VarV> {
    Set::new(|v: VarV| exists|j: int| 0 <= j < vars.len() && #[trigger] vars[j]@.var == v)
}

/// The composition of two substitutions: every binding of `first` with
/// `second` applied to it, and the bindings of `second` on top.
pub open spec fn compose_map(first: Map<VarV, Type1V>, second: Map<VarV, Type1V>) -> Map<
    VarV,
    Type1V,
> {
    Map::new(
        |v: VarV| first.contains_key(v) || second.contains_key(v),
        |v: VarV|
            if second.contains_key(v) {
                second[v]
            } else {
                subst_type1(first[v], second)->Ok_0
            },
    )
}

spec fn map_of_contains(entries: Seq<(Var, Type1)>, j: int) -> bool {
    crate::assoc::map_of(entries).contains_key(entries[j].0@)
}

/// A substitution: variables bound to types or mutabilities.
#[derive(Debug)]
pub struct Subs(Assoc<Var, Type1>);

impl View for Subs {
    type V = Map<VarV, Type1V>;

    closed spec fn view(&self) -> Map<VarV, Type1V> {
        self.0@
    }
}

impl Clone for Subs {
    fn clone(&self) -> (copy: Self)
        ensures
            copy@ == self@,
    {
        let n = self.0.len();
        let ghost entries = self.0.entries();
        let mut copy = Subs::new();
        let mut i: usize = 0;
        proof {
            assert(entries.subrange(0, 0) =~= Seq::<(Var, Type1)>::empty());
        }
        while i < n
            invariant
                i <= n,
                n == entries.len(),
                entries == self.0.entries(),
                self@ == crate::assoc::map_of(entries),
                copy@ == crate::assoc::map_of(entries.subrange(0, i as int)),
            decreases n - i,
        {
            let entry = self.0.entry(i);
            copy.insert(entry.0.clone(), entry.1.clone());
            proof {
                assert(entries.subrange(0, i + 1).drop_last() =~= entries.subrange(0, i as int));
            }
            i = i + 1;
        }
        proof {
            assert(entries.subrange(0, n as int) =~= entries);
        }
        copy
    }
}

impl Subs {
    /// The empty substitution.
    pub fn new() -> (subs: Self)
        ensures
            subs@ == Map::<VarV, Type1V>::empty(),
    {
        Subs(Assoc::new())
    }

    /// Whether nothing is bound.
    pub fn is_empty(&self) -> (empty: bool)
        ensures
            empty == (self@ == Map::<VarV, Type1V>::empty()),
    {
        self.0.is_empty()
    }

    /// What `var` is bound to.
    pub fn get(&self, var: &Var) -> (bound: Option<Type1>)
        ensures
            match bound {
                Some(t) => self@.contains_key(var@) && t@ == self@[var@],
                None => !self@.contains_key(var@),
            },
    {
        match self.0.get(var) {
            Some(t) => Some(t.clone()),
            None => None,
        }
    }

    /// Binds `var` to `ty`, replacing what it was bound to.
    pub fn insert(&mut self, var: Var, ty: Type1)
        ensures
            final(self)@ == old(self)@.insert(var@, ty@),
    {
        self.0.insert(var, ty);
    }

    /// Unbinds the variables of `vars` (whatever their kinds).
    pub fn filter_off(&mut self, vars: &Vec<KindedVar>)
        ensures
            final(self)@ == old(self)@.remove_keys(vars_of(vars@)),
    {
        let ghost start = self@;
        let mut i: usize = 0;
        while i < vars.len()
            invariant
                i <= vars@.len(),
                self@ == start.remove_keys(vars_of(vars@.subrange(0, i as int))),
            decreases vars@.len() - i,
        {
            let ghost before = self@;
            self.0.remove(vars[i].var());
            proof {
                let done = vars@.subrange(0, i + 1);
                let prefix = vars@.subrange(0, i as int);
                assert(vars_of(done) =~= vars_of(prefix).insert(vars@[i as int]@.var)) by {
                    assert forall|v: VarV| vars_of(done).contains(v) implies vars_of(prefix).insert(
                        vars@[i as int]@.var,
                    ).contains(v) by {
                        let j = choose|j: int| 0 <= j < done.len() && #[trigger] done[j]@.var == v;
                        if j < i {
                            assert(prefix[j] == done[j]);
                        }
                    }
                    assert forall|v: VarV| vars_of(prefix).insert(vars@[i as int]@.var).contains(
                        v,
                    ) implies vars_of(done).contains(v) by {
                        if v == vars@[i as int]@.var {
                            assert(done[i as int] == vars@[i as int]);
                        } else {
                            let j = choose|j: int| 0 <= j < prefix.len() && #[trigger] prefix[j]@.var == v;
                            assert(prefix[j] == done[j]);
                        }
                    }
                }
                assert(self@ =~= start.remove_keys(vars_of(done)));
            }
            i = i + 1;
        }
        proof {
            assert(vars@.subrange(0, vars@.len() as int) =~= vars@);
        }
    }

    /// Applies `other` to every binding, then adds the bindings of `other`
    /// (which win). Fails when applying `other` to a binding fails.
    pub fn compose_with(&mut self, other: Self) -> (composed: Result<(), TypeError>)
        ensures
            composed is Ok <==> forall|v: VarV|
                #[trigger] old(self)@.contains_key(v) ==> subst_type1(old(self)@[v], other@) is Ok,
            composed is Ok ==> final(self)@ == compose_map(old(self)@, other@),
            composed matches Err(e) ==> exists|v: VarV|
                #[trigger] old(self)@.contains_key(v) && subst_type1(old(self)@[v], other@) == Err::<
                    Type1V,
                    TypeError,
                >(e),
    {
        let ghost start = self@;
        if self.is_empty() {
            proof {
                assert(compose_map(start, other@) =~= other@);
            }
            *self = other;
            return Ok(());
        }
        let n = self.0.len();
        let ghost entries0 = self.0.entries();
        let ghost keys = entries0.map_values(|e: (Var, Type1)| e.0@);
        proof {
            lemma_map_of(entries0);
            assert forall|j: int| 0 <= j < n implies #[trigger] start.contains_key(keys[j]) by {
                assert(keys[j] == entries0[j].0@);
                assert(map_of_contains(entries0, j));
            }
            assert forall|v: VarV| #[trigger] start.contains_key(v) implies exists|j: int|
                0 <= j < n && keys[j] == v by {
                let j = choose|j: int| 0 <= j < entries0.len() && #[trigger] entries0[j].0@ == v;
                assert(keys[j] == entries0[j].0@);
            }
            assert forall|j: int, k: int| 0 <= j < k < n implies keys[j] != keys[k] by {
                assert(keys[j] == entries0[j].0@ && keys[k] == entries0[k].0@);
            }
        }
        let mut i: usize = 0;
        while i < n
            invariant
                i <= n,
                start == old(self)@,
                n == self.0.entries().len(),
                keys.len() == n,
                forall|j: int| 0 <= j < n ==> #[trigger] self.0.entries()[j].0@ == keys[j],
                forall|v: VarV| #[trigger] start.contains_key(v) <==> exists|j: int|
                    0 <= j < n && keys[j] == v,
                forall|j: int, k: int| 0 <= j < k < n ==> keys[j] != keys[k],
                forall|j: int| 0 <= j < n ==> #[trigger] start.contains_key(keys[j]),
                self@.dom() == start.dom(),
                forall|j: int|
                    0 <= j < i ==> subst_type1(start[keys[j]], other@) is Ok && self@[keys[j]]
                        == subst_type1(start[#[trigger] keys[j]], other@)->Ok_0,
                forall|j: int| i <= j < n ==> self@[#[trigger] keys[j]] == start[keys[j]],
            decreases n - i,
        {
            let ghost before = self@;
            proof {
                assert(self.0.entries()[i as int].0@ == keys[i as int]);
            }
            let mut value = self.0.replace_value(i, Type1::MutType(MutType::Imm));
            let result = value.substitute(&other);
            self.0.replace_value(i, value);
            proof {
                assert forall|j: int| 0 <= j < n && j != i implies self@[#[trigger] keys[j]]
                    == before[keys[j]] by {
                    assert(keys[j] != keys[i as int]);
                }
            }
            match result {
                Err(e) => {
                    proof {
                        assert(start.contains_key(keys[i as int]));
                        assert(subst_type1(start[keys[i as int]], other@) == Err::<Type1V, TypeError>(e));
                    }
                    return Err(e);
                },
                Ok(()) => {},
            }
            i = i + 1;
        }
        proof {
            assert forall|v: VarV| #[trigger] start.contains_key(v) implies subst_type1(
                start[v],
                other@,
            ) is Ok by {
                let j = choose|j: int| 0 <= j < n && keys[j] == v;
            }
        }
        let ghost substituted = self@;
        let entries = other.0.into_entries();
        let m = entries.len();
        let mut k: usize = 0;
        while k < m
            invariant
                k <= m,
                m == entries@.len(),
                crate::assoc::distinct_keys(entries@),
                other@ == crate::assoc::map_of(entries@),
                self@ == substituted.union_prefer_right(
                    crate::assoc::map_of(entries@.subrange(0, k as int)),
                ),
            decreases m - k,
        {
            let (var, ty) = (entries[k].0.clone(), entries[k].1.clone());
            self.0.insert(var, ty);
            proof {
                assert(entries@.subrange(0, k + 1).drop_last() =~= entries@.subrange(0, k as int));
                assert(self@ =~= substituted.union_prefer_right(
                    crate::assoc::map_of(entries@.subrange(0, k + 1)),
                ));
            }
            k = k + 1;
        }
        proof {
            assert(entries@.subrange(0, m as int) =~= entries@);
            assert forall|v: VarV| substituted.contains_key(v) implies #[trigger] substituted[v]
                == subst_type1(start[v], other@)->Ok_0 by {
                let j = choose|j: int| 0 <= j < n && keys[j] == v;
            }
            assert(self@ =~= compose_map(start, other@));
        }
        Ok(())
    }
}

// ---------------------------------------------------------------------
// Fresh variables

/// Counters of variable names: the number the next variable of each name
/// gets.
#[derive(Debug)]
pub struct VarState(Assoc<Atom, u32>);

impl View for VarState {
    type V = Map<Seq<char>, u32>;

    closed spec fn view(&self) -> Map<Seq<char>, u32> {
        self.0@
    }
}

impl VarState {
    /// Counters that have given out nothing yet.
    pub fn new() -> (state: Self)
        ensures
            state@ == Map::<Seq<char>, u32>::empty(),
    {
        VarState(Assoc::new())
    }

    /// A variable with the empty name, numbered after the ones given before.
    pub fn new_var(&mut self) -> (var: Var)
        requires
            next_id(old(self)@, fresh_name()) < u32::MAX,
        ensures
            var@ == (VarV { name: fresh_name(), id: next_id(old(self)@, fresh_name()) }),
            final(self)@ == old(self)@.insert(fresh_name(), (var@.id + 1) as u32),
    {
        let name = String::new();
        proof {
            assert(name@ =~= fresh_name());
        }
        self.new_named(name)
    }

    /// A variable called `name`, numbered after the variables of that name
    /// given before (the first gets 1).
    pub fn new_named(&mut self, name: Atom) -> (var: Var)
        requires
            next_id(old(self)@, name@) < u32::MAX,
        ensures
            var@ == (VarV { name: name@, id: next_id(old(self)@, name@) }),
            final(self)@ == old(self)@.insert(name@, (var@.id + 1) as u32),
    {
        let id: u32 = match self.0.get(&name) {
            Some(n) => *n,
            None => 1,
        };
        self.0.insert(name.clone(), id + 1);
        Var { name, id }
    }
}

impl Type {
    /// Applies a substitution to the type, once: a variable bound to a type is
    /// replaced by it (not substituted further). Fails when a type variable is
    /// bound to a mutability, or a row variable to an unfit constructor.
    pub fn substitute(&mut self, subs: &Subs) -> (result: Result<(), TypeError>)
        ensures
            match subst_type(old(self)@, subs@) {
                Ok(t) => result is Ok && final(self)@ == t,
                Err(e) => result == Err::<(), TypeError>(e),
            },
        decreases size_type(old(self)@),
    {
        if let Type::Var(var) = &*self {
            match subs.get(var) {
                Some(Type1::Type(ty)) => {
                    *self = ty;
                    return Ok(());
                },
                Some(Type1::MutType(_)) => {
                    return Err(TypeError::MismatchKind);
                },
                None => {
                    return Ok(());
                },
            }
        }
        match self {
            Type::Cons(cons) => cons.substitute(subs),
            Type::Var(_) => Ok(()),
        }
    }
}

impl MutType {
    /// Applies a substitution to the mutability. Fails when its variable is
    /// bound to a type.
    pub fn substitute(&mut self, subs: &Subs) -> (result: Result<(), TypeError>)
        ensures
            match subst_mut(old(self)@, subs@) {
                Ok(m) => result is Ok && final(self)@ == m,
                Err(e) => result == Err::<(), TypeError>(e),
            },
    {
        if let MutType::Var(var) = &*self {
            match subs.get(var) {
                Some(Type1::MutType(m)) => {
                    *self = m;
                },
                Some(Type1::Type(_)) => {
                    return Err(TypeError::MismatchKind);
                },
                None => {},
            }
        }
        Ok(())
    }
}

impl From<KindedVar> for Type1 {
    /// The variable as a type or a mutability, as its kind says.
    fn from(var: KindedVar) -> (t: Self) {
        match var.kind {
            Kind::Type => Type1::Type(Type::Var(var.var)),
            Kind::MutType => Type1::MutType(MutType::Var(var.var)),
        }
    }
}

impl vstd::std_specs::convert::FromSpecImpl<KindedVar> for Type1 {
    open spec fn obeys_from_spec() -> bool {
        true
    }

    closed spec fn from_spec(var: KindedVar) -> Type1 {
        match var.kind {
            Kind::Type => Type1::Type(Type::Var(var.var)),
            Kind::MutType => Type1::MutType(MutType::Var(var.var)),
        }
    }
}

impl MutType {
    /// How the mutability is written: its variable, `imm` or `mut`.
    pub fn display(&self) -> (text: String)
        ensures
            text@ == mut_text(self@),
    {
        match self {
            MutType::Var(v) => v.display(),
            MutType::Imm => {
                let text = String::from_str("imm");
                proof {
                    reveal_strlit("imm");
                }
                text
            },
            MutType::Mut => {
                let text = String::from_str("mut");
                proof {
                    reveal_strlit("mut");
                }
                text
            },
        }
    }
}

impl Type1 {
    /// Applies a substitution to the type or mutability.
    pub fn substitute(&mut self, subs: &Subs) -> (result: Result<(), TypeError>)
        ensures
            match subst_type1(old(self)@, subs@) {
                Ok(t) => result is Ok && final(self)@ == t,
                Err(e) => result == Err::<(), TypeError>(e),
            },
    {
        match self {
            Type1::Type(t) => t.substitute(subs),
            Type1::MutType(m) => m.substitute(subs),
        }
    }
}

pub proof fn lemma_fields_view(s: Seq<(Atom, Type)>)
    ensures
        fields_view(s).len() == s.len(),
        forall|i: int|
            0 <= i < s.len() ==> #[trigger] fields_view(s)[i] == (s[i].0@, type_view(s[i].1)),
    decreases s.len(),
{
    if s.len() > 0 {
        lemma_fields_view(s.drop_last());
    }
}

pub proof fn lemma_fields_view_update(s: Seq<(Atom, Type)>, i: int, f: (Atom, Type))
    requires
        0 <= i < s.len(),
    ensures
        fields_view(s.update(i, f)) == fields_view(s).update(i, (f.0@, type_view(f.1))),
{
    lemma_fields_view(s);
    lemma_fields_view(s.update(i, f));
    assert(fields_view(s.update(i, f)) =~= fields_view(s).update(i, (f.0@, type_view(f.1))));
}

pub proof fn lemma_fields_view_subrange(s: Seq<(Atom, Type)>, a: int, b: int)
    requires
        0 <= a <= b <= s.len(),
    ensures
        fields_view(s.subrange(a, b)) == fields_view(s).subrange(a, b),
{
    lemma_fields_view(s);
    lemma_fields_view(s.subrange(a, b));
    assert(fields_view(s.subrange(a, b)) =~= fields_view(s).subrange(a, b));
}

pub proof fn lemma_fields_view_add(s: Seq<(Atom, Type)>, t: Seq<(Atom, Type)>)
    ensures
        fields_view(s + t) == fields_view(s) + fields_view(t),
{
    lemma_fields_view(s);
    lemma_fields_view(t);
    lemma_fields_view(s + t);
    assert(fields_view(s + t) =~= fields_view(s) + fields_view(t));
}

pub proof fn lemma_types_view_update(s: Seq<Type>, i: int, t: Type)
    requires
        0 <= i < s.len(),
    ensures
        types_view(s.update(i, t)) == types_view(s).update(i, type_view(t)),
{
    lemma_types_view(s);
    lemma_types_view(s.update(i, t));
    assert(types_view(s.update(i, t)) =~= types_view(s).update(i, type_view(t)));
}

pub proof fn lemma_types_view_subrange(s: Seq<Type>, a: int, b: int)
    requires
        0 <= a <= b <= s.len(),
    ensures
        types_view(s.subrange(a, b)) == types_view(s).subrange(a, b),
{
    lemma_types_view(s);
    lemma_types_view(s.subrange(a, b));
    assert(types_view(s.subrange(a, b)) =~= types_view(s).subrange(a, b));
}

pub proof fn lemma_types_view_add(s: Seq<Type>, t: Seq<Type>)
    ensures
        types_view(s + t) == types_view(s) + types_view(t),
{
    lemma_types_view(s);
    lemma_types_view(t);
    lemma_types_view(s + t);
    assert(types_view(s + t) =~= types_view(s) + types_view(t));
}

pub proof fn lemma_types_view(s: Seq<Type>)
    ensures
        types_view(s).len() == s.len(),
        forall|i: int| 0 <= i < s.len() ==> #[trigger] types_view(s)[i] == type_view(s[i]),
    decreases s.len(),
{
    if s.len() > 0 {
        lemma_types_view(s.drop_last());
    }
}

} // verus!
