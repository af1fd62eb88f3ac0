//! Patterns: what a binding, a parameter or a match arm destructures.
use crate::ty::Atom;
use vstd::prelude::*;

verus! {

/// A pattern together with its type annotation.
#[derive(Debug, PartialEq, Eq)]
pub struct Pattern<T> {
    pub pattern: PatternKind<T>,
    pub ty: T,
}

/// The shapes of patterns.
#[derive(Debug, PartialEq, Eq)]
pub enum PatternKind<T> {
    UInt(u64),
    Int(i64),
    Discard,
    True,
    False,
    Var(Var),
    Record(RecordPattern<T>),
    Tuple(ListPattern<T>),
    Param(Vec<TypedVar<T>>),
    Array(ListPattern<T>),
    Tag(TaggedPattern<T>),
    Ref(Box<Pattern<T>>),
}

/// A variable bound by a pattern.
#[derive(Debug, PartialEq, Eq, Clone)]
pub struct Var {
    pub ident: Atom,
    pub mutable: bool,
    pub bind_to_ref: bool,
}

/// A variable with its type annotation.
#[derive(Debug, PartialEq, Eq, Clone)]
pub struct TypedVar<T> {
    pub var: Var,
    pub ty: T,
}

/// The elements of a tuple or array pattern, possibly with a rest pattern
/// between a left and a right part.
#[derive(Debug, PartialEq, Eq)]
pub enum ListPattern<T> {
    List(Vec<Pattern<T>>),
    ListWithRest(ListWithRest<T>),
}

/// A list pattern with a rest pattern.
#[derive(Debug, PartialEq, Eq)]
pub struct ListWithRest<T> {
    pub left: Vec<Pattern<T>>,
    pub rest: Box<Pattern<T>>,
    pub right: Vec<Pattern<T>>,
}

/// A record pattern: fields by name, possibly a pattern for the rest.
#[derive(Debug, PartialEq, Eq)]
pub struct RecordPattern<T> {
    pub fields: Vec<(Atom, Pattern<T>)>,
    pub rest: Option<Box<Pattern<T>>>,
}

/// A pattern of a tagged value: the tag and, possibly, a pattern of its
/// payload.
#[derive(Debug, PartialEq, Eq)]
pub struct TaggedPattern<T> {
    pub tag: Atom,
    pub pattern: Option<Box<Pattern<T>>>,
}

/// The name a pattern gives a record field it stands for: that of a plain
/// variable.
pub open spec fn pattern_field_name<T>(p: PatternKind<T>) -> Option<Seq<char>> {
    match p {
        PatternKind::Var(v) => Some(v.ident@),
        _ => None,
    }
}

impl<T> PatternKind<T> {
    /// The field name the pattern stands for, when it is a variable.
    pub fn field_name(&self) -> (name: Option<Atom>)
        ensures
            match name {
                Some(n) => pattern_field_name(*self) == Some(n@),
                None => pattern_field_name(*self) is None,
            },
    {
        match self {
            PatternKind::Var(var) => Some(var.ident.clone()),
            _ => None,
        }
    }
}

impl<T> Pattern<T> {
    /// The field name the pattern stands for, when it is a variable.
    pub fn field_name(&self) -> (name: Option<Atom>)
        ensures
            match name {
                Some(n) => pattern_field_name(self.pattern) == Some(n@),
                None => pattern_field_name(self.pattern) is None,
            },
    {
        self.pattern.field_name()
    }
}

impl PatternKind<()> {
    /// The pattern without a type annotation.
    pub fn into_untyped(self) -> (pattern: Pattern<()>)
        ensures
            pattern == (Pattern { pattern: self, ty: () }),
    {
        Pattern { pattern: self, ty: () }
    }
}

/// How a variable of a pattern is written.
pub open spec fn var_text(v: Var) -> Seq<char> {
    (if v.mutable {
        seq!['m', 'u', 't', ' ']
    } else {
        Seq::empty()
    }) + (if v.bind_to_ref {
        seq!['&', '<']
    } else {
        Seq::empty()
    }) + v.ident@
}

impl Var {
    /// The variable without a type annotation.
    pub fn into_untyped(self) -> (var: TypedVar<()>)
        ensures
            var == (TypedVar { var: self, ty: () }),
    {
        TypedVar { var: self, ty: () }
    }

    /// How the variable is written: `mut ` when mutable, `&<` when it binds
    /// to a reference, then the name.
    pub fn display(&self) -> (text: String)
        ensures
            text@ == var_text(*self),
    {
        let mut text = String::new();
        if self.mutable {
            text.append("mut ");
            proof {
                reveal_strlit("mut ");
            }
        }
        if self.bind_to_ref {
            text.append("&<");
            proof {
                reveal_strlit("&<");
            }
        }
        text.append(self.ident.as_str());
        proof {
            assert(text@ =~= var_text(*self));
        }
        text
    }
}

// The model: patterns with names as character sequences.

/// A variable a pattern binds.
pub struct BindingV {
    pub ident: Seq<char>,
    pub mutable: bool,
    pub bind_to_ref: bool,
}

pub enum PatternV {
    UInt(u64),
    Int(i64),
    Discard,
    True,
    False,
    Var(BindingV),
    Record(Seq<(Seq<char>, PatternV)>, Option<Box<PatternV>>),
    Tuple(ListPatternV),
    Param(Seq<BindingV>),
    Array(ListPatternV),
    Tag(Seq<char>, Option<Box<PatternV>>),
    Ref(Box<PatternV>),
}

pub enum ListPatternV {
    List(Seq<PatternV>),
    WithRest(Seq<PatternV>, Box<PatternV>, Seq<PatternV>),
}

pub open spec fn binding_view(v: Var) -> BindingV {
    BindingV { ident: v.ident@, mutable: v.mutable, bind_to_ref: v.bind_to_ref }
}

pub open spec fn pattern_view<T>(p: Pattern<T>) -> PatternV
    decreases p,
{
    pattern_kind_view(p.pattern)
}

pub open spec fn pattern_kind_view<T>(k: PatternKind<T>) -> PatternV
    decreases k,
{
    match k {
        PatternKind::UInt(n) => PatternV::UInt(n),
        PatternKind::Int(n) => PatternV::Int(n),
        PatternKind::Discard => PatternV::Discard,
        PatternKind::True => PatternV::True,
        PatternKind::False => PatternV::False,
        PatternKind::Var(v) => PatternV::Var(binding_view(v)),
        PatternKind::Record(r) => PatternV::Record(
            pattern_fields_view(r.fields@),
            pattern_opt_view(r.rest),
        ),
        PatternKind::Tuple(l) => PatternV::Tuple(list_pattern_view(l)),
        PatternKind::Param(vars) => PatternV::Param(typed_vars_view(vars@)),
        PatternKind::Array(l) => PatternV::Array(list_pattern_view(l)),
        PatternKind::Tag(t) => PatternV::Tag(t.tag@, pattern_opt_view(t.pattern)),
        PatternKind::Ref(b) => PatternV::Ref(Box::new(pattern_view(*b))),
    }
}

pub open spec fn pattern_opt_view<T>(p: Option<Box<Pattern<T>>>) -> Option<Box<PatternV>>
    decreases p,
{
    match p {
        Some(b) => Some(Box::new(pattern_view(*b))),
        None => None,
    }
}

pub open spec fn typed_vars_view<T>(s: Seq<TypedVar<T>>) -> Seq<BindingV> {
    s.map_values(|v: TypedVar<T>| binding_view(v.var))
}

pub open spec fn patterns_view<T>(s: Seq<Pattern<T>>) -> Seq<PatternV>
    decreases s,
{
    if s.len() == 0 {
        Seq::empty()
    } else {
        proof {
            assert(decreases_to!(s => s[s.len() - 1]));
        }
        patterns_view(s.drop_last()).push(pattern_view(s[s.len() - 1]))
    }
}

pub open spec fn pattern_fields_view<T>(s: Seq<(Atom, Pattern<T>)>) -> Seq<(Seq<char>, PatternV)>
    decreases s,
{
    if s.len() == 0 {
        Seq::empty()
    } else {
        proof {
            assert(decreases_to!(s => s[s.len() - 1]));
        }
        pattern_fields_view(s.drop_last()).push(
            (s[s.len() - 1].0@, pattern_view(s[s.len() - 1].1)),
        )
    }
}

pub open spec fn list_pattern_view<T>(l: ListPattern<T>) -> ListPatternV
    decreases l,
{
    match l {
        ListPattern::List(items) => ListPatternV::List(patterns_view(items@)),
        ListPattern::ListWithRest(w) => ListPatternV::WithRest(
            patterns_view(w.left@),
            Box::new(pattern_view(*w.rest)),
            patterns_view(w.right@),
        ),
    }
}

impl<T> View for Pattern<T> {
    type V = PatternV;

    open spec fn view(&self) -> PatternV {
        pattern_view(*self)
    }
}

/// The name a field of a record pattern takes when none is written: that of
/// the variable the pattern binds.
pub open spec fn pattern_v_field_name(p: PatternV) -> Option<Seq<char>> {
    match p {
        PatternV::Var(b) => Some(b.ident),
        _ => None,
    }
}

/// The view of a list with one more pattern.
pub proof fn lemma_patterns_push<T>(s: Seq<Pattern<T>>, p: Pattern<T>)
    ensures
        patterns_view(s.push(p)) == patterns_view(s).push(pattern_view(p)),
{
    assert(s.push(p).drop_last() =~= s);
}

/// The view of a list with one more field pattern.
pub proof fn lemma_pattern_fields_push<T>(s: Seq<(Atom, Pattern<T>)>, f: (Atom, Pattern<T>))
    ensures
        pattern_fields_view(s.push(f)) == pattern_fields_view(s).push((f.0@, pattern_view(f.1))),
{
    assert(s.push(f).drop_last() =~= s);
}

/// The field name a pattern gives agrees with its model.
pub proof fn lemma_pattern_field_name<T>(p: Pattern<T>)
    ensures
        pattern_field_name(p.pattern) == pattern_v_field_name(pattern_view(p)),
{
}

} // verus!
