//! Expressions of the language, as the parser builds them and the type
//! checker annotates them, with their mathematical model.
use crate::operator::{all_unique, BinaryType, BoundType, ElementKind, UnaryType};
use crate::pattern::{pattern_view, Pattern, PatternV};
use crate::ty::Atom;
use vstd::prelude::*;

verus! {

/// A literal value. A float literal is kept as the decimal text
/// `0<whole>.<fraction>0e<sign>0<exponent>` (no `_`), which reads as the
/// float it spells.
#[derive(Debug, PartialEq)]
pub enum Literal {
    UInt(u64),
    Float(String),
    True,
    False,
}

/// An expression together with its type annotation.
#[derive(Debug, PartialEq)]
pub struct Expr<T> {
    pub expr: ExprKind<T>,
    pub ty: T,
}

/// The shapes of expressions.
#[derive(Debug, PartialEq)]
pub enum ExprKind<T> {
    Literal(Literal),
    Tag(Tag<T>),
    Assign(Vec<Assign<T>>),
    Array(Vec<Element<T>>),
    ArrayRange(Range<T>),
    Unit,
    Splat(Box<Expr<T>>),
    Record(Collection<Field<T>, T>),
    Tuple(Collection<Expr<T>, T>),
    Unary(Unary<T>),
    Binary(Binary<T>),
    Place(PlaceExpr<T>),
    Call(Call<T>),
    ControlFlow(ControlFlow<T>),
    Fun(Fun<T>),
    Jump(Jump<T>),
}

/// Expressions that stand for a place that can be assigned to.
#[derive(Debug, PartialEq)]
pub enum PlaceExpr<T> {
    Var(Atom),
    FieldAccess(FieldAccess<T>),
    Index(Index<T>),
    Slice(Slice<T>),
    Deref(Box<Expr<T>>),
    Len(Box<Expr<T>>),
}

/// A function value: a parameter pattern and a body.
#[derive(Debug, PartialEq)]
pub struct Fun<T> {
    pub param: Pattern<T>,
    pub body: Box<Expr<T>>,
}

/// Blocks, conditionals, loops and matches.
#[derive(Debug, PartialEq)]
pub enum ControlFlow<T> {
    Block(Block<T>),
    If(If<T>),
    For(For<T>),
    While(While<T>),
    Loop(Block<T>),
    Match(Match<T>),
}

/// Statements, then optionally the expression whose value the block has.
#[derive(Debug, PartialEq)]
pub struct Block<T> {
    pub statement: Vec<Statement<T>>,
    pub expr: Option<Box<Expr<T>>>,
}

/// `if condition { .. } else ..`.
#[derive(Debug, PartialEq)]
pub struct If<T> {
    pub condition: Box<Expr<T>>,
    pub body: Block<T>,
    pub else_part: Option<Box<ControlFlow<T>>>,
}

/// `for pattern in expr { .. }`.
#[derive(Debug, PartialEq)]
pub struct For<T> {
    pub pattern: Pattern<T>,
    pub expr: Box<Expr<T>>,
    pub body: Block<T>,
}

/// `while condition { .. }`.
#[derive(Debug, PartialEq)]
pub struct While<T> {
    pub condition: Box<Expr<T>>,
    pub body: Block<T>,
}

/// `match expr { pattern => expr, .. }`.
#[derive(Debug, PartialEq)]
pub struct Match<T> {
    pub expr: Box<Expr<T>>,
    pub arm: Vec<MatchArm<T>>,
}

/// An arm of a match.
#[derive(Debug, PartialEq)]
pub struct MatchArm<T> {
    pub pattern: Pattern<T>,
    pub expr: Expr<T>,
}

/// A statement: a declaration, a function declaration or an expression.
#[derive(Debug, PartialEq)]
pub enum Statement<T> {
    Declare(Declare<T>),
    FunDeclare(FunDeclare<T>),
    Expr(Expr<T>),
}

/// `pattern = expr;`.
#[derive(Debug, PartialEq)]
pub struct Declare<T> {
    pub pattern: Pattern<T>,
    pub expr: Expr<T>,
}

/// `name(params) => body`.
#[derive(Debug, PartialEq)]
pub struct FunDeclare<T> {
    pub ident: Atom,
    pub fun: Fun<T>,
    pub ty: T,
}

/// `break`, `continue` and `return`.
#[derive(Debug, PartialEq)]
pub enum Jump<T> {
    Break(Option<Box<Expr<T>>>),
    Continue,
    Return(Option<Box<Expr<T>>>),
}

/// A prefix operator applied to an expression.
#[derive(Debug, PartialEq)]
pub struct Unary<T> {
    pub kind: UnaryType,
    pub expr: Box<Expr<T>>,
}

/// An infix operator applied to two expressions.
#[derive(Debug, PartialEq)]
pub struct Binary<T> {
    pub kind: BinaryType,
    pub left: Box<Expr<T>>,
    pub right: Box<Expr<T>>,
}

/// `expr[index]`.
#[derive(Debug, PartialEq)]
pub struct Index<T> {
    pub expr: Box<Expr<T>>,
    pub index: Box<Expr<T>>,
}

/// An element of an array literal: one value, or a spread collection.
#[derive(Debug, PartialEq)]
pub struct Element<T> {
    pub expr: Expr<T>,
    pub kind: ElementKind,
}

/// The items of a tuple or record, possibly with a splat between a left and
/// a right part.
#[derive(Debug, PartialEq)]
pub enum Collection<A, T> {
    Collection(Vec<A>),
    WithSplat(WithSplat<A, T>),
}

/// Items around a splat.
#[derive(Debug, PartialEq)]
pub struct WithSplat<A, T> {
    pub left: Vec<A>,
    pub splat: Box<Expr<T>>,
    pub right: Vec<A>,
}

/// A named field of a record.
#[derive(Debug, PartialEq)]
pub struct Field<T> {
    pub name: Atom,
    pub expr: Expr<T>,
}

/// `place <- expr`.
#[derive(Debug, PartialEq)]
pub struct Assign<T> {
    pub place: PlaceExpr<T>,
    pub expr: Expr<T>,
}

/// `expr.name`.
#[derive(Debug, PartialEq)]
pub struct FieldAccess<T> {
    pub expr: Box<Expr<T>>,
    pub name: Atom,
}

/// `expr[range]`.
#[derive(Debug, PartialEq)]
pub struct Slice<T> {
    pub expr: Box<Expr<T>>,
    pub range: Range<T>,
}

/// A call of a function value with its argument.
#[derive(Debug, PartialEq)]
pub struct Call<T> {
    pub expr: Box<Expr<T>>,
    pub arg: Arg<T>,
}

/// The argument of a call.
#[derive(Debug, PartialEq)]
pub enum Arg<T> {
    Unit,
    Splat(Box<Expr<T>>),
    Record(Collection<Field<T>, T>),
    Tuple(Collection<Expr<T>, T>),
}

/// `@tag` with an optional payload.
#[derive(Debug, PartialEq)]
pub struct Tag<T> {
    pub tag: Atom,
    pub expr: Option<Box<Expr<T>>>,
}

/// One end of a range.
#[derive(Debug, PartialEq)]
pub struct Bound<T> {
    pub kind: BoundType,
    pub expr: Box<Expr<T>>,
}

/// A range with optional ends.
#[derive(Debug, PartialEq)]
pub struct Range<T> {
    pub left: Option<Bound<T>>,
    pub right: Option<Bound<T>>,
}

// The model: expressions with names as character sequences.

pub enum LiteralV {
    UInt(u64),
    Float(Seq<char>),
    True,
    False,
}

pub enum ExprV {
    Literal(LiteralV),
    Tag(Seq<char>, Option<Box<ExprV>>),
    Assign(Seq<(PlaceV, ExprV)>),
    Array(Seq<(ExprV, ElementKind)>),
    ArrayRange(RangeV),
    Unit,
    Splat(Box<ExprV>),
    Record(CollectionV<(Seq<char>, ExprV)>),
    Tuple(CollectionV<ExprV>),
    Unary(UnaryType, Box<ExprV>),
    Binary(BinaryType, Box<ExprV>, Box<ExprV>),
    Place(PlaceV),
    Call(Box<ExprV>, ArgV),
    ControlFlow(ControlFlowV),
    Fun(PatternV, Box<ExprV>),
    Jump(JumpV),
}

pub enum ControlFlowV {
    Block(BlockV),
    If(Box<ExprV>, BlockV, Option<Box<ControlFlowV>>),
    For(PatternV, Box<ExprV>, BlockV),
    While(Box<ExprV>, BlockV),
    Loop(BlockV),
    Match(Box<ExprV>, Seq<(PatternV, ExprV)>),
}

pub struct BlockV {
    pub statements: Seq<StatementV>,
    pub expr: Option<Box<ExprV>>,
}

pub enum StatementV {
    Declare(PatternV, ExprV),
    FunDeclare(Seq<char>, PatternV, ExprV),
    Expr(ExprV),
}

pub enum PlaceV {
    Var(Seq<char>),
    FieldAccess(Box<ExprV>, Seq<char>),
    Index(Box<ExprV>, Box<ExprV>),
    Slice(Box<ExprV>, RangeV),
    Deref(Box<ExprV>),
    Len(Box<ExprV>),
}

pub enum JumpV {
    Break(Option<Box<ExprV>>),
    Continue,
    Return(Option<Box<ExprV>>),
}

pub enum CollectionV<A> {
    Collection(Seq<A>),
    WithSplat(Seq<A>, Box<ExprV>, Seq<A>),
}

pub enum ArgV {
    Unit,
    Splat(Box<ExprV>),
    Record(CollectionV<(Seq<char>, ExprV)>),
    Tuple(CollectionV<ExprV>),
}

pub struct RangeV {
    pub left: Option<(BoundType, Box<ExprV>)>,
    pub right: Option<(BoundType, Box<ExprV>)>,
}

pub open spec fn literal_view(l: Literal) -> LiteralV {
    match l {
        Literal::UInt(n) => LiteralV::UInt(n),
        Literal::Float(text) => LiteralV::Float(text@),
        Literal::True => LiteralV::True,
        Literal::False => LiteralV::False,
    }
}

pub open spec fn expr_view<T>(e: Expr<T>) -> ExprV
    decreases e,
{
    kind_view(e.expr)
}

pub open spec fn kind_view<T>(k: ExprKind<T>) -> ExprV
    decreases k,
{
    match k {
        ExprKind::Literal(l) => ExprV::Literal(literal_view(l)),
        ExprKind::Tag(t) => ExprV::Tag(t.tag@, opt_view(t.expr)),
        ExprKind::Assign(a) => ExprV::Assign(assigns_view(a@)),
        ExprKind::Array(a) => ExprV::Array(elements_view(a@)),
        ExprKind::ArrayRange(r) => ExprV::ArrayRange(range_view(r)),
        ExprKind::Unit => ExprV::Unit,
        ExprKind::Splat(e) => ExprV::Splat(Box::new(expr_view(*e))),
        ExprKind::Record(c) => ExprV::Record(field_coll_view(c)),
        ExprKind::Tuple(c) => ExprV::Tuple(expr_coll_view(c)),
        ExprKind::Unary(u) => ExprV::Unary(u.kind, Box::new(expr_view(*u.expr))),
        ExprKind::Binary(b) => ExprV::Binary(
            b.kind,
            Box::new(expr_view(*b.left)),
            Box::new(expr_view(*b.right)),
        ),
        ExprKind::Place(p) => ExprV::Place(place_view(p)),
        ExprKind::Call(c) => ExprV::Call(Box::new(expr_view(*c.expr)), arg_view(c.arg)),
        ExprKind::ControlFlow(c) => ExprV::ControlFlow(control_flow_view(c)),
        ExprKind::Fun(f) => ExprV::Fun(pattern_view(f.param), Box::new(expr_view(*f.body))),
        ExprKind::Jump(j) => ExprV::Jump(jump_view(j)),
    }
}

pub open spec fn control_flow_view<T>(c: ControlFlow<T>) -> ControlFlowV
    decreases c,
{
    match c {
        ControlFlow::Block(b) => ControlFlowV::Block(block_view(b)),
        ControlFlow::If(i) => ControlFlowV::If(
            Box::new(expr_view(*i.condition)),
            block_view(i.body),
            match i.else_part {
                Some(e) => Some(Box::new(control_flow_view(*e))),
                None => None,
            },
        ),
        ControlFlow::For(f) => ControlFlowV::For(
            pattern_view(f.pattern),
            Box::new(expr_view(*f.expr)),
            block_view(f.body),
        ),
        ControlFlow::While(w) => ControlFlowV::While(
            Box::new(expr_view(*w.condition)),
            block_view(w.body),
        ),
        ControlFlow::Loop(b) => ControlFlowV::Loop(block_view(b)),
        ControlFlow::Match(m) => ControlFlowV::Match(Box::new(expr_view(*m.expr)), arms_view(m.arm@)),
    }
}

pub open spec fn block_view<T>(b: Block<T>) -> BlockV
    decreases b,
{
    BlockV { statements: statements_view(b.statement@), expr: opt_view(b.expr) }
}

pub open spec fn statement_view<T>(s: Statement<T>) -> StatementV
    decreases s,
{
    match s {
        Statement::Declare(d) => StatementV::Declare(pattern_view(d.pattern), expr_view(d.expr)),
        Statement::FunDeclare(f) => StatementV::FunDeclare(
            f.ident@,
            pattern_view(f.fun.param),
            expr_view(*f.fun.body),
        ),
        Statement::Expr(e) => StatementV::Expr(expr_view(e)),
    }
}

pub open spec fn statements_view<T>(s: Seq<Statement<T>>) -> Seq<StatementV>
    decreases s,
{
    if s.len() == 0 {
        Seq::empty()
    } else {
        proof {
            assert(decreases_to!(s => s[s.len() - 1]));
        }
        statements_view(s.drop_last()).push(statement_view(s[s.len() - 1]))
    }
}

pub open spec fn arms_view<T>(s: Seq<MatchArm<T>>) -> Seq<(PatternV, ExprV)>
    decreases s,
{
    if s.len() == 0 {
        Seq::empty()
    } else {
        proof {
            assert(decreases_to!(s => s[s.len() - 1]));
        }
        arms_view(s.drop_last()).push(
            (pattern_view(s[s.len() - 1].pattern), expr_view(s[s.len() - 1].expr)),
        )
    }
}

pub open spec fn opt_view<T>(e: Option<Box<Expr<T>>>) -> Option<Box<ExprV>>
    decreases e,
{
    match e {
        Some(e) => Some(Box::new(expr_view(*e))),
        None => None,
    }
}

pub open spec fn place_view<T>(p: PlaceExpr<T>) -> PlaceV
    decreases p,
{
    match p {
        PlaceExpr::Var(v) => PlaceV::Var(v@),
        PlaceExpr::FieldAccess(f) => PlaceV::FieldAccess(Box::new(expr_view(*f.expr)), f.name@),
        PlaceExpr::Index(i) => PlaceV::Index(
            Box::new(expr_view(*i.expr)),
            Box::new(expr_view(*i.index)),
        ),
        PlaceExpr::Slice(s) => PlaceV::Slice(Box::new(expr_view(*s.expr)), range_view(s.range)),
        PlaceExpr::Deref(e) => PlaceV::Deref(Box::new(expr_view(*e))),
        PlaceExpr::Len(e) => PlaceV::Len(Box::new(expr_view(*e))),
    }
}

pub open spec fn jump_view<T>(j: Jump<T>) -> JumpV
    decreases j,
{
    match j {
        Jump::Break(e) => JumpV::Break(opt_view(e)),
        Jump::Continue => JumpV::Continue,
        Jump::Return(e) => JumpV::Return(opt_view(e)),
    }
}

pub open spec fn bound_view<T>(b: Option<Bound<T>>) -> Option<(BoundType, Box<ExprV>)>
    decreases b,
{
    match b {
        Some(b) => Some((b.kind, Box::new(expr_view(*b.expr)))),
        None => None,
    }
}

pub open spec fn range_view<T>(r: Range<T>) -> RangeV
    decreases r,
{
    RangeV { left: bound_view(r.left), right: bound_view(r.right) }
}

pub open spec fn arg_view<T>(a: Arg<T>) -> ArgV
    decreases a,
{
    match a {
        Arg::Unit => ArgV::Unit,
        Arg::Splat(e) => ArgV::Splat(Box::new(expr_view(*e))),
        Arg::Record(c) => ArgV::Record(field_coll_view(c)),
        Arg::Tuple(c) => ArgV::Tuple(expr_coll_view(c)),
    }
}

pub open spec fn exprs_view<T>(s: Seq<Expr<T>>) -> Seq<ExprV>
    decreases s,
{
    if s.len() == 0 {
        Seq::empty()
    } else {
        proof {
            assert(decreases_to!(s => s[s.len() - 1]));
        }
        exprs_view(s.drop_last()).push(expr_view(s[s.len() - 1]))
    }
}

pub open spec fn fields_view<T>(s: Seq<Field<T>>) -> Seq<(Seq<char>, ExprV)>
    decreases s,
{
    if s.len() == 0 {
        Seq::empty()
    } else {
        proof {
            assert(decreases_to!(s => s[s.len() - 1]));
        }
        fields_view(s.drop_last()).push((s[s.len() - 1].name@, expr_view(s[s.len() - 1].expr)))
    }
}

pub open spec fn elements_view<T>(s: Seq<Element<T>>) -> Seq<(ExprV, ElementKind)>
    decreases s,
{
    if s.len() == 0 {
        Seq::empty()
    } else {
        proof {
            assert(decreases_to!(s => s[s.len() - 1]));
        }
        elements_view(s.drop_last()).push((expr_view(s[s.len() - 1].expr), s[s.len() - 1].kind))
    }
}

pub open spec fn assigns_view<T>(s: Seq<Assign<T>>) -> Seq<(PlaceV, ExprV)>
    decreases s,
{
    if s.len() == 0 {
        Seq::empty()
    } else {
        proof {
            assert(decreases_to!(s => s[s.len() - 1]));
        }
        assigns_view(s.drop_last()).push(
            (place_view(s[s.len() - 1].place), expr_view(s[s.len() - 1].expr)),
        )
    }
}

pub open spec fn expr_coll_view<T>(c: Collection<Expr<T>, T>) -> CollectionV<ExprV>
    decreases c,
{
    match c {
        Collection::Collection(v) => CollectionV::Collection(exprs_view(v@)),
        Collection::WithSplat(w) => CollectionV::WithSplat(
            exprs_view(w.left@),
            Box::new(expr_view(*w.splat)),
            exprs_view(w.right@),
        ),
    }
}

pub open spec fn field_coll_view<T>(c: Collection<Field<T>, T>) -> CollectionV<
    (Seq<char>, ExprV),
>
    decreases c,
{
    match c {
        Collection::Collection(v) => CollectionV::Collection(fields_view(v@)),
        Collection::WithSplat(w) => CollectionV::WithSplat(
            fields_view(w.left@),
            Box::new(expr_view(*w.splat)),
            fields_view(w.right@),
        ),
    }
}


/// The name a field takes when a record literal leaves it out: that of the
/// variable or field the expression reads, through tags, prefix operators and
/// dereferences.
pub open spec fn field_name_of(e: ExprV) -> Option<Seq<char>>
    decreases e,
{
    match e {
        ExprV::Tag(_, Some(inner)) => field_name_of(*inner),
        ExprV::Unary(_, inner) => field_name_of(*inner),
        ExprV::Place(p) => place_field_name(p),
        _ => None,
    }
}

/// The field name a place stands for.
pub open spec fn place_field_name(p: PlaceV) -> Option<Seq<char>>
    decreases p,
{
    match p {
        PlaceV::Var(v) => Some(v),
        PlaceV::FieldAccess(_, name) => Some(name),
        PlaceV::Deref(e) => field_name_of(*e),
        _ => None,
    }
}

/// The variable a place is rooted in, through field accesses, indexing,
/// slicing, dereferences and lengths of places.
pub open spec fn place_var(p: PlaceV) -> Option<Seq<char>>
    decreases p,
{
    match p {
        PlaceV::Var(v) => Some(v),
        PlaceV::FieldAccess(e, _) | PlaceV::Index(e, _) | PlaceV::Slice(e, _) | PlaceV::Deref(e)
        | PlaceV::Len(e) => match *e {
            ExprV::Place(inner) => place_var(inner),
            _ => None,
        },
    }
}

/// How tightly an expression binds when printed: the smaller, the tighter.
pub open spec fn expr_precedence(e: ExprV) -> u8 {
    match e {
        ExprV::Tag(..) | ExprV::Unary(..) => 2,
        ExprV::Assign(..) => 8,
        ExprV::Binary(op, _, _) => crate::operator::binary_precedence(op),
        ExprV::Place(PlaceV::Var(_)) => 0,
        ExprV::Place(_) | ExprV::Call(..) => 1,
        ExprV::Jump(JumpV::Continue) => 0,
        ExprV::Jump(_) | ExprV::Fun(..) => 9,
        _ => 0,
    }
}

/// No two of the names are the same.
pub open spec fn names_unique(names: Seq<Seq<char>>) -> bool {
    forall|i: int, j: int| 0 <= i < j < names.len() ==> names[i] != names[j]
}

/// The names of a list of record fields.
pub open spec fn field_names(fields: Seq<(Seq<char>, ExprV)>) -> Seq<Seq<char>> {
    fields.map_values(|f: (Seq<char>, ExprV)| f.0)
}

/// The names of the fields a record literal spells out.
pub open spec fn record_names(c: CollectionV<(Seq<char>, ExprV)>) -> Seq<Seq<char>> {
    match c {
        CollectionV::Collection(fields) => field_names(fields),
        CollectionV::WithSplat(left, _, right) => field_names(left) + field_names(right),
    }
}

impl<T> ExprKind<T> {
    /// The name a record field takes from this expression when none is
    /// written.
    pub fn field_name(&self) -> (name: Option<Atom>)
        ensures
            match name {
                Some(n) => field_name_of(kind_view(*self)) == Some(n@),
                None => field_name_of(kind_view(*self)) is None,
            },
        decreases self,
    {
        match self {
            ExprKind::Tag(tag) => match &tag.expr {
                Some(inner) => {
                    proof {
                        assert(opt_view(tag.expr) == Some(Box::new(expr_view(**inner))));
                    }
                    inner.expr.field_name()
                },
                None => None,
            },
            ExprKind::Unary(unary) => unary.expr.expr.field_name(),
            ExprKind::Place(place) => place.field_name(),
            _ => None,
        }
    }

    /// How tightly the expression binds when printed: the smaller, the
    /// tighter.
    pub fn precedence(&self) -> (precedence: u8)
        ensures
            precedence == expr_precedence(kind_view(*self)),
    {
        match self {
            ExprKind::Tag(_) | ExprKind::Unary(_) => 2,
            ExprKind::Assign(_) => 8,
            ExprKind::Binary(binary) => binary.kind.precedence(),
            ExprKind::Place(PlaceExpr::Var(_)) => 0,
            ExprKind::Place(_) | ExprKind::Call(_) => 1,
            ExprKind::Jump(Jump::Continue) => 0,
            ExprKind::Jump(_) | ExprKind::Fun(_) => 9,
            _ => 0,
        }
    }
}

impl<T> Expr<T> {
    /// The name a record field takes from this expression when none is
    /// written.
    pub fn field_name(&self) -> (name: Option<Atom>)
        ensures
            match name {
                Some(n) => field_name_of(self@) == Some(n@),
                None => field_name_of(self@) is None,
            },
    {
        self.expr.field_name()
    }
}

impl ExprKind<()> {
    /// The expression without a type annotation.
    pub fn into_untyped(self) -> (expr: Expr<()>)
        ensures
            expr == (Expr { expr: self, ty: () }),
    {
        Expr { expr: self, ty: () }
    }
}

impl<T> PlaceExpr<T> {
    /// The field name the place stands for.
    pub fn field_name(&self) -> (name: Option<Atom>)
        ensures
            match name {
                Some(n) => place_field_name(place_view(*self)) == Some(n@),
                None => place_field_name(place_view(*self)) is None,
            },
        decreases self,
    {
        match self {
            PlaceExpr::Var(var) => Some(var.clone()),
            PlaceExpr::FieldAccess(field) => Some(field.name.clone()),
            PlaceExpr::Deref(inner) => inner.expr.field_name(),
            _ => None,
        }
    }

    /// The variable the place is rooted in.
    pub fn var(&self) -> (var: Option<Atom>)
        ensures
            match var {
                Some(v) => place_var(place_view(*self)) == Some(v@),
                None => place_var(place_view(*self)) is None,
            },
        decreases self,
    {
        let inner = match self {
            PlaceExpr::Var(var) => {
                return Some(var.clone());
            },
            PlaceExpr::FieldAccess(FieldAccess { expr, name: _ }) => expr,
            PlaceExpr::Index(Index { expr, index: _ }) => expr,
            PlaceExpr::Slice(Slice { expr, range: _ }) => expr,
            PlaceExpr::Deref(expr) => expr,
            PlaceExpr::Len(expr) => expr,
        };
        match &inner.expr {
            ExprKind::Place(place) => place.var(),
            _ => None,
        }
    }
}

impl<T> Collection<Field<T>, T> {
    /// Whether no two spelled-out fields have the same name.
    pub fn all_name_unique(&self) -> (unique: bool)
        ensures
            unique == names_unique(record_names(field_coll_view(*self))),
    {
        let mut names: Vec<Atom> = Vec::new();
        let (left, right): (&Vec<Field<T>>, Option<&Vec<Field<T>>>) = match self {
            Collection::Collection(fields) => (fields, None),
            Collection::WithSplat(w) => (&w.left, Some(&w.right)),
        };
        let mut i: usize = 0;
        while i < left.len()
            invariant
                i <= left@.len(),
                names@.len() == i,
                forall|k: int| 0 <= k < i ==> #[trigger] names@[k]@ == left@[k].name@,
            decreases left@.len() - i,
        {
            names.push(left[i].name.clone());
            i = i + 1;
        }
        if let Some(right) = right {
            let mut j: usize = 0;
            while j < right.len()
                invariant
                    j <= right@.len(),
                    names@.len() == left@.len() + j,
                    forall|k: int| 0 <= k < left@.len() ==> #[trigger] names@[k]@ == left@[k].name@,
                    forall|k: int|
                        0 <= k < j ==> #[trigger] names@[left@.len() + k]@ == right@[k].name@,
                decreases right@.len() - j,
            {
                names.push(right[j].name.clone());
                j = j + 1;
            }
        }
        let unique = all_unique(&names);
        proof {
            lemma_fields_view_names(left@);
            let expected = record_names(field_coll_view(*self));
            match self {
                Collection::Collection(_) => {
                    assert(expected.len() == names@.len());
                    assert forall|k: int| 0 <= k < names@.len() implies #[trigger] names@[k]@
                        == expected[k] by {}
                },
                Collection::WithSplat(w) => {
                    lemma_fields_view_names(w.right@);
                    assert(expected.len() == names@.len());
                    assert forall|k: int| 0 <= k < names@.len() implies #[trigger] names@[k]@
                        == expected[k] by {
                        if k >= left@.len() {
                            assert(names@[left@.len() + (k - left@.len())]@ == w.right@[k
                                - left@.len()].name@);
                        }
                    }
                },
            }
            assert(names@.map_values(|n: Atom| n@) =~= expected);
        }
        unique
    }
}

/// The names in the view of a list of fields are the fields' names.
pub proof fn lemma_fields_view_names<T>(s: Seq<Field<T>>)
    ensures
        field_names(fields_view(s)).len() == s.len(),
        forall|k: int| 0 <= k < s.len() ==> #[trigger] field_names(fields_view(s))[k] == s[k].name@,
        forall|k: int| 0 <= k < s.len() ==> #[trigger] fields_view(s)[k] == (s[k].name@, expr_view(s[k].expr)),
    decreases s.len(),
{
    if s.len() > 0 {
        lemma_fields_view_names(s.drop_last());
        assert forall|k: int| 0 <= k < s.len() implies #[trigger] fields_view(s)[k] == (s[k].name@, expr_view(s[k].expr)) by {
            if k < s.len() - 1 {
                assert(s.drop_last()[k] == s[k]);
            }
        }
    }
}

/// The view of a list with one more expression.
pub proof fn lemma_exprs_push<T>(s: Seq<Expr<T>>, e: Expr<T>)
    ensures
        exprs_view(s.push(e)) == exprs_view(s).push(expr_view(e)),
{
    assert(s.push(e).drop_last() =~= s);
}

/// The view of a list with one more field.
pub proof fn lemma_fields_push<T>(s: Seq<Field<T>>, f: Field<T>)
    ensures
        fields_view(s.push(f)) == fields_view(s).push((f.name@, expr_view(f.expr))),
{
    assert(s.push(f).drop_last() =~= s);
}

/// The view of a list with one more statement.
pub proof fn lemma_statements_push<T>(s: Seq<Statement<T>>, x: Statement<T>)
    ensures
        statements_view(s.push(x)) == statements_view(s).push(statement_view(x)),
{
    assert(s.push(x).drop_last() =~= s);
}

/// The view of a list with one more match arm.
pub proof fn lemma_arms_push<T>(s: Seq<MatchArm<T>>, x: MatchArm<T>)
    ensures
        arms_view(s.push(x)) == arms_view(s).push((pattern_view(x.pattern), expr_view(x.expr))),
{
    assert(s.push(x).drop_last() =~= s);
}

/// The view of a list with one more assignment.
pub proof fn lemma_assigns_push<T>(s: Seq<Assign<T>>, x: Assign<T>)
    ensures
        assigns_view(s.push(x)) == assigns_view(s).push((place_view(x.place), expr_view(x.expr))),
{
    assert(s.push(x).drop_last() =~= s);
}

/// The view of a list with one more element.
pub proof fn lemma_elements_push<T>(s: Seq<Element<T>>, e: Element<T>)
    ensures
        elements_view(s.push(e)) == elements_view(s).push((expr_view(e.expr), e.kind)),
{
    assert(s.push(e).drop_last() =~= s);
}

impl<T> View for Expr<T> {
    type V = ExprV;

    open spec fn view(&self) -> ExprV {
        expr_view(*self)
    }
}

} // verus!
