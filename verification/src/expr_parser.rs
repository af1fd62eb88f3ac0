//! The parser of expressions: each function reads what the parser of the
//! same name in `expr_grammar` reads, at a position of a text.
use crate::expr::{
    arms_view, assigns_view, block_view, control_flow_view, expr_view, kind_view, lemma_arms_push,
    lemma_statements_push, place_view, statement_view, statements_view, Block, BlockV, ControlFlow,
    ControlFlowV, Declare, For, Fun, FunDeclare, If, Match, MatchArm, Statement, StatementV,
    While, arg_view, elements_view, expr_coll_view, exprs_view, field_coll_view, fields_view,
    lemma_elements_push, lemma_exprs_push, lemma_fields_push, opt_view, range_view, Arg, Assign,
    Bound, Call, Collection, Element, Expr, ExprKind, ExprV, Field, FieldAccess, Index, Jump,
    Literal, PlaceExpr, Range, Slice, Tag, Unary, WithSplat,
};
use crate::expr_grammar::{
    byte_elements, combine_from_v, expr_rank, sp_array, sp_array_range, sp_chain, sp_element,
    sp_elements, sp_elements_more, sp_expr, sp_expr_list, sp_exprs_more, sp_exprs_sep_end,
    sp_exprs_with_splat, sp_field, sp_field_list, sp_fields_more, sp_fields_sep_end,
    sp_fields_with_splat, sp_group, sp_index, sp_infix6, sp_arg, sp_access, sp_prefix_word, sp_jump, sp_jump_value, sp_continue_return, sp_lead_exprs,
    sp_lead_fields, sp_postfix, sp_prefix, sp_property, sp_range, sp_range_from, sp_record,
    sp_splat, sp_splat_arg, sp_tag, sp_tuple, sp_tuple_record_group, sp_unary, sp_unit_arg,
    PartialAstV, StatementReturnV, line_end, sp_arm, sp_arm_expr, sp_arms, sp_block,
    sp_block_items, sp_control_flow, sp_declare, sp_else, sp_expr_statement, sp_exprs_sep_more,
    sp_for, sp_fun, sp_fun_body, sp_fun_declare, sp_if, sp_loop, sp_match, sp_parallel_assign,
    sp_place, sp_places_more, sp_program, sp_statement_return, sp_statements, sp_while,
    zip_assign,
};
use crate::pattern::Pattern;
use crate::pattern_parser::{parameter_at, pattern_at};
use crate::lexeme::{
    agrees, advances, char_literal_at, ident_at, infix_op_at, keyword_at, lemma_ws_end,
    literal_at, range_op_at, skip_insignificants, stays_within, string_literal_at, Parsed, Step,
};
use crate::operator::{ElementKind, UnaryType};
use crate::ty::Atom;
use vstd::prelude::*;

verus! {

/// What may follow an expression at precedence level 6.
#[derive(Debug, PartialEq)]
pub enum PartialAst<T> {
    Property(Atom),
    Index(Expr<T>),
    Slice(Range<T>),
    UnitCall,
    SplatCall(Expr<T>),
    RecordCall(Collection<Field<T>, T>),
    TupleCall(Collection<Expr<T>, T>),
    Deref,
    Len,
}

pub open spec fn partial_view(a: PartialAst<()>) -> PartialAstV {
    match a {
        PartialAst::Property(name) => PartialAstV::Property(name@),
        PartialAst::Index(e) => PartialAstV::Index(e@),
        PartialAst::Slice(r) => PartialAstV::Slice(range_view(r)),
        PartialAst::UnitCall => PartialAstV::UnitCall,
        PartialAst::SplatCall(e) => PartialAstV::SplatCall(e@),
        PartialAst::RecordCall(c) => PartialAstV::RecordCall(field_coll_view(c)),
        PartialAst::TupleCall(c) => PartialAstV::TupleCall(expr_coll_view(c)),
        PartialAst::Deref => PartialAstV::Deref,
        PartialAst::Len => PartialAstV::Len,
    }
}

impl PartialAst<()> {
    /// The expression this makes of the expression `left` before it.
    pub fn combine_from(self, left: Expr<()>) -> (expr: Expr<()>)
        ensures
            expr@ == combine_from_v(partial_view(self), left@),
    {
        proof {
            reveal_with_fuel(crate::expr::kind_view, 2);
            reveal_with_fuel(crate::expr::place_view, 2);
            reveal_with_fuel(crate::expr::expr_view, 2);
            reveal_with_fuel(crate::expr::arg_view, 2);
        }
        let left = Box::new(left);
        let kind = match self {
            PartialAst::Property(name) => ExprKind::Place(
                PlaceExpr::FieldAccess(FieldAccess { expr: left, name }),
            ),
            PartialAst::Index(index) => ExprKind::Place(
                PlaceExpr::Index(Index { expr: left, index: Box::new(index) }),
            ),
            PartialAst::Slice(range) => ExprKind::Place(
                PlaceExpr::Slice(Slice { expr: left, range }),
            ),
            PartialAst::UnitCall => ExprKind::Call(Call { expr: left, arg: Arg::Unit }),
            PartialAst::SplatCall(arg) => ExprKind::Call(
                Call { expr: left, arg: Arg::Splat(Box::new(arg)) },
            ),
            PartialAst::RecordCall(arg) => ExprKind::Call(
                Call { expr: left, arg: Arg::Record(arg) },
            ),
            PartialAst::TupleCall(arg) => ExprKind::Call(
                Call { expr: left, arg: Arg::Tuple(arg) },
            ),
            PartialAst::Deref => ExprKind::Place(PlaceExpr::Deref(left)),
            PartialAst::Len => ExprKind::Place(PlaceExpr::Len(left)),
        };
        kind.into_untyped()
    }
}

/// `src` has `c` at `i`.
fn char_at(src: &str, i: usize, c: char) -> (b: bool)
    ensures
        b == crate::lexeme::at(src@, i as int, c),
        src@.len() <= usize::MAX,
{
    i < src.unicode_len() && src.get_char(i) == c
}

/// The expression of level `precedence` or tighter at `p`.
#[verifier::rlimit(30)]
pub fn expr_at(src: &str, p: usize, precedence: u8) -> (r: Step<Expr<()>>)
    requires
        p <= src@.len(),
    ensures
        agrees(r, sp_expr(src@, p as int, precedence), |e: Expr<()>| e@),
        advances(sp_expr(src@, p as int, precedence), p as int, src@.len() as int),
    decreases src@.len() - p, expr_rank(precedence),
{
    proof {
        reveal_with_fuel(crate::expr::kind_view, 2);
        reveal_with_fuel(crate::expr::place_view, 2);
        reveal_with_fuel(crate::expr::expr_view, 2);
    }
    let n = src.unicode_len();
    if precedence == 0 {
        match expr_at(src, p, 1) {
            Step::Done(left, q) => {
                if n - q > 1 && src.get_char(q) == '<' && src.get_char(q + 1) == '-' {
                    let q2 = skip_insignificants(src, q + 2);
                    match expr_at(src, q2, 0) {
                        Step::Done(right, r) => match left.expr {
                            ExprKind::Place(place) => {
                                let ghost place_v = crate::expr::place_view(place);
                                let ghost right_v = right@;
                                let assign = vec![Assign { place, expr: right }];
                                proof {
                                    assert(assign@.drop_last() =~= Seq::<Assign<()>>::empty());
                                    assert(crate::expr::assigns_view(Seq::<Assign<()>>::empty())
                                        =~= Seq::empty());
                                    assert(crate::expr::assigns_view(assign@) =~= seq![
                                        (place_v, right_v),
                                    ]);
                                }
                                Step::Done(ExprKind::Assign(assign).into_untyped(), r)
                            },
                            _ => Step::Fail(true),
                        },
                        Step::Fail(_) => Step::Fail(true),
                    }
                } else {
                    Step::Done(left, q)
                }
            },
            Step::Fail(c) => Step::Fail(c),
        }
    } else if precedence <= 5 {
        match expr_at(src, p, precedence + 1) {
            Step::Done(left, q) => chain_at(src, q, precedence, left),
            Step::Fail(c) => Step::Fail(c),
        }
    } else if precedence == 6 {
        match expr_at(src, p, 7) {
            Step::Done(e, q) => postfix_at(src, q, e),
            Step::Fail(c) => Step::Fail(c),
        }
    } else {
        prefix_at(src, p)
    }
}

/// After `acc`, the operators of level `precedence` at `p` with their right
/// operands, grouped to the left.
fn chain_at(src: &str, p: usize, precedence: u8, acc: Expr<()>) -> (r: Step<Expr<()>>)
    requires
        p <= src@.len(),
        1 <= precedence <= 5,
    ensures
        agrees(r, sp_chain(src@, p as int, precedence, acc@), |e: Expr<()>| e@),
        stays_within(sp_chain(src@, p as int, precedence, acc@), p as int, src@.len() as int),
    decreases src@.len() - p, 0int,
{
    match infix_op_at(src, p, precedence) {
        None => Step::Done(acc, p),
        Some((op, q)) => match expr_at(src, q, precedence + 1) {
            Step::Done(right, r) => {
                let e = ExprKind::Binary(
                    crate::expr::Binary { kind: op, left: Box::new(acc), right: Box::new(right) },
                ).into_untyped();
                chain_at(src, r, precedence, e)
            },
            Step::Fail(_) => Step::Fail(true),
        },
    }
}

/// After `acc`, what may follow an expression at level 6, repeatedly.
fn postfix_at(src: &str, p: usize, acc: Expr<()>) -> (r: Step<Expr<()>>)
    requires
        p <= src@.len(),
    ensures
        agrees(r, sp_postfix(src@, p as int, acc@), |e: Expr<()>| e@),
        stays_within(sp_postfix(src@, p as int, acc@), p as int, src@.len() as int),
    decreases src@.len() - p, 3int,
{
    match infix6_at(src, p) {
        Step::Done(partial, q) => {
            let e = partial.combine_from(acc);
            postfix_at(src, q, e)
        },
        Step::Fail(true) => Step::Fail(true),
        Step::Fail(false) => Step::Done(acc, p),
    }
}

/// An argument list at `p`.
#[verifier::rlimit(30)]
fn arg_at(src: &str, p: usize) -> (r: Step<PartialAst<()>>)
    requires
        p <= src@.len(),
    ensures
        agrees(r, sp_arg(src@, p as int), |a: PartialAst<()>| partial_view(a)),
        advances(sp_arg(src@, p as int), p as int, src@.len() as int),
    decreases src@.len() - p, 1int,
{
    if let Step::Done(_, q) = unit_arg_at(src, p) {
        return Step::Done(PartialAst::UnitCall, q);
    }
    if let Step::Done(e, q) = splat_arg_at(src, p) {
        return Step::Done(PartialAst::SplatCall(e), q);
    }
    if let Step::Done(c, q) = tuple_at(src, p) {
        return Step::Done(PartialAst::TupleCall(c), q);
    }
    match record_at(src, p) {
        Step::Done(c, q) => Step::Done(PartialAst::RecordCall(c), q),
        Step::Fail(c) => Step::Fail(c),
    }
}

/// A field access, an index, a slice or a dereference at `p`.
#[verifier::rlimit(30)]
fn access_at(src: &str, p: usize) -> (r: Step<PartialAst<()>>)
    requires
        p <= src@.len(),
    ensures
        agrees(r, sp_access(src@, p as int), |a: PartialAst<()>| partial_view(a)),
        advances(sp_access(src@, p as int), p as int, src@.len() as int),
    decreases src@.len() - p, 1int,
{
    match property_at(src, p) {
        Step::Done(name, q) => {
            let is_len = name.as_str().unicode_len() == 3 && name.as_str().get_char(0) == 'l'
                && name.as_str().get_char(1) == 'e' && name.as_str().get_char(2) == 'n';
            proof {
                if name@.len() == 3 {
                    assert(is_len == (name@ =~= seq!['l', 'e', 'n']));
                }
            }
            return if is_len {
                Step::Done(PartialAst::Len, q)
            } else {
                Step::Done(PartialAst::Property(name), q)
            };
        },
        Step::Fail(true) => {
            return Step::Fail(true);
        },
        Step::Fail(false) => {},
    }
    if let Step::Done(e, q) = index_at(src, p) {
        return Step::Done(PartialAst::Index(e), q);
    }
    match range_at(src, p) {
        Step::Done(r, q) => Step::Done(PartialAst::Slice(r), q),
        Step::Fail(true) => Step::Fail(true),
        Step::Fail(false) => if char_at(src, p, '^') {
            Step::Done(PartialAst::Deref, skip_insignificants(src, p + 1))
        } else {
            Step::Fail(false)
        },
    }
}

/// What may follow an expression at level 6, at `p`.
fn infix6_at(src: &str, p: usize) -> (r: Step<PartialAst<()>>)
    requires
        p <= src@.len(),
    ensures
        agrees(r, sp_infix6(src@, p as int), |a: PartialAst<()>| partial_view(a)),
        advances(sp_infix6(src@, p as int), p as int, src@.len() as int),
    decreases src@.len() - p, 2int,
{
    match arg_at(src, p) {
        Step::Fail(false) => access_at(src, p),
        other => other,
    }
}

/// `.name` at `p`.
fn property_at(src: &str, p: usize) -> (r: Step<String>)
    requires
        p <= src@.len(),
    ensures
        agrees(r, sp_property(src@, p as int), |w: String| w@),
        advances(sp_property(src@, p as int), p as int, src@.len() as int),
{
    if char_at(src, p, '.') && !char_at(src, p + 1, '<') && !char_at(src, p + 1, '.') {
        let q = skip_insignificants(src, p + 1);
        match ident_at(src, q) {
            Step::Done(name, r) => Step::Done(name, skip_insignificants(src, r)),
            Step::Fail(_) => Step::Fail(true),
        }
    } else {
        Step::Fail(false)
    }
}

/// `[expr]` at `p`.
fn index_at(src: &str, p: usize) -> (r: Step<Expr<()>>)
    requires
        p <= src@.len(),
    ensures
        agrees(r, sp_index(src@, p as int), |e: Expr<()>| e@),
        advances(sp_index(src@, p as int), p as int, src@.len() as int),
    decreases src@.len() - p, 0int,
{
    if !char_at(src, p, '[') {
        return Step::Fail(false);
    }
    let q = skip_insignificants(src, p + 1);
    match expr_at(src, q, 0) {
        Step::Done(e, r) => if char_at(src, r, ']') {
            Step::Done(e, skip_insignificants(src, r + 1))
        } else {
            Step::Fail(false)
        },
        Step::Fail(_) => Step::Fail(false),
    }
}

/// `()` at `p`.
fn unit_arg_at(src: &str, p: usize) -> (r: Step<()>)
    requires
        p <= src@.len(),
    ensures
        agrees(r, sp_unit_arg(src@, p as int), |u: ()| u),
        advances(sp_unit_arg(src@, p as int), p as int, src@.len() as int),
{
    if !char_at(src, p, '(') {
        return Step::Fail(false);
    }
    let q = skip_insignificants(src, p + 1);
    if char_at(src, q, ')') {
        Step::Done((), skip_insignificants(src, q + 1))
    } else {
        Step::Fail(false)
    }
}

/// `(*expr)` at `p`.
fn splat_arg_at(src: &str, p: usize) -> (r: Step<Expr<()>>)
    requires
        p <= src@.len(),
    ensures
        agrees(r, sp_splat_arg(src@, p as int), |e: Expr<()>| e@),
        advances(sp_splat_arg(src@, p as int), p as int, src@.len() as int),
    decreases src@.len() - p, 0int,
{
    if !char_at(src, p, '(') {
        return Step::Fail(false);
    }
    let q = skip_insignificants(src, p + 1);
    if !char_at(src, q, '*') {
        return Step::Fail(false);
    }
    let q1 = skip_insignificants(src, q + 1);
    match expr_at(src, q1, 0) {
        Step::Done(e, r) => {
            let t = if char_at(src, r, ',') {
                skip_insignificants(src, r + 1)
            } else {
                r
            };
            if char_at(src, t, ')') {
                Step::Done(e, skip_insignificants(src, t + 1))
            } else {
                Step::Fail(false)
            }
        },
        Step::Fail(_) => Step::Fail(false),
    }
}

/// `(expr)` at `p`.
fn group_at(src: &str, p: usize) -> (r: Step<Expr<()>>)
    requires
        p <= src@.len(),
    ensures
        agrees(r, sp_group(src@, p as int), |e: Expr<()>| e@),
        advances(sp_group(src@, p as int), p as int, src@.len() as int),
    decreases src@.len() - p, 0int,
{
    if !char_at(src, p, '(') {
        return Step::Fail(false);
    }
    let q = skip_insignificants(src, p + 1);
    match expr_at(src, q, 0) {
        Step::Done(e, r) => if char_at(src, r, ')') {
            Step::Done(e, skip_insignificants(src, r + 1))
        } else {
            Step::Fail(false)
        },
        Step::Fail(_) => Step::Fail(false),
    }
}

/// A tuple at `p`.
fn tuple_at(src: &str, p: usize) -> (r: Step<Collection<Expr<()>, ()>>)
    requires
        p <= src@.len(),
    ensures
        agrees(r, sp_tuple(src@, p as int), |c: Collection<Expr<()>, ()>| expr_coll_view(c)),
        advances(sp_tuple(src@, p as int), p as int, src@.len() as int),
    decreases src@.len() - p, 0int,
{
    if !char_at(src, p, '(') {
        return Step::Fail(false);
    }
    let q = skip_insignificants(src, p + 1);
    match expr_list_at(src, q) {
        Step::Done(c, r) => if char_at(src, r, ')') {
            Step::Done(c, skip_insignificants(src, r + 1))
        } else {
            Step::Fail(false)
        },
        Step::Fail(_) => Step::Fail(false),
    }
}

/// A record at `p`.
fn record_at(src: &str, p: usize) -> (r: Step<Collection<Field<()>, ()>>)
    requires
        p <= src@.len(),
    ensures
        agrees(r, sp_record(src@, p as int), |c: Collection<Field<()>, ()>| field_coll_view(c)),
        advances(sp_record(src@, p as int), p as int, src@.len() as int),
    decreases src@.len() - p, 0int,
{
    if !char_at(src, p, '(') {
        return Step::Fail(false);
    }
    let q = skip_insignificants(src, p + 1);
    match field_list_at(src, q) {
        Step::Done(c, r) => if c.all_name_unique() && char_at(src, r, ')') {
            Step::Done(c, skip_insignificants(src, r + 1))
        } else {
            Step::Fail(true)
        },
        Step::Fail(_) => Step::Fail(true),
    }
}

/// `* expr` at `p`.
fn splat_at(src: &str, p: usize) -> (r: Step<Expr<()>>)
    requires
        p <= src@.len(),
    ensures
        agrees(r, sp_splat(src@, p as int), |e: Expr<()>| e@),
        advances(sp_splat(src@, p as int), p as int, src@.len() as int),
    decreases src@.len() - p, 0int,
{
    if !char_at(src, p, '*') {
        return Step::Fail(false);
    }
    let q = skip_insignificants(src, p + 1);
    match expr_at(src, q, 0) {
        Step::Done(e, r) => Step::Done(e, r),
        Step::Fail(_) => Step::Fail(true),
    }
}

/// Expressions each followed by `,` at `p`, after `acc`.
fn lead_exprs_at(src: &str, p: usize, acc: Vec<Expr<()>>) -> (r: Step<Vec<Expr<()>>>)
    requires
        p <= src@.len(),
    ensures
        agrees(
            r,
            sp_lead_exprs(src@, p as int, exprs_view(acc@)),
            |v: Vec<Expr<()>>| exprs_view(v@),
        ),
        stays_within(sp_lead_exprs(src@, p as int, exprs_view(acc@)), p as int, src@.len() as int),
    decreases src@.len() - p, 12int,
{
    match expr_at(src, p, 0) {
        Step::Done(e, q) => if char_at(src, q, ',') {
            let mut acc = acc;
            proof {
                lemma_exprs_push(acc@, e);
            }
            acc.push(e);
            lead_exprs_at(src, skip_insignificants(src, q + 1), acc)
        } else {
            Step::Fail(true)
        },
        Step::Fail(true) => Step::Fail(true),
        Step::Fail(false) => Step::Done(acc, p),
    }
}

/// `, expr` repeated at `p`, after `acc`.
fn exprs_more_at(src: &str, p: usize, acc: Vec<Expr<()>>) -> (r: Step<Vec<Expr<()>>>)
    requires
        p <= src@.len(),
    ensures
        agrees(
            r,
            sp_exprs_more(src@, p as int, exprs_view(acc@)),
            |v: Vec<Expr<()>>| exprs_view(v@),
        ),
        stays_within(sp_exprs_more(src@, p as int, exprs_view(acc@)), p as int, src@.len() as int),
    decreases src@.len() - p, 0int,
{
    if !char_at(src, p, ',') {
        return Step::Done(acc, p);
    }
    let q = skip_insignificants(src, p + 1);
    match expr_at(src, q, 0) {
        Step::Done(e, r) => {
            let mut acc = acc;
            proof {
                lemma_exprs_push(acc@, e);
            }
            acc.push(e);
            exprs_more_at(src, r, acc)
        },
        Step::Fail(true) => Step::Fail(true),
        Step::Fail(false) => Step::Done(acc, q),
    }
}

/// Expressions separated by `,` at `p`.
fn exprs_sep_end_at(src: &str, p: usize) -> (r: Step<Vec<Expr<()>>>)
    requires
        p <= src@.len(),
    ensures
        agrees(r, sp_exprs_sep_end(src@, p as int), |v: Vec<Expr<()>>| exprs_view(v@)),
        stays_within(sp_exprs_sep_end(src@, p as int), p as int, src@.len() as int),
    decreases src@.len() - p, 12int,
{
    match expr_at(src, p, 0) {
        Step::Done(e, q) => {
            let mut acc: Vec<Expr<()>> = Vec::new();
            proof {
                lemma_exprs_push(acc@, e);
                assert(acc@ =~= Seq::<Expr<()>>::empty());
                assert(exprs_view(acc@).push(e@) =~= seq![e@]);
            }
            acc.push(e);
            exprs_more_at(src, q, acc)
        },
        Step::Fail(true) => Step::Fail(true),
        Step::Fail(false) => {
            proof {
                assert(exprs_view(Seq::<Expr<()>>::empty()) =~= Seq::<ExprV>::empty());
            }
            Step::Done(Vec::new(), p)
        },
    }
}

/// A list of expressions with a splat at `p`.
fn exprs_with_splat_at(src: &str, p: usize) -> (r: Step<(Vec<Expr<()>>, Expr<()>, Vec<Expr<()>>)>)
    requires
        p <= src@.len(),
    ensures
        agrees(
            r,
            sp_exprs_with_splat(src@, p as int),
            |t: (Vec<Expr<()>>, Expr<()>, Vec<Expr<()>>)|
                (exprs_view(t.0@), t.1@, exprs_view(t.2@)),
        ),
        stays_within(sp_exprs_with_splat(src@, p as int), p as int, src@.len() as int),
    decreases src@.len() - p, 13int,
{
    proof {
        assert(exprs_view(Seq::<Expr<()>>::empty()) =~= Seq::<ExprV>::empty());
    }
    match lead_exprs_at(src, p, Vec::new()) {
        Step::Done(left, q) => match splat_at(src, q) {
            Step::Done(splat, r) => if char_at(src, r, ',') {
                match exprs_sep_end_at(src, skip_insignificants(src, r + 1)) {
                    Step::Done(right, t) => Step::Done((left, splat, right), t),
                    Step::Fail(_) => Step::Fail(true),
                }
            } else {
                Step::Done((left, splat, Vec::new()), r)
            },
            Step::Fail(_) => Step::Fail(false),
        },
        Step::Fail(_) => Step::Fail(false),
    }
}

/// The items of a tuple at `p`.
fn expr_list_at(src: &str, p: usize) -> (r: Step<Collection<Expr<()>, ()>>)
    requires
        p <= src@.len(),
    ensures
        agrees(r, sp_expr_list(src@, p as int), |c: Collection<Expr<()>, ()>| expr_coll_view(c)),
        stays_within(sp_expr_list(src@, p as int), p as int, src@.len() as int),
    decreases src@.len() - p, 14int,
{
    match exprs_with_splat_at(src, p) {
        Step::Done((left, splat, right), q) => Step::Done(
            Collection::WithSplat(WithSplat { left, splat: Box::new(splat), right }),
            q,
        ),
        Step::Fail(true) => Step::Fail(true),
        Step::Fail(false) => match exprs_sep_end_at(src, p) {
            Step::Done(items, q) => Step::Done(Collection::Collection(items), q),
            Step::Fail(c) => Step::Fail(c),
        },
    }
}

/// A record field at `p`.
fn field_at(src: &str, p: usize) -> (r: Step<Field<()>>)
    requires
        p <= src@.len(),
    ensures
        agrees(r, sp_field(src@, p as int), |f: Field<()>| (f.name@, f.expr@)),
        advances(sp_field(src@, p as int), p as int, src@.len() as int),
    decreases src@.len() - p, 0int,
{
    let name = ident_at(src, p);
    let q = match &name {
        Step::Fail(true) => {
            return Step::Fail(true);
        },
        Step::Done(_, r) => skip_insignificants(src, *r),
        Step::Fail(false) => p,
    };
    if !char_at(src, q, '=') {
        return Step::Fail(q > p);
    }
    let q1 = skip_insignificants(src, q + 1);
    match expr_at(src, q1, 0) {
        Step::Done(e, r) => match name {
            Step::Done(name, _) => Step::Done(Field { name, expr: e }, r),
            _ => match e.field_name() {
                Some(name) => Step::Done(Field { name, expr: e }, r),
                None => Step::Fail(true),
            },
        },
        Step::Fail(_) => Step::Fail(true),
    }
}

/// Fields each followed by `,` at `p`, after `acc`.
fn lead_fields_at(src: &str, p: usize, acc: Vec<Field<()>>) -> (r: Step<Vec<Field<()>>>)
    requires
        p <= src@.len(),
    ensures
        agrees(
            r,
            sp_lead_fields(src@, p as int, fields_view(acc@)),
            |v: Vec<Field<()>>| fields_view(v@),
        ),
        stays_within(sp_lead_fields(src@, p as int, fields_view(acc@)), p as int, src@.len() as int),
    decreases src@.len() - p, 12int,
{
    match field_at(src, p) {
        Step::Done(f, q) => if char_at(src, q, ',') {
            let mut acc = acc;
            proof {
                lemma_fields_push(acc@, f);
            }
            acc.push(f);
            lead_fields_at(src, skip_insignificants(src, q + 1), acc)
        } else {
            Step::Fail(true)
        },
        Step::Fail(true) => Step::Fail(true),
        Step::Fail(false) => Step::Done(acc, p),
    }
}

/// `, field` repeated at `p`, after `acc`.
fn fields_more_at(src: &str, p: usize, acc: Vec<Field<()>>) -> (r: Step<Vec<Field<()>>>)
    requires
        p <= src@.len(),
    ensures
        agrees(
            r,
            sp_fields_more(src@, p as int, fields_view(acc@)),
            |v: Vec<Field<()>>| fields_view(v@),
        ),
        stays_within(sp_fields_more(src@, p as int, fields_view(acc@)), p as int, src@.len() as int),
    decreases src@.len() - p, 0int,
{
    if !char_at(src, p, ',') {
        return Step::Done(acc, p);
    }
    let q = skip_insignificants(src, p + 1);
    match field_at(src, q) {
        Step::Done(f, r) => {
            let mut acc = acc;
            proof {
                lemma_fields_push(acc@, f);
            }
            acc.push(f);
            fields_more_at(src, r, acc)
        },
        Step::Fail(true) => Step::Fail(true),
        Step::Fail(false) => Step::Done(acc, q),
    }
}

/// Fields separated by `,` at `p`.
fn fields_sep_end_at(src: &str, p: usize) -> (r: Step<Vec<Field<()>>>)
    requires
        p <= src@.len(),
    ensures
        agrees(r, sp_fields_sep_end(src@, p as int), |v: Vec<Field<()>>| fields_view(v@)),
        stays_within(sp_fields_sep_end(src@, p as int), p as int, src@.len() as int),
    decreases src@.len() - p, 12int,
{
    match field_at(src, p) {
        Step::Done(f, q) => {
            let mut acc: Vec<Field<()>> = Vec::new();
            proof {
                lemma_fields_push(acc@, f);
                assert(acc@ =~= Seq::<Field<()>>::empty());
                assert(fields_view(acc@).push((f.name@, f.expr@)) =~= seq![(f.name@, f.expr@)]);
            }
            acc.push(f);
            fields_more_at(src, q, acc)
        },
        Step::Fail(true) => Step::Fail(true),
        Step::Fail(false) => {
            proof {
                assert(fields_view(Seq::<Field<()>>::empty()) =~= Seq::<
                    (Seq<char>, ExprV),
                >::empty());
            }
            Step::Done(Vec::new(), p)
        },
    }
}

/// A list of fields with a splat at `p`.
fn fields_with_splat_at(src: &str, p: usize) -> (r: Step<
    (Vec<Field<()>>, Expr<()>, Vec<Field<()>>),
>)
    requires
        p <= src@.len(),
    ensures
        agrees(
            r,
            sp_fields_with_splat(src@, p as int),
            |t: (Vec<Field<()>>, Expr<()>, Vec<Field<()>>)|
                (fields_view(t.0@), t.1@, fields_view(t.2@)),
        ),
        stays_within(sp_fields_with_splat(src@, p as int), p as int, src@.len() as int),
    decreases src@.len() - p, 13int,
{
    proof {
        assert(fields_view(Seq::<Field<()>>::empty()) =~= Seq::<(Seq<char>, ExprV)>::empty());
    }
    match lead_fields_at(src, p, Vec::new()) {
        Step::Done(left, q) => match splat_at(src, q) {
            Step::Done(splat, r) => if char_at(src, r, ',') {
                match fields_sep_end_at(src, skip_insignificants(src, r + 1)) {
                    Step::Done(right, t) => Step::Done((left, splat, right), t),
                    Step::Fail(_) => Step::Fail(true),
                }
            } else {
                Step::Done((left, splat, Vec::new()), r)
            },
            Step::Fail(_) => Step::Fail(false),
        },
        Step::Fail(_) => Step::Fail(false),
    }
}

/// The items of a record at `p`.
fn field_list_at(src: &str, p: usize) -> (r: Step<Collection<Field<()>, ()>>)
    requires
        p <= src@.len(),
    ensures
        agrees(
            r,
            sp_field_list(src@, p as int),
            |c: Collection<Field<()>, ()>| field_coll_view(c),
        ),
        stays_within(sp_field_list(src@, p as int), p as int, src@.len() as int),
    decreases src@.len() - p, 14int,
{
    match fields_with_splat_at(src, p) {
        Step::Done((left, splat, right), q) => Step::Done(
            Collection::WithSplat(WithSplat { left, splat: Box::new(splat), right }),
            q,
        ),
        Step::Fail(true) => Step::Fail(true),
        Step::Fail(false) => match fields_sep_end_at(src, p) {
            Step::Done(items, q) => Step::Done(Collection::Collection(items), q),
            Step::Fail(c) => Step::Fail(c),
        },
    }
}

/// A range `[a..b]` at `p`.
fn range_at(src: &str, p: usize) -> (r: Step<Range<()>>)
    requires
        p <= src@.len(),
    ensures
        agrees(r, sp_range(src@, p as int), |v: Range<()>| range_view(v)),
        advances(sp_range(src@, p as int), p as int, src@.len() as int),
    decreases src@.len() - p, 0int,
{
    if !char_at(src, p, '[') {
        return Step::Fail(false);
    }
    let q = skip_insignificants(src, p + 1);
    match expr_at(src, q, 0) {
        Step::Fail(true) => Step::Fail(true),
        Step::Fail(false) => range_from_at(src, q, None),
        Step::Done(left, r) => range_from_at(src, r, Some(left)),
    }
}

/// The rest of a range from its operator at `p`.
#[verifier::rlimit(30)]
fn range_from_at(src: &str, p: usize, left: Option<Expr<()>>) -> (r: Step<Range<()>>)
    requires
        p <= src@.len(),
    ensures
        agrees(
            r,
            sp_range_from(
                src@,
                p as int,
                match left {
                    Some(e) => Some(e@),
                    None => None,
                },
            ),
            |v: Range<()>| range_view(v),
        ),
        advances(
            sp_range_from(
                src@,
                p as int,
                match left {
                    Some(e) => Some(e@),
                    None => None,
                },
            ),
            p as int,
            src@.len() as int,
        ),
    decreases src@.len() - p, 0int,
{
    match range_op_at(src, p) {
        Step::Done((left_kind, right_kind), q) => {
            let q1 = skip_insignificants(src, q);
            let (right, q2) = match expr_at(src, q1, 0) {
                Step::Fail(true) => {
                    return Step::Fail(true);
                },
                Step::Done(e, r) => (Some(e), r),
                Step::Fail(false) => (None, q1),
            };
            if !char_at(src, q2, ']') {
                return Step::Fail(true);
            }
            let range = Range {
                left: match left {
                    Some(e) => Some(Bound { kind: left_kind, expr: Box::new(e) }),
                    None => None,
                },
                right: match right {
                    Some(e) => Some(Bound { kind: right_kind, expr: Box::new(e) }),
                    None => None,
                },
            };
            Step::Done(range, skip_insignificants(src, q2 + 1))
        },
        Step::Fail(_) => Step::Fail(true),
    }
}

/// An array element at `p`.
fn element_at(src: &str, p: usize) -> (r: Step<Element<()>>)
    requires
        p <= src@.len(),
    ensures
        agrees(r, sp_element(src@, p as int), |e: Element<()>| (e.expr@, e.kind)),
        advances(sp_element(src@, p as int), p as int, src@.len() as int),
    decreases src@.len() - p, 12int,
{
    if char_at(src, p, '*') {
        let q = skip_insignificants(src, p + 1);
        match expr_at(src, q, 0) {
            Step::Done(e, r) => Step::Done(Element { expr: e, kind: ElementKind::Splat }, r),
            Step::Fail(_) => Step::Fail(true),
        }
    } else {
        let q = skip_insignificants(src, p);
        match expr_at(src, q, 0) {
            Step::Done(e, r) => Step::Done(Element { expr: e, kind: ElementKind::Element }, r),
            Step::Fail(c) => Step::Fail(c || q > p),
        }
    }
}

/// `, element` repeated at `p`, after `acc`.
fn elements_more_at(src: &str, p: usize, acc: Vec<Element<()>>) -> (r: Step<Vec<Element<()>>>)
    requires
        p <= src@.len(),
    ensures
        agrees(
            r,
            sp_elements_more(src@, p as int, elements_view(acc@)),
            |v: Vec<Element<()>>| elements_view(v@),
        ),
        stays_within(
            sp_elements_more(src@, p as int, elements_view(acc@)),
            p as int,
            src@.len() as int,
        ),
    decreases src@.len() - p, 0int,
{
    if !char_at(src, p, ',') {
        return Step::Done(acc, p);
    }
    let q = skip_insignificants(src, p + 1);
    match element_at(src, q) {
        Step::Done(e, r) => {
            let mut acc = acc;
            proof {
                lemma_elements_push(acc@, e);
            }
            acc.push(e);
            elements_more_at(src, r, acc)
        },
        Step::Fail(true) => Step::Fail(true),
        Step::Fail(false) => Step::Done(acc, q),
    }
}

/// Array elements separated by `,` at `p`.
fn elements_at(src: &str, p: usize) -> (r: Step<Vec<Element<()>>>)
    requires
        p <= src@.len(),
    ensures
        agrees(r, sp_elements(src@, p as int), |v: Vec<Element<()>>| elements_view(v@)),
        stays_within(sp_elements(src@, p as int), p as int, src@.len() as int),
    decreases src@.len() - p, 13int,
{
    match element_at(src, p) {
        Step::Done(e, q) => {
            let mut acc: Vec<Element<()>> = Vec::new();
            proof {
                lemma_elements_push(acc@, e);
                assert(acc@ =~= Seq::<Element<()>>::empty());
                assert(elements_view(acc@).push((e.expr@, e.kind)) =~= seq![(e.expr@, e.kind)]);
            }
            acc.push(e);
            elements_more_at(src, q, acc)
        },
        Step::Fail(true) => Step::Fail(true),
        Step::Fail(false) => {
            proof {
                assert(elements_view(Seq::<Element<()>>::empty()) =~= Seq::<
                    (ExprV, ElementKind),
                >::empty());
            }
            Step::Done(Vec::new(), p)
        },
    }
}

/// An array at `p`.
fn array_at(src: &str, p: usize) -> (r: Step<Vec<Element<()>>>)
    requires
        p <= src@.len(),
    ensures
        agrees(r, sp_array(src@, p as int), |v: Vec<Element<()>>| elements_view(v@)),
        advances(sp_array(src@, p as int), p as int, src@.len() as int),
    decreases src@.len() - p, 0int,
{
    if !char_at(src, p, '[') {
        return Step::Fail(false);
    }
    let q = skip_insignificants(src, p + 1);
    match elements_at(src, q) {
        Step::Done(items, r) => if char_at(src, r, ']') {
            Step::Done(items, skip_insignificants(src, r + 1))
        } else {
            Step::Fail(true)
        },
        Step::Fail(_) => Step::Fail(true),
    }
}

/// A range, or else an array, at `p`.
fn array_range_at(src: &str, p: usize) -> (r: Step<Expr<()>>)
    requires
        p <= src@.len(),
    ensures
        agrees(r, sp_array_range(src@, p as int), |e: Expr<()>| e@),
        advances(sp_array_range(src@, p as int), p as int, src@.len() as int),
    decreases src@.len() - p, 1int,
{
    proof {
        reveal_with_fuel(crate::expr::kind_view, 2);
        reveal_with_fuel(crate::expr::place_view, 2);
        reveal_with_fuel(crate::expr::expr_view, 2);
    }
    if let Step::Done(range, q) = range_at(src, p) {
        return Step::Done(ExprKind::ArrayRange(range).into_untyped(), q);
    }
    match array_at(src, p) {
        Step::Done(items, q) => Step::Done(ExprKind::Array(items).into_untyped(), q),
        Step::Fail(c) => Step::Fail(c),
    }
}

/// `()`, `(*expr)`, `(expr)`, a tuple or a record at `p`.
#[verifier::rlimit(30)]
fn tuple_record_group_at(src: &str, p: usize) -> (r: Step<Expr<()>>)
    requires
        p <= src@.len(),
    ensures
        agrees(r, sp_tuple_record_group(src@, p as int), |e: Expr<()>| e@),
        advances(sp_tuple_record_group(src@, p as int), p as int, src@.len() as int),
    decreases src@.len() - p, 1int,
{
    proof {
        reveal_with_fuel(crate::expr::kind_view, 2);
        reveal_with_fuel(crate::expr::place_view, 2);
        reveal_with_fuel(crate::expr::expr_view, 2);
    }
    if let Step::Done(_, q) = unit_arg_at(src, p) {
        return Step::Done(ExprKind::Unit.into_untyped(), q);
    }
    if let Step::Done(e, q) = splat_arg_at(src, p) {
        return Step::Done(ExprKind::Splat(Box::new(e)).into_untyped(), q);
    }
    if let Step::Done(e, q) = group_at(src, p) {
        return Step::Done(e, q);
    }
    if let Step::Done(c, q) = tuple_at(src, p) {
        return Step::Done(ExprKind::Tuple(c).into_untyped(), q);
    }
    match record_at(src, p) {
        Step::Done(c, q) => Step::Done(ExprKind::Record(c).into_untyped(), q),
        Step::Fail(c) => Step::Fail(c),
    }
}

/// A prefix operator and its operand at `p`.
fn unary_at(src: &str, p: usize) -> (r: Step<Expr<()>>)
    requires
        p <= src@.len(),
    ensures
        agrees(r, sp_unary(src@, p as int), |e: Expr<()>| e@),
        advances(sp_unary(src@, p as int), p as int, src@.len() as int),
    decreases src@.len() - p, 0int,
{
    proof {
        reveal_with_fuel(crate::expr::kind_view, 2);
        reveal_with_fuel(crate::expr::place_view, 2);
        reveal_with_fuel(crate::expr::expr_view, 2);
    }
    proof {
        reveal_strlit("clone");
        assert("clone"@ =~= seq!['c', 'l', 'o', 'n', 'e']);
    }
    let (op, k): (UnaryType, usize) = if char_at(src, p, '!') {
        (UnaryType::Not, 1)
    } else if char_at(src, p, '&') {
        (UnaryType::Ref, 1)
    } else if char_at(src, p, '-') {
        (UnaryType::Minus, 1)
    } else if char_at(src, p, '>') {
        (UnaryType::Move, 1)
    } else if let Step::Done(_, _) = keyword_at(src, p, "clone") {
        (UnaryType::Clone, 5)
    } else {
        return Step::Fail(false);
    };
    let q = skip_insignificants(src, p + k);
    match expr_at(src, q, 6) {
        Step::Done(e, r) => Step::Done(
            ExprKind::Unary(Unary { kind: op, expr: Box::new(e) }).into_untyped(),
            r,
        ),
        Step::Fail(_) => Step::Fail(true),
    }
}

/// `@tag` and its optional payload at `p`.
fn tag_at(src: &str, p: usize) -> (r: Step<Expr<()>>)
    requires
        p <= src@.len(),
    ensures
        agrees(r, sp_tag(src@, p as int), |e: Expr<()>| e@),
        advances(sp_tag(src@, p as int), p as int, src@.len() as int),
    decreases src@.len() - p, 0int,
{
    proof {
        reveal_with_fuel(crate::expr::kind_view, 2);
        reveal_with_fuel(crate::expr::place_view, 2);
        reveal_with_fuel(crate::expr::expr_view, 2);
    }
    if !char_at(src, p, '@') {
        return Step::Fail(false);
    }
    let q = skip_insignificants(src, p + 1);
    match ident_at(src, q) {
        Step::Done(name, r) => {
            let r1 = skip_insignificants(src, r);
            match expr_at(src, r1, 6) {
                Step::Done(e, t) => Step::Done(
                    ExprKind::Tag(Tag { tag: name, expr: Some(Box::new(e)) }).into_untyped(),
                    t,
                ),
                Step::Fail(true) => Step::Fail(true),
                Step::Fail(false) => Step::Done(
                    ExprKind::Tag(Tag { tag: name, expr: None }).into_untyped(),
                    r1,
                ),
            }
        },
        Step::Fail(_) => Step::Fail(true),
    }
}

/// The optional expression after `break` or `return`, at `p`.
fn jump_value_at(src: &str, p: usize) -> (r: Step<Option<Box<Expr<()>>>>)
    requires
        p <= src@.len(),
    ensures
        agrees(r, sp_jump_value(src@, p as int), |e: Option<Box<Expr<()>>>| opt_view(e)),
        stays_within(sp_jump_value(src@, p as int), p as int, src@.len() as int),
    decreases src@.len() - p, 12int,
{
    match expr_at(src, p, 0) {
        Step::Done(e, r) => Step::Done(Some(Box::new(e)), r),
        Step::Fail(true) => Step::Fail(true),
        Step::Fail(false) => Step::Done(None, p),
    }
}

/// The expression `break` or `return` with the optional value `e`.
fn jump_expr(is_break: bool, e: Option<Box<Expr<()>>>) -> (x: Expr<()>)
    ensures
        x@ == ExprV::Jump(
            if is_break {
                crate::expr::JumpV::Break(opt_view(e))
            } else {
                crate::expr::JumpV::Return(opt_view(e))
            },
        ),
{
    let ghost ev = opt_view(e);
    let jump = if is_break {
        Jump::Break(e)
    } else {
        Jump::Return(e)
    };
    proof {
        assert(crate::expr::jump_view(jump) == if is_break {
            crate::expr::JumpV::Break(ev)
        } else {
            crate::expr::JumpV::Return(ev)
        });
    }
    let x = ExprKind::Jump(jump).into_untyped();
    proof {
        assert(crate::expr::kind_view(x.expr) == ExprV::Jump(crate::expr::jump_view(jump)));
        assert(x@ == crate::expr::kind_view(x.expr));
    }
    x
}

/// The expression `continue`.
fn continue_expr() -> (x: Expr<()>)
    ensures
        x@ == ExprV::Jump(crate::expr::JumpV::Continue),
{
    let x = ExprKind::Jump(Jump::Continue).into_untyped();
    proof {
        assert(crate::expr::jump_view(Jump::<()>::Continue) == crate::expr::JumpV::Continue);
        assert(crate::expr::kind_view(x.expr) == ExprV::Jump(
            crate::expr::jump_view(Jump::<()>::Continue),
        ));
        assert(x@ == crate::expr::kind_view(x.expr));
    }
    x
}

/// `continue` or `return` at `p`.
fn continue_return_at(src: &str, p: usize) -> (r: Step<Expr<()>>)
    requires
        p <= src@.len(),
    ensures
        agrees(r, sp_continue_return(src@, p as int), |e: Expr<()>| e@),
        advances(sp_continue_return(src@, p as int), p as int, src@.len() as int),
    decreases src@.len() - p, 0int,
{
    proof {
        reveal_strlit("continue");
        reveal_strlit("return");
        assert("continue"@ =~= seq!['c', 'o', 'n', 't', 'i', 'n', 'u', 'e']);
        assert("return"@ =~= seq!['r', 'e', 't', 'u', 'r', 'n']);
    }
    match keyword_at(src, p, "continue") {
        Step::Done(_, q) => {
            return Step::Done(continue_expr(), skip_insignificants(src, q));
        },
        Step::Fail(true) => {
            return Step::Fail(true);
        },
        Step::Fail(false) => {},
    }
    match keyword_at(src, p, "return") {
        Step::Done(_, q) => match jump_value_at(src, skip_insignificants(src, q)) {
            Step::Done(e, r) => Step::Done(jump_expr(false, e), r),
            Step::Fail(_) => Step::Fail(true),
        },
        Step::Fail(c) => Step::Fail(c),
    }
}

/// `break`, `continue` or `return` at `p`.
fn jump_at(src: &str, p: usize) -> (r: Step<Expr<()>>)
    requires
        p <= src@.len(),
    ensures
        agrees(r, sp_jump(src@, p as int), |e: Expr<()>| e@),
        advances(sp_jump(src@, p as int), p as int, src@.len() as int),
    decreases src@.len() - p, 1int,
{
    proof {
        reveal_strlit("break");
        assert("break"@ =~= seq!['b', 'r', 'e', 'a', 'k']);
    }
    match keyword_at(src, p, "break") {
        Step::Done(_, q) => match jump_value_at(src, skip_insignificants(src, q)) {
            Step::Done(e, r) => Step::Done(jump_expr(true, e), r),
            Step::Fail(_) => Step::Fail(true),
        },
        Step::Fail(true) => Step::Fail(true),
        Step::Fail(false) => continue_return_at(src, p),
    }
}

/// The elements of an array of bytes.
fn byte_elements_vec(bytes: Vec<u8>) -> (items: Vec<Element<()>>)
    ensures
        elements_view(items@) == byte_elements(bytes@),
{
    let mut items: Vec<Element<()>> = Vec::new();
    let mut i: usize = 0;
    proof {
        assert(elements_view(items@) =~= byte_elements(bytes@.subrange(0, 0)));
    }
    while i < bytes.len()
        invariant
            i <= bytes@.len(),
            elements_view(items@) == byte_elements(bytes@.subrange(0, i as int)),
        decreases bytes@.len() - i,
    {
        let e = Element {
            expr: ExprKind::Literal(Literal::UInt(bytes[i] as u64)).into_untyped(),
            kind: ElementKind::Element,
        };
        proof {
            lemma_elements_push(items@, e);
            assert(byte_elements(bytes@.subrange(0, i + 1)) =~= byte_elements(
                bytes@.subrange(0, i as int),
            ).push((e.expr@, e.kind)));
        }
        items.push(e);
        i = i + 1;
    }
    proof {
        assert(bytes@.subrange(0, bytes@.len() as int) =~= bytes@);
    }
    items
}

/// An expression that starts with its own token, at `p`.
#[verifier::rlimit(30)]
fn prefix_at(src: &str, p: usize) -> (r: Step<Expr<()>>)
    requires
        p <= src@.len(),
    ensures
        agrees(r, sp_prefix(src@, p as int), |e: Expr<()>| e@),
        advances(sp_prefix(src@, p as int), p as int, src@.len() as int),
    decreases src@.len() - p, 3int,
{
    proof {
        reveal_with_fuel(crate::expr::kind_view, 2);
        reveal_with_fuel(crate::expr::place_view, 2);
        reveal_with_fuel(crate::expr::expr_view, 2);
    }
    match fun_at(src, p) {
        Step::Fail(false) => {},
        other => {
            return other;
        },
    }
    match tuple_record_group_at(src, p) {
        Step::Fail(false) => {},
        other => {
            return other;
        },
    }
    match array_range_at(src, p) {
        Step::Fail(false) => {},
        other => {
            return other;
        },
    }
    match string_literal_at(src, p) {
        Step::Done(bytes, q) => {
            proof {
                lemma_ws_end(src@, q as int);
            }
            let items = byte_elements_vec(bytes);
            return Step::Done(ExprKind::Array(items).into_untyped(), skip_insignificants(src, q));
        },
        Step::Fail(true) => {
            return Step::Fail(true);
        },
        Step::Fail(false) => {},
    }
    prefix_word_at(src, p)
}

/// A prefix operator, a tag, a variable, a literal or a jump, at `p`.
#[verifier::rlimit(30)]
fn prefix_word_at(src: &str, p: usize) -> (r: Step<Expr<()>>)
    requires
        p <= src@.len(),
    ensures
        agrees(r, sp_prefix_word(src@, p as int), |e: Expr<()>| e@),
        advances(sp_prefix_word(src@, p as int), p as int, src@.len() as int),
    decreases src@.len() - p, 2int,
{
    proof {
        reveal_with_fuel(crate::expr::kind_view, 2);
        reveal_with_fuel(crate::expr::place_view, 2);
        reveal_with_fuel(crate::expr::expr_view, 2);
    }
    match unary_at(src, p) {
        Step::Fail(false) => {},
        other => {
            return other;
        },
    }
    match tag_at(src, p) {
        Step::Fail(false) => {},
        other => {
            return other;
        },
    }
    if let Step::Done(name, q) = ident_at(src, p) {
        return Step::Done(
            ExprKind::Place(PlaceExpr::Var(name)).into_untyped(),
            skip_insignificants(src, q),
        );
    }
    match control_flow_at(src, p) {
        Step::Done(c, q) => {
            return Step::Done(control_flow_expr(c), q);
        },
        Step::Fail(true) => {
            return Step::Fail(true);
        },
        Step::Fail(false) => {},
    }
    match literal_at(src, p) {
        Step::Done(l, q) => {
            return Step::Done(ExprKind::Literal(l).into_untyped(), skip_insignificants(src, q));
        },
        Step::Fail(true) => {
            return Step::Fail(true);
        },
        Step::Fail(false) => {},
    }
    jump_at(src, p)
}

/// What a parser answers when the text is not what it reads.
#[derive(Debug, PartialEq, Eq, Clone, Copy, Structural)]
pub struct ParseError;

/// The outcome of a parser at the start of a text as a value and the text
/// after it.
pub open spec fn read_from<B>(src: Seq<char>, m: Parsed<B>, value: B, rest: Seq<char>) -> bool {
    match m {
        Parsed::Done(v, q) => v == value && rest == src.skip(q),
        Parsed::Fail(_) => false,
    }
}

/// The expression of precedence level `precedence` or tighter at the start
/// of `src` (0 reads any expression; 6 stops before infix operators; 7 reads
/// one that starts with its own token), with the text after it and the
/// white space after that.
pub fn expr(src: &str, precedence: u8) -> (result: Result<(Expr<()>, &str), ParseError>)
    ensures
        match result {
            Ok((e, rest)) => read_from(src@, sp_expr(src@, 0, precedence), e@, rest@),
            Err(_) => sp_expr(src@, 0, precedence) is Fail,
        },
{
    match expr_at(src, 0, precedence) {
        Step::Done(e, q) => Ok((e, src.substring_char(q, src.unicode_len()))),
        Step::Fail(_) => Err(ParseError),
    }
}

/// The whole of `src` as one expression, white space and comments allowed
/// around it.
pub fn expr_parser(src: &str) -> (result: Result<Expr<()>, ParseError>)
    ensures
        match sp_expr(src@, crate::lexeme::ws_end(src@, 0), 0) {
            Parsed::Done(e, q) => if q == src@.len() {
                result matches Ok(v) && v@ == e
            } else {
                result is Err
            },
            Parsed::Fail(_) => result is Err,
        },
{
    let p = skip_insignificants(src, 0);
    match expr_at(src, p, 0) {
        Step::Done(e, q) => if q == src.unicode_len() {
            Ok(e)
        } else {
            Err(ParseError)
        },
        Step::Fail(_) => Err(ParseError),
    }
}

/// The float literal at the start of `src`, as the decimal text that spells
/// it, with the text after it.
pub fn float(src: &str) -> (result: Result<(String, &str), ParseError>)
    ensures
        match result {
            Ok((text, rest)) => read_from(src@, crate::lexeme::sp_float(src@, 0), text@, rest@),
            Err(_) => crate::lexeme::sp_float(src@, 0) is Fail,
        },
{
    match crate::lexeme::float_at(src, 0) {
        Step::Done(text, q) => Ok((text, src.substring_char(q, src.unicode_len()))),
        Step::Fail(_) => Err(ParseError),
    }
}

/// The string literal at the start of `src`, as the bytes it stands for,
/// with the text after it.
pub fn string_literal(src: &str) -> (result: Result<(Vec<u8>, &str), ParseError>)
    ensures
        match result {
            Ok((bytes, rest)) => read_from(
                src@,
                crate::lexeme::sp_string_literal(src@, 0),
                bytes@,
                rest@,
            ),
            Err(_) => crate::lexeme::sp_string_literal(src@, 0) is Fail,
        },
{
    match string_literal_at(src, 0) {
        Step::Done(bytes, q) => Ok((bytes, src.substring_char(q, src.unicode_len()))),
        Step::Fail(_) => Err(ParseError),
    }
}

/// The character literal at the start of `src`, as its byte, with the text
/// after it.
pub fn char_literal(src: &str) -> (result: Result<(u64, &str), ParseError>)
    ensures
        match result {
            Ok((v, rest)) => read_from(src@, crate::lexeme::sp_char_literal(src@, 0), v, rest@),
            Err(_) => crate::lexeme::sp_char_literal(src@, 0) is Fail,
        },
{
    match char_literal_at(src, 0) {
        Step::Done(v, q) => Ok((v, src.substring_char(q, src.unicode_len()))),
        Step::Fail(_) => Err(ParseError),
    }
}

// Functions, control flow and statements.

/// What a statement parser reads: a statement, or an expression without a
/// `;` after it, which gives a block its value when it comes last.
#[derive(Debug, PartialEq)]
pub enum StatementReturn {
    Statement(Statement<()>),
    Return(Expr<()>),
}

pub open spec fn statement_return_view(r: StatementReturn) -> StatementReturnV {
    match r {
        StatementReturn::Statement(st) => StatementReturnV::Statement(statement_view(st)),
        StatementReturn::Return(e) => StatementReturnV::Return(e@),
    }
}

pub open spec fn else_view(e: Option<Box<ControlFlow<()>>>) -> Option<Box<ControlFlowV>> {
    match e {
        Some(c) => Some(Box::new(control_flow_view(*c))),
        None => None,
    }
}

pub open spec fn places_view(s: Seq<PlaceExpr<()>>) -> Seq<crate::expr::PlaceV> {
    s.map_values(|pl: PlaceExpr<()>| place_view(pl))
}

/// The expression of control flow `c`.
fn control_flow_expr(c: ControlFlow<()>) -> (x: Expr<()>)
    ensures
        x@ == ExprV::ControlFlow(control_flow_view(c)),
{
    let ghost cv = control_flow_view(c);
    let x = ExprKind::ControlFlow(c).into_untyped();
    proof {
        assert(kind_view(x.expr) == ExprV::ControlFlow(cv));
        assert(x@ == kind_view(x.expr));
    }
    x
}

/// The function `param => body`.
fn fun_expr(param: Pattern<()>, body: Expr<()>) -> (x: Expr<()>)
    ensures
        x@ == ExprV::Fun(param@, Box::new(body@)),
{
    let ghost pv = param@;
    let ghost bv = body@;
    let x = ExprKind::Fun(Fun { param, body: Box::new(body) }).into_untyped();
    proof {
        assert(kind_view(x.expr) == ExprV::Fun(pv, Box::new(bv)));
        assert(x@ == kind_view(x.expr));
    }
    x
}

/// A function `(params) => body` at `p`.
fn fun_at(src: &str, p: usize) -> (r: Step<Expr<()>>)
    requires
        p <= src@.len(),
    ensures
        agrees(r, sp_fun(src@, p as int), |e: Expr<()>| e@),
        advances(sp_fun(src@, p as int), p as int, src@.len() as int),
    decreases src@.len() - p, 0int,
{
    match parameter_at(src, p) {
        Step::Done(param, q) => if char_at(src, q, '=') && char_at(src, q + 1, '>') {
            match expr_at(src, skip_insignificants(src, q + 2), 0) {
                Step::Done(body, r) => Step::Done(fun_expr(param, body), r),
                Step::Fail(_) => Step::Fail(true),
            }
        } else {
            Step::Fail(false)
        },
        Step::Fail(_) => Step::Fail(false),
    }
}

/// A block at `p`.
fn block_at(src: &str, p: usize) -> (r: Step<Block<()>>)
    requires
        p <= src@.len(),
    ensures
        agrees(r, sp_block(src@, p as int), |b: Block<()>| block_view(b)),
        advances(sp_block(src@, p as int), p as int, src@.len() as int),
    decreases src@.len() - p, 0int,
{
    if !char_at(src, p, '{') {
        return Step::Fail(false);
    }
    let q = skip_insignificants(src, p + 1);
    proof {
        assert(statements_view(Seq::<Statement<()>>::empty()) =~= Seq::<StatementV>::empty());
    }
    match block_items_at(src, q, Vec::new(), None) {
        Step::Done((statement, expr), r) => if char_at(src, r, '}') {
            Step::Done(Block { statement, expr }, skip_insignificants(src, r + 1))
        } else {
            Step::Fail(true)
        },
        Step::Fail(_) => Step::Fail(true),
    }
}

/// The statements of a block at `p`, after `statements` and `last`.
fn block_items_at(
    src: &str,
    p: usize,
    statements: Vec<Statement<()>>,
    last: Option<Box<Expr<()>>>,
) -> (r: Step<(Vec<Statement<()>>, Option<Box<Expr<()>>>)>)
    requires
        p <= src@.len(),
    ensures
        agrees(
            r,
            sp_block_items(src@, p as int, statements_view(statements@), opt_view(last)),
            |t: (Vec<Statement<()>>, Option<Box<Expr<()>>>)|
                (statements_view(t.0@), opt_view(t.1)),
        ),
        stays_within(
            sp_block_items(src@, p as int, statements_view(statements@), opt_view(last)),
            p as int,
            src@.len() as int,
        ),
    decreases src@.len() - p, 15int,
{
    match statement_return_at(src, p, '}') {
        Step::Done(item, q) => {
            let mut statements = statements;
            if let Some(e) = last {
                let st = Statement::Expr(*e);
                proof {
                    lemma_statements_push(statements@, st);
                }
                statements.push(st);
            }
            match item {
                StatementReturn::Statement(st) => {
                    proof {
                        lemma_statements_push(statements@, st);
                    }
                    statements.push(st);
                    block_items_at(src, q, statements, None)
                },
                StatementReturn::Return(e) => block_items_at(src, q, statements, Some(Box::new(e))),
            }
        },
        Step::Fail(true) => Step::Fail(true),
        Step::Fail(false) => Step::Done((statements, last), p),
    }
}

/// A statement at `p`, in a block closed by `end`.
#[verifier::rlimit(30)]
fn statement_return_at(src: &str, p: usize, end: char) -> (r: Step<StatementReturn>)
    requires
        p <= src@.len(),
    ensures
        agrees(r, sp_statement_return(src@, p as int, end), |x: StatementReturn| statement_return_view(x)),
        advances(sp_statement_return(src@, p as int, end), p as int, src@.len() as int),
    decreases src@.len() - p, 14int,
{
    match control_flow_at(src, p) {
        Step::Done(c, q) => {
            let e = control_flow_expr(c);
            return if char_at(src, q, ';') {
                Step::Done(StatementReturn::Statement(Statement::Expr(e)), skip_insignificants(src, q + 1))
            } else {
                Step::Done(StatementReturn::Return(e), q)
            };
        },
        Step::Fail(true) => {
            return Step::Fail(true);
        },
        Step::Fail(false) => {},
    }
    match declare_at(src, p) {
        Step::Done(st, q) => {
            return Step::Done(StatementReturn::Statement(st), q);
        },
        Step::Fail(true) => {
            return Step::Fail(true);
        },
        Step::Fail(false) => {},
    }
    match fun_declare_at(src, p) {
        Step::Done(st, q) => Step::Done(StatementReturn::Statement(st), q),
        Step::Fail(true) => Step::Fail(true),
        Step::Fail(false) => expr_statement_at(src, p, end),
    }
}

/// A declaration at `p`.
fn declare_at(src: &str, p: usize) -> (r: Step<Statement<()>>)
    requires
        p <= src@.len(),
    ensures
        agrees(r, sp_declare(src@, p as int), |x: Statement<()>| statement_view(x)),
        advances(sp_declare(src@, p as int), p as int, src@.len() as int),
    decreases src@.len() - p, 0int,
{
    match pattern_at(src, p) {
        Step::Done(pattern, q) => if char_at(src, q, '=') {
            match expr_at(src, skip_insignificants(src, q + 1), 0) {
                Step::Done(expr, r) => if char_at(src, r, ';') {
                    Step::Done(
                        Statement::Declare(Declare { pattern, expr }),
                        skip_insignificants(src, r + 1),
                    )
                } else {
                    Step::Fail(true)
                },
                Step::Fail(_) => Step::Fail(true),
            }
        } else {
            Step::Fail(false)
        },
        Step::Fail(_) => Step::Fail(false),
    }
}

/// A function declaration at `p`.
#[verifier::rlimit(30)]
fn fun_declare_at(src: &str, p: usize) -> (r: Step<Statement<()>>)
    requires
        p <= src@.len(),
    ensures
        agrees(r, sp_fun_declare(src@, p as int), |x: Statement<()>| statement_view(x)),
        advances(sp_fun_declare(src@, p as int), p as int, src@.len() as int),
    decreases src@.len() - p, 0int,
{
    match ident_at(src, p) {
        Step::Done(ident, q) => match parameter_at(src, q) {
            Step::Done(param, r) => if char_at(src, r, '=') && char_at(src, r + 1, '>') {
                match fun_body_at(src, skip_insignificants(src, r + 2)) {
                    Step::Done(body, t) => Step::Done(
                        Statement::FunDeclare(
                            FunDeclare { ident, fun: Fun { param, body: Box::new(body) }, ty: () },
                        ),
                        t,
                    ),
                    Step::Fail(_) => Step::Fail(true),
                }
            } else {
                Step::Fail(false)
            },
            Step::Fail(_) => Step::Fail(false),
        },
        Step::Fail(_) => Step::Fail(false),
    }
}

/// The body of a function declaration at `p`.
fn fun_body_at(src: &str, p: usize) -> (r: Step<Expr<()>>)
    requires
        p <= src@.len(),
    ensures
        agrees(r, sp_fun_body(src@, p as int), |e: Expr<()>| e@),
        advances(sp_fun_body(src@, p as int), p as int, src@.len() as int),
    decreases src@.len() - p, 12int,
{
    match control_flow_at(src, p) {
        Step::Done(c, q) => {
            let e = control_flow_expr(c);
            let q1 = if char_at(src, q, ';') {
                skip_insignificants(src, q + 1)
            } else {
                q
            };
            Step::Done(e, q1)
        },
        Step::Fail(true) => Step::Fail(true),
        Step::Fail(false) => match expr_at(src, p, 0) {
            Step::Done(e, q) => if char_at(src, q, ';') {
                Step::Done(e, skip_insignificants(src, q + 1))
            } else {
                Step::Fail(true)
            },
            Step::Fail(c) => Step::Fail(c),
        },
    }
}

/// An expression statement at `p`, in a block closed by `end`.
fn expr_statement_at(src: &str, p: usize, end: char) -> (r: Step<StatementReturn>)
    requires
        p <= src@.len(),
    ensures
        agrees(r, sp_expr_statement(src@, p as int, end), |x: StatementReturn| statement_return_view(x)),
        advances(sp_expr_statement(src@, p as int, end), p as int, src@.len() as int),
    decreases src@.len() - p, 13int,
{
    let e = match parallel_assign_at(src, p) {
        Step::Fail(false) => expr_at(src, p, 0),
        other => other,
    };
    match e {
        Step::Done(x, q) => if char_at(src, q, ';') {
            Step::Done(StatementReturn::Statement(Statement::Expr(x)), skip_insignificants(src, q + 1))
        } else if char_at(src, q, end) {
            Step::Done(StatementReturn::Return(x), q)
        } else {
            Step::Fail(true)
        },
        Step::Fail(c) => Step::Fail(c),
    }
}

/// A place at `p`.
fn place_at(src: &str, p: usize) -> (r: Step<PlaceExpr<()>>)
    requires
        p <= src@.len(),
    ensures
        agrees(r, sp_place(src@, p as int), |x: PlaceExpr<()>| place_view(x)),
        advances(sp_place(src@, p as int), p as int, src@.len() as int),
    decreases src@.len() - p, 11int,
{
    match expr_at(src, p, 1) {
        Step::Done(e, q) => match e.expr {
            ExprKind::Place(place) => Step::Done(place, q),
            _ => Step::Fail(true),
        },
        Step::Fail(c) => Step::Fail(c),
    }
}

/// `, place` repeated at `p`, after `acc`.
fn places_more_at(src: &str, p: usize, acc: Vec<PlaceExpr<()>>) -> (r: Step<Vec<PlaceExpr<()>>>)
    requires
        p <= src@.len(),
    ensures
        agrees(
            r,
            sp_places_more(src@, p as int, places_view(acc@)),
            |v: Vec<PlaceExpr<()>>| places_view(v@),
        ),
        stays_within(sp_places_more(src@, p as int, places_view(acc@)), p as int, src@.len() as int),
    decreases src@.len() - p, 0int,
{
    if !char_at(src, p, ',') {
        return Step::Done(acc, p);
    }
    let q = skip_insignificants(src, p + 1);
    match place_at(src, q) {
        Step::Done(place, r) => {
            let mut acc = acc;
            proof {
                assert(places_view(acc@.push(place)) =~= places_view(acc@).push(place_view(place)));
            }
            acc.push(place);
            places_more_at(src, r, acc)
        },
        Step::Fail(_) => Step::Fail(true),
    }
}

/// `, expr` repeated at `p`, after `acc`.
fn exprs_sep_more_at(src: &str, p: usize, acc: Vec<Expr<()>>) -> (r: Step<Vec<Expr<()>>>)
    requires
        p <= src@.len(),
    ensures
        agrees(
            r,
            sp_exprs_sep_more(src@, p as int, exprs_view(acc@)),
            |v: Vec<Expr<()>>| exprs_view(v@),
        ),
        stays_within(sp_exprs_sep_more(src@, p as int, exprs_view(acc@)), p as int, src@.len() as int),
    decreases src@.len() - p, 0int,
{
    if !char_at(src, p, ',') {
        return Step::Done(acc, p);
    }
    let q = skip_insignificants(src, p + 1);
    match expr_at(src, q, 0) {
        Step::Done(e, r) => {
            let mut acc = acc;
            proof {
                lemma_exprs_push(acc@, e);
            }
            acc.push(e);
            exprs_sep_more_at(src, r, acc)
        },
        Step::Fail(_) => Step::Fail(true),
    }
}

/// The assignment expression of `places` to `values`, pairwise.
fn assign_expr(places: Vec<PlaceExpr<()>>, values: Vec<Expr<()>>) -> (x: Expr<()>)
    requires
        places@.len() == values@.len(),
    ensures
        x@ == ExprV::Assign(zip_assign(places_view(places@), exprs_view(values@))),
{
    let ghost pv = places_view(places@);
    let ghost vv = exprs_view(values@);
    proof {
        lemma_exprs_view_index(values@);
    }
    let n = places.len();
    let mut places = places;
    let mut values = values;
    let mut assigns: Vec<Assign<()>> = Vec::new();
    let mut k: usize = 0;
    while k < n
        invariant
            k <= n,
            n == pv.len(),
            n == vv.len(),
            places@.len() == n - k,
            values@.len() == n - k,
            forall|i: int| 0 <= i < n - k ==> #[trigger] place_view(places@[i]) == pv[k + i],
            forall|i: int| 0 <= i < n - k ==> #[trigger] expr_view(values@[i]) == vv[k + i],
            assigns_view(assigns@) == zip_assign(pv.take(k as int), vv.take(k as int)),
        decreases n - k,
    {
        let ghost places_before = places@;
        let ghost values_before = values@;
        let place = places.remove(0);
        let expr = values.remove(0);
        let a = Assign { place, expr };
        proof {
            assert(place_view(places_before[0]) == pv[k + 0]);
            assert(expr_view(values_before[0]) == vv[k + 0]);
            crate::expr::lemma_assigns_push(assigns@, a);
            assert(place_view(place) == pv[k as int]);
            assert(expr_view(expr) == vv[k as int]);
            assert(zip_assign(pv.take(k + 1), vv.take(k + 1)) =~= zip_assign(
                pv.take(k as int),
                vv.take(k as int),
            ).push((pv[k as int], vv[k as int])));
            assert forall|i: int| 0 <= i < n - (k + 1) implies #[trigger] place_view(places@[i])
                == pv[k + 1 + i] by {
                assert(places@[i] == places_before[i + 1]);
                assert(place_view(places_before[i + 1]) == pv[k + (i + 1)]);
            }
            assert forall|i: int| 0 <= i < n - (k + 1) implies #[trigger] expr_view(values@[i])
                == vv[k + 1 + i] by {
                assert(values@[i] == values_before[i + 1]);
                assert(expr_view(values_before[i + 1]) == vv[k + (i + 1)]);
            }
        }
        assigns.push(a);
        k = k + 1;
    }
    proof {
        assert(pv.take(n as int) =~= pv);
        assert(vv.take(n as int) =~= vv);
    }
    let ghost av = assigns_view(assigns@);
    let x = ExprKind::Assign(assigns).into_untyped();
    proof {
        assert(kind_view(x.expr) == ExprV::Assign(av));
        assert(x@ == kind_view(x.expr));
    }
    x
}

/// The length of the view of a list of expressions, and each of its items.
proof fn lemma_exprs_view_index(s: Seq<Expr<()>>)
    ensures
        exprs_view(s).len() == s.len(),
        forall|i: int| 0 <= i < s.len() ==> #[trigger] exprs_view(s)[i] == expr_view(s[i]),
    decreases s.len(),
{
    if s.len() > 0 {
        lemma_exprs_view_index(s.drop_last());
        assert forall|i: int| 0 <= i < s.len() implies #[trigger] exprs_view(s)[i] == expr_view(
            s[i],
        ) by {
            if i < s.len() - 1 {
                assert(s.drop_last()[i] == s[i]);
            }
        }
    }
}

/// A parallel assignment at `p`.
#[verifier::rlimit(30)]
fn parallel_assign_at(src: &str, p: usize) -> (r: Step<Expr<()>>)
    requires
        p <= src@.len(),
    ensures
        agrees(r, sp_parallel_assign(src@, p as int), |e: Expr<()>| e@),
        advances(sp_parallel_assign(src@, p as int), p as int, src@.len() as int),
    decreases src@.len() - p, 12int,
{
    match place_at(src, p) {
        Step::Done(first, q) => {
            let mut acc: Vec<PlaceExpr<()>> = Vec::new();
            proof {
                assert(places_view(acc@.push(first)) =~= seq![place_view(first)]);
            }
            acc.push(first);
            match places_more_at(src, q, acc) {
                Step::Done(places, r) => if char_at(src, r, '<') && char_at(src, r + 1, '-') {
                    let r2 = skip_insignificants(src, r + 2);
                    match expr_at(src, r2, 0) {
                        Step::Done(e, t) => {
                            let mut values: Vec<Expr<()>> = Vec::new();
                            proof {
                                lemma_exprs_push(values@, e);
                                assert(values@ =~= Seq::<Expr<()>>::empty());
                                assert(exprs_view(values@).push(e@) =~= seq![e@]);
                            }
                            values.push(e);
                            match exprs_sep_more_at(src, t, values) {
                                Step::Done(values, u) => {
                                    proof {
                                        lemma_exprs_view_index(values@);
                                    }
                                    if places.len() == values.len() {
                                        Step::Done(assign_expr(places, values), u)
                                    } else {
                                        Step::Fail(true)
                                    }
                                },
                                Step::Fail(_) => Step::Fail(true),
                            }
                        },
                        Step::Fail(_) => Step::Fail(true),
                    }
                } else {
                    Step::Fail(false)
                },
                Step::Fail(_) => Step::Fail(false),
            }
        },
        Step::Fail(_) => Step::Fail(false),
    }
}

/// Control flow at `p`.
fn control_flow_at(src: &str, p: usize) -> (r: Step<ControlFlow<()>>)
    requires
        p <= src@.len(),
    ensures
        agrees(r, sp_control_flow(src@, p as int), |c: ControlFlow<()>| control_flow_view(c)),
        advances(sp_control_flow(src@, p as int), p as int, src@.len() as int),
    decreases src@.len() - p, 1int,
{
    match block_at(src, p) {
        Step::Done(b, q) => {
            return Step::Done(ControlFlow::Block(b), q);
        },
        Step::Fail(true) => {
            return Step::Fail(true);
        },
        Step::Fail(false) => {},
    }
    match if_at(src, p) {
        Step::Fail(false) => {},
        other => {
            return other;
        },
    }
    match for_at(src, p) {
        Step::Fail(false) => {},
        other => {
            return other;
        },
    }
    match while_at(src, p) {
        Step::Fail(false) => {},
        other => {
            return other;
        },
    }
    match loop_at(src, p) {
        Step::Fail(false) => {},
        other => {
            return other;
        },
    }
    match_at(src, p)
}

/// `if` at `p`.
#[verifier::rlimit(30)]
fn if_at(src: &str, p: usize) -> (r: Step<ControlFlow<()>>)
    requires
        p <= src@.len(),
    ensures
        agrees(r, sp_if(src@, p as int), |c: ControlFlow<()>| control_flow_view(c)),
        advances(sp_if(src@, p as int), p as int, src@.len() as int),
    decreases src@.len() - p, 0int,
{
    proof {
        reveal_strlit("if");
        assert("if"@ =~= seq!['i', 'f']);
    }
    if !matches!(keyword_at(src, p, "if"), Step::Done(..)) {
        return Step::Fail(false);
    }
    let q = skip_insignificants(src, p + 2);
    match expr_at(src, q, 0) {
        Step::Done(condition, r) => match block_at(src, r) {
            Step::Done(body, t) => match else_at(src, t) {
                Step::Done(else_part, u) => Step::Done(
                    ControlFlow::If(If { condition: Box::new(condition), body, else_part }),
                    u,
                ),
                Step::Fail(_) => Step::Fail(true),
            },
            Step::Fail(_) => Step::Fail(true),
        },
        Step::Fail(_) => Step::Fail(true),
    }
}

/// The optional `else` part at `p`.
#[verifier::rlimit(30)]
fn else_at(src: &str, p: usize) -> (r: Step<Option<Box<ControlFlow<()>>>>)
    requires
        p <= src@.len(),
    ensures
        agrees(r, sp_else(src@, p as int), |e: Option<Box<ControlFlow<()>>>| else_view(e)),
        stays_within(sp_else(src@, p as int), p as int, src@.len() as int),
    decreases src@.len() - p, 0int,
{
    proof {
        reveal_strlit("else");
        assert("else"@ =~= seq!['e', 'l', 's', 'e']);
    }
    match keyword_at(src, p, "else") {
        Step::Done(_, q) => {
            let q1 = skip_insignificants(src, q);
            match block_at(src, q1) {
                Step::Done(b, r) => Step::Done(Some(Box::new(ControlFlow::Block(b))), r),
                Step::Fail(true) => Step::Fail(true),
                Step::Fail(false) => match if_at(src, q1) {
                    Step::Done(i, r) => Step::Done(Some(Box::new(i)), r),
                    Step::Fail(_) => Step::Fail(true),
                },
            }
        },
        Step::Fail(true) => Step::Fail(true),
        Step::Fail(false) => Step::Done(None, p),
    }
}

/// `for` at `p`.
#[verifier::rlimit(30)]
fn for_at(src: &str, p: usize) -> (r: Step<ControlFlow<()>>)
    requires
        p <= src@.len(),
    ensures
        agrees(r, sp_for(src@, p as int), |c: ControlFlow<()>| control_flow_view(c)),
        advances(sp_for(src@, p as int), p as int, src@.len() as int),
    decreases src@.len() - p, 0int,
{
    proof {
        reveal_strlit("for");
        reveal_strlit("in");
        assert("for"@ =~= seq!['f', 'o', 'r']);
        assert("in"@ =~= seq!['i', 'n']);
    }
    if !matches!(keyword_at(src, p, "for"), Step::Done(..)) {
        return Step::Fail(false);
    }
    match pattern_at(src, skip_insignificants(src, p + 3)) {
        Step::Done(pattern, r) => match keyword_at(src, r, "in") {
            Step::Done(_, r1) => {
                let r2 = skip_insignificants(src, r1);
                match expr_at(src, r2, 0) {
                    Step::Done(e, t) => match block_at(src, t) {
                        Step::Done(body, u) => Step::Done(
                            ControlFlow::For(For { pattern, expr: Box::new(e), body }),
                            u,
                        ),
                        Step::Fail(_) => Step::Fail(true),
                    },
                    Step::Fail(_) => Step::Fail(true),
                }
            },
            Step::Fail(_) => Step::Fail(true),
        },
        Step::Fail(_) => Step::Fail(true),
    }
}

/// `while` at `p`.
#[verifier::rlimit(30)]
fn while_at(src: &str, p: usize) -> (r: Step<ControlFlow<()>>)
    requires
        p <= src@.len(),
    ensures
        agrees(r, sp_while(src@, p as int), |c: ControlFlow<()>| control_flow_view(c)),
        advances(sp_while(src@, p as int), p as int, src@.len() as int),
    decreases src@.len() - p, 0int,
{
    proof {
        reveal_strlit("while");
        assert("while"@ =~= seq!['w', 'h', 'i', 'l', 'e']);
    }
    if !matches!(keyword_at(src, p, "while"), Step::Done(..)) {
        return Step::Fail(false);
    }
    let q = skip_insignificants(src, p + 5);
    match expr_at(src, q, 0) {
        Step::Done(condition, r) => match block_at(src, r) {
            Step::Done(body, t) => Step::Done(
                ControlFlow::While(While { condition: Box::new(condition), body }),
                t,
            ),
            Step::Fail(_) => Step::Fail(true),
        },
        Step::Fail(_) => Step::Fail(true),
    }
}

/// `loop` at `p`.
fn loop_at(src: &str, p: usize) -> (r: Step<ControlFlow<()>>)
    requires
        p <= src@.len(),
    ensures
        agrees(r, sp_loop(src@, p as int), |c: ControlFlow<()>| control_flow_view(c)),
        advances(sp_loop(src@, p as int), p as int, src@.len() as int),
    decreases src@.len() - p, 0int,
{
    proof {
        reveal_strlit("loop");
        assert("loop"@ =~= seq!['l', 'o', 'o', 'p']);
    }
    if !matches!(keyword_at(src, p, "loop"), Step::Done(..)) {
        return Step::Fail(false);
    }
    match block_at(src, skip_insignificants(src, p + 4)) {
        Step::Done(body, t) => Step::Done(ControlFlow::Loop(body), t),
        Step::Fail(_) => Step::Fail(true),
    }
}

/// `match` at `p`.
#[verifier::rlimit(30)]
fn match_at(src: &str, p: usize) -> (r: Step<ControlFlow<()>>)
    requires
        p <= src@.len(),
    ensures
        agrees(r, sp_match(src@, p as int), |c: ControlFlow<()>| control_flow_view(c)),
        advances(sp_match(src@, p as int), p as int, src@.len() as int),
    decreases src@.len() - p, 0int,
{
    proof {
        reveal_strlit("match");
        assert("match"@ =~= seq!['m', 'a', 't', 'c', 'h']);
    }
    if !matches!(keyword_at(src, p, "match"), Step::Done(..)) {
        return Step::Fail(false);
    }
    let q = skip_insignificants(src, p + 5);
    match expr_at(src, q, 0) {
        Step::Done(e, r) => {
            if !char_at(src, r, '{') {
                return Step::Fail(true);
            }
            let r1 = skip_insignificants(src, r + 1);
            proof {
                assert(arms_view(Seq::<MatchArm<()>>::empty()) =~= Seq::<
                    (crate::pattern::PatternV, ExprV),
                >::empty());
            }
            match arms_at(src, r1, Vec::new()) {
                Step::Done(arm, t) => if char_at(src, t, '}') {
                    Step::Done(
                        ControlFlow::Match(Match { expr: Box::new(e), arm }),
                        skip_insignificants(src, t + 1),
                    )
                } else {
                    Step::Fail(true)
                },
                Step::Fail(_) => Step::Fail(true),
            }
        },
        Step::Fail(_) => Step::Fail(true),
    }
}

/// The arms of a match at `p`, after `acc`.
fn arms_at(src: &str, p: usize, acc: Vec<MatchArm<()>>) -> (r: Step<Vec<MatchArm<()>>>)
    requires
        p <= src@.len(),
    ensures
        agrees(
            r,
            sp_arms(src@, p as int, arms_view(acc@)),
            |v: Vec<MatchArm<()>>| arms_view(v@),
        ),
        stays_within(sp_arms(src@, p as int, arms_view(acc@)), p as int, src@.len() as int),
    decreases src@.len() - p, 1int,
{
    match arm_at(src, p) {
        Step::Done(arm, q) => {
            let mut acc = acc;
            proof {
                lemma_arms_push(acc@, arm);
            }
            acc.push(arm);
            arms_at(src, q, acc)
        },
        Step::Fail(true) => Step::Fail(true),
        Step::Fail(false) => Step::Done(acc, p),
    }
}

/// An arm at `p`.
fn arm_at(src: &str, p: usize) -> (r: Step<MatchArm<()>>)
    requires
        p <= src@.len(),
    ensures
        agrees(r, sp_arm(src@, p as int), |a: MatchArm<()>| (a.pattern@, a.expr@)),
        advances(sp_arm(src@, p as int), p as int, src@.len() as int),
    decreases src@.len() - p, 0int,
{
    match pattern_at(src, p) {
        Step::Done(pattern, q) => if char_at(src, q, '=') && char_at(src, q + 1, '>') {
            match arm_expr_at(src, skip_insignificants(src, q + 2)) {
                Step::Done(expr, r) => Step::Done(MatchArm { pattern, expr }, r),
                Step::Fail(_) => Step::Fail(true),
            }
        } else {
            Step::Fail(true)
        },
        Step::Fail(c) => Step::Fail(c),
    }
}

/// The expression of an arm at `p`.
fn arm_expr_at(src: &str, p: usize) -> (r: Step<Expr<()>>)
    requires
        p <= src@.len(),
    ensures
        agrees(r, sp_arm_expr(src@, p as int), |e: Expr<()>| e@),
        advances(sp_arm_expr(src@, p as int), p as int, src@.len() as int),
    decreases src@.len() - p, 12int,
{
    if let Step::Done(c, q) = control_flow_at(src, p) {
        let e = control_flow_expr(c);
        let q1 = if char_at(src, q, ',') {
            skip_insignificants(src, q + 1)
        } else {
            q
        };
        return Step::Done(e, q1);
    }
    match expr_at(src, p, 0) {
        Step::Done(e, q) => if char_at(src, q, ',') {
            Step::Done(e, skip_insignificants(src, q + 1))
        } else if char_at(src, q, '}') {
            Step::Done(e, q)
        } else {
            Step::Fail(true)
        },
        Step::Fail(c) => Step::Fail(c),
    }
}

/// Statements at `p`, after `acc`.
fn statements_at(src: &str, p: usize, acc: Vec<Statement<()>>) -> (r: Step<Vec<Statement<()>>>)
    requires
        p <= src@.len(),
    ensures
        agrees(
            r,
            sp_statements(src@, p as int, statements_view(acc@)),
            |v: Vec<Statement<()>>| statements_view(v@),
        ),
        stays_within(sp_statements(src@, p as int, statements_view(acc@)), p as int, src@.len() as int),
    decreases src@.len() - p, 15int,
{
    match statement_return_at(src, p, ';') {
        Step::Done(item, q) => {
            let st = match item {
                StatementReturn::Statement(st) => st,
                StatementReturn::Return(e) => Statement::Expr(e),
            };
            let mut acc = acc;
            proof {
                lemma_statements_push(acc@, st);
            }
            acc.push(st);
            statements_at(src, q, acc)
        },
        Step::Fail(true) => Step::Fail(true),
        Step::Fail(false) => Step::Done(acc, p),
    }
}

/// The statement at the start of `src` (an expression without `;` after it
/// taken as a statement), with the text after it.
pub fn statement(src: &str) -> (result: Result<(Statement<()>, &str), ParseError>)
    ensures
        match result {
            Ok((st, rest)) => read_from(
                src@,
                sp_statement_return(src@, 0, ';'),
                match sp_statement_return(src@, 0, ';') {
                    Parsed::Done(StatementReturnV::Return(e), _) => StatementReturnV::Return(e),
                    _ => StatementReturnV::Statement(statement_view(st)),
                },
                rest@,
            ) && (sp_statement_return(src@, 0, ';') matches Parsed::Done(StatementReturnV::Return(e), _) ==> statement_view(st) == StatementV::Expr(e)),
            Err(_) => sp_statement_return(src@, 0, ';') is Fail,
        },
{
    match statement_return_at(src, 0, ';') {
        Step::Done(item, q) => {
            let st = match item {
                StatementReturn::Statement(st) => st,
                StatementReturn::Return(e) => Statement::Expr(e),
            };
            Ok((st, src.substring_char(q, src.unicode_len())))
        },
        Step::Fail(_) => Err(ParseError),
    }
}

/// The block at the start of `src`, with the text after it.
pub fn block(src: &str) -> (result: Result<(Block<()>, &str), ParseError>)
    ensures
        match result {
            Ok((b, rest)) => read_from(src@, sp_block(src@, 0), block_view(b), rest@),
            Err(_) => sp_block(src@, 0) is Fail,
        },
{
    match block_at(src, 0) {
        Step::Done(b, q) => Ok((b, src.substring_char(q, src.unicode_len()))),
        Step::Fail(_) => Err(ParseError),
    }
}

/// A whole program: an optional first line starting with `#!`, then
/// statements up to the end of the text.
pub fn ast(src: &str) -> (result: Result<Vec<Statement<()>>, ParseError>)
    ensures
        match sp_program(src@) {
            Parsed::Done(statements, _) => result matches Ok(v) && statements_view(v@) == statements,
            Parsed::Fail(_) => result is Err,
        },
{
    let n = src.unicode_len();
    let mut p: usize = 0;
    if char_at(src, 0, '#') && char_at(src, 1, '!') {
        p = 2;
        while p < n && src.get_char(p) != '\n'
            invariant
                2 <= p <= n,
                n == src@.len(),
                line_end(src@, 2) == line_end(src@, p as int),
            decreases n - p,
        {
            p = p + 1;
        }
    }
    let p = skip_insignificants(src, p);
    proof {
        assert(statements_view(Seq::<Statement<()>>::empty()) =~= Seq::<StatementV>::empty());
    }
    match statements_at(src, p, Vec::new()) {
        Step::Done(statements, q) => if q == n {
            Ok(statements)
        } else {
            Err(ParseError)
        },
        Step::Fail(_) => Err(ParseError),
    }
}

} // verus!
