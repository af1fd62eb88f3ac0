//! The grammar of expressions, as a model: for a text and a position, what
//! each parser of the grammar reads there.
//!
//! Precedence levels go from 0 (assignment, which groups to the right) over
//! the infix operators of levels 1 to 5 (which group to the left) to 6
//! (calls, field access, indexing, slicing and dereference after an
//! expression) and 7 (expressions that start with their own token).
//!
//! A test `p < q <= s.len()` stands where a parser goes on after a nested
//! expression that stopped at `q`; the parsers' contracts show that it
//! always holds, and it lets each definition be seen to terminate.
use crate::expr::{
    field_name_of, names_unique, record_names, BlockV, CollectionV, ControlFlowV, ExprV, JumpV,
    LiteralV, PlaceV, RangeV, StatementV,
};
use crate::pattern::PatternV;
use crate::pattern_parser::{sp_parameter, sp_pattern};
use crate::ident_keyword::is_rest;
use crate::lexeme::{
    at, lemma_ident, lemma_ws_end, lexed, pair_at, sp_ident, sp_infix_op, sp_keyword, sp_literal, sp_range_op,
    sp_string_literal, ws_end, Parsed,
};
use crate::operator::{BoundType, ElementKind, UnaryType};
use vstd::prelude::*;

verus! {

/// What follows an expression at precedence level 6: an argument list, a
/// field access, an index, a slice or a dereference.
pub enum PartialAstV {
    Property(Seq<char>),
    Index(ExprV),
    Slice(RangeV),
    UnitCall,
    SplatCall(ExprV),
    RecordCall(CollectionV<(Seq<char>, ExprV)>),
    TupleCall(CollectionV<ExprV>),
    Deref,
    Len,
}

/// The expression that `partial` makes of the expression `left` before it.
pub open spec fn combine_from_v(partial: PartialAstV, left: ExprV) -> ExprV {
    let left = Box::new(left);
    match partial {
        PartialAstV::Property(name) => ExprV::Place(PlaceV::FieldAccess(left, name)),
        PartialAstV::Index(index) => ExprV::Place(PlaceV::Index(left, Box::new(index))),
        PartialAstV::Slice(range) => ExprV::Place(PlaceV::Slice(left, range)),
        PartialAstV::UnitCall => ExprV::Call(left, crate::expr::ArgV::Unit),
        PartialAstV::SplatCall(arg) => ExprV::Call(left, crate::expr::ArgV::Splat(Box::new(arg))),
        PartialAstV::RecordCall(arg) => ExprV::Call(left, crate::expr::ArgV::Record(arg)),
        PartialAstV::TupleCall(arg) => ExprV::Call(left, crate::expr::ArgV::Tuple(arg)),
        PartialAstV::Deref => ExprV::Place(PlaceV::Deref(left)),
        PartialAstV::Len => ExprV::Place(PlaceV::Len(left)),
    }
}

/// Where a parser stands in the order in which parsers call one another at
/// one position.
pub open spec fn expr_rank(precedence: u8) -> int {
    if precedence >= 7 {
        4
    } else {
        11 - precedence
    }
}

/// An outcome that stopped after `p` and not beyond the end.
pub open spec fn moved(s: Seq<char>, p: int, q: int) -> bool {
    p < q <= s.len()
}

/// The expression of precedence level `precedence` or tighter at `p`.
pub open spec fn sp_expr(s: Seq<char>, p: int, precedence: u8) -> Parsed<ExprV>
    decreases s.len() - p, expr_rank(precedence),
{
    if p < 0 || p > s.len() {
        Parsed::Fail(false)
    } else if precedence == 0 {
        match sp_expr(s, p, 1) {
            Parsed::Done(left, q) => if !moved(s, p, q) {
                Parsed::Fail(true)
            } else if pair_at(s, q, '<', '-') {
                proof {
                    lemma_ws_end(s, q + 2);
                }
                match sp_expr(s, ws_end(s, q + 2), 0) {
                    Parsed::Done(right, r) => match left {
                        ExprV::Place(place) => Parsed::Done(ExprV::Assign(seq![(place, right)]), r),
                        _ => Parsed::Fail(true),
                    },
                    Parsed::Fail(_) => Parsed::Fail(true),
                }
            } else {
                Parsed::Done(left, q)
            },
            Parsed::Fail(c) => Parsed::Fail(c),
        }
    } else if precedence <= 5 {
        match sp_expr(s, p, (precedence + 1) as u8) {
            Parsed::Done(left, q) => if !moved(s, p, q) {
                Parsed::Fail(true)
            } else {
                sp_chain(s, q, precedence, left)
            },
            Parsed::Fail(c) => Parsed::Fail(c),
        }
    } else if precedence == 6 {
        match sp_expr(s, p, 7) {
            Parsed::Done(e, q) => if !moved(s, p, q) {
                Parsed::Fail(true)
            } else {
                sp_postfix(s, q, e)
            },
            Parsed::Fail(c) => Parsed::Fail(c),
        }
    } else {
        sp_prefix(s, p)
    }
}

/// After `acc`, the operators of level `precedence` at `p` and the operands
/// of the next level after each, grouped to the left.
pub open spec fn sp_chain(s: Seq<char>, p: int, precedence: u8, acc: ExprV) -> Parsed<ExprV>
    decreases s.len() - p, 0int,
{
    if p < 0 || p > s.len() || precedence == 0 || precedence > 5 {
        Parsed::Fail(false)
    } else {
        match sp_infix_op(s, p, precedence) {
            None => Parsed::Done(acc, p),
            Some((op, q)) => if !moved(s, p, q) {
                Parsed::Fail(true)
            } else {
                match sp_expr(s, q, (precedence + 1) as u8) {
                    Parsed::Done(right, r) => if !moved(s, q, r) {
                        Parsed::Fail(true)
                    } else {
                        sp_chain(
                            s,
                            r,
                            precedence,
                            ExprV::Binary(op, Box::new(acc), Box::new(right)),
                        )
                    },
                    Parsed::Fail(_) => Parsed::Fail(true),
                }
            },
        }
    }
}

/// After `acc`, the argument lists, field accesses, indexes, slices and
/// dereferences at `p`, applied from left to right.
pub open spec fn sp_postfix(s: Seq<char>, p: int, acc: ExprV) -> Parsed<ExprV>
    decreases s.len() - p, 3int,
{
    if p < 0 || p > s.len() {
        Parsed::Fail(false)
    } else {
        match sp_infix6(s, p) {
            Parsed::Done(partial, q) => if !moved(s, p, q) {
                Parsed::Fail(true)
            } else {
                sp_postfix(s, q, combine_from_v(partial, acc))
            },
            Parsed::Fail(true) => Parsed::Fail(true),
            Parsed::Fail(false) => Parsed::Done(acc, p),
        }
    }
}

/// An argument list at `p`: `()`, `(*expr)`, a tuple or a record.
pub open spec fn sp_arg(s: Seq<char>, p: int) -> Parsed<PartialAstV>
    decreases s.len() - p, 1int,
{
    match sp_unit_arg(s, p) {
        Parsed::Done(_, q) => Parsed::Done(PartialAstV::UnitCall, q),
        Parsed::Fail(_) => match sp_splat_arg(s, p) {
            Parsed::Done(e, q) => Parsed::Done(PartialAstV::SplatCall(e), q),
            Parsed::Fail(_) => match sp_tuple(s, p) {
                Parsed::Done(c, q) => Parsed::Done(PartialAstV::TupleCall(c), q),
                Parsed::Fail(_) => match sp_record(s, p) {
                    Parsed::Done(c, q) => Parsed::Done(PartialAstV::RecordCall(c), q),
                    Parsed::Fail(c) => Parsed::Fail(c),
                },
            },
        },
    }
}

/// A field access (`.len` for the length), an index, a slice or a
/// dereference `^` at `p`.
pub open spec fn sp_access(s: Seq<char>, p: int) -> Parsed<PartialAstV>
    decreases s.len() - p, 1int,
{
    match sp_property(s, p) {
        Parsed::Done(name, q) => Parsed::Done(
            if name == seq!['l', 'e', 'n'] {
                PartialAstV::Len
            } else {
                PartialAstV::Property(name)
            },
            q,
        ),
        Parsed::Fail(true) => Parsed::Fail(true),
        Parsed::Fail(false) => match sp_index(s, p) {
            Parsed::Done(e, q) => Parsed::Done(PartialAstV::Index(e), q),
            Parsed::Fail(_) => match sp_range(s, p) {
                Parsed::Done(r, q) => Parsed::Done(PartialAstV::Slice(r), q),
                Parsed::Fail(true) => Parsed::Fail(true),
                Parsed::Fail(false) => if at(s, p, '^') {
                    Parsed::Done(PartialAstV::Deref, ws_end(s, p + 1))
                } else {
                    Parsed::Fail(false)
                },
            },
        },
    }
}

/// What may follow an expression at level 6, at `p`: an argument list, or
/// else an access.
pub open spec fn sp_infix6(s: Seq<char>, p: int) -> Parsed<PartialAstV>
    decreases s.len() - p, 2int,
{
    match sp_arg(s, p) {
        Parsed::Fail(false) => sp_access(s, p),
        other => other,
    }
}

/// `.name`, with `.` neither before `<` nor before `.`.
pub open spec fn sp_property(s: Seq<char>, p: int) -> Parsed<Seq<char>> {
    if at(s, p, '.') && !at(s, p + 1, '<') && !at(s, p + 1, '.') {
        match sp_ident(s, ws_end(s, p + 1)) {
            Parsed::Done(name, q) => Parsed::Done(name, ws_end(s, q)),
            Parsed::Fail(_) => Parsed::Fail(true),
        }
    } else {
        Parsed::Fail(false)
    }
}

/// `[expr]`; a failure is reported as not having consumed input, as the
/// grammar may go back to try a slice.
pub open spec fn sp_index(s: Seq<char>, p: int) -> Parsed<ExprV>
    decreases s.len() - p, 0int,
{
    if p < 0 || !at(s, p, '[') {
        Parsed::Fail(false)
    } else {
        proof {
            lemma_ws_end(s, p + 1);
        }
        match sp_expr(s, ws_end(s, p + 1), 0) {
            Parsed::Done(e, q) => if at(s, q, ']') {
                Parsed::Done(e, ws_end(s, q + 1))
            } else {
                Parsed::Fail(false)
            },
            Parsed::Fail(_) => Parsed::Fail(false),
        }
    }
}

/// `()`; a failure is reported as not having consumed input.
pub open spec fn sp_unit_arg(s: Seq<char>, p: int) -> Parsed<()> {
    if at(s, p, '(') && at(s, ws_end(s, p + 1), ')') {
        Parsed::Done((), ws_end(s, ws_end(s, p + 1) + 1))
    } else {
        Parsed::Fail(false)
    }
}

/// `(*expr)`, with an optional `,` before `)`; a failure is reported as not
/// having consumed input.
pub open spec fn sp_splat_arg(s: Seq<char>, p: int) -> Parsed<ExprV>
    decreases s.len() - p, 0int,
{
    if p >= 0 && at(s, p, '(') && at(s, ws_end(s, p + 1), '*') {
        let q = ws_end(s, p + 1);
        proof {
            lemma_ws_end(s, p + 1);
            lemma_ws_end(s, q + 1);
        }
        match sp_expr(s, ws_end(s, q + 1), 0) {
            Parsed::Done(e, r) => {
                let t = if at(s, r, ',') {
                    ws_end(s, r + 1)
                } else {
                    r
                };
                if at(s, t, ')') {
                    Parsed::Done(e, ws_end(s, t + 1))
                } else {
                    Parsed::Fail(false)
                }
            },
            Parsed::Fail(_) => Parsed::Fail(false),
        }
    } else {
        Parsed::Fail(false)
    }
}

/// `(expr)`; a failure is reported as not having consumed input.
pub open spec fn sp_group(s: Seq<char>, p: int) -> Parsed<ExprV>
    decreases s.len() - p, 0int,
{
    if p >= 0 && at(s, p, '(') {
        proof {
            lemma_ws_end(s, p + 1);
        }
        match sp_expr(s, ws_end(s, p + 1), 0) {
            Parsed::Done(e, q) => if at(s, q, ')') {
                Parsed::Done(e, ws_end(s, q + 1))
            } else {
                Parsed::Fail(false)
            },
            Parsed::Fail(_) => Parsed::Fail(false),
        }
    } else {
        Parsed::Fail(false)
    }
}

/// A tuple `(a, b, *rest, c)` at `p`; a failure is reported as not having
/// consumed input, as every use of it may go back to try a record.
pub open spec fn sp_tuple(s: Seq<char>, p: int) -> Parsed<CollectionV<ExprV>>
    decreases s.len() - p, 0int,
{
    if p >= 0 && at(s, p, '(') {
        proof {
            lemma_ws_end(s, p + 1);
        }
        match sp_expr_list(s, ws_end(s, p + 1)) {
            Parsed::Done(c, q) => if at(s, q, ')') {
                Parsed::Done(c, ws_end(s, q + 1))
            } else {
                Parsed::Fail(false)
            },
            Parsed::Fail(_) => Parsed::Fail(false),
        }
    } else {
        Parsed::Fail(false)
    }
}

/// A record `(a = x, = y, *rest)` at `p`; its field names must differ.
pub open spec fn sp_record(s: Seq<char>, p: int) -> Parsed<CollectionV<(Seq<char>, ExprV)>>
    decreases s.len() - p, 0int,
{
    if p >= 0 && at(s, p, '(') {
        proof {
            lemma_ws_end(s, p + 1);
        }
        match sp_field_list(s, ws_end(s, p + 1)) {
            Parsed::Done(c, q) => if names_unique(record_names(c)) && at(s, q, ')') {
                Parsed::Done(c, ws_end(s, q + 1))
            } else {
                Parsed::Fail(true)
            },
            Parsed::Fail(_) => Parsed::Fail(true),
        }
    } else {
        Parsed::Fail(false)
    }
}

/// `* expr`, the splat of a tuple or a record.
pub open spec fn sp_splat(s: Seq<char>, p: int) -> Parsed<ExprV>
    decreases s.len() - p, 0int,
{
    if p >= 0 && at(s, p, '*') {
        proof {
            lemma_ws_end(s, p + 1);
        }
        match sp_expr(s, ws_end(s, p + 1), 0) {
            Parsed::Done(e, q) => Parsed::Done(e, q),
            Parsed::Fail(_) => Parsed::Fail(true),
        }
    } else {
        Parsed::Fail(false)
    }
}

// Lists of expressions: `a, b, *rest, c, d,` or `a, b, c,`.

/// Expressions each followed by `,`, from `p`, after `acc`; stops before
/// what is not an expression.
pub open spec fn sp_lead_exprs(s: Seq<char>, p: int, acc: Seq<ExprV>) -> Parsed<Seq<ExprV>>
    decreases s.len() - p, 12int,
{
    if p < 0 || p > s.len() {
        Parsed::Fail(false)
    } else {
        match sp_expr(s, p, 0) {
            Parsed::Done(e, q) => if !moved(s, p, q) {
                Parsed::Fail(true)
            } else if at(s, q, ',') {
                proof {
                    lemma_ws_end(s, q + 1);
                }
                sp_lead_exprs(s, ws_end(s, q + 1), acc.push(e))
            } else {
                Parsed::Fail(true)
            },
            Parsed::Fail(true) => Parsed::Fail(true),
            Parsed::Fail(false) => Parsed::Done(acc, p),
        }
    }
}

/// After an expression, `, expr` repeated from `p`, after `acc`; a final
/// `,` is read.
pub open spec fn sp_exprs_more(s: Seq<char>, p: int, acc: Seq<ExprV>) -> Parsed<Seq<ExprV>>
    decreases s.len() - p, 0int,
{
    if p < 0 || p > s.len() || !at(s, p, ',') {
        Parsed::Done(acc, p)
    } else {
        proof {
            lemma_ws_end(s, p + 1);
        }
        let q = ws_end(s, p + 1);
        match sp_expr(s, q, 0) {
            Parsed::Done(e, r) => if !moved(s, q, r) {
                Parsed::Fail(true)
            } else {
                sp_exprs_more(s, r, acc.push(e))
            },
            Parsed::Fail(true) => Parsed::Fail(true),
            Parsed::Fail(false) => Parsed::Done(acc, q),
        }
    }
}

/// Expressions separated by `,`, possibly none, with an optional final `,`.
pub open spec fn sp_exprs_sep_end(s: Seq<char>, p: int) -> Parsed<Seq<ExprV>>
    decreases s.len() - p, 12int,
{
    if p < 0 || p > s.len() {
        Parsed::Fail(false)
    } else {
        match sp_expr(s, p, 0) {
            Parsed::Done(e, q) => if !moved(s, p, q) {
                Parsed::Fail(true)
            } else {
                sp_exprs_more(s, q, seq![e])
            },
            Parsed::Fail(true) => Parsed::Fail(true),
            Parsed::Fail(false) => Parsed::Done(Seq::empty(), p),
        }
    }
}

/// A list with a splat: expressions each followed by `,`, the splat, then
/// optionally `,` and more expressions. A failure before the splat is
/// reported as not having consumed input.
pub open spec fn sp_exprs_with_splat(s: Seq<char>, p: int) -> Parsed<
    (Seq<ExprV>, ExprV, Seq<ExprV>),
>
    decreases s.len() - p, 13int,
{
    if p < 0 || p > s.len() {
        Parsed::Fail(false)
    } else {
        match sp_lead_exprs(s, p, Seq::empty()) {
            Parsed::Done(left, q) => if !(p <= q <= s.len()) {
                Parsed::Fail(true)
            } else {
                match sp_splat(s, q) {
                    Parsed::Done(splat, r) => if !moved(s, q, r) {
                        Parsed::Fail(true)
                    } else if at(s, r, ',') {
                        proof {
                            lemma_ws_end(s, r + 1);
                        }
                        match sp_exprs_sep_end(s, ws_end(s, r + 1)) {
                            Parsed::Done(right, t) => Parsed::Done((left, splat, right), t),
                            Parsed::Fail(_) => Parsed::Fail(true),
                        }
                    } else {
                        Parsed::Done((left, splat, Seq::empty()), r)
                    },
                    Parsed::Fail(_) => Parsed::Fail(false),
                }
            },
            Parsed::Fail(_) => Parsed::Fail(false),
        }
    }
}

/// The items of a tuple: with a splat if there is one, else without.
pub open spec fn sp_expr_list(s: Seq<char>, p: int) -> Parsed<CollectionV<ExprV>>
    decreases s.len() - p, 14int,
{
    match sp_exprs_with_splat(s, p) {
        Parsed::Done((left, splat, right), q) => Parsed::Done(
            CollectionV::WithSplat(left, Box::new(splat), right),
            q,
        ),
        Parsed::Fail(true) => Parsed::Fail(true),
        Parsed::Fail(false) => match sp_exprs_sep_end(s, p) {
            Parsed::Done(items, q) => Parsed::Done(CollectionV::Collection(items), q),
            Parsed::Fail(c) => Parsed::Fail(c),
        },
    }
}

// Lists of record fields, in the same shape.

/// A field `name = expr`, or `= expr` with the name the expression gives.
pub open spec fn sp_field(s: Seq<char>, p: int) -> Parsed<(Seq<char>, ExprV)>
    decreases s.len() - p, 0int,
{
    if p < 0 || p > s.len() {
        Parsed::Fail(false)
    } else {
        match sp_ident(s, p) {
            Parsed::Fail(true) => Parsed::Fail(true),
            other => {
                proof {
                    lemma_ident(s, p);
                    if let Parsed::Done(_, r) = other {
                        lemma_ws_end(s, r);
                    }
                }
                let q = match other {
                    Parsed::Done(_, r) => ws_end(s, r),
                    _ => p,
                };
                if !at(s, q, '=') {
                    Parsed::Fail(q > p)
                } else {
                    proof {
                        lemma_ws_end(s, q + 1);
                    }
                    match sp_expr(s, ws_end(s, q + 1), 0) {
                        Parsed::Done(e, r) => match other {
                            Parsed::Done(name, _) => Parsed::Done((name, e), r),
                            _ => match field_name_of(e) {
                                Some(name) => Parsed::Done((name, e), r),
                                None => Parsed::Fail(true),
                            },
                        },
                        Parsed::Fail(_) => Parsed::Fail(true),
                    }
                }
            },
        }
    }
}

/// Fields each followed by `,`, from `p`, after `acc`.
pub open spec fn sp_lead_fields(s: Seq<char>, p: int, acc: Seq<(Seq<char>, ExprV)>) -> Parsed<
    Seq<(Seq<char>, ExprV)>,
>
    decreases s.len() - p, 12int,
{
    if p < 0 || p > s.len() {
        Parsed::Fail(false)
    } else {
        match sp_field(s, p) {
            Parsed::Done(f, q) => if !moved(s, p, q) {
                Parsed::Fail(true)
            } else if at(s, q, ',') {
                proof {
                    lemma_ws_end(s, q + 1);
                }
                sp_lead_fields(s, ws_end(s, q + 1), acc.push(f))
            } else {
                Parsed::Fail(true)
            },
            Parsed::Fail(true) => Parsed::Fail(true),
            Parsed::Fail(false) => Parsed::Done(acc, p),
        }
    }
}

/// After a field, `, field` repeated from `p`, after `acc`.
pub open spec fn sp_fields_more(s: Seq<char>, p: int, acc: Seq<(Seq<char>, ExprV)>) -> Parsed<
    Seq<(Seq<char>, ExprV)>,
>
    decreases s.len() - p, 0int,
{
    if p < 0 || p > s.len() || !at(s, p, ',') {
        Parsed::Done(acc, p)
    } else {
        proof {
            lemma_ws_end(s, p + 1);
        }
        let q = ws_end(s, p + 1);
        match sp_field(s, q) {
            Parsed::Done(f, r) => if !moved(s, q, r) {
                Parsed::Fail(true)
            } else {
                sp_fields_more(s, r, acc.push(f))
            },
            Parsed::Fail(true) => Parsed::Fail(true),
            Parsed::Fail(false) => Parsed::Done(acc, q),
        }
    }
}

/// Fields separated by `,`, possibly none, with an optional final `,`.
pub open spec fn sp_fields_sep_end(s: Seq<char>, p: int) -> Parsed<Seq<(Seq<char>, ExprV)>>
    decreases s.len() - p, 12int,
{
    if p < 0 || p > s.len() {
        Parsed::Fail(false)
    } else {
        match sp_field(s, p) {
            Parsed::Done(f, q) => if !moved(s, p, q) {
                Parsed::Fail(true)
            } else {
                sp_fields_more(s, q, seq![f])
            },
            Parsed::Fail(true) => Parsed::Fail(true),
            Parsed::Fail(false) => Parsed::Done(Seq::empty(), p),
        }
    }
}

/// Fields with a splat among them.
pub open spec fn sp_fields_with_splat(s: Seq<char>, p: int) -> Parsed<
    (Seq<(Seq<char>, ExprV)>, ExprV, Seq<(Seq<char>, ExprV)>),
>
    decreases s.len() - p, 13int,
{
    if p < 0 || p > s.len() {
        Parsed::Fail(false)
    } else {
        match sp_lead_fields(s, p, Seq::empty()) {
            Parsed::Done(left, q) => if !(p <= q <= s.len()) {
                Parsed::Fail(true)
            } else {
                match sp_splat(s, q) {
                    Parsed::Done(splat, r) => if !moved(s, q, r) {
                        Parsed::Fail(true)
                    } else if at(s, r, ',') {
                        proof {
                            lemma_ws_end(s, r + 1);
                        }
                        match sp_fields_sep_end(s, ws_end(s, r + 1)) {
                            Parsed::Done(right, t) => Parsed::Done((left, splat, right), t),
                            Parsed::Fail(_) => Parsed::Fail(true),
                        }
                    } else {
                        Parsed::Done((left, splat, Seq::empty()), r)
                    },
                    Parsed::Fail(_) => Parsed::Fail(false),
                }
            },
            Parsed::Fail(_) => Parsed::Fail(false),
        }
    }
}

/// The items of a record: with a splat if there is one, else without.
pub open spec fn sp_field_list(s: Seq<char>, p: int) -> Parsed<CollectionV<(Seq<char>, ExprV)>>
    decreases s.len() - p, 14int,
{
    match sp_fields_with_splat(s, p) {
        Parsed::Done((left, splat, right), q) => Parsed::Done(
            CollectionV::WithSplat(left, Box::new(splat), right),
            q,
        ),
        Parsed::Fail(true) => Parsed::Fail(true),
        Parsed::Fail(false) => match sp_fields_sep_end(s, p) {
            Parsed::Done(items, q) => Parsed::Done(CollectionV::Collection(items), q),
            Parsed::Fail(c) => Parsed::Fail(c),
        },
    }
}

// Arrays and ranges.

/// A range `[a..b]` at `p`, each end optional; the operator is `.` or `>`
/// then `.` or `<`.
pub open spec fn sp_range(s: Seq<char>, p: int) -> Parsed<RangeV>
    decreases s.len() - p, 0int,
{
    if p < 0 || !at(s, p, '[') {
        Parsed::Fail(false)
    } else {
        proof {
            lemma_ws_end(s, p + 1);
        }
        let q = ws_end(s, p + 1);
        match sp_expr(s, q, 0) {
            Parsed::Fail(true) => Parsed::Fail(true),
            Parsed::Fail(false) => sp_range_from(s, q, None),
            Parsed::Done(left, r) => if !moved(s, q, r) {
                Parsed::Fail(true)
            } else {
                sp_range_from(s, r, Some(left))
            },
        }
    }
}

/// The rest of a range from its operator at `p`, after the lower end.
pub open spec fn sp_range_from(s: Seq<char>, p: int, left: Option<ExprV>) -> Parsed<RangeV>
    decreases s.len() - p, 0int,
{
    if p < 0 || p > s.len() {
        Parsed::Fail(false)
    } else {
        match sp_range_op(s, p) {
            Parsed::Done((left_kind, right_kind), q) => {
                proof {
                    lemma_ws_end(s, q);
                }
                let q1 = ws_end(s, q);
                match sp_expr(s, q1, 0) {
                    Parsed::Fail(true) => Parsed::Fail(true),
                    other => {
                        let (right, q2) = match other {
                            Parsed::Done(e, r) => (Some(e), r),
                            _ => (None, q1),
                        };
                        if !at(s, q2, ']') {
                            Parsed::Fail(true)
                        } else {
                            Parsed::Done(
                                RangeV {
                                    left: match left {
                                        Some(e) => Some((left_kind, Box::new(e))),
                                        None => None,
                                    },
                                    right: match right {
                                        Some(e) => Some((right_kind, Box::new(e))),
                                        None => None,
                                    },
                                },
                                ws_end(s, q2 + 1),
                            )
                        }
                    },
                }
            },
            Parsed::Fail(_) => Parsed::Fail(true),
        }
    }
}

/// An element of an array: `*` and a collection to spread, or a value.
pub open spec fn sp_element(s: Seq<char>, p: int) -> Parsed<(ExprV, ElementKind)>
    decreases s.len() - p, 12int,
{
    if p < 0 || p > s.len() {
        Parsed::Fail(false)
    } else if at(s, p, '*') {
        proof {
            lemma_ws_end(s, p + 1);
        }
        match sp_expr(s, ws_end(s, p + 1), 0) {
            Parsed::Done(e, q) => Parsed::Done((e, ElementKind::Splat), q),
            Parsed::Fail(_) => Parsed::Fail(true),
        }
    } else {
        proof {
            lemma_ws_end(s, p);
        }
        let q = ws_end(s, p);
        match sp_expr(s, q, 0) {
            Parsed::Done(e, r) => Parsed::Done((e, ElementKind::Element), r),
            Parsed::Fail(c) => Parsed::Fail(c || q > p),
        }
    }
}

/// After an element, `, element` repeated from `p`, after `acc`.
pub open spec fn sp_elements_more(s: Seq<char>, p: int, acc: Seq<(ExprV, ElementKind)>) -> Parsed<
    Seq<(ExprV, ElementKind)>,
>
    decreases s.len() - p, 0int,
{
    if p < 0 || p > s.len() || !at(s, p, ',') {
        Parsed::Done(acc, p)
    } else {
        proof {
            lemma_ws_end(s, p + 1);
        }
        let q = ws_end(s, p + 1);
        match sp_element(s, q) {
            Parsed::Done(e, r) => if !moved(s, q, r) {
                Parsed::Fail(true)
            } else {
                sp_elements_more(s, r, acc.push(e))
            },
            Parsed::Fail(true) => Parsed::Fail(true),
            Parsed::Fail(false) => Parsed::Done(acc, q),
        }
    }
}

/// Elements separated by `,`, possibly none, with an optional final `,`.
pub open spec fn sp_elements(s: Seq<char>, p: int) -> Parsed<Seq<(ExprV, ElementKind)>>
    decreases s.len() - p, 13int,
{
    if p < 0 || p > s.len() {
        Parsed::Fail(false)
    } else {
        match sp_element(s, p) {
            Parsed::Done(e, q) => if !moved(s, p, q) {
                Parsed::Fail(true)
            } else {
                sp_elements_more(s, q, seq![e])
            },
            Parsed::Fail(true) => Parsed::Fail(true),
            Parsed::Fail(false) => Parsed::Done(Seq::empty(), p),
        }
    }
}

/// An array `[a, *b, c]` at `p`.
pub open spec fn sp_array(s: Seq<char>, p: int) -> Parsed<Seq<(ExprV, ElementKind)>>
    decreases s.len() - p, 0int,
{
    if p < 0 || !at(s, p, '[') {
        Parsed::Fail(false)
    } else {
        proof {
            lemma_ws_end(s, p + 1);
        }
        match sp_elements(s, ws_end(s, p + 1)) {
            Parsed::Done(items, q) => if at(s, q, ']') {
                Parsed::Done(items, ws_end(s, q + 1))
            } else {
                Parsed::Fail(true)
            },
            Parsed::Fail(_) => Parsed::Fail(true),
        }
    }
}

/// A range, or else an array, at `p`.
pub open spec fn sp_array_range(s: Seq<char>, p: int) -> Parsed<ExprV>
    decreases s.len() - p, 1int,
{
    match sp_range(s, p) {
        Parsed::Done(r, q) => Parsed::Done(ExprV::ArrayRange(r), q),
        Parsed::Fail(_) => match sp_array(s, p) {
            Parsed::Done(items, q) => Parsed::Done(ExprV::Array(items), q),
            Parsed::Fail(c) => Parsed::Fail(c),
        },
    }
}

/// `()`, `(*expr)`, `(expr)`, a tuple or a record at `p`, tried in this
/// order.
pub open spec fn sp_tuple_record_group(s: Seq<char>, p: int) -> Parsed<ExprV>
    decreases s.len() - p, 1int,
{
    match sp_unit_arg(s, p) {
        Parsed::Done(_, q) => Parsed::Done(ExprV::Unit, q),
        Parsed::Fail(_) => match sp_splat_arg(s, p) {
            Parsed::Done(e, q) => Parsed::Done(ExprV::Splat(Box::new(e)), q),
            Parsed::Fail(_) => match sp_group(s, p) {
                Parsed::Done(e, q) => Parsed::Done(e, q),
                Parsed::Fail(_) => match sp_tuple(s, p) {
                    Parsed::Done(c, q) => Parsed::Done(ExprV::Tuple(c), q),
                    Parsed::Fail(_) => match sp_record(s, p) {
                        Parsed::Done(c, q) => Parsed::Done(ExprV::Record(c), q),
                        Parsed::Fail(c) => Parsed::Fail(c),
                    },
                },
            },
        },
    }
}

/// The prefix operator at `p` and the number of characters it takes: `!`,
/// `&`, `-`, `>` or the keyword `clone`.
pub open spec fn unary_token(s: Seq<char>, p: int) -> Option<(UnaryType, int)> {
    if at(s, p, '!') {
        Some((UnaryType::Not, 1))
    } else if at(s, p, '&') {
        Some((UnaryType::Ref, 1))
    } else if at(s, p, '-') {
        Some((UnaryType::Minus, 1))
    } else if at(s, p, '>') {
        Some((UnaryType::Move, 1))
    } else if sp_keyword(s, p, seq!['c', 'l', 'o', 'n', 'e']) is Done {
        Some((UnaryType::Clone, 5))
    } else {
        None
    }
}

/// A prefix operator and the expression of level 6 after it.
pub open spec fn sp_unary(s: Seq<char>, p: int) -> Parsed<ExprV>
    decreases s.len() - p, 0int,
{
    match unary_token(s, p) {
        Some((op, k)) => {
            proof {
                lemma_ws_end(s, p + k);
            }
            match sp_expr(s, ws_end(s, p + k), 6) {
                Parsed::Done(e, q) => Parsed::Done(ExprV::Unary(op, Box::new(e)), q),
                Parsed::Fail(_) => Parsed::Fail(true),
            }
        },
        None => Parsed::Fail(false),
    }
}

/// `@tag`, then the payload, an expression of level 6, if there is one.
pub open spec fn sp_tag(s: Seq<char>, p: int) -> Parsed<ExprV>
    decreases s.len() - p, 0int,
{
    if p < 0 || !at(s, p, '@') {
        Parsed::Fail(false)
    } else {
        proof {
            lemma_ws_end(s, p + 1);
        }
        match sp_ident(s, ws_end(s, p + 1)) {
            Parsed::Done(name, q) => {
                proof {
                    lemma_ident(s, ws_end(s, p + 1));
                    lemma_ws_end(s, q);
                }
                let q1 = ws_end(s, q);
                match sp_expr(s, q1, 6) {
                    Parsed::Done(e, r) => Parsed::Done(ExprV::Tag(name, Some(Box::new(e))), r),
                    Parsed::Fail(true) => Parsed::Fail(true),
                    Parsed::Fail(false) => Parsed::Done(ExprV::Tag(name, None), q1),
                }
            },
            Parsed::Fail(_) => Parsed::Fail(true),
        }
    }
}

/// The expression after `break` or `return`, if there is one, from `p`.
pub open spec fn sp_jump_value(s: Seq<char>, p: int) -> Parsed<Option<Box<ExprV>>>
    decreases s.len() - p, 12int,
{
    if p < 0 || p > s.len() {
        Parsed::Fail(false)
    } else {
        match sp_expr(s, p, 0) {
            Parsed::Done(e, r) => Parsed::Done(Some(Box::new(e)), r),
            Parsed::Fail(true) => Parsed::Fail(true),
            Parsed::Fail(false) => Parsed::Done(None, p),
        }
    }
}

/// `continue`, or `return` with an optional expression.
pub open spec fn sp_continue_return(s: Seq<char>, p: int) -> Parsed<ExprV>
    decreases s.len() - p, 0int,
{
    let cont = seq!['c', 'o', 'n', 't', 'i', 'n', 'u', 'e'];
    let ret = seq!['r', 'e', 't', 'u', 'r', 'n'];
    if p < 0 || p > s.len() {
        Parsed::Fail(false)
    } else {
        match sp_keyword(s, p, cont) {
            Parsed::Done(_, q) => Parsed::Done(ExprV::Jump(JumpV::Continue), ws_end(s, q)),
            Parsed::Fail(true) => Parsed::Fail(true),
            Parsed::Fail(false) => match sp_keyword(s, p, ret) {
                Parsed::Done(_, q) => {
                    proof {
                        lemma_ws_end(s, q);
                    }
                    match sp_jump_value(s, ws_end(s, q)) {
                        Parsed::Done(e, r) => Parsed::Done(ExprV::Jump(JumpV::Return(e)), r),
                        Parsed::Fail(_) => Parsed::Fail(true),
                    }
                },
                Parsed::Fail(c) => Parsed::Fail(c),
            },
        }
    }
}

/// `break` and `return`, each with an optional expression, and `continue`.
pub open spec fn sp_jump(s: Seq<char>, p: int) -> Parsed<ExprV>
    decreases s.len() - p, 1int,
{
    let brk = seq!['b', 'r', 'e', 'a', 'k'];
    if p < 0 || p > s.len() {
        Parsed::Fail(false)
    } else {
        match sp_keyword(s, p, brk) {
            Parsed::Done(_, q) => {
                proof {
                    lemma_ws_end(s, q);
                }
                match sp_jump_value(s, ws_end(s, q)) {
                    Parsed::Done(e, r) => Parsed::Done(ExprV::Jump(JumpV::Break(e)), r),
                    Parsed::Fail(_) => Parsed::Fail(true),
                }
            },
            Parsed::Fail(true) => Parsed::Fail(true),
            Parsed::Fail(false) => sp_continue_return(s, p),
        }
    }
}

/// The elements of an array of the bytes of a string literal.
pub open spec fn byte_elements(bytes: Seq<u8>) -> Seq<(ExprV, ElementKind)> {
    bytes.map_values(
        |b: u8| (ExprV::Literal(LiteralV::UInt(b as u64)), ElementKind::Element),
    )
}

/// A prefix operator, a tag, a variable, control flow, a literal or a
/// jump, at `p`.
pub open spec fn sp_prefix_word(s: Seq<char>, p: int) -> Parsed<ExprV>
    decreases s.len() - p, 2int,
{
    match sp_unary(s, p) {
        Parsed::Fail(false) => match sp_tag(s, p) {
            Parsed::Fail(false) => match sp_ident(s, p) {
                Parsed::Done(name, q) => Parsed::Done(ExprV::Place(PlaceV::Var(name)), ws_end(s, q)),
                Parsed::Fail(_) => match sp_control_flow(s, p) {
                    Parsed::Done(c, q) => Parsed::Done(ExprV::ControlFlow(c), q),
                    Parsed::Fail(true) => Parsed::Fail(true),
                    Parsed::Fail(false) => match lexed(s, sp_literal(s, p)) {
                        Parsed::Done(l, q) => Parsed::Done(ExprV::Literal(l), q),
                        Parsed::Fail(true) => Parsed::Fail(true),
                        Parsed::Fail(false) => sp_jump(s, p),
                    },
                },
            },
            other => other,
        },
        other => other,
    }
}

/// An expression that starts with its own token, at `p`: a function; a
/// unit, splat, group, tuple or record; a range or array; a string literal
/// (an array of its bytes); else a prefix operator, a tag, a variable,
/// control flow, a literal or a jump.
pub open spec fn sp_prefix(s: Seq<char>, p: int) -> Parsed<ExprV>
    decreases s.len() - p, 3int,
{
    match sp_fun(s, p) {
        Parsed::Fail(false) => match sp_tuple_record_group(s, p) {
            Parsed::Fail(false) => match sp_array_range(s, p) {
                Parsed::Fail(false) => match lexed(s, sp_string_literal(s, p)) {
                    Parsed::Done(bytes, q) => Parsed::Done(ExprV::Array(byte_elements(bytes)), q),
                    Parsed::Fail(true) => Parsed::Fail(true),
                    Parsed::Fail(false) => sp_prefix_word(s, p),
                },
                other => other,
            },
            other => other,
        },
        other => other,
    }
}

// Functions, control flow and statements.

/// `(params) => body`, a function, at `p`. A failure before the arrow is
/// reported as not having consumed input.
pub open spec fn sp_fun(s: Seq<char>, p: int) -> Parsed<ExprV>
    decreases s.len() - p, 0int,
{
    match sp_parameter(s, p) {
        Parsed::Done(param, q) => if moved(s, p, q) && pair_at(s, q, '=', '>') {
            proof {
                lemma_ws_end(s, q + 2);
            }
            match sp_expr(s, ws_end(s, q + 2), 0) {
                Parsed::Done(body, r) => Parsed::Done(ExprV::Fun(param, Box::new(body)), r),
                Parsed::Fail(_) => Parsed::Fail(true),
            }
        } else {
            Parsed::Fail(false)
        },
        Parsed::Fail(_) => Parsed::Fail(false),
    }
}

/// What a statement parser reads: a statement, or an expression without a
/// `;` after it, which gives a block its value when it comes last.
pub enum StatementReturnV {
    Statement(StatementV),
    Return(ExprV),
}

/// A block `{ statements }` at `p`.
pub open spec fn sp_block(s: Seq<char>, p: int) -> Parsed<BlockV>
    decreases s.len() - p, 0int,
{
    if p >= 0 && at(s, p, '{') {
        proof {
            lemma_ws_end(s, p + 1);
        }
        match sp_block_items(s, ws_end(s, p + 1), Seq::empty(), None) {
            Parsed::Done((statements, last), q) => if at(s, q, '}') {
                Parsed::Done(BlockV { statements, expr: last }, ws_end(s, q + 1))
            } else {
                Parsed::Fail(true)
            },
            Parsed::Fail(_) => Parsed::Fail(true),
        }
    } else {
        Parsed::Fail(false)
    }
}

/// The statements of a block from `p`, after `statements` and the value
/// `last` so far; a value that another statement follows becomes a
/// statement.
pub open spec fn sp_block_items(
    s: Seq<char>,
    p: int,
    statements: Seq<StatementV>,
    last: Option<Box<ExprV>>,
) -> Parsed<(Seq<StatementV>, Option<Box<ExprV>>)>
    decreases s.len() - p, 15int,
{
    if p < 0 || p > s.len() {
        Parsed::Fail(false)
    } else {
        match sp_statement_return(s, p, '}') {
            Parsed::Done(item, q) => if !moved(s, p, q) {
                Parsed::Fail(true)
            } else {
                let flushed = match last {
                    Some(e) => statements.push(StatementV::Expr(*e)),
                    None => statements,
                };
                match item {
                    StatementReturnV::Statement(st) => sp_block_items(s, q, flushed.push(st), None),
                    StatementReturnV::Return(e) => sp_block_items(s, q, flushed, Some(Box::new(e))),
                }
            },
            Parsed::Fail(true) => Parsed::Fail(true),
            Parsed::Fail(false) => Parsed::Done((statements, last), p),
        }
    }
}

/// A statement at `p`, in a block closed by `end`: control flow (a
/// statement with `;` after it, else the block's value), a declaration, a
/// function declaration, or an expression (a statement with `;` after it,
/// the block's value when `end` follows).
pub open spec fn sp_statement_return(s: Seq<char>, p: int, end: char) -> Parsed<StatementReturnV>
    decreases s.len() - p, 14int,
{
    match sp_control_flow(s, p) {
        Parsed::Done(c, q) => if at(s, q, ';') {
            Parsed::Done(
                StatementReturnV::Statement(StatementV::Expr(ExprV::ControlFlow(c))),
                ws_end(s, q + 1),
            )
        } else {
            Parsed::Done(StatementReturnV::Return(ExprV::ControlFlow(c)), q)
        },
        Parsed::Fail(true) => Parsed::Fail(true),
        Parsed::Fail(false) => match sp_declare(s, p) {
            Parsed::Done(st, q) => Parsed::Done(StatementReturnV::Statement(st), q),
            Parsed::Fail(true) => Parsed::Fail(true),
            Parsed::Fail(false) => match sp_fun_declare(s, p) {
                Parsed::Done(st, q) => Parsed::Done(StatementReturnV::Statement(st), q),
                Parsed::Fail(true) => Parsed::Fail(true),
                Parsed::Fail(false) => sp_expr_statement(s, p, end),
            },
        },
    }
}

/// `pattern = expr;` at `p`. A failure before the `=` is reported as not
/// having consumed input.
pub open spec fn sp_declare(s: Seq<char>, p: int) -> Parsed<StatementV>
    decreases s.len() - p, 0int,
{
    match sp_pattern(s, p) {
        Parsed::Done(pattern, q) => if moved(s, p, q) && at(s, q, '=') {
            proof {
                lemma_ws_end(s, q + 1);
            }
            match sp_expr(s, ws_end(s, q + 1), 0) {
                Parsed::Done(e, r) => if at(s, r, ';') {
                    Parsed::Done(StatementV::Declare(pattern, e), ws_end(s, r + 1))
                } else {
                    Parsed::Fail(true)
                },
                Parsed::Fail(_) => Parsed::Fail(true),
            }
        } else {
            Parsed::Fail(false)
        },
        Parsed::Fail(_) => Parsed::Fail(false),
    }
}

/// `name(params) => body` at `p`, the name right before the parameter. A
/// failure before the arrow is reported as not having consumed input.
pub open spec fn sp_fun_declare(s: Seq<char>, p: int) -> Parsed<StatementV>
    decreases s.len() - p, 0int,
{
    match sp_ident(s, p) {
        Parsed::Done(name, q) => match sp_parameter(s, q) {
            Parsed::Done(param, r) => if moved(s, p, r) && pair_at(s, r, '=', '>') {
                proof {
                    lemma_ws_end(s, r + 2);
                }
                match sp_fun_body(s, ws_end(s, r + 2)) {
                    Parsed::Done(body, t) => Parsed::Done(StatementV::FunDeclare(name, param, body), t),
                    Parsed::Fail(_) => Parsed::Fail(true),
                }
            } else {
                Parsed::Fail(false)
            },
            Parsed::Fail(_) => Parsed::Fail(false),
        },
        Parsed::Fail(_) => Parsed::Fail(false),
    }
}

/// The body of a function declaration: control flow with an optional `;`,
/// or an expression and `;`.
pub open spec fn sp_fun_body(s: Seq<char>, p: int) -> Parsed<ExprV>
    decreases s.len() - p, 12int,
{
    match sp_control_flow(s, p) {
        Parsed::Done(c, q) => Parsed::Done(
            ExprV::ControlFlow(c),
            if at(s, q, ';') {
                ws_end(s, q + 1)
            } else {
                q
            },
        ),
        Parsed::Fail(true) => Parsed::Fail(true),
        Parsed::Fail(false) => match sp_expr(s, p, 0) {
            Parsed::Done(e, q) => if at(s, q, ';') {
                Parsed::Done(e, ws_end(s, q + 1))
            } else {
                Parsed::Fail(true)
            },
            Parsed::Fail(c) => Parsed::Fail(c),
        },
    }
}

/// An expression statement at `p`: a parallel assignment or an expression,
/// then `;`, or the end `end` of the block without consuming it.
pub open spec fn sp_expr_statement(s: Seq<char>, p: int, end: char) -> Parsed<StatementReturnV>
    decreases s.len() - p, 13int,
{
    let e = match sp_parallel_assign(s, p) {
        Parsed::Fail(false) => sp_expr(s, p, 0),
        other => other,
    };
    match e {
        Parsed::Done(x, q) => if at(s, q, ';') {
            Parsed::Done(StatementReturnV::Statement(StatementV::Expr(x)), ws_end(s, q + 1))
        } else if at(s, q, end) {
            Parsed::Done(StatementReturnV::Return(x), q)
        } else {
            Parsed::Fail(true)
        },
        Parsed::Fail(c) => Parsed::Fail(c),
    }
}

/// A place: an expression of level 1 that is a place.
pub open spec fn sp_place(s: Seq<char>, p: int) -> Parsed<PlaceV>
    decreases s.len() - p, 11int,
{
    match sp_expr(s, p, 1) {
        Parsed::Done(ExprV::Place(place), q) => Parsed::Done(place, q),
        Parsed::Done(_, _) => Parsed::Fail(true),
        Parsed::Fail(c) => Parsed::Fail(c),
    }
}

/// After a place, `, place` repeated from `p`, after `acc`.
pub open spec fn sp_places_more(s: Seq<char>, p: int, acc: Seq<PlaceV>) -> Parsed<Seq<PlaceV>>
    decreases s.len() - p, 0int,
{
    if p < 0 || p > s.len() || !at(s, p, ',') {
        Parsed::Done(acc, p)
    } else {
        proof {
            lemma_ws_end(s, p + 1);
        }
        let q = ws_end(s, p + 1);
        match sp_place(s, q) {
            Parsed::Done(place, r) => if !moved(s, q, r) {
                Parsed::Fail(true)
            } else {
                sp_places_more(s, r, acc.push(place))
            },
            Parsed::Fail(_) => Parsed::Fail(true),
        }
    }
}

/// After an expression, `, expr` repeated from `p`, after `acc`; a `,`
/// must be followed by an expression.
pub open spec fn sp_exprs_sep_more(s: Seq<char>, p: int, acc: Seq<ExprV>) -> Parsed<Seq<ExprV>>
    decreases s.len() - p, 0int,
{
    if p < 0 || p > s.len() || !at(s, p, ',') {
        Parsed::Done(acc, p)
    } else {
        proof {
            lemma_ws_end(s, p + 1);
        }
        let q = ws_end(s, p + 1);
        match sp_expr(s, q, 0) {
            Parsed::Done(e, r) => if !moved(s, q, r) {
                Parsed::Fail(true)
            } else {
                sp_exprs_sep_more(s, r, acc.push(e))
            },
            Parsed::Fail(_) => Parsed::Fail(true),
        }
    }
}

/// The assignments of places to values, pairwise.
pub open spec fn zip_assign(places: Seq<PlaceV>, values: Seq<ExprV>) -> Seq<(PlaceV, ExprV)> {
    Seq::new(places.len(), |i: int| (places[i], values[i]))
}

/// `a, b <- x, y` at `p`: places separated by `,`, `<-`, then as many
/// values separated by `,`. A failure before `<-` is reported as not having
/// consumed input.
pub open spec fn sp_parallel_assign(s: Seq<char>, p: int) -> Parsed<ExprV>
    decreases s.len() - p, 12int,
{
    match sp_place(s, p) {
        Parsed::Done(first, q) => if !moved(s, p, q) {
            Parsed::Fail(false)
        } else {
            match sp_places_more(s, q, seq![first]) {
                Parsed::Done(places, r) => if q <= r <= s.len() && pair_at(s, r, '<', '-') {
                    proof {
                        lemma_ws_end(s, r + 2);
                    }
                    let r2 = ws_end(s, r + 2);
                    match sp_expr(s, r2, 0) {
                        Parsed::Done(e, t) => if !moved(s, r2, t) {
                            Parsed::Fail(true)
                        } else {
                            match sp_exprs_sep_more(s, t, seq![e]) {
                                Parsed::Done(values, u) => if places.len() == values.len() {
                                    Parsed::Done(ExprV::Assign(zip_assign(places, values)), u)
                                } else {
                                    Parsed::Fail(true)
                                },
                                Parsed::Fail(_) => Parsed::Fail(true),
                            }
                        },
                        Parsed::Fail(_) => Parsed::Fail(true),
                    }
                } else {
                    Parsed::Fail(false)
                },
                Parsed::Fail(_) => Parsed::Fail(false),
            }
        },
        Parsed::Fail(_) => Parsed::Fail(false),
    }
}

/// Control flow at `p`: a block, `if`, `for`, `while`, `loop` or `match`.
pub open spec fn sp_control_flow(s: Seq<char>, p: int) -> Parsed<ControlFlowV>
    decreases s.len() - p, 1int,
{
    match sp_block(s, p) {
        Parsed::Done(b, q) => Parsed::Done(ControlFlowV::Block(b), q),
        Parsed::Fail(true) => Parsed::Fail(true),
        Parsed::Fail(false) => match sp_if(s, p) {
            Parsed::Fail(false) => match sp_for(s, p) {
                Parsed::Fail(false) => match sp_while(s, p) {
                    Parsed::Fail(false) => match sp_loop(s, p) {
                        Parsed::Fail(false) => sp_match(s, p),
                        other => other,
                    },
                    other => other,
                },
                other => other,
            },
            other => other,
        },
    }
}

/// `if condition { .. }` and its optional `else` part, at `p`.
pub open spec fn sp_if(s: Seq<char>, p: int) -> Parsed<ControlFlowV>
    decreases s.len() - p, 0int,
{
    if p >= 0 && sp_keyword(s, p, seq!['i', 'f']) is Done {
        proof {
            lemma_ws_end(s, p + 2);
        }
        let q = ws_end(s, p + 2);
        match sp_expr(s, q, 0) {
            Parsed::Done(condition, r) => if !moved(s, q, r) {
                Parsed::Fail(true)
            } else {
                match sp_block(s, r) {
                    Parsed::Done(body, t) => if !moved(s, r, t) {
                        Parsed::Fail(true)
                    } else {
                        match sp_else(s, t) {
                            Parsed::Done(else_part, u) => Parsed::Done(
                                ControlFlowV::If(Box::new(condition), body, else_part),
                                u,
                            ),
                            Parsed::Fail(_) => Parsed::Fail(true),
                        }
                    },
                    Parsed::Fail(_) => Parsed::Fail(true),
                }
            },
            Parsed::Fail(_) => Parsed::Fail(true),
        }
    } else {
        Parsed::Fail(false)
    }
}

/// The optional `else` part of an `if` at `p`: `else` and a block or another
/// `if`.
pub open spec fn sp_else(s: Seq<char>, p: int) -> Parsed<Option<Box<ControlFlowV>>>
    decreases s.len() - p, 0int,
{
    if p < 0 || p > s.len() {
        Parsed::Fail(false)
    } else {
        match sp_keyword(s, p, seq!['e', 'l', 's', 'e']) {
            Parsed::Done(_, q) => {
                proof {
                    lemma_ws_end(s, q);
                }
                let q1 = ws_end(s, q);
                match sp_block(s, q1) {
                    Parsed::Done(b, r) => Parsed::Done(Some(Box::new(ControlFlowV::Block(b))), r),
                    Parsed::Fail(true) => Parsed::Fail(true),
                    Parsed::Fail(false) => match sp_if(s, q1) {
                        Parsed::Done(i, r) => Parsed::Done(Some(Box::new(i)), r),
                        Parsed::Fail(_) => Parsed::Fail(true),
                    },
                }
            },
            Parsed::Fail(true) => Parsed::Fail(true),
            Parsed::Fail(false) => Parsed::Done(None, p),
        }
    }
}

/// `for pattern in expr { .. }` at `p`.
pub open spec fn sp_for(s: Seq<char>, p: int) -> Parsed<ControlFlowV>
    decreases s.len() - p, 0int,
{
    if p >= 0 && sp_keyword(s, p, seq!['f', 'o', 'r']) is Done {
        proof {
            lemma_ws_end(s, p + 3);
        }
        match sp_pattern(s, ws_end(s, p + 3)) {
            Parsed::Done(pattern, r) => match sp_keyword(s, r, seq!['i', 'n']) {
                Parsed::Done(_, r1) => {
                    let r2 = ws_end(s, r1);
                    if !moved(s, p, r2) {
                        Parsed::Fail(true)
                    } else {
                        match sp_expr(s, r2, 0) {
                            Parsed::Done(e, t) => if !moved(s, r2, t) {
                                Parsed::Fail(true)
                            } else {
                                match sp_block(s, t) {
                                    Parsed::Done(body, u) => Parsed::Done(
                                        ControlFlowV::For(pattern, Box::new(e), body),
                                        u,
                                    ),
                                    Parsed::Fail(_) => Parsed::Fail(true),
                                }
                            },
                            Parsed::Fail(_) => Parsed::Fail(true),
                        }
                    }
                },
                Parsed::Fail(_) => Parsed::Fail(true),
            },
            Parsed::Fail(_) => Parsed::Fail(true),
        }
    } else {
        Parsed::Fail(false)
    }
}

/// `while condition { .. }` at `p`.
pub open spec fn sp_while(s: Seq<char>, p: int) -> Parsed<ControlFlowV>
    decreases s.len() - p, 0int,
{
    if p >= 0 && sp_keyword(s, p, seq!['w', 'h', 'i', 'l', 'e']) is Done {
        proof {
            lemma_ws_end(s, p + 5);
        }
        let q = ws_end(s, p + 5);
        match sp_expr(s, q, 0) {
            Parsed::Done(condition, r) => if !moved(s, q, r) {
                Parsed::Fail(true)
            } else {
                match sp_block(s, r) {
                    Parsed::Done(body, t) => Parsed::Done(
                        ControlFlowV::While(Box::new(condition), body),
                        t,
                    ),
                    Parsed::Fail(_) => Parsed::Fail(true),
                }
            },
            Parsed::Fail(_) => Parsed::Fail(true),
        }
    } else {
        Parsed::Fail(false)
    }
}

/// `loop { .. }` at `p`.
pub open spec fn sp_loop(s: Seq<char>, p: int) -> Parsed<ControlFlowV>
    decreases s.len() - p, 0int,
{
    if p >= 0 && sp_keyword(s, p, seq!['l', 'o', 'o', 'p']) is Done {
        proof {
            lemma_ws_end(s, p + 4);
        }
        match sp_block(s, ws_end(s, p + 4)) {
            Parsed::Done(body, t) => Parsed::Done(ControlFlowV::Loop(body), t),
            Parsed::Fail(_) => Parsed::Fail(true),
        }
    } else {
        Parsed::Fail(false)
    }
}

/// `match expr { arms }` at `p`.
pub open spec fn sp_match(s: Seq<char>, p: int) -> Parsed<ControlFlowV>
    decreases s.len() - p, 0int,
{
    if p >= 0 && sp_keyword(s, p, seq!['m', 'a', 't', 'c', 'h']) is Done {
        proof {
            lemma_ws_end(s, p + 5);
        }
        let q = ws_end(s, p + 5);
        match sp_expr(s, q, 0) {
            Parsed::Done(e, r) => if !moved(s, q, r) || !at(s, r, '{') {
                Parsed::Fail(true)
            } else {
                proof {
                    lemma_ws_end(s, r + 1);
                }
                let r1 = ws_end(s, r + 1);
                match sp_arms(s, r1, Seq::empty()) {
                    Parsed::Done(arms, t) => if at(s, t, '}') {
                        Parsed::Done(ControlFlowV::Match(Box::new(e), arms), ws_end(s, t + 1))
                    } else {
                        Parsed::Fail(true)
                    },
                    Parsed::Fail(_) => Parsed::Fail(true),
                }
            },
            Parsed::Fail(_) => Parsed::Fail(true),
        }
    } else {
        Parsed::Fail(false)
    }
}

/// The arms of a match from `p`, after `acc`.
pub open spec fn sp_arms(s: Seq<char>, p: int, acc: Seq<(PatternV, ExprV)>) -> Parsed<
    Seq<(PatternV, ExprV)>,
>
    decreases s.len() - p, 1int,
{
    if p < 0 || p > s.len() {
        Parsed::Fail(false)
    } else {
        match sp_arm(s, p) {
            Parsed::Done(arm, q) => if !moved(s, p, q) {
                Parsed::Fail(true)
            } else {
                sp_arms(s, q, acc.push(arm))
            },
            Parsed::Fail(true) => Parsed::Fail(true),
            Parsed::Fail(false) => Parsed::Done(acc, p),
        }
    }
}

/// An arm `pattern => expr` at `p`.
pub open spec fn sp_arm(s: Seq<char>, p: int) -> Parsed<(PatternV, ExprV)>
    decreases s.len() - p, 0int,
{
    match sp_pattern(s, p) {
        Parsed::Done(pattern, q) => if moved(s, p, q) && pair_at(s, q, '=', '>') {
            proof {
                lemma_ws_end(s, q + 2);
            }
            match sp_arm_expr(s, ws_end(s, q + 2)) {
                Parsed::Done(e, r) => Parsed::Done((pattern, e), r),
                Parsed::Fail(_) => Parsed::Fail(true),
            }
        } else {
            Parsed::Fail(true)
        },
        Parsed::Fail(c) => Parsed::Fail(c),
    }
}

/// The expression of an arm: control flow with an optional `,`, or an
/// expression and `,` (or the `}` that closes the match, not consumed).
pub open spec fn sp_arm_expr(s: Seq<char>, p: int) -> Parsed<ExprV>
    decreases s.len() - p, 12int,
{
    match sp_control_flow(s, p) {
        Parsed::Done(c, q) => Parsed::Done(
            ExprV::ControlFlow(c),
            if at(s, q, ',') {
                ws_end(s, q + 1)
            } else {
                q
            },
        ),
        Parsed::Fail(_) => match sp_expr(s, p, 0) {
            Parsed::Done(e, q) => if at(s, q, ',') {
                Parsed::Done(e, ws_end(s, q + 1))
            } else if at(s, q, '}') {
                Parsed::Done(e, q)
            } else {
                Parsed::Fail(true)
            },
            Parsed::Fail(c) => Parsed::Fail(c),
        },
    }
}

/// Statements, each with its `;` (control flow may do without), from `p`,
/// after `acc`.
pub open spec fn sp_statements(s: Seq<char>, p: int, acc: Seq<StatementV>) -> Parsed<
    Seq<StatementV>,
>
    decreases s.len() - p, 15int,
{
    if p < 0 || p > s.len() {
        Parsed::Fail(false)
    } else {
        match sp_statement_return(s, p, ';') {
            Parsed::Done(item, q) => if !moved(s, p, q) {
                Parsed::Fail(true)
            } else {
                let st = match item {
                    StatementReturnV::Statement(st) => st,
                    StatementReturnV::Return(e) => StatementV::Expr(e),
                };
                sp_statements(s, q, acc.push(st))
            },
            Parsed::Fail(true) => Parsed::Fail(true),
            Parsed::Fail(false) => Parsed::Done(acc, p),
        }
    }
}

/// The end of the line from `p`: the position of the next line feed, or the
/// end of the text.
pub open spec fn line_end(s: Seq<char>, p: int) -> int
    decreases s.len() - p,
{
    if 0 <= p < s.len() && s[p] != '\n' {
        line_end(s, p + 1)
    } else {
        p
    }
}

/// Where a program starts: after a first line that starts with `#!`, if
/// there is one.
pub open spec fn program_start(s: Seq<char>) -> int {
    if pair_at(s, 0, '#', '!') {
        line_end(s, 2)
    } else {
        0
    }
}

/// A whole program: an optional `#!` line, white space and comments, then
/// statements up to the end of the text.
pub open spec fn sp_program(s: Seq<char>) -> Parsed<Seq<StatementV>> {
    match sp_statements(s, ws_end(s, program_start(s)), Seq::empty()) {
        Parsed::Done(statements, q) => if q == s.len() {
            Parsed::Done(statements, q)
        } else {
            Parsed::Fail(true)
        },
        Parsed::Fail(c) => Parsed::Fail(c),
    }
}

/// The operator a prefix character stands for: `!` Not, `&` Ref, `-`
/// Minus, `>` Move.
pub open spec fn prefix_operator(c: char) -> UnaryType {
    if c == '!' {
        UnaryType::Not
    } else if c == '&' {
        UnaryType::Ref
    } else if c == '-' {
        UnaryType::Minus
    } else {
        UnaryType::Move
    }
}

/// Each prefix character reads as its own operator, applied to the
/// expression of level 6 after the character and the white space after it;
/// a prefix operator without such an expression fails after consuming
/// input.
pub proof fn law_prefix_operator(s: Seq<char>, p: int, c: char)
    requires
        c == '!' || c == '&' || c == '-' || c == '>',
        at(s, p, c),
    ensures
        sp_unary(s, p) == match sp_expr(s, ws_end(s, p + 1), 6) {
            Parsed::Done(e, q) => Parsed::Done(ExprV::Unary(prefix_operator(c), Box::new(e)), q),
            Parsed::Fail(_) => Parsed::Fail::<ExprV>(true),
        },
{
}

/// The keyword `clone` before an expression reads as cloning it.
pub proof fn law_prefix_clone(s: Seq<char>, p: int)
    requires
        sp_keyword(s, p, seq!['c', 'l', 'o', 'n', 'e']) is Done,
    ensures
        sp_unary(s, p) == match sp_expr(s, ws_end(s, p + 5), 6) {
            Parsed::Done(e, q) => Parsed::Done(ExprV::Unary(UnaryType::Clone, Box::new(e)), q),
            Parsed::Fail(_) => Parsed::Fail::<ExprV>(true),
        },
{
    assert(s.subrange(p, p + 5)[0] == s[p]);
    assert(s[p] == 'c');
}

} // verus!
