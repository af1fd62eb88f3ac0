//! Expressions and statements without type annotations laid out as
//! documents of the `pretty` crate.
use crate::doc::{bracket, bracket_doc, concat, doc_concat, doc_text, intersperse_with_line, intersperse_with_space, lined_doc, nil, pair, space, spaced_doc, text, triple, unsigned, Doc, DocV, docs_of, lemma_docs_of};
use crate::expr::{
    arg_view, arms_view, assigns_view, block_view, jump_view, control_flow_view, elements_view, expr_coll_view,
    expr_precedence, expr_view, exprs_view, field_coll_view, fields_view, kind_view,
    literal_view, opt_view, place_view, range_view, statement_view, statements_view, Arg, ArgV,
    Assign, Binary, Block, BlockV, Call, Collection, CollectionV, ControlFlow, ControlFlowV,
    Declare, Element, Expr, ExprKind, ExprV, Field, FieldAccess, For, Fun, FunDeclare, If, Index,
    Jump, JumpV, Literal, LiteralV, Match, MatchArm, PlaceExpr, PlaceV, Range, RangeV, Slice,
    Statement, StatementV, Tag, Unary, While, WithSplat,
};
use crate::operator::{binary_precedence, binary_text, unary_text, BoundType, ElementKind, UnaryType};
use crate::pattern::{pattern_view, PatternV};
use crate::pattern_print::{
    comma_doc, comma_docs, pattern_doc, push_comma, star, star_doc, tag_doc, word,
    word_doc,
};
use vstd::prelude::*;

verus! {

broadcast use crate::doc::group_docs_of;

/// The document of a literal; a float shows the decimal text it keeps.
pub open spec fn literal_doc(l: LiteralV) -> DocV {
    match l {
        LiteralV::UInt(n) => DocV::Unsigned(n),
        LiteralV::Float(t) => doc_text(t),
        LiteralV::True => word("true"),
        LiteralV::False => word("false"),
    }
}

/// The document `d` of the expression `e`, in brackets when `e` binds less
/// tightly than `precedence`.
pub open spec fn wrap_doc(e: ExprV, precedence: u8, d: DocV) -> DocV {
    if expr_precedence(e) > precedence {
        bracket_doc("("@, ")"@, d)
    } else {
        d
    }
}

/// Each document followed by `;`.
pub open spec fn semi_docs(ds: Seq<DocV>) -> Seq<DocV> {
    ds.map_values(|d: DocV| doc_concat(seq![d, word(";")]))
}

/// The document of a list of items in brackets, each followed by `,`.
pub open spec fn items_doc(items: Seq<DocV>) -> DocV {
    bracket_doc("("@, ")"@, lined_doc(comma_docs(items)))
}

/// The operator between the ends of a range.
pub open spec fn range_op(left: BoundType, right: BoundType) -> &'static str {
    match (left, right) {
        (BoundType::Inclusive, BoundType::Inclusive) => "..",
        (BoundType::Inclusive, BoundType::Exclusive) => ".<",
        (BoundType::Exclusive, BoundType::Inclusive) => "<.",
        (BoundType::Exclusive, BoundType::Exclusive) => "<<",
    }
}

/// The document of an expression.
pub open spec fn expr_doc(e: ExprV) -> DocV
    decreases e,
{
    match e {
        ExprV::Literal(l) => literal_doc(l),
        ExprV::Tag(tag, inner) => tag_doc(
            tag,
            match inner {
                Some(x) => bracket_doc("("@, ")"@, expr_doc(*x)),
                None => DocV::Nil,
            },
        ),
        ExprV::Assign(assigns) => if assigns.len() == 1 {
            spaced_doc(
                seq![
                    place_doc(assigns[0].0),
                    word("<-"),
                    wrap_doc(assigns[0].1, 8, expr_doc(assigns[0].1)),
                ],
            )
        } else {
            spaced_doc(
                comma_docs(assign_place_docs(assigns)) + seq![word("<-")] + comma_docs(
                    assign_value_docs(assigns),
                ),
            )
        },
        ExprV::Array(items) => bracket_doc("["@, "]"@, lined_doc(comma_docs(element_docs(items)))),
        ExprV::ArrayRange(r) => range_doc(r),
        ExprV::Unit => word("()"),
        ExprV::Splat(x) => bracket_doc("("@, ")"@, star_doc(expr_doc(*x))),
        ExprV::Record(c) => field_coll_doc(c),
        ExprV::Tuple(c) => expr_coll_doc(c),
        ExprV::Unary(op, x) => doc_concat(
            seq![
                doc_text(unary_text(op)),
                if op == UnaryType::Not {
                    DocV::Space
                } else {
                    DocV::Nil
                },
                wrap_doc(*x, 2, expr_doc(*x)),
            ],
        ),
        ExprV::Binary(op, l, r) => spaced_doc(
            seq![
                wrap_doc(*l, binary_precedence(op), expr_doc(*l)),
                doc_text(binary_text(op)),
                wrap_doc(*r, binary_precedence(op), expr_doc(*r)),
            ],
        ),
        ExprV::Place(p) => place_doc(p),
        ExprV::Call(f, arg) => doc_concat(seq![wrap_doc(*f, 1, expr_doc(*f)), arg_doc(arg)]),
        ExprV::ControlFlow(c) => control_flow_doc(c),
        ExprV::Fun(param, body) => lined_doc(
            seq![pattern_doc(param), word("=>"), wrap_doc(*body, 9, expr_doc(*body))],
        ),
        ExprV::Jump(j) => match j {
            JumpV::Break(Some(x)) => spaced_doc(seq![word("break"), wrap_doc(*x, 9, expr_doc(*x))]),
            JumpV::Break(None) => word("break"),
            JumpV::Continue => word("continue"),
            JumpV::Return(Some(x)) => spaced_doc(
                seq![word("return"), wrap_doc(*x, 9, expr_doc(*x))],
            ),
            JumpV::Return(None) => word("return"),
        },
    }
}

/// The document of a place.
pub open spec fn place_doc(p: PlaceV) -> DocV
    decreases p,
{
    match p {
        PlaceV::Var(v) => doc_text(v),
        PlaceV::FieldAccess(x, name) => doc_concat(
            seq![wrap_doc(*x, 1, expr_doc(*x)), word("."), doc_text(name)],
        ),
        PlaceV::Index(x, i) => doc_concat(
            seq![wrap_doc(*x, 1, expr_doc(*x)), bracket_doc("["@, "]"@, expr_doc(*i))],
        ),
        PlaceV::Slice(x, r) => doc_concat(seq![wrap_doc(*x, 1, expr_doc(*x)), range_doc(r)]),
        PlaceV::Deref(x) => doc_concat(seq![wrap_doc(*x, 1, expr_doc(*x)), word("^")]),
        PlaceV::Len(x) => doc_concat(seq![wrap_doc(*x, 1, expr_doc(*x)), word(".len")]),
    }
}

/// The document of a range, in square brackets.
pub open spec fn range_doc(r: RangeV) -> DocV
    decreases r,
{
    let inner = match r.left {
        None => match r.right {
            None => word(".."),
            Some((k, x)) => spaced_doc(
                seq![
                    word(
                        if k == BoundType::Inclusive {
                            ".."
                        } else {
                            ".<"
                        },
                    ),
                    expr_doc(*x),
                ],
            ),
        },
        Some((lk, l)) => match r.right {
            None => spaced_doc(
                seq![
                    expr_doc(*l),
                    word(
                        if lk == BoundType::Inclusive {
                            ".."
                        } else {
                            "<."
                        },
                    ),
                ],
            ),
            Some((rk, x)) => spaced_doc(seq![expr_doc(*l), word(range_op(lk, rk)), expr_doc(*x)]),
        },
    };
    bracket_doc("["@, "]"@, inner)
}

/// The document of the argument of a call.
pub open spec fn arg_doc(a: ArgV) -> DocV
    decreases a,
{
    match a {
        ArgV::Unit => word("()"),
        ArgV::Splat(x) => bracket_doc("("@, ")"@, star_doc(expr_doc(*x))),
        ArgV::Record(c) => field_coll_doc(c),
        ArgV::Tuple(c) => expr_coll_doc(c),
    }
}

/// The document of the items of a tuple.
pub open spec fn expr_coll_doc(c: CollectionV<ExprV>) -> DocV
    decreases c,
{
    match c {
        CollectionV::Collection(items) => items_doc(expr_docs(items)),
        CollectionV::WithSplat(left, splat, right) => items_doc(
            expr_docs(left) + seq![star_doc(expr_doc(*splat))] + expr_docs(right),
        ),
    }
}

/// The document of the fields of a record.
pub open spec fn field_coll_doc(c: CollectionV<(Seq<char>, ExprV)>) -> DocV
    decreases c,
{
    match c {
        CollectionV::Collection(items) => items_doc(field_docs(items)),
        CollectionV::WithSplat(left, splat, right) => items_doc(
            field_docs(left) + seq![star_doc(expr_doc(*splat))] + field_docs(right),
        ),
    }
}

/// The documents of expressions.
pub open spec fn expr_docs(s: Seq<ExprV>) -> Seq<DocV>
    decreases s,
{
    if s.len() == 0 {
        Seq::empty()
    } else {
        proof {
            assert(decreases_to!(s => s[s.len() - 1]));
        }
        expr_docs(s.drop_last()).push(expr_doc(s[s.len() - 1]))
    }
}

/// The documents `name = expr` of fields.
pub open spec fn field_docs(s: Seq<(Seq<char>, ExprV)>) -> Seq<DocV>
    decreases s,
{
    if s.len() == 0 {
        Seq::empty()
    } else {
        proof {
            assert(decreases_to!(s => s[s.len() - 1]));
        }
        field_docs(s.drop_last()).push(
            spaced_doc(seq![doc_text(s[s.len() - 1].0), word("="), expr_doc(s[s.len() - 1].1)]),
        )
    }
}

/// The documents of the elements of an array.
pub open spec fn element_docs(s: Seq<(ExprV, ElementKind)>) -> Seq<DocV>
    decreases s,
{
    if s.len() == 0 {
        Seq::empty()
    } else {
        proof {
            assert(decreases_to!(s => s[s.len() - 1]));
        }
        element_docs(s.drop_last()).push(
            match s[s.len() - 1].1 {
                ElementKind::Element => expr_doc(s[s.len() - 1].0),
                ElementKind::Splat => star_doc(expr_doc(s[s.len() - 1].0)),
            },
        )
    }
}

/// The documents of the places of assignments.
pub open spec fn assign_place_docs(s: Seq<(PlaceV, ExprV)>) -> Seq<DocV>
    decreases s,
{
    if s.len() == 0 {
        Seq::empty()
    } else {
        proof {
            assert(decreases_to!(s => s[s.len() - 1]));
        }
        assign_place_docs(s.drop_last()).push(place_doc(s[s.len() - 1].0))
    }
}

/// The documents of the values of assignments.
pub open spec fn assign_value_docs(s: Seq<(PlaceV, ExprV)>) -> Seq<DocV>
    decreases s,
{
    if s.len() == 0 {
        Seq::empty()
    } else {
        proof {
            assert(decreases_to!(s => s[s.len() - 1]));
        }
        assign_value_docs(s.drop_last()).push(expr_doc(s[s.len() - 1].1))
    }
}

/// The document of control flow.
pub open spec fn control_flow_doc(c: ControlFlowV) -> DocV
    decreases c,
{
    match c {
        ControlFlowV::Block(b) => block_doc(b),
        ControlFlowV::If(condition, body, else_part) => match else_part {
            Some(e) => spaced_doc(
                seq![
                    word("if"),
                    expr_doc(*condition),
                    block_doc(body),
                    word("else"),
                    control_flow_doc(*e),
                ],
            ),
            None => spaced_doc(seq![word("if"), expr_doc(*condition), block_doc(body)]),
        },
        ControlFlowV::For(pattern, x, body) => spaced_doc(
            seq![word("for"), pattern_doc(pattern), word("in"), expr_doc(*x), block_doc(body)],
        ),
        ControlFlowV::While(condition, body) => spaced_doc(
            seq![word("while"), expr_doc(*condition), block_doc(body)],
        ),
        ControlFlowV::Loop(body) => spaced_doc(seq![word("loop"), block_doc(body)]),
        ControlFlowV::Match(x, arms) => spaced_doc(
            seq![
                word("match"),
                expr_doc(*x),
                if arms.len() == 0 {
                    word("{}")
                } else {
                    bracket_doc("{ "@, " }"@, lined_doc(comma_docs(arm_docs(arms))))
                },
            ],
        ),
    }
}

/// The documents `pattern => expr` of the arms of a match.
pub open spec fn arm_docs(s: Seq<(PatternV, ExprV)>) -> Seq<DocV>
    decreases s,
{
    if s.len() == 0 {
        Seq::empty()
    } else {
        proof {
            assert(decreases_to!(s => s[s.len() - 1]));
        }
        arm_docs(s.drop_last()).push(
            spaced_doc(
                seq![pattern_doc(s[s.len() - 1].0), word("=>"), expr_doc(s[s.len() - 1].1)],
            ),
        )
    }
}

/// The document of a block: its statements each followed by `;`, then its
/// value.
pub open spec fn block_doc(b: BlockV) -> DocV
    decreases b,
{
    if b.statements.len() == 0 {
        match b.expr {
            Some(x) => bracket_doc("{"@, "}"@, expr_doc(*x)),
            None => word("{}"),
        }
    } else {
        bracket_doc(
            "{"@,
            "}"@,
            lined_doc(
                semi_docs(statement_docs(b.statements)) + match b.expr {
                    Some(x) => seq![expr_doc(*x)],
                    None => Seq::empty(),
                },
            ),
        )
    }
}

/// The document of a statement.
pub open spec fn statement_doc(s: StatementV) -> DocV
    decreases s,
{
    match s {
        StatementV::Declare(pattern, x) => spaced_doc(
            seq![pattern_doc(pattern), word("="), expr_doc(x)],
        ),
        StatementV::FunDeclare(name, param, body) => spaced_doc(
            seq![doc_text(name), pattern_doc(param), word("=>"), expr_doc(body)],
        ),
        StatementV::Expr(x) => expr_doc(x),
    }
}

/// The documents of statements.
pub open spec fn statement_docs(s: Seq<StatementV>) -> Seq<DocV>
    decreases s,
{
    if s.len() == 0 {
        Seq::empty()
    } else {
        proof {
            assert(decreases_to!(s => s[s.len() - 1]));
        }
        statement_docs(s.drop_last()).push(statement_doc(s[s.len() - 1]))
    }
}


// ---------------------------------------------------------------------
// Lists

/// Appends the documents of the expressions, each followed by `,`.
fn expr_comma_docs(items: &Vec<Expr<()>>, docs: &mut Vec<Doc>)
    ensures
        docs_of(final(docs)@) == docs_of(old(docs)@) + comma_docs(expr_docs(exprs_view(items@))),
    decreases items@,
{
    let ghost start = docs_of(docs@);
    let mut i: usize = 0;
    proof {
        assert(exprs_view(items@.take(0)) =~= Seq::<ExprV>::empty());
        assert(docs_of(docs@) =~= start + comma_docs(expr_docs(exprs_view(items@.take(0)))));
    }
    while i < items.len()
        invariant
            i <= items@.len(),
            docs_of(docs@) == start + comma_docs(expr_docs(exprs_view(items@.take(i as int)))),
        decreases items@.len() - i,
    {
        proof {
            assert(decreases_to!(items@ => items@[i as int]));
        }
        let d = items[i].to_doc();
        proof {
            assert(items@.take(i + 1).drop_last() =~= items@.take(i as int));
            let vs = exprs_view(items@.take(i + 1));
            assert(vs.drop_last() == exprs_view(items@.take(i as int)));
            assert(comma_docs(expr_docs(vs)) =~= comma_docs(
                expr_docs(exprs_view(items@.take(i as int))),
            ).push(comma_doc(d@)));
        }
        push_comma(docs, d);
        i = i + 1;
    }
    proof {
        assert(items@.take(items@.len() as int) =~= items@);
    }
}

/// Appends the documents `name = expr` of the fields, each followed by `,`.
fn field_comma_docs(items: &Vec<Field<()>>, docs: &mut Vec<Doc>)
    ensures
        docs_of(final(docs)@) == docs_of(old(docs)@) + comma_docs(field_docs(fields_view(items@))),
    decreases items@,
{
    let ghost start = docs_of(docs@);
    let mut i: usize = 0;
    proof {
        assert(fields_view(items@.take(0)) =~= Seq::<(Seq<char>, ExprV)>::empty());
        assert(docs_of(docs@) =~= start + comma_docs(field_docs(fields_view(items@.take(0)))));
    }
    while i < items.len()
        invariant
            i <= items@.len(),
            docs_of(docs@) == start + comma_docs(field_docs(fields_view(items@.take(i as int)))),
        decreases items@.len() - i,
    {
        proof {
            assert(decreases_to!(items@ => items@[i as int]));
        }
        let d = items[i].to_doc();
        proof {
            assert(items@.take(i + 1).drop_last() =~= items@.take(i as int));
            let vs = fields_view(items@.take(i + 1));
            assert(vs.drop_last() == fields_view(items@.take(i as int)));
            assert(comma_docs(field_docs(vs)) =~= comma_docs(
                field_docs(fields_view(items@.take(i as int))),
            ).push(comma_doc(d@)));
        }
        push_comma(docs, d);
        i = i + 1;
    }
    proof {
        assert(items@.take(items@.len() as int) =~= items@);
    }
}

/// Appends the documents of the elements of an array, each followed by `,`.
fn element_comma_docs(items: &Vec<Element<()>>, docs: &mut Vec<Doc>)
    ensures
        docs_of(final(docs)@) == docs_of(old(docs)@) + comma_docs(element_docs(elements_view(items@))),
    decreases items@,
{
    let ghost start = docs_of(docs@);
    let mut i: usize = 0;
    proof {
        assert(elements_view(items@.take(0)) =~= Seq::<(ExprV, ElementKind)>::empty());
        assert(docs_of(docs@) =~= start + comma_docs(element_docs(elements_view(items@.take(0)))));
    }
    while i < items.len()
        invariant
            i <= items@.len(),
            docs_of(docs@) == start + comma_docs(element_docs(elements_view(items@.take(i as int)))),
        decreases items@.len() - i,
    {
        proof {
            assert(decreases_to!(items@ => items@[i as int]));
        }
        let d = items[i].to_doc();
        proof {
            assert(items@.take(i + 1).drop_last() =~= items@.take(i as int));
            let vs = elements_view(items@.take(i + 1));
            assert(vs.drop_last() == elements_view(items@.take(i as int)));
            assert(comma_docs(element_docs(vs)) =~= comma_docs(
                element_docs(elements_view(items@.take(i as int))),
            ).push(comma_doc(d@)));
        }
        push_comma(docs, d);
        i = i + 1;
    }
    proof {
        assert(items@.take(items@.len() as int) =~= items@);
    }
}

/// Appends the documents of the places of assignments, each followed by
/// `,`.
fn assign_place_comma_docs(items: &Vec<Assign<()>>, docs: &mut Vec<Doc>)
    ensures
        docs_of(final(docs)@) == docs_of(old(docs)@) + comma_docs(assign_place_docs(assigns_view(items@))),
    decreases items@,
{
    let ghost start = docs_of(docs@);
    let mut i: usize = 0;
    proof {
        assert(assigns_view(items@.take(0)) =~= Seq::<(PlaceV, ExprV)>::empty());
        assert(docs_of(docs@) =~= start + comma_docs(assign_place_docs(assigns_view(items@.take(0)))));
    }
    while i < items.len()
        invariant
            i <= items@.len(),
            docs_of(docs@) == start + comma_docs(assign_place_docs(assigns_view(items@.take(i as int)))),
        decreases items@.len() - i,
    {
        proof {
            assert(decreases_to!(items@ => items@[i as int]));
        }
        let d = items[i].place.to_doc();
        proof {
            assert(items@.take(i + 1).drop_last() =~= items@.take(i as int));
            let vs = assigns_view(items@.take(i + 1));
            assert(vs.drop_last() == assigns_view(items@.take(i as int)));
            assert(comma_docs(assign_place_docs(vs)) =~= comma_docs(
                assign_place_docs(assigns_view(items@.take(i as int))),
            ).push(comma_doc(d@)));
        }
        push_comma(docs, d);
        i = i + 1;
    }
    proof {
        assert(items@.take(items@.len() as int) =~= items@);
    }
}

/// Appends the documents of the values of assignments, each followed by
/// `,`.
fn assign_value_comma_docs(items: &Vec<Assign<()>>, docs: &mut Vec<Doc>)
    ensures
        docs_of(final(docs)@) == docs_of(old(docs)@) + comma_docs(assign_value_docs(assigns_view(items@))),
    decreases items@,
{
    let ghost start = docs_of(docs@);
    let mut i: usize = 0;
    proof {
        assert(assigns_view(items@.take(0)) =~= Seq::<(PlaceV, ExprV)>::empty());
        assert(docs_of(docs@) =~= start + comma_docs(assign_value_docs(assigns_view(items@.take(0)))));
    }
    while i < items.len()
        invariant
            i <= items@.len(),
            docs_of(docs@) == start + comma_docs(assign_value_docs(assigns_view(items@.take(i as int)))),
        decreases items@.len() - i,
    {
        proof {
            assert(decreases_to!(items@ => items@[i as int]));
        }
        let d = items[i].expr.to_doc();
        proof {
            assert(items@.take(i + 1).drop_last() =~= items@.take(i as int));
            let vs = assigns_view(items@.take(i + 1));
            assert(vs.drop_last() == assigns_view(items@.take(i as int)));
            assert(comma_docs(assign_value_docs(vs)) =~= comma_docs(
                assign_value_docs(assigns_view(items@.take(i as int))),
            ).push(comma_doc(d@)));
        }
        push_comma(docs, d);
        i = i + 1;
    }
    proof {
        assert(items@.take(items@.len() as int) =~= items@);
    }
}

/// Appends the documents of the arms of a match, each followed by `,`.
fn arm_comma_docs(items: &Vec<MatchArm<()>>, docs: &mut Vec<Doc>)
    ensures
        docs_of(final(docs)@) == docs_of(old(docs)@) + comma_docs(arm_docs(arms_view(items@))),
    decreases items@,
{
    let ghost start = docs_of(docs@);
    let mut i: usize = 0;
    proof {
        assert(arms_view(items@.take(0)) =~= Seq::<(PatternV, ExprV)>::empty());
        assert(docs_of(docs@) =~= start + comma_docs(arm_docs(arms_view(items@.take(0)))));
    }
    while i < items.len()
        invariant
            i <= items@.len(),
            docs_of(docs@) == start + comma_docs(arm_docs(arms_view(items@.take(i as int)))),
        decreases items@.len() - i,
    {
        proof {
            assert(decreases_to!(items@ => items@[i as int]));
        }
        let d = items[i].to_doc();
        proof {
            assert(items@.take(i + 1).drop_last() =~= items@.take(i as int));
            let vs = arms_view(items@.take(i + 1));
            assert(vs.drop_last() == arms_view(items@.take(i as int)));
            assert(comma_docs(arm_docs(vs)) =~= comma_docs(
                arm_docs(arms_view(items@.take(i as int))),
            ).push(comma_doc(d@)));
        }
        push_comma(docs, d);
        i = i + 1;
    }
    proof {
        assert(items@.take(items@.len() as int) =~= items@);
    }
}

/// Appends the documents of the statements, each followed by `;`.
fn statement_semi_docs(items: &Vec<Statement<()>>, docs: &mut Vec<Doc>)
    ensures
        docs_of(final(docs)@) == docs_of(old(docs)@) + semi_docs(statement_docs(statements_view(items@))),
    decreases items@,
{
    let ghost start = docs_of(docs@);
    let mut i: usize = 0;
    proof {
        assert(statements_view(items@.take(0)) =~= Seq::<StatementV>::empty());
        assert(docs_of(docs@) =~= start + semi_docs(statement_docs(statements_view(items@.take(0)))));
    }
    while i < items.len()
        invariant
            i <= items@.len(),
            docs_of(docs@) == start + semi_docs(statement_docs(statements_view(items@.take(i as int)))),
        decreases items@.len() - i,
    {
        proof {
            assert(decreases_to!(items@ => items@[i as int]));
        }
        let d = items[i].to_doc();
        let s = concat(pair(d, word_doc(";")));
        proof {
            assert(items@.take(i + 1).drop_last() =~= items@.take(i as int));
            let vs = statements_view(items@.take(i + 1));
            assert(vs.drop_last() == statements_view(items@.take(i as int)));
            assert(semi_docs(statement_docs(vs)) =~= semi_docs(
                statement_docs(statements_view(items@.take(i as int))),
            ).push(s@));
        }
        docs.push(s);
        i = i + 1;
    }
    proof {
        assert(items@.take(items@.len() as int) =~= items@);
    }
}

// ---------------------------------------------------------------------
// Expressions

/// The view of a list of assignments is taken item by item.
proof fn lemma_assigns_view(s: Seq<Assign<()>>)
    ensures
        assigns_view(s).len() == s.len(),
        forall|i: int|
            0 <= i < s.len() ==> #[trigger] assigns_view(s)[i] == (
                place_view(s[i].place),
                expr_view(s[i].expr),
            ),
    decreases s.len(),
{
    if s.len() > 0 {
        lemma_assigns_view(s.drop_last());
    }
}

/// The document of a literal.
fn literal_to_doc(l: &Literal) -> (doc: Doc)
    ensures
        doc@ == literal_doc(literal_view(*l)),
{
    match l {
        Literal::UInt(n) => unsigned(*n),
        Literal::Float(t) => text(t.clone()),
        Literal::True => word_doc("true"),
        Literal::False => word_doc("false"),
    }
}

impl Expr<()> {
    /// The document of the expression.
    pub fn to_doc(&self) -> (doc: Doc)
        ensures
            doc@ == expr_doc(self@),
        decreases self,
    {
        self.expr.to_doc()
    }

    /// The document of the expression, in brackets when it binds less
    /// tightly than `precedence`.
    fn to_auto_wrap(&self, precedence: u8) -> (doc: Doc)
        ensures
            doc@ == wrap_doc(self@, precedence, expr_doc(self@)),
        decreases self,
    {
        let d = self.expr.to_doc();
        if self.expr.precedence() > precedence {
            bracket("(", ")", d)
        } else {
            d
        }
    }
}

impl ExprKind<()> {
    /// The document of the expression.
    pub fn to_doc(&self) -> (doc: Doc)
        ensures
            doc@ == expr_doc(kind_view(*self)),
        decreases self,
    {
        match self {
            ExprKind::Literal(l) => literal_to_doc(l),
            ExprKind::Tag(tag) => tag.to_doc(),
            ExprKind::Assign(assigns) => {
                proof {
                    lemma_assigns_view(assigns@);
                }
                if assigns.len() == 1 {
                    assigns[0].to_doc()
                } else {
                    let mut docs: Vec<Doc> = Vec::new();
                    assign_place_comma_docs(assigns, &mut docs);
                    docs.push(word_doc("<-"));
                    assign_value_comma_docs(assigns, &mut docs);
                    proof {
                        let v = assigns_view(assigns@);
                        assert(docs_of(docs@) =~= comma_docs(assign_place_docs(v)) + seq![word("<-")]
                            + comma_docs(assign_value_docs(v)));
                    }
                    intersperse_with_space(docs)
                }
            },
            ExprKind::Array(items) => {
                let mut docs: Vec<Doc> = Vec::new();
                element_comma_docs(items, &mut docs);
                proof {
                    assert(docs_of(docs@) =~= comma_docs(element_docs(elements_view(items@))));
                }
                bracket("[", "]", intersperse_with_line(docs))
            },
            ExprKind::ArrayRange(r) => r.to_doc(),
            ExprKind::Unit => word_doc("()"),
            ExprKind::Splat(x) => bracket("(", ")", star(x.to_doc())),
            ExprKind::Record(c) => c.to_doc(),
            ExprKind::Tuple(c) => c.to_doc(),
            ExprKind::Unary(u) => u.to_doc(),
            ExprKind::Binary(b) => b.to_doc(),
            ExprKind::Place(p) => p.to_doc(),
            ExprKind::Call(c) => c.to_doc(),
            ExprKind::ControlFlow(c) => c.to_doc(),
            ExprKind::Fun(f) => f.to_doc(),
            ExprKind::Jump(j) => j.to_doc(),
        }
    }
}

impl Assign<()> {
    /// The document `place <- expr` of a single assignment.
    pub fn to_doc(&self) -> (doc: Doc)
        ensures
            doc@ == spaced_doc(
                seq![
                    place_doc(place_view(self.place)),
                    word("<-"),
                    wrap_doc(self.expr@, 8, expr_doc(self.expr@)),
                ],
            ),
        decreases self,
    {
        let place = self.place.to_doc();
        let arrow = word_doc("<-");
        let value = self.expr.to_auto_wrap(8);
        intersperse_with_space(triple(place, arrow, value))
    }
}

impl Tag<()> {
    /// The document `@tag`, then the payload in brackets if there is one.
    pub fn to_doc(&self) -> (doc: Doc)
        ensures
            doc@ == expr_doc(kind_view(ExprKind::Tag(*self))),
        decreases self,
    {
        let payload = match &self.expr {
            Some(inner) => bracket("(", ")", inner.to_doc()),
            None => nil(),
        };
        let head = concat(pair(word_doc("@"), text(self.tag.clone())));
        intersperse_with_space(pair(head, payload))
    }
}

impl Unary<()> {
    /// The document of the operator and its operand; `not` is followed by
    /// a space.
    pub fn to_doc(&self) -> (doc: Doc)
        ensures
            doc@ == expr_doc(kind_view(ExprKind::Unary(*self))),
        decreases self,
    {
        let op = text(String::from_str(self.kind.as_static_str()));
        let extra = match self.kind {
            UnaryType::Not => space(),
            _ => nil(),
        };
        let operand = self.expr.to_auto_wrap(2);
        concat(triple(op, extra, operand))
    }
}

impl Binary<()> {
    /// The document of the operands around the operator.
    pub fn to_doc(&self) -> (doc: Doc)
        ensures
            doc@ == expr_doc(kind_view(ExprKind::Binary(*self))),
        decreases self,
    {
        let precedence = self.kind.precedence();
        let left = self.left.to_auto_wrap(precedence);
        let right = self.right.to_auto_wrap(precedence);
        let op = text(String::from_str(self.kind.as_static_str()));
        intersperse_with_space(triple(left, op, right))
    }
}

impl Fun<()> {
    /// The document `param => body`.
    pub fn to_doc(&self) -> (doc: Doc)
        ensures
            doc@ == expr_doc(kind_view(ExprKind::Fun(*self))),
        decreases self,
    {
        let param = self.param.to_doc();
        let body = self.body.to_auto_wrap(9);
        intersperse_with_line(triple(param, word_doc("=>"), body))
    }
}

impl Jump<()> {
    /// The document of a `break`, `continue` or `return`.
    pub fn to_doc(&self) -> (doc: Doc)
        ensures
            doc@ == expr_doc(kind_view(ExprKind::Jump(*self))),
        decreases self,
    {
        proof {
            assert(kind_view(ExprKind::Jump(*self)) == ExprV::Jump(jump_view(*self)));
        }
        match self {
            Jump::Break(Some(x)) => {
                let value = x.to_auto_wrap(9);
                intersperse_with_space(pair(word_doc("break"), value))
            },
            Jump::Break(None) => word_doc("break"),
            Jump::Continue => word_doc("continue"),
            Jump::Return(Some(x)) => {
                let value = x.to_auto_wrap(9);
                intersperse_with_space(pair(word_doc("return"), value))
            },
            Jump::Return(None) => word_doc("return"),
        }
    }
}

impl Element<()> {
    /// The document of an element of an array; a spread element after `*`.
    pub fn to_doc(&self) -> (doc: Doc)
        ensures
            doc@ == match self.kind {
                ElementKind::Element => expr_doc(self.expr@),
                ElementKind::Splat => star_doc(expr_doc(self.expr@)),
            },
        decreases self,
    {
        let d = self.expr.to_doc();
        match self.kind {
            ElementKind::Element => d,
            ElementKind::Splat => star(d),
        }
    }
}

impl Field<()> {
    /// The document `name = expr`.
    pub fn to_doc(&self) -> (doc: Doc)
        ensures
            doc@ == spaced_doc(seq![doc_text(self.name@), word("="), expr_doc(self.expr@)]),
        decreases self,
    {
        let value = self.expr.to_doc();
        intersperse_with_space(triple(text(self.name.clone()), word_doc("="), value))
    }
}

impl Collection<Expr<()>, ()> {
    /// The document of the items of a tuple, each followed by `,`.
    pub fn to_doc(&self) -> (doc: Doc)
        ensures
            doc@ == expr_coll_doc(expr_coll_view(*self)),
        decreases self,
    {
        match self {
            Collection::Collection(items) => {
                let mut docs: Vec<Doc> = Vec::new();
                expr_comma_docs(items, &mut docs);
                proof {
                    assert(docs_of(docs@) =~= comma_docs(expr_docs(exprs_view(items@))));
                }
                bracket("(", ")", intersperse_with_line(docs))
            },
            Collection::WithSplat(w) => w.to_doc(),
        }
    }
}

impl WithSplat<Expr<()>, ()> {
    /// The document of the items of a tuple with a spread part.
    pub fn to_doc(&self) -> (doc: Doc)
        ensures
            doc@ == expr_coll_doc(expr_coll_view(Collection::WithSplat(*self))),
        decreases self,
    {
        let mut docs: Vec<Doc> = Vec::new();
        expr_comma_docs(&self.left, &mut docs);
        let splat = star(self.splat.to_doc());
        push_comma(&mut docs, splat);
        expr_comma_docs(&self.right, &mut docs);
        proof {
            assert(docs_of(docs@) =~= comma_docs(
                expr_docs(exprs_view(self.left@)) + seq![star_doc(expr_doc(self.splat@))]
                    + expr_docs(exprs_view(self.right@)),
            ));
        }
        bracket("(", ")", intersperse_with_line(docs))
    }
}

impl Collection<Field<()>, ()> {
    /// The document of the fields of a record, each followed by `,`.
    pub fn to_doc(&self) -> (doc: Doc)
        ensures
            doc@ == field_coll_doc(field_coll_view(*self)),
        decreases self,
    {
        match self {
            Collection::Collection(items) => {
                let mut docs: Vec<Doc> = Vec::new();
                field_comma_docs(items, &mut docs);
                proof {
                    assert(docs_of(docs@) =~= comma_docs(field_docs(fields_view(items@))));
                }
                bracket("(", ")", intersperse_with_line(docs))
            },
            Collection::WithSplat(w) => w.to_doc(),
        }
    }
}

impl WithSplat<Field<()>, ()> {
    /// The document of the fields of a record with a spread part.
    pub fn to_doc(&self) -> (doc: Doc)
        ensures
            doc@ == field_coll_doc(field_coll_view(Collection::WithSplat(*self))),
        decreases self,
    {
        let mut docs: Vec<Doc> = Vec::new();
        field_comma_docs(&self.left, &mut docs);
        let splat = star(self.splat.to_doc());
        push_comma(&mut docs, splat);
        field_comma_docs(&self.right, &mut docs);
        proof {
            assert(docs_of(docs@) =~= comma_docs(
                field_docs(fields_view(self.left@)) + seq![star_doc(expr_doc(self.splat@))]
                    + field_docs(fields_view(self.right@)),
            ));
        }
        bracket("(", ")", intersperse_with_line(docs))
    }
}

// ---------------------------------------------------------------------
// Places, calls and ranges

impl PlaceExpr<()> {
    /// The document of the place.
    pub fn to_doc(&self) -> (doc: Doc)
        ensures
            doc@ == place_doc(place_view(*self)),
        decreases self,
    {
        match self {
            PlaceExpr::Var(v) => text(v.clone()),
            PlaceExpr::FieldAccess(f) => f.to_doc(),
            PlaceExpr::Index(i) => i.to_doc(),
            PlaceExpr::Slice(s) => s.to_doc(),
            PlaceExpr::Deref(x) => concat(pair(x.to_auto_wrap(1), word_doc("^"))),
            PlaceExpr::Len(x) => concat(pair(x.to_auto_wrap(1), word_doc(".len"))),
        }
    }
}

impl FieldAccess<()> {
    /// The document `expr.name`.
    pub fn to_doc(&self) -> (doc: Doc)
        ensures
            doc@ == place_doc(place_view(PlaceExpr::FieldAccess(*self))),
        decreases self,
    {
        let x = self.expr.to_auto_wrap(1);
        concat(triple(x, word_doc("."), text(self.name.clone())))
    }
}

impl Index<()> {
    /// The document `expr[index]`.
    pub fn to_doc(&self) -> (doc: Doc)
        ensures
            doc@ == place_doc(place_view(PlaceExpr::Index(*self))),
        decreases self,
    {
        let x = self.expr.to_auto_wrap(1);
        let i = bracket("[", "]", self.index.to_doc());
        concat(pair(x, i))
    }
}

impl Slice<()> {
    /// The document of the expression followed by the range.
    pub fn to_doc(&self) -> (doc: Doc)
        ensures
            doc@ == place_doc(place_view(PlaceExpr::Slice(*self))),
        decreases self,
    {
        let x = self.expr.to_auto_wrap(1);
        let r = self.range.to_doc();
        concat(pair(x, r))
    }
}

impl Call<()> {
    /// The document of the callee followed by the argument.
    pub fn to_doc(&self) -> (doc: Doc)
        ensures
            doc@ == expr_doc(kind_view(ExprKind::Call(*self))),
        decreases self,
    {
        let f = self.expr.to_auto_wrap(1);
        let arg = self.arg.to_doc();
        concat(pair(f, arg))
    }
}

impl Arg<()> {
    /// The document of the argument of a call.
    pub fn to_doc(&self) -> (doc: Doc)
        ensures
            doc@ == arg_doc(arg_view(*self)),
        decreases self,
    {
        match self {
            Arg::Unit => word_doc("()"),
            Arg::Splat(x) => bracket("(", ")", star(x.to_doc())),
            Arg::Record(c) => c.to_doc(),
            Arg::Tuple(c) => c.to_doc(),
        }
    }
}

impl Range<()> {
    /// The document of the range in square brackets.
    pub fn to_doc(&self) -> (doc: Doc)
        ensures
            doc@ == range_doc(range_view(*self)),
        decreases self,
    {
        let inner = match (&self.left, &self.right) {
            (None, None) => word_doc(".."),
            (None, Some(right)) => {
                let x = right.expr.to_doc();
                let op = match right.kind {
                    BoundType::Inclusive => "..",
                    BoundType::Exclusive => ".<",
                };
                intersperse_with_space(pair(word_doc(op), x))
            },
            (Some(left), None) => {
                let x = left.expr.to_doc();
                let op = match left.kind {
                    BoundType::Inclusive => "..",
                    BoundType::Exclusive => "<.",
                };
                intersperse_with_space(pair(x, word_doc(op)))
            },
            (Some(left), Some(right)) => {
                let op = match (left.kind, right.kind) {
                    (BoundType::Inclusive, BoundType::Inclusive) => "..",
                    (BoundType::Inclusive, BoundType::Exclusive) => ".<",
                    (BoundType::Exclusive, BoundType::Inclusive) => "<.",
                    (BoundType::Exclusive, BoundType::Exclusive) => "<<",
                };
                let l = left.expr.to_doc();
                let r = right.expr.to_doc();
                intersperse_with_space(triple(l, word_doc(op), r))
            },
        };
        bracket("[", "]", inner)
    }
}

// ---------------------------------------------------------------------
// Control flow

impl ControlFlow<()> {
    /// The document of the control flow expression.
    pub fn to_doc(&self) -> (doc: Doc)
        ensures
            doc@ == control_flow_doc(control_flow_view(*self)),
        decreases self,
    {
        match self {
            ControlFlow::Block(b) => b.to_doc(),
            ControlFlow::If(i) => i.to_doc(),
            ControlFlow::For(f) => f.to_doc(),
            ControlFlow::While(w) => w.to_doc(),
            ControlFlow::Loop(b) => {
                let body = b.to_doc();
                intersperse_with_space(pair(word_doc("loop"), body))
            },
            ControlFlow::Match(m) => m.to_doc(),
        }
    }
}

impl Block<()> {
    /// The document of the block: its statements each followed by `;`,
    /// then its value.
    pub fn to_doc(&self) -> (doc: Doc)
        ensures
            doc@ == block_doc(block_view(*self)),
        decreases self,
    {
        if self.statement.len() == 0 {
            proof {
                assert(statements_view(self.statement@).len() == 0);
            }
            match &self.expr {
                Some(x) => bracket("{", "}", x.to_doc()),
                None => word_doc("{}"),
            }
        } else {
            proof {
                assert(statements_view(self.statement@).len() != 0);
            }
            let mut docs: Vec<Doc> = Vec::new();
            statement_semi_docs(&self.statement, &mut docs);
            let ghost before = docs_of(docs@);
            match &self.expr {
                Some(x) => {
                    let d = x.to_doc();
                    docs.push(d);
                },
                None => {},
            }
            proof {
                let tail = match opt_view(self.expr) {
                    Some(x) => seq![expr_doc(*x)],
                    None => Seq::<DocV>::empty(),
                };
                assert(docs_of(docs@) =~= semi_docs(statement_docs(statements_view(self.statement@)))
                    + tail);
            }
            bracket("{", "}", intersperse_with_line(docs))
        }
    }
}

impl If<()> {
    /// The document `if condition body`, then `else` and what follows it.
    pub fn to_doc(&self) -> (doc: Doc)
        ensures
            doc@ == control_flow_doc(control_flow_view(ControlFlow::If(*self))),
        decreases self,
    {
        let condition = self.condition.to_doc();
        let body = self.body.to_doc();
        match &self.else_part {
            Some(e) => {
                let rest = e.to_doc();
                let mut docs: Vec<Doc> = Vec::new();
                docs.push(word_doc("if"));
                docs.push(condition);
                docs.push(body);
                docs.push(word_doc("else"));
                docs.push(rest);
                proof {
                    assert(docs_of(docs@) =~= seq![word("if"), condition@, body@, word("else"), rest@]);
                }
                intersperse_with_space(docs)
            },
            None => {
                let mut docs: Vec<Doc> = Vec::new();
                docs.push(word_doc("if"));
                docs.push(condition);
                docs.push(body);
                proof {
                    assert(docs_of(docs@) =~= seq![word("if"), condition@, body@]);
                }
                intersperse_with_space(docs)
            },
        }
    }
}

impl For<()> {
    /// The document `for pattern in expr body`.
    pub fn to_doc(&self) -> (doc: Doc)
        ensures
            doc@ == control_flow_doc(control_flow_view(ControlFlow::For(*self))),
        decreases self,
    {
        let pattern = self.pattern.to_doc();
        let x = self.expr.to_doc();
        let body = self.body.to_doc();
        let mut docs: Vec<Doc> = Vec::new();
        docs.push(word_doc("for"));
        docs.push(pattern);
        docs.push(word_doc("in"));
        docs.push(x);
        docs.push(body);
        proof {
            assert(docs_of(docs@) =~= seq![word("for"), pattern@, word("in"), x@, body@]);
        }
        intersperse_with_space(docs)
    }
}

impl While<()> {
    /// The document `while condition body`.
    pub fn to_doc(&self) -> (doc: Doc)
        ensures
            doc@ == control_flow_doc(control_flow_view(ControlFlow::While(*self))),
        decreases self,
    {
        let condition = self.condition.to_doc();
        let body = self.body.to_doc();
        intersperse_with_space(triple(word_doc("while"), condition, body))
    }
}

impl Match<()> {
    /// The document `match expr { arms }`.
    pub fn to_doc(&self) -> (doc: Doc)
        ensures
            doc@ == control_flow_doc(control_flow_view(ControlFlow::Match(*self))),
        decreases self,
    {
        let x = self.expr.to_doc();
        let body = if self.arm.len() == 0 {
            proof {
                assert(arms_view(self.arm@).len() == 0);
            }
            word_doc("{}")
        } else {
            proof {
                assert(arms_view(self.arm@).len() != 0);
            }
            let mut docs: Vec<Doc> = Vec::new();
            arm_comma_docs(&self.arm, &mut docs);
            proof {
                assert(docs_of(docs@) =~= comma_docs(arm_docs(arms_view(self.arm@))));
            }
            bracket("{ ", " }", intersperse_with_line(docs))
        };
        intersperse_with_space(triple(word_doc("match"), x, body))
    }
}

impl MatchArm<()> {
    /// The document `pattern => expr`.
    pub fn to_doc(&self) -> (doc: Doc)
        ensures
            doc@ == spaced_doc(
                seq![pattern_doc(pattern_view(self.pattern)), word("=>"), expr_doc(self.expr@)],
            ),
        decreases self,
    {
        let pattern = self.pattern.to_doc();
        let x = self.expr.to_doc();
        intersperse_with_space(triple(pattern, word_doc("=>"), x))
    }
}

// ---------------------------------------------------------------------
// Statements

impl Statement<()> {
    /// The document of the statement.
    pub fn to_doc(&self) -> (doc: Doc)
        ensures
            doc@ == statement_doc(statement_view(*self)),
        decreases self,
    {
        match self {
            Statement::Declare(d) => d.to_doc(),
            Statement::FunDeclare(f) => f.to_doc(),
            Statement::Expr(x) => x.to_doc(),
        }
    }
}

impl Declare<()> {
    /// The document `pattern = expr`.
    pub fn to_doc(&self) -> (doc: Doc)
        ensures
            doc@ == statement_doc(statement_view(Statement::Declare(*self))),
        decreases self,
    {
        let pattern = self.pattern.to_doc();
        let x = self.expr.to_doc();
        intersperse_with_space(triple(pattern, word_doc("="), x))
    }
}

impl FunDeclare<()> {
    /// The document `name param => body`.
    pub fn to_doc(&self) -> (doc: Doc)
        ensures
            doc@ == statement_doc(statement_view(Statement::FunDeclare(*self))),
        decreases self,
    {
        let name = text(self.ident.clone());
        let param = self.fun.param.to_doc();
        let body = self.fun.body.to_doc();
        let mut docs: Vec<Doc> = Vec::new();
        docs.push(name);
        docs.push(param);
        docs.push(word_doc("=>"));
        docs.push(body);
        proof {
            assert(docs_of(docs@) =~= seq![name@, param@, word("=>"), body@]);
        }
        intersperse_with_space(docs)
    }
}

} // verus!
