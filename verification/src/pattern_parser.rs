//! The grammar of patterns, as a model, and its parser.
//!
//! As in `expr_grammar`, a test `p < q <= s.len()` stands where a parser goes
//! on after a nested pattern that stopped at `q`; the contracts show that it
//! always holds.
use crate::expr_parser::ParseError;
use crate::lexeme::{
    advances, agrees, at, ident_at, integer_at, keyword_at, lemma_ident, lemma_ws_end,
    skip_insignificants, sp_ident, sp_integer, sp_keyword, stays_within, ws_end, Parsed, Step,
};
use crate::pattern::{
    binding_view, lemma_pattern_fields_push, lemma_patterns_push, list_pattern_view,
    pattern_fields_view, pattern_opt_view, pattern_v_field_name, patterns_view, typed_vars_view,
    BindingV, ListPattern, ListPatternV, ListWithRest, Pattern, PatternKind, PatternV,
    RecordPattern, TaggedPattern, TypedVar, Var,
};
use crate::ty::Atom;
use vstd::prelude::*;

verus! {

/// An outcome that stopped after `p` and not beyond the end.
pub open spec fn moved(s: Seq<char>, p: int, q: int) -> bool {
    p < q <= s.len()
}

/// A variable to bind at `p`: optionally `ref`, optionally `mut`, then the
/// name.
pub open spec fn sp_binding(s: Seq<char>, p: int) -> Parsed<BindingV> {
    let by_ref = sp_keyword(s, p, seq!['r', 'e', 'f']) is Done;
    let q1 = if by_ref {
        ws_end(s, p + 3)
    } else {
        p
    };
    let mutable = sp_keyword(s, q1, seq!['m', 'u', 't']) is Done;
    let q2 = if mutable {
        ws_end(s, q1 + 3)
    } else {
        q1
    };
    match sp_ident(s, q2) {
        Parsed::Done(name, q) => Parsed::Done(
            BindingV { ident: name, mutable, bind_to_ref: by_ref },
            ws_end(s, q),
        ),
        Parsed::Fail(c) => Parsed::Fail(c || q2 > p),
    }
}

/// After a variable, `, variable` repeated from `p`, after `acc`; a final
/// `,` is read.
pub open spec fn sp_bindings_more(s: Seq<char>, p: int, acc: Seq<BindingV>) -> Parsed<
    Seq<BindingV>,
>
    decreases s.len() - p,
{
    if p < 0 || !at(s, p, ',') {
        Parsed::Done(acc, p)
    } else {
        proof {
            lemma_ws_end(s, p + 1);
        }
        let q = ws_end(s, p + 1);
        match sp_binding(s, q) {
            Parsed::Done(b, r) => if !moved(s, q, r) {
                Parsed::Fail(true)
            } else {
                sp_bindings_more(s, r, acc.push(b))
            },
            Parsed::Fail(true) => Parsed::Fail(true),
            Parsed::Fail(false) => Parsed::Done(acc, q),
        }
    }
}

/// A parameter `(a, mut b, ref c)` at `p`.
pub open spec fn sp_parameter(s: Seq<char>, p: int) -> Parsed<PatternV> {
    if !at(s, p, '(') {
        Parsed::Fail(false)
    } else {
        let q = ws_end(s, p + 1);
        let items = match sp_binding(s, q) {
            Parsed::Done(b, r) => if !moved(s, q, r) {
                Parsed::Fail(true)
            } else {
                sp_bindings_more(s, r, seq![b])
            },
            Parsed::Fail(true) => Parsed::Fail(true),
            Parsed::Fail(false) => Parsed::Done(Seq::empty(), q),
        };
        match items {
            Parsed::Done(vars, r) => if at(s, r, ')') {
                Parsed::Done(PatternV::Param(vars), ws_end(s, r + 1))
            } else {
                Parsed::Fail(true)
            },
            Parsed::Fail(_) => Parsed::Fail(true),
        }
    }
}

/// The pattern at `p`: `@tag pattern`, `&pattern`, an integer, `(pattern)`,
/// a record, a tuple, an array, `_`, `true`, `false` or a variable, tried in
/// this order.
pub open spec fn sp_pattern(s: Seq<char>, p: int) -> Parsed<PatternV>
    decreases s.len() - p, 1int,
{
    if p < 0 || p > s.len() {
        Parsed::Fail(false)
    } else if at(s, p, '@') {
        proof {
            lemma_ws_end(s, p + 1);
            lemma_ident(s, ws_end(s, p + 1));
        }
        match sp_ident(s, ws_end(s, p + 1)) {
            Parsed::Done(name, q) => {
                proof {
                    lemma_ws_end(s, q);
                }
                match sp_pattern(s, ws_end(s, q)) {
                    Parsed::Done(inner, r) => Parsed::Done(
                        PatternV::Tag(name, Some(Box::new(inner))),
                        r,
                    ),
                    Parsed::Fail(_) => Parsed::Fail(true),
                }
            },
            Parsed::Fail(_) => Parsed::Fail(true),
        }
    } else if at(s, p, '&') {
        proof {
            lemma_ws_end(s, p + 1);
        }
        match sp_pattern(s, ws_end(s, p + 1)) {
            Parsed::Done(inner, r) => Parsed::Done(PatternV::Ref(Box::new(inner)), r),
            Parsed::Fail(_) => Parsed::Fail(true),
        }
    } else {
        match sp_integer(s, p) {
            Parsed::Done(v, q) => Parsed::Done(PatternV::UInt(v), q),
            Parsed::Fail(true) => Parsed::Fail(true),
            Parsed::Fail(false) => match sp_pattern_group(s, p) {
                Parsed::Done(inner, q) => Parsed::Done(inner, q),
                Parsed::Fail(_) => match sp_record_pattern(s, p) {
                    Parsed::Done(r, q) => Parsed::Done(r, q),
                    Parsed::Fail(true) => Parsed::Fail(true),
                    Parsed::Fail(false) => match sp_enclosed_list(s, p, '(', ')') {
                        Parsed::Done(l, q) => Parsed::Done(PatternV::Tuple(l), q),
                        Parsed::Fail(true) => Parsed::Fail(true),
                        Parsed::Fail(false) => match sp_enclosed_list(s, p, '[', ']') {
                            Parsed::Done(l, q) => Parsed::Done(PatternV::Array(l), q),
                            Parsed::Fail(true) => Parsed::Fail(true),
                            Parsed::Fail(false) => sp_pattern_word(s, p),
                        },
                    },
                },
            },
        }
    }
}

/// `_`, `true`, `false` or a variable at `p`.
pub open spec fn sp_pattern_word(s: Seq<char>, p: int) -> Parsed<PatternV> {
    if sp_keyword(s, p, seq!['_']) is Done {
        Parsed::Done(PatternV::Discard, ws_end(s, p + 1))
    } else if sp_keyword(s, p, seq!['t', 'r', 'u', 'e']) is Done {
        Parsed::Done(PatternV::True, ws_end(s, p + 4))
    } else if sp_keyword(s, p, seq!['f', 'a', 'l', 's', 'e']) is Done {
        Parsed::Done(PatternV::False, ws_end(s, p + 5))
    } else {
        match sp_binding(s, p) {
            Parsed::Done(b, q) => Parsed::Done(PatternV::Var(b), q),
            Parsed::Fail(c) => Parsed::Fail(c),
        }
    }
}

/// `(pattern)` at `p`; a failure is reported as not having consumed input.
pub open spec fn sp_pattern_group(s: Seq<char>, p: int) -> Parsed<PatternV>
    decreases s.len() - p, 0int,
{
    if p >= 0 && at(s, p, '(') {
        proof {
            lemma_ws_end(s, p + 1);
        }
        match sp_pattern(s, ws_end(s, p + 1)) {
            Parsed::Done(inner, q) => if at(s, q, ')') {
                Parsed::Done(inner, ws_end(s, q + 1))
            } else {
                Parsed::Fail(false)
            },
            Parsed::Fail(_) => Parsed::Fail(false),
        }
    } else {
        Parsed::Fail(false)
    }
}

/// `* pattern`, the rest of a list or record pattern.
pub open spec fn sp_rest_pattern(s: Seq<char>, p: int) -> Parsed<PatternV>
    decreases s.len() - p, 0int,
{
    if p >= 0 && at(s, p, '*') {
        proof {
            lemma_ws_end(s, p + 1);
        }
        match sp_pattern(s, ws_end(s, p + 1)) {
            Parsed::Done(inner, q) => Parsed::Done(inner, q),
            Parsed::Fail(_) => Parsed::Fail(true),
        }
    } else {
        Parsed::Fail(false)
    }
}

/// Patterns each followed by `,`, from `p`, after `acc`.
pub open spec fn sp_lead_patterns(s: Seq<char>, p: int, acc: Seq<PatternV>) -> Parsed<
    Seq<PatternV>,
>
    decreases s.len() - p, 2int,
{
    if p < 0 || p > s.len() {
        Parsed::Fail(false)
    } else {
        match sp_pattern(s, p) {
            Parsed::Done(x, q) => if !moved(s, p, q) {
                Parsed::Fail(true)
            } else if at(s, q, ',') {
                proof {
                    lemma_ws_end(s, q + 1);
                }
                sp_lead_patterns(s, ws_end(s, q + 1), acc.push(x))
            } else {
                Parsed::Fail(true)
            },
            Parsed::Fail(true) => Parsed::Fail(true),
            Parsed::Fail(false) => Parsed::Done(acc, p),
        }
    }
}

/// After a pattern, `, pattern` repeated from `p`, after `acc`.
pub open spec fn sp_patterns_more(s: Seq<char>, p: int, acc: Seq<PatternV>) -> Parsed<
    Seq<PatternV>,
>
    decreases s.len() - p, 0int,
{
    if p < 0 || p > s.len() || !at(s, p, ',') {
        Parsed::Done(acc, p)
    } else {
        proof {
            lemma_ws_end(s, p + 1);
        }
        let q = ws_end(s, p + 1);
        match sp_pattern(s, q) {
            Parsed::Done(x, r) => if !moved(s, q, r) {
                Parsed::Fail(true)
            } else {
                sp_patterns_more(s, r, acc.push(x))
            },
            Parsed::Fail(true) => Parsed::Fail(true),
            Parsed::Fail(false) => Parsed::Done(acc, q),
        }
    }
}

/// Patterns separated by `,`, possibly none, with an optional final `,`.
pub open spec fn sp_patterns_sep_end(s: Seq<char>, p: int) -> Parsed<Seq<PatternV>>
    decreases s.len() - p, 2int,
{
    if p < 0 || p > s.len() {
        Parsed::Fail(false)
    } else {
        match sp_pattern(s, p) {
            Parsed::Done(x, q) => if !moved(s, p, q) {
                Parsed::Fail(true)
            } else {
                sp_patterns_more(s, q, seq![x])
            },
            Parsed::Fail(true) => Parsed::Fail(true),
            Parsed::Fail(false) => Parsed::Done(Seq::empty(), p),
        }
    }
}

/// The items of a list pattern: with a rest pattern if there is one, else
/// without.
pub open spec fn sp_pattern_list(s: Seq<char>, p: int) -> Parsed<ListPatternV>
    decreases s.len() - p, 3int,
{
    if p < 0 || p > s.len() {
        Parsed::Fail(false)
    } else {
        let with_rest = match sp_lead_patterns(s, p, Seq::empty()) {
            Parsed::Done(left, q) => if !(p <= q <= s.len()) {
                Parsed::Fail(true)
            } else {
                match sp_rest_pattern(s, q) {
                    Parsed::Done(rest, r) => if !moved(s, q, r) {
                        Parsed::Fail(true)
                    } else if at(s, r, ',') {
                        proof {
                            lemma_ws_end(s, r + 1);
                        }
                        match sp_patterns_sep_end(s, ws_end(s, r + 1)) {
                            Parsed::Done(right, t) => Parsed::Done(
                                ListPatternV::WithRest(left, Box::new(rest), right),
                                t,
                            ),
                            Parsed::Fail(_) => Parsed::Fail(true),
                        }
                    } else {
                        Parsed::Done(ListPatternV::WithRest(left, Box::new(rest), Seq::empty()), r)
                    },
                    Parsed::Fail(_) => Parsed::Fail(false),
                }
            },
            Parsed::Fail(_) => Parsed::Fail(false),
        };
        match with_rest {
            Parsed::Fail(false) => match sp_patterns_sep_end(s, p) {
                Parsed::Done(items, q) => Parsed::Done(ListPatternV::List(items), q),
                Parsed::Fail(c) => Parsed::Fail(c),
            },
            other => other,
        }
    }
}

/// A list pattern between `open` and `close` at `p`.
pub open spec fn sp_enclosed_list(s: Seq<char>, p: int, open: char, close: char) -> Parsed<
    ListPatternV,
>
    decreases s.len() - p, 0int,
{
    if p >= 0 && at(s, p, open) {
        proof {
            lemma_ws_end(s, p + 1);
        }
        match sp_pattern_list(s, ws_end(s, p + 1)) {
            Parsed::Done(l, q) => if at(s, q, close) {
                Parsed::Done(l, ws_end(s, q + 1))
            } else {
                Parsed::Fail(true)
            },
            Parsed::Fail(_) => Parsed::Fail(true),
        }
    } else {
        Parsed::Fail(false)
    }
}

/// A field of a record pattern: `name = pattern`, or `= pattern` with the
/// name of the variable it binds.
pub open spec fn sp_pattern_field(s: Seq<char>, p: int) -> Parsed<(Seq<char>, PatternV)>
    decreases s.len() - p, 0int,
{
    if p < 0 || p > s.len() {
        Parsed::Fail(false)
    } else {
        match sp_ident(s, p) {
            Parsed::Fail(true) => Parsed::Fail(true),
            other => {
                proof {
                    lemma_ident(s, p);
                    if let Parsed::Done(_, r) = other {
                        lemma_ws_end(s, r);
                    }
                }
                let q = match other {
                    Parsed::Done(_, r) => ws_end(s, r),
                    _ => p,
                };
                if !at(s, q, '=') {
                    Parsed::Fail(q > p)
                } else {
                    proof {
                        lemma_ws_end(s, q + 1);
                    }
                    match sp_pattern(s, ws_end(s, q + 1)) {
                        Parsed::Done(x, r) => match other {
                            Parsed::Done(name, _) => Parsed::Done((name, x), r),
                            _ => match pattern_v_field_name(x) {
                                Some(name) => Parsed::Done((name, x), r),
                                None => Parsed::Fail(true),
                            },
                        },
                        Parsed::Fail(_) => Parsed::Fail(true),
                    }
                }
            },
        }
    }
}

/// Field patterns each followed by `,`, from `p`, after `acc`.
pub open spec fn sp_lead_pattern_fields(
    s: Seq<char>,
    p: int,
    acc: Seq<(Seq<char>, PatternV)>,
) -> Parsed<Seq<(Seq<char>, PatternV)>>
    decreases s.len() - p, 2int,
{
    if p < 0 || p > s.len() {
        Parsed::Fail(false)
    } else {
        match sp_pattern_field(s, p) {
            Parsed::Done(f, q) => if !moved(s, p, q) {
                Parsed::Fail(true)
            } else if at(s, q, ',') {
                proof {
                    lemma_ws_end(s, q + 1);
                }
                sp_lead_pattern_fields(s, ws_end(s, q + 1), acc.push(f))
            } else {
                Parsed::Fail(true)
            },
            Parsed::Fail(true) => Parsed::Fail(true),
            Parsed::Fail(false) => Parsed::Done(acc, p),
        }
    }
}

/// After a field pattern, `, field` repeated from `p`, after `acc`.
pub open spec fn sp_pattern_fields_more(
    s: Seq<char>,
    p: int,
    acc: Seq<(Seq<char>, PatternV)>,
) -> Parsed<Seq<(Seq<char>, PatternV)>>
    decreases s.len() - p, 0int,
{
    if p < 0 || p > s.len() || !at(s, p, ',') {
        Parsed::Done(acc, p)
    } else {
        proof {
            lemma_ws_end(s, p + 1);
        }
        let q = ws_end(s, p + 1);
        match sp_pattern_field(s, q) {
            Parsed::Done(f, r) => if !moved(s, q, r) {
                Parsed::Fail(true)
            } else {
                sp_pattern_fields_more(s, r, acc.push(f))
            },
            Parsed::Fail(true) => Parsed::Fail(true),
            Parsed::Fail(false) => Parsed::Done(acc, q),
        }
    }
}

/// Field patterns separated by `,`, possibly none, with an optional final
/// `,`.
pub open spec fn sp_pattern_fields_sep_end(s: Seq<char>, p: int) -> Parsed<
    Seq<(Seq<char>, PatternV)>,
>
    decreases s.len() - p, 2int,
{
    if p < 0 || p > s.len() {
        Parsed::Fail(false)
    } else {
        match sp_pattern_field(s, p) {
            Parsed::Done(f, q) => if !moved(s, p, q) {
                Parsed::Fail(true)
            } else {
                sp_pattern_fields_more(s, q, seq![f])
            },
            Parsed::Fail(true) => Parsed::Fail(true),
            Parsed::Fail(false) => Parsed::Done(Seq::empty(), p),
        }
    }
}

/// The fields of a record pattern, the fields after a rest pattern following
/// those before it, and the rest pattern if there is one.
pub open spec fn sp_pattern_field_list(s: Seq<char>, p: int) -> Parsed<
    (Seq<(Seq<char>, PatternV)>, Option<Box<PatternV>>),
>
    decreases s.len() - p, 3int,
{
    if p < 0 || p > s.len() {
        Parsed::Fail(false)
    } else {
        let with_rest = match sp_lead_pattern_fields(s, p, Seq::empty()) {
            Parsed::Done(left, q) => if !(p <= q <= s.len()) {
                Parsed::Fail(true)
            } else {
                match sp_rest_pattern(s, q) {
                    Parsed::Done(rest, r) => if !moved(s, q, r) {
                        Parsed::Fail(true)
                    } else if at(s, r, ',') {
                        proof {
                            lemma_ws_end(s, r + 1);
                        }
                        match sp_pattern_fields_sep_end(s, ws_end(s, r + 1)) {
                            Parsed::Done(right, t) => Parsed::Done(
                                (left + right, Some(Box::new(rest))),
                                t,
                            ),
                            Parsed::Fail(_) => Parsed::Fail(true),
                        }
                    } else {
                        Parsed::Done((left, Some(Box::new(rest))), r)
                    },
                    Parsed::Fail(_) => Parsed::Fail(false),
                }
            },
            Parsed::Fail(_) => Parsed::Fail(false),
        };
        match with_rest {
            Parsed::Fail(false) => match sp_pattern_fields_sep_end(s, p) {
                Parsed::Done(fields, q) => Parsed::Done((fields, None), q),
                Parsed::Fail(c) => Parsed::Fail(c),
            },
            other => other,
        }
    }
}

/// A record pattern `(a = x, = y, *rest)` at `p`.
pub open spec fn sp_record_pattern(s: Seq<char>, p: int) -> Parsed<PatternV>
    decreases s.len() - p, 0int,
{
    if p >= 0 && at(s, p, '(') {
        proof {
            lemma_ws_end(s, p + 1);
        }
        match sp_pattern_field_list(s, ws_end(s, p + 1)) {
            Parsed::Done((fields, rest), q) => if at(s, q, ')') {
                Parsed::Done(PatternV::Record(fields, rest), ws_end(s, q + 1))
            } else {
                Parsed::Fail(true)
            },
            Parsed::Fail(_) => Parsed::Fail(true),
        }
    } else {
        Parsed::Fail(false)
    }
}

// The parsers.

/// `src` has `c` at `i`.
fn char_at(src: &str, i: usize, c: char) -> (b: bool)
    ensures
        b == at(src@, i as int, c),
        src@.len() <= usize::MAX,
{
    i < src.unicode_len() && src.get_char(i) == c
}

/// The variable to bind at `p`.
fn binding_at(src: &str, p: usize) -> (r: Step<Var>)
    requires
        p <= src@.len(),
    ensures
        agrees(r, sp_binding(src@, p as int), |v: Var| binding_view(v)),
        advances(sp_binding(src@, p as int), p as int, src@.len() as int),
{
    proof {
        reveal_strlit("ref");
        reveal_strlit("mut");
        assert("ref"@ =~= seq!['r', 'e', 'f']);
        assert("mut"@ =~= seq!['m', 'u', 't']);
    }
    let by_ref = matches!(keyword_at(src, p, "ref"), Step::Done(..));
    let q1 = if by_ref {
        skip_insignificants(src, p + 3)
    } else {
        p
    };
    let mutable = matches!(keyword_at(src, q1, "mut"), Step::Done(..));
    let q2 = if mutable {
        skip_insignificants(src, q1 + 3)
    } else {
        q1
    };
    match ident_at(src, q2) {
        Step::Done(ident, q) => Step::Done(
            Var { ident, mutable, bind_to_ref: by_ref },
            skip_insignificants(src, q),
        ),
        Step::Fail(c) => Step::Fail(c || q2 > p),
    }
}

/// `, variable` repeated at `p`, after `acc`.
fn bindings_more_at(src: &str, p: usize, acc: Vec<TypedVar<()>>) -> (r: Step<Vec<TypedVar<()>>>)
    requires
        p <= src@.len(),
    ensures
        agrees(
            r,
            sp_bindings_more(src@, p as int, typed_vars_view(acc@)),
            |v: Vec<TypedVar<()>>| typed_vars_view(v@),
        ),
        stays_within(
            sp_bindings_more(src@, p as int, typed_vars_view(acc@)),
            p as int,
            src@.len() as int,
        ),
    decreases src@.len() - p,
{
    if !char_at(src, p, ',') {
        return Step::Done(acc, p);
    }
    let q = skip_insignificants(src, p + 1);
    match binding_at(src, q) {
        Step::Done(v, r) => {
            let mut acc = acc;
            let typed = v.into_untyped();
            proof {
                assert(typed_vars_view(acc@.push(typed)) =~= typed_vars_view(acc@).push(
                    binding_view(typed.var),
                ));
            }
            acc.push(typed);
            bindings_more_at(src, r, acc)
        },
        Step::Fail(true) => Step::Fail(true),
        Step::Fail(false) => Step::Done(acc, q),
    }
}

/// A parameter `(a, mut b)` at position `p` of `src`.
pub fn parameter_at(src: &str, p: usize) -> (r: Step<Pattern<()>>)
    requires
        p <= src@.len(),
    ensures
        agrees(r, sp_parameter(src@, p as int), |x: Pattern<()>| x@),
        advances(sp_parameter(src@, p as int), p as int, src@.len() as int),
{
    if !char_at(src, p, '(') {
        return Step::Fail(false);
    }
    let q = skip_insignificants(src, p + 1);
    let items: Step<Vec<TypedVar<()>>> = match binding_at(src, q) {
        Step::Done(v, r) => {
            let mut acc: Vec<TypedVar<()>> = Vec::new();
            let typed = v.into_untyped();
            proof {
                assert(typed_vars_view(acc@.push(typed)) =~= seq![binding_view(typed.var)]);
            }
            acc.push(typed);
            bindings_more_at(src, r, acc)
        },
        Step::Fail(true) => Step::Fail(true),
        Step::Fail(false) => {
            proof {
                assert(typed_vars_view(Seq::<TypedVar<()>>::empty()) =~= Seq::empty());
            }
            Step::Done(Vec::new(), q)
        },
    };
    match items {
        Step::Done(vars, r) => if char_at(src, r, ')') {
            Step::Done(PatternKind::Param(vars).into_untyped(), skip_insignificants(src, r + 1))
        } else {
            Step::Fail(true)
        },
        Step::Fail(_) => Step::Fail(true),
    }
}

/// The pattern at position `p` of `src`.
pub fn pattern_at(src: &str, p: usize) -> (r: Step<Pattern<()>>)
    requires
        p <= src@.len(),
    ensures
        agrees(r, sp_pattern(src@, p as int), |x: Pattern<()>| x@),
        advances(sp_pattern(src@, p as int), p as int, src@.len() as int),
    decreases src@.len() - p, 1int,
{
    proof {
        reveal_with_fuel(crate::pattern::pattern_kind_view, 2);
        reveal_with_fuel(crate::pattern::pattern_view, 2);
    }
    if char_at(src, p, '@') {
        let q = skip_insignificants(src, p + 1);
        return match ident_at(src, q) {
            Step::Done(tag, r) => {
                let r1 = skip_insignificants(src, r);
                match pattern_at(src, r1) {
                    Step::Done(inner, t) => Step::Done(
                        PatternKind::Tag(TaggedPattern { tag, pattern: Some(Box::new(inner)) })
                            .into_untyped(),
                        t,
                    ),
                    Step::Fail(_) => Step::Fail(true),
                }
            },
            Step::Fail(_) => Step::Fail(true),
        };
    }
    if char_at(src, p, '&') {
        let q = skip_insignificants(src, p + 1);
        return match pattern_at(src, q) {
            Step::Done(inner, t) => Step::Done(
                PatternKind::Ref(Box::new(inner)).into_untyped(),
                t,
            ),
            Step::Fail(_) => Step::Fail(true),
        };
    }
    match integer_at(src, p) {
        Step::Done(v, q) => {
            return Step::Done(PatternKind::UInt(v).into_untyped(), q);
        },
        Step::Fail(true) => {
            return Step::Fail(true);
        },
        Step::Fail(false) => {},
    }
    if let Step::Done(inner, q) = pattern_group_at(src, p) {
        return Step::Done(inner, q);
    }
    match record_pattern_at(src, p) {
        Step::Fail(false) => {},
        other => {
            return other;
        },
    }
    match enclosed_list_at(src, p, '(', ')') {
        Step::Done(l, q) => {
            return Step::Done(PatternKind::Tuple(l).into_untyped(), q);
        },
        Step::Fail(true) => {
            return Step::Fail(true);
        },
        Step::Fail(false) => {},
    }
    match enclosed_list_at(src, p, '[', ']') {
        Step::Done(l, q) => {
            return Step::Done(PatternKind::Array(l).into_untyped(), q);
        },
        Step::Fail(true) => {
            return Step::Fail(true);
        },
        Step::Fail(false) => {},
    }
    pattern_word_at(src, p)
}

/// `_`, `true`, `false` or a variable at `p`.
fn pattern_word_at(src: &str, p: usize) -> (r: Step<Pattern<()>>)
    requires
        p <= src@.len(),
    ensures
        agrees(r, sp_pattern_word(src@, p as int), |x: Pattern<()>| x@),
        advances(sp_pattern_word(src@, p as int), p as int, src@.len() as int),
{
    proof {
        reveal_strlit("_");
        reveal_strlit("true");
        reveal_strlit("false");
        assert("_"@ =~= seq!['_']);
        assert("true"@ =~= seq!['t', 'r', 'u', 'e']);
        assert("false"@ =~= seq!['f', 'a', 'l', 's', 'e']);
    }
    if matches!(keyword_at(src, p, "_"), Step::Done(..)) {
        return Step::Done(PatternKind::Discard.into_untyped(), skip_insignificants(src, p + 1));
    }
    if matches!(keyword_at(src, p, "true"), Step::Done(..)) {
        return Step::Done(PatternKind::True.into_untyped(), skip_insignificants(src, p + 4));
    }
    if matches!(keyword_at(src, p, "false"), Step::Done(..)) {
        return Step::Done(PatternKind::False.into_untyped(), skip_insignificants(src, p + 5));
    }
    match binding_at(src, p) {
        Step::Done(v, q) => Step::Done(PatternKind::Var(v).into_untyped(), q),
        Step::Fail(c) => Step::Fail(c),
    }
}

/// `(pattern)` at `p`.
fn pattern_group_at(src: &str, p: usize) -> (r: Step<Pattern<()>>)
    requires
        p <= src@.len(),
    ensures
        agrees(r, sp_pattern_group(src@, p as int), |x: Pattern<()>| x@),
        advances(sp_pattern_group(src@, p as int), p as int, src@.len() as int),
    decreases src@.len() - p, 0int,
{
    if !char_at(src, p, '(') {
        return Step::Fail(false);
    }
    let q = skip_insignificants(src, p + 1);
    match pattern_at(src, q) {
        Step::Done(inner, r) => if char_at(src, r, ')') {
            Step::Done(inner, skip_insignificants(src, r + 1))
        } else {
            Step::Fail(false)
        },
        Step::Fail(_) => Step::Fail(false),
    }
}

/// `* pattern` at `p`.
fn rest_pattern_at(src: &str, p: usize) -> (r: Step<Pattern<()>>)
    requires
        p <= src@.len(),
    ensures
        agrees(r, sp_rest_pattern(src@, p as int), |x: Pattern<()>| x@),
        advances(sp_rest_pattern(src@, p as int), p as int, src@.len() as int),
    decreases src@.len() - p, 0int,
{
    if !char_at(src, p, '*') {
        return Step::Fail(false);
    }
    let q = skip_insignificants(src, p + 1);
    match pattern_at(src, q) {
        Step::Done(inner, r) => Step::Done(inner, r),
        Step::Fail(_) => Step::Fail(true),
    }
}

/// Patterns each followed by `,` at `p`, after `acc`.
fn lead_patterns_at(src: &str, p: usize, acc: Vec<Pattern<()>>) -> (r: Step<Vec<Pattern<()>>>)
    requires
        p <= src@.len(),
    ensures
        agrees(
            r,
            sp_lead_patterns(src@, p as int, patterns_view(acc@)),
            |v: Vec<Pattern<()>>| patterns_view(v@),
        ),
        stays_within(
            sp_lead_patterns(src@, p as int, patterns_view(acc@)),
            p as int,
            src@.len() as int,
        ),
    decreases src@.len() - p, 2int,
{
    match pattern_at(src, p) {
        Step::Done(x, q) => if char_at(src, q, ',') {
            let mut acc = acc;
            proof {
                lemma_patterns_push(acc@, x);
            }
            acc.push(x);
            lead_patterns_at(src, skip_insignificants(src, q + 1), acc)
        } else {
            Step::Fail(true)
        },
        Step::Fail(true) => Step::Fail(true),
        Step::Fail(false) => Step::Done(acc, p),
    }
}

/// `, pattern` repeated at `p`, after `acc`.
fn patterns_more_at(src: &str, p: usize, acc: Vec<Pattern<()>>) -> (r: Step<Vec<Pattern<()>>>)
    requires
        p <= src@.len(),
    ensures
        agrees(
            r,
            sp_patterns_more(src@, p as int, patterns_view(acc@)),
            |v: Vec<Pattern<()>>| patterns_view(v@),
        ),
        stays_within(
            sp_patterns_more(src@, p as int, patterns_view(acc@)),
            p as int,
            src@.len() as int,
        ),
    decreases src@.len() - p, 0int,
{
    if !char_at(src, p, ',') {
        return Step::Done(acc, p);
    }
    let q = skip_insignificants(src, p + 1);
    match pattern_at(src, q) {
        Step::Done(x, r) => {
            let mut acc = acc;
            proof {
                lemma_patterns_push(acc@, x);
            }
            acc.push(x);
            patterns_more_at(src, r, acc)
        },
        Step::Fail(true) => Step::Fail(true),
        Step::Fail(false) => Step::Done(acc, q),
    }
}

/// Patterns separated by `,` at `p`.
fn patterns_sep_end_at(src: &str, p: usize) -> (r: Step<Vec<Pattern<()>>>)
    requires
        p <= src@.len(),
    ensures
        agrees(r, sp_patterns_sep_end(src@, p as int), |v: Vec<Pattern<()>>| patterns_view(v@)),
        stays_within(sp_patterns_sep_end(src@, p as int), p as int, src@.len() as int),
    decreases src@.len() - p, 2int,
{
    match pattern_at(src, p) {
        Step::Done(x, q) => {
            let mut acc: Vec<Pattern<()>> = Vec::new();
            proof {
                lemma_patterns_push(acc@, x);
                assert(acc@ =~= Seq::<Pattern<()>>::empty());
                assert(patterns_view(acc@).push(x@) =~= seq![x@]);
            }
            acc.push(x);
            patterns_more_at(src, q, acc)
        },
        Step::Fail(true) => Step::Fail(true),
        Step::Fail(false) => {
            proof {
                assert(patterns_view(Seq::<Pattern<()>>::empty()) =~= Seq::<PatternV>::empty());
            }
            Step::Done(Vec::new(), p)
        },
    }
}

/// The items of a list pattern at `p`.
fn pattern_list_at(src: &str, p: usize) -> (r: Step<ListPattern<()>>)
    requires
        p <= src@.len(),
    ensures
        agrees(r, sp_pattern_list(src@, p as int), |l: ListPattern<()>| list_pattern_view(l)),
        stays_within(sp_pattern_list(src@, p as int), p as int, src@.len() as int),
    decreases src@.len() - p, 3int,
{
    proof {
        assert(patterns_view(Seq::<Pattern<()>>::empty()) =~= Seq::<PatternV>::empty());
    }
    let with_rest: Step<ListPattern<()>> = match lead_patterns_at(src, p, Vec::new()) {
        Step::Done(left, q) => match rest_pattern_at(src, q) {
            Step::Done(rest, r) => if char_at(src, r, ',') {
                match patterns_sep_end_at(src, skip_insignificants(src, r + 1)) {
                    Step::Done(right, t) => Step::Done(
                        ListPattern::ListWithRest(
                            ListWithRest { left, rest: Box::new(rest), right },
                        ),
                        t,
                    ),
                    Step::Fail(_) => Step::Fail(true),
                }
            } else {
                Step::Done(
                    ListPattern::ListWithRest(
                        ListWithRest { left, rest: Box::new(rest), right: Vec::new() },
                    ),
                    r,
                )
            },
            Step::Fail(_) => Step::Fail(false),
        },
        Step::Fail(_) => Step::Fail(false),
    };
    match with_rest {
        Step::Fail(false) => match patterns_sep_end_at(src, p) {
            Step::Done(items, q) => Step::Done(ListPattern::List(items), q),
            Step::Fail(c) => Step::Fail(c),
        },
        other => other,
    }
}

/// A list pattern between `open` and `close` at `p`.
fn enclosed_list_at(src: &str, p: usize, open: char, close: char) -> (r: Step<ListPattern<()>>)
    requires
        p <= src@.len(),
    ensures
        agrees(
            r,
            sp_enclosed_list(src@, p as int, open, close),
            |l: ListPattern<()>| list_pattern_view(l),
        ),
        advances(sp_enclosed_list(src@, p as int, open, close), p as int, src@.len() as int),
    decreases src@.len() - p, 0int,
{
    if !char_at(src, p, open) {
        return Step::Fail(false);
    }
    let q = skip_insignificants(src, p + 1);
    match pattern_list_at(src, q) {
        Step::Done(l, r) => if char_at(src, r, close) {
            Step::Done(l, skip_insignificants(src, r + 1))
        } else {
            Step::Fail(true)
        },
        Step::Fail(_) => Step::Fail(true),
    }
}

/// A field of a record pattern at `p`.
fn pattern_field_at(src: &str, p: usize) -> (r: Step<(Atom, Pattern<()>)>)
    requires
        p <= src@.len(),
    ensures
        agrees(r, sp_pattern_field(src@, p as int), |f: (Atom, Pattern<()>)| (f.0@, f.1@)),
        advances(sp_pattern_field(src@, p as int), p as int, src@.len() as int),
    decreases src@.len() - p, 0int,
{
    let name = ident_at(src, p);
    let q = match &name {
        Step::Fail(true) => {
            return Step::Fail(true);
        },
        Step::Done(_, r) => skip_insignificants(src, *r),
        Step::Fail(false) => p,
    };
    if !char_at(src, q, '=') {
        return Step::Fail(q > p);
    }
    let q1 = skip_insignificants(src, q + 1);
    match pattern_at(src, q1) {
        Step::Done(x, r) => match name {
            Step::Done(name, _) => Step::Done((name, x), r),
            _ => {
                proof {
                    crate::pattern::lemma_pattern_field_name(x);
                }
                match x.field_name() {
                    Some(name) => Step::Done((name, x), r),
                    None => Step::Fail(true),
                }
            },
        },
        Step::Fail(_) => Step::Fail(true),
    }
}

/// Field patterns each followed by `,` at `p`, after `acc`.
fn lead_pattern_fields_at(src: &str, p: usize, acc: Vec<(Atom, Pattern<()>)>) -> (r: Step<
    Vec<(Atom, Pattern<()>)>,
>)
    requires
        p <= src@.len(),
    ensures
        agrees(
            r,
            sp_lead_pattern_fields(src@, p as int, pattern_fields_view(acc@)),
            |v: Vec<(Atom, Pattern<()>)>| pattern_fields_view(v@),
        ),
        stays_within(
            sp_lead_pattern_fields(src@, p as int, pattern_fields_view(acc@)),
            p as int,
            src@.len() as int,
        ),
    decreases src@.len() - p, 2int,
{
    match pattern_field_at(src, p) {
        Step::Done(f, q) => if char_at(src, q, ',') {
            let mut acc = acc;
            proof {
                lemma_pattern_fields_push(acc@, f);
            }
            acc.push(f);
            lead_pattern_fields_at(src, skip_insignificants(src, q + 1), acc)
        } else {
            Step::Fail(true)
        },
        Step::Fail(true) => Step::Fail(true),
        Step::Fail(false) => Step::Done(acc, p),
    }
}

/// `, field` repeated at `p`, after `acc`.
fn pattern_fields_more_at(src: &str, p: usize, acc: Vec<(Atom, Pattern<()>)>) -> (r: Step<
    Vec<(Atom, Pattern<()>)>,
>)
    requires
        p <= src@.len(),
    ensures
        agrees(
            r,
            sp_pattern_fields_more(src@, p as int, pattern_fields_view(acc@)),
            |v: Vec<(Atom, Pattern<()>)>| pattern_fields_view(v@),
        ),
        stays_within(
            sp_pattern_fields_more(src@, p as int, pattern_fields_view(acc@)),
            p as int,
            src@.len() as int,
        ),
    decreases src@.len() - p, 0int,
{
    if !char_at(src, p, ',') {
        return Step::Done(acc, p);
    }
    let q = skip_insignificants(src, p + 1);
    match pattern_field_at(src, q) {
        Step::Done(f, r) => {
            let mut acc = acc;
            proof {
                lemma_pattern_fields_push(acc@, f);
            }
            acc.push(f);
            pattern_fields_more_at(src, r, acc)
        },
        Step::Fail(true) => Step::Fail(true),
        Step::Fail(false) => Step::Done(acc, q),
    }
}

/// Field patterns separated by `,` at `p`.
fn pattern_fields_sep_end_at(src: &str, p: usize) -> (r: Step<Vec<(Atom, Pattern<()>)>>)
    requires
        p <= src@.len(),
    ensures
        agrees(
            r,
            sp_pattern_fields_sep_end(src@, p as int),
            |v: Vec<(Atom, Pattern<()>)>| pattern_fields_view(v@),
        ),
        stays_within(sp_pattern_fields_sep_end(src@, p as int), p as int, src@.len() as int),
    decreases src@.len() - p, 2int,
{
    match pattern_field_at(src, p) {
        Step::Done(f, q) => {
            let mut acc: Vec<(Atom, Pattern<()>)> = Vec::new();
            proof {
                lemma_pattern_fields_push(acc@, f);
                assert(acc@ =~= Seq::<(Atom, Pattern<()>)>::empty());
                assert(pattern_fields_view(acc@).push((f.0@, f.1@)) =~= seq![(f.0@, f.1@)]);
            }
            acc.push(f);
            pattern_fields_more_at(src, q, acc)
        },
        Step::Fail(true) => Step::Fail(true),
        Step::Fail(false) => {
            proof {
                assert(pattern_fields_view(Seq::<(Atom, Pattern<()>)>::empty()) =~= Seq::<
                    (Seq<char>, PatternV),
                >::empty());
            }
            Step::Done(Vec::new(), p)
        },
    }
}

/// The fields and rest pattern of a record pattern at `p`.
fn pattern_field_list_at(src: &str, p: usize) -> (r: Step<
    (Vec<(Atom, Pattern<()>)>, Option<Box<Pattern<()>>>),
>)
    requires
        p <= src@.len(),
    ensures
        agrees(
            r,
            sp_pattern_field_list(src@, p as int),
            |f: (Vec<(Atom, Pattern<()>)>, Option<Box<Pattern<()>>>)|
                (pattern_fields_view(f.0@), pattern_opt_view(f.1)),
        ),
        stays_within(sp_pattern_field_list(src@, p as int), p as int, src@.len() as int),
    decreases src@.len() - p, 3int,
{
    proof {
        assert(pattern_fields_view(Seq::<(Atom, Pattern<()>)>::empty()) =~= Seq::<
            (Seq<char>, PatternV),
        >::empty());
    }
    let with_rest: Step<(Vec<(Atom, Pattern<()>)>, Option<Box<Pattern<()>>>)> =
        match lead_pattern_fields_at(src, p, Vec::new()) {
        Step::Done(left, q) => match rest_pattern_at(src, q) {
            Step::Done(rest, r) => if char_at(src, r, ',') {
                match pattern_fields_sep_end_at(src, skip_insignificants(src, r + 1)) {
                    Step::Done(right, t) => {
                        let mut fields = left;
                        let mut right = right;
                        proof {
                            lemma_pattern_fields_append(fields@, right@);
                        }
                        fields.append(&mut right);
                        Step::Done((fields, Some(Box::new(rest))), t)
                    },
                    Step::Fail(_) => Step::Fail(true),
                }
            } else {
                Step::Done((left, Some(Box::new(rest))), r)
            },
            Step::Fail(_) => Step::Fail(false),
        },
        Step::Fail(_) => Step::Fail(false),
    };
    match with_rest {
        Step::Fail(false) => match pattern_fields_sep_end_at(src, p) {
            Step::Done(fields, q) => Step::Done((fields, None), q),
            Step::Fail(c) => Step::Fail(c),
        },
        other => other,
    }
}

/// The view of two lists of field patterns one after the other.
proof fn lemma_pattern_fields_append(a: Seq<(Atom, Pattern<()>)>, b: Seq<(Atom, Pattern<()>)>)
    ensures
        pattern_fields_view(a + b) == pattern_fields_view(a) + pattern_fields_view(b),
    decreases b.len(),
{
    if b.len() == 0 {
        assert(a + b =~= a);
        assert(pattern_fields_view(b) =~= Seq::<(Seq<char>, PatternV)>::empty());
        assert(pattern_fields_view(a) + pattern_fields_view(b) =~= pattern_fields_view(a));
    } else {
        lemma_pattern_fields_append(a, b.drop_last());
        assert((a + b).drop_last() =~= a + b.drop_last());
        assert(pattern_fields_view(a) + pattern_fields_view(b) =~= (pattern_fields_view(a)
            + pattern_fields_view(b.drop_last())).push(
            (b[b.len() - 1].0@, crate::pattern::pattern_view(b[b.len() - 1].1)),
        ));
    }
}

/// A record pattern at `p`.
fn record_pattern_at(src: &str, p: usize) -> (r: Step<Pattern<()>>)
    requires
        p <= src@.len(),
    ensures
        agrees(r, sp_record_pattern(src@, p as int), |x: Pattern<()>| x@),
        advances(sp_record_pattern(src@, p as int), p as int, src@.len() as int),
    decreases src@.len() - p, 0int,
{
    if !char_at(src, p, '(') {
        return Step::Fail(false);
    }
    let q = skip_insignificants(src, p + 1);
    match pattern_field_list_at(src, q) {
        Step::Done((fields, rest), r) => if char_at(src, r, ')') {
            Step::Done(
                PatternKind::Record(RecordPattern { fields, rest }).into_untyped(),
                skip_insignificants(src, r + 1),
            )
        } else {
            Step::Fail(true)
        },
        Step::Fail(_) => Step::Fail(true),
    }
}

/// The pattern at the start of `src`, with the text after it.
pub fn pattern(src: &str) -> (result: Result<(Pattern<()>, &str), ParseError>)
    ensures
        match result {
            Ok((x, rest)) => crate::expr_parser::read_from(
                src@,
                sp_pattern(src@, 0),
                x@,
                rest@,
            ),
            Err(_) => sp_pattern(src@, 0) is Fail,
        },
{
    match pattern_at(src, 0) {
        Step::Done(x, q) => Ok((x, src.substring_char(q, src.unicode_len()))),
        Step::Fail(_) => Err(ParseError),
    }
}

/// The keywords read as patterns keep their meaning: `false` is the false
/// pattern, `true` the true pattern and `_` the discard pattern, each
/// followed by the white space after it.
pub proof fn law_pattern_keywords(s: Seq<char>, p: int)
    ensures
        sp_keyword(s, p, seq!['f', 'a', 'l', 's', 'e']) is Done ==> sp_pattern_word(s, p)
            == Parsed::Done(PatternV::False, ws_end(s, p + 5)),
        sp_keyword(s, p, seq!['t', 'r', 'u', 'e']) is Done ==> sp_pattern_word(s, p)
            == Parsed::Done(PatternV::True, ws_end(s, p + 4)),
        sp_keyword(s, p, seq!['_']) is Done ==> sp_pattern_word(s, p) == Parsed::Done(
            PatternV::Discard,
            ws_end(s, p + 1),
        ),
{
    if sp_keyword(s, p, seq!['f', 'a', 'l', 's', 'e']) is Done {
        assert(s.subrange(p, p + 5)[0] == s[p]);
        assert(s[p] == 'f');
    }
    if sp_keyword(s, p, seq!['t', 'r', 'u', 'e']) is Done {
        assert(s.subrange(p, p + 4)[0] == s[p]);
        assert(s[p] == 't');
    }
    if sp_keyword(s, p, seq!['_']) is Done {
        assert(s.subrange(p, p + 1)[0] == s[p]);
    }
}

} // verus!
