//! Types laid out as documents of the `pretty` crate.
use crate::doc::{bracket, bracket_doc, concat, doc_concat, doc_group, doc_intersperse, doc_text, group, intersperse, intersperse_with_line, intersperse_with_space, line, lined_doc, pair, space, spaced_doc, text, triple, Doc, DocV, docs_of, lemma_docs_of};
use crate::ty::cons::{Cons, Keyed, OrderedAnd};
use crate::ty::model::{
    lemma_size_fields_elem, lemma_size_types_elem, size_cons, size_fields, size_type,
    size_types, ConsV, FieldV, KeyedV, MutTypeV, OrderedAndV, TypeV, VarV,
};
use crate::ty::{
    cons_view, fields_view, keyed_view, lemma_fields_view, lemma_types_view, mut_text,
    ordered_fields_view, ordered_types_view, type_view, types_view, var_text, Atom, MutType,
    Type, Var,
};
use vstd::prelude::*;

verus! {

broadcast use crate::doc::group_docs_of;

/// The document of a text given as characters.
pub open spec fn lit(s: Seq<char>) -> DocV {
    doc_text(s)
}

pub open spec fn var_doc(v: VarV) -> DocV {
    doc_text(var_text(v))
}

pub open spec fn mut_doc(m: MutTypeV) -> DocV {
    doc_text(mut_text(m))
}

/// The document of a row variable in a list: `*`, the variable and `,`.
pub open spec fn row_doc(v: VarV) -> DocV {
    doc_group(doc_concat(seq![lit(seq!['*']), var_doc(v), lit(seq![','])]))
}

/// What separates the variants of a union.
pub open spec fn union_separator() -> DocV {
    doc_group(doc_concat(seq![DocV::Line, lit(seq!['|']), DocV::Space]))
}

/// The document of a type.
pub open spec fn type_doc(t: TypeV) -> DocV
    decreases size_type(t), 0int,
{
    match t {
        TypeV::Var(v) => var_doc(v),
        TypeV::Cons(c) => cons_doc(c),
    }
}

/// The document of a type, in brackets when it is a union.
pub open spec fn type_wrap_doc(t: TypeV) -> DocV
    decreases size_type(t), 1int,
{
    match t {
        TypeV::Var(v) => var_doc(v),
        TypeV::Cons(c) => cons_wrap_doc(c),
    }
}

/// The document of a constructor, in brackets when it is a union.
pub open spec fn cons_wrap_doc(c: ConsV) -> DocV
    decreases size_cons(c), 1int,
{
    if c is Union {
        bracket_doc(seq!['('], seq![')'], cons_doc(c))
    } else {
        cons_doc(c)
    }
}

/// The documents of named types: the name, `sep` and the type, then `,`.
pub open spec fn field_docs(fs: Seq<FieldV>, sep: Seq<char>) -> Seq<DocV>
    decreases size_fields(fs), 0int,
{
    if fs.len() == 0 {
        Seq::empty()
    } else {
        let f = fs[fs.len() - 1];
        field_docs(fs.drop_last(), sep).push(
            doc_group(doc_concat(seq![spaced_doc(seq![lit(f.0), lit(sep), type_doc(f.1)]), lit(seq![','])])),
        )
    }
}

/// The documents of types, each followed by `,`.
pub open spec fn comma_docs(ts: Seq<TypeV>) -> Seq<DocV>
    decreases size_types(ts), 0int,
{
    if ts.len() == 0 {
        Seq::empty()
    } else {
        comma_docs(ts.drop_last()).push(
            doc_group(doc_concat(seq![type_doc(ts[ts.len() - 1]), lit(seq![','])])),
        )
    }
}

/// The documents of the variants of a union: `@`, the tag, then the type.
pub open spec fn variant_docs(fs: Seq<FieldV>) -> Seq<DocV>
    decreases size_fields(fs), 0int,
{
    if fs.len() == 0 {
        Seq::empty()
    } else {
        let f = fs[fs.len() - 1];
        variant_docs(fs.drop_last()).push(
            spaced_doc(seq![doc_group(doc_concat(seq![lit(seq!['@']), lit(f.0)])), type_wrap_doc(f.1)]),
        )
    }
}

/// The document of a constructor.
pub open spec fn cons_doc(c: ConsV) -> DocV
    decreases size_cons(c), 0int,
{
    match c {
        ConsV::Num => lit(seq!['N', 'u', 'm']),
        ConsV::Bool => lit(seq!['B', 'o', 'o', 'l']),
        ConsV::Ref(m, t) => spaced_doc(seq![doc_group(doc_concat(seq![lit(seq!['&', ':']), mut_doc(m)])), type_doc(*t)]),
        ConsV::Array(t) => bracket_doc(seq!['['], seq![']'], type_doc(*t)),
        ConsV::Fun(p, r) => spaced_doc(seq![type_doc(*p), lit(seq!['-', '>']), type_doc(*r)]),
        ConsV::RecordTuple(OrderedAndV::NonRow(fs)) => if fs.len() == 0 {
            lit(seq!['(', ')'])
        } else {
            doc_group(doc_concat(seq![lit(seq!['o', 'r', 'd', 'e', 'r', 'e', 'd']), bracket_doc(seq!['('], seq![')'], lined_doc(field_docs(fs, seq!['='])))]))
        },
        ConsV::RecordTuple(OrderedAndV::Row(l, v, r)) => doc_group(doc_concat(seq![lit(seq!['o', 'r', 'd', 'e', 'r', 'e', 'd']), bracket_doc(seq!['('], seq![')'], lined_doc(field_docs(l, seq![':']) + seq![row_doc(v)] + field_docs(r, seq![':'])))])),
        ConsV::Record(k) => match k.rest {
            Some(v) => bracket_doc(seq!['('], seq![')'], lined_doc(field_docs(k.fields, seq![':']).push(row_doc(v)))),
            None => if k.fields.len() == 0 {
                lit(seq!['(', ')'])
            } else {
                bracket_doc(seq!['('], seq![')'], lined_doc(field_docs(k.fields, seq![':'])))
            },
        },
        ConsV::Tuple(OrderedAndV::NonRow(ts)) => if ts.len() == 0 {
            lit(seq!['(', ')'])
        } else {
            bracket_doc(seq!['('], seq![')'], lined_doc(comma_docs(ts)))
        },
        ConsV::Tuple(OrderedAndV::Row(l, v, r)) => bracket_doc(seq!['('], seq![')'], lined_doc(comma_docs(l) + seq![row_doc(v)] + comma_docs(r))),
        ConsV::Union(k) => match k.rest {
            Some(v) => doc_intersperse(variant_docs(k.fields).push(var_doc(v)), union_separator()),
            None => if k.fields.len() == 0 {
                lit(seq!['n', 'e', 'v', 'e', 'r'])
            } else {
                doc_intersperse(variant_docs(k.fields), union_separator())
            },
        },
    }
}

/// The document of a text literal.
fn lit_doc(s: &str) -> (doc: Doc)
    ensures
        doc@ == doc_text(s@),
{
    text(String::from_str(s))
}

impl Var {
    /// The document of the variable: how it is written.
    pub fn to_doc(&self) -> (doc: Doc)
        ensures
            doc@ == var_doc(self@),
    {
        text(self.display())
    }
}

impl MutType {
    /// The document of the mutability: how it is written.
    pub fn to_doc(&self) -> (doc: Doc)
        ensures
            doc@ == mut_doc(self@),
    {
        text(self.display())
    }
}

fn row_to_doc(v: &Var) -> (doc: Doc)
    ensures
        doc@ == row_doc(v@),
{
    let star = lit_doc("*");
    let comma = lit_doc(",");
    proof {
        reveal_strlit("*");
        reveal_strlit(",");
        assert("*"@ =~= seq!['*']);
        assert(","@ =~= seq![',']);
    }
    group(concat(triple(star, v.to_doc(), comma)))
}

/// The documents of named types, `sep` between name and type.
fn fields_to_docs(fields: &Vec<(Atom, Type)>, sep: &str) -> (docs: Vec<Doc>)
    ensures
        docs_of(docs@) == field_docs(fields_view(fields@), sep@),
    decreases size_fields(fields_view(fields@)), 0int,
{
    let ghost all = fields_view(fields@);
    proof {
        lemma_fields_view(fields@);
        assert(all.subrange(0, 0) =~= Seq::<FieldV>::empty());
        reveal_strlit(",");
        assert(","@ =~= seq![',']);
    }
    let mut docs: Vec<Doc> = Vec::new();
    let mut i: usize = 0;
    while i < fields.len()
        invariant
            i <= fields@.len(),
            all == fields_view(fields@),
            all.len() == fields@.len(),
            ","@ == seq![','],
            forall|j: int| 0 <= j < fields@.len() ==> #[trigger] all[j] == (fields@[j].0@, type_view(fields@[j].1)),
            docs_of(docs@) == field_docs(all.subrange(0, i as int), sep@),
        decreases fields@.len() - i,
    {
        proof {
            lemma_size_fields_elem(all, i as int);
            let pre = all.subrange(0, i + 1);
            assert(pre.drop_last() =~= all.subrange(0, i as int));
            assert(pre[pre.len() - 1] == all[i as int]);
        }
        let (name, ty) = &fields[i];
        let named = intersperse_with_space(triple(text(name.clone()), lit_doc(sep), ty.to_doc()));
        docs.push(group(concat(pair(named, lit_doc(",")))));
        i = i + 1;
    }
    proof {
        assert(all.subrange(0, fields@.len() as int) =~= all);
    }
    docs
}

/// The documents of types, each followed by `,`.
fn types_to_docs(types: &Vec<Type>) -> (docs: Vec<Doc>)
    ensures
        docs_of(docs@) == comma_docs(types_view(types@)),
    decreases size_types(types_view(types@)), 0int,
{
    let ghost all = types_view(types@);
    proof {
        lemma_types_view(types@);
        assert(all.subrange(0, 0) =~= Seq::<TypeV>::empty());
        reveal_strlit(",");
        assert(","@ =~= seq![',']);
    }
    let mut docs: Vec<Doc> = Vec::new();
    let mut i: usize = 0;
    while i < types.len()
        invariant
            i <= types@.len(),
            all == types_view(types@),
            all.len() == types@.len(),
            ","@ == seq![','],
            forall|j: int| 0 <= j < types@.len() ==> #[trigger] all[j] == type_view(types@[j]),
            docs_of(docs@) == comma_docs(all.subrange(0, i as int)),
        decreases types@.len() - i,
    {
        proof {
            lemma_size_types_elem(all, i as int);
            let pre = all.subrange(0, i + 1);
            assert(pre.drop_last() =~= all.subrange(0, i as int));
            assert(pre[pre.len() - 1] == all[i as int]);
        }
        docs.push(group(concat(pair(types[i].to_doc(), lit_doc(",")))));
        i = i + 1;
    }
    proof {
        assert(all.subrange(0, types@.len() as int) =~= all);
    }
    docs
}

/// The documents of the variants of a union.
fn variants_to_docs(fields: &Vec<(Atom, Type)>) -> (docs: Vec<Doc>)
    ensures
        docs_of(docs@) == variant_docs(fields_view(fields@)),
    decreases size_fields(fields_view(fields@)), 0int,
{
    let ghost all = fields_view(fields@);
    proof {
        lemma_fields_view(fields@);
        assert(all.subrange(0, 0) =~= Seq::<FieldV>::empty());
        reveal_strlit("@");
        assert("@"@ =~= seq!['@']);
    }
    let mut docs: Vec<Doc> = Vec::new();
    let mut i: usize = 0;
    while i < fields.len()
        invariant
            i <= fields@.len(),
            all == fields_view(fields@),
            all.len() == fields@.len(),
            "@"@ == seq!['@'],
            forall|j: int| 0 <= j < fields@.len() ==> #[trigger] all[j] == (fields@[j].0@, type_view(fields@[j].1)),
            docs_of(docs@) == variant_docs(all.subrange(0, i as int)),
        decreases fields@.len() - i,
    {
        proof {
            lemma_size_fields_elem(all, i as int);
            let pre = all.subrange(0, i + 1);
            assert(pre.drop_last() =~= all.subrange(0, i as int));
            assert(pre[pre.len() - 1] == all[i as int]);
        }
        let (name, ty) = &fields[i];
        let tag = group(concat(pair(lit_doc("@"), text(name.clone()))));
        docs.push(intersperse_with_space(pair(tag, ty.wrap_when_union())));
        i = i + 1;
    }
    proof {
        assert(all.subrange(0, fields@.len() as int) =~= all);
    }
    docs
}

impl Type {
    /// The document of the type.
    pub fn to_doc(&self) -> (doc: Doc)
        ensures
            doc@ == type_doc(self@),
        decreases size_type(self@), 0int,
    {
        match self {
            Type::Var(v) => v.to_doc(),
            Type::Cons(c) => c.to_doc(),
        }
    }

    /// The document of the type, in brackets when it is a union.
    pub fn wrap_when_union(&self) -> (doc: Doc)
        ensures
            doc@ == type_wrap_doc(self@),
        decreases size_type(self@), 1int,
    {
        match self {
            Type::Var(v) => v.to_doc(),
            Type::Cons(c) => c.wrap_when_union(),
        }
    }
}

impl Cons {
    /// The document of the constructor, in brackets when it is a union.
    pub fn wrap_when_union(&self) -> (doc: Doc)
        ensures
            doc@ == cons_wrap_doc(cons_view(*self)),
        decreases size_cons(cons_view(*self)), 1int,
    {
        let inner = self.to_doc();
        if let Cons::Union(_) = self {
            proof {
                reveal_strlit("(");
                reveal_strlit(")");
                assert("("@ =~= seq!['(']);
                assert(")"@ =~= seq![')']);
            }
            bracket("(", ")", inner)
        } else {
            inner
        }
    }

    /// The document of the constructor.
    #[verifier::rlimit(40)]
    pub fn to_doc(&self) -> (doc: Doc)
        ensures
            doc@ == cons_doc(cons_view(*self)),
        decreases size_cons(cons_view(*self)), 0int,
    {
        proof {
            reveal_strlit("(");
            reveal_strlit(")");
            reveal_strlit("[");
            reveal_strlit("]");
            reveal_strlit("=");
            reveal_strlit(":");
            reveal_strlit("|");
            reveal_strlit("Num");
            reveal_strlit("Bool");
            reveal_strlit("&:");
            reveal_strlit("->");
            reveal_strlit("()");
            reveal_strlit("ordered");
            reveal_strlit("never");
            assert("("@ =~= seq!['(']);
            assert(")"@ =~= seq![')']);
            assert("["@ =~= seq!['[']);
            assert("]"@ =~= seq![']']);
            assert("="@ =~= seq!['=']);
            assert(":"@ =~= seq![':']);
            assert("|"@ =~= seq!['|']);
            assert("Num"@ =~= seq!['N', 'u', 'm']);
            assert("&:"@ =~= seq!['&', ':']);
            assert("->"@ =~= seq!['-', '>']);
            assert("()"@ =~= seq!['(', ')']);
            assert("ordered"@ =~= seq!['o', 'r', 'd', 'e', 'r', 'e', 'd']);
            assert("never"@ =~= seq!['n', 'e', 'v', 'e', 'r']);
        }
        match self {
            Cons::Num => {
                let doc_of_arm = lit_doc("Num");
                proof {
                    assert(doc_of_arm@ == cons_doc(cons_view(*self)));
                }
                doc_of_arm
            },
            Cons::Bool => {
                let doc_of_arm = lit_doc("Bool");
                proof {
                    assert("Bool"@ =~= seq!['B', 'o', 'o', 'l']);
                    assert(doc_of_arm@ == cons_doc(cons_view(*self)));
                }
                doc_of_arm
            },
            Cons::Ref(m, t) => {
                let doc_of_arm = {
                let head = group(concat(pair(lit_doc("&:"), m.to_doc())));
                intersperse_with_space(pair(head, t.to_doc()))
            };
                proof {
                    assert(doc_of_arm@ == cons_doc(cons_view(*self)));
                }
                doc_of_arm
            },
            Cons::Array(t) => {
                let doc_of_arm = bracket("[", "]", t.to_doc());
                proof {
                    assert(doc_of_arm@ == cons_doc(cons_view(*self)));
                }
                doc_of_arm
            },
            Cons::Fun(p, r) => {
                let doc_of_arm = intersperse_with_space(triple(p.to_doc(), lit_doc("->"), r.to_doc()));
                proof {
                    assert(doc_of_arm@ == cons_doc(cons_view(*self)));
                }
                doc_of_arm
            },
            Cons::RecordTuple(OrderedAnd::NonRow(fs)) => {
                let doc_of_arm = {
                if fs.len() == 0 {
                    lit_doc("()")
                } else {
                    let inner = intersperse_with_line(fields_to_docs(fs, "="));
                    group(concat(pair(lit_doc("ordered"), bracket("(", ")", inner))))
                }
            };
                proof {
                    assert(doc_of_arm@ == cons_doc(cons_view(*self)));
                }
                doc_of_arm
            },
            Cons::RecordTuple(OrderedAnd::Row(l, v, r)) => {
                let doc_of_arm = {
                let mut docs = fields_to_docs(l, ":");
                docs.push(row_to_doc(v));
                let mut right = fields_to_docs(r, ":");
                docs.append(&mut right);
                proof {
                    assert(docs_of(docs@) =~= field_docs(fields_view(l@), seq![':']) + seq![row_doc(v@)]
                        + field_docs(fields_view(r@), seq![':']));
                }
                let inner = intersperse_with_line(docs);
                group(concat(pair(lit_doc("ordered"), bracket("(", ")", inner))))
            };
                proof {
                    assert(doc_of_arm@ == cons_doc(cons_view(*self)));
                }
                doc_of_arm
            },
            Cons::Record(k) => {
                let doc_of_arm = {
                proof {
                    lemma_fields_view(k.fields@);
                }
                match &k.rest {
                Some(v) => {
                    let mut docs = fields_to_docs(&k.fields, ":");
                    docs.push(row_to_doc(v));
                    bracket("(", ")", intersperse_with_line(docs))
                },
                None => {
                    if k.fields.len() == 0 {
                        lit_doc("()")
                    } else {
                        bracket("(", ")", intersperse_with_line(fields_to_docs(&k.fields, ":")))
                    }
                },
            }
            };
                proof {
                    assert(doc_of_arm@ == cons_doc(cons_view(*self)));
                }
                doc_of_arm
            },
            Cons::Tuple(OrderedAnd::NonRow(ts)) => {
                let doc_of_arm = {
                if ts.len() == 0 {
                    lit_doc("()")
                } else {
                    bracket("(", ")", intersperse_with_line(types_to_docs(ts)))
                }
            };
                proof {
                    assert(doc_of_arm@ == cons_doc(cons_view(*self)));
                }
                doc_of_arm
            },
            Cons::Tuple(OrderedAnd::Row(l, v, r)) => {
                let doc_of_arm = {
                let mut docs = types_to_docs(l);
                docs.push(row_to_doc(v));
                let mut right = types_to_docs(r);
                docs.append(&mut right);
                proof {
                    assert(docs_of(docs@) =~= comma_docs(types_view(l@)) + seq![row_doc(v@)] + comma_docs(
                        types_view(r@),
                    ));
                }
                bracket("(", ")", intersperse_with_line(docs))
            };
                proof {
                    assert(doc_of_arm@ == cons_doc(cons_view(*self)));
                }
                doc_of_arm
            },
            Cons::Union(k) => {
                let doc_of_arm = {
                proof {
                    lemma_fields_view(k.fields@);
                }
                {
                let separator = group(concat(triple(line(), lit_doc("|"), space())));
                match &k.rest {
                    Some(v) => {
                        let mut docs = variants_to_docs(&k.fields);
                        docs.push(v.to_doc());
                        intersperse(docs, separator)
                    },
                    None => {
                        if k.fields.len() == 0 {
                            lit_doc("never")
                        } else {
                            intersperse(variants_to_docs(&k.fields), separator)
                        }
                    },
                }
            }
            };
                proof {
                    assert(doc_of_arm@ == cons_doc(cons_view(*self)));
                }
                doc_of_arm
            },
        }
    }
}

/// The documents of the types, each with its comma, one for each type.
proof fn lemma_comma_docs(ts: Seq<TypeV>)
    ensures
        comma_docs(ts).len() == ts.len(),
        forall|i: int|
            0 <= i < ts.len() ==> #[trigger] comma_docs(ts)[i] == doc_group(
                doc_concat(seq![type_doc(ts[i]), lit(seq![','])]),
            ),
    decreases ts.len(),
{
    if ts.len() > 0 {
        lemma_comma_docs(ts.drop_last());
    }
}

/// The document of a tuple with a row variable holds every item: two such
/// tuples with the same row variable and left parts of the same length
/// have the same document only when their right parts have the same length
/// and their items, on either side, have the same documents.
pub proof fn law_row_tuple_doc_items(l1: Seq<TypeV>, r1: Seq<TypeV>, l2: Seq<TypeV>, r2: Seq<TypeV>, v: VarV)
    requires
        l1.len() == l2.len(),
        type_doc(TypeV::Cons(ConsV::Tuple(OrderedAndV::Row(l1, v, r1)))) == type_doc(
            TypeV::Cons(ConsV::Tuple(OrderedAndV::Row(l2, v, r2))),
        ),
    ensures
        r1.len() == r2.len(),
        forall|i: int| 0 <= i < l1.len() ==> type_doc(#[trigger] l1[i]) == type_doc(l2[i]),
        forall|i: int| 0 <= i < r1.len() ==> type_doc(#[trigger] r1[i]) == type_doc(r2[i]),
{
    lemma_comma_docs(l1);
    lemma_comma_docs(l2);
    lemma_comma_docs(r1);
    lemma_comma_docs(r2);
    let d1 = comma_docs(l1) + seq![row_doc(v)] + comma_docs(r1);
    let d2 = comma_docs(l2) + seq![row_doc(v)] + comma_docs(r2);
    assert(d1 == d2);
    assert(d1.len() == d2.len());
    assert forall|i: int| 0 <= i < l1.len() implies type_doc(#[trigger] l1[i]) == type_doc(l2[i]) by {
        assert(d1[i] == comma_docs(l1)[i]);
        assert(d2[i] == comma_docs(l2)[i]);
    }
    assert forall|i: int| 0 <= i < r1.len() implies type_doc(#[trigger] r1[i]) == type_doc(r2[i]) by {
        let k = l1.len() + 1 + i;
        assert(d1[k] == comma_docs(r1)[i]);
        assert(d2[k] == comma_docs(r2)[i]);
    }
}

} // verus!
