//! Patterns without type annotations laid out as documents of the `pretty`
//! crate.
use crate::doc::{bracket, bracket_doc, concat, doc_concat, doc_text, intersperse_with_line, intersperse_with_space, lined_doc, nil, pair, signed, spaced_doc, text, triple, unsigned, Doc, DocV, docs_of, lemma_docs_of};
use crate::pattern::{
    binding_view, list_pattern_view, pattern_kind_view, pattern_opt_view, pattern_view,
    patterns_view, typed_vars_view, BindingV, ListPattern, ListPatternV, Pattern, PatternKind,
    PatternV, TaggedPattern, TypedVar, Var,
};
use crate::ty::Atom;
use vstd::prelude::*;

verus! {

broadcast use crate::doc::group_docs_of;

/// The document of a fixed text.
pub open spec fn word(s: &str) -> DocV {
    doc_text(s@)
}

/// A document followed by `,`.
pub open spec fn comma_doc(d: DocV) -> DocV {
    doc_concat(seq![d, word(",")])
}

/// Each document followed by `,`.
pub open spec fn comma_docs(ds: Seq<DocV>) -> Seq<DocV> {
    ds.map_values(|d: DocV| comma_doc(d))
}

/// A document after a `*`.
pub open spec fn star_doc(d: DocV) -> DocV {
    doc_concat(seq![word("*"), d])
}

/// The document of a variable a pattern binds: `mut` and `&<` when it is
/// mutable (the reference marker follows mutability), then the name.
pub open spec fn binding_doc(v: BindingV) -> DocV {
    let mutable = if v.mutable {
        word("mut")
    } else {
        DocV::Nil
    };
    let bind_to_ref = if v.mutable {
        word("&<")
    } else {
        DocV::Nil
    };
    spaced_doc(seq![mutable, doc_concat(seq![bind_to_ref, doc_text(v.ident)])])
}

/// The document of a pattern.
pub open spec fn pattern_doc(p: PatternV) -> DocV
    decreases p,
{
    match p {
        PatternV::UInt(n) => DocV::Unsigned(n),
        PatternV::Int(n) => DocV::Signed(n),
        PatternV::Discard => word("_"),
        PatternV::True => word("true"),
        PatternV::False => word("false"),
        PatternV::Var(v) => binding_doc(v),
        PatternV::Record(fields, rest) => bracket_doc(
            "("@,
            ")"@,
            lined_doc(
                comma_docs(
                    field_pattern_docs(fields) + match rest {
                        Some(r) => seq![star_doc(pattern_doc(*r))],
                        None => Seq::empty(),
                    },
                ),
            ),
        ),
        PatternV::Tuple(l) => bracket_doc("("@, ")"@, list_pattern_doc(l)),
        PatternV::Param(vars) => bracket_doc(
            "("@,
            ")"@,
            lined_doc(comma_docs(vars.map_values(|v: BindingV| binding_doc(v)))),
        ),
        PatternV::Array(l) => bracket_doc("("@, ")"@, list_pattern_doc(l)),
        PatternV::Tag(tag, inner) => tag_doc(
            tag,
            match inner {
                Some(x) => bracket_doc("("@, ")"@, pattern_doc(*x)),
                None => DocV::Nil,
            },
        ),
        PatternV::Ref(inner) => doc_concat(seq![word("&"), pattern_doc(*inner)]),
    }
}

/// The document of a tagged pattern: `@tag`, then the document of the
/// payload.
pub open spec fn tag_doc(tag: Seq<char>, payload: DocV) -> DocV {
    spaced_doc(seq![doc_concat(seq![word("@"), doc_text(tag)]), payload])
}

/// The documents of the patterns of a list.
pub open spec fn pattern_docs(s: Seq<PatternV>) -> Seq<DocV>
    decreases s,
{
    if s.len() == 0 {
        Seq::empty()
    } else {
        proof {
            assert(decreases_to!(s => s[s.len() - 1]));
        }
        pattern_docs(s.drop_last()).push(pattern_doc(s[s.len() - 1]))
    }
}

/// The documents `name = pattern` of the fields of a record pattern.
pub open spec fn field_pattern_docs(s: Seq<(Seq<char>, PatternV)>) -> Seq<DocV>
    decreases s,
{
    if s.len() == 0 {
        Seq::empty()
    } else {
        proof {
            assert(decreases_to!(s => s[s.len() - 1]));
        }
        field_pattern_docs(s.drop_last()).push(
            spaced_doc(
                seq![doc_text(s[s.len() - 1].0), word("="), pattern_doc(s[s.len() - 1].1)],
            ),
        )
    }
}

/// The document of the items of a list pattern, each followed by `,`.
pub open spec fn list_pattern_doc(l: ListPatternV) -> DocV
    decreases l,
{
    match l {
        ListPatternV::List(items) => lined_doc(comma_docs(pattern_docs(items))),
        ListPatternV::WithRest(left, rest, right) => lined_doc(
            comma_docs(pattern_docs(left) + seq![star_doc(pattern_doc(*rest))] + pattern_docs(right)),
        ),
    }
}

/// The document of a fixed text.
pub fn word_doc(s: &str) -> (d: Doc)
    ensures
        d@ == word(s),
{
    text(String::from_str(s))
}

/// `d` followed by `,`.
pub fn comma(d: Doc) -> (c: Doc)
    ensures
        c@ == comma_doc(d@),
{
    concat(pair(d, word_doc(",")))
}

/// `d` after a `*`.
pub fn star(d: Doc) -> (c: Doc)
    ensures
        c@ == star_doc(d@),
{
    concat(pair(word_doc("*"), d))
}

/// Appends `d` followed by `,` to `docs`.
pub fn push_comma(docs: &mut Vec<Doc>, d: Doc)
    ensures
        docs_of(final(docs)@) == docs_of(old(docs)@).push(comma_doc(d@)),
{
    docs.push(comma(d));
}

impl Var {
    /// The document of the variable.
    pub fn to_doc(&self) -> (doc: Doc)
        ensures
            doc@ == binding_doc(binding_view(*self)),
    {
        let mutable = if self.mutable {
            word_doc("mut")
        } else {
            nil()
        };
        let bind_to_ref = if self.mutable {
            word_doc("&<")
        } else {
            nil()
        };
        let ident = text(self.ident.clone());
        intersperse_with_space(pair(mutable, concat(pair(bind_to_ref, ident))))
    }
}

impl TypedVar<()> {
    /// The document of the variable.
    pub fn to_doc(&self) -> (doc: Doc)
        ensures
            doc@ == binding_doc(binding_view(self.var)),
    {
        self.var.to_doc()
    }
}

/// The documents of the first `n` patterns, each followed by `,`.
fn pattern_comma_docs(items: &Vec<Pattern<()>>, docs: &mut Vec<Doc>)
    ensures
        docs_of(final(docs)@) == docs_of(old(docs)@) + comma_docs(pattern_docs(patterns_view(items@))),
    decreases items@,
{
    let ghost start = docs_of(docs@);
    let mut i: usize = 0;
    proof {
        assert(patterns_view(items@.take(0)) =~= Seq::<PatternV>::empty());
        assert(pattern_docs(Seq::<PatternV>::empty()) =~= Seq::<DocV>::empty());
        assert(docs_of(docs@) =~= start + comma_docs(pattern_docs(patterns_view(items@.take(0)))));
    }
    while i < items.len()
        invariant
            i <= items@.len(),
            docs_of(docs@) == start + comma_docs(pattern_docs(patterns_view(items@.take(i as int)))),
        decreases items@.len() - i,
    {
        proof {
            assert(decreases_to!(items@ => items@[i as int]));
        }
        let d = items[i].to_doc();
        proof {
            assert(items@.take(i + 1).drop_last() =~= items@.take(i as int));
            let vs = patterns_view(items@.take(i + 1));
            assert(vs.drop_last() == patterns_view(items@.take(i as int)));
            assert(comma_docs(pattern_docs(vs)) =~= comma_docs(
                pattern_docs(patterns_view(items@.take(i as int))),
            ).push(comma_doc(d@)));
        }
        push_comma(docs, d);
        proof {
            assert(docs_of(docs@) =~= start + comma_docs(pattern_docs(patterns_view(items@.take(i + 1)))));
        }
        i = i + 1;
    }
    proof {
        assert(items@.take(items@.len() as int) =~= items@);
    }
}

impl ListPattern<()> {
    /// The document of the items, each followed by `,`.
    pub fn to_doc(&self) -> (doc: Doc)
        ensures
            doc@ == list_pattern_doc(list_pattern_view(*self)),
        decreases self,
    {
        let mut docs: Vec<Doc> = Vec::new();
        match self {
            ListPattern::List(items) => {
                pattern_comma_docs(items, &mut docs);
                proof {
                    assert(docs_of(docs@) =~= comma_docs(pattern_docs(patterns_view(items@))));
                }
            },
            ListPattern::ListWithRest(w) => {
                pattern_comma_docs(&w.left, &mut docs);
                let rest = star(w.rest.to_doc());
                push_comma(&mut docs, rest);
                pattern_comma_docs(&w.right, &mut docs);
                proof {
                    assert(docs_of(docs@) =~= comma_docs(
                        pattern_docs(patterns_view(w.left@)) + seq![
                            star_doc(pattern_doc(pattern_view(*w.rest))),
                        ] + pattern_docs(patterns_view(w.right@)),
                    ));
                }
            },
        }
        intersperse_with_line(docs)
    }
}

/// The documents `name = pattern` of the fields, each followed by `,`.
fn field_comma_docs(fields: &Vec<(Atom, Pattern<()>)>, docs: &mut Vec<Doc>)
    ensures
        docs_of(final(docs)@) == docs_of(old(docs)@) + comma_docs(
            field_pattern_docs(crate::pattern::pattern_fields_view(fields@)),
        ),
    decreases fields@,
{
    let ghost start = docs_of(docs@);
    let mut i: usize = 0;
    proof {
        assert(crate::pattern::pattern_fields_view(fields@.take(0)) =~= Seq::<
            (Seq<char>, PatternV),
        >::empty());
        assert(field_pattern_docs(Seq::<(Seq<char>, PatternV)>::empty()) =~= Seq::<DocV>::empty());
        assert(docs_of(docs@) =~= start + comma_docs(
            field_pattern_docs(crate::pattern::pattern_fields_view(fields@.take(0))),
        ));
    }
    while i < fields.len()
        invariant
            i <= fields@.len(),
            docs_of(docs@) == start + comma_docs(
                field_pattern_docs(crate::pattern::pattern_fields_view(fields@.take(i as int))),
            ),
        decreases fields@.len() - i,
    {
        proof {
            assert(decreases_to!(fields@ => fields@[i as int]));
            assert(decreases_to!(fields@[i as int] => fields@[i as int].1));
        }
        let d = fields[i].1.to_doc();
        let f = intersperse_with_space(triple(text(fields[i].0.clone()), word_doc("="), d));
        proof {
            assert(fields@.take(i + 1).drop_last() =~= fields@.take(i as int));
            let vs = crate::pattern::pattern_fields_view(fields@.take(i + 1));
            assert(vs.drop_last() == crate::pattern::pattern_fields_view(fields@.take(i as int)));
            assert(comma_docs(field_pattern_docs(vs)) =~= comma_docs(
                field_pattern_docs(crate::pattern::pattern_fields_view(fields@.take(i as int))),
            ).push(comma_doc(f@)));
        }
        push_comma(docs, f);
        proof {
            assert(docs_of(docs@) =~= start + comma_docs(
                field_pattern_docs(crate::pattern::pattern_fields_view(fields@.take(i + 1))),
            ));
        }
        i = i + 1;
    }
    proof {
        assert(fields@.take(fields@.len() as int) =~= fields@);
    }
}

impl PatternKind<()> {
    /// The document of the pattern.
    pub fn to_doc(&self) -> (doc: Doc)
        ensures
            doc@ == pattern_doc(pattern_kind_view(*self)),
        decreases self,
    {
        match self {
            PatternKind::UInt(n) => unsigned(*n),
            PatternKind::Int(n) => signed(*n),
            PatternKind::Discard => word_doc("_"),
            PatternKind::True => word_doc("true"),
            PatternKind::False => word_doc("false"),
            PatternKind::Var(v) => v.to_doc(),
            PatternKind::Record(record) => {
                let mut docs: Vec<Doc> = Vec::new();
                field_comma_docs(&record.fields, &mut docs);
                let ghost before = docs_of(docs@);
                match &record.rest {
                    Some(rest) => {
                        let r = star(rest.to_doc());
                        push_comma(&mut docs, r);
                    },
                    None => {},
                }
                proof {
                    let fd = field_pattern_docs(crate::pattern::pattern_fields_view(record.fields@));
                    let tail = match pattern_opt_view(record.rest) {
                        Some(r) => seq![star_doc(pattern_doc(*r))],
                        None => Seq::empty(),
                    };
                    assert(docs_of(docs@) =~= comma_docs(fd + tail));
                }
                bracket("(", ")", intersperse_with_line(docs))
            },
            PatternKind::Tuple(l) => bracket("(", ")", l.to_doc()),
            PatternKind::Param(vars) => {
                let mut docs: Vec<Doc> = Vec::new();
                let mut i: usize = 0;
                while i < vars.len()
                    invariant
                        i <= vars@.len(),
                        docs_of(docs@) == comma_docs(
                            typed_vars_view(vars@.take(i as int)).map_values(
                                |v: BindingV| binding_doc(v),
                            ),
                        ),
                    decreases vars@.len() - i,
                {
                    let d = vars[i].to_doc();
                    proof {
                        assert(comma_docs(
                            typed_vars_view(vars@.take(i + 1)).map_values(
                                |v: BindingV| binding_doc(v),
                            ),
                        ) =~= comma_docs(
                            typed_vars_view(vars@.take(i as int)).map_values(
                                |v: BindingV| binding_doc(v),
                            ),
                        ).push(comma_doc(d@)));
                    }
                    push_comma(&mut docs, d);
                    i = i + 1;
                }
                proof {
                    assert(vars@.take(vars@.len() as int) =~= vars@);
                }
                bracket("(", ")", intersperse_with_line(docs))
            },
            PatternKind::Array(l) => bracket("(", ")", l.to_doc()),
            PatternKind::Tag(tag) => tag.to_doc(),
            PatternKind::Ref(inner) => concat(pair(word_doc("&"), inner.to_doc())),
        }
    }
}

impl Pattern<()> {
    /// The document of the pattern.
    pub fn to_doc(&self) -> (doc: Doc)
        ensures
            doc@ == pattern_doc(self@),
        decreases self,
    {
        self.pattern.to_doc()
    }
}

impl TaggedPattern<()> {
    /// The document of the tagged pattern: `@tag`, then the payload in
    /// brackets if there is one.
    pub fn to_doc(&self) -> (doc: Doc)
        ensures
            doc@ == tag_doc(
                self.tag@,
                match pattern_opt_view(self.pattern) {
                    Some(x) => bracket_doc("("@, ")"@, pattern_doc(*x)),
                    None => DocV::Nil,
                },
            ),
        decreases self,
    {
        let payload = match &self.pattern {
            Some(inner) => bracket("(", ")", inner.to_doc()),
            None => nil(),
        };
        proof {
            let expected = match pattern_opt_view(self.pattern) {
                Some(x) => bracket_doc("("@, ")"@, pattern_doc(*x)),
                None => DocV::Nil,
            };
            assert(payload@ == expected);
        }
        let head = concat(pair(word_doc("@"), text(self.tag.clone())));
        let doc = intersperse_with_space(pair(head, payload));
        proof {
            assert(head@ == doc_concat(seq![word("@"), doc_text(self.tag@)]));
            assert(doc@ == spaced_doc(seq![head@, payload@]));
        }
        doc
    }
}

} // verus!
