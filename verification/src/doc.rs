//! Documents of the `pretty` crate, and the layouts the language's printers
//! build from them.
use pretty::BoxDoc;
use vstd::prelude::*;

verus! {

#[verifier::external_type_specification]
#[verifier::external_body]
#[verifier::reject_recursive_types(A)]
pub struct ExBoxDoc<'a, A>(BoxDoc<'a, A>);

/// A layout the printers build; `render` lays it out with the `pretty`
/// crate, each variant as the `BoxDoc` operation of the same name.
pub enum Doc {
    /// A text without line breaks (`BoxDoc::text`).
    Text(String),
    /// The documents one after the other (`BoxDoc::concat`).
    Concat(Vec<Doc>),
    /// The documents with a separator between each two
    /// (`BoxDoc::intersperse`).
    Intersperse(Vec<Doc>, Box<Doc>),
    /// The document on one line where it fits (`BoxDoc::group`).
    Group(Box<Doc>),
    /// The document with its line breaks indented further (`BoxDoc::nest`).
    Nest(Box<Doc>, isize),
    /// A line break that is a space on one line (`BoxDoc::line`).
    Line,
    /// A line break that is nothing on one line (`BoxDoc::line_`).
    LineBreak,
    /// A space (`BoxDoc::space`).
    Space,
    /// The empty document (`BoxDoc::nil`).
    Nil,
    /// The decimal digits of an unsigned number (`BoxDoc::as_string`).
    Unsigned(u64),
    /// The decimal digits and sign of a signed number (`BoxDoc::as_string`).
    Signed(i64),
}

/// The model of a layout: texts as characters.
pub enum DocV {
    Text(Seq<char>),
    Concat(Seq<DocV>),
    Intersperse(Seq<DocV>, Box<DocV>),
    Group(Box<DocV>),
    Nest(Box<DocV>, int),
    Line,
    LineBreak,
    Space,
    Nil,
    Unsigned(u64),
    Signed(i64),
}

/// The model of a layout.
pub open spec fn doc_view(d: Doc) -> DocV
    decreases d,
{
    match d {
        Doc::Text(t) => DocV::Text(t@),
        Doc::Concat(ds) => DocV::Concat(views_of(ds@)),
        Doc::Intersperse(ds, sep) => DocV::Intersperse(views_of(ds@), Box::new(doc_view(*sep))),
        Doc::Group(x) => DocV::Group(Box::new(doc_view(*x))),
        Doc::Nest(x, offset) => DocV::Nest(Box::new(doc_view(*x)), offset as int),
        Doc::Line => DocV::Line,
        Doc::LineBreak => DocV::LineBreak,
        Doc::Space => DocV::Space,
        Doc::Nil => DocV::Nil,
        Doc::Unsigned(n) => DocV::Unsigned(n),
        Doc::Signed(n) => DocV::Signed(n),
    }
}

/// The models of a list of layouts, as `doc_view` takes them.
pub open spec fn views_of(ds: Seq<Doc>) -> Seq<DocV>
    decreases ds,
{
    if ds.len() == 0 {
        Seq::empty()
    } else {
        proof {
            assert(decreases_to!(ds => ds[ds.len() - 1]));
        }
        views_of(ds.drop_last()).push(doc_view(ds[ds.len() - 1]))
    }
}

/// The models of a list of layouts.
pub open spec fn docs_of(ds: Seq<Doc>) -> Seq<DocV> {
    ds.map_values(|d: Doc| d@)
}

impl View for Doc {
    type V = DocV;

    open spec fn view(&self) -> DocV {
        doc_view(*self)
    }
}

/// The models taken by `doc_view` are those of `docs_of`.
pub proof fn lemma_views_of(ds: Seq<Doc>)
    ensures
        views_of(ds) == docs_of(ds),
    decreases ds.len(),
{
    if ds.len() > 0 {
        lemma_views_of(ds.drop_last());
        assert(docs_of(ds) =~= docs_of(ds.drop_last()).push(ds[ds.len() - 1]@));
    } else {
        assert(docs_of(ds) =~= Seq::<DocV>::empty());
    }
}

/// The models of a list of layouts are taken one by one.
pub proof fn lemma_docs_of(ds: Seq<Doc>)
    ensures
        docs_of(ds).len() == ds.len(),
        forall|i: int| 0 <= i < ds.len() ==> #[trigger] docs_of(ds)[i] == ds[i]@,
{
}

/// The models of a list with one more layout.
pub broadcast proof fn lemma_docs_of_push(ds: Seq<Doc>, d: Doc)
    ensures
        #[trigger] docs_of(ds.push(d)) == docs_of(ds).push(d@),
{
    assert(docs_of(ds.push(d)) =~= docs_of(ds).push(d@));
}

/// The models of two lists joined.
pub broadcast proof fn lemma_docs_of_add(a: Seq<Doc>, b: Seq<Doc>)
    ensures
        #[trigger] docs_of(a + b) == docs_of(a) + docs_of(b),
{
    assert(docs_of(a + b) =~= docs_of(a) + docs_of(b));
}

/// The models of the empty list.
pub broadcast proof fn lemma_docs_of_empty(a: Seq<Doc>)
    ensures
        a.len() == 0 ==> #[trigger] docs_of(a) == Seq::<DocV>::empty(),
{
    assert(a.len() == 0 ==> docs_of(a) =~= Seq::<DocV>::empty());
}

/// Facts about the models of lists of layouts.
pub broadcast group group_docs_of {
    lemma_docs_of_push,
    lemma_docs_of_add,
    lemma_docs_of_empty,
}

/// A text.
pub open spec fn doc_text(text: Seq<char>) -> DocV {
    DocV::Text(text)
}

/// The documents one after the other.
pub open spec fn doc_concat(docs: Seq<DocV>) -> DocV {
    DocV::Concat(docs)
}

/// The documents with a separator between each two.
pub open spec fn doc_intersperse(docs: Seq<DocV>, separator: DocV) -> DocV {
    DocV::Intersperse(docs, Box::new(separator))
}

/// The document on one line where it fits.
pub open spec fn doc_group(doc: DocV) -> DocV {
    DocV::Group(Box::new(doc))
}

/// The document with its line breaks indented further.
pub open spec fn doc_nest(doc: DocV, offset: int) -> DocV {
    DocV::Nest(Box::new(doc), offset)
}

/// The text `doc` is laid out as in the given width by `pretty`.
pub uninterp spec fn doc_render(doc: DocV, width: usize) -> Seq<char>;

/// A text.
pub fn text(content: String) -> (doc: Doc)
    ensures
        doc@ == doc_text(content@),
{
    Doc::Text(content)
}

/// The documents one after the other.
pub fn concat(docs: Vec<Doc>) -> (doc: Doc)
    ensures
        doc@ == doc_concat(docs_of(docs@)),
{
    proof {
        lemma_views_of(docs@);
    }
    Doc::Concat(docs)
}

/// The documents with `separator` between each two.
pub fn intersperse(docs: Vec<Doc>, separator: Doc) -> (doc: Doc)
    ensures
        doc@ == doc_intersperse(docs_of(docs@), separator@),
{
    proof {
        lemma_views_of(docs@);
    }
    Doc::Intersperse(docs, Box::new(separator))
}

/// The document on one line where it fits.
pub fn group(doc: Doc) -> (grouped: Doc)
    ensures
        grouped@ == doc_group(doc@),
{
    Doc::Group(Box::new(doc))
}

/// The document with its line breaks indented further by `offset`.
pub fn nest(doc: Doc, offset: isize) -> (nested: Doc)
    ensures
        nested@ == doc_nest(doc@, offset as int),
{
    Doc::Nest(Box::new(doc), offset)
}

/// A line break that is a space on one line.
pub fn line() -> (doc: Doc)
    ensures
        doc@ == DocV::Line,
{
    Doc::Line
}

/// A line break that is nothing on one line.
pub fn line_() -> (doc: Doc)
    ensures
        doc@ == DocV::LineBreak,
{
    Doc::LineBreak
}

/// A space.
pub fn space() -> (doc: Doc)
    ensures
        doc@ == DocV::Space,
{
    Doc::Space
}

/// The empty document.
pub fn nil() -> (doc: Doc)
    ensures
        doc@ == DocV::Nil,
{
    Doc::Nil
}

/// The decimal digits of an unsigned number.
pub fn unsigned(n: u64) -> (doc: Doc)
    ensures
        doc@ == DocV::Unsigned(n),
{
    Doc::Unsigned(n)
}

/// The decimal digits and sign of a signed number.
pub fn signed(n: i64) -> (doc: Doc)
    ensures
        doc@ == DocV::Signed(n),
{
    Doc::Signed(n)
}

/// The `BoxDoc` a layout stands for: each variant becomes the `BoxDoc`
/// operation of its name. Nothing is stated of the value.
#[verifier::external_body]
fn to_box_doc(doc: &Doc) -> BoxDoc<'static, ()> {
    match doc {
        Doc::Text(t) => BoxDoc::text(t.clone()),
        Doc::Concat(ds) => BoxDoc::concat(ds.iter().map(to_box_doc)),
        Doc::Intersperse(ds, sep) => BoxDoc::intersperse(ds.iter().map(to_box_doc), to_box_doc(sep)),
        Doc::Group(x) => to_box_doc(x).group(),
        Doc::Nest(x, offset) => to_box_doc(x).nest(*offset),
        Doc::Line => BoxDoc::line(),
        Doc::LineBreak => BoxDoc::line_(),
        Doc::Space => BoxDoc::space(),
        Doc::Nil => BoxDoc::nil(),
        Doc::Unsigned(n) => BoxDoc::as_string(*n),
        Doc::Signed(n) => BoxDoc::as_string(*n),
    }
}

/// `BoxDoc::pretty` on the layout in the given width, written out. The
/// text is a function of the layout and the width, left to the name
/// `doc_render`.
#[verifier::external_body]
pub fn render(doc: &Doc, width: usize) -> (text: String)
    ensures
        text@ == doc_render(doc@, width),
{
    format!("{}", to_box_doc(doc).pretty(width))
}

// ---------------------------------------------------------------------
// Layouts

/// Content between an opening and a closing text, indented by four on
/// its own lines when it does not fit.
pub open spec fn bracket_doc(open: Seq<char>, close: Seq<char>, content: DocV) -> DocV {
    doc_group(
        doc_concat(
            seq![
                doc_text(open),
                doc_nest(doc_group(doc_concat(seq![DocV::LineBreak, content])), 4),
                DocV::LineBreak,
                doc_text(close),
            ],
        ),
    )
}

/// The documents with spaces between them, on one line where they fit.
pub open spec fn spaced_doc(docs: Seq<DocV>) -> DocV {
    doc_group(doc_intersperse(docs, DocV::Space))
}

/// The documents with line breaks between them, on one line where they
/// fit.
pub open spec fn lined_doc(docs: Seq<DocV>) -> DocV {
    doc_group(doc_intersperse(docs, DocV::Line))
}

/// A list of two documents.
pub fn pair(a: Doc, b: Doc) -> (docs: Vec<Doc>)
    ensures
        docs_of(docs@) == seq![a@, b@],
{
    let mut docs: Vec<Doc> = Vec::new();
    docs.push(a);
    docs.push(b);
    proof {
        lemma_docs_of(docs@);
        assert(docs_of(docs@) =~= seq![a@, b@]);
    }
    docs
}

/// A list of three documents.
pub fn triple(a: Doc, b: Doc, c: Doc) -> (docs: Vec<Doc>)
    ensures
        docs_of(docs@) == seq![a@, b@, c@],
{
    let mut docs: Vec<Doc> = Vec::new();
    docs.push(a);
    docs.push(b);
    docs.push(c);
    proof {
        lemma_docs_of(docs@);
        assert(docs_of(docs@) =~= seq![a@, b@, c@]);
    }
    docs
}

/// Content between an opening and a closing text, indented by four on
/// its own lines when it does not fit.
pub fn bracket(open: &str, close: &str, content: Doc) -> (doc: Doc)
    ensures
        doc@ == bracket_doc(open@, close@, content@),
{
    let inner = nest(group(concat(pair(line_(), content))), 4);
    let mut parts: Vec<Doc> = Vec::new();
    parts.push(text(String::from_str(open)));
    parts.push(inner);
    parts.push(line_());
    parts.push(text(String::from_str(close)));
    proof {
        lemma_docs_of(parts@);
        assert(docs_of(parts@) =~= seq![
            doc_text(open@),
            doc_nest(doc_group(doc_concat(seq![DocV::LineBreak, content@])), 4),
            DocV::LineBreak,
            doc_text(close@),
        ]);
    }
    group(concat(parts))
}

/// The documents with spaces between them, on one line where they fit.
pub fn intersperse_with_space(contents: Vec<Doc>) -> (doc: Doc)
    ensures
        doc@ == spaced_doc(docs_of(contents@)),
{
    group(intersperse(contents, space()))
}

/// The documents with line breaks between them, on one line where they
/// fit.
pub fn intersperse_with_line(contents: Vec<Doc>) -> (doc: Doc)
    ensures
        doc@ == lined_doc(docs_of(contents@)),
{
    group(intersperse(contents, line()))
}

} // verus!
