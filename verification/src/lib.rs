//! A small pretty-printing library: a document describes a set of possible
//! layouts, and the resolver picks, for a given line width, the first one
//! whose current line fits.
//!
//! A document is built from [`nil`], [`text`], [`line`], [`nest`] and [`cat`],
//! and from the combinators defined on top of them. Every function is verified
//! against the mathematical model of the module [`layout`].

pub mod format;
pub mod laws;
pub mod layout;
pub mod operators;

pub use crate::format::ProcessedFormat;
use crate::format::FormatDesc;
use crate::layout::Layout;
use vstd::prelude::*;

verus! {

/// A set of possible layouts for a piece of content.
#[derive(Debug)]
pub struct Document(FormatDesc);

impl View for Document {
    type V = Layout;

    closed spec fn view(&self) -> Layout {
        self.0@
    }
}

impl Clone for Document {
    fn clone(&self) -> (r: Self)
        ensures
            r@ == self@,
    {
        Document(self.0.clone())
    }
}

impl Document {
    /// Applies `f` to the tree of the document.
    fn map<F: FnOnce(FormatDesc) -> FormatDesc>(self, f: F) -> (r: Document)
        requires
            call_requires(f, (self.0,)),
        ensures
            call_ensures(f, (self.0,), r.0),
    {
        Document(f(self.0))
    }

    /// Says whether the document can be laid out: whether every indentation
    /// that its nesting adds up to is a 32-bit value.
    pub fn nesting_in_range(&self) -> (b: bool)
        ensures
            b == layout::nesting_in_range(0, self@),
    {
        self.0.nesting_in_range(0)
    }

    /// The single-line form of the document, its line breaks replaced by `c`.
    pub fn flatten_with(&self, c: &str) -> (r: Document)
        ensures
            r@ == layout::flatten_with(c@, self@),
    {
        let f = |x: FormatDesc| -> (y: FormatDesc)
            ensures
                y@ == layout::flatten_with(c@, x@),
            {
                x.flatten_with(c)
            };
        self.clone().map(f)
    }

    /// The single-line form of the document, its line breaks replaced by a
    /// space.
    pub fn flatten(&self) -> (r: Document)
        ensures
            r@ == layout::flatten(self@),
    {
        proof {
            reveal_strlit(" ");
            assert(" "@ =~= seq![' ']);
        }
        self.flatten_with(" ")
    }
}

/// Tells how to turn a value into a [`Document`], and provides `pretty` to
/// choose its best layout.
pub trait Format {
    /// The document that describes the possible layouts of `self`.
    fn format(&self) -> Document;

    /// The layout chosen at the width `w` for the document of `self`. The
    /// indentations inside that document must add up to 32-bit values, which
    /// [`Document::nesting_in_range`] tests.
    fn pretty(&self, w: i32) -> (r: ProcessedFormat)
        requires
            forall|d: Document| #[trigger]
                call_ensures(Self::format, (self,), d) ==> layout::nesting_in_range(0, d@),
        ensures
            exists|d: Document| #[trigger]
                call_ensures(Self::format, (self,), d) && r@ == layout::resolve(
                    w as int,
                    0,
                    seq![(0int, d@)],
                ),
    {
        self.format().0.pretty(w)
    }
}

impl Format for Document {
    fn format(&self) -> (d: Document)
        ensures
            d@ == self@,
    {
        self.clone()
    }
}

/// The empty document.
pub fn nil() -> (d: Document)
    ensures
        d@ == Layout::Nil,
{
    Document(FormatDesc::Nil)
}

/// A line break.
pub fn line() -> (d: Document)
    ensures
        d@ == Layout::Line,
{
    Document(FormatDesc::Line)
}

/// The document that holds the text `s`.
pub fn text(s: &str) -> (d: Document)
    ensures
        d@ == Layout::Text(s@),
{
    Document(FormatDesc::Text(s.to_owned()))
}

/// The document `x`, its line breaks indented by `i` more spaces.
pub fn nest(i: i32, x: Document) -> (d: Document)
    ensures
        d@ == Layout::Nest(i as int, Box::new(x@)),
{
    Document(FormatDesc::Nest(i, Box::new(x.0)))
}

/// The document `x` followed by the document `y`.
pub fn cat(x: Document, y: Document) -> (d: Document)
    ensures
        d@ == Layout::Cat(Box::new(x@), Box::new(y@)),
{
    Document(FormatDesc::Cat(Box::new(x.0), Box::new(y.0)))
}

/// The alternative between `x` and `y`, `x` taking precedence. The two must
/// flatten to the same text.
pub(crate) fn union(x: Document, y: Document) -> (d: Document)
    ensures
        d@ == Layout::Union(Box::new(x@), Box::new(y@)),
{
    Document(FormatDesc::Union(Box::new(x.0), Box::new(y.0)))
}

/// The layouts of the documents `docs`, in order.
pub open spec fn views(docs: Seq<Document>) -> Seq<Layout> {
    Seq::new(docs.len(), |n: int| docs[n]@)
}

/// Whether `docs` can be what `format` returns for the items of `xs`: one
/// document for each item, in order.
pub open spec fn formats_to<T: Format>(xs: Seq<T>, docs: Seq<Document>) -> bool {
    &&& docs.len() == xs.len()
    &&& forall|n: int| 0 <= n < xs.len() ==> call_ensures(T::format, (&xs[n],), #[trigger] docs[n])
}

/// Adds the single-line layout of `x`, line breaks replaced by a space, as
/// the preferred alternative.
pub fn group(x: Document) -> (d: Document)
    ensures
        d@ == layout::group(x@),
{
    union(x.flatten(), x)
}

/// Adds the single-line layout of `x`, line breaks replaced by `c`, as the
/// preferred alternative.
pub fn group_with(c: &str, x: Document) -> (d: Document)
    ensures
        d@ == layout::group_with(c@, x@),
{
    union(x.flatten_with(c), x)
}

/// Encloses `x` between `l` and `r`: on one line if it fits, or else on lines
/// of its own, indented by `i` spaces.
pub fn bracket(i: i32, l: &str, x: Document, r: &str) -> (d: Document)
    ensures
        d@ == layout::bracket(i as int, l@, x@, r@),
{
    group(text(l) & (nest(i, line() & x) / text(r)))
}

/// Whether `out` can come out of combining `items` from the left with `op`.
pub open spec fn folds_to<F: Fn(Document, Document) -> Document>(
    op: F,
    items: Seq<Layout>,
    out: Layout,
) -> bool
    decreases items.len(),
{
    if items.len() == 0 {
        out == Layout::Nil
    } else if items.len() == 1 {
        out == items[0]
    } else {
        exists|a: Document, b: Document, o: Document|
            folds_to(op, items.drop_last(), a@) && b@ == items.last() && #[trigger] call_ensures(
                op,
                (a, b),
                o,
            ) && o@ == out
    }
}

/// Combines the documents of the items of `xs` from the left with `op`; the
/// empty document if there are none.
pub fn fold<T: Format, F: Fn(Document, Document) -> Document>(xs: &[T], op: F) -> (d: Document)
    requires
        forall|a: Document, b: Document| call_requires(op, (a, b)),
    ensures
        exists|docs: Seq<Document>| #[trigger]
            formats_to(xs@, docs) && folds_to(op, views(docs), d@),
{
    if xs.len() == 0 {
        assert(formats_to(xs@, Seq::<Document>::empty()));
        return nil();
    }
    let mut acc = xs[0].format();
    let ghost mut docs: Seq<Document> = seq![acc];
    let mut n: usize = 1;
    while n < xs.len()
        invariant
            1 <= n <= xs.len(),
            forall|a: Document, b: Document| call_requires(op, (a, b)),
            formats_to(xs@.take(n as int), docs),
            folds_to(op, views(docs), acc@),
        decreases xs.len() - n,
    {
        let item = xs[n].format();
        let ghost before = acc;
        let ghost seen = docs;
        acc = op(acc, item);
        proof {
            docs = seen.push(item);
            assert(views(docs).drop_last() =~= views(seen));
            assert(views(docs).last() == item@);
            assert(call_ensures(op, (before, item), acc));
        }
        n += 1;
    }
    assert(xs@.take(n as int) =~= xs@);
    acc
}

/// An operator that always returns `f` of its arguments' layouts folds a
/// sequence to the fold of `f` over it.
pub proof fn lemma_folds_to_fold<F: Fn(Document, Document) -> Document>(
    op: F,
    f: spec_fn(Layout, Layout) -> Layout,
    items: Seq<Layout>,
    out: Layout,
)
    requires
        folds_to(op, items, out),
        forall|a: Document, b: Document, o: Document| #[trigger]
            call_ensures(op, (a, b), o) ==> o@ == f(a@, b@),
    ensures
        out == layout::fold(items, f),
    decreases items.len(),
{
    if items.len() >= 2 {
        let (a, b, o) = choose|a: Document, b: Document, o: Document|
            folds_to(op, items.drop_last(), a@) && b@ == items.last() && #[trigger] call_ensures(
                op,
                (a, b),
                o,
            ) && o@ == out;
        lemma_folds_to_fold(op, f, items.drop_last(), a@);
    }
}

/// Joins the documents of the items of `xs` with a space between every two
/// of them.
pub fn spread<T: Format>(xs: &[T]) -> (d: Document)
    ensures
        exists|docs: Seq<Document>| #[trigger]
            formats_to(xs@, docs) && d@ == layout::spread(views(docs)),
{
    let op = |lhs: Document, rhs: Document| -> (o: Document)
        ensures
            o@ == layout::space_join(lhs@, rhs@),
        {
            lhs + rhs
        };
    let d = fold(xs, op);
    proof {
        let docs = choose|docs: Seq<Document>| #[trigger]
            formats_to(xs@, docs) && folds_to(op, views(docs), d@);
        lemma_folds_to_fold(
            op,
            |x: Layout, y: Layout| layout::space_join(x, y),
            views(docs),
            d@,
        );
    }
    d
}

/// Joins the documents of the items of `xs` with a line break between every
/// two of them.
pub fn stack<T: Format>(xs: &[T]) -> (d: Document)
    ensures
        exists|docs: Seq<Document>| #[trigger]
            formats_to(xs@, docs) && d@ == layout::stack(views(docs)),
{
    let op = |lhs: Document, rhs: Document| -> (o: Document)
        ensures
            o@ == layout::line_join(lhs@, rhs@),
        {
            lhs / rhs
        };
    let d = fold(xs, op);
    proof {
        let docs = choose|docs: Seq<Document>| #[trigger]
            formats_to(xs@, docs) && folds_to(op, views(docs), d@);
        lemma_folds_to_fold(
            op,
            |x: Layout, y: Layout| layout::line_join(x, y),
            views(docs),
            d@,
        );
    }
    d
}

/// The documents of the items of `xs`, in order.
fn formats<T: Format>(xs: &[T]) -> (docs: Vec<Document>)
    ensures
        formats_to(xs@, docs@),
{
    let mut docs: Vec<Document> = Vec::new();
    let mut n: usize = 0;
    while n < xs.len()
        invariant
            n <= xs.len(),
            formats_to(xs@.take(n as int), docs@),
        decreases xs.len() - n,
    {
        docs.push(xs[n].format());
        n += 1;
    }
    assert(xs@.take(n as int) =~= xs@);
    docs
}

/// [`fill`] on documents.
fn fill_documents(xs: &[Document]) -> (d: Document)
    ensures
        d@ == layout::fill(views(xs@)),
    decreases xs@.len(),
{
    if xs.len() == 0 {
        nil()
    } else if xs.len() == 1 {
        xs[0].clone()
    } else {
        let ghost all = views(xs@);
        let x = xs[0].clone();
        let y = xs[1].clone();
        let mut z1: Vec<Document> = Vec::new();
        let mut z2: Vec<Document> = Vec::new();
        z1.push(y.flatten());
        z2.push(y);
        let mut n: usize = 2;
        while n < xs.len()
            invariant
                2 <= n <= xs.len(),
                all == views(xs@),
                z1@.len() == n - 1,
                z2@.len() == n - 1,
                views(z1@) == seq![layout::flatten(all[1])] + all.subrange(2, n as int),
                views(z2@) == seq![all[1]] + all.subrange(2, n as int),
            decreases xs.len() - n,
        {
            let ghost old1 = z1@;
            let ghost old2 = z2@;
            z1.push(xs[n].clone());
            z2.push(xs[n].clone());
            proof {
                assert(all.subrange(2, n + 1) =~= all.subrange(2, n as int).push(all[n as int]));
                assert(views(z1@) =~= views(old1).push(all[n as int]));
                assert(views(z2@) =~= views(old2).push(all[n as int]));
            }
            n += 1;
        }
        assert(all.subrange(2, n as int) =~= all.skip(2));
        let same_line = fill_documents(z1.as_slice());
        let next_line = fill_documents(z2.as_slice());
        union(x.flatten() + same_line, x / next_line)
    }
}

/// Packs the documents of the items of `xs` greedily: each one follows the
/// one before it on the same line if it fits there in its single-line form,
/// and starts a new line otherwise.
pub fn fill<T: Format>(xs: &[T]) -> (d: Document)
    ensures
        exists|docs: Seq<Document>| #[trigger]
            formats_to(xs@, docs) && d@ == layout::fill(views(docs)),
{
    let docs = formats(xs);
    fill_documents(docs.as_slice())
}

/// What `format` returns for a document has the layout of that document.
pub proof fn lemma_documents_format_to_themselves(xs: Seq<Document>, docs: Seq<Document>)
    requires
        formats_to(xs, docs),
    ensures
        views(docs) == views(xs),
{
    assert(views(docs) =~= views(xs));
}

} // verus!
