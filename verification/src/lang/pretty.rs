use vstd::prelude::*;
use std::collections::VecDeque;
use crate::text::{decimal, decimal_string, push_char};

pub mod layout;

use crate::lang::pretty::layout::{
    lemma_frames_text_cons, lemma_frames_view_push, lemma_within_cons, frames_view,
    spec_pretty, view_nest, view_text, Frame, Mode,
};

verus! {

broadcast use vstd::string::group_string_axioms;

/// How a break is laid out when its group does not fit.
#[derive(Clone, Copy, Debug, PartialEq, Eq, Structural)]
pub enum BreakKind {
    /// Breaks only when the rest of the line does not fit.
    Flex,
    /// Breaks whenever its group is broken.
    Strict,
}

/// A document to lay out within a width limit.
pub enum Document<'a> {
    /// The given number of newlines, then the current indentation.
    Line(usize),
    /// A document whose groups are all broken.
    ForceBroken(Box<Document<'a>>),
    /// A point where the layout may break the line.
    Break { broken: &'a str, unbroken: &'a str, break_first: bool, kind: BreakKind },
    /// Documents one after the other.
    Vec(Vec<Document<'a>>),
    /// A document indented by the given amount more.
    Nest(isize, Box<Document<'a>>),
    /// A document laid out flat when it fits, broken otherwise.
    Group(Box<Document<'a>>),
    /// Owned text.
    String(String),
    /// Borrowed text.
    Str(&'a str),
}

/// A document as a mathematical value.
pub enum DocView {
    Line(nat),
    ForceBroken(Box<DocView>),
    Break { broken: Seq<char>, unbroken: Seq<char>, break_first: bool, kind: BreakKind },
    Vec(Seq<DocView>),
    Nest(int, Box<DocView>),
    Group(Box<DocView>),
    String(Seq<char>),
    Str(Seq<char>),
}

/// The views of a list of documents.
pub open spec fn docs_view<'a>(s: Seq<Document<'a>>) -> Seq<DocView>
    decreases s,
{
    if s.len() == 0 {
        Seq::empty()
    } else {
        docs_view(s.drop_last()).push(doc_view(s.last()))
    }
}

/// The view of a document.
pub open spec fn doc_view<'a>(d: Document<'a>) -> DocView
    decreases d,
{
    match d {
        Document::Line(n) => DocView::Line(n as nat),
        Document::ForceBroken(b) => DocView::ForceBroken(Box::new(doc_view(*b))),
        Document::Break { broken, unbroken, break_first, kind } => DocView::Break {
            broken: broken@,
            unbroken: unbroken@,
            break_first,
            kind,
        },
        Document::Vec(v) => DocView::Vec(docs_view(v@)),
        Document::Nest(i, b) => DocView::Nest(i as int, Box::new(doc_view(*b))),
        Document::Group(b) => DocView::Group(Box::new(doc_view(*b))),
        Document::String(s) => DocView::String(s@),
        Document::Str(s) => DocView::Str(s@),
    }
}

impl<'a> View for Document<'a> {
    type V = DocView;

    open spec fn view(&self) -> DocView {
        doc_view(*self)
    }
}

pub proof fn lemma_docs_view<'a>(s: Seq<Document<'a>>)
    ensures
        docs_view(s).len() == s.len(),
        forall|i: int| 0 <= i < s.len() ==> #[trigger] docs_view(s)[i] == doc_view(s[i]),
    decreases s.len(),
{
    if s.len() > 0 {
        lemma_docs_view(s.drop_last());
        assert forall|i: int| 0 <= i < s.len() implies #[trigger] docs_view(s)[i] == doc_view(
            s[i],
        ) by {
            if i < s.len() - 1 {
                assert(s.drop_last()[i] == s[i]);
            }
        }
    }
}

pub proof fn lemma_docs_view_push<'a>(s: Seq<Document<'a>>, d: Document<'a>)
    ensures
        docs_view(s.push(d)) == docs_view(s).push(doc_view(d)),
{
    assert(s.push(d).drop_last() =~= s);
}

/// Whether a document lays out as no text at all.
pub open spec fn view_is_empty(d: DocView) -> bool
    decreases d,
{
    match d {
        DocView::Line(n) => n == 0,
        DocView::String(s) => s.len() == 0,
        DocView::Str(s) => s.len() == 0,
        DocView::Break { broken, .. } => broken.len() == 0,
        DocView::ForceBroken(b) => view_is_empty(*b),
        DocView::Nest(_, b) => view_is_empty(*b),
        DocView::Group(b) => view_is_empty(*b),
        DocView::Vec(v) => views_are_empty(v),
    }
}

/// Whether every document of a list lays out as no text.
pub open spec fn views_are_empty(v: Seq<DocView>) -> bool
    decreases v,
{
    if v.len() == 0 {
        true
    } else {
        views_are_empty(v.drop_last()) && view_is_empty(v.last())
    }
}

pub proof fn lemma_views_are_empty(v: Seq<DocView>)
    ensures
        views_are_empty(v) <==> forall|i: int| 0 <= i < v.len() ==> view_is_empty(#[trigger] v[i]),
    decreases v.len(),
{
    if v.len() > 0 {
        lemma_views_are_empty(v.drop_last());
        if views_are_empty(v) {
            assert forall|i: int| 0 <= i < v.len() implies view_is_empty(#[trigger] v[i]) by {
                if i < v.len() - 1 {
                    assert(v.drop_last()[i] == v[i]);
                }
            }
        }
        if forall|i: int| 0 <= i < v.len() ==> view_is_empty(#[trigger] v[i]) {
            assert forall|i: int| 0 <= i < v.drop_last().len() implies view_is_empty(
                #[trigger] v.drop_last()[i],
            ) by {
                assert(v.drop_last()[i] == v[i]);
            }
            assert(view_is_empty(v[v.len() - 1]));
        }
    }
}

/// A value that can be turned into a document.
pub trait Documentable<'a>: Sized {
    /// The document that the value becomes.
    spec fn doc_spec(&self) -> DocView;

    /// Turns the value into a document.
    fn to_doc(self) -> (d: Document<'a>)
        ensures
            d@ == self.doc_spec(),
    ;
}

impl<'a> Documentable<'a> for char {
    open spec fn doc_spec(&self) -> DocView {
        DocView::String(seq![*self])
    }

    fn to_doc(self) -> (d: Document<'a>) {
        let mut s = String::new();
        push_char(&mut s, self);
        Document::String(s)
    }
}

impl<'a> Documentable<'a> for &'a str {
    open spec fn doc_spec(&self) -> DocView {
        DocView::Str(self@)
    }

    fn to_doc(self) -> (d: Document<'a>) {
        Document::Str(self)
    }
}

impl<'a> Documentable<'a> for isize {
    open spec fn doc_spec(&self) -> DocView {
        DocView::String(decimal(*self as int))
    }

    fn to_doc(self) -> (d: Document<'a>) {
        Document::String(decimal_string(self as i128))
    }
}

impl<'a> Documentable<'a> for i64 {
    open spec fn doc_spec(&self) -> DocView {
        DocView::String(decimal(*self as int))
    }

    fn to_doc(self) -> (d: Document<'a>) {
        Document::String(decimal_string(self as i128))
    }
}

impl<'a> Documentable<'a> for usize {
    open spec fn doc_spec(&self) -> DocView {
        DocView::String(decimal(*self as int))
    }

    fn to_doc(self) -> (d: Document<'a>) {
        Document::String(decimal_string(self as i128))
    }
}

impl<'a> Documentable<'a> for u64 {
    open spec fn doc_spec(&self) -> DocView {
        DocView::String(decimal(*self as int))
    }

    fn to_doc(self) -> (d: Document<'a>) {
        Document::String(decimal_string(self as i128))
    }
}

impl<'a> Documentable<'a> for u32 {
    open spec fn doc_spec(&self) -> DocView {
        DocView::String(decimal(*self as int))
    }

    fn to_doc(self) -> (d: Document<'a>) {
        Document::String(decimal_string(self as i128))
    }
}

impl<'a> Documentable<'a> for u16 {
    open spec fn doc_spec(&self) -> DocView {
        DocView::String(decimal(*self as int))
    }

    fn to_doc(self) -> (d: Document<'a>) {
        Document::String(decimal_string(self as i128))
    }
}

impl<'a> Documentable<'a> for u8 {
    open spec fn doc_spec(&self) -> DocView {
        DocView::String(decimal(*self as int))
    }

    fn to_doc(self) -> (d: Document<'a>) {
        Document::String(decimal_string(self as i128))
    }
}

impl<'a> Documentable<'a> for Document<'a> {
    open spec fn doc_spec(&self) -> DocView {
        self@
    }

    fn to_doc(self) -> (d: Document<'a>) {
        self
    }
}

impl<'a> Documentable<'a> for Vec<Document<'a>> {
    open spec fn doc_spec(&self) -> DocView {
        DocView::Vec(docs_view(self@))
    }

    fn to_doc(self) -> (d: Document<'a>) {
        Document::Vec(self)
    }
}

impl<'a, D: Documentable<'a>> Documentable<'a> for Option<D> {
    open spec fn doc_spec(&self) -> DocView {
        match self {
            Some(x) => x.doc_spec(),
            None => DocView::Vec(Seq::empty()),
        }
    }

    fn to_doc(self) -> (d: Document<'a>) {
        match self {
            Some(x) => x.to_doc(),
            None => nil(),
        }
    }
}

/// The documents one after the other.
pub fn concat<'a>(docs: Vec<Document<'a>>) -> (d: Document<'a>)
    ensures
        d@ == DocView::Vec(docs_view(docs@)),
{
    Document::Vec(docs)
}

/// Documents with a separator between each two.
pub open spec fn intersperse_view(ds: Seq<DocView>, sep: DocView) -> Seq<DocView>
    decreases ds.len(),
{
    if ds.len() <= 1 {
        ds
    } else {
        intersperse_view(ds.drop_last(), sep).push(sep).push(ds.last())
    }
}

impl<'a> Document<'a> {
    /// A document equal to this one.
    #[verifier::loop_isolation(false)]
    fn copy(&self) -> (d: Document<'a>)
        ensures
            d@ == self@,
        decreases self,
    {
        match self {
            Document::Line(n) => Document::Line(*n),
            Document::ForceBroken(b) => Document::ForceBroken(Box::new((**b).copy())),
            Document::Break { broken, unbroken, break_first, kind } => Document::Break {
                broken: *broken,
                unbroken: *unbroken,
                break_first: *break_first,
                kind: *kind,
            },
            Document::Vec(v) => {
                let mut out: Vec<Document<'a>> = Vec::new();
                let mut i: usize = 0;
                while i < v.len()
                    invariant
                        i <= v@.len(),
                        docs_view(out@) == docs_view(v@.take(i as int)),
                    decreases v@.len() - i,
                {
                    proof {
                        assert(decreases_to!(*self => v@[i as int]));
                    }
                    let c = v[i].copy();
                    proof {
                        lemma_docs_view_push(out@, c);
                        lemma_docs_view_push(v@.take(i as int), v@[i as int]);
                        assert(v@.take(i + 1) =~= v@.take(i as int).push(v@[i as int]));
                    }
                    out.push(c);
                    i = i + 1;
                }
                proof {
                    assert(v@.take(v@.len() as int) =~= v@);
                }
                Document::Vec(out)
            },
            Document::Nest(i, b) => Document::Nest(*i, Box::new((**b).copy())),
            Document::Group(b) => Document::Group(Box::new((**b).copy())),
            Document::String(s) => Document::String(s.clone()),
            Document::Str(s) => Document::Str(*s),
        }
    }
}

/// The documents one after the other, with the separator between each two.
pub fn join<'a>(docs: Vec<Document<'a>>, separator: Document<'a>) -> (d: Document<'a>)
    ensures
        d@ == DocView::Vec(intersperse_view(docs_view(docs@), separator@)),
{
    let mut out: Vec<Document<'a>> = Vec::new();
    let n = docs.len();
    let ghost ds = docs_view(docs@);
    proof {
        lemma_docs_view(docs@);
    }
    let mut rest = docs;
    let mut i: usize = 0;
    while i < n
        invariant
            i <= n,
            n == ds.len(),
            ds == docs_view(docs@),
            rest@.len() == n - i,
            forall|j: int| 0 <= j < rest@.len() ==> doc_view(#[trigger] rest@[j]) == ds[i + j],
            docs_view(out@) == intersperse_view(ds.take(i as int), separator@),
        decreases n - i,
    {
        let d = rest.remove(0);
        proof {
            assert(doc_view(d) == ds[i as int]);
            assert(ds.take(i + 1) =~= ds.take(i as int).push(ds[i as int]));
            assert(ds.take(i + 1).drop_last() =~= ds.take(i as int));
        }
        if i > 0 {
            let s = separator.copy();
            proof {
                lemma_docs_view_push(out@, s);
            }
            out.push(s);
        } else {
            proof {
                assert(ds.take(1) =~= seq![ds[0]]);
                assert(ds.take(0) =~= Seq::<DocView>::empty());
            }
        }
        proof {
            lemma_docs_view_push(out@, d);
        }
        out.push(d);
        i = i + 1;
    }
    proof {
        assert(ds.take(n as int) =~= ds);
    }
    Document::Vec(out)
}

/// The empty document.
pub fn nil<'a>() -> (d: Document<'a>)
    ensures
        d@ == DocView::Vec(Seq::empty()),
{
    let v: Vec<Document<'a>> = Vec::new();
    proof {
        assert(docs_view(v@) =~= Seq::<DocView>::empty());
    }
    Document::Vec(v)
}

/// One newline.
pub fn line<'a>() -> (d: Document<'a>)
    ensures
        d@ == DocView::Line(1),
{
    Document::Line(1)
}

/// The given number of newlines.
pub fn lines<'a>(i: usize) -> (d: Document<'a>)
    ensures
        d@ == DocView::Line(i as nat),
{
    Document::Line(i)
}

/// A strict break that writes `broken` before the newline.
pub fn break_<'a>(broken: &'a str, unbroken: &'a str) -> (d: Document<'a>)
    ensures
        d@ == (DocView::Break {
            broken: broken@,
            unbroken: unbroken@,
            break_first: false,
            kind: BreakKind::Strict,
        }),
{
    Document::Break { broken, unbroken, kind: BreakKind::Strict, break_first: false }
}

/// A strict break that writes `broken` after the newline.
pub fn prebreak<'a>(broken: &'a str, unbroken: &'a str) -> (d: Document<'a>)
    ensures
        d@ == (DocView::Break {
            broken: broken@,
            unbroken: unbroken@,
            break_first: true,
            kind: BreakKind::Strict,
        }),
{
    Document::Break { broken, unbroken, kind: BreakKind::Strict, break_first: true }
}

/// A flexible break that writes `broken` before the newline.
pub fn flex_break<'a>(broken: &'a str, unbroken: &'a str) -> (d: Document<'a>)
    ensures
        d@ == (DocView::Break {
            broken: broken@,
            unbroken: unbroken@,
            break_first: false,
            kind: BreakKind::Flex,
        }),
{
    Document::Break { broken, unbroken, kind: BreakKind::Flex, break_first: false }
}

/// A flexible break that writes `broken` after the newline.
pub fn flex_prebreak<'a>(broken: &'a str, unbroken: &'a str) -> (d: Document<'a>)
    ensures
        d@ == (DocView::Break {
            broken: broken@,
            unbroken: unbroken@,
            break_first: true,
            kind: BreakKind::Flex,
        }),
{
    Document::Break { broken, unbroken, kind: BreakKind::Flex, break_first: true }
}

impl<'a> Document<'a> {
    /// This document as a group.
    pub fn group(self) -> (d: Self)
        ensures
            d@ == DocView::Group(Box::new(self@)),
    {
        Document::Group(Box::new(self))
    }

    /// This document indented by `indent` more.
    pub fn nest(self, indent: isize) -> (d: Self)
        ensures
            d@ == DocView::Nest(indent as int, Box::new(self@)),
    {
        Document::Nest(indent, Box::new(self))
    }

    /// This document with all its groups broken.
    pub fn force_break(self) -> (d: Self)
        ensures
            d@ == DocView::ForceBroken(Box::new(self@)),
    {
        Document::ForceBroken(Box::new(self))
    }

    /// This document followed by `second`; a list of documents grows by one.
    pub fn append(self, second: impl Documentable<'a>) -> (d: Self)
        ensures
            match self@ {
                DocView::Vec(v) => d@ == DocView::Vec(v.push(second.doc_spec())),
                _ => d@ == DocView::Vec(seq![self@, second.doc_spec()]),
            },
    {
        match self {
            Document::Vec(vec) => {
                let mut vec = vec;
                let ghost v0 = vec@;
                let sd = second.to_doc();
                vec.push(sd);
                proof {
                    lemma_docs_view_push(v0, sd);
                }
                Document::Vec(vec)
            },
            first => {
                let ghost f = first;
                let sd = second.to_doc();
                let mut vec = Vec::new();
                vec.push(first);
                vec.push(sd);
                proof {
                    assert(vec@ =~= seq![f].push(sd));
                    lemma_docs_view_push(seq![f], sd);
                    lemma_docs_view_push(Seq::<Document<'a>>::empty(), f);
                    assert(seq![f] =~= Seq::<Document<'a>>::empty().push(f));
                    assert(docs_view(Seq::<Document<'a>>::empty()) =~= Seq::<DocView>::empty());
                    assert(docs_view(vec@) =~= seq![doc_view(f), doc_view(sd)]);
                }
                Document::Vec(vec)
            },
        }
    }

    /// This document between `open` and `closed`.
    pub fn surround(self, open: impl Documentable<'a>, closed: impl Documentable<'a>) -> (d: Self)
        ensures
            d@ == match open.doc_spec() {
                DocView::Vec(v) => DocView::Vec(v.push(self@).push(closed.doc_spec())),
                o => DocView::Vec(seq![o, self@, closed.doc_spec()]),
            },
    {
        let r = open.to_doc().append(self).append(closed);
        proof {
            match open.doc_spec() {
                DocView::Vec(v) => {},
                o => {
                    assert(seq![o, self@].push(closed.doc_spec()) =~= seq![o, self@, closed.doc_spec()]);
                },
            }
        }
        r
    }

    /// Lays the document out within `limit` columns, appending the text to
    /// `writer`. The bounds keep every column and indentation within `isize`.
    pub fn pretty_print(&self, limit: isize, writer: &mut String)
        requires
            view_nest(self@) + view_text(self@) <= isize::MAX,
            limit - view_text(self@) >= isize::MIN,
        ensures
            final(writer)@ == old(writer)@ + spec_pretty(self@, limit as int),
    {
        let mut docs = VecDeque::new();
        docs.push_front((0isize, Mode::Unbroken, self));
        proof {
            let f: Frame = (0int, Mode::Unbroken, self@);
            lemma_frames_view_push((0isize, Mode::Unbroken, self), Seq::empty());
            assert(seq![(0isize, Mode::Unbroken, self)] + Seq::empty() =~= docs@);
            assert(frames_view(Seq::<(isize, Mode, &Document<'a>)>::empty()) =~= Seq::<Frame>::empty());
            assert(seq![f] + Seq::<Frame>::empty() =~= seq![f]);
            assert(frames_view(docs@) == seq![f]);
            lemma_frames_text_cons(f, Seq::empty());
            lemma_within_cons(f, Seq::empty(), isize::MAX - view_text(self@));
        }
        crate::lang::pretty::layout::format(writer, limit, 0, docs);
    }

    /// The document laid out within `limit` columns.
    pub fn to_pretty_string(self, limit: isize) -> (r: String)
        requires
            view_nest(self@) + view_text(self@) <= isize::MAX,
            limit - view_text(self@) >= isize::MIN,
        ensures
            r@ == spec_pretty(self@, limit as int),
    {
        let mut buffer = String::new();
        self.pretty_print(limit, &mut buffer);
        assert(buffer@ =~= spec_pretty(self@, limit as int));
        buffer
    }

    /// Whether the document lays out as no text at all.
    pub fn is_empty(&self) -> (b: bool)
        ensures
            b == view_is_empty(self@),
        decreases self,
    {
        match self {
            Document::Line(n) => *n == 0,
            Document::String(s) => s.as_str().is_empty(),
            Document::Str(s) => s.is_empty(),
            Document::Break { broken, .. } => broken.is_empty(),
            Document::ForceBroken(d) => d.is_empty(),
            Document::Nest(_, d) => d.is_empty(),
            Document::Group(d) => d.is_empty(),
            Document::Vec(docs) => {
                proof {
                    lemma_docs_view(docs@);
                    lemma_views_are_empty(docs_view(docs@));
                }
                let mut i: usize = 0;
                while i < docs.len()
                    invariant
                        *self == Document::Vec(*docs),
                        i <= docs@.len(),
                        docs_view(docs@).len() == docs@.len(),
                        forall|j: int| 0 <= j < docs@.len() ==> #[trigger] docs_view(docs@)[j] == doc_view(docs@[j]),
                        forall|j: int| 0 <= j < i ==> view_is_empty(#[trigger] docs_view(docs@)[j]),
                    decreases docs@.len() - i,
                {
                    proof {
                        let v = (*self)->Vec_0;
                        assert(v == *docs);
                        assert(decreases_to!(*self => v));
                        assert(decreases_to!(v => v@));
                        assert(decreases_to!(v@ => v@[i as int]));
                    }
                    if !docs[i].is_empty() {
                        proof {
                            assert(!view_is_empty(docs_view(docs@)[i as int]));
                            assert(self@ == DocView::Vec(docs_view(docs@)));
                            let v = docs_view(docs@);
                            assert(0 <= i < v.len() && !view_is_empty(v[i as int]));
                            lemma_views_are_empty(v);
                            assert(!view_is_empty(DocView::Vec(v)));
                        }
                        return false;
                    }
                    i = i + 1;
                }
                true
            },
        }
    }
}

} // verus!
