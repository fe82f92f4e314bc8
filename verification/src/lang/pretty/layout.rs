use vstd::prelude::*;
use std::collections::VecDeque;
use vstd::utf8::encode_utf8;
use crate::lang::pretty::{docs_view, doc_view, lemma_docs_view, DocView, Document, BreakKind};
use crate::text::{push_char, push_str};

verus! {

/// How the breaks of the document being laid out behave.
#[derive(Clone, Copy, Debug, PartialEq, Eq, Structural)]
pub enum Mode {
    /// Breaks become newlines.
    Broken,
    /// Breaks stay on the line.
    Unbroken,
    /// Breaks become newlines, in every nested group too.
    ForcedBroken,
}

impl Mode {
    /// Whether the mode forces every nested group to break.
    pub fn is_forced(&self) -> (b: bool)
        ensures
            b == (*self == Mode::ForcedBroken),
    {
        matches!(self, Mode::ForcedBroken)
    }
}

/// A document waiting to be laid out, with its indentation and mode.
pub type Frame = (int, Mode, DocView);

/// The number of bytes of a text in UTF-8.
pub open spec fn blen(s: Seq<char>) -> nat {
    encode_utf8(s).len()
}

/// The number of nodes of a document.
pub open spec fn view_size(d: DocView) -> nat
    decreases d,
{
    match d {
        DocView::ForceBroken(b) => 1 + view_size(*b),
        DocView::Nest(_, b) => 1 + view_size(*b),
        DocView::Group(b) => 1 + view_size(*b),
        DocView::Vec(v) => 1 + views_size(v),
        _ => 1,
    }
}

/// The number of nodes of a list of documents.
pub open spec fn views_size(v: Seq<DocView>) -> nat
    decreases v,
{
    if v.len() == 0 {
        0
    } else {
        views_size(v.drop_last()) + view_size(v.last())
    }
}

/// The number of nodes of the documents of a list of frames.
pub open spec fn frames_size(s: Seq<Frame>) -> nat
    decreases s.len(),
{
    if s.len() == 0 {
        0
    } else {
        view_size(s[0].2) + frames_size(s.drop_first())
    }
}

/// Frames for the documents of a list, all with one indentation and mode.
pub open spec fn child_frames(indent: int, mode: Mode, v: Seq<DocView>) -> Seq<Frame> {
    v.map_values(|x: DocView| (indent, mode, x))
}

pub proof fn lemma_frames_size_cons(f: Frame, rest: Seq<Frame>)
    ensures
        frames_size(seq![f] + rest) == view_size(f.2) + frames_size(rest),
{
    assert((seq![f] + rest).drop_first() =~= rest);
}

pub proof fn lemma_frames_size_concat(a: Seq<Frame>, b: Seq<Frame>)
    ensures
        frames_size(a + b) == frames_size(a) + frames_size(b),
    decreases a.len(),
{
    if a.len() > 0 {
        lemma_frames_size_concat(a.drop_first(), b);
        assert((a + b).drop_first() =~= a.drop_first() + b);
    } else {
        assert(a + b =~= b);
    }
}

pub proof fn lemma_frames_size_children(indent: int, mode: Mode, v: Seq<DocView>)
    ensures
        frames_size(child_frames(indent, mode, v)) == views_size(v),
    decreases v.len(),
{
    if v.len() > 0 {
        lemma_frames_size_children(indent, mode, v.drop_last());
        assert(child_frames(indent, mode, v) =~= child_frames(indent, mode, v.drop_last()) + seq![
            (indent, mode, v.last()),
        ]);
        let last: Frame = (indent, mode, v.last());
        lemma_frames_size_concat(child_frames(indent, mode, v.drop_last()), seq![last]);
        assert(seq![last].drop_first() =~= Seq::<Frame>::empty());
        assert(frames_size(seq![last]) == view_size(v.last()) + frames_size(Seq::<Frame>::empty()));
        assert(views_size(v) == views_size(v.drop_last()) + view_size(v.last()));
    } else {
        assert(child_frames(indent, mode, v) =~= Seq::<Frame>::empty());
    }
}

/// Whether the frames, laid out flat from `width`, reach the end of the line
/// or of the document within `limit` columns.
pub open spec fn spec_fits(limit: int, width: int, s: Seq<Frame>) -> bool
    decreases frames_size(s),
{
    if width > limit {
        false
    } else if s.len() == 0 {
        true
    } else {
        let f = s[0];
        let rest = s.drop_first();
        proof {
            assert(s =~= seq![f] + rest);
            lemma_frames_size_cons(f, rest);
        }
        match f.2 {
            DocView::ForceBroken(_) => false,
            DocView::Line(_) => true,
            DocView::Nest(i, b) => {
                proof {
                    lemma_frames_size_cons((i + f.0, f.1, *b), rest);
                }
                spec_fits(limit, width, seq![(i + f.0, f.1, *b)] + rest)
            },
            DocView::Group(b) => {
                proof {
                    lemma_frames_size_cons((f.0, f.1, *b), rest);
                    lemma_frames_size_cons((f.0, Mode::Unbroken, *b), rest);
                }
                if f.1 == Mode::ForcedBroken {
                    spec_fits(limit, width, seq![(f.0, f.1, *b)] + rest)
                } else {
                    spec_fits(limit, width, seq![(f.0, Mode::Unbroken, *b)] + rest)
                }
            },
            DocView::Str(t) => spec_fits(limit - blen(t), width, rest),
            DocView::String(t) => spec_fits(limit - blen(t), width, rest),
            DocView::Break { unbroken, .. } => {
                if f.1 == Mode::Unbroken {
                    spec_fits(limit, width + blen(unbroken), rest)
                } else {
                    true
                }
            },
            DocView::Vec(v) => {
                proof {
                    lemma_frames_size_concat(child_frames(f.0, f.1, v), rest);
                    lemma_frames_size_children(f.0, f.1, v);
                }
                spec_fits(limit, width, child_frames(f.0, f.1, v) + rest)
            },
        }
    }
}

/// `n` copies of a character.
pub open spec fn repeat_char(c: char, n: int) -> Seq<char> {
    Seq::new(if n > 0 {
        n as nat
    } else {
        0
    }, |i: int| c)
}

/// The text that laying out the frames appends, from column `width`.
pub open spec fn spec_format(limit: int, width: int, s: Seq<Frame>) -> Seq<char>
    decreases frames_size(s),
{
    if s.len() == 0 {
        Seq::empty()
    } else {
        let f = s[0];
        let indent = f.0;
        let mode = f.1;
        let rest = s.drop_first();
        proof {
            assert(s =~= seq![f] + rest);
            lemma_frames_size_cons(f, rest);
        }
        match f.2 {
            DocView::Line(i) => repeat_char('\n', i as int) + repeat_char(' ', indent) + spec_format(
                limit,
                indent,
                rest,
            ),
            DocView::Break { broken, unbroken, break_first, kind } => {
                if kind == BreakKind::Flex {
                    let unbroken_width = width + blen(unbroken);
                    if spec_fits(limit, unbroken_width, rest) {
                        unbroken + spec_format(limit, unbroken_width, rest)
                    } else if break_first {
                        seq!['\n'] + repeat_char(' ', indent) + broken + spec_format(limit, indent, rest)
                    } else {
                        broken + seq!['\n'] + repeat_char(' ', indent) + spec_format(limit, indent, rest)
                    }
                } else {
                    if mode == Mode::Unbroken {
                        unbroken + spec_format(limit, width + blen(unbroken), rest)
                    } else if break_first {
                        seq!['\n'] + repeat_char(' ', indent) + broken + spec_format(limit, indent, rest)
                    } else {
                        broken + seq!['\n'] + repeat_char(' ', indent) + spec_format(limit, indent, rest)
                    }
                }
            },
            DocView::String(t) => t + spec_format(limit, width + blen(t), rest),
            DocView::Str(t) => t + spec_format(limit, width + blen(t), rest),
            DocView::Vec(v) => {
                proof {
                    lemma_frames_size_concat(child_frames(indent, mode, v), rest);
                    lemma_frames_size_children(indent, mode, v);
                }
                spec_format(limit, width, child_frames(indent, mode, v) + rest)
            },
            DocView::Nest(i, b) => {
                proof {
                    lemma_frames_size_cons((indent + i, mode, *b), rest);
                }
                spec_format(limit, width, seq![(indent + i, mode, *b)] + rest)
            },
            DocView::Group(b) => {
                proof {
                    lemma_frames_size_cons((indent, Mode::Unbroken, *b), rest);
                    lemma_frames_size_cons((indent, Mode::Broken, *b), rest);
                }
                if spec_fits(limit, width, seq![(indent, Mode::Unbroken, *b)]) {
                    spec_format(limit, width, seq![(indent, Mode::Unbroken, *b)] + rest)
                } else {
                    spec_format(limit, width, seq![(indent, Mode::Broken, *b)] + rest)
                }
            },
            DocView::ForceBroken(b) => {
                proof {
                    lemma_frames_size_cons((indent, Mode::ForcedBroken, *b), rest);
                }
                spec_format(limit, width, seq![(indent, Mode::ForcedBroken, *b)] + rest)
            },
        }
    }
}


/// `n` blanks.
pub open spec fn blanks(n: nat) -> Seq<char> {
    Seq::new(n, |i: int| ' ')
}

/// A strict break laid out broken (its group broken or forced broken), with
/// its text before the line end, writes its text, a newline and exactly as
/// many blanks as its indentation, and the rest is then laid out from that
/// column: every line a broken break starts in a nested document starts at
/// the nesting column.
pub proof fn law_broken_break_indents(
    limit: int,
    width: int,
    indent: nat,
    mode: Mode,
    broken: Seq<char>,
    unbroken: Seq<char>,
    rest: Seq<Frame>,
)
    requires
        mode != Mode::Unbroken,
    ensures
        ({
            let out = spec_format(
                limit,
                width,
                seq![(indent as int, mode, DocView::Break { broken, unbroken, break_first: false, kind: BreakKind::Strict })]
                    + rest,
            );
            let head = broken + seq!['\n'] + blanks(indent);
            &&& out.take(head.len() as int) == head
            &&& out.skip(head.len() as int) == spec_format(limit, indent as int, rest)
        }),
{
    let f: Frame = (indent as int, mode, DocView::Break { broken, unbroken, break_first: false, kind: BreakKind::Strict });
    let s = seq![f] + rest;
    assert(s[0] == f);
    assert(s.drop_first() =~= rest);
    assert(repeat_char(' ', indent as int) =~= blanks(indent));
    let head = broken + seq!['\n'] + blanks(indent);
    let out = spec_format(limit, width, s);
    assert(out == head + spec_format(limit, indent as int, rest));
    assert(out.take(head.len() as int) =~= head);
    assert(out.skip(head.len() as int) =~= spec_format(limit, indent as int, rest));
}

/// A strict break laid out broken with its text at the start of the new
/// line writes a newline, exactly as many blanks as its indentation and its
/// text, and the rest is then laid out from the indentation.
pub proof fn law_broken_prebreak_indents(
    limit: int,
    width: int,
    indent: nat,
    mode: Mode,
    broken: Seq<char>,
    unbroken: Seq<char>,
    rest: Seq<Frame>,
)
    requires
        mode != Mode::Unbroken,
    ensures
        ({
            let out = spec_format(
                limit,
                width,
                seq![(indent as int, mode, DocView::Break { broken, unbroken, break_first: true, kind: BreakKind::Strict })]
                    + rest,
            );
            let head = seq!['\n'] + blanks(indent) + broken;
            &&& out.take(head.len() as int) == head
            &&& out.skip(head.len() as int) == spec_format(limit, indent as int, rest)
        }),
{
    let f: Frame = (indent as int, mode, DocView::Break { broken, unbroken, break_first: true, kind: BreakKind::Strict });
    let s = seq![f] + rest;
    assert(s[0] == f);
    assert(s.drop_first() =~= rest);
    assert(repeat_char(' ', indent as int) =~= blanks(indent));
    let head = seq!['\n'] + blanks(indent) + broken;
    let out = spec_format(limit, width, s);
    assert(out == head + spec_format(limit, indent as int, rest));
    assert(out.take(head.len() as int) =~= head);
    assert(out.skip(head.len() as int) =~= spec_format(limit, indent as int, rest));
}

/// Laid out broken, a nested document made of a text, a strict break and a
/// text puts the second text on a new line that starts at the nesting
/// column, whatever the width: `a`, the break's text, a newline, `i` blanks
/// and `b`.
pub proof fn law_nested_break_layout(limit: int, i: nat, a: Seq<char>, broken: Seq<char>, unbroken: Seq<char>, b: Seq<char>)
    ensures
        spec_pretty(
            DocView::ForceBroken(Box::new(DocView::Nest(i as int, Box::new(DocView::Vec(seq![
                DocView::Str(a),
                DocView::Break { broken, unbroken, break_first: false, kind: BreakKind::Strict },
                DocView::Str(b),
            ]))))),
            limit,
        ) == a + broken + seq!['\n'] + blanks(i) + b,
{
    let brk = DocView::Break { broken, unbroken, break_first: false, kind: BreakKind::Strict };
    let v = seq![DocView::Str(a), brk, DocView::Str(b)];
    let nest = DocView::Nest(i as int, Box::new(DocView::Vec(v)));
    let top = DocView::ForceBroken(Box::new(nest));
    let e: Seq<Frame> = Seq::empty();
    let s0 = seq![(0int, Mode::Unbroken, top)];
    assert(s0 =~= seq![(0int, Mode::Unbroken, top)] + e);
    let s1 = seq![(0int, Mode::ForcedBroken, nest)] + e;
    let s2 = seq![(i as int, Mode::ForcedBroken, DocView::Vec(v))] + e;
    let c = child_frames(i as int, Mode::ForcedBroken, v);
    assert(c =~= seq![
        (i as int, Mode::ForcedBroken, DocView::Str(a)),
        (i as int, Mode::ForcedBroken, brk),
        (i as int, Mode::ForcedBroken, DocView::Str(b)),
    ]);
    let s3 = c + e;
    let s4 = seq![(i as int, Mode::ForcedBroken, brk), (i as int, Mode::ForcedBroken, DocView::Str(b))];
    let s5 = seq![(i as int, Mode::ForcedBroken, DocView::Str(b))];
    assert(s0[0] == (0int, Mode::Unbroken, top) && s0.drop_first() =~= e);
    assert(s1[0] == (0int, Mode::ForcedBroken, nest) && s1.drop_first() =~= e);
    assert(s2[0] == (i as int, Mode::ForcedBroken, DocView::Vec(v)) && s2.drop_first() =~= e);
    assert(s3[0] == (i as int, Mode::ForcedBroken, DocView::Str(a)) && s3.drop_first() =~= s4);
    assert(s4 =~= seq![(i as int, Mode::ForcedBroken, brk)] + s5);
    assert(s5[0] == (i as int, Mode::ForcedBroken, DocView::Str(b)) && s5.drop_first() =~= e);
    assert(spec_format(limit, i as int + blen(b), e) == Seq::<char>::empty());
    assert(spec_format(limit, i as int, s5) =~= b);
    law_broken_break_indents(limit, blen(a) as int, i, Mode::ForcedBroken, broken, unbroken, s5);
    let head = broken + seq!['\n'] + blanks(i);
    let o4 = spec_format(limit, blen(a) as int, s4);
    assert(o4 =~= o4.take(head.len() as int) + o4.skip(head.len() as int));
    assert(o4 == head + b);
    assert(spec_format(limit, 0, s3) == a + o4);
    assert(spec_format(limit, 0, s2) == spec_format(limit, 0, s3));
    assert(spec_format(limit, 0, s1) == spec_format(limit, 0, s2));
    assert(spec_format(limit, 0, s0) == spec_format(limit, 0, s1));
    assert(a + (broken + seq!['\n'] + blanks(i) + b) =~= a + broken + seq!['\n'] + blanks(i) + b);
}

/// The number of bytes of text a document holds, both texts of a break
/// counted.
pub open spec fn view_text(d: DocView) -> nat
    decreases d,
{
    match d {
        DocView::ForceBroken(b) => view_text(*b),
        DocView::Nest(_, b) => view_text(*b),
        DocView::Group(b) => view_text(*b),
        DocView::Vec(v) => views_text(v),
        DocView::Str(t) => blen(t),
        DocView::String(t) => blen(t),
        DocView::Break { broken, unbroken, .. } => blen(broken) + blen(unbroken),
        DocView::Line(_) => 0,
    }
}

/// The number of bytes of text of a list of documents.
pub open spec fn views_text(v: Seq<DocView>) -> nat
    decreases v,
{
    if v.len() == 0 {
        0
    } else {
        views_text(v.drop_last()) + view_text(v.last())
    }
}

/// The total amount, in absolute value, by which a document nests.
pub open spec fn view_nest(d: DocView) -> nat
    decreases d,
{
    match d {
        DocView::ForceBroken(b) => view_nest(*b),
        DocView::Nest(i, b) => (if i < 0 {
            -i
        } else {
            i
        }) as nat + view_nest(*b),
        DocView::Group(b) => view_nest(*b),
        DocView::Vec(v) => views_nest(v),
        _ => 0,
    }
}

/// The total nesting of a list of documents.
pub open spec fn views_nest(v: Seq<DocView>) -> nat
    decreases v,
{
    if v.len() == 0 {
        0
    } else {
        views_nest(v.drop_last()) + view_nest(v.last())
    }
}

/// The text of the documents of a list of frames.
pub open spec fn frames_text(s: Seq<Frame>) -> nat
    decreases s.len(),
{
    if s.len() == 0 {
        0
    } else {
        view_text(s[0].2) + frames_text(s.drop_first())
    }
}

/// Every frame's indentation, moved by all the nesting of its document,
/// stays within `bound` in absolute value.
pub open spec fn frames_indent_within(s: Seq<Frame>, bound: int) -> bool {
    forall|i: int|
        0 <= i < s.len() ==> (if s[i].0 < 0 {
            -s[i].0
        } else {
            s[i].0
        }) + view_nest(#[trigger] s[i].2) <= bound
}

/// Frames of documents as mathematical values.
pub open spec fn frames_view<'a, 'b>(s: Seq<(isize, Mode, &'b Document<'a>)>) -> Seq<Frame> {
    s.map_values(|f: (isize, Mode, &'b Document<'a>)| (f.0 as int, f.1, doc_view(*f.2)))
}

pub proof fn lemma_frames_text_cons(f: Frame, rest: Seq<Frame>)
    ensures
        frames_text(seq![f] + rest) == view_text(f.2) + frames_text(rest),
{
    assert((seq![f] + rest).drop_first() =~= rest);
}

pub proof fn lemma_frames_text_concat(a: Seq<Frame>, b: Seq<Frame>)
    ensures
        frames_text(a + b) == frames_text(a) + frames_text(b),
    decreases a.len(),
{
    if a.len() > 0 {
        lemma_frames_text_concat(a.drop_first(), b);
        assert((a + b).drop_first() =~= a.drop_first() + b);
    } else {
        assert(a + b =~= b);
    }
}

pub proof fn lemma_frames_text_children(indent: int, mode: Mode, v: Seq<DocView>)
    ensures
        frames_text(child_frames(indent, mode, v)) == views_text(v),
    decreases v.len(),
{
    if v.len() > 0 {
        lemma_frames_text_children(indent, mode, v.drop_last());
        assert(child_frames(indent, mode, v) =~= child_frames(indent, mode, v.drop_last()) + seq![
            (indent, mode, v.last()),
        ]);
        let last: Frame = (indent, mode, v.last());
        lemma_frames_text_concat(child_frames(indent, mode, v.drop_last()), seq![last]);
        assert(seq![last].drop_first() =~= Seq::<Frame>::empty());
        assert(frames_text(seq![last]) == view_text(v.last()) + frames_text(Seq::<Frame>::empty()));
        assert(views_text(v) == views_text(v.drop_last()) + view_text(v.last()));
    } else {
        assert(child_frames(indent, mode, v) =~= Seq::<Frame>::empty());
    }
}

pub proof fn lemma_views_nest_bound(v: Seq<DocView>)
    ensures
        forall|k: int| 0 <= k < v.len() ==> view_nest(#[trigger] v[k]) <= views_nest(v),
    decreases v.len(),
{
    if v.len() > 0 {
        lemma_views_nest_bound(v.drop_last());
        assert forall|k: int| 0 <= k < v.len() implies view_nest(#[trigger] v[k]) <= views_nest(v) by {
            if k < v.len() - 1 {
                assert(v.drop_last()[k] == v[k]);
            }
        }
    }
}

pub proof fn lemma_frames_view_push<'a, 'b>(
    x: (isize, Mode, &'b Document<'a>),
    s: Seq<(isize, Mode, &'b Document<'a>)>,
)
    ensures
        frames_view(seq![x] + s) == seq![(x.0 as int, x.1, doc_view(*x.2))] + frames_view(s),
{
    assert(frames_view(seq![x] + s) =~= seq![(x.0 as int, x.1, doc_view(*x.2))] + frames_view(s));
}

pub proof fn lemma_frames_view_pop<'a, 'b>(s: Seq<(isize, Mode, &'b Document<'a>)>)
    requires
        s.len() > 0,
    ensures
        frames_view(s.subrange(1, s.len() as int)) == frames_view(s).drop_first(),
        frames_view(s)[0] == (s[0].0 as int, s[0].1, doc_view(*s[0].2)),
        frames_view(s) == seq![frames_view(s)[0]] + frames_view(s).drop_first(),
{
    assert(frames_view(s.subrange(1, s.len() as int)) =~= frames_view(s).drop_first());
    assert(frames_view(s) =~= seq![frames_view(s)[0]] + frames_view(s).drop_first());
}

/// Puts the documents of a list in front of the frames, first document
/// first, each with the given indentation and mode.
fn push_children<'a, 'b>(
    docs: &mut VecDeque<(isize, Mode, &'b Document<'a>)>,
    indent: isize,
    mode: Mode,
    vec: &'b Vec<Document<'a>>,
)
    ensures
        frames_view(final(docs)@) == child_frames(indent as int, mode, docs_view(vec@))
            + frames_view(old(docs)@),
{
    let ghost v = docs_view(vec@);
    proof {
        lemma_docs_view(vec@);
    }
    let mut j = vec.len();
    proof {
        assert(child_frames(indent as int, mode, v.skip(j as int)) =~= Seq::<Frame>::empty());
        assert(frames_view(docs@) =~= child_frames(indent as int, mode, v.skip(j as int))
            + frames_view(old(docs)@));
    }
    while j > 0
        invariant
            j <= vec@.len(),
            v == docs_view(vec@),
            v.len() == vec@.len(),
            forall|k: int| 0 <= k < vec@.len() ==> #[trigger] v[k] == doc_view(vec@[k]),
            frames_view(docs@) == child_frames(indent as int, mode, v.skip(j as int))
                + frames_view(old(docs)@),
        decreases j,
    {
        let ghost before = docs@;
        j = j - 1;
        docs.push_front((indent, mode, &vec[j]));
        proof {
            lemma_frames_view_push((indent, mode, &vec@[j as int]), before);
            assert(child_frames(indent as int, mode, v.skip(j as int)) =~= seq![
                (indent as int, mode, v[j as int]),
            ] + child_frames(indent as int, mode, v.skip(j + 1)));
        }
    }
    proof {
        assert(v.skip(0) =~= v);
    }
}

/// Copies a list of frames.
fn copy_frames<'a, 'b>(docs: &VecDeque<(isize, Mode, &'b Document<'a>)>) -> (r: VecDeque<
    (isize, Mode, &'b Document<'a>),
>)
    ensures
        r@ == docs@,
{
    let mut r = VecDeque::new();
    let mut i: usize = 0;
    while i < docs.len()
        invariant
            i <= docs@.len(),
            r@ == docs@.take(i as int),
        decreases docs@.len() - i,
    {
        r.push_back(docs[i]);
        proof {
            assert(docs@.take(i + 1) =~= docs@.take(i as int).push(docs@[i as int]));
        }
        i = i + 1;
    }
    proof {
        assert(docs@.take(docs@.len() as int) =~= docs@);
    }
    r
}


/// The absolute value of an integer.
pub open spec fn abs(x: int) -> int {
    if x < 0 {
        -x
    } else {
        x
    }
}

/// Whether the frames, laid out flat from column `current_width`, reach a
/// newline or their end before passing `limit`. Text shrinks the limit;
/// an unbroken break moves the column.
fn fits<'a, 'b>(
    limit0: isize,
    width0: isize,
    docs0: VecDeque<(isize, Mode, &'b Document<'a>)>,
) -> (b: bool)
    requires
        frames_indent_within(frames_view(docs0@), isize::MAX as int),
        frames_text(frames_view(docs0@)) <= isize::MAX,
        width0 + frames_text(frames_view(docs0@)) <= isize::MAX,
        limit0 - frames_text(frames_view(docs0@)) >= isize::MIN,
    ensures
        b == spec_fits(limit0 as int, width0 as int, frames_view(docs0@)),
{
    let ghost goal = spec_fits(limit0 as int, width0 as int, frames_view(docs0@));
    let mut limit = limit0;
    let mut current_width = width0;
    let mut docs = docs0;
    loop
        invariant
            frames_indent_within(frames_view(docs@), isize::MAX as int),
            frames_text(frames_view(docs@)) <= isize::MAX,
            current_width + frames_text(frames_view(docs@)) <= isize::MAX,
            limit - frames_text(frames_view(docs@)) >= isize::MIN,
            spec_fits(limit as int, current_width as int, frames_view(docs@)) == goal,
            goal == spec_fits(limit0 as int, width0 as int, frames_view(docs0@)),
        decreases frames_size(frames_view(docs@)),
    {
        if current_width > limit {
            return false;
        }
        let ghost before = docs@;
        let (indent, mode, document) = match docs.pop_front() {
            Some(x) => x,
            None => {
                return true;
            },
        };
        let ghost fv = frames_view(before);
        let ghost rest = frames_view(docs@);
        proof {
            lemma_frames_view_pop(before);
            lemma_frames_size_cons(fv[0], rest);
            lemma_frames_text_cons(fv[0], rest);
            assert(fv[0].2 == doc_view(*document));
            assert(abs(indent as int) + view_nest(fv[0].2) <= isize::MAX);
        }
        match document {
            Document::ForceBroken(_) => {
                return false;
            },
            Document::Line(_) => {
                return true;
            },
            Document::Nest(i, doc) => {
                let ghost d: &'b Document<'a> = &**doc;
                let ni = *i + indent;
                docs.push_front((ni, mode, &**doc));
                proof {
                    lemma_frames_view_push((ni, mode, d), docs@.drop_first());
                    assert(docs@.drop_first() =~= before.subrange(1, before.len() as int));
                    lemma_frames_size_cons((ni as int, mode, doc_view(*d)), rest);
                    lemma_frames_text_cons((ni as int, mode, doc_view(*d)), rest);
                }
            },
            Document::Group(doc) => {
                let m = if mode.is_forced() {
                    mode
                } else {
                    Mode::Unbroken
                };
                let ghost d: &'b Document<'a> = &**doc;
                docs.push_front((indent, m, &**doc));
                proof {
                    lemma_frames_view_push((indent, m, d), docs@.drop_first());
                    assert(docs@.drop_first() =~= before.subrange(1, before.len() as int));
                    lemma_frames_size_cons((indent as int, m, doc_view(*d)), rest);
                    lemma_frames_text_cons((indent as int, m, doc_view(*d)), rest);
                }
            },
            Document::Str(s) => {
                limit = limit - s.len() as isize;
            },
            Document::String(s) => {
                limit = limit - s.as_str().len() as isize;
            },
            Document::Break { unbroken, .. } => {
                match mode {
                    Mode::Unbroken => {
                        current_width = current_width + unbroken.len() as isize;
                    },
                    _ => {
                        return true;
                    },
                }
            },
            Document::Vec(vec) => {
                push_children(&mut docs, indent, mode, vec);
                proof {
                    let v = docs_view(vec@);
                    lemma_frames_size_concat(child_frames(indent as int, mode, v), rest);
                    lemma_frames_size_children(indent as int, mode, v);
                    lemma_frames_text_concat(child_frames(indent as int, mode, v), rest);
                    lemma_frames_text_children(indent as int, mode, v);
                    lemma_views_nest_bound(v);
                    let cf = child_frames(indent as int, mode, v);
                    assert forall|k: int| 0 <= k < frames_view(docs@).len() implies abs(
                        frames_view(docs@)[k].0,
                    ) + view_nest(#[trigger] frames_view(docs@)[k].2) <= isize::MAX by {
                        if k < cf.len() {
                            assert(frames_view(docs@)[k] == cf[k]);
                        } else {
                            assert(frames_view(docs@)[k] == rest[k - cf.len()]);
                            assert(rest[k - cf.len()] == fv[k - cf.len() + 1]);
                        }
                    }
                }
            },
        }
    }
}


pub proof fn lemma_within_cons(x: Frame, rest: Seq<Frame>, b: int)
    ensures
        frames_indent_within(seq![x] + rest, b) == (abs(x.0) + view_nest(x.2) <= b
            && frames_indent_within(rest, b)),
{
    let s = seq![x] + rest;
    if frames_indent_within(s, b) {
        assert(s[0] == x);
        assert forall|i: int| 0 <= i < rest.len() implies abs(rest[i].0) + view_nest(
            #[trigger] rest[i].2,
        ) <= b by {
            assert(s[i + 1] == rest[i]);
        }
    }
    if abs(x.0) + view_nest(x.2) <= b && frames_indent_within(rest, b) {
        assert forall|i: int| 0 <= i < s.len() implies abs(s[i].0) + view_nest(#[trigger] s[i].2)
            <= b by {
            if i > 0 {
                assert(s[i] == rest[i - 1]);
            }
        }
    }
}

pub proof fn lemma_within_children(indent: int, mode: Mode, v: Seq<DocView>, rest: Seq<Frame>, b: int)
    requires
        abs(indent) + views_nest(v) <= b,
        frames_indent_within(rest, b),
    ensures
        frames_indent_within(child_frames(indent, mode, v) + rest, b),
{
    lemma_views_nest_bound(v);
    let cf = child_frames(indent, mode, v);
    let s = cf + rest;
    assert forall|k: int| 0 <= k < s.len() implies abs(s[k].0) + view_nest(#[trigger] s[k].2) <= b by {
        if k < cf.len() {
            assert(s[k] == cf[k]);
        } else {
            assert(s[k] == rest[k - cf.len()]);
        }
    }
}

/// Appends `n` copies of a character.
fn push_repeat(writer: &mut String, c: char, n: usize)
    ensures
        final(writer)@ == old(writer)@ + repeat_char(c, n as int),
{
    let mut k: usize = 0;
    while k < n
        invariant
            k <= n,
            writer@ == old(writer)@ + repeat_char(c, k as int),
        decreases n - k,
    {
        push_char(writer, c);
        proof {
            assert(repeat_char(c, k + 1) =~= repeat_char(c, k as int).push(c));
        }
        k = k + 1;
    }
}

/// Appends `indent` spaces, none when it is not positive.
fn push_indent(writer: &mut String, indent: isize)
    ensures
        final(writer)@ == old(writer)@ + repeat_char(' ', indent as int),
{
    if indent > 0 {
        push_repeat(writer, ' ', indent as usize);
    } else {
        proof {
            assert(repeat_char(' ', indent as int) =~= Seq::<char>::empty());
        }
        assert(writer@ =~= old(writer)@ + repeat_char(' ', indent as int));
    }
}

/// Lays out the frames from column `width0` within `limit` columns,
/// appending the text to `writer`. A group is laid out flat when it fits,
/// broken otherwise; a flexible break breaks only when the rest of the line
/// does not fit.
#[verifier::rlimit(60)]
pub(crate) fn format<'a, 'b>(
    writer: &mut String,
    limit: isize,
    width0: isize,
    docs0: VecDeque<(isize, Mode, &'b Document<'a>)>,
)
    requires
        frames_indent_within(frames_view(docs0@), isize::MAX - frames_text(frames_view(docs0@))),
        width0 + frames_text(frames_view(docs0@)) <= isize::MAX,
        limit - frames_text(frames_view(docs0@)) >= isize::MIN,
    ensures
        final(writer)@ == old(writer)@ + spec_format(limit as int, width0 as int, frames_view(docs0@)),
{
    let ghost target = old(writer)@ + spec_format(limit as int, width0 as int, frames_view(docs0@));
    let mut width = width0;
    let mut docs = docs0;
    proof {
        assert(writer@ + spec_format(limit as int, width as int, frames_view(docs@)) == target);
    }
    loop
        invariant
            frames_indent_within(frames_view(docs@), isize::MAX - frames_text(frames_view(docs@))),
            width + frames_text(frames_view(docs@)) <= isize::MAX,
            limit - frames_text(frames_view(docs@)) >= isize::MIN,
            writer@ + spec_format(limit as int, width as int, frames_view(docs@)) == target,
            target == old(writer)@ + spec_format(limit as int, width0 as int, frames_view(docs0@)),
        decreases frames_size(frames_view(docs@)),
    {
        let ghost before = docs@;
        let ghost w0 = writer@;
        let (indent, mode, document) = match docs.pop_front() {
            Some(x) => x,
            None => {
                proof {
                    assert(frames_view(docs@) =~= Seq::<Frame>::empty());
                    assert(writer@ =~= target);
                }
                return;
            },
        };
        let ghost fv = frames_view(before);
        let ghost rest = frames_view(docs@);
        let ghost ft = frames_text(fv);
        proof {
            lemma_frames_view_pop(before);
            lemma_frames_size_cons(fv[0], rest);
            lemma_frames_text_cons(fv[0], rest);
            lemma_within_cons(fv[0], rest, isize::MAX - ft);
            assert(fv[0].2 == doc_view(*document));
            assert(fv[0].0 == indent);
            assert(fv[0].1 == mode);
            assert(frames_text(rest) <= ft);
            assert(frames_indent_within(rest, isize::MAX - frames_text(rest)));
        }
        match document {
            Document::Line(i) => {
                push_repeat(writer, '\n', *i);
                push_indent(writer, indent);
                width = indent;
                proof {
                    assert(writer@ + spec_format(limit as int, width as int, rest) =~= target);
                }
            },
            Document::Break { broken, unbroken, break_first, kind: BreakKind::Flex } => {
                let unbroken_width = width + unbroken.len() as isize;
                let rest_copy = copy_frames(&docs);
                if fits(limit, unbroken_width, rest_copy) {
                    push_str(writer, unbroken);
                    width = unbroken_width;
                    proof {
                        assert(writer@ + spec_format(limit as int, width as int, rest) =~= target);
                    }
                } else {
                    if *break_first {
                        push_char(writer, '\n');
                        push_indent(writer, indent);
                        push_str(writer, broken);
                    } else {
                        push_str(writer, broken);
                        push_char(writer, '\n');
                        push_indent(writer, indent);
                    }
                    width = indent;
                    proof {
                        assert(writer@ + spec_format(limit as int, width as int, rest) =~= target);
                    }
                }
            },
            Document::Break { broken, unbroken, break_first, kind: BreakKind::Strict } => {
                match mode {
                    Mode::Unbroken => {
                        push_str(writer, unbroken);
                        width = width + unbroken.len() as isize;
                    },
                    _ => {
                        if *break_first {
                            push_char(writer, '\n');
                            push_indent(writer, indent);
                            push_str(writer, broken);
                        } else {
                            push_str(writer, broken);
                            push_char(writer, '\n');
                            push_indent(writer, indent);
                        }
                        width = indent;
                    },
                }
                proof {
                    assert(writer@ + spec_format(limit as int, width as int, rest) =~= target);
                }
            },
            Document::String(s) => {
                width = width + s.as_str().len() as isize;
                push_str(writer, s.as_str());
                proof {
                    assert(writer@ + spec_format(limit as int, width as int, rest) =~= target);
                }
            },
            Document::Str(s) => {
                width = width + s.len() as isize;
                push_str(writer, s);
                proof {
                    assert(writer@ + spec_format(limit as int, width as int, rest) =~= target);
                }
            },
            Document::Vec(vec) => {
                push_children(&mut docs, indent, mode, vec);
                proof {
                    let v = docs_view(vec@);
                    lemma_frames_size_concat(child_frames(indent as int, mode, v), rest);
                    lemma_frames_size_children(indent as int, mode, v);
                    lemma_frames_text_concat(child_frames(indent as int, mode, v), rest);
                    lemma_frames_text_children(indent as int, mode, v);
                    lemma_within_children(indent as int, mode, v, rest, isize::MAX - ft);
                }
            },
            Document::Nest(i, doc) => {
                let ghost d: &'b Document<'a> = &**doc;
                let ni = indent + *i;
                docs.push_front((ni, mode, &**doc));
                proof {
                    lemma_frames_view_push((ni, mode, d), docs@.drop_first());
                    assert(docs@.drop_first() =~= before.subrange(1, before.len() as int));
                    lemma_frames_size_cons((ni as int, mode, doc_view(*d)), rest);
                    lemma_frames_text_cons((ni as int, mode, doc_view(*d)), rest);
                    lemma_within_cons((ni as int, mode, doc_view(*d)), rest, isize::MAX - ft);
                }
            },
            Document::Group(doc) => {
                let ghost d: &'b Document<'a> = &**doc;
                let mut group_docs = VecDeque::new();
                group_docs.push_front((indent, Mode::Unbroken, &**doc));
                proof {
                    lemma_frames_view_push((indent, Mode::Unbroken, d), Seq::empty());
                    assert(seq![(indent, Mode::Unbroken, d)] + Seq::empty() =~= group_docs@);
                    let g: Frame = (indent as int, Mode::Unbroken, doc_view(*d));
                    assert(frames_view(Seq::<(isize, Mode, &'b Document<'a>)>::empty()) =~= Seq::<
                        Frame,
                    >::empty());
                    assert(seq![g] + Seq::<Frame>::empty() =~= seq![g]);
                    lemma_frames_text_cons(g, Seq::empty());
                    lemma_within_cons(g, Seq::empty(), isize::MAX as int);
                }
                let m = if fits(limit, width, group_docs) {
                    Mode::Unbroken
                } else {
                    Mode::Broken
                };
                docs.push_front((indent, m, &**doc));
                proof {
                    lemma_frames_view_push((indent, m, d), docs@.drop_first());
                    assert(docs@.drop_first() =~= before.subrange(1, before.len() as int));
                    lemma_frames_size_cons((indent as int, m, doc_view(*d)), rest);
                    lemma_frames_text_cons((indent as int, m, doc_view(*d)), rest);
                    lemma_within_cons((indent as int, m, doc_view(*d)), rest, isize::MAX - ft);
                }
            },
            Document::ForceBroken(doc) => {
                let ghost d: &'b Document<'a> = &**doc;
                docs.push_front((indent, Mode::ForcedBroken, &**doc));
                proof {
                    lemma_frames_view_push((indent, Mode::ForcedBroken, d), docs@.drop_first());
                    assert(docs@.drop_first() =~= before.subrange(1, before.len() as int));
                    lemma_frames_size_cons((indent as int, Mode::ForcedBroken, doc_view(*d)), rest);
                    lemma_frames_text_cons((indent as int, Mode::ForcedBroken, doc_view(*d)), rest);
                    lemma_within_cons(
                        (indent as int, Mode::ForcedBroken, doc_view(*d)),
                        rest,
                        isize::MAX - ft,
                    );
                }
            },
        }
    }
}


/// The text of a document laid out within `limit` columns, starting flat at
/// column zero.
pub open spec fn spec_pretty(d: DocView, limit: int) -> Seq<char> {
    spec_format(limit, 0, seq![(0int, Mode::Unbroken, d)])
}

} // verus!
