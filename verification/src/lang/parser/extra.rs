use vstd::prelude::*;
use crate::lang::ast::Span;
use vstd::string::StrSliceExecFns;

verus! {

/// What a module holds besides its definitions: where its comments and
/// blank lines are.
#[derive(Clone, Debug, PartialEq, Eq)]
pub struct ModuleExtra {
    pub module_comments: Vec<Span>,
    pub doc_comments: Vec<Span>,
    pub comments: Vec<Span>,
    pub empty_lines: Vec<usize>,
}

impl ModuleExtra {
    /// A module with no comment and no blank line.
    pub fn new() -> (m: Self)
        ensures
            m.module_comments@.len() == 0,
            m.doc_comments@.len() == 0,
            m.comments@.len() == 0,
            m.empty_lines@.len() == 0,
    {
        ModuleExtra { module_comments: Vec::new(), doc_comments: Vec::new(), comments: Vec::new(), empty_lines: Vec::new() }
    }
}

impl Default for ModuleExtra {
    fn default() -> (m: Self)
        ensures
            m.module_comments@.len() == 0,
            m.doc_comments@.len() == 0,
            m.comments@.len() == 0,
            m.empty_lines@.len() == 0,
    {
        Self::new()
    }
}

/// A comment: where it starts and what it says.
#[derive(Debug, PartialEq, Eq)]
pub struct Comment<'a> {
    pub start: usize,
    pub content: &'a str,
}

impl<'a> Comment<'a> {
    /// The comment that a span of the source covers, the span counted in
    /// characters; the end of the span is a character of the source, not
    /// its end.
    pub fn from(src: (&Span, &'a str)) -> (c: Comment<'a>)
        requires
            src.0.start <= src.0.end,
            src.0.end < src.1@.len(),
        ensures
            c.start == src.0.start,
            c.content@ == src.1@.subrange(src.0.start as int, src.0.end as int),
    {
        Comment { start: src.0.start, content: src.1.substring_char(src.0.start, src.0.end) }
    }
}

} // verus!
