use vstd::prelude::*;
use crate::lang::ast::Span;
use crate::text::push_str;

verus! {

/// What went wrong while parsing.
pub enum ErrorKind {
    /// A tuple was indexed by something that is not an ordinal such as
    /// `1st`; the hint suggests the ordinal meant.
    InvalidTupleIndex { hint: Option<String> },
}

/// A parse error: what went wrong, where, and what the parser expected
/// there. `P` is a pattern the parser can expect; the patterns expected are a
/// set, which `expected_set` gives.
pub struct ParseError<P> {
    pub kind: ErrorKind,
    pub span: Span,
    pub while_parsing: Option<(Span, String)>,
    pub expected: Vec<P>,
    pub label: Option<String>,
}

impl<P> ParseError<P> {
    /// The set of patterns the parser expected.
    pub open spec fn expected_set(&self) -> Set<P> {
        self.expected@.to_set()
    }

    /// The error with the patterns expected by `other` added to its own;
    /// everything else is kept from `self`.
    pub fn merge(self, other: Self) -> (r: Self)
        ensures
            r.expected_set() == self.expected_set().union(other.expected_set()),
            r.kind == self.kind,
            r.span == self.span,
            r.while_parsing == self.while_parsing,
            r.label == self.label,
    {
        let ParseError { kind, span, while_parsing, mut expected, label } = self;
        let ghost mine = expected@;
        let mut more = other.expected;
        expected.append(&mut more);
        proof {
            assert(expected@ == mine + other.expected@);
            assert(expected@.to_set() =~= mine.to_set().union(other.expected@.to_set())) by {
                assert forall|p: P| expected@.to_set().contains(p) <==> (mine.to_set().contains(p)
                    || other.expected@.to_set().contains(p)) by {
                    if expected@.contains(p) {
                        let i = choose|i: int| 0 <= i < expected@.len() && expected@[i] == p;
                        if i < mine.len() {
                            assert(mine[i] == p);
                        } else {
                            assert(other.expected@[i - mine.len()] == p);
                        }
                    }
                    if mine.contains(p) {
                        let i = choose|i: int| 0 <= i < mine.len() && mine[i] == p;
                        assert(expected@[i] == p);
                    }
                    if other.expected@.contains(p) {
                        let i = choose|i: int| 0 <= i < other.expected@.len() && other.expected@[i] == p;
                        assert(expected@[mine.len() + i] == p);
                    }
                }
            }
        }
        ParseError { kind, span, while_parsing, expected, label }
    }

    /// The error for a tuple index that is not an ordinal. With the suffix
    /// that was written after the index, the hint asks whether the index
    /// with that suffix was meant.
    pub fn invalid_tuple_index(span: Span, index: String, suffix: Option<String>) -> (r: Self)
        ensures
            r.span == span,
            r.while_parsing is None,
            r.expected@ == Seq::<P>::empty(),
            r.label is None,
            match r.kind {
                ErrorKind::InvalidTupleIndex { hint } => match suffix {
                    Some(s) => hint matches Some(h) && h@ == "Did you mean: '"@ + index@ + s@ + "'"@,
                    None => hint is None,
                },
            },
    {
        let hint = match suffix {
            Some(s) => {
                let mut h = String::new();
                push_str(&mut h, "Did you mean: '");
                push_str(&mut h, index.as_str());
                push_str(&mut h, s.as_str());
                push_str(&mut h, "'");
                proof {
                    assert(h@ =~= "Did you mean: '"@ + index@ + s@ + "'"@);
                }
                Some(h)
            },
            None => None,
        };
        ParseError {
            kind: ErrorKind::InvalidTupleIndex { hint },
            span,
            while_parsing: None,
            expected: Vec::new(),
            label: None,
        }
    }
}

} // verus!
