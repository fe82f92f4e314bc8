use vstd::prelude::*;

verus! {

/// A range of positions in a source file.
#[derive(Clone, Copy, Debug, PartialEq, Eq, Structural)]
pub struct Span {
    pub start: usize,
    pub end: usize,
}

impl Span {
    /// The empty span at the start of a file.
    pub fn empty() -> (s: Span)
        ensures
            s == (Span { start: 0, end: 0 }),
    {
        Span { start: 0, end: 0 }
    }
}

/// A function defined by a module. `T` is the type its definition carries
/// (none before checking, the inferred type after), `A` an argument, `E` the
/// body and `N` the annotation of the return type.
pub struct Function<T, A, E, N> {
    pub arguments: Vec<A>,
    pub body: E,
    pub doc: Option<String>,
    pub location: Span,
    pub name: String,
    pub public: bool,
    pub return_annotation: Option<N>,
    pub return_type: T,
    pub end_position: usize,
}

/// An argument of a call, with its label when it is given by name.
pub struct CallArg<A> {
    pub label: Option<String>,
    pub location: Span,
    pub value: A,
}

/// A pattern of a `when` clause or an assignment; `C` is what a
/// constructor pattern refers to, `T` the type it carries.
pub enum Pattern<C, T> {
    /// An integer literal.
    Int { location: Span, value: String },
    /// A variable that binds the value.
    Var { location: Span, name: String },
    /// A pattern whose value is also bound to a name.
    Assign { name: String, location: Span, pattern: Box<Pattern<C, T>> },
    /// A pattern that matches anything and binds nothing.
    Discard { name: String, location: Span },
    /// A list of element patterns, with the pattern of the rest of the list.
    List { location: Span, elements: Vec<Pattern<C, T>>, tail: Option<Box<Pattern<C, T>>> },
    /// A tuple of element patterns.
    Tuple { location: Span, elems: Vec<Pattern<C, T>> },
    /// A constructor applied to patterns of its arguments.
    Constructor {
        is_record: bool,
        location: Span,
        name: String,
        arguments: Vec<CallArg<Pattern<C, T>>>,
        module: Option<String>,
        constructor: C,
        with_spread: bool,
        tipo: T,
    },
}

impl<C, T> Pattern<C, T> {
    /// Where the pattern is written.
    pub open spec fn spec_location(&self) -> Span {
        match self {
            Pattern::Int { location, .. } => *location,
            Pattern::Var { location, .. } => *location,
            Pattern::Assign { location, .. } => *location,
            Pattern::Discard { location, .. } => *location,
            Pattern::List { location, .. } => *location,
            Pattern::Tuple { location, .. } => *location,
            Pattern::Constructor { location, .. } => *location,
        }
    }

    /// Where the pattern is written.
    pub fn location(&self) -> (l: Span)
        ensures
            l == self.spec_location(),
    {
        match self {
            Pattern::Int { location, .. } => *location,
            Pattern::Var { location, .. } => *location,
            Pattern::Assign { location, .. } => *location,
            Pattern::Discard { location, .. } => *location,
            Pattern::List { location, .. } => *location,
            Pattern::Tuple { location, .. } => *location,
            Pattern::Constructor { location, .. } => *location,
        }
    }
}

/// A name imported from a module without its module's prefix, possibly
/// under another name.
pub struct UnqualifiedImport {
    pub location: Span,
    pub name: String,
    pub as_name: Option<String>,
}

/// An import of a module: its path, the name it is known by when that is
/// not the last segment of the path, and the names imported unqualified.
pub struct Use {
    pub as_name: Option<String>,
    pub location: Span,
    pub module: Vec<String>,
    pub unqualified: Vec<UnqualifiedImport>,
}

/// Whether a module is a library or a validator.
#[derive(Clone, Copy, Debug, PartialEq, Eq, Structural)]
pub enum ModuleKind {
    Lib,
    Validator,
}

impl ModuleKind {
    /// The module is a validator.
    pub fn is_validator(&self) -> (b: bool)
        ensures
            b == (*self is Validator),
    {
        match self {
            ModuleKind::Validator => true,
            ModuleKind::Lib => false,
        }
    }
}

/// The name bound to the value flowing through a pipeline.
pub const PIPE_VARIABLE: &'static str = "_pipe";

/// The binary operators of the language.
#[derive(Clone, Copy, Debug, PartialEq, Eq, Structural)]
pub enum BinOp {
    And,
    Or,
    Eq,
    NotEq,
    LtInt,
    LtEqInt,
    GtEqInt,
    GtInt,
    AddInt,
    SubInt,
    MultInt,
    DivInt,
    ModInt,
}

/// The unary operators of the language.
#[derive(Clone, Copy, Debug, PartialEq, Eq, Structural)]
pub enum UnOp {
    Not,
    Negate,
}

} // verus!
