use vstd::prelude::*;
use std::sync::Arc;
use crate::lang::ast::{CallArg, Pattern, Span};
use crate::lang::tipo::Type;

verus! {

/// A place in the source that a diagnostic points at.
pub struct Snippet {
    pub location: Span,
}

/// Labels of a call that its callee does not declare.
pub struct UnkownLabels {
    /// Where each unknown label was given.
    pub unkown: Vec<Span>,
    /// The labels the callee declares, sorted.
    pub valid: Vec<String>,
    /// The known labels the call gave.
    pub suppleid: Vec<String>,
}

/// Where two types that could not be unified were met, when it says more
/// than the types themselves.
#[derive(Clone, Copy, Debug, PartialEq, Eq, Structural)]
pub enum UnifyErrorSituation {
    /// The value piped into a function is not of the type the function takes.
    PipeTypeMismatch,
}

/// Why type checking failed.
pub enum Error {
    /// Two types that had to be the same are not.
    CouldNotUnify {
        location: Span,
        expected: Arc<Type>,
        given: Arc<Type>,
        situation: Option<UnifyErrorSituation>,
        rigid_type_names: Vec<(u64, String)>,
    },
    /// A call gives the same argument label twice.
    DuplicateArgument { label: String, location: Span, duplicate_location: Span },
    /// A record declares the same field twice.
    DuplicateField { label: String, location: Span, duplicate_location: Span },
    /// A module defines the same value name twice.
    DuplicateName { name: String, location: Span, previous_location: Span },
    /// A module defines the same type name twice.
    DuplicateTypeName { name: String, location: Span, previous_location: Span },
    /// A module defines the same constant name twice.
    DuplicateConstName { name: String, location: Span, previous_location: Span },
    /// A pattern binds the same variable twice.
    DuplicateVarInPattern { name: String, location: Span },
    /// An alternative pattern binds a variable the first pattern does not.
    ExtraVarInAlternativePattern { name: String, location: Span },
    /// An alternative pattern leaves out a variable the first pattern binds.
    MissingVarInAlternativePattern { location: Span, name: String },
    /// A tuple pattern has another number of elements than the tuple.
    IncorrectTupleArity { location: Span, expected: usize, given: usize },
    /// A constructor pattern has another number of arguments than the
    /// constructor.
    IncorrectPatternArity {
        location: Span,
        given: Vec<CallArg<Pattern<(), ()>>>,
        expected: usize,
        name: String,
        module: Option<String>,
        is_record: bool,
    },
    /// A constructor pattern spreads over no missing argument.
    UnnecessarySpreadOperator { location: Span, arity: usize },
    /// A constructor pattern labels an argument of a constructor with no
    /// labels.
    UnexpectedLabeledArgInPattern {
        location: Span,
        label: String,
        name: String,
        args: Vec<CallArg<Pattern<(), ()>>>,
        module: Option<String>,
        with_spread: bool,
    },
    /// A record or function is given the wrong number of arguments; the
    /// labels not given are listed.
    IncorrectFieldsArity { labels: Vec<String>, location: Span, expected: usize, given: usize },
    /// A function is called with the wrong number of arguments.
    IncorrectFunctionCallArity { expected: usize, given: usize, location: Span },
    /// A value that is not a function is called.
    NotFn { tipo: Arc<Type>, location: Span },
    /// A positional argument follows a labelled one.
    PositionalArgumentAfterLabeled { location: Span, labeled_arg_location: Span },
    /// A type variable would have to contain itself.
    RecursiveType { location: Span },
    /// A call gives labels the callee does not declare.
    UnknownLabels(Vec<UnkownLabels>),
    /// A module that is not imported, or not importable.
    UnknownModule { location: Span, name: String, imported_modules: Vec<String> },
    /// A name imported from a module that has neither a value nor a type of
    /// that name.
    UnknownModuleField {
        location: Span,
        name: String,
        module_name: String,
        value_constructors: Vec<String>,
        type_constructors: Vec<String>,
    },
    /// A validator module is imported.
    ValidatorImported { location: Span, name: String },
    /// A name, or a module, is imported twice.
    DuplicateImport { location: Span, previous_location: Span, name: String, module: Vec<String> },
    /// A type that a module does not define.
    UnknownModuleType {
        location: Span,
        name: String,
        module_name: String,
        type_constructors: Vec<String>,
    },
    /// A value that a module does not define.
    UnknownModuleValue {
        location: Span,
        name: String,
        module_name: String,
        value_constructors: Vec<String>,
    },
    /// A type that is not in scope.
    UnknownType { location: Span, name: String, types: Vec<String> },
    /// A variable that is not in scope.
    UnknownVariable { location: Span, name: String, variables: Vec<String> },
}

/// The result is not the refusal of an alternative pattern that leaves
/// out a name of the first pattern.
pub open spec fn not_missing<T>(r: Result<T, Error>) -> bool {
    !(r matches Err(Error::MissingVarInAlternativePattern { .. }))
}

impl Error {
    /// Swaps the expected and given types of a unification failure; other
    /// errors are returned as they are.
    pub fn flip_unify(self) -> (r: Error)
        ensures
            match self {
                Error::CouldNotUnify { location, expected, given, situation, rigid_type_names } => r
                    == (Error::CouldNotUnify {
                    location,
                    expected: given,
                    given: expected,
                    situation,
                    rigid_type_names,
                }),
                _ => r == self,
            },
    {
        match self {
            Error::CouldNotUnify { location, expected, given, situation, rigid_type_names } => {
                Error::CouldNotUnify { location, expected: given, given: expected, situation, rigid_type_names }
            },
            other => other,
        }
    }

    /// Records where a unification failure was met; other errors are
    /// returned as they are.
    pub fn with_unify_error_situation(self, situation: UnifyErrorSituation) -> (r: Error)
        ensures
            match self {
                Error::CouldNotUnify { location, expected, given, rigid_type_names, .. } => r
                    == (Error::CouldNotUnify {
                    location,
                    expected,
                    given,
                    situation: Some(situation),
                    rigid_type_names,
                }),
                _ => r == self,
            },
    {
        match self {
            Error::CouldNotUnify { location, expected, given, rigid_type_names, .. } => {
                Error::CouldNotUnify { location, expected, given, situation: Some(situation), rigid_type_names }
            },
            other => other,
        }
    }
}


/// Something suspicious but not wrong in a module.
pub enum Warning {
    /// A type that is defined or imported and never used.
    UnusedType { name: String, imported: bool, location: Span },
    /// A constructor that is defined or imported and never used.
    UnusedConstructor { name: String, imported: bool, location: Span },
    /// A private constant that is never used.
    UnusedPrivateModuleConstant { name: String, location: Span },
    /// A private function that is never used.
    UnusedPrivateFunction { name: String, location: Span },
    /// An imported value that is never used.
    UnusedImportedValue { name: String, location: Span },
    /// A variable that is never used.
    UnusedVariable { name: String, location: Span },
    /// An imported module that is never used.
    UnusedImportedModule { name: String, location: Span },
}

} // verus!
