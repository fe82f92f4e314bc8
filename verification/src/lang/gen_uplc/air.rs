use vstd::prelude::*;
use std::sync::Arc;
use indexmap::IndexSet;
use crate::lang::ast::{BinOp, UnOp};
use crate::lang::gen_uplc::scope::Scope;
use crate::lang::tipo::{Type, ValueConstructor};
use crate::uplc::builtins::DefaultFunction;

verus! {

/// The ordered set of indices and names that a tuple clause binds.
#[verifier::external_type_specification]
#[verifier::external_body]
#[verifier::reject_recursive_types(T)]
#[verifier::reject_recursive_types(S)]
pub struct ExIndexSet<T, S>(IndexSet<T, S>);

/// One instruction of the intermediate representation, with its scope.
pub struct Air {
    pub scope: Scope,
    pub kind: AirKind,
}

/// What an instruction does.
#[allow(inconsistent_fields)]
pub enum AirKind {
    Int { value: String },
    String { value: String },
    ByteArray { bytes: Vec<u8> },
    Bool { value: bool },
    Builtin { count: usize, func: DefaultFunction, tipo: Arc<Type> },
    Var { constructor: ValueConstructor, name: String, variant_name: String },
    Fn { params: Vec<String> },
    List { count: usize, tipo: Arc<Type>, tail: bool },
    Record { tag: usize, tipo: Arc<Type>, count: usize },
    Call { count: usize, tipo: Arc<Type> },
    BinOp { name: BinOp, tipo: Arc<Type> },
    UnOp { op: UnOp },
    Let { name: String },
    WrapData { tipo: Arc<Type> },
    UnWrapData { tipo: Arc<Type> },
    Void,
    TupleAccessor { names: Vec<String>, tipo: Arc<Type>, check_last_item: bool },
    FieldsExpose { indices: Vec<(usize, String, Arc<Type>)>, check_last_item: bool },
    FieldsEmpty,
    Clause { subject_name: String, complex_clause: bool, tipo: Arc<Type> },
    ListClause {
        tail_name: String,
        next_tail_name: Option<String>,
        complex_clause: bool,
        tipo: Arc<Type>,
    },
    TupleClause {
        subject_name: String,
        indices: IndexSet<(usize, String)>,
        predefined_indices: IndexSet<(usize, String)>,
        complex_clause: bool,
        tipo: Arc<Type>,
        count: usize,
    },
    WrapClause,
    Trace { tipo: Arc<Type> },
    ErrorTerm { tipo: Arc<Type> },
    When { subject_name: String, tipo: Arc<Type> },
    ListAccessor { names: Vec<String>, tail: bool, check_last_item: bool, tipo: Arc<Type> },
    AssertConstr { constr_index: usize },
    AssertBool { is_true: bool },
    If { tipo: Arc<Type> },
    RecordAccess { record_index: u64, tipo: Arc<Type> },
    RecordUpdate { highest_index: usize, indices: Vec<(usize, Arc<Type>)>, tipo: Arc<Type> },
    Tuple { count: usize, tipo: Arc<Type> },
    TupleIndex { tuple_index: usize, tipo: Arc<Type> },
    Finally,
    ClauseGuard { subject_name: String, tipo: Arc<Type> },
    ListExpose {
        tipo: Arc<Type>,
        tail_head_names: Vec<(String, String)>,
        tail: Option<(String, String)>,
    },
    ListClauseGuard {
        tipo: Arc<Type>,
        tail_name: String,
        next_tail_name: Option<String>,
        inverse: bool,
    },
    DefineFunc {
        func_name: String,
        module_name: String,
        params: Vec<String>,
        recursive: bool,
        variant_name: String,
    },
    NoOp,
    ListEmpty,
}

/// An instruction seen as its scope path and its kind.
pub open spec fn instr_view(a: Air) -> (Seq<u64>, AirKind) {
    (a.scope@, a.kind)
}

} // verus!
