use vstd::prelude::*;
use std::sync::Arc;
use crate::lang::tipo::{Type, TypeVar};

verus! {

broadcast use vstd::string::group_string_axioms;

/// `t` is the prelude type `name` applied to `args`.
pub open spec fn is_prelude_app(t: Type, name: Seq<char>, args: Seq<Arc<Type>>) -> bool {
    &&& t matches Type::App { public, module, name: n, args: a }
    &&& public
    &&& module@ == Seq::<char>::empty()
    &&& n@ == name
    &&& a@ == args
}

/// A prelude type with no argument.
fn prelude(name: &str) -> (t: Arc<Type>)
    ensures
        is_prelude_app(*t, name@, Seq::empty()),
{
    let t = Arc::new(
        Type::App {
            public: true,
            module: String::new(),
            name: name.to_string(),
            args: Vec::new(),
        },
    );
    t
}

/// The prelude's integer type.
pub fn int_type() -> (t: Arc<Type>)
    ensures
        is_prelude_app(*t, "Int"@, Seq::empty()),
{
    prelude("Int")
}

/// The prelude's boolean type.
pub fn bool() -> (t: Arc<Type>)
    ensures
        is_prelude_app(*t, "Bool"@, Seq::empty()),
{
    prelude("Bool")
}

/// The prelude's string type.
pub fn string() -> (t: Arc<Type>)
    ensures
        is_prelude_app(*t, "String"@, Seq::empty()),
{
    prelude("String")
}

/// The prelude's type of untyped on-chain data.
pub fn data() -> (t: Arc<Type>)
    ensures
        is_prelude_app(*t, "Data"@, Seq::empty()),
{
    prelude("Data")
}

/// The prelude's unit type.
pub fn void() -> (t: Arc<Type>)
    ensures
        is_prelude_app(*t, "Void"@, Seq::empty()),
{
    prelude("Void")
}

/// The prelude's list type of the given element type.
pub fn list(t: Arc<Type>) -> (r: Arc<Type>)
    ensures
        is_prelude_app(*r, "List"@, seq![t]),
{
    let mut args = Vec::new();
    args.push(t);
    let r = Arc::new(
        Type::App { public: true, module: String::new(), name: "List".to_string(), args },
    );
    proof {
        assert(args@ =~= seq![t]);
    }
    r
}

/// The function type from `args` to `ret`.
pub fn function(args: Vec<Arc<Type>>, ret: Arc<Type>) -> (t: Arc<Type>)
    ensures
        *t == (Type::Fn { args, ret }),
{
    Arc::new(Type::Fn { args, ret })
}

/// The tuple type of the given element types.
pub fn tuple(elems: Vec<Arc<Type>>) -> (t: Arc<Type>)
    ensures
        *t == (Type::Tuple { elems }),
{
    Arc::new(Type::Tuple { elems })
}

/// A generic type variable.
pub fn generic_var(id: u64) -> (t: Arc<Type>)
    ensures
        *t == (Type::Var { tipo: TypeVar::Generic { id } }),
{
    Arc::new(Type::Var { tipo: TypeVar::Generic { id } })
}

/// An unbound type variable.
pub fn unbound_var(id: u64) -> (t: Arc<Type>)
    ensures
        *t == (Type::Var { tipo: TypeVar::Unbound { id } }),
{
    Arc::new(Type::Var { tipo: TypeVar::Unbound { id } })
}

} // verus!
