use vstd::prelude::*;
use std::sync::Arc;
use crate::lang::ast::{ModuleKind, Span};
use crate::lang::tipo::fields::FieldMap;
use crate::lang::name_map::NameMap;
use crate::text::str_eq;
use crate::uplc::builtins::DefaultFunction;

pub mod env;
pub mod error;
pub mod fields;
pub mod hydrator;
pub mod imports;
pub mod instantiate;
pub mod pattern;
pub mod pretty;
pub mod resolve;
pub mod unify;
pub mod usage;

verus! {

/// A type of the language. A type variable is held by value; a variable
/// that unification binds is recorded in the type environment, which can
/// materialise the binding as a [`TypeVar::Link`].
pub enum Type {
    /// A named type applied to its arguments.
    App { public: bool, module: String, name: String, args: Vec<Arc<Type>> },
    /// A function type.
    Fn { args: Vec<Arc<Type>>, ret: Arc<Type> },
    /// A type variable.
    Var { tipo: TypeVar },
    /// A tuple type.
    Tuple { elems: Vec<Arc<Type>> },
}

/// The state of a type variable.
pub enum TypeVar {
    /// A variable not yet bound to a type.
    Unbound { id: u64 },
    /// A variable bound to a type.
    Link { tipo: Arc<Type> },
    /// A generalised variable, instantiated afresh at each use.
    Generic { id: u64 },
}

impl Type {
    /// The type is the `Result` type of the prelude.
    pub open spec fn spec_is_result(&self) -> bool {
        &&& self matches Type::App { name, module, .. }
        &&& name@ == "Result"@
        &&& module@.len() == 0
    }

    /// A function returning the prelude's `Result` type.
    pub fn is_result_constructor(&self) -> (b: bool)
        ensures
            b == (self matches Type::Fn { ret, .. } && ret.spec_is_result()),
    {
        match self {
            Type::Fn { ret, .. } => ret.is_result(),
            _ => false,
        }
    }

    /// The prelude's `Result` type.
    pub fn is_result(&self) -> (b: bool)
        ensures
            b == self.spec_is_result(),
    {
        match self {
            Type::App { name, module, .. } => str_eq("Result", name.as_str()) && module.as_str().is_empty(),
            _ => false,
        }
    }

    /// An unbound type variable.
    pub fn is_unbound(&self) -> (b: bool)
        ensures
            b == (self matches Type::Var { tipo: TypeVar::Unbound { .. } }),
    {
        matches!(self, Type::Var { tipo: TypeVar::Unbound { .. } })
    }

    /// A generic type variable.
    pub fn is_generic(&self) -> (b: bool)
        ensures
            b == (self matches Type::Var { tipo: TypeVar::Generic { .. } }),
    {
        matches!(self, Type::Var { tipo: TypeVar::Generic { .. } })
    }

    /// A type variable, in any state.
    pub fn is_var(&self) -> (b: bool)
        ensures
            b == (self is Var),
    {
        matches!(self, Type::Var { .. })
    }

    /// A function type.
    pub fn is_function(&self) -> (b: bool)
        ensures
            b == (self is Fn),
    {
        matches!(self, Type::Fn { .. })
    }

    /// The return type of a function type.
    pub fn return_type(&self) -> (r: Option<Arc<Type>>)
        ensures
            match self {
                Type::Fn { ret, .. } => r == Some(*ret),
                _ => r is None,
            },
    {
        match self {
            Type::Fn { ret, .. } => Some(ret.clone()),
            _ => None,
        }
    }

    /// The argument and return types of a function type.
    pub fn function_types(&self) -> (r: Option<(Vec<Arc<Type>>, Arc<Type>)>)
        ensures
            match self {
                Type::Fn { args, ret } => r matches Some(p) && p.0@ == args@ && p.1 == *ret,
                _ => r is None,
            },
    {
        match self {
            Type::Fn { args, ret } => {
                Some((clone_types(args), ret.clone()))
            },
            _ => None,
        }
    }
}

impl Type {
    /// The types directly inside a type: the arguments of an application,
    /// the elements of a tuple, those of the return type of a function, those
    /// of the type a variable is linked to; none for other variables.
    pub open spec fn inner_types(self) -> Seq<Arc<Type>>
        decreases self,
    {
        match self {
            Type::App { args, .. } => args@,
            Type::Tuple { elems } => elems@,
            Type::Fn { ret, .. } => (*ret).inner_types(),
            Type::Var { tipo: TypeVar::Link { tipo } } => (*tipo).inner_types(),
            Type::Var { .. } => Seq::empty(),
        }
    }

    /// The types directly inside this type; see [`Type::inner_types`].
    pub fn get_inner_types(&self) -> (r: Vec<Arc<Type>>)
        ensures
            r@ == self.inner_types(),
        decreases self,
    {
        match self {
            Type::App { args, .. } => clone_types(args),
            Type::Tuple { elems } => clone_types(elems),
            Type::Fn { ret, .. } => ret.get_inner_types(),
            Type::Var { tipo: TypeVar::Link { tipo } } => tipo.get_inner_types(),
            Type::Var { .. } => Vec::new(),
        }
    }
}

/// Copies a list of shared types.
pub fn clone_types(v: &Vec<Arc<Type>>) -> (r: Vec<Arc<Type>>)
    ensures
        r@ == v@,
{
    let mut r: Vec<Arc<Type>> = Vec::new();
    let mut i: usize = 0;
    while i < v.len()
        invariant
            i <= v@.len(),
            r@ == v@.take(i as int),
        decreases v@.len() - i,
    {
        r.push(v[i].clone());
        i = i + 1;
        proof {
            assert(r@ =~= v@.take(i as int));
        }
    }
    proof {
        assert(v@.take(v@.len() as int) =~= v@);
    }
    r
}

/// What a name in scope stands for.
pub enum ValueConstructorVariant {
    /// A variable bound by a pattern or an assignment.
    LocalVariable { location: Span },
    /// A constant of a module.
    ModuleConstant { location: Span, module: String },
    /// A function of a module.
    ModuleFn {
        name: String,
        field_map: Option<FieldMap>,
        module: String,
        arity: usize,
        location: Span,
        builtin: Option<DefaultFunction>,
    },
    /// A constructor of a custom type.
    Record {
        name: String,
        arity: usize,
        field_map: Option<FieldMap>,
        location: Span,
        module: String,
        constructors_count: u16,
    },
}

/// A name in scope: its variant and its type.
pub struct ValueConstructor {
    pub public: bool,
    pub variant: ValueConstructorVariant,
    pub tipo: Arc<Type>,
}

impl ValueConstructor {
    /// A public value of the given type and variant.
    pub fn public(tipo: Arc<Type>, variant: ValueConstructorVariant) -> (v: ValueConstructor)
        ensures
            v.public,
            v.tipo == tipo,
            v.variant == variant,
    {
        ValueConstructor { public: true, variant, tipo }
    }
}


/// A type defined by a module: whether it is public, where it is defined,
/// its module, its parameters and the type itself.
pub struct TypeConstructor {
    pub public: bool,
    pub location: Span,
    pub module: String,
    pub parameters: Vec<Arc<Type>>,
    pub tipo: Arc<Type>,
}

/// A field of a record that can be read by label.
pub struct RecordAccessor {
    pub index: u64,
    pub label: String,
    pub tipo: Arc<Type>,
}

/// The labelled fields of a record type.
pub struct AccessorsMap {
    pub public: bool,
    pub tipo: Arc<Type>,
    pub accessors: NameMap<RecordAccessor>,
}

/// What a module offers to the modules that import it.
pub struct TypeInfo {
    pub name: String,
    pub kind: ModuleKind,
    pub package: String,
    pub types: NameMap<TypeConstructor>,
    pub types_constructors: NameMap<Vec<String>>,
    pub values: NameMap<ValueConstructor>,
    pub accessors: NameMap<AccessorsMap>,
}

/// The constructor a pattern matches.
pub enum PatternConstructor {
    /// A constructor of a custom type, by name.
    Record { name: String, field_map: Option<FieldMap> },
}

impl Clone for TypeConstructor {
    fn clone(&self) -> (r: Self)
        ensures
            r.public == self.public,
            r.location == self.location,
            r.module == self.module,
            r.parameters@ == self.parameters@,
            r.tipo == self.tipo,
    {
        TypeConstructor {
            public: self.public,
            location: self.location,
            module: self.module.clone(),
            parameters: clone_types(&self.parameters),
            tipo: self.tipo.clone(),
        }
    }
}

impl Clone for RecordAccessor {
    fn clone(&self) -> (r: Self)
        ensures
            r == *self,
    {
        RecordAccessor { index: self.index, label: self.label.clone(), tipo: self.tipo.clone() }
    }
}

impl Clone for AccessorsMap {
    fn clone(&self) -> (r: Self)
        ensures
            r.public == self.public,
            r.tipo == self.tipo,
            r.accessors@ == self.accessors@,
    {
        let accessors = self.accessors.copy();
        proof {
            assert(accessors@ =~= self.accessors@);
        }
        AccessorsMap { public: self.public, tipo: self.tipo.clone(), accessors }
    }
}


/// Two optional field maps hold the same labels at the same positions.
pub open spec fn same_field_map(a: Option<FieldMap>, b: Option<FieldMap>) -> bool {
    match (a, b) {
        (None, None) => true,
        (Some(x), Some(y)) => x.arity == y.arity && x.is_function == y.is_function && x.fields@
            == y.fields@,
        _ => false,
    }
}

/// A copy of a variant: the same variant with the same fields.
pub open spec fn same_variant(a: ValueConstructorVariant, b: ValueConstructorVariant) -> bool {
    match (a, b) {
        (
            ValueConstructorVariant::LocalVariable { location: l1 },
            ValueConstructorVariant::LocalVariable { location: l2 },
        ) => l1 == l2,
        (
            ValueConstructorVariant::ModuleConstant { location: l1, module: m1 },
            ValueConstructorVariant::ModuleConstant { location: l2, module: m2 },
        ) => l1 == l2 && m1 == m2,
        (
            ValueConstructorVariant::ModuleFn {
                name: n1,
                field_map: f1,
                module: m1,
                arity: a1,
                location: l1,
                builtin: b1,
            },
            ValueConstructorVariant::ModuleFn {
                name: n2,
                field_map: f2,
                module: m2,
                arity: a2,
                location: l2,
                builtin: b2,
            },
        ) => n1 == n2 && same_field_map(f1, f2) && m1 == m2 && a1 == a2 && l1 == l2 && b1 == b2,
        (
            ValueConstructorVariant::Record {
                name: n1,
                arity: a1,
                field_map: f1,
                location: l1,
                module: m1,
                constructors_count: c1,
            },
            ValueConstructorVariant::Record {
                name: n2,
                arity: a2,
                field_map: f2,
                location: l2,
                module: m2,
                constructors_count: c2,
            },
        ) => n1 == n2 && a1 == a2 && same_field_map(f1, f2) && l1 == l2 && m1 == m2 && c1 == c2,
        _ => false,
    }
}

/// Copies an optional field map.
pub(crate) fn clone_field_map(f: &Option<FieldMap>) -> (r: Option<FieldMap>)
    ensures
        same_field_map(*f, r),
{
    match f {
        Some(m) => Some(m.clone()),
        None => None,
    }
}

impl Clone for ValueConstructorVariant {
    fn clone(&self) -> (r: Self)
        ensures
            same_variant(*self, r),
    {
        match self {
            ValueConstructorVariant::LocalVariable { location } => ValueConstructorVariant::LocalVariable {
                location: *location,
            },
            ValueConstructorVariant::ModuleConstant { location, module } => {
                ValueConstructorVariant::ModuleConstant { location: *location, module: module.clone() }
            },
            ValueConstructorVariant::ModuleFn { name, field_map, module, arity, location, builtin } => {
                ValueConstructorVariant::ModuleFn {
                    name: name.clone(),
                    field_map: clone_field_map(field_map),
                    module: module.clone(),
                    arity: *arity,
                    location: *location,
                    builtin: *builtin,
                }
            },
            ValueConstructorVariant::Record {
                name,
                arity,
                field_map,
                location,
                module,
                constructors_count,
            } => ValueConstructorVariant::Record {
                name: name.clone(),
                arity: *arity,
                field_map: clone_field_map(field_map),
                location: *location,
                module: module.clone(),
                constructors_count: *constructors_count,
            },
        }
    }
}

impl Clone for ValueConstructor {
    fn clone(&self) -> (r: Self)
        ensures
            r.public == self.public,
            r.tipo == self.tipo,
            same_variant(self.variant, r.variant),
    {
        ValueConstructor { public: self.public, variant: self.variant.clone(), tipo: self.tipo.clone() }
    }
}

} // verus!
