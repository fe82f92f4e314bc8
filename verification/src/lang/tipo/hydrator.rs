use vstd::prelude::*;
use std::collections::HashMap;
use std::sync::Arc;
use crate::lang::name_map::NameMap;
use crate::lang::tipo::Type;

verus! {

broadcast use vstd::std_specs::hash::group_hash_axioms;

/// What turns type annotations into types: the type variables it created
/// by name, and the names of the rigid ones, which stand for themselves.
pub struct Hydrator {
    pub created_type_variables: NameMap<Arc<Type>>,
    pub rigid_type_names: HashMap<u64, String>,
    pub permit_new_type_variables: bool,
}

/// The variables of a hydrator to restore when a nested scope closes.
pub struct ScopeResetData {
    pub created_type_variables: NameMap<Arc<Type>>,
    pub rigid_type_names: HashMap<u64, String>,
}

impl Hydrator {
    /// A hydrator with no variables, that may create new ones.
    pub fn new() -> (h: Hydrator)
        ensures
            h.created_type_variables@ == Map::<Seq<char>, Arc<Type>>::empty(),
            h.rigid_type_names@ == Map::<u64, String>::empty(),
            h.permit_new_type_variables,
    {
        Hydrator {
            created_type_variables: NameMap::new(),
            rigid_type_names: HashMap::new(),
            permit_new_type_variables: true,
        }
    }

    /// The generic variable `id` is rigid: it is instantiated as itself.
    pub open spec fn spec_is_rigid(&self, id: u64) -> bool {
        self.rigid_type_names@.contains_key(id)
    }

    /// Whether the generic variable `id` is rigid.
    pub fn is_rigid(&self, id: &u64) -> (b: bool)
        ensures
            b == self.spec_is_rigid(*id),
    {
        self.rigid_type_names.contains_key(id)
    }
}

impl Default for Hydrator {
    fn default() -> (h: Self)
        ensures
            h.created_type_variables@ == Map::<Seq<char>, Arc<Type>>::empty(),
            h.rigid_type_names@ == Map::<u64, String>::empty(),
            h.permit_new_type_variables,
    {
        Self::new()
    }
}

} // verus!
