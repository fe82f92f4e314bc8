use vstd::prelude::*;
use std::collections::HashMap;
use std::sync::Arc;
use crate::lang::ast::{Pattern, Span, PIPE_VARIABLE};
use crate::lang::builtins::{generic_var, unbound_var};
use crate::lang::id_gen::IdGenerator;
use crate::lang::name_map::NameMap;
use crate::lang::tipo::error::{Error, Warning};
use crate::lang::tipo::unify::VarStore;
use crate::lang::tipo::{
    same_variant, AccessorsMap, PatternConstructor, Type, TypeConstructor, TypeInfo, TypeVar, ValueConstructor, ValueConstructorVariant,
};
use crate::text::{owned, sorted_strings, str_eq, string_le, texts};
use crate::lang::tipo::fields::labels_sorted;

verus! {

broadcast use vstd::std_specs::hash::group_hash_axioms;

/// What kind of entity a name in a usage scope stands for.
pub enum EntityKind {
    PrivateConstant,
    /// A constructor of the private type with the given name.
    PrivateTypeConstructor(String),
    PrivateFunction,
    ImportedConstructor,
    ImportedType,
    ImportedTypeAndConstructor,
    ImportedValue,
    PrivateType,
    Variable,
}

impl Clone for EntityKind {
    fn clone(&self) -> (r: Self)
        ensures
            r == *self,
    {
        match self {
            EntityKind::PrivateConstant => EntityKind::PrivateConstant,
            EntityKind::PrivateTypeConstructor(n) => EntityKind::PrivateTypeConstructor(n.clone()),
            EntityKind::PrivateFunction => EntityKind::PrivateFunction,
            EntityKind::ImportedConstructor => EntityKind::ImportedConstructor,
            EntityKind::ImportedType => EntityKind::ImportedType,
            EntityKind::ImportedTypeAndConstructor => EntityKind::ImportedTypeAndConstructor,
            EntityKind::ImportedValue => EntityKind::ImportedValue,
            EntityKind::PrivateType => EntityKind::PrivateType,
            EntityKind::Variable => EntityKind::Variable,
        }
    }
}

/// The scope to restore when a nested scope closes.
pub struct ScopeResetData {
    pub local_values: NameMap<ValueConstructor>,
}

/// The warning for an entity that was never used.
pub open spec fn unused_warning(name: Seq<char>, kind: EntityKind, location: Span, w: Warning) -> bool {
    match kind {
        EntityKind::ImportedType | EntityKind::ImportedTypeAndConstructor => w matches Warning::UnusedType {
            name: n,
            imported,
            location: l,
        } && n@ == name && imported && l == location,
        EntityKind::ImportedConstructor => w matches Warning::UnusedConstructor {
            name: n,
            imported,
            location: l,
        } && n@ == name && imported && l == location,
        EntityKind::PrivateConstant => w matches Warning::UnusedPrivateModuleConstant {
            name: n,
            location: l,
        } && n@ == name && l == location,
        EntityKind::PrivateTypeConstructor(_) => w matches Warning::UnusedConstructor {
            name: n,
            imported,
            location: l,
        } && n@ == name && !imported && l == location,
        EntityKind::PrivateFunction => w matches Warning::UnusedPrivateFunction {
            name: n,
            location: l,
        } && n@ == name && l == location,
        EntityKind::PrivateType => w matches Warning::UnusedType {
            name: n,
            imported,
            location: l,
        } && n@ == name && !imported && l == location,
        EntityKind::ImportedValue => w matches Warning::UnusedImportedValue {
            name: n,
            location: l,
        } && n@ == name && l == location,
        EntityKind::Variable => w matches Warning::UnusedVariable { name: n, location: l } && n@
            == name && l == location,
    }
}

/// The names of a usage scope that were never used, in the scope's order.
pub open spec fn unused_names(
    keys: Seq<Seq<char>>,
    usages: Map<Seq<char>, (EntityKind, Span, bool)>,
) -> Seq<Seq<char>> {
    keys.filter(|k: Seq<char>| !usages[k].2)
}

/// `ws` warns, in order, of each of the names, as the usage scope records it.
pub open spec fn warns_of(
    ws: Seq<Warning>,
    names: Seq<Seq<char>>,
    usages: Map<Seq<char>, (EntityKind, Span, bool)>,
) -> bool {
    &&& ws.len() == names.len()
    &&& forall|i: int|
        0 <= i < ws.len() ==> unused_warning(
            names[i],
            usages[names[i]].0,
            usages[names[i]].1,
            #[trigger] ws[i],
        )
}

/// Two environments differ in their unused modules at most.
pub open spec fn same_but_unused<'a>(a: Environment<'a>, b: Environment<'a>) -> bool {
    &&& a.accessors == b.accessors
    &&& a.current_module == b.current_module
    &&& a.entity_usages == b.entity_usages
    &&& a.id_gen == b.id_gen
    &&& a.imported_types == b.imported_types
    &&& a.ungeneralised_functions == b.ungeneralised_functions
    &&& a.unqualified_imported_names == b.unqualified_imported_names
    &&& a.importable_modules == b.importable_modules
    &&& a.imported_modules == b.imported_modules
    &&& a.module_types == b.module_types
    &&& a.module_types_constructors == b.module_types_constructors
    &&& a.module_values == b.module_values
    &&& a.previous_id == b.previous_id
    &&& a.scope == b.scope
    &&& a.warnings == b.warnings
    &&& a.vars == b.vars
}

/// A pattern with the one outer assignment it may have taken off.
pub open spec fn strip_assign<C, T>(p: Pattern<C, T>) -> Pattern<C, T> {
    match p {
        Pattern::Assign { pattern, .. } => *pattern,
        _ => p,
    }
}

/// A pattern with all its outer assignments taken off.
pub open spec fn strip_assigns<C, T>(p: Pattern<C, T>) -> Pattern<C, T>
    decreases p,
{
    match p {
        Pattern::Assign { pattern, .. } => strip_assigns(*pattern),
        _ => p,
    }
}

/// The tail of a list pattern, if it has one, is a variable or a discard.
pub open spec fn tail_is_simple<C, T>(p: Pattern<C, T>) -> bool {
    match strip_assign(p) {
        Pattern::List { tail: Some(t), .. } => (*t is Var || *t is Discard),
        _ => true,
    }
}

/// A pattern that matches the empty list.
pub open spec fn covers_empty<C, T>(p: Pattern<C, T>) -> bool {
    match strip_assign(p) {
        Pattern::Var { .. } | Pattern::Discard { .. } => true,
        Pattern::List { elements, .. } => elements@.len() == 0,
        _ => false,
    }
}

/// A pattern that matches lists of any length from some length on.
pub open spec fn covers_tail<C, T>(p: Pattern<C, T>) -> bool {
    match strip_assign(p) {
        Pattern::Var { .. } | Pattern::Discard { .. } => true,
        Pattern::List { tail, .. } => tail is Some,
        _ => false,
    }
}

/// The missing cases of a list match, as they are reported.
pub open spec fn missing_list_cases(empty: bool, tail: bool) -> Seq<Seq<char>> {
    (if empty {
        Seq::empty()
    } else {
        seq!["[]"@]
    }) + (if tail {
        Seq::empty()
    } else {
        seq!["[_, ..]"@]
    })
}

/// The constructors a type of the given module has, as the environment
/// knows them.
pub open spec fn constructors_of<'a>(
    env: Environment<'a>,
    module: Option<Seq<char>>,
    name: Seq<char>,
) -> Option<Vec<String>> {
    match module {
        None => if env.module_types_constructors@.contains_key(name) {
            Some(env.module_types_constructors@[name])
        } else {
            None
        },
        Some(m) => if env.importable_modules@.contains_key(m)
            && env.importable_modules@[m].types_constructors@.contains_key(name) {
            Some(env.importable_modules@[m].types_constructors@[name])
        } else {
            None
        },
    }
}

/// A pattern that names a record constructor, after its assignments.
pub open spec fn record_name<T>(p: Pattern<PatternConstructor, T>) -> Option<Seq<char>> {
    match strip_assigns(p) {
        Pattern::Constructor { constructor: PatternConstructor::Record { name, .. }, .. } => Some(name@),
        _ => None,
    }
}

/// One of the first `i` patterns names the record constructor `c`.
pub open spec fn named_in<T>(pats: Seq<Pattern<PatternConstructor, T>>, i: int, c: Seq<char>) -> bool {
    exists|j: int| 0 <= j < i && record_name(#[trigger] pats[j]) == Some(c)
}

/// The pattern inside all outer assignments of a pattern.
fn strip_all_assigns<C, T>(p: &Pattern<C, T>) -> (r: &Pattern<C, T>)
    ensures
        *r == strip_assigns(*p),
    decreases p,
{
    match p {
        Pattern::Assign { pattern, .. } => strip_all_assigns(&**pattern),
        _ => p,
    }
}

/// Two environments differ in their warnings at most.
pub open spec fn same_but_warnings<'a>(a: Environment<'a>, b: Environment<'a>) -> bool {
    &&& a.accessors == b.accessors
    &&& a.current_module == b.current_module
    &&& a.entity_usages == b.entity_usages
    &&& a.id_gen == b.id_gen
    &&& a.importable_modules == b.importable_modules
    &&& a.imported_modules == b.imported_modules
    &&& a.imported_types == b.imported_types
    &&& a.module_types == b.module_types
    &&& a.module_types_constructors == b.module_types_constructors
    &&& a.module_values == b.module_values
    &&& a.previous_id == b.previous_id
    &&& a.scope == b.scope
    &&& a.ungeneralised_functions == b.ungeneralised_functions
    &&& a.unqualified_imported_names == b.unqualified_imported_names
    &&& a.unused_modules == b.unused_modules
    &&& a.vars == b.vars
}

/// Two environments differ in the identifier handed out last at most.
pub open spec fn same_but_ids<'a>(a: Environment<'a>, b: Environment<'a>) -> bool {
    &&& a.accessors == b.accessors
    &&& a.current_module == b.current_module
    &&& a.entity_usages == b.entity_usages
    &&& a.id_gen == b.id_gen
    &&& a.importable_modules == b.importable_modules
    &&& a.imported_modules == b.imported_modules
    &&& a.imported_types == b.imported_types
    &&& a.module_types == b.module_types
    &&& a.module_types_constructors == b.module_types_constructors
    &&& a.module_values == b.module_values
    &&& a.scope == b.scope
    &&& a.ungeneralised_functions == b.ungeneralised_functions
    &&& a.unqualified_imported_names == b.unqualified_imported_names
    &&& a.unused_modules == b.unused_modules
    &&& a.warnings == b.warnings
    &&& a.vars == b.vars
}

/// Two environments differ in their usage scopes and warnings at most.
pub open spec fn same_but_notes<'a>(a: Environment<'a>, b: Environment<'a>) -> bool {
    &&& a.accessors == b.accessors
    &&& a.current_module == b.current_module
    &&& a.id_gen == b.id_gen
    &&& a.importable_modules == b.importable_modules
    &&& a.imported_modules == b.imported_modules
    &&& a.imported_types == b.imported_types
    &&& a.module_types == b.module_types
    &&& a.module_types_constructors == b.module_types_constructors
    &&& a.module_values == b.module_values
    &&& a.previous_id == b.previous_id
    &&& a.scope == b.scope
    &&& a.ungeneralised_functions == b.ungeneralised_functions
    &&& a.unqualified_imported_names == b.unqualified_imported_names
    &&& a.unused_modules == b.unused_modules
    &&& a.vars == b.vars
}

/// Two environments differ in the types of the module at most.
pub open spec fn same_but_module_types<'a>(a: Environment<'a>, b: Environment<'a>) -> bool {
    &&& a.accessors == b.accessors
    &&& a.current_module == b.current_module
    &&& a.entity_usages == b.entity_usages
    &&& a.id_gen == b.id_gen
    &&& a.importable_modules == b.importable_modules
    &&& a.imported_modules == b.imported_modules
    &&& a.imported_types == b.imported_types
    &&& a.module_types_constructors == b.module_types_constructors
    &&& a.module_values == b.module_values
    &&& a.previous_id == b.previous_id
    &&& a.scope == b.scope
    &&& a.ungeneralised_functions == b.ungeneralised_functions
    &&& a.unqualified_imported_names == b.unqualified_imported_names
    &&& a.unused_modules == b.unused_modules
    &&& a.warnings == b.warnings
    &&& a.vars == b.vars
}

/// Two environments differ in the values in scope at most.
pub open spec fn same_but_scope<'a>(a: Environment<'a>, b: Environment<'a>) -> bool {
    &&& a.accessors == b.accessors
    &&& a.current_module == b.current_module
    &&& a.entity_usages == b.entity_usages
    &&& a.id_gen == b.id_gen
    &&& a.importable_modules == b.importable_modules
    &&& a.imported_modules == b.imported_modules
    &&& a.imported_types == b.imported_types
    &&& a.module_types == b.module_types
    &&& a.module_types_constructors == b.module_types_constructors
    &&& a.module_values == b.module_values
    &&& a.previous_id == b.previous_id
    &&& a.ungeneralised_functions == b.ungeneralised_functions
    &&& a.unqualified_imported_names == b.unqualified_imported_names
    &&& a.unused_modules == b.unused_modules
    &&& a.warnings == b.warnings
    &&& a.vars == b.vars
}

/// The type environment of a module being checked.
pub struct Environment<'a> {
    pub accessors: NameMap<AccessorsMap>,
    pub current_module: &'a String,
    pub entity_usages: Vec<NameMap<(EntityKind, Span, bool)>>,
    pub id_gen: IdGenerator,
    pub importable_modules: &'a NameMap<TypeInfo>,
    pub imported_modules: NameMap<(Span, &'a TypeInfo)>,
    pub imported_types: NameMap<()>,
    pub module_types: NameMap<TypeConstructor>,
    pub module_types_constructors: NameMap<Vec<String>>,
    pub module_values: NameMap<ValueConstructor>,
    pub previous_id: u64,
    pub scope: NameMap<ValueConstructor>,
    pub ungeneralised_functions: NameMap<()>,
    pub unqualified_imported_names: NameMap<Span>,
    pub unused_modules: NameMap<Span>,
    pub warnings: Vec<Warning>,
    pub vars: VarStore,
}

/// The warning for an entity that was never used.
fn unused_warning_for(name: String, kind: EntityKind, location: Span) -> (w: Warning)
    ensures
        unused_warning(name@, kind, location, w),
{
    match kind {
        EntityKind::ImportedType | EntityKind::ImportedTypeAndConstructor => Warning::UnusedType {
            name,
            imported: true,
            location,
        },
        EntityKind::ImportedConstructor => Warning::UnusedConstructor { name, imported: true, location },
        EntityKind::PrivateConstant => Warning::UnusedPrivateModuleConstant { name, location },
        EntityKind::PrivateTypeConstructor(_) => Warning::UnusedConstructor {
            name,
            imported: false,
            location,
        },
        EntityKind::PrivateFunction => Warning::UnusedPrivateFunction { name, location },
        EntityKind::PrivateType => Warning::UnusedType { name, imported: false, location },
        EntityKind::ImportedValue => Warning::UnusedImportedValue { name, location },
        EntityKind::Variable => Warning::UnusedVariable { name, location },
    }
}

impl<'a> Environment<'a> {
    /// Warns of every entity of a usage scope that was never used.
    fn handle_unused(&mut self, unused: NameMap<(EntityKind, Span, bool)>)
        ensures
            final(self).warnings@.len() >= old(self).warnings@.len(),
            final(self).warnings@.take(old(self).warnings@.len() as int) == old(self).warnings@,
            warns_of(
                final(self).warnings@.skip(old(self).warnings@.len() as int),
                unused_names(unused.key_seq(), unused@),
                unused@,
            ),
            same_but_warnings(*final(self), *old(self)),
    {
        let n = unused.len();
        let ghost w0 = self.warnings@;
        let ghost keys = unused.key_seq();
        let mut i: usize = 0;
        while i < n
            invariant
                n == keys.len(),
                keys == unused.key_seq(),
                forall|k: Seq<char>| #[trigger] unused@.contains_key(k) <==> keys.contains(k),
                i <= n,
                self.warnings@.len() >= w0.len(),
                self.warnings@.take(w0.len() as int) == w0,
                warns_of(self.warnings@.skip(w0.len() as int), unused_names(keys.take(i as int), unused@), unused@),
                same_but_warnings(*self, *old(self)),
                w0 == old(self).warnings@,
            decreases n - i,
        {
            let (name, entry) = unused.entry(i);
            let ghost before = self.warnings@;
            proof {
                assert(keys.take(i + 1) =~= keys.take(i as int).push(keys[i as int]));
                reveal(Seq::filter);
                assert(keys.take(i + 1).drop_last() =~= keys.take(i as int));
                assert(keys.take(i + 1).last() == keys[i as int]);
                assert(keys[i as int] == name@);
            }
            if !entry.2 {
                let w = unused_warning_for(name.clone(), entry.0.clone(), entry.1);
                self.warnings.push(w);
                proof {
                    let names = unused_names(keys.take(i + 1), unused@);
                    let ws = self.warnings@.skip(w0.len() as int);
                    assert(ws =~= before.skip(w0.len() as int).push(w));
                    assert(names == unused_names(keys.take(i as int), unused@).push(name@));
                    assert forall|j: int| 0 <= j < ws.len() implies unused_warning(
                        names[j],
                        unused@[names[j]].0,
                        unused@[names[j]].1,
                        #[trigger] ws[j],
                    ) by {
                        if j < ws.len() - 1 {
                            assert(ws[j] == before.skip(w0.len() as int)[j]);
                        }
                    }
                    assert(self.warnings@.take(w0.len() as int) =~= before.take(w0.len() as int));
                }
            } else {
                proof {
                    assert(unused_names(keys.take(i + 1), unused@) == unused_names(keys.take(i as int), unused@));
                }
            }
            i = i + 1;
        }
        proof {
            assert(keys.take(n as int) =~= keys);
        }
    }

    /// Runs `process_scope` in a scope of its own: a usage scope is opened
    /// for it and closed once it returns, with a warning for each entity
    /// declared there and never used, and the values in scope are put back.
    pub fn in_new_scope<T, F: FnOnce(&mut Environment<'a>) -> T>(&mut self, process_scope: F) -> (r: T)
        requires
            forall|e: &mut Environment<'a>| call_requires(process_scope, (e,)),
            forall|e: &mut Environment<'a>, x: T| #[trigger] call_ensures(process_scope, (e,), x) ==> (e.entity_usages@.len() > 0
                ==> final(e).entity_usages@.len() > 0),
        ensures
            exists|e: &mut Environment<'a>| {
                &&& #[trigger] call_ensures(process_scope, (e,), r)
                &&& e.entity_usages@ == old(self).entity_usages@.push(e.entity_usages@.last())
                &&& e.entity_usages@.last()@ == Map::<Seq<char>, (EntityKind, Span, bool)>::empty()
                &&& e.scope@ == old(self).scope@
                &&& e.warnings@ == old(self).warnings@
                &&& final(self).entity_usages@ == final(e).entity_usages@.drop_last()
                &&& final(self).vars == final(e).vars
                &&& final(self).warnings@.take(final(e).warnings@.len() as int) == final(e).warnings@
                &&& warns_of(
                    final(self).warnings@.skip(final(e).warnings@.len() as int),
                    unused_names(final(e).entity_usages@.last().key_seq(), final(e).entity_usages@.last()@),
                    final(e).entity_usages@.last()@,
                )
            },
            final(self).scope@.dom() == old(self).scope@.dom(),
            forall|k: Seq<char>| #[trigger] old(self).scope@.contains_key(k) ==> final(self).scope@[k].public
                == old(self).scope@[k].public && final(self).scope@[k].tipo == old(self).scope@[k].tipo
                && same_variant(old(self).scope@[k].variant, final(self).scope@[k].variant),
    {
        let initial = self.open_new_scope();
        let result = process_scope(self);
        self.close_scope(initial);
        result
    }

    /// Closes the innermost scope: warns of its unused entities and puts
    /// back the values in scope when it was opened.
    pub fn close_scope(&mut self, data: ScopeResetData)
        requires
            old(self).entity_usages@.len() > 0,
        ensures
            final(self).entity_usages@ == old(self).entity_usages@.drop_last(),
            final(self).scope@ == data.local_values@,
            *final(self) == (Environment {
                entity_usages: final(self).entity_usages,
                scope: final(self).scope,
                warnings: final(self).warnings,
                ..*old(self)
            }),
            final(self).warnings@.take(old(self).warnings@.len() as int) == old(self).warnings@,
            warns_of(
                final(self).warnings@.skip(old(self).warnings@.len() as int),
                unused_names(
                    old(self).entity_usages@.last().key_seq(),
                    old(self).entity_usages@.last()@,
                ),
                old(self).entity_usages@.last()@,
            ),
    {
        let unused = self.entity_usages.pop().unwrap();
        self.handle_unused(unused);
        self.scope = data.local_values;
    }

    /// Warns of the unused entities of the outermost scope and of every
    /// imported module that was never used.
    pub fn convert_unused_to_warnings(&mut self)
        requires
            old(self).entity_usages@.len() > 0,
        ensures
            final(self).entity_usages@ == old(self).entity_usages@.drop_last(),
            *final(self) == (Environment {
                entity_usages: final(self).entity_usages,
                warnings: final(self).warnings,
                ..*old(self)
            }),
            final(self).warnings@.take(old(self).warnings@.len() as int) == old(self).warnings@,
            ({
                let unused = old(self).entity_usages@.last();
                let names = unused_names(unused.key_seq(), unused@);
                let ws = final(self).warnings@.skip(old(self).warnings@.len() as int);
                let mods = old(self).unused_modules.key_seq();
                &&& ws.len() == names.len() + mods.len()
                &&& warns_of(ws.take(names.len() as int), names, unused@)
                &&& forall|i: int|
                    0 <= i < mods.len() ==> (#[trigger] ws[names.len() + i] matches Warning::UnusedImportedModule {
                        name,
                        location,
                    } && name@ == mods[i] && location == old(self).unused_modules@[mods[i]])
            }),
    {
        let unused = self.entity_usages.pop().unwrap();
        let ghost u = unused;
        self.handle_unused(unused);
        let ghost w1 = self.warnings@;
        let n = self.unused_modules.len();
        let mut i: usize = 0;
        while i < n
            invariant
                n == self.unused_modules.key_seq().len(),
                self.unused_modules == old(self).unused_modules,
                *self == (Environment { entity_usages: self.entity_usages, warnings: self.warnings, ..*old(self) }),
                i <= n,
                self.warnings@.len() == w1.len() + i,
                self.warnings@.take(w1.len() as int) == w1,
                self.entity_usages@ == old(self).entity_usages@.drop_last(),
                forall|j: int|
                    0 <= j < i ==> (#[trigger] self.warnings@[w1.len() + j] matches Warning::UnusedImportedModule {
                        name,
                        location,
                    } && name@ == self.unused_modules.key_seq()[j] && location
                        == self.unused_modules@[self.unused_modules.key_seq()[j]]),
            decreases n - i,
        {
            let (name, location) = self.unused_modules.entry(i);
            let w = Warning::UnusedImportedModule { name: name.clone(), location: *location };
            let ghost before = self.warnings@;
            self.warnings.push(w);
            proof {
                assert(self.warnings@.take(w1.len() as int) =~= before.take(w1.len() as int));
                assert(self.warnings@[w1.len() + i] == w);
            }
            i = i + 1;
        }
        proof {
            let w0 = old(self).warnings@;
            let names = unused_names(u.key_seq(), u@);
            let ws = self.warnings@.skip(w0.len() as int);
            assert(self.warnings@.take(w0.len() as int) =~= w1.take(w0.len() as int));
            assert(ws.take(names.len() as int) =~= w1.skip(w0.len() as int));
            assert forall|j: int| 0 <= j < n implies (#[trigger] ws[names.len() + j] matches Warning::UnusedImportedModule {
                name,
                location,
            } && name@ == old(self).unused_modules.key_seq()[j] && location
                == old(self).unused_modules@[old(self).unused_modules.key_seq()[j]]) by {
                assert(ws[names.len() + j] == self.warnings@[w1.len() + j]);
            }
        }
    }

    /// The environment of a module about to be checked: the prelude's types,
    /// constructors and accessors are known and its values are in scope.
    pub fn new(
        id_gen: IdGenerator,
        current_module: &'a String,
        importable_modules: &'a NameMap<TypeInfo>,
        warnings: Vec<Warning>,
    ) -> (e: Self)
        requires
            importable_modules@.contains_key("nano"@),
        ensures
            ({
                let prelude = importable_modules@["nano"@];
                &&& e.module_types@.dom() == prelude.types@.dom()
                &&& forall|k: Seq<char>| #[trigger] prelude.types@.contains_key(k) ==> cloned(prelude.types@[k], e.module_types@[k])
                &&& e.module_types_constructors@.dom() == prelude.types_constructors@.dom()
                &&& forall|k: Seq<char>| #[trigger] prelude.types_constructors@.contains_key(k) ==> cloned(
                    prelude.types_constructors@[k],
                    e.module_types_constructors@[k],
                )
                &&& e.accessors@.dom() == prelude.accessors@.dom()
                &&& forall|k: Seq<char>| #[trigger] prelude.accessors@.contains_key(k) ==> cloned(prelude.accessors@[k], e.accessors@[k])
                &&& e.scope@.dom() == prelude.values@.dom()
                &&& forall|k: Seq<char>| #[trigger] prelude.values@.contains_key(k) ==> cloned(prelude.values@[k], e.scope@[k])
            }),
            e.id_gen == id_gen,
            e.current_module == current_module,
            e.importable_modules == importable_modules,
            e.warnings == warnings,
            e.module_values@ == Map::<Seq<char>, ValueConstructor>::empty(),
            e.imported_modules@ == Map::<Seq<char>, (Span, &'a TypeInfo)>::empty(),
            e.imported_types@ == Map::<Seq<char>, ()>::empty(),
            e.ungeneralised_functions@ == Map::<Seq<char>, ()>::empty(),
            e.unqualified_imported_names@ == Map::<Seq<char>, Span>::empty(),
            e.unused_modules@ == Map::<Seq<char>, Span>::empty(),
            e.entity_usages@.len() == 1,
            e.entity_usages@[0]@ == Map::<Seq<char>, (EntityKind, Span, bool)>::empty(),
            e.vars@ == Map::<u64, crate::lang::tipo::unify::VarV>::empty(),
    {
        let prelude = importable_modules.get("nano").unwrap();
        let mut entity_usages: Vec<NameMap<(EntityKind, Span, bool)>> = Vec::new();
        entity_usages.push(NameMap::new());
        Environment {
            previous_id: id_gen.next(),
            id_gen,
            ungeneralised_functions: NameMap::new(),
            module_types: prelude.types.copy(),
            module_types_constructors: prelude.types_constructors.copy(),
            module_values: NameMap::new(),
            imported_modules: NameMap::new(),
            unused_modules: NameMap::new(),
            unqualified_imported_names: NameMap::new(),
            accessors: prelude.accessors.copy(),
            scope: prelude.values.copy(),
            importable_modules,
            imported_types: NameMap::new(),
            current_module,
            warnings,
            entity_usages,
            vars: VarStore::new(),
        }
    }

    /// Opens a scope: the values in scope are saved to be put back when it
    /// closes, and a fresh usage scope is pushed.
    pub fn open_new_scope(&mut self) -> (r: ScopeResetData)
        ensures
            r.local_values@.dom() == old(self).scope@.dom(),
            forall|k: Seq<char>| #[trigger] old(self).scope@.contains_key(k) ==> r.local_values@[k].public
                == old(self).scope@[k].public && r.local_values@[k].tipo == old(self).scope@[k].tipo
                && same_variant(old(self).scope@[k].variant, r.local_values@[k].variant),
            final(self).entity_usages@.len() == old(self).entity_usages@.len() + 1,
            final(self).entity_usages@.drop_last() == old(self).entity_usages@,
            final(self).entity_usages@.last()@ == Map::<Seq<char>, (EntityKind, Span, bool)>::empty(),
            final(self).scope@ == old(self).scope@,
            final(self).warnings@ == old(self).warnings@,
    {
        let local_values = self.scope.copy();
        self.entity_usages.push(NameMap::new());
        proof {
            assert(self.entity_usages@.drop_last() =~= old(self).entity_usages@);
        }
        ScopeResetData { local_values }
    }

    /// The value a name stands for in the current scope.
    pub fn get_variable(&self, name: &str) -> (r: Option<&ValueConstructor>)
        ensures
            match r {
                Some(v) => self.scope@.contains_key(name@) && *v == self.scope@[name@],
                None => !self.scope@.contains_key(name@),
            },
    {
        self.scope.get(name)
    }

    /// Binds a name of the current scope to a private value.
    pub fn insert_variable(&mut self, name: String, variant: ValueConstructorVariant, tipo: Arc<Type>)
        ensures
            final(self).scope@ == old(self).scope@.insert(
                name@,
                ValueConstructor { public: false, variant, tipo },
            ),
            same_but_scope(*final(self), *old(self)),
            final(self).entity_usages@ == old(self).entity_usages@,
            final(self).warnings@ == old(self).warnings@,
    {
        self.scope.insert(name, ValueConstructor { public: false, variant, tipo });
    }

    /// Records a value defined by the module.
    pub fn insert_module_value(&mut self, name: &str, value: ValueConstructor)
        ensures
            final(self).module_values@ == old(self).module_values@.insert(name@, value),
            *final(self) == (Environment { module_values: final(self).module_values, ..*old(self) }),
    {
        self.module_values.insert(owned(name), value);
    }

    /// Records the labelled fields of a record type.
    pub fn insert_accessors(&mut self, tname: &str, accessors: AccessorsMap)
        ensures
            final(self).accessors@ == old(self).accessors@.insert(tname@, accessors),
            *final(self) == (Environment { accessors: final(self).accessors, ..*old(self) }),
    {
        self.accessors.insert(owned(tname), accessors);
    }

    /// Records a type defined by the module. Redefining a type of the
    /// prelude is allowed; redefining any other type is an error.
    pub fn insert_type_constructor(&mut self, tname: String, info: TypeConstructor) -> (r: Result<
        (),
        Error,
    >)
        ensures
            final(self).module_types@ == old(self).module_types@.insert(tname@, info),
            same_but_module_types(*final(self), *old(self)),
            match r {
                Ok(()) => !old(self).module_types@.contains_key(tname@) || old(
                    self,
                ).module_types@[tname@].module@.len() == 0,
                Err(e) => {
                    &&& old(self).module_types@.contains_key(tname@)
                    &&& old(self).module_types@[tname@].module@.len() != 0
                    &&& e == Error::DuplicateTypeName {
                        name: tname,
                        location: info.location,
                        previous_location: old(self).module_types@[tname@].location,
                    }
                },
            },
    {
        let name = tname.clone();
        let location = info.location;
        match self.module_types.insert(tname, info) {
            None => Ok(()),
            Some(previous) => {
                if previous.module.as_str().is_empty() {
                    Ok(())
                } else {
                    Err(Error::DuplicateTypeName { name, location, previous_location: previous.location })
                }
            },
        }
    }

    /// Records the constructors of a type defined by the module.
    pub fn insert_type_to_constructors(&mut self, tname: String, constructors: Vec<String>)
        ensures
            final(self).module_types_constructors@ == old(self).module_types_constructors@.insert(
                tname@,
                constructors,
            ),
            *final(self) == (Environment { module_types_constructors: final(self).module_types_constructors, ..*old(self) }),
    {
        self.module_types_constructors.insert(tname, constructors);
    }

    /// The names in scope, but the pipeline's hidden variable.
    pub fn local_value_names(&self) -> (r: Vec<String>)
        ensures
            texts(r@) == self.scope.key_seq().filter(|k: Seq<char>| k != PIPE_VARIABLE@),
    {
        let keys = self.scope.keys();
        let mut r: Vec<String> = Vec::new();
        let mut i: usize = 0;
        proof {
            reveal(Seq::filter);
        }
        while i < keys.len()
            invariant
                texts(keys@) == self.scope.key_seq(),
                i <= keys@.len(),
                texts(r@) == texts(keys@).take(i as int).filter(|k: Seq<char>| k != PIPE_VARIABLE@),
            decreases keys@.len() - i,
        {
            let ghost before = r@;
            proof {
                reveal(Seq::filter);
                assert(texts(keys@).take(i + 1).drop_last() =~= texts(keys@).take(i as int));
                assert(texts(keys@).take(i + 1).last() == keys@[i as int]@);
            }
            if !str_eq(keys[i].as_str(), PIPE_VARIABLE) {
                r.push(keys[i].clone());
                proof {
                    assert(texts(r@) =~= texts(before).push(keys@[i as int]@));
                }
            }
            i = i + 1;
        }
        proof {
            assert(texts(keys@).take(keys@.len() as int) =~= texts(keys@));
        }
        r
    }

    /// A fresh identifier from the shared generator; it is remembered as
    /// the previous one.
    pub fn next_uid(&mut self) -> (id: u64)
        ensures
            final(self).previous_id == id,
            same_but_ids(*final(self), *old(self)),
            final(self).scope == old(self).scope,
            final(self).entity_usages == old(self).entity_usages,
            final(self).warnings == old(self).warnings,
    {
        let id = self.id_gen.next();
        self.previous_id = id;
        id
    }

    /// The identifier handed out last.
    pub fn previous_uid(&self) -> (id: u64)
        ensures
            id == self.previous_id,
    {
        self.previous_id
    }

    /// A generic type variable with a fresh identifier.
    pub fn new_generic_var(&mut self) -> (t: Arc<Type>)
        ensures
            *t == (Type::Var { tipo: TypeVar::Generic { id: final(self).previous_id } }),
            same_but_ids(*final(self), *old(self)),
            final(self).scope == old(self).scope,
    {
        generic_var(self.next_uid())
    }

    /// An unbound type variable with a fresh identifier.
    pub fn new_unbound_var(&mut self) -> (t: Arc<Type>)
        ensures
            *t == (Type::Var { tipo: TypeVar::Unbound { id: final(self).previous_id } }),
            same_but_ids(*final(self), *old(self)),
            final(self).scope == old(self).scope,
    {
        unbound_var(self.next_uid())
    }

    /// Starts tracking the usage of an entity in the innermost scope. An
    /// entity of the same name that it hides and that was never used is
    /// warned of, unless it is an imported or private type.
    pub fn init_usage(&mut self, name: String, kind: EntityKind, location: Span)
        requires
            old(self).entity_usages@.len() > 0,
        ensures
            same_but_notes(*final(self), *old(self)),
            final(self).entity_usages@.len() == old(self).entity_usages@.len(),
            final(self).entity_usages@.drop_last() == old(self).entity_usages@.drop_last(),
            final(self).entity_usages@.last()@ == old(self).entity_usages@.last()@.insert(
                name@,
                (kind, location, false),
            ),
            ({
                let top = old(self).entity_usages@.last()@;
                if top.contains_key(name@) && !top[name@].2 && !(top[name@].0 is ImportedType
                    || top[name@].0 is ImportedTypeAndConstructor || top[name@].0 is PrivateType) {
                    &&& final(self).warnings@.len() == old(self).warnings@.len() + 1
                    &&& final(self).warnings@.drop_last() == old(self).warnings@
                    &&& unused_warning(name@, top[name@].0, top[name@].1, final(self).warnings@.last())
                } else {
                    final(self).warnings@ == old(self).warnings@
                }
            }),
    {
        let mut top = self.entity_usages.pop().unwrap();
        let previous = top.insert(name.clone(), (kind, location, false));
        self.entity_usages.push(top);
        proof {
            assert(self.entity_usages@.drop_last() =~= old(self).entity_usages@.drop_last());
        }
        match previous {
            Some((EntityKind::ImportedType, _, _)) => {},
            Some((EntityKind::ImportedTypeAndConstructor, _, _)) => {},
            Some((EntityKind::PrivateType, _, _)) => {},
            Some((previous_kind, previous_location, false)) => {
                let mut unused = NameMap::new();
                unused.insert(name, (previous_kind, previous_location, false));
                let ghost uk = unused.key_seq();
                let ghost um = unused@;
                self.handle_unused(unused);
                proof {
                    reveal(Seq::filter);
                    assert(uk.drop_last() =~= Seq::<Seq<char>>::empty());
                    assert(unused_names(uk, um) =~= seq![name@]);
                    let w0 = old(self).warnings@;
                    assert(self.warnings@ =~= self.warnings@.take(w0.len() as int) + self.warnings@.skip(
                        w0.len() as int,
                    ));
                    assert(self.warnings@.drop_last() =~= w0);
                    assert(self.warnings@.last() == self.warnings@.skip(w0.len() as int)[0]);
                }
            },
            _ => {},
        }
    }

    /// The type a name stands for, in the module or in an imported module.
    /// Looking in an imported module marks it as used.
    pub fn get_type_constructor(
        &mut self,
        module_alias: &Option<String>,
        name: &str,
        location: Span,
    ) -> (r: Result<&TypeConstructor, Error>)
        ensures
            match module_alias {
                None => {
                    &&& *final(self) == *old(self)
                    &&& match r {
                        Ok(t) => old(self).module_types@.contains_key(name@) && *t == old(
                            self,
                        ).module_types@[name@],
                        Err(e) => !old(self).module_types@.contains_key(name@) && (e matches Error::UnknownType {
                            location: l,
                            name: n,
                            types,
                        } && l == location && n@ == name@ && texts(types@) == old(self).module_types.key_seq()),
                    }
                },
                Some(m) => if !old(self).imported_modules@.contains_key(m@) {
                    &&& *final(self) == *old(self)
                    &&& r matches Err(Error::UnknownModule { location: l, name: n, imported_modules })
                    &&& l == location && n@ == name@
                    &&& texts(imported_modules@) == old(self).importable_modules.key_seq()
                } else {
                    let info = old(self).imported_modules@[m@].1;
                    &&& same_but_unused(*final(self), *old(self))
                    &&& final(self).unused_modules@ == old(self).unused_modules@.remove(m@)
                    &&& match r {
                        Ok(t) => info.types@.contains_key(name@) && *t == info.types@[name@],
                        Err(e) => !info.types@.contains_key(name@) && (e matches Error::UnknownModuleType {
                            location: l,
                            name: n,
                            module_name,
                            type_constructors,
                        } && l == location && n@ == name@ && module_name == info.name && texts(
                            type_constructors@,
                        ) == info.types.key_seq()),
                    }
                },
            },
    {
        match module_alias {
            None => match self.module_types.get(name) {
                Some(t) => Ok(t),
                None => Err(
                    Error::UnknownType { location, name: owned(name), types: self.module_types.keys() },
                ),
            },
            Some(m) => {
                let module: &'a TypeInfo = match self.imported_modules.get(m.as_str()) {
                    Some(entry) => entry.1,
                    None => {
                        return Err(
                            Error::UnknownModule {
                                location,
                                name: owned(name),
                                imported_modules: self.importable_modules.keys(),
                            },
                        );
                    },
                };
                self.unused_modules.remove(m.as_str());
                match module.types.get(name) {
                    Some(t) => Ok(t),
                    None => Err(
                        Error::UnknownModuleType {
                            location,
                            name: owned(name),
                            module_name: module.name.clone(),
                            type_constructors: module.types.keys(),
                        },
                    ),
                }
            },
        }
    }

    /// The value a name stands for, in scope or in an imported module.
    /// Looking in an imported module marks it as used.
    pub fn get_value_constructor(
        &mut self,
        module: Option<&String>,
        name: &str,
        location: Span,
    ) -> (r: Result<&ValueConstructor, Error>)
        ensures
            match module {
                None => {
                    &&& *final(self) == *old(self)
                    &&& match r {
                        Ok(v) => old(self).scope@.contains_key(name@) && *v == old(self).scope@[name@],
                        Err(e) => !old(self).scope@.contains_key(name@) && (e matches Error::UnknownVariable {
                            location: l,
                            name: n,
                            variables,
                        } && l == location && n@ == name@ && texts(variables@) == old(
                            self,
                        ).scope.key_seq().filter(|k: Seq<char>| k != PIPE_VARIABLE@)),
                    }
                },
                Some(m) => if !old(self).imported_modules@.contains_key(m@) {
                    &&& *final(self) == *old(self)
                    &&& r matches Err(Error::UnknownModule { location: l, name: n, imported_modules })
                    &&& l == location && n@ == name@
                    &&& texts(imported_modules@) == old(self).importable_modules.key_seq()
                } else {
                    let info = old(self).imported_modules@[m@].1;
                    &&& same_but_unused(*final(self), *old(self))
                    &&& final(self).unused_modules@ == old(self).unused_modules@.remove(m@)
                    &&& match r {
                        Ok(v) => info.values@.contains_key(name@) && *v == info.values@[name@],
                        Err(e) => !info.values@.contains_key(name@) && (e matches Error::UnknownModuleValue {
                            location: l,
                            name: n,
                            module_name,
                            value_constructors,
                        } && l == location && n@ == name@ && module_name == info.name && texts(
                            value_constructors@,
                        ) == info.values.key_seq()),
                    }
                },
            },
    {
        match module {
            None => match self.scope.get(name) {
                Some(v) => Ok(v),
                None => Err(
                    Error::UnknownVariable {
                        location,
                        name: owned(name),
                        variables: self.local_value_names(),
                    },
                ),
            },
            Some(m) => {
                let info: &'a TypeInfo = match self.imported_modules.get(m.as_str()) {
                    Some(entry) => entry.1,
                    None => {
                        return Err(
                            Error::UnknownModule {
                                name: owned(name),
                                imported_modules: self.importable_modules.keys(),
                                location,
                            },
                        );
                    },
                };
                self.unused_modules.remove(m.as_str());
                match info.values.get(name) {
                    Some(v) => Ok(v),
                    None => Err(
                        Error::UnknownModuleValue {
                            name: owned(name),
                            module_name: info.name.clone(),
                            value_constructors: info.values.keys(),
                            location,
                        },
                    ),
                }
            },
        }
    }

    /// The constructors of a type of this module, or of a module that can
    /// be imported. Looking in another module marks it as used.
    pub fn get_constructors_for_type(
        &mut self,
        full_module_name: &Option<String>,
        name: &str,
        location: Span,
    ) -> (r: Result<&Vec<String>, Error>)
        ensures
            match full_module_name {
                None => *final(self) == *old(self),
                Some(m) => if old(self).importable_modules@.contains_key(m@) {
                    &&& same_but_unused(*final(self), *old(self))
                    &&& final(self).unused_modules@ == old(self).unused_modules@.remove(m@)
                } else {
                    *final(self) == *old(self)
                },
            },
            match r {
                Ok(v) => constructors_of(
                    *old(self),
                    match full_module_name {
                        Some(m) => Some(m@),
                        None => None,
                    },
                    name@,
                ) == Some(*v),
                Err(e) => constructors_of(
                    *old(self),
                    match full_module_name {
                        Some(m) => Some(m@),
                        None => None,
                    },
                    name@,
                ) is None && match full_module_name {
                    None => e matches Error::UnknownType { location: l, name: n, types } && l == location
                        && n@ == name@ && texts(types@) == old(self).module_types.key_seq(),
                    Some(m) => if old(self).importable_modules@.contains_key(m@) {
                        let info = old(self).importable_modules@[m@];
                        e matches Error::UnknownModuleType {
                            location: l,
                            name: n,
                            module_name,
                            type_constructors,
                        } && l == location && n@ == name@ && module_name == info.name && texts(
                            type_constructors@,
                        ) == info.types.key_seq()
                    } else {
                        e matches Error::UnknownModule { location: l, name: n, imported_modules } && l
                            == location && n@ == name@ && texts(imported_modules@)
                            == old(self).importable_modules.key_seq()
                    },
                },
            },
    {
        match full_module_name {
            None => match self.module_types_constructors.get(name) {
                Some(v) => Ok(v),
                None => Err(
                    Error::UnknownType { name: owned(name), types: self.module_types.keys(), location },
                ),
            },
            Some(m) => {
                let importable: &'a NameMap<TypeInfo> = self.importable_modules;
                let module: &'a TypeInfo = match importable.get(m.as_str()) {
                    Some(info) => info,
                    None => {
                        return Err(
                            Error::UnknownModule {
                                location,
                                name: owned(name),
                                imported_modules: self.importable_modules.keys(),
                            },
                        );
                    },
                };
                self.unused_modules.remove(m.as_str());
                match module.types_constructors.get(name) {
                    Some(v) => Ok(v),
                    None => Err(
                        Error::UnknownModuleType {
                            location,
                            name: owned(name),
                            module_name: module.name.clone(),
                            type_constructors: module.types.keys(),
                        },
                    ),
                }
            },
        }
    }

    /// Whether the patterns of a match on a list cover every list: they must
    /// cover the empty list and lists from some length on. The missing cases
    /// are reported otherwise.
    pub fn check_list_pattern_exhaustiveness(
        &mut self,
        patterns: Vec<Pattern<PatternConstructor, Arc<Type>>>,
    ) -> (r: Result<(), Vec<String>>)
        requires
            forall|i: int| 0 <= i < patterns@.len() ==> tail_is_simple(#[trigger] patterns@[i]),
        ensures
            *final(self) == *old(self),
            ({
                let empty = exists|i: int| 0 <= i < patterns@.len() && covers_empty(#[trigger] patterns@[i]);
                let tail = exists|i: int| 0 <= i < patterns@.len() && covers_tail(#[trigger] patterns@[i]);
                if empty && tail {
                    r is Ok
                } else {
                    r matches Err(missing) && texts(missing@) == missing_list_cases(empty, tail)
                }
            }),
    {
        let mut cover_empty = false;
        let mut cover_tail = false;
        let mut i: usize = 0;
        while i < patterns.len()
            invariant
                i <= patterns@.len(),
                forall|j: int| 0 <= j < patterns@.len() ==> tail_is_simple(#[trigger] patterns@[j]),
                cover_empty == exists|j: int| 0 <= j < i && covers_empty(#[trigger] patterns@[j]),
                cover_tail == exists|j: int| 0 <= j < i && covers_tail(#[trigger] patterns@[j]),
            decreases patterns@.len() - i,
        {
            let p = match &patterns[i] {
                Pattern::Assign { pattern, .. } => &**pattern,
                other => other,
            };
            proof {
                assert(*p == strip_assign(patterns@[i as int]));
                assert(tail_is_simple(patterns@[i as int]));
            }
            match p {
                Pattern::Var { .. } => {
                    cover_empty = true;
                    cover_tail = true;
                },
                Pattern::Discard { .. } => {
                    cover_empty = true;
                    cover_tail = true;
                },
                Pattern::List { elements, tail, .. } => {
                    if elements.len() == 0 {
                        cover_empty = true;
                    }
                    match tail {
                        None => {},
                        Some(_) => {
                            cover_tail = true;
                        },
                    }
                },
                _ => {},
            }
            proof {
                assert(covers_empty(patterns@[i as int]) ==> cover_empty);
                assert(covers_tail(patterns@[i as int]) ==> cover_tail);
            }
            i = i + 1;
        }
        if cover_empty && cover_tail {
            Ok(())
        } else {
            let mut missing: Vec<String> = Vec::new();
            if !cover_empty {
                missing.push(owned("[]"));
            }
            if !cover_tail {
                missing.push(owned("[_, ..]"));
            }
            proof {
                assert(texts(missing@) =~= missing_list_cases(cover_empty, cover_tail));
            }
            Err(missing)
        }
    }

    /// Whether the patterns of a match on a value of the given type cover
    /// every constructor of the type. A variable, a discard or any pattern
    /// other than a constructor covers everything; lists are checked on
    /// their own; a type whose constructors are unknown passes. The missing
    /// constructors are reported, sorted.
    #[verifier::loop_isolation(false)]
    pub fn check_exhaustiveness(
        &mut self,
        patterns: Vec<Pattern<PatternConstructor, Arc<Type>>>,
        value_typ: Arc<Type>,
        location: Span,
    ) -> (r: Result<(), Vec<String>>)
        requires
            (*value_typ matches Type::App { name, module, .. } && name@ == "List"@ && module@.len() == 0)
                ==> forall|i: int| 0 <= i < patterns@.len() ==> tail_is_simple(#[trigger] patterns@[i]),
        ensures
            match *value_typ {
                Type::App { name, module, .. } => {
                    let m = if module@.len() == 0 || module@ == old(self).current_module@ {
                        None
                    } else {
                        Some(module@)
                    };
                    if name@ == "List"@ && module@.len() == 0 {
                        let empty = exists|i: int|
                            0 <= i < patterns@.len() && covers_empty(#[trigger] patterns@[i]);
                        let tail = exists|i: int|
                            0 <= i < patterns@.len() && covers_tail(#[trigger] patterns@[i]);
                        &&& *final(self) == *old(self)
                        &&& if empty && tail {
                            r is Ok
                        } else {
                            r matches Err(missing) && texts(missing@) == missing_list_cases(empty, tail)
                        }
                    } else {
                        &&& match m {
                            Some(mm) => if old(self).importable_modules@.contains_key(mm) {
                                &&& same_but_unused(*final(self), *old(self))
                                &&& final(self).unused_modules@ == old(self).unused_modules@.remove(mm)
                            } else {
                                *final(self) == *old(self)
                            },
                            None => *final(self) == *old(self),
                        }
                        &&& match constructors_of(*old(self), m, name@) {
                            None => r is Ok,
                            Some(cs) => if exists|i: int|
                                0 <= i < patterns@.len() && record_name(#[trigger] patterns@[i]) is None {
                                r is Ok
                            } else {
                                let missing = texts(cs@).to_set().filter(
                                    |c: Seq<char>| !named_in(patterns@, patterns@.len() as int, c),
                                );
                                if missing.len() == 0 {
                                    r is Ok
                                } else {
                                    r matches Err(v) && labels_sorted(v@, missing)
                                }
                            },
                        }
                    }
                },
                _ => r is Ok && *final(self) == *old(self),
            },
    {
        match &*value_typ {
            Type::App { name: tname, module, .. } => {
                let m: Option<String> = if module.as_str().is_empty() || str_eq(
                    module.as_str(),
                    self.current_module.as_str(),
                ) {
                    None
                } else {
                    Some(module.clone())
                };
                if str_eq(tname.as_str(), "List") && module.as_str().is_empty() {
                    return self.check_list_pattern_exhaustiveness(patterns);
                }
                let ghost pats = patterns@;
                match self.get_constructors_for_type(&m, tname.as_str(), location) {
                    Ok(constructors) => {
                        let mut unmatched: NameMap<()> = NameMap::new();
                        let mut k: usize = 0;
                        while k < constructors.len()
                            invariant
                                k <= constructors@.len(),
                                unmatched@.dom() == texts(constructors@).take(k as int).to_set(),
                            decreases constructors@.len() - k,
                        {
                            unmatched.insert(constructors[k].clone(), ());
                            proof {
                                assert(texts(constructors@).take(k + 1) =~= texts(constructors@).take(
                                    k as int,
                                ).push(constructors@[k as int]@));
                                let t0 = texts(constructors@).take(k as int);
                                let t1 = texts(constructors@).take(k + 1);
                                let x = constructors@[k as int]@;
                                assert forall|c: Seq<char>| t1.contains(c) <==> t0.contains(c) || c == x by {
                                    if t1.contains(c) {
                                        let j = choose|j: int| 0 <= j < t1.len() && t1[j] == c;
                                        if j < k {
                                            assert(t0[j] == c);
                                        }
                                    }
                                    if t0.contains(c) {
                                        let j = choose|j: int| 0 <= j < t0.len() && t0[j] == c;
                                        assert(t1[j] == c);
                                    }
                                    if c == x {
                                        assert(t1[k as int] == c);
                                    }
                                }
                                assert(unmatched@.dom() =~= texts(constructors@).take(k + 1).to_set());
                            }
                            k = k + 1;
                        }
                        proof {
                            assert(texts(constructors@).take(constructors@.len() as int) =~= texts(
                                constructors@,
                            ));
                        }
                        let ghost all = texts(constructors@).to_set();
                        let mut i: usize = 0;
                        while i < patterns.len()
                            invariant
                                pats == patterns@,
                                i <= patterns@.len(),
                                forall|j: int| 0 <= j < i ==> record_name(#[trigger] patterns@[j]) is Some,
                                unmatched@.dom() == all.filter(|c: Seq<char>| !named_in(patterns@, i as int, c)),
                            decreases patterns@.len() - i,
                        {
                            let p = strip_all_assigns(&patterns[i]);
                            match p {
                                Pattern::Constructor {
                                    constructor: PatternConstructor::Record { name, .. },
                                    ..
                                } => {
                                    let ghost before = unmatched@.dom();
                                    unmatched.remove(name.as_str());
                                    proof {
                                        assert(record_name(patterns@[i as int]) == Some(name@));
                                        assert forall|c: Seq<char>|
                                            #[trigger] named_in(patterns@, i + 1, c) == (named_in(
                                                patterns@,
                                                i as int,
                                                c,
                                            ) || c == name@) by {
                                            if c == name@ {
                                                assert(record_name(patterns@[i as int]) == Some(c));
                                            }
                                            if named_in(patterns@, i + 1, c) && c != name@ {
                                                let j = choose|j: int|
                                                    0 <= j < i + 1 && record_name(#[trigger] patterns@[j])
                                                        == Some(c);
                                                assert(j < i);
                                            }
                                        }
                                        assert(unmatched@.dom() =~= all.filter(
                                            |c: Seq<char>| !named_in(patterns@, i + 1, c),
                                        ));
                                    }
                                },
                                _ => {
                                    proof {
                                        assert(record_name(patterns@[i as int]) is None);
                                    }
                                    return Ok(());
                                },
                            }
                            i = i + 1;
                        }
                        if unmatched.is_empty() {
                            Ok(())
                        } else {
                            let count = unmatched.len();
                            let missing = sorted_strings(unmatched.keys());
                            proof {
                                let ks = unmatched.key_seq();
                                texts(missing@).to_multiset_ensures();
                                ks.to_multiset_ensures();
                                ks.lemma_multiset_has_no_duplicates();
                                assert forall|c: Seq<char>| #[trigger] texts(missing@).contains(c) <==> unmatched@.dom().contains(c) by {
                                    assert(texts(missing@).to_multiset().count(c) == ks.to_multiset().count(c));
                                }
                                assert forall|x: Seq<char>| texts(missing@).to_multiset().contains(x) implies texts(
                                    missing@,
                                ).to_multiset().count(x) == 1 by {
                                    assert(texts(missing@).to_multiset().count(x) == ks.to_multiset().count(x));
                                }
                                texts(missing@).lemma_multiset_has_no_duplicates_conv();
                            }
                            Err(missing)
                        }
                    },
                    Err(_) => Ok(()),
                }
            },
            _ => Ok(()),
        }
    }
}

/// Records the location of a type name, refusing a name recorded before.
pub fn assert_unique_type_name(names: &mut NameMap<Span>, name: &str, location: Span) -> (r: Result<(), Error>)
    ensures
        final(names)@ == old(names)@.insert(name@, location),
        match r {
            Ok(()) => !old(names)@.contains_key(name@),
            Err(e) => old(names)@.contains_key(name@) && (e matches Error::DuplicateTypeName {
                name: n,
                location: l,
                previous_location: p,
            } && n@ == name@ && l == location && p == old(names)@[name@]),
        },
{
    match names.insert(owned(name), location) {
        Some(previous_location) => Err(Error::DuplicateTypeName { name: owned(name), previous_location, location }),
        None => Ok(()),
    }
}

/// Records the location of a value name, refusing a name recorded before.
pub fn assert_unique_value_name(names: &mut NameMap<Span>, name: &str, location: Span) -> (r: Result<(), Error>)
    ensures
        final(names)@ == old(names)@.insert(name@, location),
        match r {
            Ok(()) => !old(names)@.contains_key(name@),
            Err(e) => old(names)@.contains_key(name@) && (e matches Error::DuplicateName {
                name: n,
                location: l,
                previous_location: p,
            } && n@ == name@ && l == location && p == old(names)@[name@]),
        },
{
    match names.insert(owned(name), location) {
        Some(previous_location) => Err(Error::DuplicateName { name: owned(name), previous_location, location }),
        None => Ok(()),
    }
}

/// Records the location of a constant name, refusing a name recorded
/// before.
pub fn assert_unique_const_name(names: &mut NameMap<Span>, name: &str, location: Span) -> (r: Result<(), Error>)
    ensures
        final(names)@ == old(names)@.insert(name@, location),
        match r {
            Ok(()) => !old(names)@.contains_key(name@),
            Err(e) => old(names)@.contains_key(name@) && (e matches Error::DuplicateConstName {
                name: n,
                location: l,
                previous_location: p,
            } && n@ == name@ && l == location && p == old(names)@[name@]),
        },
{
    match names.insert(owned(name), location) {
        Some(previous_location) => Err(Error::DuplicateConstName { name: owned(name), previous_location, location }),
        None => Ok(()),
    }
}

} // verus!
