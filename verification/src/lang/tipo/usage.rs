use vstd::prelude::*;
use crate::lang::ast::Span;
use crate::lang::name_map::NameMap;
use crate::lang::tipo::env::{EntityKind, Environment};
use crate::text::{owned, str_eq};

verus! {

/// What the usage scopes record, innermost last.
pub open spec fn usages(v: Seq<NameMap<(EntityKind, Span, bool)>>) -> Seq<Map<Seq<char>, (EntityKind, Span, bool)>> {
    Seq::new(v.len(), |i: int| v[i]@)
}

/// The innermost usage scope, at index `i` or below, that records `name`;
/// -1 when there is none.
pub open spec fn innermost<V>(u: Seq<Map<Seq<char>, V>>, name: Seq<char>, i: int) -> int
    decreases i + 1,
{
    if i < 0 {
        -1
    } else if u[i].contains_key(name) {
        i
    } else {
        innermost(u, name, i - 1)
    }
}

pub proof fn lemma_innermost<V>(u: Seq<Map<Seq<char>, V>>, name: Seq<char>, i: int)
    ensures
        innermost(u, name, i) >= 0 ==> innermost(u, name, i) <= i && u[innermost(u, name, i)].contains_key(name),
        innermost(u, name, i) >= -1,
    decreases i + 1,
{
    if i >= 0 && !u[i].contains_key(name) {
        lemma_innermost(u, name, i - 1);
    }
}

/// The usage scopes once `name` is marked as used in the innermost scope
/// that records it, and, when it is a constructor of a private type of
/// another name, that type is marked too, and so on, for at most `n` more
/// steps.
pub open spec fn mark(u: Seq<Map<Seq<char>, (EntityKind, Span, bool)>>, name: Seq<char>, n: nat) -> Seq<
    Map<Seq<char>, (EntityKind, Span, bool)>,
>
    decreases n,
{
    let i = innermost(u, name, u.len() - 1);
    if i < 0 {
        u
    } else {
        let e = u[i][name];
        let u2 = u.update(i, u[i].insert(name, (e.0, e.1, true)));
        match e.0 {
            EntityKind::PrivateTypeConstructor(t) => if t@ != name && n > 0 {
                mark(u2, t@, (n - 1) as nat)
            } else {
                u2
            },
            _ => u2,
        }
    }
}

/// Marking from `name` comes to an end within `n` steps: the chain of
/// constructors and their types that it follows has no cycle.
pub open spec fn mark_ends(u: Seq<Map<Seq<char>, (EntityKind, Span, bool)>>, name: Seq<char>, n: nat) -> bool
    decreases n,
{
    let i = innermost(u, name, u.len() - 1);
    if i < 0 {
        true
    } else {
        let e = u[i][name];
        let u2 = u.update(i, u[i].insert(name, (e.0, e.1, true)));
        match e.0 {
            EntityKind::PrivateTypeConstructor(t) => t@ == name || (n > 0 && mark_ends(u2, t@, (n - 1) as nat)),
            _ => true,
        }
    }
}

/// The kind each usage scope records for each name.
pub open spec fn kinds_of(u: Seq<Map<Seq<char>, (EntityKind, Span, bool)>>) -> Seq<Map<Seq<char>, EntityKind>> {
    Seq::new(u.len(), |i: int| Map::new(|k: Seq<char>| u[i].contains_key(k), |k: Seq<char>| u[i][k].0))
}

/// Following constructors to their private types from `name`, as the kinds
/// record them, comes to an end within `n` steps.
pub open spec fn ends_k(k: Seq<Map<Seq<char>, EntityKind>>, name: Seq<char>, n: nat) -> bool
    decreases n,
{
    let i = innermost(k, name, k.len() - 1);
    if i < 0 {
        true
    } else {
        match k[i][name] {
            EntityKind::PrivateTypeConstructor(t) => t@ == name || (n > 0 && ends_k(k, t@, (n - 1) as nat)),
            _ => true,
        }
    }
}

/// Marking from `name` comes to an end.
pub open spec fn chain_ends(u: Seq<Map<Seq<char>, (EntityKind, Span, bool)>>, name: Seq<char>) -> bool {
    exists|n: nat| mark_ends(u, name, n)
}

/// Marking comes to an end from every name: no chain of constructors and
/// private types runs in a cycle.
pub open spec fn chains_end(u: Seq<Map<Seq<char>, (EntityKind, Span, bool)>>) -> bool {
    forall|name: Seq<char>| #[trigger] chain_ends(u, name)
}

/// Two lists of scopes with the same domains find the same innermost scope.
pub proof fn lemma_innermost_same<V, W>(a: Seq<Map<Seq<char>, V>>, b: Seq<Map<Seq<char>, W>>, name: Seq<char>, i: int)
    requires
        a.len() == b.len(),
        i < a.len(),
        forall|j: int| 0 <= j <= i ==> (#[trigger] a[j].contains_key(name)) == b[j].contains_key(name),
    ensures
        innermost(a, name, i) == innermost(b, name, i),
    decreases i + 1,
{
    if i >= 0 {
        lemma_innermost_same(a, b, name, i - 1);
    }
}

pub proof fn lemma_mark_ends_kinds(u: Seq<Map<Seq<char>, (EntityKind, Span, bool)>>, name: Seq<char>, n: nat)
    ensures
        mark_ends(u, name, n) == ends_k(kinds_of(u), name, n),
    decreases n,
{
    let k = kinds_of(u);
    lemma_innermost_same(u, k, name, u.len() - 1);
    let i = innermost(u, name, u.len() - 1);
    lemma_innermost(u, name, u.len() - 1);
    if i >= 0 {
        let e = u[i][name];
        let u2 = u.update(i, u[i].insert(name, (e.0, e.1, true)));
        assert(kinds_of(u2) =~= k) by {
            assert forall|j: int| 0 <= j < u.len() implies #[trigger] kinds_of(u2)[j] =~= k[j] by {}
        }
        assert(k[i][name] == e.0);
        match e.0 {
            EntityKind::PrivateTypeConstructor(t) => {
                if t@ != name && n > 0 {
                    lemma_mark_ends_kinds(u2, t@, (n - 1) as nat);
                }
            },
            _ => {},
        }
    }
}

/// Marking changes no kind.
pub proof fn lemma_mark_kinds(u: Seq<Map<Seq<char>, (EntityKind, Span, bool)>>, name: Seq<char>, n: nat)
    ensures
        kinds_of(mark(u, name, n)) == kinds_of(u),
    decreases n,
{
    let i = innermost(u, name, u.len() - 1);
    lemma_innermost(u, name, u.len() - 1);
    if i >= 0 {
        let e = u[i][name];
        let u2 = u.update(i, u[i].insert(name, (e.0, e.1, true)));
        assert(kinds_of(u2) =~= kinds_of(u)) by {
            assert forall|j: int| 0 <= j < u.len() implies #[trigger] kinds_of(u2)[j] =~= kinds_of(u)[j] by {}
        }
        match e.0 {
            EntityKind::PrivateTypeConstructor(t) => {
                if t@ != name && n > 0 {
                    lemma_mark_kinds(u2, t@, (n - 1) as nat);
                }
            },
            _ => {},
        }
    }
}

/// Scopes of the same kinds end their chains alike.
pub proof fn lemma_chains_end_kinds(a: Seq<Map<Seq<char>, (EntityKind, Span, bool)>>, b: Seq<Map<Seq<char>, (EntityKind, Span, bool)>>)
    requires
        chains_end(a),
        kinds_of(a) == kinds_of(b),
    ensures
        chains_end(b),
{
    assert forall|name: Seq<char>| #[trigger] chain_ends(b, name) by {
        assert(chain_ends(a, name));
        let n = choose|n: nat| mark_ends(a, name, n);
        lemma_mark_ends_kinds(a, name, n);
        lemma_mark_ends_kinds(b, name, n);
        assert(mark_ends(b, name, n));
    }
}

/// Recording a name that is no constructor in the innermost scope keeps
/// every chain ending.
pub proof fn lemma_ends_k_insert(k: Seq<Map<Seq<char>, EntityKind>>, x: Seq<char>, kind: EntityKind, name: Seq<char>, n: nat)
    requires
        k.len() > 0,
        !(kind is PrivateTypeConstructor),
        ends_k(k, name, n),
    ensures
        ends_k(k.update(k.len() - 1, k[k.len() - 1].insert(x, kind)), name, n),
    decreases n,
{
    let k2 = k.update(k.len() - 1, k[k.len() - 1].insert(x, kind));
    lemma_innermost(k2, name, k2.len() - 1);
    if name != x {
        assert forall|j: int| 0 <= j <= k.len() - 1 implies (#[trigger] k[j].contains_key(name)) == k2[j].contains_key(name) by {}
        lemma_innermost_same(k, k2, name, k.len() - 1);
        let i = innermost(k, name, k.len() - 1);
        if i >= 0 {
            assert(k2[i][name] == k[i][name]);
            match k[i][name] {
                EntityKind::PrivateTypeConstructor(t) => {
                    if t@ != name {
                        lemma_ends_k_insert(k, x, kind, t@, (n - 1) as nat);
                    }
                },
                _ => {},
            }
        }
    } else {
        assert(k2[k2.len() - 1].contains_key(name));
    }
}

/// Recording a name that is no constructor in the innermost scope keeps
/// every chain ending.
pub proof fn lemma_chains_end_insert(u: Seq<Map<Seq<char>, (EntityKind, Span, bool)>>, x: Seq<char>, e: (EntityKind, Span, bool))
    requires
        u.len() > 0,
        !(e.0 is PrivateTypeConstructor),
        chains_end(u),
    ensures
        chains_end(u.update(u.len() - 1, u[u.len() - 1].insert(x, e))),
{
    let u2 = u.update(u.len() - 1, u[u.len() - 1].insert(x, e));
    let k = kinds_of(u);
    assert(kinds_of(u2) =~= k.update(k.len() - 1, k[k.len() - 1].insert(x, e.0))) by {
        assert forall|j: int| 0 <= j < u.len() implies #[trigger] kinds_of(u2)[j] =~= k.update(k.len() - 1, k[k.len() - 1].insert(x, e.0))[j] by {}
    }
    assert forall|name: Seq<char>| #[trigger] chain_ends(u2, name) by {
        assert(chain_ends(u, name));
        let n = choose|n: nat| mark_ends(u, name, n);
        lemma_mark_ends_kinds(u, name, n);
        lemma_ends_k_insert(k, x, e.0, name, n);
        lemma_mark_ends_kinds(u2, name, n);
    }
}

/// Two environments differ in their usage scopes at most.
pub open spec fn same_but_usages<'a>(a: Environment<'a>, b: Environment<'a>) -> bool {
    &&& a.accessors == b.accessors
    &&& a.current_module == b.current_module
    &&& a.id_gen == b.id_gen
    &&& a.importable_modules == b.importable_modules
    &&& a.imported_modules == b.imported_modules
    &&& a.imported_types == b.imported_types
    &&& a.module_types == b.module_types
    &&& a.module_types_constructors == b.module_types_constructors
    &&& a.module_values == b.module_values
    &&& a.previous_id == b.previous_id
    &&& a.scope == b.scope
    &&& a.ungeneralised_functions == b.ungeneralised_functions
    &&& a.unqualified_imported_names == b.unqualified_imported_names
    &&& a.unused_modules == b.unused_modules
    &&& a.warnings == b.warnings
    &&& a.vars == b.vars
}

impl<'a> Environment<'a> {
    /// The index of the innermost usage scope that records `name`.
    fn innermost_usage(&self, name: &str) -> (r: Option<usize>)
        ensures
            match r {
                Some(i) => i as int == innermost(usages(self.entity_usages@), name@, self.entity_usages@.len() - 1)
                    && i < self.entity_usages@.len(),
                None => innermost(usages(self.entity_usages@), name@, self.entity_usages@.len() - 1) < 0,
            },
    {
        let ghost u = usages(self.entity_usages@);
        let mut i: usize = self.entity_usages.len();
        while i > 0
            invariant
                i <= self.entity_usages@.len(),
                u == usages(self.entity_usages@),
                innermost(u, name@, self.entity_usages@.len() - 1) == innermost(u, name@, i - 1),
            decreases i,
        {
            if self.entity_usages[i - 1].contains_key(name) {
                return Some(i - 1);
            }
            i = i - 1;
        }
        None
    }

    fn mark_used(&mut self, name: String, Ghost(n): Ghost<nat>)
        requires
            mark_ends(usages(old(self).entity_usages@), name@, n),
        ensures
            usages(final(self).entity_usages@) == mark(usages(old(self).entity_usages@), name@, n),
            final(self).entity_usages@.len() == old(self).entity_usages@.len(),
            same_but_usages(*final(self), *old(self)),
        decreases n,
    {
        let ghost u = usages(self.entity_usages@);
        match self.innermost_usage(name.as_str()) {
            None => {},
            Some(i) => {
                proof {
                    lemma_innermost(u, name@, self.entity_usages@.len() - 1);
                    assert(u[i as int] == self.entity_usages@[i as int]@);
                }
                let entry = self.entity_usages[i].get(name.as_str()).unwrap();
                let kind = entry.0.clone();
                let location = entry.1;
                let mut scope = self.entity_usages.remove(i);
                scope.insert(name.clone(), (kind.clone(), location, true));
                self.entity_usages.insert(i, scope);
                proof {
                    let u2 = u.update(i as int, u[i as int].insert(name@, (kind, location, true)));
                    assert(usages(self.entity_usages@) =~= u2);
                }
                match kind {
                    EntityKind::PrivateTypeConstructor(t) => {
                        if !str_eq(t.as_str(), name.as_str()) {
                            proof {
                                assert(u[i as int][name@] == *entry);
                            }
                            self.mark_used(t, Ghost((n - 1) as nat));
                        }
                    },
                    _ => {},
                }
            },
        }
    }

    /// Marks `name` as used in the innermost usage scope that records it;
    /// when it is a constructor of a private type of another name, marks
    /// that type as used too, and so on along the chain.
    pub fn increment_usage(&mut self, name: &str)
        requires
            exists|n: nat| mark_ends(usages(old(self).entity_usages@), name@, n),
        ensures
            usages(final(self).entity_usages@) == mark(
                usages(old(self).entity_usages@),
                name@,
                choose|n: nat| mark_ends(usages(old(self).entity_usages@), name@, n),
            ),
            final(self).entity_usages@.len() == old(self).entity_usages@.len(),
            same_but_usages(*final(self), *old(self)),
    {
        let ghost n = choose|n: nat| mark_ends(usages(self.entity_usages@), name@, n);
        self.mark_used(owned(name), Ghost(n));
    }
}

} // verus!
