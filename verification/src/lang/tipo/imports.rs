use vstd::prelude::*;
use crate::lang::ast::{Span, UnqualifiedImport, Use};
use crate::lang::tipo::env::{unused_warning, warns_of, EntityKind, Environment};
use crate::lang::tipo::error::Error;
use crate::lang::tipo::{same_variant, TypeConstructor, TypeInfo, ValueConstructor, ValueConstructorVariant};
use crate::text::{push_char, push_str, texts};

verus! {

/// The name an unqualified import is known by.
pub open spec fn imported_name(u: UnqualifiedImport) -> Seq<char> {
    match u.as_name {
        Some(a) => a@,
        None => u.name@,
    }
}

/// The path of a module: its segments joined by slashes.
pub open spec fn joined_path(segments: Seq<String>) -> Seq<char>
    decreases segments.len(),
{
    if segments.len() == 0 {
        Seq::empty()
    } else if segments.len() == 1 {
        segments[0]@
    } else {
        joined_path(segments.drop_last()) + seq!['/'] + segments.last()@
    }
}

/// The name an imported module is known by: the name it is given, else the
/// last segment of its path.
pub open spec fn use_name(def: Use) -> Seq<char> {
    match def.as_name {
        Some(a) => a@,
        None => def.module@.last()@,
    }
}

/// The names `m` holds and those the imports take, each with where it is
/// imported.
pub open spec fn import_names(m: Map<Seq<char>, Span>, us: Seq<UnqualifiedImport>) -> Map<Seq<char>, Span>
    decreases us.len(),
{
    if us.len() == 0 {
        m
    } else {
        import_names(m, us.drop_last()).insert(imported_name(us.last()), us.last().location)
    }
}

/// The values the imports bring from the module, by the name each is
/// imported under.
pub open spec fn imported_values(info: TypeInfo, us: Seq<UnqualifiedImport>) -> Map<Seq<char>, ValueConstructor>
    decreases us.len(),
{
    if us.len() == 0 {
        Map::empty()
    } else {
        let u = us.last();
        let m = imported_values(info, us.drop_last());
        if info.values@.contains_key(u.name@) {
            m.insert(imported_name(u), info.values@[u.name@])
        } else {
            m
        }
    }
}

/// The types the imports bring from the module, by the name each is
/// imported under, with where it is imported.
pub open spec fn imported_type_constructors(info: TypeInfo, us: Seq<UnqualifiedImport>) -> Map<
    Seq<char>,
    (TypeConstructor, Span),
>
    decreases us.len(),
{
    if us.len() == 0 {
        Map::empty()
    } else {
        let u = us.last();
        let m = imported_type_constructors(info, us.drop_last());
        if info.types@.contains_key(u.name@) {
            m.insert(imported_name(u), (info.types@[u.name@], u.location))
        } else {
            m
        }
    }
}

/// The names in `m` and those of the imports that bring a type and no
/// value.
pub open spec fn type_only_imports(m: Map<Seq<char>, ()>, info: TypeInfo, us: Seq<UnqualifiedImport>) -> Map<
    Seq<char>,
    (),
>
    decreases us.len(),
{
    if us.len() == 0 {
        m
    } else {
        let u = us.last();
        let r = type_only_imports(m, info, us.drop_last());
        if info.types@.contains_key(u.name@) && !info.values@.contains_key(u.name@) {
            r.insert(imported_name(u), ())
        } else {
            r
        }
    }
}

/// How a usage scope records an import: a type and a constructor, a type,
/// a constructor, or another value.
pub open spec fn import_kind(info: TypeInfo, u: UnqualifiedImport) -> EntityKind {
    let has_value = info.values@.contains_key(u.name@);
    let has_type = info.types@.contains_key(u.name@);
    if has_value && has_type {
        EntityKind::ImportedTypeAndConstructor
    } else if has_type {
        EntityKind::ImportedType
    } else if info.values@[u.name@].variant is Record {
        EntityKind::ImportedConstructor
    } else {
        EntityKind::ImportedValue
    }
}

/// A usage scope with each import recorded as not used yet.
pub open spec fn import_usages(
    top: Map<Seq<char>, (EntityKind, Span, bool)>,
    info: TypeInfo,
    us: Seq<UnqualifiedImport>,
) -> Map<Seq<char>, (EntityKind, Span, bool)>
    decreases us.len(),
{
    if us.len() == 0 {
        top
    } else {
        import_usages(top, info, us.drop_last()).insert(
            imported_name(us.last()),
            (import_kind(info, us.last()), us.last().location, false),
        )
    }
}

/// The usage scope holds, under `n`, an entity that was never used and that
/// is warned of when a new entity of that name hides it.
pub open spec fn warns_when_hidden(top: Map<Seq<char>, (EntityKind, Span, bool)>, n: Seq<char>) -> bool {
    &&& top.contains_key(n)
    &&& !top[n].2
    &&& !(top[n].0 is ImportedType || top[n].0 is ImportedTypeAndConstructor || top[n].0 is PrivateType)
}

/// The names, in order, under which the imports hide an entity of the usage
/// scope that is warned of.
pub open spec fn hidden_imports(top: Map<Seq<char>, (EntityKind, Span, bool)>, us: Seq<UnqualifiedImport>) -> Seq<
    Seq<char>,
>
    decreases us.len(),
{
    if us.len() == 0 {
        Seq::empty()
    } else {
        let h = hidden_imports(top, us.drop_last());
        if warns_when_hidden(top, imported_name(us.last())) {
            h.push(imported_name(us.last()))
        } else {
            h
        }
    }
}

/// A type of the module's own, not of the prelude, is known under `n`.
pub open spec fn clashes(types: Map<Seq<char>, TypeConstructor>, n: Seq<char>) -> bool {
    types.contains_key(n) && types[n].module@.len() != 0
}

/// The import can follow the imports `before`: its name is not taken yet,
/// the module has a value or a type of its name, and a type it brings does
/// not redefine a type of the importing module.
pub open spec fn import_fits<'a>(
    e: Environment<'a>,
    info: TypeInfo,
    before: Seq<UnqualifiedImport>,
    u: UnqualifiedImport,
) -> bool {
    let n = imported_name(u);
    &&& !import_names(e.unqualified_imported_names@, before).contains_key(n)
    &&& info.values@.contains_key(u.name@) || info.types@.contains_key(u.name@)
    &&& !(info.types@.contains_key(u.name@) && clashes(e.module_types@, n))
}

/// Each import can follow the ones before it.
pub open spec fn imports_fit<'a>(e: Environment<'a>, info: TypeInfo, us: Seq<UnqualifiedImport>) -> bool {
    forall|i: int| 0 <= i < us.len() ==> #[trigger] import_fits(e, info, us.take(i), us[i])
}

/// The import at `f` is the first that cannot follow the ones before it.
pub open spec fn first_misfit<'a>(e: Environment<'a>, info: TypeInfo, us: Seq<UnqualifiedImport>, f: int) -> bool {
    &&& 0 <= f < us.len()
    &&& forall|i: int| 0 <= i < f ==> #[trigger] import_fits(e, info, us.take(i), us[i])
    &&& !import_fits(e, info, us.take(f), us[f])
}

/// The error an import that cannot follow the imports `before` is refused
/// with: its name is taken, its type redefines one of the module, or the
/// module has nothing of its name.
pub open spec fn import_refusal<'a>(
    e: Environment<'a>,
    info: TypeInfo,
    before: Seq<UnqualifiedImport>,
    u: UnqualifiedImport,
    module: Seq<String>,
    err: Error,
) -> bool {
    let n = imported_name(u);
    let names = import_names(e.unqualified_imported_names@, before);
    if names.contains_key(n) {
        err matches Error::DuplicateImport { location, previous_location, name, module: m } && location
            == u.location && previous_location == names[n] && name@ == u.name@ && m@ == module
    } else if info.types@.contains_key(u.name@) && clashes(e.module_types@, n) {
        err matches Error::DuplicateTypeName { name, location, previous_location } && name@ == n && location
            == u.location && previous_location == e.module_types@[n].location
    } else {
        err matches Error::UnknownModuleField {
            location,
            name,
            module_name,
            value_constructors,
            type_constructors,
        } && location == u.location && name@ == u.name@ && module_name@ == joined_path(module) && texts(
            value_constructors@,
        ) == info.values.key_seq() && texts(type_constructors@) == info.types.key_seq()
    }
}

/// `w` is the private copy of an imported value.
pub open spec fn imported_value(v: ValueConstructor, w: ValueConstructor) -> bool {
    &&& !w.public
    &&& w.tipo == v.tipo
    &&& same_variant(v.variant, w.variant)
}

/// `w` is a copy of a type constructor, located where it is imported.
pub open spec fn located_copy(t: TypeConstructor, w: TypeConstructor, location: Span) -> bool {
    &&& w.location == location
    &&& w.public == t.public
    &&& w.module == t.module
    &&& w.parameters@ == t.parameters@
    &&& w.tipo == t.tipo
}

/// Two environments differ at most in what imports change.
pub open spec fn same_but_imports<'a>(a: Environment<'a>, b: Environment<'a>) -> bool {
    &&& a.accessors == b.accessors
    &&& a.current_module == b.current_module
    &&& a.id_gen == b.id_gen
    &&& a.importable_modules == b.importable_modules
    &&& a.module_types_constructors == b.module_types_constructors
    &&& a.module_values == b.module_values
    &&& a.previous_id == b.previous_id
    &&& a.ungeneralised_functions == b.ungeneralised_functions
    &&& a.vars == b.vars
}

/// `b` is `a` after the unqualified imports `us` of the module `info`: the
/// values are in scope, the types known, the names recorded as unused, and
/// each entity they hide and that was never used warned of.
pub open spec fn imports_applied<'a>(a: Environment<'a>, b: Environment<'a>, info: TypeInfo, us: Seq<UnqualifiedImport>) -> bool {
    let values = imported_values(info, us);
    let types = imported_type_constructors(info, us);
    let top = a.entity_usages@.last()@;
    &&& b.scope@.dom() == a.scope@.dom().union(values.dom())
    &&& forall|k: Seq<char>| values.contains_key(k) ==> imported_value(values[k], #[trigger] b.scope@[k])
    &&& forall|k: Seq<char>| !values.contains_key(k) && a.scope@.contains_key(k) ==> #[trigger] b.scope@[k] == a.scope@[k]
    &&& b.module_types@.dom() == a.module_types@.dom().union(types.dom())
    &&& forall|k: Seq<char>| types.contains_key(k) ==> located_copy(types[k].0, #[trigger] b.module_types@[k], types[k].1)
    &&& forall|k: Seq<char>| !types.contains_key(k) && a.module_types@.contains_key(k) ==> #[trigger] b.module_types@[k]
        == a.module_types@[k]
    &&& b.imported_types@ == type_only_imports(a.imported_types@, info, us)
    &&& b.entity_usages@.len() == a.entity_usages@.len()
    &&& b.entity_usages@.drop_last() == a.entity_usages@.drop_last()
    &&& b.entity_usages@.last()@ == import_usages(top, info, us)
    &&& b.warnings@.len() >= a.warnings@.len()
    &&& b.warnings@.take(a.warnings@.len() as int) == a.warnings@
    &&& warns_of(b.warnings@.skip(a.warnings@.len() as int), hidden_imports(top, us), top)
    &&& same_but_imports(b, a)
}

/// One import, as a step of [`imports_applied`].
pub open spec fn import_step<'a>(a: Environment<'a>, b: Environment<'a>, info: TypeInfo, u: UnqualifiedImport) -> bool {
    let n = imported_name(u);
    let has_value = info.values@.contains_key(u.name@);
    let has_type = info.types@.contains_key(u.name@);
    let top = a.entity_usages@.last()@;
    &&& b.unqualified_imported_names@ == a.unqualified_imported_names@.insert(n, u.location)
    &&& has_value ==> b.scope@ == a.scope@.insert(n, b.scope@[n]) && imported_value(info.values@[u.name@], b.scope@[n])
    &&& !has_value ==> b.scope@ == a.scope@
    &&& has_type ==> b.module_types@ == a.module_types@.insert(n, b.module_types@[n]) && located_copy(
        info.types@[u.name@],
        b.module_types@[n],
        u.location,
    )
    &&& !has_type ==> b.module_types@ == a.module_types@
    &&& b.imported_types@ == (if has_type && !has_value {
        a.imported_types@.insert(n, ())
    } else {
        a.imported_types@
    })
    &&& b.entity_usages@.len() == a.entity_usages@.len()
    &&& b.entity_usages@.drop_last() == a.entity_usages@.drop_last()
    &&& b.entity_usages@.last()@ == top.insert(n, (import_kind(info, u), u.location, false))
    &&& if warns_when_hidden(top, n) {
        &&& b.warnings@.len() == a.warnings@.len() + 1
        &&& b.warnings@.drop_last() == a.warnings@
        &&& unused_warning(n, top[n].0, top[n].1, b.warnings@.last())
    } else {
        b.warnings@ == a.warnings@
    }
    &&& same_but_imports(b, a)
    &&& b.imported_modules == a.imported_modules
    &&& b.unused_modules == a.unused_modules
}

/// The segments of a module's path joined by slashes.
fn join_path(segments: &Vec<String>) -> (r: String)
    ensures
        r@ == joined_path(segments@),
{
    let mut out = String::new();
    let mut i: usize = 0;
    proof {
        assert(out@ =~= joined_path(segments@.take(0)));
    }
    while i < segments.len()
        invariant
            i <= segments@.len(),
            out@ == joined_path(segments@.take(i as int)),
        decreases segments@.len() - i,
    {
        let ghost before = out@;
        if i > 0 {
            push_char(&mut out, '/');
        }
        push_str(&mut out, segments[i].as_str());
        proof {
            let t = segments@.take(i + 1);
            assert(t.drop_last() =~= segments@.take(i as int));
            assert(t.last() == segments@[i as int]);
            if i == 0 {
                assert(out@ =~= t[0]@);
            } else {
                assert(out@ =~= before + seq!['/'] + t.last()@);
            }
        }
        i = i + 1;
    }
    proof {
        assert(segments@.take(segments@.len() as int) =~= segments@);
    }
    out
}

/// A copy of a list of strings.
fn copy_strings(v: &Vec<String>) -> (r: Vec<String>)
    ensures
        r@ == v@,
{
    let mut r: Vec<String> = Vec::new();
    let mut i: usize = 0;
    while i < v.len()
        invariant
            i <= v@.len(),
            r@ == v@.take(i as int),
        decreases v@.len() - i,
    {
        r.push(v[i].clone());
        proof {
            assert(v@.take(i + 1) =~= v@.take(i as int).push(v@[i as int]));
        }
        i = i + 1;
    }
    proof {
        assert(v@.take(v@.len() as int) =~= v@);
    }
    r
}

/// Outside the names the imports take, they bring no value and no type and
/// leave the usage scope as it was.
proof fn lemma_outside_names(
    m: Map<Seq<char>, Span>,
    info: TypeInfo,
    top: Map<Seq<char>, (EntityKind, Span, bool)>,
    us: Seq<UnqualifiedImport>,
    k: Seq<char>,
)
    requires
        !import_names(m, us).contains_key(k),
    ensures
        !m.contains_key(k),
        !imported_values(info, us).contains_key(k),
        !imported_type_constructors(info, us).contains_key(k),
        import_usages(top, info, us).contains_key(k) == top.contains_key(k),
        import_usages(top, info, us)[k] == top[k],
    decreases us.len(),
{
    if us.len() > 0 {
        lemma_outside_names(m, info, top, us.drop_last(), k);
    }
}

/// The imports of a prefix one longer, unfolded.
proof fn lemma_take_step(us: Seq<UnqualifiedImport>, i: int)
    requires
        0 <= i < us.len(),
    ensures
        us.take(i + 1).drop_last() == us.take(i),
        us.take(i + 1).last() == us[i],
        us.take(i + 1).len() == i + 1,
{
    assert(us.take(i + 1).drop_last() =~= us.take(i));
}

/// Whether an import fits, and how it is refused, read in the environment
/// reached after the imports before it, is as read in the first one.
proof fn lemma_fits_here<'a>(
    e0: Environment<'a>,
    ei: Environment<'a>,
    info: TypeInfo,
    us: Seq<UnqualifiedImport>,
    i: int,
    module: Seq<String>,
    err: Error,
)
    requires
        0 <= i < us.len(),
        imports_applied(e0, ei, info, us.take(i)),
        ei.unqualified_imported_names@ == import_names(e0.unqualified_imported_names@, us.take(i)),
    ensures
        import_fits(ei, info, Seq::empty(), us[i]) == import_fits(e0, info, us.take(i), us[i]),
        import_refusal(ei, info, Seq::empty(), us[i], module, err) ==> import_refusal(e0, info, us.take(i), us[i], module, err),
{
    let n = imported_name(us[i]);
    let names = import_names(e0.unqualified_imported_names@, us.take(i));
    assert(import_names(ei.unqualified_imported_names@, Seq::<UnqualifiedImport>::empty()) == names);
    if !names.contains_key(n) {
        lemma_outside_names(e0.unqualified_imported_names@, info, e0.entity_usages@.last()@, us.take(i), n);
        assert(ei.module_types@.contains_key(n) == e0.module_types@.contains_key(n));
        if e0.module_types@.contains_key(n) {
            assert(ei.module_types@[n] == e0.module_types@[n]);
        }
    }
}

/// The list of warnings grows by one warning of a hidden entity.
proof fn lemma_warns_push(
    ws: Seq<crate::lang::tipo::error::Warning>,
    names: Seq<Seq<char>>,
    top: Map<Seq<char>, (EntityKind, Span, bool)>,
    w: crate::lang::tipo::error::Warning,
    n: Seq<char>,
)
    requires
        warns_of(ws, names, top),
        unused_warning(n, top[n].0, top[n].1, w),
    ensures
        warns_of(ws.push(w), names.push(n), top),
{
    let ws2 = ws.push(w);
    let ns2 = names.push(n);
    assert forall|j: int| 0 <= j < ws2.len() implies unused_warning(
        ns2[j],
        top[ns2[j]].0,
        top[ns2[j]].1,
        #[trigger] ws2[j],
    ) by {
        if j < ws.len() {
            assert(ws2[j] == ws[j]);
            assert(ns2[j] == names[j]);
        }
    }
}

/// An import that fits, made in the environment reached after the imports
/// before it, extends what those imports did by one.
proof fn lemma_import_step<'a>(
    e0: Environment<'a>,
    ei: Environment<'a>,
    ej: Environment<'a>,
    info: TypeInfo,
    us: Seq<UnqualifiedImport>,
    i: int,
)
    requires
        0 <= i < us.len(),
        e0.entity_usages@.len() > 0,
        imports_applied(e0, ei, info, us.take(i)),
        ei.unqualified_imported_names@ == import_names(e0.unqualified_imported_names@, us.take(i)),
        import_fits(e0, info, us.take(i), us[i]),
        import_step(ei, ej, info, us[i]),
    ensures
        imports_applied(e0, ej, info, us.take(i + 1)),
        ej.unqualified_imported_names@ == import_names(e0.unqualified_imported_names@, us.take(i + 1)),
{
    let u = us[i];
    let n = imported_name(u);
    let p = us.take(i);
    let q = us.take(i + 1);
    let top = e0.entity_usages@.last()@;
    lemma_take_step(us, i);
    lemma_outside_names(e0.unqualified_imported_names@, info, top, p, n);
    let vp = imported_values(info, p);
    let vq = imported_values(info, q);
    let tp = imported_type_constructors(info, p);
    let tq = imported_type_constructors(info, q);
    assert(ei.entity_usages@.last()@ == import_usages(top, info, p)) by {
        assert(ei.entity_usages@.len() == e0.entity_usages@.len());
    }
    assert(ei.entity_usages@.last() == ei.entity_usages@[ei.entity_usages@.len() - 1]);
    assert(ej.entity_usages@ =~= ej.entity_usages@.drop_last().push(ej.entity_usages@.last()));
    assert(ej.entity_usages@.drop_last() == e0.entity_usages@.drop_last());
    // the scope
    assert forall|k: Seq<char>| vq.contains_key(k) implies imported_value(vq[k], #[trigger] ej.scope@[k]) by {
        if k != n {
            assert(vp.contains_key(k));
        }
    }
    assert forall|k: Seq<char>| !vq.contains_key(k) && e0.scope@.contains_key(k) implies #[trigger] ej.scope@[k]
        == e0.scope@[k] by {
        assert(!vp.contains_key(k));
    }
    assert(ej.scope@.dom() =~= e0.scope@.dom().union(vq.dom()));
    // the types
    assert forall|k: Seq<char>| tq.contains_key(k) implies located_copy(tq[k].0, #[trigger] ej.module_types@[k], tq[k].1) by {
        if k != n {
            assert(tp.contains_key(k));
        }
    }
    assert forall|k: Seq<char>| !tq.contains_key(k) && e0.module_types@.contains_key(k) implies #[trigger] ej.module_types@[k]
        == e0.module_types@[k] by {
        assert(!tp.contains_key(k));
    }
    assert(ej.module_types@.dom() =~= e0.module_types@.dom().union(tq.dom()));
    // the warnings
    let w0 = e0.warnings@.len() as int;
    let topi = ei.entity_usages@.last()@;
    assert(topi.contains_key(n) == top.contains_key(n));
    if warns_when_hidden(topi, n) {
        assert(topi[n] == top[n]);
        assert(ej.warnings@.skip(w0) =~= ei.warnings@.skip(w0).push(ej.warnings@.last()));
        lemma_warns_push(ei.warnings@.skip(w0), hidden_imports(top, p), top, ej.warnings@.last(), n);
        assert(ej.warnings@.take(w0) =~= ei.warnings@.take(w0));
    } else {
        if top.contains_key(n) {
            assert(topi[n] == top[n]);
        }
    }
}

impl<'a> Environment<'a> {
    /// Imports one name of a module unqualified: its value comes in scope,
    /// its type is known, and the name is recorded as not used yet.
    fn import_unqualified(&mut self, info: &'a TypeInfo, u: &UnqualifiedImport, module: &Vec<String>) -> (r: Result<
        (),
        Error,
    >)
        requires
            old(self).entity_usages@.len() > 0,
        ensures
            same_but_imports(*final(self), *old(self)),
            final(self).imported_modules == old(self).imported_modules,
            final(self).unused_modules == old(self).unused_modules,
            import_fits(*old(self), *info, Seq::empty(), *u) ==> r is Ok && import_step(*old(self), *final(self), *info, *u),
            !import_fits(*old(self), *info, Seq::empty(), *u) ==> (r matches Err(e) && import_refusal(
                *old(self),
                *info,
                Seq::empty(),
                *u,
                module@,
                e,
            )),
    {
        let imported: &String = match &u.as_name {
            Some(a) => a,
            None => &u.name,
        };
        let ghost n = imported_name(*u);
        assert(imported@ == n);
        assert(import_names(old(self).unqualified_imported_names@, Seq::<UnqualifiedImport>::empty())
            == old(self).unqualified_imported_names@);
        match self.unqualified_imported_names.get(imported.as_str()) {
            Some(previous) => {
                return Err(
                    Error::DuplicateImport {
                        location: u.location,
                        previous_location: *previous,
                        name: u.name.clone(),
                        module: copy_strings(module),
                    },
                );
            },
            None => {},
        }
        self.unqualified_imported_names.insert(imported.clone(), u.location);
        let mut value_imported = false;
        let mut is_record = false;
        match info.values.get(u.name.as_str()) {
            Some(value) => {
                self.insert_variable(imported.clone(), value.variant.clone(), value.tipo.clone());
                is_record = match &value.variant {
                    ValueConstructorVariant::Record { .. } => true,
                    _ => false,
                };
                value_imported = true;
            },
            None => {},
        }
        let mut type_imported = false;
        match info.types.get(u.name.as_str()) {
            Some(typ) => {
                let c = typ.clone();
                let typ_info = TypeConstructor {
                    public: c.public,
                    location: u.location,
                    module: c.module,
                    parameters: c.parameters,
                    tipo: c.tipo,
                };
                match self.insert_type_constructor(imported.clone(), typ_info) {
                    Ok(()) => {},
                    Err(e) => {
                        return Err(e);
                    },
                }
                type_imported = true;
            },
            None => {},
        }
        if value_imported && type_imported {
            self.init_usage(imported.clone(), EntityKind::ImportedTypeAndConstructor, u.location);
        } else if type_imported {
            self.imported_types.insert(imported.clone(), ());
            self.init_usage(imported.clone(), EntityKind::ImportedType, u.location);
        } else if value_imported {
            if is_record {
                self.init_usage(imported.clone(), EntityKind::ImportedConstructor, u.location);
            } else {
                self.init_usage(imported.clone(), EntityKind::ImportedValue, u.location);
            }
        } else {
            let value_constructors = info.values.keys();
            let type_constructors = info.types.keys();
            proof {
                assert(texts(value_constructors@) =~= info.values.key_seq());
                assert(texts(type_constructors@) =~= info.types.key_seq());
            }
            return Err(
                Error::UnknownModuleField {
                    location: u.location,
                    name: u.name.clone(),
                    module_name: join_path(module),
                    value_constructors,
                    type_constructors,
                },
            );
        }
        Ok(())
    }

    /// Registers an import of a module: the module is known by its name,
    /// and each name imported unqualified is brought in. A module that is
    /// not importable, a validator, a name taken twice, a name the module
    /// does not have, a type that redefines one of the module's own, and a
    /// module imported twice are refused.
    pub fn register_import(&mut self, def: &Use) -> (r: Result<(), Error>)
        requires
            old(self).entity_usages@.len() > 0,
            def.as_name is None && def.module@.len() == 0 ==> !(old(self).importable_modules@.contains_key(
                joined_path(def.module@),
            ) && !(old(self).importable_modules@[joined_path(def.module@)].kind is Validator)),
        ensures
            ({
                let path = joined_path(def.module@);
                let importable = old(self).importable_modules@;
                if !importable.contains_key(path) {
                    &&& *final(self) == *old(self)
                    &&& r matches Err(Error::UnknownModule { location, name, imported_modules })
                    &&& location == def.location && name@ == path
                    &&& texts(imported_modules@) == old(self).imported_modules.key_seq()
                } else if importable[path].kind is Validator {
                    &&& *final(self) == *old(self)
                    &&& r matches Err(Error::ValidatorImported { location, name })
                    &&& location == def.location && name@ == path
                } else {
                    let info = importable[path];
                    let us = def.unqualified@;
                    let m = use_name(*def);
                    if !imports_fit(*old(self), info, us) {
                        &&& exists|f: int| first_misfit(*old(self), info, us, f) && (r matches Err(e) && import_refusal(
                            *old(self),
                            info,
                            us.take(f),
                            us[f],
                            def.module@,
                            e,
                        ))
                        &&& same_but_imports(*final(self), *old(self))
                        &&& final(self).imported_modules == old(self).imported_modules
                        &&& final(self).unused_modules == old(self).unused_modules
                    } else {
                        &&& imports_applied(*old(self), *final(self), info, us)
                        &&& final(self).unused_modules@ == (if us.len() == 0 {
                            old(self).unused_modules@.insert(m, def.location)
                        } else {
                            old(self).unused_modules@
                        })
                        &&& if old(self).imported_modules@.contains_key(m) {
                            &&& r matches Err(Error::DuplicateImport { location, previous_location, name, module })
                            &&& location == def.location && previous_location == old(self).imported_modules@[m].0
                            &&& name@ == m && module@ == def.module@
                            &&& final(self).unqualified_imported_names@ == import_names(
                                old(self).unqualified_imported_names@,
                                us,
                            )
                            &&& final(self).imported_modules == old(self).imported_modules
                        } else {
                            &&& r is Ok
                            &&& final(self).unqualified_imported_names@ == import_names(
                                old(self).unqualified_imported_names@,
                                us,
                            ).insert(m, def.location)
                            &&& final(self).imported_modules@ == old(self).imported_modules@.insert(
                                m,
                                final(self).imported_modules@[m],
                            )
                            &&& final(self).imported_modules@[m].0 == def.location
                            &&& *final(self).imported_modules@[m].1 == info
                        }
                    }
                }
            }),
    {
        let name = join_path(&def.module);
        let importable: &'a crate::lang::name_map::NameMap<TypeInfo> = self.importable_modules;
        let info: &'a TypeInfo = match importable.get(name.as_str()) {
            Some(i) => i,
            None => {
                let imported_modules = self.imported_modules.keys();
                proof {
                    assert(texts(imported_modules@) =~= self.imported_modules.key_seq());
                }
                return Err(Error::UnknownModule { location: def.location, name, imported_modules });
            },
        };
        if info.kind.is_validator() {
            return Err(Error::ValidatorImported { location: def.location, name });
        }
        let module_name: String = match &def.as_name {
            Some(a) => a.clone(),
            None => def.module[def.module.len() - 1].clone(),
        };
        assert(module_name@ == use_name(*def));
        let ghost e0 = *self;
        let ghost us = def.unqualified@;
        let n = def.unqualified.len();
        let mut i: usize = 0;
        proof {
            assert(us.take(0) =~= Seq::<UnqualifiedImport>::empty());
            assert(self.scope@.dom() =~= e0.scope@.dom().union(imported_values(*info, us.take(0)).dom()));
            assert(self.module_types@.dom() =~= e0.module_types@.dom().union(
                imported_type_constructors(*info, us.take(0)).dom(),
            ));
            assert(self.warnings@.take(e0.warnings@.len() as int) =~= e0.warnings@);
            assert(self.warnings@.skip(e0.warnings@.len() as int) =~= Seq::<crate::lang::tipo::error::Warning>::empty());
        }
        while i < n
            invariant
                n == us.len(),
                us == def.unqualified@,
                e0 == *old(self),
                e0.importable_modules@.contains_key(joined_path(def.module@)),
                !(info.kind is Validator),
                i <= n,
                *info == e0.importable_modules@[joined_path(def.module@)],
                e0.entity_usages@.len() > 0,
                forall|j: int| 0 <= j < i ==> #[trigger] import_fits(e0, *info, us.take(j), us[j]),
                imports_applied(e0, *self, *info, us.take(i as int)),
                self.unqualified_imported_names@ == import_names(e0.unqualified_imported_names@, us.take(i as int)),
                self.imported_modules == e0.imported_modules,
                self.unused_modules == e0.unused_modules,
                self.entity_usages@.len() == e0.entity_usages@.len(),
            decreases n - i,
        {
            let ghost ei = *self;
            let res = self.import_unqualified(info, &def.unqualified[i], &def.module);
            match res {
                Ok(()) => {
                    proof {
                        lemma_fits_here(e0, ei, *info, us, i as int, def.module@, Error::RecursiveType { location: def.location });
                        lemma_import_step(e0, ei, *self, *info, us, i as int);
                    }
                },
                Err(e) => {
                    proof {
                        lemma_fits_here(e0, ei, *info, us, i as int, def.module@, e);
                        assert(first_misfit(e0, *info, us, i as int));
                    }
                    return Err(e);
                },
            }
            i = i + 1;
        }
        proof {
            assert(us.take(n as int) =~= us);
        }
        if n == 0 {
            self.unused_modules.insert(module_name.clone(), def.location);
        }
        match self.imported_modules.get(module_name.as_str()) {
            Some(previous) => {
                return Err(
                    Error::DuplicateImport {
                        location: def.location,
                        previous_location: previous.0,
                        name: module_name,
                        module: copy_strings(&def.module),
                    },
                );
            },
            None => {},
        }
        self.unqualified_imported_names.insert(module_name.clone(), def.location);
        self.imported_modules.insert(module_name, (def.location, info));
        Ok(())
    }
}

} // verus!
