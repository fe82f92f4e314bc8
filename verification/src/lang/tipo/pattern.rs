use vstd::prelude::*;
use std::collections::HashMap;
use std::sync::Arc;
use crate::lang::ast::{CallArg, Pattern, Span};
use crate::lang::builtins::{int_type, list, tuple};
use crate::lang::name_map::NameMap;
use crate::lang::tipo::env::{EntityKind, Environment};
use crate::lang::tipo::error::{not_missing, Error};
use crate::lang::tipo::hydrator::Hydrator;
use crate::lang::tipo::instantiate::{inst, ids_view};
use crate::lang::tipo::pretty::inner;
use crate::lang::tipo::resolve::{res, res_list, refines, agree, lemma_refines_refl, lemma_refines_trans, lemma_mat_refines};
use crate::lang::tipo::unify::{
    TypeV, VarV, VarStore, free_vars, free_vars_list, mat, mat_type, msize, store_closed, tview, type_size, type_view, types_view,
    var_view, same_but_typing, lemma_mat_closed, lemma_mat_noop, lemma_type_view_shape, lemma_types_view,
    binds_unbound, lemma_res_unbound_strip, fails_plainly, no_free_vars,
};
use crate::lang::tipo::usage::{chains_end, chain_ends, usages};
use crate::lang::tipo::{PatternConstructor, Type, TypeVar, ValueConstructor, ValueConstructorVariant, clone_types};
use crate::text::{owned, str_eq, texts};

verus! {

/// The value of a named type applied to arguments.
pub open spec fn app_view(public: bool, module: Seq<char>, name: Seq<char>, args: Seq<Arc<Type>>) -> TypeV {
    TypeV::App { public, module, name, args: types_view(args) }
}

/// The first argument of a list that has a label, with its label.
pub(crate) fn assert_no_labeled_arguments<A>(args: &[CallArg<A>]) -> (r: Option<(Span, String)>)
    ensures
        match r {
            None => forall|i: int| 0 <= i < args@.len() ==> (#[trigger] args@[i]).label is None,
            Some(p) => exists|i: int|
                {
                    &&& 0 <= i < args@.len()
                    &&& (#[trigger] args@[i]).label == Some(p.1)
                    &&& args@[i].location == p.0
                    &&& forall|j: int| 0 <= j < i ==> (#[trigger] args@[j]).label is None
                },
        },
{
    let mut i: usize = 0;
    while i < args.len()
        invariant
            i <= args@.len(),
            forall|j: int| 0 <= j < i ==> (#[trigger] args@[j]).label is None,
        decreases args@.len() - i,
    {
        match &args[i].label {
            Some(label) => {
                return Some((args[i].location, label.clone()));
            },
            None => {},
        }
        i = i + 1;
    }
    None
}

/// The type a linked variable is linked to; any other type as it is.
pub open spec fn collapse1(v: TypeV) -> TypeV {
    match v {
        TypeV::Var(VarV::Link(b)) => *b,
        _ => v,
    }
}

/// A type as the store shows it, with the link of a linked variable
/// followed once.
fn collapse_links(vars: &VarStore, t: &Type) -> (r: Arc<Type>)
    requires
        store_closed(vars@),
    ensures
        tview(r) == collapse1(mat(vars@, type_view(*t))),
        res(tview(r)) == res(mat(vars@, type_view(*t))),
        mat(vars@, tview(r)) == tview(r),
{
    let m = mat_type(vars, t);
    proof {
        lemma_mat_closed(vars@, type_view(*t));
        lemma_type_view_shape(inner(m));
    }
    let link = match &*m {
        Type::Var { tipo: TypeVar::Link { tipo: inner_t } } => {
            proof {
                assert(var_view(TypeVar::Link { tipo: *inner_t }) == VarV::Link(Box::new(type_view(**inner_t))));
                assert(tview(m) == TypeV::Var(VarV::Link(Box::new(tview(*inner_t)))));
            }
            Some(inner_t.clone())
        },
        _ => None,
    };
    match link {
        Some(r) => {
            proof {
                lemma_mat_noop(vars@, tview(r));
            }
            r
        },
        None => {
            proof {
                lemma_mat_noop(vars@, tview(m));
            }
            m
        },
    }
}

impl<'a> Environment<'a> {
    /// The arguments of a type used as the named type `module.name` of
    /// `arity` arguments. An unbound variable becomes that type applied to
    /// fresh unbound variables; another named type, or a type of another
    /// kind, has none.
    pub(crate) fn get_app_args(&mut self, tipo: Arc<Type>, public: bool, module: &str, name: &str, arity: usize) -> (r:
        Option<Vec<Arc<Type>>>)
        requires
            store_closed(old(self).vars@),
        ensures
            store_closed(final(self).vars@),
            refines(old(self).vars@, final(self).vars@),
            same_but_typing(*final(self), *old(self)),
            r matches Some(a) ==> a@.len() == arity && res(mat(final(self).vars@, app_view(public, module@, name@, a@)))
                == res(mat(final(self).vars@, tview(tipo))),
            match res(mat(old(self).vars@, tview(tipo))) {
                TypeV::App { module: m, name: n, args, .. } => {
                    &&& final(self).vars@ == old(self).vars@
                    &&& (r is Some <==> (m == module@ && n == name@ && args.len() == arity))
                },
                TypeV::Var(VarV::Unbound(_)) => true,
                _ => r is None && final(self).vars@ == old(self).vars@,
            },
        decreases msize(old(self).vars@, tipo),
    {
        let ghost s0 = self.vars@;
        let m = mat_type(&self.vars, &*tipo);
        proof {
            lemma_mat_closed(s0, tview(tipo));
            lemma_type_view_shape(inner(m));
            lemma_refines_refl(s0);
        }
        match &*m {
            Type::Var { tipo: TypeVar::Link { tipo: inner_t } } => {
                proof {
                    assert(var_view(TypeVar::Link { tipo: *inner_t }) == VarV::Link(Box::new(type_view(**inner_t))));
                    assert(type_view(*m) == TypeV::Var(VarV::Link(Box::new(type_view(**inner_t)))));
                    lemma_mat_noop(s0, tview(*inner_t));
                }
                let out = self.get_app_args(inner_t.clone(), public, module, name, arity);
                proof {
                    let sf = self.vars@;
                    lemma_mat_refines(s0, sf, tview(tipo));
                    assert(mat(sf, type_view(*m)) == TypeV::Var(VarV::Link(Box::new(mat(sf, tview(*inner_t))))));
                }
                out
            },
            Type::Var { tipo: TypeVar::Unbound { .. } } => {
                let ghost e0 = *self;
                let mut args: Vec<Arc<Type>> = Vec::new();
                let mut i: usize = 0;
                while i < arity
                    invariant
                        i <= arity,
                        args@.len() == i,
                        crate::lang::tipo::env::same_but_ids(*self, e0),
                    decreases arity - i,
                {
                    let v = self.new_unbound_var();
                    args.push(v);
                    i = i + 1;
                }
                let app = Arc::new(
                    Type::App { public, module: owned(module), name: owned(name), args: clone_types(&args) },
                );
                match self.unify(tipo, app, Span::empty(), false) {
                    Ok(()) => {
                        proof {
                            assert(tview(app) == app_view(public, module@, name@, args@));
                        }
                        Some(args)
                    },
                    Err(_) => None,
                }
            },
            Type::App { module: m2, name: n2, args, .. } => {
                proof {
                    lemma_types_view(args@);
                    crate::lang::tipo::resolve::lemma_res_list_index(types_view(args@));
                }
                if str_eq(m2.as_str(), module) && str_eq(n2.as_str(), name) && args.len() == arity {
                    let a = clone_types(args);
                    proof {
                        lemma_mat_noop(s0, app_view(public, module@, name@, a@));
                        assert(type_view(*m) == app_view(type_view(*m)->App_public, module@, name@, a@));
                    }
                    Some(a)
                } else {
                    None
                }
            },
            _ => None,
        }
    }
}

/// What typing a pattern needs of its environment: a usage scope to record
/// variables in, usage chains that end, and a closed store.
pub open spec fn typer_env_ok<'b>(e: Environment<'b>) -> bool {
    &&& e.entity_usages@.len() > 0
    &&& chains_end(usages(e.entity_usages@))
    &&& store_closed(e.vars@)
}

/// Two environments differ at most in what typing a pattern changes: the
/// values in scope, the usages, the warnings, the type variables and the
/// modules not used yet.
pub open spec fn same_but_bindings<'b>(a: Environment<'b>, b: Environment<'b>) -> bool {
    &&& a.accessors == b.accessors
    &&& a.current_module == b.current_module
    &&& a.id_gen == b.id_gen
    &&& a.importable_modules == b.importable_modules
    &&& a.imported_modules == b.imported_modules
    &&& a.imported_types == b.imported_types
    &&& a.module_types == b.module_types
    &&& a.module_types_constructors == b.module_types_constructors
    &&& a.module_values == b.module_values
    &&& a.ungeneralised_functions == b.ungeneralised_functions
    &&& a.unqualified_imported_names == b.unqualified_imported_names
}

/// The value a constructor pattern of the given module and name refers to.
pub open spec fn lookup<'b>(e: Environment<'b>, module: Option<String>, name: Seq<char>) -> Option<ValueConstructor> {
    match module {
        None => if e.scope@.contains_key(name) {
            Some(e.scope@[name])
        } else {
            None
        },
        Some(m) => if e.imported_modules@.contains_key(m@) && e.imported_modules@[m@].1.values@.contains_key(name) {
            Some(e.imported_modules@[m@].1.values@[name])
        } else {
            None
        },
    }
}

/// A value a constructor pattern can refer to: a record constructor with a
/// well-formed field map, whose type is a function or a named type.
pub open spec fn record_ok(v: ValueConstructor) -> bool {
    &&& v.variant matches ValueConstructorVariant::Record { field_map, .. }
    &&& (field_map matches Some(f) ==> f.wf())
    &&& (res(tview(v.tipo)) is Fn || res(tview(v.tipo)) is App)
}

/// The pattern binds the name `k`.
pub open spec fn binds(p: Pattern<(), ()>, k: Seq<char>) -> bool
    decreases p,
{
    match p {
        Pattern::Var { name, .. } => name@ == k,
        Pattern::Assign { name, pattern, .. } => name@ == k || binds(*pattern, k),
        Pattern::List { elements, tail, .. } => (exists|i: int| 0 <= i < elements@.len() && binds(elements@[i], k)) || (
        tail matches Some(t) && binds(*t, k)),
        Pattern::Tuple { elems, .. } => exists|i: int| 0 <= i < elems@.len() && binds(elems@[i], k),
        Pattern::Constructor { arguments, .. } => exists|i: int|
            0 <= i < arguments@.len() && binds(arguments@[i].value, k),
        _ => false,
    }
}

/// A pattern that types against `t`, as the store `s` shows it, without
/// failing and without binding a type variable: a discard, an integer
/// against `Int`, a tuple of such patterns against a tuple type of the same
/// arity, or a list of discards and integers, with a discard or no tail,
/// against a list type whose items fit them.
pub open spec fn fits(s: Map<u64, VarV>, p: Pattern<(), ()>, t: TypeV) -> bool
    decreases p,
{
    match p {
        Pattern::Discard { .. } => true,
        Pattern::Int { .. } => res(mat(s, t)) == int_res(),
        Pattern::Tuple { elems, .. } => collapse1(mat(s, t)) matches TypeV::Tuple(ts) && ts.len() == elems@.len() && forall|i: int|
            0 <= i < elems@.len() ==> fits(s, #[trigger] elems@[i], ts[i]),
        Pattern::List { elements, tail, .. } => res(mat(s, t)) matches TypeV::App { module, name, args, .. } && module
            == Seq::<char>::empty() && name == "List"@ && args.len() == 1 && (forall|i: int|
            0 <= i < elements@.len() ==> (#[trigger] elements@[i] is Discard || (elements@[i] is Int && args[0] == int_res())))
            && (tail matches Some(tp) ==> *tp is Discard),
        _ => false,
    }
}

/// The pattern names the constructor `c` without a module.
pub open spec fn uses_ctor(p: Pattern<(), ()>, c: Seq<char>) -> bool
    decreases p,
{
    match p {
        Pattern::Assign { pattern, .. } => uses_ctor(*pattern, c),
        Pattern::List { elements, tail, .. } => (exists|i: int| 0 <= i < elements@.len() && uses_ctor(elements@[i], c))
            || (tail matches Some(t) && uses_ctor(*t, c)),
        Pattern::Tuple { elems, .. } => exists|i: int| 0 <= i < elems@.len() && uses_ctor(elems@[i], c),
        Pattern::Constructor { module, name, arguments, .. } => (module is None && name@ == c) || exists|i: int|
            0 <= i < arguments@.len() && uses_ctor(arguments@[i].value, c),
        _ => false,
    }
}

/// No name the pattern binds is the name of a constructor it uses.
pub open spec fn no_capture(p: Pattern<(), ()>) -> bool {
    forall|k: Seq<char>| !(#[trigger] binds(p, k) && uses_ctor(p, k))
}

/// Every constructor the pattern names is, if it is known at all, a record
/// constructor a pattern can refer to, and every spread is written after
/// the third position of the source.
pub open spec fn ctors_ok<'b>(e: Environment<'b>, p: Pattern<(), ()>) -> bool
    decreases p,
{
    match p {
        Pattern::Assign { pattern, .. } => ctors_ok(e, *pattern),
        Pattern::List { elements, tail, .. } => (forall|i: int| 0 <= i < elements@.len() ==> ctors_ok(e, #[trigger] elements@[i]))
            && (tail matches Some(t) ==> ctors_ok(e, *t)),
        Pattern::Tuple { elems, .. } => forall|i: int| 0 <= i < elems@.len() ==> ctors_ok(e, #[trigger] elems@[i]),
        Pattern::Constructor { location, module, name, arguments, with_spread, .. } => {
            &&& (lookup(e, module, name@) matches Some(v) ==> record_ok(v))
            &&& (with_spread ==> location.end >= 3)
            &&& forall|i: int| 0 <= i < arguments@.len() ==> ctors_ok(e, (#[trigger] arguments@[i]).value)
        },
        _ => true,
    }
}

/// The number of nodes of a pattern, a discard counting for none.
pub open spec fn psize(p: Pattern<(), ()>) -> nat
    decreases p, 1nat,
{
    match p {
        Pattern::Discard { .. } => 0,
        Pattern::Assign { pattern, .. } => 1 + psize(*pattern),
        Pattern::List { elements, tail, .. } => 1 + psizes(elements@) + match tail {
            Some(t) => psize(*t),
            None => 0,
        },
        Pattern::Tuple { elems, .. } => 1 + psizes(elems@),
        Pattern::Constructor { arguments, .. } => 1 + psize_args(arguments@),
        _ => 1,
    }
}

/// The number of nodes of the patterns of a list.
pub open spec fn psizes(ps: Seq<Pattern<(), ()>>) -> nat
    decreases ps, 0nat,
{
    if ps.len() == 0 {
        0
    } else {
        psizes(ps.drop_last()) + psize(ps.last())
    }
}

/// The number of nodes of the patterns of a list of arguments.
pub open spec fn psize_args(args: Seq<CallArg<Pattern<(), ()>>>) -> nat
    decreases args, 0nat,
{
    if args.len() == 0 {
        0
    } else {
        psize_args(args.drop_last()) + psize(args.last().value)
    }
}

pub proof fn lemma_psizes(ps: Seq<Pattern<(), ()>>)
    ensures
        forall|i: int| 0 <= i < ps.len() ==> psize(#[trigger] ps[i]) <= psizes(ps),
    decreases ps.len(),
{
    if ps.len() > 0 {
        lemma_psizes(ps.drop_last());
        assert forall|i: int| 0 <= i < ps.len() implies psize(#[trigger] ps[i]) <= psizes(ps) by {
            if i < ps.len() - 1 {
                assert(ps.drop_last()[i] == ps[i]);
            }
        }
    }
}

pub proof fn lemma_psize_args(args: Seq<CallArg<Pattern<(), ()>>>)
    ensures
        forall|i: int| 0 <= i < args.len() ==> psize((#[trigger] args[i]).value) <= psize_args(args),
    decreases args.len(),
{
    if args.len() > 0 {
        lemma_psize_args(args.drop_last());
        assert forall|i: int| 0 <= i < args.len() implies psize((#[trigger] args[i]).value) <= psize_args(args) by {
            if i < args.len() - 1 {
                assert(args.drop_last()[i] == args[i]);
            }
        }
    }
}

/// A typed pattern has the form of the pattern it was typed from: the same
/// variants, names, locations and values, and, for lists and tuples, typed
/// elements of the same form; a typed constructor keeps the constructor's
/// location, module, name and flags.
pub open spec fn shape(p: Pattern<(), ()>, t: Pattern<PatternConstructor, Arc<Type>>) -> bool
    decreases p,
{
    match p {
        Pattern::Int { location, value } => t matches Pattern::Int { location: l2, value: v2 } && l2 == location && v2
            == value,
        Pattern::Var { location, name } => t matches Pattern::Var { location: l2, name: n2 } && l2 == location && n2
            == name,
        Pattern::Discard { location, name } => t matches Pattern::Discard { location: l2, name: n2 } && l2 == location
            && n2 == name,
        Pattern::Assign { name, location, pattern } => match t {
            Pattern::Assign { name: n2, location: l2, pattern: p2 } => n2 == name && l2 == location && shape(*pattern, *p2),
            _ => false,
        },
        Pattern::List { location, elements, tail } => match t {
            Pattern::List { location: l2, elements: e2, tail: t2 } => {
                &&& l2 == location
                &&& e2@.len() == elements@.len()
                &&& forall|i: int| 0 <= i < elements@.len() ==> shape(#[trigger] elements@[i], e2@[i])
                &&& match (tail, t2) {
                    (None, None) => true,
                    (Some(a), Some(b)) => shape(*a, *b),
                    _ => false,
                }
            },
            _ => false,
        },
        Pattern::Tuple { location, elems } => match t {
            Pattern::Tuple { location: l2, elems: e2 } => {
                &&& l2 == location
                &&& e2@.len() == elems@.len()
                &&& forall|i: int| 0 <= i < elems@.len() ==> shape(#[trigger] elems@[i], e2@[i])
            },
            _ => false,
        },
        Pattern::Constructor { is_record, location, name, module, with_spread, .. } => match t {
            Pattern::Constructor { is_record: r2, location: l2, name: n2, module: m2, with_spread: w2, .. } => r2
                == is_record && l2 == location && n2 == name && m2 == module && w2 == with_spread,
            _ => false,
        },
    }
}

/// The scope keeps its value for `k`.
pub open spec fn kept_at(a: Map<Seq<char>, ValueConstructor>, b: Map<Seq<char>, ValueConstructor>, k: Seq<char>) -> bool {
    &&& a.contains_key(k) == b.contains_key(k)
    &&& a.contains_key(k) ==> a[k] == b[k]
}

/// A constructor pattern refers to the same value in both environments
/// when the scopes agree on the names it uses.
pub proof fn lemma_ctors_ok_kept<'b>(e0: Environment<'b>, e1: Environment<'b>, p: Pattern<(), ()>)
    requires
        ctors_ok(e0, p),
        e0.imported_modules == e1.imported_modules,
        forall|c: Seq<char>| #[trigger] uses_ctor(p, c) ==> kept_at(e0.scope@, e1.scope@, c),
    ensures
        ctors_ok(e1, p),
    decreases p,
{
    match p {
        Pattern::Assign { pattern, .. } => {
            assert forall|c: Seq<char>| #[trigger] uses_ctor(*pattern, c) implies kept_at(e0.scope@, e1.scope@, c) by {
                assert(uses_ctor(p, c));
            }
            lemma_ctors_ok_kept(e0, e1, *pattern);
        },
        Pattern::List { elements, tail, .. } => {
            assert forall|i: int| 0 <= i < elements@.len() implies ctors_ok(e1, #[trigger] elements@[i]) by {
                assert forall|c: Seq<char>| #[trigger] uses_ctor(elements@[i], c) implies kept_at(e0.scope@, e1.scope@, c) by {
                    assert(uses_ctor(p, c));
                }
                lemma_ctors_ok_kept(e0, e1, elements@[i]);
            }
            match tail {
                Some(t) => {
                    assert forall|c: Seq<char>| #[trigger] uses_ctor(*t, c) implies kept_at(e0.scope@, e1.scope@, c) by {
                        assert(uses_ctor(p, c));
                    }
                    lemma_ctors_ok_kept(e0, e1, *t);
                },
                None => {},
            }
        },
        Pattern::Tuple { elems, .. } => {
            assert forall|i: int| 0 <= i < elems@.len() implies ctors_ok(e1, #[trigger] elems@[i]) by {
                assert forall|c: Seq<char>| #[trigger] uses_ctor(elems@[i], c) implies kept_at(e0.scope@, e1.scope@, c) by {
                    assert(uses_ctor(p, c));
                }
                lemma_ctors_ok_kept(e0, e1, elems@[i]);
            }
        },
        Pattern::Constructor { module, name, arguments, .. } => {
            if module is None {
                assert(uses_ctor(p, name@));
            }
            assert forall|i: int| 0 <= i < arguments@.len() implies ctors_ok(e1, (#[trigger] arguments@[i]).value) by {
                assert forall|c: Seq<char>| #[trigger] uses_ctor(arguments@[i].value, c) implies kept_at(
                    e0.scope@,
                    e1.scope@,
                    c,
                ) by {
                    assert(uses_ctor(p, c));
                }
                lemma_ctors_ok_kept(e0, e1, arguments@[i].value);
            }
        },
        _ => {},
    }
}

/// Whether a pattern binds its variables afresh, or is an alternative that
/// must bind again the variables of the pattern it stands beside.
pub enum PatternMode {
    Initial,
    /// The names bound so far by the alternative.
    Alternative(Vec<String>),
}

/// Types patterns against the types of the values they match, binding
/// their variables in the environment.
pub struct PatternTyper<'a, 'b> {
    pub environment: Environment<'b>,
    pub hydrator: &'a Hydrator,
    pub mode: PatternMode,
    pub initial_pattern_vars: NameMap<()>,
}

/// A step of pattern typing: the environment stays fit for typing, its
/// store only grows, its other parts change only where typing changes
/// them, and no value in scope changes but those of names the pattern
/// binds.
pub open spec fn typer_step<'a, 'b>(t0: PatternTyper<'a, 'b>, t1: PatternTyper<'a, 'b>, p: Pattern<(), ()>) -> bool {
    &&& typer_env_ok(t1.environment)
    &&& refines(t0.environment.vars@, t1.environment.vars@)
    &&& same_but_bindings(t1.environment, t0.environment)
    &&& t1.hydrator == t0.hydrator
    &&& (t1.mode is Initial) == (t0.mode is Initial)
    &&& t1.environment.entity_usages@.len() == t0.environment.entity_usages@.len()
    &&& forall|k: Seq<char>| !binds(p, k) ==> #[trigger] kept_at(t0.environment.scope@, t1.environment.scope@, k)
}

pub proof fn lemma_typer_step_refl<'a, 'b>(t: PatternTyper<'a, 'b>, p: Pattern<(), ()>)
    requires
        typer_env_ok(t.environment),
    ensures
        typer_step(t, t, p),
{
    lemma_refines_refl(t.environment.vars@);
}

pub proof fn lemma_typer_step_trans<'a, 'b>(
    t0: PatternTyper<'a, 'b>,
    t1: PatternTyper<'a, 'b>,
    t2: PatternTyper<'a, 'b>,
    p: Pattern<(), ()>,
)
    requires
        typer_step(t0, t1, p),
        typer_step(t1, t2, p),
    ensures
        typer_step(t0, t2, p),
{
    lemma_refines_trans(t0.environment.vars@, t1.environment.vars@, t2.environment.vars@);
    assert forall|k: Seq<char>| !binds(p, k) implies #[trigger] kept_at(t0.environment.scope@, t2.environment.scope@, k) by {
        assert(kept_at(t0.environment.scope@, t1.environment.scope@, k));
        assert(kept_at(t1.environment.scope@, t2.environment.scope@, k));
    }
}

/// A step that binds only names of `q` binds only names of any pattern
/// binding all of them.
pub proof fn lemma_typer_step_widen<'a, 'b>(
    t0: PatternTyper<'a, 'b>,
    t1: PatternTyper<'a, 'b>,
    q: Pattern<(), ()>,
    p: Pattern<(), ()>,
)
    requires
        typer_step(t0, t1, q),
        forall|k: Seq<char>| #[trigger] binds(q, k) ==> binds(p, k),
    ensures
        typer_step(t0, t1, p),
{
    assert forall|k: Seq<char>| !binds(p, k) implies #[trigger] kept_at(t0.environment.scope@, t1.environment.scope@, k) by {
        if binds(q, k) {
            assert(binds(p, k));
        }
    }
}

impl<'a, 'b> PatternTyper<'a, 'b> {
    /// A typer that binds variables afresh in the environment.
    pub fn new(environment: Environment<'b>, hydrator: &'a Hydrator) -> (t: Self)
        ensures
            t.environment == environment,
            t.hydrator == hydrator,
            t.mode is Initial,
            t.initial_pattern_vars@ == Map::<Seq<char>, ()>::empty(),
    {
        PatternTyper { environment, hydrator, mode: PatternMode::Initial, initial_pattern_vars: NameMap::new() }
    }

    /// Binds a variable of the pattern. A first pattern records its usage
    /// and binds it, and refuses a name it bound already; an alternative
    /// unifies its type with that of the variable the first pattern bound,
    /// and refuses a name the first pattern did not bind.
    fn insert_variable(&mut self, name: &str, typ: Arc<Type>, location: Span, err_location: Span) -> (r: Result<(), Error>)
        requires
            typer_env_ok(old(self).environment),
        ensures
            not_missing(r),
            typer_env_ok(final(self).environment),
            refines(old(self).environment.vars@, final(self).environment.vars@),
            same_but_bindings(final(self).environment, old(self).environment),
            final(self).hydrator == old(self).hydrator,
            final(self).environment.entity_usages@.len() == old(self).environment.entity_usages@.len(),
            forall|k: Seq<char>| k != name@ ==> #[trigger] kept_at(old(self).environment.scope@, final(self).environment.scope@, k),
            alt_names(*old(self), *final(self), set![name@], true),
            match old(self).mode {
                PatternMode::Initial => {
                    &&& final(self).mode is Initial
                    &&& final(self).environment.entity_usages@.last()@ == old(self).environment.entity_usages@.last()@.insert(
                        name@,
                        (EntityKind::Variable, location, false),
                    )
                    &&& if old(self).initial_pattern_vars@.contains_key(name@) {
                        &&& r matches Err(Error::DuplicateVarInPattern { name: n, location: l }) && n@ == name@ && l == err_location
                        &&& final(self).initial_pattern_vars == old(self).initial_pattern_vars
                        &&& final(self).environment.scope == old(self).environment.scope
                    } else {
                        &&& r is Ok
                        &&& final(self).initial_pattern_vars@ == old(self).initial_pattern_vars@.insert(name@, ())
                        &&& final(self).environment.scope@ == old(self).environment.scope@.insert(
                            name@,
                            ValueConstructor { public: false, variant: ValueConstructorVariant::LocalVariable { location }, tipo: typ },
                        )
                    }
                },
                PatternMode::Alternative(assigned) => {
                    &&& final(self).initial_pattern_vars == old(self).initial_pattern_vars
                    &&& final(self).environment.scope == old(self).environment.scope
                    &&& final(self).environment.entity_usages == old(self).environment.entity_usages
                    &&& if old(self).environment.scope@.contains_key(name@) && old(self).initial_pattern_vars@.contains_key(name@) {
                        &&& final(self).mode matches PatternMode::Alternative(a2) && a2@.len() == assigned@.len() + 1
                            && a2@.drop_last() == assigned@ && a2@.last()@ == name@
                        &&& r is Ok ==> agree(final(self).environment.vars@, old(self).environment.scope@[name@].tipo, typ)
                        &&& agree(old(self).environment.vars@, old(self).environment.scope@[name@].tipo, typ) ==> r is Ok
                            && final(self).environment.vars@ == old(self).environment.vars@
                        &&& binds_unbound(
                            old(self).environment.vars@,
                            final(self).environment.vars@,
                            old(self).environment.scope@[name@].tipo,
                            typ,
                            false,
                            r,
                        )
                        &&& fails_plainly(
                            old(self).environment.vars@,
                            old(self).environment.scope@[name@].tipo,
                            typ,
                            err_location,
                            r,
                        )
                        &&& no_free_vars(old(self).environment.vars@, old(self).environment.scope@[name@].tipo, typ)
                            ==> final(self).environment.vars@ == old(self).environment.vars@
                    } else {
                        &&& r matches Err(Error::ExtraVarInAlternativePattern { name: n, location: l }) && n@ == name@ && l == err_location
                        &&& *final(self) == *old(self)
                    }
                },
            },
    {
        proof {
            lemma_refines_refl(self.environment.vars@);
        }
        match &mut self.mode {
            PatternMode::Initial => {
                let ghost u0 = usages(self.environment.entity_usages@);
                self.environment.init_usage(owned(name), EntityKind::Variable, location);
                proof {
                    let u1 = usages(self.environment.entity_usages@);
                    crate::lang::tipo::usage::lemma_chains_end_insert(u0, name@, (EntityKind::Variable, location, false));
                    let v0 = old(self).environment.entity_usages@;
                    let v1 = self.environment.entity_usages@;
                    assert forall|i: int| 0 <= i < u0.len() - 1 implies u1[i] == u0[i] by {
                        assert(v1.drop_last()[i] == v1[i]);
                        assert(v0.drop_last()[i] == v0[i]);
                    }
                    assert(u1 =~= u0.update(u0.len() - 1, u0[u0.len() - 1].insert(name@, (EntityKind::Variable, location, false))));
                }
                if self.initial_pattern_vars.contains_key(name) {
                    return Err(Error::DuplicateVarInPattern { name: owned(name), location: err_location });
                }
                self.initial_pattern_vars.insert(owned(name), ());
                self.environment.insert_variable(
                    owned(name),
                    ValueConstructorVariant::LocalVariable { location },
                    typ,
                );
                Ok(())
            },
            PatternMode::Alternative(assigned) => {
                let initial_typ = match self.environment.scope.get(name) {
                    Some(initial) => {
                        if self.initial_pattern_vars.contains_key(name) {
                            Some(initial.tipo.clone())
                        } else {
                            None
                        }
                    },
                    None => None,
                };
                match initial_typ {
                    Some(t0) => {
                        assigned.push(owned(name));
                        let out = self.environment.unify(t0, typ, err_location, false);
                        proof {
                            match old(self).mode {
                                PatternMode::Alternative(a0) => match &self.mode {
                                    PatternMode::Alternative(a1) => {
                                        assert(a1@ == a0@.push(a1@.last()));
                                    },
                                    _ => {},
                                },
                                _ => {},
                            }
                        }
                        out
                    },
                    None => {
                        proof {
                            lemma_alt_refl(*self, set![name@], true);
                        }
                        Err(Error::ExtraVarInAlternativePattern { name: owned(name), location: err_location })
                    },
                }
            },
        }
    }
}

/// A type whose links lead to a function or a named type shows one at its
/// top once shown under a store and instantiated.
pub proof fn lemma_top_kept(s: Map<u64, VarV>, ids: Map<u64, TypeV>, t: TypeV)
    requires
        res(t) is Fn || res(t) is App,
    ensures
        res(t) is Fn ==> inst(ids, mat(s, t)) is Fn,
        res(t) is App ==> inst(ids, mat(s, t)) is App,
    decreases t,
{
    match t {
        TypeV::Var(VarV::Link(b)) => {
            lemma_top_kept(s, ids, *b);
        },
        _ => {},
    }
}

/// A step that changes only type variables and identifiers.
pub proof fn lemma_typing_step<'a, 'b>(t0: PatternTyper<'a, 'b>, t1: PatternTyper<'a, 'b>, p: Pattern<(), ()>)
    requires
        typer_env_ok(t0.environment),
        same_but_typing(t1.environment, t0.environment),
        store_closed(t1.environment.vars@),
        refines(t0.environment.vars@, t1.environment.vars@),
        t1.hydrator == t0.hydrator,
        t1.mode == t0.mode,
    ensures
        typer_step(t0, t1, p),
{
}

/// What a type shows at its top, once links are followed, stays as the
/// store grows: a named type keeps its module, name and number of
/// arguments, a tuple its number of elements, a function stays one.
pub proof fn lemma_res_shape_kept(s1: Map<u64, VarV>, s2: Map<u64, VarV>, t: TypeV)
    requires
        store_closed(s1),
        refines(s1, s2),
    ensures
        res(mat(s1, t)) matches TypeV::App { module, name, args, .. } ==> (res(mat(s2, t)) matches TypeV::App {
            module: m2,
            name: n2,
            args: a2,
            ..
        } && m2 == module && n2 == name && a2.len() == args.len()),
        res(mat(s1, t)) matches TypeV::Tuple(ts) ==> (res(mat(s2, t)) matches TypeV::Tuple(t2) && t2.len() == ts.len()),
        res(mat(s1, t)) is Fn ==> res(mat(s2, t)) is Fn,
{
    lemma_mat_refines(s1, s2, t);
    crate::lang::tipo::resolve::lemma_res_mat_res(s2, mat(s1, t));
    let r1 = res(mat(s1, t));
    match r1 {
        TypeV::App { args, .. } => {
            crate::lang::tipo::resolve::lemma_mats_index(s2, args);
            crate::lang::tipo::resolve::lemma_res_list_index(crate::lang::tipo::unify::mats(s2, args));
        },
        TypeV::Tuple(ts) => {
            crate::lang::tipo::resolve::lemma_mats_index(s2, ts);
            crate::lang::tipo::resolve::lemma_res_list_index(crate::lang::tipo::unify::mats(s2, ts));
        },
        _ => {},
    }
}

/// A pattern typed as part of `parent`: smaller than it, with constructors
/// a pattern can refer to, binding and using only names `parent` binds and
/// uses.
pub open spec fn sub_ok<'b>(e: Environment<'b>, parent: Pattern<(), ()>, q: Pattern<(), ()>) -> bool {
    &&& psize(q) < psize(parent)
    &&& ctors_ok(e, q)
    &&& forall|k: Seq<char>| #[trigger] binds(q, k) ==> binds(parent, k)
    &&& forall|k: Seq<char>| #[trigger] uses_ctor(q, k) ==> uses_ctor(parent, k)
}

/// The patterns of a list are each linear and bind no name in common.
pub open spec fn lin_list(ps: Seq<Pattern<(), ()>>) -> bool {
    &&& forall|i: int| 0 <= i < ps.len() ==> linear(#[trigger] ps[i])
    &&& forall|i: int, j: int, k: Seq<char>|
        0 <= i < ps.len() && 0 <= j < ps.len() && i != j && #[trigger] binds(ps[i], k) ==> !#[trigger] binds(ps[j], k)
}

/// The patterns of a list of arguments are each linear and bind no name in
/// common.
pub open spec fn lin_args(args: Seq<CallArg<Pattern<(), ()>>>) -> bool {
    &&& forall|i: int| 0 <= i < args.len() ==> linear((#[trigger] args[i]).value)
    &&& forall|i: int, j: int, k: Seq<char>|
        0 <= i < args.len() && 0 <= j < args.len() && i != j && #[trigger] binds(args[i].value, k) ==> !#[trigger] binds(
            args[j].value,
            k,
        )
}

/// The pattern binds no name twice.
pub open spec fn linear(p: Pattern<(), ()>) -> bool
    decreases p,
{
    match p {
        Pattern::Assign { name, pattern, .. } => !binds(*pattern, name@) && linear(*pattern),
        Pattern::List { elements, tail, .. } => {
            &&& forall|i: int| 0 <= i < elements@.len() ==> linear(#[trigger] elements@[i])
            &&& forall|i: int, j: int, k: Seq<char>|
                0 <= i < elements@.len() && 0 <= j < elements@.len() && i != j && #[trigger] binds(elements@[i], k)
                    ==> !#[trigger] binds(elements@[j], k)
            &&& tail matches Some(t) ==> linear(*t) && forall|i: int, k: Seq<char>|
                0 <= i < elements@.len() && #[trigger] binds(elements@[i], k) ==> !binds(*t, k)
        },
        Pattern::Tuple { elems, .. } => {
            &&& forall|i: int| 0 <= i < elems@.len() ==> linear(#[trigger] elems@[i])
            &&& forall|i: int, j: int, k: Seq<char>|
                0 <= i < elems@.len() && 0 <= j < elems@.len() && i != j && #[trigger] binds(elems@[i], k)
                    ==> !#[trigger] binds(elems@[j], k)
        },
        Pattern::Constructor { arguments, .. } => {
            &&& forall|i: int| 0 <= i < arguments@.len() ==> linear((#[trigger] arguments@[i]).value)
            &&& forall|i: int, j: int, k: Seq<char>|
                0 <= i < arguments@.len() && 0 <= j < arguments@.len() && i != j && #[trigger] binds(
                    arguments@[i].value,
                    k,
                ) ==> !#[trigger] binds(arguments@[j].value, k)
        },
        _ => true,
    }
}

/// In an alternative, the names bound since `t0` are names of `n`, each
/// bound by the first pattern, with no name twice when `lin` holds.
pub open spec fn alt_names<'a, 'b>(t0: PatternTyper<'a, 'b>, t1: PatternTyper<'a, 'b>, n: Set<Seq<char>>, lin: bool) -> bool {
    match t0.mode {
        PatternMode::Initial => true,
        PatternMode::Alternative(a0) => match t1.mode {
            PatternMode::Alternative(a1) => {
                &&& t1.initial_pattern_vars == t0.initial_pattern_vars
                &&& a1@.len() >= a0@.len()
                &&& forall|i: int| 0 <= i < a0@.len() ==> #[trigger] a1@[i] == a0@[i]
                &&& forall|i: int|
                    a0@.len() <= i < a1@.len() ==> n.contains((#[trigger] a1@[i])@)
                        && t0.initial_pattern_vars@.contains_key(a1@[i]@)
                &&& lin ==> forall|i: int, j: int|
                    a0@.len() <= i < a1@.len() && a0@.len() <= j < a1@.len() && i != j ==> (#[trigger] a1@[i])@
                        != (#[trigger] a1@[j])@
            },
            PatternMode::Initial => false,
        },
    }
}

/// Every name of the first pattern is among the names bound again.
pub open spec fn assigns_all(assigned: Seq<String>, initial: Map<Seq<char>, ()>) -> bool {
    forall|k: Seq<char>| #[trigger] initial.contains_key(k) ==> exists|i: int| 0 <= i < assigned.len() && assigned[i]@ == k
}

/// The names of a list of strings.
pub open spec fn name_set(assigned: Seq<String>) -> Set<Seq<char>> {
    Set::new(|k: Seq<char>| exists|j: int| 0 <= j < assigned.len() && assigned[j]@ == k)
}

/// The names a pattern binds.
pub open spec fn bound(p: Pattern<(), ()>) -> Set<Seq<char>> {
    Set::new(|k: Seq<char>| binds(p, k))
}

/// The names the first `n` patterns of a list bind.
pub open spec fn list_bound(ps: Seq<Pattern<(), ()>>, n: int) -> Set<Seq<char>> {
    Set::new(|k: Seq<char>| exists|j: int| 0 <= j < n && binds(ps[j], k))
}

/// The names the patterns of the first `n` arguments of a list bind.
pub open spec fn args_bound(args: Seq<CallArg<Pattern<(), ()>>>, n: int) -> Set<Seq<char>> {
    Set::new(|k: Seq<char>| exists|j: int| 0 <= j < n && binds(args[j].value, k))
}

pub proof fn lemma_alt_refl<'a, 'b>(t: PatternTyper<'a, 'b>, n: Set<Seq<char>>, lin: bool)
    ensures
        alt_names(t, t, n, lin),
{
}

pub proof fn lemma_alt_weaken<'a, 'b>(
    t0: PatternTyper<'a, 'b>,
    t1: PatternTyper<'a, 'b>,
    n: Set<Seq<char>>,
    m: Set<Seq<char>>,
    lin: bool,
    lin2: bool,
)
    requires
        alt_names(t0, t1, n, lin),
        n.subset_of(m),
        lin2 ==> lin,
    ensures
        alt_names(t0, t1, m, lin2),
{
}

pub proof fn lemma_alt_compose<'a, 'b>(
    t0: PatternTyper<'a, 'b>,
    t1: PatternTyper<'a, 'b>,
    t2: PatternTyper<'a, 'b>,
    n1: Set<Seq<char>>,
    n2: Set<Seq<char>>,
    l1: bool,
    l2: bool,
)
    requires
        alt_names(t0, t1, n1, l1),
        alt_names(t1, t2, n2, l2),
        l1 && l2 ==> n1.disjoint(n2),
    ensures
        alt_names(t0, t2, n1.union(n2), l1 && l2),
{
    match (t0.mode, t1.mode, t2.mode) {
        (PatternMode::Alternative(a0), PatternMode::Alternative(a1), PatternMode::Alternative(a2)) => {
            assert forall|i: int| 0 <= i < a0@.len() implies #[trigger] a2@[i] == a0@[i] by {
                assert(a2@[i] == a1@[i]);
            }
            assert forall|i: int| a0@.len() <= i < a2@.len() implies n1.union(n2).contains((#[trigger] a2@[i])@)
                && t0.initial_pattern_vars@.contains_key(a2@[i]@) by {
                if i < a1@.len() {
                    assert(a2@[i] == a1@[i]);
                }
            }
            if l1 && l2 {
                assert forall|i: int, j: int|
                    a0@.len() <= i < a2@.len() && a0@.len() <= j < a2@.len() && i != j implies (#[trigger] a2@[i])@
                        != (#[trigger] a2@[j])@ by {
                    if i < a1@.len() && j < a1@.len() {
                        assert(a2@[i] == a1@[i] && a2@[j] == a1@[j]);
                    } else if i < a1@.len() {
                        assert(a2@[i] == a1@[i]);
                        assert(n1.contains(a1@[i]@));
                        assert(n2.contains(a2@[j]@));
                    } else if j < a1@.len() {
                        assert(a2@[j] == a1@[j]);
                        assert(n1.contains(a1@[j]@));
                        assert(n2.contains(a2@[i]@));
                    }
                }
            }
        },
        _ => {},
    }
}

/// A step that leaves the mode and the first pattern's names as they are.
pub proof fn lemma_alt_same<'a, 'b>(t0: PatternTyper<'a, 'b>, t1: PatternTyper<'a, 'b>, n: Set<Seq<char>>, lin: bool)
    requires
        t1.mode == t0.mode,
        t1.initial_pattern_vars == t0.initial_pattern_vars,
    ensures
        alt_names(t0, t1, n, lin),
{
    lemma_alt_refl(t0, n, lin);
}

/// Putting a discard among arguments keeps them linear and disjoint.
pub proof fn lemma_lin_insert_discard(args: Seq<CallArg<Pattern<(), ()>>>, i: int, d: CallArg<Pattern<(), ()>>)
    requires
        0 <= i <= args.len(),
        d.value is Discard,
        lin_args(args),
    ensures
        lin_args(args.insert(i, d)),
{
    let a2 = args.insert(i, d);
    assert forall|k: Seq<char>| !binds(d.value, k) by {}
    assert forall|x: int| 0 <= x < a2.len() implies linear((#[trigger] a2[x]).value) by {
        if x < i {
            assert(a2[x] == args[x]);
        } else if x > i {
            assert(a2[x] == args[x - 1]);
        }
    }
    assert forall|x: int, y: int, k: Seq<char>|
        0 <= x < a2.len() && 0 <= y < a2.len() && x != y && #[trigger] binds(a2[x].value, k) implies !#[trigger] binds(a2[y].value, k) by {
        let xo = if x < i { x } else { x - 1 };
        let yo = if y < i { y } else { y - 1 };
        if x != i && y != i {
            assert(a2[x] == args[xo]);
            assert(a2[y] == args[yo]);
        }
    }
}

/// An element found at two positions occurs at least twice.
pub proof fn lemma_count_two<A>(s: Seq<A>, i: int, j: int)
    requires
        0 <= i < s.len(),
        0 <= j < s.len(),
        i != j,
        s[i] == s[j],
    ensures
        s.to_multiset().count(s[i]) >= 2,
    decreases s.len(),
{
    let x = s[i];
    let t = s.drop_last();
    assert(t.push(s.last()) =~= s);
    t.to_multiset_ensures();
    if i < s.len() - 1 && j < s.len() - 1 {
        assert(t[i] == s[i] && t[j] == s[j]);
        lemma_count_two(t, i, j);
    } else {
        let k = if i < s.len() - 1 { i } else { j };
        assert(t[k] == x);
        assert(t.contains(x));
    }
}

/// An element found at one position at most occurs once at most.
pub proof fn lemma_count_one<A>(s: Seq<A>, x: A)
    requires
        forall|a: int, b: int| 0 <= a < s.len() && 0 <= b < s.len() && a != b && s[a] == x ==> s[b] != x,
    ensures
        s.to_multiset().count(x) <= 1,
    decreases s.len(),
{
    if s.len() > 0 {
        let t = s.drop_last();
        assert(t.push(s.last()) =~= s);
        t.to_multiset_ensures();
        lemma_count_one(t, x);
        if s.last() == x {
            assert forall|a: int| 0 <= a < t.len() implies t[a] != x by {
                assert(s[a] == t[a]);
            }
            if t.to_multiset().count(x) > 0 {
                assert(t.contains(x));
            }
        }
    } else {
        assert(s.to_multiset() =~= vstd::multiset::Multiset::empty()) by {
            s.to_multiset_ensures();
        }
    }
}

/// Arguments reordered as a multiset stay linear and disjoint.
pub proof fn lemma_lin_args_permuted(before: Seq<CallArg<Pattern<(), ()>>>, after: Seq<CallArg<Pattern<(), ()>>>)
    requires
        after.to_multiset() == before.to_multiset(),
        lin_args(before),
    ensures
        lin_args(after),
{
    after.to_multiset_ensures();
    before.to_multiset_ensures();
    assert forall|i: int| 0 <= i < after.len() implies linear((#[trigger] after[i]).value) by {
        assert(after.contains(after[i]));
        assert(after.to_multiset().count(after[i]) > 0);
        assert(before.to_multiset().count(after[i]) > 0);
        assert(before.contains(after[i]));
    }
    assert forall|i: int, j: int, k: Seq<char>|
        0 <= i < after.len() && 0 <= j < after.len() && i != j && #[trigger] binds(after[i].value, k) implies !#[trigger] binds(
        after[j].value,
        k,
    ) by {
        if binds(after[j].value, k) {
            assert(after.contains(after[i]));
            assert(after.to_multiset().count(after[i]) > 0);
            assert(before.to_multiset().count(after[i]) > 0);
            assert(before.contains(after[i]));
            assert(after.contains(after[j]));
            assert(after.to_multiset().count(after[j]) > 0);
            assert(before.to_multiset().count(after[j]) > 0);
            assert(before.contains(after[j]));
            let a = choose|a: int| 0 <= a < before.len() && before[a] == after[i];
            let b = choose|b: int| 0 <= b < before.len() && before[b] == after[j];
            if a != b {
                assert(binds(before[a].value, k));
                assert(binds(before[b].value, k));
            } else {
                lemma_count_two(after, i, j);
                if forall|c: int, d: int| 0 <= c < before.len() && 0 <= d < before.len() && c != d && before[c] == after[i] ==> before[d] != after[i] {
                    lemma_count_one(before, after[i]);
                }
                let (c, d) = choose|c: int, d: int| 0 <= c < before.len() && 0 <= d < before.len() && c != d && before[c] == after[i] && before[d] == after[i];
                assert(binds(before[c].value, k));
                assert(binds(before[d].value, k));
            }
        }
    }
}

/// The value of the prelude's `Int` type, as [`res`] gives it.
pub open spec fn int_res() -> TypeV {
    TypeV::App { public: true, module: Seq::empty(), name: "Int"@, args: Seq::empty() }
}

/// What a value of a constructor's type is: the return type of a function,
/// the type itself otherwise.
pub open spec fn result_of(t: TypeV) -> TypeV {
    match t {
        TypeV::Fn { ret, .. } => *ret,
        _ => t,
    }
}

/// The type an annotation gives, or the type of the value.
pub open spec fn ann_or(ann: Option<Arc<Type>>, t: Arc<Type>) -> Arc<Type> {
    match ann {
        Some(a) => a,
        None => t,
    }
}

/// The pattern is the constructor pattern with these parts.
pub open spec fn is_ctor_pattern(
    p: Pattern<(), ()>,
    location: Span,
    module: Option<String>,
    name: String,
    arguments: Vec<CallArg<Pattern<(), ()>>>,
    with_spread: bool,
    is_record: bool,
) -> bool {
    &&& p matches Pattern::Constructor { location: l, module: m, name: n, arguments: a, with_spread: w, is_record: ir, .. }
    &&& l == location && m == module && n == name && a == arguments && w == with_spread && ir == is_record
}

/// What typing a list pattern at `location` against `tipo` gives: a list
/// type on success, and a failure to unify when the type is known to be
/// no list.
pub open spec fn list_facts<'a, 'b>(
    t0: PatternTyper<'a, 'b>,
    t1: PatternTyper<'a, 'b>,
    location: Span,
    tipo: Arc<Type>,
    r: Result<Pattern<PatternConstructor, Arc<Type>>, Error>,
) -> bool {
    let rt = res(mat(t0.environment.vars@, tview(tipo)));
    &&& r is Ok ==> (res(mat(t1.environment.vars@, tview(tipo))) matches TypeV::App { module, name, args, .. } && module
        == Seq::<char>::empty() && name == "List"@ && args.len() == 1)
    &&& (rt is Fn || rt is Tuple || rt matches TypeV::Var(VarV::Generic(_)) || (rt matches TypeV::App {
        module,
        name,
        args,
        ..
    } && !(module == Seq::<char>::empty() && name == "List"@ && args.len() == 1))) ==> (r matches Err(
        Error::CouldNotUnify { location: l, expected: e, situation: None, .. },
    ) && l == location && e == tipo)
}

/// What typing a tuple pattern of `n` elements at `location` against `tipo`
/// gives: a tuple type of `n` elements on success; when the type, its link
/// followed once, is a tuple of another size, a failure of arity; when it is
/// a named or function type, a failure to unify.
pub open spec fn tuple_facts<'a, 'b>(
    t0: PatternTyper<'a, 'b>,
    t1: PatternTyper<'a, 'b>,
    location: Span,
    n: nat,
    tipo: Arc<Type>,
    r: Result<Pattern<PatternConstructor, Arc<Type>>, Error>,
) -> bool {
    let rt = collapse1(mat(t0.environment.vars@, tview(tipo)));
    &&& r is Ok ==> (res(mat(t1.environment.vars@, tview(tipo))) matches TypeV::Tuple(ts) && ts.len() == n)
    &&& (rt matches TypeV::Tuple(ts) && ts.len() != n) ==> r == Err::<Pattern<PatternConstructor, Arc<Type>>, Error>(
        Error::IncorrectTupleArity { location, expected: rt->Tuple_0.len() as usize, given: n as usize },
    ) && t1 == t0
    &&& (rt is App || rt is Fn) ==> (r matches Err(Error::CouldNotUnify { location: l, expected: e, situation: None, .. }) && l == location
        && e == tipo)
}

/// What typing a constructor pattern gives: a failure for an unknown
/// constructor, or for a spread over no missing argument; on success, the
/// record constructor it names, and a type that agrees with what the
/// constructor builds.
pub open spec fn ctor_facts<'a, 'b>(
    t0: PatternTyper<'a, 'b>,
    t1: PatternTyper<'a, 'b>,
    location: Span,
    module: Option<String>,
    name: String,
    n_args: nat,
    with_spread: bool,
    tipo: Arc<Type>,
    r: Result<Pattern<PatternConstructor, Arc<Type>>, Error>,
) -> bool {
    let sf = t1.environment.vars@;
    &&& lookup(t0.environment, module, name@) is None ==> r is Err
    &&& (match lookup(t0.environment, module, name@) {
        Some(v) => match v.variant {
            ValueConstructorVariant::Record { field_map: Some(f), .. } => (with_spread && n_args == f.arity) ==> r
                == Err::<Pattern<PatternConstructor, Arc<Type>>, Error>(
                Error::UnnecessarySpreadOperator {
                    location: Span { start: (location.end - 3) as usize, end: (location.end - 1) as usize },
                    arity: f.arity,
                },
            ),
            _ => true,
        },
        None => true,
    })
    &&& (match r {
        Ok(tp) => match tp {
            Pattern::Constructor { tipo: ct, constructor: PatternConstructor::Record { name: cn, .. }, .. } => match lookup(
                t0.environment,
                module,
                name@,
            ) {
                Some(v) => match v.variant {
                    ValueConstructorVariant::Record { name: vn, .. } => cn@ == vn@ && res(mat(sf, tview(tipo))) == res(
                        mat(sf, result_of(tview(ct))),
                    ),
                    _ => false,
                },
                None => false,
            },
            _ => false,
        },
        Err(_) => true,
    })
}

/// What typing `pattern` against `tipo` gives, case by case: a discard
/// always matches; a variable is bound, or refused as bound twice or as
/// foreign to the first pattern; an integer's type is `Int`; lists, tuples
/// and constructors as [`list_facts`], [`tuple_facts`] and [`ctor_facts`]
/// say.
pub open spec fn unify_facts<'a, 'b>(
    t0: PatternTyper<'a, 'b>,
    t1: PatternTyper<'a, 'b>,
    pattern: Pattern<(), ()>,
    tipo: Arc<Type>,
    ann_type: Option<Arc<Type>>,
    is_assignment: bool,
    r: Result<Pattern<PatternConstructor, Arc<Type>>, Error>,
) -> bool {
    let s0 = t0.environment.vars@;
    let sf = t1.environment.vars@;
    let rt = res(mat(s0, tview(tipo)));
    match pattern {
        Pattern::Discard { .. } => {
            &&& r is Ok
            &&& !is_assignment ==> t1 == t0
        },
        Pattern::Var { name, location } => match t0.mode {
            PatternMode::Initial => (t1.environment.entity_usages@.last()@ == t0.environment.entity_usages@.last()@.insert(
                name@,
                (EntityKind::Variable, location, false),
            )) && if t0.initial_pattern_vars@.contains_key(name@) {
                r matches Err(Error::DuplicateVarInPattern { name: n, location: l }) && n@ == name@ && l == location
            } else {
                &&& r is Ok
                &&& t1.environment.scope@[name@] == (ValueConstructor {
                    public: false,
                    variant: ValueConstructorVariant::LocalVariable { location },
                    tipo: ann_or(ann_type, tipo),
                })
                &&& t1.initial_pattern_vars@.contains_key(name@)
            },
            PatternMode::Alternative(a0) => if t0.environment.scope@.contains_key(name@)
                && t0.initial_pattern_vars@.contains_key(name@) {
                &&& t1.mode matches PatternMode::Alternative(a1) && a1@.len() == a0@.len() + 1 && a1@.drop_last() == a0@
                    && a1@.last()@ == name@
                &&& r is Ok ==> agree(sf, t0.environment.scope@[name@].tipo, ann_or(ann_type, tipo))
                &&& agree(s0, t0.environment.scope@[name@].tipo, ann_or(ann_type, tipo)) ==> r is Ok && sf == s0
                &&& binds_unbound(
                    s0,
                    sf,
                    t0.environment.scope@[name@].tipo,
                    ann_or(ann_type, tipo),
                    false,
                    match r {
                        Ok(_) => Ok::<(), Error>(()),
                        Err(e) => Err(e),
                    },
                )
            } else {
                r matches Err(Error::ExtraVarInAlternativePattern { name: n, location: l }) && n@ == name@ && l == location
            },
        },
        Pattern::Int { .. } => {
            &&& r is Ok ==> res(mat(sf, tview(tipo))) == int_res()
            &&& (rt == int_res() || rt matches TypeV::Var(VarV::Unbound(_))) ==> r is Ok
        },
        Pattern::List { location, .. } => list_facts(t0, t1, location, tipo, r),
        Pattern::Tuple { location, elems } => tuple_facts(t0, t1, location, elems@.len(), tipo, r),
        Pattern::Assign { .. } => true,
        Pattern::Constructor { location, module, name, arguments, with_spread, .. } => ctor_facts(
            t0,
            t1,
            location,
            module,
            name,
            arguments@.len(),
            with_spread,
            tipo,
            r,
        ),
    }
}

impl<'a, 'b> PatternTyper<'a, 'b> {
    /// Types each pattern of a list against the type at the same position.
    fn unify_all(&mut self, ps: Vec<Pattern<(), ()>>, types: Vec<Arc<Type>>, Ghost(parent): Ghost<Pattern<(), ()>>) -> (r:
        Result<Vec<Pattern<PatternConstructor, Arc<Type>>>, Error>)
        requires
            typer_env_ok(old(self).environment),
            ps@.len() == types@.len(),
            no_capture(parent),
            forall|i: int| 0 <= i < ps@.len() ==> ctors_ok(old(self).environment, #[trigger] ps@[i]),
            forall|i: int, k: Seq<char>| 0 <= i < ps@.len() && #[trigger] binds(ps@[i], k) ==> binds(parent, k),
            forall|i: int, k: Seq<char>| 0 <= i < ps@.len() && #[trigger] uses_ctor(ps@[i], k) ==> uses_ctor(parent, k),
        ensures
            not_missing(r),
            typer_step(*old(self), *final(self), parent),
            alt_names(*old(self), *final(self), list_bound(ps@, ps@.len() as int), lin_list(ps@)),
            r matches Ok(v) ==> v@.len() == ps@.len() && forall|i: int| 0 <= i < ps@.len() ==> shape(#[trigger] ps@[i], v@[i]),
            (forall|i: int| 0 <= i < ps@.len() ==> fits(old(self).environment.vars@, #[trigger] ps@[i], tview(types@[i])))
                ==> r is Ok && final(self).environment.vars@ == old(self).environment.vars@,
        decreases psizes(ps@), 4nat,
    {
        let ghost t0 = *self;
        let ghost ps0 = ps@;
        let mut rest = ps;
        let mut out: Vec<Pattern<PatternConstructor, Arc<Type>>> = Vec::new();
        let mut i: usize = 0;
        proof {
            lemma_typer_step_refl(*self, parent);
            lemma_psizes(ps0);
            lemma_alt_refl(*self, list_bound(ps0, 0), lin_list(ps0));
        }
        while i < types.len()
            invariant
                i <= types@.len(),
                ps0.len() == types@.len(),
                rest@ == ps0.skip(i as int),
                out@.len() == i,
                forall|j: int| 0 <= j < i ==> shape(#[trigger] ps0[j], out@[j]),
                t0 == *old(self),
                ps0 == ps@,
                typer_step(t0, *self, parent),
                alt_names(t0, *self, list_bound(ps0, i as int), lin_list(ps0)),
                no_capture(parent),
                forall|j: int| 0 <= j < ps0.len() ==> ctors_ok(t0.environment, #[trigger] ps0[j]),
                forall|j: int, k: Seq<char>| 0 <= j < ps0.len() && #[trigger] binds(ps0[j], k) ==> binds(parent, k),
                forall|j: int, k: Seq<char>| 0 <= j < ps0.len() && #[trigger] uses_ctor(ps0[j], k) ==> uses_ctor(parent, k),
                forall|j: int| 0 <= j < ps0.len() ==> psize(#[trigger] ps0[j]) <= psizes(ps0),
                (forall|j: int| 0 <= j < ps0.len() ==> fits(t0.environment.vars@, #[trigger] ps0[j], tview(types@[j])))
                    ==> self.environment.vars@ == t0.environment.vars@,
            decreases types@.len() - i,
        {
            let p = rest.remove(0);
            let ghost tb = *self;
            proof {
                assert(p == ps0[i as int]);
                assert forall|c: Seq<char>| #[trigger] uses_ctor(p, c) implies kept_at(t0.environment.scope@, self.environment.scope@, c) by {
                    assert(uses_ctor(parent, c));
                    assert(!binds(parent, c));
                }
                lemma_ctors_ok_kept(t0.environment, self.environment, p);
                assert forall|k: Seq<char>| #[trigger] binds(p, k) && uses_ctor(p, k) implies false by {
                    assert(binds(parent, k) && uses_ctor(parent, k));
                }
            }
            let typed = self.unify(p, types[i].clone(), None, false);
            proof {
                assert forall|k: Seq<char>| #[trigger] binds(p, k) implies binds(parent, k) by {}
                lemma_typer_step_widen(tb, *self, p, parent);
                lemma_typer_step_trans(t0, tb, *self, parent);
                assert(typer_step(t0, *self, parent));
                assert(rest@ =~= ps0.skip(i + 1));
                let lin = lin_list(ps0);
                let pi = list_bound(ps0, i as int);
                if lin {
                    assert(linear(ps0[i as int]));
                    assert forall|k: Seq<char>| pi.contains(k) implies !bound(p).contains(k) by {
                        let j = choose|j: int| 0 <= j < i && binds(ps0[j], k);
                        assert(binds(ps0[j], k));
                    }
                }
                lemma_alt_weaken(tb, *self, bound(p), bound(p), linear(p), lin);
                lemma_alt_compose(t0, tb, *self, pi, bound(p), lin, lin);
                assert forall|k: Seq<char>| pi.union(bound(p)).contains(k) implies list_bound(ps0, i + 1).contains(k) by {
                    if bound(p).contains(k) {
                        assert(binds(ps0[i as int], k));
                    } else {
                        let j = choose|j: int| 0 <= j < i && binds(ps0[j], k);
                        assert(binds(ps0[j], k));
                    }
                }
                lemma_alt_weaken(t0, *self, pi.union(bound(p)), list_bound(ps0, i + 1), lin, lin);
            }
            match typed {
                Ok(tp) => {
                    out.push(tp);
                },
                Err(e) => {
                    proof {
                        assert forall|k: Seq<char>| list_bound(ps0, i + 1).contains(k) implies list_bound(ps0, ps0.len() as int).contains(k) by {
                            let j = choose|j: int| 0 <= j < i + 1 && binds(ps0[j], k);
                            assert(binds(ps0[j], k));
                        }
                        lemma_alt_weaken(t0, *self, list_bound(ps0, i + 1), list_bound(ps0, ps0.len() as int), lin_list(ps0), lin_list(ps0));
                    }
                    return Err(e);
                },
            }
            i = i + 1;
        }
        Ok(out)
    }

    /// Types the pattern of each argument against the type at the same
    /// position.
    fn unify_args(
        &mut self,
        args: Vec<CallArg<Pattern<(), ()>>>,
        types: Vec<Arc<Type>>,
        Ghost(parent): Ghost<Pattern<(), ()>>,
    ) -> (r: Result<Vec<CallArg<Pattern<PatternConstructor, Arc<Type>>>>, Error>)
        requires
            typer_env_ok(old(self).environment),
            args@.len() == types@.len(),
            no_capture(parent),
            forall|i: int| 0 <= i < args@.len() ==> sub_ok(old(self).environment, parent, (#[trigger] args@[i]).value),
        ensures
            not_missing(r),
            typer_step(*old(self), *final(self), parent),
            alt_names(*old(self), *final(self), args_bound(args@, args@.len() as int), lin_args(args@)),
            r matches Ok(v) ==> v@.len() == args@.len() && forall|i: int|
                0 <= i < args@.len() ==> (#[trigger] v@[i]).location == args@[i].location && v@[i].label == args@[i].label,
        decreases psize(parent), 1nat,
    {
        let ghost t0 = *self;
        let ghost a0 = args@;
        let mut rest = args;
        let mut out: Vec<CallArg<Pattern<PatternConstructor, Arc<Type>>>> = Vec::new();
        let mut i: usize = 0;
        proof {
            lemma_typer_step_refl(*self, parent);
            lemma_alt_refl(*self, args_bound(a0, 0), lin_args(a0));
        }
        while i < types.len()
            invariant
                i <= types@.len(),
                a0.len() == types@.len(),
                alt_names(t0, *self, args_bound(a0, i as int), lin_args(a0)),
                rest@ == a0.skip(i as int),
                out@.len() == i,
                forall|j: int| 0 <= j < i ==> (#[trigger] out@[j]).location == a0[j].location && out@[j].label == a0[j].label,
                t0 == *old(self),
                a0 == args@,
                typer_step(t0, *self, parent),
                no_capture(parent),
                forall|j: int| 0 <= j < a0.len() ==> sub_ok(t0.environment, parent, (#[trigger] a0[j]).value),
            decreases types@.len() - i,
        {
            let arg = rest.remove(0);
            let ghost tb = *self;
            proof {
                assert(arg == a0[i as int]);
                assert(sub_ok(t0.environment, parent, arg.value));
                assert forall|c: Seq<char>| #[trigger] uses_ctor(arg.value, c) implies kept_at(t0.environment.scope@, self.environment.scope@, c) by {
                    assert(uses_ctor(parent, c));
                    assert(!binds(parent, c));
                }
                lemma_ctors_ok_kept(t0.environment, self.environment, arg.value);
                assert forall|k: Seq<char>| #[trigger] binds(arg.value, k) && uses_ctor(arg.value, k) implies false by {
                    assert(binds(parent, k) && uses_ctor(parent, k));
                }
            }
            let CallArg { value, location, label } = arg;
            let typed = self.unify(value, types[i].clone(), None, false);
            proof {
                lemma_typer_step_widen(tb, *self, value, parent);
                lemma_typer_step_trans(t0, tb, *self, parent);
                assert(rest@ =~= a0.skip(i + 1));
                let lin = lin_args(a0);
                let pi = args_bound(a0, i as int);
                if lin {
                    assert(linear(a0[i as int].value));
                    assert forall|k: Seq<char>| pi.contains(k) implies !bound(value).contains(k) by {
                        let j = choose|j: int| 0 <= j < i && binds(a0[j].value, k);
                        assert(binds(a0[j].value, k));
                    }
                }
                lemma_alt_weaken(tb, *self, bound(value), bound(value), linear(value), lin);
                lemma_alt_compose(t0, tb, *self, pi, bound(value), lin, lin);
                assert forall|k: Seq<char>| pi.union(bound(value)).contains(k) implies args_bound(a0, i + 1).contains(k) by {
                    if bound(value).contains(k) {
                        assert(binds(a0[i as int].value, k));
                    } else {
                        let j = choose|j: int| 0 <= j < i && binds(a0[j].value, k);
                        assert(binds(a0[j].value, k));
                    }
                }
                lemma_alt_weaken(t0, *self, pi.union(bound(value)), args_bound(a0, i + 1), lin, lin);
            }
            match typed {
                Ok(tp) => {
                    out.push(CallArg { value: tp, location, label });
                },
                Err(e) => {
                    proof {
                        assert forall|k: Seq<char>| args_bound(a0, i + 1).contains(k) implies args_bound(a0, a0.len() as int).contains(k) by {
                            let j = choose|j: int| 0 <= j < i + 1 && binds(a0[j].value, k);
                            assert(binds(a0[j].value, k));
                        }
                        lemma_alt_weaken(t0, *self, args_bound(a0, i + 1), args_bound(a0, a0.len() as int), lin_args(a0), lin_args(a0));
                    }
                    return Err(e);
                },
            }
            i = i + 1;
        }
        Ok(out)
    }

    /// Types a list pattern.
    fn unify_list(
        &mut self,
        location: Span,
        elements: Vec<Pattern<(), ()>>,
        tail: Option<Box<Pattern<(), ()>>>,
        tipo: Arc<Type>,
        Ghost(pattern): Ghost<Pattern<(), ()>>,
    ) -> (r: Result<Pattern<PatternConstructor, Arc<Type>>, Error>)
        requires
            typer_env_ok(old(self).environment),
            ctors_ok(old(self).environment, pattern),
            no_capture(pattern),
            pattern == (Pattern::<(), ()>::List { location, elements, tail }),
        ensures
            not_missing(r),
            typer_step(*old(self), *final(self), pattern),
            alt_names(*old(self), *final(self), bound(pattern), linear(pattern)),
            r matches Ok(tp) ==> shape(pattern, tp),
            list_facts(*old(self), *final(self), location, tipo, r),
            fits(old(self).environment.vars@, pattern, tview(tipo)) ==> r is Ok && final(self).environment.vars@ == old(self).environment.vars@,
        decreases psize(pattern), 2nat,
    {
        let ghost t0 = *self;
        proof {
            lemma_typer_step_refl(*self, pattern);
        }
            let got = self.environment.get_app_args(tipo.clone(), true, "", "List", 1);
            let ghost t1 = *self;
            proof {
                lemma_typing_step(t0, t1, pattern);
                reveal_strlit("");
                assert(""@ =~= Seq::<char>::empty());
            }
            match got {
                Some(args) => {
                    let elem_t = args[0].clone();
                    let mut types: Vec<Arc<Type>> = Vec::new();
                    while types.len() < elements.len()
                        invariant
                            types@.len() <= elements@.len(),
                            forall|j: int| 0 <= j < types@.len() ==> #[trigger] tview(types@[j]) == tview(elem_t),
                        decreases elements@.len() - types@.len(),
                    {
                        types.push(elem_t.clone());
                    }
                    proof {
                        let s = t0.environment.vars@;
                        if fits(s, pattern, tview(tipo)) {
                            assert(self.environment.vars@ == s);
                            lemma_types_view(args@);
                            crate::lang::tipo::resolve::lemma_mats_index(s, types_view(args@));
                            crate::lang::tipo::resolve::lemma_res_list_index(crate::lang::tipo::unify::mats(s, types_view(args@)));
                            assert(res(mat(s, tview(tipo))) matches TypeV::App { args: ra, .. } && ra[0] == res(
                                mat(s, tview(elem_t)),
                            ));
                            assert forall|i: int| 0 <= i < elements@.len() implies fits(s, #[trigger] elements@[i], tview(types@[i])) by {
                                assert(tview(types@[i]) == tview(elem_t));
                            }
                        }
                    }
                    proof {
                        assert forall|i: int| 0 <= i < elements@.len() implies ctors_ok(self.environment, #[trigger] elements@[i]) by {
                            lemma_ctors_ok_kept(t0.environment, self.environment, elements@[i]);
                        }
                        assert forall|i: int, k: Seq<char>| 0 <= i < elements@.len() && #[trigger] binds(elements@[i], k)
                            implies binds(pattern, k) by {}
                        assert forall|i: int, k: Seq<char>| 0 <= i < elements@.len() && #[trigger] uses_ctor(elements@[i], k)
                            implies uses_ctor(pattern, k) by {}
                    }
                    let typed_elems = match self.unify_all(elements, types, Ghost(pattern)) {
                        Ok(v) => v,
                        Err(e) => {
                            proof {
                                lemma_typer_step_trans(t0, t1, *self, pattern);
                            }
                            return Err(e);
                        },
                    };
                    let ghost t2 = *self;
                    proof {
                        lemma_typer_step_trans(t0, t1, t2, pattern);
                    }
                    let typed_tail = match tail {
                        Some(t) => {
                            proof {
                                assert forall|c: Seq<char>| #[trigger] uses_ctor(*t, c) implies kept_at(
                                    t0.environment.scope@,
                                    self.environment.scope@,
                                    c,
                                ) by {
                                    assert(uses_ctor(pattern, c));
                                    assert(!binds(pattern, c));
                                }
                                lemma_ctors_ok_kept(t0.environment, self.environment, *t);
                                assert forall|k: Seq<char>| #[trigger] binds(*t, k) && uses_ctor(*t, k) implies false by {
                                    assert(binds(pattern, k) && uses_ctor(pattern, k));
                                }
                            }
                            let out = self.unify(*t, list(elem_t), None, false);
                            proof {
                                assert forall|k: Seq<char>| #[trigger] binds(*t, k) implies binds(pattern, k) by {}
                                lemma_typer_step_widen(t2, *self, *t, pattern);
                                lemma_typer_step_trans(t0, t2, *self, pattern);
                            }
                            match out {
                                Ok(p) => Some(Box::new(p)),
                                Err(e) => {
                                    return Err(e);
                                },
                            }
                        },
                        None => {
                            proof {
                                lemma_typer_step_refl(*self, pattern);
                            }
                            None
                        },
                    };
                    proof {
                        lemma_typer_step_trans(t1, t2, *self, pattern);
                        let s1 = t1.environment.vars@;
                        let sf = self.environment.vars@;
                        reveal_strlit("");
                        let av = app_view(true, Seq::<char>::empty(), "List"@, args@);
                        lemma_res_shape_kept(s1, sf, tview(tipo));
                        lemma_types_view(args@);
                        crate::lang::tipo::resolve::lemma_mats_index(s1, types_view(args@));
                        crate::lang::tipo::resolve::lemma_res_list_index(crate::lang::tipo::unify::mats(s1, types_view(args@)));
                        assert(res(mat(s1, av)) == res(mat(s1, tview(tipo))));
                    }
                    Ok(Pattern::List { location, elements: typed_elems, tail: typed_tail })
                },
                None => {
                    let v = self.environment.new_unbound_var();
                    proof {
                        lemma_typing_step(t0, *self, pattern);
                    }
                    Err(Error::CouldNotUnify { given: list(v), expected: tipo, location, situation: None, rigid_type_names: Vec::new() })
                },
            }
    }

    /// Types a tuple pattern.
    fn unify_tuple(
        &mut self,
        location: Span,
        elems: Vec<Pattern<(), ()>>,
        tipo: Arc<Type>,
        Ghost(pattern): Ghost<Pattern<(), ()>>,
    ) -> (r: Result<Pattern<PatternConstructor, Arc<Type>>, Error>)
        requires
            typer_env_ok(old(self).environment),
            ctors_ok(old(self).environment, pattern),
            no_capture(pattern),
            pattern == (Pattern::<(), ()>::Tuple { location, elems }),
        ensures
            not_missing(r),
            typer_step(*old(self), *final(self), pattern),
            alt_names(*old(self), *final(self), bound(pattern), linear(pattern)),
            r matches Ok(tp) ==> shape(pattern, tp),
            tuple_facts(*old(self), *final(self), location, elems@.len(), tipo, r),
            fits(old(self).environment.vars@, pattern, tview(tipo)) ==> r is Ok && final(self).environment.vars@ == old(self).environment.vars@,
        decreases psize(pattern), 2nat,
    {
        let ghost t0 = *self;
        proof {
            lemma_typer_step_refl(*self, pattern);
        }
            let c = collapse_links(&self.environment.vars, &*tipo);
            proof {
                lemma_type_view_shape(inner(c));
                assert forall|i: int, k: Seq<char>| 0 <= i < elems@.len() && #[trigger] binds(elems@[i], k)
                    implies binds(pattern, k) by {}
                assert forall|i: int, k: Seq<char>| 0 <= i < elems@.len() && #[trigger] uses_ctor(elems@[i], k)
                    implies uses_ctor(pattern, k) by {}
            }
            match &*c {
                Type::Tuple { elems: type_elems } => {
                    proof {
                        lemma_types_view(type_elems@);
                        crate::lang::tipo::resolve::lemma_res_list_index(types_view(type_elems@));
                        assert(tview(c) == TypeV::Tuple(types_view(type_elems@)));
                    }
                    if elems.len() != type_elems.len() {
                        return Err(Error::IncorrectTupleArity { location, expected: type_elems.len(), given: elems.len() });
                    }
                    let ts = clone_types(type_elems);
                    proof {
                        assert forall|i: int| 0 <= i < elems@.len() implies ctors_ok(self.environment, #[trigger] elems@[i]) by {
                            lemma_ctors_ok_kept(t0.environment, self.environment, elems@[i]);
                        }
                    }
                    let out = self.unify_all(elems, ts, Ghost(pattern));
                    proof {
                        lemma_res_shape_kept(t0.environment.vars@, self.environment.vars@, tview(tipo));
                    }
                    match out {
                        Ok(v) => Ok(Pattern::Tuple { elems: v, location }),
                        Err(e) => Err(e),
                    }
                },
                Type::Var { .. } => {
                    let mut elems_types: Vec<Arc<Type>> = Vec::new();
                    while elems_types.len() < elems.len()
                        invariant
                            elems_types@.len() <= elems@.len(),
                            crate::lang::tipo::env::same_but_ids(self.environment, t0.environment),
                            self.hydrator == t0.hydrator,
                            self.mode == t0.mode,
                            self.initial_pattern_vars == t0.initial_pattern_vars,
                        decreases elems@.len() - elems_types@.len(),
                    {
                        let v = self.environment.new_unbound_var();
                        elems_types.push(v);
                    }
                    let tt = tuple(clone_types(&elems_types));
                    let u = self.environment.unify(tt, tipo, location, false);
                    let ghost t1 = *self;
                    proof {
                        lemma_refines_refl(t0.environment.vars@);
                        lemma_typing_step(t0, t1, pattern);
                    }
                    match u {
                        Ok(()) => {},
                        Err(e) => {
                            return Err(e);
                        },
                    }
                    proof {
                        lemma_types_view(elems_types@);
                        let s1 = t1.environment.vars@;
                        crate::lang::tipo::resolve::lemma_mats_index(s1, types_view(elems_types@));
                        crate::lang::tipo::resolve::lemma_res_list_index(crate::lang::tipo::unify::mats(s1, types_view(elems_types@)));
                        assert(tview(tt) == TypeV::Tuple(types_view(elems_types@)));
                        assert forall|i: int| 0 <= i < elems@.len() implies ctors_ok(self.environment, #[trigger] elems@[i]) by {
                            lemma_ctors_ok_kept(t0.environment, self.environment, elems@[i]);
                        }
                    }
                    let out = self.unify_all(elems, elems_types, Ghost(pattern));
                    proof {
                        lemma_typer_step_trans(t0, t1, *self, pattern);
                        lemma_res_shape_kept(t1.environment.vars@, self.environment.vars@, tview(tipo));
                    }
                    match out {
                        Ok(v) => Ok(Pattern::Tuple { elems: v, location }),
                        Err(e) => Err(e),
                    }
                },
                _ => {
                    let mut elems_types: Vec<Arc<Type>> = Vec::new();
                    while elems_types.len() < elems.len()
                        invariant
                            elems_types@.len() <= elems@.len(),
                            crate::lang::tipo::env::same_but_ids(self.environment, t0.environment),
                            self.hydrator == t0.hydrator,
                            self.mode == t0.mode,
                            self.initial_pattern_vars == t0.initial_pattern_vars,
                        decreases elems@.len() - elems_types@.len(),
                    {
                        let v = self.environment.new_unbound_var();
                        elems_types.push(v);
                    }
                    proof {
                        lemma_refines_refl(t0.environment.vars@);
                        lemma_typing_step(t0, *self, pattern);
                    }
                    Err(Error::CouldNotUnify { given: tuple(elems_types), expected: tipo, location, situation: None, rigid_type_names: Vec::new() })
                },
            }
    }

    /// Types a constructor pattern.
    fn unify_constructor(
        &mut self,
        location: Span,
        module: Option<String>,
        name: String,
        arguments: Vec<CallArg<Pattern<(), ()>>>,
        with_spread: bool,
        is_record: bool,
        tipo: Arc<Type>,
        Ghost(pattern): Ghost<Pattern<(), ()>>,
    ) -> (r: Result<Pattern<PatternConstructor, Arc<Type>>, Error>)
        requires
            typer_env_ok(old(self).environment),
            ctors_ok(old(self).environment, pattern),
            no_capture(pattern),
            is_ctor_pattern(pattern, location, module, name, arguments, with_spread, is_record),
        ensures
            not_missing(r),
            typer_step(*old(self), *final(self), pattern),
            alt_names(*old(self), *final(self), bound(pattern), linear(pattern)),
            r matches Ok(tp) ==> shape(pattern, tp),
            ctor_facts(*old(self), *final(self), location, module, name, arguments@.len(), with_spread, tipo, r),
        decreases psize(pattern), 2nat,
    {
        let ghost t0 = *self;
        proof {
            lemma_typer_step_refl(*self, pattern);
        }
            let mut pattern_args = arguments;
            let ghost u0 = usages(self.environment.entity_usages@);
            proof {
                assert(chain_ends(u0, name@));
            }
            self.environment.increment_usage(name.as_str());
            proof {
                let u1 = usages(self.environment.entity_usages@);
                crate::lang::tipo::usage::lemma_mark_kinds(u0, name@, choose|n: nat| crate::lang::tipo::usage::mark_ends(u0, name@, n));
                crate::lang::tipo::usage::lemma_chains_end_kinds(u0, u1);
                lemma_refines_refl(self.environment.vars@);
            }
            let ghost t1 = *self;
            let found = match &module {
                Some(m) => self.environment.get_value_constructor(Some(m), name.as_str(), location),
                None => self.environment.get_value_constructor(None, name.as_str(), location),
            };
            let cons = match found {
                Ok(c) => c,
                Err(e) => {
                    proof {
                        lemma_refines_refl(self.environment.vars@);
                    }
                    return Err(e);
                },
            };
            proof {
                assert(lookup(t1.environment, module, name@) == Some(*cons));
                assert(lookup(t0.environment, module, name@) == Some(*cons));
                assert(record_ok(*cons));
            }
            let constructor_typ = cons.tipo.clone();
            let (ctor_name, field_map) = match &cons.variant {
                ValueConstructorVariant::Record { name: n, field_map: fm, .. } => (
                    n.clone(),
                    match fm {
                        Some(f) => Some(f.clone()),
                        None => None,
                    },
                ),
                _ => {
                    proof {
                        assert(false);
                    }
                    return Err(Error::RecursiveType { location });
                },
            };
            let ghost t2 = *self;
            proof {
                lemma_refines_refl(self.environment.vars@);
                lemma_typer_step_trans(t0, t1, t2, pattern);
                lemma_psize_args(pattern_args@);
                assert forall|i: int| 0 <= i < pattern_args@.len() implies sub_ok(
                    self.environment,
                    pattern,
                    (#[trigger] pattern_args@[i]).value,
                ) by {
                    lemma_ctors_ok_kept(t0.environment, self.environment, pattern_args@[i].value);
                    assert forall|k: Seq<char>| #[trigger] binds(pattern_args@[i].value, k) implies binds(pattern, k) by {}
                    assert forall|k: Seq<char>| #[trigger] uses_ctor(pattern_args@[i].value, k) implies uses_ctor(pattern, k) by {}
                }
            }
            match &field_map {
                Some(fm) => {
                    if with_spread {
                        if pattern_args.len() == fm.arity {
                            return Err(
                                Error::UnnecessarySpreadOperator {
                                    location: Span { start: location.end - 3, end: location.end - 1 },
                                    arity: fm.arity,
                                },
                            );
                        }
                        let spread_location = Span { start: location.end - 3, end: location.end - 1 };
                        let mut index_of_first_labelled_arg: usize = 0;
                        while index_of_first_labelled_arg < pattern_args.len()
                            invariant
                                index_of_first_labelled_arg <= pattern_args@.len(),
                            decreases pattern_args@.len() - index_of_first_labelled_arg,
                        {
                            if pattern_args[index_of_first_labelled_arg].label.is_some() {
                                break;
                            }
                            index_of_first_labelled_arg = index_of_first_labelled_arg + 1;
                        }
                        while pattern_args.len() < fm.arity
                            invariant
                                index_of_first_labelled_arg <= pattern_args@.len(),
                                forall|i: int| 0 <= i < pattern_args@.len() ==> sub_ok(
                                    t2.environment,
                                    pattern,
                                    (#[trigger] pattern_args@[i]).value,
                                ),
                                psize(pattern) >= 1,
                                linear(pattern) ==> lin_args(pattern_args@),
                            decreases fm.arity - pattern_args@.len(),
                        {
                            let new_call_arg = CallArg {
                                value: Pattern::Discard { name: owned("_"), location: spread_location },
                                location: spread_location,
                                label: None,
                            };
                            proof {
                                if linear(pattern) {
                                    lemma_lin_insert_discard(pattern_args@, index_of_first_labelled_arg as int, new_call_arg);
                                }
                            }
                            pattern_args.insert(index_of_first_labelled_arg, new_call_arg);
                        }
                    }
                    let ghost before = pattern_args@;
                    let _ = fm.fields.len();
                    match fm.reorder(pattern_args.as_mut_slice(), location) {
                        Ok(()) => {},
                        Err(e) => {
                            return Err(e);
                        },
                    }
                    proof {
                        assert(fm.arity == before.len());
                        assert(crate::lang::tipo::fields::positional_after_labeled(before, 0, None) is None);
                        crate::lang::tipo::fields::law_reorder_places_labels(fm.fields@, before);
                        let after = pattern_args@;
                        assert(crate::lang::tipo::fields::place_from(fm.fields@, before, 0, Seq::empty(), Seq::empty()) is Done);
                        assert(after.to_multiset() == before.to_multiset());
                        assert forall|i: int| 0 <= i < after.len() implies sub_ok(
                            t2.environment,
                            pattern,
                            (#[trigger] after[i]).value,
                        ) by {
                            after.to_multiset_ensures();
                            before.to_multiset_ensures();
                            assert(after.contains(after[i]));
                            assert(after.to_multiset().count(after[i]) > 0);
                            assert(before.to_multiset().count(after[i]) > 0);
                            assert(before.contains(after[i]));
                            let j = choose|j: int| 0 <= j < before.len() && before[j] == after[i];
                            assert(sub_ok(t2.environment, pattern, before[j].value));
                        }
                        if linear(pattern) {
                            lemma_lin_args_permuted(before, after);
                        }
                    }
                },
                None => {
                    match assert_no_labeled_arguments(pattern_args.as_slice()) {
                        Some((l, label)) => {
                            return Err(
                                Error::UnexpectedLabeledArgInPattern {
                                    location: l,
                                    label,
                                    name,
                                    args: pattern_args,
                                    module,
                                    with_spread,
                                },
                            );
                        },
                        None => {},
                    }
                },
            }
            let constructor = PatternConstructor::Record { name: ctor_name, field_map };
            let mut ids: HashMap<u64, Arc<Type>> = HashMap::new();
            let inst_t = self.environment.instantiate(constructor_typ, &mut ids, self.hydrator);
            let ghost t3 = *self;
            proof {
                lemma_refines_refl(t2.environment.vars@);
                lemma_typing_step(t2, t3, pattern);
                lemma_typer_step_trans(t0, t2, t3, pattern);
                lemma_type_view_shape(inner(inst_t));
                lemma_top_kept(t2.environment.vars@, ids_view(ids@), tview(constructor_typ));
                assert forall|i: int| 0 <= i < pattern_args@.len() implies sub_ok(
                    self.environment,
                    pattern,
                    (#[trigger] pattern_args@[i]).value,
                ) by {
                    lemma_ctors_ok_kept(t2.environment, self.environment, pattern_args@[i].value);
                }
            }
            match &*inst_t {
                Type::Fn { args, ret } => {
                    if args.len() == pattern_args.len() {
                        let ghost ps2 = pattern_args@;
                        let out = self.unify_args(pattern_args, clone_types(args), Ghost(pattern));
                        proof {
                            lemma_typer_step_trans(t0, t3, *self, pattern);
                            assert forall|k: Seq<char>| args_bound(ps2, ps2.len() as int).contains(k) implies bound(pattern).contains(k) by {
                                let j = choose|j: int| 0 <= j < ps2.len() && binds(ps2[j].value, k);
                                assert(sub_ok(t3.environment, pattern, ps2[j].value));
                            }
                            lemma_alt_weaken(t3, *self, args_bound(ps2, ps2.len() as int), bound(pattern), lin_args(ps2), linear(pattern));
                            lemma_alt_same(t0, t3, Set::empty(), true);
                            lemma_alt_compose(t0, t3, *self, Set::empty(), bound(pattern), true, linear(pattern));
                            assert(Set::<Seq<char>>::empty().union(bound(pattern)) =~= bound(pattern));
                        }
                        let typed_args = match out {
                            Ok(v) => v,
                            Err(e) => {
                                return Err(e);
                            },
                        };
                        let ghost t4 = *self;
                        let u = self.environment.unify(tipo, ret.clone(), location, false);
                        proof {
                            lemma_typing_step(t4, *self, pattern);
                            lemma_typer_step_trans(t0, t4, *self, pattern);
                            lemma_alt_same(t4, *self, Set::empty(), true);
                            lemma_alt_compose(t0, t4, *self, bound(pattern), Set::empty(), linear(pattern), true);
                            assert(bound(pattern).union(Set::<Seq<char>>::empty()) =~= bound(pattern));
                            assert(tview(inst_t) == TypeV::Fn { args: types_view(args@), ret: Box::new(tview(*ret)) });
                        }
                        match u {
                            Ok(()) => {},
                            Err(e) => {
                                return Err(e);
                            },
                        }
                        Ok(
                            Pattern::Constructor {
                                location,
                                module,
                                name,
                                arguments: typed_args,
                                constructor,
                                with_spread,
                                tipo: inst_t.clone(),
                                is_record,
                            },
                        )
                    } else {
                        Err(
                            Error::IncorrectPatternArity {
                                location,
                                given: pattern_args,
                                expected: args.len(),
                                name,
                                module,
                                is_record,
                            },
                        )
                    }
                },
                Type::App { .. } => {
                    if pattern_args.len() == 0 {
                        let u = self.environment.unify(tipo, inst_t.clone(), location, false);
                        proof {
                            lemma_typing_step(t3, *self, pattern);
                            lemma_typer_step_trans(t0, t3, *self, pattern);
                        }
                        match u {
                            Ok(()) => {},
                            Err(e) => {
                                return Err(e);
                            },
                        }
                        Ok(
                            Pattern::Constructor {
                                location,
                                module,
                                name,
                                arguments: Vec::new(),
                                constructor,
                                with_spread,
                                tipo: inst_t.clone(),
                                is_record,
                            },
                        )
                    } else {
                        Err(
                            Error::IncorrectPatternArity {
                                location,
                                given: pattern_args,
                                expected: 0,
                                name,
                                module,
                                is_record,
                            },
                        )
                    }
                },
                _ => {
                    proof {
                        assert(false);
                    }
                    Err(Error::RecursiveType { location })
                },
            }
    }

    /// Types a pattern against the type of the value it matches, binding its
    /// variables; `ann_type` is the annotated type of the value, if any.
    pub fn unify(
        &mut self,
        pattern: Pattern<(), ()>,
        tipo: Arc<Type>,
        ann_type: Option<Arc<Type>>,
        is_assignment: bool,
    ) -> (r: Result<Pattern<PatternConstructor, Arc<Type>>, Error>)
        requires
            typer_env_ok(old(self).environment),
            ctors_ok(old(self).environment, pattern),
            no_capture(pattern),
        ensures
            not_missing(r),
            typer_step(*old(self), *final(self), pattern),
            alt_names(*old(self), *final(self), bound(pattern), linear(pattern)),
            r matches Ok(tp) ==> shape(pattern, tp),
            unify_facts(*old(self), *final(self), pattern, tipo, ann_type, is_assignment, r),
            fits(old(self).environment.vars@, pattern, tview(tipo)) ==> r is Ok && final(self).environment.vars@ == old(self).environment.vars@,
        decreases psize(pattern), 3nat,
    {
        let ghost t0 = *self;
        proof {
            lemma_typer_step_refl(*self, pattern);
        }
        match pattern {
            Pattern::Discard { name, location } => {
                if is_assignment {
                    let ghost u0 = usages(self.environment.entity_usages@);
                    self.environment.init_usage(owned(name.as_str()), EntityKind::Variable, location);
                    proof {
                        let u1 = usages(self.environment.entity_usages@);
                        crate::lang::tipo::usage::lemma_chains_end_insert(u0, name@, (EntityKind::Variable, location, false));
                        let v0 = t0.environment.entity_usages@;
                        let v1 = self.environment.entity_usages@;
                        assert forall|i: int| 0 <= i < u0.len() - 1 implies u1[i] == u0[i] by {
                            assert(v1.drop_last()[i] == v1[i]);
                            assert(v0.drop_last()[i] == v0[i]);
                        }
                        assert(u1 =~= u0.update(u0.len() - 1, u0[u0.len() - 1].insert(name@, (EntityKind::Variable, location, false))));
                        lemma_refines_refl(self.environment.vars@);
                    }
                }
                Ok(Pattern::Discard { name, location })
            },
            Pattern::Var { name, location } => {
                let t = match ann_type {
                    Some(a) => a,
                    None => tipo,
                };
                match self.insert_variable(name.as_str(), t, location, location) {
                    Ok(()) => Ok(Pattern::Var { name, location }),
                    Err(e) => Err(e),
                }
            },
            Pattern::Assign { name, pattern: inner_p, location } => {
                let t = match &ann_type {
                    Some(a) => a.clone(),
                    None => tipo.clone(),
                };
                let inner_loc = inner_p.location();
                match self.insert_variable(name.as_str(), t, location, inner_loc) {
                    Ok(()) => {},
                    Err(e) => {
                        return Err(e);
                    },
                }
                let ghost t1 = *self;
                proof {
                    assert forall|c: Seq<char>| #[trigger] uses_ctor(*inner_p, c) implies kept_at(t0.environment.scope@, self.environment.scope@, c) by {
                        assert(uses_ctor(pattern, c));
                        assert(!binds(pattern, c));
                    }
                    lemma_ctors_ok_kept(t0.environment, self.environment, *inner_p);
                    assert forall|k: Seq<char>| #[trigger] binds(*inner_p, k) && uses_ctor(*inner_p, k) implies false by {
                        assert(binds(pattern, k) && uses_ctor(pattern, k));
                    }
                }
                let out = self.unify(*inner_p, tipo, ann_type, false);
                proof {
                    assert forall|k: Seq<char>| #[trigger] binds(*inner_p, k) implies binds(pattern, k) by {}
                    lemma_typer_step_widen(t1, *self, *inner_p, pattern);
                    lemma_typer_step_trans(t0, t1, *self, pattern);
                }
                match out {
                    Ok(p) => Ok(Pattern::Assign { name, pattern: Box::new(p), location }),
                    Err(e) => Err(e),
                }
            },
            Pattern::Int { location, value } => {
                let it = int_type();
                proof {
                    assert(types_view(Seq::<Arc<Type>>::empty()) =~= Seq::<TypeV>::empty());
                    assert(tview(it) == TypeV::App { public: true, module: Seq::empty(), name: "Int"@, args: Seq::empty() });
                    assert(free_vars_list(Seq::<TypeV>::empty()) =~= Set::<u64>::empty());
                    assert(free_vars(tview(it)) =~= Set::<u64>::empty());
                    lemma_mat_noop(t0.environment.vars@, tview(it));
                    assert(res_list(Seq::<TypeV>::empty()) =~= Seq::<TypeV>::empty());
                    assert(res(tview(it)) == int_res());
                    lemma_res_unbound_strip(mat(t0.environment.vars@, tview(tipo)));
                }
                let out = self.environment.unify(tipo, it, location, false);
                proof {
                    assert(types_view(Seq::<Arc<Type>>::empty()) =~= Seq::<TypeV>::empty());
                    assert(tview(it) == TypeV::App { public: true, module: Seq::empty(), name: "Int"@, args: Seq::empty() });
                    assert(free_vars_list(Seq::<TypeV>::empty()) =~= Set::<u64>::empty());
                    assert(free_vars(tview(it)) =~= Set::<u64>::empty());
                    lemma_mat_noop(self.environment.vars@, tview(it));
                    assert(res_list(Seq::<TypeV>::empty()) =~= Seq::<TypeV>::empty());
                    assert(res(tview(it)) == int_res());
                }
                match out {
                    Ok(()) => Ok(Pattern::Int { location, value }),
                    Err(e) => Err(e),
                }
            },
            Pattern::List { location, elements, tail } => {
                self.unify_list(location, elements, tail, tipo, Ghost(pattern))
            },
            Pattern::Tuple { elems, location } => {
                self.unify_tuple(location, elems, tipo, Ghost(pattern))
            },
            Pattern::Constructor { location, module, name, arguments, with_spread, is_record, .. } => {
                self.unify_constructor(location, module, name, arguments, with_spread, is_record, tipo, Ghost(pattern))
            },
        }
    }
}

impl<'a, 'b> PatternTyper<'a, 'b> {
    /// Types a pattern against the type of the value it matches.
    pub fn infer_pattern(&mut self, pattern: Pattern<(), ()>, subject: &Type) -> (r: Result<
        Pattern<PatternConstructor, Arc<Type>>,
        Error,
    >)
        requires
            typer_env_ok(old(self).environment),
            ctors_ok(old(self).environment, pattern),
            no_capture(pattern),
        ensures
            not_missing(r),
            typer_step(*old(self), *final(self), pattern),
            alt_names(*old(self), *final(self), bound(pattern), linear(pattern)),
            r matches Ok(tp) ==> shape(pattern, tp),
            exists|t: Arc<Type>| tview(t) == type_view(*subject) && #[trigger] unify_facts(*old(self), *final(self), pattern, t, None, false, r),
            fits(old(self).environment.vars@, pattern, type_view(*subject)) ==> r is Ok && final(self).environment.vars@
                == old(self).environment.vars@,
    {
        let t = mat_type(&VarStore::new(), subject);
        proof {
            crate::lang::tipo::unify::lemma_mat_noop(Map::<u64, VarV>::empty(), type_view(*subject));
        }
        let r = self.unify(pattern, t, None, false);
        proof {
            assert(tview(t) == type_view(*subject) && unify_facts(*old(self), *self, pattern, t, None, false, r));
        }
        r
    }

    /// Types a pattern that stands as an alternative beside the first
    /// pattern of a clause: it must bind again, with the same types, each
    /// variable the first pattern bound, and only those.
    pub fn infer_alternative_pattern(&mut self, pattern: Pattern<(), ()>, subject: &Type, location: &Span) -> (r:
        Result<Pattern<PatternConstructor, Arc<Type>>, Error>)
        requires
            typer_env_ok(old(self).environment),
            ctors_ok(old(self).environment, pattern),
            no_capture(pattern),
            linear(pattern) || !old(self).initial_pattern_vars@.dom().subset_of(bound(pattern)),
        ensures
            typer_env_ok(final(self).environment),
            refines(old(self).environment.vars@, final(self).environment.vars@),
            same_but_bindings(final(self).environment, old(self).environment),
            final(self).hydrator == old(self).hydrator,
            forall|k: Seq<char>| !binds(pattern, k) ==> #[trigger] kept_at(old(self).environment.scope@, final(self).environment.scope@, k),
            match final(self).mode {
                PatternMode::Alternative(assigned) => {
                    &&& forall|i: int| 0 <= i < assigned@.len() ==> old(self).initial_pattern_vars@.contains_key((#[trigger] assigned@[i])@)
                        && binds(pattern, assigned@[i]@)
                    &&& linear(pattern) ==> forall|i: int, j: int| 0 <= i < assigned@.len() && 0 <= j < assigned@.len() && i != j
                        ==> (#[trigger] assigned@[i])@ != (#[trigger] assigned@[j])@
                    &&& match r {
                        Ok(tp) => {
                            &&& shape(pattern, tp)
                            &&& assigned@.len() == old(self).initial_pattern_vars@.len()
                            &&& linear(pattern) ==> assigns_all(assigned@, old(self).initial_pattern_vars@)
                            &&& final(self).initial_pattern_vars == old(self).initial_pattern_vars
                        },
                        Err(Error::MissingVarInAlternativePattern { location: l, name: n }) => {
                            &&& l == *location
                            &&& !assigns_all(assigned@, old(self).initial_pattern_vars@)
                            &&& old(self).initial_pattern_vars@.contains_key(n@)
                            &&& !name_set(assigned@).contains(n@)
                            &&& final(self).initial_pattern_vars@ == old(self).initial_pattern_vars@.remove_keys(name_set(assigned@))
                        },
                        Err(_) => final(self).initial_pattern_vars == old(self).initial_pattern_vars,
                    }
                },
                PatternMode::Initial => false,
            },
            pattern matches Pattern::Var { name, .. } ==> (old(self).initial_pattern_vars@.dom() == set![name@]
                && old(self).environment.scope@.contains_key(name@) && res(
                mat(old(self).environment.vars@, tview(old(self).environment.scope@[name@].tipo)),
            ) == res(mat(old(self).environment.vars@, type_view(*subject))) ==> r is Ok),
            fits(old(self).environment.vars@, pattern, type_view(*subject)) && old(self).initial_pattern_vars@.dom() == Set::<
                Seq<char>,
            >::empty() ==> r is Ok,
    {
        let ghost t0 = *self;
        self.mode = PatternMode::Alternative(Vec::new());
        let ghost ta = *self;
        let typed = self.infer_pattern(pattern, subject);
        let ghost tb = *self;
        proof {
            let t = choose|t: Arc<Type>| tview(t) == type_view(*subject) && #[trigger] unify_facts(ta, tb, pattern, t, None, false, typed);
            assert(unify_facts(ta, tb, pattern, t, None, false, typed));
            assert(ann_or(None, t) == t);
        }
        let typed_pattern = match typed {
            Ok(p) => p,
            Err(e) => {
                return Err(e);
            },
        };
        match &self.mode {
            PatternMode::Initial => {
                proof {
                    assert(false);
                }
                Ok(typed_pattern)
            },
            PatternMode::Alternative(assigned) => {
                let n = self.initial_pattern_vars.len();
                let ghost names = name_set(assigned@);
                let ghost dom = t0.initial_pattern_vars@.dom();
                proof {
                    assert(names.subset_of(dom));
                    assert(names.subset_of(bound(pattern)));
                }
                proof {
                    if linear(pattern) {
                        let sq = texts(assigned@);
                        assert(sq.no_duplicates());
                        assert(sq.to_set() =~= names) by {
                            assert forall|k: Seq<char>| sq.to_set().contains(k) implies names.contains(k) by {
                                let i = choose|i: int| 0 <= i < sq.len() && sq[i] == k;
                                assert(assigned@[i]@ == k);
                            }
                            assert forall|k: Seq<char>| names.contains(k) implies sq.to_set().contains(k) by {
                                let i = choose|i: int| 0 <= i < assigned@.len() && assigned@[i]@ == k;
                                assert(sq[i] == k);
                            }
                        }
                        sq.unique_seq_to_set();
                        vstd::set_lib::lemma_len_subset(names, dom);
                        if exists|x: Seq<char>| dom.contains(x) && !names.contains(x) {
                            let x = choose|x: Seq<char>| dom.contains(x) && !names.contains(x);
                            assert(names.subset_of(dom.remove(x)));
                            vstd::set_lib::lemma_len_subset(names, dom.remove(x));
                            assert(names != dom);
                        } else {
                            assert(names =~= dom);
                        }
                    } else {
                        let x = choose|x: Seq<char>| dom.contains(x) && !bound(pattern).contains(x);
                        assert(!names.contains(x));
                        assert(names != dom);
                    }
                }
                proof {
                    assert(assigns_all(assigned@, t0.initial_pattern_vars@) <==> names == dom) by {
                        if names == dom {
                            assert forall|k: Seq<char>| #[trigger] t0.initial_pattern_vars@.contains_key(k) implies exists|i: int|
                                0 <= i < assigned@.len() && assigned@[i]@ == k by {
                                assert(names.contains(k));
                            }
                        }
                        if assigns_all(assigned@, t0.initial_pattern_vars@) {
                            assert forall|k: Seq<char>| dom.contains(k) implies names.contains(k) by {
                                assert(t0.initial_pattern_vars@.contains_key(k));
                            }
                            assert(names =~= dom);
                        }
                    }
                }
                if assigned.len() != n {
                    let mut i: usize = 0;
                    while i < assigned.len()
                        invariant
                            i <= assigned@.len(),
                            self.environment == tb.environment,
                            self.hydrator == tb.hydrator,
                            self.mode == tb.mode,
                            tb.mode == PatternMode::Alternative(*assigned),
                            self.initial_pattern_vars@ == t0.initial_pattern_vars@.remove_keys(
                                Set::new(|k: Seq<char>| exists|j: int| 0 <= j < i && assigned@[j]@ == k),
                            ),
                        decreases assigned@.len() - i,
                    {
                        proof {
                            assert(Set::new(|k: Seq<char>| exists|j: int| 0 <= j < i + 1 && assigned@[j]@ == k) =~= Set::new(
                                |k: Seq<char>| exists|j: int| 0 <= j < i && assigned@[j]@ == k,
                            ).insert(assigned@[i as int]@));
                        }
                        self.initial_pattern_vars.remove(assigned[i].as_str());
                        proof {
                            assert(self.initial_pattern_vars@ =~= t0.initial_pattern_vars@.remove_keys(
                                Set::new(|k: Seq<char>| exists|j: int| 0 <= j < i + 1 && assigned@[j]@ == k),
                            ));
                        }
                        i = i + 1;
                    }
                    proof {
                        assert(Set::new(|k: Seq<char>| exists|j: int| 0 <= j < assigned@.len() && assigned@[j]@ == k) == names);
                        if forall|x: Seq<char>| dom.contains(x) ==> names.contains(x) {
                            assert(names =~= dom);
                        }
                        let x = choose|x: Seq<char>| dom.contains(x) && !names.contains(x);
                        assert(self.initial_pattern_vars@.contains_key(x));
                    }
                    let remaining = self.initial_pattern_vars.len();
                    assert(remaining > 0);
                    let (name, _) = self.initial_pattern_vars.entry(0);
                    proof {
                        assert(self.initial_pattern_vars@.contains_key(name@));
                        assert(!names.contains(name@));
                    }
                    Err(Error::MissingVarInAlternativePattern { location: *location, name: name.clone() })
                } else {
                    Ok(typed_pattern)
                }
            },
        }
    }
}
} // verus!
