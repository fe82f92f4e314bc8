use vstd::prelude::*;
use std::collections::HashMap;
use std::sync::Arc;
use crate::lang::ast::{Function, Span};
use crate::lang::builtins::{function, tuple};
use crate::lang::tipo::env::{Environment, same_but_ids};
use crate::lang::tipo::error::Error;
use crate::lang::tipo::hydrator::Hydrator;
use crate::lang::tipo::resolve::{res, refines, lemma_refines_refl, lemma_mat_refines, lemma_res_list_index, lemma_bind_refines};
use crate::lang::tipo::unify::{
    VarStore, TypeV, VarV, mat, mat_type, msize, store_closed, tview, type_view, types_view, var_view, type_size,
    lemma_types_view, lemma_mat_closed, lemma_mat_noop, lemma_type_view_shape, same_but_typing, free_vars, free_vars_list,
    store_bind, same_but_vars, strip, lemma_bind_closed,
};
use crate::lang::tipo::{
    FieldMap, Type, TypeVar, ValueConstructor, ValueConstructorVariant, clone_field_map, clone_types, same_field_map,
};
use crate::lang::tipo::pretty::inner;

verus! {

broadcast use vstd::std_specs::hash::group_hash_axioms;

/// The generic variables a type mentions, links followed.
pub open spec fn generics(t: TypeV) -> Set<u64>
    decreases t, 1nat,
{
    match t {
        TypeV::App { args, .. } => generics_list(args),
        TypeV::Fn { args, ret } => generics_list(args).union(generics(*ret)),
        TypeV::Var(v) => match v {
            VarV::Link(b) => generics(*b),
            VarV::Generic(id) => set![id],
            VarV::Unbound(_) => Set::empty(),
        },
        TypeV::Tuple(elems) => generics_list(elems),
    }
}

/// The generic variables the types of a list mention.
pub open spec fn generics_list(ts: Seq<TypeV>) -> Set<u64>
    decreases ts, 0nat,
{
    if ts.len() == 0 {
        Set::empty()
    } else {
        generics_list(ts.drop_last()).union(generics(ts.last()))
    }
}

/// A type with its links followed and each generic variable that `ids`
/// maps replaced by its image.
pub open spec fn inst(ids: Map<u64, TypeV>, t: TypeV) -> TypeV
    decreases t, 1nat,
{
    match t {
        TypeV::App { public, module, name, args } => TypeV::App { public, module, name, args: insts(ids, args) },
        TypeV::Fn { args, ret } => TypeV::Fn { args: insts(ids, args), ret: Box::new(inst(ids, *ret)) },
        TypeV::Var(v) => match v {
            VarV::Link(b) => inst(ids, *b),
            VarV::Generic(id) => if ids.contains_key(id) {
                ids[id]
            } else {
                t
            },
            VarV::Unbound(_) => t,
        },
        TypeV::Tuple(elems) => TypeV::Tuple(insts(ids, elems)),
    }
}

/// Each type of a list as [`inst`] gives it.
pub open spec fn insts(ids: Map<u64, TypeV>, ts: Seq<TypeV>) -> Seq<TypeV>
    decreases ts, 0nat,
{
    if ts.len() == 0 {
        Seq::empty()
    } else {
        insts(ids, ts.drop_last()).push(inst(ids, ts.last()))
    }
}

/// The values of the types a map of identifiers holds.
pub open spec fn ids_view(m: Map<u64, Arc<Type>>) -> Map<u64, TypeV> {
    Map::new(|k: u64| m.contains_key(k), |k: u64| tview(m[k]))
}

/// `m2` keeps every entry of `m1`; what it adds are fresh unbound variables
/// for generic variables of `g` that are not rigid.
pub open spec fn ids_grow(m1: Map<u64, Arc<Type>>, m2: Map<u64, Arc<Type>>, g: Set<u64>, h: Hydrator) -> bool {
    &&& forall|k: u64| #[trigger] m1.contains_key(k) ==> m2.contains_key(k) && m2[k] == m1[k]
    &&& forall|k: u64| #[trigger] m2.contains_key(k) && !m1.contains_key(k) ==> {
        &&& g.contains(k)
        &&& !h.spec_is_rigid(k)
        &&& *m2[k] matches Type::Var { tipo: TypeVar::Unbound { .. } }
    }
}

/// Every generic variable of `g` that is not rigid has an entry in `m`.
pub open spec fn covers(m: Map<u64, Arc<Type>>, g: Set<u64>, h: Hydrator) -> bool {
    forall|k: u64| #[trigger] g.contains(k) && !h.spec_is_rigid(k) ==> m.contains_key(k)
}

/// Two maps that agree on the generic variables of a type instantiate it
/// alike.
pub proof fn lemma_inst_agree(a: Map<u64, TypeV>, b: Map<u64, TypeV>, t: TypeV)
    requires
        forall|k: u64| #[trigger] generics(t).contains(k) ==> (a.contains_key(k) == b.contains_key(k)) && (
        a.contains_key(k) ==> a[k] == b[k]),
    ensures
        inst(a, t) == inst(b, t),
    decreases t, 1nat,
{
    match t {
        TypeV::App { args, .. } => {
            assert forall|k: u64| #[trigger] generics_list(args).contains(k) implies generics(t).contains(k) by {}
            lemma_insts_agree(a, b, args);
        },
        TypeV::Fn { args, ret } => {
            assert forall|k: u64| #[trigger] generics_list(args).contains(k) implies generics(t).contains(k) by {}
            assert forall|k: u64| #[trigger] generics(*ret).contains(k) implies generics(t).contains(k) by {}
            lemma_insts_agree(a, b, args);
            lemma_inst_agree(a, b, *ret);
        },
        TypeV::Var(v) => match v {
            VarV::Link(bx) => {
                assert forall|k: u64| #[trigger] generics(*bx).contains(k) implies generics(t).contains(k) by {}
                lemma_inst_agree(a, b, *bx);
            },
            VarV::Generic(id) => {
                assert(generics(t).contains(id));
            },
            VarV::Unbound(_) => {},
        },
        TypeV::Tuple(elems) => {
            assert forall|k: u64| #[trigger] generics_list(elems).contains(k) implies generics(t).contains(k) by {}
            lemma_insts_agree(a, b, elems);
        },
    }
}

pub proof fn lemma_insts_agree(a: Map<u64, TypeV>, b: Map<u64, TypeV>, ts: Seq<TypeV>)
    requires
        forall|k: u64| #[trigger] generics_list(ts).contains(k) ==> (a.contains_key(k) == b.contains_key(k)) && (
        a.contains_key(k) ==> a[k] == b[k]),
    ensures
        insts(a, ts) == insts(b, ts),
    decreases ts, 0nat,
{
    if ts.len() > 0 {
        assert forall|k: u64| #[trigger] generics_list(ts.drop_last()).contains(k) implies generics_list(ts).contains(k) by {}
        assert forall|k: u64| #[trigger] generics(ts.last()).contains(k) implies generics_list(ts).contains(k) by {}
        lemma_insts_agree(a, b, ts.drop_last());
        lemma_inst_agree(a, b, ts.last());
    }
}

pub proof fn lemma_insts_stable(
    m1: Map<u64, Arc<Type>>,
    m2: Map<u64, Arc<Type>>,
    g: Set<u64>,
    h: Hydrator,
    ts: Seq<TypeV>,
)
    requires
        covers(m1, generics_list(ts), h),
        ids_grow(m1, m2, g, h),
    ensures
        insts(ids_view(m1), ts) == insts(ids_view(m2), ts),
{
    assert forall|k: u64| #[trigger] generics_list(ts).contains(k) implies (ids_view(m1).contains_key(k)
        == ids_view(m2).contains_key(k)) && (ids_view(m1).contains_key(k) ==> ids_view(m1)[k] == ids_view(
        m2,
    )[k]) by {
        if m1.contains_key(k) {
            assert(m2.contains_key(k));
        } else {
            assert(h.spec_is_rigid(k));
            if m2.contains_key(k) {
                assert(!h.spec_is_rigid(k));
            }
        }
    }
    lemma_insts_agree(ids_view(m1), ids_view(m2), ts);
}

pub proof fn lemma_ids_grow_trans(
    m0: Map<u64, Arc<Type>>,
    m1: Map<u64, Arc<Type>>,
    m2: Map<u64, Arc<Type>>,
    g1: Set<u64>,
    g2: Set<u64>,
    h: Hydrator,
)
    requires
        ids_grow(m0, m1, g1, h),
        ids_grow(m1, m2, g2, h),
    ensures
        ids_grow(m0, m2, g1.union(g2), h),
{
    assert forall|k: u64| #[trigger] m2.contains_key(k) && !m0.contains_key(k) implies {
        &&& g1.union(g2).contains(k)
        &&& !h.spec_is_rigid(k)
        &&& *m2[k] matches Type::Var { tipo: TypeVar::Unbound { .. } }
    } by {
        if m1.contains_key(k) {
            assert(m2[k] == m1[k]);
        }
    }
}

impl<'a> Environment<'a> {
    /// A type with its links followed and each generic variable that is not
    /// rigid replaced by the type `ids` maps it to; a variable `ids` does not
    /// map yet is mapped to a fresh unbound variable first.
    pub fn instantiate(&mut self, t: Arc<Type>, ids: &mut HashMap<u64, Arc<Type>>, hydrator: &Hydrator) -> (r:
        Arc<Type>)
        ensures
            same_but_ids(*final(self), *old(self)),
            ids_grow(old(ids)@, final(ids)@, generics(mat(old(self).vars@, tview(t))), *hydrator),
            covers(final(ids)@, generics(mat(old(self).vars@, tview(t))), *hydrator),
            tview(r) == inst(ids_view(final(ids)@), mat(old(self).vars@, tview(t))),
    {
        let m = mat_type(&self.vars, &*t);
        self.instantiate_type(&*m, ids, hydrator)
    }

    fn instantiate_type(&mut self, t: &Type, ids: &mut HashMap<u64, Arc<Type>>, hydrator: &Hydrator) -> (r:
        Arc<Type>)
        ensures
            same_but_ids(*final(self), *old(self)),
            ids_grow(old(ids)@, final(ids)@, generics(type_view(*t)), *hydrator),
            covers(final(ids)@, generics(type_view(*t)), *hydrator),
            tview(r) == inst(ids_view(final(ids)@), type_view(*t)),
        decreases *t, 1nat,
    {
        match t {
            Type::App { public, name, module, args } => {
                proof {
                    assert(decreases_to!(*t => *args));
                    assert(decreases_to!(*args => args@));
                }
                let a = self.instantiate_types(args, ids, hydrator);
                let n2 = name.clone();
                let m2 = module.clone();
                let r = Arc::new(Type::App { public: *public, name: n2, module: m2, args: a });
                proof {
                    assert(type_view(*t) == TypeV::App { public: *public, module: module@, name: name@, args: types_view(args@) });
                    assert(type_view(*r) == TypeV::App { public: *public, module: module@, name: name@, args: types_view(a@) });
                }
                r
            },
            Type::Var { tipo } => match tipo {
                TypeVar::Link { tipo: inner } => {
                    proof {
                        assert(decreases_to!(*t => *tipo));
                        assert(decreases_to!(*tipo => *inner));
                        assert(var_view(*tipo) == VarV::Link(Box::new(type_view(**inner))));
                        assert(type_view(*t) == TypeV::Var(VarV::Link(Box::new(type_view(**inner)))));
                    }
                    self.instantiate_type(&**inner, ids, hydrator)
                },
                TypeVar::Unbound { id } => Arc::new(Type::Var { tipo: TypeVar::Unbound { id: *id } }),
                TypeVar::Generic { id } => {
                    proof {
                        assert(var_view(*tipo) == VarV::Generic(*id));
                        assert(type_view(*t) == TypeV::Var(VarV::Generic(*id)));
                    }
                    match ids.get(id) {
                        Some(v) => v.clone(),
                        None => {
                            if !hydrator.is_rigid(id) {
                                let v = self.new_unbound_var();
                                ids.insert(*id, v.clone());
                                proof {
                                    assert(generics(type_view(*t)).contains(*id));
                                }
                                v
                            } else {
                                Arc::new(Type::Var { tipo: TypeVar::Generic { id: *id } })
                            }
                        },
                    }
                },
            },
            Type::Fn { args, ret } => {
                proof {
                    assert(decreases_to!(*t => *args));
                    assert(decreases_to!(*args => args@));
                    assert(decreases_to!(*t => *ret));
                }
                let ghost ids0 = ids@;
                let a = self.instantiate_types(args, ids, hydrator);
                let ghost ids1 = ids@;
                let r = self.instantiate_type(&**ret, ids, hydrator);
                proof {
                    let ga = generics_list(types_view(args@));
                    let gr = generics(tview(*ret));
                    lemma_insts_stable(ids1, ids@, gr, *hydrator, types_view(args@));
                    lemma_ids_grow_trans(ids0, ids1, ids@, ga, gr, *hydrator);
                    assert(generics(type_view(*t)) == ga.union(gr));
                }
                function(a, r)
            },
            Type::Tuple { elems } => {
                proof {
                    assert(decreases_to!(*t => *elems));
                    assert(decreases_to!(*elems => elems@));
                }
                let a = self.instantiate_types(elems, ids, hydrator);
                tuple(a)
            },
        }
    }

    fn instantiate_types(&mut self, ts: &Vec<Arc<Type>>, ids: &mut HashMap<u64, Arc<Type>>, hydrator: &Hydrator) -> (r:
        Vec<Arc<Type>>)
        ensures
            same_but_ids(*final(self), *old(self)),
            ids_grow(old(ids)@, final(ids)@, generics_list(types_view(ts@)), *hydrator),
            covers(final(ids)@, generics_list(types_view(ts@)), *hydrator),
            types_view(r@) == insts(ids_view(final(ids)@), types_view(ts@)),
        decreases ts@, 0nat,
    {
        let ghost e0 = *self;
        let ghost ids0 = ids@;
        let mut r: Vec<Arc<Type>> = Vec::new();
        let mut i: usize = 0;
        proof {
            lemma_types_view(ts@);
            assert(types_view(ts@).take(0) =~= Seq::<TypeV>::empty());
        }
        while i < ts.len()
            invariant
                i <= ts@.len(),
                types_view(ts@).len() == ts@.len(),
                forall|j: int| 0 <= j < ts@.len() ==> #[trigger] types_view(ts@)[j] == type_view(*ts@[j]),
                same_but_ids(*self, e0),
                ids_grow(ids0, ids@, generics_list(types_view(ts@).take(i as int)), *hydrator),
                covers(ids@, generics_list(types_view(ts@).take(i as int)), *hydrator),
                types_view(r@) == insts(ids_view(ids@), types_view(ts@).take(i as int)),
            decreases ts@.len() - i,
        {
            proof {
                assert(decreases_to!(ts@ => ts@[i as int]));
            }
            let ghost before = r@;
            let ghost idsb = ids@;
            let ghost pre = types_view(ts@).take(i as int);
            let x = self.instantiate_type(&*ts[i], ids, hydrator);
            r.push(x);
            proof {
                let cur = types_view(ts@).take(i + 1);
                assert(cur.drop_last() =~= pre);
                assert(cur.last() == type_view(*ts@[i as int]));
                lemma_insts_stable(idsb, ids@, generics(cur.last()), *hydrator, pre);
                lemma_ids_grow_trans(ids0, idsb, ids@, generics_list(pre), generics(cur.last()), *hydrator);
                assert(generics_list(cur) == generics_list(pre).union(generics(cur.last())));
                assert(r@.drop_last() =~= before);
                assert forall|k: u64| #[trigger] generics_list(cur).contains(k) && !hydrator.spec_is_rigid(k)
                    implies ids@.contains_key(k) by {
                    if generics_list(pre).contains(k) {
                        assert(idsb.contains_key(k));
                    }
                }
            }
            i = i + 1;
        }
        proof {
            assert(types_view(ts@).take(ts@.len() as int) =~= types_view(ts@));
        }
        r
    }
}

/// The value of a function type with the given arguments and return type.
pub open spec fn fn_view(args: Seq<Arc<Type>>, ret: Arc<Type>) -> TypeV {
    TypeV::Fn { args: types_view(args), ret: Box::new(tview(ret)) }
}

impl<'a> Environment<'a> {
    /// Links the unbound variable that `tipo` shows under the store to the
    /// function of the given argument and return types, as the store shows
    /// them.
    pub fn bind_function(&mut self, tipo: Arc<Type>, args: Vec<Arc<Type>>, ret: Arc<Type>) -> (r: (Vec<Arc<Type>>, Arc<Type>))
        requires
            store_closed(old(self).vars@),
            mat(old(self).vars@, tview(tipo)) is Var,
            mat(old(self).vars@, tview(tipo))->Var_0 is Unbound,
        ensures
            r.0@ == args@ && r.1 == ret,
            refines(old(self).vars@, final(self).vars@),
            same_but_vars(*final(self), *old(self)),
            ({
                let v = mat(old(self).vars@, tview(tipo))->Var_0->Unbound_0;
                let f = mat(old(self).vars@, fn_view(args@, ret));
                &&& final(self).vars@ == store_bind(old(self).vars@, v, VarV::Link(Box::new(f)))
                &&& !free_vars(f).contains(v) ==> store_closed(final(self).vars@) && res(
                    mat(final(self).vars@, fn_view(args@, ret)),
                ) == res(mat(final(self).vars@, tview(tipo)))
            }),
    {
        let ghost s0 = self.vars@;
        let m = mat_type(&self.vars, &*tipo);
        proof {
            lemma_type_view_shape(inner(m));
            lemma_mat_closed(s0, tview(tipo));
        }
        let id = match &*m {
            Type::Var { tipo: TypeVar::Unbound { id } } => *id,
            _ => {
                proof {
                    assert(false);
                }
                0
            },
        };
        let f = function(clone_types(&args), ret.clone());
        let mf = mat_type(&self.vars, &*f);
        let ghost gf = tview(mf);
        proof {
            assert(tview(f) == fn_view(args@, ret));
            assert(type_view(*m) == TypeV::Var(VarV::Unbound(id)));
            assert(!s0.contains_key(id)) by {
                if s0.contains_key(id) {
                    assert(free_vars(type_view(*m)).contains(id));
                }
            }
            lemma_mat_closed(s0, tview(f));
            lemma_bind_refines(s0, id, VarV::Link(Box::new(gf)));
        }
        self.vars.bind(id, TypeVar::Link { tipo: mf });
        proof {
            let sf = self.vars@;
            if !free_vars(gf).contains(id) {
                lemma_bind_closed(s0, id, VarV::Link(Box::new(gf)));
                lemma_mat_refines(s0, sf, tview(tipo));
                lemma_mat_refines(s0, sf, tview(f));
                lemma_mat_noop(sf, gf);
                assert(sf[id] == VarV::Link(Box::new(gf)));
                assert(mat(sf, type_view(*m)) == TypeV::Var(VarV::Link(Box::new(gf))));
            }
        }
        (args, ret)
    }
}

impl<'a> Environment<'a> {
    /// The argument and return types of a type that is used as a function of
    /// `arity` arguments. An unbound variable becomes a function of fresh
    /// unbound variables; a function of another arity, or a type that is no
    /// function, is refused.
    pub fn match_fun_type(&mut self, tipo: Arc<Type>, arity: usize, fn_location: Span, call_location: Span) -> (r:
        Result<(Vec<Arc<Type>>, Arc<Type>), Error>)
        requires
            store_closed(old(self).vars@),
        ensures
            refines(old(self).vars@, final(self).vars@),
            same_but_typing(*final(self), *old(self)),
            ({
                let rt = res(mat(old(self).vars@, tview(tipo)));
                match rt {
                    TypeV::Fn { args, .. } => {
                        &&& final(self).vars@ == old(self).vars@
                        &&& (args.len() == arity <==> r is Ok)
                        &&& r matches Ok(p) ==> p.0@.len() == arity && res(mat(final(self).vars@, fn_view(p.0@, p.1))) == rt
                        &&& args.len() != arity ==> r == Err::<(Vec<Arc<Type>>, Arc<Type>), Error>(
                            Error::IncorrectFunctionCallArity { expected: args.len() as usize, given: arity, location: call_location },
                        )
                    },
                    TypeV::Var(VarV::Unbound(v)) => r matches Ok(p) && {
                        let f = mat(old(self).vars@, fn_view(p.0@, p.1));
                        &&& p.0@.len() == arity
                        &&& forall|i: int| 0 <= i < p.0@.len() ==> #[trigger] tview(p.0@[i]) is Var && tview(p.0@[i])->Var_0 is Unbound
                        &&& tview(p.1) is Var && tview(p.1)->Var_0 is Unbound
                        &&& final(self).vars@ == store_bind(old(self).vars@, v, VarV::Link(Box::new(f)))
                        &&& !free_vars(f).contains(v) ==> store_closed(final(self).vars@) && res(
                            mat(final(self).vars@, fn_view(p.0@, p.1)),
                        ) == res(mat(final(self).vars@, tview(tipo)))
                    },
                    _ => {
                        &&& final(self).vars@ == old(self).vars@
                        &&& r matches Err(Error::NotFn { tipo: t, location: l }) && l == fn_location && mat(
                            old(self).vars@,
                            tview(t),
                        ) == strip(mat(old(self).vars@, tview(tipo)))
                    },
                }
            }),
        decreases msize(old(self).vars@, tipo),
    {
        let ghost s0 = self.vars@;
        let m = mat_type(&self.vars, &*tipo);
        proof {
            lemma_mat_closed(s0, tview(tipo));
            lemma_type_view_shape(inner(m));
            lemma_refines_refl(s0);
        }
        match &*m {
            Type::Var { tipo: TypeVar::Link { tipo: inner } } => {
                proof {
                    assert(var_view(TypeVar::Link { tipo: *inner }) == VarV::Link(Box::new(type_view(**inner))));
                    assert(type_view(*m) == TypeV::Var(VarV::Link(Box::new(type_view(**inner)))));
                    lemma_mat_noop(s0, tview(*inner));
                }
                let out = self.match_fun_type(inner.clone(), arity, fn_location, call_location);
                proof {
                    let sf = self.vars@;
                    lemma_mat_refines(s0, sf, tview(tipo));
                    assert(mat(sf, type_view(*m)) == TypeV::Var(VarV::Link(Box::new(mat(sf, tview(*inner))))));
                }
                out
            },
            Type::Var { tipo: TypeVar::Unbound { .. } } => {
                let ghost e0 = *self;
                let mut args: Vec<Arc<Type>> = Vec::new();
                let mut i: usize = 0;
                while i < arity
                    invariant
                        i <= arity,
                        args@.len() == i,
                        same_but_ids(*self, e0),
                        forall|j: int| 0 <= j < i ==> #[trigger] tview(args@[j]) is Var && tview(args@[j])->Var_0 is Unbound,
                    decreases arity - i,
                {
                    let v = self.new_unbound_var();
                    proof {
                        assert(var_view(TypeVar::Unbound { id: self.previous_id }) == VarV::Unbound(self.previous_id));
                    }
                    args.push(v);
                    i = i + 1;
                }
                let ret = self.new_unbound_var();
                proof {
                    assert(var_view(TypeVar::Unbound { id: self.previous_id }) == VarV::Unbound(self.previous_id));
                    assert(type_view(*m) == mat(s0, tview(tipo)));
                }
                let p = self.bind_function(tipo, args, ret);
                Ok(p)
            },
            Type::Fn { args, ret } => {
                proof {
                    lemma_types_view(args@);
                    lemma_res_list_index(types_view(args@));
                    assert(type_view(*m) == fn_view(args@, *ret));
                }
                if args.len() != arity {
                    Err(Error::IncorrectFunctionCallArity { expected: args.len(), given: arity, location: call_location })
                } else {
                    let a = clone_types(args);
                    let r = ret.clone();
                    proof {
                        lemma_mat_noop(s0, fn_view(args@, *ret));
                    }
                    Ok((a, r))
                }
            },
            _ => {
                Err(Error::NotFn { tipo, location: fn_location })
            },
        }
    }
}

/// The field map of a value's variant, where the variant has one.
pub open spec fn variant_field_map(v: ValueConstructorVariant) -> Option<FieldMap> {
    match v {
        ValueConstructorVariant::ModuleFn { field_map, .. } => field_map,
        ValueConstructorVariant::Record { field_map, .. } => field_map,
        _ => None,
    }
}

fn field_map_of(v: &ValueConstructorVariant) -> (r: Option<FieldMap>)
    ensures
        same_field_map(variant_field_map(*v), r),
{
    match v {
        ValueConstructorVariant::ModuleFn { field_map, .. } => clone_field_map(field_map),
        ValueConstructorVariant::Record { field_map, .. } => clone_field_map(field_map),
        _ => None,
    }
}

/// `v` is the module value of a function defined at `location` under
/// `name`, public or not, taking `arity` arguments, in module `module`, whose
/// preregistered value in scope is `scoped`: a module function with the field
/// map of `scoped`, and the type of `scoped`, generalised under the store
/// `vars` when `generalised` holds.
pub open spec fn defined_function(
    v: ValueConstructor,
    name: Seq<char>,
    public: bool,
    arity: nat,
    location: Span,
    module: Seq<char>,
    scoped: ValueConstructor,
    generalised: bool,
    vars: Map<u64, VarV>,
) -> bool {
    &&& v.public == public
    &&& v.variant matches ValueConstructorVariant::ModuleFn {
        name: n,
        field_map,
        module: m,
        arity: a,
        location: l,
        builtin,
    } && n@ == name && same_field_map(field_map, variant_field_map(scoped.variant)) && m@ == module
        && a == arity && l == location && builtin is None
    &&& if generalised {
        tview(v.tipo) == gen(mat(vars, tview(scoped.tipo)))
    } else {
        v.tipo == scoped.tipo
    }
}

impl<'a> Environment<'a> {
    /// Records a checked function as a value of the module. Its type is the
    /// one preregistered in scope, generalised if the function was waiting
    /// for it; the definition itself is handed back unchanged.
    pub fn generalise_definition<T, A, E, N>(&mut self, def: Function<T, A, E, N>, module_name: &String) -> (r:
        Function<T, A, E, N>)
        requires
            old(self).scope@.contains_key(def.name@),
        ensures
            r == def,
            final(self).ungeneralised_functions@ == old(self).ungeneralised_functions@.remove(def.name@),
            final(self).module_values@ == old(self).module_values@.insert(
                def.name@,
                final(self).module_values@[def.name@],
            ),
            defined_function(
                final(self).module_values@[def.name@],
                def.name@,
                def.public,
                def.arguments@.len(),
                def.location,
                module_name@,
                old(self).scope@[def.name@],
                old(self).ungeneralised_functions@.contains_key(def.name@),
                old(self).vars@,
            ),
            *final(self) == (Environment {
                module_values: final(self).module_values,
                ungeneralised_functions: final(self).ungeneralised_functions,
                ..*old(self)
            }),
    {
        let (field_map, tipo) = match self.get_variable(def.name.as_str()) {
            Some(f) => (field_map_of(&f.variant), f.tipo.clone()),
            None => {
                proof {
                    assert(false);
                }
                return def;
            },
        };
        let tipo = match self.ungeneralised_functions.remove(def.name.as_str()) {
            Some(_) => generalise(&self.vars, tipo, 0),
            None => tipo,
        };
        let value = ValueConstructor {
            public: def.public,
            tipo,
            variant: ValueConstructorVariant::ModuleFn {
                name: def.name.clone(),
                field_map,
                module: module_name.clone(),
                arity: def.arguments.len(),
                location: def.location,
                builtin: None,
            },
        };
        self.insert_module_value(def.name.as_str(), value);
        def
    }
}

/// A type with its links followed and each unbound variable made a generic
/// variable of the same identifier.
pub open spec fn gen(t: TypeV) -> TypeV
    decreases t, 1nat,
{
    match t {
        TypeV::App { public, module, name, args } => TypeV::App { public, module, name, args: gens(args) },
        TypeV::Fn { args, ret } => TypeV::Fn { args: gens(args), ret: Box::new(gen(*ret)) },
        TypeV::Var(v) => match v {
            VarV::Unbound(id) => TypeV::Var(VarV::Generic(id)),
            VarV::Link(b) => gen(*b),
            VarV::Generic(_) => t,
        },
        TypeV::Tuple(elems) => TypeV::Tuple(gens(elems)),
    }
}

/// Each type of a list as [`gen`] gives it.
pub open spec fn gens(ts: Seq<TypeV>) -> Seq<TypeV>
    decreases ts, 0nat,
{
    if ts.len() == 0 {
        Seq::empty()
    } else {
        gens(ts.drop_last()).push(gen(ts.last()))
    }
}

/// A type in which every variable is generic: no unbound variable and no link.
pub open spec fn settled(t: TypeV) -> bool
    decreases t, 1nat,
{
    match t {
        TypeV::App { args, .. } => settled_list(args),
        TypeV::Fn { args, ret } => settled_list(args) && settled(*ret),
        TypeV::Var(v) => v is Generic,
        TypeV::Tuple(elems) => settled_list(elems),
    }
}

/// Each type of a list [`settled`].
pub open spec fn settled_list(ts: Seq<TypeV>) -> bool
    decreases ts, 0nat,
{
    if ts.len() == 0 {
        true
    } else {
        settled_list(ts.drop_last()) && settled(ts.last())
    }
}

/// What [`gen`] gives is settled, holds no unbound variable, and is left as
/// it is by a second [`gen`].
pub proof fn lemma_gen_settled(t: TypeV)
    ensures
        settled(gen(t)),
        free_vars(gen(t)).is_empty(),
        gen(gen(t)) == gen(t),
    decreases t, 1nat,
{
    match t {
        TypeV::App { args, .. } => lemma_gens_settled(args),
        TypeV::Fn { args, ret } => {
            lemma_gens_settled(args);
            lemma_gen_settled(*ret);
            assert(free_vars(gen(t)) =~= Set::<u64>::empty());
        },
        TypeV::Var(v) => match v {
            VarV::Link(b) => lemma_gen_settled(*b),
            _ => {
                assert(free_vars(gen(t)) =~= Set::<u64>::empty());
            },
        },
        TypeV::Tuple(elems) => lemma_gens_settled(elems),
    }
}

/// [`lemma_gen_settled`] for each type of a list.
pub proof fn lemma_gens_settled(ts: Seq<TypeV>)
    ensures
        gens(ts).len() == ts.len(),
        settled_list(gens(ts)),
        free_vars_list(gens(ts)).is_empty(),
        gens(gens(ts)) == gens(ts),
    decreases ts, 0nat,
{
    if ts.len() == 0 {
        assert(free_vars_list(gens(ts)) =~= Set::<u64>::empty());
    } else {
        lemma_gens_settled(ts.drop_last());
        lemma_gen_settled(ts.last());
        let u = gens(ts);
        assert(u.drop_last() =~= gens(ts.drop_last()));
        assert(u.last() == gen(ts.last()));
        assert(free_vars_list(u) =~= Set::<u64>::empty());
        assert(gens(u) =~= u);
    }
}

/// Generalisation closes a type: whatever the store, the result of
/// [`generalise`] holds no unbound variable and no link, and generalising
/// that result again, under the same store, gives it back unchanged.
pub proof fn law_generalise_closed(s: Map<u64, VarV>, t: TypeV)
    ensures
        settled(gen(mat(s, t))),
        free_vars(gen(mat(s, t))).is_empty(),
        gen(mat(s, gen(mat(s, t)))) == gen(mat(s, t)),
{
    lemma_gen_settled(mat(s, t));
    lemma_mat_noop(s, gen(mat(s, t)));
}

/// The identifier of a variable that is not a link.
pub open spec fn var_id(v: VarV) -> Option<u64> {
    match v {
        VarV::Unbound(id) => Some(id),
        VarV::Generic(id) => Some(id),
        VarV::Link(_) => None,
    }
}

/// Two types are built alike but for the states of their variables: links
/// followed on both sides, the same constructors, with the same publicity,
/// module, name and number of arguments, all the way down, and a variable
/// wherever the other has a variable of the same identifier, bound or not.
pub open spec fn same_frame(a: TypeV, b: TypeV) -> bool
    decreases a, b,
{
    if let TypeV::Var(VarV::Link(x)) = a {
        same_frame(*x, b)
    } else if let TypeV::Var(VarV::Link(y)) = b {
        same_frame(a, *y)
    } else {
        match a {
            TypeV::Var(v) => b matches TypeV::Var(w) && var_id(v) == var_id(w),
            TypeV::App { public: p1, module: m1, name: n1, args: x1 } => match b {
                TypeV::App { public: p2, module: m2, name: n2, args: x2 } => p1 == p2 && m1 == m2 && n1 == n2
                    && x1.len() == x2.len() && forall|i: int| 0 <= i < x1.len() ==> same_frame(#[trigger] x1[i], x2[i]),
                _ => false,
            },
            TypeV::Fn { args: x1, ret: r1 } => match b {
                TypeV::Fn { args: x2, ret: r2 } => x1.len() == x2.len() && (forall|i: int|
                    0 <= i < x1.len() ==> same_frame(#[trigger] x1[i], x2[i])) && same_frame(*r1, *r2),
                _ => false,
            },
            TypeV::Tuple(x1) => match b {
                TypeV::Tuple(x2) => x1.len() == x2.len() && forall|i: int| 0 <= i < x1.len() ==> same_frame(#[trigger] x1[i], x2[i]),
                _ => false,
            },
        }
    }
}

/// Each type of a list generalised, position by position.
pub proof fn lemma_gens_index(ts: Seq<TypeV>, i: int)
    requires
        0 <= i < ts.len(),
    ensures
        gens(ts).len() == ts.len(),
        gens(ts)[i] == gen(ts[i]),
    decreases ts.len(),
{
    lemma_gens_settled(ts);
    lemma_gens_settled(ts.drop_last());
    if i < ts.len() - 1 {
        lemma_gens_index(ts.drop_last(), i);
    }
}

/// Generalising changes nothing but variables: the type it gives is built
/// as the type it is given, constructor for constructor, with the same
/// publicity, module, name and arity, and each variable keeps its
/// identifier.
pub proof fn law_gen_keeps_frame(t: TypeV)
    ensures
        same_frame(gen(t), t),
    decreases t, 1nat,
{
    match t {
        TypeV::App { args, .. } => {
            law_gens_keep_frame(args);
        },
        TypeV::Fn { args, ret } => {
            law_gens_keep_frame(args);
            law_gen_keeps_frame(*ret);
        },
        TypeV::Var(v) => match v {
            VarV::Link(b) => {
                law_gen_keeps_frame(*b);
                lemma_gen_settled(*b);
                lemma_frame_link_right(gen(*b), *b);
            },
            _ => {},
        },
        TypeV::Tuple(elems) => {
            law_gens_keep_frame(elems);
        },
    }
}

/// [`law_gen_keeps_frame`] for each type of a list.
pub proof fn law_gens_keep_frame(ts: Seq<TypeV>)
    ensures
        gens(ts).len() == ts.len(),
        forall|i: int| 0 <= i < ts.len() ==> same_frame(#[trigger] gens(ts)[i], ts[i]),
    decreases ts, 0nat,
{
    lemma_gens_settled(ts);
    assert forall|i: int| 0 <= i < ts.len() implies same_frame(#[trigger] gens(ts)[i], ts[i]) by {
        lemma_gens_index(ts, i);
        law_gen_keeps_frame(ts[i]);
    }
}

/// A link on the right of [`same_frame`] may be followed when the left is
/// settled.
proof fn lemma_frame_link_right(a: TypeV, y: TypeV)
    requires
        settled(a),
    ensures
        same_frame(a, TypeV::Var(VarV::Link(Box::new(y)))) == same_frame(a, y),
{
}

/// [`generalise`] keeps the frame of the type as the store shows it: only
/// the states of its variables change.
pub proof fn law_generalise_keeps_frame(s: Map<u64, VarV>, t: TypeV)
    ensures
        same_frame(gen(mat(s, t)), mat(s, t)),
{
    law_gen_keeps_frame(mat(s, t));
}

/// A type as the store shows it, with every unbound variable made generic,
/// so that each use of a value of the type instantiates it afresh.
pub fn generalise(vars: &VarStore, t: Arc<Type>, ctx_level: usize) -> (r: Arc<Type>)
    ensures
        tview(r) == gen(mat(vars@, tview(t))),
{
    let m = mat_type(vars, &*t);
    generalise_type(&*m, ctx_level)
}

fn generalise_type(t: &Type, ctx_level: usize) -> (r: Arc<Type>)
    ensures
        tview(r) == gen(type_view(*t)),
    decreases *t, 1nat,
{
    match t {
        Type::Var { tipo } => match tipo {
            TypeVar::Unbound { id } => {
                proof {
                    assert(var_view(*tipo) == VarV::Unbound(*id));
                    assert(type_view(*t) == TypeV::Var(VarV::Unbound(*id)));
                }
                let r = crate::lang::builtins::generic_var(*id);
                proof {
                    assert(var_view(TypeVar::Generic { id: *id }) == VarV::Generic(*id));
                    assert(tview(r) == TypeV::Var(VarV::Generic(*id)));
                }
                r
            },
            TypeVar::Link { tipo: inner_t } => {
                proof {
                    assert(decreases_to!(*t => *tipo));
                    assert(decreases_to!(*tipo => *inner_t));
                    assert(var_view(*tipo) == VarV::Link(Box::new(type_view(**inner_t))));
                    assert(type_view(*t) == TypeV::Var(VarV::Link(Box::new(type_view(**inner_t)))));
                }
                generalise_type(&**inner_t, ctx_level)
            },
            TypeVar::Generic { id } => {
                proof {
                    assert(var_view(*tipo) == VarV::Generic(*id));
                    assert(type_view(*t) == TypeV::Var(VarV::Generic(*id)));
                }
                let r = Arc::new(Type::Var { tipo: TypeVar::Generic { id: *id } });
                proof {
                    assert(var_view(TypeVar::Generic { id: *id }) == VarV::Generic(*id));
                }
                r
            },
        },
        Type::App { public, module, name, args } => {
            proof {
                assert(decreases_to!(*t => *args));
                assert(decreases_to!(*args => args@));
            }
            let a = generalise_types(args, ctx_level);
            let m2 = module.clone();
            let n2 = name.clone();
            let r = Arc::new(Type::App { public: *public, module: m2, name: n2, args: a });
            proof {
                assert(type_view(*t) == TypeV::App { public: *public, module: module@, name: name@, args: types_view(args@) });
                assert(type_view(*r) == TypeV::App { public: *public, module: module@, name: name@, args: types_view(a@) });
            }
            r
        },
        Type::Fn { args, ret } => {
            proof {
                assert(decreases_to!(*t => *args));
                assert(decreases_to!(*args => args@));
                assert(decreases_to!(*t => *ret));
            }
            let a = generalise_types(args, ctx_level);
            let r = generalise_type(&**ret, ctx_level);
            function(a, r)
        },
        Type::Tuple { elems } => {
            proof {
                assert(decreases_to!(*t => *elems));
                assert(decreases_to!(*elems => elems@));
            }
            let e = generalise_types(elems, ctx_level);
            tuple(e)
        },
    }
}

fn generalise_types(ts: &Vec<Arc<Type>>, ctx_level: usize) -> (r: Vec<Arc<Type>>)
    ensures
        types_view(r@) == gens(types_view(ts@)),
    decreases ts@, 0nat,
{
    let mut r: Vec<Arc<Type>> = Vec::new();
    let mut i: usize = 0;
    proof {
        assert(types_view(r@) =~= Seq::<TypeV>::empty());
        assert(types_view(ts@).take(0) =~= Seq::<TypeV>::empty());
    }
    while i < ts.len()
        invariant
            i <= ts@.len(),
            types_view(r@) == gens(types_view(ts@).take(i as int)),
        decreases ts@.len() - i,
    {
        proof {
            assert(decreases_to!(ts@ => ts@[i as int]));
        }
        let g = generalise_type(&*ts[i], ctx_level);
        let ghost before = r@;
        r.push(g);
        proof {
            lemma_types_view(ts@);
            assert(r@.drop_last() =~= before);
            let x = types_view(ts@).take(i + 1);
            assert(x.drop_last() =~= types_view(ts@).take(i as int));
            assert(x.last() == type_view(*ts@[i as int]));
        }
        i = i + 1;
    }
    proof {
        lemma_types_view(ts@);
        assert(types_view(ts@).take(ts@.len() as int) =~= types_view(ts@));
    }
    r
}

} // verus!
