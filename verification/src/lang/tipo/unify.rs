use vstd::prelude::*;
use std::sync::Arc;
use crate::lang::ast::Span;
use crate::lang::tipo::env::Environment;
use crate::lang::tipo::error::{not_missing, Error};
use crate::lang::tipo::{Type, TypeVar};
use crate::text::str_eq;
use crate::lang::tipo::pretty::inner;
use crate::lang::tipo::resolve::{
    res, res_list, refines, agree, lemma_refines_refl, lemma_refines_trans, lemma_bind_refines, lemma_mat_refines,
    lemma_agree_all_refines, lemma_agree_lists,
};

verus! {

/// A type as a mathematical value.
pub enum TypeV {
    App { public: bool, module: Seq<char>, name: Seq<char>, args: Seq<TypeV> },
    Fn { args: Seq<TypeV>, ret: Box<TypeV> },
    Var(VarV),
    Tuple(Seq<TypeV>),
}

/// The state of a type variable as a mathematical value.
pub enum VarV {
    Unbound(u64),
    Link(Box<TypeV>),
    Generic(u64),
}

/// The value of a type.
pub open spec fn type_view(t: Type) -> TypeV
    decreases t, 2nat,
{
    match t {
        Type::App { public, module, name, args } => TypeV::App {
            public,
            module: module@,
            name: name@,
            args: types_view(args@),
        },
        Type::Fn { args, ret } => TypeV::Fn { args: types_view(args@), ret: Box::new(type_view(*ret)) },
        Type::Var { tipo } => TypeV::Var(var_view(tipo)),
        Type::Tuple { elems } => TypeV::Tuple(types_view(elems@)),
    }
}

/// The value of a type variable.
pub open spec fn var_view(v: TypeVar) -> VarV
    decreases v, 1nat,
{
    match v {
        TypeVar::Unbound { id } => VarV::Unbound(id),
        TypeVar::Link { tipo } => VarV::Link(Box::new(type_view(*tipo))),
        TypeVar::Generic { id } => VarV::Generic(id),
    }
}

/// The values of a list of types.
pub open spec fn types_view(ts: Seq<Arc<Type>>) -> Seq<TypeV>
    decreases ts, 0nat,
{
    if ts.len() == 0 {
        Seq::empty()
    } else {
        types_view(ts.drop_last()).push(type_view(*ts.last()))
    }
}

pub proof fn lemma_types_view(ts: Seq<Arc<Type>>)
    ensures
        types_view(ts).len() == ts.len(),
        forall|i: int| 0 <= i < ts.len() ==> #[trigger] types_view(ts)[i] == type_view(*ts[i]),
    decreases ts.len(),
{
    if ts.len() > 0 {
        lemma_types_view(ts.drop_last());
        assert forall|i: int| 0 <= i < ts.len() implies #[trigger] types_view(ts)[i] == type_view(*ts[i]) by {
            if i < ts.len() - 1 {
                assert(ts.drop_last()[i] == ts[i]);
            }
        }
    }
}

/// The unbound variables written in a type, links followed.
pub open spec fn free_vars(t: TypeV) -> Set<u64>
    decreases t, 1nat,
{
    match t {
        TypeV::App { args, .. } => free_vars_list(args),
        TypeV::Fn { args, ret } => free_vars_list(args).union(free_vars(*ret)),
        TypeV::Var(v) => match v {
            VarV::Unbound(id) => set![id],
            VarV::Link(b) => free_vars(*b),
            VarV::Generic(_) => Set::empty(),
        },
        TypeV::Tuple(elems) => free_vars_list(elems),
    }
}

/// The unbound variables written in a list of types.
pub open spec fn free_vars_list(ts: Seq<TypeV>) -> Set<u64>
    decreases ts, 0nat,
{
    if ts.len() == 0 {
        Set::empty()
    } else {
        free_vars_list(ts.drop_last()).union(free_vars(ts.last()))
    }
}

/// The number of nodes of a type.
pub open spec fn type_size(t: TypeV) -> nat
    decreases t, 1nat,
{
    match t {
        TypeV::App { args, .. } => 1 + types_size(args),
        TypeV::Fn { args, ret } => 1 + types_size(args) + type_size(*ret),
        TypeV::Var(v) => match v {
            VarV::Link(b) => 1 + type_size(*b),
            _ => 1,
        },
        TypeV::Tuple(elems) => 1 + types_size(elems),
    }
}

/// The number of nodes of a list of types.
pub open spec fn types_size(ts: Seq<TypeV>) -> nat
    decreases ts, 0nat,
{
    if ts.len() == 0 {
        0
    } else {
        types_size(ts.drop_last()) + type_size(ts.last())
    }
}

/// What a type looks like once the variables that unification bound are
/// shown in their new state: an unbound variable that the store binds
/// becomes a variable in the state the store gives it.
pub open spec fn mat(s: Map<u64, VarV>, t: TypeV) -> TypeV
    decreases t, 1nat,
{
    match t {
        TypeV::App { public, module, name, args } => TypeV::App { public, module, name, args: mats(s, args) },
        TypeV::Fn { args, ret } => TypeV::Fn { args: mats(s, args), ret: Box::new(mat(s, *ret)) },
        TypeV::Var(v) => match v {
            VarV::Unbound(id) => if s.contains_key(id) {
                TypeV::Var(s[id])
            } else {
                t
            },
            VarV::Link(b) => TypeV::Var(VarV::Link(Box::new(mat(s, *b)))),
            VarV::Generic(_) => t,
        },
        TypeV::Tuple(elems) => TypeV::Tuple(mats(s, elems)),
    }
}

/// Each type of a list as [`mat`] shows it.
pub open spec fn mats(s: Map<u64, VarV>, ts: Seq<TypeV>) -> Seq<TypeV>
    decreases ts, 0nat,
{
    if ts.len() == 0 {
        Seq::empty()
    } else {
        mats(s, ts.drop_last()).push(mat(s, ts.last()))
    }
}

/// A store in which no bound variable's link mentions a bound variable.
pub open spec fn store_closed(s: Map<u64, VarV>) -> bool {
    forall|x: u64| #[trigger] s.contains_key(x) ==> match s[x] {
        VarV::Link(b) => free_vars(*b).disjoint(s.dom()),
        VarV::Generic(_) => true,
        VarV::Unbound(_) => false,
    }
}


/// A type with the variable `v` replaced by a variable in state `st`,
/// links followed.
pub open spec fn subst(t: TypeV, v: u64, st: VarV) -> TypeV
    decreases t, 1nat,
{
    match t {
        TypeV::App { public, module, name, args } => TypeV::App { public, module, name, args: substs(args, v, st) },
        TypeV::Fn { args, ret } => TypeV::Fn { args: substs(args, v, st), ret: Box::new(subst(*ret, v, st)) },
        TypeV::Var(x) => match x {
            VarV::Unbound(id) => if id == v {
                TypeV::Var(st)
            } else {
                t
            },
            VarV::Link(b) => TypeV::Var(VarV::Link(Box::new(subst(*b, v, st)))),
            VarV::Generic(_) => t,
        },
        TypeV::Tuple(elems) => TypeV::Tuple(substs(elems, v, st)),
    }
}

/// Each type of a list with [`subst`] applied.
pub open spec fn substs(ts: Seq<TypeV>, v: u64, st: VarV) -> Seq<TypeV>
    decreases ts, 0nat,
{
    if ts.len() == 0 {
        Seq::empty()
    } else {
        substs(ts.drop_last(), v, st).push(subst(ts.last(), v, st))
    }
}

/// The state of a variable with [`subst`] applied.
pub open spec fn subst_var(x: VarV, v: u64, st: VarV) -> VarV {
    match x {
        VarV::Link(b) => VarV::Link(Box::new(subst(*b, v, st))),
        _ => x,
    }
}

/// A copy of a type variable's state.
pub fn clone_var(v: &TypeVar) -> (r: TypeVar)
    ensures
        r == *v,
{
    match v {
        TypeVar::Unbound { id } => TypeVar::Unbound { id: *id },
        TypeVar::Link { tipo } => TypeVar::Link { tipo: tipo.clone() },
        TypeVar::Generic { id } => TypeVar::Generic { id: *id },
    }
}

/// The states unification gave to type variables, by identifier.
pub struct VarStore {
    entries: Vec<(u64, TypeVar)>,
}

/// The map a list of identified states stands for.
pub open spec fn store_map(e: Seq<(u64, TypeVar)>) -> Map<u64, VarV>
    decreases e.len(),
{
    if e.len() == 0 {
        Map::empty()
    } else {
        store_map(e.drop_last()).insert(e.last().0, var_view(e.last().1))
    }
}

impl View for VarStore {
    type V = Map<u64, VarV>;

    closed spec fn view(&self) -> Map<u64, VarV> {
        store_map(self.entries@)
    }
}

pub proof fn lemma_store_map(e: Seq<(u64, TypeVar)>)
    requires
        forall|i: int, j: int| 0 <= i < e.len() && 0 <= j < e.len() && i != j ==> e[i].0 != e[j].0,
    ensures
        store_map(e).dom().finite(),
        forall|k: u64| #![trigger store_map(e).contains_key(k)]
            store_map(e).contains_key(k) <==> exists|i: int| 0 <= i < e.len() && e[i].0 == k,
        forall|i: int| #![trigger e[i]]
            0 <= i < e.len() ==> store_map(e).contains_key(e[i].0) && store_map(e)[e[i].0] == var_view(e[i].1),
    decreases e.len(),
{
    if e.len() > 0 {
        let init = e.drop_last();
        lemma_store_map(init);
        assert forall|k: u64| #![trigger store_map(e).contains_key(k)]
            store_map(e).contains_key(k) <==> exists|i: int| 0 <= i < e.len() && e[i].0 == k by {
            if store_map(e).contains_key(k) && k != e.last().0 {
                let i = choose|i: int| 0 <= i < init.len() && init[i].0 == k;
                assert(e[i].0 == k);
            }
            if exists|i: int| 0 <= i < e.len() && e[i].0 == k {
                let i = choose|i: int| 0 <= i < e.len() && e[i].0 == k;
                if i < e.len() - 1 {
                    assert(init[i].0 == k);
                }
            }
        }
        assert forall|i: int| #![trigger e[i]]
            0 <= i < e.len() implies store_map(e).contains_key(e[i].0) && store_map(e)[e[i].0] == var_view(e[i].1) by {
            if i < e.len() - 1 {
                assert(init[i] == e[i]);
                assert(e[i].0 != e.last().0);
            }
        }
    }
}

impl VarStore {
    #[verifier::type_invariant]
    spec fn inv(self) -> bool {
        forall|i: int, j: int|
            0 <= i < self.entries@.len() && 0 <= j < self.entries@.len() && i != j
                ==> self.entries@[i].0 != self.entries@[j].0
    }

    /// A store in which every variable keeps its written state.
    pub fn new() -> (s: Self)
        ensures
            s@ == Map::<u64, VarV>::empty(),
    {
        VarStore { entries: Vec::new() }
    }

    /// The state a variable was given, if any.
    pub fn get(&self, id: u64) -> (r: Option<&TypeVar>)
        ensures
            match r {
                Some(v) => self@.contains_key(id) && var_view(*v) == self@[id],
                None => !self@.contains_key(id),
            },
    {
        proof {
            use_type_invariant(self);
            lemma_store_map(self.entries@);
        }
        let mut i: usize = 0;
        while i < self.entries.len()
            invariant
                i <= self.entries@.len(),
                forall|j: int| 0 <= j < i ==> self.entries@[j].0 != id,
            decreases self.entries@.len() - i,
        {
            if self.entries[i].0 == id {
                proof {
                    use_type_invariant(self);
                    lemma_store_map(self.entries@);
                    assert(self.entries@[i as int].0 == id);
                }
                return Some(&self.entries[i].1);
            }
            i = i + 1;
        }
        None
    }
}


pub proof fn lemma_type_view_shape(t: Type)
    ensures
        (type_view(t) is App) == (t is App),
        (type_view(t) is Fn) == (t is Fn),
        (type_view(t) is Var) == (t is Var),
        (type_view(t) is Tuple) == (t is Tuple),
        t matches Type::Var { tipo } ==> (type_view(t) == TypeV::Var(var_view(tipo)) && ((var_view(tipo) is Unbound) == (tipo is Unbound)) && ((var_view(tipo) is Link) == (tipo is Link)) && ((var_view(tipo) is Generic) == (tipo is Generic))),
{
}

/// A type as [`mat`] shows it.
pub fn mat_type(s: &VarStore, t: &Type) -> (r: Arc<Type>)
    ensures
        type_view(*r) == mat(s@, type_view(*t)),
    decreases *t, 1nat,
{
    match t {
        Type::App { public, module, name, args } => {
            proof {
                assert(decreases_to!(*t => *args));
                assert(decreases_to!(*args => args@));
            }
            let a = mat_types(s, args);
            let m2 = module.clone();
            let n2 = name.clone();
            let r = Arc::new(Type::App { public: *public, module: m2, name: n2, args: a });
            proof {
                assert(m2@ == module@);
                assert(n2@ == name@);
                assert(type_view(*r) == TypeV::App { public: *public, module: module@, name: name@, args: mats(s@, types_view(args@)) });
                assert(type_view(*t) == TypeV::App { public: *public, module: module@, name: name@, args: types_view(args@) });
            }
            r
        },
        Type::Fn { args, ret } => {
            proof {
                assert(decreases_to!(*t => *args));
                assert(decreases_to!(*args => args@));
                assert(decreases_to!(*t => *ret));
            }
            let a = mat_types(s, args);
            let r = mat_type(s, &**ret);
            Arc::new(Type::Fn { args: a, ret: r })
        },
        Type::Var { tipo } => match tipo {
            TypeVar::Unbound { id } => match s.get(*id) {
                Some(st) => Arc::new(Type::Var { tipo: clone_var(st) }),
                None => Arc::new(Type::Var { tipo: TypeVar::Unbound { id: *id } }),
            },
            TypeVar::Link { tipo: inner } => {
                proof {
                    assert(decreases_to!(*t => *tipo));
                    assert(decreases_to!(*tipo => *inner));
                }
                let m = mat_type(s, &**inner);
                let r = Arc::new(Type::Var { tipo: TypeVar::Link { tipo: m } });
                proof {
                    assert(var_view(*tipo) == VarV::Link(Box::new(type_view(**inner))));
                    assert(type_view(*t) == TypeV::Var(VarV::Link(Box::new(type_view(**inner)))));
                    assert(var_view(TypeVar::Link { tipo: m }) == VarV::Link(Box::new(type_view(*m))));
                    assert(type_view(*r) == TypeV::Var(VarV::Link(Box::new(type_view(*m)))));
                }
                r
            },
            TypeVar::Generic { id } => Arc::new(Type::Var { tipo: TypeVar::Generic { id: *id } }),
        },
        Type::Tuple { elems } => {
            proof {
                assert(decreases_to!(*t => *elems));
                assert(decreases_to!(*elems => elems@));
            }
            let e = mat_types(s, elems);
            Arc::new(Type::Tuple { elems: e })
        },
    }
}

/// Each type of a list as [`mat`] shows it.
pub fn mat_types(s: &VarStore, ts: &Vec<Arc<Type>>) -> (r: Vec<Arc<Type>>)
    ensures
        types_view(r@) == mats(s@, types_view(ts@)),
    decreases ts@, 0nat,
{
    let mut r: Vec<Arc<Type>> = Vec::new();
    let mut i: usize = 0;
    proof {
        assert(types_view(r@) =~= Seq::<TypeV>::empty());
        assert(types_view(ts@).take(0) =~= Seq::<TypeV>::empty());
    }
    while i < ts.len()
        invariant
            i <= ts@.len(),
            types_view(r@) == mats(s@, types_view(ts@).take(i as int)),
        decreases ts@.len() - i,
    {
        proof {
            assert(decreases_to!(ts@ => ts@[i as int]));
        }
        let m = mat_type(s, &*ts[i]);
        let ghost before = r@;
        r.push(m);
        proof {
            lemma_types_view(ts@);
            assert(r@.drop_last() =~= before);
            let x = types_view(ts@).take(i + 1);
            assert(x.drop_last() =~= types_view(ts@).take(i as int));
            assert(x.last() == type_view(*ts@[i as int]));
        }
        i = i + 1;
    }
    proof {
        lemma_types_view(ts@);
        assert(types_view(ts@).take(ts@.len() as int) =~= types_view(ts@));
    }
    r
}

/// Whether two types are the same value.
pub fn same_type(a: &Type, b: &Type) -> (r: bool)
    ensures
        r == (type_view(*a) == type_view(*b)),
    decreases *a, 1nat,
{
    proof {
        lemma_type_view_shape(*a);
        lemma_type_view_shape(*b);
    }
    match (a, b) {
        (Type::App { public: p1, module: m1, name: n1, args: a1 }, Type::App { public: p2, module: m2, name: n2, args: a2 }) => {
            proof {
                assert(decreases_to!(*a => *a1));
                assert(decreases_to!(*a1 => a1@));
            }
            *p1 == *p2 && crate::text::str_eq(m1.as_str(), m2.as_str()) && crate::text::str_eq(
                n1.as_str(),
                n2.as_str(),
            ) && same_types(a1, a2)
        },
        (Type::Fn { args: a1, ret: r1 }, Type::Fn { args: a2, ret: r2 }) => {
            proof {
                assert(decreases_to!(*a => *a1));
                assert(decreases_to!(*a1 => a1@));
                assert(decreases_to!(*a => *r1));
            }
            same_types(a1, a2) && same_type(&**r1, &**r2)
        },
        (Type::Var { tipo: v1 }, Type::Var { tipo: v2 }) => match (v1, v2) {
            (TypeVar::Unbound { id: i1 }, TypeVar::Unbound { id: i2 }) => *i1 == *i2,
            (TypeVar::Generic { id: i1 }, TypeVar::Generic { id: i2 }) => *i1 == *i2,
            (TypeVar::Link { tipo: t1 }, TypeVar::Link { tipo: t2 }) => {
                proof {
                    assert(decreases_to!(*a => *v1));
                    assert(decreases_to!(*v1 => *t1));
                }
                same_type(&**t1, &**t2)
            },
            _ => false,
        },
        (Type::Tuple { elems: e1 }, Type::Tuple { elems: e2 }) => {
            proof {
                assert(decreases_to!(*a => *e1));
                assert(decreases_to!(*e1 => e1@));
            }
            same_types(e1, e2)
        },
        _ => false,
    }
}

/// Whether two lists of types are the same values.
pub fn same_types(a: &Vec<Arc<Type>>, b: &Vec<Arc<Type>>) -> (r: bool)
    ensures
        r == (types_view(a@) == types_view(b@)),
    decreases a@, 0nat,
{
    proof {
        lemma_types_view(a@);
        lemma_types_view(b@);
    }
    if a.len() != b.len() {
        return false;
    }
    let mut i: usize = 0;
    while i < a.len()
        invariant
            i <= a@.len(),
            a@.len() == b@.len(),
            types_view(a@).len() == a@.len(),
            types_view(b@).len() == b@.len(),
            forall|j: int| 0 <= j < a@.len() ==> #[trigger] types_view(a@)[j] == type_view(*a@[j]),
            forall|j: int| 0 <= j < b@.len() ==> #[trigger] types_view(b@)[j] == type_view(*b@[j]),
            forall|j: int| 0 <= j < i ==> type_view(*a@[j]) == type_view(*b@[j]),
        decreases a@.len() - i,
    {
        proof {
            assert(decreases_to!(a@ => a@[i as int]));
        }
        if !same_type(&*a[i], &*b[i]) {
            proof {
                assert(types_view(a@)[i as int] != types_view(b@)[i as int]);
            }
            return false;
        }
        i = i + 1;
    }
    proof {
        assert(types_view(a@) =~= types_view(b@));
    }
    true
}


/// A type with [`subst`] applied.
pub fn subst_type(t: &Type, v: u64, st: &TypeVar) -> (r: Arc<Type>)
    ensures
        type_view(*r) == subst(type_view(*t), v, var_view(*st)),
    decreases *t, 1nat,
{
    proof {
        lemma_type_view_shape(*t);
    }
    match t {
        Type::App { public, module, name, args } => {
            proof {
                assert(decreases_to!(*t => *args));
                assert(decreases_to!(*args => args@));
            }
            let a = subst_types(args, v, st);
            Arc::new(Type::App { public: *public, module: module.clone(), name: name.clone(), args: a })
        },
        Type::Fn { args, ret } => {
            proof {
                assert(decreases_to!(*t => *args));
                assert(decreases_to!(*args => args@));
                assert(decreases_to!(*t => *ret));
            }
            let a = subst_types(args, v, st);
            let r = subst_type(&**ret, v, st);
            Arc::new(Type::Fn { args: a, ret: r })
        },
        Type::Var { tipo } => match tipo {
            TypeVar::Unbound { id } => if *id == v {
                Arc::new(Type::Var { tipo: clone_var(st) })
            } else {
                Arc::new(Type::Var { tipo: TypeVar::Unbound { id: *id } })
            },
            TypeVar::Link { tipo: inner } => {
                proof {
                    assert(decreases_to!(*t => *tipo));
                    assert(decreases_to!(*tipo => *inner));
                }
                let m = subst_type(&**inner, v, st);
                let r = Arc::new(Type::Var { tipo: TypeVar::Link { tipo: m } });
                proof {
                    assert(type_view(*t) == TypeV::Var(VarV::Link(Box::new(type_view(**inner)))));
                    assert(var_view(TypeVar::Link { tipo: m }) == VarV::Link(Box::new(type_view(*m))));
                    assert(type_view(*r) == TypeV::Var(VarV::Link(Box::new(type_view(*m)))));
                }
                r
            },
            TypeVar::Generic { id } => Arc::new(Type::Var { tipo: TypeVar::Generic { id: *id } }),
        },
        Type::Tuple { elems } => {
            proof {
                assert(decreases_to!(*t => *elems));
                assert(decreases_to!(*elems => elems@));
            }
            let e = subst_types(elems, v, st);
            Arc::new(Type::Tuple { elems: e })
        },
    }
}

/// Each type of a list with [`subst`] applied.
pub fn subst_types(ts: &Vec<Arc<Type>>, v: u64, st: &TypeVar) -> (r: Vec<Arc<Type>>)
    ensures
        types_view(r@) == substs(types_view(ts@), v, var_view(*st)),
    decreases ts@, 0nat,
{
    let mut r: Vec<Arc<Type>> = Vec::new();
    let mut i: usize = 0;
    proof {
        assert(types_view(r@) =~= Seq::<TypeV>::empty());
        assert(types_view(ts@).take(0) =~= Seq::<TypeV>::empty());
    }
    while i < ts.len()
        invariant
            i <= ts@.len(),
            types_view(r@) == substs(types_view(ts@).take(i as int), v, var_view(*st)),
        decreases ts@.len() - i,
    {
        proof {
            assert(decreases_to!(ts@ => ts@[i as int]));
        }
        let m = subst_type(&*ts[i], v, st);
        let ghost before = r@;
        r.push(m);
        proof {
            lemma_types_view(ts@);
            assert(r@.drop_last() =~= before);
            let x = types_view(ts@).take(i + 1);
            assert(x.drop_last() =~= types_view(ts@).take(i as int));
            assert(x.last() == type_view(*ts@[i as int]));
        }
        i = i + 1;
    }
    proof {
        lemma_types_view(ts@);
        assert(types_view(ts@).take(ts@.len() as int) =~= types_view(ts@));
    }
    r
}

/// A variable's state with [`subst`] applied.
fn subst_state(x: &TypeVar, v: u64, st: &TypeVar) -> (r: TypeVar)
    ensures
        var_view(r) == subst_var(var_view(*x), v, var_view(*st)),
{
    match x {
        TypeVar::Link { tipo } => {
            let m = subst_type(&**tipo, v, st);
            TypeVar::Link { tipo: m }
        },
        _ => clone_var(x),
    }
}

/// The store after variable `v` is given state `st`: every link that
/// mentions `v` shows its new state.
pub open spec fn store_bind(s: Map<u64, VarV>, v: u64, st: VarV) -> Map<u64, VarV> {
    Map::new(|k: u64| s.contains_key(k) || k == v, |k: u64| if k == v {
        st
    } else {
        subst_var(s[k], v, st)
    })
}

impl VarStore {
    /// Gives the variable `v`, unbound so far, the state `st`.
    pub fn bind(&mut self, v: u64, st: TypeVar)
        requires
            !old(self)@.contains_key(v),
        ensures
            final(self)@ == store_bind(old(self)@, v, var_view(st)),
    {
        proof {
            use_type_invariant(&*self);
            lemma_store_map(self.entries@);
        }
        let mut entries: Vec<(u64, TypeVar)> = Vec::new();
        let mut i: usize = 0;
        while i < self.entries.len()
            invariant
                i <= self.entries@.len(),
                entries@.len() == i,
                forall|j: int| 0 <= j < i ==> #[trigger] entries@[j].0 == self.entries@[j].0,
                forall|j: int| 0 <= j < i ==> var_view(#[trigger] entries@[j].1) == subst_var(
                    var_view(self.entries@[j].1),
                    v,
                    var_view(st),
                ),
            decreases self.entries@.len() - i,
        {
            let id = self.entries[i].0;
            let ns = subst_state(&self.entries[i].1, v, &st);
            entries.push((id, ns));
            i = i + 1;
        }
        let ghost oe = self.entries@;
        entries.push((v, st));
        proof {
            let ne = entries@;
            assert forall|a: int, b: int| 0 <= a < ne.len() && 0 <= b < ne.len() && a != b implies ne[a].0
                != ne[b].0 by {
                if a < oe.len() && b < oe.len() {
                    assert(ne[a].0 == oe[a].0);
                    assert(ne[b].0 == oe[b].0);
                } else if a < oe.len() {
                    assert(ne[a].0 == oe[a].0);
                    assert(store_map(oe).contains_key(oe[a].0));
                } else if b < oe.len() {
                    assert(ne[b].0 == oe[b].0);
                    assert(store_map(oe).contains_key(oe[b].0));
                }
            }
            lemma_store_map(ne);
            let m = store_bind(store_map(oe), v, var_view(st));
            assert forall|k: u64| #[trigger] store_map(ne).contains_key(k) == m.contains_key(k) && (
            store_map(ne).contains_key(k) ==> store_map(ne)[k] == m[k]) by {
                if store_map(ne).contains_key(k) {
                    let j = choose|j: int| 0 <= j < ne.len() && ne[j].0 == k;
                    if j < oe.len() {
                        assert(ne[j].0 == oe[j].0);
                        assert(store_map(oe).contains_key(oe[j].0));
                        assert(k != v);
                    }
                }
                if store_map(oe).contains_key(k) {
                    let j = choose|j: int| 0 <= j < oe.len() && oe[j].0 == k;
                    assert(ne[j].0 == k);
                }
                if k == v {
                    assert(ne[oe.len() as int].0 == k);
                }
            }
            assert(store_map(ne) =~= m);
        }
        self.entries = entries;
    }
}


/// The unbound variables of the types of a list, taken one by one.
pub proof fn lemma_free_vars_list(ts: Seq<TypeV>)
    ensures
        forall|x: u64| #[trigger] free_vars_list(ts).contains(x) <==> exists|i: int|
            0 <= i < ts.len() && free_vars(ts[i]).contains(x),
    decreases ts.len(),
{
    if ts.len() > 0 {
        lemma_free_vars_list(ts.drop_last());
        assert forall|x: u64| #[trigger] free_vars_list(ts).contains(x) <==> exists|i: int|
            0 <= i < ts.len() && free_vars(ts[i]).contains(x) by {
            if free_vars_list(ts).contains(x) {
                if free_vars_list(ts.drop_last()).contains(x) {
                    let i = choose|i: int| 0 <= i < ts.drop_last().len() && free_vars(ts.drop_last()[i]).contains(x);
                    assert(ts[i] == ts.drop_last()[i]);
                } else {
                    assert(ts.last() == ts[ts.len() - 1]);
                    assert(free_vars(ts[ts.len() - 1]).contains(x));
                    assert(0 <= ts.len() - 1 < ts.len() && free_vars(ts[ts.len() - 1]).contains(x));
                }
            }
            if exists|i: int| 0 <= i < ts.len() && free_vars(ts[i]).contains(x) {
                let i = choose|i: int| 0 <= i < ts.len() && free_vars(ts[i]).contains(x);
                if i < ts.len() - 1 {
                    assert(ts.drop_last()[i] == ts[i]);
                    assert(free_vars_list(ts.drop_last()).contains(x));
                } else {
                    assert(ts.last() == ts[i]);
                }
            }
        }
    }
}

/// A materialised type mentions no variable that the store binds, when
/// the store is closed.
pub proof fn lemma_mat_closed(s: Map<u64, VarV>, t: TypeV)
    requires
        store_closed(s),
    ensures
        free_vars(mat(s, t)).disjoint(s.dom()),
    decreases t, 1nat,
{
    match t {
        TypeV::App { args, .. } => lemma_mats_closed(s, args),
        TypeV::Fn { args, ret } => {
            lemma_mats_closed(s, args);
            lemma_mat_closed(s, *ret);
        },
        TypeV::Var(v) => match v {
            VarV::Unbound(id) => {
                if s.contains_key(id) {
                    assert(s.contains_key(id));
                }
            },
            VarV::Link(b) => lemma_mat_closed(s, *b),
            VarV::Generic(_) => {},
        },
        TypeV::Tuple(elems) => lemma_mats_closed(s, elems),
    }
}

pub proof fn lemma_mats_closed(s: Map<u64, VarV>, ts: Seq<TypeV>)
    requires
        store_closed(s),
    ensures
        free_vars_list(mats(s, ts)).disjoint(s.dom()),
    decreases ts, 0nat,
{
    if ts.len() > 0 {
        lemma_mats_closed(s, ts.drop_last());
        lemma_mat_closed(s, ts.last());
        let m = mats(s, ts);
        assert(m.drop_last() =~= mats(s, ts.drop_last()));
        assert(m.last() == mat(s, ts.last()));
        assert(free_vars_list(m) == free_vars_list(m.drop_last()).union(free_vars(m.last())));
    }
}

/// Materialising a type that mentions no bound variable leaves it as it is.
pub proof fn lemma_mat_noop(s: Map<u64, VarV>, t: TypeV)
    requires
        free_vars(t).disjoint(s.dom()),
    ensures
        mat(s, t) == t,
    decreases t, 1nat,
{
    match t {
        TypeV::App { args, .. } => lemma_mats_noop(s, args),
        TypeV::Fn { args, ret } => {
            lemma_mats_noop(s, args);
            lemma_mat_noop(s, *ret);
        },
        TypeV::Var(v) => match v {
            VarV::Link(b) => lemma_mat_noop(s, *b),
            _ => {},
        },
        TypeV::Tuple(elems) => lemma_mats_noop(s, elems),
    }
}

pub proof fn lemma_mats_noop(s: Map<u64, VarV>, ts: Seq<TypeV>)
    requires
        free_vars_list(ts).disjoint(s.dom()),
    ensures
        mats(s, ts) == ts,
    decreases ts, 0nat,
{
    if ts.len() > 0 {
        lemma_mats_noop(s, ts.drop_last());
        lemma_mat_noop(s, ts.last());
        assert(ts.drop_last().push(ts.last()) =~= ts);
    }
}

/// The unbound variables after a substitution: those before but `v`, and,
/// when `v` occurred, those of its new state.
pub open spec fn state_vars(st: VarV) -> Set<u64> {
    match st {
        VarV::Link(b) => free_vars(*b),
        VarV::Unbound(id) => set![id],
        VarV::Generic(_) => Set::empty(),
    }
}

pub proof fn lemma_subst_free(t: TypeV, v: u64, st: VarV)
    ensures
        free_vars(subst(t, v, st)).subset_of(free_vars(t).remove(v).union(state_vars(st))),
        free_vars(t).remove(v).subset_of(free_vars(subst(t, v, st))),
        !free_vars(t).contains(v) ==> subst(t, v, st) == t,
    decreases t, 1nat,
{
    match t {
        TypeV::App { args, .. } => lemma_substs_free(args, v, st),
        TypeV::Fn { args, ret } => {
            lemma_substs_free(args, v, st);
            lemma_subst_free(*ret, v, st);
        },
        TypeV::Var(x) => match x {
            VarV::Link(b) => lemma_subst_free(*b, v, st),
            _ => {},
        },
        TypeV::Tuple(elems) => lemma_substs_free(elems, v, st),
    }
}

pub proof fn lemma_substs_free(ts: Seq<TypeV>, v: u64, st: VarV)
    ensures
        free_vars_list(substs(ts, v, st)).subset_of(free_vars_list(ts).remove(v).union(state_vars(st))),
        free_vars_list(ts).remove(v).subset_of(free_vars_list(substs(ts, v, st))),
        !free_vars_list(ts).contains(v) ==> substs(ts, v, st) == ts,
    decreases ts, 0nat,
{
    if ts.len() > 0 {
        lemma_substs_free(ts.drop_last(), v, st);
        lemma_subst_free(ts.last(), v, st);
        let m = substs(ts, v, st);
        assert(m.drop_last() =~= substs(ts.drop_last(), v, st));
        assert(m.last() == subst(ts.last(), v, st));
        assert(free_vars_list(m) == free_vars_list(m.drop_last()).union(free_vars(m.last())));
        if !free_vars_list(ts).contains(v) {
            assert(ts.drop_last().push(ts.last()) =~= ts);
        }
    }
}

/// Binding a variable and materialising is materialising and then
/// substituting the variable, for a closed store.
pub proof fn lemma_mat_bind(s: Map<u64, VarV>, v: u64, st: VarV, t: TypeV)
    requires
        !s.contains_key(v),
        store_closed(s),
    ensures
        mat(store_bind(s, v, st), t) == subst(mat(s, t), v, st),
    decreases t, 1nat,
{
    match t {
        TypeV::App { args, .. } => lemma_mats_bind(s, v, st, args),
        TypeV::Fn { args, ret } => {
            lemma_mats_bind(s, v, st, args);
            lemma_mat_bind(s, v, st, *ret);
        },
        TypeV::Var(x) => match x {
            VarV::Unbound(id) => {
                if s.contains_key(id) {
                    assert(id != v);
                    assert(store_bind(s, v, st)[id] == subst_var(s[id], v, st));
                    match s[id] {
                        VarV::Link(b) => {},
                        VarV::Generic(_) => {},
                        VarV::Unbound(_) => {
                            assert(false);
                        },
                    }
                } else if id == v {
                    assert(store_bind(s, v, st).contains_key(id));
                    assert(store_bind(s, v, st)[id] == st);
                } else {
                    assert(!store_bind(s, v, st).contains_key(id));
                }
            },
            VarV::Link(b) => lemma_mat_bind(s, v, st, *b),
            VarV::Generic(_) => {},
        },
        TypeV::Tuple(elems) => lemma_mats_bind(s, v, st, elems),
    }
}

pub proof fn lemma_mats_bind(s: Map<u64, VarV>, v: u64, st: VarV, ts: Seq<TypeV>)
    requires
        !s.contains_key(v),
        store_closed(s),
    ensures
        mats(store_bind(s, v, st), ts) == substs(mats(s, ts), v, st),
    decreases ts, 0nat,
{
    if ts.len() > 0 {
        lemma_mats_bind(s, v, st, ts.drop_last());
        lemma_mat_bind(s, v, st, ts.last());
        let m = mats(s, ts);
        assert(m.drop_last() =~= mats(s, ts.drop_last()));
        assert(m.last() == mat(s, ts.last()));
        let b = store_bind(s, v, st);
        let mb = mats(b, ts);
        assert(mb.drop_last() =~= mats(b, ts.drop_last()));
    }
}


/// Binding a variable that no link mentions to a closed state keeps the
/// store closed.
pub proof fn lemma_bind_closed(s: Map<u64, VarV>, v: u64, st: VarV)
    requires
        store_closed(s),
        !s.contains_key(v),
        !(st is Unbound),
        state_vars(st).disjoint(s.dom()),
        !state_vars(st).contains(v),
    ensures
        store_closed(store_bind(s, v, st)),
        store_bind(s, v, st).dom() == s.dom().insert(v),
{
    let b = store_bind(s, v, st);
    assert(b.dom() =~= s.dom().insert(v));
    assert forall|x: u64| #[trigger] b.contains_key(x) implies match b[x] {
        VarV::Link(bb) => free_vars(*bb).disjoint(b.dom()),
        VarV::Generic(_) => true,
        VarV::Unbound(_) => false,
    } by {
        if x != v {
            match s[x] {
                VarV::Link(bb) => {
                    lemma_subst_free(*bb, v, st);
                },
                _ => {},
            }
        }
    }
}

/// The unbound variables of a type are finitely many.
pub proof fn lemma_free_finite(t: TypeV)
    ensures
        free_vars(t).finite(),
    decreases t, 1nat,
{
    match t {
        TypeV::App { args, .. } => lemma_free_list_finite(args),
        TypeV::Fn { args, ret } => {
            lemma_free_list_finite(args);
            lemma_free_finite(*ret);
        },
        TypeV::Var(v) => match v {
            VarV::Link(b) => lemma_free_finite(*b),
            _ => {},
        },
        TypeV::Tuple(elems) => lemma_free_list_finite(elems),
    }
}

pub proof fn lemma_free_list_finite(ts: Seq<TypeV>)
    ensures
        free_vars_list(ts).finite(),
    decreases ts, 0nat,
{
    if ts.len() > 0 {
        lemma_free_list_finite(ts.drop_last());
        lemma_free_finite(ts.last());
    }
}

/// The sizes of the types of a list add up.
pub proof fn lemma_types_size(ts: Seq<TypeV>)
    ensures
        forall|i: int| 0 <= i < ts.len() ==> type_size(#[trigger] ts[i]) <= types_size(ts),
        forall|i: int, j: int| 0 <= i < j < ts.len() ==> type_size(#[trigger] ts[i]) + type_size(#[trigger] ts[j]) <= types_size(ts),
    decreases ts.len(),
{
    if ts.len() > 0 {
        lemma_types_size(ts.drop_last());
        assert forall|i: int| 0 <= i < ts.len() implies type_size(#[trigger] ts[i]) <= types_size(ts) by {
            if i < ts.len() - 1 {
                assert(ts.drop_last()[i] == ts[i]);
            }
        }
        assert forall|i: int, j: int| 0 <= i < j < ts.len() implies type_size(#[trigger] ts[i]) + type_size(#[trigger] ts[j]) <= types_size(ts) by {
            assert(ts.drop_last()[i] == ts[i]);
            if j < ts.len() - 1 {
                assert(ts.drop_last()[j] == ts[j]);
            }
        }
    }
}

/// The prelude's `Data` type, links followed.
pub open spec fn tv_is_data(t: TypeV) -> bool
    decreases t,
{
    match t {
        TypeV::App { module, name, .. } => name == "Data"@ && module.len() == 0,
        TypeV::Var(VarV::Link(b)) => tv_is_data(*b),
        _ => false,
    }
}

/// The prelude's `String` type, links followed.
pub open spec fn tv_is_string(t: TypeV) -> bool
    decreases t,
{
    match t {
        TypeV::App { module, name, args, .. } => name == "String"@ && module.len() == 0 && args.len() == 0,
        TypeV::Var(VarV::Link(b)) => tv_is_string(*b),
        _ => false,
    }
}

impl Type {
    /// The prelude's `Data` type, links followed.
    pub fn is_data(&self) -> (b: bool)
        ensures
            b == tv_is_data(type_view(*self)),
        decreases *self,
    {
        match self {
            Type::App { module, name, .. } => str_eq("Data", name.as_str()) && module.as_str().is_empty(),
            Type::Var { tipo } => match tipo {
                TypeVar::Link { tipo: inner } => {
                    proof {
                        assert(decreases_to!(*self => *tipo));
                        assert(decreases_to!(*tipo => *inner));
                        assert(var_view(*tipo) == VarV::Link(Box::new(type_view(**inner))));
                        assert(type_view(*self) == TypeV::Var(VarV::Link(Box::new(type_view(**inner)))));
                    }
                    inner.is_data()
                },
                _ => false,
            },
            _ => false,
        }
    }

    /// The prelude's `String` type, links followed.
    pub fn is_string(&self) -> (b: bool)
        ensures
            b == tv_is_string(type_view(*self)),
        decreases *self,
    {
        match self {
            Type::App { module, name, args, .. } => {
                proof {
                    lemma_types_view(args@);
                }
                str_eq("String", name.as_str()) && module.as_str().is_empty() && args.len() == 0
            },
            Type::Var { tipo } => match tipo {
                TypeVar::Link { tipo: inner } => {
                    proof {
                        assert(decreases_to!(*self => *tipo));
                        assert(decreases_to!(*tipo => *inner));
                        assert(var_view(*tipo) == VarV::Link(Box::new(type_view(**inner))));
                        assert(type_view(*self) == TypeV::Var(VarV::Link(Box::new(type_view(**inner)))));
                    }
                    inner.is_string()
                },
                _ => false,
            },
            _ => false,
        }
    }
}

/// Fails when the variable `own_id` occurs in the type, links followed:
/// binding it there would make the type contain itself.
pub fn unify_unbound_type(tipo: &Type, own_id: u64, location: Span) -> (r: Result<(), Error>)
    ensures
        match r {
            Ok(()) => !free_vars(type_view(*tipo)).contains(own_id),
            Err(e) => free_vars(type_view(*tipo)).contains(own_id) && e == (Error::RecursiveType { location }),
        },
    decreases *tipo, 1nat,
{
    match tipo {
        Type::Var { tipo: v } => match v {
            TypeVar::Link { tipo: inner } => {
                proof {
                    assert(decreases_to!(*tipo => *v));
                    assert(decreases_to!(*v => *inner));
                    assert(var_view(*v) == VarV::Link(Box::new(type_view(**inner))));
                    assert(type_view(*tipo) == TypeV::Var(VarV::Link(Box::new(type_view(**inner)))));
                }
                unify_unbound_type(&**inner, own_id, location)
            },
            TypeVar::Unbound { id } => {
                if *id == own_id {
                    Err(Error::RecursiveType { location })
                } else {
                    Ok(())
                }
            },
            TypeVar::Generic { .. } => Ok(()),
        },
        Type::App { args, .. } => {
            proof {
                assert(decreases_to!(*tipo => *args));
                assert(decreases_to!(*args => args@));
            }
            unify_unbound_types(args, own_id, location)
        },
        Type::Fn { args, ret } => {
            proof {
                assert(decreases_to!(*tipo => *args));
                assert(decreases_to!(*args => args@));
                assert(decreases_to!(*tipo => *ret));
            }
            match unify_unbound_types(args, own_id, location) {
                Ok(()) => unify_unbound_type(&**ret, own_id, location),
                Err(e) => Err(e),
            }
        },
        Type::Tuple { elems } => {
            proof {
                assert(decreases_to!(*tipo => *elems));
                assert(decreases_to!(*elems => elems@));
            }
            unify_unbound_types(elems, own_id, location)
        },
    }
}

/// [`unify_unbound_type`] on each type of a list, in order.
fn unify_unbound_types(ts: &Vec<Arc<Type>>, own_id: u64, location: Span) -> (r: Result<(), Error>)
    ensures
        match r {
            Ok(()) => !free_vars_list(types_view(ts@)).contains(own_id),
            Err(e) => free_vars_list(types_view(ts@)).contains(own_id) && e == (Error::RecursiveType { location }),
        },
    decreases ts@, 0nat,
{
    proof {
        lemma_types_view(ts@);
        lemma_free_vars_list(types_view(ts@));
    }
    let mut i: usize = 0;
    while i < ts.len()
        invariant
            i <= ts@.len(),
            types_view(ts@).len() == ts@.len(),
            forall|j: int| 0 <= j < ts@.len() ==> #[trigger] types_view(ts@)[j] == type_view(*ts@[j]),
            forall|j: int| 0 <= j < i ==> !free_vars(#[trigger] types_view(ts@)[j]).contains(own_id),
        decreases ts@.len() - i,
    {
        proof {
            assert(decreases_to!(ts@ => ts@[i as int]));
        }
        match unify_unbound_type(&*ts[i], own_id, location) {
            Ok(()) => {},
            Err(e) => {
                proof {
                    assert(free_vars(types_view(ts@)[i as int]).contains(own_id));
                    lemma_free_vars_list(types_view(ts@));
                }
                return Err(e);
            },
        }
        i = i + 1;
    }
    Ok(())
}


/// A failure to unify the types inside two types, reported as a failure to
/// unify the enclosing types; other results as they are.
fn unify_enclosed_type(e1: Arc<Type>, e2: Arc<Type>, result: Result<(), Error>) -> (r: Result<(), Error>)
    ensures
        match result {
            Err(Error::CouldNotUnify { location, situation, rigid_type_names, .. }) => r == Err::<(), Error>(
                Error::CouldNotUnify { location, expected: e1, given: e2, situation, rigid_type_names },
            ),
            _ => r == result,
        },
{
    match result {
        Err(Error::CouldNotUnify { location, situation, rigid_type_names, .. }) => Err(
            Error::CouldNotUnify { expected: e1, given: e2, situation, location, rigid_type_names },
        ),
        _ => result,
    }
}

/// The value of the type a shared pointer holds.
pub open spec fn tview(t: Arc<Type>) -> TypeV {
    type_view(*t)
}

/// The unbound variables a type shows under a store.
pub open spec fn fv(s: Map<u64, VarV>, t: Arc<Type>) -> Set<u64> {
    free_vars(mat(s, type_view(*t)))
}

/// The size a type shows under a store.
pub open spec fn msize(s: Map<u64, VarV>, t: Arc<Type>) -> nat {
    type_size(mat(s, type_view(*t)))
}

/// One when the second type shows a variable and the first does not.
pub open spec fn swap_flag(s: Map<u64, VarV>, t1: Arc<Type>, t2: Arc<Type>) -> nat {
    if mat(s, type_view(*t2)) is Var && !(mat(s, type_view(*t1)) is Var) {
        1
    } else {
        0
    }
}

/// How a store may grow while unifying within the variables `u`: it stays
/// closed, refines the store it grew from, binds only variables of `u`, and
/// a type shows no unbound variable but those it showed and those of `u`.
pub open spec fn grows_within(s0: Map<u64, VarV>, s1: Map<u64, VarV>, u: Set<u64>) -> bool {
    &&& store_closed(s1)
    &&& refines(s0, s1)
    &&& s0.dom().subset_of(s1.dom())
    &&& s1.dom().difference(s0.dom()).subset_of(u)
    &&& (s1.dom() == s0.dom() ==> s1 == s0)
    &&& forall|t: TypeV| #[trigger] free_vars(mat(s1, t)).subset_of(free_vars(mat(s0, t)).union(u))
}

/// Two environments differ in their type variables at most.
pub open spec fn same_but_vars<'a>(a: Environment<'a>, b: Environment<'a>) -> bool {
    &&& same_but_typing(a, b)
    &&& a.previous_id == b.previous_id
}

/// Two environments differ in their type variables and in the identifier
/// handed out last at most.
pub open spec fn same_but_typing<'a>(a: Environment<'a>, b: Environment<'a>) -> bool {
    &&& a.accessors == b.accessors
    &&& a.current_module == b.current_module
    &&& a.entity_usages == b.entity_usages
    &&& a.id_gen == b.id_gen
    &&& a.importable_modules == b.importable_modules
    &&& a.imported_modules == b.imported_modules
    &&& a.imported_types == b.imported_types
    &&& a.module_types == b.module_types
    &&& a.module_types_constructors == b.module_types_constructors
    &&& a.module_values == b.module_values
    &&& a.scope == b.scope
    &&& a.ungeneralised_functions == b.ungeneralised_functions
    &&& a.unqualified_imported_names == b.unqualified_imported_names
    &&& a.unused_modules == b.unused_modules
    &&& a.warnings == b.warnings
}

pub proof fn lemma_grows_refl(s: Map<u64, VarV>, u: Set<u64>)
    requires
        store_closed(s),
    ensures
        grows_within(s, s, u),
{
    assert(s.dom().difference(s.dom()) =~= Set::<u64>::empty());
    lemma_refines_refl(s);
}

pub proof fn lemma_grows_trans(s0: Map<u64, VarV>, s1: Map<u64, VarV>, s2: Map<u64, VarV>, u: Set<u64>)
    requires
        grows_within(s0, s1, u),
        grows_within(s1, s2, u),
    ensures
        grows_within(s0, s2, u),
{
    lemma_refines_trans(s0, s1, s2);
    assert forall|t: TypeV| #[trigger] free_vars(mat(s2, t)).subset_of(free_vars(mat(s0, t)).union(u)) by {
        let f0 = free_vars(mat(s0, t));
        let f1 = free_vars(mat(s1, t));
        let f2 = free_vars(mat(s2, t));
        assert(f1.subset_of(f0.union(u)));
        assert(f2.subset_of(f1.union(u)));
        assert forall|x: u64| f2.contains(x) implies f0.union(u).contains(x) by {
            assert(f1.union(u).contains(x));
        }
    }
    if s2.dom() == s0.dom() {
        assert(s1.dom() =~= s0.dom());
    }
}

/// Binding a variable of `u` to a state whose variables are in `u` grows
/// the store within `u`.
pub proof fn lemma_bind_grows(s: Map<u64, VarV>, v: u64, st: VarV, u: Set<u64>)
    requires
        store_closed(s),
        !s.contains_key(v),
        !(st is Unbound),
        state_vars(st).disjoint(s.dom()),
        !state_vars(st).contains(v),
        u.contains(v),
        state_vars(st).subset_of(u),
    ensures
        grows_within(s, store_bind(s, v, st), u),
{
    lemma_bind_closed(s, v, st);
    lemma_bind_refines(s, v, st);
    let b = store_bind(s, v, st);
    assert(b.dom().difference(s.dom()) =~= set![v]);
    assert(b.dom() != s.dom()) by {
        assert(b.dom().contains(v));
    }
    assert forall|t: TypeV| #[trigger] free_vars(mat(b, t)).subset_of(free_vars(mat(s, t)).union(u)) by {
        lemma_mat_bind(s, v, st, t);
        lemma_subst_free(mat(s, t), v, st);
    }
}

/// A store that grew within `u` but binds a variable it did not bind
/// before leaves fewer variables of `u` unbound.
pub proof fn lemma_grows_measure(s0: Map<u64, VarV>, s1: Map<u64, VarV>, u: Set<u64>)
    requires
        grows_within(s0, s1, u),
        u.finite(),
        s1.dom() != s0.dom(),
    ensures
        u.difference(s1.dom()).len() < u.difference(s0.dom()).len(),
{
    let x = choose|x: u64| s1.dom().contains(x) && !s0.dom().contains(x);
    assert(s1.dom().difference(s0.dom()).contains(x)) by {
        if forall|x: u64| s1.dom().contains(x) ==> s0.dom().contains(x) {
            assert(s1.dom() =~= s0.dom());
        }
    }
    assert(u.contains(x));
    let a = u.difference(s1.dom());
    let b = u.difference(s0.dom());
    assert(a.subset_of(b.remove(x)));
    vstd::set_lib::lemma_len_subset(a, b.remove(x));
    assert(b.contains(x));
}

/// An argument of a closed type: it shows as it is, its variables are
/// among the list's, and it is no larger than the list.
pub proof fn lemma_child(s0: Map<u64, VarV>, ts: Seq<Arc<Type>>, i: int)
    requires
        0 <= i < ts.len(),
        free_vars_list(types_view(ts)).disjoint(s0.dom()),
    ensures
        mat(s0, tview(ts[i])) == tview(ts[i]),
        free_vars(tview(ts[i])).subset_of(free_vars_list(types_view(ts))),
        type_size(tview(ts[i])) <= types_size(types_view(ts)),
{
    lemma_types_view(ts);
    lemma_free_vars_list(types_view(ts));
    lemma_types_size(types_view(ts));
    assert(types_view(ts)[i] == tview(ts[i]));
    assert forall|x: u64| free_vars(tview(ts[i])).contains(x) implies free_vars_list(types_view(ts)).contains(x) by {
        assert(free_vars(types_view(ts)[i]).contains(x));
    }
    lemma_mat_noop(s0, tview(ts[i]));
}

/// A type with its outer links followed.
pub open spec fn strip(t: TypeV) -> TypeV
    decreases t,
{
    match t {
        TypeV::Var(VarV::Link(b)) => strip(*b),
        _ => t,
    }
}

/// How unification binds a variable: when one side, its outer links
/// followed, is an unbound variable that the other side does not hold, the
/// variable is linked to the other side with its outer links followed; the
/// left side is bound when both are such variables. An unbound variable
/// facing a generic one becomes that generic variable.
pub open spec fn binds_unbound(
    s0: Map<u64, VarV>,
    s1: Map<u64, VarV>,
    t1: Arc<Type>,
    t2: Arc<Type>,
    allow_cast: bool,
    r: Result<(), Error>,
) -> bool {
    let a = strip(mat(s0, tview(t1)));
    let b = strip(mat(s0, tview(t2)));
    &&& a matches TypeV::Var(VarV::Unbound(v)) ==> (!allow_cast && !free_vars(mat(s0, tview(t2))).contains(v) ==> (r
        is Ok && s1 == store_bind(s0, v, VarV::Link(Box::new(b)))))
    &&& b matches TypeV::Var(VarV::Unbound(v)) ==> (!allow_cast && !(a is Var) && !free_vars(mat(s0, tview(t1))).contains(v)
        ==> (r is Ok && s1 == store_bind(s0, v, VarV::Link(Box::new(a)))))
    &&& a matches TypeV::Var(VarV::Generic(g)) ==> (b matches TypeV::Var(VarV::Unbound(v)) ==> (!allow_cast ==> (r is Ok
        && s1 == store_bind(s0, v, VarV::Generic(g)))))
}

/// A type whose outer links lead to an unbound variable holds it.
pub proof fn lemma_strip_holds(t: TypeV)
    ensures
        strip(t) matches TypeV::Var(VarV::Unbound(v)) ==> free_vars(t).contains(v),
        !(strip(t) matches TypeV::Var(VarV::Link(_))),
        !(t matches TypeV::Var(VarV::Link(_))) ==> strip(t) == t,
    decreases t,
{
    match t {
        TypeV::Var(VarV::Link(b)) => lemma_strip_holds(*b),
        _ => {},
    }
}

/// A type that resolves to an unbound variable leads to it by its outer
/// links.
pub proof fn lemma_res_unbound_strip(t: TypeV)
    ensures
        res(t) matches TypeV::Var(VarV::Unbound(v)) ==> strip(t) == res(t),
    decreases t,
{
    match t {
        TypeV::Var(VarV::Link(b)) => lemma_res_unbound_strip(*b),
        _ => {},
    }
}

/// Resolving links keeps the shape of a type that is not a link, and
/// leaves a variable that is not a link as it is.
pub proof fn lemma_res_shape(t: TypeV)
    ensures
        t is App ==> res(t) is App,
        t is Fn ==> res(t) is Fn,
        t is Tuple ==> res(t) is Tuple,
        (t matches TypeV::Var(v) && !(v is Link)) ==> res(t) == t,
{
}

/// Arguments whose resolved forms are the same, and that the store leaves
/// as they are, agree under the store one by one.
pub proof fn lemma_agree_args(s: Map<u64, VarV>, a: Seq<Arc<Type>>, b: Seq<Arc<Type>>, j: int)
    requires
        0 <= j < a.len(),
        a.len() == b.len(),
        free_vars_list(types_view(a)).disjoint(s.dom()),
        free_vars_list(types_view(b)).disjoint(s.dom()),
        res_list(types_view(a)) == res_list(types_view(b)),
    ensures
        agree(s, a[j], b[j]),
{
    lemma_child(s, a, j);
    lemma_child(s, b, j);
    lemma_types_view(a);
    lemma_types_view(b);
    crate::lang::tipo::resolve::lemma_res_list_index(types_view(a));
    crate::lang::tipo::resolve::lemma_res_list_index(types_view(b));
    assert(res_list(types_view(a))[j] == res(tview(a[j])));
    assert(res_list(types_view(b))[j] == res(tview(b[j])));
}

/// No unbound variable occurs twice in the type: the parts of each
/// application, function and tuple hold disjoint sets of variables.
pub open spec fn lin(t: TypeV) -> bool
    decreases t, 1nat,
{
    match t {
        TypeV::App { args, .. } => lin_list(args),
        TypeV::Fn { args, ret } => lin_list(args) && lin(*ret) && free_vars_list(args).disjoint(free_vars(*ret)),
        TypeV::Var(v) => match v {
            VarV::Link(b) => lin(*b),
            _ => true,
        },
        TypeV::Tuple(elems) => lin_list(elems),
    }
}

/// [`lin`] for each type of a list, the types holding disjoint sets of
/// variables.
pub open spec fn lin_list(ts: Seq<TypeV>) -> bool
    decreases ts, 0nat,
{
    if ts.len() == 0 {
        true
    } else {
        lin_list(ts.drop_last()) && lin(ts.last()) && free_vars_list(ts.drop_last()).disjoint(free_vars(ts.last()))
    }
}

/// The two types, links followed, are built alike except where one of them
/// holds an unbound variable.
pub open spec fn same_shape(a: TypeV, b: TypeV) -> bool
    decreases a, b,
{
    if let TypeV::Var(VarV::Link(x)) = a {
        same_shape(*x, b)
    } else if let TypeV::Var(VarV::Link(y)) = b {
        same_shape(a, *y)
    } else if a matches TypeV::Var(VarV::Unbound(_)) {
        true
    } else if b matches TypeV::Var(VarV::Unbound(_)) {
        true
    } else {
        match a {
            TypeV::Var(VarV::Generic(g)) => b matches TypeV::Var(VarV::Generic(h)) && g == h,
            TypeV::App { module: m1, name: n1, args: x1, .. } => match b {
                TypeV::App { module: m2, name: n2, args: x2, .. } => m1 == m2 && n1 == n2 && x1.len() == x2.len() && forall|i: int|
                    0 <= i < x1.len() ==> same_shape(#[trigger] x1[i], x2[i]),
                _ => false,
            },
            TypeV::Fn { args: x1, ret: r1 } => match b {
                TypeV::Fn { args: x2, ret: r2 } => x1.len() == x2.len() && (forall|i: int|
                    0 <= i < x1.len() ==> same_shape(#[trigger] x1[i], x2[i])) && same_shape(*r1, *r2),
                _ => false,
            },
            TypeV::Tuple(x1) => match b {
                TypeV::Tuple(x2) => x1.len() == x2.len() && forall|i: int| 0 <= i < x1.len() ==> same_shape(#[trigger] x1[i], x2[i]),
                _ => false,
            },
            _ => false,
        }
    }
}

/// Binding unbound variables can make the two types, as the store shows
/// them, equal without an occurs check failing: they are built alike except
/// where an unbound variable stands, and no variable occurs twice in them.
pub open spec fn unifiable(s: Map<u64, VarV>, t1: Arc<Type>, t2: Arc<Type>) -> bool {
    let a = mat(s, tview(t1));
    let b = mat(s, tview(t2));
    &&& lin(a)
    &&& lin(b)
    &&& free_vars(a).disjoint(free_vars(b))
    &&& same_shape(a, b)
}

/// A link on the right of [`same_shape`] may be followed.
pub proof fn lemma_shape_link_right(a: TypeV, y: TypeV)
    ensures
        same_shape(a, TypeV::Var(VarV::Link(Box::new(y)))) == same_shape(a, y),
    decreases a,
{
    if let TypeV::Var(VarV::Link(x)) = a {
        lemma_shape_link_right(*x, y);
    }
}

/// [`same_shape`] does not depend on the order of the two types.
pub proof fn lemma_shape_symmetric(a: TypeV, b: TypeV)
    ensures
        same_shape(a, b) == same_shape(b, a),
    decreases a, b,
{
    if let TypeV::Var(VarV::Link(x)) = a {
        lemma_shape_symmetric(*x, b);
        lemma_shape_link_right(b, *x);
    } else if let TypeV::Var(VarV::Link(y)) = b {
        lemma_shape_symmetric(a, *y);
        lemma_shape_link_right(a, *y);
    } else {
        match (a, b) {
            (TypeV::App { args: x1, .. }, TypeV::App { args: x2, .. }) => {
                assert forall|i: int| 0 <= i < x1.len() && x1.len() == x2.len() implies same_shape(#[trigger] x1[i], x2[i]) == same_shape(x2[i], x1[i]) by {
                    lemma_shape_symmetric(x1[i], x2[i]);
                }
            },
            (TypeV::Fn { args: x1, ret: r1 }, TypeV::Fn { args: x2, ret: r2 }) => {
                assert forall|i: int| 0 <= i < x1.len() && x1.len() == x2.len() implies same_shape(#[trigger] x1[i], x2[i]) == same_shape(x2[i], x1[i]) by {
                    lemma_shape_symmetric(x1[i], x2[i]);
                }
                lemma_shape_symmetric(*r1, *r2);
            },
            (TypeV::Tuple(x1), TypeV::Tuple(x2)) => {
                assert forall|i: int| 0 <= i < x1.len() && x1.len() == x2.len() implies same_shape(#[trigger] x1[i], x2[i]) == same_shape(x2[i], x1[i]) by {
                    lemma_shape_symmetric(x1[i], x2[i]);
                }
            },
            _ => {},
        }
    }
}

/// The variables of the first `i` types of a list, one more at a time.
pub proof fn lemma_fvl_take(ts: Seq<TypeV>, i: int)
    requires
        0 <= i < ts.len(),
    ensures
        free_vars_list(ts.take(i + 1)) == free_vars_list(ts.take(i)).union(free_vars(ts[i])),
        free_vars_list(ts.take(i + 1)).subset_of(free_vars_list(ts)),
{
    assert(ts.take(i + 1).drop_last() =~= ts.take(i));
    lemma_free_vars_list(ts.take(i + 1));
    lemma_free_vars_list(ts);
    assert forall|x: u64| free_vars_list(ts.take(i + 1)).contains(x) implies free_vars_list(ts).contains(x) by {
        let j = choose|j: int| 0 <= j < ts.take(i + 1).len() && #[trigger] free_vars(ts.take(i + 1)[j]).contains(x);
        assert(free_vars(ts[j]).contains(x));
    }
}

/// Each type of a list that [`lin_list`] holds is [`lin`], and shares no
/// variable with the types before it.
pub proof fn lemma_lin_list_index(ts: Seq<TypeV>, i: int)
    requires
        lin_list(ts),
        0 <= i < ts.len(),
    ensures
        lin(ts[i]),
        free_vars(ts[i]).disjoint(free_vars_list(ts.take(i))),
    decreases ts.len(),
{
    if i == ts.len() - 1 {
        assert(ts.take(i) =~= ts.drop_last());
    } else {
        lemma_lin_list_index(ts.drop_last(), i);
        assert(ts.drop_last().take(i) =~= ts.take(i));
    }
}

/// The `i`-th pair of parts of two types that unification reaches after the
/// pairs before it: the store, grown only by their variables, leaves the
/// pair as it is, and the pair holds no variable twice.
pub proof fn lemma_part_unifiable(
    s0: Map<u64, VarV>,
    sc: Map<u64, VarV>,
    x1: Seq<TypeV>,
    x2: Seq<TypeV>,
    fa: Set<u64>,
    fb: Set<u64>,
    i: int,
)
    requires
        0 <= i < x1.len(),
        x1.len() == x2.len(),
        lin_list(x1),
        lin_list(x2),
        free_vars_list(x1).subset_of(fa),
        free_vars_list(x2).subset_of(fb),
        fa.disjoint(fb),
        free_vars_list(x1).disjoint(s0.dom()),
        free_vars_list(x2).disjoint(s0.dom()),
        sc.dom().subset_of(s0.dom().union(free_vars_list(x1.take(i))).union(free_vars_list(x2.take(i)))),
    ensures
        mat(sc, x1[i]) == x1[i],
        mat(sc, x2[i]) == x2[i],
        lin(x1[i]),
        lin(x2[i]),
        free_vars(x1[i]).disjoint(free_vars(x2[i])),
        free_vars(x1[i]).subset_of(fa),
        free_vars(x2[i]).subset_of(fb),
{
    lemma_lin_list_index(x1, i);
    lemma_lin_list_index(x2, i);
    lemma_fvl_take(x1, i);
    lemma_fvl_take(x2, i);
    lemma_free_vars_list(x1);
    lemma_free_vars_list(x2);
    assert(free_vars(x1[i]).subset_of(free_vars_list(x1)));
    assert(free_vars(x2[i]).subset_of(free_vars_list(x2)));
    lemma_mat_noop(sc, x1[i]);
    lemma_mat_noop(sc, x2[i]);
}

/// What a cast accepts in place of unification: one of the two types, as
/// the store shows them, is `Data`, and neither is an unbound or generic
/// variable, a function or `String`.
pub open spec fn cast_accepts(s: Map<u64, VarV>, t1: Arc<Type>, t2: Arc<Type>) -> bool {
    let a = mat(s, tview(t1));
    let b = mat(s, tview(t2));
    &&& tv_is_data(a) || tv_is_data(b)
    &&& !(a matches TypeV::Var(VarV::Unbound(_))) && !(b matches TypeV::Var(VarV::Unbound(_)))
    &&& !(a is Fn) && !(b is Fn)
    &&& !(a matches TypeV::Var(VarV::Generic(_))) && !(b matches TypeV::Var(VarV::Generic(_)))
    &&& !tv_is_string(a) && !tv_is_string(b)
}

/// Neither type, as the store shows it, holds an unbound variable.
pub open spec fn no_free_vars(s: Map<u64, VarV>, t1: Arc<Type>, t2: Arc<Type>) -> bool {
    fv(s, t1).is_empty() && fv(s, t2).is_empty()
}

/// The type, as the store shows it, is a link at its top.
pub open spec fn shows_link(s: Map<u64, VarV>, t: Arc<Type>) -> bool {
    mat(s, tview(t)) matches TypeV::Var(VarV::Link(_))
}

/// How unification fails on two types with no unbound variable: with a
/// `CouldNotUnify` at the given location that names the two types as they
/// were given, unless one of them is a link at its top (then the types it
/// names are those the link leads to).
pub open spec fn fails_plainly(
    s0: Map<u64, VarV>,
    t1: Arc<Type>,
    t2: Arc<Type>,
    location: Span,
    r: Result<(), Error>,
) -> bool {
    no_free_vars(s0, t1, t2) && r is Err ==> (r matches Err(
        Error::CouldNotUnify { location: l, expected: e, given: g, situation: None, .. },
    ) && l == location && (!shows_link(s0, t1) && !shows_link(s0, t2) ==> e == t1 && g == t2))
}

impl<'a> Environment<'a> {
    /// Makes two types equal by binding their unbound type variables; with
    /// `allow_cast`, `Data` is accepted in place of any type that is not a
    /// variable, a function or a string.
    pub fn unify(&mut self, t1: Arc<Type>, t2: Arc<Type>, location: Span, allow_cast: bool) -> (r: Result<
        (),
        Error,
    >)
        requires
            store_closed(old(self).vars@),
        ensures
            grows_within(old(self).vars@, final(self).vars@, fv(old(self).vars@, t1).union(fv(old(self).vars@, t2))),
            same_but_vars(*final(self), *old(self)),
            !allow_cast && r is Ok ==> agree(final(self).vars@, t1, t2),
            tview(t1) == tview(t2) ==> r is Ok && final(self).vars@ == old(self).vars@,
            agree(old(self).vars@, t1, t2) ==> r is Ok && final(self).vars@ == old(self).vars@,
            binds_unbound(old(self).vars@, final(self).vars@, t1, t2, allow_cast, r),
            not_missing(r),
            no_free_vars(old(self).vars@, t1, t2) ==> final(self).vars@ == old(self).vars@,
            fails_plainly(old(self).vars@, t1, t2, location, r),
            unifiable(old(self).vars@, t1, t2) ==> r is Ok,
            allow_cast && cast_accepts(old(self).vars@, t1, t2) ==> r is Ok && final(self).vars@ == old(self).vars@,
            !allow_cast && fv(old(self).vars@, t1).is_empty() && fv(old(self).vars@, t2).is_empty() && !agree(
                old(self).vars@,
                t1,
                t2,
            ) ==> r is Err,
    {
        let ghost u = fv(self.vars@, t1).union(fv(self.vars@, t2));
        let ghost s0 = self.vars@;
        proof {
            lemma_free_finite(mat(self.vars@, tview(t1)));
            lemma_free_finite(mat(self.vars@, tview(t2)));
        }
        let r = self.unify_in(t1, t2, location, allow_cast, Ghost(u));
        proof {
            if !allow_cast && r is Ok && fv(s0, t1).is_empty() && fv(s0, t2).is_empty() {
                let s1 = self.vars@;
                lemma_mat_refines(s0, s1, tview(t1));
                lemma_mat_refines(s0, s1, tview(t2));
                lemma_mat_noop(s1, mat(s0, tview(t1)));
                lemma_mat_noop(s1, mat(s0, tview(t2)));
            }
        }
        r
    }

    fn unify_in(&mut self, t1: Arc<Type>, t2: Arc<Type>, location: Span, allow_cast: bool, Ghost(u): Ghost<Set<u64>>) -> (r: Result<
        (),
        Error,
    >)
        requires
            store_closed(old(self).vars@),
            u.finite(),
            fv(old(self).vars@, t1).subset_of(u),
            fv(old(self).vars@, t2).subset_of(u),
        ensures
            grows_within(old(self).vars@, final(self).vars@, u),
            same_but_vars(*final(self), *old(self)),
            !allow_cast && r is Ok ==> agree(final(self).vars@, t1, t2),
            agree(old(self).vars@, t1, t2) ==> r is Ok && final(self).vars@ == old(self).vars@,
            binds_unbound(old(self).vars@, final(self).vars@, t1, t2, allow_cast, r),
            not_missing(r),
            no_free_vars(old(self).vars@, t1, t2) ==> final(self).vars@ == old(self).vars@,
            fails_plainly(old(self).vars@, t1, t2, location, r),
            allow_cast && cast_accepts(old(self).vars@, t1, t2) ==> r is Ok && final(self).vars@ == old(self).vars@,
            unifiable(old(self).vars@, t1, t2) ==> r is Ok && final(self).vars@.dom().subset_of(
                old(self).vars@.dom().union(fv(old(self).vars@, t1)).union(fv(old(self).vars@, t2)),
            ),
        decreases u.difference(old(self).vars@.dom()).len(), msize(old(self).vars@, t1) + msize(old(self).vars@, t2), swap_flag(old(self).vars@, t1, t2),
    {
        let ghost s0 = self.vars@;
        let m1 = mat_type(&self.vars, &*t1);
        let m2 = mat_type(&self.vars, &*t2);
        proof {
            lemma_mat_closed(s0, tview(t1));
            lemma_mat_closed(s0, tview(t2));
            lemma_grows_refl(s0, u);
            lemma_type_view_shape(inner(m1));
            lemma_type_view_shape(inner(m2));
            lemma_strip_holds(tview(m1));
            lemma_strip_holds(tview(m2));
        }
        if same_type(&*m1, &*m2) {
            return Ok(());
        }
        if allow_cast && (m1.is_data() || m2.is_data()) && !(m1.is_unbound() || m2.is_unbound())
            && !(m1.is_function() || m2.is_function()) && !(m1.is_generic() || m2.is_generic())
            && !(m1.is_string() || m2.is_string()) {
            return Ok(());
        }
        match &*m2 {
            Type::Var { tipo: TypeVar::Link { tipo } } => {
                proof {
                    assert(var_view(TypeVar::Link { tipo: *tipo }) == VarV::Link(Box::new(type_view(**tipo))));
                    assert(type_view(*m2) == TypeV::Var(VarV::Link(Box::new(type_view(**tipo)))));
                    lemma_mat_noop(s0, tview(*tipo));
                    lemma_shape_link_right(mat(s0, tview(t1)), tview(*tipo));
                }
                let out = self.unify_in(t1, tipo.clone(), location, allow_cast, Ghost(u));
                proof {
                    let sf = self.vars@;
                    lemma_mat_refines(s0, sf, tview(t2));
                    assert(mat(sf, type_view(*m2)) == TypeV::Var(VarV::Link(Box::new(mat(sf, tview(*tipo))))));
                }
                return out;
            },
            _ => {},
        }
        match &*m1 {
            Type::Var { tipo } => match tipo {
                TypeVar::Link { tipo: inner } => {
                    proof {
                        assert(var_view(*tipo) == VarV::Link(Box::new(type_view(**inner))));
                        assert(type_view(*m1) == TypeV::Var(VarV::Link(Box::new(type_view(**inner)))));
                        lemma_mat_noop(s0, tview(*inner));
                    }
                    let out = self.unify_in(inner.clone(), t2, location, allow_cast, Ghost(u));
                    proof {
                        let sf = self.vars@;
                        lemma_mat_refines(s0, sf, tview(t1));
                        assert(mat(sf, type_view(*m1)) == TypeV::Var(VarV::Link(Box::new(mat(sf, tview(*inner))))));
                    }
                    return out;
                },
                TypeVar::Unbound { id } => {
                    match unify_unbound_type(&*m2, *id, location) {
                        Err(e) => {
                            return Err(e);
                        },
                        Ok(()) => {},
                    }
                    proof {
                        assert(type_view(*m1) == TypeV::Var(VarV::Unbound(*id)));
                        assert(!s0.contains_key(*id)) by {
                            if s0.contains_key(*id) {
                                assert(free_vars(type_view(*m1)).contains(*id));
                            }
                        }
                        assert(fv(s0, t1).contains(*id));
                        lemma_bind_grows(s0, *id, VarV::Link(Box::new(tview(m2))), u);
                    }
                    let ghost gm2 = tview(m2);
                    self.vars.bind(*id, TypeVar::Link { tipo: m2 });
                    proof {
                        let sf = self.vars@;
                        assert(sf.dom() =~= s0.dom().insert(*id));
                        lemma_mat_refines(s0, sf, tview(t1));
                        lemma_mat_refines(s0, sf, tview(t2));
                        lemma_mat_noop(sf, gm2);
                        assert(sf[*id] == VarV::Link(Box::new(gm2)));
                        assert(mat(sf, type_view(*m1)) == TypeV::Var(VarV::Link(Box::new(gm2))));
                    }
                    return Ok(());
                },
                TypeVar::Generic { id } => {
                    match &*m2 {
                        Type::Var { tipo: TypeVar::Unbound { id: y } } => {
                            proof {
                                assert(type_view(*m2) == TypeV::Var(VarV::Unbound(*y)));
                                assert(!s0.contains_key(*y)) by {
                                    if s0.contains_key(*y) {
                                        assert(free_vars(type_view(*m2)).contains(*y));
                                    }
                                }
                                assert(fv(s0, t2).contains(*y));
                                lemma_bind_grows(s0, *y, VarV::Generic(*id), u);
                            }
                            self.vars.bind(*y, TypeVar::Generic { id: *id });
                            proof {
                                let sf = self.vars@;
                                lemma_mat_refines(s0, sf, tview(t1));
                                lemma_mat_refines(s0, sf, tview(t2));
                                assert(sf[*y] == VarV::Generic(*id));
                                assert(mat(sf, type_view(*m2)) == TypeV::Var(VarV::Generic(*id)));
                                assert(mat(sf, type_view(*m1)) == TypeV::Var(VarV::Generic(*id)));
                            }
                            return Ok(());
                        },
                        _ => {},
                    }
                    return Err(
                        Error::CouldNotUnify { location, expected: t1, given: t2, situation: None, rigid_type_names: Vec::new() },
                    );
                },
            },
            _ => {},
        }
        if m2.is_var() {
            proof {
                assert(swap_flag(s0, t1, t2) == 1);
                assert(swap_flag(s0, t2, t1) == 0);
            }
            return match self.unify_in(t2, t1, location, allow_cast, Ghost(u)) {
                Ok(()) => Ok(()),
                Err(e) => Err(e.flip_unify()),
            };
        }
        proof {
            if agree(s0, t1, t2) {
                assert(res(tview(m1)) == res(tview(m2)));
            }
        }
        let pair = (&*m1, &*m2);
        match pair {
            (Type::App { module: mo1, name: n1, args: a1, .. }, Type::App { module: mo2, name: n2, args: a2, .. }) => {
                if str_eq(mo1.as_str(), mo2.as_str()) && str_eq(n1.as_str(), n2.as_str()) && a1.len() == a2.len() {
                    proof {
                        lemma_types_view(a1@);
                        lemma_types_view(a2@);
                        assert(types_view(a1@).take(0) =~= Seq::<TypeV>::empty());
                        assert(types_view(a2@).take(0) =~= Seq::<TypeV>::empty());
                        assert(s0.dom().union(free_vars_list(Seq::<TypeV>::empty())).union(free_vars_list(Seq::<TypeV>::empty())) =~= s0.dom());
                    }
                    let mut i: usize = 0;
                    while i < a1.len()
                        invariant
                            i <= a1@.len(),
                            a1@.len() == a2@.len(),
                            u.finite(),
                            s0 == old(self).vars@,
                            grows_within(s0, self.vars@, u),
                            same_but_vars(*self, *old(self)),
                            !allow_cast ==> forall|j: int| 0 <= j < i ==> #[trigger] agree(self.vars@, a1@[j], a2@[j]),
                            tview(t1) != tview(t2),
                            agree(s0, t1, t2) ==> self.vars@ == s0 && res_list(types_view(a1@)) == res_list(types_view(a2@)),
                            !(strip(mat(s0, tview(t1))) is Var) && !(strip(mat(s0, tview(t2))) is Var),
                            no_free_vars(s0, t1, t2) ==> self.vars@ == s0 && free_vars_list(types_view(a1@)).is_empty()
                                && free_vars_list(types_view(a2@)).is_empty(),
                            !shows_link(s0, t1) && !shows_link(s0, t2),
                            !(allow_cast && cast_accepts(s0, t1, t2)),
                            unifiable(s0, t1, t2) ==> self.vars@.dom().subset_of(s0.dom().union(free_vars_list(
                                types_view(a1@).take(i as int),
                            )).union(free_vars_list(types_view(a2@).take(i as int)))),
                            unifiable(s0, t1, t2) ==> lin_list(types_view(a1@)) && lin_list(types_view(a2@)) && free_vars_list(
                                types_view(a1@),
                            ).subset_of(fv(s0, t1)) && free_vars_list(types_view(a2@)).subset_of(fv(s0, t2)) && (forall|j: int|
                                0 <= j < a1@.len() ==> same_shape(#[trigger] types_view(a1@)[j], types_view(a2@)[j])),
                            free_vars_list(types_view(a1@)).disjoint(s0.dom()),
                            free_vars_list(types_view(a2@)).disjoint(s0.dom()),
                            free_vars_list(types_view(a1@)).subset_of(u),
                            free_vars_list(types_view(a2@)).subset_of(u),
                            types_size(types_view(a1@)) < msize(s0, t1),
                            types_size(types_view(a2@)) < msize(s0, t2),
                        decreases a1@.len() - i,
                    {
                        let ghost sc = self.vars@;
                        proof {
                            lemma_child(s0, a1@, i as int);
                            lemma_child(s0, a2@, i as int);
                            assert(free_vars(mat(sc, tview(a1@[i as int]))).subset_of(free_vars(mat(s0, tview(a1@[i as int]))).union(u)));
                            assert(free_vars(mat(sc, tview(a2@[i as int]))).subset_of(free_vars(mat(s0, tview(a2@[i as int]))).union(u)));
                            if sc.dom() != s0.dom() {
                                lemma_grows_measure(s0, sc, u);
                            }
                        }
                        proof {
                            if agree(s0, t1, t2) {
                                lemma_agree_args(s0, a1@, a2@, i as int);
                            }
                        }
                        proof {
                            if unifiable(s0, t1, t2) {
                                lemma_types_view(a1@);
                                lemma_types_view(a2@);
                                lemma_part_unifiable(s0, sc, types_view(a1@), types_view(a2@), fv(s0, t1), fv(s0, t2), i as int);
                                assert(unifiable(sc, a1@[i as int], a2@[i as int]));
                            }
                        }
                        let out = self.unify_in(a1[i].clone(), a2[i].clone(), location, allow_cast, Ghost(u));
                        proof {
                            if unifiable(s0, t1, t2) {
                                lemma_fvl_take(types_view(a1@), i as int);
                                lemma_fvl_take(types_view(a2@), i as int);
                            }
                            lemma_grows_trans(s0, sc, self.vars@, u);
                            if !allow_cast && out is Ok {
                                lemma_agree_all_refines(sc, self.vars@, a1@, a2@, i as int);
                            }
                        }
                        match unify_enclosed_type(t1.clone(), t2.clone(), out) {
                            Ok(()) => {},
                            Err(e) => {
                                return Err(e);
                            },
                        }
                        i = i + 1;
                    }
                    proof {
                        if !allow_cast {
                            let sf = self.vars@;
                            lemma_agree_lists(sf, a1@, a2@);
                            lemma_mat_refines(s0, sf, tview(t1));
                            lemma_mat_refines(s0, sf, tview(t2));
                        }
                        lemma_types_view(a1@);
                        lemma_types_view(a2@);
                        assert(types_view(a1@).take(a1@.len() as int) =~= types_view(a1@));
                        assert(types_view(a2@).take(a2@.len() as int) =~= types_view(a2@));
                    }
                    return Ok(());
                }
            },
            (Type::Tuple { elems: a1 }, Type::Tuple { elems: a2 }) => {
                if a1.len() == a2.len() {
                    proof {
                        lemma_types_view(a1@);
                        lemma_types_view(a2@);
                        assert(types_view(a1@).take(0) =~= Seq::<TypeV>::empty());
                        assert(types_view(a2@).take(0) =~= Seq::<TypeV>::empty());
                        assert(s0.dom().union(free_vars_list(Seq::<TypeV>::empty())).union(free_vars_list(Seq::<TypeV>::empty())) =~= s0.dom());
                    }
                    let mut i: usize = 0;
                    while i < a1.len()
                        invariant
                            i <= a1@.len(),
                            a1@.len() == a2@.len(),
                            u.finite(),
                            s0 == old(self).vars@,
                            grows_within(s0, self.vars@, u),
                            same_but_vars(*self, *old(self)),
                            !allow_cast ==> forall|j: int| 0 <= j < i ==> #[trigger] agree(self.vars@, a1@[j], a2@[j]),
                            tview(t1) != tview(t2),
                            agree(s0, t1, t2) ==> self.vars@ == s0 && res_list(types_view(a1@)) == res_list(types_view(a2@)),
                            !(strip(mat(s0, tview(t1))) is Var) && !(strip(mat(s0, tview(t2))) is Var),
                            no_free_vars(s0, t1, t2) ==> self.vars@ == s0 && free_vars_list(types_view(a1@)).is_empty()
                                && free_vars_list(types_view(a2@)).is_empty(),
                            !shows_link(s0, t1) && !shows_link(s0, t2),
                            !(allow_cast && cast_accepts(s0, t1, t2)),
                            unifiable(s0, t1, t2) ==> self.vars@.dom().subset_of(s0.dom().union(free_vars_list(
                                types_view(a1@).take(i as int),
                            )).union(free_vars_list(types_view(a2@).take(i as int)))),
                            unifiable(s0, t1, t2) ==> lin_list(types_view(a1@)) && lin_list(types_view(a2@)) && free_vars_list(
                                types_view(a1@),
                            ).subset_of(fv(s0, t1)) && free_vars_list(types_view(a2@)).subset_of(fv(s0, t2)) && (forall|j: int|
                                0 <= j < a1@.len() ==> same_shape(#[trigger] types_view(a1@)[j], types_view(a2@)[j])),
                            free_vars_list(types_view(a1@)).disjoint(s0.dom()),
                            free_vars_list(types_view(a2@)).disjoint(s0.dom()),
                            free_vars_list(types_view(a1@)).subset_of(u),
                            free_vars_list(types_view(a2@)).subset_of(u),
                            types_size(types_view(a1@)) < msize(s0, t1),
                            types_size(types_view(a2@)) < msize(s0, t2),
                        decreases a1@.len() - i,
                    {
                        let ghost sc = self.vars@;
                        proof {
                            lemma_child(s0, a1@, i as int);
                            lemma_child(s0, a2@, i as int);
                            assert(free_vars(mat(sc, tview(a1@[i as int]))).subset_of(free_vars(mat(s0, tview(a1@[i as int]))).union(u)));
                            assert(free_vars(mat(sc, tview(a2@[i as int]))).subset_of(free_vars(mat(s0, tview(a2@[i as int]))).union(u)));
                            if sc.dom() != s0.dom() {
                                lemma_grows_measure(s0, sc, u);
                            }
                        }
                        proof {
                            if agree(s0, t1, t2) {
                                lemma_agree_args(s0, a1@, a2@, i as int);
                            }
                        }
                        proof {
                            if unifiable(s0, t1, t2) {
                                lemma_types_view(a1@);
                                lemma_types_view(a2@);
                                lemma_part_unifiable(s0, sc, types_view(a1@), types_view(a2@), fv(s0, t1), fv(s0, t2), i as int);
                                assert(unifiable(sc, a1@[i as int], a2@[i as int]));
                            }
                        }
                        let out = self.unify_in(a1[i].clone(), a2[i].clone(), location, allow_cast, Ghost(u));
                        proof {
                            if unifiable(s0, t1, t2) {
                                lemma_fvl_take(types_view(a1@), i as int);
                                lemma_fvl_take(types_view(a2@), i as int);
                            }
                            lemma_grows_trans(s0, sc, self.vars@, u);
                            if !allow_cast && out is Ok {
                                lemma_agree_all_refines(sc, self.vars@, a1@, a2@, i as int);
                            }
                        }
                        match unify_enclosed_type(t1.clone(), t2.clone(), out) {
                            Ok(()) => {},
                            Err(e) => {
                                return Err(e);
                            },
                        }
                        i = i + 1;
                    }
                    proof {
                        if !allow_cast {
                            let sf = self.vars@;
                            lemma_agree_lists(sf, a1@, a2@);
                            lemma_mat_refines(s0, sf, tview(t1));
                            lemma_mat_refines(s0, sf, tview(t2));
                        }
                        lemma_types_view(a1@);
                        lemma_types_view(a2@);
                        assert(types_view(a1@).take(a1@.len() as int) =~= types_view(a1@));
                        assert(types_view(a2@).take(a2@.len() as int) =~= types_view(a2@));
                    }
                    return Ok(());
                }
            },
            (Type::Fn { args: a1, ret: r1 }, Type::Fn { args: a2, ret: r2 }) => {
                if a1.len() == a2.len() {
                    proof {
                        lemma_types_view(a1@);
                        lemma_types_view(a2@);
                        assert(types_view(a1@).take(0) =~= Seq::<TypeV>::empty());
                        assert(types_view(a2@).take(0) =~= Seq::<TypeV>::empty());
                        assert(s0.dom().union(free_vars_list(Seq::<TypeV>::empty())).union(free_vars_list(Seq::<TypeV>::empty())) =~= s0.dom());
                    }
                    let mut i: usize = 0;
                    while i < a1.len()
                        invariant
                            i <= a1@.len(),
                            a1@.len() == a2@.len(),
                            u.finite(),
                            s0 == old(self).vars@,
                            grows_within(s0, self.vars@, u),
                            same_but_vars(*self, *old(self)),
                            !allow_cast ==> forall|j: int| 0 <= j < i ==> #[trigger] agree(self.vars@, a1@[j], a2@[j]),
                            tview(t1) != tview(t2),
                            agree(s0, t1, t2) ==> self.vars@ == s0 && res_list(types_view(a1@)) == res_list(types_view(a2@)),
                            !(strip(mat(s0, tview(t1))) is Var) && !(strip(mat(s0, tview(t2))) is Var),
                            no_free_vars(s0, t1, t2) ==> self.vars@ == s0 && free_vars_list(types_view(a1@)).is_empty()
                                && free_vars_list(types_view(a2@)).is_empty(),
                            !shows_link(s0, t1) && !shows_link(s0, t2),
                            !(allow_cast && cast_accepts(s0, t1, t2)),
                            unifiable(s0, t1, t2) ==> self.vars@.dom().subset_of(s0.dom().union(free_vars_list(
                                types_view(a1@).take(i as int),
                            )).union(free_vars_list(types_view(a2@).take(i as int)))),
                            unifiable(s0, t1, t2) ==> lin_list(types_view(a1@)) && lin_list(types_view(a2@)) && free_vars_list(
                                types_view(a1@),
                            ).subset_of(fv(s0, t1)) && free_vars_list(types_view(a2@)).subset_of(fv(s0, t2)) && (forall|j: int|
                                0 <= j < a1@.len() ==> same_shape(#[trigger] types_view(a1@)[j], types_view(a2@)[j])),
                            free_vars_list(types_view(a1@)).disjoint(s0.dom()),
                            free_vars_list(types_view(a2@)).disjoint(s0.dom()),
                            free_vars_list(types_view(a1@)).subset_of(u),
                            free_vars_list(types_view(a2@)).subset_of(u),
                            types_size(types_view(a1@)) + type_size(tview(*r1)) < msize(s0, t1),
                            types_size(types_view(a2@)) + type_size(tview(*r2)) < msize(s0, t2),
                            free_vars(tview(*r1)).disjoint(s0.dom()),
                            free_vars(tview(*r2)).disjoint(s0.dom()),
                            free_vars(tview(*r1)).subset_of(u),
                            free_vars(tview(*r2)).subset_of(u),
                            no_free_vars(s0, t1, t2) ==> free_vars(tview(*r1)).is_empty() && free_vars(tview(*r2)).is_empty(),
                            unifiable(s0, t1, t2) ==> lin(tview(*r1)) && lin(tview(*r2)) && free_vars(tview(*r1)).subset_of(fv(s0, t1))
                                && free_vars(tview(*r2)).subset_of(fv(s0, t2)) && free_vars_list(types_view(a1@)).disjoint(
                                free_vars(tview(*r1)),
                            ) && free_vars_list(types_view(a2@)).disjoint(free_vars(tview(*r2))) && same_shape(tview(*r1), tview(*r2)),
                        decreases a1@.len() - i,
                    {
                        let ghost sc = self.vars@;
                        proof {
                            lemma_child(s0, a1@, i as int);
                            lemma_child(s0, a2@, i as int);
                            assert(free_vars(mat(sc, tview(a1@[i as int]))).subset_of(free_vars(mat(s0, tview(a1@[i as int]))).union(u)));
                            assert(free_vars(mat(sc, tview(a2@[i as int]))).subset_of(free_vars(mat(s0, tview(a2@[i as int]))).union(u)));
                            if sc.dom() != s0.dom() {
                                lemma_grows_measure(s0, sc, u);
                            }
                        }
                        proof {
                            if agree(s0, t1, t2) {
                                lemma_agree_args(s0, a1@, a2@, i as int);
                            }
                        }
                        proof {
                            if unifiable(s0, t1, t2) {
                                lemma_types_view(a1@);
                                lemma_types_view(a2@);
                                lemma_part_unifiable(s0, sc, types_view(a1@), types_view(a2@), fv(s0, t1), fv(s0, t2), i as int);
                                assert(unifiable(sc, a1@[i as int], a2@[i as int]));
                            }
                        }
                        let out = self.unify_in(a1[i].clone(), a2[i].clone(), location, allow_cast, Ghost(u));
                        proof {
                            if unifiable(s0, t1, t2) {
                                lemma_fvl_take(types_view(a1@), i as int);
                                lemma_fvl_take(types_view(a2@), i as int);
                            }
                            lemma_grows_trans(s0, sc, self.vars@, u);
                            if !allow_cast && out is Ok {
                                lemma_agree_all_refines(sc, self.vars@, a1@, a2@, i as int);
                            }
                        }
                        match out {
                            Ok(()) => {},
                            Err(_) => {
                                return Err(
                                    Error::CouldNotUnify { location, expected: t1.clone(), given: t2.clone(), situation: None, rigid_type_names: Vec::new() },
                                );
                            },
                        }
                        i = i + 1;
                    }
                    let ghost sc = self.vars@;
                    proof {
                        lemma_mat_noop(s0, tview(*r1));
                        lemma_mat_noop(s0, tview(*r2));
                        assert(free_vars(mat(sc, tview(*r1))).subset_of(free_vars(mat(s0, tview(*r1))).union(u)));
                        assert(free_vars(mat(sc, tview(*r2))).subset_of(free_vars(mat(s0, tview(*r2))).union(u)));
                        if sc.dom() != s0.dom() {
                            lemma_grows_measure(s0, sc, u);
                        }
                    }
                    proof {
                        if agree(s0, t1, t2) {
                            assert(res(tview(*r1)) == res(tview(*r2)));
                            assert(agree(s0, *r1, *r2));
                        }
                    }
                    proof {
                        if unifiable(s0, t1, t2) {
                            lemma_types_view(a1@);
                            lemma_types_view(a2@);
                            assert(types_view(a1@).take(a1@.len() as int) =~= types_view(a1@));
                            assert(types_view(a2@).take(a2@.len() as int) =~= types_view(a2@));
                            assert(free_vars(tview(*r1)).disjoint(sc.dom()));
                            assert(free_vars(tview(*r2)).disjoint(sc.dom()));
                            lemma_mat_noop(sc, tview(*r1));
                            lemma_mat_noop(sc, tview(*r2));
                            assert(unifiable(sc, *r1, *r2));
                        }
                    }
                    let out = self.unify_in(r1.clone(), r2.clone(), location, allow_cast, Ghost(u));
                    proof {
                        lemma_grows_trans(s0, sc, self.vars@, u);
                        if !allow_cast && out is Ok {
                            let sf = self.vars@;
                            lemma_agree_all_refines(sc, sf, a1@, a2@, a1@.len() as int);
                            lemma_agree_lists(sf, a1@, a2@);
                            lemma_mat_refines(s0, sf, tview(t1));
                            lemma_mat_refines(s0, sf, tview(t2));
                        }
                    }
                    return match out {
                        Ok(()) => Ok(()),
                        Err(_) => Err(
                            Error::CouldNotUnify { location, expected: t1, given: t2, situation: None, rigid_type_names: Vec::new() },
                        ),
                    };
                }
            },
            _ => {},
        }
        proof {
            if agree(s0, t1, t2) {
                lemma_res_shape(tview(m1));
                lemma_res_shape(tview(m2));
                match (inner(m1), inner(m2)) {
                    (Type::App { args: a1, .. }, Type::App { args: a2, .. }) => {
                        lemma_types_view(a1@);
                        lemma_types_view(a2@);
                        crate::lang::tipo::resolve::lemma_res_list_index(types_view(a1@));
                        crate::lang::tipo::resolve::lemma_res_list_index(types_view(a2@));
                    },
                    (Type::Tuple { elems: a1 }, Type::Tuple { elems: a2 }) => {
                        lemma_types_view(a1@);
                        lemma_types_view(a2@);
                        crate::lang::tipo::resolve::lemma_res_list_index(types_view(a1@));
                        crate::lang::tipo::resolve::lemma_res_list_index(types_view(a2@));
                    },
                    (Type::Fn { args: a1, .. }, Type::Fn { args: a2, .. }) => {
                        lemma_types_view(a1@);
                        lemma_types_view(a2@);
                        crate::lang::tipo::resolve::lemma_res_list_index(types_view(a1@));
                        crate::lang::tipo::resolve::lemma_res_list_index(types_view(a2@));
                    },
                    _ => {},
                }
            }
            if unifiable(s0, t1, t2) {
                match (inner(m1), inner(m2)) {
                    (Type::App { args: a1, .. }, Type::App { args: a2, .. }) => {
                        lemma_types_view(a1@);
                        lemma_types_view(a2@);
                    },
                    (Type::Tuple { elems: a1 }, Type::Tuple { elems: a2 }) => {
                        lemma_types_view(a1@);
                        lemma_types_view(a2@);
                    },
                    (Type::Fn { args: a1, .. }, Type::Fn { args: a2, .. }) => {
                        lemma_types_view(a1@);
                        lemma_types_view(a2@);
                    },
                    _ => {},
                }
            }
        }
        Err(Error::CouldNotUnify { location, expected: t1, given: t2, situation: None, rigid_type_names: Vec::new() })
    }
}

} // verus!
