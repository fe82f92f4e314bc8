use vstd::prelude::*;
use std::sync::Arc;
use crate::lang::tipo::Type;
use crate::lang::tipo::unify::{
    TypeV, VarV, mat, mats, store_closed, store_bind, subst, tview, types_view, lemma_types_view,
    lemma_mat_bind, lemma_mat_noop,
};

verus! {

/// A type with every link followed, and with the visibility of named types
/// set aside: what two types must share to be the same type.
pub open spec fn res(t: TypeV) -> TypeV
    decreases t, 1nat,
{
    match t {
        TypeV::App { module, name, args, .. } => TypeV::App { public: true, module, name, args: res_list(args) },
        TypeV::Fn { args, ret } => TypeV::Fn { args: res_list(args), ret: Box::new(res(*ret)) },
        TypeV::Var(v) => match v {
            VarV::Link(b) => res(*b),
            _ => t,
        },
        TypeV::Tuple(elems) => TypeV::Tuple(res_list(elems)),
    }
}

/// Each type of a list as [`res`] gives it.
pub open spec fn res_list(ts: Seq<TypeV>) -> Seq<TypeV>
    decreases ts, 0nat,
{
    if ts.len() == 0 {
        Seq::empty()
    } else {
        res_list(ts.drop_last()).push(res(ts.last()))
    }
}

/// A variable's state with its link, if any, shown under the store.
pub open spec fn matv(s: Map<u64, VarV>, st: VarV) -> VarV {
    match st {
        VarV::Link(b) => VarV::Link(Box::new(mat(s, *b))),
        _ => st,
    }
}

/// The store `s2` came from `s1` by binding more variables: it keeps every
/// variable of `s1`, in the state `s1` gave it as `s2` shows it.
pub open spec fn refines(s1: Map<u64, VarV>, s2: Map<u64, VarV>) -> bool {
    forall|x: u64| #[trigger] s1.contains_key(x) ==> s2.contains_key(x) && s2[x] == matv(s2, s1[x])
}

/// Two types are the same once the store's bindings are shown.
pub open spec fn agree(s: Map<u64, VarV>, t1: Arc<Type>, t2: Arc<Type>) -> bool {
    res(mat(s, tview(t1))) == res(mat(s, tview(t2)))
}

pub proof fn lemma_mats_index(s: Map<u64, VarV>, ts: Seq<TypeV>)
    ensures
        mats(s, ts).len() == ts.len(),
        forall|i: int| 0 <= i < ts.len() ==> #[trigger] mats(s, ts)[i] == mat(s, ts[i]),
    decreases ts.len(),
{
    if ts.len() > 0 {
        lemma_mats_index(s, ts.drop_last());
        assert forall|i: int| 0 <= i < ts.len() implies #[trigger] mats(s, ts)[i] == mat(s, ts[i]) by {
            if i < ts.len() - 1 {
                assert(ts.drop_last()[i] == ts[i]);
            }
        }
    }
}

pub proof fn lemma_res_list_index(ts: Seq<TypeV>)
    ensures
        res_list(ts).len() == ts.len(),
        forall|i: int| 0 <= i < ts.len() ==> #[trigger] res_list(ts)[i] == res(ts[i]),
    decreases ts.len(),
{
    if ts.len() > 0 {
        lemma_res_list_index(ts.drop_last());
        assert forall|i: int| 0 <= i < ts.len() implies #[trigger] res_list(ts)[i] == res(ts[i]) by {
            if i < ts.len() - 1 {
                assert(ts.drop_last()[i] == ts[i]);
            }
        }
    }
}

/// Showing a type under a store that refines another is showing it under
/// the other first.
pub proof fn lemma_mat_refines(s1: Map<u64, VarV>, s2: Map<u64, VarV>, t: TypeV)
    requires
        store_closed(s1),
        refines(s1, s2),
    ensures
        mat(s2, mat(s1, t)) == mat(s2, t),
    decreases t, 1nat,
{
    match t {
        TypeV::App { args, .. } => lemma_mats_refines(s1, s2, args),
        TypeV::Fn { args, ret } => {
            lemma_mats_refines(s1, s2, args);
            lemma_mat_refines(s1, s2, *ret);
        },
        TypeV::Var(v) => match v {
            VarV::Unbound(id) => {
                if s1.contains_key(id) {
                    match s1[id] {
                        VarV::Link(b) => {},
                        VarV::Generic(_) => {},
                        VarV::Unbound(_) => {
                            assert(false);
                        },
                    }
                }
            },
            VarV::Link(b) => lemma_mat_refines(s1, s2, *b),
            VarV::Generic(_) => {},
        },
        TypeV::Tuple(elems) => lemma_mats_refines(s1, s2, elems),
    }
}

pub proof fn lemma_mats_refines(s1: Map<u64, VarV>, s2: Map<u64, VarV>, ts: Seq<TypeV>)
    requires
        store_closed(s1),
        refines(s1, s2),
    ensures
        mats(s2, mats(s1, ts)) == mats(s2, ts),
    decreases ts, 0nat,
{
    if ts.len() > 0 {
        lemma_mats_refines(s1, s2, ts.drop_last());
        lemma_mat_refines(s1, s2, ts.last());
        let m = mats(s1, ts);
        assert(m.drop_last() =~= mats(s1, ts.drop_last()));
        assert(m.last() == mat(s1, ts.last()));
    }
}

/// Following links before showing a type changes nothing once links are
/// followed again.
pub proof fn lemma_res_mat_res(s: Map<u64, VarV>, t: TypeV)
    ensures
        res(mat(s, res(t))) == res(mat(s, t)),
    decreases t, 1nat,
{
    match t {
        TypeV::App { args, .. } => lemma_res_mats_res(s, args),
        TypeV::Fn { args, ret } => {
            lemma_res_mats_res(s, args);
            lemma_res_mat_res(s, *ret);
        },
        TypeV::Var(v) => match v {
            VarV::Link(b) => lemma_res_mat_res(s, *b),
            _ => {},
        },
        TypeV::Tuple(elems) => lemma_res_mats_res(s, elems),
    }
}

pub proof fn lemma_res_mats_res(s: Map<u64, VarV>, ts: Seq<TypeV>)
    ensures
        res_list(mats(s, res_list(ts))) == res_list(mats(s, ts)),
    decreases ts, 0nat,
{
    if ts.len() > 0 {
        lemma_res_mats_res(s, ts.drop_last());
        lemma_res_mat_res(s, ts.last());
        let r = res_list(ts);
        assert(r.drop_last() =~= res_list(ts.drop_last()));
        assert(r.last() == res(ts.last()));
        let m = mats(s, r);
        assert(m.drop_last() =~= mats(s, res_list(ts.drop_last())));
        let m2 = mats(s, ts);
        assert(m2.drop_last() =~= mats(s, ts.drop_last()));
    }
}

/// A closed store refines itself.
pub proof fn lemma_refines_refl(s: Map<u64, VarV>)
    requires
        store_closed(s),
    ensures
        refines(s, s),
{
    assert forall|x: u64| #[trigger] s.contains_key(x) implies s.contains_key(x) && s[x] == matv(s, s[x]) by {
        match s[x] {
            VarV::Link(b) => {
                lemma_mat_noop(s, *b);
            },
            _ => {},
        }
    }
}

/// Refinement is transitive.
pub proof fn lemma_refines_trans(s0: Map<u64, VarV>, s1: Map<u64, VarV>, s2: Map<u64, VarV>)
    requires
        store_closed(s1),
        refines(s0, s1),
        refines(s1, s2),
    ensures
        refines(s0, s2),
{
    assert forall|x: u64| #[trigger] s0.contains_key(x) implies s2.contains_key(x) && s2[x] == matv(s2, s0[x]) by {
        assert(s1.contains_key(x));
        match s0[x] {
            VarV::Link(b) => {
                lemma_mat_refines(s1, s2, *b);
            },
            _ => {},
        }
    }
}

/// Binding a variable refines a closed store.
pub proof fn lemma_bind_refines(s: Map<u64, VarV>, v: u64, st: VarV)
    requires
        store_closed(s),
        !s.contains_key(v),
    ensures
        refines(s, store_bind(s, v, st)),
{
    let b = store_bind(s, v, st);
    assert forall|x: u64| #[trigger] s.contains_key(x) implies b.contains_key(x) && b[x] == matv(b, s[x]) by {
        match s[x] {
            VarV::Link(bx) => {
                lemma_mat_bind(s, v, st, *bx);
                lemma_mat_noop(s, *bx);
                assert(b[x] == VarV::Link(Box::new(subst(*bx, v, st))));
            },
            VarV::Generic(_) => {},
            VarV::Unbound(_) => {
                assert(false);
            },
        }
    }
}

/// Types that agree under a store agree under any store that refines it.
pub proof fn lemma_agree_refines(s1: Map<u64, VarV>, s2: Map<u64, VarV>, a: TypeV, b: TypeV)
    requires
        store_closed(s1),
        refines(s1, s2),
        res(mat(s1, a)) == res(mat(s1, b)),
    ensures
        res(mat(s2, a)) == res(mat(s2, b)),
{
    lemma_mat_refines(s1, s2, a);
    lemma_mat_refines(s1, s2, b);
    lemma_res_mat_res(s2, mat(s1, a));
    lemma_res_mat_res(s2, mat(s1, b));
}

/// The first `n` types of two lists agree pairwise, under any store that
/// refines one under which they did.
pub proof fn lemma_agree_all_refines(
    s1: Map<u64, VarV>,
    s2: Map<u64, VarV>,
    a: Seq<Arc<Type>>,
    b: Seq<Arc<Type>>,
    n: int,
)
    requires
        store_closed(s1),
        refines(s1, s2),
        forall|j: int| 0 <= j < n ==> #[trigger] agree(s1, a[j], b[j]),
    ensures
        forall|j: int| 0 <= j < n ==> #[trigger] agree(s2, a[j], b[j]),
{
    assert forall|j: int| 0 <= j < n implies #[trigger] agree(s2, a[j], b[j]) by {
        assert(agree(s1, a[j], b[j]));
        lemma_agree_refines(s1, s2, tview(a[j]), tview(b[j]));
    }
}

/// Lists of the same length whose types agree pairwise agree as lists.
pub proof fn lemma_agree_lists(s: Map<u64, VarV>, a: Seq<Arc<Type>>, b: Seq<Arc<Type>>)
    requires
        a.len() == b.len(),
        forall|j: int| 0 <= j < a.len() ==> #[trigger] agree(s, a[j], b[j]),
    ensures
        res_list(mats(s, types_view(a))) == res_list(mats(s, types_view(b))),
{
    lemma_types_view(a);
    lemma_types_view(b);
    lemma_mats_index(s, types_view(a));
    lemma_mats_index(s, types_view(b));
    lemma_res_list_index(mats(s, types_view(a)));
    lemma_res_list_index(mats(s, types_view(b)));
    assert forall|j: int| 0 <= j < a.len() implies res_list(mats(s, types_view(a)))[j] == res_list(
        mats(s, types_view(b)),
    )[j] by {
        assert(agree(s, a[j], b[j]));
    }
    assert(res_list(mats(s, types_view(a))) =~= res_list(mats(s, types_view(b))));
}

} // verus!
