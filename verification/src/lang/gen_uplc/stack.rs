use vstd::prelude::*;
use std::rc::Rc;
use std::sync::Arc;
use indexmap::IndexSet;
use crate::lang::ast::{BinOp, Span, UnOp};
use crate::lang::builtins::{data, is_prelude_app, list, void};
use crate::lang::gen_uplc::air::{instr_view, Air, AirKind};
use crate::lang::gen_uplc::scope::{replaced, Scope};
use crate::lang::id_gen::IdGenerator;
use crate::lang::tipo::{Type, ValueConstructor, ValueConstructorVariant};
use crate::text::owned;
use crate::uplc::builder::EXPECT_ON_LIST;
use crate::uplc::builtins::DefaultFunction;

verus! {

/// A sequence of instructions seen as scope paths and kinds.
pub type Instrs = Seq<(Seq<u64>, AirKind)>;

/// Instructions moved under the scope `s`.
pub open spec fn rescope(is: Instrs, s: Seq<u64>) -> Instrs {
    is.map_values(|p: (Seq<u64>, AirKind)| (replaced(p.0, s), p.1))
}

/// The instructions of several stacks, in order, each moved under `s`.
pub open spec fn children_instrs(stacks: Seq<AirStack>, s: Seq<u64>) -> Instrs
    decreases stacks.len(),
{
    if stacks.len() == 0 {
        Seq::empty()
    } else {
        children_instrs(stacks.drop_last(), s) + rescope(stacks.last().instrs(), s)
    }
}

/// A stack of instructions under construction, with the scope of the next
/// instruction and a shared source of scope identifiers.
pub struct AirStack {
    pub id_gen: Rc<IdGenerator>,
    pub scope: Scope,
    pub air: Vec<Air>,
}

/// The instructions of several stacks, in order, unchanged.
pub open spec fn sequence_instrs(stacks: Seq<AirStack>) -> Instrs
    decreases stacks.len(),
{
    if stacks.len() == 0 {
        Seq::empty()
    } else {
        sequence_instrs(stacks.drop_last()) + stacks.last().instrs()
    }
}

/// The kinds of a sequence of instructions.
pub open spec fn kinds(is: Instrs) -> Seq<AirKind> {
    is.map_values(|p: (Seq<u64>, AirKind)| p.1)
}

/// Moving instructions to another scope keeps their kinds.
pub proof fn lemma_kinds_rescope(is: Instrs, s: Seq<u64>)
    ensures
        kinds(rescope(is, s)) == kinds(is),
{
    assert(kinds(rescope(is, s)) =~= kinds(is));
}

/// The instructions of one stack, moved under `s`.
pub proof fn lemma_children_one(a: AirStack, s: Seq<u64>)
    ensures
        children_instrs(seq![a], s) == rescope(a.instrs(), s),
{
    assert(seq![a].drop_last() =~= Seq::<AirStack>::empty());
    assert(children_instrs(Seq::<AirStack>::empty(), s) == Seq::<(Seq<u64>, AirKind)>::empty());
    assert(seq![a].last() == a);
    assert(children_instrs(seq![a], s) =~= rescope(a.instrs(), s));
}

/// The instructions of two stacks, moved under `s`.
pub proof fn lemma_children_two(a: AirStack, b: AirStack, s: Seq<u64>)
    ensures
        children_instrs(seq![a, b], s) == rescope(a.instrs(), s) + rescope(b.instrs(), s),
{
    assert(seq![a, b].drop_last() =~= seq![a]);
    lemma_children_one(a, s);
}

/// The kinds of concatenated instructions.
pub proof fn lemma_kinds_concat(a: Instrs, b: Instrs)
    ensures
        kinds(a + b) == kinds(a) + kinds(b),
{
    assert(kinds(a + b) =~= kinds(a) + kinds(b));
}

/// The function that the generated list check calls: a public module
/// function of two arguments, named after the check, returning unit.
pub open spec fn is_expect_on_list_fn(c: ValueConstructor) -> bool {
    &&& c.public
    &&& is_prelude_app(*c.tipo, "Void"@, Seq::empty())
    &&& c.variant matches ValueConstructorVariant::ModuleFn {
        name,
        field_map,
        module,
        arity,
        location,
        builtin,
    }
    &&& name@ == EXPECT_ON_LIST@
    &&& field_map is None
    &&& module@ == Seq::<char>::empty()
    &&& arity == 2
    &&& location == (Span { start: 0, end: 0 })
    &&& builtin is None
}

/// The kinds of the instructions of the generated list check, in order.
pub open spec fn expect_on_list_kinds(k: Seq<AirKind>) -> bool {
    &&& k.len() == 14
    &&& k[0] matches AirKind::DefineFunc { func_name, module_name, params, recursive, variant_name }
        && func_name@ == EXPECT_ON_LIST@ && module_name@.len() == 0 && params@.len() == 2
        && params@[0]@ == "__list_to_check"@ && params@[1]@ == "__check_with"@ && recursive
        && variant_name@.len() == 0
    &&& k[1] matches AirKind::ListClause { tail_name, next_tail_name, complex_clause, tipo }
        && tail_name@ == "__list_to_check"@ && next_tail_name is None && !complex_clause
        && is_prelude_app(*tipo, "Void"@, Seq::empty())
    &&& k[2] == AirKind::Void
    &&& k[3] == AirKind::Void
    &&& k[4] matches AirKind::Builtin { count, func, tipo } && count == 2 && func
        == DefaultFunction::ChooseUnit && is_prelude_app(*tipo, "Void"@, Seq::empty())
    &&& k[5] matches AirKind::Call { count, tipo } && count == 1 && is_prelude_app(
        *tipo,
        "Void"@,
        Seq::empty(),
    )
    &&& k[6] matches AirKind::Var { constructor, name, variant_name } && constructor.public
        && is_prelude_app(*constructor.tipo, "Void"@, Seq::empty()) && constructor.variant is LocalVariable
        && name@ == "__check_with"@ && variant_name@.len() == 0
    &&& k[7] matches AirKind::Builtin { count, func, tipo } && count == 1 && func
        == DefaultFunction::HeadList && is_prelude_app(*tipo, "Data"@, Seq::empty())
    &&& k[8] matches AirKind::Var { constructor, name, variant_name } && constructor.public
        && constructor.variant is LocalVariable && name@ == "__list_to_check"@ && variant_name@.len()
        == 0
    &&& k[9] matches AirKind::Call { count, tipo } && count == 2 && is_prelude_app(
        *tipo,
        "Void"@,
        Seq::empty(),
    )
    &&& k[10] matches AirKind::Var { constructor, name, variant_name } && is_expect_on_list_fn(
        constructor,
    ) && name@ == EXPECT_ON_LIST@ && variant_name@.len() == 0
    &&& k[11] matches AirKind::Builtin { count, func, tipo } && count == 1 && func
        == DefaultFunction::TailList
    &&& k[12] matches AirKind::Var { constructor, name, variant_name } && constructor.public
        && constructor.variant is LocalVariable && name@ == "__list_to_check"@ && variant_name@.len()
        == 0
    &&& k[13] matches AirKind::Var { constructor, name, variant_name } && constructor.public
        && is_prelude_app(*constructor.tipo, "Void"@, Seq::empty()) && constructor.variant is LocalVariable
        && name@ == "__check_with"@ && variant_name@.len() == 0
}

/// A local variable of the given type.
pub open spec fn is_local_var(c: ValueConstructor, tipo: Arc<Type>) -> bool {
    &&& c.public
    &&& c.tipo == tipo
    &&& c.variant == (ValueConstructorVariant::LocalVariable { location: Span { start: 0, end: 0 } })
}

/// `new` is `old` with a fresh identifier appended to its scope.
pub open spec fn opened(old: AirStack, new: AirStack) -> bool {
    &&& new.id_gen == old.id_gen
    &&& new.scope@.len() == old.scope@.len() + 1
    &&& new.scope@.drop_last() == old.scope@
}

/// `new` is `old` with a fresh scope, one instruction under that scope, and
/// then the `children` instructions.
pub open spec fn built(old: AirStack, new: AirStack, children: Instrs) -> bool {
    &&& opened(old, new)
    &&& new.instrs() == old.instrs().push((new.scope@, new.node(old.air@.len() as int)))
        + children
}

impl AirStack {
    /// The instructions, in order.
    pub open spec fn instrs(&self) -> Instrs {
        self.air@.map_values(|a: Air| instr_view(a))
    }

    /// The kind of the instruction at position `i`.
    pub open spec fn node(&self, i: int) -> AirKind {
        self.instrs()[i].1
    }

    /// An empty stack at the root scope.
    pub fn new(id_gen: Rc<IdGenerator>) -> (s: Self)
        ensures
            s.id_gen == id_gen,
            s.scope@ == Seq::<u64>::empty(),
            s.air@ == Seq::<Air>::empty(),
    {
        AirStack { id_gen, scope: Scope::default(), air: Vec::new() }
    }

    /// An empty stack at the given scope.
    pub fn with_scope(id_gen: Rc<IdGenerator>, scope: Scope) -> (s: Self)
        ensures
            s.id_gen == id_gen,
            s.scope@ == scope@,
            s.air@ == Seq::<Air>::empty(),
    {
        AirStack { id_gen, scope, air: Vec::new() }
    }

    /// An empty stack sharing this stack's scope and identifier source.
    pub fn empty_with_scope(&mut self) -> (s: Self)
        ensures
            *final(self) == *old(self),
            s.id_gen == old(self).id_gen,
            s.scope@ == old(self).scope@,
            s.air@ == Seq::<Air>::empty(),
    {
        AirStack::with_scope(self.id_gen.clone(), self.scope.clone())
    }

    /// Appends a fresh identifier to the scope.
    fn new_scope(&mut self)
        ensures
            opened(*old(self), *final(self)),
            final(self).air == old(self).air,
    {
        let id = self.id_gen.next();
        self.scope.push(id);
        assert(self.scope@.drop_last() =~= old(self).scope@);
    }

    /// Appends the instructions of `other` unchanged.
    pub fn merge(&mut self, other: AirStack)
        ensures
            final(self).id_gen == old(self).id_gen,
            final(self).scope == old(self).scope,
            final(self).instrs() == old(self).instrs() + other.instrs(),
    {
        let mut other = other;
        let ghost a = self.air@;
        let ghost b = other.air@;
        self.air.append(&mut other.air);
        proof {
            assert(self.air@.map_values(|x: Air| instr_view(x)) =~= a.map_values(
                |x: Air| instr_view(x),
            ) + b.map_values(|x: Air| instr_view(x)));
        }
    }

    /// Appends the instructions of `other`, moved under this stack's scope.
    pub fn merge_child(&mut self, other: AirStack)
        ensures
            final(self).id_gen == old(self).id_gen,
            final(self).scope == old(self).scope,
            final(self).instrs() == old(self).instrs() + rescope(other.instrs(), old(self).scope@),
    {
        let ghost start = self.instrs();
        let ghost src = other.instrs();
        let ghost orig = other.air@;
        let ghost s = self.scope@;
        proof {
            assert(start + rescope(src.take(0), s) =~= start);
        }
        for ir in it: other.air
            invariant
                it.seq() == orig,
                s == old(self).scope@,
                src == orig.map_values(|a: Air| instr_view(a)),
                self.id_gen == old(self).id_gen,
                self.scope == old(self).scope,
                self.instrs() == start + rescope(src.take(it.index()), s),
        {
            let ghost k = it.index();
            assert(0 <= k < orig.len());
            assert(ir == orig[k]);
            let mut ir = ir;
            let ghost before = self.air@;
            let c = self.scope.clone();
            assert(c@ == s);
            ir.scope.replace(c);
            assert(ir.scope@ == replaced(orig[k].scope@, s));
            assert(ir.kind == orig[k].kind);
            assert(src[k] == instr_view(orig[k]));
            assert(instr_view(ir) == (replaced(src[k].0, s), src[k].1));
            self.air.push(ir);
            proof {
                assert(self.air@ == before.push(ir));
                assert(self.instrs() =~= before.map_values(|a: Air| instr_view(a)).push(instr_view(ir)));
                assert(src[k] == instr_view(orig[k]));
                assert(rescope(src.take(k + 1), s) =~= rescope(src.take(k), s).push(
                    (replaced(src[k].0, s), src[k].1),
                ));
                assert(self.instrs() =~= start + rescope(src.take(k + 1), s));
            }
        }
        proof {
            assert(src.take(src.len() as int) =~= src);
        }
    }

    /// Appends the instructions of each stack in turn, moved under this
    /// stack's scope.
    pub fn merge_children(&mut self, stacks: Vec<AirStack>)
        ensures
            final(self).id_gen == old(self).id_gen,
            final(self).scope == old(self).scope,
            final(self).instrs() == old(self).instrs() + children_instrs(stacks@, old(self).scope@),
    {
        let ghost start = self.instrs();
        let ghost all = stacks@;
        proof {
            assert(all.take(0) =~= Seq::<AirStack>::empty());
            assert(start + children_instrs(all.take(0), self.scope@) =~= start);
        }
        for stack in it: stacks
            invariant
                it.seq() == all,
                self.id_gen == old(self).id_gen,
                self.scope == old(self).scope,
                self.instrs() == start + children_instrs(all.take(it.index()), old(self).scope@),
        {
            let ghost k = it.index();
            assert(0 <= k < all.len());
            assert(stack == all[k]);
            self.merge_child(stack);
            proof {
                assert(all.take(k + 1).drop_last() =~= all.take(k));
                assert(self.instrs() =~= start + children_instrs(all.take(k + 1), old(self).scope@));
            }
        }
        proof {
            assert(all.take(all.len() as int) =~= all);
        }
    }

    /// The finished list of instructions.
    pub fn complete(self) -> (r: Vec<Air>)
        ensures
            r@ == self.air@,
    {
        self.air
    }

    /// Appends the instructions of each stack in turn, unchanged.
    pub fn sequence(&mut self, stacks: Vec<AirStack>)
        ensures
            final(self).id_gen == old(self).id_gen,
            final(self).scope == old(self).scope,
            final(self).instrs() == old(self).instrs() + sequence_instrs(stacks@),
    {
        let ghost start = self.instrs();
        let ghost all = stacks@;
        proof {
            assert(all.take(0) =~= Seq::<AirStack>::empty());
            assert(start + sequence_instrs(all.take(0)) =~= start);
        }
        for stack in it: stacks
            invariant
                it.seq() == all,
                self.id_gen == old(self).id_gen,
                self.scope == old(self).scope,
                self.instrs() == start + sequence_instrs(all.take(it.index())),
        {
            let ghost k = it.index();
            assert(0 <= k < all.len());
            assert(stack == all[k]);
            self.merge(stack);
            proof {
                assert(all.take(k + 1).drop_last() =~= all.take(k));
                assert(self.instrs() =~= start + sequence_instrs(all.take(k + 1)));
            }
        }
        proof {
            assert(all.take(all.len() as int) =~= all);
        }
    }

    /// Opens a fresh scope and pushes one instruction under it.
    fn open_node(&mut self, kind: AirKind)
        ensures
            built(*old(self), *final(self), Seq::empty()),
            final(self).node(old(self).air@.len() as int) == kind,
            final(self).air@.len() == old(self).air@.len() + 1,
    {
        self.new_scope();
        let ghost before = self.air@;
        self.air.push(Air { scope: self.scope.clone(), kind });
        proof {
            assert(self.instrs() =~= old(self).instrs().push((self.scope@, kind)));
            assert(self.instrs() =~= old(self).instrs().push((self.scope@, kind)) + Seq::empty());
        }
    }

    /// An integer literal, written in decimal.
    pub fn integer(&mut self, value: String)
        ensures
            built(*old(self), *final(self), Seq::empty()),
            final(self).node(old(self).air@.len() as int) == (AirKind::Int { value }),
    {
        self.open_node(AirKind::Int { value });
    }

    /// A string literal.
    pub fn string(&mut self, value: &str)
        ensures
            built(*old(self), *final(self), Seq::empty()),
            final(self).node(old(self).air@.len() as int) matches AirKind::String { value: v }
                && v@ == value@,
    {
        self.open_node(AirKind::String { value: owned(value) });
    }

    /// A byte array literal.
    pub fn byte_array(&mut self, bytes: Vec<u8>)
        ensures
            built(*old(self), *final(self), Seq::empty()),
            final(self).node(old(self).air@.len() as int) == (AirKind::ByteArray { bytes }),
    {
        self.open_node(AirKind::ByteArray { bytes });
    }

    /// A call of a builtin function on the arguments built by `args`.
    pub fn builtin(&mut self, func: DefaultFunction, tipo: Arc<Type>, args: Vec<AirStack>)
        ensures
            built(*old(self), *final(self), children_instrs(args@, final(self).scope@)),
            final(self).node(old(self).air@.len() as int) == (AirKind::Builtin {
                count: args@.len() as usize,
                func,
                tipo,
            }),
    {
        self.open_node(AirKind::Builtin { count: args.len(), func, tipo });
        self.merge_children(args);
    }

    /// A reference to a named value.
    pub fn var(&mut self, constructor: ValueConstructor, name: &str, variant_name: &str)
        ensures
            built(*old(self), *final(self), Seq::empty()),
            final(self).node(old(self).air@.len() as int) matches AirKind::Var {
                constructor: c,
                name: n,
                variant_name: v,
            } && c == constructor && n@ == name@ && v@ == variant_name@,
    {
        self.open_node(
            AirKind::Var { constructor, name: owned(name), variant_name: owned(variant_name) },
        );
    }

    /// A reference to a local variable of the given type.
    pub fn local_var(&mut self, tipo: Arc<Type>, name: &str)
        ensures
            built(*old(self), *final(self), Seq::empty()),
            final(self).node(old(self).air@.len() as int) matches AirKind::Var {
                constructor: c,
                name: n,
                variant_name: v,
            } && is_local_var(c, tipo) && n@ == name@ && v@ == Seq::<char>::empty(),
    {
        self.open_node(
            AirKind::Var {
                constructor: ValueConstructor::public(
                    tipo,
                    ValueConstructorVariant::LocalVariable { location: Span::empty() },
                ),
                name: owned(name),
                variant_name: String::new(),
            },
        );
    }

    /// An anonymous function of the given parameters over `body`.
    pub fn anonymous_function(&mut self, params: Vec<String>, body: AirStack)
        ensures
            built(*old(self), *final(self), rescope(body.instrs(), final(self).scope@)),
            final(self).node(old(self).air@.len() as int) == (AirKind::Fn { params }),
    {
        self.open_node(AirKind::Fn { params });
        self.merge_child(body);
    }

    /// A list literal of `elements`, with an optional tail.
    pub fn list(&mut self, tipo: Arc<Type>, elements: Vec<AirStack>, tail: Option<AirStack>)
        ensures
            built(
                *old(self),
                *final(self),
                children_instrs(elements@, final(self).scope@) + match tail {
                    Some(t) => rescope(t.instrs(), final(self).scope@),
                    None => Seq::empty(),
                },
            ),
            final(self).node(old(self).air@.len() as int) == (AirKind::List {
                count: elements@.len() as usize,
                tipo,
                tail: tail is Some,
            }),
    {
        self.open_node(AirKind::List { count: elements.len(), tipo, tail: tail.is_some() });
        let ghost mid = self.instrs();
        let ghost tail_g = tail;
        self.merge_children(elements);
        if let Some(tail) = tail {
            self.merge_child(tail);
        }
        proof {
            let ch = children_instrs(elements@, self.scope@) + match tail_g {
                Some(t) => rescope(t.instrs(), self.scope@),
                None => Seq::empty(),
            };
            assert(self.instrs() =~= mid + ch);
            assert(mid =~= old(self).instrs().push(mid[old(self).air@.len() as int]));
            assert(self.instrs() =~= old(self).instrs().push(mid[old(self).air@.len() as int]) + ch);
        }
    }

    /// A record with the given constructor tag over `fields`.
    pub fn record(&mut self, tipo: Arc<Type>, tag: usize, fields: Vec<AirStack>)
        ensures
            built(*old(self), *final(self), children_instrs(fields@, final(self).scope@)),
            final(self).node(old(self).air@.len() as int) == (AirKind::Record {
                tag,
                tipo,
                count: fields@.len() as usize,
            }),
    {
        self.open_node(AirKind::Record { tag, tipo, count: fields.len() });
        self.merge_children(fields);
    }

    /// A call of `fun` on `args`.
    pub fn call(&mut self, tipo: Arc<Type>, fun: AirStack, args: Vec<AirStack>)
        ensures
            built(
                *old(self),
                *final(self),
                rescope(fun.instrs(), final(self).scope@) + children_instrs(
                    args@,
                    final(self).scope@,
                ),
            ),
            final(self).node(old(self).air@.len() as int) == (AirKind::Call {
                count: args@.len() as usize,
                tipo,
            }),
    {
        self.open_node(AirKind::Call { count: args.len(), tipo });
        let ghost mid = self.instrs();
        self.merge_child(fun);
        self.merge_children(args);
        proof {
            assert(self.instrs() =~= mid + (rescope(fun.instrs(), self.scope@) + children_instrs(
                args@,
                self.scope@,
            )));
        }
    }

    /// A binary operation on `left` and `right`.
    pub fn binop(&mut self, name: BinOp, tipo: Arc<Type>, left: AirStack, right: AirStack)
        ensures
            built(
                *old(self),
                *final(self),
                rescope(left.instrs(), final(self).scope@) + rescope(
                    right.instrs(),
                    final(self).scope@,
                ),
            ),
            final(self).node(old(self).air@.len() as int) == (AirKind::BinOp { name, tipo }),
    {
        self.open_node(AirKind::BinOp { name, tipo });
        let ghost mid = self.instrs();
        self.merge_child(left);
        self.merge_child(right);
        proof {
            assert(self.instrs() =~= mid + (rescope(left.instrs(), self.scope@) + rescope(
                right.instrs(),
                self.scope@,
            )));
        }
    }

    /// A unary operation on `value`.
    pub fn unop(&mut self, op: UnOp, value: AirStack)
        ensures
            built(*old(self), *final(self), rescope(value.instrs(), final(self).scope@)),
            final(self).node(old(self).air@.len() as int) == (AirKind::UnOp { op }),
    {
        self.open_node(AirKind::UnOp { op });
        self.merge_child(value);
    }

    /// Binds `name` to `value`.
    pub fn let_assignment(&mut self, name: &str, value: AirStack)
        ensures
            built(*old(self), *final(self), rescope(value.instrs(), final(self).scope@)),
            final(self).node(old(self).air@.len() as int) matches AirKind::Let { name: n } && n@
                == name@,
    {
        self.open_node(AirKind::Let { name: owned(name) });
        self.merge_child(value);
    }

    /// Wraps a value into on-chain data.
    pub fn wrap_data(&mut self, tipo: Arc<Type>)
        ensures
            built(*old(self), *final(self), Seq::empty()),
            final(self).node(old(self).air@.len() as int) == (AirKind::WrapData { tipo }),
    {
        self.open_node(AirKind::WrapData { tipo });
    }

    /// Unwraps on-chain data into a value of the given type.
    pub fn un_wrap_data(&mut self, tipo: Arc<Type>)
        ensures
            built(*old(self), *final(self), Seq::empty()),
            final(self).node(old(self).air@.len() as int) == (AirKind::UnWrapData { tipo }),
    {
        self.open_node(AirKind::UnWrapData { tipo });
    }

    /// The unit value.
    pub fn void(&mut self)
        ensures
            built(*old(self), *final(self), Seq::empty()),
            final(self).node(old(self).air@.len() as int) == AirKind::Void,
    {
        self.open_node(AirKind::Void);
    }

    /// Binds the elements of a tuple to `names`.
    pub fn tuple_accessor(
        &mut self,
        tipo: Arc<Type>,
        names: Vec<String>,
        check_last_item: bool,
        value: AirStack,
    )
        ensures
            built(*old(self), *final(self), rescope(value.instrs(), final(self).scope@)),
            final(self).node(old(self).air@.len() as int) == (AirKind::TupleAccessor {
                names,
                tipo,
                check_last_item,
            }),
    {
        self.open_node(AirKind::TupleAccessor { names, tipo, check_last_item });
        self.merge_child(value);
    }

    /// Binds the fields of a record at the given indices.
    pub fn fields_expose(
        &mut self,
        indices: Vec<(usize, String, Arc<Type>)>,
        check_last_item: bool,
        value: AirStack,
    )
        ensures
            built(*old(self), *final(self), rescope(value.instrs(), final(self).scope@)),
            final(self).node(old(self).air@.len() as int) == (AirKind::FieldsExpose {
                indices,
                check_last_item,
            }),
    {
        self.open_node(AirKind::FieldsExpose { indices, check_last_item });
        self.merge_child(value);
    }

    /// Checks that a record has no field.
    pub fn fields_empty(&mut self, value: AirStack)
        ensures
            built(*old(self), *final(self), rescope(value.instrs(), final(self).scope@)),
            final(self).node(old(self).air@.len() as int) == AirKind::FieldsEmpty,
    {
        self.open_node(AirKind::FieldsEmpty);
        self.merge_child(value);
    }

    /// A clause of a `when` on the named subject.
    pub fn clause(&mut self, tipo: Arc<Type>, subject_name: &str, complex_clause: bool, body: AirStack)
        ensures
            built(*old(self), *final(self), rescope(body.instrs(), final(self).scope@)),
            final(self).node(old(self).air@.len() as int) matches AirKind::Clause {
                subject_name: n,
                complex_clause: c,
                tipo: t,
            } && n@ == subject_name@ && c == complex_clause && t == tipo,
    {
        self.open_node(AirKind::Clause { subject_name: owned(subject_name), complex_clause, tipo });
        self.merge_child(body);
    }

    /// A clause matching on a list.
    pub fn list_clause(
        &mut self,
        tipo: Arc<Type>,
        tail_name: &str,
        next_tail_name: Option<String>,
        complex_clause: bool,
        body: AirStack,
    )
        ensures
            built(*old(self), *final(self), rescope(body.instrs(), final(self).scope@)),
            final(self).node(old(self).air@.len() as int) matches AirKind::ListClause {
                tail_name: n,
                next_tail_name: nt,
                complex_clause: c,
                tipo: t,
            } && n@ == tail_name@ && nt == next_tail_name && c == complex_clause && t == tipo,
    {
        self.open_node(
            AirKind::ListClause {
                tail_name: owned(tail_name),
                next_tail_name,
                complex_clause,
                tipo,
            },
        );
        self.merge_child(body);
    }

    /// A clause matching on a tuple.
    pub fn tuple_clause(
        &mut self,
        tipo: Arc<Type>,
        subject_name: &str,
        indices: IndexSet<(usize, String)>,
        predefined_indices: IndexSet<(usize, String)>,
        complex_clause: bool,
        body: AirStack,
    )
        ensures
            built(*old(self), *final(self), rescope(body.instrs(), final(self).scope@)),
            final(self).node(old(self).air@.len() as int) matches AirKind::TupleClause {
                subject_name: n,
                indices: i,
                predefined_indices: p,
                complex_clause: c,
                tipo: t,
                count: k,
            } && n@ == subject_name@ && i == indices && p == predefined_indices && c
                == complex_clause && t == tipo && k == tipo.inner_types().len(),
    {
        let count = tipo.get_inner_types().len();
        self.open_node(
            AirKind::TupleClause {
                subject_name: owned(subject_name),
                indices,
                predefined_indices,
                complex_clause,
                tipo,
                count,
            },
        );
        self.merge_child(body);
    }

    /// Wraps a clause body.
    pub fn wrap_clause(&mut self, body: AirStack)
        ensures
            built(*old(self), *final(self), rescope(body.instrs(), final(self).scope@)),
            final(self).node(old(self).air@.len() as int) == AirKind::WrapClause,
    {
        self.open_node(AirKind::WrapClause);
        self.merge_child(body);
    }

    /// A trace of a message before a value of the given type.
    pub fn trace(&mut self, tipo: Arc<Type>)
        ensures
            built(*old(self), *final(self), Seq::empty()),
            final(self).node(old(self).air@.len() as int) == (AirKind::Trace { tipo }),
    {
        self.open_node(AirKind::Trace { tipo });
    }

    /// The error term of the given type.
    pub fn error(&mut self, tipo: Arc<Type>)
        ensures
            built(*old(self), *final(self), Seq::empty()),
            final(self).node(old(self).air@.len() as int) == (AirKind::ErrorTerm { tipo }),
    {
        self.open_node(AirKind::ErrorTerm { tipo });
    }

    /// Checks that on-chain data is a constructor, then runs `when_stack`.
    pub fn expect_constr_from_data(&mut self, tipo: Arc<Type>, when_stack: AirStack)
        ensures
            built(*old(self), *final(self), rescope(when_stack.instrs(), final(self).scope@)),
            final(self).node(old(self).air@.len() as int) == (AirKind::Builtin {
                count: DefaultFunction::ChooseUnit.spec_arity(),
                func: DefaultFunction::ChooseUnit,
                tipo,
            }),
    {
        self.open_node(
            AirKind::Builtin {
                func: DefaultFunction::ChooseUnit,
                tipo,
                count: DefaultFunction::ChooseUnit.arity(),
            },
        );
        self.merge_child(when_stack);
    }

    /// A `when` on the named subject, with its clauses and fallback.
    pub fn when(
        &mut self,
        tipo: Arc<Type>,
        subject_name: &str,
        subject_stack: AirStack,
        clauses_stack: AirStack,
        else_stack: AirStack,
    )
        ensures
            built(
                *old(self),
                *final(self),
                rescope(subject_stack.instrs(), final(self).scope@) + rescope(
                    clauses_stack.instrs(),
                    final(self).scope@,
                ) + rescope(else_stack.instrs(), final(self).scope@),
            ),
            final(self).node(old(self).air@.len() as int) matches AirKind::When {
                subject_name: n,
                tipo: t,
            } && n@ == subject_name@ && t == tipo,
    {
        self.open_node(AirKind::When { subject_name: owned(subject_name), tipo });
        let ghost mid = self.instrs();
        self.merge_child(subject_stack);
        self.merge_child(clauses_stack);
        self.merge_child(else_stack);
        proof {
            assert(self.instrs() =~= mid + (rescope(subject_stack.instrs(), self.scope@) + rescope(
                clauses_stack.instrs(),
                self.scope@,
            ) + rescope(else_stack.instrs(), self.scope@)));
        }
    }

    /// Binds the elements of a list to `names`.
    pub fn list_accessor(
        &mut self,
        tipo: Arc<Type>,
        names: Vec<String>,
        tail: bool,
        check_last_item: bool,
        value: AirStack,
    )
        ensures
            built(*old(self), *final(self), rescope(value.instrs(), final(self).scope@)),
            final(self).node(old(self).air@.len() as int) == (AirKind::ListAccessor {
                names,
                tail,
                check_last_item,
                tipo,
            }),
    {
        self.open_node(AirKind::ListAccessor { names, tail, check_last_item, tipo });
        self.merge_child(value);
    }

    /// Checks that a value is the constructor with the given tag.
    pub fn expect_constr(&mut self, tag: usize, value: AirStack)
        ensures
            built(*old(self), *final(self), rescope(value.instrs(), final(self).scope@)),
            final(self).node(old(self).air@.len() as int) == (AirKind::AssertConstr {
                constr_index: tag,
            }),
    {
        self.open_node(AirKind::AssertConstr { constr_index: tag });
        self.merge_child(value);
    }

    /// Checks that a boolean has the given value.
    pub fn expect_bool(&mut self, is_true: bool, value: AirStack)
        ensures
            built(*old(self), *final(self), rescope(value.instrs(), final(self).scope@)),
            final(self).node(old(self).air@.len() as int) == (AirKind::AssertBool { is_true }),
    {
        self.open_node(AirKind::AssertBool { is_true });
        self.merge_child(value);
    }

    /// A branch taken when `condition` holds.
    pub fn if_branch(&mut self, tipo: Arc<Type>, condition: AirStack, branch_body: AirStack)
        ensures
            built(
                *old(self),
                *final(self),
                rescope(condition.instrs(), final(self).scope@) + rescope(
                    branch_body.instrs(),
                    final(self).scope@,
                ),
            ),
            final(self).node(old(self).air@.len() as int) == (AirKind::If { tipo }),
    {
        self.open_node(AirKind::If { tipo });
        let ghost mid = self.instrs();
        self.merge_child(condition);
        self.merge_child(branch_body);
        proof {
            assert(self.instrs() =~= mid + (rescope(condition.instrs(), self.scope@) + rescope(
                branch_body.instrs(),
                self.scope@,
            )));
        }
    }

    /// Reads the field at `record_index` of a record.
    pub fn record_access(&mut self, tipo: Arc<Type>, record_index: u64, record: AirStack)
        ensures
            built(*old(self), *final(self), rescope(record.instrs(), final(self).scope@)),
            final(self).node(old(self).air@.len() as int) == (AirKind::RecordAccess {
                record_index,
                tipo,
            }),
    {
        self.open_node(AirKind::RecordAccess { record_index, tipo });
        self.merge_child(record);
    }

    /// Updates the fields of a record at the given indices.
    pub fn record_update(
        &mut self,
        tipo: Arc<Type>,
        highest_index: usize,
        indices: Vec<(usize, Arc<Type>)>,
        update: AirStack,
    )
        ensures
            built(*old(self), *final(self), rescope(update.instrs(), final(self).scope@)),
            final(self).node(old(self).air@.len() as int) == (AirKind::RecordUpdate {
                highest_index,
                indices,
                tipo,
            }),
    {
        self.open_node(AirKind::RecordUpdate { highest_index, indices, tipo });
        self.merge_child(update);
    }

    /// A tuple literal of `elems`.
    pub fn tuple(&mut self, tipo: Arc<Type>, elems: Vec<AirStack>)
        ensures
            built(*old(self), *final(self), children_instrs(elems@, final(self).scope@)),
            final(self).node(old(self).air@.len() as int) == (AirKind::Tuple {
                count: elems@.len() as usize,
                tipo,
            }),
    {
        self.open_node(AirKind::Tuple { count: elems.len(), tipo });
        self.merge_children(elems);
    }

    /// Reads the element at `tuple_index` of a tuple.
    pub fn tuple_index(&mut self, tipo: Arc<Type>, tuple_index: usize, tuple: AirStack)
        ensures
            built(*old(self), *final(self), rescope(tuple.instrs(), final(self).scope@)),
            final(self).node(old(self).air@.len() as int) == (AirKind::TupleIndex {
                tuple_index,
                tipo,
            }),
    {
        self.open_node(AirKind::TupleIndex { tuple_index, tipo });
        self.merge_child(tuple);
    }

    /// The final value of a program.
    pub fn finally(&mut self, value: AirStack)
        ensures
            built(*old(self), *final(self), rescope(value.instrs(), final(self).scope@)),
            final(self).node(old(self).air@.len() as int) == AirKind::Finally,
    {
        self.open_node(AirKind::Finally);
        self.merge_child(value);
    }

    /// A boolean literal.
    pub fn bool(&mut self, value: bool)
        ensures
            built(*old(self), *final(self), Seq::empty()),
            final(self).node(old(self).air@.len() as int) == (AirKind::Bool { value }),
    {
        self.open_node(AirKind::Bool { value });
    }

    /// A guard of a clause on the named subject.
    pub fn clause_guard(
        &mut self,
        subject_name: &str,
        tipo: Arc<Type>,
        condition_stack: AirStack,
        clause_then_stack: AirStack,
    )
        ensures
            built(
                *old(self),
                *final(self),
                rescope(condition_stack.instrs(), final(self).scope@) + rescope(
                    clause_then_stack.instrs(),
                    final(self).scope@,
                ),
            ),
            final(self).node(old(self).air@.len() as int) matches AirKind::ClauseGuard {
                subject_name: n,
                tipo: t,
            } && n@ == subject_name@ && t == tipo,
    {
        self.open_node(AirKind::ClauseGuard { subject_name: owned(subject_name), tipo });
        let ghost mid = self.instrs();
        self.merge_child(condition_stack);
        self.merge_child(clause_then_stack);
        proof {
            assert(self.instrs() =~= mid + (rescope(condition_stack.instrs(), self.scope@) + rescope(
                clause_then_stack.instrs(),
                self.scope@,
            )));
        }
    }

    /// Binds the heads and tails of a list.
    pub fn list_expose(
        &mut self,
        tipo: Arc<Type>,
        tail_head_names: Vec<(String, String)>,
        tail: Option<(String, String)>,
        value: AirStack,
    )
        ensures
            built(*old(self), *final(self), rescope(value.instrs(), final(self).scope@)),
            final(self).node(old(self).air@.len() as int) == (AirKind::ListExpose {
                tipo,
                tail_head_names,
                tail,
            }),
    {
        self.open_node(AirKind::ListExpose { tipo, tail_head_names, tail });
        self.merge_child(value);
    }

    /// A guard of a list clause.
    pub fn list_clause_guard(
        &mut self,
        tipo: Arc<Type>,
        tail_name: &str,
        next_tail_name: Option<String>,
        inverse: bool,
        void_stack: AirStack,
    )
        ensures
            built(*old(self), *final(self), rescope(void_stack.instrs(), final(self).scope@)),
            final(self).node(old(self).air@.len() as int) matches AirKind::ListClauseGuard {
                tipo: t,
                tail_name: n,
                next_tail_name: nt,
                inverse: i,
            } && t == tipo && n@ == tail_name@ && nt == next_tail_name && i == inverse,
    {
        self.open_node(
            AirKind::ListClauseGuard { tipo, tail_name: owned(tail_name), next_tail_name, inverse },
        );
        self.merge_child(void_stack);
    }

    /// Defines a function under the current scope, without opening a new one.
    pub fn define_func(
        &mut self,
        func_name: &str,
        module_name: &str,
        variant_name: &str,
        params: Vec<String>,
        recursive: bool,
        body_stack: AirStack,
    )
        ensures
            final(self).id_gen == old(self).id_gen,
            final(self).scope == old(self).scope,
            final(self).instrs() == old(self).instrs().push(
                (old(self).scope@, final(self).node(old(self).air@.len() as int)),
            ) + rescope(body_stack.instrs(), old(self).scope@),
            final(self).node(old(self).air@.len() as int) matches AirKind::DefineFunc {
                func_name: f,
                module_name: m,
                params: p,
                recursive: r,
                variant_name: v,
            } && f@ == func_name@ && m@ == module_name@ && p == params && r == recursive && v@
                == variant_name@,
    {
        let kind = AirKind::DefineFunc {
            func_name: owned(func_name),
            module_name: owned(module_name),
            params,
            recursive,
            variant_name: owned(variant_name),
        };
        let ghost k = kind;
        self.air.push(Air { scope: self.scope.clone(), kind });
        proof {
            assert(self.instrs() =~= old(self).instrs().push((old(self).scope@, k)));
        }
        let ghost mid = self.instrs();
        self.merge_child(body_stack);
    }

    /// An instruction that does nothing.
    pub fn noop(&mut self)
        ensures
            built(*old(self), *final(self), Seq::empty()),
            final(self).node(old(self).air@.len() as int) == AirKind::NoOp,
    {
        self.open_node(AirKind::NoOp);
    }

    /// Runs `value_stack` for its checks and yields unit.
    pub fn choose_unit(&mut self, value_stack: AirStack)
        ensures
            built(*old(self), *final(self), rescope(value_stack.instrs(), final(self).scope@)),
            final(self).node(old(self).air@.len() as int) matches AirKind::Builtin {
                count: c,
                func: f,
                tipo: t,
            } && c == DefaultFunction::ChooseUnit.spec_arity() && f == DefaultFunction::ChooseUnit
                && is_prelude_app(*t, "Void"@, Seq::empty()),
    {
        self.open_node(
            AirKind::Builtin {
                func: DefaultFunction::ChooseUnit,
                tipo: void(),
                count: DefaultFunction::ChooseUnit.arity(),
            },
        );
        self.merge_child(value_stack);
    }

    /// Unwraps on-chain data into a list, checking each element with
    /// `unwrap_function`.
    pub fn expect_list_from_data(&mut self, tipo: Arc<Type>, name: &str, unwrap_function: AirStack)
        ensures
            final(self).id_gen == old(self).id_gen,
            final(self).scope@.len() == old(self).scope@.len() + 4,
            final(self).scope@.take(old(self).scope@.len() as int) == old(self).scope@,
            final(self).instrs() == old(self).instrs() + seq![
                (final(self).scope@.take(old(self).scope@.len() + 1int), final(self).node(old(self).air@.len() as int)),
                (final(self).scope@.take(old(self).scope@.len() + 2int), final(self).node(old(self).air@.len() + 1int)),
                (final(self).scope@.take(old(self).scope@.len() + 3int), final(self).node(old(self).air@.len() + 2int)),
                (final(self).scope@, final(self).node(old(self).air@.len() + 3int)),
            ] + rescope(unwrap_function.instrs(), final(self).scope@),
            final(self).node(old(self).air@.len() as int) == (AirKind::Builtin {
                count: DefaultFunction::ChooseUnit.spec_arity(),
                func: DefaultFunction::ChooseUnit,
                tipo,
            }),
            final(self).node(old(self).air@.len() + 1int) == (AirKind::Call { count: 2, tipo }),
            final(self).node(old(self).air@.len() + 2int) matches AirKind::Var {
                constructor: c,
                name: n,
                variant_name: v,
            } && is_expect_on_list_fn(c) && n@ == EXPECT_ON_LIST@ && v@ == Seq::<char>::empty(),
            final(self).node(old(self).air@.len() + 3int) matches AirKind::Var {
                constructor: c,
                name: n,
                variant_name: v,
            } && is_local_var(c, tipo) && n@ == name@ && v@ == Seq::<char>::empty(),
    {
        let ghost s0 = self.scope@;
        let ghost i0 = self.instrs();
        self.open_node(
            AirKind::Builtin {
                func: DefaultFunction::ChooseUnit,
                tipo: tipo.clone(),
                count: DefaultFunction::ChooseUnit.arity(),
            },
        );
        let ghost s1 = self.scope@;
        let ghost i1 = self.instrs();
        self.open_node(AirKind::Call { count: 2, tipo: tipo.clone() });
        let ghost s2 = self.scope@;
        let ghost i2 = self.instrs();
        self.var(
            ValueConstructor::public(
                void(),
                ValueConstructorVariant::ModuleFn {
                    name: owned(EXPECT_ON_LIST),
                    field_map: None,
                    module: String::new(),
                    arity: 2,
                    location: Span::empty(),
                    builtin: None,
                },
            ),
            EXPECT_ON_LIST,
            "",
        );
        let ghost s3 = self.scope@;
        let ghost i3 = self.instrs();
        self.local_var(tipo, name);
        let ghost s4 = self.scope@;
        let ghost i4 = self.instrs();
        self.merge_child(unwrap_function);
        proof {
            reveal_strlit("");
            let l = s0.len() as int;
            assert(s4.take(l + 3) =~= s3);
            assert(s4.take(l + 2) =~= s2);
            assert(s4.take(l + 1) =~= s1);
            assert(s4.take(l as int) =~= s0);
            assert(i4 =~= i0 + seq![
                (s1, i1[i0.len() as int].1),
                (s2, i2[i0.len() + 1int].1),
                (s3, i3[i0.len() + 2int].1),
                (s4, i4[i0.len() + 3int].1),
            ]);
            assert(self.instrs() =~= i0 + seq![
                (s1, i1[i0.len() as int].1),
                (s2, i2[i0.len() + 1int].1),
                (s3, i3[i0.len() + 2int].1),
                (s4, i4[i0.len() + 3int].1),
            ] + rescope(unwrap_function.instrs(), s4));
        }
    }

    /// Defines the recursive function that checks every element of a list
    /// with a given check, and calls it on the tail.
    pub fn expect_on_list(&mut self)
        ensures
            final(self).id_gen == old(self).id_gen,
            final(self).scope@.take(old(self).scope@.len() as int) == old(self).scope@,
            final(self).instrs().take(old(self).instrs().len() as int) == old(self).instrs(),
            final(self).instrs().len() == old(self).instrs().len() + 14,
            final(self).instrs()[old(self).instrs().len() as int].0 == old(self).scope@,
            expect_on_list_kinds(
                kinds(final(self).instrs().skip(old(self).instrs().len() as int)),
            ),
    {
        let mut head_stack = self.empty_with_scope();
        let mut tail_stack = self.empty_with_scope();
        let mut check_with_stack = self.empty_with_scope();
        let mut expect_stack = self.empty_with_scope();
        let mut var_stack = self.empty_with_scope();
        let mut void_stack = self.empty_with_scope();
        let mut fun_stack = self.empty_with_scope();
        let mut arg_stack1 = self.empty_with_scope();
        let mut arg_stack2 = self.empty_with_scope();
        let ghost i0 = self.instrs();
        let mut params = Vec::new();
        params.push(owned("__list_to_check"));
        params.push(owned("__check_with"));
        let ghost p = params;
        self.air.push(
            Air {
                scope: self.scope.clone(),
                kind: AirKind::DefineFunc {
                    func_name: owned(EXPECT_ON_LIST),
                    module_name: String::new(),
                    params,
                    recursive: true,
                    variant_name: String::new(),
                },
            },
        );
        let ghost i1 = self.instrs();
        proof {
            assert(i1 =~= i0.push(instr_view(self.air@.last())));
        }
        var_stack.local_var(list(data()), "__list_to_check");
        let ghost vs = var_stack;
        let mut head_args = Vec::new();
        head_args.push(var_stack);
        proof {
            assert(head_args@ =~= seq![vs]);
        }
        head_stack.builtin(DefaultFunction::HeadList, data(), head_args);
        let ghost hs = head_stack;
        fun_stack.local_var(void(), "__check_with");
        let ghost fs = fun_stack;
        let mut check_args = Vec::new();
        check_args.push(head_stack);
        proof {
            assert(check_args@ =~= seq![hs]);
        }
        check_with_stack.call(void(), fun_stack, check_args);
        let ghost cs = check_with_stack;
        void_stack.void();
        void_stack.void();
        let ghost voids = void_stack;
        self.list_clause(void(), "__list_to_check", None, false, void_stack);
        let ghost i2 = self.instrs();
        self.choose_unit(check_with_stack);
        let ghost i3 = self.instrs();
        expect_stack.var(
            ValueConstructor::public(
                void(),
                ValueConstructorVariant::ModuleFn {
                    name: owned(EXPECT_ON_LIST),
                    field_map: None,
                    module: String::new(),
                    arity: 2,
                    location: Span::empty(),
                    builtin: None,
                },
            ),
            EXPECT_ON_LIST,
            "",
        );
        let ghost es = expect_stack;
        arg_stack1.local_var(list(data()), "__list_to_check");
        let ghost a1 = arg_stack1;
        arg_stack2.local_var(void(), "__check_with");
        let ghost a2 = arg_stack2;
        let mut tail_args = Vec::new();
        tail_args.push(arg_stack1);
        proof {
            assert(tail_args@ =~= seq![a1]);
        }
        tail_stack.builtin(DefaultFunction::TailList, list(data()), tail_args);
        let ghost ts = tail_stack;
        let mut call_args = Vec::new();
        call_args.push(tail_stack);
        call_args.push(arg_stack2);
        proof {
            assert(call_args@ =~= seq![ts, a2]);
        }
        self.call(void(), expect_stack, call_args);
        proof {
            reveal_strlit("");
            let n = i0.len() as int;
            let fin = self.instrs();
            assert(fin.take(n) =~= i0);
            assert(fin[n] == i1[n]);
            // the kinds of each piece
            assert(kinds(vs.instrs()) =~= seq![vs.node(0)]);
            lemma_children_one(vs, hs.scope@);
            lemma_kinds_rescope(vs.instrs(), hs.scope@);
            lemma_kinds_concat(Seq::<(Seq<u64>, AirKind)>::empty().push((hs.scope@, hs.node(0))), rescope(vs.instrs(), hs.scope@));
            assert(kinds(hs.instrs()) =~= seq![hs.node(0), vs.node(0)]);
            assert(kinds(fs.instrs()) =~= seq![fs.node(0)]);
            lemma_children_one(hs, cs.scope@);
            lemma_kinds_rescope(hs.instrs(), cs.scope@);
            lemma_kinds_rescope(fs.instrs(), cs.scope@);
            lemma_kinds_concat(Seq::<(Seq<u64>, AirKind)>::empty().push((cs.scope@, cs.node(0))), rescope(fs.instrs(), cs.scope@) + rescope(hs.instrs(), cs.scope@));
            lemma_kinds_concat(rescope(fs.instrs(), cs.scope@), rescope(hs.instrs(), cs.scope@));
            assert(kinds(cs.instrs()) =~= seq![cs.node(0), fs.node(0), hs.node(0), vs.node(0)]);
            assert(kinds(voids.instrs()) =~= seq![AirKind::Void, AirKind::Void]);
            assert(kinds(es.instrs()) =~= seq![es.node(0)]);
            assert(kinds(a1.instrs()) =~= seq![a1.node(0)]);
            assert(kinds(a2.instrs()) =~= seq![a2.node(0)]);
            lemma_children_one(a1, ts.scope@);
            lemma_kinds_rescope(a1.instrs(), ts.scope@);
            lemma_kinds_concat(Seq::<(Seq<u64>, AirKind)>::empty().push((ts.scope@, ts.node(0))), rescope(a1.instrs(), ts.scope@));
            assert(kinds(ts.instrs()) =~= seq![ts.node(0), a1.node(0)]);
            let s1 = self.scope@;
            lemma_kinds_rescope(voids.instrs(), i2[n + 1].0);
            lemma_kinds_rescope(cs.instrs(), i3[i2.len() as int].0);
            lemma_children_two(ts, a2, s1);
            lemma_kinds_rescope(es.instrs(), s1);
            lemma_kinds_rescope(ts.instrs(), s1);
            lemma_kinds_rescope(a2.instrs(), s1);
            lemma_kinds_concat(rescope(es.instrs(), s1), rescope(ts.instrs(), s1) + rescope(a2.instrs(), s1));
            lemma_kinds_concat(rescope(ts.instrs(), s1), rescope(a2.instrs(), s1));
            assert(i2.len() == n + 4);
            assert(i3.len() == n + 9);
            assert(kinds(i2.skip(n)) =~= seq![i1[n].1, i2[n + 1].1, AirKind::Void, AirKind::Void]) by {
                lemma_kinds_concat(i1.push(i2[n + 1]), rescope(voids.instrs(), i2[n + 1].0));
                assert(i2 =~= i1.push((i2[n + 1].0, i2[n + 1].1)) + rescope(voids.instrs(), i2[n + 1].0));
                assert(kinds(rescope(voids.instrs(), i2[n + 1].0)) =~= seq![AirKind::Void, AirKind::Void]);
                assert(kinds(i2).skip(n) =~= kinds(i2.skip(n)));
            }
            let k = kinds(fin.skip(n));
            assert(expect_on_list_kinds(k)) by {
                assert(kinds(fin).skip(n) =~= k);
                assert(kinds(i2).skip(n) =~= kinds(i2.skip(n)));
                assert(fin.take(i2.len() as int) =~= i2);
                assert(fin.take(i3.len() as int) =~= i3);
                assert(i3 =~= i2.push((i3[i2.len() as int].0, i3[i2.len() as int].1)) + rescope(cs.instrs(), i3[i2.len() as int].0));
                lemma_kinds_concat(i2.push((i3[i2.len() as int].0, i3[i2.len() as int].1)), rescope(cs.instrs(), i3[i2.len() as int].0));
                assert(fin =~= i3.push((fin[i3.len() as int].0, fin[i3.len() as int].1)) + (rescope(es.instrs(), s1) + (rescope(ts.instrs(), s1) + rescope(a2.instrs(), s1))));
                lemma_kinds_concat(i3.push((fin[i3.len() as int].0, fin[i3.len() as int].1)), rescope(es.instrs(), s1) + (rescope(ts.instrs(), s1) + rescope(a2.instrs(), s1)));
                assert(kinds(fin) =~= kinds(i2) + seq![i3[i2.len() as int].1, cs.node(0), fs.node(0), hs.node(0), vs.node(0), fin[i3.len() as int].1, es.node(0), ts.node(0), a1.node(0), a2.node(0)]);
            }
        }
    }

    /// Checks that a list is empty, then runs `value_stack`.
    pub fn list_empty(&mut self, value_stack: AirStack)
        ensures
            built(*old(self), *final(self), rescope(value_stack.instrs(), final(self).scope@)),
            final(self).node(old(self).air@.len() as int) == AirKind::ListEmpty,
    {
        self.open_node(AirKind::ListEmpty);
        self.merge_child(value_stack);
    }
}

} // verus!
