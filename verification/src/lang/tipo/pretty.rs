use vstd::prelude::*;
use std::collections::HashMap;
use std::sync::Arc;
use crate::lang::name_map::NameMap;
use crate::lang::pretty::{
    break_, concat, docs_view, intersperse_view, lemma_docs_view, lemma_docs_view_push, nil, DocView,
    Document, Documentable,
};
use crate::lang::pretty::layout::{spec_pretty, view_nest, view_text};
use crate::lang::tipo::{Type, TypeVar};
use crate::text::{owned, push_char, push_str, str_eq};

verus! {

broadcast use vstd::std_specs::hash::group_hash_axioms;

/// How far the arguments of a type are indented when they break.
pub const INDENT: isize = 2;

/// Prints types, naming their type variables `a`, `b`, ... in the order it
/// meets them, and qualifying a type's name when an other type of that name
/// was printed before.
pub struct Printer {
    names: HashMap<u64, String>,
    uid: u64,
    printed_types: NameMap<String>,
}

/// What a printer remembers: the names given to type variables, the number
/// of names made up so far, and the module of each type name printed.
pub struct PrinterView {
    pub names: Map<u64, Seq<char>>,
    pub uid: int,
    pub printed: Map<Seq<char>, Seq<char>>,
}

impl View for Printer {
    type V = PrinterView;

    closed spec fn view(&self) -> PrinterView {
        PrinterView {
            names: self.names@.map_values(|s: String| s@),
            uid: self.uid as int,
            printed: self.printed_types@.map_values(|s: String| s@),
        }
    }
}

/// The letter for a digit from zero to twenty-five.
pub open spec fn letter(d: int) -> char {
    (97 + d) as char
}

/// The made-up name number `n`: `a` to `z`, then `aa`, `ab`, and so on.
pub open spec fn letters(n: nat) -> Seq<char>
    decreases n,
{
    if n / 26 == 0 {
        seq![letter((n % 26) as int)]
    } else {
        letters((n / 26 - 1) as nat).push(letter((n % 26) as int))
    }
}

/// Different numbers get different made-up names.
pub proof fn law_letters_distinct(a: nat, b: nat)
    ensures
        letters(a) == letters(b) ==> a == b,
    decreases a,
{
    if letters(a) == letters(b) {
        lemma_letters_nonempty(a);
        lemma_letters_nonempty(b);
        assert(letters(a).last() == letters(b).last());
        assert(a % 26 == b % 26);
        if a / 26 == 0 {
            if b / 26 != 0 {
                lemma_letters_nonempty((b / 26 - 1) as nat);
                assert(letters(b).len() >= 2);
            }
        } else {
            if b / 26 == 0 {
                lemma_letters_nonempty((a / 26 - 1) as nat);
                assert(letters(a).len() >= 2);
            } else {
                assert(letters(a).drop_last() == letters((a / 26 - 1) as nat));
                assert(letters(b).drop_last() == letters((b / 26 - 1) as nat));
                law_letters_distinct((a / 26 - 1) as nat, (b / 26 - 1) as nat);
            }
        }
    }
}

proof fn lemma_letters_nonempty(n: nat)
    ensures
        letters(n).len() >= 1,
    decreases n,
{
    if n / 26 != 0 {
        lemma_letters_nonempty((n / 26 - 1) as nat);
    }
}

/// A document followed by another; a list of documents grows by one.
pub open spec fn append_view(d: DocView, x: DocView) -> DocView {
    match d {
        DocView::Vec(v) => DocView::Vec(v.push(x)),
        _ => DocView::Vec(seq![d, x]),
    }
}

/// The document of a strict break.
pub open spec fn break_view(broken: Seq<char>, unbroken: Seq<char>) -> DocView {
    DocView::Break {
        broken,
        unbroken,
        break_first: false,
        kind: crate::lang::pretty::BreakKind::Strict,
    }
}

/// A type name qualified by its module; the prelude's types by `aiken`.
pub open spec fn qualified_view(module: Seq<char>, name: Seq<char>) -> DocView {
    if module.len() == 0 {
        DocView::Vec(seq![DocView::Str("aiken."@), DocView::String(name)])
    } else {
        DocView::String(module + seq!['.'] + name)
    }
}

/// The document of a type variable and the printer after it; see
/// [`print_view`].
pub open spec fn var_view(s: PrinterView, id: u64) -> (DocView, PrinterView) {
    if s.names.contains_key(id) {
        let n = s.names[id];
        (DocView::String(n), PrinterView { printed: s.printed.insert(n, Seq::empty()), ..s })
    } else {
        let n = letters(s.uid as nat);
        (
            DocView::String(n),
            PrinterView {
                names: s.names.insert(id, n),
                uid: s.uid + 1,
                printed: s.printed.insert(n, Seq::empty()),
            },
        )
    }
}

/// The documents of a list of types, each grouped, printed in order, and
/// the printer after them.
pub open spec fn print_list(s: PrinterView, ts: Seq<Arc<Type>>) -> (Seq<DocView>, PrinterView)
    decreases ts, 0nat,
{
    if ts.len() == 0 {
        (Seq::empty(), s)
    } else {
        let (ds, s1) = print_list(s, ts.drop_last());
        let (d, s2) = print_view(s1, *ts.last());
        (ds.push(DocView::Group(Box::new(d))), s2)
    }
}

/// The document of the arguments of a type, and the printer after them.
pub open spec fn args_view(s: PrinterView, ts: Seq<Arc<Type>>) -> (DocView, PrinterView)
    decreases ts, 1nat,
{
    if ts.len() == 0 {
        (DocView::Vec(Seq::empty()), s)
    } else {
        let (ds, s1) = print_list(s, ts);
        let body = DocView::Vec(intersperse_view(ds, break_view(","@, ", "@)));
        (
            DocView::Group(
                Box::new(
                    append_view(
                        DocView::Nest(
                            INDENT as int,
                            Box::new(append_view(break_view(""@, ""@), body)),
                        ),
                        break_view(","@, ""@),
                    ),
                ),
            ),
            s1,
        )
    }
}

/// The document of a type and the printer after it.
pub open spec fn print_view(s: PrinterView, t: Type) -> (DocView, PrinterView)
    decreases t, 2nat,
{
    match t {
        Type::App { name, args, module, .. } => {
            let clash = s.printed.contains_key(name@) && s.printed[name@] != module@;
            let (doc, s1) = if clash {
                (qualified_view(module@, name@), s)
            } else {
                (DocView::String(name@), PrinterView { printed: s.printed.insert(name@, module@), ..s })
            };
            if args@.len() == 0 {
                (doc, s1)
            } else {
                let (ad, s2) = args_view(s1, args@);
                (append_view(append_view(append_view(doc, DocView::Str("<"@)), ad), DocView::Str(">"@)), s2)
            }
        },
        Type::Fn { args, ret } => {
            let (ad, s1) = args_view(s, args@);
            let (rd, s2) = print_view(s1, *ret);
            (
                append_view(
                    append_view(append_view(DocView::Str("fn("@), ad), DocView::Str(") ->"@)),
                    DocView::Group(
                        Box::new(
                            DocView::Nest(INDENT as int, Box::new(append_view(break_view(""@, " "@), rd))),
                        ),
                    ),
                ),
                s2,
            )
        },
        Type::Var { tipo } => match tipo {
            TypeVar::Link { tipo } => print_view(s, *tipo),
            TypeVar::Unbound { id } => var_view(s, id),
            TypeVar::Generic { id } => var_view(s, id),
        },
        Type::Tuple { elems } => {
            let (ad, s1) = args_view(s, elems@);
            (DocView::Vec(seq![DocView::Str("("@), ad, DocView::Str(")"@)]), s1)
        },
    }
}


/// The type a shared pointer holds.
pub open spec fn inner(t: Arc<Type>) -> Type {
    *t
}

/// Printing a list of types, its arguments or a type never lowers the
/// number of names made up.
proof fn lemma_print_list_uid(s: PrinterView, ts: Seq<Arc<Type>>)
    ensures
        print_list(s, ts).1.uid >= s.uid,
    decreases ts, 0nat,
{
    if ts.len() > 0 {
        lemma_print_list_uid(s, ts.drop_last());
        lemma_print_uid(print_list(s, ts.drop_last()).1, inner(ts.last()));
    }
}

proof fn lemma_args_uid(s: PrinterView, ts: Seq<Arc<Type>>)
    ensures
        args_view(s, ts).1.uid >= s.uid,
    decreases ts, 1nat,
{
    if ts.len() > 0 {
        lemma_print_list_uid(s, ts);
    }
}

proof fn lemma_print_uid(s: PrinterView, t: Type)
    ensures
        print_view(s, t).1.uid >= s.uid,
    decreases t, 2nat,
{
    match t {
        Type::App { name, args, module, .. } => {
            let clash = s.printed.contains_key(name@) && s.printed[name@] != module@;
            let s1 = if clash {
                s
            } else {
                PrinterView { printed: s.printed.insert(name@, module@), ..s }
            };
            if args@.len() > 0 {
                lemma_args_uid(s1, args@);
            }
        },
        Type::Fn { args, ret } => {
            lemma_args_uid(s, args@);
            lemma_print_uid(args_view(s, args@).1, inner(ret));
        },
        Type::Var { tipo } => match tipo {
            TypeVar::Link { tipo } => lemma_print_uid(s, inner(tipo)),
            _ => {},
        },
        Type::Tuple { elems } => {
            lemma_args_uid(s, elems@);
        },
    }
}

/// A type name qualified by its module; the prelude's types by `aiken`.
fn qualify_type_name(module: &String, typ_name: &str) -> (d: Document<'static>)
    ensures
        d@ == qualified_view(module@, typ_name@),
{
    if module.as_str().is_empty() {
        let mut v: Vec<Document<'static>> = Vec::new();
        v.push(Document::Str("aiken."));
        v.push(Document::String(owned(typ_name)));
        proof {
            lemma_docs_view(v@);
            assert(docs_view(v@) =~= seq![DocView::Str("aiken."@), DocView::String(typ_name@)]);
        }
        concat(v)
    } else {
        let mut s = module.clone();
        push_char(&mut s, '.');
        push_str(&mut s, typ_name);
        assert(s@ =~= module@ + seq!['.'] + typ_name@);
        Document::String(s)
    }
}

impl Printer {
    /// A printer that has named nothing yet.
    pub fn new() -> (p: Self)
        ensures
            p@.names == Map::<u64, Seq<char>>::empty(),
            p@.uid == 0,
            p@.printed == Map::<Seq<char>, Seq<char>>::empty(),
    {
        let p = Printer { names: HashMap::new(), uid: 0, printed_types: NameMap::new() };
        proof {
            assert(p@.names =~= Map::<u64, Seq<char>>::empty());
            assert(p@.printed =~= Map::<Seq<char>, Seq<char>>::empty());
        }
        p
    }

    /// Gives the type variables the names the caller chose.
    pub fn with_names(&mut self, names: HashMap<u64, String>)
        ensures
            final(self)@ == (PrinterView { names: names@.map_values(|s: String| s@), ..old(self)@ }),
    {
        self.names = names;
    }

    /// The next made-up name.
    fn next_letter(&mut self) -> (r: String)
        requires
            old(self)@.uid < u64::MAX,
        ensures
            r@ == letters(old(self)@.uid as nat),
            final(self)@ == (PrinterView { uid: old(self)@.uid + 1, ..old(self)@ }),
    {
        let mut chars: Vec<char> = Vec::new();
        let mut rest: u64 = self.uid;
        let ghost target = letters(self.uid as nat);
        loop
            invariant_except_break
                target == letters(rest as nat) + chars@.reverse(),
            ensures
                target == chars@.reverse(),
            decreases rest,
        {
            let n = rest % 26;
            let q = rest / 26;
            let ghost before = chars@;
            let c = ((n as u8) + 97) as char;
            chars.push(c);
            proof {
                assert(c == letter(n as int));
                assert(chars@.reverse() =~= seq![c] + before.reverse());
            }
            if q == 0 {
                proof {
                    assert(letters(rest as nat) == seq![c]);
                }
                break ;
            }
            proof {
                assert(letters(rest as nat) == letters((q - 1) as nat).push(c));
                assert(letters((q - 1) as nat).push(c) + before.reverse() =~= letters((q - 1) as nat)
                    + chars@.reverse());
            }
            rest = q - 1;
        }
        self.uid = self.uid + 1;
        let mut r = String::new();
        let mut k = chars.len();
        while k > 0
            invariant
                k <= chars@.len(),
                r@ == chars@.reverse().take(chars@.len() - k),
            decreases k,
        {
            k = k - 1;
            push_char(&mut r, chars[k]);
            proof {
                assert(chars@.reverse().take(chars@.len() - k) =~= chars@.reverse().take(
                    chars@.len() - k - 1,
                ).push(chars@[k as int]));
            }
        }
        proof {
            assert(chars@.reverse().take(chars@.len() as int) =~= chars@.reverse());
            assert(self@.names =~= old(self)@.names);
            assert(self@.printed =~= old(self)@.printed);
        }
        r
    }

    /// The name of a type variable: the one it was given, or a new one made
    /// up for it.
    pub fn generic_type_var<'a>(&mut self, id: u64) -> (d: Document<'a>)
        requires
            !old(self)@.names.contains_key(id) ==> old(self)@.uid < u64::MAX,
        ensures
            (d@, final(self)@) == var_view(old(self)@, id),
    {
        match self.names.get(&id) {
            Some(n) => {
                let typ_name = n.clone();
                let ghost nv = n@;
                self.printed_types.insert(typ_name, String::new());
                proof {
                    assert(self@.printed =~= old(self)@.printed.insert(nv, Seq::empty()));
                    assert(self@.names =~= old(self)@.names);
                }
                Document::String(n.clone())
            },
            None => {
                let n = self.next_letter();
                let ghost s1 = self@;
                self.names.insert(id, n.clone());
                self.printed_types.insert(n.clone(), String::new());
                proof {
                    assert(self@.names =~= old(self)@.names.insert(id, n@));
                    assert(self@.printed =~= old(self)@.printed.insert(n@, Seq::empty()));
                }
                Document::String(n)
            },
        }
    }

    /// Whether a type name was printed before for another module.
    fn name_clashes_if_unqualified(&mut self, tipo: &String, module: &String) -> (b: bool)
        ensures
            b == (old(self)@.printed.contains_key(tipo@) && old(self)@.printed[tipo@] != module@),
            final(self)@ == old(self)@,
    {
        match self.printed_types.get(tipo.as_str()) {
            None => false,
            Some(previous_module) => !str_eq(module.as_str(), previous_module.as_str()),
        }
    }

    /// The document of a type variable; a linked one prints as the type it
    /// is linked to.
    fn type_var_doc<'a>(&mut self, typ: &TypeVar) -> (d: Document<'a>)
        requires
            print_view(old(self)@, Type::Var { tipo: *typ }).1.uid <= u64::MAX,
        ensures
            (d@, final(self)@) == print_view(old(self)@, Type::Var { tipo: *typ }),
        decreases *typ, 1nat,
    {
        match typ {
            TypeVar::Link { tipo } => {
                proof {
                    assert(decreases_to!(*typ => *tipo));
                }
                self.print(&**tipo)
            },
            TypeVar::Unbound { id } => self.generic_type_var(*id),
            TypeVar::Generic { id } => self.generic_type_var(*id),
        }
    }

    /// The document of a list of types: empty for none, otherwise the
    /// types separated by breaks, nested and grouped.
    fn args_to_nano_doc<'a>(&mut self, args: &Vec<Arc<Type>>) -> (d: Document<'a>)
        requires
            args_view(old(self)@, args@).1.uid <= u64::MAX,
        ensures
            (d@, final(self)@) == args_view(old(self)@, args@),
        decreases args@, 0nat,
    {
        if args.len() == 0 {
            let d = nil();
            return d;
        }
        let ghost s0 = self@;
        let ghost sep = break_view(","@, ", "@);
        let mut docs: Vec<Document<'a>> = Vec::new();
        let mut i: usize = 0;
        proof {
            assert(args@.take(0) =~= Seq::<Arc<Type>>::empty());
            assert(docs_view(docs@) =~= Seq::<DocView>::empty());
        }
        while i < args.len()
            invariant
                i <= args@.len(),
                args@.len() > 0,
                sep == break_view(","@, ", "@),
                docs_view(docs@) == intersperse_view(print_list(s0, args@.take(i as int)).0, sep),
                print_list(s0, args@.take(i as int)).0.len() == i,
                self@ == print_list(s0, args@.take(i as int)).1,
                args_view(s0, args@).1.uid <= u64::MAX,
                print_list(s0, args@).1 == args_view(s0, args@).1,
            decreases args@.len() - i,
        {
            let ghost before = docs@;
            let ghost prev = print_list(s0, args@.take(i as int));
            proof {
                assert(args@.take(i + 1).drop_last() =~= args@.take(i as int));
                assert(args@.take(i + 1).last() == args@[i as int]);
                lemma_print_list_prefix_uid(s0, args@, i + 1);
                lemma_print_list_uid(s0, args@.take(i as int));
                assert(decreases_to!(args@ => args@[i as int]));
            }
            if i > 0 {
                let b = break_(",", ", ");
                docs.push(b);
                proof {
                    lemma_docs_view_push(before, b);
                    assert(b@ == sep);
                    assert(docs_view(docs@) == intersperse_view(prev.0, sep).push(sep));
                }
            }
            let ghost mid = docs@;
            let d0 = self.print(&*args[i]);
            let d = d0.group();
            docs.push(d);
            proof {
                lemma_docs_view_push(mid, d);
                let ds = prev.0;
                let x = DocView::Group(Box::new(print_view(prev.1, inner(args@[i as int])).0));
                assert(d@ == x);
                assert(print_list(s0, args@.take(i + 1)) == (ds.push(x), print_view(prev.1, inner(args@[i as int])).1));
                assert(docs_view(docs@) == docs_view(mid).push(x));
                if i > 0 {
                    assert(docs_view(mid) == intersperse_view(ds, sep).push(sep));
                } else {
                    assert(docs_view(mid) =~= Seq::<DocView>::empty());
                }
                if i > 0 {
                    assert(ds.len() >= 1);
                    let x = DocView::Group(Box::new(print_view(prev.1, inner(args@[i as int])).0));
                    assert(ds.push(x).drop_last() =~= ds);
                    assert(ds.push(x).last() == x);
                    assert(intersperse_view(ds.push(DocView::Group(Box::new(print_view(prev.1, inner(args@[i as int])).0))), sep)
                        == intersperse_view(ds, sep).push(sep).push(DocView::Group(Box::new(print_view(prev.1, inner(args@[i as int])).0))));
                } else {
                    assert(ds =~= Seq::<DocView>::empty());
                }
            }
            i = i + 1;
        }
        proof {
            assert(args@.take(args@.len() as int) =~= args@);
        }
        let args_doc = concat(docs);
        break_("", "").append(args_doc).nest(INDENT).append(break_(",", "")).group()
    }

    /// The document of a type; see [`print_view`].
    pub fn print<'a>(&mut self, typ: &Type) -> (d: Document<'a>)
        requires
            print_view(old(self)@, *typ).1.uid <= u64::MAX,
        ensures
            (d@, final(self)@) == print_view(old(self)@, *typ),
        decreases *typ, 2nat,
    {
        proof {
            lemma_print_uid(self@, *typ);
        }
        match typ {
            Type::App { name, args, module, .. } => {
                let clash = self.name_clashes_if_unqualified(name, module);
                let doc: Document<'a> = if clash {
                    qualify_type_name(module, name.as_str())
                } else {
                    self.printed_types.insert(name.clone(), module.clone());
                    proof {
                        assert(self@.printed =~= old(self)@.printed.insert(name@, module@));
                        assert(self@.names =~= old(self)@.names);
                        assert(self@ == PrinterView { printed: old(self)@.printed.insert(name@, module@), ..old(self)@ });
                    }
                    Document::String(name.clone())
                };
                if args.len() == 0 {
                    doc
                } else {
                    proof {
                        assert(decreases_to!(*typ => *args));
                        assert(decreases_to!(*args => args@));
                    }
                    proof {
                        assert(print_view(old(self)@, *typ).1 == args_view(self@, args@).1);
                    }
                    let ad = self.args_to_nano_doc(args);
                    doc.append("<").append(ad).append(">")
                }
            },
            Type::Fn { args, ret } => {
                proof {
                    assert(decreases_to!(*typ => *args));
                    assert(decreases_to!(*args => args@));
                    assert(decreases_to!(*typ => *ret));
                    lemma_args_uid(self@, args@);
                    lemma_print_uid(args_view(self@, args@).1, inner(*ret));
                    assert(print_view(old(self)@, *typ).1 == print_view(args_view(self@, args@).1, inner(*ret)).1);
                }
                let first = "fn(".to_doc();
                let ad = self.args_to_nano_doc(args);
                let head = first.append(ad).append(") ->");
                let rd = self.print(&**ret);
                head.append(break_("", " ").append(rd).nest(INDENT).group())
            },
            Type::Var { tipo } => {
                proof {
                    assert(decreases_to!(*typ => *tipo));
                }
                self.type_var_doc(tipo)
            },
            Type::Tuple { elems } => {
                proof {
                    assert(decreases_to!(*typ => *elems));
                    assert(decreases_to!(*elems => elems@));
                }
                self.args_to_nano_doc(elems).surround("(", ")")
            },
        }
    }

    /// A type laid out within eighty columns, every line indented by
    /// `initial_indent`.
    pub fn pretty_print(&mut self, typ: &Type, initial_indent: usize) -> (r: String)
        requires
            initial_indent <= isize::MAX,
            print_view(old(self)@, *typ).1.uid <= u64::MAX,
            pretty_fits(print_view(old(self)@, *typ).0, initial_indent as int),
        ensures
            r@ == spec_pretty(indented_view(print_view(old(self)@, *typ).0, initial_indent as int), 80),
            final(self)@ == print_view(old(self)@, *typ).1,
    {
        let mut buffer = String::new();
        let mut k: usize = 0;
        while k < initial_indent
            invariant
                k <= initial_indent,
                buffer@ == Seq::new(k as nat, |i: int| ' '),
            decreases initial_indent - k,
        {
            push_char(&mut buffer, ' ');
            k = k + 1;
            proof {
                assert(buffer@ =~= Seq::new(k as nat, |i: int| ' '));
            }
        }
        let d = self.print(typ);
        let doc = buffer.as_str().to_doc().append(d).nest(initial_indent as isize);
        doc.to_pretty_string(80)
    }
}


/// A document after `n` spaces, nested by `n`.
pub open spec fn indented_view(d: DocView, n: int) -> DocView {
    DocView::Nest(n, Box::new(DocView::Vec(seq![DocView::Str(Seq::new(n as nat, |i: int| ' ')), d])))
}

/// Laying out the indented document keeps every column within `isize`.
pub open spec fn pretty_fits(d: DocView, n: int) -> bool {
    &&& view_nest(indented_view(d, n)) + view_text(indented_view(d, n)) <= isize::MAX
    &&& 80 - view_text(indented_view(d, n)) >= isize::MIN
}

/// Printing a prefix of a list of types makes up no more names than
/// printing the whole list.
proof fn lemma_print_list_prefix_uid(s: PrinterView, ts: Seq<Arc<Type>>, k: int)
    requires
        0 <= k <= ts.len(),
    ensures
        print_list(s, ts.take(k)).1.uid <= print_list(s, ts).1.uid,
    decreases ts.len() - k,
{
    if k < ts.len() {
        lemma_print_list_prefix_uid(s, ts, k + 1);
        assert(ts.take(k + 1).drop_last() =~= ts.take(k));
        lemma_print_uid(print_list(s, ts.take(k)).1, inner(ts.take(k + 1).last()));
    } else {
        assert(ts.take(k) =~= ts);
    }
}


impl Default for Printer {
    fn default() -> (p: Self)
        ensures
            p@.names == Map::<u64, Seq<char>>::empty(),
            p@.uid == 0,
            p@.printed == Map::<Seq<char>, Seq<char>>::empty(),
    {
        Printer::new()
    }
}

} // verus!
