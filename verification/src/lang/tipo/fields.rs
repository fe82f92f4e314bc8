use vstd::prelude::*;
use crate::lang::ast::{CallArg, Span};
use crate::lang::name_map::NameMap;
use crate::lang::tipo::error::{Error, UnkownLabels};
use crate::text::{sorted_strings, str_eq, string_le, texts};

verus! {

/// The labels of a function's arguments or a record's fields, each with its
/// position and where it was declared.
pub struct FieldMap {
    pub arity: usize,
    pub fields: NameMap<(usize, Span)>,
    pub is_function: bool,
}

/// Swaps two items of a slice with `<[T]>::swap`.
#[verifier::external_body]
fn swap_items<T>(s: &mut [T], a: usize, b: usize)
    requires
        a < old(s)@.len(),
        b < old(s)@.len(),
    ensures
        final(s)@ == old(s)@.update(a as int, old(s)@[b as int]).update(b as int, old(s)@[a as int]),
{
    s.swap(a, b)
}

/// Some argument of the call carries the label `l`.
pub open spec fn labeled_with<A>(args: Seq<CallArg<A>>, l: Seq<char>) -> bool {
    exists|j: int| 0 <= j < args.len() && (#[trigger] args[j].label matches Some(x) && x@ == l)
}

/// `v` holds the labels of `keys` that no argument carries, each once, in
/// `String`'s order.
pub open spec fn missing_labels_sorted<A>(
    v: Seq<String>,
    keys: Set<Seq<char>>,
    args: Seq<CallArg<A>>,
) -> bool {
    &&& texts(v).no_duplicates()
    &&& forall|l: Seq<char>| #[trigger] texts(v).contains(l) <==> keys.contains(l) && !labeled_with(args, l)
    &&& forall|i: int, j: int| 0 <= i < j < v.len() ==> string_le(v[i]@, v[j]@)
}

/// `v` holds the labels of `keys`, each once, in `String`'s order.
pub open spec fn labels_sorted(v: Seq<String>, keys: Set<Seq<char>>) -> bool {
    &&& texts(v).no_duplicates()
    &&& forall|l: Seq<char>| #[trigger] texts(v).contains(l) <==> keys.contains(l)
    &&& forall|i: int, j: int| 0 <= i < j < v.len() ==> string_le(v[i]@, v[j]@)
}

/// The first unlabelled argument at or after `i` that follows a labelled one,
/// with the last labelled argument before it; `last` is the last labelled
/// argument before `i`.
pub open spec fn positional_after_labeled<A>(args: Seq<CallArg<A>>, i: int, last: Option<int>) -> Option<
    (int, int),
>
    decreases args.len() - i,
{
    if i < 0 || i >= args.len() {
        None
    } else if args[i].label is Some {
        positional_after_labeled(args, i + 1, Some(i))
    } else {
        match last {
            Some(k) => Some((i, k)),
            None => positional_after_labeled(args, i + 1, None),
        }
    }
}

/// How placing the labelled arguments ends.
pub enum Placement<A> {
    /// Every argument was visited: the arguments as they stand, the known
    /// labels seen, and where unknown labels were given.
    Done { args: Seq<CallArg<A>>, seen: Seq<Seq<char>>, unknown: Seq<Span> },
    /// A label was given twice: its name, where, and where it is declared;
    /// with the arguments as they stood then.
    Duplicate { label: Seq<char>, location: Span, duplicate_location: Span, args: Seq<CallArg<A>> },
}

/// The declared labels that have not been seen yet.
pub open spec fn unseen<V>(fields: Map<Seq<char>, V>, seen: Seq<Seq<char>>) -> Set<Seq<char>> {
    fields.dom().filter(|l: Seq<char>| !seen.contains(l))
}

/// Places the labelled arguments from position `i` on: an argument whose
/// label is declared at another position is swapped there, and the
/// argument that comes back is visited in turn.
pub open spec fn place_from<A>(
    fields: Map<Seq<char>, (usize, Span)>,
    args: Seq<CallArg<A>>,
    i: int,
    seen: Seq<Seq<char>>,
    unknown: Seq<Span>,
) -> Placement<A>
    decreases unseen(fields, seen).len(), args.len() - i,
    when fields.dom().finite() && 0 <= i
{
    if i >= args.len() {
        Placement::Done { args, seen, unknown }
    } else {
        match args[i].label {
            None => place_from(fields, args, i + 1, seen, unknown),
            Some(label) => {
                let l = label@;
                if !fields.contains_key(l) {
                    place_from(fields, args, i + 1, seen, unknown.push(args[i].location))
                } else {
                    let position = fields[l].0 as int;
                    let seen2 = if seen.contains(l) {
                        seen
                    } else {
                        seen.push(l)
                    };
                    proof {
                        lemma_unseen_push(fields, seen, l);
                    }
                    if position == i {
                        place_from(fields, args, i + 1, seen2, unknown)
                    } else if seen.contains(l) {
                        Placement::Duplicate {
                            label: l,
                            location: args[i].location,
                            duplicate_location: fields[l].1,
                            args,
                        }
                    } else if position < 0 || position >= args.len() {
                        Placement::Done { args, seen, unknown }
                    } else {
                        place_from(
                            fields,
                            args.update(position, args[i]).update(i, args[position]),
                            i,
                            seen2,
                            unknown,
                        )
                    }
                }
            },
        }
    }
}

/// Seeing a declared label for the first time leaves one label fewer
/// unseen.
pub proof fn lemma_unseen_push<V>(fields: Map<Seq<char>, V>, seen: Seq<Seq<char>>, l: Seq<char>)
    requires
        fields.dom().finite(),
        fields.contains_key(l),
    ensures
        unseen(fields, seen).finite(),
        !seen.contains(l) ==> unseen(fields, seen.push(l)).len() < unseen(fields, seen).len(),
        seen.contains(l) ==> unseen(fields, seen) == unseen(fields, seen),
{
    fields.dom().lemma_len_filter(|x: Seq<char>| !seen.contains(x));
    if !seen.contains(l) {
        assert(unseen(fields, seen.push(l)) =~= unseen(fields, seen).remove(l)) by {
            assert forall|x: Seq<char>| seen.push(l).contains(x) <==> seen.contains(x) || x == l by {
                if seen.push(l).contains(x) {
                    let j = choose|j: int| 0 <= j < seen.push(l).len() && seen.push(l)[j] == x;
                    if j < seen.len() {
                        assert(seen[j] == x);
                    }
                }
                if seen.contains(x) {
                    let j = choose|j: int| 0 <= j < seen.len() && seen[j] == x;
                    assert(seen.push(l)[j] == x);
                }
                if x == l {
                    assert(seen.push(l)[seen.len() as int] == x);
                }
            }
        }
        assert(unseen(fields, seen).contains(l));
    }
}


/// Whether a list of strings holds the text `t`.
fn contains_text(v: &Vec<String>, t: &str) -> (b: bool)
    ensures
        b == texts(v@).contains(t@),
{
    let mut i: usize = 0;
    while i < v.len()
        invariant
            i <= v@.len(),
            forall|j: int| 0 <= j < i ==> v@[j]@ != t@,
        decreases v@.len() - i,
    {
        if str_eq(v[i].as_str(), t) {
            proof {
                assert(texts(v@)[i as int] == t@);
            }
            return true;
        }
        i = i + 1;
    }
    proof {
        if texts(v@).contains(t@) {
            let j = choose|j: int| 0 <= j < texts(v@).len() && texts(v@)[j] == t@;
            assert(v@[j]@ == t@);
        }
    }
    false
}

impl FieldMap {
    /// Every declared position is a position of the arguments.
    pub open spec fn wf(&self) -> bool {
        forall|l: Seq<char>| #[trigger] self.fields@.contains_key(l) ==> self.fields@[l].0 < self.arity
    }

    /// A map with no label.
    pub fn new(arity: usize, is_function: bool) -> (f: Self)
        ensures
            f.arity == arity,
            f.is_function == is_function,
            f.fields@ == Map::<Seq<char>, (usize, Span)>::empty(),
    {
        FieldMap { arity, fields: NameMap::new(), is_function }
    }

    /// Declares `label` at `index`. A label declared before is replaced, and
    /// reported as a duplicate argument or field.
    pub fn insert(&mut self, label: String, index: usize, location: &Span) -> (r: Result<(), Error>)
        ensures
            final(self).fields@ == old(self).fields@.insert(label@, (index, *location)),
            final(self).arity == old(self).arity,
            final(self).is_function == old(self).is_function,
            match r {
                Ok(()) => !old(self).fields@.contains_key(label@),
                Err(e) => {
                    &&& old(self).fields@.contains_key(label@)
                    &&& if old(self).is_function {
                        e == Error::DuplicateArgument {
                            label,
                            location: *location,
                            duplicate_location: old(self).fields@[label@].1,
                        }
                    } else {
                        e == Error::DuplicateField {
                            label,
                            location: *location,
                            duplicate_location: old(self).fields@[label@].1,
                        }
                    }
                },
            },
    {
        match self.fields.insert(label.clone(), (index, *location)) {
            Some((_, location_other)) => {
                if self.is_function {
                    Err(Error::DuplicateArgument { label, location: *location, duplicate_location: location_other })
                } else {
                    Err(Error::DuplicateField { label, location: *location, duplicate_location: location_other })
                }
            },
            None => Ok(()),
        }
    }

    /// The map, unless it declares no label.
    pub fn into_option(self) -> (r: Option<Self>)
        ensures
            self.fields@.len() == 0 ==> r is None,
            self.fields@.len() != 0 ==> r == Some(self),
    {
        if self.fields.is_empty() {
            None
        } else {
            Some(self)
        }
    }

    /// The declared labels that no argument of the call gives, sorted.
    pub fn incorrect_arity_labels<A>(&self, args: &[CallArg<A>]) -> (r: Vec<String>)
        ensures
            missing_labels_sorted(r@, self.fields@.dom(), args@),
    {
        let n = self.fields.len();
        let mut missing: Vec<String> = Vec::new();
        let mut i: usize = 0;
        while i < n
            invariant
                n == self.fields.key_seq().len(),
                self.fields.key_seq().no_duplicates(),
                forall|k: Seq<char>| #[trigger]
                    self.fields@.contains_key(k) <==> self.fields.key_seq().contains(k),
                i <= n,
                texts(missing@).no_duplicates(),
                forall|l: Seq<char>| #[trigger]
                    texts(missing@).contains(l) <==> (exists|j: int|
                        0 <= j < i && self.fields.key_seq()[j] == l) && !labeled_with(args@, l),
            decreases n - i,
        {
            let (key, _) = self.fields.entry(i);
            let mut given = false;
            let mut j: usize = 0;
            while j < args.len()
                invariant
                    j <= args@.len(),
                    given == exists|k: int|
                        0 <= k < j && (#[trigger] args@[k].label matches Some(x) && x@ == key@),
                decreases args@.len() - j,
            {
                match &args[j].label {
                    Some(x) => {
                        if str_eq(x.as_str(), key.as_str()) {
                            given = true;
                        }
                    },
                    None => {},
                }
                j = j + 1;
            }
            let ghost before = missing@;
            if !given {
                missing.push(key.clone());
            }
            proof {
                let ks = self.fields.key_seq();
                assert(ks[i as int] == key@);
                assert(given == labeled_with(args@, key@)) by {
                    if given {
                        let k = choose|k: int|
                            0 <= k < args@.len() && (#[trigger] args@[k].label matches Some(x) && x@
                                == key@);
                        assert(args@[k].label matches Some(x) && x@ == key@);
                    }
                    if labeled_with(args@, key@) {
                        let k = choose|k: int|
                            0 <= k < args@.len() && (#[trigger] args@[k].label matches Some(x) && x@
                                == key@);
                        assert(args@[k].label matches Some(x) && x@ == key@);
                    }
                }
                assert(!texts(before).contains(key@)) by {
                    if texts(before).contains(key@) {
                        let j0 = choose|j0: int| 0 <= j0 < i && ks[j0] == key@;
                        assert(ks[j0] == ks[i as int]);
                    }
                }
                if !given {
                    assert(texts(missing@) =~= texts(before).push(key@));
                } else {
                    assert(texts(missing@) =~= texts(before));
                }
                assert forall|l: Seq<char>| #[trigger]
                    texts(missing@).contains(l) <==> (exists|j: int|
                        0 <= j < i + 1 && ks[j] == l) && !labeled_with(args@, l) by {
                    if l == key@ {
                        if !given {
                            assert(texts(missing@)[texts(missing@).len() - 1] == l);
                        }
                        assert(ks[i as int] == l);
                    } else {
                        assert(texts(missing@).contains(l) <==> texts(before).contains(l)) by {
                            if !given && texts(missing@).contains(l) {
                                let j0 = choose|j0: int|
                                    0 <= j0 < texts(missing@).len() && texts(missing@)[j0] == l;
                                assert(j0 < texts(before).len());
                                assert(texts(before)[j0] == l);
                            }
                            if !given && texts(before).contains(l) {
                                let j0 = choose|j0: int|
                                    0 <= j0 < texts(before).len() && texts(before)[j0] == l;
                                assert(texts(missing@)[j0] == l);
                            }
                        }
                        if (exists|j: int| 0 <= j < i + 1 && ks[j] == l) {
                            let j0 = choose|j0: int| 0 <= j0 < i + 1 && ks[j0] == l;
                            assert(j0 < i);
                        }
                    }
                }
            }
            i = i + 1;
        }
        let r = sorted_strings(missing);
        proof {
            let ks = self.fields.key_seq();
            texts(missing@).lemma_multiset_has_no_duplicates();
            assert forall|l: Seq<char>| #[trigger]
                texts(r@).contains(l) <==> self.fields@.dom().contains(l) && !labeled_with(args@, l) by {
                texts(missing@).to_multiset_ensures();
                texts(r@).to_multiset_ensures();
                assert(texts(r@).to_multiset().count(l) == texts(missing@).to_multiset().count(l));
                assert(texts(r@).contains(l) <==> texts(missing@).contains(l));
                if self.fields@.dom().contains(l) {
                    assert(self.fields@.contains_key(l));
                    assert(ks.contains(l));
                    let j0 = choose|j0: int| 0 <= j0 < ks.len() && ks[j0] == l;
                    assert(exists|j: int| 0 <= j < n && ks[j] == l);
                }
                if exists|j: int| 0 <= j < n && ks[j] == l {
                    let j0 = choose|j0: int| 0 <= j0 < n && ks[j0] == l;
                    assert(ks.contains(l));
                    assert(self.fields@.contains_key(l));
                }
            }
            texts(r@).to_multiset_ensures();
            texts(missing@).to_multiset_ensures();
            assert forall|x: Seq<char>| texts(r@).to_multiset().contains(x) implies texts(
                r@,
            ).to_multiset().count(x) == 1 by {
                assert(texts(r@).to_multiset().count(x) == texts(missing@).to_multiset().count(x));
                assert(texts(missing@).to_multiset().contains(x));
            }
            texts(r@).lemma_multiset_has_no_duplicates_conv();
        }
        r
    }

    /// The declared labels, sorted.
    fn sorted_labels(&self) -> (r: Vec<String>)
        ensures
            labels_sorted(r@, self.fields@.dom()),
    {
        let n = self.fields.len();
        let mut keys: Vec<String> = Vec::new();
        let mut i: usize = 0;
        while i < n
            invariant
                n == self.fields.key_seq().len(),
                i <= n,
                texts(keys@) == self.fields.key_seq().take(i as int),
            decreases n - i,
        {
            let (key, _) = self.fields.entry(i);
            let ghost before = keys@;
            keys.push(key.clone());
            proof {
                let ks = self.fields.key_seq();
                assert(ks[i as int] == key@);
                assert(texts(keys@) =~= texts(before).push(key@));
                assert(ks.take(i + 1) =~= ks.take(i as int).push(ks[i as int]));
                assert(texts(keys@) =~= self.fields.key_seq().take(i + 1));
            }
            i = i + 1;
        }
        let r = sorted_strings(keys);
        proof {
            let ks = self.fields.key_seq();
            assert(ks.take(n as int) =~= ks);
            ks.lemma_multiset_has_no_duplicates();
            texts(r@).to_multiset_ensures();
            ks.to_multiset_ensures();
            assert forall|l: Seq<char>| #[trigger] texts(r@).contains(l) <==> self.fields@.dom().contains(l) by {
                assert(texts(r@).to_multiset().count(l) == ks.to_multiset().count(l));
                assert(self.fields@.contains_key(l) <==> ks.contains(l));
            }
            assert forall|x: Seq<char>| texts(r@).to_multiset().contains(x) implies texts(
                r@,
            ).to_multiset().count(x) == 1 by {
                assert(texts(r@).to_multiset().count(x) == ks.to_multiset().count(x));
            }
            texts(r@).lemma_multiset_has_no_duplicates_conv();
        }
        r
    }

    /// Puts labelled arguments where their labels are declared. The call
    /// must give as many arguments as declared, all positional ones first;
    /// a label given twice, or one that is not declared, is reported.
    pub fn reorder<A>(&self, args: &mut [CallArg<A>], location: Span) -> (r: Result<(), Error>)
        requires
            self.wf(),
        ensures
            self.arity != old(args)@.len() ==> (r matches Err(Error::IncorrectFieldsArity {
                labels,
                location: l,
                expected,
                given,
            }) && missing_labels_sorted(labels@, self.fields@.dom(), old(args)@) && l == location
                && expected == self.arity && given == old(args)@.len() && final(args)@ == old(args)@),
            self.arity == old(args)@.len() ==> match positional_after_labeled(old(args)@, 0, None) {
                Some((j, k)) => r == Err::<(), Error>(
                    Error::PositionalArgumentAfterLabeled {
                        location: old(args)@[j].location,
                        labeled_arg_location: old(args)@[k].location,
                    },
                ) && final(args)@ == old(args)@,
                None => match place_from(self.fields@, old(args)@, 0, Seq::empty(), Seq::empty()) {
                    Placement::Duplicate { label, location: loc, duplicate_location, args: a } => (r
                        matches Err(Error::DuplicateArgument {
                        label: lab,
                        location: l2,
                        duplicate_location: d2,
                    }) && lab@ == label && l2 == loc && d2 == duplicate_location) && final(args)@
                        == a,
                    Placement::Done { args: a, seen, unknown } => {
                        &&& final(args)@ == a
                        &&& unknown.len() == 0 ==> r is Ok
                        &&& unknown.len() > 0 ==> (r matches Err(Error::UnknownLabels(v)) && v@.len()
                            == 1 && v@[0].unkown@ == unknown && labels_sorted(
                            v@[0].valid@,
                            self.fields@.dom(),
                        ) && texts(v@[0].suppleid@) == seen)
                    },
                },
            },
    {
        if self.arity != args.len() {
            let labels = self.incorrect_arity_labels(args);
            return Err(
                Error::IncorrectFieldsArity { labels, location, expected: self.arity, given: args.len() },
            );
        }
        let mut last: Option<usize> = None;
        let mut k: usize = 0;
        while k < args.len()
            invariant
                k <= args@.len(),
                args@ == old(args)@,
                self.arity == old(args)@.len(),
                positional_after_labeled(old(args)@, 0, None) == positional_after_labeled(
                    old(args)@,
                    k as int,
                    match last {
                        Some(x) => Some(x as int),
                        None => None,
                    },
                ),
                last matches Some(x) ==> x < k,
            decreases args@.len() - k,
        {
            match &args[k].label {
                Some(_) => {
                    last = Some(k);
                },
                None => {
                    match last {
                        Some(j) => {
                            return Err(
                                Error::PositionalArgumentAfterLabeled {
                                    location: args[k].location,
                                    labeled_arg_location: args[j].location,
                                },
                            );
                        },
                        None => {},
                    }
                },
            }
            k = k + 1;
        }
        let n = self.fields.len();
        let ghost fields = self.fields@;
        let ghost goal = place_from(fields, old(args)@, 0, Seq::empty(), Seq::empty());
        let mut seen: Vec<String> = Vec::new();
        let mut unknown: Vec<Span> = Vec::new();
        let mut i: usize = 0;
        proof {
            assert(texts(seen@) =~= Seq::<Seq<char>>::empty());
            assert(unknown@ =~= Seq::<Span>::empty());
        }
        while i < args.len()
            invariant
                fields == self.fields@,
                fields.dom().finite(),
                self.wf(),
                self.arity == args@.len(),
                i <= args@.len(),
                place_from(fields, args@, i as int, texts(seen@), unknown@) == goal,
                goal == place_from(self.fields@, old(args)@, 0, Seq::empty(), Seq::empty()),
                self.arity == old(args)@.len(),
                positional_after_labeled(old(args)@, 0, None) is None,
            decreases unseen(fields, texts(seen@)).len(), args@.len() - i,
        {
            let ghost a0 = args@;
            let ghost s0 = texts(seen@);
            let ghost u0 = unknown@;
            let ghost i0 = i as int;
            let label = match &args[i].label {
                Some(l) => l.clone(),
                None => {
                    i = i + 1;
                    proof {
                        assert(place_from(fields, a0, i0, s0, u0) == place_from(fields, a0, i0 + 1, s0, u0));
                    }
                    continue ;
                },
            };
            let loc = args[i].location;
            proof {
                assert(a0[i0].label == Some(label));
                assert(loc == a0[i0].location);
            }
            match self.fields.get(label.as_str()) {
                None => {
                    unknown.push(loc);
                    i = i + 1;
                    proof {
                        assert(place_from(fields, a0, i0, s0, u0) == place_from(fields, a0, i0 + 1, s0, u0.push(loc)));
                    }
                },
                Some(entry) => {
                    let position = entry.0;
                    let duplicate_location = entry.1;
                    let is_seen = contains_text(&seen, label.as_str());
                    proof {
                        lemma_unseen_push(fields, s0, label@);
                        assert(fields[label@] == (position, duplicate_location));
                    }
                    if position == i {
                        if !is_seen {
                            seen.push(label);
                            proof {
                                assert(texts(seen@) =~= s0.push(label@));
                            }
                        }
                        i = i + 1;
                        proof {
                            assert(place_from(fields, a0, i0, s0, u0) == place_from(
                                fields,
                                a0,
                                i0 + 1,
                                texts(seen@),
                                u0,
                            ));
                        }
                    } else {
                        if is_seen {
                            return Err(Error::DuplicateArgument { location: loc, duplicate_location, label });
                        }
                        let ghost l = label@;
                        seen.push(label);
                        swap_items(args, position, i);
                        proof {
                            assert(texts(seen@) =~= s0.push(l));
                            assert(position < a0.len());
                            assert(args@ == a0.update(position as int, a0[i0]).update(i0, a0[position as int]));
                            assert(place_from(fields, a0, i0, s0, u0) == place_from(
                                fields,
                                args@,
                                i0,
                                texts(seen@),
                                u0,
                            ));
                        }
                    }
                },
            }
        }
        if unknown.len() == 0 {
            Ok(())
        } else {
            let valid = self.sorted_labels();
            let mut report: Vec<UnkownLabels> = Vec::new();
            report.push(UnkownLabels { unkown: unknown, valid, suppleid: seen });
            Err(Error::UnknownLabels(report))
        }
    }
}


/// The argument at position `j` carries no label, or a declared label
/// whose position is `j`.
pub open spec fn placed<A>(fields: Map<Seq<char>, (usize, Span)>, a: Seq<CallArg<A>>, j: int) -> bool {
    (a[j].label matches Some(l) ==> fields.contains_key(l@) && fields[l@].0 == j)
}

/// The argument at position `j` carries no label, a label that is not
/// declared, or a declared label whose position is `j`.
pub open spec fn placed_or_unknown<A>(
    fields: Map<Seq<char>, (usize, Span)>,
    a: Seq<CallArg<A>>,
    j: int,
) -> bool {
    (a[j].label matches Some(l) ==> (fields.contains_key(l@) ==> fields[l@].0 == j))
}

proof fn lemma_place_from<A>(
    fields: Map<Seq<char>, (usize, Span)>,
    args: Seq<CallArg<A>>,
    i: int,
    seen: Seq<Seq<char>>,
    unknown: Seq<Span>,
)
    requires
        fields.dom().finite(),
        0 <= i <= args.len(),
        forall|l: Seq<char>| #[trigger] fields.contains_key(l) ==> fields[l].0 < args.len(),
        forall|j: int| 0 <= j < i ==> #[trigger] placed_or_unknown(fields, args, j),
        unknown.len() == 0 ==> forall|j: int| 0 <= j < i ==> #[trigger] placed(fields, args, j),
    ensures
        place_from(fields, args, i, seen, unknown) matches Placement::Done { args: a, unknown: u, .. }
            ==> {
            &&& a.len() == args.len()
            &&& a.to_multiset() == args.to_multiset()
            &&& u.len() >= unknown.len()
            &&& u.len() == 0 ==> forall|j: int| 0 <= j < a.len() ==> #[trigger] placed(fields, a, j)
        },
    decreases unseen(fields, seen).len(), args.len() - i,
{
    if i < args.len() {
        match args[i].label {
            None => {
                lemma_place_from(fields, args, i + 1, seen, unknown);
            },
            Some(label) => {
                let l = label@;
                if !fields.contains_key(l) {
                    lemma_place_from(fields, args, i + 1, seen, unknown.push(args[i].location));
                } else {
                    let position = fields[l].0 as int;
                    let seen2 = if seen.contains(l) {
                        seen
                    } else {
                        seen.push(l)
                    };
                    lemma_unseen_push(fields, seen, l);
                    if position == i {
                        lemma_place_from(fields, args, i + 1, seen2, unknown);
                    } else if seen.contains(l) {
                    } else {
                        let a2 = args.update(position, args[i]).update(i, args[position]);
                        assert(a2.len() == args.len());
                        assert forall|j: int| 0 <= j < i implies #[trigger] placed_or_unknown(fields, a2, j) by {
                            if j != position {
                                assert(a2[j] == args[j]);
                                assert(placed_or_unknown(fields, args, j));
                            } else {
                                assert(a2[j] == args[i]);
                            }
                        }
                        if unknown.len() == 0 {
                            assert forall|j: int| 0 <= j < i implies #[trigger] placed(fields, a2, j) by {
                                if j != position {
                                    assert(a2[j] == args[j]);
                                    assert(placed(fields, args, j));
                                } else {
                                    assert(a2[j] == args[i]);
                                }
                            }
                        }
                        lemma_place_from(fields, a2, i, seen2, unknown);
                        vstd::seq_lib::to_multiset_update(args, position, args[i]);
                        let a1 = args.update(position, args[i]);
                        vstd::seq_lib::to_multiset_update(a1, i, args[position]);
                        assert(a1[i] == args[i]);
                        args.to_multiset_ensures();
                        assert(args.contains(args[i]));
                        assert(args.contains(args[position]));
                        assert(args.to_multiset().count(args[position]) > 0);
                        assert(args.to_multiset().count(args[i]) > 0);
                        assert(a2.to_multiset() =~= args.to_multiset()) by {
                            broadcast use vstd::multiset::group_multiset_axioms;

                            assert forall|z: CallArg<A>| a2.to_multiset().count(z) == args.to_multiset().count(z) by {
                            }
                        }
                    }
                }
            },
        }
    }
}

/// Putting a call's arguments in place keeps them all, each as often; when
/// no unknown label was given, every labelled argument ends at the position
/// its label is declared at.
pub proof fn law_reorder_places_labels<A>(fields: Map<Seq<char>, (usize, Span)>, args: Seq<CallArg<A>>)
    requires
        fields.dom().finite(),
        forall|l: Seq<char>| #[trigger] fields.contains_key(l) ==> fields[l].0 < args.len(),
    ensures
        place_from(fields, args, 0, Seq::empty(), Seq::empty()) matches Placement::Done {
            args: a,
            unknown: u,
            ..
        } ==> a.to_multiset() == args.to_multiset() && (u.len() == 0 ==> forall|j: int|
            0 <= j < a.len() ==> #[trigger] placed(fields, a, j)),
{
    lemma_place_from(fields, args, 0, Seq::empty(), Seq::empty());
}


impl Clone for FieldMap {
    fn clone(&self) -> (r: Self)
        ensures
            r.arity == self.arity,
            r.is_function == self.is_function,
            r.fields@ == self.fields@,
    {
        let fields = self.fields.copy_plain();
        FieldMap { arity: self.arity, fields, is_function: self.is_function }
    }
}

} // verus!
