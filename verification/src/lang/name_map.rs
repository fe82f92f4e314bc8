use vstd::prelude::*;
use crate::text::str_eq;

verus! {

/// The map that a list of distinct-keyed entries stands for.
pub open spec fn entries_map<V>(entries: Seq<(String, V)>) -> Map<Seq<char>, V>
    decreases entries.len(),
{
    if entries.len() == 0 {
        Map::empty()
    } else {
        entries_map(entries.drop_last()).insert(entries.last().0@, entries.last().1)
    }
}

/// No key occurs twice among the entries.
pub open spec fn distinct_keys<V>(entries: Seq<(String, V)>) -> bool {
    forall|i: int, j: int|
        0 <= i < entries.len() && 0 <= j < entries.len() && i != j ==> entries[i].0@
            != entries[j].0@
}

/// A map from names to values, keeping its entries in insertion order.
pub struct NameMap<V> {
    entries: Vec<(String, V)>,
}

impl<V> View for NameMap<V> {
    type V = Map<Seq<char>, V>;

    closed spec fn view(&self) -> Map<Seq<char>, V> {
        entries_map(self.entries@)
    }
}

pub proof fn lemma_entries_map<V>(entries: Seq<(String, V)>)
    requires
        distinct_keys(entries),
    ensures
        entries_map(entries).dom().finite(),
        entries_map(entries).dom().len() == entries.len(),
        forall|k: Seq<char>|
            #![trigger entries_map(entries).contains_key(k)]
            entries_map(entries).contains_key(k) <==> exists|i: int|
                0 <= i < entries.len() && entries[i].0@ == k,
        forall|i: int|
            #![trigger entries[i]]
            0 <= i < entries.len() ==> entries_map(entries).contains_key(entries[i].0@)
                && entries_map(entries)[entries[i].0@] == entries[i].1,
    decreases entries.len(),
{
    if entries.len() > 0 {
        let init = entries.drop_last();
        assert(distinct_keys(init));
        lemma_entries_map(init);
        let last = entries.last();
        assert(!entries_map(init).contains_key(last.0@)) by {
            if entries_map(init).contains_key(last.0@) {
                let i = choose|i: int| 0 <= i < init.len() && init[i].0@ == last.0@;
                assert(entries[i].0@ == entries[entries.len() - 1].0@);
            }
        }
        assert forall|k: Seq<char>|
            #![trigger entries_map(entries).contains_key(k)]
            entries_map(entries).contains_key(k) <==> exists|i: int|
                0 <= i < entries.len() && entries[i].0@ == k by {
            if entries_map(entries).contains_key(k) && k != last.0@ {
                let i = choose|i: int| 0 <= i < init.len() && init[i].0@ == k;
                assert(entries[i].0@ == k);
            }
            if exists|i: int| 0 <= i < entries.len() && entries[i].0@ == k {
                let i = choose|i: int| 0 <= i < entries.len() && entries[i].0@ == k;
                if i < entries.len() - 1 {
                    assert(init[i].0@ == k);
                }
            }
        }
        assert forall|i: int|
            #![trigger entries[i]]
            0 <= i < entries.len() implies entries_map(entries).contains_key(entries[i].0@)
                && entries_map(entries)[entries[i].0@] == entries[i].1 by {
            if i < entries.len() - 1 {
                assert(init[i] == entries[i]);
            }
        }
    }
}

impl<V> NameMap<V> {
    #[verifier::type_invariant]
    spec fn inv(self) -> bool {
        distinct_keys(self.entries@)
    }

    /// The names of the map, in insertion order.
    pub closed spec fn key_seq(&self) -> Seq<Seq<char>> {
        self.entries@.map_values(|e: (String, V)| e.0@)
    }

    /// An empty map.
    pub fn new() -> (m: Self)
        ensures
            m@ == Map::<Seq<char>, V>::empty(),
            m.key_seq() == Seq::<Seq<char>>::empty(),
    {
        let m = NameMap { entries: Vec::new() };
        proof {
            assert(m.key_seq() =~= Seq::<Seq<char>>::empty());
        }
        m
    }

    /// The number of names. The names in insertion order are distinct and
    /// are exactly the domain of the map.
    pub fn len(&self) -> (n: usize)
        ensures
            n == self@.len(),
            n == self.key_seq().len(),
            self@.dom().finite(),
            self.key_seq().no_duplicates(),
            forall|k: Seq<char>| #[trigger] self@.contains_key(k) <==> self.key_seq().contains(k),
    {
        proof {
            use_type_invariant(self);
            lemma_entries_map(self.entries@);
            assert forall|k: Seq<char>| #[trigger]
                self@.contains_key(k) <==> self.key_seq().contains(k) by {
                if self@.contains_key(k) {
                    let i = choose|i: int| 0 <= i < self.entries@.len() && self.entries@[i].0@ == k;
                    assert(self.key_seq()[i] == k);
                }
                if self.key_seq().contains(k) {
                    let i = choose|i: int| 0 <= i < self.key_seq().len() && self.key_seq()[i] == k;
                    assert(self.entries@[i].0@ == k);
                }
            }
        }
        self.entries.len()
    }

    /// Whether the map holds no name.
    pub fn is_empty(&self) -> (b: bool)
        ensures
            b == (self@.len() == 0),
    {
        self.len() == 0
    }

    /// The position of a name among the entries.
    fn find(&self, k: &str) -> (r: Option<usize>)
        ensures
            match r {
                Some(i) => i < self.entries@.len() && self.entries@[i as int].0@ == k@,
                None => forall|i: int|
                    0 <= i < self.entries@.len() ==> self.entries@[i].0@ != k@,
            },
    {
        let mut i: usize = 0;
        while i < self.entries.len()
            invariant
                i <= self.entries@.len(),
                forall|j: int| 0 <= j < i ==> self.entries@[j].0@ != k@,
            decreases self.entries@.len() - i,
        {
            if str_eq(self.entries[i].0.as_str(), k) {
                return Some(i);
            }
            i = i + 1;
        }
        None
    }

    /// Whether `k` is a name of the map.
    pub fn contains_key(&self, k: &str) -> (b: bool)
        ensures
            b == self@.contains_key(k@),
    {
        proof {
            use_type_invariant(self);
            lemma_entries_map(self.entries@);
        }
        self.find(k).is_some()
    }

    /// The value under `k`, if any.
    pub fn get(&self, k: &str) -> (r: Option<&V>)
        ensures
            match r {
                Some(v) => self@.contains_key(k@) && *v == self@[k@],
                None => !self@.contains_key(k@),
            },
    {
        proof {
            use_type_invariant(self);
            lemma_entries_map(self.entries@);
        }
        match self.find(k) {
            Some(i) => Some(&self.entries[i].1),
            None => None,
        }
    }

    /// The name and value of the entry at position `i`.
    pub fn entry(&self, i: usize) -> (r: (&String, &V))
        requires
            i < self.key_seq().len(),
        ensures
            r.0@ == self.key_seq()[i as int],
            self@.contains_key(r.0@),
            self@[r.0@] == *r.1,
    {
        proof {
            use_type_invariant(self);
            lemma_entries_map(self.entries@);
        }
        (&self.entries[i].0, &self.entries[i].1)
    }

    /// Binds `k` to `v`, returning the value it replaced.
    pub fn insert(&mut self, k: String, v: V) -> (r: Option<V>)
        ensures
            final(self)@ == old(self)@.insert(k@, v),
            match r {
                Some(p) => old(self)@.contains_key(k@) && p == old(self)@[k@],
                None => !old(self)@.contains_key(k@),
            },
            old(self)@.contains_key(k@) ==> final(self).key_seq() == old(self).key_seq(),
            !old(self)@.contains_key(k@) ==> final(self).key_seq() == old(self).key_seq().push(k@),
    {
        proof {
            use_type_invariant(&*self);
            lemma_entries_map(self.entries@);
        }
        match self.find(k.as_str()) {
            Some(i) => {
                let ghost old_entries = self.entries@;
                let mut entries = Vec::new();
                std::mem::swap(&mut entries, &mut self.entries);
                let mut pair = (k, v);
                entries.set_and_swap(i, &mut pair);
                let (_, prev) = pair;
                proof {
                    let ne = entries@;
                    assert(ne == old_entries.update(i as int, (ne[i as int].0, ne[i as int].1)));
                    assert(distinct_keys(ne));
                    lemma_entries_map(ne);
                    assert(ne[i as int] == (k, v));
                    let mo = entries_map(old_entries);
                    let mn = entries_map(ne);
                    assert forall|x: Seq<char>| #[trigger]
                        mn.contains_key(x) == mo.insert(k@, v).contains_key(x) && (mn.contains_key(x)
                            ==> mn[x] == mo.insert(k@, v)[x]) by {
                        if mn.contains_key(x) {
                            let j = choose|j: int| 0 <= j < ne.len() && ne[j].0@ == x;
                            if j != i {
                                assert(old_entries[j] == ne[j]);
                            }
                        }
                        if mo.contains_key(x) {
                            let j = choose|j: int| 0 <= j < old_entries.len() && old_entries[j].0@ == x;
                            if j != i {
                                assert(old_entries[j] == ne[j]);
                            }
                        }
                    }
                    assert(mn =~= mo.insert(k@, v));
                    assert(ne.map_values(|e: (String, V)| e.0@) =~= old_entries.map_values(
                        |e: (String, V)| e.0@,
                    ));
                }
                self.entries = entries;
                Some(prev)
            },
            None => {
                let ghost old_entries = self.entries@;
                let mut entries = Vec::new();
                std::mem::swap(&mut entries, &mut self.entries);
                entries.push((k, v));
                proof {
                    assert(entries@.drop_last() =~= old_entries);
                    assert(distinct_keys(entries@));
                    assert(entries@.map_values(|e: (String, V)| e.0@) =~= old_entries.map_values(
                        |e: (String, V)| e.0@,
                    ).push(k@));
                }
                self.entries = entries;
                None
            },
        }
    }

    /// The names of the map, in insertion order.
    pub fn keys(&self) -> (r: Vec<String>)
        ensures
            r@.map_values(|s: String| s@) == self.key_seq(),
    {
        let mut r: Vec<String> = Vec::new();
        let mut i: usize = 0;
        while i < self.entries.len()
            invariant
                i <= self.entries@.len(),
                r@.map_values(|s: String| s@) == self.key_seq().take(i as int),
            decreases self.entries@.len() - i,
        {
            let ghost before = r@;
            r.push(self.entries[i].0.clone());
            proof {
                assert(r@.map_values(|s: String| s@) =~= before.map_values(|s: String| s@).push(
                    self.entries@[i as int].0@,
                ));
                assert(self.key_seq().take(i + 1) =~= self.key_seq().take(i as int).push(
                    self.key_seq()[i as int],
                ));
            }
            i = i + 1;
        }
        proof {
            assert(self.key_seq().take(self.entries@.len() as int) =~= self.key_seq());
        }
        r
    }

    /// Removes `k`, returning its value.
    pub fn remove(&mut self, k: &str) -> (r: Option<V>)
        ensures
            final(self)@ == old(self)@.remove(k@),
            match r {
                Some(v) => old(self)@.contains_key(k@) && v == old(self)@[k@],
                None => !old(self)@.contains_key(k@),
            },
    {
        proof {
            use_type_invariant(&*self);
            lemma_entries_map(self.entries@);
        }
        match self.find(k) {
            Some(i) => {
                let ghost old_entries = self.entries@;
                let mut entries = Vec::new();
                std::mem::swap(&mut entries, &mut self.entries);
                let (_, v) = entries.remove(i);
                proof {
                    let ne = entries@;
                    assert(ne == old_entries.remove(i as int));
                    assert(distinct_keys(ne)) by {
                        assert forall|a: int, b: int|
                            0 <= a < ne.len() && 0 <= b < ne.len() && a != b implies ne[a].0@
                            != ne[b].0@ by {
                            let a0 = if a < i { a } else { a + 1 };
                            let b0 = if b < i { b } else { b + 1 };
                            assert(ne[a] == old_entries[a0]);
                            assert(ne[b] == old_entries[b0]);
                        }
                    }
                    lemma_entries_map(ne);
                    let mo = entries_map(old_entries);
                    let mn = entries_map(ne);
                    assert forall|x: Seq<char>| #[trigger]
                        mn.contains_key(x) == mo.remove(k@).contains_key(x) && (mn.contains_key(x)
                            ==> mn[x] == mo.remove(k@)[x]) by {
                        if mn.contains_key(x) {
                            let j = choose|j: int| 0 <= j < ne.len() && ne[j].0@ == x;
                            let j0 = if j < i { j } else { j + 1 };
                            assert(ne[j] == old_entries[j0]);
                        }
                        if mo.contains_key(x) && x != k@ {
                            let j = choose|j: int| 0 <= j < old_entries.len() && old_entries[j].0@ == x;
                            assert(j != i);
                            let j1 = if j < i { j } else { j - 1 };
                            assert(ne[j1] == old_entries[j]);
                        }
                    }
                    assert(mn =~= mo.remove(k@));
                }
                self.entries = entries;
                Some(v)
            },
            None => {
                proof {
                    assert(self@ =~= old(self)@.remove(k@));
                }
                None
            },
        }
    }
}

impl<V: Clone> NameMap<V> {
    /// A copy of the map: the same names, each value cloned.
    pub fn copy(&self) -> (r: Self)
        ensures
            r@.dom() == self@.dom(),
            r.key_seq() == self.key_seq(),
            forall|k: Seq<char>| #[trigger] self@.contains_key(k) ==> cloned::<V>(self@[k], r@[k]),
    {
        proof {
            use_type_invariant(self);
            lemma_entries_map(self.entries@);
        }
        let mut entries: Vec<(String, V)> = Vec::new();
        let mut i: usize = 0;
        while i < self.entries.len()
            invariant
                distinct_keys(self.entries@),
                i <= self.entries@.len(),
                entries@.len() == i,
                forall|j: int| 0 <= j < i ==> #[trigger] entries@[j].0@ == self.entries@[j].0@,
                forall|j: int| 0 <= j < i ==> cloned::<V>(self.entries@[j].1, #[trigger] entries@[j].1),
            decreases self.entries@.len() - i,
        {
            let k = self.entries[i].0.clone();
            let v = self.entries[i].1.clone();
            entries.push((k, v));
            i = i + 1;
        }
        proof {
            let ne = entries@;
            let oe = self.entries@;
            assert(distinct_keys(ne)) by {
                assert forall|a: int, b: int|
                    0 <= a < ne.len() && 0 <= b < ne.len() && a != b implies ne[a].0@ != ne[b].0@ by {
                    assert(ne[a].0@ == oe[a].0@);
                    assert(ne[b].0@ == oe[b].0@);
                }
            }
            lemma_entries_map(ne);
            assert forall|k: Seq<char>| #[trigger] entries_map(ne).contains_key(k) <==> entries_map(oe).contains_key(k) by {
                if entries_map(ne).contains_key(k) {
                    let j = choose|j: int| 0 <= j < ne.len() && ne[j].0@ == k;
                    assert(oe[j].0@ == k);
                }
                if entries_map(oe).contains_key(k) {
                    let j = choose|j: int| 0 <= j < oe.len() && oe[j].0@ == k;
                    assert(ne[j].0@ == k);
                }
            }
            assert(entries_map(ne).dom() =~= entries_map(oe).dom());
            assert forall|k: Seq<char>| #[trigger] entries_map(oe).contains_key(k) implies cloned::<V>(
                entries_map(oe)[k],
                entries_map(ne)[k],
            ) by {
                let j = choose|j: int| 0 <= j < oe.len() && oe[j].0@ == k;
                assert(ne[j].0@ == k);
                assert(entries_map(oe)[oe[j].0@] == oe[j].1);
                assert(entries_map(ne)[ne[j].0@] == ne[j].1);
            }
            assert(ne.map_values(|e: (String, V)| e.0@) =~= oe.map_values(|e: (String, V)| e.0@));
        }
        NameMap { entries }
    }
}


impl<V: Copy> NameMap<V> {
    /// A copy of a map whose values are plain data.
    pub fn copy_plain(&self) -> (r: Self)
        ensures
            r@ == self@,
            r.key_seq() == self.key_seq(),
    {
        proof {
            use_type_invariant(self);
        }
        let mut entries: Vec<(String, V)> = Vec::new();
        let mut i: usize = 0;
        while i < self.entries.len()
            invariant
                distinct_keys(self.entries@),
                i <= self.entries@.len(),
                entries@.len() == i,
                forall|j: int| 0 <= j < i ==> #[trigger] entries@[j].0@ == self.entries@[j].0@,
                forall|j: int| 0 <= j < i ==> #[trigger] entries@[j].1 == self.entries@[j].1,
            decreases self.entries@.len() - i,
        {
            let k = self.entries[i].0.clone();
            let v = self.entries[i].1;
            entries.push((k, v));
            i = i + 1;
        }
        proof {
            let ne = entries@;
            let oe = self.entries@;
            assert(distinct_keys(ne)) by {
                assert forall|a: int, b: int|
                    0 <= a < ne.len() && 0 <= b < ne.len() && a != b implies ne[a].0@ != ne[b].0@ by {
                    assert(ne[a].0@ == oe[a].0@);
                    assert(ne[b].0@ == oe[b].0@);
                }
            }
            lemma_entries_map(ne);
            lemma_entries_map(oe);
            assert forall|k: Seq<char>| #[trigger] entries_map(ne).contains_key(k) <==> entries_map(oe).contains_key(k) by {
                if entries_map(ne).contains_key(k) {
                    let j = choose|j: int| 0 <= j < ne.len() && ne[j].0@ == k;
                    assert(oe[j].0@ == k);
                }
                if entries_map(oe).contains_key(k) {
                    let j = choose|j: int| 0 <= j < oe.len() && oe[j].0@ == k;
                    assert(ne[j].0@ == k);
                }
            }
            assert forall|k: Seq<char>| #[trigger] entries_map(oe).contains_key(k) implies entries_map(oe)[k]
                == entries_map(ne)[k] by {
                let j = choose|j: int| 0 <= j < oe.len() && oe[j].0@ == k;
                assert(ne[j].0@ == k);
                assert(entries_map(oe)[oe[j].0@] == oe[j].1);
                assert(entries_map(ne)[ne[j].0@] == ne[j].1);
            }
            assert(entries_map(ne) =~= entries_map(oe));
            assert(ne.map_values(|e: (String, V)| e.0@) =~= oe.map_values(|e: (String, V)| e.0@));
        }
        NameMap { entries }
    }
}

} // verus!
