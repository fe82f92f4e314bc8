use vstd::prelude::*;

verus! {

/// The length of the longest common prefix of two sequences.
pub open spec fn common_prefix_len(a: Seq<u64>, b: Seq<u64>) -> nat
    decreases a.len(),
{
    if a.len() == 0 || b.len() == 0 || a[0] != b[0] {
        0
    } else {
        1 + common_prefix_len(a.drop_first(), b.drop_first())
    }
}

/// The longest common prefix of two sequences.
pub open spec fn common_prefix(a: Seq<u64>, b: Seq<u64>) -> Seq<u64> {
    a.take(common_prefix_len(a, b) as int)
}

/// `s` with its part in common with `r` replaced by `r`.
pub open spec fn replaced(s: Seq<u64>, r: Seq<u64>) -> Seq<u64> {
    r + s.skip(common_prefix_len(s, r) as int)
}

/// The common prefix length is the first position where the sequences
/// differ, or the end of the shorter one.
pub proof fn lemma_common_prefix_len(a: Seq<u64>, b: Seq<u64>)
    ensures
        common_prefix_len(a, b) <= a.len(),
        common_prefix_len(a, b) <= b.len(),
        forall|i: int| 0 <= i < common_prefix_len(a, b) ==> a[i] == b[i],
        common_prefix_len(a, b) < a.len() && common_prefix_len(a, b) < b.len() ==> a[common_prefix_len(
            a,
            b,
        ) as int] != b[common_prefix_len(a, b) as int],
    decreases a.len(),
{
    if !(a.len() == 0 || b.len() == 0 || a[0] != b[0]) {
        lemma_common_prefix_len(a.drop_first(), b.drop_first());
        assert forall|i: int| 0 <= i < common_prefix_len(a, b) implies a[i] == b[i] by {
            if i > 0 {
                assert(a[i] == a.drop_first()[i - 1]);
                assert(b[i] == b.drop_first()[i - 1]);
            }
        }
    }
}

/// Any length up to which two sequences agree, and after which they differ
/// or one ends, is their common prefix length.
pub proof fn lemma_common_prefix_len_unique(a: Seq<u64>, b: Seq<u64>, n: nat)
    requires
        n <= a.len(),
        n <= b.len(),
        forall|i: int| 0 <= i < n ==> a[i] == b[i],
        n < a.len() && n < b.len() ==> a[n as int] != b[n as int],
    ensures
        common_prefix_len(a, b) == n,
    decreases a.len(),
{
    if n > 0 {
        lemma_common_prefix_len_unique(a.drop_first(), b.drop_first(), (n - 1) as nat);
    }
}

/// The scope of an instruction: the path of identifiers from the root of the
/// program to the instruction.
#[derive(Debug, PartialEq, Eq)]
pub struct Scope(Vec<u64>);

impl View for Scope {
    type V = Seq<u64>;

    closed spec fn view(&self) -> Seq<u64> {
        self.0@
    }
}

impl Clone for Scope {
    fn clone(&self) -> (r: Self)
        ensures
            r@ == self@,
    {
        Scope(self.0.clone())
    }
}

impl Default for Scope {
    fn default() -> (r: Self)
        ensures
            r@ == Seq::<u64>::empty(),
    {
        Scope(Vec::new())
    }
}

impl Scope {
    /// The scope with the given path.
    pub fn from_vec(value: Vec<u64>) -> (r: Self)
        ensures
            r@ == value@,
    {
        Scope(value)
    }

    /// Extends the path by one identifier.
    pub fn push(&mut self, value: u64)
        ensures
            final(self)@ == old(self)@.push(value),
    {
        self.0.push(value);
    }

    /// Whether the path is empty.
    pub fn is_empty(&self) -> (b: bool)
        ensures
            b == (self@.len() == 0),
    {
        self.0.is_empty()
    }

    /// Replaces the part of the path shared with `replacement` by
    /// `replacement` itself.
    pub fn replace(&mut self, replacement: Scope)
        ensures
            final(self)@ == replaced(old(self)@, replacement@),
    {
        let mut replacement = replacement;
        let common = self.common_ancestor(&replacement);
        let start = common.0.len();
        let ghost r0 = replacement@;
        proof {
            lemma_common_prefix_len(self@, r0);
            assert(r0 + self.0@.subrange(start as int, start as int) =~= r0);
        }
        let mut i = start;
        while i < self.0.len()
            invariant
                start <= i <= self.0@.len(),
                start == common_prefix_len(self@, r0),
                replacement@ == r0 + self.0@.subrange(start as int, i as int),
            decreases self.0@.len() - i,
        {
            replacement.0.push(self.0[i]);
            i = i + 1;
            proof {
                assert(replacement@ =~= r0 + self.0@.subrange(start as int, i as int));
            }
        }
        proof {
            assert(self.0@.subrange(start as int, i as int) =~= self@.skip(start as int));
        }
        self.0 = replacement.0;
    }

    /// The longest path that both scopes start with.
    pub fn common_ancestor(&self, other: &Self) -> (r: Scope)
        ensures
            r@ == common_prefix(self@, other@),
            r@.len() == common_prefix_len(self@, other@),
    {
        proof {
            lemma_common_prefix_len(self@, other@);
        }
        let longest_length = if self.0.len() >= other.0.len() {
            self.0.len()
        } else {
            other.0.len()
        };
        if self.0 == other.0 {
            proof {
                lemma_common_prefix_len_unique(self@, other@, self@.len());
                assert(self@.take(self@.len() as int) =~= self@);
            }
            return self.clone();
        }
        let mut index: usize = 0;
        while index < longest_length
            invariant
                index <= longest_length,
                longest_length == self@.len() || longest_length == other@.len(),
                self@.len() <= longest_length,
                other@.len() <= longest_length,
                forall|i: int| 0 <= i < index ==> self@[i] == other@[i],
                index <= self@.len(),
                index <= other@.len(),
            decreases longest_length - index,
        {
            if self.0.get(index).is_none() {
                proof {
                    lemma_common_prefix_len_unique(self@, other@, index as nat);
                    assert(self@.take(index as int) =~= self@);
                }
                return self.clone();
            } else if other.0.get(index).is_none() {
                proof {
                    lemma_common_prefix_len_unique(self@, other@, index as nat);
                    assert(self@.take(index as int) =~= other@);
                }
                return other.clone();
            } else if self.0[index] != other.0[index] {
                proof {
                    lemma_common_prefix_len_unique(self@, other@, index as nat);
                }
                let mut prefix: Vec<u64> = Vec::new();
                let mut j: usize = 0;
                while j < index
                    invariant
                        j <= index,
                        index <= self@.len(),
                        prefix@ == self@.take(j as int),
                    decreases index - j,
                {
                    prefix.push(self.0[j]);
                    j = j + 1;
                    proof {
                        assert(prefix@ =~= self@.take(j as int));
                    }
                }
                return Scope(prefix);
            }
            index = index + 1;
        }
        proof {
            assert(self@ =~= other@);
        }
        Scope::default()
    }
}

} // verus!
