use vstd::prelude::*;
use vstd::string::StringSliceAdditionalSpecFns;

verus! {

broadcast use vstd::string::group_string_axioms;

/// The least number of single-character insertions, deletions and
/// substitutions that turn `a` into `b`.
pub open spec fn lev(a: Seq<char>, b: Seq<char>) -> nat
    decreases a.len() + b.len(),
{
    if a.len() == 0 {
        b.len()
    } else if b.len() == 0 {
        a.len()
    } else {
        let del = lev(a.drop_last(), b) + 1;
        let ins = lev(a, b.drop_last()) + 1;
        let sub = lev(a.drop_last(), b.drop_last()) + if a.last() == b.last() {
            0nat
        } else {
            1nat
        };
        if del <= ins && del <= sub {
            del
        } else if ins <= sub {
            ins
        } else {
            sub
        }
    }
}

/// The distance is at most the length of the longer sequence.
pub proof fn lemma_lev_bound(a: Seq<char>, b: Seq<char>)
    ensures
        lev(a, b) <= if a.len() >= b.len() {
            a.len()
        } else {
            b.len()
        },
    decreases a.len() + b.len(),
{
    if a.len() > 0 && b.len() > 0 {
        lemma_lev_bound(a.drop_last(), b.drop_last());
    }
}

/// The distance does not depend on the order of its arguments.
pub proof fn lemma_lev_symmetric(a: Seq<char>, b: Seq<char>)
    ensures
        lev(a, b) == lev(b, a),
    decreases a.len() + b.len(),
{
    if a.len() > 0 && b.len() > 0 {
        lemma_lev_symmetric(a.drop_last(), b);
        lemma_lev_symmetric(a, b.drop_last());
        lemma_lev_symmetric(a.drop_last(), b.drop_last());
    }
}

/// A sequence is at distance zero from itself.
pub proof fn lemma_lev_self(a: Seq<char>)
    ensures
        lev(a, a) == 0,
    decreases a.len(),
{
    if a.len() > 0 {
        lemma_lev_self(a.drop_last());
    }
}

/// What [`distance`] gives for two strings, each taken as its characters
/// and its length in bytes: the edit distance, except that when one string
/// is empty it is the byte length of the other.
pub open spec fn distance_of(a: Seq<char>, a_bytes: nat, b: Seq<char>, b_bytes: nat) -> nat {
    if a.len() == 0 {
        b_bytes
    } else if b.len() == 0 {
        a_bytes
    } else {
        lev(a, b)
    }
}

/// How the characters and the byte length of a string relate: it has no
/// characters exactly when it has no bytes, and never more characters than
/// bytes.
pub open spec fn text_sizes(chars: Seq<char>, bytes: nat) -> bool {
    (chars.len() == 0 <==> bytes == 0) && chars.len() <= bytes
}

/// The distance does not depend on which string comes first.
pub proof fn law_distance_symmetric(a: Seq<char>, a_bytes: nat, b: Seq<char>, b_bytes: nat)
    requires
        text_sizes(a, a_bytes),
        text_sizes(b, b_bytes),
    ensures
        distance_of(a, a_bytes, b, b_bytes) == distance_of(b, b_bytes, a, a_bytes),
{
    lemma_lev_symmetric(a, b);
}

/// A string is at distance zero from itself.
pub proof fn law_distance_self(a: Seq<char>, a_bytes: nat)
    requires
        text_sizes(a, a_bytes),
    ensures
        distance_of(a, a_bytes, a, a_bytes) == 0,
{
    lemma_lev_self(a);
}

/// The distance is at most the byte length of the longer string, and at most
/// its number of characters where an empty side meets a string whose
/// characters are one byte each.
pub proof fn law_distance_bound(a: Seq<char>, a_bytes: nat, b: Seq<char>, b_bytes: nat)
    requires
        text_sizes(a, a_bytes),
        text_sizes(b, b_bytes),
    ensures
        distance_of(a, a_bytes, b, b_bytes) <= if a_bytes >= b_bytes {
            a_bytes
        } else {
            b_bytes
        },
        (a.len() == 0 ==> b_bytes == b.len()) && (b.len() == 0 ==> a_bytes == a.len())
            ==> distance_of(a, a_bytes, b, b_bytes) <= if a.len() >= b.len() {
            a.len()
        } else {
            b.len()
        },
{
    lemma_lev_bound(a, b);
}

/// The characters of a string slice, in order.
fn chars_of(s: &str) -> (r: Vec<char>)
    ensures
        r@ == s@,
{
    let mut r: Vec<char> = Vec::new();
    for c in it: s.chars()
        invariant
            it.seq() == s@,
            r@ == s@.take(it.index()),
    {
        let ghost k = it.index();
        r.push(c);
        proof {
            assert(r@ =~= s@.take(k + 1));
        }
    }
    proof {
        assert(s@.take(s@.len() as int) =~= s@);
    }
    r
}

/// The edit distance between two strings. When one of them is empty the
/// result is the length of the other in bytes.
pub fn distance(source: &str, target: &str) -> (r: usize)
    requires
        source@.len() < usize::MAX,
        target@.len() < usize::MAX,
        source.spec_bytes().len() <= usize::MAX,
        target.spec_bytes().len() <= usize::MAX,
    ensures
        r == distance_of(source@, source.spec_bytes().len(), target@, target.spec_bytes().len()),
{
    if source.is_empty() {
        return target.len();
    }
    if target.is_empty() {
        return source.len();
    }
    let a = chars_of(source);
    let b = chars_of(target);
    let n = a.len();
    let m = b.len();
    let ghost sa = source@;
    let ghost sb = target@;
    let mut distances: Vec<usize> = Vec::new();
    let mut k: usize = 0;
    while k <= m
        invariant
            m == sb.len(),
            m < usize::MAX,
            k <= m + 1,
            distances@.len() == k,
            forall|j: int| 0 <= j < k ==> distances@[j] == lev(Seq::<char>::empty(), sb.take(j)),
        decreases m + 1 - k,
    {
        distances.push(k);
        k = k + 1;
    }
    let mut i: usize = 0;
    while i < n
        invariant
            a@ == sa,
            b@ == sb,
            n == sa.len(),
            m == sb.len(),
            n < usize::MAX,
            m < usize::MAX,
            i <= n,
            distances@.len() == m + 1,
            forall|j: int| 0 <= j <= m ==> distances@[j] == lev(sa.take(i as int), sb.take(j)),
        decreases n - i,
    {
        let ch1 = a[i];
        let mut sub = i;
        proof {
            assert(sa.take(i as int).len() == i);
            assert(sb.take(0) =~= Seq::<char>::empty());
            assert(sa.take(i + 1).len() == i + 1);
        }
        distances.set(0, sub + 1);
        let mut j: usize = 0;
        while j < m
            invariant
                a@ == sa,
                b@ == sb,
                n == sa.len(),
                m == sb.len(),
                n < usize::MAX,
                m < usize::MAX,
                i < n,
                j <= m,
                ch1 == sa[i as int],
                distances@.len() == m + 1,
                sub == lev(sa.take(i as int), sb.take(j as int)),
                forall|l: int| 0 <= l <= j ==> distances@[l] == lev(sa.take(i + 1), sb.take(l)),
                forall|l: int| j < l <= m ==> distances@[l] == lev(sa.take(i as int), sb.take(l)),
            decreases m - j,
        {
            let ch2 = b[j];
            proof {
                let a1 = sa.take(i + 1);
                let b1 = sb.take(j + 1);
                assert(a1.drop_last() =~= sa.take(i as int));
                assert(b1.drop_last() =~= sb.take(j as int));
                assert(a1.last() == ch1);
                assert(b1.last() == ch2);
                lemma_lev_bound(a1, sb.take(j as int));
                lemma_lev_bound(sa.take(i as int), b1);
                lemma_lev_bound(sa.take(i as int), sb.take(j as int));
            }
            let d1 = if distances[j] <= distances[j + 1] {
                distances[j]
            } else {
                distances[j + 1]
            };
            let diff: usize = if ch1 != ch2 {
                1
            } else {
                0
            };
            let dist = if d1 + 1 <= sub + diff {
                d1 + 1
            } else {
                sub + diff
            };
            sub = distances[j + 1];
            distances.set(j + 1, dist);
            j = j + 1;
        }
        i = i + 1;
    }
    proof {
        assert(sa.take(n as int) =~= sa);
        assert(sb.take(m as int) =~= sb);
    }
    distances[m]
}

} // verus!
