use vstd::prelude::*;
use vstd::utf8::encode_utf8;
use itertools::Itertools;

verus! {

/// Compares two string slices character by character.
#[verifier::external_body]
pub fn str_eq(a: &str, b: &str) -> (r: bool)
    ensures
        r == (a@ == b@),
{
    a == b
}

/// Appends one character to a string.
#[verifier::external_body]
pub fn push_char(s: &mut String, c: char)
    ensures
        final(s)@ == old(s)@.push(c),
{
    s.push(c)
}

/// Appends a string slice to a string.
#[verifier::external_body]
pub fn push_str(s: &mut String, t: &str)
    ensures
        final(s)@ == old(s)@ + t@,
{
    s.push_str(t)
}

/// The character of a decimal digit.
pub open spec fn digit_char(d: nat) -> char {
    (48 + d) as char
}

/// The decimal digits of a natural number, most significant first.
pub open spec fn nat_digits(n: nat) -> Seq<char>
    decreases n,
{
    if n < 10 {
        seq![digit_char(n)]
    } else {
        nat_digits(n / 10).push(digit_char(n % 10))
    }
}

/// The decimal notation of an integer, with a leading minus sign when it is
/// negative.
pub open spec fn decimal(x: int) -> Seq<char> {
    if x < 0 {
        seq!['-'] + nat_digits((-x) as nat)
    } else {
        nat_digits(x as nat)
    }
}

/// Writes an integer in decimal notation.
pub fn decimal_string(x: i128) -> (r: String)
    ensures
        r@ == decimal(x as int),
{
    let mut mag: u128 = if x < 0 {
        if x == i128::MIN {
            170141183460469231731687303715884105728u128
        } else {
            (-x) as u128
        }
    } else {
        x as u128
    };
    let ghost m0 = mag as nat;
    let mut rev: Vec<char> = Vec::new();
    proof {
        assert(nat_digits(m0) =~= nat_digits(mag as nat) + rev@.reverse());
    }
    loop
        invariant_except_break
            nat_digits(m0) == nat_digits(mag as nat) + rev@.reverse(),
        ensures
            nat_digits(m0) == rev@.reverse(),
        decreases mag,
    {
        let d = (mag % 10) as u8;
        let c = (48u8 + d) as char;
        let ghost old_rev = rev@;
        rev.push(c);
        proof {
            assert(c == digit_char((mag % 10) as nat));
            assert(rev@.reverse() =~= seq![c] + old_rev.reverse());
        }
        if mag < 10 {
            proof {
                assert(nat_digits(mag as nat) == seq![c]);
            }
            break ;
        }
        proof {
            assert(nat_digits(mag as nat) == nat_digits((mag / 10) as nat).push(c));
            assert(nat_digits((mag / 10) as nat).push(c) + old_rev.reverse() =~= nat_digits(
                (mag / 10) as nat,
            ) + rev@.reverse());
        }
        mag = mag / 10;
    }
    let mut r = String::new();
    if x < 0 {
        push_char(&mut r, '-');
    }
    let ghost prefix = r@;
    let mut k = rev.len();
    while k > 0
        invariant
            k <= rev@.len(),
            r@ == prefix + rev@.reverse().take(rev@.len() - k),
        decreases k,
    {
        k = k - 1;
        push_char(&mut r, rev[k]);
        proof {
            assert(rev@.reverse().take(rev@.len() - k) =~= rev@.reverse().take(rev@.len() - k - 1).push(
                rev@[k as int],
            ));
        }
    }
    proof {
        assert(rev@.reverse().take(rev@.len() as int) =~= rev@.reverse());
        assert(x < 0 ==> m0 == -x);
        assert(x >= 0 ==> m0 == x);
    }
    r
}

/// An owned copy of a string slice.
pub fn owned(s: &str) -> (r: String)
    ensures
        r@ == s@,
{
    broadcast use vstd::string::group_string_axioms;

    s.to_string()
}


/// Byte sequences in lexicographic order: `a` is a prefix of `b`, or at the
/// first byte where they differ `a`'s byte is smaller.
pub open spec fn bytes_le(a: Seq<u8>, b: Seq<u8>) -> bool
    decreases a.len(),
{
    if a.len() == 0 {
        true
    } else if b.len() == 0 {
        false
    } else if a[0] != b[0] {
        a[0] < b[0]
    } else {
        bytes_le(a.drop_first(), b.drop_first())
    }
}

/// Strings in the order of `String`'s `Ord`, which compares their bytes
/// lexicographically.
pub open spec fn string_le(a: Seq<char>, b: Seq<char>) -> bool {
    bytes_le(encode_utf8(a), encode_utf8(b))
}

/// The texts of a list of strings.
pub open spec fn texts(v: Seq<String>) -> Seq<Seq<char>> {
    v.map_values(|s: String| s@)
}

/// Sorts strings with `Itertools::sorted`. The result holds the same
/// strings, each as often, in `String`'s order.
#[verifier::external_body]
pub fn sorted_strings(v: Vec<String>) -> (r: Vec<String>)
    ensures
        texts(r@).to_multiset() == texts(v@).to_multiset(),
        forall|i: int, j: int| 0 <= i < j < r@.len() ==> string_le(r@[i]@, r@[j]@),
{
    v.into_iter().sorted().collect()
}

} // verus!
