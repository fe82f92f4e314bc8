use vstd::prelude::*;

verus! {

/// Bit `k` of `b`, counted from the least significant bit.
pub open spec fn get_bit(b: u8, k: u8) -> bool {
    (b >> k) & 1u8 == 1u8
}

/// The `n` low bits of `v`, most significant first.
pub open spec fn val_bits(v: u8, n: nat) -> Seq<bool> {
    Seq::new(n, |i: int| get_bit(v, (n - 1 - i) as u8))
}

/// The eight bits of a byte, most significant first.
pub open spec fn byte_bits(b: u8) -> Seq<bool> {
    val_bits(b, 8)
}

/// The bits of a byte sequence, each byte most significant bit first.
pub open spec fn bytes_bits(s: Seq<u8>) -> Seq<bool>
    decreases s.len(),
{
    if s.len() == 0 {
        Seq::empty()
    } else {
        bytes_bits(s.drop_last()) + byte_bits(s.last())
    }
}

/// `n` zero bits.
pub open spec fn zeros(n: nat) -> Seq<bool> {
    Seq::new(n, |i: int| false)
}

pub proof fn lemma_get_bit_or(a: u8, b: u8, k: u8)
    requires
        k < 8,
    ensures
        get_bit(a | b, k) == (get_bit(a, k) || get_bit(b, k)),
{
    assert(((a | b) >> k) & 1u8 == 1u8 <==> ((a >> k) & 1u8 == 1u8 || (b >> k) & 1u8 == 1u8))
        by (bit_vector)
        requires
            k < 8,
    ;
}

pub proof fn lemma_get_bit_shl(v: u8, x: u8, k: u8)
    requires
        k < 8,
        x < 8,
    ensures
        get_bit(v << x, k) == (k >= x && get_bit(v, (k - x) as u8)),
{
    assert(((v << x) >> k) & 1u8 == 1u8 <==> (k >= x && (v >> ((k - x) as u8)) & 1u8 == 1u8))
        by (bit_vector)
        requires
            k < 8,
            x < 8,
    ;
}

pub proof fn lemma_get_bit_shr(v: u8, x: u8, k: u8)
    requires
        k < 8,
        x < 8,
    ensures
        get_bit(v >> x, k) == (k + x < 8 && get_bit(v, (k + x) as u8)),
{
    assert(((v >> x) >> k) & 1u8 == 1u8 <==> (k + x < 8 && (v >> ((k + x) as u8)) & 1u8 == 1u8))
        by (bit_vector)
        requires
            k < 8,
            x < 8,
    ;
}

/// A value below `2^n` has no bit at or above position `n`.
pub proof fn lemma_get_bit_small(v: u8, n: u8, k: u8)
    requires
        n <= k < 8,
        v >> n == 0,
    ensures
        !get_bit(v, k),
{
    assert((v >> k) & 1u8 != 1u8) by (bit_vector)
        requires
            n <= k < 8,
            v >> n == 0,
    ;
}

/// The masked-out low bits of a byte are zero.
pub proof fn lemma_get_bit_mask(b: u8, u: u8, k: u8)
    requires
        u < 8,
        k < 8 - u,
        b & (0xffu8 >> u) == 0,
    ensures
        !get_bit(b, k),
{
    assert((b >> k) & 1u8 != 1u8) by (bit_vector)
        requires
            u < 8,
            k < 8 - u,
            b & (0xffu8 >> u) == 0,
    ;
}

/// A byte whose low `8 - u` bits are all clear satisfies the mask.
pub proof fn lemma_mask_from_bits(b: u8, u: u8)
    requires
        u < 8,
        forall|k: u8| k < 8 - u ==> !get_bit(b, k),
    ensures
        b & (0xffu8 >> u) == 0,
{
    let b0 = !get_bit(b, 0);
    let b1 = !get_bit(b, 1);
    let b2 = !get_bit(b, 2);
    let b3 = !get_bit(b, 3);
    let b4 = !get_bit(b, 4);
    let b5 = !get_bit(b, 5);
    let b6 = !get_bit(b, 6);
    let b7 = !get_bit(b, 7);
    assert(b & (0xffu8 >> u) == 0) by (bit_vector)
        requires
            u < 8,
            (0 < 8 - u ==> (b >> 0u8) & 1u8 != 1u8),
            (1 < 8 - u ==> (b >> 1u8) & 1u8 != 1u8),
            (2 < 8 - u ==> (b >> 2u8) & 1u8 != 1u8),
            (3 < 8 - u ==> (b >> 3u8) & 1u8 != 1u8),
            (4 < 8 - u ==> (b >> 4u8) & 1u8 != 1u8),
            (5 < 8 - u ==> (b >> 5u8) & 1u8 != 1u8),
            (6 < 8 - u ==> (b >> 6u8) & 1u8 != 1u8),
            (7 < 8 - u ==> (b >> 7u8) & 1u8 != 1u8),
    ;
}

pub proof fn lemma_bytes_bits_push(s: Seq<u8>, b: u8)
    ensures
        bytes_bits(s.push(b)) == bytes_bits(s) + byte_bits(b),
{
    assert(s.push(b).drop_last() =~= s);
}

pub proof fn lemma_bytes_bits_len(s: Seq<u8>)
    ensures
        bytes_bits(s).len() == 8 * s.len(),
    decreases s.len(),
{
    if s.len() > 0 {
        lemma_bytes_bits_len(s.drop_last());
    }
}

pub proof fn lemma_bytes_bits_concat(a: Seq<u8>, b: Seq<u8>)
    ensures
        bytes_bits(a + b) == bytes_bits(a) + bytes_bits(b),
    decreases b.len(),
{
    if b.len() == 0 {
        assert(a + b =~= a);
        assert(bytes_bits(b) =~= Seq::<bool>::empty());
        assert(bytes_bits(a) + bytes_bits(b) =~= bytes_bits(a));
    } else {
        lemma_bytes_bits_concat(a, b.drop_last());
        assert((a + b).drop_last() =~= a + b.drop_last());
        assert((a + b).last() == b.last());
        assert(bytes_bits(a) + bytes_bits(b.drop_last()) + byte_bits(b.last()) =~= bytes_bits(a)
            + (bytes_bits(b.drop_last()) + byte_bits(b.last())));
    }
}


/// Bit `k` of a byte sequence lies in byte `k / 8`, at position `k % 8`
/// from its most significant end.
pub proof fn lemma_bytes_bits_index(s: Seq<u8>, p: int, j: int)
    requires
        0 <= p < s.len(),
        0 <= j < 8,
    ensures
        bytes_bits(s).len() == 8 * s.len(),
        bytes_bits(s)[8 * p + j] == byte_bits(s[p])[j],
    decreases s.len(),
{
    lemma_bytes_bits_len(s);
    lemma_bytes_bits_len(s.drop_last());
    if p < s.len() - 1 {
        lemma_bytes_bits_index(s.drop_last(), p, j);
        assert(s.drop_last()[p] == s[p]);
    }
}

/// Two byte sequences of one length with the same bits are the same bytes.
pub proof fn lemma_bytes_bits_injective(x: Seq<u8>, y: Seq<u8>)
    requires
        x.len() == y.len(),
        bytes_bits(x) == bytes_bits(y),
    ensures
        x == y,
{
    assert forall|p: int| 0 <= p < x.len() implies x[p] == y[p] by {
        assert forall|j: int| 0 <= j < 8 implies byte_bits(x[p])[j] == byte_bits(y[p])[j] by {
            lemma_bytes_bits_index(x, p, j);
            lemma_bytes_bits_index(y, p, j);
        }
        assert(byte_bits(x[p]) =~= byte_bits(y[p]));
        lemma_bits_byte(x[p]);
        lemma_bits_byte(y[p]);
    }
    assert(x =~= y);
}

/// The number a weight contributes when its bit is set.
pub open spec fn bit_val(b: bool, w: nat) -> nat {
    if b {
        w
    } else {
        0
    }
}

/// The byte whose bits, most significant first, are the first eight of `s`.
pub open spec fn bits_byte(s: Seq<bool>) -> u8 {
    (bit_val(s[0], 128) + bit_val(s[1], 64) + bit_val(s[2], 32) + bit_val(s[3], 16) + bit_val(s[4], 8)
        + bit_val(s[5], 4) + bit_val(s[6], 2) + bit_val(s[7], 1)) as u8
}

/// Reading a byte back from its bits gives the byte.
pub proof fn lemma_bits_byte(b: u8)
    ensures
        bits_byte(byte_bits(b)) == b,
        forall|t: Seq<bool>| #[trigger] bits_byte(byte_bits(b) + t) == b,
        forall|t: Seq<bool>| (byte_bits(b) + t).take(8) == byte_bits(b),
{
    let s = byte_bits(b);
    assert(b as nat == bit_val(get_bit(b, 7), 128) + bit_val(get_bit(b, 6), 64) + bit_val(
        get_bit(b, 5),
        32,
    ) + bit_val(get_bit(b, 4), 16) + bit_val(get_bit(b, 3), 8) + bit_val(get_bit(b, 2), 4) + bit_val(
        get_bit(b, 1),
        2,
    ) + bit_val(get_bit(b, 0), 1)) by (bit_vector);
    assert forall|t: Seq<bool>| #[trigger] bits_byte(byte_bits(b) + t) == b by {
        let u = byte_bits(b) + t;
        assert(u[0] == s[0] && u[1] == s[1] && u[2] == s[2] && u[3] == s[3]);
        assert(u[4] == s[4] && u[5] == s[5] && u[6] == s[6] && u[7] == s[7]);
    }
    assert forall|t: Seq<bool>| (byte_bits(b) + t).take(8) == byte_bits(b) by {
        assert((byte_bits(b) + t).take(8) =~= byte_bits(b));
    }
}

/// The low seven bits and the rest of a machine word.
pub proof fn lemma_low7_usize(d: usize)
    ensures
        d & 127 == d % 128,
        d >> 7 == d / 128,
{
    assert(d & 127 == d % 128 && d >> 7 == d / 128) by (bit_vector);
}

/// The low seven bits and the rest of a 128-bit word.
pub proof fn lemma_low7_u128(d: u128)
    ensures
        d & 127 == d % 128,
        d >> 7 == d / 128,
{
    assert(d & 127 == d % 128 && d >> 7 == d / 128) by (bit_vector);
}

/// The high bit of a byte and its low seven bits.
pub proof fn lemma_high_bit(b: u8)
    ensures
        b < 128 ==> b | 128 == b + 128,
        b & 127 == b % 128,
        (b & 128 == 0) == (b < 128),
{
    assert((b < 128 ==> b | 128 == b + 128) && b & 127 == b % 128 && ((b & 128 == 0) == (b < 128)))
        by (bit_vector);
}

} // verus!
