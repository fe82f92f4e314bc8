use vstd::prelude::*;
use crate::flat::bits::{byte_bits, bytes_bits, lemma_bits_byte, lemma_bytes_bits_len};
use crate::flat::decode::decoder::{groups_read, pow128, word_fits, word_read};
use crate::flat::encode::encoder::{lemma_word_bytes_step, word_bytes};
use crate::flat::zigzag::{unzigzag, zigzag};

verus! {

/// Reading a word at the front of a stream gives back the number the
/// encoder wrote as that word, taking exactly its bytes.
pub proof fn lemma_word_roundtrip(c: nat, rest: Seq<bool>)
    ensures
        word_read(bytes_bits(word_bytes(c)) + rest) == Some((c, word_bytes(c).len())),
        groups_read(bytes_bits(word_bytes(c)) + rest) == word_bytes(c).len(),
        (bytes_bits(word_bytes(c)) + rest).skip((8 * word_bytes(c).len()) as int) == rest,
    decreases c,
{
    let bits = bytes_bits(word_bytes(c)) + rest;
    lemma_word_bytes_step(c);
    lemma_bytes_bits_len(word_bytes(c));
    let b = word_bytes(c)[0];
    lemma_bits_byte(b);
    if c / 128 == 0 {
        assert(word_bytes(c) =~= seq![b] + Seq::<u8>::empty());
        assert(bytes_bits(seq![b] + Seq::<u8>::empty()) == byte_bits(b) + bytes_bits(
            Seq::<u8>::empty(),
        ));
        assert(bytes_bits(Seq::<u8>::empty()) =~= Seq::<bool>::empty());
        assert(bits =~= byte_bits(b) + rest);
        assert(bits.take(8) == byte_bits(b));
        assert(bits.skip(8) =~= rest);
    } else {
        let tail = word_bytes(c / 128);
        assert(word_bytes(c) == seq![b] + tail);
        assert(bytes_bits(seq![b] + tail) == byte_bits(b) + bytes_bits(tail));
        lemma_word_roundtrip(c / 128, rest);
        lemma_bytes_bits_len(tail);
        assert(bits =~= byte_bits(b) + (bytes_bits(tail) + rest));
        assert(bits.take(8) == byte_bits(b));
        assert(bits.skip(8) =~= bytes_bits(tail) + rest);
        assert(bits.skip((8 * word_bytes(c).len()) as int) =~= (bytes_bits(tail) + rest).skip(
            (8 * tail.len()) as int,
        ));
    }
}

/// A number below `128^k` takes at most `k` bytes as a word.
pub proof fn lemma_word_bytes_len(c: nat, k: nat)
    requires
        k >= 1,
        c < pow128(k),
    ensures
        word_bytes(c).len() <= k,
    decreases k,
{
    lemma_word_bytes_step(c);
    if c / 128 != 0 {
        assert(k >= 2) by {
            if k == 1 {
                assert(pow128(1) == 128 * pow128(0));
            }
        }
        assert(c / 128 < pow128((k - 1) as nat)) by (nonlinear_arith)
            requires
                c < pow128(k),
                pow128(k) == 128 * pow128((k - 1) as nat),
        ;
        lemma_word_bytes_len(c / 128, (k - 1) as nat);
        assert(word_bytes(c) == seq![(c % 128 + 128) as u8] + word_bytes(c / 128));
    }
}

/// The word of a machine-sized number can be read back without any group
/// falling past the machine word.
pub proof fn lemma_word_fits_usize(c: nat, rest: Seq<bool>)
    requires
        c <= usize::MAX,
    ensures
        word_fits(bytes_bits(word_bytes(c)) + rest, usize::BITS as nat),
{
    lemma_word_roundtrip(c, rest);
    reveal_with_fuel(pow128, 11);
    if usize::BITS == 64 {
        assert(pow128(10) == 1180591620717411303424nat);
        lemma_word_bytes_len(c, 10);
    } else {
        assert(pow128(5) == 34359738368nat);
        lemma_word_bytes_len(c, 5);
    }
}

/// The word of a 128-bit number can be read back without any group falling
/// past 128 bits.
pub proof fn lemma_word_fits_u128(c: nat, rest: Seq<bool>)
    requires
        c <= u128::MAX,
    ensures
        word_fits(bytes_bits(word_bytes(c)) + rest, u128::BITS as nat),
{
    lemma_word_roundtrip(c, rest);
    reveal_with_fuel(pow128, 20);
    assert(pow128(19) == 10889035741470030830827987437816582766592nat);
    lemma_word_bytes_len(c, 19);
}

/// Reading an integer gives back the integer that the encoder wrote: the
/// bits the encoder's `integer` appends meet the decoder's `integer`
/// precondition, and the decoder reads exactly those bits and returns the
/// same integer.
pub proof fn law_integer_roundtrip(i: isize, rest: Seq<bool>)
    ensures
        word_fits(bytes_bits(word_bytes(zigzag(i as int))) + rest, usize::BITS as nat),
        word_read(bytes_bits(word_bytes(zigzag(i as int))) + rest) == Some(
            (zigzag(i as int), word_bytes(zigzag(i as int)).len()),
        ),
        unzigzag(zigzag(i as int) % (usize::MAX as nat + 1)) == i,
        (bytes_bits(word_bytes(zigzag(i as int))) + rest).skip(
            (8 * word_bytes(zigzag(i as int)).len()) as int,
        ) == rest,
{
    let z = zigzag(i as int);
    assert(z <= usize::MAX);
    lemma_word_roundtrip(z, rest);
    lemma_word_fits_usize(z, rest);
    vstd::arithmetic::div_mod::lemma_small_mod(z, usize::MAX as nat + 1);
}

/// Reading a 128-bit integer gives back the integer that the encoder wrote.
pub proof fn law_big_integer_roundtrip(i: i128, rest: Seq<bool>)
    ensures
        word_fits(bytes_bits(word_bytes(zigzag(i as int))) + rest, u128::BITS as nat),
        word_read(bytes_bits(word_bytes(zigzag(i as int))) + rest) == Some(
            (zigzag(i as int), word_bytes(zigzag(i as int)).len()),
        ),
        unzigzag(zigzag(i as int) % (u128::MAX as nat + 1)) == i,
        (bytes_bits(word_bytes(zigzag(i as int))) + rest).skip(
            (8 * word_bytes(zigzag(i as int)).len()) as int,
        ) == rest,
{
    let z = zigzag(i as int);
    lemma_word_roundtrip(z, rest);
    lemma_word_fits_u128(z, rest);
    vstd::arithmetic::div_mod::lemma_small_mod(z, u128::MAX as nat + 1);
}

} // verus!
