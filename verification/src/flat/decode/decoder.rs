use vstd::prelude::*;
use vstd::arithmetic::div_mod::{lemma_add_mod_noop, lemma_mul_mod_noop_right};
use crate::flat::bits::{
    bits_byte, byte_bits, bytes_bits, get_bit, lemma_bits_byte, lemma_bytes_bits_index,
    lemma_bytes_bits_len, lemma_get_bit_or, lemma_get_bit_shl, lemma_get_bit_shr, lemma_high_bit,
};
use crate::flat::decode::errors::Error;
use crate::flat::zigzag::{to_i128, to_isize, unzigzag};

verus! {

/// Reads values bit by bit from a byte buffer, each byte from its most
/// significant bit.
pub struct Decoder<'b> {
    pub buffer: &'b [u8],
    pub used_bits: i64,
    pub pos: usize,
}

/// `128` to the power `k`.
pub open spec fn pow128(k: nat) -> nat
    decreases k,
{
    if k == 0 {
        1
    } else {
        128 * pow128((k - 1) as nat)
    }
}

/// The number a word at the front of a bit stream stands for, and how many
/// bytes it takes; `None` when the stream ends inside the word.
pub open spec fn word_read(bits: Seq<bool>) -> Option<(nat, nat)>
    decreases bits.len(),
{
    if bits.len() < 8 {
        None
    } else {
        let b = bits_byte(bits.take(8));
        if b < 128 {
            Some((b as nat, 1nat))
        } else {
            match word_read(bits.skip(8)) {
                Some((v, n)) => Some((((b - 128) + 128 * v) as nat, n + 1)),
                None => None,
            }
        }
    }
}

/// How many bytes reading a word at the front of a bit stream takes from
/// it, the last one included, whether or not the word is complete.
pub open spec fn groups_read(bits: Seq<bool>) -> nat
    decreases bits.len(),
{
    if bits.len() < 8 {
        0
    } else if bits_byte(bits.take(8)) < 128 {
        1
    } else {
        1 + groups_read(bits.skip(8))
    }
}

/// A word at the front of the stream never places a group at or past bit
/// `bits` of the result.
pub open spec fn word_fits(stream: Seq<bool>, bits: nat) -> bool {
    7 * groups_read(stream) < bits + 7
}

impl<'b> Decoder<'b> {
    /// The decoder's position is inside its buffer.
    pub open spec fn wf(&self) -> bool {
        &&& 0 <= self.used_bits < 8
        &&& self.pos <= self.buffer@.len()
        &&& self.pos == self.buffer@.len() ==> self.used_bits == 0
    }

    /// The bits not read yet.
    pub open spec fn remaining(&self) -> Seq<bool> {
        bytes_bits(self.buffer@).skip(8 * self.pos + self.used_bits)
    }

    /// A decoder at the start of a buffer.
    pub fn new(bytes: &'b [u8]) -> (d: Decoder<'b>)
        ensures
            d.wf(),
            d.buffer@ == bytes@,
            d.remaining() == bytes_bits(bytes@),
    {
        let d = Decoder { buffer: bytes, pos: 0, used_bits: 0 };
        assert(d.remaining() =~= bytes_bits(bytes@));
        d
    }

    /// Reads the next eight bits as a byte.
    pub(crate) fn read_byte(&mut self) -> (r: Result<u8, Error>)
        requires
            old(self).wf(),
        ensures
            final(self).wf(),
            final(self).buffer == old(self).buffer,
            match r {
                Ok(b) => {
                    &&& old(self).remaining().len() >= 8
                    &&& byte_bits(b) == old(self).remaining().take(8)
                    &&& final(self).remaining() == old(self).remaining().skip(8)
                },
                Err(e) => {
                    &&& old(self).remaining().len() < 8
                    &&& e is EndOfBuffer
                    &&& *final(self) == *old(self)
                },
            },
    {
        let ghost rem = self.remaining();
        let ghost buf = self.buffer@;
        proof {
            lemma_bytes_bits_len(buf);
        }
        let len = self.buffer.len();
        if self.pos >= len {
            return Err(Error::EndOfBuffer);
        }
        let ghost p = self.pos as int;
        let ghost u = self.used_bits as int;
        if self.used_bits == 0 {
            let b = self.buffer[self.pos];
            self.pos = self.pos + 1;
            proof {
                assert forall|j: int| 0 <= j < 8 implies #[trigger] byte_bits(b)[j] == rem.take(8)[j] by {
                    lemma_bytes_bits_index(buf, p, j);
                }
                assert(byte_bits(b) =~= rem.take(8));
                assert(self.remaining() =~= rem.skip(8));
            }
            Ok(b)
        } else {
            if self.pos + 1 >= len {
                return Err(Error::EndOfBuffer);
            }
            let ub = self.used_bits as u8;
            let x = self.buffer[self.pos];
            let y = self.buffer[self.pos + 1];
            let b = (x << ub) | (y >> (8 - ub));
            self.pos = self.pos + 1;
            proof {
                assert forall|j: int| 0 <= j < 8 implies #[trigger] byte_bits(b)[j] == rem.take(8)[j] by {
                    let k = (7 - j) as u8;
                    lemma_get_bit_or(x << ub, y >> ((8 - ub) as u8), k);
                    lemma_get_bit_shl(x, ub, k);
                    lemma_get_bit_shr(y, (8 - ub) as u8, k);
                    if u + j < 8 {
                        lemma_bytes_bits_index(buf, p, u + j);
                        assert(8 * p + u + j == 8 * p + (u + j));
                    } else {
                        lemma_bytes_bits_index(buf, p + 1, u + j - 8);
                        assert(8 * p + u + j == 8 * (p + 1) + (u + j - 8));
                    }
                }
                assert(byte_bits(b) =~= rem.take(8));
                assert(self.remaining() =~= rem.skip(8));
            }
            Ok(b)
        }
    }
}


/// Adding two residues and wrapping once gives the residue of the sum.
proof fn lemma_wrap_add(a: nat, c: nat, m: nat)
    requires
        a < m,
        c < m,
    ensures
        (if a + c >= m {
            (a + c - m) as nat
        } else {
            a + c
        }) == (a + c) % m,
{
    if a + c >= m {
        let b = (a + c - m) as nat;
        vstd::arithmetic::div_mod::lemma_mod_add_multiples_vanish(b as int, m as int);
        vstd::arithmetic::div_mod::lemma_small_mod(b, m);
    } else {
        vstd::arithmetic::div_mod::lemma_small_mod(a + c, m);
    }
}

/// One group of a word: the running value and the weight of the next group
/// move on, and stay residues of the exact ones.
proof fn lemma_word_step(partial: nat, p: nat, w7: nat, acc: nat, mult: nat, m: nat)
    requires
        m > 0,
        acc == partial % m,
        mult == p % m,
        w7 < 128,
        partial < p,
    ensures
        (acc + (w7 * mult) % m) % m == (partial + p * w7) % m,
        (mult * 128) % m == (p * 128) % m,
        partial + p * w7 < p * 128,
        p * 128 == pow128_step(p),
{
    lemma_mul_mod_noop_right(w7 as int, p as int, m as int);
    assert(w7 * p == p * w7) by (nonlinear_arith);
    lemma_add_mod_noop(partial as int, (p * w7) as int, m as int);
    vstd::arithmetic::div_mod::lemma_mul_mod_noop_left(p as int, 128, m as int);
    assert(partial + p * w7 < p * 128) by (nonlinear_arith)
        requires
            partial < p,
            w7 < 128,
    ;
}

/// The weight of the group after one of weight `p`.
pub open spec fn pow128_step(p: nat) -> nat {
    p * 128
}

/// Reading the word after a continued group: the value read so far grows
/// by the group, and the rest is weighted past it.
proof fn lemma_word_combine(partial: nat, p: nat, w7: nat, v: nat)
    ensures
        partial + p * (w7 + 128 * v) == (partial + p * w7) + (p * 128) * v,
{
    assert(p * (w7 + 128 * v) == p * w7 + (p * 128) * v) by (nonlinear_arith);
}

impl<'b> Decoder<'b> {
    /// Reads a word: bytes whose low seven bits are groups of the number,
    /// least significant first, up to the first byte with a clear high bit.
    /// The number is kept modulo `2^usize::BITS`.
    #[verifier::rlimit(50)]
    pub(crate) fn word(&mut self) -> (r: Result<usize, Error>)
        requires
            old(self).wf(),
            word_fits(old(self).remaining(), usize::BITS as nat),
        ensures
            final(self).wf(),
            final(self).buffer == old(self).buffer,
            match r {
                Ok(x) => word_read(old(self).remaining()) matches Some((v, n)) && x == v % (
                usize::MAX as nat + 1) && final(self).remaining() == old(self).remaining().skip(
                    (8 * n) as int,
                ),
                Err(e) => {
                    &&& word_read(old(self).remaining()) is None
                    &&& e is EndOfBuffer
                    &&& final(self).remaining() == old(self).remaining().skip(
                        (8 * (old(self).remaining().len() / 8)) as int,
                    )
                },
            },
    {
        let ghost rem0 = self.remaining();
        let ghost m: nat = usize::MAX as nat + 1;
        let mut acc: usize = 0;
        let mut mult: usize = 1;
        let ghost mut k: nat = 0;
        let ghost mut partial: nat = 0;
        proof {
            assert(rem0.skip(0) =~= rem0);
            vstd::arithmetic::div_mod::lemma_small_mod(0, m);
            vstd::arithmetic::div_mod::lemma_small_mod(1, m);
        }
        loop
            invariant
                self.wf(),
                self.buffer == old(self).buffer,
                rem0 == old(self).remaining(),
                m == usize::MAX as nat + 1,
                8 * k <= rem0.len(),
                self.remaining() == rem0.skip((8 * k) as int),
                acc == partial % m,
                mult == pow128(k) % m,
                partial < pow128(k),
                word_read(rem0) == (match word_read(self.remaining()) {
                    Some((v, n)) => Some(((partial + pow128(k) * v) as nat, n + k)),
                    None => None,
                }),
            decreases self.remaining().len(),
        {
            let ghost remk = self.remaining();
            let b = match self.read_byte() {
                Ok(b) => b,
                Err(e) => {
                    proof {
                        assert(rem0.len() / 8 == k);
                    }
                    return Err(e);
                },
            };
            proof {
                lemma_bits_byte(b);
                lemma_high_bit(b);
                assert(bits_byte(remk.take(8)) == b);
                assert(self.remaining() =~= rem0.skip((8 * (k + 1)) as int));
            }
            let w7 = (b & 127) as usize;
            let term = w7.wrapping_mul(mult);
            proof {
                lemma_word_step(partial, pow128(k), w7 as nat, acc as nat, mult as nat, m);
                lemma_wrap_add(acc as nat, term as nat, m);
            }
            acc = acc.wrapping_add(term);
            if b & 128 == 0 {
                return Ok(acc);
            }
            mult = mult.wrapping_mul(128);
            proof {
                let p = pow128(k);
                match word_read(remk.skip(8)) {
                    Some((v, n)) => {
                        lemma_word_combine(partial, p, w7 as nat, v);
                    },
                    None => {},
                }
                partial = (partial + p * w7) as nat;
                k = k + 1;
            }
        }
    }

    /// Reads a word: bytes whose low seven bits are groups of the number,
    /// least significant first, up to the first byte with a clear high bit.
    /// The number is kept modulo `2^u128::BITS`.
    #[verifier::rlimit(50)]
    fn big_word(&mut self) -> (r: Result<u128, Error>)
        requires
            old(self).wf(),
            word_fits(old(self).remaining(), u128::BITS as nat),
        ensures
            final(self).wf(),
            final(self).buffer == old(self).buffer,
            match r {
                Ok(x) => word_read(old(self).remaining()) matches Some((v, n)) && x == v % (
                u128::MAX as nat + 1) && final(self).remaining() == old(self).remaining().skip(
                    (8 * n) as int,
                ),
                Err(e) => {
                    &&& word_read(old(self).remaining()) is None
                    &&& e is EndOfBuffer
                    &&& final(self).remaining() == old(self).remaining().skip(
                        (8 * (old(self).remaining().len() / 8)) as int,
                    )
                },
            },
    {
        let ghost rem0 = self.remaining();
        let ghost m: nat = u128::MAX as nat + 1;
        let mut acc: u128 = 0;
        let mut mult: u128 = 1;
        let ghost mut k: nat = 0;
        let ghost mut partial: nat = 0;
        proof {
            assert(rem0.skip(0) =~= rem0);
            vstd::arithmetic::div_mod::lemma_small_mod(0, m);
            vstd::arithmetic::div_mod::lemma_small_mod(1, m);
        }
        loop
            invariant
                self.wf(),
                self.buffer == old(self).buffer,
                rem0 == old(self).remaining(),
                m == u128::MAX as nat + 1,
                8 * k <= rem0.len(),
                self.remaining() == rem0.skip((8 * k) as int),
                acc == partial % m,
                mult == pow128(k) % m,
                partial < pow128(k),
                word_read(rem0) == (match word_read(self.remaining()) {
                    Some((v, n)) => Some(((partial + pow128(k) * v) as nat, n + k)),
                    None => None,
                }),
            decreases self.remaining().len(),
        {
            let ghost remk = self.remaining();
            let b = match self.read_byte() {
                Ok(b) => b,
                Err(e) => {
                    proof {
                        assert(rem0.len() / 8 == k);
                    }
                    return Err(e);
                },
            };
            proof {
                lemma_bits_byte(b);
                lemma_high_bit(b);
                assert(bits_byte(remk.take(8)) == b);
                assert(self.remaining() =~= rem0.skip((8 * (k + 1)) as int));
            }
            let w7 = (b & 127) as u128;
            let term = w7.wrapping_mul(mult);
            proof {
                lemma_word_step(partial, pow128(k), w7 as nat, acc as nat, mult as nat, m);
                lemma_wrap_add(acc as nat, term as nat, m);
            }
            acc = acc.wrapping_add(term);
            if b & 128 == 0 {
                return Ok(acc);
            }
            mult = mult.wrapping_mul(128);
            proof {
                let p = pow128(k);
                match word_read(remk.skip(8)) {
                    Some((v, n)) => {
                        lemma_word_combine(partial, p, w7 as nat, v);
                    },
                    None => {},
                }
                partial = (partial + p * w7) as nat;
                k = k + 1;
            }
        }
    }


    /// Reads a signed machine integer: a word holding its zigzag code.
    pub fn integer(&mut self) -> (r: Result<isize, Error>)
        requires
            old(self).wf(),
            word_fits(old(self).remaining(), usize::BITS as nat),
        ensures
            final(self).wf(),
            final(self).buffer == old(self).buffer,
            match r {
                Ok(i) => word_read(old(self).remaining()) matches Some((v, n)) && i == unzigzag(
                    v % (usize::MAX as nat + 1),
                ) && final(self).remaining() == old(self).remaining().skip((8 * n) as int),
                Err(e) => {
                    &&& word_read(old(self).remaining()) is None
                    &&& e is EndOfBuffer
                    &&& final(self).remaining() == old(self).remaining().skip(
                        (8 * (old(self).remaining().len() / 8)) as int,
                    )
                },
            },
    {
        match self.word() {
            Ok(w) => Ok(to_isize(w)),
            Err(e) => Err(e),
        }
    }

    /// Reads a signed 128-bit integer: a word holding its zigzag code.
    pub fn big_integer(&mut self) -> (r: Result<i128, Error>)
        requires
            old(self).wf(),
            word_fits(old(self).remaining(), u128::BITS as nat),
        ensures
            final(self).wf(),
            final(self).buffer == old(self).buffer,
            match r {
                Ok(i) => word_read(old(self).remaining()) matches Some((v, n)) && i == unzigzag(
                    v % (u128::MAX as nat + 1),
                ) && final(self).remaining() == old(self).remaining().skip((8 * n) as int),
                Err(e) => {
                    &&& word_read(old(self).remaining()) is None
                    &&& e is EndOfBuffer
                    &&& final(self).remaining() == old(self).remaining().skip(
                        (8 * (old(self).remaining().len() / 8)) as int,
                    )
                },
            },
    {
        match self.big_word() {
            Ok(w) => Ok(to_i128(w)),
            Err(e) => Err(e),
        }
    }
}



/// A value that can be read back from the flat format.
pub trait Decode<'b>: Sized {
    /// Whether reading a value at the front of the bits stays within what
    /// the machine's integers hold.
    spec fn decodable(bits: Seq<bool>) -> bool;

    /// The value at the front of the bits and how many bits it takes;
    /// `None` when the bits end first.
    spec fn flat_read(bits: Seq<bool>) -> Option<(Self, nat)>;

    /// Reads a value.
    fn decode(d: &mut Decoder<'b>) -> (r: Result<Self, Error>)
        requires
            old(d).wf(),
            Self::decodable(old(d).remaining()),
        ensures
            final(d).wf(),
            final(d).buffer == old(d).buffer,
            r is Ok <==> Self::flat_read(old(d).remaining()) is Some,
            r matches Ok(v) ==> Self::flat_read(old(d).remaining()) matches Some((w, n)) && w == v
                && final(d).remaining() == old(d).remaining().skip(n as int),
    ;
}

impl<'b> Decoder<'b> {
    /// Reads a value by its own decoding.
    pub fn decode<T: Decode<'b>>(&mut self) -> (r: Result<T, Error>)
        requires
            old(self).wf(),
            T::decodable(old(self).remaining()),
        ensures
            final(self).wf(),
            final(self).buffer == old(self).buffer,
            r is Ok <==> T::flat_read(old(self).remaining()) is Some,
            r matches Ok(v) ==> T::flat_read(old(self).remaining()) matches Some((w, n)) && w == v
                && final(self).remaining() == old(self).remaining().skip(n as int),
    {
        T::decode(self)
    }
}

impl<'b> Decode<'b> for u8 {
    open spec fn decodable(bits: Seq<bool>) -> bool {
        true
    }

    open spec fn flat_read(bits: Seq<bool>) -> Option<(u8, nat)> {
        if bits.len() < 8 {
            None
        } else {
            Some((bits_byte(bits.take(8)), 8))
        }
    }

    fn decode(d: &mut Decoder<'b>) -> (r: Result<u8, Error>)
    {
        let r = d.read_byte();
        proof {
            if let Ok(b) = r {
                lemma_bits_byte(b);
            }
        }
        r
    }
}

impl<'b> Decode<'b> for usize {
    open spec fn decodable(bits: Seq<bool>) -> bool {
        word_fits(bits, usize::BITS as nat)
    }

    open spec fn flat_read(bits: Seq<bool>) -> Option<(usize, nat)> {
        match word_read(bits) {
            Some((v, n)) => Some(((v % (usize::MAX as nat + 1)) as usize, 8 * n)),
            None => None,
        }
    }

    fn decode(d: &mut Decoder<'b>) -> (r: Result<usize, Error>)
    {
        d.word()
    }
}

impl<'b> Decode<'b> for isize {
    open spec fn decodable(bits: Seq<bool>) -> bool {
        word_fits(bits, usize::BITS as nat)
    }

    open spec fn flat_read(bits: Seq<bool>) -> Option<(isize, nat)> {
        match word_read(bits) {
            Some((v, n)) => Some((unzigzag(v % (usize::MAX as nat + 1)) as isize, 8 * n)),
            None => None,
        }
    }

    fn decode(d: &mut Decoder<'b>) -> (r: Result<isize, Error>)
    {
        d.integer()
    }
}

impl<'b> Decode<'b> for i128 {
    open spec fn decodable(bits: Seq<bool>) -> bool {
        word_fits(bits, u128::BITS as nat)
    }

    open spec fn flat_read(bits: Seq<bool>) -> Option<(i128, nat)> {
        match word_read(bits) {
            Some((v, n)) => Some((unzigzag(v % (u128::MAX as nat + 1)) as i128, 8 * n)),
            None => None,
        }
    }

    fn decode(d: &mut Decoder<'b>) -> (r: Result<i128, Error>)
    {
        d.big_integer()
    }
}

} // verus!
