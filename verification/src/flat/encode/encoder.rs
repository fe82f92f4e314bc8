use vstd::prelude::*;
use vstd::string::StringSliceAdditionalSpecFns;
use crate::flat::bits::{
    byte_bits, bytes_bits, lemma_bytes_bits_injective, get_bit, lemma_bytes_bits_concat, lemma_bytes_bits_len,
    lemma_bytes_bits_push, lemma_get_bit_mask, lemma_get_bit_or, lemma_get_bit_shl, lemma_get_bit_shr,
    lemma_get_bit_small, lemma_mask_from_bits, val_bits, zeros, lemma_low7_usize, lemma_low7_u128,
    lemma_high_bit,
};
use crate::flat::encode::errors::Error;
use crate::flat::zigzag::{to_u128, to_usize, zigzag};

verus! {

/// Writes values bit by bit into a byte buffer. Bits fill each byte from its
/// most significant end; a byte reaches the buffer once all eight bits are set.
pub struct Encoder {
    pub buffer: Vec<u8>,
    pub used_bits: i64,
    pub current_byte: u8,
}

impl Encoder {
    /// The encoder's state is consistent: fewer than eight bits are pending and
    /// the bits of the pending byte past them are clear.
    pub open spec fn wf(&self) -> bool {
        &&& 0 <= self.used_bits < 8
        &&& self.current_byte & (0xffu8 >> (self.used_bits as u8)) == 0
    }

    /// The bits written since the last full byte reached the buffer.
    pub open spec fn pending(&self) -> Seq<bool> {
        byte_bits(self.current_byte).take(self.used_bits as int)
    }

    /// The full bytes written so far: the buffer.
    pub open spec fn written(&self) -> Seq<u8> {
        self.buffer@
    }

    /// Every bit written so far, in order.
    pub open spec fn stream(&self) -> Seq<bool> {
        bytes_bits(self.buffer@) + self.pending()
    }

    /// Fewer than eight bits are ever pending, the buffer holds the whole
    /// bytes of the stream, and a stream of whole bytes is all in the buffer.
    pub proof fn law_pending_below_a_byte(&self)
        requires
            self.wf(),
        ensures
            self.pending().len() < 8,
            self.stream().len() == 8 * self.written().len() + self.pending().len(),
            self.stream() == bytes_bits(self.written()) + self.pending(),
            self.stream().len() % 8 == 0 ==> self.pending() == Seq::<bool>::empty() && self.stream() == bytes_bits(
                self.written(),
            ),
    {
        lemma_bytes_bits_len(self.buffer@);
        if self.stream().len() % 8 == 0 {
            assert(self.pending() =~= Seq::<bool>::empty());
            assert(self.stream() =~= bytes_bits(self.written()));
        }
    }

    /// What has been written fixes the encoder: two encoders that have
    /// written the same bits hold the same buffer and the same pending bits.
    pub proof fn law_stream_fixes_buffer(a: &Encoder, b: &Encoder)
        requires
            a.wf(),
            b.wf(),
            a.stream() == b.stream(),
        ensures
            a.buffer@ == b.buffer@,
            a.pending() == b.pending(),
            a.used_bits == b.used_bits,
    {
        lemma_bytes_bits_len(a.buffer@);
        lemma_bytes_bits_len(b.buffer@);
        let la = a.buffer@.len();
        let lb = b.buffer@.len();
        let ua = a.used_bits;
        let ub = b.used_bits;
        assert(a.pending().len() == ua);
        assert(b.pending().len() == ub);
        assert(a.stream().len() == 8 * la + ua);
        assert(b.stream().len() == 8 * lb + ub);
        assert(la == lb) by (nonlinear_arith)
            requires
                8 * la + ua == 8 * lb + ub,
                0 <= ua < 8,
                0 <= ub < 8,
        ;
        let s = a.stream();
        assert(bytes_bits(a.buffer@) =~= s.take(8 * la as int));
        assert(bytes_bits(b.buffer@) =~= b.stream().take(8 * lb as int));
        lemma_bytes_bits_injective(a.buffer@, b.buffer@);
        assert(a.pending() =~= s.skip(8 * la as int));
        assert(b.pending() =~= b.stream().skip(8 * lb as int));
    }

    /// An encoder with an empty buffer and no pending bit.
    pub fn new() -> (e: Encoder)
        ensures
            e.wf(),
            e.written() == Seq::<u8>::empty(),
            e.pending() == Seq::<bool>::empty(),
            e.stream() == Seq::<bool>::empty(),
    {
        let e = Encoder { buffer: Vec::new(), used_bits: 0, current_byte: 0 };
        proof {
            assert(0u8 & (0xffu8 >> 0u8) == 0) by (bit_vector);
            assert(e.pending() =~= Seq::<bool>::empty());
            assert(bytes_bits(e.buffer@) =~= Seq::<bool>::empty());
            assert(e.stream() =~= Seq::<bool>::empty());
        }
        e
    }

    /// Moves the pending byte to the buffer and starts a fresh one.
    fn next_word(&mut self)
        ensures
            final(self).buffer@ == old(self).buffer@.push(old(self).current_byte),
            final(self).current_byte == 0,
            final(self).used_bits == 0,
            final(self).wf(),
            final(self).pending() == Seq::<bool>::empty(),
    {
        self.buffer.push(self.current_byte);
        self.current_byte = 0;
        self.used_bits = 0;
        proof {
            assert(0u8 & (0xffu8 >> 0u8) == 0) by (bit_vector);
            assert(self.pending() =~= Seq::<bool>::empty());
        }
    }

    /// Writes a single clear bit.
    fn zero(&mut self)
        requires
            old(self).wf(),
        ensures
            final(self).wf(),
            final(self).stream() == old(self).stream().push(false),
    {
        let ghost cur = self.current_byte;
        let ghost u = self.used_bits as u8;
        let ghost old_bits = self.stream();
        proof {
            lemma_get_bit_mask(cur, u, (7 - u) as u8);
        }
        if self.used_bits == 7 {
            self.next_word();
            proof {
                lemma_bytes_bits_push(old(self).buffer@, cur);
                assert(byte_bits(cur) =~= byte_bits(cur).take(7).push(false));
                assert(self.stream() =~= old_bits.push(false));
            }
        } else {
            self.used_bits = self.used_bits + 1;
            proof {
                let u1 = (u + 1) as u8;
                assert(cur & (0xffu8 >> u1) == 0) by (bit_vector)
                    requires
                        u < 7,
                        u1 == u + 1,
                        cur & (0xffu8 >> u) == 0,
                ;
                assert(byte_bits(cur).take(u1 as int) =~= byte_bits(cur).take(u as int).push(false));
                assert(self.stream() =~= old_bits.push(false));
            }
        }
    }

    /// Writes a single set bit.
    fn one(&mut self)
        requires
            old(self).wf(),
        ensures
            final(self).wf(),
            final(self).stream() == old(self).stream().push(true),
    {
        let ghost cur = self.current_byte;
        let ghost u = self.used_bits as u8;
        let ghost old_bits = self.stream();
        let ghost nb = (cur | (128u8 >> u)) as u8;
        proof {
            assert forall|i: int| 0 <= i < 8 implies byte_bits(nb)[i] == (if i == u {
                true
            } else {
                byte_bits(cur)[i]
            }) by {
                let k = (7 - i) as u8;
                lemma_get_bit_or(cur, 128u8 >> u, k);
                assert(((128u8 >> u) >> k) & 1u8 == 1u8 <==> k == 7 - u) by (bit_vector)
                    requires
                        u < 8,
                        k < 8,
                ;
            }
        }
        if self.used_bits == 7 {
            self.current_byte = self.current_byte | 1;
            proof {
                assert(128u8 >> 7u8 == 1u8) by (bit_vector);
                lemma_get_bit_mask(cur, u, 0);
            }
            self.next_word();
            proof {
                lemma_bytes_bits_push(old(self).buffer@, nb);
                assert(byte_bits(nb) =~= byte_bits(cur).take(7).push(true));
                assert(self.stream() =~= old_bits.push(true));
            }
        } else {
            self.current_byte = self.current_byte | (128u8 >> (self.used_bits as u8));
            self.used_bits = self.used_bits + 1;
            proof {
                let u1 = (u + 1) as u8;
                assert(nb & (0xffu8 >> u1) == 0) by (bit_vector)
                    requires
                        u < 7,
                        u1 == u + 1,
                        cur & (0xffu8 >> u) == 0,
                        nb == cur | (128u8 >> u),
                ;
                assert(byte_bits(nb).take(u1 as int) =~= byte_bits(cur).take(u as int).push(true));
                assert(self.stream() =~= old_bits.push(true));
            }
        }
    }

    /// Writes one bit: set for `true`, clear for `false`.
    pub fn bool(&mut self, x: bool) -> (r: &mut Self)
        requires
            old(self).wf(),
        ensures
            r.wf(),
            r.stream() == old(self).stream().push(x),
            *final(self) == *final(r),
    {
        if x {
            self.one();
        } else {
            self.zero();
        }
        self
    }

    /// Writes the `num_bits` low bits of `val`, most significant first.
    pub fn bits(&mut self, num_bits: i64, val: u8) -> (r: &mut Self)
        requires
            old(self).wf(),
            1 <= num_bits <= 8,
            fits_bits(num_bits, val),
        ensures
            r.wf(),
            r.stream() == old(self).stream() + val_bits(val, num_bits as nat),
            *final(self) == *final(r),
    {
        let ghost old_bits = self.stream();
        let ghost n = num_bits as u8;
        proof {
            if num_bits <= 2 {
                assert(val_bits(0, 1) =~= seq![false]) by {
                    assert(!get_bit(0u8, 0u8)) by (bit_vector);
                }
                assert(val_bits(1, 1) =~= seq![true]) by {
                    assert(get_bit(1u8, 0u8)) by (bit_vector);
                }
                assert(val_bits(0, 2) =~= seq![false, false]) by {
                    assert(!get_bit(0u8, 0u8) && !get_bit(0u8, 1u8)) by (bit_vector);
                }
                assert(val_bits(1, 2) =~= seq![false, true]) by {
                    assert(get_bit(1u8, 0u8) && !get_bit(1u8, 1u8)) by (bit_vector);
                }
                assert(val_bits(2, 2) =~= seq![true, false]) by {
                    assert(!get_bit(2u8, 0u8) && get_bit(2u8, 1u8)) by (bit_vector);
                }
                assert(val_bits(3, 2) =~= seq![true, true]) by {
                    assert(get_bit(3u8, 0u8) && get_bit(3u8, 1u8)) by (bit_vector);
                }
            }
        }
        match (num_bits, val) {
            (1, 0) => self.zero(),
            (1, 1) => self.one(),
            (2, 0) => {
                self.zero();
                self.zero();
                assert(self.stream() =~= old_bits + seq![false, false]);
            },
            (2, 1) => {
                self.zero();
                self.one();
                assert(self.stream() =~= old_bits + seq![false, true]);
            },
            (2, 2) => {
                self.one();
                self.zero();
                assert(self.stream() =~= old_bits + seq![true, false]);
            },
            (2, 3) => {
                self.one();
                self.one();
                assert(self.stream() =~= old_bits + seq![true, true]);
            },
            (_, _) => {
                let ghost cur = self.current_byte;
                let ghost u = self.used_bits as u8;
                self.used_bits = self.used_bits + num_bits;
                let unused_bits = 8 - self.used_bits;
                match unused_bits {
                    x if x > 0 => {
                        self.current_byte = self.current_byte | (val << (x as u8));
                        proof {
                            lemma_bits_fit(cur, u, n, val, x as u8);
                            assert(self.stream() =~= old_bits + val_bits(val, num_bits as nat));
                        }
                    },
                    x if x == 0 => {
                        self.current_byte = self.current_byte | val;
                        self.next_word();
                        proof {
                            lemma_bits_exact(cur, u, n, val);
                            lemma_bytes_bits_push(old(self).buffer@, (cur | val) as u8);
                            assert(self.stream() =~= old_bits + val_bits(val, num_bits as nat));
                        }
                    },
                    x => {
                        let used = -x;
                        self.current_byte = self.current_byte | (val >> (used as u8));
                        let ghost b1 = self.current_byte;
                        self.next_word();
                        self.current_byte = val << ((8 - used) as u8);
                        self.used_bits = used;
                        proof {
                            lemma_bits_spill(cur, u, n, val, used as u8);
                            lemma_bytes_bits_push(old(self).buffer@, b1);
                            assert(self.current_byte == val << ((8 - (used as u8)) as u8));
                            assert(self.pending() == byte_bits(val << ((8 - (used as u8)) as u8)).take(
                                used as int,
                            ));
                            assert(bytes_bits(self.buffer@) == bytes_bits(old(self).buffer@)
                                + byte_bits(b1));
                            assert(b1 == cur | (val >> (used as u8)));
                            assert(old_bits == bytes_bits(old(self).buffer@) + byte_bits(cur).take(
                                u as int,
                            ));
                            assert(val_bits(val, n as nat) == val_bits(val, num_bits as nat));
                            let ghost a = bytes_bits(old(self).buffer@);
                            let ghost bc = byte_bits(b1) + self.pending();
                            assert(bc == byte_bits(cur).take(u as int) + val_bits(val, n as nat));
                            assert(self.stream() =~= a + bc);
                            assert(old_bits + val_bits(val, n as nat) =~= a + bc);
                            assert(self.stream() =~= old_bits + val_bits(val, num_bits as nat));
                        }
                    },
                }
            },
        }
        self
    }

    /// Pads the pending byte with clear bits and a final set bit, and moves
    /// it to the buffer: the encoder is then on a byte boundary.
    pub(crate) fn filler(&mut self) -> (r: &mut Self)
        requires
            old(self).wf(),
        ensures
            r.wf(),
            r.stream() == old(self).stream() + filler_bits(old(self).pending().len()),
            r.pending() == Seq::<bool>::empty(),
            r.written() == old(self).written().push(r.written().last()),
            *final(self) == *final(r),
    {
        let ghost cur = self.current_byte;
        let ghost u = self.used_bits as u8;
        let ghost old_bits = self.stream();
        self.current_byte = self.current_byte | 1;
        let ghost nb = self.current_byte;
        self.next_word();
        proof {
            assert forall|i: int| 0 <= i < 8 implies #[trigger] byte_bits(nb)[i] == (byte_bits(
                cur,
            ).take(u as int) + filler_bits((8 - (8 - u)) as nat))[i] by {
                let k = (7 - i) as u8;
                lemma_get_bit_or(cur, 1u8, k);
                assert(get_bit(1u8, k) <==> k == 0) by (bit_vector)
                    requires
                        k < 8,
                ;
                if i >= u {
                    lemma_get_bit_mask(cur, u, k);
                }
            }
            assert(byte_bits(nb) =~= byte_bits(cur).take(u as int) + filler_bits(u as nat));
            lemma_bytes_bits_push(old(self).buffer@, nb);
            assert(self.stream() =~= old_bits + filler_bits(u as nat));
        }
        self
    }

    /// Writes a byte; on a byte boundary it goes to the buffer at once.
    pub fn u8(&mut self, x: u8) -> (r: Result<&mut Self, Error>)
        requires
            old(self).wf(),
        ensures
            r matches Ok(e) && e.wf() && e.stream() == old(self).stream() + byte_bits(x)
                && *final(self) == *final(e),
    {
        if self.used_bits == 0 {
            let ghost old_bits = self.stream();
            proof {
                assert(self.pending() =~= Seq::<bool>::empty());
                assert(old_bits =~= bytes_bits(self.buffer@));
            }
            self.current_byte = x;
            self.next_word();
            proof {
                lemma_bytes_bits_push(old(self).buffer@, x);
                assert(self.stream() =~= old_bits + byte_bits(x));
            }
        } else {
            self.byte_unaligned(x);
        }
        Ok(self)
    }

    /// Writes a byte off a byte boundary: its high bits complete the pending
    /// byte, its low bits start the next one.
    fn byte_unaligned(&mut self, x: u8)
        requires
            old(self).wf(),
            old(self).used_bits != 0,
        ensures
            final(self).wf(),
            final(self).stream() == old(self).stream() + byte_bits(x),
    {
        let ghost cur = self.current_byte;
        let ghost u = self.used_bits as u8;
        let ghost old_bits = self.stream();
        let x_shift = self.current_byte | (x >> (self.used_bits as u8));
        self.buffer.push(x_shift);
        self.current_byte = x << ((8 - self.used_bits) as u8);
        proof {
            lemma_bits_spill(cur, u, 8, x, u);
            lemma_bytes_bits_push(old(self).buffer@, x_shift);
            assert(x_shift == cur | (x >> u));
            assert(self.current_byte == x << ((8 - u) as u8));
            assert(self.used_bits == u);
            assert(self.pending() == byte_bits(x << ((8 - u) as u8)).take(u as int));
            assert(bytes_bits(self.buffer@) == bytes_bits(old(self).buffer@) + byte_bits(x_shift));
            assert(old_bits == bytes_bits(old(self).buffer@) + byte_bits(cur).take(u as int));
            assert(byte_bits(x_shift) + self.pending() == byte_bits(cur).take(u as int) + val_bits(
                x,
                8,
            ));
            let bb = bytes_bits(old(self).buffer@);
            let p = self.pending();
            assert(self.stream() == bytes_bits(self.buffer@) + p);
            assert(bytes_bits(self.buffer@) + p =~= bb + (byte_bits(x_shift) + p));
            assert(old_bits + val_bits(x, 8) =~= bb + (byte_bits(cur).take(u as int) + val_bits(
                x,
                8,
            )));
            assert(self.stream() =~= old_bits + val_bits(x, 8));
        }
    }

    /// Writes the blocks of a byte array straight to the buffer.
    fn write_blk(&mut self, arr: &[u8])
        requires
            old(self).wf(),
            old(self).pending().len() == 0,
        ensures
            final(self).wf(),
            final(self).pending().len() == 0,
            final(self).written() == old(self).written() + blk_bytes(arr@),
            final(self).used_bits == old(self).used_bits,
            final(self).current_byte == old(self).current_byte,
    {
        let ghost b0 = self.buffer@;
        let mut i: usize = 0;
        proof {
            assert(arr@.skip(0) =~= arr@);
            assert(self.buffer@ + blk_bytes(arr@.skip(0)) =~= b0 + blk_bytes(arr@));
        }
        while i < arr.len()
            invariant
                i <= arr@.len(),
                self.buffer@ + blk_bytes(arr@.skip(i as int)) == b0 + blk_bytes(arr@),
                self.used_bits == old(self).used_bits,
                self.current_byte == old(self).current_byte,
            decreases arr@.len() - i,
        {
            let c: usize = if arr.len() - i < 255 {
                arr.len() - i
            } else {
                255
            };
            let ghost rest = arr@.skip(i as int);
            proof {
                assert(blk_bytes(rest) == seq![c as u8] + rest.take(c as int) + blk_bytes(
                    rest.skip(c as int),
                ));
                assert(rest.skip(c as int) =~= arr@.skip(i + c));
            }
            let ghost start = self.buffer@;
            self.buffer.push(c as u8);
            let mut k: usize = 0;
            assert(i + c <= arr@.len());
            assert(self.buffer@ =~= start.push(c as u8) + arr@.subrange(i as int, i + k));
            while k < c
                invariant
                    k <= c,
                    i + c <= arr.len(),
                    arr.len() == arr@.len(),
                    self.buffer@ == start.push(c as u8) + arr@.subrange(i as int, i + k),
                    self.used_bits == old(self).used_bits,
                    self.current_byte == old(self).current_byte,
                decreases c - k,
            {
                self.buffer.push(arr[i + k]);
                proof {
                    assert(arr@.subrange(i as int, i + k + 1) =~= arr@.subrange(i as int, i + k).push(
                        arr@[i + k],
                    ));
                }
                k = k + 1;
            }
            proof {
                assert(rest.take(c as int) =~= arr@.subrange(i as int, i + c));
                assert(self.buffer@ + blk_bytes(arr@.skip(i + c)) =~= start + blk_bytes(rest));
            }
            i = i + c;
        }
        self.buffer.push(0);
        proof {
            assert(arr@.skip(i as int) =~= Seq::<u8>::empty());
            assert(blk_bytes(arr@.skip(i as int)) == seq![0u8]);
        }
    }

    /// Writes a byte array in blocks; the encoder must be on a byte boundary.
    pub fn byte_array(&mut self, arr: &[u8]) -> (r: Result<&mut Self, Error>)
        requires
            old(self).wf(),
        ensures
            match r {
                Ok(e) => {
                    &&& old(self).pending().len() == 0
                    &&& e.wf()
                    &&& e.stream() == old(self).stream() + bytes_bits(blk_bytes(arr@))
                    &&& e.pending().len() == 0
                    &&& *final(self) == *final(e)
                },
                Err(err) => {
                    &&& old(self).pending().len() != 0
                    &&& err is BufferNotByteAligned
                    &&& *final(self) == *old(self)
                },
            },
    {
        if self.used_bits != 0 {
            return Err(Error::BufferNotByteAligned);
        }
        let ghost old_bits = self.stream();
        proof {
            assert(self.pending() =~= Seq::<bool>::empty());
        }
        self.write_blk(arr);
        proof {
            lemma_bytes_bits_concat(old(self).buffer@, blk_bytes(arr@));
            assert(self.pending() =~= Seq::<bool>::empty());
            assert(self.stream() =~= old_bits + bytes_bits(blk_bytes(arr@)));
        }
        Ok(self)
    }

    /// Pads to a byte boundary, then writes a byte array in blocks.
    pub fn bytes(&mut self, x: &[u8]) -> (r: Result<&mut Self, Error>)
        requires
            old(self).wf(),
        ensures
            r matches Ok(e) && e.wf() && e.stream() == old(self).stream() + filler_bits(
                old(self).pending().len(),
            ) + bytes_bits(blk_bytes(x@)) && *final(self) == *final(e),
    {
        self.filler();
        self.byte_array(x)
    }

    /// Writes a string slice as the byte array of its UTF-8 encoding.
    pub fn utf8(&mut self, s: &str) -> (r: Result<&mut Self, Error>)
        requires
            old(self).wf(),
        ensures
            r matches Ok(e) && e.wf() && e.stream() == old(self).stream() + filler_bits(
                old(self).pending().len(),
            ) + bytes_bits(blk_bytes(s.spec_bytes())) && *final(self) == *final(e),
    {
        self.bytes(s.as_bytes())
    }

    /// Writes an unsigned number seven bits at a time, least significant
    /// group first; every byte but the last has its high bit set.
    pub fn word(&mut self, c: usize) -> (r: &mut Self)
        requires
            old(self).wf(),
        ensures
            r.wf(),
            r.stream() == old(self).stream() + bytes_bits(word_bytes(c as nat)),
            *final(self) == *final(r),
    {
        let ghost s0 = self.stream();
        let mut d = c;
        proof {
            assert(s0 + bytes_bits(word_bytes(c as nat)) == self.stream() + bytes_bits(
                word_bytes(d as nat),
            ));
        }
        loop
            invariant_except_break
                self.wf(),
                s0 + bytes_bits(word_bytes(c as nat)) == self.stream() + bytes_bits(
                    word_bytes(d as nat),
                ),
            ensures
                self.wf(),
                self.stream() == s0 + bytes_bits(word_bytes(c as nat)),
            decreases d,
        {
            let ghost d0 = d;
            let ghost st = self.stream();
            let mut w = (d & 127) as u8;
            d = d >> 7;
            if d != 0 {
                w = w | 128;
            }
            proof {
                lemma_low7_usize(d0);
                lemma_high_bit((d0 % 128) as u8);
                lemma_word_bytes_step(d0 as nat);
            }
            self.bits(8, w);
            proof {
                assert(val_bits(w, 8) == byte_bits(w));
            }
            if d == 0 {
                proof {
                    assert(self.stream() == s0 + bytes_bits(word_bytes(c as nat)));
                }
                break ;
            }
        }
        self
    }

    /// Writes a 128-bit unsigned number as a word.
    pub fn big_word(&mut self, c: u128) -> (r: &mut Self)
        requires
            old(self).wf(),
        ensures
            r.wf(),
            r.stream() == old(self).stream() + bytes_bits(word_bytes(c as nat)),
            *final(self) == *final(r),
    {
        let ghost s0 = self.stream();
        let mut d = c;
        loop
            invariant_except_break
                self.wf(),
                s0 + bytes_bits(word_bytes(c as nat)) == self.stream() + bytes_bits(
                    word_bytes(d as nat),
                ),
            ensures
                self.wf(),
                self.stream() == s0 + bytes_bits(word_bytes(c as nat)),
            decreases d,
        {
            let ghost d0 = d;
            let mut w = (d & 127) as u8;
            d = d >> 7;
            if d != 0 {
                w = w | 128;
            }
            proof {
                lemma_low7_u128(d0);
                lemma_high_bit((d0 % 128) as u8);
                lemma_word_bytes_step(d0 as nat);
            }
            self.bits(8, w);
            proof {
                assert(val_bits(w, 8) == byte_bits(w));
            }
            if d == 0 {
                break ;
            }
        }
        self
    }

    /// Writes a signed machine integer as the word of its zigzag code.
    pub fn integer(&mut self, i: isize) -> (r: &mut Self)
        requires
            old(self).wf(),
        ensures
            r.wf(),
            r.stream() == old(self).stream() + bytes_bits(word_bytes(zigzag(i as int))),
            *final(self) == *final(r),
    {
        let i = to_usize(i);
        self.word(i);
        self
    }

    /// Writes a signed 128-bit integer as the word of its zigzag code.
    pub fn big_integer(&mut self, i: i128) -> (r: &mut Self)
        requires
            old(self).wf(),
        ensures
            r.wf(),
            r.stream() == old(self).stream() + bytes_bits(word_bytes(zigzag(i as int))),
            *final(self) == *final(r),
    {
        let i = to_u128(i);
        self.big_word(i);
        self
    }

    /// Writes a character as the word of its code point.
    pub fn char(&mut self, c: char) -> (r: &mut Self)
        requires
            old(self).wf(),
        ensures
            r.wf(),
            r.stream() == old(self).stream() + bytes_bits(word_bytes(c as nat)),
            *final(self) == *final(r),
    {
        self.word(c as usize);
        self
    }

    /// Writes a string character by character: a set bit before each
    /// character, a clear bit at the end.
    pub fn string(&mut self, s: &str) -> (r: &mut Self)
        requires
            old(self).wf(),
        ensures
            r.wf(),
            r.stream() == old(self).stream() + string_bits(s@),
            *final(self) == *final(r),
    {
        broadcast use vstd::string::group_string_axioms;

        let ghost s0 = self.stream();
        for c in it: s.chars()
            invariant
                self.wf(),
                it.seq() == s@,
                self.stream() == s0 + chars_bits(s@.take(it.index() as int)),
        {
            let ghost k = it.index();
            self.one();
            self.char(c);
            proof {
                assert(s@.take(k + 1).drop_last() =~= s@.take(k as int));
                assert(s@.take(k + 1).last() == c);
                assert(self.stream() =~= s0 + chars_bits(s@.take(k + 1)));
            }
        }
        self.zero();
        proof {
            assert(s@.take(s@.len() as int) =~= s@);
        }
        self
    }

    /// Writes a value by its own encoding.
    pub fn encode<T: Encode>(&mut self, x: T) -> (r: Result<&mut Self, Error>)
        requires
            old(self).wf(),
        ensures
            r is Ok <==> x.encodable(),
            match r {
                Ok(e) => e.wf() && e.stream() == old(self).stream() + x.flat_bits() && *final(self)
                    == *final(e),
                Err(err) => final(self).wf() && (final(self).stream(), err) == x.failure(old(self).stream()),
            },
    {
        match x.encode(self) {
            Ok(()) => Ok(self),
            Err(e) => Err(e),
        }
    }

    /// Writes a list: a set bit before each item and its encoding, a clear
    /// bit at the end.
    ///
    /// `encoder_func` writes each item; it is expected to write an item as
    /// the item's own encoding does, which is what the contract below rests on.
    pub fn encode_list_with<T: Encode, F: Fn(&T, &mut Encoder) -> Result<(), Error>>(
        &mut self,
        list: &[T],
        encoder_func: F,
    ) -> (r: Result<&mut Self, Error>)
        requires
            old(self).wf(),
            forall|x: &T, m: &mut Encoder| (*m).wf() ==> call_requires(encoder_func, (x, m)),
            forall|x: &T, m: &mut Encoder, q: Result<(), Error>|
                #[trigger] call_ensures(encoder_func, (x, m), q) ==> writes_as_encoded(x, *m, *final(m), q),
        ensures
            r is Ok <==> forall|i: int| 0 <= i < list@.len() ==> #[trigger] list@[i].encodable(),
            match r {
                Ok(e) => e.wf() && e.stream() == old(self).stream() + list_bits(list@)
                    && *final(self) == *final(e),
                Err(err) => {
                    &&& final(self).wf()
                    &&& exists|k: int|
                        0 <= k < list@.len() && !(#[trigger] list@[k]).encodable() && (forall|j: int|
                            0 <= j < k ==> #[trigger] list@[j].encodable()) && (final(self).stream(), err)
                            == list@[k].failure((old(self).stream() + items_bits(list@.take(k))).push(true))
                },
            },
    {
        let ghost s0 = self.stream();
        let mut i: usize = 0;
        while i < list.len()
            invariant
                i <= list@.len(),
                self.wf(),
                s0 == old(self).stream(),
                self.stream() == s0 + items_bits(list@.take(i as int)),
                forall|j: int| 0 <= j < i ==> #[trigger] list@[j].encodable(),
                forall|x: &T, m: &mut Encoder| (*m).wf() ==> call_requires(encoder_func, (x, m)),
                forall|x: &T, m: &mut Encoder, q: Result<(), Error>|
                    #[trigger] call_ensures(encoder_func, (x, m), q) ==> writes_as_encoded(x, *m, *final(m), q),
            decreases list@.len() - i,
        {
            self.one();
            let ghost s1 = self.stream();
            match encoder_func(&list[i], self) {
                Ok(()) => {},
                Err(e) => {
                    proof {
                        assert(s1 == (s0 + items_bits(list@.take(i as int))).push(true));
                        assert(!list@[i as int].encodable());
                    }
                    return Err(e);
                },
            }
            proof {
                assert(list@.take(i + 1).drop_last() =~= list@.take(i as int));
                assert(self.stream() =~= s0 + items_bits(list@.take(i + 1)));
            }
            i = i + 1;
        }
        self.zero();
        proof {
            assert(list@.take(list@.len() as int) =~= list@);
        }
        Ok(self)
    }
}


/// The bytes of a variable-length word: seven bits at a time, least
/// significant group first, the high bit set on every byte but the last.
pub open spec fn word_bytes(c: nat) -> Seq<u8>
    decreases c,
{
    if c / 128 == 0 {
        seq![(c % 128) as u8]
    } else {
        seq![(c % 128 + 128) as u8] + word_bytes(c / 128)
    }
}

/// The bytes of a byte array in the flat format: blocks of at most 255
/// bytes, each preceded by its length, closed by an empty block.
pub open spec fn blk_bytes(s: Seq<u8>) -> Seq<u8>
    decreases s.len(),
{
    if s.len() == 0 {
        seq![0u8]
    } else {
        let c = if s.len() < 255 {
            s.len()
        } else {
            255
        };
        seq![c as u8] + s.take(c as int) + blk_bytes(s.skip(c as int))
    }
}

/// The `k`-th block of 255 bytes of an array.
pub open spec fn in_block(s: Seq<u8>, k: int) -> Seq<u8> {
    s.subrange(255 * k, 255 * k + 255)
}

/// The `k`-th run of 256 bytes of a written byte array: a length byte and
/// the bytes of a full block.
pub open spec fn out_block(r: Seq<u8>, k: int) -> Seq<u8> {
    r.subrange(256 * k, 256 * k + 256)
}

/// A byte array of `n` bytes is written as maximal blocks of 255 bytes,
/// each after its length byte 255, then the rest of the bytes (fewer than
/// 255) after their length when there are any, then a closing 0: in all
/// `n` bytes, one length byte for each of the `ceil(n / 255)` blocks, and
/// the closing byte.
pub proof fn law_byte_array_blocks(s: Seq<u8>)
    ensures
        blk_bytes(s).len() == s.len() + s.len() / 255 + (if s.len() % 255 == 0 {
            0int
        } else {
            1int
        }) + 1,
        forall|k: int| 0 <= k < s.len() / 255 ==> #[trigger] out_block(blk_bytes(s), k) == seq![255u8]
            + in_block(s, k),
        blk_bytes(s).skip(256 * (s.len() / 255) as int) == (if s.len() % 255 == 0 {
            seq![0u8]
        } else {
            seq![(s.len() % 255) as u8] + s.skip(255 * (s.len() / 255) as int) + seq![0u8]
        }),
    decreases s.len(),
{
    let n = s.len();
    if n < 255 {
        assert(n / 255 == 0 && n % 255 == n) by (nonlinear_arith)
            requires
                n < 255,
        ;
        if n == 0 {
            assert(blk_bytes(s) =~= seq![0u8]);
        } else {
            let b = blk_bytes(s.skip(n as int));
            assert(s.skip(n as int) =~= Seq::<u8>::empty());
            assert(b == seq![0u8]);
            assert(s.take(n as int) =~= s);
            assert(blk_bytes(s) == seq![n as u8] + s + seq![0u8]);
            assert(s.skip(0) =~= s);
            assert(blk_bytes(s).skip(0) =~= blk_bytes(s));
        }
    } else {
        let t = s.skip(255);
        law_byte_array_blocks(t);
        let m = t.len();
        assert(m == n - 255);
        assert(n / 255 == m / 255 + 1 && n % 255 == m % 255) by (nonlinear_arith)
            requires
                m == n - 255,
                n >= 255,
        ;
        let r = blk_bytes(s);
        let rt = blk_bytes(t);
        assert(r == seq![255u8] + s.take(255) + rt);
        assert(r.len() == 256 + rt.len());
        assert forall|k: int| 0 <= k < n / 255 implies #[trigger] out_block(r, k) == seq![255u8] + in_block(s, k) by {
            if k == 0 {
                assert(out_block(r, 0) =~= seq![255u8] + s.take(255));
                assert(in_block(s, 0) =~= s.take(255));
            } else {
                assert(out_block(rt, k - 1) == seq![255u8] + in_block(t, k - 1));
                assert(out_block(r, k) =~= out_block(rt, k - 1));
                assert(in_block(s, k) =~= in_block(t, k - 1));
            }
        }
        let q: int = (n / 255) as int;
        assert(r.skip(256 * q) =~= rt.skip(256 * (q - 1)));
        assert(s.skip(255 * q) =~= t.skip(255 * (q - 1)));
    }
}

/// The padding that closes a partial byte: clear bits up to the last
/// position of the byte, which is set.
pub open spec fn filler_bits(pending: nat) -> Seq<bool> {
    zeros((7 - pending) as nat).push(true)
}

/// The bits of a string: each character as a set bit followed by its code
/// point as a word, the whole closed by a clear bit.
pub open spec fn chars_bits(cs: Seq<char>) -> Seq<bool>
    decreases cs.len(),
{
    if cs.len() == 0 {
        Seq::empty()
    } else {
        chars_bits(cs.drop_last()).push(true) + bytes_bits(word_bytes(cs.last() as nat))
    }
}

/// The bits of a string in the flat format.
pub open spec fn string_bits(cs: Seq<char>) -> Seq<bool> {
    chars_bits(cs).push(false)
}

/// `val` fits in `n` bits.
pub open spec fn fits_bits(n: i64, val: u8) -> bool {
    n == 8 || val >> (n as u8) == 0
}

proof fn lemma_bits_fit(cur: u8, u: u8, n: u8, val: u8, x: u8)
    requires
        u < 8,
        1 <= n <= 8,
        x == 8 - u - n,
        0 < x,
        cur & (0xffu8 >> u) == 0,
        val >> n == 0,
    ensures
        byte_bits(cur | (val << x)).take(u + n) == byte_bits(cur).take(u as int) + val_bits(
            val,
            n as nat,
        ),
        (cur | (val << x)) & (0xffu8 >> ((u + n) as u8)) == 0,
{
    let nb = cur | (val << x);
    assert forall|i: int| 0 <= i < u + n implies #[trigger] byte_bits(nb)[i] == (
    byte_bits(cur).take(u as int) + val_bits(val, n as nat))[i] by {
        let k = (7 - i) as u8;
        lemma_get_bit_or(cur, val << x, k);
        lemma_get_bit_shl(val, x, k);
        if i < u {
            if k >= x {
                lemma_get_bit_small(val, n, (k - x) as u8);
            }
        } else {
            lemma_get_bit_mask(cur, u, k);
        }
    }
    assert(byte_bits(nb).take(u + n) =~= byte_bits(cur).take(u as int) + val_bits(val, n as nat));
    assert forall|k: u8| k < 8 - ((u + n) as u8) implies !get_bit(nb, k) by {
        lemma_get_bit_or(cur, val << x, k);
        lemma_get_bit_shl(val, x, k);
        lemma_get_bit_mask(cur, u, k);
    }
    lemma_mask_from_bits(nb, (u + n) as u8);
}

proof fn lemma_bits_exact(cur: u8, u: u8, n: u8, val: u8)
    requires
        u < 8,
        1 <= n <= 8,
        u + n == 8,
        cur & (0xffu8 >> u) == 0,
        n == 8 || val >> n == 0,
    ensures
        byte_bits(cur | val) == byte_bits(cur).take(u as int) + val_bits(val, n as nat),
{
    let nb = cur | val;
    assert forall|i: int| 0 <= i < 8 implies #[trigger] byte_bits(nb)[i] == (byte_bits(cur).take(
        u as int,
    ) + val_bits(val, n as nat))[i] by {
        let k = (7 - i) as u8;
        lemma_get_bit_or(cur, val, k);
        if i < u {
            lemma_get_bit_small(val, n, k);
        } else {
            lemma_get_bit_mask(cur, u, k);
        }
    }
    assert(byte_bits(nb) =~= byte_bits(cur).take(u as int) + val_bits(val, n as nat));
}

proof fn lemma_bits_spill(cur: u8, u: u8, n: u8, val: u8, used: u8)
    requires
        u < 8,
        1 <= n <= 8,
        used == u + n - 8,
        0 < used < 8,
        cur & (0xffu8 >> u) == 0,
        n == 8 || val >> n == 0,
    ensures
        byte_bits(cur | (val >> used)) + byte_bits(val << ((8 - used) as u8)).take(used as int)
            == byte_bits(cur).take(u as int) + val_bits(val, n as nat),
        (val << ((8 - used) as u8)) & (0xffu8 >> used) == 0,
{
    let b1 = cur | (val >> used);
    let s = (8 - used) as u8;
    let b2 = val << s;
    let target = byte_bits(cur).take(u as int) + val_bits(val, n as nat);
    assert forall|i: int| 0 <= i < 8 implies #[trigger] byte_bits(b1)[i] == target[i] by {
        let k = (7 - i) as u8;
        lemma_get_bit_or(cur, val >> used, k);
        lemma_get_bit_shr(val, used, k);
        if i < u {
            if k + used < 8 {
                lemma_get_bit_small(val, n, (k + used) as u8);
            }
        } else {
            lemma_get_bit_mask(cur, u, k);
        }
    }
    assert forall|j: int| 0 <= j < used implies #[trigger] byte_bits(b2)[j] == target[8 + j] by {
        let k = (7 - j) as u8;
        lemma_get_bit_shl(val, s, k);
    }
    assert(byte_bits(b1) + byte_bits(b2).take(used as int) =~= target);
    assert forall|k: u8| k < 8 - used implies !get_bit(b2, k) by {
        lemma_get_bit_shl(val, s, k);
    }
    lemma_mask_from_bits(b2, used);
}


/// One step of a word: the low seven bits, with the high bit set when more
/// groups follow, then the word of the rest.
pub proof fn lemma_word_bytes_step(d: nat)
    ensures
        word_bytes(d) == seq![(if d / 128 == 0 {
            d % 128
        } else {
            d % 128 + 128
        }) as u8] + (if d / 128 == 0 {
            Seq::<u8>::empty()
        } else {
            word_bytes(d / 128)
        }),
        forall|t: Seq<u8>, b: u8| #[trigger] bytes_bits(seq![b] + t) == byte_bits(b) + bytes_bits(t),
{
    if d / 128 == 0 {
        assert(seq![(d % 128) as u8] + Seq::<u8>::empty() =~= seq![(d % 128) as u8]);
    }
    assert forall|t: Seq<u8>, b: u8| #[trigger] bytes_bits(seq![b] + t) == byte_bits(b) + bytes_bits(
        t,
    ) by {
        lemma_bytes_bits_concat(seq![b], t);
        assert(seq![b].drop_last() =~= Seq::<u8>::empty());
        assert(bytes_bits(Seq::<u8>::empty()) =~= Seq::<bool>::empty());
        assert(bytes_bits(seq![b]) =~= byte_bits(b));
    }
}

/// Writing `x` took the encoder from `before` to `after` with the outcome
/// `q`, as the item's own encoding does.
pub open spec fn writes_as_encoded<T: Encode>(x: &T, before: Encoder, after: Encoder, q: Result<(), Error>) -> bool {
    &&& after.wf()
    &&& (q is Ok <==> x.encodable())
    &&& (q is Ok ==> after.stream() == before.stream() + x.flat_bits())
    &&& (q matches Err(err) ==> (after.stream(), err) == x.failure(before.stream()))
}

/// The bits of the items of a list, each after a set bit.
pub open spec fn items_bits<T: Encode>(s: Seq<T>) -> Seq<bool>
    decreases s.len(),
{
    if s.len() == 0 {
        Seq::empty()
    } else {
        items_bits(s.drop_last()).push(true) + s.last().flat_bits()
    }
}

/// The bits of a list in the flat format.
pub open spec fn list_bits<T: Encode>(s: Seq<T>) -> Seq<bool> {
    items_bits(s).push(false)
}

/// A value that has an encoding in the flat format.
pub trait Encode {
    /// The bits of the value's encoding.
    spec fn flat_bits(&self) -> Seq<bool>;

    /// The value can be written: writing it does not fail.
    spec fn encodable(&self) -> bool;

    /// When writing the value after the bits `before` fails: the bits the
    /// encoder then holds, and the error returned.
    spec fn failure(&self, before: Seq<bool>) -> (Seq<bool>, Error);

    /// Writes the value's encoding.
    fn encode(&self, e: &mut Encoder) -> (r: Result<(), Error>)
        requires
            old(e).wf(),
        ensures
            final(e).wf(),
            r is Ok <==> self.encodable(),
            r is Ok ==> final(e).stream() == old(e).stream() + self.flat_bits(),
            r matches Err(err) ==> (final(e).stream(), err) == self.failure(old(e).stream()),
    ;
}

impl Encode for bool {
    open spec fn flat_bits(&self) -> Seq<bool> {
        seq![*self]
    }

    open spec fn encodable(&self) -> bool {
        true
    }

    open spec fn failure(&self, before: Seq<bool>) -> (Seq<bool>, Error) {
        (before, vstd::pervasive::arbitrary())
    }

    fn encode(&self, e: &mut Encoder) -> (r: Result<(), Error>) {
        e.bool(*self);
        Ok(())
    }
}

impl Encode for u8 {
    open spec fn flat_bits(&self) -> Seq<bool> {
        byte_bits(*self)
    }

    open spec fn encodable(&self) -> bool {
        true
    }

    open spec fn failure(&self, before: Seq<bool>) -> (Seq<bool>, Error) {
        (before, vstd::pervasive::arbitrary())
    }

    fn encode(&self, e: &mut Encoder) -> (r: Result<(), Error>) {
        match e.u8(*self) {
            Ok(_) => Ok(()),
            Err(err) => Err(err),
        }
    }
}

impl Encode for usize {
    open spec fn flat_bits(&self) -> Seq<bool> {
        bytes_bits(word_bytes(*self as nat))
    }

    open spec fn encodable(&self) -> bool {
        true
    }

    open spec fn failure(&self, before: Seq<bool>) -> (Seq<bool>, Error) {
        (before, vstd::pervasive::arbitrary())
    }

    fn encode(&self, e: &mut Encoder) -> (r: Result<(), Error>) {
        e.word(*self);
        Ok(())
    }
}

impl Encode for isize {
    open spec fn flat_bits(&self) -> Seq<bool> {
        bytes_bits(word_bytes(zigzag(*self as int)))
    }

    open spec fn encodable(&self) -> bool {
        true
    }

    open spec fn failure(&self, before: Seq<bool>) -> (Seq<bool>, Error) {
        (before, vstd::pervasive::arbitrary())
    }

    fn encode(&self, e: &mut Encoder) -> (r: Result<(), Error>) {
        e.integer(*self);
        Ok(())
    }
}

impl Encode for i128 {
    open spec fn flat_bits(&self) -> Seq<bool> {
        bytes_bits(word_bytes(zigzag(*self as int)))
    }

    open spec fn encodable(&self) -> bool {
        true
    }

    open spec fn failure(&self, before: Seq<bool>) -> (Seq<bool>, Error) {
        (before, vstd::pervasive::arbitrary())
    }

    fn encode(&self, e: &mut Encoder) -> (r: Result<(), Error>) {
        e.big_integer(*self);
        Ok(())
    }
}

impl Encode for char {
    open spec fn flat_bits(&self) -> Seq<bool> {
        bytes_bits(word_bytes(*self as nat))
    }

    open spec fn encodable(&self) -> bool {
        true
    }

    open spec fn failure(&self, before: Seq<bool>) -> (Seq<bool>, Error) {
        (before, vstd::pervasive::arbitrary())
    }

    fn encode(&self, e: &mut Encoder) -> (r: Result<(), Error>) {
        e.char(*self);
        Ok(())
    }
}

impl Default for Encoder {
    fn default() -> (e: Self)
        ensures
            e.wf(),
            e.stream() == Seq::<bool>::empty(),
    {
        Self::new()
    }
}

} // verus!
