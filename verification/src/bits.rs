//! Codes of changing width, packed into bytes from the lowest bit up.

use vstd::prelude::*;

verus! {

/// Bit `k` of a byte, counted from the lowest.
pub open spec fn bit_of_byte(b: u8, k: int) -> bool {
    (b >> (k as u8)) & 1 == 1
}

/// Bit `i` of a sequence of bytes.
pub open spec fn stream_bit(buf: Seq<u8>, i: int) -> bool {
    bit_of_byte(buf[i / 8], i % 8)
}

/// Bit `k` of a code, counted from the lowest.
pub open spec fn code_bit(code: u16, k: int) -> bool {
    0 <= k < 16 && (code >> (k as u16)) & 1 == 1
}

/// The lowest `nbits` bits of a code, lowest first.
pub open spec fn code_bits(code: u16, nbits: int) -> Seq<bool> {
    Seq::new(nbits as nat, |k: int| code_bit(code, k))
}

/// Bytes that are filled bit by bit.
pub struct BitWriter {
    pub buf: Vec<u8>,
    /// How many bits are written.
    pub bits: u64,
}

impl View for BitWriter {
    type V = Seq<bool>;

    /// The bits that are written.
    open spec fn view(&self) -> Seq<bool> {
        Seq::new(self.bits as nat, |i: int| stream_bit(self.buf@, i))
    }
}

proof fn lemma_or_shifted(o: u8, code: u16, s: u8, k: u8)
    requires
        0 < s < 8,
        k < 8,
        o >> s == 0,
    ensures
        bit_of_byte(o | ((code << (s as u16)) as u8), k as int) == (if k < s {
            bit_of_byte(o, k as int)
        } else {
            code_bit(code, k - s)
        }),
{
    let n = o | ((code << (s as u16)) as u8);
    assert(((n >> k) & 1 == 1) == (if k < s {
        (o >> k) & 1 == 1
    } else {
        (code >> ((k - s) as u16)) & 1 == 1
    })) by (bit_vector)
        requires
            0 < s < 8,
            k < 8,
            o >> s == 0,
            n == o | ((code << (s as u16)) as u8),
    ;
}

proof fn lemma_shifted_byte(code: u16, sh: u16, k: u8)
    requires
        sh < 16,
        k < 8,
    ensures
        bit_of_byte((code >> sh) as u8, k as int) == (sh + k < 16 && code_bit(code, sh + k)),
{
    let n = (code >> sh) as u8;
    assert(((n >> k) & 1 == 1) == (sh + (k as u16) < 16 && (code >> ((sh + (k as u16)) as u16)) & 1
        == 1)) by (bit_vector)
        requires
            sh < 16,
            k < 8,
            n == (code >> sh) as u8,
    ;
}

proof fn lemma_high_bits_clear(code: u16, nbits: u16, k: u16)
    requires
        nbits <= k < 16,
        code >> nbits == 0,
    ensures
        !code_bit(code, k as int),
{
    assert((code >> k) & 1 == 0) by (bit_vector)
        requires
            nbits <= k < 16,
            code >> nbits == 0,
    ;
}

proof fn lemma_masked(o: u8, s: u8, k: u8)
    requires
        0 < s < 8,
        k < 8,
    ensures
        bit_of_byte(o & (((1u8 << s) - 1) as u8), k as int) == (k < s && bit_of_byte(o, k as int)),
        (o & (((1u8 << s) - 1) as u8)) >> s == 0,
{
    let n = o & (((1u8 << s) - 1) as u8);
    assert(((n >> k) & 1 == 1) == (k < s && (o >> k) & 1 == 1)) by (bit_vector)
        requires
            0 < s < 8,
            k < 8,
            n == o & (((1u8 << s) - 1) as u8),
    ;
    assert(n >> s == 0) by (bit_vector)
        requires
            0 < s < 8,
            n == o & (((1u8 << s) - 1) as u8),
    ;
}

proof fn lemma_all_clear(o: u8, s: u8)
    requires
        s < 8,
        forall|k: int| s <= k < 8 ==> !bit_of_byte(o, k),
    ensures
        o >> s == 0,
{
    assert(!bit_of_byte(o, 7));
    assert(s <= 6 ==> !bit_of_byte(o, 6));
    assert(s <= 5 ==> !bit_of_byte(o, 5));
    assert(s <= 4 ==> !bit_of_byte(o, 4));
    assert(s <= 3 ==> !bit_of_byte(o, 3));
    assert(s <= 2 ==> !bit_of_byte(o, 2));
    assert(s <= 1 ==> !bit_of_byte(o, 1));
    assert(s <= 0 ==> !bit_of_byte(o, 0));
    assert(o >> s == 0) by (bit_vector)
        requires
            s < 8,
            (o >> 7u8) & 1 != 1,
            s <= 6 ==> (o >> 6u8) & 1 != 1,
            s <= 5 ==> (o >> 5u8) & 1 != 1,
            s <= 4 ==> (o >> 4u8) & 1 != 1,
            s <= 3 ==> (o >> 3u8) & 1 != 1,
            s <= 2 ==> (o >> 2u8) & 1 != 1,
            s <= 1 ==> (o >> 1u8) & 1 != 1,
            s <= 0 ==> (o >> 0u8) & 1 != 1,
    ;
}

/// No more bits than this are ever written.
pub const MAX_BITS: u64 = 0x0100_0000_0000;

impl BitWriter {
    /// The bytes hold the written bits and nothing else: there are no more
    /// bytes than the bits need, and what is left of the last byte is clear.
    pub open spec fn wf(&self) -> bool {
        &&& self.bits <= MAX_BITS
        &&& self.buf.len() == (self.bits + 7) / 8
        &&& forall|i: int| self.bits <= i < 8 * self.buf.len() ==> !stream_bit(self.buf@, i)
    }

    /// A writer with nothing written.
    pub fn new() -> (w: BitWriter)
        ensures
            w.wf(),
            w.bits == 0,
            w@ == Seq::<bool>::empty(),
    {
        let w = BitWriter { buf: Vec::new(), bits: 0 };
        assert(w@ =~= Seq::<bool>::empty());
        w
    }

    /// Writes the lowest `nbits` bits of `code`, lowest first.
    pub fn write_code(&mut self, code: u16, nbits: u8)
        requires
            old(self).wf(),
            1 <= nbits <= 16,
            nbits < 16 ==> code >> (nbits as u16) == 0,
            old(self).bits + nbits <= MAX_BITS,
        ensures
            final(self).wf(),
            final(self).bits == old(self).bits + nbits,
            final(self)@ == old(self)@ + code_bits(code, nbits as int),
    {
        let start: u64 = self.bits;
        let endpos: u64 = start + nbits as u64;
        let ghost old_buf = self.buf@;
        let mut p: u64 = start;
        assert(p & 7 == p % 8) by (bit_vector);
        if p & 7 != 0 {
            let s = (p & 7) as u8;
            let i = (p / 8) as usize;
            let o = self.buf[i];
            let n = o | #[verifier::truncate]
            ((code << (s as u16)) as u8);
            proof {
                assert forall|k: int| s <= k < 8 implies !bit_of_byte(o, k) by {
                    assert(!stream_bit(old_buf, 8 * i + k));
                    assert((8 * i + k) / 8 == i && (8 * i + k) % 8 == k);
                }
                lemma_all_clear(o, s);
            }
            self.buf.set(i, n);
            p = p + 8 - (p & 7);
            proof {
                assert forall|j: int| 0 <= j < p implies stream_bit(self.buf@, j) == (if j < start {
                    stream_bit(old_buf, j)
                } else {
                    code_bit(code, j - start)
                }) by {
                    if j / 8 == i {
                        let k = (j % 8) as u8;
                        lemma_or_shifted(o, code, s, k);
                        assert(j == 8 * i + k);
                        assert(start == 8 * i + s);
                        assert(self.buf@[j / 8] == n);
                        assert(old_buf[j / 8] == o);
                    } else {
                        assert(j / 8 < i);
                        assert(self.buf@[j / 8] == old_buf[j / 8]);
                    }
                }
            }
        }
        while p < endpos
            invariant
                p % 8 == 0,
                start <= p,
                p < endpos + 8,
                endpos == start + nbits,
                1 <= nbits <= 16,
                endpos <= MAX_BITS,
                self.buf.len() == p / 8,
                nbits < 16 ==> code >> (nbits as u16) == 0,
                forall|j: int|
                    0 <= j < p ==> stream_bit(self.buf@, j) == (if j < start {
                        stream_bit(old_buf, j)
                    } else {
                        code_bit(code, j - start)
                    }),
            decreases endpos + 8 - p,
        {
            let sh = (p - start) as u16;
            let byte = #[verifier::truncate]
            ((code >> sh) as u8);
            let ghost before = self.buf@;
            self.buf.push(byte);
            proof {
                assert forall|j: int| 0 <= j < p + 8 implies stream_bit(self.buf@, j) == (if j
                    < start {
                    stream_bit(old_buf, j)
                } else {
                    code_bit(code, j - start)
                }) by {
                    if j >= p {
                        let k = (j - p) as u8;
                        lemma_shifted_byte(code, sh, k);
                        assert(j / 8 == p / 8 && j % 8 == k);
                        assert(self.buf@[j / 8] == byte);
                        assert(byte == (code >> sh) as u8);
                        assert(bit_of_byte(byte, k as int) == (sh + k < 16 && code_bit(
                            code,
                            sh + k,
                        )));
                        assert(j - start == sh + k);
                        assert(stream_bit(self.buf@, j) == code_bit(code, j - start));
                    } else {
                        assert(self.buf@[j / 8] == before[j / 8]);
                        assert(stream_bit(self.buf@, j) == stream_bit(before, j));
                    }
                }
            }
            p = p + 8;
        }
        self.bits = endpos;
        proof {
            assert forall|i: int| self.bits <= i < 8 * self.buf.len() implies !stream_bit(
                self.buf@,
                i,
            ) by {
                if i - start < 16 && nbits < 16 {
                    lemma_high_bits_clear(code, nbits as u16, (i - start) as u16);
                }
            }
            assert(self@ =~= old(self)@ + code_bits(code, nbits as int));
        }
    }

    /// Takes back what was written after the first `bits` bits.
    pub fn rewind(&mut self, bits: u64)
        requires
            old(self).wf(),
            bits <= old(self).bits,
        ensures
            final(self).wf(),
            final(self).bits == bits,
            final(self)@ == old(self)@.subrange(0, bits as int),
    {
        let ghost old_buf = self.buf@;
        self.buf.truncate(((bits + 7) / 8) as usize);
        let i = (bits / 8) as usize;
        assert(bits & 7 == bits % 8) by (bit_vector);
        assert(self.buf@ == old_buf.subrange(0, (bits + 7) / 8));
        if self.buf.len() > i {
            let s = (bits & 7) as u8;
            let o = self.buf[i];
            assert(1u8 << s >= 1) by (bit_vector)
                requires
                    s < 8,
            ;
            let n = o & ((1u8 << s) - 1);
            self.buf.set(i, n);
            proof {
                assert forall|j: int| 0 <= j < 8 * self.buf.len() implies stream_bit(self.buf@, j)
                    == (j < bits && stream_bit(old_buf, j)) by {
                    if j / 8 == i {
                        let k = (j % 8) as u8;
                        lemma_masked(o, s, k);
                        assert(j == 8 * i + k);
                        assert(bits == 8 * i + s);
                        assert(self.buf@[j / 8] == n);
                        assert(old_buf[j / 8] == o);
                    } else {
                        assert(self.buf@[j / 8] == old_buf[j / 8]);
                    }
                }
                assert forall|j: int| bits <= j < 8 * self.buf.len() implies !stream_bit(
                    self.buf@,
                    j,
                ) by {
                    let k = (j % 8) as u8;
                    lemma_masked(o, s, k);
                    assert(j == 8 * i + k);
                    assert(bits == 8 * i + s);
                    assert(self.buf@[j / 8] == n);
                }
            }
        }
        self.bits = bits;
        proof {
            assert forall|j: int| 0 <= j < bits implies stream_bit(self.buf@, j) == stream_bit(
                old_buf,
                j,
            ) by {
                assert(self.buf@[j / 8] == old_buf[j / 8] || j / 8 == i);
            }
            assert(self@ =~= old(self)@.subrange(0, bits as int));
        }
    }
}

} // verus!
