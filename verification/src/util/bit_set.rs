//! A set of bits laid over a borrowed byte buffer.

use crate::util::integer::{div_ceil, div_floor};
use core::ops::Range;
use vstd::prelude::*;

verus! {

/// Whether bit `k` of `byte` is set, bit 0 being the least significant.
pub open spec fn byte_bit(byte: u8, k: u8) -> bool {
    byte & (1u8 << k) != 0
}

/// Bit `idx` of a byte buffer: bit `idx % 8` of byte `idx / 8`.
pub open spec fn bit_at(bytes: Seq<u8>, idx: int) -> bool {
    byte_bit(bytes[idx / 8], (idx % 8) as u8)
}

/// The first `n_bits` bits of a byte buffer.
pub open spec fn bits_of(bytes: Seq<u8>, n_bits: nat) -> Seq<bool> {
    Seq::new(n_bits, |i: int| bit_at(bytes, i))
}

/// `bits` with every position in `[start, end)` replaced by `value`.
pub open spec fn fill_range(bits: Seq<bool>, start: int, end: int, value: bool) -> Seq<bool> {
    Seq::new(
        bits.len(),
        |i: int|
            if start <= i < end {
                value
            } else {
                bits[i]
            },
    )
}

/// A byte with all eight bits equal to `value`.
pub open spec fn full_byte(value: bool) -> u8 {
    if value {
        0xffu8
    } else {
        0u8
    }
}

proof fn lemma_byte_bit_update(b: u8, k: u8, j: u8)
    requires
        k < 8,
        j < 8,
    ensures
        byte_bit(b | (1u8 << k), j) == (j == k || byte_bit(b, j)),
        byte_bit(b & !(1u8 << k), j) == (j != k && byte_bit(b, j)),
{
    assert((b | (1u8 << k)) & (1u8 << j) != 0 <==> (j == k || b & (1u8 << j) != 0)) by (bit_vector)
        requires
            k < 8,
            j < 8,
    ;
    assert((b & !(1u8 << k)) & (1u8 << j) != 0 <==> (j != k && b & (1u8 << j) != 0))
        by (bit_vector)
        requires
            k < 8,
            j < 8,
    ;
}

proof fn lemma_full_byte(value: bool, j: u8)
    requires
        j < 8,
    ensures
        byte_bit(full_byte(value), j) == value,
{
    assert(0xffu8 & (1u8 << j) != 0) by (bit_vector)
        requires
            j < 8,
    ;
    assert(0u8 & (1u8 << j) == 0) by (bit_vector);
}

/// A view of `n_bits` bits stored in a byte buffer borrowed from the caller,
/// eight bits to the byte, least significant bit first.
pub struct BitSet<'a> {
    n_bits: u64,
    data: &'a mut [u8],
}

impl<'a> View for BitSet<'a> {
    type V = Seq<bool>;

    /// The bits of the set, in order.
    open spec fn view(&self) -> Seq<bool> {
        bits_of(self.bytes(), self.n_bits() as nat)
    }
}

impl<'a> BitSet<'a> {
    /// The number of bits in the set.
    pub closed spec fn n_bits(&self) -> u64 {
        self.n_bits
    }

    /// The current contents of the underlying buffer.
    pub closed spec fn bytes(&self) -> Seq<u8> {
        self.data@
    }

    /// The borrow of the underlying buffer. Its final value is what the
    /// lender of the buffer sees once the set is released.
    pub closed spec fn store(&self) -> &'a mut [u8] {
        self.data
    }

    /// The buffer is large enough to hold every bit of the set.
    pub open spec fn wf(&self) -> bool {
        self.n_bits() as int <= self.bytes().len() * 8
    }

    /// Lays a set of `n_bits` bits over `data`. The bits start out as
    /// whatever `data` holds.
    pub fn new(n_bits: u64, data: &'a mut [u8]) -> (r: BitSet<'a>)
        requires
            n_bits as int <= old(data)@.len() * 8,
        ensures
            r.wf(),
            r.n_bits() == n_bits,
            r.bytes() == old(data)@,
            r@ == bits_of(old(data)@, n_bits as nat),
            final(r.store())@ == final(data)@,
    {
        BitSet { n_bits, data }
    }

    /// Gives the buffer back to its lender, who from then on sees the bytes
    /// that the set holds now.
    pub fn release(self)
        ensures
            final(self.store())@ == self.bytes(),
    {
    }

    /// Sets bit `idx` to `value` and leaves every other bit as it was.
    pub fn set(&mut self, idx: u64, value: bool)
        requires
            old(self).wf(),
            idx < old(self).n_bits(),
        ensures
            final(self).wf(),
            final(self).n_bits() == old(self).n_bits(),
            final(self).bytes().len() == old(self).bytes().len(),
            final(self)@ == old(self)@.update(idx as int, value),
            forall|i: int|
                0 <= i < old(self).bytes().len() * 8 && i != idx ==> bit_at(final(self).bytes(), i)
                    == bit_at(old(self).bytes(), i),
            final(final(self).store())@ == final(old(self).store())@,
    {
        let bit: u8 = (idx % 8) as u8;
        let word_mask: u8 = 1u8 << bit;
        let word_idx: usize = (idx / 8) as usize;
        let word: u8 = self.data[word_idx];
        let new_word: u8 = if value {
            word | word_mask
        } else {
            word & !word_mask
        };
        self.data[word_idx] = new_word;
        proof {
            let old_bytes = old(self).bytes();
            let new_bytes = self.bytes();
            assert(new_bytes == old_bytes.update(word_idx as int, new_word));
            assert forall|i: int| 0 <= i < old_bytes.len() * 8 implies bit_at(new_bytes, i) == (if i
                == idx {
                value
            } else {
                bit_at(old_bytes, i)
            }) by {
                if i / 8 == idx as int / 8 {
                    lemma_byte_bit_update(word, bit, (i % 8) as u8);
                }
            }
            assert(self@ =~= old(self)@.update(idx as int, value));
        }
    }

    /// Reads bit `idx`.
    pub fn get(&self, idx: u64) -> (r: bool)
        requires
            self.wf(),
            idx < self.n_bits(),
        ensures
            r == self@[idx as int],
    {
        let word_mask: u8 = 1u8 << ((idx % 8) as u8);
        let word: u8 = self.data[(idx / 8) as usize];
        (word & word_mask) != 0
    }

    /// Sets every bit of the set to `value`.
    pub fn set_all(&mut self, value: bool)
        requires
            old(self).wf(),
        ensures
            final(self).wf(),
            final(self).n_bits() == old(self).n_bits(),
            final(self).bytes().len() == old(self).bytes().len(),
            final(self)@ == Seq::new(old(self).n_bits() as nat, |i: int| value),
            forall|i: int|
                old(self).n_bits() <= i < old(self).bytes().len() * 8 ==> bit_at(
                    final(self).bytes(),
                    i,
                ) == bit_at(old(self).bytes(), i),
            final(final(self).store())@ == final(old(self).store())@,
    {
        let n: u64 = self.n_bits;
        self.set_range(0..n, value);
        assert(self@ =~= Seq::new(old(self).n_bits() as nat, |i: int| value));
    }

    /// Sets the bits in `[from, to)` to `value`, one at a time.
    fn set_each(&mut self, from: u64, to: u64, value: bool)
        requires
            old(self).wf(),
            from <= to <= old(self).n_bits(),
        ensures
            final(self).wf(),
            final(self).n_bits() == old(self).n_bits(),
            final(self).bytes().len() == old(self).bytes().len(),
            forall|i: int|
                0 <= i < old(self).bytes().len() * 8 ==> bit_at(final(self).bytes(), i) == (if from
                    <= i < to {
                    value
                } else {
                    bit_at(old(self).bytes(), i)
                }),
            final(final(self).store())@ == final(old(self).store())@,
    {
        let mut idx: u64 = from;
        while idx < to
            invariant
                self.wf(),
                from <= idx <= to <= self.n_bits(),
                self.n_bits() == old(self).n_bits(),
                self.bytes().len() == old(self).bytes().len(),
                forall|i: int|
                    0 <= i < old(self).bytes().len() * 8 ==> bit_at(self.bytes(), i) == (if from
                        <= i < idx {
                        value
                    } else {
                        bit_at(old(self).bytes(), i)
                    }),
                final(self.store())@ == final(old(self).store())@,
            decreases to - idx,
        {
            let ghost before = self.bytes();
            self.set(idx, value);
            proof {
                assert(self@[idx as int] == value);
                assert(bit_at(self.bytes(), idx as int) == value);
            }
            idx = idx + 1;
        }
    }

    /// Overwrites the whole bytes `[from, to)` of the buffer with all ones or
    /// all zeros.
    fn fill_bytes(&mut self, from: u64, to: u64, value: bool)
        requires
            old(self).wf(),
            from <= to,
            to as int * 8 <= old(self).n_bits(),
        ensures
            final(self).wf(),
            final(self).n_bits() == old(self).n_bits(),
            final(self).bytes().len() == old(self).bytes().len(),
            forall|i: int|
                0 <= i < old(self).bytes().len() * 8 ==> bit_at(final(self).bytes(), i) == (if from
                    * 8 <= i < to * 8 {
                    value
                } else {
                    bit_at(old(self).bytes(), i)
                }),
            final(final(self).store())@ == final(old(self).store())@,
    {
        let fill: u8 = if value {
            0xffu8
        } else {
            0u8
        };
        let mut blk: u64 = from;
        while blk < to
            invariant
                self.wf(),
                from <= blk <= to,
                to as int * 8 <= self.n_bits(),
                fill == full_byte(value),
                self.n_bits() == old(self).n_bits(),
                self.bytes().len() == old(self).bytes().len(),
                forall|i: int|
                    0 <= i < old(self).bytes().len() * 8 ==> bit_at(self.bytes(), i) == (if from * 8
                        <= i < blk * 8 {
                        value
                    } else {
                        bit_at(old(self).bytes(), i)
                    }),
                final(self.store())@ == final(old(self).store())@,
            decreases to - blk,
        {
            let ghost before = self.bytes();
            assert(blk < self.bytes().len());
            self.data[blk as usize] = fill;
            proof {
                assert(self.bytes() == before.update(blk as int, fill));
                assert forall|i: int| 0 <= i < old(self).bytes().len() * 8 implies bit_at(
                    self.bytes(),
                    i,
                ) == (if from * 8 <= i < (blk + 1) * 8 {
                    value
                } else {
                    bit_at(old(self).bytes(), i)
                }) by {
                    if i / 8 == blk as int {
                        lemma_full_byte(value, (i % 8) as u8);
                    } else {
                        assert(bit_at(self.bytes(), i) == bit_at(before, i));
                    }
                }
            }
            blk = blk + 1;
        }
    }

    /// Sets every bit whose index lies in `range` to `value` and leaves the
    /// others as they were. Whole bytes inside the range are written at once.
    pub fn set_range(&mut self, range: Range<u64>, value: bool)
        requires
            old(self).wf(),
            range.start <= range.end <= old(self).n_bits(),
        ensures
            final(self).wf(),
            final(self).n_bits() == old(self).n_bits(),
            final(self).bytes().len() == old(self).bytes().len(),
            final(self)@ == fill_range(old(self)@, range.start as int, range.end as int, value),
            forall|i: int|
                0 <= i < old(self).bytes().len() * 8 && !(range.start <= i < range.end)
                    ==> bit_at(final(self).bytes(), i) == bit_at(old(self).bytes(), i),
            final(final(self).store())@ == final(old(self).store())@,
    {
        let blk_start: u64 = div_ceil(range.start, 8);
        let blk_end: u64 = div_floor(range.end, 8);
        if blk_start <= blk_end {
            self.fill_bytes(blk_start, blk_end, value);
            self.set_each(range.start, blk_start * 8, value);
            self.set_each(blk_end * 8, range.end, value);
        } else {
            self.set_each(range.start, range.end, value);
        }
        assert(self@ =~= fill_range(old(self)@, range.start as int, range.end as int, value));
    }
}

} // verus!
