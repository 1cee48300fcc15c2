//! An immutable bitset stored as a packed byte buffer.

use vstd::prelude::*;

use crate::bits::{
    bit_of, buf_bit, bits_view, bytes_for, clamp, count_bits_in, count_false, count_true,
    div_ceil8, lemma_all_ones_bit, lemma_count_partition, lemma_count_true_concat,
    lemma_count_true_le_len, lemma_count_true_prefix_step, lemma_popcount_range_mask,
    lemma_test_bit, lemma_zero_bit, popcount_u8, range_mask,
};

verus! {

/// An immutable bitset stored as a packed byte buffer, viewed from a bit `offset`
/// for `len` bits.
pub struct BitBuffer {
    buffer: Vec<u8>,
    len: usize,
    offset: usize,
}

impl View for BitBuffer {
    type V = Seq<bool>;

    /// The `len` bits in view, starting at bit `offset` of the backing bytes.
    open spec fn view(&self) -> Seq<bool> {
        bits_view(self.bytes(), self.bit_offset() as int, self.spec_len())
    }
}

impl BitBuffer {
    /// The backing bytes.
    pub closed spec fn bytes(&self) -> Seq<u8> {
        self.buffer@
    }

    /// The offset, in bits, of the first bit in view.
    pub closed spec fn bit_offset(&self) -> nat {
        self.offset as nat
    }

    /// The number of bits in view.
    pub closed spec fn spec_len(&self) -> nat {
        self.len as nat
    }

    /// The bits in view lie inside the backing bytes.
    pub closed spec fn wf(&self) -> bool {
        &&& self.offset + self.len <= 8 * self.buffer@.len()
        &&& self.offset + self.len <= usize::MAX
    }

    /// Create a new `BitBuffer` backed by `buffer` with `len` bits in view.
    ///
    /// The buffer must be large enough to hold `len` bits.
    pub fn new(buffer: Vec<u8>, len: usize) -> (r: Self)
        requires
            len <= 8 * buffer@.len(),
        ensures
            r.wf(),
            r.bytes() == buffer@,
            r.bit_offset() == 0,
            r@ == bits_view(buffer@, 0, len as nat),
    {
        BitBuffer { buffer, len, offset: 0 }
    }

    /// Create a new `BitBuffer` backed by `buffer` with `len` bits in view, starting at bit
    /// `offset`.
    ///
    /// The offset must be below `len`, and the buffer must hold `len` bits from `offset` on.
    pub fn new_with_offset(buffer: Vec<u8>, len: usize, offset: usize) -> (r: Self)
        requires
            offset < len,
            offset + len <= 8 * buffer@.len(),
            offset + len <= usize::MAX,
        ensures
            r.wf(),
            r.bytes() == buffer@,
            r.bit_offset() == offset,
            r@ == bits_view(buffer@, offset as int, len as nat),
    {
        BitBuffer { buffer, len, offset }
    }

    /// Create a new `BitBuffer` of length `len` where all bits are set.
    pub fn new_set(len: usize) -> (r: Self)
        ensures
            r.wf(),
            r.bit_offset() == 0,
            r.bytes() == Seq::new(bytes_for(len as int) as nat, |i: int| 0xFFu8),
            r@ == Seq::new(len as nat, |i: int| true),
    {
        let words = div_ceil8(len);
        let buffer: Vec<u8> = vec![0xFFu8; words];
        proof {
            assert(buffer@ =~= Seq::new(bytes_for(len as int) as nat, |i: int| 0xFFu8));
            assert forall|i: int| 0 <= i < len implies #[trigger] buf_bit(buffer@, i) by {
                assert(buffer@[i / 8] == 0xFFu8);
                lemma_all_ones_bit((i % 8) as u8);
            }
        }
        let r = BitBuffer { buffer, len, offset: 0 };
        assert(r@ =~= Seq::new(len as nat, |i: int| true));
        r
    }

    /// Create a new `BitBuffer` of length `len` where all bits are unset.
    pub fn new_unset(len: usize) -> (r: Self)
        ensures
            r.wf(),
            r.bit_offset() == 0,
            r.bytes() == Seq::new(bytes_for(len as int) as nat, |i: int| 0u8),
            r@ == Seq::new(len as nat, |i: int| false),
    {
        let words = div_ceil8(len);
        let buffer: Vec<u8> = vec![0u8; words];
        proof {
            assert(buffer@ =~= Seq::new(bytes_for(len as int) as nat, |i: int| 0u8));
            assert forall|i: int| 0 <= i < len implies !#[trigger] buf_bit(buffer@, i) by {
                assert(buffer@[i / 8] == 0u8);
                lemma_zero_bit((i % 8) as u8);
            }
        }
        let r = BitBuffer { buffer, len, offset: 0 };
        assert(r@ =~= Seq::new(len as nat, |i: int| false));
        r
    }

    /// The logical length of this `BitBuffer`.
    pub fn len(&self) -> (r: usize)
        ensures
            r == self@.len(),
    {
        self.len
    }

    /// Returns `true` if the `BitBuffer` is empty.
    pub fn is_empty(&self) -> (r: bool)
        ensures
            r == (self@.len() == 0),
    {
        self.len == 0
    }

    /// Offset of the start of the buffer, in bits.
    pub fn offset(&self) -> (r: usize)
        ensures
            r == self.bit_offset(),
    {
        self.offset
    }

    /// The value at `index`.
    pub fn value(&self, index: usize) -> (r: bool)
        requires
            self.wf(),
            index < self@.len(),
        ensures
            r == self@[index as int],
    {
        let word_index = (self.offset + index) / 8;
        let bit_index = ((self.offset + index) % 8) as u8;
        let word = self.buffer[word_index];
        let bit = word & (1u8 << bit_index);
        proof {
            lemma_test_bit(word, bit_index);
        }
        bit != 0
    }

    /// A new zero-copy view of this `BitBuffer` that begins at `start` and extends for `len`
    /// bits.
    ///
    /// The slice must not extend beyond the end of this buffer.
    pub fn slice(&self, start: usize, len: usize) -> (r: Self)
        requires
            self.wf(),
            start + len <= self@.len(),
        ensures
            r.wf(),
            r.bytes() == self.bytes(),
            r.bit_offset() == self.bit_offset() + start,
            r@ == self@.subrange(start as int, start + len),
    {
        let r = BitBuffer { buffer: self.buffer.clone(), len, offset: self.offset + start };
        assert(r.buffer@ =~= self.buffer@);
        assert(r@ =~= self@.subrange(start as int, start + len));
        r
    }

    /// The number of set bits in view.
    pub fn true_count(&self) -> (r: usize)
        requires
            self.wf(),
        ensures
            r == count_true(self@),
    {
        if self.len == 0 {
            assert(self@.len() == 0);
            return 0;
        }
        let ghost v = self@;
        let start = self.offset;
        let end = self.offset + self.len;
        let first_word = start / 8;
        let last_word = (end - 1) / 8;
        let mut ones: usize = 0;
        let mut word = first_word;
        assert(v.subrange(0, 0) =~= Seq::<bool>::empty());
        while word <= last_word
            invariant
                self.wf(),
                v == self@,
                start == self.offset,
                end == start + self.len,
                self.len > 0,
                first_word == start / 8,
                last_word == (end - 1) / 8,
                first_word <= word <= last_word + 1,
                ones == count_true(
                    v.subrange(0, clamp(8 * word, start as int, end as int) - start),
                ),
            decreases last_word + 1 - word,
        {
            let lo: u8 = if word == first_word {
                (start % 8) as u8
            } else {
                0u8
            };
            let hi: u8 = if word == last_word {
                ((end - 1) % 8 + 1) as u8
            } else {
                8u8
            };
            let mask = (0xFFu8 << lo) & (0xFFu8 >> (8u8 - hi));
            let byte = self.buffer[word];
            let pc = popcount_u8(byte & mask);
            proof {
                assert(mask == range_mask(lo, hi));
                lemma_popcount_range_mask(byte, lo, hi);
                let d0 = clamp(8 * word, start as int, end as int) - start;
                let d1 = clamp(8 * (word + 1), start as int, end as int) - start;
                assert(d0 == 8 * word + lo - start);
                assert(d1 == 8 * word + hi - start);
                assert forall|j: int| d0 <= j < d1 implies #[trigger] v[j] == bit_of(
                    byte,
                    (lo + j - d0) as u8,
                ) by {
                    lemma_byte_position(word as int, lo + j - d0);
                }
                lemma_count_word(v, d0, byte, lo as int, hi - lo);
                lemma_count_true_le_len(v.subrange(0, d1));
            }
            ones = ones + pc as usize;
            word = word + 1;
        }
        assert(v.subrange(0, self.len as int) =~= v);
        ones
    }

    /// The number of unset bits in view.
    pub fn false_count(&self) -> (r: usize)
        requires
            self.wf(),
        ensures
            r == count_false(self@),
    {
        let t = self.true_count();
        proof {
            lemma_count_partition(self@);
        }
        self.len - t
    }

    /// Consumes this `BitBuffer` and returns the bytes that hold the bits in view: from the
    /// byte holding the first bit to the byte holding the last one.
    pub fn into_inner(self) -> (r: Vec<u8>)
        requires
            self.wf(),
        ensures
            r@ == self.bytes().subrange(
                (self.bit_offset() / 8) as int,
                bytes_for((self.bit_offset() + self@.len()) as int),
            ),
            bits_view(r@, (self.bit_offset() % 8) as int, self@.len()) == self@,
    {
        let word_start = self.offset / 8;
        let word_end = div_ceil8(self.offset + self.len);
        let ghost old_view = self@;
        let ghost bytes = self.buffer@;
        let ghost off = self.offset as int;
        let mut buffer = self.buffer;
        buffer.truncate(word_end);
        let r = buffer.split_off(word_start);
        proof {
            assert forall|i: int| 0 <= i < old_view.len() implies #[trigger] buf_bit(
                r@,
                off % 8 + i,
            ) == old_view[i] by {
                lemma_shifted_bit(bytes, r@, word_start as int, off, i);
            }
            assert(bits_view(r@, off % 8, old_view.len()) =~= old_view);
        }
        r
    }
}

/// Splitting the bits in view at `k` splits the set bits: those of `slice(0, k)` and those of
/// `slice(k, len - k)` add up to those of the whole view.
pub proof fn law_true_count_of_split(s: Seq<bool>, k: int)
    requires
        0 <= k <= s.len(),
    ensures
        count_true(s.subrange(0, k)) + count_true(s.subrange(k, s.len() as int)) == count_true(s),
{
    lemma_count_true_concat(s.subrange(0, k), s.subrange(k, s.len() as int));
    assert(s.subrange(0, k) + s.subrange(k, s.len() as int) =~= s);
}

/// The set and the unset bits in view account for every bit: `true_count() + false_count()`
/// is the length.
pub proof fn law_true_false_counts_cover(s: Seq<bool>)
    ensures
        count_true(s) + count_false(s) == s.len(),
{
    lemma_count_partition(s);
}

/// Position `8 * w + m` of a packed byte sequence is bit `m` of byte `w`.
proof fn lemma_byte_position(w: int, m: int)
    requires
        0 <= w,
        0 <= m < 8,
    ensures
        (8 * w + m) / 8 == w,
        (8 * w + m) % 8 == m,
{
}

/// Counting a run of `k` positions that all fall in one byte adds that byte's bit count.
proof fn lemma_count_word(v: Seq<bool>, a: int, b: u8, lo: int, k: int)
    requires
        0 <= a,
        0 <= k,
        a + k <= v.len(),
        0 <= lo,
        lo + k <= 8,
        forall|j: int| a <= j < a + k ==> #[trigger] v[j] == bit_of(b, (lo + j - a) as u8),
    ensures
        count_true(v.subrange(0, a + k)) == count_true(v.subrange(0, a)) + count_bits_in(
            b,
            lo,
            lo + k,
        ),
    decreases k,
{
    if k > 0 {
        lemma_count_word(v, a, b, lo, k - 1);
        lemma_count_true_prefix_step(v, a + k - 1);
        assert(v[a + k - 1] == bit_of(b, (lo + k - 1) as u8));
    }
}

/// Dropping whole leading bytes shifts bit positions by eight per byte.
proof fn lemma_shifted_bit(bytes: Seq<u8>, r: Seq<u8>, ws: int, off: int, i: int)
    requires
        0 <= ws,
        ws == off / 8,
        0 <= off,
        0 <= i,
        (off + i) / 8 < bytes.len(),
        r.len() >= (off + i) / 8 - ws + 1,
        forall|j: int| 0 <= j < r.len() ==> r[j] == bytes[ws + j],
    ensures
        buf_bit(r, off % 8 + i) == buf_bit(bytes, off + i),
{
    assert((off % 8 + i) / 8 == (off + i) / 8 - ws);
    assert((off % 8 + i) % 8 == (off + i) % 8);
}

} // verus!
