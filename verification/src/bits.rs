//! Bit-level model of packed byte buffers: which bit of which byte holds a
//! logical position, and how set bits are counted.

use vstd::prelude::*;

verus! {

/// Bit `k` (least significant first) of the byte `b`.
pub open spec fn bit_of(b: u8, k: u8) -> bool {
    (b >> k) & 1u8 == 1u8
}

/// Bit number `i` of a packed byte sequence: byte `i / 8`, bit `i % 8`.
pub open spec fn buf_bit(bytes: Seq<u8>, i: int) -> bool {
    bit_of(bytes[i / 8], (i % 8) as u8)
}

/// The bits `[start, start + len)` of a packed byte sequence.
pub open spec fn bits_view(bytes: Seq<u8>, start: int, len: nat) -> Seq<bool> {
    Seq::new(len, |i: int| buf_bit(bytes, start + i))
}

/// Number of bytes needed to hold `n` bits.
pub open spec fn bytes_for(n: int) -> int {
    (n + 7) / 8
}

/// 1 for `true`, 0 for `false`.
pub open spec fn ind(b: bool) -> nat {
    if b {
        1
    } else {
        0
    }
}

/// Number of `true` values in a sequence.
pub open spec fn count_true(s: Seq<bool>) -> nat
    decreases s.len(),
{
    if s.len() == 0 {
        0
    } else {
        count_true(s.drop_last()) + ind(s.last())
    }
}

/// Number of `false` values in a sequence.
pub open spec fn count_false(s: Seq<bool>) -> nat
    decreases s.len(),
{
    if s.len() == 0 {
        0
    } else {
        count_false(s.drop_last()) + ind(!s.last())
    }
}

/// Number of set bits of `b` among the positions `[lo, hi)`.
pub open spec fn count_bits_in(b: u8, lo: int, hi: int) -> nat
    decreases hi - lo,
{
    if hi <= lo {
        0
    } else {
        count_bits_in(b, lo, hi - 1) + ind(bit_of(b, (hi - 1) as u8))
    }
}

/// Number of set bits of a byte.
pub open spec fn popcount8(b: u8) -> nat {
    count_bits_in(b, 0, 8)
}

/// The byte mask that keeps the bit positions `[lo, hi)`.
pub open spec fn range_mask(lo: u8, hi: u8) -> u8 {
    (0xFFu8 << lo) & (0xFFu8 >> ((8 - hi) as u8))
}

/// Counting the `true` and the `false` values of a sequence accounts for every element.
pub proof fn lemma_count_partition(s: Seq<bool>)
    ensures
        count_true(s) + count_false(s) == s.len(),
    decreases s.len(),
{
    if s.len() > 0 {
        lemma_count_partition(s.drop_last());
    }
}

/// No more elements are `true` than there are elements.
pub proof fn lemma_count_true_le_len(s: Seq<bool>)
    ensures
        count_true(s) <= s.len(),
{
    lemma_count_partition(s);
}

/// Extending a prefix by one element adds that element's indicator.
pub proof fn lemma_count_true_prefix_step(s: Seq<bool>, j: int)
    requires
        0 <= j < s.len(),
    ensures
        count_true(s.subrange(0, j + 1)) == count_true(s.subrange(0, j)) + ind(s[j]),
{
    assert(s.subrange(0, j + 1).drop_last() =~= s.subrange(0, j));
}

/// Counting over a concatenation adds the two counts.
pub proof fn lemma_count_true_concat(a: Seq<bool>, b: Seq<bool>)
    ensures
        count_true(a + b) == count_true(a) + count_true(b),
    decreases b.len(),
{
    if b.len() > 0 {
        assert((a + b).drop_last() =~= a + b.drop_last());
        lemma_count_true_concat(a, b.drop_last());
    }
}

/// One bit of `x & range_mask(lo, hi)` is the bit of `x` when it lies in `[lo, hi)`, else 0.
pub proof fn lemma_range_mask_bit(x: u8, lo: u8, hi: u8, k: u8)
    by (bit_vector)
    requires
        lo < hi,
        hi <= 8,
        k < 8,
    ensures
        bit_of(x & range_mask(lo, hi), k) == (lo <= k && k < hi && bit_of(x, k)),
{
}

/// A single bit extracted by shift-and-mask is 0 or 1.
pub proof fn lemma_bit_value(x: u8, k: u8)
    by (bit_vector)
    requires
        k < 8,
    ensures
        (x >> k) & 1u8 == 1u8 || (x >> k) & 1u8 == 0u8,
{
}

/// Testing `w & (1 << k)` against zero reads bit `k` of `w`.
pub proof fn lemma_test_bit(w: u8, k: u8)
    by (bit_vector)
    requires
        k < 8,
    ensures
        ((w & (1u8 << k)) != 0u8) == bit_of(w, k),
{
}

/// `k` clamped into `[lo, hi]`.
pub open spec fn clamp(k: int, lo: int, hi: int) -> int {
    if k < lo {
        lo
    } else if k > hi {
        hi
    } else {
        k
    }
}

/// Counting the low `k` bits of a masked byte counts the bits of the byte in `[lo, clamp(k))`.
proof fn lemma_masked_prefix(x: u8, lo: u8, hi: u8, k: int)
    requires
        lo < hi,
        hi <= 8,
        0 <= k <= 8,
    ensures
        count_bits_in(x & range_mask(lo, hi), 0, k) == count_bits_in(
            x,
            lo as int,
            clamp(k, lo as int, hi as int),
        ),
    decreases k,
{
    if k > 0 {
        lemma_masked_prefix(x, lo, hi, k - 1);
        lemma_range_mask_bit(x, lo, hi, (k - 1) as u8);
        if k - 1 < lo {
            assert(count_bits_in(x, lo as int, lo as int) == 0);
        }
    }
}

/// Setting bit `b` of `w` leaves every other bit as it was.
pub proof fn lemma_set_bit(w: u8, b: u8, k: u8)
    by (bit_vector)
    requires
        b < 8,
        k < 8,
    ensures
        bit_of(w | (1u8 << b), k) == (k == b || bit_of(w, k)),
{
}

/// Clearing bit `b` of `w` leaves every other bit as it was.
pub proof fn lemma_clear_bit(w: u8, b: u8, k: u8)
    by (bit_vector)
    requires
        b < 8,
        k < 8,
    ensures
        bit_of(w & !(1u8 << b), k) == (k != b && bit_of(w, k)),
{
}

/// Or-ing with `!((1 << r) - 1)` sets the bits from `r` up.
pub proof fn lemma_set_high_bits(w: u8, r: u8, k: u8)
    by (bit_vector)
    requires
        0 < r < 8,
        k < 8,
    ensures
        bit_of(w | !((((1u8 << r) - 1u8) as u8)), k) == (k >= r || bit_of(w, k)),
{
}

/// And-ing with `(1 << r) - 1` clears the bits from `r` up.
pub proof fn lemma_keep_low_bits(w: u8, r: u8, k: u8)
    by (bit_vector)
    requires
        0 < r < 8,
        k < 8,
    ensures
        bit_of(w & (((1u8 << r) - 1u8) as u8), k) == (k < r && bit_of(w, k)),
{
}

/// Only bit 0 of the byte `1` is set.
pub proof fn lemma_one_bit(k: u8)
    by (bit_vector)
    requires
        k < 8,
    ensures
        bit_of(1u8, k) == (k == 0),
{
}

/// Every bit of `0xFF` is set.
pub proof fn lemma_all_ones_bit(k: u8)
    by (bit_vector)
    requires
        k < 8,
    ensures
        bit_of(0xFFu8, k),
{
}

/// No bit of `0` is set.
pub proof fn lemma_zero_bit(k: u8)
    by (bit_vector)
    requires
        k < 8,
    ensures
        !bit_of(0u8, k),
{
}

/// Counting the bits of a masked byte counts the bits of the byte inside the mask's range.
pub proof fn lemma_popcount_range_mask(x: u8, lo: u8, hi: u8)
    requires
        lo < hi,
        hi <= 8,
    ensures
        popcount8(x & range_mask(lo, hi)) == count_bits_in(x, lo as int, hi as int),
{
    lemma_masked_prefix(x, lo, hi, 8);
}

/// The number of set bits of a byte, computed bit by bit.
pub fn popcount_u8(x: u8) -> (r: u32)
    ensures
        r == popcount8(x),
{
    proof {
        lemma_bit_value(x, 0);
        lemma_bit_value(x, 1);
        lemma_bit_value(x, 2);
        lemma_bit_value(x, 3);
        lemma_bit_value(x, 4);
        lemma_bit_value(x, 5);
        lemma_bit_value(x, 6);
        lemma_bit_value(x, 7);
        reveal_with_fuel(count_bits_in, 9);
    }
    let b0 = ((x >> 0u8) & 1u8) as u32;
    let b1 = ((x >> 1u8) & 1u8) as u32;
    let b2 = ((x >> 2u8) & 1u8) as u32;
    let b3 = ((x >> 3u8) & 1u8) as u32;
    let b4 = ((x >> 4u8) & 1u8) as u32;
    let b5 = ((x >> 5u8) & 1u8) as u32;
    let b6 = ((x >> 6u8) & 1u8) as u32;
    let b7 = ((x >> 7u8) & 1u8) as u32;
    b0 + b1 + b2 + b3 + b4 + b5 + b6 + b7
}

/// Number of bytes needed to hold `n` bits (`n.div_ceil(8)`).
pub fn div_ceil8(n: usize) -> (r: usize)
    ensures
        r == bytes_for(n as int),
{
    n / 8 + if n % 8 != 0 {
        1usize
    } else {
        0usize
    }
}

} // verus!
