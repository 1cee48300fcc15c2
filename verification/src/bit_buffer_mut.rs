//! A mutable bitset buffer with random access to single bits and appends at the end.

use vstd::prelude::*;

use crate::bit_buffer::BitBuffer;
use crate::bits::{
    bit_of, buf_bit, bits_view, bytes_for, div_ceil8, lemma_all_ones_bit, lemma_clear_bit,
    lemma_keep_low_bits, lemma_one_bit, lemma_set_bit, lemma_set_high_bits, lemma_test_bit,
    lemma_zero_bit,
};

verus! {

/// A mutable bitset buffer that allows random access to individual bits for set and get, and
/// appends up to a fixed capacity.
pub struct BitBufferMut {
    buffer: Vec<u8>,
    len: usize,
    capacity: usize,
}

impl View for BitBufferMut {
    type V = Seq<bool>;

    /// The `len` populated bits, from bit 0 of the backing bytes on.
    open spec fn view(&self) -> Seq<bool> {
        bits_view(self.bytes(), 0, self.spec_len())
    }
}

/// No bit at or past position `len` is set.
pub open spec fn tail_clear(bytes: Seq<u8>, len: int) -> bool {
    forall|i: int| len <= i < 8 * bytes.len() ==> !#[trigger] buf_bit(bytes, i)
}

/// `1 << r` is at least one for a shift within a byte.
proof fn lemma_shift_at_least_one(r: u8)
    by (bit_vector)
    requires
        r < 8,
    ensures
        (1u8 << r) >= 1u8,
{
}

/// Position `i` of a packed byte sequence lies in byte `i / 8` at bit `i % 8`.
proof fn lemma_position(i: int)
    requires
        0 <= i,
    ensures
        0 <= i / 8,
        0 <= i % 8 < 8,
        i == 8 * (i / 8) + i % 8,
{
}

impl BitBufferMut {
    /// The backing bytes.
    pub closed spec fn bytes(&self) -> Seq<u8> {
        self.buffer@
    }

    /// The number of populated bits.
    pub closed spec fn spec_len(&self) -> nat {
        self.len as nat
    }

    /// The number of bits the buffer can hold.
    pub closed spec fn spec_capacity(&self) -> nat {
        self.capacity as nat
    }

    /// The bytes hold exactly the populated bits, the length is within the capacity, and while
    /// there is room to append, no bit past the length is set.
    pub closed spec fn wf(&self) -> bool {
        &&& self.buffer@.len() == bytes_for(self.len as int)
        &&& self.len <= self.capacity
        &&& self.len < self.capacity ==> tail_clear(self.buffer@, self.len as int)
    }

    /// Create a new empty mutable bit buffer with room for `capacity` bits.
    pub fn new(capacity: usize) -> (r: Self)
        ensures
            r.wf(),
            r@ == Seq::<bool>::empty(),
            r.spec_capacity() == capacity,
    {
        let r = BitBufferMut { buffer: Vec::with_capacity(div_ceil8(capacity)), len: 0, capacity };
        assert(r@ =~= Seq::<bool>::empty());
        r
    }

    /// Create a new mutable buffer of length `len` with all bits set.
    pub fn new_set(len: usize) -> (r: Self)
        ensures
            r.wf(),
            r@ == Seq::new(len as nat, |i: int| true),
            r.spec_capacity() == len,
    {
        let buffer: Vec<u8> = vec![0xFFu8; div_ceil8(len)];
        proof {
            assert forall|i: int| 0 <= i < len implies #[trigger] buf_bit(buffer@, i) by {
                lemma_position(i);
                assert(buffer@[i / 8] == 0xFFu8);
                lemma_all_ones_bit((i % 8) as u8);
            }
        }
        let r = BitBufferMut { buffer, capacity: len, len };
        assert(r@ =~= Seq::new(len as nat, |i: int| true));
        r
    }

    /// Create a new mutable buffer of length `len` with all bits unset.
    pub fn new_unset(len: usize) -> (r: Self)
        ensures
            r.wf(),
            r@ == Seq::new(len as nat, |i: int| false),
            r.spec_capacity() == len,
    {
        let buffer: Vec<u8> = vec![0u8; div_ceil8(len)];
        proof {
            assert forall|i: int| 0 <= i < len implies !#[trigger] buf_bit(buffer@, i) by {
                lemma_position(i);
                assert(buffer@[i / 8] == 0u8);
                lemma_zero_bit((i % 8) as u8);
            }
        }
        let r = BitBufferMut { buffer, capacity: len, len };
        assert(r@ =~= Seq::new(len as nat, |i: int| false));
        r
    }

    /// The current populated length of the buffer.
    pub fn len(&self) -> (r: usize)
        ensures
            r == self@.len(),
    {
        self.len
    }

    /// True if the buffer has length 0.
    pub fn is_empty(&self) -> (r: bool)
        ensures
            r == (self@.len() == 0),
    {
        self.len == 0
    }

    /// The value at `index`.
    pub fn value(&self, index: usize) -> (r: bool)
        requires
            self.wf(),
            index < self@.len(),
        ensures
            r == self@[index as int],
    {
        proof {
            lemma_position(index as int);
        }
        let word = self.buffer[index / 8];
        let bit = (index % 8) as u8;
        proof {
            lemma_test_bit(word, bit);
        }
        word & (1u8 << bit) != 0
    }

    /// Set the bit at `index` to `value`.
    pub fn set_to(&mut self, index: usize, value: bool)
        requires
            old(self).wf(),
            index < old(self)@.len(),
        ensures
            final(self).wf(),
            final(self)@ == old(self)@.update(index as int, value),
            final(self).spec_capacity() == old(self).spec_capacity(),
    {
        if value {
            self.set(index);
        } else {
            self.unset(index);
        }
    }

    /// Set the bit at `index` to `true`.
    pub fn set(&mut self, index: usize)
        requires
            old(self).wf(),
            index < old(self)@.len(),
        ensures
            final(self).wf(),
            final(self)@ == old(self)@.update(index as int, true),
            final(self).spec_capacity() == old(self).spec_capacity(),
    {
        let ghost old_bytes = self.buffer@;
        let ghost old_view = self@;
        proof {
            lemma_position(index as int);
        }
        let word_index = index / 8;
        let bit = (index % 8) as u8;
        let word = self.buffer[word_index];
        self.buffer.set(word_index, word | (1u8 << bit));
        proof {
            assert forall|i: int| 0 <= i < 8 * old_bytes.len() implies #[trigger] buf_bit(
                self.buffer@,
                i,
            ) == (i == index || buf_bit(old_bytes, i)) by {
                lemma_position(i);
                if i / 8 == word_index {
                    lemma_set_bit(word, bit, (i % 8) as u8);
                }
            }
            assert(self@ =~= old_view.update(index as int, true));
        }
    }

    /// Set the bit at `index` to `false`.
    pub fn unset(&mut self, index: usize)
        requires
            old(self).wf(),
            index < old(self)@.len(),
        ensures
            final(self).wf(),
            final(self)@ == old(self)@.update(index as int, false),
            final(self).spec_capacity() == old(self).spec_capacity(),
    {
        let ghost old_bytes = self.buffer@;
        let ghost old_view = self@;
        proof {
            lemma_position(index as int);
        }
        let word_index = index / 8;
        let bit = (index % 8) as u8;
        let word = self.buffer[word_index];
        self.buffer.set(word_index, word & !(1u8 << bit));
        proof {
            assert forall|i: int| 0 <= i < 8 * old_bytes.len() implies #[trigger] buf_bit(
                self.buffer@,
                i,
            ) == (i != index && buf_bit(old_bytes, i)) by {
                lemma_position(i);
                if i / 8 == word_index {
                    lemma_clear_bit(word, bit, (i % 8) as u8);
                }
            }
            assert(self@ =~= old_view.update(index as int, false));
        }
    }

    /// Append a value at the end, incrementing the length.
    ///
    /// The buffer must have room left.
    pub fn append(&mut self, value: bool)
        requires
            old(self).wf(),
            old(self)@.len() < old(self).spec_capacity(),
        ensures
            final(self).wf(),
            final(self)@ == old(self)@.push(value),
            final(self).spec_capacity() == old(self).spec_capacity(),
    {
        if value {
            self.append_true()
        } else {
            self.append_false()
        }
    }

    /// Append a `true` value at the end.
    ///
    /// The buffer must have room left.
    pub fn append_true(&mut self)
        requires
            old(self).wf(),
            old(self)@.len() < old(self).spec_capacity(),
        ensures
            final(self).wf(),
            final(self)@ == old(self)@.push(true),
            final(self).spec_capacity() == old(self).spec_capacity(),
    {
        let ghost old_bytes = self.buffer@;
        let ghost old_view = self@;
        let ghost l = self.len as int;
        if self.len % 8 == 0 {
            self.buffer.push(1u8);
            proof {
                assert forall|i: int| 0 <= i < 8 * self.buffer@.len() implies #[trigger] buf_bit(
                    self.buffer@,
                    i,
                ) == if i < l {
                    buf_bit(old_bytes, i)
                } else {
                    i == l
                } by {
                    lemma_position(i);
                    if i / 8 == old_bytes.len() {
                        lemma_one_bit((i % 8) as u8);
                    }
                }
            }
        } else {
            let last = self.buffer.len() - 1;
            let bit = (self.len % 8) as u8;
            let w = self.buffer[last];
            self.buffer.set(last, w | (1u8 << bit));
            proof {
                assert forall|i: int| 0 <= i < 8 * self.buffer@.len() implies #[trigger] buf_bit(
                    self.buffer@,
                    i,
                ) == if i < l {
                    buf_bit(old_bytes, i)
                } else {
                    i == l
                } by {
                    lemma_position(i);
                    if i / 8 == last {
                        lemma_set_bit(w, bit, (i % 8) as u8);
                    }
                    if i >= l {
                        assert(!buf_bit(old_bytes, i));
                    }
                }
            }
        }
        self.len = self.len + 1;
        assert(self@ =~= old_view.push(true));
    }

    /// Append a `false` value at the end.
    ///
    /// The buffer must have room left.
    pub fn append_false(&mut self)
        requires
            old(self).wf(),
            old(self)@.len() < old(self).spec_capacity(),
        ensures
            final(self).wf(),
            final(self)@ == old(self)@.push(false),
            final(self).spec_capacity() == old(self).spec_capacity(),
    {
        let ghost old_bytes = self.buffer@;
        let ghost old_view = self@;
        let ghost l = self.len as int;
        if self.len % 8 == 0 {
            self.buffer.push(0u8);
            proof {
                assert forall|i: int| 0 <= i < 8 * self.buffer@.len() implies #[trigger] buf_bit(
                    self.buffer@,
                    i,
                ) == (i < l && buf_bit(old_bytes, i)) by {
                    lemma_position(i);
                    if i / 8 == old_bytes.len() {
                        lemma_zero_bit((i % 8) as u8);
                    }
                }
            }
        } else {
            proof {
                assert forall|i: int| 0 <= i < 8 * self.buffer@.len() implies #[trigger] buf_bit(
                    self.buffer@,
                    i,
                ) == (i < l && buf_bit(old_bytes, i)) by {
                    lemma_position(i);
                }
            }
        }
        self.len = self.len + 1;
        assert(self@ =~= old_view.push(false));
    }

    /// Append `n` copies of `value` at the end; the length grows by `n`.
    ///
    /// The buffer must have room for `n` more values.
    pub fn append_n(&mut self, value: bool, n: usize)
        requires
            old(self).wf(),
            old(self)@.len() + n <= old(self).spec_capacity(),
        ensures
            final(self).wf(),
            final(self)@ == old(self)@ + Seq::new(n as nat, |i: int| value),
            final(self).spec_capacity() == old(self).spec_capacity(),
    {
        let ghost old_bytes = self.buffer@;
        let ghost old_view = self@;
        let ghost l = self.len as int;
        let new_len = self.len + n;
        let new_len_bytes = div_ceil8(new_len);
        let ghost nl = new_len as int;
        if value {
            let cur_remainder = self.len % 8;
            let new_remainder = new_len % 8;
            if cur_remainder != 0 {
                let last = self.buffer.len() - 1;
                let w = self.buffer[last];
                let r = cur_remainder as u8;
                proof {
                    lemma_shift_at_least_one(r);
                }
                self.buffer.set(last, w | !((1u8 << r) - 1u8));
                proof {
                    assert forall|i: int| 0 <= i < 8 * old_bytes.len() implies #[trigger] buf_bit(
                        self.buffer@,
                        i,
                    ) == if i < l {
                        buf_bit(old_bytes, i)
                    } else {
                        true
                    } by {
                        lemma_position(i);
                        if i / 8 == last {
                            lemma_set_high_bits(w, r, (i % 8) as u8);
                        }
                    }
                }
            }
            let ghost b1 = self.buffer@;
            assert(forall|i: int|
                0 <= i < 8 * b1.len() ==> #[trigger] buf_bit(b1, i) == if i < l {
                    buf_bit(old_bytes, i)
                } else {
                    true
                });
            if new_len_bytes > self.buffer.len() {
                self.buffer.resize(new_len_bytes, 0xFFu8);
            }
            let ghost b2 = self.buffer@;
            proof {
                assert(b2.len() == bytes_for(nl));
                assert forall|i: int| 0 <= i < 8 * b2.len() implies #[trigger] buf_bit(b2, i)
                    == if i < l {
                    buf_bit(old_bytes, i)
                } else {
                    true
                } by {
                    lemma_position(i);
                    if i / 8 >= b1.len() {
                        assert(b2[i / 8] == 0xFFu8);
                        lemma_all_ones_bit((i % 8) as u8);
                    } else {
                        assert(b2[i / 8] == b1[i / 8]);
                        assert(buf_bit(b1, i) == buf_bit(b2, i));
                    }
                }
            }
            if new_remainder > 0 {
                let last = self.buffer.len() - 1;
                let w = self.buffer[last];
                let r = new_remainder as u8;
                proof {
                    lemma_shift_at_least_one(r);
                }
                self.buffer.set(last, w & ((1u8 << r) - 1u8));
                proof {
                    lemma_position(nl);
                    assert(last == nl / 8);
                    assert(nl == 8 * last + r);
                    assert forall|i: int| 0 <= i < 8 * b2.len() implies #[trigger] buf_bit(
                        self.buffer@,
                        i,
                    ) == if i < l {
                        buf_bit(old_bytes, i)
                    } else {
                        i < nl
                    } by {
                        lemma_position(i);
                        assert(buf_bit(b2, i) == if i < l {
                            buf_bit(old_bytes, i)
                        } else {
                            true
                        });
                        if i / 8 == last {
                            lemma_keep_low_bits(w, r, (i % 8) as u8);
                            assert(w == b2[i / 8]);
                            assert(self.buffer@[i / 8] == w & (((1u8 << r) - 1u8) as u8));
                            assert(((i % 8) as u8) < r <==> i < nl);
                        } else {
                            assert(self.buffer@[i / 8] == b2[i / 8]);
                            assert(i < nl);
                        }
                    }
                }
            }
        } else {
            if new_len_bytes > self.buffer.len() {
                self.buffer.resize(new_len_bytes, 0u8);
            }
            proof {
                assert forall|i: int| 0 <= i < 8 * self.buffer@.len() implies #[trigger] buf_bit(
                    self.buffer@,
                    i,
                ) == (i < 8 * old_bytes.len() && buf_bit(old_bytes, i)) by {
                    lemma_position(i);
                    if i / 8 >= old_bytes.len() {
                        assert(self.buffer@[i / 8] == 0u8);
                        lemma_zero_bit((i % 8) as u8);
                    } else {
                        assert(self.buffer@[i / 8] == old_bytes[i / 8]);
                    }
                }
                if n > 0 {
                    assert(tail_clear(old_bytes, l));
                }
            }
        }
        self.len = new_len;
        assert(self@ =~= old_view + Seq::new(n as nat, |i: int| value));
    }

    /// Freeze the buffer in its current state into an immutable `BitBuffer`.
    pub fn freeze(self) -> (r: BitBuffer)
        requires
            self.wf(),
        ensures
            r.wf(),
            r@ == self@,
            r.bytes() == self.bytes(),
            r.bit_offset() == 0,
    {
        BitBuffer::new(self.buffer, self.len)
    }
}

/// `n` single pushes of `value` onto `s`.
pub open spec fn repeated_push(s: Seq<bool>, value: bool, n: nat) -> Seq<bool>
    decreases n,
{
    if n == 0 {
        s
    } else {
        repeated_push(s, value, (n - 1) as nat).push(value)
    }
}

/// Appending `n` copies of a value at once (`append_n`) leaves the same bits as appending it
/// `n` times, one at a time (`append`).
pub proof fn law_append_n_is_repeated_append(s: Seq<bool>, value: bool, n: nat)
    ensures
        repeated_push(s, value, n) == s + Seq::new(n, |i: int| value),
    decreases n,
{
    if n > 0 {
        law_append_n_is_repeated_append(s, value, (n - 1) as nat);
        assert(s + Seq::new(n, |i: int| value) =~= (s + Seq::new((n - 1) as nat, |i: int| value)).push(
            value,
        ));
    } else {
        assert(s + Seq::new(0, |i: int| value) =~= s);
    }
}

} // verus!
