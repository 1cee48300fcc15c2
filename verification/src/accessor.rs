//! Iteration over the values of an array in fixed-size blocks.

use vstd::prelude::*;

verus! {

/// Iteration over the values of an array in blocks of `BLOCK_SIZE` values.
///
/// Each call to `next` yields either a full block (`Ok`) or a shorter run of values (`Err`),
/// and `None` once the values are exhausted.
pub trait ArrayValueIterator<const BLOCK_SIZE: usize> {
    /// The type of the values.
    type Item;

    /// How far the iteration has gone; an iterator that states nothing of its steps reports
    /// no progress.
    open spec fn progress(&self) -> int {
        0
    }

    /// Whether a call of `next` on `self` may return `r` and leave the iteration at progress
    /// `after`; an iterator that states nothing of its steps admits every result.
    open spec fn next_result(
        &self,
        after: int,
        r: Option<Result<&[Self::Item; BLOCK_SIZE], &[Self::Item]>>,
    ) -> bool {
        true
    }

    /// The next block of values.
    fn next(&mut self) -> (r: Option<Result<&[Self::Item; BLOCK_SIZE], &[Self::Item]>>)
        ensures
            old(self).next_result(final(self).progress(), r),
    ;
}

impl<I, const BLOCK_SIZE: usize> ArrayValueIterator<BLOCK_SIZE> for Box<I> where
    I: ArrayValueIterator<BLOCK_SIZE> + ?Sized,
 {
    type Item = I::Item;

    /// A boxed iterator has gone as far as the iterator inside it.
    open spec fn progress(&self) -> int {
        (**self).progress()
    }

    /// A boxed iterator steps as the iterator inside it does.
    open spec fn next_result(
        &self,
        after: int,
        r: Option<Result<&[Self::Item; BLOCK_SIZE], &[Self::Item]>>,
    ) -> bool {
        (**self).next_result(after, r)
    }

    fn next(&mut self) -> (r: Option<Result<&[Self::Item; BLOCK_SIZE], &[Self::Item]>>)
        ensures
            (**old(self)).next_result((**final(self)).progress(), r),
    {
        (**self).next()
    }
}

/// A run of exactly `N` values as a fixed-size array: `<&[T; N]>::try_from`, which succeeds
/// exactly when the slice holds `N` values.
#[verifier::external_body]
pub(crate) fn slice_as_array<T, const N: usize>(s: &[T]) -> (r: Option<&[T; N]>)
    ensures
        r is Some <==> s@.len() == N,
        r matches Some(a) ==> a@ == s@,
{
    <&[T; N]>::try_from(s).ok()
}

/// The ranges of positions that block iteration from `pos` hands out, for blocks of `b` values:
/// full blocks while more than `b` values remain, then the rest.
pub open spec fn block_ranges(pos: int, len: int, b: int) -> Seq<(int, int)>
    decreases len - pos,
{
    if b <= 0 || pos >= len {
        Seq::empty()
    } else if pos + b < len {
        seq![(pos, pos + b)] + block_ranges(pos + b, len, b)
    } else {
        seq![(pos, len)]
    }
}

/// Block iteration hands out every value once, in order: for a positive block size, the
/// ranges handed out from `pos` follow each other without gap or overlap, from `pos` to the
/// last value, and none is longer than a block.
pub proof fn law_blocks_cover_values(pos: int, len: int, b: int)
    requires
        b > 0,
        0 <= pos <= len,
    ensures
        ({
            let rs = block_ranges(pos, len, b);
            &&& (rs.len() == 0 <==> pos == len)
            &&& rs.len() > 0 ==> rs[0].0 == pos && rs.last().1 == len
            &&& forall|i: int| 0 <= i < rs.len() - 1 ==> #[trigger] rs[i].1 == rs[i + 1].0
            &&& forall|i: int| 0 <= i < rs.len() ==> #[trigger] rs[i].0 < rs[i].1 && rs[i].1 - rs[i].0 <= b
        }),
    decreases len - pos,
{
    let rs = block_ranges(pos, len, b);
    if pos < len && pos + b < len {
        let tail = block_ranges(pos + b, len, b);
        law_blocks_cover_values(pos + b, len, b);
        assert(rs == seq![(pos, pos + b)] + tail);
        assert forall|i: int| 0 <= i < rs.len() - 1 implies #[trigger] rs[i].1 == rs[i + 1].0 by {
            if i > 0 {
                assert(rs[i] == tail[i - 1]);
                assert(rs[i + 1] == tail[i]);
            }
        }
        assert forall|i: int| 0 <= i < rs.len() implies #[trigger] rs[i].0 < rs[i].1 && rs[i].1 - rs[i].0 <= b by {
            if i > 0 {
                assert(rs[i] == tail[i - 1]);
            }
        }
    }
}

/// Block iteration from `pos` hands out `ceil((len - pos) / b)` items, every one but the last
/// a full block: each range but the last is `b` values long and leaves more than `b` values
/// from its start, so `next` hands it out as `Ok`; the last leaves at most `b`, so `next` hands
/// it out as the rest (`Err`).
pub proof fn law_blocks_count_and_rest(pos: int, len: int, b: int)
    requires
        b > 0,
        0 <= pos <= len,
    ensures
        ({
            let rs = block_ranges(pos, len, b);
            &&& rs.len() == (len - pos + b - 1) / b
            &&& forall|i: int|
                0 <= i < rs.len() - 1 ==> #[trigger] rs[i].1 - rs[i].0 == b && rs[i].0 + b < len
            &&& rs.len() > 0 ==> rs.last().0 + b >= len
        }),
    decreases len - pos,
{
    let rs = block_ranges(pos, len, b);
    let x = len - pos;
    if pos == len {
        assert((x + b - 1) / b == 0) by (nonlinear_arith)
            requires
                x == 0,
                b > 0,
        ;
    } else if pos + b < len {
        let tail = block_ranges(pos + b, len, b);
        law_blocks_count_and_rest(pos + b, len, b);
        assert(rs == seq![(pos, pos + b)] + tail);
        vstd::arithmetic::div_mod::lemma_div_plus_one(x - 1, b);
        assert((x + b - 1) / b == (x - b + b - 1) / b + 1);
        assert forall|i: int| 0 <= i < rs.len() - 1 implies #[trigger] rs[i].1 - rs[i].0 == b
            && rs[i].0 + b < len by {
            if i > 0 {
                assert(rs[i] == tail[i - 1]);
            }
        }
    } else {
        assert((x + b - 1) / b == 1) by (nonlinear_arith)
            requires
                0 < x <= b,
        ;
    }
}

/// The values of `vals` in the ranges `rs`, one range after the other.
pub open spec fn values_in_ranges<T>(vals: Seq<T>, rs: Seq<(int, int)>) -> Seq<T>
    decreases rs.len(),
{
    if rs.len() == 0 {
        Seq::empty()
    } else {
        vals.subrange(rs[0].0, rs[0].1) + values_in_ranges(vals, rs.drop_first())
    }
}

/// Joined one after the other, the blocks that block iteration hands out from `pos` are the
/// values of the array from `pos` to the end.
pub proof fn law_blocks_join_to_values<T>(vals: Seq<T>, pos: int, b: int)
    requires
        b > 0,
        0 <= pos <= vals.len(),
    ensures
        values_in_ranges(vals, block_ranges(pos, vals.len() as int, b)) == vals.subrange(
            pos,
            vals.len() as int,
        ),
    decreases vals.len() - pos,
{
    let len = vals.len() as int;
    let rs = block_ranges(pos, len, b);
    if pos == len {
        assert(vals.subrange(pos, len) =~= Seq::<T>::empty());
    } else if pos + b < len {
        let tail = block_ranges(pos + b, len, b);
        law_blocks_join_to_values(vals, pos + b, b);
        assert(rs == seq![(pos, pos + b)] + tail);
        assert(rs[0] == (pos, pos + b));
        assert(rs.drop_first() =~= tail);
        assert(vals.subrange(pos, pos + b) + vals.subrange(pos + b, len) =~= vals.subrange(pos, len));
    } else {
        assert(rs[0] == (pos, len));
        assert(rs.drop_first() =~= Seq::<(int, int)>::empty());
        assert(values_in_ranges(vals, rs.drop_first()) == Seq::<T>::empty());
        assert(vals.subrange(pos, len) + Seq::<T>::empty() =~= vals.subrange(pos, len));
    }
}

/// One step of block iteration over `vals` from position `p` to position `q`:
/// `None` at the end; a full block while more than `BLOCK_SIZE` values remain; else the rest.
pub open spec fn block_step<T, const BLOCK_SIZE: usize>(
    vals: Seq<T>,
    p: nat,
    q: int,
    r: Option<Result<&[T; BLOCK_SIZE], &[T]>>,
) -> bool {
    &&& p >= vals.len() ==> r is None && q == p
    &&& p < vals.len() && p + BLOCK_SIZE < vals.len() ==> (r matches Some(Ok(block)) && block@
        == vals.subrange(p as int, p + BLOCK_SIZE) && q == p + BLOCK_SIZE)
    &&& p < vals.len() && p + BLOCK_SIZE >= vals.len() ==> (r matches Some(Err(rest)) && rest@
        == vals.subrange(p as int, vals.len() as int) && q == vals.len())
}

/// An array of primitive values.
pub struct PrimitiveArray<T> {
    values: Vec<T>,
}

impl<T> View for PrimitiveArray<T> {
    type V = Seq<T>;

    closed spec fn view(&self) -> Seq<T> {
        self.values@
    }
}

impl<T> PrimitiveArray<T> {
    /// The array holding `values`, in order.
    pub fn from_vec(values: Vec<T>) -> (r: Self)
        ensures
            r@ == values@,
    {
        PrimitiveArray { values }
    }

    /// The values of this array.
    pub fn as_slice(&self) -> (r: &[T])
        ensures
            r@ == self@,
    {
        self.values.as_slice()
    }

    /// An iterator over the values of this array in blocks of `BLOCK_SIZE`.
    pub fn iter_blocks<const BLOCK_SIZE: usize>(&self) -> (r: PrimitiveArrayBlockIter<
        '_,
        T,
        BLOCK_SIZE,
    >)
        ensures
            r.values() == self@,
            r.position() == 0,
    {
        PrimitiveArrayBlockIter { slice: self.values.as_slice(), pos: 0 }
    }
}

/// An iterator over the values of a primitive array in blocks of `BLOCK_SIZE`.
pub struct PrimitiveArrayBlockIter<'a, T, const BLOCK_SIZE: usize> {
    slice: &'a [T],
    pos: usize,
}

impl<'a, T, const BLOCK_SIZE: usize> PrimitiveArrayBlockIter<'a, T, BLOCK_SIZE> {
    /// The values iterated over.
    pub closed spec fn values(&self) -> Seq<T> {
        self.slice@
    }

    /// The number of values already yielded.
    pub closed spec fn position(&self) -> nat {
        self.pos as nat
    }

    /// The ranges of positions the remaining calls of `next` hand out.
    pub open spec fn remaining_ranges(&self) -> Seq<(int, int)> {
        block_ranges(self.position() as int, self.values().len() as int, BLOCK_SIZE as int)
    }
}

impl<'a, T, const BLOCK_SIZE: usize> ArrayValueIterator<BLOCK_SIZE> for PrimitiveArrayBlockIter<
    'a,
    T,
    BLOCK_SIZE,
> {
    type Item = T;

    /// The number of values already handed out.
    open spec fn progress(&self) -> int {
        self.position() as int
    }

    /// The block handed out and the new position are as `block_step` says.
    open spec fn next_result(&self, after: int, r: Option<Result<&[T; BLOCK_SIZE], &[T]>>) -> bool {
        block_step(self.values(), self.position(), after, r)
    }

    /// The next block: `BLOCK_SIZE` values while more than `BLOCK_SIZE` remain, then the rest
    /// (which may itself be `BLOCK_SIZE` long), then `None`.
    fn next(&mut self) -> (r: Option<Result<&[T; BLOCK_SIZE], &[T]>>)
        ensures
            ({
                let vals = old(self).values();
                let p = old(self).position();
                &&& final(self).values() == vals
                &&& BLOCK_SIZE > 0 && p < vals.len() ==> old(self).remaining_ranges().len() > 0
                    && old(self).remaining_ranges()[0] == (p as int, final(self).position() as int)
                    && final(self).remaining_ranges() == old(self).remaining_ranges().drop_first()
                &&& p >= vals.len() ==> r is None && final(self).position() == p
                &&& p < vals.len() && p + BLOCK_SIZE < vals.len() ==> (r matches Some(Ok(block))
                    && block@ == vals.subrange(p as int, p + BLOCK_SIZE) && final(self).position()
                    == p + BLOCK_SIZE)
                &&& p < vals.len() && p + BLOCK_SIZE >= vals.len() ==> (r matches Some(Err(rest))
                    && rest@ == vals.subrange(p as int, vals.len() as int) && final(self).position()
                    == vals.len())
            }),
    {
        if self.pos >= self.slice.len() {
            return None;
        }
        if BLOCK_SIZE < self.slice.len() - self.pos {
            let res = &self.slice[self.pos..self.pos + BLOCK_SIZE];
            self.pos = self.pos + BLOCK_SIZE;
            match slice_as_array::<T, BLOCK_SIZE>(res) {
                Some(block) => Some(Ok(block)),
                None => None,
            }
        } else {
            let pos = self.pos;
            self.pos = self.slice.len();
            Some(Err(&self.slice[pos..self.slice.len()]))
        }
    }
}

} // verus!
