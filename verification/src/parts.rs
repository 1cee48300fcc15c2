//! The split of a buffer into the parts of a multipart upload.

use vstd::prelude::*;

verus! {

/// The largest part of a multipart upload, in bytes: 25 MiB.
pub const PART_SIZE: usize = 25 * 1024 * 1024;

/// The `i`-th part of a buffer of `len` bytes cut into parts of `part` bytes: from `i * part`
/// to `(i + 1) * part`, or to the end of the buffer for the last, shorter part.
pub open spec fn part_range(i: int, part: int, len: int) -> (int, int) {
    (i * part, if (i + 1) * part < len {
        (i + 1) * part
    } else {
        len
    })
}

/// A count `k` of parts of `part` bytes that reaches exactly the end of `len` bytes, or passes
/// it with its last part only, is the number of parts needed: `ceil(len / part)`.
proof fn lemma_part_count(k: int, part: int, len: int)
    requires
        part > 0,
        len >= 0,
        k >= 0,
        k * part == len || (k > 0 && (k - 1) * part < len < k * part),
    ensures
        k == (len + part - 1) / part,
{
    vstd::arithmetic::mul::lemma_mul_is_distributive_add_other_way(part, k - 1, 1);
    let r = len + part - 1 - k * part;
    vstd::arithmetic::div_mod::lemma_fundamental_div_mod_converse(len + part - 1, part, k, r);
}

/// The ranges `[begin, end)` of the parts that a buffer of `len` bytes is uploaded in, in order:
/// parts of `part` bytes, the last one holding what is left.
pub fn part_ranges(len: usize, part: usize) -> (r: Vec<(usize, usize)>)
    requires
        part > 0,
    ensures
        r@.len() == (len + part - 1) / part as int,
        forall|i: int|
            0 <= i < r@.len() ==> (#[trigger] r@[i].0 as int, r@[i].1 as int) == part_range(
                i,
                part as int,
                len as int,
            ),
{
    let mut r: Vec<(usize, usize)> = Vec::new();
    let mut start: usize = 0;
    assert(r@.len() * part == 0) by (nonlinear_arith)
        requires
            r@.len() == 0,
    ;
    while start < len
        invariant
            part > 0,
            start <= len,
            start == r@.len() * part || (start == len && r@.len() > 0 && (r@.len() - 1) * part
                < len < r@.len() * part),
            forall|i: int|
                0 <= i < r@.len() ==> (#[trigger] r@[i].0 as int, r@[i].1 as int) == part_range(
                    i,
                    part as int,
                    len as int,
                ),
        decreases len - start,
    {
        let ghost k = r@.len() as int;
        let n: usize = if len - start < part {
            len - start
        } else {
            part
        };
        proof {
            vstd::arithmetic::mul::lemma_mul_is_distributive_add_other_way(part as int, k, 1);
            assert((k + 1) * part == k * part + part);
        }
        r.push((start, start + n));
        start = start + n;
    }
    proof {
        lemma_part_count(r@.len() as int, part as int, len as int);
    }
    r
}

} // verus!
