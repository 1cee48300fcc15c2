//! Choosing how to filter an array by a selection mask.
//!
//! Filtering keeps the rows whose mask bit is set. An empty selection and a full selection
//! need no work on the data; otherwise the array's own filter kernel is used when its encoding
//! has one, a single selected row is read on its own when the encoding can read single rows,
//! and everything else goes through the generic columnar kernel.

use vstd::prelude::*;

use crate::bit_buffer::BitBuffer;
use crate::bits::count_true;

verus! {

/// How a filter is carried out.
#[derive(Clone, Copy, Debug, PartialEq, Eq)]
pub enum FilterPlan {
    /// No row is selected: the result is an empty array of the same type.
    Empty,
    /// Every row is selected: the result is the array itself.
    All,
    /// The encoding's own filter kernel does the work.
    Kernel,
    /// Exactly one row, at this index, is selected: it is read on its own.
    Single(usize),
    /// The generic columnar filter kernel does the work.
    Arrow,
}

/// Why a filter cannot be carried out.
#[derive(Clone, Copy, Debug, PartialEq, Eq)]
pub enum FilterError {
    /// The mask and the array differ in length.
    LengthMismatch { mask_len: usize, array_len: usize },
}

/// The position of the first `true` in `s`, if any.
pub open spec fn is_first_true(s: Seq<bool>, i: int) -> bool {
    0 <= i < s.len() && s[i] && forall|j: int| 0 <= j < i ==> !s[j]
}

/// A sequence with no `true` value counts none.
proof fn lemma_no_true(s: Seq<bool>)
    requires
        forall|j: int| 0 <= j < s.len() ==> !s[j],
    ensures
        count_true(s) == 0,
    decreases s.len(),
{
    if s.len() > 0 {
        lemma_no_true(s.drop_last());
    }
}

/// Choose how to filter an array of `array_len` rows by `mask`.
///
/// Fails when the mask and the array differ in length.
pub fn filter_plan(array_len: usize, mask: &BitBuffer, has_filter_kernel: bool, has_scalar_at: bool) -> (r: Result<FilterPlan, FilterError>)
    requires
        mask.wf(),
    ensures
        mask@.len() != array_len ==> r == Err::<FilterPlan, FilterError>(
            FilterError::LengthMismatch { mask_len: mask@.len() as usize, array_len },
        ),
        mask@.len() == array_len ==> {
            let t = count_true(mask@);
            if t == 0 {
                r == Ok::<FilterPlan, FilterError>(FilterPlan::Empty)
            } else if t == array_len {
                r == Ok::<FilterPlan, FilterError>(FilterPlan::All)
            } else if has_filter_kernel {
                r == Ok::<FilterPlan, FilterError>(FilterPlan::Kernel)
            } else if t == 1 && has_scalar_at {
                r matches Ok(FilterPlan::Single(i)) && is_first_true(mask@, i as int)
            } else {
                r == Ok::<FilterPlan, FilterError>(FilterPlan::Arrow)
            }
        },
{
    if mask.len() != array_len {
        return Err(FilterError::LengthMismatch { mask_len: mask.len(), array_len });
    }
    let true_count = mask.true_count();
    if true_count == 0 {
        return Ok(FilterPlan::Empty);
    }
    if true_count == mask.len() {
        return Ok(FilterPlan::All);
    }
    if has_filter_kernel {
        return Ok(FilterPlan::Kernel);
    }
    if true_count == 1 && has_scalar_at {
        let n = mask.len();
        let mut i: usize = 0;
        while i < n
            invariant
                mask.wf(),
                n == mask@.len(),
                n == array_len,
                !has_filter_kernel,
                has_scalar_at,
                count_true(mask@) != array_len,
                0 <= i <= n,
                count_true(mask@) == 1,
                forall|j: int| 0 <= j < i ==> !mask@[j],
            decreases n - i,
        {
            if mask.value(i) {
                return Ok(FilterPlan::Single(i));
            }
            i = i + 1;
        }
        proof {
            lemma_no_true(mask@);
        }
        return Ok(FilterPlan::Arrow);
    }
    Ok(FilterPlan::Arrow)
}

} // verus!
