//! The checks and the choice made when an array hands out one of its children.

use vstd::prelude::*;

verus! {

/// How a child that was found is handed out.
#[derive(Clone, Copy, Debug, PartialEq, Eq)]
pub enum ChildPlan {
    /// The child as it is: the requested mask keeps every row.
    Whole,
    /// The child with its selection narrowed to the rows that the requested mask keeps.
    Select,
}

/// Why no child could be handed out.
#[derive(Clone, Copy, Debug, PartialEq, Eq)]
pub enum ChildError {
    /// The array has no child at this position.
    NotFound(usize),
}

/// Whether an array with `n_children` children (`None` when it holds no list of children) has
/// a child at position `index`.
pub open spec fn has_child(index: int, n_children: Option<usize>) -> bool {
    n_children matches Some(n) && index < n
}

/// Decide how to hand out the child at position `index` of an array with `n_children` children,
/// for a request whose type and mask length match the child's (`dtype_matches`, `len_matches`)
/// and whose mask keeps every row or not (`keep_all`). A missing child is an error; a child
/// whose type or length differs from the request's is an error in the caller, left out here.
pub fn child_plan(
    index: usize,
    n_children: Option<usize>,
    dtype_matches: bool,
    len_matches: bool,
    keep_all: bool,
) -> (r: Result<ChildPlan, ChildError>)
    requires
        has_child(index as int, n_children) ==> dtype_matches && len_matches,
    ensures
        r == if has_child(index as int, n_children) {
            Ok(
                if keep_all {
                    ChildPlan::Whole
                } else {
                    ChildPlan::Select
                },
            )
        } else {
            Err(ChildError::NotFound(index))
        },
{
    match n_children {
        Some(n) if index < n => {
            if keep_all {
                Ok(ChildPlan::Whole)
            } else {
                Ok(ChildPlan::Select)
            }
        },
        _ => Err(ChildError::NotFound(index)),
    }
}

} // verus!
