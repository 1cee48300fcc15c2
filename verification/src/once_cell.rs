//! The decision a once-initialized shared cell makes after its initializer has run.
//!
//! The cell keeps only a weak reference to its value, so that the value is freed once every
//! handle to it is gone; to keep a freshly made value alive until its first reader holds it,
//! the initializer takes one extra strong reference, which the first reader gives back.

use vstd::prelude::*;

verus! {

/// What a read of the cell does with the value it found.
#[derive(Clone, Copy, Debug, PartialEq, Eq)]
pub enum CellRead {
    /// The value is alive and this is its first reader: give back the initializer's extra
    /// reference, then hand the value out.
    ReleaseInitRefAndReturn,
    /// The value is alive and was handed out before: hand it out.
    Return,
    /// Every handle to the value was dropped: the cell can never be read again.
    ValueGone,
}

/// Decide what a read of the cell does, from whether its value is still alive and whether this
/// read is the one that switched the cell to populated.
pub fn read_outcome(value_alive: bool, first_reader: bool) -> (r: CellRead)
    ensures
        !value_alive ==> r == CellRead::ValueGone,
        value_alive && first_reader ==> r == CellRead::ReleaseInitRefAndReturn,
        value_alive && !first_reader ==> r == CellRead::Return,
{
    if !value_alive {
        CellRead::ValueGone
    } else if first_reader {
        CellRead::ReleaseInitRefAndReturn
    } else {
        CellRead::Return
    }
}

} // verus!
