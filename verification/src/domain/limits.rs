//! The range of the machine integers that the character sheet is kept in.

use vstd::prelude::*;

verus! {

/// Whether `value` can be held in an `isize`.
pub open spec fn fits_isize(value: int) -> bool {
    isize::MIN <= value <= isize::MAX
}

} // verus!
