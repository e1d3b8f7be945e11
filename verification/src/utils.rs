//! Small shared value types.

use vstd::prelude::*;

verus! {

/// An inclusive range of values, such as the bounds for a number of simultaneous sounds.
#[derive(Copy, Clone, Debug, PartialEq, Eq)]
pub struct Range<T> {
    pub min: T,
    pub max: T,
}

} // verus!
