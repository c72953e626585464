use vstd::prelude::*;

verus! {

/// Why an allocator operation did not do what was asked.
#[derive(Clone, Copy, Debug, PartialEq, Eq, Structural)]
pub enum AllocError {
    /// No block of sufficient size is available in the tier that was asked.
    Exhausted,
    /// The block handed back does not lie inside the managed region.
    OutOfRange,
    /// A size class cannot host a free-list link, or the table is not
    /// strictly increasing powers of two.
    MisconfiguredClass,
}

} // verus!
