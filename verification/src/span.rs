use vstd::prelude::*;

verus! {

/// The addresses `[addr, addr + size)` of a block.
pub open spec fn block(addr: int, size: int) -> Set<int> {
    Set::new(|a: int| addr <= a < addr + size)
}

/// A block with at least one byte that lies within another starts and ends
/// within it.
pub proof fn lemma_block_within(addr: int, size: int, outer: int, outer_size: int)
    requires
        size > 0,
        block(addr, size).subset_of(block(outer, outer_size)),
    ensures
        outer <= addr,
        addr + size <= outer + outer_size,
{
    assert(block(addr, size).contains(addr));
    assert(block(addr, size).contains(addr + size - 1));
    assert(block(outer, outer_size).contains(addr));
    assert(block(outer, outer_size).contains(addr + size - 1));
}

} // verus!
