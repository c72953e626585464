use crate::error::AllocError;
use crate::size_class::is_power_of_two;
use crate::span::{block, lemma_block_within};
use linked_list_allocator::Heap;
use vstd::arithmetic::power2::is_pow2;
use vstd::prelude::*;

verus! {

/// `linked_list_allocator::Heap`: a heap over one span of memory that keeps
/// its free blocks in a list threaded through the free memory itself.
/// Nothing inside it is visible here; what is said of it is said through
/// `heap_bottom`, `heap_size` and `heap_holes`, of a heap that was handed
/// back none but blocks that it had served.
#[verifier::external_type_specification]
#[verifier::external_body]
pub struct ExHeap(linked_list_allocator::Heap);

/// The blocks of the heap's free list, in the order of the list: of each
/// its first address and its number of bytes.
pub uninterp spec fn heap_holes(heap: Heap) -> Seq<(int, int)>;

/// The first address of the memory that the heap was given, 0 before it was
/// given any: what `Heap::bottom` returns.
pub uninterp spec fn heap_bottom(heap: Heap) -> int;

/// The number of bytes of memory that the heap was given: what `Heap::size`
/// returns.
pub uninterp spec fn heap_size(heap: Heap) -> int;

/// The addresses of the bytes that lie in one of `holes`.
pub open spec fn bytes_of(holes: Seq<(int, int)>) -> Set<int> {
    Set::new(
        |a: int|
            exists|i: int|
                0 <= i < holes.len() && #[trigger] block(holes[i].0, holes[i].1).contains(a),
    )
}

/// The addresses of the bytes that lie in the blocks of the heap's free
/// list.
pub open spec fn heap_free(heap: Heap) -> Set<int> {
    bytes_of(heap_holes(heap))
}

/// The bytes of a machine word: the size of a `usize`, which is also the
/// boundary on which the heap keeps the nodes of its list.
pub open spec fn word() -> int {
    vstd::layout::size_of::<usize>() as int
}

/// The smallest multiple of `to` that is at least `n`.
pub open spec fn round_up(n: int, to: int) -> int {
    if n % to == 0 {
        n
    } else {
        n + to - n % to
    }
}

/// The smallest memory that the heap is given: room for the two words of
/// one free-list node behind a start that was rounded up to a word boundary.
pub open spec fn min_region() -> int {
    3 * word() - 1
}

/// The bytes that the heap takes for a request of `size` bytes: two words at
/// least, rounded up to a word.
pub open spec fn carved(size: int) -> int {
    round_up(if size < 2 * word() { 2 * word() } else { size }, word())
}

/// Where the block for a request on an `align` boundary starts in a free
/// block at `addr`: at `addr` where that is on the boundary, else on the
/// first boundary that leaves two words before it.
pub open spec fn start_in(addr: int, align: int) -> int {
    if addr % align == 0 {
        addr
    } else {
        round_up(addr + 2 * word(), align)
    }
}

/// Whether the free block `hole` serves a request of `size` bytes on an
/// `align` boundary: the bytes taken end within it, and leave nothing or two
/// words at least behind them.
pub open spec fn fits_hole(hole: (int, int), size: int, align: int) -> bool {
    let end = start_in(hole.0, align) + carved(size);
    let top = hole.0 + hole.1;
    end == top || end + 2 * word() <= top
}

/// What is left of the free block `hole` before and behind the bytes taken
/// from it.
pub open spec fn remains(hole: (int, int), size: int, align: int) -> Seq<(int, int)> {
    let start = start_in(hole.0, align);
    let end = start + carved(size);
    let top = hole.0 + hole.1;
    let front = if hole.0 < start {
        seq![(hole.0, start - hole.0)]
    } else {
        Seq::<(int, int)>::empty()
    };
    let back = if end < top {
        seq![(end, top - end)]
    } else {
        Seq::<(int, int)>::empty()
    };
    front + back
}

/// The index of the first of `holes`, from `from` on, that serves the
/// request.
pub open spec fn first_fitting_from(
    holes: Seq<(int, int)>,
    size: int,
    align: int,
    from: int,
) -> Option<int>
    decreases holes.len() - from,
{
    if from < 0 || from >= holes.len() {
        None
    } else if fits_hole(holes[from], size, align) {
        Some(from)
    } else {
        first_fitting_from(holes, size, align, from + 1)
    }
}

/// The block that a first-fit search of `holes` finds: it starts in the
/// first hole that serves the request.
pub open spec fn found_in(holes: Seq<(int, int)>, size: int, align: int) -> Option<int> {
    match first_fitting_from(holes, size, align, 0) {
        Some(i) => Some(start_in(holes[i].0, align)),
        None => None,
    }
}

/// The address of the block that was found, if one was.
pub open spec fn address_of(found: Option<usize>) -> Option<int> {
    match found {
        Some(addr) => Some(addr as int),
        None => None,
    }
}

/// The list that a first-fit search of `holes` leaves: the hole that served
/// the request has given way to what is left of it.
pub open spec fn holes_after(holes: Seq<(int, int)>, size: int, align: int) -> Seq<(int, int)> {
    match first_fitting_from(holes, size, align, 0) {
        Some(i) => holes.subrange(0, i) + remains(holes[i], size, align) + holes.subrange(
            i + 1,
            holes.len() as int,
        ),
        None => holes,
    }
}

/// Room that the heap's search needs above the end of its memory: it rounds
/// the size up to two words, and adds two words, the size and the alignment
/// to addresses inside the memory before it compares them.
pub const FIT_SLACK: usize = 64;

/// What keeps the heap's search within machine arithmetic.
pub open spec fn searchable(heap: Heap, size: int, align: int) -> bool {
    &&& is_pow2(align)
    &&& size + align + FIT_SLACK <= isize::MAX
    &&& heap_bottom(heap) + heap_size(heap) + size + align + FIT_SLACK <= usize::MAX
}

/// What a search of the heap for `size` bytes on an `align` boundary leaves
/// behind: the heap keeps its memory and gains no free byte; a block that
/// was found starts on the boundary, was free before and is free no more; a
/// search that found nothing leaves the free bytes as they were.
pub open spec fn searched(
    before: Heap,
    after: Heap,
    size: int,
    align: int,
    found: Option<usize>,
) -> bool {
    &&& heap_bottom(after) == heap_bottom(before)
    &&& heap_size(after) == heap_size(before)
    &&& heap_free(after).subset_of(heap_free(before))
    &&& match found {
        Some(addr) => {
            &&& addr != 0
            &&& addr as int % align == 0
            &&& block(addr as int, size).subset_of(heap_free(before))
            &&& block(addr as int, size).disjoint(heap_free(after))
        },
        None => heap_free(after) == heap_free(before),
    }
}

/// What a request for `size` bytes on an `align` boundary that was answered
/// with `result` makes of the heap. Within machine arithmetic the answer is
/// the block that a first-fit search of the free list finds, and the list
/// is the one that the search leaves. Beyond it the answer is `Exhausted`
/// and the heap is untouched.
pub open spec fn answered(
    before: Heap,
    after: Heap,
    size: int,
    align: int,
    result: Result<usize, AllocError>,
) -> bool {
    &&& searched(before, after, size, align, found_block(result))
    &&& result matches Err(e) ==> e == AllocError::Exhausted
    &&& if searchable(before, size, align) {
        &&& address_of(found_block(result)) == found_in(heap_holes(before), size, align)
        &&& heap_holes(after) == holes_after(heap_holes(before), size, align)
    } else {
        &&& result is Err
        &&& after == before
    }
}

/// `Heap::empty`: the heap that it makes has no memory and no free block.
pub assume_specification[ Heap::empty ]() -> (heap: Heap)
    ensures
        heap_bottom(heap) == 0,
        heap_size(heap) == 0,
        heap_holes(heap) == Seq::<(int, int)>::empty(),
;

/// `Heap::bottom` returns the first address of the heap's memory.
pub assume_specification[ Heap::bottom ](heap: &Heap) -> (addr: usize)
    ensures
        addr == heap_bottom(*heap),
;

/// `Heap::size` returns the number of bytes of the heap's memory.
pub assume_specification[ Heap::size ](heap: &Heap) -> (size: usize)
    ensures
        size == heap_size(*heap),
;

/// `Heap::init_from_slice` makes `mem` the heap's memory. It panics on a heap
/// whose bottom is not 0, and writes a node of two words at the first word
/// boundary of `mem`, so both are left out. Afterwards the bottom is the
/// address of `mem`, which is not null, the size is its length, the memory
/// ends within the address space, and the list holds one free block: from
/// the first word boundary of the memory to its end.
pub assume_specification[ Heap::init_from_slice ](
    heap: &mut Heap,
    mem: &'static mut [core::mem::MaybeUninit<u8>],
)
    requires
        heap_bottom(*old(heap)) == 0,
        old(mem)@.len() >= min_region(),
    ensures
        heap_bottom(*final(heap)) > 0,
        heap_size(*final(heap)) == old(mem)@.len(),
        heap_bottom(*final(heap)) + heap_size(*final(heap)) <= usize::MAX,
        heap_holes(*final(heap)) == seq![
            (
                round_up(heap_bottom(*final(heap)), word()),
                heap_bottom(*final(heap)) + heap_size(*final(heap)) - round_up(
                    heap_bottom(*final(heap)),
                    word(),
                ),
            ),
        ],
;

/// `Heap::allocate_first_fit`, for the layout of `size` bytes on an `align`
/// boundary: it walks the free list and carves the block out of the first
/// free block that can hold it. `Layout::from_size_align` and the heap's
/// own rounding fail on an alignment that is no power of two or a size near
/// `isize::MAX`, and the walk adds the size and the alignment to addresses
/// of the memory, so `searchable` leaves those inputs out. The heap takes
/// `carved(size)` bytes for the request. In a free block it puts them at
/// the block's start where that is on the boundary, else on the first
/// boundary two words or more behind the start; it uses the block only if
/// the bytes end within it and leave nothing or two words at least behind
/// them. The answer is the start in the first block that it can use, and
/// what is left of that block before and behind the bytes takes the block's
/// place in the list. Where it can use no block the list is untouched. The
/// memory stays what it was and no byte becomes free. A block that is
/// found is not at address 0, starts on the boundary, lay in a free block,
/// and lies in none afterwards.
#[verifier::external_body]
fn first_fit(heap: &mut Heap, size: usize, align: usize) -> (found: Option<usize>)
    requires
        searchable(*old(heap), size as int, align as int),
    ensures
        address_of(found) == found_in(heap_holes(*old(heap)), size as int, align as int),
        heap_holes(*final(heap)) == holes_after(
            heap_holes(*old(heap)),
            size as int,
            align as int,
        ),
        searched(*old(heap), *final(heap), size as int, align as int, found),
{
    let layout = core::alloc::Layout::from_size_align(size, align).unwrap();
    match heap.allocate_first_fit(layout) {
        Ok(ptr) => Some(ptr.addr().get()),
        Err(_) => None,
    }
}

/// The bytes of a machine word.
pub fn word_size() -> (bytes: usize)
    ensures
        bytes == word(),
        bytes == 4 || bytes == 8,
{
    broadcast use vstd::layout::layout_of_primitives;

    core::mem::size_of::<usize>()
}

/// The number of bytes below which memory is not given to the heap.
pub fn smallest_region() -> (bytes: usize)
    ensures
        bytes == min_region(),
        word() == 4 || word() == 8,
{
    3 * word_size() - 1
}

/// The block that an allocation answered with, if it answered with one.
pub open spec fn found_block(result: Result<usize, AllocError>) -> Option<usize> {
    match result {
        Ok(addr) => Some(addr),
        Err(_) => None,
    }
}

/// Turns what the heap found into the allocator's answer: the block, or the
/// report that the heap is exhausted.
pub fn granted(found: Option<usize>) -> (result: Result<usize, AllocError>)
    ensures
        result == match found {
            Some(addr) => Ok::<usize, AllocError>(addr),
            None => Err(AllocError::Exhausted),
        },
{
    match found {
        Some(addr) => Ok(addr),
        None => Err(AllocError::Exhausted),
    }
}

/// Whether a search of `heap` for `size` bytes on an `align` boundary stays
/// within machine arithmetic.
pub fn is_searchable(heap: &Heap, size: usize, align: usize) -> (yes: bool)
    ensures
        yes == searchable(*heap, size as int, align as int),
{
    if !is_power_of_two(align) {
        return false;
    }
    let limit: usize = isize::MAX as usize;
    if size > limit - FIT_SLACK || align > limit - FIT_SLACK - size {
        return false;
    }
    let ask: usize = size + align + FIT_SLACK;
    match heap.bottom().checked_add(heap.size()) {
        Some(top) => ask <= usize::MAX - top,
        None => false,
    }
}

/// Searches `heap` for a free block of `size` bytes on an `align` boundary.
/// A search that would leave machine arithmetic is not made, and reported
/// as exhaustion like one that finds nothing.
pub fn search(heap: &mut Heap, size: usize, align: usize) -> (result: Result<usize, AllocError>)
    ensures
        answered(*old(heap), *final(heap), size as int, align as int, result),
{
    if !is_searchable(heap, size, align) {
        return Err(AllocError::Exhausted);
    }
    granted(first_fit(heap, size, align))
}

/// A list without a hole has no byte.
pub proof fn lemma_no_hole_no_byte(holes: Seq<(int, int)>)
    requires
        holes.len() == 0,
    ensures
        bytes_of(holes) == Set::<int>::empty(),
{
    assert(bytes_of(holes) =~= Set::<int>::empty());
}

/// A list of one hole has the bytes of that hole.
pub proof fn lemma_one_hole_bytes(addr: int, size: int)
    ensures
        bytes_of(seq![(addr, size)]) == block(addr, size),
{
    let holes = seq![(addr, size)];
    assert forall|a: int| bytes_of(holes).contains(a) <==> block(addr, size).contains(a) by {
        if block(addr, size).contains(a) {
            assert(block(holes[0].0, holes[0].1).contains(a));
        }
    }
    assert(bytes_of(holes) =~= block(addr, size));
}

/// Rounding up to a word or to a power of two gives the least multiple that
/// is not below the number.
pub proof fn lemma_round_up(n: int, to: int)
    requires
        to > 0,
    ensures
        n <= round_up(n, to) < n + to,
        round_up(n, to) % to == 0,
{
    vstd::arithmetic::div_mod::lemma_fundamental_div_mod(n, to);
    vstd::arithmetic::div_mod::lemma_mod_bound(n, to);
    if n % to != 0 {
        let r = n + to - n % to;
        assert(r == to * (n / to + 1)) by (nonlinear_arith)
            requires
                r == n + to - n % to,
                n == to * (n / to) + n % to,
        ;
        vstd::arithmetic::div_mod::lemma_mod_multiples_basic(n / to + 1, to);
        assert((n / to + 1) * to == to * (n / to + 1)) by (nonlinear_arith);
    }
}

/// A heap whose list has no hole answers every request with `Exhausted`,
/// and stays as it is.
pub proof fn lemma_no_hole_finds_nothing(
    before: Heap,
    after: Heap,
    size: int,
    align: int,
    result: Result<usize, AllocError>,
)
    requires
        answered(before, after, size, align, result),
        heap_holes(before).len() == 0,
    ensures
        result == Err::<usize, AllocError>(AllocError::Exhausted),
        heap_holes(after) == heap_holes(before),
{
}

/// A heap whose list is one hole serves, within machine arithmetic, the
/// request that the hole can hold: the block starts where `start_in` puts
/// it. So a heap that was just given its memory serves a request whose
/// bytes end two words or more before the end of the memory.
pub proof fn lemma_one_hole_serves(
    before: Heap,
    after: Heap,
    size: int,
    align: int,
    result: Result<usize, AllocError>,
)
    requires
        answered(before, after, size, align, result),
        searchable(before, size, align),
        heap_holes(before).len() == 1,
        fits_hole(heap_holes(before)[0], size, align),
    ensures
        result is Ok,
        result.unwrap() == start_in(heap_holes(before)[0].0, align),
        heap_holes(after) == remains(heap_holes(before)[0], size, align),
{
    let holes = heap_holes(before);
    assert(first_fitting_from(holes, size, align, 0) == Some(0int));
    assert(holes.subrange(0, 0) + remains(holes[0], size, align) + holes.subrange(1, 1) =~= remains(
        holes[0],
        size,
        align,
    ));
}

/// A heap whose free bytes lie in its memory finds no block that is larger
/// than its memory, and a block that it finds lies in its memory.
pub proof fn lemma_found_block_lies_in_memory(
    before: Heap,
    after: Heap,
    size: int,
    align: int,
    found: Option<usize>,
)
    requires
        searched(before, after, size, align, found),
        size > 0,
        heap_free(before).subset_of(block(heap_bottom(before), heap_size(before))),
    ensures
        found matches Some(addr) ==> heap_bottom(before) <= addr && addr + size <= heap_bottom(
            before,
        ) + heap_size(before),
        size > heap_size(before) ==> found is None,
        heap_free(after).subset_of(block(heap_bottom(after), heap_size(after))),
{
    if let Some(addr) = found {
        lemma_block_within(addr as int, size, heap_bottom(before), heap_size(before));
    }
}

/// Two blocks that one heap found one after the other share no address.
pub proof fn lemma_found_blocks_are_apart(
    before: Heap,
    between: Heap,
    after: Heap,
    first: usize,
    first_size: int,
    first_align: int,
    second: usize,
    second_size: int,
    second_align: int,
)
    requires
        searched(before, between, first_size, first_align, Some(first)),
        searched(between, after, second_size, second_align, Some(second)),
    ensures
        block(first as int, first_size).disjoint(block(second as int, second_size)),
{
    assert forall|a: int|
        block(first as int, first_size).contains(a) && block(second as int, second_size).contains(
            a,
        ) implies false by {
        assert(heap_free(between).contains(a));
    }
}

} // verus!
