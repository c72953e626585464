use crate::error::AllocError;
use crate::fallback::{
    answered, heap_bottom, heap_free, heap_holes, heap_size, lemma_no_hole_no_byte,
    lemma_one_hole_bytes, lemma_round_up, min_region, round_up, search, smallest_region, word,
};
use crate::invariants::{
    lemma_allocate_keeps_apart, lemma_allocate_keeps_sound, lemma_dealloc_keeps_apart,
    lemma_dealloc_keeps_sound,
};
use crate::span::block;
use crate::size_class::{
    class_index, lemma_class_index_is_smallest, lemma_oversized_has_no_class, standard_sizes,
    valid_classes, Request, RequestView, SizeClasses,
};
use linked_list_allocator::Heap;
use vstd::prelude::*;

verus! {

/// The mathematical state of the slab tier: the class sizes, and one free
/// list per class with its head last.
pub struct TierView {
    pub classes: Seq<usize>,
    pub lists: Seq<Seq<usize>>,
}

impl TierView {
    /// The table is valid and every class has its list.
    pub open spec fn wf(self) -> bool {
        &&& valid_classes(self.classes)
        &&& self.lists.len() == self.classes.len()
    }

    /// The class that serves `request`, if any does.
    pub open spec fn route(self, request: RequestView) -> Option<usize> {
        class_index(self.classes, request.need())
    }

    /// The head of the free list of class `index`, if the list holds a block.
    pub open spec fn head(self, index: int) -> Option<usize> {
        if self.lists[index].len() > 0 {
            Some(self.lists[index].last())
        } else {
            None
        }
    }

    /// The freed block that serves `request` without touching the heap.
    pub open spec fn cached(self, request: RequestView) -> Option<usize> {
        match self.route(request) {
            Some(i) => self.head(i as int),
            None => None,
        }
    }

    /// What is asked of the heap for `request`: a block of its class, on a
    /// boundary of the class size, or the request itself where no class
    /// holds it.
    pub open spec fn demand(self, request: RequestView) -> RequestView {
        match self.route(request) {
            Some(i) => RequestView {
                size: self.classes[i as int] as int,
                align: self.classes[i as int] as int,
            },
            None => request,
        }
    }

    /// The state with the head of list `index` taken off.
    pub open spec fn after_pop(self, index: int) -> TierView {
        TierView { lists: self.lists.update(index, self.lists[index].drop_last()), ..self }
    }

    /// The state with `addr` as the new head of list `index`.
    pub open spec fn after_push(self, index: int, addr: usize) -> TierView {
        TierView { lists: self.lists.update(index, self.lists[index].push(addr)), ..self }
    }
}

/// The slab tier: a class table, and for each class the blocks of its size
/// that were handed back, last in first out.
pub struct SlabTier {
    classes: SizeClasses,
    slabs: Vec<Vec<usize>>,
}

impl View for SlabTier {
    type V = TierView;

    closed spec fn view(&self) -> TierView {
        TierView {
            classes: self.classes@,
            lists: Seq::new(self.slabs@.len(), |i: int| self.slabs@[i]@),
        }
    }
}

impl SlabTier {
    #[verifier::type_invariant]
    spec fn inv(&self) -> bool {
        self@.wf()
    }

    /// A tier with the given classes and empty free lists.
    pub fn new(classes: SizeClasses) -> (tier: Self)
        ensures
            tier@.wf(),
            tier@.classes == classes@,
            forall|i: int| 0 <= i < tier@.lists.len() ==> (#[trigger] tier@.lists[i]).len() == 0,
    {
        let n = classes.len();
        let mut slabs: Vec<Vec<usize>> = Vec::new();
        let mut i: usize = 0;
        while i < n
            invariant
                i <= n,
                slabs@.len() == i,
                forall|k: int| 0 <= k < i ==> (#[trigger] slabs@[k])@.len() == 0,
            decreases n - i,
        {
            slabs.push(Vec::new());
            i += 1;
        }
        SlabTier { classes, slabs }
    }

    /// The class table.
    pub fn classes(&self) -> (table: &SizeClasses)
        ensures
            table@ == self@.classes,
            self@.wf(),
    {
        proof {
            use_type_invariant(self);
        }
        &self.classes
    }

    /// The number of freed blocks that class `index` holds.
    pub fn cached_blocks(&self, index: usize) -> (n: usize)
        ensures
            n == (if index < self@.lists.len() {
                self@.lists[index as int].len()
            } else {
                0
            }),
    {
        if index < self.slabs.len() {
            self.slabs[index].len()
        } else {
            0
        }
    }

    /// Serves one block of class `index`: the head of the class's free list
    /// where there is one, else a fresh block of the class size, on a
    /// boundary of that size, from `heap`.
    pub fn allocate(&mut self, index: usize, heap: &mut Heap) -> (result: Result<
        usize,
        AllocError,
    >)
        requires
            index < old(self)@.classes.len(),
        ensures
            final(self)@.wf(),
            result matches Err(e) ==> e == AllocError::Exhausted,
            match old(self)@.head(index as int) {
                Some(addr) => {
                    &&& result == Ok::<usize, AllocError>(addr)
                    &&& final(self)@ == old(self)@.after_pop(index as int)
                    &&& *final(heap) == *old(heap)
                },
                None => {
                    &&& final(self)@ == old(self)@
                    &&& answered(
                        *old(heap),
                        *final(heap),
                        old(self)@.classes[index as int] as int,
                        old(self)@.classes[index as int] as int,
                        result,
                    )
                },
            },
    {
        proof {
            use_type_invariant(&*self);
        }
        match self.slabs[index].pop() {
            Some(addr) => {
                assert(self@.lists =~= old(self)@.after_pop(index as int).lists);
                Ok(addr)
            },
            None => {
                assert(self@.lists =~= old(self)@.lists);
                let size = self.classes.size_at(index);
                search(heap, size, size)
            },
        }
    }

    /// Makes the block at `addr` the head of the free list of class `index`.
    pub fn dealloc(&mut self, index: usize, addr: usize)
        requires
            index < old(self)@.classes.len(),
        ensures
            final(self)@ == old(self)@.after_push(index as int, addr),
            final(self)@.wf(),
    {
        proof {
            use_type_invariant(&*self);
        }
        self.slabs[index].push(addr);
        assert(self@.lists =~= old(self)@.after_push(index as int, addr).lists);
    }
}

/// Where a block that was handed back has gone.
#[derive(Clone, Copy, Debug, PartialEq, Eq, Structural)]
pub enum Release {
    /// It heads the free list of the class with this index.
    Cached(usize),
    /// It belongs to the fallback heap, and the caller returns it there.
    Fallback,
}

/// The mathematical state of the allocator: the slab tier and the fallback
/// heap.
pub struct SlabView {
    pub tier: TierView,
    pub heap: Heap,
}

impl SlabView {
    /// Whether the block of `size` bytes at `addr` starts inside the heap's
    /// memory and does not run past its end.
    pub open spec fn holds(self, addr: int, size: int) -> bool {
        let bottom = heap_bottom(self.heap);
        let top = bottom + heap_size(self.heap);
        bottom <= addr < top && addr + size <= top
    }

    /// Whether every free byte of the heap lies in the heap's memory.
    pub open spec fn contained(self) -> bool {
        heap_free(self.heap).subset_of(block(heap_bottom(self.heap), heap_size(self.heap)))
    }

    /// Whether list `index` has a block at position `k`.
    pub open spec fn is_cached(self, index: int, k: int) -> bool {
        0 <= index < self.tier.lists.len() && 0 <= k < self.tier.lists[index].len()
    }

    /// The addresses of the block at position `k` of list `index`.
    pub open spec fn cached_block(self, index: int, k: int) -> Set<int> {
        block(self.tier.lists[index][k] as int, self.tier.classes[index] as int)
    }

    /// The addresses that can still be handed out: the free bytes of the
    /// heap and the bytes of the blocks on the free lists.
    pub open spec fn available(self) -> Set<int> {
        Set::new(
            |a: int|
                heap_free(self.heap).contains(a) || exists|i: int, k: int|
                    self.is_cached(i, k) && #[trigger] self.cached_block(i, k).contains(a),
        )
    }

    /// Every block on a free list lies in the heap's memory, and so does
    /// every free byte of the heap.
    pub open spec fn sound(self) -> bool {
        &&& self.tier.wf()
        &&& self.contained()
        &&& forall|i: int, k: int|
            self.is_cached(i, k) ==> self.holds(
                #[trigger] self.tier.lists[i][k] as int,
                self.tier.classes[i] as int,
            )
    }

    /// No address can be handed out twice: the blocks on the free lists
    /// share no byte with each other or with the free bytes of the heap.
    pub open spec fn apart(self) -> bool {
        &&& forall|i: int, k: int|
            self.is_cached(i, k) ==> (#[trigger] self.cached_block(i, k)).disjoint(
                heap_free(self.heap),
            )
        &&& forall|i: int, k: int, j: int, l: int|
            #![trigger self.cached_block(i, k), self.cached_block(j, l)]
            self.is_cached(i, k) && self.is_cached(j, l) && (i != j || k != l)
                ==> self.cached_block(i, k).disjoint(self.cached_block(j, l))
    }

    /// What an allocation for `request` that answered `result` makes of the
    /// state: a block that heads the list of the request's class is the
    /// answer, and leaves that list; else the heap was asked for what the
    /// request demands of it, and the answer is the heap's.
    pub open spec fn allocated(
        self,
        after: SlabView,
        request: RequestView,
        result: Result<usize, AllocError>,
    ) -> bool {
        &&& result matches Err(e) ==> e == AllocError::Exhausted
        &&& match self.tier.cached(request) {
            Some(addr) => {
                &&& result == Ok::<usize, AllocError>(addr)
                &&& after.tier == self.tier.after_pop(self.tier.route(request).unwrap() as int)
                &&& after.heap == self.heap
            },
            None => {
                &&& after.tier == self.tier
                &&& answered(
                    self.heap,
                    after.heap,
                    self.tier.demand(request).size,
                    self.tier.demand(request).align,
                    result,
                )
            },
        }
    }

    /// What handing back the block at `addr` under `request` answers.
    pub open spec fn dealloc_result(self, addr: int, request: RequestView) -> Result<
        Release,
        AllocError,
    > {
        if !self.holds(addr, self.tier.demand(request).size) {
            Err(AllocError::OutOfRange)
        } else {
            match self.tier.route(request) {
                Some(i) => Ok(Release::Cached(i)),
                None => Ok(Release::Fallback),
            }
        }
    }

    /// The state after the block at `addr` was handed back under `request`.
    pub open spec fn after_dealloc(self, addr: usize, request: RequestView) -> SlabView {
        match self.dealloc_result(addr as int, request) {
            Ok(Release::Cached(i)) => SlabView {
                tier: self.tier.after_push(i as int, addr),
                ..self
            },
            _ => self,
        }
    }
}

/// A slab allocator: small requests are served from per-class free lists,
/// everything else, and every fresh block, from a first-fit heap.
pub struct SlabAllocator {
    tier: SlabTier,
    fallback: Heap,
}

impl View for SlabAllocator {
    type V = SlabView;

    closed spec fn view(&self) -> SlabView {
        SlabView { tier: self.tier@, heap: self.fallback }
    }
}

impl SlabAllocator {
    /// An allocator with the standard classes, empty free lists and a heap
    /// without memory.
    pub fn new() -> (made: Self)
        ensures
            made@.tier.wf(),
            made@.tier.classes == standard_sizes(),
            forall|i: int|
                0 <= i < made@.tier.lists.len() ==> (#[trigger] made@.tier.lists[i]).len() == 0,
            heap_bottom(made@.heap) == 0,
            heap_size(made@.heap) == 0,
            heap_holes(made@.heap) == Seq::<(int, int)>::empty(),
            heap_free(made@.heap) == Set::<int>::empty(),
            made@.sound(),
            made@.apart(),
    {
        Self::with_classes(SizeClasses::standard())
    }

    /// An allocator with the given classes, empty free lists and a heap
    /// without memory.
    pub fn with_classes(classes: SizeClasses) -> (made: Self)
        ensures
            made@.tier.wf(),
            made@.tier.classes == classes@,
            forall|i: int|
                0 <= i < made@.tier.lists.len() ==> (#[trigger] made@.tier.lists[i]).len() == 0,
            heap_bottom(made@.heap) == 0,
            heap_size(made@.heap) == 0,
            heap_holes(made@.heap) == Seq::<(int, int)>::empty(),
            heap_free(made@.heap) == Set::<int>::empty(),
            made@.sound(),
            made@.apart(),
    {
        let fallback = Heap::empty();
        proof {
            lemma_no_hole_no_byte(heap_holes(fallback));
        }
        SlabAllocator { tier: SlabTier::new(classes), fallback }
    }

    /// Gives the heap its memory. This happens once: an allocator that has
    /// memory keeps it, and memory of fewer than `min_region()` bytes is not
    /// taken. Says whether the memory was taken. Memory that was taken is
    /// free from its first word boundary to its end, in one block.
    pub fn init(&mut self, mem: &'static mut [core::mem::MaybeUninit<u8>]) -> (taken: bool)
        ensures
            taken == (heap_bottom(old(self)@.heap) == 0 && heap_size(old(self)@.heap) == 0
                && old(mem)@.len() >= min_region()),
            final(self)@.tier == old(self)@.tier,
            taken ==> {
                let bottom = heap_bottom(final(self)@.heap);
                let top = bottom + heap_size(final(self)@.heap);
                let first = round_up(bottom, word());
                &&& bottom > 0
                &&& top == bottom + old(mem)@.len()
                &&& top <= usize::MAX
                &&& bottom <= first < bottom + word()
                &&& heap_holes(final(self)@.heap) == seq![(first, top - first)]
                &&& heap_free(final(self)@.heap) == block(first, top - first)
                &&& final(self)@.contained()
            },
            !taken ==> final(self)@ == old(self)@,
            old(self)@.sound() ==> final(self)@.sound(),
            old(self)@.sound() && old(self)@.apart() ==> final(self)@.apart(),
    {
        if self.fallback.bottom() != 0 || self.fallback.size() != 0 || mem.len()
            < smallest_region() {
            return false;
        }
        self.fallback.init_from_slice(mem);
        proof {
            let bottom = heap_bottom(self.fallback);
            let top = bottom + heap_size(self.fallback);
            lemma_round_up(bottom, word());
            lemma_one_hole_bytes(round_up(bottom, word()), top - round_up(bottom, word()));
            if old(self)@.sound() {
                lemma_no_memory_no_cached_block(old(self)@);
            }
        }
        true
    }

    /// Serves `request`: through the slab tier where a class holds it, else
    /// from the heap as it is.
    pub fn allocate(&mut self, request: Request) -> (result: Result<usize, AllocError>)
        ensures
            old(self)@.allocated(final(self)@, request@, result),
            final(self)@.tier.wf(),
            final(self)@.tier.classes == old(self)@.tier.classes,
            old(self)@.sound() ==> final(self)@.sound(),
            old(self)@.apart() ==> final(self)@.apart(),
    {
        let index = self.tier.classes().class_index(&request);
        let result = match index {
            Some(i) => self.tier.allocate(i, &mut self.fallback),
            None => search(&mut self.fallback, request.size(), request.align()),
        };
        proof {
            if old(self)@.sound() {
                lemma_allocate_keeps_sound(old(self)@, self@, request@, result);
            }
            if old(self)@.apart() {
                lemma_allocate_keeps_apart(old(self)@, self@, request@, result);
            }
        }
        result
    }

    /// Takes back the block at `addr` that was served for `request`. A block
    /// of a class becomes the head of that class's free list. A block that no
    /// class holds is the heap's: the allocator leaves it alone and answers
    /// `Release::Fallback`. A block outside the heap's memory is reported.
    pub fn dealloc(&mut self, addr: usize, request: Request) -> (result: Result<
        Release,
        AllocError,
    >)
        ensures
            result == old(self)@.dealloc_result(addr as int, request@),
            final(self)@ == old(self)@.after_dealloc(addr, request@),
            final(self)@.tier.wf(),
            old(self)@.sound() ==> final(self)@.sound(),
            old(self)@.apart() && block(
                addr as int,
                old(self)@.tier.demand(request@).size,
            ).disjoint(old(self)@.available()) ==> final(self)@.apart(),
    {
        let index = self.tier.classes().class_index(&request);
        proof {
            if old(self)@.sound() {
                lemma_dealloc_keeps_sound(old(self)@, addr, request@);
            }
            if old(self)@.apart() && block(
                addr as int,
                old(self)@.tier.demand(request@).size,
            ).disjoint(old(self)@.available()) {
                lemma_dealloc_keeps_apart(old(self)@, addr, request@);
            }
        }
        let size = match index {
            Some(i) => self.tier.classes().size_at(i),
            None => request.size(),
        };
        let bottom = self.fallback.bottom();
        let room = self.fallback.size();
        if addr < bottom || addr - bottom >= room || size > room - (addr - bottom) {
            return Err(AllocError::OutOfRange);
        }
        match index {
            Some(i) => {
                self.tier.dealloc(i, addr);
                Ok(Release::Cached(i))
            },
            None => Ok(Release::Fallback),
        }
    }

    /// The heap, for the caller that returns a block to it.
    pub fn fallback_mut(&mut self) -> (heap: &mut Heap)
        ensures
            *heap == old(self)@.heap,
            final(self)@ == (SlabView { heap: *final(heap), ..old(self)@ }),
    {
        &mut self.fallback
    }

    /// The slab tier.
    pub fn tier(&self) -> (tier: &SlabTier)
        ensures
            tier@ == self@.tier,
    {
        &self.tier
    }

    /// The first address of the heap's memory, 0 while it has none.
    pub fn bottom(&self) -> (addr: usize)
        ensures
            addr == heap_bottom(self@.heap),
    {
        self.fallback.bottom()
    }

    /// The number of bytes of the heap's memory.
    pub fn size(&self) -> (size: usize)
        ensures
            size == heap_size(self@.heap),
    {
        self.fallback.size()
    }
}

/// An allocator whose heap has no memory, and whose cached blocks lie in
/// that memory, has no cached block.
pub proof fn lemma_no_memory_no_cached_block(state: SlabView)
    requires
        state.sound(),
        heap_size(state.heap) == 0,
    ensures
        forall|i: int|
            0 <= i < state.tier.lists.len() ==> (#[trigger] state.tier.lists[i]).len() == 0,
{
    assert forall|i: int| 0 <= i < state.tier.lists.len() implies (#[trigger] state.tier.lists[
        i
    ]).len() == 0 by {
        if state.tier.lists[i].len() > 0 {
            assert(state.is_cached(i, 0));
            assert(state.holds(state.tier.lists[i][0] as int, state.tier.classes[i] as int));
        }
    }
}

/// A block of a class that is handed back is the next block served for that
/// class: it heads the class's list, the heap is not asked, and serving it
/// leaves the tier as it was before the block came back.
pub proof fn lemma_freed_block_is_served_next(
    state: SlabView,
    addr: usize,
    freed: RequestView,
    asked: RequestView,
)
    requires
        state.tier.wf(),
        state.tier.route(freed) is Some,
        state.tier.route(asked) == state.tier.route(freed),
        state.holds(addr as int, state.tier.demand(freed).size),
    ensures
        state.after_dealloc(addr, freed).tier.cached(asked) == Some(addr),
        state.after_dealloc(addr, freed).heap == state.heap,
        state.after_dealloc(addr, freed).tier.after_pop(state.tier.route(freed).unwrap() as int)
            == state.tier,
{
    let i = state.tier.route(freed).unwrap() as int;
    lemma_class_index_is_smallest(state.tier.classes, freed.need());
    let pushed = state.tier.after_push(i, addr);
    assert(pushed.lists[i].drop_last() =~= state.tier.lists[i]);
    assert(pushed.after_pop(i).lists =~= state.tier.lists);
}

/// A request whose size exceeds every class is never served from a free
/// list and never put on one: it is asked of the heap as it is, and when it
/// is handed back the tier stays as it was.
pub proof fn lemma_oversized_goes_to_fallback(state: SlabView, addr: usize, request: RequestView)
    requires
        forall|j: int| 0 <= j < state.tier.classes.len() ==> state.tier.classes[j] < request.size,
    ensures
        state.tier.route(request) is None,
        state.tier.cached(request) is None,
        state.tier.demand(request) == request,
        state.after_dealloc(addr, request) == state,
        state.dealloc_result(addr as int, request) is Ok ==> state.dealloc_result(
            addr as int,
            request,
        ) == Ok::<Release, AllocError>(Release::Fallback),
{
    lemma_oversized_has_no_class(state.tier.classes, request.need());
}

} // verus!
