use crate::error::AllocError;
use crate::span::block;
use vstd::prelude::*;

verus! {

/// The mathematical state of a bump region: the span `[start, end)`, the
/// cursor below which bytes are handed out, and the bytes of the span.
pub struct RegionView {
    pub start: int,
    pub end: int,
    pub cursor: int,
    pub bytes: Seq<u8>,
}

/// `bytes` with the `size` positions from `offset` on set to zero.
pub open spec fn zero_filled(bytes: Seq<u8>, offset: int, size: int) -> Seq<u8> {
    Seq::new(
        bytes.len(),
        |i: int| if offset <= i < offset + size { 0u8 } else { bytes[i] },
    )
}

/// `bytes` with `data` written over the positions from `offset` on.
pub open spec fn overwritten(bytes: Seq<u8>, offset: int, data: Seq<u8>) -> Seq<u8> {
    Seq::new(
        bytes.len(),
        |i: int| if offset <= i < offset + data.len() { data[i - offset] } else { bytes[i] },
    )
}

impl RegionView {
    /// `start <= cursor <= end`, the span fits the address space, and there
    /// is one byte per address of the span.
    pub open spec fn wf(self) -> bool {
        &&& 0 <= self.start <= self.cursor <= self.end <= usize::MAX
        &&& self.bytes.len() == self.end - self.start
    }

    /// A region of `size` zero bytes at `start`, nothing handed out.
    pub open spec fn fresh(start: int, size: int) -> RegionView {
        RegionView {
            start,
            end: start + size,
            cursor: start,
            bytes: Seq::new(size as nat, |i: int| 0u8),
        }
    }

    /// Whether `size` more bytes fit between the cursor and the end.
    pub open spec fn fits(self, size: int) -> bool {
        self.cursor + size <= self.end
    }

    /// What an allocation of `size` bytes answers.
    pub open spec fn alloc_result(self, size: int) -> Result<usize, AllocError> {
        if self.fits(size) {
            Ok(self.cursor as usize)
        } else {
            Err(AllocError::Exhausted)
        }
    }

    /// The region after an allocation of `size` bytes was asked for.
    pub open spec fn after_alloc(self, size: int) -> RegionView {
        if self.fits(size) {
            RegionView { cursor: self.cursor + size, ..self }
        } else {
            self
        }
    }

    /// The region after `data` was asked to be stored in a fresh block.
    pub open spec fn after_alloc_and_copy(self, data: Seq<u8>) -> RegionView {
        if self.fits(data.len() as int) {
            RegionView {
                cursor: self.cursor + data.len(),
                bytes: overwritten(self.bytes, self.cursor - self.start, data),
                ..self
            }
        } else {
            self
        }
    }

    /// Whether the block of `size` bytes at `ptr` starts inside the span and
    /// does not run past its end.
    pub open spec fn holds(self, ptr: int, size: int) -> bool {
        self.start <= ptr < self.end && ptr + size <= self.end
    }

    /// Whether `size` bytes can be read at `ptr`.
    pub open spec fn readable(self, ptr: int, size: int) -> bool {
        ptr != 0 && self.start <= ptr && ptr + size <= self.end
    }

    /// The `size` bytes stored at `ptr`.
    pub open spec fn bytes_at(self, ptr: int, size: int) -> Seq<u8> {
        self.bytes.subrange(ptr - self.start, ptr - self.start + size)
    }

    /// The region after the block of `size` bytes at `ptr` was handed back.
    pub open spec fn after_dealloc(self, ptr: int, size: int) -> RegionView {
        if self.holds(ptr, size) {
            RegionView {
                cursor: if ptr + size == self.cursor { ptr } else { self.cursor },
                bytes: zero_filled(self.bytes, ptr - self.start, size),
                ..self
            }
        } else {
            self
        }
    }

    /// The region with everything reclaimed; the bytes stay as they are.
    pub open spec fn after_reset(self) -> RegionView {
        RegionView { cursor: self.start, ..self }
    }

    /// The answers to allocations of `sizes`, asked one after the other.
    pub open spec fn answers(self, sizes: Seq<usize>) -> Seq<Result<usize, AllocError>>
        decreases sizes.len(),
    {
        if sizes.len() == 0 {
            Seq::empty()
        } else {
            seq![self.alloc_result(sizes[0] as int)] + self.after_alloc(sizes[0] as int).answers(
                sizes.drop_first(),
            )
        }
    }

    /// The region after allocations of `sizes` were asked one after the
    /// other.
    pub open spec fn after_allocs(self, sizes: Seq<usize>) -> RegionView
        decreases sizes.len(),
    {
        if sizes.len() == 0 {
            self
        } else {
            self.after_alloc(sizes[0] as int).after_allocs(sizes.drop_first())
        }
    }
}

/// A bump allocator over one contiguous region whose bytes it owns.
pub struct SimpleAllocator {
    heap_start: usize,
    heap_end: usize,
    current: usize,
    memory: Vec<u8>,
}

impl View for SimpleAllocator {
    type V = RegionView;

    closed spec fn view(&self) -> RegionView {
        RegionView {
            start: self.heap_start as int,
            end: self.heap_end as int,
            cursor: self.current as int,
            bytes: self.memory@,
        }
    }
}

impl SimpleAllocator {
    #[verifier::type_invariant]
    spec fn inv(&self) -> bool {
        self@.wf()
    }

    /// A region of `heap_size` zero bytes whose first address is `heap_start`.
    pub fn new(heap_start: usize, heap_size: usize) -> (region: Self)
        requires
            heap_start + heap_size <= usize::MAX,
        ensures
            region@ == RegionView::fresh(heap_start as int, heap_size as int),
            region@.wf(),
    {
        let memory = vec![0u8; heap_size];
        assert(memory@ =~= Seq::new(heap_size as nat, |i: int| 0u8));
        SimpleAllocator {
            heap_start,
            heap_end: heap_start + heap_size,
            current: heap_start,
            memory,
        }
    }

    /// Hands out the next `size` bytes at the cursor, or reports that they do
    /// not fit before the end of the region.
    pub fn allocate(&mut self, size: usize) -> (result: Result<usize, AllocError>)
        ensures
            result == old(self)@.alloc_result(size as int),
            final(self)@ == old(self)@.after_alloc(size as int),
            final(self)@.wf(),
            result matches Ok(p) ==> old(self)@.start <= p && p + size <= old(self)@.end,
    {
        proof {
            use_type_invariant(&*self);
        }
        if size > self.heap_end - self.current {
            Err(AllocError::Exhausted)
        } else {
            let allocated = self.current;
            self.current = self.current + size;
            Ok(allocated)
        }
    }

    /// Hands out a block of `data.len()` bytes and stores `data` in it.
    pub fn alloc_and_copy(&mut self, data: &[u8]) -> (result: Result<usize, AllocError>)
        ensures
            result == old(self)@.alloc_result(data@.len() as int),
            final(self)@ == old(self)@.after_alloc_and_copy(data@),
            final(self)@.wf(),
            result matches Ok(p) ==> final(self)@.bytes_at(p as int, data@.len() as int)
                == data@,
    {
        proof {
            use_type_invariant(&*self);
        }
        let size = data.len();
        let offset = self.current - self.heap_start;
        match self.allocate(size) {
            Ok(dest) => {
                let mut i: usize = 0;
                while i < size
                    invariant
                        self.inv(),
                        size == data@.len(),
                        offset + size <= self.memory@.len(),
                        self.memory@.len() == old(self).memory@.len(),
                        self.heap_start == old(self).heap_start,
                        self.heap_end == old(self).heap_end,
                        self.current == old(self).current + size,
                        i <= size,
                        forall|k: int|
                            0 <= k < self.memory@.len() ==> self.memory@[k] == (if offset <= k
                                < offset + i {
                                data@[k - offset]
                            } else {
                                old(self).memory@[k]
                            }),
                    decreases size - i,
                {
                    self.memory[offset + i] = data[i];
                    i += 1;
                }
                assert(self.memory@ =~= overwritten(old(self).memory@, offset as int, data@));
                assert(self@.bytes_at(dest as int, size as int) =~= data@);
                Ok(dest)
            },
            Err(e) => Err(e),
        }
    }

    /// The `size` bytes stored at `ptr`, unless `ptr` is null or the block
    /// does not lie between the start and the end of the region.
    pub fn reading(&self, ptr: usize, size: usize) -> (result: Option<&[u8]>)
        ensures
            result is Some <==> self@.readable(ptr as int, size as int),
            result matches Some(bytes) ==> bytes@ == self@.bytes_at(ptr as int, size as int),
    {
        proof {
            use_type_invariant(self);
        }
        if ptr == 0 || ptr < self.heap_start || ptr > self.heap_end || size > self.heap_end
            - ptr {
            None
        } else {
            let offset = ptr - self.heap_start;
            Some(&self.memory.as_slice()[offset..offset + size])
        }
    }

    /// Takes back the block of `size` bytes at `ptr`: clears its bytes and,
    /// where it is the block handed out last, moves the cursor back to it. A
    /// block that does not lie inside the region is reported and left alone.
    pub fn dealloc(&mut self, ptr: usize, size: usize) -> (result: Result<(), AllocError>)
        ensures
            result == (if old(self)@.holds(ptr as int, size as int) {
                Ok::<(), AllocError>(())
            } else {
                Err(AllocError::OutOfRange)
            }),
            final(self)@ == old(self)@.after_dealloc(ptr as int, size as int),
            final(self)@.wf(),
    {
        proof {
            use_type_invariant(&*self);
        }
        if ptr < self.heap_start || ptr >= self.heap_end || size > self.heap_end - ptr {
            return Err(AllocError::OutOfRange);
        }
        let offset = ptr - self.heap_start;
        let mut i: usize = 0;
        while i < size
            invariant
                self.inv(),
                offset + size <= self.memory@.len(),
                self.memory@.len() == old(self).memory@.len(),
                self.heap_start == old(self).heap_start,
                self.heap_end == old(self).heap_end,
                self.current == old(self).current,
                i <= size,
                forall|k: int|
                    0 <= k < self.memory@.len() ==> self.memory@[k] == (if offset <= k < offset
                        + i {
                        0u8
                    } else {
                        old(self).memory@[k]
                    }),
            decreases size - i,
        {
            self.memory[offset + i] = 0;
            i += 1;
        }
        assert(self.memory@ =~= zero_filled(old(self).memory@, offset as int, size as int));
        if ptr <= self.current && size == self.current - ptr {
            self.current = ptr;
        }
        Ok(())
    }

    /// Reclaims the whole region: the cursor goes back to the start. The
    /// bytes are not cleared, and nothing layered above the region is told.
    pub fn reset(&mut self)
        ensures
            final(self)@ == old(self)@.after_reset(),
            final(self)@.wf(),
    {
        proof {
            use_type_invariant(&*self);
        }
        self.current = self.heap_start;
    }

    /// The first address of the region.
    pub fn start(&self) -> (addr: usize)
        ensures
            addr == self@.start,
    {
        self.heap_start
    }

    /// The address one past the last byte of the region.
    pub fn end(&self) -> (addr: usize)
        ensures
            addr == self@.end,
    {
        self.heap_end
    }

    /// The address that the next allocation hands out.
    pub fn cursor(&self) -> (addr: usize)
        ensures
            addr == self@.cursor,
    {
        self.current
    }
}

/// A block that was handed out lies inside the region.
pub proof fn lemma_block_lies_in_region(region: RegionView, size: usize)
    requires
        region.wf(),
    ensures
        region.alloc_result(size as int) matches Ok(p) ==> region.start <= p && p + size
            <= region.end,
        region.after_alloc(size as int).wf(),
{
}

/// Two blocks handed out one directly after the other share no address: the
/// second starts where the first ends.
pub proof fn lemma_consecutive_blocks_are_apart(region: RegionView, first: usize, second: usize)
    requires
        region.wf(),
        region.alloc_result(first as int) is Ok,
        region.after_alloc(first as int).alloc_result(second as int) is Ok,
    ensures
        ({
            let p = region.alloc_result(first as int).unwrap();
            let q = region.after_alloc(first as int).alloc_result(second as int).unwrap();
            &&& q == p + first
            &&& block(p as int, first as int).disjoint(block(q as int, second as int))
        }),
{
}

/// Allocations change neither the span nor the bytes of a region.
pub proof fn lemma_allocs_keep_span_and_bytes(region: RegionView, sizes: Seq<usize>)
    requires
        region.wf(),
    ensures
        region.after_allocs(sizes).wf(),
        region.after_allocs(sizes).start == region.start,
        region.after_allocs(sizes).end == region.end,
        region.after_allocs(sizes).bytes == region.bytes,
    decreases sizes.len(),
{
    if sizes.len() > 0 {
        lemma_allocs_keep_span_and_bytes(region.after_alloc(sizes[0] as int), sizes.drop_first());
    }
}

/// What a run of allocations answers depends on the cursor and the end of
/// the region alone.
pub proof fn lemma_answers_follow_cursor_and_end(
    region: RegionView,
    other: RegionView,
    sizes: Seq<usize>,
)
    requires
        region.cursor == other.cursor,
        region.end == other.end,
    ensures
        region.answers(sizes) == other.answers(sizes),
    decreases sizes.len(),
{
    if sizes.len() > 0 {
        lemma_answers_follow_cursor_and_end(
            region.after_alloc(sizes[0] as int),
            other.after_alloc(sizes[0] as int),
            sizes.drop_first(),
        );
    }
}

/// After a reset the same sizes are answered with the same addresses:
/// whatever happened to the region in between, and in particular after
/// those very allocations.
pub proof fn lemma_reset_replays(region: RegionView, later: RegionView, sizes: Seq<usize>)
    requires
        region.wf(),
        later.start == region.start,
        later.end == region.end,
    ensures
        later.after_reset().answers(sizes) == region.after_reset().answers(sizes),
        region.after_reset().after_allocs(sizes).after_reset().answers(sizes)
            == region.after_reset().answers(sizes),
{
    lemma_answers_follow_cursor_and_end(later.after_reset(), region.after_reset(), sizes);
    lemma_allocs_keep_span_and_bytes(region.after_reset(), sizes);
    lemma_answers_follow_cursor_and_end(
        region.after_reset().after_allocs(sizes).after_reset(),
        region.after_reset(),
        sizes,
    );
}

/// A region without bytes answers every allocation of one byte or more with
/// `Exhausted`, and stays as it is.
pub proof fn lemma_empty_region_is_exhausted(start: int, size: usize)
    requires
        size > 0,
    ensures
        RegionView::fresh(start, 0).alloc_result(size as int) == Err::<usize, AllocError>(
            AllocError::Exhausted,
        ),
        RegionView::fresh(start, 0).after_alloc(size as int) == RegionView::fresh(start, 0),
{
}

/// A block that was handed out last and is handed back puts the region's
/// cursor where it was before the block was handed out.
pub proof fn lemma_last_block_is_reclaimed(region: RegionView, size: usize)
    requires
        region.wf(),
        size > 0,
        region.alloc_result(size as int) is Ok,
    ensures
        region.after_alloc(size as int).after_dealloc(region.cursor, size as int).cursor
            == region.cursor,
{
}

} // verus!
