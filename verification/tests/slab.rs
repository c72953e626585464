use allocator::error::AllocError;
use allocator::fallback::{
    granted, is_searchable, search, smallest_region, word_size, FIT_SLACK,
};
use allocator::size_class::{Request, SizeClasses};
use allocator::slab::{Release, SlabAllocator, SlabTier};
use linked_list_allocator::Heap;
use std::mem::MaybeUninit;

fn memory(bytes: usize) -> &'static mut [MaybeUninit<u8>] {
    Vec::leak(vec![MaybeUninit::<u8>::uninit(); bytes])
}

/// `bytes` of memory whose first address is `offset` above a multiple of
/// `align`.
fn memory_at(bytes: usize, align: usize, offset: usize) -> &'static mut [MaybeUninit<u8>] {
    let whole = memory(bytes + align + offset);
    let skip = (align - whole.as_ptr() as usize % align) % align + offset;
    &mut whole[skip..skip + bytes]
}

fn round_up(n: usize, to: usize) -> usize {
    n.div_ceil(to) * to
}

fn ready(bytes: usize) -> SlabAllocator {
    let mut slab = SlabAllocator::new();
    assert!(slab.init(memory(bytes)));
    slab
}

fn request(size: usize, align: usize) -> Request {
    Request::new(size, align).unwrap()
}

#[test]
fn a_freed_block_of_a_class_is_served_again() {
    let mut slab = ready(4096);
    let first = slab.allocate(request(20, 1)).unwrap();
    assert_eq!(first % 32, 0);
    assert_eq!(slab.dealloc(first, request(20, 1)), Ok(Release::Cached(2)));
    assert_eq!(slab.tier().cached_blocks(2), 1);
    assert_eq!(slab.allocate(request(20, 1)), Ok(first));
    assert_eq!(slab.tier().cached_blocks(2), 0);
}

#[test]
fn freed_blocks_come_back_last_in_first_out() {
    let mut slab = ready(4096);
    let a = slab.allocate(request(64, 8)).unwrap();
    let b = slab.allocate(request(40, 8)).unwrap();
    let c = slab.allocate(request(33, 1)).unwrap();
    assert!(a != b && b != c && a != c);
    assert_eq!(slab.dealloc(a, request(64, 8)), Ok(Release::Cached(3)));
    assert_eq!(slab.dealloc(b, request(40, 8)), Ok(Release::Cached(3)));
    assert_eq!(slab.dealloc(c, request(33, 1)), Ok(Release::Cached(3)));
    assert_eq!(slab.tier().cached_blocks(3), 3);
    assert_eq!(slab.allocate(request(50, 2)), Ok(c));
    assert_eq!(slab.allocate(request(64, 64)), Ok(b));
    assert_eq!(slab.allocate(request(34, 4)), Ok(a));
    assert_eq!(slab.tier().cached_blocks(3), 0);
    let d = slab.allocate(request(64, 8)).unwrap();
    assert!(d != a && d != b && d != c);
}

#[test]
fn a_freed_block_serves_its_own_class_only() {
    let mut slab = ready(4096);
    let a = slab.allocate(request(20, 1)).unwrap();
    assert_eq!(slab.dealloc(a, request(20, 1)), Ok(Release::Cached(2)));
    let b = slab.allocate(request(40, 1)).unwrap();
    assert!(b != a);
    assert_eq!(slab.tier().cached_blocks(2), 1);
    assert_eq!(slab.allocate(request(32, 32)), Ok(a));
}

#[test]
fn an_oversized_request_goes_to_the_heap() {
    let mut slab = ready(1 << 16);
    let small = slab.allocate(request(2048, 1)).unwrap();
    assert_eq!(slab.dealloc(small, request(2048, 1)), Ok(Release::Cached(8)));
    let counts: Vec<usize> = (0..9).map(|i| slab.tier().cached_blocks(i)).collect();
    assert_eq!(counts, vec![0, 0, 0, 0, 0, 0, 0, 0, 1]);
    let big = slab.allocate(request(4096, 8)).unwrap();
    assert!(big != small);
    assert_eq!(big % 8, 0);
    assert!(slab.bottom() <= big && big + 4096 <= slab.bottom() + slab.size());
    let after: Vec<usize> = (0..9).map(|i| slab.tier().cached_blocks(i)).collect();
    assert_eq!(after, counts);
    assert_eq!(slab.dealloc(big, request(4096, 8)), Ok(Release::Fallback));
    let then: Vec<usize> = (0..9).map(|i| slab.tier().cached_blocks(i)).collect();
    assert_eq!(then, counts);
    assert_eq!(slab.allocate(request(2049, 1)).map(|p| p == small), Ok(false));
}

#[test]
fn an_allocator_without_memory_is_exhausted() {
    let mut slab = SlabAllocator::new();
    assert_eq!(slab.bottom(), 0);
    assert_eq!(slab.size(), 0);
    assert_eq!(slab.allocate(request(1, 1)), Err(AllocError::Exhausted));
    assert_eq!(slab.allocate(request(20, 1)), Err(AllocError::Exhausted));
    assert_eq!(slab.allocate(request(5000, 8)), Err(AllocError::Exhausted));
    assert!(!slab.init(memory(0)));
    assert_eq!(slab.allocate(request(1, 1)), Err(AllocError::Exhausted));
    assert_eq!(slab.size(), 0);
}

#[test]
fn memory_is_taken_once_and_not_when_it_is_too_small() {
    let mut slab = SlabAllocator::new();
    assert_eq!(smallest_region(), 3 * std::mem::size_of::<usize>() - 1);
    assert!(!slab.init(memory(smallest_region() - 1)));
    assert_eq!(slab.bottom(), 0);
    let mem = memory(1024);
    let address = mem.as_ptr() as usize;
    assert!(slab.init(mem));
    assert_eq!(slab.bottom(), address);
    assert_eq!(slab.size(), 1024);
    assert!(!slab.init(memory(2048)));
    assert_eq!(slab.bottom(), address);
    assert_eq!(slab.size(), 1024);
}

#[test]
fn blocks_from_the_heap_lie_in_its_memory_and_apart() {
    let mut slab = ready(8192);
    let low = slab.bottom();
    let high = low + slab.size();
    let asks = [(8usize, 1usize), (16, 16), (100, 4), (1000, 8), (3000, 64), (24, 8), (2048, 2048)];
    let mut blocks: Vec<(usize, usize)> = Vec::new();
    for (size, align) in asks {
        let addr = slab.allocate(request(size, align)).unwrap();
        assert_ne!(addr, 0);
        assert_eq!(addr % align, 0);
        assert!(low <= addr && addr + size <= high);
        for &(other, other_size) in &blocks {
            assert!(addr + size <= other || other + other_size <= addr);
        }
        blocks.push((addr, size));
    }
}

#[test]
fn a_fresh_block_of_a_class_starts_on_a_boundary_of_its_size() {
    let mut slab = ready(1 << 14);
    let asks = [(1usize, 8usize), (9, 16), (20, 32), (100, 128), (600, 1024), (1025, 2048)];
    for (size, class) in asks {
        let addr = slab.allocate(request(size, 1)).unwrap();
        assert_eq!(addr % class, 0);
    }
}

#[test]
fn a_request_larger_than_the_memory_is_exhausted() {
    let mut slab = ready(1024);
    assert_eq!(slab.allocate(request(4096, 8)), Err(AllocError::Exhausted));
    assert_eq!(slab.allocate(request(2048, 1)), Err(AllocError::Exhausted));
    assert_eq!(slab.allocate(request(1025, 1)), Err(AllocError::Exhausted));
    assert!(slab.allocate(request(64, 8)).is_ok());
}

#[test]
fn a_request_that_leaves_machine_arithmetic_is_exhausted() {
    let mut slab = ready(1024);
    let limit = isize::MAX as usize;
    assert_eq!(slab.allocate(request(limit, 1)), Err(AllocError::Exhausted));
    assert_eq!(slab.allocate(request(limit - 70, 8)), Err(AllocError::Exhausted));
    assert_eq!(slab.allocate(request(0, 1 << 62)), Err(AllocError::Exhausted));
    assert!(slab.allocate(request(64, 8)).is_ok());
}

#[test]
fn the_heap_runs_out_and_freed_blocks_still_serve() {
    let mut slab = ready(1024);
    let mut held = Vec::new();
    loop {
        match slab.allocate(request(128, 1)) {
            Ok(addr) => held.push(addr),
            Err(e) => {
                assert_eq!(e, AllocError::Exhausted);
                break;
            }
        }
        assert!(held.len() <= 8);
    }
    assert!(held.len() >= 4);
    let last = held.pop().unwrap();
    assert_eq!(slab.dealloc(last, request(128, 1)), Ok(Release::Cached(4)));
    assert_eq!(slab.allocate(request(128, 1)), Ok(last));
    assert_eq!(slab.allocate(request(128, 1)), Err(AllocError::Exhausted));
}

#[test]
fn a_block_outside_the_memory_is_reported() {
    let mut slab = ready(1024);
    let low = slab.bottom();
    let high = low + 1024;
    assert_eq!(slab.dealloc(0, request(20, 1)), Err(AllocError::OutOfRange));
    assert_eq!(slab.dealloc(low - 1, request(20, 1)), Err(AllocError::OutOfRange));
    assert_eq!(slab.dealloc(high, request(20, 1)), Err(AllocError::OutOfRange));
    assert_eq!(slab.dealloc(high - 31, request(20, 1)), Err(AllocError::OutOfRange));
    assert_eq!(slab.dealloc(high - 8, request(4096, 1)), Err(AllocError::OutOfRange));
    assert_eq!(slab.dealloc(0, request(4096, 1)), Err(AllocError::OutOfRange));
    assert_eq!(slab.tier().cached_blocks(2), 0);
    assert_eq!(slab.dealloc(high - 32, request(20, 1)), Ok(Release::Cached(2)));
    assert_eq!(slab.tier().cached_blocks(2), 1);
    let mut empty = SlabAllocator::new();
    assert_eq!(empty.dealloc(64, request(20, 1)), Err(AllocError::OutOfRange));
}

#[test]
fn a_table_of_one_s_own_routes_the_requests() {
    let classes = SizeClasses::new(vec![64, 256]).unwrap();
    let mut slab = SlabAllocator::with_classes(classes);
    assert_eq!(slab.tier().classes().len(), 2);
    assert!(slab.init(memory(4096)));
    let a = slab.allocate(request(20, 1)).unwrap();
    assert_eq!(a % 64, 0);
    assert_eq!(slab.dealloc(a, request(1, 1)), Ok(Release::Cached(0)));
    assert_eq!(slab.allocate(request(64, 1)), Ok(a));
    let b = slab.allocate(request(257, 1)).unwrap();
    assert_eq!(slab.dealloc(b, request(257, 1)), Ok(Release::Fallback));
    assert_eq!(slab.tier().cached_blocks(0), 0);
    assert_eq!(slab.tier().cached_blocks(1), 0);
    assert_eq!(slab.tier().cached_blocks(2), 0);
}

#[test]
fn the_tier_pops_before_it_asks_the_heap() {
    let mut heap = Heap::empty();
    let mut tier = SlabTier::new(SizeClasses::standard());
    assert_eq!(tier.allocate(0, &mut heap), Err(AllocError::Exhausted));
    tier.dealloc(0, 0x1000);
    tier.dealloc(0, 0x2000);
    tier.dealloc(5, 0x3000);
    assert_eq!(tier.cached_blocks(0), 2);
    assert_eq!(tier.cached_blocks(5), 1);
    assert_eq!(tier.cached_blocks(9), 0);
    assert_eq!(tier.allocate(0, &mut heap), Ok(0x2000));
    assert_eq!(tier.allocate(5, &mut heap), Ok(0x3000));
    assert_eq!(tier.allocate(0, &mut heap), Ok(0x1000));
    assert_eq!(tier.allocate(0, &mut heap), Err(AllocError::Exhausted));
    assert_eq!(tier.allocate(5, &mut heap), Err(AllocError::Exhausted));
}

#[test]
fn what_the_heap_found_becomes_the_answer() {
    assert_eq!(granted(Some(0x4000)), Ok(0x4000));
    assert_eq!(granted(Some(0)), Ok(0));
    assert_eq!(granted(None), Err(AllocError::Exhausted));
}

#[test]
fn a_search_is_made_only_within_machine_arithmetic() {
    let mut heap = Heap::empty();
    assert_eq!(FIT_SLACK, 64);
    assert!(is_searchable(&heap, 16, 8));
    assert!(!is_searchable(&heap, 16, 0));
    assert!(!is_searchable(&heap, 16, 12));
    let limit = isize::MAX as usize;
    assert!(is_searchable(&heap, limit - 65, 1));
    assert!(!is_searchable(&heap, limit - 64, 1));
    assert!(!is_searchable(&heap, usize::MAX, 1));
    assert!(is_searchable(&heap, 0, 1 << 62));
    assert!(!is_searchable(&heap, 0, 1 << 63));
    assert_eq!(search(&mut heap, 16, 8), Err(AllocError::Exhausted));
    assert_eq!(search(&mut heap, 16, 12), Err(AllocError::Exhausted));
    heap.init_from_slice(memory(256));
    assert!(is_searchable(&heap, 16, 8));
    assert!(!is_searchable(&heap, 16, 12));
    assert!(!is_searchable(&heap, usize::MAX / 2, 1 << 62));
    let low = heap.bottom();
    let found = search(&mut heap, 100, 16).unwrap();
    assert_eq!(found % 16, 0);
    assert!(low <= found && found + 100 <= low + 256);
    assert_eq!(search(&mut heap, 16, 12), Err(AllocError::Exhausted));
    assert_eq!(search(&mut heap, 200, 1), Err(AllocError::Exhausted));
    let next = search(&mut heap, 64, 1).unwrap();
    assert!(next >= found + 100 || next + 64 <= found);
}

#[test]
fn a_word_is_the_size_of_an_address() {
    assert_eq!(word_size(), std::mem::size_of::<usize>());
    assert_eq!(smallest_region(), 3 * word_size() - 1);
}

#[test]
fn the_smallest_memory_is_taken() {
    let mut slab = SlabAllocator::new();
    assert!(slab.init(memory_at(smallest_region(), 8, 1)));
    assert_eq!(slab.size(), smallest_region());
    assert_eq!(slab.bottom() % 8, 1);
}

#[test]
fn fresh_memory_is_free_from_its_first_word_boundary() {
    let word = word_size();
    for offset in [0usize, 1, 3, 7] {
        let mem = memory_at(4096, 4096, offset);
        let bottom = mem.as_ptr() as usize;
        let mut heap = Heap::empty();
        heap.init_from_slice(mem);
        assert_eq!(heap.bottom(), bottom);
        assert_eq!(search(&mut heap, 64, 1), Ok(round_up(bottom, word)));
    }
}

#[test]
fn the_first_block_of_a_class_starts_where_the_free_block_gives() {
    let word = word_size();
    for offset in [0usize, 8, 24, 5] {
        let mut slab = SlabAllocator::new();
        assert!(slab.init(memory_at(4096, 4096, offset)));
        let first = round_up(slab.bottom(), word);
        let expected = if first % 32 == 0 { first } else { round_up(first + 2 * word, 32) };
        assert_eq!(slab.allocate(request(20, 1)), Ok(expected));
    }
}

#[test]
fn the_heap_serves_from_the_first_free_block_that_fits() {
    let word = word_size();
    let mut heap = Heap::empty();
    heap.init_from_slice(memory_at(1024, 1024, 0));
    let bottom = heap.bottom();
    assert_eq!(search(&mut heap, 100, 1), Ok(bottom));
    let taken = round_up(100, word);
    assert_eq!(search(&mut heap, 1, 1), Ok(bottom + taken));
    assert_eq!(search(&mut heap, 8, 256), Ok(bottom + 256));
    let next = bottom + taken + 2 * word;
    assert_eq!(search(&mut heap, 3 * word, 1), Ok(next));
    assert_eq!(search(&mut heap, 700, 512), Err(AllocError::Exhausted));
    assert_eq!(search(&mut heap, 512, 512), Ok(bottom + 512));
}

#[test]
fn a_free_block_is_used_only_if_nothing_or_two_words_are_left() {
    let word = word_size();
    let mut heap = Heap::empty();
    heap.init_from_slice(memory_at(8 * word, 64, 0));
    let bottom = heap.bottom();
    assert_eq!(search(&mut heap, 5 * word, 1), Ok(bottom));
    assert_eq!(search(&mut heap, 2 * word, 1), Err(AllocError::Exhausted));
    assert_eq!(search(&mut heap, 4 * word, 1), Err(AllocError::Exhausted));
    assert_eq!(search(&mut heap, 3 * word, 1), Ok(bottom + 5 * word));
    assert_eq!(search(&mut heap, 0, 1), Err(AllocError::Exhausted));
}

#[test]
fn a_request_of_no_bytes_takes_two_words() {
    let word = word_size();
    let mut heap = Heap::empty();
    assert_eq!(search(&mut heap, 0, 1), Err(AllocError::Exhausted));
    heap.init_from_slice(memory_at(256, 64, 0));
    let bottom = heap.bottom();
    assert_eq!(search(&mut heap, 0, 1), Ok(bottom));
    assert_eq!(search(&mut heap, 0, 1), Ok(bottom + 2 * word));
    let mut slab = SlabAllocator::new();
    assert_eq!(slab.allocate(request(0, 4096)), Err(AllocError::Exhausted));
}
