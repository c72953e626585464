use allocator::error::AllocError;
use allocator::region::SimpleAllocator;

#[test]
fn bump_then_reset_gives_the_same_address() {
    let mut region = SimpleAllocator::new(4096, 1024);
    let a = region.allocate(128).unwrap();
    assert_eq!(a, 4096);
    assert_eq!(region.allocate(256), Ok(a + 128));
    region.reset();
    assert_eq!(region.allocate(128), Ok(a));
}

#[test]
fn seventeen_bytes_do_not_fit_in_sixteen() {
    let mut region = SimpleAllocator::new(64, 16);
    assert_eq!(region.allocate(17), Err(AllocError::Exhausted));
    assert_eq!(region.cursor(), 64);
    assert_eq!(region.allocate(16), Ok(64));
    assert_eq!(region.allocate(1), Err(AllocError::Exhausted));
    assert_eq!(region.allocate(0), Ok(80));
}

#[test]
fn a_region_without_bytes_is_exhausted() {
    let mut region = SimpleAllocator::new(4096, 0);
    assert_eq!(region.allocate(1), Err(AllocError::Exhausted));
    assert_eq!(region.allocate(4096), Err(AllocError::Exhausted));
    assert_eq!(region.start(), 4096);
    assert_eq!(region.end(), 4096);
    assert_eq!(region.cursor(), 4096);
}

#[test]
fn blocks_lie_inside_the_region() {
    let mut region = SimpleAllocator::new(1000, 100);
    let sizes = [1usize, 7, 32, 60];
    for size in sizes {
        let p = region.allocate(size).unwrap();
        assert!(region.start() <= p);
        assert!(p + size <= region.end());
    }
    assert_eq!(region.cursor(), 1100);
    assert_eq!(region.allocate(1), Err(AllocError::Exhausted));
}

#[test]
fn consecutive_blocks_do_not_overlap() {
    let mut region = SimpleAllocator::new(0x1000, 64);
    let p = region.allocate(24).unwrap();
    let q = region.allocate(40).unwrap();
    assert_eq!(p, 0x1000);
    assert_eq!(q, 0x1018);
    assert!(p + 24 <= q);
}

#[test]
fn the_same_sizes_after_a_reset_give_the_same_addresses() {
    let sizes = [16usize, 3, 200, 0, 5, 1000, 40];
    let mut region = SimpleAllocator::new(0x2000, 256);
    let mut before = Vec::new();
    for size in sizes {
        before.push(region.allocate(size));
    }
    assert_eq!(
        before,
        vec![
            Ok(0x2000),
            Ok(0x2010),
            Ok(0x2013),
            Ok(0x20db),
            Ok(0x20db),
            Err(AllocError::Exhausted),
            Err(AllocError::Exhausted),
        ]
    );
    region.reset();
    let mut after = Vec::new();
    for size in sizes {
        after.push(region.allocate(size));
    }
    assert_eq!(before, after);
}

#[test]
fn copied_bytes_are_read_back_and_cleared_on_release() {
    let mut region = SimpleAllocator::new(0x8000, 1024);
    let mem1 = region.allocate(128).unwrap();
    assert_eq!(mem1, 0x8000);
    let data = [1u8, 2, 3, 4, 5];
    let mem2 = region.alloc_and_copy(&data).unwrap();
    assert_eq!(mem2, 0x8080);
    assert_eq!(region.reading(mem2, data.len()), Some(&data[..]));
    assert_eq!(region.reading(mem2 + 1, 3), Some(&data[1..4]));
    assert_eq!(region.dealloc(mem2, data.len()), Ok(()));
    assert_eq!(region.reading(mem2, data.len()), Some(&[0u8; 5][..]));
    assert_eq!(region.cursor(), mem2);
    region.reset();
    assert_eq!(region.cursor(), region.start());
}

#[test]
fn copying_leaves_the_other_bytes_alone() {
    let mut region = SimpleAllocator::new(100, 8);
    assert_eq!(region.alloc_and_copy(&[9, 9, 9]), Ok(100));
    assert_eq!(region.alloc_and_copy(&[7, 7]), Ok(103));
    assert_eq!(region.reading(100, 8), Some(&[9u8, 9, 9, 7, 7, 0, 0, 0][..]));
    assert_eq!(region.alloc_and_copy(&[1, 2, 3, 4]), Err(AllocError::Exhausted));
    assert_eq!(region.reading(100, 8), Some(&[9u8, 9, 9, 7, 7, 0, 0, 0][..]));
    assert_eq!(region.cursor(), 105);
    assert_eq!(region.alloc_and_copy(&[]), Ok(105));
}

#[test]
fn reading_is_checked_against_the_region() {
    let region = SimpleAllocator::new(16, 32);
    assert_eq!(region.reading(0, 0), None);
    assert_eq!(region.reading(0, 4), None);
    assert_eq!(region.reading(15, 1), None);
    assert_eq!(region.reading(16, 33), None);
    assert_eq!(region.reading(40, 9), None);
    assert_eq!(region.reading(49, 0), None);
    assert_eq!(region.reading(usize::MAX, 2), None);
    assert_eq!(region.reading(16, 32).map(|bytes| bytes.len()), Some(32));
    assert_eq!(region.reading(48, 0), Some(&[][..]));
    assert_eq!(region.reading(47, 1), Some(&[0u8][..]));
}

#[test]
fn a_region_at_address_zero_cannot_be_read_at_its_start() {
    let mut region = SimpleAllocator::new(0, 8);
    assert_eq!(region.allocate(4), Ok(0));
    assert_eq!(region.reading(0, 4), None);
    assert_eq!(region.reading(1, 3), Some(&[0u8, 0, 0][..]));
}

#[test]
fn a_block_outside_the_region_is_reported() {
    let mut region = SimpleAllocator::new(100, 50);
    assert_eq!(region.alloc_and_copy(&[5; 50]), Ok(100));
    assert_eq!(region.dealloc(99, 1), Err(AllocError::OutOfRange));
    assert_eq!(region.dealloc(150, 0), Err(AllocError::OutOfRange));
    assert_eq!(region.dealloc(150, 1), Err(AllocError::OutOfRange));
    assert_eq!(region.dealloc(140, 11), Err(AllocError::OutOfRange));
    assert_eq!(region.dealloc(0, 8), Err(AllocError::OutOfRange));
    assert_eq!(region.dealloc(120, usize::MAX), Err(AllocError::OutOfRange));
    assert_eq!(region.cursor(), 150);
    assert_eq!(region.reading(100, 50), Some(&[5u8; 50][..]));
}

#[test]
fn only_the_last_block_moves_the_cursor_back() {
    let mut region = SimpleAllocator::new(100, 50);
    let a = region.alloc_and_copy(&[1; 10]).unwrap();
    let b = region.alloc_and_copy(&[2; 10]).unwrap();
    let c = region.alloc_and_copy(&[3; 10]).unwrap();
    assert_eq!((a, b, c), (100, 110, 120));
    assert_eq!(region.dealloc(b, 10), Ok(()));
    assert_eq!(region.cursor(), 130);
    assert_eq!(region.reading(a, 30).unwrap()[..10], [1u8; 10]);
    assert_eq!(region.reading(a, 30).unwrap()[10..20], [0u8; 10]);
    assert_eq!(region.reading(a, 30).unwrap()[20..], [3u8; 10]);
    assert_eq!(region.dealloc(c, 10), Ok(()));
    assert_eq!(region.cursor(), 120);
    assert_eq!(region.allocate(10), Ok(120));
    assert_eq!(region.dealloc(140, 10), Ok(()));
    assert_eq!(region.cursor(), 130);
    assert_eq!(region.dealloc(a, 30), Ok(()));
    assert_eq!(region.cursor(), 100);
    assert_eq!(region.reading(100, 50), Some(&[0u8; 50][..]));
}
