//! Tests of the heap allocator family: bump, linked-list, and block.
use rustos::allocator::{align_up, HEAP_SIZE, HEAP_START};
use rustos::allocator::block;
use rustos::allocator::bump;
use rustos::allocator::list;

#[test]
fn align_up_values() {
    assert_eq!(align_up(0, 8), 0);
    assert_eq!(align_up(1, 8), 8);
    assert_eq!(align_up(8, 8), 8);
    assert_eq!(align_up(9, 16), 16);
    assert_eq!(align_up(4095, 4096), 4096);
    assert_eq!(align_up(4096, 4096), 4096);
    assert_eq!(align_up(100, 1), 100);
}

#[test]
fn heap_constants() {
    assert_eq!(HEAP_START, 0x4444_4444_0000);
    assert_eq!(HEAP_SIZE, 100 * 1024);
}

#[test]
fn bump_allocates_and_resets_only_at_zero() {
    let mut a = bump::Allocator::new();
    a.init(1000, 100);
    let p1 = a.allocate(10, 1).unwrap();
    assert_eq!(p1, 1000);
    let p2 = a.allocate(10, 8).unwrap();
    // Cursor was at 1010; aligned up to 1016.
    assert_eq!(p2, 1016);
    assert_eq!(a.allocations, 2);

    // Out-of-order deallocation: the count is a counter, not a stack. The
    // first return must not rewind the cursor; the last one must.
    a.deallocate();
    assert_eq!(a.allocations, 1);
    assert_eq!(a.next, 1026);
    a.deallocate();
    assert_eq!(a.allocations, 0);
    assert_eq!(a.next, 1000);
}

#[test]
fn bump_fails_when_full_without_state_change() {
    let mut a = bump::Allocator::new();
    a.init(0, 64);
    assert_eq!(a.allocate(48, 1), Some(0));
    let before_next = a.next;
    let before_count = a.allocations;
    assert_eq!(a.allocate(32, 1), None);
    assert_eq!(a.next, before_next);
    assert_eq!(a.allocations, before_count);
    // The rest still fits exactly.
    assert_eq!(a.allocate(16, 1), Some(48));
}

#[test]
fn list_alloc_then_dealloc_restores_region() {
    let mut a = list::Allocator::new();
    a.init(0x1000, 0x100);
    let p = a.allocate(40, 8).unwrap();
    assert_eq!(p, 0x1000);
    // The remainder was split back as one free span.
    assert_eq!(a.head.len(), 1);
    assert_eq!(a.head[0].addr, 0x1000 + 40);
    assert_eq!(a.head[0].size, 0x100 - 40);
    a.deallocate(p, 40, 8);
    // Exactly one new span covering the original allocation, at the head.
    assert_eq!(a.head.len(), 2);
    assert_eq!(a.head[0].addr, 0x1000);
    assert_eq!(a.head[0].size, 40);
    // No byte lost: the two spans together cover the initial region.
    let total: u64 = a.head.iter().map(|n| n.size).sum();
    assert_eq!(total, 0x100);
}

#[test]
fn list_first_fit_skips_small_spans() {
    let mut a = list::Allocator::new();
    // Two free spans: a small one in front, a large one behind.
    a.add_free_region(0x2000, 128);
    a.add_free_region(0x1000, 32);
    let p = a.allocate(64, 8).unwrap();
    // The 32-byte span in front cannot serve 64 bytes; the allocation comes
    // from the first span that fits.
    assert_eq!(p, 0x2000);
    // The small span is untouched and the excess of the large one was split
    // back in at the head.
    assert_eq!(a.head.len(), 2);
    assert_eq!(a.head[0].addr, 0x2000 + 64);
    assert_eq!(a.head[0].size, 64);
    assert_eq!(a.head[1].addr, 0x1000);
}

#[test]
fn list_allocation_fails_with_no_fitting_span() {
    let mut a = list::Allocator::new();
    a.init(0x1000, 64);
    assert_eq!(a.allocate(128, 8), None);
    // Nothing changed: the span is still there.
    assert_eq!(a.head.len(), 1);
    assert_eq!(a.head[0].size, 64);
}

#[test]
fn list_whole_region_consumed_when_tail_too_small() {
    let mut a = list::Allocator::new();
    a.init(0x1000, 48);
    // Requesting 40 bytes leaves an 8-byte tail, too small to host a node:
    // the region cannot serve the request at all.
    assert_eq!(a.allocate(33, 8), None);
    // Requesting the whole region works.
    assert_eq!(a.allocate(48, 8), Some(0x1000));
    assert_eq!(a.head.len(), 0);
}

#[test]
fn block_chooses_smallest_class() {
    // For every size, the chosen class is the smallest tabled size at least
    // max(size, align).
    let sizes = [8u64, 16, 32, 64, 128, 256, 512, 1024, 2048];
    for s in 1..=2048u64 {
        let idx = block::list_index(s, 1).expect("sizes up to 2048 are classed");
        let class = sizes[idx];
        assert!(class >= s);
        if idx > 0 {
            assert!(sizes[idx - 1] < s);
        }
    }
    assert_eq!(block::list_index(9, 64), Some(3));
    assert_eq!(block::list_index(2048, 1), Some(8));
    assert_eq!(block::list_index(2049, 1), None);
    assert_eq!(block::list_index(1, 4096), None);
}

#[test]
fn block_size_table() {
    let expected = [8u64, 16, 32, 64, 128, 256, 512, 1024, 2048];
    for (i, v) in expected.iter().enumerate() {
        assert_eq!(block::block_size(i), *v);
    }
}

#[test]
fn block_reuses_freed_blocks_without_touching_fallback() {
    let mut a = block::Allocator::new();
    a.init(0x10000, 0x1000);
    // First allocation of a class carves from the fallback.
    let p1 = a.allocate(24, 8).unwrap();
    let fallback_after_first: Vec<_> = a.fallback_allocator.head.clone();
    a.deallocate(p1, 24, 8);
    // Freeing then allocating the same class reuses the freed block exactly,
    // and the fallback stays as it was.
    let p2 = a.allocate(30, 8).unwrap();
    assert_eq!(p2, p1);
    assert_eq!(a.fallback_allocator.head, fallback_after_first);
    a.deallocate(p2, 30, 8);
    // Repeating the cycle never grows fallback usage.
    for _ in 0..10 {
        let p = a.allocate(25, 8).unwrap();
        assert_eq!(p, p1);
        a.deallocate(p, 25, 8);
        assert_eq!(a.fallback_allocator.head, fallback_after_first);
    }
}

#[test]
fn block_oversized_requests_bypass_classing() {
    let mut a = block::Allocator::new();
    a.init(0x10000, 0x4000);
    let p = a.allocate(4000, 8).unwrap();
    assert_eq!(p, 0x10000);
    // No class list was touched.
    for list in a.list_heads.iter() {
        assert!(list.is_empty());
    }
    a.deallocate(p, 4000, 8);
    // The span went back to the fallback, not to a class list.
    for list in a.list_heads.iter() {
        assert!(list.is_empty());
    }
    assert_eq!(a.fallback_allocator.head[0].addr, 0x10000);
}
