//! Tests of the frame allocator, the page mapper, and heap bring-up.
use rustos::allocator;
use rustos::memory::{BootInfoFrameAllocator, MemoryRegion, RegionKind, FRAME_SIZE};
use rustos::paging::{MapError, PageMapper, PageTableFlags, TranslateResult};

fn region(start: u64, end: u64, kind: RegionKind) -> MemoryRegion {
    MemoryRegion { start, end, kind }
}

fn small_map() -> Vec<MemoryRegion> {
    vec![
        region(0, 0x3000, RegionKind::Usable),
        region(0x3000, 0x5000, RegionKind::Reserved),
        region(0x5000, 0x5800, RegionKind::Usable),
    ]
}

#[test]
fn frame_allocator_walks_usable_regions_in_order() {
    let mut fa = BootInfoFrameAllocator::init(small_map());
    // Three frames from the first region, one started frame from the last.
    assert_eq!(fa.allocate_frame(), Some(0));
    assert_eq!(fa.allocate_frame(), Some(0x1000));
    assert_eq!(fa.allocate_frame(), Some(0x2000));
    assert_eq!(fa.allocate_frame(), Some(0x5000));
    assert_eq!(fa.allocate_frame(), None);
    // The cursor still advances after exhaustion: frames are never reissued.
    assert_eq!(fa.next, 5);
}

#[test]
fn frame_allocator_aligns_frames_down() {
    let mut fa = BootInfoFrameAllocator::init(vec![
        region(0x1100, 0x3100, RegionKind::Usable),
    ]);
    // Steps of 4096 from 0x1100, each aligned down to a frame boundary.
    assert_eq!(fa.allocate_frame(), Some(0x1000));
    assert_eq!(fa.allocate_frame(), Some(0x2000));
    assert_eq!(fa.allocate_frame(), None);
}

#[test]
fn frame_allocator_skips_reserved_and_empty_regions() {
    let mut fa = BootInfoFrameAllocator::init(vec![
        region(0, 0x1000, RegionKind::Reserved),
        region(0x1000, 0x1000, RegionKind::Usable),
        region(0x8000, 0x9000, RegionKind::Usable),
    ]);
    assert_eq!(fa.allocate_frame(), Some(0x8000));
    assert_eq!(fa.allocate_frame(), None);
}

#[test]
fn frames_are_never_reissued() {
    // A well-formed map: aligned, ordered, disjoint regions.
    let mut fa = BootInfoFrameAllocator::init(vec![
        region(0, 0x2000, RegionKind::Usable),
        region(0x2000, 0x3000, RegionKind::Reserved),
        region(0x3000, 0x6000, RegionKind::Usable),
    ]);
    let mut issued = Vec::new();
    while let Some(frame) = fa.allocate_frame() {
        // Monotonic consumption: every issued frame is new.
        assert!(!issued.contains(&frame), "frame {:#x} reissued", frame);
        issued.push(frame);
    }
    assert_eq!(issued, vec![0, 0x1000, 0x3000, 0x4000, 0x5000]);
}

#[test]
fn translate_unmapped_page() {
    let mapper = PageMapper::new();
    assert_eq!(mapper.translate_addr(0xdead_b000), TranslateResult::Unmapped);
    assert_eq!(mapper.translate_addr(0), TranslateResult::Unmapped);
}

#[test]
fn map_then_translate_covers_the_page() {
    let mut mapper = PageMapper::new();
    let mut fa = BootInfoFrameAllocator::init(vec![
        region(0, 0x10000, RegionKind::Usable),
    ]);
    let flags = PageTableFlags { present: true, writable: true };
    let page = 0x4444_4444_0000u64;
    let frame = 0x7000u64;
    mapper.map(page, frame, flags, &mut fa).expect("mapping must succeed");
    // Three intermediate tables were created, one frame each.
    assert_eq!(fa.next, 3);
    // Any offset within the page translates to the frame plus that offset.
    for offset in [0u64, 1, 0x42, 0xfff] {
        assert_eq!(
            mapper.translate_addr(page + offset),
            TranslateResult::Mapped(frame + offset)
        );
    }
    // Neighbouring pages stay unmapped.
    assert_eq!(mapper.translate_addr(page - 1), TranslateResult::Unmapped);
    assert_eq!(mapper.translate_addr(page + 0x1000), TranslateResult::Unmapped);
}

#[test]
fn map_twice_reports_page_already_mapped() {
    let mut mapper = PageMapper::new();
    let mut fa = BootInfoFrameAllocator::init(vec![
        region(0, 0x10000, RegionKind::Usable),
    ]);
    let flags = PageTableFlags { present: true, writable: true };
    assert_eq!(mapper.map(0x1000, 0x2000, flags, &mut fa), Ok(()));
    assert_eq!(
        mapper.map(0x1000, 0x3000, flags, &mut fa),
        Err(MapError::PageAlreadyMapped)
    );
    // The original mapping is untouched.
    assert_eq!(mapper.translate_addr(0x1000), TranslateResult::Mapped(0x2000));
}

#[test]
fn map_without_frames_reports_allocation_failure() {
    let mut mapper = PageMapper::new();
    let mut fa = BootInfoFrameAllocator::init(vec![
        region(0, 0x2000, RegionKind::Usable),
    ]);
    let flags = PageTableFlags { present: true, writable: true };
    // Three tables are needed but only two frames exist.
    assert_eq!(
        mapper.map(0x5000, 0x6000, flags, &mut fa),
        Err(MapError::FrameAllocationFailed)
    );
    assert_eq!(mapper.translate_addr(0x5000), TranslateResult::Unmapped);
}

#[test]
fn sibling_pages_share_intermediate_tables() {
    let mut mapper = PageMapper::new();
    let mut fa = BootInfoFrameAllocator::init(vec![
        region(0, 0x10000, RegionKind::Usable),
    ]);
    let flags = PageTableFlags { present: true, writable: true };
    assert_eq!(mapper.map(0x1000, 0xa000, flags, &mut fa), Ok(()));
    assert_eq!(fa.next, 3);
    // The second page walks the same tables: no further frame is consumed.
    assert_eq!(mapper.map(0x2000, 0xb000, flags, &mut fa), Ok(()));
    assert_eq!(fa.next, 3);
    assert_eq!(mapper.translate_addr(0x1000), TranslateResult::Mapped(0xa000));
    assert_eq!(mapper.translate_addr(0x2000), TranslateResult::Mapped(0xb000));
}

#[test]
fn heap_init_maps_the_whole_heap_and_seeds_the_allocator() {
    let mut mapper = PageMapper::new();
    // Plenty of frames: 25 page frames plus intermediate tables.
    let mut fa = BootInfoFrameAllocator::init(vec![
        region(0x10_0000, 0x10_0000 + 200 * 0x1000, RegionKind::Usable),
    ]);
    let mut heap = allocator::block::Allocator::new();
    allocator::init(&mut mapper, &mut fa, &mut heap).expect("heap bring-up must succeed");
    for k in 0..25u64 {
        match mapper.translate_addr(allocator::HEAP_START + k * FRAME_SIZE) {
            TranslateResult::Mapped(_) => {},
            other => panic!("heap page {} not mapped: {:?}", k, other),
        }
    }
    // The whole heap region went to the fallback allocator as one span.
    assert_eq!(heap.fallback_allocator.head.len(), 1);
    assert_eq!(heap.fallback_allocator.head[0].addr, allocator::HEAP_START);
    assert_eq!(heap.fallback_allocator.head[0].size, allocator::HEAP_SIZE);
    // And the heap serves allocations.
    assert!(heap.allocate(64, 8).is_some());
}

#[test]
fn heap_init_fails_without_frames() {
    let mut mapper = PageMapper::new();
    let mut fa = BootInfoFrameAllocator::init(vec![
        region(0, 0x2000, RegionKind::Usable),
    ]);
    let mut heap = allocator::block::Allocator::new();
    assert_eq!(
        allocator::init(&mut mapper, &mut fa, &mut heap),
        Err(MapError::FrameAllocationFailed)
    );
    // The heap allocator was left untouched.
    assert!(heap.fallback_allocator.head.is_empty());
}
