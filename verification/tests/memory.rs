use kernel_core::memory::BootInfoFrameAllocator;
use kernel_core::memory::EmptyFrameAllocator;
use kernel_core::memory::FrameAllocator;
use kernel_core::memory::MapError;
use kernel_core::memory::MemoryRegion;
use kernel_core::memory::Page;
use kernel_core::memory::PhysFrame;
use kernel_core::memory::create_example_mapping;
use kernel_core::memory::init;
use kernel_core::memory::init_frame_allocator;

fn region(start: u64, end: u64, usable: bool) -> MemoryRegion {
    MemoryRegion { start, end, usable }
}

fn pool(frames: Vec<u64>) -> BootInfoFrameAllocator {
    BootInfoFrameAllocator { frames, next: 0 }
}

#[test]
fn region_sequence_yields_frames_in_order() {
    let map = vec![
        region(0x0, 0x3000, true),
        region(0x3000, 0x5000, false),
        region(0x5000, 0x6000, true),
    ];
    let mut allocator = init_frame_allocator(&map);
    assert_eq!(allocator.allocate_frame(), Some(PhysFrame { start_address: 0x0 }));
    assert_eq!(allocator.allocate_frame(), Some(PhysFrame { start_address: 0x1000 }));
    assert_eq!(allocator.allocate_frame(), Some(PhysFrame { start_address: 0x2000 }));
    assert_eq!(allocator.allocate_frame(), Some(PhysFrame { start_address: 0x5000 }));
    assert_eq!(allocator.allocate_frame(), None);
    assert_eq!(allocator.allocate_frame(), None);
}

#[test]
fn unusable_only_map_yields_nothing() {
    let map = vec![region(0x1000, 0x4000, false)];
    let mut allocator = init_frame_allocator(&map);
    assert_eq!(allocator.allocate_frame(), None);
}

#[test]
fn null_strategy_always_exhausted() {
    let mut allocator = EmptyFrameAllocator;
    assert_eq!(allocator.allocate_frame(), None);
    assert_eq!(allocator.allocate_frame(), None);
    assert_eq!(allocator.allocate_frame(), None);
}

#[test]
fn frame_rounds_down_to_alignment() {
    assert_eq!(PhysFrame::containing_address(0xb8000), PhysFrame { start_address: 0xb8000 });
    assert_eq!(PhysFrame::containing_address(0xb8123), PhysFrame { start_address: 0xb8000 });
    assert_eq!(Page::containing_address(0xdead_b123), Page { start_address: 0xdead_b000 });
}

#[test]
fn mapping_same_page_twice_with_different_frames_conflicts() {
    let mut mapper = init(0x1_0000_0000, PhysFrame { start_address: 0x4000 });
    let mut allocator = pool(vec![0x10_000, 0x11_000, 0x12_000, 0x13_000, 0x14_000, 0x15_000]);
    let page = Page::containing_address(0xdead_beef_000);
    let f1 = PhysFrame { start_address: 0x2000 };
    let f2 = PhysFrame { start_address: 0x3000 };

    assert_eq!(mapper.map_to(page, f1, true, &mut allocator), Ok(()));
    assert_eq!(mapper.translate_page(page), Some(0x2000));
    // a different candidate frame for the same page is an aliasing conflict
    assert_eq!(mapper.map_to(page, f2, true, &mut allocator), Err(MapError::PageAlreadyMapped));
    // the same frame again is idempotent: no failure, same translation
    assert_eq!(mapper.map_to(page, f1, true, &mut allocator), Ok(()));
    assert_eq!(mapper.translate_page(page), Some(0x2000));
}

#[test]
fn successful_mapping_resolves_through_the_walk() {
    let offset: u64 = 0x1_0000_0000;
    let mut mapper = init(offset, PhysFrame { start_address: 0x4000 });
    let mut allocator = pool(vec![0x10_000, 0x11_000, 0x12_000]);
    let page = Page::containing_address(0xdead_beef_000);

    assert_eq!(create_example_mapping(page, &mut mapper, &mut allocator), Ok(()));
    // the walk for the page's address resolves to the requested frame
    let frame_base = mapper.translate_page(page).unwrap();
    assert_eq!(frame_base, 0xb8000);
    // and the frame is visible in virtual memory at the fixed offset
    assert_eq!(
        mapper.translate_physical(PhysFrame { start_address: frame_base }),
        0xb8000 + offset
    );
}

#[test]
fn mapping_leaves_other_pages_untouched() {
    let mut mapper = init(0, PhysFrame { start_address: 0x4000 });
    let mut allocator = pool(vec![0x10_000, 0x11_000, 0x12_000, 0x13_000, 0x14_000, 0x15_000]);
    let first = Page::containing_address(0x1000);
    let second = Page::containing_address(0x2000);
    assert_eq!(mapper.map_to(first, PhysFrame { start_address: 0x7000 }, true, &mut allocator), Ok(()));
    assert_eq!(mapper.translate_page(second), None);
    assert_eq!(mapper.map_to(second, PhysFrame { start_address: 0x8000 }, true, &mut allocator), Ok(()));
    assert_eq!(mapper.translate_page(first), Some(0x7000));
    assert_eq!(mapper.translate_page(second), Some(0x8000));
}

#[test]
fn exhausted_allocator_fails_intermediate_tables() {
    let mut mapper = init(0, PhysFrame { start_address: 0x4000 });
    let mut empty = EmptyFrameAllocator;
    let page = Page::containing_address(0xdead_beef_000);
    assert_eq!(
        create_example_mapping(page, &mut mapper, &mut empty),
        Err(MapError::FrameAllocationFailed)
    );
    assert_eq!(mapper.translate_page(page), None);

    // an allocator that runs dry mid-path fails the same way
    let mut short = pool(vec![0x10_000]);
    assert_eq!(
        mapper.map_to(page, PhysFrame { start_address: 0x2000 }, true, &mut short),
        Err(MapError::FrameAllocationFailed)
    );
    assert_eq!(mapper.translate_page(page), None);
}

#[test]
fn fresh_translator_maps_nothing() {
    let mapper = init(0x8000_0000, PhysFrame { start_address: 0x4000 });
    assert_eq!(mapper.translate_page(Page::containing_address(0x0)), None);
    assert_eq!(mapper.translate_page(Page::containing_address(0xdead_beef_000)), None);
    assert_eq!(mapper.l4_frame, PhysFrame { start_address: 0x4000 });
}
