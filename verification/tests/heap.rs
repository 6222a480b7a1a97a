use platinium_os::allocator::{Layout, LinkedListAllocator};
use platinium_os::heap::{
    heap_page_flags, heap_pages, init_heap, MapToError, HEAP_SIZE, HEAP_START, PAGE_SIZE,
};

#[test]
fn kernel_heap_lies_in_twenty_five_pages() {
    let pages = heap_pages(HEAP_START, HEAP_SIZE);
    assert_eq!(pages.len(), 25);
    for (i, page) in pages.iter().enumerate() {
        assert_eq!(*page, HEAP_START + i as u64 * PAGE_SIZE);
    }
}

#[test]
fn pages_hold_the_first_and_the_last_byte() {
    assert_eq!(heap_pages(0x1000, 1), vec![0x1000]);
    assert_eq!(heap_pages(0x1fff, 1), vec![0x1000]);
    assert_eq!(heap_pages(0x1fff, 2), vec![0x1000, 0x2000]);
    assert_eq!(heap_pages(0x1001, 0x2000), vec![0x1000, 0x2000, 0x3000]);
    assert_eq!(heap_pages(0, 4096), vec![0]);
    assert_eq!(heap_pages(0x7fff_ffff_f000, 4096), vec![0x7fff_ffff_f000]);
}

#[test]
fn heap_pages_are_present_and_writable() {
    let flags = heap_page_flags();
    assert!(flags.present);
    assert!(flags.writable);
}

#[test]
fn init_heap_hands_the_heap_to_the_allocator() {
    let mut allocator = LinkedListAllocator::new();
    let mapped = vec![Ok(()); 25];
    assert_eq!(
        init_heap(&mut allocator, HEAP_START as usize, HEAP_SIZE as usize, &mapped),
        Ok(())
    );
    let layout = Layout::from_size_align(HEAP_SIZE as usize, 8).unwrap();
    assert_eq!(allocator.allocate(layout), Some(HEAP_START as usize));
}

#[test]
fn init_heap_hands_back_the_first_failure() {
    let mut allocator = LinkedListAllocator::new();
    let mapped = vec![
        Ok(()),
        Err(MapToError::PageAlreadyMapped),
        Err(MapToError::FrameAllocationFailed),
    ];
    assert_eq!(
        init_heap(&mut allocator, HEAP_START as usize, HEAP_SIZE as usize, &mapped),
        Err(MapToError::PageAlreadyMapped)
    );
    let layout = Layout::from_size_align(16, 8).unwrap();
    assert_eq!(allocator.allocate(layout), None);
    let mapped = vec![Err(MapToError::ParentEntryHugePage)];
    assert_eq!(
        init_heap(&mut allocator, HEAP_START as usize, HEAP_SIZE as usize, &mapped),
        Err(MapToError::ParentEntryHugePage)
    );
}

#[test]
fn pages_of_the_upper_half() {
    assert_eq!(
        heap_pages(0xffff_8000_0000_0000, 0x2000),
        vec![0xffff_8000_0000_0000, 0xffff_8000_0000_1000]
    );
    assert_eq!(heap_pages(0xffff_8000_0000_0fff, 2), vec![
        0xffff_8000_0000_0000,
        0xffff_8000_0000_1000
    ]);
    // up to the last byte of the address space
    assert_eq!(
        heap_pages(0xffff_ffff_ffff_e001, 0x1fff),
        vec![0xffff_ffff_ffff_e000, 0xffff_ffff_ffff_f000]
    );
    assert_eq!(heap_pages(u64::MAX, 1), vec![0xffff_ffff_ffff_f000]);
}
