use platinium_os::allocator::{align_up, Layout, LinkedListAllocator, ListNode, NODE_ALIGN, NODE_SIZE};

const HEAP_START: usize = 0x_4444_4444_0000;
const HEAP_SIZE: usize = 100 * 1024;

fn layout(size: usize, align: usize) -> Layout {
    Layout::from_size_align(size, align).unwrap()
}

fn heap() -> LinkedListAllocator {
    let mut heap = LinkedListAllocator::new();
    heap.init(HEAP_START, HEAP_SIZE);
    heap
}

#[test]
fn align_up_rounds_to_the_next_multiple() {
    assert_eq!(align_up(0, 8), 0);
    assert_eq!(align_up(1, 8), 8);
    assert_eq!(align_up(8, 8), 8);
    assert_eq!(align_up(9, 8), 16);
    assert_eq!(align_up(4097, 4096), 8192);
    assert_eq!(align_up(77, 1), 77);
    assert_eq!(align_up(13, 8), 16);
    assert_eq!(align_up(16, 8), 16);
    assert_eq!(align_up(usize::MAX - 31, 32), usize::MAX - 31);
    assert_eq!(align_up(usize::MAX - 40, 8), usize::MAX - 39);
    assert_eq!(align_up(usize::MAX, 1), usize::MAX);
}

#[test]
fn layout_takes_powers_of_two_only() {
    assert!(Layout::from_size_align(10, 0).is_none());
    assert!(Layout::from_size_align(10, 3).is_none());
    assert!(Layout::from_size_align(10, 12).is_none());
    let l = Layout::from_size_align(10, 4).unwrap();
    assert_eq!(l.size(), 10);
    assert_eq!(l.align(), 4);
}

#[test]
fn layout_size_must_round_up_within_isize() {
    let max = isize::MAX as usize;
    assert!(Layout::from_size_align(max, 1).is_some());
    assert!(Layout::from_size_align(max, 2).is_none());
    assert!(Layout::from_size_align(max - 7, 8).is_some());
    assert!(Layout::from_size_align(max - 6, 8).is_none());
}

#[test]
fn layout_align_to_and_pad() {
    let l = layout(10, 4);
    let raised = l.align_to(8).unwrap();
    assert_eq!((raised.size(), raised.align()), (10, 8));
    let padded = raised.pad_to_align();
    assert_eq!((padded.size(), padded.align()), (16, 8));
    let same = layout(10, 16).align_to(8).unwrap();
    assert_eq!((same.size(), same.align()), (10, 16));
    assert!(layout(isize::MAX as usize, 1).align_to(8).is_none());
}

#[test]
fn size_align_normalizes() {
    assert_eq!(LinkedListAllocator::size_align(layout(1, 1)), (NODE_SIZE, NODE_ALIGN));
    assert_eq!(LinkedListAllocator::size_align(layout(17, 1)), (24, 8));
    assert_eq!(LinkedListAllocator::size_align(layout(4000, 1)), (4000, 8));
    assert_eq!(LinkedListAllocator::size_align(layout(3, 64)), (64, 64));
    assert_eq!(LinkedListAllocator::size_align(layout(0, 32)), (16, 32));
}

#[test]
fn list_node_addresses() {
    let node = ListNode::new(0x1000, 0x40);
    assert_eq!(node.start_addr(), 0x1000);
    assert_eq!(node.end_addr(), 0x1040);
}

#[test]
fn alloc_from_region_checks_fit_and_leftover() {
    let node = ListNode::new(0x1008, 64);
    assert_eq!(LinkedListAllocator::alloc_from_region(&node, 64, 8), Ok(0x1008));
    assert_eq!(LinkedListAllocator::alloc_from_region(&node, 48, 8), Ok(0x1008));
    // 8 bytes would be left: too few for a descriptor
    assert_eq!(LinkedListAllocator::alloc_from_region(&node, 56, 8), Err(()));
    assert_eq!(LinkedListAllocator::alloc_from_region(&node, 72, 8), Err(()));
    // aligned start 0x1010, so 56 bytes end exactly with the region
    assert_eq!(LinkedListAllocator::alloc_from_region(&node, 56, 16), Ok(0x1010));
    assert_eq!(LinkedListAllocator::alloc_from_region(&node, 64, 16), Err(()));
    assert_eq!(LinkedListAllocator::alloc_from_region(&node, usize::MAX, 8), Err(()));
}

#[test]
fn alloc_from_region_at_the_end_of_the_address_space() {
    let node = ListNode::new(usize::MAX - 31, 16);
    assert_eq!(LinkedListAllocator::alloc_from_region(&node, 16, 8), Ok(usize::MAX - 31));
    // the start is a multiple of 32 already: rounding it up adds nothing
    assert_eq!(LinkedListAllocator::alloc_from_region(&node, 16, 32), Ok(usize::MAX - 31));
    let last = ListNode::new(usize::MAX - 15, 15);
    // rounding up would leave the address space
    assert_eq!(LinkedListAllocator::alloc_from_region(&last, 8, 32), Err(()));
    assert_eq!(LinkedListAllocator::alloc_from_region(&last, 15, 16), Ok(usize::MAX - 15));
}

#[test]
fn empty_heap_refuses() {
    let mut heap = LinkedListAllocator::new();
    assert_eq!(heap.allocate(layout(8, 8)), None);
}

#[test]
fn first_allocation_starts_at_heap_start() {
    let mut heap = heap();
    assert_eq!(heap.allocate(layout(4000, 1)), Some(HEAP_START));
    assert_eq!(heap.allocate(layout(4000, 1)), Some(HEAP_START + 4000));
}

#[test]
fn scenario_freed_block_is_reused_before_the_tail() {
    let mut heap = heap();
    let x = heap.allocate(layout(4000, 1)).unwrap();
    let y = heap.allocate(layout(4000, 1)).unwrap();
    assert_eq!(x, HEAP_START);
    assert_eq!(y, HEAP_START + 4000);
    heap.deallocate(x, layout(4000, 1));
    let z = heap.allocate(layout(3000, 1)).unwrap();
    assert_eq!(z, x);
    // what is left of the returned block is found next
    assert_eq!(heap.allocate(layout(1000, 1)), Some(x + 3000));
    // and only then the tail of the heap
    assert_eq!(heap.allocate(layout(16, 1)), Some(HEAP_START + 8000));
}

#[test]
fn live_blocks_do_not_overlap() {
    let mut heap = heap();
    let sizes = [24usize, 100, 8, 4096, 1, 64, 333, 16];
    let mut live: Vec<(usize, Layout)> = Vec::new();
    for round in 0..40 {
        for (k, s) in sizes.iter().enumerate() {
            let l = layout(*s, 1 << (k % 5));
            if let Some(p) = heap.allocate(l) {
                let (size, align) = LinkedListAllocator::size_align(l);
                assert_eq!(p % align, 0);
                assert!(p >= HEAP_START && p + size <= HEAP_START + HEAP_SIZE);
                for (q, ql) in live.iter() {
                    let (qs, _) = LinkedListAllocator::size_align(*ql);
                    assert!(p + size <= *q || *q + qs <= p);
                }
                live.push((p, l));
            }
            if (k + round) % 3 == 0 && !live.is_empty() {
                let (q, ql) = live.remove((k * 7 + round) % live.len());
                heap.deallocate(q, ql);
            }
        }
    }
    assert!(!live.is_empty());
}

#[test]
fn returned_block_serves_a_smaller_request() {
    let mut heap = heap();
    let a = heap.allocate(layout(256, 1)).unwrap();
    let _b = heap.allocate(layout(256, 1)).unwrap();
    heap.deallocate(a, layout(256, 1));
    assert_eq!(heap.allocate(layout(200, 1)), Some(a));
}

#[test]
fn returned_block_is_passed_over_when_too_little_would_be_left() {
    let mut heap = LinkedListAllocator::new();
    heap.init(HEAP_START, 96);
    let a = heap.allocate(layout(32, 8)).unwrap();
    let _b = heap.allocate(layout(32, 8)).unwrap();
    let _c = heap.allocate(layout(32, 8)).unwrap();
    heap.deallocate(a, layout(32, 8));
    // 24 of the 32 bytes would leave 8: too few for a descriptor
    assert_eq!(heap.allocate(layout(24, 8)), None);
    assert_eq!(heap.allocate(layout(32, 8)), Some(a));
}

#[test]
fn what_is_left_of_a_region_is_searched_first() {
    let mut heap = heap();
    let a = heap.allocate(layout(32, 8)).unwrap();
    let b = heap.allocate(layout(32, 8)).unwrap();
    heap.deallocate(a, layout(32, 8));
    // the returned block leaves too little, so the tail of the heap serves
    assert_eq!(heap.allocate(layout(24, 8)), Some(b + 32));
    // and what is left of the tail is now in front of the returned block
    assert_eq!(heap.allocate(layout(32, 8)), Some(b + 56));
}

#[test]
fn exhaustion_fails_and_changes_nothing() {
    let mut heap = heap();
    assert_eq!(heap.allocate(layout(HEAP_SIZE + 8, 8)), None);
    assert_eq!(heap.allocate(layout(HEAP_SIZE + 8, 8)), None);
    // the one region is still whole
    assert_eq!(heap.allocate(layout(HEAP_SIZE, 8)), Some(HEAP_START));
    assert_eq!(heap.allocate(layout(1, 1)), None);
}

#[test]
fn freed_blocks_are_searched_most_recent_first() {
    let mut heap = heap();
    let a = heap.allocate(layout(64, 8)).unwrap();
    let b = heap.allocate(layout(64, 8)).unwrap();
    let _c = heap.allocate(layout(64, 8)).unwrap();
    heap.deallocate(a, layout(64, 8));
    heap.deallocate(b, layout(64, 8));
    assert_eq!(heap.allocate(layout(64, 8)), Some(b));
    assert_eq!(heap.allocate(layout(64, 8)), Some(a));
}

#[test]
fn adjacent_free_blocks_are_not_merged() {
    let mut heap = LinkedListAllocator::new();
    heap.init(HEAP_START, 128);
    let a = heap.allocate(layout(64, 8)).unwrap();
    let b = heap.allocate(layout(64, 8)).unwrap();
    heap.deallocate(a, layout(64, 8));
    heap.deallocate(b, layout(64, 8));
    assert_eq!(heap.allocate(layout(128, 8)), None);
    assert_eq!(heap.allocate(layout(64, 8)), Some(b));
}

#[test]
fn alignment_padding_is_lost() {
    let mut heap = LinkedListAllocator::new();
    heap.init(HEAP_START + 8, 4096);
    // the region starts 8 past a multiple of 64
    let p = heap.allocate(layout(64, 64)).unwrap();
    assert_eq!(p, HEAP_START + 64);
    // the 56 bytes before it are in no free region
    assert_eq!(heap.allocate(layout(16, 8)), Some(p + 64));
}

#[test]
fn find_region_detaches_first_fit() {
    let mut heap = heap();
    let (node, start) = heap.find_region(64, 8).unwrap();
    assert_eq!(start, HEAP_START);
    assert_eq!(node.start_addr(), HEAP_START);
    assert_eq!(node.end_addr(), HEAP_START + HEAP_SIZE);
    assert!(heap.find_region(16, 8).is_none());
}
