//! The range of addresses that is the heap of the kernel, and the pages
//! that back it.

use crate::allocator::{LinkedListAllocator, Region};
use vstd::prelude::*;
use x86_64::structures::paging::{Page, Size4KiB};
use x86_64::VirtAddr;

verus! {

/// The first address of the heap.
pub const HEAP_START: u64 = 0x_4444_4444_0000;

/// The size of the heap in bytes: 100 KiB.
pub const HEAP_SIZE: u64 = 100 * 1024;

/// The size of a page in bytes.
pub const PAGE_SIZE: u64 = 4096;

/// The end of the lower half of the address space.
pub const LOWER_HALF_END: u64 = 0x8000_0000_0000;

/// The start of the upper half of the address space.
pub const UPPER_HALF_START: u64 = 0xffff_8000_0000_0000;

/// Whether an address is canonical: it lies in the lower or in the upper
/// half of the address space, not in the gap between them.
pub open spec fn canonical(address: u64) -> bool {
    address < LOWER_HALF_END || address >= UPPER_HALF_START
}

/// Whether two canonical addresses lie in the same half.
pub open spec fn same_half(first: u64, second: u64) -> bool {
    (first < LOWER_HALF_END && second < LOWER_HALF_END) || (first >= UPPER_HALF_START && second
        >= UPPER_HALF_START)
}

/// The start of the page that holds `address`.
pub open spec fn page_of(address: int) -> int {
    address - address % (PAGE_SIZE as int)
}

/// The starts of the pages from the one at `first` to the one at `last`.
pub open spec fn pages_spec(first: int, last: int) -> Seq<int> {
    if first <= last {
        Seq::new(((last - first) / (PAGE_SIZE as int) + 1) as nat, |i: int| first + i * PAGE_SIZE)
    } else {
        Seq::empty()
    }
}

/// `Page::containing_address` of `VirtAddr::new(address)`: the start of
/// the page that holds a canonical address.
#[verifier::external_body]
fn page_containing(address: u64) -> (start: u64)
    requires
        canonical(address),
    ensures
        start == page_of(address as int),
{
    Page::<Size4KiB>::containing_address(VirtAddr::new(address)).start_address().as_u64()
}

/// `Page::range_inclusive`: the starts of the pages from the one at
/// `first` to the one at `last`, in rising order, where both lie in one
/// half of the address space; none where `first` lies behind `last`.
#[verifier::external_body]
fn pages_inclusive(first: u64, last: u64) -> (pages: Vec<u64>)
    requires
        first % PAGE_SIZE == 0,
        last % PAGE_SIZE == 0,
        canonical(first),
        canonical(last),
        first <= last ==> same_half(first, last),
    ensures
        pages@.len() == pages_spec(first as int, last as int).len(),
        forall|i: int|
            0 <= i < pages@.len() ==> pages@[i] == #[trigger] pages_spec(
                first as int,
                last as int,
            )[i],
{
    let first = Page::<Size4KiB>::containing_address(VirtAddr::new(first));
    let last = Page::<Size4KiB>::containing_address(VirtAddr::new(last));
    Page::range_inclusive(first, last).map(|page| page.start_address().as_u64()).collect()
}

/// How a page is to be mapped.
#[derive(Debug, Clone, Copy, PartialEq, Eq, Structural)]
pub struct PageFlags {
    pub present: bool,
    pub writable: bool,
}

/// The pages of the heap are present and can be written.
pub fn heap_page_flags() -> (flags: PageFlags)
    ensures
        flags == (PageFlags { present: true, writable: true }),
{
    PageFlags { present: true, writable: true }
}

/// Why a page could not be mapped.
#[derive(Debug, Clone, Copy, PartialEq, Eq, Structural)]
pub enum MapToError {
    /// No frame was left for the page or for a table on the way to it.
    FrameAllocationFailed,
    /// The page lies in a huge page that is mapped already.
    ParentEntryHugePage,
    /// The page is mapped already.
    PageAlreadyMapped,
}

/// The pages that back a heap, first to last: those that hold an
/// address from `heap_start` to the last byte of the heap. The heap lies
/// in one half of the address space.
pub fn heap_pages(heap_start: u64, heap_size: u64) -> (pages: Vec<u64>)
    requires
        heap_size > 0,
        heap_start + heap_size - 1 <= u64::MAX,
        same_half(heap_start, (heap_start + heap_size - 1) as u64),
    ensures
        pages@.len() == pages_spec(
            page_of(heap_start as int),
            page_of(heap_start + heap_size - 1),
        ).len(),
        forall|i: int|
            0 <= i < pages@.len() ==> pages@[i] == #[trigger] pages_spec(
                page_of(heap_start as int),
                page_of(heap_start + heap_size - 1),
            )[i],
{
    let heap_end = heap_start + (heap_size - 1u64);
    let heap_start_page = page_containing(heap_start);
    let heap_end_page = page_containing(heap_end);
    pages_inclusive(heap_start_page, heap_end_page)
}

/// The heap of the kernel lies in 25 pages, the first of which begins
/// where the heap begins.
pub proof fn lemma_kernel_heap_pages()
    ensures
        pages_spec(page_of(HEAP_START as int), page_of(HEAP_START + HEAP_SIZE - 1)).len() == 25,
        pages_spec(page_of(HEAP_START as int), page_of(HEAP_START + HEAP_SIZE - 1))[0]
            == HEAP_START,
{
}

/// The first failure among the outcomes of mapping the pages.
pub open spec fn first_failure(mapped: Seq<Result<(), MapToError>>) -> Option<MapToError>
    decreases mapped.len(),
{
    if mapped.len() == 0 {
        None
    } else {
        match mapped[0] {
            Err(error) => Some(error),
            Ok(()) => first_failure(mapped.skip(1)),
        }
    }
}

/// Hands a heap to the allocator once its pages are mapped. `mapped`
/// holds, page by page, how the mapping of the pages of `heap_pages`
/// went, up to the first that failed: that failure is handed back and the
/// allocator is left alone.
pub fn init_heap(
    allocator: &mut LinkedListAllocator,
    heap_start: usize,
    heap_size: usize,
    mapped: &Vec<Result<(), MapToError>>,
) -> (done: Result<(), MapToError>)
    requires
        old(allocator).wf(),
        !old(allocator).is_initialized(),
        (Region { start: heap_start as int, size: heap_size as int }).holds_node(),
        first_failure(mapped@) is None ==> mapped@.len() == pages_spec(
            page_of(heap_start as int),
            page_of(heap_start + heap_size - 1),
        ).len(),
    ensures
        final(allocator).wf(),
        match first_failure(mapped@) {
            Some(error) => {
                &&& done == Err::<(), MapToError>(error)
                &&& *final(allocator) == *old(allocator)
            },
            None => {
                &&& done is Ok
                &&& final(allocator).heap() == (Region {
                    start: heap_start as int,
                    size: heap_size as int,
                })
                &&& final(allocator).free_list() == seq![final(allocator).heap()]
                &&& final(allocator).live() == Set::<Region>::empty()
            },
        },
{
    let mut i: usize = 0;
    assert(mapped@.skip(0) =~= mapped@);
    while i < mapped.len()
        invariant
            i <= mapped@.len(),
            first_failure(mapped@) == first_failure(mapped@.skip(i as int)),
            *allocator == *old(allocator),
            allocator.wf(),
        decreases mapped@.len() - i,
    {
        assert(mapped@.skip(i as int).skip(1) =~= mapped@.skip(i + 1));
        match mapped[i] {
            Err(error) => {
                return Err(error);
            },
            Ok(()) => {},
        }
        i += 1;
    }
    allocator.init(heap_start, heap_size);
    Ok(())
}

} // verus!
