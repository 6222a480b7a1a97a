//! The heap: a first-fit allocator over a chain of free regions. A block
//! that comes back is put in front of the chain; neighbours are not merged.

use vstd::arithmetic::power::pow;
use vstd::arithmetic::power2::{is_pow2, is_pow2_equiv, lemma2_to64, lemma_pow2_strictly_increases, pow2};
use vstd::bits::lemma_u64_low_bits_mask_is_mod;
use vstd::prelude::*;

verus! {

/// Size in bytes of the descriptor that is written into a free region.
pub const NODE_SIZE: usize = 16;

/// Alignment in bytes of that descriptor.
pub const NODE_ALIGN: usize = 8;

/// The smallest multiple of `align` that is not below `addr`.
pub open spec fn align_up_spec(addr: int, align: int) -> int {
    if addr % align == 0 {
        addr
    } else {
        addr + (align - addr % align)
    }
}

/// For a power of two, masking with its predecessor takes the remainder.
proof fn lemma_mask_is_remainder(x: u64, align: u64)
    requires
        is_pow2(align as int),
    ensures
        x & ((align - 1) as u64) == x % align,
{
    assert(align > 0) by {
        reveal(is_pow2);
    }
    is_pow2_equiv(align as int);
    let k = choose|i: nat| pow(2, i) == align as int;
    assert(pow2(k) == align);
    if k >= 64 {
        lemma2_to64();
        if k > 64 {
            lemma_pow2_strictly_increases(64, k);
        }
        assert(false);
    }
    lemma_u64_low_bits_mask_is_mod(x, k);
    assert(vstd::bits::low_bits_mask(k) as u64 == (align - 1) as u64);
}

proof fn lemma_mask_bounds(addr: usize, align: usize)
    by (bit_vector)
    requires
        align > 0,
        align & ((align - 1) as usize) == 0,
        addr + (align - 1) == ((addr + (align - 1)) as usize),
    ensures
        (((addr + (align - 1)) as usize) & !((align - 1) as usize)) & ((align - 1) as usize) == 0,
        addr <= ((addr + (align - 1)) as usize) & !((align - 1) as usize),
        ((addr + (align - 1)) as usize) & !((align - 1) as usize) <= addr + (align - 1),
{
}

/// The only multiple of `align` among `align` consecutive numbers from
/// `addr` on is `align_up_spec(addr, align)`.
proof fn lemma_align_up_unique(addr: int, align: int, r: int)
    requires
        align > 0,
        addr >= 0,
        r % align == 0,
        addr <= r < addr + align,
    ensures
        r == align_up_spec(addr, align),
{
    let q = addr / align;
    let m = addr % align;
    assert(addr == q * align + m) by {
        vstd::arithmetic::div_mod::lemma_fundamental_div_mod(addr, align);
    }
    let t = r / align;
    assert(r == t * align) by {
        vstd::arithmetic::div_mod::lemma_fundamental_div_mod(r, align);
    }
    if m == 0 {
        assert(t == q) by (nonlinear_arith)
            requires
                q * align <= t * align < q * align + align,
                align > 0,
        ;
    } else {
        assert(t == q + 1) by (nonlinear_arith)
            requires
                q * align + m <= t * align < q * align + m + align,
                0 < m < align,
        ;
        assert((q + 1) * align == q * align + align) by (nonlinear_arith);
    }
}

/// Rounds `addr` up to the next multiple of `align`.
pub fn align_up(addr: usize, align: usize) -> (aligned: usize)
    requires
        is_pow2(align as int),
        addr + align - 1 <= usize::MAX,
    ensures
        aligned == align_up_spec(addr as int, align as int),
{
    proof {
        reveal(is_pow2);
        lemma_mask_is_remainder(align as u64, align as u64);
        lemma_mask_bounds(addr, align);
        let r = ((addr + (align - 1)) as usize) & !((align - 1) as usize);
        lemma_mask_is_remainder(r as u64, align as u64);
        lemma_align_up_unique(addr as int, align as int, r as int);
    }
    (addr + (align - 1)) & !(align - 1)
}

/// A power of two that is at least eight is a multiple of eight.
proof fn lemma_pow2_multiple_of_node_align(align: int)
    requires
        is_pow2(align),
        align >= NODE_ALIGN,
    ensures
        align % (NODE_ALIGN as int) == 0,
{
    reveal_with_fuel(is_pow2, 4);
}

/// One bit set is the same as being a power of two.
proof fn lemma_single_bit_is_pow2(n: usize)
    requires
        n > 0,
        n & ((n - 1) as usize) == 0,
    ensures
        is_pow2(n as int),
    decreases n,
{
    reveal(is_pow2);
    if n > 1 {
        let h = n / 2;
        assert(n % 2 == 0 && h > 0 && h & ((h - 1) as usize) == 0) by (bit_vector)
            requires
                n > 1,
                n & ((n - 1) as usize) == 0,
                h == n / 2,
        ;
        lemma_single_bit_is_pow2(h);
    }
}

/// Of two powers of two the smaller divides the larger.
pub proof fn lemma_pow2_divides(small: int, large: int)
    requires
        is_pow2(small),
        is_pow2(large),
        small <= large,
    ensures
        large % small == 0,
    decreases small,
{
    reveal(is_pow2);
    if small > 1 {
        lemma_pow2_divides(small / 2, large / 2);
        let k = (large / 2) / (small / 2);
        assert(large / 2 == k * (small / 2)) by {
            vstd::arithmetic::div_mod::lemma_fundamental_div_mod(large / 2, small / 2);
        }
        assert(large == k * small) by (nonlinear_arith)
            requires
                large == 2 * (large / 2),
                small == 2 * (small / 2),
                large / 2 == k * (small / 2),
        ;
        vstd::arithmetic::div_mod::lemma_mod_multiples_basic(k, small);
    }
}

/// One past `isize::MAX` is a power of two.
proof fn lemma_isize_limit_is_pow2()
    ensures
        is_pow2(isize::MAX + 1),
{
    lemma2_to64();
    vstd::arithmetic::power2::lemma2_to64_rest();
    is_pow2_equiv(isize::MAX + 1);
    assert(isize::MAX == 0x7fff_ffff || isize::MAX == 0x7fff_ffff_ffff_ffff);
    if isize::MAX == 0x7fff_ffff {
        vstd::arithmetic::power2::lemma_pow2(31);
        assert(pow(2, 31) == isize::MAX + 1);
    } else {
        vstd::arithmetic::power2::lemma_pow2(63);
        assert(pow(2, 63) == isize::MAX + 1);
    }
}

/// A power of two that fits `usize` is at most one past `isize::MAX`.
proof fn lemma_pow2_below_isize_limit(align: usize)
    requires
        is_pow2(align as int),
    ensures
        0 < align <= isize::MAX + 1,
{
    reveal(is_pow2);
    lemma_isize_limit_is_pow2();
    let limit = isize::MAX + 1;
    if align > limit {
        lemma_pow2_divides(limit, align as int);
        vstd::arithmetic::div_mod::lemma_fundamental_div_mod(align as int, limit);
        let k = align as int / limit;
        assert(k >= 2) by (nonlinear_arith)
            requires
                align == limit * k,
                align > limit,
                limit > 0,
        ;
        assert(limit * k >= limit * 2) by (nonlinear_arith)
            requires
                k >= 2,
                limit > 0,
        ;
        assert(usize::MAX == 2 * limit - 1);
    }
}

/// Rounding up to a power of two stays within `isize::MAX` exactly when
/// the number is at most `isize::MAX - (align - 1)`.
proof fn lemma_round_up_within_isize(size: int, align: int)
    requires
        is_pow2(align),
        0 <= size,
        align <= isize::MAX + 1,
    ensures
        align_up_spec(size, align) <= isize::MAX <==> size <= isize::MAX - (align - 1),
{
    assert(align > 0) by {
        reveal(is_pow2);
    }
    lemma_isize_limit_is_pow2();
    lemma_pow2_divides(align, isize::MAX + 1);
    let top = isize::MAX + 1 - align;
    assert(top % align == 0) by {
        vstd::arithmetic::div_mod::lemma_mod_sub_multiples_vanish(isize::MAX + 1, align);
    }
    let r = align_up_spec(size, align);
    assert(r % align == 0) by {
        if size % align != 0 {
            vstd::arithmetic::div_mod::lemma_fundamental_div_mod(size, align);
            let q = size / align;
            assert(r == (q + 1) * align) by (nonlinear_arith)
                requires
                    r == size + (align - size % align),
                    size == align * q + size % align,
            ;
            vstd::arithmetic::div_mod::lemma_mod_multiples_basic(q + 1, align);
        }
    }
    if size <= top {
        if r > top {
            lemma_align_up_unique(size, align, top);
        }
    }
    if r <= isize::MAX {
        let limit = isize::MAX + 1;
        vstd::arithmetic::div_mod::lemma_fundamental_div_mod(r, align);
        vstd::arithmetic::div_mod::lemma_fundamental_div_mod(limit, align);
        let a = r / align;
        let b = limit / align;
        assert(a < b) by (nonlinear_arith)
            requires
                align * a < align * b,
                align > 0,
        ;
        assert(align * a <= align * b - align) by (nonlinear_arith)
            requires
                a < b,
                align > 0,
        ;
    }
}

/// Rounding up yields a multiple, which rounding up again leaves alone.
proof fn lemma_align_up_fixpoint(addr: int, align: int)
    requires
        align > 0,
        addr >= 0,
    ensures
        align_up_spec(addr, align) % align == 0,
        addr <= align_up_spec(addr, align) < addr + align,
        align_up_spec(align_up_spec(addr, align), align) == align_up_spec(addr, align),
{
    if addr % align != 0 {
        vstd::arithmetic::div_mod::lemma_fundamental_div_mod(addr, align);
        let q = addr / align;
        let r = align_up_spec(addr, align);
        assert(r == (q + 1) * align) by (nonlinear_arith)
            requires
                r == addr + (align - addr % align),
                addr == align * q + addr % align,
        ;
        vstd::arithmetic::div_mod::lemma_mod_multiples_basic(q + 1, align);
    }
}

/// A multiple of a multiple of `b` is a multiple of `b`.
proof fn lemma_multiple_of_multiple(x: int, a: int, b: int)
    requires
        a > 0,
        b > 0,
        x % a == 0,
        a % b == 0,
    ensures
        x % b == 0,
{
    vstd::arithmetic::div_mod::lemma_fundamental_div_mod(x, a);
    vstd::arithmetic::div_mod::lemma_fundamental_div_mod(a, b);
    assert(x == ((a / b) * (x / a)) * b) by (nonlinear_arith)
        requires
            x == a * (x / a),
            a == b * (a / b),
    ;
    vstd::arithmetic::div_mod::lemma_mod_multiples_basic((a / b) * (x / a), b);
}

/// One past `usize::MAX` is a power of two.
proof fn lemma_usize_limit_is_pow2()
    ensures
        is_pow2(usize::MAX + 1),
{
    lemma_isize_limit_is_pow2();
    assert(usize::MAX + 1 == 2 * (isize::MAX + 1));
    reveal(is_pow2);
}

/// Rounding an address up to a power of two stays in the address space
/// exactly when the address and the alignment less one do.
proof fn lemma_round_up_within_usize(addr: int, align: int)
    requires
        is_pow2(align),
        0 <= addr <= usize::MAX,
        align <= usize::MAX,
    ensures
        align_up_spec(addr, align) <= usize::MAX <==> addr + align - 1 <= usize::MAX,
{
    assert(align > 0) by {
        reveal(is_pow2);
    }
    lemma_usize_limit_is_pow2();
    let limit = usize::MAX + 1;
    lemma_pow2_divides(align, limit);
    lemma_align_up_fixpoint(addr, align);
    let r = align_up_spec(addr, align);
    if r <= usize::MAX {
        vstd::arithmetic::div_mod::lemma_fundamental_div_mod(r, align);
        vstd::arithmetic::div_mod::lemma_fundamental_div_mod(limit, align);
        let a = r / align;
        let b = limit / align;
        assert(a < b) by (nonlinear_arith)
            requires
                align * a < align * b,
                align > 0,
        ;
        assert(align * a <= align * b - align) by (nonlinear_arith)
            requires
                a < b,
                align > 0,
        ;
    }
}

/// What a caller asks of the heap: a number of bytes and the alignment of
/// their first address.
#[derive(Clone, Copy, Debug)]
pub struct Layout {
    size: usize,
    align: usize,
}

impl Layout {
    /// The pairs that make a layout: a power of two as alignment, and a
    /// size that can be rounded up to it without passing `isize::MAX`.
    pub open spec fn valid(size: usize, align: usize) -> bool {
        is_pow2(align as int) && align_up_spec(size as int, align as int) <= isize::MAX
    }

    pub closed spec fn spec_size(&self) -> usize {
        self.size
    }

    pub closed spec fn spec_align(&self) -> usize {
        self.align
    }

    #[verifier::type_invariant]
    spec fn inv(&self) -> bool {
        Self::valid(self.size, self.align)
    }

    /// The layout of `size` bytes aligned to `align`, if there is one.
    pub fn from_size_align(size: usize, align: usize) -> (layout: Option<Layout>)
        ensures
            layout.is_some() == Self::valid(size, align),
            layout matches Some(l) ==> l.size() == size && l.align() == align && l.wf(),
    {
        if align == 0 || align & (align - 1) != 0 {
            proof {
                if is_pow2(align as int) {
                    lemma_mask_is_remainder(align as u64, align as u64);
                    assert(align > 0) by {
                        reveal(is_pow2);
                    }
                }
            }
            return None;
        }
        proof {
            lemma_single_bit_is_pow2(align);
            lemma_pow2_below_isize_limit(align);
            lemma_round_up_within_isize(size as int, align as int);
        }
        if size > isize::MAX as usize - (align - 1) {
            return None;
        }
        Some(Layout { size, align })
    }

    #[verifier::when_used_as_spec(spec_size)]
    pub fn size(&self) -> (size: usize)
        ensures
            size == self.spec_size(),
    {
        self.size
    }

    #[verifier::when_used_as_spec(spec_align)]
    pub fn align(&self) -> (align: usize)
        ensures
            align == self.spec_align(),
    {
        self.align
    }

    /// This layout with its alignment raised to `align`, if that is a layout.
    pub open spec fn align_to_spec(&self, align: usize) -> Option<(usize, usize)> {
        let raised = if self.align() < align {
            align
        } else {
            self.align()
        };
        if Self::valid(self.size(), raised) {
            Some((self.size(), raised))
        } else {
            None
        }
    }

    /// This layout with its alignment raised to `align`; `None` where
    /// `align` is no power of two or the size cannot be rounded up to it.
    pub fn align_to(&self, align: usize) -> (raised: Option<Layout>)
        ensures
            match self.align_to_spec(align) {
                Some((s, a)) => raised matches Some(l) && l.size() == s && l.align() == a
                    && l.wf(),
                None => raised is None,
            },
    {
        proof {
            use_type_invariant(self);
        }
        let raised = if self.align < align {
            align
        } else {
            self.align
        };
        Layout::from_size_align(self.size, raised)
    }

    /// This layout with its size rounded up to its alignment.
    pub fn pad_to_align(&self) -> (padded: Layout)
        ensures
            padded.size() == align_up_spec(self.size() as int, self.align() as int),
            padded.align() == self.align(),
            padded.wf(),
    {
        proof {
            use_type_invariant(self);
            lemma_pow2_below_isize_limit(self.align);
            lemma_round_up_within_isize(self.size as int, self.align as int);
            lemma_align_up_fixpoint(self.size as int, self.align as int);
        }
        let size = align_up(self.size, self.align);
        Layout { size, align: self.align }
    }

    /// Holds of every layout that `from_size_align` hands out.
    pub open spec fn wf(&self) -> bool {
        Self::valid(self.size(), self.align())
    }
}

/// A span of addresses, from `start` up to but not including `start + size`.
pub struct Region {
    pub start: int,
    pub size: int,
}

impl Region {
    pub open spec fn end(self) -> int {
        self.start + self.size
    }

    /// Whether the two spans share an address.
    pub open spec fn overlaps(self, other: Region) -> bool {
        self.start < other.end() && other.start < self.end()
    }

    /// Whether every address of this span is one of `outer`.
    pub open spec fn within(self, outer: Region) -> bool {
        outer.start <= self.start && self.end() <= outer.end()
    }

    /// Whether a descriptor can be stored at the start of this span.
    pub open spec fn holds_node(self) -> bool {
        &&& 0 <= self.start
        &&& self.start % (NODE_ALIGN as int) == 0
        &&& self.size >= NODE_SIZE
        &&& self.end() <= usize::MAX
    }
}

/// A free region of the heap and the chain of free regions behind it.
pub struct ListNode {
    start: usize,
    size: usize,
    next: Option<Box<ListNode>>,
}

/// The regions of a chain, first to last.
pub closed spec fn chain_regions(chain: Option<Box<ListNode>>) -> Seq<Region>
    decreases chain,
{
    match chain {
        None => Seq::empty(),
        Some(node) => seq![node.region()].add(chain_regions(node.next)),
    }
}

impl ListNode {
    /// The span that this node describes.
    pub closed spec fn region(&self) -> Region {
        Region { start: self.start as int, size: self.size as int }
    }

    /// The regions chained behind this node.
    pub closed spec fn rest(&self) -> Seq<Region> {
        chain_regions(self.next)
    }

    /// A node for the `size` bytes at `start`, with nothing chained to it.
    pub fn new(start: usize, size: usize) -> (node: Self)
        ensures
            node.region() == (Region { start: start as int, size: size as int }),
            node.rest() == Seq::<Region>::empty(),
    {
        ListNode { start, size, next: None }
    }

    pub fn start_addr(&self) -> (addr: usize)
        ensures
            addr == self.region().start,
    {
        self.start
    }

    pub fn end_addr(&self) -> (addr: usize)
        requires
            self.region().end() <= usize::MAX,
        ensures
            addr == self.region().end(),
    {
        self.start + self.size
    }
}

/// Whether `size` bytes aligned to `align` can be cut from the front of
/// `region`: from its start rounded up they end within the region, and
/// what is left behind them is nothing or enough for a descriptor.
pub open spec fn fits(region: Region, size: int, align: int) -> bool {
    let end = align_up_spec(region.start, align) + size;
    &&& end <= region.end()
    &&& (region.end() - end == 0 || region.end() - end >= NODE_SIZE)
}

/// The position of the first region of `free` that fits the request.
pub open spec fn first_fit(free: Seq<Region>, size: int, align: int) -> Option<int>
    decreases free.len(),
{
    if free.len() == 0 {
        None
    } else if fits(free[0], size, align) {
        Some(0)
    } else {
        match first_fit(free.skip(1), size, align) {
            Some(i) => Some(i + 1),
            None => None,
        }
    }
}

/// The first fit is a fit, and nothing before it is one; without a first
/// fit nothing fits.
pub proof fn lemma_first_fit(free: Seq<Region>, size: int, align: int)
    ensures
        match first_fit(free, size, align) {
            Some(i) => 0 <= i < free.len() && fits(free[i], size, align) && forall|j: int|
                0 <= j < i ==> !fits(#[trigger] free[j], size, align),
            None => forall|j: int| 0 <= j < free.len() ==> !fits(#[trigger] free[j], size, align),
        },
    decreases free.len(),
{
    if free.len() > 0 && !fits(free[0], size, align) {
        let tail = free.skip(1);
        lemma_first_fit(tail, size, align);
        match first_fit(tail, size, align) {
            Some(i) => {
                assert forall|j: int| 0 <= j < i + 1 implies !fits(
                    #[trigger] free[j],
                    size,
                    align,
                ) by {
                    if j > 0 {
                        assert(free[j] == tail[j - 1]);
                    }
                }
            },
            None => {
                assert forall|j: int| 0 <= j < free.len() implies !fits(
                    #[trigger] free[j],
                    size,
                    align,
                ) by {
                    if j > 0 {
                        assert(free[j] == tail[j - 1]);
                    }
                }
            },
        }
    }
}

/// Whether a size and an alignment are as `size_align` hands them out.
pub open spec fn normalized(size: int, align: int) -> bool {
    &&& is_pow2(align)
    &&& align >= NODE_ALIGN
    &&& size >= NODE_SIZE
    &&& size % (NODE_ALIGN as int) == 0
}

/// The size and the alignment that the heap uses for a layout: the
/// alignment at least that of a descriptor, the size rounded up to it and
/// at least the size of a descriptor.
pub open spec fn size_align_spec(layout: Layout) -> (int, int) {
    let align = if layout.align() < NODE_ALIGN {
        NODE_ALIGN as int
    } else {
        layout.align() as int
    };
    let padded = align_up_spec(layout.size() as int, align);
    (
        if padded < NODE_SIZE {
            NODE_SIZE as int
        } else {
            padded
        },
        align,
    )
}

/// The free list after a request for `size` bytes aligned to `align`, and
/// the address handed out. The first region that fits leaves the list;
/// the request gets its aligned start, and what lies behind the request
/// comes back as a new first region. Without a fit nothing changes.
pub open spec fn allocate_spec(free: Seq<Region>, size: int, align: int) -> (Option<int>, Seq<Region>) {
    match first_fit(free, size, align) {
        None => (None, free),
        Some(i) => {
            let start = align_up_spec(free[i].start, align);
            let end = start + size;
            let others = free.remove(i);
            (
                Some(start),
                if end < free[i].end() {
                    seq![Region { start: end, size: free[i].end() - end }].add(others)
                } else {
                    others
                },
            )
        },
    }
}

/// The free list after the `size` bytes at `addr` came back: they are its
/// new first region.
pub open spec fn deallocate_spec(free: Seq<Region>, addr: int, size: int) -> Seq<Region> {
    seq![Region { start: addr, size }].add(free)
}

/// No two blocks that are out at the same time share an address.
pub proof fn law_live_blocks_disjoint(heap: LinkedListAllocator, first: Region, second: Region)
    requires
        heap.wf(),
        heap.live().contains(first),
        heap.live().contains(second),
        first != second,
    ensures
        !first.overlaps(second),
{
}

/// A block that came back serves the next request that it can hold: after
/// the block at `addr` for `returned` has come back, a request `next` of
/// no greater alignment is answered with `addr`, provided its size leaves
/// of the block nothing or room for a descriptor.
pub proof fn law_returned_block_is_reused(
    free: Seq<Region>,
    addr: int,
    returned: Layout,
    next: Layout,
)
    requires
        returned.wf(),
        next.wf(),
        addr >= 0,
        addr % size_align_spec(returned).1 == 0,
        next.align() <= returned.align(),
        size_align_spec(next).0 == size_align_spec(returned).0 || size_align_spec(next).0
            + NODE_SIZE <= size_align_spec(returned).0,
    ensures
        allocate_spec(
            deallocate_spec(free, addr, size_align_spec(returned).0),
            size_align_spec(next).0,
            size_align_spec(next).1,
        ).0 == Some(addr),
{
    let (returned_size, returned_align) = size_align_spec(returned);
    let (size, align) = size_align_spec(next);
    assert(is_pow2(NODE_ALIGN as int)) by {
        reveal_with_fuel(is_pow2, 5);
    }
    assert(align > 0) by {
        reveal(is_pow2);
    }
    lemma_pow2_divides(align, returned_align);
    lemma_multiple_of_multiple(addr, returned_align, align);
    let list = deallocate_spec(free, addr, returned_size);
    assert(list[0] == Region { start: addr, size: returned_size });
    assert(fits(list[0], size, align));
}

/// A request that is larger than every free region fails and leaves the
/// free list as it was.
pub proof fn law_exhaustion_changes_nothing(free: Seq<Region>, size: int, align: int)
    requires
        align > 0,
        forall|i: int| 0 <= i < free.len() ==> (#[trigger] free[i]).size < size,
        forall|i: int| 0 <= i < free.len() ==> (#[trigger] free[i]).start >= 0,
    ensures
        allocate_spec(free, size, align) == (None::<int>, free),
{
    lemma_first_fit(free, size, align);
    if let Some(i) = first_fit(free, size, align) {
        lemma_align_up_fixpoint(free[i].start, align);
    }
}

/// Takes the first region that fits out of `chain`.
fn detach_first_fit(chain: &mut Option<Box<ListNode>>, size: usize, align: usize) -> (found: Option<
    (Box<ListNode>, usize),
>)
    requires
        is_pow2(align as int),
        forall|i: int|
            0 <= i < chain_regions(*old(chain)).len() ==> (#[trigger] chain_regions(
                *old(chain),
            )[i]).end() <= usize::MAX,
    ensures
        match first_fit(chain_regions(*old(chain)), size as int, align as int) {
            Some(i) => found matches Some((node, start)) && node.region() == chain_regions(
                *old(chain),
            )[i] && start == align_up_spec(node.region().start, align as int) && chain_regions(
                *final(chain),
            ) == chain_regions(*old(chain)).remove(i),
            None => found is None && chain_regions(*final(chain)) == chain_regions(*old(chain)),
        },
    decreases chain_regions(*old(chain)).len(),
{
    let ghost before = chain_regions(*chain);
    match chain.take() {
        None => None,
        Some(mut region) => {
            let ghost tail = chain_regions(region.next);
            assert(before == seq![region.region()].add(tail));
            assert(before.skip(1) == tail);
            assert(before[0] == region.region());
            assert forall|i: int| 0 <= i < tail.len() implies (#[trigger] tail[i]).end()
                <= usize::MAX by {
                assert(tail[i] == before[i + 1]);
            }
            match LinkedListAllocator::alloc_from_region(&region, size, align) {
                Ok(start) => {
                    *chain = region.next.take();
                    assert(chain_regions(*chain) == before.remove(0));
                    Some((region, start))
                },
                Err(_) => {
                    let found = detach_first_fit(&mut region.next, size, align);
                    proof {
                        lemma_first_fit(tail, size as int, align as int);
                        if let Some(i) = first_fit(tail, size as int, align as int) {
                            assert(before[i + 1] == tail[i]);
                            assert(seq![region.region()].add(tail.remove(i)) =~= before.remove(
                                i + 1,
                            ));
                        }
                    }
                    *chain = Some(region);
                    found
                },
            }
        },
    }
}

/// An alignment below that of a descriptor divides it.
proof fn layout_align_divides_node_align(layout: Layout)
    requires
        layout.wf(),
        layout.align() < NODE_ALIGN,
    ensures
        layout.align() > 0,
        (NODE_ALIGN as int) % (layout.align() as int) == 0,
{
    assert(is_pow2(NODE_ALIGN as int) && layout.align() > 0) by {
        reveal_with_fuel(is_pow2, 5);
    }
    lemma_pow2_divides(layout.align() as int, NODE_ALIGN as int);
}

/// The heap: the free regions of a range of addresses, as a chain that is
/// searched from its start.
pub struct LinkedListAllocator {
    head: ListNode,
    heap_start: usize,
    heap_size: usize,
    live: Ghost<Set<Region>>,
}

impl LinkedListAllocator {
    /// The free regions, in the order in which a request meets them.
    pub closed spec fn free_list(&self) -> Seq<Region> {
        self.head.rest()
    }

    /// The blocks that were handed out and have not come back.
    pub closed spec fn live(&self) -> Set<Region> {
        self.live@
    }

    /// The range of addresses that `init` handed to the heap; of size zero
    /// before `init`.
    pub closed spec fn heap(&self) -> Region {
        Region { start: self.heap_start as int, size: self.heap_size as int }
    }

    /// Whether `init` has handed a range of addresses to the heap.
    pub open spec fn spec_is_initialized(&self) -> bool {
        self.heap().size > 0
    }

    #[verifier::when_used_as_spec(spec_is_initialized)]
    pub fn is_initialized(&self) -> (initialized: bool)
        ensures
            initialized == self.spec_is_initialized(),
    {
        self.heap_size > 0
    }

    /// Free regions and live blocks lie in the heap, each can hold a
    /// descriptor, and no two of them share an address.
    pub open spec fn wf(&self) -> bool {
        let free = self.free_list();
        let live = self.live();
        let heap = self.heap();
        &&& heap.start >= 0 && heap.size >= 0 && heap.end() <= usize::MAX
        &&& forall|i: int|
            0 <= i < free.len() ==> (#[trigger] free[i]).holds_node() && free[i].within(heap)
        &&& forall|i: int, j: int|
            0 <= i < j < free.len() ==> !(#[trigger] free[i]).overlaps(#[trigger] free[j])
        &&& forall|b: Region| #[trigger] live.contains(b) ==> b.holds_node() && b.within(heap)
        &&& forall|b: Region, c: Region|
            #[trigger] live.contains(b) && #[trigger] live.contains(c) && b != c ==> !b.overlaps(c)
        &&& forall|b: Region, i: int|
            #[trigger] live.contains(b) && 0 <= i < free.len() ==> !b.overlaps(#[trigger] free[i])
    }

    /// A heap without memory: every request fails until `init`.
    pub fn new() -> (heap: Self)
        ensures
            heap.wf(),
            !heap.is_initialized(),
            heap.free_list() == Seq::<Region>::empty(),
            heap.live() == Set::<Region>::empty(),
    {
        LinkedListAllocator {
            head: ListNode::new(0, 0),
            heap_start: 0,
            heap_size: 0,
            live: Ghost(Set::empty()),
        }
    }

    /// Hands the `heap_size` bytes at `heap_start` to the heap, as one
    /// free region.
    pub fn init(&mut self, heap_start: usize, heap_size: usize)
        requires
            old(self).wf(),
            !old(self).is_initialized(),
            (Region { start: heap_start as int, size: heap_size as int }).holds_node(),
        ensures
            final(self).wf(),
            final(self).heap() == (Region { start: heap_start as int, size: heap_size as int }),
            final(self).free_list() == seq![final(self).heap()],
            final(self).live() == Set::<Region>::empty(),
    {
        proof {
            let free = self.free_list();
            if free.len() > 0 {
                assert(free[0].holds_node());
            }
            assert(free.len() == 0);
            assert forall|b: Region| !self.live().contains(b) by {
                if self.live().contains(b) {
                    assert(b.holds_node());
                }
            }
            assert(self.live() == Set::<Region>::empty());
        }
        self.heap_start = heap_start;
        self.heap_size = heap_size;
        self.add_free_region(heap_start, heap_size);
    }

    /// Puts the `size` bytes at `addr` in front of the free list.
    fn add_free_region(&mut self, addr: usize, size: usize)
        requires
            (Region { start: addr as int, size: size as int }).holds_node(),
        ensures
            final(self).free_list() == deallocate_spec(
                old(self).free_list(),
                addr as int,
                size as int,
            ),
            final(self).live() == old(self).live(),
            final(self).heap() == old(self).heap(),
    {
        let mut node = ListNode::new(addr, size);
        node.next = self.head.next.take();
        self.head.next = Some(Box::new(node));
    }

    /// Takes the first free region that fits the request out of the list,
    /// and says at which address the request starts in it.
    pub fn find_region(&mut self, size: usize, align: usize) -> (found: Option<
        (Box<ListNode>, usize),
    >)
        requires
            old(self).wf(),
            is_pow2(align as int),
        ensures
            final(self).heap() == old(self).heap(),
            final(self).live() == old(self).live(),
            match first_fit(old(self).free_list(), size as int, align as int) {
                Some(i) => found matches Some((node, start)) && node.region() == old(
                    self,
                ).free_list()[i] && start == align_up_spec(node.region().start, align as int)
                    && final(self).free_list() == old(self).free_list().remove(i),
                None => found is None && final(self).free_list() == old(self).free_list(),
            },
    {
        detach_first_fit(&mut self.head.next, size, align)
    }

    /// Where a request starts in `region`, if it fits there.
    pub fn alloc_from_region(region: &ListNode, size: usize, align: usize) -> (start: Result<
        usize,
        (),
    >)
        requires
            is_pow2(align as int),
            region.region().end() <= usize::MAX,
        ensures
            start.is_ok() == fits(region.region(), size as int, align as int),
            start matches Ok(s) ==> s == align_up_spec(region.region().start, align as int),
    {
        proof {
            assert(align > 0) by {
                reveal(is_pow2);
            }
            lemma_round_up_within_usize(region.region().start, align as int);
        }
        if region.start_addr() > usize::MAX - (align - 1) {
            return Err(());
        }
        let alloc_start = align_up(region.start_addr(), align);
        let alloc_end = match alloc_start.checked_add(size) {
            Some(end) => end,
            None => {
                return Err(());
            },
        };
        if region.end_addr() < alloc_end {
            return Err(());
        }
        let excess_size = region.end_addr() - alloc_end;
        if 0 < excess_size && excess_size < NODE_SIZE {
            return Err(());
        }
        Ok(alloc_start)
    }

    /// Hands out the first `layout.size()` suitably aligned bytes that the
    /// free list offers, or `None` where no region fits.
    pub fn allocate(&mut self, layout: Layout) -> (addr: Option<usize>)
        requires
            old(self).wf(),
            layout.align_to_spec(NODE_ALIGN) is Some,
        ensures
            final(self).wf(),
            final(self).heap() == old(self).heap(),
            ({
                let (size, align) = size_align_spec(layout);
                let (start, free) = allocate_spec(old(self).free_list(), size, align);
                &&& final(self).free_list() == free
                &&& match start {
                    Some(a) => {
                        let block = Region { start: a, size };
                        &&& addr == Some(a as usize)
                        &&& a % align == 0
                        &&& a % (layout.align() as int) == 0
                        &&& block.within(old(self).heap())
                        &&& forall|b: Region| #[trigger]
                            old(self).live().contains(b) ==> !b.overlaps(block)
                        &&& final(self).live() == old(self).live().insert(block)
                    },
                    None => addr is None && final(self).live() == old(self).live(),
                }
            }),
    {
        let (size, align) = Self::size_align(layout);
        let ghost before = self.free_list();
        proof {
            use_type_invariant(&layout);
            lemma_first_fit(before, size as int, align as int);
        }
        if let Some((region, alloc_start)) = self.find_region(size, align) {
            let ghost i = first_fit(before, size as int, align as int).unwrap();
            let ghost taken = before[i];
            let ghost others = before.remove(i);
            let ghost block = Region { start: alloc_start as int, size: size as int };
            proof {
                assert(taken.holds_node() && taken.within(self.heap()));
                lemma_align_up_fixpoint(taken.start, align as int);
                lemma_pow2_multiple_of_node_align(align as int);
                lemma_multiple_of_multiple(alloc_start as int, align as int, NODE_ALIGN as int);
                if layout.align() < NODE_ALIGN {
                    layout_align_divides_node_align(layout);
                    lemma_multiple_of_multiple(
                        alloc_start as int,
                        NODE_ALIGN as int,
                        layout.align() as int,
                    );
                }
                assert(block.holds_node() && block.within(taken));
                assert forall|k: int| 0 <= k < others.len() implies !taken.overlaps(
                    #[trigger] others[k],
                ) && others[k].holds_node() && others[k].within(self.heap()) by {
                    if k < i {
                        assert(others[k] == before[k]);
                    } else {
                        assert(others[k] == before[k + 1]);
                    }
                }
                assert forall|j: int, k: int| 0 <= j < k < others.len() implies !(
                #[trigger] others[j]).overlaps(#[trigger] others[k]) by {
                    let jj = if j < i {
                        j
                    } else {
                        j + 1
                    };
                    let kk = if k < i {
                        k
                    } else {
                        k + 1
                    };
                    assert(others[j] == before[jj] && others[k] == before[kk]);
                }
                assert forall|b: Region, k: int|
                    #[trigger] self.live().contains(b) && 0 <= k < others.len() implies !b.overlaps(
                    #[trigger] others[k],
                ) by {
                    if k < i {
                        assert(others[k] == before[k]);
                    } else {
                        assert(others[k] == before[k + 1]);
                    }
                }
                assert forall|b: Region| #[trigger] self.live().contains(b) implies !b.overlaps(
                    taken,
                ) by {
                    assert(taken == before[i]);
                }
            }
            let alloc_end = alloc_start + size;
            let excess_size = region.end_addr() - alloc_end;
            if 0 < excess_size {
                self.add_free_region(alloc_end, excess_size);
            }
            self.live = Ghost(self.live@.insert(block));
            proof {
                let free = self.free_list();
                assert forall|k: int| 0 <= k < free.len() implies (#[trigger] free[k]).within(
                    self.heap(),
                ) && free[k].holds_node() && !block.overlaps(free[k]) && (forall|b: Region|
                 #[trigger]
                    old(self).live().contains(b) ==> !b.overlaps(free[k])) by {
                    if excess_size > 0 {
                        if k > 0 {
                            assert(free[k] == others[k - 1]);
                        } else {
                            assert(free[k].within(taken));
                        }
                    } else {
                        assert(free[k] == others[k]);
                    }
                }
                assert forall|j: int, k: int| 0 <= j < k < free.len() implies !(
                #[trigger] free[j]).overlaps(#[trigger] free[k]) by {
                    if excess_size > 0 {
                        assert(free[k] == others[k - 1]);
                        if j > 0 {
                            assert(free[j] == others[j - 1]);
                        } else {
                            assert(free[j].within(taken));
                        }
                    } else {
                        assert(free[j] == others[j] && free[k] == others[k]);
                    }
                }
            }
            Some(alloc_start)
        } else {
            None
        }
    }

    /// Takes back the block at `addr` that was handed out for `layout`:
    /// it becomes the first free region.
    pub fn deallocate(&mut self, addr: usize, layout: Layout)
        requires
            old(self).wf(),
            layout.align_to_spec(NODE_ALIGN) is Some,
            old(self).live().contains(
                Region { start: addr as int, size: size_align_spec(layout).0 },
            ),
        ensures
            final(self).wf(),
            final(self).heap() == old(self).heap(),
            ({
                let size = size_align_spec(layout).0;
                &&& final(self).free_list() == deallocate_spec(
                    old(self).free_list(),
                    addr as int,
                    size,
                )
                &&& final(self).live() == old(self).live().remove(
                    Region { start: addr as int, size },
                )
            }),
    {
        let (size, _) = Self::size_align(layout);
        let ghost block = Region { start: addr as int, size: size as int };
        let ghost before = self.free_list();
        self.add_free_region(addr, size);
        self.live = Ghost(self.live@.remove(block));
        proof {
            let free = self.free_list();
            assert forall|k: int| 0 <= k < free.len() implies (#[trigger] free[k]).within(
                self.heap(),
            ) && free[k].holds_node() && (forall|b: Region| #[trigger]
                self.live().contains(b) ==> !b.overlaps(free[k])) by {
                if k > 0 {
                    assert(free[k] == before[k - 1]);
                }
            }
            assert forall|j: int, k: int| 0 <= j < k < free.len() implies !(
            #[trigger] free[j]).overlaps(#[trigger] free[k]) by {
                assert(free[k] == before[k - 1]);
                if j > 0 {
                    assert(free[j] == before[j - 1]);
                }
            }
        }
    }

    /// The size and the alignment that the heap uses for `layout`.
    pub fn size_align(layout: Layout) -> (normal: (usize, usize))
        requires
            layout.align_to_spec(NODE_ALIGN) is Some,
        ensures
            (normal.0 as int, normal.1 as int) == size_align_spec(layout),
            normalized(normal.0 as int, normal.1 as int),
    {
        let raised = match layout.align_to(NODE_ALIGN) {
            Some(l) => l,
            None => layout,
        };
        let padded = raised.pad_to_align();
        proof {
            lemma_align_up_fixpoint(raised.size() as int, raised.align() as int);
            lemma_pow2_multiple_of_node_align(raised.align() as int);
            lemma_multiple_of_multiple(
                padded.size() as int,
                raised.align() as int,
                NODE_ALIGN as int,
            );
        }
        let size = if padded.size() < NODE_SIZE {
            NODE_SIZE
        } else {
            padded.size()
        };
        (size, padded.align())
    }
}

} // verus!
