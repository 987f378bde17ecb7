//! The kernel heap: a first-fit allocator over a singly linked list of free blocks.
use vstd::prelude::*;
use vstd::arithmetic::power2::pow2;
use crate::allocator::PAGE_SIZE;

verus! {

/// Start of the heap in the virtual address space.
pub const HEAP_START: u64 = 0xffff_a000_0000_0000;

/// Size of the heap: 4 MiB.
pub const HEAP_SIZE: u64 = 4 * 1024 * 1024;

/// Number of pages the heap spans.
pub const HEAP_PAGES: u64 = HEAP_SIZE / PAGE_SIZE;

/// Virtual address of page `i` of the heap.
pub fn heap_page(i: u64) -> (r: u64)
    requires
        i < HEAP_PAGES,
    ensures
        r == HEAP_START + i * PAGE_SIZE,
{
    HEAP_START + i * PAGE_SIZE
}

/// Size of the header at the start of a free block: its size and the link to the next
/// block, one 64-bit word each.
pub const HEADER_SIZE: u64 = 16;

/// Smallest amount handed out, so that a freed block can always hold its header.
pub const MIN_BLOCK_SIZE: u64 = HEADER_SIZE;

/// `a` is a power of two that fits in 64 bits.
pub open spec fn is_power_of_two(a: u64) -> bool {
    exists|n: nat| n < 64 && a == pow2(n)
}

/// The least multiple of `align` that is at least `addr`, as computed by rounding
/// `addr + align - 1` down to a multiple of `align`.
pub open spec fn align_up_spec(addr: int, align: int) -> int {
    (addr + align - 1) - (addr + align - 1) % align
}

/// A power of two is positive.
pub proof fn lemma_power_of_two_pos(a: u64)
    requires
        is_power_of_two(a),
    ensures
        a > 0,
{
    let n = choose|n: nat| n < 64 && a == pow2(n);
    vstd::arithmetic::power2::lemma_pow2_pos(n);
}

/// A non-zero number with no bit in common with its predecessor is a power of two, and
/// conversely.
pub proof fn lemma_power_of_two_mask(a: u64)
    ensures
        is_power_of_two(a) <==> (a != 0 && a & ((a - 1) as u64) == 0),
    decreases a,
{
    if is_power_of_two(a) {
        let n = choose|n: nat| n < 64 && a == pow2(n);
        vstd::arithmetic::power2::lemma_pow2_pos(n);
        vstd::bits::lemma_u64_pow2_no_overflow(n);
        vstd::bits::lemma_u64_low_bits_mask_is_mod(a, n);
        assert(((a - 1) as u64) == vstd::bits::low_bits_mask(n) as u64);
        vstd::arithmetic::div_mod::lemma_mod_self_0(a as int);
    }
    if a != 0 && a & ((a - 1) as u64) == 0 {
        if a == 1 {
            vstd::arithmetic::power2::lemma2_to64();
            assert(a == pow2(0));
        } else {
            let h = a / 2;
            assert(a % 2 == 0 && h != 0 && h & ((h - 1) as u64) == 0 && h * 2 == a) by (bit_vector)
                requires
                    a != 0,
                    a != 1,
                    a & ((a - 1) as u64) == 0,
                    h == a / 2,
            ;
            lemma_power_of_two_mask(h);
            let n = choose|n: nat| n < 64 && h == pow2(n);
            vstd::arithmetic::power2::lemma_pow2_unfold(n + 1);
            assert(a == pow2(n + 1));
            if n == 63 {
                vstd::arithmetic::power2::lemma2_to64_rest();
            }
        }
    }
}

proof fn lemma_mask_is_round_down(y: u64, a: u64)
    requires
        is_power_of_two(a),
    ensures
        y & !((a - 1) as u64) == y - y % a,
{
    let n = choose|n: nat| n < 64 && a == pow2(n);
    vstd::arithmetic::power2::lemma_pow2_pos(n);
    vstd::bits::lemma_u64_pow2_no_overflow(n);
    vstd::bits::lemma_u64_low_bits_mask_is_mod(y, n);
    let m = (a - 1) as u64;
    assert(m == vstd::bits::low_bits_mask(n) as u64);
    assert(y & !m == y - (y & m)) by (bit_vector);
}

/// Rounding up gives a multiple of `align` in `[addr, addr + align)`.
pub proof fn lemma_align_up(addr: int, align: int)
    requires
        0 <= addr,
        0 < align,
    ensures
        align_up_spec(addr, align) % align == 0,
        addr <= align_up_spec(addr, align) < addr + align,
{
    let y = addr + align - 1;
    vstd::arithmetic::div_mod::lemma_fundamental_div_mod(y, align);
    vstd::arithmetic::div_mod::lemma_mod_bound(y, align);
    vstd::arithmetic::div_mod::lemma_mod_multiples_basic(y / align, align);
    assert(align_up_spec(addr, align) == align * (y / align));
    vstd::arithmetic::mul::lemma_mul_is_commutative(align, y / align);
}

/// Rounds `addr` up to a multiple of `align`, a power of two.
pub fn align_up(addr: u64, align: u64) -> (r: u64)
    requires
        is_power_of_two(align),
        addr + align <= u64::MAX,
    ensures
        r == align_up_spec(addr as int, align as int),
        r % align == 0,
        addr <= r < addr + align,
{
    proof {
        lemma_power_of_two_pos(align);
        lemma_mask_is_round_down((addr + align - 1) as u64, align);
        lemma_align_up(addr as int, align as int);
    }
    (addr + align - 1) & !(align - 1)
}


/// A free block: `size` bytes of usable space after a header at `addr`.
#[derive(Clone, Copy)]
pub struct FreeBlock {
    /// Address of the block's header.
    pub addr: u64,
    /// Bytes of space after the header.
    pub size: u64,
}

/// One past the last byte of a free block.
pub open spec fn block_end(b: FreeBlock) -> int {
    b.addr + HEADER_SIZE + b.size
}

/// The number of bytes handed out for a request of `size` bytes.
pub open spec fn request_size(size: int) -> int {
    if size > MIN_BLOCK_SIZE {
        size
    } else {
        MIN_BLOCK_SIZE as int
    }
}

/// Where the data of a request aligned to `align` would start in block `b`.
pub open spec fn data_start(b: FreeBlock, align: int) -> int {
    align_up_spec(b.addr + HEADER_SIZE, align)
}

/// A request of `size` bytes aligned to `align` fits in block `b`.
pub open spec fn fits_block(b: FreeBlock, size: int, align: int) -> bool {
    data_start(b, align) + request_size(size) <= block_end(b)
}

/// Checking block `b` against the request does not overflow 64-bit arithmetic: rounding
/// up the address after the header (whose first step adds `align`), the end of the data,
/// and the end of the block all fit.
pub open spec fn check_in_range(b: FreeBlock, size: int, align: int) -> bool {
    &&& b.addr + HEADER_SIZE + align <= u64::MAX
    &&& data_start(b, align) + request_size(size) <= u64::MAX
    &&& block_end(b) <= u64::MAX
}

/// Block `i` is the first block of the list that fits the request.
pub open spec fn is_first_fit_block(s: Seq<FreeBlock>, size: int, align: int, i: int) -> bool {
    &&& 0 <= i < s.len()
    &&& fits_block(s[i], size, align)
    &&& forall|j: int| 0 <= j < i ==> !fits_block(s[j], size, align)
}

/// The free list after serving a request from block `i`: the block gives way to what
/// is left after the data, or leaves the list when that is too small to hold a header
/// and a minimum block.
pub open spec fn list_after_alloc(s: Seq<FreeBlock>, size: int, align: int, i: int) -> Seq<FreeBlock> {
    let data_end = data_start(s[i], align) + request_size(size);
    let remaining = block_end(s[i]) - data_end;
    if remaining >= HEADER_SIZE + MIN_BLOCK_SIZE {
        s.update(i, FreeBlock { addr: data_end as u64, size: (remaining - HEADER_SIZE) as u64 })
    } else {
        s.remove(i)
    }
}

/// Every block of the list is checked without overflow until one fits.
pub open spec fn request_in_range(s: Seq<FreeBlock>, size: int, align: int) -> bool {
    forall|i: int|
        0 <= i < s.len() && (forall|j: int| 0 <= j < i ==> !fits_block(s[j], size, align))
            ==> check_in_range(#[trigger] s[i], size, align)
}

/// The region `[start, end)` and the block `b` share no byte.
pub open spec fn disjoint_from(b: FreeBlock, start: int, end: int) -> bool {
    block_end(b) <= start || end <= b.addr
}

/// No two blocks of the list share a byte.
pub open spec fn pairwise_disjoint(s: Seq<FreeBlock>) -> bool {
    forall|i: int, j: int|
        0 <= i < s.len() && 0 <= j < s.len() && i != j ==> disjoint_from(
            s[i],
            s[j].addr as int,
            block_end(s[j]),
        )
}

/// A first-fit allocator over a list of free blocks, most recently freed first.
pub struct LinkedListAllocator {
    head: Vec<FreeBlock>,
}

impl View for LinkedListAllocator {
    type V = Seq<FreeBlock>;

    /// The free list, in list order.
    closed spec fn view(&self) -> Seq<FreeBlock> {
        self.head@
    }
}

impl LinkedListAllocator {
    /// An allocator with an empty free list.
    pub fn new() -> (r: Self)
        ensures
            r@ == Seq::<FreeBlock>::empty(),
    {
        Self { head: Vec::new() }
    }

    /// Makes the whole heap one free block.
    pub fn init(&mut self)
        ensures
            final(self)@ == seq![FreeBlock { addr: HEAP_START, size: (HEAP_SIZE - HEADER_SIZE) as u64 }],
    {
        self.head = Vec::new();
        self.head.push(FreeBlock { addr: HEAP_START, size: HEAP_SIZE - HEADER_SIZE });
        assert(self@ =~= seq![FreeBlock { addr: HEAP_START, size: (HEAP_SIZE - HEADER_SIZE) as u64 }]);
    }

    /// Serves a request of `size` bytes aligned to `align` from the first block that fits
    /// and returns the address of the data, or 0 when no block fits.
    pub fn allocate(&mut self, size: u64, align: u64) -> (r: u64)
        requires
            is_power_of_two(align),
            request_in_range(old(self)@, size as int, align as int),
        ensures
            (forall|i: int| 0 <= i < old(self)@.len() ==> !fits_block(old(self)@[i], size as int, align as int))
                ==> r == 0 && final(self)@ == old(self)@,
            forall|i: int|
                is_first_fit_block(old(self)@, size as int, align as int, i) ==> r == data_start(
                    old(self)@[i],
                    align as int,
                ) && r != 0 && final(self)@ == list_after_alloc(old(self)@, size as int, align as int, i),
    {
        let req = if size > MIN_BLOCK_SIZE {
            size
        } else {
            MIN_BLOCK_SIZE
        };
        let ghost s = self@;
        let mut i: usize = 0;
        while i < self.head.len()
            invariant
                self@ == s,
                s == old(self)@,
                is_power_of_two(align),
                request_in_range(s, size as int, align as int),
                req == request_size(size as int),
                i <= s.len(),
                forall|j: int| 0 <= j < i ==> !fits_block(s[j], size as int, align as int),
            decreases s.len() - i,
        {
            let block = self.head[i];
            assert(check_in_range(s[i as int], size as int, align as int));
            proof {
                lemma_power_of_two_pos(align);
                lemma_align_up((block.addr + HEADER_SIZE) as int, align as int);
            }
            let data_start = align_up(block.addr + HEADER_SIZE, align);
            let data_end = data_start + req;
            let block_end = block.addr + HEADER_SIZE + block.size;
            if data_end <= block_end {
                let remaining = block_end - data_end;
                if remaining >= HEADER_SIZE + MIN_BLOCK_SIZE {
                    self.head.set(i, FreeBlock { addr: data_end, size: remaining - HEADER_SIZE });
                } else {
                    self.head.remove(i);
                }
                proof {
                    assert(is_first_fit_block(s, size as int, align as int, i as int));
                    assert(self@ =~= list_after_alloc(s, size as int, align as int, i as int));
                    assert forall|k: int| is_first_fit_block(s, size as int, align as int, k) implies k == i by {
                        if k < i {
                            assert(!fits_block(s[k], size as int, align as int));
                        }
                        if k > i {
                            assert(!fits_block(s[i as int], size as int, align as int));
                        }
                    }
                }
                return data_start;
            }
            i = i + 1;
        }
        0
    }

    /// Whether `allocate(size, align)` may be called: `align` is a power of two and the
    /// search stays within 64-bit arithmetic.
    pub fn can_allocate(&self, size: u64, align: u64) -> (r: bool)
        ensures
            r == (is_power_of_two(align) && request_in_range(self@, size as int, align as int)),
    {
        proof {
            lemma_power_of_two_mask(align);
        }
        if align == 0 || align & (align - 1) != 0 {
            return false;
        }
        proof {
            lemma_power_of_two_pos(align);
        }
        let req = if size > MIN_BLOCK_SIZE {
            size
        } else {
            MIN_BLOCK_SIZE
        };
        let ghost s = self@;
        let mut i: usize = 0;
        while i < self.head.len()
            invariant
                self@ == s,
                is_power_of_two(align),
                align > 0,
                req == request_size(size as int),
                i <= s.len(),
                forall|j: int| 0 <= j < i ==> !fits_block(s[j], size as int, align as int),
                forall|j: int| 0 <= j < i ==> check_in_range(s[j], size as int, align as int),
            decreases s.len() - i,
        {
            let block = self.head[i];
            if block.addr > u64::MAX - HEADER_SIZE || block.addr + HEADER_SIZE > u64::MAX - align {
                return false;
            }
            let data_start = align_up(block.addr + HEADER_SIZE, align);
            if data_start > u64::MAX - req || block.addr + HEADER_SIZE > u64::MAX - block.size {
                return false;
            }
            if data_start + req <= block.addr + HEADER_SIZE + block.size {
                return true;
            }
            i = i + 1;
        }
        true
    }

    /// Puts the block at `ptr` back at the front of the free list.
    pub fn deallocate(&mut self, ptr: u64, size: u64)
        ensures
            final(self)@ == seq![FreeBlock { addr: ptr, size: request_size(size as int) as u64 }] + old(self)@,
            final(self)@[0].addr == ptr,
            final(self)@[0].size >= size,
            final(self)@[0].size >= MIN_BLOCK_SIZE,
    {
        proof {
            law_request_covers_size(size as int);
        }
        let size = if size > MIN_BLOCK_SIZE {
            size
        } else {
            MIN_BLOCK_SIZE
        };
        self.head.insert(0, FreeBlock { addr: ptr, size });
        assert(self@ =~= seq![FreeBlock { addr: ptr, size: size }] + old(self)@);
    }
}

/// The amount handed out for a request covers the request: it is the request size, or
/// the minimum block size when that is larger.
pub proof fn law_request_covers_size(size: int)
    ensures
        request_size(size) >= size,
        request_size(size) >= MIN_BLOCK_SIZE,
        request_size(size) == size || request_size(size) == MIN_BLOCK_SIZE,
{
}

/// Serving a request from block `i` keeps every other block, in order, and, when the rest
/// of block `i` after the data can hold a header and a minimum block, keeps that rest as
/// a free block ending where block `i` ended, wherever block `i` is in the list.
pub proof fn law_split_keeps_rest(s: Seq<FreeBlock>, size: int, align: int, i: int)
    requires
        is_first_fit_block(s, size, align, i),
        block_end(s[i]) <= u64::MAX,
        0 < align,
    ensures
        ({
            let t = list_after_alloc(s, size, align, i);
            let data_end = data_start(s[i], align) + request_size(size);
            &&& forall|j: int| 0 <= j < i ==> t[j] == s[j]
            &&& block_end(s[i]) - data_end >= HEADER_SIZE + MIN_BLOCK_SIZE ==> {
                &&& t.len() == s.len()
                &&& t[i].addr == data_end
                &&& block_end(t[i]) == block_end(s[i])
                &&& forall|j: int| i < j < s.len() ==> t[j] == s[j]
            }
            &&& block_end(s[i]) - data_end < HEADER_SIZE + MIN_BLOCK_SIZE ==> {
                &&& t.len() == s.len() - 1
                &&& forall|j: int| i < j < s.len() ==> t[j - 1] == s[j]
            }
        }),
{
    lemma_align_up(s[i].addr + HEADER_SIZE, align);
}

/// Serving a request from a list of non-overlapping free blocks hands out aligned memory
/// that lies inside the block it came from, and leaves a list of non-overlapping blocks
/// that neither overlap the memory handed out nor reach outside the blocks there were.
pub proof fn law_allocation_is_disjoint(s: Seq<FreeBlock>, size: int, align: int, i: int)
    requires
        pairwise_disjoint(s),
        block_end(s[i]) <= u64::MAX,
        0 < align,
        is_first_fit_block(s, size, align, i),
    ensures
        data_start(s[i], align) % align == 0,
        s[i].addr + HEADER_SIZE <= data_start(s[i], align),
        data_start(s[i], align) + request_size(size) <= block_end(s[i]),
        data_start(s[i], align) + size <= block_end(s[i]),
        pairwise_disjoint(list_after_alloc(s, size, align, i)),
        forall|k: int|
            0 <= k < list_after_alloc(s, size, align, i).len() ==> disjoint_from(
                #[trigger] list_after_alloc(s, size, align, i)[k],
                data_start(s[i], align),
                data_start(s[i], align) + request_size(size),
            ),
        forall|k: int|
            0 <= k < list_after_alloc(s, size, align, i).len() ==> disjoint_from(
                #[trigger] list_after_alloc(s, size, align, i)[k],
                data_start(s[i], align),
                data_start(s[i], align) + size,
            ),
        forall|k: int|
            0 <= k < list_after_alloc(s, size, align, i).len() ==> exists|j: int|
                0 <= j < s.len() && s[j].addr <= (#[trigger] list_after_alloc(s, size, align, i)[k]).addr
                    && block_end(list_after_alloc(s, size, align, i)[k]) <= block_end(s[j]),
{
    let r = data_start(s[i], align);
    let t = list_after_alloc(s, size, align, i);
    lemma_align_up(s[i].addr + HEADER_SIZE, align);
    law_request_covers_size(size);
    let data_end = r + request_size(size);
    let remaining = block_end(s[i]) - data_end;
    if remaining >= HEADER_SIZE + MIN_BLOCK_SIZE {
        let nb = FreeBlock { addr: data_end as u64, size: (remaining - HEADER_SIZE) as u64 };
        assert(block_end(nb) == block_end(s[i]));
        assert(t == s.update(i, nb));
        assert forall|k: int| 0 <= k < t.len() implies disjoint_from(t[k], r, data_end) by {
            if k != i {
                assert(t[k] == s[k]);
                assert(disjoint_from(s[k], s[i].addr as int, block_end(s[i])));
            }
        }
        assert forall|a: int, b: int| 0 <= a < t.len() && 0 <= b < t.len() && a != b implies disjoint_from(
            t[a],
            t[b].addr as int,
            block_end(t[b]),
        ) by {
            assert(disjoint_from(s[a], s[b].addr as int, block_end(s[b])));
        }
        assert forall|k: int| 0 <= k < t.len() implies exists|j: int|
            0 <= j < s.len() && s[j].addr <= (#[trigger] t[k]).addr && block_end(t[k]) <= block_end(s[j]) by {
            assert(s[k].addr <= t[k].addr && block_end(t[k]) <= block_end(s[k]));
        }
    } else {
        assert(t == s.remove(i));
        assert forall|k: int| 0 <= k < t.len() implies disjoint_from(t[k], r, data_end) by {
            let j = if k < i { k } else { k + 1 };
            assert(t[k] == s[j]);
            assert(disjoint_from(s[j], s[i].addr as int, block_end(s[i])));
        }
        assert forall|a: int, b: int| 0 <= a < t.len() && 0 <= b < t.len() && a != b implies disjoint_from(
            t[a],
            t[b].addr as int,
            block_end(t[b]),
        ) by {
            let ja = if a < i { a } else { a + 1 };
            let jb = if b < i { b } else { b + 1 };
            assert(t[a] == s[ja] && t[b] == s[jb]);
            assert(disjoint_from(s[ja], s[jb].addr as int, block_end(s[jb])));
        }
        assert forall|k: int| 0 <= k < t.len() implies exists|j: int|
            0 <= j < s.len() && s[j].addr <= (#[trigger] t[k]).addr && block_end(t[k]) <= block_end(s[j]) by {
            let j = if k < i { k } else { k + 1 };
            assert(t[k] == s[j]);
        }
    }
}

/// A block just freed is the first one searched: when it fits a request, the request
/// is served from it.
pub proof fn law_freed_block_served_first(s: Seq<FreeBlock>, b: FreeBlock, size: int, align: int)
    requires
        fits_block(b, size, align),
    ensures
        is_first_fit_block(seq![b] + s, size, align, 0),
{
}

} // verus!
