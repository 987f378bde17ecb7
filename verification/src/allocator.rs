//! Physical frame allocator: one bit per 4 KiB page, set when the page is in use.
use vstd::prelude::*;

verus! {

/// Size of a physical page.
pub const PAGE_SIZE: u64 = 4096;

/// One region of the boot memory map.
#[derive(Clone, Copy)]
pub struct MemmapEntry {
    /// Physical address of the first byte.
    pub base: u64,
    /// Length in bytes.
    pub length: u64,
    /// Whether the region is free for the kernel to use.
    pub usable: bool,
}

/// One past the last byte of a region.
pub open spec fn region_end(e: MemmapEntry) -> int {
    e.base + e.length
}

/// Highest end address among the usable regions (0 when there is none).
pub open spec fn max_usable_end(s: Seq<MemmapEntry>) -> int
    decreases s.len(),
{
    if s.len() == 0 {
        0
    } else {
        let m = max_usable_end(s.drop_last());
        if s.last().usable && region_end(s.last()) > m {
            region_end(s.last())
        } else {
            m
        }
    }
}

/// Number of pages the allocator manages for a memory map.
pub open spec fn pages_for(s: Seq<MemmapEntry>) -> int {
    max_usable_end(s) / PAGE_SIZE as int
}

/// Number of bitmap bytes needed for `pages` pages.
pub open spec fn bitmap_bytes_for(pages: int) -> int {
    (pages + 7) / 8
}

/// A region can hold the bitmap: it is usable and at least `size` bytes long.
pub open spec fn fits(e: MemmapEntry, size: int) -> bool {
    e.usable && e.length >= size
}

/// Region `i` is the first one that can hold `size` bytes.
pub open spec fn is_first_fit(s: Seq<MemmapEntry>, size: int, i: int) -> bool {
    &&& 0 <= i < s.len()
    &&& fits(s[i], size)
    &&& forall|j: int| 0 <= j < i ==> !fits(s[j], size)
}

/// Index of the first region that can hold `size` bytes.
pub open spec fn first_fit(s: Seq<MemmapEntry>, size: int) -> int {
    choose|i: int| is_first_fit(s, size, i)
}

/// Page `p` lies in the page range `[base / PAGE_SIZE, end / PAGE_SIZE)` of a usable region `s[i]`.
pub open spec fn page_in_usable(s: Seq<MemmapEntry>, i: int, p: int) -> bool {
    &&& s[i].usable
    &&& s[i].base as int / PAGE_SIZE as int <= p < region_end(s[i]) / PAGE_SIZE as int
}

/// Page `p` lies in some usable region.
pub open spec fn covered(s: Seq<MemmapEntry>, p: int) -> bool {
    covered_by_first(s, s.len() as int, p)
}

/// Page `p` holds part of a bitmap of `size` bytes placed at `loc`.
pub open spec fn in_bitmap_pages(loc: int, size: int, p: int) -> bool {
    loc / PAGE_SIZE as int <= p < (loc + size + PAGE_SIZE - 1) / PAGE_SIZE as int
}

/// The state of page `p` right after `init`: used unless it lies in a usable region,
/// and used anyway when it holds the bitmap.
pub open spec fn initially_used(s: Seq<MemmapEntry>, loc: int, size: int, p: int) -> bool {
    !covered(s, p) || in_bitmap_pages(loc, size, p)
}

/// Where `init` places the bitmap: the base of the first usable region large enough for it.
pub open spec fn bitmap_location(s: Seq<MemmapEntry>) -> int {
    s[first_fit(s, bitmap_bytes_for(pages_for(s)))].base as int
}

/// Page `p` lies in one of the first `n` regions, which is usable.
pub open spec fn covered_by_first(s: Seq<MemmapEntry>, n: int, p: int) -> bool {
    exists|i: int| 0 <= i < n && page_in_usable(s, i, p)
}

/// Pages in the page range `[base / PAGE_SIZE, end / PAGE_SIZE)` of a usable region (0 for
/// other regions).
pub open spec fn usable_page_count(e: MemmapEntry) -> int {
    if e.usable {
        region_end(e) / PAGE_SIZE as int - e.base as int / PAGE_SIZE as int
    } else {
        0
    }
}

/// Sum of the page counts of the usable regions, overlapping ones counted as often as they
/// occur.
pub open spec fn usable_pages(s: Seq<MemmapEntry>) -> int
    decreases s.len(),
{
    if s.len() == 0 {
        0
    } else {
        usable_pages(s.drop_last()) + usable_page_count(s.last())
    }
}

/// Number of pages in `[a, b)` that lie in a usable region.
pub open spec fn covered_pages_in(s: Seq<MemmapEntry>, a: int, b: int) -> nat
    decreases b - a,
{
    if b <= a {
        0
    } else {
        covered_pages_in(s, a, b - 1) + if covered(s, b - 1) {
            1nat
        } else {
            0nat
        }
    }
}

/// Number of free pages of `v` in `[a, b)`.
pub open spec fn free_in(v: Seq<bool>, a: int, b: int) -> nat
    decreases b - a,
{
    if b <= a {
        0
    } else {
        free_in(v, a, b - 1) + if v[b - 1] {
            0nat
        } else {
            1nat
        }
    }
}

/// No two usable regions share a byte. The boot protocol guarantees this for the maps it
/// hands over; on a map that breaks it, `init` counts a page of two regions twice.
pub open spec fn usable_disjoint(s: Seq<MemmapEntry>) -> bool {
    forall|i: int, j: int|
        0 <= i < s.len() && 0 <= j < s.len() && i != j && s[i].usable && s[j].usable ==> region_end(s[i])
            <= s[j].base || region_end(s[j]) <= s[i].base
}

/// The conditions under which `init` runs without fault on a memory map: the usable
/// regions do not wrap around the address space, the page count (rounded up to whole
/// bitmap bytes) and the free-page counter fit in a `usize`, some usable region can hold
/// the bitmap, the end page of the bitmap, computed as `(end + PAGE_SIZE - 1) /
/// PAGE_SIZE` (whose first sum must fit in 64 bits), is among the managed pages, and the
/// bitmap's address in the higher-half direct map fits in 64 bits.
pub open spec fn memmap_ok(s: Seq<MemmapEntry>, hhdm_offset: u64) -> bool {
    let total = pages_for(s);
    let size = bitmap_bytes_for(total);
    let loc = bitmap_location(s);
    &&& forall|i: int| 0 <= i < s.len() && s[i].usable ==> region_end(s[i]) <= u64::MAX
    &&& total + 7 <= usize::MAX
    &&& usable_pages(s) <= usize::MAX
    &&& exists|i: int| 0 <= i < s.len() && fits(s[i], size)
    &&& loc + size + PAGE_SIZE <= u64::MAX
    &&& (loc + size + PAGE_SIZE - 1) / PAGE_SIZE as int <= total
    &&& loc + hhdm_offset <= u64::MAX
}

/// Whether bit `page` of a byte-packed bitmap is set (bit `page % 8` of byte `page / 8`).
pub open spec fn bit_of(bytes: Seq<u8>, page: int) -> bool {
    (bytes[page / 8] >> ((page % 8) as u8)) & 1u8 == 1u8
}

/// Number of free (`false`) pages in a page map.
pub open spec fn count_free(s: Seq<bool>) -> nat
    decreases s.len(),
{
    if s.len() == 0 {
        0
    } else {
        count_free(s.drop_last()) + if s.last() {
            0nat
        } else {
            1nat
        }
    }
}

/// Changing one page changes the free count by the difference of the two states.
pub proof fn lemma_count_free_update(s: Seq<bool>, i: int, v: bool)
    requires
        0 <= i < s.len(),
    ensures
        count_free(s.update(i, v)) + (if s[i] { 0int } else { 1int }) == count_free(s) + (if v {
            0int
        } else {
            1int
        }),
    decreases s.len(),
{
    let t = s.update(i, v);
    if i == s.len() - 1 {
        assert(t.drop_last() =~= s.drop_last());
    } else {
        assert(t.drop_last() =~= s.drop_last().update(i, v));
        lemma_count_free_update(s.drop_last(), i, v);
    }
}

/// The free count never exceeds the number of pages, and is zero exactly when every page is used.
pub proof fn lemma_count_free_bounds(s: Seq<bool>)
    ensures
        count_free(s) <= s.len(),
        count_free(s) == 0 <==> forall|i: int| 0 <= i < s.len() ==> s[i],
    decreases s.len(),
{
    if s.len() > 0 {
        lemma_count_free_bounds(s.drop_last());
        if count_free(s) == 0 {
            assert forall|i: int| 0 <= i < s.len() implies s[i] by {
                if i < s.len() - 1 {
                    assert(s[i] == s.drop_last()[i]);
                }
            }
        }
        if forall|i: int| 0 <= i < s.len() ==> s[i] {
            assert forall|i: int| 0 <= i < s.drop_last().len() implies s.drop_last()[i] by {
                assert(s[i] == s.drop_last()[i]);
            }
        }
    }
}

proof fn lemma_byte_set_bit(b: u8, k: u8)
    requires
        k < 8,
    ensures
        ((b | (1u8 << k)) >> k) & 1u8 == 1u8,
        forall|j: u8| j < 8 && j != k ==> #[trigger] (((b | (1u8 << k)) >> j) & 1u8) == (b >> j) & 1u8,
{
    assert(((b | (1u8 << k)) >> k) & 1u8 == 1u8) by (bit_vector)
        requires
            k < 8,
    ;
    assert(forall|j: u8| j < 8 && j != k ==> #[trigger] (((b | (1u8 << k)) >> j) & 1u8) == (b >> j) & 1u8)
        by (bit_vector)
        requires
            k < 8,
    ;
}

proof fn lemma_byte_clear_bit(b: u8, k: u8)
    requires
        k < 8,
    ensures
        ((b & !(1u8 << k)) >> k) & 1u8 == 0u8,
        forall|j: u8| j < 8 && j != k ==> #[trigger] (((b & !(1u8 << k)) >> j) & 1u8) == (b >> j) & 1u8,
{
    assert(((b & !(1u8 << k)) >> k) & 1u8 == 0u8) by (bit_vector)
        requires
            k < 8,
    ;
    assert(forall|j: u8| j < 8 && j != k ==> #[trigger] (((b & !(1u8 << k)) >> j) & 1u8) == (b >> j) & 1u8)
        by (bit_vector)
        requires
            k < 8,
    ;
}

proof fn lemma_full_byte(k: u8)
    requires
        k < 8,
    ensures
        (0xFFu8 >> k) & 1u8 == 1u8,
{
    assert((0xFFu8 >> k) & 1u8 == 1u8) by (bit_vector)
        requires
            k < 8,
    ;
}

/// A byte-packed bitmap with one bit per page; `true` marks a page in use.
pub struct BitmapAllocator {
    bitmap: Vec<u8>,
    bitmap_addr: u64,
    bitmap_size: usize,
    total_pages: usize,
    free_pages: usize,
}

impl View for BitmapAllocator {
    type V = Seq<bool>;

    /// The state of each page, indexed by page number: `true` when in use.
    closed spec fn view(&self) -> Seq<bool> {
        Seq::new(self.total_pages as nat, |i: int| bit_of(self.bitmap@, i))
    }
}

impl BitmapAllocator {
    /// The bitmap covers every page and the page count fits the address space.
    closed spec fn shape_ok(&self) -> bool {
        &&& self.bitmap@.len() == self.bitmap_size
        &&& self.bitmap_size == (self.total_pages + 7) / 8
        &&& self.total_pages * PAGE_SIZE <= u64::MAX
    }

    /// Well-formedness: the shape is consistent and the free-page counter is at least
    /// the number of free pages.
    pub closed spec fn wf(&self) -> bool {
        &&& self.shape_ok()
        &&& self.free_pages >= count_free(self@)
    }

    /// The free-page counter.
    pub closed spec fn free_counter(&self) -> nat {
        self.free_pages as nat
    }

    /// The free-page counter equals the number of free pages. Every operation keeps this;
    /// `init` establishes it when the usable regions of the memory map do not overlap.
    pub open spec fn counts_exactly(&self) -> bool {
        self.free_counter() == count_free(self@)
    }

    /// Number of bytes in the bitmap.
    pub closed spec fn bitmap_bytes(&self) -> nat {
        self.bitmap_size as nat
    }

    fn set_bit(&mut self, page: usize)
        requires
            old(self).shape_ok(),
            page < old(self)@.len(),
        ensures
            final(self).shape_ok(),
            final(self)@ == old(self)@.update(page as int, true),
            final(self).free_pages == old(self).free_pages,
            final(self).bitmap_addr == old(self).bitmap_addr,
    {
        let idx = page / 8;
        let shift = (page % 8) as u8;
        let old_byte = self.bitmap[idx];
        self.bitmap[idx] = old_byte | (1u8 << shift);
        proof {
            lemma_byte_set_bit(old_byte, shift);
            assert forall|i: int| 0 <= i < self@.len() implies self@[i] == old(self)@.update(
                page as int,
                true,
            )[i] by {
                if i / 8 == page / 8 {
                    if i != page {
                        assert((i % 8) as u8 != shift);
                        assert(((old_byte | (1u8 << shift)) >> ((i % 8) as u8)) & 1u8 == (old_byte
                            >> ((i % 8) as u8)) & 1u8);
                    }
                }
            }
            assert(self@ =~= old(self)@.update(page as int, true));
        }
    }

    fn clear_bit(&mut self, page: usize)
        requires
            old(self).shape_ok(),
            page < old(self)@.len(),
        ensures
            final(self).shape_ok(),
            final(self)@ == old(self)@.update(page as int, false),
            final(self).free_pages == old(self).free_pages,
            final(self).bitmap_addr == old(self).bitmap_addr,
    {
        let idx = page / 8;
        let shift = (page % 8) as u8;
        let old_byte = self.bitmap[idx];
        self.bitmap[idx] = old_byte & !(1u8 << shift);
        proof {
            lemma_byte_clear_bit(old_byte, shift);
            assert forall|i: int| 0 <= i < self@.len() implies self@[i] == old(self)@.update(
                page as int,
                false,
            )[i] by {
                if i / 8 == page / 8 {
                    if i != page {
                        assert((i % 8) as u8 != shift);
                        assert(((old_byte & !(1u8 << shift)) >> ((i % 8) as u8)) & 1u8 == (old_byte
                            >> ((i % 8) as u8)) & 1u8);
                    }
                }
            }
            assert(self@ =~= old(self)@.update(page as int, false));
        }
    }

    fn test_bit(&self, page: usize) -> (r: bool)
        requires
            self.shape_ok(),
            page < self@.len(),
        ensures
            r == self@[page as int],
    {
        (self.bitmap[page / 8] >> ((page % 8) as u8)) & 1u8 == 1u8
    }
}


/// What `alloc_frame` does: `None` when every page is in use (nothing changes);
/// otherwise the page-aligned address of the lowest free page, which becomes used.
pub open spec fn alloc_frame_post(before: Seq<bool>, after: Seq<bool>, r: Option<u64>) -> bool {
    match r {
        None => {
            &&& forall|i: int| 0 <= i < before.len() ==> before[i]
            &&& after == before
        },
        Some(addr) => {
            let p = addr / PAGE_SIZE;
            &&& addr % PAGE_SIZE == 0
            &&& p < before.len()
            &&& !before[p as int]
            &&& forall|j: int| 0 <= j < p ==> before[j]
            &&& after == before.update(p as int, true)
        },
    }
}

/// What `free_frame(addr)` does: the page holding `addr` becomes free.
pub open spec fn free_frame_post(before: Seq<bool>, after: Seq<bool>, addr: u64) -> bool {
    after == before.update((addr / PAGE_SIZE) as int, false)
}

impl BitmapAllocator {
    /// An allocator that manages no memory yet.
    pub fn new() -> (r: Self)
        ensures
            r.wf(),
            r.counts_exactly(),
            r.free_counter() == 0,
            r@.len() == 0,
    {
        Self { bitmap: Vec::new(), bitmap_addr: 0, bitmap_size: 0, total_pages: 0, free_pages: 0 }
    }

    /// Takes the lowest free page, marks it used and returns its physical address.
    pub fn alloc_frame(&mut self) -> (r: Option<u64>)
        requires
            old(self).wf(),
        ensures
            final(self).wf(),
            alloc_frame_post(old(self)@, final(self)@, r),
            final(self).free_counter() == if r is Some {
                old(self).free_counter() - 1
            } else {
                old(self).free_counter() as int
            },
            old(self).counts_exactly() ==> final(self).counts_exactly(),
    {
        let mut page: usize = 0;
        while page < self.total_pages
            invariant
                self.wf(),
                self@ == old(self)@,
                self.free_pages == old(self).free_pages,
                page <= self@.len(),
                forall|j: int| 0 <= j < page ==> self@[j],
            decreases self.total_pages - page,
        {
            if !self.test_bit(page) {
                let ghost before = self@;
                self.set_bit(page);
                proof {
                    lemma_count_free_update(before, page as int, true);
                }
                self.free_pages = self.free_pages - 1;
                let addr = page as u64 * PAGE_SIZE;
                assert(addr / PAGE_SIZE == page);
                return Some(addr);
            }
            page = page + 1;
        }
        None
    }

    /// Returns the page holding `addr` to the free pool.
    pub fn free_frame(&mut self, addr: u64)
        requires
            old(self).wf(),
            addr / PAGE_SIZE < old(self)@.len(),
            old(self)@[(addr / PAGE_SIZE) as int],
            old(self).free_counter() < usize::MAX,
        ensures
            final(self).wf(),
            free_frame_post(old(self)@, final(self)@, addr),
            final(self).free_counter() == old(self).free_counter() + 1,
            old(self).counts_exactly() ==> final(self).counts_exactly(),
    {
        let page = (addr / PAGE_SIZE) as usize;
        let ghost before = self@;
        self.clear_bit(page);
        proof {
            lemma_count_free_update(before, page as int, false);
        }
        self.free_pages = self.free_pages + 1;
    }

    /// The free-page counter: the number of free pages while `counts_exactly` holds.
    pub fn free_pages(&self) -> (r: usize)
        requires
            self.wf(),
        ensures
            r == self.free_counter(),
            self.counts_exactly() ==> r == count_free(self@),
    {
        self.free_pages
    }

    /// Number of pages the bitmap covers.
    pub fn total_pages(&self) -> (r: usize)
        requires
            self.wf(),
        ensures
            r == self@.len(),
    {
        self.total_pages
    }

    /// Whether page `page` is in use.
    pub fn is_used(&self, page: usize) -> (r: bool)
        requires
            self.wf(),
            page < self@.len(),
        ensures
            r == self@[page as int],
    {
        self.test_bit(page)
    }
}

/// Freeing the frame that `alloc_frame` just handed out restores the page map it started from.
pub proof fn law_free_undoes_alloc(s0: Seq<bool>, s1: Seq<bool>, s2: Seq<bool>, addr: u64)
    requires
        alloc_frame_post(s0, s1, Some(addr)),
        free_frame_post(s1, s2, addr),
    ensures
        s2 == s0,
        count_free(s2) == count_free(s0),
{
    assert(s2 =~= s0);
}

/// Each successful allocation takes exactly one free page.
pub proof fn law_alloc_takes_one_page(s0: Seq<bool>, s1: Seq<bool>, addr: u64)
    requires
        alloc_frame_post(s0, s1, Some(addr)),
    ensures
        count_free(s1) + 1 == count_free(s0),
        s1.len() == s0.len(),
{
    lemma_count_free_update(s0, (addr / PAGE_SIZE) as int, true);
}

/// Allocation fails exactly when no page is free.
pub proof fn law_alloc_fails_iff_full(s0: Seq<bool>, s1: Seq<bool>, r: Option<u64>)
    requires
        alloc_frame_post(s0, s1, r),
    ensures
        r is None <==> count_free(s0) == 0,
{
    lemma_count_free_bounds(s0);
}

/// Two successive allocations hand out two different frames, the second above the first.
pub proof fn law_alloc_distinct(
    s0: Seq<bool>,
    s1: Seq<bool>,
    s2: Seq<bool>,
    a: u64,
    b: u64,
)
    requires
        alloc_frame_post(s0, s1, Some(a)),
        alloc_frame_post(s1, s2, Some(b)),
    ensures
        a < b,
{
}

/// Every usable region ends at or below `max_usable_end`, which is 0 or the end of one of them.
pub proof fn lemma_max_usable_end(s: Seq<MemmapEntry>)
    ensures
        max_usable_end(s) >= 0,
        forall|i: int| 0 <= i < s.len() && s[i].usable ==> region_end(s[i]) <= max_usable_end(s),
        max_usable_end(s) == 0 || exists|i: int|
            0 <= i < s.len() && s[i].usable && region_end(s[i]) == max_usable_end(s),
    decreases s.len(),
{
    if s.len() > 0 {
        let t = s.drop_last();
        lemma_max_usable_end(t);
        assert forall|i: int| 0 <= i < s.len() && s[i].usable implies region_end(s[i]) <= max_usable_end(s) by {
            if i < s.len() - 1 {
                assert(s[i] == t[i]);
            }
        }
        if max_usable_end(s) != 0 && max_usable_end(s) == max_usable_end(t) {
            let k = choose|k: int| 0 <= k < t.len() && t[k].usable && region_end(t[k]) == max_usable_end(t);
            assert(s[k] == t[k]);
        }
        if max_usable_end(s) != max_usable_end(t) {
            assert(s[s.len() - 1] == s.last());
        }
    }
}

proof fn lemma_first_fit(s: Seq<MemmapEntry>, size: int, i: int)
    requires
        is_first_fit(s, size, i),
    ensures
        first_fit(s, size) == i,
{
    let k = first_fit(s, size);
    assert(is_first_fit(s, size, k));
    if k < i {
        assert(!fits(s[k], size));
    }
    if i < k {
        assert(!fits(s[i], size));
    }
}

proof fn lemma_div_page_mono(a: int, b: int)
    requires
        0 <= a <= b,
    ensures
        a / PAGE_SIZE as int <= b / PAGE_SIZE as int,
{
    vstd::arithmetic::div_mod::lemma_div_is_ordered(a, b, PAGE_SIZE as int);
}

impl BitmapAllocator {
    /// Pages to manage and bitmap bytes needed for a memory map: the pages below the
    /// highest usable address, and one bit for each.
    pub fn calc_bitmap_size(entries: &[MemmapEntry]) -> (r: (usize, usize))
        requires
            forall|i: int|
                0 <= i < entries@.len() && entries@[i].usable ==> region_end(entries@[i]) <= u64::MAX,
            pages_for(entries@) + 7 <= usize::MAX,
        ensures
            r.0 == pages_for(entries@),
            r.1 == bitmap_bytes_for(r.0 as int),
    {
        let mut max_addr: u64 = 0;
        let mut i: usize = 0;
        while i < entries.len()
            invariant
                i <= entries@.len(),
                max_addr == max_usable_end(entries@.take(i as int)),
                forall|k: int|
                    0 <= k < entries@.len() && entries@[k].usable ==> region_end(entries@[k]) <= u64::MAX,
            decreases entries.len() - i,
        {
            let entry = entries[i];
            assert(entries@.take(i + 1).drop_last() =~= entries@.take(i as int));
            assert(entries@.take(i + 1).last() == entry);
            if entry.usable {
                let end = entry.base + entry.length;
                if end > max_addr {
                    max_addr = end;
                }
            }
            i = i + 1;
        }
        assert(entries@.take(entries.len() as int) =~= entries@);
        let total_pages = (max_addr / PAGE_SIZE) as usize;
        let bitmap_size = (total_pages + 7) / 8;
        (total_pages, bitmap_size)
    }

    /// Base address of the first usable region that can hold `bitmap_size` bytes.
    pub fn find_bitmap_location(entries: &[MemmapEntry], bitmap_size: usize) -> (r: Option<u64>)
        ensures
            r is None <==> forall|i: int| 0 <= i < entries@.len() ==> !fits(entries@[i], bitmap_size as int),
            r matches Some(b) ==> is_first_fit(entries@, bitmap_size as int, first_fit(entries@, bitmap_size as int))
                && b == entries@[first_fit(entries@, bitmap_size as int)].base,
    {
        let mut i: usize = 0;
        while i < entries.len()
            invariant
                i <= entries@.len(),
                forall|j: int| 0 <= j < i ==> !fits(entries@[j], bitmap_size as int),
            decreases entries.len() - i,
        {
            let entry = entries[i];
            if entry.usable && entry.length >= bitmap_size as u64 {
                proof {
                    lemma_first_fit(entries@, bitmap_size as int, i as int);
                }
                return Some(entry.base);
            }
            i = i + 1;
        }
        None
    }
}


/// Usable regions that do not overlap in bytes do not share a page.
proof fn lemma_disjoint_pages(s: Seq<MemmapEntry>, i: int, j: int, p: int)
    requires
        0 <= i < s.len(),
        0 <= j < s.len(),
        s[i].usable,
        s[j].usable,
        region_end(s[i]) <= s[j].base || region_end(s[j]) <= s[i].base,
        page_in_usable(s, i, p),
    ensures
        !page_in_usable(s, j, p),
{
    if region_end(s[i]) <= s[j].base {
        lemma_div_page_mono(region_end(s[i]), s[j].base as int);
    } else {
        lemma_div_page_mono(region_end(s[j]), s[i].base as int);
    }
}

/// Adding region `i` to the first `i` regions covers exactly its page range more.
proof fn lemma_covered_step(s: Seq<MemmapEntry>, i: int, p: int)
    requires
        0 <= i < s.len(),
    ensures
        covered_by_first(s, i + 1, p) == (covered_by_first(s, i, p) || page_in_usable(s, i, p)),
{
    if covered_by_first(s, i + 1, p) && !covered_by_first(s, i, p) {
        let j = choose|j: int| 0 <= j < i + 1 && page_in_usable(s, j, p);
        assert(j == i);
    }
    if page_in_usable(s, i, p) {
        assert(0 <= i < i + 1 && page_in_usable(s, i, p));
    }
    if covered_by_first(s, i, p) {
        let j = choose|j: int| 0 <= j < i && page_in_usable(s, j, p);
        assert(0 <= j < i + 1 && page_in_usable(s, j, p));
    }
}

/// Each usable region contributes a non-negative number of pages, so a prefix of the
/// map never counts more pages than the whole map.
proof fn lemma_usable_pages_prefix(s: Seq<MemmapEntry>, k: int)
    requires
        0 <= k <= s.len(),
    ensures
        0 <= usable_pages(s.take(k)) <= usable_pages(s),
    decreases s.len(),
{
    if s.len() > 0 {
        let e = s.last();
        if e.usable {
            lemma_div_page_mono(e.base as int, region_end(e));
        }
        if k == s.len() {
            assert(s.take(k) =~= s);
            lemma_usable_pages_prefix(s.drop_last(), k - 1);
            assert(s.drop_last().take(k - 1) =~= s.drop_last());
        } else {
            lemma_usable_pages_prefix(s.drop_last(), k);
            assert(s.drop_last().take(k) =~= s.take(k));
        }
    } else {
        assert(s.take(k) =~= s);
    }
}

/// Counting the free pages of a page map that is free exactly on the covered pages
/// counts the covered pages.
proof fn lemma_free_in_covered(s: Seq<MemmapEntry>, v: Seq<bool>, a: int, b: int)
    requires
        0 <= a,
        b <= v.len(),
        forall|p: int| a <= p < b ==> v[p] == !covered(s, p),
    ensures
        free_in(v, a, b) == covered_pages_in(s, a, b),
    decreases b - a,
{
    if b > a {
        lemma_free_in_covered(s, v, a, b - 1);
    }
}

impl BitmapAllocator {
    /// Frees the pages `start..end`, counting each one in the free-page counter.
    fn free_range(&mut self, start: usize, end: usize)
        requires
            old(self).wf(),
            start <= end <= old(self)@.len(),
            old(self).free_pages + (end - start) <= usize::MAX,
        ensures
            final(self).wf(),
            final(self).total_pages == old(self).total_pages,
            final(self).bitmap_size == old(self).bitmap_size,
            final(self).bitmap_addr == old(self).bitmap_addr,
            final(self)@.len() == old(self)@.len(),
            forall|p: int| 0 <= p < final(self)@.len() ==> final(self)@[p] == (old(self)@[p] && !(start <= p < end)),
            final(self).free_pages == old(self).free_pages + (end - start),
            old(self).counts_exactly() && (forall|p: int| start <= p < end ==> old(self)@[p])
                ==> final(self).counts_exactly(),
    {
        let mut page = start;
        while page < end
            invariant
                self.wf(),
                self.total_pages == old(self).total_pages,
                self.bitmap_size == old(self).bitmap_size,
                self.bitmap_addr == old(self).bitmap_addr,
                start <= page <= end <= self@.len(),
                old(self).free_pages + (end - start) <= usize::MAX,
                self.free_pages == old(self).free_pages + (page - start),
                forall|p: int| 0 <= p < self@.len() ==> self@[p] == (old(self)@[p] && !(start <= p < page)),
                old(self).counts_exactly() && (forall|p: int| start <= p < end ==> old(self)@[p])
                    ==> self.counts_exactly(),
            decreases end - page,
        {
            let ghost before = self@;
            self.clear_bit(page);
            proof {
                lemma_count_free_update(before, page as int, false);
            }
            self.free_pages = self.free_pages + 1;
            page = page + 1;
        }
    }

    /// Marks the pages `start..end` as used, taking each one that was free off the
    /// free-page counter.
    fn reserve_range(&mut self, start: usize, end: usize)
        requires
            old(self).wf(),
            start <= end <= old(self)@.len(),
        ensures
            final(self).wf(),
            final(self).total_pages == old(self).total_pages,
            final(self).bitmap_size == old(self).bitmap_size,
            final(self).bitmap_addr == old(self).bitmap_addr,
            final(self)@.len() == old(self)@.len(),
            forall|p: int| 0 <= p < final(self)@.len() ==> final(self)@[p] == (old(self)@[p] || (start <= p < end)),
            final(self).free_pages == old(self).free_pages - free_in(old(self)@, start as int, end as int),
            old(self).counts_exactly() ==> final(self).counts_exactly(),
    {
        let mut page = start;
        while page < end
            invariant
                self.wf(),
                self.total_pages == old(self).total_pages,
                self.bitmap_size == old(self).bitmap_size,
                self.bitmap_addr == old(self).bitmap_addr,
                start <= page <= end <= self@.len(),
                forall|p: int| 0 <= p < self@.len() ==> self@[p] == (old(self)@[p] || (start <= p < page)),
                self.free_pages == old(self).free_pages - free_in(old(self)@, start as int, page as int),
                old(self).counts_exactly() ==> self.counts_exactly(),
            decreases end - page,
        {
            assert(free_in(old(self)@, start as int, page + 1) == free_in(old(self)@, start as int, page as int)
                + if old(self)@[page as int] { 0nat } else { 1nat });
            if !self.test_bit(page) {
                let ghost before = self@;
                self.set_bit(page);
                proof {
                    lemma_count_free_update(before, page as int, true);
                }
                self.free_pages = self.free_pages - 1;
            }
            page = page + 1;
        }
    }

    /// Builds the bitmap for a memory map: every page used, then the pages of the usable
    /// regions freed, then the pages that hold the bitmap itself used again.
    fn fill_bitmap(&mut self, entries: &[MemmapEntry], bitmap_phys: u64)
        requires
            old(self).total_pages == pages_for(entries@),
            old(self).bitmap_size == bitmap_bytes_for(old(self).total_pages as int),
            old(self).total_pages * PAGE_SIZE <= u64::MAX,
            old(self).free_pages == 0,
            forall|i: int|
                0 <= i < entries@.len() && entries@[i].usable ==> region_end(entries@[i]) <= u64::MAX,
            usable_pages(entries@) <= usize::MAX,
            bitmap_phys + old(self).bitmap_size + PAGE_SIZE <= u64::MAX,
            (bitmap_phys + old(self).bitmap_size + PAGE_SIZE - 1) / PAGE_SIZE as int <= old(self).total_pages,
        ensures
            final(self).wf(),
            final(self).total_pages == old(self).total_pages,
            final(self).bitmap_size == old(self).bitmap_size,
            final(self).bitmap_addr == old(self).bitmap_addr,
            forall|p: int|
                0 <= p < final(self)@.len() ==> final(self)@[p] == initially_used(
                    entries@,
                    bitmap_phys as int,
                    old(self).bitmap_size as int,
                    p,
                ),
            final(self).free_pages == usable_pages(entries@) - covered_pages_in(
                entries@,
                bitmap_phys as int / PAGE_SIZE as int,
                (bitmap_phys + old(self).bitmap_size + PAGE_SIZE - 1) / PAGE_SIZE as int,
            ),
            usable_disjoint(entries@) ==> final(self).counts_exactly(),
    {
        let ghost s = entries@;
        let size = self.bitmap_size;
        let total = self.total_pages;
        proof {
            lemma_max_usable_end(s);
        }
        // Mark every page as used.
        let mut bitmap: Vec<u8> = Vec::new();
        while bitmap.len() < size
            invariant
                bitmap@.len() <= size,
                forall|k: int| 0 <= k < bitmap@.len() ==> bitmap@[k] == 0xFFu8,
            decreases size - bitmap@.len(),
        {
            bitmap.push(0xFFu8);
        }
        self.bitmap = bitmap;
        proof {
            assert forall|p: int| 0 <= p < self@.len() implies self@[p] by {
                lemma_full_byte((p % 8) as u8);
            }
            lemma_count_free_bounds(self@);
            assert(s.take(0) =~= Seq::<MemmapEntry>::empty());
        }
        // Free the pages of the usable regions.
        let mut i: usize = 0;
        while i < entries.len()
            invariant
                self.wf(),
                self.total_pages == total,
                self.bitmap_size == size,
                size == old(self).bitmap_size,
                bitmap_phys + size + PAGE_SIZE <= u64::MAX,
                (bitmap_phys + size + PAGE_SIZE - 1) / PAGE_SIZE as int <= total,
                self.bitmap_addr == old(self).bitmap_addr,
                total == pages_for(s),
                s == entries@,
                i <= s.len(),
                forall|p: int| 0 <= p < self@.len() ==> self@[p] == !covered_by_first(s, i as int, p),
                self.free_pages == usable_pages(s.take(i as int)),
                usable_pages(s) <= usize::MAX,
                usable_disjoint(s) ==> self.counts_exactly(),
                forall|k: int| 0 <= k < s.len() && s[k].usable ==> region_end(s[k]) <= max_usable_end(s),
                forall|k: int| 0 <= k < s.len() && s[k].usable ==> region_end(s[k]) <= u64::MAX,
            decreases s.len() - i,
        {
            let entry = entries[i];
            proof {
                assert(s.take(i + 1).drop_last() =~= s.take(i as int));
                assert(s.take(i + 1).last() == entry);
                lemma_usable_pages_prefix(s, i + 1);
            }
            if entry.usable {
                let start_page = (entry.base / PAGE_SIZE) as usize;
                proof {
                    lemma_div_page_mono(region_end(entry), max_usable_end(s));
                    lemma_div_page_mono(entry.base as int, region_end(entry));
                }
                let end_page = ((entry.base + entry.length) / PAGE_SIZE) as usize;
                proof {
                    if usable_disjoint(s) {
                        assert forall|p: int| start_page <= p < end_page implies self@[p] by {
                            assert(page_in_usable(s, i as int, p));
                            if covered_by_first(s, i as int, p) {
                                let j = choose|j: int| 0 <= j < i && page_in_usable(s, j, p);
                                lemma_disjoint_pages(s, i as int, j, p);
                            }
                        }
                    }
                }
                self.free_range(start_page, end_page);
            }
            proof {
                assert forall|p: int| 0 <= p < self@.len() implies self@[p] == !covered_by_first(
                    s,
                    i + 1,
                    p,
                ) by {
                    lemma_covered_step(s, i as int, p);
                }
            }
            i = i + 1;
        }
        proof {
            assert(s.take(s.len() as int) =~= s);
        }
        // Keep the pages that hold the bitmap itself.
        let bitmap_end = bitmap_phys + size as u64;
        let start_page = (bitmap_phys / PAGE_SIZE) as usize;
        proof {
            lemma_div_page_mono(bitmap_phys as int, bitmap_end + PAGE_SIZE - 1);
        }
        let end_page = ((bitmap_end + PAGE_SIZE - 1) / PAGE_SIZE) as usize;
        let ghost before = self@;
        proof {
            lemma_free_in_covered(s, before, start_page as int, end_page as int);
        }
        self.reserve_range(start_page, end_page);
        assert(s.len() == entries@.len());
    }

    /// Sets the allocator up from the boot memory map: the bitmap goes in the first usable
    /// region that can hold it, and `hhdm_offset` maps its physical address to the
    /// address it is reached at. Every page of a usable region is counted as freed, so
    /// the free-page counter is exact when the usable regions do not overlap.
    pub fn init(&mut self, entries: &[MemmapEntry], hhdm_offset: u64)
        requires
            old(self).wf(),
            old(self).free_counter() == 0,
            memmap_ok(entries@, hhdm_offset),
        ensures
            final(self).wf(),
            final(self)@.len() == pages_for(entries@),
            final(self).bitmap_bytes() == bitmap_bytes_for(pages_for(entries@)),
            final(self).bitmap_address() == bitmap_location(entries@) + hhdm_offset,
            forall|p: int|
                0 <= p < final(self)@.len() ==> final(self)@[p] == initially_used(
                    entries@,
                    bitmap_location(entries@),
                    bitmap_bytes_for(pages_for(entries@)),
                    p,
                ),
            final(self).free_counter() == usable_pages(entries@) - covered_pages_in(
                entries@,
                bitmap_location(entries@) / PAGE_SIZE as int,
                (bitmap_location(entries@) + bitmap_bytes_for(pages_for(entries@)) + PAGE_SIZE - 1)
                    / PAGE_SIZE as int,
            ),
            usable_disjoint(entries@) ==> final(self).counts_exactly(),
            forall|i: int, p: int|
                0 <= i < entries@.len() && (#[trigger] entries@[i]).usable && entries@[i].base as int
                    / 4096 <= p < (entries@[i].base + entries@[i].length) / 4096 && !(bitmap_location(
                    entries@,
                ) / 4096 <= p < (bitmap_location(entries@) + bitmap_bytes_for(pages_for(entries@))
                    + 4095) / 4096) ==> p < final(self)@.len() && !#[trigger] final(self)@[p],
    {
        proof {
            law_usable_pages_managed(entries@);
        }
        proof {
            lemma_max_usable_end(entries@);
        }
        let (total_pages, bitmap_size) = Self::calc_bitmap_size(entries);
        let bitmap_phys = Self::find_bitmap_location(entries, bitmap_size).unwrap();
        self.total_pages = total_pages;
        self.bitmap_size = bitmap_size;
        self.bitmap_addr = bitmap_phys + hhdm_offset;
        self.fill_bitmap(entries, bitmap_phys);
        proof {
            law_init_frees_usable_regions(
                entries@,
                self@,
                bitmap_location(entries@),
                bitmap_bytes_for(pages_for(entries@)),
            );
        }
    }

    /// Address at which the bitmap is reached once `init` has run.
    pub closed spec fn bitmap_address(&self) -> int {
        self.bitmap_addr as int
    }
}

impl BitmapAllocator {
    /// Whether `init` can run on this memory map, that is whether `memmap_ok` holds.
    pub fn check_memmap(entries: &[MemmapEntry], hhdm_offset: u64) -> (r: bool)
        ensures
            r == memmap_ok(entries@, hhdm_offset),
    {
        let ghost s = entries@;
        let n = entries.len();
        // No usable region wraps around.
        let mut i: usize = 0;
        while i < n
            invariant
                n == s.len(),
                s == entries@,
                i <= n,
                forall|k: int| 0 <= k < i && s[k].usable ==> region_end(s[k]) <= u64::MAX,
            decreases n - i,
        {
            let e = entries[i];
            if e.usable && e.base.checked_add(e.length).is_none() {
                return false;
            }
            i = i + 1;
        }
        // The free-page counter does not overflow while the usable regions are freed.
        let mut sum: u64 = 0;
        let mut i: usize = 0;
        while i < n
            invariant
                n == s.len(),
                s == entries@,
                i <= n,
                sum == usable_pages(s.take(i as int)),
                sum <= usize::MAX,
                forall|k: int| 0 <= k < s.len() && s[k].usable ==> region_end(s[k]) <= u64::MAX,
            decreases n - i,
        {
            let e = entries[i];
            proof {
                assert(s.take(i + 1).drop_last() =~= s.take(i as int));
                assert(s.take(i + 1).last() == e);
                lemma_usable_pages_prefix(s, i + 1);
            }
            if e.usable {
                proof {
                    lemma_div_page_mono(e.base as int, region_end(e));
                }
                let c = (e.base + e.length) / PAGE_SIZE - e.base / PAGE_SIZE;
                if c > usize::MAX as u64 - sum {
                    return false;
                }
                sum = sum + c;
            }
            i = i + 1;
        }
        proof {
            assert(s.take(n as int) =~= s);
        }
        // The page count fits, with room for rounding up to whole bitmap bytes.
        let mut max_addr: u64 = 0;
        let mut i: usize = 0;
        while i < n
            invariant
                n == s.len(),
                s == entries@,
                i <= n,
                max_addr == max_usable_end(s.take(i as int)),
                forall|k: int| 0 <= k < s.len() && s[k].usable ==> region_end(s[k]) <= u64::MAX,
            decreases n - i,
        {
            let e = entries[i];
            assert(s.take(i + 1).drop_last() =~= s.take(i as int));
            assert(s.take(i + 1).last() == e);
            if e.usable && e.base + e.length > max_addr {
                max_addr = e.base + e.length;
            }
            i = i + 1;
        }
        assert(s.take(n as int) =~= s);
        let pages = max_addr / PAGE_SIZE;
        if pages > (usize::MAX - 7) as u64 {
            return false;
        }
        let (total_pages, bitmap_size) = Self::calc_bitmap_size(entries);
        // Some usable region holds the bitmap.
        let loc = match Self::find_bitmap_location(entries, bitmap_size) {
            Some(b) => b,
            None => {
                return false;
            },
        };
        // The bitmap's pages are managed pages, and its addresses fit in 64 bits.
        let end = match loc.checked_add(bitmap_size as u64) {
            Some(e) => e,
            None => {
                return false;
            },
        };
        if end > u64::MAX - PAGE_SIZE {
            return false;
        }
        if (end + PAGE_SIZE - 1) / PAGE_SIZE > total_pages as u64 {
            return false;
        }
        loc.checked_add(hhdm_offset).is_some()
    }
}

/// Whole MiB in `pages` pages of 4 KiB.
pub fn pages_to_mib(pages: usize) -> (r: usize)
    requires
        pages * 4 <= usize::MAX,
    ensures
        r == pages * 4 / 1024,
{
    pages * 4 / 1024
}

/// The page count for a memory map reaches the end page of every usable region, and no
/// further: it is 0 or the end page of some usable region.
pub proof fn law_pages_for_is_highest_end_page(entries: Seq<MemmapEntry>)
    ensures
        pages_for(entries) >= 0,
        forall|i: int|
            0 <= i < entries.len() && (#[trigger] entries[i]).usable ==> (entries[i].base
                + entries[i].length) / 4096 <= pages_for(entries),
        pages_for(entries) == 0 || exists|i: int|
            0 <= i < entries.len() && (#[trigger] entries[i]).usable && (entries[i].base
                + entries[i].length) / 4096 == pages_for(entries),
{
    law_usable_pages_managed(entries);
    lemma_max_usable_end(entries);
    if pages_for(entries) != 0 {
        let k = choose|k: int|
            0 <= k < entries.len() && entries[k].usable && region_end(entries[k]) == max_usable_end(entries);
        assert(entries[k].usable);
    }
}

/// The bitmap has one bit for each page, rounded up to whole bytes.
pub proof fn law_bitmap_bytes_cover_pages(pages: int)
    requires
        pages >= 0,
    ensures
        bitmap_bytes_for(pages) * 8 >= pages,
        bitmap_bytes_for(pages) * 8 < pages + 8,
{
}

/// A page map laid out as `init` leaves it frees every page of every usable region of
/// the memory map except the bitmap's own pages, and keeps every page outside the usable
/// regions used.
pub proof fn law_init_frees_usable_regions(entries: Seq<MemmapEntry>, v: Seq<bool>, loc: int, size: int)
    requires
        forall|p: int| 0 <= p < v.len() ==> v[p] == initially_used(entries, loc, size, p),
    ensures
        forall|i: int, p: int|
            0 <= i < entries.len() && (#[trigger] entries[i]).usable && entries[i].base as int / 4096
                <= p < (entries[i].base + entries[i].length) / 4096 && 0 <= p < v.len() && !(loc / 4096
                <= p < (loc + size + 4095) / 4096) ==> !#[trigger] v[p],
        forall|p: int|
            0 <= p < v.len() && (forall|i: int|
                0 <= i < entries.len() && (#[trigger] entries[i]).usable ==> !(entries[i].base as int
                    / 4096 <= p < (entries[i].base + entries[i].length) / 4096)) ==> #[trigger] v[p],
        forall|p: int|
            0 <= p < v.len() && loc / 4096 <= p < (loc + size + 4095) / 4096 ==> #[trigger] v[p],
{
    assert forall|i: int, p: int|
        0 <= i < entries.len() && (#[trigger] entries[i]).usable && entries[i].base as int / 4096
            <= p < (entries[i].base + entries[i].length) / 4096 && 0 <= p < v.len() && !(loc / 4096
            <= p < (loc + size + 4095) / 4096) implies !#[trigger] v[p] by {
        assert(page_in_usable(entries, i, p));
    }
    assert forall|p: int|
        0 <= p < v.len() && (forall|i: int|
            0 <= i < entries.len() && (#[trigger] entries[i]).usable ==> !(entries[i].base as int
                / 4096 <= p < (entries[i].base + entries[i].length) / 4096)) implies #[trigger] v[p] by {
        if covered(entries, p) {
            let i = choose|i: int| 0 <= i < entries.len() && page_in_usable(entries, i, p);
            assert(entries[i].usable);
        }
    }
}

/// Every page of a usable region lies below the number of pages the allocator manages.
pub proof fn law_usable_pages_managed(entries: Seq<MemmapEntry>)
    ensures
        forall|i: int|
            0 <= i < entries.len() && (#[trigger] entries[i]).usable ==> (entries[i].base
                + entries[i].length) / 4096 <= pages_for(entries),
{
    lemma_max_usable_end(entries);
    assert forall|i: int| 0 <= i < entries.len() && (#[trigger] entries[i]).usable implies (
    entries[i].base + entries[i].length) / 4096 <= pages_for(entries) by {
        lemma_div_page_mono(region_end(entries[i]), max_usable_end(entries));
    }
}

/// Right after `init`, a frame handed out lies in a usable region of the memory map and
/// does not hold the bitmap.
pub proof fn law_init_hands_out_usable_frames(
    entries: Seq<MemmapEntry>,
    s0: Seq<bool>,
    s1: Seq<bool>,
    addr: u64,
)
    requires
        forall|p: int|
            0 <= p < s0.len() ==> s0[p] == initially_used(
                entries,
                bitmap_location(entries),
                bitmap_bytes_for(pages_for(entries)),
                p,
            ),
        alloc_frame_post(s0, s1, Some(addr)),
    ensures
        covered(entries, (addr / PAGE_SIZE) as int),
        !in_bitmap_pages(
            bitmap_location(entries),
            bitmap_bytes_for(pages_for(entries)),
            (addr / PAGE_SIZE) as int,
        ),
{
}

/// The kernel's single frame allocator, used from one thread before other cores start.
pub struct AllocatorCell {
    inner: BitmapAllocator,
}

impl View for AllocatorCell {
    type V = Seq<bool>;

    closed spec fn view(&self) -> Seq<bool> {
        self.inner@
    }
}

impl AllocatorCell {
    /// Well-formedness of the allocator inside.
    pub closed spec fn wf(&self) -> bool {
        self.inner.wf()
    }

    /// Address at which the bitmap of the allocator inside is reached.
    pub closed spec fn bitmap_address(&self) -> int {
        self.inner.bitmap_address()
    }

    /// Number of bytes in the bitmap of the allocator inside.
    pub closed spec fn bitmap_bytes(&self) -> nat {
        self.inner.bitmap_bytes()
    }

    /// The free-page counter of the allocator inside.
    pub closed spec fn free_counter(&self) -> nat {
        self.inner.free_counter()
    }

    /// The free-page counter equals the number of free pages.
    pub open spec fn counts_exactly(&self) -> bool {
        self.free_counter() == count_free(self@)
    }

    /// A cell holding an allocator that manages no memory yet.
    pub fn new() -> (r: Self)
        ensures
            r.wf(),
            r.counts_exactly(),
            r.free_counter() == 0,
            r@.len() == 0,
    {
        Self { inner: BitmapAllocator::new() }
    }

    /// See [`BitmapAllocator::init`].
    pub fn init(&mut self, entries: &[MemmapEntry], hhdm_offset: u64)
        requires
            old(self).wf(),
            old(self).free_counter() == 0,
            memmap_ok(entries@, hhdm_offset),
        ensures
            final(self).wf(),
            final(self)@.len() == pages_for(entries@),
            final(self).bitmap_bytes() == bitmap_bytes_for(pages_for(entries@)),
            final(self).bitmap_address() == bitmap_location(entries@) + hhdm_offset,
            forall|p: int|
                0 <= p < final(self)@.len() ==> final(self)@[p] == initially_used(
                    entries@,
                    bitmap_location(entries@),
                    bitmap_bytes_for(pages_for(entries@)),
                    p,
                ),
            final(self).free_counter() == usable_pages(entries@) - covered_pages_in(
                entries@,
                bitmap_location(entries@) / PAGE_SIZE as int,
                (bitmap_location(entries@) + bitmap_bytes_for(pages_for(entries@)) + PAGE_SIZE - 1)
                    / PAGE_SIZE as int,
            ),
            usable_disjoint(entries@) ==> final(self).counts_exactly(),
            forall|i: int, p: int|
                0 <= i < entries@.len() && (#[trigger] entries@[i]).usable && entries@[i].base as int
                    / 4096 <= p < (entries@[i].base + entries@[i].length) / 4096 && !(bitmap_location(
                    entries@,
                ) / 4096 <= p < (bitmap_location(entries@) + bitmap_bytes_for(pages_for(entries@))
                    + 4095) / 4096) ==> p < final(self)@.len() && !#[trigger] final(self)@[p],
    {
        proof {
            law_usable_pages_managed(entries@);
        }
        self.inner.init(entries, hhdm_offset);
    }

    /// See [`BitmapAllocator::alloc_frame`].
    pub fn alloc_frame(&mut self) -> (r: Option<u64>)
        requires
            old(self).wf(),
        ensures
            final(self).wf(),
            alloc_frame_post(old(self)@, final(self)@, r),
            final(self).free_counter() == if r is Some {
                old(self).free_counter() - 1
            } else {
                old(self).free_counter() as int
            },
            old(self).counts_exactly() ==> final(self).counts_exactly(),
    {
        self.inner.alloc_frame()
    }

    /// See [`BitmapAllocator::free_frame`].
    pub fn free_frame(&mut self, addr: u64)
        requires
            old(self).wf(),
            addr / PAGE_SIZE < old(self)@.len(),
            old(self)@[(addr / PAGE_SIZE) as int],
            old(self).free_counter() < usize::MAX,
        ensures
            final(self).wf(),
            free_frame_post(old(self)@, final(self)@, addr),
            final(self).free_counter() == old(self).free_counter() + 1,
            old(self).counts_exactly() ==> final(self).counts_exactly(),
    {
        self.inner.free_frame(addr)
    }

    /// See [`BitmapAllocator::free_pages`].
    pub fn free_pages(&self) -> (r: usize)
        requires
            self.wf(),
        ensures
            r == self.free_counter(),
            self.counts_exactly() ==> r == count_free(self@),
    {
        self.inner.free_pages()
    }

    /// See [`BitmapAllocator::is_used`].
    pub fn is_used(&self, page: usize) -> (r: bool)
        requires
            self.wf(),
            page < self@.len(),
        ensures
            r == self@[page as int],
    {
        self.inner.is_used(page)
    }

    /// See [`BitmapAllocator::total_pages`].
    pub fn total_pages(&self) -> (r: usize)
        requires
            self.wf(),
        ensures
            r == self@.len(),
    {
        self.inner.total_pages()
    }
}

} // verus!
