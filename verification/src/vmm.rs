//! Four-level x86_64 page tables: entries, tables, and the walk that maps a page.
use vstd::prelude::*;
use crate::allocator::{AllocatorCell, PAGE_SIZE, count_free, alloc_frame_post, lemma_count_free_bounds, lemma_count_free_update};

pub mod flags;

verus! {

/// Bits 12..=51 of an entry: the physical address it points to.
pub const ADDR_MASK: u64 = 0x000F_FFFF_FFFF_F000;

/// One entry of a page table at any level.
#[derive(Clone, Copy)]
pub struct PageEntry(pub u64);

/// The entry has its present bit set.
pub open spec fn present(e: PageEntry) -> bool {
    e.0 & flags::PRESENT != 0
}

/// The physical address an entry points to.
pub open spec fn entry_addr(e: PageEntry) -> u64 {
    e.0 & ADDR_MASK
}

/// The raw bits of an entry made from `phys` and `flags`.
pub open spec fn entry_bits(phys: u64, flags: u64) -> u64 {
    (phys & ADDR_MASK) | flags
}

impl PageEntry {
    /// An entry with no bit set.
    pub fn empty() -> (r: Self)
        ensures
            r.0 == 0,
    {
        Self(0)
    }

    /// Whether the present bit is set.
    pub fn is_present(&self) -> (r: bool)
        ensures
            r == present(*self),
    {
        self.0 & flags::PRESENT != 0
    }

    /// Physical address of the next table or of the page.
    pub fn phys_addr(&self) -> (r: u64)
        ensures
            r == entry_addr(*self),
    {
        self.0 & ADDR_MASK
    }

    /// An entry pointing to `phys` with `flags`.
    pub fn new(phys: u64, flags: u64) -> (r: Self)
        ensures
            r.0 == entry_bits(phys, flags),
            r.0 & !ADDR_MASK == flags & !ADDR_MASK,
            flags & ADDR_MASK == 0 ==> r.0 & ADDR_MASK == phys & ADDR_MASK,
    {
        proof {
            law_entry_keeps_bits(phys, flags);
        }
        Self((phys & ADDR_MASK) | flags)
    }
}

/// An entry keeps every flag bit it is given outside the address bits, and, when the
/// flags leave the address bits clear, the address bits of `phys`.
pub proof fn law_entry_keeps_bits(phys: u64, flags: u64)
    ensures
        entry_bits(phys, flags) & !ADDR_MASK == flags & !ADDR_MASK,
        flags & ADDR_MASK == 0 ==> entry_bits(phys, flags) & ADDR_MASK == phys & ADDR_MASK,
        flags & ADDR_MASK == 0 ==> entry_bits(phys, flags) & !ADDR_MASK == flags,
{
    let m: u64 = 0x000F_FFFF_FFFF_F000;
    assert(((phys & m) | flags) & !m == flags & !m) by (bit_vector)
        requires
            m == 0x000F_FFFF_FFFF_F000u64,
    ;
    assert(flags & m == 0 ==> ((phys & m) | flags) & m == phys & m) by (bit_vector)
        requires
            m == 0x000F_FFFF_FFFF_F000u64,
    ;
    assert(flags & m == 0 ==> flags & !m == flags) by (bit_vector);
}

/// An entry made with flags outside the address bits points to the address's bits
/// 12..=51 and is present exactly when the flags say so.
pub proof fn law_entry_roundtrip(phys: u64, flags: u64)
    requires
        flags & ADDR_MASK == 0,
    ensures
        entry_addr(PageEntry(entry_bits(phys, flags))) == phys & ADDR_MASK,
        present(PageEntry(entry_bits(phys, flags))) == (flags & flags::PRESENT != 0),
{
    assert(((phys & 0x000F_FFFF_FFFF_F000u64) | flags) & 0x000F_FFFF_FFFF_F000u64 == phys
        & 0x000F_FFFF_FFFF_F000u64) by (bit_vector)
        requires
            flags & 0x000F_FFFF_FFFF_F000u64 == 0,
    ;
    assert((((phys & 0x000F_FFFF_FFFF_F000u64) | flags) & 1u64 != 0) == (flags & 1u64 != 0))
        by (bit_vector);
}

/// A page-aligned address below 2^52 passes through an entry unchanged.
pub proof fn law_aligned_addr_kept(phys: u64)
    requires
        phys % 4096 == 0,
        phys < 0x10_0000_0000_0000,
    ensures
        phys & ADDR_MASK == phys,
{
    assert(phys & 0x000F_FFFF_FFFF_F000u64 == phys) by (bit_vector)
        requires
            phys % 4096 == 0,
            phys < 0x10_0000_0000_0000u64,
    ;
}

/// One page table: 512 entries.
#[derive(Clone, Copy)]
pub struct PageTable {
    pub entries: [PageEntry; 512],
}

impl PageTable {
    /// A table with every entry empty.
    pub fn empty() -> (r: Self)
        ensures
            forall|i: int| 0 <= i < 512 ==> (#[trigger] r.entries@[i]).0 == 0,
    {
        Self { entries: [PageEntry(0); 512] }
    }
}

/// Index into the PML4 of a virtual address: bits 39..=47.
pub open spec fn pml4_idx(virt: u64) -> u64 {
    (virt >> 39u64) & 0x1FF
}

/// Index into the page-directory-pointer table: bits 30..=38.
pub open spec fn pdpt_idx(virt: u64) -> u64 {
    (virt >> 30u64) & 0x1FF
}

/// Index into the page directory: bits 21..=29.
pub open spec fn pd_idx(virt: u64) -> u64 {
    (virt >> 21u64) & 0x1FF
}

/// Index into the page table: bits 12..=20.
pub open spec fn pt_idx(virt: u64) -> u64 {
    (virt >> 12u64) & 0x1FF
}

/// Index into the PML4 of a virtual address.
pub fn pml4_index(virt: u64) -> (r: usize)
    ensures
        r == pml4_idx(virt),
        r < 512,
{
    assert((virt >> 39u64) & 0x1FF < 512) by (bit_vector);
    ((virt >> 39u64) & 0x1FF) as usize
}

/// Index into the page-directory-pointer table of a virtual address.
pub fn pdpt_index(virt: u64) -> (r: usize)
    ensures
        r == pdpt_idx(virt),
        r < 512,
{
    assert((virt >> 30u64) & 0x1FF < 512) by (bit_vector);
    ((virt >> 30u64) & 0x1FF) as usize
}

/// Index into the page directory of a virtual address.
pub fn pd_index(virt: u64) -> (r: usize)
    ensures
        r == pd_idx(virt),
        r < 512,
{
    assert((virt >> 21u64) & 0x1FF < 512) by (bit_vector);
    ((virt >> 21u64) & 0x1FF) as usize
}

/// Index into the page table of a virtual address.
pub fn pt_index(virt: u64) -> (r: usize)
    ensures
        r == pt_idx(virt),
        r < 512,
{
    assert((virt >> 12u64) & 0x1FF < 512) by (bit_vector);
    ((virt >> 12u64) & 0x1FF) as usize
}

/// The four indices and the offset in the page make up the low 48 bits of the address.
pub proof fn law_indices_rebuild_address(virt: u64)
    ensures
        (pml4_idx(virt) << 39u64) | (pdpt_idx(virt) << 30u64) | (pd_idx(virt) << 21u64) | (pt_idx(virt)
            << 12u64) | (virt & 0xFFF) == virt & 0xFFFF_FFFF_FFFF,
{
    assert(((((virt >> 39u64) & 0x1FF) << 39u64) | (((virt >> 30u64) & 0x1FF) << 30u64) | (((virt
        >> 21u64) & 0x1FF) << 21u64) | (((virt >> 12u64) & 0x1FF) << 12u64) | (virt & 0xFFF))
        == virt & 0xFFFF_FFFF_FFFF) by (bit_vector);
}


/// One past the highest physical address: x86_64 physical addresses have 52 bits.
pub const PHYS_LIMIT: u64 = 0x10_0000_0000_0000;

/// Every entry of the table is zero.
pub open spec fn is_empty_table(t: PageTable) -> bool {
    forall|i: int| 0 <= i < 512 ==> (#[trigger] t.entries@[i]).0 == 0
}

/// The frame number of a physical address.
pub open spec fn frame_of(addr: u64) -> int {
    (addr / PAGE_SIZE) as int
}

/// Entry `index` of the table at physical address `table`.
pub open spec fn entry_in(mem: Seq<PageTable>, table: u64, index: u64) -> PageEntry {
    mem[frame_of(table)].entries@[index as int]
}

/// The PML4 that CR3 points to.
pub open spec fn pml4_table(cr3: u64) -> u64 {
    cr3 & ADDR_MASK
}

/// The PML4 entry that translates `virt`.
pub open spec fn pml4_entry(mem: Seq<PageTable>, cr3: u64, virt: u64) -> PageEntry {
    entry_in(mem, pml4_table(cr3), pml4_idx(virt))
}

/// The page-directory-pointer table on the walk for `virt`.
pub open spec fn pdpt_table(mem: Seq<PageTable>, cr3: u64, virt: u64) -> u64 {
    entry_addr(pml4_entry(mem, cr3, virt))
}

/// The page-directory-pointer entry that translates `virt`.
pub open spec fn pdpt_entry(mem: Seq<PageTable>, cr3: u64, virt: u64) -> PageEntry {
    entry_in(mem, pdpt_table(mem, cr3, virt), pdpt_idx(virt))
}

/// The page directory on the walk for `virt`.
pub open spec fn pd_table(mem: Seq<PageTable>, cr3: u64, virt: u64) -> u64 {
    entry_addr(pdpt_entry(mem, cr3, virt))
}

/// The page-directory entry that translates `virt`.
pub open spec fn pd_entry(mem: Seq<PageTable>, cr3: u64, virt: u64) -> PageEntry {
    entry_in(mem, pd_table(mem, cr3, virt), pd_idx(virt))
}

/// The page table on the walk for `virt`.
pub open spec fn pt_table(mem: Seq<PageTable>, cr3: u64, virt: u64) -> u64 {
    entry_addr(pd_entry(mem, cr3, virt))
}

/// The page-table entry that maps `virt`, once the three tables above it are present.
pub open spec fn leaf_entry(mem: Seq<PageTable>, cr3: u64, virt: u64) -> Option<PageEntry> {
    if present(pml4_entry(mem, cr3, virt)) && present(pdpt_entry(mem, cr3, virt)) && present(
        pd_entry(mem, cr3, virt),
    ) {
        Some(entry_in(mem, pt_table(mem, cr3, virt), pt_idx(virt)))
    } else {
        None
    }
}

/// How many tables are missing on the walk for `virt`.
pub open spec fn tables_missing(mem: Seq<PageTable>, cr3: u64, virt: u64) -> nat {
    if !present(pml4_entry(mem, cr3, virt)) {
        3
    } else if !present(pdpt_entry(mem, cr3, virt)) {
        2
    } else if !present(pd_entry(mem, cr3, virt)) {
        1
    } else {
        0
    }
}

/// The table at `table` lies in memory.
pub open spec fn in_mem(mem: Seq<PageTable>, table: u64) -> bool {
    frame_of(table) < mem.len()
}

/// The frame of `table` can never be handed out by an allocator whose page map is `pages`.
pub open spec fn reserved(pages: Seq<bool>, table: u64) -> bool {
    frame_of(table) >= pages.len() || pages[frame_of(table)]
}

/// Entry `i` of table `t` and entry `j` of table `u` are different slots.
pub open spec fn other_slot(t: u64, i: u64, u: u64, j: u64) -> bool {
    frame_of(t) != frame_of(u) || i != j
}

/// The conditions under which `map_page` maps `virt`: the tables already on the walk lie
/// in memory, are never handed out by the allocator, and hold the entries of the walk in
/// different slots; and the allocator has a free frame for each missing table.
pub open spec fn map_page_ok(mem: Seq<PageTable>, pages: Seq<bool>, cr3: u64, virt: u64) -> bool {
    let t4 = pml4_table(cr3);
    let t3 = pdpt_table(mem, cr3, virt);
    let t2 = pd_table(mem, cr3, virt);
    let t1 = pt_table(mem, cr3, virt);
    let (i4, i3, i2, i1) = (pml4_idx(virt), pdpt_idx(virt), pd_idx(virt), pt_idx(virt));
    &&& pages.len() <= mem.len()
    &&& in_mem(mem, t4) && reserved(pages, t4)
    &&& present(pml4_entry(mem, cr3, virt)) ==> in_mem(mem, t3) && reserved(pages, t3) && other_slot(
        t3,
        i3,
        t4,
        i4,
    )
    &&& present(pml4_entry(mem, cr3, virt)) && present(pdpt_entry(mem, cr3, virt)) ==> in_mem(mem, t2)
        && reserved(pages, t2) && other_slot(t2, i2, t4, i4) && other_slot(t2, i2, t3, i3)
    &&& present(pml4_entry(mem, cr3, virt)) && present(pdpt_entry(mem, cr3, virt)) && present(
        pd_entry(mem, cr3, virt),
    ) ==> in_mem(mem, t1) && reserved(pages, t1) && other_slot(t1, i1, t4, i4) && other_slot(
        t1,
        i1,
        t3,
        i3,
    ) && other_slot(t1, i1, t2, i2)
    &&& tables_missing(mem, cr3, virt) <= count_free(pages)
}

/// Frame `f` can never be handed out by an allocator whose page map is `pages`.
pub open spec fn frame_reserved(pages: Seq<bool>, f: int) -> bool {
    f >= pages.len() || pages[f]
}

/// Entry `k` of frame `f` is one of the four entries of the walk for `virt`.
pub open spec fn on_walk(mem: Seq<PageTable>, cr3: u64, virt: u64, f: int, k: int) -> bool {
    ||| f == frame_of(pml4_table(cr3)) && k == pml4_idx(virt)
    ||| f == frame_of(pdpt_table(mem, cr3, virt)) && k == pdpt_idx(virt)
    ||| f == frame_of(pd_table(mem, cr3, virt)) && k == pd_idx(virt)
    ||| f == frame_of(pt_table(mem, cr3, virt)) && k == pt_idx(virt)
}

/// Frame `f` holds one of the three tables below the PML4 on the walk for `virt`.
pub open spec fn walk_table_frame(mem: Seq<PageTable>, cr3: u64, virt: u64, f: int) -> bool {
    f == frame_of(pdpt_table(mem, cr3, virt)) || f == frame_of(pd_table(mem, cr3, virt)) || f
        == frame_of(pt_table(mem, cr3, virt))
}

/// What `map_page` does, from memory `m0` and allocator pages `a0` to `m1` and `a1`:
/// `virt` now maps to `phys` with `page_flags`; one frame was taken for each missing
/// table, and only for those, each the lowest free one; each table made is empty but for the entry of the walk,
/// and the entry above it points to it, present and writable; the entries of the walk
/// that were present stay as they were; no entry of a frame that the allocator could
/// not hand out changed but the four entries of the walk; every other frame is
/// unchanged; and mapping `virt` again needs no new table.
pub open spec fn map_page_post(
    m0: Seq<PageTable>,
    a0: Seq<bool>,
    m1: Seq<PageTable>,
    a1: Seq<bool>,
    cr3: u64,
    virt: u64,
    phys: u64,
    page_flags: u64,
) -> bool {
    &&& m1.len() == m0.len()
    &&& a1.len() == a0.len()
    &&& leaf_entry(m1, cr3, virt) == Some(PageEntry(entry_bits(phys, page_flags)))
    &&& count_free(a1) + tables_missing(m0, cr3, virt) == count_free(a0)
    &&& forall|f: int| 0 <= f < a0.len() && a0[f] ==> a1[f]
    &&& forall|f: int| 0 <= f < a0.len() && !a0[f] && a1[f] ==> walk_table_frame(m1, cr3, virt, f)
    &&& forall|f: int, g: int|
        0 <= g < f < a0.len() && !a0[f] && (#[trigger] a1[f]) && !a0[g] ==> #[trigger] a1[g]
    &&& forall|f: int, k: int|
        0 <= f < m0.len() && 0 <= k < 512 && frame_reserved(a0, f) && !on_walk(m1, cr3, virt, f, k)
            ==> (#[trigger] m1[f].entries@[k]) == m0[f].entries@[k]
    &&& forall|f: int|
        0 <= f < m0.len() && f != frame_of(pml4_table(cr3)) && !walk_table_frame(m1, cr3, virt, f)
            ==> m1[f] == m0[f]
    &&& forall|f: int, k: int|
        0 <= f < a0.len() && !a0[f] && a1[f] && 0 <= k < 512 && !on_walk(m1, cr3, virt, f, k)
            ==> (#[trigger] m1[f].entries@[k]).0 == 0
    &&& pml4_entry(m1, cr3, virt) == if present(pml4_entry(m0, cr3, virt)) {
        pml4_entry(m0, cr3, virt)
    } else {
        PageEntry(entry_bits(pdpt_table(m1, cr3, virt), flags::PRESENT | flags::WRITABLE))
    }
    &&& present(pml4_entry(m0, cr3, virt)) ==> pdpt_entry(m1, cr3, virt) == if present(
        pdpt_entry(m0, cr3, virt),
    ) {
        pdpt_entry(m0, cr3, virt)
    } else {
        PageEntry(entry_bits(pd_table(m1, cr3, virt), flags::PRESENT | flags::WRITABLE))
    }
    &&& present(pml4_entry(m0, cr3, virt)) && present(pdpt_entry(m0, cr3, virt)) ==> pd_entry(
        m1,
        cr3,
        virt,
    ) == if present(pd_entry(m0, cr3, virt)) {
        pd_entry(m0, cr3, virt)
    } else {
        PageEntry(entry_bits(pt_table(m1, cr3, virt), flags::PRESENT | flags::WRITABLE))
    }
    &&& !present(pml4_entry(m0, cr3, virt)) ==> pdpt_entry(m1, cr3, virt) == PageEntry(
        entry_bits(pd_table(m1, cr3, virt), flags::PRESENT | flags::WRITABLE),
    ) && pd_entry(m1, cr3, virt) == PageEntry(
        entry_bits(pt_table(m1, cr3, virt), flags::PRESENT | flags::WRITABLE),
    )
    &&& present(pml4_entry(m0, cr3, virt)) && !present(pdpt_entry(m0, cr3, virt)) ==> pd_entry(
        m1,
        cr3,
        virt,
    ) == PageEntry(entry_bits(pt_table(m1, cr3, virt), flags::PRESENT | flags::WRITABLE))
    &&& map_page_ok(m1, a1, cr3, virt)
    &&& tables_missing(m1, cr3, virt) == 0
}

/// Physical memory that holds page tables: frame `f`, at physical address
/// `f * PAGE_SIZE`, read as a table.
pub struct TableMemory {
    frames: Vec<PageTable>,
}

impl View for TableMemory {
    type V = Seq<PageTable>;

    closed spec fn view(&self) -> Seq<PageTable> {
        self.frames@
    }
}

impl TableMemory {
    /// Every frame lies below the physical address limit.
    pub open spec fn wf(&self) -> bool {
        self@.len() * PAGE_SIZE <= PHYS_LIMIT
    }

    /// `frames` frames, all holding empty tables.
    pub fn new(frames: usize) -> (r: Self)
        requires
            frames * PAGE_SIZE <= PHYS_LIMIT,
        ensures
            r.wf(),
            r@.len() == frames,
            forall|f: int| 0 <= f < frames ==> is_empty_table(#[trigger] r@[f]),
    {
        let mut v: Vec<PageTable> = Vec::new();
        while v.len() < frames
            invariant
                v@.len() <= frames,
                forall|f: int| 0 <= f < v@.len() ==> is_empty_table(#[trigger] v@[f]),
            decreases frames - v@.len(),
        {
            v.push(PageTable::empty());
        }
        Self { frames: v }
    }

    /// The table at physical address `table`.
    pub fn table(&self, table: u64) -> (r: PageTable)
        requires
            in_mem(self@, table),
        ensures
            r == self@[frame_of(table)],
    {
        assert(self.frames@.len() == self.frames.len());
        self.frames[(table / PAGE_SIZE) as usize]
    }

    /// Puts `t` in the frame of `table`: the table read from the hardware page tables.
    pub fn set_table(&mut self, table: u64, t: PageTable)
        requires
            in_mem(old(self)@, table),
        ensures
            final(self).wf() == old(self).wf(),
            final(self)@ == old(self)@.update(frame_of(table), t),
    {
        assert(self.frames@.len() == self.frames.len());
        self.frames.set((table / PAGE_SIZE) as usize, t);
    }

    /// Overwrites the table at `table` with zeros.
    fn zero_table(&mut self, table: u64)
        requires
            in_mem(old(self)@, table),
        ensures
            final(self)@.len() == old(self)@.len(),
            is_empty_table(final(self)@[frame_of(table)]),
            forall|f: int| 0 <= f < old(self)@.len() && f != frame_of(table) ==> final(self)@[f] == old(self)@[f],
    {
        assert(self.frames@.len() == self.frames.len());
        self.frames.set((table / PAGE_SIZE) as usize, PageTable::empty());
    }

    /// Writes entry `index` of the table at `table`.
    fn write_entry(&mut self, table: u64, index: usize, e: PageEntry)
        requires
            in_mem(old(self)@, table),
            index < 512,
        ensures
            final(self)@.len() == old(self)@.len(),
            final(self)@[frame_of(table)].entries@ == old(self)@[frame_of(table)].entries@.update(index as int, e),
            forall|f: int| 0 <= f < old(self)@.len() && f != frame_of(table) ==> final(self)@[f] == old(self)@[f],
    {
        assert(self.frames@.len() == self.frames.len());
        let f = (table / PAGE_SIZE) as usize;
        let mut t = self.frames[f];
        t.entries[index] = e;
        self.frames.set(f, t);
    }
}

/// A frame handed out by the allocator, read as the address of a table: page aligned and
/// below the physical address limit, so that an entry pointing to it keeps it.
proof fn lemma_table_entry(next: u64)
    requires
        next % PAGE_SIZE == 0,
        next < PHYS_LIMIT,
    ensures
        entry_addr(PageEntry(entry_bits(next, flags::PRESENT | flags::WRITABLE))) == next,
        present(PageEntry(entry_bits(next, flags::PRESENT | flags::WRITABLE))),
        frame_of(next) * PAGE_SIZE == next,
{
    assert(flags::PRESENT | flags::WRITABLE == 3) by (bit_vector);
    assert(3u64 & ADDR_MASK == 0) by (bit_vector);
    assert(3u64 & flags::PRESENT != 0) by (bit_vector);
    law_aligned_addr_kept(next);
    law_entry_roundtrip(next, 3);
}

/// A zero entry is not present.
proof fn lemma_zero_entry(e: PageEntry)
    requires
        e.0 == 0,
    ensures
        !present(e),
{
    assert(0u64 & 1u64 == 0) by (bit_vector);
}

/// Follows entry `index` of the table at `table` to the next table, first making that
/// table from a fresh zeroed frame when the entry is not present.
fn get_or_create(mem: &mut TableMemory, alloc: &mut AllocatorCell, table: u64, index: usize) -> (next: u64)
    requires
        old(mem).wf(),
        old(alloc).wf(),
        old(alloc)@.len() <= old(mem)@.len(),
        in_mem(old(mem)@, table),
        reserved(old(alloc)@, table),
        index < 512,
        present(entry_in(old(mem)@, table, index as u64)) ==> in_mem(
            old(mem)@,
            entry_addr(entry_in(old(mem)@, table, index as u64)),
        ),
        !present(entry_in(old(mem)@, table, index as u64)) ==> count_free(old(alloc)@) >= 1,
    ensures
        final(mem).wf(),
        final(alloc).wf(),
        final(mem)@.len() == old(mem)@.len(),
        final(alloc)@.len() == old(alloc)@.len(),
        in_mem(final(mem)@, next),
        present(entry_in(old(mem)@, table, index as u64)) ==> {
            &&& next == entry_addr(entry_in(old(mem)@, table, index as u64))
            &&& final(mem)@ == old(mem)@
            &&& final(alloc)@ == old(alloc)@
        },
        !present(entry_in(old(mem)@, table, index as u64)) ==> {
            &&& frame_of(next) < old(alloc)@.len()
            &&& !old(alloc)@[frame_of(next)]
            &&& alloc_frame_post(old(alloc)@, final(alloc)@, Some(next))
            &&& count_free(final(alloc)@) + 1 == count_free(old(alloc)@)
            &&& is_empty_table(final(mem)@[frame_of(next)])
            &&& final(mem)@[frame_of(table)].entries@ == old(mem)@[frame_of(table)].entries@.update(
                index as int,
                PageEntry(entry_bits(next, flags::PRESENT | flags::WRITABLE)),
            )
            &&& forall|f: int|
                0 <= f < old(mem)@.len() && f != frame_of(table) && f != frame_of(next)
                    ==> final(mem)@[f] == old(mem)@[f]
            &&& entry_addr(PageEntry(entry_bits(next, flags::PRESENT | flags::WRITABLE))) == next
            &&& present(PageEntry(entry_bits(next, flags::PRESENT | flags::WRITABLE)))
        },
{
    let entry = mem.table(table).entries[index];
    if entry.is_present() {
        entry.phys_addr()
    } else {
        let ghost before = alloc@;
        proof {
            lemma_count_free_bounds(before);
        }
        let frame = alloc.alloc_frame();
        let phys = frame.unwrap();
        proof {
            lemma_count_free_update(before, frame_of(phys), true);
            lemma_table_entry(phys);
        }
        mem.zero_table(phys);
        mem.write_entry(table, index, PageEntry::new(phys, flags::PRESENT | flags::WRITABLE));
        phys
    }
}

/// Maps the page at `virt` to the frame at `phys` with `page_flags`, walking the tables
/// from the PML4 that `cr3` points to and making each missing table from a frame of
/// `alloc`.
pub fn map_page(
    mem: &mut TableMemory,
    alloc: &mut AllocatorCell,
    cr3: u64,
    virt: u64,
    phys: u64,
    page_flags: u64,
)
    requires
        old(mem).wf(),
        old(alloc).wf(),
        map_page_ok(old(mem)@, old(alloc)@, cr3, virt),
    ensures
        final(mem).wf(),
        final(alloc).wf(),
        map_page_post(old(mem)@, old(alloc)@, final(mem)@, final(alloc)@, cr3, virt, phys, page_flags),
{
    let ghost m0 = mem@;
    let i4 = pml4_index(virt);
    let i3 = pdpt_index(virt);
    let i2 = pd_index(virt);
    let i1 = pt_index(virt);
    let pml4 = cr3 & ADDR_MASK;
    let ghost p4 = present(pml4_entry(m0, cr3, virt));
    let ghost p3 = p4 && present(pdpt_entry(m0, cr3, virt));
    let ghost p2 = p3 && present(pd_entry(m0, cr3, virt));

    let pdpt = get_or_create(mem, alloc, pml4, i4);
    let ghost m1 = mem@;
    let ghost a1 = alloc@;
    proof {
        if p4 {
            assert(pdpt == pdpt_table(m0, cr3, virt));
        } else {
            assert(frame_of(pdpt) != frame_of(pml4));
            assert(is_empty_table(m1[frame_of(pdpt)]));
            lemma_zero_entry(m1[frame_of(pdpt)].entries@[i3 as int]);
            lemma_count_free_bounds(a1);
        }
        assert(entry_in(m1, pml4, i4 as u64) == PageEntry(entry_bits(pdpt, flags::PRESENT | flags::WRITABLE))
            || p4);
        assert(reserved(a1, pdpt));
        assert(reserved(a1, pml4));
    }

    let pd = get_or_create(mem, alloc, pdpt, i3);
    let ghost m2 = mem@;
    let ghost a2 = alloc@;
    proof {
        if p3 {
            assert(pd == pd_table(m0, cr3, virt));
            assert(m2 == m0);
        } else {
            assert(frame_of(pd) != frame_of(pml4));
            assert(frame_of(pd) != frame_of(pdpt));
            assert(is_empty_table(m2[frame_of(pd)]));
            lemma_zero_entry(m2[frame_of(pd)].entries@[i2 as int]);
            lemma_count_free_bounds(a2);
        }
        assert(reserved(a2, pd));
        assert(reserved(a2, pdpt));
        assert(reserved(a2, pml4));
        assert(other_slot(pdpt, i3 as u64, pml4, i4 as u64));
        assert(entry_in(m2, pml4, i4 as u64) == entry_in(m1, pml4, i4 as u64));
    }

    let pt = get_or_create(mem, alloc, pd, i2);
    let ghost m3 = mem@;
    proof {
        if p2 {
            assert(pt == pt_table(m0, cr3, virt));
            assert(m3 == m0);
        } else {
            assert(frame_of(pt) != frame_of(pml4));
            assert(frame_of(pt) != frame_of(pdpt));
            assert(frame_of(pt) != frame_of(pd));
        }
        assert(other_slot(pd, i2 as u64, pml4, i4 as u64));
        assert(other_slot(pd, i2 as u64, pdpt, i3 as u64));
        assert(entry_in(m3, pml4, i4 as u64) == entry_in(m1, pml4, i4 as u64));
        assert(entry_in(m3, pdpt, i3 as u64) == entry_in(m2, pdpt, i3 as u64));
    }

    mem.write_entry(pt, i1, PageEntry::new(phys, page_flags));
}

/// After `map_page`, the entry that maps `virt` points to the frame of `phys` and holds
/// exactly the flags it was given (when they leave the address bits clear): none is
/// dropped and none added.
pub proof fn law_map_page_keeps_flags(
    m0: Seq<PageTable>,
    a0: Seq<bool>,
    m1: Seq<PageTable>,
    a1: Seq<bool>,
    cr3: u64,
    virt: u64,
    phys: u64,
    page_flags: u64,
)
    requires
        map_page_post(m0, a0, m1, a1, cr3, virt, phys, page_flags),
        page_flags & ADDR_MASK == 0,
    ensures
        leaf_entry(m1, cr3, virt) is Some,
        leaf_entry(m1, cr3, virt).unwrap().0 & !ADDR_MASK == page_flags,
        leaf_entry(m1, cr3, virt).unwrap().0 & ADDR_MASK == phys & ADDR_MASK,
        present(leaf_entry(m1, cr3, virt).unwrap()) == (page_flags & flags::PRESENT != 0),
{
    law_entry_keeps_bits(phys, page_flags);
    law_entry_roundtrip(phys, page_flags);
}

/// The tables on the walk for `v` lie in memory and can never be handed out by an
/// allocator whose page map is `pages`.
pub open spec fn walk_reserved(mem: Seq<PageTable>, pages: Seq<bool>, cr3: u64, v: u64) -> bool {
    &&& in_mem(mem, pml4_table(cr3)) && reserved(pages, pml4_table(cr3))
    &&& present(pml4_entry(mem, cr3, v)) ==> in_mem(mem, pdpt_table(mem, cr3, v)) && reserved(
        pages,
        pdpt_table(mem, cr3, v),
    )
    &&& present(pml4_entry(mem, cr3, v)) && present(pdpt_entry(mem, cr3, v)) ==> in_mem(
        mem,
        pd_table(mem, cr3, v),
    ) && reserved(pages, pd_table(mem, cr3, v))
    &&& present(pml4_entry(mem, cr3, v)) && present(pdpt_entry(mem, cr3, v)) && present(
        pd_entry(mem, cr3, v),
    ) ==> in_mem(mem, pt_table(mem, cr3, v)) && reserved(pages, pt_table(mem, cr3, v))
}

/// The entries that the walk for `v` reads in `m0` are none of the entries of the walk
/// for `virt` in `m1`.
pub open spec fn walk_avoids(m0: Seq<PageTable>, m1: Seq<PageTable>, cr3: u64, v: u64, virt: u64) -> bool {
    &&& !on_walk(m1, cr3, virt, frame_of(pml4_table(cr3)), pml4_idx(v) as int)
    &&& present(pml4_entry(m0, cr3, v)) ==> !on_walk(
        m1,
        cr3,
        virt,
        frame_of(pdpt_table(m0, cr3, v)),
        pdpt_idx(v) as int,
    )
    &&& present(pml4_entry(m0, cr3, v)) && present(pdpt_entry(m0, cr3, v)) ==> !on_walk(
        m1,
        cr3,
        virt,
        frame_of(pd_table(m0, cr3, v)),
        pd_idx(v) as int,
    )
    &&& present(pml4_entry(m0, cr3, v)) && present(pdpt_entry(m0, cr3, v)) && present(
        pd_entry(m0, cr3, v),
    ) ==> !on_walk(m1, cr3, virt, frame_of(pt_table(m0, cr3, v)), pt_idx(v) as int)
}

/// Whether the frame of the table at `table` can never be handed out by `alloc`.
fn is_reserved(alloc: &AllocatorCell, table: u64) -> (r: bool)
    requires
        alloc.wf(),
    ensures
        r == reserved(alloc@, table),
{
    let f = table / PAGE_SIZE;
    let total = alloc.total_pages();
    if f >= total as u64 {
        true
    } else {
        alloc.is_used(f as usize)
    }
}

/// Number of free pages of `alloc`, counted page by page.
fn count_free_pages(alloc: &AllocatorCell) -> (r: usize)
    requires
        alloc.wf(),
    ensures
        r == count_free(alloc@),
{
    let total = alloc.total_pages();
    let ghost v = alloc@;
    let mut n: usize = 0;
    let mut i: usize = 0;
    while i < total
        invariant
            alloc.wf(),
            v == alloc@,
            total == v.len(),
            i <= total,
            n == count_free(v.take(i as int)),
            n <= i,
        decreases total - i,
    {
        proof {
            assert(v.take(i + 1).drop_last() =~= v.take(i as int));
            assert(v.take(i + 1).last() == v[i as int]);
        }
        if !alloc.is_used(i) {
            n = n + 1;
        }
        i = i + 1;
    }
    proof {
        assert(v.take(total as int) =~= v);
    }
    n
}

/// Whether the frame of the table at `table` lies in `mem`.
fn is_in_mem(mem: &TableMemory, table: u64) -> (r: bool)
    ensures
        r == in_mem(mem@, table),
{
    table / PAGE_SIZE < mem.frames.len() as u64
}

/// Whether `map_page` can map `virt` on `mem` with frames from `alloc`, that is whether
/// `map_page_ok` holds.
pub fn can_map(mem: &TableMemory, alloc: &AllocatorCell, cr3: u64, virt: u64) -> (r: bool)
    requires
        alloc.wf(),
    ensures
        r == map_page_ok(mem@, alloc@, cr3, virt),
{
    let i4 = pml4_index(virt) as u64;
    let i3 = pdpt_index(virt) as u64;
    let i2 = pd_index(virt) as u64;
    let i1 = pt_index(virt) as u64;
    if alloc.total_pages() > mem.frames.len() {
        return false;
    }
    let t4 = cr3 & ADDR_MASK;
    if !is_in_mem(mem, t4) || !is_reserved(alloc, t4) {
        return false;
    }
    let e4 = mem.table(t4).entries[i4 as usize];
    let free = count_free_pages(alloc);
    if !e4.is_present() {
        return free >= 3;
    }
    let t3 = e4.phys_addr();
    if !is_in_mem(mem, t3) || !is_reserved(alloc, t3) || (t3 / PAGE_SIZE == t4 / PAGE_SIZE && i3 == i4) {
        return false;
    }
    let e3 = mem.table(t3).entries[i3 as usize];
    if !e3.is_present() {
        return free >= 2;
    }
    let t2 = e3.phys_addr();
    if !is_in_mem(mem, t2) || !is_reserved(alloc, t2) || (t2 / PAGE_SIZE == t4 / PAGE_SIZE && i2 == i4)
        || (t2 / PAGE_SIZE == t3 / PAGE_SIZE && i2 == i3) {
        return false;
    }
    let e2 = mem.table(t2).entries[i2 as usize];
    if !e2.is_present() {
        return free >= 1;
    }
    let t1 = e2.phys_addr();
    !(!is_in_mem(mem, t1) || !is_reserved(alloc, t1) || (t1 / PAGE_SIZE == t4 / PAGE_SIZE && i1 == i4)
        || (t1 / PAGE_SIZE == t3 / PAGE_SIZE && i1 == i3) || (t1 / PAGE_SIZE == t2 / PAGE_SIZE && i1
        == i2))
}

/// The tables that the walk for `virt` visits in `mem`, in order: the PML4, then each
/// next table as long as the entry above it is present and the table lies in memory.
pub open spec fn walk_tables_spec(mem: Seq<PageTable>, cr3: u64, virt: u64) -> Seq<u64> {
    let t4 = pml4_table(cr3);
    let t3 = pdpt_table(mem, cr3, virt);
    let t2 = pd_table(mem, cr3, virt);
    let t1 = pt_table(mem, cr3, virt);
    if !in_mem(mem, t4) {
        seq![]
    } else if !present(pml4_entry(mem, cr3, virt)) || !in_mem(mem, t3) {
        seq![t4]
    } else if !present(pdpt_entry(mem, cr3, virt)) || !in_mem(mem, t2) {
        seq![t4, t3]
    } else if !present(pd_entry(mem, cr3, virt)) || !in_mem(mem, t1) {
        seq![t4, t3, t2]
    } else {
        seq![t4, t3, t2, t1]
    }
}

/// The tables the walk reaches, as `walk_tables` lists them: the PML4 first when it lies
/// in memory; then each next table whenever the entry above it is present and the table
/// lies in memory, whatever that table's own entry holds; and nothing else.
pub open spec fn walk_reaches(mem: Seq<PageTable>, cr3: u64, virt: u64, w: Seq<u64>) -> bool {
    let t4 = pml4_table(cr3);
    let t3 = pdpt_table(mem, cr3, virt);
    let t2 = pd_table(mem, cr3, virt);
    let t1 = pt_table(mem, cr3, virt);
    let r4 = in_mem(mem, t4);
    let r3 = r4 && present(pml4_entry(mem, cr3, virt)) && in_mem(mem, t3);
    let r2 = r3 && present(pdpt_entry(mem, cr3, virt)) && in_mem(mem, t2);
    let r1 = r2 && present(pd_entry(mem, cr3, virt)) && in_mem(mem, t1);
    &&& w.len() == (if r1 { 4int } else if r2 { 3int } else if r3 { 2int } else if r4 { 1int } else { 0int })
    &&& r4 ==> w[0] == t4
    &&& r3 ==> w[1] == t3
    &&& r2 ==> w[2] == t2
    &&& r1 ==> w[3] == t1
}

/// `walk_tables_spec` lists exactly the tables the walk reaches.
pub proof fn law_walk_tables_reach(mem: Seq<PageTable>, cr3: u64, virt: u64)
    ensures
        walk_reaches(mem, cr3, virt, walk_tables_spec(mem, cr3, virt)),
        forall|k: int|
            0 <= k < walk_tables_spec(mem, cr3, virt).len() ==> in_mem(
                mem,
                #[trigger] walk_tables_spec(mem, cr3, virt)[k],
            ),
{
}

/// The tables that the walk for `virt` visits in `mem`: those to read from the hardware
/// page tables before `map_page`, and to write back after it.
pub fn walk_tables(mem: &TableMemory, cr3: u64, virt: u64) -> (r: Vec<u64>)
    ensures
        r@ == walk_tables_spec(mem@, cr3, virt),
        walk_reaches(mem@, cr3, virt, r@),
        forall|k: int| 0 <= k < r@.len() ==> in_mem(mem@, #[trigger] r@[k]),
{
    proof {
        law_walk_tables_reach(mem@, cr3, virt);
    }
    let mut r: Vec<u64> = Vec::new();
    let t4 = cr3 & ADDR_MASK;
    if !is_in_mem(mem, t4) {
        assert(r@ =~= walk_tables_spec(mem@, cr3, virt));
        return r;
    }
    r.push(t4);
    let e4 = mem.table(t4).entries[pml4_index(virt)];
    let t3 = e4.phys_addr();
    if !e4.is_present() || !is_in_mem(mem, t3) {
        assert(r@ =~= walk_tables_spec(mem@, cr3, virt));
        return r;
    }
    r.push(t3);
    let e3 = mem.table(t3).entries[pdpt_index(virt)];
    let t2 = e3.phys_addr();
    if !e3.is_present() || !is_in_mem(mem, t2) {
        assert(r@ =~= walk_tables_spec(mem@, cr3, virt));
        return r;
    }
    r.push(t2);
    let e2 = mem.table(t2).entries[pd_index(virt)];
    let t1 = e2.phys_addr();
    if !e2.is_present() || !is_in_mem(mem, t1) {
        assert(r@ =~= walk_tables_spec(mem@, cr3, virt));
        return r;
    }
    r.push(t1);
    assert(r@ =~= walk_tables_spec(mem@, cr3, virt));
    r
}

/// After `map_page`, every frame it changed holds a table of the walk for `virt`.
pub proof fn law_map_page_changes_only_walk_tables(
    m0: Seq<PageTable>,
    a0: Seq<bool>,
    m1: Seq<PageTable>,
    a1: Seq<bool>,
    cr3: u64,
    virt: u64,
    phys: u64,
    page_flags: u64,
    f: int,
)
    requires
        map_page_post(m0, a0, m1, a1, cr3, virt, phys, page_flags),
        0 <= f < m0.len(),
        m1[f] != m0[f],
    ensures
        exists|k: int| 0 <= k < walk_tables_spec(m1, cr3, virt).len() && frame_of(
            #[trigger] walk_tables_spec(m1, cr3, virt)[k],
        ) == f,
{
    assert(walk_tables_spec(m1, cr3, virt) =~= seq![
        pml4_table(cr3),
        pdpt_table(m1, cr3, virt),
        pd_table(m1, cr3, virt),
        pt_table(m1, cr3, virt),
    ]);
    if f == frame_of(pml4_table(cr3)) {
        assert(frame_of(walk_tables_spec(m1, cr3, virt)[0]) == f);
    } else if f == frame_of(pdpt_table(m1, cr3, virt)) {
        assert(frame_of(walk_tables_spec(m1, cr3, virt)[1]) == f);
    } else if f == frame_of(pd_table(m1, cr3, virt)) {
        assert(frame_of(walk_tables_spec(m1, cr3, virt)[2]) == f);
    } else {
        assert(frame_of(walk_tables_spec(m1, cr3, virt)[3]) == f);
    }
}

/// Mapping `virt` leaves the translation of another address `v` as it was, when the
/// walk for `v` runs through tables the allocator cannot hand out and shares no entry
/// with the walk for `virt`.
pub proof fn law_map_page_keeps_other_mappings(
    m0: Seq<PageTable>,
    a0: Seq<bool>,
    m1: Seq<PageTable>,
    a1: Seq<bool>,
    cr3: u64,
    virt: u64,
    phys: u64,
    page_flags: u64,
    v: u64,
)
    requires
        map_page_post(m0, a0, m1, a1, cr3, virt, phys, page_flags),
        walk_reserved(m0, a0, cr3, v),
        walk_avoids(m0, m1, cr3, v, virt),
    ensures
        leaf_entry(m1, cr3, v) == leaf_entry(m0, cr3, v),
{
    let i4 = pml4_idx(v) as int;
    let i3 = pdpt_idx(v) as int;
    let i2 = pd_idx(v) as int;
    let i1 = pt_idx(v) as int;
    assert((v >> 39u64) & 0x1FF < 512 && (v >> 30u64) & 0x1FF < 512 && (v >> 21u64) & 0x1FF < 512 && (v
        >> 12u64) & 0x1FF < 512) by (bit_vector);
    let f4 = frame_of(pml4_table(cr3));
    assert(m1[f4].entries@[i4] == m0[f4].entries@[i4]);
    if present(pml4_entry(m0, cr3, v)) {
        let f3 = frame_of(pdpt_table(m0, cr3, v));
        assert(m1[f3].entries@[i3] == m0[f3].entries@[i3]);
        if present(pdpt_entry(m0, cr3, v)) {
            let f2 = frame_of(pd_table(m0, cr3, v));
            assert(m1[f2].entries@[i2] == m0[f2].entries@[i2]);
            if present(pd_entry(m0, cr3, v)) {
                let f1 = frame_of(pt_table(m0, cr3, v));
                assert(m1[f1].entries@[i1] == m0[f1].entries@[i1]);
            }
        }
    }
}

} // verus!
