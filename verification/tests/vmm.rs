use vados::allocator::{AllocatorCell, MemmapEntry};
use vados::vmm::flags::{NO_EXECUTE, PRESENT, USER, WRITABLE};
use vados::vmm::{
    can_map, map_page, walk_tables, pd_index, pdpt_index, pml4_index, pt_index, PageEntry, PageTable, TableMemory, ADDR_MASK,
};

#[test]
fn flag_bits() {
    assert_eq!(PRESENT, 1 << 0);
    assert_eq!(WRITABLE, 1 << 1);
    assert_eq!(USER, 1 << 2);
    assert_eq!(NO_EXECUTE, 1 << 63);
}

#[test]
fn page_entry_basics() {
    let e = PageEntry::empty();
    assert_eq!(e.0, 0);
    assert!(!e.is_present());
    let n = PageEntry::new(0x1234_5678, PRESENT | WRITABLE);
    assert_eq!(n.0, 0x1234_5003);
    assert!(n.is_present());
    assert_eq!(n.phys_addr(), 0x1234_5000);
    let x = PageEntry::new(0xFFFF_FFFF_FFFF_FFFF, NO_EXECUTE);
    assert_eq!(x.phys_addr(), ADDR_MASK);
    assert!(!x.is_present());
}

#[test]
fn empty_table_is_all_zero() {
    let t = PageTable::empty();
    assert!(t.entries.iter().all(|e| e.0 == 0));
}

#[test]
fn indices_split_the_address() {
    let v: u64 = 0xffff_a000_0020_3456;
    assert_eq!(pml4_index(v), 0x140);
    assert_eq!(pdpt_index(v), 0);
    assert_eq!(pd_index(v), 1);
    assert_eq!(pt_index(v), 3);
    let w: u64 = 0x0000_7fff_ffff_ffff;
    assert_eq!((pml4_index(w), pdpt_index(w), pd_index(w), pt_index(w)), (255, 511, 511, 511));
    let rebuilt = ((pml4_index(v) as u64) << 39)
        | ((pdpt_index(v) as u64) << 30)
        | ((pd_index(v) as u64) << 21)
        | ((pt_index(v) as u64) << 12)
        | (v & 0xFFF);
    assert_eq!(rebuilt, v & 0xFFFF_FFFF_FFFF);
}

/// 16 frames; frame 0 holds the PML4 and is reserved, frames 1..16 are usable.
fn setup() -> (TableMemory, AllocatorCell) {
    let mem = TableMemory::new(16);
    let mut alloc = AllocatorCell::new();
    let map = vec![
        MemmapEntry { base: 0, length: 0x1000, usable: false },
        MemmapEntry { base: 0x1000, length: 0xF000, usable: true },
    ];
    alloc.init(&map, 0);
    (mem, alloc)
}

fn walk(mem: &TableMemory, cr3: u64, virt: u64) -> Option<PageEntry> {
    let e4 = mem.table(cr3 & ADDR_MASK).entries[pml4_index(virt)];
    if !e4.is_present() {
        return None;
    }
    let e3 = mem.table(e4.phys_addr()).entries[pdpt_index(virt)];
    if !e3.is_present() {
        return None;
    }
    let e2 = mem.table(e3.phys_addr()).entries[pd_index(virt)];
    if !e2.is_present() {
        return None;
    }
    Some(mem.table(e2.phys_addr()).entries[pt_index(virt)])
}

#[test]
fn map_page_builds_missing_tables() {
    let (mut mem, mut alloc) = setup();
    // Frame 1 holds the bitmap; frames 2..16 are free.
    assert_eq!(alloc.free_pages(), 14);
    let virt = 0xffff_9000_0000_0000u64;
    map_page(&mut mem, &mut alloc, 0, virt, 0x5000, PRESENT | WRITABLE);
    assert_eq!(alloc.free_pages(), 11);
    let leaf = walk(&mem, 0, virt).unwrap();
    assert_eq!(leaf.0, 0x5003);
    // The new tables are frames 2, 3, 4, linked present and writable.
    assert_eq!(mem.table(0).entries[pml4_index(virt)].0, 0x2003);
    assert_eq!(mem.table(0x2000).entries[pdpt_index(virt)].0, 0x3003);
    assert_eq!(mem.table(0x3000).entries[pd_index(virt)].0, 0x4003);
}

#[test]
fn map_page_reuses_existing_tables() {
    let (mut mem, mut alloc) = setup();
    let virt = 0xffff_a000_0000_0000u64;
    map_page(&mut mem, &mut alloc, 0, virt, 0x7000, PRESENT | WRITABLE);
    assert_eq!(alloc.free_pages(), 11);
    // The neighbouring page shares all three tables: nothing is allocated.
    map_page(&mut mem, &mut alloc, 0, virt + 0x1000, 0x8000, PRESENT);
    assert_eq!(alloc.free_pages(), 11);
    assert_eq!(walk(&mem, 0, virt).unwrap().0, 0x7003);
    assert_eq!(walk(&mem, 0, virt + 0x1000).unwrap().0, 0x8001);
    // A page 2 MiB further needs one new page table only.
    map_page(&mut mem, &mut alloc, 0, virt + 0x20_0000, 0x9000, PRESENT);
    assert_eq!(alloc.free_pages(), 10);
    assert_eq!(walk(&mem, 0, virt + 0x20_0000).unwrap().0, 0x9001);
    assert_eq!(walk(&mem, 0, virt).unwrap().0, 0x7003);
}

#[test]
fn map_page_overwrites_a_mapping() {
    let (mut mem, mut alloc) = setup();
    let virt = 0x40_0000u64;
    map_page(&mut mem, &mut alloc, 0, virt, 0x7000, PRESENT);
    map_page(&mut mem, &mut alloc, 0, virt, 0xA000, PRESENT | WRITABLE | NO_EXECUTE);
    assert_eq!(walk(&mem, 0, virt).unwrap().0, 0x8000_0000_0000_A003);
    assert_eq!(walk(&mem, 0, virt + 0x1000).unwrap().0, 0);
}

#[test]
fn can_map_checks_the_walk() {
    let (mem, alloc) = setup();
    assert!(can_map(&mem, &alloc, 0, 0xffff_9000_0000_0000));
    // The PML4 frame lies outside the memory.
    assert!(!can_map(&mem, &alloc, 0x10_0000, 0));
    // The PML4 frame is one the allocator could hand out.
    assert!(!can_map(&mem, &alloc, 0x5000, 0));
}

#[test]
fn can_map_needs_free_frames() {
    let (mem, mut alloc) = setup();
    while alloc.free_pages() > 2 {
        alloc.alloc_frame();
    }
    // Three tables are missing but only two frames are left.
    assert!(!can_map(&mem, &alloc, 0, 0));
}

#[test]
fn mapping_another_page_keeps_the_first() {
    let (mut mem, mut alloc) = setup();
    map_page(&mut mem, &mut alloc, 0, 0x1000, 0xB000, PRESENT);
    map_page(&mut mem, &mut alloc, 0, 0x8000_0000_0000, 0xC000, PRESENT);
    assert_eq!(walk(&mem, 0, 0x1000).unwrap().0, 0xB001);
    assert_eq!(walk(&mem, 0, 0x8000_0000_0000).unwrap().0, 0xC001);
    assert_eq!(alloc.free_pages(), 14 - 6);
}

#[test]
fn walk_tables_follows_present_entries() {
    let (mut mem, mut alloc) = setup();
    let virt = 0xffff_9000_0000_0000u64;
    assert_eq!(walk_tables(&mem, 0, virt), vec![0]);
    map_page(&mut mem, &mut alloc, 0, virt, 0x5000, PRESENT);
    assert_eq!(walk_tables(&mem, 0, virt), vec![0, 0x2000, 0x3000, 0x4000]);
    // An address under another PML4 entry stops at the PML4.
    assert_eq!(walk_tables(&mem, 0, 0x1000), vec![0]);
    // A PML4 outside the memory gives no table.
    assert_eq!(walk_tables(&mem, 0x10_0000, virt), Vec::<u64>::new());
}

#[test]
fn set_table_replaces_a_frame() {
    let (mut mem, _) = setup();
    let mut t = PageTable::empty();
    t.entries[7] = PageEntry::new(0x9000, PRESENT);
    mem.set_table(0x3000, t);
    assert_eq!(mem.table(0x3000).entries[7].0, 0x9001);
    assert_eq!(mem.table(0x2000).entries[7].0, 0);
}
