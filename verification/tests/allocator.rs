use vados::allocator::{pages_to_mib, AllocatorCell, BitmapAllocator, MemmapEntry, PAGE_SIZE};

fn entry(base: u64, length: u64, usable: bool) -> MemmapEntry {
    MemmapEntry { base, length, usable }
}

/// 32 pages: page 0 reserved, pages 1..8 usable, pages 8..16 reserved, pages 16..32 usable.
fn sample_map() -> Vec<MemmapEntry> {
    vec![
        entry(0x0, 0x1000, false),
        entry(0x1000, 0x7000, true),
        entry(0x8000, 0x8000, false),
        entry(0x10000, 0x10000, true),
    ]
}

fn initialised() -> BitmapAllocator {
    let map = sample_map();
    let mut a = BitmapAllocator::new();
    assert!(BitmapAllocator::check_memmap(&map, 0xffff_8000_0000_0000));
    a.init(&map, 0xffff_8000_0000_0000);
    a
}

#[test]
fn new_allocator_is_empty() {
    let mut a = BitmapAllocator::new();
    assert_eq!(a.total_pages(), 0);
    assert_eq!(a.free_pages(), 0);
    assert_eq!(a.alloc_frame(), None);
}

#[test]
fn calc_bitmap_size_counts_pages_below_highest_usable_end() {
    let map = sample_map();
    assert_eq!(BitmapAllocator::calc_bitmap_size(&map), (32, 4));
    // Reserved regions above the usable ones do not count.
    let map2 = vec![entry(0x0, 0x9000, true), entry(0x100000, 0x1000, false)];
    assert_eq!(BitmapAllocator::calc_bitmap_size(&map2), (9, 2));
    assert_eq!(BitmapAllocator::calc_bitmap_size(&[]), (0, 0));
}

#[test]
fn find_bitmap_location_takes_first_usable_fit() {
    let map = sample_map();
    assert_eq!(BitmapAllocator::find_bitmap_location(&map, 4), Some(0x1000));
    assert_eq!(BitmapAllocator::find_bitmap_location(&map, 0x8000), Some(0x10000));
    assert_eq!(BitmapAllocator::find_bitmap_location(&map, 0x20000), None);
}

#[test]
fn init_frees_usable_pages_except_the_bitmap() {
    let a = initialised();
    assert_eq!(a.total_pages(), 32);
    // Usable: pages 1..8 and 16..32 (23 pages); page 1 holds the bitmap.
    assert_eq!(a.free_pages(), 22);
    assert!(a.is_used(0));
    assert!(a.is_used(1));
    for p in 2..8 {
        assert!(!a.is_used(p));
    }
    for p in 8..16 {
        assert!(a.is_used(p));
    }
    for p in 16..32 {
        assert!(!a.is_used(p));
    }
}

#[test]
fn alloc_frame_returns_lowest_free_page() {
    let mut a = initialised();
    assert_eq!(a.alloc_frame(), Some(2 * PAGE_SIZE));
    assert_eq!(a.alloc_frame(), Some(3 * PAGE_SIZE));
    assert_eq!(a.free_pages(), 20);
    assert!(a.is_used(2));
    assert!(a.is_used(3));
}

#[test]
fn freed_frame_is_handed_out_again() {
    let mut a = initialised();
    let x = a.alloc_frame().unwrap();
    let y = a.alloc_frame().unwrap();
    let z = a.alloc_frame().unwrap();
    assert_eq!((x, y, z), (0x2000, 0x3000, 0x4000));
    a.free_frame(y);
    assert_eq!(a.free_pages(), 20);
    assert!(!a.is_used(3));
    assert_eq!(a.alloc_frame(), Some(y));
}

#[test]
fn free_frame_accepts_an_address_inside_the_page() {
    let mut a = initialised();
    let x = a.alloc_frame().unwrap();
    a.free_frame(x + 0x123);
    assert!(!a.is_used((x / PAGE_SIZE) as usize));
    assert_eq!(a.free_pages(), 22);
}

#[test]
fn alloc_frame_fails_when_everything_is_used() {
    let mut a = initialised();
    let mut got = Vec::new();
    while let Some(f) = a.alloc_frame() {
        got.push(f);
    }
    assert_eq!(got.len(), 22);
    assert_eq!(a.free_pages(), 0);
    assert_eq!(a.alloc_frame(), None);
    assert_eq!(got[6], 16 * PAGE_SIZE);
}

#[test]
fn check_memmap_rejects_bad_maps() {
    // No usable region.
    let none = vec![entry(0x0, 0x4000, false)];
    assert!(!BitmapAllocator::check_memmap(&none, 0));
    // A usable region that wraps around.
    let wrap = vec![entry(u64::MAX - 0xFFF, 0x2000, true)];
    assert!(!BitmapAllocator::check_memmap(&wrap, 0));
    // Bitmap address overflows in the direct map.
    assert!(!BitmapAllocator::check_memmap(&sample_map(), u64::MAX));
    // The bitmap would spill past the last managed page.
    let spill = vec![entry(0x1000, 0x900, true)];
    assert!(!BitmapAllocator::check_memmap(&spill, 0));
    assert!(BitmapAllocator::check_memmap(&sample_map(), 0));
}

#[test]
fn allocator_cell_delegates() {
    let mut c = AllocatorCell::new();
    assert_eq!(c.total_pages(), 0);
    c.init(&sample_map(), 0);
    assert_eq!(c.total_pages(), 32);
    assert_eq!(c.free_pages(), 22);
    let f = c.alloc_frame().unwrap();
    assert_eq!(f, 0x2000);
    c.free_frame(f);
    assert_eq!(c.free_pages(), 22);
}

#[test]
fn pages_to_mib_converts() {
    assert_eq!(pages_to_mib(256), 1);
    assert_eq!(pages_to_mib(1023), 3);
    assert_eq!(pages_to_mib(0), 0);
}

#[test]
fn overlapping_regions_are_counted_twice() {
    // Pages 2 and 3 lie in both usable regions.
    let overlap = vec![entry(0x0, 0x4000, true), entry(0x2000, 0x4000, true)];
    assert!(BitmapAllocator::check_memmap(&overlap, 0));
    let mut a = BitmapAllocator::new();
    a.init(&overlap, 0);
    assert_eq!(a.total_pages(), 6);
    let free = (0..6).filter(|&p| !a.is_used(p)).count();
    assert_eq!(free, 5);
    // 4 + 4 pages freed, 1 taken back for the bitmap.
    assert_eq!(a.free_pages(), 7);
    assert_eq!(a.alloc_frame(), Some(0x1000));
    assert_eq!(a.free_pages(), 6);
}
