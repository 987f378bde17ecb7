use vados::heap::{
    align_up, heap_page, LinkedListAllocator, HEADER_SIZE, HEAP_PAGES, HEAP_SIZE, HEAP_START,
};

#[test]
fn align_up_rounds_to_multiples() {
    assert_eq!(align_up(0, 8), 0);
    assert_eq!(align_up(1, 8), 8);
    assert_eq!(align_up(8, 8), 8);
    assert_eq!(align_up(9, 8), 16);
    assert_eq!(align_up(0x1001, 0x1000), 0x2000);
    assert_eq!(align_up(5, 1), 5);
}

#[test]
fn heap_pages_cover_the_heap() {
    assert_eq!(HEAP_PAGES, 1024);
    assert_eq!(heap_page(0), HEAP_START);
    assert_eq!(heap_page(1023), HEAP_START + HEAP_SIZE - 4096);
}

#[test]
fn first_allocation_follows_the_header() {
    let mut h = LinkedListAllocator::new();
    h.init();
    let p = h.allocate(8, 8);
    assert_eq!(p, HEAP_START + HEADER_SIZE);
    // The request is rounded up to 16 bytes; the rest becomes the next block.
    let q = h.allocate(8, 8);
    assert_eq!(q, HEAP_START + HEADER_SIZE + 16 + HEADER_SIZE);
}

#[test]
fn allocation_honours_alignment() {
    let mut h = LinkedListAllocator::new();
    h.init();
    let p = h.allocate(100, 4096);
    assert_eq!(p % 4096, 0);
    assert_eq!(p, HEAP_START + 4096);
    let q = h.allocate(1, 64);
    assert_eq!(q % 64, 0);
    assert!(q >= p + 100);
}

#[test]
fn empty_heap_returns_null() {
    let mut h = LinkedListAllocator::new();
    assert_eq!(h.allocate(8, 8), 0);
}

#[test]
fn request_larger_than_heap_returns_null() {
    let mut h = LinkedListAllocator::new();
    h.init();
    assert_eq!(h.allocate(HEAP_SIZE, 8), 0);
    // The heap is untouched: the next small request still starts at the front.
    assert_eq!(h.allocate(8, 8), HEAP_START + HEADER_SIZE);
}

#[test]
fn whole_block_is_taken_when_the_rest_is_too_small() {
    let mut h = LinkedListAllocator::new();
    h.init();
    // Leaves fewer than 32 bytes: the block leaves the list.
    let p = h.allocate(HEAP_SIZE - HEADER_SIZE - 31, 1);
    assert_eq!(p, HEAP_START + HEADER_SIZE);
    assert_eq!(h.allocate(1, 1), 0);
}

#[test]
fn freed_block_is_reused_first() {
    let mut h = LinkedListAllocator::new();
    h.init();
    let p = h.allocate(64, 8);
    let q = h.allocate(64, 8);
    assert_eq!(q, p + 64 + HEADER_SIZE);
    h.deallocate(p, 64);
    // The freed block is searched first: its header sits at the freed address.
    let r = h.allocate(64, 8);
    assert_eq!(r, p + HEADER_SIZE);
}

#[test]
fn deallocate_rounds_small_sizes_up() {
    let mut h = LinkedListAllocator::new();
    h.deallocate(0x1000, 1);
    // The block holds 16 bytes: a 16-byte request at alignment 16 fits exactly.
    assert_eq!(h.allocate(16, 16), 0x1010);
    assert_eq!(h.allocate(1, 1), 0);
}

#[test]
fn allocations_do_not_overlap() {
    let mut h = LinkedListAllocator::new();
    h.init();
    let sizes: [(u64, u64); 6] = [(24, 8), (1, 1), (100, 64), (4096, 4096), (7, 2), (33, 16)];
    let mut got: Vec<(u64, u64)> = Vec::new();
    for (size, align) in sizes {
        let p = h.allocate(size, align);
        assert_ne!(p, 0);
        assert_eq!(p % align, 0);
        assert!(p >= HEAP_START && p + size <= HEAP_START + HEAP_SIZE);
        for &(q, qs) in &got {
            assert!(p + size <= q || q + qs <= p);
        }
        got.push((p, size));
    }
}

#[test]
fn request_checks() {
    let mut h = LinkedListAllocator::new();
    h.init();
    assert!(h.can_allocate(8, 8));
    assert!(h.can_allocate(8, 1));
    assert!(h.can_allocate(8, 1 << 40));
    assert!(!h.can_allocate(8, 1 << 63));
    assert!(!h.can_allocate(8, 0));
    assert!(!h.can_allocate(8, 12));
    assert!(!h.can_allocate(u64::MAX - 8, 8));
    // A freed block whose end wraps around makes the search overflow once it is reached.
    h.deallocate(u64::MAX - 20, 8);
    assert!(!h.can_allocate(8, 8));
}
