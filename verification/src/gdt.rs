//! The global descriptor table: a null descriptor and flat 64-bit kernel code and data
//! segments.
use vstd::prelude::*;

verus! {

/// Bit `n` of `v` is set.
pub open spec fn has_bit(v: u64, n: u64) -> bool {
    (v >> n) & 1 == 1
}

/// One 8-byte segment descriptor.
#[derive(Clone, Copy)]
pub struct Descriptor(pub u64);

impl Descriptor {
    /// The null descriptor, which must come first in the table.
    pub fn null() -> (r: Self)
        ensures
            r.0 == 0,
    {
        Self(0)
    }

    /// The 64-bit kernel code segment: bit 43 (executable), bit 44 (code or data
    /// descriptor), bit 47 (present) and bit 53 (long mode), and no other.
    pub fn kernel_code() -> (r: Self)
        ensures
            r.0 == (1u64 << 43u64) | (1u64 << 44u64) | (1u64 << 47u64) | (1u64 << 53u64),
            forall|n: u64| n < 64 ==> (has_bit(r.0, n) <==> (n == 43 || n == 44 || n == 47 || n == 53)),
    {
        let v: u64 = (1u64 << 43u64) | (1u64 << 44u64) | (1u64 << 47u64) | (1u64 << 53u64);
        assert(forall|n: u64|
            n < 64 ==> (((#[trigger] (v >> n)) & 1 == 1) <==> (n == 43 || n == 44 || n == 47 || n == 53)))
            by (bit_vector)
            requires
                v == (1u64 << 43u64) | (1u64 << 44u64) | (1u64 << 47u64) | (1u64 << 53u64),
        ;
        Self(v)
    }

    /// The kernel data segment: bit 40 (accessed), bit 41 (writable), bit 44 (code or
    /// data descriptor) and bit 47 (present), and no other.
    pub fn kernel_data() -> (r: Self)
        ensures
            r.0 == (1u64 << 40u64) | (1u64 << 41u64) | (1u64 << 44u64) | (1u64 << 47u64),
            forall|n: u64| n < 64 ==> (has_bit(r.0, n) <==> (n == 40 || n == 41 || n == 44 || n == 47)),
    {
        let v: u64 = (1u64 << 40u64) | (1u64 << 41u64) | (1u64 << 44u64) | (1u64 << 47u64);
        assert(forall|n: u64|
            n < 64 ==> (((#[trigger] (v >> n)) & 1 == 1) <==> (n == 40 || n == 41 || n == 44 || n == 47)))
            by (bit_vector)
            requires
                v == (1u64 << 40u64) | (1u64 << 41u64) | (1u64 << 44u64) | (1u64 << 47u64),
        ;
        Self(v)
    }
}

/// Size of one descriptor in bytes.
pub const DESCRIPTOR_SIZE: u16 = 8;

/// Number of descriptors in the table.
pub const GDT_ENTRIES: u16 = 3;

/// Selector of the kernel code segment: descriptor 1, times the descriptor size.
pub const KERNEL_CODE_SELECTOR: u16 = 0x08;

/// Selector of the kernel data segment: descriptor 2, times the descriptor size.
pub const KERNEL_DATA_SELECTOR: u16 = 0x10;

/// The table: null, kernel code, kernel data, in this order.
#[derive(Clone, Copy)]
pub struct Gdt {
    pub null: Descriptor,
    pub code: Descriptor,
    pub data: Descriptor,
}

/// The operand of `lgdt`: the table's size in bytes minus one, and its address.
#[derive(Clone, Copy)]
pub struct GetRegister {
    pub limit: u16,
    pub base: u64,
}

impl Gdt {
    /// The kernel's table.
    pub fn new() -> (r: Self)
        ensures
            r.null.0 == 0,
            r.code.0 == (1u64 << 43u64) | (1u64 << 44u64) | (1u64 << 47u64) | (1u64 << 53u64),
            r.data.0 == (1u64 << 40u64) | (1u64 << 41u64) | (1u64 << 44u64) | (1u64 << 47u64),
    {
        Self { null: Descriptor::null(), code: Descriptor::kernel_code(), data: Descriptor::kernel_data() }
    }

    /// The `lgdt` operand for this table placed at address `base`.
    pub fn descriptor(&self, base: u64) -> (r: GetRegister)
        ensures
            r.limit == GDT_ENTRIES * DESCRIPTOR_SIZE - 1,
            r.base == base,
    {
        GetRegister { limit: GDT_ENTRIES * DESCRIPTOR_SIZE - 1, base }
    }
}

/// Each selector is its descriptor's index in the table times the descriptor size.
pub proof fn law_selectors_index_table()
    ensures
        KERNEL_CODE_SELECTOR == 1 * DESCRIPTOR_SIZE,
        KERNEL_DATA_SELECTOR == 2 * DESCRIPTOR_SIZE,
        KERNEL_DATA_SELECTOR < GDT_ENTRIES * DESCRIPTOR_SIZE,
{
}

} // verus!
