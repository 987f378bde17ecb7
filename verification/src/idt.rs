//! The interrupt descriptor table: 256 gates, each pointing to a handler in the kernel
//! code segment.
use vstd::prelude::*;
use crate::gdt::KERNEL_CODE_SELECTOR;

verus! {

/// Type and attribute byte of a gate: present, ring 0, 64-bit interrupt gate.
pub const GATE_FLAGS: u8 = 0x8E;

/// Size of one gate in bytes.
pub const GATE_SIZE: u16 = 16;

/// Number of gates in the table.
pub const IDT_ENTRIES: u16 = 256;

/// One 16-byte gate.
#[derive(Clone, Copy)]
pub struct IdtEntry {
    /// Bits 0..=15 of the handler's address.
    pub offset_low: u16,
    /// Code segment selector.
    pub selector: u16,
    /// Interrupt stack table index (0: none).
    pub ist: u8,
    /// Gate type, privilege level and present bit.
    pub flags: u8,
    /// Bits 16..=31 of the handler's address.
    pub offset_mid: u16,
    /// Bits 32..=63 of the handler's address.
    pub offset_high: u32,
    /// Always zero.
    pub _reserved: u32,
}

/// The present ring-0 interrupt gate to the code at `handler`.
pub open spec fn gate(handler: u64) -> IdtEntry {
    IdtEntry {
        offset_low: (handler & 0xFFFF) as u16,
        selector: KERNEL_CODE_SELECTOR,
        ist: 0,
        flags: GATE_FLAGS,
        offset_mid: ((handler >> 16u64) & 0xFFFF) as u16,
        offset_high: ((handler >> 32u64) & 0xFFFF_FFFF) as u32,
        _reserved: 0,
    }
}

/// A gate with every field zero: not present.
pub open spec fn missing_gate() -> IdtEntry {
    IdtEntry { offset_low: 0, selector: 0, ist: 0, flags: 0, offset_mid: 0, offset_high: 0, _reserved: 0 }
}

/// The handler address a gate holds, reassembled from its three parts.
pub open spec fn handler_of(e: IdtEntry) -> u64 {
    (e.offset_low as u64) | ((e.offset_mid as u64) << 16u64) | ((e.offset_high as u64) << 32u64)
}

impl IdtEntry {
    /// An empty gate.
    pub fn missing() -> (r: Self)
        ensures
            r == missing_gate(),
    {
        Self { offset_low: 0, selector: 0, ist: 0, flags: 0, offset_mid: 0, offset_high: 0, _reserved: 0 }
    }

    /// A present ring-0 interrupt gate to the handler at `handler`.
    pub fn new(handler: u64) -> (r: Self)
        ensures
            r == gate(handler),
    {
        Self {
            offset_low: (handler & 0xFFFF) as u16,
            selector: KERNEL_CODE_SELECTOR,
            ist: 0,
            flags: GATE_FLAGS,
            offset_mid: ((handler >> 16u64) & 0xFFFF) as u16,
            offset_high: ((handler >> 32u64) & 0xFFFF_FFFF) as u32,
            _reserved: 0,
        }
    }
}

/// A gate keeps the whole address of its handler.
pub proof fn law_gate_keeps_handler(handler: u64)
    ensures
        handler_of(gate(handler)) == handler,
{
    assert(((((handler & 0xFFFF) as u16) as u64) | ((((((handler >> 16u64) & 0xFFFF) as u16) as u64)
        << 16u64)) | ((((((handler >> 32u64) & 0xFFFF_FFFF) as u32) as u64) << 32u64))) == handler)
        by (bit_vector);
}

/// The operand of `lidt`: the table's size in bytes minus one, and its address.
#[derive(Clone, Copy)]
pub struct IdtRegister {
    pub limit: u16,
    pub base: u64,
}

/// The table: one gate per interrupt vector.
#[derive(Clone, Copy)]
pub struct Idt {
    pub entries: [IdtEntry; 256],
}

impl Idt {
    /// A table with every gate empty.
    pub fn new() -> (r: Self)
        ensures
            forall|i: int| 0 <= i < 256 ==> r.entries@[i] == missing_gate(),
    {
        Self { entries: [IdtEntry::missing(); 256] }
    }

    /// Makes interrupt `vector` run the code at `handler`.
    pub fn set_handler(&mut self, vector: u8, handler: u64)
        ensures
            final(self).entries@ == old(self).entries@.update(vector as int, gate(handler)),
    {
        self.entries[vector as usize] = IdtEntry::new(handler);
    }

    /// The `lidt` operand for this table placed at address `base`.
    pub fn register(&self, base: u64) -> (r: IdtRegister)
        ensures
            r.limit == IDT_ENTRIES * GATE_SIZE - 1,
            r.base == base,
    {
        IdtRegister { limit: IDT_ENTRIES * GATE_SIZE - 1, base }
    }
}

/// What the processor pushes on the stack when it takes an interrupt.
#[derive(Clone, Copy)]
pub struct InterruptFrame {
    pub rip: u64,
    pub cs: u64,
    pub rflags: u64,
    pub rsp: u64,
    pub ss: u64,
}

/// The kernel's interrupt table, filled in during boot before other cores start.
pub struct IdtCell {
    inner: Idt,
}

impl View for IdtCell {
    type V = Seq<IdtEntry>;

    /// The gates of the table, by vector.
    closed spec fn view(&self) -> Seq<IdtEntry> {
        self.inner.entries@
    }
}

impl IdtCell {
    /// A cell holding a table with every gate empty.
    pub fn new() -> (r: Self)
        ensures
            r@.len() == 256,
            forall|i: int| 0 <= i < 256 ==> r@[i] == missing_gate(),
    {
        Self { inner: Idt::new() }
    }

    /// Makes interrupt `vector` run the code at `handler`.
    pub fn set_handler(&mut self, vector: u8, handler: u64)
        ensures
            final(self)@ == old(self)@.update(vector as int, gate(handler)),
    {
        self.inner.set_handler(vector, handler);
    }

    /// The table, for loading it into the processor.
    pub fn table(&self) -> (r: &Idt)
        ensures
            r.entries@ == self@,
    {
        &self.inner
    }
}

/// Setting a gate leaves every other gate as it was and makes that one hold the handler.
pub proof fn law_set_handler_only_touches_vector(
    before: Seq<IdtEntry>,
    vector: u8,
    handler: u64,
    other: int,
)
    requires
        before.len() == 256,
        0 <= other < 256,
        other != vector,
    ensures
        before.update(vector as int, gate(handler))[other] == before[other],
        handler_of(before.update(vector as int, gate(handler))[vector as int]) == handler,
{
    law_gate_keeps_handler(handler);
}

} // verus!
