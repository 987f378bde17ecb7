use vados::gdt::{Descriptor, Gdt, KERNEL_CODE_SELECTOR, KERNEL_DATA_SELECTOR};
use vados::idt::{Idt, IdtCell, IdtEntry, InterruptFrame};

#[test]
fn gdt_descriptors() {
    assert_eq!(Descriptor::null().0, 0);
    assert_eq!(Descriptor::kernel_code().0, 0x0020_9800_0000_0000);
    assert_eq!(Descriptor::kernel_data().0, 0x0000_9300_0000_0000);
    let g = Gdt::new();
    assert_eq!(g.null.0, 0);
    assert_eq!(g.code.0, Descriptor::kernel_code().0);
    assert_eq!(g.data.0, Descriptor::kernel_data().0);
}

#[test]
fn gdt_register() {
    let g = Gdt::new();
    let r = g.descriptor(0xffff_ffff_8000_1000);
    assert_eq!(r.limit, 23);
    assert_eq!(r.base, 0xffff_ffff_8000_1000);
    assert_eq!(KERNEL_CODE_SELECTOR, 0x08);
    assert_eq!(KERNEL_DATA_SELECTOR, 0x10);
}

#[test]
fn idt_entry_missing_is_zero() {
    let e = IdtEntry::missing();
    assert_eq!(
        (e.offset_low, e.selector, e.ist, e.flags, e.offset_mid, e.offset_high, e._reserved),
        (0, 0, 0, 0, 0, 0, 0)
    );
}

#[test]
fn idt_entry_splits_handler() {
    let h = 0xffff_ffff_8012_3456u64;
    let e = IdtEntry::new(h);
    assert_eq!(e.offset_low, 0x3456);
    assert_eq!(e.offset_mid, 0x8012);
    assert_eq!(e.offset_high, 0xffff_ffff);
    assert_eq!(e.selector, KERNEL_CODE_SELECTOR);
    assert_eq!(e.ist, 0);
    assert_eq!(e.flags, 0x8E);
    assert_eq!(e._reserved, 0);
    let back = (e.offset_low as u64) | ((e.offset_mid as u64) << 16) | ((e.offset_high as u64) << 32);
    assert_eq!(back, h);
}

#[test]
fn idt_set_handler_touches_one_vector() {
    let mut t = Idt::new();
    t.set_handler(14, 0x1234_5678_9abc_def0);
    assert_eq!(t.entries[14].offset_low, 0xdef0);
    assert_eq!(t.entries[14].flags, 0x8E);
    assert_eq!(t.entries[13].flags, 0);
    assert_eq!(t.entries[255].flags, 0);
    t.set_handler(255, 0x42);
    assert_eq!(t.entries[255].offset_low, 0x42);
    let r = t.register(0x5000);
    assert_eq!(r.limit, 4095);
    assert_eq!(r.base, 0x5000);
}

#[test]
fn idt_cell_sets_handlers() {
    let mut c = IdtCell::new();
    c.set_handler(0x20, 0xAAAA_BBBB_CCCC_DDDD);
    assert_eq!(c.table().entries[0x20].offset_mid, 0xCCCC);
    assert_eq!(c.table().entries[0x21].flags, 0);
    let f = InterruptFrame { rip: 1, cs: 8, rflags: 2, rsp: 3, ss: 0x10 };
    assert_eq!(f.cs, 8);
}
