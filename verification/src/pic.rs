//! The two cascaded 8259 interrupt controllers: the byte sequences that remap and mask
//! them, and the end-of-interrupt signal.
use vstd::prelude::*;

verus! {

/// One byte written to one I/O port.
#[derive(Clone, Copy)]
pub struct PortWrite {
    pub port: u16,
    pub value: u8,
}

/// Command port of the master controller.
pub const PIC1_COMMAND: u16 = 0x20;
/// Data port of the master controller.
pub const PIC1_DATA: u16 = 0x21;
/// Command port of the slave controller.
pub const PIC2_COMMAND: u16 = 0xA0;
/// Data port of the slave controller.
pub const PIC2_DATA: u16 = 0xA1;
/// The POST diagnostic port; a write there gives the controllers time to settle.
pub const POST_PORT: u16 = 0x80;

/// End of interrupt.
pub const PIC_EOI: u8 = 0x20;
/// Start initialisation, a fourth initialisation word follows.
pub const ICW1_INIT: u8 = 0x11;
/// 8086 mode.
pub const ICW4_8086: u8 = 0x01;

/// Vector of IRQ0 after remapping: IRQ0-7 go to vectors 0x20-0x27.
pub const PIC1_OFFSET: u8 = 0x20;
/// Vector of IRQ8 after remapping: IRQ8-15 go to vectors 0x28-0x2F.
pub const PIC2_OFFSET: u8 = 0x28;

/// Master mask: only IRQ0 (timer), IRQ1 and IRQ2 (cascade) enabled.
pub const PIC1_MASK: u8 = 0b1111_1000;
/// Slave mask: every line masked.
pub const PIC2_MASK: u8 = 0b1111_1111;

/// A write of `value` to `port`.
pub open spec fn port_write(port: u16, value: u8) -> PortWrite {
    PortWrite { port, value }
}

/// The short delay between two writes to the controllers.
pub open spec fn wait() -> PortWrite {
    port_write(POST_PORT, 0)
}

/// The initialisation sequence: ICW1 to both controllers, their vector offsets (ICW2),
/// the cascade wiring on IRQ2 (ICW3), 8086 mode (ICW4), each followed by a delay, then
/// the interrupt masks.
pub open spec fn init_sequence() -> Seq<PortWrite> {
    seq![
        port_write(PIC1_COMMAND, ICW1_INIT), wait(),
        port_write(PIC2_COMMAND, ICW1_INIT), wait(),
        port_write(PIC1_DATA, PIC1_OFFSET), wait(),
        port_write(PIC2_DATA, PIC2_OFFSET), wait(),
        port_write(PIC1_DATA, 0x04), wait(),
        port_write(PIC2_DATA, 0x02), wait(),
        port_write(PIC1_DATA, ICW4_8086), wait(),
        port_write(PIC2_DATA, ICW4_8086), wait(),
        port_write(PIC1_DATA, PIC1_MASK),
        port_write(PIC2_DATA, PIC2_MASK),
    ]
}

/// The end-of-interrupt writes for `irq`: an EOI command to the slave's command port
/// when the line is one of its own, then one to the master's command port.
pub open spec fn eoi_sequence(irq: u8) -> Seq<PortWrite> {
    if irq >= 8 {
        seq![port_write(PIC2_COMMAND, PIC_EOI), port_write(PIC1_COMMAND, PIC_EOI)]
    } else {
        seq![port_write(PIC1_COMMAND, PIC_EOI)]
    }
}

fn out(writes: &mut Vec<PortWrite>, port: u16, value: u8)
    ensures
        final(writes)@ == old(writes)@.push(port_write(port, value)),
{
    writes.push(PortWrite { port, value });
}

fn io_wait(writes: &mut Vec<PortWrite>)
    ensures
        final(writes)@ == old(writes)@.push(wait()),
{
    out(writes, POST_PORT, 0);
}

/// The port writes that remap the controllers and mask all lines but IRQ0-2.
pub fn init() -> (r: Vec<PortWrite>)
    ensures
        r@ == init_sequence(),
{
    let mut w: Vec<PortWrite> = Vec::new();
    // ICW1: start initialisation.
    out(&mut w, PIC1_COMMAND, ICW1_INIT);
    io_wait(&mut w);
    out(&mut w, PIC2_COMMAND, ICW1_INIT);
    io_wait(&mut w);
    // ICW2: vector offsets.
    out(&mut w, PIC1_DATA, PIC1_OFFSET);
    io_wait(&mut w);
    out(&mut w, PIC2_DATA, PIC2_OFFSET);
    io_wait(&mut w);
    // ICW3: the slave hangs off IRQ2.
    out(&mut w, PIC1_DATA, 0x04);
    io_wait(&mut w);
    out(&mut w, PIC2_DATA, 0x02);
    io_wait(&mut w);
    // ICW4: 8086 mode.
    out(&mut w, PIC1_DATA, ICW4_8086);
    io_wait(&mut w);
    out(&mut w, PIC2_DATA, ICW4_8086);
    io_wait(&mut w);
    // Masks.
    out(&mut w, PIC1_DATA, PIC1_MASK);
    out(&mut w, PIC2_DATA, PIC2_MASK);
    assert(w@ =~= init_sequence());
    w
}

/// The port writes that acknowledge interrupt `irq`; every handler ends by sending them.
pub fn end_of_interrupt(irq: u8) -> (r: Vec<PortWrite>)
    ensures
        r@ == eoi_sequence(irq),
{
    let mut w: Vec<PortWrite> = Vec::new();
    if irq >= 8 {
        out(&mut w, PIC2_COMMAND, PIC_EOI);
    }
    out(&mut w, PIC1_COMMAND, PIC_EOI);
    assert(w@ =~= eoi_sequence(irq));
    w
}

/// Initialisation ends by leaving exactly IRQ0 (timer), IRQ1 and IRQ2 (cascade) of the
/// master unmasked, and every line of the slave masked.
pub proof fn law_init_masks()
    ensures
        init_sequence()[init_sequence().len() - 2] == port_write(PIC1_DATA, PIC1_MASK),
        init_sequence().last() == port_write(PIC2_DATA, PIC2_MASK),
        forall|n: u8| n < 8 ==> ((((#[trigger] (PIC1_MASK >> n)) & 1) == 0) <==> n < 3),
        forall|n: u8| n < 8 ==> ((#[trigger] (PIC2_MASK >> n)) & 1) == 1,
{
    assert(forall|n: u8| n < 8 ==> ((((#[trigger] (0b1111_1000u8 >> n)) & 1) == 0) <==> n < 3))
        by (bit_vector);
    assert(forall|n: u8| n < 8 ==> ((#[trigger] (0b1111_1111u8 >> n)) & 1) == 1) by (bit_vector);
}

/// Acknowledging an interrupt ends with an EOI command to the master, tells the slave
/// exactly for its own lines, and never touches a mask register.
pub proof fn law_eoi_acknowledges(irq: u8)
    ensures
        eoi_sequence(irq).last() == port_write(PIC1_COMMAND, PIC_EOI),
        (exists|i: int| 0 <= i < eoi_sequence(irq).len() && eoi_sequence(irq)[i] == port_write(
            PIC2_COMMAND,
            PIC_EOI,
        )) <==> irq >= 8,
        forall|i: int|
            0 <= i < eoi_sequence(irq).len() ==> eoi_sequence(irq)[i].port != PIC1_DATA
                && eoi_sequence(irq)[i].port != PIC2_DATA,
{
    if irq >= 8 {
        assert(eoi_sequence(irq)[0] == port_write(PIC2_COMMAND, PIC_EOI));
    }
}

} // verus!
