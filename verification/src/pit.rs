//! The programmable interval timer, channel 0, as the kernel's tick source.
use vstd::prelude::*;
use crate::pic::{PortWrite, port_write};

verus! {

/// Counter port of channel 0.
pub const PIT_CHANNEL0: u16 = 0x40;
/// Mode/command port.
pub const PIT_COMMAND: u16 = 0x43;
/// Channel 0, low byte then high byte, mode 3 (square wave), binary.
pub const PIT_MODE: u8 = 0x36;

/// Input clock of the timer, in Hz.
pub const PIT_BASE_FREQ: u32 = 1_193_182;

/// Tick rate the kernel asks for: 100 Hz, a tick every 10 ms.
pub const PIT_FREQ: u32 = 100;

/// The reload value for a tick rate of `PIT_FREQ`.
pub open spec fn divisor() -> u32 {
    PIT_BASE_FREQ / PIT_FREQ
}

/// The writes that program channel 0: the mode, then the divisor low byte first.
pub open spec fn init_sequence() -> Seq<PortWrite> {
    seq![
        port_write(PIT_COMMAND, PIT_MODE),
        port_write(PIT_CHANNEL0, (divisor() & 0xFF) as u8),
        port_write(PIT_CHANNEL0, ((divisor() >> 8u32) & 0xFF) as u8),
    ]
}

/// The port writes that make channel 0 tick at `PIT_FREQ`.
pub fn init() -> (r: Vec<PortWrite>)
    ensures
        r@ == init_sequence(),
{
    let divisor = PIT_BASE_FREQ / PIT_FREQ;
    let mut w: Vec<PortWrite> = Vec::new();
    w.push(PortWrite { port: PIT_COMMAND, value: PIT_MODE });
    w.push(PortWrite { port: PIT_CHANNEL0, value: (divisor & 0xFF) as u8 });
    w.push(PortWrite { port: PIT_CHANNEL0, value: ((divisor >> 8u32) & 0xFF) as u8 });
    assert(w@ =~= init_sequence());
    w
}

/// The two bytes written make up the whole divisor, which is the largest reload value
/// that does not tick slower than `PIT_FREQ`.
pub proof fn law_divisor_programmed()
    ensures
        ((divisor() & 0xFF) as u8) as u32 | ((((divisor() >> 8u32) & 0xFF) as u8) as u32) << 8u32
            == divisor(),
        divisor() * PIT_FREQ <= PIT_BASE_FREQ < (divisor() + 1) * PIT_FREQ,
{
    let d = divisor();
    assert(d == 11931);
    assert((((d & 0xFF) as u8) as u32 | ((((d >> 8u32) & 0xFF) as u8) as u32) << 8u32) == d)
        by (bit_vector)
        requires
            d == 11931,
    ;
}

/// Whole seconds since the timer started, after `ticks` ticks.
pub fn uptime_seconds(ticks: u64) -> (r: u64)
    ensures
        r == ticks / PIT_FREQ as u64,
{
    ticks / PIT_FREQ as u64
}

/// The uptime to report after `ticks` ticks when `last_sec` was reported last: the new
/// second count when it has changed, nothing otherwise.
pub fn uptime_report(ticks: u64, last_sec: u64) -> (r: Option<u64>)
    ensures
        r == (if ticks / PIT_FREQ as u64 != last_sec {
            Some(ticks / PIT_FREQ as u64)
        } else {
            None
        }),
{
    let sec = uptime_seconds(ticks);
    if sec != last_sec {
        Some(sec)
    } else {
        None
    }
}

} // verus!
