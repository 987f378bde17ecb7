use vados::pic::{end_of_interrupt, init as pic_init, PortWrite, PIC1_OFFSET, PIC2_OFFSET};
use vados::pit::{init as pit_init, uptime_report, uptime_seconds, PIT_FREQ};

fn pairs(w: &[PortWrite]) -> Vec<(u16, u8)> {
    w.iter().map(|x| (x.port, x.value)).collect()
}

#[test]
fn pic_init_sequence() {
    let w = pic_init();
    assert_eq!(
        pairs(&w),
        vec![
            (0x20, 0x11), (0x80, 0),
            (0xA0, 0x11), (0x80, 0),
            (0x21, 0x20), (0x80, 0),
            (0xA1, 0x28), (0x80, 0),
            (0x21, 0x04), (0x80, 0),
            (0xA1, 0x02), (0x80, 0),
            (0x21, 0x01), (0x80, 0),
            (0xA1, 0x01), (0x80, 0),
            (0x21, 0xF8),
            (0xA1, 0xFF),
        ]
    );
    assert_eq!(PIC1_OFFSET, 0x20);
    assert_eq!(PIC2_OFFSET, 0x28);
}

#[test]
fn pic_end_of_interrupt() {
    assert_eq!(pairs(&end_of_interrupt(0)), vec![(0x20, 0x20)]);
    assert_eq!(pairs(&end_of_interrupt(7)), vec![(0x20, 0x20)]);
    assert_eq!(pairs(&end_of_interrupt(8)), vec![(0xA0, 0x20), (0x20, 0x20)]);
    assert_eq!(pairs(&end_of_interrupt(15)), vec![(0xA0, 0x20), (0x20, 0x20)]);
}

#[test]
fn pit_programs_100_hz() {
    assert_eq!(PIT_FREQ, 100);
    // 1_193_182 / 100 = 11931 = 0x2E9B.
    assert_eq!(pairs(&pit_init()), vec![(0x43, 0x36), (0x40, 0x9B), (0x40, 0x2E)]);
}

#[test]
fn uptime() {
    assert_eq!(uptime_seconds(0), 0);
    assert_eq!(uptime_seconds(99), 0);
    assert_eq!(uptime_seconds(250), 2);
    assert_eq!(uptime_report(250, 1), Some(2));
    assert_eq!(uptime_report(250, 2), None);
    assert_eq!(uptime_report(0, 0), None);
}
