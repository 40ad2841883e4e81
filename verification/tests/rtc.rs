use std::cell::{Cell, RefCell};
use switch_drivers::rtc::calendar::decode_epoch_seconds;
use switch_drivers::rtc::session::{
    read_epoch, Registers, READ_UPDATE, TIMEOUT_NS, UPDATE, WRITE_UPDATE,
};
use switch_drivers::rtc::supply::{check_bus, epoch_ns, next_attempt, pause_us, Attempt};

#[test]
fn binary_calendar_epochs_and_century_leap_rule() {
    assert_eq!(
        decode_epoch_seconds(2, [0, 0, 0, 1, 1, 0, 1]),
        Ok(946684800)
    );
    assert_eq!(
        decode_epoch_seconds(2, [0, 0, 0, 1, 2, 24, 29]),
        Ok(1709164800)
    );
    assert_eq!(
        decode_epoch_seconds(2, [0, 0, 0, 1, 3, 100, 1]),
        Ok(4107542400)
    );
    assert!(decode_epoch_seconds(2, [0, 0, 0, 1, 2, 100, 29]).is_err());
}

#[test]
fn bcd_december_and_12_hour_midnight_noon() {
    let midnight = [0x59, 0x58, 0x12, 1, 0x12, 0x24, 0x31];
    let mut noon = midnight;
    noon[2] |= 0x40;
    assert_eq!(
        decode_epoch_seconds(1, noon).unwrap() - decode_epoch_seconds(1, midnight).unwrap(),
        43200
    );
    let mut binary = [59, 58, 0, 1, 12, 24, 31];
    assert_eq!(
        decode_epoch_seconds(1, midnight),
        decode_epoch_seconds(2, binary)
    );
    binary[2] = 12;
    assert_eq!(
        decode_epoch_seconds(1, noon),
        decode_epoch_seconds(2, binary)
    );
}

#[test]
fn corrupt_and_impossible_dates_are_rejected() {
    for regs in [
        [60, 0, 0, 1, 1, 24, 1],
        [0, 0, 24, 1, 1, 24, 1],
        [0, 0, 0, 1, 0, 24, 1],
        [0, 0, 0, 1, 4, 24, 31],
    ] {
        assert!(decode_epoch_seconds(2, regs).is_err());
    }
    assert!(decode_epoch_seconds(3, [0x6a, 0, 0, 1, 1, 0, 1]).is_err());
}

struct Fake {
    now: Cell<u64>,
    latch: Cell<Option<u64>>,
    writes: RefCell<Vec<(u8, u8)>>,
    stuck: bool,
    delayed_wake: bool,
}

impl Registers for Fake {
    fn read(&self, reg: u8, out: &mut [u8]) -> Result<(), &'static str> {
        match reg {
            UPDATE => {
                out[0] = 0x20
                    | if self.stuck || self.now.get() < 2_000_000 {
                        WRITE_UPDATE
                    } else if self.latch.get().is_some_and(|until| self.now.get() < until) {
                        READ_UPDATE
                    } else {
                        0
                    }
            }
            3 => out[0] = 2,
            7 => {
                assert!(
                    self.latch
                        .get()
                        .is_some_and(|until| self.now.get() >= until)
                );
                out.copy_from_slice(&[0, 0, 0, 1, 2, 24, 29]);
            }
            _ => panic!("unexpected RTC register read"),
        }
        Ok(())
    }
    fn write(&self, reg: u8, value: u8) -> Result<(), &'static str> {
        self.writes.borrow_mut().push((reg, value));
        self.latch.set(Some(self.now.get() + 16_000_000));
        Ok(())
    }
    fn now_ns(&self) -> u64 {
        self.now.get()
    }
    fn wait_ms(&self, millis: u64) {
        let elapsed = if self.delayed_wake && millis == 16 {
            300
        } else {
            millis
        };
        self.now.set(self.now.get() + elapsed * 1_000_000);
    }
}

fn fake(stuck: bool, delayed_wake: bool) -> Fake {
    Fake {
        now: Cell::new(0),
        latch: Cell::new(None),
        writes: RefCell::new(Vec::new()),
        stuck,
        delayed_wake,
    }
}

#[test]
fn waits_for_firmware_update_and_reads_a_latched_calendar() {
    let r = fake(false, false);
    assert_eq!(read_epoch(&r), Ok(1709164800));
    assert_eq!(&*r.writes.borrow(), &[(UPDATE, 0x30)]);
    assert!(r.now.get() >= 18_000_000);
}

#[test]
fn delayed_task_wake_does_not_invalidate_a_completed_latch() {
    assert_eq!(read_epoch(&fake(false, true)), Ok(1709164800));
}

#[test]
fn stuck_firmware_write_times_out_without_any_rtc_write() {
    let r = fake(true, false);
    assert_eq!(read_epoch(&r), Err("RTC update busy"));
    assert!(r.writes.borrow().is_empty());
    assert_eq!(r.now.get(), TIMEOUT_NS);
}

#[test]
fn later_moments_are_greater_seconds() {
    let second = |s| decode_epoch_seconds(2, [s, 59, 23, 1, 12, 99, 31]).unwrap();
    assert_eq!(second(59), second(58) + 1);
    let next = decode_epoch_seconds(2, [0, 0, 0, 1, 1, 100, 1]).unwrap();
    assert_eq!(next, second(59) + 1);
}

#[test]
fn moments_in_nanoseconds_may_overflow() {
    assert_eq!(epoch_ns(1709164800), Ok(1709164800_000_000_000));
    assert_eq!(epoch_ns(18_446_744_073), Ok(18_446_744_073_000_000_000));
    assert_eq!(epoch_ns(18_446_744_074), Err("RTC epoch overflow"));
    assert_eq!(check_bus(5), Ok(()));
    assert_eq!(check_bus(1), Err("unsupported MAX77620 wiring"));
}

#[test]
fn a_clock_that_is_never_read_is_asked_eleven_times() {
    let mut next = Some(Attempt::Early(1));
    let mut made = vec![];
    while let Some(attempt) = next {
        made.push((attempt, pause_us(attempt)));
        next = next_attempt(attempt, false);
    }
    let mut expected = vec![
        (Attempt::Early(1), 0),
        (Attempt::Early(2), 10_000),
        (Attempt::Early(3), 10_000),
    ];
    for n in 1..=8 {
        expected.push((Attempt::Late(n), 1_000_000));
    }
    assert_eq!(made, expected);
    assert_eq!(next_attempt(Attempt::Early(2), true), None);
    assert_eq!(next_attempt(Attempt::Late(4), true), None);
}
