use std::cell::{Cell, RefCell};
use std::collections::VecDeque;
use switch_drivers::soc::packet::{
    normal_transfer, recover, transfer, Error, Registers, BUS_CLEAR_DONE, BUS_CLEAR_STATUS, CNFG,
    COMPLETE, FIFO_STATUS, INT_STATUS, RX, TX,
};
use switch_drivers::soc::transfer::Message;

struct Fake {
    time: Cell<u64>,
    status: u32,
    stalled: bool,
    words: RefCell<Vec<u32>>,
    rx: RefCell<VecDeque<u32>>,
}

impl Registers for Fake {
    fn now_ns(&self) -> u64 {
        let t = self.time.get();
        self.time.set(t + 100_000);
        t
    }
    fn read(&self, reg: usize) -> u32 {
        match reg {
            INT_STATUS => self.status,
            BUS_CLEAR_STATUS => u32::from(self.status & BUS_CLEAR_DONE != 0),
            FIFO_STATUS if !self.stalled => 0x80 | self.rx.borrow().len() as u32,
            RX => self.rx.borrow_mut().pop_front().unwrap(),
            _ => 0,
        }
    }
    fn write(&self, reg: usize, value: u32) {
        if reg == TX {
            self.words.borrow_mut().push(value);
        }
    }
}

fn fake(status: u32, stalled: bool) -> Fake {
    Fake {
        time: Cell::new(0),
        status,
        stalled,
        words: RefCell::new(Vec::new()),
        rx: RefCell::new(VecDeque::new()),
    }
}

#[test]
fn bus_clear_completes_or_fails_within_a_deadline() {
    assert_eq!(recover(&fake(BUS_CLEAR_DONE, false)), Ok(()));
    let r = fake(0, true);
    assert_eq!(recover(&r), Err(Error::Timeout));
    assert!(r.time.get() < 10_000_000);
}

#[test]
fn nack_and_arbitration_loss_do_not_wait_for_completion() {
    for (status, error) in [
        (8, Error::Nack),
        (4, Error::ArbitrationLost),
        (16, Error::Bus),
    ] {
        let r = fake(status, false);
        assert_eq!(transfer(&r, 0x49, &mut [0; 8], true, true), Err(error));
        assert!(r.words.borrow().is_empty());
    }
}

#[test]
fn stuck_fifo_and_missing_completion_have_deadlines() {
    for stalled in [true, false] {
        let r = fake(0, stalled);
        assert_eq!(
            transfer(&r, 0x3c, &mut [0x2f, 0xea], false, true),
            Err(Error::Timeout)
        );
        assert!(r.time.get() < 20_000_000);
    }
}

#[test]
fn repeated_start_and_partial_receive_word() {
    let r = fake(COMPLETE, false);
    transfer(&r, 0x49, &mut [0xb6, 0, 4], false, false).unwrap();
    r.rx.borrow_mut().extend([0x70360000, 0x00650001]);
    let mut data = [0; 7];
    transfer(&r, 0x49, &mut data, true, true).unwrap();
    assert_eq!(data, [0, 0, 0x36, 0x70, 1, 0, 0x65]);
    let words = r.words.borrow();
    assert_eq!(words[2] & (1 << 16), 1 << 16);
    assert_eq!(words[6] & ((1 << 16) | (1 << 19)), 1 << 19);
}

#[test]
fn invalid_payload_never_touches_hardware() {
    let r = fake(0, true);
    assert_eq!(
        transfer(&r, 0x80, &mut [1], false, true),
        Err(Error::Invalid)
    );
    assert_eq!(transfer(&r, 0x49, &mut [], true, true), Err(Error::Invalid));
    assert!(r.words.borrow().is_empty());
}

struct Normal {
    time: Cell<u64>,
    busy_reads: Cell<u32>,
    started: Cell<bool>,
    nack: bool,
    stuck: bool,
    writes: RefCell<Vec<(usize, u32)>>,
}

impl Registers for Normal {
    fn now_ns(&self) -> u64 {
        let now = self.time.get();
        self.time.set(now + 100_000);
        now
    }
    fn read(&self, reg: usize) -> u32 {
        match reg {
            0x1c if self.started.get() => {
                let reads = self.busy_reads.get();
                self.busy_reads.set(reads + 1);
                if self.stuck || reads < 2 {
                    1 << 8
                } else {
                    u32::from(self.nack)
                }
            }
            0x0c => 0x78563412,
            0x10 => 0xffdebc9a,
            _ => 0, // In particular, no packet-complete status is raised.
        }
    }
    fn write(&self, reg: usize, value: u32) {
        self.writes.borrow_mut().push((reg, value));
        if reg == CNFG && value & (1 << 9) != 0 {
            self.started.set(true);
        }
    }
}

fn normal(nack: bool, stuck: bool) -> Normal {
    Normal {
        time: Cell::new(0),
        busy_reads: Cell::new(0),
        started: Cell::new(false),
        nack,
        stuck,
        writes: RefCell::new(Vec::new()),
    }
}

#[test]
fn short_pio_read_and_write_work_without_packet_completion() {
    let r = normal(false, false);
    let mut bytes = [0; 7];
    normal_transfer(&r, 0x68, &mut bytes, true).unwrap();
    assert_eq!(bytes, [0x12, 0x34, 0x56, 0x78, 0x9a, 0xbc, 0xde]);
    assert!(r.writes.borrow().contains(&(0x04, 0xd1)));
    assert!(!r.writes.borrow().iter().any(|(reg, _)| *reg == TX));
    let r = normal(false, false);
    normal_transfer(&r, 0x49, &mut [0xb6, 0, 0x28, 0x80, 0x12], false).unwrap();
    assert!(r.writes.borrow().contains(&(0x0c, 0x802800b6)));
    assert!(r.writes.borrow().contains(&(0x10, 0x12)));
    assert!(r.writes.borrow().contains(&(0x04, 0x92)));
}

#[test]
fn short_pio_nack_and_stuck_bus_are_bounded() {
    let r = normal(true, false);
    assert_eq!(
        normal_transfer(&r, 0x68, &mut [0; 1], true),
        Err(Error::Nack)
    );
    let r = normal(false, true);
    assert_eq!(
        normal_transfer(&r, 0x68, &mut [0; 1], true),
        Err(Error::Timeout)
    );
    assert!(r.time.get() < 20_000_000);
    let r = normal(false, false);
    assert_eq!(
        normal_transfer(&r, 0x68, &mut [0; 9], true),
        Err(Error::Invalid)
    );
    assert!(r.writes.borrow().is_empty());
}

fn message(read: bool, stop: bool, data: &[u8]) -> Message {
    Message {
        address: 0x49,
        ten_bit: false,
        read,
        stop,
        other: false,
        data: data.to_vec(),
    }
}

#[test]
fn transfers_are_checked_as_a_whole() {
    use_transfer(vec![]);
    use_transfer(vec![message(false, false, &[1])]);
    use_transfer(vec![message(false, true, &[1]), message(true, true, &[])]);
    use_transfer(vec![message(false, true, &[0; 257])]);
    let mut wide = message(false, true, &[1]);
    wide.ten_bit = true;
    use_transfer(vec![message(false, true, &[1]), wide]);
    use_transfer((0..9).map(|_| message(false, true, &[1])).collect());
}

fn use_transfer(mut messages: Vec<Message>) {
    let r = normal(false, false);
    assert_eq!(
        switch_drivers::soc::transfer::transfer(&r, &mut messages),
        Err(Error::Invalid)
    );
    assert!(r.writes.borrow().is_empty());
}

#[test]
fn short_messages_need_no_packets_and_long_ones_do() {
    let r = normal(false, false);
    let mut messages = vec![message(true, true, &[0; 2])];
    assert_eq!(
        switch_drivers::soc::transfer::transfer(&r, &mut messages),
        Ok(())
    );
    assert_eq!(messages[0].data, vec![0x12, 0x34]);
    let r = fake(COMPLETE, false);
    r.rx.borrow_mut().extend([0x70360000, 0x00650001]);
    let mut messages = vec![message(false, false, &[0xb6, 0, 4]), message(true, true, &[0; 7])];
    assert_eq!(
        switch_drivers::soc::transfer::transfer(&r, &mut messages),
        Ok(())
    );
    assert_eq!(messages[0].data, vec![0xb6, 0, 4]);
    assert_eq!(messages[1].data, vec![0, 0, 0x36, 0x70, 1, 0, 0x65]);
    assert_eq!(r.words.borrow().len(), 7);
}

#[test]
fn failed_transfers_say_why() {
    for (status, error) in [
        (8, Error::Nack),
        (4, Error::ArbitrationLost),
        (16, Error::Bus),
        (0, Error::Timeout),
    ] {
        let r = fake(status, true);
        let mut messages = vec![message(false, false, &[1]), message(true, true, &[5, 6, 7])];
        assert_eq!(
            switch_drivers::soc::transfer::transfer(&r, &mut messages),
            Err(error)
        );
        assert_eq!(messages[1].data, vec![5, 6, 7]);
    }
}

#[test]
fn a_broken_off_read_keeps_the_bytes_that_did_not_come() {
    let r = fake(0, false);
    r.rx.borrow_mut().push_back(0x0403_0201);
    let mut data = [9; 7];
    assert_eq!(transfer(&r, 0x49, &mut data, true, true), Err(Error::Timeout));
    assert_eq!(data, [1, 2, 3, 4, 9, 9, 9]);
    let mut short = [7; 2];
    assert_eq!(normal_transfer(&fake(8, false), 0x49, &mut short, true), Err(Error::Nack));
    assert_eq!(short, [7, 7]);
}
