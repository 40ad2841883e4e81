use std::cell::{Cell, RefCell};

use switch_drivers::devicetree::{Node, Property};
use switch_drivers::input::gamepad::Rail;
use switch_drivers::input::joycon::{Action, Pair, Report, Side, Stage};
use switch_drivers::i2c::{Chips, Wire};
use switch_drivers::input::panel::{
    check_bus, check_panel, power_up, ready, round, start, Line, Panel,
};
use switch_drivers::input::rail::{adopt, first_deadline, first_round, Round};
use switch_drivers::input::touch::{start_again, Contacts};
use switch_drivers::mmio::{Bus, Registers, Timed};
use switch_drivers::soc::gpio::TegraGpio;

/// A panel that answers with prepared events.
struct Glass {
    events: RefCell<Vec<Vec<u8>>>,
    time: Cell<u64>,
}

impl Panel for Glass {
    fn write(&self, _data: &[u8]) -> bool {
        true
    }

    fn read(&self, _command: &[u8], length: usize) -> Option<Vec<u8>> {
        let mut events = self.events.borrow_mut();
        if events.is_empty() {
            Some(vec![0; length])
        } else {
            Some(events.remove(0))
        }
    }

    fn now_ns(&self) -> u64 {
        self.time.get()
    }

    fn sleep_ms(&self, ms: u64) {
        self.time.set(self.time.get() + ms * 1_000_000);
    }
}

fn glass(events: Vec<Vec<u8>>) -> Glass {
    Glass { events: RefCell::new(events), time: Cell::new(0) }
}

#[test]
fn a_panel_gets_ready_in_time() {
    let port = glass(vec![vec![0; 8], vec![0x10, 0, 0, 0, 0, 0, 0, 0]]);
    assert_eq!(ready(&mut Line::new(&port)), Ok(()));
    let port = glass(vec![]);
    assert_eq!(ready(&mut Line::new(&port)), Err("FTM4 ready timeout"));
    let port = glass(vec![vec![0x10]]);
    assert_eq!(ready(&mut Line::new(&port)), Err("short FTM4 read"));
}

#[test]
fn a_round_without_events_changes_nothing() {
    let port = glass(vec![]);
    let mut contacts = Contacts::new();
    assert_eq!(round(&mut Line::new(&port), &mut contacts), Ok(()));
    assert!(contacts.slots.iter().all(|slot| slot.is_none()));
}

#[test]
fn the_panel_is_the_known_one() {
    let bare = Node { name: "touch".into(), compatible: None, region: None, properties: vec![] };
    assert!(check_panel(&bare).is_err());
    assert_eq!(check_bus(3), Ok(()));
    assert!(check_bus(1).is_err());
    let other = Property { name: "reg".into(), value: vec![0, 0, 0, 1], text: None };
    let wrong = Node { properties: vec![other], ..bare };
    assert!(check_panel(&wrong).is_err());
}

#[test]
fn the_first_round_starts_the_link() {
    let mut rail = Rail::new(Side::Left);
    assert!(matches!(first_round(&mut rail, None, 5, 100), Round::Stopped));
    let mut rail = Rail::new(Side::Left);
    match first_round(&mut rail, Some(&[]), 5, 100) {
        Round::Act(Action::Start) => {}
        Round::Act(_) | Round::Idle | Round::Stopped | Round::Done(_) => panic!("no start"),
    }
    assert!(matches!(first_round(&mut rail, Some(&[]), 100, 100), Round::Stopped));
    rail.link.stage = Stage::Ready;
    let mut pair = Pair::default();
    assert!(!adopt(&mut rail, &mut pair, true, None, 42));
    assert!(rail.detected);
    assert_eq!(rail.link.last_input_ms, 42);
    assert!(!rail.first_input);
}

#[test]
fn a_first_report_is_kept_and_owed() {
    let mut rail = Rail::new(Side::Right);
    let mut pair = Pair::default();
    let report = Report { buttons: 5, x: 1, y: 2 };
    assert!(adopt(&mut rail, &mut pair, true, Some(report), 7));
    assert!(rail.first_input);
    assert_eq!(pair.halves[1], report);
    assert_eq!(pair.halves[0], Report { buttons: 0, x: 2048, y: 2048 });
}

#[test]
fn the_first_exchange_has_twelve_seconds() {
    assert_eq!(first_deadline(1), 12_001);
    assert_eq!(first_deadline(u64::MAX - 12_000), u64::MAX);
    assert_eq!(first_deadline(u64::MAX - 3), u64::MAX);
}

#[test]
fn a_panel_is_started_three_times_at_first() {
    assert_eq!(start_again(1, false), Some(10_000));
    assert_eq!(start_again(2, false), Some(10_000));
    assert_eq!(start_again(3, false), None);
    assert_eq!(start_again(1, true), None);
}

/// A board, its regulator and the panel behind it, with one common diary.
struct Bench {
    diary: RefCell<Vec<String>>,
    good: u8,
    chip: u8,
}

impl Bench {
    fn note(&self, what: String) {
        self.diary.borrow_mut().push(what);
    }
}

impl Registers for Bench {
    fn read(&self, _offset: usize) -> u32 {
        0
    }

    fn write(&self, offset: usize, value: u32) {
        self.note(format!("write {:x} {:x}", offset, value));
    }

    fn now_ns(&self) -> u64 {
        0
    }

    fn delay_us(&self, us: u64) {
        self.note(format!("delay {}", us));
    }
}

impl Timed for Bench {}

impl Chips for Bench {
    fn read(&self, _address: u8, register: u8) -> Option<u8> {
        match register {
            0x4c => Some(0),
            0x2f => Some(0xea),
            _ => Some(self.good),
        }
    }

    fn write(&self, _address: u8, register: u8, _value: u8) -> bool {
        self.note(format!("supply {:x}", register));
        true
    }

    fn delay_us(&self, _us: u64) {}
}

impl Panel for Bench {
    fn write(&self, data: &[u8]) -> bool {
        self.note(format!("panel {:02x?}", data));
        true
    }

    fn read(&self, command: &[u8], length: usize) -> Option<Vec<u8>> {
        self.note(format!("ask {:02x?}", command));
        let mut reply = vec![0; length];
        if length == 8 {
            reply[0] = 0x10;
        } else {
            reply[1] = 0x36;
            reply[2] = self.chip;
        }
        Some(reply)
    }

    fn now_ns(&self) -> u64 {
        0
    }

    fn sleep_ms(&self, ms: u64) {
        self.note(format!("sleep {}", ms));
    }
}

fn bench(good: u8, chip: u8) -> Bench {
    Bench { diary: RefCell::new(Vec::new()), good, chip }
}

fn bring_up(bench: &Bench) -> Result<(), &'static str> {
    let gpio = TegraGpio { phandle: 1 };
    let mut line = Line::new(bench);
    power_up(&mut Bus::new(bench), &gpio, &mut Wire::new(bench), &mut line, 77)?;
    start(&mut line)
}

#[test]
fn the_panel_comes_up_with_all_its_waits() {
    let working = bench(8, 0x70);
    assert_eq!(bring_up(&working), Ok(()));
    let diary = working.diary.borrow();
    let waits: Vec<&str> = diary
        .iter()
        .map(|line| line.as_str())
        .filter(|line| line.starts_with("delay") || line.starts_with("sleep"))
        .collect();
    assert_eq!(waits, vec!["delay 20", "sleep 1", "sleep 25", "sleep 10", "sleep 10"]);
    let place = |what: &str| diary.iter().position(|line| line.starts_with(what)).unwrap();
    assert!(place("delay 20") < place("supply") && place("supply") < place("sleep 1"));
    assert!(place("sleep 25") < place("panel [b6, 00, 28, 80]"));
    assert!(place("panel [b6, 00, 28, 80]") < place("ask [85]"));
    assert!(place("ask [85]") < place("ask [b6, 00, 04]"));
    assert_eq!(diary.last().unwrap(), "panel [a1]");
}

#[test]
fn a_panel_without_supply_stays_in_reset() {
    let dark = bench(0, 0x70);
    assert_eq!(bring_up(&dark), Err("touch LDO6 power-good not asserted"));
    let last = dark.diary.borrow().iter().filter(|line| line.starts_with("write")).count();
    assert_eq!(last, 4);
    assert!(!dark.diary.borrow().iter().any(|line| line.starts_with("sleep")));
    let other = bench(8, 0x71);
    assert_eq!(bring_up(&other), Err("unsupported FTM4 chip ID"));
    assert_eq!(other.diary.borrow().last().unwrap(), "ask [b6, 00, 04]");
}
