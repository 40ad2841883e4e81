use std::cell::{Cell, RefCell};
use std::collections::HashMap;

use switch_drivers::audio::codec::{Codec, CodecPort};
use switch_drivers::audio::link;
use switch_drivers::audio::platform::audio_clock;
use switch_drivers::audio::ring::{check_stream, Progress, Ring, StreamParams};
use switch_drivers::cpu::clock::{divisor, pll_rate, pllx_rate, reference_of, source_of};
use switch_drivers::cpu::policy::{check_assigned, operating_points, snapshot, Limits};
use switch_drivers::cpu::voltage::{
    bank, cpu_speedo, fuse_revision, lower_voltage, prepare_voltage, required_voltage,
    rounded_voltage, voltage_selector,
};
use switch_drivers::devicetree::{Node, Property};
use switch_drivers::gpu::rail;
use switch_drivers::i2c::{Chips, Wire};
use switch_drivers::mmc;
use switch_drivers::mmio::{Bus, Registers, Timed};
use switch_drivers::power::probe::{check_gauge, identity};
use switch_drivers::random::probe::{check_page, check_source, check_translation};
use switch_drivers::rounding::{closest, divide};
use switch_drivers::rtc::supply;
use switch_drivers::soc::clocks::{cooling_fan_ready, fan_pwm_value, reference_hz};
use switch_drivers::soc::gpio;
use switch_drivers::soc::gpio::TegraGpio;
use switch_drivers::soc::host1x::Syncpoints;
use switch_drivers::soc::instances;
use switch_drivers::soc::instances::GateError;
use switch_drivers::soc::sdmmc::SdmmcPlatform;
use switch_drivers::soc::soctherm::{precise_div, sensor, sensor_calibration, signed, translate};
use switch_drivers::soc::uart::UartRxInterrupt;
use switch_drivers::soc::thermal::{gpu_cap, measure_skin, reading, set_fan_state, skin, Tmp451};

/// Registers that keep what is written to them.
struct Board {
    registers: RefCell<HashMap<usize, u32>>,
    writes: RefCell<Vec<(usize, u32)>>,
    time: Cell<u64>,
}

impl Board {
    fn new(values: &[(usize, u32)]) -> Self {
        Board {
            registers: RefCell::new(values.iter().cloned().collect()),
            writes: RefCell::new(Vec::new()),
            time: Cell::new(0),
        }
    }
}

impl Registers for Board {
    fn read(&self, offset: usize) -> u32 {
        *self.registers.borrow().get(&offset).unwrap_or(&0)
    }

    fn write(&self, offset: usize, value: u32) {
        self.writes.borrow_mut().push((offset, value));
        self.registers.borrow_mut().insert(offset, value);
    }

    fn now_ns(&self) -> u64 {
        self.time.set(self.time.get() + 1_000);
        self.time.get()
    }

    fn delay_us(&self, us: u64) {
        self.time.set(self.time.get() + us * 1_000);
    }
}

impl Timed for Board {}

/// Chips that keep what is written to them. One register may refuse.
struct Shelf {
    registers: RefCell<HashMap<(u8, u8), u8>>,
    writes: RefCell<Vec<(u8, u8, u8)>>,
    refuses: Option<(u8, u8)>,
    stuck: Option<(u8, u8)>,
}

impl Shelf {
    fn new(values: &[((u8, u8), u8)]) -> Self {
        Shelf {
            registers: RefCell::new(values.iter().cloned().collect()),
            writes: RefCell::new(Vec::new()),
            refuses: None,
            stuck: None,
        }
    }
}

impl Chips for Shelf {
    fn read(&self, address: u8, register: u8) -> Option<u8> {
        self.registers.borrow().get(&(address, register)).copied()
    }

    fn write(&self, address: u8, register: u8, value: u8) -> bool {
        self.writes.borrow_mut().push((address, register, value));
        if self.refuses == Some((address, register)) {
            return false;
        }
        if self.stuck != Some((address, register)) {
            self.registers.borrow_mut().insert((address, register), value);
        }
        true
    }

    fn delay_us(&self, _us: u64) {}
}

fn device(fields: &[(&str, &[u32])]) -> Node {
    let mut properties = Vec::new();
    for (name, values) in fields {
        let mut value = Vec::new();
        for v in values.iter() {
            value.extend_from_slice(&v.to_be_bytes());
        }
        properties.push(Property { name: (*name).into(), value, text: None });
    }
    Node { name: "device".into(), compatible: None, region: None, properties }
}

#[test]
fn division_rounds_towards_zero() {
    assert_eq!(divide(7, 2), 3);
    assert_eq!(divide(-7, 2), -3);
    assert_eq!(closest(149), 1);
    assert_eq!(closest(150), 2);
    assert_eq!(closest(-150), -2);
}

#[test]
fn rates_stay_below_what_is_asked() {
    let rate = pll_rate(38_400_000, 1_020_000).unwrap();
    assert_eq!((rate.m, rate.n, rate.p, rate.freq_khz), (2, 106, 1, 1_017_600));
    let rate = pll_rate(38_400_000, 612_000).unwrap();
    assert_eq!((rate.m, rate.n, rate.p, rate.freq_khz), (2, 95, 2, 608_000));
    let rate = pll_rate(38_400_000, 204_000).unwrap();
    assert_eq!((rate.m, rate.n, rate.p, rate.freq_khz), (2, 85, 6, 204_000));
    for khz in [100_000u64, 306_000, 918_000, 1_224_000, 1_785_000] {
        if let Some(rate) = pll_rate(38_400_000, khz) {
            assert!(rate.freq_khz <= khz);
        }
    }
    assert!(pll_rate(26_000_000, 612_000).is_none());
    assert!(pll_rate(38_400_000, 0).is_none());
    assert_eq!(divisor(16), Some(32));
    assert_eq!(divisor(17), None);
    assert!(reference_of(0x5000_0000).is_ok());
    assert!(reference_of(0x9000_0000).is_err());
    assert!(source_of(0).is_err());
    assert!(pllx_rate(0, 38_400_000).is_none());
}

#[test]
fn voltages_round_up_to_a_step() {
    assert_eq!(voltage_selector(606_250), Ok(0));
    assert_eq!(voltage_selector(606_251), Ok(1));
    assert_eq!(voltage_selector(1_257_000), Ok(105));
    assert_eq!(voltage_selector(1_257_001), Err("CPU voltage outside ODN limits"));
    assert_eq!(voltage_selector(606_249), Err("CPU voltage outside ODN limits"));
    assert_eq!(rounded_voltage(950_000), Ok(950_000));
    assert_eq!(rounded_voltage(950_001), Ok(956_250));
}

#[test]
fn rates_need_their_voltage() {
    assert_eq!(required_voltage(918_000, 2000), Ok(950_000));
    assert_eq!(required_voltage(1_020_000, 2000), Ok(1_112_500));
    assert_eq!(required_voltage(1_020_001, 2000), Err("CPU rate outside normal range"));
    assert_eq!(cpu_speedo(0x83, 2000, 3), Ok(2000));
    assert_eq!(cpu_speedo(0x83, 2000, 2), Ok(1996));
    assert_eq!(cpu_speedo(0x83, 2000, 1), Ok(2100));
    assert_eq!(
        cpu_speedo(0x84, 2000, 3),
        Err("CPU CVB table currently requires Erista ODN SKU 0x83")
    );
    assert_eq!(cpu_speedo(0x83, 4001, 3), Err("invalid CPU speedo fuse"));
    assert_eq!(fuse_revision(1, 0, 3), 5);
}

#[test]
fn operating_points_are_ordered_and_bounded() {
    let mut table = Vec::new();
    for khz in [1_020_000u32, 204_000, 612_000, 612_000, 1_224_000] {
        table.extend_from_slice(&khz.to_be_bytes());
    }
    let limits = Limits {
        max_khz: 1_020_000,
        reference_hz: 38_400_000,
        speedo: 2000,
        min_uv: 900_000,
        max_uv: 1_200_000,
    };
    let points = operating_points(&table, &limits, 16).unwrap();
    let shown: Vec<(u64, u32)> =
        points.iter().map(|p| (p.clock.freq_khz, p.voltage_uv)).collect();
    assert_eq!(
        shown,
        vec![(204_000, 950_000), (608_000, 950_000), (1_017_600, 1_112_500)]
    );
    let narrow = Limits { max_uv: 1_000_000, ..limits };
    assert_eq!(
        operating_points(&table, &narrow, 16).err(),
        Some("CPU CVB voltage outside regulator limits")
    );
    let seen = snapshot(&points, 1, Some(204_000)).unwrap();
    assert_eq!(seen.current_pstate, Some(0));
    assert_eq!(seen.target_freq_khz, 608_000);
    assert_eq!(seen.max_freq_khz, 1_017_600);
    assert!(snapshot(&points, 3, None).is_none());
    assert_eq!(check_assigned(&vec![None, Some(4)], 4), Ok(()));
    assert_eq!(
        check_assigned(&vec![None, Some(3)], 4),
        Err("no CPUs assigned to Tegra frequency policy")
    );
}

#[test]
fn preparation_raises_and_settling_lowers() {
    let shelf = Shelf::new(&[((0x1b, 0), 0xb7), ((0x1b, 1), 0xd0)]);
    let mut wire = Wire::new(&shelf);
    assert_eq!(bank(&mut wire, 0), Ok(0xb7));
    assert_eq!(prepare_voltage(&mut wire, 1_000_000), Ok(()));
    assert_eq!(*shelf.writes.borrow(), vec![(0x1b, 0, 0xbf)]);
    assert_eq!(lower_voltage(&mut wire, 950_000), Ok(()));
    assert_eq!(
        *shelf.writes.borrow(),
        vec![(0x1b, 0, 0xbf), (0x1b, 0, 0xb7), (0x1b, 1, 0xb7)]
    );
    assert_eq!(
        prepare_voltage(&mut wire, 2_000_000),
        Err("CPU voltage outside ODN limits")
    );
}

#[test]
fn failures_of_the_regulator_are_told() {
    let off = Shelf::new(&[((0x1b, 0), 0x37), ((0x1b, 1), 0xb7)]);
    assert_eq!(
        prepare_voltage(&mut Wire::new(&off), 1_000_000),
        Err("CPU MAX77621 voltage bank is disabled")
    );
    let silent = Shelf::new(&[]);
    assert_eq!(
        prepare_voltage(&mut Wire::new(&silent), 1_000_000),
        Err("CPU MAX77621 voltage read failed")
    );
    let mut stuck = Shelf::new(&[((0x1b, 0), 0xb7), ((0x1b, 1), 0xb7)]);
    stuck.stuck = Some((0x1b, 0));
    assert_eq!(
        prepare_voltage(&mut Wire::new(&stuck), 1_000_000),
        Err("CPU MAX77621 voltage readback mismatch")
    );
    let mut deaf = Shelf::new(&[((0x1b, 0), 0xb7), ((0x1b, 1), 0xb7)]);
    deaf.refuses = Some((0x1b, 1));
    assert_eq!(
        lower_voltage(&mut Wire::new(&deaf), 1_000_000),
        Err("CPU MAX77621 voltage write failed")
    );
}

#[test]
fn the_graphics_rail_goes_to_one_volt_and_back() {
    let values = [((0x1c, 0), 0xa0), ((0x1c, 1), 0xa1), ((0x3c, 0x3c), 0x02), ((0x3c, 0x40), 0x40)];
    let shelf = Shelf::new(&values);
    let mut wire = Wire::new(&shelf);
    let before = rail::snapshot(&mut wire).unwrap();
    assert_eq!((before.vout, before.dvs, before.gpio, before.alternate), (0xa0, 0xa1, 2, 0x40));
    assert_eq!(rail::enable(&mut wire), Ok(()));
    assert_eq!(shelf.read(0x1c, 0), Some(0xbf));
    assert_eq!(shelf.read(0x3c, 0x3c), Some(0x09));
    assert_eq!(rail::restore(&mut wire, before), Ok(()));
    for ((address, register), value) in values {
        assert_eq!(shelf.read(address, register), Some(value));
    }
    let mut stuck = Shelf::new(&values);
    stuck.stuck = Some((0x1c, 1));
    assert_eq!(
        rail::enable(&mut Wire::new(&stuck)),
        Err("GPU MAX77621 voltage readback mismatch")
    );
}

#[test]
fn the_processor_is_identified_with_its_outputs_masked() {
    let board = Board::new(&[(0, 0x12b0_00a1), (0x100, 5), (0x104, 6)]);
    assert_eq!(rail::identify(&mut Bus::new(&board)), Ok((0x12b0_00a1, 5, 6)));
    assert_eq!(*board.writes.borrow(), vec![(0x140, 0), (0x144, 0)]);
    let other = Board::new(&[(0, 0x1240_00a1)]);
    assert_eq!(rail::identify(&mut Bus::new(&other)), Err("GPU identity is not GM20B"));
}

#[test]
fn a_stuck_memory_client_is_released() {
    let board = Board::new(&[(0x7001_9974, 0)]);
    assert_eq!(rail::flush_mc(&mut Bus::new(&board)), Err("GPU MC flush timeout"));
    assert_eq!(board.read(0x7001_9970) & 4, 0);
    let ready = Board::new(&[(0x7001_9974, 4)]);
    assert_eq!(rail::flush_mc(&mut Bus::new(&ready)), Ok(()));
    let busy = Board::new(&[(0x7001_9970, 4)]);
    assert_eq!(
        rail::flush_mc(&mut Bus::new(&busy)),
        Err("GPU MC client was already in hot reset")
    );
}

#[test]
fn temperatures_follow_their_readings() {
    assert_eq!(reading(4, 0x80, 0), 64_000);
    assert_eq!(reading(0, 25, 0x80), 25_500);
    assert_eq!(reading(4, 0, 0), -64_000);
    assert!(reading(0, 25, 0x80) <= reading(0, 25, 0x90));
    assert_eq!(skin(40_000, 40_000), 38_028);
    assert!(skin(60_000, 40_000) >= skin(50_000, 40_000));
    assert_eq!(translate(0x1980), 25_500);
    assert_eq!(translate(0x0a01), -10_000);
    assert_eq!(signed(0x3f, 6), -1);
    assert_eq!(signed(0x1f, 6), 31);
    assert_eq!(precise_div(1, 0), Err("SOCTHERM fuse calibration has zero divisor"));
    assert_eq!(precise_div(i64::MAX, 1), Err("SOCTHERM fuse calibration overflow"));
    assert_eq!(
        sensor_calibration(0, 1, sensor(0)),
        Err("SOCTHERM fuse shadow is unavailable")
    );
    assert_eq!(
        sensor_calibration(1, 1, sensor(0)),
        Err("SOCTHERM fuse calibration is implausible")
    );
}

#[test]
fn the_case_is_felt_at_two_places() {
    let shelf = Shelf::new(&[
        ((0x4c, 0x02), 0),
        ((0x4c, 0x03), 0x04),
        ((0x4c, 0x00), 64 + 40),
        ((0x4c, 0x15), 0),
        ((0x4c, 0x01), 64 + 40),
        ((0x4c, 0x10), 0),
    ]);
    let mut wire = Wire::new(&shelf);
    assert_eq!(measure_skin(&Tmp451 {}, &mut wire), Ok(38_028));
    assert!(shelf.writes.borrow().is_empty());
    let open = Shelf::new(&[((0x4c, 0x02), 4)]);
    assert_eq!(
        measure_skin(&Tmp451 {}, &mut Wire::new(&open)),
        Err("TMP451 remote diode open")
    );
}

#[test]
fn cooling_halves_the_clock_and_turns_the_fan() {
    assert_eq!(gpu_cap(0), Ok(307_200));
    assert_eq!(gpu_cap(1), Ok(153_600));
    assert_eq!(gpu_cap(2), Ok(76_800));
    assert_eq!(gpu_cap(3), Err("invalid GM20B thermal cooling state"));
    assert_eq!(fan_pwm_value(0), 0x8100_0000);
    assert_eq!(fan_pwm_value(255), 0x8001_0000);
    assert!(fan_pwm_value(100) > fan_pwm_value(101));
    let board = Board::new(&[]);
    let mut bus = Bus::new(&board);
    assert_eq!(set_fan_state(&mut bus, 256), Err("invalid Switch fan state"));
    assert!(board.writes.borrow().is_empty());
    assert_eq!(set_fan_state(&mut bus, 128), Ok(()));
    assert_eq!(*board.writes.borrow(), vec![(0x7000_a010, 0x8080_0000)]);
    assert!(cooling_fan_ready(true, true));
    assert!(!cooling_fan_ready(true, false));
}

#[test]
fn oscillators_have_their_settings() {
    assert_eq!(reference_hz(0x5000_0000), Some(38_400_000));
    assert_eq!(reference_hz(0x8000_0000), Some(12_000_000));
    let clock = audio_clock(0x5000_0000).unwrap();
    assert_eq!((clock.m, clock.n, clock.sdm), (3, 57, 0x0333));
    let clock = audio_clock(0x8000_0000).unwrap();
    assert_eq!((clock.m, clock.n, clock.sdm), (1, 61, 0xfe15));
    assert_eq!(audio_clock(0).err(), Some("audio oscillator unsupported"));
    assert_eq!(audio_clock(0x5400_0000).err(), Some("audio PLL reference unsupported"));
}

#[test]
fn lines_have_a_bank_and_a_bit() {
    assert_eq!(gpio::line(31), None);
    assert_eq!(gpio::line(32), Some((0, 0)));
    assert_eq!(gpio::line(223), Some((5, 31)));
    assert_eq!(gpio::line(224), None);
}

#[test]
fn gates_open_and_close_one_by_one() {
    let board = Board::new(&[]);
    let mut bus = Bus::new(&board);
    instances::start_gates(&mut bus);
    assert_eq!(board.writes.borrow().len(), 12);
    assert_eq!(board.writes.borrow()[0], (0x6000_4028, u32::MAX));
    assert_eq!(board.writes.borrow()[11], (0x6000_452c, 0));
    assert_eq!(instances::mask(&mut bus, 70), Ok(()));
    assert_eq!(*board.writes.borrow().last().unwrap(), (0x6000_4128, 0x40));
    assert_eq!(instances::unmask(&mut bus, 70), Err(GateError::HardwareError));
    assert_eq!(instances::eoi(&mut bus, 31), Err(GateError::InvalidInterruptId));
    assert_eq!(instances::eoi(&mut bus, 32), Ok(()));
    assert_eq!(*board.writes.borrow().last().unwrap(), (0x6000_401c, 1));
}

#[test]
fn controllers_are_known_by_their_address() {
    let fast = device(&[("clock-frequency", &[400_000])]);
    let slow = device(&[("clock-frequency", &[100_000])]);
    assert_eq!(instances::i2c_instance(&slow, Some(0x7000_c000)).unwrap().reset, 12);
    assert_eq!(instances::i2c_instance(&fast, Some(0x7000_d000)).unwrap().number, 5);
    assert_eq!(
        instances::i2c_instance(&fast, Some(0x7000_c000)).err(),
        Some("unsupported Tegra I2C bus frequency")
    );
    assert_eq!(instances::i2c_instance(&fast, None).err(), Some("I2C has no MMIO"));
    assert_eq!(
        instances::i2c_instance(&fast, Some(0x7000_c700)).err(),
        Some("Tegra I2C instance not supported yet")
    );
    assert_eq!(instances::uart_instance(Some(0x7000_6200)).unwrap().clock, 55);
    assert_eq!(instances::uart_instance(None).err(), Some("UART has no MMIO"));
    assert_eq!(
        instances::resource(&vec![(0x1000, 0x40), (0x2000, 0x80)], 0x2000, 0x40),
        Ok(0x80)
    );
    assert_eq!(
        instances::resource(&vec![(0x1000, 0x40)], 0x1000, 0x80),
        Err("truncated Tegra peripheral resource")
    );
    let wired = device(&[("clocks", &[7, 12]), ("resets", &[7, 12])]);
    assert_eq!(instances::validate(&wired, 7, 12, 12), Ok(()));
    assert_eq!(
        instances::validate(&wired, 8, 12, 12),
        Err("unsupported Tegra clock/reset wiring")
    );
    assert_eq!(
        instances::check_inversion(&wired),
        Err("rail UART requires TX/RTS inversion")
    );
    assert_eq!(
        instances::check_gates(&wired),
        Err("invalid Tegra210 LIC interrupt hierarchy")
    );
}

#[test]
fn buses_are_prepared_pad_by_pad() {
    let board = Board::new(&[]);
    let mut bus = Bus::new(&board);
    let slow = device(&[("clock-frequency", &[100_000])]);
    let instance = instances::i2c_instance(&slow, Some(0x7000_c000)).unwrap();
    assert_eq!(instances::prepare_i2c(&mut bus, &TegraGpio { phandle: 1 }, instance), Ok(()));
    let writes = board.writes.borrow();
    assert_eq!(writes[0], (0x7000_30bc, 0x40));
    assert_eq!(writes[1], (0x7000_30c0, 0x40));
    assert!(writes.contains(&(0x6000_6124, 0xc000_0003)));
}

#[test]
fn synchronisation_points_are_given_once() {
    let mut points = Syncpoints::new();
    for id in 32..192 {
        assert_eq!(points.allocate().unwrap().id(), id);
    }
    assert_eq!(points.allocate().err(), Some("host1x syncpoints exhausted"));
}

#[test]
fn the_card_slot_is_the_known_one() {
    let slot = device(&[
        ("bus-width", &[4]),
        ("no-mmc", &[]),
        ("no-sdio", &[]),
        ("clocks", &[7, 14]),
        ("cd-gpios", &[8, 201, 0]),
    ]);
    assert_eq!(mmc::check_slot(&slot, Some((0x700b_0000, 0x200))), Ok((7, 8)));
    assert_eq!(mmc::check_slot(&slot, None), Err("Tegra SDHCI has no registers"));
    assert_eq!(
        mmc::check_slot(&slot, Some((0x700b_0000, 0x1ff))),
        Err("Tegra SDHCI currently supports the SDMMC1 four-bit memory slot")
    );
    let host = mmc::TegraSdhci::new(&slot);
    assert_eq!((host.tap, host.trim, host.calibration_offsets), (4, 2, 0x7d));
    let far = device(&[("tap-delay", &[300]), ("trim-delay", &[40]), ("calib-3v3-offsets", &[u32::MAX])]);
    let host = mmc::TegraSdhci::new(&far);
    assert_eq!((host.tap, host.trim, host.calibration_offsets), (255, 31, 0x7f7f));
}

#[test]
fn calibration_gives_the_clock_back() {
    let board = Board::new(&[(0x700b_002c, 0x0107)]);
    let platform = SdmmcPlatform { gpio: TegraGpio { phandle: 1 } };
    let mut host = mmc::TegraSdhci::new(&device(&[]));
    let mut bus = Bus::new(&board);
    host.calibrate(&mut bus, &platform);
    assert_eq!(board.read(0x700b_002c), 0x0107);
    let first = board.writes.borrow()[0];
    assert_eq!(first, (0x700b_002c, 0x0103));
    let at = host.last_calibration_ns;
    assert!(at > 0);
    assert!(host.prepare_command(&mut bus, &platform, true, 17));
    assert_eq!(host.last_calibration_ns, at);
    assert!(!host.prepare_command(&mut bus, &platform, false, 17));
    board.time.set(at + mmc::CALIBRATION_NS);
    assert!(host.prepare_command(&mut bus, &platform, true, 12));
    assert_eq!(host.last_calibration_ns, at);
    assert!(host.prepare_command(&mut bus, &platform, true, 17));
    assert!(host.last_calibration_ns > at);
}

#[test]
fn card_supplies_are_read_back() {
    let shelf = Shelf::new(&[((0x3c, 0x48), 1), ((0x3c, 0x27), 0x32), ((0x3c, 0x28), 8)]);
    let mut wire = Wire::new(&shelf);
    assert_eq!(supply::set_sd_io_supply(&mut wire, true), Ok(()));
    assert_eq!(*shelf.writes.borrow(), vec![(0x3c, 0x48, 0xc1), (0x3c, 0x27, 0xf2)]);
    assert_eq!(supply::set_sd_io_supply(&mut wire, false), Ok(()));
    assert_eq!(shelf.read(0x3c, 0x27), Some(0x32));
    let low = Shelf::new(&[((0x3c, 0x48), 1), ((0x3c, 0x27), 0x32), ((0x3c, 0x28), 0)]);
    assert_eq!(
        supply::set_sd_io_supply(&mut Wire::new(&low), true),
        Err("SD LDO2 power-good not asserted")
    );
    let mut stuck = Shelf::new(&[((0x3c, 0x48), 1), ((0x3c, 0x27), 0x32), ((0x3c, 0x28), 8)]);
    stuck.stuck = Some((0x3c, 0x27));
    assert_eq!(
        supply::set_sd_io_supply(&mut Wire::new(&stuck), true),
        Err("SD LDO2 readback mismatch")
    );
}

#[test]
fn the_touch_supply_steps_up() {
    let shelf = Shelf::new(&[((0x3c, 0x4c), 0), ((0x3c, 0x2f), 0x3f), ((0x3c, 0x30), 8)]);
    assert_eq!(supply::enable_touch_supply(&mut Wire::new(&shelf)), Ok(()));
    assert_eq!(
        *shelf.writes.borrow(),
        vec![(0x3c, 0x4c, 0xc0), (0x3c, 0x2f, 0x2a), (0x3c, 0x2f, 0xea)]
    );
    assert_eq!(
        supply::enable_touch_supply(&mut Wire::new(&Shelf::new(&[]))),
        Err("MAX77620 I2C read failed")
    );
    assert_eq!(supply::epoch_ns(2), Ok(2_000_000_000));
    assert_eq!(supply::epoch_ns(u64::MAX), Err("RTC epoch overflow"));
    assert_eq!(supply::check_bus(4), Err("unsupported MAX77620 wiring"));
    assert_eq!(supply::check_address(&device(&[("reg", &[0x3c])])), Ok(()));
    assert_eq!(
        supply::check_address(&device(&[("reg", &[0x3d])])),
        Err("unexpected MAX77620 address")
    );
}

#[test]
fn the_random_source_is_the_known_one() {
    let known = device(&[("clocks", &[7, 127, 7, 149])]);
    assert_eq!(check_source(&known, Some(0x808)), Ok(7));
    assert_eq!(check_source(&known, None), Err("unexpected SE resource"));
    assert_eq!(check_source(&known, Some(0x807)), Err("truncated SE resource"));
    assert_eq!(
        check_source(&device(&[]), Some(0x808)),
        Err("SE clock provider missing")
    );
    assert_eq!(
        check_source(&device(&[("clocks", &[7, 127, 8, 149])]), Some(0x808)),
        Err("unexpected SE/entropy clocks")
    );
    assert_eq!(check_page(0x8000_1000), Ok(0x8000_1000));
    assert_eq!(
        check_page(0x8000_1001),
        Err("SE DMA page is outside the 32-bit aperture")
    );
    let translated = Board::new(&[(0x7001_9010, 1), (0x7001_9abc, 0x8000_0000)]);
    assert_eq!(
        check_translation(&mut Bus::new(&translated)),
        Err("SE inherited SMMU translation is unsupported")
    );
    let free = Board::new(&[(0x7001_9010, 1)]);
    assert_eq!(check_translation(&mut Bus::new(&free)), Ok(()));
}

#[test]
fn the_gauge_is_the_known_one() {
    let gauge = device(&[("reg", &[0x36]), ("maxim,rsns-microohm", &[5000])]);
    assert_eq!(check_gauge(&gauge, 1), Ok(5000));
    assert_eq!(check_gauge(&gauge, 2), Err("unsupported Switch power bus"));
    assert_eq!(
        check_gauge(&device(&[("reg", &[0x36])]), 1),
        Err("missing gauge sense resistor")
    );
    assert_eq!(
        check_gauge(&device(&[("reg", &[0x36]), ("maxim,rsns-microohm", &[99])]), 1),
        Err("invalid gauge sense resistor")
    );
    assert_eq!(identity(0x00ac, Some(0x2f)), Ok(true));
    assert_eq!(identity(0x00ac, None), Ok(false));
    assert_eq!(identity(0x00ad, None), Err("unsupported MAX17050 device ID"));
}

#[test]
fn streams_have_one_format() {
    let params = StreamParams {
        s16le: true,
        rate: 48_000,
        channels: 2,
        period_frames: 240,
        buffer_bytes: Some(7680),
    };
    assert_eq!(check_stream(&params, 7680), Ok(960));
    assert_eq!(
        check_stream(&params, 7681),
        Err("audio supports 48000 Hz S16_LE stereo only")
    );
    let long = StreamParams { period_frames: 2049, ..params };
    assert!(check_stream(&long, 7680).is_err());
    assert_eq!(link::reachable(0x8000_0000), Ok(()));
    assert!(link::reachable(0x2_0000_0000).is_err());
}

#[test]
fn periods_come_back_once() {
    let mut ring = Ring::new();
    assert_eq!(ring.submit(0, 960), Err("audio stream not configured"));
    ring.configured(7680, 960);
    assert_eq!(ring.submit(0, 959), Err("audio period outside source ring"));
    assert_eq!(ring.submit(0, 960), Ok(0));
    assert_eq!(ring.submit(960, 960), Ok(1));
    assert_eq!(ring.refresh(5, 10), Progress::Idle);
    ring.started(10);
    assert_eq!(ring.refresh(1, 20), Progress::Played(0, 1));
    assert_eq!(ring.process_completions(), 1);
    assert_eq!(ring.process_completions(), 0);
    assert_eq!(ring.submit(1920, 960), Ok(2));
    for slot in 3..8 {
        assert_eq!(ring.submit(0, 960), Ok(slot));
    }
    assert_eq!(ring.submit(0, 960), Ok(0));
    assert_eq!(ring.submit(0, 960), Err("audio DMA queue full"));
    assert_eq!(ring.refresh(9, 30), Progress::Stalled);
    assert_eq!(ring.process_completions(), 8);
    assert_eq!(ring.submit(0, 960), Err("audio DMA failed; reopen stream"));
    ring.stopped(true);
    assert!(!ring.failed);
}

/// A codec that keeps what is written to it.
struct Ears {
    registers: RefCell<HashMap<u8, u16>>,
    writes: RefCell<Vec<(u8, u16)>>,
    waits: RefCell<Vec<(usize, u64)>>,
    deaf: Option<u8>,
}

impl CodecPort for Ears {
    fn read(&self, register: u8) -> Result<u16, &'static str> {
        Ok(*self.registers.borrow().get(&register).unwrap_or(&0))
    }

    fn write(&self, register: u8, value: u16) -> Result<(), &'static str> {
        self.writes.borrow_mut().push((register, value));
        if self.deaf == Some(register) {
            return Err("no answer");
        }
        self.registers.borrow_mut().insert(register, value);
        Ok(())
    }

    fn delay_us(&self, us: u64) {
        self.waits.borrow_mut().push((self.writes.borrow().len(), us));
    }
}

fn ears(id: u16, deaf: Option<u8>) -> Ears {
    Ears {
        registers: RefCell::new([(0xffu8, id)].into_iter().collect()),
        writes: RefCell::new(Vec::new()),
        waits: RefCell::new(Vec::new()),
        deaf,
    }
}

#[test]
fn the_codec_gets_time_to_settle() {
    let port = ears(0x6231, None);
    let mut codec = Codec::new(&port);
    assert_eq!(codec.power(true), Ok(()));
    assert_eq!(*port.waits.borrow(), vec![(2, 10_000), (7, 10_000)]);
    assert_eq!(codec.enable_speakers(), Ok(()));
    // The mute goes last, after the amplifier has settled.
    assert_eq!(port.waits.borrow().last(), Some(&(7 + 48, 10_000)));
    assert_eq!(port.writes.borrow().len(), 7 + 49);
    assert_eq!(codec.power(false), Ok(()));
    assert_eq!(port.waits.borrow().len(), 3);
    let deaf = ears(0x6231, Some(0x65));
    assert_eq!(Codec::new(&deaf).power(true), Err("no answer"));
    assert_eq!(deaf.writes.borrow().last(), Some(&(0x65, 0x3000)));
    assert_eq!(*deaf.waits.borrow(), vec![(2, 10_000)]);
}

#[test]
fn the_codec_is_set_up_muted() {
    let port = ears(0x6231, None);
    let mut codec = Codec::new(&port);
    assert_eq!(codec.initialize(), Ok(()));
    assert_eq!(port.writes.borrow().len(), 30);
    assert_eq!(port.writes.borrow()[1], (1, 0x8888));
    assert_eq!(codec.power(true), Ok(()));
    assert_eq!(port.read(1), Ok(0x8888));
    assert_eq!(codec.enable_speakers(), Ok(()));
    assert_eq!(port.read(1), Ok(0x0808));
    assert_eq!(codec.mute(true), Ok(()));
    assert_eq!(port.read(1), Ok(0x8888));
    let other = ears(0x6200, None);
    assert_eq!(Codec::new(&other).initialize(), Err("RT5639 unexpected chip ID"));
    assert!(other.writes.borrow().is_empty());
    let deaf = ears(0x6231, Some(0x8d));
    assert_eq!(Codec::new(&deaf).initialize(), Err("no answer"));
}

#[test]
fn a_supply_that_does_not_answer_says_where() {
    let silent = Shelf::new(&[((0x3c, 0x48), 0)]);
    assert_eq!(
        supply::set_sd_io_supply(&mut Wire::new(&silent), true),
        Err("MAX77620 I2C read failed")
    );
    let mut shelf = Shelf::new(&[((0x3c, 0x48), 0), ((0x3c, 0x27), 0), ((0x3c, 0x28), 8)]);
    shelf.refuses = Some((0x3c, 0x27));
    assert_eq!(
        supply::set_sd_io_supply(&mut Wire::new(&shelf), true),
        Err("MAX77620 I2C write failed")
    );
}

/// A serial line with bytes that have arrived.
struct Line {
    waiting: RefCell<Vec<u8>>,
    idle: bool,
    errors: u32,
}

impl Registers for Line {
    fn read(&self, offset: usize) -> u32 {
        match offset {
            8 => u32::from(self.idle),
            0x14 => self.errors | u32::from(!self.waiting.borrow().is_empty()),
            _ => u32::from(self.waiting.borrow_mut().remove(0)),
        }
    }

    fn write(&self, _offset: usize, _value: u32) {}

    fn now_ns(&self) -> u64 {
        0
    }

    fn delay_us(&self, _us: u64) {}
}

impl Timed for Line {}

#[test]
fn an_interrupt_empties_the_line() {
    let line = Line { waiting: RefCell::new((0..=255).chain(0..9).collect()), idle: false, errors: 0 };
    let mut queue = UartRxInterrupt::new();
    assert!(queue.claim(&mut Bus::new(&line)));
    assert_eq!(line.waiting.borrow().len(), 9);
    let mut bytes = [0; 300];
    assert!(matches!(queue.take(&mut bytes), Ok(256)));
    assert_eq!(bytes[255], 255);
    let late = Line { waiting: RefCell::new(vec![1]), idle: true, errors: 0 };
    assert!(!queue.claim(&mut Bus::new(&late)));
    assert_eq!(late.waiting.borrow().len(), 1);
    let noisy = Line { waiting: RefCell::new(vec![5]), idle: false, errors: 2 };
    assert!(queue.claim(&mut Bus::new(&noisy)));
    match queue.take(&mut bytes) {
        Ok(_) => panic!("an overrun has to be told"),
        Err(e) => assert_eq!((e.status, e.received), (2, 1)),
    }
    assert!(!queue.pending());
}
