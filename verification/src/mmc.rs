//! The controller of the removable card: its settings, the calibration of its pins, and
//! the order in which card and pins lose and get their power.
use vstd::prelude::*;

use crate::devicetree::{Node, NodeView};
use crate::i2c;
use crate::i2c::{Chips, Exchange, Wire};
use crate::mmio;
use crate::mmio::{Access, Bus, Timed};
use crate::rtc::supply;
use crate::rtc::supply::set_sd_io_supply;
use crate::soc::gpio;
use crate::soc::gpio::modify;
use crate::soc::power;
use crate::soc::sdmmc;
use crate::soc::sdmmc::SdmmcPlatform;

verus! {

/// Where the controller is. Its clock register is sixteen bits wide.
pub const SDMMC: usize = 0x700b_0000;

/// Nanoseconds for which a calibration is good.
pub const CALIBRATION_NS: u64 = 100_000_000;

pub open spec fn sd(offset: int) -> usize {
    (SDMMC + offset) as usize
}

/// What is wrong with the description of the slot.
pub open spec fn slot_error(device: NodeView, region: Option<(u64, u64)>) -> Option<&'static str> {
    match region {
        None => Some("Tegra SDHCI has no registers"),
        Some((start, size)) => if start != 0x700b_0000 || size < 0x200 || device.cell(
            "bus-width"@,
            0,
        ) != Some(4u32) || device.property("no-mmc"@) is None || device.property("no-sdio"@)
            is None {
            Some("Tegra SDHCI currently supports the SDMMC1 four-bit memory slot")
        } else if device.cell("clocks"@, 1) != Some(14u32) || device.cell("cd-gpios"@, 1) != Some(
            201u32,
        ) {
            Some("unexpected Tegra SDMMC1 clock or card-detect wiring")
        } else if device.cell("clocks"@, 0) is None {
            Some("SDMMC has no clock provider")
        } else if device.cell("cd-gpios"@, 0) is None {
            Some("SDMMC has no GPIO provider")
        } else {
            None
        },
    }
}

/// Checks the description of the slot; who has its clock and its pins comes back.
pub fn check_slot(device: &Node, region: Option<(u64, u64)>) -> (r: Result<
    (u32, u32),
    &'static str,
>)
    ensures
        match r {
            Ok(found) => slot_error(device@, region) is None && device@.cell("clocks"@, 0) == Some(
                found.0,
            ) && device@.cell("cd-gpios"@, 0) == Some(found.1),
            Err(e) => slot_error(device@, region) == Some(e),
        },
{
    let (start, size): (u64, u64) = match region {
        None => {
            return Err("Tegra SDHCI has no registers");
        },
        Some(region) => region,
    };
    let width: Option<u32> = device.cell("bus-width", 0);
    if start != 0x700b_0000 || size < 0x200 || width != Some(4u32) || device.property(
        "no-mmc",
    ).is_none() || device.property("no-sdio").is_none() {
        return Err("Tegra SDHCI currently supports the SDMMC1 four-bit memory slot");
    }
    let clock: Option<u32> = device.cell("clocks", 1);
    let pin: Option<u32> = device.cell("cd-gpios", 1);
    if clock != Some(14u32) || pin != Some(201u32) {
        return Err("unexpected Tegra SDMMC1 clock or card-detect wiring");
    }
    let provider: u32 = match device.cell("clocks", 0) {
        None => {
            return Err("SDMMC has no clock provider");
        },
        Some(provider) => provider,
    };
    match device.cell("cd-gpios", 0) {
        None => Err("SDMMC has no GPIO provider"),
        Some(pins) => Ok((provider, pins)),
    }
}

/// The controller's settings, and when its pins were calibrated.
#[derive(Clone, Copy, Debug, PartialEq, Eq, Structural)]
pub struct TegraSdhci {
    pub tap: u32,
    pub trim: u32,
    pub calibration_offsets: u32,
    pub last_calibration_ns: u64,
}

pub open spec fn at_most(value: Option<u32>, otherwise: u32, limit: u32) -> u32 {
    let v = match value {
        Some(v) => v,
        None => otherwise,
    };
    if v <= limit {
        v
    } else {
        limit
    }
}

/// The settings that a description has, or the usual ones.
pub open spec fn settings_spec(device: NodeView) -> TegraSdhci {
    TegraSdhci {
        tap: at_most(device.cell("tap-delay"@, 0), 4, 255),
        trim: at_most(device.cell("trim-delay"@, 0), 2, 31),
        calibration_offsets: match device.cell("calib-3v3-offsets"@, 0) {
            Some(offsets) => offsets & 0x7f7f,
            None => 0x7du32 & 0x7f7f,
        },
        last_calibration_ns: 0,
    }
}

/// What starts a calibration: the card's clock is held, the pads are opened.
pub open spec fn opening(before: Seq<Access>, after: Seq<Access>) -> Seq<(usize, u32)> {
    seq![
        (sd(0x2c), mmio::fresh(before, after, sd(0x2c), 0) & !4u32),
        (sd(0x1e0), (gpio::changed(after, sd(0x1e0)) & !0u32) | 0x8000_0000),
        (sd(0x1e4), (gpio::changed(after, sd(0x1e4)) & !0u32) | 0xa000_0000),
    ]
}

/// What is used where a calibration did not end.
pub open spec fn fallback(after: Seq<Access>) -> Seq<(usize, u32)> {
    seq![
        (sd(0x1e4), (gpio::changed(after, sd(0x1e4)) & !0x2000_0000u32) | 0),
        (
            sdmmc::misc(0xa98),
            (gpio::changed(after, sdmmc::misc(0xa98)) & 0xf808_0fff) | 0xc0_c000,
        ),
    ]
}

/// A calibration: opened, ended by itself or by the fallback, and closed, with the
/// card's clock as it was.
pub open spec fn calibrated(
    before: Seq<Access>,
    a: Seq<Access>,
    b: Seq<Access>,
    after: Seq<Access>,
) -> bool {
    &&& mmio::extends(before, after)
    &&& mmio::memory_kept(before, a)
    &&& mmio::writes(a) == mmio::writes(before) + opening(before, a)
    &&& mmio::memory_kept(a, b)
    &&& {
        ||| mmio::writes(b) == mmio::writes(a) && mmio::last(b, sd(0x1ec)) & 0x8000_0000 == 0
        ||| mmio::writes(b) == mmio::writes(a) + fallback(b)
    }
    &&& mmio::memory_kept(b, after)
    &&& mmio::writes(after) == mmio::writes(b) + seq![
        (sd(0x1e0), (gpio::changed(after, sd(0x1e0)) & !0x8000_0000u32) | 0),
        (sd(0x2c), mmio::fresh(before, a, sd(0x2c), 0)),
    ]
}

/// The pins were calibrated.
pub open spec fn was_calibrated(before: Seq<Access>, after: Seq<Access>) -> bool {
    &&& mmio::extends(before, after)
    &&& {
        exists|a: Seq<Access>, b: Seq<Access>| #[trigger] calibrated(before, a, b, after)
    }
}

/// Waits for the end of a calibration.
fn wait_calibration<R: Timed>(bus: &mut Bus<'_, R>) -> (r: bool)
    ensures
        final(bus).port() == old(bus).port(),
        mmio::quiet(old(bus).log(), final(bus).log()),
        r ==> mmio::last(final(bus).log(), sd(0x1ec)) & 0x8000_0000 == 0,
        !r ==> mmio::tried(old(bus).log(), final(bus).log(), sd(0x1ec)) && mmio::last(
            final(bus).log(),
            sd(0x1ec),
        ) & 0x8000_0000 != 0 && mmio::ran_out(
            old(bus).log(),
            final(bus).log(),
            10_000_000,
            power::POLLS as int,
        ),
{
    let start: u64 = bus.now_ns();
    let deadline: u64 = start.saturating_add(10_000_000);
    let mut left: u64 = power::POLLS;
    while left > 0
        invariant
            bus.port() == old(bus).port(),
            left <= power::POLLS,
            deadline == mmio::until(start, 10_000_000),
            bus.log().len() == old(bus).log().len() + 1 + 2 * (power::POLLS - left),
            bus.log()[old(bus).log().len() as int] == Access::Time(start),
            left < power::POLLS ==> mmio::tried(old(bus).log(), bus.log(), sd(0x1ec))
                && mmio::last(bus.log(), sd(0x1ec)) & 0x8000_0000 != 0,
            left == power::POLLS ==> mmio::reads(bus.log(), sd(0x1ec)) == mmio::reads(
                old(bus).log(),
                sd(0x1ec),
            ),
            mmio::quiet(old(bus).log(), bus.log()),
        decreases left,
    {
        let state: u32 = bus.read(SDMMC + 0x1ec);
        if state & 0x8000_0000 == 0 {
            return true;
        }
        let now: u64 = bus.now_ns();
        if now >= deadline {
            return false;
        }
        left = left - 1;
    }
    false
}

/// The settings, as the controller gets them.
pub open spec fn vendor_writes(s: TegraSdhci, after: Seq<Access>) -> Seq<(usize, u32)> {
    seq![
        (
            sd(0x100),
            (gpio::changed(after, sd(0x100)) & !0x1fff_000eu32) | (s.trim * 0x100_0000 + s.tap
                * 0x1_0000 + 0x28) as u32,
        ),
        (sd(0x120), (gpio::changed(after, sd(0x120)) & !0x0002_0239u32) | 0x21),
        (sd(0x128), (gpio::changed(after, sd(0x128)) & !0x4300_0000u32) | 0),
        (sd(0x1ac), (gpio::changed(after, sd(0x1ac)) & !4u32) | 0),
        (sd(0x1f0), (gpio::changed(after, sd(0x1f0)) & !0u32) | 0x8_0000),
        (sd(0x1e0), (gpio::changed(after, sd(0x1e0)) & !0xfu32) | 7),
        (
            sd(0x1e4),
            (gpio::changed(after, sd(0x1e4)) & !0x3007_7f7fu32) | (0x3000_0000
                | s.calibration_offsets),
        ),
    ]
}

/// Whether a command waits for a calibration: those before it are too old, and it does
/// not end a transfer.
pub open spec fn due_spec(index: u32, now: u64, last: u64) -> bool {
    index != 12 && now - last >= CALIBRATION_NS
}

impl TegraSdhci {
    /// The settings of a description.
    pub fn new(device: &Node) -> (r: Self)
        ensures
            r == settings_spec(device@),
            r.tap <= 255,
            r.trim <= 31,
    {
        let tap: u32 = match device.cell("tap-delay", 0) {
            Some(v) => v,
            None => 4,
        };
        let trim: u32 = match device.cell("trim-delay", 0) {
            Some(v) => v,
            None => 2,
        };
        let offsets: u32 = match device.cell("calib-3v3-offsets", 0) {
            Some(v) => v,
            None => 0x7d,
        };
        TegraSdhci {
            tap: if tap <= 255 {
                tap
            } else {
                255
            },
            trim: if trim <= 31 {
                trim
            } else {
                31
            },
            calibration_offsets: offsets & 0x7f7f,
            last_calibration_ns: 0,
        }
    }

    /// Calibrates the pins, and remembers when.
    pub fn calibrate<R: Timed>(&mut self, bus: &mut Bus<'_, R>, platform: &SdmmcPlatform)
        ensures
            final(bus).port() == old(bus).port(),
            mmio::memory_kept(old(bus).log(), final(bus).log()),
            was_calibrated(old(bus).log(), final(bus).log()),
            final(bus).log().last() == Access::Time(final(self).last_calibration_ns),
            *final(self) == (TegraSdhci {
                last_calibration_ns: final(self).last_calibration_ns,
                ..*old(self)
            }),
    {
        let ghost start = bus.log();
        let clock: u32 = bus.read(SDMMC + 0x2c);
        bus.write(SDMMC + 0x2c, clock & !4);
        let _ = bus.read(SDMMC + 0x2c);
        modify(bus, SDMMC + 0x1e0, 0, 0x8000_0000);
        bus.delay_us(2);
        modify(bus, SDMMC + 0x1e4, 0, 0xa000_0000);
        bus.delay_us(2);
        let ghost a = bus.log();
        assert(mmio::writes(a) =~= mmio::writes(start) + opening(start, a));
        if !wait_calibration(bus) {
            modify(bus, SDMMC + 0x1e4, 0x2000_0000, 0);
            platform.fallback_pad_drive(bus);
            assert(mmio::writes(bus.log()) =~= mmio::writes(a) + fallback(bus.log()));
        }
        let ghost b = bus.log();
        modify(bus, SDMMC + 0x1e0, 0x8000_0000, 0);
        bus.write(SDMMC + 0x2c, clock);
        let _ = bus.read(SDMMC + 0x2c);
        self.last_calibration_ns = bus.now_ns();
        proof {
            assert(mmio::writes(bus.log()) =~= mmio::writes(b) + seq![
                (sd(0x1e0), (gpio::changed(bus.log(), sd(0x1e0)) & !0x8000_0000u32) | 0),
                (sd(0x2c), mmio::fresh(start, a, sd(0x2c), 0)),
            ]);
            assert(calibrated(start, a, b, bus.log()));
        }
    }

    /// Gives the controller its settings after a reset, and calibrates the pins.
    pub fn vendor_reset<R: Timed>(&mut self, bus: &mut Bus<'_, R>, platform: &SdmmcPlatform)
        requires
            old(self).tap <= 255,
            old(self).trim <= 31,
        ensures
            final(bus).port() == old(bus).port(),
            mmio::memory_kept(old(bus).log(), final(bus).log()),
            exists|a: Seq<Access>|
                mmio::only_wrote(old(bus).log(), a, vendor_writes(*old(self), a))
                    && #[trigger] was_calibrated(a, final(bus).log()),
            *final(self) == (TegraSdhci {
                last_calibration_ns: final(self).last_calibration_ns,
                ..*old(self)
            }),
    {
        let timing: u32 = self.trim * 0x100_0000 + self.tap * 0x1_0000 + 0x28;
        modify(bus, SDMMC + 0x100, 0x1fff_000e, timing);
        modify(bus, SDMMC + 0x120, 0x0002_0239, 0x21);
        modify(bus, SDMMC + 0x128, 0x4300_0000, 0);
        modify(bus, SDMMC + 0x1ac, 4, 0);
        modify(bus, SDMMC + 0x1f0, 0, 0x8_0000);
        modify(bus, SDMMC + 0x1e0, 0xf, 7);
        modify(bus, SDMMC + 0x1e4, 0x3007_7f7f, 0x3000_0000 | self.calibration_offsets);
        let ghost a = bus.log();
        assert(mmio::writes(a) =~= mmio::writes(old(bus).log()) + vendor_writes(*self, a));
        self.calibrate(bus, platform);
    }

    /// Prepares a command: a slot without a card takes none, and pins whose calibration
    /// is too old are calibrated again, except before the end of a transfer.
    pub fn prepare_command<R: Timed>(
        &mut self,
        bus: &mut Bus<'_, R>,
        platform: &SdmmcPlatform,
        present: bool,
        index: u32,
    ) -> (r: bool)
        ensures
            final(bus).port() == old(bus).port(),
            r == present,
            mmio::memory_kept(old(bus).log(), final(bus).log()),
            !present ==> final(bus).log() == old(bus).log() && *final(self) == *old(self),
            present ==> exists|now: u64|
                {
                    let a = #[trigger] old(bus).log().push(Access::Time(now));
                    if due_spec(index, now, old(self).last_calibration_ns) {
                        was_calibrated(a, final(bus).log())
                    } else {
                        final(bus).log() == a && *final(self) == *old(self)
                    }
                },
    {
        if !present {
            return false;
        }
        let now: u64 = bus.now_ns();
        let ghost a = bus.log();
        assert(a == old(bus).log().push(Access::Time(now)));
        if index != 12 && now.saturating_sub(self.last_calibration_ns) >= CALIBRATION_NS {
            self.calibrate(bus, platform);
        }
        true
    }
}

/// A card lost its power and has it back: its pins were discharged before and belong to
/// the controller again.
pub open spec fn was_cycled(before: Seq<Access>, after: Seq<Access>) -> bool {
    exists|discharged: Seq<Access>, off: Seq<Access>, connected: Seq<Access>|
        {
            &&& mmio::only_wrote(before, discharged, sdmmc::discharge_writes(6))
            &&& #[trigger] sdmmc::was_cut(discharged, off)
            &&& mmio::only_wrote(off, connected, sdmmc::connect_writes(6))
            &&& #[trigger] sdmmc::was_given(connected, after)
        }
}

/// Takes the card's power away and gives it back, between the stop of the controller's
/// clock and its reset. The pins are discharged while their supply is still there; it
/// goes before the card's power does, and comes back behind it.
pub fn cycle_power<R: Timed, C: Chips>(
    bus: &mut Bus<'_, R>,
    wire: &mut Wire<'_, C>,
    platform: &SdmmcPlatform,
) -> (r: Result<(), &'static str>)
    ensures
        final(wire).port() == old(wire).port(),
        final(bus).port() == old(bus).port(),
        mmio::memory_kept(old(bus).log(), final(bus).log()),
        mmio::begins(
            mmio::writes(final(bus).log()),
            mmio::writes(old(bus).log()) + sdmmc::discharge_writes(6),
        ),
        r is Ok ==> was_cycled(old(bus).log(), final(bus).log()) && exists|w: Seq<Exchange>|
            #[trigger] supply::card_switched(old(wire).log(), w, false) && supply::card_switched(
                w,
                final(wire).log(),
                true,
            ),
        // A card keeps its power where the supply of its pins could not be switched off.
        // Only that supply fails.
        r matches Err(e) ==> {
            ||| mmio::writes(final(bus).log()) == mmio::writes(old(bus).log())
                + sdmmc::discharge_writes(6) && supply::card_failed(
                old(wire).log(),
                final(wire).log(),
                false,
                e,
            )
            ||| was_cycled(old(bus).log(), final(bus).log()) && exists|w: Seq<Exchange>| #[trigger]
                supply::card_switched(old(wire).log(), w, false) && supply::card_failed(
                    w,
                    final(wire).log(),
                    true,
                    e,
                )
        },
{
    platform.discharge_pads(bus)?;
    let ghost discharged = bus.log();
    set_sd_io_supply(wire, false)?;
    let ghost w = wire.log();
    assert(supply::card_switched(old(wire).log(), w, false));
    platform.power_off(bus)?;
    let ghost a = bus.log();
    assert(sdmmc::was_cut(discharged, a));
    platform.power_on(bus)?;
    proof {
        let b = choose|b: Seq<Access>|
            mmio::only_wrote(a, b, sdmmc::connect_writes(6)) && #[trigger] sdmmc::was_given(
                b,
                bus.log(),
            );
        assert(sdmmc::was_given(b, bus.log()));
        assert(was_cycled(old(bus).log(), bus.log()));
    }
    set_sd_io_supply(wire, true)?;
    Ok(())
}

/// A card's clock that runs is stopped, and read back.
pub open spec fn stopping(before: Seq<Access>, runs: bool, back: u32) -> Seq<Access> {
    if runs {
        before.push(Access::Write(sd(0x2c), 0)).push(Access::Read(sd(0x2c), back))
    } else {
        before
    }
}

/// It was seen whether the controller's clock runs, and the card's clock was stopped where
/// it does.
pub open spec fn was_stopped(before: Seq<Access>, after: Seq<Access>, runs: bool) -> bool {
    exists|a: Seq<Access>, back: u32|
        sdmmc::clock_seen(before, a, runs) && after == #[trigger] stopping(a, runs, back)
}

/// The controller was told to speak its newer protocol.
pub open spec fn newer(before: Seq<Access>, value: u32, back: u32) -> Seq<Access> {
    before.push(Access::Read(sd(0x120), value)).push(
        Access::Write(sd(0x120), value | 0x20),
    ).push(Access::Read(sd(0x120), back))
}

/// Starts the controller's clock for the first time: a card's clock that still runs is
/// stopped before, and the controller speaks its newer protocol behind.
pub fn start_clock<R: Timed>(bus: &mut Bus<'_, R>, platform: &SdmmcPlatform) -> (r: Result<
    u32,
    &'static str,
>)
    ensures
        final(bus).port() == old(bus).port(),
        mmio::memory_kept(old(bus).log(), final(bus).log()),
        r matches Ok(hz) ==> hz == 48_000_000 && exists|
            runs: bool,
            b: Seq<Access>,
            c: Seq<Access>,
            value: u32,
            back: u32,
        |
            {
                &&& #[trigger] was_stopped(old(bus).log(), b, runs)
                &&& #[trigger] sdmmc::was_clocked(b, c)
                &&& final(bus).log() == #[trigger] newer(c, value, back)
            },
        r matches Err(e) ==> exists|runs: bool, b: Seq<Access>| #[trigger]
            was_stopped(old(bus).log(), b, runs) && sdmmc::clock_failed(b, final(bus).log(), e),
{
    let active: bool = platform.clock_active(bus);
    let ghost a = bus.log();
    let ghost mut back: u32 = 0;
    if active {
        bus.write(SDMMC + 0x2c, 0);
        let still: u32 = bus.read(SDMMC + 0x2c);
        proof {
            back = still;
        }
    }
    let ghost b = bus.log();
    assert(b == stopping(a, active, back));
    assert(was_stopped(old(bus).log(), b, active));
    let hz: u32 = platform.enable_clock(bus)?;
    let ghost c = bus.log();
    assert(sdmmc::was_clocked(b, c));
    let value: u32 = bus.read(SDMMC + 0x120);
    bus.write(SDMMC + 0x120, value | 0x20);
    let last: u32 = bus.read(SDMMC + 0x120);
    assert(bus.log() == newer(c, value, last));
    Ok(hz)
}

/// A calibration leaves the card's clock as it found it.
pub proof fn calibration_keeps_the_clock(before: Seq<Access>, after: Seq<Access>)
    requires
        was_calibrated(before, after),
    ensures
        exists|clock: u32|
            mmio::writes(after).last() == (sd(0x2c), clock) && mmio::writes(after)[mmio::writes(
                before,
            ).len() as int] == (sd(0x2c), #[trigger] (clock & !4u32)),
{
    let (a, b) = choose|a: Seq<Access>, b: Seq<Access>| #[trigger] calibrated(before, a, b, after);
    let clock = mmio::fresh(before, a, sd(0x2c), 0);
    let n = mmio::writes(before).len() as int;
    assert(mmio::writes(a)[n] == (sd(0x2c), clock & !4u32));
    assert(mmio::writes(after)[n] == mmio::writes(a)[n]);
    assert(mmio::writes(after).last() == (sd(0x2c), clock));
}

proof fn lemma_offsets(offsets: u32)
    by (bit_vector)
    ensures
        (offsets & 0x7f7f) % 0x80 == offsets % 0x80,
        (offsets & 0x7f7f) / 0x100 == offsets / 0x100 % 0x80,
{
}

/// The delays of the slot are what its description says, as far as they have room; without it
/// they are four and two, and the calibration has its own offset of seven bits for each
/// direction.
pub proof fn delays_are_taken_from_the_description(device: NodeView)
    ensures
        ({
            let s = settings_spec(device);
            &&& device.cell("tap-delay"@, 0) is None ==> s.tap == 4
            &&& device.cell("tap-delay"@, 0) matches Some(v) ==> s.tap == if v <= 255 {
                v
            } else {
                255
            }
            &&& device.cell("trim-delay"@, 0) is None ==> s.trim == 2
            &&& device.cell("trim-delay"@, 0) matches Some(v) ==> s.trim == if v <= 31 {
                v
            } else {
                31
            }
            &&& device.cell("calib-3v3-offsets"@, 0) matches Some(v) ==> s.calibration_offsets % 0x80
                == v % 0x80 && s.calibration_offsets / 0x100 == v / 0x100 % 0x80
            &&& device.cell("calib-3v3-offsets"@, 0) is None ==> s.calibration_offsets == 0x7d
            &&& s.last_calibration_ns == 0
        }),
{
    match device.cell("calib-3v3-offsets"@, 0) {
        Some(v) => {
            lemma_offsets(v);
        },
        None => {
            assert(0x7du32 & 0x7f7f == 0x7d) by (bit_vector);
        },
    }
}

/// A calibration is due every 100 milliseconds, but never with the command that stops.
pub proof fn calibrations_are_due(index: u32, now: u64, last: u64)
    ensures
        due_spec(index, now, last) <==> index != 12 && now - last >= 100_000_000,
{
}

/// The slot is the first controller with four lines for memory cards only, with its own clock
/// and detection.
pub proof fn known_slots_are_taken(device: NodeView, region: Option<(u64, u64)>)
    ensures
        slot_error(device, region) is None <==> {
            &&& region matches Some((start, size)) && start == 0x700b_0000 && size >= 0x200
            &&& device.cell("bus-width"@, 0) == Some(4u32)
            &&& device.property("no-mmc"@) is Some && device.property("no-sdio"@) is Some
            &&& device.cell("clocks"@, 0) is Some && device.cell("clocks"@, 1) == Some(14u32)
            &&& device.cell("cd-gpios"@, 0) is Some && device.cell("cd-gpios"@, 1) == Some(201u32)
        },
{
}

/// A calibration holds the card's clock and opens the pads; where it does not end, the pads
/// get fixed strengths.
pub proof fn calibrations_hold_the_clock(before: Seq<Access>, after: Seq<Access>)
    ensures
        ({
            let w = opening(before, after);
            let f = fallback(after);
            &&& w.len() == 3
            &&& w[0].0 == 0x700b_002c && w[0].1 == mmio::fresh(before, after, 0x700b_002c, 0) & !4u32
            &&& w[1].0 == 0x700b_01e0 && w[2].0 == 0x700b_01e4
            &&& w[1].1 == (gpio::changed(after, 0x700b_01e0) & !0u32) | 0x8000_0000
            &&& w[2].1 == (gpio::changed(after, 0x700b_01e4) & !0u32) | 0xa000_0000
            &&& f.len() == 2
            &&& f[0] == (
                0x700b_01e4usize,
                (gpio::changed(after, 0x700b_01e4) & !0x2000_0000u32) | 0,
            )
            &&& f[1] == (
                0x7000_0a98usize,
                (gpio::changed(after, 0x7000_0a98) & 0xf808_0fff) | 0xc0_c000,
            )
        }),
{
}

/// The settings reach the controller: the delays in the clock's register, the tap in its
/// third byte and the trim in its fourth, the offsets with the calibration's own.
pub proof fn settings_reach_the_controller(s: TegraSdhci, after: Seq<Access>)
    requires
        s.tap <= 255,
        s.trim <= 31,
    ensures
        ({
            let w = vendor_writes(s, after);
            let clock = s.trim * 0x100_0000 + s.tap * 0x1_0000 + 0x28;
            &&& w.len() == 7
            &&& w[0].0 == 0x700b_0100 && w[0].1 == (gpio::changed(after, 0x700b_0100)
                & !0x1fff_000eu32) | clock as u32
            &&& clock / 0x100_0000 == s.trim && clock / 0x1_0000 % 256 == s.tap
            &&& w[1] == (
                0x700b_0120usize,
                (gpio::changed(after, 0x700b_0120) & !0x0002_0239u32) | 0x21,
            )
            &&& w[2] == (0x700b_0128usize, (gpio::changed(after, 0x700b_0128) & !0x4300_0000u32) | 0)
            &&& w[3] == (0x700b_01acusize, (gpio::changed(after, 0x700b_01ac) & !4u32) | 0)
            &&& w[4] == (0x700b_01f0usize, (gpio::changed(after, 0x700b_01f0) & !0u32) | 0x8_0000)
            &&& w[5] == (0x700b_01e0usize, (gpio::changed(after, 0x700b_01e0) & !0xfu32) | 7)
            &&& w[6] == (
                0x700b_01e4usize,
                (gpio::changed(after, 0x700b_01e4) & !0x3007_7f7fu32) | (0x3000_0000u32
                    | s.calibration_offsets),
            )
        }),
{
}

} // verus!
