//! The removable card: detection, power of card and pins, and the controller's clock.
use vstd::prelude::*;

use crate::mmio;
use crate::mmio::{Access, Bus, Step, Timed};
use crate::soc::clocks;
use crate::soc::clocks::parent;
use crate::soc::gpio;
use crate::soc::gpio::{pad, TegraGpio};
use crate::soc::map::{CAR, MISC, PADS, PMC};
use crate::soc::power;

verus! {

pub const SDMMC1: u32 = 0x4000;

pub const SDMMC1_IO: u32 = 0x1000;

/// Low while a card is there.
pub const CARD_DETECT: u32 = 201;

pub const CARD_POWER: u32 = 36;

pub struct SdmmcPlatform {
    pub gpio: TegraGpio,
}

pub open spec fn misc(offset: int) -> usize {
    (MISC + offset) as usize
}

pub open spec fn pads(offset: int) -> usize {
    (PADS + offset) as usize
}

/// The masked writes that make a pin an output.
pub open spec fn output_writes(pin: u32, value: bool) -> Seq<(usize, u32)> {
    seq![
        gpio::masked_write(pin, 0xa0, value),
        gpio::masked_write(pin, 0x90, true),
        gpio::masked_write(pin, 0x80, true),
    ]
}

/// The masked writes that make a pin an input.
pub open spec fn input_writes(pin: u32) -> Seq<(usize, u32)> {
    seq![gpio::masked_write(pin, 0x90, false), gpio::masked_write(pin, 0x80, true)]
}

/// The six pins of the card, discharged.
pub open spec fn discharge_writes(count: int) -> Seq<(usize, u32)>
    decreases count,
{
    if count <= 0 {
        seq![(pads(0), 0x2040u32)]
    } else {
        discharge_writes(count - 1) + output_writes((96 + count - 1) as u32, true)
    }
}

/// The six pins of the card, given to the controller.
pub open spec fn connect_writes(count: int) -> Seq<(usize, u32)>
    decreases count,
{
    if count <= 0 {
        seq![
            (misc(0x8d4), 1u32),
            (pads(0), 0x2044),
            (pads(4), 0x2048),
            (pads(8), 0x2048),
            (pads(12), 0x2048),
            (pads(16), 0x2048),
            (pads(20), 0x2048),
        ]
    } else {
        (connect_writes(count - 1) + input_writes((96 + count - 1) as u32)).push(
            gpio::masked_write((96 + count - 1) as u32, 0x80, false),
        )
    }
}

/// What gives the card its power.
pub open spec fn power_writes(before: Seq<Access>, after: Seq<Access>) -> Seq<(usize, u32)> {
    seq![
        (
            power::pmc(0x44),
            mmio::fresh(before, after, power::pmc(0x44), 0) & !SDMMC1_IO,
        ),
    ] + output_writes(CARD_POWER, true) + seq![
        (power::pmc(0xe4), mmio::fresh(before, after, power::pmc(0xe4), 0) | SDMMC1_IO),
        (
            misc(0xa98),
            (mmio::fresh(before, after, misc(0xa98), 0) & 0x0fff_ffff) | 0x5000_0000,
        ),
    ]
}

/// What takes the card its power, and then its pins theirs.
pub open spec fn off_writes(after: Seq<Access>) -> Seq<(usize, u32)> {
    (seq![(pads(0xb4), 6u32)] + output_writes(CARD_POWER, false)).push(
        (power::pmc(0x44), gpio::changed(after, power::pmc(0x44)) | SDMMC1_IO),
    )
}

/// The card lost its power, and its pins theirs ten milliseconds later.
pub open spec fn was_cut(before: Seq<Access>, after: Seq<Access>) -> bool {
    let value = mmio::value_at(after, before.len() as int + 8);
    &&& mmio::did(
        before,
        after,
        seq![Step::Write(pads(0xb4), 6)] + gpio::output_steps(CARD_POWER, false) + seq![
            Step::Delay(10_000),
            Step::Read(power::pmc(0x44)),
            Step::Write(power::pmc(0x44), value | SDMMC1_IO),
            Step::Read(power::pmc(0x44)),
        ],
    )
    &&& mmio::only_wrote(before, after, off_writes(after))
}

/// The card's pins have their power, and ten milliseconds behind its own the card has the
/// range and the strength that it needs.
pub open spec fn was_given(before: Seq<Access>, after: Seq<Access>) -> bool {
    let n = before.len() as int;
    &&& mmio::did(
        before,
        after,
        seq![
            Step::Read(power::pmc(0x44)),
            Step::Write(power::pmc(0x44), mmio::value_at(after, n) & !SDMMC1_IO),
            Step::Read(power::pmc(0x44)),
        ] + gpio::output_steps(CARD_POWER, true) + seq![
            Step::Delay(10_000),
            Step::Read(power::pmc(0xe4)),
            Step::Write(power::pmc(0xe4), mmio::value_at(after, n + 10) | SDMMC1_IO),
            Step::Read(power::pmc(0xe4)),
            Step::Read(misc(0xa98)),
            Step::Write(
                misc(0xa98),
                (mmio::value_at(after, n + 13) & 0x0fff_ffff) | 0x5000_0000,
            ),
            Step::Read(misc(0xa98)),
        ],
    )
    &&& mmio::only_wrote(before, after, power_writes(before, after))
}

/// What starts the controller's clock, in reset.
pub open spec fn clock_writes() -> Seq<(usize, u32)> {
    seq![
        (clocks::car(0x324), SDMMC1),
        (clocks::car(0x300), SDMMC1),
        (clocks::car(0x150), 15),
        (clocks::car(0x694), 0x8000_0042),
        (clocks::car(0x29c), 2),
        (clocks::car(0x320), SDMMC1),
        (clocks::car(0x304), SDMMC1),
    ]
}

/// It was read whether the controller's clock runs: its reset only where it is enabled.
pub open spec fn clock_look(before: Seq<Access>, enabled: u32, held: u32) -> Seq<Access> {
    let first = before.push(Access::Read(clocks::car(0x10), enabled));
    if enabled & SDMMC1 != 0 {
        first.push(Access::Read(clocks::car(0x04), held))
    } else {
        first
    }
}

/// The controller's clock was seen to run, or not to.
pub open spec fn clock_seen(before: Seq<Access>, after: Seq<Access>, runs: bool) -> bool {
    exists|enabled: u32, held: u32|
        after == #[trigger] clock_look(before, enabled, held) && runs == (enabled & SDMMC1 != 0
            && held & SDMMC1 == 0)
}

/// The clock has its parent.
pub open spec fn was_parented(before: Seq<Access>, after: Seq<Access>) -> bool {
    &&& mmio::quiet(before, after)
    &&& mmio::tried(before, after, clocks::car(0x50))
    &&& clocks::parent_spec(
        mmio::last(after, clocks::car(0x50)),
        mmio::last(after, clocks::car(0xa0)),
        "unsupported SDMMC oscillator",
        "SDMMC requires the inherited 408 MHz PLLP",
    ) is Ok
}

/// How the clock is started, with the controller in reset until it runs.
pub open spec fn clock_steps() -> Seq<Step> {
    seq![
        Step::Write(clocks::car(0x324), SDMMC1),
        Step::Write(clocks::car(0x300), SDMMC1),
        Step::Write(clocks::car(0x150), 15),
        Step::Write(clocks::car(0x694), 0x8000_0042),
        Step::Write(clocks::car(0x29c), 2),
        Step::Write(clocks::car(0x320), SDMMC1),
        Step::Read(clocks::car(0x04)),
        Step::Delay(10),
        Step::Write(clocks::car(0x304), SDMMC1),
        Step::Read(clocks::car(0x04)),
        Step::Delay(10),
    ]
}

/// The clock was told to run.
pub open spec fn clock_told(before: Seq<Access>, after: Seq<Access>) -> bool {
    exists|a: Seq<Access>| #[trigger]
        was_parented(before, a) && mmio::did(a, after, clock_steps())
}

/// The controller's clock runs, as it reads back behind its start.
pub open spec fn was_clocked(before: Seq<Access>, after: Seq<Access>) -> bool {
    exists|a: Seq<Access>, b: Seq<Access>|
        {
            &&& #[trigger] clock_told(before, a)
            &&& #[trigger] clock_seen(a, b, true)
            &&& after == b.push(Access::Read(clocks::car(0x150), 15))
        }
}

/// The controller's clock does not run: it has no parent, or it does not read back.
pub open spec fn clock_failed(before: Seq<Access>, after: Seq<Access>, e: &'static str) -> bool {
    let osc = mmio::last(after, clocks::car(0x50));
    ||| {
        &&& e == "SDMMC1 clock/reset readback mismatch"
        &&& exists|a: Seq<Access>, b: Seq<Access>, runs: bool, divider: u32|
            {
                &&& #[trigger] clock_told(before, a)
                &&& #[trigger] clock_seen(a, b, runs)
                &&& if runs {
                    divider != 15 && after == #[trigger] b.push(
                        Access::Read(clocks::car(0x150), divider),
                    )
                } else {
                    after == b
                }
            }
    }
    ||| {
        &&& mmio::quiet(before, after)
        &&& mmio::tried(before, after, clocks::car(0x50))
        &&& (clocks::reference_spec(osc) is None && e == "unsupported SDMMC oscillator")
            || clocks::parent_spec(
            osc,
            mmio::last(after, clocks::car(0xa0)),
            "unsupported SDMMC oscillator",
            "SDMMC requires the inherited 408 MHz PLLP",
        ) == Err::<int, &'static str>(e)
    }
}

impl SdmmcPlatform {
    /// Prepares the pin that detects a card.
    pub fn prepare_detect<R: Timed>(&self, bus: &mut Bus<'_, R>) -> (r: Result<(), &'static str>)
        ensures
            final(bus).port() == old(bus).port(),
            r == Ok::<(), &'static str>(()),
            mmio::memory_kept(old(bus).log(), final(bus).log()),
            mmio::writes(final(bus).log()) == mmio::writes(old(bus).log()) + seq![
                (pads(0x280), 0x4au32),
                (misc(0xb74), 0),
            ] + input_writes(CARD_DETECT),
    {
        pad(bus, 0x280, 0x4a)?;
        bus.write(MISC + 0xb74, 0);
        let _ = bus.read(MISC + 0xb74);
        self.gpio.input(bus, CARD_DETECT)?;
        bus.delay_us(100);
        assert(mmio::writes(bus.log()) =~= mmio::writes(old(bus).log()) + seq![
            (pads(0x280), 0x4au32),
            (misc(0xb74), 0),
        ] + input_writes(CARD_DETECT));
        Ok(())
    }

    /// Whether a card is there.
    pub fn card_present<R: Timed>(&self, bus: &mut Bus<'_, R>) -> (r: bool)
        ensures
            final(bus).port() == old(bus).port(),
            mmio::quiet(old(bus).log(), final(bus).log()),
            ({
                let (port, bit) = gpio::pin_spec(CARD_DETECT)->0;
                r == (mmio::last(
                    final(bus).log(),
                    (crate::soc::map::GPIO + port + 0x30) as usize,
                ) & bit == 0)
            }),
    {
        match self.gpio.get(bus, CARD_DETECT) {
            Ok(high) => !high,
            Err(_) => false,
        }
    }

    /// Whether the controller's clock runs.
    pub fn clock_active<R: Timed>(&self, bus: &mut Bus<'_, R>) -> (r: bool)
        ensures
            final(bus).port() == old(bus).port(),
            mmio::quiet(old(bus).log(), final(bus).log()),
            clock_seen(old(bus).log(), final(bus).log(), r),
    {
        let enabled: u32 = bus.read(CAR + 0x10);
        if enabled & SDMMC1 == 0 {
            assert(bus.log() == clock_look(old(bus).log(), enabled, 0));
            return false;
        }
        let held: u32 = bus.read(CAR + 0x04);
        assert(bus.log() == clock_look(old(bus).log(), enabled, held));
        held & SDMMC1 == 0
    }

    /// Takes the pins from the controller and discharges them, before their supply goes.
    pub fn discharge_pads<R: Timed>(&self, bus: &mut Bus<'_, R>) -> (r: Result<(), &'static str>)
        ensures
            final(bus).port() == old(bus).port(),
            r == Ok::<(), &'static str>(()),
            mmio::memory_kept(old(bus).log(), final(bus).log()),
            mmio::writes(final(bus).log()) == mmio::writes(old(bus).log()) + discharge_writes(6),
    {
        pad(bus, 0, 0x2040)?;
        let mut i: u32 = 0;
        assert(mmio::writes(bus.log()) =~= mmio::writes(old(bus).log()) + discharge_writes(0));
        while i < 6
            invariant
                bus.port() == old(bus).port(),
                i <= 6,
                mmio::memory_kept(old(bus).log(), bus.log()),
                mmio::writes(bus.log()) =~= mmio::writes(old(bus).log()) + discharge_writes(
                    i as int,
                ),
            decreases 6 - i,
        {
            let ghost before = mmio::writes(bus.log());
            let done = self.gpio.output(bus, 96 + i, true);
            assert(done is Ok);
            assert(mmio::writes(bus.log()) =~= before + output_writes((96 + i) as u32, true));
            assert(discharge_writes(i + 1) == discharge_writes(i as int) + output_writes(
                (96 + i) as u32,
                true,
            ));
            i = i + 1;
        }
        Ok(())
    }

    /// Takes the card's power.
    pub fn power_off<R: Timed>(&self, bus: &mut Bus<'_, R>) -> (r: Result<(), &'static str>)
        ensures
            final(bus).port() == old(bus).port(),
            r == Ok::<(), &'static str>(()),
            mmio::memory_kept(old(bus).log(), final(bus).log()),
            was_cut(old(bus).log(), final(bus).log()),
    {
        let ghost o = bus.log();
        pad(bus, 0xb4, 6)?;
        let ghost a = bus.log();
        self.gpio.output(bus, CARD_POWER, false)?;
        let ghost b = bus.log();
        bus.delay_us(10_000);
        let value: u32 = bus.read(PMC + 0x44);
        bus.write(PMC + 0x44, value | SDMMC1_IO);
        let _ = bus.read(PMC + 0x44);
        assert(mmio::writes(bus.log()) =~= mmio::writes(old(bus).log()) + off_writes(bus.log()));
        proof {
            let c = bus.log();
            let first = seq![Step::Write(pads(0xb4), 6)];
            let last = seq![
                Step::Delay(10_000),
                Step::Read(power::pmc(0x44)),
                Step::Write(power::pmc(0x44), value | SDMMC1_IO),
                Step::Read(power::pmc(0x44)),
            ];
            assert(mmio::did(o, a, first));
            assert(mmio::did(b, c, last));
            mmio::lemma_did(o, a, b, first, gpio::output_steps(CARD_POWER, false));
            mmio::lemma_did(o, b, c, first + gpio::output_steps(CARD_POWER, false), last);
            assert(b.len() == o.len() + 7);
            assert(mmio::value_at(c, o.len() as int + 8) == value);
        }
        Ok(())
    }

    fn connect_pads<R: Timed>(&self, bus: &mut Bus<'_, R>) -> (r: Result<(), &'static str>)
        ensures
            final(bus).port() == old(bus).port(),
            r == Ok::<(), &'static str>(()),
            mmio::memory_kept(old(bus).log(), final(bus).log()),
            mmio::writes(final(bus).log()) == mmio::writes(old(bus).log()) + connect_writes(6),
    {
        bus.write(MISC + 0x8d4, 1);
        let _ = bus.read(MISC + 0x8d4);
        pad(bus, 0, 0x2044)?;
        pad(bus, 4, 0x2048)?;
        pad(bus, 8, 0x2048)?;
        pad(bus, 12, 0x2048)?;
        pad(bus, 16, 0x2048)?;
        pad(bus, 20, 0x2048)?;
        let mut i: u32 = 0;
        assert(mmio::writes(bus.log()) =~= mmio::writes(old(bus).log()) + connect_writes(0));
        while i < 6
            invariant
                bus.port() == old(bus).port(),
                i <= 6,
                mmio::memory_kept(old(bus).log(), bus.log()),
                mmio::writes(bus.log()) =~= mmio::writes(old(bus).log()) + connect_writes(i as int),
            decreases 6 - i,
        {
            let ghost before = mmio::writes(bus.log());
            let first = self.gpio.input(bus, 96 + i);
            assert(first is Ok);
            assert(mmio::writes(bus.log()) =~= before + input_writes((96 + i) as u32));
            let second = self.gpio.peripheral(bus, 96 + i);
            assert(second is Ok);
            assert(mmio::writes(bus.log()) =~= (before + input_writes((96 + i) as u32)).push(
                gpio::masked_write((96 + i) as u32, 0x80, false),
            ));
            assert(connect_writes(i + 1) == (connect_writes(i as int) + input_writes(
                (96 + i) as u32,
            )).push(gpio::masked_write((96 + i) as u32, 0x80, false)));
            i = i + 1;
        }
        Ok(())
    }

    /// Gives the pins to the controller and the card its power.
    pub fn power_on<R: Timed>(&self, bus: &mut Bus<'_, R>) -> (r: Result<(), &'static str>)
        ensures
            final(bus).port() == old(bus).port(),
            r == Ok::<(), &'static str>(()),
            mmio::memory_kept(old(bus).log(), final(bus).log()),
            exists|a: Seq<Access>|
                mmio::only_wrote(old(bus).log(), a, connect_writes(6)) && #[trigger] was_given(
                    a,
                    final(bus).log(),
                ),
    {
        self.connect_pads(bus)?;
        let ghost a = bus.log();
        let supply: u32 = bus.read(PMC + 0x44);
        bus.write(PMC + 0x44, supply & !SDMMC1_IO);
        let _ = bus.read(PMC + 0x44);
        let ghost b = bus.log();
        self.gpio.output(bus, CARD_POWER, true)?;
        let ghost c = bus.log();
        bus.delay_us(10_000);
        let range: u32 = bus.read(PMC + 0xe4);
        bus.write(PMC + 0xe4, range | SDMMC1_IO);
        let _ = bus.read(PMC + 0xe4);
        let drive: u32 = bus.read(MISC + 0xa98);
        bus.write(MISC + 0xa98, (drive & 0x0fff_ffff) | 0x5000_0000);
        let _ = bus.read(MISC + 0xa98);
        proof {
            let n = mmio::reads(a, power::pmc(0x44)).len() as int;
            mmio::readings_stay(b, bus.log(), power::pmc(0x44), n);
            assert(mmio::writes(c) =~= mmio::writes(b) + output_writes(CARD_POWER, true));
            assert(mmio::writes(bus.log()) =~= mmio::writes(a) + power_writes(a, bus.log()));
            let d = bus.log();
            let first = seq![
                Step::Read(power::pmc(0x44)),
                Step::Write(power::pmc(0x44), supply & !SDMMC1_IO),
                Step::Read(power::pmc(0x44)),
            ];
            let last = seq![
                Step::Delay(10_000),
                Step::Read(power::pmc(0xe4)),
                Step::Write(power::pmc(0xe4), range | SDMMC1_IO),
                Step::Read(power::pmc(0xe4)),
                Step::Read(misc(0xa98)),
                Step::Write(misc(0xa98), (drive & 0x0fff_ffff) | 0x5000_0000),
                Step::Read(misc(0xa98)),
            ];
            assert(mmio::did(a, b, first));
            assert(mmio::did(c, d, last));
            mmio::lemma_did(a, b, c, first, gpio::output_steps(CARD_POWER, true));
            mmio::lemma_did(a, c, d, first + gpio::output_steps(CARD_POWER, true), last);
            assert(c.len() == a.len() + 9);
            assert(d[a.len() as int] == b[a.len() as int]);
            assert(mmio::value_at(d, a.len() as int) == supply);
            assert(mmio::value_at(d, a.len() as int + 10) == range);
            assert(mmio::value_at(d, a.len() as int + 13) == drive);
            assert(was_given(a, d));
        }
        Ok(())
    }

    /// Starts the controller's clock at 48 MHz.
    pub fn enable_clock<R: Timed>(&self, bus: &mut Bus<'_, R>) -> (r: Result<u32, &'static str>)
        ensures
            final(bus).port() == old(bus).port(),
            mmio::memory_kept(old(bus).log(), final(bus).log()),
            match r {
                Ok(hz) => hz == 48_000_000 && was_clocked(old(bus).log(), final(bus).log())
                    && mmio::writes(final(bus).log()) == mmio::writes(old(bus).log())
                    + clock_writes(),
                Err(e) => clock_failed(old(bus).log(), final(bus).log(), e),
            },
    {
        let _ = parent(
            bus,
            "unsupported SDMMC oscillator",
            "SDMMC requires the inherited 408 MHz PLLP",
        )?;
        let ghost parented = bus.log();
        assert(was_parented(old(bus).log(), parented));
        bus.write(CAR + 0x324, SDMMC1);
        bus.write(CAR + 0x300, SDMMC1);
        bus.write(CAR + 0x150, 15);
        bus.write(CAR + 0x694, 0x8000_0042);
        bus.write(CAR + 0x29c, 2);
        bus.write(CAR + 0x320, SDMMC1);
        let _ = bus.read(CAR + 0x04);
        bus.delay_us(10);
        bus.write(CAR + 0x304, SDMMC1);
        let _ = bus.read(CAR + 0x04);
        bus.delay_us(10);
        assert(mmio::writes(bus.log()) =~= mmio::writes(old(bus).log()) + clock_writes());
        let ghost a = bus.log();
        assert(mmio::did(parented, a, clock_steps()));
        assert(clock_told(old(bus).log(), a));
        let runs: bool = self.clock_active(bus);
        let ghost b = bus.log();
        assert(clock_seen(a, b, runs));
        if !runs {
            let ghost unread = b.push(Access::Read(clocks::car(0x150), 0));
            assert(clock_failed(old(bus).log(), b, "SDMMC1 clock/reset readback mismatch"));
            return Err("SDMMC1 clock/reset readback mismatch");
        }
        let divider: u32 = bus.read(CAR + 0x150);
        assert(bus.log() == b.push(Access::Read(clocks::car(0x150), divider)));
        if divider != 15 {
            return Err("SDMMC1 clock/reset readback mismatch");
        }
        Ok(48_000_000)
    }

    /// The drive strength that is used where calibration did not end.
    pub fn fallback_pad_drive<R: Timed>(&self, bus: &mut Bus<'_, R>)
        ensures
            final(bus).port() == old(bus).port(),
            mmio::memory_kept(old(bus).log(), final(bus).log()),
            mmio::writes(final(bus).log()) == mmio::writes(old(bus).log()).push(
                (
                    misc(0xa98),
                    (gpio::changed(final(bus).log(), misc(0xa98)) & 0xf808_0fff) | 0xc0_c000,
                ),
            ),
            forall|o: usize|
                #![trigger mmio::reads(final(bus).log(), o)]
                o != misc(0xa98) ==> mmio::reads(final(bus).log(), o) == mmio::reads(
                    old(bus).log(),
                    o,
                ),
    {
        let value: u32 = bus.read(MISC + 0xa98);
        bus.write(MISC + 0xa98, (value & 0xf808_0fff) | 0xc0_c000);
        let _ = bus.read(MISC + 0xa98);
    }
}

/// A pin that becomes an output has its level first, and one that becomes an input stops
/// driving first; each then becomes a pin.
pub proof fn pins_change_without_a_glitch(pin: u32, value: bool)
    ensures
        output_writes(pin, value) == seq![
            gpio::masked_write(pin, 0xa0, value),
            gpio::masked_write(pin, 0x90, true),
            gpio::masked_write(pin, 0x80, true),
        ],
        input_writes(pin) == seq![
            gpio::masked_write(pin, 0x90, false),
            gpio::masked_write(pin, 0x80, true),
        ],
{
}

/// The pads of the card are drained one after the other, from the first of their port on,
/// with the clock's pad first.
pub proof fn pads_are_drained_in_order(count: int, i: int)
    requires
        0 <= i < count <= 6,
    ensures
        ({
            let w = discharge_writes(count);
            &&& w.len() == 1 + 3 * count
            &&& w[0] == (0x7000_3000usize, 0x2040u32)
            &&& w.subrange(1 + 3 * i, 4 + 3 * i) == output_writes((96 + i) as u32, true)
        }),
    decreases count,
{
    let w = discharge_writes(count);
    let before = discharge_writes(count - 1);
    if count > 1 {
        pads_are_drained_in_order(count - 1, 0);
    } else {
        assert(before.len() == 1);
    }
    if i < count - 1 {
        pads_are_drained_in_order(count - 1, i);
        assert(w.subrange(1 + 3 * i, 4 + 3 * i) =~= before.subrange(1 + 3 * i, 4 + 3 * i));
    } else {
        assert(w.subrange(1 + 3 * i, 4 + 3 * i) =~= output_writes((96 + i) as u32, true));
    }
}

/// The card's clock is set while it is off and in reset, and comes on before the reset ends.
pub proof fn cards_leave_reset_with_their_clock(i: int)
    requires
        0 <= i < 7,
    ensures
        ({
            let w = clock_writes();
            let s = clock_steps();
            &&& w.len() == 7 && s.len() == 11
            &&& w[0] == (0x6000_6324usize, 0x4000u32) && w[1] == (0x6000_6300usize, 0x4000u32)
            &&& w[2] == (0x6000_6150usize, 15u32) && w[3] == (0x6000_6694usize, 0x8000_0042u32)
            &&& w[4] == (0x6000_629cusize, 2u32) && w[5] == (0x6000_6320usize, 0x4000u32)
            &&& w[6] == (0x6000_6304usize, 0x4000u32)
            &&& i < 6 ==> s[i] == Step::Write(w[i].0, w[i].1)
            &&& s[7] == Step::Delay(10) && s[8] == Step::Write(w[6].0, w[6].1) && s[10]
                == Step::Delay(10)
        }),
{
}

/// A card gets the power of its pins, then its own, and then their range and strength; it
/// loses its own first.
pub proof fn cards_get_their_pins_power_first(before: Seq<Access>, after: Seq<Access>)
    ensures
        ({
            let w = power_writes(before, after);
            let off = off_writes(after);
            &&& w.len() == 6
            &&& w[0] == (
                0x7000_e444usize,
                mmio::fresh(before, after, 0x7000_e444, 0) & !0x1000u32,
            )
            &&& w[1] == gpio::masked_write(36, 0xa0, true) && w[2] == gpio::masked_write(
                36,
                0x90,
                true,
            ) && w[3] == gpio::masked_write(36, 0x80, true)
            &&& w[4] == (0x7000_e4e4usize, mmio::fresh(before, after, 0x7000_e4e4, 0) | 0x1000)
            &&& w[5] == (
                0x7000_0a98usize,
                (mmio::fresh(before, after, 0x7000_0a98, 0) & 0x0fff_ffff) | 0x5000_0000,
            )
            &&& off.len() == 5
            &&& off[0] == (0x7000_30b4usize, 6u32)
            &&& off[1] == gpio::masked_write(36, 0xa0, false)
            &&& off[4] == (0x7000_e444usize, gpio::changed(after, 0x7000_e444) | 0x1000)
        }),
{
}

/// The pads of the card are connected with their own settings, and its pins given back to
/// them.
pub proof fn pads_are_connected_in_order(count: int, i: int)
    requires
        0 <= i < count <= 6,
    ensures
        ({
            let w = connect_writes(count);
            &&& w.len() == 7 + 3 * count
            &&& w[0] == (0x7000_08d4usize, 1u32)
            &&& w[1] == (0x7000_3000usize, 0x2044u32)
            &&& w[2] == (0x7000_3004usize, 0x2048u32) && w[3] == (0x7000_3008usize, 0x2048u32)
                && w[4] == (0x7000_300cusize, 0x2048u32) && w[5] == (0x7000_3010usize, 0x2048u32)
                && w[6] == (0x7000_3014usize, 0x2048u32)
            &&& w[7 + 3 * i] == gpio::masked_write((96 + i) as u32, 0x90, false)
            &&& w[8 + 3 * i] == gpio::masked_write((96 + i) as u32, 0x80, true)
            &&& w[9 + 3 * i] == gpio::masked_write((96 + i) as u32, 0x80, false)
        }),
    decreases count,
{
    if i < count - 1 {
        pads_are_connected_in_order(count - 1, i);
    } else if count > 1 {
        pads_are_connected_in_order(count - 1, 0);
    } else {
        assert(connect_writes(0).len() == 7);
    }
}

} // verus!
