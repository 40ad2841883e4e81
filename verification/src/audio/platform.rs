//! Clocks, power and pins of the audio units: after this they run at forty-eight
//! kilohertz, and their memory engine is ready.
use vstd::prelude::*;

use crate::audio::link::wait;
use crate::audio::link;
use crate::mmio;
use crate::mmio::{Access, Bus, Step, Timed};
use crate::soc::clocks;
use crate::soc::gpio;
use crate::soc::gpio::{pad, TegraGpio};
use crate::soc::map::{ADMA, AHUB, CAR, MC, PADS, PMC};
use crate::soc::power;

verus! {

/// How the audio clock is derived from the oscillator: divider, multiplier, and the
/// fraction of the multiplier.
#[derive(Clone, Copy, Debug, PartialEq, Eq, Structural)]
pub struct AudioClock {
    pub m: u32,
    pub n: u32,
    pub sdm: u32,
}

/// The settings for an oscillator, by its register.
pub open spec fn clock_spec(osc: u32) -> Result<AudioClock, &'static str> {
    let step = osc as int / 0x1000_0000;
    let divider = osc as int / 0x400_0000 % 4;
    if step != 5 && step != 8 {
        Err("audio oscillator unsupported")
    } else if divider != 0 {
        Err("audio PLL reference unsupported")
    } else if step == 5 {
        Ok(AudioClock { m: 3, n: 57, sdm: 0x0333 })
    } else {
        Ok(AudioClock { m: 1, n: 61, sdm: 0xfe15 })
    }
}

/// The settings for an oscillator, by its register. Only the whole frequencies of both
/// oscillators are known.
pub fn audio_clock(osc: u32) -> (r: Result<AudioClock, &'static str>)
    ensures
        r == clock_spec(osc),
{
    let step: u32 = osc / 0x1000_0000;
    if step != 5 && step != 8 {
        return Err("audio oscillator unsupported");
    }
    if osc / 0x400_0000 % 4 != 0 {
        return Err("audio PLL reference unsupported");
    }
    if step == 5 {
        Ok(AudioClock { m: 3, n: 57, sdm: 0x0333 })
    } else {
        Ok(AudioClock { m: 1, n: 61, sdm: 0xfe15 })
    }
}

/// Both settings come within a few parts in a million of the same audio clock, twice
/// 368.64 megahertz.
pub proof fn audio_clocks_agree(osc: u32)
    requires
        clock_spec(osc) is Ok,
    ensures
        ({
            let c = clock_spec(osc)->Ok_0;
            let hz: int = if osc as int / 0x1000_0000 == 5 {
                38_400_000
            } else {
                12_000_000
            };
            // The fraction is a signed number of units of one in 8192, above a half.
            let fraction: int = if c.sdm >= 0x8000 {
                c.sdm - 0x1_0000
            } else {
                c.sdm as int
            };
            let doubled = hz * (2 * 8192 * c.n + 8192 + 2 * fraction);
            &&& 16384 * c.m * 737_275_000 <= doubled
            &&& doubled <= 16384 * c.m * 737_285_000
        }),
{
    let c = clock_spec(osc)->Ok_0;
    if osc as int / 0x1000_0000 == 5 {
        assert(c.m == 3 && c.n == 57 && c.sdm == 0x0333);
        assert(38_400_000 * (2 * 8192 * c.n + 8192 + 2 * c.sdm) == 38_400_000 * 943_718);
    } else {
        assert(c.m == 1 && c.n == 61 && c.sdm == 0xfe15);
        assert(12_000_000 * (2 * 8192 * c.n + 8192 + 2 * (c.sdm - 0x1_0000)) == 12_000_000
            * 1_006_634);
    }
}

/// What has the audio clock lock, by what was read of its output.
pub open spec fn lock_steps(c: AudioClock, out: u32) -> Seq<Step> {
    let base = c.n * 256 + c.m;
    seq![
        Step::Read(clocks::car(0xb4)),
        Step::Write(clocks::car(0xb4), out & !3u32),
        Step::Write(clocks::car(0xb0), (0x0210_0000 + base) as u32),
        Step::Write(clocks::car(0xbc), 0x1200_0020),
        Step::Write(clocks::car(0xb8), c.sdm),
        Step::Write(clocks::car(0x5d8), 0x0400_0000),
        Step::Write(clocks::car(0xb0), (0x0010_0000 + base) as u32),
        Step::Delay(10),
        Step::Write(clocks::car(0xb0), (0x4010_0000 + base) as u32),
    ]
}

/// The audio clock was told to lock.
pub open spec fn lock_told(before: Seq<Access>, after: Seq<Access>, c: AudioClock) -> bool {
    mmio::did(before, after, lock_steps(c, mmio::value_at(after, before.len() as int)))
}

/// The audio clock is locked, and its output runs.
pub open spec fn was_locked(before: Seq<Access>, after: Seq<Access>, c: AudioClock) -> bool {
    exists|told: Seq<Access>, locked: Seq<Access>|
        {
            &&& #[trigger] lock_told(before, told, c)
            &&& #[trigger] power::polled(
                told,
                locked,
                clocks::car(0xb0),
                0x0800_0000,
                0x0800_0000,
            )
            &&& after == locked.push(Access::Write(clocks::car(0xb4), 0x1203))
        }
}

/// The audio clock was told to lock, and does not.
pub open spec fn lock_failed(
    before: Seq<Access>,
    after: Seq<Access>,
    c: AudioClock,
    e: &'static str,
) -> bool {
    exists|told: Seq<Access>| #[trigger]
        lock_told(before, told, c) && link::wait_failed(
            told,
            after,
            clocks::car(0xb0),
            0x0800_0000,
            0x0800_0000,
            e,
        )
}

fn lock<R: Timed>(bus: &mut Bus<'_, R>, c: AudioClock) -> (r: Result<(), &'static str>)
    requires
        c.m <= 3,
        c.n <= 61,
    ensures
        final(bus).port() == old(bus).port(),
        mmio::memory_kept(old(bus).log(), final(bus).log()),
        mmio::begins(mmio::writes(final(bus).log()), mmio::writes(old(bus).log())),
        match r {
            Ok(_) => was_locked(old(bus).log(), final(bus).log(), c),
            Err(e) => lock_failed(old(bus).log(), final(bus).log(), c, e),
        },
{
    let base: u32 = c.n * 256 + c.m;
    let out: u32 = bus.read(CAR + 0xb4);
    bus.write(CAR + 0xb4, out & !3);
    bus.write(CAR + 0xb0, 0x0210_0000 + base);
    bus.write(CAR + 0xbc, 0x1200_0020);
    bus.write(CAR + 0xb8, c.sdm);
    bus.write(CAR + 0x5d8, 0x0400_0000);
    bus.write(CAR + 0xb0, 0x0010_0000 + base);
    bus.delay_us(10);
    bus.write(CAR + 0xb0, 0x4010_0000 + base);
    let ghost told = bus.log();
    assert(mmio::value_at(told, old(bus).log().len() as int) == out);
    assert(mmio::did(old(bus).log(), told, lock_steps(c, out)));
    assert(lock_told(old(bus).log(), told, c));
    wait(bus, CAR + 0xb0, 0x0800_0000, 0x0800_0000)?;
    let ghost locked = bus.log();
    assert(power::polled(told, locked, clocks::car(0xb0), 0x0800_0000, 0x0800_0000));
    bus.write(CAR + 0xb4, 0x1203);
    Ok(())
}

pub const PARTITION: u32 = 0x0800_0000;

/// The units are held in reset, and their partition was asked.
pub open spec fn hold_steps() -> Seq<Step> {
    seq![
        Step::Write(clocks::car(0x2a8), 0x40),
        Step::Write(clocks::car(0x430), 0xc00),
        Step::Write(clocks::car(0x6c0), 0x8000_0006),
        Step::Write(clocks::car(0x3d0), 0),
        Step::Read(power::pmc(0x38)),
    ]
}

/// Their clocks run, and their clamp is taken off.
pub open spec fn clamp_steps() -> Seq<Step> {
    seq![
        Step::Write(clocks::car(0x29c), 0x40),
        Step::Write(clocks::car(0x440), 0xc00),
        Step::Delay(10),
        Step::Write(power::pmc(0x34), PARTITION),
    ]
}

/// They come out of reset.
pub open spec fn free_steps() -> Seq<Step> {
    seq![
        Step::Write(clocks::car(0x2ac), 0x40),
        Step::Write(clocks::car(0x434), 0xc00),
        Step::Delay(10),
    ]
}

/// The places at which the units were switched on: held, the port free, their partition on,
/// clamped, and no longer so.
pub struct Powering {
    pub held: Seq<Access>,
    pub free: Seq<Access>,
    pub on: Seq<Access>,
    pub clamped: Seq<Access>,
    pub open: Seq<Access>,
}

/// So many steps were over. Whether the partition was on says the reading in the first.
pub open spec fn powering(before: Seq<Access>, p: Powering, was_on: bool, n: int) -> bool {
    &&& mmio::did(before, p.held, hold_steps())
    &&& was_on == (mmio::value_at(p.held, before.len() as int + 4) & PARTITION != 0)
    &&& n > 0 ==> power::polled(p.held, p.free, power::pmc(0x30), 0x100, 0)
    &&& n > 1 ==> (if was_on {
        p.on == p.free
    } else {
        power::polled(
            p.free.push(Access::Write(power::pmc(0x30), 0x11b)),
            p.on,
            power::pmc(0x38),
            PARTITION,
            PARTITION,
        )
    }) && mmio::did(p.on, p.clamped, clamp_steps())
    &&& n > 2 ==> power::polled(p.clamped, p.open, power::pmc(0x2c), PARTITION, 0)
}

/// The units are on, with their clamps released.
pub open spec fn was_powered(before: Seq<Access>, after: Seq<Access>, was_on: bool) -> bool {
    exists|p: Powering| #[trigger]
        powering(before, p, was_on, 3) && mmio::did(p.open, after, free_steps())
}

/// The units were not switched on: the port is busy, the partition does not follow, or its
/// clamps stay.
pub open spec fn power_failed(before: Seq<Access>, after: Seq<Access>, e: &'static str) -> bool {
    exists|p: Powering, was_on: bool, n: int|
        {
            &&& #[trigger] powering(before, p, was_on, n)
            &&& {
                ||| n == 0 && link::wait_failed(p.held, after, power::pmc(0x30), 0x100, 0, e)
                ||| n == 1 && !was_on && link::wait_failed(
                    p.free.push(Access::Write(power::pmc(0x30), 0x11b)),
                    after,
                    power::pmc(0x38),
                    PARTITION,
                    PARTITION,
                    e,
                )
                ||| n == 2 && link::wait_failed(p.clamped, after, power::pmc(0x2c), PARTITION, 0, e)
            }
        }
}

fn switch_on<R: Timed>(bus: &mut Bus<'_, R>) -> (r: Result<bool, &'static str>)
    ensures
        final(bus).port() == old(bus).port(),
        mmio::memory_kept(old(bus).log(), final(bus).log()),
        mmio::begins(mmio::writes(final(bus).log()), mmio::writes(old(bus).log())),
        match r {
            Ok(on) => was_powered(old(bus).log(), final(bus).log(), on),
            Err(e) => power_failed(old(bus).log(), final(bus).log(), e),
        },
{
    let ghost o = bus.log();
    bus.write(CAR + 0x2a8, 0x40);
    bus.write(CAR + 0x430, 0xc00);
    bus.write(CAR + 0x6c0, 0x8000_0006);
    bus.write(CAR + 0x3d0, 0);
    let state: u32 = bus.read(PMC + 0x38);
    let on: bool = state & PARTITION != 0;
    let ghost mut p = Powering { held: bus.log(), free: o, on: o, clamped: o, open: o };
    assert(mmio::did(o, p.held, hold_steps()));
    assert(mmio::value_at(p.held, o.len() as int + 4) == state);
    assert(powering(o, p, on, 0));
    assert(power::pmc(0x30) == PMC + 0x30 && power::pmc(0x2c) == PMC + 0x2c);
    wait(bus, PMC + 0x30, 0x100, 0)?;
    proof {
        p = Powering { free: bus.log(), ..p };
        assert(powering(o, p, on, 1));
    }
    if !on {
        bus.write(PMC + 0x30, 0x11b);
        wait(bus, PMC + 0x38, PARTITION, PARTITION)?;
    }
    proof {
        p = Powering { on: bus.log(), ..p };
    }
    bus.write(CAR + 0x29c, 0x40);
    bus.write(CAR + 0x440, 0xc00);
    bus.delay_us(10);
    bus.write(PMC + 0x34, PARTITION);
    proof {
        p = Powering { clamped: bus.log(), ..p };
        assert(mmio::did(p.on, p.clamped, clamp_steps()));
        assert(powering(o, p, on, 2));
    }
    wait(bus, PMC + 0x2c, PARTITION, 0)?;
    proof {
        p = Powering { open: bus.log(), ..p };
        assert(powering(o, p, on, 3));
    }
    bus.write(CAR + 0x2ac, 0x40);
    bus.write(CAR + 0x434, 0xc00);
    bus.delay_us(10);
    assert(mmio::did(p.open, bus.log(), free_steps()));
    Ok(on)
}

pub const GATES_L: u32 = 0x4004_0c00;

pub const GATES_V: u32 = 0x60;

/// What runs one serial link once, and leaves it as it was, by what was read of it.
pub open spec fn run_steps(i: int, control: u32) -> Seq<Step> {
    let base = 0x1000 + i * 0x100;
    seq![
        Step::Read(link::ahub(base + 0xa0)),
        Step::Write(link::ahub(base + 0xa0), control | 0x400),
        Step::Write(link::ahub(base + 0x88), 0),
        Step::Read(link::ahub(base + 0x88)),
        Step::Write(link::ahub(base + 0x88), 1),
        Step::Write(link::ahub(base + 0xa0), control),
    ]
}

/// One serial link was run once.
pub open spec fn was_run(before: Seq<Access>, after: Seq<Access>, i: int) -> bool {
    mmio::did(before, after, run_steps(i, mmio::value_at(after, before.len() as int)))
}

/// The first serial links were run once, one after the other.
pub open spec fn were_run(before: Seq<Access>, after: Seq<Access>, count: int) -> bool
    decreases count,
{
    if count <= 0 {
        after == before
    } else {
        exists|a: Seq<Access>|
            were_run(before, a, count - 1) && #[trigger] was_run(a, after, count - 1)
    }
}

/// What clocks all links, by what was read of two overrides.
pub open spec fn warm_steps(c: u32, e: u32) -> Seq<Step> {
    seq![
        Step::Read(clocks::car(0x10)),
        Step::Read(clocks::car(0x360)),
        Step::Write(clocks::car(0x320), GATES_L),
        Step::Write(clocks::car(0x440), GATES_V),
        Step::Read(clocks::car(0x3a0)),
        Step::Read(clocks::car(0x554)),
        Step::Write(clocks::car(0x3a0), c | 2),
        Step::Write(clocks::car(0x554), e | 0xc00),
        Step::Delay(1),
    ]
}

/// What leaves every gate and override as it was.
pub open spec fn cool_steps(l: u32, v: u32, c: u32, e: u32) -> Seq<Step> {
    seq![
        Step::Write(clocks::car(0x3a0), c),
        Step::Write(clocks::car(0x554), e),
        Step::Write(clocks::car(0x324), GATES_L & !l),
        Step::Write(clocks::car(0x444), GATES_V & !v),
    ]
}

/// The self test of a unit that was off could pass: all links were clocked and run for a
/// moment, and every gate and override was left as it was.
pub open spec fn was_warmed(before: Seq<Access>, after: Seq<Access>) -> bool {
    let n = before.len() as int;
    exists|a: Seq<Access>, b: Seq<Access>|
        {
            &&& #[trigger] mmio::did(
                before,
                a,
                warm_steps(mmio::value_at(a, n + 4), mmio::value_at(a, n + 5)),
            )
            &&& #[trigger] were_run(a, b, 5)
            &&& mmio::did(
                b,
                after,
                cool_steps(
                    mmio::value_at(a, n),
                    mmio::value_at(a, n + 1),
                    mmio::value_at(a, n + 4),
                    mmio::value_at(a, n + 5),
                ),
            )
        }
}

#[verifier::rlimit(60)]
fn warm<R: Timed>(bus: &mut Bus<'_, R>)
    ensures
        final(bus).port() == old(bus).port(),
        mmio::memory_kept(old(bus).log(), final(bus).log()),
        mmio::begins(mmio::writes(final(bus).log()), mmio::writes(old(bus).log())),
        was_warmed(old(bus).log(), final(bus).log()),
{
    let ghost n = bus.log().len() as int;
    let l: u32 = bus.read(CAR + 0x10);
    let v: u32 = bus.read(CAR + 0x360);
    bus.write(CAR + 0x320, GATES_L);
    bus.write(CAR + 0x440, GATES_V);
    let c: u32 = bus.read(CAR + 0x3a0);
    let e: u32 = bus.read(CAR + 0x554);
    bus.write(CAR + 0x3a0, c | 2);
    bus.write(CAR + 0x554, e | 0xc00);
    bus.delay_us(1);
    let ghost a = bus.log();
    assert(mmio::did(old(bus).log(), a, warm_steps(c, e)));
    assert(mmio::value_at(a, n) == l && mmio::value_at(a, n + 1) == v);
    assert(mmio::value_at(a, n + 4) == c && mmio::value_at(a, n + 5) == e);
    let mut i: usize = 0;
    while i < 5
        invariant
            bus.port() == old(bus).port(),
            i <= 5,
            mmio::memory_kept(old(bus).log(), bus.log()),
            mmio::begins(mmio::writes(bus.log()), mmio::writes(old(bus).log())),
            were_run(a, bus.log(), i as int),
        decreases 5 - i,
    {
        let ghost before = bus.log();
        let base: usize = AHUB + 0x1000 + i * 0x100;
        let control: u32 = bus.read(base + 0xa0);
        bus.write(base + 0xa0, control | 0x400);
        bus.write(base + 0x88, 0);
        let _ = bus.read(base + 0x88);
        bus.write(base + 0x88, 1);
        bus.write(base + 0xa0, control);
        proof {
            assert(mmio::value_at(bus.log(), before.len() as int) == control);
            assert(mmio::did(before, bus.log(), run_steps(i as int, control)));
        }
        i = i + 1;
        assert(was_run(before, bus.log(), i as int - 1));
    }
    let ghost b = bus.log();
    bus.write(CAR + 0x3a0, c);
    bus.write(CAR + 0x554, e);
    bus.write(CAR + 0x324, GATES_L & !l);
    bus.write(CAR + 0x444, GATES_V & !v);
    assert(mmio::did(b, bus.log(), cool_steps(l, v, c, e)));
    assert(was_warmed(old(bus).log(), bus.log())) by {
        assert(mmio::did(
            old(bus).log(),
            a,
            warm_steps(mmio::value_at(a, n + 4), mmio::value_at(a, n + 5)),
        ));
        assert(were_run(a, b, 5));
    }
}

/// What clocks the link and the codec, and powers their pins, by what was read.
pub open spec fn clock_steps(out: u32, off: u32, high: u32) -> Seq<Step> {
    seq![
        Step::Write(clocks::car(0x1d8), 46),
        Step::Write(clocks::car(0x3ec), 4),
        Step::Write(clocks::car(0x320), 0x4000_0000),
        Step::Write(clocks::car(0x440), 0x0100_0000),
        Step::Write(clocks::car(0x304), 0x4000_0000),
        Step::Write(clocks::car(0x434), 0x0100_0000),
        Step::Delay(10),
        Step::Read(power::pmc(0x1a8)),
        Step::Write(power::pmc(0x1a8), (out & !0xc0u32) | 0xc0 | 4),
        Step::Read(power::pmc(0x44)),
        Step::Write(power::pmc(0x44), off & !0x4_0020u32),
        Step::Read(power::pmc(0xe4)),
        Step::Write(power::pmc(0xe4), high & !0x4_0020u32),
    ]
}

/// The link and the codec are clocked, and their pins powered.
pub open spec fn was_clocked(before: Seq<Access>, after: Seq<Access>) -> bool {
    let n = before.len() as int;
    mmio::did(
        before,
        after,
        clock_steps(
            mmio::value_at(after, n + 7),
            mmio::value_at(after, n + 9),
            mmio::value_at(after, n + 11),
        ),
    )
}

fn clock_link<R: Timed>(bus: &mut Bus<'_, R>)
    ensures
        final(bus).port() == old(bus).port(),
        mmio::memory_kept(old(bus).log(), final(bus).log()),
        mmio::begins(mmio::writes(final(bus).log()), mmio::writes(old(bus).log())),
        was_clocked(old(bus).log(), final(bus).log()),
{
    bus.write(CAR + 0x1d8, 46);
    bus.write(CAR + 0x3ec, 4);
    bus.write(CAR + 0x320, 0x4000_0000);
    bus.write(CAR + 0x440, 0x0100_0000);
    bus.write(CAR + 0x304, 0x4000_0000);
    bus.write(CAR + 0x434, 0x0100_0000);
    bus.delay_us(10);
    let out: u32 = bus.read(PMC + 0x1a8);
    bus.write(PMC + 0x1a8, (out & !0xc0) | 0xc0 | 4);
    let off: u32 = bus.read(PMC + 0x44);
    bus.write(PMC + 0x44, off & !0x4_0020);
    let high: u32 = bus.read(PMC + 0xe4);
    bus.write(PMC + 0xe4, high & !0x4_0020);
    assert(mmio::did(old(bus).log(), bus.log(), clock_steps(out, off, high)));
    proof {
        let n = old(bus).log().len() as int;
        assert(mmio::value_at(bus.log(), n + 7) == out);
        assert(mmio::value_at(bus.log(), n + 9) == off);
        assert(mmio::value_at(bus.log(), n + 11) == high);
    }
}

/// Pins sleep, and are told to wake.
pub open spec fn waking(
    before: Seq<Access>,
    request: int,
    status: int,
    mask: u32,
    state: u32,
) -> Seq<Access> {
    before.push(Access::Read(power::pmc(status), state)).push(
        Access::Write(power::pmc(request), 0x4000_0000 | mask),
    )
}

/// Pins that slept are woken, and those that did not are left alone.
pub open spec fn was_woken(
    before: Seq<Access>,
    after: Seq<Access>,
    request: int,
    status: int,
    mask: u32,
) -> bool {
    exists|state: u32|
        if state & mask != 0 {
            power::polled(
                #[trigger] waking(before, request, status, mask, state),
                after,
                power::pmc(status),
                mask,
                0,
            )
        } else {
            after == before.push(Access::Read(power::pmc(status), state))
        }
}

/// Pins that slept were not woken.
pub open spec fn wake_failed(
    before: Seq<Access>,
    after: Seq<Access>,
    request: int,
    status: int,
    mask: u32,
    e: &'static str,
) -> bool {
    exists|state: u32|
        state & mask != 0 && link::wait_failed(
            #[trigger] waking(before, request, status, mask, state),
            after,
            power::pmc(status),
            mask,
            0,
            e,
        )
}

fn wake<R: Timed>(bus: &mut Bus<'_, R>, request: usize, status: usize, mask: u32) -> (r: Result<
    (),
    &'static str,
>)
    requires
        request < 0x400,
        status < 0x400,
    ensures
        final(bus).port() == old(bus).port(),
        mmio::memory_kept(old(bus).log(), final(bus).log()),
        mmio::begins(mmio::writes(final(bus).log()), mmio::writes(old(bus).log())),
        match r {
            Ok(_) => was_woken(
                old(bus).log(),
                final(bus).log(),
                request as int,
                status as int,
                mask,
            ),
            Err(e) => wake_failed(
                old(bus).log(),
                final(bus).log(),
                request as int,
                status as int,
                mask,
                e,
            ),
        },
{
    let state: u32 = bus.read(PMC + status);
    let ghost told = waking(old(bus).log(), request as int, status as int, mask, state);
    if state & mask != 0 {
        bus.write(PMC + request, 0x4000_0000 | mask);
        assert(bus.log() == told);
        wait(bus, PMC + status, mask, 0)?;
    }
    Ok(())
}

/// The function of a pin, given to its peripheral.
pub open spec fn pin_writes(offset: int, value: u32, pin: u32) -> Seq<(usize, u32)> {
    seq![((PADS + offset) as usize, value), gpio::masked_write(pin, 0x80, false)]
}

/// What gives the link and the codec's clock their pins.
pub open spec fn connection() -> Seq<(usize, u32)> {
    pin_writes(0x124, 4, 8) + pin_writes(0x128, 0x54, 9) + pin_writes(0x12c, 4, 10) + pin_writes(
        0x130,
        4,
        11,
    ) + pin_writes(0x180, 4, 216)
}

fn connect<R: Timed>(bus: &mut Bus<'_, R>, gpio: &TegraGpio) -> (r: Result<(), &'static str>)
    ensures
        final(bus).port() == old(bus).port(),
        r == Ok::<(), &'static str>(()),
        mmio::memory_kept(old(bus).log(), final(bus).log()),
        mmio::only_wrote(old(bus).log(), final(bus).log(), connection()),
{
    pad(bus, 0x124, 4)?;
    gpio.peripheral(bus, 8)?;
    pad(bus, 0x128, 0x54)?;
    gpio.peripheral(bus, 9)?;
    pad(bus, 0x12c, 4)?;
    gpio.peripheral(bus, 10)?;
    pad(bus, 0x130, 4)?;
    gpio.peripheral(bus, 11)?;
    pad(bus, 0x180, 4)?;
    gpio.peripheral(bus, 216)?;
    assert(mmio::writes(bus.log()) =~= mmio::writes(old(bus).log()) + connection());
    Ok(())
}

/// The memory engine was reset, and runs without gating its own clock.
pub open spec fn was_launched(before: Seq<Access>, after: Seq<Access>) -> bool {
    exists|a: Seq<Access>| #[trigger]
        power::polled(
            before.push(Access::Write(link::adma(0xc04), 1)),
            a,
            link::adma(0xc04),
            1,
            0,
        ) && after == a.push(Access::Write(link::adma(0xc20), 1)).push(
            Access::Write(link::adma(0xc08), 0),
        ).push(Access::Write(link::adma(0xc00), 1))
}

/// The memory engine does not come out of reset.
pub open spec fn launch_failed(before: Seq<Access>, after: Seq<Access>, e: &'static str) -> bool {
    link::wait_failed(
        before.push(Access::Write(link::adma(0xc04), 1)),
        after,
        link::adma(0xc04),
        1,
        0,
        e,
    )
}

fn start_engine<R: Timed>(bus: &mut Bus<'_, R>) -> (r: Result<(), &'static str>)
    ensures
        final(bus).port() == old(bus).port(),
        mmio::memory_kept(old(bus).log(), final(bus).log()),
        mmio::begins(mmio::writes(final(bus).log()), mmio::writes(old(bus).log())),
        match r {
            Ok(_) => was_launched(old(bus).log(), final(bus).log()),
            Err(e) => launch_failed(old(bus).log(), final(bus).log(), e),
        },
{
    bus.write(ADMA + 0xc04, 1);
    assert(link::adma(0xc04) == ADMA + 0xc04);
    wait(bus, ADMA + 0xc04, 1, 0)?;
    let ghost a = bus.log();
    assert(power::polled(
        old(bus).log().push(Access::Write(link::adma(0xc04), 1)),
        a,
        link::adma(0xc04),
        1,
        0,
    ));
    bus.write(ADMA + 0xc20, 1);
    bus.write(ADMA + 0xc08, 0);
    bus.write(ADMA + 0xc00, 1);
    Ok(())
}

/// It was read whether the audio units translate addresses: the second register only where
/// the first says that anything does.
pub open spec fn glance(before: Seq<Access>, control: u32, table: u32) -> Seq<Access> {
    let first = before.push(Access::Read((MC + 0x10) as usize, control));
    if control & 1 != 0 {
        first.push(Access::Read((MC + 0xab8) as usize, table))
    } else {
        first
    }
}

/// The clock that the units get, or what speaks against their use: addresses that are
/// translated through tables that someone else left behind, or an unknown oscillator.
pub open spec fn was_inherited(
    before: Seq<Access>,
    after: Seq<Access>,
    r: Result<AudioClock, &'static str>,
) -> bool {
    exists|control: u32, table: u32, osc: u32|
        {
            let seen = #[trigger] glance(before, control, table);
            if control & 1 != 0 && table >= 0x8000_0000 {
                r == Err::<AudioClock, &'static str>("audio inherited SMMU translation unsupported")
                    && after == seen
            } else {
                r == #[trigger] clock_spec(osc) && after == seen.push(
                    Access::Read(clocks::car(0x50), osc),
                )
            }
        }
}

/// The places of a start of the units: the clock locked, the units on, warm, the link
/// clocked, both groups of pins awake, and the pins given away.
pub struct Rising {
    pub locked: Seq<Access>,
    pub was_on: bool,
    pub powered: Seq<Access>,
    pub warm: Seq<Access>,
    pub clocked: Seq<Access>,
    pub first: Seq<Access>,
    pub second: Seq<Access>,
    pub connected: Seq<Access>,
}

/// So many steps of a start were over.
pub open spec fn rising(before: Seq<Access>, s: Rising, c: AudioClock, n: int) -> bool {
    &&& n > 0 ==> was_locked(before, s.locked, c)
    &&& n > 1 ==> was_powered(s.locked, s.powered, s.was_on) && (if s.was_on {
        s.warm == s.powered
    } else {
        was_warmed(s.powered, s.warm)
    }) && was_clocked(s.warm, s.clocked)
    &&& n > 2 ==> was_woken(s.clocked, s.first, 0x1b8, 0x1bc, 0x2_0000)
    &&& n > 3 ==> was_woken(s.first, s.second, 0x1c0, 0x1c4, 0x2000_0000) && mmio::only_wrote(
        s.second,
        s.connected,
        connection(),
    )
}

/// Everything from the locked clock to the engine was done, in order.
pub open spec fn was_prepared(before: Seq<Access>, after: Seq<Access>, c: AudioClock) -> bool {
    exists|s: Rising| #[trigger] rising(before, s, c, 4) && was_launched(s.connected, after)
}

/// Nothing spoke against the units, and they were brought up with their clock.
pub open spec fn was_opened(before: Seq<Access>, after: Seq<Access>, c: AudioClock) -> bool {
    exists|start: Seq<Access>| #[trigger]
        was_inherited(before, start, Ok(c)) && was_prepared(start, after, c)
}

/// The units were not brought up: where it stopped, and why.
pub open spec fn prepare_failed(
    before: Seq<Access>,
    after: Seq<Access>,
    c: AudioClock,
    e: &'static str,
) -> bool {
    exists|s: Rising, n: int|
        {
            &&& #[trigger] rising(before, s, c, n)
            &&& {
                ||| n == 0 && lock_failed(before, after, c, e)
                ||| n == 1 && power_failed(s.locked, after, e)
                ||| n == 2 && wake_failed(s.clocked, after, 0x1b8, 0x1bc, 0x2_0000, e)
                ||| n == 3 && wake_failed(s.first, after, 0x1c0, 0x1c4, 0x2000_0000, e)
                ||| n == 4 && launch_failed(s.connected, after, e)
            }
        }
}

/// The audio units, ready for use.
#[derive(Clone, Copy, Debug, PartialEq, Eq, Structural)]
pub struct AudioPlatform {
    pub clock: AudioClock,
}

impl AudioPlatform {
    /// The clock that the units get, unless something speaks against their use.
    fn inherited<R: Timed>(bus: &mut Bus<'_, R>) -> (r: Result<AudioClock, &'static str>)
        ensures
            final(bus).port() == old(bus).port(),
            mmio::quiet(old(bus).log(), final(bus).log()),
            was_inherited(old(bus).log(), final(bus).log(), r),
            r matches Ok(clock) ==> clock.m <= 3 && clock.n <= 61,
    {
        let control: u32 = bus.read(MC + 0x10);
        let mut table: u32 = 0;
        if control & 1 != 0 {
            table = bus.read(MC + 0xab8);
        }
        assert(bus.log() == glance(old(bus).log(), control, table));
        if control & 1 != 0 && table >= 0x8000_0000 {
            assert(clock_spec(0) is Err);
            return Err("audio inherited SMMU translation unsupported");
        }
        let osc: u32 = bus.read(CAR + 0x50);
        audio_clock(osc)
    }

    /// Brings the audio units up. Nothing is written where their addresses are
    /// translated, or where the oscillator is not known. The codec is muted before.
    #[verifier::rlimit(60)]
    pub fn new<R: Timed>(bus: &mut Bus<'_, R>, gpio: &TegraGpio) -> (r: Result<
        Self,
        &'static str,
    >)
        ensures
            final(bus).port() == old(bus).port(),
            mmio::memory_kept(old(bus).log(), final(bus).log()),
            mmio::begins(mmio::writes(final(bus).log()), mmio::writes(old(bus).log())),
            match r {
                Ok(platform) => was_opened(old(bus).log(), final(bus).log(), platform.clock),
                Err(e) => {
                    ||| was_inherited(old(bus).log(), final(bus).log(), Err(e))
                    ||| exists|start: Seq<Access>, clock: AudioClock| #[trigger]
                        was_inherited(old(bus).log(), start, Ok(clock)) && prepare_failed(
                            start,
                            final(bus).log(),
                            clock,
                            e,
                        )
                },
            },
    {
        let clock = Self::inherited(bus)?;
        let ghost start = bus.log();
        assert(was_inherited(old(bus).log(), start, Ok(clock)));
        let ghost mut s = Rising {
            locked: start,
            was_on: false,
            powered: start,
            warm: start,
            clocked: start,
            first: start,
            second: start,
            connected: start,
        };
        assert(rising(start, s, clock, 0));
        lock(bus, clock)?;
        proof {
            s = Rising { locked: bus.log(), ..s };
            assert(rising(start, s, clock, 1));
        }
        let on: bool = switch_on(bus)?;
        proof {
            s = Rising { was_on: on, powered: bus.log(), ..s };
        }
        if !on {
            warm(bus);
        }
        proof {
            s = Rising { warm: bus.log(), ..s };
        }
        clock_link(bus);
        proof {
            s = Rising { clocked: bus.log(), ..s };
            assert(rising(start, s, clock, 2));
        }
        wake(bus, 0x1b8, 0x1bc, 0x2_0000)?;
        proof {
            s = Rising { first: bus.log(), ..s };
            assert(rising(start, s, clock, 3));
        }
        wake(bus, 0x1c0, 0x1c4, 0x2000_0000)?;
        proof {
            s = Rising { second: bus.log(), ..s };
        }
        connect(bus, gpio)?;
        proof {
            s = Rising { connected: bus.log(), ..s };
            assert(rising(start, s, clock, 4));
        }
        start_engine(bus)?;
        assert(was_prepared(start, bus.log(), clock));
        assert(was_opened(old(bus).log(), bus.log(), clock));
        Ok(AudioPlatform { clock })
    }
}

/// The PLL is taken from its output, set with its reset, and let go before it is enabled; its
/// dividers stand where they are read.
pub proof fn plls_are_set_before_they_run(c: AudioClock, out: u32)
    requires
        c.n < 256,
        c.m < 256,
    ensures
        ({
            let s = lock_steps(c, out);
            &&& s.len() == 9
            &&& s[1] == Step::Write(0x6000_60b4, out & !3u32)
            &&& s[2] matches Step::Write(r, v) && r == 0x6000_60b0 && v % 256 == c.m && v / 256
                % 256 == c.n && v / 0x200_0000 == 1
            &&& s[3] == Step::Write(0x6000_60bc, 0x1200_0020)
            &&& s[4] == Step::Write(0x6000_60b8, c.sdm)
            &&& s[6] matches Step::Write(r, v) && r == 0x6000_60b0 && v % 256 == c.m && v / 256
                % 256 == c.n && v / 0x200_0000 == 0
            &&& s[7] == Step::Delay(10)
            &&& s[8] matches Step::Write(r, v) && r == 0x6000_60b0 && v % 256 == c.m && v / 256
                % 256 == c.n && v / 0x4000_0000 == 1
        }),
{
}

/// The pads of the sound are in the order of their pins, and the one that is heard is read.
pub proof fn sounds_get_their_pins(i: int)
    requires
        0 <= i < 5,
    ensures
        ({
            let w = connection();
            let pin = if i < 4 {
                8 + i
            } else {
                216
            };
            &&& w.len() == 10
            &&& w[2 * i].0 == if i < 4 {
                0x7000_3124 + 4 * i
            } else {
                0x7000_3180
            }
            &&& w[2 * i].1 == if i == 1 {
                0x54int
            } else {
                4
            }
            &&& w[2 * i + 1] == gpio::masked_write(pin as u32, 0x80, false)
        }),
{
}

} // verus!
