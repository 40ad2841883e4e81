//! The PLL of the graphics processor at a fixed voltage, and its post-divider.
use vstd::prelude::*;

use crate::devicetree;
use crate::devicetree::{check_fuses, read_nodes};
use crate::gpu::hardware;
use crate::gpu::hardware::{measure_clock, SEL_VCO};
use crate::mmio;
use crate::mmio::{Access, Bus, Timed};
use crate::rounding;
use crate::rounding::{closest, divide};

verus! {

pub const CFG: usize = 0x13_7000;

pub const COEFF: usize = 0x13_7004;

pub const DVFS1: usize = 0x13_7014;

pub const THERM_USE_A: usize = 0x2_0798;

pub const ENABLE: u32 = 1;

pub const IDDQ: u32 = 2;

pub const SYNC_MODE: u32 = 4;

pub const LOCKDET_OFF: u32 = 0x10;

pub const LOCKED: u32 = 0x2_0000;

/// Enabled, synchronous and locked.
pub const RUNNING: u32 = 0x2_0005;

pub const REFERENCE_HZ: u32 = 38_400_000;

pub const BOOST_RATE_HZ: u64 = 307_200_000;

/// Rates at the one voltage: only the post-divider differs.
pub const RATES_KHZ: [u64; 4] = [76_800, 153_600, 230_400, 307_200];

/// Pre-divider 1, multiplier 48, post-divider 3: an oscillator of 1843.2 MHz.
pub const MNP: u32 = 0x3_3001;

pub const PL_MASK: u32 = 0x3f_0000;

/// The lowest voltage at which the PLL is used.
pub const FLOOR_UV: u32 = 950_000;

pub const STEP_UV: u32 = 6_250;

#[derive(Clone, Copy, Debug, PartialEq, Eq)]
pub enum RateChangeError {
    /// The previous rate is running.
    Reverted(&'static str),
    /// Nothing is known of the clock.
    Unsafe(&'static str),
}

pub open spec fn divider_spec(rate_khz: u64) -> Option<u32> {
    if rate_khz == 76_800 {
        Some(12)
    } else if rate_khz == 153_600 {
        Some(6)
    } else if rate_khz == 230_400 {
        Some(4)
    } else if rate_khz == 307_200 {
        Some(3)
    } else {
        None
    }
}

fn pl_for_rate(rate_khz: u64) -> (r: Option<u32>)
    ensures
        r == divider_spec(rate_khz),
{
    match rate_khz {
        76_800 => Some(12),
        153_600 => Some(6),
        230_400 => Some(4),
        307_200 => Some(3),
        _ => None,
    }
}

/// The speed of a chip from its fuses.
pub open spec fn speedo_spec(sku: u32, raw: u32, revision: u32) -> Result<int, &'static str> {
    let speedo = if revision >= 3 {
        raw as int
    } else if revision == 2 {
        rounding::truncated(-1662 + 1082 * raw / 100, 10)
    } else {
        raw - 75
    };
    if sku % 256 != 0x83 {
        Err("fixed GPU PLL currently requires Erista ODN SKU 0x83")
    } else if !(1 <= speedo <= 4000) {
        Err("invalid GPU speedo fuse")
    } else {
        Ok(speedo)
    }
}

/// The curve of the PLL without noise adaption.
pub open spec fn curve_uv(speedo: int) -> int {
    rounding::closest_spec((rounding::closest_spec(1632 * speedo) - 91325) * speedo) + 1977920
}

/// The curve, at least the floor, rounded up to what the rail can give.
pub open spec fn required_spec(speedo: int) -> int {
    let uv = if curve_uv(speedo) > FLOOR_UV {
        curve_uv(speedo)
    } else {
        FLOOR_UV as int
    };
    (uv + STEP_UV - 1) / (STEP_UV as int) * STEP_UV
}

/// The voltage that a chip needs.
pub fn required_voltage(sku: u32, raw: u32, revision: u32) -> (r: Result<u32, &'static str>)
    ensures
        match (r, speedo_spec(sku, raw, revision)) {
            (Ok(uv), Ok(speedo)) => uv == required_spec(speedo),
            (Err(e), Err(f)) => e == f,
            _ => false,
        },
{
    if sku % 256 != 0x83 {
        return Err("fixed GPU PLL currently requires Erista ODN SKU 0x83");
    }
    let speedo: i64 = if revision >= 3 {
        raw as i64
    } else if revision == 2 {
        let scaled: u64 = 1082 * (raw as u64) / 100;
        divide(-1662 + scaled as i64, 10)
    } else {
        raw as i64 - 75
    };
    if speedo < 1 || speedo > 4000 {
        return Err("invalid GPU speedo fuse");
    }
    let slope: i64 = closest(1632 * speedo) - 91325;
    assert(-91325 * 4000 <= slope * speedo <= 91325 * 4000) by (nonlinear_arith)
        requires
            1 <= speedo <= 4000,
            -91325 <= slope <= 91325,
    ;
    let curve: i64 = closest(slope * speedo) + 1977920;
    let uv: i64 = if curve > FLOOR_UV as i64 {
        curve
    } else {
        FLOOR_UV as i64
    };
    let steps: u32 = (uv as u32 + STEP_UV - 1) / STEP_UV;
    Ok(steps * STEP_UV)
}

/// Whether the fuses are where they must be.
pub fn fuses(blob: &[u8]) -> (r: Result<(), &'static str>)
    requires
        devicetree::well_formed(blob@),
    ensures
        match r {
            Ok(_) => devicetree::fuse_error(
                devicetree::tree_nodes(blob@),
                true,
                "missing GPU speedo fuse resource",
                "missing GPU speedo fuse registers",
                "unsupported GPU speedo fuse resource",
            ) is None,
            Err(e) => devicetree::fuse_error(
                devicetree::tree_nodes(blob@),
                true,
                "missing GPU speedo fuse resource",
                "missing GPU speedo fuse registers",
                "unsupported GPU speedo fuse resource",
            ) == Some(e),
        },
{
    let nodes = read_nodes(blob);
    check_fuses(
        &nodes,
        true,
        "missing GPU speedo fuse resource",
        "missing GPU speedo fuse registers",
        "unsupported GPU speedo fuse resource",
    )
}

/// What a change of the clock source reads: the throttling, and the selector before
/// and after.
#[derive(Clone, Copy)]
pub struct Switch {
    pub throttle: u32,
    pub vco: u32,
    pub back: u32,
}

/// A change of the clock source. Throttling from outside is off while the source
/// changes, and then as it was.
pub open spec fn switch_log(s: Switch, on: u32) -> Seq<Access> {
    seq![
        Access::Read(THERM_USE_A, s.throttle),
        Access::Write(THERM_USE_A, 0),
        Access::Read(SEL_VCO, s.vco),
        Access::Write(SEL_VCO, (s.vco & !1u32) | on),
        Access::Read(SEL_VCO, s.back),
        Access::Write(THERM_USE_A, s.throttle),
    ]
}

/// Selects the PLL, or the reference in its place.
pub fn select_vco<R: Timed>(bus: &mut Bus<'_, R>, enabled: bool) -> (found: Ghost<Switch>)
    ensures
        final(bus).port() == old(bus).port(),
        final(bus).log() == old(bus).log() + switch_log(
            found@,
            if enabled {
                1
            } else {
                0
            },
        ),
        mmio::extends(old(bus).log(), final(bus).log()),
        forall|o: usize|
            #![trigger mmio::reads(final(bus).log(), o)]
            o != THERM_USE_A && o != SEL_VCO ==> mmio::reads(final(bus).log(), o) == mmio::reads(
                old(bus).log(),
                o,
            ),
{
    let throttle: u32 = bus.read(THERM_USE_A);
    bus.write(THERM_USE_A, 0);
    let vco: u32 = bus.read(SEL_VCO);
    let on: u32 = if enabled {
        1
    } else {
        0
    };
    bus.write(SEL_VCO, (vco & !1) | on);
    let back: u32 = bus.read(SEL_VCO);
    bus.write(THERM_USE_A, throttle);
    let ghost found = Switch { throttle, vco, back };
    assert(bus.log() =~= old(bus).log() + switch_log(found, on));
    Ghost(found)
}

/// What stopping the PLL reads.
#[derive(Clone, Copy)]
pub struct Stop {
    pub switch: Switch,
    pub synchronous: u32,
    pub settled: u32,
    pub enabled: u32,
    pub stopped: u32,
}

/// The PLL is taken out of use, and then stopped.
pub open spec fn stop_log(s: Stop) -> Seq<Access> {
    switch_log(s.switch, 0) + seq![
        Access::Read(CFG, s.synchronous),
        Access::Write(CFG, s.synchronous & !SYNC_MODE),
        Access::Read(CFG, s.settled),
        Access::Read(CFG, s.enabled),
        Access::Write(CFG, s.enabled & !ENABLE),
        Access::Read(CFG, s.stopped),
    ]
}

pub fn disable<R: Timed>(bus: &mut Bus<'_, R>) -> (found: Ghost<Stop>)
    ensures
        final(bus).port() == old(bus).port(),
        final(bus).log() == old(bus).log() + stop_log(found@),
        mmio::extends(old(bus).log(), final(bus).log()),
        forall|o: usize|
            #![trigger mmio::reads(final(bus).log(), o)]
            o != THERM_USE_A && o != SEL_VCO && o != CFG ==> mmio::reads(final(bus).log(), o)
                == mmio::reads(old(bus).log(), o),
{
    let switch: Ghost<Switch> = select_vco(bus, false);
    let synchronous: u32 = bus.read(CFG);
    bus.write(CFG, synchronous & !SYNC_MODE);
    let settled: u32 = bus.read(CFG);
    let enabled: u32 = bus.read(CFG);
    bus.write(CFG, enabled & !ENABLE);
    let stopped: u32 = bus.read(CFG);
    let ghost found = Stop { switch: switch@, synchronous, settled, enabled, stopped };
    assert(bus.log() =~= old(bus).log() + stop_log(found));
    Ghost(found)
}

/// The running rate, from the PLL's own registers.
pub open spec fn decoded(cfg: u32, coeff: u32, vco: u32) -> Result<u64, &'static str> {
    let pl = coeff as int / 0x1_0000 % 64;
    if cfg == u32::MAX || coeff == u32::MAX || vco == u32::MAX || cfg & RUNNING != RUNNING || vco
        & 1 == 0 || coeff % 0x1_0000 != MNP % 0x1_0000 {
        Err("GPU PLL is not in the validated running configuration")
    } else if pl == 12 {
        Ok(76_800)
    } else if pl == 6 {
        Ok(153_600)
    } else if pl == 4 {
        Ok(230_400)
    } else if pl == 3 {
        Ok(307_200)
    } else {
        Err("GPU PLL post-divider is not an available OPP")
    }
}

pub open spec fn last(log: Seq<Access>, offset: usize) -> u32 {
    mmio::reads(log, offset).last()
}

pub open spec fn shown(log: Seq<Access>) -> Result<u64, &'static str> {
    decoded(last(log, CFG), last(log, COEFF), last(log, SEL_VCO))
}

/// The three registers are read.
pub open spec fn rate_log(cfg: u32, coeff: u32, vco: u32) -> Seq<Access> {
    seq![Access::Read(CFG, cfg), Access::Read(COEFF, coeff), Access::Read(SEL_VCO, vco)]
}

/// Reads and decodes the PLL: no remembered target, no counter.
pub fn current_rate_khz<R: Timed>(bus: &mut Bus<'_, R>, reference_hz: u32) -> (r: Result<
    u64,
    &'static str,
>)
    ensures
        final(bus).port() == old(bus).port(),
        reference_hz != REFERENCE_HZ ==> r == Err::<u64, &'static str>(
            "unsupported GPU PLL reference",
        ) && final(bus).log() == old(bus).log(),
        reference_hz == REFERENCE_HZ ==> r == shown(final(bus).log()),
        reference_hz == REFERENCE_HZ ==> final(bus).log() == old(bus).log() + rate_log(
            last(final(bus).log(), CFG),
            last(final(bus).log(), COEFF),
            last(final(bus).log(), SEL_VCO),
        ),
        mmio::writes(final(bus).log()) == mmio::writes(old(bus).log()),
        mmio::extends(old(bus).log(), final(bus).log()),
        r matches Ok(khz) ==> divider_spec(khz) is Some && khz <= 307_200,
        forall|o: usize|
            #![trigger mmio::reads(final(bus).log(), o)]
            o != CFG && o != COEFF && o != SEL_VCO ==> mmio::reads(final(bus).log(), o)
                == mmio::reads(old(bus).log(), o),
{
    if reference_hz != REFERENCE_HZ {
        return Err("unsupported GPU PLL reference");
    }
    let cfg: u32 = bus.read(CFG);
    let coeff: u32 = bus.read(COEFF);
    let vco: u32 = bus.read(SEL_VCO);
    assert(bus.log() =~= old(bus).log() + rate_log(cfg, coeff, vco));
    if cfg == u32::MAX || coeff == u32::MAX || vco == u32::MAX || cfg & RUNNING != RUNNING || vco
        & 1 == 0 || coeff % 0x1_0000 != MNP % 0x1_0000 {
        return Err("GPU PLL is not in the validated running configuration");
    }
    match coeff / 0x1_0000 % 64 {
        12 => Ok(76_800),
        6 => Ok(153_600),
        4 => Ok(230_400),
        3 => Ok(307_200),
        _ => Err("GPU PLL post-divider is not an available OPP"),
    }
}

/// A measured rate within one percent.
pub open spec fn near(hz: u64, wanted_hz: int) -> bool {
    if hz >= wanted_hz {
        hz - wanted_hz <= wanted_hz / 100
    } else {
        wanted_hz - hz <= wanted_hz / 100
    }
}

fn is_near(hz: u64, wanted_hz: u64) -> (r: bool)
    ensures
        r == near(hz, wanted_hz as int),
{
    if hz >= wanted_hz {
        hz - wanted_hz <= wanted_hz / 100
    } else {
        wanted_hz - hz <= wanted_hz / 100
    }
}

/// The registers show a rate, and the counter agrees.
pub open spec fn proved(log: Seq<Access>, rate_khz: u64) -> bool {
    &&& shown(log) == Ok::<u64, &'static str>(rate_khz)
    &&& exists|first: u32|
        (#[trigger] hardware::measured_spec(
            first,
            last(log, hardware::CLOCK_COUNTER),
            REFERENCE_HZ,
        ) matches Some(hz) && near(hz, rate_khz * 1000))
}

/// The coefficients with another post-divider. The oscillator stays as it is.
pub open spec fn with_divider(coeff: u32, pl: u32) -> u32 {
    (coeff & !PL_MASK) | (pl << 16)
}

/// What a trial of a rate reads.
#[derive(Clone, Copy)]
pub struct Trial {
    pub cfg: u32,
    pub coeff: u32,
    pub vco: u32,
    pub settings: u32,
    pub first: u32,
    pub second: u32,
}

pub open spec fn shows(t: Trial, rate_khz: u64) -> bool {
    decoded(t.cfg, t.coeff, t.vco) == Ok::<u64, &'static str>(rate_khz)
}

/// Registers and counter agree on a rate.
pub open spec fn passes(t: Trial, rate_khz: u64) -> bool {
    shows(t, rate_khz) && (hardware::measured_spec(t.first, t.second, REFERENCE_HZ) matches Some(hz)
        && near(hz, rate_khz * 1000))
}

/// A trial. The counter is not always asked.
pub open spec fn trial_log(t: Trial, counted: bool) -> Seq<Access> {
    if counted {
        rate_log(t.cfg, t.coeff, t.vco) + hardware::measure_log(t.settings, t.first, t.second)
    } else {
        rate_log(t.cfg, t.coeff, t.vco)
    }
}

/// Shows a rate by registers and counter. After a failed change the counter is
/// only asked where the registers agree.
fn prove_rate<R: Timed>(bus: &mut Bus<'_, R>, rate_khz: u64, rollback: bool) -> (r: (
    bool,
    Ghost<Trial>,
))
    requires
        rate_khz <= 307_200,
    ensures
        final(bus).port() == old(bus).port(),
        r.0 ==> proved(final(bus).log(), rate_khz),
        r.0 == passes(r.1@, rate_khz),
        final(bus).log() == old(bus).log() + trial_log(
            r.1@,
            !rollback || shows(r.1@, rate_khz),
        ),
        mmio::extends(old(bus).log(), final(bus).log()),
{
    let shown_here: bool = match current_rate_khz(bus, REFERENCE_HZ) {
        Ok(khz) => khz == rate_khz,
        Err(_) => false,
    };
    let ghost known = bus.log();
    let ghost t = Trial {
        cfg: last(known, CFG),
        coeff: last(known, COEFF),
        vco: last(known, SEL_VCO),
        settings: 0,
        first: 0,
        second: 0,
    };
    if rollback && !shown_here {
        return (false, Ghost(t));
    }
    let measured: Option<u64> = measure_clock(bus, REFERENCE_HZ);
    let ghost (settings, first, second) = choose|settings: u32, first: u32, second: u32|
        {
            &&& bus.log() == known + #[trigger] hardware::measure_log(settings, first, second)
            &&& measured == hardware::measured_spec(first, second, REFERENCE_HZ)
            &&& second == last(bus.log(), hardware::CLOCK_COUNTER)
        };
    let ghost t = Trial { settings, first, second, ..t };
    proof {
        assert(last(bus.log(), CFG) == last(known, CFG));
        assert(last(bus.log(), COEFF) == last(known, COEFF));
        assert(last(bus.log(), SEL_VCO) == last(known, SEL_VCO));
        assert(bus.log() =~= old(bus).log() + trial_log(t, true));
    }
    let agrees: bool = match measured {
        None => false,
        Some(hz) => is_near(hz, rate_khz * 1000),
    };
    (shown_here && agrees, Ghost(t))
}

/// Everything that a change of the rate can read, in order.
#[derive(Clone, Copy)]
pub struct Change {
    pub cfg: u32,
    pub coeff: u32,
    pub vco: u32,
    pub previous: u32,
    pub off: Switch,
    pub still: u32,
    pub taken: u32,
    pub on: Switch,
    pub trial: Trial,
    pub off_again: Switch,
    pub restored: u32,
    pub on_again: Switch,
    pub rollback: Trial,
}

/// The rate is read, and the reference selected.
pub open spec fn leave_log(c: Change) -> Seq<Access> {
    rate_log(c.cfg, c.coeff, c.vco) + seq![Access::Read(COEFF, c.previous)] + switch_log(c.off, 0)
        + seq![Access::Delay(1), Access::Read(SEL_VCO, c.still)]
}

/// The post-divider alone changes, and the new rate is tried.
pub open spec fn enter_log(c: Change, pl: u32) -> Seq<Access> {
    seq![
        Access::Write(COEFF, with_divider(c.previous, pl)),
        Access::Read(COEFF, c.taken),
    ] + switch_log(c.on, 1) + trial_log(c.trial, true)
}

/// The coefficients are put back, and the old rate is tried.
pub open spec fn return_log(c: Change, rate_khz: u64) -> Seq<Access> {
    switch_log(c.off_again, 0) + seq![
        Access::Delay(1),
        Access::Write(COEFF, c.previous),
        Access::Read(COEFF, c.restored),
    ] + switch_log(c.on_again, 1) + trial_log(c.rollback, shows(c.rollback, rate_khz))
}

/// What a change of the rate does and comes to, by what it reads.
pub open spec fn rate_change(
    c: Change,
    rate_khz: u64,
    pl: u32,
) -> (Seq<Access>, Result<(), RateChangeError>) {
    match decoded(c.cfg, c.coeff, c.vco) {
        Err(e) => (rate_log(c.cfg, c.coeff, c.vco), Err(RateChangeError::Reverted(e))),
        Ok(now) => if now == rate_khz {
            (rate_log(c.cfg, c.coeff, c.vco), Ok(()))
        } else if c.still & 1 != 0 {
            (
                leave_log(c) + switch_log(c.on, 1),
                Err(RateChangeError::Unsafe("GPU PLL did not enter bypass")),
            )
        } else if passes(c.trial, rate_khz) {
            (leave_log(c) + enter_log(c, pl), Ok(()))
        } else {
            (
                leave_log(c) + enter_log(c, pl) + return_log(c, now),
                if passes(c.rollback, now) {
                    Err(
                        RateChangeError::Reverted(
                            "GPU PLL transition failed; previous rate restored",
                        ),
                    )
                } else {
                    Err(RateChangeError::Unsafe("GPU PLL transition and rollback failed"))
                },
            )
        },
    }
}

pub open spec fn was_changed(
    before: Seq<Access>,
    after: Seq<Access>,
    rate_khz: u64,
    pl: u32,
    r: Result<(), RateChangeError>,
) -> bool {
    &&& mmio::extends(before, after)
    &&& {
        exists|c: Change|
            {
                &&& after == before + (#[trigger] rate_change(c, rate_khz, pl)).0
                &&& r == rate_change(c, rate_khz, pl).1
            }
    }
}

/// Changes the post-divider alone, by way of the reference. A rate that cannot be
/// proved is taken back.
#[verifier::rlimit(80)]
pub fn set_rate_khz<R: Timed>(bus: &mut Bus<'_, R>, reference_hz: u32, rate_khz: u64) -> (r: Result<
    (),
    RateChangeError,
>)
    ensures
        final(bus).port() == old(bus).port(),
        divider_spec(rate_khz) is None ==> r == Err::<(), RateChangeError>(
            RateChangeError::Reverted("unsupported GPU OPP"),
        ) && final(bus).log() == old(bus).log(),
        divider_spec(rate_khz) is Some && reference_hz != REFERENCE_HZ ==> r == Err::<
            (),
            RateChangeError,
        >(RateChangeError::Reverted("unsupported GPU PLL reference")) && final(bus).log() == old(
            bus,
        ).log(),
        divider_spec(rate_khz) matches Some(pl) ==> reference_hz == REFERENCE_HZ ==> was_changed(
            old(bus).log(),
            final(bus).log(),
            rate_khz,
            pl,
            r,
        ),
        // Done: the rate was there before, or it is proved.
        r is Ok ==> {
            ||| mmio::writes(final(bus).log()) == mmio::writes(old(bus).log()) && shown(
                final(bus).log(),
            ) == Ok::<u64, &'static str>(rate_khz)
            ||| proved(final(bus).log(), rate_khz)
        },
        // Reverted: nothing was touched, or the old rate is proved again.
        r matches Err(RateChangeError::Reverted(_)) ==> {
            ||| mmio::writes(final(bus).log()) == mmio::writes(old(bus).log())
            ||| exists|khz: u64| #[trigger] proved(final(bus).log(), khz)
        },
        mmio::extends(old(bus).log(), final(bus).log()),
{
    let ghost start = bus.log();
    let pl: u32 = match pl_for_rate(rate_khz) {
        None => {
            return Err(RateChangeError::Reverted("unsupported GPU OPP"));
        },
        Some(pl) => pl,
    };
    let shown_rate = current_rate_khz(bus, reference_hz);
    let ghost s = Switch { throttle: 0, vco: 0, back: 0 };
    let ghost t = Trial { cfg: 0, coeff: 0, vco: 0, settings: 0, first: 0, second: 0 };
    let ghost c = Change {
        cfg: last(bus.log(), CFG),
        coeff: last(bus.log(), COEFF),
        vco: last(bus.log(), SEL_VCO),
        previous: 0,
        off: s,
        still: 0,
        taken: 0,
        on: s,
        trial: t,
        off_again: s,
        restored: 0,
        on_again: s,
        rollback: t,
    };
    let old_rate: u64 = match shown_rate {
        Err(e) => {
            assert(bus.log() =~= start + rate_change(c, rate_khz, pl).0 || reference_hz
                != REFERENCE_HZ);
            return Err(RateChangeError::Reverted(e));
        },
        Ok(rate) => rate,
    };
    if old_rate == rate_khz {
        assert(bus.log() =~= start + rate_change(c, rate_khz, pl).0);
        return Ok(());
    }
    let previous: u32 = bus.read(COEFF);
    let off: Ghost<Switch> = select_vco(bus, false);
    bus.delay_us(1);
    let still: u32 = bus.read(SEL_VCO);
    let ghost c = Change { previous, off: off@, still, ..c };
    assert(bus.log() =~= start + leave_log(c));
    if still & 1 != 0 {
        let on: Ghost<Switch> = select_vco(bus, true);
        proof {
            let c = Change { on: on@, ..c };
            assert(bus.log() =~= start + rate_change(c, rate_khz, pl).0);
        }
        return Err(RateChangeError::Unsafe("GPU PLL did not enter bypass"));
    }
    bus.write(COEFF, (previous & !PL_MASK) | (pl << 16));
    let taken: u32 = bus.read(COEFF);
    let on: Ghost<Switch> = select_vco(bus, true);
    let (proved_new, trial): (bool, Ghost<Trial>) = prove_rate(bus, rate_khz, false);
    let ghost c = Change { taken, on: on@, trial: trial@, ..c };
    assert(bus.log() =~= start + (leave_log(c) + enter_log(c, pl)));
    if proved_new {
        assert(bus.log() =~= start + rate_change(c, rate_khz, pl).0);
        return Ok(());
    }
    let off_again: Ghost<Switch> = select_vco(bus, false);
    bus.delay_us(1);
    bus.write(COEFF, previous);
    let restored: u32 = bus.read(COEFF);
    let on_again: Ghost<Switch> = select_vco(bus, true);
    let (proved_old, rollback): (bool, Ghost<Trial>) = prove_rate(bus, old_rate, true);
    proof {
        let c = Change {
            off_again: off_again@,
            restored,
            on_again: on_again@,
            rollback: rollback@,
            ..c
        };
        assert(bus.log() =~= start + rate_change(c, rate_khz, pl).0);
    }
    if proved_old {
        Err(RateChangeError::Reverted("GPU PLL transition failed; previous rate restored"))
    } else {
        Err(RateChangeError::Unsafe("GPU PLL transition and rollback failed"))
    }
}

/// What is wrong before anything is touched.
pub open spec fn limits_error(
    reference_hz: u32,
    rail_uv: u32,
    required: Result<u32, &'static str>,
) -> Option<&'static str> {
    if reference_hz != REFERENCE_HZ {
        Some("fixed GPU PLL reference or voltage outside validated limits")
    } else {
        match required {
            Err(e) => Some(e),
            Ok(uv) => if rail_uv < uv {
                Some("fixed GPU PLL reference or voltage outside validated limits")
            } else {
                None
            },
        }
    }
}

/// The PLL runs at its fastest rate, by its registers and by the counter.
pub open spec fn boosted(log: Seq<Access>) -> bool {
    &&& last(log, COEFF) & 0x3f_ffff == MNP
    &&& last(log, CFG) & RUNNING == RUNNING
    &&& last(log, SEL_VCO) & 1 != 0
    &&& exists|first: u32|
        (#[trigger] hardware::measured_spec(
            first,
            last(log, hardware::CLOCK_COUNTER),
            REFERENCE_HZ,
        ) matches Some(hz) && near(hz, BOOST_RATE_HZ as int))
}

/// What a start of the PLL reads before it waits for the lock.
#[derive(Clone, Copy)]
pub struct Start {
    pub cfg: u32,
    pub dvfs: u32,
    pub throttle: u32,
    pub vco: u32,
    pub switch: Switch,
    pub woken: u32,
    pub stop: Stop,
    pub stopped: u32,
    pub started: u32,
    pub detected: u32,
}

/// The four registers that decide whether the PLL is taken over.
pub open spec fn state_log(s: Start) -> Seq<Access> {
    seq![
        Access::Read(CFG, s.cfg),
        Access::Read(DVFS1, s.dvfs),
        Access::Read(THERM_USE_A, s.throttle),
        Access::Read(SEL_VCO, s.vco),
    ]
}

/// Why the PLL is not taken over.
pub open spec fn state_error(s: Start) -> Option<&'static str> {
    if s.cfg == u32::MAX || s.dvfs == u32::MAX || s.throttle == u32::MAX || s.vco == u32::MAX {
        Some("GPU PLL register returned all ones")
    } else if s.dvfs & 0x3000_0000 != 0 {
        Some("inherited GPU noise-adaptive PLL is unsupported")
    } else {
        None
    }
}

/// The PLL is taken out of use, woken or stopped, given its coefficients, and
/// enabled with its lock detector.
pub open spec fn start_log(s: Start) -> Seq<Access> {
    state_log(s) + switch_log(s.switch, 0) + seq![Access::Delay(1)] + (if s.cfg & IDDQ != 0 {
        seq![
            Access::Write(CFG, s.cfg & !IDDQ),
            Access::Read(CFG, s.woken),
            Access::Delay(5),
        ]
    } else {
        stop_log(s.stop)
    }) + seq![
        Access::Write(COEFF, MNP),
        Access::Read(CFG, s.stopped),
        Access::Write(CFG, s.stopped | ENABLE),
        Access::Read(CFG, s.started),
    ] + (if s.started & LOCKDET_OFF != 0 {
        seq![Access::Write(CFG, s.started & !LOCKDET_OFF), Access::Read(CFG, s.detected)]
    } else {
        seq![]
    })
}

/// Waits for the lock, the last of which saw a value.
pub open spec fn lock_log(waits: Seq<u32>) -> Seq<Access>
    decreases waits.len(),
{
    if waits.len() == 0 {
        seq![]
    } else {
        lock_log(waits.drop_last()).push(Access::Delay(1)).push(Access::Read(CFG, waits.last()))
    }
}

pub open spec fn is_locked(cfg: u32) -> bool {
    cfg != u32::MAX && cfg & LOCKED != 0
}

/// The waits end with the first value that shows the lock, or after five hundred.
pub open spec fn waited(waits: Seq<u32>, locked: Option<u32>) -> bool {
    match locked {
        Some(cfg) => {
            &&& 0 < waits.len() <= 500
            &&& waits.last() == cfg && is_locked(cfg)
            &&& forall|i: int| 0 <= i < waits.len() - 1 ==> !is_locked(#[trigger] waits[i])
        },
        None => waits.len() == 500 && forall|i: int|
            0 <= i < 500 ==> !is_locked(#[trigger] waits[i]),
    }
}

/// What is read after the lock.
#[derive(Clone, Copy)]
pub struct Boost {
    pub synchronous: u32,
    pub switch: Switch,
    pub settings: u32,
    pub first: u32,
    pub second: u32,
    pub coeff: u32,
    pub running: u32,
    pub selected: u32,
}

/// The registers that show the rate, as far as none before speaks against it.
pub open spec fn proof_log(b: Boost) -> Seq<Access> {
    if b.coeff & 0x3f_ffff != MNP {
        seq![Access::Read(COEFF, b.coeff)]
    } else if b.running & RUNNING != RUNNING {
        seq![Access::Read(COEFF, b.coeff), Access::Read(CFG, b.running)]
    } else {
        seq![
            Access::Read(COEFF, b.coeff),
            Access::Read(CFG, b.running),
            Access::Read(SEL_VCO, b.selected),
        ]
    }
}

/// The PLL is made synchronous and selected, and its rate is shown by counter and
/// registers.
pub open spec fn boost_log(locked: u32, b: Boost) -> Seq<Access> {
    seq![
        Access::Write(CFG, locked | SYNC_MODE),
        Access::Read(CFG, b.synchronous),
    ] + switch_log(b.switch, 1) + hardware::measure_log(b.settings, b.first, b.second) + proof_log(
        b,
    )
}

/// The readings show the fastest rate.
pub open spec fn is_boosted(b: Boost) -> bool {
    &&& b.coeff & 0x3f_ffff == MNP
    &&& b.running & RUNNING == RUNNING
    &&& b.selected & 1 != 0
    &&& (hardware::measured_spec(b.first, b.second, REFERENCE_HZ) matches Some(hz) && near(
        hz,
        BOOST_RATE_HZ as int,
    ))
}

/// What a start does and comes to, by what it reads.
pub open spec fn start_up(
    s: Start,
    waits: Seq<u32>,
    locked: Option<u32>,
    b: Boost,
    last: Stop,
) -> (Seq<Access>, Result<(), &'static str>) {
    match state_error(s) {
        Some(e) => (state_log(s), Err(e)),
        None => match locked {
            None => (
                start_log(s) + lock_log(waits) + stop_log(last),
                Err("GPU PLL lock timeout"),
            ),
            Some(cfg) => if is_boosted(b) {
                (start_log(s) + lock_log(waits) + boost_log(cfg, b), Ok(()))
            } else {
                (
                    start_log(s) + lock_log(waits) + boost_log(cfg, b) + stop_log(last),
                    Err("GPU PLL frequency/readback mismatch"),
                )
            },
        },
    }
}

pub open spec fn was_started(
    before: Seq<Access>,
    after: Seq<Access>,
    r: Result<(), &'static str>,
) -> bool {
    &&& mmio::extends(before, after)
    &&& {
        exists|s: Start, waits: Seq<u32>, locked: Option<u32>, b: Boost, last: Stop|
            {
                &&& after == before + (#[trigger] start_up(s, waits, locked, b, last)).0
                &&& r == start_up(s, waits, locked, b, last).1
                &&& state_error(s) is None ==> waited(waits, locked)
            }
    }
}

/// Starts the PLL from power-on. Where it cannot be shown to run it is stopped; a
/// PLL with noise adaption is not taken over.
pub fn initialize<R: Timed>(
    bus: &mut Bus<'_, R>,
    reference_hz: u32,
    rail_uv: u32,
    required: Result<u32, &'static str>,
) -> (r: Result<(), &'static str>)
    ensures
        final(bus).port() == old(bus).port(),
        mmio::extends(old(bus).log(), final(bus).log()),
        limits_error(reference_hz, rail_uv, required) matches Some(e) ==> r == Err::<
            (),
            &'static str,
        >(e) && final(bus).log() == old(bus).log(),
        limits_error(reference_hz, rail_uv, required) is None ==> was_started(
            old(bus).log(),
            final(bus).log(),
            r,
        ),
        r is Ok ==> boosted(final(bus).log()),
{
    if reference_hz != REFERENCE_HZ {
        return Err("fixed GPU PLL reference or voltage outside validated limits");
    }
    let needed: u32 = required?;
    if rail_uv < needed {
        return Err("fixed GPU PLL reference or voltage outside validated limits");
    }
    let (early, seen): (Option<&'static str>, Ghost<Start>) = prepare(bus);
    let ghost s = seen@;
    let ghost w = Switch { throttle: 0, vco: 0, back: 0 };
    let ghost none = Stop { switch: w, synchronous: 0, settled: 0, enabled: 0, stopped: 0 };
    let ghost b = Boost {
        synchronous: 0,
        switch: w,
        settings: 0,
        first: 0,
        second: 0,
        coeff: 0,
        running: 0,
        selected: 0,
    };
    if let Some(e) = early {
        assert(bus.log() =~= old(bus).log() + start_up(s, seq![], None, b, none).0);
        return Err(e);
    }
    let ghost prepared = bus.log();
    let (found, waits): (Option<u32>, Ghost<Seq<u32>>) = await_lock(bus);
    let locked: u32 = match found {
        None => {
            let last: Ghost<Stop> = disable(bus);
            assert(bus.log() =~= old(bus).log() + start_up(s, waits@, None, b, last@).0);
            return Err("GPU PLL lock timeout");
        },
        Some(cfg) => cfg,
    };
    let (done, shown_boost): (bool, Ghost<Boost>) = boost(bus, locked);
    if !done {
        let last: Ghost<Stop> = disable(bus);
        assert(bus.log() =~= old(bus).log() + start_up(
            s,
            waits@,
            Some(locked),
            shown_boost@,
            last@,
        ).0);
        return Err("GPU PLL frequency/readback mismatch");
    }
    assert(bus.log() =~= old(bus).log() + start_up(
        s,
        waits@,
        Some(locked),
        shown_boost@,
        none,
    ).0);
    Ok(())
}

/// Everything before the wait for the lock, or why there is none.
fn prepare<R: Timed>(bus: &mut Bus<'_, R>) -> (r: (Option<&'static str>, Ghost<Start>))
    ensures
        final(bus).port() == old(bus).port(),
        r.0 == state_error(r.1@),
        final(bus).log() == old(bus).log() + if r.0 is Some {
            state_log(r.1@)
        } else {
            start_log(r.1@)
        },
{
    let cfg: u32 = bus.read(CFG);
    let dvfs: u32 = bus.read(DVFS1);
    let throttle: u32 = bus.read(THERM_USE_A);
    let vco: u32 = bus.read(SEL_VCO);
    let ghost w = Switch { throttle: 0, vco: 0, back: 0 };
    let ghost none = Stop { switch: w, synchronous: 0, settled: 0, enabled: 0, stopped: 0 };
    let ghost s = Start {
        cfg,
        dvfs,
        throttle,
        vco,
        switch: w,
        woken: 0,
        stop: none,
        stopped: 0,
        started: 0,
        detected: 0,
    };
    assert(bus.log() =~= old(bus).log() + state_log(s));
    if cfg == u32::MAX || dvfs == u32::MAX || throttle == u32::MAX || vco == u32::MAX {
        return (Some("GPU PLL register returned all ones"), Ghost(s));
    }
    if dvfs & 0x3000_0000 != 0 {
        return (Some("inherited GPU noise-adaptive PLL is unsupported"), Ghost(s));
    }
    let switch: Ghost<Switch> = select_vco(bus, false);
    bus.delay_us(1);
    let ghost mut s = Start { switch: switch@, ..s };
    if cfg & IDDQ != 0 {
        bus.write(CFG, cfg & !IDDQ);
        let woken: u32 = bus.read(CFG);
        bus.delay_us(5);
        proof {
            s = Start { woken, ..s };
        }
    } else {
        let stop: Ghost<Stop> = disable(bus);
        proof {
            s = Start { stop: stop@, ..s };
        }
    }
    bus.write(COEFF, MNP);
    let stopped: u32 = bus.read(CFG);
    bus.write(CFG, stopped | ENABLE);
    let started: u32 = bus.read(CFG);
    proof {
        s = Start { stopped, started, ..s };
    }
    if started & LOCKDET_OFF != 0 {
        bus.write(CFG, started & !LOCKDET_OFF);
        let detected: u32 = bus.read(CFG);
        proof {
            s = Start { detected, ..s };
        }
    }
    assert(bus.log() =~= old(bus).log() + start_log(s));
    (None, Ghost(s))
}

/// Puts the locked PLL to use, and tells whether it shows its fastest rate.
fn boost<R: Timed>(bus: &mut Bus<'_, R>, locked: u32) -> (r: (bool, Ghost<Boost>))
    ensures
        final(bus).port() == old(bus).port(),
        mmio::extends(old(bus).log(), final(bus).log()),
        r.0 == is_boosted(r.1@),
        r.0 ==> boosted(final(bus).log()),
        final(bus).log() == old(bus).log() + boost_log(locked, r.1@),
{
    bus.write(CFG, locked | SYNC_MODE);
    let synchronous: u32 = bus.read(CFG);
    let switch: Ghost<Switch> = select_vco(bus, true);
    let ghost selected_log = bus.log();
    let measured: Option<u64> = measure_clock(bus, REFERENCE_HZ);
    let ghost counted = bus.log();
    let ghost (settings, first, second) = choose|settings: u32, first: u32, second: u32|
        {
            &&& counted == selected_log + #[trigger] hardware::measure_log(settings, first, second)
            &&& measured == hardware::measured_spec(first, second, REFERENCE_HZ)
            &&& second == last(counted, hardware::CLOCK_COUNTER)
        };
    let coeff: u32 = bus.read(COEFF);
    let mut shown: bool = coeff & 0x3f_ffff == MNP;
    let mut running: u32 = 0;
    if shown {
        running = bus.read(CFG);
        shown = running & RUNNING == RUNNING;
    }
    let mut selected: u32 = 0;
    if shown {
        selected = bus.read(SEL_VCO);
        shown = selected & 1 != 0;
    }
    let ghost b = Boost {
        synchronous,
        switch: switch@,
        settings,
        first,
        second,
        coeff,
        running,
        selected,
    };
    assert(last(bus.log(), hardware::CLOCK_COUNTER) == last(counted, hardware::CLOCK_COUNTER));
    assert(bus.log() =~= old(bus).log() + boost_log(locked, b));
    let agrees: bool = match measured {
        None => false,
        Some(hz) => is_near(hz, BOOST_RATE_HZ),
    };
    (shown && agrees, Ghost(b))
}

/// Waits up to 500 microseconds for the lock, and gives the register that shows
/// it.
fn await_lock<R: Timed>(bus: &mut Bus<'_, R>) -> (r: (Option<u32>, Ghost<Seq<u32>>))
    ensures
        final(bus).port() == old(bus).port(),
        waited(r.1@, r.0),
        final(bus).log() == old(bus).log() + lock_log(r.1@),
{
    let mut polls: u32 = 500;
    let ghost mut waits: Seq<u32> = seq![];
    assert(bus.log() =~= old(bus).log() + lock_log(waits));
    while polls > 0
        invariant
            bus.port() == old(bus).port(),
            polls <= 500,
            waits.len() == 500 - polls,
            bus.log() == old(bus).log() + lock_log(waits),
            forall|i: int| 0 <= i < waits.len() ==> !is_locked(#[trigger] waits[i]),
        decreases polls,
    {
        bus.delay_us(1);
        let cfg: u32 = bus.read(CFG);
        proof {
            let before = waits;
            waits = before.push(cfg);
            assert(waits.drop_last() =~= before);
            assert(bus.log() =~= old(bus).log() + lock_log(waits));
        }
        if cfg != u32::MAX && cfg & LOCKED != 0 {
            return (Some(cfg), Ghost(waits));
        }
        polls = polls - 1;
    }
    (None, Ghost(waits))
}

/// Another post-divider leaves pre-divider and multiplier alone: the oscillator
/// runs on.
pub proof fn the_oscillator_never_changes(coeff: u32, pl: u32)
    by (bit_vector)
    requires
        pl < 64,
    ensures
        ((coeff & !0x3f_0000u32) | (pl << 16)) % 0x1_0000 == coeff % 0x1_0000,
        ((coeff & !0x3f_0000u32) | (pl << 16)) / 0x1_0000 % 64 == pl,
        ((coeff & !0x3f_0000u32) | (pl << 16)) / 0x40_0000 == coeff / 0x40_0000,
{
}

/// A rate is the reference times 48, divided by the post-divider's number, by one and by two;
/// what is read back of a PLL that runs with a divider is its rate.
pub proof fn dividers_make_the_rates(rate_khz: u64)
    ensures
        divider_spec(rate_khz) is Some <==> rate_khz == 76_800 || rate_khz == 153_600 || rate_khz
            == 230_400 || rate_khz == 307_200,
        divider_spec(rate_khz) matches Some(pl) ==> rate_khz * pl * 2 == 38_400 * 48,
{
}

proof fn lemma_divider(coeff: u32, pl: u32)
    by (bit_vector)
    requires
        pl < 64,
    ensures
        ((coeff & !0x3f_0000u32) | (pl << 16)) / 0x1_0000 % 64 == pl,
        ((coeff & !0x3f_0000u32) | (pl << 16)) % 0x1_0000 == coeff % 0x1_0000,
        ((coeff & !0x3f_0000u32) | (pl << 16)) / 0x40_0000 == coeff / 0x40_0000,
{
}

/// A rate that was set is the one that is read back, if the PLL runs as it should, and only
/// the divider was changed for it.
pub proof fn set_rates_are_read_back(cfg: u32, coeff: u32, vco: u32, rate_khz: u64)
    requires
        divider_spec(rate_khz) is Some,
        cfg != 0xffff_ffff && cfg & 0x2_0005 == 0x2_0005,
        vco != 0xffff_ffff && vco & 1 != 0,
        coeff % 0x1_0000 == 0x3001,
    ensures
        ({
            let set = with_divider(coeff, divider_spec(rate_khz)->0);
            &&& decoded(cfg, set, vco) == Ok::<u64, &'static str>(rate_khz)
            &&& set % 0x1_0000 == coeff % 0x1_0000
            &&& set / 0x40_0000 == coeff / 0x40_0000
        }),
{
    lemma_divider(coeff, divider_spec(rate_khz)->0);
}

/// A measured rate is near a wanted one if it is off by at most a hundredth.
pub proof fn near_is_within_a_hundredth(hz: u64, wanted_hz: int)
    requires
        0 <= wanted_hz,
    ensures
        near(hz, wanted_hz) <==> 100 * (hz - wanted_hz) <= wanted_hz && 100 * (wanted_hz - hz)
            <= wanted_hz,
{
}

/// The voltage for a chip is at least 950 millivolts and what its curve asks for, and less
/// than a step of 6.25 millivolts more.
pub proof fn chips_have_enough_voltage(speedo: int)
    ensures
        required_spec(speedo) % 6_250 == 0,
        950_000 <= required_spec(speedo),
        curve_uv(speedo) <= required_spec(speedo),
        required_spec(speedo) == 950_000 || required_spec(speedo) < curve_uv(speedo) + 6_250,
{
}

/// The curve is the square of the chip's speed: 16.32 times the speed less 91325, times a
/// hundredth of the speed, and 1977920, each product rounded to the closest number.
pub proof fn the_curve_is_a_square(speedo: int)
    ensures
        exists|slope: int, level: int|
            {
                &&& -50 <= 100 * slope - 1632 * speedo <= 50
                &&& -50 <= 100 * level - #[trigger] ((slope - 91325) * speedo) <= 50
                &&& curve_uv(speedo) == #[trigger] (level + 1977920)
            },
{
    let slope = rounding::closest_spec(1632 * speedo);
    let level = rounding::closest_spec((slope - 91325) * speedo);
    rounding::hundredths_are_rounded(1632 * speedo);
    rounding::hundredths_are_rounded((slope - 91325) * speedo);
    assert(curve_uv(speedo) == level + 1977920);
}

/// The chip's speed is what was burnt, from the third revision on; the second burnt it in
/// another way, and the first 75 too high.
pub proof fn speeds_are_burnt(sku: u32, raw: u32, revision: u32)
    ensures
        speedo_spec(sku, raw, revision) matches Ok(s) ==> {
            &&& sku % 256 == 0x83
            &&& 1 <= s <= 4000
            &&& revision >= 3 ==> s == raw
            &&& revision == 2 ==> 10 * s <= 1082 * raw / 100 - 1662 < 10 * s + 10
            &&& revision < 2 ==> s + 75 == raw
        },
        sku % 256 == 0x83 && revision >= 3 && 1 <= raw <= 4000 ==> speedo_spec(sku, raw, revision)
            is Ok,
        sku % 256 == 0x83 && revision < 2 && 76 <= raw <= 4075 ==> speedo_spec(sku, raw, revision)
            is Ok,
{
}

} // verus!
