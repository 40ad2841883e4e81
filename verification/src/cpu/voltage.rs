//! The cluster's supply: which voltage a rate needs, and how the regulator gets
//! there without ever being too low.
use vstd::prelude::*;

use crate::cpu::clock;
use crate::cpu::clock::{CpuClock, PllRate};
use crate::i2c;
use crate::i2c::{Chips, Exchange, Wire};
use crate::mmio;
use crate::mmio::{Access, Bus, Timed};
use crate::rounding;
use crate::rounding::{closest, divide};

verus! {

pub const CPU_ADDRESS: u8 = 0x1b;

pub const VOLTAGE_BASE_UV: u32 = 606_250;

pub const VOLTAGE_STEP_UV: u32 = 6_250;

pub const PLL_MIN_UV: u32 = 950_000;

/// The normal range of the console. More needs other clock sources.
pub const MAX_KHZ: u64 = 1_020_000;

pub const ODN_MAX_UV: u32 = 1_257_000;

/// Rates that the lowest PLL voltage is enough for.
pub const BASE_KHZ: u64 = 918_000;

/// Steps above the base, rounded up.
pub open spec fn selector_of(voltage_uv: u32) -> int {
    (voltage_uv - VOLTAGE_BASE_UV + VOLTAGE_STEP_UV - 1) / (VOLTAGE_STEP_UV as int)
}

pub open spec fn selector_spec(voltage_uv: u32) -> Result<u8, &'static str> {
    if VOLTAGE_BASE_UV <= voltage_uv <= ODN_MAX_UV {
        Ok(selector_of(voltage_uv) as u8)
    } else {
        Err("CPU voltage outside ODN limits")
    }
}

pub fn voltage_selector(voltage_uv: u32) -> (r: Result<u8, &'static str>)
    ensures
        r == selector_spec(voltage_uv),
        r matches Ok(selector) ==> selector <= 105,
{
    if voltage_uv < VOLTAGE_BASE_UV || voltage_uv > ODN_MAX_UV {
        return Err("CPU voltage outside ODN limits");
    }
    Ok(((voltage_uv - VOLTAGE_BASE_UV + VOLTAGE_STEP_UV - 1) / VOLTAGE_STEP_UV) as u8)
}

pub open spec fn rounded_spec(voltage_uv: u32) -> Result<u32, &'static str> {
    match selector_spec(voltage_uv) {
        Err(e) => Err(e),
        Ok(selector) => Ok((VOLTAGE_BASE_UV + selector * VOLTAGE_STEP_UV) as u32),
    }
}

/// The next voltage that the regulator can give.
pub fn rounded_voltage(voltage_uv: u32) -> (r: Result<u32, &'static str>)
    ensures
        r == rounded_spec(voltage_uv),
{
    let selector: u8 = voltage_selector(voltage_uv)?;
    Ok(VOLTAGE_BASE_UV + selector as u32 * VOLTAGE_STEP_UV)
}

/// The curve for the fastest rate, with a margin of thirty percent.
pub open spec fn curve_uv(speedo: int) -> int {
    rounding::truncated(
        (rounding::closest_spec((rounding::closest_spec(-8585 * speedo) + 358099) * speedo)
            - 2875621) * 130,
        100,
    )
}

pub open spec fn required_spec(requested_khz: u64, speedo: u32) -> Result<u32, &'static str> {
    let uv = if curve_uv(speedo as int) > PLL_MIN_UV {
        curve_uv(speedo as int)
    } else {
        PLL_MIN_UV as int
    };
    if requested_khz <= BASE_KHZ {
        rounded_spec(PLL_MIN_UV)
    } else if requested_khz > MAX_KHZ {
        Err("CPU rate outside normal range")
    } else if uv > u32::MAX {
        Err("invalid CPU CVB voltage")
    } else {
        rounded_spec(uv as u32)
    }
}

/// The voltage that a rate needs on a chip of some speed.
pub fn required_voltage(requested_khz: u64, speedo: u32) -> (r: Result<u32, &'static str>)
    requires
        speedo <= 4000,
    ensures
        r == required_spec(requested_khz, speedo),
{
    if requested_khz <= BASE_KHZ {
        return rounded_voltage(PLL_MIN_UV);
    }
    if requested_khz > MAX_KHZ {
        return Err("CPU rate outside normal range");
    }
    let s: i64 = speedo as i64;
    let scaled: i64 = 8585 * s;
    assert(-scaled == -8585 * s);
    let slope: i64 = closest(-scaled) + 358099;
    assert(-358099 * 4000 <= slope * s <= 358099 * 4000) by (nonlinear_arith)
        requires
            0 <= s <= 4000,
            -358099 <= slope <= 358099,
    ;
    let cvb: i64 = closest(slope * s) - 2875621;
    let curve: i64 = divide(cvb * 130, 100);
    let uv: i64 = if curve > PLL_MIN_UV as i64 {
        curve
    } else {
        PLL_MIN_UV as i64
    };
    if uv > u32::MAX as i64 {
        return Err("invalid CPU CVB voltage");
    }
    rounded_voltage(uv as u32)
}

/// The speed of a chip from its fuses: as burnt, converted from an older way of
/// burning, or a safe guess for the oldest.
pub open spec fn speedo_spec(sku: u32, raw: u32, revision: u32) -> Result<u32, &'static str> {
    let speedo = if revision >= 3 {
        raw as int
    } else if revision == 2 {
        rounding::truncated(-1938 + 1095 * raw / 100, 10)
    } else {
        2100
    };
    if sku % 256 != 0x83 {
        Err("CPU CVB table currently requires Erista ODN SKU 0x83")
    } else if !(1 <= speedo <= 4000) {
        Err("invalid CPU speedo fuse")
    } else {
        Ok(speedo as u32)
    }
}

pub fn cpu_speedo(sku: u32, raw: u32, revision: u32) -> (r: Result<u32, &'static str>)
    ensures
        r == speedo_spec(sku, raw, revision),
        r matches Ok(speedo) ==> 1 <= speedo <= 4000,
{
    if sku % 256 != 0x83 {
        return Err("CPU CVB table currently requires Erista ODN SKU 0x83");
    }
    let speedo: i64 = if revision >= 3 {
        raw as i64
    } else if revision == 2 {
        let scaled: u64 = 1095 * (raw as u64) / 100;
        divide(-1938 + scaled as i64, 10)
    } else {
        2100
    };
    if speedo < 1 || speedo > 4000 {
        return Err("invalid CPU speedo fuse");
    }
    Ok(speedo as u32)
}

/// The revision of the fuses, from the low bits of three of them.
pub fn fuse_revision(high: u32, middle: u32, low: u32) -> (r: u32)
    ensures
        r == 4 * (high % 2) + 2 * (middle % 2) + low % 2,
{
    4 * (high % 2) + 2 * (middle % 2) + low % 2
}

/// What one bank of the regulator holds.
pub fn bank<C: Chips>(wire: &mut Wire<'_, C>, register: u8) -> (r: Result<u8, &'static str>)
    ensures
        final(wire).port() == old(wire).port(),
        exists|value: Option<u8>|
            {
                &&& final(wire).log() == #[trigger] old(wire).log().push(
                    Exchange::Read(CPU_ADDRESS, register, value),
                )
                &&& r == match value {
                    None => Err::<u8, &'static str>("CPU MAX77621 voltage read failed"),
                    Some(v) => if v < 0x80 {
                        Err::<u8, &'static str>("CPU MAX77621 voltage bank is disabled")
                    } else {
                        Ok::<u8, &'static str>(v)
                    },
                }
            },
        r matches Ok(value) ==> value >= 0x80,
        i2c::writes(final(wire).log()) == i2c::writes(old(wire).log()),
{
    match wire.read(CPU_ADDRESS, register) {
        None => Err("CPU MAX77621 voltage read failed"),
        Some(value) => {
            if value < 0x80 {
                Err("CPU MAX77621 voltage bank is disabled")
            } else {
                Ok(value)
            }
        },
    }
}

/// What a bank's change writes.
pub open spec fn bank_writes(register: u8, previous: u8, selector: u8) -> Seq<i2c::Write> {
    if previous == 0x80 + selector {
        seq![]
    } else {
        seq![(CPU_ADDRESS, register, (0x80 + selector) as u8)]
    }
}

/// What an exchange means for a change of the voltage, where it is the last one.
pub open spec fn spoilt(e: Exchange) -> Option<&'static str> {
    match e {
        Exchange::Read(_, _, None) => Some("CPU MAX77621 voltage read failed"),
        Exchange::Read(_, _, Some(v)) => if v < 0x80 {
            Some("CPU MAX77621 voltage bank is disabled")
        } else {
            Some("CPU MAX77621 voltage readback mismatch")
        },
        Exchange::Write(_, _, _, done) => if done {
            None
        } else {
            Some("CPU MAX77621 voltage write failed")
        },
        Exchange::Delay(_) => None,
    }
}

/// The exchange reads another voltage than the wanted one, or fails.
pub open spec fn against(e: Exchange, selector: u8) -> bool {
    match e {
        Exchange::Read(_, _, Some(v)) => v != 0x80 + selector,
        _ => spoilt(e) is Some,
    }
}

/// What a bank's change exchanges: nothing where it is there, else a write, and a
/// reading where that was taken.
pub open spec fn bank_log(
    register: u8,
    previous: u8,
    selector: u8,
    done: bool,
    now: Option<u8>,
) -> Seq<Exchange> {
    let value = (0x80 + selector) as u8;
    if previous == value {
        seq![]
    } else if !done {
        seq![Exchange::Write(CPU_ADDRESS, register, value, false)]
    } else {
        seq![
            Exchange::Write(CPU_ADDRESS, register, value, true),
            Exchange::Read(CPU_ADDRESS, register, now),
        ]
    }
}

/// The bank holds what was wanted.
pub open spec fn bank_done(previous: u8, selector: u8, done: bool, now: Option<u8>) -> bool {
    previous == 0x80 + selector || (done && now == Some((0x80 + selector) as u8))
}

pub open spec fn was_set(
    before: Seq<Exchange>,
    after: Seq<Exchange>,
    register: u8,
    previous: u8,
    selector: u8,
    r: Result<(), &'static str>,
) -> bool {
    exists|done: bool, now: Option<u8>|
        {
            &&& after == before + #[trigger] bank_log(register, previous, selector, done, now)
            &&& r is Ok <==> bank_done(previous, selector, done, now)
            &&& r matches Err(e) ==> spoilt(after.last()) == Some(e) && against(
                after.last(),
                selector,
            )
        }
}

/// Changes one bank and reads it back.
fn set_voltage_bank<C: Chips>(
    wire: &mut Wire<'_, C>,
    register: u8,
    previous: u8,
    selector: u8,
) -> (r: Result<(), &'static str>)
    requires
        previous >= 0x80,
        selector < 0x80,
    ensures
        final(wire).port() == old(wire).port(),
        i2c::writes(final(wire).log()) == i2c::writes(old(wire).log()) + bank_writes(
            register,
            previous,
            selector,
        ),
        was_set(old(wire).log(), final(wire).log(), register, previous, selector, r),
{
    let value: u8 = 0x80 + selector;
    if previous == value {
        assert(i2c::writes(wire.log()) =~= i2c::writes(wire.log()) + bank_writes(
            register,
            previous,
            selector,
        ));
        assert(wire.log() =~= wire.log() + bank_log(register, previous, selector, true, None));
        return Ok(());
    }
    let done: bool = wire.write(CPU_ADDRESS, register, value);
    assert(i2c::writes(wire.log()) =~= i2c::writes(old(wire).log()) + bank_writes(
        register,
        previous,
        selector,
    ));
    if !done {
        assert(wire.log() =~= old(wire).log() + bank_log(register, previous, selector, false, None));
        return Err("CPU MAX77621 voltage write failed");
    }
    let now: Option<u8> = wire.read(CPU_ADDRESS, register);
    assert(wire.log() =~= old(wire).log() + bank_log(register, previous, selector, true, now));
    match now {
        None => Err("CPU MAX77621 voltage read failed"),
        Some(now) => {
            if now < 0x80 {
                Err("CPU MAX77621 voltage bank is disabled")
            } else if now != value {
                Err("CPU MAX77621 voltage readback mismatch")
            } else {
                Ok(())
            }
        },
    }
}

/// The two banks as they are found.
pub open spec fn banks_log(normal: Option<u8>, dvs: Option<u8>) -> Seq<Exchange> {
    if normal matches Some(v) && v >= 0x80 {
        seq![
            Exchange::Read(CPU_ADDRESS, 0, normal),
            Exchange::Read(CPU_ADDRESS, 1, dvs),
        ]
    } else {
        seq![Exchange::Read(CPU_ADDRESS, 0, normal)]
    }
}

/// Both banks can be changed.
pub open spec fn banks_work(normal: Option<u8>, dvs: Option<u8>) -> bool {
    &&& normal matches Some(n) && n >= 0x80
    &&& dvs matches Some(d) && d >= 0x80
}

/// The writes that bring both banks up to a selector. Banks that are higher stay.
pub open spec fn raise_writes(normal: u8, dvs: u8, selector: u8) -> Seq<i2c::Write> {
    (if normal - 0x80 < selector {
        seq![(CPU_ADDRESS, 0u8, (0x80 + selector) as u8)]
    } else {
        seq![]
    }) + (if dvs - 0x80 < selector {
        seq![(CPU_ADDRESS, 1u8, (0x80 + selector) as u8)]
    } else {
        seq![]
    })
}

/// The writes of a change that starts from what was found.
pub open spec fn wanted_writes(
    raising: bool,
    normal: Option<u8>,
    dvs: Option<u8>,
    selector: u8,
) -> Seq<i2c::Write> {
    if raising {
        raise_writes(normal->0, dvs->0, selector)
    } else {
        settle_writes(normal->0, dvs->0, selector)
    }
}

/// The error of an outcome.
pub open spec fn error_of(r: Result<(), &'static str>) -> Option<&'static str> {
    match r {
        Ok(_) => None,
        Err(e) => Some(e),
    }
}

/// A change of both banks: they were read first, then written as they had to be,
/// and at the end the voltage settles. The last exchange tells the outcome.
pub open spec fn was_changed(
    before: Seq<Exchange>,
    after: Seq<Exchange>,
    raising: bool,
    selector: u8,
    error: Option<&'static str>,
) -> bool {
    exists|normal: Option<u8>, dvs: Option<u8>, n: int|
        {
            &&& begins(after, before + #[trigger] banks_log(normal, dvs))
            &&& !banks_work(normal, dvs) ==> {
                &&& after == before + banks_log(normal, dvs)
                &&& spoilt(after.last()) is Some && error == spoilt(after.last())
            }
            &&& banks_work(normal, dvs) ==> {
                &&& 0 <= n <= wanted_writes(raising, normal, dvs, selector).len()
                &&& i2c::writes(after) == i2c::writes(before) + #[trigger] wanted_writes(
                    raising,
                    normal,
                    dvs,
                    selector,
                ).take(n)
                &&& error is None ==> n == wanted_writes(raising, normal, dvs, selector).len()
                    && after.last() == Exchange::Delay(1000)
                &&& error matches Some(e) ==> n > 0 && spoilt(after.last()) == Some(e) && against(
                    after.last(),
                    selector,
                )
            }
        }
}

pub open spec fn begins(whole: Seq<Exchange>, start: Seq<Exchange>) -> bool {
    &&& start.len() <= whole.len()
    &&& forall|i: int| 0 <= i < start.len() ==> #[trigger] whole[i] == start[i]
}

/// Reads both banks.
fn banks<C: Chips>(wire: &mut Wire<'_, C>) -> (r: (
    Result<(u8, u8), &'static str>,
    Ghost<(Option<u8>, Option<u8>)>,
))
    ensures
        final(wire).port() == old(wire).port(),
        final(wire).log() == old(wire).log() + banks_log(r.1@.0, r.1@.1),
        i2c::writes(final(wire).log()) == i2c::writes(old(wire).log()),
        match r.0 {
            Ok((normal, dvs)) => banks_work(r.1@.0, r.1@.1) && r.1@ == (Some(normal), Some(dvs)),
            Err(e) => !banks_work(r.1@.0, r.1@.1) && spoilt(final(wire).log().last()) == Some(e),
        },
{
    let first = bank(wire, 0);
    let ghost a = wire.log().last()->Read_2;
    let normal: u8 = match first {
        Err(e) => {
            assert(wire.log() =~= old(wire).log() + banks_log(a, None));
            return (Err(e), Ghost((a, None)));
        },
        Ok(value) => value,
    };
    let second = bank(wire, 1);
    let ghost b = wire.log().last()->Read_2;
    assert(wire.log() =~= old(wire).log() + banks_log(a, b));
    match second {
        Err(e) => (Err(e), Ghost((a, b))),
        Ok(dvs) => (Ok((normal, dvs)), Ghost((a, b))),
    }
}

/// Raises both banks before the rate goes up. After a failure the old rate still
/// has at least its old voltage.
pub fn prepare_voltage<C: Chips>(wire: &mut Wire<'_, C>, voltage_uv: u32) -> (r: Result<
    (),
    &'static str,
>)
    ensures
        final(wire).port() == old(wire).port(),
        selector_spec(voltage_uv) is Err ==> r == Err::<(), &'static str>(
            "CPU voltage outside ODN limits",
        ) && final(wire).log() == old(wire).log(),
        selector_spec(voltage_uv) matches Ok(selector) ==> was_changed(
            old(wire).log(),
            final(wire).log(),
            true,
            selector,
            error_of(r),
        ),
{
    let ghost before = wire.log();
    let ghost start = i2c::writes(wire.log());
    let selector: u8 = voltage_selector(voltage_uv)?;
    let (found, seen): (Result<(u8, u8), &'static str>, Ghost<(Option<u8>, Option<u8>)>) = banks(
        wire,
    );
    let ghost (a, b) = seen@;
    let ghost head = wire.log();
    let (normal, dvs): (u8, u8) = match found {
        Err(e) => {
            let ghost wanted = wanted_writes(true, a, b, selector);
            assert(wanted.take(0) =~= seq![]);
            assert(begins(wire.log(), before + banks_log(a, b)));
            return Err(e);
        },
        Ok(pair) => pair,
    };
    let ghost wanted = wanted_writes(true, a, b, selector);
    assert(start =~= start + wanted.take(0));
    if normal - 0x80 < selector {
        let first = set_voltage_bank(wire, 0, normal, selector);
        assert(begins(wire.log(), before + banks_log(a, b)));
        assert(i2c::writes(wire.log()) =~= start + wanted.take(1));
        first?;
    }
    if dvs - 0x80 < selector {
        let second = set_voltage_bank(wire, 1, dvs, selector);
        assert(begins(wire.log(), before + banks_log(a, b)));
        assert(i2c::writes(wire.log()) =~= start + wanted.take(wanted.len() as int));
        second?;
    }
    wire.delay_us(1000);
    assert(begins(wire.log(), before + banks_log(a, b)));
    assert(i2c::writes(wire.log()) =~= start + wanted.take(wanted.len() as int));
    Ok(())
}

/// The writes that bring both banks to a selector.
pub open spec fn settle_writes(normal: u8, dvs: u8, selector: u8) -> Seq<i2c::Write> {
    bank_writes(0, normal, selector) + bank_writes(1, dvs, selector)
}

/// Brings both banks down to what the running rate needs.
pub fn lower_voltage<C: Chips>(wire: &mut Wire<'_, C>, voltage_uv: u32) -> (r: Result<
    (),
    &'static str,
>)
    ensures
        final(wire).port() == old(wire).port(),
        selector_spec(voltage_uv) is Err ==> r == Err::<(), &'static str>(
            "CPU voltage outside ODN limits",
        ) && final(wire).log() == old(wire).log(),
        selector_spec(voltage_uv) matches Ok(selector) ==> was_changed(
            old(wire).log(),
            final(wire).log(),
            false,
            selector,
            error_of(r),
        ),
{
    let ghost before = wire.log();
    let ghost start = i2c::writes(wire.log());
    let selector: u8 = voltage_selector(voltage_uv)?;
    let (found, seen): (Result<(u8, u8), &'static str>, Ghost<(Option<u8>, Option<u8>)>) = banks(
        wire,
    );
    let ghost (a, b) = seen@;
    let (normal, dvs): (u8, u8) = match found {
        Err(e) => {
            let ghost wanted = wanted_writes(false, a, b, selector);
            assert(wanted.take(0) =~= seq![]);
            assert(begins(wire.log(), before + banks_log(a, b)));
            return Err(e);
        },
        Ok(pair) => pair,
    };
    let ghost wanted = wanted_writes(false, a, b, selector);
    let ghost k = bank_writes(0, normal, selector).len() as int;
    let first = set_voltage_bank(wire, 0, normal, selector);
    assert(begins(wire.log(), before + banks_log(a, b)));
    assert(i2c::writes(wire.log()) =~= start + wanted.take(k));
    first?;
    let second = set_voltage_bank(wire, 1, dvs, selector);
    assert(begins(wire.log(), before + banks_log(a, b)));
    assert(i2c::writes(wire.log()) =~= start + wanted.take(wanted.len() as int));
    second?;
    wire.delay_us(1000);
    assert(begins(wire.log(), before + banks_log(a, b)));
    Ok(())
}

/// A rate with the voltage that it needs.
#[derive(Clone, Copy, Debug, PartialEq, Eq, Structural)]
pub struct OperatingPoint {
    pub clock: PllRate,
    pub voltage_uv: u32,
}

/// What a transition came to. Where the rate changed, the voltage may still be
/// higher than it has to be.
#[derive(Clone, Copy, Debug, PartialEq, Eq)]
pub enum Transition {
    Done,
    VoltageKept(&'static str),
}

/// A transition: the banks were raised; where that failed nothing else was done;
/// then the rate changed; and where that was shown the banks were lowered.
pub open spec fn was_supplied(
    before: Seq<Exchange>,
    after: Seq<Exchange>,
    registers: Seq<Access>,
    then: Seq<Access>,
    opp: OperatingPoint,
    selector: u8,
    reference_hz: u64,
    r: Result<Transition, &'static str>,
) -> bool {
    match r {
        Err(e) => {
            ||| was_changed(before, after, true, selector, Some(e)) && then == registers
            ||| was_changed(before, after, true, selector, None) && clock::rate_outcome(
                registers,
                then,
                opp.clock,
                reference_hz,
                Err(e),
            )
        },
        Ok(transition) => {
            &&& exists|done: Result<(), &'static str>|
                done is Ok && #[trigger] clock::rate_outcome(
                    registers,
                    then,
                    opp.clock,
                    reference_hz,
                    done,
                )
            &&& exists|raised: Seq<Exchange>|
                #![trigger was_changed(before, raised, true, selector, None)]
                was_changed(before, raised, true, selector, None) && was_changed(
                    raised,
                    after,
                    false,
                    selector,
                    match transition {
                        Transition::Done => None,
                        Transition::VoltageKept(e) => Some(e),
                    },
                )
        },
    }
}

/// Goes to an operating point: the voltage first, then the rate, and only then
/// down to the voltage that is enough.
pub fn transition<C: Chips, R: Timed>(
    wire: &mut Wire<'_, C>,
    bus: &mut Bus<'_, R>,
    cpu: &CpuClock,
    opps: &Vec<OperatingPoint>,
    pstate: usize,
) -> (r: Result<Transition, &'static str>)
    requires
        cpu.wf(),
    ensures
        final(bus).port() == old(bus).port(),
        mmio::extends(old(bus).log(), final(bus).log()),
        final(wire).port() == old(wire).port(),
        pstate >= opps@.len() ==> r == Err::<Transition, &'static str>(
            "invalid Tegra CPU pstate",
        ) && final(wire).log() == old(wire).log() && final(bus).log() == old(bus).log(),
        pstate < opps@.len() ==> {
            let opp = opps@[pstate as int];
            // Without the voltage the rate is not touched.
            &&& selector_spec(opp.voltage_uv) is Err ==> r == Err::<Transition, &'static str>(
                "CPU voltage outside ODN limits",
            ) && final(wire).log() == old(wire).log() && final(bus).log() == old(bus).log()
            &&& selector_spec(opp.voltage_uv) matches Ok(selector) ==> was_supplied(
                old(wire).log(),
                final(wire).log(),
                old(bus).log(),
                final(bus).log(),
                opp,
                selector,
                cpu.reference_hz,
                r,
            )
            &&& r is Ok ==> clock::shows_rate(
                final(bus).log(),
                cpu.reference_hz,
                Some(opp.clock.freq_khz),
            )
            &&& final(bus).log() == old(bus).log() || exists|rate: Result<(), &'static str>|
                #[trigger] clock::rate_outcome(
                    old(bus).log(),
                    final(bus).log(),
                    opp.clock,
                    cpu.reference_hz,
                    rate,
                ) && (rate is Ok <==> r is Ok)
        },
{
    if pstate >= opps.len() {
        return Err("invalid Tegra CPU pstate");
    }
    let opp = opps[pstate];
    let up = prepare_voltage(wire, opp.voltage_uv);
    let ghost raised = wire.log();
    proof {
        if selector_spec(opp.voltage_uv) is Ok {
            let selector = selector_spec(opp.voltage_uv)->Ok_0;
            assert(was_changed(old(wire).log(), raised, true, selector, error_of(up)));
        }
    }
    up?;
    let rate = cpu.set_rate(bus, opp.clock);
    assert(clock::rate_outcome(old(bus).log(), bus.log(), opp.clock, cpu.reference_hz, rate));
    rate?;
    let down = lower_voltage(wire, opp.voltage_uv);
    match down {
        Ok(_) => Ok(Transition::Done),
        Err(e) => Ok(Transition::VoltageKept(e)),
    }
}

/// Getting ready for a rate never lowers a bank.
pub proof fn preparation_only_raises(normal: u8, dvs: u8, selector: u8, i: int)
    requires
        normal >= 0x80,
        dvs >= 0x80,
        selector < 0x80,
        0 <= i < raise_writes(normal, dvs, selector).len(),
    ensures
        raise_writes(normal, dvs, selector)[i].1 == 0 ==> raise_writes(normal, dvs, selector)[i].2
            > normal,
        raise_writes(normal, dvs, selector)[i].1 != 0 ==> raise_writes(normal, dvs, selector)[i].1
            == 1 && raise_writes(normal, dvs, selector)[i].2 > dvs,
{
}

/// The regulator gives at least what a rate needs, and less than one step more.
pub proof fn voltages_are_rounded_up(voltage_uv: u32)
    requires
        VOLTAGE_BASE_UV <= voltage_uv <= ODN_MAX_UV,
    ensures
        rounded_spec(voltage_uv) matches Ok(uv) && voltage_uv <= uv < voltage_uv
            + VOLTAGE_STEP_UV,
{
}

/// A rate has at least 950 millivolts, which is enough up to 918 MHz; no rate beyond 1020
/// MHz has any. A voltage is told in steps of 6.25 millivolts above 606.25.
pub proof fn rates_have_enough_voltage(khz: u64, speedo: u32)
    ensures
        khz <= 918_000 ==> required_spec(khz, speedo) == Ok::<u32, &'static str>(950_000),
        khz > 1_020_000 ==> required_spec(khz, speedo) is Err,
        required_spec(khz, speedo) matches Ok(uv) ==> 950_000 <= uv < 1_257_000 + 6_250 && (uv
            - 606_250) % 6_250 == 0 && (khz > 918_000 ==> uv >= curve_uv(speedo as int) && (uv
            == 950_000 || uv < curve_uv(speedo as int) + 6_250)),
{
}

/// The curve is the square of the chip's speed, with thirty percent on top: -85.85 times the
/// speed and 358099, times a hundredth of the speed, less 2875621, all rounded to the closest
/// number on the way.
pub proof fn the_curve_is_a_square(speedo: int)
    requires
        1 <= speedo <= 4000,
    ensures
        exists|slope: int, level: int|
            {
                &&& -50 <= 100 * slope + 8585 * speedo <= 50
                &&& -50 <= 100 * level - (slope + 358099) * speedo <= 50
                &&& level >= 2875621 ==> 100 * curve_uv(speedo) <= #[trigger] (130 * (level - 2875621))
                    < 100 * curve_uv(speedo) + 100
                &&& #[trigger] (slope + 358099) == slope + 358099
            },
{
    let slope = rounding::closest_spec(-8585 * speedo);
    let level = rounding::closest_spec((slope + 358099) * speedo);
    assert(slope + 358099 == slope + 358099);
    assert(130 * (level - 2875621) == (level - 2875621) * 130);
}

/// The chip's speed is what was burnt, from the third revision on; the second burnt it in
/// another way, and the first not at all.
pub proof fn speeds_are_burnt(sku: u32, raw: u32, revision: u32)
    ensures
        sku % 256 != 0x83 ==> speedo_spec(sku, raw, revision) is Err,
        speedo_spec(sku, raw, revision) matches Ok(s) ==> sku % 256 == 0x83 && 1 <= s <= 4000,
        sku % 256 == 0x83 && revision >= 3 && 1 <= raw <= 4000 ==> speedo_spec(sku, raw, revision)
            == Ok::<u32, &'static str>(raw),
        sku % 256 == 0x83 && revision < 2 ==> speedo_spec(sku, raw, revision) == Ok::<
            u32,
            &'static str,
        >(2100),
        revision == 2 ==> (speedo_spec(sku, raw, revision) matches Ok(s) ==> 10 * s <= 1095 * raw
            / 100 - 1938 < 10 * (s + 1)),
{
}

/// A change ends with both banks at the wanted voltage, and writes nothing else.
pub proof fn both_banks_end_at_the_voltage(normal: u8, dvs: u8, selector: u8, i: int)
    requires
        normal >= 0x80,
        dvs >= 0x80,
        selector < 0x80,
    ensures
        ({
            let w = settle_writes(normal, dvs, selector);
            &&& normal != 0x80 + selector ==> w.contains((0x1bu8, 0u8, (0x80 + selector) as u8))
            &&& dvs != 0x80 + selector ==> w.contains((0x1bu8, 1u8, (0x80 + selector) as u8))
            &&& 0 <= i < w.len() ==> w[i].0 == 0x1b && w[i].1 <= 1 && w[i].2 == 0x80 + selector
            &&& normal == 0x80 + selector && dvs == 0x80 + selector ==> w.len() == 0
        }),
{
    let w = settle_writes(normal, dvs, selector);
    let own = (0x1bu8, 0u8, (0x80 + selector) as u8);
    let other = (0x1bu8, 1u8, (0x80 + selector) as u8);
    if normal != 0x80 + selector {
        assert(w[0] == own);
    }
    if dvs != 0x80 + selector {
        assert(w[w.len() - 1] == other);
    }
}

} // verus!
