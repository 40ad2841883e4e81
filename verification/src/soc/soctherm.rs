//! The temperature of the graphics processor, from the sensors of the die.
use vstd::prelude::*;

use crate::devicetree;
use crate::devicetree::{find_matching, read_nodes, region_covers, Node, NodeView};
use crate::mmio;
use crate::mmio::{Access, Bus, Timed};
use crate::rounding;
use crate::soc::map::{FUSES, SOCTHERM};

verus! {

/// One sensor: its registers, its fuse, and how its reading is corrected.
#[derive(Clone, Copy, Debug, PartialEq, Eq, Structural)]
pub struct SensorSpec {
    pub base: usize,
    pub fuse_offset: usize,
    pub alpha: i64,
    pub beta: i64,
}

pub open spec fn sensor_spec(index: int) -> SensorSpec {
    if index == 0 {
        SensorSpec { base: 0xc0, fuse_offset: 0x98, alpha: 1_085_000, beta: 3_244_200 }
    } else if index == 1 {
        SensorSpec { base: 0xe0, fuse_offset: 0x84, alpha: 1_126_200, beta: (-67_500) as i64 }
    } else if index == 2 {
        SensorSpec { base: 0x100, fuse_offset: 0x88, alpha: 1_098_400, beta: 2_251_100 }
    } else if index == 3 {
        SensorSpec { base: 0x120, fuse_offset: 0x12c, alpha: 1_108_000, beta: 602_700 }
    } else if index == 4 {
        SensorSpec { base: 0x140, fuse_offset: 0x158, alpha: 1_069_200, beta: 3_549_900 }
    } else if index == 5 {
        SensorSpec { base: 0x160, fuse_offset: 0x15c, alpha: 1_173_700, beta: (-6_263_600) as i64 }
    } else if index == 6 {
        SensorSpec { base: 0x180, fuse_offset: 0x154, alpha: 1_074_300, beta: 2_734_900 }
    } else {
        SensorSpec { base: 0x1a0, fuse_offset: 0x160, alpha: 1_039_700, beta: 6_829_100 }
    }
}

/// The eight sensors; the seventh is that of the graphics processor.
pub fn sensor(index: usize) -> (r: SensorSpec)
    requires
        index < 8,
    ensures
        r == sensor_spec(index as int),
{
    match index {
        0 => SensorSpec { base: 0xc0, fuse_offset: 0x98, alpha: 1_085_000, beta: 3_244_200 },
        1 => SensorSpec { base: 0xe0, fuse_offset: 0x84, alpha: 1_126_200, beta: -67_500 },
        2 => SensorSpec { base: 0x100, fuse_offset: 0x88, alpha: 1_098_400, beta: 2_251_100 },
        3 => SensorSpec { base: 0x120, fuse_offset: 0x12c, alpha: 1_108_000, beta: 602_700 },
        4 => SensorSpec { base: 0x140, fuse_offset: 0x158, alpha: 1_069_200, beta: 3_549_900 },
        5 => SensorSpec { base: 0x160, fuse_offset: 0x15c, alpha: 1_173_700, beta: -6_263_600 },
        6 => SensorSpec { base: 0x180, fuse_offset: 0x154, alpha: 1_074_300, beta: 2_734_900 },
        _ => SensorSpec { base: 0x1a0, fuse_offset: 0x160, alpha: 1_039_700, beta: 6_829_100 },
    }
}

/// The low bits of a number, as a number in two's complement.
pub open spec fn signed_spec(value: u32, bits: u32) -> int {
    let m = (1u64 << bits) as int;
    let v = value as int % m;
    if 2 * v >= m {
        v - m
    } else {
        v
    }
}

pub fn signed(value: u32, bits: u32) -> (r: i64)
    requires
        1 <= bits <= 32,
    ensures
        r == signed_spec(value, bits),
{
    let m: u64 = 1u64 << bits;
    assert(2 <= m && m <= 0x1_0000_0000) by (bit_vector)
        requires
            m == 1u64 << bits,
            1 <= bits && bits <= 32,
    ;
    let v: u64 = value as u64 % m;
    if 2 * v >= m {
        v as i64 - m as i64
    } else {
        v as i64
    }
}

/// A quotient in sixteen more bits, towards zero, whose added bits are then dropped
/// downwards. Nothing comes of a zero divisor, or of a value that does not fit.
pub open spec fn precise_spec(value: int, divisor: int) -> Result<int, &'static str> {
    if divisor == 0 {
        Err("SOCTHERM fuse calibration has zero divisor")
    } else if !(i64::MIN <= value * 0x2_0000 <= i64::MAX) {
        Err("SOCTHERM fuse calibration overflow")
    } else if divisor > 0 {
        Ok(rounding::truncated(value * 0x2_0000 + 1, 2 * divisor) / 0x1_0000)
    } else {
        Ok(-rounding::truncated(value * 0x2_0000 + 1, -2 * divisor) / 0x1_0000)
    }
}

/// A sixteenth power of two less, downwards.
fn drop_bits(n: i64) -> (r: i64)
    ensures
        r == n as int / 0x1_0000,
{
    if n >= 0 {
        (n as u64 / 0x1_0000) as i64
    } else {
        // Below zero the magnitude is rounded up.
        let m: u64 = (-(n + 1)) as u64;
        let q: u64 = m / 0x1_0000;
        -(q as i64) - 1
    }
}

/// The quotient of two numbers that are not negative, but of either sign.
fn divide_whole(n: i64, d: i64) -> (r: i64)
    requires
        d > 0,
        n > i64::MIN,
    ensures
        r == rounding::truncated(n as int, d as int),
        n >= 0 ==> 0 <= r <= n,
        n < 0 ==> n <= r <= 0,
{
    let m: u64 = if n >= 0 {
        n as u64
    } else {
        (-n) as u64
    };
    let q: u64 = m / (d as u64);
    assert(q <= m) by (nonlinear_arith)
        requires
            q == m / (d as u64),
            d > 0,
    ;
    if n >= 0 {
        q as i64
    } else {
        -(q as i64)
    }
}

pub fn precise_div(value: i64, divisor: i64) -> (r: Result<i64, &'static str>)
    requires
        -0x4000_0000_0000_0000 < divisor < 0x4000_0000_0000_0000,
    ensures
        match precise_spec(value as int, divisor as int) {
            Ok(v) => r == Ok::<i64, &'static str>(v as i64) && i64::MIN <= v <= i64::MAX,
            Err(e) => r == Err::<i64, &'static str>(e),
        },
{
    if divisor == 0 {
        return Err("SOCTHERM fuse calibration has zero divisor");
    }
    let scaled: i64 = match value.checked_mul(0x1_0000) {
        None => {
            return Err("SOCTHERM fuse calibration overflow");
        },
        Some(half) => match half.checked_mul(2) {
            None => {
                return Err("SOCTHERM fuse calibration overflow");
            },
            Some(whole) => match whole.checked_add(1) {
                None => {
                    return Err("SOCTHERM fuse calibration overflow");
                },
                Some(scaled) => scaled,
            },
        },
    };
    if divisor > 0 {
        Ok(drop_bits(divide_whole(scaled, 2 * divisor)))
    } else {
        Ok(drop_bits(-divide_whole(scaled, -2 * divisor)))
    }
}

/// What the fuses say of a sensor: what it read at two temperatures.
pub open spec fn sample_spec(common: u32, value: u32) -> (int, int, int, int) {
    (
        // The colder one.
        (common as int / 0x800 % 0x400) * 64 + signed_spec(value, 13),
        50 + signed_spec(common, 6),
        // The hotter one.
        (common as int / 0x20_0000) * 32 + signed_spec((value as int / 0x2000) as u32, 13),
        210 + signed_spec((common as int / 64) as u32, 5),
    )
}

/// A sixteen-bit number in two's complement.
pub open spec fn halfword(n: int) -> int {
    n % 0x1_0000
}

/// The line through both points, corrected: its slope and its offset.
pub open spec fn line_spec(cold: int, cold_at: int, hot: int, hot_at: int, spec: SensorSpec) -> (
    int,
    int,
) {
    let slope = precise_spec((hot_at - cold_at) * 8192 * 3840, (hot - cold) * 960)->Ok_0;
    let offset = precise_spec(hot * cold_at - cold * hot_at, hot - cold)->Ok_0;
    (
        precise_spec(slope * spec.alpha, 1_000_000)->Ok_0,
        precise_spec(offset * spec.alpha + spec.beta, 1_000_000)->Ok_0,
    )
}

/// The calibration of a sensor from its fuse and the one that all share.
pub open spec fn calibration_spec(common: u32, value: u32, spec: SensorSpec) -> Result<
    u32,
    &'static str,
> {
    let (cold, cold_at, hot, hot_at) = sample_spec(common, value);
    let (a, b) = line_spec(cold, cold_at, hot, hot_at, spec);
    if common == u32::MAX || value == u32::MAX || common == 0 || value == 0 {
        Err("SOCTHERM fuse shadow is unavailable")
    } else if !(1 <= hot - cold <= 100_000) || !(1 <= hot_at - cold_at <= 300) {
        Err("SOCTHERM fuse calibration is implausible")
    } else if !(i16::MIN <= a <= i16::MAX) {
        Err("SOCTHERM sensor slope out of range")
    } else if !(i16::MIN <= b <= i16::MAX) {
        Err("SOCTHERM sensor offset out of range")
    } else {
        Ok((halfword(a) * 0x1_0000 + halfword(b)) as u32)
    }
}

fn to_halfword(n: i64) -> (r: u32)
    requires
        i16::MIN <= n <= i16::MAX,
    ensures
        r == halfword(n as int),
        r < 0x1_0000,
{
    if n >= 0 {
        n as u32
    } else {
        (n + 0x1_0000) as u32
    }
}

/// How large a precise quotient can be.
proof fn lemma_precise(value: int, divisor: int, limit: int)
    requires
        divisor >= 1,
        0 < limit <= 0x2000_0000_0000,
        -limit <= value <= limit,
    ensures
        precise_spec(value, divisor) is Ok,
        -limit - 1 <= precise_spec(value, divisor)->Ok_0 <= limit,
{
    let n = value * 0x2_0000 + 1;
    let d = 2 * divisor;
    let q = rounding::truncated(n, d);
    if n >= 0 {
        assert(0 <= q && 2 * q <= n) by (nonlinear_arith)
            requires
                q == n / d,
                d >= 2,
                n >= 0,
        ;
    } else {
        let m = -n;
        let p = m / d;
        assert(0 <= p && 2 * p <= m) by (nonlinear_arith)
            requires
                p == m / d,
                d >= 2,
                m >= 0,
        ;
    }
}

/// How far the fuses can be apart.
proof fn lemma_samples(common: u32, value: u32)
    ensures
        ({
            let (cold, cold_at, hot, hot_at) = sample_spec(common, value);
            &&& -4096 <= cold <= 69567
            &&& 18 <= cold_at <= 81
            &&& -4096 <= hot <= 69599
            &&& 194 <= hot_at <= 225
        }),
{
    assert(1u64 << 13u32 == 8192 && 1u64 << 6u32 == 64 && 1u64 << 5u32 == 32) by (bit_vector);
}

/// The calibration of a sensor.
pub fn sensor_calibration(common: u32, value: u32, spec: SensorSpec) -> (r: Result<
    u32,
    &'static str,
>)
    requires
        0 < spec.alpha <= 2_000_000,
        -10_000_000 <= spec.beta <= 10_000_000,
    ensures
        r == calibration_spec(common, value, spec),
{
    if common == u32::MAX || value == u32::MAX || common == 0 || value == 0 {
        return Err("SOCTHERM fuse shadow is unavailable");
    }
    proof {
        lemma_samples(common, value);
    }
    let base_cp: i64 = (common / 0x800 % 0x400) as i64;
    let base_ft: i64 = (common / 0x20_0000) as i64;
    let cold_at: i64 = 50 + signed(common, 6);
    let hot_at: i64 = 210 + signed(common / 64, 5);
    let cold: i64 = base_cp * 64 + signed(value, 13);
    let hot: i64 = base_ft * 32 + signed(value / 0x2000, 13);
    let sensed: i64 = hot - cold;
    let warmed: i64 = hot_at - cold_at;
    if sensed < 1 || sensed > 100_000 || warmed < 1 || warmed > 300 {
        return Err("SOCTHERM fuse calibration is implausible");
    }
    proof {
        lemma_precise(warmed as int * 8192 * 3840, sensed as int * 960, 9_437_184_000);
    }
    let slope: i64 = precise_div(warmed * 8192 * 3840, sensed * 960)?;
    assert(-0x100_0000 <= hot * cold_at <= 0x100_0000 && -0x100_0000 <= cold * hot_at
        <= 0x100_0000) by (nonlinear_arith)
        requires
            -4096 <= cold <= 69567,
            18 <= cold_at <= 81,
            -4096 <= hot <= 69599,
            194 <= hot_at <= 225,
    ;
    proof {
        lemma_precise(hot * cold_at - cold * hot_at, sensed as int, 0x200_0000);
        lemma_slope(warmed as int, sensed as int);
    }
    let offset: i64 = precise_div(hot * cold_at - cold * hot_at, sensed)?;
    assert(-20_000_000_000_000 <= slope * spec.alpha <= 20_000_000_000_000) by (nonlinear_arith)
        requires
            -10_000_000 <= slope <= 10_000_000,
            0 < spec.alpha <= 2_000_000,
    ;
    assert(-70_000_000_000_000 <= offset * spec.alpha <= 70_000_000_000_000) by (nonlinear_arith)
        requires
            -0x200_0001 <= offset <= 0x200_0000,
            0 < spec.alpha <= 2_000_000,
    ;
    let a: i64 = precise_div(slope * spec.alpha, 1_000_000)?;
    let b: i64 = precise_div(offset * spec.alpha + spec.beta, 1_000_000)?;
    proof {
        lemma_quotient(slope * spec.alpha);
        lemma_quotient(offset * spec.alpha + spec.beta);
    }
    if a < -0x8000 || a > 0x7fff {
        return Err("SOCTHERM sensor slope out of range");
    }
    if b < -0x8000 || b > 0x7fff {
        return Err("SOCTHERM sensor offset out of range");
    }
    let high: u32 = to_halfword(a);
    let low: u32 = to_halfword(b);
    Ok(high * 0x1_0000 + low)
}

/// The slope is small enough to be corrected.
proof fn lemma_slope(warmed: int, sensed: int)
    requires
        1 <= warmed <= 300,
        1 <= sensed <= 100_000,
    ensures
        -10_000_000 <= precise_spec(warmed * 8192 * 3840, sensed * 960)->Ok_0 <= 10_000_000,
{
    let n = warmed * 8192 * 3840 * 0x2_0000 + 1;
    let d = 2 * (sensed * 960);
    let q = n / d;
    assert(0 <= q && 1920 * q <= n) by (nonlinear_arith)
        requires
            q == n / d,
            d >= 1920,
            n >= 0,
    ;
}

/// A correction never overflows.
proof fn lemma_quotient(value: int)
    requires
        -70_020_000_000_000 <= value <= 70_020_000_000_000,
    ensures
        precise_spec(value, 1_000_000) is Ok,
{
}

/// Where the fuse of a sensor is.
pub open spec fn fuse_at(index: int) -> usize {
    (FUSES + 0x100 + sensor_spec(index).fuse_offset) as usize
}

pub open spec fn common_at() -> usize {
    (FUSES + 0x280) as usize
}

/// Reads all fuses, and calibrates every sensor. Nothing is written.
pub fn calibrate<R: Timed>(bus: &mut Bus<'_, R>) -> (r: Result<[u32; 8], &'static str>)
    ensures
        final(bus).port() == old(bus).port(),
        mmio::quiet(old(bus).log(), final(bus).log()),
        match r {
            Ok(all) => forall|i: int|
                0 <= i < 8 ==> calibration_spec(
                    mmio::last(final(bus).log(), common_at()),
                    mmio::last(final(bus).log(), fuse_at(i)),
                    sensor_spec(i),
                ) == Ok::<u32, &'static str>(#[trigger] all@[i]),
            Err(e) => exists|i: int|
                0 <= i < 8 && #[trigger] calibration_spec(
                    mmio::last(final(bus).log(), common_at()),
                    mmio::last(final(bus).log(), fuse_at(i)),
                    sensor_spec(i),
                ) == Err::<u32, &'static str>(e) && forall|k: int|
                    0 <= k < i ==> (#[trigger] calibration_spec(
                        mmio::last(final(bus).log(), common_at()),
                        mmio::last(final(bus).log(), fuse_at(k)),
                        sensor_spec(k),
                    )) is Ok,
        },
{
    let common: u32 = bus.read(FUSES + 0x280);
    let mut all: [u32; 8] = [0; 8];
    let mut i: usize = 0;
    while i < 8
        invariant
            bus.port() == old(bus).port(),
            i <= 8,
            mmio::quiet(old(bus).log(), bus.log()),
            mmio::last(bus.log(), common_at()) == common,
            forall|k: int|
                0 <= k < i ==> calibration_spec(
                    common,
                    mmio::last(bus.log(), fuse_at(k)),
                    sensor_spec(k),
                ) == Ok::<u32, &'static str>(#[trigger] all@[k]),
        decreases 8 - i,
    {
        let spec = sensor(i);
        let value: u32 = bus.read(FUSES + 0x100 + spec.fuse_offset);
        assert(mmio::last(bus.log(), fuse_at(i as int)) == value);
        match sensor_calibration(common, value, spec) {
            Err(e) => {
                assert(calibration_spec(
                    mmio::last(bus.log(), common_at()),
                    mmio::last(bus.log(), fuse_at(i as int)),
                    sensor_spec(i as int),
                ) == Err::<u32, &'static str>(e));
                assert forall|k: int| 0 <= k < i implies (#[trigger] calibration_spec(
                    mmio::last(bus.log(), common_at()),
                    mmio::last(bus.log(), fuse_at(k)),
                    sensor_spec(k),
                )) is Ok by {
                    let _ = all@[k];
                }
                return Err(e);
            },
            Ok(word) => {
                all[i] = word;
            },
        }
        i = i + 1;
    }
    Ok(all)
}

/// Where a register of the sensors is.
pub open spec fn at(offset: int) -> usize {
    (SOCTHERM + offset) as usize
}

/// What starts the first sensors.
pub open spec fn sensor_writes(calibrations: Seq<u32>, count: int) -> Seq<(usize, u32)>
    decreases count,
{
    if count <= 0 {
        seq![]
    } else {
        sensor_writes(calibrations, count - 1) + seq![
            (at(sensor_spec(count - 1).base as int), 4_172_800u32),
            (at(sensor_spec(count - 1).base + 4), 0x8100_8077u32),
            (at(sensor_spec(count - 1).base + 8), calibrations[count - 1]),
        ]
    }
}

/// Starts all sensors. What stops the machine when it is too hot stays as it is.
pub fn start_sensors<R: Timed>(bus: &mut Bus<'_, R>, calibrations: &[u32; 8])
    ensures
        final(bus).port() == old(bus).port(),
        mmio::memory_kept(old(bus).log(), final(bus).log()),
        mmio::writes(final(bus).log()) == mmio::writes(old(bus).log()) + (sensor_writes(
            calibrations@,
            8,
        ) + seq![
            (at(0x1c0), (mmio::last(final(bus).log(), at(0x1c0)) & !0xffffu32) | 0x8888),
            (
                at(0x1c4),
                (mmio::last(final(bus).log(), at(0x1c4)) & !0x00ff_ffffu32) | 0x000a_0000 | 0x500,
            ),
        ]),
{
    let mut i: usize = 0;
    assert(mmio::writes(bus.log()) =~= mmio::writes(old(bus).log()) + sensor_writes(
        calibrations@,
        0,
    ));
    while i < 8
        invariant
            bus.port() == old(bus).port(),
            i <= 8,
            mmio::memory_kept(old(bus).log(), bus.log()),
            mmio::writes(bus.log()) == mmio::writes(old(bus).log()) + sensor_writes(
                calibrations@,
                i as int,
            ),
        decreases 8 - i,
    {
        let spec = sensor(i);
        bus.write(SOCTHERM + spec.base, 4_172_800);
        bus.write(SOCTHERM + spec.base + 4, 0x8100_8077);
        bus.write(SOCTHERM + spec.base + 8, calibrations[i]);
        assert(mmio::writes(bus.log()) =~= mmio::writes(old(bus).log()) + sensor_writes(
            calibrations@,
            i + 1,
        ));
        i = i + 1;
    }
    let divider: u32 = bus.read(SOCTHERM + 0x1c0);
    bus.write(SOCTHERM + 0x1c0, (divider & !0xffff) | 0x8888);
    let hotspot: u32 = bus.read(SOCTHERM + 0x1c4);
    bus.write(SOCTHERM + 0x1c4, (hotspot & !0x00ff_ffff) | 0x000a_0000 | 0x500);
    assert(mmio::writes(bus.log()) =~= mmio::writes(old(bus).log()) + (sensor_writes(
        calibrations@,
        8,
    ) + seq![
        (at(0x1c0), (mmio::last(bus.log(), at(0x1c0)) & !0xffffu32) | 0x8888),
        (
            at(0x1c4),
            (mmio::last(bus.log(), at(0x1c4)) & !0x00ff_ffffu32) | 0x000a_0000 | 0x500,
        ),
    ]));
}

/// A reading, in thousandths of a degree: whole degrees above a bit for a half, with
/// the sign in the lowest bit.
pub open spec fn translate_spec(value: int) -> int {
    let magnitude = value / 256 % 256 * 1000 + if value / 128 % 2 == 1 {
        500int
    } else {
        0
    };
    if value % 2 == 1 {
        -magnitude
    } else {
        magnitude
    }
}

pub fn translate(value: u16) -> (r: i32)
    ensures
        r == translate_spec(value as int),
{
    let mut temperature: i32 = (value / 256) as i32 * 1000;
    if value / 128 % 2 != 0 {
        temperature = temperature + 500;
    }
    if value % 2 != 0 {
        temperature = -temperature;
    }
    temperature
}

/// What two registers say of the temperature.
pub open spec fn gpu_temperature(config: u32, group: u32) -> Result<int, &'static str> {
    let sample = group as int % 0x1_0000;
    if config < 0x8000_0000 {
        Err("SOCTHERM GPU TSENSOR is disabled")
    } else if sample == 0 {
        Err("SOCTHERM GPU group temperature is unavailable")
    } else if !(-40_000 <= translate_spec(sample) <= 125_000) {
        Err("SOCTHERM GPU temperature out of range")
    } else {
        Ok(translate_spec(sample))
    }
}

/// The temperature that the registers last said.
pub open spec fn last_temperature(log: Seq<Access>) -> Result<int, &'static str> {
    gpu_temperature(mmio::last(log, at(0x184)), mmio::last(log, at(0x1c8)))
}

/// The temperature of the graphics processor.
pub fn temperature<R: Timed>(bus: &mut Bus<'_, R>) -> (r: Result<i32, &'static str>)
    ensures
        final(bus).port() == old(bus).port(),
        mmio::quiet(old(bus).log(), final(bus).log()),
        match r {
            Ok(t) => last_temperature(final(bus).log()) == Ok::<int, &'static str>(t as int),
            Err(e) => last_temperature(final(bus).log()) == Err::<int, &'static str>(e),
        },
{
    let config: u32 = bus.read(SOCTHERM + 0x184);
    if config < 0x8000_0000 {
        return Err("SOCTHERM GPU TSENSOR is disabled");
    }
    let _ = bus.read(SOCTHERM + 0x190);
    let group: u32 = bus.read(SOCTHERM + 0x1c8);
    let sample: u16 = (group % 0x1_0000) as u16;
    if sample == 0 {
        return Err("SOCTHERM GPU group temperature is unavailable");
    }
    let t: i32 = translate(sample);
    if t < -40_000 || t > 125_000 {
        return Err("SOCTHERM GPU temperature out of range");
    }
    Ok(t)
}

/// One try at the temperature that failed, and the pause behind it.
pub open spec fn tried_once(steps: Seq<Seq<Access>>, k: int) -> bool {
    &&& steps[k + 1].len() > 0
    &&& steps[k + 1].last() == Access::Delay(1000)
    &&& mmio::quiet(steps[k], steps[k + 1].drop_last())
    &&& last_temperature(steps[k + 1].drop_last()) is Err
}

/// So many tries failed one after the other.
pub open spec fn tried_times(before: Seq<Access>, after: Seq<Access>, n: int) -> bool {
    &&& mmio::extends(before, after)
    &&& {
        exists|steps: Seq<Seq<Access>>| #[trigger] tries(steps, before, n) && steps[n] == after
    }
}

pub open spec fn tries(steps: Seq<Seq<Access>>, before: Seq<Access>, n: int) -> bool {
    &&& steps.len() == n + 1
    &&& steps[0] == before
    &&& forall|k: int| 0 <= k < n ==> #[trigger] tried_once(steps, k)
}

/// Waits for the first temperature, for five hundred tries at most.
pub fn first_temperature<R: Timed>(bus: &mut Bus<'_, R>) -> (r: Result<i32, &'static str>)
    ensures
        final(bus).port() == old(bus).port(),
        mmio::quiet(old(bus).log(), final(bus).log()),
        match r {
            Ok(t) => last_temperature(final(bus).log()) == Ok::<int, &'static str>(t as int)
                && exists|a: Seq<Access>, n: int|
                0 <= n < 500 && #[trigger] tried_times(old(bus).log(), a, n) && mmio::quiet(
                    a,
                    final(bus).log(),
                ),
            Err(e) => e == "SOCTHERM GPU TSENSOR did not become valid" && tried_times(
                old(bus).log(),
                final(bus).log(),
                500,
            ),
        },
{
    let mut left: u32 = 500;
    let ghost mut steps: Seq<Seq<Access>> = seq![bus.log()];
    loop
        invariant
            bus.port() == old(bus).port(),
            0 < left <= 500,
            mmio::quiet(old(bus).log(), bus.log()),
            tries(steps, old(bus).log(), 500 - left),
            steps.last() == bus.log(),
        decreases left,
    {
        let ghost a = bus.log();
        assert(tried_times(old(bus).log(), a, 500 - left));
        match temperature(bus) {
            Ok(t) => {
                return Ok(t);
            },
            Err(_) => {
                let ghost seen = bus.log();
                bus.delay_us(1000);
                proof {
                    assert(bus.log().drop_last() =~= seen);
                    let longer = steps.push(bus.log());
                    assert forall|k: int| 0 <= k < 501 - left implies #[trigger] tried_once(
                        longer,
                        k,
                    ) by {
                        if k < 500 - left {
                            assert(tried_once(steps, k));
                        }
                    }
                    steps = longer;
                }
            },
        }
        left = left - 1;
        if left == 0 {
            assert(tries(steps, old(bus).log(), 500));
            return Err("SOCTHERM GPU TSENSOR did not become valid");
        }
    }
}

/// What is wrong with the description of the sensors.
pub open spec fn wiring_error(
    device: NodeView,
    size: Option<u64>,
    nodes: Seq<NodeView>,
) -> Option<&'static str> {
    let fuses = match devicetree::matching(nodes, "nvidia,tegra210-efuse"@, false) {
        None => None,
        Some(node) => node.region,
    };
    if size is None {
        Some("SOCTHERM MMIO resource missing")
    } else if size->0 < 0x600 {
        Some("SOCTHERM MMIO resource truncated")
    } else if device.cell("clocks"@, 0) is None {
        Some("SOCTHERM clocks missing")
    } else if !clocks_ok(device, device.cell("clocks"@, 0)->0) {
        Some("unsupported Tegra210 SOCTHERM clock wiring")
    } else if fuses is None {
        Some("SOCTHERM fuse resource missing")
    } else if !devicetree::covers(fuses, 0x7000_f800, 0x400) {
        Some("unsupported SOCTHERM fuse resource")
    } else {
        None
    }
}

pub open spec fn clocks_ok(device: NodeView, provider: u32) -> bool {
    &&& device.cell("clocks"@, 1) == Some(100u32)
    &&& device.cell("clocks"@, 2) == Some(provider)
    &&& device.cell("clocks"@, 3) == Some(78u32)
    &&& device.cell("resets"@, 0) == Some(provider)
    &&& device.cell("resets"@, 1) == Some(78u32)
}

/// Checks the description, from nodes that were read; who gives the clocks comes back.
pub fn check_wiring_of(device: &Node, size: Option<u64>, nodes: &Vec<Node>) -> (r: Result<
    u32,
    &'static str,
>)
    ensures
        match r {
            Ok(provider) => wiring_error(device@, size, devicetree::views(nodes@)) is None
                && device@.cell("clocks"@, 0) == Some(provider),
            Err(e) => wiring_error(device@, size, devicetree::views(nodes@)) == Some(e),
        },
{
    match size {
        None => {
            return Err("SOCTHERM MMIO resource missing");
        },
        Some(bytes) => {
            if bytes < 0x600 {
                return Err("SOCTHERM MMIO resource truncated");
            }
        },
    }
    let provider: u32 = match device.cell("clocks", 0) {
        None => {
            return Err("SOCTHERM clocks missing");
        },
        Some(provider) => provider,
    };
    let a: Option<u32> = device.cell("clocks", 1);
    let b: Option<u32> = device.cell("clocks", 2);
    let c: Option<u32> = device.cell("clocks", 3);
    let d: Option<u32> = device.cell("resets", 0);
    let e: Option<u32> = device.cell("resets", 1);
    if a != Some(100u32) || b != Some(provider) || c != Some(78u32) || d != Some(provider) || e
        != Some(78u32) {
        return Err("unsupported Tegra210 SOCTHERM clock wiring");
    }
    let region = match find_matching(nodes, "nvidia,tegra210-efuse", false) {
        None => None,
        Some(node) => node.region,
    };
    match region {
        None => Err("SOCTHERM fuse resource missing"),
        Some(region) => {
            if region_covers(region, 0x7000_f800, 0x400) {
                Ok(provider)
            } else {
                Err("unsupported SOCTHERM fuse resource")
            }
        },
    }
}

/// Checks how the board describes the sensors.
pub fn check_wiring(blob: &[u8], device: &Node, size: Option<u64>) -> (r: Result<
    u32,
    &'static str,
>)
    requires
        devicetree::well_formed(blob@),
    ensures
        match r {
            Ok(provider) => wiring_error(device@, size, devicetree::tree_nodes(blob@)) is None
                && device@.cell("clocks"@, 0) == Some(provider),
            Err(e) => wiring_error(device@, size, devicetree::tree_nodes(blob@)) == Some(e),
        },
{
    let nodes = read_nodes(blob);
    check_wiring_of(device, size, &nodes)
}

/// A reading has the sign in its lowest bit, half a degree in the seventh, and whole degrees
/// from the eighth on.
pub proof fn readings_have_sign_and_half(degrees: int, half: bool, below: bool, rest: int)
    requires
        0 <= degrees < 256,
        0 <= rest < 64,
    ensures
        ({
            let value = 256 * degrees + (if half {
                128int
            } else {
                0
            }) + 2 * rest + if below {
                1int
            } else {
                0
            };
            let t = 1000 * degrees + if half {
                500int
            } else {
                0
            };
            translate_spec(value) == if below {
                -t
            } else {
                t
            }
        }),
{
}

/// A temperature is told only of a sensor that is on and has measured, and within its range.
pub proof fn temperatures_are_plausible(config: u32, group: u32)
    ensures
        gpu_temperature(config, group) matches Ok(t) ==> config >= 0x8000_0000 && group as int
            % 0x1_0000 != 0 && -40_000 <= t <= 125_000 && t == translate_spec(
            group as int % 0x1_0000,
        ),
        gpu_temperature(config, group) is Err ==> config < 0x8000_0000 || group as int % 0x1_0000
            == 0 || translate_spec(group as int % 0x1_0000) < -40_000 || translate_spec(
            group as int % 0x1_0000,
        ) > 125_000,
{
}

proof fn lemma_powers()
    by (bit_vector)
    ensures
        1u64 << 5u32 == 32,
        1u64 << 6u32 == 64,
        1u64 << 13u32 == 8192,
{
}

/// A number of some bits is read with its sign: it stands for itself or for what is missing
/// to a whole round.
pub proof fn fuses_have_signs(n: int, above: int)
    requires
        0 <= above < 0x400,
    ensures
        -16 <= n < 16 ==> signed_spec((32 * above + n % 32) as u32, 5) == n,
        -32 <= n < 32 ==> signed_spec((64 * above + n % 64) as u32, 6) == n,
        -4096 <= n < 4096 ==> signed_spec((8192 * above + n % 8192) as u32, 13) == n,
{
    lemma_powers();
}

/// What a sensor read at two temperatures is burnt as differences: the readings from those
/// that all share, in steps of 64 and 32, and the temperatures from 25 and 105 degrees, in
/// halves.
pub proof fn samples_are_burnt_as_differences(
    base_cold: int,
    base_hot: int,
    shift_cold: int,
    shift_hot: int,
    cold: int,
    hot: int,
)
    requires
        0 <= base_cold < 0x400,
        0 <= base_hot < 0x800,
        -32 <= shift_cold < 32,
        -16 <= shift_hot < 16,
        -4096 <= cold < 4096,
        -4096 <= hot < 4096,
    ensures
        ({
            let common = (base_hot * 0x20_0000 + base_cold * 0x800 + shift_hot % 32 * 64
                + shift_cold % 64) as u32;
            let value = (hot % 8192 * 8192 + cold % 8192) as u32;
            sample_spec(common, value) == (
                64 * base_cold + cold,
                50 + shift_cold,
                32 * base_hot + hot,
                210 + shift_hot,
            )
        }),
{
    lemma_powers();
    let common = base_hot * 0x20_0000 + base_cold * 0x800 + shift_hot % 32 * 64 + shift_cold % 64;
    let value = hot % 8192 * 8192 + cold % 8192;
    assert(0 <= common <= u32::MAX && 0 <= value <= u32::MAX);
    assert(common / 0x800 % 0x400 == base_cold);
    assert(common / 0x20_0000 == base_hot);
    assert(common % 64 == shift_cold % 64);
    assert(common / 64 % 32 == shift_hot % 32);
    assert(value % 8192 == cold % 8192);
    assert(value / 8192 == hot % 8192);
    assert(0 <= value / 8192 <= u32::MAX && 0 <= common / 64 <= u32::MAX);
}

/// A calibration has the slope in its upper half and the offset in its lower, each with its
/// sign.
pub proof fn calibrations_hold_slope_and_offset(common: u32, value: u32, spec: SensorSpec, word: u32)
    requires
        calibration_spec(common, value, spec) == Ok::<u32, &'static str>(word),
    ensures
        ({
            let (cold, cold_at, hot, hot_at) = sample_spec(common, value);
            let (slope, offset) = line_spec(cold, cold_at, hot, hot_at, spec);
            &&& cold < hot && cold_at < hot_at
            &&& -0x8000 <= slope < 0x8000 && -0x8000 <= offset < 0x8000
            &&& (word as int / 0x1_0000 - slope) % 0x1_0000 == 0
            &&& (word as int % 0x1_0000 - offset) % 0x1_0000 == 0
        }),
{
    let (cold, cold_at, hot, hot_at) = sample_spec(common, value);
    let (slope, offset) = line_spec(cold, cold_at, hot, hot_at, spec);
    let h = halfword(slope);
    let l = halfword(offset);
    assert(0 <= h < 0x1_0000 && 0 <= l < 0x1_0000);
    assert(word == h * 0x1_0000 + l);
    assert(word as int / 0x1_0000 == h && word as int % 0x1_0000 == l);
    assert((h - slope) % 0x1_0000 == 0);
    assert((l - offset) % 0x1_0000 == 0);
}

/// A precise quotient is off by less than one from the quotient that it stands for.
pub proof fn precise_quotients_are_close(value: int, divisor: int, q: int)
    requires
        0 < divisor,
        0 <= value,
        precise_spec(value, divisor) == Ok::<int, &'static str>(q),
    ensures
        q * divisor <= value + 1,
        value < q * divisor + 2 * divisor,
{
    let n = value * 0x2_0000 + 1;
    let t = n / (2 * divisor);
    vstd::arithmetic::div_mod::lemma_fundamental_div_mod(n, 2 * divisor);
    vstd::arithmetic::div_mod::lemma_mod_bound(n, 2 * divisor);
    assert(q == t / 0x1_0000);
    assert(0x1_0000 * q <= t < 0x1_0000 * q + 0x1_0000);
    assert(q * divisor <= value + 1 && value < q * divisor + 2 * divisor) by (nonlinear_arith)
        requires
            n == value * 0x2_0000 + 1,
            (2 * divisor) * t <= n,
            n < (2 * divisor) * t + 2 * divisor,
            0x1_0000 * q <= t,
            t < 0x1_0000 * q + 0x1_0000,
            0 < divisor,
            0 <= value,
    ;
}

/// The sensors stand one after the other, 32 bytes apart, and each is started with its own
/// calibration.
pub proof fn sensors_get_their_calibration(calibrations: Seq<u32>, count: int, i: int)
    requires
        0 <= i < count <= 8,
    ensures
        ({
            let w = sensor_writes(calibrations, count);
            &&& w.len() == 3 * count
            &&& w[3 * i].0 == 0x700e_20c0 + 0x20 * i && w[3 * i].1 == 4_172_800
            &&& w[3 * i + 1].0 == 0x700e_20c4 + 0x20 * i && w[3 * i + 1].1 == 0x8100_8077
            &&& w[3 * i + 2].0 == 0x700e_20c8 + 0x20 * i && w[3 * i + 2].1 == calibrations[i]
        }),
    decreases count,
{
    if i < count - 1 {
        sensors_get_their_calibration(calibrations, count - 1, i);
    } else if count > 1 {
        sensors_get_their_calibration(calibrations, count - 1, 0);
    } else {
        assert(sensor_writes(calibrations, 0).len() == 0);
    }
}

} // verus!
