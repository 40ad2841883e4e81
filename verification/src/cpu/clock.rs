//! The cluster clock: the processor PLL, and the peripheral PLL as a bridge while
//! the processor PLL is set up anew.
use vstd::prelude::*;

use crate::mmio;
use crate::mmio::{Access, Bus, Timed};

verus! {

pub const OSCILLATOR: usize = 0x50;

pub const PLLP_BASE: usize = 0xa0;

pub const PLLP_MISC: usize = 0xac;

pub const PLLX_BASE: usize = 0xe0;

pub const PLLX_MISC0: usize = 0xe4;

pub const GATES: usize = 0x298;

/// Which clock each burst state takes.
pub const CCLKG_BURST_POLICY: usize = 0x368;

pub const CCLKG_SUPER_DIVIDER: usize = 0x36c;

pub const PLLX_MISC1: usize = 0x510;

pub const PLLX_MISC2: usize = 0x514;

pub const PLLX_MISC3: usize = 0x518;

pub const PLLX_MISC4: usize = 0x5f0;

pub const PLLX_MISC5: usize = 0x5f4;

pub const LOCK: u32 = 0x0800_0000;

pub const ENABLE: u32 = 0x4000_0000;

pub const BYPASS: u32 = 0x8000_0000;

/// The three dividers of the processor PLL.
pub const MNP_MASK: u32 = 0x01f0_ffff;

pub const BRIDGE: u32 = 4;

pub const PLLX: u32 = 8;

pub const BRIDGE_KHZ: u64 = 408_000;

pub const VCO_MIN: u64 = 1_350_000_000;

pub const VCO_MAX: u64 = 3_000_000_000;

/// The post-dividers by their code.
pub open spec fn divisor_spec(code: int) -> Option<int> {
    if code == 0 {
        Some(1)
    } else if code == 1 {
        Some(2)
    } else if code == 2 {
        Some(3)
    } else if code == 3 {
        Some(4)
    } else if code == 4 {
        Some(5)
    } else if code == 5 {
        Some(6)
    } else if code == 6 {
        Some(8)
    } else if code == 7 {
        Some(9)
    } else if code == 8 {
        Some(10)
    } else if code == 9 {
        Some(12)
    } else if code == 10 {
        Some(15)
    } else if code == 11 {
        Some(16)
    } else if code == 12 {
        Some(18)
    } else if code == 13 {
        Some(20)
    } else if code == 14 {
        Some(24)
    } else if code == 15 {
        Some(30)
    } else if code == 16 {
        Some(32)
    } else {
        None
    }
}

pub fn divisor(code: u32) -> (r: Option<u64>)
    ensures
        r is None <==> divisor_spec(code as int) is None,
        r matches Some(d) ==> divisor_spec(code as int) == Some(d as int) && 1 <= d <= 32,
{
    match code {
        0 => Some(1),
        1 => Some(2),
        2 => Some(3),
        3 => Some(4),
        4 => Some(5),
        5 => Some(6),
        6 => Some(8),
        7 => Some(9),
        8 => Some(10),
        9 => Some(12),
        10 => Some(15),
        11 => Some(16),
        12 => Some(18),
        13 => Some(20),
        14 => Some(24),
        15 => Some(30),
        16 => Some(32),
        _ => None,
    }
}

#[derive(Clone, Copy, Debug, PartialEq, Eq, Structural)]
pub struct PllRate {
    pub m: u32,
    pub n: u32,
    pub p: u32,
    pub freq_khz: u64,
}

/// The fixed pre-divider of a reference clock.
pub open spec fn prescaler(reference_hz: u64) -> int {
    if reference_hz == 38_400_000 {
        2
    } else {
        1
    }
}

/// The code of the smallest post-divider that lets the oscillator run fast enough.
pub open spec fn post_divider(rate_hz: int, from: int) -> Option<int>
    decreases 17 - from,
{
    if from >= 17 || divisor_spec(from) is None {
        None
    } else if divisor_spec(from)->0 * rate_hz >= VCO_MIN {
        Some(from)
    } else {
        post_divider(rate_hz, from + 1)
    }
}

/// The dividers for a rate, with the rate that they really give.
pub open spec fn pll_spec(reference_hz: u64, requested_khz: u64) -> Option<PllRate> {
    let hz = requested_khz * 1000;
    if reference_hz != 38_400_000 && reference_hz != 12_000_000 {
        None
    } else if hz == 0 || hz > u64::MAX {
        None
    } else {
        match post_divider(hz, 0) {
            None => None,
            Some(p) => {
                let d = divisor_spec(p)->0;
                let comparison = reference_hz as int / prescaler(reference_hz);
                let n = hz * d / comparison;
                if hz * d <= u64::MAX && VCO_MIN <= comparison * n <= VCO_MAX && 0 < n <= 255 {
                    Some(
                        PllRate {
                            m: prescaler(reference_hz) as u32,
                            n: n as u32,
                            p: p as u32,
                            freq_khz: (reference_hz * n / (prescaler(reference_hz) * d)
                                / 1000) as u64,
                        },
                    )
                } else {
                    None
                }
            },
        }
    }
}

proof fn lemma_divide_up(d: int, rate_hz: int)
    by (nonlinear_arith)
    requires
        rate_hz > 0,
        d > 0,
    ensures
        d >= (1_350_000_000 + rate_hz - 1) / rate_hz <==> d * rate_hz >= 1_350_000_000,
{
}

/// Dividers with a fixed pre-divider and the smallest post-divider.
pub fn pll_rate(reference_hz: u64, requested_khz: u64) -> (r: Option<PllRate>)
    ensures
        r == pll_spec(reference_hz, requested_khz),
{
    let m: u64 = if reference_hz == 38_400_000 {
        2
    } else if reference_hz == 12_000_000 {
        1
    } else {
        return None;
    };
    let rate_hz: u64 = match requested_khz.checked_mul(1000) {
        None => {
            return None;
        },
        Some(rate_hz) => rate_hz,
    };
    if rate_hz == 0 {
        return None;
    }
    let minimum: u64 = if rate_hz >= VCO_MIN {
        1
    } else {
        (VCO_MIN + rate_hz - 1) / rate_hz
    };
    proof {
        assert forall|d: int| d > 0 implies (d >= minimum <==> #[trigger] (d * rate_hz)
            >= VCO_MIN) by {
            if rate_hz >= VCO_MIN {
                assert(d * rate_hz >= rate_hz) by (nonlinear_arith)
                    requires
                        d >= 1,
                        rate_hz > 0,
                ;
            } else {
                lemma_divide_up(d, rate_hz as int);
            }
        }
    }
    let mut p: u32 = 0;
    while p < 17
        invariant
            p <= 17,
            rate_hz > 0,
            m == prescaler(reference_hz),
            reference_hz == 38_400_000 || reference_hz == 12_000_000,
            rate_hz == requested_khz * 1000,
            forall|d: int| d > 0 ==> (d >= minimum <==> #[trigger] (d * rate_hz) >= VCO_MIN),
            post_divider(rate_hz as int, p as int) == post_divider(rate_hz as int, 0),
        decreases 17 - p,
    {
        let d: u64 = match divisor(p) {
            None => {
                return None;
            },
            Some(d) => d,
        };
        assert(d * rate_hz >= VCO_MIN <==> d >= minimum);
        assert(divisor_spec(p as int)->0 * (rate_hz as int) == d * rate_hz);
        if d >= minimum {
            return finish_rate(reference_hz, requested_khz, rate_hz, m, p, d);
        }
        p = p + 1;
    }
    None
}

fn finish_rate(
    reference_hz: u64,
    requested_khz: u64,
    rate_hz: u64,
    m: u64,
    p: u32,
    d: u64,
) -> (r: Option<PllRate>)
    requires
        reference_hz == 38_400_000 || reference_hz == 12_000_000,
        m == prescaler(reference_hz),
        rate_hz == requested_khz * 1000,
        rate_hz > 0,
        post_divider(rate_hz as int, 0) == Some(p as int),
        divisor_spec(p as int) == Some(d as int),
        1 <= d <= 32,
        p < 17,
    ensures
        r == pll_spec(reference_hz, requested_khz),
{
    let comparison: u64 = reference_hz / m;
    let product: u64 = match rate_hz.checked_mul(d) {
        None => {
            return None;
        },
        Some(product) => product,
    };
    let n: u64 = product / comparison;
    if n == 0 || n > 255 {
        return None;
    }
    assert(comparison * n <= 38_400_000 * 255) by (nonlinear_arith)
        requires
            comparison <= 38_400_000,
            0 < n <= 255,
    ;
    assert(reference_hz * n <= 38_400_000 * 255) by (nonlinear_arith)
        requires
            reference_hz <= 38_400_000,
            0 < n <= 255,
    ;
    let vco: u64 = comparison * n;
    if vco < VCO_MIN || vco > VCO_MAX {
        return None;
    }
    assert(1 <= m * d <= 64) by (nonlinear_arith)
        requires
            1 <= m <= 2,
            1 <= d <= 32,
    ;
    assert(rate_hz * d == d * rate_hz) by (nonlinear_arith);
    Some(
        PllRate { m: m as u32, n: n as u32, p, freq_khz: reference_hz * n / (m * d) / 1000 },
    )
}

proof fn lemma_floor(hz: int, d: int, c: int, n: int, m: int, reference: int)
    by (nonlinear_arith)
    requires
        d > 0,
        c > 0,
        m > 0,
        n == hz * d / c,
        reference == c * m,
    ensures
        c * n <= hz * d,
        reference * n / (m * d) <= hz,
{
    assert(c * n <= hz * d);
    assert(reference * n == m * (c * n));
    assert(reference * n <= m * (hz * d));
    assert(m * (hz * d) == hz * (m * d));
}

/// The PLL never runs faster than was asked for, and its oscillator stays in its
/// range.
pub proof fn rates_are_never_exceeded(reference_hz: u64, requested_khz: u64)
    requires
        pll_spec(reference_hz, requested_khz) is Some,
    ensures
        ({
            let rate = pll_spec(reference_hz, requested_khz)->0;
            &&& rate.freq_khz <= requested_khz
            &&& VCO_MIN <= (reference_hz as int / rate.m as int) * rate.n <= VCO_MAX
            &&& 0 < rate.n <= 255
            &&& divisor_spec(rate.p as int) is Some
        }),
{
    let hz = requested_khz * 1000;
    lemma_post_divider(hz, 0);
    let p = post_divider(hz, 0)->0;
    let d = divisor_spec(p)->0;
    let m = prescaler(reference_hz);
    let c = reference_hz as int / m;
    let n = hz * d / c;
    lemma_floor(hz, d, c, n, m, reference_hz as int);
}

proof fn lemma_post_divider(hz: int, from: int)
    requires
        0 <= from,
    ensures
        post_divider(hz, from) matches Some(p) ==> from <= p < 17 && divisor_spec(p) is Some
            && divisor_spec(p)->0 > 0,
    decreases 17 - from,
{
    if from < 17 {
        lemma_post_divider(hz, from + 1);
    }
}

/// The selected clock: which of the four-bit fields counts is the burst state's
/// affair.
pub open spec fn source_spec(policy: u32) -> Result<u32, &'static str> {
    if policy / 0x1000_0000 == 1 {
        Ok((policy % 16) as u32)
    } else if policy / 0x1000_0000 == 2 {
        Ok((policy / 16 % 16) as u32)
    } else {
        Err("unsupported CPU burst-policy state")
    }
}

pub fn source_of(policy: u32) -> (r: Result<u32, &'static str>)
    ensures
        r == source_spec(policy),
{
    if policy / 0x1000_0000 == 1 {
        Ok(policy % 16)
    } else if policy / 0x1000_0000 == 2 {
        Ok(policy / 16 % 16)
    } else {
        Err("unsupported CPU burst-policy state")
    }
}

/// The rate of the processor PLL: only of one that runs, locked, without bypass.
pub open spec fn pllx_khz(base: u32, reference_hz: u64) -> Option<u64> {
    let m = base as int % 256;
    let n = base as int / 256 % 256;
    match divisor_spec(base as int / 0x10_0000 % 32) {
        None => None,
        Some(p) => if base & 0xc800_0000 == 0x4800_0000 && m != 0 && n != 0 {
            Some((reference_hz * n / (m * p) / 1000) as u64)
        } else {
            None
        },
    }
}

pub fn pllx_rate(base: u32, reference_hz: u64) -> (r: Option<u64>)
    requires
        reference_hz <= 38_400_000,
    ensures
        r == pllx_khz(base, reference_hz),
{
    let p: u64 = match divisor(base / 0x10_0000 % 32) {
        None => {
            return None;
        },
        Some(p) => p,
    };
    if base & 0xc800_0000 != 0x4800_0000 {
        return None;
    }
    let m: u64 = (base % 256) as u64;
    let n: u64 = (base / 256 % 256) as u64;
    if m == 0 || n == 0 {
        return None;
    }
    assert(reference_hz * n <= 38_400_000 * 255) by (nonlinear_arith)
        requires
            reference_hz <= 38_400_000,
            n <= 255,
    ;
    assert(1 <= m * p <= 255 * 32) by (nonlinear_arith)
        requires
            1 <= m <= 255,
            1 <= p <= 32,
    ;
    Some(reference_hz * n / (m * p) / 1000)
}

/// What the registers say of the running rate.
pub open spec fn running_khz(policy: u32, base: u32, reference_hz: u64) -> Option<u64> {
    match source_spec(policy) {
        Err(_) => None,
        Ok(source) => if source == BRIDGE {
            Some(BRIDGE_KHZ)
        } else if source == PLLX {
            pllx_khz(base, reference_hz)
        } else {
            None
        },
    }
}

/// Reference clocks that the rates are known for.
pub open spec fn reference_ok(reference_hz: u64) -> bool {
    reference_hz == 38_400_000 || reference_hz == 12_000_000
}

/// The reference of the PLLs: the crystal behind its divider.
pub open spec fn reference_spec(osc: u32) -> Result<u64, &'static str> {
    let crystal = if osc / 0x1000_0000 == 5 {
        38_400_000int
    } else {
        12_000_000
    };
    let shift = osc as int / 0x400_0000 % 4;
    let reference = if shift == 0 {
        crystal
    } else if shift == 1 {
        crystal / 2
    } else if shift == 2 {
        crystal / 4
    } else {
        crystal / 8
    };
    if osc / 0x1000_0000 != 5 && osc / 0x1000_0000 != 8 {
        Err("unsupported T210 oscillator")
    } else if !reference_ok(reference as u64) {
        Err("unsupported PLL reference divider")
    } else {
        Ok(reference as u64)
    }
}

pub fn reference_of(osc: u32) -> (r: Result<u64, &'static str>)
    ensures
        r == reference_spec(osc),
        r matches Ok(hz) ==> reference_ok(hz),
{
    let kind: u32 = osc / 0x1000_0000;
    if kind != 5 && kind != 8 {
        return Err("unsupported T210 oscillator");
    }
    // Every divided crystal is refused.
    if osc / 0x400_0000 % 4 != 0 {
        return Err("unsupported PLL reference divider");
    }
    if kind == 5 {
        Ok(38_400_000)
    } else {
        Ok(12_000_000)
    }
}

/// What is wrong with the inherited clocks.
pub open spec fn inherited_error(
    reference_hz: u64,
    divider: u32,
    policy: u32,
    pllp: u32,
) -> Option<&'static str> {
    let m = pllp as int % 256;
    let n = pllp as int / 0x400 % 256;
    if divider % 0x100_0000 != 0 {
        Some("unsupported inherited CPU divider/skipper")
    } else {
        match source_spec(policy) {
            Err(e) => Some(e),
            Ok(source) => if source != BRIDGE && source != PLLX {
                Some("CPU is not using PLLP or PLLX; DFLL takeover unsupported")
            } else if pllp & 0xc000_0000 != 0x4000_0000 || m == 0 || reference_hz * n / m
                != 408_000_000 {
                Some("PLLP CPU bridge is not running at 408 MHz")
            } else {
                None
            },
        }
    }
}

/// What is wrong with the clocks as they were found.
pub open spec fn found_error(before: Seq<Access>, after: Seq<Access>, reference_hz: u64) -> Option<
    &'static str,
> {
    inherited_error(
        reference_hz,
        mmio::fresh(before, after, CCLKG_SUPER_DIVIDER, 0),
        mmio::fresh(before, after, CCLKG_BURST_POLICY, 0),
        mmio::fresh(before, after, PLLP_BASE, 0),
    )
}

/// The bridge reports its lock, and nothing else was changed.
pub open spec fn unlocked(before: Seq<Access>, after: Seq<Access>) -> bool {
    &&& mmio::extends(before, after)
    &&& {
        mmio::writes(after) == mmio::writes(before).push(
            (PLLP_MISC, (mmio::fresh(before, after, PLLP_MISC, 0) & 0xfffd_ffff) | 0x4_0000),
        )
    }
}

/// The first readings stay the first.
proof fn lemma_first(before: Seq<Access>, seen: Seq<Access>, after: Seq<Access>)
    requires
        mmio::extends(seen, after),
        forall|o: usize|
            o == OSCILLATOR || o == CCLKG_SUPER_DIVIDER || o == CCLKG_BURST_POLICY || o == PLLP_BASE
                || o == PLLP_MISC ==> (#[trigger] mmio::reads(seen, o)).len() > mmio::reads(
                before,
                o,
            ).len(),
    ensures
        forall|o: usize|
            o == OSCILLATOR || o == CCLKG_SUPER_DIVIDER || o == CCLKG_BURST_POLICY || o == PLLP_BASE
                || o == PLLP_MISC ==> #[trigger] mmio::fresh(before, after, o, 0) == mmio::fresh(
                before,
                seen,
                o,
                0,
            ),
{
    assert forall|o: usize|
        o == OSCILLATOR || o == CCLKG_SUPER_DIVIDER || o == CCLKG_BURST_POLICY || o == PLLP_BASE
            || o == PLLP_MISC implies #[trigger] mmio::fresh(before, after, o, 0) == mmio::fresh(
        before,
        seen,
        o,
        0,
    ) by {
        assert(mmio::reads(seen, o).len() > mmio::reads(before, o).len());
        mmio::readings_stay(seen, after, o, mmio::reads(before, o).len() as int);
    }
}

/// The clock of the cluster, by the reference of its PLLs.
#[derive(Clone, Copy, Debug)]
pub struct CpuClock {
    pub reference_hz: u64,
}

/// Everything written when a rate is set, by what was read: the gates, the policy
/// on the way to the bridge, the PLL, and the policy on the way back.
pub open spec fn rate_writes(
    gates: u32,
    policy: u32,
    base: u32,
    back: u32,
    rate: PllRate,
    reference_hz: u64,
) -> Seq<(usize, u32)> {
    let off = base & !(ENABLE | BYPASS);
    let config = (off & !MNP_MASK) | rate.m | (rate.n << 8) | (rate.p << 20);
    seq![
        (GATES, gates | 0x8000_0000),
        (CCLKG_BURST_POLICY, (policy & 0xffff_0000) | 0x4444),
        (PLLX_BASE, off),
        (PLLX_MISC0, 0x4_0000u32),
        (PLLX_MISC1, 0x20u32),
        (
            PLLX_MISC2,
            if reference_hz == 38_400_000 {
                0x0812_0000u32
            } else {
                0x0b2b_0000
            },
        ),
        (PLLX_MISC3, 8u32),
        (PLLX_MISC4, 0u32),
        (PLLX_MISC5, 0u32),
        (PLLX_MISC3, 0u32),
        (PLLX_BASE, config),
        (PLLX_BASE, config | ENABLE),
        (CCLKG_BURST_POLICY, (back & 0xffff_0000) | 0x8888),
    ]
}

/// What is written, by how far it came.
pub open spec fn rate_outcome(
    before: Seq<Access>,
    after: Seq<Access>,
    rate: PllRate,
    reference_hz: u64,
    r: Result<(), &'static str>,
) -> bool {
    &&& mmio::extends(before, after)
    &&& {
        exists|gates: u32, policy: u32, base: u32, back: u32, count: int|
            {
                &&& mmio::writes(after) == mmio::writes(before) + #[trigger] rate_writes(
                    gates,
                    policy,
                    base,
                    back,
                    rate,
                    reference_hz,
                ).take(count)
                // What is kept is what was found.
                &&& count > 0 ==> mmio::saw(before, after, GATES, gates)
                &&& count > 1 ==> mmio::saw(before, after, CCLKG_BURST_POLICY, policy)
                &&& count > 2 ==> mmio::saw(before, after, PLLX_BASE, base)
                &&& count > 12 ==> mmio::saw(before, after, CCLKG_BURST_POLICY, back)
                &&& match r {
                    Ok(_) => count == 0 || count == 13,
                    Err(e) => {
                        ||| e == "unsupported CPU burst-policy state" && count == 0
                        ||| e == "CPU did not switch to PLLP bridge" && count == 2
                        ||| e == "PLLX lock timeout; CPU remains on 408 MHz PLLP" && count == 12
                        ||| e == "CPU frequency readback mismatch" && count == 13
                    },
                }
            }
    }
}

/// The last accesses show that the cluster runs at a rate.
pub open spec fn shows_rate(log: Seq<Access>, reference_hz: u64, khz: Option<u64>) -> bool {
    ||| log.len() > 0 && (log.last() matches Access::Read(o, policy) && o == CCLKG_BURST_POLICY
        && source_spec(policy) != Ok::<u32, &'static str>(PLLX) && khz == running_khz(
        policy,
        0,
        reference_hz,
    ))
    ||| log.len() > 1 && (log[log.len() - 2] matches Access::Read(o, policy) && o
        == CCLKG_BURST_POLICY && source_spec(policy) == Ok::<u32, &'static str>(PLLX) && (
    log.last() matches Access::Read(x, base) && x == PLLX_BASE && khz == running_khz(
        policy,
        base,
        reference_hz,
    )))
}

impl CpuClock {
    pub open spec fn wf(self) -> bool {
        reference_ok(self.reference_hz)
    }

    /// Takes over the clocks that firmware left. Only the lock report of the
    /// bridge is changed: its rate feeds other devices.
    pub fn new<R: Timed>(bus: &mut Bus<'_, R>) -> (r: Result<Self, &'static str>)
        ensures
            final(bus).port() == old(bus).port(),
            mmio::extends(old(bus).log(), final(bus).log()),
            r matches Ok(clock) ==> clock.wf() && final(bus).log().len() > 5 && mmio::extends(
                old(bus).log(),
                final(bus).log(),
            ),
            match r {
                Ok(clock) => {
                    &&& reference_spec(mmio::fresh(old(bus).log(), final(bus).log(), OSCILLATOR, 0))
                        == Ok::<u64, &'static str>(clock.reference_hz)
                    &&& found_error(old(bus).log(), final(bus).log(), clock.reference_hz) is None
                    &&& unlocked(old(bus).log(), final(bus).log())
                },
                Err(e) => {
                    let osc = mmio::fresh(old(bus).log(), final(bus).log(), OSCILLATOR, 0);
                    match reference_spec(osc) {
                        Err(error) => e == error && mmio::writes(final(bus).log()) == mmio::writes(
                            old(bus).log(),
                        ),
                        Ok(hz) => {
                            ||| found_error(old(bus).log(), final(bus).log(), hz) == Some(e)
                                && mmio::writes(final(bus).log()) == mmio::writes(old(bus).log())
                            ||| (e == "PLLP CPU bridge lock timeout" || e
                                == "inherited CPU PLL is not locked") && unlocked(
                                old(bus).log(),
                                final(bus).log(),
                            )
                        },
                    }
                },
            },
            r matches Ok(clock) ==> exists|khz: u64| #[trigger]
                shows_rate(final(bus).log(), clock.reference_hz, Some(khz)),
    {
        let osc: u32 = bus.read(OSCILLATOR);
        let reference_hz: u64 = reference_of(osc)?;
        let divider: u32 = bus.read(CCLKG_SUPER_DIVIDER);
        if divider % 0x100_0000 != 0 {
            return Err("unsupported inherited CPU divider/skipper");
        }
        let policy: u32 = bus.read(CCLKG_BURST_POLICY);
        let source: u32 = source_of(policy)?;
        if source != BRIDGE && source != PLLX {
            return Err("CPU is not using PLLP or PLLX; DFLL takeover unsupported");
        }
        let pllp: u32 = bus.read(PLLP_BASE);
        let m: u64 = (pllp % 256) as u64;
        let n: u64 = (pllp / 0x400 % 256) as u64;
        if pllp & 0xc000_0000 != 0x4000_0000 || m == 0 {
            return Err("PLLP CPU bridge is not running at 408 MHz");
        }
        assert(reference_hz * n <= 38_400_000 * 255) by (nonlinear_arith)
            requires
                reference_hz <= 38_400_000,
                n <= 255,
        ;
        if reference_hz * n / m != 408_000_000 {
            return Err("PLLP CPU bridge is not running at 408 MHz");
        }
        assert(inherited_error(reference_hz, divider, policy, pllp) is None);
        let misc: u32 = bus.read(PLLP_MISC);
        let ghost seen = bus.log();
        bus.write(PLLP_MISC, (misc & 0xfffd_ffff) | 0x4_0000);
        bus.read(PLLP_MISC);
        bus.delay_us(2);
        let locked: bool = await_lock(bus, PLLP_BASE);
        proof {
            lemma_first(old(bus).log(), seen, bus.log());
        }
        if !locked {
            return Err("PLLP CPU bridge lock timeout");
        }
        let clock = CpuClock { reference_hz };
        let running = clock.frequency_khz(bus);
        proof {
            lemma_first(old(bus).log(), seen, bus.log());
        }
        match running {
            None => Err("inherited CPU PLL is not locked"),
            Some(khz) => {
                assert(shows_rate(bus.log(), clock.reference_hz, Some(khz)));
                Ok(clock)
            },
        }
    }

    /// The running rate, read from the registers.
    pub fn frequency_khz<R: Timed>(&self, bus: &mut Bus<'_, R>) -> (r: Option<u64>)
        requires
            self.wf(),
        ensures
            final(bus).port() == old(bus).port(),
            shows_rate(final(bus).log(), self.reference_hz, r),
            mmio::writes(final(bus).log()) == mmio::writes(old(bus).log()),
            mmio::extends(old(bus).log(), final(bus).log()),
            final(bus).log().len() > old(bus).log().len(),
    {
        let policy: u32 = bus.read(CCLKG_BURST_POLICY);
        match source_of(policy) {
            Err(_) => None,
            Ok(source) => {
                if source == BRIDGE {
                    Some(BRIDGE_KHZ)
                } else if source == PLLX {
                    let base: u32 = bus.read(PLLX_BASE);
                    pllx_rate(base, self.reference_hz)
                } else {
                    None
                }
            },
        }
    }

    pub fn raw_status<R: Timed>(&self, bus: &mut Bus<'_, R>) -> (r: u32)
        ensures
            final(bus).port() == old(bus).port(),
            mmio::extends(old(bus).log(), final(bus).log()),
            final(bus).log() == old(bus).log().push(Access::Read(CCLKG_BURST_POLICY, r)),
    {
        bus.read(CCLKG_BURST_POLICY)
    }

    /// Moves all burst states to one clock: the PLL belongs to every processor,
    /// sleeping ones too.
    fn switch_source<R: Timed>(&self, bus: &mut Bus<'_, R>, sources: u32) -> (policy: Ghost<u32>)
        requires
            sources == 0x4444 || sources == 0x8888,
        ensures
            final(bus).port() == old(bus).port(),
            mmio::writes(final(bus).log()) == mmio::writes(old(bus).log()).push(
                (CCLKG_BURST_POLICY, (policy@ & 0xffff_0000) | sources),
            ),
            mmio::extends(old(bus).log(), final(bus).log()),
            mmio::saw(old(bus).log(), final(bus).log(), CCLKG_BURST_POLICY, policy@),
    {
        let policy: u32 = bus.read(CCLKG_BURST_POLICY);
        let ghost seen = bus.log();
        bus.write(CCLKG_BURST_POLICY, (policy & 0xffff_0000) | sources);
        bus.read(CCLKG_BURST_POLICY);
        bus.delay_us(2);
        proof {
            mmio::lemma_saw(old(bus).log(), seen, bus.log(), CCLKG_BURST_POLICY, policy);
        }
        Ghost(policy)
    }

    /// Changes the rate. While the PLL is set up anew the cluster runs from the
    /// bridge, and it stays there if the PLL does not lock.
    pub fn set_rate<R: Timed>(&self, bus: &mut Bus<'_, R>, rate: PllRate) -> (r: Result<
        (),
        &'static str,
    >)
        requires
            self.wf(),
        ensures
            final(bus).port() == old(bus).port(),
            mmio::extends(old(bus).log(), final(bus).log()),
            rate_outcome(old(bus).log(), final(bus).log(), rate, self.reference_hz, r),
            r is Ok ==> shows_rate(final(bus).log(), self.reference_hz, Some(rate.freq_khz)),
    {
        let ghost before = bus.log();
        let ghost start = mmio::writes(bus.log());
        let running: Option<u64> = self.frequency_khz(bus);
        assert(start =~= start + rate_writes(0, 0, 0, 0, rate, self.reference_hz).take(0));
        if running == Some(rate.freq_khz) {
            return Ok(());
        }
        let policy: u32 = bus.read(CCLKG_BURST_POLICY);
        source_of(policy)?;
        let gates: u32 = bus.read(GATES);
        let ghost seen_gates = bus.log();
        bus.write(GATES, gates | 0x8000_0000);
        bus.read(GATES);
        bus.delay_us(2);
        let ghost leaving = bus.log();
        let away: Ghost<u32> = self.switch_source(bus, 0x4444);
        let ghost left = bus.log();
        assert(mmio::writes(bus.log()) =~= start + rate_writes(
            gates,
            away@,
            0,
            0,
            rate,
            self.reference_hz,
        ).take(2));
        let bridged: Option<u64> = self.frequency_khz(bus);
        proof {
            mmio::lemma_saw(before, seen_gates, bus.log(), GATES, gates);
            mmio::lemma_saw_later(before, leaving, left, bus.log(), CCLKG_BURST_POLICY, away@);
        }
        if bridged != Some(BRIDGE_KHZ) {
            return Err("CPU did not switch to PLLP bridge");
        }
        let base: u32 = bus.read(PLLX_BASE);
        let ghost seen_base = bus.log();
        let off: u32 = base & !(ENABLE | BYPASS);
        self.stop_pll(bus, off);
        let config: u32 = (off & !MNP_MASK) | rate.m | (rate.n << 8) | (rate.p << 20);
        bus.write(PLLX_BASE, config);
        bus.read(PLLX_BASE);
        bus.delay_us(1);
        bus.write(PLLX_BASE, config | ENABLE);
        bus.read(PLLX_BASE);
        assert(mmio::writes(bus.log()) =~= start + rate_writes(
            gates,
            away@,
            base,
            0,
            rate,
            self.reference_hz,
        ).take(12));
        let locked: bool = await_lock(bus, PLLX_BASE);
        proof {
            mmio::lemma_saw(before, seen_gates, bus.log(), GATES, gates);
            mmio::lemma_saw_later(before, leaving, left, bus.log(), CCLKG_BURST_POLICY, away@);
            mmio::lemma_saw(before, seen_base, bus.log(), PLLX_BASE, base);
        }
        if !locked {
            return Err("PLLX lock timeout; CPU remains on 408 MHz PLLP");
        }
        bus.delay_us(2);
        let ghost returning = bus.log();
        let back: Ghost<u32> = self.switch_source(bus, 0x8888);
        let ghost returned = bus.log();
        assert(mmio::writes(bus.log()) =~= start + rate_writes(
            gates,
            away@,
            base,
            back@,
            rate,
            self.reference_hz,
        ).take(13));
        let reached: Option<u64> = self.frequency_khz(bus);
        proof {
            mmio::lemma_saw(before, seen_gates, bus.log(), GATES, gates);
            mmio::lemma_saw_later(before, leaving, left, bus.log(), CCLKG_BURST_POLICY, away@);
            mmio::lemma_saw(before, seen_base, bus.log(), PLLX_BASE, base);
            mmio::lemma_saw_later(before, returning, returned, bus.log(), CCLKG_BURST_POLICY, back@);
        }
        if reached != Some(rate.freq_khz) {
            return Err("CPU frequency readback mismatch");
        }
        Ok(())
    }

    /// Stops the PLL and puts its other settings to what they are when it is off.
    fn stop_pll<R: Timed>(&self, bus: &mut Bus<'_, R>, off: u32)
        ensures
            final(bus).port() == old(bus).port(),
            mmio::writes(final(bus).log()) == mmio::writes(old(bus).log()) + seq![
                (PLLX_BASE, off),
                (PLLX_MISC0, 0x4_0000u32),
                (PLLX_MISC1, 0x20u32),
                (
                    PLLX_MISC2,
                    if self.reference_hz == 38_400_000 {
                        0x0812_0000u32
                    } else {
                        0x0b2b_0000
                    },
                ),
                (PLLX_MISC3, 8u32),
                (PLLX_MISC4, 0u32),
                (PLLX_MISC5, 0u32),
                (PLLX_MISC3, 0u32),
            ],
            mmio::extends(old(bus).log(), final(bus).log()),
    {
        bus.write(PLLX_BASE, off);
        bus.read(PLLX_BASE);
        bus.delay_us(2);
        bus.write(PLLX_MISC0, 0x4_0000);
        bus.write(PLLX_MISC1, 0x20);
        bus.write(
            PLLX_MISC2,
            if self.reference_hz == 38_400_000 {
                0x0812_0000
            } else {
                0x0b2b_0000
            },
        );
        bus.write(PLLX_MISC3, 8);
        bus.write(PLLX_MISC4, 0);
        bus.write(PLLX_MISC5, 0);
        bus.delay_us(2);
        bus.write(PLLX_MISC3, 0);
        bus.read(PLLX_MISC3);
        bus.delay_us(2);
    }
}

/// The PLL was looked at, and had no lock until the time was up.
pub open spec fn lock_missed(before: Seq<Access>, after: Seq<Access>, pll: usize) -> bool {
    &&& mmio::extends(before, after)
    &&& mmio::tried(before, after, pll)
    &&& mmio::last(after, pll) & LOCK == 0
    &&& mmio::ran_out(before, after, 300_000, u64::MAX as int)
}

/// Waits up to 300 microseconds for a lock.
fn await_lock<R: Timed>(bus: &mut Bus<'_, R>, pll: usize) -> (r: bool)
    ensures
        final(bus).port() == old(bus).port(),
        mmio::writes(final(bus).log()) == mmio::writes(old(bus).log()),
        mmio::extends(old(bus).log(), final(bus).log()),
        r ==> final(bus).log().len() > 0 && (final(bus).log().last() matches Access::Read(o, v) && o
            == pll && v & LOCK != 0),
        !r ==> lock_missed(old(bus).log(), final(bus).log(), pll),
{
    let start: u64 = bus.now_ns();
    let deadline: u64 = start.saturating_add(300_000);
    let mut polls: u64 = u64::MAX;
    while polls > 0
        invariant
            bus.port() == old(bus).port(),
            deadline == mmio::until(start, 300_000),
            bus.log().len() == old(bus).log().len() + 1 + 3 * (u64::MAX - polls),
            bus.log()[old(bus).log().len() as int] == Access::Time(start),
            polls < u64::MAX ==> mmio::tried(old(bus).log(), bus.log(), pll) && mmio::last(
                bus.log(),
                pll,
            ) & LOCK == 0,
            polls == u64::MAX ==> mmio::reads(bus.log(), pll) == mmio::reads(old(bus).log(), pll),
            mmio::writes(bus.log()) == mmio::writes(old(bus).log()),
            mmio::extends(old(bus).log(), bus.log()),
        decreases polls,
    {
        let value: u32 = bus.read(pll);
        if value & LOCK != 0 {
            return true;
        }
        let now: u64 = bus.now_ns();
        if now >= deadline {
            return false;
        }
        bus.delay_us(2);
        polls = polls - 1;
    }
    false
}

/// Between the two changes of the cluster's clock, and only there, the processor
/// PLL is written: nothing runs from it while it changes.
pub proof fn the_pll_changes_on_the_bridge(
    gates: u32,
    policy: u32,
    base: u32,
    back: u32,
    rate: PllRate,
    reference_hz: u64,
    i: int,
)
    requires
        0 <= i < 13,
    ensures
        ({
            let w = rate_writes(gates, policy, base, back, rate, reference_hz);
            &&& w.len() == 13
            &&& (w[i].0 == PLLX_BASE || w[i].0 == PLLX_MISC0 || w[i].0 == PLLX_MISC1 || w[i].0
                == PLLX_MISC2 || w[i].0 == PLLX_MISC3 || w[i].0 == PLLX_MISC4 || w[i].0
                == PLLX_MISC5) <==> 1 < i < 12
            &&& w[i].0 == CCLKG_BURST_POLICY <==> i == 1 || i == 12
        }),
{
}

/// The post-dividers by their code are these, and no other code has one.
pub proof fn post_dividers_are_known(code: int)
    ensures
        divisor_spec(code) is Some <==> 0 <= code <= 16,
        0 <= code <= 16 ==> divisor_spec(code) == Some(
            seq![1int, 2, 3, 4, 5, 6, 8, 9, 10, 12, 15, 16, 18, 20, 24, 30, 32][code],
        ),
{
}

proof fn lemma_post(rate: int, from: int)
    requires
        0 <= from,
    ensures
        post_divider(rate, from) matches Some(p) ==> {
            &&& from <= p <= 16
            &&& divisor_spec(p)->0 * rate >= VCO_MIN
            &&& forall|q: int| from <= q < p ==> #[trigger] divisor_spec(q)->0 * rate < VCO_MIN
        },
    decreases 17 - from,
{
    if from < 17 && divisor_spec(from) is Some && divisor_spec(from)->0 * rate < VCO_MIN {
        lemma_post(rate, from + 1);
    }
}

/// The dividers for a rate give it to within one step: the oscillator runs between 1.35 and
/// 3 GHz, at the least multiple of the rate that does, and a step more would be too fast.
pub proof fn dividers_give_the_rate(reference_hz: u64, khz: u64, rate: PllRate)
    requires
        pll_spec(reference_hz, khz) == Some(rate),
    ensures
        reference_hz == 38_400_000 || reference_hz == 12_000_000,
        rate.m == if reference_hz == 38_400_000 {
            2int
        } else {
            1
        },
        0 < rate.n <= 255,
        rate.p <= 16,
        ({
            let d = seq![1int, 2, 3, 4, 5, 6, 8, 9, 10, 12, 15, 16, 18, 20, 24, 30, 32][rate.p as int];
            let comparison = reference_hz as int / rate.m as int;
            let oscillator = comparison * rate.n;
            &&& 1_350_000_000 <= oscillator <= 3_000_000_000
            &&& oscillator <= khz * 1000 * d < oscillator + comparison
            &&& rate.freq_khz as int == oscillator / d / 1000
        }),
{
    let hz = khz * 1000;
    lemma_post(hz, 0);
    let p = rate.p as int;
    post_dividers_are_known(p);
    let d = divisor_spec(p)->0;
    let comparison = reference_hz as int / prescaler(reference_hz);
    let n = rate.n as int;
    vstd::arithmetic::div_mod::lemma_fundamental_div_mod(hz * d, comparison);
    vstd::arithmetic::div_mod::lemma_mod_bound(hz * d, comparison);
    let m = prescaler(reference_hz);
    assert(reference_hz as int == comparison * m);
    assert(reference_hz * n == m * (comparison * n)) by (nonlinear_arith)
        requires
            reference_hz as int == comparison * m,
    ;
    vstd::arithmetic::div_mod::lemma_div_multiples_vanish_quotient(m, comparison * n, d);
}

proof fn lemma_config(base: u32, m: u32, n: u32, p: u32)
    by (bit_vector)
    requires
        m <= 255,
        n <= 255,
        p <= 31,
    ensures
        ({
            let off = base & !(0x4000_0000u32 | 0x8000_0000u32);
            let config = ((off & !0x01f0_ffffu32) | m | (n << 8) | (p << 20)) | 0x4000_0000;
            let seen = config | 0x0800_0000;
            &&& seen % 256 == m
            &&& seen / 256 % 256 == n
            &&& seen / 0x10_0000 % 32 == p
            &&& seen & 0xc800_0000 == 0x4800_0000
            &&& config & 0x3600_0000 == base & 0x3600_0000
        }),
{
}

/// A rate that was set is the one that is read back once the lock is reported, whatever else
/// the registers held: the dividers are told where they are read.
pub proof fn rates_are_read_back(
    gates: u32,
    policy: u32,
    base: u32,
    back: u32,
    reference_hz: u64,
    khz: u64,
    rate: PllRate,
)
    requires
        pll_spec(reference_hz, khz) == Some(rate),
    ensures
        ({
            let w = rate_writes(gates, policy, base, back, rate, reference_hz);
            &&& w.len() == 13
            &&& w[11].0 == 0xe0
            &&& pllx_khz(w[11].1 | 0x0800_0000, reference_hz) == Some(rate.freq_khz)
            &&& w[12].0 == 0x368
            &&& back / 0x1000_0000 == 1 || back / 0x1000_0000 == 2 ==> running_khz(
                w[12].1,
                w[11].1 | 0x0800_0000,
                reference_hz,
            ) == Some(rate.freq_khz)
            &&& w[1].0 == 0x368
            &&& policy / 0x1000_0000 == 1 || policy / 0x1000_0000 == 2 ==> running_khz(
                w[1].1,
                base,
                reference_hz,
            ) == Some(408_000u64)
        }),
{
    dividers_give_the_rate(reference_hz, khz, rate);
    lemma_config(base, rate.m, rate.n, rate.p);
    lemma_policy(policy);
    lemma_policy(back);
    post_dividers_are_known(rate.p as int);
    let w = rate_writes(gates, policy, base, back, rate, reference_hz);
    let seen = w[11].1 | 0x0800_0000u32;
    assert(seen as int % 256 == rate.m && seen as int / 256 % 256 == rate.n && seen as int
        / 0x10_0000 % 32 == rate.p);
    assert(seen & 0xc800_0000 == 0x4800_0000);
    let d = divisor_spec(rate.p as int)->0;
    lemma_post(khz * 1000, 0);
    assert(rate.freq_khz == (reference_hz * (rate.n as int) / ((rate.m as int) * d) / 1000) as u64);
    assert(pllx_khz(seen, reference_hz) == Some(rate.freq_khz));
}

proof fn lemma_policy(policy: u32)
    by (bit_vector)
    ensures
        ({
            let bridge = (policy & 0xffff_0000) | 0x4444;
            let fast = (policy & 0xffff_0000) | 0x8888;
            &&& bridge / 0x1000_0000 == policy / 0x1000_0000
            &&& bridge % 16 == 4 && bridge / 16 % 16 == 4
            &&& fast / 0x1000_0000 == policy / 0x1000_0000
            &&& fast % 16 == 8 && fast / 16 % 16 == 8
        }),
{
}

/// Clocks are taken over if nothing divides the processor's, it runs from the bridge or its
/// own PLL, and the bridge runs at 408 MHz.
pub proof fn known_clocks_are_taken_over(reference_hz: u64, divider: u32, policy: u32, pllp: u32)
    requires
        inherited_error(reference_hz, divider, policy, pllp) is None,
    ensures
        divider % 0x100_0000 == 0,
        source_spec(policy) == Ok::<u32, &'static str>(4) || source_spec(policy) == Ok::<
            u32,
            &'static str,
        >(8),
        pllp & 0xc000_0000 == 0x4000_0000,
        ({
            let m = pllp as int % 256;
            let n = pllp as int / 1024 % 256;
            m > 0 && reference_hz * n / m == 408_000_000
        }),
        policy / 0x1000_0000 == 1 ==> source_spec(policy) == Ok::<u32, &'static str>(policy % 16),
        policy / 0x1000_0000 == 2 ==> source_spec(policy) == Ok::<u32, &'static str>(
            policy / 16 % 16,
        ),
{
}

/// A rate is set with the PLL off: its tuning for the reference, its reset taken and given
/// back, and its dividers before it is enabled.
pub proof fn plls_are_tuned_while_off(
    gates: u32,
    policy: u32,
    base: u32,
    back: u32,
    rate: PllRate,
    reference_hz: u64,
)
    ensures
        ({
            let w = rate_writes(gates, policy, base, back, rate, reference_hz);
            &&& w[0] == (0x298usize, gates | 0x8000_0000)
            &&& w[2].0 == 0xe0
            &&& w[3] == (0xe4usize, 0x4_0000u32) && w[4] == (0x510usize, 0x20u32)
            &&& w[5].0 == 0x514 && w[5].1 == if reference_hz == 38_400_000 {
                0x0812_0000int
            } else {
                0x0b2b_0000
            }
            &&& w[6] == (0x518usize, 8u32) && w[7] == (0x5f0usize, 0u32) && w[8] == (
                0x5f4usize,
                0u32,
            ) && w[9] == (0x518usize, 0u32)
            &&& w[10].0 == 0xe0 && w[11] == (0xe0usize, w[10].1 | 0x4000_0000)
        }),
{
}

} // verus!
