//! What the whole graphics processor needs before any address or channel is
//! published: clocks, the private register ring, memory partitions.
use vstd::prelude::*;

use crate::mmio;
use crate::mmio::{Access, Bus, Timed};

verus! {

pub const MC_ENABLE: usize = 0x200;

pub const PRIV_RING: u32 = 0x20;

pub const RING_COMMAND: usize = 0x12_004c;

pub const RING_STATUS0: usize = 0x12_0058;

pub const RING_STATUS1: usize = 0x12_005c;

pub const RING_GATING: usize = 0x12_00a8;

pub const RING_DECODE: usize = 0x12_2204;

pub const CLOCK_COUNTER_CONFIG: usize = 0x13_4124;

pub const CLOCK_COUNTER: usize = 0x13_4128;

pub const SEL_VCO: usize = 0x13_7100;

pub const OUTPUT_DIVIDERS: usize = 0x13_7250;

pub const BYPASS: usize = 0x13_7340;

pub const IDLE_SLOWDOWN: usize = 0x2_0160;

pub const DIVIDER_BITS: u32 = 0x8000_3f3f;

/// Reference cycles that a measurement takes.
pub const CYCLES: u64 = 800;

/// How many partitions the ring counts.
pub const PARTITIONS: usize = 0x12_006c;

pub const SLICES: usize = 0x14_0518;

/// The fuse for private security.
pub const SECURITY: usize = 0x2_1434;

/// The registers as they were found.
pub struct Inherited {
    pub vco: u32,
    pub dividers: u32,
    pub bypass: u32,
    pub slowdown: u32,
    pub enable: u32,
}

/// Everything written on the way to a running ring: undivided reference clock
/// without slowdown, no gating, then a reset of the ring alone, and longer
/// timeouts of its stations.
pub open spec fn ring_writes(found: Inherited) -> Seq<(usize, u32)> {
    seq![
        (SEL_VCO, found.vco & !1u32),
        (OUTPUT_DIVIDERS, (found.dividers & !DIVIDER_BITS) | 0x8000_0000),
        (BYPASS, found.bypass & !1u32),
        (IDLE_SLOWDOWN, found.slowdown & !0x3f_0000u32),
        (0x1c04usize, 0x3feu32),
        (0x1c00usize, 0u32),
        (MC_ENABLE, found.enable & !PRIV_RING),
        (MC_ENABLE, found.enable | PRIV_RING),
        (RING_GATING, 1u32),
        (RING_COMMAND, 4u32),
        (RING_DECODE, 2u32),
        (0x12_2354usize, 0x800u32),
        (0x12_8328usize, 0x800u32),
        (0x12_4320usize, 0x800u32),
    ]
}

/// The registers were found so on the way: each before it was first written.
pub open spec fn ring_found(
    before: Seq<Access>,
    after: Seq<Access>,
    found: Inherited,
    count: int,
) -> bool {
    &&& mmio::extends(before, after)
    &&& count > 0 ==> mmio::fresh(before, after, SEL_VCO, 0) == found.vco
    &&& count > 1 ==> mmio::fresh(before, after, OUTPUT_DIVIDERS, 0) == found.dividers
    &&& count > 2 ==> mmio::fresh(before, after, BYPASS, 0) == found.bypass
    &&& count > 3 ==> mmio::fresh(before, after, IDLE_SLOWDOWN, 0) == found.slowdown
    &&& count > 6 ==> mmio::fresh(before, after, MC_ENABLE, 0) == found.enable
}

/// How far an initialization came.
pub open spec fn ring_progress(before: Seq<Access>, after: Seq<Access>, count: int) -> bool {
    &&& mmio::extends(before, after)
    &&& {
        exists|found: Inherited|
            mmio::writes(after) == mmio::writes(before) + #[trigger] ring_writes(found).take(count)
                && ring_found(before, after, found, count)
    }
}

/// What was read when an initialization gave up.
pub open spec fn ring_cause(e: &'static str, log: Seq<Access>) -> bool {
    if e == "GPU reference-bypass clock readback mismatch" {
        last(log, SEL_VCO) & 1 != 0 || last(log, OUTPUT_DIVIDERS) & DIVIDER_BITS != 0x8000_0000
            || last(log, BYPASS) & 1 != 0
    } else if e == "GPU PRIV ring register returned all ones" {
        last(log, RING_COMMAND) == u32::MAX || last(log, RING_DECODE) == u32::MAX || last(
            log,
            RING_STATUS0,
        ) == u32::MAX || last(log, RING_STATUS1) == u32::MAX
    } else if e == "GPU PRIV ring startup failed" {
        last(log, RING_DECODE) & 3 != 2 || last(log, RING_STATUS0) & 7 != 0
    } else {
        log.last() matches Access::Read(_, value) && value == u32::MAX
    }
}

/// The last value read from a register.
pub open spec fn last(log: Seq<Access>, offset: usize) -> u32 {
    mmio::reads(log, offset).last()
}

/// Brings up clocks and ring. Nothing else is touched before the ring answers.
pub fn initialize<R: Timed>(bus: &mut Bus<'_, R>) -> (r: Result<(), &'static str>)
    ensures
        final(bus).port() == old(bus).port(),
        mmio::extends(old(bus).log(), final(bus).log()),
        r is Ok ==> ring_progress(old(bus).log(), final(bus).log(), 14),
        r is Ok ==> last(final(bus).log(), RING_DECODE) & 3 == 2 && last(
            final(bus).log(),
            RING_STATUS0,
        ) & 7 == 0,
        r matches Err(e) ==> exists|n: int|
            0 <= n <= 14 && #[trigger] ring_progress(old(bus).log(), final(bus).log(), n)
                && ring_failure(e, n),
        r matches Err(e) ==> ring_cause(e, final(bus).log()),
{
    let ghost start = mmio::writes(bus.log());
    let ghost mut found = Inherited { vco: 0, dividers: 0, bypass: 0, slowdown: 0, enable: 0 };
    assert(start =~= start + ring_writes(found).take(0));
    let vco: u32 = bus.read(SEL_VCO);
    if vco == u32::MAX {
        assert(ring_progress(old(bus).log(), bus.log(), 0));
        return Err("GPU clock register returned all ones");
    }
    bus.write(SEL_VCO, vco & !1);
    proof {
        found = Inherited { vco, ..found };
        assert(mmio::writes(bus.log()) =~= start + ring_writes(found).take(1));
    }
    let dividers: u32 = bus.read(OUTPUT_DIVIDERS);
    if dividers == u32::MAX {
        assert(ring_progress(old(bus).log(), bus.log(), 1));
        return Err("GPU clock register returned all ones");
    }
    bus.write(OUTPUT_DIVIDERS, (dividers & !DIVIDER_BITS) | 0x8000_0000);
    proof {
        found = Inherited { dividers, ..found };
        assert(mmio::writes(bus.log()) =~= start + ring_writes(found).take(2));
    }
    let bypass: u32 = bus.read(BYPASS);
    if bypass == u32::MAX {
        assert(ring_progress(old(bus).log(), bus.log(), 2));
        return Err("GPU clock register returned all ones");
    }
    bus.write(BYPASS, bypass & !1);
    proof {
        found = Inherited { bypass, ..found };
        assert(mmio::writes(bus.log()) =~= start + ring_writes(found).take(3));
    }
    let slowdown: u32 = bus.read(IDLE_SLOWDOWN);
    if slowdown == u32::MAX {
        assert(ring_progress(old(bus).log(), bus.log(), 3));
        return Err("GPU clock register returned all ones");
    }
    bus.write(IDLE_SLOWDOWN, slowdown & !0x3f_0000);
    proof {
        found = Inherited { slowdown, ..found };
        assert(mmio::writes(bus.log()) =~= start + ring_writes(found).take(4));
    }
    if bus.read(SEL_VCO) & 1 != 0 || bus.read(OUTPUT_DIVIDERS) & DIVIDER_BITS != 0x8000_0000
        || bus.read(BYPASS) & 1 != 0 {
        assert(ring_progress(old(bus).log(), bus.log(), 4));
        return Err("GPU reference-bypass clock readback mismatch");
    }
    start_ring(bus, Ghost(old(bus).log()), Ghost(found))
}

/// Which failures come after how many writes.
pub open spec fn ring_failure(e: &'static str, n: int) -> bool {
    ||| e == "GPU clock register returned all ones" && n < 4
    ||| e == "GPU reference-bypass clock readback mismatch" && n == 4
    ||| e == "GPU bus/ring gating register returned all ones" && 4 <= n < 6
    ||| e == "GPU PRIV ring enable register returned all ones" && n == 6
    ||| e == "GPU PRIV ring gating register returned all ones" && n == 8
    ||| e == "GPU PRIV ring register returned all ones" && n == 14
    ||| e == "GPU PRIV ring startup failed" && n == 14
}

fn start_ring<R: Timed>(
    bus: &mut Bus<'_, R>,
    Ghost(origin): Ghost<Seq<Access>>,
    Ghost(inherited): Ghost<Inherited>,
) -> (r: Result<(), &'static str>)
    requires
        mmio::writes(old(bus).log()) == mmio::writes(origin) + ring_writes(inherited).take(4),
        mmio::extends(origin, old(bus).log()),
        ring_found(origin, old(bus).log(), inherited, 4),
        mmio::reads(old(bus).log(), SEL_VCO).len() > mmio::reads(origin, SEL_VCO).len(),
        mmio::reads(old(bus).log(), OUTPUT_DIVIDERS).len() > mmio::reads(
            origin,
            OUTPUT_DIVIDERS,
        ).len(),
        mmio::reads(old(bus).log(), BYPASS).len() > mmio::reads(origin, BYPASS).len(),
        mmio::reads(old(bus).log(), IDLE_SLOWDOWN).len() > mmio::reads(origin, IDLE_SLOWDOWN).len(),
        mmio::reads(old(bus).log(), MC_ENABLE) == mmio::reads(origin, MC_ENABLE),
    ensures
        final(bus).port() == old(bus).port(),
        mmio::extends(old(bus).log(), final(bus).log()),
        r is Ok ==> ring_progress(origin, final(bus).log(), 14),
        r is Ok ==> last(final(bus).log(), RING_DECODE) & 3 == 2 && last(
            final(bus).log(),
            RING_STATUS0,
        ) & 7 == 0,
        r matches Err(e) ==> exists|n: int|
            0 <= n <= 14 && #[trigger] ring_progress(origin, final(bus).log(), n) && ring_failure(
                e,
                n,
            ),
        r matches Err(e) ==> ring_cause(e, final(bus).log()),
{
    let ghost start = mmio::writes(origin);
    let ghost mut found = inherited;
    if bus.read(0x1c04) == u32::MAX {
        assert(ring_progress(origin, bus.log(), 4));
        return Err("GPU bus/ring gating register returned all ones");
    }
    bus.write(0x1c04, 0x3fe);
    assert(mmio::writes(bus.log()) =~= start + ring_writes(found).take(5));
    if bus.read(0x1c00) == u32::MAX {
        assert(ring_progress(origin, bus.log(), 5));
        return Err("GPU bus/ring gating register returned all ones");
    }
    bus.write(0x1c00, 0);
    assert(mmio::writes(bus.log()) =~= start + ring_writes(found).take(6));
    let enable: u32 = bus.read(MC_ENABLE);
    if enable == u32::MAX {
        assert(ring_progress(origin, bus.log(), 6));
        return Err("GPU PRIV ring enable register returned all ones");
    }
    proof {
        found = Inherited { enable, ..found };
    }
    bus.write(MC_ENABLE, enable & !PRIV_RING);
    bus.read(MC_ENABLE);
    bus.delay_us(20);
    bus.write(MC_ENABLE, enable | PRIV_RING);
    bus.read(MC_ENABLE);
    bus.delay_us(20);
    assert(mmio::writes(bus.log()) =~= start + ring_writes(found).take(8));
    if bus.read(RING_GATING) == u32::MAX {
        assert(ring_progress(origin, bus.log(), 8));
        return Err("GPU PRIV ring gating register returned all ones");
    }
    bus.write(RING_GATING, 1);
    bus.write(RING_COMMAND, 4);
    bus.write(RING_DECODE, 2);
    let decode: u32 = bus.read(RING_DECODE);
    bus.write(0x12_2354, 0x800);
    bus.write(0x12_8328, 0x800);
    bus.write(0x12_4320, 0x800);
    let command: u32 = bus.read(RING_COMMAND);
    let status0: u32 = bus.read(RING_STATUS0);
    let status1: u32 = bus.read(RING_STATUS1);
    assert(mmio::writes(bus.log()) =~= start + ring_writes(found).take(14));
    assert(ring_progress(origin, bus.log(), 14));
    if command == u32::MAX || decode == u32::MAX || status0 == u32::MAX || status1 == u32::MAX {
        return Err("GPU PRIV ring register returned all ones");
    }
    if decode & 3 != 2 || status0 & 7 != 0 {
        return Err("GPU PRIV ring startup failed");
    }
    Ok(())
}

/// What a measurement writes.
pub open spec fn measure_writes() -> Seq<(usize, u32)> {
    seq![(CLOCK_COUNTER_CONFIG, 0x100_0000u32), (CLOCK_COUNTER_CONFIG, 0x11_0320u32)]
}

/// The rate that a settled counter shows.
pub open spec fn measured_spec(first: u32, second: u32, reference_hz: u32) -> Option<u64> {
    if first == second && second != u32::MAX && second % 0x10_0000 != 0 {
        Some((reference_hz * (second % 0x10_0000) / 800) as u64)
    } else {
        None
    }
}

/// A measurement: what the counter's settings read as, and its two readings.
pub open spec fn measure_log(settings: u32, first: u32, second: u32) -> Seq<Access> {
    seq![
        Access::Write(CLOCK_COUNTER_CONFIG, 0x100_0000),
        Access::Write(CLOCK_COUNTER_CONFIG, 0x11_0320),
        Access::Read(CLOCK_COUNTER_CONFIG, settings),
        Access::Delay(200),
        Access::Read(CLOCK_COUNTER, first),
        Access::Delay(100),
        Access::Read(CLOCK_COUNTER, second),
    ]
}

/// Counts the clock over 800 cycles of the reference. A counter that still moves
/// shows nothing.
pub fn measure_clock<R: Timed>(bus: &mut Bus<'_, R>, reference_hz: u32) -> (r: Option<u64>)
    ensures
        final(bus).port() == old(bus).port(),
        mmio::extends(old(bus).log(), final(bus).log()),
        mmio::writes(final(bus).log()) == mmio::writes(old(bus).log()) + measure_writes(),
        exists|settings: u32, first: u32, second: u32|
            {
                &&& final(bus).log() == old(bus).log() + #[trigger] measure_log(
                    settings,
                    first,
                    second,
                )
                &&& r == measured_spec(first, second, reference_hz)
                &&& second == last(final(bus).log(), CLOCK_COUNTER)
            },
        forall|o: usize|
            #![trigger mmio::reads(final(bus).log(), o)]
            o != CLOCK_COUNTER && o != CLOCK_COUNTER_CONFIG ==> mmio::reads(final(bus).log(), o)
                == mmio::reads(old(bus).log(), o),
{
    bus.write(CLOCK_COUNTER_CONFIG, 0x100_0000);
    bus.write(CLOCK_COUNTER_CONFIG, 0x11_0320);
    assert(mmio::writes(bus.log()) =~= mmio::writes(old(bus).log()) + measure_writes());
    let settings: u32 = bus.read(CLOCK_COUNTER_CONFIG);
    bus.delay_us(200);
    let first: u32 = bus.read(CLOCK_COUNTER);
    bus.delay_us(100);
    let second: u32 = bus.read(CLOCK_COUNTER);
    let r: Option<u64> = if first == second && second != u32::MAX && second % 0x10_0000 != 0 {
        assert(reference_hz * (second % 0x10_0000) <= u32::MAX * 0x10_0000) by (nonlinear_arith)
            requires
                reference_hz <= u32::MAX,
                0 <= second % 0x10_0000 < 0x10_0000,
        ;
        assert(0 <= reference_hz * (second % 0x10_0000)) by (nonlinear_arith);
        let count: u64 = (second % 0x10_0000) as u64;
        Some(reference_hz as u64 * count / CYCLES)
    } else {
        None
    };
    assert(r == measured_spec(first, second, reference_hz));
    assert(bus.log() =~= old(bus).log() + measure_log(settings, first, second));
    r
}

/// The gating registers of memory and cache, all off.
pub open spec fn gating_writes() -> Seq<(usize, u32)> {
    seq![
        (0x10_0d14usize, 0xffff_fffeu32),
        (0x10_0c9cusize, 0x1feu32),
        (0x17_e050usize, 0xffff_fffeu32),
        (0x17_e35cusize, 0xffff_fffeu32),
        (0x10_0d10usize, 0u32),
        (0x10_0d30usize, 0u32),
        (0x10_0d3cusize, 0u32),
        (0x10_0d48usize, 0u32),
        (0x10_0c98usize, 0u32),
        (0x17_e030usize, 0u32),
        (0x17_e040usize, 0u32),
        (0x17_e3e0usize, 0u32),
        (0x17_e3c8usize, 0u32),
    ]
}

/// Everything written when memory is set up: the number of cache partitions in
/// three places, the slices, and, on a chip without private security, the policy.
pub open spec fn memory_writes(enumeration: u32, dstg: u32, security: u32) -> Seq<(usize, u32)> {
    gating_writes() + seq![
        (0x17_e27cusize, enumeration & 0x1f),
        (0x17_e000usize, enumeration & 0x1f),
        (0x10_0800usize, enumeration & 0x1f),
        (0x17_e318usize, dstg | 0x8000),
    ] + if security == 0 {
        seq![(0x10_0ce4usize, u32::MAX)]
    } else {
        seq![]
    }
}

/// What was read on the way: partitions, slices and the fuse.
pub open spec fn memory_found(
    before: Seq<Access>,
    after: Seq<Access>,
    enumeration: u32,
    dstg: u32,
    security: u32,
    count: int,
) -> bool {
    &&& mmio::extends(before, after)
    &&& count > 13 ==> mmio::saw(before, after, PARTITIONS, enumeration)
    &&& count > 16 ==> mmio::saw(before, after, SLICES, dstg)
    &&& count > 17 ==> mmio::saw(before, after, SECURITY, security)
}

pub open spec fn memory_progress(before: Seq<Access>, after: Seq<Access>, count: int) -> bool {
    &&& mmio::extends(before, after)
    &&& {
        exists|enumeration: u32, dstg: u32, security: u32|
            mmio::writes(after) == mmio::writes(before) + #[trigger] memory_writes(
                enumeration,
                dstg,
                security,
            ).take(count) && memory_found(before, after, enumeration, dstg, security, count)
    }
}

/// What was read when memory could not be set up.
pub open spec fn memory_cause(e: &'static str, log: Seq<Access>) -> bool {
    if e == "GPU PRIV ring enumerated no readable LTC" {
        log.last() matches Access::Read(_, value) && (value == u32::MAX || value & 0x1f == 0)
    } else if e == "GPU FB/LTC active-count readback mismatch" {
        log.last() matches Access::Read(_, value) && (value == u32::MAX || value & 0x1f != last(
            log,
            PARTITIONS,
        ) & 0x1f)
    } else {
        log.last() matches Access::Read(_, value) && value == u32::MAX
    }
}

/// Which failures come after how many writes.
pub open spec fn memory_failure(e: &'static str, n: int) -> bool {
    ||| e == "GPU PRIV ring enumerated no readable LTC" && n == 13
    ||| e == "GPU FB/LTC active-count readback mismatch" && 13 < n <= 16
    ||| e == "GPU LTC slice configuration returned all ones" && n == 16
    ||| e == "GPU private-security fuse read returned all ones" && n == 17
}

fn write_gating<R: Timed>(bus: &mut Bus<'_, R>)
    ensures
        final(bus).port() == old(bus).port(),
        mmio::writes(final(bus).log()) == mmio::writes(old(bus).log()) + gating_writes(),
        mmio::memory_kept(old(bus).log(), final(bus).log()),
{
    bus.write(0x10_0d14, 0xffff_fffe);
    bus.write(0x10_0c9c, 0x1fe);
    bus.write(0x17_e050, 0xffff_fffe);
    bus.write(0x17_e35c, 0xffff_fffe);
    bus.write(0x10_0d10, 0);
    bus.write(0x10_0d30, 0);
    bus.write(0x10_0d3c, 0);
    bus.write(0x10_0d48, 0);
    bus.write(0x10_0c98, 0);
    bus.write(0x17_e030, 0);
    bus.write(0x17_e040, 0);
    bus.write(0x17_e3e0, 0);
    bus.write(0x17_e3c8, 0);
    assert(mmio::writes(bus.log()) =~= mmio::writes(old(bus).log()) + gating_writes());
}

/// Writes the number of partitions to one place, and tells whether it arrived.
fn publish_count<R: Timed>(bus: &mut Bus<'_, R>, offset: usize, count: u32) -> (r: bool)
    ensures
        final(bus).port() == old(bus).port(),
        mmio::writes(final(bus).log()) == mmio::writes(old(bus).log()).push((offset, count)),
        mmio::memory_kept(old(bus).log(), final(bus).log()),
        r == (last(final(bus).log(), offset) != u32::MAX && last(final(bus).log(), offset) & 0x1f
            == count),
        final(bus).log().last() == Access::Read(offset, last(final(bus).log(), offset)),
        forall|o: usize|
            #![trigger mmio::reads(final(bus).log(), o)]
            o != offset ==> mmio::reads(final(bus).log(), o) == mmio::reads(old(bus).log(), o),
{
    bus.write(offset, count);
    let value: u32 = bus.read(offset);
    value != u32::MAX && value & 0x1f == count
}

/// Sets up memory partitions as the ring counts them. On a chip with private
/// security the inherited policy stays.
pub fn initialize_memory<R: Timed>(bus: &mut Bus<'_, R>) -> (r: Result<(), &'static str>)
    ensures
        final(bus).port() == old(bus).port(),
        mmio::memory_kept(old(bus).log(), final(bus).log()),
        r is Ok ==> exists|enumeration: u32, dstg: u32, security: u32|
            {
                &&& mmio::writes(final(bus).log()) == mmio::writes(old(bus).log())
                    + #[trigger] memory_writes(enumeration, dstg, security)
                &&& enumeration != u32::MAX
                &&& enumeration & 0x1f != 0
                &&& dstg != u32::MAX
                &&& security != u32::MAX
                &&& memory_found(old(bus).log(), final(bus).log(), enumeration, dstg, security, 18)
            },
        r matches Err(e) ==> exists|n: int| #[trigger]
            memory_progress(old(bus).log(), final(bus).log(), n) && memory_failure(e, n),
        r matches Err(e) ==> memory_cause(e, final(bus).log()),
{
    let ghost start = mmio::writes(bus.log());
    write_gating(bus);
    let enumeration: u32 = bus.read(PARTITIONS);
    let ghost counted = bus.log();
    let ltcs: u32 = enumeration & 0x1f;
    let ghost whole = memory_writes(enumeration, 0, 1);
    assert(mmio::writes(bus.log()) =~= start + whole.take(13));
    if enumeration == u32::MAX || ltcs == 0 {
        assert(memory_progress(old(bus).log(), bus.log(), 13));
        return Err("GPU PRIV ring enumerated no readable LTC");
    }
    let first: bool = publish_count(bus, 0x17_e27c, ltcs);
    proof {
        mmio::lemma_saw(old(bus).log(), counted, bus.log(), PARTITIONS, enumeration);
    }
    assert(mmio::writes(bus.log()) =~= start + whole.take(14));
    if !first {
        assert(memory_progress(old(bus).log(), bus.log(), 14));
        return Err("GPU FB/LTC active-count readback mismatch");
    }
    let second: bool = publish_count(bus, 0x17_e000, ltcs);
    proof {
        mmio::lemma_saw(old(bus).log(), counted, bus.log(), PARTITIONS, enumeration);
    }
    assert(mmio::writes(bus.log()) =~= start + whole.take(15));
    if !second {
        assert(memory_progress(old(bus).log(), bus.log(), 15));
        return Err("GPU FB/LTC active-count readback mismatch");
    }
    let third: bool = publish_count(bus, 0x10_0800, ltcs);
    proof {
        mmio::lemma_saw(old(bus).log(), counted, bus.log(), PARTITIONS, enumeration);
    }
    assert(mmio::writes(bus.log()) =~= start + whole.take(16));
    if !third {
        assert(memory_progress(old(bus).log(), bus.log(), 16));
        return Err("GPU FB/LTC active-count readback mismatch");
    }
    let dstg: u32 = bus.read(SLICES);
    let ghost cut = bus.log();
    proof {
        mmio::lemma_saw(old(bus).log(), counted, bus.log(), PARTITIONS, enumeration);
    }
    if dstg == u32::MAX {
        assert(memory_progress(old(bus).log(), bus.log(), 16));
        return Err("GPU LTC slice configuration returned all ones");
    }
    bus.write(0x17_e318, dstg | 0x8000);
    let ghost sliced = memory_writes(enumeration, dstg, 1);
    assert(mmio::writes(bus.log()) =~= start + sliced.take(17));
    let security: u32 = bus.read(SECURITY);
    let ghost fused = bus.log();
    proof {
        mmio::lemma_saw(old(bus).log(), counted, bus.log(), PARTITIONS, enumeration);
        mmio::lemma_saw(old(bus).log(), cut, bus.log(), SLICES, dstg);
        mmio::lemma_saw(old(bus).log(), fused, bus.log(), SECURITY, security);
    }
    if security == u32::MAX {
        assert(memory_progress(old(bus).log(), bus.log(), 17));
        return Err("GPU private-security fuse read returned all ones");
    }
    if security == 0 {
        bus.write(0x10_0ce4, u32::MAX);
    }
    assert(mmio::writes(bus.log()) =~= start + memory_writes(enumeration, dstg, security));
    proof {
        mmio::lemma_saw(old(bus).log(), counted, bus.log(), PARTITIONS, enumeration);
        mmio::lemma_saw(old(bus).log(), cut, bus.log(), SLICES, dstg);
        mmio::lemma_saw(old(bus).log(), fused, bus.log(), SECURITY, security);
    }
    Ok(())
}

/// A clock is measured by its cycles in 800 of the reference, and only where two readings
/// agree.
pub proof fn clocks_are_measured_against_the_reference(first: u32, second: u32, reference_hz: u32)
    ensures
        measured_spec(first, second, reference_hz) matches Some(hz) ==> {
            let cycles = second as int % 0x10_0000;
            &&& first == second && cycles > 0
            &&& 800 * hz <= reference_hz * cycles < 800 * hz + 800
        },
        measured_spec(first, second, reference_hz) is Some <==> first == second && second
            != 0xffff_ffff && second % 0x10_0000 != 0,
{
    let cycles = second as int % 0x10_0000;
    assert(0 <= reference_hz * cycles <= 0xffff_ffff * 0x10_0000) by (nonlinear_arith)
        requires
            0 <= reference_hz <= 0xffff_ffff,
            0 <= cycles <= 0x10_0000,
    ;
}

proof fn lemma_ring(vco: u32, dividers: u32, bypass: u32, slowdown: u32, enable: u32)
    by (bit_vector)
    ensures
        (vco & !1u32) % 2 == 0 && (vco & !1u32) / 2 == vco / 2,
        ((dividers & !0x8000_3f3fu32) | 0x8000_0000) & 0x8000_3f3f == 0x8000_0000,
        ((dividers & !0x8000_3f3fu32) | 0x8000_0000) & 0x7fff_c0c0 == dividers & 0x7fff_c0c0,
        (bypass & !1u32) % 2 == 0,
        (slowdown & !0x3f_0000u32) / 0x1_0000 % 64 == 0,
        (enable & !0x20u32) / 0x20 % 2 == 0,
        (enable | 0x20) / 0x20 % 2 == 1,
        (enable & !0x20u32) | 0x20 == enable | 0x20,
{
}

/// The ring is reset with the processor on its reference, undivided and not slowed down.
pub proof fn the_ring_starts_on_the_reference(found: Inherited)
    ensures
        ({
            let w = ring_writes(found);
            &&& w.len() == 14
            &&& w[0].0 == 0x13_7100 && w[0].1 % 2 == 0 && w[0].1 / 2 == found.vco / 2
            &&& w[1].0 == 0x13_7250 && w[1].1 & 0x8000_3f3f == 0x8000_0000 && w[1].1 & 0x7fff_c0c0
                == found.dividers & 0x7fff_c0c0
            &&& w[2].0 == 0x13_7340 && w[2].1 % 2 == 0
            &&& w[3].0 == 0x2_0160 && w[3].1 / 0x1_0000 % 64 == 0
            &&& w[6].0 == 0x200 && w[6].1 / 0x20 % 2 == 0
            &&& w[7].0 == 0x200 && w[7].1 / 0x20 % 2 == 1
            &&& w[9] == (0x12_004cusize, 4u32)
            &&& w[10] == (0x12_2204usize, 2u32)
        }),
{
    lemma_ring(found.vco, found.dividers, found.bypass, found.slowdown, found.enable);
}

/// The number of partitions is told to all three that count them.
pub proof fn partitions_are_told_to_all(enumeration: u32, dstg: u32, security: u32)
    ensures
        ({
            let w = memory_writes(enumeration, dstg, security);
            &&& w[13] == (0x17_e27cusize, enumeration & 0x1f)
            &&& w[14] == (0x17_e000usize, enumeration & 0x1f)
            &&& w[15] == (0x10_0800usize, enumeration & 0x1f)
            &&& w[16] == (0x17_e318usize, dstg | 0x8000)
            &&& security == 0 ==> w.len() == 18 && w[17] == (0x10_0ce4usize, 0xffff_ffffu32)
            &&& security != 0 ==> w.len() == 17
        }),
{
}

} // verus!
