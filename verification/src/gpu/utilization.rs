//! How busy the graphics processor is, from two free-running counters.
use vstd::prelude::*;

use crate::mmio;
use crate::mmio::{Bus, Timed};

verus! {

pub const MASK1: usize = 0x10_a514;

pub const COUNT1: usize = 0x10_a518;

pub const CTRL1: usize = 0x10_a51c;

pub const COUNT2: usize = 0x10_a528;

pub const CTRL2: usize = 0x10_a52c;

/// Counters have 31 bits.
pub const RANGE: u32 = 0x8000_0000;

pub const GR_CE2_BUSY: u32 = 0x20_0001;

/// Busy cycles that may be counted before the total catches up.
pub const SLACK: u32 = 1024;

/// Cycles since the sample before.
#[derive(Clone, Copy, Debug, PartialEq, Eq, Structural)]
pub struct Utilization {
    pub busy: u32,
    pub total: u32,
}

/// The counters at the last sample.
#[derive(Clone, Copy, Debug, PartialEq, Eq, Structural)]
pub struct UtilizationMonitor {
    pub busy: u32,
    pub total: u32,
}

/// Steps from one counter value to another, around the end.
pub open spec fn elapsed_spec(from: u32, to: u32) -> int {
    (to - from) % (RANGE as int)
}

fn elapsed(from: u32, to: u32) -> (r: u32)
    requires
        from < RANGE,
        to < RANGE,
    ensures
        r == elapsed_spec(from, to),
        r < RANGE,
{
    if to >= from {
        to - from
    } else {
        to + (RANGE - from)
    }
}

/// Everything written when the counters are wired up: busy cycles of graphics and
/// copy, and all cycles, both from zero.
pub open spec fn start_writes(ctrl1: u32, ctrl2: u32) -> Seq<(usize, u32)> {
    seq![
        (MASK1, GR_CE2_BUSY),
        (CTRL1, (ctrl1 & !7u32) | 2),
        (CTRL2, (ctrl2 & !7u32) | 3),
        (COUNT1, 0x8000_0000u32),
        (COUNT2, 0x8000_0000u32),
    ]
}

impl UtilizationMonitor {
    pub open spec fn wf(self) -> bool {
        self.busy < RANGE && self.total < RANGE
    }

    pub fn new<R: Timed>(bus: &mut Bus<'_, R>) -> (r: Result<Self, &'static str>)
        ensures
            final(bus).port() == old(bus).port(),
            mmio::extends(old(bus).log(), final(bus).log()),
            r matches Ok(monitor) ==> monitor.wf() && monitor.total != 0,
            r matches Err(e) ==> {
                ||| e == "GM20B PMU activity counters inaccessible" && mmio::writes(
                    final(bus).log(),
                ) == mmio::writes(old(bus).log())
                ||| e == "GM20B PMU activity counters did not start"
            },
            r is Ok || r == Err::<Self, &'static str>(
                "GM20B PMU activity counters did not start",
            ) ==> exists|ctrl1: u32, ctrl2: u32|
                ctrl1 != u32::MAX && ctrl2 != u32::MAX && mmio::writes(final(bus).log())
                    == mmio::writes(old(bus).log()) + #[trigger] start_writes(ctrl1, ctrl2),
            r matches Ok(monitor) ==> exists|busy: u32, total: u32|
                started_spec(busy, total) == Some(monitor) && #[trigger] started_spec(busy, total)
                    is Some,
    {
        let ctrl1: u32 = bus.read(CTRL1);
        let ctrl2: u32 = bus.read(CTRL2);
        if ctrl1 == u32::MAX || ctrl2 == u32::MAX {
            return Err("GM20B PMU activity counters inaccessible");
        }
        bus.write(MASK1, GR_CE2_BUSY);
        bus.write(CTRL1, (ctrl1 & !7) | 2);
        bus.write(CTRL2, (ctrl2 & !7) | 3);
        bus.write(COUNT1, 0x8000_0000);
        bus.write(COUNT2, 0x8000_0000);
        assert(mmio::writes(bus.log()) =~= mmio::writes(old(bus).log()) + start_writes(
            ctrl1,
            ctrl2,
        ));
        bus.delay_us(100);
        let busy: u32 = bus.read(COUNT1);
        let total: u32 = bus.read(COUNT2);
        if busy == u32::MAX || total == u32::MAX || total % RANGE == 0 {
            return Err("GM20B PMU activity counters did not start");
        }
        let monitor = UtilizationMonitor { busy: busy % RANGE, total: total % RANGE };
        assert(started_spec(busy, total) == Some(monitor));
        Ok(monitor)
    }

    /// What a sample makes of two counter values. The baseline moves even when the
    /// sample is refused: a long pause would otherwise spoil all later ones.
    pub open spec fn sampled(self, busy: u32, total: u32) -> (
        Self,
        Result<Utilization, &'static str>,
    ) {
        let b = elapsed_spec(self.busy, (busy % RANGE) as u32);
        let t = elapsed_spec(self.total, (total % RANGE) as u32);
        if busy == u32::MAX || total == u32::MAX {
            (self, Err("GM20B PMU activity counter read failed"))
        } else {
            (
                UtilizationMonitor { busy: (busy % RANGE) as u32, total: (total % RANGE) as u32 },
                if t == 0 || b > t + SLACK {
                    Err("GM20B PMU activity sample invalid")
                } else {
                    Ok(
                        Utilization {
                            busy: if b < t {
                                b as u32
                            } else {
                                t as u32
                            },
                            total: t as u32,
                        },
                    )
                },
            )
        }
    }

    pub fn observe(&mut self, busy: u32, total: u32) -> (r: Result<Utilization, &'static str>)
        requires
            old(self).wf(),
        ensures
            final(self).wf(),
            (*final(self), r) == old(self).sampled(busy, total),
    {
        if busy == u32::MAX || total == u32::MAX {
            return Err("GM20B PMU activity counter read failed");
        }
        let busy_delta: u32 = elapsed(self.busy, busy % RANGE);
        let total_delta: u32 = elapsed(self.total, total % RANGE);
        self.busy = busy % RANGE;
        self.total = total % RANGE;
        if total_delta == 0 || busy_delta > total_delta + SLACK {
            return Err("GM20B PMU activity sample invalid");
        }
        Ok(
            Utilization {
                busy: if busy_delta < total_delta {
                    busy_delta
                } else {
                    total_delta
                },
                total: total_delta,
            },
        )
    }

    /// Takes a sample from the counters.
    pub fn sample<R: Timed>(&mut self, bus: &mut Bus<'_, R>) -> (r: Result<
        Utilization,
        &'static str,
    >)
        requires
            old(self).wf(),
        ensures
            final(bus).port() == old(bus).port(),
            mmio::extends(old(bus).log(), final(bus).log()),
            final(self).wf(),
            mmio::writes(final(bus).log()) == mmio::writes(old(bus).log()),
            (*final(self), r) == old(self).sampled(
                mmio::reads(final(bus).log(), COUNT1).last(),
                mmio::reads(final(bus).log(), COUNT2).last(),
            ),
    {
        let busy: u32 = bus.read(COUNT1);
        let total: u32 = bus.read(COUNT2);
        self.observe(busy, total)
    }
}

pub open spec fn started_spec(busy: u32, total: u32) -> Option<UtilizationMonitor> {
    if busy == u32::MAX || total == u32::MAX || total % RANGE == 0 {
        None
    } else {
        Some(UtilizationMonitor { busy: (busy % RANGE) as u32, total: (total % RANGE) as u32 })
    }
}

/// A sample never reports more busy cycles than cycles, nor an empty interval.
pub proof fn samples_are_fractions(monitor: UtilizationMonitor, busy: u32, total: u32)
    requires
        monitor.wf(),
        monitor.sampled(busy, total).1 is Ok,
    ensures
        ({
            let sample = monitor.sampled(busy, total).1->Ok_0;
            0 < sample.total < RANGE && sample.busy <= sample.total
        }),
{
}

/// A counter counts round: what passed between two readings is right as long as it is less
/// than one round.
pub proof fn counters_come_round(from: u32, passed: int)
    requires
        from < 0x8000_0000,
        0 <= passed < 0x8000_0000,
    ensures
        elapsed_spec(from, ((from + passed) % 0x8000_0000) as u32) == passed,
{
}

proof fn lemma_control(c: u32)
    by (bit_vector)
    ensures
        ((c & !7u32) | 2) % 8 == 2 && ((c & !7u32) | 2) / 8 == c / 8,
        ((c & !7u32) | 3) % 8 == 3 && ((c & !7u32) | 3) / 8 == c / 8,
{
}

/// The first counter counts while graphics or the copy engine is busy, and the second always;
/// both are set back.
pub proof fn counters_count_busy_and_all(ctrl1: u32, ctrl2: u32)
    ensures
        ({
            let w = start_writes(ctrl1, ctrl2);
            &&& w.len() == 5
            &&& w[0] == (0x10_a514usize, 0x20_0001u32)
            &&& w[1].0 == 0x10_a51c && w[1].1 % 8 == 2 && w[1].1 / 8 == ctrl1 / 8
            &&& w[2].0 == 0x10_a52c && w[2].1 % 8 == 3 && w[2].1 / 8 == ctrl2 / 8
            &&& w[3] == (0x10_a518usize, 0x8000_0000u32)
            &&& w[4] == (0x10_a528usize, 0x8000_0000u32)
        }),
{
    lemma_control(ctrl1);
    lemma_control(ctrl2);
}

} // verus!
