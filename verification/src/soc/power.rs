//! Power partitions, and the units that are switched with them: the graphics
//! processor, the image compositor and the video decoder.
use vstd::prelude::*;

use crate::mmio;
use crate::mmio::{Access, Bus, Step, Test, Timed};
use crate::soc::clocks;
use crate::soc::clocks::parent;
use crate::soc::map::{CAR, MC, PMC, VIC};

verus! {

/// Where a register of the power controller is.
pub open spec fn pmc(offset: int) -> usize {
    (PMC + offset) as usize
}

/// Polls that outlast every deadline.
pub const POLLS: u64 = 0x1_0000_0000;

/// What is said of a register that is not there, and of one that never follows.
#[derive(Clone, Copy, Debug)]
pub struct Complaints {
    pub unreadable: &'static str,
    pub late: &'static str,
}

/// Some bits of a register were read with their values at last, behind nothing but looks.
pub open spec fn polled(
    before: Seq<Access>,
    after: Seq<Access>,
    offset: usize,
    mask: u32,
    expected: u32,
) -> bool {
    &&& mmio::quiet(before, after)
    &&& before.len() < after.len()
    &&& after.last() matches Access::Read(o, value) && o == offset && value != u32::MAX && value
        & mask == expected
}

/// A poll failed: the register was not there, or its bits never had the values in time.
pub open spec fn poll_failed(
    before: Seq<Access>,
    after: Seq<Access>,
    offset: usize,
    mask: u32,
    expected: u32,
    limit_ns: u64,
    says: Complaints,
    e: &'static str,
) -> bool {
    let seen = mmio::last(after, offset);
    &&& mmio::quiet(before, after)
    &&& mmio::tried(before, after, offset)
    &&& if seen == u32::MAX {
        e == says.unreadable
    } else {
        e == says.late && seen & mask != expected && mmio::ran_out(
            before,
            after,
            limit_ns,
            POLLS as int,
        )
    }
}

/// Polls a register until some bits have some values.
#[verifier::rlimit(100)]
pub fn poll<R: Timed>(
    bus: &mut Bus<'_, R>,
    offset: usize,
    mask: u32,
    expected: u32,
    limit_ns: u64,
    unreadable: &'static str,
    late: &'static str,
) -> (r: Result<(), &'static str>)
    ensures
        final(bus).port() == old(bus).port(),
        mmio::quiet(old(bus).log(), final(bus).log()),
        match r {
            Ok(_) => mmio::last(final(bus).log(), offset) != u32::MAX && mmio::last(
                final(bus).log(),
                offset,
            ) & mask == expected && polled(
                old(bus).log(),
                final(bus).log(),
                offset,
                mask,
                expected,
            ),
            Err(e) => poll_failed(
                old(bus).log(),
                final(bus).log(),
                offset,
                mask,
                expected,
                limit_ns,
                Complaints { unreadable, late },
                e,
            ),
        },
        forall|o: usize|
            #![trigger mmio::reads(final(bus).log(), o)]
            o != offset ==> mmio::reads(final(bus).log(), o) == mmio::reads(old(bus).log(), o),
{
    let start: u64 = bus.now_ns();
    let deadline: u64 = start.saturating_add(limit_ns);
    let mut left: u64 = POLLS;
    while left > 0
        invariant
            bus.port() == old(bus).port(),
            left <= POLLS,
            deadline == mmio::until(start, limit_ns),
            bus.log().len() == old(bus).log().len() + 1 + 3 * (POLLS - left),
            bus.log()[old(bus).log().len() as int] == Access::Time(start),
            left < POLLS ==> mmio::tried(old(bus).log(), bus.log(), offset) && mmio::last(
                bus.log(),
                offset,
            ) != u32::MAX && mmio::last(bus.log(), offset) & mask != expected,
            left == POLLS ==> mmio::reads(bus.log(), offset) == mmio::reads(
                old(bus).log(),
                offset,
            ),
            mmio::quiet(old(bus).log(), bus.log()),
            forall|o: usize|
                #![trigger mmio::reads(bus.log(), o)]
                o != offset ==> mmio::reads(bus.log(), o) == mmio::reads(old(bus).log(), o),
        decreases left,
    {
        let value: u32 = bus.read(offset);
        if value == u32::MAX {
            return Err(unreadable);
        }
        if value & mask == expected {
            return Ok(());
        }
        let now: u64 = bus.now_ns();
        if now >= deadline {
            return Err(late);
        }
        bus.delay_us(10);
        left = left - 1;
    }
    Err(late)
}

pub const GPU_BIT: u32 = 0x0100_0000;

pub const GPU_GATES: u32 = 0x2100_0000;

pub const OUT5_BITS: u32 = 0xff07_0000;

pub const OUT5_204MHZ: u32 = 0x0207_0000;

/// The fields of the graphics processor in shared registers.
#[derive(Clone, Copy, Debug, PartialEq, Eq, Structural)]
pub struct GpuPlatformState {
    pub gates: u32,
    pub reset: u32,
    pub power_clock: u32,
    pub clamp: u32,
}

/// Clocks, reset and clamp of the graphics processor.
#[derive(Clone, Copy, Debug, PartialEq, Eq, Structural)]
pub struct GpuPlatform {
    pub reference_hz: u32,
}

/// What the fields are.
pub open spec fn gpu_state(log: Seq<Access>) -> GpuPlatformState {
    GpuPlatformState {
        gates: mmio::last(log, clocks::car(0x280)) & GPU_GATES,
        reset: mmio::last(log, clocks::car(0x28c)) & GPU_BIT,
        power_clock: mmio::last(log, clocks::car(0x67c)) & OUT5_BITS,
        clamp: mmio::last(log, pmc(0x2d4)),
    }
}

/// What starts the graphics processor, by what was read of its clock.
pub open spec fn gpu_start_steps(clock: u32) -> Seq<Step> {
    seq![
        Step::Write(clocks::car(0x284), GPU_GATES),
        Step::Read(clocks::car(0x67c)),
        Step::Write(clocks::car(0x67c), (clock & !OUT5_BITS) | OUT5_204MHZ),
        Step::Read(clocks::car(0x67c)),
        Step::Delay(10),
        Step::Write(clocks::car(0x290), GPU_BIT),
        Step::Read(clocks::car(0x28c)),
        Step::Delay(10),
        Step::Write(pmc(0x2d4), 0),
        Step::Read(pmc(0x2d4)),
        Step::Delay(10),
        Step::Write(clocks::car(0x288), GPU_BIT),
        Step::Read(clocks::car(0x280)),
        Step::Write(clocks::car(0x294), GPU_BIT),
        Step::Read(clocks::car(0x28c)),
        Step::Write(clocks::car(0x284), GPU_BIT),
        Step::Read(clocks::car(0x280)),
        Step::Delay(10),
    ]
}

/// What the registers of a graphics processor that runs say.
pub open spec fn gpu_registers() -> Seq<(usize, Test)> {
    seq![
        (clocks::car(0x280), Test::Is(GPU_GATES, GPU_GATES)),
        (clocks::car(0x28c), Test::Clear(GPU_BIT)),
        (clocks::car(0x67c), Test::Is(OUT5_BITS, OUT5_204MHZ)),
        (pmc(0x2d4), Test::Clear(1)),
    ]
}

/// The graphics processor was started, and the registers show it running or not.
pub open spec fn gpu_started(before: Seq<Access>, after: Seq<Access>, fine: bool) -> bool {
    exists|a: Seq<Access>| #[trigger]
        mmio::did(before, a, gpu_start_steps(mmio::value_at(a, before.len() as int + 1)))
            && mmio::read_back(a, after, gpu_registers(), fine)
}

/// What stops the graphics processor and holds it apart.
pub open spec fn gpu_stop_steps() -> Seq<Step> {
    seq![
        Step::Write(pmc(0x2d4), 1),
        Step::Read(pmc(0x2d4)),
        Step::Delay(10),
        Step::Write(clocks::car(0x290), GPU_BIT),
        Step::Read(clocks::car(0x28c)),
        Step::Delay(10),
    ]
}

/// The graphics processor was stopped, and the registers show it held apart or not.
pub open spec fn gpu_stopped(before: Seq<Access>, after: Seq<Access>, fine: bool) -> bool {
    exists|a: Seq<Access>| #[trigger]
        mmio::did(before, a, gpu_stop_steps()) && mmio::read_back(
            a,
            after,
            seq![(pmc(0x2d4), Test::Any(1)), (clocks::car(0x28c), Test::Any(GPU_BIT))],
            fine,
        )
}

/// What puts the graphics processor back, by what was read of its clock.
pub open spec fn gpu_back_steps(clock: u32, previous: GpuPlatformState) -> Seq<Step> {
    seq![
        Step::Read(clocks::car(0x67c)),
        Step::Write(clocks::car(0x67c), (clock & !OUT5_BITS) | previous.power_clock),
        Step::Write(clocks::car(0x284), previous.gates),
        Step::Write(clocks::car(0x288), GPU_GATES & !previous.gates),
        Step::Write(
            if previous.reset == 0 {
                clocks::car(0x294)
            } else {
                clocks::car(0x290)
            },
            GPU_BIT,
        ),
        Step::Write(pmc(0x2d4), previous.clamp),
        Step::Read(pmc(0x2d4)),
        Step::Delay(10),
    ]
}

/// The four fields of the graphics processor, as they were.
pub open spec fn gpu_fields(previous: GpuPlatformState) -> Seq<(usize, Test)> {
    seq![
        (clocks::car(0x280), Test::Is(GPU_GATES, previous.gates)),
        (clocks::car(0x28c), Test::Is(GPU_BIT, previous.reset)),
        (clocks::car(0x67c), Test::Is(OUT5_BITS, previous.power_clock)),
    ]
}

/// The graphics processor was put back, and the registers show it as it was or not.
pub open spec fn gpu_restored(
    before: Seq<Access>,
    after: Seq<Access>,
    previous: GpuPlatformState,
    fine: bool,
) -> bool {
    let clamp = mmio::last(after, pmc(0x2d4));
    exists|a: Seq<Access>|
        {
            &&& #[trigger] mmio::did(
                before,
                a,
                gpu_back_steps(mmio::value_at(a, before.len() as int), previous),
            )
            &&& {
                ||| !fine && mmio::read_back(a, after, gpu_fields(previous), false)
                ||| {
                    &&& fine == (clamp == previous.clamp)
                    &&& after.len() > a.len()
                    &&& after.last() == Access::Read(pmc(0x2d4), clamp)
                    &&& mmio::read_back(a, after.drop_last(), gpu_fields(previous), true)
                }
            }
        }
}

/// What starts the graphics processor: its clocks, then clamp and reset, with its own
/// gate closed while the reset is released.
pub open spec fn gpu_activation(before: Seq<Access>, after: Seq<Access>) -> Seq<(usize, u32)> {
    seq![
        (clocks::car(0x284), GPU_GATES),
        (
            clocks::car(0x67c),
            (mmio::fresh(before, after, clocks::car(0x67c), 0) & !OUT5_BITS) | OUT5_204MHZ,
        ),
        (clocks::car(0x290), GPU_BIT),
        (pmc(0x2d4), 0),
        (clocks::car(0x288), GPU_BIT),
        (clocks::car(0x294), GPU_BIT),
        (clocks::car(0x284), GPU_BIT),
    ]
}

pub open spec fn gpu_running(state: GpuPlatformState) -> bool {
    &&& state.gates == GPU_GATES
    &&& state.reset == 0
    &&& state.power_clock == OUT5_204MHZ
    &&& state.clamp & 1 == 0
}

/// What puts the graphics processor back to how it was.
pub open spec fn gpu_restoration(
    before: Seq<Access>,
    after: Seq<Access>,
    previous: GpuPlatformState,
) -> Seq<(usize, u32)> {
    seq![
        (
            clocks::car(0x67c),
            (mmio::fresh(before, after, clocks::car(0x67c), 0) & !OUT5_BITS) | previous.power_clock,
        ),
        (clocks::car(0x284), previous.gates),
        (clocks::car(0x288), GPU_GATES & !previous.gates),
        (
            if previous.reset == 0 {
                clocks::car(0x294)
            } else {
                clocks::car(0x290)
            },
            GPU_BIT,
        ),
        (pmc(0x2d4), previous.clamp),
    ]
}

impl GpuPlatform {
    pub fn new<R: Timed>(bus: &mut Bus<'_, R>) -> (r: Result<Self, &'static str>)
        ensures
            final(bus).port() == old(bus).port(),
            mmio::quiet(old(bus).log(), final(bus).log()),
            ({
                let osc = mmio::last(final(bus).log(), clocks::car(0x50));
                let told = clocks::parent_spec(
                    osc,
                    mmio::last(final(bus).log(), clocks::car(0xa0)),
                    "unsupported GPU reference oscillator",
                    "GPU power-clock parent is not 408 MHz PLLP",
                );
                match r {
                    Ok(platform) => told == Ok::<int, &'static str>(platform.reference_hz as int),
                    Err(e) => (clocks::reference_spec(osc) is None && e
                        == "unsupported GPU reference oscillator") || told == Err::<
                        int,
                        &'static str,
                    >(e),
                }
            }),
    {
        let hz: u64 = parent(
            bus,
            "unsupported GPU reference oscillator",
            "GPU power-clock parent is not 408 MHz PLLP",
        )?;
        Ok(GpuPlatform { reference_hz: hz as u32 })
    }

    pub fn reference_hz(&self) -> (r: u32)
        ensures
            r == self.reference_hz,
    {
        self.reference_hz
    }

    /// Takes the fields. Nothing is changed.
    pub fn snapshot<R: Timed>(&self, bus: &mut Bus<'_, R>) -> (r: GpuPlatformState)
        ensures
            final(bus).port() == old(bus).port(),
            mmio::quiet(old(bus).log(), final(bus).log()),
            r == gpu_state(final(bus).log()),
            mmio::reads(final(bus).log(), clocks::car(0x67c)).len() == mmio::reads(
                old(bus).log(),
                clocks::car(0x67c),
            ).len() + 1,
            mmio::extends(old(bus).log(), final(bus).log()),
            forall|i: int|
                0 <= i < mmio::reads(old(bus).log(), clocks::car(0x67c)).len()
                    ==> #[trigger] mmio::reads(final(bus).log(), clocks::car(0x67c))[i]
                    == mmio::reads(old(bus).log(), clocks::car(0x67c))[i],
    {
        let gates: u32 = bus.read(CAR + 0x280);
        let reset: u32 = bus.read(CAR + 0x28c);
        let power_clock: u32 = bus.read(CAR + 0x67c);
        let clamp: u32 = bus.read(PMC + 0x2d4);
        GpuPlatformState {
            gates: gates & GPU_GATES,
            reset: reset & GPU_BIT,
            power_clock: power_clock & OUT5_BITS,
            clamp,
        }
    }

    /// Starts the clocks, then releases clamp and reset.
    pub fn activate<R: Timed>(&self, bus: &mut Bus<'_, R>) -> (r: Result<(), &'static str>)
        ensures
            final(bus).port() == old(bus).port(),
            mmio::memory_kept(old(bus).log(), final(bus).log()),
            mmio::writes(final(bus).log()) == mmio::writes(old(bus).log()) + gpu_activation(
                old(bus).log(),
                final(bus).log(),
            ),
            r == if gpu_running(gpu_state(final(bus).log())) {
                Ok::<(), &'static str>(())
            } else {
                Err("GPU clock/clamp/reset readback mismatch")
            },
            gpu_started(old(bus).log(), final(bus).log(), r is Ok),
    {
        bus.write(CAR + 0x284, GPU_GATES);
        let value: u32 = bus.read(CAR + 0x67c);
        bus.write(CAR + 0x67c, (value & !OUT5_BITS) | OUT5_204MHZ);
        let _ = bus.read(CAR + 0x67c);
        bus.delay_us(10);
        bus.write(CAR + 0x290, GPU_BIT);
        let _ = bus.read(CAR + 0x28c);
        bus.delay_us(10);
        bus.write(PMC + 0x2d4, 0);
        let _ = bus.read(PMC + 0x2d4);
        bus.delay_us(10);
        bus.write(CAR + 0x288, GPU_BIT);
        let _ = bus.read(CAR + 0x280);
        bus.write(CAR + 0x294, GPU_BIT);
        let _ = bus.read(CAR + 0x28c);
        bus.write(CAR + 0x284, GPU_BIT);
        let _ = bus.read(CAR + 0x280);
        bus.delay_us(10);
        assert(mmio::writes(bus.log()) =~= mmio::writes(old(bus).log()) + gpu_activation(
            old(bus).log(),
            bus.log(),
        ));
        let ghost a = bus.log();
        assert(mmio::did(old(bus).log(), a, gpu_start_steps(value)));
        assert(mmio::value_at(a, old(bus).log().len() as int + 1) == value);
        if bus.read(CAR + 0x280) & GPU_GATES != GPU_GATES || bus.read(CAR + 0x28c) & GPU_BIT != 0
            || bus.read(CAR + 0x67c) & OUT5_BITS != OUT5_204MHZ || bus.read(PMC + 0x2d4) & 1 != 0 {
            assert(mmio::read_back(a, bus.log(), gpu_registers(), false));
            return Err("GPU clock/clamp/reset readback mismatch");
        }
        assert(mmio::read_back(a, bus.log(), gpu_registers(), true));
        Ok(())
    }

    /// Stops the graphics processor and holds it apart, before its rail goes.
    pub fn isolate<R: Timed>(&self, bus: &mut Bus<'_, R>) -> (r: Result<(), &'static str>)
        ensures
            final(bus).port() == old(bus).port(),
            mmio::memory_kept(old(bus).log(), final(bus).log()),
            mmio::writes(final(bus).log()) == mmio::writes(old(bus).log()) + seq![
                (pmc(0x2d4), 1u32),
                (clocks::car(0x290), GPU_BIT),
            ],
            r == if mmio::last(final(bus).log(), pmc(0x2d4)) & 1 != 0 && mmio::last(
                final(bus).log(),
                clocks::car(0x28c),
            ) & GPU_BIT != 0 {
                Ok::<(), &'static str>(())
            } else {
                Err("GPU isolation readback mismatch")
            },
            gpu_stopped(old(bus).log(), final(bus).log(), r is Ok),
    {
        bus.write(PMC + 0x2d4, 1);
        let _ = bus.read(PMC + 0x2d4);
        bus.delay_us(10);
        bus.write(CAR + 0x290, GPU_BIT);
        let _ = bus.read(CAR + 0x28c);
        bus.delay_us(10);
        assert(mmio::writes(bus.log()) =~= mmio::writes(old(bus).log()) + seq![
            (pmc(0x2d4), 1u32),
            (clocks::car(0x290), GPU_BIT),
        ]);
        let ghost a = bus.log();
        assert(mmio::did(old(bus).log(), a, gpu_stop_steps()));
        if bus.read(PMC + 0x2d4) & 1 == 0 || bus.read(CAR + 0x28c) & GPU_BIT == 0 {
            return Err("GPU isolation readback mismatch");
        }
        Ok(())
    }

    /// Puts the fields of the graphics processor back, and nothing else.
    #[verifier::rlimit(100)]
    #[verifier::spinoff_prover]
    pub fn restore<R: Timed>(&self, bus: &mut Bus<'_, R>, previous: GpuPlatformState) -> (r: Result<
        (),
        &'static str,
    >)
        ensures
            final(bus).port() == old(bus).port(),
            mmio::memory_kept(old(bus).log(), final(bus).log()),
            mmio::writes(final(bus).log()) == mmio::writes(old(bus).log()) + gpu_restoration(
                old(bus).log(),
                final(bus).log(),
                previous,
            ),
            r == if gpu_state(final(bus).log()) == previous {
                Ok::<(), &'static str>(())
            } else {
                Err("GPU platform rollback readback mismatch")
            },
            gpu_restored(old(bus).log(), final(bus).log(), previous, r is Ok),
    {
        let value: u32 = bus.read(CAR + 0x67c);
        bus.write(CAR + 0x67c, (value & !OUT5_BITS) | previous.power_clock);
        bus.write(CAR + 0x284, previous.gates);
        bus.write(CAR + 0x288, GPU_GATES & !previous.gates);
        let reset: usize = if previous.reset == 0 {
            CAR + 0x294
        } else {
            CAR + 0x290
        };
        bus.write(reset, GPU_BIT);
        bus.write(PMC + 0x2d4, previous.clamp);
        let _ = bus.read(PMC + 0x2d4);
        bus.delay_us(10);
        assert(mmio::writes(bus.log()) =~= mmio::writes(old(bus).log()) + gpu_restoration(
            old(bus).log(),
            bus.log(),
            previous,
        ));
        let ghost a = bus.log();
        assert(mmio::did(old(bus).log(), a, gpu_back_steps(value, previous)));
        assert(mmio::value_at(a, old(bus).log().len() as int) == value);
        if bus.read(CAR + 0x280) & GPU_GATES != previous.gates || bus.read(CAR + 0x28c) & GPU_BIT
            != previous.reset || bus.read(CAR + 0x67c) & OUT5_BITS != previous.power_clock || bus.read(
            PMC + 0x2d4,
        ) != previous.clamp {
            return Err("GPU platform rollback readback mismatch");
        }
        proof {
            let last = bus.log().drop_last();
            assert(mmio::read_back(a, last, gpu_fields(previous), true));
        }
        Ok(())
    }
}

/// The port was free, and the state of the partitions was read.
pub open spec fn port_asked(before: Seq<Access>, free: Seq<Access>, status: u32) -> bool {
    polled(before, free, pmc(0x30), 0x100, 0) && status != u32::MAX
}

/// A partition is told to change, behind a reading that it is not in the wanted state.
pub open spec fn told(free: Seq<Access>, status: u32, partition: u32) -> Seq<Access> {
    free.push(Access::Read(pmc(0x38), status)).push(
        Access::Write(pmc(0x30), (0x100 + partition) as u32),
    )
}

/// A partition was switched: only where it was not in the wanted state.
pub open spec fn was_switched(
    before: Seq<Access>,
    after: Seq<Access>,
    partition: u32,
    bit: u32,
    on: bool,
) -> bool {
    &&& mmio::memory_kept(before, after)
    &&& exists|free: Seq<Access>, status: u32|
        {
            &&& #[trigger] port_asked(before, free, status)
            &&& if (status & bit != 0) == on {
                after == free.push(Access::Read(pmc(0x38), status))
            } else {
                exists|taken: Seq<Access>| #[trigger]
                    polled(told(free, status, partition), taken, pmc(0x30), 0x100, 0) && polled(
                        taken,
                        after,
                        pmc(0x38),
                        bit,
                        followed(bit, on),
                    )
            }
        }
}

/// What is said of the power controller's port.
pub open spec fn pmc_complaints() -> Complaints {
    Complaints {
        unreadable: "VIC PMC transaction is unreadable",
        late: "VIC PMC transaction timed out",
    }
}

/// What the bit of a partition shows once it follows.
pub open spec fn followed(bit: u32, on: bool) -> u32 {
    if on {
        bit
    } else {
        0
    }
}

/// A partition was not switched: the port is busy, its state is unknown, or it was told
/// and the command is not taken or not followed.
pub open spec fn switch_failed(
    before: Seq<Access>,
    after: Seq<Access>,
    partition: u32,
    bit: u32,
    on: bool,
    e: &'static str,
) -> bool {
    let says = pmc_complaints();
    &&& mmio::extends(before, after)
    &&& {
        ||| poll_failed(before, after, pmc(0x30), 0x100, 0, 100_000_000, says, e)
        ||| e == "VIC power status is unreadable" && exists|free: Seq<Access>|
            #[trigger] polled(before, free, pmc(0x30), 0x100, 0) && mmio::was_unreadable(
                free,
                after,
                pmc(0x38),
            )
        ||| exists|free: Seq<Access>, status: u32|
            {
                &&& #[trigger] port_asked(before, free, status)
                &&& (status & bit != 0) != on
                &&& poll_failed(
                    told(free, status, partition),
                    after,
                    pmc(0x30),
                    0x100,
                    0,
                    100_000_000,
                    says,
                    e,
                )
            }
        ||| exists|free: Seq<Access>, status: u32, taken: Seq<Access>|
            {
                &&& #[trigger] port_asked(before, free, status)
                &&& (status & bit != 0) != on
                &&& #[trigger] polled(told(free, status, partition), taken, pmc(0x30), 0x100, 0)
                &&& poll_failed(
                    taken,
                    after,
                    pmc(0x38),
                    bit,
                    followed(bit, on),
                    100_000_000,
                    says,
                    e,
                )
            }
    }
}

/// Switches a partition: the port is free, the command is taken, the partition
/// follows.
fn set_power<R: Timed>(bus: &mut Bus<'_, R>, partition: u32, bit: u32, on: bool) -> (r: Result<
    (),
    &'static str,
>)
    requires
        partition < 32,
        bit != 0,
    ensures
        final(bus).port() == old(bus).port(),
        mmio::memory_kept(old(bus).log(), final(bus).log()),
        mmio::begins(mmio::writes(final(bus).log()), mmio::writes(old(bus).log())),
        match r {
            Ok(_) => was_switched(old(bus).log(), final(bus).log(), partition, bit, on),
            Err(e) => switch_failed(old(bus).log(), final(bus).log(), partition, bit, on, e),
        },
{
    let late: &'static str = "VIC PMC transaction timed out";
    let unreadable: &'static str = "VIC PMC transaction is unreadable";
    assert(pmc(0x30) == PMC + 0x30 && pmc(0x38) == PMC + 0x38);
    assert(pmc_complaints() == (Complaints { unreadable, late }));
    poll(bus, PMC + 0x30, 0x100, 0, 100_000_000, unreadable, late)?;
    let ghost free = bus.log();
    assert(polled(old(bus).log(), free, pmc(0x30), 0x100, 0));
    let status: u32 = bus.read(PMC + 0x38);
    if status == u32::MAX {
        return Err("VIC power status is unreadable");
    }
    assert(port_asked(old(bus).log(), free, status));
    if (status & bit != 0) == on {
        return Ok(());
    }
    bus.write(PMC + 0x30, 0x100 + partition);
    assert(bus.log() == told(free, status, partition));
    poll(bus, PMC + 0x30, 0x100, 0, 100_000_000, unreadable, late)?;
    let ghost taken = bus.log();
    assert(polled(told(free, status, partition), taken, pmc(0x30), 0x100, 0));
    let wanted: u32 = if on {
        bit
    } else {
        0
    };
    assert(wanted == followed(bit, on));
    poll(bus, PMC + 0x38, bit, wanted, 100_000_000, unreadable, late)?;
    Ok(())
}

/// All bits of a word are the word.
proof fn lemma_whole()
    ensures
        forall|x: u32| #[trigger] (x & u32::MAX) == x,
{
    assert(forall|x: u32| #[trigger] (x & 0xffff_ffffu32) == x) by (bit_vector);
}

pub const VIC_BIT: u32 = 0x4_0000;

pub const HOST1X_BIT: u32 = 0x1000_0000;

pub const VIC_POWER: u32 = 0x80_0000;

pub const VIC_408MHZ: u32 = 0x4000_0000;

pub const VIC_102MHZ: u32 = 0x4000_0006;

/// The image compositor as it was found.
#[derive(Clone, Copy, Debug, PartialEq, Eq, Structural)]
pub struct VicPlatform {
    pub original_source: u32,
    pub original_power: bool,
    pub inherited_live: bool,
}

/// The work that the compositor and the decoder hang on runs.
pub open spec fn host_active(log: Seq<Access>) -> bool {
    mmio::last(log, clocks::car(0x10)) & HOST1X_BIT != 0 && mmio::last(log, clocks::car(0x4))
        & HOST1X_BIT == 0
}

/// What the registers say of the compositor.
pub open spec fn vic_found(log: Seq<Access>) -> VicPlatform {
    VicPlatform {
        original_source: mmio::last(log, clocks::car(0x678)),
        original_power: mmio::last(log, pmc(0x38)) & VIC_POWER != 0,
        inherited_live: mmio::last(log, pmc(0x38)) & VIC_POWER != 0 && mmio::last(log, pmc(0x2c))
            & VIC_POWER == 0 && mmio::last(log, clocks::car(0x280)) & VIC_BIT != 0 && mmio::last(
            log,
            clocks::car(0x28c),
        ) & VIC_BIT == 0,
    }
}

/// The register of the compositor's own overrides.
pub open spec fn vic_override() -> usize {
    (VIC + 0x8c) as usize
}

/// The clock override is on, and the compositor's own was read.
pub open spec fn scrub_opening(clock: u32) -> Seq<Step> {
    seq![
        Step::Read(clocks::car(0x554)),
        Step::Write(clocks::car(0x554), clock | 0x20),
        Step::Read(clocks::car(0x554)),
        Step::Delay(1),
        Step::Read(vic_override()),
    ]
}

/// The temporary overrides after a cold start: all of them are put back.
pub open spec fn scrub_closing(clock: u32, engine: u32) -> Seq<Step> {
    seq![
        Step::Write(vic_override(), engine | 0x0100_00fd),
        Step::Read(vic_override()),
        Step::Delay(1),
        Step::Write(vic_override(), engine),
        Step::Read(vic_override()),
        Step::Write(clocks::car(0x554), clock),
        Step::Read(clocks::car(0x554)),
        Step::Delay(1),
    ]
}

/// A scrub was opened: what was read is there.
pub open spec fn scrub_opened(
    before: Seq<Access>,
    after: Seq<Access>,
    clock: u32,
    engine: u32,
) -> bool {
    &&& mmio::did(before, after, scrub_opening(clock))
    &&& after[before.len() as int] == Access::Read(clocks::car(0x554), clock)
    &&& after.last() == Access::Read(vic_override(), engine)
    &&& clock != u32::MAX
}

/// A scrub was made, and both overrides are as they were.
pub open spec fn was_scrubbed(before: Seq<Access>, after: Seq<Access>) -> bool {
    exists|a: Seq<Access>, b: Seq<Access>, clock: u32, engine: u32|
        {
            &&& #[trigger] scrub_opened(before, a, clock, engine)
            &&& engine != u32::MAX
            &&& #[trigger] mmio::did(a, b, scrub_closing(clock, engine))
            &&& after == b.push(Access::Read(vic_override(), engine)).push(
                Access::Read(clocks::car(0x554), clock),
            )
        }
}

/// A scrub failed: an override is not there, or does not take its old value back.
pub open spec fn scrub_failed(before: Seq<Access>, after: Seq<Access>, e: &'static str) -> bool {
    &&& mmio::extends(before, after)
    &&& {
        ||| e == "VIC MBIST clock override is unreadable" && mmio::was_unreadable(
            before,
            after,
            clocks::car(0x554),
        )
        ||| e == "VIC MBIST engine override is unreadable" && exists|a: Seq<Access>, clock: u32|
            #[trigger] scrub_opened(before, a, clock, u32::MAX) && mmio::did(
                a,
                after,
                seq![Step::Write(clocks::car(0x554), clock), Step::Read(clocks::car(0x554))],
            )
        ||| e == "VIC MBIST override restore failed" && exists|
            a: Seq<Access>,
            b: Seq<Access>,
            clock: u32,
            engine: u32,
            back: u32,
        |
            {
                &&& #[trigger] scrub_opened(before, a, clock, engine)
                &&& engine != u32::MAX
                &&& #[trigger] mmio::did(a, b, scrub_closing(clock, engine))
                &&& {
                    ||| back != engine && after == #[trigger] b.push(
                        Access::Read(vic_override(), back),
                    )
                    ||| back != clock && after == b.push(
                        Access::Read(vic_override(), engine),
                    ).push(Access::Read(clocks::car(0x554), back))
                }
            }
    }
}

#[verifier::rlimit(60)]
fn scrub<R: Timed>(bus: &mut Bus<'_, R>) -> (r: Result<(), &'static str>)
    ensures
        final(bus).port() == old(bus).port(),
        mmio::memory_kept(old(bus).log(), final(bus).log()),
        mmio::begins(mmio::writes(final(bus).log()), mmio::writes(old(bus).log())),
        match r {
            Ok(_) => was_scrubbed(old(bus).log(), final(bus).log()),
            Err(e) => scrub_failed(old(bus).log(), final(bus).log(), e),
        },
        // Whatever happened, the clock override is as it was.
        mmio::writes(final(bus).log()) != mmio::writes(old(bus).log()) ==> mmio::writes(
            final(bus).log(),
        ).last() == (
            clocks::car(0x554),
            mmio::fresh(old(bus).log(), final(bus).log(), clocks::car(0x554), 0),
        ),
{
    let clock: u32 = bus.read(CAR + 0x554);
    if clock == u32::MAX {
        return Err("VIC MBIST clock override is unreadable");
    }
    bus.write(CAR + 0x554, clock | 0x20);
    let _ = bus.read(CAR + 0x554);
    bus.delay_us(1);
    let engine: u32 = bus.read(VIC + 0x8c);
    let ghost a = bus.log();
    assert(mmio::did(old(bus).log(), a, scrub_opening(clock)));
    assert(scrub_opened(old(bus).log(), a, clock, engine));
    if engine == u32::MAX {
        bus.write(CAR + 0x554, clock);
        let _ = bus.read(CAR + 0x554);
        assert(mmio::did(
            a,
            bus.log(),
            seq![Step::Write(clocks::car(0x554), clock), Step::Read(clocks::car(0x554))],
        ));
        return Err("VIC MBIST engine override is unreadable");
    }
    bus.write(VIC + 0x8c, engine | 0x0100_00fd);
    let _ = bus.read(VIC + 0x8c);
    bus.delay_us(1);
    bus.write(VIC + 0x8c, engine);
    let _ = bus.read(VIC + 0x8c);
    bus.write(CAR + 0x554, clock);
    let _ = bus.read(CAR + 0x554);
    bus.delay_us(1);
    let ghost b = bus.log();
    assert(mmio::did(a, b, scrub_closing(clock, engine)));
    let back: u32 = bus.read(VIC + 0x8c);
    if back != engine {
        assert(bus.log() == b.push(Access::Read(vic_override(), back)));
        return Err("VIC MBIST override restore failed");
    }
    let clock_back: u32 = bus.read(CAR + 0x554);
    if clock_back != clock {
        assert(b.push(Access::Read(vic_override(), clock_back)).len() > 0);
        return Err("VIC MBIST override restore failed");
    }
    Ok(())
}

/// The compositor runs.
pub open spec fn vic_running(log: Seq<Access>) -> bool {
    &&& mmio::last(log, clocks::car(0x280)) & VIC_BIT != 0
    &&& mmio::last(log, clocks::car(0x28c)) & VIC_BIT == 0
    &&& mmio::last(log, clocks::car(0x678)) == VIC_408MHZ
    &&& mmio::last(log, pmc(0x38)) & VIC_POWER != 0
    &&& mmio::last(log, pmc(0x2c)) & VIC_POWER == 0
}

/// What the registers of a compositor that runs say.
pub open spec fn vic_registers() -> Seq<(usize, Test)> {
    seq![
        (clocks::car(0x280), Test::Any(VIC_BIT)),
        (clocks::car(0x28c), Test::Clear(VIC_BIT)),
        (clocks::car(0x678), Test::Is(u32::MAX, VIC_408MHZ)),
        (pmc(0x38), Test::Any(VIC_POWER)),
        (pmc(0x2c), Test::Clear(VIC_POWER)),
    ]
}

/// What puts the compositor into reset.
pub open spec fn vic_reset_steps() -> Seq<Step> {
    seq![
        Step::Write(clocks::car(0x290), VIC_BIT),
        Step::Read(clocks::car(0x28c)),
        Step::Write(clocks::car(0x288), VIC_BIT),
        Step::Read(clocks::car(0x280)),
        Step::Delay(10),
    ]
}

/// What gives the compositor its clock, and takes its clamp off.
pub open spec fn vic_clock_steps(source: u32) -> Seq<Step> {
    seq![
        Step::Delay(10),
        Step::Write(clocks::car(0x678), source),
        Step::Write(clocks::car(0x284), VIC_BIT),
        Step::Read(clocks::car(0x280)),
        Step::Delay(10),
        Step::Write(pmc(0x34), VIC_POWER),
    ]
}

/// What takes the compositor out of reset.
pub open spec fn vic_release_steps() -> Seq<Step> {
    seq![
        Step::Delay(10),
        Step::Write(clocks::car(0x294), VIC_BIT),
        Step::Read(clocks::car(0x28c)),
        Step::Delay(10),
    ]
}

/// What raises the compositor's clock.
pub open spec fn vic_raise_steps() -> Seq<Step> {
    seq![
        Step::Write(clocks::car(0x678), VIC_408MHZ),
        Step::Read(clocks::car(0x678)),
        Step::Delay(10),
    ]
}

/// The places of a start of the compositor: in reset, powered, clocked, without clamp, out of
/// reset, after a cold start scrubbed, and its clock raised.
pub struct VicStart {
    pub reset: Seq<Access>,
    pub powered: Seq<Access>,
    pub clocked: Seq<Access>,
    pub open: Seq<Access>,
    pub released: Seq<Access>,
    pub scrubbed: Seq<Access>,
    pub raised: Seq<Access>,
}

/// So many steps of a start were over.
pub open spec fn vic_starting(
    before: Seq<Access>,
    s: VicStart,
    platform: VicPlatform,
    n: int,
) -> bool {
    let source = if platform.original_power {
        VIC_408MHZ
    } else {
        VIC_102MHZ
    };
    &&& mmio::did(before, s.reset, vic_reset_steps())
    &&& n > 0 ==> was_switched(s.reset, s.powered, 23, VIC_POWER, true) && mmio::did(
        s.powered,
        s.clocked,
        vic_clock_steps(source),
    )
    &&& n > 1 ==> polled(s.clocked, s.open, pmc(0x2c), VIC_POWER, 0) && mmio::did(
        s.open,
        s.released,
        vic_release_steps(),
    )
    &&& n > 2 ==> (if platform.original_power {
        s.scrubbed == s.released
    } else {
        was_scrubbed(s.released, s.scrubbed)
    }) && mmio::did(s.scrubbed, s.raised, vic_raise_steps())
}

/// The compositor was started: reset, powered, clocked, released, and after a cold
/// start scrubbed before its clock is raised. The registers show it running or not.
pub open spec fn vic_started(
    before: Seq<Access>,
    after: Seq<Access>,
    platform: VicPlatform,
    fine: bool,
) -> bool {
    &&& mmio::extends(before, after)
    &&& exists|s: VicStart| #[trigger]
        vic_starting(before, s, platform, 3) && mmio::read_back(
            s.raised,
            after,
            vic_registers(),
            fine,
        )
}

/// The compositor was not started: where it stopped, and why.
pub open spec fn vic_start_failed(
    before: Seq<Access>,
    after: Seq<Access>,
    platform: VicPlatform,
    e: &'static str,
) -> bool {
    &&& mmio::extends(before, after)
    &&& {
        ||| exists|s: VicStart, n: int|
            {
                &&& #[trigger] vic_starting(before, s, platform, n)
                &&& {
                    ||| n == 0 && switch_failed(s.reset, after, 23, VIC_POWER, true, e)
                    ||| n == 1 && poll_failed(
                        s.clocked,
                        after,
                        pmc(0x2c),
                        VIC_POWER,
                        0,
                        100_000_000,
                        pmc_complaints(),
                        e,
                    )
                    ||| n == 2 && !platform.original_power && scrub_failed(s.released, after, e)
                }
            }
        ||| e == "VIC clock/power/reset readback mismatch" && vic_started(
            before,
            after,
            platform,
            false,
        )
    }
}

/// What stops the compositor.
pub open spec fn vic_stop_steps() -> Seq<Step> {
    seq![
        Step::Write(clocks::car(0x290), VIC_BIT),
        Step::Read(clocks::car(0x28c)),
        Step::Delay(2000),
        Step::Write(clocks::car(0x288), VIC_BIT),
        Step::Read(clocks::car(0x280)),
    ]
}

/// The compositor was stopped, and the registers show it stopped or not.
pub open spec fn vic_stopped(before: Seq<Access>, after: Seq<Access>, fine: bool) -> bool {
    exists|a: Seq<Access>| #[trigger]
        mmio::did(before, a, vic_stop_steps()) && mmio::read_back(
            a,
            after,
            seq![
                (clocks::car(0x28c), Test::Any(VIC_BIT)),
                (clocks::car(0x280), Test::Clear(VIC_BIT)),
            ],
            fine,
        )
}

/// The compositor has its old clock source.
pub open spec fn vic_sourced(before: Seq<Access>, after: Seq<Access>, source: u32) -> bool {
    mmio::did(
        before,
        after,
        seq![Step::Write(clocks::car(0x678), source), Step::Read(clocks::car(0x678))],
    )
}

impl VicPlatform {
    pub fn new<R: Timed>(bus: &mut Bus<'_, R>) -> (r: Result<Self, &'static str>)
        ensures
            final(bus).port() == old(bus).port(),
            mmio::quiet(old(bus).log(), final(bus).log()),
            r matches Ok(platform) ==> {
                &&& platform == vic_found(final(bus).log())
                &&& host_active(final(bus).log())
                &&& mmio::last(final(bus).log(), pmc(0x38)) != u32::MAX
                &&& mmio::last(final(bus).log(), pmc(0x2c)) != u32::MAX
            },
            r matches Err(e) ==> {
                let log = final(bus).log();
                ||| e == "unsupported VIC reference oscillator"
                ||| e == "VIC parent is not the inherited 408 MHz PLLP"
                ||| e == "inherited host1x clock/reset is not active" && !host_active(log)
                ||| e == "VIC power partition is unreadable" && (mmio::last(log, pmc(0x38))
                    == u32::MAX || mmio::last(log, pmc(0x2c)) == u32::MAX)
            },
    {
        let _ = parent(
            bus,
            "unsupported VIC reference oscillator",
            "VIC parent is not the inherited 408 MHz PLLP",
        )?;
        if bus.read(CAR + 0x10) & HOST1X_BIT == 0 || bus.read(CAR + 0x4) & HOST1X_BIT != 0 {
            return Err("inherited host1x clock/reset is not active");
        }
        let power: u32 = bus.read(PMC + 0x38);
        let clamp: u32 = bus.read(PMC + 0x2c);
        if power == u32::MAX || clamp == u32::MAX {
            return Err("VIC power partition is unreadable");
        }
        let original_power: bool = power & VIC_POWER != 0;
        let inherited_live: bool = original_power && clamp & VIC_POWER == 0 && bus.read(CAR + 0x280)
            & VIC_BIT != 0 && bus.read(CAR + 0x28c) & VIC_BIT == 0;
        let original_source: u32 = bus.read(CAR + 0x678);
        Ok(VicPlatform { original_source, original_power, inherited_live })
    }

    /// Starts the compositor.
    #[verifier::rlimit(100)]
    pub fn activate<R: Timed>(&self, bus: &mut Bus<'_, R>) -> (r: Result<(), &'static str>)
        ensures
            final(bus).port() == old(bus).port(),
            mmio::memory_kept(old(bus).log(), final(bus).log()),
            mmio::begins(mmio::writes(final(bus).log()), mmio::writes(old(bus).log())),
            match r {
                Ok(_) => vic_started(old(bus).log(), final(bus).log(), *self, true) && vic_running(
                    final(bus).log(),
                ),
                Err(e) => vic_start_failed(old(bus).log(), final(bus).log(), *self, e),
            },
    {
        bus.write(CAR + 0x290, VIC_BIT);
        let _ = bus.read(CAR + 0x28c);
        bus.write(CAR + 0x288, VIC_BIT);
        let _ = bus.read(CAR + 0x280);
        bus.delay_us(10);
        let ghost o = old(bus).log();
        let ghost p = *self;
        let ghost mut s = VicStart {
            reset: bus.log(),
            powered: o,
            clocked: o,
            open: o,
            released: o,
            scrubbed: o,
            raised: o,
        };
        assert(mmio::did(o, s.reset, vic_reset_steps()));
        assert(vic_starting(o, s, p, 0));
        set_power(bus, 23, VIC_POWER, true)?;
        proof {
            s = VicStart { powered: bus.log(), ..s };
        }
        bus.delay_us(10);
        let source: u32 = if self.original_power {
            VIC_408MHZ
        } else {
            VIC_102MHZ
        };
        bus.write(CAR + 0x678, source);
        bus.write(CAR + 0x284, VIC_BIT);
        let _ = bus.read(CAR + 0x280);
        bus.delay_us(10);
        bus.write(PMC + 0x34, VIC_POWER);
        proof {
            s = VicStart { clocked: bus.log(), ..s };
            assert(mmio::did(s.powered, s.clocked, vic_clock_steps(source)));
            assert(vic_starting(o, s, p, 1));
        }
        assert(pmc(0x2c) == PMC + 0x2c && pmc_complaints().late == "VIC PMC transaction timed out");
        poll(
            bus,
            PMC + 0x2c,
            VIC_POWER,
            0,
            100_000_000,
            "VIC PMC transaction is unreadable",
            "VIC PMC transaction timed out",
        )?;
        proof {
            s = VicStart { open: bus.log(), ..s };
        }
        bus.delay_us(10);
        bus.write(CAR + 0x294, VIC_BIT);
        let _ = bus.read(CAR + 0x28c);
        bus.delay_us(10);
        proof {
            s = VicStart { released: bus.log(), ..s };
            assert(mmio::did(s.open, s.released, vic_release_steps()));
            assert(vic_starting(o, s, p, 2));
        }
        if !self.original_power {
            scrub(bus)?;
        }
        proof {
            s = VicStart { scrubbed: bus.log(), ..s };
        }
        bus.write(CAR + 0x678, VIC_408MHZ);
        let _ = bus.read(CAR + 0x678);
        bus.delay_us(10);
        proof {
            s = VicStart { raised: bus.log(), ..s };
            assert(mmio::did(s.scrubbed, s.raised, vic_raise_steps()));
            assert(vic_starting(o, s, p, 3));
        }
        if !Self::reads_back(bus) {
            assert(vic_started(o, bus.log(), p, false));
            return Err("VIC clock/power/reset readback mismatch");
        }
        Ok(())
    }

    /// Whether the registers show the compositor running.
    fn reads_back<R: Timed>(bus: &mut Bus<'_, R>) -> (r: bool)
        ensures
            final(bus).port() == old(bus).port(),
            mmio::quiet(old(bus).log(), final(bus).log()),
            mmio::read_back(old(bus).log(), final(bus).log(), vic_registers(), r),
            r == vic_running(final(bus).log()),
    {
        proof {
            lemma_whole();
        }
        bus.read(CAR + 0x280) & VIC_BIT != 0 && bus.read(CAR + 0x28c) & VIC_BIT == 0 && bus.read(
            CAR + 0x678,
        ) == VIC_408MHZ && bus.read(PMC + 0x38) & VIC_POWER != 0 && bus.read(PMC + 0x2c) & VIC_POWER
            == 0
    }

    /// Stops the compositor, before any memory that it could reach is released.
    pub fn isolate<R: Timed>(&self, bus: &mut Bus<'_, R>) -> (r: Result<(), &'static str>)
        ensures
            final(bus).port() == old(bus).port(),
            mmio::memory_kept(old(bus).log(), final(bus).log()),
            mmio::writes(final(bus).log()) == mmio::writes(old(bus).log()) + seq![
                (clocks::car(0x290), VIC_BIT),
                (clocks::car(0x288), VIC_BIT),
            ],
            r == if mmio::last(final(bus).log(), clocks::car(0x28c)) & VIC_BIT != 0 && mmio::last(
                final(bus).log(),
                clocks::car(0x280),
            ) & VIC_BIT == 0 {
                Ok::<(), &'static str>(())
            } else {
                Err("VIC DMA isolation readback mismatch")
            },
            vic_stopped(old(bus).log(), final(bus).log(), r is Ok),
    {
        bus.write(CAR + 0x290, VIC_BIT);
        let _ = bus.read(CAR + 0x28c);
        bus.delay_us(2000);
        bus.write(CAR + 0x288, VIC_BIT);
        let _ = bus.read(CAR + 0x280);
        assert(mmio::writes(bus.log()) =~= mmio::writes(old(bus).log()) + seq![
            (clocks::car(0x290), VIC_BIT),
            (clocks::car(0x288), VIC_BIT),
        ]);
        let ghost a = bus.log();
        assert(mmio::did(old(bus).log(), a, vic_stop_steps()));
        if bus.read(CAR + 0x28c) & VIC_BIT == 0 || bus.read(CAR + 0x280) & VIC_BIT != 0 {
            return Err("VIC DMA isolation readback mismatch");
        }
        Ok(())
    }

    /// Puts clock source and power back, once it is stopped.
    pub fn restore_power<R: Timed>(&self, bus: &mut Bus<'_, R>) -> (r: Result<(), &'static str>)
        ensures
            final(bus).port() == old(bus).port(),
            mmio::memory_kept(old(bus).log(), final(bus).log()),
            mmio::begins(mmio::writes(final(bus).log()), mmio::writes(old(bus).log())),
            self.original_power ==> r is Ok && vic_sourced(
                old(bus).log(),
                final(bus).log(),
                self.original_source,
            ),
            !self.original_power ==> exists|a: Seq<Access>|
                {
                    &&& #[trigger] vic_sourced(old(bus).log(), a, self.original_source)
                    &&& match r {
                        Ok(_) => was_switched(a, final(bus).log(), 23, VIC_POWER, false),
                        Err(e) => switch_failed(a, final(bus).log(), 23, VIC_POWER, false, e),
                    }
                },
    {
        bus.write(CAR + 0x678, self.original_source);
        let _ = bus.read(CAR + 0x678);
        assert(vic_sourced(old(bus).log(), bus.log(), self.original_source));
        if !self.original_power {
            set_power(bus, 23, VIC_POWER, false)?;
        }
        Ok(())
    }
}

pub const NVDEC_BIT: u32 = 4;

pub const NVJPG_BIT: u32 = 8;

pub const NVDEC_POWER: u32 = 0x0200_0000;

pub const NVDEC_CLIENT: u32 = 0x20;

pub const PLLP: u32 = 0x8000_0000;

pub const PLLP_102MHZ: u32 = 0x8000_0006;

/// The video decoder as it was found.
#[derive(Clone, Copy, Debug, PartialEq, Eq, Structural)]
pub struct NvdecPlatform {
    pub original_source: u32,
}

pub open spec fn mc(offset: int) -> usize {
    (MC + offset) as usize
}

/// The temporary overrides of the decoder after a cold start, by what was read. The switch
/// and the source of its neighbour are put back where they were changed.
pub open spec fn nvdec_scrub_steps(neighbour: bool, source: u32, saved: u32) -> Seq<Step> {
    seq![Step::Read(clocks::car(0x298)), Step::Read(clocks::car(0x69c))] + (if neighbour {
        seq![]
    } else {
        seq![
            Step::Write(clocks::car(0x69c), PLLP_102MHZ),
            Step::Write(clocks::car(0x29c), NVJPG_BIT),
            Step::Read(clocks::car(0x298)),
        ]
    }) + seq![
        Step::Read(clocks::car(0x554)),
        Step::Write(clocks::car(0x554), saved | 0x8000_0200u32),
        Step::Read(clocks::car(0x554)),
        Step::Delay(1),
        Step::Write(clocks::car(0x554), saved),
        Step::Read(clocks::car(0x554)),
    ] + (if neighbour {
        seq![]
    } else {
        seq![
            Step::Write(clocks::car(0x2a0), NVJPG_BIT),
            Step::Write(clocks::car(0x69c), source),
        ]
    })
}

/// The decoder was scrubbed.
pub open spec fn nvdec_scrubbed(before: Seq<Access>, after: Seq<Access>) -> bool {
    let n = before.len() as int;
    let neighbour = mmio::value_at(after, n) & NVJPG_BIT != 0;
    let saved = mmio::value_at(
        after,
        n + if neighbour {
            2
        } else {
            5int
        },
    );
    mmio::did(before, after, nvdec_scrub_steps(neighbour, mmio::value_at(after, n + 1), saved))
}

fn scrub_decoder<R: Timed>(bus: &mut Bus<'_, R>)
    ensures
        final(bus).port() == old(bus).port(),
        mmio::memory_kept(old(bus).log(), final(bus).log()),
        mmio::begins(mmio::writes(final(bus).log()), mmio::writes(old(bus).log())),
        nvdec_scrubbed(old(bus).log(), final(bus).log()),
{
    let gates: u32 = bus.read(CAR + 0x298);
    let neighbour: bool = gates & NVJPG_BIT != 0;
    let source: u32 = bus.read(CAR + 0x69c);
    if !neighbour {
        bus.write(CAR + 0x69c, PLLP_102MHZ);
        bus.write(CAR + 0x29c, NVJPG_BIT);
        let _ = bus.read(CAR + 0x298);
    }
    let saved: u32 = bus.read(CAR + 0x554);
    bus.write(CAR + 0x554, saved | 0x8000_0200);
    let _ = bus.read(CAR + 0x554);
    bus.delay_us(1);
    bus.write(CAR + 0x554, saved);
    let _ = bus.read(CAR + 0x554);
    if !neighbour {
        bus.write(CAR + 0x2a0, NVJPG_BIT);
        bus.write(CAR + 0x69c, source);
    }
    assert(mmio::did(old(bus).log(), bus.log(), nvdec_scrub_steps(neighbour, source, saved)));
}

/// The port was free, and the state of the partitions was read.
pub open spec fn nvdec_asked(free: Seq<Access>, status: u32) -> Seq<Access> {
    free.push(Access::Read(pmc(0x38), status))
}

/// The decoder's partition was found off and told to go on.
pub open spec fn nvdec_told(free: Seq<Access>, status: u32) -> Seq<Access> {
    nvdec_asked(free, status).push(Access::Write(pmc(0x30), 0x119))
}

/// The decoder's power after it was found off or on.
pub open spec fn nvdec_powered(before: Seq<Access>, after: Seq<Access>, on: bool) -> bool {
    exists|free: Seq<Access>, status: u32|
        {
            &&& #[trigger] polled(before, free, pmc(0x30), 0x100, 0)
            &&& on == (status & NVDEC_POWER != 0)
            &&& if on {
                after == #[trigger] nvdec_asked(free, status)
            } else {
                exists|taken: Seq<Access>| #[trigger]
                    polled(nvdec_told(free, status), taken, pmc(0x30), 0x100, 0) && polled(
                        taken,
                        after,
                        pmc(0x38),
                        NVDEC_POWER,
                        NVDEC_POWER,
                    )
            }
        }
}

/// What puts the decoder into reset.
pub open spec fn nvdec_reset_steps() -> Seq<Step> {
    seq![
        Step::Write(clocks::car(0x2a8), NVDEC_BIT),
        Step::Write(clocks::car(0x2a0), NVDEC_BIT),
        Step::Read(clocks::car(0x298)),
        Step::Delay(10),
    ]
}

/// What gives the decoder its clock, and takes its clamp off.
pub open spec fn nvdec_clock_steps() -> Seq<Step> {
    seq![
        Step::Write(clocks::car(0x698), PLLP_102MHZ),
        Step::Write(clocks::car(0x29c), NVDEC_BIT),
        Step::Read(clocks::car(0x298)),
        Step::Delay(10),
        Step::Write(pmc(0x34), NVDEC_POWER),
    ]
}

/// What takes the decoder out of reset.
pub open spec fn nvdec_release_steps() -> Seq<Step> {
    seq![
        Step::Write(clocks::car(0x2ac), NVDEC_BIT),
        Step::Read(clocks::car(0x2a4)),
        Step::Delay(10),
    ]
}

/// What raises the decoder's clock, and lets its accesses pass, by what was read.
pub open spec fn nvdec_raise_steps(drain: u32) -> Seq<Step> {
    seq![
        Step::Write(clocks::car(0x698), PLLP),
        Step::Read(clocks::car(0x698)),
        Step::Delay(10),
        Step::Read(mc(0x970)),
        Step::Write(mc(0x970), drain & !NVDEC_CLIENT),
    ]
}

/// What the registers of a decoder that runs say.
pub open spec fn nvdec_registers() -> Seq<(usize, Test)> {
    seq![
        (clocks::car(0x2a4), Test::Clear(NVDEC_BIT)),
        (clocks::car(0x298), Test::Any(NVDEC_BIT)),
        (clocks::car(0x698), Test::Is(u32::MAX, PLLP)),
    ]
}

/// The places of a start of the decoder: in reset, powered, clocked, without clamp, out of
/// reset, after a cold start scrubbed, and its clock raised.
pub struct NvdecStart {
    pub reset: Seq<Access>,
    pub on: bool,
    pub powered: Seq<Access>,
    pub clocked: Seq<Access>,
    pub open: Seq<Access>,
    pub released: Seq<Access>,
    pub scrubbed: Seq<Access>,
    pub raised: Seq<Access>,
}

/// So many steps of a start were over.
pub open spec fn nvdec_starting(before: Seq<Access>, s: NvdecStart, n: int) -> bool {
    &&& mmio::did(before, s.reset, nvdec_reset_steps())
    &&& n > 0 ==> nvdec_powered(s.reset, s.powered, s.on) && mmio::did(
        s.powered,
        s.clocked,
        nvdec_clock_steps(),
    )
    &&& n > 1 ==> polled(s.clocked, s.open, pmc(0x2c), NVDEC_POWER, 0) && mmio::did(
        s.open,
        s.released,
        nvdec_release_steps(),
    )
    &&& n > 2 ==> (if s.on {
        s.scrubbed == s.released
    } else {
        nvdec_scrubbed(s.released, s.scrubbed)
    }) && mmio::did(
        s.scrubbed,
        s.raised,
        nvdec_raise_steps(mmio::value_at(s.raised, s.scrubbed.len() as int + 3)),
    )
}

/// The decoder was started, and the registers show it running or not.
pub open spec fn nvdec_started(before: Seq<Access>, after: Seq<Access>, fine: bool) -> bool {
    &&& mmio::extends(before, after)
    &&& exists|s: NvdecStart| #[trigger]
        nvdec_starting(before, s, 3) && mmio::read_back(s.raised, after, nvdec_registers(), fine)
}

pub open spec fn nvdec_running(log: Seq<Access>) -> bool {
    &&& mmio::last(log, clocks::car(0x2a4)) & NVDEC_BIT == 0
    &&& mmio::last(log, clocks::car(0x298)) & NVDEC_BIT != 0
    &&& mmio::last(log, clocks::car(0x698)) == PLLP
}

/// The decoder cannot be taken over as it was found: what was read last says why.
pub open spec fn nvdec_unfit(before: Seq<Access>, after: Seq<Access>, e: &'static str) -> bool {
    &&& mmio::extends(before, after)
    &&& {
        let osc = mmio::last(after, clocks::car(0x50));
        let source = mmio::last(after, clocks::car(0x698));
        let power = mmio::last(after, pmc(0x38));
        let clamp = mmio::last(after, pmc(0x2c));
        ||| mmio::tried(before, after, clocks::car(0x50)) && clocks::reference_spec(osc) is None && e
            == "NVDEC oscillator unsupported"
        ||| mmio::tried(before, after, clocks::car(0x50)) && clocks::parent_spec(
            osc,
            mmio::last(after, clocks::car(0xa0)),
            "NVDEC oscillator unsupported",
            "NVDEC requires inherited 408 MHz PLLP",
        ) == Err::<int, &'static str>(e)
        ||| mmio::tried(before, after, clocks::car(0x10)) && (mmio::last(after, clocks::car(0x10))
            & HOST1X_BIT == 0 || mmio::tried(before, after, clocks::car(0x4)) && mmio::last(
            after,
            clocks::car(0x4),
        ) & HOST1X_BIT != 0) && e == "NVDEC requires active host1x"
        ||| mmio::tried(before, after, mc(0xab4)) && mmio::last(after, mc(0x10)) & 1 != 0 && mmio::last(
            after,
            mc(0xab4),
        ) & 0x8000_0000 != 0 && e == "NVDEC inherited SMMU translation is unsupported"
        ||| mmio::tried(before, after, pmc(0x38)) && (power == u32::MAX || mmio::tried(
            before,
            after,
            pmc(0x2c),
        ) && (clamp == u32::MAX || source == u32::MAX)) && e == "NVDEC platform registers unreadable"
    }
}

/// What is said of the decoder's registers.
pub open spec fn nvdec_complaints() -> Complaints {
    Complaints { unreadable: "NVDEC register is unreadable", late: "NVDEC power/reset timed out" }
}

/// The decoder's power was not brought on: the port is busy, the command is not taken, or
/// the partition does not follow.
pub open spec fn nvdec_power_failed(
    before: Seq<Access>,
    after: Seq<Access>,
    e: &'static str,
) -> bool {
    let says = nvdec_complaints();
    &&& mmio::extends(before, after)
    &&& {
        ||| poll_failed(before, after, pmc(0x30), 0x100, 0, 100_000_000, says, e)
        ||| exists|free: Seq<Access>, status: u32|
            {
                &&& #[trigger] polled(before, free, pmc(0x30), 0x100, 0)
                &&& status & NVDEC_POWER == 0
                &&& poll_failed(
                    #[trigger] nvdec_told(free, status),
                    after,
                    pmc(0x30),
                    0x100,
                    0,
                    100_000_000,
                    says,
                    e,
                )
            }
        ||| exists|free: Seq<Access>, status: u32, taken: Seq<Access>|
            {
                &&& #[trigger] polled(before, free, pmc(0x30), 0x100, 0)
                &&& status & NVDEC_POWER == 0
                &&& #[trigger] polled(nvdec_told(free, status), taken, pmc(0x30), 0x100, 0)
                &&& poll_failed(
                    taken,
                    after,
                    pmc(0x38),
                    NVDEC_POWER,
                    NVDEC_POWER,
                    100_000_000,
                    says,
                    e,
                )
            }
    }
}

/// The decoder was not started: where it stopped, and why.
pub open spec fn nvdec_start_failed(
    before: Seq<Access>,
    after: Seq<Access>,
    e: &'static str,
) -> bool {
    &&& mmio::extends(before, after)
    &&& {
        ||| exists|s: NvdecStart, n: int|
            {
                &&& #[trigger] nvdec_starting(before, s, n)
                &&& {
                    ||| n == 0 && nvdec_power_failed(s.reset, after, e)
                    ||| n == 1 && poll_failed(
                        s.clocked,
                        after,
                        pmc(0x2c),
                        NVDEC_POWER,
                        0,
                        100_000_000,
                        nvdec_complaints(),
                        e,
                    )
                }
            }
        ||| e == "NVDEC clock/reset readback mismatch" && nvdec_started(before, after, false)
    }
}

/// What stops the decoder.
pub open spec fn nvdec_stop_steps() -> Seq<Step> {
    seq![
        Step::Write(clocks::car(0x2a8), NVDEC_BIT),
        Step::Read(clocks::car(0x2a4)),
        Step::Delay(2000),
        Step::Write(clocks::car(0x2a0), NVDEC_BIT),
        Step::Read(clocks::car(0x298)),
    ]
}

/// The decoder was stopped, and the registers show it in reset and without clock or not.
pub open spec fn nvdec_stopped(before: Seq<Access>, after: Seq<Access>, fine: bool) -> bool {
    exists|a: Seq<Access>| #[trigger]
        mmio::did(before, a, nvdec_stop_steps()) && mmio::read_back(
            a,
            after,
            seq![
                (clocks::car(0x2a4), Test::Any(NVDEC_BIT)),
                (clocks::car(0x298), Test::Clear(NVDEC_BIT)),
            ],
            fine,
        )
}

/// The memory controller was asked to let go of the decoder.
pub open spec fn nvdec_draining(before: Seq<Access>, drain: u32) -> Seq<Access> {
    before.push(Access::Read(mc(0x970), drain)).push(
        Access::Write(mc(0x970), drain | NVDEC_CLIENT),
    )
}

/// The decoder was stopped, and the memory controller said once that nothing is left.
pub open spec fn nvdec_drained(
    before: Seq<Access>,
    stopped: Seq<Access>,
    drain: u32,
    after: Seq<Access>,
) -> bool {
    &&& nvdec_stopped(before, stopped, true)
    &&& polled(nvdec_draining(stopped, drain), after, mc(0x974), NVDEC_CLIENT, NVDEC_CLIENT)
}

/// That nothing is left is asked six times more.
pub open spec fn nvdec_still() -> Seq<(usize, Test)> {
    Seq::new(6, |i: int| (mc(0x974), Test::Any(NVDEC_CLIENT)))
}

/// What lets the accesses of the decoder pass again, and puts its clock source back.
pub open spec fn nvdec_end_steps(drain: u32, source: u32) -> Seq<Step> {
    seq![
        Step::Read(mc(0x970)),
        Step::Write(mc(0x970), drain & !NVDEC_CLIENT),
        Step::Read(mc(0x970)),
        Step::Write(clocks::car(0x698), source),
    ]
}

/// The decoder was set apart.
pub open spec fn nvdec_isolated(before: Seq<Access>, after: Seq<Access>, source: u32) -> bool {
    exists|stopped: Seq<Access>, drain: u32, drained: Seq<Access>, still: Seq<Access>|
        {
            &&& #[trigger] nvdec_drained(before, stopped, drain, drained)
            &&& #[trigger] mmio::read_back(drained, still, nvdec_still(), true)
            &&& mmio::did(
                still,
                after,
                nvdec_end_steps(mmio::value_at(after, still.len() as int), source),
            )
        }
}

/// The decoder was not set apart: it did not stop, or the memory controller has something
/// of it left or takes its word back.
pub open spec fn nvdec_stop_failed(
    before: Seq<Access>,
    after: Seq<Access>,
    e: &'static str,
) -> bool {
    &&& mmio::extends(before, after)
    &&& {
        ||| e == "NVDEC DMA isolation failed" && nvdec_stopped(before, after, false)
        ||| exists|stopped: Seq<Access>, drain: u32|
            {
                &&& #[trigger] nvdec_stopped(before, stopped, true)
                &&& poll_failed(
                    #[trigger] nvdec_draining(stopped, drain),
                    after,
                    mc(0x974),
                    NVDEC_CLIENT,
                    NVDEC_CLIENT,
                    100_000_000,
                    nvdec_complaints(),
                    e,
                )
            }
        ||| e == "NVDEC MC drain unstable" && exists|
            stopped: Seq<Access>,
            drain: u32,
            drained: Seq<Access>,
        |
            #[trigger] nvdec_drained(before, stopped, drain, drained) && mmio::read_back(
                drained,
                after,
                nvdec_still(),
                false,
            )
    }
}

impl NvdecPlatform {
    pub fn new<R: Timed>(bus: &mut Bus<'_, R>) -> (r: Result<Self, &'static str>)
        ensures
            final(bus).port() == old(bus).port(),
            mmio::quiet(old(bus).log(), final(bus).log()),
            r matches Err(e) ==> nvdec_unfit(old(bus).log(), final(bus).log(), e),
            r matches Ok(platform) ==> {
                let log = final(bus).log();
                &&& platform.original_source == mmio::last(log, clocks::car(0x698))
                &&& platform.original_source != u32::MAX
                &&& host_active(log)
                &&& mmio::last(log, mc(0x10)) & 1 == 0 || mmio::last(log, mc(0xab4)) & 0x8000_0000
                    == 0
                &&& mmio::last(log, pmc(0x38)) != u32::MAX
                &&& mmio::last(log, pmc(0x2c)) != u32::MAX
            },
    {
        let _ = parent(
            bus,
            "NVDEC oscillator unsupported",
            "NVDEC requires inherited 408 MHz PLLP",
        )?;
        if bus.read(CAR + 0x10) & HOST1X_BIT == 0 || bus.read(CAR + 0x4) & HOST1X_BIT != 0 {
            return Err("NVDEC requires active host1x");
        }
        if bus.read(MC + 0x10) & 1 != 0 && bus.read(MC + 0xab4) & 0x8000_0000 != 0 {
            return Err("NVDEC inherited SMMU translation is unsupported");
        }
        let original_source: u32 = bus.read(CAR + 0x698);
        if bus.read(PMC + 0x38) == u32::MAX || bus.read(PMC + 0x2c) == u32::MAX || original_source
            == u32::MAX {
            return Err("NVDEC platform registers unreadable");
        }
        Ok(NvdecPlatform { original_source })
    }

    fn power_on<R: Timed>(bus: &mut Bus<'_, R>) -> (r: Result<bool, &'static str>)
        ensures
            final(bus).port() == old(bus).port(),
            mmio::memory_kept(old(bus).log(), final(bus).log()),
            mmio::begins(mmio::writes(final(bus).log()), mmio::writes(old(bus).log())),
            r matches Err(e) ==> nvdec_power_failed(old(bus).log(), final(bus).log(), e),
            r matches Ok(on) ==> nvdec_powered(old(bus).log(), final(bus).log(), on),
    {
        let unreadable: &'static str = "NVDEC register is unreadable";
        let late: &'static str = "NVDEC power/reset timed out";
        assert(pmc(0x30) == PMC + 0x30 && pmc(0x38) == PMC + 0x38);
        assert(nvdec_complaints() == (Complaints { unreadable, late }));
        poll(bus, PMC + 0x30, 0x100, 0, 100_000_000, unreadable, late)?;
        let ghost free = bus.log();
        assert(polled(old(bus).log(), free, pmc(0x30), 0x100, 0));
        let status: u32 = bus.read(PMC + 0x38);
        let on: bool = status & NVDEC_POWER != 0;
        assert(bus.log() == nvdec_asked(free, status));
        if !on {
            bus.write(PMC + 0x30, 0x119);
            assert(bus.log() == nvdec_told(free, status));
            poll(bus, PMC + 0x30, 0x100, 0, 100_000_000, unreadable, late)?;
            let ghost taken = bus.log();
            assert(polled(nvdec_told(free, status), taken, pmc(0x30), 0x100, 0));
            poll(bus, PMC + 0x38, NVDEC_POWER, NVDEC_POWER, 100_000_000, unreadable, late)?;
        }
        Ok(on)
    }

    /// Starts the decoder.
    #[verifier::rlimit(100)]
    pub fn activate<R: Timed>(&self, bus: &mut Bus<'_, R>) -> (r: Result<(), &'static str>)
        ensures
            final(bus).port() == old(bus).port(),
            mmio::memory_kept(old(bus).log(), final(bus).log()),
            mmio::begins(mmio::writes(final(bus).log()), mmio::writes(old(bus).log())),
            match r {
                Ok(_) => nvdec_started(old(bus).log(), final(bus).log(), true) && nvdec_running(
                    final(bus).log(),
                ),
                Err(e) => nvdec_start_failed(old(bus).log(), final(bus).log(), e),
            },
    {
        bus.write(CAR + 0x2a8, NVDEC_BIT);
        bus.write(CAR + 0x2a0, NVDEC_BIT);
        let _ = bus.read(CAR + 0x298);
        bus.delay_us(10);
        let ghost o = old(bus).log();
        let ghost mut s = NvdecStart {
            reset: bus.log(),
            on: false,
            powered: o,
            clocked: o,
            open: o,
            released: o,
            scrubbed: o,
            raised: o,
        };
        assert(mmio::did(o, s.reset, nvdec_reset_steps()));
        assert(nvdec_starting(o, s, 0));
        let on: bool = Self::power_on(bus)?;
        proof {
            s = NvdecStart { on, powered: bus.log(), ..s };
        }
        bus.write(CAR + 0x698, PLLP_102MHZ);
        bus.write(CAR + 0x29c, NVDEC_BIT);
        let _ = bus.read(CAR + 0x298);
        bus.delay_us(10);
        bus.write(PMC + 0x34, NVDEC_POWER);
        proof {
            s = NvdecStart { clocked: bus.log(), ..s };
            assert(mmio::did(s.powered, s.clocked, nvdec_clock_steps()));
            assert(nvdec_starting(o, s, 1));
        }
        assert(pmc(0x2c) == PMC + 0x2c && nvdec_complaints().late == "NVDEC power/reset timed out");
        poll(
            bus,
            PMC + 0x2c,
            NVDEC_POWER,
            0,
            100_000_000,
            "NVDEC register is unreadable",
            "NVDEC power/reset timed out",
        )?;
        proof {
            s = NvdecStart { open: bus.log(), ..s };
        }
        bus.write(CAR + 0x2ac, NVDEC_BIT);
        let _ = bus.read(CAR + 0x2a4);
        bus.delay_us(10);
        proof {
            s = NvdecStart { released: bus.log(), ..s };
            assert(mmio::did(s.open, s.released, nvdec_release_steps()));
            assert(nvdec_starting(o, s, 2));
        }
        if !on {
            scrub_decoder(bus);
        }
        proof {
            s = NvdecStart { scrubbed: bus.log(), ..s };
        }
        bus.write(CAR + 0x698, PLLP);
        let _ = bus.read(CAR + 0x698);
        bus.delay_us(10);
        let drain: u32 = bus.read(MC + 0x970);
        bus.write(MC + 0x970, drain & !NVDEC_CLIENT);
        proof {
            s = NvdecStart { raised: bus.log(), ..s };
            assert(mmio::did(s.scrubbed, s.raised, nvdec_raise_steps(drain)));
            assert(mmio::value_at(s.raised, s.scrubbed.len() as int + 3) == drain);
            assert(nvdec_starting(o, s, 3));
            lemma_whole();
        }
        if bus.read(CAR + 0x2a4) & NVDEC_BIT != 0 || bus.read(CAR + 0x298) & NVDEC_BIT == 0
            || bus.read(CAR + 0x698) != PLLP {
            assert(mmio::read_back(s.raised, bus.log(), nvdec_registers(), false));
            return Err("NVDEC clock/reset readback mismatch");
        }
        assert(mmio::read_back(s.raised, bus.log(), nvdec_registers(), true));
        Ok(())
    }

    /// Stops the decoder, and waits until the memory controller has nothing of it
    /// left. The memory may be released only then.
    #[verifier::rlimit(60)]
    pub fn isolate<R: Timed>(&self, bus: &mut Bus<'_, R>) -> (r: Result<(), &'static str>)
        ensures
            final(bus).port() == old(bus).port(),
            mmio::memory_kept(old(bus).log(), final(bus).log()),
            mmio::begins(mmio::writes(final(bus).log()), mmio::writes(old(bus).log())),
            r matches Err(e) ==> nvdec_stop_failed(old(bus).log(), final(bus).log(), e),
            r is Ok ==> nvdec_isolated(old(bus).log(), final(bus).log(), self.original_source),
    {
        bus.write(CAR + 0x2a8, NVDEC_BIT);
        let _ = bus.read(CAR + 0x2a4);
        bus.delay_us(2000);
        bus.write(CAR + 0x2a0, NVDEC_BIT);
        let _ = bus.read(CAR + 0x298);
        let ghost a = bus.log();
        assert(mmio::did(old(bus).log(), a, nvdec_stop_steps()));
        if bus.read(CAR + 0x2a4) & NVDEC_BIT == 0 || bus.read(CAR + 0x298) & NVDEC_BIT != 0 {
            assert(nvdec_stopped(old(bus).log(), bus.log(), false));
            return Err("NVDEC DMA isolation failed");
        }
        let ghost stopped = bus.log();
        assert(nvdec_stopped(old(bus).log(), stopped, true));
        let drain: u32 = bus.read(MC + 0x970);
        bus.write(MC + 0x970, drain | NVDEC_CLIENT);
        assert(bus.log() == nvdec_draining(stopped, drain));
        assert(mc(0x974) == MC + 0x974 && nvdec_complaints().late == "NVDEC power/reset timed out");
        poll(
            bus,
            MC + 0x974,
            NVDEC_CLIENT,
            NVDEC_CLIENT,
            100_000_000,
            "NVDEC register is unreadable",
            "NVDEC power/reset timed out",
        )?;
        let ghost drained = bus.log();
        assert(nvdec_drained(old(bus).log(), stopped, drain, drained));
        let mut i: u32 = 0;
        while i < 6
            invariant
                bus.port() == old(bus).port(),
                i <= 6,
                mmio::quiet(drained, bus.log()),
                nvdec_drained(old(bus).log(), stopped, drain, drained),
                mmio::memory_kept(old(bus).log(), bus.log()),
                mmio::begins(mmio::writes(drained), mmio::writes(old(bus).log())),
                bus.log().len() == drained.len() + i,
                forall|k: int|
                    0 <= k < i ==> mmio::looked_at(
                        bus.log()[drained.len() + k],
                        #[trigger] nvdec_still()[k],
                        true,
                    ),
            decreases 6 - i,
        {
            let value: u32 = bus.read(MC + 0x974);
            if value & NVDEC_CLIENT == 0 {
                assert(mmio::read_back(drained, bus.log(), nvdec_still(), false));
                return Err("NVDEC MC drain unstable");
            }
            i = i + 1;
        }
        let ghost still = bus.log();
        assert(mmio::read_back(drained, still, nvdec_still(), true));
        let value: u32 = bus.read(MC + 0x970);
        bus.write(MC + 0x970, value & !NVDEC_CLIENT);
        let _ = bus.read(MC + 0x970);
        bus.write(CAR + 0x698, self.original_source);
        assert(mmio::did(still, bus.log(), nvdec_end_steps(value, self.original_source)));
        assert(mmio::value_at(bus.log(), still.len() as int) == value);
        Ok(())
    }
}

/// The graphics processor gets its clocks while it is in reset, then its clamp is taken off,
/// and only with its clock off and on again does it leave reset; each step is read back.
pub proof fn graphics_leaves_reset_last(clock: u32)
    ensures
        ({
            let s = gpu_start_steps(clock);
            &&& s.len() == 18
            &&& s[0] == Step::Write(0x6000_6284, 0x2100_0000)
            &&& s[2] == Step::Write(0x6000_667c, (clock & !0xff07_0000u32) | 0x0207_0000)
            &&& s[5] == Step::Write(0x6000_6290, 0x0100_0000)
            &&& s[8] == Step::Write(0x7000_e6d4, 0)
            &&& s[11] == Step::Write(0x6000_6288, 0x0100_0000)
            &&& s[13] == Step::Write(0x6000_6294, 0x0100_0000)
            &&& s[15] == Step::Write(0x6000_6284, 0x0100_0000)
            &&& s[4] == Step::Delay(10) && s[7] == Step::Delay(10) && s[10] == Step::Delay(10)
                && s[17] == Step::Delay(10)
        }),
{
}

/// The graphics processor is clamped before it is put into reset.
pub proof fn graphics_is_clamped_first(clock: u32, previous: GpuPlatformState)
    ensures
        ({
            let s = gpu_stop_steps();
            let b = gpu_back_steps(clock, previous);
            &&& s[0] == Step::Write(0x7000_e6d4, 1)
            &&& s[3] == Step::Write(0x6000_6290, 0x0100_0000)
            &&& b[1] == Step::Write(0x6000_667c, (clock & !0xff07_0000u32) | previous.power_clock)
            &&& b[2] == Step::Write(0x6000_6284, previous.gates)
            &&& b[3] == Step::Write(0x6000_6288, 0x2100_0000u32 & !previous.gates)
            &&& b[4] == Step::Write(
                if previous.reset == 0 {
                    0x6000_6294
                } else {
                    0x6000_6290
                },
                0x0100_0000,
            )
            &&& b[5] == Step::Write(0x7000_e6d4, previous.clamp)
        }),
{
}

/// A processor that runs has its clocks, its source, no reset and no clamp.
pub proof fn running_graphics_is_whole(state: GpuPlatformState)
    ensures
        gpu_running(state) <==> state.gates == 0x2100_0000 && state.reset == 0 && state.power_clock
            == 0x0207_0000 && state.clamp & 1 == 0,
{
}

/// The compositor is in reset without its clock while its power changes; then it gets a slow
/// clock and its clamp is taken off, it leaves reset, and its clock is raised. It stops the
/// other way, with two milliseconds for what is on its way.
pub proof fn the_compositor_leaves_reset_behind_its_clamp(source: u32)
    ensures
        ({
            let reset = vic_reset_steps();
            let clock = vic_clock_steps(source);
            let release = vic_release_steps();
            let raise = vic_raise_steps();
            let stop = vic_stop_steps();
            &&& reset[0] == Step::Write(0x6000_6290, 0x4_0000) && reset[2] == Step::Write(
                0x6000_6288,
                0x4_0000,
            )
            &&& clock[1] == Step::Write(0x6000_6678, source) && clock[2] == Step::Write(
                0x6000_6284,
                0x4_0000,
            ) && clock[5] == Step::Write(0x7000_e434, 0x80_0000)
            &&& release[1] == Step::Write(0x6000_6294, 0x4_0000)
            &&& raise[0] == Step::Write(0x6000_6678, 0x4000_0000)
            &&& stop[0] == Step::Write(0x6000_6290, 0x4_0000) && stop[2] == Step::Delay(2000)
                && stop[3] == Step::Write(0x6000_6288, 0x4_0000)
        }),
{
}

/// The decoder likewise: reset and clock off, clock and clamp, out of reset, full clock, and
/// its client let go.
pub proof fn the_decoder_leaves_reset_behind_its_clamp(drain: u32, source: u32)
    ensures
        ({
            let reset = nvdec_reset_steps();
            let clock = nvdec_clock_steps();
            let release = nvdec_release_steps();
            let raise = nvdec_raise_steps(drain);
            let stop = nvdec_stop_steps();
            let end = nvdec_end_steps(drain, source);
            &&& reset[0] == Step::Write(0x6000_62a8, 4) && reset[1] == Step::Write(0x6000_62a0, 4)
            &&& clock[0] == Step::Write(0x6000_6698, 0x8000_0006) && clock[1] == Step::Write(
                0x6000_629c,
                4,
            ) && clock[4] == Step::Write(0x7000_e434, 0x0200_0000)
            &&& release[0] == Step::Write(0x6000_62ac, 4)
            &&& raise[0] == Step::Write(0x6000_6698, 0x8000_0000) && raise[4] == Step::Write(
                0x7001_9970,
                drain & !0x20u32,
            )
            &&& stop[0] == Step::Write(0x6000_62a8, 4) && stop[2] == Step::Delay(2000) && stop[3]
                == Step::Write(0x6000_62a0, 4)
            &&& end[1] == Step::Write(0x7001_9970, drain & !0x20u32) && end[3] == Step::Write(
                0x6000_6698,
                source,
            )
        }),
{
}

/// The scrubbing of the decoder borrows its neighbour's clock where that is off, and gives it
/// back.
pub proof fn borrowed_clocks_are_given_back(neighbour: bool, source: u32, saved: u32)
    ensures
        ({
            let s = nvdec_scrub_steps(neighbour, source, saved);
            let n = s.len() as int;
            &&& neighbour ==> n == 8 && s[3] == Step::Write(0x6000_6554, saved | 0x8000_0200u32)
                && s[6] == Step::Write(0x6000_6554, saved)
            &&& !neighbour ==> n == 13 && s[2] == Step::Write(0x6000_669c, 0x8000_0006) && s[3]
                == Step::Write(0x6000_629c, 8) && s[6] == Step::Write(
                0x6000_6554,
                saved | 0x8000_0200u32,
            ) && s[9] == Step::Write(0x6000_6554, saved) && s[11] == Step::Write(0x6000_62a0, 8)
                && s[12] == Step::Write(0x6000_669c, source)
        }),
{
}

} // verus!
