//! Start of the signed firmware: the secure loader, the power processor with its
//! queues, and the context processor.
use vstd::prelude::*;

use crate::gpu::firmware;
use crate::gpu::firmware::{copied, put_words, Acr, Firmware};
use crate::gpu::gmmu;
use crate::gpu::gmmu::Ready;
use crate::mmio;
use crate::mmio::{Access, Bus, Dma, Timed};
use crate::words;
use crate::words::{unpack, word};

verus! {

pub const PMU: usize = 0x10_a000;

pub const GPCCS: usize = 0x41_a000;

pub const FECS: usize = 0x40_9000;

/// Where the secure loader's image is mapped.
pub const HS_VA: u32 = 0x1_0000;

pub const WPR_SELECT: usize = 0x10_0cd4;

pub const GR_INTR: usize = 0x40_0100;

/// Memory of the power processor, through a window.
pub const PMU_WINDOW: usize = 0x10_a1c4;

/// Areas of shared memory, beside those of translation and queue.
pub const SHADOW: usize = 14;

pub const HS: usize = 15;

pub const PMU_INSTANCE: usize = 16;

/// The reserved region, from the two registers that tell its bounds. Firmware made
/// the reservation: it is never changed here.
pub open spec fn wpr_spec(start: u32, limit: u32) -> Result<(u64, u64), &'static str> {
    let from = start / 256 * 0x1_0000;
    let to = limit / 256 * 0x1_0000 + 0x2_0000;
    if start == u32::MAX || limit == u32::MAX {
        Err("GR WPR reservation read returned all ones")
    } else if from == 0 || to <= from || to > 0x4_0000_0000 {
        Err("GR needs a valid firmware-owned Tegra WPR reservation")
    } else {
        Ok((from as u64, to as u64))
    }
}

pub fn wpr_bounds(start: u32, limit: u32) -> (r: Result<(u64, u64), &'static str>)
    ensures
        r == wpr_spec(start, limit),
{
    if start == u32::MAX || limit == u32::MAX {
        return Err("GR WPR reservation read returned all ones");
    }
    let from: u64 = (start / 256) as u64 * 0x1_0000;
    let to: u64 = (limit / 256) as u64 * 0x1_0000 + 0x2_0000;
    if from == 0 || to <= from || to > 0x4_0000_0000 {
        return Err("GR needs a valid firmware-owned Tegra WPR reservation");
    }
    Ok((from, to))
}

/// Reads one of the two bounds.
fn wpr_bound<R: Timed>(bus: &mut Bus<'_, R>, index: u32) -> (r: u32)
    ensures
        final(bus).port() == old(bus).port(),
        mmio::writes(final(bus).log()) == mmio::writes(old(bus).log()).push((WPR_SELECT, index)),
        mmio::memory_kept(old(bus).log(), final(bus).log()),
        final(bus).log() == old(bus).log().push(Access::Write(WPR_SELECT, index)).push(
            Access::Read(WPR_SELECT, r),
        ),
        forall|o: usize|
            #![trigger mmio::reads(final(bus).log(), o)]
            mmio::reads(final(bus).log(), o) == if o == WPR_SELECT {
                mmio::reads(old(bus).log(), o).push(r)
            } else {
                mmio::reads(old(bus).log(), o)
            },
{
    bus.write(WPR_SELECT, index);
    bus.read(WPR_SELECT)
}

/// What is wrong with the reservation, for an image of some size.
pub open spec fn room_error(start: u64, end: u64, image: nat) -> Option<&'static str> {
    if firmware::align_spec(image as int, 4096) > end - start {
        Some("GR firmware image exceeds Tegra WPR reservation")
    } else {
        None
    }
}

/// Finds the reservation, and how many bytes the image's copy takes.
pub fn reserve<R: Timed>(bus: &mut Bus<'_, R>, firmware: &Firmware) -> (r: Result<
    (u64, u64, usize),
    &'static str,
>)
    requires
        firmware.wf(),
    ensures
        final(bus).port() == old(bus).port(),
        mmio::extends(old(bus).log(), final(bus).log()),
        mmio::writes(final(bus).log()) == mmio::writes(old(bus).log()) + seq![
            (WPR_SELECT, 2u32),
            (WPR_SELECT, 3u32),
        ],
        ({
            let seen = mmio::reads(final(bus).log(), WPR_SELECT);
            let n = mmio::reads(old(bus).log(), WPR_SELECT).len() as int;
            match wpr_spec(seen[n], seen[n + 1]) {
                Err(e) => r == Err::<(u64, u64, usize), &'static str>(e),
                Ok((from, to)) => match firmware::wpr_error(from, firmware.pmu, firmware.fecs, 44) {
                    Some(e) => r == Err::<(u64, u64, usize), &'static str>(e),
                    None => {
                        let image = firmware::wpr_spec(from, firmware.pmu, firmware.fecs, 44);
                        match room_error(from, to, image.len()) {
                            Some(e) => r == Err::<(u64, u64, usize), &'static str>(e),
                            None => r matches Ok(v) && v.0 == from && v.1 == to && v.2
                                == firmware::align_spec(image.len() as int, 4096),
                        }
                    },
                },
            }
        }),
{
    let start: u32 = wpr_bound(bus, 2);
    let limit: u32 = wpr_bound(bus, 3);
    assert(mmio::writes(bus.log()) =~= mmio::writes(old(bus).log()) + seq![
        (WPR_SELECT, 2u32),
        (WPR_SELECT, 3u32),
    ]);
    let bounds = wpr_bounds(start, limit);
    assert(bounds == wpr_spec(start, limit));
    let (from, to): (u64, u64) = bounds?;
    let image: Vec<u8> = firmware.wpr(from, 44)?;
    proof {
        lemma_region_size(from, firmware.pmu, firmware.fecs, 44);
    }
    let size: usize = firmware::align(image.len(), 4096);
    if size as u64 > to - from {
        return Err("GR firmware image exceeds Tegra WPR reservation");
    }
    Ok((from, to, size))
}

/// The region is a few megabytes at most.
proof fn lemma_region_size(base: u64, pmu: firmware::Ls, fecs: firmware::Ls, dmem: u32)
    requires
        pmu.wf(),
        fecs.wf(),
    ensures
        firmware::wpr_spec(base, pmu, fecs, dmem).len() <= 0x40_0000,
{
    let first = firmware::with_pmu(base, pmu, dmem);
    assert(first.len() == firmware::arguments_at(220, pmu) + 256);
}

/// Some bits of a register that could be read were changed.
pub open spec fn was_masked(
    before: Seq<Access>,
    after: Seq<Access>,
    offset: usize,
    bits: u32,
    value: u32,
) -> bool {
    let previous = mmio::last(after, offset);
    &&& previous != u32::MAX
    &&& mmio::writes(after) == mmio::writes(before).push((offset, (previous & !bits) | value))
    &&& mmio::memory_kept(before, after)
    &&& after == before.push(Access::Read(offset, previous)).push(
        Access::Write(offset, (previous & !bits) | value),
    )
}

/// Some bits of a register were not changed: it is not there.
pub open spec fn mask_failed(
    before: Seq<Access>,
    after: Seq<Access>,
    offset: usize,
    e: &'static str,
) -> bool {
    &&& mmio::extends(before, after)
    &&& {
        e == "GR masked register read returned all ones" && mmio::was_unreadable(before, after, offset)
    }
}

/// Changes some bits of a register that can be read.
pub fn mask<R: Timed>(bus: &mut Bus<'_, R>, offset: usize, bits: u32, value: u32) -> (r: Result<
    (),
    &'static str,
>)
    ensures
        final(bus).port() == old(bus).port(),
        mmio::extends(old(bus).log(), final(bus).log()),
        match r {
            Ok(_) => was_masked(old(bus).log(), final(bus).log(), offset, bits, value),
            Err(e) => mask_failed(old(bus).log(), final(bus).log(), offset, e) && mmio::last(
                final(bus).log(),
                offset,
            ) == u32::MAX && mmio::quiet(old(bus).log(), final(bus).log()),
        },
        mmio::reads(final(bus).log(), offset).len() == mmio::reads(old(bus).log(), offset).len()
            + 1,
        forall|o: usize|
            #![trigger mmio::reads(final(bus).log(), o)]
            o != offset ==> mmio::reads(final(bus).log(), o) == mmio::reads(old(bus).log(), o),
{
    let previous: u32 = bus.read(offset);
    if previous == u32::MAX {
        return Err("GR masked register read returned all ones");
    }
    bus.write(offset, (previous & !bits) | value);
    Ok(())
}

/// A register was waited for, and the last look at it saw it ready.
pub open spec fn awaited(
    before: Seq<Access>,
    after: Seq<Access>,
    offset: usize,
    ready: Ready,
) -> bool {
    &&& mmio::quiet(before, after)
    &&& before.len() < after.len()
    &&& after.last() matches Access::Read(o, v) && o == offset && v != u32::MAX
        && gmmu::ready_spec(ready, v)
}

/// A register is not there, or it was not ready within two seconds.
pub open spec fn wait_failed(
    before: Seq<Access>,
    after: Seq<Access>,
    offset: usize,
    ready: Ready,
    e: &'static str,
) -> bool {
    let seen = mmio::last(after, offset);
    &&& mmio::quiet(before, after)
    &&& mmio::tried(before, after, offset)
    &&& if seen == u32::MAX {
        e == "GR completion register read returned all ones"
    } else {
        e == "GR firmware completion timeout" && !gmmu::ready_spec(ready, seen) && mmio::ran_out(
            before,
            after,
            2_000_000_000,
            200_000,
        )
    }
}

/// Polls a register for up to two seconds.
#[verifier::rlimit(60)]
pub fn wait_reg<R: Timed>(bus: &mut Bus<'_, R>, offset: usize, ready: Ready) -> (r: Result<
    (),
    &'static str,
>)
    ensures
        final(bus).port() == old(bus).port(),
        mmio::writes(final(bus).log()) == mmio::writes(old(bus).log()),
        mmio::memory_kept(old(bus).log(), final(bus).log()),
        r is Ok ==> final(bus).log().len() > 0 && (final(bus).log().last() matches Access::Read(
            o,
            v,
        ) && o == offset && v != u32::MAX && gmmu::ready_spec(ready, v)),
        r is Ok ==> gmmu::ready_spec(ready, mmio::last(final(bus).log(), offset)),
        r is Ok ==> awaited(old(bus).log(), final(bus).log(), offset, ready),
        r matches Err(e) ==> wait_failed(old(bus).log(), final(bus).log(), offset, ready, e),
        forall|o: usize|
            #![trigger mmio::reads(final(bus).log(), o)]
            o != offset ==> mmio::reads(final(bus).log(), o) == mmio::reads(old(bus).log(), o),
{
    let start: u64 = bus.now_ns();
    let deadline: u64 = start.saturating_add(2_000_000_000);
    let mut polls: u32 = 200_000;
    while polls > 0
        invariant
            bus.port() == old(bus).port(),
            polls <= 200_000,
            deadline == mmio::until(start, 2_000_000_000),
            bus.log().len() == old(bus).log().len() + 1 + 3 * (200_000 - polls),
            bus.log()[old(bus).log().len() as int] == Access::Time(start),
            polls < 200_000 ==> mmio::tried(old(bus).log(), bus.log(), offset) && mmio::last(
                bus.log(),
                offset,
            ) != u32::MAX && !gmmu::ready_spec(ready, mmio::last(bus.log(), offset)),
            polls == 200_000 ==> mmio::reads(bus.log(), offset) == mmio::reads(
                old(bus).log(),
                offset,
            ),
            mmio::writes(bus.log()) == mmio::writes(old(bus).log()),
            mmio::memory_kept(old(bus).log(), bus.log()),
            forall|o: usize|
                #![trigger mmio::reads(bus.log(), o)]
                o != offset ==> mmio::reads(bus.log(), o) == mmio::reads(old(bus).log(), o),
        decreases polls,
    {
        let value: u32 = bus.read(offset);
        if value == u32::MAX {
            return Err("GR completion register read returned all ones");
        }
        let done: bool = match ready {
            Ready::Clear(bits) => value & bits == 0,
            Ready::Any(bits) => value & bits != 0,
        };
        if done {
            return Ok(());
        }
        let now: u64 = bus.now_ns();
        if now >= deadline {
            return Err("GR firmware completion timeout");
        }
        bus.delay_us(10);
        polls = polls - 1;
    }
    Err("GR firmware completion timeout")
}

/// Two registers were read one after the other: what they hold is the same, or not.
pub open spec fn compared(
    log: Seq<Access>,
    at: int,
    one: usize,
    other: usize,
    same: bool,
) -> bool {
    &&& 0 <= at < log.len() - 1
    &&& log[at] matches Access::Read(o, v) && o == one && (log[at + 1] matches Access::Read(p, w) && p
        == other && (v == w) == same)
}

/// Two registers did not differ within two seconds.
pub open spec fn differ_failed(
    before: Seq<Access>,
    after: Seq<Access>,
    one: usize,
    other: usize,
    e: &'static str,
) -> bool {
    &&& e == "GR firmware completion timeout"
    &&& mmio::quiet(before, after)
    &&& exists|at: int|
        before.len() < at && after.len() - 4 <= at && #[trigger] compared(
            after,
            at,
            one,
            other,
            true,
        )
    &&& mmio::ran_out(before, after, 2_000_000_000, 200_000)
}

/// Two registers were waited for, and the last two looks saw them differ.
pub open spec fn differed(
    before: Seq<Access>,
    after: Seq<Access>,
    one: usize,
    other: usize,
) -> bool {
    &&& mmio::quiet(before, after)
    &&& before.len() < after.len() - 2
    &&& compared(after, after.len() - 2, one, other, false)
}

/// Waits until two registers differ.
fn wait_differ<R: Timed>(bus: &mut Bus<'_, R>, one: usize, other: usize) -> (r: Result<
    (),
    &'static str,
>)
    ensures
        final(bus).port() == old(bus).port(),
        mmio::writes(final(bus).log()) == mmio::writes(old(bus).log()),
        mmio::memory_kept(old(bus).log(), final(bus).log()),
        forall|o: usize|
            #![trigger mmio::reads(final(bus).log(), o)]
            o != one && o != other ==> mmio::reads(final(bus).log(), o) == mmio::reads(
                old(bus).log(),
                o,
            ),
        match r {
            Ok(_) => differed(old(bus).log(), final(bus).log(), one, other),
            Err(e) => differ_failed(old(bus).log(), final(bus).log(), one, other, e),
        },
{
    let start: u64 = bus.now_ns();
    let deadline: u64 = start.saturating_add(2_000_000_000);
    let mut polls: u32 = 200_000;
    while polls > 0
        invariant
            bus.port() == old(bus).port(),
            polls <= 200_000,
            deadline == mmio::until(start, 2_000_000_000),
            bus.log().len() == old(bus).log().len() + 1 + 4 * (200_000 - polls),
            bus.log()[old(bus).log().len() as int] == Access::Time(start),
            polls < 200_000 ==> compared(bus.log(), bus.log().len() - 4, one, other, true),
            forall|o: usize|
                #![trigger mmio::reads(bus.log(), o)]
                o != one && o != other ==> mmio::reads(bus.log(), o) == mmio::reads(
                    old(bus).log(),
                    o,
                ),
            mmio::writes(bus.log()) == mmio::writes(old(bus).log()),
            mmio::memory_kept(old(bus).log(), bus.log()),
        decreases polls,
    {
        let a: u32 = bus.read(one);
        let b: u32 = bus.read(other);
        if a != b {
            return Ok(());
        }
        let now: u64 = bus.now_ns();
        assert(compared(bus.log(), bus.log().len() - 3, one, other, true));
        if now >= deadline {
            return Err("GR firmware completion timeout");
        }
        bus.delay_us(10);
        polls = polls - 1;
    }
    Err("GR firmware completion timeout")
}

/// The state of graphics and of the power processor after a fault.
#[derive(Clone, Copy, Debug, PartialEq, Eq, Structural)]
pub struct GrFault {
    pub enable: u32,
    pub interrupts: u32,
    pub busy: u32,
    pub fecs0: u32,
    pub fecs1: u32,
    pub gpccs: u32,
    pub address: u32,
    pub data: u32,
    pub code: u32,
    pub class0: u32,
    pub class1: u32,
    pub pmu_cpu: u32,
    pub pmu_mailbox0: u32,
    pub pmu_mailbox1: u32,
    pub pmu_interrupts: u32,
    pub pmu_bind: u32,
    pub pmu_head: u32,
    pub pmu_tail: u32,
}

pub open spec fn fault_log(f: GrFault) -> Seq<Access> {
    seq![
        Access::Read(0x200, f.enable),
        Access::Read(0x40_0100, f.interrupts),
        Access::Read(0x40_060c, f.busy),
        Access::Read(0x40_9800, f.fecs0),
        Access::Read(0x40_9804, f.fecs1),
        Access::Read(0x41_a100, f.gpccs),
        Access::Read(0x40_0704, f.address),
        Access::Read(0x40_0708, f.data),
        Access::Read(0x40_0110, f.code),
        Access::Read(0x40_4200, f.class0),
        Access::Read(0x40_420c, f.class1),
        Access::Read(0x10_a100, f.pmu_cpu),
        Access::Read(0x10_a040, f.pmu_mailbox0),
        Access::Read(0x10_a044, f.pmu_mailbox1),
        Access::Read(0x10_a008, f.pmu_interrupts),
        Access::Read(0x10_a20c, f.pmu_bind),
        Access::Read(0x10_a4c8, f.pmu_head),
        Access::Read(0x10_a4cc, f.pmu_tail),
    ]
}

/// Takes the state of a fault. Nothing is changed.
pub fn diagnose<R: Timed>(bus: &mut Bus<'_, R>) -> (f: GrFault)
    ensures
        final(bus).port() == old(bus).port(),
        final(bus).log() == old(bus).log() + fault_log(f),
        mmio::writes(final(bus).log()) == mmio::writes(old(bus).log()),
{
    let enable: u32 = bus.read(0x200);
    let interrupts: u32 = bus.read(0x40_0100);
    let busy: u32 = bus.read(0x40_060c);
    let fecs0: u32 = bus.read(0x40_9800);
    let fecs1: u32 = bus.read(0x40_9804);
    let gpccs: u32 = bus.read(0x41_a100);
    let address: u32 = bus.read(0x40_0704);
    let data: u32 = bus.read(0x40_0708);
    let code: u32 = bus.read(0x40_0110);
    let class0: u32 = bus.read(0x40_4200);
    let class1: u32 = bus.read(0x40_420c);
    let pmu_cpu: u32 = bus.read(0x10_a100);
    let pmu_mailbox0: u32 = bus.read(0x10_a040);
    let pmu_mailbox1: u32 = bus.read(0x10_a044);
    let pmu_interrupts: u32 = bus.read(0x10_a008);
    let pmu_bind: u32 = bus.read(0x10_a20c);
    let pmu_head: u32 = bus.read(0x10_a4c8);
    let pmu_tail: u32 = bus.read(0x10_a4cc);
    let f = GrFault {
        enable,
        interrupts,
        busy,
        fecs0,
        fecs1,
        gpccs,
        address,
        data,
        code,
        class0,
        class1,
        pmu_cpu,
        pmu_mailbox0,
        pmu_mailbox1,
        pmu_interrupts,
        pmu_bind,
        pmu_head,
        pmu_tail,
    };
    assert(bus.log() =~= old(bus).log() + fault_log(f));
    f
}

/// Graphics was asked what it reports, and a notification was acknowledged.
pub open spec fn was_checked(before: Seq<Access>, after: Seq<Access>) -> bool {
    let status = mmio::last(after, GR_INTR);
    let asked = before.push(Access::Read(GR_INTR, status));
    after == if status != u32::MAX && status & !1u32 == 0 && status & 1 != 0 {
        asked.push(Access::Write(GR_INTR, 1))
    } else {
        asked
    }
}

/// Graphics may notify; anything else that it reports is a fault.
pub fn check_execution<R: Timed>(bus: &mut Bus<'_, R>) -> (r: Result<(), &'static str>)
    ensures
        final(bus).port() == old(bus).port(),
        mmio::extends(old(bus).log(), final(bus).log()),
        ({
            let status = mmio::last(final(bus).log(), GR_INTR);
            &&& was_checked(old(bus).log(), final(bus).log())
            &&& if status == u32::MAX || status & !1u32 != 0 {
                r == Err::<(), &'static str>("GR execution interrupt/fault") && mmio::writes(
                    final(bus).log(),
                ) == mmio::writes(old(bus).log())
            } else {
                r == Ok::<(), &'static str>(()) && mmio::writes(final(bus).log()) == if status & 1
                    != 0 {
                    mmio::writes(old(bus).log()).push((GR_INTR, 1u32))
                } else {
                    mmio::writes(old(bus).log())
                }
            }
        }),
{
    let status: u32 = bus.read(GR_INTR);
    if status == u32::MAX || status & !1 != 0 {
        return Err("GR execution interrupt/fault");
    }
    if status & 1 != 0 {
        bus.write(GR_INTR, 1);
    }
    Ok(())
}

/// Sizes of a processor's instruction and data memory.
pub open spec fn limits_spec(value: u32) -> Result<(u32, u32), &'static str> {
    let imem = value % 512 * 256;
    let dmem = value / 512 % 512 * 256;
    if value == u32::MAX {
        Err("Falcon SRAM geometry unreadable")
    } else if imem == 0 || dmem < 256 {
        Err("Falcon SRAM geometry invalid")
    } else {
        Ok((imem as u32, dmem as u32))
    }
}

pub fn limits_of(value: u32) -> (r: Result<(u32, u32), &'static str>)
    ensures
        r == limits_spec(value),
        r matches Ok(l) ==> 0 < l.0 <= 0x1_ff00 && 256 <= l.1 <= 0x1_ff00,
{
    if value == u32::MAX {
        return Err("Falcon SRAM geometry unreadable");
    }
    let imem: u32 = value % 512 * 256;
    let dmem: u32 = value / 512 % 512 * 256;
    if imem == 0 || dmem < 256 {
        return Err("Falcon SRAM geometry invalid");
    }
    Ok((imem, dmem))
}

/// Whether bytes fit behind an offset.
pub open spec fn fits(offset: u32, length: nat, unit: int, limit: u32) -> bool {
    offset as int % unit == 0 && offset + firmware::align_spec(length as int, unit) <= limit
}

/// What a write to data memory writes: where, then word after word.
pub open spec fn dmem_writes(falcon: usize, offset: u32, bytes: Seq<u8>) -> Seq<(usize, u32)> {
    seq![((falcon + 0x1c0) as usize, (0x100_0000 + offset) as u32)] + Seq::new(
        words::words(bytes.len()) as nat,
        |k: int| ((falcon + 0x1c4) as usize, words::word_of(bytes, k)),
    )
}

#[verifier::rlimit(60)]
pub fn dmem_write<R: Timed>(
    bus: &mut Bus<'_, R>,
    falcon: usize,
    offset: u32,
    bytes: &[u8],
    limit: u32,
) -> (r: Result<(), &'static str>)
    requires
        falcon <= 0x100_0000,
        limit <= 0x2_0000,
        bytes@.len() <= 0x10_0000,
    ensures
        final(bus).port() == old(bus).port(),
        mmio::memory_kept(old(bus).log(), final(bus).log()),
        forall|o: usize|
            #![trigger mmio::reads(final(bus).log(), o)]
            mmio::reads(final(bus).log(), o) == mmio::reads(old(bus).log(), o),
        if fits(offset, bytes@.len(), 4, limit) {
            r == Ok::<(), &'static str>(()) && mmio::writes(final(bus).log()) == mmio::writes(
                old(bus).log(),
            ) + dmem_writes(falcon, offset, bytes@)
        } else {
            r == Err::<(), &'static str>("Falcon DMEM write outside SRAM") && final(bus).log()
                == old(bus).log()
        },
{
    let length: usize = bytes.len();
    let count: usize = (length + 3) / 4;
    if offset % 4 != 0 || offset as u64 + 4 * count as u64 > limit as u64 {
        return Err("Falcon DMEM write outside SRAM");
    }
    let ghost start = mmio::writes(bus.log());
    let ghost whole = dmem_writes(falcon, offset, bytes@);
    bus.write(falcon + 0x1c0, 0x100_0000 + offset);
    assert(mmio::writes(bus.log()) =~= start + whole.take(1));
    let mut k: usize = 0;
    while k < count
        invariant
            bus.port() == old(bus).port(),
            k <= count,
            count == (length + 3) / 4,
            length == bytes@.len(),
            length <= 0x10_0000,
            falcon <= 0x100_0000,
            whole == dmem_writes(falcon, offset, bytes@),
            mmio::memory_kept(old(bus).log(), bus.log()),
            forall|o: usize|
                #![trigger mmio::reads(bus.log(), o)]
                mmio::reads(bus.log(), o) == mmio::reads(old(bus).log(), o),
            mmio::writes(bus.log()) =~= start + whole.take(1 + k),
        decreases count - k,
    {
        let value: u32 = word(bytes, k);
        bus.write(falcon + 0x1c4, value);
        assert(whole[1 + k] == ((falcon + 0x1c4) as usize, value));
        k = k + 1;
    }
    assert(whole.take(1 + count) =~= whole);
    Ok(())
}

/// Reads data memory of the power processor.
#[verifier::rlimit(60)]
pub fn dmem_read<R: Timed>(bus: &mut Bus<'_, R>, offset: u32, bytes: &mut [u8], limit: u32) -> (r:
    Result<(), &'static str>)
    requires
        limit <= 0x2_0000,
        old(bytes)@.len() <= 0x10_0000,
    ensures
        final(bus).port() == old(bus).port(),
        mmio::memory_kept(old(bus).log(), final(bus).log()),
        forall|o: usize|
            #![trigger mmio::reads(final(bus).log(), o)]
            o != PMU_WINDOW ==> mmio::reads(final(bus).log(), o) == mmio::reads(
                old(bus).log(),
                o,
            ),
        final(bytes)@.len() == old(bytes)@.len(),
        if fits(offset, old(bytes)@.len(), 4, limit) {
            let n = mmio::reads(old(bus).log(), PMU_WINDOW).len();
            let seen = mmio::reads(final(bus).log(), PMU_WINDOW);
            &&& r == Ok::<(), &'static str>(())
            &&& mmio::writes(final(bus).log()) == mmio::writes(old(bus).log()).push(
                ((PMU + 0x1c0) as usize, (0x200_0000 + offset) as u32),
            )
            &&& seen.len() == n + words::words(old(bytes)@.len())
            &&& forall|j: int|
                0 <= j < final(bytes)@.len() ==> #[trigger] final(bytes)@[j] == words::byte_of(
                    seen[n + j / 4],
                    j % 4,
                )
        } else {
            r == Err::<(), &'static str>("PMU DMEM read outside SRAM") && final(bus).log() == old(bus).log() && final(bytes)@ == old(bytes)@
        },
{
    let length: usize = bytes.len();
    let count: usize = (length + 3) / 4;
    if offset % 4 != 0 || offset as u64 + 4 * count as u64 > limit as u64 {
        return Err("PMU DMEM read outside SRAM");
    }
    bus.write(PMU + 0x1c0, 0x200_0000 + offset);
    let ghost n = mmio::reads(old(bus).log(), PMU_WINDOW).len() as int;
    let mut k: usize = 0;
    while k < count
        invariant
            bus.port() == old(bus).port(),
            k <= count,
            count == (length + 3) / 4,
            length == bytes@.len(),
            length == old(bytes)@.len(),
            length <= 0x10_0000,
            n == mmio::reads(old(bus).log(), PMU_WINDOW).len(),
            mmio::memory_kept(old(bus).log(), bus.log()),
            mmio::writes(bus.log()) == mmio::writes(old(bus).log()).push(
                ((PMU + 0x1c0) as usize, (0x200_0000 + offset) as u32),
            ),
            mmio::reads(bus.log(), PMU_WINDOW).len() == n + k,
            forall|o: usize|
                #![trigger mmio::reads(bus.log(), o)]
                o != PMU_WINDOW ==> mmio::reads(bus.log(), o) == mmio::reads(old(bus).log(), o),
            forall|j: int|
                0 <= j < length && j < 4 * k ==> #[trigger] bytes@[j] == words::byte_of(
                    mmio::reads(bus.log(), PMU_WINDOW)[n + j / 4],
                    j % 4,
                ),
        decreases count - k,
    {
        let value: u32 = bus.read(PMU_WINDOW);
        unpack(bytes, 4 * k, value);
        assert forall|j: int| 0 <= j < length && j < 4 * (k + 1) implies #[trigger] bytes@[j]
            == words::byte_of(mmio::reads(bus.log(), PMU_WINDOW)[n + j / 4], j % 4) by {
            assert(j >= 4 * k ==> j / 4 == k && j % 4 == j - 4 * k);
        }
        k = k + 1;
    }
    Ok(())
}

/// What a write to instruction memory writes for one block of 256 bytes: its tag,
/// then word after word, filled up with zeros.
pub open spec fn block_writes(falcon: usize, tag: u32, bytes: Seq<u8>, block: int) -> Seq<
    (usize, u32),
> {
    seq![((falcon + 0x188) as usize, (tag + block) as u32)] + Seq::new(
        64,
        |k: int| ((falcon + 0x184) as usize, words::word_of(bytes, 64 * block + k)),
    )
}

pub open spec fn blocks_writes(falcon: usize, tag: u32, bytes: Seq<u8>, count: int) -> Seq<
    (usize, u32),
>
    decreases count,
{
    if count <= 0 {
        seq![]
    } else {
        blocks_writes(falcon, tag, bytes, count - 1) + block_writes(falcon, tag, bytes, count - 1)
    }
}

pub open spec fn imem_writes(falcon: usize, offset: u32, tag: u32, bytes: Seq<u8>) -> Seq<
    (usize, u32),
> {
    seq![((falcon + 0x180) as usize, (0x100_0000 + offset) as u32)] + blocks_writes(
        falcon,
        tag,
        bytes,
        (bytes.len() as int + 255) / 256,
    )
}

#[verifier::rlimit(100)]
pub fn imem_write<R: Timed>(
    bus: &mut Bus<'_, R>,
    falcon: usize,
    offset: u32,
    tag: u32,
    bytes: &[u8],
    limit: u32,
) -> (r: Result<(), &'static str>)
    requires
        falcon <= 0x100_0000,
        limit <= 0x2_0000,
        tag <= 0xff_ffff,
        bytes@.len() <= 0x10_0000,
    ensures
        final(bus).port() == old(bus).port(),
        mmio::memory_kept(old(bus).log(), final(bus).log()),
        if fits(offset, bytes@.len(), 256, limit) {
            r == Ok::<(), &'static str>(()) && mmio::writes(final(bus).log()) == mmio::writes(
                old(bus).log(),
            ) + imem_writes(falcon, offset, tag, bytes@)
        } else {
            r == Err::<(), &'static str>("Falcon IMEM write outside SRAM") && final(bus).log()
                == old(bus).log()
        },
{
    let length: usize = bytes.len();
    let count: usize = (length + 255) / 256;
    if offset % 256 != 0 || offset as u64 + 256 * count as u64 > limit as u64 {
        return Err("Falcon IMEM write outside SRAM");
    }
    let ghost start = mmio::writes(bus.log());
    bus.write(falcon + 0x180, 0x100_0000 + offset);
    let ghost head = start.push(((falcon + 0x180) as usize, (0x100_0000 + offset) as u32));
    let mut block: usize = 0;
    assert(mmio::writes(bus.log()) =~= head + blocks_writes(falcon, tag, bytes@, 0));
    while block < count
        invariant
            bus.port() == old(bus).port(),
            block <= count,
            count == (length + 255) / 256,
            length == bytes@.len(),
            length <= 0x10_0000,
            falcon <= 0x100_0000,
            tag <= 0xff_ffff,
            mmio::memory_kept(old(bus).log(), bus.log()),
            mmio::writes(bus.log()) =~= head + blocks_writes(falcon, tag, bytes@, block as int),
        decreases count - block,
    {
        let ghost before = mmio::writes(bus.log());
        let ghost whole = block_writes(falcon, tag, bytes@, block as int);
        bus.write(falcon + 0x188, tag + block as u32);
        assert(mmio::writes(bus.log()) =~= before + whole.take(1));
        let mut k: usize = 0;
        while k < 64
            invariant
                bus.port() == old(bus).port(),
                k <= 64,
                block < count,
                count <= 0x1001,
                falcon <= 0x100_0000,
                whole == block_writes(falcon, tag, bytes@, block as int),
                mmio::memory_kept(old(bus).log(), bus.log()),
                mmio::writes(bus.log()) =~= before + whole.take(1 + k),
            decreases 64 - k,
        {
            let value: u32 = word(bytes, 64 * block + k);
            bus.write(falcon + 0x184, value);
            assert(whole[1 + k] == ((falcon + 0x184) as usize, value));
            k = k + 1;
        }
        assert(whole.take(65) =~= whole);
        assert(blocks_writes(falcon, tag, bytes@, block + 1) == blocks_writes(
            falcon,
            tag,
            bytes@,
            block as int,
        ) + whole);
        block = block + 1;
    }
    assert(mmio::writes(bus.log()) =~= start + imem_writes(falcon, offset, tag, bytes@));
    Ok(())
}

/// The register that starts a processor: in secure mode its other name.
pub open spec fn start_register(falcon: usize, control: u32) -> usize {
    (falcon + if control & 0x40 != 0 {
        0x130int
    } else {
        0x100
    }) as usize
}

/// A processor was not started: its control register is not there.
pub open spec fn start_failed(
    before: Seq<Access>,
    after: Seq<Access>,
    falcon: usize,
    e: &'static str,
) -> bool {
    &&& mmio::extends(before, after)
    &&& {
        e == "Falcon CPU control unreadable" && mmio::was_unreadable(
            before,
            after,
            (falcon + 0x100) as usize,
        )
    }
}

pub fn start<R: Timed>(bus: &mut Bus<'_, R>, falcon: usize) -> (r: Result<(), &'static str>)
    requires
        falcon <= 0x100_0000,
    ensures
        final(bus).port() == old(bus).port(),
        mmio::memory_kept(old(bus).log(), final(bus).log()),
        r matches Err(e) ==> start_failed(old(bus).log(), final(bus).log(), falcon, e),
        ({
            let control = mmio::reads(final(bus).log(), (falcon + 0x100) as usize).last();
            if control == u32::MAX {
                r == Err::<(), &'static str>("Falcon CPU control unreadable") && mmio::writes(
                    final(bus).log(),
                ) == mmio::writes(old(bus).log())
            } else {
                r == Ok::<(), &'static str>(()) && mmio::writes(final(bus).log()) == mmio::writes(
                    old(bus).log(),
                ).push((start_register(falcon, control), 2u32))
            }
        }),
        forall|o: usize|
            #![trigger mmio::reads(final(bus).log(), o)]
            o != falcon + 0x100 ==> mmio::reads(final(bus).log(), o) == mmio::reads(
                old(bus).log(),
                o,
            ),
{
    let control: u32 = bus.read(falcon + 0x100);
    if control == u32::MAX {
        return Err("Falcon CPU control unreadable");
    }
    let offset: usize = if control & 0x40 != 0 {
        falcon + 0x130
    } else {
        falcon + 0x100
    };
    bus.write(offset, 2);
    Ok(())
}

/// A queue in the power processor's data memory, with the registers of its ends.
#[derive(Clone, Copy, Debug, PartialEq, Eq, Structural)]
pub struct Queue {
    pub offset: u32,
    pub size: u32,
    pub head: usize,
    pub tail: usize,
}

impl Queue {
    pub open spec fn wf(self) -> bool {
        &&& self.offset <= 0xffff
        &&& 32 <= self.size <= 0xffff
        &&& self.offset % 4 == 0
        &&& self.head != PMU_WINDOW
        &&& self.tail != PMU_WINDOW
    }
}

/// Where a message is, and how many bytes there are.
pub open spec fn message_spec(queue: Queue, head: u32, tail: u32) -> Result<
    (u32, u32),
    &'static str,
> {
    let end = queue.offset + queue.size;
    let start = if head < tail {
        queue.offset
    } else {
        tail
    };
    if head < queue.offset || head > end || tail < queue.offset || tail > end {
        Err("PMU message queue pointer outside DMEM queue")
    } else if head - start < 4 {
        Err("PMU response header truncated")
    } else {
        Ok((start, (head - start) as u32))
    }
}

pub fn message_at(queue: &Queue, head: u32, tail: u32) -> (r: Result<(u32, u32), &'static str>)
    requires
        queue.wf(),
    ensures
        r == message_spec(*queue, head, tail),
{
    let end: u32 = queue.offset + queue.size;
    if head < queue.offset || head > end || tail < queue.offset || tail > end {
        return Err("PMU message queue pointer outside DMEM queue");
    }
    let start: u32 = if head < tail {
        queue.offset
    } else {
        tail
    };
    if head - start < 4 {
        return Err("PMU response header truncated");
    }
    Ok((start, head - start))
}

/// Whether a message of some size can be there.
pub open spec fn size_ok(size: u8, available: u32) -> bool {
    4 <= size <= 128 && firmware::align_spec(size as int, 4) <= available
}

/// The bytes that the power processor's window gave at last.
pub open spec fn window_bytes(log: Seq<Access>, length: nat) -> Seq<u8> {
    let seen = mmio::reads(log, PMU_WINDOW);
    Seq::new(
        length,
        |j: int| words::byte_of(seen[seen.len() - words::words(length) + j / 4], j % 4),
    )
}

/// A message was taken off a queue: what the window gave is a message where the
/// queue has one, and the end moved behind it, by whole words.
pub open spec fn was_received(
    before: Seq<Access>,
    after: Seq<Access>,
    queue: Queue,
    head: u32,
    tail: u32,
    length: nat,
) -> bool {
    &&& mmio::extends(before, after)
    &&& {
        message_spec(queue, head, tail) matches Ok((start, available)) && {
            &&& size_ok(length as u8, available)
            &&& length <= 128
            &&& mmio::writes(after) == mmio::writes(before) + seq![
                ((PMU + 0x1c0) as usize, (0x200_0000 + start) as u32),
                ((PMU + 0x1c0) as usize, (0x200_0000 + start) as u32),
                (queue.tail, (start + firmware::align_spec(length as int, 4)) as u32),
            ]
        }
    }
}

/// The ends of a queue were read.
pub open spec fn was_asked(
    before: Seq<Access>,
    after: Seq<Access>,
    queue: Queue,
    head: u32,
    tail: u32,
) -> bool {
    &&& mmio::quiet(before, after)
    &&& after.len() >= before.len() + 2
    &&& after[after.len() - 2] == Access::Read(queue.head, head)
    &&& after[after.len() - 1] == Access::Read(queue.tail, tail)
}

/// A message cannot be taken: the queue's ends do not enclose one, it is not in data
/// memory, or its size is wrong.
pub open spec fn message_refused(
    asked: Seq<Access>,
    after: Seq<Access>,
    queue: Queue,
    head: u32,
    tail: u32,
    dmem: u32,
    e: &'static str,
) -> bool {
    match message_spec(queue, head, tail) {
        Err(x) => e == x && after == asked,
        Ok((start, available)) => if !fits(start, 4, 4, dmem) {
            e == "PMU DMEM read outside SRAM" && after == asked
        } else {
            let size = window_bytes(after, 4)[1];
            &&& mmio::writes(after) == mmio::writes(asked).push(
                ((PMU + 0x1c0) as usize, (0x200_0000 + start) as u32),
            )
            &&& if size_ok(size, available) {
                e == "PMU DMEM read outside SRAM" && !fits(start, size as nat, 4, dmem)
            } else {
                e == "PMU response size invalid"
            }
        },
    }
}

/// No message came, or it was refused.
pub open spec fn receive_failed(
    before: Seq<Access>,
    after: Seq<Access>,
    queue: Queue,
    dmem: u32,
    e: &'static str,
) -> bool {
    &&& mmio::extends(before, after)
    &&& {
        ||| differ_failed(before, after, queue.head, queue.tail, e)
        ||| exists|asked: Seq<Access>, head: u32, tail: u32| #[trigger]
            was_asked(before, asked, queue, head, tail) && message_refused(
                asked,
                after,
                queue,
                head,
                tail,
                dmem,
                e,
            ) && mmio::extends(asked, after)
    }
}

/// Takes the next message off a queue.
#[verifier::rlimit(60)]
fn receive<R: Timed>(bus: &mut Bus<'_, R>, queue: &Queue, dmem: u32) -> (r: Result<
    Vec<u8>,
    &'static str,
>)
    requires
        queue.wf(),
        dmem <= 0x2_0000,
    ensures
        final(bus).port() == old(bus).port(),
        mmio::memory_kept(old(bus).log(), final(bus).log()),
        mmio::begins(mmio::writes(final(bus).log()), mmio::writes(old(bus).log())),
        r matches Err(e) ==> receive_failed(old(bus).log(), final(bus).log(), *queue, dmem, e),
        r matches Ok(message) ==> {
            &&& 4 <= message@.len() <= 128
            &&& message@ == window_bytes(final(bus).log(), message@.len())
            &&& exists|head: u32, tail: u32| #[trigger]
                was_received(
                    old(bus).log(),
                    final(bus).log(),
                    *queue,
                    head,
                    tail,
                    message@.len(),
                )
        },
{
    wait_differ(bus, queue.head, queue.tail)?;
    let head: u32 = bus.read(queue.head);
    let tail: u32 = bus.read(queue.tail);
    let ghost asked = bus.log();
    assert(was_asked(old(bus).log(), asked, *queue, head, tail));
    let (start, available): (u32, u32) = message_at(queue, head, tail)?;
    let mut header: [u8; 4] = [0; 4];
    dmem_read(bus, start, &mut header, dmem)?;
    let size: u8 = header[1];
    assert(size == window_bytes(bus.log(), 4)[1]);
    let rounded: u32 = (size as u32 + 3) / 4 * 4;
    if size < 4 || size > 128 || rounded > available {
        return Err("PMU response size invalid");
    }
    let mut message: Vec<u8> = vec![0; size as usize];
    dmem_read(bus, start, message.as_mut_slice(), dmem)?;
    bus.write(queue.tail, start + rounded);
    proof {
        let seen = mmio::reads(bus.log(), PMU_WINDOW);
        assert forall|j: int| 0 <= j < message@.len() implies #[trigger] message@[j]
            == window_bytes(bus.log(), message@.len())[j] by {
            assert(seen.len() - words::words(message@.len()) + j / 4 >= 0);
        }
        assert(message@ =~= window_bytes(bus.log(), message@.len()));
    }
    assert(mmio::writes(bus.log()) =~= mmio::writes(old(bus).log()) + seq![
        ((PMU + 0x1c0) as usize, (0x200_0000 + start) as u32),
        ((PMU + 0x1c0) as usize, (0x200_0000 + start) as u32),
        (queue.tail, (start + rounded) as u32),
    ]);
    assert(was_received(old(bus).log(), bus.log(), *queue, head, tail, message@.len()));
    Ok(message)
}

/// Whether a command has to go to the start of the queue, and whether the mark for
/// that still fits.
pub open spec fn rewind_spec(queue: Queue, head: u32, tail: u32) -> Result<bool, &'static str> {
    let end = queue.offset + queue.size;
    if head < queue.offset || head > end || tail < queue.offset || tail > end {
        Err("PMU command queue pointer outside DMEM queue")
    } else if head >= tail && end - head < 20 {
        if end - head < 4 {
            Err("PMU queue cannot hold rewind header")
        } else {
            Ok(true)
        }
    } else {
        Ok(false)
    }
}

pub fn rewinds(queue: &Queue, head: u32, tail: u32) -> (r: Result<bool, &'static str>)
    requires
        queue.wf(),
    ensures
        r == rewind_spec(*queue, head, tail),
{
    let end: u32 = queue.offset + queue.size;
    if head < queue.offset || head > end || tail < queue.offset || tail > end {
        return Err("PMU command queue pointer outside DMEM queue");
    }
    if head >= tail && end - head < 20 {
        if end - head < 4 {
            return Err("PMU queue cannot hold rewind header");
        }
        return Ok(true);
    }
    Ok(false)
}

/// Free bytes from a place on, up to what is not read yet or to the mark at the end.
pub open spec fn room_spec(queue: Queue, position: u32, tail: u32) -> int {
    if position < tail {
        tail - position - 1
    } else {
        queue.offset + queue.size - position - 4
    }
}

/// A command: its unit, length, flags and sequence, then its kind and argument.
pub open spec fn packet_spec(kind: u8, sequence: u8, argument: u32) -> Seq<u8> {
    Seq::new(
        16,
        |i: int|
            if i == 0 {
                0x0au8
            } else if i == 1 {
                16
            } else if i == 2 {
                3
            } else if i == 3 {
                sequence
            } else if i == 4 {
                kind
            } else if kind == 0 && 8 <= i < 12 {
                words::byte_of(argument, i - 8)
            } else if kind != 0 && 12 <= i {
                words::byte_of(argument, i - 12)
            } else {
                0
            },
    )
}

pub fn packet(kind: u8, sequence: u8, argument: u32) -> (r: [u8; 16])
    ensures
        r@ == packet_spec(kind, sequence, argument),
{
    let mut bytes: [u8; 16] = [0; 16];
    bytes[0] = 0x0a;
    bytes[1] = 16;
    bytes[2] = 3;
    bytes[3] = sequence;
    bytes[4] = kind;
    let at: usize = if kind == 0 {
        8
    } else {
        12
    };
    bytes[at] = words::byte(argument, 0);
    bytes[at + 1] = words::byte(argument, 1);
    bytes[at + 2] = words::byte(argument, 2);
    bytes[at + 3] = words::byte(argument, 3);
    assert(bytes@ =~= packet_spec(kind, sequence, argument));
    bytes
}

/// What a message is to who waits for a command.
#[derive(Clone, Copy, Debug, PartialEq, Eq)]
pub enum Reply {
    /// Not the answer.
    Other,
    Done,
    Failed(&'static str),
}

pub open spec fn reply_spec(message: Seq<u8>, kind: u8, sequence: u8, argument: u32) -> Reply {
    let expected = if kind == 0 {
        0
    } else {
        argument
    };
    if message[0] != 0x0a || message[3] != sequence {
        Reply::Other
    } else if message.len() != 12 || message[4] != kind {
        Reply::Failed("PMU ACR response format invalid")
    } else if firmware::at(message, 8) != expected {
        Reply::Failed("PMU ACR command failed")
    } else {
        Reply::Done
    }
}

pub fn judge(message: &Vec<u8>, kind: u8, sequence: u8, argument: u32) -> (r: Reply)
    requires
        message@.len() >= 4,
    ensures
        r == reply_spec(message@, kind, sequence, argument),
{
    if message[0] != 0x0a || message[3] != sequence {
        return Reply::Other;
    }
    if message.len() != 12 || message[4] != kind {
        return Reply::Failed("PMU ACR response format invalid");
    }
    let expected: u32 = if kind == 0 {
        0
    } else {
        argument
    };
    match firmware::word(message.as_slice(), 8) {
        Err(e) => Reply::Failed(e),
        Ok(result) => {
            if result != expected {
                Reply::Failed("PMU ACR command failed")
            } else {
                Reply::Done
            }
        },
    }
}

/// What sending a command writes: the mark that the queue starts anew, where it does,
/// then the command and the queue's end.
pub open spec fn command_writes(queue: Queue, head: u32, tail: u32, bytes: Seq<u8>) -> Seq<
    (usize, u32),
> {
    let rewinds = rewind_spec(queue, head, tail) == Ok::<bool, &'static str>(true);
    let position = if rewinds {
        queue.offset
    } else {
        head
    };
    (if rewinds {
        dmem_writes(PMU, head, seq![0u8, 4, 0, 0])
    } else {
        seq![]
    }) + dmem_writes(PMU, position, bytes) + seq![(queue.head, (position + 16) as u32)]
}

/// A command was sent, and the window gave its answer at last.
pub open spec fn was_answered(
    before: Seq<Access>,
    after: Seq<Access>,
    queue: Queue,
    kind: u8,
    sequence: u8,
    argument: u32,
) -> bool {
    &&& mmio::extends(before, after)
    &&& reply_spec(window_bytes(after, 12), kind, sequence, argument) == Reply::Done
    &&& exists|head: u32, tail: u32|
        mmio::begins(
            mmio::writes(after),
            mmio::writes(before) + #[trigger] command_writes(
                queue,
                head,
                tail,
                packet_spec(kind, sequence, argument),
            ),
        )
}

/// A command was not sent: the queue's ends are wrong, it is full, or it is not in data
/// memory.
pub open spec fn command_refused(
    before: Seq<Access>,
    after: Seq<Access>,
    queue: Queue,
    dmem: u32,
    head: u32,
    tail: u32,
    e: &'static str,
) -> bool {
    &&& mmio::extends(before, after)
    &&& {
        let asked = before.push(Access::Read(queue.head, head)).push(Access::Read(queue.tail, tail));
        match rewind_spec(queue, head, tail) {
            Err(x) => e == x && after == asked,
            Ok(again) => if again && !fits(head, 4, 4, dmem) {
                e == "Falcon DMEM write outside SRAM" && after == asked
            } else {
                let position = if again {
                    queue.offset
                } else {
                    head
                };
                &&& mmio::extends(asked, after)
                &&& mmio::writes(after) == mmio::writes(before) + if again {
                    dmem_writes(PMU, head, seq![0u8, 4, 0, 0])
                } else {
                    seq![]
                }
                &&& if room_spec(queue, position, tail) < 16 {
                    e == "PMU private command queue full"
                } else {
                    e == "Falcon DMEM write outside SRAM" && !fits(position, 16, 4, dmem)
                }
            },
        }
    }
}

/// A command was sent.
pub open spec fn was_sent(
    before: Seq<Access>,
    after: Seq<Access>,
    queue: Queue,
    head: u32,
    tail: u32,
    bytes: Seq<u8>,
) -> bool {
    &&& mmio::extends(before, after)
    &&& mmio::writes(after) == mmio::writes(before) + command_writes(queue, head, tail, bytes)
}

/// A command that was sent has no good answer: no message comes, the answer is wrong, or
/// it is not among sixteen messages.
pub open spec fn unanswered(
    sent: Seq<Access>,
    after: Seq<Access>,
    from: Queue,
    dmem: u32,
    kind: u8,
    sequence: u8,
    argument: u32,
    e: &'static str,
) -> bool {
    ||| exists|a: Seq<Access>|
        mmio::extends(sent, a) && #[trigger] receive_failed(a, after, from, dmem, e)
    ||| exists|n: nat|
        mmio::extends(sent, after) && 4 <= n <= 128 && #[trigger] reply_spec(
            window_bytes(after, n),
            kind,
            sequence,
            argument,
        ) == Reply::Failed(e)
    ||| exists|n: nat|
        {
            &&& e == "PMU ACR response sequence missing"
            &&& mmio::extends(sent, after)
            &&& mmio::writes(after).len() == mmio::writes(sent).len() + 48
            &&& 4 <= n <= 128
            &&& #[trigger] reply_spec(window_bytes(after, n), kind, sequence, argument)
                == Reply::Other
        }
}

/// A command was not sent, or has no good answer.
pub open spec fn command_failed(
    before: Seq<Access>,
    after: Seq<Access>,
    to: Queue,
    from: Queue,
    dmem: u32,
    kind: u8,
    sequence: u8,
    argument: u32,
    e: &'static str,
) -> bool {
    &&& mmio::extends(before, after)
    &&& {
        ||| exists|head: u32, tail: u32| #[trigger]
            command_refused(before, after, to, dmem, head, tail, e)
        ||| exists|sent: Seq<Access>, head: u32, tail: u32|
            #[trigger] was_sent(
                before,
                sent,
                to,
                head,
                tail,
                packet_spec(kind, sequence, argument),
            ) && unanswered(sent, after, from, dmem, kind, sequence, argument, e)
    }
}

/// Sends a command, and waits for its answer among at most sixteen messages.
#[verifier::rlimit(100)]
fn command<R: Timed>(
    bus: &mut Bus<'_, R>,
    to: &Queue,
    from: &Queue,
    dmem: u32,
    kind: u8,
    sequence: u8,
    argument: u32,
) -> (r: Result<(), &'static str>)
    requires
        to.wf(),
        from.wf(),
        dmem <= 0x2_0000,
    ensures
        final(bus).port() == old(bus).port(),
        mmio::memory_kept(old(bus).log(), final(bus).log()),
        mmio::begins(mmio::writes(final(bus).log()), mmio::writes(old(bus).log())),
        match r {
            Ok(_) => was_answered(
                old(bus).log(),
                final(bus).log(),
                *to,
                kind,
                sequence,
                argument,
            ),
            Err(e) => command_failed(
                old(bus).log(),
                final(bus).log(),
                *to,
                *from,
                dmem,
                kind,
                sequence,
                argument,
                e,
            ),
        },
{
    let bytes: [u8; 16] = packet(kind, sequence, argument);
    let head: u32 = bus.read(to.head);
    let tail: u32 = bus.read(to.tail);
    let end: u32 = to.offset + to.size;
    let mut position: u32 = head;
    let again: bool = match rewinds(to, head, tail) {
        Ok(again) => again,
        Err(e) => {
            assert(command_refused(old(bus).log(), bus.log(), *to, dmem, head, tail, e));
            return Err(e);
        },
    };
    if again {
        let mark: [u8; 4] = [0, 4, 0, 0];
        assert(mark@ =~= seq![0u8, 4, 0, 0]);
        match dmem_write(bus, PMU, head, &mark, dmem) {
            Ok(_) => {},
            Err(e) => {
                assert(command_refused(old(bus).log(), bus.log(), *to, dmem, head, tail, e));
                return Err(e);
            },
        }
        position = to.offset;
    }
    assert(mmio::writes(bus.log()) =~= mmio::writes(old(bus).log()) + if again {
        dmem_writes(PMU, head, seq![0u8, 4, 0, 0])
    } else {
        seq![]
    });
    let available: u32 = if position < tail {
        tail - position - 1
    } else {
        end - position - 4
    };
    assert(available == room_spec(*to, position, tail));
    if available < 16 {
        let e: &'static str = "PMU private command queue full";
        assert(command_refused(old(bus).log(), bus.log(), *to, dmem, head, tail, e));
        return Err(e);
    }
    match dmem_write(bus, PMU, position, &bytes, dmem) {
        Ok(_) => {},
        Err(e) => {
            assert(command_refused(old(bus).log(), bus.log(), *to, dmem, head, tail, e));
            return Err(e);
        },
    }
    bus.write(to.head, position + 16);
    let ghost sent = mmio::writes(old(bus).log()) + command_writes(*to, head, tail, bytes@);
    assert(mmio::writes(bus.log()) =~= sent);
    let ghost told = bus.log();
    assert(was_sent(old(bus).log(), told, *to, head, tail, bytes@));
    let ghost mut other: nat = 0;
    let mut tries: u32 = 16;
    while tries > 0
        invariant
            bus.port() == old(bus).port(),
            from.wf(),
            dmem <= 0x2_0000,
            mmio::memory_kept(old(bus).log(), bus.log()),
            bytes@ == packet_spec(kind, sequence, argument),
            sent == mmio::writes(old(bus).log()) + command_writes(*to, head, tail, bytes@),
            mmio::begins(mmio::writes(bus.log()), sent),
            tries <= 16,
            was_sent(old(bus).log(), told, *to, head, tail, bytes@),
            mmio::extends(told, bus.log()),
            mmio::writes(bus.log()).len() == mmio::writes(told).len() + 3 * (16 - tries),
            tries < 16 ==> 4 <= other <= 128 && reply_spec(
                window_bytes(bus.log(), other),
                kind,
                sequence,
                argument,
            ) == Reply::Other,
        decreases tries,
    {
        let message: Vec<u8> = match receive(bus, from, dmem) {
            Ok(message) => message,
            Err(e) => {
                assert(unanswered(told, bus.log(), *from, dmem, kind, sequence, argument, e));
                return Err(e);
            },
        };
        match judge(&message, kind, sequence, argument) {
            Reply::Other => {
                proof {
                    other = message@.len();
                }
            },
            Reply::Done => {
                assert(message@.len() == 12);
                return Ok(());
            },
            Reply::Failed(e) => {
                assert(reply_spec(
                    window_bytes(bus.log(), message@.len()),
                    kind,
                    sequence,
                    argument,
                ) == Reply::Failed(e));
                assert(unanswered(told, bus.log(), *from, dmem, kind, sequence, argument, e));
                return Err(e);
            },
        }
        tries = tries - 1;
    }
    let e: &'static str = "PMU ACR response sequence missing";
    assert(unanswered(told, bus.log(), *from, dmem, kind, sequence, argument, e));
    Err(e)
}

/// A queue as the power processor describes it in its first message.
pub open spec fn queue_spec(
    init: Seq<u8>,
    index: int,
    head: usize,
    tail: usize,
    stride: int,
    dmem: u32,
) -> Result<Queue, &'static str> {
    let at = 8 + 6 * index;
    let size = init[at] + 256 * init[at + 1];
    let base = init[at + 2] + 256 * init[at + 3];
    let id = init[at + 4] as int;
    if id >= 4 || size < 32 || base % 4 != 0 || base + size > dmem {
        Err("PMU init queue geometry invalid")
    } else {
        Ok(
            Queue {
                offset: base as u32,
                size: size as u32,
                head: (PMU + head + id * stride) as usize,
                tail: (PMU + tail + id * stride) as usize,
            },
        )
    }
}

pub fn queue_of(
    init: &[u8; 42],
    index: usize,
    head: usize,
    tail: usize,
    stride: usize,
    dmem: u32,
) -> (r: Result<Queue, &'static str>)
    requires
        index <= 4,
        0x400 <= head <= 0x1000,
        0x400 <= tail <= 0x1000,
        stride <= 4,
    ensures
        r == queue_spec(init@, index as int, head, tail, stride as int, dmem),
        r matches Ok(queue) ==> queue.wf(),
{
    let at: usize = 8 + 6 * index;
    let size: u32 = init[at] as u32 + 256 * (init[at + 1] as u32);
    let base: u32 = init[at + 2] as u32 + 256 * (init[at + 3] as u32);
    let id: usize = init[at + 4] as usize;
    if id >= 4 || size < 32 || base % 4 != 0 || base + size > dmem {
        return Err("PMU init queue geometry invalid");
    }
    assert(id * stride <= 12) by (nonlinear_arith)
        requires
            id < 4,
            stride <= 4,
    ;
    Ok(
        Queue {
            offset: base,
            size,
            head: PMU + head + id * stride,
            tail: PMU + tail + id * stride,
        },
    )
}

/// The arguments of the power processor: all zero but for the secure mode.
pub open spec fn arguments_spec() -> Seq<u8> {
    Seq::new(
        44,
        |i: int|
            if i == 24 {
                1u8
            } else {
                0
            },
    )
}

fn pmu_arguments() -> (r: [u8; 44])
    ensures
        r@ == arguments_spec(),
{
    let mut bytes: [u8; 44] = [0; 44];
    bytes[24] = 1;
    assert(bytes@ =~= arguments_spec());
    bytes
}

/// The power processor was started with its arguments, and answered both commands:
/// the region is set up, and the context processor's firmware is loaded.
pub open spec fn was_delegated(
    before: Seq<Access>,
    after: Seq<Access>,
    to: Queue,
    middle: Seq<Access>,
    ready: Seq<Access>,
    dmem: u32,
) -> bool {
    &&& mmio::extends(before, after)
    &&& exists|launched: Seq<Access>, met: Seq<Access>, from: Queue|
        {
            &&& #[trigger] was_launched(before, launched, dmem)
            &&& differed(launched, met, (PMU + 0x4c8) as usize, (PMU + 0x4cc) as usize)
            &&& #[trigger] was_opened(met, ready, dmem, to, from)
        }
    &&& was_answered(ready, middle, to, 0, 1, 1)
    &&& was_answered(middle, after, to, 1, 2, 2)
}

/// The power processor was started with its arguments.
pub open spec fn was_launched(before: Seq<Access>, after: Seq<Access>, dmem: u32) -> bool {
    &&& mmio::extends(before, after)
    &&& mmio::writes(after) == mmio::writes(before) + dmem_writes(
        PMU,
        (dmem - 44) as u32,
        arguments_spec(),
    ).push((start_register(PMU, mmio::last(after, (PMU + 0x100) as usize)), 2u32))
}

/// Whether the first message of the power processor is as it should be.
pub open spec fn init_ok(init: Seq<u8>) -> bool {
    init[0] == 7 && init[1] == 42 && init[4] == 0
}

/// The first message was taken, and its two queues are these.
pub open spec fn was_opened(
    before: Seq<Access>,
    after: Seq<Access>,
    dmem: u32,
    to: Queue,
    from: Queue,
) -> bool {
    let offset = mmio::last(after, (PMU + 0x4cc) as usize);
    let init = window_bytes(after, 42);
    &&& mmio::extends(before, after)
    &&& mmio::writes(after) == mmio::writes(before) + seq![
        ((PMU + 0x1c0) as usize, (0x200_0000 + offset) as u32),
        ((PMU + 0x4cc) as usize, (offset + 44) as u32),
    ]
    &&& init_ok(init)
    &&& queue_spec(init, 0, 0x4a0, 0x4b0, 4, dmem) == Ok::<Queue, &'static str>(to)
    &&& queue_spec(init, 4, 0x4c8, 0x4cc, 0, dmem) == Ok::<Queue, &'static str>(from)
}

/// The first message was refused: it is too short or not in data memory, it is another
/// message, or a queue that it describes cannot be.
pub open spec fn init_refused(
    before: Seq<Access>,
    after: Seq<Access>,
    dmem: u32,
    e: &'static str,
) -> bool {
    &&& mmio::extends(before, after)
    &&& {
        let offset = mmio::last(after, (PMU + 0x4cc) as usize);
        let head = mmio::last(after, (PMU + 0x4c8) as usize);
        let init = window_bytes(after, 42);
        &&& mmio::tried(before, after, (PMU + 0x4c8) as usize)
        &&& if head < offset || head - offset < 44 {
            e == "PMU init message truncated" && mmio::quiet(before, after)
        } else if !fits(offset, 42, 4, dmem) {
            e == "PMU DMEM read outside SRAM" && mmio::quiet(before, after)
        } else if !init_ok(init) {
            e == "PMU init message format invalid" && mmio::writes(after) == mmio::writes(before).push(
                ((PMU + 0x1c0) as usize, (0x200_0000 + offset) as u32),
            )
        } else {
            &&& mmio::writes(after) == mmio::writes(before) + seq![
                ((PMU + 0x1c0) as usize, (0x200_0000 + offset) as u32),
                ((PMU + 0x4cc) as usize, (offset + 44) as u32),
            ]
            &&& queue_spec(init, 0, 0x4a0, 0x4b0, 4, dmem) == Err::<Queue, &'static str>(e)
                || queue_spec(init, 4, 0x4c8, 0x4cc, 0, dmem) == Err::<Queue, &'static str>(e)
        }
    }
}

/// The context processor was not started: where it stopped, and why.
pub open spec fn delegation_failed(
    before: Seq<Access>,
    after: Seq<Access>,
    dmem: u32,
    e: &'static str,
) -> bool {
    &&& mmio::extends(before, after)
    &&& {
        ||| exists|a: Seq<Access>|
            {
                &&& mmio::only_wrote(
                    before,
                    a,
                    dmem_writes(PMU, (dmem - 44) as u32, arguments_spec()),
                )
                &&& #[trigger] start_failed(a, after, PMU, e)
            }
        ||| exists|a: Seq<Access>|
            #[trigger] was_launched(before, a, dmem) && (differ_failed(
                a,
                after,
                (PMU + 0x4c8) as usize,
                (PMU + 0x4cc) as usize,
                e,
            ) || init_refused(a, after, dmem, e))
        ||| exists|a: Seq<Access>, b: Seq<Access>, to: Queue, from: Queue|
            {
                &&& #[trigger] was_launched(before, a, dmem)
                &&& #[trigger] was_opened(a, b, dmem, to, from)
                &&& command_failed(b, after, to, from, dmem, 0, 1, 1, e)
            }
        ||| exists|a: Seq<Access>, b: Seq<Access>, c: Seq<Access>, to: Queue, from: Queue|
            {
                &&& #[trigger] was_launched(before, a, dmem)
                &&& #[trigger] was_opened(a, b, dmem, to, from)
                &&& #[trigger] was_answered(b, c, to, 0, 1, 1)
                &&& command_failed(c, after, to, from, dmem, 1, 2, 2, e)
            }
    }
}

/// Starts the power processor, and has it start the context processor from the
/// protected region.
#[verifier::rlimit(60)]
pub fn boot_fecs<R: Timed>(bus: &mut Bus<'_, R>, dmem: u32) -> (r: Result<(), &'static str>)
    requires
        256 <= dmem <= 0x2_0000,
        dmem % 4 == 0,
    ensures
        final(bus).port() == old(bus).port(),
        mmio::memory_kept(old(bus).log(), final(bus).log()),
        mmio::begins(mmio::writes(final(bus).log()), mmio::writes(old(bus).log())),
        r matches Err(e) ==> delegation_failed(old(bus).log(), final(bus).log(), dmem, e),
        r is Ok ==> exists|to: Queue, middle: Seq<Access>, ready: Seq<Access>| #[trigger]
            was_delegated(old(bus).log(), final(bus).log(), to, middle, ready, dmem),
{
    let arguments: [u8; 44] = pmu_arguments();
    dmem_write(bus, PMU, dmem - 44, &arguments, dmem)?;
    start(bus, PMU)?;
    let ghost started = bus.log();
    assert(mmio::writes(started) =~= mmio::writes(old(bus).log()) + dmem_writes(
        PMU,
        (dmem - 44) as u32,
        arguments_spec(),
    ).push((start_register(PMU, mmio::last(started, (PMU + 0x100) as usize)), 2u32)));
    assert(was_launched(old(bus).log(), started, dmem));
    wait_differ(bus, PMU + 0x4c8, PMU + 0x4cc)?;
    let ghost met = bus.log();
    proof {
        let n = mmio::reads(started, (PMU + 0x4c8) as usize).len() as int;
        if n > 0 {
            mmio::readings_stay(started, bus.log(), (PMU + 0x4c8) as usize, n - 1);
        }
    }
    let offset: u32 = bus.read(PMU + 0x4cc);
    let head: u32 = bus.read(PMU + 0x4c8);
    if head < offset || head - offset < 44 {
        return Err("PMU init message truncated");
    }
    let mut init: [u8; 42] = [0; 42];
    dmem_read(bus, offset, &mut init, dmem)?;
    proof {
        let seen = mmio::reads(bus.log(), PMU_WINDOW);
        assert(words::words(42) == 11);
        assert forall|j: int| 0 <= j < 42 implies #[trigger] init@[j] == window_bytes(
            bus.log(),
            42,
        )[j] by {}
        assert(init@ =~= window_bytes(bus.log(), 42));
    }
    if init[0] != 7 || init[1] != 42 || init[4] != 0 {
        return Err("PMU init message format invalid");
    }
    bus.write(PMU + 0x4cc, offset + 44);
    assert(mmio::writes(bus.log()) =~= mmio::writes(started) + seq![
        ((PMU + 0x1c0) as usize, (0x200_0000 + offset) as u32),
        ((PMU + 0x4cc) as usize, (offset + 44) as u32),
    ]);
    assert(init@ == window_bytes(bus.log(), 42));
    let to: Queue = queue_of(&init, 0, 0x4a0, 0x4b0, 4, dmem)?;
    let from: Queue = queue_of(&init, 4, 0x4c8, 0x4cc, 0, dmem)?;
    let ghost ready = bus.log();
    assert(was_opened(started, ready, dmem, to, from));
    assert(was_opened(met, ready, dmem, to, from));
    command(bus, &to, &from, dmem, 0, 1, 1)?;
    let ghost middle = bus.log();
    command(bus, &to, &from, dmem, 1, 2, 2)?;
    assert(mmio::writes(started) =~= mmio::writes(old(bus).log()) + dmem_writes(
        PMU,
        (dmem - 44) as u32,
        arguments_spec(),
    ).push((start_register(PMU, mmio::last(ready, (PMU + 0x100) as usize)), 2u32)));
    assert(was_delegated(old(bus).log(), bus.log(), to, middle, ready, dmem));
    Ok(())
}

/// An answer counts only for the command that it names, and only if it reports the
/// result that the command must have.
pub proof fn answers_belong_to_their_command(
    message: Seq<u8>,
    kind: u8,
    sequence: u8,
    argument: u32,
)
    requires
        reply_spec(message, kind, sequence, argument) == Reply::Done,
    ensures
        message.len() == 12,
        message[0] == 0x0a,
        message[3] == sequence,
        message[4] == kind,
        kind != 0 ==> firmware::at(message, 8) == argument,
{
}

/// A command never runs over what is not read yet.
pub proof fn commands_stay_in_their_queue(queue: Queue, head: u32, tail: u32)
    requires
        queue.wf(),
        rewind_spec(queue, head, tail) is Ok,
    ensures
        ({
            let position = if rewind_spec(queue, head, tail)->Ok_0 {
                queue.offset
            } else {
                head
            };
            room_spec(queue, position, tail) >= 16 ==> {
                &&& queue.offset <= position
                &&& position + 16 <= queue.offset + queue.size
                &&& position < tail ==> position + 16 < tail
            }
        }),
{
}

/// A unit was taken out of use, stays so for 20 microseconds, and was put back.
pub open spec fn was_reset(before: Seq<Access>, after: Seq<Access>, bit: u32) -> bool {
    &&& mmio::extends(before, after)
    &&& exists|off: Seq<Access>, on: Seq<Access>|
        {
            &&& #[trigger] was_masked(before, off, 0x200, bit, 0)
            &&& was_held(off, on)
            &&& #[trigger] was_masked(on, after, 0x200, bit, bit)
        }
}

/// A unit that is out of use is left alone.
pub open spec fn was_held(off: Seq<Access>, on: Seq<Access>) -> bool {
    exists|back: u32| on == #[trigger] off.push(Access::Read(0x200, back)).push(Access::Delay(20))
}

/// A unit was not reset: its register was not there, before or after it was taken out.
pub open spec fn reset_failed(
    before: Seq<Access>,
    after: Seq<Access>,
    bit: u32,
    e: &'static str,
) -> bool {
    &&& mmio::extends(before, after)
    &&& {
        ||| mask_failed(before, after, 0x200, e)
        ||| exists|off: Seq<Access>, on: Seq<Access>|
            {
                &&& #[trigger] was_masked(before, off, 0x200, bit, 0)
                &&& was_held(off, on)
                &&& #[trigger] mask_failed(on, after, 0x200, e)
            }
    }
}

/// Resets a unit.
fn reset<R: Timed>(bus: &mut Bus<'_, R>, bit: u32) -> (r: Result<(), &'static str>)
    ensures
        final(bus).port() == old(bus).port(),
        mmio::memory_kept(old(bus).log(), final(bus).log()),
        mmio::begins(mmio::writes(final(bus).log()), mmio::writes(old(bus).log())),
        r is Ok ==> was_reset(old(bus).log(), final(bus).log(), bit),
        r matches Err(e) ==> reset_failed(old(bus).log(), final(bus).log(), bit, e),
{
    mask(bus, 0x200, bit, 0)?;
    let ghost off = bus.log();
    let back: u32 = bus.read(0x200);
    bus.delay_us(20);
    let ghost on = bus.log();
    assert(on == off.push(Access::Read(0x200, back)).push(Access::Delay(20)));
    mask(bus, 0x200, bit, bit)?;
    assert(was_masked(old(bus).log(), off, 0x200, bit, 0) && was_held(off, on) && was_masked(
        on,
        bus.log(),
        0x200,
        bit,
        bit,
    ));
    Ok(())
}

/// The stores of an image, word after word.
pub open spec fn image_stores(area: usize, bytes: Seq<u8>) -> Seq<(usize, usize, u32)> {
    Seq::new(
        words::words(bytes.len()) as nat,
        |k: int| (area, k as usize, words::word_of(bytes, k)),
    )
}

/// Stores an image, and writes it out.
fn store_image<R: Dma>(bus: &mut Bus<'_, R>, area: usize, bytes: &[u8])
    requires
        bytes@.len() <= 0x1000_0000,
    ensures
        final(bus).port() == old(bus).port(),
        mmio::extends(old(bus).log(), final(bus).log()),
        mmio::writes(final(bus).log()) == mmio::writes(old(bus).log()),
        mmio::stores(final(bus).log()) == mmio::stores(old(bus).log()) + image_stores(area, bytes@),
        final(bus).log().last() == Access::Clean(area),
        forall|o: usize|
            #![trigger mmio::reads(final(bus).log(), o)]
            mmio::reads(final(bus).log(), o) == mmio::reads(old(bus).log(), o),
{
    let length: usize = bytes.len();
    let count: usize = (length + 3) / 4;
    let ghost whole = image_stores(area, bytes@);
    let mut k: usize = 0;
    while k < count
        invariant
            mmio::extends(old(bus).log(), bus.log()),
            bus.port() == old(bus).port(),
            k <= count,
            count == (length + 3) / 4,
            length == bytes@.len(),
            length <= 0x1000_0000,
            whole == image_stores(area, bytes@),
            mmio::writes(bus.log()) == mmio::writes(old(bus).log()),
            mmio::stores(bus.log()) =~= mmio::stores(old(bus).log()) + whole.take(k as int),
            forall|o: usize|
                #![trigger mmio::reads(bus.log(), o)]
                mmio::reads(bus.log(), o) == mmio::reads(old(bus).log(), o),
        decreases count - k,
    {
        let value: u32 = word(bytes, k);
        bus.store(area, k, value);
        assert(whole[k as int] == (area, k, value));
        k = k + 1;
    }
    assert(whole.take(count as int) =~= whole);
    bus.clean(area);
}

/// What binding the power processor to its memory writes, after the numbers of polls
/// that it took.
pub open spec fn bind_writes(log: Seq<Access>, instance: u64, first: nat, second: nat) -> Seq<
    (usize, u32),
> {
    seq![
        (0x10_a084, mmio::last(log, 0)),
        (0x10_a048, (mmio::last(log, 0x10_a048) & !1u32) | 1),
        (0x10_ae00, 4u32),
        (0x10_ae04, 0u32),
        (0x10_ae08, 4u32),
        (0x10_ae0c, 5u32),
        (0x10_ae10, 6u32),
        (0x10_a090, (mmio::last(log, 0x10_a090) & !0x1_0000u32) | 0x1_0000),
        (0x10_a480, (0x4000_0000 + instance / 4096) as u32),
    ] + binding(first) + seq![
        (0x10_a004usize, (mmio::last(log, 0x10_a004) & !8u32) | 8),
        (0x10_a058, (mmio::last(log, 0x10_a058) & !2u32) | 2),
    ] + binding(second)
}

pub open spec fn binding(polls: nat) -> Seq<(usize, u32)> {
    Seq::new(polls, |i: int| (0x10_a200usize, 0x30eu32))
}

/// Whether the bind is in the wanted state.
pub open spec fn bind_state(value: u32, asserted: bool) -> bool {
    value / 4096 % 8 == if asserted {
        5int
    } else {
        0
    }
}

/// The bind's state is not there, or it was not the wanted one within two seconds.
pub open spec fn bind_late(
    before: Seq<Access>,
    after: Seq<Access>,
    asserted: bool,
    e: &'static str,
) -> bool {
    let seen = mmio::last(after, 0x10_a20c);
    &&& mmio::memory_kept(before, after)
    &&& mmio::tried(before, after, 0x10_a20c)
    &&& exists|polls: nat|
        polls > 0 && mmio::writes(after) == mmio::writes(before) + #[trigger] binding(polls)
    &&& if seen == u32::MAX {
        e == "PMU bind status unreadable"
    } else {
        e == "GR firmware completion timeout" && !bind_state(seen, asserted) && mmio::ran_out(
            before,
            after,
            2_000_000_000,
            200_000,
        )
    }
}

#[verifier::rlimit(60)]
fn wait_bind<R: Timed>(bus: &mut Bus<'_, R>, asserted: bool) -> (r: Result<(), &'static str>)
    ensures
        final(bus).port() == old(bus).port(),
        mmio::memory_kept(old(bus).log(), final(bus).log()),
        exists|polls: nat|
            mmio::writes(final(bus).log()) == mmio::writes(old(bus).log()) + #[trigger] binding(
                polls,
            ),
        r is Ok ==> bind_state(mmio::last(final(bus).log(), 0x10_a20c), asserted) && mmio::last(
            final(bus).log(),
            0x10_a20c,
        ) != u32::MAX && final(bus).log().len() > old(bus).log().len() && final(bus).log().last()
            == Access::Read(0x10_a20c, mmio::last(final(bus).log(), 0x10_a20c)),
        r matches Err(e) ==> bind_late(old(bus).log(), final(bus).log(), asserted, e),
        forall|o: usize|
            #![trigger mmio::reads(final(bus).log(), o)]
            o != 0x10_a20c ==> mmio::reads(final(bus).log(), o) == mmio::reads(old(bus).log(), o),
{
    let start: u64 = bus.now_ns();
    let deadline: u64 = start.saturating_add(2_000_000_000);
    let mut left: u32 = 200_000;
    let ghost mut polls: nat = 0;
    assert(mmio::writes(bus.log()) =~= mmio::writes(old(bus).log()) + binding(0));
    while left > 0
        invariant
            bus.port() == old(bus).port(),
            left <= 200_000,
            deadline == mmio::until(start, 2_000_000_000),
            bus.log().len() == old(bus).log().len() + 1 + 4 * (200_000 - left),
            bus.log()[old(bus).log().len() as int] == Access::Time(start),
            left < 200_000 ==> polls > 0 && mmio::tried(old(bus).log(), bus.log(), 0x10_a20c)
                && mmio::last(bus.log(), 0x10_a20c) != u32::MAX && !bind_state(
                mmio::last(bus.log(), 0x10_a20c),
                asserted,
            ),
            left == 200_000 ==> mmio::reads(bus.log(), 0x10_a20c) == mmio::reads(
                old(bus).log(),
                0x10_a20c,
            ),
            mmio::memory_kept(old(bus).log(), bus.log()),
            mmio::writes(bus.log()) =~= mmio::writes(old(bus).log()) + binding(polls),
            forall|o: usize|
                #![trigger mmio::reads(bus.log(), o)]
                o != 0x10_a20c ==> mmio::reads(bus.log(), o) == mmio::reads(old(bus).log(), o),
        decreases left,
    {
        bus.write(0x10_a200, 0x30e);
        proof {
            polls = polls + 1;
            assert(mmio::writes(bus.log()) =~= mmio::writes(old(bus).log()) + binding(polls));
        }
        let value: u32 = bus.read(0x10_a20c);
        if value == u32::MAX {
            return Err("PMU bind status unreadable");
        }
        let wanted: u32 = if asserted {
            5
        } else {
            0
        };
        if value / 4096 % 8 == wanted {
            return Ok(());
        }
        let now: u64 = bus.now_ns();
        if now >= deadline {
            return Err("GR firmware completion timeout");
        }
        bus.delay_us(10);
        left = left - 1;
    }
    Err("GR firmware completion timeout")
}

/// Behind so many polls the bind was seen taken, and nothing was written before that.
pub open spec fn bind_taken(
    before: Seq<Access>,
    after: Seq<Access>,
    first: nat,
    seen: u32,
) -> bool {
    bind_state(seen, true) && mmio::stood(before, after, 9 + first as int, Access::Read(0x10_a20c, seen))
}

/// The power processor was bound to its memory.
pub open spec fn was_bound(before: Seq<Access>, after: Seq<Access>, instance: u64) -> bool {
    &&& bind_state(mmio::last(after, 0x10_a20c), false)
    &&& mmio::memory_kept(before, after)
    &&& exists|first: nat, second: nat, seen: u32|
        {
            &&& mmio::writes(after) == mmio::writes(before) + #[trigger] bind_writes(
                after,
                instance,
                first,
                second,
            )
            // The bind was seen taken before the next step, and at last seen over.
            &&& #[trigger] bind_taken(before, after, first, seen)
        }
    &&& after.last() == Access::Read(0x10_a20c, mmio::last(after, 0x10_a20c))
}

/// So many of the writes that bind the power processor were made, besides the first polls.
pub open spec fn bind_begun(
    before: Seq<Access>,
    after: Seq<Access>,
    instance: u64,
    first: nat,
    count: int,
) -> bool {
    &&& mmio::memory_kept(before, after)
    &&& mmio::writes(after) == mmio::writes(before) + bind_writes(after, instance, first, 0).take(
        count + first,
    )
}

/// The power processor was not bound: a register is not there, or the bind is not taken.
pub open spec fn bind_failed(
    before: Seq<Access>,
    after: Seq<Access>,
    instance: u64,
    e: &'static str,
) -> bool {
    &&& mmio::extends(before, after)
    &&& {
        ||| exists|a: Seq<Access>|
            #[trigger] bind_begun(before, a, instance, 0, 1) && mask_failed(a, after, 0x10_a048, e)
        ||| exists|a: Seq<Access>|
            #[trigger] bind_begun(before, a, instance, 0, 7) && mask_failed(a, after, 0x10_a090, e)
        ||| exists|a: Seq<Access>|
            #[trigger] bind_begun(before, a, instance, 0, 9) && bind_late(a, after, true, e)
        ||| exists|a: Seq<Access>, first: nat|
            #[trigger] bind_begun(before, a, instance, first, 9) && mask_failed(
                a,
                after,
                0x10_a004,
                e,
            )
        ||| exists|a: Seq<Access>, first: nat|
            #[trigger] bind_begun(before, a, instance, first, 10) && mask_failed(
                a,
                after,
                0x10_a058,
                e,
            )
        ||| exists|a: Seq<Access>, first: nat|
            #[trigger] bind_begun(before, a, instance, first, 11) && bind_late(
                a,
                after,
                false,
                e,
            )
    }
}

/// Binds the power processor to its memory.
#[verifier::rlimit(100)]
fn bind<R: Timed>(bus: &mut Bus<'_, R>, instance: u64) -> (r: Result<(), &'static str>)
    requires
        instance / 4096 < 0x1000_0000,
    ensures
        final(bus).port() == old(bus).port(),
        mmio::memory_kept(old(bus).log(), final(bus).log()),
        mmio::begins(mmio::writes(final(bus).log()), mmio::writes(old(bus).log())),
        match r {
            Ok(_) => was_bound(old(bus).log(), final(bus).log(), instance),
            Err(e) => bind_failed(old(bus).log(), final(bus).log(), instance, e),
        },
{
    let ghost w = mmio::writes(old(bus).log());
    let boot0: u32 = bus.read(0);
    bus.write(0x10_a084, boot0);
    assert(mmio::writes(bus.log()) =~= w + bind_writes(bus.log(), instance, 0, 0).take(1));
    assert(bind_begun(old(bus).log(), bus.log(), instance, 0, 1));
    mask(bus, 0x10_a048, 1, 1)?;
    bus.write(0x10_ae00, 4);
    bus.write(0x10_ae04, 0);
    bus.write(0x10_ae08, 4);
    bus.write(0x10_ae0c, 5);
    bus.write(0x10_ae10, 6);
    assert(mmio::writes(bus.log()) =~= w + bind_writes(bus.log(), instance, 0, 0).take(7));
    assert(bind_begun(old(bus).log(), bus.log(), instance, 0, 7));
    mask(bus, 0x10_a090, 0x1_0000, 0x1_0000)?;
    let page: u32 = (instance / 4096) as u32;
    bus.write(0x10_a480, 0x4000_0000 + page);
    let ghost w1 = mmio::writes(bus.log());
    assert(mmio::begins(w1, w));
    assert(w1 =~= w + bind_writes(bus.log(), instance, 0, 0).take(9));
    assert(bind_begun(old(bus).log(), bus.log(), instance, 0, 9));
    wait_bind(bus, true)?;
    let ghost taken = bus.log();
    let ghost first = choose|polls: nat| mmio::writes(bus.log()) == w1 + #[trigger] binding(polls);
    let ghost n = first as int;
    assert(mmio::writes(bus.log()) =~= w + bind_writes(bus.log(), instance, first, 0).take(9 + n));
    assert(bind_begun(old(bus).log(), bus.log(), instance, first, 9));
    mask(bus, 0x10_a004, 8, 8)?;
    assert(mmio::writes(bus.log()) =~= w + bind_writes(bus.log(), instance, first, 0).take(10 + n));
    assert(bind_begun(old(bus).log(), bus.log(), instance, first, 10));
    mask(bus, 0x10_a058, 2, 2)?;
    let ghost w2 = mmio::writes(bus.log());
    assert(w2 =~= w + bind_writes(bus.log(), instance, first, 0).take(11 + n));
    assert(bind_begun(old(bus).log(), bus.log(), instance, first, 11));
    wait_bind(bus, false)?;
    let ghost second = choose|polls: nat| mmio::writes(bus.log()) == w2 + #[trigger] binding(polls);
    assert(mmio::writes(bus.log()) =~= w + bind_writes(bus.log(), instance, first, second));
    proof {
        let seen = taken.last()->Read_1;
        mmio::lemma_stood(old(bus).log(), taken, bus.log(), 9 + n, Access::Read(0x10_a20c, seen));
        assert(bind_taken(old(bus).log(), bus.log(), first, seen));
    }
    Ok(())
}

/// What the boot loader is told of the secure loader.
pub open spec fn descriptor_spec(acr: Acr) -> Seq<u32> {
    seq![
        0u32,
        0,
        0,
        0,
        0,
        0,
        0,
        0,
        0,
        HS_VA / 256,
        acr.nonsecure_offset,
        acr.nonsecure_size,
        acr.secure_offset,
        acr.secure_size,
        0,
        ((HS_VA + acr.data_offset) / 256) as u32,
        acr.data_size,
        0,
        0,
    ]
}

fn descriptor(acr: &Acr) -> (r: [u8; 76])
    requires
        acr.wf(),
        acr.image@.len() <= 0x10_0000,
    ensures
        r@ == firmware::packed(descriptor_spec(*acr)),
{
    let numbers: [u32; 19] = [
        0,
        0,
        0,
        0,
        0,
        0,
        0,
        0,
        0,
        HS_VA / 256,
        acr.nonsecure_offset,
        acr.nonsecure_size,
        acr.secure_offset,
        acr.secure_size,
        0,
        (HS_VA + acr.data_offset) / 256,
        acr.data_size,
        0,
        0,
    ];
    assert(numbers@ =~= descriptor_spec(*acr));
    let mut bytes: [u8; 76] = [0; 76];
    put_words(&mut bytes, 0, &numbers);
    assert(bytes@ =~= firmware::packed(descriptor_spec(*acr)));
    bytes
}

/// What starting the secure loader writes: the boot loader at the end of instruction
/// memory, what it is told, and the start.
pub open spec fn loader_writes(acr: Acr, imem: u32) -> Seq<(usize, u32)> {
    imem_writes(
        PMU,
        (imem - acr.boot.code@.len()) as u32,
        acr.boot.address / 256,
        acr.boot.code@,
    ) + dmem_writes(PMU, 0, firmware::packed(descriptor_spec(acr))) + seq![
        (0x10_a040, 0xcafe_beef),
        (0x10_a104, acr.boot.address),
        (0x10_a100, 2),
    ]
}

/// The secure loader ran, and stopped.
pub open spec fn was_loaded(before: Seq<Access>, after: Seq<Access>, acr: Acr, imem: u32) -> bool {
    &&& acr.boot.code@.len() <= imem
    &&& mmio::memory_kept(before, after)
    &&& mmio::writes(after) == mmio::writes(before) + loader_writes(acr, imem)
    &&& gmmu::ready_spec(Ready::Any(0x10), mmio::last(after, 0x10_a100))
    &&& after.last() == Access::Read(0x10_a100, mmio::last(after, 0x10_a100))
}

/// The secure loader did not run, or did not stop: it or what it is told does not fit, or
/// the processor does not halt.
pub open spec fn loader_failed(
    before: Seq<Access>,
    after: Seq<Access>,
    acr: Acr,
    imem: u32,
    dmem: u32,
    e: &'static str,
) -> bool {
    let length = acr.boot.code@.len();
    let offset = (imem - length) as u32;
    if length > imem {
        e == "ACR bootloader exceeds PMU IMEM" && after == before
    } else if !fits(offset, length, 256, imem) {
        e == "Falcon IMEM write outside SRAM" && after == before
    } else if !fits(0, 76, 4, dmem) {
        e == "Falcon DMEM write outside SRAM" && mmio::only_wrote(
            before,
            after,
            imem_writes(PMU, offset, acr.boot.address / 256, acr.boot.code@),
        )
    } else {
        exists|a: Seq<Access>|
            mmio::only_wrote(before, a, loader_writes(acr, imem)) && #[trigger] wait_failed(
                a,
                after,
                0x10_a100,
                Ready::Any(0x10),
                e,
            )
    }
}

/// Starts the secure loader, and waits until it stops.
fn run_loader<R: Timed>(bus: &mut Bus<'_, R>, acr: &Acr, imem: u32, dmem: u32) -> (r: Result<
    (),
    &'static str,
>)
    requires
        acr.wf(),
        acr.image@.len() <= 0x10_0000,
        acr.boot.code@.len() <= 0x10_0000,
        imem <= 0x2_0000,
        dmem <= 0x2_0000,
    ensures
        final(bus).port() == old(bus).port(),
        mmio::memory_kept(old(bus).log(), final(bus).log()),
        mmio::begins(mmio::writes(final(bus).log()), mmio::writes(old(bus).log())),
        match r {
            Ok(_) => was_loaded(old(bus).log(), final(bus).log(), *acr, imem),
            Err(e) => loader_failed(old(bus).log(), final(bus).log(), *acr, imem, dmem, e),
        },
        acr.boot.code@.len() > imem <==> r == Err::<(), &'static str>(
            "ACR bootloader exceeds PMU IMEM",
        ),
{
    let length: usize = acr.boot.code.len();
    if length > imem as usize {
        return Err("ACR bootloader exceeds PMU IMEM");
    }
    let offset: u32 = imem - length as u32;
    imem_write(bus, PMU, offset, acr.boot.address / 256, acr.boot.code.as_slice(), imem)?;
    let bytes: [u8; 76] = descriptor(acr);
    dmem_write(bus, PMU, 0, &bytes, dmem)?;
    bus.write(0x10_a040, 0xcafe_beef);
    bus.write(0x10_a104, acr.boot.address);
    bus.write(0x10_a100, 2);
    assert(mmio::writes(bus.log()) =~= mmio::writes(old(bus).log()) + loader_writes(*acr, imem));
    wait_reg(bus, 0x10_a100, Ready::Any(0x10))
}

/// The secure loader accepted the firmware, and left the reservation as it was.
pub open spec fn was_confirmed(
    before: Seq<Access>,
    after: Seq<Access>,
    from: u64,
    to: u64,
) -> bool {
    let seen = mmio::reads(after, WPR_SELECT);
    &&& mmio::last(after, 0x10_a040) == 0
    &&& mmio::stood(before, after, 0, Access::Read(0x10_a040, 0))
    &&& seen.len() >= 2
    &&& mmio::stood(before, after, 2, Access::Read(WPR_SELECT, seen[seen.len() - 2]))
    &&& after.last() == Access::Read(WPR_SELECT, seen[seen.len() - 1])
    &&& bounds_are(seen[seen.len() - 2], seen[seen.len() - 1], from, to)
    &&& mmio::memory_kept(before, after)
    &&& mmio::writes(after) == mmio::writes(before) + seq![
        (0x10_a004usize, 0x10u32),
        (WPR_SELECT, 2u32),
        (WPR_SELECT, 3u32),
    ]
}

/// The two registers tell these bounds.
pub open spec fn bounds_are(start: u32, limit: u32, from: u64, to: u64) -> bool {
    &&& start != u32::MAX
    &&& limit != u32::MAX
    &&& start / 256 * 0x1_0000 == from
    &&& limit / 256 * 0x1_0000 + 0x2_0000 == to
}

/// The secure loader refused the firmware, or changed the reservation.
pub open spec fn confirm_failed(
    before: Seq<Access>,
    after: Seq<Access>,
    from: u64,
    to: u64,
    e: &'static str,
) -> bool {
    &&& mmio::extends(before, after)
    &&& {
        let seen = mmio::reads(after, WPR_SELECT);
        &&& mmio::tried(before, after, 0x10_a040)
        &&& if mmio::last(after, 0x10_a040) != 0 {
            e == "ACR secure loader rejected firmware" && mmio::quiet(before, after)
        } else {
            &&& e == "ACR loader changed WPR reservation unexpectedly"
            &&& !bounds_are(seen[seen.len() - 2], seen[seen.len() - 1], from, to)
            &&& mmio::writes(after) == mmio::writes(before) + seq![
                (0x10_a004usize, 0x10u32),
                (WPR_SELECT, 2u32),
                (WPR_SELECT, 3u32),
            ]
        }
    }
}

fn confirm<R: Timed>(bus: &mut Bus<'_, R>, from: u64, to: u64) -> (r: Result<(), &'static str>)
    ensures
        final(bus).port() == old(bus).port(),
        mmio::memory_kept(old(bus).log(), final(bus).log()),
        mmio::begins(mmio::writes(final(bus).log()), mmio::writes(old(bus).log())),
        match r {
            Ok(_) => was_confirmed(old(bus).log(), final(bus).log(), from, to),
            Err(e) => confirm_failed(old(bus).log(), final(bus).log(), from, to, e),
        },
{
    let mailbox0: u32 = bus.read(0x10_a040);
    let ghost told = bus.log();
    let _ = bus.read(0x10_a044);
    if mailbox0 != 0 {
        return Err("ACR secure loader rejected firmware");
    }
    bus.write(0x10_a004, 0x10);
    let start: u32 = wpr_bound(bus, 2);
    let ghost half = bus.log();
    let limit: u32 = wpr_bound(bus, 3);
    assert(mmio::writes(bus.log()) =~= mmio::writes(old(bus).log()) + seq![
        (0x10_a004usize, 0x10u32),
        (WPR_SELECT, 2u32),
        (WPR_SELECT, 3u32),
    ]);
    proof {
        let o = old(bus).log();
        mmio::lemma_stood(o, told, bus.log(), 0, Access::Read(0x10_a040, mailbox0));
        mmio::lemma_stood(o, half, bus.log(), 2, Access::Read(WPR_SELECT, start));
    }
    if start == u32::MAX || limit == u32::MAX || (start / 256) as u64 * 0x1_0000 != from || (limit
        / 256) as u64 * 0x1_0000 + 0x2_0000 != to {
        return Err("ACR loader changed WPR reservation unexpectedly");
    }
    Ok(())
}

/// Graphics: its firmware, the reservation, and where its memory is.
pub struct Gr {
    pub firmware: Firmware,
    /// The memory that the power processor is bound to.
    pub instance: u64,
    /// The copy of the protected region, and its size.
    pub shadow: u64,
    pub shadow_size: u32,
    /// The memory that the golden context is bound to.
    pub context_instance: u64,
    pub wpr_start: u64,
    pub wpr_end: u64,
}

/// The images of the region and of the loader were stored, and the sizes are known.
pub open spec fn was_stored(
    before: Seq<Access>,
    after: Seq<Access>,
    gr: Gr,
    imem: u32,
    dmem: u32,
) -> bool {
    &&& mmio::extends(before, after)
    &&& {
        let debug = mmio::last(after, 0x10_ac08) / 0x10_0000 % 2 == 1;
        let region = image_stores(
            SHADOW,
            firmware::wpr_spec(gr.wpr_start, gr.firmware.pmu, gr.firmware.fecs, dmem),
        );
        let loader = image_stores(
            HS,
            gr.firmware.acr.patched(
                gr.firmware.acr.image@,
                debug,
                gr.shadow,
                gr.shadow_size,
            ),
        );
        &&& mmio::writes(after) == mmio::writes(before)
        &&& limits_spec(mmio::last(after, 0x10_a108)) == Ok::<(u32, u32), &'static str>((imem, dmem))
        &&& mmio::last(after, 0x10_ac08) != u32::MAX
        &&& mmio::stores(after) == mmio::stores(before) + region + loader
        // Each image is written out behind its stores, and so is what was bound before.
        &&& mmio::stood_behind(before, after, region.len() as int, Access::Clean(SHADOW))
        &&& mmio::stood_behind(
            before,
            after,
            (region.len() + loader.len()) as int,
            Access::Clean(HS),
        )
        &&& after.last() == Access::Clean(PMU_INSTANCE)
    }
}

/// The power processor was reset, and its memory was then seen scrubbed.
pub open spec fn was_scrubbed(before: Seq<Access>, after: Seq<Access>) -> bool {
    &&& mmio::extends(before, after)
    &&& exists|a: Seq<Access>|
        #[trigger] was_reset(before, a, 0x2000) && awaited(a, after, 0x10_a10c, Ready::Clear(6))
}

/// The power processor is ready: it was reset and scrubbed, its images were stored, it was bound
/// to its memory, and the secure loader accepted the firmware.
pub open spec fn was_secured(
    before: Seq<Access>,
    after: Seq<Access>,
    gr: Gr,
    imem: u32,
    dmem: u32,
) -> bool {
    &&& mmio::extends(before, after)
    &&& {
        exists|a: Seq<Access>, b: Seq<Access>, c: Seq<Access>, d: Seq<Access>|
            {
                &&& #[trigger] was_scrubbed(before, a)
                &&& #[trigger] was_stored(a, b, gr, imem, dmem)
                &&& #[trigger] was_bound(b, c, gr.instance)
                &&& was_loaded(c, d, gr.firmware.acr, imem)
                &&& #[trigger] was_confirmed(d, after, gr.wpr_start, gr.wpr_end)
            }
    }
}

/// The images were not stored: the sizes are wrong, the region cannot be built for them,
/// or the mode of the signatures is unknown.
pub open spec fn store_failed(
    before: Seq<Access>,
    after: Seq<Access>,
    gr: Gr,
    e: &'static str,
) -> bool {
    &&& mmio::quiet(before, after)
    &&& mmio::tried(before, after, 0x10_a108)
    &&& match limits_spec(mmio::last(after, 0x10_a108)) {
        Err(x) => e == x,
        Ok((_, dmem)) => firmware::wpr_error(
            gr.wpr_start,
            gr.firmware.pmu,
            gr.firmware.fecs,
            dmem,
        ) == Some(e) || (e == "PMU signature mode unreadable" && mmio::tried(
            before,
            after,
            0x10_ac08,
        ) && mmio::last(after, 0x10_ac08) == u32::MAX),
    }
}

/// The firmware was not protected: where it stopped, and why.
pub open spec fn secure_failed(
    before: Seq<Access>,
    after: Seq<Access>,
    gr: Gr,
    e: &'static str,
) -> bool {
    &&& mmio::extends(before, after)
    &&& {
        ||| reset_failed(before, after, 0x2000, e)
        ||| exists|a: Seq<Access>|
            #[trigger] was_reset(before, a, 0x2000) && wait_failed(
                a,
                after,
                0x10_a10c,
                Ready::Clear(6),
                e,
            )
        ||| exists|a: Seq<Access>|
            #[trigger] was_scrubbed(before, a) && store_failed(a, after, gr, e)
        ||| exists|a: Seq<Access>, b: Seq<Access>, imem: u32, dmem: u32|
            {
                &&& #[trigger] was_scrubbed(before, a)
                &&& #[trigger] was_stored(a, b, gr, imem, dmem)
                &&& bind_failed(b, after, gr.instance, e)
            }
        ||| exists|a: Seq<Access>, b: Seq<Access>, c: Seq<Access>, imem: u32, dmem: u32|
            {
                &&& #[trigger] was_scrubbed(before, a)
                &&& #[trigger] was_stored(a, b, gr, imem, dmem)
                &&& #[trigger] was_bound(b, c, gr.instance)
                &&& loader_failed(c, after, gr.firmware.acr, imem, dmem, e)
            }
        ||| exists|
            a: Seq<Access>,
            b: Seq<Access>,
            c: Seq<Access>,
            d: Seq<Access>,
            imem: u32,
            dmem: u32,
        |
            {
                &&& #[trigger] was_scrubbed(before, a)
                &&& #[trigger] was_stored(a, b, gr, imem, dmem)
                &&& #[trigger] was_bound(b, c, gr.instance)
                &&& was_loaded(c, d, gr.firmware.acr, imem)
                &&& #[trigger] confirm_failed(d, after, gr.wpr_start, gr.wpr_end, e)
            }
    }
}

proof fn lemma_secured(
    before: Seq<Access>,
    a: Seq<Access>,
    b: Seq<Access>,
    c: Seq<Access>,
    d: Seq<Access>,
    after: Seq<Access>,
    gr: Gr,
    imem: u32,
    dmem: u32,
)
    requires
        was_scrubbed(before, a),
        was_stored(a, b, gr, imem, dmem),
        was_bound(b, c, gr.instance),
        was_loaded(c, d, gr.firmware.acr, imem),
        was_confirmed(d, after, gr.wpr_start, gr.wpr_end),
    ensures
        was_secured(before, after, gr, imem, dmem),
{
}

impl Gr {
    pub open spec fn wf(self) -> bool {
        &&& self.firmware.wf()
        &&& self.instance / 4096 < 0x1000_0000
        &&& self.context_instance / 4096 < 0x1000_0000
    }

    /// Where graphics sees its memory: the loader's image, the context, the attribute
    /// buffer, the page pool and the bundle buffer.
    pub fn mappings(&self) -> (r: [usize; 5])
        ensures
            r@ == seq![0x1_0000usize, 0x2_0000, 0x20_0000, 0x25_0000, 0x26_0000],
    {
        let r: [usize; 5] = [0x1_0000, 0x2_0000, 0x20_0000, 0x25_0000, 0x26_0000];
        assert(r@ =~= seq![0x1_0000usize, 0x2_0000, 0x20_0000, 0x25_0000, 0x26_0000]);
        r
    }

    /// The memory that has to be bound to the address space.
    pub fn instances(&self) -> (r: [u64; 2])
        ensures
            r@ == seq![self.instance, self.context_instance],
    {
        let r: [u64; 2] = [self.instance, self.context_instance];
        assert(r@ =~= seq![self.instance, self.context_instance]);
        r
    }

    /// Stores the images, once the sizes of the processor's memory are known.
    fn store_images<R: Dma>(&self, bus: &mut Bus<'_, R>) -> (r: Result<(u32, u32), &'static str>)
        requires
            self.wf(),
        ensures
            final(bus).port() == old(bus).port(),
            mmio::extends(old(bus).log(), final(bus).log()),
            mmio::writes(final(bus).log()) == mmio::writes(old(bus).log()),
            match r {
                Ok((imem, dmem)) => was_stored(old(bus).log(), final(bus).log(), *self, imem, dmem)
                    && 0 < imem <= 0x1_ff00 && 256 <= dmem <= 0x1_ff00 && dmem % 4 == 0,
                Err(e) => store_failed(old(bus).log(), final(bus).log(), *self, e),
            },
    {
        let geometry: u32 = bus.read(0x10_a108);
        let (imem, dmem): (u32, u32) = limits_of(geometry)?;
        let region: Vec<u8> = self.firmware.wpr(self.wpr_start, dmem)?;
        proof {
            lemma_region_size(self.wpr_start, self.firmware.pmu, self.firmware.fecs, dmem);
        }
        let mut hs: Vec<u8> = copied(self.firmware.acr.image.as_slice());
        let mode: u32 = bus.read(0x10_ac08);
        if mode == u32::MAX {
            return Err("PMU signature mode unreadable");
        }
        let debug: bool = mode / 0x10_0000 % 2 == 1;
        self.firmware.acr.patch(hs.as_mut_slice(), debug, self.shadow, self.shadow_size);
        store_image(bus, SHADOW, region.as_slice());
        let ghost first = bus.log();
        store_image(bus, HS, hs.as_slice());
        let ghost second = bus.log();
        bus.clean(PMU_INSTANCE);
        proof {
            let o = old(bus).log();
            let n = image_stores(SHADOW, region@).len() as int;
            let m = image_stores(HS, hs@).len() as int;
            mmio::lemma_stood_behind(o, first, bus.log(), n, Access::Clean(SHADOW));
            mmio::lemma_stood_behind(o, second, bus.log(), n + m, Access::Clean(HS));
        }
        Ok((imem, dmem))
    }

    /// Has the secure loader protect the firmware.
    pub fn boot_acr<R: Dma>(&self, bus: &mut Bus<'_, R>) -> (r: Result<u32, &'static str>)
        requires
            self.wf(),
        ensures
            final(bus).port() == old(bus).port(),
            mmio::extends(old(bus).log(), final(bus).log()),
            mmio::begins(mmio::writes(final(bus).log()), mmio::writes(old(bus).log())),
            r matches Err(e) ==> secure_failed(old(bus).log(), final(bus).log(), *self, e),
            r matches Ok(dmem) ==> 256 <= dmem <= 0x1_ff00 && dmem % 4 == 0 && exists|imem: u32|
                #[trigger] was_secured(old(bus).log(), final(bus).log(), *self, imem, dmem),
    {
        reset(bus, 0x2000)?;
        assert(was_reset(old(bus).log(), bus.log(), 0x2000));
        wait_reg(bus, 0x10_a10c, Ready::Clear(6))?;
        let ghost a = bus.log();
        assert(was_scrubbed(old(bus).log(), a));
        let (imem, dmem): (u32, u32) = self.store_images(bus)?;
        let ghost b = bus.log();
        bind(bus, self.instance)?;
        let ghost c = bus.log();
        run_loader(bus, &self.firmware.acr, imem, dmem)?;
        let ghost d = bus.log();
        confirm(bus, self.wpr_start, self.wpr_end)?;
        proof {
            lemma_secured(old(bus).log(), a, b, c, d, bus.log(), *self, imem, dmem);
        }
        Ok(dmem)
    }
}

/// Whether an entry of a table names a register of graphics.
pub open spec fn entry_ok(table: Seq<u8>, stride: int, k: int) -> bool {
    let offset = firmware::at(table, k * stride);
    0x40_0000 <= offset < 0x60_0000 && offset % 4 == 0
}

/// The writes that a table asks for.
pub open spec fn table_writes(table: Seq<u8>, stride: int, value_at: int) -> Seq<(usize, u32)> {
    Seq::new(
        (table.len() as int / stride) as nat,
        |k: int|
            (
                firmware::at(table, k * stride) as usize,
                firmware::at(table, k * stride + value_at),
            ),
    )
}

pub open spec fn table_ok(table: Seq<u8>, stride: int) -> bool {
    forall|k: int| 0 <= k < table.len() as int / stride ==> #[trigger] entry_ok(table, stride, k)
}

/// The first entry of a table that names no register of graphics.
pub open spec fn first_bad(table: Seq<u8>, stride: int, k: int) -> bool {
    &&& 0 <= k < table.len() as int / stride
    &&& !entry_ok(table, stride, k)
    &&& forall|j: int| 0 <= j < k ==> #[trigger] entry_ok(table, stride, j)
}

/// Writes what a table asks for, up to an entry that names no register of graphics.
#[verifier::rlimit(100)]
pub fn write_table<R: Timed>(
    bus: &mut Bus<'_, R>,
    table: &Vec<u8>,
    stride: usize,
    value_at: usize,
    complaint: &'static str,
) -> (r: Result<(), &'static str>)
    requires
        table@.len() <= 0x10_0000,
        8 <= stride <= 16,
        4 <= value_at,
        value_at + 4 <= stride,
    ensures
        final(bus).port() == old(bus).port(),
        mmio::memory_kept(old(bus).log(), final(bus).log()),
        forall|o: usize|
            #![trigger mmio::reads(final(bus).log(), o)]
            mmio::reads(final(bus).log(), o) == mmio::reads(old(bus).log(), o),
        match r {
            Ok(_) => table_ok(table@, stride as int) && mmio::writes(final(bus).log())
                == mmio::writes(old(bus).log()) + table_writes(
                table@,
                stride as int,
                value_at as int,
            ),
            Err(e) => e == complaint && exists|k: int| #[trigger]
                first_bad(table@, stride as int, k) && mmio::writes(final(bus).log())
                    == mmio::writes(old(bus).log()) + table_writes(
                    table@,
                    stride as int,
                    value_at as int,
                ).take(k),
        },
{
    let count: usize = table.len() / stride;
    let ghost whole = table_writes(table@, stride as int, value_at as int);
    let ghost start = mmio::writes(bus.log());
    let mut k: usize = 0;
    assert(start =~= start + whole.take(0));
    while k < count
        invariant
            bus.port() == old(bus).port(),
            k <= count,
            count == table@.len() as int / stride as int,
            table@.len() <= 0x10_0000,
            8 <= stride <= 16,
            4 <= value_at,
            value_at + 4 <= stride,
            whole == table_writes(table@, stride as int, value_at as int),
            start == mmio::writes(old(bus).log()),
            mmio::memory_kept(old(bus).log(), bus.log()),
            forall|o: usize|
                #![trigger mmio::reads(bus.log(), o)]
                mmio::reads(bus.log(), o) == mmio::reads(old(bus).log(), o),
            mmio::writes(bus.log()) =~= start + whole.take(k as int),
            forall|j: int| 0 <= j < k ==> #[trigger] entry_ok(table@, stride as int, j),
        decreases count - k,
    {
        assert(0 <= k * stride && k * stride + stride <= table@.len()) by (nonlinear_arith)
            requires
                k < count,
                count == table@.len() as int / stride as int,
                stride >= 8,
        ;
        let place: usize = k * stride;
        let offset: u32 = firmware::word(table.as_slice(), place)?;
        if offset < 0x40_0000 || offset >= 0x60_0000 || offset % 4 != 0 {
            assert(first_bad(table@, stride as int, k as int));
            return Err(complaint);
        }
        let value: u32 = firmware::word(table.as_slice(), place + value_at)?;
        bus.write(offset as usize, value);
        assert(whole[k as int] == (offset as usize, value));
        assert(entry_ok(table@, stride as int, k as int));
        k = k + 1;
    }
    assert(whole.take(count as int) =~= whole);
    Ok(())
}

/// What is copied from the memory controller.
pub open spec fn copy_writes(log: Seq<Access>) -> Seq<(usize, u32)> {
    seq![
        (0x41_8880, mmio::last(log, 0x10_0c80) & 0xf000_187f),
        (0x41_8890, 0),
        (0x41_8894, 0),
        (0x41_88b0, mmio::last(log, 0x10_0cc4)),
        (0x41_88b4, mmio::last(log, 0x10_0cc8)),
        (0x41_88b8, mmio::last(log, 0x10_0ccc)),
        (0x41_88ac, mmio::last(log, 0x10_0800)),
        (0x50_3018, (mmio::last(log, 0x50_3018) & !1u32) | 1),
    ]
}

/// One cluster, with one or two units.
pub open spec fn topology(log: Seq<Access>) -> bool {
    &&& mmio::last(log, 0x40_9604) % 32 == 1
    &&& 1 <= mmio::last(log, 0x50_2608) <= 2
}

/// How work is spread over the units.
pub open spec fn spread_writes(log: Seq<Access>) -> Seq<(usize, u32)> {
    let units = mmio::last(log, 0x50_2608);
    let magic = (0x80_0000int + units - 1) / units as int;
    seq![
        (0x41_8980, if units == 2 { 0x10u32 } else { 0 }),
        (0x41_8984, 0),
        (0x41_8988, 0),
        (0x41_898c, 0),
        (0x50_0914, (0x100 + units) as u32),
        (0x50_0910, (0x4_0000 + units) as u32),
        (0x50_0918, magic as u32),
        (0x41_bfd4, magic as u32),
        (0x40_8850, (mmio::last(log, 0x40_8850) & !0xfu32) | mmio::last(log, 0x12_0074)),
        (0x40_8958, (mmio::last(log, 0x40_8958) & !0xfu32) | mmio::last(log, 0x12_0074)),
        (0x41_ac94, if units == 2 { 0x3_0000u32 } else { 0x1_0000 }),
    ]
}

/// Traps are enabled and cleared; interrupts of the host stay masked.
pub open spec fn trap_writes() -> Seq<(usize, u32)> {
    seq![
        (0x40_0500, 0x1_0001),
        (0x40_0100, 0xffff_ffff),
        (0x40_013c, 0),
        (0x40_9c24, 0xf_0000),
        (0x40_4000, 0xc000_0000),
        (0x40_4600, 0xc000_0000),
        (0x41_9e44, 0xdf_fffe),
        (0x41_9e4c, 5),
        (0x41_9d0c, 2),
        (0x40_0108, 0xffff_ffff),
        (0x40_0138, 0xffff_ffff),
        (0x40_0118, 0xffff_ffff),
        (0x40_0130, 0xffff_ffff),
        (0x40_011c, 0xffff_ffff),
        (0x40_0134, 0xffff_ffff),
    ]
}

/// What is copied was not: the last register is not there.
pub open spec fn copy_failed(before: Seq<Access>, after: Seq<Access>, e: &'static str) -> bool {
    exists|a: Seq<Access>|
        mmio::only_wrote(before, a, copy_writes(a).take(7)) && #[trigger] mask_failed(
            a,
            after,
            0x50_3018,
            e,
        )
}

fn copy_controller<R: Timed>(bus: &mut Bus<'_, R>) -> (r: Result<(), &'static str>)
    ensures
        final(bus).port() == old(bus).port(),
        mmio::memory_kept(old(bus).log(), final(bus).log()),
        mmio::begins(mmio::writes(final(bus).log()), mmio::writes(old(bus).log())),
        match r {
            Ok(_) => mmio::writes(final(bus).log()) == mmio::writes(old(bus).log()) + copy_writes(
                final(bus).log(),
            ),
            Err(e) => copy_failed(old(bus).log(), final(bus).log(), e),
        },
{
    let a: u32 = bus.read(0x10_0c80);
    bus.write(0x41_8880, a & 0xf000_187f);
    bus.write(0x41_8890, 0);
    bus.write(0x41_8894, 0);
    let b: u32 = bus.read(0x10_0cc4);
    bus.write(0x41_88b0, b);
    let c: u32 = bus.read(0x10_0cc8);
    bus.write(0x41_88b4, c);
    let d: u32 = bus.read(0x10_0ccc);
    bus.write(0x41_88b8, d);
    let e: u32 = bus.read(0x10_0800);
    bus.write(0x41_88ac, e);
    assert(mmio::writes(bus.log()) =~= mmio::writes(old(bus).log()) + copy_writes(bus.log()).take(
        7,
    ));
    mask(bus, 0x50_3018, 1, 1)?;
    assert(mmio::writes(bus.log()) =~= mmio::writes(old(bus).log()) + copy_writes(bus.log()));
    Ok(())
}

/// Work was not spread: the units are others, their number is unknown, or a register is not
/// there.
pub open spec fn spread_failed(before: Seq<Access>, after: Seq<Access>, e: &'static str) -> bool {
    &&& mmio::extends(before, after)
    &&& mmio::tried(before, after, 0x50_2608)
    &&& if !topology(after) {
        e == "GR topology is not supported GM20B geometry" && mmio::quiet(before, after)
    } else if mmio::last(after, 0x12_0074) > 15 {
        e == "GR active FBP count unreadable" && mmio::writes(after) == mmio::writes(before)
            + spread_writes(after).take(8)
    } else {
        &&& e == "GR masked register read returned all ones"
        &&& {
            ||| mmio::last(after, 0x40_8850) == u32::MAX && mmio::writes(after) == mmio::writes(
                before,
            ) + spread_writes(after).take(8)
            ||| mmio::last(after, 0x40_8958) == u32::MAX && mmio::writes(after) == mmio::writes(
                before,
            ) + spread_writes(after).take(9)
        }
    }
}

#[verifier::rlimit(60)]
fn spread<R: Timed>(bus: &mut Bus<'_, R>) -> (r: Result<(), &'static str>)
    ensures
        final(bus).port() == old(bus).port(),
        mmio::memory_kept(old(bus).log(), final(bus).log()),
        mmio::begins(mmio::writes(final(bus).log()), mmio::writes(old(bus).log())),
        match r {
            Ok(_) => topology(final(bus).log()) && mmio::last(final(bus).log(), 0x12_0074) <= 15
                && mmio::writes(final(bus).log()) == mmio::writes(old(bus).log()) + spread_writes(
                final(bus).log(),
            ),
            Err(e) => spread_failed(old(bus).log(), final(bus).log(), e),
        },
{
    let clusters: u32 = bus.read(0x40_9604);
    let units: u32 = bus.read(0x50_2608);
    if clusters % 32 != 1 || units < 1 || units > 2 {
        return Err("GR topology is not supported GM20B geometry");
    }
    let magic: u32 = (0x80_0000 + units - 1) / units;
    let first: u32 = if units == 2 {
        0x10
    } else {
        0
    };
    bus.write(0x41_8980, first);
    bus.write(0x41_8984, 0);
    bus.write(0x41_8988, 0);
    bus.write(0x41_898c, 0);
    bus.write(0x50_0914, 0x100 + units);
    bus.write(0x50_0910, 0x4_0000 + units);
    bus.write(0x50_0918, magic);
    bus.write(0x41_bfd4, magic);
    let active: u32 = bus.read(0x12_0074);
    let ghost w = mmio::writes(old(bus).log());
    assert(mmio::writes(bus.log()) =~= w + spread_writes(bus.log()).take(8));
    if active > 15 {
        return Err("GR active FBP count unreadable");
    }
    match mask(bus, 0x40_8850, 0xf, active) {
        Ok(_) => {},
        Err(e) => {
            assert(mmio::writes(bus.log()) =~= w + spread_writes(bus.log()).take(8));
            return Err(e);
        },
    }
    match mask(bus, 0x40_8958, 0xf, active) {
        Ok(_) => {},
        Err(e) => {
            assert(mmio::writes(bus.log()) =~= w + spread_writes(bus.log()).take(9));
            return Err(e);
        },
    }
    let present: u32 = if units == 2 {
        0x3_0000
    } else {
        0x1_0000
    };
    bus.write(0x41_ac94, present);
    assert(mmio::writes(bus.log()) =~= mmio::writes(old(bus).log()) + spread_writes(bus.log()));
    Ok(())
}

fn enable_traps<R: Timed>(bus: &mut Bus<'_, R>)
    ensures
        final(bus).port() == old(bus).port(),
        mmio::memory_kept(old(bus).log(), final(bus).log()),
        mmio::writes(final(bus).log()) == mmio::writes(old(bus).log()) + trap_writes(),
{
    bus.write(0x40_0500, 0x1_0001);
    bus.write(0x40_0100, u32::MAX);
    bus.write(0x40_013c, 0);
    bus.write(0x40_9c24, 0xf_0000);
    bus.write(0x40_4000, 0xc000_0000);
    bus.write(0x40_4600, 0xc000_0000);
    bus.write(0x41_9e44, 0xdf_fffe);
    bus.write(0x41_9e4c, 5);
    bus.write(0x41_9d0c, 2);
    bus.write(0x40_0108, u32::MAX);
    bus.write(0x40_0138, u32::MAX);
    bus.write(0x40_0118, u32::MAX);
    bus.write(0x40_0130, u32::MAX);
    bus.write(0x40_011c, u32::MAX);
    bus.write(0x40_0134, u32::MAX);
    assert(mmio::writes(bus.log()) =~= mmio::writes(old(bus).log()) + trap_writes());
}

/// Graphics was reset, its registers hold what the firmware's table says, and it is
/// set up for the units that are there.
pub open spec fn was_prepared(before: Seq<Access>, after: Seq<Access>, firmware: Firmware) -> bool {
    &&& mmio::extends(before, after)
    &&& table_ok(firmware.noncontext@, 8)
    &&& exists|a: Seq<Access>, b: Seq<Access>, c: Seq<Access>, d: Seq<Access>|
        {
            &&& mmio::extends(b, c)
            &&& mmio::extends(c, d)
            &&& mmio::extends(d, after)
            &&& #[trigger] was_reset(before, a, 0x1000)
            &&& was_rested(a, b, firmware)
            &&& mmio::writes(c) == #[trigger] mmio::writes(b) + copy_writes(c)
            &&& mmio::writes(d) == #[trigger] mmio::writes(c) + spread_writes(d)
            &&& topology(d)
            &&& mmio::writes(after) == #[trigger] mmio::writes(d) + trap_writes()
        }
}

/// The firmware's table was written.
pub open spec fn was_tabled(before: Seq<Access>, after: Seq<Access>, firmware: Firmware) -> bool {
    &&& table_ok(firmware.noncontext@, 8)
    &&& mmio::memory_kept(before, after)
    &&& mmio::writes(after) == mmio::writes(before).push((0x40_802c, 1u32)) + table_writes(
        firmware.noncontext@,
        8,
        4,
    )
}

/// The firmware's table was written, and the memories of both context processors and the
/// memory of graphics were then seen ready, one after the other.
pub open spec fn was_rested(before: Seq<Access>, after: Seq<Access>, firmware: Firmware) -> bool {
    &&& mmio::extends(before, after)
    &&& was_tabled(before, after, firmware)
    &&& exists|a: Seq<Access>, b: Seq<Access>, c: Seq<Access>|
        {
            &&& #[trigger] was_tabled(before, a, firmware)
            &&& #[trigger] awaited(a, b, 0x40_910c, Ready::Clear(6))
            &&& #[trigger] awaited(b, c, 0x41_a10c, Ready::Clear(6))
            &&& awaited(c, after, 0x40_060c, Ready::Clear(1))
        }
}

/// The firmware's table was written, and the memory of one or both context processors was
/// then seen ready.
pub open spec fn was_half_rested(
    before: Seq<Access>,
    after: Seq<Access>,
    firmware: Firmware,
    both: bool,
) -> bool {
    &&& mmio::extends(before, after)
    &&& exists|a: Seq<Access>, b: Seq<Access>|
        {
            &&& #[trigger] was_tabled(before, a, firmware)
            &&& #[trigger] awaited(a, b, 0x40_910c, Ready::Clear(6))
            &&& if both {
                awaited(b, after, 0x41_a10c, Ready::Clear(6))
            } else {
                after == b
            }
        }
}

/// The firmware's table names a register elsewhere, and was written up to there.
pub open spec fn table_failed(
    before: Seq<Access>,
    after: Seq<Access>,
    firmware: Firmware,
    e: &'static str,
) -> bool {
    &&& mmio::extends(before, after)
    &&& e == "GR noncontext register outside engine aperture"
    &&& exists|k: int|
        #[trigger] first_bad(firmware.noncontext@, 8, k) && mmio::writes(after) == mmio::writes(
            before,
        ).push((0x40_802c, 1u32)) + table_writes(firmware.noncontext@, 8, 4).take(k)
}

/// Graphics was not set up: where it stopped, and why.
pub open spec fn prepare_failed(
    before: Seq<Access>,
    after: Seq<Access>,
    firmware: Firmware,
    e: &'static str,
) -> bool {
    &&& mmio::extends(before, after)
    &&& {
        ||| reset_failed(before, after, 0x1000, e)
        ||| exists|a: Seq<Access>|
            #[trigger] was_reset(before, a, 0x1000) && table_failed(a, after, firmware, e)
        ||| exists|a: Seq<Access>, b: Seq<Access>|
            {
                &&& #[trigger] was_reset(before, a, 0x1000)
                &&& #[trigger] mmio::extends(a, b)
                &&& {
                    ||| was_tabled(a, b, firmware) && wait_failed(
                        b,
                        after,
                        0x40_910c,
                        Ready::Clear(6),
                        e,
                    )
                    ||| was_half_rested(a, b, firmware, false) && wait_failed(
                        b,
                        after,
                        0x41_a10c,
                        Ready::Clear(6),
                        e,
                    )
                    ||| was_half_rested(a, b, firmware, true) && wait_failed(
                        b,
                        after,
                        0x40_060c,
                        Ready::Clear(1),
                        e,
                    )
                    ||| was_rested(a, b, firmware) && copy_failed(b, after, e)
                }
            }
        ||| exists|a: Seq<Access>, b: Seq<Access>, c: Seq<Access>|
            {
                &&& #[trigger] was_reset(before, a, 0x1000)
                &&& #[trigger] was_rested(a, b, firmware)
                &&& mmio::only_wrote(b, c, copy_writes(c))
                &&& #[trigger] spread_failed(c, after, e)
            }
    }
}

/// Sets graphics up. A table that names a register elsewhere is never accepted.
pub fn gr_registers<R: Timed>(bus: &mut Bus<'_, R>, firmware: &Firmware) -> (r: Result<
    (),
    &'static str,
>)
    requires
        firmware.wf(),
    ensures
        final(bus).port() == old(bus).port(),
        mmio::memory_kept(old(bus).log(), final(bus).log()),
        mmio::begins(mmio::writes(final(bus).log()), mmio::writes(old(bus).log())),
        match r {
            Ok(_) => was_prepared(old(bus).log(), final(bus).log(), *firmware),
            Err(e) => prepare_failed(old(bus).log(), final(bus).log(), *firmware, e),
        },
        !table_ok(firmware.noncontext@, 8) ==> r is Err,
{
    reset(bus, 0x1000)?;
    let ghost a = bus.log();
    bus.write(0x40_802c, 1);
    match write_table(
        bus,
        &firmware.noncontext,
        8,
        4,
        "GR noncontext register outside engine aperture",
    ) {
        Ok(_) => {},
        Err(e) => {
            assert(table_failed(a, bus.log(), *firmware, e));
            return Err(e);
        },
    }
    let ghost tabled = bus.log();
    assert(was_tabled(a, tabled, *firmware));
    wait_reg(bus, 0x40_910c, Ready::Clear(6))?;
    let ghost first = bus.log();
    assert(was_half_rested(a, first, *firmware, false));
    wait_reg(bus, 0x41_a10c, Ready::Clear(6))?;
    let ghost second = bus.log();
    assert(awaited(first, second, 0x41_a10c, Ready::Clear(6)));
    assert(was_half_rested(a, second, *firmware, true));
    wait_reg(bus, 0x40_060c, Ready::Clear(1))?;
    let ghost b = bus.log();
    assert(was_rested(a, b, *firmware));
    copy_controller(bus)?;
    let ghost c = bus.log();
    spread(bus)?;
    let ghost d = bus.log();
    enable_traps(bus);
    proof {
        assert(mmio::writes(c) == mmio::writes(b) + copy_writes(c));
        assert(mmio::writes(d) == mmio::writes(c) + spread_writes(d));
        assert(mmio::writes(bus.log()) == mmio::writes(d) + trap_writes());
    }
    Ok(())
}

/// The context processor told a size.
pub open spec fn was_sized(
    before: Seq<Access>,
    after: Seq<Access>,
    method: u32,
    size: u32,
) -> bool {
    &&& mmio::writes(after) == mmio::writes(before) + seq![
        (0x40_9800usize, 0u32),
        (0x40_9500, 0),
        (0x40_9504, method),
    ]
    &&& mmio::memory_kept(before, after)
    &&& size == mmio::last(after, 0x40_9800)
    &&& size <= 0x10_0000
    // The register was seen set behind all of that, and the size was read from it then.
    &&& after.last() == Access::Read(0x40_9800, size)
    &&& exists|seen: u32|
        seen != 0 && seen != u32::MAX && #[trigger] mmio::stood(
            before,
            after,
            3,
            Access::Read(0x40_9800, seen),
        )
}

/// The context processor told no size, or one that is too large.
pub open spec fn size_failed(
    before: Seq<Access>,
    after: Seq<Access>,
    method: u32,
    e: &'static str,
) -> bool {
    &&& mmio::extends(before, after)
    &&& {
        let asked = mmio::writes(before) + seq![
            (0x40_9800usize, 0u32),
            (0x40_9500, 0),
            (0x40_9504, method),
        ];
        ||| exists|a: Seq<Access>|
            mmio::writes(a) == asked && #[trigger] wait_failed(
                a,
                after,
                0x40_9800,
                Ready::Any(u32::MAX),
                e,
            ) && mmio::extends(before, a)
        ||| {
            &&& e == "FECS context image size invalid"
            &&& mmio::writes(after) == asked
            &&& mmio::last(after, 0x40_9800) > 0x10_0000
        }
    }
}

/// Asks the context processor for a size.
pub fn context_size<R: Timed>(bus: &mut Bus<'_, R>, method: u32) -> (r: Result<u32, &'static str>)
    ensures
        final(bus).port() == old(bus).port(),
        mmio::memory_kept(old(bus).log(), final(bus).log()),
        mmio::writes(final(bus).log()) == mmio::writes(old(bus).log()) + seq![
            (0x40_9800usize, 0u32),
            (0x40_9500, 0),
            (0x40_9504, method),
        ],
        match r {
            Ok(size) => was_sized(old(bus).log(), final(bus).log(), method, size),
            Err(e) => size_failed(old(bus).log(), final(bus).log(), method, e),
        },
{
    bus.write(0x40_9800, 0);
    bus.write(0x40_9500, 0);
    bus.write(0x40_9504, method);
    assert(mmio::writes(bus.log()) =~= mmio::writes(old(bus).log()) + seq![
        (0x40_9800usize, 0u32),
        (0x40_9500, 0),
        (0x40_9504, method),
    ]);
    wait_reg(bus, 0x40_9800, Ready::Any(u32::MAX))?;
    let ghost there = bus.log();
    let size: u32 = bus.read(0x40_9800);
    if size > 0x10_0000 {
        return Err("FECS context image size invalid");
    }
    proof {
        let seen = there.last()->Read_1;
        assert(seen & u32::MAX == seen) by (bit_vector);
        mmio::lemma_stood(old(bus).log(), there, bus.log(), 3, Access::Read(0x40_9800, seen));
    }
    Ok(size)
}

/// The sizes that the context processor told, and the checksum of the golden context.
#[derive(Clone, Copy, Debug, PartialEq, Eq, Structural)]
pub struct Proof {
    pub context_size: u32,
    pub zcull_size: u32,
    pub performance_size: u32,
    pub golden_checksum: u32,
}

/// What loading the cluster's processor writes.
pub open spec fn cluster_writes(firmware: Firmware) -> Seq<(usize, u32)> {
    seq![(0x260usize, 0u32)] + dmem_writes(GPCCS, 0, firmware.gpccs_data@) + imem_writes(
        GPCCS,
        0,
        0,
        firmware.gpccs_inst@,
    )
}

/// What starting the two context processors writes.
pub open spec fn ready_writes(log: Seq<Access>) -> Seq<(usize, u32)> {
    seq![
        (0x260usize, 1u32),
        (0x40_9800, 0),
        (0x41_a10c, 0),
        (0x40_910c, 0),
        (start_register(GPCCS, mmio::last(log, (GPCCS + 0x100) as usize)), 2),
        (start_register(FECS, mmio::last(log, (FECS + 0x100) as usize)), 2),
        (0x40_9800, 0),
        (0x40_9500, 0x7fff_ffff),
        (0x40_9504, 0x21),
    ]
}

/// The cluster's processor was not loaded: its memory is of no size, or too small.
pub open spec fn cluster_failed(
    before: Seq<Access>,
    after: Seq<Access>,
    firmware: Firmware,
    e: &'static str,
) -> bool {
    &&& mmio::extends(before, after)
    &&& {
        let opened = mmio::writes(before).push((0x260usize, 0u32));
        &&& mmio::tried(before, after, 0x41_a108)
        &&& match limits_spec(mmio::last(after, 0x41_a108)) {
            Err(x) => e == x && mmio::writes(after) == opened,
            Ok((imem, dmem)) => if !fits(0, firmware.gpccs_data@.len(), 4, dmem) {
                e == "Falcon DMEM write outside SRAM" && mmio::writes(after) == opened
            } else {
                &&& e == "Falcon IMEM write outside SRAM"
                &&& !fits(0, firmware.gpccs_inst@.len(), 256, imem)
                &&& mmio::writes(after) == opened + dmem_writes(GPCCS, 0, firmware.gpccs_data@)
            },
        }
    }
}

/// Loads the cluster's processor.
fn load_cluster<R: Timed>(bus: &mut Bus<'_, R>, firmware: &Firmware) -> (r: Result<
    (),
    &'static str,
>)
    requires
        firmware.wf(),
    ensures
        final(bus).port() == old(bus).port(),
        mmio::memory_kept(old(bus).log(), final(bus).log()),
        mmio::begins(mmio::writes(final(bus).log()), mmio::writes(old(bus).log())),
        match r {
            Ok(_) => mmio::writes(final(bus).log()) == mmio::writes(old(bus).log())
                + cluster_writes(*firmware),
            Err(e) => cluster_failed(old(bus).log(), final(bus).log(), *firmware, e),
        },
{
    bus.write(0x260, 0);
    let geometry: u32 = bus.read(0x41_a108);
    let (imem, dmem): (u32, u32) = limits_of(geometry)?;
    dmem_write(bus, GPCCS, 0, firmware.gpccs_data.as_slice(), dmem)?;
    imem_write(bus, GPCCS, 0, 0, firmware.gpccs_inst.as_slice(), imem)?;
    assert(mmio::writes(bus.log()) =~= mmio::writes(old(bus).log()) + cluster_writes(*firmware));
    Ok(())
}

/// The context processors were not started: the control of one is not there, or they do not
/// answer.
pub open spec fn contexts_failed(before: Seq<Access>, after: Seq<Access>, e: &'static str) -> bool {
    ||| exists|a: Seq<Access>|
        mmio::only_wrote(before, a, ready_writes(a).take(4)) && #[trigger] start_failed(
            a,
            after,
            GPCCS,
            e,
        )
    ||| exists|a: Seq<Access>|
        mmio::only_wrote(before, a, ready_writes(a).take(5)) && #[trigger] start_failed(
            a,
            after,
            FECS,
            e,
        )
    ||| exists|a: Seq<Access>|
        mmio::only_wrote(before, a, ready_writes(a).take(6)) && #[trigger] wait_failed(
            a,
            after,
            0x40_9800,
            Ready::Any(1),
            e,
        )
}

/// The two context processors were started, and told that they are ready before the last
/// three writes.
pub open spec fn were_started(before: Seq<Access>, after: Seq<Access>) -> bool {
    &&& mmio::memory_kept(before, after)
    &&& mmio::writes(after) == mmio::writes(before) + ready_writes(after)
    &&& gmmu::ready_spec(Ready::Any(1), mmio::last(after, 0x40_9800))
    &&& exists|seen: u32|
        seen != u32::MAX && gmmu::ready_spec(Ready::Any(1), seen) && #[trigger] mmio::stood(
            before,
            after,
            6,
            Access::Read(0x40_9800, seen),
        )
}

/// Starts the two context processors.
fn start_contexts<R: Timed>(bus: &mut Bus<'_, R>) -> (r: Result<(), &'static str>)
    ensures
        final(bus).port() == old(bus).port(),
        mmio::memory_kept(old(bus).log(), final(bus).log()),
        mmio::begins(mmio::writes(final(bus).log()), mmio::writes(old(bus).log())),
        match r {
            Ok(_) => were_started(old(bus).log(), final(bus).log()),
            Err(e) => contexts_failed(old(bus).log(), final(bus).log(), e),
        },
{
    bus.write(0x260, 1);
    bus.write(0x40_9800, 0);
    bus.write(0x41_a10c, 0);
    bus.write(0x40_910c, 0);
    let ghost w = mmio::writes(old(bus).log());
    assert(mmio::writes(bus.log()) =~= w + ready_writes(bus.log()).take(4));
    start(bus, GPCCS)?;
    assert(mmio::writes(bus.log()) =~= w + ready_writes(bus.log()).take(5));
    start(bus, FECS)?;
    assert(mmio::writes(bus.log()) =~= w + ready_writes(bus.log()).take(6));
    wait_reg(bus, 0x40_9800, Ready::Any(1))?;
    let ghost there = bus.log();
    bus.write(0x40_9800, 0);
    bus.write(0x40_9500, 0x7fff_ffff);
    bus.write(0x40_9504, 0x21);
    assert(mmio::writes(bus.log()) =~= mmio::writes(old(bus).log()) + ready_writes(bus.log()));
    proof {
        let seen = there.last()->Read_1;
        mmio::lemma_stood(old(bus).log(), there, bus.log(), 6, Access::Read(0x40_9800, seen));
    }
    Ok(())
}

/// All processors run: graphics was prepared, the firmware protected, the cluster's
/// processor loaded and the context processors started.
#[verifier::opaque]
pub open spec fn was_started(before: Seq<Access>, after: Seq<Access>, gr: Gr) -> bool {
    &&& mmio::extends(before, after)
    &&& {
        exists|a: Seq<Access>, b: Seq<Access>, c: Seq<Access>, d: Seq<Access>, imem: u32, dmem: u32,
            to: Queue, middle: Seq<Access>, ready: Seq<Access>|
            {
                &&& #[trigger] was_prepared(before, a, gr.firmware)
                &&& #[trigger] was_secured(a, b, gr, imem, dmem)
                &&& mmio::only_wrote(b, c, cluster_writes(gr.firmware))
                &&& #[trigger] was_delegated(c, d, to, middle, ready, dmem)
                &&& were_started(d, after)
            }
    }
}

/// Not all processors run: which step stopped, and why.
#[verifier::opaque]
pub open spec fn start_all_failed(
    before: Seq<Access>,
    after: Seq<Access>,
    gr: Gr,
    e: &'static str,
) -> bool {
    &&& mmio::extends(before, after)
    &&& {
        ||| prepare_failed(before, after, gr.firmware, e)
        ||| exists|a: Seq<Access>|
            #[trigger] was_prepared(before, a, gr.firmware) && secure_failed(a, after, gr, e)
        ||| exists|a: Seq<Access>, b: Seq<Access>, imem: u32, dmem: u32|
            {
                &&& #[trigger] was_prepared(before, a, gr.firmware)
                &&& #[trigger] was_secured(a, b, gr, imem, dmem)
                &&& cluster_failed(b, after, gr.firmware, e)
            }
        ||| exists|a: Seq<Access>, b: Seq<Access>, c: Seq<Access>, imem: u32, dmem: u32|
            {
                &&& #[trigger] was_prepared(before, a, gr.firmware)
                &&& #[trigger] was_secured(a, b, gr, imem, dmem)
                &&& mmio::only_wrote(b, c, cluster_writes(gr.firmware))
                &&& #[trigger] delegation_failed(c, after, dmem, e)
            }
        ||| exists|
            a: Seq<Access>,
            b: Seq<Access>,
            c: Seq<Access>,
            d: Seq<Access>,
            imem: u32,
            dmem: u32,
            to: Queue,
            middle: Seq<Access>,
            ready: Seq<Access>,
        |
            {
                &&& #[trigger] was_prepared(before, a, gr.firmware)
                &&& #[trigger] was_secured(a, b, gr, imem, dmem)
                &&& mmio::only_wrote(b, c, cluster_writes(gr.firmware))
                &&& #[trigger] was_delegated(c, d, to, middle, ready, dmem)
                &&& contexts_failed(d, after, e)
            }
    }
}

impl Gr {
    /// Starts all processors.
    #[verifier::rlimit(100)]
    #[verifier::spinoff_prover]
    pub fn start_all<R: Dma>(&self, bus: &mut Bus<'_, R>) -> (r: Result<(), &'static str>)
        requires
            self.wf(),
        ensures
            final(bus).port() == old(bus).port(),
            mmio::extends(old(bus).log(), final(bus).log()),
            mmio::begins(mmio::writes(final(bus).log()), mmio::writes(old(bus).log())),
            match r {
                Ok(_) => was_started(old(bus).log(), final(bus).log(), *self),
                Err(e) => start_all_failed(old(bus).log(), final(bus).log(), *self, e),
            },
    {
        let ghost o = bus.log();
        match gr_registers(bus, &self.firmware) {
            Ok(_) => {},
            Err(e) => {
                assert(start_all_failed(o, bus.log(), *self, e)) by {
                    reveal(start_all_failed);
                }
                return Err(e);
            },
        }
        let ghost a = bus.log();
        let dmem: u32 = match self.boot_acr(bus) {
            Ok(dmem) => dmem,
            Err(e) => {
                assert(start_all_failed(o, bus.log(), *self, e)) by {
                    reveal(start_all_failed);
                }
                return Err(e);
            },
        };
        let ghost b = bus.log();
        match load_cluster(bus, &self.firmware) {
            Ok(_) => {},
            Err(e) => {
                assert(start_all_failed(o, bus.log(), *self, e)) by {
                    reveal(start_all_failed);
                }
                return Err(e);
            },
        }
        let ghost c = bus.log();
        match boot_fecs(bus, dmem) {
            Ok(_) => {},
            Err(e) => {
                assert(start_all_failed(o, bus.log(), *self, e)) by {
                    reveal(start_all_failed);
                }
                return Err(e);
            },
        }
        let ghost d = bus.log();
        match start_contexts(bus) {
            Ok(_) => {},
            Err(e) => {
                assert(start_all_failed(o, bus.log(), *self, e)) by {
                    reveal(start_all_failed);
                }
                return Err(e);
            },
        }
        assert(was_started(o, bus.log(), *self)) by {
            reveal(was_started);
        }
        Ok(())
    }
}

/// A table that names a register elsewhere stops the start of graphics.
pub proof fn tables_stay_inside_graphics(table: Seq<u8>, stride: int, value_at: int, k: int)
    requires
        stride > 0,
        table_ok(table, stride),
        0 <= k < table_writes(table, stride, value_at).len(),
    ensures
        0x40_0000 <= table_writes(table, stride, value_at)[k].0 < 0x60_0000,
        table_writes(table, stride, value_at)[k].0 % 4 == 0,
{
    assert(table.len() as int / stride >= 0) by (nonlinear_arith)
        requires
            stride > 0,
    ;
    assert(entry_ok(table, stride, k));
}

/// The reservation is read in units of 64 KiB, and its limit names the last two of them; it
/// is not empty and lies in the memory of the board.
pub proof fn reservations_are_read_in_units(start: u32, limit: u32)
    ensures
        wpr_spec(start, limit) matches Ok((from, to)) ==> {
            &&& from % 0x1_0000 == 0 && from / 0x1_0000 == start / 256
            &&& to % 0x1_0000 == 0 && to / 0x1_0000 == limit / 256 + 2
            &&& 0 < from < to <= 0x4_0000_0000
        },
        wpr_spec(start, limit) is Ok <==> {
            &&& start != 0xffff_ffff && limit != 0xffff_ffff
            &&& 256 <= start
            &&& start / 256 < limit / 256 + 2 <= 0x4_0000
        },
{
}

/// The memories of a processor are read in units of 256 bytes, each in nine bits: the code's
/// first, then the data's.
pub proof fn memories_are_read_in_units(value: u32)
    ensures
        limits_spec(value) matches Ok((imem, dmem)) ==> {
            &&& imem == 256 * (value % 512)
            &&& dmem == 256 * (value / 512 % 512)
        },
        limits_spec(value) is Ok <==> value != 0xffff_ffff && value % 512 > 0 && value / 512 % 512
            > 0,
{
}

/// Data go to the processor's memory from an offset on, every byte at its place, the lowest
/// of a word first, with the address moving on by itself.
pub proof fn data_arrive_in_order(falcon: usize, offset: u32, bytes: Seq<u8>, i: int)
    requires
        falcon <= 0x100_0000,
        offset < 0x100_0000,
        0 <= i < bytes.len(),
    ensures
        ({
            let w = dmem_writes(falcon, offset, bytes);
            &&& w.len() == 1 + (bytes.len() + 3) / 4
            &&& w[0].0 == falcon + 0x1c0 && w[0].1 == offset + 0x100_0000
            &&& w[1 + i / 4].0 == falcon + 0x1c4
            &&& words::byte_of(w[1 + i / 4].1, i % 4) == bytes[i]
        }),
{
    words::words_hold_their_bytes(bytes, i);
}

proof fn lemma_blocks(falcon: usize, tag: u32, bytes: Seq<u8>, count: int, block: int)
    requires
        0 <= block < count,
    ensures
        blocks_writes(falcon, tag, bytes, count).len() == 65 * count,
        blocks_writes(falcon, tag, bytes, count).subrange(65 * block, 65 * block + 65)
            == block_writes(falcon, tag, bytes, block),
    decreases count,
{
    let before = blocks_writes(falcon, tag, bytes, count - 1);
    let all = blocks_writes(falcon, tag, bytes, count);
    if count - 1 > 0 {
        lemma_blocks(falcon, tag, bytes, count - 1, 0);
    } else {
        assert(before.len() == 0);
    }
    if block < count - 1 {
        lemma_blocks(falcon, tag, bytes, count - 1, block);
        assert(all.subrange(65 * block, 65 * block + 65) =~= before.subrange(
            65 * block,
            65 * block + 65,
        ));
    } else {
        assert(all.subrange(65 * block, 65 * block + 65) =~= block_writes(
            falcon,
            tag,
            bytes,
            block,
        ));
    }
}

/// Code goes to the processor's memory in blocks of 256 bytes, each under its tag, the tags
/// following each other; every byte has its place, and the last block is filled up.
pub proof fn code_arrives_in_tagged_blocks(
    falcon: usize,
    offset: u32,
    tag: u32,
    bytes: Seq<u8>,
    i: int,
)
    requires
        falcon <= 0x100_0000,
        offset < 0x100_0000,
        0 <= i < bytes.len(),
        tag + bytes.len() <= u32::MAX,
    ensures
        ({
            let w = imem_writes(falcon, offset, tag, bytes);
            let block = i / 256;
            &&& w.len() == 1 + 65 * ((bytes.len() + 255) / 256)
            &&& w[0].0 == falcon + 0x180 && w[0].1 == offset + 0x100_0000
            &&& w[1 + 65 * block].0 == falcon + 0x188 && w[1 + 65 * block].1 == tag + block
            &&& w[2 + 65 * block + i % 256 / 4].0 == falcon + 0x184
            &&& words::byte_of(w[2 + 65 * block + i % 256 / 4].1, i % 4) == bytes[i]
        }),
{
    let block = i / 256;
    let count = (bytes.len() as int + 255) / 256;
    lemma_blocks(falcon, tag, bytes, count, block);
    let b = blocks_writes(falcon, tag, bytes, count);
    let one = block_writes(falcon, tag, bytes, block);
    assert(b.subrange(65 * block, 65 * block + 65)[0] == one[0]);
    assert(b.subrange(65 * block, 65 * block + 65)[1 + i % 256 / 4] == one[1 + i % 256 / 4]);
    assert(64 * block + i % 256 / 4 == i / 4);
    words::words_hold_their_bytes(bytes, i);
}

/// A command for the power unit has sixteen bytes, for its unit and under its number, and the
/// argument stands in four of them, the lowest first.
pub proof fn commands_carry_their_argument(kind: u8, sequence: u8, argument: u32)
    ensures
        ({
            let p = packet_spec(kind, sequence, argument);
            let at = if kind == 0 {
                8int
            } else {
                12
            };
            &&& p.len() == 16
            &&& p[0] == 0x0a && p[1] == 16 && p[2] == 3
            &&& p[3] == sequence && p[4] == kind
            &&& p[at] + 0x100 * p[at + 1] + 0x1_0000 * p[at + 2] + 0x100_0000 * p[at + 3]
                == argument
            &&& forall|i: int| 5 <= i < 16 && !(at <= i < at + 4) ==> p[i] == 0
        }),
{
    words::bytes_make_their_word(argument);
}

/// A queue of the power unit is where its description says, and its two pointers are the
/// ones of its number.
pub proof fn queues_are_where_they_are_said_to_be(
    init: Seq<u8>,
    index: int,
    head: usize,
    tail: usize,
    stride: int,
    dmem: u32,
    queue: Queue,
)
    requires
        queue_spec(init, index, head, tail, stride, dmem) == Ok::<Queue, &'static str>(queue),
        0 <= stride <= 16,
        head <= 0x1000,
        tail <= 0x1000,
        0 <= index < 5,
    ensures
        ({
            let at = 8 + 6 * index;
            &&& queue.size == init[at] + 256 * init[at + 1]
            &&& queue.offset == init[at + 2] + 256 * init[at + 3]
            &&& init[at + 4] < 4
            &&& queue.head == 0x10_a000 + head + init[at + 4] * stride
            &&& queue.tail == 0x10_a000 + tail + init[at + 4] * stride
            &&& 32 <= queue.size && queue.offset % 4 == 0 && queue.offset + queue.size <= dmem
        }),
{
    let id = init[8 + 6 * index + 4] as int;
    assert(0 <= id * stride <= 64) by (nonlinear_arith)
        requires
            0 <= id < 4,
            0 <= stride <= 16,
    ;
}

/// A message starts at the tail; where the head has come round it starts at the queue's
/// beginning. It ends at the head, and a header is there.
pub proof fn messages_lie_before_the_head(queue: Queue, head: u32, tail: u32)
    ensures
        message_spec(queue, head, tail) matches Ok((start, length)) ==> {
            &&& start + length == head
            &&& length >= 4
            &&& head >= tail ==> start == tail
            &&& head < tail ==> start == queue.offset
            &&& queue.offset <= start && head <= queue.offset + queue.size
        },
        queue.offset <= tail && tail + 4 <= head && head <= queue.offset + queue.size
            ==> message_spec(queue, head, tail) is Ok,
{
}

/// The loader is told where its own code, the secure code and the data are, in units of 256
/// bytes from where the image is seen.
pub proof fn loaders_are_told_the_sections(acr: Acr)
    requires
        acr.data_offset <= 0x1000_0000,
    ensures
        ({
            let d = descriptor_spec(acr);
            &&& d.len() == 19
            &&& 256 * d[9] == 0x1_0000
            &&& d[10] == acr.nonsecure_offset && d[11] == acr.nonsecure_size
            &&& d[12] == acr.secure_offset && d[13] == acr.secure_size
            &&& d[15] == (0x1_0000 + acr.data_offset) / 256 && d[16] == acr.data_size
            &&& forall|i: int| 0 <= i < 9 || i == 14 || 17 <= i < 19 ==> #[trigger] d[i] == 0
        }),
{
}

/// A processor with a lock on its control is started where the lock lets it.
pub proof fn processors_start_where_they_can(falcon: usize, control: u32)
    requires
        falcon <= 0x100_0000,
    ensures
        control & 0x40 == 0 ==> start_register(falcon, control) == falcon + 0x100,
        control & 0x40 != 0 ==> start_register(falcon, control) == falcon + 0x130,
{
}

/// Work is spread over the units that are there: each table tells their number, and the
/// reciprocal of it is rounded up.
pub proof fn work_is_spread_over_the_units(log: Seq<Access>)
    requires
        topology(log),
    ensures
        ({
            let units = mmio::last(log, 0x50_2608) as int;
            let w = spread_writes(log);
            &&& units == 1 || units == 2
            &&& w.len() == 11
            &&& w[0] == (0x41_8980usize, if units == 2 { 0x10u32 } else { 0 })
            &&& w[1] == (0x41_8984usize, 0u32) && w[2] == (0x41_8988usize, 0u32) && w[3] == (
                0x41_898cusize,
                0u32,
            )
            &&& w[4] == (0x50_0914usize, (0x100 + units) as u32)
            &&& w[5] == (0x50_0910usize, (0x4_0000 + units) as u32)
            &&& w[6].0 == 0x50_0918 && w[6].1 * units == 0x80_0000
            &&& w[7] == (0x41_bfd4usize, w[6].1)
            &&& w[8] == (
                0x40_8850usize,
                (mmio::last(log, 0x40_8850) & !0xfu32) | mmio::last(log, 0x12_0074),
            )
            &&& w[9] == (
                0x40_8958usize,
                (mmio::last(log, 0x40_8958) & !0xfu32) | mmio::last(log, 0x12_0074),
            )
            &&& w[10] == (0x41_ac94usize, if units == 2 { 0x3_0000u32 } else { 0x1_0000 })
        }),
{
    let units = mmio::last(log, 0x50_2608) as int;
    if units == 1 {
        assert((0x80_0000int + 1 - 1) / 1 == 0x80_0000);
    } else {
        assert((0x80_0000int + 2 - 1) / 2 == 0x40_0000);
    }
}

/// Traps are cleared and enabled, each in its register.
pub proof fn traps_are_enabled(i: int)
    requires
        9 <= i < 15,
    ensures
        ({
            let w = trap_writes();
            &&& w.len() == 15
            &&& w[0] == (0x40_0500usize, 0x1_0001u32)
            &&& w[1] == (0x40_0100usize, 0xffff_ffffu32) && w[2] == (0x40_013cusize, 0u32)
            &&& w[3] == (0x40_9c24usize, 0xf_0000u32)
            &&& w[4] == (0x40_4000usize, 0xc000_0000u32) && w[5] == (0x40_4600usize, 0xc000_0000u32)
            &&& w[6] == (0x41_9e44usize, 0xdf_fffeu32) && w[7] == (0x41_9e4cusize, 5u32) && w[8] == (
                0x41_9d0cusize,
                2u32,
            )
            &&& w[i].1 == 0xffff_ffff
            &&& w[i].0 == seq![
                0x40_0108int,
                0x40_0138,
                0x40_0118,
                0x40_0130,
                0x40_011c,
                0x40_0134,
            ][i - 9]
        }),
{
}

/// The context processor is asked for a size by a method, and tells it in its own register.
pub proof fn sizes_are_told(before: Seq<Access>, after: Seq<Access>, method: u32, size: u32)
    requires
        was_sized(before, after, method, size),
    ensures
        size <= 0x10_0000,
        after.last() == Access::Read(0x40_9800, size),
        mmio::writes(after).len() == mmio::writes(before).len() + 3,
        mmio::writes(after)[mmio::writes(before).len() as int] == (0x40_9800usize, 0u32),
        mmio::writes(after)[mmio::writes(before).len() as int + 1] == (0x40_9500usize, 0u32),
        mmio::writes(after).last() == (0x40_9504usize, method),
{
}

/// A table is written entry by entry, each a register inside graphics and its value, the
/// lowest byte first.
pub proof fn tables_are_written_in_order(table: Seq<u8>, stride: int, value_at: int, k: int)
    requires
        stride == 8 || stride == 12,
        4 <= value_at <= stride - 4,
        0 <= k < table.len() as int / stride,
        table_ok(table, stride),
    ensures
        ({
            let w = table_writes(table, stride, value_at);
            let at = k * stride;
            &&& w[k].0 == table[at] + 0x100 * table[at + 1] + 0x1_0000 * table[at + 2] + 0x100_0000
                * table[at + 3]
            &&& 0x40_0000 <= w[k].0 < 0x60_0000 && w[k].0 % 4 == 0
            &&& w[k].1 == table[at + value_at] + 0x100 * table[at + value_at + 1] + 0x1_0000 * table[at
                + value_at + 2] + 0x100_0000 * table[at + value_at + 3]
        }),
{
    assert(entry_ok(table, stride, k));
}

/// What the memory controller says of itself is copied to graphics, each to its place.
pub proof fn the_memory_controller_is_copied(log: Seq<Access>)
    ensures
        ({
            let w = copy_writes(log);
            &&& w.len() == 8
            &&& w[0] == (0x41_8880usize, mmio::last(log, 0x10_0c80) & 0xf000_187f)
            &&& w[1] == (0x41_8890usize, 0u32) && w[2] == (0x41_8894usize, 0u32)
            &&& w[3] == (0x41_88b0usize, mmio::last(log, 0x10_0cc4))
            &&& w[4] == (0x41_88b4usize, mmio::last(log, 0x10_0cc8))
            &&& w[5] == (0x41_88b8usize, mmio::last(log, 0x10_0ccc))
            &&& w[6] == (0x41_88acusize, mmio::last(log, 0x10_0800))
            &&& w[7] == (0x50_3018usize, (mmio::last(log, 0x50_3018) & !1u32) | 1)
        }),
{
}

} // verus!
