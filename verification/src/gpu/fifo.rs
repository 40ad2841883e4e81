//! The command queue of the graphics processor: a private channel that proves that
//! commands run, and the one channel that graphics keeps.
use vstd::prelude::*;

use crate::gpu::gmmu;
use crate::gpu::hardware::measure_clock;
use crate::gpu::hardware;
use crate::gpu::push;
use crate::mmio;
use crate::mmio::{Access, Bus, Dma, Timed};

verus! {

pub const USERD_VA: usize = 0x3000;

pub const RING_VA: usize = 0x4000;

pub const PUSH_VA: usize = 0x5000;

pub const FENCE_VA: usize = 0x6000;

pub const INSTANCE_VA: usize = 0x7000;

pub const RUNLIST_VA: usize = 0x8000;

/// Words of the control page: the reference, and both ends of the queue.
pub const USERD_REF: usize = 18;

pub const USERD_GP_GET: usize = 34;

pub const USERD_GP_PUT: usize = 35;

/// The same words through the aperture.
pub const SEEN_REF: usize = 0xc12;

pub const SEEN_GP_GET: usize = 0xc22;

pub const SEEN_GP_PUT: usize = 0xc23;

pub const SEEN_FENCE: usize = 0x1800;

pub const MC_ENABLE: usize = 0x200;

pub const PBDMA_ENABLE: usize = 0x204;

pub const FIFO_INTR: usize = 0x2100;

pub const FIFO_BAR1_BASE: usize = 0x2254;

pub const RUNLIST_BASE: usize = 0x2270;

pub const RUNLIST: usize = 0x2274;

pub const RUNLIST_ACTIVE_BASE: usize = 0x2280;

pub const RUNLIST_STATUS: usize = 0x2284;

pub const PBDMA_MAP: usize = 0x2390;

pub const FIFO_BIND_ERROR: usize = 0x252c;

pub const FIFO_SCHED_ERROR: usize = 0x254c;

pub const FIFO_CHSW_ERROR: usize = 0x256c;

pub const ERROR_SCHED_DISABLE: usize = 0x262c;

pub const SCHED_DISABLE: usize = 0x2630;

pub const PREEMPT: usize = 0x2634;

pub const ENGINE0: usize = 0x2640;

pub const ENGINE1: usize = 0x2648;

pub const PBDMA_CONTEXT: usize = 0x3080;

pub const PBDMA_STATUS: usize = 0x4_0100;

pub const PBDMA_INTR0: usize = 0x4_0108;

pub const PBDMA_INTR0_ENABLE: usize = 0x4_010c;

pub const PBDMA_INTR1: usize = 0x4_0148;

pub const PBDMA_INTR1_ENABLE: usize = 0x4_014c;

pub const GR_INTR: usize = 0x40_0100;

pub const CHANNEL_INST: usize = 0x80_0000;

pub const CHANNEL: usize = 0x80_0004;

/// Bound, in ordinary memory.
pub const CHANNEL_INST_VIDEO: u32 = 0x8000_0000;

/// Binding, scheduling, switching, flushing and translation. That a list of
/// channels was taken over is no error.
pub const FIFO_ERRORS: u32 = 0x1981_0111;

pub const TIMEOUT_NS: u64 = 100_000_000;

pub const GRAPHICS_TIMEOUT_NS: u64 = 2_000_000_000;

pub const GPFIFO_ENTRIES: u32 = 512;

pub const FIRST_SEQUENCE: u32 = 0x5347_4631;

pub const SECOND_SEQUENCE: u32 = 0x5347_4632;

/// Areas of shared memory, beside those of the translation.
pub const INSTANCE: usize = 8;

pub const USERD: usize = 9;

pub const RING: usize = 10;

pub const PUSH: usize = 11;

pub const FENCE: usize = 12;

pub const RUNLIST_PAGE: usize = 13;

/// Commands of the host class: a fence is released, then a reference set.
pub open spec fn commands_spec(sequence: u32) -> Seq<u32> {
    seq![
        0x2004_0004u32,
        0u32,
        0x6000u32,
        sequence,
        0x110_0002u32,
        0x2001_0014u32,
        sequence,
    ]
}

pub fn host_commands(sequence: u32) -> (r: [u32; 7])
    ensures
        r@ == commands_spec(sequence),
{
    let words: [u32; 7] = [0x2004_0004, 0, 0x6000, sequence, 0x110_0002, 0x2001_0014, sequence];
    assert(words@ =~= commands_spec(sequence));
    words
}

/// Why the hardware refused a binding.
#[derive(Clone, Copy, Debug, PartialEq, Eq, Structural)]
pub enum BindReason {
    Nothing,
    BindNotUnbound,
    SnoopWithoutBar1,
    UnbindWhileRunning,
    InvalidRunlist,
    InvalidCtxTgt,
    UnbindWhileParked,
    Unknown,
}

pub open spec fn reason_spec(bind: u32) -> BindReason {
    let code = bind % 256;
    if code == 0 {
        BindReason::Nothing
    } else if code == 1 {
        BindReason::BindNotUnbound
    } else if code == 2 {
        BindReason::SnoopWithoutBar1
    } else if code == 3 {
        BindReason::UnbindWhileRunning
    } else if code == 5 {
        BindReason::InvalidRunlist
    } else if code == 6 {
        BindReason::InvalidCtxTgt
    } else if code == 11 {
        BindReason::UnbindWhileParked
    } else {
        BindReason::Unknown
    }
}

pub fn bind_reason(bind: u32) -> (r: BindReason)
    ensures
        r == reason_spec(bind),
{
    match bind % 256 {
        0 => BindReason::Nothing,
        1 => BindReason::BindNotUnbound,
        2 => BindReason::SnoopWithoutBar1,
        3 => BindReason::UnbindWhileRunning,
        5 => BindReason::InvalidRunlist,
        6 => BindReason::InvalidCtxTgt,
        11 => BindReason::UnbindWhileParked,
        _ => BindReason::Unknown,
    }
}

/// Where the loaded channel is. Without a loaded channel these mean nothing.
#[derive(Clone, Copy, Debug, PartialEq, Eq, Structural)]
pub struct Pointers {
    pub base_high: u32,
    pub base_low: u32,
    pub userd_high: u32,
    pub userd_low: u32,
    pub gp_get: u32,
    pub gp_put: u32,
    pub pb_high: u32,
    pub pb_low: u32,
    pub header: u32,
    pub method: u32,
}

/// Everything that is kept of a failure, before power goes.
#[derive(Clone, Copy, Debug, PartialEq, Eq, Structural)]
pub struct FailureSnapshot {
    pub fifo: u32,
    pub pbdma0: u32,
    pub pbdma1: u32,
    pub channel: u32,
    pub context: u32,
    pub runlist: u32,
    pub runlist_base: u32,
    pub instance: u32,
    pub pbdma_status: u32,
    pub bind: u32,
    pub scheduler: u32,
    pub fault_disable: u32,
    pub engine0: u32,
    pub engine1: u32,
    pub bar1_base: u32,
    pub sched_error: u32,
    pub chsw_error: u32,
    pub mc_enable: u32,
    pub pbdma_enable: u32,
    pub pbdma_map: u32,
    pub get: u32,
    pub put: u32,
    pub reference: u32,
    pub fence: u32,
    pub reason: BindReason,
    pub channel_state: u32,
    pub pbdma_state: u32,
    pub pointers: Option<Pointers>,
}

/// A channel is loaded in these states.
pub open spec fn loaded_spec(context: u32) -> bool {
    let state = context / 0x2000 % 8;
    context != u32::MAX && (state == 1 || state == 5 || state == 6 || state == 7)
}

pub open spec fn pointers_log(p: Pointers) -> Seq<Access> {
    seq![
        Access::Read(0x4_004c, p.base_high),
        Access::Read(0x4_0048, p.base_low),
        Access::Read(0x4_000c, p.userd_high),
        Access::Read(0x4_0008, p.userd_low),
        Access::Read(0x4_0014, p.gp_get),
        Access::Read(0x4_0000, p.gp_put),
        Access::Read(0x4_001c, p.pb_high),
        Access::Read(0x4_0018, p.pb_low),
        Access::Read(0x4_0084, p.header),
        Access::Read(0x4_00c0, p.method),
    ]
}

/// What was read for a snapshot.
pub open spec fn snapshot_log(s: FailureSnapshot) -> Seq<Access> {
    seq![
        Access::Read(FIFO_INTR, s.fifo),
        Access::Read(PBDMA_INTR0, s.pbdma0),
        Access::Read(PBDMA_INTR1, s.pbdma1),
        Access::Read(CHANNEL, s.channel),
        Access::Read(PBDMA_CONTEXT, s.context),
        Access::Read(RUNLIST_STATUS, s.runlist),
        Access::Read(RUNLIST_ACTIVE_BASE, s.runlist_base),
        Access::Read(CHANNEL_INST, s.instance),
        Access::Read(PBDMA_STATUS, s.pbdma_status),
        Access::Read(FIFO_BIND_ERROR, s.bind),
        Access::Read(SCHED_DISABLE, s.scheduler),
        Access::Read(ERROR_SCHED_DISABLE, s.fault_disable),
        Access::Read(ENGINE0, s.engine0),
        Access::Read(ENGINE1, s.engine1),
        Access::Read(FIFO_BAR1_BASE, s.bar1_base),
        Access::Read(FIFO_SCHED_ERROR, s.sched_error),
        Access::Read(FIFO_CHSW_ERROR, s.chsw_error),
        Access::Read(MC_ENABLE, s.mc_enable),
        Access::Read(PBDMA_ENABLE, s.pbdma_enable),
        Access::Read(PBDMA_MAP, s.pbdma_map),
        Access::Load(gmmu::BAR1, SEEN_GP_GET, s.get),
        Access::Load(gmmu::BAR1, SEEN_GP_PUT, s.put),
        Access::Load(gmmu::BAR1, SEEN_REF, s.reference),
        Access::Load(gmmu::BAR1, SEEN_FENCE, s.fence),
    ] + match s.pointers {
        None => seq![],
        Some(p) => pointers_log(p),
    }
}

/// What is made of the readings.
pub open spec fn interpreted(s: FailureSnapshot) -> bool {
    &&& s.reason == reason_spec(s.bind)
    &&& s.channel_state == s.channel / 0x100_0000 % 16
    &&& s.pbdma_state == s.context / 0x2000 % 8
    &&& s.pointers is Some <==> loaded_spec(s.context)
}

fn read_pointers<R: Dma>(bus: &mut Bus<'_, R>) -> (p: Pointers)
    ensures
        final(bus).port() == old(bus).port(),
        final(bus).log() == old(bus).log() + pointers_log(p),
        mmio::writes(final(bus).log()) == mmio::writes(old(bus).log()),
        mmio::stores(final(bus).log()) == mmio::stores(old(bus).log()),
        mmio::extends(old(bus).log(), final(bus).log()),
{
    let base_high: u32 = bus.read(0x4_004c);
    let base_low: u32 = bus.read(0x4_0048);
    let userd_high: u32 = bus.read(0x4_000c);
    let userd_low: u32 = bus.read(0x4_0008);
    let gp_get: u32 = bus.read(0x4_0014);
    let gp_put: u32 = bus.read(0x4_0000);
    let pb_high: u32 = bus.read(0x4_001c);
    let pb_low: u32 = bus.read(0x4_0018);
    let header: u32 = bus.read(0x4_0084);
    let method: u32 = bus.read(0x4_00c0);
    let p = Pointers {
        base_high,
        base_low,
        userd_high,
        userd_low,
        gp_get,
        gp_put,
        pb_high,
        pb_low,
        header,
        method,
    };
    assert(bus.log() =~= old(bus).log() + pointers_log(p));
    p
}

/// Takes the state of a failure. Nothing is changed.
#[verifier::rlimit(60)]
pub fn diagnose<R: Dma>(bus: &mut Bus<'_, R>) -> (s: FailureSnapshot)
    ensures
        final(bus).port() == old(bus).port(),
        final(bus).log() == old(bus).log() + snapshot_log(s),
        interpreted(s),
        mmio::writes(final(bus).log()) == mmio::writes(old(bus).log()),
        mmio::stores(final(bus).log()) == mmio::stores(old(bus).log()),
        mmio::extends(old(bus).log(), final(bus).log()),
{
    let fifo: u32 = bus.read(FIFO_INTR);
    let pbdma0: u32 = bus.read(PBDMA_INTR0);
    let pbdma1: u32 = bus.read(PBDMA_INTR1);
    let channel: u32 = bus.read(CHANNEL);
    let context: u32 = bus.read(PBDMA_CONTEXT);
    let runlist: u32 = bus.read(RUNLIST_STATUS);
    let runlist_base: u32 = bus.read(RUNLIST_ACTIVE_BASE);
    let instance: u32 = bus.read(CHANNEL_INST);
    let pbdma_status: u32 = bus.read(PBDMA_STATUS);
    let bind: u32 = bus.read(FIFO_BIND_ERROR);
    let scheduler: u32 = bus.read(SCHED_DISABLE);
    let fault_disable: u32 = bus.read(ERROR_SCHED_DISABLE);
    let engine0: u32 = bus.read(ENGINE0);
    let engine1: u32 = bus.read(ENGINE1);
    let bar1_base: u32 = bus.read(FIFO_BAR1_BASE);
    let sched_error: u32 = bus.read(FIFO_SCHED_ERROR);
    let chsw_error: u32 = bus.read(FIFO_CHSW_ERROR);
    let mc_enable: u32 = bus.read(MC_ENABLE);
    let pbdma_enable: u32 = bus.read(PBDMA_ENABLE);
    let pbdma_map: u32 = bus.read(PBDMA_MAP);
    let get: u32 = bus.load(gmmu::BAR1, SEEN_GP_GET);
    let put: u32 = bus.load(gmmu::BAR1, SEEN_GP_PUT);
    let reference: u32 = bus.load(gmmu::BAR1, SEEN_REF);
    let fence: u32 = bus.load(gmmu::BAR1, SEEN_FENCE);
    let state: u32 = context / 0x2000 % 8;
    let pointers: Option<Pointers> = if context != u32::MAX && (state == 1 || state == 5 || state
        == 6 || state == 7) {
        Some(read_pointers(bus))
    } else {
        None
    };
    let s = FailureSnapshot {
        fifo,
        pbdma0,
        pbdma1,
        channel,
        context,
        runlist,
        runlist_base,
        instance,
        pbdma_status,
        bind,
        scheduler,
        fault_disable,
        engine0,
        engine1,
        bar1_base,
        sched_error,
        chsw_error,
        mc_enable,
        pbdma_enable,
        pbdma_map,
        get,
        put,
        reference,
        fence,
        reason: bind_reason(bind),
        channel_state: channel / 0x100_0000 % 16,
        pbdma_state: state,
        pointers,
    };
    assert(bus.log() =~= old(bus).log() + snapshot_log(s));
    s
}

/// Completion as the device showed it.
#[derive(Clone, Copy, Debug, PartialEq, Eq, Structural)]
pub struct Proof {
    pub gp_get: u32,
    pub reference: u32,
    pub fence: u32,
}

/// The channel that graphics keeps: the next place of the queue, and the last
/// sequence that is known to be over.
#[derive(Clone, Copy, Debug, PartialEq, Eq, Structural)]
pub struct GraphicsChannel {
    pub context_va: u64,
    pub put: u32,
    pub completed_sequence: Option<u32>,
}

/// The queue, by the physical addresses of its pages.
pub struct Fifo {
    pub instance: u64,
    pub userd: u64,
    pub runlist: u64,
    pub graphics: Option<GraphicsChannel>,
    pub failure: Option<FailureSnapshot>,
}

/// What is wrong with a queue that has to be idle.
pub open spec fn idle_error(
    fifo: Fifo,
    channel: u32,
    get: u32,
    put: u32,
    reference: u32,
    fence: u32,
) -> Option<&'static str> {
    let expected = if fifo.graphics is Some {
        fifo.bound_word()
    } else {
        0
    };
    if channel == u32::MAX || get == u32::MAX || put == u32::MAX || channel != expected || get
        != put {
        Some("FIFO channel is not idle")
    } else {
        match fifo.graphics {
            None => None,
            Some(graphics) => match graphics.completed_sequence {
                None => Some("FIFO graphics submission has not retired"),
                Some(sequence) => if put != graphics.put || reference != sequence || fence
                    != sequence {
                    Some("FIFO graphics completion is not visible")
                } else {
                    None
                },
            },
        }
    }
}

/// The queue was asked whether it is idle, and this is wrong with it.
pub open spec fn was_asked(
    before: Seq<Access>,
    after: Seq<Access>,
    fifo: Fifo,
    error: Option<&'static str>,
) -> bool {
    exists|channel: u32, get: u32, put: u32, reference: u32, fence: u32|
        {
            &&& after == before + seq![
                Access::Read(CHANNEL_INST, channel),
                Access::Load(gmmu::BAR1, SEEN_GP_GET, get),
                Access::Load(gmmu::BAR1, SEEN_GP_PUT, put),
                Access::Load(gmmu::BAR1, SEEN_REF, reference),
                Access::Load(gmmu::BAR1, SEEN_FENCE, fence),
            ]
            &&& #[trigger] idle_error(fifo, channel, get, put, reference, fence) == error
        }
}

/// A failure was kept: what was read of it follows what was seen.
pub open spec fn kept(
    seen: Seq<Access>,
    after: Seq<Access>,
    failure: Option<FailureSnapshot>,
) -> bool {
    failure matches Some(s) && interpreted(s) && after == seen + snapshot_log(s)
}

/// Some bits of a register were read clear at last; only looks were made before that.
pub open spec fn cleared(
    before: Seq<Access>,
    after: Seq<Access>,
    offset: usize,
    mask: u32,
) -> bool {
    &&& looked(before, after)
    &&& before.len() < after.len()
    &&& after.last() matches Access::Read(o, v) && o == offset && v != u32::MAX && v & mask == 0
}

/// Bits did not clear: the register is not there, or they stay until the time is up.
pub open spec fn clear_failed(
    before: Seq<Access>,
    seen: Seq<Access>,
    offset: usize,
    mask: u32,
    timeout_ns: u64,
    e: &'static str,
) -> bool {
    let value = mmio::last(seen, offset);
    &&& mmio::extends(before, seen)
    &&& looked(before, seen)
    &&& if timeout_ns < 2_000 {
        e == "FIFO hardware completion timeout"
    } else {
        &&& mmio::tried(before, seen, offset)
        &&& if value == u32::MAX {
            e == "FIFO completion register returned all ones"
        } else {
            e == "FIFO hardware completion timeout" && value & mask != 0 && mmio::ran_out(
                before,
                seen,
                timeout_ns,
                timeout_ns as int / 2_000,
            )
        }
    }
}

/// Bits did not clear, and the failure was kept.
pub open spec fn wait_failed(
    before: Seq<Access>,
    after: Seq<Access>,
    offset: usize,
    mask: u32,
    timeout_ns: u64,
    failure: Option<FailureSnapshot>,
    e: &'static str,
) -> bool {
    &&& mmio::extends(before, after)
    &&& {
        exists|seen: Seq<Access>|
            kept(seen, after, failure) && #[trigger] clear_failed(
                before,
                seen,
                offset,
                mask,
                timeout_ns,
                e,
            ) && mmio::extends(seen, after)
    }
}

/// The control page was published, and is taken.
pub open spec fn published(before: Seq<Access>) -> Seq<Access> {
    before.push(Access::Write(FIFO_BAR1_BASE, 0x1000_0003)).push(
        Access::Read(FIFO_BAR1_BASE, 0x1000_0003),
    )
}

/// The control page was not taken, and the failure was kept.
pub open spec fn publish_failed(
    before: Seq<Access>,
    after: Seq<Access>,
    failure: Option<FailureSnapshot>,
    e: &'static str,
) -> bool {
    &&& mmio::extends(before, after)
    &&& {
        exists|seen: Seq<Access>|
            {
                &&& mmio::extends(before, seen)
                &&& mmio::extends(seen, after)
                &&& #[trigger] kept(seen, after, failure)
                &&& e == "FIFO USERD BAR1 base readback mismatch"
                &&& mmio::last(seen, FIFO_BAR1_BASE) != 0x1000_0003
                &&& seen == before.push(Access::Write(FIFO_BAR1_BASE, 0x1000_0003)).push(
                    Access::Read(FIFO_BAR1_BASE, mmio::last(seen, FIFO_BAR1_BASE)),
                )
            }
    }
}

/// What was read of the scheduler when the list of channels had been given, and again when
/// the scheduler had been let go.
pub struct Scheduling {
    pub disabled: u32,
    pub fault: u32,
    pub interrupts: u32,
    pub blocked: u32,
}

/// The list of channels was given.
pub open spec fn listed(fifo: Fifo, before: Seq<Access>) -> Seq<Access> {
    before.push(Access::Write(RUNLIST_BASE, (fifo.runlist / 4096) as u32)).push(
        Access::Write(RUNLIST, 1),
    )
}

/// The scheduler was asked whether it takes a list.
pub open spec fn asked(taken: Seq<Access>, s: Scheduling) -> Seq<Access> {
    taken.push(Access::Read(SCHED_DISABLE, s.disabled)).push(
        Access::Read(ERROR_SCHED_DISABLE, s.fault),
    )
}

/// The scheduler was let go, and asked again.
pub open spec fn let_go(taken: Seq<Access>, s: Scheduling) -> Seq<Access> {
    asked(taken, s).push(Access::Read(FIFO_INTR, s.interrupts)).push(
        Access::Write(SCHED_DISABLE, s.disabled & !1u32),
    ).push(Access::Read(SCHED_DISABLE, s.blocked))
}

/// Nothing holds the scheduler back but itself.
pub open spec fn schedulable(s: Scheduling) -> bool {
    &&& s.disabled != u32::MAX && s.fault != u32::MAX
    &&& s.fault & 1 == 0 && s.interrupts & FIFO_ERRORS == 0
}

/// The list of channels was given and taken, and the scheduler is let go.
pub open spec fn activated(
    fifo: Fifo,
    before: Seq<Access>,
    taken: Seq<Access>,
    after: Seq<Access>,
    s: Scheduling,
) -> bool {
    &&& cleared(listed(fifo, before), taken, RUNLIST_STATUS, 0x10_0000)
    &&& schedulable(s) && s.blocked & 1 == 0
    &&& after == let_go(taken, s)
}

/// The list of channels is active.
pub open spec fn was_activated(fifo: Fifo, before: Seq<Access>, after: Seq<Access>) -> bool {
    exists|taken: Seq<Access>, s: Scheduling| #[trigger] activated(fifo, before, taken, after, s)
}

/// The list of channels was given and taken, and the scheduler refuses it.
pub open spec fn refused(
    fifo: Fifo,
    before: Seq<Access>,
    taken: Seq<Access>,
    seen: Seq<Access>,
    s: Scheduling,
    e: &'static str,
) -> bool {
    &&& cleared(listed(fifo, before), taken, RUNLIST_STATUS, 0x10_0000)
    &&& {
        ||| {
            &&& e == "FIFO scheduler register returned all ones"
            &&& s.disabled == u32::MAX || s.fault == u32::MAX
            &&& seen == asked(taken, s)
        }
        ||| {
            &&& e == "FIFO runlist zero is fault-blocked"
            &&& s.disabled != u32::MAX && s.fault != u32::MAX
            &&& s.fault & 1 != 0 || s.interrupts & FIFO_ERRORS != 0
            &&& seen == asked(taken, s).push(Access::Read(FIFO_INTR, s.interrupts))
        }
        ||| {
            &&& e == "FIFO runlist zero scheduler remained disabled"
            &&& schedulable(s) && s.blocked & 1 != 0
            &&& seen == let_go(taken, s)
        }
    }
}

/// The list of channels was given, and its scheduler refuses it.
pub open spec fn schedule_failed(
    fifo: Fifo,
    before: Seq<Access>,
    seen: Seq<Access>,
    e: &'static str,
) -> bool {
    &&& mmio::extends(before, seen)
    &&& exists|taken: Seq<Access>, s: Scheduling| #[trigger]
        refused(fifo, before, taken, seen, s, e)
}

/// The list of channels was not activated, and the failure was kept.
pub open spec fn activate_failed(
    fifo: Fifo,
    before: Seq<Access>,
    after: Seq<Access>,
    failure: Option<FailureSnapshot>,
    e: &'static str,
) -> bool {
    ||| wait_failed(
        listed(fifo, before),
        after,
        RUNLIST_STATUS,
        0x10_0000,
        TIMEOUT_NS,
        failure,
        e,
    )
    ||| exists|seen: Seq<Access>| #[trigger]
        kept(seen, after, failure) && schedule_failed(fifo, before, seen, e)
}

/// The queue or its engine reports an error that is enabled.
pub open spec fn fault_seen(log: Seq<Access>) -> bool {
    ||| mmio::last(log, FIFO_INTR) & FIFO_ERRORS != 0
    ||| mmio::last(log, PBDMA_INTR0) & mmio::last(log, PBDMA_INTR0_ENABLE) != 0
    ||| mmio::last(log, PBDMA_INTR1) & mmio::last(log, PBDMA_INTR1_ENABLE) != 0
}

/// What the aperture showed last of a submission.
pub open spec fn shown(log: Seq<Access>) -> Proof {
    Proof {
        gp_get: mmio::loads(log, gmmu::BAR1, SEEN_GP_GET).last(),
        reference: mmio::loads(log, gmmu::BAR1, SEEN_REF).last(),
        fence: mmio::loads(log, gmmu::BAR1, SEEN_FENCE).last(),
    }
}

/// What the queue and its engine reported, and what of it is enabled.
pub struct Interrupts {
    pub fifo: u32,
    pub pbdma0: u32,
    pub enabled0: u32,
    pub pbdma1: u32,
    pub enabled1: u32,
    pub graphics: u32,
}

/// Nothing reports an error that is enabled.
pub open spec fn harmless(i: Interrupts) -> bool {
    &&& i.fifo & FIFO_ERRORS == 0
    &&& i.pbdma0 & i.enabled0 == 0
    &&& i.pbdma1 & i.enabled1 == 0
}

/// The end of the queue was moved, and seen moved.
pub open spec fn moved(before: Seq<Access>, gp_put: u32) -> Seq<Access> {
    before.push(Access::Store(gmmu::BAR1, SEEN_GP_PUT, gp_put)).push(
        Access::Load(gmmu::BAR1, SEEN_GP_PUT, gp_put),
    )
}

/// The readings of the queue and its engine.
pub open spec fn interrupts_log(i: Interrupts) -> Seq<Access> {
    seq![
        Access::Read(FIFO_INTR, i.fifo),
        Access::Read(PBDMA_INTR0, i.pbdma0),
        Access::Read(PBDMA_INTR0_ENABLE, i.enabled0),
        Access::Read(PBDMA_INTR1, i.pbdma1),
        Access::Read(PBDMA_INTR1_ENABLE, i.enabled1),
    ]
}

/// How a look that finds no error of the queue ends.
pub open spec fn look(gp_get: u32, reference: u32, fence: u32, i: Interrupts) -> Seq<Access> {
    seq![
        Access::Load(gmmu::BAR1, SEEN_GP_GET, gp_get),
        Access::Load(gmmu::BAR1, SEEN_REF, reference),
        Access::Load(gmmu::BAR1, SEEN_FENCE, fence),
    ] + interrupts_log(i).push(Access::Read(GR_INTR, i.graphics))
}

/// The end of the queue was moved, and a last look showed the device there, the reference
/// set, the fence released and nothing wrong.
pub open spec fn completion(
    before: Seq<Access>,
    middle: Seq<Access>,
    after: Seq<Access>,
    gp_put: u32,
    sequence: u32,
    i: Interrupts,
) -> bool {
    &&& looked(moved(before, gp_put), middle)
    &&& harmless(i) && i.graphics & !1u32 == 0
    &&& after == middle + look(gp_put, sequence, sequence, i)
}

/// A submission is over.
pub open spec fn completed(
    before: Seq<Access>,
    after: Seq<Access>,
    gp_put: u32,
    sequence: u32,
) -> bool {
    &&& was_submitted(before, after, gp_put)
    &&& exists|middle: Seq<Access>, i: Interrupts| #[trigger]
        completion(before, middle, after, gp_put, sequence, i)
}

/// The end of the queue was moved.
pub open spec fn was_submitted(before: Seq<Access>, after: Seq<Access>, gp_put: u32) -> bool {
    &&& mmio::extends(before, after)
    &&& mmio::writes(after) == mmio::writes(before)
    &&& mmio::stores(after) == mmio::stores(before).push((gmmu::BAR1, SEEN_GP_PUT, gp_put))
}

/// A submission is not over: the end did not move, something reports an error, or the time
/// is up before the device got there.
pub open spec fn submit_stopped(
    before: Seq<Access>,
    seen: Seq<Access>,
    gp_put: u32,
    sequence: u32,
    timeout_ns: u64,
    e: &'static str,
) -> bool {
    &&& was_submitted(before, seen, gp_put)
    &&& {
        ||| e == "FIFO USERD GP_PUT readback mismatch" && mmio::loads(
            seen,
            gmmu::BAR1,
            SEEN_GP_PUT,
        ).last() != gp_put
        ||| e == "FIFO host-method execution fault" && fault_seen(seen)
        ||| e == "GR execution fault during FIFO submission" && mmio::last(seen, GR_INTR) & !1u32
            != 0
        ||| {
            &&& e == "FIFO host-method completion timeout"
            &&& timeout_ns >= 2_000 ==> !Fifo::retired(shown(seen), gp_put, sequence)
            &&& mmio::ran_out(
                seen.take(before.len() as int + 2),
                seen,
                timeout_ns,
                timeout_ns as int / 2_000,
            )
        }
    }
}

/// A submission is not over, and the failure was kept.
pub open spec fn submit_failed(
    before: Seq<Access>,
    after: Seq<Access>,
    gp_put: u32,
    sequence: u32,
    timeout_ns: u64,
    failure: Option<FailureSnapshot>,
    e: &'static str,
) -> bool {
    &&& mmio::extends(before, after)
    &&& {
        exists|seen: Seq<Access>|
            #[trigger] kept(seen, after, failure) && submit_stopped(
                before,
                seen,
                gp_put,
                sequence,
                timeout_ns,
                e,
            ) && mmio::extends(before, seen) && mmio::extends(seen, after)
    }
}

/// A channel was stopped and taken off the list.
pub open spec fn stopped(before: Seq<Access>, channel: u32) -> Seq<Access> {
    before.push(Access::Read(CHANNEL, channel)).push(
        Access::Write(CHANNEL, channel | 0x800),
    ).push(Access::Write(RUNLIST, 0))
}

/// A channel was unbound, and what it wrote is on its way to memory.
pub open spec fn unbound(before: Seq<Access>) -> Seq<Access> {
    before.push(Access::Write(CHANNEL_INST, 0)).push(Access::Write(FIFO_BAR1_BASE, 0)).push(
        Access::Write(gmmu::FLUSH, 1),
    )
}

/// The places at which a retirement waited: the list was given, the channel preempted and
/// no longer busy, and what it wrote flushed.
pub struct Retirement {
    pub channel: u32,
    pub listed: Seq<Access>,
    pub preempted: Seq<Access>,
    pub rested: Seq<Access>,
    pub flushed: Seq<Access>,
}

/// So many of the waits of a retirement were over.
pub open spec fn retiring(before: Seq<Access>, r: Retirement, n: int) -> bool {
    &&& n > 0 ==> cleared(stopped(before, r.channel), r.listed, RUNLIST_STATUS, 0x10_0000)
    &&& n > 1 ==> cleared(r.listed.push(Access::Write(PREEMPT, 0)), r.preempted, PREEMPT, 0x10_0000)
    &&& n > 2 ==> cleared(r.preempted, r.rested, CHANNEL, 0x1000_0000)
    &&& n > 3 ==> cleared(unbound(r.rested), r.flushed, gmmu::FLUSH, 3)
}

/// A channel was retired.
pub open spec fn was_retired(before: Seq<Access>, after: Seq<Access>) -> bool {
    exists|r: Retirement| #[trigger]
        retiring(before, r, 4) && cleared(
            r.flushed.push(Access::Write(gmmu::LTC_FLUSH, 1)),
            after,
            gmmu::LTC_FLUSH,
            3,
        )
}

/// A channel was not retired: a step of it is not over in time, and the failure was kept.
pub open spec fn retire_failed(
    before: Seq<Access>,
    after: Seq<Access>,
    timeout_ns: u64,
    failure: Option<FailureSnapshot>,
    e: &'static str,
) -> bool {
    &&& mmio::extends(before, after)
    &&& exists|r: Retirement, n: int|
        {
            &&& #[trigger] retiring(before, r, n)
            &&& {
                ||| n == 0 && wait_failed(
                    stopped(before, r.channel),
                    after,
                    RUNLIST_STATUS,
                    0x10_0000,
                    timeout_ns,
                    failure,
                    e,
                )
                ||| n == 1 && wait_failed(
                    r.listed.push(Access::Write(PREEMPT, 0)),
                    after,
                    PREEMPT,
                    0x10_0000,
                    timeout_ns,
                    failure,
                    e,
                )
                ||| n == 2 && wait_failed(
                    r.preempted,
                    after,
                    CHANNEL,
                    0x1000_0000,
                    timeout_ns,
                    failure,
                    e,
                )
                ||| n == 3 && wait_failed(
                    unbound(r.rested),
                    after,
                    gmmu::FLUSH,
                    3,
                    timeout_ns,
                    failure,
                    e,
                )
                ||| n == 4 && wait_failed(
                    r.flushed.push(Access::Write(gmmu::LTC_FLUSH, 1)),
                    after,
                    gmmu::LTC_FLUSH,
                    3,
                    timeout_ns,
                    failure,
                    e,
                )
            }
        }
}

impl Fifo {
    pub open spec fn wf(self) -> bool {
        &&& gmmu::reachable(self.instance, 1) && self.instance % 4096 == 0
        &&& gmmu::reachable(self.userd, 1) && self.userd % 4096 == 0
        &&& gmmu::reachable(self.runlist, 1) && self.runlist % 4096 == 0
        &&& self.graphics matches Some(channel) ==> channel.put < GPFIFO_ENTRIES
    }

    /// How a bound channel points to its instance.
    pub open spec fn bound_word(self) -> u32 {
        (CHANNEL_INST_VIDEO + self.instance / 4096) as u32
    }

    fn bound(&self) -> (r: u32)
        requires
            self.wf(),
        ensures
            r == self.bound_word(),
    {
        CHANNEL_INST_VIDEO + (self.instance / 4096) as u32
    }

    /// Everything but the pages and the kept failure.
    pub open spec fn same_channel(self, other: Fifo) -> bool {
        &&& self.instance == other.instance
        &&& self.userd == other.userd
        &&& self.runlist == other.runlist
        &&& self.graphics == other.graphics
    }

    pub fn idle<R: Dma>(&self, bus: &mut Bus<'_, R>) -> (r: Result<(), &'static str>)
        requires
            self.wf(),
        ensures
            final(bus).port() == old(bus).port(),
            was_asked(
                old(bus).log(),
                final(bus).log(),
                *self,
                match r {
                    Ok(_) => None,
                    Err(e) => Some(e),
                },
            ),
            mmio::extends(old(bus).log(), final(bus).log()),
            mmio::writes(final(bus).log()) == mmio::writes(old(bus).log()),
            mmio::stores(final(bus).log()) == mmio::stores(old(bus).log()),
    {
        let channel: u32 = bus.read(CHANNEL_INST);
        let get: u32 = bus.load(gmmu::BAR1, SEEN_GP_GET);
        let put: u32 = bus.load(gmmu::BAR1, SEEN_GP_PUT);
        let reference: u32 = bus.load(gmmu::BAR1, SEEN_REF);
        let fence: u32 = bus.load(gmmu::BAR1, SEEN_FENCE);
        assert(bus.log() =~= old(bus).log() + seq![
            Access::Read(CHANNEL_INST, channel),
            Access::Load(gmmu::BAR1, SEEN_GP_GET, get),
            Access::Load(gmmu::BAR1, SEEN_GP_PUT, put),
            Access::Load(gmmu::BAR1, SEEN_REF, reference),
            Access::Load(gmmu::BAR1, SEEN_FENCE, fence),
        ]);
        self.judge_idle(channel, get, put, reference, fence)
    }

    /// Judges readings of a queue that has to be idle.
    pub fn judge_idle(&self, channel: u32, get: u32, put: u32, reference: u32, fence: u32) -> (r:
        Result<(), &'static str>)
        requires
            self.wf(),
        ensures
            match r {
                Ok(_) => idle_error(*self, channel, get, put, reference, fence) is None,
                Err(e) => idle_error(*self, channel, get, put, reference, fence) == Some(e),
            },
    {
        let expected: u32 = if self.graphics.is_some() {
            self.bound()
        } else {
            0
        };
        if channel == u32::MAX || get == u32::MAX || put == u32::MAX || channel != expected || get
            != put {
            return Err("FIFO channel is not idle");
        }
        match &self.graphics {
            None => Ok(()),
            Some(graphics) => match graphics.completed_sequence {
                None => Err("FIFO graphics submission has not retired"),
                Some(sequence) => {
                    if put != graphics.put || reference != sequence || fence != sequence {
                        Err("FIFO graphics completion is not visible")
                    } else {
                        Ok(())
                    }
                },
            },
        }
    }

    /// Keeps the state of a failure.
    fn fail<R: Dma>(&mut self, bus: &mut Bus<'_, R>, error: &'static str) -> (r: &'static str)
        ensures
            final(bus).port() == old(bus).port(),
            mmio::extends(old(bus).log(), final(bus).log()),
            r == error,
            final(self).same_channel(*old(self)),
            final(self).failure is Some,
            kept(old(bus).log(), final(bus).log(), final(self).failure),
            mmio::writes(final(bus).log()) == mmio::writes(old(bus).log()),
            mmio::stores(final(bus).log()) == mmio::stores(old(bus).log()),
    {
        self.failure = Some(diagnose(bus));
        error
    }

    /// Polls a register until some bits are clear.
    #[verifier::rlimit(100)]
    fn wait_clear<R: Dma>(
        &mut self,
        bus: &mut Bus<'_, R>,
        offset: usize,
        mask: u32,
        timeout_ns: u64,
    ) -> (r: Result<(), &'static str>)
        ensures
            final(bus).port() == old(bus).port(),
            mmio::extends(old(bus).log(), final(bus).log()),
            final(self).same_channel(*old(self)),
            r is Ok ==> final(self).failure == old(self).failure,
            r is Err ==> final(self).failure is Some,
            r matches Err(e) ==> wait_failed(
                old(bus).log(),
                final(bus).log(),
                offset,
                mask,
                timeout_ns,
                final(self).failure,
                e,
            ),
            mmio::writes(final(bus).log()) == mmio::writes(old(bus).log()),
            mmio::stores(final(bus).log()) == mmio::stores(old(bus).log()),
            r is Ok ==> cleared(old(bus).log(), final(bus).log(), offset, mask),
    {
        let start: u64 = bus.now_ns();
        let deadline: u64 = start.saturating_add(timeout_ns);
        let mut polls: u64 = timeout_ns / 2_000;
        let ghost most = polls as int;
        while polls > 0
            invariant
                bus.port() == old(bus).port(),
                *self == *old(self),
                mmio::extends(old(bus).log(), bus.log()),
                mmio::writes(bus.log()) == mmio::writes(old(bus).log()),
                mmio::stores(bus.log()) == mmio::stores(old(bus).log()),
                polls <= most,
                most == timeout_ns as int / 2_000,
                deadline == mmio::until(start, timeout_ns),
                bus.log().len() == old(bus).log().len() + 1 + 3 * (most - polls),
                bus.log()[old(bus).log().len() as int] == Access::Time(start),
                polls < most ==> mmio::tried(old(bus).log(), bus.log(), offset) && mmio::last(
                    bus.log(),
                    offset,
                ) != u32::MAX && mmio::last(bus.log(), offset) & mask != 0,
                polls == most ==> mmio::reads(bus.log(), offset) == mmio::reads(
                    old(bus).log(),
                    offset,
                ),
            decreases polls,
        {
            let value: u32 = bus.read(offset);
            if value == u32::MAX {
                assert(clear_failed(
                    old(bus).log(),
                    bus.log(),
                    offset,
                    mask,
                    timeout_ns,
                    "FIFO completion register returned all ones",
                ));
                return Err(self.fail(bus, "FIFO completion register returned all ones"));
            }
            if value & mask == 0 {
                return Ok(());
            }
            let now: u64 = bus.now_ns();
            if now >= deadline {
                assert(clear_failed(
                    old(bus).log(),
                    bus.log(),
                    offset,
                    mask,
                    timeout_ns,
                    "FIFO hardware completion timeout",
                ));
                return Err(self.fail(bus, "FIFO hardware completion timeout"));
            }
            bus.delay_us(2);
            polls = polls - 1;
        }
        assert(clear_failed(
            old(bus).log(),
            bus.log(),
            offset,
            mask,
            timeout_ns,
            "FIFO hardware completion timeout",
        ));
        Err(self.fail(bus, "FIFO hardware completion timeout"))
    }

    /// Publishes the control page: binding looks at it at once.
    fn publish_userd<R: Dma>(&mut self, bus: &mut Bus<'_, R>) -> (r: Result<(), &'static str>)
        ensures
            final(bus).port() == old(bus).port(),
            final(self).same_channel(*old(self)),
            mmio::writes(final(bus).log()) == mmio::writes(old(bus).log()).push(
                (FIFO_BAR1_BASE, 0x1000_0003u32),
            ),
            mmio::stores(final(bus).log()) == mmio::stores(old(bus).log()),
            mmio::extends(old(bus).log(), final(bus).log()),
            r is Ok ==> final(self).failure == old(self).failure,
            r is Ok ==> final(bus).log() == published(old(bus).log()),
            r matches Err(e) ==> publish_failed(
                old(bus).log(),
                final(bus).log(),
                final(self).failure,
                e,
            ),
    {
        bus.write(FIFO_BAR1_BASE, 0x1000_0003);
        let seen: u32 = bus.read(FIFO_BAR1_BASE);
        if seen != 0x1000_0003 {
            return Err(self.fail(bus, "FIFO USERD BAR1 base readback mismatch"));
        }
        Ok(())
    }

    /// What activating the list of channels writes. A block that a fault caused is
    /// never lifted.
    pub open spec fn activate_writes(self, disabled: u32) -> Seq<(usize, u32)> {
        seq![
            (RUNLIST_BASE, (self.runlist / 4096) as u32),
            (RUNLIST, 1u32),
            (SCHED_DISABLE, disabled & !1u32),
        ]
    }

    #[verifier::rlimit(100)]
    fn activate_runlist<R: Dma>(&mut self, bus: &mut Bus<'_, R>) -> (r: Result<(), &'static str>)
        requires
            old(self).wf(),
        ensures
            final(bus).port() == old(bus).port(),
            final(self).same_channel(*old(self)),
            mmio::stores(final(bus).log()) == mmio::stores(old(bus).log()),
            mmio::extends(old(bus).log(), final(bus).log()),
            r is Ok ==> was_activated(*old(self), old(bus).log(), final(bus).log()),
            r matches Err(e) ==> activate_failed(
                *old(self),
                old(bus).log(),
                final(bus).log(),
                final(self).failure,
                e,
            ),
            exists|disabled: u32, n: int|
                mmio::writes(final(bus).log()) == mmio::writes(old(bus).log()) + #[trigger] old(self).activate_writes(disabled).take(n) && 0 <= n <= 3 && (r is Ok ==> n == 3) && (n
                    == 3 ==> mmio::saw(
                    old(bus).log(),
                    final(bus).log(),
                    SCHED_DISABLE,
                    disabled,
                )),
    {
        let ghost start = mmio::writes(bus.log());
        bus.write(RUNLIST_BASE, (self.runlist / 4096) as u32);
        bus.write(RUNLIST, 1);
        assert(mmio::writes(bus.log()) =~= start + old(self).activate_writes(0).take(2));
        assert(bus.log() == listed(*old(self), old(bus).log()));
        self.wait_clear(bus, RUNLIST_STATUS, 0x10_0000, TIMEOUT_NS)?;
        let ghost taken = bus.log();
        let disabled: u32 = bus.read(SCHED_DISABLE);
        let ghost seen = bus.log();
        let fault: u32 = bus.read(ERROR_SCHED_DISABLE);
        let ghost mut s = Scheduling { disabled, fault, interrupts: 0, blocked: 0 };
        if disabled == u32::MAX || fault == u32::MAX {
            assert(refused(
                *old(self),
                old(bus).log(),
                taken,
                bus.log(),
                s,
                "FIFO scheduler register returned all ones",
            ));
            assert(schedule_failed(
                *old(self),
                old(bus).log(),
                bus.log(),
                "FIFO scheduler register returned all ones",
            ));
            return Err(self.fail(bus, "FIFO scheduler register returned all ones"));
        }
        let interrupts: u32 = bus.read(FIFO_INTR);
        proof {
            s = Scheduling { interrupts, ..s };
        }
        if fault & 1 != 0 || interrupts & FIFO_ERRORS != 0 {
            assert(refused(
                *old(self),
                old(bus).log(),
                taken,
                bus.log(),
                s,
                "FIFO runlist zero is fault-blocked",
            ));
            assert(schedule_failed(
                *old(self),
                old(bus).log(),
                bus.log(),
                "FIFO runlist zero is fault-blocked",
            ));
            return Err(self.fail(bus, "FIFO runlist zero is fault-blocked"));
        }
        bus.write(SCHED_DISABLE, disabled & !1);
        assert(mmio::writes(bus.log()) =~= start + old(self).activate_writes(disabled).take(3));
        let blocked: u32 = bus.read(SCHED_DISABLE);
        proof {
            s = Scheduling { blocked, ..s };
            mmio::lemma_saw(old(bus).log(), seen, bus.log(), SCHED_DISABLE, disabled);
        }
        let ghost known = bus.log();
        if blocked & 1 != 0 {
            assert(refused(
                *old(self),
                old(bus).log(),
                taken,
                bus.log(),
                s,
                "FIFO runlist zero scheduler remained disabled",
            ));
            assert(schedule_failed(
                *old(self),
                old(bus).log(),
                bus.log(),
                "FIFO runlist zero scheduler remained disabled",
            ));
            let e = self.fail(bus, "FIFO runlist zero scheduler remained disabled");
            proof {
                let o = old(bus).log();
                mmio::lemma_saw_later(o, o, known, bus.log(), SCHED_DISABLE, disabled);
            }
            return Err(e);
        }
        assert(activated(*old(self), old(bus).log(), taken, bus.log(), s));
        Ok(())
    }

    /// What a submission needs to see before it is over, and no less.
    pub open spec fn retired(proof: Proof, gp_put: u32, sequence: u32) -> bool {
        proof.gp_get == gp_put && proof.reference == sequence && proof.fence == sequence
    }

    /// Moves the end of the queue, and waits for the device to get there, to set the
    /// reference and to release the fence. Neither a notification nor the time ends
    /// a submission.
    #[verifier::rlimit(100)]
    fn submit<R: Dma>(
        &mut self,
        bus: &mut Bus<'_, R>,
        gp_put: u32,
        sequence: u32,
        timeout_ns: u64,
    ) -> (r: Result<Proof, &'static str>)
        ensures
            final(bus).port() == old(bus).port(),
            mmio::extends(old(bus).log(), final(bus).log()),
            final(self).same_channel(*old(self)),
            mmio::writes(final(bus).log()) == mmio::writes(old(bus).log()),
            mmio::stores(final(bus).log()) == mmio::stores(old(bus).log()).push(
                (gmmu::BAR1, SEEN_GP_PUT, gp_put),
            ),
            r matches Ok(proof) ==> Self::retired(proof, gp_put, sequence),
            r is Ok ==> completed(old(bus).log(), final(bus).log(), gp_put, sequence),
            r is Err ==> final(self).failure is Some,
            r matches Err(e) ==> submit_failed(
                old(bus).log(),
                final(bus).log(),
                gp_put,
                sequence,
                timeout_ns,
                final(self).failure,
                e,
            ),
    {
        bus.store(gmmu::BAR1, SEEN_GP_PUT, gp_put);
        let seen: u32 = bus.load(gmmu::BAR1, SEEN_GP_PUT);
        if seen != gp_put {
            assert(submit_stopped(
                old(bus).log(),
                bus.log(),
                gp_put,
                sequence,
                timeout_ns,
                "FIFO USERD GP_PUT readback mismatch",
            ));
            return Err(self.fail(bus, "FIFO USERD GP_PUT readback mismatch"));
        }
        assert(bus.log() == moved(old(bus).log(), gp_put));
        let started: u64 = bus.now_ns();
        let deadline: u64 = started.saturating_add(timeout_ns);
        let mut spin_until: u64 = started.saturating_add(20_000);
        let mut polls: u64 = timeout_ns / 2_000;
        let ghost most = polls as int;
        let ghost begun = old(bus).log().len() + 2;
        while polls > 0
            invariant
                bus.port() == old(bus).port(),
                polls <= most,
                most == timeout_ns as int / 2_000,
                begun == old(bus).log().len() + 2,
                deadline == mmio::until(started, timeout_ns),
                bus.log().len() >= begun + 1 + (most - polls),
                bus.log()[begun as int] == Access::Time(started),
                looked(moved(old(bus).log(), gp_put), bus.log()),
                polls < most ==> !Self::retired(shown(bus.log()), gp_put, sequence),
                *self == *old(self),
                mmio::extends(old(bus).log(), bus.log()),
                mmio::writes(bus.log()) == mmio::writes(old(bus).log()),
                mmio::stores(bus.log()) == mmio::stores(old(bus).log()).push(
                    (gmmu::BAR1, SEEN_GP_PUT, gp_put),
                ),
            decreases polls,
        {
            let ghost middle = bus.log();
            let gp_get: u32 = bus.load(gmmu::BAR1, SEEN_GP_GET);
            let reference: u32 = bus.load(gmmu::BAR1, SEEN_REF);
            let fence: u32 = bus.load(gmmu::BAR1, SEEN_FENCE);
            let ghost shown = bus.log();
            if Self::faulted(bus) {
                assert(submit_stopped(
                    old(bus).log(),
                    bus.log(),
                    gp_put,
                    sequence,
                    timeout_ns,
                    "FIFO host-method execution fault",
                ));
                return Err(self.fail(bus, "FIFO host-method execution fault"));
            }
            let ghost found = choose|i: Interrupts|
                harmless(i) && bus.log() == shown + #[trigger] interrupts_log(i);
            let graphics: u32 = bus.read(GR_INTR);
            if graphics & !1 != 0 {
                assert(submit_stopped(
                    old(bus).log(),
                    bus.log(),
                    gp_put,
                    sequence,
                    timeout_ns,
                    "GR execution fault during FIFO submission",
                ));
                return Err(self.fail(bus, "GR execution fault during FIFO submission"));
            }
            if gp_get == gp_put && reference == sequence && fence == sequence {
                proof {
                    let i = Interrupts { graphics, ..found };
                    assert(bus.log() =~= middle + look(gp_put, sequence, sequence, i));
                    assert(completion(old(bus).log(), middle, bus.log(), gp_put, sequence, i));
                }
                return Ok(Proof { gp_get, reference, fence });
            }
            let now: u64 = bus.now_ns();
            if now >= deadline {
                assert(submit_stopped(
                    old(bus).log(),
                    bus.log(),
                    gp_put,
                    sequence,
                    timeout_ns,
                    "FIFO host-method completion timeout",
                ));
                return Err(self.fail(bus, "FIFO host-method completion timeout"));
            }
            if now >= spin_until {
                let left: u64 = deadline - now;
                bus.rest_ns(
                    if left < 10_000_000 {
                        left
                    } else {
                        10_000_000
                    },
                );
                let rested: u64 = bus.now_ns();
                spin_until = rested.saturating_add(20_000);
            } else {
                bus.delay_us(2);
            }
            polls = polls - 1;
        }
        assert(submit_stopped(
            old(bus).log(),
            bus.log(),
            gp_put,
            sequence,
            timeout_ns,
            "FIFO host-method completion timeout",
        ));
        Err(self.fail(bus, "FIFO host-method completion timeout"))
    }

    /// Whether the queue or its engine reports an error that is enabled.
    fn faulted<R: Dma>(bus: &mut Bus<'_, R>) -> (r: bool)
        ensures
            final(bus).port() == old(bus).port(),
            mmio::extends(old(bus).log(), final(bus).log()),
            mmio::writes(final(bus).log()) == mmio::writes(old(bus).log()),
            mmio::stores(final(bus).log()) == mmio::stores(old(bus).log()),
            r == fault_seen(final(bus).log()),
            forall|a: usize, w: usize|
                #![trigger mmio::loads(final(bus).log(), a, w)]
                mmio::loads(final(bus).log(), a, w) == mmio::loads(old(bus).log(), a, w),
            !r ==> exists|i: Interrupts|
                harmless(i) && final(bus).log() == old(bus).log() + #[trigger] interrupts_log(i),
    {
        let interrupts: u32 = bus.read(FIFO_INTR);
        if interrupts & FIFO_ERRORS != 0 {
            return true;
        }
        let pbdma0: u32 = bus.read(PBDMA_INTR0);
        let enabled0: u32 = bus.read(PBDMA_INTR0_ENABLE);
        if pbdma0 & enabled0 != 0 {
            return true;
        }
        let pbdma1: u32 = bus.read(PBDMA_INTR1);
        let enabled1: u32 = bus.read(PBDMA_INTR1_ENABLE);
        proof {
            let i = Interrupts {
                fifo: interrupts,
                pbdma0,
                enabled0,
                pbdma1,
                enabled1,
                graphics: 0,
            };
            assert(bus.log() =~= old(bus).log() + interrupts_log(i));
        }
        pbdma1 & enabled1 != 0
    }

    /// What retiring a channel writes: stopped, off the list, preempted, unbound, and
    /// everything that it wrote brought to memory.
    pub open spec fn retire_writes(channel: u32) -> Seq<(usize, u32)> {
        seq![
            (CHANNEL, channel | 0x800),
            (RUNLIST, 0u32),
            (PREEMPT, 0u32),
            (CHANNEL_INST, 0u32),
            (FIFO_BAR1_BASE, 0u32),
            (gmmu::FLUSH, 1u32),
            (gmmu::LTC_FLUSH, 1u32),
        ]
    }

    #[verifier::rlimit(100)]
    fn retire<R: Dma>(&mut self, bus: &mut Bus<'_, R>, timeout_ns: u64) -> (r: Result<
        (),
        &'static str,
    >)
        ensures
            final(bus).port() == old(bus).port(),
            final(self).same_channel(*old(self)),
            mmio::stores(final(bus).log()) == mmio::stores(old(bus).log()),
            mmio::extends(old(bus).log(), final(bus).log()),
            exists|n: int|
                mmio::writes(final(bus).log()) == mmio::writes(old(bus).log())
                    + #[trigger] Self::retire_writes(
                    mmio::fresh(old(bus).log(), final(bus).log(), CHANNEL, 0),
                ).take(n) && 0 <= n <= 7 && (r is Ok ==> n == 7),
            mmio::saw(
                old(bus).log(),
                final(bus).log(),
                CHANNEL,
                mmio::fresh(old(bus).log(), final(bus).log(), CHANNEL, 0),
            ),
            mmio::reads(final(bus).log(), CHANNEL).len() > mmio::reads(
                old(bus).log(),
                CHANNEL,
            ).len(),
            r is Ok ==> was_retired(old(bus).log(), final(bus).log()),
            r matches Err(e) ==> retire_failed(
                old(bus).log(),
                final(bus).log(),
                timeout_ns,
                final(self).failure,
                e,
            ),
    {
        let ghost start = mmio::writes(bus.log());
        let channel: u32 = bus.read(CHANNEL);
        let ghost seen = bus.log();
        let ghost k = mmio::reads(old(bus).log(), CHANNEL).len() as int;
        let ghost whole = Self::retire_writes(channel);
        let ghost mut r = Retirement {
            channel,
            listed: seen,
            preempted: seen,
            rested: seen,
            flushed: seen,
        };
        bus.write(CHANNEL, channel | 0x800);
        bus.write(RUNLIST, 0);
        assert(mmio::writes(bus.log()) =~= start + whole.take(2));
        assert(bus.log() == stopped(old(bus).log(), channel));
        assert(retiring(old(bus).log(), r, 0));
        let w1 = self.wait_clear(bus, RUNLIST_STATUS, 0x10_0000, timeout_ns);
        proof {
            mmio::readings_stay(seen, bus.log(), CHANNEL, k);
            mmio::lemma_saw(old(bus).log(), seen, bus.log(), CHANNEL, channel);
            assert(mmio::fresh(old(bus).log(), bus.log(), CHANNEL, 0) == channel);
        }
        w1?;
        proof {
            r = Retirement { listed: bus.log(), ..r };
            assert(retiring(old(bus).log(), r, 1));
        }
        bus.write(PREEMPT, 0);
        assert(mmio::writes(bus.log()) =~= start + whole.take(3));
        let w2 = self.wait_clear(bus, PREEMPT, 0x10_0000, timeout_ns);
        proof {
            mmio::readings_stay(seen, bus.log(), CHANNEL, k);
            mmio::lemma_saw(old(bus).log(), seen, bus.log(), CHANNEL, channel);
            assert(mmio::fresh(old(bus).log(), bus.log(), CHANNEL, 0) == channel);
        }
        w2?;
        proof {
            r = Retirement { preempted: bus.log(), ..r };
            assert(retiring(old(bus).log(), r, 2));
        }
        let w3 = self.wait_clear(bus, CHANNEL, 0x1000_0000, timeout_ns);
        proof {
            mmio::readings_stay(seen, bus.log(), CHANNEL, k);
            mmio::lemma_saw(old(bus).log(), seen, bus.log(), CHANNEL, channel);
            assert(mmio::fresh(old(bus).log(), bus.log(), CHANNEL, 0) == channel);
        }
        w3?;
        proof {
            r = Retirement { rested: bus.log(), ..r };
            assert(retiring(old(bus).log(), r, 3));
        }
        bus.write(CHANNEL_INST, 0);
        bus.write(FIFO_BAR1_BASE, 0);
        bus.write(gmmu::FLUSH, 1);
        assert(mmio::writes(bus.log()) =~= start + whole.take(6));
        let w4 = self.wait_clear(bus, gmmu::FLUSH, 3, timeout_ns);
        proof {
            mmio::readings_stay(seen, bus.log(), CHANNEL, k);
            mmio::lemma_saw(old(bus).log(), seen, bus.log(), CHANNEL, channel);
            assert(mmio::fresh(old(bus).log(), bus.log(), CHANNEL, 0) == channel);
        }
        w4?;
        proof {
            r = Retirement { flushed: bus.log(), ..r };
            assert(retiring(old(bus).log(), r, 4));
        }
        bus.write(gmmu::LTC_FLUSH, 1);
        assert(mmio::writes(bus.log()) =~= start + whole.take(7));
        let w5 = self.wait_clear(bus, gmmu::LTC_FLUSH, 3, timeout_ns);
        proof {
            mmio::readings_stay(seen, bus.log(), CHANNEL, k);
            mmio::lemma_saw(old(bus).log(), seen, bus.log(), CHANNEL, channel);
            assert(mmio::fresh(old(bus).log(), bus.log(), CHANNEL, 0) == channel);
        }
        w5?;
        Ok(())
    }
}

/// The instance of the channel: its control page, its queue, and fixed settings.
pub open spec fn instance_stores(userd: u64) -> Seq<(usize, usize, u32)> {
    seq![
        (INSTANCE, 2usize, (userd % 0x1_0000_0000) as u32),
        (INSTANCE, 3usize, (userd / 0x1_0000_0000) as u32),
        (INSTANCE, 4usize, 0xfaceu32),
        (INSTANCE, 12usize, 0x102u32),
        (INSTANCE, 18usize, 0x4000u32),
        (INSTANCE, 19usize, 0x9_0000u32),
        (INSTANCE, 33usize, 0x2040_0000u32),
        (INSTANCE, 37usize, 0x3000_0001u32),
        (INSTANCE, 39usize, 0x100u32),
        (INSTANCE, 43usize, 0x1fu32),
        (INSTANCE, 46usize, 0u32),
        (INSTANCE, 57usize, 0u32),
        (INSTANCE, 58usize, 0u32),
        (INSTANCE, 62usize, 0x1000_3080u32),
        (INSTANCE, 63usize, 0x1000_0010u32),
        (USERD, USERD_REF, u32::MAX),
    ]
}

/// One immutable push, and its place in the queue.
pub open spec fn push_stores(index: int, sequence: u32) -> Seq<(usize, usize, u32)> {
    seq![
        (PUSH, (8 * index) as usize, commands_spec(sequence)[0]),
        (PUSH, (8 * index + 1) as usize, commands_spec(sequence)[1]),
        (PUSH, (8 * index + 2) as usize, commands_spec(sequence)[2]),
        (PUSH, (8 * index + 3) as usize, commands_spec(sequence)[3]),
        (PUSH, (8 * index + 4) as usize, commands_spec(sequence)[4]),
        (PUSH, (8 * index + 5) as usize, commands_spec(sequence)[5]),
        (PUSH, (8 * index + 6) as usize, commands_spec(sequence)[6]),
        (RING, (2 * index) as usize, (0x5000 + 32 * index) as u32),
        (RING, (2 * index + 1) as usize, 0x1c00u32),
    ]
}

/// Everything that is stored for a channel before it is bound.
pub open spec fn prepare_stores(userd: u64) -> Seq<(usize, usize, u32)> {
    instance_stores(userd) + push_stores(0, FIRST_SEQUENCE) + push_stores(1, SECOND_SEQUENCE)
        + seq![(RUNLIST_PAGE, 0usize, 0u32), (RUNLIST_PAGE, 1usize, 0u32)]
}

fn store_push<R: Dma>(bus: &mut Bus<'_, R>, index: usize, sequence: u32)
    requires
        index < 2,
    ensures
        final(bus).port() == old(bus).port(),
        mmio::extends(old(bus).log(), final(bus).log()),
        mmio::writes(final(bus).log()) == mmio::writes(old(bus).log()),
        mmio::stores(final(bus).log()) == mmio::stores(old(bus).log()) + push_stores(
            index as int,
            sequence,
        ),
{
    let words: [u32; 7] = host_commands(sequence);
    bus.store(PUSH, 8 * index, words[0]);
    bus.store(PUSH, 8 * index + 1, words[1]);
    bus.store(PUSH, 8 * index + 2, words[2]);
    bus.store(PUSH, 8 * index + 3, words[3]);
    bus.store(PUSH, 8 * index + 4, words[4]);
    bus.store(PUSH, 8 * index + 5, words[5]);
    bus.store(PUSH, 8 * index + 6, words[6]);
    bus.store(RING, 2 * index, 0x5000 + 32 * index as u32);
    bus.store(RING, 2 * index + 1, 0x1c00);
    assert(mmio::stores(bus.log()) =~= mmio::stores(old(bus).log()) + push_stores(
        index as int,
        sequence,
    ));
}

fn store_channel<R: Dma>(bus: &mut Bus<'_, R>, userd: u64)
    requires
        gmmu::reachable(userd, 1),
    ensures
        final(bus).port() == old(bus).port(),
        mmio::extends(old(bus).log(), final(bus).log()),
        mmio::writes(final(bus).log()) == mmio::writes(old(bus).log()),
        mmio::stores(final(bus).log()) == mmio::stores(old(bus).log()) + instance_stores(userd),
{
    bus.store(INSTANCE, 2, (userd % 0x1_0000_0000) as u32);
    bus.store(INSTANCE, 3, (userd / 0x1_0000_0000) as u32);
    bus.store(INSTANCE, 4, 0xface);
    bus.store(INSTANCE, 12, 0x102);
    bus.store(INSTANCE, 18, 0x4000);
    bus.store(INSTANCE, 19, 0x9_0000);
    bus.store(INSTANCE, 33, 0x2040_0000);
    bus.store(INSTANCE, 37, 0x3000_0001);
    bus.store(INSTANCE, 39, 0x100);
    bus.store(INSTANCE, 43, 0x1f);
    bus.store(INSTANCE, 46, 0);
    bus.store(INSTANCE, 57, 0);
    bus.store(INSTANCE, 58, 0);
    bus.store(INSTANCE, 62, 0x1000_3080);
    bus.store(INSTANCE, 63, 0x1000_0010);
    bus.store(USERD, USERD_REF, u32::MAX);
    assert(mmio::stores(bus.log()) =~= mmio::stores(old(bus).log()) + instance_stores(userd));
}

/// All pages of a channel are written out.
pub open spec fn cleans() -> Seq<Access> {
    seq![
        Access::Clean(INSTANCE),
        Access::Clean(USERD),
        Access::Clean(RING),
        Access::Clean(PUSH),
        Access::Clean(FENCE),
        Access::Clean(RUNLIST_PAGE),
    ]
}

/// Only words of shared memory were stored.
pub open spec fn only_stored(
    before: Seq<Access>,
    after: Seq<Access>,
    words: Seq<(usize, usize, u32)>,
) -> bool {
    &&& mmio::extends(before, after)
    &&& mmio::writes(after) == mmio::writes(before)
    &&& mmio::stores(after) == mmio::stores(before) + words
}

/// Everything that a channel needs was stored, and then written out.
pub open spec fn was_laid(before: Seq<Access>, after: Seq<Access>, userd: u64) -> bool {
    &&& only_stored(before, after, prepare_stores(userd))
    &&& exists|stored: Seq<Access>| #[trigger]
        only_stored(before, stored, prepare_stores(userd)) && after == stored + cleans()
}

/// Stores everything that a channel needs, and writes it out.
fn prepare<R: Dma>(bus: &mut Bus<'_, R>, userd: u64)
    requires
        gmmu::reachable(userd, 1),
    ensures
        final(bus).port() == old(bus).port(),
        was_laid(old(bus).log(), final(bus).log(), userd),
        mmio::extends(old(bus).log(), final(bus).log()),
        mmio::writes(final(bus).log()) == mmio::writes(old(bus).log()),
        mmio::stores(final(bus).log()) == mmio::stores(old(bus).log()) + prepare_stores(userd),
{
    store_channel(bus, userd);
    store_push(bus, 0, FIRST_SEQUENCE);
    store_push(bus, 1, SECOND_SEQUENCE);
    bus.store(RUNLIST_PAGE, 0, 0);
    bus.store(RUNLIST_PAGE, 1, 0);
    assert(mmio::stores(bus.log()) =~= mmio::stores(old(bus).log()) + prepare_stores(userd));
    let ghost stored = bus.log();
    assert(only_stored(old(bus).log(), stored, prepare_stores(userd)));
    bus.clean(INSTANCE);
    bus.clean(USERD);
    bus.clean(RING);
    bus.clean(PUSH);
    bus.clean(FENCE);
    bus.clean(RUNLIST_PAGE);
    assert(bus.log() =~= stored + cleans());
}

/// Only the aperture was looked at.
pub open spec fn looked(before: Seq<Access>, after: Seq<Access>) -> bool {
    &&& mmio::extends(before, after)
    &&& mmio::writes(after) == mmio::writes(before)
    &&& mmio::stores(after) == mmio::stores(before)
}

/// The aperture showed a word last, and not as it has to be.
pub open spec fn word_differs(
    before: Seq<Access>,
    after: Seq<Access>,
    word: usize,
    expected: u32,
) -> bool {
    &&& before.len() < after.len()
    &&& mmio::extends(before, after)
    &&& after.last() matches Access::Load(a, w, v) && a == gmmu::BAR1 && w == word && v != expected
}

fn visible<R: Dma>(bus: &mut Bus<'_, R>, word: usize, expected: u32) -> (r: bool)
    ensures
        final(bus).port() == old(bus).port(),
        r ==> final(bus).log() == old(bus).log().push(Access::Load(gmmu::BAR1, word, expected)),
        r == !word_differs(old(bus).log(), final(bus).log(), word, expected),
        mmio::extends(old(bus).log(), final(bus).log()),
        final(bus).log().len() == old(bus).log().len() + 1,
        looked(old(bus).log(), final(bus).log()),
        forall|a: usize, w: usize|
            #![trigger mmio::loads(final(bus).log(), a, w)]
            (a, w) != (gmmu::BAR1, word) ==> mmio::loads(final(bus).log(), a, w) == mmio::loads(
                old(bus).log(),
                a,
                w,
            ),
{
    bus.load(gmmu::BAR1, word) == expected
}

/// One push and its place in the queue, read through the aperture as they have to be: so
/// many words of the push.
pub open spec fn push_loads(index: int, sequence: u32, n: int) -> Seq<Access> {
    seq![
        Access::Load(gmmu::BAR1, (0x1000 + 2 * index) as usize, (0x5000 + 32 * index) as u32),
        Access::Load(gmmu::BAR1, (0x1001 + 2 * index) as usize, 0x1c00),
    ] + Seq::new(
        n as nat,
        |k: int|
            Access::Load(
                gmmu::BAR1,
                (0x1400 + 8 * index + k) as usize,
                commands_spec(sequence)[k],
            ),
    )
}

/// What a word of one push or of its place in the queue has to be.
pub open spec fn push_word(index: int, sequence: u32, word: usize, expected: u32) -> bool {
    let at = word - 0x1400 - 8 * index;
    ||| word == 0x1000 + 2 * index && expected == 0x5000 + 32 * index
    ||| word == 0x1001 + 2 * index && expected == 0x1c00
    ||| 0 <= at < 7 && expected == commands_spec(sequence)[at]
}

/// One push or its place in the queue is not as it has to be.
pub open spec fn push_differs(
    before: Seq<Access>,
    after: Seq<Access>,
    index: int,
    sequence: u32,
) -> bool {
    &&& mmio::extends(before, after)
    &&& {
        exists|word: usize, expected: u32|
            #[trigger] word_differs(before, after, word, expected) && push_word(
                index,
                sequence,
                word,
                expected,
            )
    }
}

fn push_visible<R: Dma>(bus: &mut Bus<'_, R>, index: usize, sequence: u32) -> (r: bool)
    requires
        index < 2,
    ensures
        final(bus).port() == old(bus).port(),
        r ==> final(bus).log() == old(bus).log() + push_loads(index as int, sequence, 7),
        !r ==> push_differs(old(bus).log(), final(bus).log(), index as int, sequence),
        mmio::extends(old(bus).log(), final(bus).log()),
        looked(old(bus).log(), final(bus).log()),
{
    if !visible(bus, 0x1000 + 2 * index, 0x5000 + 32 * index as u32) {
        return false;
    }
    if !visible(bus, 0x1001 + 2 * index, 0x1c00) {
        assert(word_differs(old(bus).log(), bus.log(), (0x1001 + 2 * index) as usize, 0x1c00));
        return false;
    }
    let words: [u32; 7] = host_commands(sequence);
    let mut k: usize = 0;
    while k < 7
        invariant
            bus.port() == old(bus).port(),
            k <= 7,
            index < 2,
            words@ == commands_spec(sequence),
            mmio::extends(old(bus).log(), bus.log()),
            looked(old(bus).log(), bus.log()),
            bus.log() =~= old(bus).log() + push_loads(index as int, sequence, k as int),
        decreases 7 - k,
    {
        if !visible(bus, 0x1400 + 8 * index + k, words[k]) {
            assert(word_differs(
                old(bus).log(),
                bus.log(),
                (0x1400 + 8 * index + k) as usize,
                words@[k as int],
            ));
            return false;
        }
        k = k + 1;
    }
    true
}

/// One word was read from memory, and then the same through the aperture.
pub open spec fn word_matches(
    before: Seq<Access>,
    after: Seq<Access>,
    area: usize,
    place: usize,
    w: int,
) -> bool {
    after[before.len() + 2 * w] matches Access::Load(a, at, value) && a == area && at == w
        && after[before.len() + 2 * w + 1] == Access::Load(gmmu::BAR1, (place + w) as usize, value)
}

/// So many words of a page were read from memory, each with the same through the aperture.
pub open spec fn page_matches(
    before: Seq<Access>,
    after: Seq<Access>,
    area: usize,
    place: usize,
    count: int,
) -> bool {
    &&& mmio::extends(before, after)
    &&& after.len() == before.len() + 2 * count
    &&& forall|w: int| 0 <= w < count ==> #[trigger] word_matches(before, after, area, place, w)
}

/// One word of a page was read last from memory and through the aperture, and not the same.
pub open spec fn page_differs(
    before: Seq<Access>,
    after: Seq<Access>,
    area: usize,
    place: usize,
    count: usize,
) -> bool {
    &&& mmio::extends(before, after)
    &&& {
        exists|w: usize|
            {
                &&& w < count
                &&& before.len() + 2 <= after.len()
                &&& #[trigger] mmio::loads(after, area, w).len() > 0
                &&& after[after.len() - 2] == Access::Load(area, w, mmio::loads(after, area, w).last())
                &&& word_differs(
                    before,
                    after,
                    (place + w) as usize,
                    mmio::loads(after, area, w).last(),
                )
            }
    }
}

/// A page of the device's own structures reads the same through the aperture and
/// from memory.
#[verifier::rlimit(60)]
fn page_visible<R: Dma>(bus: &mut Bus<'_, R>, area: usize, place: usize, count: usize) -> (r: bool)
    requires
        area != gmmu::BAR1,
        place <= 0x2000,
        count <= 1024,
    ensures
        final(bus).port() == old(bus).port(),
        r ==> page_matches(old(bus).log(), final(bus).log(), area, place, count as int),
        !r ==> page_differs(old(bus).log(), final(bus).log(), area, place, count),
        mmio::extends(old(bus).log(), final(bus).log()),
        looked(old(bus).log(), final(bus).log()),
{
    let mut k: usize = 0;
    while k < count
        invariant
            bus.port() == old(bus).port(),
            k <= count,
            area != gmmu::BAR1,
            place <= 0x2000,
            count <= 1024,
            mmio::extends(old(bus).log(), bus.log()),
            looked(old(bus).log(), bus.log()),
            page_matches(old(bus).log(), bus.log(), area, place, k as int),
        decreases count - k,
    {
        let ghost before = bus.log();
        let expected: u32 = bus.load(area, k);
        let ghost between = bus.log();
        if !visible(bus, place + k, expected) {
            assert(mmio::loads(bus.log(), area, k) == mmio::loads(between, area, k));
            assert(bus.log()[between.len() - 1] == between.last());
            assert(word_differs(
                old(bus).log(),
                bus.log(),
                (place + k) as usize,
                mmio::loads(bus.log(), area, k).last(),
            ));
            assert(page_differs(old(bus).log(), bus.log(), area, place, count)) by {
                assert(mmio::loads(bus.log(), area, k).len() > 0);
            }
            return false;
        }
        proof {
            assert forall|w: int| 0 <= w < k + 1 implies #[trigger] word_matches(
                old(bus).log(),
                bus.log(),
                area,
                place,
                w,
            ) by {
                if w < k {
                    assert(word_matches(old(bus).log(), before, area, place, w));
                }
            }
        }
        k = k + 1;
    }
    true
}

/// The queue was seen empty through the aperture.
pub open spec fn empty_loads() -> Seq<Access> {
    seq![
        Access::Load(gmmu::BAR1, SEEN_GP_GET, 0),
        Access::Load(gmmu::BAR1, SEEN_GP_PUT, 0),
        Access::Load(gmmu::BAR1, SEEN_REF, u32::MAX),
        Access::Load(gmmu::BAR1, SEEN_FENCE, 0),
    ]
}

/// Everything of the private channel that is read back before its pages are.
pub open spec fn input_loads() -> Seq<Access> {
    empty_loads() + push_loads(0, FIRST_SEQUENCE, 7) + push_loads(1, SECOND_SEQUENCE, 7)
}

/// The queue is empty, and all that was stored was read through the aperture.
pub open spec fn inputs_seen(before: Seq<Access>, after: Seq<Access>) -> bool {
    &&& looked(before, after)
    &&& exists|page: Seq<Access>| #[trigger]
        page_matches(before + input_loads(), page, INSTANCE, 0x1c00, 1024) && page_matches(
            page,
            after,
            RUNLIST_PAGE,
            0x2000,
            2,
        )
}

/// What was read back last through the aperture is not as it was stored.
pub open spec fn inputs_differ(before: Seq<Access>, after: Seq<Access>) -> bool {
    &&& mmio::extends(before, after)
    &&& {
        ||| word_differs(before, after, SEEN_GP_GET, 0)
        ||| word_differs(before, after, SEEN_GP_PUT, 0)
        ||| word_differs(before, after, SEEN_REF, u32::MAX)
        ||| word_differs(before, after, SEEN_FENCE, 0)
        ||| push_differs(before, after, 0, FIRST_SEQUENCE)
        ||| push_differs(before, after, 1, SECOND_SEQUENCE)
        ||| page_differs(before, after, INSTANCE, 0x1c00, 1024)
        ||| page_differs(before, after, RUNLIST_PAGE, 0x2000, 2)
    }
}

/// A later start makes no difference to what was read back last.
proof fn lemma_differ(first: Seq<Access>, before: Seq<Access>, after: Seq<Access>)
    requires
        mmio::extends(first, before),
        inputs_differ(before, after),
    ensures
        inputs_differ(first, after),
{
    if push_differs(before, after, 0, FIRST_SEQUENCE) {
        let (word, expected) = choose|word: usize, expected: u32|
            #[trigger] word_differs(before, after, word, expected) && push_word(
                0,
                FIRST_SEQUENCE,
                word,
                expected,
            );
        assert(word_differs(first, after, word, expected));
    }
    if push_differs(before, after, 1, SECOND_SEQUENCE) {
        let (word, expected) = choose|word: usize, expected: u32|
            #[trigger] word_differs(before, after, word, expected) && push_word(
                1,
                SECOND_SEQUENCE,
                word,
                expected,
            );
        assert(word_differs(first, after, word, expected));
    }
}

/// Reads everything back through the aperture, before the device may fetch it.
fn verify_host_inputs<R: Dma>(bus: &mut Bus<'_, R>) -> (r: Result<(), &'static str>)
    ensures
        final(bus).port() == old(bus).port(),
        looked(old(bus).log(), final(bus).log()),
        mmio::extends(old(bus).log(), final(bus).log()),
        r is Ok ==> inputs_seen(old(bus).log(), final(bus).log()),
        r matches Err(e) ==> e == "FIFO private input BAR1 readback mismatch" && inputs_differ(
            old(bus).log(),
            final(bus).log(),
        ),
{
    let get: bool = visible(bus, SEEN_GP_GET, 0);
    if !get {
        return Err("FIFO private input BAR1 readback mismatch");
    }
    let put: bool = visible(bus, SEEN_GP_PUT, 0);
    if !put {
        return Err("FIFO private input BAR1 readback mismatch");
    }
    let reference: bool = visible(bus, SEEN_REF, u32::MAX);
    if !reference {
        return Err("FIFO private input BAR1 readback mismatch");
    }
    let fence: bool = visible(bus, SEEN_FENCE, 0);
    if !fence {
        return Err("FIFO private input BAR1 readback mismatch");
    }
    let ghost a = bus.log();
    if !push_visible(bus, 0, FIRST_SEQUENCE) {
        proof {
            lemma_differ(old(bus).log(), a, bus.log());
        }
        return Err("FIFO private input BAR1 readback mismatch");
    }
    let ghost b = bus.log();
    if !push_visible(bus, 1, SECOND_SEQUENCE) {
        proof {
            lemma_differ(old(bus).log(), b, bus.log());
        }
        return Err("FIFO private input BAR1 readback mismatch");
    }
    let ghost c = bus.log();
    assert(c =~= old(bus).log() + input_loads());
    if !page_visible(bus, INSTANCE, 0x1c00, 1024) {
        proof {
            lemma_differ(old(bus).log(), c, bus.log());
        }
        return Err("FIFO private input BAR1 readback mismatch");
    }
    let ghost d = bus.log();
    if !page_visible(bus, RUNLIST_PAGE, 0x2000, 2) {
        proof {
            lemma_differ(old(bus).log(), d, bus.log());
        }
        return Err("FIFO private input BAR1 readback mismatch");
    }
    Ok(())
}

/// Registers as a reset found them.
pub struct ResetReads {
    pub enable: u32,
    pub pbdma: u32,
    pub stall: u32,
    pub stall1: u32,
    pub timeout: u32,
}

/// Everything written by a reset: the queue off and on, no gating, its engine on,
/// a measurement, all old errors gone, and errors reported but not to the
/// processor.
pub open spec fn reset_writes(f: ResetReads) -> Seq<(usize, u32)> {
    seq![
        (MC_ENABLE, f.enable & !0x100u32),
        (MC_ENABLE, f.enable | 0x100),
        (0x26acusize, 0x1_fffeu32),
        (0x26a4usize, 0u32),
        (PBDMA_ENABLE, f.pbdma | 1),
    ] + hardware::measure_writes() + seq![
        (FIFO_INTR, u32::MAX),
        (PBDMA_INTR0, u32::MAX),
        (PBDMA_INTR1, u32::MAX),
        (0x2a00usize, u32::MAX),
        (0x2140usize, 0x7981_0111u32),
        (0x2528usize, 0x8000_0000u32),
        (0x4_013cusize, f.stall & !0x100u32),
        (PBDMA_INTR0_ENABLE, f.stall & !0x100u32),
        (PBDMA_INTR1_ENABLE, f.stall1 & !1u32),
        (0x2a04usize, f.timeout | 0x3fff_ffff),
        (0x4_012cusize, u32::MAX),
    ]
}

/// What was read on the way.
pub open spec fn reset_found(before: Seq<Access>, after: Seq<Access>, f: ResetReads, n: int) -> bool {
    &&& mmio::extends(before, after)
    &&& n > 0 ==> mmio::fresh(before, after, MC_ENABLE, 0) == f.enable
    &&& n > 4 ==> mmio::fresh(before, after, PBDMA_ENABLE, 1) == f.pbdma
    &&& n > 13 ==> mmio::saw(before, after, 0x4_013c, f.stall) && mmio::saw(
        before,
        after,
        0x4_0140,
        f.stall1,
    )
    &&& n > 16 ==> mmio::saw(before, after, 0x2a04, f.timeout)
}

pub open spec fn reset_progress(before: Seq<Access>, after: Seq<Access>, n: int) -> bool {
    &&& mmio::extends(before, after)
    &&& {
        exists|f: ResetReads|
            mmio::writes(after) == mmio::writes(before) + #[trigger] reset_writes(f).take(n)
                && reset_found(before, after, f, n)
    }
}

/// What was read when the reset was given up.
pub open spec fn reset_cause(e: &'static str, log: Seq<Access>) -> bool {
    if e == "FIFO enable register returned all ones" {
        mmio::last(log, MC_ENABLE) == u32::MAX || mmio::last(log, PBDMA_ENABLE) == u32::MAX
    } else if e == "FIFO gating register returned all ones" {
        log.last() matches Access::Read(_, value) && value == u32::MAX
    } else if e == "FIFO/PBDMA enable readback mismatch" {
        ||| mmio::last(log, MC_ENABLE) == u32::MAX
        ||| mmio::last(log, PBDMA_ENABLE) == u32::MAX
        ||| mmio::last(log, MC_ENABLE) & 0x100 == 0
        ||| mmio::last(log, PBDMA_ENABLE) & 1 == 0
    } else if e == "FIFO PBDMA0 does not service runlist zero" {
        mmio::last(log, PBDMA_MAP) == u32::MAX || mmio::last(log, PBDMA_MAP) & 1 == 0
    } else {
        mmio::last(log, CHANNEL_INST) != 0
    }
}

/// Which failures come after how many writes.
pub open spec fn reset_failure(e: &'static str, n: int) -> bool {
    ||| e == "FIFO enable register returned all ones" && n == 0
    ||| e == "FIFO gating register returned all ones" && 2 <= n <= 3
    ||| e == "FIFO/PBDMA enable readback mismatch" && n == 5
    ||| e == "FIFO PBDMA0 does not service runlist zero" && n == 7
    ||| e == "FIFO private channel zero was not unbound after reset" && n == 18
}

/// Resets the queue and turns it on.
#[verifier::rlimit(60)]
pub fn reset_enable<R: Timed>(bus: &mut Bus<'_, R>, reference_hz: u32) -> (r: Result<
    (),
    &'static str,
>)
    ensures
        final(bus).port() == old(bus).port(),
        mmio::extends(old(bus).log(), final(bus).log()),
        r is Ok ==> reset_progress(old(bus).log(), final(bus).log(), 18),
        r is Ok ==> mmio::reads(final(bus).log(), CHANNEL_INST).last() == 0,
        r matches Err(e) ==> exists|n: int| #[trigger]
            reset_progress(old(bus).log(), final(bus).log(), n) && reset_failure(e, n),
        r matches Err(e) ==> reset_cause(e, final(bus).log()),
{
    let ghost start = mmio::writes(bus.log());
    let ghost mut f = ResetReads { enable: 0, pbdma: 0, stall: 0, stall1: 0, timeout: 0 };
    assert(start =~= start + reset_writes(f).take(0));
    let enable: u32 = bus.read(MC_ENABLE);
    if enable == u32::MAX || bus.read(PBDMA_ENABLE) == u32::MAX {
        assert(reset_progress(old(bus).log(), bus.log(), 0));
        return Err("FIFO enable register returned all ones");
    }
    proof {
        f = ResetReads { enable, ..f };
    }
    bus.write(MC_ENABLE, enable & !0x100);
    bus.read(MC_ENABLE);
    bus.delay_us(20);
    bus.write(MC_ENABLE, enable | 0x100);
    bus.read(MC_ENABLE);
    bus.delay_us(20);
    assert(mmio::writes(bus.log()) =~= start + reset_writes(f).take(2));
    if bus.read(0x26ac) == u32::MAX {
        assert(reset_progress(old(bus).log(), bus.log(), 2));
        return Err("FIFO gating register returned all ones");
    }
    bus.write(0x26ac, 0x1_fffe);
    assert(mmio::writes(bus.log()) =~= start + reset_writes(f).take(3));
    if bus.read(0x26a4) == u32::MAX {
        assert(reset_progress(old(bus).log(), bus.log(), 3));
        return Err("FIFO gating register returned all ones");
    }
    bus.write(0x26a4, 0);
    let pbdma: u32 = bus.read(PBDMA_ENABLE);
    proof {
        f = ResetReads { pbdma, ..f };
    }
    bus.write(PBDMA_ENABLE, pbdma | 1);
    assert(mmio::writes(bus.log()) =~= start + reset_writes(f).take(5));
    let fifo_enable: u32 = bus.read(MC_ENABLE);
    let pbdma_enable: u32 = bus.read(PBDMA_ENABLE);
    if fifo_enable == u32::MAX || pbdma_enable == u32::MAX || fifo_enable & 0x100 == 0
        || pbdma_enable & 1 == 0 {
        assert(reset_progress(old(bus).log(), bus.log(), 5));
        return Err("FIFO/PBDMA enable readback mismatch");
    }
    measure_clock(bus, reference_hz);
    assert(mmio::writes(bus.log()) =~= start + reset_writes(f).take(7));
    let map: u32 = bus.read(PBDMA_MAP);
    if map == u32::MAX || map & 1 == 0 {
        assert(reset_progress(old(bus).log(), bus.log(), 7));
        return Err("FIFO PBDMA0 does not service runlist zero");
    }
    route_errors(bus, Ghost(old(bus).log()), Ghost(f))
}

fn route_errors<R: Timed>(
    bus: &mut Bus<'_, R>,
    Ghost(origin): Ghost<Seq<Access>>,
    Ghost(found): Ghost<ResetReads>,
) -> (r: Result<(), &'static str>)
    requires
        mmio::writes(old(bus).log()) == mmio::writes(origin) + reset_writes(found).take(7),
        mmio::extends(origin, old(bus).log()),
        reset_found(origin, old(bus).log(), found, 7),
        mmio::reads(old(bus).log(), MC_ENABLE).len() > mmio::reads(origin, MC_ENABLE).len(),
        mmio::reads(old(bus).log(), PBDMA_ENABLE).len() > mmio::reads(origin, PBDMA_ENABLE).len()
            + 1,
    ensures
        final(bus).port() == old(bus).port(),
        mmio::extends(old(bus).log(), final(bus).log()),
        r is Ok ==> reset_progress(origin, final(bus).log(), 18),
        r is Ok ==> mmio::reads(final(bus).log(), CHANNEL_INST).last() == 0,
        r matches Err(e) ==> exists|n: int| #[trigger]
            reset_progress(origin, final(bus).log(), n) && reset_failure(e, n),
        r matches Err(e) ==> reset_cause(e, final(bus).log()),
{
    bus.write(FIFO_INTR, u32::MAX);
    bus.write(PBDMA_INTR0, u32::MAX);
    bus.write(PBDMA_INTR1, u32::MAX);
    bus.write(0x2a00, u32::MAX);
    bus.write(0x2140, 0x7981_0111);
    bus.write(0x2528, 0x8000_0000);
    let stall: u32 = bus.read(0x4_013c);
    let ghost a = bus.log();
    let stall1: u32 = bus.read(0x4_0140);
    let ghost b = bus.log();
    bus.write(0x4_013c, stall & !0x100);
    bus.write(PBDMA_INTR0_ENABLE, stall & !0x100);
    bus.write(PBDMA_INTR1_ENABLE, stall1 & !1);
    let timeout: u32 = bus.read(0x2a04);
    let ghost c = bus.log();
    bus.write(0x2a04, timeout | 0x3fff_ffff);
    bus.write(0x4_012c, u32::MAX);
    proof {
        let f = ResetReads { stall, stall1, timeout, ..found };
        assert(mmio::writes(bus.log()) =~= mmio::writes(origin) + reset_writes(f).take(18));
    }
    let bound: u32 = bus.read(CHANNEL_INST);
    proof {
        let f = ResetReads { stall, stall1, timeout, ..found };
        mmio::lemma_saw(origin, a, bus.log(), 0x4_013c, stall);
        mmio::lemma_saw(origin, b, bus.log(), 0x4_0140, stall1);
        mmio::lemma_saw(origin, c, bus.log(), 0x2a04, timeout);
        assert(reset_found(origin, bus.log(), f, 18));
    }
    assert(reset_progress(origin, bus.log(), 18));
    if bound != 0 {
        return Err("FIFO private channel zero was not unbound after reset");
    }
    Ok(())
}

/// The pages of the private channel were stored and seen, and its control page is taken.
pub open spec fn host_ready(userd: u64, before: Seq<Access>, after: Seq<Access>) -> bool {
    exists|laid: Seq<Access>, seen: Seq<Access>|
        #[trigger] was_laid(before, laid, userd) && #[trigger] inputs_seen(laid, seen) && after
            == published(seen)
}

/// The pages of the private channel were stored, and not seen as they were stored, or its
/// control page is not taken.
pub open spec fn host_not_ready(
    userd: u64,
    before: Seq<Access>,
    after: Seq<Access>,
    failure: Option<FailureSnapshot>,
    e: &'static str,
) -> bool {
    &&& mmio::extends(before, after)
    &&& {
        ||| exists|laid: Seq<Access>|
            {
                &&& #[trigger] was_laid(before, laid, userd)
                &&& e == "FIFO private input BAR1 readback mismatch"
                &&& looked(laid, after)
                &&& inputs_differ(laid, after)
            }
        ||| exists|laid: Seq<Access>, seen: Seq<Access>|
            #[trigger] was_laid(before, laid, userd) && #[trigger] inputs_seen(laid, seen)
                && publish_failed(seen, after, failure, e)
    }
}

/// The private channel has its instance, and is not on the list yet.
pub open spec fn attached(fifo: Fifo, before: Seq<Access>, first: u32, second: u32) -> Seq<Access> {
    before.push(Access::Read(CHANNEL, first)).push(
        Access::Write(CHANNEL, first & !0xf_0000u32),
    ).push(Access::Write(CHANNEL_INST, fifo.bound_word())).push(
        Access::Read(CHANNEL, second),
    ).push(Access::Write(CHANNEL, (second & !0xc00u32) | 0x400))
}

/// The private channel was not bound, and the failure was kept.
pub open spec fn attach_failed(
    fifo: Fifo,
    before: Seq<Access>,
    after: Seq<Access>,
    failure: Option<FailureSnapshot>,
    e: &'static str,
) -> bool {
    exists|first: u32, second: u32|
        activate_failed(
            fifo,
            #[trigger] attached(fifo, before, first, second),
            after,
            failure,
            e,
        )
}

/// The private channel is bound, and on the list.
pub open spec fn was_bound(fifo: Fifo, before: Seq<Access>, after: Seq<Access>) -> bool {
    &&& looked_on(before, after)
    &&& exists|first: u32, second: u32|
        was_activated(fifo, #[trigger] attached(fifo, before, first, second), after)
}

/// Accesses were added that store nothing.
pub open spec fn looked_on(before: Seq<Access>, after: Seq<Access>) -> bool {
    mmio::extends(before, after) && mmio::stores(after) == mmio::stores(before)
}

/// What the private channel left in memory was read.
pub open spec fn remembered(before: Seq<Access>, p: Proof) -> Seq<Access> {
    before + seq![
        Access::Refresh(USERD),
        Access::Refresh(FENCE),
        Access::Load(USERD, USERD_GP_GET, p.gp_get),
        Access::Load(USERD, USERD_REF, p.reference),
        Access::Load(FENCE, 0, p.fence),
    ]
}

/// The private channel was retired, and this was found in memory.
pub open spec fn found_in_memory(before: Seq<Access>, after: Seq<Access>, p: Proof) -> bool {
    exists|gone: Seq<Access>| #[trigger] was_retired(before, gone) && after == remembered(gone, p)
}

/// Both pushes of the private channel are over.
pub open spec fn both_ran(
    fifo: Fifo,
    before: Seq<Access>,
    bound: Seq<Access>,
    once: Seq<Access>,
    twice: Seq<Access>,
) -> bool {
    &&& was_bound(fifo, before, bound)
    &&& completed(bound, once, 1, FIRST_SEQUENCE)
    &&& completed(once, twice, 2, SECOND_SEQUENCE)
}

/// Commands were shown to run: two pushes on the private channel were seen to be over, it
/// was retired, and memory holds what they did.
pub open spec fn host_proved(fifo: Fifo, before: Seq<Access>, after: Seq<Access>) -> bool {
    exists|bound: Seq<Access>, once: Seq<Access>, twice: Seq<Access>|
        {
            &&& #[trigger] both_ran(fifo, before, bound, once, twice)
            &&& found_in_memory(
                twice,
                after,
                (Proof { gp_get: 2, reference: SECOND_SEQUENCE, fence: SECOND_SEQUENCE }),
            )
        }
}

/// The private channel was retired, and what it did was not found in memory.
pub open spec fn not_in_memory(before: Seq<Access>, after: Seq<Access>) -> bool {
    exists|p: Proof| #[trigger]
        found_in_memory(before, after, p) && !Fifo::retired(p, 2, SECOND_SEQUENCE)
}

/// Commands were not shown to run: where it stopped, and why.
pub open spec fn host_failed(
    fifo: Fifo,
    before: Seq<Access>,
    after: Seq<Access>,
    failure: Option<FailureSnapshot>,
    e: &'static str,
) -> bool {
    &&& mmio::extends(before, after)
    &&& {
        ||| attach_failed(fifo, before, after, failure, e)
        ||| exists|bound: Seq<Access>|
            #[trigger] was_bound(fifo, before, bound) && submit_failed(
                bound,
                after,
                1,
                FIRST_SEQUENCE,
                TIMEOUT_NS,
                failure,
                e,
            )
        ||| exists|bound: Seq<Access>, once: Seq<Access>|
            {
                &&& #[trigger] was_bound(fifo, before, bound)
                &&& #[trigger] completed(bound, once, 1, FIRST_SEQUENCE)
                &&& submit_failed(once, after, 2, SECOND_SEQUENCE, TIMEOUT_NS, failure, e)
            }
        ||| exists|bound: Seq<Access>, once: Seq<Access>, twice: Seq<Access>|
            {
                &&& #[trigger] both_ran(fifo, before, bound, once, twice)
                &&& retire_failed(twice, after, TIMEOUT_NS, failure, e) || (e
                    == "FIFO completion did not reach physical backing" && not_in_memory(
                    twice,
                    after,
                ))
            }
    }
}

/// The pages of graphics were stored and written out, behind a look that nothing is bound.
pub open spec fn graphics_laid(
    fifo: Fifo,
    before: Seq<Access>,
    after: Seq<Access>,
    context_va: u64,
) -> bool {
    &&& only_stored(before, after, bind_stores(fifo.userd, context_va))
    &&& exists|zeroed: Seq<Access>, laid: Seq<Access>| #[trigger]
        graphics_pages(fifo, before, zeroed, laid, after, context_va)
}

pub open spec fn graphics_pages(
    fifo: Fifo,
    before: Seq<Access>,
    zeroed: Seq<Access>,
    laid: Seq<Access>,
    after: Seq<Access>,
    context_va: u64,
) -> bool {
    &&& only_stored(before.push(Access::Read(CHANNEL_INST, 0)), zeroed, bind_zeros())
    &&& was_laid(zeroed, laid, fifo.userd)
    &&& after == laid.push(Access::Store(INSTANCE, 132, (context_va + 4) as u32)).push(
        Access::Store(INSTANCE, 133, 0),
    ).push(Access::Clean(INSTANCE))
}

/// The pages of graphics are in memory, and the device's copies dropped.
pub open spec fn graphics_known(
    fifo: Fifo,
    before: Seq<Access>,
    laid: Seq<Access>,
    after: Seq<Access>,
    context_va: u64,
) -> bool {
    &&& graphics_laid(fifo, before, laid, context_va)
    &&& cleared(
        laid.push(Access::Write(gmmu::LTC_INVALIDATE, 1)),
        after,
        gmmu::LTC_INVALIDATE,
        3,
    )
}

/// The channel of graphics has its instance, and is not on the list yet.
pub open spec fn graphics_attached(fifo: Fifo, known: Seq<Access>, channel: u32) -> Seq<Access> {
    published(known).push(Access::Write(CHANNEL_INST, fifo.bound_word())).push(
        Access::Read(CHANNEL, channel),
    ).push(Access::Write(CHANNEL, (channel & !0xf_0c00u32) | 0x400))
}

/// The channel of graphics was bound.
pub open spec fn graphics_bound(
    fifo: Fifo,
    before: Seq<Access>,
    after: Seq<Access>,
    context_va: u64,
) -> bool {
    exists|laid: Seq<Access>, known: Seq<Access>, channel: u32|
        {
            &&& #[trigger] graphics_known(fifo, before, laid, known, context_va)
            &&& was_activated(fifo, #[trigger] graphics_attached(fifo, known, channel), after)
        }
}

/// The channel of graphics was not bound: where it stopped, and why.
pub open spec fn graphics_failed(
    fifo: Fifo,
    before: Seq<Access>,
    after: Seq<Access>,
    context_va: u64,
    failure: Option<FailureSnapshot>,
    e: &'static str,
) -> bool {
    &&& mmio::extends(before, after)
    &&& {
        ||| {
            &&& e == "graphics channel was not retired before initial binding"
            &&& mmio::last(after, CHANNEL_INST) != 0
            &&& after == before.push(Access::Read(CHANNEL_INST, mmio::last(after, CHANNEL_INST)))
        }
        ||| exists|laid: Seq<Access>|
            #[trigger] graphics_laid(fifo, before, laid, context_va) && wait_failed(
                laid.push(Access::Write(gmmu::LTC_INVALIDATE, 1)),
                after,
                gmmu::LTC_INVALIDATE,
                3,
                TIMEOUT_NS,
                failure,
                e,
            )
        ||| exists|laid: Seq<Access>, known: Seq<Access>|
            #[trigger] graphics_known(fifo, before, laid, known, context_va) && publish_failed(
                known,
                after,
                failure,
                e,
            )
        ||| exists|laid: Seq<Access>, known: Seq<Access>, channel: u32|
            {
                &&& #[trigger] graphics_known(fifo, before, laid, known, context_va)
                &&& activate_failed(
                    fifo,
                    #[trigger] graphics_attached(fifo, known, channel),
                    after,
                    failure,
                    e,
                )
            }
    }
}

/// The channel of graphics, as it is when it is bound.
pub open spec fn channel_of(fifo: Fifo, context_va: u64) -> GraphicsChannel {
    match fifo.graphics {
        Some(channel) => channel,
        None => GraphicsChannel { context_va, put: 0, completed_sequence: None },
    }
}

/// The channel of graphics is bound: it was, or it was bound now.
pub open spec fn channel_ready(
    fifo: Fifo,
    before: Seq<Access>,
    after: Seq<Access>,
    context_va: u64,
) -> bool {
    &&& mmio::extends(before, after)
    &&& {
        match fifo.graphics {
            Some(_) => after == before,
            None => {
                &&& mmio::stores(after) == mmio::stores(before) + bind_stores(
                    fifo.userd,
                    context_va,
                )
                &&& graphics_bound(fifo, before, after, context_va)
            },
        }
    }
}

/// A push was put into the queue, behind a look that the device is where it is expected.
pub open spec fn queued(before: Seq<Access>, put: u32, va: u64, words: u32) -> Seq<Access> {
    before + seq![
        Access::Load(gmmu::BAR1, SEEN_GP_GET, put),
        Access::Load(gmmu::BAR1, SEEN_GP_PUT, put),
        Access::Store(RING, (2 * put) as usize, (va % 0x1_0000_0000) as u32),
        Access::Store(
            RING,
            (2 * put + 1) as usize,
            (words * 0x400 + va / 0x1_0000_0000) as u32,
        ),
        Access::Clean(RING),
        Access::Write(gmmu::LTC_INVALIDATE, 1),
    ]
}

/// The places at which a push of graphics commands waited: the device's copies are dropped,
/// the commands are over, and what they wrote is flushed.
pub struct Passage {
    pub known: Seq<Access>,
    pub ran: Seq<Access>,
    pub flushed: Seq<Access>,
}

/// So many of the waits of a push were over.
pub open spec fn passing(
    before: Seq<Access>,
    p: Passage,
    put: u32,
    va: u64,
    words: u32,
    sequence: u32,
    n: int,
) -> bool {
    &&& n > 0 ==> cleared(queued(before, put, va, words), p.known, gmmu::LTC_INVALIDATE, 3)
    &&& n > 1 ==> completed(p.known, p.ran, Fifo::next_put(put), sequence)
    &&& n > 2 ==> cleared(p.ran.push(Access::Write(gmmu::FLUSH, 1)), p.flushed, gmmu::FLUSH, 3)
}

/// A push of graphics commands was run to its end, and what it wrote is in memory.
pub open spec fn push_ran(
    before: Seq<Access>,
    after: Seq<Access>,
    put: u32,
    va: u64,
    words: u32,
    sequence: u32,
) -> bool {
    &&& mmio::extends(before, after)
    &&& mmio::stores(after) == mmio::stores(before) + Fifo::entry_stores(put, va, words)
    &&& exists|p: Passage| #[trigger]
        passing(before, p, put, va, words, sequence, 3) && cleared(
            p.flushed.push(Access::Write(gmmu::LTC_FLUSH, 1)),
            after,
            gmmu::LTC_FLUSH,
            3,
        )
}

/// A push of graphics commands was not run to its end on a bound channel: where it stopped,
/// and why.
pub open spec fn push_failed(
    channel: GraphicsChannel,
    before: Seq<Access>,
    after: Seq<Access>,
    va: u64,
    words: u32,
    context_va: u64,
    sequence: u32,
    failure: Option<FailureSnapshot>,
    e: &'static str,
) -> bool {
    let put = channel.put;
    &&& mmio::extends(before, after)
    &&& {
        ||| {
            let get = mmio::loads(after, gmmu::BAR1, SEEN_GP_GET).last();
            let end = mmio::loads(after, gmmu::BAR1, SEEN_GP_PUT).last();
            &&& e == "graphics channel still owns the previous pushbuffer"
            &&& after == before.push(Access::Load(gmmu::BAR1, SEEN_GP_GET, get)).push(
                Access::Load(gmmu::BAR1, SEEN_GP_PUT, end),
            )
            &&& channel.context_va != context_va || get != put || end != put
        }
        ||| exists|p: Passage, n: int|
            {
                &&& channel.context_va == context_va
                &&& #[trigger] passing(before, p, put, va, words, sequence, n)
                &&& {
                    ||| n == 0 && wait_failed(
                        queued(before, put, va, words),
                        after,
                        gmmu::LTC_INVALIDATE,
                        3,
                        TIMEOUT_NS,
                        failure,
                        e,
                    )
                    ||| n == 1 && submit_failed(
                        p.known,
                        after,
                        Fifo::next_put(put),
                        sequence,
                        GRAPHICS_TIMEOUT_NS,
                        failure,
                        e,
                    )
                    ||| n == 2 && wait_failed(
                        p.ran.push(Access::Write(gmmu::FLUSH, 1)),
                        after,
                        gmmu::FLUSH,
                        3,
                        GRAPHICS_TIMEOUT_NS,
                        failure,
                        e,
                    )
                    ||| n == 3 && wait_failed(
                        p.flushed.push(Access::Write(gmmu::LTC_FLUSH, 1)),
                        after,
                        gmmu::LTC_FLUSH,
                        3,
                        GRAPHICS_TIMEOUT_NS,
                        failure,
                        e,
                    )
                }
            }
    }
}

impl Fifo {
    pub fn new(instance: u64, userd: u64, runlist: u64) -> (r: Self)
        requires
            gmmu::reachable(instance, 1) && instance % 4096 == 0,
            gmmu::reachable(userd, 1) && userd % 4096 == 0,
            gmmu::reachable(runlist, 1) && runlist % 4096 == 0,
        ensures
            r.wf(),
            r == (Fifo { instance, userd, runlist, graphics: None, failure: None }),
    {
        Fifo { instance, userd, runlist, graphics: None, failure: None }
    }

    /// Publishes the control page, after reset and before anything is bound.
    pub fn prepare_hardware<R: Dma>(&mut self, bus: &mut Bus<'_, R>) -> (r: Result<
        (),
        &'static str,
    >)
        requires
            old(self).wf(),
        ensures
            final(bus).port() == old(bus).port(),
            mmio::extends(old(bus).log(), final(bus).log()),
            final(self).same_channel(*old(self)),
            mmio::stores(final(bus).log()) == mmio::stores(old(bus).log()) + prepare_stores(
                old(self).userd,
            ),
            r is Ok ==> mmio::writes(final(bus).log()) == mmio::writes(old(bus).log()).push(
                (FIFO_BAR1_BASE, 0x1000_0003u32),
            ),
            r is Ok ==> host_ready(old(self).userd, old(bus).log(), final(bus).log()),
            r matches Err(e) ==> host_not_ready(
                old(self).userd,
                old(bus).log(),
                final(bus).log(),
                final(self).failure,
                e,
            ),
    {
        prepare(bus, self.userd);
        let ghost laid = bus.log();
        assert(was_laid(old(bus).log(), laid, old(self).userd));
        verify_host_inputs(bus)?;
        assert(inputs_seen(laid, bus.log()));
        self.publish_userd(bus)
    }

    /// What binding the private channel writes, by what was read.
    pub open spec fn bind_writes(self, first: u32, second: u32, disabled: u32) -> Seq<
        (usize, u32),
    > {
        seq![
            (CHANNEL, first & !0xf_0000u32),
            (CHANNEL_INST, self.bound_word()),
            (CHANNEL, (second & !0xc00u32) | 0x400),
        ] + self.activate_writes(disabled)
    }

    #[verifier::rlimit(60)]
    fn bind_channel<R: Dma>(&mut self, bus: &mut Bus<'_, R>) -> (r: Result<(), &'static str>)
        requires
            old(self).wf(),
        ensures
            final(bus).port() == old(bus).port(),
            final(self).same_channel(*old(self)),
            mmio::stores(final(bus).log()) == mmio::stores(old(bus).log()),
            mmio::extends(old(bus).log(), final(bus).log()),
            exists|disabled: u32, n: int|
                mmio::writes(final(bus).log()) == mmio::writes(old(bus).log()) + #[trigger] old(self).bind_writes(
                    mmio::fresh(old(bus).log(), final(bus).log(), CHANNEL, 0),
                    mmio::fresh(old(bus).log(), final(bus).log(), CHANNEL, 1),
                    disabled,
                ).take(n) && (r is Ok ==> n == 6) && (n == 6 ==> mmio::saw(
                    old(bus).log(),
                    final(bus).log(),
                    SCHED_DISABLE,
                    disabled,
                )),
            mmio::reads(final(bus).log(), CHANNEL).len() >= mmio::reads(
                old(bus).log(),
                CHANNEL,
            ).len() + 2,
            r is Ok ==> was_bound(*old(self), old(bus).log(), final(bus).log()),
            r matches Err(e) ==> attach_failed(
                *old(self),
                old(bus).log(),
                final(bus).log(),
                final(self).failure,
                e,
            ),
    {
        let ghost start = mmio::writes(bus.log());
        let first: u32 = bus.read(CHANNEL);
        bus.write(CHANNEL, first & !0xf_0000);
        bus.write(CHANNEL_INST, self.bound());
        let second: u32 = bus.read(CHANNEL);
        bus.write(CHANNEL, (second & !0xc00) | 0x400);
        let ghost bound = bus.log();
        assert(mmio::writes(bound) =~= start + old(self).bind_writes(first, second, 0).take(3));
        assert(bound == attached(*old(self), old(bus).log(), first, second));
        let r = self.activate_runlist(bus);
        proof {
            let o = old(bus).log();
            let (disabled, n) = choose|disabled: u32, n: int|
                mmio::writes(bus.log()) == mmio::writes(bound) + #[trigger] old(self).activate_writes(
                    disabled,
                ).take(n) && 0 <= n <= 3 && (r is Ok ==> n == 3) && (n == 3 ==> mmio::saw(
                    bound,
                    bus.log(),
                    SCHED_DISABLE,
                    disabled,
                ));
            let k = mmio::reads(o, CHANNEL).len() as int;
            mmio::readings_stay(bound, bus.log(), CHANNEL, k);
            mmio::readings_stay(bound, bus.log(), CHANNEL, k + 1);
            assert(mmio::fresh(o, bus.log(), CHANNEL, 0) == first);
            assert(mmio::fresh(o, bus.log(), CHANNEL, 1) == second);
            let whole = old(self).bind_writes(first, second, disabled);
            assert(mmio::writes(bus.log()) =~= start + whole.take(3 + n));
            if n == 3 {
                mmio::lemma_saw_later(o, bound, bus.log(), bus.log(), SCHED_DISABLE, disabled);
            }
        }
        r
    }

    /// Shows that commands run: two pushes on the private channel, seen through the
    /// aperture and then in memory, with the channel retired in between.
    #[verifier::rlimit(100)]
    pub fn prove_host<R: Dma>(&mut self, bus: &mut Bus<'_, R>) -> (r: Result<Proof, &'static str>)
        requires
            old(self).wf(),
        ensures
            final(bus).port() == old(bus).port(),
            mmio::extends(old(bus).log(), final(bus).log()),
            final(self).same_channel(*old(self)),
            r matches Ok(proof) ==> Self::retired(proof, 2, SECOND_SEQUENCE),
            r is Ok ==> host_proved(*old(self), old(bus).log(), final(bus).log()),
            r matches Err(e) ==> host_failed(
                *old(self),
                old(bus).log(),
                final(bus).log(),
                final(self).failure,
                e,
            ),
            r is Ok ==> {
                &&& mmio::loads(final(bus).log(), USERD, USERD_GP_GET).last() == 2
                &&& mmio::loads(final(bus).log(), USERD, USERD_REF).last() == SECOND_SEQUENCE
                &&& mmio::loads(final(bus).log(), FENCE, 0).last() == SECOND_SEQUENCE
                &&& mmio::stores(final(bus).log()) == mmio::stores(old(bus).log()).push(
                    (gmmu::BAR1, SEEN_GP_PUT, 1u32),
                ).push((gmmu::BAR1, SEEN_GP_PUT, 2u32))
            },
            r is Ok ==> exists|disabled: u32, channel: u32|
                mmio::writes(final(bus).log()) == mmio::writes(old(bus).log()) + #[trigger] old(self).bind_writes(
                    mmio::fresh(old(bus).log(), final(bus).log(), CHANNEL, 0),
                    mmio::fresh(old(bus).log(), final(bus).log(), CHANNEL, 1),
                    disabled,
                ) + #[trigger] Self::retire_writes(channel) && mmio::saw(
                    old(bus).log(),
                    final(bus).log(),
                    SCHED_DISABLE,
                    disabled,
                ) && mmio::saw(old(bus).log(), final(bus).log(), CHANNEL, channel),
    {
        let ghost start = mmio::writes(bus.log());
        let bound = self.bind_channel(bus);
        let ghost first = mmio::fresh(old(bus).log(), bus.log(), CHANNEL, 0);
        let ghost second = mmio::fresh(old(bus).log(), bus.log(), CHANNEL, 1);
        let ghost (disabled, n) = choose|disabled: u32, n: int|
            mmio::writes(bus.log()) == start + #[trigger] old(self).bind_writes(
                first,
                second,
                disabled,
            ).take(n) && (bound is Ok ==> n == 6) && (n == 6 ==> mmio::saw(
                old(bus).log(),
                bus.log(),
                SCHED_DISABLE,
                disabled,
            ));
        bound?;
        let ghost attached = bus.log();
        let ghost ready = mmio::writes(bus.log());
        proof {
            let whole = old(self).bind_writes(first, second, disabled);
            assert(whole.take(6) =~= whole);
        }
        assert(was_bound(*old(self), old(bus).log(), attached));
        self.submit(bus, 1, FIRST_SEQUENCE, TIMEOUT_NS)?;
        let ghost once = bus.log();
        assert(completed(attached, once, 1, FIRST_SEQUENCE));
        let proof: Proof = self.submit(bus, 2, SECOND_SEQUENCE, TIMEOUT_NS)?;
        let ghost before = bus.log();
        assert(both_ran(*old(self), old(bus).log(), attached, once, before));
        let retired = self.retire(bus, TIMEOUT_NS);
        let ghost after = bus.log();
        let ghost channel = mmio::fresh(before, bus.log(), CHANNEL, 0);
        let ghost m = choose|m: int|
            mmio::writes(bus.log()) == ready + #[trigger] Self::retire_writes(channel).take(m) && (
            retired is Ok ==> m == 7);
        retired?;
        proof {
            let whole = Self::retire_writes(channel);
            assert(whole.take(7) =~= whole);
        }
        bus.refresh(USERD);
        bus.refresh(FENCE);
        let get: u32 = bus.load(USERD, USERD_GP_GET);
        let reference: u32 = bus.load(USERD, USERD_REF);
        let fence: u32 = bus.load(FENCE, 0);
        proof {
            let p = Proof { gp_get: get, reference, fence };
            assert(bus.log() =~= remembered(after, p));
            assert(found_in_memory(before, bus.log(), p));
        }
        if get != proof.gp_get || reference != proof.reference || fence != proof.fence {
            return Err("FIFO completion did not reach physical backing");
        }
        proof {
            let o = old(bus).log();
            let k = mmio::reads(o, CHANNEL).len() as int;
            mmio::readings_stay(attached, bus.log(), CHANNEL, k);
            mmio::readings_stay(attached, bus.log(), CHANNEL, k + 1);
            mmio::lemma_saw_later(o, o, attached, bus.log(), SCHED_DISABLE, disabled);
            mmio::lemma_saw_later(o, before, after, bus.log(), CHANNEL, channel);
            assert(mmio::fresh(o, bus.log(), CHANNEL, 0) == first);
            assert(mmio::fresh(o, bus.log(), CHANNEL, 1) == second);
        }
        Ok(proof)
    }

    /// What is wrong with a piece of work before the device sees it.
    pub open spec fn entry_error(va: u64, words: u32, sequence: u32) -> Option<&'static str> {
        if words == 0 || words >= 0x20_0000 || va % 4 != 0 || sequence == 0 {
            Some("graphics GPFIFO entry outside hardware limits")
        } else {
            None
        }
    }

    /// The next place of the queue.
    pub open spec fn next_put(put: u32) -> u32 {
        ((put + 1) % 512) as u32
    }

    /// A place of the queue: where the commands are, and how many.
    pub open spec fn entry_stores(put: u32, va: u64, words: u32) -> Seq<(usize, usize, u32)> {
        seq![
            (RING, (2 * put) as usize, (va % 0x1_0000_0000) as u32),
            (RING, (2 * put + 1) as usize, (words * 0x400 + va / 0x1_0000_0000) as u32),
            (gmmu::BAR1, SEEN_GP_PUT, Self::next_put(put)),
        ]
    }

    /// Runs one push of graphics commands to its end. The channel stays bound; only
    /// the next place of the queue and its end change. What the commands wrote is in
    /// memory afterwards.
    #[verifier::rlimit(100)]
    #[verifier::spinoff_prover]
    pub fn graphics<R: Dma>(
        &mut self,
        bus: &mut Bus<'_, R>,
        va: u64,
        words: u32,
        context_va: u64,
        sequence: u32,
    ) -> (r: Result<(), &'static str>)
        requires
            old(self).wf(),
            va < 0x100_0000_0000,
            context_va < 0x1_0000_0000,
            context_va % 4096 == 0,
        ensures
            final(bus).port() == old(bus).port(),
            mmio::extends(old(bus).log(), final(bus).log()),
            final(self).wf(),
            Self::entry_error(va, words, sequence) matches Some(e) ==> r == Err::<(), &'static str>(
                e,
            ) && *final(self) == *old(self) && final(bus).log() == old(bus).log(),
            // Only what was seen to be over counts as over.
            r is Ok ==> {
                let channel = channel_of(*old(self), context_va);
                &&& channel.context_va == context_va
                &&& final(self).graphics == Some(
                    GraphicsChannel {
                        context_va,
                        put: Self::next_put(channel.put),
                        completed_sequence: Some(sequence),
                    },
                )
                &&& exists|a: Seq<Access>| #[trigger]
                    channel_ready(*old(self), old(bus).log(), a, context_va) && push_ran(
                        a,
                        final(bus).log(),
                        channel.put,
                        va,
                        words,
                        sequence,
                    )
            },
            r matches Err(e) ==> Self::entry_error(va, words, sequence) == Some(e) || (
            old(self).graphics is None && graphics_failed(
                *old(self),
                old(bus).log(),
                final(bus).log(),
                context_va,
                final(self).failure,
                e,
            )) || exists|a: Seq<Access>|
                #[trigger] channel_ready(*old(self), old(bus).log(), a, context_va) && push_failed(
                    channel_of(*old(self), context_va),
                    a,
                    final(bus).log(),
                    va,
                    words,
                    context_va,
                    sequence,
                    final(self).failure,
                    e,
                ),
            r is Err && Self::entry_error(va, words, sequence) is None ==> {
                ||| final(self).graphics == old(self).graphics
                ||| final(self).graphics matches Some(channel) && channel.completed_sequence is None
            },
    {
        if words == 0 || words >= 0x20_0000 || va % 4 != 0 || sequence == 0 {
            return Err("graphics GPFIFO entry outside hardware limits");
        }
        let channel: GraphicsChannel = match self.graphics {
            Some(channel) => channel,
            None => {
                self.bind_graphics(bus, context_va)?;
                let fresh = GraphicsChannel { context_va, put: 0, completed_sequence: None };
                self.graphics = Some(fresh);
                fresh
            },
        };
        let ghost start = mmio::stores(bus.log());
        let ghost ready = bus.log();
        assert(channel_ready(*old(self), old(bus).log(), ready, context_va));
        assert(channel == channel_of(*old(self), context_va));
        let get: u32 = bus.load(gmmu::BAR1, SEEN_GP_GET);
        let put: u32 = bus.load(gmmu::BAR1, SEEN_GP_PUT);
        if channel.context_va != context_va || get != channel.put || put != channel.put {
            return Err("graphics channel still owns the previous pushbuffer");
        }
        let low: u32 = (va % 0x1_0000_0000) as u32;
        let high: u32 = (va / 0x1_0000_0000) as u32;
        bus.store(RING, 2 * channel.put as usize, low);
        bus.store(RING, 2 * channel.put as usize + 1, words * 0x400 + high);
        bus.clean(RING);
        bus.write(gmmu::LTC_INVALIDATE, 1);
        let ghost mut p = Passage { known: ready, ran: ready, flushed: ready };
        let ghost place = channel.put;
        assert(bus.log() =~= queued(ready, place, va, words));
        assert(passing(ready, p, place, va, words, sequence, 0));
        self.wait_clear(bus, gmmu::LTC_INVALIDATE, 3, TIMEOUT_NS)?;
        proof {
            p = Passage { known: bus.log(), ..p };
            assert(passing(ready, p, place, va, words, sequence, 1));
        }
        let next: u32 = (channel.put + 1) % GPFIFO_ENTRIES;
        self.graphics = Some(
            GraphicsChannel { context_va, put: next, completed_sequence: None },
        );
        self.submit(bus, next, sequence, GRAPHICS_TIMEOUT_NS)?;
        proof {
            p = Passage { ran: bus.log(), ..p };
            assert(passing(ready, p, place, va, words, sequence, 2));
        }
        bus.write(gmmu::FLUSH, 1);
        self.wait_clear(bus, gmmu::FLUSH, 3, GRAPHICS_TIMEOUT_NS)?;
        proof {
            p = Passage { flushed: bus.log(), ..p };
            assert(passing(ready, p, place, va, words, sequence, 3));
        }
        bus.write(gmmu::LTC_FLUSH, 1);
        self.wait_clear(bus, gmmu::LTC_FLUSH, 3, GRAPHICS_TIMEOUT_NS)?;
        self.graphics = Some(
            GraphicsChannel { context_va, put: next, completed_sequence: Some(sequence) },
        );
        assert(mmio::stores(bus.log()) =~= start + Self::entry_stores(channel.put, va, words));
        assert(push_ran(ready, bus.log(), place, va, words, sequence));
        Ok(())
    }

    /// Binds the channel of graphics, for the first time and for good. The private
    /// channel has to be retired before.
    fn bind_graphics<R: Dma>(&mut self, bus: &mut Bus<'_, R>, context_va: u64) -> (r: Result<
        (),
        &'static str,
    >)
        requires
            old(self).wf(),
            context_va < 0x1_0000_0000,
            context_va % 4096 == 0,
        ensures
            final(bus).port() == old(bus).port(),
            mmio::extends(old(bus).log(), final(bus).log()),
            final(self).same_channel(*old(self)),
            r is Ok ==> mmio::stores(final(bus).log()) == mmio::stores(old(bus).log())
                + bind_stores(old(self).userd, context_va),
            r is Ok ==> graphics_bound(*old(self), old(bus).log(), final(bus).log(), context_va),
            r matches Err(e) ==> graphics_failed(
                *old(self),
                old(bus).log(),
                final(bus).log(),
                context_va,
                final(self).failure,
                e,
            ),
    {
        let bound: u32 = bus.read(CHANNEL_INST);
        if bound != 0 {
            return Err("graphics channel was not retired before initial binding");
        }
        let ghost start = mmio::stores(bus.log());
        clear(bus, INSTANCE, 128);
        clear(bus, USERD, 1024);
        clear(bus, RING, 1024);
        clear(bus, FENCE, 1024);
        let ghost zeroed = bus.log();
        assert(mmio::stores(zeroed) =~= start + bind_zeros());
        prepare(bus, self.userd);
        let ghost pages = bus.log();
        bus.store(INSTANCE, 132, context_va as u32 + 4);
        bus.store(INSTANCE, 133, 0);
        bus.clean(INSTANCE);
        let ghost laid = bus.log();
        assert(mmio::stores(laid) =~= start + bind_stores(self.userd, context_va));
        assert(graphics_pages(*old(self), old(bus).log(), zeroed, pages, laid, context_va));
        assert(graphics_laid(*old(self), old(bus).log(), laid, context_va));
        bus.write(gmmu::LTC_INVALIDATE, 1);
        self.wait_clear(bus, gmmu::LTC_INVALIDATE, 3, TIMEOUT_NS)?;
        let ghost known = bus.log();
        assert(graphics_known(*old(self), old(bus).log(), laid, known, context_va));
        self.publish_userd(bus)?;
        bus.write(CHANNEL_INST, self.bound());
        let channel: u32 = bus.read(CHANNEL);
        bus.write(CHANNEL, (channel & !0xf_0c00) | 0x400);
        assert(bus.log() == graphics_attached(*old(self), known, channel));
        assert(*self == *old(self));
        self.activate_runlist(bus)
    }
}

/// Zeros in the first words of an area.
pub open spec fn zero_stores(area: usize, count: int) -> Seq<(usize, usize, u32)> {
    Seq::new(count as nat, |k: int| (area, k as usize, 0u32))
}

/// What is zeroed before graphics binds its channel.
pub open spec fn bind_zeros() -> Seq<(usize, usize, u32)> {
    zero_stores(INSTANCE, 128) + zero_stores(USERD, 1024) + zero_stores(RING, 1024) + zero_stores(
        FENCE,
        1024,
    )
}

/// Everything that is stored before graphics binds its channel.
pub open spec fn bind_stores(userd: u64, context_va: u64) -> Seq<(usize, usize, u32)> {
    bind_zeros() + prepare_stores(userd) + seq![
        (INSTANCE, 132usize, (context_va + 4) as u32),
        (INSTANCE, 133usize, 0u32),
    ]
}

fn clear<R: Dma>(bus: &mut Bus<'_, R>, area: usize, count: usize)
    requires
        count <= 1024,
    ensures
        final(bus).port() == old(bus).port(),
        mmio::extends(old(bus).log(), final(bus).log()),
        mmio::writes(final(bus).log()) == mmio::writes(old(bus).log()),
        mmio::stores(final(bus).log()) == mmio::stores(old(bus).log()) + zero_stores(
            area,
            count as int,
        ),
{
    let mut k: usize = 0;
    while k < count
        invariant
            mmio::extends(old(bus).log(), bus.log()),
            bus.port() == old(bus).port(),
            k <= count,
            count <= 1024,
            mmio::writes(bus.log()) == mmio::writes(old(bus).log()),
            mmio::stores(bus.log()) =~= mmio::stores(old(bus).log()) + zero_stores(area, k as int),
        decreases count - k,
    {
        bus.store(area, k, 0);
        k = k + 1;
    }
}

/// The queue has 512 places, which come round.
pub proof fn the_queue_comes_round(put: u32)
    requires
        put < GPFIFO_ENTRIES,
    ensures
        Fifo::next_put(put) < GPFIFO_ENTRIES,
        Fifo::next_put(put) != put,
        Fifo::next_put(511) == 0,
{
}

/// An entry of the queue is where the engine looks for it, and tells it an address of forty
/// bits and a length; the end of the queue is then the next entry, and behind the last one
/// the first.
pub proof fn entries_tell_where_commands_are(put: u32, va: u64, words: u32)
    requires
        put < 512,
        va < 0x100_0000_0000,
        words < 0x20_0000,
    ensures
        ({
            let s = Fifo::entry_stores(put, va, words);
            &&& s.len() == 3
            &&& s[0].0 == 10 && s[1].0 == 10 && s[0].1 == 2 * put && s[1].1 == 2 * put + 1
            &&& s[0].2 + 0x1_0000_0000 * (s[1].2 as int % 0x400) == va
            &&& s[1].2 as int / 0x400 == words
            &&& s[2].1 == 0xc23
            &&& s[2].2 == if put == 511 {
                0int
            } else {
                put + 1
            }
        }),
{
}

/// The commands of a fence have the host store the sequence at the fence's address and then
/// take it for its reference.
pub proof fn fences_and_references_have_the_sequence(sequence: u32)
    ensures
        ({
            let c = push::calls(commands_spec(sequence));
            &&& c.len() == 5
            &&& forall|i: int| 0 <= i < 5 ==> (#[trigger] c[i]).sub == 0
            &&& c[0].method == 0x10 && c[0].value == 0
            &&& c[1].method == 0x14 && c[1].value == 0x6000
            &&& c[2].method == 0x18 && c[2].value == sequence
            &&& c[3].method == 0x1c && c[3].value == 0x110_0002
            &&& c[4].method == 0x50 && c[4].value == sequence
        }),
{
    let w = commands_spec(sequence);
    reveal_with_fuel(push::calls, 3);
    assert(w.skip(5).len() == 2);
    assert(w.skip(5)[0] == 0x2001_0014 && w.skip(5)[1] == sequence);
    assert(w.skip(5).skip(2).len() == 0);
}

/// Both pushes of a check stand apart, each in its own 32 bytes with its own entry, and an
/// entry tells seven words.
pub proof fn checks_have_their_commands(index: int, sequence: u32, i: int)
    requires
        0 <= index < 2,
        0 <= i < 7,
    ensures
        ({
            let s = push_stores(index, sequence);
            &&& s.len() == 9
            &&& s[i].0 == 11 && 4 * s[i].1 == 32 * index + 4 * i
            &&& s[i].2 == commands_spec(sequence)[i]
            &&& s[7].0 == 10 && s[7].1 == 2 * index
            &&& s[8].0 == 10 && s[8].1 == 2 * index + 1
            &&& s[7].2 == 0x5000 + 4 * push_stores(index, sequence)[0].1
            &&& s[8].2 / 0x400 == 7
        }),
{
}

/// A channel's description names its control page and its ring, which takes 512 entries of
/// eight bytes.
pub proof fn channels_name_their_pages(userd: u64)
    ensures
        ({
            let s = instance_stores(userd);
            &&& s.len() == 16
            &&& s[0].0 == 8 && s[0].1 == 2 && s[1].0 == 8 && s[1].1 == 3
            &&& s[0].2 + 0x1_0000_0000 * s[1].2 == userd
            &&& s[2] == (8usize, 4usize, 0xfaceu32)
            &&& s[4] == (8usize, 18usize, 0x4000u32)
            &&& s[5].1 == 19 && s[5].2 / 0x1_0000 == 9
            &&& s[15] == (9usize, 18usize, 0xffff_ffffu32)
        }),
{
}

proof fn lemma_channel(first: u32, second: u32, disabled: u32, channel: u32)
    by (bit_vector)
    ensures
        (first & !0xf_0000u32) / 0x1_0000 % 16 == 0,
        (first & !0xf_0000u32) % 0x1_0000 == first % 0x1_0000,
        ((second & !0xc00u32) | 0x400) / 0x400 % 4 == 1,
        ((second & !0xc00u32) | 0x400) % 0x400 == second % 0x400,
        (disabled & !1u32) % 2 == 0,
        (disabled & !1u32) / 2 == disabled / 2,
        (channel | 0x800) / 0x800 % 2 == 1,
        (channel | 0x800) % 0x800 == channel % 0x800,
{
}

/// A channel is bound to its description, on the first list, and enabled, before the list
/// with it is given and the list's scheduler let go.
pub proof fn channels_are_bound_and_enabled(fifo: Fifo, first: u32, second: u32, disabled: u32)
    requires
        fifo.wf(),
    ensures
        ({
            let w = fifo.bind_writes(first, second, disabled);
            &&& w.len() == 6
            &&& w[0].0 == 0x80_0004 && w[0].1 / 0x1_0000 % 16 == 0 && w[0].1 % 0x1_0000 == first
                % 0x1_0000
            &&& w[1].0 == 0x80_0000 && w[1].1 >= 0x8000_0000 && (w[1].1 as int % 0x1000_0000) * 4096
                == fifo.instance
            &&& w[2].0 == 0x80_0004 && w[2].1 / 0x400 % 4 == 1 && w[2].1 % 0x400 == second % 0x400
            &&& w[3].0 == 0x2270 && w[3].1 * 4096 == fifo.runlist
            &&& w[4] == (0x2274usize, 1u32)
            &&& w[5].0 == 0x2630 && w[5].1 % 2 == 0 && w[5].1 / 2 == disabled / 2
        }),
{
    lemma_channel(first, second, disabled, 0);
}

/// A channel is disabled, taken off its list and out of the engine, before its description
/// and control page are given up and the caches written back.
pub proof fn channels_are_disabled_first(channel: u32)
    ensures
        ({
            let w = Fifo::retire_writes(channel);
            &&& w.len() == 7
            &&& w[0].0 == 0x80_0004 && w[0].1 / 0x800 % 2 == 1 && w[0].1 % 0x800 == channel % 0x800
            &&& w[1] == (0x2274usize, 0u32)
            &&& w[2] == (0x2634usize, 0u32)
            &&& w[3] == (0x80_0000usize, 0u32)
            &&& w[4] == (0x2254usize, 0u32)
            &&& w[5] == (gmmu::FLUSH, 1u32)
            &&& w[6] == (gmmu::LTC_FLUSH, 1u32)
        }),
{
    lemma_channel(0, 0, 0, channel);
}

/// A queue is idle if its end was reached and its channel is the one it should be; after
/// graphics its last sequence has been seen both as fence and as reference.
pub proof fn idle_queues_have_finished(
    fifo: Fifo,
    channel: u32,
    get: u32,
    put: u32,
    reference: u32,
    fence: u32,
)
    requires
        idle_error(fifo, channel, get, put, reference, fence) is None,
        fifo.wf(),
    ensures
        get == put && put != 0xffff_ffff,
        fifo.graphics is None ==> channel == 0,
        fifo.graphics matches Some(g) ==> put == g.put && g.completed_sequence == Some(fence)
            && reference == fence && channel >= 0x8000_0000 && (channel as int % 0x1000_0000) * 4096
            == fifo.instance,
{
}

/// What was refused at a binding is told by the lowest byte.
pub proof fn refusals_have_their_reasons(bind: u32)
    ensures
        ({
            let r = reason_spec(bind);
            let code = bind as int % 256;
            &&& r == BindReason::Nothing <==> code == 0
            &&& r == BindReason::BindNotUnbound <==> code == 1
            &&& r == BindReason::SnoopWithoutBar1 <==> code == 2
            &&& r == BindReason::UnbindWhileRunning <==> code == 3
            &&& r == BindReason::InvalidRunlist <==> code == 5
            &&& r == BindReason::InvalidCtxTgt <==> code == 6
            &&& r == BindReason::UnbindWhileParked <==> code == 11
        }),
{
}

/// The engine has a channel loaded in state one and from five on.
pub proof fn loaded_channels_have_a_state(context: u32, state: u32)
    requires
        context != 0xffff_ffff,
        context / 0x2000 % 8 == state,
    ensures
        loaded_spec(context) <==> state == 1 || 5 <= state <= 7,
        !loaded_spec(0xffff_ffff),
{
}

/// A submission that is over was seen to be: the engine had taken the last entry, both the
/// reference and the fence had the sequence, and neither the queue, its two engines nor
/// graphics reported an error that counts.
pub proof fn finished_submissions_were_seen(
    before: Seq<Access>,
    after: Seq<Access>,
    gp_put: u32,
    sequence: u32,
)
    requires
        completed(before, after, gp_put, sequence),
    ensures
        ({
            let n = after.len() as int;
            &&& n >= before.len() + 11
            &&& after[before.len() as int] == Access::Store(7, 0xc23, gp_put)
            &&& after[before.len() as int + 1] == Access::Load(7, 0xc23, gp_put)
            &&& after[n - 9] == Access::Load(7, 0xc22, gp_put)
            &&& after[n - 8] == Access::Load(7, 0xc12, sequence)
            &&& after[n - 7] == Access::Load(7, 0x1800, sequence)
            &&& after[n - 6] matches Access::Read(o, v) && o == 0x2100 && v & 0x1981_0111 == 0
            &&& after[n - 5] matches Access::Read(o, v) && o == 0x4_0108
            &&& after[n - 4] matches Access::Read(o, v) && o == 0x4_010c
            &&& after[n - 5]->Read_1 & after[n - 4]->Read_1 == 0
            &&& after[n - 3] matches Access::Read(o, v) && o == 0x4_0148
            &&& after[n - 2] matches Access::Read(o, v) && o == 0x4_014c
            &&& after[n - 3]->Read_1 & after[n - 2]->Read_1 == 0
            &&& after[n - 1] matches Access::Read(o, v) && o == 0x40_0100 && v & !1u32 == 0
        }),
{
    let (middle, i) = choose|middle: Seq<Access>, i: Interrupts| #[trigger]
        completion(before, middle, after, gp_put, sequence, i);
    assert(look(gp_put, sequence, sequence, i).len() == 9);
    let m = moved(before, gp_put);
    assert(m.len() == before.len() + 2);
    assert(looked(m, middle));
    assert(middle[before.len() as int] == m[before.len() as int]);
    assert(middle[before.len() as int + 1] == m[before.len() as int + 1]);
}

/// What is kept of a failure is read where it is.
pub proof fn failures_are_read_where_they_are(s: FailureSnapshot)
    ensures
        ({
            let l = snapshot_log(s);
            &&& l[0] == Access::Read(0x2100, s.fifo)
            &&& l[1] == Access::Read(0x4_0108, s.pbdma0) && l[2] == Access::Read(0x4_0148, s.pbdma1)
            &&& l[3] == Access::Read(0x80_0004, s.channel) && l[4] == Access::Read(0x3080, s.context)
            &&& l[5] == Access::Read(0x2284, s.runlist) && l[6] == Access::Read(
                0x2280,
                s.runlist_base,
            )
            &&& l[7] == Access::Read(0x80_0000, s.instance) && l[8] == Access::Read(
                0x4_0100,
                s.pbdma_status,
            )
            &&& l[9] == Access::Read(0x252c, s.bind) && l[10] == Access::Read(0x2630, s.scheduler)
            &&& l[11] == Access::Read(0x262c, s.fault_disable)
            &&& l[12] == Access::Read(0x2640, s.engine0) && l[13] == Access::Read(0x2648, s.engine1)
            &&& l[14] == Access::Read(0x2254, s.bar1_base)
            &&& l[15] == Access::Read(0x254c, s.sched_error) && l[16] == Access::Read(
                0x256c,
                s.chsw_error,
            )
            &&& l[17] == Access::Read(0x200, s.mc_enable) && l[18] == Access::Read(
                0x204,
                s.pbdma_enable,
            ) && l[19] == Access::Read(0x2390, s.pbdma_map)
            &&& l[20] == Access::Load(7, 0xc22, s.get) && l[21] == Access::Load(7, 0xc23, s.put)
            &&& l[22] == Access::Load(7, 0xc12, s.reference) && l[23] == Access::Load(
                7,
                0x1800,
                s.fence,
            )
            &&& s.pointers is None ==> l.len() == 24
            &&& s.pointers matches Some(p) ==> {
                &&& l.len() == 34
                &&& l[24] == Access::Read(0x4_004c, p.base_high) && l[25] == Access::Read(
                    0x4_0048,
                    p.base_low,
                )
                &&& l[26] == Access::Read(0x4_000c, p.userd_high) && l[27] == Access::Read(
                    0x4_0008,
                    p.userd_low,
                )
                &&& l[28] == Access::Read(0x4_0014, p.gp_get) && l[29] == Access::Read(
                    0x4_0000,
                    p.gp_put,
                )
                &&& l[30] == Access::Read(0x4_001c, p.pb_high) && l[31] == Access::Read(
                    0x4_0018,
                    p.pb_low,
                )
                &&& l[32] == Access::Read(0x4_0084, p.header) && l[33] == Access::Read(
                    0x4_00c0,
                    p.method,
                )
            }
        }),
{
}

/// A list is active once it was given and taken, nothing holds its scheduler back, and the
/// scheduler is seen let go.
pub proof fn active_lists_are_scheduled(fifo: Fifo, before: Seq<Access>, after: Seq<Access>)
    requires
        was_activated(fifo, before, after),
        fifo.wf(),
    ensures
        ({
            let n = after.len() as int;
            &&& n >= before.len() + 8
            &&& after[n - 6] matches Access::Read(o, v) && o == 0x2284 && v & 0x10_0000 == 0
            &&& after[n - 5] matches Access::Read(o, v) && o == 0x2630 && v != 0xffff_ffff
            &&& after[n - 4] matches Access::Read(o, v) && o == 0x262c && v & 1 == 0
            &&& after[n - 3] matches Access::Read(o, v) && o == 0x2100 && v & 0x1981_0111 == 0
            &&& after[n - 2] == Access::Write(0x2630, after[n - 5]->Read_1 & !1u32)
            &&& after[n - 1] matches Access::Read(o, v) && o == 0x2630 && v & 1 == 0
        }),
{
    let (taken, s) = choose|taken: Seq<Access>, s: Scheduling| #[trigger]
        activated(fifo, before, taken, after, s);
    assert(after.len() == taken.len() + 5);
    assert(after[after.len() - 6] == taken.last());
    assert(listed(fifo, before).len() == before.len() + 2);
}

/// A channel is retired once it was taken off its list, preempted, seen at rest, unbound, and
/// everything it wrote is in memory.
pub proof fn retired_channels_are_written_back(before: Seq<Access>, after: Seq<Access>)
    requires
        was_retired(before, after),
    ensures
        after.last() matches Access::Read(o, v) && o == gmmu::LTC_FLUSH && v & 3 == 0,
        exists|k: int|
            {
                &&& before.len() + 3 < k < after.len() - 4
                &&& #[trigger] after[k] matches Access::Read(o, v) && o == 0x80_0004 && v
                    & 0x1000_0000 == 0
                &&& after[k + 1] == Access::Write(0x80_0000, 0)
                &&& after[k + 2] == Access::Write(0x2254, 0)
                &&& after[k + 3] == Access::Write(gmmu::FLUSH, 1)
            },
{
    let r = choose|r: Retirement| #[trigger]
        retiring(before, r, 4) && cleared(
            r.flushed.push(Access::Write(gmmu::LTC_FLUSH, 1)),
            after,
            gmmu::LTC_FLUSH,
            3,
        );
    assert(stopped(before, r.channel).len() == before.len() + 3);
    let k = r.rested.len() - 1;
    let u = unbound(r.rested);
    let f = r.flushed.push(Access::Write(gmmu::LTC_FLUSH, 1));
    assert(looked(u, r.flushed));
    assert(looked(f, after));
    assert(r.flushed[k] == u[k] && r.flushed[k + 1] == u[k + 1] && r.flushed[k + 2] == u[k + 2]
        && r.flushed[k + 3] == u[k + 3]);
    assert(after[k] == f[k] && after[k + 1] == f[k + 1] && after[k + 2] == f[k + 2] && after[k + 3]
        == f[k + 3]);
}

} // verus!
