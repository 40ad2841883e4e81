//! What the backend decides before and after it lets the hardware work: contexts,
//! images, execution and the clock. A device that is lost does nothing more.
use vstd::prelude::*;

use crate::gpu::clock;
use crate::gpu::clock::{current_rate_khz, set_rate_khz, RateChangeError};
use crate::gpu::completion;
use crate::gpu::completion::Completion;
use crate::gpu::context;
use crate::gpu::fifo;
use crate::gpu::fifo::Fifo;
use crate::gpu::gmmu;
use crate::gpu::graphics::SubmitError;
use crate::gpu::hardware;
use crate::gpu::memory::{ImageLayout, Kind, Memory, Modifier};
use crate::gpu::objects::Objects;
use crate::gpu::rail;
use crate::mmio;
use crate::mmio::{Access, Bus, Dma, Registers, Timed};
use crate::soc::clocks;
use crate::soc::power;
use crate::soc::power::GpuPlatform;

verus! {

/// Names the one language of commands that contexts speak.
pub const DIALECT_TOKEN: u64 = 0x474d_3253_4746_5801;

/// The token of a language, by its number.
pub fn query_dialect(index: u32) -> (r: Result<u64, &'static str>)
    ensures
        r == if index != 0 {
            Err::<u64, &'static str>("unknown GM20B dialect")
        } else {
            Ok::<u64, &'static str>(DIALECT_TOKEN)
        },
{
    if index != 0 {
        return Err("unknown GM20B dialect");
    }
    Ok(DIALECT_TOKEN)
}

/// Decides whether a context may be made.
pub fn check_context(objects: &Objects, index: u32, token: u64) -> (r: Result<(), &'static str>)
    ensures
        r == if index != 0 || token != DIALECT_TOKEN {
            Err::<(), &'static str>("invalid GM20B dialect token")
        } else if objects.lost {
            Err::<(), &'static str>("GM20B device lost")
        } else {
            Ok::<(), &'static str>(())
        },
{
    if index != 0 || token != DIALECT_TOKEN {
        return Err("invalid GM20B dialect token");
    }
    if objects.lost {
        return Err("GM20B device lost");
    }
    Ok(())
}

/// The storage that a new image gets.
#[derive(Clone, Copy, Debug)]
pub struct Storage {
    pub layout: ImageLayout,
    pub contiguous: bool,
    pub allocation_size: u64,
}

/// Storage has to be laid out as planned, in one piece, and large enough.
pub fn check_storage(planned: Result<ImageLayout, &'static str>, storage: &Storage) -> (r: Result<
    (),
    &'static str,
>)
    ensures
        r == match planned {
            Err(e) => Err::<(), &'static str>(e),
            Ok(layout) => if layout == storage.layout && storage.contiguous
                && storage.allocation_size >= storage.layout.total_size {
                Ok::<(), &'static str>(())
            } else {
                Err::<(), &'static str>("GM20B image backing/layout mismatch")
            },
        },
{
    let layout = planned?;
    if layout != storage.layout || !storage.contiguous || storage.allocation_size
        < storage.layout.total_size {
        return Err("GM20B image backing/layout mismatch");
    }
    Ok(())
}

/// How an image can be shown: its pitch, and whether it is stored in blocks.
#[derive(Clone, Copy, Debug, PartialEq, Eq, Structural)]
pub struct Display {
    pub width: u32,
    pub height: u32,
    pub stride: u32,
    pub blocks: bool,
}

pub open spec fn display_spec(m: Memory) -> Option<Display> {
    match m.kind {
        Kind::Image(i) => if i.create.usage.presentable {
            Some(
                Display {
                    width: i.create.width,
                    height: i.create.height,
                    stride: i.layout.luma.row_pitch,
                    blocks: i.layout.modifier == Modifier::BlockLinear,
                },
            )
        } else {
            None
        },
        _ => None,
    }
}

/// Only images that were made to be shown are.
pub fn display_resource(m: &Memory) -> (r: Option<Display>)
    ensures
        r == display_spec(*m),
{
    match &m.kind {
        Kind::Image(i) => {
            if i.create.usage.presentable {
                Some(
                    Display {
                        width: i.create.width,
                        height: i.create.height,
                        stride: i.layout.luma.row_pitch,
                        blocks: i.layout.modifier == Modifier::BlockLinear,
                    },
                )
            } else {
                None
            }
        },
        _ => None,
    }
}

/// Decides what becomes of checked work: true where the hardware has to run it. Work
/// without operations is a checkpoint: it is over once everything before it is.
pub fn is_due(objects: &Objects, operations: usize) -> (r: Result<bool, SubmitError>)
    ensures
        r == if objects.lost {
            Err::<bool, SubmitError>(SubmitError::DeviceLost("GM20B device lost"))
        } else {
            Ok::<bool, SubmitError>(operations != 0)
        },
{
    if objects.lost {
        return Err(SubmitError::DeviceLost("GM20B device lost"));
    }
    Ok(operations != 0)
}

/// Takes note of what the hardware made of some work.
pub fn conclude(objects: &mut Objects, outcome: Result<(), SubmitError>) -> (r: Result<
    (),
    SubmitError,
>)
    ensures
        r == outcome,
        *final(objects) == if outcome matches Err(SubmitError::DeviceLost(_)) {
            Objects { lost: true, ..*old(objects) }
        } else {
            *old(objects)
        },
{
    if let Err(SubmitError::DeviceLost(_)) = outcome {
        objects.fault();
    }
    outcome
}

/// The rate that the clock shows.
pub fn current_frequency_khz<R: Timed>(
    bus: &mut Bus<'_, R>,
    objects: &Objects,
    reference_hz: u32,
) -> (r: Result<u64, &'static str>)
    ensures
        final(bus).port() == old(bus).port(),
        mmio::extends(old(bus).log(), final(bus).log()),
        objects.lost ==> r == Err::<u64, &'static str>("GM20B device lost") && final(bus).log()
            == old(bus).log(),
        !objects.lost && reference_hz != clock::REFERENCE_HZ ==> r == Err::<u64, &'static str>(
            "unsupported GPU PLL reference",
        ) && final(bus).log() == old(bus).log(),
        !objects.lost && reference_hz == clock::REFERENCE_HZ ==> {
            &&& r == clock::shown(final(bus).log())
            &&& final(bus).log() == old(bus).log() + clock::rate_log(
                mmio::last(final(bus).log(), clock::CFG),
                mmio::last(final(bus).log(), clock::COEFF),
                mmio::last(final(bus).log(), hardware::SEL_VCO),
            )
        },
{
    if objects.lost {
        return Err("GM20B device lost");
    }
    current_rate_khz(bus, reference_hz)
}

/// Queue and graphics were seen at rest.
pub open spec fn rests(before: Seq<Access>, after: Seq<Access>, queue: Fifo) -> bool {
    exists|a: Seq<Access>| #[trigger]
        fifo::was_asked(before, a, queue, None) && context::was_seen_idle(a, after)
}

/// Why the hardware was not seen at rest.
pub open spec fn restless(
    before: Seq<Access>,
    after: Seq<Access>,
    queue: Fifo,
    graphics: bool,
    e: &'static str,
) -> bool {
    ||| fifo::was_asked(before, after, queue, Some(e))
    ||| exists|a: Seq<Access>|
        {
            &&& #[trigger] fifo::was_asked(before, a, queue, None)
            &&& if graphics {
                context::idle_failed(a, after, e)
            } else {
                e == "GR missing" && after == a
            }
        }
}

/// Looks whether queue and graphics rest.
pub fn idle<R: Dma>(bus: &mut Bus<'_, R>, queue: &Fifo, graphics: bool) -> (r: Result<
    (),
    &'static str,
>)
    requires
        queue.wf(),
    ensures
        final(bus).port() == old(bus).port(),
        mmio::extends(old(bus).log(), final(bus).log()),
        mmio::writes(final(bus).log()) == mmio::writes(old(bus).log()),
        mmio::stores(final(bus).log()) == mmio::stores(old(bus).log()),
        match r {
            Ok(_) => graphics && rests(old(bus).log(), final(bus).log(), *queue),
            Err(e) => restless(old(bus).log(), final(bus).log(), *queue, graphics, e),
        },
{
    queue.idle(bus)?;
    if !graphics {
        return Err("GR missing");
    }
    context::idle(bus)
}

/// What a change of the clock came to.
pub open spec fn rate_set(
    before: Seq<Access>,
    after: Seq<Access>,
    reference_hz: u32,
    rate_khz: u64,
    outcome: Result<(), RateChangeError>,
) -> bool {
    &&& mmio::extends(before, after)
    &&& {
        match clock::divider_spec(rate_khz) {
            None => after == before && outcome == Err::<(), RateChangeError>(
                RateChangeError::Reverted("unsupported GPU OPP"),
            ),
            Some(pl) => if reference_hz != clock::REFERENCE_HZ {
                after == before && outcome == Err::<(), RateChangeError>(
                    RateChangeError::Reverted("unsupported GPU PLL reference"),
                )
            } else {
                clock::was_changed(before, after, rate_khz, pl, outcome)
            },
        }
    }
}

/// What gives a device up: nothing is placed or attached any more, its notifications are
/// off, and it is clamped and in reset, as far as the platform shows it.
pub open spec fn given_up(
    gpu: (Seq<Access>, Seq<Access>),
    board: (Seq<Access>, Seq<Access>),
    notices: (Completion, Completion),
    objects: (Objects, Objects),
    r: Result<(), &'static str>,
) -> bool {
    &&& objects.1 == Objects { lost: true, ..objects.0 }
    &&& notices.1 == Completion { enabled: false, ..notices.0 }
    &&& gpu.1 == if notices.0.enabled {
        gpu.0.push(Access::Write(completion::MC_INTR_EN_1, 0))
    } else {
        gpu.0
    }
    &&& mmio::memory_kept(board.0, board.1)
    &&& power::gpu_stopped(board.0, board.1, r is Ok)
    &&& r is Ok ==> r == Ok::<(), &'static str>(())
    &&& r matches Err(e) ==> e == "GPU isolation readback mismatch"
}

/// Gives the device up. Its notifications go before its clocks do. Where it cannot be
/// shown to be isolated its memory has to stay as it is.
pub fn fault<G: Registers, R: Timed>(
    gpu: &mut Bus<'_, G>,
    board: &mut Bus<'_, R>,
    platform: &GpuPlatform,
    notices: &mut Completion,
    objects: &mut Objects,
) -> (r: Result<(), &'static str>)
    ensures
        final(gpu).port() == old(gpu).port(),
        mmio::extends(old(gpu).log(), final(gpu).log()),
        final(board).port() == old(board).port(),
        mmio::extends(old(board).log(), final(board).log()),
        given_up(
            (old(gpu).log(), final(gpu).log()),
            (old(board).log(), final(board).log()),
            (*old(notices), *final(notices)),
            (*old(objects), *final(objects)),
            r,
        ),
{
    objects.fault();
    notices.disable(gpu);
    platform.isolate(board)
}

/// A change of the clock: only at rest, and a device whose clock cannot be shown again is
/// isolated.
pub open spec fn frequency_set(
    gpu: (Seq<Access>, Seq<Access>),
    board: (Seq<Access>, Seq<Access>),
    queue: Fifo,
    notices: (Completion, Completion),
    objects: (Objects, Objects),
    reference_hz: u32,
    rate_khz: u64,
    r: Result<(), &'static str>,
) -> bool {
    exists|middle: Seq<Access>, end: Seq<Access>, outcome: Result<(), RateChangeError>|
        {
            &&& rests(gpu.0, middle, queue)
            &&& #[trigger] rate_set(middle, end, reference_hz, rate_khz, outcome)
            &&& match outcome {
                Ok(_) => r is Ok && gpu.1 == end && untouched(board, notices, objects),
                Err(RateChangeError::Reverted(e)) => r == Err::<(), &'static str>(e) && gpu.1
                    == end && untouched(board, notices, objects),
                Err(RateChangeError::Unsafe(e)) => r == Err::<(), &'static str>(e) && exists|
                    isolated: Result<(), &'static str>,
                | #[trigger]
                    given_up((end, gpu.1), board, notices, objects, isolated),
            }
        }
}

/// Nothing but the processor's own registers was used.
pub open spec fn untouched(
    board: (Seq<Access>, Seq<Access>),
    notices: (Completion, Completion),
    objects: (Objects, Objects),
) -> bool {
    board.1 == board.0 && notices.1 == notices.0 && objects.1 == objects.0
}

/// Changes the rate of an idle device. One whose clock cannot be shown again, neither the
/// new rate nor the one before, is given up.
pub fn set_frequency_khz<G: Dma, R: Timed>(
    gpu: &mut Bus<'_, G>,
    board: &mut Bus<'_, R>,
    platform: &GpuPlatform,
    notices: &mut Completion,
    objects: &mut Objects,
    queue: &Fifo,
    graphics: bool,
    rate_khz: u64,
) -> (r: Result<(), &'static str>)
    requires
        queue.wf(),
    ensures
        final(gpu).port() == old(gpu).port(),
        mmio::extends(old(gpu).log(), final(gpu).log()),
        final(board).port() == old(board).port(),
        mmio::extends(old(board).log(), final(board).log()),
        old(objects).lost ==> r == Err::<(), &'static str>("GM20B device lost")
            && final(gpu).log() == old(gpu).log() && untouched(
            (old(board).log(), final(board).log()),
            (*old(notices), *final(notices)),
            (*old(objects), *final(objects)),
        ),
        !old(objects).lost ==> {
            ||| frequency_set(
                (old(gpu).log(), final(gpu).log()),
                (old(board).log(), final(board).log()),
                *queue,
                (*old(notices), *final(notices)),
                (*old(objects), *final(objects)),
                platform.reference_hz,
                rate_khz,
                r,
            )
            ||| {
                &&& r matches Err(e) && restless(
                    old(gpu).log(),
                    final(gpu).log(),
                    *queue,
                    graphics,
                    e,
                )
                &&& untouched(
                    (old(board).log(), final(board).log()),
                    (*old(notices), *final(notices)),
                    (*old(objects), *final(objects)),
                )
            }
        },
{
    if objects.lost {
        return Err("GM20B device lost");
    }
    idle(gpu, queue, graphics)?;
    let ghost middle = gpu.log();
    let reference_hz: u32 = platform.reference_hz;
    let outcome = set_rate_khz(gpu, reference_hz, rate_khz);
    let ghost end = gpu.log();
    assert(rate_set(middle, end, reference_hz, rate_khz, outcome));
    match outcome {
        Ok(_) => Ok(()),
        Err(RateChangeError::Reverted(reason)) => Err(reason),
        Err(RateChangeError::Unsafe(reason)) => {
            let isolated = fault(gpu, board, platform, notices, objects);
            assert(given_up(
                (end, gpu.log()),
                (old(board).log(), board.log()),
                (*old(notices), *notices),
                (*old(objects), *objects),
                isolated,
            ));
            Err(reason)
        },
    }
}

/// A device whose clock cannot be shown any more is lost, silent, and told to be apart.
pub proof fn an_unknown_clock_isolates(
    gpu: (Seq<Access>, Seq<Access>),
    board: (Seq<Access>, Seq<Access>),
    queue: Fifo,
    notices: (Completion, Completion),
    objects: (Objects, Objects),
    reference_hz: u32,
    rate_khz: u64,
    r: Result<(), &'static str>,
)
    requires
        frequency_set(gpu, board, queue, notices, objects, reference_hz, rate_khz, r),
        !objects.0.lost,
    ensures
        objects.1.lost ==> !notices.1.enabled && (power::gpu_stopped(board.0, board.1, true)
            || power::gpu_stopped(board.0, board.1, false)),
        r is Ok ==> !objects.1.lost,
        !objects.1.lost ==> board.1 == board.0,
{
}

/// A device that was lost stays so: no later outcome of work brings it back, and
/// nothing more is admitted.
pub proof fn lost_devices_stay_lost(objects: Objects, outcome: Result<(), SubmitError>)
    requires
        objects.lost,
    ensures
        (if outcome matches Err(SubmitError::DeviceLost(_)) {
            Objects { lost: true, ..objects }
        } else {
            objects
        }).lost,
{
}

/// Only an image that may be shown is shown, with its size, its rows, and whether it lies in
/// blocks.
pub proof fn presentable_images_are_shown(m: Memory)
    ensures
        display_spec(m) is Some <==> (m.kind matches Kind::Image(i) && i.create.usage.presentable),
        display_spec(m) matches Some(d) ==> (m.kind matches Kind::Image(i) && d.width
            == i.create.width && d.height == i.create.height && d.stride == i.layout.luma.row_pitch
            && (d.blocks <==> i.layout.modifier == Modifier::BlockLinear)),
{
}

/// There is one language, the first, and a context that knows its token may be made while the
/// device is there.
pub proof fn contexts_speak_the_one_language(
    objects: &Objects,
    index: u32,
    told: Result<u64, &'static str>,
    token: u64,
    made: Result<(), &'static str>,
)
    requires
        call_ensures(query_dialect, (index,), told),
        call_ensures(check_context, (objects, index, token), made),
    ensures
        told is Ok <==> index == 0,
        told matches Ok(t) ==> t == 0x474d_3253_4746_5801,
        made is Ok <==> told == Ok::<u64, &'static str>(token) && !objects.lost,
{
}

} // verus!
