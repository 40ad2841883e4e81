//! The stream as a whole: codec, link and ring change together, and the speakers are
//! only heard while the engine runs.
use vstd::prelude::*;

use crate::audio::codec;
use crate::audio::codec::{Codec, CodecPort, Step};
use crate::audio::link;
use crate::audio::link::{cut, halt, prepare_link};
use crate::audio::ring;
use crate::audio::ring::{check_stream, Progress, Ring, StreamParams};
use crate::mmio;
use crate::mmio::{Access, Bus, Timed};
use crate::soc::map::ADMA;

verus! {

/// An exchange with the codec failed among those that were added.
pub open spec fn troubled(before: Seq<Step>, after: Seq<Step>, e: &'static str) -> bool {
    exists|i: int|
        before.len() <= i < after.len() && match #[trigger] after[i] {
            Step::ReadFailed(_, error) => error == e,
            Step::WriteFailed(_, _, error) => error == e,
            _ => false,
        }
}

/// The ring of a stream that was stopped.
pub open spec fn emptied(before: Ring, after: Ring) -> bool {
    &&& !after.active
    &&& after.read_seq == 0
    &&& after.write_seq == 0
    &&& after.counter == 0
    &&& after.completed == 0
    &&& ring::count_valid(after.valid@) == 0
    &&& after.source == before.source
    &&& after.period_bytes == before.period_bytes
}

/// What a stop writes to the registers: everything, or only the first where the engine
/// does not end.
pub open spec fn stop_writes(halted: bool) -> Seq<(usize, u32)> {
    if halted {
        link::halt_writes()
    } else {
        seq![(link::adma(0), 0u32)]
    }
}

/// Mutes and stops the stream. An engine that does not end leaves a failed ring.
pub fn stop<R: Timed, C: CodecPort>(
    bus: &mut Bus<'_, R>,
    codec: &mut Codec<'_, C>,
    ring: &mut Ring,
) -> (r: Result<(), &'static str>)
    ensures
        final(codec).port() == old(codec).port(),
        final(bus).port() == old(bus).port(),
        emptied(*old(ring), *final(ring)),
        mmio::memory_kept(old(bus).log(), final(bus).log()),
        mmio::writes(final(bus).log()) == mmio::writes(old(bus).log()) + stop_writes(
            !final(ring).failed,
        ),
        codec::extends(old(codec).log(), final(codec).log()),
        !final(ring).failed ==> link::was_halted(old(bus).log(), final(bus).log()),
        final(ring).failed ==> r is Err,
        match r {
            Ok(_) => exists|muted: Seq<Step>|
                {
                    &&& #[trigger] codec::was_muted(old(codec).log(), muted, true)
                    &&& codec::writes(final(codec).log()) == codec::writes(muted)
                        + codec::power_writes(final(codec).log(), false)
                },
            Err(e) => if final(ring).failed {
                link::halt_failed(old(bus).log(), final(bus).log(), e)
            } else {
                troubled(old(codec).log(), final(codec).log(), e)
            },
        },
{
    let mute = codec.mute(true);
    let ghost muted = codec.log();
    let result = halt(bus);
    let halted: bool = result.is_ok();
    ring.stopped(halted);
    result?;
    let off = codec.power(false);
    proof {
        if mute is Err {
            let i = muted.len() - 1;
            assert(codec.log()[i] == muted[i]);
        }
        if off is Err {
            let i = codec.log().len() - 1;
            assert(codec.log()[i] == codec.log().last());
        }
    }
    off?;
    mute
}

/// The codec is on, and then its speakers are heard.
pub open spec fn was_heard(before: Seq<Step>, after: Seq<Step>) -> bool {
    exists|on: Seq<Step>|
        {
            &&& #[trigger] codec::extends(before, on)
            &&& codec::writes(on) == codec::writes(before) + codec::power_writes(on, true)
            &&& codec::writes(after) == codec::writes(on) + codec::speaker_writes(after)
        }
}

/// Starts a configured stream from the memory at an address. The queues are emptied
/// before every start, and the speakers are heard last.
#[verifier::rlimit(60)]
pub fn start<R: Timed, C: CodecPort>(
    bus: &mut Bus<'_, R>,
    codec: &mut Codec<'_, C>,
    ring: &mut Ring,
    address: u32,
) -> (r: Result<(), &'static str>)
    requires
        old(ring).wf(),
    ensures
        final(codec).port() == old(codec).port(),
        final(bus).port() == old(bus).port(),
        mmio::extends(old(bus).log(), final(bus).log()),
        final(ring).wf(),
        old(ring).source is None || old(ring).failed ==> r == Err::<(), &'static str>(
            "audio is not configured",
        ) && *final(ring) == *old(ring) && final(bus).log() == old(bus).log()
            && final(codec).log() == old(codec).log(),
        old(ring).source is Some && !old(ring).failed && old(ring).active ==> r is Ok
            && *final(ring) == *old(ring) && final(bus).log() == old(bus).log()
            && final(codec).log() == old(codec).log(),
        old(ring).source is Some && !old(ring).failed && !old(ring).active ==> {
            &&& r is Ok ==> final(ring).active && was_heard(old(codec).log(), final(codec).log())
            // The engine runs only with the link prepared and the codec on.
            &&& final(ring).active ==> {
                &&& *final(ring) == (Ring {
                    active: true,
                    last_progress: final(ring).last_progress,
                    ..*old(ring)
                })
                &&& exists|prepared: Seq<Access>| #[trigger]
                    link::was_prepared(old(bus).log(), prepared) && final(bus).log()
                        == link::started(
                        prepared,
                        old(ring).period_bytes,
                        address,
                        final(ring).last_progress,
                    )
            }
            &&& !final(ring).active ==> r is Err && *final(ring) == *old(ring)
            &&& r matches Err(e) ==> {
                ||| troubled(old(codec).log(), final(codec).log(), e) && (final(ring).active
                    || link::was_prepared(old(bus).log(), final(bus).log()))
                ||| e == "RT5639 EQ coefficient readback mismatch" && final(ring).active
                ||| !final(ring).active && link::link_failed(
                    old(bus).log(),
                    final(bus).log(),
                    e,
                )
            }
        },
{
    let wanted: bool = ring.may_start()?;
    if !wanted {
        return Ok(());
    }
    prepare_link(bus)?;
    let ghost prepared = bus.log();
    let powered = codec.power(true);
    let ghost on = codec.log();
    proof {
        if powered is Err {
            let i = on.len() - 1;
            assert(on[i] == on.last());
        }
    }
    powered?;
    let now: u64 = link::start(bus, ring.period_bytes, address);
    ring.started(now);
    let heard = codec.enable_speakers();
    proof {
        if heard is Err {
            let i = codec.log().len() - 1;
            assert(codec.log()[i] == codec.log().last());
        } else {
            assert(codec::extends(old(codec).log(), on));
        }
    }
    heard
}

/// Sets a stream up: an earlier one is stopped, and the ring is empty.
pub fn configure<R: Timed, C: CodecPort>(
    bus: &mut Bus<'_, R>,
    codec: &mut Codec<'_, C>,
    ring: &mut Ring,
    params: &StreamParams,
    buffer: usize,
) -> (r: Result<(), &'static str>)
    ensures
        final(codec).port() == old(codec).port(),
        final(bus).port() == old(bus).port(),
        mmio::extends(old(bus).log(), final(bus).log()),
        !ring::stream_ok(*params, buffer) ==> r == Err::<(), &'static str>(
            "audio supports 48000 Hz S16_LE stereo only",
        ) && *final(ring) == *old(ring) && final(bus).log() == old(bus).log()
            && final(codec).log() == old(codec).log(),
        r is Ok ==> {
            &&& ring::stream_ok(*params, buffer)
            &&& final(ring).wf()
            &&& final(ring).source == Some(buffer)
            &&& final(ring).period_bytes == 4 * params.period_frames
            &&& !final(ring).active && !final(ring).failed
            &&& final(ring).completed == 0 && final(ring).read_seq == 0
                && final(ring).write_seq == 0 && final(ring).counter == 0
            &&& ring::count_valid(final(ring).valid@) == 0
            &&& exists|a: Seq<Access>| #[trigger]
                link::was_halted(old(bus).log(), a) && link::was_prepared(a, final(bus).log())
        },
        r is Err && ring::stream_ok(*params, buffer) ==> emptied(*old(ring), *final(ring)),
        r matches Err(e) ==> {
            ||| !ring::stream_ok(*params, buffer)
            ||| final(ring).failed && link::halt_failed(old(bus).log(), final(bus).log(), e)
            ||| troubled(old(codec).log(), final(codec).log(), e) && link::was_halted(
                old(bus).log(),
                final(bus).log(),
            )
            ||| exists|a: Seq<Access>| #[trigger]
                link::was_halted(old(bus).log(), a) && link::link_failed(a, final(bus).log(), e)
        },
{
    let bytes: usize = check_stream(params, buffer)?;
    stop(bus, codec, ring)?;
    prepare_link(bus)?;
    ring.configured(buffer, bytes);
    Ok(())
}

/// Ends the use of a stream.
pub fn release<R: Timed, C: CodecPort>(
    bus: &mut Bus<'_, R>,
    codec: &mut Codec<'_, C>,
    ring: &mut Ring,
) -> (r: Result<(), &'static str>)
    ensures
        final(codec).port() == old(codec).port(),
        final(bus).port() == old(bus).port(),
        mmio::extends(old(bus).log(), final(bus).log()),
        final(ring).source is None,
        emptied(Ring { source: None, ..*old(ring) }, *final(ring)),
        mmio::writes(final(bus).log()) == mmio::writes(old(bus).log()) + stop_writes(
            !final(ring).failed,
        ),
        final(ring).failed ==> r is Err,
        !final(ring).failed ==> link::was_halted(old(bus).log(), final(bus).log()),
        r matches Err(e) ==> if final(ring).failed {
            link::halt_failed(old(bus).log(), final(bus).log(), e)
        } else {
            troubled(old(codec).log(), final(codec).log(), e)
        },
{
    let result = stop(bus, codec, ring);
    ring.source = None;
    result
}

/// Counter and clock were read, and a stream that stands still was cut.
pub open spec fn looked(
    before: Seq<Access>,
    after: Seq<Access>,
    counter: u32,
    now: u64,
    said: Progress,
) -> bool {
    let seen = before.push(Access::Read(link::adma(0x54), counter)).push(Access::Time(now));
    after == if said == Progress::Stalled {
        seen.push(Access::Write(link::adma(0), 0)).push(Access::Write(link::ahub(0x300), 0)).push(
            Access::Write(link::ahub(0x1000), 0),
        )
    } else {
        seen
    }
}

/// Looks at the engine's counter. A stream that stands still is cut.
pub fn service<R: Timed>(bus: &mut Bus<'_, R>, ring: &mut Ring) -> (r: Progress)
    requires
        old(ring).wf(),
        old(ring).completed <= usize::MAX - 32,
        old(ring).read_seq < 0xffff_ffff_fffe_0000,
    ensures
        final(bus).port() == old(bus).port(),
        mmio::extends(old(bus).log(), final(bus).log()),
        final(ring).wf(),
        !old(ring).active ==> r == Progress::Idle && *final(ring) == *old(ring)
            && final(bus).log() == old(bus).log(),
        old(ring).active ==> {
            exists|counter: u32, now: u64| #[trigger]
                looked(old(bus).log(), final(bus).log(), counter, now, r) && old(ring).refreshed(*final(ring), (counter % 0x1_0000) as u16, now, r)
        },
{
    if !ring.active {
        return Progress::Idle;
    }
    let counter: u32 = bus.read(ADMA + 0x54);
    let now: u64 = bus.now_ns();
    let progress = ring.refresh((counter % 0x1_0000) as u16, now);
    if progress == Progress::Stalled {
        cut(bus);
    }
    assert(looked(old(bus).log(), bus.log(), counter, now, progress));
    progress
}

/// The engine's counter is read with the time; a stream that stands still is cut at both
/// ends.
pub proof fn streams_are_watched(
    before: Seq<Access>,
    after: Seq<Access>,
    counter: u32,
    now: u64,
    said: Progress,
)
    requires
        looked(before, after, counter, now, said),
    ensures
        ({
            let n = before.len() as int;
            &&& after[n] == Access::Read(0x702e_2054, counter) && after[n + 1] == Access::Time(now)
            &&& said != Progress::Stalled ==> after.len() == n + 2
            &&& said == Progress::Stalled ==> after.len() == n + 5 && after[n + 2] == Access::Write(
                0x702e_2000,
                0,
            ) && after[n + 3] == Access::Write(0x702d_0300, 0) && after[n + 4] == Access::Write(
                0x702d_1000,
                0,
            )
        }),
{
}

} // verus!
