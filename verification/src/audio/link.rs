//! The way from memory to the codec: memory engine, crossbar and serial link.
use vstd::prelude::*;

use crate::mmio;
use crate::mmio::{Access, Bus, Timed};
use crate::soc::map::{ADMA, AHUB};
use crate::soc::power;
use crate::soc::power::{poll, Complaints};

verus! {

pub open spec fn ahub(offset: int) -> usize {
    (AHUB + offset) as usize
}

pub open spec fn adma(offset: int) -> usize {
    (ADMA + offset) as usize
}

/// The link is the master, with sixteen-bit halves.
pub const MASTER: u32 = 0x1f00_0403;

/// Two channels of sixteen bits on both sides.
pub const STEREO: u32 = 0x0011_3300;

pub open spec fn link_writes() -> Seq<(usize, u32)> {
    seq![
        (ahub(0x304), 1u32),
        (ahub(0x10a0), MASTER),
        (ahub(0x10a4), 15),
        (ahub(0x1080), 1),
        (ahub(0x1004), 1),
        (ahub(0x700), 1),
        (ahub(0x320), 0x4011_3300),
        (ahub(0x328), 0x0200_0300),
        (ahub(0x840), 1),
        (ahub(0xa40), 0),
        (ahub(0xc40), 0),
        (ahub(0x1020), STEREO),
        (ahub(0x1024), 0x100),
        (ahub(0x10a0), MASTER),
        (ahub(0x10a4), 15),
        (ahub(0x1088), 1),
    ]
}

/// What is said of the registers of the audio units.
pub open spec fn audio_complaints() -> Complaints {
    Complaints { unreadable: "audio register unreadable", late: "audio clock/reset timeout" }
}

/// A register of the audio units was not there, or never had the values in time.
pub open spec fn wait_failed(
    before: Seq<Access>,
    after: Seq<Access>,
    offset: usize,
    mask: u32,
    expected: u32,
    e: &'static str,
) -> bool {
    power::poll_failed(
        before,
        after,
        offset,
        mask,
        expected,
        10_000_000,
        audio_complaints(),
        e,
    )
}

/// Polls a register of the audio units.
pub fn wait<R: Timed>(bus: &mut Bus<'_, R>, offset: usize, mask: u32, expected: u32) -> (r: Result<
    (),
    &'static str,
>)
    ensures
        final(bus).port() == old(bus).port(),
        mmio::quiet(old(bus).log(), final(bus).log()),
        match r {
            Ok(_) => power::polled(old(bus).log(), final(bus).log(), offset, mask, expected),
            Err(e) => wait_failed(old(bus).log(), final(bus).log(), offset, mask, expected, e),
        },
        forall|o: usize|
            #![trigger mmio::reads(final(bus).log(), o)]
            o != offset ==> mmio::reads(final(bus).log(), o) == mmio::reads(old(bus).log(), o),
{
    poll(
        bus,
        offset,
        mask,
        expected,
        10_000_000,
        "audio register unreadable",
        "audio clock/reset timeout",
    )
}

/// The queues are told to empty.
pub open spec fn emptying(before: Seq<Access>) -> Seq<Access> {
    before.push(Access::Write(ahub(0x304), 1))
}

/// The link has its clock, and is told to reset.
pub open spec fn resetting(before: Seq<Access>) -> Seq<Access> {
    before.push(Access::Write(ahub(0x10a0), MASTER)).push(Access::Write(ahub(0x10a4), 15)).push(
        Access::Write(ahub(0x1080), 1),
    ).push(Access::Write(ahub(0x1004), 1))
}

/// The queues are empty, and the link came out of reset.
pub open spec fn was_reset(before: Seq<Access>, empty: Seq<Access>, after: Seq<Access>) -> bool {
    &&& power::polled(emptying(before), empty, ahub(0x304), 1, 0)
    &&& power::polled(resetting(empty), after, ahub(0x1004), 1, 0)
}

/// The queues were emptied and the link was set up, each behind a reading that the step
/// before is over.
pub open spec fn was_prepared(before: Seq<Access>, after: Seq<Access>) -> bool {
    &&& mmio::extends(before, after)
    &&& exists|empty: Seq<Access>, reset: Seq<Access>| #[trigger]
        was_reset(before, empty, reset) && mmio::only_wrote(reset, after, link_writes().skip(5))
}

/// The link was not set up: its queues, or the link itself, do not come out of reset.
pub open spec fn link_failed(before: Seq<Access>, after: Seq<Access>, e: &'static str) -> bool {
    ||| wait_failed(emptying(before), after, ahub(0x304), 1, 0, e)
    ||| exists|empty: Seq<Access>|
        #[trigger] power::polled(emptying(before), empty, ahub(0x304), 1, 0) && wait_failed(
            resetting(empty),
            after,
            ahub(0x1004),
            1,
            0,
            e,
        )
}

/// Empties the queues and sets the link up, with its clock running.
pub fn prepare_link<R: Timed>(bus: &mut Bus<'_, R>) -> (r: Result<(), &'static str>)
    ensures
        final(bus).port() == old(bus).port(),
        mmio::memory_kept(old(bus).log(), final(bus).log()),
        mmio::begins(mmio::writes(final(bus).log()), mmio::writes(old(bus).log())),
        match r {
            Ok(_) => was_prepared(old(bus).log(), final(bus).log()) && mmio::writes(
                final(bus).log(),
            ) == mmio::writes(old(bus).log()) + link_writes(),
            Err(e) => link_failed(old(bus).log(), final(bus).log(), e),
        },
{
    bus.write(AHUB + 0x304, 1);
    assert(bus.log() == emptying(old(bus).log()));
    assert(ahub(0x304) == AHUB + 0x304 && ahub(0x1004) == AHUB + 0x1004);
    wait(bus, AHUB + 0x304, 1, 0)?;
    let ghost empty = bus.log();
    assert(power::polled(emptying(old(bus).log()), empty, ahub(0x304), 1, 0));
    bus.write(AHUB + 0x10a0, MASTER);
    bus.write(AHUB + 0x10a4, 15);
    bus.write(AHUB + 0x1080, 1);
    bus.write(AHUB + 0x1004, 1);
    assert(bus.log() == resetting(empty));
    wait(bus, AHUB + 0x1004, 1, 0)?;
    let ghost reset = bus.log();
    assert(was_reset(old(bus).log(), empty, reset));
    bus.write(AHUB + 0x700, 1);
    bus.write(AHUB + 0x320, 0x4011_3300);
    bus.write(AHUB + 0x328, 0x0200_0300);
    bus.write(AHUB + 0x840, 1);
    bus.write(AHUB + 0xa40, 0);
    bus.write(AHUB + 0xc40, 0);
    bus.write(AHUB + 0x1020, STEREO);
    bus.write(AHUB + 0x1024, 0x100);
    bus.write(AHUB + 0x10a0, MASTER);
    bus.write(AHUB + 0x10a4, 15);
    bus.write(AHUB + 0x1088, 1);
    assert(mmio::writes(bus.log()) =~= mmio::writes(old(bus).log()) + link_writes());
    assert(mmio::writes(bus.log()) =~= mmio::writes(reset) + link_writes().skip(5));
    Ok(())
}

/// What stops the stream: the engine first, and the link only once it has stopped.
pub open spec fn halt_writes() -> Seq<(usize, u32)> {
    seq![
        (adma(0), 0u32),
        (adma(0x1c), 1),
        (ahub(0x300), 0),
        (ahub(0x1000), 0),
        (ahub(0x1080), 0),
    ]
}

/// The engine was told to stop, was read to have stopped, and then the link was.
pub open spec fn was_halted(before: Seq<Access>, after: Seq<Access>) -> bool {
    exists|ended: Seq<Access>| #[trigger]
        power::polled(
            before.push(Access::Write(adma(0), 0)),
            ended,
            adma(0x0c),
            1,
            0,
        ) && mmio::only_wrote(ended, after, halt_writes().skip(1))
}

/// The engine was told to stop, and did not.
pub open spec fn halt_failed(before: Seq<Access>, after: Seq<Access>, e: &'static str) -> bool {
    wait_failed(before.push(Access::Write(adma(0), 0)), after, adma(0x0c), 1, 0, e)
}

/// Stops the stream.
pub fn halt<R: Timed>(bus: &mut Bus<'_, R>) -> (r: Result<(), &'static str>)
    ensures
        final(bus).port() == old(bus).port(),
        mmio::memory_kept(old(bus).log(), final(bus).log()),
        mmio::writes(final(bus).log()) == mmio::writes(old(bus).log()) + if r is Ok {
            halt_writes()
        } else {
            seq![(adma(0), 0u32)]
        },
        match r {
            Ok(_) => was_halted(old(bus).log(), final(bus).log()),
            Err(e) => halt_failed(old(bus).log(), final(bus).log(), e),
        },
{
    assert(adma(0x0c) == ADMA + 0x0c);
    bus.write(ADMA, 0);
    assert(mmio::writes(bus.log()) =~= mmio::writes(old(bus).log()) + seq![(adma(0), 0u32)]);
    assert(bus.log() == old(bus).log().push(Access::Write(adma(0), 0)));
    wait(bus, ADMA + 0x0c, 1, 0)?;
    let ghost ended = bus.log();
    bus.write(ADMA + 0x1c, 1);
    bus.write(AHUB + 0x300, 0);
    bus.write(AHUB + 0x1000, 0);
    bus.write(AHUB + 0x1080, 0);
    assert(mmio::writes(bus.log()) =~= mmio::writes(old(bus).log()) + halt_writes());
    assert(mmio::writes(bus.log()) =~= mmio::writes(ended) + halt_writes().skip(1));
    Ok(())
}

/// What starts the stream: the engine is described, the link is opened, and the engine
/// is started last.
pub open spec fn start_writes(period_bytes: usize, address: u32) -> Seq<(usize, u32)> {
    seq![
        (adma(0x44), period_bytes as u32),
        (adma(0x24), 0x1000_4202),
        (adma(0x34), address),
        (adma(0x3c), 0),
        (adma(0x2c), 0x300),
        (adma(0x28), 0x7030_0001),
        (adma(0x1c), 1),
        (ahub(0x1080), 1),
        (ahub(0x1000), 1),
        (ahub(0x300), 1),
        (adma(0), 1),
    ]
}

/// The engine was described, the link opened, the clock read, and the engine started.
pub open spec fn started(
    before: Seq<Access>,
    period_bytes: usize,
    address: u32,
    now: u64,
) -> Seq<Access> {
    before + seq![
        Access::Write(adma(0x44), period_bytes as u32),
        Access::Write(adma(0x24), 0x1000_4202),
        Access::Write(adma(0x34), address),
        Access::Write(adma(0x3c), 0),
        Access::Write(adma(0x2c), 0x300),
        Access::Write(adma(0x28), 0x7030_0001),
        Access::Write(adma(0x1c), 1),
        Access::Write(ahub(0x1080), 1),
        Access::Write(ahub(0x1000), 1),
        Access::Write(ahub(0x300), 1),
        Access::Time(now),
        Access::Write(adma(0), 1),
    ]
}

/// Starts the stream, and tells when.
pub fn start<R: Timed>(bus: &mut Bus<'_, R>, period_bytes: usize, address: u32) -> (now: u64)
    requires
        period_bytes <= 8192,
    ensures
        final(bus).port() == old(bus).port(),
        mmio::memory_kept(old(bus).log(), final(bus).log()),
        mmio::writes(final(bus).log()) == mmio::writes(old(bus).log()) + start_writes(
            period_bytes,
            address,
        ),
        final(bus).log() == started(old(bus).log(), period_bytes, address, now),
{
    bus.write(ADMA + 0x44, period_bytes as u32);
    bus.write(ADMA + 0x24, 0x1000_4202);
    bus.write(ADMA + 0x34, address);
    bus.write(ADMA + 0x3c, 0);
    bus.write(ADMA + 0x2c, 0x300);
    bus.write(ADMA + 0x28, 0x7030_0001);
    bus.write(ADMA + 0x1c, 1);
    bus.write(AHUB + 0x1080, 1);
    bus.write(AHUB + 0x1000, 1);
    bus.write(AHUB + 0x300, 1);
    let now: u64 = bus.now_ns();
    bus.write(ADMA, 1);
    assert(bus.log() =~= started(old(bus).log(), period_bytes, address, now));
    assert(mmio::writes(bus.log()) =~= mmio::writes(old(bus).log()) + start_writes(
        period_bytes,
        address,
    ));
    now
}

/// Cuts a stream that stands still.
pub fn cut<R: Timed>(bus: &mut Bus<'_, R>)
    ensures
        final(bus).port() == old(bus).port(),
        mmio::memory_kept(old(bus).log(), final(bus).log()),
        mmio::writes(final(bus).log()) == mmio::writes(old(bus).log()) + seq![
            (adma(0), 0u32),
            (ahub(0x300), 0),
            (ahub(0x1000), 0),
        ],
        final(bus).log() == old(bus).log().push(Access::Write(adma(0), 0)).push(
            Access::Write(ahub(0x300), 0),
        ).push(Access::Write(ahub(0x1000), 0)),
{
    bus.write(ADMA, 0);
    bus.write(AHUB + 0x300, 0);
    bus.write(AHUB + 0x1000, 0);
    assert(mmio::writes(bus.log()) =~= mmio::writes(old(bus).log()) + seq![
        (adma(0), 0u32),
        (ahub(0x300), 0),
        (ahub(0x1000), 0),
    ]);
}

/// The memory of the ring is below four gigabytes.
pub fn reachable(address: u64) -> (r: Result<(), &'static str>)
    requires
        address <= 0xffff_ffff_0000_0000,
    ensures
        r == if address + 0x1_0000 > 0x1_0000_0000 {
            Err::<(), &'static str>("ADMA requires memory below 4 GiB")
        } else {
            Ok(())
        },
{
    if address + 0x1_0000 > 0x1_0000_0000 {
        return Err("ADMA requires memory below 4 GiB");
    }
    Ok(())
}

/// What is wrong with the codec's node.
pub open spec fn codec_error(
    address: Option<u32>,
    equaliser: Option<u32>,
    pin: Option<u32>,
    bus: u32,
) -> Option<&'static str> {
    if address != Some(0x1cu32) || equaliser != Some(0u32) || pin != Some(204u32) {
        Some("unsupported RT5639 board wiring")
    } else if bus != 1 {
        Some("RT5639 must be on I2C1")
    } else {
        None
    }
}

pub fn check_codec(
    address: Option<u32>,
    equaliser: Option<u32>,
    pin: Option<u32>,
    bus: u32,
) -> (r: Result<(), &'static str>)
    ensures
        match r {
            Ok(_) => codec_error(address, equaliser, pin, bus) is None,
            Err(e) => codec_error(address, equaliser, pin, bus) == Some(e),
        },
{
    if address != Some(0x1c) || equaliser != Some(0) || pin != Some(204) {
        return Err("unsupported RT5639 board wiring");
    }
    if bus != 1 {
        return Err("RT5639 must be on I2C1");
    }
    Ok(())
}

/// A stream is told to the engine before it starts: the length of a period, where the ring
/// is, and eight periods of it for the first channel; the sender then starts before the
/// engine. A halt goes the other way.
pub proof fn streams_start_at_the_far_end(period_bytes: usize, address: u32)
    requires
        period_bytes <= 8192,
    ensures
        ({
            let w = start_writes(period_bytes, address);
            let h = halt_writes();
            &&& w.len() == 11
            &&& w[0].0 == 0x702e_2044 && w[0].1 == period_bytes
            &&& w[1] == (0x702e_2024usize, 0x1000_4202u32)
            &&& w[2] == (0x702e_2034usize, address)
            &&& w[3] == (0x702e_203cusize, 0u32)
            &&& w[4] == (0x702e_202cusize, 0x300u32)
            &&& w[5] == (0x702e_2028usize, 0x7030_0001u32)
            &&& w[7] == (0x702d_1080usize, 1u32) && w[8] == (0x702d_1000usize, 1u32) && w[9] == (
                0x702d_0300usize,
                1u32,
            )
            &&& w[10] == (0x702e_2000usize, 1u32)
            &&& h.len() == 5
            &&& h[0] == (0x702e_2000usize, 0u32)
            &&& h[2] == (0x702d_0300usize, 0u32) && h[3] == (0x702d_1000usize, 0u32) && h[4] == (
                0x702d_1080usize,
                0u32,
            )
        }),
{
}

/// The codec is at 0x1c on the first bus, without an equaliser of its own, with its pin.
pub proof fn codecs_are_wired_as_known(
    address: Option<u32>,
    equaliser: Option<u32>,
    pin: Option<u32>,
    bus: u32,
)
    ensures
        codec_error(address, equaliser, pin, bus) is None <==> address == Some(0x1cu32) && equaliser
            == Some(0u32) && pin == Some(204u32) && bus == 1,
{
}

/// The hub is reset, routed from the engine's first channel to the sender, and set for two
/// 16-bit samples 48000 times a second with the clock given out.
pub proof fn links_are_set_for_stereo(i: int)
    requires
        0 <= i < 16,
    ensures
        ({
            let offsets = seq![
                0x304int,
                0x10a0,
                0x10a4,
                0x1080,
                0x1004,
                0x700,
                0x320,
                0x328,
                0x840,
                0xa40,
                0xc40,
                0x1020,
                0x1024,
                0x10a0,
                0x10a4,
                0x1088,
            ];
            let values = seq![
                1u32,
                0x1f00_0403,
                15,
                1,
                1,
                1,
                0x4011_3300,
                0x0200_0300,
                1,
                0,
                0,
                0x0011_3300,
                0x100,
                0x1f00_0403,
                15,
                1,
            ];
            &&& link_writes().len() == 16
            &&& link_writes()[i].0 == 0x702d_0000 + offsets[i]
            &&& link_writes()[i].1 == values[i]
        }),
{
}

} // verus!
