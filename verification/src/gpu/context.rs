//! The golden context: the state that every channel's context starts from. It is
//! made once, saved by the context processor, and checked before it is used.
use vstd::prelude::*;

use crate::gpu::firmware;
use crate::gpu::firmware::Firmware;
use crate::gpu::gmmu;
use crate::gpu::gmmu::Ready;
use crate::gpu::gr;
use crate::gpu::gr::{mask, wait_reg, write_table, Gr, Proof};
use crate::mmio;
use crate::mmio::{Access, Bus, Dma, Timed};

verus! {

/// Bytes before the saved context.
pub const CB_RESERVED: usize = 0x8_0000;

pub const MAX_CONTEXT: usize = 0x10_0000;

pub const CONTEXT_VA: u32 = 0x2_0000;

pub const ATTRIB_VA: u32 = 0x20_0000;

pub const PAGEPOOL_VA: u32 = 0x25_0000;

pub const BUNDLE_VA: u32 = 0x26_0000;

/// Areas of shared memory.
pub const INSTANCE: usize = 17;

pub const IMAGE: usize = 18;

pub const ATTRIB: usize = 19;

pub const PAGEPOOL: usize = 20;

pub const BUNDLE: usize = 21;

/// The first word of the saved context.
pub const SAVED: usize = 0x2_0000;

/// Whether graphics rests, from four registers.
pub open spec fn idle_spec(status: u32, enable: u32, engine: u32, busy: u32) -> Option<bool> {
    if status == u32::MAX || enable == u32::MAX || engine == u32::MAX || busy == u32::MAX {
        None
    } else {
        Some(enable & 0x1000 == 0 || (busy & 1 == 0 && engine & 0x8000 == 0))
    }
}

/// Whether graphics rests; nothing where a register cannot be read.
pub fn is_idle(status: u32, enable: u32, engine: u32, busy: u32) -> (r: Option<bool>)
    ensures
        r == idle_spec(status, enable, engine, busy),
{
    if status == u32::MAX || enable == u32::MAX || engine == u32::MAX || busy == u32::MAX {
        return None;
    }
    Some(enable & 0x1000 == 0 || (busy & 1 == 0 && engine & 0x8000 == 0))
}

/// What the last readings say.
pub open spec fn last_idle(log: Seq<Access>) -> Option<bool> {
    idle_spec(
        mmio::last(log, 0x40_0700),
        mmio::last(log, 0x200),
        mmio::last(log, 0x2640),
        mmio::last(log, 0x40_060c),
    )
}

/// Four registers were read for whether graphics rests.
pub open spec fn idle_look(
    before: Seq<Access>,
    status: u32,
    enable: u32,
    engine: u32,
    busy: u32,
) -> Seq<Access> {
    before.push(Access::Read(0x40_0700, status)).push(Access::Read(0x200, enable)).push(
        Access::Read(0x2640, engine),
    ).push(Access::Read(0x40_060c, busy))
}

/// The last look at whether graphics rests said this.
pub open spec fn idle_looked(before: Seq<Access>, after: Seq<Access>, said: Option<bool>) -> bool {
    &&& last_idle(after) == said
    &&& exists|seen: Seq<Access>, status: u32, enable: u32, engine: u32, busy: u32|
        {
            &&& mmio::extends(before, seen)
            &&& mmio::extends(#[trigger] idle_look(seen, status, enable, engine, busy), after)
            &&& idle_spec(status, enable, engine, busy) == said
        }
}

/// Graphics was seen to rest, behind nothing but looks.
pub open spec fn was_seen_idle(before: Seq<Access>, after: Seq<Access>) -> bool {
    mmio::quiet(before, after) && idle_looked(before, after, Some(true))
}

/// Whether graphics rests is unknown, or it did not rest within two seconds.
pub open spec fn idle_failed(before: Seq<Access>, after: Seq<Access>, e: &'static str) -> bool {
    &&& mmio::quiet(before, after)
    &&& mmio::tried(before, after, 0x40_060c)
    &&& idle_looked(before, after, last_idle(after))
    &&& match last_idle(after) {
        None => e == "GR idle state unreadable",
        Some(rests) => !rests && e == "GR firmware completion timeout" && mmio::ran_out(
            before,
            after,
            2_000_000_000,
            200_000,
        ),
    }
}

/// Waits until graphics rests.
#[verifier::rlimit(100)]
pub fn idle<R: Timed>(bus: &mut Bus<'_, R>) -> (r: Result<(), &'static str>)
    ensures
        final(bus).port() == old(bus).port(),
        mmio::quiet(old(bus).log(), final(bus).log()),
        match r {
            Ok(_) => last_idle(final(bus).log()) == Some(true) && was_seen_idle(
                old(bus).log(),
                final(bus).log(),
            ),
            Err(e) => idle_failed(old(bus).log(), final(bus).log(), e),
        },
        forall|o: usize|
            #![trigger mmio::reads(final(bus).log(), o)]
            o != 0x40_0700 && o != 0x200 && o != 0x2640 && o != 0x40_060c ==> mmio::reads(
                final(bus).log(),
                o,
            ) == mmio::reads(old(bus).log(), o),
{
    let start: u64 = bus.now_ns();
    let deadline: u64 = start.saturating_add(2_000_000_000);
    let mut left: u32 = 200_000;
    while left > 0
        invariant
            bus.port() == old(bus).port(),
            left <= 200_000,
            deadline == mmio::until(start, 2_000_000_000),
            bus.log().len() == old(bus).log().len() + 1 + 6 * (200_000 - left),
            bus.log()[old(bus).log().len() as int] == Access::Time(start),
            left < 200_000 ==> mmio::tried(old(bus).log(), bus.log(), 0x40_060c) && idle_looked(
                old(bus).log(),
                bus.log(),
                Some(false),
            ),
            left == 200_000 ==> mmio::reads(bus.log(), 0x40_060c) == mmio::reads(
                old(bus).log(),
                0x40_060c,
            ),
            mmio::quiet(old(bus).log(), bus.log()),
            forall|o: usize|
                #![trigger mmio::reads(bus.log(), o)]
                o != 0x40_0700 && o != 0x200 && o != 0x2640 && o != 0x40_060c ==> mmio::reads(
                    bus.log(),
                    o,
                ) == mmio::reads(old(bus).log(), o),
        decreases left,
    {
        let ghost seen = bus.log();
        let status: u32 = bus.read(0x40_0700);
        let enable: u32 = bus.read(0x200);
        let engine: u32 = bus.read(0x2640);
        let busy: u32 = bus.read(0x40_060c);
        assert(bus.log() == idle_look(seen, status, enable, engine, busy));
        assert(idle_looked(
            old(bus).log(),
            bus.log(),
            idle_spec(status, enable, engine, busy),
        ));
        match is_idle(status, enable, engine, busy) {
            None => {
                return Err("GR idle state unreadable");
            },
            Some(rests) => {
                if rests {
                    return Ok(());
                }
            },
        }
        let now: u64 = bus.now_ns();
        assert(idle_looked(old(bus).log(), bus.log(), Some(false))) by {
            assert(mmio::extends(idle_look(seen, status, enable, engine, busy), bus.log()));
        }
        if now >= deadline {
            return Err("GR firmware completion timeout");
        }
        bus.delay_us(10);
        assert(idle_looked(old(bus).log(), bus.log(), Some(false))) by {
            assert(mmio::extends(idle_look(seen, status, enable, engine, busy), bus.log()));
        }
        left = left - 1;
    }
    Err("GR firmware completion timeout")
}

/// The context processor was asked.
pub open spec fn was_told(
    before: Seq<Access>,
    after: Seq<Access>,
    instance: u32,
    method: u32,
    bits: u32,
) -> bool {
    exists|a: Seq<Access>| #[trigger]
        gr::was_masked(before, a, 0x40_9800, bits, 0) && after == a.push(
            Access::Write(0x40_9500, instance),
        ).push(Access::Write(0x40_9504, method))
}

/// The context processor did what it was asked.
pub open spec fn was_called(
    before: Seq<Access>,
    after: Seq<Access>,
    instance: u32,
    method: u32,
    success: u32,
    error: u32,
) -> bool {
    &&& mmio::memory_kept(before, after)
    &&& exists|told: Seq<Access>|
        {
            &&& #[trigger] was_told(before, told, instance, method, success | error)
            &&& mmio::quiet(told, after)
            &&& told.len() < after.len()
            &&& after.last() matches Access::Read(o, status) && o == 0x40_9800 && status != u32::MAX
                && status & error == 0 && status & success != 0
        }
}

/// The context processor did not do what it was asked: its state is not there, it reports an
/// error, or nothing for two seconds.
pub open spec fn call_failed(
    before: Seq<Access>,
    after: Seq<Access>,
    instance: u32,
    method: u32,
    success: u32,
    error: u32,
    e: &'static str,
) -> bool {
    &&& mmio::extends(before, after)
    &&& {
        let status = mmio::last(after, 0x40_9800);
        ||| gr::mask_failed(before, after, 0x40_9800, e)
        ||| exists|a: Seq<Access>|
            {
                &&& #[trigger] was_told(before, a, instance, method, success | error)
                &&& mmio::quiet(a, after)
                &&& mmio::tried(a, after, 0x40_9800)
                &&& if status == u32::MAX || status & error != 0 {
                    e == "FECS golden context method failed"
                } else {
                    e == "GR firmware completion timeout" && status & success == 0 && mmio::ran_out(
                        a,
                        after,
                        2_000_000_000,
                        200_000,
                    )
                }
            }
    }
}

/// Asks the context processor for something.
#[verifier::rlimit(100)]
fn fecs<R: Timed>(
    bus: &mut Bus<'_, R>,
    instance: u32,
    method: u32,
    success: u32,
    error: u32,
) -> (r: Result<(), &'static str>)
    ensures
        final(bus).port() == old(bus).port(),
        mmio::memory_kept(old(bus).log(), final(bus).log()),
        mmio::begins(mmio::writes(final(bus).log()), mmio::writes(old(bus).log())),
        match r {
            Ok(_) => was_called(
                old(bus).log(),
                final(bus).log(),
                instance,
                method,
                success,
                error,
            ),
            Err(e) => call_failed(
                old(bus).log(),
                final(bus).log(),
                instance,
                method,
                success,
                error,
                e,
            ),
        },
{
    mask(bus, 0x40_9800, success | error, 0)?;
    let ghost a = bus.log();
    bus.write(0x40_9500, instance);
    bus.write(0x40_9504, method);
    let ghost told = bus.log();
    assert(told == a.push(Access::Write(0x40_9500, instance)).push(
        Access::Write(0x40_9504, method),
    ));
    assert(was_told(old(bus).log(), told, instance, method, success | error));
    let start: u64 = bus.now_ns();
    let deadline: u64 = start.saturating_add(2_000_000_000);
    let mut left: u32 = 200_000;
    while left > 0
        invariant
            bus.port() == old(bus).port(),
            left <= 200_000,
            deadline == mmio::until(start, 2_000_000_000),
            bus.log().len() == told.len() + 1 + 3 * (200_000 - left),
            bus.log()[told.len() as int] == Access::Time(start),
            was_told(old(bus).log(), told, instance, method, success | error),
            mmio::quiet(told, bus.log()),
            left < 200_000 ==> mmio::tried(told, bus.log(), 0x40_9800) && mmio::last(
                bus.log(),
                0x40_9800,
            ) != u32::MAX && mmio::last(bus.log(), 0x40_9800) & error == 0 && mmio::last(
                bus.log(),
                0x40_9800,
            ) & success == 0,
            left == 200_000 ==> mmio::reads(bus.log(), 0x40_9800) == mmio::reads(told, 0x40_9800),
            mmio::memory_kept(old(bus).log(), bus.log()),
            mmio::begins(mmio::writes(bus.log()), mmio::writes(old(bus).log())),
        decreases left,
    {
        let value: u32 = bus.read(0x40_9800);
        if value == u32::MAX || value & error != 0 {
            return Err("FECS golden context method failed");
        }
        if value & success != 0 {
            return Ok(());
        }
        let now: u64 = bus.now_ns();
        if now >= deadline {
            return Err("GR firmware completion timeout");
        }
        bus.delay_us(10);
        left = left - 1;
    }
    Err("GR firmware completion timeout")
}

/// The attribute buffer, for the most attributes that some units can have.
pub open spec fn attribute_writes(units: u32) -> Seq<(usize, u32)> {
    seq![
        (0x41_8810, 0x8000_0200),
        (0x41_9848, 0x1000_0200),
        (0x41_9c2c, 0x1000_0200),
        (0x40_5830, 0x0400_0800),
        (0x40_64c4, 0x0200_ffff),
        (0x50_30c0, (0x400 * units) as u32),
        (0x50_30f4, 0),
        (0x50_30e4, (0x800 * units) as u32),
        (0x50_30f8, (0x600 * units) as u32),
        (0x41_8ea0, (0x400 * units / 3 * 0x1_0000 + 0x400 * units) as u32),
    ]
}

fn attributes<R: Timed>(bus: &mut Bus<'_, R>, units: u32)
    requires
        1 <= units <= 2,
    ensures
        final(bus).port() == old(bus).port(),
        mmio::memory_kept(old(bus).log(), final(bus).log()),
        mmio::writes(final(bus).log()) == mmio::writes(old(bus).log()) + attribute_writes(units),
        forall|o: usize|
            #![trigger mmio::reads(final(bus).log(), o)]
            mmio::reads(final(bus).log(), o) == mmio::reads(old(bus).log(), o),
{
    bus.write(0x41_8810, 0x8000_0000 + ATTRIB_VA / 4096);
    bus.write(0x41_9848, 0x1000_0000 + ATTRIB_VA / 4096);
    bus.write(0x41_9c2c, 0x1000_0000 + ATTRIB_VA / 4096);
    bus.write(0x40_5830, 0x0400_0800);
    bus.write(0x40_64c4, 0x0200_ffff);
    bus.write(0x50_30c0, 0x400 * units);
    bus.write(0x50_30f4, 0);
    bus.write(0x50_30e4, 0x800 * units);
    bus.write(0x50_30f8, 0x600 * units);
    bus.write(0x41_8ea0, 0x400 * units / 3 * 0x1_0000 + 0x400 * units);
    assert(mmio::writes(bus.log()) =~= mmio::writes(old(bus).log()) + attribute_writes(units));
}

/// The numbers of the units, and how many the cluster has.
pub open spec fn unit_writes(units: u32) -> Seq<(usize, u32)> {
    seq![(0x50_4698, 0), (0x50_0c10, 0), (0x50_4088, 0)] + (if units == 2 {
        seq![(0x50_4e98usize, 1u32), (0x50_0c14, 1), (0x50_4888, 1)]
    } else {
        seq![]
    }) + seq![
        (0x40_5870, units),
        (0x40_6028, units),
        (0x40_5874, 0),
        (0x40_602c, 0),
        (0x40_5878, 0),
        (0x40_6030, 0),
        (0x40_587c, 0),
        (0x40_6034, 0),
        (0x41_8bb8, (units * 0x100 + 1) as u32),
        (
            0x41_bfd0,
            (units * 0x100 + 1 + 0x10_0000 + 0x20_0000 * if units == 2 {
                3int
            } else {
                4
            }) as u32,
        ),
        (0x41_bfe4, 0),
        (0x40_78bc, (units * 0x100 + 1) as u32),
    ]
}

fn number_units<R: Timed>(bus: &mut Bus<'_, R>, units: u32)
    requires
        1 <= units <= 2,
    ensures
        final(bus).port() == old(bus).port(),
        mmio::memory_kept(old(bus).log(), final(bus).log()),
        mmio::writes(final(bus).log()) == mmio::writes(old(bus).log()) + unit_writes(units),
        forall|o: usize|
            #![trigger mmio::reads(final(bus).log(), o)]
            mmio::reads(final(bus).log(), o) == mmio::reads(old(bus).log(), o),
{
    bus.write(0x50_4698, 0);
    bus.write(0x50_0c10, 0);
    bus.write(0x50_4088, 0);
    if units == 2 {
        bus.write(0x50_4e98, 1);
        bus.write(0x50_0c14, 1);
        bus.write(0x50_4888, 1);
    }
    bus.write(0x40_5870, units);
    bus.write(0x40_6028, units);
    bus.write(0x40_5874, 0);
    bus.write(0x40_602c, 0);
    bus.write(0x40_5878, 0);
    bus.write(0x40_6030, 0);
    bus.write(0x40_587c, 0);
    bus.write(0x40_6034, 0);
    let row: u32 = units * 0x100 + 1;
    let shift: u32 = if units == 2 {
        3
    } else {
        4
    };
    bus.write(0x41_8bb8, row);
    bus.write(0x41_bfd0, row + 0x10_0000 + 0x20_0000 * shift);
    bus.write(0x41_bfe4, 0);
    bus.write(0x40_78bc, row);
    assert(mmio::writes(bus.log()) =~= mmio::writes(old(bus).log()) + unit_writes(units));
}

/// Which cluster each of thirty-two tiles belongs to, six tiles to a word and five
/// bits to a tile: zero for the tiles of the units, seven for the rest.
pub open spec fn tile_word(units: u32, index: int) -> u32 {
    if index == 0 {
        if units == 2 {
            0x0e73_9c00
        } else {
            0x0e73_9ce0
        }
    } else if index < 5 {
        0x0e73_9ce7
    } else {
        0xe7
    }
}

pub fn tiles(units: u32, index: usize) -> (r: u32)
    requires
        1 <= units <= 2,
        index < 6,
    ensures
        r == tile_word(units, index as int),
{
    if index == 0 {
        if units == 2 {
            0x0e73_9c00
        } else {
            0x0e73_9ce0
        }
    } else if index < 5 {
        0x0e73_9ce7
    } else {
        0xe7
    }
}

pub open spec fn tile_writes(units: u32) -> Seq<(usize, u32)> {
    Seq::new(
        18,
        |i: int|
            (
                (4 * (i / 3) + if i % 3 == 0 {
                    0x41_8b08int
                } else if i % 3 == 1 {
                    0x41_bf00
                } else {
                    0x40_780c
                }) as usize,
                tile_word(units, i / 3),
            ),
    ) + Seq::new(8, |i: int| ((0x40_64d0 + 4 * i) as usize, 0u32)) + seq![
        (0x40_5b00, (units * 0x100 + 1) as u32),
        (0x40_41c4, if units == 2 { 3u32 } else { 1 }),
        (0x40_5b60, if units == 2 { 0x100u32 } else { 0 }),
        (0x40_5ba0, if units == 2 { 0x100u32 } else { 0 }),
    ]
}

#[verifier::rlimit(60)]
fn spread_tiles<R: Timed>(bus: &mut Bus<'_, R>, units: u32)
    requires
        1 <= units <= 2,
    ensures
        final(bus).port() == old(bus).port(),
        mmio::memory_kept(old(bus).log(), final(bus).log()),
        mmio::writes(final(bus).log()) == mmio::writes(old(bus).log()) + tile_writes(units),
        forall|o: usize|
            #![trigger mmio::reads(final(bus).log(), o)]
            mmio::reads(final(bus).log(), o) == mmio::reads(old(bus).log(), o),
{
    let ghost start = mmio::writes(bus.log());
    let ghost whole = tile_writes(units);
    let mut i: usize = 0;
    while i < 6
        invariant
            bus.port() == old(bus).port(),
            i <= 6,
            1 <= units <= 2,
            whole == tile_writes(units),
            mmio::memory_kept(old(bus).log(), bus.log()),
            mmio::writes(bus.log()) =~= start + whole.take(3 * i),
            forall|o: usize|
                #![trigger mmio::reads(bus.log(), o)]
                mmio::reads(bus.log(), o) == mmio::reads(old(bus).log(), o),
        decreases 6 - i,
    {
        let value: u32 = tiles(units, i);
        bus.write(0x41_8b08 + 4 * i, value);
        bus.write(0x41_bf00 + 4 * i, value);
        bus.write(0x40_780c + 4 * i, value);
        assert(whole[3 * i] == ((0x41_8b08 + 4 * i) as usize, value));
        assert(whole[3 * i + 1] == ((0x41_bf00 + 4 * i) as usize, value));
        assert(whole[3 * i + 2] == ((0x40_780c + 4 * i) as usize, value));
        i = i + 1;
    }
    let mut k: usize = 0;
    while k < 8
        invariant
            bus.port() == old(bus).port(),
            k <= 8,
            whole == tile_writes(units),
            mmio::memory_kept(old(bus).log(), bus.log()),
            mmio::writes(bus.log()) =~= start + whole.take(18 + k),
            forall|o: usize|
                #![trigger mmio::reads(bus.log(), o)]
                mmio::reads(bus.log(), o) == mmio::reads(old(bus).log(), o),
        decreases 8 - k,
    {
        bus.write(0x40_64d0 + 4 * k, 0);
        assert(whole[18 + k] == ((0x40_64d0 + 4 * k) as usize, 0u32));
        k = k + 1;
    }
    bus.write(0x40_5b00, units * 0x100 + 1);
    let mut live: u32 = 1;
    let mut order: u32 = 0;
    if units == 2 {
        live = 3;
        order = 0x100;
    }
    bus.write(0x40_41c4, live);
    bus.write(0x40_5b60, order);
    bus.write(0x40_5ba0, order);
    assert(mmio::writes(bus.log()) =~= start + whole);
}

/// What is switched on while the units are set up: registers, and their bits.
pub open spec fn switch_table() -> Seq<(usize, u32)> {
    seq![
        (0x41_8c6c, 1),
        (0x41_980c, 0x10),
        (0x41_be08, 4),
        (0x40_64c0, 0x8000_0000),
        (0x40_5800, 0x0800_0000),
        (0x41_9c00, 8),
    ]
}

/// So many units were switched on, by what was read of each.
pub open spec fn switch_log(values: Seq<u32>) -> Seq<Access> {
    Seq::new(
        2 * values.len(),
        |i: int|
            {
                let (offset, bits) = switch_table()[i / 2];
                if i % 2 == 0 {
                    Access::Read(offset, values[i / 2])
                } else {
                    Access::Write(offset, (values[i / 2] & !bits) | bits)
                }
            },
    )
}

/// So many units were switched on.
pub open spec fn switch_begun(
    before: Seq<Access>,
    after: Seq<Access>,
    values: Seq<u32>,
    k: int,
) -> bool {
    &&& values.len() == k
    &&& forall|i: int| 0 <= i < k ==> #[trigger] values[i] != u32::MAX
    &&& after == before + switch_log(values)
}

/// The units were switched on.
pub open spec fn was_switched(before: Seq<Access>, after: Seq<Access>) -> bool {
    exists|values: Seq<u32>| #[trigger] switch_begun(before, after, values, 6)
}

/// A register to switch is not there.
pub open spec fn switch_failed(before: Seq<Access>, after: Seq<Access>, e: &'static str) -> bool {
    &&& mmio::extends(before, after)
    &&& exists|a: Seq<Access>, values: Seq<u32>, k: int|
        #[trigger] switch_begun(before, a, values, k) && 0 <= k < 6 && gr::mask_failed(
            a,
            after,
            switch_table()[k].0,
            e,
        )
}

/// One more unit was switched on.
proof fn lemma_switched(
    before: Seq<Access>,
    middle: Seq<Access>,
    after: Seq<Access>,
    values: Seq<u32>,
    k: int,
)
    requires
        0 <= k < 6,
        switch_begun(before, middle, values, k),
        gr::was_masked(
            middle,
            after,
            switch_table()[k].0,
            switch_table()[k].1,
            switch_table()[k].1,
        ),
    ensures
        switch_begun(
            before,
            after,
            values.push(mmio::last(after, switch_table()[k].0)),
            k + 1,
        ),
{
    let more = values.push(mmio::last(after, switch_table()[k].0));
    assert forall|i: int| 0 <= i < 2 * (k + 1) implies switch_log(more)[i] == (if i < 2 * k {
        switch_log(values)[i]
    } else {
        after[before.len() + i]
    }) by {
        if i < 2 * k {
            assert(i / 2 < k);
        } else {
            assert(i / 2 == k);
        }
    }
    assert(after =~= before + switch_log(more));
}

fn switch_on<R: Timed>(bus: &mut Bus<'_, R>) -> (r: Result<(), &'static str>)
    ensures
        final(bus).port() == old(bus).port(),
        mmio::memory_kept(old(bus).log(), final(bus).log()),
        mmio::begins(mmio::writes(final(bus).log()), mmio::writes(old(bus).log())),
        match r {
            Ok(_) => was_switched(old(bus).log(), final(bus).log()),
            Err(e) => switch_failed(old(bus).log(), final(bus).log(), e),
        },
        mmio::reads(final(bus).log(), 0x40_4154) == mmio::reads(old(bus).log(), 0x40_4154),
{
    let ghost o = bus.log();
    let ghost mut values = Seq::<u32>::empty();
    assert(o =~= o + switch_log(values));
    assert(switch_begun(o, bus.log(), values, 0));
    let ghost a = bus.log();
    mask(bus, 0x41_8c6c, 1, 1)?;
    proof {
        lemma_switched(o, a, bus.log(), values, 0);
        values = values.push(mmio::last(bus.log(), 0x41_8c6c));
    }
    let ghost a = bus.log();
    mask(bus, 0x41_980c, 0x10, 0x10)?;
    proof {
        lemma_switched(o, a, bus.log(), values, 1);
        values = values.push(mmio::last(bus.log(), 0x41_980c));
    }
    let ghost a = bus.log();
    mask(bus, 0x41_be08, 4, 4)?;
    proof {
        lemma_switched(o, a, bus.log(), values, 2);
        values = values.push(mmio::last(bus.log(), 0x41_be08));
    }
    let ghost a = bus.log();
    mask(bus, 0x40_64c0, 0x8000_0000, 0x8000_0000)?;
    proof {
        lemma_switched(o, a, bus.log(), values, 3);
        values = values.push(mmio::last(bus.log(), 0x40_64c0));
    }
    let ghost a = bus.log();
    mask(bus, 0x40_5800, 0x0800_0000, 0x0800_0000)?;
    proof {
        lemma_switched(o, a, bus.log(), values, 4);
        values = values.push(mmio::last(bus.log(), 0x40_5800));
    }
    let ghost a = bus.log();
    mask(bus, 0x41_9c00, 8, 8)?;
    proof {
        lemma_switched(o, a, bus.log(), values, 5);
    }
    Ok(())
}

/// The units were switched on, numbered and spread, behind their attributes.
pub open spec fn units_set(
    before: Seq<Access>,
    a: Seq<Access>,
    b: Seq<Access>,
    after: Seq<Access>,
    units: u32,
) -> bool {
    &&& mmio::only_wrote(before, a, attribute_writes(units))
    &&& was_switched(a, b)
    &&& mmio::only_wrote(b, after, unit_writes(units) + tile_writes(units))
}

/// The active configuration was read, and written with its mark.
pub open spec fn marked(before: Seq<Access>, active: u32) -> Seq<Access> {
    before.push(Access::Read(0x41_0108, active)).push(
        Access::Write(0x40_8908, active | 0x8000_0000),
    )
}

/// The units were set up, and the active configuration was marked.
pub open spec fn units_marked(before: Seq<Access>, after: Seq<Access>, units: u32) -> bool {
    exists|a: Seq<Access>, b: Seq<Access>, c: Seq<Access>, active: u32|
        #[trigger] units_set(before, a, b, c, units) && after == #[trigger] marked(c, active)
            && active != u32::MAX
}

/// The units were set up, and graphics rests.
pub open spec fn was_swept(before: Seq<Access>, after: Seq<Access>, units: u32) -> bool {
    exists|d: Seq<Access>| #[trigger] units_marked(before, d, units) && was_seen_idle(d, after)
}

/// The units were not set up: one is not there, the configuration is unknown, or graphics
/// does not rest.
pub open spec fn sweep_failed(
    before: Seq<Access>,
    after: Seq<Access>,
    units: u32,
    e: &'static str,
) -> bool {
    &&& mmio::extends(before, after)
    &&& {
        ||| exists|a: Seq<Access>|
            #[trigger] mmio::only_wrote(before, a, attribute_writes(units)) && switch_failed(
                a,
                after,
                e,
            )
        ||| exists|a: Seq<Access>, b: Seq<Access>, c: Seq<Access>|
            #[trigger] units_set(before, a, b, c, units) && e
                == "GR active configuration unreadable" && mmio::was_unreadable(c, after, 0x41_0108)
        ||| exists|d: Seq<Access>|
            #[trigger] units_marked(before, d, units) && idle_failed(d, after, e)
    }
}

/// Sets the units up.
fn sweep<R: Timed>(bus: &mut Bus<'_, R>, units: u32) -> (r: Result<(), &'static str>)
    requires
        1 <= units <= 2,
    ensures
        final(bus).port() == old(bus).port(),
        mmio::memory_kept(old(bus).log(), final(bus).log()),
        mmio::begins(mmio::writes(final(bus).log()), mmio::writes(old(bus).log())),
        match r {
            Ok(_) => was_swept(old(bus).log(), final(bus).log(), units),
            Err(e) => sweep_failed(old(bus).log(), final(bus).log(), units, e),
        },
        mmio::reads(final(bus).log(), 0x40_4154) == mmio::reads(old(bus).log(), 0x40_4154),
{
    attributes(bus, units);
    let ghost a = bus.log();
    assert(mmio::only_wrote(old(bus).log(), a, attribute_writes(units)));
    switch_on(bus)?;
    let ghost b = bus.log();
    number_units(bus, units);
    spread_tiles(bus, units);
    let ghost c = bus.log();
    assert(mmio::writes(c) =~= mmio::writes(b) + (unit_writes(units) + tile_writes(units)));
    assert(units_set(old(bus).log(), a, b, c, units));
    let active: u32 = bus.read(0x41_0108);
    if active == u32::MAX {
        return Err("GR active configuration unreadable");
    }
    bus.write(0x40_8908, active | 0x8000_0000);
    assert(bus.log() == marked(c, active));
    assert(units_marked(old(bus).log(), bus.log(), units));
    idle(bus)?;
    Ok(())
}

/// The idle timeout was read, and turned off.
pub open spec fn timeout_off(before: Seq<Access>, timeout: u32) -> Seq<Access> {
    before.push(Access::Read(0x40_4154, timeout)).push(Access::Write(0x40_4154, 0))
}

/// The units were set up with the idle timeout off, and it is on again.
pub open spec fn was_arranged(before: Seq<Access>, after: Seq<Access>, units: u32) -> bool {
    exists|b: Seq<Access>, timeout: u32|
        {
            &&& timeout != u32::MAX
            &&& #[trigger] was_swept(#[trigger] timeout_off(before, timeout), b, units)
            &&& after == b.push(Access::Write(0x40_4154, timeout))
        }
}

/// The units were not set up, and the idle timeout is on again; or it is not there.
pub open spec fn arrange_failed(
    before: Seq<Access>,
    after: Seq<Access>,
    units: u32,
    e: &'static str,
) -> bool {
    &&& mmio::extends(before, after)
    &&& {
        ||| e == "GR idle timeout register unreadable" && mmio::was_unreadable(before, after, 0x40_4154)
        ||| exists|b: Seq<Access>, timeout: u32|
            {
                &&& timeout != u32::MAX
                &&& #[trigger] sweep_failed(#[trigger] timeout_off(before, timeout), b, units, e)
                &&& after == b.push(Access::Write(0x40_4154, timeout))
            }
    }
}

/// Sets the units up with the idle timeout off. It is on again whatever happens.
fn arrange<R: Timed>(bus: &mut Bus<'_, R>, units: u32) -> (r: Result<(), &'static str>)
    requires
        1 <= units <= 2,
    ensures
        final(bus).port() == old(bus).port(),
        mmio::memory_kept(old(bus).log(), final(bus).log()),
        mmio::begins(mmio::writes(final(bus).log()), mmio::writes(old(bus).log())),
        match r {
            Ok(_) => was_arranged(old(bus).log(), final(bus).log(), units),
            Err(e) => arrange_failed(old(bus).log(), final(bus).log(), units, e),
        },
        if mmio::last(final(bus).log(), 0x40_4154) == u32::MAX {
            r is Err && mmio::writes(final(bus).log()) == mmio::writes(old(bus).log())
        } else {
            mmio::writes(final(bus).log()).last() == (
                0x40_4154usize,
                mmio::last(final(bus).log(), 0x40_4154),
            )
        },
{
    let timeout: u32 = bus.read(0x40_4154);
    if timeout == u32::MAX {
        return Err("GR idle timeout register unreadable");
    }
    bus.write(0x40_4154, 0);
    let ghost a = bus.log();
    assert(a == timeout_off(old(bus).log(), timeout));
    let result = sweep(bus, units);
    let ghost b = bus.log();
    bus.write(0x40_4154, timeout);
    result?;
    assert(was_swept(a, b, units));
    Ok(())
}

/// Graphics was asked, and reports this.
pub open spec fn dispatch_read(before: Seq<Access>, dispatch: u32) -> Seq<Access> {
    before.push(Access::Read(0x40_4000, dispatch))
}

/// Graphics was asked, and reports no fault.
pub open spec fn was_fine(before: Seq<Access>, after: Seq<Access>) -> bool {
    exists|dispatch: u32|
        after == #[trigger] dispatch_read(before, dispatch) && dispatch % 0x4000_0000 == 0
}

/// Graphics reports a fault.
pub open spec fn dispatch_failed(before: Seq<Access>, after: Seq<Access>, e: &'static str) -> bool {
    &&& e == "golden context dispatch fault"
    &&& exists|dispatch: u32|
        after == #[trigger] dispatch_read(before, dispatch) && dispatch % 0x4000_0000 != 0
}

/// Graphics reports no fault.
fn check_dispatch<R: Timed>(bus: &mut Bus<'_, R>) -> (r: Result<(), &'static str>)
    ensures
        final(bus).port() == old(bus).port(),
        mmio::quiet(old(bus).log(), final(bus).log()),
        r is Ok ==> was_fine(old(bus).log(), final(bus).log()),
        r matches Err(e) ==> dispatch_failed(old(bus).log(), final(bus).log(), e),
        forall|o: usize|
            #![trigger mmio::reads(final(bus).log(), o)]
            o != 0x40_4000 ==> mmio::reads(final(bus).log(), o) == mmio::reads(old(bus).log(), o),
        r == if mmio::last(final(bus).log(), 0x40_4000) % 0x4000_0000 != 0 {
            Err::<(), &'static str>("golden context dispatch fault")
        } else {
            Ok(())
        },
{
    let dispatch: u32 = bus.read(0x40_4000);
    assert(bus.log() == dispatch_read(old(bus).log(), dispatch));
    if dispatch % 0x4000_0000 != 0 {
        return Err("golden context dispatch fault");
    }
    Ok(())
}

/// Whether a method is one of a class that the context starts with.
pub open spec fn method_ok(table: Seq<u8>, k: int) -> bool {
    let address = firmware::at(table, 8 * k);
    (address % 0x1_0000 == 0x902d || address % 0x1_0000 == 0xb197) && address < 0x8000_0000
}

pub open spec fn method_writes(table: Seq<u8>) -> Seq<(usize, u32)> {
    Seq::new(
        2 * (table.len() / 8),
        |i: int|
            if i % 2 == 0 {
                (0x40_448cusize, firmware::at(table, 8 * (i / 2) + 4))
            } else {
                (0x40_4488usize, (0x8000_0000 + firmware::at(table, 8 * (i / 2))) as u32)
            },
    )
}

/// A method is of no class that the context starts with, and the table was written up to it.
pub open spec fn methods_failed(
    before: Seq<Access>,
    after: Seq<Access>,
    table: Seq<u8>,
    e: &'static str,
) -> bool {
    &&& mmio::memory_kept(before, after)
    &&& e == "golden method table contains unsupported class or address"
    &&& exists|k: int|
        0 <= k < table.len() / 8 && !#[trigger] method_ok(table, k) && mmio::writes(after)
            == mmio::writes(before) + method_writes(table).take(2 * k)
}

/// Writes the methods that every context starts with.
pub fn methods<R: Timed>(bus: &mut Bus<'_, R>, table: &Vec<u8>) -> (r: Result<(), &'static str>)
    requires
        table@.len() <= 0x10_0000,
    ensures
        final(bus).port() == old(bus).port(),
        mmio::memory_kept(old(bus).log(), final(bus).log()),
        match r {
            Ok(_) => mmio::writes(final(bus).log()) == mmio::writes(old(bus).log())
                + method_writes(table@) && forall|j: int|
                0 <= j < table@.len() / 8 ==> #[trigger] method_ok(table@, j),
            Err(e) => methods_failed(old(bus).log(), final(bus).log(), table@, e),
        },
{
    let count: usize = table.len() / 8;
    let ghost whole = method_writes(table@);
    let ghost start = mmio::writes(bus.log());
    let mut k: usize = 0;
    while k < count
        invariant
            bus.port() == old(bus).port(),
            k <= count,
            count == table@.len() / 8,
            table@.len() <= 0x10_0000,
            whole == method_writes(table@),
            start == mmio::writes(old(bus).log()),
            mmio::memory_kept(old(bus).log(), bus.log()),
            mmio::writes(bus.log()) =~= start + whole.take(2 * k),
            forall|j: int| 0 <= j < k ==> #[trigger] method_ok(table@, j),
        decreases count - k,
    {
        let address: u32 = firmware::word(table.as_slice(), 8 * k)?;
        let class: u32 = address % 0x1_0000;
        if (class != 0x902d && class != 0xb197) || address >= 0x8000_0000 {
            assert(!method_ok(table@, k as int));
            return Err("golden method table contains unsupported class or address");
        }
        let value: u32 = firmware::word(table.as_slice(), 8 * k + 4)?;
        bus.write(0x40_448c, value);
        bus.write(0x40_4488, 0x8000_0000 + address);
        assert(whole[2 * k] == (0x40_448cusize, value));
        assert(whole[2 * k + 1] == (0x40_4488usize, (0x8000_0000 + address) as u32));
        assert(method_ok(table@, k as int));
        k = k + 1;
    }
    assert(whole.take(2 * count) =~= whole);
    Ok(())
}

/// One bundle was sent.
pub open spec fn bundle_sent(before: Seq<Access>, table: Seq<u8>, k: int) -> Seq<Access> {
    before.push(Access::Write(0x40_0204, firmware::at(table, 8 * k + 4))).push(
        Access::Write(0x40_0200, firmware::at(table, 8 * k)),
    )
}

/// One bundle was sent, and graphics rests where the bundle needs it.
pub open spec fn bundle_rested(
    before: Seq<Access>,
    after: Seq<Access>,
    table: Seq<u8>,
    k: int,
) -> bool {
    if firmware::at(table, 8 * k) % 0x1_0000 == 0xe100 {
        was_seen_idle(bundle_sent(before, table, k), after)
    } else {
        after == bundle_sent(before, table, k)
    }
}

/// One bundle was taken, and graphics reports no fault.
pub open spec fn bundle_taken(
    before: Seq<Access>,
    after: Seq<Access>,
    table: Seq<u8>,
    k: int,
) -> bool {
    exists|rested: Seq<Access>, free: Seq<Access>|
        {
            &&& #[trigger] bundle_rested(before, rested, table, k)
            &&& #[trigger] gr::awaited(rested, free, 0x40_0700, Ready::Clear(4))
            &&& was_fine(free, after)
        }
}

/// So many bundles were taken, one after the other.
pub open spec fn bundles_taken(
    before: Seq<Access>,
    after: Seq<Access>,
    table: Seq<u8>,
    k: int,
) -> bool
    decreases k,
{
    if k <= 0 {
        after == before
    } else {
        exists|a: Seq<Access>|
            bundles_taken(before, a, table, k - 1) && #[trigger] bundle_taken(
                a,
                after,
                table,
                k - 1,
            )
    }
}

/// One bundle was not taken: graphics does not rest where the bundle needs it, the bundle
/// stays, or graphics reports a fault.
pub open spec fn bundle_stuck(
    before: Seq<Access>,
    after: Seq<Access>,
    table: Seq<u8>,
    k: int,
    e: &'static str,
) -> bool {
    ||| firmware::at(table, 8 * k) % 0x1_0000 == 0xe100 && idle_failed(
        bundle_sent(before, table, k),
        after,
        e,
    )
    ||| exists|rested: Seq<Access>|
        #[trigger] bundle_rested(before, rested, table, k) && gr::wait_failed(
            rested,
            after,
            0x40_0700,
            Ready::Clear(4),
            e,
        )
    ||| exists|rested: Seq<Access>, free: Seq<Access>|
        {
            &&& #[trigger] bundle_rested(before, rested, table, k)
            &&& #[trigger] gr::awaited(rested, free, 0x40_0700, Ready::Clear(4))
            &&& dispatch_failed(free, after, e)
        }
}

/// A bundle was not taken, behind others that were.
pub open spec fn bundle_failed(
    before: Seq<Access>,
    after: Seq<Access>,
    table: Seq<u8>,
    e: &'static str,
) -> bool {
    &&& mmio::extends(before, after)
    &&& exists|a: Seq<Access>, k: int|
        {
            &&& 0 <= k < table.len() / 8
            &&& #[trigger] bundles_taken(before, a, table, k)
            &&& bundle_stuck(a, after, table, k, e)
        }
}

#[verifier::rlimit(60)]
fn bundle_loop<R: Timed>(bus: &mut Bus<'_, R>, table: &Vec<u8>) -> (r: Result<(), &'static str>)
    requires
        table@.len() <= 0x10_0000,
    ensures
        final(bus).port() == old(bus).port(),
        mmio::memory_kept(old(bus).log(), final(bus).log()),
        mmio::begins(mmio::writes(final(bus).log()), mmio::writes(old(bus).log())),
        match r {
            Ok(_) => bundles_taken(
                old(bus).log(),
                final(bus).log(),
                table@,
                table@.len() as int / 8,
            ),
            Err(e) => bundle_failed(old(bus).log(), final(bus).log(), table@, e),
        },
{
    let count: usize = table.len() / 8;
    let mut k: usize = 0;
    while k < count
        invariant
            bus.port() == old(bus).port(),
            k <= count,
            count == table@.len() / 8,
            table@.len() <= 0x10_0000,
            mmio::memory_kept(old(bus).log(), bus.log()),
            mmio::begins(mmio::writes(bus.log()), mmio::writes(old(bus).log())),
            bundles_taken(old(bus).log(), bus.log(), table@, k as int),
        decreases count - k,
    {
        let ghost a = bus.log();
        let address: u32 = firmware::word(table.as_slice(), 8 * k)?;
        let value: u32 = firmware::word(table.as_slice(), 8 * k + 4)?;
        bus.write(0x40_0204, value);
        bus.write(0x40_0200, address);
        assert(bus.log() == bundle_sent(a, table@, k as int));
        if address % 0x1_0000 == 0xe100 {
            match idle(bus) {
                Ok(_) => {},
                Err(e) => {
                    assert(bundle_stuck(a, bus.log(), table@, k as int, e));
                    return Err(e);
                },
            }
        }
        let ghost rested = bus.log();
        assert(bundle_rested(a, rested, table@, k as int));
        match wait_reg(bus, 0x40_0700, Ready::Clear(4)) {
            Ok(_) => {},
            Err(e) => {
                assert(bundle_stuck(a, bus.log(), table@, k as int, e));
                return Err(e);
            },
        }
        let ghost free = bus.log();
        assert(gr::awaited(rested, free, 0x40_0700, Ready::Clear(4)));
        match check_dispatch(bus) {
            Ok(_) => {},
            Err(e) => {
                assert(bundle_stuck(a, bus.log(), table@, k as int, e));
                return Err(e);
            },
        }
        assert(bundle_taken(a, bus.log(), table@, k as int));
        k = k + 1;
        assert(bundle_taken(a, bus.log(), table@, k as int - 1));
    }
    Ok(())
}

/// The bundles were sent in the mode for them, which was left.
pub open spec fn was_bundled(before: Seq<Access>, after: Seq<Access>, table: Seq<u8>) -> bool {
    exists|a: Seq<Access>|
        {
            &&& #[trigger] bundles_taken(
                before.push(Access::Write(0x40_0208, 0x8000_0000)),
                a,
                table,
                table.len() as int / 8,
            )
            &&& after == a.push(Access::Write(0x40_0208, 0))
        }
}

/// The bundles were not all taken, and the mode for them was left.
pub open spec fn bundles_failed(
    before: Seq<Access>,
    after: Seq<Access>,
    table: Seq<u8>,
    e: &'static str,
) -> bool {
    exists|a: Seq<Access>|
        {
            &&& #[trigger] bundle_failed(
                before.push(Access::Write(0x40_0208, 0x8000_0000)),
                a,
                table,
                e,
            )
            &&& after == a.push(Access::Write(0x40_0208, 0))
        }
}

/// Sends the bundles that every context starts with, in the mode for them. The mode
/// is left whatever happens.
fn bundles<R: Timed>(bus: &mut Bus<'_, R>, table: &Vec<u8>) -> (r: Result<(), &'static str>)
    requires
        table@.len() <= 0x10_0000,
    ensures
        final(bus).port() == old(bus).port(),
        mmio::memory_kept(old(bus).log(), final(bus).log()),
        mmio::begins(mmio::writes(final(bus).log()), mmio::writes(old(bus).log())),
        mmio::writes(final(bus).log()).last() == (0x40_0208usize, 0u32),
        match r {
            Ok(_) => was_bundled(old(bus).log(), final(bus).log(), table@),
            Err(e) => bundles_failed(old(bus).log(), final(bus).log(), table@, e),
        },
{
    bus.write(0x40_0208, 0x8000_0000);
    let ghost on = bus.log();
    let result = bundle_loop(bus, table);
    let ghost a = bus.log();
    bus.write(0x40_0208, 0);
    proof {
        match result {
            Ok(_) => assert(bundles_taken(on, a, table@, table@.len() as int / 8)),
            Err(e) => assert(bundle_failed(on, a, table@, e)),
        }
    }
    result
}

/// Where the page pool and the bundle buffer are.
pub open spec fn pool_writes() -> Seq<(usize, u32)> {
    seq![
        (0x40_800c, 0x2500),
        (0x40_8010, 0x8000_0000),
        (0x41_9004, 0x2500),
        (0x41_9008, 0),
        (0x40_64cc, 0x8000_0000),
        (0x41_8e30, 0x8000_0000),
        (0x40_8004, 0x2600),
        (0x40_8008, 0x8000_0018),
        (0x41_8e24, 0x2600),
        (0x41_8e28, 0x8000_0018),
        (0x40_64c8, 0xc0_01c0),
    ]
}

fn pools<R: Timed>(bus: &mut Bus<'_, R>)
    ensures
        final(bus).port() == old(bus).port(),
        mmio::memory_kept(old(bus).log(), final(bus).log()),
        mmio::writes(final(bus).log()) == mmio::writes(old(bus).log()) + pool_writes(),
{
    bus.write(0x40_800c, PAGEPOOL_VA / 256);
    bus.write(0x40_8010, 0x8000_0000);
    bus.write(0x41_9004, PAGEPOOL_VA / 256);
    bus.write(0x41_9008, 0);
    bus.write(0x40_64cc, 0x8000_0000);
    bus.write(0x41_8e30, 0x8000_0000);
    bus.write(0x40_8004, BUNDLE_VA / 256);
    bus.write(0x40_8008, 0x8000_0018);
    bus.write(0x41_8e24, BUNDLE_VA / 256);
    bus.write(0x41_8e28, 0x8000_0018);
    bus.write(0x40_64c8, 0xc0_01c0);
    assert(mmio::writes(bus.log()) =~= mmio::writes(old(bus).log()) + pool_writes());
}

/// One cluster with one or two units, each with its own rasteriser.
pub open spec fn units_spec(clusters: u32, units: u32, rasterisers: u32) -> Option<u32> {
    let count = units % 256;
    if clusters % 32 != 1 || count < 1 || count > 2 || rasterisers > 3 || rasterisers % 2
        + rasterisers / 2 != count {
        None
    } else {
        Some(count)
    }
}

/// How many units there are; nothing where the arrangement is not known.
pub fn units_of(clusters: u32, units: u32, rasterisers: u32) -> (r: Option<u32>)
    ensures
        r == units_spec(clusters, units, rasterisers),
        r matches Some(count) ==> 1 <= count <= 2,
{
    let count: u32 = units % 256;
    if clusters % 32 != 1 || count < 1 || count > 2 || rasterisers > 3 || rasterisers % 2
        + rasterisers / 2 != count {
        None
    } else {
        Some(count)
    }
}

/// The firmware's registers were written.
pub open spec fn was_listed(before: Seq<Access>, after: Seq<Access>, firmware: Firmware) -> bool {
    &&& gr::table_ok(firmware.context@, 12)
    &&& mmio::only_wrote(before, after, gr::table_writes(firmware.context@, 12, 8))
}

/// The firmware's table names a register elsewhere, and was written up to there.
pub open spec fn list_failed(
    before: Seq<Access>,
    after: Seq<Access>,
    firmware: Firmware,
    e: &'static str,
) -> bool {
    &&& mmio::memory_kept(before, after)
    &&& e == "golden context register outside GR aperture"
    &&& exists|k: int|
        #[trigger] gr::first_bad(firmware.context@, 12, k) && mmio::writes(after) == mmio::writes(
            before,
        ) + gr::table_writes(firmware.context@, 12, 8).take(k)
}

/// Graphics was seen to rest, and reports no fault.
pub open spec fn was_settled(before: Seq<Access>, after: Seq<Access>) -> bool {
    exists|rested: Seq<Access>| #[trigger] was_seen_idle(before, rested) && was_fine(rested, after)
}

/// Graphics does not rest, or reports a fault.
pub open spec fn unsettled(before: Seq<Access>, after: Seq<Access>, e: &'static str) -> bool {
    &&& mmio::extends(before, after)
    &&& {
        ||| idle_failed(before, after, e)
        ||| exists|rested: Seq<Access>|
            #[trigger] was_seen_idle(before, rested) && dispatch_failed(rested, after, e)
    }
}

/// Waits until graphics rests, and asks it for faults.
fn settle<R: Timed>(bus: &mut Bus<'_, R>) -> (r: Result<(), &'static str>)
    ensures
        final(bus).port() == old(bus).port(),
        mmio::quiet(old(bus).log(), final(bus).log()),
        match r {
            Ok(_) => was_settled(old(bus).log(), final(bus).log()),
            Err(e) => unsettled(old(bus).log(), final(bus).log(), e),
        },
{
    idle(bus)?;
    let ghost rested = bus.log();
    assert(was_seen_idle(old(bus).log(), rested));
    check_dispatch(bus)
}

/// The methods were written.
pub open spec fn was_initiated(before: Seq<Access>, after: Seq<Access>, table: Seq<u8>) -> bool {
    mmio::only_wrote(before, after, method_writes(table))
}

/// The arrangement of the units was read.
pub open spec fn counted(
    before: Seq<Access>,
    clusters: u32,
    present: u32,
    rasterisers: u32,
) -> Seq<Access> {
    before.push(Access::Read(0x40_9604, clusters)).push(Access::Read(0x50_2608, present)).push(
        Access::Read(0x50_0c30, rasterisers),
    )
}

/// The places of a making: the firmware's registers, the units and the methods, each with
/// graphics at rest behind it, and the bundles.
pub struct Making {
    pub counted: Seq<Access>,
    pub listed: Seq<Access>,
    pub first: Seq<Access>,
    pub arranged: Seq<Access>,
    pub second: Seq<Access>,
    pub initiated: Seq<Access>,
    pub third: Seq<Access>,
    pub bundled: Seq<Access>,
}

/// So many steps of a making were over.
pub open spec fn making(
    before: Seq<Access>,
    m: Making,
    firmware: Firmware,
    units: u32,
    n: int,
) -> bool {
    &&& exists|clusters: u32, present: u32, rasterisers: u32|
        m.counted == #[trigger] counted(before, clusters, present, rasterisers) && units_spec(
            clusters,
            present,
            rasterisers,
        ) == Some(units)
    &&& n > 0 ==> was_listed(m.counted, m.listed, firmware)
    &&& n > 1 ==> was_settled(m.listed, m.first)
    &&& n > 2 ==> was_arranged(m.first, m.arranged, units)
    &&& n > 3 ==> was_settled(m.arranged, m.second)
    &&& n > 4 ==> was_initiated(m.second, m.initiated, firmware.methods@)
    &&& n > 5 ==> was_settled(m.initiated, m.third)
    &&& n > 6 ==> was_bundled(m.third, m.bundled, firmware.bundle@)
}

/// The state of the golden context was written: the firmware's registers, the units,
/// the methods, the bundles and the pools, in this order.
pub open spec fn was_made(
    before: Seq<Access>,
    after: Seq<Access>,
    firmware: Firmware,
    units: u32,
) -> bool {
    &&& mmio::memory_kept(before, after)
    &&& exists|m: Making| #[trigger]
        making(before, m, firmware, units, 7) && mmio::only_wrote(m.bundled, after, pool_writes())
}

/// What was wrong behind so many steps of a making.
pub open spec fn making_stopped(
    m: Making,
    after: Seq<Access>,
    firmware: Firmware,
    units: u32,
    n: int,
    e: &'static str,
) -> bool {
    ||| n == 0 && list_failed(m.counted, after, firmware, e)
    ||| n == 1 && unsettled(m.listed, after, e)
    ||| n == 2 && arrange_failed(m.first, after, units, e)
    ||| n == 3 && unsettled(m.arranged, after, e)
    ||| n == 4 && methods_failed(m.second, after, firmware.methods@, e)
    ||| n == 5 && unsettled(m.initiated, after, e)
    ||| n == 6 && bundles_failed(m.third, after, firmware.bundle@, e)
}

/// The state of the golden context was not written: where it stopped, and why.
pub open spec fn main_failed(
    before: Seq<Access>,
    after: Seq<Access>,
    firmware: Firmware,
    e: &'static str,
) -> bool {
    &&& mmio::extends(before, after)
    &&& {
        ||| e == "golden context unsupported GM20B topology" && exists|
            clusters: u32,
            present: u32,
            rasterisers: u32,
        |
            after == #[trigger] counted(before, clusters, present, rasterisers) && units_spec(
                clusters,
                present,
                rasterisers,
            ) is None
        ||| exists|m: Making, units: u32, n: int|
            {
                &&& 1 <= units <= 2
                &&& #[trigger] making(before, m, firmware, units, n)
                &&& making_stopped(m, after, firmware, units, n, e)
            }
    }
}

/// Writes the state of the golden context.
#[verifier::rlimit(100)]
fn main<R: Timed>(bus: &mut Bus<'_, R>, firmware: &Firmware) -> (r: Result<(), &'static str>)
    requires
        firmware.wf(),
    ensures
        final(bus).port() == old(bus).port(),
        mmio::memory_kept(old(bus).log(), final(bus).log()),
        mmio::begins(mmio::writes(final(bus).log()), mmio::writes(old(bus).log())),
        r matches Err(e) ==> main_failed(old(bus).log(), final(bus).log(), *firmware, e),
        r is Ok ==> exists|units: u32| #[trigger]
            was_made(old(bus).log(), final(bus).log(), *firmware, units) && 1 <= units <= 2,
        !gr::table_ok(firmware.context@, 12) ==> r is Err,
{
    let clusters: u32 = bus.read(0x40_9604);
    let present: u32 = bus.read(0x50_2608);
    let rasterisers: u32 = bus.read(0x50_0c30);
    let ghost o = old(bus).log();
    let ghost f = *firmware;
    assert(bus.log() == counted(o, clusters, present, rasterisers));
    let units: u32 = match units_of(clusters, present, rasterisers) {
        None => {
            return Err("golden context unsupported GM20B topology");
        },
        Some(units) => units,
    };
    let ghost mut m = Making {
        counted: bus.log(),
        listed: o,
        first: o,
        arranged: o,
        second: o,
        initiated: o,
        third: o,
        bundled: o,
    };
    assert(making(o, m, f, units, 0));
    match write_table(
        bus,
        &firmware.context,
        12,
        8,
        "golden context register outside GR aperture",
    ) {
        Ok(_) => {},
        Err(e) => {
            assert(list_failed(m.counted, bus.log(), f, e));
            assert(making_stopped(m, bus.log(), f, units, 0, e));
            return Err(e);
        },
    }
    proof {
        m = Making { listed: bus.log(), ..m };
        assert(making(o, m, f, units, 1));
    }
    match settle(bus) {
        Ok(_) => {},
        Err(e) => {
            assert(making_stopped(m, bus.log(), f, units, 1, e));
            return Err(e);
        },
    }
    proof {
        m = Making { first: bus.log(), ..m };
        assert(making(o, m, f, units, 2));
    }
    match arrange(bus, units) {
        Ok(_) => {},
        Err(e) => {
            assert(making_stopped(m, bus.log(), f, units, 2, e));
            return Err(e);
        },
    }
    proof {
        m = Making { arranged: bus.log(), ..m };
        assert(making(o, m, f, units, 3));
    }
    match settle(bus) {
        Ok(_) => {},
        Err(e) => {
            assert(making_stopped(m, bus.log(), f, units, 3, e));
            return Err(e);
        },
    }
    proof {
        m = Making { second: bus.log(), ..m };
        assert(making(o, m, f, units, 4));
    }
    match methods(bus, &firmware.methods) {
        Ok(_) => {},
        Err(e) => {
            assert(making_stopped(m, bus.log(), f, units, 4, e));
            return Err(e);
        },
    }
    proof {
        m = Making { initiated: bus.log(), ..m };
        assert(making(o, m, f, units, 5));
    }
    match settle(bus) {
        Ok(_) => {},
        Err(e) => {
            assert(making_stopped(m, bus.log(), f, units, 5, e));
            return Err(e);
        },
    }
    proof {
        m = Making { third: bus.log(), ..m };
        assert(making(o, m, f, units, 6));
    }
    match bundles(bus, &firmware.bundle) {
        Ok(_) => {},
        Err(e) => {
            assert(making_stopped(m, bus.log(), f, units, 6, e));
            return Err(e);
        },
    }
    proof {
        m = Making { bundled: bus.log(), ..m };
        assert(making(o, m, f, units, 7));
    }
    pools(bus);
    assert(was_made(o, bus.log(), f, units));
    Ok(())
}

/// A checksum over words.
pub open spec fn checksum_spec(values: Seq<u32>) -> u32
    decreases values.len(),
{
    if values.len() == 0 {
        0x811c_9dc5
    } else {
        ((checksum_spec(values.drop_last()) ^ values.last()) as int * 0x0100_0193
            % 0x1_0000_0000) as u32
    }
}

/// The words of the saved context were read.
pub open spec fn saved_log(words: Seq<u32>) -> Seq<Access> {
    Seq::new(words.len(), |i: int| Access::Load(IMAGE, (SAVED + i) as usize, words[i]))
}

/// Whether all words are zero.
pub open spec fn all_zero(words: Seq<u32>) -> bool {
    forall|i: int| 0 <= i < words.len() ==> #[trigger] words[i] == 0
}

/// Reads the saved context: its checksum, where it is not empty.
#[verifier::rlimit(60)]
fn checksum<R: Dma>(bus: &mut Bus<'_, R>, count: usize) -> (r: Option<u32>)
    requires
        count <= 0x4_0000,
    ensures
        final(bus).port() == old(bus).port(),
        mmio::writes(final(bus).log()) == mmio::writes(old(bus).log()),
        mmio::stores(final(bus).log()) == mmio::stores(old(bus).log()),
        mmio::extends(old(bus).log(), final(bus).log()),
        exists|words: Seq<u32>|
            {
                &&& words.len() == count
                &&& final(bus).log() == old(bus).log() + #[trigger] saved_log(words)
                &&& r == if all_zero(words) {
                    None
                } else {
                    Some(checksum_spec(words))
                }
            },
{
    let mut sum: u32 = 0x811c_9dc5;
    let mut found: bool = false;
    let mut i: usize = 0;
    let ghost mut words = Seq::<u32>::empty();
    while i < count
        invariant
            bus.port() == old(bus).port(),
            i <= count,
            count <= 0x4_0000,
            mmio::writes(bus.log()) == mmio::writes(old(bus).log()),
            mmio::stores(bus.log()) == mmio::stores(old(bus).log()),
            mmio::extends(old(bus).log(), bus.log()),
            words.len() == i,
            bus.log() =~= old(bus).log() + saved_log(words),
            sum == checksum_spec(words),
            found == !all_zero(words),
        decreases count - i,
    {
        let value: u32 = bus.load(IMAGE, SAVED + i);
        proof {
            let before = words;
            words = words.push(value);
            assert(words.drop_last() =~= before);
            assert(words[i as int] == value);
            if found {
                let j = choose|j: int| 0 <= j < before.len() && before[j] != 0;
                assert(words[j] != 0);
            }
        }
        if value != 0 {
            found = true;
        }
        sum = (sum ^ value).wrapping_mul(0x0100_0193);
        i = i + 1;
    }
    assert(bus.log() == old(bus).log() + saved_log(words));
    if found {
        Some(sum)
    } else {
        None
    }
}

/// The places of the part that makes graphics ready to take a context by hand: its pipeline
/// empty, its processors held, and its pipeline empty again.
pub struct Forcing {
    pub empty: Seq<Access>,
    pub held: Seq<Access>,
    pub seen: u32,
    pub again: Seq<Access>,
}

/// The pipeline was told to empty in some way.
pub open spec fn emptying(before: Seq<Access>, way: u32) -> Seq<Access> {
    before.push(Access::Write(0x40_4170, way))
}

/// The processors were let go in part, for ten microseconds.
pub open spec fn loosened(before: Seq<Access>) -> Seq<Access> {
    before.push(Access::Write(0x40_9614, 0x70)).push(Access::Delay(10))
}

/// The processors were let go for ten microseconds, and asked.
pub open spec fn released(before: Seq<Access>, seen: u32) -> Seq<Access> {
    before.push(Access::Delay(10)).push(Access::Read(0x40_9614, seen))
}

/// So many steps were over.
pub open spec fn forcing(before: Seq<Access>, f: Forcing, n: int) -> bool {
    &&& n > 0 ==> gr::awaited(emptying(before, 0x12), f.empty, 0x40_4170, Ready::Clear(0x10))
    &&& n > 1 ==> gr::was_masked(loosened(f.empty), f.held, 0x40_9614, 0x700, 0x700)
    &&& n > 2 ==> gr::awaited(
        emptying(released(f.held, f.seen), 0x10),
        f.again,
        0x40_4170,
        Ready::Clear(0x10),
    )
}

/// Graphics was made ready.
pub open spec fn was_forced(before: Seq<Access>, after: Seq<Access>) -> bool {
    exists|f: Forcing| #[trigger]
        forcing(before, f, 3) && after == f.again.push(Access::Write(0x40_802c, 1))
}

/// Graphics was not made ready: its pipeline does not empty, or a register is not there.
pub open spec fn force_failed(before: Seq<Access>, after: Seq<Access>, e: &'static str) -> bool {
    &&& mmio::extends(before, after)
    &&& exists|f: Forcing, n: int|
        {
            &&& #[trigger] forcing(before, f, n)
            &&& {
                ||| n == 0 && gr::wait_failed(
                    emptying(before, 0x12),
                    after,
                    0x40_4170,
                    Ready::Clear(0x10),
                    e,
                )
                ||| n == 1 && gr::mask_failed(loosened(f.empty), after, 0x40_9614, e)
                ||| n == 2 && gr::wait_failed(
                    emptying(released(f.held, f.seen), 0x10),
                    after,
                    0x40_4170,
                    Ready::Clear(0x10),
                    e,
                )
            }
        }
}

fn force<R: Timed>(bus: &mut Bus<'_, R>) -> (r: Result<(), &'static str>)
    ensures
        final(bus).port() == old(bus).port(),
        mmio::memory_kept(old(bus).log(), final(bus).log()),
        mmio::begins(mmio::writes(final(bus).log()), mmio::writes(old(bus).log())),
        match r {
            Ok(_) => was_forced(old(bus).log(), final(bus).log()),
            Err(e) => force_failed(old(bus).log(), final(bus).log(), e),
        },
{
    let ghost o = bus.log();
    let ghost mut f = Forcing { empty: o, held: o, seen: 0, again: o };
    assert(forcing(o, f, 0));
    bus.write(0x40_4170, 0x12);
    assert(bus.log() == emptying(o, 0x12));
    wait_reg(bus, 0x40_4170, Ready::Clear(0x10))?;
    proof {
        f = Forcing { empty: bus.log(), ..f };
        assert(forcing(o, f, 1));
    }
    bus.write(0x40_9614, 0x70);
    bus.delay_us(10);
    assert(bus.log() == loosened(f.empty));
    mask(bus, 0x40_9614, 0x700, 0x700)?;
    proof {
        f = Forcing { held: bus.log(), ..f };
    }
    bus.delay_us(10);
    let seen: u32 = bus.read(0x40_9614);
    proof {
        f = Forcing { seen, ..f };
        assert(forcing(o, f, 2));
    }
    bus.write(0x40_4170, 0x10);
    assert(bus.log() == emptying(released(f.held, seen), 0x10));
    wait_reg(bus, 0x40_4170, Ready::Clear(0x10))?;
    proof {
        f = Forcing { again: bus.log(), ..f };
        assert(forcing(o, f, 3));
    }
    bus.write(0x40_802c, 1);
    Ok(())
}

/// The header of the context image was stored, and written out.
pub open spec fn headed(before: Seq<Access>) -> Seq<Access> {
    before.push(Access::Store(IMAGE, 7, 1)).push(Access::Store(IMAGE, 8, 0)).push(
        Access::Store(IMAGE, 10, 0),
    ).push(Access::Store(IMAGE, 11, 0)).push(Access::Clean(IMAGE))
}

/// The places of a save: the context processor bound, the state written, told to save, its
/// mark gone, and the cache written back.
pub struct Saving {
    pub bound: Seq<Access>,
    pub units: u32,
    pub made: Seq<Access>,
    pub saved: Seq<Access>,
    pub cleared: Seq<Access>,
    pub flushed: Seq<Access>,
}

/// So many steps of a save were over.
pub open spec fn saving(before: Seq<Access>, s: Saving, gr: Gr, n: int) -> bool {
    let bound = (0x8000_0000 + gr.context_instance / 4096) as u32;
    &&& n > 0 ==> was_called(before, s.bound, bound, 3, 0x10, 0x20)
    &&& n > 1 ==> 1 <= s.units <= 2 && was_made(headed(s.bound), s.made, gr.firmware, s.units)
    &&& n > 2 ==> was_called(s.made, s.saved, bound, 9, 1, 2)
    &&& n > 3 ==> gr::was_masked(s.saved, s.cleared, 0x40_9b00, 0x8000_0000, 0)
    &&& n > 4 ==> gr::awaited(
        s.cleared.push(Access::Write(0x7_0010, 1)),
        s.flushed,
        0x7_0010,
        Ready::Clear(3),
    )
}

/// The saved context was read.
pub open spec fn was_read(flushed: Seq<Access>, after: Seq<Access>, words: Seq<u32>) -> bool {
    after == flushed.push(Access::Refresh(IMAGE)) + saved_log(words)
}

/// The golden context was made and saved.
pub open spec fn was_saved(
    before: Seq<Access>,
    after: Seq<Access>,
    gr: Gr,
    size: u32,
    sum: u32,
) -> bool {
    &&& mmio::extends(before, after)
    &&& exists|s: Saving, words: Seq<u32>|
        {
            &&& #[trigger] saving(before, s, gr, 5)
            &&& words.len() == size / 4
            &&& #[trigger] was_read(s.flushed, after, words)
            &&& !all_zero(words) && sum == checksum_spec(words)
        }
}

/// What was wrong behind so many steps of a save.
pub open spec fn saving_stopped(
    before: Seq<Access>,
    s: Saving,
    after: Seq<Access>,
    gr: Gr,
    size: u32,
    n: int,
    e: &'static str,
) -> bool {
    let bound = (0x8000_0000 + gr.context_instance / 4096) as u32;
    ||| n == 0 && call_failed(before, after, bound, 3, 0x10, 0x20, e)
    ||| n == 1 && main_failed(headed(s.bound), after, gr.firmware, e)
    ||| n == 2 && call_failed(s.made, after, bound, 9, 1, 2, e)
    ||| n == 3 && gr::mask_failed(s.saved, after, 0x40_9b00, e)
    ||| n == 4 && gr::wait_failed(
        s.cleared.push(Access::Write(0x7_0010, 1)),
        after,
        0x7_0010,
        Ready::Clear(3),
        e,
    )
    ||| n == 5 && e == "FECS golden save produced an empty context" && exists|words: Seq<u32>|
        words.len() == size / 4 && #[trigger] was_read(s.flushed, after, words) && all_zero(words)
}

/// The golden context was not saved: where it stopped, and why.
pub open spec fn make_failed(
    before: Seq<Access>,
    after: Seq<Access>,
    gr: Gr,
    size: u32,
    e: &'static str,
) -> bool {
    &&& mmio::extends(before, after)
    &&& exists|s: Saving, n: int| #[trigger]
        saving(before, s, gr, n) && saving_stopped(before, s, after, gr, size, n, e)
}

/// Makes the golden context and saves it, with its memory bound.
#[verifier::rlimit(100)]
#[verifier::spinoff_prover]
fn make<R: Dma>(bus: &mut Bus<'_, R>, gr: &Gr, size: u32) -> (r: Result<u32, &'static str>)
    requires
        gr.wf(),
        0 < size <= 0x10_0000,
        size % 4 == 0,
    ensures
        final(bus).port() == old(bus).port(),
        mmio::extends(old(bus).log(), final(bus).log()),
        mmio::begins(mmio::writes(final(bus).log()), mmio::writes(old(bus).log())),
        match r {
            Ok(sum) => was_saved(old(bus).log(), final(bus).log(), *gr, size, sum),
            Err(e) => make_failed(old(bus).log(), final(bus).log(), *gr, size, e),
        },
{
    let bound: u32 = 0x8000_0000 + (gr.context_instance / 4096) as u32;
    let ghost o = bus.log();
    let ghost g = *gr;
    let ghost mut s = Saving { bound: o, units: 0, made: o, saved: o, cleared: o, flushed: o };
    assert(saving(o, s, g, 0));
    match fecs(bus, bound, 3, 0x10, 0x20) {
        Ok(_) => {},
        Err(e) => {
            assert(saving_stopped(o, s, bus.log(), g, size, 0, e));
            return Err(e);
        },
    }
    proof {
        s = Saving { bound: bus.log(), ..s };
        assert(saving(o, s, g, 1));
    }
    bus.store(IMAGE, 7, 1);
    bus.store(IMAGE, 8, 0);
    bus.store(IMAGE, 10, 0);
    bus.store(IMAGE, 11, 0);
    bus.clean(IMAGE);
    assert(bus.log() == headed(s.bound));
    match main(bus, &gr.firmware) {
        Ok(_) => {},
        Err(e) => {
            assert(saving_stopped(o, s, bus.log(), g, size, 1, e));
            return Err(e);
        },
    }
    proof {
        let units = choose|units: u32| #[trigger]
            was_made(headed(s.bound), bus.log(), gr.firmware, units) && 1 <= units <= 2;
        s = Saving { units, made: bus.log(), ..s };
        assert(saving(o, s, g, 2));
    }
    match fecs(bus, bound, 9, 1, 2) {
        Ok(_) => {},
        Err(e) => {
            assert(saving_stopped(o, s, bus.log(), g, size, 2, e));
            return Err(e);
        },
    }
    proof {
        s = Saving { saved: bus.log(), ..s };
        assert(saving(o, s, g, 3));
    }
    match mask(bus, 0x40_9b00, 0x8000_0000, 0) {
        Ok(_) => {},
        Err(e) => {
            assert(saving_stopped(o, s, bus.log(), g, size, 3, e));
            return Err(e);
        },
    }
    proof {
        s = Saving { cleared: bus.log(), ..s };
        assert(saving(o, s, g, 4));
    }
    bus.write(0x7_0010, 1);
    match wait_reg(bus, 0x7_0010, Ready::Clear(3)) {
        Ok(_) => {},
        Err(e) => {
            assert(saving_stopped(o, s, bus.log(), g, size, 4, e));
            return Err(e);
        },
    }
    proof {
        s = Saving { flushed: bus.log(), ..s };
        assert(saving(o, s, g, 5));
    }
    bus.refresh(IMAGE);
    let ghost fresh = bus.log();
    let read = checksum(bus, (size / 4) as usize);
    let ghost words = choose|words: Seq<u32>|
        {
            &&& words.len() == size / 4
            &&& bus.log() == fresh + #[trigger] saved_log(words)
            &&& read == if all_zero(words) {
                None
            } else {
                Some(checksum_spec(words))
            }
        };
    assert(was_read(s.flushed, bus.log(), words));
    match read {
        None => {
            assert(saving_stopped(
                o,
                s,
                bus.log(),
                g,
                size,
                5,
                "FECS golden save produced an empty context",
            ));
            Err("FECS golden save produced an empty context")
        },
        Some(sum) => Ok(sum),
    }
}

/// The context's own memory was bound, and written out.
pub open spec fn linked(before: Seq<Access>) -> Seq<Access> {
    before.push(Access::Store(INSTANCE, 0x84, 0xa_0004)).push(
        Access::Store(INSTANCE, 0x85, 0),
    ).push(Access::Clean(INSTANCE))
}

/// The context's own memory is bound no more, and written out.
pub open spec fn unlinked(before: Seq<Access>) -> Seq<Access> {
    before.push(Access::Store(INSTANCE, 0x84, 0)).push(Access::Store(INSTANCE, 0x85, 0)).push(
        Access::Clean(INSTANCE),
    )
}

/// The memory of the context was written out.
pub open spec fn cleaned(before: Seq<Access>) -> Seq<Access> {
    before.push(Access::Clean(IMAGE)).push(Access::Clean(ATTRIB)).push(
        Access::Clean(PAGEPOOL),
    ).push(Access::Clean(BUNDLE))
}

/// The golden context was made and saved, with its memory bound only meanwhile.
#[verifier::opaque]
pub open spec fn was_generated(
    before: Seq<Access>,
    after: Seq<Access>,
    gr: Gr,
    size: u32,
    sum: u32,
) -> bool {
    &&& mmio::extends(before, after)
    &&& exists|a: Seq<Access>, c: Seq<Access>|
        {
            &&& #[trigger] was_forced(cleaned(before), a)
            &&& #[trigger] was_saved(linked(a), c, gr, size, sum)
            &&& after == unlinked(c)
        }
}

/// The golden context was not made: where it stopped, and why.
#[verifier::opaque]
pub open spec fn generate_failed(
    before: Seq<Access>,
    after: Seq<Access>,
    gr: Gr,
    size: u32,
    e: &'static str,
) -> bool {
    &&& mmio::extends(before, after)
    &&& {
        if size == 0 || size > 0x10_0000 || size % 4 != 0 {
            e == "golden context size outside retained backing" && after == before
        } else {
            ||| force_failed(cleaned(before), after, e)
            ||| exists|a: Seq<Access>, c: Seq<Access>|
                {
                    &&& #[trigger] was_forced(cleaned(before), a)
                    &&& #[trigger] make_failed(linked(a), c, gr, size, e)
                    &&& after == unlinked(c)
                }
        }
    }
}

/// Makes the golden context. Its memory is bound only meanwhile.
pub fn generate<R: Dma>(bus: &mut Bus<'_, R>, gr: &Gr, size: u32) -> (r: Result<u32, &'static str>)
    requires
        gr.wf(),
    ensures
        final(bus).port() == old(bus).port(),
        mmio::extends(old(bus).log(), final(bus).log()),
        mmio::begins(mmio::writes(final(bus).log()), mmio::writes(old(bus).log())),
        size == 0 || size > 0x10_0000 || size % 4 != 0 ==> r == Err::<u32, &'static str>(
            "golden context size outside retained backing",
        ) && final(bus).log() == old(bus).log(),
        r matches Err(e) ==> generate_failed(old(bus).log(), final(bus).log(), *gr, size, e),
        r matches Ok(sum) ==> was_generated(old(bus).log(), final(bus).log(), *gr, size, sum),
        // What was bound is unbound, whatever happened.
        mmio::stores(final(bus).log()) != mmio::stores(old(bus).log()) ==> {
            let all = mmio::stores(final(bus).log());
            &&& all.len() >= 2
            &&& all[all.len() - 2] == (INSTANCE, 0x84usize, 0u32)
            &&& all[all.len() - 1] == (INSTANCE, 0x85usize, 0u32)
            &&& final(bus).log().last() == Access::Clean(INSTANCE)
        },
{
    proof {
        reveal(was_generated);
        reveal(generate_failed);
    }
    if size == 0 || size as usize > MAX_CONTEXT || size % 4 != 0 {
        return Err("golden context size outside retained backing");
    }
    bus.clean(IMAGE);
    bus.clean(ATTRIB);
    bus.clean(PAGEPOOL);
    bus.clean(BUNDLE);
    assert(bus.log() == cleaned(old(bus).log()));
    force(bus)?;
    let ghost a = bus.log();
    bus.store(INSTANCE, 0x84, 0xa_0004);
    bus.store(INSTANCE, 0x85, 0);
    bus.clean(INSTANCE);
    assert(bus.log() == linked(a));
    let result = make(bus, gr, size);
    let ghost c = bus.log();
    bus.store(INSTANCE, 0x84, 0);
    bus.store(INSTANCE, 0x85, 0);
    bus.clean(INSTANCE);
    assert(bus.log() == unlinked(c));
    proof {
        match result {
            Ok(sum) => assert(was_saved(linked(a), c, *gr, size, sum)),
            Err(e) => assert(make_failed(linked(a), c, *gr, size, e)),
        }
    }
    result
}

/// What is wrong with the size of a copy.
pub open spec fn copy_error(size: usize, capacity: usize) -> Option<&'static str> {
    if size == 0 || size > MAX_CONTEXT || size > capacity {
        Some("graphics context size invalid")
    } else {
        None
    }
}

/// The bits of a word that are among the first bytes.
pub open spec fn low_mask(bytes: int) -> u32 {
    if bytes == 1 {
        0xff
    } else if bytes == 2 {
        0xffff
    } else {
        0xff_ffff
    }
}

/// One word of the golden context was read, and stored.
pub open spec fn word_copied(before: Seq<Access>, after: Seq<Access>, area: usize, i: int) -> bool {
    after[before.len() + 2 * i] matches Access::Load(a, w, value) && a == IMAGE && w == SAVED + i
        && after[before.len() + 2 * i + 1] == Access::Store(area, i as usize, value)
}

/// So many words of the golden context were read and stored, one by one.
pub open spec fn words_copied(
    before: Seq<Access>,
    after: Seq<Access>,
    area: usize,
    count: int,
) -> bool {
    &&& mmio::extends(before, after)
    &&& after.len() == before.len() + 2 * count
    &&& forall|i: int| 0 <= i < count ==> #[trigger] word_copied(before, after, area, i)
}

/// Some bytes of the last word were read from the golden context, and the others kept.
pub open spec fn rest_copied(
    before: Seq<Access>,
    area: usize,
    whole: int,
    rest: int,
    value: u32,
    previous: u32,
) -> Seq<Access> {
    before.push(Access::Load(IMAGE, (SAVED + whole) as usize, value)).push(
        Access::Load(area, whole as usize, previous),
    ).push(
        Access::Store(
            area,
            whole as usize,
            (previous & !low_mask(rest)) | (value & low_mask(rest)),
        ),
    )
}

/// The golden context was copied to an area, which was written out.
pub open spec fn was_copied(before: Seq<Access>, after: Seq<Access>, area: usize, size: usize) -> bool {
    let whole = size as int / 4;
    let rest = size as int % 4;
    &&& mmio::extends(before, after)
    &&& exists|words: Seq<Access>, value: u32, previous: u32|
        {
            &&& #[trigger] words_copied(before, words, area, whole)
            &&& after == (if rest == 0 {
                words
            } else {
                #[trigger] rest_copied(words, area, whole, rest, value, previous)
            }).push(Access::Clean(area))
        }
}

/// Copies the golden context to a channel's own memory.
#[verifier::rlimit(100)]
pub fn copy_golden<R: Dma>(bus: &mut Bus<'_, R>, area: usize, size: usize, capacity: usize) -> (r:
    Result<(), &'static str>)
    requires
        area != IMAGE,
    ensures
        final(bus).port() == old(bus).port(),
        mmio::extends(old(bus).log(), final(bus).log()),
        mmio::writes(final(bus).log()) == mmio::writes(old(bus).log()),
        match r {
            Ok(_) => copy_error(size, capacity) is None && was_copied(
                old(bus).log(),
                final(bus).log(),
                area,
                size,
            ),
            Err(e) => copy_error(size, capacity) == Some(e) && final(bus).log() == old(bus).log(),
        },
{
    if size == 0 || size > MAX_CONTEXT || size > capacity {
        return Err("graphics context size invalid");
    }
    let whole: usize = size / 4;
    let rest: usize = size % 4;
    let mut i: usize = 0;
    while i < whole
        invariant
            mmio::extends(old(bus).log(), bus.log()),
            bus.port() == old(bus).port(),
            i <= whole,
            whole <= 0x4_0000,
            area != IMAGE,
            mmio::writes(bus.log()) == mmio::writes(old(bus).log()),
            words_copied(old(bus).log(), bus.log(), area, i as int),
        decreases whole - i,
    {
        let ghost before = bus.log();
        let value: u32 = bus.load(IMAGE, SAVED + i);
        bus.store(area, i, value);
        proof {
            assert forall|j: int| 0 <= j < i + 1 implies #[trigger] word_copied(
                old(bus).log(),
                bus.log(),
                area,
                j,
            ) by {
                if j < i {
                    assert(word_copied(old(bus).log(), before, area, j));
                }
            }
        }
        i = i + 1;
    }
    let ghost words = bus.log();
    let ghost mut found = (0u32, 0u32);
    if rest != 0 {
        let bits: u32 = if rest == 1 {
            0xff
        } else if rest == 2 {
            0xffff
        } else {
            0xff_ffff
        };
        let value: u32 = bus.load(IMAGE, SAVED + whole);
        let previous: u32 = bus.load(area, whole);
        bus.store(area, whole, (previous & !bits) | (value & bits));
        proof {
            found = (value, previous);
        }
    }
    assert(rest != 0 ==> bus.log() == rest_copied(
        words,
        area,
        whole as int,
        rest as int,
        found.0,
        found.1,
    ));
    bus.clean(area);
    assert(was_copied(old(bus).log(), bus.log(), area, size)) by {
        assert(words_copied(old(bus).log(), words, area, size as int / 4));
        let last = rest_copied(words, area, whole as int, rest as int, found.0, found.1);
    }
    Ok(())
}

/// Graphics was started: its processors run, told their sizes, and the golden context
/// was saved.
pub open spec fn was_initialized(
    before: Seq<Access>,
    after: Seq<Access>,
    gr: Gr,
    told: Proof,
) -> bool {
    &&& mmio::extends(before, after)
    &&& {
        exists|a: Seq<Access>, b: Seq<Access>|
            {
                &&& #[trigger] gr::was_started(before, a, gr)
                &&& was_measured(a, b, told)
                &&& #[trigger] was_generated(b, after, gr, told.context_size, told.golden_checksum)
            }
    }
}

/// The three sizes were told.
#[verifier::opaque]
pub open spec fn was_measured(before: Seq<Access>, after: Seq<Access>, told: Proof) -> bool {
    &&& mmio::extends(before, after)
    &&& {
        exists|a: Seq<Access>, b: Seq<Access>|
            {
                &&& #[trigger] gr::was_sized(before, a, 0x10, told.context_size)
                &&& #[trigger] gr::was_sized(a, b, 0x16, told.zcull_size)
                &&& gr::was_sized(b, after, 0x25, told.performance_size)
            }
    }
}

/// A size was not told: which one, and why.
#[verifier::opaque]
pub open spec fn measure_failed(before: Seq<Access>, after: Seq<Access>, e: &'static str) -> bool {
    &&& mmio::extends(before, after)
    &&& {
        ||| gr::size_failed(before, after, 0x10, e)
        ||| exists|a: Seq<Access>, size: u32|
            #[trigger] gr::was_sized(before, a, 0x10, size) && gr::size_failed(a, after, 0x16, e)
        ||| exists|a: Seq<Access>, b: Seq<Access>, size: u32, zcull: u32|
            {
                &&& #[trigger] gr::was_sized(before, a, 0x10, size)
                &&& #[trigger] gr::was_sized(a, b, 0x16, zcull)
                &&& gr::size_failed(b, after, 0x25, e)
            }
    }
}

/// Asks for the three sizes.
fn measure<R: Timed>(bus: &mut Bus<'_, R>) -> (r: Result<Proof, &'static str>)
    ensures
        final(bus).port() == old(bus).port(),
        mmio::extends(old(bus).log(), final(bus).log()),
        mmio::begins(mmio::writes(final(bus).log()), mmio::writes(old(bus).log())),
        match r {
            Ok(told) => was_measured(old(bus).log(), final(bus).log(), told),
            Err(e) => measure_failed(old(bus).log(), final(bus).log(), e),
        },
{
    proof {
        reveal(was_measured);
        reveal(measure_failed);
    }
    let context_size: u32 = gr::context_size(bus, 0x10)?;
    let ghost a = bus.log();
    let zcull_size: u32 = gr::context_size(bus, 0x16)?;
    let ghost b = bus.log();
    let performance_size: u32 = gr::context_size(bus, 0x25)?;
    let told = Proof { context_size, zcull_size, performance_size, golden_checksum: 0 };
    assert(gr::was_sized(old(bus).log(), a, 0x10, told.context_size));
    assert(gr::was_sized(a, b, 0x16, told.zcull_size));
    Ok(told)
}

/// Graphics was not started: where it stopped, and why.
pub open spec fn initialize_failed(
    before: Seq<Access>,
    after: Seq<Access>,
    gr: Gr,
    e: &'static str,
) -> bool {
    &&& mmio::extends(before, after)
    &&& {
        ||| gr::start_all_failed(before, after, gr, e)
        ||| exists|a: Seq<Access>|
            #[trigger] gr::was_started(before, a, gr) && measure_failed(a, after, e)
        ||| exists|a: Seq<Access>, b: Seq<Access>, told: Proof|
            {
                &&& #[trigger] gr::was_started(before, a, gr)
                &&& #[trigger] was_measured(a, b, told)
                &&& generate_failed(b, after, gr, told.context_size, e)
            }
    }
}

impl Gr {
    #[verifier::rlimit(100)]
    #[verifier::spinoff_prover]
    /// Starts graphics: the processors, the sizes of their contexts, and the golden
    /// context.
    pub fn initialize<R: Dma>(&self, bus: &mut Bus<'_, R>) -> (r: Result<Proof, &'static str>)
        requires
            self.wf(),
        ensures
            final(bus).port() == old(bus).port(),
            mmio::extends(old(bus).log(), final(bus).log()),
            mmio::begins(mmio::writes(final(bus).log()), mmio::writes(old(bus).log())),
            r matches Err(e) ==> initialize_failed(old(bus).log(), final(bus).log(), *self, e),
            r matches Ok(told) ==> 0 < told.context_size <= 0x10_0000 && told.context_size % 4 == 0
                && was_initialized(old(bus).log(), final(bus).log(), *self, told),
    {
        self.start_all(bus)?;
        let ghost a = bus.log();
        let sizes = measure(bus)?;
        let ghost b = bus.log();
        let golden_checksum: u32 = generate(bus, self, sizes.context_size)?;
        let told = Proof {
            context_size: sizes.context_size,
            zcull_size: sizes.zcull_size,
            performance_size: sizes.performance_size,
            golden_checksum,
        };
        proof {
            lemma_measured(a, b, sizes, told);
            assert(gr::was_started(old(bus).log(), a, *self));
            assert(was_generated(
                b,
                bus.log(),
                *self,
                told.context_size,
                told.golden_checksum,
            ));
            assert(was_measured(a, b, told));
            assert(mmio::extends(old(bus).log(), bus.log()));
            assert(was_initialized(old(bus).log(), bus.log(), *self, told));
        }
        Ok(told)
    }
}

/// What was measured does not depend on the checksum.
proof fn lemma_measured(before: Seq<Access>, after: Seq<Access>, sizes: Proof, told: Proof)
    requires
        was_measured(before, after, sizes),
        sizes.context_size == told.context_size,
        sizes.zcull_size == told.zcull_size,
        sizes.performance_size == told.performance_size,
    ensures
        was_measured(before, after, told),
{
    reveal(was_measured);
}

/// Graphics rest if the engine is off, or if neither it nor its front end has something to
/// do; where a register is not there nothing is known.
pub proof fn graphics_rest_or_are_off(status: u32, enable: u32, engine: u32, busy: u32)
    ensures
        idle_spec(status, enable, engine, busy) is None <==> status == 0xffff_ffff || enable
            == 0xffff_ffff || engine == 0xffff_ffff || busy == 0xffff_ffff,
        idle_spec(status, enable, engine, busy) == Some(true) ==> enable & 0x1000 == 0 || (busy & 1
            == 0 && engine & 0x8000 == 0),
        idle_spec(status, enable, engine, busy) == Some(false) ==> enable & 0x1000 != 0 && (busy & 1
            != 0 || engine & 0x8000 != 0),
{
}

/// There is one cluster of one or two units, with as many rasterisers.
pub proof fn clusters_have_their_units(clusters: u32, units: u32, rasterisers: u32)
    ensures
        units_spec(clusters, units, rasterisers) matches Some(count) ==> count == units % 256 && (
        count == 1 || count == 2),
        units_spec(clusters, units, rasterisers) is Some <==> clusters % 32 == 1 && ((units % 256
            == 1 && (rasterisers == 1 || rasterisers == 2)) || (units % 256 == 2 && rasterisers
            == 3)),
{
}

/// A checksum takes every word in turn, and words that differ at the end alone never have
/// the same.
pub proof fn checksums_tell_the_last_word(values: Seq<u32>, a: u32, b: u32)
    ensures
        checksum_spec(Seq::<u32>::empty()) == 0x811c_9dc5,
        checksum_spec(values.push(a)) == (checksum_spec(values) ^ a) * 0x0100_0193 % 0x1_0000_0000,
        a != b ==> checksum_spec(values.push(a)) != checksum_spec(values.push(b)),
{
    assert(values.push(a).drop_last() =~= values);
    assert(values.push(b).drop_last() =~= values);
    let c = checksum_spec(values);
    lemma_mixed(c, a, b);
    if a != b {
        lemma_odd((c ^ a) as int, (c ^ b) as int);
    }
}

proof fn lemma_mixed(c: u32, a: u32, b: u32)
    by (bit_vector)
    ensures
        a != b ==> c ^ a != c ^ b,
{
}

/// The multiplier is odd, so it has an inverse modulo two to the 32nd.
proof fn lemma_odd(x: int, y: int)
    requires
        0 <= x < 0x1_0000_0000,
        0 <= y < 0x1_0000_0000,
        x != y,
    ensures
        x * 0x0100_0193 % 0x1_0000_0000 != y * 0x0100_0193 % 0x1_0000_0000,
{
    let m = 0x1_0000_0000int;
    if x * 0x0100_0193 % m == y * 0x0100_0193 % m {
        vstd::arithmetic::div_mod::lemma_fundamental_div_mod(x * 0x0100_0193, m);
        vstd::arithmetic::div_mod::lemma_fundamental_div_mod(y * 0x0100_0193, m);
        let k = x * 0x0100_0193 / m - y * 0x0100_0193 / m;
        assert((x - y) * 0x0100_0193 == m * k);
        let q = 0x35_9c99int;
        assert(0x359c_449bint * 0x0100_0193 == q * m + 1);
        assert((x - y) * (q * m + 1) == m * k * 0x359c_449bint) by (nonlinear_arith)
            requires
                (x - y) * 0x0100_0193 == m * k,
                0x359c_449bint * 0x0100_0193 == q * m + 1,
        ;
        assert(x - y == m * (k * 0x359c_449bint - (x - y) * q)) by (nonlinear_arith)
            requires
                (x - y) * (q * m + 1) == m * k * 0x359c_449bint,
        ;
        let z = k * 0x359c_449bint - (x - y) * q;
        assert(z == 0) by (nonlinear_arith)
            requires
                x - y == m * z,
                m == 0x1_0000_0000,
                -0x1_0000_0000 < x - y < 0x1_0000_0000,
        ;
    }
}

/// Buffers of attributes are as large as the units together need: a unit's share of each
/// lies behind that of the other, and the third part of the share goes with it.
pub proof fn attributes_have_room_for_all_units(units: u32)
    requires
        units == 1 || units == 2,
    ensures
        ({
            let w = attribute_writes(units);
            &&& w.len() == 10
            &&& w[5] == (0x50_30c0usize, (1024 * units) as u32)
            &&& w[7] == (0x50_30e4usize, (2048 * units) as u32)
            &&& w[8] == (0x50_30f8usize, (1536 * units) as u32)
            &&& w[9].0 == 0x41_8ea0 && w[9].1 % 0x1_0000 == 1024 * units && w[9].1 / 0x1_0000
                == 1024 * units / 3
            &&& w[0].1 as int % 0x1000_0000 == w[1].1 as int % 0x1000_0000
            &&& w[1].1 == w[2].1
            &&& w[0].0 == 0x41_8810 && w[1].0 == 0x41_9848 && w[2].0 == 0x41_9c2c
        }),
{
}

/// A method of a table is given its value first, and only the graphics and the flat object
/// have methods there.
pub proof fn methods_get_their_values(table: Seq<u8>, k: int)
    requires
        0 <= k < table.len() / 8,
        method_ok(table, k),
    ensures
        ({
            let w = method_writes(table);
            let address = table[8 * k] + 0x100 * table[8 * k + 1] + 0x1_0000 * table[8 * k + 2]
                + 0x100_0000 * table[8 * k + 3];
            let value = table[8 * k + 4] + 0x100 * table[8 * k + 5] + 0x1_0000 * table[8 * k + 6]
                + 0x100_0000 * table[8 * k + 7];
            &&& w.len() == 2 * (table.len() / 8)
            &&& w[2 * k] == (0x40_448cusize, value as u32)
            &&& w[2 * k + 1].0 == 0x40_4488 && w[2 * k + 1].1 == 0x8000_0000 + address
            &&& address % 0x1_0000 == 0x902d || address % 0x1_0000 == 0xb197
        }),
{
}

/// The pool of pages and the bundles have their addresses and sizes in every register that
/// asks for them.
pub proof fn pools_have_their_places(i: int)
    requires
        0 <= i < 11,
    ensures
        ({
            let registers = seq![
                0x40_800cint,
                0x40_8010,
                0x41_9004,
                0x41_9008,
                0x40_64cc,
                0x41_8e30,
                0x40_8004,
                0x40_8008,
                0x41_8e24,
                0x41_8e28,
                0x40_64c8,
            ];
            let w = pool_writes();
            &&& w.len() == 11
            &&& w[i].0 == registers[i]
            &&& 256 * w[0].1 == 0x25_0000 && w[2].1 == w[0].1
            &&& 256 * w[6].1 == 0x26_0000 && w[8].1 == w[6].1
            &&& w[1].1 == 0x8000_0000 && w[3].1 == 0 && w[4].1 == 0x8000_0000 && w[5].1
                == 0x8000_0000
            &&& w[7].1 == 0x8000_0018 && w[9].1 == 0x8000_0018
            &&& w[10].1 == 0xc0_01c0
        }),
{
}

/// A switch of contexts has its settings.
pub proof fn switches_have_their_settings(i: int)
    requires
        0 <= i < 6,
    ensures
        switch_table().len() == 6,
        switch_table()[i].0 == seq![
            0x41_8c6cint,
            0x41_980c,
            0x41_be08,
            0x40_64c0,
            0x40_5800,
            0x41_9c00,
        ][i],
        switch_table()[i].1 == seq![1u32, 0x10, 4, 0x8000_0000, 0x0800_0000, 8][i],
{
}

/// Each unit is numbered where it is, and its number is told to all that count units.
pub proof fn units_are_numbered(units: u32)
    requires
        units == 1 || units == 2,
    ensures
        ({
            let w = unit_writes(units);
            let n = w.len() as int;
            &&& n == if units == 2 {
                18int
            } else {
                15
            }
            &&& w[0] == (0x50_4698usize, 0u32) && w[1] == (0x50_0c10usize, 0u32) && w[2] == (
                0x50_4088usize,
                0u32,
            )
            &&& units == 2 ==> w[3] == (0x50_4e98usize, 1u32) && w[4] == (0x50_0c14usize, 1u32)
                && w[5] == (0x50_4888usize, 1u32)
            &&& w[n - 12] == (0x40_5870usize, units) && w[n - 11] == (0x40_6028usize, units)
            &&& w[n - 10] == (0x40_5874usize, 0u32) && w[n - 9] == (0x40_602cusize, 0u32)
            &&& w[n - 8] == (0x40_5878usize, 0u32) && w[n - 7] == (0x40_6030usize, 0u32)
            &&& w[n - 6] == (0x40_587cusize, 0u32) && w[n - 5] == (0x40_6034usize, 0u32)
            &&& w[n - 4] == (0x41_8bb8usize, (0x100 * units + 1) as u32)
            &&& w[n - 3].0 == 0x41_bfd0 && w[n - 3].1 % 0x1_0000 == 0x100 * units + 1 && w[n - 3].1
                / 0x10_0000 == if units == 2 {
                7int
            } else {
                9
            }
            &&& w[n - 2] == (0x41_bfe4usize, 0u32)
            &&& w[n - 1] == (0x40_78bcusize, (0x100 * units + 1) as u32)
        }),
{
}

/// Tiles are mapped to units in three copies of one table, which ends with those that are not
/// there.
pub proof fn tiles_are_mapped_in_three_copies(units: u32, i: int, copy: int)
    requires
        units == 1 || units == 2,
        0 <= i < 6,
        0 <= copy < 3,
    ensures
        ({
            let w = tile_writes(units);
            let entry = w[3 * i + copy];
            &&& w.len() == 30
            &&& entry.0 == 4 * i + (if copy == 0 {
                0x41_8b08int
            } else if copy == 1 {
                0x41_bf00
            } else {
                0x40_780c
            })
            &&& entry.1 == (if i == 0 && units == 2 {
                0x0e73_9c00int
            } else if i == 0 {
                0x0e73_9ce0
            } else if i < 5 {
                0x0e73_9ce7
            } else {
                0xe7
            })
            &&& w[18 + i].0 == 0x40_64d0 + 4 * i && w[18 + i].1 == 0
            &&& w[26] == (0x40_5b00usize, (0x100 * units + 1) as u32)
            &&& w[27].0 == 0x40_41c4 && w[28].0 == 0x40_5b60 && w[29].0 == 0x40_5ba0
            &&& units == 2 ==> w[27].1 == 3 && w[28].1 == 0x100 && w[29].1 == 0x100
            &&& units == 1 ==> w[27].1 == 1 && w[28].1 == 0 && w[29].1 == 0
        }),
{
    assert((3 * i + copy) / 3 == i && (3 * i + copy) % 3 == copy);
}

} // verus!
