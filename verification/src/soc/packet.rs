//! Bounded I2C engine, in packet mode and in register mode.
use vstd::prelude::*;

use crate::mmio;
use crate::mmio::{Access, Bus};
pub use crate::mmio::Registers;
use crate::words;
use crate::words::{unpack, word};

verus! {

#[derive(Debug, Clone, Copy, Eq, PartialEq, Structural)]
pub enum Error {
    Nack,
    ArbitrationLost,
    Timeout,
    Bus,
    Invalid,
}

pub const CNFG: usize = 0x00;

pub const ADDRESS: usize = 0x04;

pub const DATA: usize = 0x0c;

pub const STATUS: usize = 0x1c;

pub const TX: usize = 0x50;

pub const RX: usize = 0x54;

pub const FIFO_CONTROL: usize = 0x5c;

pub const FIFO_STATUS: usize = 0x60;

pub const INT_MASK: usize = 0x64;

pub const INT_STATUS: usize = 0x68;

pub const BUS_CLEAR_CONFIG: usize = 0x84;

pub const BUS_CLEAR_STATUS: usize = 0x88;

pub const CONFIG_LOAD: usize = 0x8c;

pub const BUS_CLEAR_DONE: u32 = 0x800;

pub const CONFIG: u32 = 0x2800;

/// Starts packet mode.
pub const GO: u32 = 0x400;

/// Starts a register-mode message.
pub const SEND: u32 = 0x200;

pub const COMPLETE: u32 = 0x80;

/// Loads the whole configuration.
pub const LOAD: u32 = 0x25;

/// Nine clock pulses, then STOP, over when SDA is free.
pub const NINE_PULSES: u32 = 0x9_0006;

pub const MAX_PAYLOAD: usize = 256;

pub const NORMAL_MAX_PAYLOAD: usize = 8;

/// What the interrupt status says went wrong, the worst first.
pub open spec fn fault(status: u32) -> Option<Error> {
    if status & 4 != 0 {
        Some(Error::ArbitrationLost)
    } else if status & 8 != 0 {
        Some(Error::Nack)
    } else if status & 0x30 != 0 {
        Some(Error::Bus)
    } else {
        None
    }
}

/// What a wait looks for in a register, and until when.
pub struct Wanted {
    pub offset: usize,
    pub mask: u32,
    pub set: bool,
    pub deadline: u64,
}

/// The interrupt status shows no fault.
pub open spec fn is_sound(log: Seq<Access>, at: int) -> bool {
    log[at] matches Access::Read(o, s) && o == INT_STATUS && fault(s) is None
}

/// One look: nothing is wrong, the time is not up, and the register is as wanted or
/// it is not.
pub open spec fn looked(log: Seq<Access>, at: int, w: Wanted, met: bool) -> bool {
    &&& is_sound(log, at)
    &&& log[at + 1] matches Access::Time(t) && t < w.deadline
    &&& log[at + 2] matches Access::Read(o, v) && o == w.offset && (((v & w.mask != 0) == w.set)
        == met)
}

pub open spec fn in_vain(log: Seq<Access>, since: int, k: int, w: Wanted) -> bool {
    looked(log, since + 3 * k, w, false)
}

/// After that many looks in vain the register is as wanted, the status shows the fault,
/// or the time is up. A clock that never gets there ends the looks as well.
pub open spec fn ended(
    log: Seq<Access>,
    since: int,
    looks: int,
    w: Wanted,
    r: Result<(), Error>,
) -> bool {
    let at = since + 3 * looks;
    &&& 0 <= looks
    &&& forall|k: int| 0 <= k < looks ==> #[trigger] in_vain(log, since, k, w)
    &&& match r {
        Ok(_) => log.len() == at + 3 && looked(log, at, w, true),
        Err(e) => {
            ||| log.len() == at + 1 && (log[at] matches Access::Read(o, s) && o == INT_STATUS
                && fault(s) == Some(e))
            ||| e == Error::Timeout && log.len() == at + 2 && is_sound(log, at) && (log[at
                + 1] matches Access::Time(t) && t >= w.deadline)
            ||| e == Error::Timeout && log.len() == at && looks == u64::MAX
        },
    }
}

/// The whole of a wait: its accesses, and the result that they call for.
pub open spec fn waited(
    before: Seq<Access>,
    after: Seq<Access>,
    w: Wanted,
    r: Result<(), Error>,
) -> bool {
    &&& mmio::extends(before, after)
    &&& exists|looks: int| #[trigger] ended(after, before.len() as int, looks, w, r)
}

/// The writes as accesses.
pub open spec fn written(writes: Seq<(usize, u32)>) -> Seq<Access> {
    Seq::new(writes.len(), |i: int| Access::Write(writes[i].0, writes[i].1))
}

/// The status, where nothing failed and the deadline is not reached.
pub fn check<R: Registers>(bus: &mut Bus<'_, R>, deadline: u64) -> (r: Result<u32, Error>)
    ensures
        final(bus).port() == old(bus).port(),
        mmio::extends(old(bus).log(), final(bus).log()),
        r matches Ok(s) ==> fault(s) is None && exists|t: u64|
            t < deadline && #[trigger] old(bus).log().push(Access::Read(INT_STATUS, s)).push(
                Access::Time(t),
            ) == final(bus).log(),
        r matches Err(e) ==> exists|s: u32| #[trigger]
            fault(s) == Some(e) && final(bus).log() == old(bus).log().push(
                Access::Read(INT_STATUS, s),
            ) || e == Error::Timeout && fault(s) is None && exists|t: u64|
                t >= deadline && #[trigger] old(bus).log().push(Access::Read(INT_STATUS, s)).push(
                    Access::Time(t),
                ) == final(bus).log(),
        mmio::writes(final(bus).log()) == mmio::writes(old(bus).log()),
        forall|o: usize|
            #![trigger mmio::reads(final(bus).log(), o)]
            o != INT_STATUS ==> mmio::reads(final(bus).log(), o) == mmio::reads(
                old(bus).log(),
                o,
            ),
        old(bus).log().len() < final(bus).log().len(),
{
    let status: u32 = bus.read(INT_STATUS);
    if status & 4 != 0 {
        assert(fault(status) == Some(Error::ArbitrationLost));
        return Err(Error::ArbitrationLost);
    }
    if status & 8 != 0 {
        assert(fault(status) == Some(Error::Nack));
        return Err(Error::Nack);
    }
    if status & 0x30 != 0 {
        assert(fault(status) == Some(Error::Bus));
        return Err(Error::Bus);
    }
    assert(fault(status) is None);
    let now: u64 = bus.now_ns();
    if now >= deadline {
        return Err(Error::Timeout);
    }
    Ok(status)
}

/// Polls a register until the masked bits are set, or are all clear.
pub fn wait<R: Registers>(
    bus: &mut Bus<'_, R>,
    offset: usize,
    mask: u32,
    set: bool,
    deadline: u64,
) -> (r: Result<(), Error>)
    ensures
        final(bus).port() == old(bus).port(),
        mmio::extends(old(bus).log(), final(bus).log()),
        waited(old(bus).log(), final(bus).log(), Wanted { offset, mask, set, deadline }, r),
        r is Ok ==> r == Ok::<(), Error>(()),
        r != Err::<(), Error>(Error::Invalid),
        mmio::writes(final(bus).log()) == mmio::writes(old(bus).log()),
        forall|o: usize|
            #![trigger mmio::reads(final(bus).log(), o)]
            o != INT_STATUS && o != offset ==> mmio::reads(final(bus).log(), o) == mmio::reads(
                old(bus).log(),
                o,
            ),
{
    let ghost w = Wanted { offset, mask, set, deadline };
    let ghost since = bus.log().len() as int;
    let ghost mut looks: int = 0;
    let mut polls: u64 = u64::MAX;
    while polls > 0
        invariant
            w == (Wanted { offset, mask, set, deadline }),
            since == old(bus).log().len(),
            looks == u64::MAX - polls,
            bus.log().len() == since + 3 * looks,
            bus.port() == old(bus).port(),
            mmio::extends(old(bus).log(), bus.log()),
            forall|k: int| 0 <= k < looks ==> #[trigger] in_vain(bus.log(), since, k, w),
            mmio::writes(bus.log()) == mmio::writes(old(bus).log()),
            forall|o: usize|
                #![trigger mmio::reads(bus.log(), o)]
                o != INT_STATUS && o != offset ==> mmio::reads(bus.log(), o) == mmio::reads(
                    old(bus).log(),
                    o,
                ),
        decreases polls,
    {
        let ghost before = bus.log();
        match check(bus, deadline) {
            Ok(_) => {},
            Err(e) => {
                proof {
                    still_in_vain(before, bus.log(), since, looks, w);
                    assert(ended(bus.log(), since, looks, w, Err(e)));
                }
                return Err(e);
            },
        }
        let value: u32 = bus.read(offset);
        proof {
            still_in_vain(before, bus.log(), since, looks, w);
        }
        if (value & mask != 0) == set {
            assert(ended(bus.log(), since, looks, w, Ok(())));
            return Ok(());
        }
        polls = polls - 1;
        proof {
            assert(in_vain(bus.log(), since, looks, w));
            looks = looks + 1;
        }
    }
    assert(ended(bus.log(), since, looks, w, Err(Error::Timeout)));
    Err(Error::Timeout)
}

/// Looks in vain stay in the record.
proof fn still_in_vain(before: Seq<Access>, after: Seq<Access>, since: int, looks: int, w: Wanted)
    requires
        mmio::extends(before, after),
        0 <= since,
        since + 3 * looks <= before.len(),
        forall|k: int| 0 <= k < looks ==> #[trigger] in_vain(before, since, k, w),
    ensures
        forall|k: int| 0 <= k < looks ==> #[trigger] in_vain(after, since, k, w),
{
    assert forall|k: int| 0 <= k < looks implies #[trigger] in_vain(after, since, k, w) by {
        assert(in_vain(before, since, k, w));
        assert(after[since + 3 * k] == before[since + 3 * k]);
        assert(after[since + 3 * k + 1] == before[since + 3 * k + 1]);
        assert(after[since + 3 * k + 2] == before[since + 3 * k + 2]);
    }
}

/// Leaves whatever mode the controller was in, and stops reporting interrupts:
/// everything here is polled.
pub open spec fn quiet() -> Seq<(usize, u32)> {
    seq![(CNFG, CONFIG), (INT_MASK, 0u32), (INT_STATUS, u32::MAX)]
}

fn settle<R: Registers>(bus: &mut Bus<'_, R>)
    ensures
        final(bus).port() == old(bus).port(),
        mmio::writes(final(bus).log()) == mmio::writes(old(bus).log()) + quiet(),
        final(bus).log() == old(bus).log() + written(quiet()),
{
    bus.write(CNFG, CONFIG);
    bus.write(INT_MASK, 0);
    bus.write(INT_STATUS, u32::MAX);
    assert(mmio::writes(bus.log()) =~= mmio::writes(old(bus).log()) + quiet());
    assert(bus.log() =~= old(bus).log() + written(quiet()));
}

/// The bytes as registers, in order: all to the packet queue, or each to its slot.
pub open spec fn payload(bytes: Seq<u8>, queued: bool, count: int) -> Seq<(usize, u32)>
    recommends
        0 <= count,
{
    Seq::new(
        count as nat,
        |k: int|
            (
                if queued {
                    TX
                } else {
                    slot(k)
                },
                words::word_of(bytes, k),
            ),
    )
}

pub open spec fn acceptable(addr: u8, length: nat, limit: nat) -> bool {
    addr <= 0x7f && 0 < length <= limit
}

/// The place of each of the two words of a register-mode message.
pub open spec fn slot(index: int) -> usize {
    if index == 0 {
        0x0c
    } else {
        0x10
    }
}

pub open spec fn normal_config(length: nat, read: bool) -> u32 {
    (CONFIG + 2 * (length - 1) + if read {
        0x40int
    } else {
        0
    }) as u32
}

/// Everything written by a register-mode message up to where it starts.
pub open spec fn normal_setup(addr: u8, data: Seq<u8>, read: bool) -> Seq<(usize, u32)> {
    quiet().push(
        (ADDRESS, (2 * addr + if read {
            1int
        } else {
            0
        }) as u32),
    ) + payload(
        data,
        false,
        if read {
            0
        } else {
            words::words(data.len())
        },
    ) + seq![(CNFG, normal_config(data.len(), read)), (CONFIG_LOAD, LOAD)]
}

/// Everything written by a register-mode message that succeeds.
pub open spec fn normal_writes(addr: u8, data: Seq<u8>, read: bool) -> Seq<(usize, u32)> {
    normal_setup(addr, data, read) + seq![
        (CNFG, (normal_config(data.len(), read) + SEND) as u32),
        (CNFG, CONFIG),
    ]
}

/// The configuration is taken over within a millisecond of the setup, or is not.
pub open spec fn loaded(setup: Seq<Access>, after: Seq<Access>, r: Result<(), Error>) -> bool {
    &&& setup.len() < after.len()
    &&& after[setup.len() as int] matches Access::Time(t) && waited(
        setup.push(Access::Time(t)),
        after,
        Wanted { offset: CONFIG_LOAD, mask: 1, set: false, deadline: mmio::until(t, 1_000_000) },
        r,
    )
}

/// The message is started, the start is read back, and its time begins.
pub open spec fn started(before: Seq<Access>, after: Seq<Access>, config: u32) -> bool {
    &&& after.len() == before.len() + 3
    &&& mmio::extends(before, after)
    &&& after[before.len() as int] == Access::Write(CNFG, (config + SEND) as u32)
    &&& after[before.len() as int + 1] matches Access::Read(o, _) && o == CNFG
    &&& after[before.len() as int + 2] is Time
}

/// The last reading has any of the four low bits set.
pub open spec fn not_acknowledged(log: Seq<Access>) -> bool {
    log.last() matches Access::Read(_, v) && v & 0x0f != 0
}

/// Within fifteen milliseconds of the last look at the clock the message is off the bus
/// and was acknowledged, or was not, or the wait failed.
pub open spec fn judged(before: Seq<Access>, after: Seq<Access>, r: Result<(), Error>) -> bool {
    &&& mmio::extends(before, after)
    &&& {
        before.last() matches Access::Time(t) && {
            let w = Wanted {
                offset: STATUS,
                mask: 0x100,
                set: false,
                deadline: mmio::until(t, 15_000_000),
            };
            ||| r is Ok && waited(before, after, w, r) && !not_acknowledged(after)
            ||| r == Err::<(), Error>(Error::Nack) && waited(before, after, w, Ok(()))
                && not_acknowledged(after)
            ||| r is Err && waited(before, after, w, r)
        }
    }
}

/// What a read brought is fetched, and the command register is put back.
pub open spec fn closed_with(
    before: Seq<Access>,
    after: Seq<Access>,
    length: nat,
    read: bool,
) -> bool {
    &&& mmio::extends(before, after)
    &&& after.len() == before.len() + 1 + if read {
        words::words(length)
    } else {
        0
    }
    &&& read ==> (after[before.len() as int] matches Access::Read(o, _) && o == slot(0))
    &&& read && length > 4 ==> (after[before.len() as int + 1] matches Access::Read(o, _) && o == slot(1))
    &&& after.last() == Access::Write(CNFG, CONFIG)
}

/// A register-mode message from its first access to its last.
pub open spec fn normal_run(
    log: Seq<Access>,
    addr: u8,
    data: Seq<u8>,
    read: bool,
    r: Result<(), Error>,
) -> bool {
    let setup = written(normal_setup(addr, data, read));
    let config = normal_config(data.len(), read);
    ||| r is Err && loaded(setup, log, r)
    ||| r is Err && exists|a: Seq<Access>, b: Seq<Access>| #[trigger]
        loaded(setup, a, Ok(())) && #[trigger] started(a, b, config) && judged(b, log, r)
    ||| r is Ok && exists|a: Seq<Access>, b: Seq<Access>, c: Seq<Access>| #[trigger]
        loaded(setup, a, Ok(())) && #[trigger] started(a, b, config) && #[trigger] judged(b, c, r)
            && closed_with(c, log, data.len(), read)
}

/// What a register-mode message leaves behind, whatever the bus answered. One that
/// fails leaves the bytes alone.
pub open spec fn normal_outcome(
    log: Seq<Access>,
    addr: u8,
    before: Seq<u8>,
    after: Seq<u8>,
    read: bool,
    r: Result<(), Error>,
) -> bool {
    &&& after.len() == before.len()
    &&& !read || r is Err ==> after == before
    &&& r == Err::<(), Error>(Error::Invalid) <==> !acceptable(addr, before.len(), 8)
    &&& !acceptable(addr, before.len(), 8) ==> log == Seq::<Access>::empty()
    &&& acceptable(addr, before.len(), 8) ==> normal_run(log, addr, before, read, r)
    &&& r is Ok ==> mmio::writes(log) == normal_writes(addr, before, read)
    &&& r is Ok && read ==> forall|j: int|
        0 <= j < after.len() ==> mmio::reads(log, slot(j / 4)).len() > 0 && #[trigger] after[j]
            == words::byte_of(mmio::reads(log, slot(j / 4)).last(), j % 4)
    &&& r is Err ==> mmio::writes(log).is_prefix_of(normal_writes(addr, before, read))
}

/// A short message that ends with STOP, through the controller's command
/// registers. It depends on no packet-complete interrupt and uses no packet
/// state.
pub fn normal_transfer<R: Registers>(r: &R, addr: u8, data: &mut [u8], read: bool) -> (result:
    Result<(), Error>)
    ensures
        exists|log: Seq<Access>|
            mmio::answered(r, log) && #[trigger] normal_outcome(
                log,
                addr,
                old(data)@,
                final(data)@,
                read,
                result,
            ),
{
    let mut bus = Bus::new(r);
    let result = normal_transfer_on(&mut bus, addr, data, read);
    proof {
        use_type_invariant(&bus);
    }
    assert(normal_outcome(bus.log(), addr, old(data)@, data@, read, result));
    result
}

/// A register-mode message on a fresh record of accesses.
pub fn normal_transfer_on<R: Registers>(
    bus: &mut Bus<'_, R>,
    addr: u8,
    data: &mut [u8],
    read: bool,
) -> (result: Result<(), Error>)
    requires
        old(bus).log() == Seq::<Access>::empty(),
    ensures
        final(bus).port() == old(bus).port(),
        mmio::extends(old(bus).log(), final(bus).log()),
        normal_outcome(final(bus).log(), addr, old(data)@, final(data)@, read, result),
{
    let length: usize = data.len();
    if addr > 0x7f || length == 0 || length > NORMAL_MAX_PAYLOAD {
        return Err(Error::Invalid);
    }
    let ghost whole = normal_writes(addr, data@, read);
    let ghost setup = normal_setup(addr, data@, read);
    let config: u32 = normal_prepare(bus, addr, data, read);
    proof {
        assert(mmio::writes(bus.log()) =~= setup);
        assert(setup.is_prefix_of(whole));
    }
    let start: u64 = bus.now_ns();
    assert(bus.log() =~= written(setup).push(Access::Time(start)));
    let taken = wait(bus, CONFIG_LOAD, 1, false, start.saturating_add(1_000_000));
    let ghost a = bus.log();
    proof {
        assert(a[written(setup).len() as int] == Access::Time(start));
        assert(loaded(written(setup), a, taken));
    }
    if let Err(e) = taken {
        return Err(e);
    }
    bus.write(CNFG, config + SEND);
    assert(mmio::writes(bus.log()).is_prefix_of(whole));
    // The posted start has to arrive before the status is polled.
    bus.read(CNFG);
    let sent: u64 = bus.now_ns();
    let ghost b = bus.log();
    assert(started(a, b, config));
    let answer = finish_message(bus, sent);
    let ghost c = bus.log();
    assert(judged(b, c, answer));
    if let Err(e) = answer {
        assert(normal_run(bus.log(), addr, data@, read, answer));
        return Err(e);
    }
    assert(mmio::writes(bus.log()) =~= setup.push((CNFG, (config + SEND) as u32)));
    if read {
        let low: u32 = bus.read(DATA);
        unpack(data, 0, low);
        if length > 4 {
            let ghost first = mmio::reads(bus.log(), slot(0));
            let high: u32 = bus.read(DATA + 4);
            unpack(data, 4, high);
            assert(mmio::reads(bus.log(), slot(0)) == first);
            assert(mmio::reads(bus.log(), slot(1)).last() == high);
        }
        assert(mmio::reads(bus.log(), slot(0)).last() == low);
        assert forall|j: int| 0 <= j < data@.len() implies mmio::reads(
            bus.log(),
            slot(j / 4),
        ).len() > 0 && #[trigger] data@[j] == words::byte_of(
            mmio::reads(bus.log(), slot(j / 4)).last(),
            j % 4,
        ) by {
            assert(j < 4 ==> j / 4 == 0 && j % 4 == j);
            assert(j >= 4 ==> j / 4 == 1 && j % 4 == j - 4);
        }
    }
    bus.write(CNFG, CONFIG);
    assert(mmio::writes(bus.log()) =~= whole);
    assert(closed_with(c, bus.log(), length as nat, read));
    assert(normal_run(bus.log(), addr, old(data)@, read, Ok(())));
    Ok(())
}

fn normal_prepare<R: Registers>(bus: &mut Bus<'_, R>, addr: u8, data: &mut [u8], read: bool) -> (r:
    u32)
    requires
        old(bus).log() == Seq::<Access>::empty(),
        acceptable(addr, old(data)@.len(), 8),
    ensures
        final(bus).port() == old(bus).port(),
        mmio::extends(old(bus).log(), final(bus).log()),
        final(data)@ == old(data)@,
        r == normal_config(old(data)@.len(), read),
        mmio::writes(final(bus).log()) == normal_setup(addr, old(data)@, read),
        final(bus).log() == written(normal_setup(addr, old(data)@, read)),
{
    let length: usize = data.len();
    settle(bus);
    let target: u32 = 2 * (addr as u32) + if read {
        1
    } else {
        0
    };
    bus.write(ADDRESS, target);
    let ghost head = quiet().push((ADDRESS, target));
    assert(mmio::writes(bus.log()) =~= head);
    assert(bus.log() =~= written(head));
    if !read {
        let count: usize = (length + 3) / 4;
        let mut k: usize = 0;
        while k < count
            invariant
                mmio::extends(old(bus).log(), bus.log()),
                data@ == old(data)@,
                data.len() == length,
                0 < length <= 8,
                count == (length + 3) / 4,
                k <= count,
                bus.port() == old(bus).port(),
                mmio::writes(bus.log()) =~= head + payload(data@, false, k as int),
                bus.log() =~= written(head + payload(data@, false, k as int)),
            decreases count - k,
        {
            let value: u32 = word(data, k);
            bus.write(DATA + 4 * k, value);
            assert(payload(data@, false, k + 1) =~= payload(
                data@,
                false,
                k as int,
            ).push((slot(k as int), value)));
            k = k + 1;
        }
    }
    let ghost body = head + payload(
        data@,
        false,
        if read {
            0
        } else {
            words::words(data@.len())
        },
    );
    assert(mmio::writes(bus.log()) =~= body);
    assert(bus.log() =~= written(body));
    let config: u32 = CONFIG + 2 * (length as u32 - 1) + if read {
        0x40
    } else {
        0
    };
    bus.write(CNFG, config);
    bus.write(CONFIG_LOAD, LOAD);
    assert(mmio::writes(bus.log()) =~= normal_setup(addr, data@, read));
    assert(bus.log() =~= written(normal_setup(addr, data@, read)));
    config
}

/// Waits until the message is off the bus. The four low status bits tell that it
/// was not acknowledged.
fn finish_message<R: Registers>(bus: &mut Bus<'_, R>, start: u64) -> (r: Result<(), Error>)
    requires
        old(bus).log().len() > 0,
        old(bus).log().last() == Access::Time(start),
    ensures
        final(bus).port() == old(bus).port(),
        mmio::writes(final(bus).log()) == mmio::writes(old(bus).log()),
        judged(old(bus).log(), final(bus).log(), r),
        r is Ok ==> r == Ok::<(), Error>(()),
        mmio::extends(old(bus).log(), final(bus).log()),
        r != Err::<(), Error>(Error::Invalid),
{
    let deadline: u64 = start.saturating_add(15_000_000);
    let ghost w = Wanted { offset: STATUS, mask: 0x100, set: false, deadline };
    let ghost since = bus.log().len() as int;
    let ghost mut looks: int = 0;
    let mut polls: u64 = u64::MAX;
    while polls > 0
        invariant
            w == (Wanted { offset: STATUS, mask: 0x100, set: false, deadline }),
            deadline == mmio::until(start, 15_000_000),
            old(bus).log().len() > 0,
            old(bus).log().last() == Access::Time(start),
            since == old(bus).log().len(),
            looks == u64::MAX - polls,
            bus.log().len() == since + 3 * looks,
            bus.port() == old(bus).port(),
            mmio::extends(old(bus).log(), bus.log()),
            forall|k: int| 0 <= k < looks ==> #[trigger] in_vain(bus.log(), since, k, w),
            mmio::writes(bus.log()) == mmio::writes(old(bus).log()),
        decreases polls,
    {
        let ghost before = bus.log();
        match check(bus, deadline) {
            Ok(_) => {},
            Err(e) => {
                proof {
                    still_in_vain(before, bus.log(), since, looks, w);
                    assert(ended(bus.log(), since, looks, w, Err(e)));
                }
                return Err(e);
            },
        }
        let status: u32 = bus.read(STATUS);
        proof {
            still_in_vain(before, bus.log(), since, looks, w);
        }
        if status & 0x100 == 0 {
            assert(ended(bus.log(), since, looks, w, Ok(())));
            if status & 0x0f != 0 {
                assert(not_acknowledged(bus.log()));
                return Err(Error::Nack);
            }
            return Ok(());
        }
        polls = polls - 1;
        proof {
            assert(in_vain(bus.log(), since, looks, w));
            looks = looks + 1;
        }
    }
    assert(ended(bus.log(), since, looks, w, Err(Error::Timeout)));
    Err(Error::Timeout)
}

/// Everything written by a bus clear up to where the pulses start.
pub open spec fn clear_setup() -> Seq<(usize, u32)> {
    quiet() + seq![(BUS_CLEAR_CONFIG, NINE_PULSES), (CONFIG_LOAD, LOAD)]
}

/// The pulses are started, and their time begins.
pub open spec fn pulsing(before: Seq<Access>, after: Seq<Access>) -> bool {
    &&& after.len() == before.len() + 2
    &&& mmio::extends(before, after)
    &&& after[before.len() as int] == Access::Write(BUS_CLEAR_CONFIG, (NINE_PULSES + 1) as u32)
    &&& after[before.len() as int + 1] is Time
}

/// Within five milliseconds of the last look at the clock the pulses are over, or the
/// wait failed.
pub open spec fn pulsed(before: Seq<Access>, after: Seq<Access>, r: Result<(), Error>) -> bool {
    &&& mmio::extends(before, after)
    &&& {
        before.last() matches Access::Time(t) && waited(
            before,
            after,
            Wanted {
                offset: INT_STATUS,
                mask: BUS_CLEAR_DONE,
                set: true,
                deadline: mmio::until(t, 5_000_000),
            },
            r,
        )
    }
}

/// The state of the bus is read, and the pulses are stopped.
pub open spec fn stopped_after(before: Seq<Access>, log: Seq<Access>, free: bool) -> bool {
    &&& log.len() == before.len() + 3
    &&& mmio::extends(before, log)
    &&& log[before.len() as int] matches Access::Read(o, v) && o == BUS_CLEAR_STATUS && (v & 1
        != 0) == free
    &&& log[before.len() as int + 1] == Access::Write(BUS_CLEAR_CONFIG, 0)
    &&& log[before.len() as int + 2] == Access::Write(INT_STATUS, u32::MAX)
}

/// A bus clear from its first access to its last.
pub open spec fn clear_run(log: Seq<Access>, r: Result<(), Error>) -> bool {
    let setup = written(clear_setup());
    ||| r is Err && loaded(setup, log, r)
    ||| exists|a: Seq<Access>, b: Seq<Access>, c: Seq<Access>, q: Result<(), Error>, free: bool|
        {
            &&& #[trigger] loaded(setup, a, Ok(()))
            &&& #[trigger] pulsing(a, b)
            &&& #[trigger] pulsed(b, c, q)
            &&& #[trigger] stopped_after(c, log, free)
            &&& r == if q is Err {
                q
            } else if free {
                Ok(())
            } else {
                Err(Error::Bus)
            }
        }
}

/// What a bus clear leaves behind. Once the pulses were started they are stopped
/// again, and the status is clean, whether they helped or not.
pub open spec fn clear_outcome(log: Seq<Access>, r: Result<(), Error>) -> bool {
    &&& r != Err::<(), Error>(Error::Invalid)
    &&& clear_run(log, r)
    &&& mmio::writes(log) == clear_setup() + seq![
        (BUS_CLEAR_CONFIG, (NINE_PULSES + 1) as u32),
        (BUS_CLEAR_CONFIG, 0u32),
        (INT_STATUS, u32::MAX),
    ] || r is Err && mmio::writes(log) == clear_setup()
    &&& r is Ok ==> mmio::reads(log, BUS_CLEAR_STATUS).len() > 0 && mmio::reads(
        log,
        BUS_CLEAR_STATUS,
    ).last() & 1 != 0
}

/// Releases a device that firmware or an interrupted message left holding SDA.
/// The pulses are bounded even if SCL stays stuck.
pub fn recover<R: Registers>(r: &R) -> (result: Result<(), Error>)
    ensures
        exists|log: Seq<Access>| mmio::answered(r, log) && #[trigger] clear_outcome(log, result),
{
    let mut bus = Bus::new(r);
    let result = recover_on(&mut bus);
    proof {
        use_type_invariant(&bus);
    }
    assert(clear_outcome(bus.log(), result));
    result
}

/// A bus clear on a fresh record of accesses.
pub fn recover_on<R: Registers>(bus: &mut Bus<'_, R>) -> (result: Result<(), Error>)
    requires
        old(bus).log() == Seq::<Access>::empty(),
    ensures
        final(bus).port() == old(bus).port(),
        mmio::extends(old(bus).log(), final(bus).log()),
        clear_outcome(final(bus).log(), result),
{
    settle(bus);
    bus.write(BUS_CLEAR_CONFIG, NINE_PULSES);
    bus.write(CONFIG_LOAD, LOAD);
    assert(mmio::writes(bus.log()) =~= clear_setup());
    assert(bus.log() =~= written(clear_setup()));
    let loading: u64 = bus.now_ns();
    assert(bus.log() =~= written(clear_setup()).push(Access::Time(loading)));
    let taken = wait(bus, CONFIG_LOAD, 1, false, loading.saturating_add(1_000_000));
    let ghost a = bus.log();
    proof {
        assert(a[written(clear_setup()).len() as int] == Access::Time(loading));
        assert(loaded(written(clear_setup()), a, taken));
    }
    if let Err(e) = taken {
        return Err(e);
    }
    bus.write(BUS_CLEAR_CONFIG, NINE_PULSES + 1);
    let clearing: u64 = bus.now_ns();
    let ghost b = bus.log();
    let result = wait(bus, INT_STATUS, BUS_CLEAR_DONE, true, clearing.saturating_add(5_000_000));
    let ghost c = bus.log();
    let cleared: u32 = bus.read(BUS_CLEAR_STATUS);
    bus.write(BUS_CLEAR_CONFIG, 0);
    bus.write(INT_STATUS, u32::MAX);
    assert(mmio::writes(bus.log()) =~= clear_setup() + seq![
        (BUS_CLEAR_CONFIG, (NINE_PULSES + 1) as u32),
        (BUS_CLEAR_CONFIG, 0u32),
        (INT_STATUS, u32::MAX),
    ]);
    proof {
        assert(pulsing(a, b));
        assert(pulsed(b, c, result));
        assert(stopped_after(c, bus.log(), cleared & 1 != 0));
    }
    if let Err(e) = result {
        return Err(e);
    }
    if cleared & 1 != 0 {
        Ok(())
    } else {
        Err(Error::Bus)
    }
}

/// Everything written on the way into packet mode.
pub open spec fn begin_writes() -> Seq<(usize, u32)> {
    quiet() + seq![(FIFO_CONTROL, 3u32), (CONFIG_LOAD, LOAD), (CNFG, (CONFIG + GO) as u32)]
}

/// The wait for a register to be clear, from a moment on, within a millisecond.
pub open spec fn clearing(offset: usize, mask: u32, start: u64) -> Wanted {
    Wanted { offset, mask, set: false, deadline: mmio::until(start, 1_000_000) }
}

/// The configuration is to be taken over, and is or is not.
pub open spec fn taken_over(
    before: Seq<Access>,
    after: Seq<Access>,
    start: u64,
    r: Result<(), Error>,
) -> bool {
    &&& mmio::extends(before, after)
    &&& {
        waited(
            before.push(Access::Write(CONFIG_LOAD, LOAD)),
            after,
            clearing(CONFIG_LOAD, 1, start),
            r,
        )
    }
}

/// What precedes the entry into packet mode: the queues are told to empty.
pub open spec fn emptying() -> Seq<Access> {
    written(begin_writes().take(4))
}

/// The queues are empty, or are not.
pub open spec fn emptied(after: Seq<Access>, start: u64, r: Result<(), Error>) -> bool {
    waited(emptying().push(Access::Time(start)), after, clearing(FIFO_CONTROL, 3, start), r)
}

/// Entry into packet mode within a millisecond of a moment.
pub open spec fn begun_at(log: Seq<Access>, start: u64, r: Result<(), Error>) -> bool {
    ||| r is Err && emptied(log, start, r)
    ||| r is Err && exists|a: Seq<Access>| #[trigger]
        emptied(a, start, Ok(())) && taken_over(a, log, start, r)
    ||| r is Ok && exists|a: Seq<Access>, b: Seq<Access>| #[trigger]
        emptied(a, start, Ok(())) && #[trigger] taken_over(a, b, start, Ok(())) && log == b.push(
            Access::Write(CNFG, (CONFIG + GO) as u32),
        )
}

/// Entry into packet mode from its first access to its last. Both waits share one
/// millisecond, which begins once the queues were told to empty.
pub open spec fn begin_run(log: Seq<Access>, r: Result<(), Error>) -> bool {
    &&& log.len() > emptying().len()
    &&& log[emptying().len() as int] matches Access::Time(start) && begun_at(log, start, r)
}

pub open spec fn begin_outcome(log: Seq<Access>, r: Result<(), Error>) -> bool {
    &&& r != Err::<(), Error>(Error::Invalid)
    &&& begin_run(log, r)
    &&& r is Ok ==> mmio::writes(log) == begin_writes()
    &&& r is Err ==> mmio::writes(log).is_prefix_of(begin_writes()) && mmio::writes(log).len()
        < begin_writes().len()
}

/// Enters packet mode with empty queues.
pub fn begin<R: Registers>(r: &R) -> (result: Result<(), Error>)
    ensures
        exists|log: Seq<Access>| mmio::answered(r, log) && #[trigger] begin_outcome(log, result),
{
    let mut bus = Bus::new(r);
    let result = begin_on(&mut bus);
    proof {
        use_type_invariant(&bus);
    }
    assert(begin_outcome(bus.log(), result));
    result
}

/// Entry into packet mode on a fresh record of accesses.
pub fn begin_on<R: Registers>(bus: &mut Bus<'_, R>) -> (result: Result<(), Error>)
    requires
        old(bus).log() == Seq::<Access>::empty(),
    ensures
        final(bus).port() == old(bus).port(),
        mmio::extends(old(bus).log(), final(bus).log()),
        begin_outcome(final(bus).log(), result),
        result is Ok ==> result == Ok::<(), Error>(()),
{
    settle(bus);
    bus.write(FIFO_CONTROL, 3);
    assert(mmio::writes(bus.log()) =~= begin_writes().take(4));
    let ghost setup = emptying();
    assert(bus.log() =~= setup);
    let start: u64 = bus.now_ns();
    let deadline: u64 = start.saturating_add(1_000_000);
    let ghost first = setup.push(Access::Time(start));
    assert(bus.log() =~= first);
    let empty = wait(bus, FIFO_CONTROL, 3, false, deadline);
    let ghost a = bus.log();
    proof {
        assert(first[setup.len() as int] == Access::Time(start));
        assert(a[setup.len() as int] == Access::Time(start));
        assert(emptied(a, start, empty));
    }
    if let Err(e) = empty {
        assert(begun_at(a, start, Err(e)));
        return Err(e);
    }
    bus.write(CONFIG_LOAD, LOAD);
    assert(mmio::writes(bus.log()) =~= begin_writes().take(5));
    let ghost second = a.push(Access::Write(CONFIG_LOAD, LOAD));
    assert(bus.log() == second);
    let taken = wait(bus, CONFIG_LOAD, 1, false, deadline);
    let ghost b = bus.log();
    proof {
        assert(second[setup.len() as int] == Access::Time(start));
        assert(b[setup.len() as int] == Access::Time(start));
        assert(emptied(a, start, Ok(())));
        assert(taken_over(a, b, start, taken));
    }
    if let Err(e) = taken {
        assert(begun_at(b, start, Err(e)));
        return Err(e);
    }
    bus.write(CNFG, CONFIG + GO);
    proof {
        assert(mmio::writes(bus.log()) =~= begin_writes());
        assert(bus.log()[setup.len() as int] == Access::Time(start));
        assert(taken_over(a, b, start, Ok(())));
        assert(begun_at(bus.log(), start, Ok(())));
    }
    Ok(())
}

/// The pause before packet mode is left: enough for the final STOP to leave the
/// pins.
pub const STOP_NS: u64 = 20_000;

/// The pause, during which only the clock is looked at, and then the way out.
pub open spec fn finish_outcome(log: Seq<Access>) -> bool {
    let end = log.len() - 3;
    &&& log.len() >= 5
    &&& forall|i: int| 0 <= i < end ==> #[trigger] log[i] is Time
    &&& log[0] matches Access::Time(start) && {
        ||| log[end - 1] matches Access::Time(now) && now >= mmio::until(start, STOP_NS)
        ||| end >= u64::MAX
    }
    &&& log[end] == Access::Write(CNFG, CONFIG)
    &&& log[end + 1] == Access::Write(FIFO_CONTROL, 3)
    &&& log[end + 2] == Access::Write(INT_STATUS, u32::MAX)
    &&& mmio::writes(log) == seq![
        (CNFG, CONFIG),
        (FIFO_CONTROL, 3u32),
        (INT_STATUS, u32::MAX),
    ]
}

/// Leaves packet mode.
pub fn finish<R: Registers>(r: &R)
    ensures
        exists|log: Seq<Access>| mmio::answered(r, log) && #[trigger] finish_outcome(log),
{
    let mut bus = Bus::new(r);
    finish_on(&mut bus);
    proof {
        use_type_invariant(&bus);
    }
    assert(finish_outcome(bus.log()));
}

/// The way out of packet mode on a fresh record of accesses.
pub fn finish_on<R: Registers>(bus: &mut Bus<'_, R>)
    requires
        old(bus).log() == Seq::<Access>::empty(),
    ensures
        final(bus).port() == old(bus).port(),
        mmio::extends(old(bus).log(), final(bus).log()),
        finish_outcome(final(bus).log()),
{
    let start: u64 = bus.now_ns();
    let end: u64 = start.saturating_add(STOP_NS);
    let mut now: u64 = bus.now_ns();
    let mut polls: u64 = u64::MAX;
    while polls > 0 && now < end
        invariant
            mmio::extends(old(bus).log(), bus.log()),
            mmio::writes(bus.log()) == Seq::<(usize, u32)>::empty(),
            bus.port() == old(bus).port(),
            bus.log().len() >= 2 + (u64::MAX - polls),
            forall|i: int| 0 <= i < bus.log().len() ==> #[trigger] bus.log()[i] is Time,
            bus.log()[0] == Access::Time(start),
            bus.log().last() == Access::Time(now),
        decreases polls,
    {
        now = bus.now_ns();
        polls = polls - 1;
    }
    bus.write(CNFG, CONFIG);
    bus.write(FIFO_CONTROL, 3);
    bus.write(INT_STATUS, u32::MAX);
    assert(mmio::writes(bus.log()) =~= seq![
        (CNFG, CONFIG),
        (FIFO_CONTROL, 3u32),
        (INT_STATUS, u32::MAX),
    ]);
}

/// Room in the queue of words to send.
pub open spec fn room(deadline: u64) -> Wanted {
    Wanted { offset: FIFO_STATUS, mask: 0xf0, set: true, deadline }
}

/// A word in the queue of received ones.
pub open spec fn arrival(deadline: u64) -> Wanted {
    Wanted { offset: FIFO_STATUS, mask: 0x0f, set: true, deadline }
}

/// The end of the packet.
pub open spec fn completion(deadline: u64) -> Wanted {
    Wanted { offset: INT_STATUS, mask: COMPLETE, set: true, deadline }
}

/// There was room, and the word was written.
pub open spec fn queued_one(
    before: Seq<Access>,
    after: Seq<Access>,
    word: u32,
    deadline: u64,
) -> bool {
    &&& mmio::extends(before, after)
    &&& after.len() > 0
    &&& after.last() == Access::Write(TX, word)
    &&& waited(before, after.drop_last(), room(deadline), Ok(()))
}

pub open spec fn queued_at(
    steps: Seq<Seq<Access>>,
    k: int,
    words: Seq<u32>,
    deadline: u64,
) -> bool {
    queued_one(steps[k], steps[k + 1], words[k], deadline)
}

/// The words were written one after the other, each once there was room.
pub open spec fn queued(
    steps: Seq<Seq<Access>>,
    before: Seq<Access>,
    words: Seq<u32>,
    deadline: u64,
) -> bool {
    &&& steps.len() == words.len() + 1
    &&& steps[0] == before
    &&& forall|k: int| 0 <= k < words.len() ==> #[trigger] queued_at(steps, k, words, deadline)
}

pub open spec fn all_queued(
    before: Seq<Access>,
    after: Seq<Access>,
    words: Seq<u32>,
    deadline: u64,
) -> bool {
    &&& mmio::extends(before, after)
    &&& {
        exists|steps: Seq<Seq<Access>>| #[trigger]
            queued(steps, before, words, deadline) && steps.last() == after
    }
}

/// Some of the words were written, and the wait for room for the next one failed.
pub open spec fn queue_stuck(
    before: Seq<Access>,
    after: Seq<Access>,
    words: Seq<u32>,
    deadline: u64,
    r: Result<(), Error>,
) -> bool {
    &&& mmio::extends(before, after)
    &&& {
        r is Err && exists|steps: Seq<Seq<Access>>, done: Seq<u32>| #[trigger]
            queued(steps, before, done, deadline) && done.len() < words.len() && done == words.take(
                done.len() as int,
            ) && waited(steps.last(), after, room(deadline), r)
    }
}

/// A word had arrived, and it was read.
pub open spec fn fetched_at(steps: Seq<Seq<Access>>, k: int, deadline: u64) -> bool {
    &&& steps[k + 1].len() > 0
    &&& steps[k + 1].last() matches Access::Read(o, _) && o == RX
    &&& waited(steps[k], steps[k + 1].drop_last(), arrival(deadline), Ok(()))
}

/// That many words were read one after the other, each once it had arrived.
pub open spec fn fetched(
    steps: Seq<Seq<Access>>,
    before: Seq<Access>,
    count: nat,
    deadline: u64,
) -> bool {
    &&& steps.len() == count + 1
    &&& steps[0] == before
    &&& forall|k: int| 0 <= k < count ==> #[trigger] fetched_at(steps, k, deadline)
}

pub open spec fn all_fetched(
    before: Seq<Access>,
    after: Seq<Access>,
    count: nat,
    deadline: u64,
) -> bool {
    &&& mmio::extends(before, after)
    &&& {
        exists|steps: Seq<Seq<Access>>| #[trigger]
            fetched(steps, before, count, deadline) && steps.last() == after
    }
}

/// Some of the words were read, and the wait for the next one failed.
pub open spec fn fetch_stuck(
    before: Seq<Access>,
    after: Seq<Access>,
    count: nat,
    deadline: u64,
    r: Result<(), Error>,
) -> bool {
    &&& mmio::extends(before, after)
    &&& {
        r is Err && exists|steps: Seq<Seq<Access>>, done: nat| #[trigger]
            fetched(steps, before, done, deadline) && done < count && waited(
                steps.last(),
                after,
                arrival(deadline),
                r,
            )
    }
}

/// Queues one word, once there is room.
fn push<R: Registers>(bus: &mut Bus<'_, R>, word: u32, deadline: u64) -> (r: Result<(), Error>)
    ensures
        final(bus).port() == old(bus).port(),
        r is Ok ==> mmio::writes(final(bus).log()) == mmio::writes(old(bus).log()).push(
            (TX, word),
        ),
        r is Ok ==> queued_one(old(bus).log(), final(bus).log(), word, deadline),
        r is Err ==> mmio::writes(final(bus).log()) == mmio::writes(old(bus).log()),
        r is Err ==> waited(old(bus).log(), final(bus).log(), room(deadline), r),
        mmio::extends(old(bus).log(), final(bus).log()),
        r != Err::<(), Error>(Error::Invalid),
        mmio::reads(final(bus).log(), RX) == mmio::reads(old(bus).log(), RX),
{
    let free = wait(bus, FIFO_STATUS, 0xf0, true, deadline);
    if let Err(e) = free {
        return Err(e);
    }
    let ghost found = bus.log();
    bus.write(TX, word);
    assert(bus.log().drop_last() =~= found);
    Ok(())
}

/// Address, direction and whether the bus is kept, with the packet's kind.
pub open spec fn header(addr: u8, read: bool, stop: bool) -> u32 {
    (0x2_0000 + 2 * addr + if read {
        0x8_0000int
    } else {
        0
    } + if stop {
        0int
    } else {
        0x1_0000
    }) as u32
}

/// The words of a packet: what follows, how long it is, whom it is for, and the bytes
/// where they are sent.
pub open spec fn packet_words(addr: u8, data: Seq<u8>, read: bool, stop: bool) -> Seq<u32> {
    Seq::new(
        3 + sent_words(data.len(), read),
        |k: int|
            if k == 0 {
                0x10u32
            } else if k == 1 {
                (data.len() - 1) as u32
            } else if k == 2 {
                header(addr, read, stop)
            } else {
                words::word_of(data, k - 3)
            },
    )
}

pub open spec fn sent_words(length: nat, read: bool) -> nat {
    if read {
        0
    } else {
        words::words(length) as nat
    }
}

pub open spec fn received_words(length: nat, read: bool) -> nat {
    if read {
        words::words(length) as nat
    } else {
        0
    }
}

/// Everything written by a packet that succeeds.
pub open spec fn packet_writes(addr: u8, data: Seq<u8>, read: bool, stop: bool) -> Seq<
    (usize, u32),
> {
    let queue = packet_words(addr, data, read, stop);
    seq![(INT_STATUS, u32::MAX)] + tx_writes(queue, queue.len() as int)
}

/// The first words of a packet as they are written.
pub open spec fn tx_writes(queue: Seq<u32>, count: int) -> Seq<(usize, u32)> {
    Seq::new(count as nat, |k: int| (TX, queue[k]))
}

/// A packet from its first access to its last. It has fifteen milliseconds.
pub open spec fn packet_run(
    log: Seq<Access>,
    addr: u8,
    data: Seq<u8>,
    read: bool,
    stop: bool,
    r: Result<(), Error>,
) -> bool {
    let queue = packet_words(addr, data, read, stop);
    let count = received_words(data.len(), read);
    &&& log.len() > 0
    &&& log[0] matches Access::Time(start) && {
        let deadline = mmio::until(start, 15_000_000);
        let first = seq![Access::Time(start), Access::Write(INT_STATUS, u32::MAX)];
        ||| queue_stuck(first, log, queue, deadline, r)
        ||| exists|a: Seq<Access>| #[trigger]
            all_queued(first, a, queue, deadline) && fetch_stuck(a, log, count, deadline, r)
        ||| exists|a: Seq<Access>, b: Seq<Access>| #[trigger]
            all_queued(first, a, queue, deadline) && #[trigger] all_fetched(a, b, count, deadline)
                && waited(b, log, completion(deadline), r)
    }
}

/// A byte is the one that came in a word, where that word was read, and else the one
/// that was there.
pub open spec fn filled(before: Seq<u8>, after: Seq<u8>, words: Seq<u32>) -> bool {
    forall|j: int|
        0 <= j < after.len() ==> #[trigger] after[j] == if j / 4 < words.len() {
            words::byte_of(words[j / 4], j % 4)
        } else {
            before[j]
        }
}

/// What a packet leaves behind, whatever the bus answered.
pub open spec fn packet_outcome(
    log: Seq<Access>,
    addr: u8,
    before: Seq<u8>,
    after: Seq<u8>,
    read: bool,
    stop: bool,
    r: Result<(), Error>,
) -> bool {
    &&& after.len() == before.len()
    &&& !read ==> after == before
    &&& r == Err::<(), Error>(Error::Invalid) <==> !acceptable(addr, before.len(), 256)
    &&& !acceptable(addr, before.len(), 256) ==> log == Seq::<Access>::empty()
    &&& acceptable(addr, before.len(), 256) ==> packet_run(log, addr, before, read, stop, r)
    &&& read ==> filled(before, after, mmio::reads(log, RX))
    &&& r is Ok ==> mmio::writes(log) == packet_writes(addr, before, read, stop)
    &&& r is Ok && read ==> mmio::reads(log, RX).len() == words::words(before.len())
    &&& r is Err ==> mmio::writes(log).is_prefix_of(packet_writes(addr, before, read, stop))
}

/// One packet. Without STOP the bus is kept for a repeated start.
pub fn transfer<R: Registers>(r: &R, addr: u8, data: &mut [u8], read: bool, stop: bool) -> (result:
    Result<(), Error>)
    ensures
        exists|log: Seq<Access>|
            mmio::answered(r, log) && #[trigger] packet_outcome(
                log,
                addr,
                old(data)@,
                final(data)@,
                read,
                stop,
                result,
            ),
{
    let mut bus = Bus::new(r);
    let result = transfer_on(&mut bus, addr, data, read, stop);
    proof {
        use_type_invariant(&bus);
    }
    assert(packet_outcome(bus.log(), addr, old(data)@, data@, read, stop, result));
    result
}

/// One packet on a fresh record of accesses.
pub fn transfer_on<R: Registers>(
    bus: &mut Bus<'_, R>,
    addr: u8,
    data: &mut [u8],
    read: bool,
    stop: bool,
) -> (result: Result<(), Error>)
    requires
        old(bus).log() == Seq::<Access>::empty(),
    ensures
        final(bus).port() == old(bus).port(),
        mmio::extends(old(bus).log(), final(bus).log()),
        packet_outcome(final(bus).log(), addr, old(data)@, final(data)@, read, stop, result),
        result is Ok ==> result == Ok::<(), Error>(()),
{
    let length: usize = data.len();
    if addr > 0x7f || length == 0 || length > MAX_PAYLOAD {
        return Err(Error::Invalid);
    }
    let ghost whole = packet_writes(addr, data@, read, stop);
    let ghost queue = packet_words(addr, data@, read, stop);
    let start: u64 = bus.now_ns();
    let deadline: u64 = start.saturating_add(15_000_000);
    bus.write(INT_STATUS, u32::MAX);
    let ghost first = seq![Access::Time(start), Access::Write(INT_STATUS, u32::MAX)];
    assert(bus.log() =~= first);
    assert(mmio::writes(bus.log()) =~= whole.take(1));
    assert(mmio::reads(bus.log(), RX) =~= seq![]);
    let head: u32 = 0x2_0000 + 2 * (addr as u32) + if read {
        0x8_0000
    } else {
        0
    } + if stop {
        0
    } else {
        0x1_0000
    };
    let total: usize = if read {
        3
    } else {
        3 + (length + 3) / 4
    };
    let queueing = send(bus, data, head, total, deadline, Ghost(queue));
    let ghost a = bus.log();
    proof {
        assert(a[0] == first[0]);
        assert(filled(old(data)@, data@, mmio::reads(bus.log(), RX)));
        let k = choose|k: int|
            0 <= k <= total && (queueing is Ok ==> k == total) && #[trigger] tx_writes(queue, k)
                == mmio::writes(a).skip(1) && seq![(INT_STATUS, u32::MAX)].is_prefix_of(
                mmio::writes(a),
            );
        assert(mmio::writes(first) =~= seq![(INT_STATUS, u32::MAX)]);
        assert(mmio::writes(a) =~= seq![(INT_STATUS, u32::MAX)] + tx_writes(queue, k));
        assert(mmio::writes(a) =~= whole.take(1 + k));
    }
    if let Err(e) = queueing {
        return Err(e);
    }
    assert(mmio::writes(bus.log()) =~= whole);
    let ghost count = received_words(data@.len(), read);
    if read {
        let fetching = receive(bus, data, deadline);
        assert(bus.log()[0] == a[0]);
        if let Err(e) = fetching {
            return Err(e);
        }
    } else {
        assert(fetched(seq![a], a, 0, deadline));
    }
    let ghost b = bus.log();
    assert(all_fetched(a, b, count, deadline));
    let result = wait(bus, INT_STATUS, COMPLETE, true, deadline);
    proof {
        assert(bus.log()[0] == b[0]);
        assert(waited(b, bus.log(), completion(deadline), result));
        assert(packet_run(bus.log(), addr, old(data)@, read, stop, result));
    }
    result
}

/// Reads the words of a packet in, each as it arrives.
fn receive<R: Registers>(
    bus: &mut Bus<'_, R>,
    data: &mut [u8],
    deadline: u64,
) -> (r: Result<(), Error>)
    requires
        mmio::reads(old(bus).log(), RX).len() == 0,
        old(data)@.len() <= 256,
    ensures
        final(bus).port() == old(bus).port(),
        mmio::extends(old(bus).log(), final(bus).log()),
        mmio::writes(final(bus).log()) == mmio::writes(old(bus).log()),
        final(data)@.len() == old(data)@.len(),
        r != Err::<(), Error>(Error::Invalid),
        filled(old(data)@, final(data)@, mmio::reads(final(bus).log(), RX)),
        r is Ok ==> mmio::reads(final(bus).log(), RX).len() == words::words(old(data)@.len()),
        r is Ok ==> all_fetched(
            old(bus).log(),
            final(bus).log(),
            words::words(old(data)@.len()) as nat,
            deadline,
        ),
        r is Err ==> fetch_stuck(
            old(bus).log(),
            final(bus).log(),
            words::words(old(data)@.len()) as nat,
            deadline,
            r,
        ),
{
    let length: usize = data.len();
    let count: usize = (length + 3) / 4;
    let mut k: usize = 0;
    let ghost mut steps: Seq<Seq<Access>> = seq![bus.log()];
    while k < count
        invariant
            data.len() == length,
            old(data)@.len() == length,
            length <= 256,
            count == (length + 3) / 4,
            k <= count,
            bus.port() == old(bus).port(),
            mmio::writes(bus.log()) == mmio::writes(old(bus).log()),
            mmio::extends(old(bus).log(), bus.log()),
            mmio::reads(bus.log(), RX).len() == k,
            filled(old(data)@, data@, mmio::reads(bus.log(), RX)),
            fetched(steps, old(bus).log(), k as nat, deadline),
            steps.last() == bus.log(),
        decreases count - k,
    {
        let ghost came = mmio::reads(bus.log(), RX);
        let ghost bytes = data@;
        let here = wait(bus, FIFO_STATUS, 0x0f, true, deadline);
        if let Err(e) = here {
            assert(waited(steps.last(), bus.log(), arrival(deadline), here));
            return Err(e);
        }
        let ghost found = bus.log();
        let value: u32 = bus.read(RX);
        assert(bus.log().drop_last() =~= found);
        assert(mmio::reads(bus.log(), RX) == came.push(value));
        unpack(data, 4 * k, value);
        proof {
            assert forall|j: int| 0 <= j < data@.len() implies #[trigger] data@[j] == if j / 4
                < came.push(value).len() {
                words::byte_of(came.push(value)[j / 4], j % 4)
            } else {
                old(data)@[j]
            } by {
                assert(j / 4 < k ==> data@[j] == bytes[j]);
                assert(j / 4 == k ==> j % 4 == j - 4 * k);
                assert(j / 4 > k ==> data@[j] == bytes[j]);
            }
            let before = steps;
            steps = steps.push(bus.log());
            assert forall|i: int| 0 <= i < k + 1 implies #[trigger] fetched_at(
                steps,
                i,
                deadline,
            ) by {
                if i < k {
                    assert(fetched_at(before, i, deadline));
                }
            }
        }
        k = k + 1;
    }
    Ok(())
}

/// Queues the head of a packet and what follows it.
fn send<R: Registers>(
    bus: &mut Bus<'_, R>,
    data: &[u8],
    head: u32,
    total: usize,
    deadline: u64,
    Ghost(queue): Ghost<Seq<u32>>,
) -> (r: Result<(), Error>)
    requires
        0 < data@.len() <= 256,
        queue.len() == total <= 3 + words::words(data@.len()),
        total >= 3,
        queue[0] == 0x10,
        queue[1] == data@.len() - 1,
        queue[2] == head,
        forall|k: int| 3 <= k < total ==> #[trigger] queue[k] == words::word_of(data@, k - 3),
    ensures
        final(bus).port() == old(bus).port(),
        mmio::extends(old(bus).log(), final(bus).log()),
        mmio::reads(final(bus).log(), RX) == mmio::reads(old(bus).log(), RX),
        r != Err::<(), Error>(Error::Invalid),
        r is Ok ==> all_queued(old(bus).log(), final(bus).log(), queue, deadline),
        r is Err ==> queue_stuck(old(bus).log(), final(bus).log(), queue, deadline, r),
        exists|k: int|
            0 <= k <= total && (r is Ok ==> k == total) && #[trigger] tx_writes(queue, k)
                == mmio::writes(final(bus).log()).skip(
                mmio::writes(old(bus).log()).len() as int,
            ) && mmio::writes(old(bus).log()).is_prefix_of(mmio::writes(final(bus).log())),
{
    let mut k: usize = 0;
    let ghost mut steps: Seq<Seq<Access>> = seq![bus.log()];
    let ghost base = mmio::writes(bus.log());
    assert(base =~= base + tx_writes(queue, 0));
    assert(queue.take(0) =~= seq![]);
    while k < total
        invariant
            0 < data@.len() <= 256,
            queue.len() == total <= 3 + words::words(data@.len()),
            total >= 3,
            queue[0] == 0x10,
            queue[1] == data@.len() - 1,
            queue[2] == head,
            forall|k: int| 3 <= k < total ==> #[trigger] queue[k] == words::word_of(data@, k - 3),
            k <= total,
            bus.port() == old(bus).port(),
            mmio::extends(old(bus).log(), bus.log()),
            mmio::reads(bus.log(), RX) == mmio::reads(old(bus).log(), RX),
            base == mmio::writes(old(bus).log()),
            mmio::writes(bus.log()) == base + tx_writes(queue, k as int),
            queued(steps, old(bus).log(), queue.take(k as int), deadline),
            steps.last() == bus.log(),
        decreases total - k,
    {
        let value: u32 = if k == 0 {
            0x10
        } else if k == 1 {
            data.len() as u32 - 1
        } else if k == 2 {
            head
        } else {
            word(data, k - 3)
        };
        let ghost here = bus.log();
        let pushed = push(bus, value, deadline);
        if let Err(e) = pushed {
            proof {
                assert(waited(steps.last(), bus.log(), room(deadline), pushed));
                assert(mmio::writes(bus.log()).skip(base.len() as int) =~= tx_writes(
                    queue,
                    k as int,
                ));
            }
            return Err(e);
        }
        proof {
            assert(base + tx_writes(queue, k + 1) =~= (base + tx_writes(queue, k as int)).push(
                (TX, value),
            ));
            let before = steps;
            steps = steps.push(bus.log());
            assert(queue.take(k + 1)[k as int] == value);
            assert forall|i: int| 0 <= i < k + 1 implies #[trigger] queued_at(
                steps,
                i,
                queue.take(k + 1),
                deadline,
            ) by {
                if i < k {
                    assert(queued_at(before, i, queue.take(k as int), deadline));
                }
            }
        }
        k = k + 1;
    }
    proof {
        assert(queue.take(total as int) =~= queue);
        assert(mmio::writes(bus.log()).skip(base.len() as int) =~= tx_writes(queue, total as int));
    }
    Ok(())
}

/// What ends a wait badly: the status shows the fault, or it shows none and the clock is
/// at the deadline. A clock that never gets there ends it as well.
pub open spec fn is_blamed(log: Seq<Access>, deadline: u64, e: Error) -> bool {
    ||| log.len() > 0 && (log.last() matches Access::Read(o, s) && o == INT_STATUS && fault(s)
        == Some(e))
    ||| e == Error::Timeout && log.len() > 1 && is_sound(log, log.len() - 2) && (
    log.last() matches Access::Time(t) && t >= deadline)
    ||| e == Error::Timeout && log.len() >= 3 * u64::MAX
}

proof fn lemma_blamed(before: Seq<Access>, after: Seq<Access>, w: Wanted, e: Error)
    requires
        waited(before, after, w, Err(e)),
    ensures
        is_blamed(after, w.deadline, e),
{
    let looks = choose|looks: int| #[trigger]
        ended(after, before.len() as int, looks, w, Err(e));
    assert(ended(after, before.len() as int, looks, w, Err(e)));
}

/// A packet that could be sent fails only for what the controller shows last, or once its
/// fifteen milliseconds are over.
pub proof fn a_failed_packet_has_its_cause(
    log: Seq<Access>,
    addr: u8,
    before: Seq<u8>,
    after: Seq<u8>,
    read: bool,
    stop: bool,
    e: Error,
)
    requires
        packet_outcome(log, addr, before, after, read, stop, Err(e)),
        e != Error::Invalid,
    ensures
        log.len() > 0,
        log[0] matches Access::Time(start) && is_blamed(log, mmio::until(start, 15_000_000), e),
{
    let r: Result<(), Error> = Err(e);
    let start = log[0]->Time_0;
    let deadline = mmio::until(start, 15_000_000);
    let first = seq![Access::Time(start), Access::Write(INT_STATUS, u32::MAX)];
    let queue = packet_words(addr, before, read, stop);
    let count = received_words(before.len(), read);
    assert(packet_run(log, addr, before, read, stop, r));
    if queue_stuck(first, log, queue, deadline, r) {
        let (steps, done) = choose|steps: Seq<Seq<Access>>, done: Seq<u32>| #[trigger]
            queued(steps, first, done, deadline) && done.len() < queue.len() && done == queue.take(
                done.len() as int,
            ) && waited(steps.last(), log, room(deadline), r);
        lemma_blamed(steps.last(), log, room(deadline), e);
    } else if exists|a: Seq<Access>| #[trigger]
        all_queued(first, a, queue, deadline) && fetch_stuck(a, log, count, deadline, r) {
        let a = choose|a: Seq<Access>| #[trigger]
            all_queued(first, a, queue, deadline) && fetch_stuck(a, log, count, deadline, r);
        let (steps, done) = choose|steps: Seq<Seq<Access>>, done: nat| #[trigger]
            fetched(steps, a, done, deadline) && done < count && waited(
                steps.last(),
                log,
                arrival(deadline),
                r,
            );
        lemma_blamed(steps.last(), log, arrival(deadline), e);
    } else {
        let (a, b) = choose|a: Seq<Access>, b: Seq<Access>| #[trigger]
            all_queued(first, a, queue, deadline) && #[trigger] all_fetched(a, b, count, deadline)
                && waited(b, log, completion(deadline), r);
        lemma_blamed(b, log, completion(deadline), e);
    }
}

/// A register-mode message that could be sent fails only for what the controller shows
/// last: a fault, a missing acknowledgement, or a deadline that a look at the clock set.
pub proof fn a_failed_message_has_its_cause(
    log: Seq<Access>,
    addr: u8,
    before: Seq<u8>,
    after: Seq<u8>,
    read: bool,
    e: Error,
)
    requires
        normal_outcome(log, addr, before, after, read, Err(e)),
        e != Error::Invalid,
    ensures
        after == before,
        (e == Error::Nack && not_acknowledged(log)) || exists|t: u64, limit: u64|
            (limit == 1_000_000 || limit == 15_000_000) && #[trigger] is_blamed(
                log,
                mmio::until(t, limit),
                e,
            ),
{
    let r: Result<(), Error> = Err(e);
    let setup = written(normal_setup(addr, before, read));
    let config = normal_config(before.len(), read);
    assert(normal_run(log, addr, before, read, r));
    if loaded(setup, log, r) {
        let t = log[setup.len() as int]->Time_0;
        lemma_blamed(
            setup.push(Access::Time(t)),
            log,
            Wanted { offset: CONFIG_LOAD, mask: 1, set: false, deadline: mmio::until(t, 1_000_000) },
            e,
        );
        assert(is_blamed(log, mmio::until(t, 1_000_000), e));
    } else {
        let (a, b) = choose|a: Seq<Access>, b: Seq<Access>| #[trigger]
            loaded(setup, a, Ok(())) && #[trigger] started(a, b, config) && judged(b, log, r);
        let t = b.last()->Time_0;
        let w = Wanted {
            offset: STATUS,
            mask: 0x100,
            set: false,
            deadline: mmio::until(t, 15_000_000),
        };
        if waited(b, log, w, r) {
            lemma_blamed(b, log, w, e);
            assert(is_blamed(log, mmio::until(t, 15_000_000), e));
        }
    }
}

/// Lost arbitration is told before a refusal, and a refusal before another fault of the bus.
pub proof fn faults_have_their_order(status: u32)
    ensures
        fault(status) == Some(Error::ArbitrationLost) <==> status & 4 != 0,
        fault(status) == Some(Error::Nack) <==> status & 4 == 0 && status & 8 != 0,
        fault(status) == Some(Error::Bus) <==> status & 4 == 0 && status & 8 == 0 && status & 0x30
            != 0,
        fault(status) is None <==> status & 4 == 0 && status & 8 == 0 && status & 0x30 == 0,
{
}

/// A packet tells its length, its address with the direction, and whether the bus is kept;
/// what is written follows it byte by byte, and nothing follows a read.
pub proof fn packets_tell_their_message(addr: u8, data: Seq<u8>, read: bool, stop: bool, i: int)
    requires
        addr <= 0x7f,
        0 < data.len() <= 256,
        0 <= i < data.len(),
    ensures
        ({
            let w = packet_words(addr, data, read, stop);
            &&& w.len() == 3 + if read {
                0int
            } else {
                (data.len() as int + 3) / 4
            }
            &&& w[0] == 0x10
            &&& w[1] + 1 == data.len()
            &&& w[2] % 0x100 == 2 * addr
            &&& w[2] / 0x1_0000 % 2 == if stop {
                0int
            } else {
                1
            }
            &&& w[2] / 0x2_0000 % 4 == 1
            &&& w[2] / 0x8_0000 == if read {
                1int
            } else {
                0
            }
            &&& !read ==> words::byte_of(w[3 + i / 4], i % 4) == data[i]
        }),
{
    words::words_hold_their_bytes(data, i);
}

/// A short message goes through registers: its address with the direction, its bytes four to
/// a register, and its length, less one, with the direction; then it is sent, and the
/// sending is switched off again.
pub proof fn short_messages_tell_themselves(addr: u8, data: Seq<u8>, read: bool, i: int)
    requires
        addr <= 0x7f,
        0 < data.len() <= 8,
        0 <= i < data.len(),
    ensures
        ({
            let w = normal_writes(addr, data, read);
            let n = if read {
                0int
            } else {
                (data.len() as int + 3) / 4
            };
            &&& w.len() == 8 + n
            &&& w[0] == (0x00usize, 0x2800u32) && w[1] == (0x64usize, 0u32) && w[2] == (
                0x68usize,
                0xffff_ffffu32,
            )
            &&& w[3].0 == 0x04 && w[3].1 / 2 == addr && w[3].1 % 2 == if read {
                1int
            } else {
                0
            }
            &&& !read ==> w[4 + i / 4].0 == 0x0c + 4 * (i / 4) && words::byte_of(
                w[4 + i / 4].1,
                i % 4,
            ) == data[i]
            &&& w[4 + n].0 == 0x00 && w[4 + n].1 / 2 % 8 + 1 == data.len() && w[4 + n].1 / 0x40 % 2
                == if read {
                1int
            } else {
                0
            }
            &&& w[4 + n].1 - w[4 + n].1 % 0x100 == 0x2800
            &&& w[5 + n] == (0x8cusize, 0x25u32)
            &&& w[6 + n].0 == 0x00 && w[6 + n].1 == w[4 + n].1 + 0x200
            &&& w[7 + n] == (0x00usize, 0x2800u32)
        }),
{
    words::words_hold_their_bytes(data, i);
    let n = if read {
        0
    } else {
        words::words(data.len())
    };
    let p = payload(data, false, n);
    let setup = normal_setup(addr, data, read);
    assert(p.len() == n);
    assert(setup.len() == 6 + n);
    assert(normal_writes(addr, data, read)[4 + n] == setup[4 + n]);
    if !read {
        assert(normal_writes(addr, data, read)[4 + i / 4] == p[i / 4]);
    }
}

/// What was received stands in its bytes, the lowest of a word first.
pub proof fn received_bytes_are_in_order(before: Seq<u8>, after: Seq<u8>, received: Seq<u32>, i: int)
    requires
        filled(before, after, received),
        0 <= i,
        4 * i + 3 < after.len(),
        i < received.len(),
    ensures
        after[4 * i] + 0x100 * after[4 * i + 1] + 0x1_0000 * after[4 * i + 2] + 0x100_0000 * after[4
            * i + 3] == received[i],
{
    words::bytes_make_their_word(received[i]);
    assert(after[4 * i] == words::byte_of(received[i], 0));
    assert(after[4 * i + 1] == words::byte_of(received[i], 1));
    assert(after[4 * i + 2] == words::byte_of(received[i], 2));
    assert(after[4 * i + 3] == words::byte_of(received[i], 3));
}

/// An address has seven bits, and a message at least one byte and no more than there is room
/// for.
pub proof fn addresses_have_seven_bits(addr: u8, length: nat, limit: nat)
    ensures
        acceptable(addr, length, limit) <==> addr < 128 && 1 <= length && length <= limit,
{
}

/// Room, arrival and completion are told by their own bits; a register that has to clear has
/// a millisecond.
pub proof fn waits_look_at_their_bits(deadline: u64, offset: usize, mask: u32, start: u64)
    requires
        start < 0x1000_0000_0000_0000,
    ensures
        room(deadline) == (Wanted { offset: 0x60, mask: 0xf0, set: true, deadline }),
        arrival(deadline) == (Wanted { offset: 0x60, mask: 0x0f, set: true, deadline }),
        completion(deadline) == (Wanted { offset: 0x68, mask: 0x80, set: true, deadline }),
        clearing(offset, mask, start) == (Wanted {
            offset,
            mask,
            set: false,
            deadline: (start + 1_000_000) as u64,
        }),
{
}

/// A bus is set up quiet, with its queues emptied and its rate loaded; a stuck bus gets nine
/// pulses.
pub proof fn buses_are_set_up_quiet(i: int)
    requires
        0 <= i < 3,
    ensures
        ({
            let b = begin_writes();
            let c = clear_setup();
            let q = quiet();
            &&& q == seq![(0x00usize, 0x2800u32), (0x64usize, 0u32), (0x68usize, 0xffff_ffffu32)]
            &&& b.len() == 6 && c.len() == 5
            &&& b[i] == q[i] && c[i] == q[i]
            &&& b[3] == (0x5cusize, 3u32) && b[4] == (0x8cusize, 0x25u32) && b[5] == (
                0x00usize,
                0x2c00u32,
            )
            &&& c[3] == (0x84usize, 0x9_0006u32) && c[4] == (0x8cusize, 0x25u32)
        }),
{
}

} // verus!
