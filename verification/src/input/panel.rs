//! Bringing the touch panel up, and reading its queue of events.
use vstd::prelude::*;

use crate::devicetree::{Node, NodeView};
use crate::i2c::{Chips, Wire};
use crate::input::touch;
use crate::input::touch::{decode, queued, supported_chip, Contact, Contacts, Event};
use crate::mmio;
use crate::mmio::{Access, Bus, Timed};
use crate::rtc::supply;
use crate::rtc::supply::enable_touch_supply;
use crate::soc::gpio;
use crate::soc::gpio::{pad, TegraGpio};
use crate::soc::map::PADS;

verus! {

/// The panel on the host's bus.
pub trait Panel {
    /// Writes some bytes, and tells whether the bus took them.
    fn write(&self, data: &[u8]) -> bool;

    /// Writes a command, then reads some bytes. Nothing comes back where the bus failed.
    fn read(&self, command: &[u8], length: usize) -> Option<Vec<u8>>;

    fn now_ns(&self) -> u64;

    fn sleep_ms(&self, ms: u64);
}

/// One exchange with the panel.
pub enum Step {
    Write(Seq<u8>, bool),
    Read(Seq<u8>, usize, Option<Seq<u8>>),
    Time(u64),
    Sleep(u64),
}

/// The panel was written to with these bytes.
pub open spec fn took<P: Panel>(port: &P, data: Seq<u8>, done: bool) -> bool {
    exists|bytes: &[u8]| (#[trigger] bytes@) == data && call_ensures(P::write, (port, bytes), done)
}

/// The panel answered a command so.
pub open spec fn gave<P: Panel>(
    port: &P,
    command: Seq<u8>,
    length: usize,
    reply: Option<Seq<u8>>,
) -> bool {
    exists|bytes: &[u8], r: Option<Vec<u8>>| (#[trigger] bytes@) == command
        && #[trigger] call_ensures(P::read, (port, bytes, length), r) && match r {
        None => reply is None,
        Some(read) => reply == Some(read@),
    }
}

/// What an exchange shows is what the host answered when it was called.
pub open spec fn answers<P: Panel>(port: &P, step: Step) -> bool {
    match step {
        Step::Write(data, done) => took(port, data, done),
        Step::Read(command, length, reply) => gave(port, command, length, reply),
        Step::Time(now) => call_ensures(P::now_ns, (port,), now),
        Step::Sleep(ms) => call_ensures(P::sleep_ms, (port, ms), ()),
    }
}

/// All of a record is what the host answered.
pub open spec fn answered<P: Panel>(port: &P, log: Seq<Step>) -> bool {
    forall|i: int| 0 <= i < log.len() ==> answers(port, #[trigger] log[i])
}

/// The only way by which verified code reaches the panel.
pub struct Line<'a, P: Panel> {
    port: &'a P,
    log: Ghost<Seq<Step>>,
}

impl<'a, P: Panel> Line<'a, P> {
    /// All exchanges so far.
    pub closed spec fn log(self) -> Seq<Step> {
        self.log@
    }

    /// Whose panel it is.
    pub closed spec fn port(self) -> &'a P {
        self.port
    }

    /// The record holds what the host answered, and nothing else.
    #[verifier::type_invariant]
    pub open spec fn genuine(self) -> bool {
        answered(self.port(), self.log())
    }

    pub fn new(port: &'a P) -> (line: Self)
        ensures
            line.log() == Seq::<Step>::empty(),
            line.port() == port,
    {
        Line { port, log: Ghost(Seq::empty()) }
    }

    fn write(&mut self, data: &[u8]) -> (r: Result<(), &'static str>)
        ensures
            final(self).port() == old(self).port(),
            final(self).log() == old(self).log().push(Step::Write(data@, r is Ok)),
            written(final(self).log()) == written(old(self).log()).push(data@),
            raw_events(final(self).log()) == raw_events(old(self).log()),
            r matches Err(e) ==> e == "FTM4 write failed",
    {
        let done: bool = self.port.write(data);
        proof {
            use_type_invariant(&*self);
            assert(took(self.port, data@, done));
            let before = self.log@;
            self.log@ = before.push(Step::Write(data@, done));
            assert(self.log@.drop_last() =~= before);
        }
        if done {
            Ok(())
        } else {
            Err("FTM4 write failed")
        }
    }

    fn read(&mut self, command: &[u8], length: usize) -> (r: Result<Vec<u8>, &'static str>)
        ensures
            final(self).port() == old(self).port(),
            written(final(self).log()) == written(old(self).log()),
            final(self).log().len() > 0,
            final(self).log().last() matches Step::Read(c, n, _) && c == command@ && n == length,
            match r {
                Ok(bytes) => {
                    &&& bytes@.len() == length
                    &&& final(self).log() == old(self).log().push(
                        Step::Read(command@, length, Some(bytes@)),
                    )
                    &&& raw_events(final(self).log()) == if command@ == event_command() && length
                        == 8 {
                        raw_events(old(self).log()).push(bytes@)
                    } else {
                        raw_events(old(self).log())
                    }
                },
                Err(e) => {
                    &&& final(self).log().len() == old(self).log().len() + 1
                    &&& final(self).log().drop_last() == old(self).log()
                    &&& broke(final(self).log(), e)
                    &&& raw_events(final(self).log()) == raw_events(old(self).log())
                },
            },
    {
        let result = self.port.read(command, length);
        match result {
            None => {
                proof {
                    use_type_invariant(&*self);
                    assert(call_ensures(P::read, (self.port, command, length), None));
                    assert(gave(self.port, command@, length, None));
                    let before = self.log@;
                    self.log@ = before.push(Step::Read(command@, length, None));
                    assert(self.log@.drop_last() =~= before);
                }
                Err("FTM4 read failed")
            },
            Some(bytes) => {
                proof {
                    use_type_invariant(&*self);
                    assert(call_ensures(P::read, (self.port, command, length), Some(bytes)));
                    assert(gave(self.port, command@, length, Some(bytes@)));
                    let before = self.log@;
                    self.log@ = before.push(Step::Read(command@, length, Some(bytes@)));
                    assert(self.log@.drop_last() =~= before);
                }
                if bytes.len() != length {
                    return Err("short FTM4 read");
                }
                Ok(bytes)
            },
        }
    }

    fn now_ns(&mut self) -> (now: u64)
        ensures
            final(self).port() == old(self).port(),
            final(self).log() == old(self).log().push(Step::Time(now)),
            written(final(self).log()) == written(old(self).log()),
            raw_events(final(self).log()) == raw_events(old(self).log()),
    {
        let now: u64 = self.port.now_ns();
        proof {
            use_type_invariant(&*self);
            let before = self.log@;
            self.log@ = before.push(Step::Time(now));
            assert(self.log@.drop_last() =~= before);
        }
        now
    }

    fn sleep_ms(&mut self, ms: u64)
        ensures
            final(self).port() == old(self).port(),
            final(self).log() == old(self).log().push(Step::Sleep(ms)),
            written(final(self).log()) == written(old(self).log()),
            raw_events(final(self).log()) == raw_events(old(self).log()),
    {
        self.port.sleep_ms(ms);
        proof {
            use_type_invariant(&*self);
            let before = self.log@;
            self.log@ = before.push(Step::Sleep(ms));
            assert(self.log@.drop_last() =~= before);
        }
    }
}

/// The command that reads one event.
pub open spec fn event_command() -> Seq<u8> {
    seq![0x85u8]
}

/// The events that were read whole, in order.
pub open spec fn raw_events(log: Seq<Step>) -> Seq<Seq<u8>>
    decreases log.len(),
{
    if log.len() == 0 {
        seq![]
    } else {
        match log.last() {
            Step::Read(command, 8, Some(bytes)) => if command == event_command() && bytes.len()
                == 8 {
                raw_events(log.drop_last()).push(bytes)
            } else {
                raw_events(log.drop_last())
            },
            _ => raw_events(log.drop_last()),
        }
    }
}

/// What was written, in order.
pub open spec fn written(log: Seq<Step>) -> Seq<Seq<u8>>
    decreases log.len(),
{
    if log.len() == 0 {
        seq![]
    } else {
        match log.last() {
            Step::Write(data, _) => written(log.drop_last()).push(data),
            _ => written(log.drop_last()),
        }
    }
}

/// The bus did not do the last exchange, or gave too little.
pub open spec fn broke(log: Seq<Step>, e: &'static str) -> bool {
    log.len() > 0 && match log.last() {
        Step::Write(_, false) => e == "FTM4 write failed",
        Step::Read(_, _, None) => e == "FTM4 read failed",
        Step::Read(_, length, Some(bytes)) => bytes.len() != length && e == "short FTM4 read",
        _ => false,
    }
}

/// The panel said that it is ready.
pub open spec fn said_ready(log: Seq<Step>) -> bool {
    log.len() > 0 && (log.last() matches Step::Read(_, 8, Some(event)) && event.len() == 8
        && event[0] == 0x10)
}

/// One look at a panel that is not ready yet, in time, and the wait behind it.
pub open spec fn not_ready(log: Seq<Step>, at: int, k: int, deadline: u64) -> bool {
    &&& log[at + 3 * k] matches Step::Read(c, 8, Some(event)) && c == event_command()
        && event.len() == 8 && event[0] != 0x10
    &&& log[at + 3 * k + 1] matches Step::Time(now) && now < deadline
    &&& log[at + 3 * k + 2] == Step::Sleep(20)
}

/// So many looks for nothing, and one that decides: the panel is ready, the bus broke, or
/// a quarter of a second has passed.
pub open spec fn ready_after(
    before: Seq<Step>,
    after: Seq<Step>,
    looks: int,
    start: u64,
    r: Result<(), &'static str>,
) -> bool {
    let at = before.len() as int + 1;
    let deadline = mmio::until(start, 250_000_000);
    &&& 0 <= looks && at + 3 * looks <= after.len()
    &&& after.take(at) == before.push(Step::Time(start))
    &&& forall|k: int| 0 <= k < looks ==> #[trigger] not_ready(after, at, k, deadline)
    &&& match r {
        Ok(_) => {
            &&& after.len() == at + 3 * looks + 1
            &&& after.last() matches Step::Read(c, _, _) && c == event_command()
            &&& said_ready(after)
        },
        Err(e) => {
            ||| {
                &&& after.len() == at + 3 * looks + 1
                &&& after.last() matches Step::Read(c, 8, _) && c == event_command()
                &&& broke(after, e)
            }
            ||| {
                &&& e == "FTM4 ready timeout"
                &&& after.len() == at + 3 * looks + 2
                &&& after[at + 3 * looks] matches Step::Read(c, 8, Some(event)) && c
                    == event_command() && event.len() == 8 && event[0] != 0x10
                &&& after.last() matches Step::Time(now) && now >= deadline
            }
            ||| e == "FTM4 ready timeout" && looks == u64::MAX && after.len() == at + 3 * looks
        },
    }
}

/// The panel was waited for.
pub open spec fn awaited(
    before: Seq<Step>,
    after: Seq<Step>,
    r: Result<(), &'static str>,
) -> bool {
    exists|looks: int, start: u64| #[trigger] ready_after(before, after, looks, start, r)
}

/// Looks at a panel that is not ready stay in the record.
proof fn lemma_not_ready(
    before: Seq<Step>,
    middle: Seq<Step>,
    after: Seq<Step>,
    looks: int,
    start: u64,
)
    requires
        0 <= looks,
        middle.len() == before.len() + 1 + 3 * looks,
        middle.len() <= after.len(),
        after.take(middle.len() as int) == middle,
        middle.take(before.len() as int + 1) == before.push(Step::Time(start)),
        forall|k: int|
            0 <= k < looks ==> #[trigger] not_ready(
                middle,
                before.len() as int + 1,
                k,
                mmio::until(start, 250_000_000),
            ),
    ensures
        after.take(before.len() as int + 1) == before.push(Step::Time(start)),
        forall|k: int|
            0 <= k < looks ==> #[trigger] not_ready(
                after,
                before.len() as int + 1,
                k,
                mmio::until(start, 250_000_000),
            ),
{
    let at = before.len() as int + 1;
    assert(after.take(at) =~= middle.take(at)) by {
        assert forall|i: int| 0 <= i < at implies after[i] == middle[i] by {
            assert(after.take(middle.len() as int)[i] == middle[i]);
        }
    }
    assert forall|k: int| 0 <= k < looks implies #[trigger] not_ready(
        after,
        at,
        k,
        mmio::until(start, 250_000_000),
    ) by {
        assert(not_ready(middle, at, k, mmio::until(start, 250_000_000)));
        let kept = after.take(middle.len() as int);
        assert(after[at + 3 * k] == kept[at + 3 * k]);
        assert(after[at + 3 * k + 1] == kept[at + 3 * k + 1]);
        assert(after[at + 3 * k + 2] == kept[at + 3 * k + 2]);
    }
}

/// Waits until the panel says that it is ready.
pub fn ready<P: Panel>(line: &mut Line<'_, P>) -> (r: Result<(), &'static str>)
    ensures
        final(line).port() == old(line).port(),
        written(final(line).log()) == written(old(line).log()),
        awaited(old(line).log(), final(line).log(), r),
        r is Ok ==> r == Ok::<(), &'static str>(()),
{
    let start: u64 = line.now_ns();
    let ghost before = old(line).log();
    assert(line.log().take(before.len() as int + 1) =~= line.log());
    let deadline: u64 = start.saturating_add(250_000_000);
    let mut left: u64 = u64::MAX;
    let ghost mut looks: int = 0;
    while left > 0
        invariant
            line.port() == old(line).port(),
            before == old(line).log(),
            deadline == mmio::until(start, 250_000_000),
            looks == u64::MAX - left,
            line.log().len() == before.len() + 1 + 3 * looks,
            line.log().take(before.len() as int + 1) == before.push(Step::Time(start)),
            forall|k: int|
                0 <= k < looks ==> #[trigger] not_ready(
                    line.log(),
                    before.len() as int + 1,
                    k,
                    mmio::until(start, 250_000_000),
                ),
            written(line.log()) == written(before),
        decreases left,
    {
        let ghost middle = line.log();
        let command: [u8; 1] = [0x85];
        assert(command@ =~= event_command());
        let event = match line.read(&command, 8) {
            Ok(event) => event,
            Err(e) => {
                proof {
                    assert(line.log().drop_last() =~= line.log().take(middle.len() as int));
                    lemma_not_ready(before, middle, line.log(), looks, start);
                    assert(ready_after(before, line.log(), looks, start, Err(e)));
                }
                return Err(e);
            },
        };
        proof {
            assert(line.log().take(middle.len() as int) =~= middle);
            lemma_not_ready(before, middle, line.log(), looks, start);
        }
        if event[0] == 0x10 {
            assert(ready_after(before, line.log(), looks, start, Ok(())));
            return Ok(());
        }
        let now: u64 = line.now_ns();
        proof {
            assert(line.log().take(middle.len() as int) =~= middle);
            lemma_not_ready(before, middle, line.log(), looks, start);
        }
        if now >= deadline {
            assert(ready_after(before, line.log(), looks, start, Err("FTM4 ready timeout")));
            return Err("FTM4 ready timeout");
        }
        line.sleep_ms(20);
        left = left - 1;
        proof {
            assert(line.log().take(middle.len() as int) =~= middle);
            lemma_not_ready(before, middle, line.log(), looks, start);
            assert(not_ready(line.log(), before.len() as int + 1, looks, deadline));
            looks = looks + 1;
        }
    }
    assert(ready_after(before, line.log(), looks, start, Err("FTM4 ready timeout")));
    Err("FTM4 ready timeout")
}

/// The exchanges that turn sensing on.
pub open spec fn sense_log() -> Seq<Step> {
    seq![
        Step::Write(seq![0xc3u8, 1], true),
        Step::Sleep(10),
        Step::Write(seq![0x93u8], true),
        Step::Write(seq![0xa1u8], true),
    ]
}

/// The bus did not take one of the writes that turn sensing on.
pub open spec fn sense_failed(before: Seq<Step>, after: Seq<Step>) -> bool {
    exists|n: int|
        0 <= n < 4 && (sense_log()[n] matches Step::Write(data, _) && after == (before
            + #[trigger] sense_log().take(n)).push(Step::Write(data, false)))
}

/// Turns sensing on.
pub fn sense<P: Panel>(line: &mut Line<'_, P>) -> (r: Result<(), &'static str>)
    ensures
        final(line).port() == old(line).port(),
        raw_events(final(line).log()) == raw_events(old(line).log()),
        final(line).log().len() > old(line).log().len(),
        match r {
            Ok(_) => final(line).log() == old(line).log() + sense_log(),
            Err(e) => e == "FTM4 write failed" && sense_failed(old(line).log(), final(line).log()),
        },
        r is Ok ==> r == Ok::<(), &'static str>(()),
{
    let ghost a = line.log();
    let mode: [u8; 2] = [0xc3, 1];
    assert(mode@ =~= seq![0xc3u8, 1]);
    let first = line.write(&mode);
    assert(line.log() =~= (a + sense_log().take(0)).push(Step::Write(mode@, first is Ok)));
    first?;
    line.sleep_ms(10);
    let on: [u8; 1] = [0x93];
    assert(on@ =~= seq![0x93u8]);
    let second = line.write(&on);
    assert(line.log() =~= (a + sense_log().take(2)).push(Step::Write(on@, second is Ok)));
    second?;
    let flush: [u8; 1] = [0xa1];
    assert(flush@ =~= seq![0xa1u8]);
    let third = line.write(&flush);
    assert(line.log() =~= (a + sense_log().take(3)).push(Step::Write(flush@, third is Ok)));
    third?;
    assert(line.log() =~= a + sense_log());
    Ok(())
}

/// What releases the panel from reset, as the pins see it.
pub open spec fn release_writes(reset: u32) -> (Seq<(usize, u32)>, Seq<(usize, u32)>) {
    (
        seq![
            ((PADS + 0x150) as usize, 5u32),
            gpio::masked_write(reset, 0xa0, false),
            gpio::masked_write(reset, 0x90, true),
            gpio::masked_write(reset, 0x80, true),
        ],
        seq![gpio::masked_write(reset, 0xa0, true)],
    )
}

/// The panel is put into reset and left there for 20 microseconds; it is released where
/// its supply came on.
pub open spec fn was_released(
    before: Seq<Access>,
    after: Seq<Access>,
    reset: u32,
    powered: bool,
) -> bool {
    &&& mmio::extends(before, after)
    &&& {
        exists|held: Seq<Access>|
            {
                let rested = #[trigger] held.push(Access::Delay(20));
                &&& mmio::extends(before, held)
                &&& mmio::writes(held) == mmio::writes(before) + release_writes(reset).0
                &&& if powered {
                    mmio::extends(rested, after) && mmio::writes(after) == mmio::writes(held)
                        + release_writes(reset).1
                } else {
                    after == rested
                }
            }
    }
}

/// Powers the panel, in reset, gives its supply a millisecond, and releases it. A panel
/// without its supply stays in reset.
pub fn power_up<R: Timed, C: Chips, P: Panel>(
    bus: &mut Bus<'_, R>,
    gpio: &TegraGpio,
    wire: &mut Wire<'_, C>,
    line: &mut Line<'_, P>,
    reset: u32,
) -> (r: Result<(), &'static str>)
    requires
        reset < gpio::PINS,
    ensures
        final(line).port() == old(line).port(),
        final(wire).port() == old(wire).port(),
        final(bus).port() == old(bus).port(),
        mmio::memory_kept(old(bus).log(), final(bus).log()),
        was_released(old(bus).log(), final(bus).log(), reset, r is Ok),
        r is Ok ==> supply::touch_switched(old(wire).log(), final(wire).log()),
        r is Ok ==> final(line).log() == old(line).log().push(Step::Sleep(1)),
        r matches Err(e) ==> supply::touch_failed(old(wire).log(), final(wire).log(), e),
        r is Err ==> final(line).log() == old(line).log(),
{
    let ghost start = bus.log();
    pad(bus, 0x150, 5)?;
    gpio.output(bus, reset, false)?;
    assert(mmio::writes(bus.log()) =~= mmio::writes(start) + release_writes(reset).0);
    let ghost held = bus.log();
    bus.delay_us(20);
    let ghost rested = held.push(Access::Delay(20));
    assert(bus.log() == rested);
    enable_touch_supply(wire)?;
    line.sleep_ms(1);
    gpio.set(bus, reset, true)?;
    assert(mmio::writes(bus.log()) =~= mmio::writes(held) + release_writes(reset).1);
    Ok(())
}

/// The command that resets the panel's program.
pub open spec fn reset_command() -> Seq<u8> {
    seq![0xb6u8, 0, 0x28, 0x80]
}

/// The command that reads what chip the panel has.
pub open spec fn chip_command() -> Seq<u8> {
    seq![0xb6u8, 0, 4]
}

/// What a start does before it waits for the panel.
pub open spec fn reset_log(before: Seq<Step>, taken: bool) -> Seq<Step> {
    before.push(Step::Sleep(25)).push(Step::Write(reset_command(), taken))
}

/// What is said of a panel that does not show the known chip.
pub open spec fn unknown_chip(reply: Option<Seq<u8>>) -> Option<&'static str> {
    match reply {
        None => Some("FTM4 read failed"),
        Some(id) => if id.len() != 7 {
            Some("short FTM4 read")
        } else if 256 * id[1] + id[2] != 0x3670 {
            Some("unsupported FTM4 chip ID")
        } else {
            None
        },
    }
}

/// The panel was started: power settles for 25 ms, its program is reset and gets 10 ms, it
/// is ready and of the known kind, and it senses. Or the first of these that failed is the
/// last thing that was done.
pub open spec fn was_started(
    before: Seq<Step>,
    after: Seq<Step>,
    r: Result<(), &'static str>,
) -> bool {
    let reset = reset_log(before, true).push(Step::Sleep(10));
    ||| r == Err::<(), &'static str>("FTM4 write failed") && after == reset_log(before, false)
    ||| r is Err && awaited(reset, after, r)
    ||| exists|middle: Seq<Step>, reply: Option<Seq<u8>>|
        {
            let shown = #[trigger] middle.push(Step::Read(chip_command(), 7, reply));
            &&& awaited(reset, middle, Ok(()))
            &&& match unknown_chip(reply) {
                Some(e) => r == Err::<(), &'static str>(e) && after == shown,
                None => match r {
                    Ok(_) => after == shown + sense_log(),
                    Err(e) => e == "FTM4 write failed" && sense_failed(shown, after),
                },
            }
        }
}

/// Starts the panel, once it is powered.
pub fn start<P: Panel>(line: &mut Line<'_, P>) -> (r: Result<(), &'static str>)
    ensures
        final(line).port() == old(line).port(),
        was_started(old(line).log(), final(line).log(), r),
{
    let ghost before = line.log();
    line.sleep_ms(25);
    let command: [u8; 4] = [0xb6, 0, 0x28, 0x80];
    assert(command@ =~= reset_command());
    let taken = line.write(&command);
    assert(line.log() == reset_log(before, taken is Ok));
    taken?;
    line.sleep_ms(10);
    ready(line)?;
    let ghost middle = line.log();
    let chip: [u8; 3] = [0xb6, 0, 4];
    assert(chip@ =~= chip_command());
    let read = line.read(&chip, 7);
    let ghost reply = line.log().last()->Read_2;
    let ghost shown = middle.push(Step::Read(chip_command(), 7, reply));
    assert(line.log() =~= shown);
    let bytes = read?;
    let id: [u8; 7] = [bytes[0], bytes[1], bytes[2], bytes[3], bytes[4], bytes[5], bytes[6]];
    if !supported_chip(id) {
        assert(unknown_chip(reply) == Some("unsupported FTM4 chip ID"));
        return Err("unsupported FTM4 chip ID");
    }
    assert(unknown_chip(reply) is None);
    sense(line)
}

/// Eight bytes as an event.
pub open spec fn event_spec(raw: Seq<u8>) -> Event {
    touch::decode_spec(raw)
}

/// The fingers after some events.
pub open spec fn applied(slots: Seq<Option<Contact>>, next: i32, raws: Seq<Seq<u8>>) -> (
    Seq<Option<Contact>>,
    i32,
)
    decreases raws.len(),
{
    if raws.len() == 0 {
        (slots, next)
    } else {
        let (s, n) = applied(slots, next, raws.drop_last());
        touch::apply_spec(s, n, event_spec(raws.last()))
    }
}

/// The command that reads how many events there are.
pub open spec fn queue_command() -> Seq<u8> {
    seq![0xb6u8, 0, 0x23]
}

/// How many events a round reads, by what the panel says.
pub open spec fn queue_length(count: u8) -> int {
    if count as int / 2 <= 32 {
        count as int / 2
    } else {
        32
    }
}

/// The exchanges that read some events.
pub open spec fn event_reads(raws: Seq<Seq<u8>>) -> Seq<Step> {
    Seq::new(raws.len(), |i: int| Step::Read(event_command(), 8, Some(raws[i])))
}

/// The queue was read: how many events there are, then that many; or up to one that says
/// that the panel started over, and sensing was turned on again.
pub open spec fn was_emptied(
    before: Seq<Step>,
    after: Seq<Step>,
    status: Seq<u8>,
    raws: Seq<Seq<u8>>,
) -> bool {
    let over = raws.len() > 0 && event_spec(raws.last()) is Reset;
    &&& status.len() == 2
    &&& forall|i: int| 0 <= i < raws.len() - 1 ==> !(event_spec(#[trigger] raws[i]) is Reset)
    &&& raws.len() <= queue_length(status[1])
    &&& !over ==> raws.len() == queue_length(status[1])
    &&& after == before.push(Step::Read(queue_command(), 2, Some(status))) + event_reads(raws) + if over {
        sense_log()
    } else {
        seq![]
    }
}

/// Reads the events of the panel's queue, and takes them over in order. A panel that
/// started over is set to sensing again.
pub fn round<P: Panel>(line: &mut Line<'_, P>, contacts: &mut Contacts) -> (r: Result<
    (),
    &'static str,
>)
    ensures
        final(line).port() == old(line).port(),
        ({
            let before = raw_events(old(line).log());
            let after = raw_events(final(line).log());
            &&& before.is_prefix_of(after)
            &&& after.len() <= before.len() + 32
            &&& (final(contacts).slots@, final(contacts).next) == applied(
                old(contacts).slots@,
                old(contacts).next,
                after.skip(before.len() as int),
            )
        }),
        r matches Err(e) ==> broke(final(line).log(), e),
        final(line).log().len() > old(line).log().len(),
        r is Ok ==> exists|status: Seq<u8>, raws: Seq<Seq<u8>>| #[trigger]
            was_emptied(old(line).log(), final(line).log(), status, raws),
{
    let ghost before = raw_events(line.log());
    let ghost slots = contacts.slots@;
    let ghost next = contacts.next;
    let command: [u8; 3] = [0xb6, 0, 0x23];
    assert(command@ =~= queue_command());
    let result = line.read(&command, 2);
    assert(raw_events(line.log()).skip(before.len() as int) =~= Seq::<Seq<u8>>::empty());
    let status = result?;
    let count: u8 = queued(status[1]);
    let ghost asked = line.log();
    let ghost mut raws: Seq<Seq<u8>> = seq![];
    assert(line.log() =~= asked + event_reads(raws));
    let mut i: u8 = 0;
    while i < count
        invariant
            line.port() == old(line).port(),
            i <= count <= 32,
            status@.len() == 2,
            count == queue_length(status@[1]),
            asked == old(line).log().push(Step::Read(queue_command(), 2, Some(status@))),
            line.log() =~= asked + event_reads(raws),
            raws.len() == i,
            forall|k: int| 0 <= k < raws.len() ==> !(event_spec(#[trigger] raws[k]) is Reset),
            before == raw_events(old(line).log()),
            slots == old(contacts).slots@,
            next == old(contacts).next,
            before.is_prefix_of(raw_events(line.log())),
            raw_events(line.log()).len() == before.len() + i,
            (contacts.slots@, contacts.next) == applied(
                slots,
                next,
                raw_events(line.log()).skip(before.len() as int),
            ),
        decreases count - i,
    {
        let ghost b = line.log();
        let ghost done = raw_events(b).skip(before.len() as int);
        let one: [u8; 1] = [0x85];
        assert(one@ =~= event_command());
        let bytes = line.read(&one, 8)?;
        let raw: [u8; 8] = [
            bytes[0],
            bytes[1],
            bytes[2],
            bytes[3],
            bytes[4],
            bytes[5],
            bytes[6],
            bytes[7],
        ];
        assert(raw@ =~= bytes@);
        let event = decode(raw);
        contacts.apply(event);
        proof {
            let all = raw_events(line.log()).skip(before.len() as int);
            assert(raw_events(line.log()) == raw_events(b).push(bytes@));
            assert(all =~= done.push(bytes@));
            assert(all.drop_last() =~= done);
            raws = raws.push(bytes@);
            assert(line.log() =~= asked + event_reads(raws));
        }
        let over: bool = match event {
            Event::Reset => true,
            _ => false,
        };
        if over {
            let r = sense(line);
            assert(r is Ok ==> was_emptied(old(line).log(), line.log(), status@, raws));
            return r;
        }
        i = i + 1;
    }
    assert(asked + event_reads(raws) + Seq::<Step>::empty() =~= asked + event_reads(raws));
    assert(was_emptied(old(line).log(), line.log(), status@, raws));
    Ok(())
}

/// What is wrong with the description of the panel, the first thing first.
pub open spec fn panel_error(device: NodeView) -> Option<&'static str> {
    if device.cell("reg"@, 0) != Some(0x49u32) || device.text("stm,regulator_avdd"@) != Some(
        "vdd-tp-2v9"@,
    ) {
        Some("unsupported FTM4 wiring")
    } else if device.cell("stm,vio-gpio"@, 0) is None {
        Some("FTM4 reset GPIO missing")
    } else if device.cell("stm,vio-gpio"@, 1) is None {
        Some("FTM4 reset pin missing")
    } else if device.cell("stm,vio-gpio"@, 1) != Some(79u32) || device.cell("stm,vio-gpio"@, 2)
        != Some(0u32) {
        Some("unsupported FTM4 reset pin")
    } else {
        None
    }
}

/// Checks the description of the panel; who has its pins comes back, and the pin.
pub fn check_panel(device: &Node) -> (r: Result<(u32, u32), &'static str>)
    ensures
        match r {
            Ok(pins) => panel_error(device@) is None && device@.cell("stm,vio-gpio"@, 0) == Some(
                pins.0,
            ) && pins.1 == 79,
            Err(e) => panel_error(device@) == Some(e),
        },
{
    let address: Option<u32> = device.cell("reg", 0);
    if address != Some(0x49u32) || !device.text_is("stm,regulator_avdd", "vdd-tp-2v9") {
        return Err("unsupported FTM4 wiring");
    }
    let provider: u32 = match device.cell("stm,vio-gpio", 0) {
        None => {
            return Err("FTM4 reset GPIO missing");
        },
        Some(provider) => provider,
    };
    let reset: u32 = match device.cell("stm,vio-gpio", 1) {
        None => {
            return Err("FTM4 reset pin missing");
        },
        Some(reset) => reset,
    };
    let flags: Option<u32> = device.cell("stm,vio-gpio", 2);
    if reset != 79 || flags != Some(0u32) {
        return Err("unsupported FTM4 reset pin");
    }
    Ok((provider, reset))
}

/// Checks the bus of the panel.
pub fn check_bus(number: u32) -> (r: Result<(), &'static str>)
    ensures
        r == if number == 3 {
            Ok::<(), &'static str>(())
        } else {
            Err("unsupported FTM4 I2C bus")
        },
{
    if number != 3 {
        return Err("unsupported FTM4 I2C bus");
    }
    Ok(())
}

/// A panel is taken if its reply has seven bytes and the second and third are its number; the
/// queue holds half of what it counts, and at most 32 events are taken from it.
pub proof fn panels_are_known_by_their_number(reply: Option<Seq<u8>>, count: u8)
    ensures
        unknown_chip(reply) is None <==> (reply matches Some(id) && id.len() == 7 && id[1] == 0x36
            && id[2] == 0x70),
        count < 64 ==> queue_length(count) == count as int / 2,
        count >= 64 ==> queue_length(count) == 32,
{
}

/// A panel is let go with its pin at rest first: low, driven, a pin; and then high.
pub proof fn panels_are_let_go(reset: u32)
    requires
        reset < gpio::PINS,
    ensures
        ({
            let (down, up) = release_writes(reset);
            &&& down.len() == 4 && up.len() == 1
            &&& down[0] == (0x7000_3150usize, 5u32)
            &&& down[1] == gpio::masked_write(reset, 0xa0, false)
            &&& down[2] == gpio::masked_write(reset, 0x90, true)
            &&& down[3] == gpio::masked_write(reset, 0x80, true)
            &&& up[0] == gpio::masked_write(reset, 0xa0, true)
        }),
{
}

/// What a panel is told, in bytes: a reset, the question for its number, that for its queue
/// and that for an event, each behind the others' prefixes.
pub proof fn panels_are_told_in_bytes(before: Seq<Step>, taken: bool)
    ensures
        reset_log(before, taken).len() == before.len() + 2,
        reset_log(before, taken)[before.len() as int] == Step::Sleep(25),
        reset_log(before, taken)[before.len() as int + 1] matches Step::Write(data, t) && t == taken
            && data.len() == 4 && data[0] == 0xb6 && data[1] == 0 && data[2] == 0x28 && data[3]
            == 0x80,
{
}

/// A panel is at 0x49 on its own supply, and its reset is the 79th pin, active high.
pub proof fn known_panels_are_taken(device: NodeView)
    ensures
        panel_error(device) is None <==> {
            &&& device.cell("reg"@, 0) == Some(0x49u32)
            &&& device.text("stm,regulator_avdd"@) == Some("vdd-tp-2v9"@)
            &&& device.cell("stm,vio-gpio"@, 0) is Some
            &&& device.cell("stm,vio-gpio"@, 1) == Some(79u32)
            &&& device.cell("stm,vio-gpio"@, 2) == Some(0u32)
        },
{
}

} // verus!
