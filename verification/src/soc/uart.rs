//! The serial lines of the rails: rate, send, receive, and the store that the
//! interrupt fills.
use vstd::prelude::*;

use crate::mmio;
use crate::mmio::{Access, Bus, Step, Timed};
use crate::soc::gpio;
use crate::soc::gpio::modify;

verus! {

pub const RBR: usize = 0;

pub const IER: usize = 4;

pub const FCR: usize = 8;

/// Where the FIFO control is written, the cause of an interrupt is read.
pub const IIR: usize = 8;

pub const LCR: usize = 0x0c;

pub const MCR: usize = 0x10;

pub const LSR: usize = 0x14;

pub const SPR: usize = 0x1c;

pub const CSR: usize = 0x20;

/// Queues on, with the triggers for direct access.
pub const FIFO_CONTROL: u32 = 0xc1;

/// Data, line status and receive timeout.
pub const RX_INTERRUPTS: u32 = 0x15;

/// The errors of a line: overrun, parity, framing, break.
pub const ERRORS: u32 = 0x1e;

/// The other side's and the own request to send are obeyed.
pub const FLOW: u32 = 0x60;

/// What went wrong on a line, with the first bytes that came before.
#[derive(Clone, Copy, Debug)]
pub struct UartRxError {
    pub status: u32,
    pub received: usize,
    pub sample: [u8; 16],
}

/// An error that tells of some bytes.
pub open spec fn tells(error: UartRxError, status: u32, bytes: Seq<u8>) -> bool {
    &&& error.status == status
    &&& error.received == bytes.len()
    &&& forall|i: int|
        0 <= i < 16 ==> #[trigger] error.sample@[i] == if i < bytes.len() {
            bytes[i]
        } else {
            0
        }
}

pub fn rx_error(status: u32, bytes: &[u8], count: usize) -> (r: UartRxError)
    requires
        count <= bytes@.len(),
    ensures
        tells(r, status, bytes@.take(count as int)),
{
    let mut sample: [u8; 16] = [0; 16];
    let mut i: usize = 0;
    while i < 16 && i < count
        invariant
            i <= 16,
            i <= count,
            count <= bytes@.len(),
            forall|j: int|
                0 <= j < 16 ==> #[trigger] sample@[j] == if j < i {
                    bytes@[j]
                } else {
                    0
                },
        decreases 16 - i,
    {
        sample[i] = bytes[i];
        i = i + 1;
    }
    UartRxError { status, received: count, sample }
}

/// How the queues are emptied: they are left before they are reset, and everything has
/// time to settle.
pub open spec fn clear_steps(clear: u32, baud: u32) -> Seq<Step> {
    seq![
        Step::Write(FCR, 0xc0),
        Step::Read(SPR),
        Step::Delay(60),
        Step::Write(FCR, 0xc0u32 | clear),
        Step::Write(FCR, 0xc1u32 | clear),
        Step::Read(SPR),
        Step::Delay(((2_000_000 + baud - 1) / baud as int) as u64),
    ]
}

/// What empties the queues: they are left before they are reset.
pub open spec fn clear_writes(clear: u32) -> Seq<(usize, u32)> {
    seq![(FCR, 0xc0u32), (FCR, 0xc0u32 | clear), (FCR, 0xc1u32 | clear)]
}

fn clear_fifos<R: Timed>(bus: &mut Bus<'_, R>, clear: u32, baud: u32)
    requires
        baud > 0,
    ensures
        final(bus).port() == old(bus).port(),
        mmio::memory_kept(old(bus).log(), final(bus).log()),
        mmio::writes(final(bus).log()) == mmio::writes(old(bus).log()) + clear_writes(clear),
        mmio::did(old(bus).log(), final(bus).log(), clear_steps(clear, baud)),
        forall|o: usize|
            #![trigger mmio::reads(final(bus).log(), o)]
            o != SPR ==> mmio::reads(final(bus).log(), o) == mmio::reads(old(bus).log(), o),
{
    bus.write(FCR, 0xc0);
    let _ = bus.read(SPR);
    bus.delay_us(60);
    bus.write(FCR, 0xc0 | clear);
    bus.write(FCR, 0xc1 | clear);
    let _ = bus.read(SPR);
    let wait: u64 = (2_000_000 + baud as u64 - 1) / baud as u64;
    bus.delay_us(wait);
    assert(mmio::writes(bus.log()) =~= mmio::writes(old(bus).log()) + clear_writes(clear));
}

/// What gives a line its rate: quiet first, then divisor, stop bits, empty queues and
/// flow control, and interrupts where somebody waits for them.
pub open spec fn configure_writes(log: Seq<Access>, baud: u32, interrupts: bool) -> Seq<
    (usize, u32),
> {
    seq![
        (IER, 0u32),
        (LCR, 0x83),
        (RBR, 1),
        (IER, 0),
        (LCR, if baud > 1_000_000 { 7u32 } else { 3 }),
        (FCR, FIFO_CONTROL),
        (MCR, 0),
    ] + clear_writes(6) + seq![
        (CSR, (gpio::changed(log, CSR) & !0u32) | 0x0a),
        (MCR, FLOW),
    ] + if interrupts {
        seq![(IER, RX_INTERRUPTS)]
    } else {
        seq![]
    }
}

/// How a line is made quiet and gets its rate.
pub open spec fn rate_steps(baud: u32) -> Seq<Step> {
    seq![
        Step::Write(IER, 0),
        Step::Write(LCR, 0x83),
        Step::Write(RBR, 1),
        Step::Write(IER, 0),
        Step::Write(LCR, if baud > 1_000_000 { 7u32 } else { 3 }),
        Step::Read(SPR),
        Step::Write(FCR, FIFO_CONTROL),
        Step::Read(SPR),
        Step::Delay(20),
        Step::Write(MCR, 0),
        Step::Delay(96),
    ]
}

/// How a line with its rate is opened again.
pub open spec fn open_steps(baud: u32, interrupts: bool) -> Seq<Step> {
    seq![
        Step::Write(MCR, FLOW),
        Step::Read(SPR),
        Step::Delay(((22_000_000 + baud - 1) / baud as int) as u64),
    ] + if interrupts {
        seq![Step::Write(IER, RX_INTERRUPTS), Step::Read(IER)]
    } else {
        seq![]
    }
}

/// A line got its rate: it was quiet, its queues were emptied, and it was opened again,
/// with all the time that each of this takes.
pub open spec fn was_configured(
    before: Seq<Access>,
    after: Seq<Access>,
    baud: u32,
    interrupts: bool,
) -> bool {
    &&& mmio::did(
        before,
        after,
        rate_steps(baud) + clear_steps(6, baud) + gpio::modify_steps(
            CSR,
            0,
            0x0a,
            mmio::value_at(after, before.len() as int + 18),
        ) + open_steps(baud, interrupts),
    )
    &&& mmio::only_wrote(before, after, configure_writes(after, baud, interrupts))
}

/// Gives a line its rate.
pub fn configure<R: Timed>(bus: &mut Bus<'_, R>, baud: u32, interrupts: bool)
    requires
        baud > 0,
    ensures
        final(bus).port() == old(bus).port(),
        mmio::memory_kept(old(bus).log(), final(bus).log()),
        was_configured(old(bus).log(), final(bus).log(), baud, interrupts),
{
    let ghost o = bus.log();
    bus.write(IER, 0);
    bus.write(LCR, 0x83);
    bus.write(RBR, 1);
    bus.write(IER, 0);
    let stop: u32 = if baud > 1_000_000 {
        7
    } else {
        3
    };
    bus.write(LCR, stop);
    let _ = bus.read(SPR);
    bus.write(FCR, FIFO_CONTROL);
    let _ = bus.read(SPR);
    bus.delay_us(20);
    bus.write(MCR, 0);
    bus.delay_us(96);
    let ghost a = bus.log();
    assert(mmio::did(o, a, rate_steps(baud)));
    clear_fifos(bus, 6, baud);
    let ghost b = bus.log();
    modify(bus, CSR, 0, 0x0a);
    let ghost c = bus.log();
    bus.write(MCR, FLOW);
    let _ = bus.read(SPR);
    let wait: u64 = (22_000_000 + baud as u64 - 1) / baud as u64;
    bus.delay_us(wait);
    if interrupts {
        bus.write(IER, RX_INTERRUPTS);
        let _ = bus.read(IER);
    }
    proof {
        let d = bus.log();
        let settled = mmio::value_at(c, b.len() as int);
        assert(b.len() == o.len() + 18);
        assert(mmio::value_at(d, o.len() as int + 18) == settled);
        assert(mmio::did(c, d, open_steps(baud, interrupts)));
        mmio::lemma_did(o, a, b, rate_steps(baud), clear_steps(6, baud));
        let first = rate_steps(baud) + clear_steps(6, baud);
        let change = gpio::modify_steps(CSR, 0, 0x0a, settled);
        mmio::lemma_did(o, b, c, first, change);
        mmio::lemma_did(o, c, d, first + change, open_steps(baud, interrupts));
    }
    assert(mmio::writes(bus.log()) =~= mmio::writes(old(bus).log()) + configure_writes(
        bus.log(),
        baud,
        interrupts,
    ));
}

/// Turns the receive interrupts on.
pub fn enable_rx_interrupts<R: Timed>(bus: &mut Bus<'_, R>)
    ensures
        final(bus).port() == old(bus).port(),
        mmio::memory_kept(old(bus).log(), final(bus).log()),
        mmio::writes(final(bus).log()) == mmio::writes(old(bus).log()).push((IER, RX_INTERRUPTS)),
{
    bus.write(IER, RX_INTERRUPTS);
    let _ = bus.read(IER);
}

/// What empties a line after an error: nobody may send meanwhile.
pub open spec fn recover_writes() -> Seq<(usize, u32)> {
    seq![(MCR, 0u32)] + clear_writes(2) + seq![(MCR, FLOW)]
}

/// How a line is emptied after an error, by what was read of its stop bits: two of them
/// are those of the fast rate.
pub open spec fn recover_steps(control: u32) -> Seq<Step> {
    let baud = if control & 4 != 0 {
        3_000_000u32
    } else {
        1_000_000
    };
    seq![Step::Write(MCR, 0), Step::Read(LCR)] + clear_steps(2, baud) + seq![
        Step::Write(MCR, FLOW),
        Step::Read(SPR),
    ]
}

pub fn recover_rx<R: Timed>(bus: &mut Bus<'_, R>)
    ensures
        final(bus).port() == old(bus).port(),
        mmio::memory_kept(old(bus).log(), final(bus).log()),
        mmio::writes(final(bus).log()) == mmio::writes(old(bus).log()) + recover_writes(),
        mmio::did(
            old(bus).log(),
            final(bus).log(),
            recover_steps(mmio::value_at(final(bus).log(), old(bus).log().len() as int + 1)),
        ),
{
    let ghost o = bus.log();
    bus.write(MCR, 0);
    let control: u32 = bus.read(LCR);
    let ghost a = bus.log();
    let baud: u32 = if control & 4 != 0 {
        3_000_000
    } else {
        1_000_000
    };
    clear_fifos(bus, 2, baud);
    let ghost b = bus.log();
    bus.write(MCR, FLOW);
    let _ = bus.read(SPR);
    proof {
        let c = bus.log();
        let first = seq![Step::Write(MCR, 0), Step::Read(LCR)];
        let last = seq![Step::Write(MCR, FLOW), Step::Read(SPR)];
        assert(mmio::did(o, a, first));
        assert(mmio::did(b, c, last));
        mmio::lemma_did(o, a, b, first, clear_steps(2, baud));
        mmio::lemma_did(o, b, c, first + clear_steps(2, baud), last);
        assert(mmio::value_at(c, o.len() as int + 1) == control);
    }
    assert(mmio::writes(bus.log()) =~= mmio::writes(old(bus).log()) + recover_writes());
}

/// The writes of some bytes.
pub open spec fn byte_writes(bytes: Seq<u8>) -> Seq<(usize, u32)> {
    Seq::new(bytes.len(), |i: int| (RBR, bytes[i] as u32))
}

/// A bit of the line's status was as wanted, in the reading that ended the wait.
pub open spec fn line_came(before: Seq<Access>, after: Seq<Access>, bit: u32, set: bool) -> bool {
    &&& mmio::quiet(before, after)
    &&& before.len() < after.len()
    &&& after.last() matches Access::Read(o, status) && o == LSR && (status & bit != 0) == set
}

/// Some bytes were queued, each behind a reading that shows room for it.
pub open spec fn were_queued(before: Seq<Access>, after: Seq<Access>, bytes: Seq<u8>) -> bool
    decreases bytes.len(),
{
    if bytes.len() == 0 {
        after == before
    } else {
        exists|a: Seq<Access>, room: Seq<Access>|
            {
                &&& were_queued(before, a, bytes.drop_last())
                &&& #[trigger] line_came(a, room, 0x100, false)
                &&& after == room.push(Access::Write(RBR, bytes.last() as u32))
            }
    }
}

/// Bytes were sent: behind a look at the clock they were queued, and the last has gone out.
pub open spec fn were_sent(before: Seq<Access>, after: Seq<Access>, bytes: Seq<u8>) -> bool {
    &&& mmio::only_wrote(before, after, byte_writes(bytes))
    &&& exists|start: u64, queued: Seq<Access>| #[trigger]
        were_queued(before.push(Access::Time(start)), queued, bytes) && line_came(
            queued,
            after,
            0x40,
            true,
        )
}

/// A bit of the line's status was not as wanted until some moment.
pub open spec fn line_late(
    before: Seq<Access>,
    after: Seq<Access>,
    bit: u32,
    set: bool,
    deadline: u64,
) -> bool {
    &&& mmio::quiet(before, after)
    &&& mmio::tried(before, after, LSR)
    &&& (mmio::last(after, LSR) & bit != 0) != set
    &&& (after.last() matches Access::Time(now) && now >= deadline) || after.len() - before.len()
        >= 0x1_0000_0000_0000
}

/// Waits for a bit of the line's status.
fn wait_line<R: Timed>(bus: &mut Bus<'_, R>, bit: u32, set: bool, deadline: u64) -> (r: bool)
    ensures
        final(bus).port() == old(bus).port(),
        mmio::quiet(old(bus).log(), final(bus).log()),
        r ==> line_came(old(bus).log(), final(bus).log(), bit, set),
        !r ==> line_late(old(bus).log(), final(bus).log(), bit, set, deadline),
{
    let mut left: u64 = 0x1_0000_0000_0000;
    while left > 0
        invariant
            bus.port() == old(bus).port(),
            left <= 0x1_0000_0000_0000,
            bus.log().len() == old(bus).log().len() + 2 * (0x1_0000_0000_0000 - left),
            left < 0x1_0000_0000_0000 ==> mmio::tried(old(bus).log(), bus.log(), LSR) && (
            mmio::last(bus.log(), LSR) & bit != 0) != set,
            left == 0x1_0000_0000_0000 ==> mmio::reads(bus.log(), LSR) == mmio::reads(
                old(bus).log(),
                LSR,
            ),
            mmio::quiet(old(bus).log(), bus.log()),
        decreases left,
    {
        let status: u32 = bus.read(LSR);
        if (status & bit != 0) == set {
            return true;
        }
        let now: u64 = bus.now_ns();
        if now >= deadline {
            return false;
        }
        left = left - 1;
    }
    false
}

/// Bytes were not sent within a tenth of a second: the queue has no room for one of them
/// until then, or the last does not go out.
pub open spec fn send_failed(
    before: Seq<Access>,
    after: Seq<Access>,
    bytes: Seq<u8>,
    e: &'static str,
) -> bool {
    exists|start: u64, k: int, a: Seq<Access>|
        {
            let deadline = mmio::until(start, 100_000_000);
            &&& 0 <= k <= bytes.len()
            &&& #[trigger] were_queued(before.push(Access::Time(start)), a, bytes.take(k))
            &&& if k < bytes.len() {
                e == "rail UART TX timeout" && line_late(a, after, 0x100, false, deadline)
            } else {
                e == "rail UART drain timeout" && line_late(a, after, 0x40, true, deadline)
            }
        }
}

/// Sends bytes, each as soon as the queue has room, and waits until the last has gone
/// out. All of it has a tenth of a second.
pub fn send<R: Timed>(bus: &mut Bus<'_, R>, bytes: &[u8]) -> (r: Result<(), &'static str>)
    ensures
        final(bus).port() == old(bus).port(),
        mmio::memory_kept(old(bus).log(), final(bus).log()),
        match r {
            Ok(_) => were_sent(old(bus).log(), final(bus).log(), bytes@),
            Err(e) => send_failed(old(bus).log(), final(bus).log(), bytes@, e),
        },
{
    let start: u64 = bus.now_ns();
    let ghost began = bus.log();
    let deadline: u64 = start.saturating_add(100_000_000);
    let count: usize = bytes.len();
    let mut i: usize = 0;
    assert(bytes@.take(0) =~= Seq::<u8>::empty());
    assert(mmio::writes(bus.log()) =~= mmio::writes(old(bus).log()) + byte_writes(bytes@.take(0)));
    while i < count
        invariant
            bus.port() == old(bus).port(),
            i <= count,
            count == bytes@.len(),
            deadline == mmio::until(start, 100_000_000),
            began == old(bus).log().push(Access::Time(start)),
            mmio::memory_kept(old(bus).log(), bus.log()),
            were_queued(began, bus.log(), bytes@.take(i as int)),
            mmio::writes(bus.log()) =~= mmio::writes(old(bus).log()) + byte_writes(
                bytes@.take(i as int),
            ),
        decreases count - i,
    {
        let ghost a = bus.log();
        if !wait_line(bus, 0x100, false, deadline) {
            assert(were_queued(began, a, bytes@.take(i as int)));
            return Err("rail UART TX timeout");
        }
        let ghost room = bus.log();
        bus.write(RBR, bytes[i] as u32);
        i = i + 1;
        proof {
            let so_far = bytes@.take(i as int);
            assert(so_far.drop_last() =~= bytes@.take(i - 1));
            assert(line_came(a, room, 0x100, false));
            assert(were_queued(began, bus.log(), so_far));
            assert(mmio::writes(bus.log()) =~= mmio::writes(old(bus).log()) + byte_writes(so_far));
        }
    }
    assert(bytes@.take(count as int) =~= bytes@);
    let ghost a = bus.log();
    if !wait_line(bus, 0x40, true, deadline) {
        assert(were_queued(began, a, bytes@.take(count as int)));
        return Err("rail UART drain timeout");
    }
    assert(were_queued(began, a, bytes@));
    Ok(())
}

/// The store that the interrupt fills: the oldest byte first.
pub struct UartRxInterrupt {
    bytes: [u8; 512],
    head: usize,
    len: usize,
    errors: u32,
}

impl UartRxInterrupt {
    pub closed spec fn wf(self) -> bool {
        self.head < 512 && self.len <= 512
    }

    /// The bytes in it.
    pub closed spec fn content(self) -> Seq<u8> {
        Seq::new(self.len as nat, |i: int| self.bytes@[(self.head + i) % 512])
    }

    pub closed spec fn errors(self) -> u32 {
        self.errors
    }

    pub fn new() -> (r: Self)
        ensures
            r.wf(),
            r.content() == Seq::<u8>::empty(),
            r.errors() == 0,
    {
        let r = UartRxInterrupt { bytes: [0; 512], head: 0, len: 0, errors: 0 };
        assert(r.content() =~= Seq::<u8>::empty());
        r
    }

    /// Forgets everything.
    pub fn clear(&mut self)
        ensures
            final(self).wf(),
            final(self).content() == Seq::<u8>::empty(),
            final(self).errors() == 0,
    {
        self.head = 0;
        self.len = 0;
        self.errors = 0;
        assert(self.content() =~= Seq::<u8>::empty());
    }

    /// Whether there is something for the reader.
    pub fn pending(&self) -> (r: bool)
        requires
            self.wf(),
        ensures
            r == (self.content().len() != 0 || self.errors() != 0),
    {
        self.len != 0 || self.errors != 0
    }

    /// What one step of the interrupt does to the store.
    pub open spec fn stored(self, status: u32, byte: u8, after: Self) -> bool {
        if status & 1 == 0 {
            after.content() == self.content() && after.errors() == self.errors() | (status & ERRORS)
        } else if self.content().len() < 512 {
            after.content() == self.content().push(byte) && after.errors() == self.errors() | (
            status & ERRORS)
        } else {
            after.content() == self.content() && after.errors() == (self.errors() | (status
                & ERRORS)) | 2
        }
    }

    /// Takes a reading of the line. A byte that finds no room is an overrun: what is
    /// stored is never spliced.
    pub fn store(&mut self, status: u32, byte: u8)
        requires
            old(self).wf(),
        ensures
            final(self).wf(),
            old(self).stored(status, byte, *final(self)),
    {
        self.errors = self.errors | (status & ERRORS);
        if status & 1 != 0 {
            if self.len < 512 {
                let tail: usize = (self.head + self.len) % 512;
                let ghost before = self.content();
                self.bytes[tail] = byte;
                self.len = self.len + 1;
                proof {
                    assert forall|i: int| 0 <= i < before.len() implies #[trigger] self.content()[i]
                        == before[i] by {
                        assert((self.head + i) % 512 != tail);
                    }
                    assert(self.content() =~= before.push(byte));
                }
            } else {
                self.errors = self.errors | 2;
            }
        }
        assert(old(self).len >= 512 || status & 1 == 0 ==> self.content() =~= old(self).content());
    }

    /// One step took a byte that the line had ready.
    pub open spec fn step_taken(stores: Seq<Self>, k: int, log: Seq<Access>, since: int) -> bool {
        &&& log[since + 2 * k] matches Access::Read(o, status) && o == LSR && status & 1 != 0 && (
        log[since + 2 * k + 1] matches Access::Read(o, word) && o == RBR && stores[k].stored(
            status,
            (word % 256) as u8,
            stores[k + 1],
        ))
    }

    /// The store after each step, until the line has no byte ready or 256 were taken.
    pub open spec fn claimed(
        stores: Seq<Self>,
        before: Self,
        after: Self,
        log: Seq<Access>,
        since: int,
    ) -> bool {
        let n = stores.len() - 1;
        &&& 0 <= n <= 256
        &&& stores[0] == before
        &&& forall|k: int| 0 <= k < n ==> #[trigger] Self::step_taken(stores, k, log, since)
        &&& if n == 256 {
            log.len() == since + 512 && after == stores[n]
        } else {
            &&& log.len() == since + 2 * n + 1
            &&& log[since + 2 * n] matches Access::Read(o, status) && o == LSR && status & 1 == 0
                && stores[n].stored(status, 0, after)
        }
    }

    /// Empties what the line has by now, at most 256 bytes, and tells whether the reader
    /// should wake. An interrupt that comes late, when the reader has emptied the line,
    /// finds no cause and is done with.
    pub fn claim<R: Timed>(&mut self, bus: &mut Bus<'_, R>) -> (r: bool)
        requires
            old(self).wf(),
        ensures
            final(bus).port() == old(bus).port(),
            final(self).wf(),
            mmio::quiet(old(bus).log(), final(bus).log()),
            ({
                let since = old(bus).log().len() as int;
                &&& final(bus).log().len() > since
                &&& final(bus).log()[since] matches Access::Read(o, cause) && o == IIR && if cause & 1
                    != 0 {
                    !r && *final(self) == *old(self) && final(bus).log().len() == since + 1
                } else {
                    &&& exists|stores: Seq<Self>| #[trigger]
                        Self::claimed(
                            stores,
                            *old(self),
                            *final(self),
                            final(bus).log(),
                            since + 1,
                        )
                    &&& r == (final(self).content().len() != 0 || final(self).errors() != 0)
                }
            }),
            old(self).content().len() <= final(self).content().len(),
            final(self).content().take(old(self).content().len() as int) == old(self).content(),
    {
        let cause: u32 = bus.read(IIR);
        if cause & 1 != 0 {
            assert(self.content().take(old(self).content().len() as int) =~= old(self).content());
            return false;
        }
        let mut left: u32 = 256;
        let ghost since = bus.log().len() as int;
        assert(self.content().take(old(self).content().len() as int) =~= old(self).content());
        let ghost mut stores: Seq<Self> = seq![*self];
        while left > 0
            invariant
                bus.port() == old(bus).port(),
                self.wf(),
                left <= 256,
                since == old(bus).log().len() + 1,
                cause & 1 == 0,
                bus.log()[since - 1] == Access::Read(IIR, cause),
                stores.len() == 257 - left,
                stores[0] == *old(self),
                stores.last() == *self,
                bus.log().len() == since + 2 * (256 - left),
                forall|k: int|
                    0 <= k < 256 - left ==> #[trigger] Self::step_taken(
                        stores,
                        k,
                        bus.log(),
                        since,
                    ),
                mmio::quiet(old(bus).log(), bus.log()),
                old(self).content().len() <= self.content().len(),
                self.content().take(old(self).content().len() as int) =~= old(self).content(),
            decreases left,
        {
            let ghost before = *self;
            let ghost log = bus.log();
            let status: u32 = bus.read(LSR);
            if status & 1 == 0 {
                self.store(status, 0);
                proof {
                    assert forall|k: int| 0 <= k < 256 - left implies #[trigger] Self::step_taken(
                        stores,
                        k,
                        bus.log(),
                        since,
                    ) by {
                        assert(Self::step_taken(stores, k, log, since));
                    }
                    assert(Self::claimed(stores, *old(self), *self, bus.log(), since));
                    assert(self.content().take(old(self).content().len() as int)
                        =~= before.content().take(old(self).content().len() as int));
                }
                return self.pending();
            }
            let word: u32 = bus.read(RBR);
            self.store(status, (word % 256) as u8);
            proof {
                let longer = stores.push(*self);
                assert forall|k: int| 0 <= k < 257 - left implies #[trigger] Self::step_taken(
                    longer,
                    k,
                    bus.log(),
                    since,
                ) by {
                    if k < 256 - left {
                        assert(Self::step_taken(stores, k, log, since));
                    }
                }
                stores = longer;
            }
            assert(self.content().take(before.content().len() as int) =~= before.content());
            assert(self.content().take(old(self).content().len() as int) =~= before.content().take(
                old(self).content().len() as int,
            ));
            left = left - 1;
        }
        assert(Self::claimed(stores, *old(self), *self, bus.log(), since));
        self.pending()
    }

    /// Gives the oldest bytes to the reader. After an error the rest is dropped.
    pub fn take(&mut self, bytes: &mut [u8]) -> (r: Result<usize, UartRxError>)
        requires
            old(self).wf(),
        ensures
            final(self).wf(),
            final(self).errors() == 0,
            final(bytes)@.len() == old(bytes)@.len(),
            ({
                let stored = old(self).content();
                let count = if old(bytes)@.len() < stored.len() {
                    old(bytes)@.len() as int
                } else {
                    stored.len() as int
                };
                &&& forall|i: int|
                    0 <= i < final(bytes)@.len() ==> #[trigger] final(bytes)@[i] == if i < count {
                        stored[i]
                    } else {
                        old(bytes)@[i]
                    }
                &&& match r {
                    Ok(n) => old(self).errors() == 0 && n == count && final(self).content()
                        == stored.skip(count),
                    Err(e) => old(self).errors() != 0 && tells(
                        e,
                        old(self).errors(),
                        stored.take(count),
                    ) && final(self).content() == Seq::<u8>::empty(),
                }
            }),
    {
        let room: usize = bytes.len();
        let count: usize = if room < self.len {
            room
        } else {
            self.len
        };
        let ghost stored = self.content();
        let mut i: usize = 0;
        while i < count
            invariant
                i <= count,
                count <= room,
                room == bytes@.len(),
                bytes@.len() == old(bytes)@.len(),
                self.wf(),
                count <= stored.len(),
                stored == old(self).content(),
                self.len == old(self).len,
                self.len == stored.len(),
                self.bytes == old(self).bytes,
                self.errors == old(self).errors,
                self.head == (old(self).head + i) % 512,
                forall|j: int|
                    0 <= j < bytes@.len() ==> #[trigger] bytes@[j] == if j < i {
                        stored[j]
                    } else {
                        old(bytes)@[j]
                    },
            decreases count - i,
        {
            bytes[i] = self.bytes[self.head];
            self.head = (self.head + 1) % 512;
            i = i + 1;
        }
        self.len = self.len - count;
        let errors: u32 = self.errors;
        self.errors = 0;
        proof {
            assert forall|k: int| 0 <= k < self.content().len() implies #[trigger] self.content()[k]
                == stored.skip(count as int)[k] by {
                assert((self.head + k) % 512 == (old(self).head + (count + k)) % 512);
            }
            assert(self.content() =~= stored.skip(count as int));
        }
        if errors == 0 {
            return Ok(count);
        }
        self.head = 0;
        self.len = 0;
        assert(self.content() =~= Seq::<u8>::empty());
        assert(bytes@.take(count as int) =~= stored.take(count as int));
        Err(rx_error(errors, bytes, count))
    }
}

/// What a reader gets and what stays, put together, is what was stored.
pub proof fn nothing_is_lost_in_between(stored: Seq<u8>, count: int)
    requires
        0 <= count <= stored.len(),
    ensures
        stored.take(count) + stored.skip(count) == stored,
{
    assert(stored.take(count) + stored.skip(count) =~= stored);
}

/// How many states said that a byte is there.
pub open spec fn taken(states: Seq<u32>) -> nat
    decreases states.len(),
{
    if states.len() == 0 {
        0
    } else {
        taken(states.drop_last()) + if states.last() & 1 != 0 {
            1nat
        } else {
            0
        }
    }
}

/// The errors that some states told, together.
pub open spec fn gathered(states: Seq<u32>) -> u32
    decreases states.len(),
{
    if states.len() == 0 {
        0
    } else {
        gathered(states.drop_last()) | (states.last() & ERRORS)
    }
}

/// No byte was read since some access.
pub open spec fn none_since(log: Seq<Access>, at: int) -> bool {
    forall|k: int|
        at < k < log.len() ==> !(#[trigger] log[k] matches Access::Read(o, _) && o == RBR)
}

/// The line fell silent: since a moment after the last byte for 250 microseconds, since the
/// beginning for two milliseconds, or for all the accesses there are.
pub open spec fn silent(before: Seq<Access>, log: Seq<Access>) -> bool {
    ||| log.last() matches Access::Time(now) && exists|at: int|
        before.len() < at < log.len() && none_since(log, at) && (#[trigger] log[at] matches Access::Time(
            then,
        ) && now >= mmio::until(then, 250_000))
    ||| log.last() matches Access::Time(now) && (log[before.len() as int + 1] matches Access::Time(
        start,
    ) && now >= mmio::until(start, 2_000_000))
    ||| log.len() - before.len() >= 0x1_0000_0000_0000
}

/// The line was read: a byte for each state that said there is one, and the errors that the
/// states told, until the room is full or the line is silent. A last state may be left.
pub open spec fn was_polled(
    before: Seq<Access>,
    log: Seq<Access>,
    count: int,
    room: int,
    errors: u32,
) -> bool {
    let m = mmio::reads(before, LSR).len() as int;
    let states = mmio::reads(log, LSR);
    &&& mmio::quiet(before, log)
    &&& m < states.len()
    &&& count == room || silent(before, log)
    &&& exists|c: int|
        states.len() - 1 <= m + c <= states.len() && 0 <= c && count == taken(
            #[trigger] states.subrange(m, m + c),
        ) && errors == gathered(states.subrange(m, m + c))
}

/// Reads a line without interrupts: waits for the first byte, then until the line
/// falls silent, at most two milliseconds.
pub fn receive<R: Timed>(bus: &mut Bus<'_, R>, bytes: &mut [u8]) -> (r: Result<usize, UartRxError>)
    ensures
        final(bus).port() == old(bus).port(),
        mmio::memory_kept(old(bus).log(), final(bus).log()),
        final(bytes)@.len() == old(bytes)@.len(),
        match r {
            Ok(n) => n <= final(bytes)@.len() && was_polled(
                old(bus).log(),
                final(bus).log(),
                n as int,
                final(bytes)@.len() as int,
                0,
            ) && mmio::writes(final(bus).log()) == mmio::writes(
                old(bus).log(),
            ) && line_bytes(old(bus).log(), final(bus).log(), final(bytes)@, n as int) && forall|
                i: int,
            |
                n <= i < final(bytes)@.len() ==> #[trigger] final(bytes)@[i] == old(bytes)@[i],
            Err(e) => e.status != 0 && e.received <= final(bytes)@.len() && (exists|log: Seq<Access>|
                mmio::extends(log, final(bus).log()) && #[trigger] was_polled(
                    old(bus).log(),
                    log,
                    e.received as int,
                    final(bytes)@.len() as int,
                    e.status,
                )) && tells(
                e,
                e.status,
                final(bytes)@.take(e.received as int),
            ) && mmio::writes(final(bus).log()) == mmio::writes(old(bus).log()) + recover_writes(),
        },
{
    let mut status: u32 = bus.read(LSR);
    let start: u64 = bus.now_ns();
    let deadline: u64 = start.saturating_add(2_000_000);
    let again: u64 = bus.now_ns();
    let mut idle: u64 = again.saturating_add(250_000);
    let mut n: usize = 0;
    let mut errors: u32 = 0;
    let room: usize = bytes.len();
    let mut more: bool = true;
    let mut left: u64 = 0x1_0000_0000_0000;
    assert(line_bytes(old(bus).log(), bus.log(), bytes@, 0));
    let ghost m = mmio::reads(old(bus).log(), LSR).len() as int;
    let ghost mut c: int = 0;
    let ghost mut at: int = old(bus).log().len() as int + 2;
    assert(mmio::reads(bus.log(), LSR).subrange(m, m) =~= seq![]);
    while n < room && more && left > 0
        invariant
            bus.port() == old(bus).port(),
            m == mmio::reads(old(bus).log(), LSR).len(),
            0 <= c,
            mmio::reads(bus.log(), LSR).len() == if more {
                m + c + 1
            } else {
                m + c
            },
            more || c > 0,
            more ==> mmio::reads(bus.log(), LSR).last() == status,
            n == taken(mmio::reads(bus.log(), LSR).subrange(m, m + c)),
            errors == gathered(mmio::reads(bus.log(), LSR).subrange(m, m + c)),
            deadline == mmio::until(start, 2_000_000),
            bus.log()[old(bus).log().len() as int + 1] == Access::Time(start),
            old(bus).log().len() < at < bus.log().len(),
            bus.log()[at] matches Access::Time(then) && idle == mmio::until(then, 250_000),
            none_since(bus.log(), at),
            !more ==> silent(old(bus).log(), bus.log()),
            left <= 0x1_0000_0000_0000,
            bus.log().len() >= old(bus).log().len() + 3 + (0x1_0000_0000_0000 - left),
            n <= room,
            room == bytes@.len(),
            bytes@.len() == old(bytes)@.len(),
            mmio::quiet(old(bus).log(), bus.log()),
            line_bytes(old(bus).log(), bus.log(), bytes@, n as int),
            forall|i: int| n <= i < bytes@.len() ==> #[trigger] bytes@[i] == old(bytes)@[i],
        decreases left,
    {
        let ghost known = mmio::reads(bus.log(), LSR);
        proof {
            c = c + 1;
            let all = known.subrange(m, m + c);
            assert(all.drop_last() =~= known.subrange(m, m + c - 1));
            assert(all.last() == status);
        }
        errors = errors | (status & ERRORS);
        if status & 1 != 0 {
            let word: u32 = bus.read(RBR);
            bytes[n] = (word % 256) as u8;
            n = n + 1;
            let now: u64 = bus.now_ns();
            idle = now.saturating_add(250_000);
            proof {
                at = bus.log().len() - 1;
            }
        } else {
            let now: u64 = bus.now_ns();
            if now >= idle {
                more = false;
            }
        }
        if more {
            let now: u64 = bus.now_ns();
            if now >= deadline {
                more = false;
            } else {
                status = bus.read(LSR);
            }
        }
        assert(mmio::reads(bus.log(), LSR).subrange(m, m + c) =~= known.subrange(m, m + c));
        left = left - 1;
    }
    let ghost polled = bus.log();
    assert(was_polled(old(bus).log(), polled, n as int, room as int, errors)) by {
        let states = mmio::reads(polled, LSR);
        assert(n == taken(states.subrange(m, m + c)));
    }
    if errors != 0 {
        recover_rx(bus);
        return Err(rx_error(errors, bytes, n));
    }
    Ok(n)
}

/// The bytes are what the line gave, in order.
pub open spec fn line_bytes(
    before: Seq<Access>,
    after: Seq<Access>,
    bytes: Seq<u8>,
    count: int,
) -> bool {
    &&& mmio::extends(before, after)
    &&& {
        let m = mmio::reads(before, RBR).len() as int;
        &&& mmio::reads(after, RBR).len() == m + count
        &&& forall|i: int|
            0 <= i < count ==> #[trigger] bytes[i] == (mmio::reads(after, RBR)[m + i] % 256) as u8
    }
}

/// The receiver and the sender are emptied with the queues switched off and on again, and
/// then for the time of two bits.
pub proof fn emptying_takes_two_bits(clear: u32, baud: u32)
    requires
        1 <= baud,
    ensures
        ({
            let s = clear_steps(clear, baud);
            &&& s.len() == 7
            &&& s[0] == Step::Write(8, 0xc0)
            &&& s[2] == Step::Delay(60)
            &&& s[3] == Step::Write(8, 0xc0u32 | clear)
            &&& s[4] == Step::Write(8, 0xc1u32 | clear)
            &&& s[6] matches Step::Delay(us) && (us - 1) * baud < 2_000_000 <= us * baud
        }),
{
    lemma_up(2_000_000, baud as int);
}

proof fn lemma_up(n: int, baud: int)
    requires
        1 <= baud <= u32::MAX,
        0 < n <= 0x1_0000_0000,
    ensures
        ((n + baud - 1) / baud - 1) * baud < n <= (n + baud - 1) / baud * baud,
        0 <= (n + baud - 1) / baud <= u64::MAX,
{
    let q = (n + baud - 1) / baud;
    vstd::arithmetic::div_mod::lemma_fundamental_div_mod(n + baud - 1, baud);
    vstd::arithmetic::div_mod::lemma_mod_bound(n + baud - 1, baud);
    assert((q - 1) * baud == q * baud - baud) by (nonlinear_arith);
    assert(0 <= q <= n + baud) by (nonlinear_arith)
        requires
            baud * q <= n + baud - 1,
            0 < n,
            1 <= baud,
            baud * q + baud > n + baud - 1,
    ;
}

/// A line has eight bits without parity, and a second stop bit above one megabaud; the
/// divider is one, the interrupts are off, and the queues are on.
pub proof fn lines_have_eight_bits(baud: u32)
    ensures
        ({
            let s = rate_steps(baud);
            &&& s.len() == 11
            &&& s[0] == Step::Write(4, 0)
            &&& s[1] == Step::Write(0x0c, 0x83) && s[2] == Step::Write(0, 1) && s[3] == Step::Write(
                4,
                0,
            )
            &&& baud > 1_000_000 ==> s[4] == Step::Write(0x0c, 7)
            &&& baud <= 1_000_000 ==> s[4] == Step::Write(0x0c, 3)
            &&& s[6] == Step::Write(8, 0xc1)
            &&& s[9] == Step::Write(0x10, 0)
        }),
{
}

/// A line is opened with flow control and 22 bits of silence before its interrupts are on.
pub proof fn lines_open_after_a_silence(baud: u32, interrupts: bool)
    requires
        1 <= baud,
    ensures
        ({
            let s = open_steps(baud, interrupts);
            &&& s[0] == Step::Write(0x10, 0x60)
            &&& s[2] matches Step::Delay(us) && (us - 1) * baud < 22_000_000 <= us * baud
            &&& interrupts ==> s.len() == 5 && s[3] == Step::Write(4, 0x15)
            &&& !interrupts ==> s.len() == 3
        }),
{
    lemma_up(22_000_000, baud as int);
}

/// Bytes are sent one by one, in order.
pub proof fn bytes_are_sent_in_order(bytes: Seq<u8>, i: int)
    requires
        0 <= i < bytes.len(),
    ensures
        byte_writes(bytes).len() == bytes.len(),
        byte_writes(bytes)[i] == (0usize, bytes[i] as u32),
{
}

} // verus!
