//! Reading of the clock through its update latch, independent of bus and
//! scheduler.
//!
//! `Session` decides, one request at a time, what is read, written and waited
//! for. Reading only latches the calendar: it is never set.
use vstd::prelude::*;

use crate::rtc::calendar;
use crate::rtc::calendar::decode_epoch_seconds;

verus! {

/// Bus and clock of the host.
pub trait Registers {
    fn read(&self, register: u8, bytes: &mut [u8]) -> Result<(), &'static str>;

    fn write(&self, register: u8, value: u8) -> Result<(), &'static str>;

    fn now_ns(&self) -> u64;

    fn wait_ms(&self, millis: u64);
}

pub const UPDATE: u8 = 4;

pub const READ_UPDATE: u8 = 0x10;

pub const WRITE_UPDATE: u8 = 1;

pub const TIMEOUT_NS: u64 = 100_000_000;

pub const CONTROL: u8 = 3;

pub const CALENDAR: u8 = 7;

/// What the session asks of the host.
#[derive(Clone, Copy, Debug, PartialEq, Eq, Structural)]
pub enum Request {
    Now,
    ReadUpdate,
    WriteUpdate(u8),
    Wait(u64),
    ReadControl,
    ReadCalendar,
    Finished,
}

/// What the host answers.
#[derive(Clone, Copy, Debug)]
pub enum Reply {
    Time(u64),
    Byte(u8),
    Calendar([u8; 7]),
    Done,
    Failed,
}

/// The two waits for the update register: for firmware to be done with it, and
/// for the latch to be taken.
#[derive(Clone, Copy, Debug, PartialEq, Eq, Structural)]
pub enum Phase {
    Firmware,
    Latch,
}

#[derive(Clone, Copy, Debug)]
pub enum Session {
    /// Each wait has a deadline of its own, so that a late wake-up does not use
    /// up the time in which the latch is watched.
    Start(Phase),
    Poll(Phase, u64),
    Busy(Phase, u64),
    Pause(Phase, u64),
    Request(u8),
    Settle,
    Control,
    Calendar(u8),
    Finished(Result<u64, &'static str>),
}

/// The update bits that a wait needs clear.
pub open spec fn busy_bits(phase: Phase) -> u8 {
    match phase {
        Phase::Firmware => 0x11,
        Phase::Latch => 0x10,
    }
}

pub open spec fn busy_error(phase: Phase) -> &'static str {
    match phase {
        Phase::Firmware => "RTC update busy",
        Phase::Latch => "RTC read latch timeout",
    }
}

/// The update register with a read latch requested and no write.
pub open spec fn latch_value(update: u8) -> u8 {
    (update & 0xfe) | 0x10
}

pub open spec fn deadline_after(now: u64) -> u64 {
    if now + TIMEOUT_NS > u64::MAX {
        u64::MAX
    } else {
        (now + TIMEOUT_NS) as u64
    }
}

/// What the session asks for in a state.
pub open spec fn request_spec(s: Session) -> Request {
    match s {
        Session::Start(_) => Request::Now,
        Session::Poll(_, _) => Request::ReadUpdate,
        Session::Busy(_, _) => Request::Now,
        Session::Pause(_, _) => Request::Wait(1),
        Session::Request(update) => Request::WriteUpdate(latch_value(update)),
        Session::Settle => Request::Wait(16),
        Session::Control => Request::ReadControl,
        Session::Calendar(_) => Request::ReadCalendar,
        Session::Finished(_) => Request::Finished,
    }
}

/// Whether the answer is of the kind that the request asks for.
pub open spec fn answers(reply: Reply, request: Request) -> bool {
    match request {
        Request::Now => reply is Time,
        Request::ReadUpdate | Request::ReadControl => reply is Byte || reply is Failed,
        Request::ReadCalendar => reply is Calendar || reply is Failed,
        Request::WriteUpdate(_) => reply is Done || reply is Failed,
        Request::Wait(_) => reply is Done,
        Request::Finished => false,
    }
}

/// The state after an answer.
pub open spec fn reply_spec(s: Session, reply: Reply) -> Session {
    match s {
        Session::Start(phase) => Session::Poll(phase, deadline_after(reply->Time_0)),
        Session::Poll(phase, deadline) => match reply {
            Reply::Byte(update) => if update & busy_bits(phase) != 0 {
                Session::Busy(phase, deadline)
            } else if phase == Phase::Firmware {
                Session::Request(update)
            } else {
                Session::Control
            },
            _ => Session::Finished(Err("RTC update register read failed")),
        },
        Session::Busy(phase, deadline) => if reply->Time_0 >= deadline {
            Session::Finished(Err(busy_error(phase)))
        } else {
            Session::Pause(phase, deadline)
        },
        Session::Pause(phase, deadline) => Session::Poll(phase, deadline),
        Session::Request(_) => match reply {
            Reply::Done => Session::Settle,
            _ => Session::Finished(Err("RTC read latch request failed")),
        },
        Session::Settle => Session::Start(Phase::Latch),
        Session::Control => match reply {
            Reply::Byte(control) => Session::Calendar(control),
            _ => Session::Finished(Err("RTC control read failed")),
        },
        Session::Calendar(control) => match reply {
            Reply::Calendar(regs) => Session::Finished(calendar::decode_spec(control, regs@)),
            _ => Session::Finished(Err("RTC calendar read failed")),
        },
        Session::Finished(r) => Session::Finished(r),
    }
}

impl Session {
    pub fn new() -> (r: Self)
        ensures
            r == Session::Start(Phase::Firmware),
    {
        Session::Start(Phase::Firmware)
    }

    pub fn request(&self) -> (r: Request)
        ensures
            r == request_spec(*self),
    {
        match self {
            Session::Start(_) => Request::Now,
            Session::Poll(_, _) => Request::ReadUpdate,
            Session::Busy(_, _) => Request::Now,
            Session::Pause(_, _) => Request::Wait(1),
            Session::Request(update) => Request::WriteUpdate((*update & 0xfe) | 0x10),
            Session::Settle => Request::Wait(16),
            Session::Control => Request::ReadControl,
            Session::Calendar(_) => Request::ReadCalendar,
            Session::Finished(_) => Request::Finished,
        }
    }

    pub fn reply(&self, reply: Reply) -> (r: Session)
        requires
            answers(reply, request_spec(*self)),
        ensures
            r == reply_spec(*self, reply),
    {
        match *self {
            Session::Start(phase) => match reply {
                Reply::Time(now) => Session::Poll(phase, now.saturating_add(TIMEOUT_NS)),
                _ => *self,
            },
            Session::Poll(phase, deadline) => match reply {
                Reply::Byte(update) => {
                    let mask: u8 = match phase {
                        Phase::Firmware => READ_UPDATE | WRITE_UPDATE,
                        Phase::Latch => READ_UPDATE,
                    };
                    assert(0x10u8 | 1u8 == 0x11u8) by (bit_vector);
                    if update & mask != 0 {
                        Session::Busy(phase, deadline)
                    } else if phase == Phase::Firmware {
                        Session::Request(update)
                    } else {
                        Session::Control
                    }
                },
                _ => Session::Finished(Err("RTC update register read failed")),
            },
            Session::Busy(phase, deadline) => match reply {
                Reply::Time(now) => if now >= deadline {
                    let error = match phase {
                        Phase::Firmware => "RTC update busy",
                        Phase::Latch => "RTC read latch timeout",
                    };
                    Session::Finished(Err(error))
                } else {
                    Session::Pause(phase, deadline)
                },
                _ => *self,
            },
            Session::Pause(phase, deadline) => Session::Poll(phase, deadline),
            Session::Request(_) => match reply {
                Reply::Done => Session::Settle,
                _ => Session::Finished(Err("RTC read latch request failed")),
            },
            Session::Settle => Session::Start(Phase::Latch),
            Session::Control => match reply {
                Reply::Byte(control) => Session::Calendar(control),
                _ => Session::Finished(Err("RTC control read failed")),
            },
            Session::Calendar(control) => match reply {
                Reply::Calendar(regs) => Session::Finished(decode_epoch_seconds(control, regs)),
                _ => Session::Finished(Err("RTC calendar read failed")),
            },
            Session::Finished(r) => Session::Finished(r),
        }
    }
}

/// The state after a run of answers.
pub open spec fn run(replies: Seq<Reply>) -> Session
    decreases replies.len(),
{
    if replies.len() == 0 {
        Session::Start(Phase::Firmware)
    } else {
        reply_spec(run(replies.drop_last()), replies.last())
    }
}

proof fn lemma_latch_value(update: u8)
    by (bit_vector)
    ensures
        (update & 0xfe) | 0x10 == (update & 0xee) | 0x10,
        ((update & 0xfe) | 0x10) & 1 == 0,
        ((update & 0xfe) | 0x10) & 0x10 == 0x10,
        ((update & 0xfe) | 0x10) & 0xee == update & 0xee,
{
}

/// The clock is written to only where the update register was just read without
/// a read or write in progress, and the write requests a read latch, no write, and
/// keeps every other bit.
pub proof fn writes_only_request_the_latch(replies: Seq<Reply>)
    requires
        request_spec(run(replies)) is WriteUpdate,
    ensures
        replies.len() > 0,
        replies.last() matches Reply::Byte(update) && update & 0x11 == 0 && ({
            let value = request_spec(run(replies))->WriteUpdate_0;
            value & WRITE_UPDATE == 0 && value & READ_UPDATE == READ_UPDATE && value & 0xee
                == update & 0xee
        }),
{
    let s = run(replies);
    let update = s->Request_0;
    lemma_latch_value(update);
}

/// While firmware holds the update register the session neither writes nor
/// succeeds: it waits, or gives up as busy.
pub proof fn a_stuck_update_is_never_written(replies: Seq<Reply>)
    requires
        forall|i: int|
            0 <= i < replies.len() ==> ((#[trigger] replies[i]) matches Reply::Byte(b) ==> b & 0x11
                != 0) && !(replies[i] is Failed),
        forall|i: int|
            0 <= i < replies.len() ==> answers(
                #[trigger] replies[i],
                request_spec(run(replies.take(i))),
            ),
    ensures
        request_spec(run(replies)) !is WriteUpdate,
        run(replies) matches Session::Finished(r) ==> r == Err::<u64, &'static str>(
            "RTC update busy",
        ),
        waiting_for_firmware(run(replies)),
    decreases replies.len(),
{
    if replies.len() > 0 {
        let before = replies.drop_last();
        let n = replies.len() - 1;
        assert(before =~= replies.take(n));
        assert forall|i: int| 0 <= i < before.len() implies answers(
            #[trigger] before[i],
            request_spec(run(before.take(i))),
        ) by {
            assert(before.take(i) =~= replies.take(i));
            assert(answers(replies[i], request_spec(run(replies.take(i)))));
        }
        assert forall|i: int| 0 <= i < before.len() implies ((
        #[trigger] before[i]) matches Reply::Byte(b) ==> b & 0x11 != 0) && !(before[i] is Failed) by {
            assert(replies[i] == before[i]);
        }
        a_stuck_update_is_never_written(before);
        assert(answers(replies[n], request_spec(run(replies.take(n)))));
    }
}

pub open spec fn waiting_for_firmware(s: Session) -> bool {
    match s {
        Session::Start(p) => p == Phase::Firmware,
        Session::Poll(p, _) => p == Phase::Firmware,
        Session::Busy(p, _) => p == Phase::Firmware,
        Session::Pause(p, _) => p == Phase::Firmware,
        Session::Finished(_) => true,
        _ => false,
    }
}

/// What the host was made to do.
pub enum Event {
    Time(u64),
    /// A register from which some bytes were read, with those that came.
    Read(u8, nat, Option<Seq<u8>>),
    /// A register, what was written there, and whether the bus took it.
    Write(u8, u8, bool),
    Wait(u64),
}

/// What it takes to answer a request in that way.
pub open spec fn event_of(request: Request, reply: Reply) -> Event {
    match request {
        Request::Now => Event::Time(reply->Time_0),
        Request::ReadUpdate => Event::Read(UPDATE, 1, byte_in(reply)),
        Request::WriteUpdate(value) => Event::Write(UPDATE, value, reply is Done),
        Request::Wait(millis) => Event::Wait(millis),
        Request::ReadControl => Event::Read(CONTROL, 1, byte_in(reply)),
        Request::ReadCalendar => Event::Read(
            CALENDAR,
            7,
            match reply {
                Reply::Calendar(regs) => Some(regs@),
                _ => None,
            },
        ),
        Request::Finished => Event::Wait(0),
    }
}

pub open spec fn byte_in(reply: Reply) -> Option<Seq<u8>> {
    match reply {
        Reply::Byte(b) => Some(seq![b]),
        _ => None,
    }
}

pub open spec fn events_of(exchanges: Seq<(Request, Reply)>) -> Seq<Event> {
    Seq::new(exchanges.len(), |i: int| event_of(exchanges[i].0, exchanges[i].1))
}

/// Reads one byte of a register.
pub fn fetch_byte<R: Registers>(port: &R, register: u8) -> (r: Option<[u8; 1]>)
    ensures
        exists|place: &mut [u8], q: Result<(), &'static str>| #[trigger]
            call_ensures(R::read, (port, register, place), q) && place@.len() == 1 && match r {
                Some(bytes) => q is Ok && final(place)@ == bytes@,
                None => q is Err,
            },
{
    let mut bytes: [u8; 1] = [0];
    match port.read(register, &mut bytes) {
        Ok(()) => Some(bytes),
        Err(_) => None,
    }
}

/// Reads the seven bytes of a calendar.
pub fn fetch_calendar<R: Registers>(port: &R, register: u8) -> (r: Option<[u8; 7]>)
    ensures
        exists|place: &mut [u8], q: Result<(), &'static str>| #[trigger]
            call_ensures(R::read, (port, register, place), q) && place@.len() == 7 && match r {
                Some(bytes) => q is Ok && final(place)@ == bytes@,
                None => q is Err,
            },
{
    let mut bytes: [u8; 7] = [0; 7];
    match port.read(register, &mut bytes) {
        Ok(()) => Some(bytes),
        Err(_) => None,
    }
}

/// One byte is what came of a register, or nothing is.
pub open spec fn gave_byte<R: Registers>(port: &R, register: u8, bytes: Option<Seq<u8>>) -> bool {
    exists|r: Option<[u8; 1]>| #[trigger]
        call_ensures(fetch_byte::<R>, (port, register), r) && match r {
            Some(b) => bytes == Some(b@),
            None => bytes is None,
        }
}

/// Seven bytes are what came of a register, or nothing is.
pub open spec fn gave_calendar<R: Registers>(
    port: &R,
    register: u8,
    bytes: Option<Seq<u8>>,
) -> bool {
    exists|r: Option<[u8; 7]>| #[trigger]
        call_ensures(fetch_calendar::<R>, (port, register), r) && match r {
            Some(b) => bytes == Some(b@),
            None => bytes is None,
        }
}

/// The event is what the host did and answered when it was called.
pub open spec fn happened<R: Registers>(port: &R, event: Event) -> bool {
    match event {
        Event::Time(now) => call_ensures(R::now_ns, (port,), now),
        Event::Read(register, count, bytes) => if count == 1 {
            gave_byte(port, register, bytes)
        } else {
            count == 7 && gave_calendar(port, register, bytes)
        },
        Event::Write(register, value, taken) => took(port, register, value, taken),
        Event::Wait(millis) => call_ensures(R::wait_ms, (port, millis), ()),
    }
}

/// The bus took a write to a register, or did not.
pub open spec fn took<R: Registers>(port: &R, register: u8, value: u8, taken: bool) -> bool {
    exists|r: Result<(), &'static str>| #[trigger]
        call_ensures(R::write, (port, register, value), r) && (r is Ok) == taken
}

/// What a record shows of a reading is what the host put into the buffer that it was
/// given.
pub proof fn a_reading_is_what_the_host_gave<R: Registers>(
    port: &R,
    register: u8,
    count: nat,
    bytes: Option<Seq<u8>>,
)
    requires
        happened(port, Event::Read(register, count, bytes)),
    ensures
        exists|place: &mut [u8], q: Result<(), &'static str>| #[trigger]
            call_ensures(R::read, (port, register, place), q) && place@.len() == count
                && match bytes {
                Some(b) => q is Ok && final(place)@ == b,
                None => q is Err,
            },
{
}

/// All of a record is what the host answered.
pub open spec fn all_happened<R: Registers>(port: &R, log: Seq<Event>) -> bool {
    forall|i: int| 0 <= i < log.len() ==> happened(port, #[trigger] log[i])
}

/// The host, with all that it was made to do.
pub struct Host<'a, R: Registers> {
    port: &'a R,
    log: Ghost<Seq<Event>>,
}

impl<'a, R: Registers> Host<'a, R> {
    pub closed spec fn log(&self) -> Seq<Event> {
        self.log@
    }

    /// Whose clock it is.
    pub closed spec fn port(self) -> &'a R {
        self.port
    }

    /// The record holds what the host answered, and nothing else.
    #[verifier::type_invariant]
    pub open spec fn genuine(self) -> bool {
        all_happened(self.port(), self.log())
    }

    pub fn new(port: &'a R) -> (host: Self)
        ensures
            host.log() == Seq::<Event>::empty(),
            host.port() == port,
    {
        Host { port, log: Ghost(Seq::empty()) }
    }

    fn read_byte(&mut self, register: u8) -> (reply: Reply)
        ensures
            reply is Byte || reply is Failed,
            final(self).port() == old(self).port(),
            final(self).log() == old(self).log().push(
                Event::Read(register, 1, byte_in(reply)),
            ),
            reply matches Reply::Byte(b) ==> exists|
                place: &mut [u8],
                q: Result<(), &'static str>,
            | #[trigger]
                call_ensures(R::read, (old(self).port(), register, place), q) && q is Ok
                    && final(place)@ == seq![b],
    {
        let found = fetch_byte(self.port, register);
        let reply = match found {
            Some(bytes) => Reply::Byte(bytes[0]),
            None => Reply::Failed,
        };
        proof {
            use_type_invariant(&*self);
            let before = self.log@;
            if let Some(bytes) = found {
                assert(bytes@ =~= seq![bytes@[0]]);
            }
            assert(call_ensures(fetch_byte::<R>, (self.port, register), found));
            assert(gave_byte(self.port, register, byte_in(reply)));
            self.log@ = before.push(Event::Read(register, 1, byte_in(reply)));
        }
        reply
    }

    /// Does what a session asks for.
    pub fn perform(&mut self, request: Request) -> (reply: Reply)
        requires
            !(request is Finished),
        ensures
            answers(reply, request),
            final(self).port() == old(self).port(),
            final(self).log() == old(self).log().push(event_of(request, reply)),
            // What was read is what the host put into the buffer that it was given.
            reply matches Reply::Calendar(regs) ==> exists|
                place: &mut [u8],
                q: Result<(), &'static str>,
            | #[trigger]
                call_ensures(R::read, (old(self).port(), CALENDAR, place), q) && q is Ok
                    && final(place)@ == regs@,
            reply matches Reply::Byte(b) ==> exists|
                register: u8,
                place: &mut [u8],
                q: Result<(), &'static str>,
            | #[trigger]
                call_ensures(R::read, (old(self).port(), register, place), q) && q is Ok
                    && final(place)@ == seq![b],
    {
        match request {
            Request::Now => {
                let now: u64 = self.port.now_ns();
                proof {
                    use_type_invariant(&*self);
                    let before = self.log@;
                    self.log@ = before.push(Event::Time(now));
                }
                Reply::Time(now)
            },
            Request::ReadUpdate => self.read_byte(UPDATE),
            Request::WriteUpdate(value) => {
                let r = self.port.write(UPDATE, value);
                let reply = match r {
                    Ok(()) => Reply::Done,
                    Err(_) => Reply::Failed,
                };
                proof {
                    use_type_invariant(&*self);
                    let before = self.log@;
                    assert(call_ensures(R::write, (self.port, UPDATE, value), r));
                    assert(took(self.port, UPDATE, value, reply is Done));
                    self.log@ = before.push(Event::Write(UPDATE, value, reply is Done));
                }
                reply
            },
            Request::Wait(millis) => {
                self.port.wait_ms(millis);
                proof {
                    use_type_invariant(&*self);
                    let before = self.log@;
                    self.log@ = before.push(Event::Wait(millis));
                }
                Reply::Done
            },
            Request::ReadControl => self.read_byte(CONTROL),
            Request::ReadCalendar => {
                let found = fetch_calendar(self.port, CALENDAR);
                let reply = match found {
                    Some(regs) => Reply::Calendar(regs),
                    None => Reply::Failed,
                };
                proof {
                    use_type_invariant(&*self);
                    let before = self.log@;
                    let event = event_of(request, reply);
                    assert(call_ensures(fetch_calendar::<R>, (self.port, CALENDAR), found));
                    assert(gave_calendar(self.port, CALENDAR, event->Read_2));
                    self.log@ = before.push(event);
                }
                reply
            },
            Request::Finished => Reply::Failed,
        }
    }
}

/// The answers among what was asked and answered.
pub open spec fn replies_of(exchanges: Seq<(Request, Reply)>) -> Seq<Reply> {
    Seq::new(exchanges.len(), |i: int| exchanges[i].1)
}

/// Each request is the one that the answers before it lead to.
pub open spec fn in_turn(exchanges: Seq<(Request, Reply)>) -> bool {
    forall|k: int|
        0 <= k < exchanges.len() ==> (#[trigger] exchanges[k]).0 == request_spec(
            run(replies_of(exchanges.take(k))),
        ) && answers(exchanges[k].1, exchanges[k].0)
}

/// A session that was held: the result is the one that all of the answers lead to.
pub open spec fn was_held(
    exchanges: Seq<(Request, Reply)>,
    result: Result<u64, &'static str>,
) -> bool {
    &&& in_turn(exchanges)
    &&& run(replies_of(exchanges)) == Session::Finished(result) || (exchanges.len()
        == REQUEST_LIMIT && result == Err::<u64, &'static str>("RTC read latch timeout"))
}

/// What the host was made to do is a session, and the result is that of the session.
pub open spec fn was_read(log: Seq<Event>, result: Result<u64, &'static str>) -> bool {
    exists|exchanges: Seq<(Request, Reply)>| #[trigger]
        was_held(exchanges, result) && log == events_of(exchanges)
}

/// Requests that one reading may take. No clock can use them up.
pub const REQUEST_LIMIT: u64 = 0xffff_ffff_ffff_ffff;

/// Reads the clock.
pub fn read_epoch_on<R: Registers>(host: &mut Host<'_, R>) -> (result: Result<u64, &'static str>)
    requires
        old(host).log() == Seq::<Event>::empty(),
    ensures
        was_read(final(host).log(), result),
        final(host).port() == old(host).port(),
{
    let mut session = Session::new();
    let mut left: u64 = REQUEST_LIMIT;
    let ghost mut exchanges: Seq<(Request, Reply)> = Seq::empty();
    assert(replies_of(exchanges) =~= Seq::<Reply>::empty());
    assert(host.log() =~= events_of(exchanges));
    while left > 0
        invariant
            session == run(replies_of(exchanges)),
            exchanges.len() == REQUEST_LIMIT - left,
            host.log() == events_of(exchanges),
            host.port() == old(host).port(),
            in_turn(exchanges),
        decreases left,
    {
        if let Session::Finished(result) = session {
            assert(was_held(exchanges, result));
            return result;
        }
        let ghost before = exchanges;
        let request = session.request();
        let reply = host.perform(request);
        session = session.reply(reply);
        proof {
            let after = before.push((request, reply));
            assert(replies_of(after).drop_last() =~= replies_of(before));
            assert(events_of(after) =~= events_of(before).push(event_of(request, reply)));
            assert forall|k: int| 0 <= k < after.len() implies (#[trigger] after[k]).0
                == request_spec(run(replies_of(after.take(k)))) && answers(
                after[k].1,
                after[k].0,
            ) by {
                if k < before.len() {
                    assert(after.take(k) =~= before.take(k));
                    assert(before[k] == after[k]);
                } else {
                    assert(after.take(k) =~= before);
                }
            }
            exchanges = after;
        }
        left -= 1;
    }
    assert(was_held(exchanges, Err("RTC read latch timeout")));
    Err("RTC read latch timeout")
}

/// Reads the clock over a bus of its own. The result is that of a session that was
/// held with that bus and the clock of the host; `Session` says what it is for each
/// answer.
pub fn read_epoch<R: Registers>(r: &R) -> (result: Result<u64, &'static str>)
    ensures
        exists|log: Seq<Event>| all_happened(r, log) && #[trigger] was_read(log, result),
        // The time is that of the control register and the calendar, as the host gave them.
        result is Ok ==> exists|
            control: &mut [u8],
            regs: &mut [u8],
            p: Result<(), &'static str>,
            q: Result<(), &'static str>,
        | #[trigger]
            call_ensures(R::read, (r, CONTROL, control), p) && #[trigger]
            call_ensures(R::read, (r, CALENDAR, regs), q) && p is Ok && q is Ok
                && final(control)@.len() == 1 && final(regs)@.len() == 7 && result == calendar::decode_spec(
                final(control)@[0],
                final(regs)@,
            ),
{
    let mut host = Host::new(r);
    let result = read_epoch_on(&mut host);
    proof {
        use_type_invariant(&host);
    }
    assert(was_read(host.log(), result));
    proof {
        if result is Ok {
            let log = host.log();
            the_epoch_is_what_the_calendar_shows(log, result);
            let (control, regs) = choose|control: u8, regs: Seq<u8>|
                {
                    &&& log[log.len() - 2] == Event::Read(CONTROL, 1, Some(seq![control]))
                    &&& log[log.len() - 1] == Event::Read(CALENDAR, 7, Some(regs))
                    &&& result == #[trigger] calendar::decode_spec(control, regs)
                };
            assert(happened(r, log[log.len() - 2]));
            assert(happened(r, log[log.len() - 1]));
            assert(gave_byte(r, CONTROL, Some(seq![control])));
            assert(gave_calendar(r, CALENDAR, Some(regs)));
            a_reading_is_what_the_host_gave(r, CONTROL, 1, Some(seq![control]));
            a_reading_is_what_the_host_gave(r, CALENDAR, 7, Some(regs));
        }
    }
    result
}

/// How far a session has come.
pub open spec fn stage(s: Session) -> int {
    match s {
        Session::Start(p) | Session::Poll(p, _) | Session::Busy(p, _) | Session::Pause(p, _) => if p
            == Phase::Firmware {
            0
        } else {
            3
        },
        Session::Request(_) => 1,
        Session::Settle => 2,
        Session::Control => 4,
        Session::Calendar(_) => 5,
        Session::Finished(_) => 6,
    }
}

/// One answer never leads back, and the latch is behind what comes after it.
proof fn lemma_step(s: Session, reply: Reply)
    requires
        answers(reply, request_spec(s)),
    ensures
        stage(s) <= stage(reply_spec(s, reply)),
        request_spec(s) is WriteUpdate <==> stage(s) == 1,
        stage(s) == 1 ==> stage(reply_spec(s, reply)) > 1,
        stage(s) <= 1 && 1 < stage(reply_spec(s, reply)) < 6 ==> stage(s) == 1 && reply is Done,
        stage(s) <= 3 && 3 < stage(reply_spec(s, reply)) < 6 ==> stage(s) == 3 && latched(
            (request_spec(s), reply),
        ),
{
}

/// How far a session has come before an exchange.
pub open spec fn stage_at(exchanges: Seq<(Request, Reply)>, k: int) -> int {
    stage(run(replies_of(exchanges.take(k))))
}

proof fn lemma_step_at(exchanges: Seq<(Request, Reply)>, k: int)
    requires
        in_turn(exchanges),
        0 <= k < exchanges.len(),
    ensures
        stage_at(exchanges, k) <= stage_at(exchanges, k + 1),
        exchanges[k].0 is WriteUpdate <==> stage_at(exchanges, k) == 1,
        stage_at(exchanges, k) == 1 ==> stage_at(exchanges, k + 1) > 1,
        stage_at(exchanges, k) <= 1 && 1 < stage_at(exchanges, k + 1) < 6 ==> stage_at(exchanges, k)
            == 1 && exchanges[k].1 is Done,
        stage_at(exchanges, k) <= 3 && 3 < stage_at(exchanges, k + 1) < 6 ==> stage_at(exchanges, k)
            == 3 && latched(exchanges[k]),
        stage_at(exchanges, 0) == 0,
{
    let now = replies_of(exchanges.take(k + 1));
    assert(now.drop_last() =~= replies_of(exchanges.take(k)));
    assert(now.last() == exchanges[k].1);
    assert(run(now) == reply_spec(run(now.drop_last()), now.last()));
    lemma_step(run(now.drop_last()), now.last());
    assert(exchanges[k] == (exchanges[k].0, exchanges[k].1));
    assert(replies_of(exchanges.take(0)) =~= Seq::<Reply>::empty());
}

/// A session never goes back.
proof fn lemma_onward(exchanges: Seq<(Request, Reply)>, i: int, k: int)
    requires
        in_turn(exchanges),
        0 <= i <= k <= exchanges.len(),
    ensures
        stage_at(exchanges, i) <= stage_at(exchanges, k),
    decreases k - i,
{
    if i < k {
        lemma_step_at(exchanges, i);
        lemma_onward(exchanges, i + 1, k);
    }
}

/// Past the request the latch was requested.
proof fn lemma_requested(exchanges: Seq<(Request, Reply)>, k: int) -> (i: int)
    requires
        in_turn(exchanges),
        0 <= k <= exchanges.len(),
        1 < stage_at(exchanges, k) < 6,
    ensures
        0 <= i < k,
        exchanges[i].0 is WriteUpdate,
        exchanges[i].1 is Done,
        stage_at(exchanges, i) == 1,
    decreases k,
{
    if k == 0 {
        assert(replies_of(exchanges.take(0)) =~= Seq::<Reply>::empty());
        0
    } else {
        lemma_step_at(exchanges, k - 1);
        if stage_at(exchanges, k - 1) <= 1 {
            k - 1
        } else {
            lemma_requested(exchanges, k - 1)
        }
    }
}

/// Past the wait for the latch the update register was read with the latch taken.
proof fn lemma_latched(exchanges: Seq<(Request, Reply)>, k: int) -> (j: int)
    requires
        in_turn(exchanges),
        0 <= k <= exchanges.len(),
        3 < stage_at(exchanges, k) < 6,
    ensures
        0 <= j < k,
        latched(exchanges[j]),
        stage_at(exchanges, j) == 3,
    decreases k,
{
    if k == 0 {
        assert(replies_of(exchanges.take(0)) =~= Seq::<Reply>::empty());
        0
    } else {
        lemma_step_at(exchanges, k - 1);
        if stage_at(exchanges, k - 1) <= 3 {
            k - 1
        } else {
            lemma_latched(exchanges, k - 1)
        }
    }
}

/// The update register was read, and the latch is taken.
pub open spec fn latched(exchange: (Request, Reply)) -> bool {
    exchange.0 is ReadUpdate && (exchange.1 matches Reply::Byte(b) && b & READ_UPDATE == 0)
}

/// At most one value is written in a session. It goes to the update register, which was
/// read just before with no read or write in progress, and requests the latch.
pub proof fn the_latch_is_requested_once(log: Seq<Event>, result: Result<u64, &'static str>, k: int)
    requires
        was_read(log, result),
        0 <= k < log.len(),
        log[k] is Write,
    ensures
        k > 0,
        log[k - 1] matches Event::Read(register, _, bytes) && register == 4 && (
        bytes matches Some(b) && b[0] & 0x11 == 0 && log[k]->Write_0 == 4 && log[k]->Write_1
            == latch_value(b[0])),
        forall|i: int| 0 <= i < log.len() && i != k ==> !((#[trigger] log[i]) is Write),
{
    let exchanges = choose|exchanges: Seq<(Request, Reply)>| #[trigger]
        was_held(exchanges, result) && log == events_of(exchanges);
    assert(exchanges[k].0 is WriteUpdate);
    lemma_step_at(exchanges, k);
    let before = replies_of(exchanges.take(k));
    assert(k > 0);
    assert(before.last() == exchanges[k - 1].1);
    assert(before.drop_last() =~= replies_of(exchanges.take(k - 1)));
    assert(run(before) == reply_spec(run(before.drop_last()), before.last()));
    assert(exchanges[k - 1].0 is ReadUpdate);
    assert(log[k - 1] == event_of(exchanges[k - 1].0, exchanges[k - 1].1));
    assert forall|i: int| 0 <= i < log.len() && i != k implies !((#[trigger] log[i]) is Write) by {
        if log[i] is Write {
            assert(exchanges[i].0 is WriteUpdate);
            lemma_step_at(exchanges, i);
            if i < k {
                lemma_onward(exchanges, i + 1, k);
            } else {
                lemma_onward(exchanges, k + 1, i);
            }
        }
    }
}

/// Registers other than the update register are read only: the control register and the
/// calendar, after the latch was requested and a later reading showed it taken.
pub proof fn the_calendar_is_latched_when_it_is_read(
    log: Seq<Event>,
    result: Result<u64, &'static str>,
    k: int,
)
    requires
        was_read(log, result),
        0 <= k < log.len(),
        log[k] matches Event::Read(register, _, _) && register != 4,
    ensures
        log[k]->Read_0 == 3 || log[k]->Read_0 == 7,
        exists|i: int, j: int|
            0 <= i < j < k && (#[trigger] log[i] matches Event::Write(register, _, taken) && register
                == 4 && taken) && (#[trigger] log[j] matches Event::Read(register, _, bytes)
                && register == 4 && (bytes matches Some(b) && b[0] & 0x10 == 0)),
{
    let exchanges = choose|exchanges: Seq<(Request, Reply)>| #[trigger]
        was_held(exchanges, result) && log == events_of(exchanges);
    assert(log[k] == event_of(exchanges[k].0, exchanges[k].1));
    assert(exchanges[k].0 is ReadControl || exchanges[k].0 is ReadCalendar);
    let j = lemma_latched(exchanges, k);
    let i = lemma_requested(exchanges, j);
    assert(log[i] == event_of(exchanges[i].0, exchanges[i].1));
    assert(log[j] == event_of(exchanges[j].0, exchanges[j].1));
}

/// The time that is told is the one that the last two readings show: the control register
/// says how the calendar is written, and the calendar is read behind it.
pub proof fn the_epoch_is_what_the_calendar_shows(log: Seq<Event>, result: Result<u64, &'static str>)
    requires
        was_read(log, result),
        result is Ok,
    ensures
        log.len() >= 2,
        exists|control: u8, regs: Seq<u8>|
            {
                &&& log[log.len() - 2] == Event::Read(CONTROL, 1, Some(seq![control]))
                &&& log[log.len() - 1] == Event::Read(CALENDAR, 7, Some(regs))
                &&& result == #[trigger] calendar::decode_spec(control, regs)
            },
{
    let exchanges = choose|exchanges: Seq<(Request, Reply)>| #[trigger]
        was_held(exchanges, result) && log == events_of(exchanges);
    let n = exchanges.len() - 1;
    let all = replies_of(exchanges);
    assert(exchanges.take(exchanges.len() as int) =~= exchanges);
    assert(all.len() > 0);
    let before = replies_of(exchanges.take(n));
    assert(all.drop_last() =~= before);
    assert(run(all) == reply_spec(run(before), exchanges[n].1));
    assert(answers(exchanges[n].1, exchanges[n].0));
    assert(run(before) is Calendar);
    assert(before.len() > 0);
    let earlier = replies_of(exchanges.take(n - 1));
    assert(before.drop_last() =~= earlier);
    assert(before.last() == exchanges[n - 1].1);
    assert(run(before) == reply_spec(run(earlier), exchanges[n - 1].1));
    assert(answers(exchanges[n - 1].1, exchanges[n - 1].0));
    assert(run(earlier) is Control);
    let control = run(before)->Calendar_0;
    let regs = exchanges[n].1->Calendar_0;
    assert(log[n] == event_of(exchanges[n].0, exchanges[n].1));
    assert(log[n - 1] == event_of(exchanges[n - 1].0, exchanges[n - 1].1));
    assert(result == calendar::decode_spec(control, regs@));
}

/// A reading or a write that fails on the bus fails the session.
pub proof fn a_failing_bus_fails_the_session(
    log: Seq<Event>,
    result: Result<u64, &'static str>,
    k: int,
)
    requires
        was_read(log, result),
        0 <= k < log.len(),
        (log[k] matches Event::Read(_, _, bytes) && bytes is None) || (
        log[k] matches Event::Write(_, _, taken) && !taken),
    ensures
        result is Err,
        k == log.len() - 1,
{
    let exchanges = choose|exchanges: Seq<(Request, Reply)>| #[trigger]
        was_held(exchanges, result) && log == events_of(exchanges);
    assert(log[k] == event_of(exchanges[k].0, exchanges[k].1));
    let before = replies_of(exchanges.take(k));
    let now = replies_of(exchanges.take(k + 1));
    assert(now.drop_last() =~= before);
    assert(now.last() == exchanges[k].1);
    assert(run(now) == reply_spec(run(before), now.last()));
    assert(run(now) is Finished && run(now)->Finished_0 is Err);
    if k + 1 < exchanges.len() {
        assert(answers(exchanges[k + 1].1, exchanges[k + 1].0));
        assert(exchanges[k + 1].0 is Finished);
    } else {
        assert(exchanges.take(k + 1) =~= exchanges);
    }
}

proof fn lemma_latch(update: u8)
    by (bit_vector)
    ensures
        ((update & 0xfe) | 0x10) & 0x11 == 0x10,
        ((update & 0xfe) | 0x10) & 0xee == update & 0xee,
{
}

/// The request for the latch sets its bit, leaves the one for writing clear, and keeps the
/// rest; while firmware uses the clock both bits are waited for, and afterwards the latch's.
pub proof fn the_latch_is_one_bit(update: u8)
    ensures
        latch_value(update) & 0x11 == 0x10,
        latch_value(update) & 0xee == update & 0xee,
        busy_bits(Phase::Firmware) == 0x11,
        latch_value(update) & busy_bits(Phase::Latch) != 0,
{
    lemma_latch(update);
    assert(((update & 0xfe) | 0x10) & 0x10 != 0) by (bit_vector);
}

/// Waiting ends 100 milliseconds later, or never where the clock ends before.
pub proof fn waiting_takes_a_tenth(now: u64)
    ensures
        now <= 0xffff_ffff_ffff_ffff - 100_000_000 ==> deadline_after(now) == now + 100_000_000,
        now > 0xffff_ffff_ffff_ffff - 100_000_000 ==> deadline_after(now) == 0xffff_ffff_ffff_ffff,
{
}

/// The registers that are read are the update at four, the control at three, and seven bytes
/// of the calendar from seven on; only the update is written.
pub proof fn registers_have_their_numbers(request: Request, reply: Reply)
    ensures
        request is ReadUpdate ==> (event_of(request, reply) matches Event::Read(r, n, _) && r == 4
            && n == 1),
        request is ReadControl ==> (event_of(request, reply) matches Event::Read(r, n, _) && r == 3
            && n == 1),
        request is ReadCalendar ==> (event_of(request, reply) matches Event::Read(r, n, _) && r == 7
            && n == 7),
        request matches Request::WriteUpdate(v) ==> (event_of(request, reply) matches Event::Write(
            r,
            w,
            _,
        ) && r == 4 && w == v),
{
}

} // verus!
