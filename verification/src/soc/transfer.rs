//! Messages to chips, each a short register-mode message or a packet. A transfer is
//! checked as a whole before any chip sees a part of it.
use vstd::prelude::*;

use crate::mmio;
use crate::mmio::{Access, Bus, Registers};
use crate::soc::packet;
use crate::soc::packet::Error;

verus! {

/// One message of a transfer.
#[derive(Debug)]
pub struct Message {
    pub address: u16,
    pub ten_bit: bool,
    pub read: bool,
    pub stop: bool,
    /// Something is asked for that is neither a reading nor a stop.
    pub other: bool,
    pub data: Vec<u8>,
}

pub struct MessageView {
    pub address: u16,
    pub ten_bit: bool,
    pub read: bool,
    pub stop: bool,
    pub other: bool,
    pub data: Seq<u8>,
}

impl View for Message {
    type V = MessageView;

    open spec fn view(&self) -> MessageView {
        MessageView {
            address: self.address,
            ten_bit: self.ten_bit,
            read: self.read,
            stop: self.stop,
            other: self.other,
            data: self.data@,
        }
    }
}

pub open spec fn views(messages: Seq<Message>) -> Seq<MessageView> {
    Seq::new(messages.len(), |i: int| messages[i]@)
}

/// A message that the controller can do.
pub open spec fn plain(m: MessageView) -> bool {
    !m.ten_bit && m.address <= 0x7f && 0 < m.data.len() <= 256 && !m.other
}

/// A transfer that the controller can do.
pub open spec fn acceptable(messages: Seq<MessageView>) -> bool {
    &&& 0 < messages.len() <= 8
    &&& messages.last().stop
    &&& forall|i: int| 0 <= i < messages.len() ==> plain(#[trigger] messages[i])
}

/// The bus is free before a message: it is the first, or follows a stop.
pub open spec fn begins(messages: Seq<MessageView>, i: int) -> bool {
    i == 0 || messages[i - 1].stop
}

/// Short messages that stand alone need no packet.
pub open spec fn is_short(m: MessageView, begin: bool) -> bool {
    begin && m.stop && m.data.len() <= 8
}

/// Nothing but the data of a reading changed.
pub open spec fn same_message(before: MessageView, after: MessageView) -> bool {
    &&& after == (MessageView { data: after.data, ..before })
    &&& after.data.len() == before.data.len()
    &&& !before.read ==> after.data == before.data
}

/// The way into packet mode, where the bus was free.
pub open spec fn entered(log: Seq<Access>, begin: bool, r: Result<(), Error>) -> bool {
    if begin {
        packet::begin_outcome(log, r)
    } else {
        r is Ok && log.len() == 0
    }
}

/// The way out of packet mode, behind a stop.
pub open spec fn left(log: Seq<Access>, stop: bool) -> bool {
    if stop {
        packet::finish_outcome(log)
    } else {
        log.len() == 0
    }
}

/// A packet, with the way into packet mode before it and the way out behind it.
pub open spec fn in_packet(
    log: Seq<Access>,
    before: MessageView,
    after: MessageView,
    begin: bool,
    a: Seq<Access>,
    b: Seq<Access>,
    c: Seq<Access>,
) -> bool {
    &&& log == a + b + c
    &&& entered(a, begin, Ok(()))
    &&& packet::packet_outcome(
        b,
        before.address as u8,
        before.data,
        after.data,
        before.read,
        before.stop,
        Ok(()),
    )
    &&& left(c, before.stop)
}

/// A message was exchanged.
pub open spec fn exchanged(
    log: Seq<Access>,
    before: MessageView,
    after: MessageView,
    begin: bool,
) -> bool {
    &&& same_message(before, after)
    &&& if is_short(before, begin) {
        exists|r: Result<(), Error>|
            r is Ok && #[trigger] packet::normal_outcome(
                log,
                before.address as u8,
                before.data,
                after.data,
                before.read,
                r,
            )
    } else {
        exists|a: Seq<Access>, b: Seq<Access>, c: Seq<Access>| #[trigger]
            in_packet(log, before, after, begin, a, b, c)
    }
}

/// A packet was tried, after the way into packet mode.
pub open spec fn tried(
    log: Seq<Access>,
    before: MessageView,
    after: MessageView,
    begin: bool,
    a: Seq<Access>,
    b: Seq<Access>,
    e: Error,
) -> bool {
    &&& log == a + b
    &&& entered(a, begin, Ok(()))
    &&& packet::packet_outcome(
        b,
        before.address as u8,
        before.data,
        after.data,
        before.read,
        before.stop,
        Err(e),
    )
}

/// A message failed.
pub open spec fn failed(
    log: Seq<Access>,
    before: MessageView,
    after: MessageView,
    begin: bool,
    e: Error,
) -> bool {
    &&& same_message(before, after)
    &&& e != Error::Invalid
    &&& if is_short(before, begin) {
        packet::normal_outcome(
            log,
            before.address as u8,
            before.data,
            after.data,
            before.read,
            Err(e),
        )
    } else {
        ||| entered(log, begin, Err(e)) && after.data == before.data
        ||| exists|a: Seq<Access>, b: Seq<Access>| #[trigger]
            tried(log, before, after, begin, a, b, e)
    }
}

/// Some accesses behind each other.
pub open spec fn joined(parts: Seq<Seq<Access>>) -> Seq<Access>
    decreases parts.len(),
{
    if parts.len() == 0 {
        seq![]
    } else {
        joined(parts.drop_last()) + parts.last()
    }
}

/// The first messages were exchanged, each in one part.
pub open spec fn exchanged_first(
    parts: Seq<Seq<Access>>,
    before: Seq<MessageView>,
    after: Seq<MessageView>,
    count: int,
) -> bool {
    &&& parts.len() == count
    &&& forall|i: int|
        0 <= i < count ==> exchanged(#[trigger] parts[i], before[i], after[i], begins(before, i))
}

/// Whether a chip may still hold the bus.
pub open spec fn holds(e: Error) -> bool {
    e == Error::Timeout || e == Error::Bus || e == Error::ArbitrationLost
}

/// The bus was given up: packet mode is left, and a bus that may be held is cleared.
pub open spec fn given_up(log: Seq<Access>, e: Error, a: Seq<Access>, b: Seq<Access>) -> bool {
    &&& log == a + b
    &&& packet::finish_outcome(a)
    &&& if holds(e) {
        exists|r: Result<(), Error>| #[trigger] packet::clear_outcome(b, r)
    } else {
        b.len() == 0
    }
}

/// A transfer broke off at a message. Those before it were exchanged, and those behind
/// it are untouched.
pub open spec fn broke_off(
    before: Seq<MessageView>,
    after: Seq<MessageView>,
    at: int,
    e: Error,
    parts: Seq<Seq<Access>>,
    b: Seq<Access>,
    c: Seq<Access>,
) -> bool {
    &&& 0 <= at < before.len()
    &&& exchanged_first(parts, before, after, at)
    &&& failed(b, before[at], after[at], begins(before, at), e)
    &&& exists|x: Seq<Access>, y: Seq<Access>| #[trigger] given_up(c, e, x, y)
    &&& forall|i: int| at < i < before.len() ==> #[trigger] after[i] == before[i]
}

/// What a transfer leaves behind.
pub open spec fn outcome(
    log: Seq<Access>,
    before: Seq<MessageView>,
    after: Seq<MessageView>,
    r: Result<(), Error>,
) -> bool {
    &&& after.len() == before.len()
    &&& r == Err::<(), Error>(Error::Invalid) <==> !acceptable(before)
    &&& match r {
        Ok(_) => exists|parts: Seq<Seq<Access>>|
            log == joined(parts) && #[trigger] exchanged_first(
                parts,
                before,
                after,
                before.len() as int,
            ),
        Err(e) => if e == Error::Invalid {
            log.len() == 0 && after == before
        } else {
            exists|at: int, parts: Seq<Seq<Access>>, b: Seq<Access>, c: Seq<Access>|
                log == joined(parts) + b + c && #[trigger] broke_off(
                    before,
                    after,
                    at,
                    e,
                    parts,
                    b,
                    c,
                )
        },
    }
}

/// Checks the whole of a transfer.
fn check(messages: &Vec<Message>) -> (r: bool)
    ensures
        r == acceptable(views(messages@)),
{
    let count: usize = messages.len();
    if count == 0 || count > 8 {
        return false;
    }
    assert(views(messages@).last() == messages@[count - 1]@);
    if !messages[count - 1].stop {
        return false;
    }
    let mut i: usize = 0;
    while i < count
        invariant
            i <= count == messages@.len(),
            forall|k: int| 0 <= k < i ==> plain(#[trigger] views(messages@)[k]),
        decreases count - i,
    {
        let m = &messages[i];
        assert(views(messages@)[i as int] == m@);
        if m.ten_bit || m.address > 0x7f || m.data.len() == 0 || m.data.len()
            > packet::MAX_PAYLOAD || m.other {
            return false;
        }
        i = i + 1;
    }
    true
}

/// One message, on a fresh record of accesses.
fn exchange<R: Registers>(bus: &mut Bus<'_, R>, message: &mut Message, begin: bool) -> (r: Result<
    (),
    Error,
>)
    requires
        old(bus).log() == Seq::<Access>::empty(),
        plain(old(message)@),
    ensures
        match r {
            Ok(_) => exchanged(final(bus).log(), old(message)@, final(message)@, begin),
            Err(e) => failed(final(bus).log(), old(message)@, final(message)@, begin, e),
        },
        final(bus).port() == old(bus).port(),
        mmio::extends(old(bus).log(), final(bus).log()),
{
    let ghost before = message@;
    let address: u8 = message.address as u8;
    let read: bool = message.read;
    let stop: bool = message.stop;
    if begin && stop && message.data.len() <= packet::NORMAL_MAX_PAYLOAD {
        let result = packet::normal_transfer_on(bus, address, message.data.as_mut_slice(), read);
        assert(packet::normal_outcome(
            bus.log(),
            before.address as u8,
            before.data,
            message@.data,
            read,
            result,
        ));
        return result;
    }
    let mut first = bus.apart();
    if begin {
        match packet::begin_on(&mut first) {
            Err(e) => {
                bus.join(first);
                assert(bus.log() =~= first.log());
                return Err(e);
            },
            Ok(_) => {},
        }
    }
    let ghost a = first.log();
    let mut second = bus.apart();
    let result = packet::transfer_on(
        &mut second,
        address,
        message.data.as_mut_slice(),
        read,
        stop,
    );
    let ghost b = second.log();
    bus.join(first);
    bus.join(second);
    assert(bus.log() =~= a + b);
    match result {
        Err(e) => {
            assert(tried(bus.log(), before, message@, begin, a, b, e));
            return Err(e);
        },
        Ok(_) => {},
    }
    let mut third = bus.apart();
    if stop {
        packet::finish_on(&mut third);
    }
    let ghost c = third.log();
    bus.join(third);
    assert(bus.log() =~= a + b + c);
    assert(in_packet(bus.log(), before, message@, begin, a, b, c));
    Ok(())
}

/// Gives the bus up after an error.
fn give_up<R: Registers>(bus: &mut Bus<'_, R>, e: Error)
    requires
        old(bus).log() == Seq::<Access>::empty(),
    ensures
        exists|a: Seq<Access>, b: Seq<Access>| #[trigger] given_up(final(bus).log(), e, a, b),
        final(bus).port() == old(bus).port(),
        mmio::extends(old(bus).log(), final(bus).log()),
{
    let mut first = bus.apart();
    packet::finish_on(&mut first);
    let ghost a = first.log();
    let mut second = bus.apart();
    let held: bool = match e {
        Error::Timeout => true,
        Error::Bus => true,
        Error::ArbitrationLost => true,
        _ => false,
    };
    if held {
        let r = packet::recover_on(&mut second);
        assert(packet::clear_outcome(second.log(), r));
    }
    let ghost b = second.log();
    bus.join(first);
    bus.join(second);
    assert(bus.log() =~= a + b);
    assert(given_up(bus.log(), e, a, b));
}

/// Exchanges the messages of a transfer, in order.
pub fn transfer<R: Registers>(r: &R, messages: &mut Vec<Message>) -> (result: Result<(), Error>)
    ensures
        exists|log: Seq<Access>|
            mmio::answered(r, log) && #[trigger] outcome(
                log,
                views(old(messages)@),
                views(final(messages)@),
                result,
            ),
{
    let mut bus = Bus::new(r);
    let result = transfer_on(&mut bus, messages);
    proof {
        use_type_invariant(&bus);
    }
    assert(outcome(bus.log(), views(old(messages)@), views(messages@), result));
    result
}

/// A transfer on a fresh record of accesses.
pub fn transfer_on<R: Registers>(bus: &mut Bus<'_, R>, messages: &mut Vec<Message>) -> (result:
    Result<(), Error>)
    requires
        old(bus).log() == Seq::<Access>::empty(),
    ensures
        outcome(final(bus).log(), views(old(messages)@), views(final(messages)@), result),
        final(bus).port() == old(bus).port(),
        mmio::extends(old(bus).log(), final(bus).log()),
{
    if !check(messages) {
        return Err(Error::Invalid);
    }
    let ghost before = views(messages@);
    let ghost mut parts = Seq::<Seq<Access>>::empty();
    let mut begin: bool = true;
    let mut i: usize = 0;
    while i < messages.len()
        invariant
            mmio::extends(old(bus).log(), bus.log()),
            i <= messages@.len() == before.len(),
            before == views(old(messages)@),
            acceptable(before),
            begin == begins(before, i as int),
            bus.log() == joined(parts),
            bus.port() == old(bus).port(),
            exchanged_first(parts, before, views(messages@), i as int),
            forall|k: int| i <= k < before.len() ==> #[trigger] views(messages@)[k] == before[k],
        decreases messages@.len() - i,
    {
        let ghost now = views(messages@);
        let mut part = bus.apart();
        assert(messages@[i as int]@ == before[i as int]) by {
            assert(now[i as int] == before[i as int]);
        }
        let stop: bool = messages[i].stop;
        let result = exchange(&mut part, &mut messages[i], begin);
        let ghost b = part.log();
        let ghost later = views(messages@);
        bus.join(part);
        proof {
            assert forall|k: int| 0 <= k < before.len() && k != i implies #[trigger] later[k]
                == now[k] by {}
            assert(exchanged_first(parts, before, later, i as int));
        }
        match result {
            Err(e) => {
                let mut end = bus.apart();
                give_up(&mut end, e);
                let ghost c = end.log();
                bus.join(end);
                assert(bus.log() =~= joined(parts) + b + c);
                assert(broke_off(before, later, i as int, e, parts, b, c));
                return Err(e);
            },
            Ok(_) => {},
        }
        assert(exchanged(b, before[i as int], later[i as int], begins(before, i as int)));
        proof {
            let longer = parts.push(b);
            assert(longer.drop_last() =~= parts);
            assert(exchanged_first(longer, before, later, i + 1));
            parts = longer;
        }
        begin = stop;
        i = i + 1;
    }
    Ok(())
}

/// Nothing reaches a chip of a transfer of which a part cannot be done.
pub proof fn refused_transfers_touch_nothing(
    log: Seq<Access>,
    before: Seq<MessageView>,
    after: Seq<MessageView>,
    r: Result<(), Error>,
)
    requires
        outcome(log, before, after, r),
        !acceptable(before),
    ensures
        log.len() == 0,
        after == before,
        r is Err,
{
}

/// What is written to chips never changes in a transfer.
pub proof fn written_data_stays(
    log: Seq<Access>,
    before: Seq<MessageView>,
    after: Seq<MessageView>,
    r: Result<(), Error>,
    i: int,
)
    requires
        outcome(log, before, after, r),
        0 <= i < before.len(),
        !before[i].read,
    ensures
        after[i] == before[i],
{
    match r {
        Ok(_) => {
            let parts = choose|parts: Seq<Seq<Access>>|
                log == joined(parts) && #[trigger] exchanged_first(
                    parts,
                    before,
                    after,
                    before.len() as int,
                );
            assert(exchanged(parts[i], before[i], after[i], begins(before, i)));
        },
        Err(e) => {
            if e != Error::Invalid {
                let (at, parts, b, c) = choose|
                    at: int,
                    parts: Seq<Seq<Access>>,
                    b: Seq<Access>,
                    c: Seq<Access>,
                |
                    log == joined(parts) + b + c && #[trigger] broke_off(
                        before,
                        after,
                        at,
                        e,
                        parts,
                        b,
                        c,
                    );
                if i < at {
                    assert(exchanged(parts[i], before[i], after[i], begins(before, i)));
                }
            }
        },
    }
}

/// A transfer has one to eight messages of one to 256 bytes for plain addresses, and the last
/// one gives the bus up.
pub proof fn transfers_have_plain_messages(messages: Seq<MessageView>, i: int)
    requires
        0 <= i < messages.len(),
        acceptable(messages),
    ensures
        1 <= messages.len() <= 8,
        messages[messages.len() - 1].stop,
        messages[i].address <= 0x7f && !messages[i].ten_bit && !messages[i].other,
        1 <= messages[i].data.len() <= 256,
{
}

/// A message of up to eight bytes that has the bus for itself goes through registers.
pub proof fn messages_alone_are_short(messages: Seq<MessageView>, i: int)
    requires
        0 <= i < messages.len(),
    ensures
        is_short(messages[i], begins(messages, i)) <==> messages[i].data.len() <= 8
            && messages[i].stop && (i == 0 || messages[i - 1].stop),
{
}

} // verus!
