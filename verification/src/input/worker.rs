//! The worker that keeps both rails going: one turn for each of them, and the sleep
//! between turns.
use vstd::prelude::*;

use crate::input::gamepad;
use crate::input::gamepad::{Rail, Wiring};
use crate::input::joycon;
use crate::input::joycon::{Action, Link, Pair, Report};
use crate::input::rail;
use crate::input::rail::{attached, transmit};
use crate::mmio;
use crate::mmio::{Access, Bus, Timed};
use crate::soc::clocks;
use crate::soc::gpio;
use crate::soc::gpio::TegraGpio;
use crate::soc::uart::UartRxInterrupt;

verus! {

/// Bytes that are taken from a line at once.
pub const BURST: usize = 256;

/// How a rail is wired.
#[derive(Clone, Copy, Debug)]
pub struct Port {
    pub gpio: TegraGpio,
    pub wiring: Wiring,
    pub detect: u32,
    pub enable: u32,
    /// Clock source of the line.
    pub source: usize,
}

impl Port {
    pub open spec fn wf(self) -> bool {
        &&& gamepad::wiring_spec(self.detect, self.enable) == Some(self.wiring)
        &&& self.source < 0x1000
    }
}

/// What came of a turn.
#[derive(Debug)]
pub struct Turn {
    /// Snapshots to publish at once.
    pub snapshots: Vec<Pair>,
    /// Whether a snapshot is owed once all rails had their turn.
    pub changed: bool,
}

/// A rail and the pair, as far as a turn depends on them.
pub struct Standing {
    pub link: Link,
    pub rest: Seq<u8>,
    pub detected: bool,
    pub first_input: bool,
    pub halves: Seq<Report>,
}

pub open spec fn standing(r: Rail, p: Pair) -> Standing {
    Standing {
        link: r.link,
        rest: r.parser.bytes@,
        detected: r.detected,
        first_input: r.first_input,
        halves: p.halves@,
    }
}

/// A rail lets go of what it holds.
pub open spec fn released(s: Standing) -> Seq<Report> {
    s.halves.update(joycon::side_index(s.link.side) as int, joycon::neutral())
}

/// After a look at the detection pin, where there was one.
pub open spec fn detected(s: Standing, here: Option<bool>) -> Standing {
    match here {
        Some(here) if here != s.detected => Standing {
            link: joycon::new_link(s.link.side),
            rest: seq![],
            detected: here,
            first_input: false,
            halves: released(s),
        },
        _ => s,
    }
}

/// What the line gave: a burst, or nothing where it failed.
pub open spec fn burst(q: UartRxInterrupt) -> Option<Seq<u8>> {
    if q.errors() != 0 {
        None
    } else if q.content().len() > BURST {
        Some(q.content().take(BURST as int))
    } else {
        Some(q.content())
    }
}

pub open spec fn packets_of(s: Standing, input: Option<Seq<u8>>) -> Option<Seq<Seq<u8>>> {
    match input {
        None => None,
        Some(bytes) => Some(joycon::feed_spec(s.rest, bytes).1),
    }
}

/// The reports that a burst publishes.
pub open spec fn published(s: Standing, input: Option<Seq<u8>>, now: u64) -> Seq<Report> {
    match packets_of(s, input) {
        Some(packets) if s.detected => gamepad::absorb_spec(
            s.link,
            s.halves[joycon::side_index(s.link.side) as int],
            packets,
            now,
        ).2,
        _ => Seq::empty(),
    }
}

/// After the burst was taken, and what is to be done on the line. Without a
/// controller the burst is dropped.
pub open spec fn served(s: Standing, input: Option<Seq<u8>>, now: u64) -> (
    Standing,
    Option<Action>,
) {
    let side = joycon::side_index(s.link.side) as int;
    if !s.detected {
        (s, None)
    } else {
        let (link, kept) = gamepad::serviced(s.link, s.halves[side], packets_of(s, input), now);
        let (next, action) = joycon::next_spec(link, now);
        let rest = match input {
            Some(bytes) if action != Some(Action::Start) => joycon::feed_spec(s.rest, bytes).0,
            _ => Seq::empty(),
        };
        (
            Standing {
                link: next,
                rest,
                detected: true,
                first_input: gamepad::heard_of(
                    s.first_input,
                    s.link,
                    packets_of(s, input),
                    action,
                    now,
                ),
                halves: s.halves.update(side, kept),
            },
            action,
        )
    }
}

/// Whether taking the burst leaves a snapshot owed.
pub open spec fn owed(s: Standing, input: Option<Seq<u8>>, now: u64, changed: bool) -> bool {
    let side = joycon::side_index(s.link.side) as int;
    let half = s.halves[side];
    if !s.detected {
        changed
    } else {
        (changed && published(s, input, now).len() == 0) || gamepad::serviced(
            s.link,
            half,
            packets_of(s, input),
            now,
        ).1 != match packets_of(s, input) {
            None => half,
            Some(packets) => gamepad::absorb_spec(s.link, half, packets, now).1,
        }
    }
}

/// After an action that failed: the rail rests, and lets go of everything.
pub open spec fn given_up(s: Standing, now: u64) -> Standing {
    Standing { link: joycon::failed(s.link, now), halves: released(s), ..s }
}

/// One turn, by what was seen: the pin, the burst and whether the action was sent.
pub open spec fn turned(
    before: Standing,
    after: Standing,
    here: Option<bool>,
    input: Option<Seq<u8>>,
    sent: bool,
    now: u64,
    changed: bool,
    t: Turn,
) -> bool {
    let s = detected(before, here);
    let (next, action) = served(s, input, now);
    let reports = published(s, input, now);
    let noticed = changed || s.detected != before.detected;
    let failed = action is Some && !sent;
    &&& after == if failed {
        given_up(next, now)
    } else {
        next
    }
    &&& t.changed == (failed || owed(s, input, now, noticed))
    &&& t.snapshots@.len() == reports.len()
    &&& forall|i: int|
        0 <= i < reports.len() ==> (#[trigger] t.snapshots@[i]).halves@ == s.halves.update(
            joycon::side_index(s.link.side) as int,
            reports[i],
        )
}

/// What the detection pin shows, where it is looked at. Looking takes the line away
/// from the serial port, so it waits until no exchange is under way.
pub open spec fn looks(s: Standing, look: bool) -> bool {
    look && (s.link.stage == joycon::Stage::Detached || s.link.stage == joycon::Stage::Backoff)
}

/// What was done on the board and on the line: the look, then the action.
pub open spec fn was_done(
    port: Port,
    looked: Option<bool>,
    action: Option<Action>,
    sent: bool,
    board: Seq<Access>,
    seen: Seq<Access>,
    board_after: Seq<Access>,
    line: Seq<Access>,
    line_after: Seq<Access>,
) -> bool {
    &&& match looked {
        None => seen == board,
        Some(here) => mmio::did(
            board,
            seen,
            rail::look_steps(port.wiring, port.detect, port.enable),
        ) && here == (mmio::last(seen, rail::detect_at(port.detect)) & rail::detect_mask(
            port.detect,
        ) == 0),
    }
    &&& match action {
        None => board_after == seen && line_after == line,
        Some(action) => {
            &&& match rail::rate_of(action) {
                None => board_after == seen,
                Some(rate) => clocks::rate_given(
                    seen,
                    board_after,
                    port.source as int,
                    clocks::divider_spec(rate)->0,
                ),
            }
            &&& if sent {
                rail::line_done(line, line_after, action, true)
            } else {
                exists|e: &'static str| #[trigger]
                    rail::line_failed(line, line_after, action, true, e)
            }
        },
    }
}

/// A turn, and what was seen and done in it. The logs are those before and after.
pub open spec fn took_turn(
    port: Port,
    before: Standing,
    after: Standing,
    input: Option<Seq<u8>>,
    look: bool,
    changed: bool,
    now: u64,
    t: Turn,
    here: Option<bool>,
    sent: bool,
    seen: Seq<Access>,
    board: (Seq<Access>, Seq<Access>),
    line: (Seq<Access>, Seq<Access>),
) -> bool {
    let action = served(detected(before, here), input, now).1;
    &&& here is Some <==> looks(before, look)
    &&& turned(before, after, here, input, sent, now, changed, t)
    &&& was_done(port, here, action, sent, board.0, seen, board.1, line.0, line.1)
}

/// What a burst leaves in the store: the bytes behind it, or nothing after an error.
pub open spec fn behind(before: UartRxInterrupt, after: UartRxInterrupt) -> bool {
    &&& after.errors() == 0
    &&& after.content() == if before.errors() != 0 || before.content().len() <= BURST {
        Seq::<u8>::empty()
    } else {
        before.content().skip(BURST as int)
    }
}

fn take_burst(queue: &mut UartRxInterrupt) -> (r: Option<Vec<u8>>)
    requires
        old(queue).wf(),
    ensures
        final(queue).wf(),
        behind(*old(queue), *final(queue)),
        match r {
            Some(bytes) => burst(*old(queue)) == Some(bytes@),
            None => burst(*old(queue)) is None,
        },
{
    let mut bytes: Vec<u8> = vec![0; BURST];
    match queue.take(bytes.as_mut_slice()) {
        Ok(count) => {
            assert(old(queue).content().len() <= BURST ==> queue.content() =~= Seq::<u8>::empty());
            bytes.truncate(count);
            assert(bytes@ =~= burst(*old(queue))->0);
            Some(bytes)
        },
        Err(_) => None,
    }
}

/// Gives one rail its turn.
#[verifier::rlimit(100)]
#[verifier::spinoff_prover]
pub fn turn<A: Timed, B: Timed>(
    board: &mut Bus<'_, A>,
    line: &mut Bus<'_, B>,
    port: &Port,
    queue: &mut UartRxInterrupt,
    rail: &mut Rail,
    pair: &mut Pair,
    look: bool,
    changed: bool,
    now: u64,
) -> (t: Turn)
    requires
        port.wf(),
        old(queue).wf(),
        now + 1000 <= u64::MAX,
    ensures
        final(line).port() == old(line).port(),
        mmio::extends(old(line).log(), final(line).log()),
        final(board).port() == old(board).port(),
        mmio::extends(old(board).log(), final(board).log()),
        final(queue).wf(),
        behind(*old(queue), *final(queue)),
        exists|here: Option<bool>, sent: bool, seen: Seq<Access>| #[trigger]
            took_turn(
                *port,
                standing(*old(rail), *old(pair)),
                standing(*final(rail), *final(pair)),
                burst(*old(queue)),
                look,
                changed,
                now,
                t,
                here,
                sent,
                seen,
                (old(board).log(), final(board).log()),
                (old(line).log(), final(line).log()),
            ),
{
    let ghost before = standing(*rail, *pair);
    let ghost input = burst(*queue);
    let mut changed = changed;
    let ghost noticed = changed;
    let ghost mut here: Option<bool> = None;
    if look && rail.may_detect() {
        let found: bool = match attached(board, &port.gpio, port.wiring, port.detect, port.enable) {
            Ok(found) => found,
            Err(_) => false,
        };
        proof {
            here = Some(found);
        }
        if rail.detect(found, pair) {
            changed = true;
        }
    }
    let ghost seen = board.log();
    let ghost s = standing(*rail, *pair);
    assert(s.rest =~= detected(before, here).rest);
    assert(s.halves =~= detected(before, here).halves);
    assert(s == detected(before, here));
    let taken = take_burst(queue);
    let service = match &taken {
        Some(bytes) => rail.service(pair, Some(bytes.as_slice()), changed, now),
        None => rail.service(pair, None, changed, now),
    };
    let ghost next = standing(*rail, *pair);
    assert(next.rest =~= served(s, input, now).0.rest);
    assert(next.halves =~= served(s, input, now).0.halves);
    assert(next == served(s, input, now).0);
    let mut owed_now: bool = service.changed;
    let ghost mut sent = true;
    if let Some(action) = service.action {
        if let Err(_) = transmit(board, line, port.source, true, action) {
            rail.transmit_failed(pair, now);
            owed_now = true;
            proof {
                sent = false;
            }
            assert(standing(*rail, *pair).halves =~= given_up(next, now).halves);
        }
    }
    let t = Turn { snapshots: service.snapshots, changed: owed_now };
    assert(took_turn(
        *port,
        before,
        standing(*rail, *pair),
        input,
        look,
        noticed,
        now,
        t,
        here,
        sent,
        seen,
        (old(board).log(), board.log()),
        (old(line).log(), line.log()),
    ));
    t
}

/// A half that comes or goes starts anew, with nothing pressed; the other keeps what it shows.
pub proof fn halves_start_anew(s: Standing, here: bool, other: int)
    requires
        s.halves.len() == 2,
        0 <= other < 2,
        other != joycon::side_index(s.link.side),
        0 <= joycon::side_index(s.link.side) < 2,
    ensures
        ({
            let d = detected(s, Some(here));
            &&& d.detected == here
            &&& d.halves[other] == s.halves[other]
            &&& here == s.detected ==> d == s
            &&& here != s.detected ==> d.rest.len() == 0 && !d.first_input && d.halves[
                joycon::side_index(s.link.side) as int] == joycon::neutral() && d.link
                == joycon::new_link(s.link.side)
        }),
        detected(s, None) == s,
{
}

/// At most 256 bytes are taken at a time, from the front, and the rest is left; after an
/// error nothing is.
pub proof fn bytes_are_taken_from_the_front(q: UartRxInterrupt, after: UartRxInterrupt, i: int)
    requires
        behind(q, after),
    ensures
        q.errors() != 0 ==> burst(q) is None && after.content().len() == 0,
        q.errors() == 0 ==> (burst(q) matches Some(b) && {
            &&& b.len() <= 256
            &&& b.len() + after.content().len() == q.content().len()
            &&& 0 <= i < b.len() ==> b[i] == q.content()[i]
            &&& b.len() <= i < q.content().len() ==> after.content()[i - b.len()] == q.content()[i]
            &&& q.content().len() <= 256 ==> after.content().len() == 0
        }),
{
}

/// Whether a half is there is looked for while nothing is heard of it.
pub proof fn silent_halves_are_looked_for(s: Standing, look: bool)
    ensures
        looks(s, look) <==> look && (s.link.stage is Detached || s.link.stage is Backoff),
{
}

} // verus!
