//! The gamepad that two attached controllers make up: detection, service of each
//! rail, and the event frames that readers get.
use vstd::prelude::*;

use crate::input::joycon;
use crate::input::joycon::{Action, Link, Pair, Parser, Report, Side, Stage};

verus! {

/// Milliseconds between two looks at the detection pins.
pub const DETECT_INTERVAL_MS: u64 = 100;

/// How one rail is wired.
#[derive(Clone, Copy, Debug, PartialEq, Eq, Structural)]
pub struct Wiring {
    pub side: Side,
    pub tx_pad: u32,
    pub detect_pad: u32,
    pub power_pin: u32,
    pub power_pad: u32,
    pub power_mux: u32,
    /// Serial port of the rail.
    pub uart: u32,
}

/// The wiring of the rail with these detection pins.
pub open spec fn wiring_spec(detect: u32, detect_en: u32) -> Option<Wiring> {
    if detect == 38 && detect_en == 25 {
        Some(
            Wiring {
                side: Side::Left,
                tx_pad: 0x104,
                detect_pad: 0x248,
                power_pin: 227,
                power_pad: 0x1a4,
                power_mux: 5,
                uart: 2,
            },
        )
    } else if detect == 62 && detect_en == 48 {
        Some(
            Wiring {
                side: Side::Right,
                tx_pad: 0xf4,
                detect_pad: 0x250,
                power_pin: 83,
                power_pad: 0x260,
                power_mux: 0x6006,
                uart: 1,
            },
        )
    } else {
        None
    }
}

/// One GPIO reference of the board description: controller, pin and polarity.
#[derive(Clone, Copy, Debug, PartialEq, Eq, Structural)]
pub struct GpioRef {
    pub provider: Option<u32>,
    pub pin: Option<u32>,
    pub flags: Option<u32>,
}

/// What the description of a rail is answered.
pub open spec fn probe_spec(detect: GpioRef, detect_en: GpioRef) -> Result<(Wiring, u32), &'static str> {
    match (detect.pin, detect_en.pin) {
        (None, _) => Err("Joy-Con detect GPIO missing"),
        (Some(_), None) => Err("Joy-Con detect enable GPIO missing"),
        (Some(d), Some(e)) => match wiring_spec(d, e) {
            None => Err("unsupported Joy-Con rail wiring"),
            Some(w) => if detect.flags != Some(1u32) || detect_en.flags != Some(0u32)
                || detect.provider != detect_en.provider {
                Err("unsupported Joy-Con GPIO polarity/provider")
            } else {
                match detect.provider {
                    None => Err("Joy-Con GPIO provider missing"),
                    Some(provider) => Ok((w, provider)),
                }
            },
        },
    }
}

/// Recognizes a rail from its detection pins: the low-active input and the
/// high-active enable must be on one controller.
pub fn probe(detect: &GpioRef, detect_en: &GpioRef) -> (r: Result<(Wiring, u32), &'static str>)
    ensures
        r == probe_spec(*detect, *detect_en),
{
    let d: u32 = match detect.pin {
        None => {
            return Err("Joy-Con detect GPIO missing");
        },
        Some(d) => d,
    };
    let e: u32 = match detect_en.pin {
        None => {
            return Err("Joy-Con detect enable GPIO missing");
        },
        Some(e) => e,
    };
    let w = if d == 38 && e == 25 {
        Wiring {
            side: Side::Left,
            tx_pad: 0x104,
            detect_pad: 0x248,
            power_pin: 227,
            power_pad: 0x1a4,
            power_mux: 5,
            uart: 2,
        }
    } else if d == 62 && e == 48 {
        Wiring {
            side: Side::Right,
            tx_pad: 0xf4,
            detect_pad: 0x250,
            power_pin: 83,
            power_pad: 0x260,
            power_mux: 0x6006,
            uart: 1,
        }
    } else {
        return Err("unsupported Joy-Con rail wiring");
    };
    if detect.flags != Some(1) || detect_en.flags != Some(0) || detect.provider
        != detect_en.provider {
        return Err("unsupported Joy-Con GPIO polarity/provider");
    }
    match detect.provider {
        None => Err("Joy-Con GPIO provider missing"),
        Some(provider) => Ok((w, provider)),
    }
}

/// Button bit and key code, in the order in which a frame lists them.
pub open spec fn button_codes() -> Seq<(u32, u16)> {
    seq![
        (0x4u32, 0x130u16),
        (0x8u32, 0x131u16),
        (0x2u32, 0x133u16),
        (0x1u32, 0x134u16),
        (0x40_0000u32, 0x136u16),
        (0x40u32, 0x137u16),
        (0x80_0000u32, 0x138u16),
        (0x80u32, 0x139u16),
        (0x100u32, 0x13au16),
        (0x200u32, 0x13bu16),
        (0x1000u32, 0x13cu16),
        (0x800u32, 0x13du16),
        (0x400u32, 0x13eu16),
        (0x2000u32, 0x2c0u16),
        (0x10_0000u32, 0x2c1u16),
        (0x20_0000u32, 0x2c2u16),
        (0x10u32, 0x2c3u16),
        (0x20u32, 0x2c4u16),
    ]
}

fn button_table() -> (r: Vec<(u32, u16)>)
    ensures
        r@ == button_codes(),
{
    let r: Vec<(u32, u16)> = vec![
        (0x4, 0x130),
        (0x8, 0x131),
        (0x2, 0x133),
        (0x1, 0x134),
        (0x40_0000, 0x136),
        (0x40, 0x137),
        (0x80_0000, 0x138),
        (0x80, 0x139),
        (0x100, 0x13a),
        (0x200, 0x13b),
        (0x1000, 0x13c),
        (0x800, 0x13d),
        (0x400, 0x13e),
        (0x2000, 0x2c0),
        (0x10_0000, 0x2c1),
        (0x20_0000, 0x2c2),
        (0x10, 0x2c3),
        (0x20, 0x2c4),
    ];
    assert(r@ =~= button_codes());
    r
}

pub open spec fn button_event(buttons: u32, code: (u32, u16)) -> (u16, u16, i32) {
    (1, code.1, if buttons & code.0 != 0 { 1 } else { 0 })
}

/// The event frame of a pair: every button, both sticks and the direction pad,
/// then the end of the frame. A frame is a full snapshot, so that readers recover
/// from lost frames.
pub open spec fn frame_spec(p: Pair) -> Seq<(u16, u16, i32)> {
    let (l, r) = (p.halves@[0], p.halves@[1]);
    let b = p.pressed();
    Seq::new(18, |i: int| button_event(b, button_codes()[i])) + seq![
        (3u16, 0u16, l.x),
        (3u16, 1u16, l.y),
        (3u16, 3u16, r.x),
        (3u16, 4u16, r.y),
        (3u16, 0x10u16, joycon::axis(b, 0x4_0000, 0x8_0000) as i32),
        (3u16, 0x11u16, joycon::axis(b, 0x1_0000, 0x2_0000) as i32),
        (0u16, 0u16, 0i32),
    ]
}

pub fn frame(p: &Pair) -> (r: Vec<(u16, u16, i32)>)
    ensures
        r@ == frame_spec(*p),
{
    let table = button_table();
    let buttons: u32 = p.buttons();
    let mut r: Vec<(u16, u16, i32)> = Vec::new();
    let mut i: usize = 0;
    while i < 18
        invariant
            i <= 18,
            table@ == button_codes(),
            r@.len() == i,
            forall|j: int|
                0 <= j < i ==> #[trigger] r@[j] == button_event(buttons, button_codes()[j]),
        decreases 18 - i,
    {
        let (bit, code): (u32, u16) = table[i];
        let value: i32 = if buttons & bit != 0 {
            1
        } else {
            0
        };
        r.push((1, code, value));
        i += 1;
    }
    let (x, y): (i32, i32) = p.hat();
    r.push((3, 0, p.halves[0].x));
    r.push((3, 1, p.halves[0].y));
    r.push((3, 3, p.halves[1].x));
    r.push((3, 4, p.halves[1].y));
    r.push((3, 0x10, x));
    r.push((3, 0x11, y));
    r.push((0, 0, 0));
    assert(r@ =~= frame_spec(*p));
    r
}

/// One rail as the worker sees it.
#[derive(Debug)]
pub struct Rail {
    pub link: Link,
    pub parser: Parser,
    pub detected: bool,
    pub first_input: bool,
}

/// The link, the half of the pair, and the reports to publish, in order, after a
/// burst of packets. A report is published where it differs from the last
/// published one, so that a press and its release in one burst both show.
pub open spec fn absorb_spec(l: Link, half: Report, packets: Seq<Seq<u8>>, now: u64) -> (
    Link,
    Report,
    Seq<Report>,
)
    decreases packets.len(),
{
    if packets.len() == 0 {
        (l, half, Seq::empty())
    } else {
        let (link, half, published) = absorb_spec(l, half, packets.drop_last(), now);
        let (next, report) = joycon::receive_spec(link, packets.last(), now);
        match report {
            Some(r) => if differs(r, half) {
                (next, r, published.push(r))
            } else {
                (next, half, published)
            },
            None => (next, half, published),
        }
    }
}

pub open spec fn differs(a: Report, b: Report) -> bool {
    a.buttons != b.buttons || joycon::distance(a.x, b.x) > joycon::AXIS_FUZZ || joycon::distance(
        a.y,
        b.y,
    ) > joycon::AXIS_FUZZ
}

/// Whether one of the packets carried a report.
pub open spec fn any_report(l: Link, packets: Seq<Seq<u8>>, now: u64) -> bool
    decreases packets.len(),
{
    packets.len() > 0 && (any_report(l, packets.drop_last(), now) || joycon::receive_spec(
        absorb_spec(l, joycon::neutral(), packets.drop_last(), now).0,
        packets.last(),
        now,
    ).1 is Some)
}

/// Whether a first report is known of: a start forgets it.
pub open spec fn heard_of(
    before: bool,
    l: Link,
    packets: Option<Seq<Seq<u8>>>,
    action: Option<Action>,
    now: u64,
) -> bool {
    action != Some(Action::Start) && (before || match packets {
        None => false,
        Some(packets) => any_report(l, packets, now),
    })
}

proof fn lemma_link_ignores_half(l: Link, a: Report, b: Report, packets: Seq<Seq<u8>>, now: u64)
    ensures
        absorb_spec(l, a, packets, now).0 == absorb_spec(l, b, packets, now).0,
    decreases packets.len(),
{
    if packets.len() > 0 {
        lemma_link_ignores_half(l, a, b, packets.drop_last(), now);
    }
}

impl Rail {
    pub fn new(side: Side) -> (r: Self)
        ensures
            r.link == joycon::new_link(side),
            r.parser.bytes@ == Seq::<u8>::empty(),
            !r.detected,
            !r.first_input,
    {
        Rail { link: Link::new(side), parser: Parser::default(), detected: false, first_input: false }
    }

    /// Whether the detection pin may be looked at. Looking takes the line away
    /// from the serial port, so it waits until no exchange is under way.
    pub fn may_detect(&self) -> (r: bool)
        ensures
            r == (self.link.stage == Stage::Detached || self.link.stage == Stage::Backoff),
    {
        self.link.stage == Stage::Detached || self.link.stage == Stage::Backoff
    }

    /// Takes what the detection pin shows. A change starts the rail over and lets
    /// go of everything that it held.
    pub fn detect(&mut self, attached: bool, pair: &mut Pair) -> (changed: bool)
        ensures
            changed == (attached != old(self).detected),
            final(self).detected == attached,
            if changed {
                &&& final(self).link == joycon::new_link(old(self).link.side)
                &&& final(self).parser.bytes@ == Seq::<u8>::empty()
                &&& !final(self).first_input
                &&& final(pair).halves@ == old(pair).halves@.update(
                    joycon::side_index(old(self).link.side) as int,
                    joycon::neutral(),
                )
            } else {
                *final(self) == *old(self) && *final(pair) == *old(pair)
            },
    {
        if attached == self.detected {
            return false;
        }
        self.detected = attached;
        self.link.detach();
        self.parser.clear();
        pair.release(self.link.side);
        self.first_input = false;
        true
    }

    /// Takes a burst of bytes, and hands out the snapshots to publish.
    pub fn absorb(&mut self, bytes: &[u8], pair: &mut Pair, now: u64) -> (r: Vec<Pair>)
        requires
            now + 1000 <= u64::MAX,
        ensures
            ({
                let side = joycon::side_index(old(self).link.side) as int;
                let (rest, packets) = joycon::feed_spec(old(self).parser.bytes@, bytes@);
                let (link, half, published) = absorb_spec(
                    old(self).link,
                    old(pair).halves@[side],
                    packets,
                    now,
                );
                &&& final(self).parser.bytes@ == rest
                &&& final(self).link == link
                &&& final(self).detected == old(self).detected
                &&& final(self).first_input == (old(self).first_input || any_report(
                    old(self).link,
                    packets,
                    now,
                ))
                &&& final(pair).halves@ == old(pair).halves@.update(side, half)
                &&& r@.len() == published.len()
                &&& forall|i: int|
                    0 <= i < r@.len() ==> (#[trigger] r@[i]).halves@ == old(pair).halves@.update(
                        side,
                        published[i],
                    )
            }),
    {
        let side: usize = self.link.side.index();
        let ghost k = side as int;
        let ghost before = pair.halves@;
        let ghost link0 = self.link;
        let packets = self.parser.feed(bytes);
        let ghost frames = joycon::frames_of(packets@);
        let mut r: Vec<Pair> = Vec::new();
        let mut i: usize = 0;
        assert(frames.take(0) =~= Seq::empty());
        assert(before.update(k, before[k]) =~= before);
        while i < packets.len()
            invariant
                now + 1000 <= u64::MAX,
                i <= packets@.len(),
                frames == joycon::frames_of(packets@),
                side == joycon::side_index(link0.side),
                k == side,
                before == old(pair).halves@,
                before.len() == 2,
                self.link.side == link0.side,
                self.detected == old(self).detected,
                self.parser.bytes@ == joycon::feed_spec(old(self).parser.bytes@, bytes@).0,
                link0 == old(self).link,
                self.first_input == (old(self).first_input || any_report(
                    link0,
                    frames.take(i as int),
                    now,
                )),
                ({
                    let (link, half, published) = absorb_spec(
                        link0,
                        before[k],
                        frames.take(i as int),
                        now,
                    );
                    &&& self.link == link
                    &&& pair.halves@ == before.update(k, half)
                    &&& r@.len() == published.len()
                    &&& forall|j: int|
                        0 <= j < r@.len() ==> (#[trigger] r@[j]).halves@ == before.update(
                            k,
                            published[j],
                        )
                }),
            decreases packets@.len() - i,
        {
            proof {
                assert(frames.take(i + 1).drop_last() =~= frames.take(i as int));
                assert(frames.take(i + 1).last() == packets@[i as int]@);
                lemma_link_ignores_half(
                    link0,
                    before[k],
                    joycon::neutral(),
                    frames.take(i as int),
                    now,
                );
                joycon::replies_count_in_order(self.link, packets@[i as int]@, now);
            }
            let packet = &packets[i];
            if let Some(report) = self.link.receive(packet.as_slice(), now) {
                self.first_input = true;
                if report.differs_from(pair.halves[side]) {
                    let ghost was = pair.halves@;
                    pair.set(self.link.side, report);
                    assert(was.update(k, report) =~= before.update(k, report));
                    r.push(*pair);
                }
            }
            i += 1;
        }
        assert(frames.take(i as int) =~= frames);
        r
    }

    /// Takes an error of the serial port.
    pub fn receive_failed(&mut self, now: u64)
        requires
            now + 1000 <= u64::MAX,
        ensures
            final(self).link == joycon::failed(old(self).link, now),
            final(self).parser.bytes@ == Seq::<u8>::empty(),
            final(self).detected == old(self).detected,
            final(self).first_input == old(self).first_input,
    {
        self.parser.clear();
        self.link.fail(now);
    }

    /// Lets go of what the rail holds once its last report is too old.
    pub fn expire(&self, pair: &mut Pair, now: u64) -> (changed: bool)
        ensures
            ({
                let side = joycon::side_index(self.link.side) as int;
                let stale = self.link.stage != Stage::Ready || now - self.link.last_input_ms >= 250;
                &&& changed == (stale && old(pair).halves@[side] != joycon::neutral())
                &&& if changed {
                    final(pair).halves@ == old(pair).halves@.update(side, joycon::neutral())
                } else {
                    *final(pair) == *old(pair)
                }
            }),
    {
        let half = pair.halves[self.link.side.index()];
        if self.link.stale(now) && !(half.buttons == 0 && half.x == 2048 && half.y == 2048) {
            pair.release(self.link.side);
            return true;
        }
        false
    }

    /// The next action on the rail. A start begins with an empty parser.
    pub fn next(&mut self, now: u64) -> (r: Option<Action>)
        requires
            now + joycon::next_reach(old(self).link, now) <= u64::MAX,
        ensures
            (final(self).link, r) == joycon::next_spec(old(self).link, now),
            final(self).detected == old(self).detected,
            if r == Some(Action::Start) {
                final(self).parser.bytes@ == Seq::<u8>::empty() && !final(self).first_input
            } else {
                final(self).parser == old(self).parser && final(self).first_input == old(
                    self,
                ).first_input
            },
    {
        let action = self.link.next(now);
        if action == Some(Action::Start) {
            self.parser.clear();
            self.first_input = false;
        }
        action
    }

    /// Takes the failure of an action: the rail rests and lets go of everything.
    pub fn transmit_failed(&mut self, pair: &mut Pair, now: u64)
        requires
            now + 1000 <= u64::MAX,
        ensures
            final(self).link == joycon::failed(old(self).link, now),
            final(self).parser == old(self).parser,
            final(self).detected == old(self).detected,
            final(self).first_input == old(self).first_input,
            final(pair).halves@ == old(pair).halves@.update(
                joycon::side_index(old(self).link.side) as int,
                joycon::neutral(),
            ),
    {
        self.link.fail(now);
        pair.release(self.link.side);
    }
}

/// Whether the detection pins are due, and when they will be due next.
pub fn detection_due(now: u64, next_detect: u64) -> (r: (bool, u64))
    requires
        now + DETECT_INTERVAL_MS <= u64::MAX,
    ensures
        r.0 == (now >= next_detect),
        r.1 == if r.0 {
            (now + DETECT_INTERVAL_MS) as u64
        } else {
            next_detect
        },
{
    if now >= next_detect {
        (true, now + DETECT_INTERVAL_MS)
    } else {
        (false, next_detect)
    }
}

/// Milliseconds that the worker may sleep: until the detection pins are due, or
/// an attached link wants to be asked.
pub open spec fn sleep_spec(now: u64, next_detect: u64, left: Option<u64>, right: Option<u64>) -> int {
    let a = match left {
        Some(d) if d < next_detect => d,
        _ => next_detect,
    };
    let b = match right {
        Some(d) if d < a => d,
        _ => a,
    };
    if b >= now {
        b - now
    } else {
        0
    }
}

pub fn sleep_ms(now: u64, next_detect: u64, left: Option<u64>, right: Option<u64>) -> (r: u64)
    ensures
        r == sleep_spec(now, next_detect, left, right),
{
    let mut deadline: u64 = next_detect;
    if let Some(d) = left {
        if d < deadline {
            deadline = d;
        }
    }
    if let Some(d) = right {
        if d < deadline {
            deadline = d;
        }
    }
    deadline.saturating_sub(now)
}

/// What one round of service on a rail leads to.
#[derive(Debug)]
pub struct Service {
    /// Snapshots to publish at once.
    pub snapshots: Vec<Pair>,
    /// Whether a snapshot is owed at the end of the round.
    pub changed: bool,
    pub action: Option<Action>,
}

/// The link and the half of the pair after input was taken and judged for age.
pub open spec fn serviced(l: Link, half: Report, input: Option<Seq<Seq<u8>>>, now: u64) -> (
    Link,
    Report,
) {
    let (link, half) = match input {
        None => (joycon::failed(l, now), half),
        Some(packets) => {
            let (link, half, _) = absorb_spec(l, half, packets, now);
            (link, half)
        },
    };
    if link.stage != Stage::Ready || now - link.last_input_ms >= 250 {
        (link, joycon::neutral())
    } else {
        (link, half)
    }
}

impl Rail {
    /// One round of service. `input` holds the bytes that came in, or nothing
    /// where the serial port failed; `changed` says whether a snapshot is owed
    /// already. Input of a rail without a controller is dropped.
    pub fn service(&mut self, pair: &mut Pair, input: Option<&[u8]>, changed: bool, now: u64) -> (r:
        Service)
        requires
            now + 1000 <= u64::MAX,
        ensures
            ({
                let side = joycon::side_index(old(self).link.side) as int;
                let half = old(pair).halves@[side];
                let packets = match input {
                    None => None,
                    Some(bytes) => Some(joycon::feed_spec(old(self).parser.bytes@, bytes@).1),
                };
                let (link, kept) = serviced(old(self).link, half, packets, now);
                let published = match packets {
                    None => Seq::empty(),
                    Some(p) => absorb_spec(old(self).link, half, p, now).2,
                };
                if !old(self).detected {
                    &&& *final(self) == *old(self)
                    &&& *final(pair) == *old(pair)
                    &&& r.snapshots@.len() == 0
                    &&& r.changed == changed
                    &&& r.action is None
                } else {
                    &&& (final(self).link, r.action) == joycon::next_spec(link, now)
                    &&& final(pair).halves@ == old(pair).halves@.update(side, kept)
                    &&& final(self).detected
                    &&& final(self).first_input == heard_of(
                        old(self).first_input,
                        old(self).link,
                        packets,
                        r.action,
                        now,
                    )
                    &&& final(self).parser.bytes@ == match input {
                        Some(bytes) if r.action != Some(Action::Start) => joycon::feed_spec(
                            old(self).parser.bytes@,
                            bytes@,
                        ).0,
                        _ => Seq::empty(),
                    }
                    &&& r.snapshots@.len() == published.len()
                    &&& forall|i: int|
                        0 <= i < r.snapshots@.len() ==> (#[trigger] r.snapshots@[i]).halves@
                            == old(pair).halves@.update(side, published[i])
                    &&& r.changed == ((changed && published.len() == 0) || kept != (match packets {
                        None => half,
                        Some(p) => absorb_spec(old(self).link, half, p, now).1,
                    }))
                }
            }),
    {
        let mut snapshots: Vec<Pair> = Vec::new();
        if !self.detected {
            return Service { snapshots, changed, action: None };
        }
        let ghost side = joycon::side_index(self.link.side) as int;
        let ghost before = pair.halves@;
        let mut changed = changed;
        assert(before.update(side, before[side]) =~= before);
        match input {
            None => {
                self.receive_failed(now);
            },
            Some(bytes) => {
                proof {
                    let packets = joycon::feed_spec(self.parser.bytes@, bytes@).1;
                    lemma_side_is_kept(self.link, before[side], packets, now);
                }
                snapshots = self.absorb(bytes, pair, now);
                if snapshots.len() > 0 {
                    changed = false;
                }
            },
        }
        let ghost middle = pair.halves@;
        assert(middle.update(side, joycon::neutral()) =~= before.update(
            side,
            joycon::neutral(),
        ));
        if self.expire(pair, now) {
            changed = true;
        }
        let action = self.next(now);
        Service { snapshots, changed, action }
    }
}

proof fn lemma_side_is_kept(l: Link, half: Report, packets: Seq<Seq<u8>>, now: u64)
    ensures
        absorb_spec(l, half, packets, now).0.side == l.side,
    decreases packets.len(),
{
    if packets.len() > 0 {
        lemma_side_is_kept(l, half, packets.drop_last(), now);
        joycon::replies_count_in_order(
            absorb_spec(l, half, packets.drop_last(), now).0,
            packets.last(),
            now,
        );
    }
}

/// Each published report differs from the one before it, so that no transition
/// inside a burst is lost and no report is published twice in a row.
pub proof fn published_reports_differ(l: Link, half: Report, packets: Seq<Seq<u8>>, now: u64)
    ensures
        ({
            let (_, last, published) = absorb_spec(l, half, packets, now);
            &&& published.len() > 0 ==> differs(published[0], half) && published.last() == last
            &&& published.len() == 0 ==> last == half
            &&& forall|i: int|
                0 < i < published.len() ==> differs(#[trigger] published[i], published[i - 1])
        }),
    decreases packets.len(),
{
    if packets.len() > 0 {
        published_reports_differ(l, half, packets.drop_last(), now);
    }
}

/// A frame holds one event of this kind and code, with this value.
pub open spec fn shows(frame: Seq<(u16, u16, i32)>, kind: u16, code: u16, value: i32) -> bool {
    exists|i: int|
        0 <= i < frame.len() && #[trigger] frame[i] == (kind, code, value) && forall|j: int|
            0 <= j < frame.len() && (#[trigger] frame[j]).0 == kind && frame[j].1 == code ==> j == i
}

proof fn lemma_codes(p: Pair, j: int)
    requires
        0 <= j < 25,
    ensures
        frame_spec(p).len() == 25,
        j < 18 ==> frame_spec(p)[j] == button_event(p.pressed(), button_codes()[j]),
        18 <= j < 24 ==> frame_spec(p)[j].0 == 3,
        j == 24 ==> frame_spec(p)[j].0 == 0,
        j < 18 ==> frame_spec(p)[j].0 == 1,
        j < 9 ==> frame_spec(p)[j].1 == seq![
            0x130u16, 0x131u16, 0x133u16, 0x134u16, 0x136u16, 0x137u16, 0x138u16, 0x139u16, 0x13au16,
        ][j],
        9 <= j < 18 ==> frame_spec(p)[j].1 == seq![
            0x13bu16, 0x13cu16, 0x13du16, 0x13eu16, 0x2c0u16, 0x2c1u16, 0x2c2u16, 0x2c3u16, 0x2c4u16,
        ][j - 9],
        18 <= j < 24 ==> frame_spec(p)[j].1 == seq![
            0u16, 1u16, 3u16, 4u16, 0x10u16, 0x11u16,
        ][j - 18],
{
}

proof fn lemma_shows(p: Pair, i: int)
    requires
        0 <= i < 24,
    ensures
        shows(frame_spec(p), frame_spec(p)[i].0, frame_spec(p)[i].1, frame_spec(p)[i].2),
{
    let f = frame_spec(p);
    lemma_codes(p, i);
    assert forall|j: int|
        0 <= j < f.len() && (#[trigger] f[j]).0 == f[i].0 && f[j].1 == f[i].1 implies j == i by {
        lemma_codes(p, j);
    }
    assert(f[i] == (f[i].0, f[i].1, f[i].2));
}

/// The left stick shows on the first two axes and the right stick on the next two, each
/// with its own position.
pub proof fn both_sticks_are_shown(p: Pair)
    ensures
        shows(frame_spec(p), 3, 0, p.halves@[0].x),
        shows(frame_spec(p), 3, 1, p.halves@[0].y),
        shows(frame_spec(p), 3, 3, p.halves@[1].x),
        shows(frame_spec(p), 3, 4, p.halves@[1].y),
        frame_spec(p).last() == (0u16, 0u16, 0i32),
{
    lemma_shows(p, 18);
    lemma_shows(p, 19);
    lemma_shows(p, 20);
    lemma_shows(p, 21);
}

/// Frames tell pairs apart: pairs with one frame have both sticks in one position, and the
/// same keys and directions pressed.
pub proof fn frames_tell_pairs_apart(p: Pair, q: Pair, bit: u32)
    requires
        frame_spec(p) == frame_spec(q),
        bit == 0x1 || bit == 0x2 || bit == 0x4 || bit == 0x8 || bit == 0x10 || bit == 0x20 || bit == 0x40 || bit == 0x80 || bit == 0x100 || bit == 0x200 || bit == 0x400 || bit == 0x800 || bit == 0x1000 || bit == 0x2000 || bit == 0x100000 || bit == 0x200000 || bit == 0x400000 || bit == 0x800000,
    ensures
        p.halves@[0].x == q.halves@[0].x,
        p.halves@[0].y == q.halves@[0].y,
        p.halves@[1].x == q.halves@[1].x,
        p.halves@[1].y == q.halves@[1].y,
        p.pressed() & bit != 0 <==> q.pressed() & bit != 0,
{
    let f = frame_spec(p);
    let (a, b) = (p.halves@, q.halves@);
    assert(f[18] == (3u16, 0u16, a[0].x) && f[18] == (3u16, 0u16, b[0].x));
    assert(f[19] == (3u16, 1u16, a[0].y) && f[19] == (3u16, 1u16, b[0].y));
    assert(f[20] == (3u16, 3u16, a[1].x) && f[20] == (3u16, 3u16, b[1].x));
    assert(f[21] == (3u16, 4u16, a[1].y) && f[21] == (3u16, 4u16, b[1].y));
    assert forall|i: int| 0 <= i < 18 implies (p.pressed() & (#[trigger] button_codes()[i]).0 != 0)
        == (q.pressed() & button_codes()[i].0 != 0) by {
        lemma_codes(p, i);
        lemma_codes(q, i);
    }
    assert(button_codes()[0].0 == 0x4);
    assert(button_codes()[1].0 == 0x8);
    assert(button_codes()[2].0 == 0x2);
    assert(button_codes()[3].0 == 0x1);
    assert(button_codes()[4].0 == 0x400000);
    assert(button_codes()[5].0 == 0x40);
    assert(button_codes()[6].0 == 0x800000);
    assert(button_codes()[7].0 == 0x80);
    assert(button_codes()[8].0 == 0x100);
    assert(button_codes()[9].0 == 0x200);
    assert(button_codes()[10].0 == 0x1000);
    assert(button_codes()[11].0 == 0x800);
    assert(button_codes()[12].0 == 0x400);
    assert(button_codes()[13].0 == 0x2000);
    assert(button_codes()[14].0 == 0x100000);
    assert(button_codes()[15].0 == 0x200000);
    assert(button_codes()[16].0 == 0x10);
    assert(button_codes()[17].0 == 0x20);
}

proof fn lemma_bits(a: u8, b: u8, c: u8)
    by (bit_vector)
    ensures
        ({
            let raw = (a + 256 * b + 65536 * c) as u32;
            let all = (raw & 0xff2900u32) | (raw & 0x0056ffu32);
            &&& (all & 0x1u32 != 0) == (a / 1 % 2 == 1)
            &&& (all & 0x2u32 != 0) == (a / 2 % 2 == 1)
            &&& (all & 0x4u32 != 0) == (a / 4 % 2 == 1)
            &&& (all & 0x8u32 != 0) == (a / 8 % 2 == 1)
            &&& (all & 0x10u32 != 0) == (a / 16 % 2 == 1)
            &&& (all & 0x20u32 != 0) == (a / 32 % 2 == 1)
            &&& (all & 0x40u32 != 0) == (a / 64 % 2 == 1)
            &&& (all & 0x80u32 != 0) == (a / 128 % 2 == 1)
            &&& (all & 0x100u32 != 0) == (b / 1 % 2 == 1)
            &&& (all & 0x200u32 != 0) == (b / 2 % 2 == 1)
            &&& (all & 0x400u32 != 0) == (b / 4 % 2 == 1)
            &&& (all & 0x800u32 != 0) == (b / 8 % 2 == 1)
            &&& (all & 0x1000u32 != 0) == (b / 16 % 2 == 1)
            &&& (all & 0x2000u32 != 0) == (b / 32 % 2 == 1)
            &&& (all & 0x10000u32 != 0) == (c / 1 % 2 == 1)
            &&& (all & 0x20000u32 != 0) == (c / 2 % 2 == 1)
            &&& (all & 0x40000u32 != 0) == (c / 4 % 2 == 1)
            &&& (all & 0x80000u32 != 0) == (c / 8 % 2 == 1)
            &&& (all & 0x100000u32 != 0) == (c / 16 % 2 == 1)
            &&& (all & 0x200000u32 != 0) == (c / 32 % 2 == 1)
            &&& (all & 0x400000u32 != 0) == (c / 64 % 2 == 1)
            &&& (all & 0x800000u32 != 0) == (c / 128 % 2 == 1)
        }),
{
}

/// Every button of a packet shows on its key, and no other: each is a bit of one of the
/// three bytes that both sides share, and the key is down exactly where the bit is set. The
/// direction pad shows on the last two axes: right and down are positive, and two opposite
/// directions cancel out.
pub proof fn buttons_reach_their_keys(packet: Seq<u8>, pair: Pair, left: Report, right: Report)
    requires
        joycon::report_spec(Side::Left, packet) == Some(left),
        joycon::report_spec(Side::Right, packet) == Some(right),
        pair.halves@ == seq![left, right],
    ensures
        ({
            let p = packet;
            let f = frame_spec(pair);
            &&& shows(f, 1, 0x130, pressed_bit(p[15], 4))
            &&& shows(f, 1, 0x131, pressed_bit(p[15], 8))
            &&& shows(f, 1, 0x133, pressed_bit(p[15], 2))
            &&& shows(f, 1, 0x134, pressed_bit(p[15], 1))
            &&& shows(f, 1, 0x136, pressed_bit(p[17], 64))
            &&& shows(f, 1, 0x137, pressed_bit(p[15], 64))
            &&& shows(f, 1, 0x138, pressed_bit(p[17], 128))
            &&& shows(f, 1, 0x139, pressed_bit(p[15], 128))
            &&& shows(f, 1, 0x13a, pressed_bit(p[16], 1))
            &&& shows(f, 1, 0x13b, pressed_bit(p[16], 2))
            &&& shows(f, 1, 0x13c, pressed_bit(p[16], 16))
            &&& shows(f, 1, 0x13d, pressed_bit(p[16], 8))
            &&& shows(f, 1, 0x13e, pressed_bit(p[16], 4))
            &&& shows(f, 1, 0x2c0, pressed_bit(p[16], 32))
            &&& shows(f, 1, 0x2c1, pressed_bit(p[17], 16))
            &&& shows(f, 1, 0x2c2, pressed_bit(p[17], 32))
            &&& shows(f, 1, 0x2c3, pressed_bit(p[15], 16))
            &&& shows(f, 1, 0x2c4, pressed_bit(p[15], 32))
            &&& shows(f, 3, 0x10, (pressed_bit(p[17], 4) - pressed_bit(p[17], 8)) as i32)
            &&& shows(f, 3, 0x11, (pressed_bit(p[17], 1) - pressed_bit(p[17], 2)) as i32)
        }),
{
    let p = packet;
    lemma_bits(p[15], p[16], p[17]);
    let raw = (p[15] + 256 * p[16] + 65536 * p[17]) as u32;
    assert(pair.pressed() == (raw & 0xff2900u32) | (raw & 0x0056ffu32));
    let b = pair.pressed();
    lemma_shows(pair, 0);
    assert(frame_spec(pair)[0] == (1u16, 0x130u16, pressed_bit(p[15], 4)));
    lemma_shows(pair, 1);
    assert(frame_spec(pair)[1] == (1u16, 0x131u16, pressed_bit(p[15], 8)));
    lemma_shows(pair, 2);
    assert(frame_spec(pair)[2] == (1u16, 0x133u16, pressed_bit(p[15], 2)));
    lemma_shows(pair, 3);
    assert(frame_spec(pair)[3] == (1u16, 0x134u16, pressed_bit(p[15], 1)));
    lemma_shows(pair, 4);
    assert(frame_spec(pair)[4] == (1u16, 0x136u16, pressed_bit(p[17], 64)));
    lemma_shows(pair, 5);
    assert(frame_spec(pair)[5] == (1u16, 0x137u16, pressed_bit(p[15], 64)));
    lemma_shows(pair, 6);
    assert(frame_spec(pair)[6] == (1u16, 0x138u16, pressed_bit(p[17], 128)));
    lemma_shows(pair, 7);
    assert(frame_spec(pair)[7] == (1u16, 0x139u16, pressed_bit(p[15], 128)));
    lemma_shows(pair, 8);
    assert(frame_spec(pair)[8] == (1u16, 0x13au16, pressed_bit(p[16], 1)));
    lemma_shows(pair, 9);
    assert(frame_spec(pair)[9] == (1u16, 0x13bu16, pressed_bit(p[16], 2)));
    lemma_shows(pair, 10);
    assert(frame_spec(pair)[10] == (1u16, 0x13cu16, pressed_bit(p[16], 16)));
    lemma_shows(pair, 11);
    assert(frame_spec(pair)[11] == (1u16, 0x13du16, pressed_bit(p[16], 8)));
    lemma_shows(pair, 12);
    assert(frame_spec(pair)[12] == (1u16, 0x13eu16, pressed_bit(p[16], 4)));
    lemma_shows(pair, 13);
    assert(frame_spec(pair)[13] == (1u16, 0x2c0u16, pressed_bit(p[16], 32)));
    lemma_shows(pair, 14);
    assert(frame_spec(pair)[14] == (1u16, 0x2c1u16, pressed_bit(p[17], 16)));
    lemma_shows(pair, 15);
    assert(frame_spec(pair)[15] == (1u16, 0x2c2u16, pressed_bit(p[17], 32)));
    lemma_shows(pair, 16);
    assert(frame_spec(pair)[16] == (1u16, 0x2c3u16, pressed_bit(p[15], 16)));
    lemma_shows(pair, 17);
    assert(frame_spec(pair)[17] == (1u16, 0x2c4u16, pressed_bit(p[15], 32)));
    lemma_shows(pair, 22);
    lemma_shows(pair, 23);
}

/// Whether a bit of a byte is set, as one or zero.
pub open spec fn pressed_bit(byte: u8, weight: int) -> i32 {
    if byte as int / weight % 2 == 1 {
        1
    } else {
        0
    }
}

/// A rail is the left or the right one by its two pins, and has its own pads, power and line.
pub proof fn rails_are_told_by_their_pins(detect: u32, detect_en: u32)
    ensures
        wiring_spec(detect, detect_en) is Some <==> (detect == 38 && detect_en == 25) || (detect
            == 62 && detect_en == 48),
        wiring_spec(detect, detect_en) matches Some(w) ==> {
            &&& w.side == Side::Left <==> detect == 38
            &&& w.side == Side::Left ==> w.tx_pad == 0x104 && w.detect_pad == 0x248 && w.power_pin
                == 227 && w.power_pad == 0x1a4 && w.power_mux == 5 && w.uart == 2
            &&& w.side == Side::Right ==> w.tx_pad == 0xf4 && w.detect_pad == 0x250 && w.power_pin
                == 83 && w.power_pad == 0x260 && w.power_mux == 0x6006 && w.uart == 1
        },
{
}

/// A rail is taken if both its pins are on one provider, the first active low and the second
/// active high.
pub proof fn rails_are_taken_with_their_polarity(detect: GpioRef, detect_en: GpioRef)
    ensures
        probe_spec(detect, detect_en) is Ok <==> {
            &&& detect.pin matches Some(d) && detect_en.pin matches Some(e) && wiring_spec(
                d,
                e,
            ) is Some
            &&& detect.flags == Some(1u32) && detect_en.flags == Some(0u32)
            &&& detect.provider is Some && detect.provider == detect_en.provider
        },
        probe_spec(detect, detect_en) matches Ok((w, provider)) ==> detect.provider == Some(
            provider,
        ) && Some(w) == wiring_spec(detect.pin->0, detect_en.pin->0),
{
}

/// The worker sleeps until the first of what it waits for, and not at all if that is over.
pub proof fn sleep_ends_with_the_first(
    now: u64,
    next_detect: u64,
    left: Option<u64>,
    right: Option<u64>,
)
    ensures
        ({
            let s = sleep_spec(now, next_detect, left, right);
            &&& 0 <= s
            &&& s > 0 ==> now + s <= next_detect && (left matches Some(d) ==> now + s <= d) && (
            right matches Some(d) ==> now + s <= d)
            &&& s > 0 ==> now + s == next_detect || Some((now + s) as u64) == left || Some(
                (now + s) as u64,
            ) == right
            &&& s == 0 ==> next_detect <= now || (left matches Some(d) && d <= now) || (
            right matches Some(d) && d <= now)
        }),
{
}

/// A half is at rest while its link is not ready and once nothing was heard of it for a
/// quarter of a second.
pub proof fn stale_halves_are_at_rest(
    l: Link,
    half: Report,
    input: Option<Seq<Seq<u8>>>,
    now: u64,
)
    ensures
        ({
            let (link, shown) = serviced(l, half, input, now);
            &&& link.stage != Stage::Ready ==> shown == joycon::neutral()
            &&& now - link.last_input_ms >= 250 ==> shown == joycon::neutral()
            &&& input is None ==> link.stage == Stage::Backoff && shown == joycon::neutral()
        }),
{
}

/// Reports differ if a button does or a stick moved by more than its noise.
pub proof fn reports_differ_beyond_noise(a: Report, b: Report)
    ensures
        differs(a, b) <==> a.buttons != b.buttons || a.x - b.x > joycon::AXIS_FUZZ || b.x - a.x
            > joycon::AXIS_FUZZ || a.y - b.y > joycon::AXIS_FUZZ || b.y - a.y > joycon::AXIS_FUZZ,
{
}

} // verus!
