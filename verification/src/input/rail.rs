//! One rail as the board has it: its pins, whether a controller is attached, what is
//! sent to it, and the first exchange with it.
use vstd::prelude::*;

use crate::input::gamepad;
use crate::input::gamepad::{Rail, Wiring};
use crate::input::joycon;
use crate::input::joycon::{Action, Pair, Report, Stage, WAKE_HANDSHAKE};
use crate::mmio;
use crate::mmio::{Access, Bus, Step, Timed};
use crate::soc::clocks;
use crate::soc::clocks::uart_baud;
use crate::soc::gpio;
use crate::soc::gpio::{enable_rail_supply, pad, TegraGpio};
use crate::soc::map::{GPIO, PADS};
use crate::soc::uart;
use crate::soc::uart::{configure, send};

verus! {

/// What powers a rail, and makes its detection pin readable.
pub open spec fn power_writes(w: Wiring, detect: u32) -> Seq<(usize, u32)> {
    seq![
        ((PADS + w.power_pad) as usize, w.power_mux),
        gpio::masked_write(w.power_pin, 0xa0, true),
        gpio::masked_write(w.power_pin, 0x90, true),
        gpio::masked_write(w.power_pin, 0x80, true),
        ((PADS + w.detect_pad) as usize, 0x50),
        gpio::masked_write(detect, 0x90, false),
        gpio::masked_write(detect, 0x80, true),
    ]
}

/// Powers a rail.
pub fn power_up<R: Timed>(
    bus: &mut Bus<'_, R>,
    gpio: &TegraGpio,
    w: Wiring,
    detect: u32,
    detect_en: u32,
) -> (r: Result<(), &'static str>)
    requires
        gamepad::wiring_spec(detect, detect_en) == Some(w),
    ensures
        final(bus).port() == old(bus).port(),
        r == Ok::<(), &'static str>(()),
        mmio::memory_kept(old(bus).log(), final(bus).log()),
        exists|a: Seq<Access>|
            {
                &&& mmio::only_wrote(old(bus).log(), a, gpio::supply_writes(a))
                &&& #[trigger] mmio::only_wrote(a, final(bus).log(), power_writes(w, detect))
            },
{
    enable_rail_supply(bus, gpio)?;
    let ghost a = bus.log();
    pad(bus, w.power_pad as usize, w.power_mux)?;
    gpio.output(bus, w.power_pin, true)?;
    pad(bus, w.detect_pad as usize, 0x50)?;
    gpio.input(bus, detect)?;
    assert(mmio::writes(bus.log()) =~= mmio::writes(a) + power_writes(w, detect));
    assert(mmio::only_wrote(a, bus.log(), power_writes(w, detect)));
    Ok(())
}

/// What looking for a controller does to the line that is also the port's.
pub open spec fn look_writes(w: Wiring, detect_en: u32) -> Seq<(usize, u32)> {
    seq![
        ((PADS + w.tx_pad) as usize, 0x40u32),
        gpio::masked_write(detect_en, 0x90, false),
        gpio::masked_write(detect_en, 0x80, true),
        ((PADS + w.tx_pad) as usize, 0),
        gpio::masked_write(detect_en, 0x80, false),
    ]
}

/// Where the detection pin is read.
pub open spec fn detect_at(detect: u32) -> usize {
    let (port, _) = gpio::pin_spec(detect)->0;
    (GPIO + port + 0x30) as usize
}

/// The bit of the detection pin.
pub open spec fn detect_mask(detect: u32) -> u32 {
    let (_, mask) = gpio::pin_spec(detect)->0;
    mask
}

/// What looking for a controller does, in order: the line is taken from the port, the pin
/// is read twice, and the line is given back.
pub open spec fn look_steps(w: Wiring, detect: u32, detect_en: u32) -> Seq<Step> {
    seq![Step::Write((PADS + w.tx_pad) as usize, 0x40)] + (gpio::masked_steps(
        detect_en,
        0x90,
        false,
    ) + gpio::masked_steps(detect_en, 0x80, true)) + seq![
        Step::Delay(20),
        Step::Read(detect_at(detect)),
        Step::Read(detect_at(detect)),
        Step::Write((PADS + w.tx_pad) as usize, 0),
    ] + gpio::masked_steps(detect_en, 0x80, false) + seq![Step::Delay(20)]
}

/// Looks whether a controller is attached, and gives the line back to the port. The
/// pin is read twice, since the first reading only opens its buffer; it is low where
/// a controller is.
pub fn attached<R: Timed>(
    bus: &mut Bus<'_, R>,
    gpio: &TegraGpio,
    w: Wiring,
    detect: u32,
    detect_en: u32,
) -> (r: Result<bool, &'static str>)
    requires
        gamepad::wiring_spec(detect, detect_en) == Some(w),
    ensures
        final(bus).port() == old(bus).port(),
        mmio::memory_kept(old(bus).log(), final(bus).log()),
        mmio::writes(final(bus).log()) == mmio::writes(old(bus).log()) + look_writes(w, detect_en),
        mmio::did(old(bus).log(), final(bus).log(), look_steps(w, detect, detect_en)),
        r == Ok::<bool, &'static str>(
            mmio::last(final(bus).log(), detect_at(detect)) & detect_mask(detect) == 0,
        ),
{
    let ghost o = bus.log();
    pad(bus, w.tx_pad as usize, 0x40)?;
    let ghost a = bus.log();
    gpio.input(bus, detect_en)?;
    let ghost b = bus.log();
    bus.delay_us(20);
    let _ = gpio.get(bus, detect)?;
    let level: bool = gpio.get(bus, detect)?;
    pad(bus, w.tx_pad as usize, 0)?;
    let ghost c = bus.log();
    gpio.peripheral(bus, detect_en)?;
    let ghost d = bus.log();
    bus.delay_us(20);
    proof {
        let s1 = seq![Step::Write((PADS + w.tx_pad) as usize, 0x40)];
        let s2 = gpio::masked_steps(detect_en, 0x90, false) + gpio::masked_steps(
            detect_en,
            0x80,
            true,
        );
        let s3 = seq![
            Step::Delay(20),
            Step::Read(detect_at(detect)),
            Step::Read(detect_at(detect)),
            Step::Write((PADS + w.tx_pad) as usize, 0),
        ];
        let s4 = gpio::masked_steps(detect_en, 0x80, false);
        assert(mmio::did(o, a, s1));
        mmio::lemma_did(o, a, b, s1, s2);
        assert(mmio::did(b, c, s3));
        mmio::lemma_did(o, b, c, s1 + s2, s3);
        mmio::lemma_did(o, c, d, s1 + s2 + s3, s4);
        assert(mmio::did(d, bus.log(), seq![Step::Delay(20)]));
        mmio::lemma_did(o, d, bus.log(), s1 + s2 + s3 + s4, seq![Step::Delay(20)]);
    }
    assert(mmio::writes(bus.log()) =~= mmio::writes(old(bus).log()) + look_writes(w, detect_en));
    Ok(!level)
}

/// What is done on the line for an action.
#[verifier::opaque]
pub open spec fn line_done(
    before: Seq<Access>,
    after: Seq<Access>,
    action: Action,
    interrupts: bool,
) -> bool {
    match action {
        Action::Start => exists|a: Seq<Access>| #[trigger]
            uart::was_configured(before, a, 1_000_000, interrupts) && uart::were_sent(
                a,
                after,
                joycon::command_bytes(WAKE_HANDSHAKE),
            ),
        Action::ConfigureFast => uart::was_configured(before, after, 3_000_000, interrupts),
        Action::Send(command) => uart::were_sent(before, after, joycon::command_bytes(command)),
    }
}

/// A line did not take the bytes of an action.
#[verifier::opaque]
pub open spec fn line_failed(
    before: Seq<Access>,
    after: Seq<Access>,
    action: Action,
    interrupts: bool,
    e: &'static str,
) -> bool {
    match action {
        Action::Start => exists|a: Seq<Access>| #[trigger]
            uart::was_configured(before, a, 1_000_000, interrupts) && uart::send_failed(
                a,
                after,
                joycon::command_bytes(WAKE_HANDSHAKE),
                e,
            ),
        Action::ConfigureFast => false,
        Action::Send(command) => uart::send_failed(
            before,
            after,
            joycon::command_bytes(command),
            e,
        ),
    }
}

/// The rate that an action sets.
pub open spec fn rate_of(action: Action) -> Option<u32> {
    match action {
        Action::Start => Some(1_000_000),
        Action::ConfigureFast => Some(3_000_000),
        Action::Send(_) => None,
    }
}

/// Performs an action: sets the rate of the port where the action has one, and sends.
pub fn transmit<A: Timed, B: Timed>(
    board: &mut Bus<'_, A>,
    line: &mut Bus<'_, B>,
    source: usize,
    interrupts: bool,
    action: Action,
) -> (r: Result<(), &'static str>)
    requires
        source < 0x1000,
    ensures
        final(line).port() == old(line).port(),
        final(board).port() == old(board).port(),
        mmio::extends(old(board).log(), final(board).log()),
        mmio::memory_kept(old(line).log(), final(line).log()),
        r is Ok ==> line_done(old(line).log(), final(line).log(), action, interrupts),
        match rate_of(action) {
            None => final(board).log() == old(board).log(),
            Some(rate) => clocks::rate_given(
                old(board).log(),
                final(board).log(),
                source as int,
                clocks::divider_spec(rate)->0,
            ),
        },
        // Only a line that does not take its bytes fails.
        r matches Err(e) ==> line_failed(old(line).log(), final(line).log(), action, interrupts, e),
{
    reveal(line_done);
    reveal(line_failed);
    match action {
        Action::Start => {
            uart_baud(board, source, 1_000_000)?;
            configure(line, 1_000_000, interrupts);
            assert(uart::was_configured(old(line).log(), line.log(), 1_000_000, interrupts));
            let bytes = WAKE_HANDSHAKE.bytes();
            send(line, bytes.as_slice())
        },
        Action::ConfigureFast => {
            uart_baud(board, source, 3_000_000)?;
            configure(line, 3_000_000, interrupts);
            Ok(())
        },
        Action::Send(command) => {
            let bytes = command.bytes();
            send(line, bytes.as_slice())
        },
    }
}

/// The link after some packets, up to the first report.
pub open spec fn first_report(l: joycon::Link, packets: Seq<Seq<u8>>, now: u64) -> (
    joycon::Link,
    Option<Report>,
)
    decreases packets.len(),
{
    if packets.len() == 0 {
        (l, None)
    } else {
        let (next, report) = joycon::receive_spec(l, packets[0], now);
        match report {
            Some(_) => (next, report),
            None => first_report(next, packets.skip(1), now),
        }
    }
}

/// How a round of the first exchange ended.
#[derive(Clone, Copy, Debug, PartialEq, Eq, Structural)]
pub enum Round {
    /// The first report came in.
    Done(Report),
    /// The exchange is over for now: the port failed, the time is up, or the link rests.
    Stopped,
    /// Nothing is due.
    Idle,
    /// This is to be done before the next round.
    Act(Action),
}

/// One round of the first exchange: what came in, then what is due.
pub open spec fn round_spec(
    l: joycon::Link,
    packets: Option<Seq<Seq<u8>>>,
    now: u64,
    deadline: u64,
) -> (joycon::Link, Round) {
    match packets {
        None => (joycon::failed(l, now), Round::Stopped),
        Some(packets) => {
            let (link, report) = first_report(l, packets, now);
            match report {
                Some(report) => (link, Round::Done(report)),
                None => if now >= deadline || link.stage == Stage::Backoff {
                    (link, Round::Stopped)
                } else {
                    let (next, action) = joycon::next_spec(link, now);
                    match action {
                        None => (next, Round::Idle),
                        Some(action) => (next, Round::Act(action)),
                    }
                },
            }
        },
    }
}

/// One round of the first exchange, with what the port received; nothing for a port
/// that failed.
pub fn first_round(rail: &mut Rail, input: Option<&[u8]>, now: u64, deadline: u64) -> (r: Round)
    requires
        now + 1000 <= u64::MAX,
    ensures
        ({
            let packets = match input {
                None => None,
                Some(bytes) => Some(joycon::feed_spec(old(rail).parser.bytes@, bytes@).1),
            };
            (final(rail).link, r) == round_spec(old(rail).link, packets, now, deadline)
        }),
        final(rail).detected == old(rail).detected,
        final(rail).first_input == (old(rail).first_input && r != Round::Act(Action::Start)),
        input is None || r == Round::Act(Action::Start) ==> final(rail).parser.bytes@ == Seq::<
            u8,
        >::empty(),
        input is Some && r != Round::Act(Action::Start) ==> final(rail).parser.bytes@
            == joycon::feed_spec(old(rail).parser.bytes@, input->0@).0,
{
    let bytes = match input {
        None => {
            rail.receive_failed(now);
            return Round::Stopped;
        },
        Some(bytes) => bytes,
    };
    let ghost link0 = rail.link;
    let packets = rail.parser.feed(bytes);
    let ghost frames = joycon::frames_of(packets@);
    let mut i: usize = 0;
    assert(frames.skip(0) =~= frames);
    while i < packets.len()
        invariant
            now + 1000 <= u64::MAX,
            i <= packets@.len(),
            frames == joycon::frames_of(packets@),
            frames == joycon::feed_spec(old(rail).parser.bytes@, bytes@).1,
            input == Some(bytes),
            link0 == old(rail).link,
            rail.detected == old(rail).detected,
            rail.first_input == old(rail).first_input,
            rail.parser.bytes@ == joycon::feed_spec(old(rail).parser.bytes@, bytes@).0,
            first_report(rail.link, frames.skip(i as int), now) == first_report(
                link0,
                frames,
                now,
            ),
        decreases packets@.len() - i,
    {
        assert(frames.skip(i as int)[0] == packets@[i as int]@);
        assert(frames.skip(i as int).skip(1) =~= frames.skip(i + 1));
        if let Some(report) = rail.link.receive(packets[i].as_slice(), now) {
            return Round::Done(report);
        }
        i = i + 1;
    }
    assert(frames.skip(i as int).len() == 0);
    if now >= deadline || rail.link.stage == Stage::Backoff {
        return Round::Stopped;
    }
    match rail.next(now) {
        None => Round::Idle,
        Some(action) => Round::Act(action),
    }
}

/// How long the first exchange may take: each of its commands may wait for an answer
/// for a second, twice.
pub const FIRST_EXCHANGE_MS: u64 = 12_000;

/// When the first exchange that begins now is over at the latest.
pub fn first_deadline(now: u64) -> (r: u64)
    ensures
        r == if now + FIRST_EXCHANGE_MS > u64::MAX {
            u64::MAX as int
        } else {
            now + FIRST_EXCHANGE_MS
        },
{
    if now > u64::MAX - FIRST_EXCHANGE_MS {
        u64::MAX
    } else {
        now + FIRST_EXCHANGE_MS
    }
}

/// Takes a rail over from the first exchange, with the report that ended it. A link that
/// is ready counts as heard of just now. Whether a snapshot is owed is told.
pub fn adopt(
    rail: &mut Rail,
    pair: &mut Pair,
    attached: bool,
    report: Option<Report>,
    now: u64,
) -> (changed: bool)
    ensures
        changed == report is Some,
        final(rail).detected == attached,
        final(rail).parser == old(rail).parser,
        final(rail).first_input == (old(rail).first_input || report is Some),
        match report {
            None => *final(pair) == *old(pair),
            Some(report) => final(pair).halves@ == old(pair).halves@.update(
                joycon::side_index(old(rail).link.side) as int,
                report,
            ),
        },
        final(rail).link == if old(rail).link.stage == Stage::Ready {
            joycon::Link { last_input_ms: now, ..old(rail).link }
        } else {
            old(rail).link
        },
{
    rail.detected = attached;
    if rail.link.stage == Stage::Ready {
        rail.link.last_input_ms = now;
    }
    match report {
        None => false,
        Some(report) => {
            pair.set(rail.link.side, report);
            rail.first_input = true;
            true
        },
    }
}

/// The first report ends the first exchange with a link that is ready.
pub proof fn first_reports_prove_the_link(
    l: joycon::Link,
    packets: Seq<Seq<u8>>,
    now: u64,
    deadline: u64,
)
    requires
        round_spec(l, Some(packets), now, deadline).1 is Done,
    ensures
        round_spec(l, Some(packets), now, deadline).0.stage == Stage::Ready,
        round_spec(l, Some(packets), now, deadline).0.last_input_ms == now,
        round_spec(l, Some(packets), now, deadline).0.side == l.side,
{
    lemma_first(l, packets, now);
}

proof fn lemma_first(l: joycon::Link, packets: Seq<Seq<u8>>, now: u64)
    ensures
        first_report(l, packets, now).1 is Some ==> {
            &&& first_report(l, packets, now).0.stage == Stage::Ready
            &&& first_report(l, packets, now).0.last_input_ms == now
        },
        first_report(l, packets, now).0.side == l.side,
    decreases packets.len(),
{
    if packets.len() > 0 {
        let (next, report) = joycon::receive_spec(l, packets[0], now);
        if report is None {
            lemma_first(next, packets.skip(1), now);
        }
    }
}

/// A line starts at one megabaud and goes on at three.
pub proof fn lines_have_two_rates(action: Action)
    ensures
        action is Start ==> rate_of(action) == Some(1_000_000u32),
        action is ConfigureFast ==> rate_of(action) == Some(3_000_000u32),
        action is Send ==> rate_of(action) is None,
{
}

/// A rail gets its power, driven high before it is a pin, and its detection is read; to look
/// the sending pad is let go and given back.
pub proof fn rails_get_power_and_are_looked_at(w: Wiring, detect: u32, detect_en: u32)
    requires
        w.power_pad < 0x1000,
        w.detect_pad < 0x1000,
        w.tx_pad < 0x1000,
    ensures
        ({
            let p = power_writes(w, detect);
            let l = look_writes(w, detect_en);
            &&& p.len() == 7
            &&& p[0].0 == 0x7000_3000 + w.power_pad && p[0].1 == w.power_mux
            &&& p[1] == gpio::masked_write(w.power_pin, 0xa0, true)
            &&& p[2] == gpio::masked_write(w.power_pin, 0x90, true)
            &&& p[3] == gpio::masked_write(w.power_pin, 0x80, true)
            &&& p[4].0 == 0x7000_3000 + w.detect_pad && p[4].1 == 0x50
            &&& p[5] == gpio::masked_write(detect, 0x90, false)
            &&& p[6] == gpio::masked_write(detect, 0x80, true)
            &&& l.len() == 5
            &&& l[0].0 == 0x7000_3000 + w.tx_pad && l[0].1 == 0x40
            &&& l[1] == gpio::masked_write(detect_en, 0x90, false)
            &&& l[2] == gpio::masked_write(detect_en, 0x80, true)
            &&& l[3].0 == l[0].0 && l[3].1 == 0
            &&& l[4] == gpio::masked_write(detect_en, 0x80, false)
        }),
{
}

} // verus!
