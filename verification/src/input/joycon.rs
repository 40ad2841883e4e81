//! Serial protocol of attached controllers: framing, reports and the link state
//! machine.
use vstd::prelude::*;

verus! {

/// A command of the host.
#[derive(Clone, Copy, Debug, PartialEq, Eq, Structural)]
pub enum Command {
    WakeHandshake,
    Info,
    Baud,
    Disconnect,
    Connect,
    Rate,
    Poll,
}

/// Wake and handshake go out back to back. Every handshake retry wakes the
/// controller again.
pub const WAKE_HANDSHAKE: Command = Command::WakeHandshake;

pub const INFO: Command = Command::Info;

pub const BAUD: Command = Command::Baud;

pub const DISCONNECT: Command = Command::Disconnect;

pub const CONNECT: Command = Command::Connect;

pub const RATE: Command = Command::Rate;

pub const POLL: Command = Command::Poll;

/// The bytes of a command on the wire.
pub open spec fn command_bytes(c: Command) -> Seq<u8> {
    match c {
        Command::WakeHandshake => seq![
            0xa1u8, 0xa2, 0xa3, 0xa4, 0x19, 1, 3, 7, 0, 0xa5, 2, 1, 0x7e, 0, 0, 0,
        ],
        Command::Info => seq![0x19u8, 1, 3, 7, 0, 0x91, 1, 0, 0, 0, 0, 0x24],
        Command::Baud => seq![
            0x19u8, 1, 3, 15, 0, 0x91, 0x20, 8, 0, 0, 0xbd, 0xb1, 0xc0, 0xc6, 0x2d, 0, 0, 0, 0, 0,
        ],
        Command::Disconnect => seq![0x19u8, 1, 3, 7, 0, 0x91, 0x11, 0, 0, 0, 0, 0x0e],
        Command::Connect => seq![0x19u8, 1, 3, 7, 0, 0x91, 0x10, 0, 0, 0, 0, 0x3d],
        Command::Rate => seq![
            0x19u8, 1, 3, 11, 0, 0x91, 0x12, 4, 0, 0, 0x12, 0xa6, 15, 0, 0, 0,
        ],
        Command::Poll => seq![0x19u8, 1, 3, 8, 0, 0x92, 0, 1, 0, 0, 0x69, 0x2d, 0x1f],
    }
}

impl Command {
    pub fn bytes(self) -> (r: Vec<u8>)
        ensures
            r@ == command_bytes(self),
    {
        let r: Vec<u8> = match self {
            Command::WakeHandshake => vec![
                0xa1, 0xa2, 0xa3, 0xa4, 0x19, 1, 3, 7, 0, 0xa5, 2, 1, 0x7e, 0, 0, 0,
            ],
            Command::Info => vec![0x19, 1, 3, 7, 0, 0x91, 1, 0, 0, 0, 0, 0x24],
            Command::Baud => vec![
                0x19, 1, 3, 15, 0, 0x91, 0x20, 8, 0, 0, 0xbd, 0xb1, 0xc0, 0xc6, 0x2d, 0, 0, 0, 0, 0,
            ],
            Command::Disconnect => vec![0x19, 1, 3, 7, 0, 0x91, 0x11, 0, 0, 0, 0, 0x0e],
            Command::Connect => vec![0x19, 1, 3, 7, 0, 0x91, 0x10, 0, 0, 0, 0, 0x3d],
            Command::Rate => vec![0x19, 1, 3, 11, 0, 0x91, 0x12, 4, 0, 0, 0x12, 0xa6, 15, 0, 0, 0],
            Command::Poll => vec![0x19, 1, 3, 8, 0, 0x92, 0, 1, 0, 0, 0x69, 0x2d, 0x1f],
        };
        assert(r@ =~= command_bytes(self));
        r
    }
}

#[derive(Clone, Copy, Debug, PartialEq, Eq, Structural)]
pub enum Side {
    Left,
    Right,
}

pub open spec fn side_index(side: Side) -> usize {
    match side {
        Side::Left => 0,
        Side::Right => 1,
    }
}

pub open spec fn side_id(side: Side) -> u8 {
    match side {
        Side::Left => 1,
        Side::Right => 2,
    }
}

/// The button bits that one side owns.
pub open spec fn side_buttons(side: Side) -> u32 {
    match side {
        Side::Left => 0xff2900,
        Side::Right => 0x0056ff,
    }
}

impl Side {
    pub fn index(self) -> (r: usize)
        ensures
            r == side_index(self),
    {
        match self {
            Side::Left => 0,
            Side::Right => 1,
        }
    }

    fn id(self) -> (r: u8)
        ensures
            r == side_id(self),
    {
        match self {
            Side::Left => 1,
            Side::Right => 2,
        }
    }

    pub fn button_mask(self) -> (r: u32)
        ensures
            r == side_buttons(self),
    {
        match self {
            Side::Left => 0xff2900,
            Side::Right => 0x0056ff,
        }
    }
}

/// Total size that the header of a frame announces.
pub open spec fn frame_size(b: Seq<u8>) -> int {
    b[3] + 256 * b[4] + 5
}

pub open spec fn has_magic(b: Seq<u8>) -> bool {
    b[0] == 0x19 && b[1] == 0x81 && b[2] == 3
}

/// A whole frame: the magic, an announced size of 12 to 256 bytes, and as many
/// bytes.
pub open spec fn is_frame(b: Seq<u8>) -> bool {
    b.len() >= 5 && has_magic(b) && 12 <= frame_size(b) <= 256 && b.len() == frame_size(b)
}

/// Bytes that may still become a frame.
pub open spec fn is_partial(b: Seq<u8>) -> bool {
    ||| b.len() < 3
    ||| (has_magic(b) && b.len() < 5)
    ||| (has_magic(b) && 12 <= frame_size(b) <= 256 && b.len() < frame_size(b))
}

/// The buffer after bytes that cannot begin a frame were dropped from its front,
/// and the frame that it then holds, if it is whole.
pub open spec fn settle(b: Seq<u8>) -> (Seq<u8>, Option<Seq<u8>>)
    decreases b.len(),
{
    if b.len() < 3 {
        (b, None)
    } else if !has_magic(b) {
        settle(b.drop_first())
    } else if b.len() < 5 {
        (b, None)
    } else if !(12 <= frame_size(b) <= 256) {
        settle(b.drop_first())
    } else if b.len() < frame_size(b) {
        (b, None)
    } else {
        (Seq::empty(), Some(b))
    }
}

/// The buffer after `input`, and the frames that were completed, in order.
pub open spec fn feed_spec(buffer: Seq<u8>, input: Seq<u8>) -> (Seq<u8>, Seq<Seq<u8>>)
    decreases input.len(),
{
    if input.len() == 0 {
        (buffer, Seq::empty())
    } else {
        let (before, frames) = feed_spec(buffer, input.drop_last());
        let (after, frame) = settle(before.push(input.last()));
        (
            after,
            match frame {
                None => frames,
                Some(f) => frames.push(f),
            },
        )
    }
}

proof fn lemma_settle(b: Seq<u8>)
    requires
        b.len() > 0,
        is_partial(b.drop_last()),
    ensures
        is_partial(settle(b).0),
        settle(b).0.len() <= b.len(),
        settle(b).1 matches Some(f) ==> is_frame(f) && f == b,
    decreases b.len(),
{
    let c = b.drop_last();
    if b.len() < 3 {
    } else if !has_magic(b) {
        if c.len() >= 3 {
            assert(has_magic(c));
        }
        lemma_settle_short(b.drop_first());
    } else if b.len() < 5 {
    } else {
        if b.len() > 5 {
            assert(frame_size(c) == frame_size(b));
        }
        if !(12 <= frame_size(b) <= 256) {
            lemma_settle_short(b.drop_first());
        }
    }
}

/// A buffer of at most four bytes never holds a frame.
proof fn lemma_settle_short(b: Seq<u8>)
    requires
        b.len() <= 4,
    ensures
        is_partial(settle(b).0),
        settle(b).0.len() <= b.len(),
        settle(b).1 is None,
    decreases b.len(),
{
    if b.len() >= 3 && !has_magic(b) {
        lemma_settle_short(b.drop_first());
    }
}

/// Every frame that the parser delivers is whole: it begins with the magic and
/// has the size that its header announces.
pub proof fn delivered_frames_are_whole(buffer: Seq<u8>, input: Seq<u8>)
    requires
        is_partial(buffer),
    ensures
        is_partial(feed_spec(buffer, input).0),
        forall|i: int|
            0 <= i < feed_spec(buffer, input).1.len() ==> is_frame(
                #[trigger] feed_spec(buffer, input).1[i],
            ),
    decreases input.len(),
{
    if input.len() > 0 {
        delivered_frames_are_whole(buffer, input.drop_last());
        let before = feed_spec(buffer, input.drop_last()).0;
        assert(before.push(input.last()).drop_last() =~= before);
        lemma_settle(before.push(input.last()));
    }
}

/// It does not matter how the input is cut into pieces.
pub proof fn feeding_is_incremental(buffer: Seq<u8>, a: Seq<u8>, b: Seq<u8>)
    ensures
        feed_spec(buffer, a + b).0 == feed_spec(feed_spec(buffer, a).0, b).0,
        feed_spec(buffer, a + b).1 == feed_spec(buffer, a).1 + feed_spec(
            feed_spec(buffer, a).0,
            b,
        ).1,
    decreases b.len(),
{
    if b.len() == 0 {
        assert(a + b =~= a);
        assert(feed_spec(buffer, a).1 + Seq::<Seq<u8>>::empty() =~= feed_spec(buffer, a).1);
    } else {
        feeding_is_incremental(buffer, a, b.drop_last());
        assert((a + b).drop_last() =~= a + b.drop_last());
        let first = feed_spec(buffer, a).1;
        let second = feed_spec(feed_spec(buffer, a).0, b.drop_last()).1;
        let (_, frame) = settle(feed_spec(buffer, (a + b).drop_last()).0.push(b.last()));
        if let Some(f) = frame {
            assert((first + second).push(f) =~= first + second.push(f));
        }
    }
}

/// A frame that comes in when nothing is buffered is delivered as it is, and
/// nothing else is.
pub proof fn a_frame_is_delivered(frame: Seq<u8>)
    requires
        is_frame(frame),
    ensures
        feed_spec(Seq::empty(), frame) == (Seq::<u8>::empty(), seq![frame]),
{
    let n = frame.len() as int;
    lemma_frame_prefix(frame, n - 1);
    assert(frame.take(n - 1) =~= frame.drop_last());
    assert(frame.drop_last().push(frame.last()) =~= frame);
    assert(Seq::<Seq<u8>>::empty().push(frame) =~= seq![frame]);
}

proof fn lemma_frame_prefix(frame: Seq<u8>, k: int)
    requires
        is_frame(frame),
        0 <= k < frame.len(),
    ensures
        feed_spec(Seq::empty(), frame.take(k)) == (frame.take(k), Seq::<Seq<u8>>::empty()),
    decreases k,
{
    if k == 0 {
        assert(frame.take(0) =~= Seq::empty());
    } else {
        lemma_frame_prefix(frame, k - 1);
        assert(frame.take(k).drop_last() =~= frame.take(k - 1));
        assert(frame.take(k - 1).push(frame[k - 1]) =~= frame.take(k));
    }
}

/// The frames are runs of a stream, one behind the other without overlap, and `rest` is
/// its end, behind them all.
pub open spec fn are_runs(
    stream: Seq<u8>,
    frames: Seq<Seq<u8>>,
    starts: Seq<int>,
    rest: Seq<u8>,
) -> bool {
    &&& starts.len() == frames.len()
    &&& rest.len() <= stream.len()
    &&& rest == stream.skip(stream.len() - rest.len())
    &&& forall|k: int|
        0 <= k < frames.len() ==> 0 <= #[trigger] starts[k] && starts[k] + frames[k].len()
            <= stream.len() - rest.len() && frames[k] == stream.subrange(
            starts[k],
            starts[k] + frames[k].len(),
        )
    &&& forall|j: int, k: int|
        0 <= j < k < frames.len() ==> #[trigger] starts[j] + frames[j].len()
            <= #[trigger] starts[k]
}

/// What was held and what comes in are one stream: the packets are whole frames of it, in
/// the order in which they stand there and none of them twice, and what is held in the
/// end stands behind them.
pub proof fn frames_follow_the_stream(buffer: Seq<u8>, input: Seq<u8>)
    requires
        is_partial(buffer),
    ensures
        exists|starts: Seq<int>| #[trigger]
            are_runs(
                buffer + input,
                feed_spec(buffer, input).1,
                starts,
                feed_spec(buffer, input).0,
            ),
        forall|i: int|
            0 <= i < feed_spec(buffer, input).1.len() ==> is_frame(
                #[trigger] feed_spec(buffer, input).1[i],
            ),
    decreases input.len(),
{
    delivered_frames_are_whole(buffer, input);
    if input.len() == 0 {
        assert(buffer + input =~= buffer);
        assert(buffer.skip(0) =~= buffer);
        assert(are_runs(buffer + input, Seq::empty(), Seq::empty(), buffer));
    } else {
        let less = input.drop_last();
        let stream = buffer + input;
        let shorter = buffer + less;
        frames_follow_the_stream(buffer, less);
        delivered_frames_are_whole(buffer, less);
        let (held, frames) = feed_spec(buffer, less);
        let starts = choose|starts: Seq<int>| #[trigger] are_runs(shorter, frames, starts, held);
        let grown = held.push(input.last());
        let at = stream.len() - grown.len();
        assert(grown.drop_last() =~= held);
        lemma_settle(grown);
        lemma_settle_drops(grown);
        assert(stream =~= shorter.push(input.last()));
        assert(grown =~= stream.skip(at));
        assert forall|k: int| 0 <= k < frames.len() implies 0 <= #[trigger] starts[k] && starts[k]
            + frames[k].len() <= at && frames[k] == stream.subrange(
            starts[k],
            starts[k] + frames[k].len(),
        ) by {
            assert(frames[k] =~= stream.subrange(starts[k], starts[k] + frames[k].len()));
        }
        let (rest, frame) = settle(grown);
        match frame {
            None => {
                assert(rest =~= stream.skip(stream.len() - rest.len()));
                assert(are_runs(stream, frames, starts, rest));
            },
            Some(f) => {
                assert(rest =~= stream.skip(stream.len() - rest.len()));
                assert(f =~= stream.subrange(at, at + f.len()));
                assert(are_runs(stream, frames.push(f), starts.push(at), rest));
            },
        }
    }
}

/// Only the front of the bytes is dropped.
proof fn lemma_settle_drops(b: Seq<u8>)
    ensures
        settle(b).0.len() <= b.len(),
        settle(b).0 == b.skip(b.len() - settle(b).0.len()),
        settle(b).1 is Some ==> settle(b).0.len() == 0,
    decreases b.len(),
{
    if b.len() >= 3 && (!has_magic(b) || (b.len() >= 5 && !(12 <= frame_size(b) <= 256))) {
        lemma_settle_drops(b.drop_first());
        assert(settle(b).0 =~= b.skip(b.len() - settle(b).0.len()));
    } else {
        assert(settle(b).0 =~= b.skip(b.len() - settle(b).0.len()));
    }
}

/// A callback with a record of what it was shown.
pub struct Viewer<F> {
    callback: F,
    log: Ghost<Seq<Seq<u8>>>,
}

impl<F: FnMut(&[u8])> Viewer<F> {
    pub closed spec fn callback(self) -> F {
        self.callback
    }

    /// What was shown so far, in order.
    pub closed spec fn log(self) -> Seq<Seq<u8>> {
        self.log@
    }

    /// The callback was called with all of the record.
    pub open spec fn genuine(self) -> bool {
        forall|k: int| 0 <= k < self.log().len() ==> was_shown(
            self.callback(),
            #[trigger] self.log()[k],
        )
    }

    pub fn new(callback: F) -> (r: Self)
        ensures
            r.callback() == callback,
            r.log() == Seq::<Seq<u8>>::empty(),
            r.genuine(),
    {
        Viewer { callback, log: Ghost(Seq::empty()) }
    }

    /// Shows one packet.
    pub fn show(&mut self, frame: &[u8])
        requires
            old(self).callback().requires((frame,)),
        ensures
            final(self).callback() == old(self).callback(),
            final(self).log() == old(self).log().push(frame@),
            was_shown(old(self).callback(), frame@),
            old(self).genuine() ==> final(self).genuine(),
    {
        let ghost callback = self.callback;
        (self.callback)(frame);
        proof {
            assert(call_ensures(callback, (frame,), ()));
            let before = self.log@;
            self.log@ = before.push(frame@);
        }
    }
}

/// Incremental framing. One receive call can hold part of a packet or several
/// packets. Sizes that no packet has lead to resynchronization.
#[derive(Debug)]
pub struct Parser {
    pub bytes: Vec<u8>,
}

impl Default for Parser {
    fn default() -> (r: Self)
        ensures
            r.bytes@ == Seq::<u8>::empty(),
    {
        Parser { bytes: Vec::new() }
    }
}

impl Parser {
    pub fn clear(&mut self)
        ensures
            final(self).bytes@ == Seq::<u8>::empty(),
    {
        self.bytes.clear();
    }

    /// Takes one byte, and hands out the packet that it completes.
    fn take(&mut self, byte: u8) -> (r: Option<Vec<u8>>)
        ensures
            match settle(old(self).bytes@.push(byte)) {
                (rest, None) => r is None && final(self).bytes@ == rest,
                (rest, Some(frame)) => final(self).bytes@ == rest && (r matches Some(v) && v@
                    == frame),
            },
    {
        self.bytes.push(byte);
        let ghost whole = self.bytes@;
        loop
            invariant
                whole == old(self).bytes@.push(byte),
                settle(whole) == settle(self.bytes@),
            decreases self.bytes@.len(),
        {
            if self.bytes.len() < 3 {
                return None;
            }
            if self.bytes[0] != 0x19 || self.bytes[1] != 0x81 || self.bytes[2] != 3 {
                let ghost before = self.bytes@;
                self.bytes.remove(0);
                assert(self.bytes@ =~= before.drop_first());
                continue;
            }
            if self.bytes.len() < 5 {
                return None;
            }
            let size: usize = self.bytes[3] as usize + 256 * (self.bytes[4] as usize) + 5;
            if size < 12 || size > 256 {
                let ghost before = self.bytes@;
                self.bytes.remove(0);
                assert(self.bytes@ =~= before.drop_first());
                continue;
            }
            if self.bytes.len() < size {
                return None;
            }
            let mut packet: Vec<u8> = Vec::new();
            packet.append(&mut self.bytes);
            return Some(packet);
        }
    }

    /// Takes the input and hands out every packet that it completes, in order.
    pub fn feed(&mut self, input: &[u8]) -> (r: Vec<Vec<u8>>)
        ensures
            final(self).bytes@ == feed_spec(old(self).bytes@, input@).0,
            frames_of(r@) == feed_spec(old(self).bytes@, input@).1,
    {
        let mut packets: Vec<Vec<u8>> = Vec::new();
        let mut i: usize = 0;
        assert(frames_of(packets@) =~= Seq::empty());
        assert(input@.take(0) =~= Seq::empty());
        while i < input.len()
            invariant
                i <= input@.len(),
                feed_spec(old(self).bytes@, input@.take(i as int)) == (
                    self.bytes@,
                    frames_of(packets@),
                ),
            decreases input@.len() - i,
        {
            assert(input@.take(i + 1).drop_last() =~= input@.take(i as int));
            let ghost before = packets@;
            if let Some(packet) = self.take(input[i]) {
                packets.push(packet);
                assert(frames_of(packets@) =~= frames_of(before).push(packet@));
            }
            i += 1;
        }
        assert(input@.take(i as int) =~= input@);
        packets
    }

    /// Takes the input and shows every packet that it completes to the viewer, in order.
    /// The parser ends as after `feed`.
    pub fn feed_viewer<F: FnMut(&[u8])>(&mut self, input: &[u8], viewer: &mut Viewer<F>)
        requires
            old(viewer).genuine(),
            forall|p: &[u8]| #[trigger] old(viewer).callback().requires((p,)),
        ensures
            final(self).bytes@ == feed_spec(old(self).bytes@, input@).0,
            final(viewer).callback() == old(viewer).callback(),
            final(viewer).log() == old(viewer).log() + feed_spec(old(self).bytes@, input@).1,
            final(viewer).genuine(),
    {
        let packets = self.feed(input);
        let mut i: usize = 0;
        assert(viewer.log() =~= old(viewer).log() + frames_of(packets@).take(0));
        while i < packets.len()
            invariant
                i <= packets@.len(),
                viewer.genuine(),
                viewer.callback() == old(viewer).callback(),
                forall|p: &[u8]| #[trigger] old(viewer).callback().requires((p,)),
                viewer.log() == old(viewer).log() + frames_of(packets@).take(i as int),
            decreases packets@.len() - i,
        {
            viewer.show(packets[i].as_slice());
            proof {
                let shown = frames_of(packets@);
                assert(shown.take(i + 1) =~= shown.take(i as int).push(shown[i as int]));
            }
            i += 1;
        }
        assert(frames_of(packets@).take(i as int) =~= frames_of(packets@));
    }

    /// Takes the input and shows every packet that it completes to `packet`, in order. The
    /// parser ends as after `feed`.
    pub fn feed_each<F: FnMut(&[u8])>(&mut self, input: &[u8], packet: F)
        requires
            forall|p: &[u8]| #[trigger] packet.requires((p,)),
        ensures
            final(self).bytes@ == feed_spec(old(self).bytes@, input@).0,
            exists|viewer: Viewer<F>| #[trigger]
                viewer.genuine() && viewer.callback() == packet && viewer.log() == feed_spec(
                    old(self).bytes@,
                    input@,
                ).1,
    {
        let mut viewer = Viewer::new(packet);
        self.feed_viewer(input, &mut viewer);
        proof {
            let all = feed_spec(old(self).bytes@, input@).1;
            assert(Seq::<Seq<u8>>::empty() + all =~= all);
            assert(viewer.genuine());
        }
    }
}

/// The callback was called with the frame.
pub open spec fn was_shown<F: FnMut(&[u8])>(callback: F, frame: Seq<u8>) -> bool {
    exists|p: &[u8]| p@ == frame && #[trigger] call_ensures(callback, (p,), ())
}

pub open spec fn frames_of(packets: Seq<Vec<u8>>) -> Seq<Seq<u8>> {
    Seq::new(packets.len(), |i: int| packets[i]@)
}

/// One half of the gamepad: buttons, and a stick from 0 to 4095 on both axes.
#[derive(Clone, Copy, Debug, PartialEq, Eq, Structural)]
pub struct Report {
    pub buttons: u32,
    pub x: i32,
    pub y: i32,
}

/// Stick movement that is taken for noise.
pub const AXIS_FUZZ: u32 = 8;

pub open spec fn distance(a: i32, b: i32) -> int {
    if a >= b {
        a - b
    } else {
        b - a
    }
}

fn far_apart(a: i32, b: i32) -> (r: bool)
    ensures
        r == (distance(a, b) > AXIS_FUZZ),
{
    let (a, b): (i64, i64) = (a as i64, b as i64);
    if a >= b {
        a - b > 8
    } else {
        b - a > 8
    }
}

/// Nothing pressed, the stick in the middle.
pub open spec fn neutral() -> Report {
    Report { buttons: 0, x: 2048, y: 2048 }
}

impl Default for Report {
    fn default() -> (r: Self)
        ensures
            r == neutral(),
    {
        Report { buttons: 0, x: 2048, y: 2048 }
    }
}

impl Report {
    /// Whether the report is worth publishing after `published`: every change of
    /// a button is, and stick movement beyond the noise. Compared with what was
    /// published last, slow movement adds up.
    pub fn differs_from(self, published: Self) -> (r: bool)
        ensures
            r == (self.buttons != published.buttons || distance(self.x, published.x) > AXIS_FUZZ
                || distance(self.y, published.y) > AXIS_FUZZ),
    {
        self.buttons != published.buttons || far_apart(self.x, published.x) || far_apart(
            self.y,
            published.y,
        )
    }
}

/// Twelve-bit stick axes from three packed bytes. The vertical axis points down.
pub open spec fn stick_spec(a: u8, b: u8, c: u8) -> (int, int) {
    (a + 256 * (b as int % 16), 4095 - (b as int / 16 + 16 * c))
}

fn stick(a: u8, b: u8, c: u8) -> (r: (i32, i32))
    ensures
        (r.0 as int, r.1 as int) == stick_spec(a, b, c),
        0 <= r.0 <= 4095,
        0 <= r.1 <= 4095,
{
    let x: i32 = a as i32 + 256 * ((b % 16) as i32);
    let y: i32 = (b / 16) as i32 + 16 * (c as i32);
    (x, 4095 - y)
}

/// The report that a packet carries for one side. Reports of both sides come in
/// one packet, and each side takes its own buttons and stick.
pub open spec fn report_spec(side: Side, p: Seq<u8>) -> Option<Report> {
    if p.len() < 24 || p[5] != 0x92 {
        None
    } else if p[12] != 0x30 && p[12] != 0x31 && (p[12] != 0x21 || p.len() < 27) {
        None
    } else {
        let (x, y) = if side == Side::Left {
            stick_spec(p[18], p[19], p[20])
        } else {
            stick_spec(p[21], p[22], p[23])
        };
        Some(
            Report {
                buttons: ((p[15] + 256 * p[16] + 65536 * p[17]) as u32) & side_buttons(side),
                x: x as i32,
                y: y as i32,
            },
        )
    }
}

pub fn input_report(side: Side, packet: &[u8]) -> (r: Option<Report>)
    ensures
        r == report_spec(side, packet@),
{
    if packet.len() < 24 || packet[5] != 0x92 {
        return None;
    }
    let id: u8 = packet[12];
    if id != 0x30 && id != 0x31 && (id != 0x21 || packet.len() < 27) {
        return None;
    }
    let buttons: u32 = packet[15] as u32 + 256 * (packet[16] as u32) + 65536 * (packet[17] as u32);
    let (x, y): (i32, i32) = if side == Side::Left {
        stick(packet[18], packet[19], packet[20])
    } else {
        stick(packet[21], packet[22], packet[23])
    };
    Some(Report { buttons: buttons & side.button_mask(), x, y })
}

#[derive(Clone, Copy, Debug, PartialEq, Eq, Structural)]
pub enum Stage {
    Detached,
    Handshake,
    Info,
    Baud,
    Disconnect,
    Connect,
    Rate,
    VerifyInput,
    Ready,
    Backoff,
}

/// What the host does next on a link.
#[derive(Clone, Copy, Debug, PartialEq, Eq, Structural)]
pub enum Action {
    /// Select the slow rate and wake the controller.
    Start,
    /// Select the fast rate.
    ConfigureFast,
    Send(Command),
}

/// The link to one controller. Times are in milliseconds.
#[derive(Clone, Copy, Debug, PartialEq, Eq, Structural)]
pub struct Link {
    pub side: Side,
    pub stage: Stage,
    pub due: u64,
    pub attempts: u8,
    pub fast_pending: bool,
    pub last_input_ms: u64,
}

pub open spec fn new_link(side: Side) -> Link {
    Link {
        side,
        stage: Stage::Detached,
        due: 0,
        attempts: 0,
        fast_pending: false,
        last_input_ms: 0,
    }
}

/// The link after a failed exchange: it rests for a second.
pub open spec fn failed(l: Link, now: u64) -> Link {
    Link { stage: Stage::Backoff, due: (now + 1000) as u64, fast_pending: false, ..l }
}

pub open spec fn advanced(l: Link, stage: Stage, now: u64) -> Link {
    Link { stage, due: now, attempts: 0, ..l }
}

/// Whether the link takes input reports in this stage.
pub open spec fn takes_input(stage: Stage) -> bool {
    stage == Stage::Rate || stage == Stage::VerifyInput || stage == Stage::Ready
}

/// The link after a reply that is no input report.
pub open spec fn answered(l: Link, p: Seq<u8>, now: u64) -> Link {
    let reply = p[5] == 0x94;
    if l.stage == Stage::Handshake && p[5] == 0xa5 {
        advanced(l, Stage::Info, now)
    } else if l.stage == Stage::Info && reply && p[6] == 1 && p.len() >= 19 {
        if p[12] == side_id(l.side) {
            advanced(l, Stage::Baud, now)
        } else {
            failed(l, now)
        }
    } else if l.stage == Stage::Baud && reply && p[6] == 0x20 {
        Link { fast_pending: true, ..advanced(l, Stage::Disconnect, now) }
    } else if l.stage == Stage::Disconnect && reply && p[6] == 0x11 {
        advanced(l, Stage::Connect, now)
    } else if l.stage == Stage::Connect && reply && p[6] == 0x10 {
        advanced(l, Stage::Rate, now)
    } else if (l.stage == Stage::Rate || l.stage == Stage::VerifyInput) && reply && p[6] == 0x12 {
        Link { last_input_ms: now, ..advanced(l, Stage::Ready, now) }
    } else {
        l
    }
}

/// The link after a packet, and the report that it carried. A real input report
/// proves the connection even if the rate was never acknowledged.
pub open spec fn receive_spec(l: Link, p: Seq<u8>, now: u64) -> (Link, Option<Report>) {
    if p.len() < 12 {
        (l, None)
    } else if takes_input(l.stage) && report_spec(l.side, p) is Some {
        let ready = if l.stage == Stage::Ready {
            l
        } else {
            advanced(l, Stage::Ready, now)
        };
        (Link { last_input_ms: now, ..ready }, report_spec(l.side, p))
    } else {
        (answered(l, p, now), None)
    }
}

/// Command and reply time of a stage.
pub open spec fn command_of(stage: Stage) -> Option<(Command, u64)> {
    match stage {
        Stage::Handshake => Some((WAKE_HANDSHAKE, 100)),
        Stage::Info => Some((INFO, 1000)),
        Stage::Baud => Some((BAUD, 1000)),
        Stage::Disconnect => Some((DISCONNECT, 1000)),
        Stage::Connect => Some((CONNECT, 1000)),
        Stage::Rate => Some((RATE, 1000)),
        Stage::VerifyInput => Some((POLL, 15)),
        Stage::Ready => Some((POLL, 15)),
        Stage::Detached | Stage::Backoff => None,
    }
}

/// Whether a ready link has been silent for too long.
pub open spec fn silent(l: Link, now: u64) -> bool {
    l.stage == Stage::Ready && now - l.last_input_ms >= 1800
}

pub open spec fn attempt_limit(stage: Stage) -> u8 {
    if stage == Stage::VerifyInput {
        10
    } else {
        2
    }
}

/// How far ahead of the present a link looks when it is asked for its next action.
pub open spec fn next_reach(l: Link, now: u64) -> int {
    if silent(l, now) {
        1000
    } else if now < l.due {
        0
    } else if l.stage == Stage::Detached || l.stage == Stage::Backoff {
        10
    } else if l.fast_pending {
        0
    } else if l.stage == Stage::Rate && l.attempts >= 2 || l.stage == Stage::Ready {
        15
    } else if l.attempts >= attempt_limit(l.stage) {
        1000
    } else {
        command_of(l.stage)->Some_0.1 as int
    }
}

/// How far ahead of the present a link looks when a packet comes.
pub open spec fn receive_reach(l: Link, p: Seq<u8>) -> int {
    if l.stage == Stage::Info && p.len() >= 19 && p[5] == 0x94 && p[6] == 1 && p[12] != side_id(
        l.side,
    ) {
        1000
    } else {
        0
    }
}

/// The link after it was asked for its next action, and that action. Every
/// command is sent twice at most before the link fails; a missing
/// acknowledgement of the rate is made up for by asking for input.
pub open spec fn next_spec(link: Link, now: u64) -> (Link, Option<Action>) {
    let l = if silent(link, now) {
        failed(link, now)
    } else {
        link
    };
    if now < l.due {
        (l, None)
    } else if l.stage == Stage::Detached || l.stage == Stage::Backoff {
        (
            Link {
                due: (now + 10) as u64,
                attempts: 1,
                ..advanced(l, Stage::Handshake, now)
            },
            Some(Action::Start),
        )
    } else if l.fast_pending {
        (Link { fast_pending: false, ..l }, Some(Action::ConfigureFast))
    } else {
        let l = if l.stage == Stage::Rate && l.attempts >= 2 {
            advanced(l, Stage::VerifyInput, now)
        } else {
            l
        };
        if l.stage != Stage::Ready && l.attempts >= attempt_limit(l.stage) {
            (failed(l, now), None)
        } else {
            let (command, interval) = command_of(l.stage)->Some_0;
            (
                Link {
                    attempts: if l.attempts == u8::MAX { u8::MAX } else { (l.attempts + 1) as u8 },
                    due: (now + interval) as u64,
                    ..l
                },
                Some(Action::Send(command)),
            )
        }
    }
}

impl Link {
    pub fn new(side: Side) -> (r: Self)
        ensures
            r == new_link(side),
    {
        Link {
            side,
            stage: Stage::Detached,
            due: 0,
            attempts: 0,
            fast_pending: false,
            last_input_ms: 0,
        }
    }

    pub fn detach(&mut self)
        ensures
            *final(self) == new_link(old(self).side),
    {
        *self = Link::new(self.side);
    }

    pub fn fail(&mut self, now: u64)
        requires
            now + 1000 <= u64::MAX,
        ensures
            *final(self) == failed(*old(self), now),
    {
        self.stage = Stage::Backoff;
        self.due = now + 1000;
        self.fast_pending = false;
    }

    fn advance(&mut self, stage: Stage, now: u64)
        ensures
            *final(self) == advanced(*old(self), stage, now),
    {
        self.stage = stage;
        self.due = now;
        self.attempts = 0;
    }

    /// Takes one packet of the controller.
    pub fn receive(&mut self, packet: &[u8], now: u64) -> (r: Option<Report>)
        requires
            now + receive_reach(*old(self), packet@) <= u64::MAX,
        ensures
            (*final(self), r) == receive_spec(*old(self), packet@, now),
    {
        if packet.len() < 12 {
            return None;
        }
        if self.stage == Stage::Rate || self.stage == Stage::VerifyInput || self.stage
            == Stage::Ready {
            if let Some(report) = input_report(self.side, packet) {
                if self.stage != Stage::Ready {
                    self.advance(Stage::Ready, now);
                }
                self.last_input_ms = now;
                return Some(report);
            }
        }
        let reply = packet[5] == 0x94;
        let sub: u8 = packet[6];
        if self.stage == Stage::Handshake && packet[5] == 0xa5 {
            self.advance(Stage::Info, now);
        } else if self.stage == Stage::Info && reply && sub == 1 && packet.len() >= 19 {
            if packet[12] != self.side.id() {
                self.fail(now);
            } else {
                self.advance(Stage::Baud, now);
            }
        } else if self.stage == Stage::Baud && reply && sub == 0x20 {
            self.advance(Stage::Disconnect, now);
            self.fast_pending = true;
        } else if self.stage == Stage::Disconnect && reply && sub == 0x11 {
            self.advance(Stage::Connect, now);
        } else if self.stage == Stage::Connect && reply && sub == 0x10 {
            self.advance(Stage::Rate, now);
        } else if (self.stage == Stage::Rate || self.stage == Stage::VerifyInput) && reply && sub
            == 0x12 {
            self.advance(Stage::Ready, now);
            self.last_input_ms = now;
        }
        None
    }

    /// The next action of the host, if one is due.
    pub fn next(&mut self, now: u64) -> (r: Option<Action>)
        requires
            now + next_reach(*old(self), now) <= u64::MAX,
        ensures
            (*final(self), r) == next_spec(*old(self), now),
    {
        if self.stage == Stage::Ready && now.saturating_sub(self.last_input_ms) >= 1800 {
            self.fail(now);
        }
        if now < self.due {
            return None;
        }
        if self.stage == Stage::Detached || self.stage == Stage::Backoff {
            self.advance(Stage::Handshake, now);
            self.due = now + 10;
            self.attempts = 1;
            return Some(Action::Start);
        }
        if self.fast_pending {
            self.fast_pending = false;
            return Some(Action::ConfigureFast);
        }
        if self.stage == Stage::Rate && self.attempts >= 2 {
            self.advance(Stage::VerifyInput, now);
        }
        let limit: u8 = if self.stage == Stage::VerifyInput {
            10
        } else {
            2
        };
        if self.stage != Stage::Ready && self.attempts >= limit {
            self.fail(now);
            return None;
        }
        let (command, interval): (Command, u64) = match self.stage {
            Stage::Handshake => (WAKE_HANDSHAKE, 100),
            Stage::Info => (INFO, 1000),
            Stage::Baud => (BAUD, 1000),
            Stage::Disconnect => (DISCONNECT, 1000),
            Stage::Connect => (CONNECT, 1000),
            Stage::Rate => (RATE, 1000),
            Stage::VerifyInput => (POLL, 15),
            Stage::Ready => (POLL, 15),
            Stage::Detached | Stage::Backoff => {
                return None;
            },
        };
        self.attempts = self.attempts.saturating_add(1);
        self.due = now + interval;
        Some(Action::Send(command))
    }

    /// Whether the last report is too old to stand for the controller.
    pub fn stale(&self, now: u64) -> (r: bool)
        ensures
            r == (self.stage != Stage::Ready || now - self.last_input_ms >= 250),
    {
        self.stage != Stage::Ready || now.saturating_sub(self.last_input_ms) >= 250
    }

    /// When the link wants to be asked again.
    pub fn next_deadline_ms(&self) -> (r: u64)
        ensures
            r == self.due,
    {
        self.due
    }
}

/// Both halves of the gamepad, left first.
#[derive(Clone, Copy, Debug)]
pub struct Pair {
    pub halves: [Report; 2],
}

impl Default for Pair {
    fn default() -> (r: Self)
        ensures
            r.halves@ == seq![neutral(), neutral()],
    {
        let half = Report { buttons: 0, x: 2048, y: 2048 };
        let r = Pair { halves: [half, half] };
        assert(r.halves@ =~= seq![neutral(), neutral()]);
        r
    }
}

/// Plus one, minus one, or zero where neither or both bits are set.
pub open spec fn axis(buttons: u32, plus: u32, minus: u32) -> int {
    (if buttons & plus != 0 { 1int } else { 0 }) - (if buttons & minus != 0 { 1int } else { 0 })
}

fn pick(buttons: u32, plus: u32, minus: u32) -> (r: i32)
    ensures
        r == axis(buttons, plus, minus),
{
    let up: i32 = if buttons & plus != 0 {
        1
    } else {
        0
    };
    let down: i32 = if buttons & minus != 0 {
        1
    } else {
        0
    };
    up - down
}

impl Pair {
    pub open spec fn pressed(self) -> u32 {
        self.halves@[0].buttons | self.halves@[1].buttons
    }

    pub fn set(&mut self, side: Side, report: Report)
        ensures
            final(self).halves@ == old(self).halves@.update(side_index(side) as int, report),
    {
        self.halves[side.index()] = report;
    }

    /// Lets go of everything that one side holds.
    pub fn release(&mut self, side: Side)
        ensures
            final(self).halves@ == old(self).halves@.update(side_index(side) as int, neutral()),
    {
        self.set(side, Report { buttons: 0, x: 2048, y: 2048 });
    }

    pub fn buttons(&self) -> (r: u32)
        ensures
            r == self.pressed(),
    {
        self.halves[0].buttons | self.halves[1].buttons
    }

    /// The direction pad: right and left, down and up.
    pub fn hat(&self) -> (r: (i32, i32))
        ensures
            r.0 == axis(self.pressed(), 0x4_0000, 0x8_0000),
            r.1 == axis(self.pressed(), 0x1_0000, 0x2_0000),
    {
        let b: u32 = self.buttons();
        (pick(b, 0x4_0000, 0x8_0000), pick(b, 0x1_0000, 0x2_0000))
    }
}

/// The stage that a positive reply leads to.
pub open spec fn successor(stage: Stage) -> Stage {
    match stage {
        Stage::Handshake => Stage::Info,
        Stage::Info => Stage::Baud,
        Stage::Baud => Stage::Disconnect,
        Stage::Disconnect => Stage::Connect,
        Stage::Connect => Stage::Rate,
        Stage::Rate | Stage::VerifyInput => Stage::Ready,
        Stage::Detached | Stage::Ready | Stage::Backoff => stage,
    }
}

/// A packet moves a link by one stage at most: initialization replies count in
/// their order only, and only the reply about the wrong side fails a link.
pub proof fn replies_count_in_order(l: Link, p: Seq<u8>, now: u64)
    ensures
        ({
            let after = receive_spec(l, p, now).0;
            ||| after.stage == l.stage
            ||| after.stage == successor(l.stage)
            ||| after.stage == Stage::Backoff && l.stage == Stage::Info && p[12] != side_id(l.side)
        }),
        receive_spec(l, p, now).0.side == l.side,
        receive_spec(l, p, now).1 is Some ==> takes_input(l.stage) && receive_spec(l, p, now).0.stage
            == Stage::Ready,
{
}

/// Sends of one stage stay within its limit.
pub open spec fn attempts_bounded(l: Link) -> bool {
    l.stage != Stage::Ready ==> l.attempts <= attempt_limit(l.stage) || l.stage == Stage::Backoff
        || l.stage == Stage::Detached
}

/// No stage is tried without end: the bound on sends holds of a new link, and
/// packets, time and failures keep it.
pub proof fn attempts_stay_bounded(l: Link, p: Seq<u8>, now: u64)
    requires
        attempts_bounded(l),
    ensures
        attempts_bounded(new_link(l.side)),
        attempts_bounded(failed(l, now)),
        attempts_bounded(receive_spec(l, p, now).0),
        attempts_bounded(next_spec(l, now).0),
{
}

/// A link that is due and gets no reply either sends again, asks for input
/// instead of an acknowledgement, or gives up: it never waits silently.
pub proof fn a_due_link_acts(l: Link, now: u64)
    requires
        l.due <= now,
        now + 1000 <= u64::MAX,
        !silent(l, now),
    ensures
        next_spec(l, now).1 is Some || next_spec(l, now).0.stage == Stage::Backoff,
{
}

proof fn lemma_masks(l: u32, r: u32)
    by (bit_vector)
    ensures
        0xff2900u32 & 0x0056ffu32 == 0,
        ((l & 0xff2900u32) | (r & 0x0056ffu32)) & 0xff2900u32 == l & 0xff2900u32,
        ((l & 0xff2900u32) | (r & 0x0056ffu32)) & 0x0056ffu32 == r & 0x0056ffu32,
        0u32 | (r & 0x0056ffu32) == r & 0x0056ffu32,
        (l & 0xff2900u32) | 0u32 == l & 0xff2900u32,
{
}

/// The sides own different buttons: what one side holds can be read from the
/// pair whatever the other side holds, and releasing one side leaves the buttons
/// of the other.
pub proof fn sides_are_independent(pair: Pair, left: Report, right: Report, packet: Seq<u8>)
    requires
        report_spec(Side::Left, packet) == Some(left),
        report_spec(Side::Right, packet) == Some(right),
        pair.halves@ == seq![left, right],
    ensures
        side_buttons(Side::Left) & side_buttons(Side::Right) == 0,
        pair.pressed() & side_buttons(Side::Left) == left.buttons,
        pair.pressed() & side_buttons(Side::Right) == right.buttons,
        forall|p: Pair|
            p.halves@ == pair.halves@.update(side_index(Side::Left) as int, neutral()) ==> #[trigger]
            p.pressed() == right.buttons,
        forall|p: Pair|
            p.halves@ == pair.halves@.update(side_index(Side::Right) as int, neutral()) ==>
            #[trigger] p.pressed() == left.buttons,
{
    let raw = (packet[15] + 256 * packet[16] + 65536 * packet[17]) as u32;
    lemma_masks(raw, raw);
}

/// Three bytes hold a stick at some place: the low byte of the first axis, its upper four
/// bits beside the lower four of the second, and the upper eight of the second.
pub open spec fn packs(a: u8, b: u8, c: u8, x: int, y: int) -> bool {
    &&& 0 <= x < 4096
    &&& 0 <= y < 4096
    &&& x == 256 * (x / 256) + a
    &&& y == 16 * c + y % 16
    &&& b == x / 256 + 16 * (y % 16)
}

/// Each side has the stick that it packed, at every place, the second axis turned over; and
/// it has a report exactly where the packet is one of the three kinds, and long enough.
pub proof fn sticks_arrive_where_they_are(p: Seq<u8>, x: int, y: int, u: int, v: int)
    requires
        p.len() >= 24,
        packs(p[18], p[19], p[20], x, y),
        packs(p[21], p[22], p[23], u, v),
    ensures
        report_spec(Side::Left, p) matches Some(r) ==> r.x == x && r.y == 4095 - y,
        report_spec(Side::Right, p) matches Some(r) ==> r.x == u && r.y == 4095 - v,
        report_spec(Side::Left, p) is Some <==> report_spec(Side::Right, p) is Some,
        report_spec(Side::Left, p) is Some <==> p[5] == 0x92 && (p[12] == 0x30 || p[12] == 0x31
            || (p[12] == 0x21 && p.len() >= 27)),
{
}

/// Less than 24 bytes hold no report.
pub proof fn short_packets_hold_no_report(side: Side, p: Seq<u8>)
    requires
        p.len() < 24,
    ensures
        report_spec(side, p) is None,
{
}

/// A command announces its own length, names its kind, and is answered by the reply of the
/// same code, which leads on to the next stage and its command. The new rate is three
/// million bits per second, and reports come every fifteen milliseconds.
pub proof fn replies_answer_their_commands(l: Link, p: Seq<u8>, now: u64)
    requires
        p.len() >= 19,
        command_of(l.stage) is Some,
        l.stage != Stage::Handshake,
        l.stage != Stage::Ready,
        l.stage != Stage::VerifyInput,
    ensures
        ({
            let (command, wait) = command_of(l.stage)->0;
            let bytes = command_bytes(command);
            &&& wait == 1000
            &&& bytes[0] == 0x19 && bytes[1] == 1 && bytes[2] == 3 && bytes[5] == 0x91
            &&& bytes[3] + 256 * bytes[4] + 5 == bytes.len()
            &&& p[5] == 0x94 && p[6] == bytes[6] && (l.stage == Stage::Info ==> p[12] == side_id(
                l.side,
            )) ==> {
                let after = answered(l, p, now);
                &&& after.stage == successor(l.stage)
                &&& after.attempts == 0 && after.due == now
                &&& l.stage == Stage::Baud ==> after.fast_pending
                &&& l.stage != Stage::Baud ==> after.fast_pending == l.fast_pending
            }
            &&& p[5] != 0x94 || p[6] != bytes[6] ==> answered(l, p, now) == l
        }),
        command_bytes(BAUD)[12] + 256 * command_bytes(BAUD)[13] + 65536 * command_bytes(BAUD)[14]
            == 3_000_000,
        command_bytes(RATE)[12] == 15,
        side_id(Side::Left) == 1 && side_id(Side::Right) == 2,
{
}

/// The wake precedes the handshake, whose reply opens the exchange; a ready link is asked
/// for input every fifteen milliseconds.
pub proof fn handshakes_wake_first(l: Link, p: Seq<u8>, now: u64)
    ensures
        command_bytes(WAKE_HANDSHAKE).take(4) == seq![0xa1u8, 0xa2, 0xa3, 0xa4],
        command_bytes(WAKE_HANDSHAKE)[4] == 0x19 && command_bytes(WAKE_HANDSHAKE)[9] == 0xa5,
        command_bytes(WAKE_HANDSHAKE)[7] + 256 * command_bytes(WAKE_HANDSHAKE)[8] + 5
            == command_bytes(WAKE_HANDSHAKE).len() - 4,
        command_of(Stage::Handshake) == Some((Command::WakeHandshake, 100u64)),
        command_of(Stage::Ready) == Some((Command::Poll, 15u64)),
        command_of(Stage::VerifyInput) == Some((Command::Poll, 15u64)),
        command_bytes(POLL)[0] == 0x19 && command_bytes(POLL)[1] == 1 && command_bytes(POLL)[2] == 3
            && command_bytes(POLL)[5] == 0x92,
        command_bytes(POLL)[3] + 256 * command_bytes(POLL)[4] + 5 == command_bytes(POLL).len(),
        l.stage == Stage::Handshake && p.len() >= 12 ==> (answered(l, p, now).stage == Stage::Info
            <==> p[5] == 0xa5),
{
    assert(command_bytes(WAKE_HANDSHAKE).take(4) =~= seq![0xa1u8, 0xa2, 0xa3, 0xa4]);
}

/// The stages take their turns: a link that is due starts, selects the fast rate before
/// anything is sent at it, sends its stage's command, and gives up behind the last attempt.
/// It waits for the answer as long as the stage allows.
pub proof fn links_take_their_turns(l: Link, now: u64)
    requires
        now + 1000 <= u64::MAX,
        !silent(l, now),
    ensures
        ({
            let (after, action) = next_spec(l, now);
            let tries = if l.stage == Stage::VerifyInput {
                10int
            } else {
                2
            };
            &&& now < l.due ==> after == l && action is None
            &&& now >= l.due && (l.stage == Stage::Detached || l.stage == Stage::Backoff) ==> action
                == Some(Action::Start) && after.stage == Stage::Handshake && after.attempts == 1
                && after.due == now + 10
            &&& now >= l.due && command_of(l.stage) is Some && l.fast_pending ==> action == Some(
                Action::ConfigureFast,
            ) && after == (Link { fast_pending: false, ..l })
            &&& now >= l.due && command_of(l.stage) is Some && !l.fast_pending && (l.stage
                == Stage::Ready || l.attempts < tries) ==> action == Some(
                Action::Send(command_of(l.stage).unwrap().0),
            ) && after.stage == l.stage && after.due == now + command_of(l.stage).unwrap().1
                && after.attempts >= l.attempts && (l.attempts < 255 ==> after.attempts == l.attempts
                + 1)
            &&& now >= l.due && l.stage == Stage::Rate && !l.fast_pending && l.attempts >= 2
                ==> action == Some(Action::Send(Command::Poll)) && after.stage == Stage::VerifyInput
                && after.due == now + 15
            &&& now >= l.due && command_of(l.stage) is Some && l.stage != Stage::Ready && l.stage
                != Stage::Rate && !l.fast_pending && l.attempts >= tries ==> action is None
                && after.stage == Stage::Backoff && after.due == now + 1000
        }),
{
}

/// A link that was silent for 1800 milliseconds, and only such a one, counts as lost.
pub proof fn silence_loses_the_link(l: Link, now: u64)
    requires
        now + 1000 <= u64::MAX,
        l.stage == Stage::Ready,
    ensures
        now >= l.last_input_ms + 1800 <==> next_spec(l, now).0.stage == Stage::Backoff,
        now >= l.last_input_ms + 1800 ==> next_spec(l, now).0.due == now + 1000 && next_spec(
            l,
            now,
        ).1 is None,
{
}

/// Every command is a frame: behind the bytes that wake it, it has the head of a frame for
/// the other side and tells its own length; each has its own code, and the change of rate
/// tells three megabaud.
pub proof fn commands_are_frames(c: Command)
    ensures
        ({
            let b = command_bytes(c);
            let at = if c is WakeHandshake {
                4int
            } else {
                0
            };
            &&& c is WakeHandshake ==> b[0] == 0xa1 && b[1] == 0xa2 && b[2] == 0xa3 && b[3] == 0xa4
            &&& b[at] == 0x19 && b[at + 1] == 1 && b[at + 2] == 3
            &&& b[at + 3] + 256 * b[at + 4] + 5 == b.len() - at
            &&& b[at + 5] == (if c is WakeHandshake {
                0xa5int
            } else if c is Poll {
                0x92
            } else {
                0x91
            })
            &&& b[at + 6] == (match c {
                Command::WakeHandshake => 2int,
                Command::Info => 1,
                Command::Baud => 0x20,
                Command::Disconnect => 0x11,
                Command::Connect => 0x10,
                Command::Rate => 0x12,
                Command::Poll => 0,
            })
            &&& c is Baud ==> b[12] + 0x100 * b[13] + 0x1_0000 * b[14] + 0x100_0000 * b[15]
                == 3_000_000
            &&& c is Rate ==> b[12] == 15
        }),
{
}

/// A half at rest has nothing pressed and its stick in the middle; both sides have their own
/// place, number and buttons.
pub proof fn sides_are_told_apart(side: Side, other: Side)
    requires
        side != other,
    ensures
        side_index(side) + side_index(other) == 1,
        side_id(side) == side_index(side) + 1,
        side == Side::Left <==> side_index(side) == 0,
        neutral().buttons == 0,
        neutral().x == 2048 && neutral().y == 2048,
{
}

} // verus!
