//! Multitouch controller events, the contacts that they make up, and the event
//! frames that readers get.
use vstd::prelude::*;

verus! {

/// Contacts that the controller tells apart.
pub const SLOTS: usize = 10;

/// Events that are read in one round.
pub const EVENTS_PER_ROUND: u8 = 32;

/// Failed rounds after which the controller is reset.
pub const FAILURE_LIMIT: u32 = 3;

/// Attempts to start the controller before its worker runs.
pub const FIRST_STARTS: u32 = 3;

/// The time in microseconds before the controller is started again, where it is, by the
/// number of the attempt and whether it went well.
pub fn start_again(attempt: u32, started: bool) -> (r: Option<u64>)
    ensures
        r == if !started && attempt < FIRST_STARTS {
            Some(10_000u64)
        } else {
            None
        },
{
    if !started && attempt < FIRST_STARTS {
        Some(10_000)
    } else {
        None
    }
}

#[derive(Clone, Copy, Debug, PartialEq, Eq, Structural)]
pub enum Event {
    Contact { slot: usize, x: i32, y: i32 },
    Leave(usize),
    Reset,
    Nothing,
}

/// What eight bytes of the event queue say. Coordinates have twelve bits, the low
/// four of both in one byte.
pub open spec fn decode_spec(raw: Seq<u8>) -> Event {
    let slot = raw[0] as int / 16;
    let kind = raw[0] as int % 16;
    if raw[0] == 0x10 || raw[0] == 0x0f {
        Event::Reset
    } else if slot >= 10 {
        Event::Nothing
    } else if kind == 3 || kind == 5 {
        Event::Contact {
            slot: slot as usize,
            x: (16 * raw[1] + raw[3] as int / 16) as i32,
            y: (16 * raw[2] + raw[3] as int % 16) as i32,
        }
    } else if kind == 4 {
        Event::Leave(slot as usize)
    } else {
        Event::Nothing
    }
}

pub fn decode(raw: [u8; 8]) -> (r: Event)
    ensures
        r == decode_spec(raw@),
        r matches Event::Contact { slot, x, y } ==> slot < 10 && 0 <= x <= 4095 && 0 <= y <= 4095,
        r matches Event::Leave(slot) ==> slot < 10,
{
    if raw[0] == 0x10 || raw[0] == 0x0f {
        return Event::Reset;
    }
    let slot: usize = (raw[0] / 16) as usize;
    if slot >= SLOTS {
        return Event::Nothing;
    }
    let kind: u8 = raw[0] % 16;
    if kind == 3 || kind == 5 {
        Event::Contact {
            slot,
            x: 16 * (raw[1] as i32) + (raw[3] / 16) as i32,
            y: 16 * (raw[2] as i32) + (raw[3] % 16) as i32,
        }
    } else if kind == 4 {
        Event::Leave(slot)
    } else {
        Event::Nothing
    }
}

/// One finger. It keeps its tracking number for as long as it stays down.
#[derive(Clone, Copy, Debug, PartialEq, Eq, Structural)]
pub struct Contact {
    pub tracking: i32,
    pub x: i32,
    pub y: i32,
}

#[derive(Clone, Copy, Debug)]
pub struct Contacts {
    pub slots: [Option<Contact>; 10],
    pub next: i32,
}

/// The tracking number after `n`: numbers are positive.
pub open spec fn next_tracking(n: i32) -> i32 {
    if n == i32::MAX {
        1
    } else {
        (n + 1) as i32
    }
}

/// The contacts and the next tracking number after an event.
pub open spec fn apply_spec(slots: Seq<Option<Contact>>, next: i32, event: Event) -> (
    Seq<Option<Contact>>,
    i32,
) {
    match event {
        Event::Contact { slot, x, y } => match slots[slot as int] {
            Some(c) => (
                slots.update(slot as int, Some(Contact { tracking: c.tracking, x, y })),
                next,
            ),
            None => (
                slots.update(slot as int, Some(Contact { tracking: next, x, y })),
                next_tracking(next),
            ),
        },
        Event::Leave(slot) => (slots.update(slot as int, None), next),
        Event::Reset => (Seq::new(10, |i: int| None), next),
        Event::Nothing => (slots, next),
    }
}

impl Contacts {
    pub fn new() -> (r: Self)
        ensures
            r.slots@ == Seq::new(10, |i: int| None::<Contact>),
            r.next == 1,
    {
        let r = Contacts {
            slots: [None, None, None, None, None, None, None, None, None, None],
            next: 1,
        };
        assert(r.slots@ =~= Seq::new(10, |i: int| None::<Contact>));
        r
    }

    pub fn apply(&mut self, event: Event)
        requires
            event matches Event::Contact { slot, .. } ==> slot < 10,
            event matches Event::Leave(slot) ==> slot < 10,
        ensures
            (final(self).slots@, final(self).next) == apply_spec(
                old(self).slots@,
                old(self).next,
                event,
            ),
    {
        match event {
            Event::Contact { slot, x, y } => {
                let tracking: i32 = match self.slots[slot] {
                    Some(c) => c.tracking,
                    None => {
                        let id: i32 = self.next;
                        self.next = if id == i32::MAX {
                            1
                        } else {
                            id + 1
                        };
                        id
                    },
                };
                self.slots[slot] = Some(Contact { tracking, x, y });
            },
            Event::Leave(slot) => {
                self.slots[slot] = None;
            },
            Event::Reset => {
                self.slots = [None, None, None, None, None, None, None, None, None, None];
                assert(self.slots@ =~= Seq::new(10, |i: int| None::<Contact>));
            },
            Event::Nothing => {},
        }
    }
}

/// Fingers move independently: an event changes no slot but its own, and a finger
/// that moves keeps its tracking number.
pub proof fn slots_are_independent(slots: Seq<Option<Contact>>, next: i32, event: Event, i: int)
    requires
        slots.len() == 10,
        0 <= i < 10,
        event matches Event::Contact { slot, .. } ==> slot < 10,
        event matches Event::Leave(slot) ==> slot < 10,
    ensures
        event matches Event::Contact { slot, .. } ==> {
            &&& i != slot ==> apply_spec(slots, next, event).0[i] == slots[i]
            &&& slots[slot as int] matches Some(c) ==> apply_spec(
                slots,
                next,
                event,
            ).0[slot as int]->Some_0.tracking == c.tracking
        },
        event matches Event::Leave(slot) ==> i != slot ==> apply_spec(slots, next, event).0[i]
            == slots[i],
        event is Reset ==> apply_spec(slots, next, event).0[i] is None,
{
}

/// Tracking numbers in use are below the next one.
pub open spec fn numbered_below(slots: Seq<Option<Contact>>, next: i32) -> bool {
    &&& 0 < next
    &&& forall|i: int|
        0 <= i < slots.len() ==> ((#[trigger] slots[i]) matches Some(c) ==> 0 < c.tracking < next)
}

/// Until the numbers wrap, a finger that goes down gets a number that no other
/// finger has had: a reused slot tracks a new finger.
pub proof fn new_fingers_get_new_numbers(
    slots: Seq<Option<Contact>>,
    next: i32,
    event: Event,
)
    requires
        slots.len() == 10,
        numbered_below(slots, next),
        next < i32::MAX,
        event matches Event::Contact { slot, .. } ==> slot < 10,
        event matches Event::Leave(slot) ==> slot < 10,
    ensures
        numbered_below(apply_spec(slots, next, event).0, apply_spec(slots, next, event).1),
        next <= apply_spec(slots, next, event).1,
        event matches Event::Contact { slot, .. } ==> (slots[slot as int] is None ==> apply_spec(
            slots,
            next,
            event,
        ).0[slot as int]->Some_0.tracking == next),
{
    let after = apply_spec(slots, next, event).0;
    assert forall|i: int| 0 <= i < after.len() implies ((#[trigger] after[i]) matches Some(c) ==> 0
        < c.tracking < apply_spec(slots, next, event).1) by {
        if i < slots.len() {
            assert(slots[i] matches Some(c) ==> 0 < c.tracking < next);
        }
        if let Event::Contact { slot, .. } = event {
            assert(slots[slot as int] matches Some(c) ==> 0 < c.tracking < next);
        }
    }
}

/// Coordinates that the panel reports.
#[derive(Clone, Copy, Debug, PartialEq, Eq, Structural)]
pub struct Range {
    pub min: i32,
    pub max: i32,
}

/// What the coordinate range of one axis is answered.
pub open spec fn range_spec(min: Option<u32>, max: Option<u32>) -> Result<Range, &'static str> {
    match (min, max) {
        (None, _) => Err("FTM4 edge offset missing"),
        (Some(_), None) => Err("FTM4 coordinate range missing"),
        (Some(lo), Some(hi)) => if lo >= hi || hi > 4095 {
            Err("invalid FTM4 coordinate range")
        } else {
            Ok(Range { min: lo as i32, max: hi as i32 })
        },
    }
}

pub fn range(min: Option<u32>, max: Option<u32>) -> (r: Result<Range, &'static str>)
    ensures
        r == range_spec(min, max),
{
    let lo: u32 = match min {
        None => {
            return Err("FTM4 edge offset missing");
        },
        Some(lo) => lo,
    };
    let hi: u32 = match max {
        None => {
            return Err("FTM4 coordinate range missing");
        },
        Some(hi) => hi,
    };
    if lo >= hi || hi > 4095 {
        return Err("invalid FTM4 coordinate range");
    }
    Ok(Range { min: lo as i32, max: hi as i32 })
}

pub open spec fn clamp_spec(v: i32, r: Range) -> i32 {
    if v < r.min {
        r.min
    } else if v > r.max {
        r.max
    } else {
        v
    }
}

fn clamp(v: i32, r: &Range) -> (c: i32)
    ensures
        c == clamp_spec(v, *r),
{
    if v < r.min {
        r.min
    } else if v > r.max {
        r.max
    } else {
        v
    }
}

/// The events of one slot: its number, then its finger or none.
pub open spec fn slot_events(slot: int, c: Option<Contact>, x: Range, y: Range) -> Seq<
    (u16, u16, i32),
> {
    match c {
        Some(c) => seq![
            (3u16, 0x2fu16, slot as i32),
            (3u16, 0x39u16, c.tracking),
            (3u16, 0x35u16, clamp_spec(c.x, x)),
            (3u16, 0x36u16, clamp_spec(c.y, y)),
        ],
        None => seq![(3u16, 0x2fu16, slot as i32), (3u16, 0x39u16, -1i32)],
    }
}

/// The events of the first `n` slots.
pub open spec fn slots_events(slots: Seq<Option<Contact>>, n: nat, x: Range, y: Range) -> Seq<
    (u16, u16, i32),
>
    decreases n,
{
    if n == 0 {
        Seq::empty()
    } else {
        slots_events(slots, (n - 1) as nat, x, y) + slot_events(n - 1, slots[n - 1], x, y)
    }
}

/// The finger in the first slot of the first `n` that is taken.
pub open spec fn first_contact(slots: Seq<Option<Contact>>, n: nat) -> Option<Contact>
    decreases n,
{
    if n == 0 {
        None
    } else {
        match first_contact(slots, (n - 1) as nat) {
            Some(c) => Some(c),
            None => slots[n - 1],
        }
    }
}

/// The frame that follows a round: all slots, the finger that stands for a mouse,
/// and the end of the frame.
pub open spec fn frame_spec(slots: Seq<Option<Contact>>, x: Range, y: Range) -> Seq<
    (u16, u16, i32),
> {
    let primary = first_contact(slots, 10);
    slots_events(slots, 10, x, y) + seq![(1u16, 330u16, if primary is Some { 1i32 } else { 0i32 })]
        + (match primary {
        Some(c) => seq![(3u16, 0u16, clamp_spec(c.x, x)), (3u16, 1u16, clamp_spec(c.y, y))],
        None => Seq::empty(),
    }) + seq![(0u16, 0u16, 0i32)]
}

/// A round in which no finger was down before or after has no frame.
pub open spec fn quiet(before: Seq<Option<Contact>>, after: Seq<Option<Contact>>) -> bool {
    before == after && first_contact(after, 10) is None
}

proof fn lemma_first_contact(slots: Seq<Option<Contact>>, n: nat)
    requires
        n <= slots.len(),
    ensures
        first_contact(slots, n) is None <==> forall|i: int| 0 <= i < n ==> (#[trigger] slots[i]) is None,
    decreases n,
{
    if n > 0 {
        lemma_first_contact(slots, (n - 1) as nat);
        if first_contact(slots, n) is None {
            assert forall|i: int| 0 <= i < n implies (#[trigger] slots[i]) is None by {}
        } else if first_contact(slots, (n - 1) as nat) is None {
            assert(slots[n - 1] is Some);
        }
    }
}

fn any_down(slots: &[Option<Contact>; 10]) -> (r: bool)
    ensures
        r == (first_contact(slots@, 10) is Some),
{
    let mut i: usize = 0;
    while i < 10
        invariant
            i <= 10,
            forall|j: int| 0 <= j < i ==> (#[trigger] slots@[j]) is None,
        decreases 10 - i,
    {
        if slots[i].is_some() {
            proof {
                lemma_first_contact(slots@, 10);
            }
            return true;
        }
        i += 1;
    }
    proof {
        lemma_first_contact(slots@, 10);
    }
    false
}

/// The frame of a round, empty where there is nothing to say.
pub fn frame(before: &[Option<Contact>; 10], after: &[Option<Contact>; 10], x: &Range, y: &Range) -> (r:
    Vec<(u16, u16, i32)>)
    ensures
        r@ == if quiet(before@, after@) {
            Seq::empty()
        } else {
            frame_spec(after@, *x, *y)
        },
{
    let mut r: Vec<(u16, u16, i32)> = Vec::new();
    if !any_down(before) && !any_down(after) {
        proof {
            lemma_first_contact(before@, 10);
            lemma_first_contact(after@, 10);
            assert(before@ =~= after@);
        }
        return r;
    }
    assert(!quiet(before@, after@));
    let mut primary: Option<Contact> = None;
    let mut i: usize = 0;
    while i < 10
        invariant
            i <= 10,
            r@ == slots_events(after@, i as nat, *x, *y),
            primary == first_contact(after@, i as nat),
        decreases 10 - i,
    {
        let ghost old = r@;
        r.push((3, 0x2f, i as i32));
        match after[i] {
            Some(c) => {
                r.push((3, 0x39, c.tracking));
                r.push((3, 0x35, clamp(c.x, x)));
                r.push((3, 0x36, clamp(c.y, y)));
            },
            None => {
                r.push((3, 0x39, -1));
            },
        }
        if primary.is_none() {
            primary = after[i];
        }
        assert(r@ =~= old + slot_events(i as int, after@[i as int], *x, *y));
        i += 1;
    }
    let down: i32 = if primary.is_some() {
        1
    } else {
        0
    };
    r.push((1, 330, down));
    if let Some(c) = primary {
        r.push((3, 0, clamp(c.x, x)));
        r.push((3, 1, clamp(c.y, y)));
    }
    r.push((0, 0, 0));
    assert(r@ =~= frame_spec(after@, *x, *y));
    r
}

/// Events that the queue holds, from its count register.
pub fn queued(count: u8) -> (r: u8)
    ensures
        r == if count as int / 2 <= 32 {
            count / 2
        } else {
            32
        },
{
    let n: u8 = count / 2;
    if n < EVENTS_PER_ROUND {
        n
    } else {
        EVENTS_PER_ROUND
    }
}

/// Rounds that failed in a row. After three of them every finger is let go and
/// the controller is to be reset.
pub fn after_round(contacts: &mut Contacts, failures: u32, failed: bool) -> (r: u32)
    requires
        failures < FAILURE_LIMIT,
    ensures
        r == if failed {
            (failures + 1) as u32
        } else {
            0
        },
        if r >= FAILURE_LIMIT {
            (final(contacts).slots@, final(contacts).next) == apply_spec(
                old(contacts).slots@,
                old(contacts).next,
                Event::Reset,
            )
        } else {
            *final(contacts) == *old(contacts)
        },
{
    if !failed {
        return 0;
    }
    let n: u32 = failures + 1;
    if n >= FAILURE_LIMIT {
        contacts.apply(Event::Reset);
    }
    n
}

/// Whether the chip information is that of the supported controller.
pub fn supported_chip(id: [u8; 7]) -> (r: bool)
    ensures
        r == (256 * id@[1] + id@[2] == 0x3670),
{
    id[1] == 0x36 && id[2] == 0x70
}

/// The eight bytes hold an event of so many fingers' slot, its kind and a place: the slot
/// and the kind share the first byte, the upper eight bits of both coordinates follow, and
/// their lower four bits share the fourth byte.
pub open spec fn tells(raw: Seq<u8>, slot: int, kind: int, x: int, y: int) -> bool {
    &&& raw.len() == 8
    &&& raw[0] == 16 * slot + kind
    &&& 16 * raw[1] <= x < 16 * raw[1] + 16
    &&& 16 * raw[2] <= y < 16 * raw[2] + 16
    &&& raw[3] == 16 * (x - 16 * raw[1]) + (y - 16 * raw[2])
}

/// A finger that goes down and one that moves are both seen where they are, and one that
/// leaves is seen to leave, in each of the ten slots and at each place.
pub proof fn fingers_are_seen_where_they_are(raw: Seq<u8>, slot: int, kind: int, x: int, y: int)
    requires
        tells(raw, slot, kind, x, y),
        0 <= slot < 10,
        0 <= kind < 16,
        0 <= x < 4096,
        0 <= y < 4096,
    ensures
        kind == 3 || kind == 5 ==> decode_spec(raw) == (Event::Contact {
            slot: slot as usize,
            x: x as i32,
            y: y as i32,
        }),
        kind == 4 ==> decode_spec(raw) == Event::Leave(slot as usize),
        (slot == 1 && kind == 0) || (slot == 0 && kind == 15) ==> decode_spec(raw)
            == Event::Reset,
        !(3 <= kind <= 5) && !(slot == 1 && kind == 0) && !(slot == 0 && kind == 15)
            ==> decode_spec(raw) == Event::Nothing,
{
}

/// There are ten slots: an event of another is none.
pub proof fn other_slots_are_ignored(raw: Seq<u8>)
    requires
        raw.len() == 8,
        raw[0] >= 160,
    ensures
        decode_spec(raw) == Event::Nothing,
{
}

/// An event leaves its finger where it says, or takes it away, and never makes one up.
pub proof fn fingers_stay_where_they_were_seen(
    slots: Seq<Option<Contact>>,
    next: i32,
    event: Event,
    i: int,
)
    requires
        slots.len() == 10,
        0 <= i < 10,
        event matches Event::Contact { slot, .. } ==> slot < 10,
        event matches Event::Leave(slot) ==> slot < 10,
    ensures
        apply_spec(slots, next, event).0.len() == 10,
        event matches Event::Contact { slot, x, y } ==> {
            let (after, following) = apply_spec(slots, next, event);
            &&& after[slot as int] matches Some(c) && c.x == x && c.y == y && c.tracking
                == match slots[slot as int] {
                Some(was) => was.tracking,
                None => next,
            }
            &&& slots[slot as int] is Some ==> following == next
            &&& slots[slot as int] is None ==> following == if next == 0x7fff_ffff {
                1
            } else {
                next + 1
            }
        },
        event matches Event::Leave(slot) ==> apply_spec(slots, next, event).0[slot as int] is None
            && apply_spec(slots, next, event).1 == next,
        event is Nothing ==> apply_spec(slots, next, event) == (slots, next),
        event is Reset ==> apply_spec(slots, next, event).0[i] is None && apply_spec(
            slots,
            next,
            event,
        ).1 == next,
{
}

/// Places are brought into the panel's range by the least change.
pub proof fn places_are_clamped(v: i32, r: Range, w: int)
    requires
        r.min <= r.max,
        r.min <= w <= r.max,
    ensures
        r.min <= clamp_spec(v, r) <= r.max,
        r.min <= v <= r.max ==> clamp_spec(v, r) == v,
        v <= w ==> clamp_spec(v, r) <= w,
        v >= w ==> clamp_spec(v, r) >= w,
{
}

/// The place of the events of a slot in a frame.
pub open spec fn slot_at(slots: Seq<Option<Contact>>, slot: nat) -> int
    decreases slot,
{
    if slot == 0 {
        0
    } else {
        slot_at(slots, (slot - 1) as nat) + if slots[slot - 1] is Some {
            4int
        } else {
            2
        }
    }
}

proof fn lemma_slots_events(slots: Seq<Option<Contact>>, n: nat, slot: nat, x: Range, y: Range)
    requires
        slot < n <= 10,
        slots.len() == 10,
    ensures
        slots_events(slots, n, x, y).len() == slot_at(slots, n),
        0 <= slot_at(slots, slot),
        slot_at(slots, slot) + (if slots[slot as int] is Some {
            4int
        } else {
            2
        }) <= slot_at(slots, n),
        slots_events(slots, n, x, y)[slot_at(slots, slot)] == (3u16, 0x2fu16, slot as i32),
        match slots[slot as int] {
            None => slots_events(slots, n, x, y)[slot_at(slots, slot) + 1] == (3u16, 0x39u16, -1i32),
            Some(c) => {
                &&& slots_events(slots, n, x, y)[slot_at(slots, slot) + 1] == (
                    3u16,
                    0x39u16,
                    c.tracking,
                )
                &&& slots_events(slots, n, x, y)[slot_at(slots, slot) + 2] == (
                    3u16,
                    0x35u16,
                    clamp_spec(c.x, x),
                )
                &&& slots_events(slots, n, x, y)[slot_at(slots, slot) + 3] == (
                    3u16,
                    0x36u16,
                    clamp_spec(c.y, y),
                )
            },
        },
    decreases n,
{
    let before = slots_events(slots, (n - 1) as nat, x, y);
    let own = slot_events(n - 1, slots[n - 1], x, y);
    if n == 1 {
        assert(before.len() == 0);
        assert(slot_at(slots, 0) == 0);
    } else if slot < n - 1 {
        lemma_slots_events(slots, (n - 1) as nat, slot, x, y);
    } else {
        lemma_slots_events(slots, (n - 1) as nat, (n - 2) as nat, x, y);
    }
    assert(slots_events(slots, n, x, y) == before + own);
}

/// Readers get every finger back: its slot, its number and its place, and for an empty
/// slot that there is none. The first finger also stands for a mouse, whose button is down
/// exactly where a finger is.
pub proof fn frames_tell_every_finger(
    slots: Seq<Option<Contact>>,
    x: Range,
    y: Range,
    slot: nat,
)
    requires
        slots.len() == 10,
        slot < 10,
        x.min <= x.max,
        y.min <= y.max,
    ensures
        ({
            let f = frame_spec(slots, x, y);
            let at = slot_at(slots, slot);
            let end = slot_at(slots, 10);
            &&& 0 <= at < end < f.len()
            &&& f[at] == (3u16, 0x2fu16, slot as i32)
            &&& slots[slot as int] is None ==> f[at + 1] == (3u16, 0x39u16, -1i32)
            &&& slots[slot as int] matches Some(c) ==> {
                &&& f[at + 1] == (3u16, 0x39u16, c.tracking)
                &&& f[at + 2].0 == 3 && f[at + 2].1 == 0x35 && f[at + 3].0 == 3 && f[at + 3].1
                    == 0x36
                &&& x.min <= c.x <= x.max ==> f[at + 2].2 == c.x
                &&& y.min <= c.y <= y.max ==> f[at + 3].2 == c.y
            }
            &&& f[end].0 == 1 && f[end].1 == 330
            &&& f[end].2 == 1 <==> exists|i: int| 0 <= i < 10 && (#[trigger] slots[i]) is Some
            &&& f[end].2 == 0 || f[end].2 == 1
            &&& f.last() == (0u16, 0u16, 0i32)
        }),
        (slots[slot as int] is Some && forall|i: int|
            0 <= i < slot ==> (#[trigger] slots[i]) is None) ==> ({
            let f = frame_spec(slots, x, y);
            let end = slot_at(slots, 10);
            let c = slots[slot as int]->0;
            &&& f.len() == end + 4
            &&& f[end + 1].0 == 3 && f[end + 1].1 == 0 && f[end + 2].0 == 3 && f[end + 2].1 == 1
            &&& x.min <= c.x <= x.max ==> f[end + 1].2 == c.x
            &&& y.min <= c.y <= y.max ==> f[end + 2].2 == c.y
        }),
{
    lemma_slots_events(slots, 10, slot, x, y);
    lemma_first_contact(slots, 10);
    let events = slots_events(slots, 10, x, y);
    let f = frame_spec(slots, x, y);
    assert(f.take(events.len() as int) =~= events);
    if slots[slot as int] is Some && forall|i: int| 0 <= i < slot ==> (#[trigger] slots[i]) is None {
        lemma_first_contact(slots, slot);
        lemma_first_is_kept(slots, (slot + 1) as nat, 10);
    }
}

proof fn lemma_first_is_kept(slots: Seq<Option<Contact>>, n: nat, m: nat)
    requires
        n <= m,
        first_contact(slots, n) is Some,
    ensures
        first_contact(slots, m) == first_contact(slots, n),
    decreases m,
{
    if n < m {
        lemma_first_is_kept(slots, n, (m - 1) as nat);
    }
}

} // verus!
