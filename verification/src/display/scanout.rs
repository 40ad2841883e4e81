//! The display controller: page flips of window A, the boot console in window B, and
//! the way back to what the firmware left. Registers are addressed by word number.
use vstd::prelude::*;

use crate::display::block_linear;
use crate::mmio;
use crate::mmio::{Access, Bus, Test, Timed};

verus! {

pub const WIDTH: u32 = 1280;

pub const HEIGHT: u32 = 720;

pub const STRIDE: u32 = 5120;

pub const INT_STATUS: usize = 0x37;

pub const INT_MASK: usize = 0x38;

pub const INT_ENABLE: usize = 0x39;

pub const STATE_ACCESS: usize = 0x40;

pub const STATE_CONTROL: usize = 0x41;

pub const HEADER: usize = 0x42;

pub const ACT_CONTROL: usize = 0x43;

pub const PRIORITY: usize = 0x403;

pub const PRIORITY_TIMER: usize = 0x404;

pub const OPTIONS: usize = 0x700;

pub const BUFFER_STRIDE: usize = 0x70b;

pub const UV_BUFFER_STRIDE: usize = 0x70c;

pub const START: usize = 0x800;

pub const KIND: usize = 0x80b;

pub const START_HI: usize = 0x80d;

pub const MEMFETCH: usize = 0x82b;

pub const CDE_CONTROL: usize = 0x82f;

pub const CDE_OVERRIDE: usize = 0x837;

pub const UNDERFLOW_A: usize = 0xbca;

pub const UNDERFLOW_B: usize = 0xdca;

/// Selects window A or window B.
pub const WINDOW_A: u32 = 0x10;

pub const WINDOW_B: u32 = 0x20;

pub const WIN_ENABLE: u32 = 0x4000_0000;

/// The window is on, fetched by columns, mirrored.
pub const COLUMN_OPTIONS: u32 = 0x4000_0011;

/// General state and both windows.
pub const REQUEST: u32 = 7;

pub const FRAME_END: u32 = 2;

pub const VBLANK: u32 = 4;

/// The events of frames and of failed fetches.
pub const EVENTS: u32 = 0xc306;

/// The windows that latch by lines rather than by frames.
pub const ACTIVATION: u32 = 0x14;

pub const PRIORITY_BITS: u32 = 0x7f_7f00;

pub const TIMER_BITS: u32 = 0x3f_3f00;

pub const PRIORITY_LEVEL: u32 = 0x20_2000;

pub const TIMER_LEVEL: u32 = 0x1_0100;

/// Width and height of the output, and of its rows in bytes.
pub const OUTPUT_SIZE: u32 = 0x0500_02d0;

pub const OUTPUT_ROWS: u32 = 0x0500_0b40;

pub const NO_SCALING: u32 = 0x1000_1000;

pub const OPAQUE_BELOW: u32 = 0x0100_00ff;

pub const OPAQUE_ABOVE: u32 = 0x0100_0000;

/// How a frame's pixels are stored.
#[derive(Clone, Copy, Debug, PartialEq, Eq, Structural)]
pub enum PixelFormat {
    BGRA8888,
    XRGB8888,
    RGBA8888,
    XBGR8888,
    Other,
}

/// What the controller calls a format.
pub open spec fn depth_spec(format: PixelFormat) -> Option<u32> {
    match format {
        PixelFormat::BGRA8888 | PixelFormat::XRGB8888 => Some(12),
        PixelFormat::RGBA8888 | PixelFormat::XBGR8888 => Some(13),
        PixelFormat::Other => None,
    }
}

pub fn color_depth(format: PixelFormat) -> (r: Option<u32>)
    ensures
        r == depth_spec(format),
{
    match format {
        PixelFormat::BGRA8888 | PixelFormat::XRGB8888 => Some(12),
        PixelFormat::RGBA8888 | PixelFormat::XBGR8888 => Some(13),
        PixelFormat::Other => None,
    }
}

/// The registers of a window that are taken over, in the order in which they are
/// kept.
pub open spec fn registers_spec() -> Seq<usize> {
    seq![
        0x700usize,
        0x702,
        0x703,
        0x704,
        0x705,
        0x706,
        0x707,
        0x708,
        0x709,
        0x70a,
        0x800,
        0x80d,
        0x806,
        0x808,
        0x701,
        0x70d,
        0x716,
        0x717,
        0x718,
        0x719,
        0x70b,
        0x70c,
        0x82f,
        0x837,
    ]
}

pub fn registers() -> (r: [usize; 24])
    ensures
        r@ == registers_spec(),
{
    let r: [usize; 24] = [
        0x700,
        0x702,
        0x703,
        0x704,
        0x705,
        0x706,
        0x707,
        0x708,
        0x709,
        0x70a,
        0x800,
        0x80d,
        0x806,
        0x808,
        0x701,
        0x70d,
        0x716,
        0x717,
        0x718,
        0x719,
        0x70b,
        0x70c,
        0x82f,
        0x837,
    ];
    assert(r@ =~= registers_spec());
    r
}

/// What the firmware left.
#[derive(Clone, Copy)]
pub struct Original {
    pub window: [u32; 24],
    pub kind: u32,
    pub console_window: [u32; 24],
    pub console_kind: u32,
    pub priority: u32,
    pub timer: u32,
    pub activation: u32,
    pub event_enable: u32,
    pub event_mask: u32,
}

/// Values for a window's registers, then its kind.
pub open spec fn window_values(values: Seq<u32>, kind: u32) -> Seq<(usize, u32)> {
    Seq::new(24, |i: int| (registers_spec()[i], values[i])).push((KIND, kind))
}

/// Writes a window's registers.
fn write_window<R: Timed>(bus: &mut Bus<'_, R>, values: &[u32; 24], kind: u32)
    ensures
        final(bus).port() == old(bus).port(),
        mmio::memory_kept(old(bus).log(), final(bus).log()),
        mmio::writes(final(bus).log()) == mmio::writes(old(bus).log()) + window_values(
            values@,
            kind,
        ),
        forall|o: usize|
            #![trigger mmio::reads(final(bus).log(), o)]
            mmio::reads(final(bus).log(), o) == mmio::reads(old(bus).log(), o),
{
    let names: [usize; 24] = registers();
    let ghost whole = window_values(values@, kind);
    let ghost start = mmio::writes(bus.log());
    let mut i: usize = 0;
    while i < 24
        invariant
            bus.port() == old(bus).port(),
            i <= 24,
            names@ == registers_spec(),
            whole == window_values(values@, kind),
            mmio::memory_kept(old(bus).log(), bus.log()),
            mmio::writes(bus.log()) =~= start + whole.take(i as int),
            forall|o: usize|
                #![trigger mmio::reads(bus.log(), o)]
                mmio::reads(bus.log(), o) == mmio::reads(old(bus).log(), o),
        decreases 24 - i,
    {
        bus.write(names[i], values[i]);
        assert(whole[i as int] == (names@[i as int], values@[i as int]));
        i = i + 1;
    }
    bus.write(KIND, kind);
    assert(mmio::writes(bus.log()) =~= start + whole);
}

/// Reads that gave exactly some values.
pub open spec fn agreement(expected: Seq<(usize, u32)>) -> Seq<Access> {
    Seq::new(expected.len(), |i: int| Access::Read(expected[i].0, expected[i].1))
}

/// Reads that gave some values up to one that gave another.
pub open spec fn disagreement(
    before: Seq<Access>,
    expected: Seq<(usize, u32)>,
    i: int,
    value: u32,
) -> Seq<Access> {
    (before + agreement(expected.take(i))).push(Access::Read(expected[i].0, value))
}

/// The registers were read up to one that holds something else.
pub open spec fn contradicts(
    before: Seq<Access>,
    after: Seq<Access>,
    expected: Seq<(usize, u32)>,
) -> bool {
    &&& mmio::extends(before, after)
    &&& {
        exists|i: int, value: u32|
            0 <= i < expected.len() && value != expected[i].1 && after == #[trigger] disagreement(
                before,
                expected,
                i,
                value,
            )
    }
}

/// Reads registers until one holds something else.
fn agree<R: Timed>(bus: &mut Bus<'_, R>, expected: &[(usize, u32)]) -> (r: bool)
    ensures
        final(bus).port() == old(bus).port(),
        mmio::quiet(old(bus).log(), final(bus).log()),
        r ==> final(bus).log() == old(bus).log() + agreement(expected@),
        !r ==> exists|i: int, value: u32|
            0 <= i < expected@.len() && value != expected@[i].1 && final(bus).log()
                == #[trigger] disagreement(old(bus).log(), expected@, i, value),
{
    let count: usize = expected.len();
    let mut i: usize = 0;
    assert(bus.log() =~= old(bus).log() + agreement(expected@.take(0)));
    while i < count
        invariant
            bus.port() == old(bus).port(),
            i <= count,
            count == expected@.len(),
            mmio::quiet(old(bus).log(), bus.log()),
            bus.log() =~= old(bus).log() + agreement(expected@.take(i as int)),
        decreases count - i,
    {
        let value: u32 = bus.read(expected[i].0);
        if value != expected[i].1 {
            assert(bus.log() =~= disagreement(old(bus).log(), expected@, i as int, value));
            return false;
        }
        assert(bus.log() =~= old(bus).log() + agreement(expected@.take(i + 1)));
        i = i + 1;
    }
    assert(expected@.take(count as int) =~= expected@);
    true
}

/// Reads a window's registers, and whether they hold some values.
fn window_agrees<R: Timed>(bus: &mut Bus<'_, R>, values: &[u32; 24], kind: u32) -> (r: bool)
    ensures
        final(bus).port() == old(bus).port(),
        mmio::quiet(old(bus).log(), final(bus).log()),
        r ==> final(bus).log() == old(bus).log() + agreement(window_values(values@, kind)),
        !r ==> contradicts(old(bus).log(), final(bus).log(), window_values(values@, kind)),
{
    let names: [usize; 24] = registers();
    let ghost whole = window_values(values@, kind);
    let mut i: usize = 0;
    while i < 24
        invariant
            bus.port() == old(bus).port(),
            i <= 24,
            names@ == registers_spec(),
            whole == window_values(values@, kind),
            mmio::quiet(old(bus).log(), bus.log()),
            bus.log() =~= old(bus).log() + agreement(whole).take(i as int),
        decreases 24 - i,
    {
        let value: u32 = bus.read(names[i]);
        if value != values[i] {
            assert(agreement(whole).take(i as int) =~= agreement(whole.take(i as int)));
            assert(bus.log() =~= disagreement(old(bus).log(), whole, i as int, value));
            return false;
        }
        assert(agreement(whole)[i as int] == Access::Read(names@[i as int], value));
        i = i + 1;
    }
    let value: u32 = bus.read(KIND);
    if value != kind {
        assert(agreement(whole).take(24) =~= agreement(whole.take(24)));
        assert(bus.log() =~= disagreement(old(bus).log(), whole, 24, value));
        return false;
    }
    assert(bus.log() =~= old(bus).log() + agreement(whole));
    true
}

/// The low and the high half of an address.
pub open spec fn low_spec(address: u64) -> u32 {
    (address % 0x1_0000_0000) as u32
}

pub open spec fn high_spec(address: u64) -> u32 {
    (address / 0x1_0000_0000) as u32
}

/// What puts a frame into window A.
pub open spec fn frame_writes(address: u64, depth: u32) -> Seq<(usize, u32)> {
    seq![
        (CDE_CONTROL, 0),
        (CDE_OVERRIDE, 1),
        (0x701, 0),
        (0x702, 0),
        (0x703, depth),
        (0x704, 0),
        (0x705, OUTPUT_SIZE),
        (0x706, OUTPUT_ROWS),
        (0x707, 0),
        (0x708, 0),
        (0x709, NO_SCALING),
        (0x70a, STRIDE),
        (BUFFER_STRIDE, 0),
        (UV_BUFFER_STRIDE, 0),
        (0x70d, 0),
        (0x716, OPAQUE_BELOW),
        (KIND, block_linear::SURFACE_KIND),
        (START, low_spec(address)),
        (START_HI, high_spec(address)),
        (0x806, (STRIDE - 1) as u32),
        (0x808, 0),
        (OPTIONS, COLUMN_OPTIONS),
        (HEADER, WINDOW_B),
    ]
}

/// What shows the boot console in window B above the frame, or turns it off.
pub open spec fn console_writes(original: Original, show: bool) -> Seq<(usize, u32)> {
    if show {
        window_values(original.window@, original.kind) + seq![
            (CDE_CONTROL, 0),
            (CDE_OVERRIDE, 1),
            (0x716, OPAQUE_ABOVE),
            (OPTIONS, WIN_ENABLE),
            (HEADER, WINDOW_A),
        ]
    } else {
        seq![(OPTIONS, 0u32), (HEADER, WINDOW_A)]
    }
}

/// How fetches are given priority, by what was read.
pub open spec fn prioritised(
    before: Seq<Access>,
    first: u32,
    second: u32,
    priority: u32,
    timer: u32,
) -> Seq<Access> {
    before.push(Access::Read(PRIORITY, first)).push(
        Access::Write(PRIORITY, (first & !PRIORITY_BITS) | priority),
    ).push(Access::Read(PRIORITY_TIMER, second)).push(
        Access::Write(PRIORITY_TIMER, (second & !TIMER_BITS) | timer),
    )
}

/// Fetches were given priority.
pub open spec fn was_prioritised(
    before: Seq<Access>,
    after: Seq<Access>,
    priority: u32,
    timer: u32,
) -> bool {
    exists|first: u32, second: u32|
        after == #[trigger] prioritised(before, first, second, priority, timer)
}

fn set_priority<R: Timed>(bus: &mut Bus<'_, R>, priority: u32, timer: u32)
    ensures
        final(bus).port() == old(bus).port(),
        mmio::memory_kept(old(bus).log(), final(bus).log()),
        was_prioritised(old(bus).log(), final(bus).log(), priority, timer),
        forall|o: usize|
            #![trigger mmio::reads(final(bus).log(), o)]
            o != PRIORITY && o != PRIORITY_TIMER ==> mmio::reads(final(bus).log(), o)
                == mmio::reads(old(bus).log(), o),
{
    let first: u32 = bus.read(PRIORITY);
    bus.write(PRIORITY, (first & !PRIORITY_BITS) | priority);
    let second: u32 = bus.read(PRIORITY_TIMER);
    bus.write(PRIORITY_TIMER, (second & !TIMER_BITS) | timer);
    assert(bus.log() == prioritised(old(bus).log(), first, second, priority, timer));
}

fn write_frame<R: Timed>(bus: &mut Bus<'_, R>, address: u64, depth: u32)
    ensures
        final(bus).port() == old(bus).port(),
        mmio::memory_kept(old(bus).log(), final(bus).log()),
        mmio::writes(final(bus).log()) == mmio::writes(old(bus).log()) + frame_writes(
            address,
            depth,
        ),
        forall|o: usize|
            #![trigger mmio::reads(final(bus).log(), o)]
            mmio::reads(final(bus).log(), o) == mmio::reads(old(bus).log(), o),
{
    bus.write(CDE_CONTROL, 0);
    bus.write(CDE_OVERRIDE, 1);
    bus.write(0x701, 0);
    bus.write(0x702, 0);
    bus.write(0x703, depth);
    bus.write(0x704, 0);
    bus.write(0x705, OUTPUT_SIZE);
    bus.write(0x706, OUTPUT_ROWS);
    bus.write(0x707, 0);
    bus.write(0x708, 0);
    bus.write(0x709, NO_SCALING);
    bus.write(0x70a, STRIDE);
    bus.write(BUFFER_STRIDE, 0);
    bus.write(UV_BUFFER_STRIDE, 0);
    bus.write(0x70d, 0);
    bus.write(0x716, OPAQUE_BELOW);
    bus.write(KIND, block_linear::SURFACE_KIND);
    bus.write(START, (address % 0x1_0000_0000) as u32);
    bus.write(START_HI, (address / 0x1_0000_0000) as u32);
    bus.write(0x806, STRIDE - 1);
    bus.write(0x808, 0);
    bus.write(OPTIONS, COLUMN_OPTIONS);
    bus.write(HEADER, WINDOW_B);
    assert(mmio::writes(bus.log()) =~= mmio::writes(old(bus).log()) + frame_writes(
        address,
        depth,
    ));
}

fn write_console<R: Timed>(bus: &mut Bus<'_, R>, original: &Original, show: bool)
    ensures
        final(bus).port() == old(bus).port(),
        mmio::memory_kept(old(bus).log(), final(bus).log()),
        mmio::writes(final(bus).log()) == mmio::writes(old(bus).log()) + console_writes(
            *original,
            show,
        ),
        forall|o: usize|
            #![trigger mmio::reads(final(bus).log(), o)]
            mmio::reads(final(bus).log(), o) == mmio::reads(old(bus).log(), o),
{
    if show {
        write_window(bus, &original.window, original.kind);
        bus.write(CDE_CONTROL, 0);
        bus.write(CDE_OVERRIDE, 1);
        bus.write(0x716, OPAQUE_ABOVE);
        bus.write(OPTIONS, WIN_ENABLE);
    } else {
        bus.write(OPTIONS, 0);
    }
    bus.write(HEADER, WINDOW_A);
    assert(mmio::writes(bus.log()) =~= mmio::writes(old(bus).log()) + console_writes(
        *original,
        show,
    ));
}

/// What was read when an update was prepared.
pub struct Preparation {
    pub mask: u32,
    pub enable: u32,
    pub header: u32,
    pub state: u32,
    pub latch: u32,
    pub back: u32,
}

/// What prepares an update: events are on and masked, the fetch queues of both
/// windows are reset, the new state is taken over, and it will latch with a frame.
pub open spec fn preparation(p: Preparation) -> Seq<Access> {
    seq![
        Access::Read(INT_MASK, p.mask),
        Access::Write(INT_MASK, p.mask & !EVENTS),
        Access::Read(INT_ENABLE, p.enable),
        Access::Write(INT_ENABLE, p.enable | EVENTS),
        Access::Write(MEMFETCH, 1),
        Access::Read(HEADER, p.header),
        Access::Write(HEADER, WINDOW_B),
        Access::Write(MEMFETCH, 1),
        Access::Write(HEADER, p.header),
        Access::Write(STATE_CONTROL, 0x700),
        Access::Read(STATE_CONTROL, p.state),
        Access::Read(ACT_CONTROL, p.latch),
        Access::Write(ACT_CONTROL, p.latch & !ACTIVATION),
        Access::Read(ACT_CONTROL, p.back),
    ]
}

/// An update was prepared; it latches with a frame, or does not.
pub open spec fn was_prepared(before: Seq<Access>, after: Seq<Access>, latches: bool) -> bool {
    exists|p: Preparation|
        after == before + #[trigger] preparation(p) && latches == (p.back & ACTIVATION == 0)
}

/// What is said of an update that latches, or does not.
pub open spec fn latching(latches: bool) -> Result<(), &'static str> {
    if latches {
        Ok(())
    } else {
        Err("Tegra DC V-counter activation did not latch")
    }
}

/// Prepares an update.
fn prepare<R: Timed>(bus: &mut Bus<'_, R>) -> (r: Result<(), &'static str>)
    ensures
        final(bus).port() == old(bus).port(),
        mmio::memory_kept(old(bus).log(), final(bus).log()),
        was_prepared(old(bus).log(), final(bus).log(), r is Ok),
        r == latching(r is Ok),
{
    let mask: u32 = bus.read(INT_MASK);
    bus.write(INT_MASK, mask & !EVENTS);
    let enable: u32 = bus.read(INT_ENABLE);
    bus.write(INT_ENABLE, enable | EVENTS);
    bus.write(MEMFETCH, 1);
    let header: u32 = bus.read(HEADER);
    bus.write(HEADER, WINDOW_B);
    bus.write(MEMFETCH, 1);
    bus.write(HEADER, header);
    bus.write(STATE_CONTROL, 0x700);
    let state: u32 = bus.read(STATE_CONTROL);
    let latch: u32 = bus.read(ACT_CONTROL);
    bus.write(ACT_CONTROL, latch & !ACTIVATION);
    let after: u32 = bus.read(ACT_CONTROL);
    proof {
        let p = Preparation { mask, enable, header, state, latch, back: after };
        assert(bus.log() =~= old(bus).log() + preparation(p));
    }
    if after & ACTIVATION != 0 {
        return Err("Tegra DC V-counter activation did not latch");
    }
    Ok(())
}

/// An update on its way: whether an interrupt is awaited, and whether it came.
#[derive(Clone, Copy, Debug, PartialEq, Eq, Structural)]
pub struct Flip {
    pub pending: bool,
    pub complete: bool,
}

/// What arms an update, by what was read of the mask. The sticky event is cleared before, so
/// that the update's own frame can complete it.
pub open spec fn armed(before: Seq<Access>, interrupt: bool, mask: u32) -> Seq<Access> {
    let told = before.push(Access::Write(INT_STATUS, FRAME_END)).push(
        Access::Write(STATE_CONTROL, REQUEST),
    );
    if interrupt {
        told.push(Access::Read(INT_MASK, mask)).push(Access::Write(INT_MASK, mask | FRAME_END))
    } else {
        told
    }
}

/// An event was looked at: behind the end of a frame an update on its way was asked for, the
/// event was cleared, and a completed update takes its interrupt back.
pub open spec fn was_noticed(
    before: Seq<Access>,
    after: Seq<Access>,
    flip: Flip,
    status: u32,
    r: bool,
) -> bool {
    let ended = Access::Write(INT_STATUS, FRAME_END);
    if status & FRAME_END == 0 {
        !r && after == before
    } else if !flip.pending {
        !r && after == before.push(ended)
    } else {
        exists|control: u32, mask: u32|
            {
                let asked = before.push(Access::Read(STATE_CONTROL, control)).push(ended);
                &&& r == #[trigger] retired(flip, status, control)
                &&& after == if r {
                    asked.push(#[trigger] mask_read(mask)).push(
                        Access::Write(INT_MASK, mask & !FRAME_END),
                    )
                } else {
                    asked
                }
            }
    }
}

/// A reading of the mask.
pub open spec fn mask_read(mask: u32) -> Access {
    Access::Read(INT_MASK, mask)
}

/// At the deadline the event was looked at once more, and the interrupt taken back.
pub open spec fn was_expired(
    before: Seq<Access>,
    after: Seq<Access>,
    flip: Flip,
    completed: bool,
) -> bool {
    exists|status: u32, a: Seq<Access>, control: u32, enable: u32, mask: u32|
        {
            &&& #[trigger] was_noticed(
                before.push(Access::Read(INT_STATUS, status)),
                a,
                flip,
                status,
                completed,
            )
            &&& after == #[trigger] expiry(a, control, enable, mask)
        }
}

/// What is read at a deadline, and that the interrupt is taken back.
pub open spec fn expiry(before: Seq<Access>, control: u32, enable: u32, mask: u32) -> Seq<Access> {
    before.push(Access::Read(STATE_CONTROL, control)).push(Access::Read(INT_ENABLE, enable)).push(
        mask_read(mask),
    ).push(Access::Write(INT_MASK, mask & !FRAME_END))
}

/// Whether an update is done: a frame ended after it was armed, and its request is
/// gone.
pub open spec fn retired(flip: Flip, status: u32, control: u32) -> bool {
    status & FRAME_END != 0 && flip.pending && control & REQUEST == 0
}

impl Flip {
    /// Arms the update.
    pub fn arm<R: Timed>(&mut self, bus: &mut Bus<'_, R>, interrupt: bool)
        ensures
            final(bus).port() == old(bus).port(),
            *final(self) == (Flip { pending: interrupt, complete: false }),
            mmio::memory_kept(old(bus).log(), final(bus).log()),
            exists|mask: u32| final(bus).log() == #[trigger] armed(
                old(bus).log(),
                interrupt,
                mask,
            ),
    {
        self.complete = false;
        bus.write(INT_STATUS, FRAME_END);
        self.pending = interrupt;
        bus.write(STATE_CONTROL, REQUEST);
        let ghost mut found: u32 = 0;
        if interrupt {
            let mask: u32 = bus.read(INT_MASK);
            bus.write(INT_MASK, mask | FRAME_END);
            proof {
                found = mask;
            }
        }
        assert(bus.log() == armed(old(bus).log(), interrupt, found));
    }

    /// Takes notice of an event. The interrupt and the observer at the deadline use the
    /// same evidence.
    pub fn retire<R: Timed>(&mut self, bus: &mut Bus<'_, R>, status: u32) -> (r: bool)
        ensures
            final(bus).port() == old(bus).port(),
            mmio::memory_kept(old(bus).log(), final(bus).log()),
            was_noticed(old(bus).log(), final(bus).log(), *old(self), status, r),
            *final(self) == if r {
                Flip { pending: false, complete: true }
            } else {
                *old(self)
            },
    {
        let mut completed: bool = false;
        let ghost mut control_seen: u32 = 0;
        let ghost mut mask_seen: u32 = 0;
        if status & FRAME_END != 0 && self.pending {
            let control: u32 = bus.read(STATE_CONTROL);
            completed = control & REQUEST == 0;
            proof {
                control_seen = control;
            }
        }
        if status & FRAME_END != 0 {
            bus.write(INT_STATUS, FRAME_END);
        }
        if completed {
            let mask: u32 = bus.read(INT_MASK);
            bus.write(INT_MASK, mask & !FRAME_END);
            self.pending = false;
            self.complete = true;
            proof {
                mask_seen = mask;
            }
        }
        proof {
            let asked = retired(*old(self), status, control_seen);
            let read = mask_read(mask_seen);
        }
        completed
    }

    /// Looks once more at the deadline. A late interrupt is no failed update.
    pub fn expire<R: Timed>(&mut self, bus: &mut Bus<'_, R>) -> (r: Result<(), &'static str>)
        ensures
            final(bus).port() == old(bus).port(),
            mmio::memory_kept(old(bus).log(), final(bus).log()),
            !final(self).pending,
            final(self).complete == (r is Ok),
            old(self).complete ==> r is Ok,
            r matches Err(e) ==> e == "Tegra DC FRAME_END interrupt timeout",
            exists|completed: bool| #[trigger]
                was_expired(old(bus).log(), final(bus).log(), *old(self), completed) && r is Ok == (
                old(self).complete || completed),
    {
        let status: u32 = bus.read(INT_STATUS);
        let completed: bool = self.retire(bus, status);
        let ghost a = bus.log();
        assert(was_noticed(
            old(bus).log().push(Access::Read(INT_STATUS, status)),
            a,
            *old(self),
            status,
            completed,
        ));
        let control: u32 = bus.read(STATE_CONTROL);
        let enable: u32 = bus.read(INT_ENABLE);
        let mask: u32 = bus.read(INT_MASK);
        bus.write(INT_MASK, mask & !FRAME_END);
        assert(bus.log() == expiry(a, control, enable, mask));
        assert(was_expired(old(bus).log(), bus.log(), *old(self), completed));
        self.pending = false;
        if self.complete {
            Ok(())
        } else {
            Err("Tegra DC FRAME_END interrupt timeout")
        }
    }
}

/// What a register is waited for.
#[derive(Clone, Copy, Debug, PartialEq, Eq, Structural)]
pub enum Until {
    Clear(u32),
    Any(u32),
}

pub open spec fn until_spec(until: Until, value: u32) -> bool {
    match until {
        Until::Clear(bits) => value & bits == 0,
        Until::Any(bits) => value & bits != 0,
    }
}

/// A register was read as wanted at last, behind nothing but looks.
pub open spec fn came(
    before: Seq<Access>,
    after: Seq<Access>,
    register: usize,
    until: Until,
) -> bool {
    &&& mmio::quiet(before, after)
    &&& before.len() < after.len()
    &&& after.last() matches Access::Read(o, value) && o == register && until_spec(until, value)
}

/// A register was not as wanted within a tenth of a second, or within so many polls.
pub open spec fn wait_failed(
    before: Seq<Access>,
    after: Seq<Access>,
    register: usize,
    until: Until,
    polls: u64,
    e: &'static str,
) -> bool {
    &&& e == "Tegra DC activation/vblank timeout"
    &&& mmio::quiet(before, after)
    &&& polls > 0 ==> mmio::tried(before, after, register) && !until_spec(
        until,
        mmio::last(after, register),
    )
    &&& mmio::ran_out(before, after, 100_000_000, polls as int)
}

/// Polls a register for up to a tenth of a second.
fn wait<R: Timed>(bus: &mut Bus<'_, R>, register: usize, until: Until, polls: u64) -> (r: Result<
    (),
    &'static str,
>)
    ensures
        final(bus).port() == old(bus).port(),
        mmio::quiet(old(bus).log(), final(bus).log()),
        match r {
            Ok(_) => came(old(bus).log(), final(bus).log(), register, until),
            Err(e) => wait_failed(old(bus).log(), final(bus).log(), register, until, polls, e),
        },
        forall|o: usize|
            #![trigger mmio::reads(final(bus).log(), o)]
            o != register ==> mmio::reads(final(bus).log(), o) == mmio::reads(old(bus).log(), o),
{
    let start: u64 = bus.now_ns();
    let deadline: u64 = start.saturating_add(100_000_000);
    let mut left: u64 = polls;
    while left > 0
        invariant
            bus.port() == old(bus).port(),
            left <= polls,
            deadline == mmio::until(start, 100_000_000),
            bus.log().len() == old(bus).log().len() + 1 + 3 * (polls - left),
            bus.log()[old(bus).log().len() as int] == Access::Time(start),
            left < polls ==> mmio::tried(old(bus).log(), bus.log(), register) && !until_spec(
                until,
                mmio::last(bus.log(), register),
            ),
            left == polls ==> mmio::reads(bus.log(), register) == mmio::reads(
                old(bus).log(),
                register,
            ),
            mmio::reads(bus.log(), register).len() >= mmio::reads(old(bus).log(), register).len(),
            mmio::quiet(old(bus).log(), bus.log()),
            forall|o: usize|
                #![trigger mmio::reads(bus.log(), o)]
                o != register ==> mmio::reads(bus.log(), o) == mmio::reads(old(bus).log(), o),
        decreases left,
    {
        let value: u32 = bus.read(register);
        let done: bool = match until {
            Until::Clear(bits) => value & bits == 0,
            Until::Any(bits) => value & bits != 0,
        };
        if done {
            return Ok(());
        }
        let now: u64 = bus.now_ns();
        if now >= deadline {
            return Err("Tegra DC activation/vblank timeout");
        }
        bus.delay_us(10);
        left = left - 1;
    }
    Err("Tegra DC activation/vblank timeout")
}

/// Polls that outlast every deadline.
pub const POLLS: u64 = 0x1_0000_0000;

/// An armed update was not taken, or the frame that takes it did not end.
pub open spec fn retire_failed(before: Seq<Access>, after: Seq<Access>, e: &'static str) -> bool {
    &&& mmio::extends(before, after)
    &&& {
        ||| wait_failed(before, after, STATE_CONTROL, Until::Clear(REQUEST), POLLS, e)
        ||| exists|a: Seq<Access>|
            {
                &&& #[trigger] came(before, a, STATE_CONTROL, Until::Clear(REQUEST))
                &&& wait_failed(a, after, INT_STATUS, Until::Any(FRAME_END), POLLS, e)
            }
    }
}

/// Waits for an armed update without an interrupt.
pub fn wait_retired<R: Timed>(bus: &mut Bus<'_, R>) -> (r: Result<(), &'static str>)
    ensures
        final(bus).port() == old(bus).port(),
        mmio::quiet(old(bus).log(), final(bus).log()),
        match r {
            Ok(_) => has_retired(old(bus).log(), final(bus).log()),
            Err(e) => retire_failed(old(bus).log(), final(bus).log(), e),
        },
{
    wait(bus, STATE_CONTROL, Until::Clear(REQUEST), POLLS)?;
    assert(came(old(bus).log(), bus.log(), STATE_CONTROL, Until::Clear(REQUEST)));
    wait(bus, INT_STATUS, Until::Any(FRAME_END), POLLS)
}

/// The state that an update borrows.
#[derive(Clone, Copy, Debug, PartialEq, Eq, Structural)]
pub struct Saved {
    pub access: u32,
    pub header: u32,
}

/// What an update starts with: the state that is being assembled, and window A. The state
/// that was found is given back in the end.
pub open spec fn opened(before: Seq<Access>, saved: Saved) -> Seq<Access> {
    before.push(Access::Read(STATE_ACCESS, saved.access)).push(
        Access::Read(HEADER, saved.header),
    ).push(Access::Write(STATE_ACCESS, 0)).push(Access::Write(HEADER, WINDOW_A))
}

fn open<R: Timed>(bus: &mut Bus<'_, R>) -> (saved: Saved)
    ensures
        final(bus).port() == old(bus).port(),
        mmio::memory_kept(old(bus).log(), final(bus).log()),
        final(bus).log() == opened(old(bus).log(), saved),
{
    let access: u32 = bus.read(STATE_ACCESS);
    let header: u32 = bus.read(HEADER);
    bus.write(STATE_ACCESS, 0);
    bus.write(HEADER, WINDOW_A);
    Saved { access, header }
}

/// The events as the firmware left them, by what was read.
pub open spec fn events_back(
    before: Seq<Access>,
    original: Original,
    enable: u32,
    mask: u32,
) -> Seq<Access> {
    before.push(Access::Write(INT_STATUS, EVENTS)).push(Access::Read(INT_ENABLE, enable)).push(
        Access::Write(INT_ENABLE, (enable & !EVENTS) | original.event_enable),
    ).push(Access::Read(INT_MASK, mask)).push(
        Access::Write(INT_MASK, (mask & !EVENTS) | original.event_mask),
    )
}

/// Puts the events back.
fn restore_events<R: Timed>(bus: &mut Bus<'_, R>, original: &Original)
    ensures
        final(bus).port() == old(bus).port(),
        mmio::memory_kept(old(bus).log(), final(bus).log()),
        exists|enable: u32, mask: u32|
            final(bus).log() == #[trigger] events_back(old(bus).log(), *original, enable, mask),
{
    bus.write(INT_STATUS, EVENTS);
    let enable: u32 = bus.read(INT_ENABLE);
    bus.write(INT_ENABLE, (enable & !EVENTS) | original.event_enable);
    let mask: u32 = bus.read(INT_MASK);
    bus.write(INT_MASK, (mask & !EVENTS) | original.event_mask);
    assert(bus.log() == events_back(old(bus).log(), *original, enable, mask));
}

/// What an update ends with, whatever happened: the borrowed state is given back,
/// and after a success so are the events.
pub open spec fn was_closed(
    before: Seq<Access>,
    after: Seq<Access>,
    saved: Saved,
    original: Original,
    success: bool,
) -> bool {
    let given = before.push(Access::Write(HEADER, saved.header)).push(
        Access::Write(STATE_ACCESS, saved.access),
    );
    if success {
        exists|enable: u32, mask: u32|
            after == #[trigger] events_back(given, original, enable, mask)
    } else {
        after == given
    }
}

fn close<R: Timed>(bus: &mut Bus<'_, R>, saved: Saved, original: &Original, success: bool)
    ensures
        final(bus).port() == old(bus).port(),
        mmio::memory_kept(old(bus).log(), final(bus).log()),
        was_closed(old(bus).log(), final(bus).log(), saved, *original, success),
{
    bus.write(HEADER, saved.header);
    bus.write(STATE_ACCESS, saved.access);
    if success {
        restore_events(bus, original);
    }
}

/// A flip was programmed, up to the point where it can be armed. It will latch, or not.
pub open spec fn was_programmed(
    before: Seq<Access>,
    after: Seq<Access>,
    original: Original,
    address: u64,
    depth: u32,
    show_console: bool,
    saved: Saved,
    latches: bool,
) -> bool {
    exists|b: Seq<Access>, c: Seq<Access>|
        {
            &&& #[trigger] was_prioritised(
                opened(before, saved),
                b,
                PRIORITY_LEVEL,
                TIMER_LEVEL,
            )
            &&& mmio::only_wrote(
                b,
                c,
                frame_writes(address, depth) + console_writes(original, show_console),
            )
            &&& #[trigger] was_prepared(c, after, latches)
        }
}

/// Pixels of a kind that cannot be shown were met on the way.
pub open spec fn was_halted(before: Seq<Access>, after: Seq<Access>, saved: Saved) -> bool {
    exists|b: Seq<Access>| #[trigger]
        was_prioritised(opened(before, saved), b, PRIORITY_LEVEL, TIMER_LEVEL) && after == b.push(
            Access::Write(CDE_CONTROL, 0),
        ).push(Access::Write(CDE_OVERRIDE, 1)).push(Access::Write(0x701, 0)).push(
            Access::Write(0x702, 0),
        )
}

/// Programs a flip, up to the point where it can be armed.
pub fn begin_flip<R: Timed>(
    bus: &mut Bus<'_, R>,
    original: &Original,
    address: u64,
    format: PixelFormat,
    show_console: bool,
) -> (r: (Saved, Result<(), &'static str>))
    ensures
        final(bus).port() == old(bus).port(),
        mmio::memory_kept(old(bus).log(), final(bus).log()),
        match depth_spec(format) {
            None => r.1 == Err::<(), &'static str>("Tegra DC requires a 32-bit RGB image")
                && was_halted(old(bus).log(), final(bus).log(), r.0),
            Some(depth) => r.1 == latching(r.1 is Ok) && was_programmed(
                old(bus).log(),
                final(bus).log(),
                *original,
                address,
                depth,
                show_console,
                r.0,
                r.1 is Ok,
            ),
        },
{
    let saved = open(bus);
    set_priority(bus, PRIORITY_LEVEL, TIMER_LEVEL);
    let ghost b = bus.log();
    assert(was_prioritised(opened(old(bus).log(), saved), b, PRIORITY_LEVEL, TIMER_LEVEL));
    let depth: u32 = match color_depth(format) {
        None => {
            bus.write(CDE_CONTROL, 0);
            bus.write(CDE_OVERRIDE, 1);
            bus.write(0x701, 0);
            bus.write(0x702, 0);
            return (saved, Err("Tegra DC requires a 32-bit RGB image"));
        },
        Some(depth) => depth,
    };
    write_frame(bus, address, depth);
    write_console(bus, original, show_console);
    let ghost c = bus.log();
    assert(mmio::writes(c) =~= mmio::writes(b) + (frame_writes(address, depth) + console_writes(
        *original,
        show_console,
    )));
    let result = prepare(bus);
    assert(was_prepared(c, bus.log(), result is Ok));
    (saved, result)
}

/// What window A must hold once a flip is active.
pub open spec fn active_values(address: u64, depth: u32) -> Seq<(usize, u32)> {
    seq![
        (START, low_spec(address)),
        (START_HI, high_spec(address)),
        (OPTIONS, COLUMN_OPTIONS),
        (0x701, 0),
        (0x702, 0),
        (0x703, depth),
        (0x705, OUTPUT_SIZE),
        (0x706, OUTPUT_ROWS),
        (0x709, NO_SCALING),
        (0x70a, STRIDE),
        (BUFFER_STRIDE, 0),
        (UV_BUFFER_STRIDE, 0),
        (0x70d, 0),
        (0x716, OPAQUE_BELOW),
        (KIND, block_linear::SURFACE_KIND),
        (0x806, (STRIDE - 1) as u32),
        (0x808, 0),
        (CDE_CONTROL, 0),
        (CDE_OVERRIDE, 1),
    ]
}

fn active(address: u64, depth: u32) -> (r: [(usize, u32); 19])
    ensures
        r@ == active_values(address, depth),
{
    let r: [(usize, u32); 19] = [
        (START, (address % 0x1_0000_0000) as u32),
        (START_HI, (address / 0x1_0000_0000) as u32),
        (OPTIONS, COLUMN_OPTIONS),
        (0x701, 0),
        (0x702, 0),
        (0x703, depth),
        (0x705, OUTPUT_SIZE),
        (0x706, OUTPUT_ROWS),
        (0x709, NO_SCALING),
        (0x70a, STRIDE),
        (BUFFER_STRIDE, 0),
        (UV_BUFFER_STRIDE, 0),
        (0x70d, 0),
        (0x716, OPAQUE_BELOW),
        (KIND, block_linear::SURFACE_KIND),
        (0x806, STRIDE - 1),
        (0x808, 0),
        (CDE_CONTROL, 0),
        (CDE_OVERRIDE, 1),
    ];
    assert(r@ =~= active_values(address, depth));
    r
}

/// What window B must hold while it shows the boot console: what the firmware left
/// in window A, on, opaque and not compressed.
pub open spec fn console_values(original: Original) -> Seq<u32> {
    original.window@.update(0, WIN_ENABLE).update(16, OPAQUE_ABOVE).update(22, 0).update(23, 1)
}

/// What window B must hold: the boot console, or nothing that is shown.
pub open spec fn console_expected(original: Original, show: bool) -> Seq<(usize, u32)> {
    if show {
        window_values(console_values(original), original.kind)
    } else {
        seq![(OPTIONS, 0u32)]
    }
}

/// Whether the boot console is what it has to be.
fn console_valid<R: Timed>(bus: &mut Bus<'_, R>, original: &Original, show: bool) -> (r: bool)
    ensures
        final(bus).port() == old(bus).port(),
        mmio::quiet(old(bus).log(), final(bus).log()),
        r ==> final(bus).log() == old(bus).log() + agreement(
            if show {
                window_values(console_values(*original), original.kind)
            } else {
                seq![(OPTIONS, 0u32)]
            },
        ),
        !r ==> contradicts(
            old(bus).log(),
            final(bus).log(),
            console_expected(*original, show),
        ),
{
    if show {
        let mut values: [u32; 24] = original.window;
        values[0] = WIN_ENABLE;
        values[16] = OPAQUE_ABOVE;
        values[22] = 0;
        values[23] = 1;
        assert(values@ =~= console_values(*original));
        window_agrees(bus, &values, original.kind)
    } else {
        let value: u32 = bus.read(OPTIONS);
        assert(value == 0 ==> bus.log() =~= old(bus).log() + agreement(seq![(OPTIONS, 0u32)]));
        assert(bus.log() =~= disagreement(old(bus).log(), seq![(OPTIONS, 0u32)], 0, value));
        value == 0
    }
}

/// What reading the active state back does, where all agrees.
pub open spec fn verification(
    original: Original,
    address: u64,
    depth: u32,
    show_console: bool,
    priority: u32,
    timer: u32,
    latch: u32,
) -> Seq<Access> {
    seq![Access::Write(STATE_ACCESS, 1)] + agreement(active_values(address, depth)) + seq![
        Access::Read(PRIORITY, priority),
        Access::Read(PRIORITY_TIMER, timer),
        Access::Read(ACT_CONTROL, latch),
        Access::Write(HEADER, WINDOW_B),
    ] + agreement(
        if show_console {
            window_values(console_values(original), original.kind)
        } else {
            seq![(OPTIONS, 0u32)]
        },
    ) + seq![Access::Write(HEADER, WINDOW_A)]
}

/// The active state was read back and is the one that was asked for.
pub open spec fn was_verified(
    before: Seq<Access>,
    after: Seq<Access>,
    original: Original,
    address: u64,
    depth: u32,
    show_console: bool,
) -> bool {
    &&& mmio::extends(before, after)
    &&& {
        exists|priority: u32, timer: u32, latch: u32|
            {
                &&& priority & PRIORITY_BITS == PRIORITY_LEVEL
                &&& timer & TIMER_BITS == TIMER_LEVEL
                &&& latch & ACTIVATION == 0
                &&& after == before + #[trigger] verification(
                    original,
                    address,
                    depth,
                    show_console,
                    priority,
                    timer,
                    latch,
                )
            }
    }
}

/// How fetches have to be given priority, and that the state latches with frames.
pub open spec fn policy_registers() -> Seq<(usize, Test)> {
    seq![
        (PRIORITY, Test::Is(PRIORITY_BITS, PRIORITY_LEVEL)),
        (PRIORITY_TIMER, Test::Is(TIMER_BITS, TIMER_LEVEL)),
        (ACT_CONTROL, Test::Clear(ACTIVATION)),
    ]
}

/// The active state is not the one that was asked for: what was read last differs.
pub open spec fn verify_failed(
    before: Seq<Access>,
    after: Seq<Access>,
    original: Original,
    address: u64,
    depth: u32,
    show_console: bool,
    e: &'static str,
) -> bool {
    &&& mmio::extends(before, after)
    &&& {
        let begun = before.push(Access::Write(STATE_ACCESS, 1));
        ||| e == "Tegra DC active scanout readback mismatch" && contradicts(
            begun,
            after,
            active_values(address, depth),
        )
        ||| e == "Tegra DC active fetch policy mismatch" && mmio::read_back(
            begun + agreement(active_values(address, depth)),
            after,
            policy_registers(),
            false,
        )
        ||| e == "Tegra DC boot console state mismatch" && exists|seen: Seq<Access>|
            {
                &&& #[trigger] mmio::read_back(
                    begun + agreement(active_values(address, depth)),
                    seen,
                    policy_registers(),
                    true,
                )
                &&& contradicts(
                    seen.push(Access::Write(HEADER, WINDOW_B)),
                    after.drop_last(),
                    console_expected(original, show_console),
                )
                &&& after.last() == Access::Write(HEADER, WINDOW_A)
            }
    }
}

/// Reads the active state back.
#[verifier::rlimit(60)]
fn verify<R: Timed>(
    bus: &mut Bus<'_, R>,
    original: &Original,
    address: u64,
    depth: u32,
    show_console: bool,
) -> (r: Result<(), &'static str>)
    ensures
        final(bus).port() == old(bus).port(),
        mmio::memory_kept(old(bus).log(), final(bus).log()),
        r is Ok ==> was_verified(
            old(bus).log(),
            final(bus).log(),
            *original,
            address,
            depth,
            show_console,
        ),
        r matches Err(e) ==> verify_failed(
            old(bus).log(),
            final(bus).log(),
            *original,
            address,
            depth,
            show_console,
            e,
        ),
{
    bus.write(STATE_ACCESS, 1);
    let expected: [(usize, u32); 19] = active(address, depth);
    if !agree(bus, &expected) {
        return Err("Tegra DC active scanout readback mismatch");
    }
    let ghost agreed = bus.log();
    assert(agreed =~= old(bus).log().push(Access::Write(STATE_ACCESS, 1)) + agreement(
        active_values(address, depth),
    ));
    let priority: u32 = bus.read(PRIORITY);
    if priority & PRIORITY_BITS != PRIORITY_LEVEL {
        assert(mmio::read_back(agreed, bus.log(), policy_registers(), false));
        return Err("Tegra DC active fetch policy mismatch");
    }
    let timer: u32 = bus.read(PRIORITY_TIMER);
    if timer & TIMER_BITS != TIMER_LEVEL {
        assert(mmio::read_back(agreed, bus.log(), policy_registers(), false));
        return Err("Tegra DC active fetch policy mismatch");
    }
    let latch: u32 = bus.read(ACT_CONTROL);
    if latch & ACTIVATION != 0 {
        assert(mmio::read_back(agreed, bus.log(), policy_registers(), false));
        return Err("Tegra DC active fetch policy mismatch");
    }
    assert(mmio::read_back(agreed, bus.log(), policy_registers(), true));
    bus.write(HEADER, WINDOW_B);
    let ghost selected = bus.log();
    let valid: bool = console_valid(bus, original, show_console);
    let ghost checked = bus.log();
    bus.write(HEADER, WINDOW_A);
    if !valid {
        assert(bus.log().drop_last() =~= checked);
        return Err("Tegra DC boot console state mismatch");
    }
    assert(bus.log() =~= old(bus).log() + verification(
        *original,
        address,
        depth,
        show_console,
        priority,
        timer,
        latch,
    ));
    Ok(())
}

/// Why a flip ends badly: it had failed before, the pixels have no format here, or the
/// active state is not the one that was asked for.
pub open spec fn flip_unverified(
    before: Seq<Access>,
    after: Seq<Access>,
    original: Original,
    address: u64,
    format: PixelFormat,
    show_console: bool,
    outcome: Result<(), &'static str>,
    e: &'static str,
) -> bool {
    &&& mmio::extends(before, after)
    &&& {
        match (outcome, depth_spec(format)) {
            (Err(cause), _) => e == cause && after == before,
            (Ok(_), None) => e == "Tegra DC requires a 32-bit RGB image" && after == before,
            (Ok(_), Some(depth)) => verify_failed(
                before,
                after,
                original,
                address,
                depth,
                show_console,
                e,
            ),
        }
    }
}

/// Ends a flip that was armed or failed before: reads the active state back, and
/// gives the borrowed state back whatever happened.
pub fn finish_flip<R: Timed>(
    bus: &mut Bus<'_, R>,
    saved: Saved,
    original: &Original,
    address: u64,
    format: PixelFormat,
    show_console: bool,
    outcome: Result<(), &'static str>,
) -> (r: Result<(), &'static str>)
    ensures
        final(bus).port() == old(bus).port(),
        mmio::memory_kept(old(bus).log(), final(bus).log()),
        outcome is Err ==> r == outcome && was_closed(
            old(bus).log(),
            final(bus).log(),
            saved,
            *original,
            false,
        ),
        r is Ok ==> depth_spec(format) is Some && exists|a: Seq<Access>| #[trigger]
            was_verified(
                old(bus).log(),
                a,
                *original,
                address,
                depth_spec(format)->0,
                show_console,
            ) && was_closed(a, final(bus).log(), saved, *original, true),
        r matches Err(e) ==> exists|a: Seq<Access>| #[trigger]
            was_closed(a, final(bus).log(), saved, *original, false) && flip_unverified(
                old(bus).log(),
                a,
                *original,
                address,
                format,
                show_console,
                outcome,
                e,
            ) && mmio::extends(old(bus).log(), a),
{
    let mut result = outcome;
    if result.is_ok() {
        result = match color_depth(format) {
            None => Err("Tegra DC requires a 32-bit RGB image"),
            Some(depth) => verify(bus, original, address, depth, show_console),
        };
    }
    let ghost a = bus.log();
    let success: bool = result.is_ok();
    close(bus, saved, original, success);
    assert(was_closed(a, bus.log(), saved, *original, success));
    result
}

/// What was armed was taken over, and the frame that took it ended.
pub open spec fn has_retired(before: Seq<Access>, after: Seq<Access>) -> bool {
    exists|a: Seq<Access>| #[trigger]
        came(before, a, STATE_CONTROL, Until::Clear(REQUEST)) && came(
            a,
            after,
            INT_STATUS,
            Until::Any(FRAME_END),
        )
}

/// A flip failed: what was programmed did not latch, was not taken over, or was not what
/// became active. Whatever it was, the borrowed state was given back behind it.
pub open spec fn flip_failed(
    before: Seq<Access>,
    after: Seq<Access>,
    original: Original,
    address: u64,
    depth: u32,
    show_console: bool,
    saved: Saved,
    e: &'static str,
) -> bool {
    &&& mmio::extends(before, after)
    &&& {
        ||| e == "Tegra DC V-counter activation did not latch" && exists|a: Seq<Access>|
            #[trigger] was_programmed(
                before,
                a,
                original,
                address,
                depth,
                show_console,
                saved,
                false,
            ) && was_closed(a, after, saved, original, false)
        ||| exists|a: Seq<Access>, c: Seq<Access>|
            {
                &&& #[trigger] was_programmed(
                    before,
                    a,
                    original,
                    address,
                    depth,
                    show_console,
                    saved,
                    true,
                )
                &&& #[trigger] retire_failed(armed(a, false, 0), c, e)
                &&& was_closed(c, after, saved, original, false)
            }
        ||| exists|a: Seq<Access>, c: Seq<Access>, d: Seq<Access>|
            {
                &&& #[trigger] was_programmed(
                    before,
                    a,
                    original,
                    address,
                    depth,
                    show_console,
                    saved,
                    true,
                )
                &&& #[trigger] has_retired(armed(a, false, 0), c)
                &&& #[trigger] verify_failed(c, d, original, address, depth, show_console, e)
                &&& was_closed(d, after, saved, original, false)
            }
    }
}

/// A whole flip was made: programmed, armed, retired and verified.
pub open spec fn was_flipped(
    before: Seq<Access>,
    after: Seq<Access>,
    original: Original,
    address: u64,
    depth: u32,
    show_console: bool,
) -> bool {
    &&& mmio::extends(before, after)
    &&& exists|a: Seq<Access>, c: Seq<Access>, d: Seq<Access>, saved: Saved|
        {
            &&& #[trigger] was_programmed(
                before,
                a,
                original,
                address,
                depth,
                show_console,
                saved,
                true,
            )
            &&& #[trigger] has_retired(armed(a, false, 0), c)
            &&& #[trigger] was_verified(c, d, original, address, depth, show_console)
            &&& was_closed(d, after, saved, original, true)
        }
}

/// Flips to a frame without an interrupt.
#[verifier::rlimit(100)]
pub fn flip<R: Timed>(
    bus: &mut Bus<'_, R>,
    state: &mut Flip,
    original: &Original,
    address: u64,
    format: PixelFormat,
    show_console: bool,
) -> (r: Result<(), &'static str>)
    ensures
        final(bus).port() == old(bus).port(),
        mmio::memory_kept(old(bus).log(), final(bus).log()),
        match (depth_spec(format), r) {
            (None, _) => r == Err::<(), &'static str>("Tegra DC requires a 32-bit RGB image")
                && exists|a: Seq<Access>, saved: Saved| #[trigger]
                was_halted(old(bus).log(), a, saved) && was_closed(
                    a,
                    final(bus).log(),
                    saved,
                    *original,
                    false,
                ),
            (Some(depth), Ok(_)) => was_flipped(
                old(bus).log(),
                final(bus).log(),
                *original,
                address,
                depth,
                show_console,
            ),
            (Some(depth), Err(e)) => exists|saved: Saved| #[trigger]
                flip_failed(
                    old(bus).log(),
                    final(bus).log(),
                    *original,
                    address,
                    depth,
                    show_console,
                    saved,
                    e,
                ),
        },
{
    let (saved, begun) = begin_flip(bus, original, address, format, show_console);
    let ghost a = bus.log();
    let mut outcome = begun;
    let ghost mut c = a;
    if outcome.is_ok() {
        state.arm(bus, false);
        assert(bus.log() == armed(a, false, 0));
        outcome = wait_retired(bus);
        proof {
            c = bus.log();
        }
    }
    let result = finish_flip(bus, saved, original, address, format, show_console, outcome);
    proof {
        let o = old(bus).log();
        if depth_spec(format) is None {
            assert(was_halted(o, a, saved));
        } else {
            let depth = depth_spec(format)->0;
            assert(was_programmed(
                o,
                a,
                *original,
                address,
                depth,
                show_console,
                saved,
                begun is Ok,
            ));
            if begun is Ok && outcome is Ok {
                assert(has_retired(armed(a, false, 0), c));
            }
            if result is Ok {
                let d = choose|d: Seq<Access>| #[trigger]
                    was_verified(c, d, *original, address, depth, show_console) && was_closed(
                        d,
                        bus.log(),
                        saved,
                        *original,
                        true,
                    );
                assert(was_verified(c, d, *original, address, depth, show_console));
                assert(was_flipped(o, bus.log(), *original, address, depth, show_console));
            } else {
                let e = result->Err_0;
                let d = choose|d: Seq<Access>| #[trigger]
                    was_closed(d, bus.log(), saved, *original, false) && flip_unverified(
                        c,
                        d,
                        *original,
                        address,
                        format,
                        show_console,
                        outcome,
                        e,
                    );
                assert(was_closed(d, bus.log(), saved, *original, false));
                if begun is Ok {
                    if outcome is Ok {
                        assert(verify_failed(c, d, *original, address, depth, show_console, e));
                    } else {
                        assert(retire_failed(armed(a, false, 0), c, e));
                    }
                }
                assert(flip_failed(
                    o,
                    bus.log(),
                    *original,
                    address,
                    depth,
                    show_console,
                    saved,
                    e,
                ));
            }
        }
    }
    result
}

/// What the way back writes of both windows.
pub open spec fn window_writes(original: Original) -> Seq<(usize, u32)> {
    window_values(original.window@, original.kind) + seq![(HEADER, WINDOW_B)] + window_values(
        original.console_window@,
        original.console_kind,
    ) + seq![(HEADER, WINDOW_A)]
}

/// The way back was programmed, up to the point where it can be armed. It will latch, or
/// not.
pub open spec fn was_reprogrammed(
    before: Seq<Access>,
    after: Seq<Access>,
    original: Original,
    saved: Saved,
    latches: bool,
) -> bool {
    exists|b: Seq<Access>, c: Seq<Access>|
        {
            &&& #[trigger] was_prioritised(
                opened(before, saved),
                b,
                original.priority & PRIORITY_BITS,
                original.timer & TIMER_BITS,
            )
            &&& mmio::only_wrote(b, c, window_writes(original))
            &&& #[trigger] was_prepared(c, after, latches)
        }
}

/// Programs the way back to what the firmware left.
pub fn begin_restore<R: Timed>(bus: &mut Bus<'_, R>, original: &Original) -> (r: (
    Saved,
    Result<(), &'static str>,
))
    ensures
        final(bus).port() == old(bus).port(),
        mmio::memory_kept(old(bus).log(), final(bus).log()),
        was_reprogrammed(old(bus).log(), final(bus).log(), *original, r.0, r.1 is Ok),
        r.1 == latching(r.1 is Ok),
{
    let saved = open(bus);
    set_priority(bus, original.priority & PRIORITY_BITS, original.timer & TIMER_BITS);
    let ghost b = bus.log();
    assert(was_prioritised(
        opened(old(bus).log(), saved),
        b,
        original.priority & PRIORITY_BITS,
        original.timer & TIMER_BITS,
    ));
    write_window(bus, &original.window, original.kind);
    bus.write(HEADER, WINDOW_B);
    write_window(bus, &original.console_window, original.console_kind);
    bus.write(HEADER, WINDOW_A);
    let ghost c = bus.log();
    assert(mmio::writes(c) =~= mmio::writes(b) + window_writes(*original));
    let result = prepare(bus);
    assert(was_prepared(c, bus.log(), result is Ok));
    (saved, result)
}

/// What reading the state back does on the way back, where all agrees.
pub open spec fn restoration(
    original: Original,
    priority: u32,
    timer: u32,
    latch: u32,
    back: u32,
) -> Seq<Access> {
    seq![Access::Write(STATE_ACCESS, 1)] + agreement(
        window_values(original.window@, original.kind),
    ) + seq![
        Access::Read(PRIORITY, priority),
        Access::Read(PRIORITY_TIMER, timer),
        Access::Write(HEADER, WINDOW_B),
    ] + agreement(window_values(original.console_window@, original.console_kind)) + seq![
        Access::Write(HEADER, WINDOW_A),
        Access::Read(ACT_CONTROL, latch),
        Access::Write(ACT_CONTROL, (latch & !ACTIVATION) | (original.activation & ACTIVATION)),
        Access::Read(ACT_CONTROL, back),
    ]
}

/// The active state was read back and is what the firmware left.
pub open spec fn was_restored(
    before: Seq<Access>,
    after: Seq<Access>,
    original: Original,
) -> bool {
    &&& mmio::extends(before, after)
    &&& {
        exists|priority: u32, timer: u32, latch: u32, back: u32|
            {
                &&& priority & PRIORITY_BITS == original.priority & PRIORITY_BITS
                &&& timer & TIMER_BITS == original.timer & TIMER_BITS
                &&& back & ACTIVATION == original.activation & ACTIVATION
                &&& after == before + #[trigger] restoration(original, priority, timer, latch, back)
            }
    }
}

/// The state is not the one that the firmware left: what was read last differs.
pub open spec fn rollback_failed(
    before: Seq<Access>,
    after: Seq<Access>,
    original: Original,
    e: &'static str,
) -> bool {
    &&& mmio::extends(before, after)
    &&& {
        let begun = before.push(Access::Write(STATE_ACCESS, 1));
        let window = window_values(original.window@, original.kind);
        let console = window_values(original.console_window@, original.console_kind);
        ||| e == "Tegra DC rollback active state mismatch" && contradicts(begun, after, window)
        ||| e == "Tegra DC rollback fetch priority mismatch" && mmio::read_back(
            begun + agreement(window),
            after,
            fetch_registers(original),
            false,
        )
        ||| e == "Tegra DC boot console rollback mismatch" && exists|seen: Seq<Access>|
            {
                &&& #[trigger] mmio::read_back(
                    begun + agreement(window),
                    seen,
                    fetch_registers(original),
                    true,
                )
                &&& contradicts(
                    seen.push(Access::Write(HEADER, WINDOW_B)),
                    after.drop_last(),
                    console,
                )
                &&& after.last() == Access::Write(HEADER, WINDOW_A)
            }
        ||| e == "Tegra DC rollback activation policy mismatch" && exists|
            priority: u32,
            timer: u32,
            latch: u32,
            back: u32,
        |
            {
                &&& priority & PRIORITY_BITS == original.priority & PRIORITY_BITS
                &&& timer & TIMER_BITS == original.timer & TIMER_BITS
                &&& back & ACTIVATION != original.activation & ACTIVATION
                &&& after == before + #[trigger] restoration(original, priority, timer, latch, back)
            }
    }
}

/// How the firmware gave fetches priority.
pub open spec fn fetch_registers(original: Original) -> Seq<(usize, Test)> {
    seq![
        (PRIORITY, Test::Is(PRIORITY_BITS, original.priority & PRIORITY_BITS)),
        (PRIORITY_TIMER, Test::Is(TIMER_BITS, original.timer & TIMER_BITS)),
    ]
}

#[verifier::rlimit(100)]
fn verify_restored<R: Timed>(bus: &mut Bus<'_, R>, original: &Original) -> (r: Result<
    (),
    &'static str,
>)
    ensures
        final(bus).port() == old(bus).port(),
        mmio::memory_kept(old(bus).log(), final(bus).log()),
        r is Ok ==> was_restored(old(bus).log(), final(bus).log(), *original),
        r matches Err(e) ==> rollback_failed(old(bus).log(), final(bus).log(), *original, e),
{
    bus.write(STATE_ACCESS, 1);
    if !window_agrees(bus, &original.window, original.kind) {
        return Err("Tegra DC rollback active state mismatch");
    }
    let ghost agreed = bus.log();
    assert(agreed =~= old(bus).log().push(Access::Write(STATE_ACCESS, 1)) + agreement(
        window_values(original.window@, original.kind),
    ));
    let priority: u32 = bus.read(PRIORITY);
    if priority & PRIORITY_BITS != original.priority & PRIORITY_BITS {
        assert(mmio::read_back(agreed, bus.log(), fetch_registers(*original), false));
        return Err("Tegra DC rollback fetch priority mismatch");
    }
    let timer: u32 = bus.read(PRIORITY_TIMER);
    if timer & TIMER_BITS != original.timer & TIMER_BITS {
        assert(mmio::read_back(agreed, bus.log(), fetch_registers(*original), false));
        return Err("Tegra DC rollback fetch priority mismatch");
    }
    assert(mmio::read_back(agreed, bus.log(), fetch_registers(*original), true));
    bus.write(HEADER, WINDOW_B);
    let ghost selected = bus.log();
    let valid: bool = window_agrees(bus, &original.console_window, original.console_kind);
    let ghost seen = bus.log();
    bus.write(HEADER, WINDOW_A);
    if !valid {
        assert(bus.log().drop_last() =~= seen);
        return Err("Tegra DC boot console rollback mismatch");
    }
    let latch: u32 = bus.read(ACT_CONTROL);
    bus.write(ACT_CONTROL, (latch & !ACTIVATION) | (original.activation & ACTIVATION));
    let back: u32 = bus.read(ACT_CONTROL);
    assert(bus.log() =~= old(bus).log() + restoration(*original, priority, timer, latch, back));
    if back & ACTIVATION != original.activation & ACTIVATION {
        return Err("Tegra DC rollback activation policy mismatch");
    }
    Ok(())
}

/// Ends the way back.
pub fn finish_restore<R: Timed>(
    bus: &mut Bus<'_, R>,
    saved: Saved,
    original: &Original,
    outcome: Result<(), &'static str>,
) -> (r: Result<(), &'static str>)
    ensures
        final(bus).port() == old(bus).port(),
        mmio::memory_kept(old(bus).log(), final(bus).log()),
        outcome is Err ==> r == outcome,
        r is Ok ==> exists|a: Seq<Access>| #[trigger]
            was_restored(old(bus).log(), a, *original) && was_closed(
                a,
                final(bus).log(),
                saved,
                *original,
                true,
            ),
        r matches Err(e) ==> exists|a: Seq<Access>| #[trigger]
            was_closed(a, final(bus).log(), saved, *original, false) && if outcome is Err {
                a == old(bus).log()
            } else {
                rollback_failed(old(bus).log(), a, *original, e)
            },
{
    let mut result = outcome;
    if result.is_ok() {
        result = verify_restored(bus, original);
    }
    let ghost a = bus.log();
    let success: bool = result.is_ok();
    close(bus, saved, original, success);
    assert(was_closed(a, bus.log(), saved, *original, success));
    result
}

/// The way back failed: what was programmed did not latch, was not taken over, or what
/// became active is not what the firmware left. Whatever it was, the borrowed state was
/// given back behind it.
pub open spec fn restore_failed(
    before: Seq<Access>,
    after: Seq<Access>,
    original: Original,
    saved: Saved,
    e: &'static str,
) -> bool {
    &&& mmio::extends(before, after)
    &&& {
        ||| e == "Tegra DC V-counter activation did not latch" && exists|a: Seq<Access>|
            #[trigger] was_reprogrammed(before, a, original, saved, false) && was_closed(
                a,
                after,
                saved,
                original,
                false,
            )
        ||| exists|a: Seq<Access>, c: Seq<Access>|
            {
                &&& #[trigger] was_reprogrammed(before, a, original, saved, true)
                &&& #[trigger] retire_failed(armed(a, false, 0), c, e)
                &&& was_closed(c, after, saved, original, false)
            }
        ||| exists|a: Seq<Access>, c: Seq<Access>, d: Seq<Access>|
            {
                &&& #[trigger] was_reprogrammed(before, a, original, saved, true)
                &&& #[trigger] has_retired(armed(a, false, 0), c)
                &&& #[trigger] rollback_failed(c, d, original, e)
                &&& was_closed(d, after, saved, original, false)
            }
    }
}

/// The whole way back was made: programmed, armed, retired and verified.
pub open spec fn went_back(before: Seq<Access>, after: Seq<Access>, original: Original) -> bool {
    &&& mmio::extends(before, after)
    &&& exists|a: Seq<Access>, c: Seq<Access>, d: Seq<Access>, saved: Saved|
        {
            &&& #[trigger] was_reprogrammed(before, a, original, saved, true)
            &&& #[trigger] has_retired(armed(a, false, 0), c)
            &&& #[trigger] was_restored(c, d, original)
            &&& was_closed(d, after, saved, original, true)
        }
}

/// Goes back to what the firmware left, without an interrupt.
pub fn restore<R: Timed>(bus: &mut Bus<'_, R>, state: &mut Flip, original: &Original) -> (r: Result<
    (),
    &'static str,
>)
    ensures
        final(bus).port() == old(bus).port(),
        mmio::memory_kept(old(bus).log(), final(bus).log()),
        match r {
            Ok(_) => went_back(old(bus).log(), final(bus).log(), *original),
            Err(e) => exists|saved: Saved| #[trigger]
                restore_failed(old(bus).log(), final(bus).log(), *original, saved, e),
        },
{
    let (saved, begun) = begin_restore(bus, original);
    let ghost a = bus.log();
    let mut outcome = begun;
    let ghost mut c = a;
    if outcome.is_ok() {
        state.arm(bus, false);
        assert(bus.log() == armed(a, false, 0));
        outcome = wait_retired(bus);
        proof {
            c = bus.log();
        }
    }
    let result = finish_restore(bus, saved, original, outcome);
    proof {
        let o = old(bus).log();
        assert(was_reprogrammed(o, a, *original, saved, begun is Ok));
        if begun is Ok && outcome is Ok {
            assert(has_retired(armed(a, false, 0), c));
        }
        if result is Ok {
            let d = choose|d: Seq<Access>| #[trigger]
                was_restored(c, d, *original) && was_closed(d, bus.log(), saved, *original, true);
            assert(was_restored(c, d, *original));
            assert(went_back(o, bus.log(), *original));
        } else {
            let e = result->Err_0;
            let d = choose|d: Seq<Access>| #[trigger]
                was_closed(d, bus.log(), saved, *original, false) && if outcome is Err {
                    d == c
                } else {
                    rollback_failed(c, d, *original, e)
                };
            assert(was_closed(d, bus.log(), saved, *original, false));
            if begun is Ok {
                if outcome is Ok {
                    assert(rollback_failed(c, d, *original, e));
                } else {
                    assert(retire_failed(armed(a, false, 0), c, e));
                }
            }
            assert(restore_failed(o, bus.log(), *original, saved, e));
        }
    }
    result
}

/// The frame event was cleared, and a reading behind that shows the end of a frame.
pub open spec fn frame_ended(before: Seq<Access>, after: Seq<Access>) -> bool {
    came(before.push(Access::Write(INT_STATUS, VBLANK)), after, INT_STATUS, Until::Any(VBLANK))
}

/// The frame event was cleared, and no frame ended in time.
pub open spec fn frame_missed(before: Seq<Access>, after: Seq<Access>, e: &'static str) -> bool {
    &&& mmio::extends(before, after)
    &&& {
        wait_failed(
            before.push(Access::Write(INT_STATUS, VBLANK)),
            after,
            INT_STATUS,
            Until::Any(VBLANK),
            POLLS,
            e,
        )
    }
}

/// Two frames ended one after the other, or the first or second did not; behind both, the
/// counters of failed fetches are what they were, or are not.
pub open spec fn was_observed(
    before: Seq<Access>,
    after: Seq<Access>,
    a: u32,
    b: u32,
    r: Result<(), &'static str>,
) -> bool {
    &&& mmio::extends(before, after)
    &&& {
        ||| r matches Err(e) && frame_missed(before, after, e)
        ||| r matches Err(e) && exists|first: Seq<Access>| #[trigger]
            frame_ended(before, first) && frame_missed(first, after, e)
        ||| exists|first: Seq<Access>, second: Seq<Access>, c: u32, d: u32|
            {
                &&& #[trigger] frame_ended(before, first)
                &&& #[trigger] frame_ended(first, second)
                &&& after == #[trigger] second.push(Access::Read(UNDERFLOW_A, c)).push(
                    Access::Read(UNDERFLOW_B, d),
                )
                &&& r == if c == a && d == b {
                    Ok::<(), &'static str>(())
                } else {
                    Err("DC column scanout underflows; keeping firmware framebuffer")
                }
            }
    }
}

/// The counters of failed fetches are read, and the end of a frame becomes an event that
/// raises no interrupt.
pub open spec fn watching(a: u32, b: u32, mask: u32, enable: u32) -> Seq<Access> {
    seq![
        Access::Read(UNDERFLOW_A, a),
        Access::Read(UNDERFLOW_B, b),
        Access::Read(INT_MASK, mask),
        Access::Write(INT_MASK, mask & !VBLANK),
        Access::Read(INT_ENABLE, enable),
        Access::Write(INT_ENABLE, enable | VBLANK),
    ]
}

/// What the two counters of failed fetches did over two frames. The events are as the
/// firmware left them behind that, whatever happened.
pub fn validate_initial_scanout<R: Timed>(bus: &mut Bus<'_, R>, original: &Original) -> (r: Result<
    (),
    &'static str,
>)
    ensures
        final(bus).port() == old(bus).port(),
        mmio::memory_kept(old(bus).log(), final(bus).log()),
        exists|a: u32, b: u32, mask: u32, enable: u32, seen: Seq<Access>| #[trigger]
            was_observed(old(bus).log() + watching(a, b, mask, enable), seen, a, b, r)
                && exists|e: u32, m: u32|
                final(bus).log() == #[trigger] events_back(seen, *original, e, m),
{
    let a: u32 = bus.read(UNDERFLOW_A);
    let b: u32 = bus.read(UNDERFLOW_B);
    let mask: u32 = bus.read(INT_MASK);
    bus.write(INT_MASK, mask & !VBLANK);
    let enable: u32 = bus.read(INT_ENABLE);
    bus.write(INT_ENABLE, enable | VBLANK);
    assert(bus.log() =~= old(bus).log() + watching(a, b, mask, enable));
    let result = observe(bus, a, b);
    let ghost seen = bus.log();
    assert(was_observed(old(bus).log() + watching(a, b, mask, enable), seen, a, b, result));
    restore_events(bus, original);
    result
}

fn observe<R: Timed>(bus: &mut Bus<'_, R>, a: u32, b: u32) -> (r: Result<(), &'static str>)
    ensures
        final(bus).port() == old(bus).port(),
        mmio::memory_kept(old(bus).log(), final(bus).log()),
        was_observed(old(bus).log(), final(bus).log(), a, b, r),
{
    bus.write(INT_STATUS, VBLANK);
    wait(bus, INT_STATUS, Until::Any(VBLANK), POLLS)?;
    let ghost first = bus.log();
    assert(frame_ended(old(bus).log(), first));
    bus.write(INT_STATUS, VBLANK);
    wait(bus, INT_STATUS, Until::Any(VBLANK), POLLS)?;
    let ghost second = bus.log();
    assert(frame_ended(first, second));
    let c: u32 = bus.read(UNDERFLOW_A);
    let d: u32 = bus.read(UNDERFLOW_B);
    assert(bus.log() == second.push(Access::Read(UNDERFLOW_A, c)).push(
        Access::Read(UNDERFLOW_B, d),
    ));
    if c.wrapping_sub(a) != 0 || d.wrapping_sub(b) != 0 {
        return Err("DC column scanout underflows; keeping firmware framebuffer");
    }
    Ok(())
}

/// Where the color channels of a pixel stand in its four bytes: red, green and blue.
pub open spec fn channels(format: PixelFormat) -> Option<(int, int, int)> {
    match format {
        PixelFormat::BGRA8888 => Some((2, 1, 0)),
        PixelFormat::XRGB8888 => Some((2, 1, 0)),
        PixelFormat::RGBA8888 => Some((0, 1, 2)),
        PixelFormat::XBGR8888 => Some((0, 1, 2)),
        PixelFormat::Other => None,
    }
}

/// The code of a format tells the order of its color channels: two formats have the same
/// code exactly where they have the same order. Blue first is 12, red first is 13.
pub proof fn codes_tell_the_order_of_channels(a: PixelFormat, b: PixelFormat)
    ensures
        depth_spec(a) is Some <==> channels(a) is Some,
        channels(a) is Some && channels(b) is Some ==> (depth_spec(a) == depth_spec(b) <==> channels(
            a,
        ) == channels(b)),
        channels(a) == Some((2int, 1int, 0int)) ==> depth_spec(a) == Some(12u32),
        channels(a) == Some((0int, 1int, 2int)) ==> depth_spec(a) == Some(13u32),
        depth_spec(PixelFormat::BGRA8888) == depth_spec(PixelFormat::XRGB8888),
        depth_spec(PixelFormat::RGBA8888) == depth_spec(PixelFormat::XBGR8888),
        depth_spec(PixelFormat::BGRA8888) != depth_spec(PixelFormat::RGBA8888),
{
}

/// A write went to a window: the header register selected it last.
pub open spec fn went_to(writes: Seq<(usize, u32)>, j: int, window: u32) -> bool {
    exists|h: int|
        0 <= h < j && #[trigger] writes[h] == (0x42usize, window) && forall|k: int|
            h < k < j ==> (#[trigger] writes[k]).0 != 0x42
}

/// A register of a window holds a value after some writes: it was written to that window,
/// and not again.
pub open spec fn holds(writes: Seq<(usize, u32)>, window: u32, register: usize, value: u32) -> bool {
    exists|q: int|
        {
            &&& 0 <= q < writes.len() && #[trigger] writes[q] == (register, value)
            &&& went_to(writes, q, window)
            &&& forall|j: int|
                q < j < writes.len() && (#[trigger] writes[j]).0 == register ==> !went_to(
                    writes,
                    j,
                    window,
                )
        }
}

/// The writes of a flip: window A is selected, and its registers are set up to the header
/// that selects window B, which stands at `b`.
spec fn selects(writes: Seq<(usize, u32)>, a: int, b: int, c: int) -> bool {
    &&& 0 <= a < b < c < writes.len()
    &&& writes[a] == (0x42usize, 0x10u32)
    &&& writes[b] == (0x42usize, 0x20u32)
    &&& writes[c] == (0x42usize, 0x10u32)
    &&& forall|k: int| a < k < c && k != b ==> (#[trigger] writes[k]).0 != 0x42
}

proof fn lemma_held_by_a(
    writes: Seq<(usize, u32)>,
    a: int,
    b: int,
    c: int,
    q: int,
    register: usize,
    value: u32,
)
    requires
        selects(writes, a, b, c),
        a < q < b,
        writes[q] == (register, value),
        forall|j: int| q < j < b ==> (#[trigger] writes[j]).0 != register,
        forall|j: int| c < j < writes.len() ==> (#[trigger] writes[j]).0 != register,
        register != 0x42,
    ensures
        holds(writes, 0x10, register, value),
{
    assert(went_to(writes, q, 0x10)) by {
        assert(writes[a] == (0x42usize, 0x10u32));
    }
    assert forall|j: int| q < j < writes.len() && (#[trigger] writes[j]).0 == register implies !went_to(
        writes,
        j,
        0x10,
    ) by {
        assert(b < j < c);
        if went_to(writes, j, 0x10) {
            let h = choose|h: int|
                0 <= h < j && #[trigger] writes[h] == (0x42usize, 0x10u32) && forall|k: int|
                    h < k < j ==> (#[trigger] writes[k]).0 != 0x42;
            assert(writes[b].0 == 0x42);
            assert(h >= b);
            assert(writes[h].0 != 0x42 || h == b);
        }
    }
    assert(writes[q] == (register, value));
}

proof fn lemma_held_by_b(
    writes: Seq<(usize, u32)>,
    a: int,
    b: int,
    c: int,
    q: int,
    register: usize,
    value: u32,
)
    requires
        selects(writes, a, b, c),
        b < q < c,
        writes[q] == (register, value),
        forall|j: int| q < j < writes.len() ==> (#[trigger] writes[j]).0 != register,
    ensures
        holds(writes, 0x20, register, value),
{
    assert(went_to(writes, q, 0x20)) by {
        assert(writes[b] == (0x42usize, 0x20u32));
    }
    assert(writes[q] == (register, value));
}

proof fn lemma_prepared_writes(before: Seq<Access>, p: Preparation)
    ensures
        mmio::writes(before + preparation(p)) == mmio::writes(before) + seq![
            (0x38usize, p.mask & !EVENTS),
            (0x39usize, p.enable | EVENTS),
            (0x82busize, 1u32),
            (0x42usize, 0x20u32),
            (0x82busize, 1u32),
            (0x42usize, p.header),
            (0x41usize, 0x700u32),
            (0x43usize, p.latch & !ACTIVATION),
        ],
{
    let l0 = before.push(Access::Read(INT_MASK, p.mask));
    let l1 = l0.push(Access::Write(INT_MASK, p.mask & !EVENTS));
    let l2 = l1.push(Access::Read(INT_ENABLE, p.enable));
    let l3 = l2.push(Access::Write(INT_ENABLE, p.enable | EVENTS));
    let l4 = l3.push(Access::Write(MEMFETCH, 1));
    let l5 = l4.push(Access::Read(HEADER, p.header));
    let l6 = l5.push(Access::Write(HEADER, WINDOW_B));
    let l7 = l6.push(Access::Write(MEMFETCH, 1));
    let l8 = l7.push(Access::Write(HEADER, p.header));
    let l9 = l8.push(Access::Write(STATE_CONTROL, 0x700));
    let l10 = l9.push(Access::Read(STATE_CONTROL, p.state));
    let l11 = l10.push(Access::Read(ACT_CONTROL, p.latch));
    let l12 = l11.push(Access::Write(ACT_CONTROL, p.latch & !ACTIVATION));
    let l13 = l12.push(Access::Read(ACT_CONTROL, p.back));
    mmio::lemma_pushed(before, Access::Read(INT_MASK, p.mask));
    mmio::lemma_pushed(l0, Access::Write(INT_MASK, p.mask & !EVENTS));
    mmio::lemma_pushed(l1, Access::Read(INT_ENABLE, p.enable));
    mmio::lemma_pushed(l2, Access::Write(INT_ENABLE, p.enable | EVENTS));
    mmio::lemma_pushed(l3, Access::Write(MEMFETCH, 1));
    mmio::lemma_pushed(l4, Access::Read(HEADER, p.header));
    mmio::lemma_pushed(l5, Access::Write(HEADER, WINDOW_B));
    mmio::lemma_pushed(l6, Access::Write(MEMFETCH, 1));
    mmio::lemma_pushed(l7, Access::Write(HEADER, p.header));
    mmio::lemma_pushed(l8, Access::Write(STATE_CONTROL, 0x700));
    mmio::lemma_pushed(l9, Access::Read(STATE_CONTROL, p.state));
    mmio::lemma_pushed(l10, Access::Read(ACT_CONTROL, p.latch));
    mmio::lemma_pushed(l11, Access::Write(ACT_CONTROL, p.latch & !ACTIVATION));
    mmio::lemma_pushed(l12, Access::Read(ACT_CONTROL, p.back));
    assert(before + preparation(p) =~= l13);
    assert(mmio::writes(l13) =~= mmio::writes(before) + seq![
        (0x38usize, p.mask & !EVENTS),
        (0x39usize, p.enable | EVENTS),
        (0x82busize, 1u32),
        (0x42usize, 0x20u32),
        (0x82busize, 1u32),
        (0x42usize, p.header),
        (0x41usize, 0x700u32),
        (0x43usize, p.latch & !ACTIVATION),
    ]);
}

/// The records that a programmed flip went through.
proof fn lemma_programmed(
    before: Seq<Access>,
    after: Seq<Access>,
    original: Original,
    address: u64,
    depth: u32,
    show_console: bool,
    saved: Saved,
    latches: bool,
) -> (n: int)
    requires
        was_programmed(before, after, original, address, depth, show_console, saved, latches),
    ensures
        ({
            let w = mmio::writes(after);
            let told = frame_writes(address, depth) + console_writes(original, show_console);
            let end = n + told.len();
            &&& 4 <= n
            &&& w.len() == end + 8
            &&& w[n - 3] == (0x42usize, 0x10u32)
            &&& w[n - 2].0 == 0x403
            &&& w[n - 1].0 == 0x404
            &&& forall|i: int| 0 <= i < told.len() ==> w[n + i] == #[trigger] told[i]
            &&& w[end].0 == 0x38 && w[end + 1].0 == 0x39 && w[end + 2].0 == 0x82b
            &&& w[end + 3].0 == 0x42 && w[end + 4].0 == 0x82b && w[end + 5].0 == 0x42
            &&& w[end + 6].0 == 0x41 && w[end + 7].0 == 0x43
        }),
{
    let (b, c) = choose|b: Seq<Access>, c: Seq<Access>|
        {
            &&& #[trigger] was_prioritised(opened(before, saved), b, PRIORITY_LEVEL, TIMER_LEVEL)
            &&& mmio::only_wrote(
                b,
                c,
                frame_writes(address, depth) + console_writes(original, show_console),
            )
            &&& #[trigger] was_prepared(c, after, latches)
        };
    let p = choose|p: Preparation|
        after == c + #[trigger] preparation(p) && latches == (p.back & ACTIVATION == 0);
    lemma_prepared_writes(c, p);
    let o = opened(before, saved);
    let (first, second) = choose|first: u32, second: u32|
        b == #[trigger] prioritised(o, first, second, PRIORITY_LEVEL, TIMER_LEVEL);
    let o1 = before.push(Access::Read(STATE_ACCESS, saved.access));
    let o2 = o1.push(Access::Read(HEADER, saved.header));
    let o3 = o2.push(Access::Write(STATE_ACCESS, 0));
    mmio::lemma_pushed(before, Access::Read(STATE_ACCESS, saved.access));
    mmio::lemma_pushed(o1, Access::Read(HEADER, saved.header));
    mmio::lemma_pushed(o2, Access::Write(STATE_ACCESS, 0));
    mmio::lemma_pushed(o3, Access::Write(HEADER, WINDOW_A));
    let b1 = o.push(Access::Read(PRIORITY, first));
    let b2 = b1.push(Access::Write(PRIORITY, (first & !PRIORITY_BITS) | PRIORITY_LEVEL));
    let b3 = b2.push(Access::Read(PRIORITY_TIMER, second));
    let b4 = Access::Write(PRIORITY_TIMER, (second & !TIMER_BITS) | TIMER_LEVEL);
    mmio::lemma_pushed(o, Access::Read(PRIORITY, first));
    mmio::lemma_pushed(b1, Access::Write(PRIORITY, (first & !PRIORITY_BITS) | PRIORITY_LEVEL));
    mmio::lemma_pushed(b2, Access::Read(PRIORITY_TIMER, second));
    mmio::lemma_pushed(b3, b4);
    assert(b == b3.push(b4));
    mmio::writes(b).len() as int
}

/// A flip shows its frame: behind it window A, and no other, is on with the frame's address,
/// the order of its color channels, and all 1280 by 720 pixels of four bytes, in columns
/// that are 5120 bytes apart. Window B is off, unless it shows the boot console.
#[verifier::rlimit(60)]
#[verifier::spinoff_prover]
pub proof fn flips_show_their_frame(
    before: Seq<Access>,
    after: Seq<Access>,
    original: Original,
    address: u64,
    format: PixelFormat,
    show_console: bool,
    saved: Saved,
    latches: bool,
)
    requires
        depth_spec(format) is Some,
        was_programmed(
            before,
            after,
            original,
            address,
            depth_spec(format)->0,
            show_console,
            saved,
            latches,
        ),
    ensures
        ({
            let w = mmio::writes(after);
            &&& exists|low: u32, high: u32|
                low + 0x1_0000_0000 * high == address && #[trigger] holds(w, 0x10, 0x800, low)
                    && #[trigger] holds(w, 0x10, 0x80d, high)
            &&& channels(format) == Some((2int, 1int, 0int)) ==> holds(w, 0x10, 0x703, 12)
            &&& channels(format) == Some((0int, 1int, 2int)) ==> holds(w, 0x10, 0x703, 13)
            &&& holds(w, 0x10, 0x705, (1280 * 65536 + 720) as u32)
            &&& holds(w, 0x10, 0x706, (1280 * 65536 + 4 * 720) as u32)
            &&& holds(w, 0x10, 0x709, (4096 * 65536 + 4096) as u32)
            &&& holds(w, 0x10, 0x70a, 5120)
            &&& holds(w, 0x10, 0x806, 5119)
            &&& holds(w, 0x10, 0x80b, 0x42)
            &&& holds(w, 0x10, 0x700, 0x4000_0011)
            &&& holds(w, 0x20, 0x700, if show_console {
                0x4000_0000
            } else {
                0
            })
        }),
{
    let depth = depth_spec(format)->0;
    let n = lemma_programmed(
        before,
        after,
        original,
        address,
        depth,
        show_console,
        saved,
        latches,
    );
    let w = mmio::writes(after);
    let f = frame_writes(address, depth);
    let g = console_writes(original, show_console);
    let told = f + g;
    let a = n - 3;
    let b = n + 22;
    let c = n + told.len() - 1;
    assert forall|i: int| 0 <= i < 23 implies w[n + i] == #[trigger] f[i] by {
        assert(told[i] == f[i]);
    }
    assert forall|i: int| 0 <= i < g.len() implies w[n + 23 + i] == #[trigger] g[i] by {
        assert(told[23 + i] == g[i]);
        assert(w[n + (23 + i)] == told[23 + i]);
    }
    assert(g.len() == if show_console {
        30int
    } else {
        2
    });
    assert(w[b] == f[22]);
    assert(w[c] == g[g.len() - 1]);
    assert forall|k: int| a < k < c && k != b implies (#[trigger] w[k]).0 != 0x42 by {
        if k < n {
        } else if k < b {
            assert(w[n + (k - n)] == f[k - n]);
        } else {
            assert(w[n + 23 + (k - n - 23)] == g[k - n - 23]);
        }
    }
    assert(selects(w, a, b, c));
    assert forall|j: int| c < j < w.len() implies ({
        let r = (#[trigger] w[j]).0;
        r == 0x38 || r == 0x39 || r == 0x82b || r == 0x42 || r == 0x41 || r == 0x43
    }) by {
        assert(j == c + 1 || j == c + 2 || j == c + 3 || j == c + 4 || j == c + 5 || j == c + 6 || j
            == c + 7 || j == c + 8);
    }
    assert forall|j: int| n <= j < b implies #[trigger] w[j] == f[j - n] by {
        assert(w[n + (j - n)] == f[j - n]);
    }
    lemma_held_by_a(w, a, b, c, n + 17, 0x800, low_spec(address));
    lemma_held_by_a(w, a, b, c, n + 18, 0x80d, high_spec(address));
    lemma_held_by_a(w, a, b, c, n + 4, 0x703, depth);
    lemma_held_by_a(w, a, b, c, n + 6, 0x705, (1280 * 65536 + 720) as u32);
    lemma_held_by_a(w, a, b, c, n + 7, 0x706, (1280 * 65536 + 4 * 720) as u32);
    lemma_held_by_a(w, a, b, c, n + 10, 0x709, (4096 * 65536 + 4096) as u32);
    lemma_held_by_a(w, a, b, c, n + 11, 0x70a, 5120);
    lemma_held_by_a(w, a, b, c, n + 19, 0x806, 5119);
    lemma_held_by_a(w, a, b, c, n + 16, 0x80b, 0x42);
    lemma_held_by_a(w, a, b, c, n + 21, 0x700, 0x4000_0011);
    if show_console {
        assert(g[28] == (0x700usize, 0x4000_0000u32));
        assert(w[n + 23 + 28] == g[28]);
        lemma_held_by_b(w, a, b, c, n + 51, 0x700, 0x4000_0000);
    } else {
        assert(w[n + 23 + 0] == g[0]);
        lemma_held_by_b(w, a, b, c, n + 23, 0x700, 0);
    }
}

/// An update is prepared with its events on and masked, with both windows fetching anew, and
/// with everything but the latch at a frame's end kept.
pub proof fn updates_are_prepared_for_a_frame(p: Preparation)
    ensures
        ({
            let l = preparation(p);
            &&& l.len() == 14
            &&& l[1] == Access::Write(0x38, p.mask & !0xc306u32)
            &&& l[3] == Access::Write(0x39, p.enable | 0xc306)
            &&& l[4] == Access::Write(0x82b, 1)
            &&& l[6] == Access::Write(0x42, 0x20)
            &&& l[7] == Access::Write(0x82b, 1)
            &&& l[8] == Access::Write(0x42, p.header)
            &&& l[9] == Access::Write(0x41, 0x700)
            &&& l[12] == Access::Write(0x43, p.latch & !0x14u32)
            &&& l[13] == Access::Read(0x43, p.back)
        }),
{
}

/// An update is armed behind the events of earlier frames, and is done when a frame has ended
/// and its request is gone.
pub proof fn updates_end_with_their_own_frame(
    before: Seq<Access>,
    interrupt: bool,
    mask: u32,
    flip: Flip,
    status: u32,
    control: u32,
)
    ensures
        ({
            let a = armed(before, interrupt, mask);
            let n = before.len() as int;
            &&& a.len() == n + if interrupt {
                4int
            } else {
                2
            }
            &&& a[n] == Access::Write(0x37, 2) && a[n + 1] == Access::Write(0x41, 7)
            &&& interrupt ==> a[n + 2] == Access::Read(0x38, mask) && a[n + 3] == Access::Write(
                0x38,
                mask | 2,
            )
        }),
        retired(flip, status, control) <==> flip.pending && status & 2 != 0 && control & 7 == 0,
{
}

/// The boot console is shown with what its window had, above the frame and enabled, or it is
/// switched off; the other window is chosen again in the end.
pub proof fn the_console_is_shown_or_off(original: Original, show: bool, i: int)
    requires
        original.window@.len() == 24,
        0 <= i < 24,
    ensures
        ({
            let w = console_writes(original, show);
            let n = w.len() as int;
            &&& w[n - 1] == (0x42usize, 0x10u32)
            &&& !show ==> n == 2 && w[0] == (0x700usize, 0u32)
            &&& show ==> n == 30 && w[i] == (registers_spec()[i], original.window@[i]) && w[24] == (
                0x80busize,
                original.kind,
            ) && w[27] == (0x716usize, 0x0100_0000u32) && w[28] == (0x700usize, 0x4000_0000u32)
        }),
{
    let w = console_writes(original, show);
    if show {
        assert(window_values(original.window@, original.kind).len() == 25);
    }
}

/// A window is kept by these registers: its options, its format and places, sizes, strides
/// and start, and what blends it.
pub proof fn windows_are_kept_by_their_registers(i: int)
    requires
        0 <= i < 24,
    ensures
        registers_spec().len() == 24,
        1 <= i < 10 ==> registers_spec()[i] == 0x701 + i,
        registers_spec()[0] == 0x700,
        registers_spec()[10] == 0x800 && registers_spec()[11] == 0x80d,
        registers_spec()[12] == 0x806 && registers_spec()[13] == 0x808,
        registers_spec()[14] == 0x701 && registers_spec()[15] == 0x70d,
        16 <= i < 20 ==> registers_spec()[i] == 0x706 + i,
        registers_spec()[20] == 0x70b && registers_spec()[21] == 0x70c,
        registers_spec()[22] == 0x82f && registers_spec()[23] == 0x837,
{
}

} // verus!
