//! The ring of eight periods between the program and the memory engine.
use vstd::prelude::*;

verus! {

pub const SLOTS: usize = 8;

pub const MAX_PERIOD: usize = 8192;

/// No period passed for this long: the engine stands still.
pub const STALL_NS: u64 = 200_000_000;

/// The shape of a stream. The format is only told apart from all others.
#[derive(Clone, Copy, Debug, PartialEq, Eq, Structural)]
pub struct StreamParams {
    pub s16le: bool,
    pub rate: u32,
    pub channels: u32,
    pub period_frames: u32,
    pub buffer_bytes: Option<usize>,
}

pub open spec fn stream_ok(params: StreamParams, buffer: usize) -> bool {
    &&& params.s16le
    &&& params.rate == 48_000
    &&& params.channels == 2
    &&& 240 <= params.period_frames <= 2048
    &&& params.buffer_bytes == Some(buffer)
}

/// The bytes of a period, of a stream that can be played.
pub fn check_stream(params: &StreamParams, buffer: usize) -> (r: Result<usize, &'static str>)
    ensures
        match r {
            Ok(bytes) => stream_ok(*params, buffer) && bytes == 4 * params.period_frames && bytes
                <= MAX_PERIOD,
            Err(e) => !stream_ok(*params, buffer) && e
                == "audio supports 48000 Hz S16_LE stereo only",
        },
{
    let same: bool = match params.buffer_bytes {
        Some(bytes) => bytes == buffer,
        None => false,
    };
    if !params.s16le || params.rate != 48_000 || params.channels != 2 || params.period_frames < 240
        || params.period_frames > 2048 || !same {
        return Err("audio supports 48000 Hz S16_LE stereo only");
    }
    Ok(4 * params.period_frames as usize)
}

/// What a look at the engine's counter found.
#[derive(Clone, Copy, Debug, PartialEq, Eq, Structural)]
pub enum Progress {
    /// The stream does not run.
    Idle,
    /// The engine stands still or ran past the ring: it has to be stopped.
    Stalled,
    /// Periods were played: these many from this slot on are silenced.
    Played(usize, usize),
}

/// The ring. `valid` are the slots that hold a submitted period.
pub struct Ring {
    pub source: Option<usize>,
    pub period_bytes: usize,
    pub active: bool,
    pub completed: usize,
    pub read_seq: u64,
    pub write_seq: u64,
    pub counter: u16,
    pub valid: [bool; 8],
    pub last_progress: u64,
    pub failed: bool,
}

/// Slots that hold a submitted period.
pub open spec fn count_valid(valid: Seq<bool>) -> nat
    decreases valid.len(),
{
    if valid.len() == 0 {
        0
    } else {
        count_valid(valid.drop_last()) + if valid.last() {
            1nat
        } else {
            0
        }
    }
}

/// The distance of two counters that wrap.
pub open spec fn passed(counter: u16, before: u16) -> int {
    if counter >= before {
        counter - before
    } else {
        counter - before + 0x1_0000
    }
}

/// The slot of a period.
pub open spec fn slot_of(sequence: u64) -> int {
    sequence as int % 8
}

/// The slots after some periods were played: none of them holds one.
pub open spec fn played(valid: Seq<bool>, first: u64, count: int) -> Seq<bool> {
    Seq::new(
        8,
        |s: int|
            if (s - slot_of(first)) % 8 < count {
                false
            } else {
                valid[s]
            },
    )
}

impl Ring {
    /// At most eight submitted periods are unheard, no more were handed back than were
    /// submitted, and the periods are inside the memory.
    pub open spec fn wf(self) -> bool {
        &&& self.period_bytes <= MAX_PERIOD
        &&& self.read_seq <= 0xffff_ffff_ffff_0000
        &&& self.write_seq <= self.read_seq + 8
        &&& self.completed <= usize::MAX - 16
    }

    pub fn new() -> (r: Ring)
        ensures
            r.wf(),
            !r.active,
            !r.failed,
            r.source is None,
            r.completed == 0,
            count_valid(r.valid@) == 0,
    {
        let valid: [bool; 8] = [false; 8];
        proof {
            lemma_none(valid@);
        }
        Ring {
            source: None,
            period_bytes: 0,
            active: false,
            completed: 0,
            read_seq: 0,
            write_seq: 0,
            counter: 0,
            valid,
            last_progress: 0,
            failed: false,
        }
    }

    pub open spec fn delta(self, counter: u16) -> int {
        passed(counter, self.counter)
    }

    /// The engine stands still or ran past the ring.
    pub open spec fn stalled(self, counter: u16, now: u64) -> bool {
        self.delta(counter) >= 8 || (self.delta(counter) == 0 && now - self.last_progress
            > STALL_NS)
    }

    /// What a look at the engine's counter makes of the ring.
    pub open spec fn refreshed(self, after: Ring, counter: u16, now: u64, r: Progress) -> bool {
        &&& after.source == self.source
        &&& after.period_bytes == self.period_bytes
        &&& after.write_seq == self.write_seq
        &&& if !self.active {
            r == Progress::Idle && after == self
        } else if self.stalled(counter, now) {
            &&& r == Progress::Stalled
            &&& !after.active
            &&& after.failed
            &&& count_valid(after.valid@) == 0
            &&& after.completed == self.completed + count_valid(self.valid@)
            &&& after.read_seq == self.read_seq
            &&& after.counter == self.counter
        } else {
            let n = self.delta(counter);
            &&& r == Progress::Played(slot_of(self.read_seq) as usize, n as usize)
            &&& after.active
            &&& after.failed == self.failed
            &&& after.counter == counter
            &&& after.read_seq == self.read_seq + n
            &&& after.valid@ == played(self.valid@, self.read_seq, n)
            &&& after.completed - self.completed == count_valid(self.valid@) - count_valid(
                after.valid@,
            )
            &&& after.last_progress == if n == 0 {
                self.last_progress
            } else {
                now
            }
        }
    }

    /// Takes notice of the engine's counter. Played periods are handed back, and their
    /// slots will be silenced. After a failure all submitted ones are handed back, and
    /// nothing more is taken.
    pub fn refresh(&mut self, counter: u16, now: u64) -> (r: Progress)
        requires
            old(self).wf(),
            old(self).completed <= usize::MAX - 32,
            old(self).read_seq < 0xffff_ffff_fffe_0000,
        ensures
            final(self).wf(),
            old(self).refreshed(*final(self), counter, now, r),
    {
        if !self.active {
            return Progress::Idle;
        }
        let delta: usize = counter.wrapping_sub(self.counter) as usize;
        assert(delta == self.delta(counter));
        let since: u64 = now.saturating_sub(self.last_progress);
        if delta >= SLOTS || (delta == 0 && since > STALL_NS) {
            self.active = false;
            self.failed = true;
            let held: usize = count(&self.valid);
            self.completed = self.completed + held;
            self.valid = [false; 8];
            proof {
                lemma_none(self.valid@);
            }
            return Progress::Stalled;
        }
        let first: usize = (self.read_seq % 8) as usize;
        let ghost start = self.valid@;
        let mut i: usize = 0;
        assert(played(start, old(self).read_seq, 0) =~= start);
        while i < delta
            invariant
                i <= delta,
                delta < 8,
                delta == old(self).delta(counter),
                first == slot_of(old(self).read_seq),
                start == old(self).valid@,
                self.active,
                self.wf(),
                old(self).wf(),
                old(self).completed <= usize::MAX - 32,
                old(self).read_seq < 0xffff_ffff_fffe_0000,
                self.failed == old(self).failed,
                self.source == old(self).source,
                self.period_bytes == old(self).period_bytes,
                self.write_seq == old(self).write_seq,
                self.counter == old(self).counter,
                self.last_progress == old(self).last_progress,
                self.read_seq == old(self).read_seq + i,
                self.valid@ =~= played(start, old(self).read_seq, i as int),
                self.completed - old(self).completed == count_valid(start) - count_valid(
                    self.valid@,
                ),
                self.completed <= old(self).completed + i,
            decreases delta - i,
        {
            let slot: usize = (self.read_seq % 8) as usize;
            assert((slot - first) % 8 == i);
            if self.valid[slot] {
                proof {
                    lemma_clear(self.valid@, slot as int);
                }
                self.completed = self.completed + 1;
                self.valid[slot] = false;
            }
            self.read_seq = self.read_seq + 1;
            proof {
                let next = played(start, old(self).read_seq, i + 1);
                assert forall|s: int| 0 <= s < 8 implies #[trigger] self.valid@[s] == next[s] by {
                    if s != slot {
                        assert((s - first) % 8 != i);
                    }
                }
            }
            i = i + 1;
        }
        self.counter = counter;
        if delta != 0 {
            self.last_progress = now;
        }
        Progress::Played(first, delta)
    }

    /// The period that is written next: never one that the engine may be reading.
    pub open spec fn next_write(self) -> int {
        if self.active && self.write_seq < self.read_seq + 1 {
            self.read_seq + 1
        } else {
            self.write_seq as int
        }
    }

    /// What is wrong with a period.
    pub open spec fn submit_error(self, offset: usize, length: usize) -> Option<&'static str> {
        if self.failed {
            Some("audio DMA failed; reopen stream")
        } else if self.source is None {
            Some("audio stream not configured")
        } else if length != self.period_bytes || offset + length > self.source->0 {
            Some("audio period outside source ring")
        } else if self.next_write() >= self.read_seq + 8 {
            Some("audio DMA queue full")
        } else if self.valid@[self.next_write() % 8] {
            Some("audio DMA slot still owned")
        } else {
            None
        }
    }

    /// Takes a period, and tells the slot that it is copied to. A slot that holds one
    /// is never given.
    pub fn submit(&mut self, offset: usize, length: usize) -> (r: Result<usize, &'static str>)
        requires
            old(self).wf(),
        ensures
            final(self).wf(),
            final(self).read_seq == old(self).read_seq,
            final(self).completed == old(self).completed,
            final(self).active == old(self).active,
            final(self).failed == old(self).failed,
            final(self).source == old(self).source,
            final(self).period_bytes == old(self).period_bytes,
            match r {
                Ok(slot) => old(self).submit_error(offset, length) is None && slot == old(self).next_write() % 8 && !old(self).valid@[slot as int] && final(self).valid@ == old(self).valid@.update(slot as int, true) && final(self).write_seq == old(self).next_write() + 1,
                Err(e) => old(self).submit_error(offset, length) == Some(e) && final(self).valid@
                    == old(self).valid@,
            },
    {
        if self.failed {
            return Err("audio DMA failed; reopen stream");
        }
        let source: usize = match self.source {
            None => {
                return Err("audio stream not configured");
            },
            Some(bytes) => bytes,
        };
        if length != self.period_bytes || offset > source || length > source - offset {
            return Err("audio period outside source ring");
        }
        if self.active && self.write_seq < self.read_seq + 1 {
            self.write_seq = self.read_seq + 1;
        }
        if self.write_seq >= self.read_seq + 8 {
            return Err("audio DMA queue full");
        }
        let slot: usize = (self.write_seq % 8) as usize;
        if self.valid[slot] {
            return Err("audio DMA slot still owned");
        }
        self.valid[slot] = true;
        self.write_seq = self.write_seq + 1;
        Ok(slot)
    }

    /// Hands the finished periods back, once.
    pub fn process_completions(&mut self) -> (r: usize)
        requires
            old(self).wf(),
        ensures
            final(self).wf(),
            r == old(self).completed,
            *final(self) == (Ring { completed: 0, ..*old(self) }),
    {
        let done: usize = self.completed;
        self.completed = 0;
        done
    }

    /// The ring is empty, whether the engine stopped or not.
    pub fn stopped(&mut self, halted: bool)
        ensures
            final(self).read_seq == 0,
            final(self).write_seq == 0,
            final(self).counter == 0,
            final(self).completed == 0,
            !final(self).active,
            final(self).failed == !halted,
            count_valid(final(self).valid@) == 0,
            final(self).source == old(self).source,
            final(self).period_bytes == old(self).period_bytes,
    {
        self.active = false;
        self.failed = !halted;
        self.completed = 0;
        self.valid = [false; 8];
        self.counter = 0;
        self.read_seq = 0;
        self.write_seq = 0;
        proof {
            lemma_none(self.valid@);
        }
    }

    /// A stream was set up: the ring is empty and has its shape.
    pub fn configured(&mut self, source: usize, period_bytes: usize)
        requires
            period_bytes <= MAX_PERIOD,
        ensures
            final(self).wf(),
            final(self).source == Some(source),
            final(self).period_bytes == period_bytes,
            final(self).completed == 0,
            final(self).read_seq == 0,
            final(self).write_seq == 0,
            final(self).counter == 0,
            !final(self).failed,
            final(self).active == old(self).active,
            count_valid(final(self).valid@) == 0,
    {
        self.source = Some(source);
        self.period_bytes = period_bytes;
        self.valid = [false; 8];
        self.completed = 0;
        self.read_seq = 0;
        self.write_seq = 0;
        self.counter = 0;
        self.failed = false;
        proof {
            lemma_none(self.valid@);
        }
    }

    /// Whether a start has anything to do.
    pub fn may_start(&self) -> (r: Result<bool, &'static str>)
        ensures
            r == if self.source is None || self.failed {
                Err::<bool, &'static str>("audio is not configured")
            } else {
                Ok(!self.active)
            },
    {
        if self.source.is_none() || self.failed {
            return Err("audio is not configured");
        }
        Ok(!self.active)
    }

    /// The engine was started.
    pub fn started(&mut self, now: u64)
        ensures
            *final(self) == (Ring { active: true, last_progress: now, ..*old(self) }),
    {
        self.last_progress = now;
        self.active = true;
    }
}

fn count(valid: &[bool; 8]) -> (r: usize)
    ensures
        r == count_valid(valid@),
        r <= 8,
{
    let mut n: usize = 0;
    let mut i: usize = 0;
    while i < 8
        invariant
            i <= 8,
            n <= i,
            n == count_valid(valid@.take(i as int)),
        decreases 8 - i,
    {
        assert(valid@.take(i + 1).drop_last() =~= valid@.take(i as int));
        if valid[i] {
            n = n + 1;
        }
        i = i + 1;
    }
    assert(valid@.take(8) =~= valid@);
    n
}

proof fn lemma_none(valid: Seq<bool>)
    requires
        forall|i: int| 0 <= i < valid.len() ==> !#[trigger] valid[i],
    ensures
        count_valid(valid) == 0,
    decreases valid.len(),
{
    if valid.len() > 0 {
        lemma_none(valid.drop_last());
    }
}

proof fn lemma_clear(valid: Seq<bool>, slot: int)
    requires
        0 <= slot < valid.len(),
        valid[slot],
    ensures
        count_valid(valid.update(slot, false)) + 1 == count_valid(valid),
    decreases valid.len(),
{
    let after = valid.update(slot, false);
    if slot == valid.len() - 1 {
        assert(after.drop_last() =~= valid.drop_last());
    } else {
        lemma_clear(valid.drop_last(), slot);
        assert(after.drop_last() =~= valid.drop_last().update(slot, false));
    }
}

proof fn lemma_fill(valid: Seq<bool>, slot: int)
    requires
        0 <= slot < valid.len(),
        !valid[slot],
    ensures
        count_valid(valid.update(slot, true)) == count_valid(valid) + 1,
{
    assert(valid.update(slot, true).update(slot, false) =~= valid);
    lemma_clear(valid.update(slot, true), slot);
}

/// Every period that was submitted is handed back exactly once: what was handed back
/// and what is held grows by one with each that is taken.
pub proof fn periods_are_conserved(ring: Ring, offset: usize, length: usize, after: Seq<bool>)
    requires
        ring.wf(),
        ring.submit_error(offset, length) is None,
        after == ring.valid@.update(ring.next_write() % 8, true),
    ensures
        ring.completed + count_valid(after) == ring.completed + count_valid(ring.valid@) + 1,
{
    lemma_fill(ring.valid@, ring.next_write() % 8);
}

/// A period is never written to the slot that a running engine is at.
pub proof fn the_running_slot_is_kept(ring: Ring, offset: usize, length: usize)
    requires
        ring.wf(),
        ring.active,
        ring.submit_error(offset, length) is None,
    ensures
        ring.next_write() % 8 != slot_of(ring.read_seq),
{
}

/// A stream has 48000 frames of two 16-bit samples a second, in periods of 240 to 2048 frames
/// in a ring of the size that was given.
pub proof fn streams_have_one_form(params: StreamParams, buffer: usize)
    ensures
        stream_ok(params, buffer) <==> params.s16le && params.rate == 48_000 && params.channels == 2
            && 240 <= params.period_frames && params.period_frames <= 2048 && params.buffer_bytes
            == Some(buffer),
{
}

/// A counter of 16 bits counts round.
pub proof fn counters_come_round(before: u16, count: int)
    requires
        0 <= count < 0x1_0000,
    ensures
        passed(((before + count) % 0x1_0000) as u16, before) == count,
{
}

/// A ring stalls if it got eight slots ahead at once, or nowhere for more than 200
/// milliseconds.
pub proof fn rings_stall_after_a_while(ring: Ring, counter: u16, now: u64)
    ensures
        ring.stalled(counter, now) <==> passed(counter, ring.counter) >= 8 || (counter
            == ring.counter && now - ring.last_progress > 200_000_000),
{
}

/// The slots that were played are free again, one after the other from the first on, and the
/// others are kept.
pub proof fn played_slots_are_free(valid: Seq<bool>, first: u64, count: int, i: int)
    requires
        valid.len() == 8,
        0 <= count <= 8,
        0 <= i < 8,
    ensures
        ({
            let slot = (first + i) % 8;
            &&& i < count ==> !played(valid, first, count)[slot]
            &&& i >= count ==> played(valid, first, count)[slot] == valid[slot]
        }),
{
    let slot = (first + i) % 8;
    assert((slot - first as int % 8) % 8 == i);
}

/// A period goes in if the stream is there, it is one period of the source, and a slot ahead
/// of what is played is free; while the ring runs it never goes into the slot that is played.
pub proof fn periods_go_ahead_of_what_is_played(ring: Ring, offset: usize, length: usize)
    requires
        ring.submit_error(offset, length) is None,
    ensures
        !ring.failed,
        ring.source matches Some(size) && offset + length <= size,
        length == ring.period_bytes,
        ring.write_seq <= ring.next_write() < ring.read_seq + 8,
        ring.active ==> ring.next_write() > ring.read_seq,
        !ring.valid@[ring.next_write() % 8],
{
}

} // verus!
