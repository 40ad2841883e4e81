//! Access to registers, with a record of every access that verified code made.
use vstd::prelude::*;

verus! {

/// Registers and clock of the host. Waiting, and memory that is shared with the device,
/// are for hosts that say so by `Timed` and `Dma`; nothing asks them of another.
pub trait Registers {
    fn read(&self, offset: usize) -> u32;

    fn write(&self, offset: usize, value: u32);

    fn now_ns(&self) -> u64;

    /// Lets some time pass.
    fn delay_us(&self, us: u64) {
    }

    /// Reads a word of a shared area. Areas have numbers.
    fn load(&self, area: usize, word: usize) -> u32 {
        0
    }

    /// Writes a word of a shared area.
    fn store(&self, area: usize, word: usize, value: u32) {
    }

    /// Writes the processor's copy of an area out.
    fn clean(&self, area: usize) {
    }

    /// Drops the processor's copy of an area.
    fn refresh(&self, area: usize) {
    }

    /// Gives the processor away until the device calls, at most for some time.
    fn rest_ns(&self, ns: u64) {
    }
}

/// A host that can wait: `delay_us` is its own.
pub trait Timed: Registers {
}

/// A host that shares memory with the device: all the methods are its own.
pub trait Dma: Timed {
}

/// One access: what was read or written, what the clock said, how long was waited,
/// or what was done to shared memory.
#[derive(Clone, Copy, Debug)]
pub enum Access {
    Read(usize, u32),
    Write(usize, u32),
    Time(u64),
    Delay(u64),
    Load(usize, usize, u32),
    Store(usize, usize, u32),
    Clean(usize),
    Refresh(usize),
    Rest(u64),
}

/// The stores to shared memory among some accesses, in order.
pub open spec fn stores(log: Seq<Access>) -> Seq<(usize, usize, u32)>
    decreases log.len(),
{
    if log.len() == 0 {
        seq![]
    } else {
        match log.last() {
            Access::Store(area, word, value) => stores(log.drop_last()).push((area, word, value)),
            _ => stores(log.drop_last()),
        }
    }
}

/// What was loaded from one word, in order.
pub open spec fn loads(log: Seq<Access>, area: usize, word: usize) -> Seq<u32>
    decreases log.len(),
{
    if log.len() == 0 {
        seq![]
    } else {
        match log.last() {
            Access::Load(a, w, value) => if a == area && w == word {
                loads(log.drop_last(), area, word).push(value)
            } else {
                loads(log.drop_last(), area, word)
            },
            _ => loads(log.drop_last(), area, word),
        }
    }
}

/// Accesses were added that leave shared memory alone.
pub open spec fn memory_kept(before: Seq<Access>, after: Seq<Access>) -> bool {
    &&& extends(before, after)
    &&& stores(after) == stores(before)
    &&& forall|a: usize, w: usize|
        #![trigger loads(after, a, w)]
        loads(after, a, w) == loads(before, a, w)
}

/// Only reads, waits and the like were added.
pub open spec fn quiet(before: Seq<Access>, after: Seq<Access>) -> bool {
    memory_kept(before, after) && writes(after) == writes(before)
}

/// Only some registers were written, and nothing else was changed.
pub open spec fn only_wrote(
    before: Seq<Access>,
    after: Seq<Access>,
    list: Seq<(usize, u32)>,
) -> bool {
    memory_kept(before, after) && writes(after) == writes(before) + list
}

/// What was read from one register at last.
pub open spec fn last(log: Seq<Access>, offset: usize) -> u32 {
    reads(log, offset).last()
}

/// What one of the added readings of a register gave.
pub open spec fn fresh(before: Seq<Access>, after: Seq<Access>, offset: usize, k: int) -> u32 {
    reads(after, offset)[reads(before, offset).len() + k]
}

/// Accesses are only added.
pub open spec fn extends(before: Seq<Access>, after: Seq<Access>) -> bool {
    &&& before.len() <= after.len()
    &&& forall|i: int| 0 <= i < before.len() ==> #[trigger] after[i] == before[i]
}

/// When a time is up that began at some moment.
pub open spec fn until(start: u64, limit_ns: u64) -> u64 {
    if start + limit_ns > u64::MAX {
        u64::MAX
    } else {
        (start + limit_ns) as u64
    }
}

/// A wait ran out: its time was up when the clock was last looked at, or all its
/// accesses were used up.
pub open spec fn ran_out(
    before: Seq<Access>,
    after: Seq<Access>,
    limit_ns: u64,
    most: int,
) -> bool {
    &&& extends(before, after)
    &&& before.len() < after.len()
    &&& after[before.len() as int] matches Access::Time(start) && ((after.last() matches Access::Time(
        now,
    ) && now >= until(start, limit_ns)) || after.len() - before.len() >= most)
}

/// A register was read since.
pub open spec fn tried(before: Seq<Access>, after: Seq<Access>, offset: usize) -> bool {
    extends(before, after) && reads(after, offset).len() > reads(before, offset).len()
}

/// A register was read once, and was not there.
pub open spec fn was_unreadable(before: Seq<Access>, after: Seq<Access>, offset: usize) -> bool {
    after == before.push(Access::Read(offset, u32::MAX))
}

/// The writes among some accesses, in order.
pub open spec fn writes(log: Seq<Access>) -> Seq<(usize, u32)>
    decreases log.len(),
{
    if log.len() == 0 {
        seq![]
    } else {
        match log.last() {
            Access::Write(offset, value) => writes(log.drop_last()).push((offset, value)),
            _ => writes(log.drop_last()),
        }
    }
}

/// One more access is one more write, or none.
pub proof fn lemma_pushed(log: Seq<Access>, access: Access)
    ensures
        writes(log.push(access)) == match access {
            Access::Write(offset, value) => writes(log).push((offset, value)),
            _ => writes(log),
        },
{
    assert(log.push(access).drop_last() =~= log);
}

/// The writes begin with some others.
pub open spec fn begins(whole: Seq<(usize, u32)>, start: Seq<(usize, u32)>) -> bool {
    &&& start.len() <= whole.len()
    &&& forall|i: int| 0 <= i < start.len() ==> #[trigger] whole[i] == start[i]
}

/// What was read from one register, in order.
pub open spec fn reads(log: Seq<Access>, offset: usize) -> Seq<u32>
    decreases log.len(),
{
    if log.len() == 0 {
        seq![]
    } else {
        match log.last() {
            Access::Read(from, value) => if from == offset {
                reads(log.drop_last(), offset).push(value)
            } else {
                reads(log.drop_last(), offset)
            },
            _ => reads(log.drop_last(), offset),
        }
    }
}

/// An access, whatever a reading gives.
pub enum Step {
    Read(usize),
    Write(usize, u32),
    Delay(u64),
}

/// An access is of the kind that a step asks for.
pub open spec fn takes(step: Step, access: Access) -> bool {
    match step {
        Step::Read(offset) => access matches Access::Read(o, _) && o == offset,
        Step::Write(offset, value) => access == Access::Write(offset, value),
        Step::Delay(us) => access == Access::Delay(us),
    }
}

/// These steps were taken, in order, and nothing else was done.
pub open spec fn did(before: Seq<Access>, after: Seq<Access>, steps: Seq<Step>) -> bool {
    &&& extends(before, after)
    &&& after.len() == before.len() + steps.len()
    &&& forall|i: int|
        0 <= i < steps.len() ==> takes(#[trigger] steps[i], after[before.len() + i])
}

/// Steps that follow others were taken together with them.
pub proof fn lemma_did(
    before: Seq<Access>,
    middle: Seq<Access>,
    after: Seq<Access>,
    first: Seq<Step>,
    second: Seq<Step>,
)
    requires
        did(before, middle, first),
        did(middle, after, second),
    ensures
        did(before, after, first + second),
{
    let all = first + second;
    assert forall|i: int| 0 <= i < all.len() implies takes(
        #[trigger] all[i],
        after[before.len() + i],
    ) by {
        if i < first.len() {
            assert(takes(first[i], middle[before.len() + i]));
            assert(after[before.len() + i] == middle[before.len() + i]);
        } else {
            assert(takes(second[i - first.len()], after[middle.len() + (i - first.len())]));
        }
    }
}

/// What a reading at some place gave.
pub open spec fn value_at(log: Seq<Access>, i: int) -> u32 {
    log[i]->Read_1
}

/// What the bits of a register have to be.
pub enum Test {
    Clear(u32),
    Any(u32),
    Is(u32, u32),
}

pub open spec fn fits(test: Test, value: u32) -> bool {
    match test {
        Test::Clear(mask) => value & mask == 0,
        Test::Any(mask) => value & mask != 0,
        Test::Is(mask, expected) => value & mask == expected,
    }
}

/// A register was read, and is as it has to be, or is not.
pub open spec fn looked_at(access: Access, register: (usize, Test), fine: bool) -> bool {
    access matches Access::Read(o, value) && o == register.0 && fits(register.1, value) == fine
}

/// Registers were read one after the other: all are as they have to be, or it ended with
/// the first that is not.
pub open spec fn read_back(
    before: Seq<Access>,
    after: Seq<Access>,
    registers: Seq<(usize, Test)>,
    fine: bool,
) -> bool {
    let n = if fine {
        registers.len() as int
    } else {
        after.len() - before.len() - 1
    };
    &&& extends(before, after)
    &&& 0 <= n <= registers.len()
    &&& forall|i: int|
        0 <= i < n ==> looked_at(after[before.len() + i], #[trigger] registers[i], true)
    &&& if fine {
        after.len() == before.len() + n
    } else {
        n < registers.len() && looked_at(after[before.len() + n], registers[n], false)
    }
}

/// So many writes were added when the accesses had come to some place.
pub open spec fn stands_at(before: Seq<Access>, after: Seq<Access>, n: int, i: int) -> bool {
    before.len() <= i < after.len() && writes(after.take(i)).len() == writes(before).len() + n
}

/// An access stands behind so many of the writes that were added, and before the next.
pub open spec fn stood(before: Seq<Access>, after: Seq<Access>, n: int, access: Access) -> bool {
    &&& extends(before, after)
    &&& exists|i: int| #[trigger] stands_at(before, after, n, i) && after[i] == access
}

/// So many stores to shared memory were added when the accesses had come to some place.
pub open spec fn stores_at(before: Seq<Access>, after: Seq<Access>, n: int, i: int) -> bool {
    before.len() <= i < after.len() && stores(after.take(i)).len() == stores(before).len() + n
}

/// An access stands behind so many of the stores that were added, and before the next.
pub open spec fn stood_behind(
    before: Seq<Access>,
    after: Seq<Access>,
    n: int,
    access: Access,
) -> bool {
    &&& extends(before, after)
    &&& exists|i: int| #[trigger] stores_at(before, after, n, i) && after[i] == access
}

/// The last access of some stands where they end, whatever is added.
pub proof fn lemma_stood(
    before: Seq<Access>,
    middle: Seq<Access>,
    after: Seq<Access>,
    n: int,
    access: Access,
)
    requires
        extends(before, middle),
        extends(middle, after),
        before.len() < middle.len(),
        middle.last() == access,
        !(access is Write),
        writes(middle).len() == writes(before).len() + n,
    ensures
        stood(before, after, n, access),
{
    let i = middle.len() - 1;
    assert(after.take(i) =~= middle.drop_last());
    assert(after[i] == middle[i]);
    assert(stands_at(before, after, n, i));
}

/// The last access of some stands behind their stores, whatever is added.
pub proof fn lemma_stood_behind(
    before: Seq<Access>,
    middle: Seq<Access>,
    after: Seq<Access>,
    n: int,
    access: Access,
)
    requires
        extends(before, middle),
        extends(middle, after),
        before.len() < middle.len(),
        middle.last() == access,
        !(access is Store),
        stores(middle).len() == stores(before).len() + n,
    ensures
        stood_behind(before, after, n, access),
{
    let i = middle.len() - 1;
    assert(after.take(i) =~= middle.drop_last());
    assert(after[i] == middle[i]);
    assert(stores_at(before, after, n, i));
}

/// What stands behind some stores stays there, whatever is added.
pub proof fn lemma_behind_later(
    before: Seq<Access>,
    middle: Seq<Access>,
    after: Seq<Access>,
    n: int,
    access: Access,
)
    requires
        stood_behind(before, middle, n, access),
        extends(middle, after),
    ensures
        stood_behind(before, after, n, access),
{
    let i = choose|i: int| #[trigger] stores_at(before, middle, n, i) && middle[i] == access;
    assert(after.take(i) =~= middle.take(i));
    assert(after[i] == middle[i]);
    assert(stores_at(before, after, n, i));
}

/// A register was read with some value among the accesses that were added.
pub open spec fn saw(before: Seq<Access>, after: Seq<Access>, offset: usize, value: u32) -> bool {
    exists|i: int|
        before.len() <= i < after.len() && #[trigger] after[i] == Access::Read(offset, value)
}

/// What was read stays read.
pub proof fn lemma_saw(
    before: Seq<Access>,
    middle: Seq<Access>,
    after: Seq<Access>,
    offset: usize,
    value: u32,
)
    requires
        before.len() < middle.len(),
        middle.last() == Access::Read(offset, value),
        extends(middle, after),
    ensures
        saw(before, after, offset, value),
{
    assert(after[middle.len() - 1] == middle[middle.len() - 1]);
}

/// What was read on the way stays read.
pub proof fn lemma_saw_later(
    before: Seq<Access>,
    from: Seq<Access>,
    to: Seq<Access>,
    after: Seq<Access>,
    offset: usize,
    value: u32,
)
    requires
        before.len() <= from.len(),
        saw(from, to, offset, value),
        extends(to, after),
    ensures
        saw(before, after, offset, value),
{
    let i = choose|i: int|
        from.len() <= i < to.len() && #[trigger] to[i] == Access::Read(offset, value);
    assert(after[i] == to[i]);
}

/// What was read stays read, whatever is added.
pub proof fn readings_stay(before: Seq<Access>, after: Seq<Access>, offset: usize, i: int)
    requires
        extends(before, after),
        0 <= i < reads(before, offset).len(),
    ensures
        i < reads(after, offset).len(),
        reads(after, offset)[i] == reads(before, offset)[i],
    decreases after.len(),
{
    if after.len() == before.len() {
        assert(after =~= before);
    } else {
        readings_stay(before, after.drop_last(), offset, i);
    }
}

/// What an access shows is what the host answered when it was called.
pub open spec fn answers<R: Registers>(port: &R, access: Access) -> bool {
    match access {
        Access::Read(offset, value) => call_ensures(R::read, (port, offset), value),
        Access::Write(offset, value) => call_ensures(R::write, (port, offset, value), ()),
        Access::Time(now) => call_ensures(R::now_ns, (port,), now),
        Access::Delay(us) => call_ensures(R::delay_us, (port, us), ()),
        Access::Load(area, word, value) => call_ensures(R::load, (port, area, word), value),
        Access::Store(area, word, value) => call_ensures(R::store, (port, area, word, value), ()),
        Access::Clean(area) => call_ensures(R::clean, (port, area), ()),
        Access::Refresh(area) => call_ensures(R::refresh, (port, area), ()),
        Access::Rest(ns) => call_ensures(R::rest_ns, (port, ns), ()),
    }
}

/// All of a record is what the host answered.
pub open spec fn answered<R: Registers>(port: &R, log: Seq<Access>) -> bool {
    forall|i: int| 0 <= i < log.len() ==> answers(port, #[trigger] log[i])
}

/// The only way by which verified code reaches the registers.
pub struct Bus<'a, R: Registers> {
    port: &'a R,
    log: Ghost<Seq<Access>>,
}

impl<'a, R: Registers> Bus<'a, R> {
    /// All accesses so far.
    pub closed spec fn log(self) -> Seq<Access> {
        self.log@
    }

    /// Whose registers they are.
    pub closed spec fn port(self) -> &'a R {
        self.port
    }

    /// The record holds what the host answered, and nothing else.
    #[verifier::type_invariant]
    pub open spec fn genuine(self) -> bool {
        answered(self.port(), self.log())
    }

    pub fn new(port: &'a R) -> (bus: Self)
        ensures
            bus.log() == Seq::<Access>::empty(),
            bus.port() == port,
    {
        Bus { port, log: Ghost(Seq::empty()) }
    }

    /// The same registers with a record of their own.
    pub fn apart(&self) -> (bus: Self)
        ensures
            bus.log() == Seq::<Access>::empty(),
            bus.port() == self.port(),
    {
        Bus { port: self.port, log: Ghost(Seq::empty()) }
    }

    /// Takes the record of a part over.
    pub fn join(&mut self, part: Self)
        requires
            part.port() == old(self).port(),
        ensures
            final(self).port() == old(self).port(),
            final(self).log() == old(self).log() + part.log(),
    {
        proof {
            use_type_invariant(&*self);
            let before = self.log@;
            use_type_invariant(&part);
            self.log@ = before + part.log@;
        }
    }

    pub fn read(&mut self, offset: usize) -> (value: u32)
        ensures
            final(self).port() == old(self).port(),
            final(self).log() == old(self).log().push(Access::Read(offset, value)),
            writes(final(self).log()) == writes(old(self).log()),
            memory_kept(old(self).log(), final(self).log()),
            forall|o: usize|
                #![trigger reads(final(self).log(), o)]
                reads(final(self).log(), o) == if o == offset {
                    reads(old(self).log(), o).push(value)
                } else {
                    reads(old(self).log(), o)
                },
    {
        let value: u32 = self.port.read(offset);
        proof {
            use_type_invariant(&*self);
            let before = self.log@;
            self.log@ = before.push(Access::Read(offset, value));
            assert(self.log@.drop_last() =~= before);
        }
        value
    }

    pub fn write(&mut self, offset: usize, value: u32)
        ensures
            final(self).port() == old(self).port(),
            final(self).log() == old(self).log().push(Access::Write(offset, value)),
            writes(final(self).log()) == writes(old(self).log()).push((offset, value)),
            memory_kept(old(self).log(), final(self).log()),
            forall|o: usize|
                #![trigger reads(final(self).log(), o)]
                reads(final(self).log(), o) == reads(old(self).log(), o),
    {
        self.port.write(offset, value);
        proof {
            use_type_invariant(&*self);
            let before = self.log@;
            self.log@ = before.push(Access::Write(offset, value));
            assert(self.log@.drop_last() =~= before);
        }
    }

    pub fn now_ns(&mut self) -> (now: u64)
        ensures
            final(self).port() == old(self).port(),
            final(self).log() == old(self).log().push(Access::Time(now)),
            writes(final(self).log()) == writes(old(self).log()),
            memory_kept(old(self).log(), final(self).log()),
            forall|o: usize|
                #![trigger reads(final(self).log(), o)]
                reads(final(self).log(), o) == reads(old(self).log(), o),
    {
        let now: u64 = self.port.now_ns();
        proof {
            use_type_invariant(&*self);
            let before = self.log@;
            self.log@ = before.push(Access::Time(now));
            assert(self.log@.drop_last() =~= before);
        }
        now
    }
}

impl<'a, R: Timed> Bus<'a, R> {
    pub fn delay_us(&mut self, us: u64)
        ensures
            final(self).port() == old(self).port(),
            final(self).log() == old(self).log().push(Access::Delay(us)),
            writes(final(self).log()) == writes(old(self).log()),
            memory_kept(old(self).log(), final(self).log()),
            forall|o: usize|
                #![trigger reads(final(self).log(), o)]
                reads(final(self).log(), o) == reads(old(self).log(), o),
    {
        self.port.delay_us(us);
        proof {
            use_type_invariant(&*self);
            let before = self.log@;
            self.log@ = before.push(Access::Delay(us));
            assert(self.log@.drop_last() =~= before);
        }
    }
}

impl<'a, R: Dma> Bus<'a, R> {
    pub fn load(&mut self, area: usize, word: usize) -> (value: u32)
        ensures
            final(self).port() == old(self).port(),
            final(self).log() == old(self).log().push(Access::Load(area, word, value)),
            writes(final(self).log()) == writes(old(self).log()),
            stores(final(self).log()) == stores(old(self).log()),
            extends(old(self).log(), final(self).log()),
            forall|o: usize|
                #![trigger reads(final(self).log(), o)]
                reads(final(self).log(), o) == reads(old(self).log(), o),
            forall|a: usize, w: usize|
                #![trigger loads(final(self).log(), a, w)]
                loads(final(self).log(), a, w) == if a == area && w == word {
                    loads(old(self).log(), a, w).push(value)
                } else {
                    loads(old(self).log(), a, w)
                },
    {
        let value: u32 = self.port.load(area, word);
        proof {
            use_type_invariant(&*self);
            let before = self.log@;
            self.log@ = before.push(Access::Load(area, word, value));
            assert(self.log@.drop_last() =~= before);
        }
        value
    }

    pub fn store(&mut self, area: usize, word: usize, value: u32)
        ensures
            final(self).port() == old(self).port(),
            final(self).log() == old(self).log().push(Access::Store(area, word, value)),
            writes(final(self).log()) == writes(old(self).log()),
            stores(final(self).log()) == stores(old(self).log()).push((area, word, value)),
            extends(old(self).log(), final(self).log()),
            forall|o: usize|
                #![trigger reads(final(self).log(), o)]
                reads(final(self).log(), o) == reads(old(self).log(), o),
            forall|a: usize, w: usize|
                #![trigger loads(final(self).log(), a, w)]
                loads(final(self).log(), a, w) == loads(old(self).log(), a, w),
    {
        self.port.store(area, word, value);
        proof {
            use_type_invariant(&*self);
            let before = self.log@;
            self.log@ = before.push(Access::Store(area, word, value));
            assert(self.log@.drop_last() =~= before);
        }
    }

    pub fn clean(&mut self, area: usize)
        ensures
            final(self).port() == old(self).port(),
            final(self).log() == old(self).log().push(Access::Clean(area)),
            writes(final(self).log()) == writes(old(self).log()),
            memory_kept(old(self).log(), final(self).log()),
            forall|o: usize|
                #![trigger reads(final(self).log(), o)]
                reads(final(self).log(), o) == reads(old(self).log(), o),
    {
        self.port.clean(area);
        proof {
            use_type_invariant(&*self);
            let before = self.log@;
            self.log@ = before.push(Access::Clean(area));
            assert(self.log@.drop_last() =~= before);
        }
    }

    pub fn refresh(&mut self, area: usize)
        ensures
            final(self).port() == old(self).port(),
            final(self).log() == old(self).log().push(Access::Refresh(area)),
            writes(final(self).log()) == writes(old(self).log()),
            memory_kept(old(self).log(), final(self).log()),
            forall|o: usize|
                #![trigger reads(final(self).log(), o)]
                reads(final(self).log(), o) == reads(old(self).log(), o),
    {
        self.port.refresh(area);
        proof {
            use_type_invariant(&*self);
            let before = self.log@;
            self.log@ = before.push(Access::Refresh(area));
            assert(self.log@.drop_last() =~= before);
        }
    }

    pub fn rest_ns(&mut self, ns: u64)
        ensures
            final(self).port() == old(self).port(),
            final(self).log() == old(self).log().push(Access::Rest(ns)),
            writes(final(self).log()) == writes(old(self).log()),
            memory_kept(old(self).log(), final(self).log()),
            forall|o: usize|
                #![trigger reads(final(self).log(), o)]
                reads(final(self).log(), o) == reads(old(self).log(), o),
    {
        self.port.rest_ns(ns);
        proof {
            use_type_invariant(&*self);
            let before = self.log@;
            self.log@ = before.push(Access::Rest(ns));
            assert(self.log@.drop_last() =~= before);
        }
    }
}

} // verus!
