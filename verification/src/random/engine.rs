//! Bounded transactions of the security engine's random number generator.
//!
//! The transport owns the storage that the device writes to for good: an abort
//! request alone is never taken as proof that the device has stopped writing.
use vstd::prelude::*;

verus! {

pub const BLOCK_SIZE: usize = 16;

pub const MAX_BYTES: usize = 256;

pub const TIMEOUT_NS: u64 = 100_000_000;

pub const RESEED_BLOCKS: u32 = 4096;

pub const SECURITY: usize = 0x000;

pub const OPERATION: usize = 0x008;

pub const INT_ENABLE: usize = 0x00c;

pub const INT_STATUS: usize = 0x010;

pub const CONFIG: usize = 0x014;

pub const IN_LL: usize = 0x018;

pub const OUT_LL: usize = 0x024;

pub const CRYPTO_CONFIG: usize = 0x304;

pub const LAST_BLOCK: usize = 0x318;

pub const RNG_CONFIG: usize = 0x340;

pub const RNG_SOURCE: usize = 0x344;

pub const RESEED_INTERVAL: usize = 0x348;

pub const STATUS: usize = 0x800;

pub const ERR_STATUS: usize = 0x804;

pub const OP_DONE: u32 = 0x10;

pub const INT_ERROR: u32 = 0x1_0000;

pub const STATE_MASK: u32 = 3;

pub const MEM_BUSY: u32 = 4;

/// The device's own queue towards memory is not empty.
pub const QUEUE_BUSY: u32 = 0x4000;

pub const ENTROPY_ENABLE: u32 = 2;

pub const ENTROPY_SOURCE: u32 = 4;

pub const INSTANTIATE: u32 = 1;

/// Random numbers by 128-bit AES, into memory.
pub const RANDOM_TO_MEMORY: u32 = 0x2000;

/// Encryption of random input, over the bus.
pub const ENCRYPT_RANDOM: u32 = 0x108;

/// Time that the last write needs to reach the queue.
pub const SETTLE_US: u64 = 15;

/// Implementations keep descriptor and output storage alive even on error,
/// publish writes before the start, and invalidate output only after retirement.
pub trait Transport {
    fn read(&self, offset: usize) -> u32;

    fn write(&mut self, offset: usize, value: u32);

    fn now_ns(&self) -> u64;

    fn delay_us(&self, us: u64);

    fn ahb_pending(&self) -> u32;

    fn prepare_output(&mut self, size: usize) -> Result<u32, &'static str>;

    fn copy_output(&mut self, output: &mut [u8]);
}

/// Output areas that the device can take: whole blocks, at a word address below
/// 4 GiB.
pub open spec fn descriptor_spec(address: u64, size: usize) -> Result<Seq<u32>, &'static str> {
    if size == 0 || size > 256 || size % 16 != 0 || address % 4 != 0 {
        Err("invalid SE DMA output")
    } else if address + size > 0x1_0000_0000 {
        Err("SE DMA output exceeds 32 bits")
    } else {
        Ok(seq![0u32, address as u32, size as u32])
    }
}

/// List of one entry: count minus one, physical address, byte count.
pub fn output_descriptor(address: u64, size: usize) -> (r: Result<[u32; 3], &'static str>)
    ensures
        r matches Ok(words) ==> descriptor_spec(address, size) == Ok::<Seq<u32>, &'static str>(
            words@,
        ),
        r matches Err(e) ==> descriptor_spec(address, size) == Err::<Seq<u32>, &'static str>(e),
{
    if size == 0 || size > MAX_BYTES || size % BLOCK_SIZE != 0 || address % 4 != 0 {
        return Err("invalid SE DMA output");
    }
    if address > 0x1_0000_0000 || address + size as u64 > 0x1_0000_0000 {
        return Err("SE DMA output exceeds 32 bits");
    }
    let words: [u32; 3] = [0, address as u32, size as u32];
    assert(words@ =~= seq![0u32, address as u32, size as u32]);
    Ok(words)
}

/// One exchange with the transport.
pub enum Event {
    Read(usize, u32),
    Write(usize, u32),
    Time(u64),
    Delay(u64),
    Pending(u32),
    Prepared(usize, Result<u32, &'static str>),
    Copied(Seq<u8>),
}

pub type Log = Seq<Event>;

/// Writes a register through the transport. The transport before and after is told.
pub fn put<T: Transport>(io: &mut T, offset: usize, value: u32) -> (told: Ghost<(T, T)>)
    ensures
        told@ == (*old(io), *final(io)),
        exists|host: &mut T| #[trigger]
            call_ensures(T::write, (host, offset, value), ()) && *host == told@.0 && *final(host)
                == told@.1,
{
    let ghost before = *io;
    io.write(offset, value);
    Ghost((before, *io))
}

/// Has the transport prepare storage. The transport before and after is told.
pub fn ask_storage<T: Transport>(io: &mut T, size: usize) -> (r: (
    Result<u32, &'static str>,
    Ghost<(T, T)>,
))
    ensures
        r.1@ == (*old(io), *final(io)),
        exists|host: &mut T, storage: Result<u32, &'static str>| #[trigger]
            call_ensures(T::prepare_output, (host, size), storage) && storage == r.0 && *host
                == r.1@.0 && *final(host) == r.1@.1,
{
    let ghost before = *io;
    let storage: Result<u32, &'static str> = io.prepare_output(size);
    (storage, Ghost((before, *io)))
}

/// Copies so many bytes out of the device's storage. The transport before and after is
/// told.
pub fn fetch_output<T: Transport>(io: &mut T, size: usize) -> (r: (Vec<u8>, Ghost<(T, T)>))
    ensures
        r.1@ == (*old(io), *final(io)),
        exists|host: &mut T, place: &mut [u8]| #[trigger]
            call_ensures(T::copy_output, (host, place), ()) && *host == r.1@.0 && *final(host)
                == r.1@.1 && place@.len() == size && final(place)@ == r.0@,
{
    let ghost before = *io;
    let mut bytes: Vec<u8> = vec![0; size];
    io.copy_output(bytes.as_mut_slice());
    (bytes, Ghost((before, *io)))
}

/// A register was written so through the transport, which became another one.
pub open spec fn took<T: Transport>(before: T, offset: usize, value: u32, after: T) -> bool {
    exists|io: &mut T, told: Ghost<(T, T)>| #[trigger]
        call_ensures(put::<T>, (io, offset, value), told) && told@ == (before, after)
}

/// The transport prepared storage so, and became another one.
pub open spec fn prepared<T: Transport>(
    before: T,
    size: usize,
    r: Result<u32, &'static str>,
    after: T,
) -> bool {
    exists|io: &mut T, told: (Result<u32, &'static str>, Ghost<(T, T)>)| #[trigger]
        call_ensures(ask_storage::<T>, (io, size), told) && told.0 == r && told.1@ == (
            before,
            after,
        )
}

/// The transport copied so out of the device's storage, and became another one.
pub open spec fn copied<T: Transport>(before: T, bytes: Seq<u8>, after: T) -> bool {
    exists|io: &mut T, size: usize, told: (Vec<u8>, Ghost<(T, T)>)| #[trigger]
        call_ensures(fetch_output::<T>, (io, size), told) && told.0@ == bytes && told.1@ == (
            before,
            after,
        )
}

/// The exchange is one that the transport made, and left it so.
pub open spec fn happened<T: Transport>(before: T, event: Event, after: T) -> bool {
    match event {
        Event::Read(offset, value) => after == before && call_ensures(
            T::read,
            (&before, offset),
            value,
        ),
        Event::Write(offset, value) => took(before, offset, value, after),
        Event::Time(now) => after == before && call_ensures(T::now_ns, (&before,), now),
        Event::Delay(us) => after == before && call_ensures(T::delay_us, (&before, us), ()),
        Event::Pending(pending) => after == before && call_ensures(
            T::ahb_pending,
            (&before,),
            pending,
        ),
        Event::Prepared(size, r) => prepared(before, size, r, after),
        Event::Copied(bytes) => copied(before, bytes, after),
    }
}

/// All of a record was made by one transport, which went through these states.
pub open spec fn answered<T: Transport>(log: Log, states: Seq<T>) -> bool {
    &&& states.len() == log.len() + 1
    &&& forall|i: int|
        0 <= i < log.len() ==> happened::<T>(states[i], #[trigger] log[i], states[i + 1])
}

/// States are only added.
pub open spec fn later<T>(before: Seq<T>, after: Seq<T>) -> bool {
    &&& before.len() <= after.len()
    &&& forall|i: int| 0 <= i < before.len() ==> #[trigger] after[i] == before[i]
}

/// A write in a record is one that the transport was told.
pub proof fn writes_are_what_the_transport_was_told<T: Transport>(
    before: T,
    offset: usize,
    value: u32,
    after: T,
)
    requires
        happened(before, Event::Write(offset, value), after),
    ensures
        exists|io: &mut T| #[trigger]
            call_ensures(T::write, (io, offset, value), ()) && *io == before && *final(io) == after,
{
}

/// What a record shows as prepared is what the transport was asked for and answered.
pub proof fn storage_is_what_the_transport_prepared<T: Transport>(
    before: T,
    size: usize,
    r: Result<u32, &'static str>,
    after: T,
)
    requires
        happened(before, Event::Prepared(size, r), after),
    ensures
        exists|io: &mut T| #[trigger]
            call_ensures(T::prepare_output, (io, size), r) && *io == before && *final(io) == after,
{
}

/// What a record shows as copied is what the transport put into the buffer that it was
/// given.
pub proof fn copies_are_what_the_transport_gave<T: Transport>(
    before: T,
    bytes: Seq<u8>,
    after: T,
)
    requires
        happened(before, Event::Copied(bytes), after),
    ensures
        exists|io: &mut T, place: &mut [u8]| #[trigger]
            call_ensures(T::copy_output, (io, place), ()) && *io == before && *final(io) == after
                && final(place)@ == bytes,
{
}

/// Exchanges are only added.
pub open spec fn extends(old_log: Log, new_log: Log) -> bool {
    &&& old_log.len() <= new_log.len()
    &&& forall|i: int| 0 <= i < old_log.len() ==> #[trigger] new_log[i] == old_log[i]
}

/// The register writes among some exchanges, in order.
pub open spec fn writes(log: Log) -> Seq<(usize, u32)>
    decreases log.len(),
{
    if log.len() == 0 {
        seq![]
    } else {
        match log.last() {
            Event::Write(offset, value) => writes(log.drop_last()).push((offset, value)),
            _ => writes(log.drop_last()),
        }
    }
}

/// Everything that was copied out of the device's storage, in order.
pub open spec fn copies(log: Log) -> Seq<Seq<u8>>
    decreases log.len(),
{
    if log.len() == 0 {
        seq![]
    } else {
        match log.last() {
            Event::Copied(bytes) => copies(log.drop_last()).push(bytes),
            _ => copies(log.drop_last()),
        }
    }
}

/// Registers that entropy needs. Keys, locks and saved contexts are not among
/// them.
pub open spec fn harmless(offset: usize) -> bool {
    ||| offset == RNG_SOURCE
    ||| offset == INT_ENABLE
    ||| offset == RESEED_INTERVAL
    ||| offset == CONFIG
    ||| offset == CRYPTO_CONFIG
    ||| offset == RNG_CONFIG
    ||| offset == LAST_BLOCK
    ||| offset == IN_LL
    ||| offset == OUT_LL
    ||| offset == ERR_STATUS
    ||| offset == INT_STATUS
    ||| offset == OPERATION
}

pub open spec fn only_harmless(writes: Seq<(usize, u32)>) -> bool {
    forall|i: int| 0 <= i < writes.len() ==> harmless(#[trigger] writes[i].0)
}

/// The writes of one transaction up to its start. The two status registers are
/// cleared by writing back what they showed.
pub open spec fn start_writes(
    mode: u32,
    length: nat,
    descriptor: u32,
    errors: u32,
    interrupts: u32,
) -> Seq<(usize, u32)> {
    seq![
        (CONFIG, RANDOM_TO_MEMORY),
        (CRYPTO_CONFIG, ENCRYPT_RANDOM),
        (RNG_CONFIG, ENTROPY_SOURCE | mode),
        (LAST_BLOCK, (length / 16 - 1) as u32),
        (IN_LL, 0u32),
        (OUT_LL, descriptor),
        (ERR_STATUS, errors),
        (INT_STATUS, interrupts),
        (OPERATION, 1u32),
    ]
}

/// The device said that it was done, and both its queues were then seen empty.
pub open spec fn retired(log: Log, since: int) -> bool {
    &&& log.len() >= 2
    &&& log[log.len() - 2] matches Event::Read(o, status) && o == STATUS && status & MEM_BUSY == 0
    &&& log[log.len() - 1] matches Event::Pending(pending) && pending & QUEUE_BUSY == 0
    &&& exists|i: int|
        since <= i < log.len() - 2 && (#[trigger] log[i] matches Event::Read(o, status) && o
            == INT_STATUS && status & OP_DONE != 0 && status & INT_ERROR == 0)
}

/// What a request comes to, by the transaction that was made for it.
pub open spec fn answer(
    previous: Option<Seq<u8>>,
    count: nat,
    bytes: Seq<u8>,
    q: Result<(), &'static str>,
) -> Result<usize, &'static str> {
    match q {
        Err(e) => Err(e),
        Ok(_) => if bytes.len() != rounded(count) {
            Err("SE RNG hardware error")
        } else if all_plausible(previous, bytes) {
            Ok(count as usize)
        } else {
            Err("SE RNG repeated or stuck output")
        },
    }
}

pub open spec fn uniform(block: Seq<u8>, value: u8) -> bool {
    forall|i: int| 0 <= i < block.len() ==> #[trigger] block[i] == value
}

pub open spec fn block(bytes: Seq<u8>, k: int) -> Seq<u8> {
    bytes.subrange(16 * k, 16 * k + 16)
}

/// The block before: the last one of the request before, for the first.
pub open spec fn before(previous: Option<Seq<u8>>, bytes: Seq<u8>, k: int) -> Option<Seq<u8>> {
    if k == 0 {
        previous
    } else {
        Some(block(bytes, k - 1))
    }
}

/// Not what a stuck output gives: neither zeros nor ones throughout, nor the same
/// again. This finds faults; it does not estimate entropy.
pub open spec fn plausible(previous: Option<Seq<u8>>, bytes: Seq<u8>, k: int) -> bool {
    &&& !uniform(block(bytes, k), 0)
    &&& !uniform(block(bytes, k), 255)
    &&& before(previous, bytes, k) != Some(block(bytes, k))
}

pub open spec fn all_plausible(previous: Option<Seq<u8>>, bytes: Seq<u8>) -> bool {
    forall|k: int| 0 <= k < bytes.len() / 16 ==> #[trigger] plausible(previous, bytes, k)
}

/// The kept block by its bytes.
pub open spec fn kept(previous: Option<[u8; 16]>) -> Option<Seq<u8>> {
    match previous {
        None => None,
        Some(bytes) => Some(bytes@),
    }
}

/// Bytes that a request gets.
pub open spec fn granted(length: nat) -> nat {
    if length < 256 {
        length
    } else {
        256
    }
}

/// The next whole number of blocks.
pub open spec fn rounded(count: nat) -> nat {
    ((count + 15) / 16 * 16) as nat
}

fn is_uniform(block: &[u8; 16], value: u8) -> (r: bool)
    ensures
        r == uniform(block@, value),
{
    let mut i: usize = 0;
    while i < 16
        invariant
            i <= 16,
            forall|j: int| 0 <= j < i ==> #[trigger] block@[j] == value,
        decreases 16 - i,
    {
        if block[i] != value {
            return false;
        }
        i = i + 1;
    }
    true
}

fn same(a: &[u8; 16], b: &[u8; 16]) -> (r: bool)
    ensures
        r == (a@ == b@),
{
    let mut i: usize = 0;
    while i < 16
        invariant
            i <= 16,
            forall|j: int| 0 <= j < i ==> #[trigger] a@[j] == b@[j],
        decreases 16 - i,
    {
        if a[i] != b[i] {
            return false;
        }
        i = i + 1;
    }
    assert(a@ =~= b@);
    true
}

pub struct Engine<T> {
    pub io: T,
    ready: bool,
    previous: Option<[u8; 16]>,
    log: Ghost<Log>,
    states: Ghost<Seq<T>>,
}

impl<T: Transport> Engine<T> {
    /// All exchanges so far.
    pub closed spec fn log(self) -> Log {
        self.log@
    }

    /// The transport as it is now.
    pub closed spec fn transport(self) -> T {
        self.io
    }

    /// The transport before the first exchange, and behind each one.
    pub closed spec fn states(self) -> Seq<T> {
        self.states@
    }

    /// Every exchange was made with one transport, each with what the one before left.
    pub open spec fn linked(self) -> bool {
        answered::<T>(self.log(), self.states()) && self.transport() == self.states().last()
    }

    pub closed spec fn ready(self) -> bool {
        self.ready
    }

    /// The last block that was seen.
    pub closed spec fn previous(self) -> Option<Seq<u8>> {
        kept(self.previous)
    }

    /// Nothing but what entropy needs was ever written, and what came back is what the
    /// transport gave.
    pub open spec fn wf(self) -> bool {
        only_harmless(writes(self.log())) && self.linked()
    }

    fn read(&mut self, offset: usize) -> (value: u32)
        ensures
            final(self).log() == old(self).log().push(Event::Read(offset, value)),
            writes(final(self).log()) == writes(old(self).log()),
            copies(final(self).log()) == copies(old(self).log()),
            final(self).ready() == old(self).ready(),
            final(self).previous == old(self).previous,
            old(self).linked() ==> final(self).linked() && later(
                old(self).states(),
                final(self).states(),
            ),
    {
        let value: u32 = self.io.read(offset);
        proof {
            assert(happened::<T>(self.io, Event::Read(offset, value), self.io));
            let log = self.log@;
            self.log@ = log.push(Event::Read(offset, value));
            self.states@ = self.states@.push(self.io);
            assert(self.log@.drop_last() =~= log);
        }
        value
    }

    fn write(&mut self, offset: usize, value: u32)
        ensures
            final(self).log() == old(self).log().push(Event::Write(offset, value)),
            writes(final(self).log()) == writes(old(self).log()).push((offset, value)),
            copies(final(self).log()) == copies(old(self).log()),
            final(self).ready() == old(self).ready(),
            final(self).previous == old(self).previous,
            old(self).linked() ==> final(self).linked() && later(
                old(self).states(),
                final(self).states(),
            ),
    {
        let told = put(&mut self.io, offset, value);
        proof {
            assert(took(told@.0, offset, value, told@.1));
            let log = self.log@;
            self.states@ = self.states@.push(self.io);
            self.log@ = log.push(Event::Write(offset, value));
            assert(self.log@.drop_last() =~= log);
        }
    }

    fn now_ns(&mut self) -> (now: u64)
        ensures
            final(self).log() == old(self).log().push(Event::Time(now)),
            writes(final(self).log()) == writes(old(self).log()),
            copies(final(self).log()) == copies(old(self).log()),
            final(self).ready() == old(self).ready(),
            final(self).previous == old(self).previous,
            old(self).linked() ==> final(self).linked() && later(
                old(self).states(),
                final(self).states(),
            ),
    {
        let now: u64 = self.io.now_ns();
        proof {
            assert(happened::<T>(self.io, Event::Time(now), self.io));
            let log = self.log@;
            self.states@ = self.states@.push(self.io);
            self.log@ = log.push(Event::Time(now));
            assert(self.log@.drop_last() =~= log);
        }
        now
    }

    fn delay_us(&mut self, us: u64)
        ensures
            final(self).log() == old(self).log().push(Event::Delay(us)),
            writes(final(self).log()) == writes(old(self).log()),
            copies(final(self).log()) == copies(old(self).log()),
            final(self).ready() == old(self).ready(),
            final(self).previous == old(self).previous,
            old(self).linked() ==> final(self).linked() && later(
                old(self).states(),
                final(self).states(),
            ),
    {
        self.io.delay_us(us);
        proof {
            assert(happened::<T>(self.io, Event::Delay(us), self.io));
            let log = self.log@;
            self.states@ = self.states@.push(self.io);
            self.log@ = log.push(Event::Delay(us));
            assert(self.log@.drop_last() =~= log);
        }
    }

    fn pending(&mut self) -> (pending: u32)
        ensures
            final(self).log() == old(self).log().push(Event::Pending(pending)),
            writes(final(self).log()) == writes(old(self).log()),
            copies(final(self).log()) == copies(old(self).log()),
            final(self).ready() == old(self).ready(),
            final(self).previous == old(self).previous,
            old(self).linked() ==> final(self).linked() && later(
                old(self).states(),
                final(self).states(),
            ),
    {
        let pending: u32 = self.io.ahb_pending();
        proof {
            assert(happened::<T>(self.io, Event::Pending(pending), self.io));
            let log = self.log@;
            self.states@ = self.states@.push(self.io);
            self.log@ = log.push(Event::Pending(pending));
            assert(self.log@.drop_last() =~= log);
        }
        pending
    }

    fn prepare(&mut self, size: usize) -> (r: Result<u32, &'static str>)
        ensures
            final(self).log() == old(self).log().push(Event::Prepared(size, r)),
            writes(final(self).log()) == writes(old(self).log()),
            copies(final(self).log()) == copies(old(self).log()),
            final(self).ready() == old(self).ready(),
            final(self).previous == old(self).previous,
            old(self).linked() ==> final(self).linked() && later(
                old(self).states(),
                final(self).states(),
            ),
    {
        let told = ask_storage(&mut self.io, size);
        let r: Result<u32, &'static str> = told.0;
        proof {
            assert(prepared(told.1@.0, size, r, told.1@.1));
            let log = self.log@;
            self.states@ = self.states@.push(self.io);
            self.log@ = log.push(Event::Prepared(size, r));
            assert(self.log@.drop_last() =~= log);
        }
        r
    }

    fn copy(&mut self, size: usize) -> (bytes: Vec<u8>)
        ensures
            final(self).log() == old(self).log().push(Event::Copied(bytes@)),
            writes(final(self).log()) == writes(old(self).log()),
            copies(final(self).log()) == copies(old(self).log()).push(bytes@),
            final(self).ready() == old(self).ready(),
            final(self).previous == old(self).previous,
            old(self).linked() ==> final(self).linked() && later(
                old(self).states(),
                final(self).states(),
            ),
            exists|io: &mut T, place: &mut [u8]| #[trigger]
                call_ensures(T::copy_output, (io, place), ()) && *io == old(self).io && *final(io)
                    == final(self).io && final(place)@ == bytes@,
    {
        let told = fetch_output(&mut self.io, size);
        let bytes: Vec<u8> = told.0;
        proof {
            let log = self.log@;
            assert(copied(told.1@.0, bytes@, told.1@.1));
            self.states@ = self.states@.push(self.io);
            self.log@ = log.push(Event::Copied(bytes@));
            assert(self.log@.drop_last() =~= log);
        }
        bytes
    }

    /// A register that reads as ones throughout is not there.
    fn reg(&mut self, offset: usize) -> (r: Result<u32, &'static str>)
        ensures
            exists|value: u32|
                final(self).log() == #[trigger] old(self).log().push(Event::Read(offset, value))
                    && r == if value == u32::MAX {
                    Err::<u32, &'static str>("SE register is unreadable")
                } else {
                    Ok::<u32, &'static str>(value)
                },
            r matches Ok(value) ==> final(self).log() == old(self).log().push(
                Event::Read(offset, value),
            ),
            writes(final(self).log()) == writes(old(self).log()),
            copies(final(self).log()) == copies(old(self).log()),
            final(self).ready() == old(self).ready(),
            final(self).previous == old(self).previous,
            old(self).linked() ==> final(self).linked() && later(
                old(self).states(),
                final(self).states(),
            ),
    {
        let value: u32 = self.read(offset);
        if value == u32::MAX {
            Err("SE register is unreadable")
        } else {
            Ok(value)
        }
    }

    fn idle(&mut self) -> (r: Result<(), &'static str>)
        ensures
            exists|value: u32|
                final(self).log() == #[trigger] old(self).log().push(Event::Read(STATUS, value))
                    && r == if value == u32::MAX {
                    Err::<(), &'static str>("SE register is unreadable")
                } else if value & STATE_MASK != 0 {
                    Err::<(), &'static str>("SE is not idle")
                } else {
                    Ok::<(), &'static str>(())
                },
            writes(final(self).log()) == writes(old(self).log()),
            copies(final(self).log()) == copies(old(self).log()),
            final(self).ready() == old(self).ready(),
            final(self).previous == old(self).previous,
            old(self).linked() ==> final(self).linked() && later(
                old(self).states(),
                final(self).states(),
            ),
    {
        let status: u32 = self.reg(STATUS)?;
        if status & STATE_MASK != 0 {
            Err("SE is not idle")
        } else {
            Ok(())
        }
    }

    /// Enables the source, instantiates the generator and asks it once.
    fn bring_up(&mut self) -> (r: Result<(), &'static str>)
        requires
            old(self).wf(),
            old(self).log() == Seq::<Event>::empty(),
            old(self).previous() is None,
        ensures
            final(self).wf(),
            later(old(self).states(), final(self).states()),
            came_up(final(self).log(), r),
            r is Ok ==> {
                &&& final(self).ready()
                &&& copies(final(self).log()).len() == 2
                &&& copies(final(self).log())[1].len() == 16
                &&& all_plausible(None, copies(final(self).log())[1])
                &&& final(self).previous() == Some(copies(final(self).log())[1])
                &&& initialized(final(self).log())
            },
    {
        let asked = self.reg(SECURITY);
        let ghost security = self.log()[0]->Read_1;
        assert(self.log() =~= enabling(security, 0, 0, 0).take(1));
        let allowed: u32 = asked?;
        if allowed & 2 != 0 {
            return Err("SE is disabled by firmware");
        }
        let idle = self.idle();
        let ghost status = self.log()[1]->Read_1;
        assert(self.log() =~= enabling(security, status, 0, 0).take(2));
        idle?;
        // The firmware's lock and subsampling of the source stay as they are.
        let found = self.reg(RNG_SOURCE);
        let ghost old_source = self.log()[2]->Read_1;
        assert(self.log() =~= enabling(security, status, old_source, 0).take(3));
        let source: u32 = found?;
        self.write(RNG_SOURCE, source | ENTROPY_ENABLE);
        let back = self.reg(RNG_SOURCE);
        let ghost new_source = self.log()[4]->Read_1;
        assert(self.log() =~= enabling(security, status, source, new_source).take(5));
        let enabled: u32 = back?;
        if enabled & ENTROPY_ENABLE == 0 {
            return Err("SE entropy source is locked off");
        }
        self.write(INT_ENABLE, 0);
        self.write(RESEED_INTERVAL, RESEED_BLOCKS);
        let ghost prefix = seq![
            (RNG_SOURCE, source | ENTROPY_ENABLE),
            (INT_ENABLE, 0u32),
            (RESEED_INTERVAL, RESEED_BLOCKS),
        ];
        let ghost ready = self.log();
        assert(ready =~= enabling(security, status, source, enabled));
        assert(writes(self.log()) =~= prefix);
        assert(self.log()[0] == Event::Read(SECURITY, security));
        let mut discarded: Vec<u8> = vec![0; 16];
        let instantiated = self.execute(INSTANTIATE, &mut discarded);
        if let Err(e) = instantiated {
            assert(ran(ready, self.log(), INSTANTIATE, 16, discarded@, instantiated));
            assert(warmed_up(ready, self.log(), instantiated));
            return Err(e);
        }
        let ghost first = self.log();
        let ghost thrown = discarded@;
        assert(ran(ready, first, INSTANTIATE, 16, thrown, Ok(())));
        discarded = vec![0; 16];
        let asked_once = self.execute(0, &mut discarded);
        assert(ran(first, self.log(), 0, 16, discarded@, asked_once));
        if let Err(e) = asked_once {
            assert(warmed_up(ready, self.log(), asked_once));
            return Err(e);
        }
        proof {
            let (d, e, i) = choose|d: u32, e: u32, i: u32|
                writes(first) == prefix + #[trigger] start_writes(INSTANTIATE, 16, d, e, i)
                    && acknowledged(first, 8, 16, d, e, i);
            let (x, y, z) = choose|d: u32, e: u32, i: u32|
                writes(self.log()) == writes(first) + #[trigger] start_writes(0, 16, d, e, i)
                    && acknowledged(self.log(), first.len() as int + 1, 16, d, e, i);
            assert(self.log()[2] == first[2]);
            assert(self.log()[8] == first[8]);
            assert(self.log()[15] == first[15]);
            assert(self.log()[16] == first[16]);
            assert(begun(self.log(), source, d, e, i, x, y, z));
        }
        let mut checked = Err("SE RNG hardware error");
        if discarded.len() == 16 {
            checked = self.check_blocks(discarded.as_slice());
        }
        assert(warmed_up(ready, self.log(), checked));
        checked?;
        self.ready = true;
        Ok(())
    }

    /// Starts a new device with entropy of its own: no state of the firmware is
    /// taken over, nothing is seeded from clocks or identifiers, and the first
    /// output is thrown away.
    pub fn initialize(io: T) -> (r: Result<Self, &'static str>)
        ensures
            r matches Ok(engine) ==> {
                &&& engine.wf()
                &&& engine.states()[0] == io
                &&& engine.ready()
                &&& copies(engine.log()).len() == 2
                &&& copies(engine.log())[1].len() == 16
                &&& all_plausible(None, copies(engine.log())[1])
                &&& engine.previous() == Some(copies(engine.log())[1])
                &&& initialized(engine.log())
                &&& came_up(engine.log(), Ok(()))
            },
            // Both blocks that are thrown away are what the transport copied.
            r matches Ok(engine) ==> forall|k: int|
                0 <= k < 2 ==> exists|io: &mut T, place: &mut [u8]|
                    call_ensures(T::copy_output, (io, place), ()) && final(place)@
                        == #[trigger] copies(engine.log())[k],
            // What the transport answered is all that speaks against a device.
            r matches Err(e) ==> was_turned_down::<T>(io, e),
    {
        let ghost first = io;
        let ghost states = seq![first];
        let mut engine = Engine {
            io,
            ready: false,
            previous: None,
            log: Ghost(Seq::empty()),
            states: Ghost(states),
        };
        let result = engine.bring_up();
        assert(came_up(engine.log(), result));
        proof {
            if result is Ok {
                lemma_copies_were_made::<T>(engine.log(), engine.states());
                assert forall|k: int| 0 <= k < 2 implies exists|io: &mut T, place: &mut [u8]|
                    call_ensures(T::copy_output, (io, place), ()) && final(place)@
                        == #[trigger] copies(engine.log())[k] by {
                    assert(was_copied::<T>(copies(engine.log())[k]));
                    let (a, b) = choose|a: T, b: T| #[trigger]
                        copied(a, copies(engine.log())[k], b);
                    copies_are_what_the_transport_gave(a, copies(engine.log())[k], b);
                }
            }
        }
        match result {
            Ok(_) => Ok(engine),
            Err(e) => {
                assert(came_up(engine.log(), Err(e)));
                assert(was_turned_down::<T>(first, e));
                Err(e)
            },
        }
    }

    pub fn is_available(&self) -> (r: bool)
        ensures
            r == self.ready(),
    {
        self.ready
    }

    /// Gives at most `MAX_BYTES`, out of what the transport copied. A failed transaction contributes no bytes and
    /// disables this instance for good; the caller's buffer then stays as it was.
    pub fn read_entropy(&mut self, output: &mut [u8]) -> (r: Result<usize, &'static str>)
        requires
            old(self).wf(),
        ensures
            final(self).wf(),
            later(old(self).states(), final(self).states()),
            final(output)@.len() == old(output)@.len(),
            old(output)@.len() == 0 ==> r == Ok::<usize, &'static str>(0) && *final(self) == *old(
                self,
            ),
            old(output)@.len() > 0 && !old(self).ready() ==> r == Err::<usize, &'static str>(
                "SE RNG is unavailable",
            ) && *final(self) == *old(self),
            r is Err ==> final(output)@ == old(output)@ && !final(self).ready(),
            r is Err && old(self).ready() ==> final(self).previous() is None,
            // A transaction that failed copies nothing, and is told to stop once it was started.
            r is Err && old(self).ready() && final(self).log().last() !is Copied ==> copies(
                final(self).log(),
            ) == copies(old(self).log()) && stopped(
                writes(old(self).log()),
                writes(final(self).log()),
            ),
            // One transaction, of so many whole blocks as the request needs, decides.
            old(output)@.len() > 0 && old(self).ready() ==> exists|
                bytes: Seq<u8>,
                q: Result<(), &'static str>,
            | #[trigger]
                ran(
                    old(self).log(),
                    final(self).log(),
                    0,
                    rounded(granted(old(output)@.len())) as usize,
                    bytes,
                    q,
                ) && r == answer(
                    old(self).previous(),
                    granted(old(output)@.len()),
                    bytes,
                    q,
                ),
            r is Ok && old(output)@.len() > 0 ==> exists|descriptor: u32, errors: u32, interrupts: u32|
                writes(final(self).log()) == writes(old(self).log()) + #[trigger] start_writes(
                    0,
                    rounded(granted(old(output)@.len())),
                    descriptor,
                    errors,
                    interrupts,
                ) && acknowledged(
                    final(self).log(),
                    old(self).log().len() as int + 1,
                    rounded(granted(old(output)@.len())) as usize,
                    descriptor,
                    errors,
                    interrupts,
                ),
            r matches Ok(n) ==> n == granted(old(output)@.len()),
            r is Ok && old(output)@.len() > 0 ==> exists|io: &mut T, place: &mut [u8]| #[trigger]
                call_ensures(T::copy_output, (io, place), ()) && *final(io) == final(self).transport()
                    && final(place)@ == final(self).log().last()->Copied_0,
            served(*old(self), old(output)@.len(), *final(self), r),
            r is Ok && old(output)@.len() > 0 ==> {
                let bytes = final(self).log().last()->Copied_0;
                &&& final(self).ready()
                &&& final(self).log().last() is Copied
                &&& copies(final(self).log()) == copies(old(self).log()).push(bytes)
                &&& retired(final(self).log().drop_last(), old(self).log().len() as int)
                &&& bytes.len() == rounded(granted(old(output)@.len()))
                &&& all_plausible(old(self).previous(), bytes)
                &&& final(self).previous() == Some(block(bytes, bytes.len() as int / 16 - 1))
                &&& forall|i: int|
                    0 <= i < final(output)@.len() ==> #[trigger] final(output)@[i] == if i
                        < granted(old(output)@.len()) {
                        bytes[i]
                    } else {
                        old(output)@[i]
                    }
            },
    {
        let length: usize = output.len();
        if length == 0 {
            return Ok(0);
        }
        if !self.ready {
            return Err("SE RNG is unavailable");
        }
        let count: usize = if length < MAX_BYTES {
            length
        } else {
            MAX_BYTES
        };
        let size: usize = (count + 15) / 16 * 16;
        let mut staging: Vec<u8> = vec![0; size];
        let mut result = self.execute(0, &mut staging);
        let ghost q = result;
        let ghost bytes = staging@;
        proof {
            assert(size == rounded(granted(length as nat)));
            assert(size == rounded(granted(old(output)@.len())) as usize);
            assert(ran(old(self).log(), self.log(), 0, size, bytes, q));
        }
        if staging.len() != size {
            result = Err("SE RNG hardware error");
        }
        if result.is_ok() {
            result = self.check_blocks(staging.as_slice());
        }
        if let Err(error) = result {
            self.ready = false;
            self.previous = None;
            assert(Err::<usize, &'static str>(error) == answer(
                old(self).previous(),
                granted(old(output)@.len()),
                bytes,
                q,
            ));
            return Err(error);
        }
        let mut i: usize = 0;
        while i < count
            invariant
                i <= count,
                count <= length,
                count <= staging.len(),
                output@.len() == length,
                old(output)@.len() == length,
                forall|j: int|
                    0 <= j < length ==> #[trigger] output@[j] == if j < i {
                        staging@[j]
                    } else {
                        old(output)@[j]
                    },
            decreases count - i,
        {
            output[i] = staging[i];
            i = i + 1;
        }
        assert(Ok::<usize, &'static str>(count) == answer(
            old(self).previous(),
            granted(old(output)@.len()),
            bytes,
            q,
        ));
        Ok(count)
    }

    /// Runs one transaction. Only output of a transaction that retired is copied;
    /// one that was started and failed is told to stop.
    #[verifier::rlimit(60)]
    fn execute(&mut self, mode: u32, output: &mut Vec<u8>) -> (r: Result<(), &'static str>)
        requires
            old(self).wf(),
            16 <= old(output)@.len() <= 256,
            old(output)@.len() % 16 == 0,
        ensures
            final(self).wf(),
            final(self).ready() == old(self).ready(),
            final(self).previous == old(self).previous,
            extends(old(self).log(), final(self).log()),
            later(old(self).states(), final(self).states()),
            r is Ok ==> {
                &&& final(self).log().len() > 0
                &&& final(self).log().last() == Event::Copied(final(output)@)
                &&& copies(final(self).log()) == copies(old(self).log()).push(final(output)@)
                &&& retired(final(self).log().drop_last(), old(self).log().len() as int)
                &&& exists|descriptor: u32, errors: u32, interrupts: u32|
                    writes(final(self).log()) == writes(old(self).log()) + #[trigger] start_writes(
                        mode,
                        old(output)@.len(),
                        descriptor,
                        errors,
                        interrupts,
                    ) && acknowledged(
                        final(self).log(),
                        old(self).log().len() as int + 1,
                        old(output)@.len() as usize,
                        descriptor,
                        errors,
                        interrupts,
                    )
            },
            ran(old(self).log(), final(self).log(), mode, old(output)@.len() as usize, final(output)@, r),
            r is Ok ==> exists|io: &mut T, place: &mut [u8]| #[trigger]
                call_ensures(T::copy_output, (io, place), ()) && *final(io) == final(self).transport()
                    && final(place)@ == final(output)@,
            r is Ok ==> r == Ok::<(), &'static str>(()),
            r is Err ==> {
                &&& final(output)@ == old(output)@
                &&& copies(final(self).log()) == copies(old(self).log())
                &&& stopped(writes(old(self).log()), writes(final(self).log()))
            },
    {
        let size: usize = output.len();
        let ghost before = self.log();
        let idle = self.idle();
        let ghost status = self.log().last()->Read_1;
        let ghost asked = before.push(Event::Read(STATUS, status));
        assert(self.log() == asked);
        idle?;
        let storage = self.prepare(size);
        if let Err(e) = storage {
            assert(prepared_and_ran(asked, self.log(), mode, size, output@, Err(e)));
            return Err(e);
        }
        let descriptor: u32 = storage?;
        let ghost head = writes(self.log());
        self.write(CONFIG, RANDOM_TO_MEMORY);
        self.write(CRYPTO_CONFIG, ENCRYPT_RANDOM);
        self.write(RNG_CONFIG, ENTROPY_SOURCE | mode);
        self.write(LAST_BLOCK, (size / BLOCK_SIZE - 1) as u32);
        self.write(IN_LL, 0);
        self.write(OUT_LL, descriptor);
        let ghost whole = asked.push(Event::Prepared(size, Ok(descriptor))) + described(
            mode,
            size as nat,
            descriptor,
        );
        proof {
            let w = writes(self.log());
            assert(w =~= head + start_writes(mode, size as nat, descriptor, 0, 0).take(6));
            assert(self.log() =~= whole);
        }
        let seen_errors = self.reg(ERR_STATUS);
        if let Err(e) = seen_errors {
            assert(prepared_and_ran(asked, self.log(), mode, size, output@, Err(e)));
            return Err(e);
        }
        let errors: u32 = seen_errors?;
        let seen_interrupts = self.reg(INT_STATUS);
        if let Err(e) = seen_interrupts {
            assert(self.log() == whole.push(Event::Read(ERR_STATUS, errors)).push(
                Event::Read(INT_STATUS, u32::MAX),
            ));
            assert(prepared_and_ran(asked, self.log(), mode, size, output@, Err(e)));
            return Err(e);
        }
        let interrupts: u32 = seen_interrupts?;
        self.write(ERR_STATUS, errors);
        self.write(INT_STATUS, interrupts);
        self.write(OPERATION, 1);
        // The posted start has to arrive before completion is polled.
        let back: u32 = self.read(OPERATION);
        let ghost started = writes(self.log());
        assert(started =~= head + start_writes(
            mode,
            size as nat,
            descriptor,
            errors,
            interrupts,
        ));
        let ghost here = self.log();
        let ghost k = old(self).log().len() as int + 1;
        proof {
            assert(here =~= whole + launched(errors, interrupts, back));
            assert(here[k] == whole[k]);
            assert(acknowledged(here, k, size, descriptor, errors, interrupts));
        }
        let done = self.complete();
        let ghost ended = self.log();
        assert(completed(here, ended, done));
        if let Err(error) = done {
            self.write(OPERATION, 0);
            proof {
                assert(writes(self.log()) =~= head + start_writes(
                    mode,
                    size as nat,
                    descriptor,
                    errors,
                    interrupts,
                ).push((OPERATION, 0u32)));
                assert(ran_from(here, self.log(), output@, Err(error)));
                assert(prepared_and_ran(asked, self.log(), mode, size, output@, Err(error)));
            }
            return Err(error);
        }
        *output = self.copy(size);
        proof {
            assert(self.log()[k] == here[k]);
            assert(self.log()[k + 7] == here[k + 7]);
            assert(self.log()[k + 8] == here[k + 8]);
            assert(self.log().drop_last() =~= ended);
            assert(ran_from(here, self.log(), output@, Ok(())));
            assert(prepared_and_ran(asked, self.log(), mode, size, output@, Ok(())));
        }
        Ok(())
    }

    /// Waits for the end of a transaction that was started.
    fn complete(&mut self) -> (r: Result<(), &'static str>)
        ensures
            writes(final(self).log()) == writes(old(self).log()),
            copies(final(self).log()) == copies(old(self).log()),
            final(self).ready() == old(self).ready(),
            final(self).previous == old(self).previous,
            old(self).linked() ==> final(self).linked() && later(
                old(self).states(),
                final(self).states(),
            ),
            extends(old(self).log(), final(self).log()),
            completed(old(self).log(), final(self).log(), r),
            r is Ok ==> retired(final(self).log(), old(self).log().len() as int),
    {
        let start: u64 = self.now_ns();
        let ghost begin = old(self).log().len() as int;
        let ghost timed = self.log();
        assert(timed[begin] == Event::Time(start));
        let signal = self.done(start);
        let ghost seen = self.log();
        proof {
            assert(seen[begin] == timed[begin]);
            assert(signalled(timed, seen, start, signal));
        }
        if let Err(e) = signal {
            return Err(e);
        }
        assert(signalled(timed, seen, start, Ok(())));
        let ghost at = seen.len() - 2;
        let idle = self.idle();
        let ghost status = self.log().last()->Read_1;
        assert(self.log() == seen.push(Event::Read(STATUS, status)));
        idle?;
        // Completion can be signalled before the last write to memory has left.
        self.delay_us(SETTLE_US);
        let ghost settled = self.log();
        assert(settled == seen.push(Event::Read(STATUS, status)).push(Event::Delay(SETTLE_US)));
        let emptied = self.drain(start);
        proof {
            let after = self.log();
            assert(after[begin] == settled[begin]);
            assert(after[at] == settled[at] && settled[at] == seen[at]);
            assert(completed(old(self).log(), after, emptied));
        }
        emptied
    }

    /// Waits until both queues are empty.
    fn drain(&mut self, start: u64) -> (r: Result<(), &'static str>)
        ensures
            drained(old(self).log(), final(self).log(), start, r),
            r is Ok ==> r == Ok::<(), &'static str>(()),
            writes(final(self).log()) == writes(old(self).log()),
            copies(final(self).log()) == copies(old(self).log()),
            final(self).ready() == old(self).ready(),
            final(self).previous == old(self).previous,
            old(self).linked() ==> final(self).linked() && later(
                old(self).states(),
                final(self).states(),
            ),
    {
        let mut polls: u64 = u64::MAX;
        let ghost since = self.log().len() as int;
        let ghost mut looks: int = 0;
        while polls > 0
            invariant
                writes(self.log()) == writes(old(self).log()),
                copies(self.log()) == copies(old(self).log()),
                self.ready() == old(self).ready(),
                self.previous == old(self).previous,
                old(self).linked() ==> self.linked() && later(old(self).states(), self.states()),
                since == old(self).log().len(),
                looks == u64::MAX - polls,
                self.log().len() == since + 4 * looks,
                extends(old(self).log(), self.log()),
                forall|k: int| 0 <= k < looks ==> #[trigger] not_empty(self.log(), since, k, start),
            decreases polls,
        {
            let ghost before = self.log();
            let shown = self.reg(STATUS);
            if let Err(e) = shown {
                proof {
                    lemma_not_empty(before, self.log(), since, looks, start);
                    assert(empty_after(self.log(), since, looks, start, Err(e)));
                }
                return Err(e);
            }
            let status: u32 = shown?;
            let pending: u32 = self.pending();
            if pending == u32::MAX {
                proof {
                    lemma_not_empty(before, self.log(), since, looks, start);
                    assert(empty_after(
                        self.log(),
                        since,
                        looks,
                        start,
                        Err("SE AHB status is unreadable"),
                    ));
                }
                return Err("SE AHB status is unreadable");
            }
            if status & MEM_BUSY == 0 && pending & QUEUE_BUSY == 0 {
                proof {
                    lemma_not_empty(before, self.log(), since, looks, start);
                    assert(empty_after(self.log(), since, looks, start, Ok(())));
                }
                return Ok(());
            }
            let now: u64 = self.now_ns();
            if now.wrapping_sub(start) >= TIMEOUT_NS {
                proof {
                    lemma_not_empty(before, self.log(), since, looks, start);
                    assert(empty_after(
                        self.log(),
                        since,
                        looks,
                        start,
                        Err("SE RNG DMA retirement timed out"),
                    ));
                }
                return Err("SE RNG DMA retirement timed out");
            }
            self.delay_us(1);
            polls = polls - 1;
            proof {
                lemma_not_empty(before, self.log(), since, looks, start);
                assert(not_empty(self.log(), since, looks, start));
                looks = looks + 1;
            }
        }
        assert(empty_after(
            self.log(),
            since,
            looks,
            start,
            Err("SE RNG DMA retirement timed out"),
        ));
        Err("SE RNG DMA retirement timed out")
    }

    /// Waits until the device says that it is done.
    fn done(&mut self, start: u64) -> (r: Result<(), &'static str>)
        ensures
            signalled(old(self).log(), final(self).log(), start, r),
            r is Ok ==> r == Ok::<(), &'static str>(()),
            writes(final(self).log()) == writes(old(self).log()),
            copies(final(self).log()) == copies(old(self).log()),
            final(self).ready() == old(self).ready(),
            final(self).previous == old(self).previous,
            old(self).linked() ==> final(self).linked() && later(
                old(self).states(),
                final(self).states(),
            ),
            r is Ok ==> final(self).log().len() >= old(self).log().len() + 2 && (final(self).log()[
                final(self).log().len() - 2] matches Event::Read(o, status) && o == INT_STATUS
                && status & OP_DONE != 0 && status & INT_ERROR == 0),
    {
        let mut polls: u64 = u64::MAX;
        let ghost since = self.log().len() as int;
        let ghost mut looks: int = 0;
        while polls > 0
            invariant
                writes(self.log()) == writes(old(self).log()),
                copies(self.log()) == copies(old(self).log()),
                self.ready() == old(self).ready(),
                self.previous == old(self).previous,
                old(self).linked() ==> self.linked() && later(old(self).states(), self.states()),
                since == old(self).log().len(),
                looks == u64::MAX - polls,
                self.log().len() == since + 4 * looks,
                extends(old(self).log(), self.log()),
                forall|k: int| 0 <= k < looks ==> #[trigger] not_done(self.log(), since, k, start),
            decreases polls,
        {
            let ghost before = self.log();
            let shown = self.reg(INT_STATUS);
            if let Err(e) = shown {
                proof {
                    lemma_not_done(before, self.log(), since, looks, start);
                    assert(done_after(self.log(), since, looks, start, Err(e)));
                }
                return Err(e);
            }
            let status: u32 = shown?;
            if status & INT_ERROR != 0 {
                proof {
                    lemma_not_done(before, self.log(), since, looks, start);
                    assert(done_after(
                        self.log(),
                        since,
                        looks,
                        start,
                        Err("SE RNG hardware error"),
                    ));
                }
                return Err("SE RNG hardware error");
            }
            let wrong = self.reg(ERR_STATUS);
            if let Err(e) = wrong {
                proof {
                    lemma_not_done(before, self.log(), since, looks, start);
                    assert(done_after(self.log(), since, looks, start, Err(e)));
                }
                return Err(e);
            }
            let errors: u32 = wrong?;
            if errors != 0 {
                proof {
                    lemma_not_done(before, self.log(), since, looks, start);
                    assert(done_after(
                        self.log(),
                        since,
                        looks,
                        start,
                        Err("SE RNG hardware error"),
                    ));
                }
                return Err("SE RNG hardware error");
            }
            if status & OP_DONE != 0 {
                proof {
                    lemma_not_done(before, self.log(), since, looks, start);
                    assert(done_after(self.log(), since, looks, start, Ok(())));
                }
                return Ok(());
            }
            let now: u64 = self.now_ns();
            if now.wrapping_sub(start) >= TIMEOUT_NS {
                proof {
                    lemma_not_done(before, self.log(), since, looks, start);
                    assert(done_after(
                        self.log(),
                        since,
                        looks,
                        start,
                        Err("SE RNG operation timed out"),
                    ));
                }
                return Err("SE RNG operation timed out");
            }
            self.delay_us(1);
            polls = polls - 1;
            proof {
                lemma_not_done(before, self.log(), since, looks, start);
                assert(not_done(self.log(), since, looks, start));
                looks = looks + 1;
            }
        }
        assert(done_after(self.log(), since, looks, start, Err("SE RNG operation timed out")));
        Err("SE RNG operation timed out")
    }

    fn check_blocks(&mut self, bytes: &[u8]) -> (r: Result<(), &'static str>)
        requires
            bytes@.len() % 16 == 0,
        ensures
            final(self).log() == old(self).log(),
            final(self).states() == old(self).states(),
            final(self).ready() == old(self).ready(),
            final(self).transport() == old(self).transport(),
            r == if all_plausible(old(self).previous(), bytes@) {
                Ok::<(), &'static str>(())
            } else {
                Err::<(), &'static str>("SE RNG repeated or stuck output")
            },
            r is Ok ==> final(self).previous() == before(
                old(self).previous(),
                bytes@,
                bytes@.len() as int / 16,
            ),
    {
        let length: usize = bytes.len();
        let count: usize = length / 16;
        let mut k: usize = 0;
        while k < count
            invariant
                k <= count,
                length == bytes@.len(),
                count == bytes@.len() / 16,
                bytes@.len() % 16 == 0,
                self.log() == old(self).log(),
                self.states() == old(self).states(),
                self.ready() == old(self).ready(),
                self.transport() == old(self).transport(),
                self.previous() == before(old(self).previous(), bytes@, k as int),
                forall|j: int|
                    0 <= j < k ==> #[trigger] plausible(old(self).previous(), bytes@, j),
            decreases count - k,
        {
            let mut current: [u8; 16] = [0; 16];
            let mut i: usize = 0;
            while i < 16
                invariant
                    i <= 16,
                    k < count,
                    count == bytes@.len() / 16,
                    length == bytes@.len(),
                    forall|j: int| 0 <= j < i ==> #[trigger] current@[j] == bytes@[16 * k + j],
                decreases 16 - i,
            {
                current[i] = bytes[16 * k + i];
                i = i + 1;
            }
            assert(current@ =~= block(bytes@, k as int));
            let repeated: bool = match &self.previous {
                None => false,
                Some(previous) => same(previous, &current),
            };
            if is_uniform(&current, 0) || is_uniform(&current, 255) || repeated {
                assert(!plausible(old(self).previous(), bytes@, k as int));
                return Err("SE RNG repeated or stuck output");
            }
            assert(plausible(old(self).previous(), bytes@, k as int));
            self.previous = Some(current);
            k = k + 1;
        }
        Ok(())
    }
}

/// What a request of so many bytes does to the availability of a device.
pub open spec fn served<T: Transport>(
    before: Engine<T>,
    length: nat,
    after: Engine<T>,
    r: Result<usize, &'static str>,
) -> bool {
    if length == 0 {
        r == Ok::<usize, &'static str>(0) && after == before
    } else if !before.ready() {
        r == Err::<usize, &'static str>("SE RNG is unavailable") && after == before
    } else {
        after.ready() == r is Ok
    }
}

/// Of two requests, one that failed makes the other fail, whatever the device would have
/// answered; one that was met leaves the device available.
pub proof fn a_failure_is_for_good<T: Transport>(
    before: Engine<T>,
    first: nat,
    between: Engine<T>,
    q: Result<usize, &'static str>,
    second: nat,
    after: Engine<T>,
    r: Result<usize, &'static str>,
)
    requires
        served(before, first, between, q),
        served(between, second, after, r),
    ensures
        q is Err ==> !between.ready() && after == between,
        q is Err && second > 0 ==> r == Err::<usize, &'static str>("SE RNG is unavailable"),
        q is Ok && first > 0 ==> between.ready(),
        r is Ok && second > 0 ==> between.ready() && q is Ok,
{
}

/// After a request that failed no later one gets a byte, however many are made.
pub proof fn a_failure_outlasts_every_request<T: Transport>(
    states: Seq<Engine<T>>,
    lengths: Seq<nat>,
    results: Seq<Result<usize, &'static str>>,
    failed: int,
    later: int,
)
    requires
        states.len() == lengths.len() + 1,
        results.len() == lengths.len(),
        forall|i: int|
            0 <= i < lengths.len() ==> #[trigger] served(
                states[i],
                lengths[i],
                states[i + 1],
                results[i],
            ),
        0 <= failed < later < lengths.len(),
        results[failed] is Err,
        lengths[later] > 0,
    ensures
        results[later] == Err::<usize, &'static str>("SE RNG is unavailable"),
        states[later + 1] == states[failed + 1],
{
    lemma_stays_unavailable(states, lengths, results, failed, later);
    assert(served(states[later], lengths[later], states[later + 1], results[later]));
}

/// Nothing that is asked of an unavailable device changes it.
proof fn lemma_stays_unavailable<T: Transport>(
    states: Seq<Engine<T>>,
    lengths: Seq<nat>,
    results: Seq<Result<usize, &'static str>>,
    failed: int,
    later: int,
)
    requires
        states.len() == lengths.len() + 1,
        results.len() == lengths.len(),
        forall|i: int|
            0 <= i < lengths.len() ==> #[trigger] served(
                states[i],
                lengths[i],
                states[i + 1],
                results[i],
            ),
        0 <= failed < later <= lengths.len(),
        results[failed] is Err,
    ensures
        !states[later].ready(),
        states[later] == states[failed + 1],
    decreases later - failed,
{
    let i = later - 1;
    if i > failed {
        lemma_stays_unavailable(states, lengths, results, failed, i);
    }
    assert(served(states[i], lengths[i], states[i + 1], results[i]));
}

/// The transport copied so in some state.
spec fn was_copied<T: Transport>(bytes: Seq<u8>) -> bool {
    exists|before: T, after: T| #[trigger] copied(before, bytes, after)
}

/// Everything that a record shows as copied was copied.
proof fn lemma_copies_were_made<T: Transport>(log: Log, states: Seq<T>)
    requires
        answered::<T>(log, states),
    ensures
        forall|k: int| 0 <= k < copies(log).len() ==> was_copied::<T>(#[trigger] copies(log)[k]),
    decreases log.len(),
{
    if log.len() > 0 {
        let rest = log.drop_last();
        let fewer = states.drop_last();
        assert forall|i: int| 0 <= i < rest.len() implies happened::<T>(
            fewer[i],
            #[trigger] rest[i],
            fewer[i + 1],
        ) by {
            assert(rest[i] == log[i]);
        }
        lemma_copies_were_made::<T>(rest, fewer);
        let n = log.len() - 1;
        assert(happened::<T>(states[n], log[n], states[n + 1]));
        assert forall|k: int| 0 <= k < copies(log).len() implies was_copied::<T>(
            #[trigger] copies(log)[k],
        ) by {
            if k < copies(rest).len() {
                assert(copies(log)[k] == copies(rest)[k]);
            }
        }
    }
}

/// What a register that reads as ones throughout is called.
pub open spec fn is_unreadable(value: u32, e: &'static str) -> bool {
    value == u32::MAX && e == "SE register is unreadable"
}

/// The time since a transaction was started is up.
pub open spec fn is_late(start: u64, now: u64) -> bool {
    now.wrapping_sub(start) >= TIMEOUT_NS
}

/// What the status register says against a transaction.
pub open spec fn busy(status: u32) -> Option<&'static str> {
    if status == u32::MAX {
        Some("SE register is unreadable")
    } else if status & STATE_MASK != 0 {
        Some("SE is not idle")
    } else {
        None
    }
}

/// The device shows no error.
pub open spec fn is_sound(log: Log, at: int) -> bool {
    &&& log[at] matches Event::Read(o, status) && o == INT_STATUS && status != u32::MAX && status
        & INT_ERROR == 0
    &&& log[at + 1] == Event::Read(ERR_STATUS, 0)
}

/// The device says that it is done.
pub open spec fn says_done(log: Log, at: int) -> bool {
    log[at] matches Event::Read(_, status) && status & OP_DONE != 0
}

/// One look at a device that is not done, in time.
pub open spec fn not_done(log: Log, since: int, k: int, start: u64) -> bool {
    let at = since + 4 * k;
    &&& is_sound(log, at)
    &&& !says_done(log, at)
    &&& log[at + 2] matches Event::Time(now) && !is_late(start, now)
    &&& log[at + 3] == Event::Delay(1)
}

/// After so many looks the device is done, shows an error, or is too late. A clock that
/// never gets there ends the looks as well.
pub open spec fn done_after(
    log: Log,
    since: int,
    looks: int,
    start: u64,
    r: Result<(), &'static str>,
) -> bool {
    let at = since + 4 * looks;
    &&& 0 <= looks
    &&& forall|k: int| 0 <= k < looks ==> #[trigger] not_done(log, since, k, start)
    &&& match r {
        Ok(_) => log.len() == at + 2 && is_sound(log, at) && says_done(log, at),
        Err(e) => {
            ||| log.len() == at + 1 && (log[at] matches Event::Read(o, status) && o == INT_STATUS
                && (is_unreadable(status, e) || status != u32::MAX && status & INT_ERROR != 0 && e
                == "SE RNG hardware error"))
            ||| log.len() == at + 2 && (log[at] matches Event::Read(o, status) && o == INT_STATUS
                && status != u32::MAX && status & INT_ERROR == 0) && (log[at
                + 1] matches Event::Read(o, errors) && o == ERR_STATUS && (is_unreadable(errors, e)
                || errors != u32::MAX && errors != 0 && e == "SE RNG hardware error"))
            ||| e == "SE RNG operation timed out" && log.len() == at + 3 && is_sound(log, at)
                && !says_done(log, at) && (log[at + 2] matches Event::Time(now) && is_late(
                start,
                now,
            ))
            ||| e == "SE RNG operation timed out" && log.len() == at && looks == u64::MAX
        },
    }
}

/// The whole wait for the device to be done.
pub open spec fn signalled(
    before: Log,
    after: Log,
    start: u64,
    r: Result<(), &'static str>,
) -> bool {
    &&& extends(before, after)
    &&& exists|looks: int| #[trigger] done_after(after, before.len() as int, looks, start, r)
}

/// Both queues were looked at, and are empty or not.
pub open spec fn queues(log: Log, at: int, empty: bool) -> bool {
    log[at] matches Event::Read(o, status) && o == STATUS && status != u32::MAX && (log[at
        + 1] matches Event::Pending(pending) && pending != u32::MAX && empty == (status & MEM_BUSY
        == 0 && pending & QUEUE_BUSY == 0))
}

/// One look at queues that are not empty, in time.
pub open spec fn not_empty(log: Log, since: int, k: int, start: u64) -> bool {
    let at = since + 4 * k;
    &&& queues(log, at, false)
    &&& log[at + 2] matches Event::Time(now) && !is_late(start, now)
    &&& log[at + 3] == Event::Delay(1)
}

/// After so many looks the queues are empty, unreadable, or too late: the first look that
/// finds them empty is the last.
pub open spec fn empty_after(
    log: Log,
    since: int,
    looks: int,
    start: u64,
    r: Result<(), &'static str>,
) -> bool {
    let at = since + 4 * looks;
    &&& 0 <= looks
    &&& forall|k: int| 0 <= k < looks ==> #[trigger] not_empty(log, since, k, start)
    &&& match r {
        Ok(_) => log.len() == at + 2 && queues(log, at, true),
        Err(e) => {
            ||| log.len() == at + 1 && (log[at] matches Event::Read(o, status) && o == STATUS
                && is_unreadable(status, e))
            ||| log.len() == at + 2 && e == "SE AHB status is unreadable" && (
            log[at] matches Event::Read(o, status) && o == STATUS && status != u32::MAX) && log[at
                + 1] == Event::Pending(u32::MAX)
            ||| e == "SE RNG DMA retirement timed out" && log.len() == at + 3 && queues(
                log,
                at,
                false,
            ) && (log[at + 2] matches Event::Time(now) && is_late(start, now))
            ||| e == "SE RNG DMA retirement timed out" && log.len() == at && looks == u64::MAX
        },
    }
}

/// The whole wait for the queues to be empty.
pub open spec fn drained(
    before: Log,
    after: Log,
    start: u64,
    r: Result<(), &'static str>,
) -> bool {
    &&& extends(before, after)
    &&& exists|looks: int| #[trigger] empty_after(after, before.len() as int, looks, start, r)
}

/// The end of a transaction that was started, from the first look at the clock on: the
/// device is done, it is idle, and both its queues are empty.
pub open spec fn completed(before: Log, after: Log, r: Result<(), &'static str>) -> bool {
    after.len() > before.len() && (after[before.len() as int] matches Event::Time(start) && {
        ||| r is Err && signalled(before.push(Event::Time(start)), after, start, r)
        ||| exists|a: Log, status: u32| #[trigger]
            signalled(before.push(Event::Time(start)), a, start, Ok(())) && if busy(
                status,
            ) is Some {
                r == Err::<(), &'static str>(busy(status)->0) && after == #[trigger] a.push(
                    Event::Read(STATUS, status),
                )
            } else {
                drained(
                    a.push(Event::Read(STATUS, status)).push(Event::Delay(SETTLE_US)),
                    after,
                    start,
                    r,
                )
            }
    })
}

/// What describes a transaction, as it is written.
pub open spec fn described(mode: u32, length: nat, descriptor: u32) -> Log {
    seq![
        Event::Write(CONFIG, RANDOM_TO_MEMORY),
        Event::Write(CRYPTO_CONFIG, ENCRYPT_RANDOM),
        Event::Write(RNG_CONFIG, ENTROPY_SOURCE | mode),
        Event::Write(LAST_BLOCK, (length / 16 - 1) as u32),
        Event::Write(IN_LL, 0u32),
        Event::Write(OUT_LL, descriptor),
    ]
}

/// What acknowledges the past and starts a transaction.
pub open spec fn launched(errors: u32, interrupts: u32, back: u32) -> Log {
    seq![
        Event::Read(ERR_STATUS, errors),
        Event::Read(INT_STATUS, interrupts),
        Event::Write(ERR_STATUS, errors),
        Event::Write(INT_STATUS, interrupts),
        Event::Write(OPERATION, 1u32),
        Event::Read(OPERATION, back),
    ]
}

/// A transaction that came to its start.
pub open spec fn ran_from(
    started: Log,
    after: Log,
    output: Seq<u8>,
    r: Result<(), &'static str>,
) -> bool {
    exists|end: Log, q: Result<(), &'static str>| #[trigger]
        completed(started, end, q) && match q {
            Ok(_) => r is Ok && after == end.push(Event::Copied(output)),
            Err(e) => r == Err::<(), &'static str>(e) && after == end.push(
                Event::Write(OPERATION, 0),
            ),
        }
}

/// A transaction from its first exchange to its last: the device is idle, storage is
/// prepared, the transaction is described, started and completed, and its output is
/// copied. One that was started and failed is told to stop, and nothing is copied.
pub open spec fn ran(
    before: Log,
    after: Log,
    mode: u32,
    size: usize,
    output: Seq<u8>,
    r: Result<(), &'static str>,
) -> bool {
    exists|status: u32|
        {
            let asked = #[trigger] before.push(Event::Read(STATUS, status));
            if busy(status) is Some {
                after == asked && r == Err::<(), &'static str>(busy(status)->0)
            } else {
                prepared_and_ran(asked, after, mode, size, output, r)
            }
        }
}

/// A transaction of an idle device.
pub open spec fn prepared_and_ran(
    asked: Log,
    after: Log,
    mode: u32,
    size: usize,
    output: Seq<u8>,
    r: Result<(), &'static str>,
) -> bool {
    ||| r matches Err(e) && after == asked.push(Event::Prepared(size, Err(e)))
    ||| exists|descriptor: u32|
        {
            let head = asked.push(Event::Prepared(size, Ok(descriptor))) + #[trigger] described(
                mode,
                size as nat,
                descriptor,
            );
            ||| r == Err::<(), &'static str>("SE register is unreadable") && after == head.push(
                Event::Read(ERR_STATUS, u32::MAX),
            )
            ||| r == Err::<(), &'static str>("SE register is unreadable") && exists|errors: u32|
                errors != u32::MAX && after == #[trigger] head.push(
                    Event::Read(ERR_STATUS, errors),
                ).push(Event::Read(INT_STATUS, u32::MAX))
            ||| exists|errors: u32, interrupts: u32, back: u32|
                errors != u32::MAX && interrupts != u32::MAX && ran_from(
                    head + #[trigger] launched(errors, interrupts, back),
                    after,
                    output,
                    r,
                )
        }
}

/// Looks at a device that is not done stay in the record.
proof fn lemma_not_done(before: Log, after: Log, since: int, looks: int, start: u64)
    requires
        extends(before, after),
        0 <= since,
        since + 4 * looks <= before.len(),
        forall|k: int| 0 <= k < looks ==> #[trigger] not_done(before, since, k, start),
    ensures
        forall|k: int| 0 <= k < looks ==> #[trigger] not_done(after, since, k, start),
{
    assert forall|k: int| 0 <= k < looks implies #[trigger] not_done(after, since, k, start) by {
        assert(not_done(before, since, k, start));
        let at = since + 4 * k;
        assert(after[at] == before[at]);
        assert(after[at + 1] == before[at + 1]);
        assert(after[at + 2] == before[at + 2]);
        assert(after[at + 3] == before[at + 3]);
    }
}

/// Looks at queues that are not empty stay in the record.
proof fn lemma_not_empty(before: Log, after: Log, since: int, looks: int, start: u64)
    requires
        extends(before, after),
        0 <= since,
        since + 4 * looks <= before.len(),
        forall|k: int| 0 <= k < looks ==> #[trigger] not_empty(before, since, k, start),
    ensures
        forall|k: int| 0 <= k < looks ==> #[trigger] not_empty(after, since, k, start),
{
    assert forall|k: int| 0 <= k < looks implies #[trigger] not_empty(after, since, k, start) by {
        assert(not_empty(before, since, k, start));
        let at = since + 4 * k;
        assert(after[at] == before[at]);
        assert(after[at + 1] == before[at + 1]);
        assert(after[at + 2] == before[at + 2]);
        assert(after[at + 3] == before[at + 3]);
    }
}

/// Storage was prepared, and what was pending was acknowledged as it was read.
pub open spec fn acknowledged(
    log: Log,
    k: int,
    size: usize,
    descriptor: u32,
    errors: u32,
    interrupts: u32,
) -> bool {
    &&& 0 <= k && k + 8 < log.len()
    &&& log[k] == Event::Prepared(size, Ok(descriptor))
    &&& log[k + 7] == Event::Read(ERR_STATUS, errors)
    &&& log[k + 8] == Event::Read(INT_STATUS, interrupts)
}

/// What an initialization does before its first transaction.
pub open spec fn enabling(security: u32, status: u32, source: u32, enabled: u32) -> Log {
    seq![
        Event::Read(SECURITY, security),
        Event::Read(STATUS, status),
        Event::Read(RNG_SOURCE, source),
        Event::Write(RNG_SOURCE, source | ENTROPY_ENABLE),
        Event::Read(RNG_SOURCE, enabled),
        Event::Write(INT_ENABLE, 0),
        Event::Write(RESEED_INTERVAL, RESEED_BLOCKS),
    ]
}

/// What the readings before the first transaction say against it, and after how many
/// exchanges: a disabled, unreadable or busy device is left before anything is written.
pub open spec fn objection(security: u32, status: u32, source: u32, enabled: u32) -> Option<
    (int, &'static str),
> {
    if security == u32::MAX {
        Some((1, "SE register is unreadable"))
    } else if security & 2 != 0 {
        Some((1, "SE is disabled by firmware"))
    } else if busy(status) is Some {
        Some((2, busy(status)->0))
    } else if source == u32::MAX {
        Some((3, "SE register is unreadable"))
    } else if enabled == u32::MAX {
        Some((5, "SE register is unreadable"))
    } else if enabled & ENTROPY_ENABLE == 0 {
        Some((5, "SE entropy source is locked off"))
    } else {
        None
    }
}

/// Both transactions of an initialization: the first output is thrown away, the second
/// has to be plausible.
pub open spec fn warmed_up(before: Log, log: Log, r: Result<(), &'static str>) -> bool {
    ||| exists|first: Seq<u8>| r is Err && #[trigger] ran(before, log, INSTANTIATE, 16, first, r)
    ||| exists|middle: Log, first: Seq<u8>, output: Seq<u8>, q: Result<(), &'static str>|
        {
            &&& #[trigger] ran(before, middle, INSTANTIATE, 16, first, Ok(()))
            &&& #[trigger] ran(middle, log, 0, 16, output, q)
            &&& r == match answer(None, 16, output, q) {
                Err(e) => Err::<(), &'static str>(e),
                Ok(_) => Ok(()),
            }
        }
}

/// An initialization from its first exchange to its last.
pub open spec fn came_up(log: Log, r: Result<(), &'static str>) -> bool {
    exists|security: u32, status: u32, source: u32, enabled: u32|
        {
            let whole = #[trigger] enabling(security, status, source, enabled);
            match objection(security, status, source, enabled) {
                Some((n, e)) => log == whole.take(n) && r == Err::<(), &'static str>(e),
                None => warmed_up(whole, log, r),
            }
        }
}

/// An initialization with the transport came to nothing, by what it answered.
pub open spec fn was_turned_down<T: Transport>(io: T, e: &'static str) -> bool {
    exists|log: Log, states: Seq<T>| #[trigger]
        answered::<T>(log, states) && states[0] == io && #[trigger] came_up(log, Err(e))
}

/// Nothing is written to a device that the firmware disabled, that is not there, or that
/// is busy.
pub proof fn a_refused_device_is_left_alone(log: Log, r: Result<(), &'static str>)
    requires
        came_up(log, r),
        log.len() <= 2,
    ensures
        r is Err,
        writes(log) == Seq::<(usize, u32)>::empty(),
        log[0] matches Event::Read(o, security) && o == SECURITY && (log.len() == 1 <==> security
            == u32::MAX || security & 2 != 0),
        log.len() == 2 ==> (log[1] matches Event::Read(o, status) && o == STATUS && r == Err::<
            (),
            &'static str,
        >(busy(status)->0)),
{
    let (security, status, source, enabled) = choose|
        security: u32,
        status: u32,
        source: u32,
        enabled: u32,
    |
        {
            let whole = #[trigger] enabling(security, status, source, enabled);
            match objection(security, status, source, enabled) {
                Some((n, e)) => log == whole.take(n) && r == Err::<(), &'static str>(e),
                None => warmed_up(whole, log, r),
            }
        };
    let whole = enabling(security, status, source, enabled);
    if objection(security, status, source, enabled) is None {
        lemma_warmed_up_extends(whole, log, r);
    }
    reveal_with_fuel(writes, 4);
    assert(log =~= whole.take(log.len() as int));
    assert(log.drop_last() =~= whole.take(log.len() - 1));
}

/// What follows the readings before the first transaction only adds to them.
proof fn lemma_warmed_up_extends(before: Log, log: Log, r: Result<(), &'static str>)
    requires
        warmed_up(before, log, r),
    ensures
        log.len() > before.len(),
{
    if exists|first: Seq<u8>| r is Err && #[trigger] ran(before, log, INSTANTIATE, 16, first, r) {
        let first = choose|first: Seq<u8>|
            r is Err && #[trigger] ran(before, log, INSTANTIATE, 16, first, r);
        lemma_ran_extends(before, log, INSTANTIATE, 16, first, r);
    } else {
        let (middle, first, output, q) = choose|
            middle: Log,
            first: Seq<u8>,
            output: Seq<u8>,
            q: Result<(), &'static str>,
        |
            {
                &&& #[trigger] ran(before, middle, INSTANTIATE, 16, first, Ok(()))
                &&& #[trigger] ran(middle, log, 0, 16, output, q)
                &&& r == match answer(None, 16, output, q) {
                    Err(e) => Err::<(), &'static str>(e),
                    Ok(_) => Ok(()),
                }
            };
        lemma_ran_extends(before, middle, INSTANTIATE, 16, first, Ok(()));
        lemma_ran_extends(middle, log, 0, 16, output, q);
    }
}

proof fn lemma_ran_extends(
    before: Log,
    after: Log,
    mode: u32,
    size: usize,
    output: Seq<u8>,
    r: Result<(), &'static str>,
)
    requires
        ran(before, after, mode, size, output, r),
    ensures
        after.len() > before.len(),
{
}

/// Everything written by an initialization: the source is enabled with what the
/// firmware set kept, then the generator is instantiated, then asked once.
pub open spec fn begun(
    log: Log,
    source: u32,
    d: u32,
    e: u32,
    i: u32,
    x: u32,
    y: u32,
    z: u32,
) -> bool {
    writes(log) == seq![
        (RNG_SOURCE, source | ENTROPY_ENABLE),
        (INT_ENABLE, 0u32),
        (RESEED_INTERVAL, RESEED_BLOCKS),
    ] + start_writes(INSTANTIATE, 16, d, e, i) + start_writes(0, 16, x, y, z)
}

pub open spec fn initialized(log: Log) -> bool {
    &&& log.len() > 0
    &&& log[0] matches Event::Read(o, security) && o == SECURITY && security != u32::MAX && security
        & 2 == 0
    &&& exists|source: u32, d: u32, e: u32, i: u32, x: u32, y: u32, z: u32, k: int|
        {
            &&& #[trigger] begun(log, source, d, e, i, x, y, z)
            &&& log.len() > 2 && log[2] == Event::Read(RNG_SOURCE, source)
            &&& acknowledged(log, 8, 16, d, e, i)
            &&& #[trigger] acknowledged(log, k, 16, x, y, z)
        }
}

/// A failed transaction either never wrote a start, or wrote last that it has to
/// stop.
pub open spec fn stopped(old_writes: Seq<(usize, u32)>, new_writes: Seq<(usize, u32)>) -> bool {
    ||| new_writes == old_writes
    ||| exists|mode: u32, length: nat, d: u32, e: u32, i: u32, n: int|
        n <= 6 && new_writes == old_writes + #[trigger] start_writes(mode, length, d, e, i).take(n)
    ||| exists|mode: u32, length: nat, d: u32, e: u32, i: u32|
        new_writes == old_writes + #[trigger] start_writes(mode, length, d, e, i).push(
            (OPERATION, 0u32),
        )
}

/// Whatever was asked before, a request is answered only with output that the
/// device was seen to be done with, and that does not look stuck.
pub proof fn entropy_never_repeats(previous: Option<Seq<u8>>, bytes: Seq<u8>, k: int)
    requires
        all_plausible(previous, bytes),
        0 < k < bytes.len() / 16,
    ensures
        block(bytes, k) != block(bytes, k - 1),
        !uniform(block(bytes, k), 0),
        !uniform(block(bytes, k), 255),
{
    assert(plausible(previous, bytes, k));
}

/// An output has whole blocks, at most sixteen of them, at an address of 32 bits on a word;
/// its description tells the address and the size.
pub proof fn outputs_are_described(address: u64, size: usize)
    ensures
        descriptor_spec(address, size) is Ok <==> 16 <= size <= 256 && size % 16 == 0 && address % 4
            == 0 && address + size <= 0x1_0000_0000,
        descriptor_spec(address, size) matches Ok(d) ==> d.len() == 3 && d[0] == 0 && d[1]
            == address && d[2] == size,
{
}

/// A request is for at most 256 bytes and is made in whole blocks, less than one too many.
pub proof fn requests_are_made_in_blocks(length: nat)
    ensures
        granted(length) <= 256 && granted(length) <= length,
        length <= 256 ==> granted(length) == length,
        length > 256 ==> granted(length) == 256,
        rounded(length) % 16 == 0,
        length <= rounded(length) < length + 16,
{
}

/// The engine is told to make random numbers into memory, with its entropy, so many blocks,
/// at a description; what it reported before is acknowledged, and then it starts.
pub proof fn engines_are_told_before_they_start(
    mode: u32,
    length: nat,
    descriptor: u32,
    errors: u32,
    interrupts: u32,
)
    requires
        16 <= length <= 256,
        length % 16 == 0,
    ensures
        ({
            let w = start_writes(mode, length, descriptor, errors, interrupts);
            &&& w.len() == 9
            &&& w[0] == (0x014usize, 0x2000u32)
            &&& w[1] == (0x304usize, 0x108u32)
            &&& w[2] == (0x340usize, 4u32 | mode)
            &&& w[3].0 == 0x318 && 16 * (w[3].1 + 1) == length
            &&& w[4] == (0x018usize, 0u32)
            &&& w[5] == (0x024usize, descriptor)
            &&& w[6] == (0x804usize, errors)
            &&& w[7] == (0x010usize, interrupts)
            &&& w[8] == (0x008usize, 1u32)
        }),
{
}

/// Output is taken only if it has all its blocks, and no block is all zeros, all ones, or the
/// one before it again.
pub proof fn stuck_output_is_refused(
    previous: Option<Seq<u8>>,
    count: nat,
    bytes: Seq<u8>,
    k: int,
)
    requires
        answer(previous, count, bytes, Ok(())) is Ok,
        0 <= k < bytes.len() / 16,
        count <= 256,
    ensures
        answer(previous, count, bytes, Ok(())) == Ok::<usize, &'static str>(count as usize),
        bytes.len() % 16 == 0 && count <= bytes.len() < count + 16,
        exists|i: int| 16 * k <= i < 16 * k + 16 && #[trigger] bytes[i] != 0,
        exists|i: int| 16 * k <= i < 16 * k + 16 && #[trigger] bytes[i] != 0xff,
        k > 0 ==> bytes.subrange(16 * k, 16 * k + 16) != bytes.subrange(16 * k - 16, 16 * k),
        k == 0 && previous is Some ==> bytes.subrange(0, 16) != previous->0,
{
    assert(plausible(previous, bytes, k));
    let b = block(bytes, k);
    let i = choose|i: int| 0 <= i < b.len() && b[i] != 0;
    let j = choose|j: int| 0 <= j < b.len() && b[j] != 255;
    assert(bytes[16 * k + i] != 0);
    assert(bytes[16 * k + j] != 0xff);
}

/// A time is up once 100 milliseconds have passed, also where the clock came round.
pub proof fn times_are_up_after_a_tenth(start: u64, passed: u64)
    ensures
        is_late(start, start.wrapping_add(passed)) <==> passed >= 100_000_000,
{
}

/// An engine is refused where firmware has it, where it works, or where its entropy is
/// locked away; what cannot be read counts against it.
pub proof fn free_engines_are_taken(security: u32, status: u32, source: u32, enabled: u32)
    ensures
        objection(security, status, source, enabled) is None <==> {
            &&& security != 0xffff_ffff && status != 0xffff_ffff && source != 0xffff_ffff && enabled
                != 0xffff_ffff
            &&& security & 2 == 0 && status & 3 == 0 && enabled & 2 != 0
        },
{
}

/// An engine that came up was free, had its entropy switched on with the rest of the source
/// kept, its interrupts off and a new seed every 4096 blocks; it is instantiated first and
/// then asked for a block that has to be good.
pub proof fn engines_come_up_with_entropy(log: Log)
    requires
        initialized(log),
    ensures
        log[0] matches Event::Read(o, security) && o == 0 && security & 2 == 0,
        ({
            let w = writes(log);
            &&& w.len() == 21
            &&& w[0].0 == 0x344 && exists|source: u32| w[0].1 == source | 2 && #[trigger] log[2]
                == Event::Read(0x344, source)
            &&& w[1] == (0x00cusize, 0u32)
            &&& w[2] == (0x348usize, 4096u32)
            &&& w[5] == (0x340usize, 4u32 | 1) && w[14] == (0x340usize, 4u32 | 0)
            &&& w[6] == (0x318usize, 0u32) && w[15] == (0x318usize, 0u32)
            &&& w[11] == (0x008usize, 1u32) && w[20] == (0x008usize, 1u32)
        }),
{
    let (source, d, e, i, x, y, z, k) = choose|
        source: u32,
        d: u32,
        e: u32,
        i: u32,
        x: u32,
        y: u32,
        z: u32,
        k: int,
    |
        {
            &&& #[trigger] begun(log, source, d, e, i, x, y, z)
            &&& log.len() > 2 && log[2] == Event::Read(RNG_SOURCE, source)
            &&& acknowledged(log, 8, 16, d, e, i)
            &&& #[trigger] acknowledged(log, k, 16, x, y, z)
        };
    assert(start_writes(INSTANTIATE, 16, d, e, i).len() == 9);
    assert(start_writes(0, 16, x, y, z).len() == 9);
    assert(log[2] == Event::Read(0x344, source));
}

/// The engine is done if it says so without an error in either register, and its output is
/// in memory once both its own queue and the bridge's are empty.
pub proof fn done_engines_show_no_error(log: Log, at: int)
    ensures
        is_sound(log, at) && says_done(log, at) ==> (log[at] matches Event::Read(o, status) && o
            == 0x010 && status & 0x1_0000 == 0 && status & 0x10 != 0) && log[at + 1] == Event::Read(
            0x804,
            0,
        ),
        queues(log, at, true) ==> (log[at] matches Event::Read(o, status) && o == 0x800 && status & 4
            == 0) && (log[at + 1] matches Event::Pending(pending) && pending & 0x4000 == 0),
{
}

} // verus!
