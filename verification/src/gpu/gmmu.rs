//! Address translation of the graphics processor: the page table, its publication,
//! and the first proof that it reaches memory.
use vstd::prelude::*;

use crate::gpu::hardware;
use crate::gpu::hardware::initialize_memory;
use crate::mmio;
use crate::mmio::{Access, Bus, Dma, Timed};

verus! {

pub const PAGE: usize = 4096;

/// Addresses from here on go through the system's own translation. Everything that
/// is published lies below.
pub const IOMMU_SELECTOR: u64 = 0x4_0000_0000;

pub const VA_A: usize = 0x1000;

pub const VA_B: usize = 0x2000;

/// The first page that is mapped on request.
pub const FIRST_PRIVATE: usize = 0x3000;

/// The first page that is unmapped on request.
pub const FIRST_PUBLIC: usize = 0x50_0000;

/// Pages of one small-page table.
pub const PTE_TABLE_PAGES: usize = 32;

pub const PDE_COUNT: usize = 8;

pub const VA_LIMIT: u32 = 0x2000_0000;

/// Pages of the whole address space.
pub const PAGES: usize = 0x2_0000;

pub const MC_ELPG_ENABLE: usize = 0x20c;

pub const ELPG_MEMORY_UNITS: u32 = 0x2010_0004;

pub const BAR1_BLOCK: usize = 0x1704;

pub const BIND_STATUS: usize = 0x1710;

pub const MMU_CTRL: usize = 0x10_0c80;

pub const FLUSH_ADDRESS: usize = 0x10_0c10;

pub const DEBUG_WRITE_ADDRESS: usize = 0x10_0cc8;

pub const DEBUG_READ_ADDRESS: usize = 0x10_0ccc;

pub const INVALIDATE_PDB: usize = 0x10_0cb8;

pub const INVALIDATE: usize = 0x10_0cbc;

pub const FLUSH: usize = 0x7_0000;

pub const LTC_INVALIDATE: usize = 0x7_0004;

pub const LTC_FLUSH: usize = 0x7_0010;

/// Areas of shared memory.
pub const DIRECTORY: usize = 0;

pub const TABLE: usize = 1;

pub const INSTANCE: usize = 2;

pub const SCRATCH: usize = 3;

pub const FLUSH_PAGE: usize = 4;

pub const DEBUG_READ: usize = 5;

pub const DEBUG_WRITE: usize = 6;

/// Memory as the graphics processor sees it.
pub const BAR1: usize = 7;

pub const PATTERN_A: u32 = 0x5347_4131;

pub const PATTERN_B: u32 = 0x5347_4232;

pub const PATTERN_W: u32 = 0x5347_5733;

/// Whether pages lie below the selector.
pub open spec fn reachable(paddr: u64, pages: int) -> bool {
    paddr + pages * 4096 <= IOMMU_SELECTOR
}

pub fn is_reachable(paddr: u64, pages: usize) -> (r: bool)
    requires
        pages <= 0x4000_0000,
    ensures
        r == reachable(paddr, pages as int),
{
    let size: u64 = pages as u64 * 4096;
    paddr <= IOMMU_SELECTOR && size <= IOMMU_SELECTOR - paddr
}

/// What is said of an allocation that the device cannot reach.
pub fn check_pages(paddr: u64, pages: usize, aligned: bool) -> (r: Result<(), &'static str>)
    requires
        pages <= 0x4000_0000,
    ensures
        r == if reachable(paddr, pages as int) {
            Ok::<(), &'static str>(())
        } else if aligned {
            Err::<(), &'static str>("GMMU aligned allocation overlaps Tegra IOMMU selector")
        } else {
            Err::<(), &'static str>("GMMU physical allocation overlaps Tegra IOMMU selector")
        },
{
    if is_reachable(paddr, pages) {
        Ok(())
    } else if aligned {
        Err("GMMU aligned allocation overlaps Tegra IOMMU selector")
    } else {
        Err("GMMU physical allocation overlaps Tegra IOMMU selector")
    }
}

/// The address word of an entry.
pub open spec fn low_word(paddr: u64) -> u32 {
    (paddr / 4096 * 16 + 1) as u32
}

/// The attribute word of an entry.
pub open spec fn high_word(cacheable: bool, kind: u8) -> u32 {
    (kind * 16 + if cacheable {
        0int
    } else {
        8
    }) as u32
}

/// Entries of two words each, one entry for each page.
pub struct PageTable {
    words: Vec<u32>,
}

/// The page that an entry leads to.
pub open spec fn translate(words: Seq<u32>, page: int) -> Option<u64> {
    if words[2 * page] % 2 == 1 {
        Some((words[2 * page] / 16 * 4096) as u64)
    } else {
        None
    }
}

impl View for PageTable {
    type V = Seq<u32>;

    closed spec fn view(&self) -> Seq<u32> {
        self.words@
    }
}

pub open spec fn table_wf(words: Seq<u32>) -> bool {
    &&& words.len() == 2 * PAGES
    &&& forall|page: int|
        0 <= page < PAGES ==> (#[trigger] translate(words, page) matches Some(paddr) ==> paddr
            < IOMMU_SELECTOR)
}

/// A table with some pages mapped from a place on.
pub open spec fn mapped(
    words: Seq<u32>,
    first: int,
    count: int,
    paddr: u64,
    cacheable: bool,
    kind: u8,
) -> Seq<u32> {
    Seq::new(
        words.len(),
        |w: int|
            if first <= w / 2 < first + count {
                if w % 2 == 0 {
                    low_word((paddr + (w / 2 - first) * 4096) as u64)
                } else {
                    high_word(cacheable, kind)
                }
            } else {
                words[w]
            },
    )
}

/// A table with some pages taken out.
pub open spec fn unmapped(words: Seq<u32>, first: int, count: int) -> Seq<u32> {
    Seq::new(
        words.len(),
        |w: int|
            if first <= w / 2 < first + count {
                0u32
            } else {
                words[w]
            },
    )
}

/// The first page that is mapped already, or the end.
pub open spec fn first_valid(words: Seq<u32>, page: int, end: int) -> int
    decreases end - page,
{
    if page >= end || translate(words, page) is Some {
        page
    } else {
        first_valid(words, page + 1, end)
    }
}

/// What is wrong with a request, before any entry is looked at.
pub open spec fn request_ok(va: usize, paddr: u64, pages: int) -> bool {
    &&& FIRST_PRIVATE <= va
    &&& va % 4096 == 0
    &&& va + pages * 4096 <= VA_LIMIT
    &&& reachable(paddr, pages)
}

impl PageTable {
    pub fn new() -> (r: Self)
        ensures
            table_wf(r@),
            forall|page: int| 0 <= page < PAGES ==> #[trigger] translate(r@, page) is None,
    {
        let words: Vec<u32> = vec![0; 0x4_0000];
        PageTable { words }
    }

    /// A word, as it has to be published.
    pub fn word(&self, index: usize) -> (r: u32)
        requires
            table_wf(self@),
            index < 2 * PAGES,
        ensures
            r == self@[index as int],
    {
        self.words[index]
    }

    /// Maps one page, whatever was there.
    pub fn map_page(&mut self, va: usize, paddr: u64, cacheable: bool, kind: u8)
        requires
            table_wf(old(self)@),
            va < VA_LIMIT,
            va % 4096 == 0,
            paddr < IOMMU_SELECTOR,
        ensures
            table_wf(final(self)@),
            final(self)@ == mapped(old(self)@, va as int / 4096, 1, paddr, cacheable, kind),
    {
        let page: usize = va / 4096;
        let low: u32 = (paddr / 4096 * 16 + 1) as u32;
        let high: u32 = kind as u32 * 16 + if cacheable {
            0
        } else {
            8
        };
        self.words.set(2 * page, low);
        self.words.set(2 * page + 1, high);
        proof {
            let whole = mapped(old(self)@, page as int, 1, paddr, cacheable, kind);
            assert forall|w: int| 0 <= w < whole.len() implies self@[w] == whole[w] by {
                if w / 2 == page {
                    assert(w == 2 * page || w == 2 * page + 1);
                    assert((w / 2 - page) * 4096 == 0);
                }
            }
            assert(self@ =~= whole);
            assert forall|p: int| 0 <= p < PAGES implies (#[trigger] translate(self@, p) matches Some(
                a,
            ) ==> a < IOMMU_SELECTOR) by {
                if p != page {
                    assert(self@[2 * p] == old(self)@[2 * p]);
                    assert(translate(old(self)@, p) == translate(self@, p));
                }
            }
        }
    }

    /// Maps a range of free pages. At the first page that is mapped already it stops,
    /// with the pages before it mapped.
    pub fn map_private(
        &mut self,
        va: usize,
        paddr: u64,
        pages: usize,
        cacheable: bool,
        kind: u8,
    ) -> (r: Result<(), &'static str>)
        requires
            table_wf(old(self)@),
        ensures
            table_wf(final(self)@),
            pages * 4096 > usize::MAX ==> r == Err::<(), &'static str>(
                "private GPU mapping size overflow",
            ) && final(self)@ == old(self)@,
            pages * 4096 <= usize::MAX && !request_ok(va, paddr, pages as int) ==> r == Err::<
                (),
                &'static str,
            >("private GPU mapping outside retained address space") && final(self)@ == old(self)@,
            pages * 4096 <= usize::MAX && request_ok(va, paddr, pages as int) ==> {
                let first = va as int / 4096;
                let stop = first_valid(old(self)@, first, first + pages);
                &&& final(self)@ == mapped(old(self)@, first, stop - first, paddr, cacheable, kind)
                &&& r == if stop == first + pages {
                    Ok::<(), &'static str>(())
                } else {
                    Err::<(), &'static str>("private GPU mapping would replace a valid PTE")
                }
            },
    {
        let size: usize = match pages.checked_mul(PAGE) {
            None => {
                return Err("private GPU mapping size overflow");
            },
            Some(size) => size,
        };
        if va < FIRST_PRIVATE || va % PAGE != 0 || va > VA_LIMIT as usize || size
            > VA_LIMIT as usize - va {
            return Err("private GPU mapping outside retained address space");
        }
        if !is_reachable(paddr, pages) {
            return Err("private GPU mapping outside retained address space");
        }
        let first: usize = va / PAGE;
        let mut page: usize = 0;
        assert(self@ =~= mapped(self@, first as int, 0, paddr, cacheable, kind));
        while page < pages
            invariant
                page <= pages,
                first == va / 4096,
                FIRST_PRIVATE <= va,
                va % 4096 == 0,
                va + pages * 4096 <= VA_LIMIT,
                reachable(paddr, pages as int),
                table_wf(self@),
                table_wf(old(self)@),
                self@ == mapped(old(self)@, first as int, page as int, paddr, cacheable, kind),
                first_valid(old(self)@, first as int, first + pages) == first_valid(
                    old(self)@,
                    first + page,
                    first + pages,
                ),
            decreases pages - page,
        {
            let index: usize = first + page;
            assert(self@[2 * index] == old(self)@[2 * index]);
            if self.words[2 * index] % 2 == 1 {
                return Err("private GPU mapping would replace a valid PTE");
            }
            let ghost before = self@;
            self.map_page(
                va + page * PAGE,
                paddr + page as u64 * PAGE as u64,
                cacheable,
                kind,
            );
            proof {
                let whole = mapped(old(self)@, first as int, page + 1, paddr, cacheable, kind);
                assert((va + page * 4096) as int / 4096 == first + page);
                assert forall|w: int| 0 <= w < whole.len() implies self@[w] == whole[w] by {
                    if w / 2 == first + page {
                        assert((w / 2 - first) * 4096 == page * 4096);
                        assert((w / 2 - (first + page)) * 4096 == 0);
                    } else {
                        assert(self@[w] == before[w]);
                    }
                }
                assert(self@ =~= whole);
            }
            page = page + 1;
        }
        Ok(())
    }

    /// Takes a range out of the public part.
    pub fn unmap(&mut self, va: usize, count: usize) -> (r: Result<(), &'static str>)
        requires
            table_wf(old(self)@),
            count * 4096 <= usize::MAX,
        ensures
            table_wf(final(self)@),
            if FIRST_PUBLIC <= va && va % 4096 == 0 && va + count * 4096 <= VA_LIMIT {
                r == Ok::<(), &'static str>(()) && final(self)@ == unmapped(
                    old(self)@,
                    va as int / 4096,
                    count as int,
                )
            } else {
                r == Err::<(), &'static str>("public GPU unmap range invalid") && final(self)@
                    == old(self)@
            },
    {
        if va < FIRST_PUBLIC || va % PAGE != 0 || va > VA_LIMIT as usize || count * PAGE
            > VA_LIMIT as usize - va {
            return Err("public GPU unmap range invalid");
        }
        let first: usize = va / PAGE;
        let mut page: usize = 0;
        assert(self@ =~= unmapped(self@, first as int, 0));
        while page < count
            invariant
                page <= count,
                first == va / 4096,
                va + count * 4096 <= VA_LIMIT,
                table_wf(old(self)@),
                self@ == unmapped(old(self)@, first as int, page as int),
            decreases count - page,
        {
            let index: usize = first + page;
            let ghost before = self@;
            self.words.set(2 * index, 0);
            self.words.set(2 * index + 1, 0);
            proof {
                let whole = unmapped(old(self)@, first as int, page + 1);
                assert forall|w: int| 0 <= w < whole.len() implies self@[w] == whole[w] by {
                    if w / 2 == index {
                        assert(w == 2 * index || w == 2 * index + 1);
                    } else {
                        assert(self@[w] == before[w]);
                    }
                }
                assert(self@ =~= whole);
            }
            page = page + 1;
        }
        proof {
            lemma_unmapped(old(self)@, first as int, count as int);
        }
        Ok(())
    }
}

proof fn lemma_unmapped(words: Seq<u32>, first: int, count: int)
    requires
        table_wf(words),
    ensures
        table_wf(unmapped(words, first, count)),
        forall|page: int|
            0 <= page < PAGES ==> #[trigger] translate(unmapped(words, first, count), page)
                == if first <= page < first + count {
                None
            } else {
                translate(words, page)
            },
{
    let after = unmapped(words, first, count);
    assert forall|page: int| 0 <= page < PAGES implies #[trigger] translate(after, page)
        == if first <= page < first + count {
        None
    } else {
        translate(words, page)
    } by {
        assert((2 * page) / 2 == page);
    }
}

/// A mapped page leads to its memory, and all other pages lead where they did.
pub proof fn mapping_translates(
    words: Seq<u32>,
    first: int,
    count: int,
    paddr: u64,
    cacheable: bool,
    kind: u8,
    page: int,
)
    requires
        table_wf(words),
        paddr % 4096 == 0,
        0 <= count,
        reachable(paddr, count),
        0 <= page < PAGES,
    ensures
        translate(mapped(words, first, count, paddr, cacheable, kind), page) == if first <= page
            < first + count {
            Some((paddr + (page - first) * 4096) as u64)
        } else {
            translate(words, page)
        },
{
    assert((2 * page) / 2 == page && (2 * page) % 2 == 0);
    if first <= page < first + count {
        let a = (paddr + (page - first) * 4096) as u64;
        assert((page - first) * 4096 <= (count - 1) * 4096);
        assert(a % 4096 == 0);
        assert(low_word(a) == a / 4096 * 16 + 1);
    }
}

/// What was unmapped leads nowhere, and can be mapped again.
pub proof fn unmapping_undoes_mapping(
    words: Seq<u32>,
    first: int,
    count: int,
    paddr: u64,
    cacheable: bool,
    kind: u8,
)
    requires
        table_wf(words),
        0 <= first,
        0 <= count,
        first + count <= PAGES,
        forall|w: int| 2 * first <= w < 2 * (first + count) ==> #[trigger] words[w] == 0,
    ensures
        unmapped(mapped(words, first, count, paddr, cacheable, kind), first, count) == words,
{
    assert(unmapped(mapped(words, first, count, paddr, cacheable, kind), first, count) =~= words);
}

/// An entry of the directory: the place of its table. Large pages have none.
pub open spec fn directory_word(table: u64, index: int) -> u32 {
    ((table + index * 0x2_0000) / 4096 * 16 + 5) as u32
}

pub fn directory_entry(table: u64, index: usize) -> (r: u32)
    requires
        index < PDE_COUNT,
        reachable(table, 256),
    ensures
        r == directory_word(table, index as int),
{
    ((table + index as u64 * 0x2_0000) / 4096 * 16 + 5) as u32
}

/// The words of an instance that point to the directory, from word 128 on.
pub open spec fn instance_words(directory: u64) -> Seq<u32> {
    seq![
        (directory % 0x1_0000_0000 / 4096 * 4096 + 0x804) as u32,
        (directory / 0x1_0000_0000) as u32,
        0x1fff_f000u32,
        0u32,
    ]
}

/// Physical addresses of what is shared.
#[derive(Clone, Copy, Debug)]
pub struct Backing {
    pub directory: u64,
    pub table: u64,
    pub instance: u64,
    pub scratch: u64,
    pub flush: u64,
    pub debug_read: u64,
    pub debug_write: u64,
}

impl Backing {
    pub open spec fn wf(self) -> bool {
        &&& reachable(self.directory, 1) && self.directory % 4096 == 0
        &&& reachable(self.table, 256) && self.table % 4096 == 0
        &&& reachable(self.instance, 1) && self.instance % 4096 == 0
        &&& reachable(self.scratch, 2) && self.scratch % 4096 == 0
        &&& reachable(self.flush, 1) && self.flush % 4096 == 0
        &&& reachable(self.debug_read, 1) && self.debug_read % 4096 == 0
        &&& reachable(self.debug_write, 1) && self.debug_write % 4096 == 0
    }
}

/// Which bits of a register are waited for.
#[derive(Clone, Copy, Debug, PartialEq, Eq, Structural)]
pub enum Ready {
    Clear(u32),
    Any(u32),
}

pub open spec fn ready_spec(ready: Ready, value: u32) -> bool {
    match ready {
        Ready::Clear(mask) => value & mask == 0,
        Ready::Any(mask) => value & mask != 0,
    }
}

/// The last reading is of a register that is there and ready.
pub open spec fn is_ready(log: Seq<Access>, offset: usize, ready: Ready) -> bool {
    log.len() > 0 && (log.last() matches Access::Read(o, value) && o == offset && value != u32::MAX
        && ready_spec(ready, value))
}

/// A register was read ready at last, behind nothing but looks.
pub open spec fn settled(
    before: Seq<Access>,
    after: Seq<Access>,
    offset: usize,
    ready: Ready,
) -> bool {
    mmio::quiet(before, after) && before.len() < after.len() && is_ready(after, offset, ready)
}

/// A register is not there, or it was not ready within a tenth of a second.
pub open spec fn completion_failed(
    before: Seq<Access>,
    after: Seq<Access>,
    offset: usize,
    ready: Ready,
    e: &'static str,
) -> bool {
    let seen = mmio::last(after, offset);
    &&& mmio::quiet(before, after)
    &&& mmio::tried(before, after, offset)
    &&& if seen == u32::MAX {
        e == "GMMU register read returned all ones"
    } else {
        e == "GMMU hardware completion timeout" && !ready_spec(ready, seen) && mmio::ran_out(
            before,
            after,
            100_000_000,
            u64::MAX as int,
        )
    }
}

/// Polls a register for up to a tenth of a second.
pub fn wait<R: Timed>(bus: &mut Bus<'_, R>, offset: usize, ready: Ready) -> (r: Result<
    u32,
    &'static str,
>)
    ensures
        final(bus).port() == old(bus).port(),
        mmio::writes(final(bus).log()) == mmio::writes(old(bus).log()),
        mmio::memory_kept(old(bus).log(), final(bus).log()),
        r matches Ok(value) ==> value != u32::MAX && ready_spec(ready, value) && final(bus).log().last() == Access::Read(offset, value),
        r is Ok ==> settled(old(bus).log(), final(bus).log(), offset, ready),
        r matches Err(e) ==> completion_failed(old(bus).log(), final(bus).log(), offset, ready, e),
{
    let start: u64 = bus.now_ns();
    let deadline: u64 = start.saturating_add(100_000_000);
    let mut polls: u64 = u64::MAX;
    while polls > 0
        invariant
            bus.port() == old(bus).port(),
            deadline == mmio::until(start, 100_000_000),
            bus.log().len() == old(bus).log().len() + 1 + 3 * (u64::MAX - polls),
            bus.log()[old(bus).log().len() as int] == Access::Time(start),
            polls < u64::MAX ==> mmio::tried(old(bus).log(), bus.log(), offset) && mmio::last(
                bus.log(),
                offset,
            ) != u32::MAX && !ready_spec(ready, mmio::last(bus.log(), offset)),
            polls == u64::MAX ==> mmio::reads(bus.log(), offset) == mmio::reads(
                old(bus).log(),
                offset,
            ),
            mmio::writes(bus.log()) == mmio::writes(old(bus).log()),
            mmio::memory_kept(old(bus).log(), bus.log()),
        decreases polls,
    {
        let value: u32 = bus.read(offset);
        if value == u32::MAX {
            return Err("GMMU register read returned all ones");
        }
        let done: bool = match ready {
            Ready::Clear(mask) => value & mask == 0,
            Ready::Any(mask) => value & mask != 0,
        };
        if done {
            return Ok(value);
        }
        let now: u64 = bus.now_ns();
        if now >= deadline {
            return Err("GMMU hardware completion timeout");
        }
        bus.delay_us(2);
        polls = polls - 1;
    }
    Err("GMMU hardware completion timeout")
}

/// The device's cache was told to write back, and then read back as done.
pub open spec fn ltc_flushed(before: Seq<Access>, after: Seq<Access>) -> bool {
    let told = before.push(Access::Write(LTC_FLUSH, 1));
    &&& mmio::quiet(told, after)
    &&& told.len() < after.len()
    &&& after.last() matches Access::Read(o, v) && o == LTC_FLUSH && v & 3 == 0
}

/// The device's cache was told to write back, and did not within a tenth of a second.
pub open spec fn flush_ltc_failed(before: Seq<Access>, after: Seq<Access>, e: &'static str) -> bool {
    let told = before.push(Access::Write(LTC_FLUSH, 1));
    let status = mmio::last(after, LTC_FLUSH);
    &&& e == "GM20B LTC flush timeout"
    &&& mmio::quiet(told, after)
    &&& mmio::tried(told, after, LTC_FLUSH)
    &&& status & 3 != 0
    &&& status == u32::MAX || mmio::ran_out(told, after, 100_000_000, u64::MAX as int)
}

/// Retires writes of the device's cache, before another engine or the display reads
/// tiled storage.
pub fn flush_ltc<R: Timed>(bus: &mut Bus<'_, R>) -> (r: Result<(), &'static str>)
    ensures
        final(bus).port() == old(bus).port(),
        mmio::writes(final(bus).log()) == mmio::writes(old(bus).log()).push((LTC_FLUSH, 1u32)),
        mmio::memory_kept(old(bus).log(), final(bus).log()),
        r is Ok ==> ltc_flushed(old(bus).log(), final(bus).log()),
        r matches Err(e) ==> e == "GM20B LTC flush timeout" && flush_ltc_failed(
            old(bus).log(),
            final(bus).log(),
            e,
        ),
{
    bus.write(LTC_FLUSH, 1);
    let ghost told = bus.log();
    let start: u64 = bus.now_ns();
    let deadline: u64 = start.saturating_add(100_000_000);
    let mut polls: u64 = u64::MAX;
    while polls > 0
        invariant
            bus.port() == old(bus).port(),
            deadline == mmio::until(start, 100_000_000),
            bus.log().len() == told.len() + 1 + 3 * (u64::MAX - polls),
            bus.log()[told.len() as int] == Access::Time(start),
            told == old(bus).log().push(Access::Write(LTC_FLUSH, 1)),
            mmio::quiet(told, bus.log()),
            polls < u64::MAX ==> mmio::tried(told, bus.log(), LTC_FLUSH) && mmio::last(
                bus.log(),
                LTC_FLUSH,
            ) & 3 != 0,
            polls == u64::MAX ==> mmio::reads(bus.log(), LTC_FLUSH) == mmio::reads(told, LTC_FLUSH),
            mmio::writes(bus.log()) == mmio::writes(old(bus).log()).push((LTC_FLUSH, 1u32)),
            mmio::memory_kept(old(bus).log(), bus.log()),
        decreases polls,
    {
        let status: u32 = bus.read(LTC_FLUSH);
        if status & 3 == 0 {
            return Ok(());
        }
        let now: u64 = bus.now_ns();
        if status == u32::MAX || now >= deadline {
            assert(mmio::quiet(told, bus.log()));
            return Err("GM20B LTC flush timeout");
        }
        bus.delay_us(2);
        polls = polls - 1;
    }
    assert(mmio::quiet(told, bus.log()));
    Err("GM20B LTC flush timeout")
}

/// The aperture was told to write back, and then read back as done.
pub open spec fn bar_flushed(before: Seq<Access>, after: Seq<Access>) -> bool {
    settled(before.push(Access::Write(FLUSH, 1)), after, FLUSH, Ready::Clear(3))
}

/// The aperture was told to write back, and did not.
pub open spec fn flush_bar_failed(before: Seq<Access>, after: Seq<Access>, e: &'static str) -> bool {
    completion_failed(before.push(Access::Write(FLUSH, 1)), after, FLUSH, Ready::Clear(3), e)
}

pub fn flush_bar<R: Timed>(bus: &mut Bus<'_, R>) -> (r: Result<(), &'static str>)
    ensures
        final(bus).port() == old(bus).port(),
        mmio::writes(final(bus).log()) == mmio::writes(old(bus).log()).push((FLUSH, 1u32)),
        mmio::memory_kept(old(bus).log(), final(bus).log()),
        r matches Err(e) ==> flush_bar_failed(old(bus).log(), final(bus).log(), e),
        // The aperture is written back once a reading behind the request says so.
        r is Ok ==> bar_flushed(old(bus).log(), final(bus).log()),
{
    bus.write(FLUSH, 1);
    wait(bus, FLUSH, Ready::Clear(3))?;
    Ok(())
}

/// What an invalidation writes: the cache first, which may hold old entries, then
/// the translations themselves.
pub open spec fn invalidate_writes(directory: u64, all: bool) -> Seq<(usize, u32)> {
    seq![
        (LTC_INVALIDATE, 1u32),
        (INVALIDATE_PDB, (directory / 4096 * 16) as u32),
        (
            INVALIDATE,
            if all {
                0x8000_0001u32
            } else {
                0x8000_0005u32
            },
        ),
    ]
}

/// The page table was written out, and the cache told to drop old entries.
pub open spec fn dropping(before: Seq<Access>) -> Seq<Access> {
    before.push(Access::Clean(TABLE)).push(Access::Write(LTC_INVALIDATE, 1))
}

/// The translations were told to go.
pub open spec fn telling(before: Seq<Access>, directory: u64, all: bool) -> Seq<Access> {
    before.push(Access::Write(INVALIDATE_PDB, (directory / 4096 * 16) as u32)).push(
        Access::Write(
            INVALIDATE,
            if all {
                0x8000_0001
            } else {
                0x8000_0005
            },
        ),
    )
}

/// Old entries are dropped, and there is room for a request.
pub open spec fn dropped(before: Seq<Access>, clean: Seq<Access>, room: Seq<Access>) -> bool {
    &&& settled(dropping(before), clean, LTC_INVALIDATE, Ready::Clear(3))
    &&& settled(clean, room, MMU_CTRL, Ready::Any(0x00ff_0000))
}

/// Translations were dropped: each step was seen to be over before the next.
pub open spec fn was_invalidated(
    before: Seq<Access>,
    after: Seq<Access>,
    directory: u64,
    all: bool,
) -> bool {
    &&& mmio::memory_kept(before, after)
    &&& exists|clean: Seq<Access>, room: Seq<Access>| #[trigger]
        dropped(before, clean, room) && settled(
            telling(room, directory, all),
            after,
            MMU_CTRL,
            Ready::Any(0x8000),
        )
}

/// Translations were not dropped: which step was not over, and why.
pub open spec fn invalidate_failed(
    before: Seq<Access>,
    after: Seq<Access>,
    directory: u64,
    all: bool,
    e: &'static str,
) -> bool {
    &&& mmio::extends(before, after)
    &&& {
        ||| completion_failed(dropping(before), after, LTC_INVALIDATE, Ready::Clear(3), e)
        ||| exists|clean: Seq<Access>|
            #[trigger] settled(dropping(before), clean, LTC_INVALIDATE, Ready::Clear(3))
                && completion_failed(clean, after, MMU_CTRL, Ready::Any(0x00ff_0000), e)
        ||| exists|clean: Seq<Access>, room: Seq<Access>| #[trigger]
            dropped(before, clean, room) && completion_failed(
                telling(room, directory, all),
                after,
                MMU_CTRL,
                Ready::Any(0x8000),
                e,
            )
    }
}

/// Publishes the page table, and drops translations: of all engines, or of the
/// aperture alone while nothing else runs.
pub fn invalidate<R: Dma>(bus: &mut Bus<'_, R>, directory: u64, all: bool) -> (r: Result<
    (),
    &'static str,
>)
    requires
        reachable(directory, 1),
    ensures
        final(bus).port() == old(bus).port(),
        r is Ok ==> mmio::writes(final(bus).log()) == mmio::writes(old(bus).log())
            + invalidate_writes(directory, all),
        r is Ok ==> was_invalidated(old(bus).log(), final(bus).log(), directory, all),
        r is Err ==> exists|n: int|
            0 < n <= 3 && mmio::writes(final(bus).log()) == mmio::writes(old(bus).log())
                + #[trigger] invalidate_writes(directory, all).take(n),
        mmio::memory_kept(old(bus).log(), final(bus).log()),
        r matches Err(e) ==> invalidate_failed(
            old(bus).log(),
            final(bus).log(),
            directory,
            all,
            e,
        ),
{
    let ghost start = mmio::writes(bus.log());
    let ghost whole = invalidate_writes(directory, all);
    bus.clean(TABLE);
    bus.write(LTC_INVALIDATE, 1);
    assert(mmio::writes(bus.log()) =~= start + whole.take(1));
    assert(bus.log() == dropping(old(bus).log()));
    wait(bus, LTC_INVALIDATE, Ready::Clear(3))?;
    let ghost clean = bus.log();
    assert(settled(dropping(old(bus).log()), clean, LTC_INVALIDATE, Ready::Clear(3)));
    wait(bus, MMU_CTRL, Ready::Any(0x00ff_0000))?;
    let ghost room = bus.log();
    assert(dropped(old(bus).log(), clean, room));
    bus.write(INVALIDATE_PDB, (directory / 4096 * 16) as u32);
    bus.write(
        INVALIDATE,
        if all {
            0x8000_0001
        } else {
            0x8000_0005
        },
    );
    assert(mmio::writes(bus.log()) =~= start + whole);
    assert(whole.take(3) =~= whole);
    assert(bus.log() == telling(room, directory, all));
    wait(bus, MMU_CTRL, Ready::Any(0x8000))?;
    Ok(())
}

/// Stores the four words that point an instance to the directory.
pub fn store_instance<R: Dma>(bus: &mut Bus<'_, R>, area: usize, directory: u64)
    requires
        reachable(directory, 1),
    ensures
        final(bus).port() == old(bus).port(),
        mmio::extends(old(bus).log(), final(bus).log()),
        mmio::writes(final(bus).log()) == mmio::writes(old(bus).log()),
        mmio::stores(final(bus).log()) == mmio::stores(old(bus).log()) + seq![
            (area, 128usize, instance_words(directory)[0]),
            (area, 129usize, instance_words(directory)[1]),
            (area, 130usize, instance_words(directory)[2]),
            (area, 131usize, instance_words(directory)[3]),
        ],
        forall|a: usize, w: usize|
            #![trigger mmio::loads(final(bus).log(), a, w)]
            mmio::loads(final(bus).log(), a, w) == mmio::loads(old(bus).log(), a, w),
{
    let low: u64 = directory % 0x1_0000_0000 / 4096 * 4096;
    bus.store(area, 128, low as u32 + 0x804);
    bus.store(area, 129, (directory / 0x1_0000_0000) as u32);
    bus.store(area, 130, 0x1fff_f000);
    bus.store(area, 131, 0);
    assert(mmio::stores(bus.log()) =~= mmio::stores(old(bus).log()) + seq![
        (area, 128usize, instance_words(directory)[0]),
        (area, 129usize, instance_words(directory)[1]),
        (area, 130usize, instance_words(directory)[2]),
        (area, 131usize, instance_words(directory)[3]),
    ]);
}

/// The aperture showed what memory held, memory showed what went through the
/// aperture, and a changed entry was followed.
pub open spec fn translation_proved(log: Seq<Access>) -> bool {
    &&& mmio::loads(log, BAR1, 0x400) == seq![PATTERN_A, PATTERN_B]
    &&& mmio::loads(log, BAR1, 0x800) == seq![PATTERN_B]
    &&& mmio::loads(log, SCRATCH, 0) == seq![PATTERN_W]
}

/// The words of the two first entries, for scratch page `a` under the first.
fn store_entry<R: Dma>(bus: &mut Bus<'_, R>, table: &mut PageTable, va: usize, paddr: u64)
    requires
        table_wf(old(table)@),
        va < VA_LIMIT,
        va % 4096 == 0,
        paddr < IOMMU_SELECTOR,
    ensures
        final(bus).port() == old(bus).port(),
        table_wf(final(table)@),
        final(table)@ == mapped(old(table)@, va as int / 4096, 1, paddr, true, 0),
        mmio::extends(old(bus).log(), final(bus).log()),
        mmio::writes(final(bus).log()) == mmio::writes(old(bus).log()),
        final(bus).log() == old(bus).log().push(
            Access::Store(TABLE, (va / 4096 * 2) as usize, low_word(paddr)),
        ).push(Access::Store(TABLE, (va / 4096 * 2 + 1) as usize, 0)),
        mmio::stores(final(bus).log()) == mmio::stores(old(bus).log()) + seq![
            (TABLE, (va / 4096 * 2) as usize, low_word(paddr)),
            (TABLE, (va / 4096 * 2 + 1) as usize, 0u32),
        ],
        forall|a: usize, w: usize|
            #![trigger mmio::loads(final(bus).log(), a, w)]
            mmio::loads(final(bus).log(), a, w) == mmio::loads(old(bus).log(), a, w),
{
    table.map_page(va, paddr, true, 0);
    let index: usize = va / PAGE * 2;
    proof {
        assert(index as int / 2 == va as int / 4096);
        assert((index + 1) as int / 2 == va as int / 4096);
    }
    let low: u32 = table.word(index);
    let high: u32 = table.word(index + 1);
    assert((index as int / 2 - va as int / 4096) * 4096 == 0);
    assert(low == low_word(paddr) && high == 0);
    bus.store(TABLE, index, low);
    bus.store(TABLE, index + 1, high);
    assert(mmio::stores(bus.log()) =~= mmio::stores(old(bus).log()) + seq![
        (TABLE, (va / 4096 * 2) as usize, low_word(paddr)),
        (TABLE, (va / 4096 * 2 + 1) as usize, 0u32),
    ]);
}

/// The write that turns the memory units on.
pub open spec fn powered(elpg: u32) -> (usize, u32) {
    (MC_ELPG_ENABLE, elpg | ELPG_MEMORY_UNITS)
}

/// Everything written before the structures are published, and how far.
pub open spec fn memory_on(before: Seq<Access>, after: Seq<Access>) -> bool {
    &&& mmio::extends(before, after)
    &&& {
        ||| mmio::writes(after) == mmio::writes(before)
        ||| exists|elpg: u32, enumeration: u32, dstg: u32, security: u32, n: int|
            mmio::writes(after) == mmio::writes(before).push(#[trigger] powered(elpg))
                + #[trigger] hardware::memory_writes(enumeration, dstg, security).take(n) && mmio::saw(
                before,
                after,
                MC_ELPG_ENABLE,
                elpg,
            ) && hardware::memory_found(before, after, enumeration, dstg, security, n)
    }
}

/// What was read when memory could not be turned on.
pub open spec fn enable_cause(e: &'static str, log: Seq<Access>) -> bool {
    if e == "GPU memory ELPG register returned all ones" {
        log.last() == Access::Read(MC_ELPG_ENABLE, u32::MAX)
    } else if e == "GPU memory ELPG enable readback mismatch" {
        log.last() matches Access::Read(_, value) && (value == u32::MAX || value
            & ELPG_MEMORY_UNITS != ELPG_MEMORY_UNITS)
    } else {
        hardware::memory_cause(e, log)
    }
}

/// What was found stays found where the accesses before count too.
proof fn lemma_memory_found(
    before: Seq<Access>,
    middle: Seq<Access>,
    after: Seq<Access>,
    e: u32,
    d: u32,
    s: u32,
    n: int,
)
    requires
        mmio::extends(before, middle),
        hardware::memory_found(middle, after, e, d, s, n),
    ensures
        hardware::memory_found(before, after, e, d, s, n),
{
    if n > 13 {
        mmio::lemma_saw_later(before, middle, after, after, hardware::PARTITIONS, e);
    }
    if n > 16 {
        mmio::lemma_saw_later(before, middle, after, after, hardware::SLICES, d);
    }
    if n > 17 {
        mmio::lemma_saw_later(before, middle, after, after, hardware::SECURITY, s);
    }
}

/// Turns on the memory units, and sets memory up.
#[verifier::rlimit(60)]
fn enable_memory<R: Timed>(bus: &mut Bus<'_, R>) -> (r: Result<(), &'static str>)
    ensures
        final(bus).port() == old(bus).port(),
        mmio::memory_kept(old(bus).log(), final(bus).log()),
        memory_on(old(bus).log(), final(bus).log()),
        r is Ok ==> exists|elpg: u32, enumeration: u32, dstg: u32, security: u32|
            mmio::writes(final(bus).log()) == mmio::writes(old(bus).log()).push(
                #[trigger] powered(elpg),
            ) + #[trigger] hardware::memory_writes(enumeration, dstg, security) && mmio::saw(
                old(bus).log(),
                final(bus).log(),
                MC_ELPG_ENABLE,
                elpg,
            ) && hardware::memory_found(
                old(bus).log(),
                final(bus).log(),
                enumeration,
                dstg,
                security,
                18,
            ),
        r matches Err(e) ==> enable_cause(e, final(bus).log()),
        final(bus).log().len() > old(bus).log().len(),
{
    let ghost start = mmio::writes(bus.log());
    let before: u32 = bus.read(MC_ELPG_ENABLE);
    let ghost seen = bus.log();
    if before == u32::MAX {
        return Err("GPU memory ELPG register returned all ones");
    }
    bus.write(MC_ELPG_ENABLE, before | ELPG_MEMORY_UNITS);
    let ghost on = mmio::writes(bus.log());
    proof {
        assert(on =~= start.push(powered(before)) + hardware::memory_writes(0, 0, 0).take(0));
    }
    let after: u32 = bus.read(MC_ELPG_ENABLE);
    proof {
        mmio::lemma_saw(old(bus).log(), seen, bus.log(), MC_ELPG_ENABLE, before);
    }
    if after == u32::MAX || after & ELPG_MEMORY_UNITS != ELPG_MEMORY_UNITS {
        return Err("GPU memory ELPG enable readback mismatch");
    }
    bus.delay_us(20);
    let ghost ready = bus.log();
    let r = initialize_memory(bus);
    proof {
        mmio::lemma_saw(old(bus).log(), seen, bus.log(), MC_ELPG_ENABLE, before);
        if r is Ok {
            let (e, d, s) = choose|e: u32, d: u32, s: u32|
                mmio::writes(bus.log()) == mmio::writes(ready) + #[trigger] hardware::memory_writes(
                    e,
                    d,
                    s,
                ) && hardware::memory_found(ready, bus.log(), e, d, s, 18);
            let w = hardware::memory_writes(e, d, s);
            assert(w.take(w.len() as int) =~= w);
            lemma_memory_found(old(bus).log(), ready, bus.log(), e, d, s, 18);
        } else {
            let n = choose|n: int| #[trigger]
                hardware::memory_progress(ready, bus.log(), n) && hardware::memory_failure(
                    r->Err_0,
                    n,
                );
            let (e, d, s) = choose|e: u32, d: u32, s: u32|
                mmio::writes(bus.log()) == mmio::writes(ready) + #[trigger] hardware::memory_writes(
                    e,
                    d,
                    s,
                ).take(n) && hardware::memory_found(ready, bus.log(), e, d, s, n);
            lemma_memory_found(old(bus).log(), ready, bus.log(), e, d, s, n);
        }
    }
    r
}

/// The stores that set up directory, entries, instance and scratch pages.
pub open spec fn setup_stores(b: Backing) -> Seq<(usize, usize, u32)> {
    seq![
        (DIRECTORY, 1usize, directory_word(b.table, 0)),
        (DIRECTORY, 3usize, directory_word(b.table, 1)),
        (DIRECTORY, 5usize, directory_word(b.table, 2)),
        (DIRECTORY, 7usize, directory_word(b.table, 3)),
        (DIRECTORY, 9usize, directory_word(b.table, 4)),
        (DIRECTORY, 11usize, directory_word(b.table, 5)),
        (DIRECTORY, 13usize, directory_word(b.table, 6)),
        (DIRECTORY, 15usize, directory_word(b.table, 7)),
        (TABLE, 2usize, low_word(b.scratch)),
        (TABLE, 3usize, 0u32),
        (TABLE, 4usize, low_word((b.scratch + 4096) as u64)),
        (TABLE, 5usize, 0u32),
        (INSTANCE, 128usize, instance_words(b.directory)[0]),
        (INSTANCE, 129usize, instance_words(b.directory)[1]),
        (INSTANCE, 130usize, instance_words(b.directory)[2]),
        (INSTANCE, 131usize, instance_words(b.directory)[3]),
        (SCRATCH, 0usize, PATTERN_A),
        (SCRATCH, 0x400usize, PATTERN_B),
    ]
}

fn store_directory<R: Dma>(bus: &mut Bus<'_, R>, table: u64)
    requires
        reachable(table, 256),
    ensures
        final(bus).port() == old(bus).port(),
        mmio::extends(old(bus).log(), final(bus).log()),
        mmio::writes(final(bus).log()) == mmio::writes(old(bus).log()),
        mmio::stores(final(bus).log()) == mmio::stores(old(bus).log()) + seq![
            (DIRECTORY, 1usize, directory_word(table, 0)),
            (DIRECTORY, 3usize, directory_word(table, 1)),
            (DIRECTORY, 5usize, directory_word(table, 2)),
            (DIRECTORY, 7usize, directory_word(table, 3)),
            (DIRECTORY, 9usize, directory_word(table, 4)),
            (DIRECTORY, 11usize, directory_word(table, 5)),
            (DIRECTORY, 13usize, directory_word(table, 6)),
            (DIRECTORY, 15usize, directory_word(table, 7)),
        ],
        forall|a: usize, w: usize|
            #![trigger mmio::loads(final(bus).log(), a, w)]
            mmio::loads(final(bus).log(), a, w) == mmio::loads(old(bus).log(), a, w),
{
    bus.store(DIRECTORY, 1, directory_entry(table, 0));
    bus.store(DIRECTORY, 3, directory_entry(table, 1));
    bus.store(DIRECTORY, 5, directory_entry(table, 2));
    bus.store(DIRECTORY, 7, directory_entry(table, 3));
    bus.store(DIRECTORY, 9, directory_entry(table, 4));
    bus.store(DIRECTORY, 11, directory_entry(table, 5));
    bus.store(DIRECTORY, 13, directory_entry(table, 6));
    bus.store(DIRECTORY, 15, directory_entry(table, 7));
    assert(mmio::stores(bus.log()) =~= mmio::stores(old(bus).log()) + seq![
        (DIRECTORY, 1usize, directory_word(table, 0)),
        (DIRECTORY, 3usize, directory_word(table, 1)),
        (DIRECTORY, 5usize, directory_word(table, 2)),
        (DIRECTORY, 7usize, directory_word(table, 3)),
        (DIRECTORY, 9usize, directory_word(table, 4)),
        (DIRECTORY, 11usize, directory_word(table, 5)),
        (DIRECTORY, 13usize, directory_word(table, 6)),
        (DIRECTORY, 15usize, directory_word(table, 7)),
    ]);
}

/// The table with both scratch pages mapped.
pub open spec fn with_scratch(words: Seq<u32>, scratch: u64) -> Seq<u32> {
    mapped(
        mapped(words, 1, 1, scratch, true, 0),
        2,
        1,
        (scratch + 4096) as u64,
        true,
        0,
    )
}

/// All structures are written out.
pub open spec fn cleans() -> Seq<Access> {
    seq![
        Access::Clean(DIRECTORY),
        Access::Clean(TABLE),
        Access::Clean(INSTANCE),
        Access::Clean(SCRATCH),
        Access::Clean(FLUSH_PAGE),
        Access::Clean(DEBUG_READ),
        Access::Clean(DEBUG_WRITE),
    ]
}

/// Only words of shared memory were stored.
pub open spec fn only_stored(
    before: Seq<Access>,
    after: Seq<Access>,
    words: Seq<(usize, usize, u32)>,
) -> bool {
    &&& mmio::extends(before, after)
    &&& mmio::writes(after) == mmio::writes(before)
    &&& mmio::stores(after) == mmio::stores(before) + words
}

/// All structures were stored, and then written out.
pub open spec fn structures_laid(before: Seq<Access>, after: Seq<Access>, b: Backing) -> bool {
    exists|stored: Seq<Access>| #[trigger]
        only_stored(before, stored, setup_stores(b)) && after == stored + cleans()
}

/// Stores all structures, and writes them out.
fn store_structures<R: Dma>(bus: &mut Bus<'_, R>, b: &Backing, table: &mut PageTable)
    requires
        b.wf(),
        table_wf(old(table)@),
    ensures
        final(bus).port() == old(bus).port(),
        table_wf(final(table)@),
        final(table)@ == with_scratch(old(table)@, b.scratch),
        mmio::extends(old(bus).log(), final(bus).log()),
        mmio::writes(final(bus).log()) == mmio::writes(old(bus).log()),
        mmio::stores(final(bus).log()) == mmio::stores(old(bus).log()) + setup_stores(*b),
        structures_laid(old(bus).log(), final(bus).log(), *b),
        forall|a: usize, w: usize|
            #![trigger mmio::loads(final(bus).log(), a, w)]
            mmio::loads(final(bus).log(), a, w) == mmio::loads(old(bus).log(), a, w),
{
    store_directory(bus, b.table);
    store_entry(bus, table, VA_A, b.scratch);
    store_entry(bus, table, VA_B, b.scratch + 4096);
    store_instance(bus, INSTANCE, b.directory);
    bus.store(SCRATCH, 0, PATTERN_A);
    bus.store(SCRATCH, 0x400, PATTERN_B);
    assert(mmio::stores(bus.log()) =~= mmio::stores(old(bus).log()) + setup_stores(*b));
    let ghost stored = bus.log();
    assert(only_stored(old(bus).log(), stored, setup_stores(*b)));
    bus.clean(DIRECTORY);
    bus.clean(TABLE);
    bus.clean(INSTANCE);
    bus.clean(SCRATCH);
    bus.clean(FLUSH_PAGE);
    bus.clean(DEBUG_READ);
    bus.clean(DEBUG_WRITE);
    assert(bus.log() =~= stored + cleans());
}

/// What binding writes: the pages for flushes and faults, an invalidation, the
/// aperture, and two flushes of it.
pub open spec fn bind_writes(b: Backing) -> Seq<(usize, u32)> {
    seq![
        (FLUSH_ADDRESS, (b.flush / 256) as u32),
        (DEBUG_WRITE_ADDRESS, (b.debug_write / 4096 * 16) as u32),
        (DEBUG_READ_ADDRESS, (b.debug_read / 4096 * 16) as u32),
    ] + invalidate_writes(b.directory, false) + seq![
        (BAR1_BLOCK, (0x8000_0000 + b.instance / 4096) as u32),
        (FLUSH, 1u32),
        (FLUSH, 1u32),
    ]
}

/// The pages for flushes and faults were told.
pub open spec fn pages_told(before: Seq<Access>, b: Backing) -> Seq<Access> {
    before.push(Access::Write(FLUSH_ADDRESS, (b.flush / 256) as u32)).push(
        Access::Write(DEBUG_WRITE_ADDRESS, (b.debug_write / 4096 * 16) as u32),
    ).push(Access::Write(DEBUG_READ_ADDRESS, (b.debug_read / 4096 * 16) as u32))
}

/// The places at which a binding waited: no old translations, the aperture taken, and its
/// first flush.
pub struct Binding {
    pub fresh: Seq<Access>,
    pub taken: Seq<Access>,
    pub flushed: Seq<Access>,
}

/// So many of the waits of a binding were over.
pub open spec fn binding(before: Seq<Access>, s: Binding, b: Backing, n: int) -> bool {
    &&& n > 0 ==> was_invalidated(pages_told(before, b), s.fresh, b.directory, false)
    &&& n > 1 ==> settled(
        s.fresh.push(Access::Write(BAR1_BLOCK, (0x8000_0000 + b.instance / 4096) as u32)),
        s.taken,
        BIND_STATUS,
        Ready::Clear(3),
    )
    &&& n > 2 ==> bar_flushed(s.taken, s.flushed)
}

/// The aperture was bound.
pub open spec fn was_bound(before: Seq<Access>, after: Seq<Access>, b: Backing) -> bool {
    exists|s: Binding| #[trigger] binding(before, s, b, 3) && bar_flushed(s.flushed, after)
}

/// The aperture was not bound: which step was not over, and why.
pub open spec fn bind_failed(
    before: Seq<Access>,
    after: Seq<Access>,
    b: Backing,
    e: &'static str,
) -> bool {
    &&& mmio::extends(before, after)
    &&& exists|s: Binding, n: int|
        {
            &&& #[trigger] binding(before, s, b, n)
            &&& {
                ||| n == 0 && invalidate_failed(pages_told(before, b), after, b.directory, false, e)
                ||| n == 1 && completion_failed(
                    s.fresh.push(
                        Access::Write(BAR1_BLOCK, (0x8000_0000 + b.instance / 4096) as u32),
                    ),
                    after,
                    BIND_STATUS,
                    Ready::Clear(3),
                    e,
                )
                ||| n == 2 && flush_bar_failed(s.taken, after, e)
                ||| n == 3 && flush_bar_failed(s.flushed, after, e)
            }
        }
}

#[verifier::rlimit(60)]
fn bind<R: Dma>(bus: &mut Bus<'_, R>, b: &Backing) -> (r: Result<(), &'static str>)
    requires
        b.wf(),
    ensures
        final(bus).port() == old(bus).port(),
        mmio::memory_kept(old(bus).log(), final(bus).log()),
        r is Ok ==> mmio::writes(final(bus).log()) == mmio::writes(old(bus).log()) + bind_writes(
            *b,
        ),
        r is Err ==> exists|n: int|
            mmio::writes(final(bus).log()) == mmio::writes(old(bus).log())
                + #[trigger] bind_writes(*b).take(n),
        r is Ok ==> was_bound(old(bus).log(), final(bus).log(), *b),
        r matches Err(e) ==> bind_failed(old(bus).log(), final(bus).log(), *b, e),
{
    let ghost start = mmio::writes(bus.log());
    let ghost whole = bind_writes(*b);
    bus.write(FLUSH_ADDRESS, (b.flush / 256) as u32);
    bus.write(DEBUG_WRITE_ADDRESS, (b.debug_write / 4096 * 16) as u32);
    bus.write(DEBUG_READ_ADDRESS, (b.debug_read / 4096 * 16) as u32);
    let ghost ready = bus.log();
    assert(mmio::writes(bus.log()) =~= start + whole.take(3));
    let ghost mut s = Binding { fresh: ready, taken: ready, flushed: ready };
    assert(ready == pages_told(old(bus).log(), *b));
    assert(binding(old(bus).log(), s, *b, 0));
    let fresh = invalidate(bus, b.directory, false);
    proof {
        if fresh is Err {
            let n = choose|n: int|
                0 < n <= 3 && mmio::writes(bus.log()) == mmio::writes(ready)
                    + #[trigger] invalidate_writes(b.directory, false).take(n);
            assert(mmio::writes(bus.log()) =~= start + whole.take(3 + n));
        } else {
            assert(mmio::writes(bus.log()) =~= start + whole.take(6));
        }
    }
    fresh?;
    proof {
        s = Binding { fresh: bus.log(), ..s };
        assert(binding(old(bus).log(), s, *b, 1));
    }
    bus.write(BAR1_BLOCK, 0x8000_0000 + (b.instance / 4096) as u32);
    assert(mmio::writes(bus.log()) =~= start + whole.take(7));
    wait(bus, BIND_STATUS, Ready::Clear(3))?;
    proof {
        s = Binding { taken: bus.log(), ..s };
        assert(binding(old(bus).log(), s, *b, 2));
    }
    let once = flush_bar(bus);
    assert(mmio::writes(bus.log()) =~= start + whole.take(8));
    once?;
    proof {
        s = Binding { flushed: bus.log(), ..s };
        assert(binding(old(bus).log(), s, *b, 3));
    }
    let twice = flush_bar(bus);
    assert(mmio::writes(bus.log()) =~= start + whole.take(9));
    assert(whole.take(9) =~= whole);
    twice?;
    Ok(())
}

/// Everything written by an initialization that succeeds.
pub open spec fn gmmu_writes(
    b: Backing,
    elpg: u32,
    enumeration: u32,
    dstg: u32,
    security: u32,
    control: u32,
) -> Seq<(usize, u32)> {
    seq![powered(elpg)] + hardware::memory_writes(
        enumeration,
        dstg,
        security,
    ) + seq![(MMU_CTRL, control | 0x800)] + bind_writes(b) + seq![
        (FLUSH, 1u32),
        (LTC_FLUSH, 1u32),
    ] + invalidate_writes(b.directory, false) + invalidate_writes(b.directory, false)
}

/// Everything stored by an initialization that succeeds: the structures, a word
/// through the aperture, and the first entry moved to the other page and back.
pub open spec fn gmmu_stores(b: Backing) -> Seq<(usize, usize, u32)> {
    setup_stores(b) + seq![
        (BAR1, 0x400usize, PATTERN_W),
        (TABLE, 2usize, low_word((b.scratch + 4096) as u64)),
        (TABLE, 3usize, 0u32),
        (TABLE, 2usize, low_word(b.scratch)),
        (TABLE, 3usize, 0u32),
    ]
}

/// Sets up translation for the aperture, and shows that it works: memory is read
/// through it, written through it, and a moved entry is followed.
#[verifier::rlimit(100)]
pub fn initialize<R: Dma>(bus: &mut Bus<'_, R>, b: &Backing, table: &mut PageTable) -> (r: Result<
    (),
    &'static str,
>)
    requires
        b.wf(),
        table_wf(old(table)@),
        old(bus).log() == Seq::<Access>::empty(),
    ensures
        final(bus).port() == old(bus).port(),
        mmio::extends(old(bus).log(), final(bus).log()),
        table_wf(final(table)@),
        r is Ok ==> {
            &&& translation_proved(final(bus).log())
            &&& final(table)@ == with_scratch(old(table)@, b.scratch)
            &&& mmio::stores(final(bus).log()) == gmmu_stores(*b)
            &&& exists|
                elpg: u32,
                enumeration: u32,
                dstg: u32,
                security: u32,
                control: u32,
            |
                mmio::writes(final(bus).log()) == #[trigger] gmmu_writes(
                    *b,
                    elpg,
                    enumeration,
                    dstg,
                    security,
                    control,
                ) && mmio::saw(old(bus).log(), final(bus).log(), MC_ELPG_ENABLE, elpg)
                    && hardware::memory_found(
                    old(bus).log(),
                    final(bus).log(),
                    enumeration,
                    dstg,
                    security,
                    18,
                ) && mmio::saw(old(bus).log(), final(bus).log(), MMU_CTRL, control)
        },
        r is Ok ==> was_proved(final(bus).log().take(1), final(bus).log(), *b),
        r matches Err(e) ==> final(bus).log()[0]->Read_1 & 0x8000_0000 != 0 || prove_failed(
            final(bus).log().take(1),
            final(bus).log(),
            *b,
            e,
        ),
        // An aperture that is in use is left alone.
        final(bus).log().len() > 0 && (final(bus).log()[0] matches Access::Read(o, v) && o
            == BAR1_BLOCK),
        final(bus).log()[0]->Read_1 & 0x8000_0000 != 0 ==> r == Err::<(), &'static str>(
            "GPU BAR1 already has a virtual address space",
        ) && final(bus).log().len() == 1,
{
    let block: u32 = bus.read(BAR1_BLOCK);
    let ghost first = bus.log();
    if block & 0x8000_0000 != 0 {
        return Err("GPU BAR1 already has a virtual address space");
    }
    let r = enable_and_prove(bus, b, table);
    proof {
        assert(bus.log().take(1) =~= first);
        if r is Ok {
            let (elpg, e, d, s, control) = choose|
                elpg: u32,
                e: u32,
                d: u32,
                s: u32,
                control: u32,
            |
                mmio::writes(bus.log()) == #[trigger] gmmu_writes(*b, elpg, e, d, s, control)
                    && mmio::saw(first, bus.log(), MC_ELPG_ENABLE, elpg)
                    && hardware::memory_found(first, bus.log(), e, d, s, 18) && mmio::saw(
                    first,
                    bus.log(),
                    MMU_CTRL,
                    control,
                );
            let o = old(bus).log();
            mmio::lemma_saw_later(o, first, bus.log(), bus.log(), MC_ELPG_ENABLE, elpg);
            lemma_memory_found(o, first, bus.log(), e, d, s, 18);
            mmio::lemma_saw_later(o, first, bus.log(), bus.log(), MMU_CTRL, control);
        }
    }
    r
}

/// The memory units were turned on, and memory set up.
pub open spec fn memory_enabled(before: Seq<Access>, after: Seq<Access>) -> bool {
    &&& mmio::memory_kept(before, after)
    &&& exists|elpg: u32, enumeration: u32, dstg: u32, security: u32|
        mmio::writes(after) == mmio::writes(before).push(#[trigger] powered(elpg))
            + #[trigger] hardware::memory_writes(enumeration, dstg, security) && mmio::saw(
            before,
            after,
            MC_ELPG_ENABLE,
            elpg,
        ) && hardware::memory_found(before, after, enumeration, dstg, security, 18)
}

/// The places of an initialization: memory is on, the structures are written out, the
/// aperture is bound, a word that went through it is written back by it and by the cache,
/// and a moved entry is followed.
pub struct Setup {
    pub on: Seq<Access>,
    pub control: u32,
    pub laid: Seq<Access>,
    pub bound: Seq<Access>,
    pub flushed: Seq<Access>,
    pub written: Seq<Access>,
    pub moved: Seq<Access>,
}

/// Both scratch pages were read through the aperture.
pub open spec fn both_read(before: Seq<Access>, first: u32, second: u32) -> Seq<Access> {
    before.push(Access::Load(BAR1, 0x400, first)).push(Access::Load(BAR1, 0x800, second))
}

/// A scratch page was read from memory.
pub open spec fn memory_read(before: Seq<Access>, word: u32) -> Seq<Access> {
    before.push(Access::Refresh(SCRATCH)).push(Access::Load(SCRATCH, 0, word))
}

/// The first entry leads to some page now.
pub open spec fn entry_moved(before: Seq<Access>, paddr: u64) -> Seq<Access> {
    before.push(Access::Store(TABLE, 2, low_word(paddr))).push(Access::Store(TABLE, 3, 0))
}

/// So many steps of an initialization were over.
pub open spec fn setting_up(before: Seq<Access>, s: Setup, b: Backing, n: int) -> bool {
    &&& n > 0 ==> memory_enabled(before, s.on) && structures_laid(
        s.on.push(Access::Read(MMU_CTRL, s.control)).push(
            Access::Write(MMU_CTRL, s.control | 0x800),
        ),
        s.laid,
        b,
    )
    &&& n > 1 ==> was_bound(s.laid, s.bound, b)
    &&& n > 2 ==> bar_flushed(
        both_read(s.bound, PATTERN_A, PATTERN_B).push(Access::Store(BAR1, 0x400, PATTERN_W)),
        s.flushed,
    )
    &&& n > 3 ==> ltc_flushed(s.flushed, s.written)
    &&& n > 4 ==> was_invalidated(
        entry_moved(memory_read(s.written, PATTERN_W), (b.scratch + 4096) as u64),
        s.moved,
        b.directory,
        false,
    )
}

/// Translation was set up, and shown to work.
pub open spec fn was_proved(before: Seq<Access>, after: Seq<Access>, b: Backing) -> bool {
    exists|s: Setup| #[trigger]
        setting_up(before, s, b, 5) && was_invalidated(
            entry_moved(s.moved.push(Access::Load(BAR1, 0x400, PATTERN_B)), b.scratch),
            after,
            b.directory,
            false,
        )
}

/// Translation was not set up or not shown to work: where it stopped, and why.
pub open spec fn prove_failed(
    before: Seq<Access>,
    after: Seq<Access>,
    b: Backing,
    e: &'static str,
) -> bool {
    &&& mmio::extends(before, after)
    &&& {
        ||| {
            &&& before.len() < after.len()
            &&& memory_on(before, after)
            &&& enable_cause(e, after)
        }
        ||| exists|s: Setup, n: int| #[trigger]
            setting_up(before, s, b, n) && prove_stopped(s, after, b, n, e)
    }
}

/// What was wrong behind so many steps.
pub open spec fn prove_stopped(
    s: Setup,
    after: Seq<Access>,
    b: Backing,
    n: int,
    e: &'static str,
) -> bool {
    let seen = mmio::loads(after, BAR1, 0x400).last();
    let other = mmio::loads(after, BAR1, 0x800).last();
    let word = mmio::loads(after, SCRATCH, 0).last();
    ||| n == 1 && bind_failed(s.laid, after, b, e)
    ||| {
        &&& n == 2
        &&& e == "GMMU BAR1 physical backing read mismatch"
        &&& after == both_read(s.bound, seen, other)
        &&& seen != PATTERN_A || other != PATTERN_B
    }
    ||| n == 2 && flush_bar_failed(
        both_read(s.bound, PATTERN_A, PATTERN_B).push(Access::Store(BAR1, 0x400, PATTERN_W)),
        after,
        e,
    )
    ||| n == 3 && flush_ltc_failed(s.flushed, after, e)
    ||| {
        &&& n == 4
        &&& e == "GMMU BAR1 write did not reach physical backing"
        &&& after == memory_read(s.written, word)
        &&& word != PATTERN_W
    }
    ||| n == 4 && invalidate_failed(
        entry_moved(memory_read(s.written, PATTERN_W), (b.scratch + 4096) as u64),
        after,
        b.directory,
        false,
        e,
    )
    ||| {
        &&& n == 5
        &&& e == "GMMU TLB invalidation retained the old mapping"
        &&& after == s.moved.push(Access::Load(BAR1, 0x400, seen))
        &&& seen != PATTERN_B
    }
    ||| n == 5 && invalidate_failed(
        entry_moved(s.moved.push(Access::Load(BAR1, 0x400, PATTERN_B)), b.scratch),
        after,
        b.directory,
        false,
        e,
    )
}

/// The aperture is free: everything else.
#[verifier::rlimit(100)]
fn enable_and_prove<R: Dma>(bus: &mut Bus<'_, R>, b: &Backing, table: &mut PageTable) -> (r: Result<
    (),
    &'static str,
>)
    requires
        b.wf(),
        table_wf(old(table)@),
        old(bus).log().len() == 1,
        old(bus).log()[0] is Read,
    ensures
        final(bus).port() == old(bus).port(),
        table_wf(final(table)@),
        mmio::extends(old(bus).log(), final(bus).log()),
        r is Ok ==> was_proved(old(bus).log(), final(bus).log(), *b),
        r matches Err(e) ==> prove_failed(old(bus).log(), final(bus).log(), *b, e),
        r is Ok ==> {
            &&& translation_proved(final(bus).log())
            &&& final(table)@ == with_scratch(old(table)@, b.scratch)
            &&& mmio::stores(final(bus).log()) == gmmu_stores(*b)
            &&& exists|
                elpg: u32,
                enumeration: u32,
                dstg: u32,
                security: u32,
                control: u32,
            |
                mmio::writes(final(bus).log()) == #[trigger] gmmu_writes(
                    *b,
                    elpg,
                    enumeration,
                    dstg,
                    security,
                    control,
                ) && mmio::saw(old(bus).log(), final(bus).log(), MC_ELPG_ENABLE, elpg)
                    && hardware::memory_found(
                    old(bus).log(),
                    final(bus).log(),
                    enumeration,
                    dstg,
                    security,
                    18,
                ) && mmio::saw(old(bus).log(), final(bus).log(), MMU_CTRL, control)
        },
{
    let on = enable_memory(bus);
    let ghost (elpg, enumeration, dstg, security) = choose|
        elpg: u32,
        enumeration: u32,
        dstg: u32,
        security: u32,
    |
        mmio::writes(bus.log()) == mmio::writes(old(bus).log()).push(#[trigger] powered(elpg))
            + #[trigger] hardware::memory_writes(enumeration, dstg, security) && mmio::saw(
            old(bus).log(),
            bus.log(),
            MC_ELPG_ENABLE,
            elpg,
        ) && hardware::memory_found(old(bus).log(), bus.log(), enumeration, dstg, security, 18);
    on?;
    let ghost enabled = bus.log();
    assert(memory_enabled(old(bus).log(), enabled));
    let ghost mut s = Setup {
        on: enabled,
        control: 0,
        laid: enabled,
        bound: enabled,
        flushed: enabled,
        written: enabled,
        moved: enabled,
    };
    let ghost head = seq![powered(elpg)] + hardware::memory_writes(enumeration, dstg, security);
    assert(mmio::writes(old(bus).log()) =~= seq![]) by {
        let empty = old(bus).log().drop_last();
        assert(mmio::writes(empty) =~= seq![]);
    }
    assert(mmio::writes(bus.log()) =~= head);
    let control: u32 = bus.read(MMU_CTRL);
    let ghost controlled = bus.log();
    bus.write(MMU_CTRL, control | 0x800);
    store_structures(bus, b, table);
    proof {
        assert(mmio::stores(old(bus).log()) =~= seq![]) by {
            let empty = old(bus).log().drop_last();
            assert(mmio::stores(empty) =~= seq![]);
        }
        assert(mmio::stores(bus.log()) =~= setup_stores(*b));
    }
    proof {
        s = Setup { on: enabled, control, laid: bus.log(), ..s };
        assert(setting_up(old(bus).log(), s, *b, 1));
    }
    bind(bus, b)?;
    proof {
        s = Setup { bound: bus.log(), ..s };
        assert(setting_up(old(bus).log(), s, *b, 2));
    }
    let ghost bound = head + seq![(MMU_CTRL, control | 0x800)] + bind_writes(*b);
    assert(mmio::writes(bus.log()) =~= bound);
    let a: u32 = bus.load(BAR1, 0x400);
    let other: u32 = bus.load(BAR1, 0x800);
    proof {
        assert(bus.log() == both_read(s.bound, a, other));
    }
    if a != PATTERN_A || other != PATTERN_B {
        return Err("GMMU BAR1 physical backing read mismatch");
    }
    bus.store(BAR1, 0x400, PATTERN_W);
    flush_bar(bus)?;
    proof {
        s = Setup { flushed: bus.log(), ..s };
        assert(setting_up(old(bus).log(), s, *b, 3));
    }
    flush_ltc(bus)?;
    proof {
        s = Setup { written: bus.log(), ..s };
        assert(setting_up(old(bus).log(), s, *b, 4));
    }
    bus.refresh(SCRATCH);
    let written: u32 = bus.load(SCRATCH, 0);
    proof {
        assert(bus.log() == memory_read(s.written, written));
    }
    if written != PATTERN_W {
        return Err("GMMU BAR1 write did not reach physical backing");
    }
    store_entry(bus, table, VA_A, b.scratch + 4096);
    assert(bus.log() == entry_moved(
        memory_read(s.written, PATTERN_W),
        (b.scratch + 4096) as u64,
    ));
    invalidate(bus, b.directory, false)?;
    proof {
        s = Setup { moved: bus.log(), ..s };
        assert(setting_up(old(bus).log(), s, *b, 5));
    }
    let remapped: u32 = bus.load(BAR1, 0x400);
    if remapped != PATTERN_B {
        return Err("GMMU TLB invalidation retained the old mapping");
    }
    store_entry(bus, table, VA_A, b.scratch);
    assert(bus.log() == entry_moved(
        s.moved.push(Access::Load(BAR1, 0x400, PATTERN_B)),
        b.scratch,
    ));
    invalidate(bus, b.directory, false)?;
    proof {
        assert(mmio::writes(bus.log()) =~= gmmu_writes(
            *b,
            elpg,
            enumeration,
            dstg,
            security,
            control,
        ));
        let o = old(bus).log();
        mmio::lemma_saw_later(o, o, enabled, bus.log(), MC_ELPG_ENABLE, elpg);
        mmio::lemma_saw_later(o, o, enabled, bus.log(), hardware::PARTITIONS, enumeration);
        mmio::lemma_saw_later(o, o, enabled, bus.log(), hardware::SLICES, dstg);
        mmio::lemma_saw_later(o, o, enabled, bus.log(), hardware::SECURITY, security);
        mmio::lemma_saw(o, controlled, bus.log(), MMU_CTRL, control);
        assert(mmio::stores(bus.log()) =~= gmmu_stores(*b));
        assert(table@ =~= with_scratch(old(table)@, b.scratch));
        lemma_no_loads(old(bus).log(), BAR1, 0x400);
        lemma_no_loads(old(bus).log(), BAR1, 0x800);
        lemma_no_loads(old(bus).log(), SCRATCH, 0);
        assert(mmio::loads(bus.log(), BAR1, 0x400) =~= seq![PATTERN_A, PATTERN_B]);
        assert(mmio::loads(bus.log(), BAR1, 0x800) =~= seq![PATTERN_B]);
        assert(mmio::loads(bus.log(), SCRATCH, 0) =~= seq![PATTERN_W]);
    }
    Ok(())
}

/// A single read of a register is no load.
proof fn lemma_no_loads(log: Seq<Access>, area: usize, word: usize)
    requires
        log.len() == 1,
        log[0] is Read,
    ensures
        mmio::loads(log, area, word) == Seq::<u32>::empty(),
{
    let empty = log.drop_last();
    assert(mmio::loads(empty, area, word) =~= seq![]);
}

/// The page kind that an entry's attribute word names.
pub open spec fn kind_of(word: u32) -> int {
    word as int / 16
}

/// Whether an entry's attribute word lets its page be cached: bit 3 forbids it.
pub open spec fn cached(word: u32) -> bool {
    word as int / 8 % 2 == 0
}

/// Every mapped page has the kind and the cache attribute that were asked for, whichever
/// they are, and every other entry is as it was.
pub proof fn mappings_keep_their_attributes(
    words: Seq<u32>,
    first: int,
    count: int,
    paddr: u64,
    cacheable: bool,
    kind: u8,
    page: int,
)
    requires
        table_wf(words),
        0 <= page < PAGES,
    ensures
        ({
            let after = mapped(words, first, count, paddr, cacheable, kind);
            if first <= page < first + count {
                &&& kind_of(after[2 * page + 1]) == kind
                &&& cached(after[2 * page + 1]) == cacheable
                &&& after[2 * page + 1] % 8 == 0
            } else {
                after[2 * page] == words[2 * page] && after[2 * page + 1] == words[2 * page + 1]
            }
        }),
{
    assert((2 * page) / 2 == page && (2 * page) % 2 == 0);
    assert((2 * page + 1) / 2 == page && (2 * page + 1) % 2 == 1);
}

/// Mappings that differ in kind or cache attribute differ in their entries.
pub proof fn attributes_tell_mappings_apart(
    words: Seq<u32>,
    first: int,
    count: int,
    paddr: u64,
    cacheable: bool,
    kind: u8,
    other_cacheable: bool,
    other_kind: u8,
    page: int,
)
    requires
        table_wf(words),
        0 <= page < PAGES,
        first <= page < first + count,
        mapped(words, first, count, paddr, cacheable, kind)[2 * page + 1] == mapped(
            words,
            first,
            count,
            paddr,
            other_cacheable,
            other_kind,
        )[2 * page + 1],
    ensures
        kind == other_kind && cacheable == other_cacheable,
{
    mappings_keep_their_attributes(words, first, count, paddr, cacheable, kind, page);
    mappings_keep_their_attributes(words, first, count, paddr, other_cacheable, other_kind, page);
}

/// The directory leads to the page table: each of its entries is on, and names the table's
/// own place, the tables of neighbours standing 128 KiB apart.
pub proof fn directories_lead_to_the_table(table: u64, index: int)
    requires
        table % 4096 == 0,
        reachable(table, 256),
        0 <= index < PDE_COUNT,
    ensures
        directory_word(table, index) as int / 16 * 4096 == table + index * 131072,
        directory_word(table, index) as int % 16 == 5,
{
}

/// An instance leads to its directory, and spans the whole address space.
pub proof fn instances_lead_to_their_directory(directory: u64)
    requires
        directory % 4096 == 0,
    ensures
        ({
            let w = instance_words(directory);
            &&& w.len() == 4
            &&& (w[0] - w[0] % 4096) + 0x1_0000_0000 * w[1] == directory
            &&& w[0] % 4096 == 0x804
            &&& w[2] + 0x1_0000_0000 * w[3] + 4096 == VA_LIMIT
        }),
{
}

/// Translations are dropped for one directory, which is named in units of 256 bytes, either
/// all of them or those of the graphics engines; the cache drops its entries before.
pub proof fn translations_are_dropped_for_their_directory(directory: u64, all: bool)
    requires
        directory % 4096 == 0,
        directory < 0x10_0000_0000,
    ensures
        ({
            let w = invalidate_writes(directory, all);
            &&& w.len() == 3
            &&& w[0] == (0x7_0004usize, 1u32)
            &&& w[1].0 == 0x10_0cb8 && 256 * w[1].1 == directory
            &&& w[2].0 == 0x10_0cbc && w[2].1 == if all {
                0x8000_0001int
            } else {
                0x8000_0005
            }
        }),
{
}

/// Translations are gone once the request was taken and is seen to be over.
pub proof fn dropped_translations_are_gone(
    before: Seq<Access>,
    after: Seq<Access>,
    directory: u64,
    all: bool,
)
    requires
        was_invalidated(before, after, directory, all),
    ensures
        after.last() matches Access::Read(o, v) && o == 0x10_0c80 && v != 0xffff_ffff && v & 0x8000
            != 0,
        exists|k: int|
            {
                &&& before.len() < k < after.len() - 3
                &&& #[trigger] after[k] matches Access::Read(o, v) && o == 0x10_0c80 && v
                    & 0x00ff_0000 != 0
                &&& after[k + 1] == Access::Write(0x10_0cb8, (directory / 4096 * 16) as u32)
                &&& after[k + 2] == Access::Write(
                    0x10_0cbc,
                    if all {
                        0x8000_0001
                    } else {
                        0x8000_0005
                    },
                )
            },
{
    let (clean, room) = choose|clean: Seq<Access>, room: Seq<Access>| #[trigger]
        dropped(before, clean, room) && settled(
            telling(room, directory, all),
            after,
            MMU_CTRL,
            Ready::Any(0x8000),
        );
    let told = telling(room, directory, all);
    let k = room.len() - 1;
    assert(told.len() == room.len() + 2);
    assert(mmio::quiet(told, after));
    assert(after[k] == told[k]);
    assert(after[k + 1] == told[k + 1]);
    assert(after[k + 2] == told[k + 2]);
}

/// The directory's entries are every second word, in order; the first two pages behind the
/// first are the scratch pages; and the instance names the directory.
pub proof fn structures_are_laid_in_order(b: Backing, i: int)
    requires
        0 <= i < 8,
    ensures
        ({
            let s = setup_stores(b);
            &&& s.len() == 18
            &&& s[i].0 == 0 && s[i].1 == 2 * i + 1 && s[i].2 == directory_word(b.table, i)
            &&& s[8] == (1usize, 2usize, low_word(b.scratch)) && s[9] == (1usize, 3usize, 0u32)
            &&& s[10] == (1usize, 4usize, low_word((b.scratch + 4096) as u64)) && s[11] == (
                1usize,
                5usize,
                0u32,
            )
            &&& i < 4 ==> s[12 + i] == (
                2usize,
                (128 + i) as usize,
                instance_words(b.directory)[i],
            )
        }),
{
}

/// Waiting for a register ends when the awaited bits are clear, or one of them is set.
pub proof fn readiness_is_told_by_bits(value: u32, mask: u32)
    ensures
        ready_spec(Ready::Clear(mask), value) <==> value & mask == 0,
        ready_spec(Ready::Any(mask), value) <==> value & mask != 0,
{
}

/// Translation is proved by what memory and the aperture show of each other: the first
/// pattern through the first page, the second through both once its entry is changed, and in
/// memory what was written through the aperture.
pub proof fn proofs_show_patterns(log: Seq<Access>)
    requires
        translation_proved(log),
    ensures
        mmio::loads(log, 7, 0x400).len() == 2,
        4 * 0x400int == VA_A && 4 * 0x800int == VA_B,
        mmio::loads(log, 7, 0x400)[0] == 0x5347_4131 && mmio::loads(log, 7, 0x400)[1] == 0x5347_4232,
        mmio::loads(log, 7, 0x800) == seq![0x5347_4232u32],
        mmio::loads(log, 3, 0) == seq![0x5347_5733u32],
{
}

} // verus!
