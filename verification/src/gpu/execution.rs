//! Laying out the memory of the engines, and carrying out one submission of
//! graphics from its words to the end of its work.
use vstd::prelude::*;

use crate::gpu::context;
use crate::gpu::fifo;
use crate::gpu::fifo::Fifo;
use crate::gpu::gmmu;
use crate::gpu::gmmu::PageTable;
use crate::gpu::gr;
use crate::gpu::graphics;
use crate::gpu::graphics::{Methods, Sequencer, SubmitError, Viewport};
use crate::gpu::submit::Pipeline;
use crate::mmio;
use crate::mmio::{Access, Bus, Dma};

verus! {

/// Areas of shared memory that belong to graphics.
pub const PROGRAMS: usize = 22;

pub const AUX: usize = 23;

pub const DESCRIPTORS: usize = 24;

pub const CONTEXT: usize = 25;

pub const PATCHES: usize = 26;

pub const PUSH: usize = 27;

pub const VERTEX: usize = 28;

pub const TARGET: usize = 29;

pub const TEXTURE: usize = 30;

pub const TILE: usize = 31;

/// Page kind of tiled color.
pub const TILED: u8 = 0xfe;

/// Memory that an engine sees at an address.
#[derive(Clone, Copy, Debug)]
pub struct Place {
    pub va: usize,
    pub paddr: u64,
    pub pages: usize,
    pub cacheable: bool,
    pub kind: u8,
}

impl Place {
    /// Whether the place lies where something can be mapped on request.
    pub open spec fn fits(self) -> bool {
        self.pages * 4096 <= usize::MAX && gmmu::request_ok(
            self.va,
            self.paddr,
            self.pages as int,
        )
    }

    pub open spec fn first(self) -> int {
        self.va as int / 4096
    }

    /// How many of the pages are mapped before one is in the way.
    pub open spec fn count(self, words: Seq<u32>) -> int {
        if self.fits() {
            gmmu::first_valid(words, self.first(), self.first() + self.pages) - self.first()
        } else {
            0
        }
    }

    pub open spec fn placed(self, words: Seq<u32>) -> Seq<u32> {
        if self.fits() {
            gmmu::mapped(
                words,
                self.first(),
                self.count(words),
                self.paddr,
                self.cacheable,
                self.kind,
            )
        } else {
            words
        }
    }

    pub open spec fn error(self, words: Seq<u32>) -> Option<&'static str> {
        if self.pages * 4096 > usize::MAX {
            Some("private GPU mapping size overflow")
        } else if !self.fits() {
            Some("private GPU mapping outside retained address space")
        } else if self.count(words) < self.pages {
            Some("private GPU mapping would replace a valid PTE")
        } else {
            None
        }
    }

    /// The entries that are published: both words of each mapped page.
    pub open spec fn entries(self, words: Seq<u32>) -> Seq<(usize, usize, u32)> {
        let after = self.placed(words);
        Seq::new(
            (2 * self.count(words)) as nat,
            |i: int|
                (gmmu::TABLE, (2 * self.first() + i) as usize, after[2 * self.first() + i]),
        )
    }
}

/// The first page in the way lies in the range, or is its end.
pub proof fn lemma_first_valid(words: Seq<u32>, page: int, end: int)
    requires
        page <= end,
    ensures
        page <= gmmu::first_valid(words, page, end) <= end,
    decreases end - page,
{
    if page < end && gmmu::translate(words, page) is None {
        lemma_first_valid(words, page + 1, end);
    }
}

/// The pages from one on that are free.
fn free_pages(table: &PageTable, first: usize, pages: usize) -> (count: usize)
    requires
        gmmu::table_wf(table@),
        first <= gmmu::PAGES,
        pages <= gmmu::PAGES - first,
    ensures
        first + count == gmmu::first_valid(table@, first as int, first + pages),
        count <= pages,
{
    let mut count: usize = 0;
    while count < pages
        invariant
            gmmu::table_wf(table@),
            count <= pages,
            first <= gmmu::PAGES,
            pages <= gmmu::PAGES - first,
            gmmu::first_valid(table@, first as int, first + pages) == gmmu::first_valid(
                table@,
                first + count,
                first + pages,
            ),
        decreases pages - count,
    {
        let word: u32 = table.word(2 * (first + count));
        if word % 2 == 1 {
            assert(gmmu::translate(table@, first + count) is Some);
            return count;
        }
        assert(gmmu::translate(table@, first + count) is None);
        count = count + 1;
    }
    count
}

/// Maps a place and publishes the entries that changed.
#[verifier::rlimit(60)]
pub fn place<R: Dma>(bus: &mut Bus<'_, R>, table: &mut PageTable, p: Place) -> (r: Result<
    (),
    &'static str,
>)
    requires
        gmmu::table_wf(old(table)@),
    ensures
        final(bus).port() == old(bus).port(),
        mmio::extends(old(bus).log(), final(bus).log()),
        gmmu::table_wf(final(table)@),
        final(table)@ == p.placed(old(table)@),
        match r {
            Ok(_) => p.error(old(table)@) is None,
            Err(e) => p.error(old(table)@) == Some(e),
        },
        mmio::writes(final(bus).log()) == mmio::writes(old(bus).log()),
        mmio::stores(final(bus).log()) == mmio::stores(old(bus).log()) + p.entries(old(table)@),
{
    let ghost start = mmio::stores(bus.log());
    let ghost before = table@;
    let fits: bool = p.va >= gmmu::FIRST_PRIVATE && p.va % gmmu::PAGE == 0 && p.va <= 0x2000_0000
        && p.pages <= (0x2000_0000 - p.va) / gmmu::PAGE && gmmu::is_reachable(p.paddr, p.pages);
    proof {
        if p.fits() {
            assert(p.pages * 4096 <= 0x2000_0000 - p.va);
        }
        assert(fits == p.fits());
        lemma_first_valid(before, p.first(), p.first() + p.pages);
    }
    let first: usize = p.va / gmmu::PAGE;
    let count: usize = if fits {
        free_pages(table, first, p.pages)
    } else {
        0
    };
    let r = table.map_private(p.va, p.paddr, p.pages, p.cacheable, p.kind);
    assert(count == p.count(before));
    assert(table@ == p.placed(before));
    let mut i: usize = 0;
    while i < 2 * count
        invariant
            mmio::extends(old(bus).log(), bus.log()),
            bus.port() == old(bus).port(),
            i <= 2 * count,
            fits == p.fits(),
            fits ==> first + p.pages <= gmmu::PAGES,
            count <= p.pages,
            !fits ==> count == 0,
            first == p.first(),
            count == p.count(before),
            gmmu::table_wf(table@),
            table@ == p.placed(before),
            mmio::writes(bus.log()) == mmio::writes(old(bus).log()),
            mmio::stores(bus.log()) =~= start + p.entries(before).take(i as int),
        decreases 2 * count - i,
    {
        let word: u32 = table.word(2 * first + i);
        bus.store(gmmu::TABLE, 2 * first + i, word);
        assert(p.entries(before).take(i + 1) =~= p.entries(before).take(i as int).push(
            p.entries(before)[i as int],
        ));
        i = i + 1;
    }
    assert(p.entries(before).take(2 * count as int) =~= p.entries(before));
    r
}

/// A table after some places, the entries that were published, and what stopped it.
pub open spec fn laid(words: Seq<u32>, places: Seq<Place>) -> (
    Seq<u32>,
    Seq<(usize, usize, u32)>,
    Option<&'static str>,
)
    decreases places.len(),
{
    if places.len() == 0 {
        (words, seq![], None)
    } else {
        let before = laid(words, places.drop_last());
        let p = places.last();
        if before.2 is Some {
            before
        } else {
            (p.placed(before.0), before.1 + p.entries(before.0), p.error(before.0))
        }
    }
}

proof fn lemma_laid_stays(words: Seq<u32>, places: Seq<Place>, k: int)
    requires
        0 <= k <= places.len(),
        laid(words, places.take(k)).2 is Some,
    ensures
        laid(words, places) == laid(words, places.take(k)),
    decreases places.len(),
{
    if k < places.len() {
        assert(places.drop_last().take(k) =~= places.take(k));
        lemma_laid_stays(words, places.drop_last(), k);
    } else {
        assert(places.take(k) =~= places);
    }
}

/// Maps places in order, up to the first that cannot be mapped.
pub fn place_all<R: Dma>(
    bus: &mut Bus<'_, R>,
    table: &mut PageTable,
    places: &Vec<Place>,
) -> (r: Result<(), &'static str>)
    requires
        gmmu::table_wf(old(table)@),
    ensures
        final(bus).port() == old(bus).port(),
        mmio::extends(old(bus).log(), final(bus).log()),
        gmmu::table_wf(final(table)@),
        final(table)@ == laid(old(table)@, places@).0,
        match r {
            Ok(_) => laid(old(table)@, places@).2 is None,
            Err(e) => laid(old(table)@, places@).2 == Some(e),
        },
        mmio::writes(final(bus).log()) == mmio::writes(old(bus).log()),
        mmio::stores(final(bus).log()) == mmio::stores(old(bus).log()) + laid(
            old(table)@,
            places@,
        ).1,
{
    let ghost words = table@;
    let ghost start = mmio::stores(bus.log());
    let mut k: usize = 0;
    assert(places@.take(0) =~= Seq::<Place>::empty());
    while k < places.len()
        invariant
            mmio::extends(old(bus).log(), bus.log()),
            bus.port() == old(bus).port(),
            k <= places@.len(),
            words == old(table)@,
            start == mmio::stores(old(bus).log()),
            gmmu::table_wf(table@),
            laid(words, places@.take(k as int)).2 is None,
            table@ == laid(words, places@.take(k as int)).0,
            mmio::writes(bus.log()) == mmio::writes(old(bus).log()),
            mmio::stores(bus.log()) =~= start + laid(words, places@.take(k as int)).1,
        ensures
            k == places@.len(),
        decreases places@.len() - k,
    {
        assert(places@.take(k + 1).drop_last() =~= places@.take(k as int));
        let p: Place = places[k];
        if let Err(e) = place(bus, table, p) {
            proof {
                lemma_laid_stays(words, places@, k + 1);
            }
            return Err(e);
        }
        k = k + 1;
    }
    assert(places@.take(k as int) =~= places@);
    Ok(())
}

/// Where the channel sees its own memory.
pub open spec fn fifo_place_list(paddrs: Seq<u64>) -> Seq<Place> {
    Seq::new(
        6,
        |i: int|
            Place {
                va: (fifo::USERD_VA + i * 4096) as usize,
                paddr: paddrs[i],
                pages: 1,
                cacheable: false,
                kind: 0,
            },
    )
}

/// What the channel's own memory is seen as. The engine that reads the queue updates
/// it behind the cache, so nothing of it may be cached.
pub fn fifo_places(paddrs: [u64; 6]) -> (r: Vec<Place>)
    ensures
        r@ == fifo_place_list(paddrs@),
{
    let mut r: Vec<Place> = Vec::new();
    let mut i: usize = 0;
    while i < 6
        invariant
            i <= 6,
            r@ =~= Seq::new(
                i as nat,
                |i: int|
                    Place {
                        va: (fifo::USERD_VA + i * 4096) as usize,
                        paddr: paddrs@[i],
                        pages: 1,
                        cacheable: false,
                        kind: 0,
                    },
            ),
        decreases 6 - i,
    {
        r.push(
            Place {
                va: fifo::USERD_VA + i * gmmu::PAGE,
                paddr: paddrs[i],
                pages: 1,
                cacheable: false,
                kind: 0,
            },
        );
        i = i + 1;
    }
    r
}

/// Where graphics sees its programs, auxiliary data, descriptors, context, patches,
/// commands, vertices, target and texture, and last the tiled target.
pub open spec fn graphics_vas() -> Seq<usize> {
    seq![
        0x27_0000usize,
        0x28_0000,
        0x29_0000,
        0x2a_0000,
        0x3a_0000,
        0x40_0000,
        0x3b_0000,
        0x3c_0000,
        0x3d_0000,
        0x50_0000,
    ]
}

pub open spec fn graphics_place(paddrs: Seq<u64>, pages: Seq<usize>, i: int) -> Place {
    Place {
        va: graphics_vas()[i],
        paddr: paddrs[i],
        pages: pages[i],
        cacheable: true,
        kind: if i == 9 {
            TILED
        } else {
            0
        },
    }
}

pub fn graphics_places(paddrs: [u64; 10], pages: [usize; 10]) -> (r: Vec<Place>)
    ensures
        r@ == Seq::new(10, |i: int| graphics_place(paddrs@, pages@, i)),
{
    let vas: [usize; 10] = [
        graphics::PROGRAM_VA as usize,
        graphics::AUX_VA as usize,
        graphics::DESCRIPTOR_VA as usize,
        graphics::CONTEXT_VA as usize,
        graphics::PATCH_VA as usize,
        graphics::PUSH_VA as usize,
        graphics::VERTEX_VA as usize,
        graphics::IMAGE_VA as usize,
        graphics::TEXTURE_VA as usize,
        graphics::TILE_VA as usize,
    ];
    assert(vas@ =~= graphics_vas());
    let mut r: Vec<Place> = Vec::new();
    let mut i: usize = 0;
    while i < 10
        invariant
            i <= 10,
            vas@ == graphics_vas(),
            r@ =~= Seq::new(i as nat, |i: int| graphics_place(paddrs@, pages@, i)),
        decreases 10 - i,
    {
        let kind: u8 = if i == 9 {
            TILED
        } else {
            0
        };
        r.push(Place { va: vas[i], paddr: paddrs[i], pages: pages[i], cacheable: true, kind });
        i = i + 1;
    }
    r
}

/// The binding of an instance to the address space.
pub open spec fn binding(area: usize, directory: u64) -> Seq<(usize, usize, u32)> {
    let words = gmmu::instance_words(directory);
    seq![
        (area, 128usize, words[0]),
        (area, 129usize, words[1]),
        (area, 130usize, words[2]),
        (area, 131usize, words[3]),
    ]
}

/// Maps the channel's memory, binds it to the address space, and prepares the channel
/// once the engines see the new entries.
pub fn initialize_fifo_hardware<R: Dma>(
    bus: &mut Bus<'_, R>,
    table: &mut PageTable,
    fifo: &mut Fifo,
    paddrs: [u64; 6],
    directory: u64,
) -> (r: Result<(), &'static str>)
    requires
        gmmu::table_wf(old(table)@),
        old(fifo).wf(),
        gmmu::reachable(directory, 1),
    ensures
        final(bus).port() == old(bus).port(),
        mmio::extends(old(bus).log(), final(bus).log()),
        gmmu::table_wf(final(table)@),
        final(fifo).same_channel(*old(fifo)),
        was_initialized(
            paddrs@,
            directory,
            old(fifo).userd,
            old(table)@,
            final(table)@,
            old(bus).log(),
            final(bus).log(),
            final(fifo).failure,
            match r {
                Ok(_) => None,
                Err(e) => Some(e),
            },
        ),
{
    let ghost words = table@;
    let ghost start = bus.log();
    let places = fifo_places(paddrs);
    if let Err(e) = place_all(bus, table, &places) {
        return Err(e);
    }
    gmmu::store_instance(bus, fifo::INSTANCE, directory);
    let ghost stored = mmio::stores(bus.log());
    assert(stored =~= mmio::stores(start) + laid(words, places@).1 + binding(
        fifo::INSTANCE,
        directory,
    ));
    let ghost placed = bus.log();
    assert(stored =~= mmio::stores(start) + (laid(words, places@).1 + binding(
        fifo::INSTANCE,
        directory,
    )));
    assert(gmmu::only_stored(start, placed, laid(words, places@).1 + binding(
        fifo::INSTANCE,
        directory,
    )));
    if let Err(e) = gmmu::invalidate(bus, directory, false) {
        return Err(e);
    }
    assert(gmmu::was_invalidated(placed, bus.log(), directory, false));
    fifo.prepare_hardware(bus)
}

/// How far the initialization of the channel's memory came, and what it left.
pub open spec fn was_initialized(
    paddrs: Seq<u64>,
    directory: u64,
    userd: u64,
    words: Seq<u32>,
    after_words: Seq<u32>,
    before: Seq<Access>,
    after: Seq<Access>,
    failure: Option<fifo::FailureSnapshot>,
    error: Option<&'static str>,
) -> bool {
    let l = laid(words, fifo_place_list(paddrs));
    let bound = l.1 + binding(fifo::INSTANCE, directory);
    &&& mmio::extends(before, after)
    &&& after_words == l.0
    &&& match error {
        None => l.2 is None && exists|placed: Seq<Access>, fresh: Seq<Access>|
            {
                &&& #[trigger] gmmu::only_stored(before, placed, bound)
                &&& #[trigger] gmmu::was_invalidated(placed, fresh, directory, false)
                &&& fifo::host_ready(userd, fresh, after)
            },
        Some(e) => {
            // A place could not be mapped.
            ||| l.2 == Some(e) && gmmu::only_stored(before, after, l.1)
            // The engines did not take the entries over.
            ||| l.2 is None && exists|placed: Seq<Access>|
                #[trigger] gmmu::only_stored(before, placed, bound) && gmmu::invalidate_failed(
                    placed,
                    after,
                    directory,
                    false,
                    e,
                )
            // The channel was not seen as it was stored.
            ||| l.2 is None && exists|placed: Seq<Access>, fresh: Seq<Access>|
                {
                    &&& #[trigger] gmmu::only_stored(before, placed, bound)
                    &&& #[trigger] gmmu::was_invalidated(placed, fresh, directory, false)
                    &&& fifo::host_not_ready(userd, fresh, after, failure, e)
                }
        },
    }
}

/// Some entries were stored, and each instance was bound and written out.
pub open spec fn were_bound(
    before: Seq<Access>,
    after: Seq<Access>,
    entries: Seq<(usize, usize, u32)>,
    instances: Seq<usize>,
    directory: u64,
) -> bool {
    &&& gmmu::only_stored(before, after, entries + bindings(instances, directory))
    &&& forall|k: int|
        0 <= k < instances.len() ==> #[trigger] written_out(
            before,
            after,
            entries.len() as int,
            instances,
            k,
        )
}

/// One instance was written out behind its words.
pub open spec fn written_out(
    before: Seq<Access>,
    after: Seq<Access>,
    entries: int,
    instances: Seq<usize>,
    k: int,
) -> bool {
    mmio::stood_behind(before, after, entries + 4 * (k + 1), Access::Clean(instances[k]))
}

/// Maps the memory of an engine and binds its instances, so that the engine sees it.
#[verifier::rlimit(100)]
pub fn lay_out<R: Dma>(
    bus: &mut Bus<'_, R>,
    table: &mut PageTable,
    places: &Vec<Place>,
    instances: &Vec<usize>,
    directory: u64,
) -> (r: Result<(), &'static str>)
    requires
        gmmu::table_wf(old(table)@),
        gmmu::reachable(directory, 1),
    ensures
        final(bus).port() == old(bus).port(),
        mmio::extends(old(bus).log(), final(bus).log()),
        gmmu::table_wf(final(table)@),
        final(table)@ == laid(old(table)@, places@).0,
        laid(old(table)@, places@).2 matches Some(e) ==> r == Err::<(), &'static str>(e)
            && mmio::writes(final(bus).log()) == mmio::writes(old(bus).log()),
        laid(old(table)@, places@).2 is None ==> {
            &&& mmio::stores(final(bus).log()) == mmio::stores(old(bus).log()) + laid(
                old(table)@,
                places@,
            ).1 + bindings(instances@, directory)
            &&& exists|placed: Seq<Access>|
                {
                    &&& #[trigger] were_bound(
                        old(bus).log(),
                        placed,
                        laid(old(table)@, places@).1,
                        instances@,
                        directory,
                    )
                    &&& match r {
                        Ok(_) => gmmu::was_invalidated(
                            placed,
                            final(bus).log(),
                            directory,
                            true,
                        ),
                        Err(e) => gmmu::invalidate_failed(
                            placed,
                            final(bus).log(),
                            directory,
                            true,
                            e,
                        ),
                    }
                }
        },
{
    let ghost start = mmio::stores(bus.log());
    place_all(bus, table, places)?;
    let ghost entries = laid(old(table)@, places@).1;
    let mut k: usize = 0;
    assert(instances@.take(0) =~= Seq::<usize>::empty());
    while k < instances.len()
        invariant
            mmio::extends(old(bus).log(), bus.log()),
            bus.port() == old(bus).port(),
            k <= instances@.len(),
            start == mmio::stores(old(bus).log()),
            gmmu::reachable(directory, 1),
            mmio::writes(bus.log()) == mmio::writes(old(bus).log()),
            bindings(instances@.take(k as int), directory).len() == 4 * k,
            mmio::stores(bus.log()) =~= start + entries + bindings(
                instances@.take(k as int),
                directory,
            ),
            forall|j: int|
                0 <= j < k ==> #[trigger] written_out(
                    old(bus).log(),
                    bus.log(),
                    entries.len() as int,
                    instances@,
                    j,
                ),
        decreases instances@.len() - k,
    {
        assert(instances@.take(k + 1).drop_last() =~= instances@.take(k as int));
        let area: usize = instances[k];
        let ghost before = bus.log();
        gmmu::store_instance(bus, area, directory);
        bus.clean(area);
        proof {
            let n = entries.len() as int;
            mmio::lemma_stood_behind(
                old(bus).log(),
                bus.log(),
                bus.log(),
                n + 4 * (k + 1),
                Access::Clean(area),
            );
            assert forall|j: int| 0 <= j < k + 1 implies #[trigger] written_out(
                old(bus).log(),
                bus.log(),
                n,
                instances@,
                j,
            ) by {
                if j < k {
                    assert(written_out(old(bus).log(), before, n, instances@, j));
                    mmio::lemma_behind_later(
                        old(bus).log(),
                        before,
                        bus.log(),
                        n + 4 * (j + 1),
                        Access::Clean(instances@[j]),
                    );
                }
            }
        }
        k = k + 1;
    }
    assert(instances@.take(k as int) =~= instances@);
    assert(mmio::stores(bus.log()) =~= start + (entries + bindings(instances@, directory)));
    assert(were_bound(old(bus).log(), bus.log(), entries, instances@, directory));
    gmmu::invalidate(bus, directory, true)
}

pub open spec fn bindings(instances: Seq<usize>, directory: u64) -> Seq<(usize, usize, u32)>
    decreases instances.len(),
{
    if instances.len() == 0 {
        seq![]
    } else {
        bindings(instances.drop_last(), directory) + binding(instances.last(), directory)
    }
}

/// Registers that the firmware sets when it switches to the context, each with its
/// value: where the attribute, page pool and bundle buffers lie.
pub open spec fn patch_table() -> Seq<u32> {
    seq![
        0x41_8810u32,
        0x8000_0200,
        0x41_9848,
        0x1000_0200,
        0x41_9c2c,
        0x1000_0200,
        0x40_800c,
        0x2500,
        0x40_8010,
        0x8000_0000,
        0x41_9004,
        0x2500,
        0x41_9008,
        0,
        0x40_64cc,
        0x8000_0000,
        0x41_8e30,
        0x8000_0000,
        0x40_8004,
        0x2600,
        0x40_8008,
        0x8000_0018,
        0x41_8e24,
        0x2600,
        0x41_8e28,
        0x8000_0018,
        0x40_64c8,
        0x00c0_01c0,
    ]
}

pub open spec fn patch_stores(n: int) -> Seq<(usize, usize, u32)> {
    Seq::new(n as nat, |i: int| (PATCHES, i as usize, patch_table()[i]))
}

/// The header of the context: how many patches there are, and where.
pub open spec fn header_stores() -> Seq<(usize, usize, u32)> {
    seq![
        (CONTEXT, 0x3dusize, 0u32),
        (CONTEXT, 0x3e, 0),
        (CONTEXT, 4, 14),
        (CONTEXT, 5, graphics::PATCH_VA),
        (CONTEXT, 6, 0),
        (CONTEXT, 7, 1),
        (CONTEXT, 8, 0),
        (CONTEXT, 10, 0),
        (CONTEXT, 11, 0),
    ]
}

/// Gives graphics its own context: the golden one, with a header of its own.
#[verifier::rlimit(100)]
pub fn prepare<R: Dma>(bus: &mut Bus<'_, R>, size: usize, capacity: usize) -> (r: Result<
    (),
    &'static str,
>)
    ensures
        final(bus).port() == old(bus).port(),
        mmio::extends(old(bus).log(), final(bus).log()),
        mmio::writes(final(bus).log()) == mmio::writes(old(bus).log()),
        match r {
            Ok(_) => context::copy_error(size, capacity) is None && exists|copied: Seq<Access>|
                {
                    &&& #[trigger] context::was_copied(old(bus).log(), copied, CONTEXT, size)
                    &&& gmmu::only_stored(
                        copied,
                        final(bus).log(),
                        patch_stores(28) + header_stores(),
                    )
                },
            Err(e) => context::copy_error(size, capacity) == Some(e) && final(bus).log() == old(bus).log(),
        },
{
    context::copy_golden(bus, CONTEXT, size, capacity)?;
    let ghost copied = bus.log();
    let table: [u32; 28] = [
        0x41_8810,
        0x8000_0200,
        0x41_9848,
        0x1000_0200,
        0x41_9c2c,
        0x1000_0200,
        0x40_800c,
        0x2500,
        0x40_8010,
        0x8000_0000,
        0x41_9004,
        0x2500,
        0x41_9008,
        0,
        0x40_64cc,
        0x8000_0000,
        0x41_8e30,
        0x8000_0000,
        0x40_8004,
        0x2600,
        0x40_8008,
        0x8000_0018,
        0x41_8e24,
        0x2600,
        0x41_8e28,
        0x8000_0018,
        0x40_64c8,
        0x00c0_01c0,
    ];
    assert(table@ =~= patch_table());
    let mut i: usize = 0;
    while i < 28
        invariant
            mmio::extends(old(bus).log(), bus.log()),
            bus.port() == old(bus).port(),
            i <= 28,
            table@ == patch_table(),
            mmio::extends(copied, bus.log()),
            mmio::writes(copied) == mmio::writes(old(bus).log()),
            mmio::writes(bus.log()) == mmio::writes(old(bus).log()),
            mmio::stores(bus.log()) =~= mmio::stores(copied) + patch_stores(i as int),
        decreases 28 - i,
    {
        bus.store(PATCHES, i, table[i]);
        i = i + 1;
    }
    bus.store(CONTEXT, 0x3d, 0);
    bus.store(CONTEXT, 0x3e, 0);
    bus.store(CONTEXT, 4, 14);
    bus.store(CONTEXT, 5, graphics::PATCH_VA);
    bus.store(CONTEXT, 6, 0);
    bus.store(CONTEXT, 7, 1);
    bus.store(CONTEXT, 8, 0);
    bus.store(CONTEXT, 10, 0);
    bus.store(CONTEXT, 11, 0);
    assert(mmio::stores(bus.log()) =~= mmio::stores(copied) + (patch_stores(28)
        + header_stores()));
    Ok(())
}

/// Hands all memory of graphics over. The tiled target goes last: what zeroed it is
/// still in the cache, and must not reach memory after graphics wrote there.
pub fn hand_over<R: Dma>(bus: &mut Bus<'_, R>)
    ensures
        final(bus).port() == old(bus).port(),
        final(bus).log() == old(bus).log() + seq![
            Access::Clean(PROGRAMS),
            Access::Clean(AUX),
            Access::Clean(DESCRIPTORS),
            Access::Clean(CONTEXT),
            Access::Clean(PATCHES),
            Access::Clean(PUSH),
            Access::Clean(VERTEX),
            Access::Clean(TARGET),
            Access::Clean(TEXTURE),
            Access::Clean(TILE),
        ],
{
    bus.clean(PROGRAMS);
    bus.clean(AUX);
    bus.clean(DESCRIPTORS);
    bus.clean(CONTEXT);
    bus.clean(PATCHES);
    bus.clean(PUSH);
    bus.clean(VERTEX);
    bus.clean(TARGET);
    bus.clean(TEXTURE);
    bus.clean(TILE);
}

/// The publication of some words.
pub open spec fn publish_log(words: Seq<u32>) -> Seq<Access> {
    Seq::new(words.len(), |i: int| Access::Store(PUSH, i as usize, words[i])).push(
        Access::Clean(PUSH),
    )
}

fn publish<R: Dma>(bus: &mut Bus<'_, R>, words: &Vec<u32>)
    ensures
        final(bus).port() == old(bus).port(),
        final(bus).log() == old(bus).log() + publish_log(words@),
        mmio::writes(final(bus).log()) == mmio::writes(old(bus).log()),
{
    let mut i: usize = 0;
    while i < words.len()
        invariant
            bus.port() == old(bus).port(),
            i <= words@.len(),
            mmio::writes(bus.log()) == mmio::writes(old(bus).log()),
            bus.log() =~= old(bus).log() + Seq::new(
                i as nat,
                |j: int| Access::Store(PUSH, j as usize, words@[j]),
            ),
        decreases words@.len() - i,
    {
        bus.store(PUSH, i, words[i]);
        i = i + 1;
    }
    bus.clean(PUSH);
    assert(bus.log() =~= old(bus).log() + publish_log(words@));
}

/// Whether what graphics reports is a fault.
pub open spec fn faulty(status: u32) -> bool {
    status == u32::MAX || status & !1u32 != 0
}

/// What the queue holds of graphics once a push has gone through it.
pub open spec fn passed(before: Fifo, after: Fifo, sequence: u32) -> bool {
    let put = match before.graphics {
        None => 0,
        Some(channel) => channel.put,
    };
    after.graphics == Some(
        fifo::GraphicsChannel {
            context_va: graphics::CONTEXT_VA as u64,
            put: Fifo::next_put(put),
            completed_sequence: Some(sequence),
        },
    )
}

/// How a published push went through the device: the accesses up to its retirement,
/// to the rest of graphics and to the end of the check for faults.
pub open spec fn went_through(
    published: Seq<Access>,
    retired: Seq<Access>,
    rested: Seq<Access>,
    checked: Seq<Access>,
    after: Seq<Access>,
    blocks: bool,
    before_fifo: Fifo,
    after_fifo: Fifo,
    words: u32,
    sequence: u32,
    error: Option<&'static str>,
) -> bool {
    let seen = mmio::last(checked, gr::GR_INTR);
    let va = graphics::PUSH_VA as u64;
    let context = graphics::CONTEXT_VA as u64;
    let channel = fifo::channel_of(before_fifo, context);
    let through = passed(before_fifo, after_fifo, sequence) && exists|ready: Seq<Access>|
        #[trigger] fifo::channel_ready(before_fifo, published, ready, context) && fifo::push_ran(
            ready,
            retired,
            channel.put,
            va,
            words,
            sequence,
        );
    let resting = through && mmio::quiet(retired, rested) && context::was_seen_idle(
        retired,
        rested,
    );
    let fine = resting && !faulty(seen) && gr::was_checked(rested, checked);
    &&& mmio::extends(published, after)
    &&& match error {
        None => fine && if blocks {
            gmmu::ltc_flushed(checked, after)
        } else {
            after == checked
        },
        Some(e) => {
            // The queue did not retire the push.
            ||| {
                &&& after_fifo.graphics == before_fifo.graphics || (
                after_fifo.graphics matches Some(channel) && channel.completed_sequence is None)
                &&& exists|f: gr::GrFault| after == retired + #[trigger] gr::fault_log(f)
                &&& (before_fifo.graphics is None && fifo::graphics_failed(
                    before_fifo,
                    published,
                    retired,
                    context,
                    after_fifo.failure,
                    e,
                )) || exists|ready: Seq<Access>|
                    #[trigger] fifo::channel_ready(before_fifo, published, ready, context)
                        && fifo::push_failed(
                        channel,
                        ready,
                        retired,
                        va,
                        words,
                        context,
                        sequence,
                        after_fifo.failure,
                        e,
                    )
            }
            // Graphics did not come to rest.
            ||| through && after == rested && context::idle_failed(retired, rested, e)
            // Graphics reports a fault.
            ||| resting && faulty(seen) && gr::was_checked(rested, checked) && after == checked && e
                == "GR execution interrupt/fault"
            // What was drawn in blocks did not reach memory.
            ||| fine && blocks && gmmu::flush_ltc_failed(checked, after, e)
        },
    }
}

/// The reason of a submission that came to nothing.
pub open spec fn lost_by(r: Result<(), SubmitError>) -> Option<&'static str> {
    match r {
        Ok(_) => None,
        Err(e) => Some(graphics::reason_of(e)),
    }
}

/// Carries one submission out. Its words are complete before anything is published,
/// so that a refused submission leaves a healthy device alone; what fails behind that
/// point loses the device.
#[verifier::rlimit(100)]
pub fn execute<R: Dma>(
    bus: &mut Bus<'_, R>,
    fifo: &mut Fifo,
    sequencer: &mut Sequencer,
    m: &Methods,
    pipelines: &[Pipeline],
    operations: &Vec<[u32; 64]>,
    viewports: &Vec<Viewport>,
) -> (r: Result<(), SubmitError>)
    requires
        old(fifo).wf(),
        m.wf(),
        operations@.len() == viewports@.len(),
        forall|i: int|
            0 <= i < operations@.len() && operations@[i]@[0] == 2 ==> graphics::drawable(
                (#[trigger] operations@[i])@,
            ),
    ensures
        final(bus).port() == old(bus).port(),
        mmio::extends(old(bus).log(), final(bus).log()),
        final(fifo).wf(),
        match graphics::encode_spec(
            *m,
            pipelines@,
            operations@,
            viewports@,
            old(sequencer).sequence,
        ) {
            Err(e) => r == Err::<(), SubmitError>(e) && *final(fifo) == *old(fifo) && *final(sequencer) == *old(sequencer) && final(bus).log() == old(bus).log(),
            Ok(words) => {
                &&& final(sequencer).sequence == old(sequencer).sequence + 1
                &&& r matches Err(e) ==> e is DeviceLost
                &&& exists|retired: Seq<Access>, rested: Seq<Access>, checked: Seq<Access>|
                    #[trigger]
                    went_through(
                        old(bus).log() + publish_log(words),
                        retired,
                        rested,
                        checked,
                        final(bus).log(),
                        graphics::writes_blocks(operations@),
                        *old(fifo),
                        *final(fifo),
                        words.len() as u32,
                        final(sequencer).sequence,
                        lost_by(r),
                    )
            },
        },
{
    let words: Vec<u32> = match sequencer.encode(m, pipelines, operations, viewports) {
        Ok(words) => words,
        Err(e) => {
            return Err(e);
        },
    };
    let sequence: u32 = sequencer.sequence;
    let ghost blocks = graphics::writes_blocks(operations@);
    proof {
        graphics::lemma_encoded(*m, pipelines@, operations@, viewports@, old(sequencer).sequence);
    }
    publish(bus, &words);
    let ghost published = bus.log();
    let count: u32 = words.len() as u32;
    let result = fifo.graphics(
        bus,
        graphics::PUSH_VA as u64,
        count,
        graphics::CONTEXT_VA as u64,
        sequence,
    );
    let ghost retired = bus.log();
    if let Err(e) = result {
        let f = gr::diagnose(bus);
        assert(bus.log() == retired + gr::fault_log(f));
        assert(went_through(
            published,
            retired,
            retired,
            retired,
            bus.log(),
            blocks,
            *old(fifo),
            *fifo,
            count,
            sequence,
            Some(e),
        ));
        return Err(SubmitError::DeviceLost(e));
    }
    let idle = context::idle(bus);
    let ghost rested = bus.log();
    if let Err(e) = idle {
        assert(went_through(
            published,
            retired,
            rested,
            rested,
            bus.log(),
            blocks,
            *old(fifo),
            *fifo,
            count,
            sequence,
            Some(e),
        ));
        return Err(SubmitError::DeviceLost(e));
    }
    let check = gr::check_execution(bus);
    let ghost checked = bus.log();
    if let Err(e) = check {
        assert(went_through(
            published,
            retired,
            rested,
            checked,
            bus.log(),
            blocks,
            *old(fifo),
            *fifo,
            count,
            sequence,
            Some(e),
        ));
        return Err(SubmitError::DeviceLost(e));
    }
    if graphics::needs_cache_flush(operations) {
        if let Err(e) = gmmu::flush_ltc(bus) {
            assert(went_through(
                published,
                retired,
                rested,
                checked,
                bus.log(),
                blocks,
                *old(fifo),
                *fifo,
                count,
                sequence,
                Some(e),
            ));
            return Err(SubmitError::DeviceLost(e));
        }
    }
    assert(went_through(
        published,
        retired,
        rested,
        checked,
        bus.log(),
        blocks,
        *old(fifo),
        *fifo,
        count,
        sequence,
        None,
    ));
    Ok(())
}

/// The queue's pages follow each other from 0x3000 on, each with its own memory, uncached.
pub proof fn queues_have_their_places(paddrs: Seq<u64>, i: int)
    requires
        paddrs.len() == 6,
        0 <= i < 6,
    ensures
        ({
            let p = fifo_place_list(paddrs);
            &&& p.len() == 6
            &&& p[i].va == 0x3000 + 0x1000 * i
            &&& p[i].paddr == paddrs[i]
            &&& p[i].pages == 1 && !p[i].cacheable && p[i].kind == 0
        }),
{
}

/// Graphics' own memory is cached and has its places, none over another; only the tile's
/// pages say that blocks are in them.
pub proof fn graphics_has_its_places(paddrs: Seq<u64>, pages: Seq<usize>, i: int)
    requires
        paddrs.len() == 10,
        pages.len() == 10,
        0 <= i < 10,
    ensures
        ({
            let p = graphics_place(paddrs, pages, i);
            &&& p.paddr == paddrs[i] && p.pages == pages[i] && p.cacheable
            &&& i == 9 ==> p.kind == 0xfe && p.va == 0x50_0000
            &&& i < 9 ==> p.kind == 0
            &&& i == 0 ==> p.va == 0x27_0000
            &&& i == 1 ==> p.va == 0x28_0000
            &&& i == 2 ==> p.va == 0x29_0000
            &&& i == 3 ==> p.va == 0x2a_0000
            &&& i == 4 ==> p.va == 0x3a_0000
            &&& i == 5 ==> p.va == 0x40_0000
            &&& i == 6 ==> p.va == 0x3b_0000
            &&& i == 7 ==> p.va == 0x3c_0000
            &&& i == 8 ==> p.va == 0x3d_0000
        }),
{
}

/// A status is good if it is zero or one.
pub proof fn good_statuses_are_zero_or_one(status: u32)
    by (bit_vector)
    ensures
        faulty(status) <==> status > 1,
{
}

/// The patches of a context are pairs of a register and its value, and its head tells where
/// they are and that there are fourteen.
pub proof fn contexts_are_patched(k: int)
    requires
        0 <= k < 14,
    ensures
        ({
            let registers = seq![
                0x41_8810u32,
                0x41_9848,
                0x41_9c2c,
                0x40_800c,
                0x40_8010,
                0x41_9004,
                0x41_9008,
                0x40_64cc,
                0x41_8e30,
                0x40_8004,
                0x40_8008,
                0x41_8e24,
                0x41_8e28,
                0x40_64c8,
            ];
            let values = seq![
                0x8000_0200u32,
                0x1000_0200,
                0x1000_0200,
                0x2500,
                0x8000_0000,
                0x2500,
                0,
                0x8000_0000,
                0x8000_0000,
                0x2600,
                0x8000_0018,
                0x2600,
                0x8000_0018,
                0x00c0_01c0,
            ];
            let s = patch_stores(28);
            let h = header_stores();
            &&& s.len() == 28
            &&& s[2 * k] == (26usize, (2 * k) as usize, registers[k])
            &&& s[2 * k + 1] == (26usize, (2 * k + 1) as usize, values[k])
            &&& h[2] == (25usize, 4usize, 14u32) && h[3] == (25usize, 5usize, 0x3a_0000u32) && h[4]
                == (25usize, 6usize, 0u32) && h[5] == (25usize, 7usize, 1u32)
        }),
{
    assert(patch_table().len() == 28);
    if k == 0 {
    } else if k == 1 {
    } else if k == 2 {
    } else if k == 3 {
    } else if k == 4 {
    } else if k == 5 {
    } else if k == 6 {
    } else if k == 7 {
    } else if k == 8 {
    } else if k == 9 {
    } else if k == 10 {
    } else if k == 11 {
    } else if k == 12 {
    } else {
    }
}

} // verus!
