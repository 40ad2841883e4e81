//! Objects of their own memory, from their placement to their retirement.
use vstd::prelude::*;

use crate::gpu::address_space;
use crate::gpu::address_space::{Mapping, OBJECT_LIMIT};
use crate::gpu::execution;
use crate::gpu::execution::Place;
use crate::gpu::gmmu;
use crate::gpu::gmmu::PageTable;
use crate::gpu::memory::{Kind, Memory};
use crate::gpu::objects;
use crate::gpu::objects::{Object, Objects, Placement};
use crate::mmio;
use crate::mmio::{Bus, Dma};

verus! {

/// The pages of a placement, at the memory that was found for them.
pub open spec fn place_of(p: Placement, paddr: u64) -> Place {
    Place {
        va: p.va as usize,
        paddr,
        pages: p.pages as usize,
        cacheable: true,
        kind: p.page_kind,
    }
}

/// A refused allocation is counted.
pub open spec fn counted(channel: Objects) -> Objects {
    Objects {
        allocation_failures: if channel.allocation_failures == u64::MAX {
            u64::MAX
        } else {
            (channel.allocation_failures + 1) as u64
        },
        ..channel
    }
}

/// The object has its identity and its mapping, which is retained whatever becomes of
/// the object.
pub open spec fn reserved(before: Objects, after: Objects, va: u64, size: u64) -> bool {
    &&& after.next_object == before.next_object + 1
    &&& after.next_attachment == before.next_attachment
    &&& after.allocation_failures == before.allocation_failures
    &&& objects::is_inserted(before.retained@, after.retained@, Mapping { va, size })
}

/// What the engines failed to take over.
pub open spec fn not_taken_over(e: &'static str) -> bool {
    e == "GMMU register read returned all ones" || e == "GMMU hardware completion timeout"
}

/// Makes an object of some size. `memory` is what the allocator gave for the pages of
/// its placement: where they lie, or why there are none. Entries that could not be
/// published lose the device, since nobody knows what the engines see.
pub fn allocate<R: Dma>(
    bus: &mut Bus<'_, R>,
    table: &mut PageTable,
    channel: &mut Objects,
    size: u64,
    kind: Kind,
    memory: Result<u64, &'static str>,
    directory: u64,
) -> (r: Result<u64, &'static str>)
    requires
        gmmu::table_wf(old(table)@),
        old(channel).wf(),
        gmmu::reachable(directory, 1),
    ensures
        final(bus).port() == old(bus).port(),
        mmio::extends(old(bus).log(), final(bus).log()),
        gmmu::table_wf(final(table)@),
        final(channel).wf(),
        match objects::place_object_spec(old(channel).retained@, old(channel).lost, size, kind) {
            Err(e) => r == Err::<u64, &'static str>(e) && *final(channel) == (if old(channel).lost {
                *old(channel)
            } else {
                counted(*old(channel))
            }) && final(table)@ == old(table)@ && final(bus).log() == old(bus).log(),
            Ok(p) => match memory {
                Err(e) => r == Err::<u64, &'static str>(e) && *final(channel) == counted(
                    *old(channel),
                ) && final(table)@ == old(table)@ && final(bus).log() == old(bus).log(),
                Ok(paddr) => if old(channel).next_object == u64::MAX {
                    r == Err::<u64, &'static str>("GPU object identity exhausted") && *final(channel) == *old(channel) && final(table)@ == old(table)@ && final(bus).log() == old(bus).log()
                } else {
                    let place = place_of(p, paddr);
                    &&& reserved(*old(channel), *final(channel), p.va, size)
                    &&& final(table)@ == place.placed(old(table)@)
                    &&& mmio::stores(final(bus).log()) == mmio::stores(old(bus).log())
                        + place.entries(old(table)@)
                    &&& final(channel).lost == (r is Err)
                    &&& match r {
                        Ok(id) => {
                            &&& place.error(old(table)@) is None
                            &&& id == old(channel).next_object
                            &&& final(channel).objects@ == old(channel).objects@.push(
                                Object { id, memory: Memory { va: p.va, size, kind } },
                            )
                            &&& mmio::writes(final(bus).log()) == mmio::writes(old(bus).log())
                                + gmmu::invalidate_writes(directory, true)
                        },
                        Err(e) => {
                            &&& final(channel).objects@ == old(channel).objects@
                            &&& match place.error(old(table)@) {
                                Some(reason) => e == reason && mmio::writes(final(bus).log())
                                    == mmio::writes(old(bus).log()),
                                None => not_taken_over(e),
                            }
                        },
                    }
                },
            },
        },
{
    let p: Placement = channel.place(size, &kind)?;
    proof {
        objects::placement_is_free(old(channel).retained@, old(channel).lost, size, kind);
    }
    let paddr: u64 = match memory {
        Ok(paddr) => paddr,
        Err(e) => {
            return Err(channel.allocation_error(e));
        },
    };
    let object = channel.reserve(p.va, size, kind)?;
    let id: u64 = object.id;
    assert(p.va <= usize::MAX && p.pages <= usize::MAX);
    let place = Place {
        va: p.va as usize,
        paddr,
        pages: p.pages as usize,
        cacheable: true,
        kind: p.page_kind,
    };
    if let Err(e) = execution::place(bus, table, place) {
        channel.fault();
        return Err(e);
    }
    if let Err(e) = gmmu::invalidate(bus, directory, true) {
        channel.fault();
        return Err(e);
    }
    channel.publish(object);
    Ok(id)
}

/// The entries that are cleared.
pub open spec fn cleared(va: usize, count: int) -> Seq<(usize, usize, u32)> {
    Seq::new(
        (2 * count) as nat,
        |i: int| (gmmu::TABLE, (2 * (va as int / 4096) + i) as usize, 0u32),
    )
}

/// Whether some pages lie in the part of the address space that is given out.
pub open spec fn public_range(va: u64, size: u64) -> bool {
    gmmu::FIRST_PUBLIC <= va && va % 4096 == 0 && va + objects::pages_of(size) * 4096
        <= gmmu::VA_LIMIT
}

/// Retires an object that nothing uses any more. A lost device keeps all its pages;
/// one that does not take the cleared entries over is lost.
pub fn release<R: Dma>(
    bus: &mut Bus<'_, R>,
    table: &mut PageTable,
    channel: &mut Objects,
    va: u64,
    size: u64,
    directory: u64,
) -> (r: Result<(), &'static str>)
    requires
        gmmu::table_wf(old(table)@),
        old(channel).wf(),
        size <= OBJECT_LIMIT,
        gmmu::reachable(directory, 1),
    ensures
        final(bus).port() == old(bus).port(),
        mmio::extends(old(bus).log(), final(bus).log()),
        gmmu::table_wf(final(table)@),
        final(channel).wf(),
        if old(channel).lost {
            r == Ok::<(), &'static str>(()) && *final(channel) == *old(channel) && final(table)@
                == old(table)@ && final(bus).log() == old(bus).log()
        } else if !public_range(va, size) {
            r == Err::<(), &'static str>("public GPU unmap range invalid") && *final(channel) == (
            Objects { lost: true, ..*old(channel) }) && final(table)@ == old(table)@ && final(bus).log() == old(bus).log()
        } else {
            &&& final(table)@ == gmmu::unmapped(
                old(table)@,
                va as int / 4096,
                objects::pages_of(size),
            )
            &&& mmio::stores(final(bus).log()) == mmio::stores(old(bus).log()) + cleared(
                va as usize,
                objects::pages_of(size),
            )
            &&& match r {
                Ok(_) => {
                    &&& mmio::writes(final(bus).log()) == mmio::writes(old(bus).log())
                        + gmmu::invalidate_writes(directory, true)
                    &&& final(channel).retained@ == objects::without_mapping(
                        old(channel).retained@,
                        va,
                    )
                    &&& final(channel).objects@ == objects::without_va(old(channel).objects@, va)
                    &&& !final(channel).lost
                    &&& final(channel).next_object == old(channel).next_object
                },
                Err(e) => not_taken_over(e) && *final(channel) == (Objects {
                    lost: true,
                    ..*old(channel)
                }),
            }
        },
{
    let (from, count): (u64, u64) = match channel.release(va, size) {
        Ok(None) => {
            return Ok(());
        },
        Ok(Some(range)) => range,
        Err(e) => {
            channel.fault();
            return Err(e);
        },
    };
    assert(from == va && count == objects::pages_of(size));
    assert(public_range(va, size));
    let first: usize = from as usize / gmmu::PAGE;
    let pages: usize = count as usize;
    let unmapped = table.unmap(from as usize, pages);
    assert(unmapped is Ok);
    let ghost start = mmio::stores(bus.log());
    let ghost all = cleared(va as usize, pages as int);
    let mut i: usize = 0;
    while i < 2 * pages
        invariant
            mmio::extends(old(bus).log(), bus.log()),
            bus.port() == old(bus).port(),
            i <= 2 * pages,
            first == va / 4096,
            first + pages <= gmmu::PAGES,
            all == cleared(va as usize, pages as int),
            mmio::writes(bus.log()) == mmio::writes(old(bus).log()),
            mmio::stores(bus.log()) =~= start + all.take(i as int),
        decreases 2 * pages - i,
    {
        bus.store(gmmu::TABLE, 2 * first + i, 0);
        assert(all.take(i + 1) =~= all.take(i as int).push(all[i as int]));
        i = i + 1;
    }
    assert(all.take(2 * pages as int) =~= all);
    if let Err(e) = gmmu::invalidate(bus, directory, true) {
        channel.fault();
        return Err(e);
    }
    channel.retire(va);
    Ok(())
}

/// What was allocated is retired without a trace: its entries are those that were
/// there before.
pub proof fn releasing_undoes_allocating(
    words: Seq<u32>,
    retained: Seq<Mapping>,
    size: u64,
    kind: Kind,
    paddr: u64,
)
    requires
        gmmu::table_wf(words),
        address_space::mappings_wf(retained),
        objects::place_object_spec(retained, false, size, kind) is Ok,
        // The pages of the placement are empty, as those of every free place are.
        ({
            let p = objects::place_object_spec(retained, false, size, kind)->Ok_0;
            let first = p.va as int / 4096;
            &&& place_of(p, paddr).error(words) is None
            &&& forall|w: int| 2 * first <= w < 2 * (first + p.pages) ==> #[trigger] words[w] == 0
        }),
    ensures
        ({
            let p = objects::place_object_spec(retained, false, size, kind)->Ok_0;
            &&& public_range(p.va, size)
            &&& gmmu::unmapped(
                place_of(p, paddr).placed(words),
                p.va as int / 4096,
                objects::pages_of(size),
            ) == words
        }),
{
    objects::placement_is_free(retained, false, size, kind);
    let p = objects::place_object_spec(retained, false, size, kind)->Ok_0;
    let place = place_of(p, paddr);
    let first = p.va as int / 4096;
    let pages = objects::pages_of(size);
    let left = gmmu::unmapped(place.placed(words), first, pages);
    assert(place.pages == pages);
    execution::lemma_first_valid(words, first, first + place.pages);
    assert(place.count(words) <= pages);
    assert forall|w: int| 0 <= w < words.len() implies left[w] == words[w] by {
        if first <= w / 2 < first + pages {
            assert(2 * first <= w < 2 * (first + p.pages));
            assert(words[w] == 0);
        }
    }
    assert(left =~= words);
}

} // verus!
