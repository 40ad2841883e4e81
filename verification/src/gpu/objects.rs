//! The objects of the graphics channel, from their placement to their release,
//! and the attachments by which a context may use them.
use std::collections::BTreeMap;

use vstd::prelude::*;

use crate::gpu::address_space;
use crate::gpu::address_space::{find_fit, insert_mapping, Mapping, OBJECT_LIMIT, VA_LIMIT};
use crate::gpu::memory::{Kind, Memory, Modifier};

verus! {

/// Marks the resources of this backend among those of others.
pub const COOKIE: u64 = 0x474d_3230_4253_5031;

/// Where an object goes: `pages` pages at `va`, with the page kind that its
/// storage order calls for.
#[derive(Clone, Copy, Debug, PartialEq, Eq, Structural)]
pub struct Placement {
    pub va: u64,
    pub pages: u64,
    pub alignment: u64,
    pub page_kind: u8,
}

/// An object that submissions may be attached to, by its identity.
#[derive(Clone, Copy, Debug)]
pub struct Object {
    pub id: u64,
    pub memory: Memory,
}

pub open spec fn pages_of(size: u64) -> int {
    (size + 4095) / 4096
}

/// Storage in blocks needs two-page alignment.
pub open spec fn alignment_of(kind: Kind) -> u64 {
    match kind {
        Kind::Image(i) => if i.layout.modifier == Modifier::Linear {
            4096
        } else {
            8192
        },
        _ => 4096,
    }
}

pub open spec fn page_kind_of(kind: Kind) -> u8 {
    match kind {
        Kind::Image(i) => match i.layout.modifier {
            Modifier::ZetaBlockLinear => 0x7b,
            Modifier::BlockLinear => 0xfe,
            _ => 0,
        },
        _ => 0,
    }
}

/// The memory of the first object with identity `id`.
pub open spec fn lookup_spec(objects: Seq<Object>, id: u64) -> Option<Memory>
    decreases objects.len(),
{
    if objects.len() == 0 {
        None
    } else if objects[0].id == id {
        Some(objects[0].memory)
    } else {
        lookup_spec(objects.drop_first(), id)
    }
}

/// The objects that are not mapped at `va`, in their order.
pub open spec fn without_va(objects: Seq<Object>, va: u64) -> Seq<Object>
    decreases objects.len(),
{
    if objects.len() == 0 {
        Seq::empty()
    } else {
        let rest = without_va(objects.drop_last(), va);
        if objects.last().memory.va == va {
            rest
        } else {
            rest.push(objects.last())
        }
    }
}

/// The mappings that do not begin at `va`, in their order.
pub open spec fn without_mapping(retained: Seq<Mapping>, va: u64) -> Seq<Mapping>
    decreases retained.len(),
{
    if retained.len() == 0 {
        Seq::empty()
    } else {
        let rest = without_mapping(retained.drop_last(), va);
        if retained.last().va == va {
            rest
        } else {
            rest.push(retained.last())
        }
    }
}

/// Everything that the channel has mapped.
#[derive(Debug)]
pub struct Objects {
    /// Mappings in order of address. They outlive the objects where retirement
    /// could not be proved.
    pub retained: Vec<Mapping>,
    pub objects: Vec<Object>,
    pub next_object: u64,
    pub next_attachment: u64,
    pub lost: bool,
    pub allocation_failures: u64,
}

/// No retained mapping shares a byte with the pages of `size` bytes at `va`.
pub open spec fn is_free(retained: Seq<Mapping>, va: u64, size: u64) -> bool {
    forall|i: int|
        0 <= i < retained.len() ==> (#[trigger] retained[i]).clear_of(
            va as int,
            address_space::round_up(size as int, 4096),
        )
}

/// `after` is `before` with `m` in its place in the order of addresses.
pub open spec fn is_inserted(before: Seq<Mapping>, after: Seq<Mapping>, m: Mapping) -> bool {
    exists|k: int| address_space::slot_of(before, m.va, k) && after == #[trigger] before.insert(k, m)
}

/// What a placement is answered.
pub open spec fn place_object_spec(
    retained: Seq<Mapping>,
    lost: bool,
    size: u64,
    kind: Kind,
) -> Result<Placement, &'static str> {
    if lost {
        Err("GM20B device lost")
    } else if size == 0 || size > OBJECT_LIMIT {
        Err("GPU object size exceeds address-space budget")
    } else {
        match address_space::fit_spec(
            retained,
            pages_of(size) * 4096,
            alignment_of(kind) as int,
        ) {
            None => Err("GM20B GPU address space exhausted"),
            Some(va) => Ok(
                Placement {
                    va,
                    pages: pages_of(size) as u64,
                    alignment: alignment_of(kind),
                    page_kind: page_kind_of(kind),
                },
            ),
        }
    }
}

impl Objects {
    pub open spec fn wf(self) -> bool {
        address_space::mappings_wf(self.retained@)
    }

    pub fn new() -> (r: Self)
        ensures
            r.wf(),
            r.retained@.len() == 0,
            r.objects@.len() == 0,
            r.next_object == 1,
            r.next_attachment == 1,
            !r.lost,
            r.allocation_failures == 0,
    {
        Objects {
            retained: Vec::new(),
            objects: Vec::new(),
            next_object: 1,
            next_attachment: 1,
            lost: false,
            allocation_failures: 0,
        }
    }

    /// Counts a failed allocation and hands its reason on.
    pub fn allocation_error(&mut self, reason: &'static str) -> (r: &'static str)
        ensures
            r == reason,
            *final(self) == (Objects {
                allocation_failures: if old(self).allocation_failures == u64::MAX {
                    u64::MAX
                } else {
                    (old(self).allocation_failures + 1) as u64
                },
                ..*old(self)
            }),
    {
        self.allocation_failures = self.allocation_failures.saturating_add(1);
        reason
    }

    /// First fit over the retained mappings. A refusal other than that of a lost
    /// device is counted.
    pub fn place(&mut self, size: u64, kind: &Kind) -> (r: Result<Placement, &'static str>)
        requires
            old(self).wf(),
        ensures
            r == place_object_spec(old(self).retained@, old(self).lost, size, *kind),
            final(self).wf(),
            *final(self) == (if r is Ok || old(self).lost {
                *old(self)
            } else {
                Objects {
                    allocation_failures: if old(self).allocation_failures == u64::MAX {
                        u64::MAX
                    } else {
                        (old(self).allocation_failures + 1) as u64
                    },
                    ..*old(self)
                }
            }),
    {
        if self.lost {
            return Err("GM20B device lost");
        }
        if size == 0 || size > OBJECT_LIMIT {
            return Err(self.allocation_error("GPU object size exceeds address-space budget"));
        }
        let pages: u64 = (size + 4095) / 4096;
        let (alignment, page_kind): (u64, u8) = match kind {
            Kind::Image(i) => match i.layout.modifier {
                Modifier::Linear => (4096, 0),
                Modifier::BlockLinear => (8192, 0xfe),
                Modifier::ZetaBlockLinear => (8192, 0x7b),
                Modifier::Other(_) => (8192, 0),
            },
            _ => (4096, 0),
        };
        let va: u64 = find_fit(&self.retained, pages * 4096, alignment);
        if va + pages * 4096 > VA_LIMIT {
            return Err(self.allocation_error("GM20B GPU address space exhausted"));
        }
        Ok(Placement { va, pages, alignment, page_kind })
    }

    /// First fit for a shared image of `size` bytes, which takes two-page
    /// alignment whatever its storage order.
    pub fn place_shared(&self, size: u64) -> (r: Result<u64, &'static str>)
        requires
            self.wf(),
            size <= OBJECT_LIMIT,
        ensures
            r == if self.lost {
                Err::<u64, &'static str>("GM20B device lost")
            } else {
                match address_space::fit_spec(self.retained@, size as int, 8192) {
                    None => Err("GM20B GPU address space exhausted"),
                    Some(va) => Ok(va),
                }
            },
    {
        if self.lost {
            return Err("GM20B device lost");
        }
        let va: u64 = find_fit(&self.retained, size, 8192);
        if va + size > VA_LIMIT {
            return Err("GM20B GPU address space exhausted");
        }
        Ok(va)
    }

    /// Issues an identity for an object of `size` bytes at `va`, and retains its
    /// mapping. The mapping is retained before any page-table entry is written,
    /// so that its pages stay owned even if that fails.
    pub fn reserve(&mut self, va: u64, size: u64, kind: Kind) -> (r: Result<
        Object,
        &'static str,
    >)
        requires
            old(self).wf(),
            (Mapping { va, size }).wf(),
            is_free(old(self).retained@, va, size),
        ensures
            final(self).wf(),
            final(self).objects@ == old(self).objects@,
            final(self).next_attachment == old(self).next_attachment,
            final(self).lost == old(self).lost,
            final(self).allocation_failures == old(self).allocation_failures,
            match r {
                Err(e) => old(self).next_object == u64::MAX && e == "GPU object identity exhausted"
                    && *final(self) == *old(self),
                Ok(o) => {
                    &&& old(self).next_object < u64::MAX
                    &&& final(self).next_object == old(self).next_object + 1
                    &&& o == (Object {
                        id: old(self).next_object,
                        memory: Memory { va, size, kind },
                    })
                    &&& is_inserted(
                        old(self).retained@,
                        final(self).retained@,
                        Mapping { va, size },
                    )
                },
            },
    {
        let id: u64 = self.next_object;
        self.next_object = match id.checked_add(1) {
            None => {
                return Err("GPU object identity exhausted");
            },
            Some(next) => next,
        };
        insert_mapping(&mut self.retained, Mapping { va, size });
        Ok(Object { id, memory: Memory { va, size, kind } })
    }

    /// Makes a mapped object available for attachment.
    pub fn publish(&mut self, object: Object)
        requires
            old(self).wf(),
        ensures
            final(self).wf(),
            final(self).objects@ == old(self).objects@.push(object),
            final(self).retained@ == old(self).retained@,
            final(self).next_object == old(self).next_object,
            final(self).next_attachment == old(self).next_attachment,
            final(self).lost == old(self).lost,
            final(self).allocation_failures == old(self).allocation_failures,
    {
        self.objects.push(object);
    }

    /// Gives the device up. Nothing is placed, attached or released afterwards.
    pub fn fault(&mut self)
        ensures
            *final(self) == (Objects { lost: true, ..*old(self) }),
    {
        self.lost = true;
    }

    /// The pages to unmap for an object that is no longer in use: none on a lost
    /// device, whose pages stay retained.
    pub fn release(&self, va: u64, size: u64) -> (r: Result<Option<(u64, u64)>, &'static str>)
        requires
            size <= OBJECT_LIMIT,
        ensures
            r == if self.lost {
                Ok::<Option<(u64, u64)>, &'static str>(None)
            } else if va < 0x50_0000 || va % 4096 != 0 || va + pages_of(size) * 4096 > VA_LIMIT {
                Err("public GPU unmap range invalid")
            } else {
                Ok(Some((va, pages_of(size) as u64)))
            },
    {
        if self.lost {
            return Ok(None);
        }
        let pages: u64 = (size + 4095) / 4096;
        if va < 0x50_0000 || va % 4096 != 0 || va > VA_LIMIT || va + pages * 4096 > VA_LIMIT {
            return Err("public GPU unmap range invalid");
        }
        Ok(Some((va, pages)))
    }

    /// Forgets the object at `va` after its pages were unmapped.
    pub fn retire(&mut self, va: u64)
        requires
            old(self).wf(),
        ensures
            final(self).wf(),
            final(self).retained@ == without_mapping(old(self).retained@, va),
            final(self).objects@ == without_va(old(self).objects@, va),
            final(self).next_object == old(self).next_object,
            final(self).next_attachment == old(self).next_attachment,
            final(self).lost == old(self).lost,
            final(self).allocation_failures == old(self).allocation_failures,
    {
        let mut objects: Vec<Object> = Vec::new();
        let mut i: usize = 0;
        while i < self.objects.len()
            invariant
                i <= self.objects@.len(),
                *self == *old(self),
                objects@ == without_va(self.objects@.take(i as int), va),
            decreases self.objects@.len() - i,
        {
            assert(self.objects@.take(i + 1).drop_last() =~= self.objects@.take(i as int));
            let o = self.objects[i];
            if o.memory.va != va {
                objects.push(o);
            }
            i += 1;
        }
        assert(self.objects@.take(i as int) =~= self.objects@);
        let mut retained: Vec<Mapping> = Vec::new();
        let mut i: usize = 0;
        while i < self.retained.len()
            invariant
                i <= self.retained@.len(),
                *self == *old(self),
                retained@ == without_mapping(self.retained@.take(i as int), va),
            decreases self.retained@.len() - i,
        {
            assert(self.retained@.take(i + 1).drop_last() =~= self.retained@.take(i as int));
            let m = self.retained[i];
            if m.va != va {
                retained.push(m);
            }
            i += 1;
        }
        assert(self.retained@.take(i as int) =~= self.retained@);
        proof {
            lemma_without_mapping(self.retained@, va);
        }
        self.objects = objects;
        self.retained = retained;
    }
}

/// Removal keeps a selection of the mappings, in order.
proof fn lemma_without_mapping(retained: Seq<Mapping>, va: u64)
    requires
        address_space::mappings_wf(retained),
    ensures
        address_space::mappings_wf(without_mapping(retained, va)),
        forall|i: int|
            0 <= i < without_mapping(retained, va).len() ==> retained.contains(
                #[trigger] without_mapping(retained, va)[i],
            ) && without_mapping(retained, va)[i].va != va,
    decreases retained.len(),
{
    if retained.len() > 0 {
        let init = retained.drop_last();
        assert(address_space::mappings_wf(init)) by {
            assert forall|i: int| 0 <= i < init.len() implies (#[trigger] init[i]).wf() by {
                assert(retained[i].wf());
            }
            assert forall|i: int, j: int| 0 <= i < j < init.len() implies (
            #[trigger] init[i]).page_end() <= (#[trigger] init[j]).va by {
                assert(retained[i].page_end() <= retained[j].va);
            }
        }
        lemma_without_mapping(init, va);
        let rest = without_mapping(init, va);
        let out = without_mapping(retained, va);
        assert forall|i: int| 0 <= i < rest.len() implies retained.contains(#[trigger] rest[i]) && (
        retained.last().va != rest[i].va ==> rest[i].page_end() <= retained.last().va) by {
            let j = init.index_of(rest[i]);
            assert(init.contains(rest[i]));
            assert(retained[j] == rest[i]);
            assert(retained[j].page_end() <= retained[retained.len() - 1].va);
        }
        assert forall|i: int| 0 <= i < out.len() implies retained.contains(#[trigger] out[i])
            && out[i].va != va && out[i].wf() by {
            if i < rest.len() {
                assert(rest[i].wf());
            } else {
                assert(retained[retained.len() - 1] == out[i]);
                assert(retained[retained.len() - 1].wf());
            }
        }
        assert forall|i: int, j: int| 0 <= i < j < out.len() implies (
        #[trigger] out[i]).page_end() <= (#[trigger] out[j]).va by {
            if j < rest.len() {
                assert(rest[i].page_end() <= rest[j].va);
            } else {
                let p = init.index_of(rest[i]);
                assert(init.contains(rest[i]));
                assert(retained[p].page_end() <= retained[retained.len() - 1].va);
            }
        }
    }
}

/// A placement can be reserved: its mapping is valid and free.
#[verifier::rlimit(60)]
#[verifier::spinoff_prover]
pub proof fn placement_is_free(retained: Seq<Mapping>, lost: bool, size: u64, kind: Kind)
    requires
        address_space::mappings_wf(retained),
        place_object_spec(retained, lost, size, kind) is Ok,
    ensures
        ({
            let p = place_object_spec(retained, lost, size, kind)->Ok_0;
            &&& (Mapping { va: p.va, size }).wf()
            &&& is_free(retained, p.va, size)
            &&& address_space::round_up(size as int, 4096) == p.pages * 4096
            &&& p.va as int % p.alignment as int == 0
        }),
{
    let length = pages_of(size) * 4096;
    let alignment = alignment_of(kind) as int;
    let va = address_space::fit_spec(retained, length, alignment)->Some_0;
    assert(alignment == 4096 || alignment == 8192);
    assert({
        &&& va as int % alignment == 0
        &&& address_space::FIRST_VA <= va
        &&& va + length <= address_space::VA_LIMIT
        &&& forall|i: int|
            0 <= i < retained.len() ==> (#[trigger] retained[i]).clear_of(va as int, length)
    }) by {
        address_space::fit_is_first_free(retained, length, alignment);
    }
    assert(address_space::round_up(size as int, 4096) == length);
    assert(va as int % 4096 == 0);
}

/// The first attachment of the object.
pub open spec fn token_spec(owners: Seq<(u64, u64)>, object: u64) -> Option<u64>
    decreases owners.len(),
{
    if owners.len() == 0 {
        None
    } else if owners[0].1 == object {
        Some(owners[0].0)
    } else {
        token_spec(owners.drop_first(), object)
    }
}

/// The attachments of other objects, in their order.
pub open spec fn without_owner(owners: Seq<(u64, u64)>, object: u64) -> Seq<(u64, u64)>
    decreases owners.len(),
{
    if owners.len() == 0 {
        Seq::empty()
    } else {
        let rest = without_owner(owners.drop_last(), object);
        if owners.last().1 == object {
            rest
        } else {
            rest.push(owners.last())
        }
    }
}

/// The attachments that are not attachments of the object.
pub open spec fn without_object(
    attachments: Map<u64, Memory>,
    owners: Seq<(u64, u64)>,
    object: u64,
) -> Map<u64, Memory>
    decreases owners.len(),
{
    if owners.len() == 0 {
        attachments
    } else {
        let rest = without_object(attachments, owners.drop_last(), object);
        if owners.last().1 == object {
            rest.remove(owners.last().0)
        } else {
            rest
        }
    }
}

/// The attachments of one context. Identities of objects and of shaders grant
/// nothing: only a token does.
#[derive(Debug)]
pub struct Attachments {
    pub memory: BTreeMap<u64, Memory>,
    /// Token and object of each attachment, oldest first.
    pub owners: Vec<(u64, u64)>,
}

impl Attachments {
    /// Tokens are distinct, and each has its memory.
    pub open spec fn wf(self) -> bool {
        &&& forall|i: int, j: int|
            0 <= i < j < self.owners@.len() ==> (#[trigger] self.owners@[i]).0 < (
            #[trigger] self.owners@[j]).0
        &&& forall|t: u64| #[trigger]
            self.memory@.dom().contains(t) <==> exists|i: int|
                0 <= i < self.owners@.len() && (#[trigger] self.owners@[i]).0 == t
    }

    /// Every token so far is below `next`.
    pub open spec fn below(self, next: u64) -> bool {
        forall|i: int| 0 <= i < self.owners@.len() ==> (#[trigger] self.owners@[i]).0 < next
    }

    pub fn new() -> (r: Self)
        ensures
            r.wf(),
            r.memory@ == Map::<u64, Memory>::empty(),
            r.owners@.len() == 0,
    {
        Attachments { memory: BTreeMap::new(), owners: Vec::new() }
    }
}

fn lookup(objects: &Vec<Object>, id: u64) -> (r: Option<Memory>)
    ensures
        r == lookup_spec(objects@, id),
{
    let mut i: usize = 0;
    assert(objects@.skip(0) =~= objects@);
    while i < objects.len()
        invariant
            i <= objects@.len(),
            lookup_spec(objects@, id) == lookup_spec(objects@.skip(i as int), id),
        decreases objects@.len() - i,
    {
        assert(objects@.skip(i as int).drop_first() =~= objects@.skip(i + 1));
        if objects[i].id == id {
            return Some(objects[i].memory);
        }
        i += 1;
    }
    None
}

/// What an attachment is answered.
pub open spec fn attach_spec(channel: Objects, object: u64, cookie: u64) -> Result<
    (u64, Memory),
    &'static str,
> {
    if cookie != COOKIE || object == 0 {
        Err("foreign GM20B resource")
    } else if channel.lost {
        Err("GM20B device lost")
    } else {
        match lookup_spec(channel.objects@, object) {
            None => Err("GM20B resource expired"),
            Some(memory) => if channel.next_attachment == u64::MAX {
                Err("GPU attachment generation exhausted")
            } else {
                Ok((channel.next_attachment, memory))
            },
        }
    }
}

impl Attachments {
    /// Attaches an object under a token that was never used before.
    pub fn attach(&mut self, channel: &mut Objects, object: u64, cookie: u64) -> (r: Result<
        u64,
        &'static str,
    >)
        requires
            old(self).wf(),
            old(self).below(old(channel).next_attachment),
        ensures
            final(self).wf(),
            final(self).below(final(channel).next_attachment),
            match attach_spec(*old(channel), object, cookie) {
                Err(e) => r matches Err(f) && f == e && *final(self) == *old(self)
                    && *final(channel) == *old(channel),
                Ok((token, memory)) => {
                    &&& r matches Ok(t) && t == token
                    &&& final(self).memory@ == old(self).memory@.insert(token, memory)
                    &&& final(self).owners@ == old(self).owners@.push((token, object))
                    &&& *final(channel) == (Objects {
                        next_attachment: (token + 1) as u64,
                        ..*old(channel)
                    })
                },
            },
    {
        if cookie != COOKIE || object == 0 {
            return Err("foreign GM20B resource");
        }
        if channel.lost {
            return Err("GM20B device lost");
        }
        let memory = match lookup(&channel.objects, object) {
            None => {
                return Err("GM20B resource expired");
            },
            Some(memory) => memory,
        };
        let token: u64 = channel.next_attachment;
        channel.next_attachment = match token.checked_add(1) {
            None => {
                return Err("GPU attachment generation exhausted");
            },
            Some(next) => next,
        };
        self.memory.insert(token, memory);
        self.owners.push((token, object));
        proof {
            let n = old(self).owners@.len() as int;
            assert forall|t: u64| #[trigger]
                self.memory@.dom().contains(t) <==> exists|i: int|
                    0 <= i < self.owners@.len() && (#[trigger] self.owners@[i]).0 == t by {
                assert(self.owners@[n].0 == token);
                if old(self).memory@.dom().contains(t) {
                    let i = choose|i: int|
                        0 <= i < old(self).owners@.len() && (#[trigger] old(self).owners@[i]).0
                            == t;
                    assert(self.owners@[i].0 == t);
                }
                if exists|i: int| 0 <= i < self.owners@.len() && (#[trigger] self.owners@[i]).0
                    == t {
                    let i = choose|i: int|
                        0 <= i < self.owners@.len() && (#[trigger] self.owners@[i]).0 == t;
                    if i < n {
                        assert(old(self).owners@[i].0 == t);
                    }
                }
            }
        }
        Ok(token)
    }

    /// Withdraws every attachment of the object.
    pub fn detach(&mut self, object: u64, cookie: u64) -> (r: Result<(), &'static str>)
        requires
            old(self).wf(),
        ensures
            final(self).wf(),
            if cookie != COOKIE {
                r == Err::<(), &'static str>("foreign GM20B resource") && *final(self) == *old(self)
            } else {
                &&& r is Ok
                &&& final(self).memory@ == without_object(
                    old(self).memory@,
                    old(self).owners@,
                    object,
                )
                &&& final(self).owners@ == without_owner(old(self).owners@, object)
            },
    {
        if cookie != COOKIE {
            return Err("foreign GM20B resource");
        }
        let mut owners: Vec<(u64, u64)> = Vec::new();
        let mut i: usize = 0;
        while i < self.owners.len()
            invariant
                i <= self.owners@.len(),
                self.owners@ == old(self).owners@,
                owners@ == without_owner(self.owners@.take(i as int), object),
                self.memory@ == without_object(
                    old(self).memory@,
                    self.owners@.take(i as int),
                    object,
                ),
            decreases self.owners@.len() - i,
        {
            assert(self.owners@.take(i + 1).drop_last() =~= self.owners@.take(i as int));
            let (token, owner): (u64, u64) = self.owners[i];
            if owner != object {
                owners.push((token, owner));
            } else {
                self.memory.remove(&token);
            }
            i += 1;
        }
        assert(self.owners@.take(i as int) =~= self.owners@);
        self.owners = owners;
        proof {
            let before = old(self).owners@;
            lemma_without_owner(old(self).memory@, before, object);
            assert forall|t: u64| #[trigger]
                self.memory@.dom().contains(t) <==> exists|i: int|
                    0 <= i < self.owners@.len() && (#[trigger] self.owners@[i]).0 == t by {
                if self.memory@.dom().contains(t) {
                    assert(old(self).memory@.dom().contains(t));
                    let j = choose|j: int| 0 <= j < before.len() && (#[trigger] before[j]).0 == t;
                    assert(before[j].1 != object);
                    assert(self.owners@.contains(before[j]));
                    assert(self.owners@[self.owners@.index_of(before[j])].0 == t);
                }
                if exists|i: int| 0 <= i < self.owners@.len() && (#[trigger] self.owners@[i]).0 == t {
                    let i = choose|i: int| 0 <= i < self.owners@.len() && (#[trigger] self.owners@[i]).0 == t;
                    assert(before.contains(self.owners@[i]));
                    let j = before.index_of(self.owners@[i]);
                    assert(before[j].0 == t && before[j].1 != object);
                    assert(old(self).memory@.dom().contains(t));
                    assert forall|k: int|
                        0 <= k < before.len() && (#[trigger] before[k]).0 == t implies before[k].1
                        != object by {
                        if k < j {
                            assert(before[k].0 < before[j].0);
                        } else if j < k {
                            assert(before[j].0 < before[k].0);
                        }
                    }
                }
            }
        }
        Ok(())
    }

    /// The memory of an attached object, under its oldest token.
    pub fn image(&self, object: u64, cookie: u64) -> (r: Result<Memory, &'static str>)
        requires
            self.wf(),
        ensures
            r == if cookie != COOKIE {
                Err::<Memory, &'static str>("foreign image")
            } else {
                match token_spec(self.owners@, object) {
                    None => Err("GM20B image not attached"),
                    Some(token) => Ok(self.memory@[token]),
                }
            },
    {
        if cookie != COOKIE {
            return Err("foreign image");
        }
        let mut i: usize = 0;
        assert(self.owners@.skip(0) =~= self.owners@);
        while i < self.owners.len()
            invariant
                self.wf(),
                i <= self.owners@.len(),
                cookie == COOKIE,
                token_spec(self.owners@, object) == token_spec(
                    self.owners@.skip(i as int),
                    object,
                ),
            decreases self.owners@.len() - i,
        {
            assert(self.owners@.skip(i as int).drop_first() =~= self.owners@.skip(i + 1));
            let (token, owner): (u64, u64) = self.owners[i];
            if owner == object {
                assert(self.owners@[i as int].0 == token);
                assert(self.memory@.dom().contains(token));
                return match self.memory.get(&token) {
                    None => Err("GM20B image not attached"),
                    Some(memory) => Ok(*memory),
                };
            }
            i += 1;
        }
        Err("GM20B image not attached")
    }
}

/// What is left after the attachments of one object were withdrawn.
proof fn lemma_without_owner(
    memory: Map<u64, Memory>,
    owners: Seq<(u64, u64)>,
    object: u64,
)
    requires
        forall|i: int, j: int|
            0 <= i < j < owners.len() ==> (#[trigger] owners[i]).0 < (#[trigger] owners[j]).0,
        forall|i: int| 0 <= i < owners.len() ==> memory.dom().contains((#[trigger] owners[i]).0),
    ensures
        ({
            let out = without_owner(owners, object);
            &&& forall|i: int, j: int|
                0 <= i < j < out.len() ==> (#[trigger] out[i]).0 < (#[trigger] out[j]).0
            &&& forall|i: int|
                0 <= i < out.len() ==> owners.contains(#[trigger] out[i]) && out[i].1 != object
            &&& forall|i: int|
                0 <= i < owners.len() && owners[i].1 != object ==> out.contains(#[trigger] owners[i])
            &&& forall|t: u64| #[trigger]
                without_object(memory, owners, object).dom().contains(t) <==> (
                memory.dom().contains(t) && !exists|i: int|
                    0 <= i < owners.len() && (#[trigger] owners[i]).0 == t && owners[i].1 == object)
            &&& forall|t: u64| #[trigger]
                without_object(memory, owners, object).dom().contains(t) ==> without_object(
                    memory,
                    owners,
                    object,
                )[t] == memory[t]
        }),
    decreases owners.len(),
{
    if owners.len() > 0 {
        let init = owners.drop_last();
        let n = owners.len() - 1;
        assert forall|i: int, j: int| 0 <= i < j < init.len() implies (#[trigger] init[i]).0 < (
        #[trigger] init[j]).0 by {
            assert(owners[i].0 < owners[j].0);
        }
        assert forall|i: int| 0 <= i < init.len() implies memory.dom().contains(
            (#[trigger] init[i]).0,
        ) by {
            assert(memory.dom().contains(owners[i].0));
        }
        lemma_without_owner(memory, init, object);
        let rest = without_owner(init, object);
        let out = without_owner(owners, object);
        assert forall|i: int| 0 <= i < out.len() implies owners.contains(#[trigger] out[i])
            && out[i].1 != object by {
            if i < rest.len() {
                assert(init.contains(rest[i]));
                let j = init.index_of(rest[i]);
                assert(owners[j] == out[i]);
            } else {
                assert(owners[n] == out[i]);
            }
        }
        assert forall|i: int, j: int| 0 <= i < j < out.len() implies (#[trigger] out[i]).0 < (
        #[trigger] out[j]).0 by {
            if j < rest.len() {
                assert(rest[i].0 < rest[j].0);
            } else {
                assert(init.contains(rest[i]));
                let k = init.index_of(rest[i]);
                assert(owners[k].0 < owners[n].0);
            }
        }
        assert forall|i: int| 0 <= i < owners.len() && owners[i].1 != object implies out.contains(
            #[trigger] owners[i],
        ) by {
            if i < n {
                assert(init[i] == owners[i]);
                assert(rest.contains(init[i]));
                let k = rest.index_of(init[i]);
                assert(out[k] == owners[i]);
            } else {
                assert(out[out.len() - 1] == owners[i]);
            }
        }
        let last = owners[n];
        let kept = without_object(memory, init, object);
        assert forall|t: u64| #[trigger]
            without_object(memory, owners, object).dom().contains(t) <==> (memory.dom().contains(t)
                && !exists|i: int|
                0 <= i < owners.len() && (#[trigger] owners[i]).0 == t && owners[i].1 == object) by {
            assert(kept.dom().contains(t) <==> (memory.dom().contains(t) && !exists|i: int|
                0 <= i < init.len() && (#[trigger] init[i]).0 == t && init[i].1 == object));
            if exists|i: int|
                0 <= i < init.len() && (#[trigger] init[i]).0 == t && init[i].1 == object {
                let i = choose|i: int|
                    0 <= i < init.len() && (#[trigger] init[i]).0 == t && init[i].1 == object;
                assert(owners[i].0 == t);
            }
            if exists|i: int|
                0 <= i < owners.len() && (#[trigger] owners[i]).0 == t && owners[i].1 == object {
                let i = choose|i: int|
                    0 <= i < owners.len() && (#[trigger] owners[i]).0 == t && owners[i].1 == object;
                if i < n {
                    assert(init[i].0 == t);
                }
            }
        }
    }
}

/// An object takes whole pages and no more, at an address for its kind: images in blocks lie
/// on every second page and their pages say what is in them.
pub proof fn objects_get_their_pages(retained: Seq<Mapping>, lost: bool, size: u64, kind: Kind, p: Placement)
    requires
        place_object_spec(retained, lost, size, kind) == Ok::<Placement, &'static str>(p),
    ensures
        !lost && 1 <= size <= 0x100_0000,
        size <= 4096 * p.pages < size + 4096,
        kind !is Image ==> p.alignment == 4096 && p.page_kind == 0,
        kind matches Kind::Image(i) ==> {
            &&& i.layout.modifier == Modifier::Linear ==> p.alignment == 4096 && p.page_kind == 0
            &&& i.layout.modifier != Modifier::Linear ==> p.alignment == 8192
            &&& i.layout.modifier == Modifier::BlockLinear <==> p.page_kind == 0xfe
            &&& i.layout.modifier == Modifier::ZetaBlockLinear <==> p.page_kind == 0x7b
        },
{
}

/// An object is found by its number, where it is the first with it, and with what it is.
pub proof fn objects_are_found_by_their_number(objects: Seq<Object>, id: u64)
    ensures
        lookup_spec(objects, id) is None <==> forall|i: int|
            0 <= i < objects.len() ==> (#[trigger] objects[i]).id != id,
        lookup_spec(objects, id) matches Some(m) ==> exists|i: int|
            {
                &&& 0 <= i < objects.len()
                &&& (#[trigger] objects[i]).id == id
                &&& objects[i].memory == m
                &&& forall|j: int| 0 <= j < i ==> (#[trigger] objects[j]).id != id
            },
    decreases objects.len(),
{
    if objects.len() > 0 && objects[0].id != id {
        let rest = objects.drop_first();
        objects_are_found_by_their_number(rest, id);
        assert forall|i: int| 0 < i < objects.len() implies #[trigger] objects[i] == rest[i - 1] by {}
        match lookup_spec(rest, id) {
            None => {
                assert forall|i: int| 0 <= i < objects.len() implies (#[trigger] objects[i]).id
                    != id by {
                    if i > 0 {
                        assert(rest[i - 1].id != id);
                    }
                }
            },
            Some(m) => {
                let i = choose|i: int|
                    {
                        &&& 0 <= i < rest.len()
                        &&& (#[trigger] rest[i]).id == id
                        &&& rest[i].memory == m
                        &&& forall|j: int| 0 <= j < i ==> (#[trigger] rest[j]).id != id
                    };
                assert(objects[i + 1].id == id);
                assert forall|j: int| 0 <= j < i + 1 implies (#[trigger] objects[j]).id != id by {
                    if j > 0 {
                        assert(rest[j - 1].id != id);
                    }
                }
            },
        }
    } else if objects.len() > 0 {
        assert(objects[0].id == id);
    }
}

/// What an address had goes, and everything else stays in its order.
pub proof fn others_stay(objects: Seq<Object>, va: u64)
    ensures
        without_va(objects, va) == objects.filter(|o: Object| o.memory.va != va),
    decreases objects.len(),
{
    reveal(Seq::filter);
    if objects.len() > 0 {
        others_stay(objects.drop_last(), va);
    }
}

/// What an address had goes from the mappings, and everything else stays in its order.
pub proof fn other_mappings_stay(retained: Seq<Mapping>, va: u64)
    ensures
        without_mapping(retained, va) == retained.filter(|m: Mapping| m.va != va),
    decreases retained.len(),
{
    reveal(Seq::filter);
    if retained.len() > 0 {
        other_mappings_stay(retained.drop_last(), va);
    }
}

/// An object is attached under a new number if it is one of this device, is known, and the
/// device is there.
pub proof fn known_objects_are_attached(channel: Objects, object: u64, cookie: u64)
    ensures
        attach_spec(channel, object, cookie) is Ok <==> {
            &&& cookie == 0x474d_3230_4253_5031
            &&& object != 0
            &&& !channel.lost
            &&& lookup_spec(channel.objects@, object) is Some
            &&& channel.next_attachment != 0xffff_ffff_ffff_ffff
        },
        attach_spec(channel, object, cookie) matches Ok((token, memory)) ==> {
            &&& token == channel.next_attachment
            &&& lookup_spec(channel.objects@, object) == Some(memory)
        },
{
}

/// The token of an object is the first that was given for it.
pub proof fn tokens_are_found_by_their_object(owners: Seq<(u64, u64)>, object: u64)
    ensures
        token_spec(owners, object) is None <==> forall|i: int|
            0 <= i < owners.len() ==> (#[trigger] owners[i]).1 != object,
        token_spec(owners, object) matches Some(token) ==> exists|i: int|
            {
                &&& 0 <= i < owners.len()
                &&& #[trigger] owners[i] == (token, object)
                &&& forall|j: int| 0 <= j < i ==> (#[trigger] owners[j]).1 != object
            },
    decreases owners.len(),
{
    if owners.len() > 0 && owners[0].1 != object {
        let rest = owners.drop_first();
        tokens_are_found_by_their_object(rest, object);
        match token_spec(rest, object) {
            None => {
                assert forall|i: int| 0 <= i < owners.len() implies (#[trigger] owners[i]).1
                    != object by {
                    if i > 0 {
                        assert(rest[i - 1] == owners[i]);
                    }
                }
            },
            Some(token) => {
                let i = choose|i: int|
                    {
                        &&& 0 <= i < rest.len()
                        &&& #[trigger] rest[i] == (token, object)
                        &&& forall|j: int| 0 <= j < i ==> (#[trigger] rest[j]).1 != object
                    };
                assert(owners[i + 1] == (token, object));
                assert forall|j: int| 0 <= j < i + 1 implies (#[trigger] owners[j]).1 != object by {
                    if j > 0 {
                        assert(rest[j - 1] == owners[j]);
                    }
                }
            },
        }
    } else if owners.len() > 0 {
        assert(owners[0] == (owners[0].0, object));
    }
}

/// What an object was attached under goes with it, and every other attachment stays as it is.
pub proof fn other_attachments_stay(
    attachments: Map<u64, Memory>,
    owners: Seq<(u64, u64)>,
    object: u64,
    token: u64,
)
    ensures
        without_owner(owners, object) == owners.filter(|o: (u64, u64)| o.1 != object),
        owners.contains((token, object)) ==> !without_object(
            attachments,
            owners,
            object,
        ).dom().contains(token),
        !owners.contains((token, object)) ==> (without_object(
            attachments,
            owners,
            object,
        ).dom().contains(token) <==> attachments.dom().contains(token)),
        !owners.contains((token, object)) && attachments.dom().contains(token) ==> without_object(
            attachments,
            owners,
            object,
        )[token] == attachments[token],
    decreases owners.len(),
{
    reveal(Seq::filter);
    if owners.len() > 0 {
        let rest = owners.drop_last();
        other_attachments_stay(attachments, rest, object, token);
        assert(owners.contains((token, object)) <==> rest.contains((token, object))
            || owners.last() == (token, object)) by {
            if owners.contains((token, object)) {
                let i = choose|i: int| 0 <= i < owners.len() && owners[i] == (token, object);
                if i < owners.len() - 1 {
                    assert(rest[i] == (token, object));
                }
            }
            if rest.contains((token, object)) {
                let i = choose|i: int| 0 <= i < rest.len() && rest[i] == (token, object);
                assert(owners[i] == (token, object));
            }
            if owners.last() == (token, object) {
                assert(owners[owners.len() - 1] == (token, object));
            }
        }
    }
}

} // verus!
