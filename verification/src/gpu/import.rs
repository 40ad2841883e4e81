//! Images that another device produced, from their description to an object of the
//! channel.
use vstd::prelude::*;

use crate::gpu::address_space;
use crate::gpu::address_space::Mapping;
use crate::gpu::images;
use crate::gpu::images::{plan_import, Color, SharedDescriptor};
use crate::gpu::memory::{Format, ImageCreate, ImageLayout, Kind, SharedImage, Usage};
use crate::gpu::objects;
use crate::gpu::objects::{Object, Objects};

verus! {

/// The visible part of a shared image, and what its sampler computes with.
#[derive(Clone, Copy, Debug)]
pub struct Visible {
    pub width: u32,
    pub height: u32,
    pub uniforms: [u32; 20],
}

/// Only sampling is allowed.
pub open spec fn sampled_only() -> Usage {
    Usage {
        sampled: true,
        render_target: false,
        transfer_src: false,
        transfer_dst: false,
        depth_stencil: false,
        presentable: false,
        depth_compatible: false,
        other: false,
    }
}

/// What an imported image is.
pub open spec fn shared_spec(d: SharedDescriptor, layout: ImageLayout, v: Visible) -> SharedImage {
    SharedImage {
        create: ImageCreate {
            format: Format::Nv12,
            usage: sampled_only(),
            width: v.width,
            height: v.height,
            mip_levels: 1,
            array_layers: 1,
            cube: false,
        },
        layout,
        stored_width: d.width,
        stored_height: d.height,
        uniforms: v.uniforms,
    }
}

fn shared_of(d: &SharedDescriptor, layout: ImageLayout, v: &Visible) -> (r: SharedImage)
    ensures
        r == shared_spec(*d, layout, *v),
{
    SharedImage {
        create: ImageCreate {
            format: Format::Nv12,
            usage: Usage {
                sampled: true,
                render_target: false,
                transfer_src: false,
                transfer_dst: false,
                depth_stencil: false,
                presentable: false,
                depth_compatible: false,
                other: false,
            },
            width: v.width,
            height: v.height,
            mip_levels: 1,
            array_layers: 1,
            cube: false,
        },
        layout,
        stored_width: d.width,
        stored_height: d.height,
        uniforms: v.uniforms,
    }
}

/// Why an image cannot be imported, the first thing first. The owner of the kernel's
/// layouts judges whether a layout is valid; one of no bytes never is.
pub open spec fn import_error(
    channel: Objects,
    d: SharedDescriptor,
    c: Color,
    valid: bool,
) -> Option<&'static str> {
    if channel.lost {
        Some("GM20B device lost")
    } else {
        match images::import_spec(d, c) {
            Err(e) => Some(e),
            Ok(layout) => if !valid || layout.total_size == 0 {
                Some("GM20B imported image layout invalid")
            } else if address_space::fit_spec(
                channel.retained@,
                layout.total_size as int,
                8192,
            ) is None {
                Some("GM20B GPU address space exhausted")
            } else if channel.next_object == u64::MAX {
                Some("GPU object identity exhausted")
            } else {
                None
            },
        }
    }
}

/// Where a buffer of an image at some place is mapped, and how many bytes of it.
pub open spec fn piece(d: SharedDescriptor, va: u64, k: int) -> (u64, u64) {
    (
        (va + images::buffer_start(d.buffer_sizes@, k as nat)) as u64,
        ((d.buffer_sizes@[k] + 4095) / 4096 * 4096) as u64,
    )
}

/// An object whose pages have still to be mapped, buffer by buffer.
pub struct Imported {
    pub object: Object,
    pub pieces: Vec<(u64, u64)>,
    pub page_kind: u8,
}

fn pieces_of(d: &SharedDescriptor, va: u64) -> (r: Vec<(u64, u64)>)
    requires
        d.wf(),
        images::buffers_addressable(d.buffer_sizes@, d.buffer_count as nat),
        va + images::buffer_start(d.buffer_sizes@, d.buffer_count as nat) <= u64::MAX,
    ensures
        r@.len() == d.buffer_count,
        forall|k: int| 0 <= k < d.buffer_count ==> #[trigger] r@[k] == piece(*d, va, k),
{
    let mut pieces: Vec<(u64, u64)> = Vec::new();
    let mut at: u64 = va;
    let mut i: usize = 0;
    while i < d.buffer_count
        invariant
            i <= d.buffer_count <= 4,
            d.wf(),
            images::buffers_addressable(d.buffer_sizes@, d.buffer_count as nat),
            va + images::buffer_start(d.buffer_sizes@, d.buffer_count as nat) <= u64::MAX,
            at == va + images::buffer_start(d.buffer_sizes@, i as nat),
            pieces@.len() == i,
            forall|k: int| 0 <= k < i ==> #[trigger] pieces@[k] == piece(*d, va, k),
        decreases d.buffer_count - i,
    {
        proof {
            lemma_addressable(d.buffer_sizes@, i as nat, d.buffer_count as nat);
            images::lemma_buffer_start(d.buffer_sizes@, (i + 1) as nat, d.buffer_count as nat);
        }
        let size: u64 = d.buffer_sizes[i];
        let length: u64 = (size + 4095) / 4096 * 4096;
        assert(images::buffer_start(d.buffer_sizes@, (i + 1) as nat) == images::buffer_start(
            d.buffer_sizes@,
            i as nat,
        ) + length);
        pieces.push((at, length));
        assert(pieces@[i as int] == piece(*d, va, i as int));
        at = at + length;
        i = i + 1;
    }
    pieces
}

proof fn lemma_addressable(sizes: Seq<u64>, i: nat, n: nat)
    requires
        i < n <= sizes.len(),
        images::buffers_addressable(sizes, n),
    ensures
        sizes[i as int] + 4095 <= u64::MAX,
    decreases n,
{
    if i + 1 < n {
        lemma_addressable(sizes, i, (n - 1) as nat);
    }
}

/// Takes an image in: it gets a place and an identity, and its mapping is retained
/// before any of its pages is mapped.
pub fn import_image(
    channel: &mut Objects,
    d: &SharedDescriptor,
    c: &Color,
    valid: bool,
    visible: &Visible,
) -> (r: Result<Imported, &'static str>)
    requires
        old(channel).wf(),
        d.wf(),
    ensures
        final(channel).wf(),
        match r {
            Err(e) => import_error(*old(channel), *d, *c, valid) == Some(e) && *final(channel)
                == *old(channel),
            Ok(i) => {
                let layout = images::import_spec(*d, *c)->Ok_0;
                let va = address_space::fit_spec(
                    old(channel).retained@,
                    layout.total_size as int,
                    8192,
                )->0;
                &&& import_error(*old(channel), *d, *c, valid) is None
                &&& i.object.id == old(channel).next_object
                &&& i.object.memory.va == va
                &&& i.object.memory.size == layout.total_size
                &&& i.object.memory.kind == Kind::SharedImage(shared_spec(*d, layout, *visible))
                &&& i.page_kind == if d.modifier == 0 {
                    0u8
                } else {
                    0xfe
                }
                &&& i.pieces@.len() == d.buffer_count
                &&& forall|k: int|
                    0 <= k < d.buffer_count ==> #[trigger] i.pieces@[k] == piece(*d, va, k)
                &&& objects::is_inserted(
                    old(channel).retained@,
                    final(channel).retained@,
                    Mapping { va, size: layout.total_size },
                )
                &&& final(channel).objects@ == old(channel).objects@
                &&& final(channel).next_object == old(channel).next_object + 1
                &&& final(channel).next_attachment == old(channel).next_attachment
                &&& !final(channel).lost
            },
        },
{
    if channel.lost {
        return Err("GM20B device lost");
    }
    let layout = plan_import(d, c)?;
    if !valid || layout.total_size == 0 {
        return Err("GM20B imported image layout invalid");
    }
    let size: u64 = layout.total_size;
    let ghost n = d.buffer_count as nat;
    let ghost sizes = d.buffer_sizes@;
    proof {
        images::lemma_buffer_start(sizes, n, n);
        assert(size == images::buffer_start(sizes, n));
        assert(size > 0 && size % 4096 == 0);
    }
    let va: u64 = channel.place_shared(size)?;
    proof {
        address_space::fit_is_first_free(channel.retained@, size as int, 8192);
        assert(address_space::round_up(size as int, 4096) == size);
    }
    let kind = Kind::SharedImage(shared_of(d, layout, visible));
    let object = channel.reserve(va, size, kind)?;
    let pieces: Vec<(u64, u64)> = pieces_of(d, va);
    let page_kind: u8 = if d.modifier == 0 {
        0
    } else {
        0xfe
    };
    Ok(Imported { object, pieces, page_kind })
}

/// Takes note of how the mapping of an imported image went. Pages that may be mapped
/// in part are the end of the device; else the object can be attached.
pub fn conclude_import(
    channel: &mut Objects,
    object: Object,
    mapped: Result<(), &'static str>,
) -> (r: Result<u64, &'static str>)
    requires
        old(channel).wf(),
    ensures
        final(channel).wf(),
        match mapped {
            Err(e) => r == Err::<u64, &'static str>(e) && *final(channel) == (Objects {
                lost: true,
                ..*old(channel)
            }),
            Ok(_) => {
                &&& r == Ok::<u64, &'static str>(object.id)
                &&& final(channel).objects@ == old(channel).objects@.push(object)
                &&& final(channel).retained@ == old(channel).retained@
                &&& final(channel).next_object == old(channel).next_object
                &&& final(channel).next_attachment == old(channel).next_attachment
                &&& final(channel).lost == old(channel).lost
            },
        },
{
    match mapped {
        Err(e) => {
            channel.fault();
            Err(e)
        },
        Ok(_) => {
            let id: u64 = object.id;
            channel.publish(object);
            Ok(id)
        },
    }
}

/// The buffers of an imported image are mapped next to each other, in the place that
/// is retained for the image.
pub proof fn pieces_fill_the_place(d: SharedDescriptor, va: u64, k: int)
    requires
        d.wf(),
        images::buffers_addressable(d.buffer_sizes@, d.buffer_count as nat),
        va + images::buffer_start(d.buffer_sizes@, d.buffer_count as nat) <= u64::MAX,
        0 <= k < d.buffer_count,
    ensures
        va <= piece(d, va, k).0,
        piece(d, va, k).0 + piece(d, va, k).1 <= va + images::buffer_start(
            d.buffer_sizes@,
            d.buffer_count as nat,
        ),
        k + 1 < d.buffer_count ==> piece(d, va, k + 1).0 == piece(d, va, k).0 + piece(d, va, k).1,
{
    let n = d.buffer_count as nat;
    lemma_addressable(d.buffer_sizes@, k as nat, n);
    images::lemma_buffer_start(d.buffer_sizes@, k as nat, n);
    images::lemma_buffer_start(d.buffer_sizes@, (k + 1) as nat, n);
    assert(images::buffer_start(d.buffer_sizes@, (k + 1) as nat) == images::buffer_start(
        d.buffer_sizes@,
        k as nat,
    ) + (d.buffer_sizes@[k] + 4095) / 4096 * 4096);
}

/// A shared picture is a video image that may be sampled and nothing else, with the size that
/// is seen and the size that is stored.
pub proof fn shared_pictures_are_sampled(d: SharedDescriptor, layout: ImageLayout, v: Visible)
    ensures
        ({
            let s = shared_spec(d, layout, v);
            &&& s.create.format == Format::Nv12
            &&& s.create.width == v.width && s.create.height == v.height
            &&& s.stored_width == d.width && s.stored_height == d.height
            &&& s.create.usage.allows(crate::gpu::memory::Role::Sampled) && !s.create.usage.allows(crate::gpu::memory::Role::RenderTarget)
                && !s.create.usage.allows(crate::gpu::memory::Role::TransferSrc) && !s.create.usage.allows(
                crate::gpu::memory::Role::TransferDst,
            ) && !s.create.usage.allows(crate::gpu::memory::Role::DepthStencil) && !s.create.usage.presentable
            &&& s.layout == layout && s.uniforms == v.uniforms
            &&& s.create.mip_levels == 1 && s.create.array_layers == 1 && !s.create.cube
        }),
{
}

} // verus!
