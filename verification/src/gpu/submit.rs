//! Checking of decoded submissions against the attachments of a context.
//!
//! User words select neither a GPU method, nor a physical address, nor a shader:
//! each accepted operation only names objects that the context holds, and only
//! bytes inside them.
use std::collections::BTreeMap;

use vstd::prelude::*;

use crate::gpu::graphics;
use crate::gpu::memory::{Format, Kind, Memory, Modifier, Role, SharedImage};

verus! {

/// Words of one operation in the command stream.
pub const OPERATION_WORDS: usize = 64;

#[derive(Clone, Copy, Debug, PartialEq, Eq, Structural)]
pub struct Access {
    pub read: bool,
    pub write: bool,
}

/// A range of an attachment that the submission declares.
#[derive(Clone, Copy, Debug)]
pub struct Resource {
    pub attachment_token: u64,
    pub range_offset: u64,
    pub range_size: u64,
    pub access: Access,
}

/// A place in the command stream that names an object.
#[derive(Clone, Copy, Debug)]
pub struct Relocation {
    pub commands_word_offset: u32,
    pub access: Access,
    /// Whether the place takes a 64-bit GPU address.
    pub gpu_va64: bool,
    /// Index of the resource, or `None` where the place names a program.
    pub attachment: Option<u32>,
    pub resource_offset: u64,
    pub required_size: u64,
}

/// A decoded submission.
#[derive(Debug)]
pub struct Submit {
    pub commands: Vec<u32>,
    pub resources: Vec<Resource>,
    pub relocations: Vec<Relocation>,
}

#[derive(Clone, Copy, Debug, PartialEq, Eq, Structural)]
pub enum Variant {
    Stride16Solid,
    Stride16TextureRgba,
    Stride16TextureAlphaMask,
    Stride40VertexColor,
    Stride40TextureVertexColorRgba,
    Stride32VertexColor,
    Stride28VertexColor,
    Stride24TextureRgba,
    Stride24TextureRgbIgnoreAlpha,
    Stride24TextureAlphaMask,
    Other,
}

/// One shader program of the pack: its entry point and register count.
#[derive(Clone, Copy, Debug, PartialEq, Eq, Structural)]
pub struct Shader {
    pub start: u32,
    pub gprs: u32,
}

/// One canonical shader pair, by the number that selects it.
#[derive(Clone, Copy, Debug, PartialEq, Eq, Structural)]
pub struct Pipeline {
    pub raw: u32,
    pub variant: Variant,
    pub stride: u32,
    pub vertex: Shader,
    pub fragment: Shader,
}

pub open spec fn variant_samples(v: Variant) -> bool {
    match v {
        Variant::Stride16TextureRgba
        | Variant::Stride16TextureAlphaMask
        | Variant::Stride40TextureVertexColorRgba
        | Variant::Stride24TextureRgba
        | Variant::Stride24TextureRgbIgnoreAlpha
        | Variant::Stride24TextureAlphaMask => true,
        _ => false,
    }
}

/// Programs whose fragment shader takes red, green and blue from the texture.
pub open spec fn variant_samples_color(v: Variant) -> bool {
    match v {
        Variant::Stride16TextureRgba
        | Variant::Stride24TextureRgba
        | Variant::Stride24TextureRgbIgnoreAlpha
        | Variant::Stride40TextureVertexColorRgba => true,
        _ => false,
    }
}

impl Variant {
    pub fn samples(&self) -> (r: bool)
        ensures
            r == variant_samples(*self),
    {
        match self {
            Variant::Stride16TextureRgba
            | Variant::Stride16TextureAlphaMask
            | Variant::Stride40TextureVertexColorRgba
            | Variant::Stride24TextureRgba
            | Variant::Stride24TextureRgbIgnoreAlpha
            | Variant::Stride24TextureAlphaMask => true,
            _ => false,
        }
    }

    pub fn samples_color(&self) -> (r: bool)
        ensures
            r == variant_samples_color(*self),
    {
        match self {
            Variant::Stride16TextureRgba
            | Variant::Stride24TextureRgba
            | Variant::Stride24TextureRgbIgnoreAlpha
            | Variant::Stride40TextureVertexColorRgba => true,
            _ => false,
        }
    }
}

/// The first pipeline of the table that `raw` selects.
pub open spec fn pipeline_of(table: Seq<Pipeline>, raw: u32) -> Option<Pipeline>
    decreases table.len(),
{
    if table.len() == 0 {
        None
    } else if table[0].raw == raw {
        Some(table[0])
    } else {
        pipeline_of(table.drop_first(), raw)
    }
}

pub fn find_pipeline(table: &[Pipeline], raw: u32) -> (r: Option<Pipeline>)
    ensures
        r == pipeline_of(table@, raw),
{
    let mut i: usize = 0;
    assert(table@.skip(0) =~= table@);
    while i < table.len()
        invariant
            i <= table.len(),
            pipeline_of(table@, raw) == pipeline_of(table@.skip(i as int), raw),
        decreases table.len() - i,
    {
        assert(table@.skip(i as int).drop_first() =~= table@.skip(i + 1));
        if table[i].raw == raw {
            return Some(table[i]);
        }
        i += 1;
    }
    None
}

/// CPU-owned copy of the bytes `start..end` of the buffer at `va`, taken when
/// the submission was accepted.
#[derive(Debug)]
pub struct Snapshot {
    pub va: u64,
    pub start: u64,
    pub end: u64,
    pub bytes: Vec<u8>,
}

impl Snapshot {
    pub open spec fn wf(self) -> bool {
        self.start <= self.end && self.bytes@.len() == self.end - self.start
    }

    pub open spec fn covers(self, va: u64, start: int, end: int) -> bool {
        self.va == va && self.start <= start && self.end >= end
    }
}

/// What one place of an operation was resolved to: `size` bytes at `offset`
/// inside `memory`.
#[derive(Clone, Copy, Debug)]
pub struct Binding<'a> {
    pub memory: &'a Memory,
    pub offset: u64,
    pub size: u64,
}

impl<'a> Binding<'a> {
    pub open spec fn wf(self) -> bool {
        self.memory.wf() && self.offset + self.size <= self.memory.size
    }

    pub open spec fn address(self) -> u64 {
        (self.memory.va + self.offset) as u64
    }
}

pub open spec fn zero_range(w: Seq<u32>, from: int, to: int) -> bool {
    forall|i: int| from <= i < to ==> w[i] == 0
}

fn all_zero(w: &[u32; 96], from: usize, to: usize) -> (r: bool)
    requires
        from <= to <= 96,
    ensures
        r == zero_range(w@, from as int, to as int),
{
    let mut i: usize = from;
    while i < to
        invariant
            from <= i <= to <= 96,
            zero_range(w@, from as int, i as int),
        decreases to - i,
    {
        if w[i] != 0 {
            return false;
        }
        i += 1;
    }
    true
}

/// Whether an IEEE-754 single with these bits is neither infinite nor a NaN.
pub open spec fn finite(bits: u32) -> bool {
    bits & 0x7f80_0000 != 0x7f80_0000
}

pub open spec fn finite_range(w: Seq<u32>, from: int, to: int) -> bool {
    forall|i: int| from <= i < to ==> finite(#[trigger] w[i])
}

fn all_finite(w: &[u32; 96], from: usize, to: usize) -> (r: bool)
    requires
        from <= to <= 96,
    ensures
        r == finite_range(w@, from as int, to as int),
{
    let mut i: usize = from;
    while i < to
        invariant
            from <= i <= to <= 96,
            finite_range(w@, from as int, i as int),
        decreases to - i,
    {
        if w[i] & 0x7f80_0000 == 0x7f80_0000 {
            assert(!finite(w@[i as int]));
            return false;
        }
        i += 1;
    }
    true
}

/// Whether an IEEE-754 single with these bits lies between zero and one,
/// negative zero included. The bits of nonnegative singles are ordered as the
/// numbers are, and one is `0x3f80_0000`.
pub open spec fn unit_interval(bits: u32) -> bool {
    bits <= 0x3f80_0000 || bits == 0x8000_0000
}

/// Whether `x, y, width, height` names a nonempty rectangle of the surface.
pub open spec fn inside(x: u32, y: u32, w: u32, h: u32, width: u32, height: u32) -> bool {
    w != 0 && h != 0 && x + w <= width && y + h <= height
}

/// Accepts the rectangle `x, y, w, h` exactly where it is a nonempty part of a
/// `width` by `height` surface.
pub fn rectangle(x: u32, y: u32, w: u32, h: u32, width: u32, height: u32) -> (r: Result<
    (),
    &'static str,
>)
    ensures
        r == if inside(x, y, w, h, width, height) {
            Ok::<(), &'static str>(())
        } else {
            Err("rectangle out of range")
        },
{
    if w == 0 || h == 0 || x as u64 + w as u64 > width as u64 || y as u64 + h as u64
        > height as u64 {
        return Err("rectangle out of range");
    }
    Ok(())
}

/// What a surface use of `b` with the stated geometry is answered.
pub open spec fn surface_spec(
    b: Binding,
    width: u32,
    height: u32,
    pitch: u32,
    tile_mode: u32,
    role: Role,
) -> Result<(), &'static str> {
    match b.memory.kind {
        Kind::Buffer => Err("surface requires image"),
        Kind::SharedImage(s) => {
            if role == Role::Sampled && s.create.width == width && s.create.height == height
                && s.layout.luma.row_pitch == pitch && b.offset == 0 && b.size
                >= s.layout.total_size && tile_mode == (if s.layout.modifier == Modifier::Linear {
                0u32
            } else {
                0x10
            }) {
                Ok(())
            } else {
                Err("shared sampled image layout/usage mismatch")
            }
        },
        Kind::Image(i) => {
            let depth = role == Role::DepthStencil;
            if i.create.format != (if depth {
                Format::Depth32Float
            } else {
                Format::Bgra8Unorm
            }) || (depth && i.layout.modifier != Modifier::ZetaBlockLinear) || i.create.width
                != width || i.create.height != height || i.layout.luma.row_pitch != pitch {
                Err("surface layout/usage mismatch")
            } else if i.layout.modifier is Other {
                Err("unsupported surface modifier")
            } else if tile_mode != (if i.layout.modifier == Modifier::Linear {
                0u32
            } else {
                0x40
            }) || !i.create.usage.allows(role) || b.offset != i.layout.luma.offset || b.size
                < i.layout.luma.size {
                Err("surface layout/usage mismatch")
            } else {
                Ok(())
            }
        },
    }
}

/// Checks one surface use of an object: its kind, format, geometry, storage
/// order and declared uses must all be those that the operation states.
pub fn surface(
    b: &Binding,
    width: u32,
    height: u32,
    pitch: u32,
    tile_mode: u32,
    role: Role,
) -> (r: Result<(), &'static str>)
    ensures
        r == surface_spec(*b, width, height, pitch, tile_mode, role),
{
    match &b.memory.kind {
        Kind::Buffer => Err("surface requires image"),
        Kind::SharedImage(s) => {
            let expected: u32 = if s.layout.modifier == Modifier::Linear {
                0
            } else {
                0x10
            };
            if role != Role::Sampled || s.create.width != width || s.create.height != height
                || s.layout.luma.row_pitch != pitch || b.offset != 0 || b.size
                < s.layout.total_size || tile_mode != expected {
                return Err("shared sampled image layout/usage mismatch");
            }
            Ok(())
        },
        Kind::Image(i) => {
            let depth = role == Role::DepthStencil;
            let format = if depth {
                Format::Depth32Float
            } else {
                Format::Bgra8Unorm
            };
            if i.create.format != format || (depth && i.layout.modifier
                != Modifier::ZetaBlockLinear) || i.create.width != width || i.create.height
                != height || i.layout.luma.row_pitch != pitch {
                return Err("surface layout/usage mismatch");
            }
            let expected: u32 = match i.layout.modifier {
                Modifier::BlockLinear | Modifier::ZetaBlockLinear => 0x40,
                Modifier::Linear => 0,
                Modifier::Other(_) => {
                    return Err("unsupported surface modifier");
                },
            };
            if tile_mode != expected || !i.create.usage.includes(role) || b.offset
                != i.layout.luma.offset || b.size < i.layout.luma.size {
                return Err("surface layout/usage mismatch");
            }
            Ok(())
        },
    }
}

/// The object that relocation `cursor` names for the place at stream word
/// `word`, which the operation uses as `access`.
pub open spec fn resolve_spec<'a>(
    s: Submit,
    attached: Map<u64, Memory>,
    cursor: int,
    word: int,
    access: Access,
) -> Result<Binding<'a>, &'static str> {
    if cursor >= s.relocations@.len() {
        Err("missing canonical object reference")
    } else {
        let r = s.relocations@[cursor];
        if r.commands_word_offset != word || r.access != access || !r.gpu_va64 {
            Err("object reference role mismatch")
        } else {
            match r.attachment {
                None => Err("userspace cannot address canonical programs"),
                Some(index) => {
                    if index >= s.resources@.len() {
                        Err("object reference resource invalid")
                    } else {
                        let resource = s.resources@[index as int];
                        let offset = resource.range_offset + r.resource_offset;
                        if !attached.dom().contains(resource.attachment_token) {
                            Err("attachment generation invalid")
                        } else if offset > u64::MAX {
                            Err("object offset overflow")
                        } else if offset + r.required_size > u64::MAX {
                            Err("object range overflow")
                        } else if offset + r.required_size
                            > attached[resource.attachment_token].size {
                            Err("object reference outside backing")
                        } else {
                            Ok(
                                Binding {
                                    memory: &attached[resource.attachment_token],
                                    offset: offset as u64,
                                    size: r.required_size,
                                },
                            )
                        }
                    }
                },
            }
        }
    }
}

fn resolve<'a>(
    s: &Submit,
    attached: &'a BTreeMap<u64, Memory>,
    cursor: usize,
    word: usize,
    access: Access,
) -> (r: Result<Binding<'a>, &'static str>)
    ensures
        r == resolve_spec(*s, attached@, cursor as int, word as int, access),
{
    if cursor >= s.relocations.len() {
        return Err("missing canonical object reference");
    }
    let r = s.relocations[cursor];
    if r.commands_word_offset as u64 != word as u64 || r.access != access || !r.gpu_va64 {
        return Err("object reference role mismatch");
    }
    let index: u32 = match r.attachment {
        None => {
            return Err("userspace cannot address canonical programs");
        },
        Some(index) => index,
    };
    if index as u64 >= s.resources.len() as u64 {
        return Err("object reference resource invalid");
    }
    let resource = s.resources[index as usize];
    let memory: &'a Memory = match attached.get(&resource.attachment_token) {
        None => {
            return Err("attachment generation invalid");
        },
        Some(memory) => memory,
    };
    let offset: u64 = match resource.range_offset.checked_add(r.resource_offset) {
        None => {
            return Err("object offset overflow");
        },
        Some(offset) => offset,
    };
    let end: u64 = match offset.checked_add(r.required_size) {
        None => {
            return Err("object range overflow");
        },
        Some(end) => end,
    };
    if end > memory.size {
        return Err("object reference outside backing");
    }
    Ok(Binding { memory, offset, size: r.required_size })
}

pub open spec fn read_only() -> Access {
    Access { read: true, write: false }
}

pub open spec fn write_only() -> Access {
    Access { read: false, write: true }
}

pub open spec fn read_write() -> Access {
    Access { read: true, write: true }
}

/// The objects of one operation, and its words with their addresses filled in.
pub struct Bound<'a> {
    pub words: [u32; 96],
    /// Relocations used up to and including this operation.
    pub cursor: usize,
    pub target: Binding<'a>,
    /// Vertex buffer of a draw, or source of a copy.
    pub source: Option<Binding<'a>>,
    pub texture: Option<Binding<'a>>,
    pub index: Option<Binding<'a>>,
    pub depth: Option<Binding<'a>>,
}

/// What `Bound` stands for.
pub struct Places<'a> {
    pub words: Seq<u32>,
    pub cursor: int,
    pub target: Binding<'a>,
    pub source: Option<Binding<'a>>,
    pub texture: Option<Binding<'a>>,
    pub index: Option<Binding<'a>>,
    pub depth: Option<Binding<'a>>,
}

impl<'a> View for Bound<'a> {
    type V = Places<'a>;

    open spec fn view(&self) -> Places<'a> {
        Places {
            words: self.words@,
            cursor: self.cursor as int,
            target: self.target,
            source: self.source,
            texture: self.texture,
            index: self.index,
            depth: self.depth,
        }
    }
}

/// Words `field` and `field + 1` hold the address of the object, low word first.
pub open spec fn patched(w: Seq<u32>, field: int, b: Option<Binding>) -> Seq<u32> {
    match b {
        None => w,
        Some(b) => w.update(field, b.address() as u32).update(
            field + 1,
            (b.address() >> 32) as u32,
        ),
    }
}

pub open spec fn used(b: Option<Binding>) -> int {
    if b is Some {
        1
    } else {
        0
    }
}

/// One place of an operation: an object where it is present, and a zero address
/// where it is not.
pub open spec fn place_spec<'a>(
    s: Submit,
    attached: Map<u64, Memory>,
    w: Seq<u32>,
    cursor: int,
    base: int,
    field: int,
    access: Access,
    present: bool,
) -> Result<Option<Binding<'a>>, &'static str> {
    if present {
        match resolve_spec(s, attached, cursor, base + field, access) {
            Ok(b) => Ok(Some(b)),
            Err(e) => Err(e),
        }
    } else if w[field] != 0 || w[field + 1] != 0 {
        Err("unused address nonzero")
    } else {
        Ok(None)
    }
}

fn place<'a>(
    s: &Submit,
    attached: &'a BTreeMap<u64, Memory>,
    w: &mut [u32; 96],
    cursor: &mut usize,
    base: usize,
    field: usize,
    access: Access,
    present: bool,
) -> (r: Result<Option<Binding<'a>>, &'static str>)
    requires
        forall|t: u64| #[trigger] attached@.dom().contains(t) ==> attached@[t].wf(),
        field + 1 < 96,
        base + 96 <= usize::MAX,
        *old(cursor) <= s.relocations@.len(),
    ensures
        r == place_spec(
            *s,
            attached@,
            old(w)@,
            *old(cursor) as int,
            base as int,
            field as int,
            access,
            present,
        ),
        r matches Ok(b) ==> final(w)@ == patched(old(w)@, field as int, b) && *final(cursor) == *old(
            cursor,
        ) + used(b) && (b matches Some(x) ==> x.wf()),
        *final(cursor) <= s.relocations@.len(),
{
    if !present {
        if w[field] != 0 || w[field + 1] != 0 {
            return Err("unused address nonzero");
        }
        return Ok(None);
    }
    let b = match resolve(s, attached, *cursor, base + field, access) {
        Err(e) => {
            return Err(e);
        },
        Ok(b) => b,
    };
    let address: u64 = b.memory.va + b.offset;
    w[field] = address as u32;
    w[field + 1] = (address >> 32) as u32;
    assert(*cursor < s.relocations.len());
    *cursor += 1;
    Ok(Some(b))
}

pub open spec fn has_depth(w: Seq<u32>) -> bool {
    w[0] == 2 && w[60] != 0
}

/// The objects of the operation `w` at stream word `base`, taken in order from
/// relocation `cursor` on.
#[verifier::opaque]
pub open spec fn bind_spec<'a>(
    s: Submit,
    attached: Map<u64, Memory>,
    w: Seq<u32>,
    cursor: int,
    base: int,
) -> Result<Places<'a>, &'static str> {
    let op = w[0];
    if op < 1 || op > 4 {
        Err("canonical opcode unsupported")
    } else {
        let target_access = if op == 2 {
            read_write()
        } else {
            write_only()
        };
        match place_spec(s, attached, w, cursor, base, 2, target_access, true) {
            Err(e) => Err(e),
            Ok(target) => {
                let w = patched(w, 2, target);
                let places = Places {
                    words: w,
                    cursor: cursor + 1,
                    target: target->Some_0,
                    source: None,
                    texture: None,
                    index: None,
                    depth: None,
                };
                if op == 1 || op == 4 {
                    Ok(places)
                } else {
                    match place_spec(s, attached, w, cursor + 1, base, 4, read_only(), true) {
                        Err(e) => Err(e),
                        Ok(source) => {
                            let w = patched(w, 4, source);
                            let places = Places { words: w, cursor: cursor + 2, source, ..places };
                            if op == 3 {
                                Ok(places)
                            } else {
                                bind_draw_spec(s, attached, places, base)
                            }
                        },
                    }
                }
            },
        }
    }
}

/// The remaining objects of a draw: texture, indices and depth surface.
pub open spec fn bind_draw_spec<'a>(
    s: Submit,
    attached: Map<u64, Memory>,
    places: Places<'a>,
    base: int,
) -> Result<Places<'a>, &'static str> {
    let w = places.words;
    match place_spec(s, attached, w, places.cursor, base, 6, read_only(), w[29] != 0) {
        Err(e) => Err(e),
        Ok(texture) => {
            let w = patched(w, 6, texture);
            let c = places.cursor + used(texture);
            match place_spec(s, attached, w, c, base, 8, read_only(), w[26] != 0) {
                Err(e) => Err(e),
                Ok(index) => {
                    let w = patched(w, 8, index);
                    let c = c + used(index);
                    let access = if w[61] != 0 {
                        read_write()
                    } else {
                        read_only()
                    };
                    match place_spec(s, attached, w, c, base, 54, access, has_depth(w)) {
                        Err(e) => Err(e),
                        Ok(depth) => Ok(
                            Places {
                                words: patched(w, 54, depth),
                                cursor: c + used(depth),
                                texture,
                                index,
                                depth,
                                ..places
                            },
                        ),
                    }
                },
            }
        },
    }
}

impl<'a> Places<'a> {
    pub open spec fn wf(self) -> bool {
        &&& self.words.len() == 96
        &&& self.target.wf()
        &&& self.source matches Some(b) ==> b.wf()
        &&& self.texture matches Some(b) ==> b.wf()
        &&& self.index matches Some(b) ==> b.wf()
        &&& self.depth matches Some(b) ==> b.wf()
    }
}

fn bind<'a>(
    s: &Submit,
    attached: &'a BTreeMap<u64, Memory>,
    w: &[u32; 96],
    cursor: usize,
    base: usize,
) -> (r: Result<Bound<'a>, &'static str>)
    requires
        forall|t: u64| #[trigger] attached@.dom().contains(t) ==> attached@[t].wf(),
        base + 96 <= usize::MAX,
        cursor <= s.relocations@.len(),
    ensures
        match bind_spec(*s, attached@, w@, cursor as int, base as int) {
            Ok(places) => r matches Ok(b) && b@ == places && b@.wf() && b.words@[0] == w@[0] && 1
                <= w@[0] <= 4 && b.cursor <= s.relocations@.len(),
            Err(e) => r matches Err(f) && f == e,
        },
{
    proof {
        reveal(bind_spec);
    }
    let op: u32 = w[0];
    if op < 1 || op > 4 {
        return Err("canonical opcode unsupported");
    }
    let mut words: [u32; 96] = *w;
    let mut cursor: usize = cursor;
    let read = Access { read: true, write: false };
    let both = Access { read: true, write: true };
    let target_access = if op == 2 {
        both
    } else {
        Access { read: false, write: true }
    };
    let target = match place(s, attached, &mut words, &mut cursor, base, 2, target_access, true) {
        Err(e) => {
            return Err(e);
        },
        Ok(target) => target.unwrap(),
    };
    if op == 1 || op == 4 {
        return Ok(
            Bound { words, cursor, target, source: None, texture: None, index: None, depth: None },
        );
    }
    let source = match place(s, attached, &mut words, &mut cursor, base, 4, read, true) {
        Err(e) => {
            return Err(e);
        },
        Ok(source) => source,
    };
    if op == 3 {
        return Ok(Bound { words, cursor, target, source, texture: None, index: None, depth: None });
    }
    let sampled = words[29] != 0;
    let texture = match place(s, attached, &mut words, &mut cursor, base, 6, read, sampled) {
        Err(e) => {
            return Err(e);
        },
        Ok(texture) => texture,
    };
    let indexed = words[26] != 0;
    let index = match place(s, attached, &mut words, &mut cursor, base, 8, read, indexed) {
        Err(e) => {
            return Err(e);
        },
        Ok(index) => index,
    };
    let depth_access = if words[61] != 0 {
        both
    } else {
        read
    };
    let tested = words[0] == 2 && words[60] != 0;
    let depth = match place(s, attached, &mut words, &mut cursor, base, 54, depth_access, tested) {
        Err(e) => {
            return Err(e);
        },
        Ok(depth) => depth,
    };
    Ok(Bound { words, cursor, target, source, texture, index, depth })
}

/// A clear of a color target names no other object, and its color is finite.
pub open spec fn clear_record_ok(w: Seq<u32>) -> bool {
    zero_range(w, 4, 10) && zero_range(w, 17, 32) && zero_range(w, 36, 52) && finite_range(
        w,
        32,
        36,
    )
}

/// A clear of a depth target names no other object, and its value is a depth.
pub open spec fn depth_clear_record_ok(w: Seq<u32>) -> bool {
    zero_range(w, 4, 10) && zero_range(w, 17, 32) && zero_range(w, 33, 52) && unit_interval(w[32])
}

/// A copy moves a rectangle of one size between two objects.
pub open spec fn copy_record_ok(w: Seq<u32>, target: Binding, source: Binding) -> bool {
    target.memory.va != source.memory.va && w[15] == w[19] && w[16] == w[20] && zero_range(w, 6, 10)
        && zero_range(w, 21, 29) && zero_range(w, 32, 52)
}

pub open spec fn draw_record_ok(w: Seq<u32>, p: Pipeline, textured: bool) -> bool {
    &&& variant_samples(p.variant) == textured
    &&& w[23] == p.stride
    &&& w[22] & !0x3fu32 == 0
    &&& (w[22] >> 2) & 3 != 3
    &&& w[25] != 0
    &&& w[25] % 3 == 0
    &&& w[26] <= 2
    &&& finite_range(w, 32, 52)
}

/// The scissor rectangle lies in the render area.
pub open spec fn scissor_ok(w: Seq<u32>) -> bool {
    &&& w[13] <= w[17]
    &&& w[14] <= w[18]
    &&& w[17] + w[19] <= w[13] + w[15]
    &&& w[18] + w[20] <= w[14] + w[16]
}

pub open spec fn vertex_binding_ok(w: Seq<u32>, v: Binding) -> bool {
    &&& v.memory.kind is Buffer
    &&& v.offset % 4 == 0
    &&& v.size == w[28]
    &&& v.size >= w[23]
}

/// Where the depth surface of a draw is present it has the size of the color
/// target, and it is another object.
pub open spec fn draw_depth_spec(w: Seq<u32>, target: Binding, depth: Option<Binding>) -> Result<
    (),
    &'static str,
> {
    match depth {
        None => Ok(()),
        Some(d) => if w[52] != 0x40 || w[56] != w[10] || w[57] != w[11] || d.memory.va
            == target.memory.va {
            Err("depth/color target mismatch")
        } else {
            surface_spec(d, w[56], w[57], w[58], w[59], Role::DepthStencil)
        },
    }
}

fn check_draw_depth(w: &[u32; 96], target: &Binding, depth: &Option<Binding>) -> (r: Result<
    (),
    &'static str,
>)
    ensures
        r == draw_depth_spec(w@, *target, *depth),
{
    match depth {
        None => Ok(()),
        Some(d) => {
            if w[52] != 0x40 || w[56] != w[10] || w[57] != w[11] || d.memory.va
                == target.memory.va {
                return Err("depth/color target mismatch");
            }
            surface(d, w[56], w[57], w[58], w[59], Role::DepthStencil)
        },
    }
}

pub open spec fn half_up(n: u32) -> u32 {
    ((n + 1) / 2) as u32
}

/// The words that a draw gets from the video image at `va` that it samples.
pub open spec fn video_words(w: Seq<u32>, va: u64, s: SharedImage) -> Seq<u32> {
    let linear = s.layout.modifier == Modifier::Linear;
    let y = (va + s.layout.luma.offset) as u64;
    let uv = (va + s.layout.chroma.offset) as u64;
    Seq::new(
        96,
        |i: int|
            if i == 6 {
                y as u32
            } else if i == 7 {
                (y >> 32) as u32
            } else if i == 64 {
                1
            } else if i == 65 {
                if linear {
                    s.stored_width
                } else {
                    s.layout.luma.row_pitch
                }
            } else if i == 66 {
                s.stored_height
            } else if i == 67 {
                uv as u32
            } else if i == 68 {
                (uv >> 32) as u32
            } else if i == 69 {
                s.layout.chroma.row_pitch
            } else if i == 70 {
                if linear {
                    half_up(s.stored_width)
                } else {
                    s.layout.chroma.row_pitch / 2
                }
            } else if i == 71 {
                half_up(s.stored_height)
            } else if 72 <= i < 92 {
                s.uniforms@[i - 72]
            } else {
                w[i]
            },
    )
}

fn div_ceil_2(n: u32) -> (r: u32)
    ensures
        r == half_up(n),
{
    n / 2 + n % 2
}

fn video_state(w: &mut [u32; 96], va: u64, s: &SharedImage)
    requires
        va + s.layout.luma.offset <= u64::MAX,
        va + s.layout.chroma.offset <= u64::MAX,
    ensures
        final(w)@ == video_words(old(w)@, va, *s),
{
    let linear = s.layout.modifier == Modifier::Linear;
    let y: u64 = va + s.layout.luma.offset;
    let uv: u64 = va + s.layout.chroma.offset;
    let ghost before = w@;
    w[6] = y as u32;
    w[7] = (y >> 32) as u32;
    w[64] = 1;
    w[65] = if linear {
        s.stored_width
    } else {
        s.layout.luma.row_pitch
    };
    w[66] = s.stored_height;
    w[67] = uv as u32;
    w[68] = (uv >> 32) as u32;
    w[69] = s.layout.chroma.row_pitch;
    w[70] = if linear {
        div_ceil_2(s.stored_width)
    } else {
        s.layout.chroma.row_pitch / 2
    };
    w[71] = div_ceil_2(s.stored_height);
    let mut i: usize = 0;
    while i < 20
        invariant
            i <= 20,
            forall|j: int|
                0 <= j < 72 + i ==> #[trigger] w@[j] == video_words(before, va, *s)[j],
            forall|j: int| 72 + i <= j < 96 ==> #[trigger] w@[j] == before[j],
        decreases 20 - i,
    {
        w[72 + i] = s.uniforms[i];
        i += 1;
    }
    assert(w@ =~= video_words(before, va, *s));
}

/// The words of a draw after its texture was checked.
pub open spec fn draw_texture_spec(
    w: Seq<u32>,
    p: Pipeline,
    target: Binding,
    texture: Option<Binding>,
) -> Result<Seq<u32>, &'static str> {
    match texture {
        None => if zero_range(w, 29, 32) && w[53] == 0 && w[22] & 0x22 == 0 {
            Ok(w)
        } else {
            Err("unused texture state nonzero")
        },
        Some(t) => match surface_spec(t, w[29], w[30], w[31], w[53], Role::Sampled) {
            Err(e) => Err(e),
            Ok(_) => {
                let video = t.memory.kind is SharedImage;
                if video && (!variant_samples_color(p.variant) || w[22] & 0x20 != 0) {
                    Err("NV12 requires an RGB sampling program")
                } else if t.memory.va == target.memory.va {
                    Err("sampled/render target alias forbidden")
                } else if video {
                    Ok(video_words(w, t.memory.va, t.memory.kind->SharedImage_0))
                } else {
                    Ok(w)
                }
            },
        },
    }
}

fn check_draw_texture(
    w: &mut [u32; 96],
    p: &Pipeline,
    target: &Binding,
    texture: &Option<Binding>,
) -> (r: Result<(), &'static str>)
    requires
        texture matches Some(t) ==> t.wf(),
    ensures
        match draw_texture_spec(old(w)@, *p, *target, *texture) {
            Ok(words) => r is Ok && final(w)@ == words,
            Err(e) => r matches Err(f) && f == e,
        },
{
    match texture {
        None => {
            if !all_zero(w, 29, 32) || w[53] != 0 || w[22] & 0x22 != 0 {
                return Err("unused texture state nonzero");
            }
            Ok(())
        },
        Some(t) => {
            if let Err(e) = surface(t, w[29], w[30], w[31], w[53], Role::Sampled) {
                return Err(e);
            }
            if let Kind::SharedImage(s) = &t.memory.kind {
                if !p.variant.samples_color() || w[22] & 0x20 != 0 {
                    return Err("NV12 requires an RGB sampling program");
                }
                video_state(w, t.memory.va, s);
            }
            if t.memory.va == target.memory.va {
                return Err("sampled/render target alias forbidden");
            }
            Ok(())
        },
    }
}

/// The little-endian index of `element` bytes at `at`.
pub open spec fn index_value(bytes: Seq<u8>, at: int, element: int) -> int {
    if element == 2 {
        bytes[at] + 256 * bytes[at + 1]
    } else {
        bytes[at] + 256 * bytes[at + 1] + 65536 * bytes[at + 2] + 16777216 * bytes[at + 3]
    }
}

fn read_index(bytes: &Vec<u8>, at: usize, wide: bool) -> (r: u32)
    requires
        at + (if wide {
            4int
        } else {
            2
        }) <= bytes@.len(),
    ensures
        r == index_value(
            bytes@,
            at as int,
            if wide {
                4
            } else {
                2
            },
        ),
{
    assert(at + 2 <= bytes.len() && (wide ==> at + 4 <= bytes.len()));
    let low: u32 = bytes[at] as u32 + 256 * (bytes[at + 1] as u32);
    if wide {
        low + 65536 * (bytes[at + 2] as u32) + 16777216 * (bytes[at + 3] as u32)
    } else {
        low
    }
}

/// The first snapshot from `from` on that holds bytes `lo..hi` of the object at
/// `va`.
pub open spec fn covering(buffers: Seq<Snapshot>, from: int, va: u64, lo: int, hi: int) -> Option<
    int,
>
    decreases buffers.len() - from,
{
    if from < 0 || from >= buffers.len() {
        None
    } else if buffers[from].covers(va, lo, hi) {
        Some(from)
    } else {
        covering(buffers, from + 1, va, lo, hi)
    }
}

fn find_covering(buffers: &[Snapshot], va: u64, lo: u64, hi: u64) -> (r: Option<usize>)
    ensures
        match covering(buffers@, 0, va, lo as int, hi as int) {
            None => r is None,
            Some(k) => r matches Some(i) && i == k && i < buffers@.len() && buffers@[k].covers(
                va,
                lo as int,
                hi as int,
            ),
        },
{
    let mut i: usize = 0;
    while i < buffers.len()
        invariant
            i <= buffers.len(),
            covering(buffers@, 0, va, lo as int, hi as int) == covering(
                buffers@,
                i as int,
                va,
                lo as int,
                hi as int,
            ),
        decreases buffers.len() - i,
    {
        let b = &buffers[i];
        if b.va == va && b.start <= lo && b.end >= hi {
            return Some(i);
        }
        i += 1;
    }
    None
}

/// Vertex `index + base` ends inside the vertex buffer.
pub open spec fn vertex_inside(index: int, base: u32, stride: u32, size: u64) -> bool {
    (index + base + 1) * stride <= size
}

/// Each of the indices `first..end` at `at` selects a vertex inside the vertex
/// buffer.
pub open spec fn indices_inside(
    bytes: Seq<u8>,
    at: int,
    element: int,
    first: u32,
    end: int,
    base: u32,
    stride: u32,
    size: u64,
) -> bool {
    forall|i: int|
        first <= i < end ==> vertex_inside(
            #[trigger] index_value(bytes, at + i * element, element),
            base,
            stride,
            size,
        )
}

/// Bytes of one index of the given type.
pub open spec fn element_of(index_type: u32) -> int {
    if index_type == 1 {
        2
    } else {
        4
    }
}

/// What the vertex range of a draw is answered.
pub open spec fn draw_vertices_spec(
    w: Seq<u32>,
    vertex: Binding,
    index: Option<Binding>,
    buffers: Seq<Snapshot>,
) -> Result<(), &'static str> {
    if w[26] == 0 {
        if w[27] != 0 || (w[24] + w[25]) * w[23] > vertex.size {
            Err("vertex draw out of range")
        } else {
            Ok(())
        }
    } else {
        match index {
            None => Err("missing index buffer"),
            Some(x) => {
                let element = element_of(w[26]);
                let end = w[24] + w[25];
                if end > u32::MAX {
                    Err("index count overflow")
                } else if x.memory.kind !is Buffer || x.offset as int % element != 0 || end
                    * element > x.size {
                    Err("index binding out of range")
                } else {
                    match covering(
                        buffers,
                        0,
                        x.memory.va,
                        x.offset as int,
                        x.offset + end * element,
                    ) {
                        None => Err("index range missing immutable snapshot"),
                        Some(k) => if indices_inside(
                            buffers[k].bytes@,
                            x.offset - buffers[k].start,
                            element,
                            w[24],
                            end,
                            w[27],
                            w[23],
                            vertex.size,
                        ) {
                            Ok(())
                        } else {
                            Err("index references vertex outside authorized buffer")
                        },
                    }
                }
            },
        }
    }
}

/// Whether `count` elements of `stride` bytes exceed `size` bytes.
fn exceeds(count: u64, stride: u32, size: u64) -> (r: bool)
    ensures
        r == (count * stride > size),
{
    match count.checked_mul(stride as u64) {
        None => true,
        Some(bytes) => bytes > size,
    }
}

fn check_indices(
    bytes: &Vec<u8>,
    at: u64,
    wide: bool,
    first: u32,
    end: u32,
    base: u32,
    stride: u32,
    size: u64,
) -> (r: bool)
    requires
        first <= end,
        at + end * (if wide {
            4int
        } else {
            2
        }) <= bytes@.len(),
    ensures
        r == indices_inside(
            bytes@,
            at as int,
            if wide {
                4
            } else {
                2
            },
            first,
            end as int,
            base,
            stride,
            size,
        ),
{
    let element: u64 = if wide {
        4
    } else {
        2
    };
    assert(at + end * element <= bytes.len());
    let mut i: u32 = first;
    while i < end
        invariant
            first <= i <= end,
            element == (if wide {
                4u64
            } else {
                2
            }),
            at + end * element <= bytes.len(),
            indices_inside(bytes@, at as int, element as int, first, i as int, base, stride, size),
        decreases end - i,
    {
        assert(i * element + element <= end * element) by (nonlinear_arith)
            requires
                i + 1 <= end,
                element == 2 || element == 4,
        ;
        let position: u64 = at + i as u64 * element;
        let value: u32 = read_index(bytes, position as usize, wide);
        assert(value == index_value(bytes@, at + i * element, element as int));
        if exceeds(value as u64 + base as u64 + 1, stride, size) {
            return false;
        }
        i += 1;
    }
    true
}

fn check_draw_vertices(
    w: &[u32; 96],
    vertex: &Binding,
    index: &Option<Binding>,
    buffers: &[Snapshot],
) -> (r: Result<(), &'static str>)
    requires
        forall|k: int| 0 <= k < buffers@.len() ==> (#[trigger] buffers@[k]).wf(),
        index matches Some(x) ==> x.wf(),
    ensures
        r == draw_vertices_spec(w@, *vertex, *index, buffers@),
{
    if w[26] == 0 {
        if w[27] != 0 || exceeds(w[24] as u64 + w[25] as u64, w[23], vertex.size) {
            return Err("vertex draw out of range");
        }
        return Ok(());
    }
    let x = match index {
        None => {
            return Err("missing index buffer");
        },
        Some(x) => x,
    };
    let wide = w[26] != 1;
    let element: u64 = if wide {
        4
    } else {
        2
    };
    let end: u32 = match w[24].checked_add(w[25]) {
        None => {
            return Err("index count overflow");
        },
        Some(end) => end,
    };
    let is_buffer = match &x.memory.kind {
        Kind::Buffer => true,
        _ => false,
    };
    let length: u64 = end as u64 * element;
    if !is_buffer || x.offset % element != 0 || length > x.size {
        return Err("index binding out of range");
    }
    let k: usize = match find_covering(buffers, x.memory.va, x.offset, x.offset + length) {
        None => {
            return Err("index range missing immutable snapshot");
        },
        Some(k) => k,
    };
    let snapshot = &buffers[k];
    assert(snapshot.wf());
    let at: u64 = x.offset - snapshot.start;
    if !check_indices(&snapshot.bytes, at, wide, w[24], end, w[27], w[23], vertex.size) {
        return Err("index references vertex outside authorized buffer");
    }
    Ok(())
}

/// What a draw is answered: its words with the texture state filled in, or why
/// it is refused.
pub open spec fn draw_spec(
    b: Places,
    pipelines: Seq<Pipeline>,
    buffers: Seq<Snapshot>,
) -> Result<Seq<u32>, &'static str> {
    let w = b.words;
    match draw_depth_spec(w, b.target, b.depth) {
        Err(e) => Err(e),
        Ok(_) => match pipeline_of(pipelines, w[21]) {
            None => Err("unknown shader pair"),
            Some(p) => if !draw_record_ok(w, p, b.texture is Some) {
                Err("draw record invalid")
            } else if !inside(w[17], w[18], w[19], w[20], w[10], w[11]) {
                Err("rectangle out of range")
            } else if !scissor_ok(w) {
                Err("scissor exceeds render area")
            } else {
                match b.source {
                    None => Err("missing vertex buffer"),
                    Some(vertex) => if !vertex_binding_ok(w, vertex) {
                        Err("vertex binding invalid")
                    } else {
                        match draw_texture_spec(w, p, b.target, b.texture) {
                            Err(e) => Err(e),
                            Ok(words) => match draw_vertices_spec(words, vertex, b.index, buffers) {
                                Err(e) => Err(e),
                                Ok(_) => Ok(words),
                            },
                        }
                    },
                }
            },
        },
    }
}

fn check_draw<'a>(b: Bound<'a>, pipelines: &[Pipeline], buffers: &[Snapshot]) -> (r: Result<
    [u32; 96],
    &'static str,
>)
    requires
        b@.wf(),
        inside(b.words@[13], b.words@[14], b.words@[15], b.words@[16], b.words@[10], b.words@[11]),
        forall|k: int| 0 <= k < buffers@.len() ==> (#[trigger] buffers@[k]).wf(),
    ensures
        match draw_spec(b@, pipelines@, buffers@) {
            Ok(words) => r matches Ok(out) && out@ == words,
            Err(e) => r matches Err(f) && f == e,
        },
{
    let mut w: [u32; 96] = b.words;
    if let Err(e) = check_draw_depth(&w, &b.target, &b.depth) {
        return Err(e);
    }
    let p = match find_pipeline(pipelines, w[21]) {
        None => {
            return Err("unknown shader pair");
        },
        Some(p) => p,
    };
    if p.variant.samples() != b.texture.is_some() || w[23] != p.stride || w[22] & !0x3fu32 != 0 || (
    w[22] >> 2) & 3 == 3 || w[25] == 0 || w[25] % 3 != 0 || w[26] > 2 || !all_finite(&w, 32, 52) {
        return Err("draw record invalid");
    }
    if let Err(e) = rectangle(w[17], w[18], w[19], w[20], w[10], w[11]) {
        return Err(e);
    }
    if w[17] < w[13] || w[18] < w[14] || w[17] + w[19] > w[13] + w[15] || w[18] + w[20] > w[14]
        + w[16] {
        return Err("scissor exceeds render area");
    }
    let vertex = match b.source {
        None => {
            return Err("missing vertex buffer");
        },
        Some(vertex) => vertex,
    };
    let is_buffer = match &vertex.memory.kind {
        Kind::Buffer => true,
        _ => false,
    };
    if !is_buffer || vertex.offset % 4 != 0 || vertex.size != w[28] as u64 || vertex.size
        < w[23] as u64 {
        return Err("vertex binding invalid");
    }
    if let Err(e) = check_draw_texture(&mut w, &p, &b.target, &b.texture) {
        return Err(e);
    }
    if let Err(e) = check_draw_vertices(&w, &vertex, &b.index, buffers) {
        return Err(e);
    }
    Ok(w)
}

/// The 64 stream words from `base` on, followed by zeros.
pub open spec fn expanded(commands: Seq<u32>, base: int) -> Seq<u32> {
    Seq::new(
        96,
        |i: int|
            if i < 64 {
                commands[base + i]
            } else {
                0
            },
    )
}

fn expand(commands: &Vec<u32>, base: usize) -> (w: [u32; 96])
    requires
        base + 64 <= commands@.len(),
    ensures
        w@ == expanded(commands@, base as int),
{
    assert(base + 64 <= commands.len());
    let mut w: [u32; 96] = [0; 96];
    let mut i: usize = 0;
    while i < 64
        invariant
            i <= 64,
            base + 64 <= commands.len(),
            forall|j: int| 0 <= j < i ==> #[trigger] w@[j] == commands@[base + j],
            forall|j: int| i <= j < 96 ==> #[trigger] w@[j] == 0,
        decreases 64 - i,
    {
        w[i] = commands[base + i];
        i += 1;
    }
    assert(w@ =~= expanded(commands@, base as int));
    w
}

/// Words without a meaning for the operation are zero, and the depth state is in
/// range.
pub open spec fn reserved_ok(w: Seq<u32>) -> bool {
    &&& w[1] == 0
    &&& zero_range(w, 62, 64)
    &&& has_depth(w) || zero_range(w, 54, 62)
    &&& w[0] == 1 || w[0] == 4 ==> w[53] == 0
    &&& w[60] <= 8
    &&& w[61] <= 1
}

/// How an operation uses its target.
pub open spec fn target_role(op: u32) -> Role {
    if op == 4 {
        Role::DepthStencil
    } else if op == 3 {
        Role::TransferDst
    } else {
        Role::RenderTarget
    }
}

/// What one bound operation is answered.
#[verifier::opaque]
pub open spec fn record_spec(
    b: Places,
    pipelines: Seq<Pipeline>,
    buffers: Seq<Snapshot>,
) -> Result<Seq<u32>, &'static str> {
    let w = b.words;
    match surface_spec(b.target, w[10], w[11], w[12], w[52], target_role(w[0])) {
        Err(e) => Err(e),
        Ok(_) => if !inside(w[13], w[14], w[15], w[16], w[10], w[11]) {
            Err("rectangle out of range")
        } else if w[0] == 4 {
            if depth_clear_record_ok(w) {
                Ok(w)
            } else {
                Err("depth clear record invalid")
            }
        } else if w[0] == 1 {
            if clear_record_ok(w) {
                Ok(w)
            } else {
                Err("clear record invalid")
            }
        } else if w[0] == 2 {
            draw_spec(b, pipelines, buffers)
        } else {
            match b.source {
                None => Err("copy source missing"),
                Some(source) => match surface_spec(
                    source,
                    w[29],
                    w[30],
                    w[31],
                    w[53],
                    Role::TransferSrc,
                ) {
                    Err(e) => Err(e),
                    Ok(_) => if !inside(w[17], w[18], w[19], w[20], w[29], w[30]) {
                        Err("rectangle out of range")
                    } else if copy_record_ok(w, b.target, source) {
                        Ok(w)
                    } else {
                        Err("copy record invalid")
                    },
                },
            }
        },
    }
}

fn check_record<'a>(b: Bound<'a>, pipelines: &[Pipeline], buffers: &[Snapshot]) -> (r: Result<
    [u32; 96],
    &'static str,
>)
    requires
        b@.wf(),
        1 <= b.words@[0] <= 4,
        forall|k: int| 0 <= k < buffers@.len() ==> (#[trigger] buffers@[k]).wf(),
    ensures
        match record_spec(b@, pipelines@, buffers@) {
            Ok(words) => r matches Ok(out) && out@ == words,
            Err(e) => r matches Err(f) && f == e,
        },
{
    proof {
        reveal(record_spec);
    }
    let w: [u32; 96] = b.words;
    let role = if w[0] == 4 {
        Role::DepthStencil
    } else if w[0] == 3 {
        Role::TransferDst
    } else {
        Role::RenderTarget
    };
    if let Err(e) = surface(&b.target, w[10], w[11], w[12], w[52], role) {
        return Err(e);
    }
    if let Err(e) = rectangle(w[13], w[14], w[15], w[16], w[10], w[11]) {
        return Err(e);
    }
    if w[0] == 4 {
        if !all_zero(&w, 4, 10) || !all_zero(&w, 17, 32) || !all_zero(&w, 33, 52) || !(w[32]
            <= 0x3f80_0000 || w[32] == 0x8000_0000) {
            return Err("depth clear record invalid");
        }
        return Ok(w);
    }
    if w[0] == 1 {
        if !all_zero(&w, 4, 10) || !all_zero(&w, 17, 32) || !all_zero(&w, 36, 52) || !all_finite(
            &w,
            32,
            36,
        ) {
            return Err("clear record invalid");
        }
        return Ok(w);
    }
    if w[0] == 2 {
        return check_draw(b, pipelines, buffers);
    }
    let source = match b.source {
        None => {
            return Err("copy source missing");
        },
        Some(source) => source,
    };
    if let Err(e) = surface(&source, w[29], w[30], w[31], w[53], Role::TransferSrc) {
        return Err(e);
    }
    if let Err(e) = rectangle(w[17], w[18], w[19], w[20], w[29], w[30]) {
        return Err(e);
    }
    if b.target.memory.va == source.memory.va || w[15] != w[19] || w[16] != w[20] || !all_zero(
        &w,
        6,
        10,
    ) || !all_zero(&w, 21, 29) || !all_zero(&w, 32, 52) {
        return Err("copy record invalid");
    }
    Ok(w)
}

/// The checked words of operation `k`, and the relocations used after it, where
/// `cursor` of them were used before.
pub open spec fn operation_spec(
    s: Submit,
    attached: Map<u64, Memory>,
    pipelines: Seq<Pipeline>,
    buffers: Seq<Snapshot>,
    k: int,
    cursor: int,
) -> Result<(Seq<u32>, int), &'static str> {
    let w = expanded(s.commands@, 64 * k);
    if !reserved_ok(w) {
        Err("canonical reserved words nonzero")
    } else {
        match bind_spec(s, attached, w, cursor, 64 * k) {
            Err(e) => Err(e),
            Ok(b) => match record_spec(b, pipelines, buffers) {
                Err(e) => Err(e),
                Ok(words) => Ok((words, b.cursor)),
            },
        }
    }
}

/// The first `k` operations of the stream, in order, up to the first refusal.
pub open spec fn operations_spec(
    s: Submit,
    attached: Map<u64, Memory>,
    pipelines: Seq<Pipeline>,
    buffers: Seq<Snapshot>,
    k: nat,
) -> Result<(Seq<Seq<u32>>, int), &'static str>
    decreases k,
{
    if k == 0 {
        Ok((Seq::empty(), 0))
    } else {
        match operations_spec(s, attached, pipelines, buffers, (k - 1) as nat) {
            Err(e) => Err(e),
            Ok((done, cursor)) => match operation_spec(
                s,
                attached,
                pipelines,
                buffers,
                k - 1,
                cursor,
            ) {
                Err(e) => Err(e),
                Ok((words, cursor)) => Ok((done.push(words), cursor)),
            },
        }
    }
}

/// What a submission is answered: every operation with its addresses filled in,
/// or the first reason to refuse it.
pub open spec fn validate_spec(
    s: Submit,
    attached: Map<u64, Memory>,
    pipelines: Seq<Pipeline>,
    buffers: Seq<Snapshot>,
    max_command_words: usize,
) -> Result<Seq<Seq<u32>>, &'static str> {
    if s.commands@.len() % 64 != 0 || s.commands@.len() > max_command_words {
        Err("canonical operation count invalid")
    } else {
        match operations_spec(s, attached, pipelines, buffers, s.commands@.len() / 64) {
            Err(e) => Err(e),
            Ok((done, cursor)) => if cursor != s.relocations@.len() {
                Err("extra object references rejected")
            } else {
                Ok(done)
            },
        }
    }
}

proof fn lemma_refusal_is_final(
    s: Submit,
    attached: Map<u64, Memory>,
    pipelines: Seq<Pipeline>,
    buffers: Seq<Snapshot>,
    k: nat,
    n: nat,
)
    requires
        k <= n,
        operations_spec(s, attached, pipelines, buffers, k) is Err,
    ensures
        operations_spec(s, attached, pipelines, buffers, n) == operations_spec(
            s,
            attached,
            pipelines,
            buffers,
            k,
        ),
    decreases n,
{
    if k < n {
        lemma_refusal_is_final(s, attached, pipelines, buffers, k, (n - 1) as nat);
    }
}

pub open spec fn words_of(operations: Seq<[u32; 96]>) -> Seq<Seq<u32>> {
    Seq::new(operations.len(), |i: int| operations[i]@)
}

fn check_operation(
    s: &Submit,
    attached: &BTreeMap<u64, Memory>,
    pipelines: &[Pipeline],
    buffers: &[Snapshot],
    k: usize,
    cursor: usize,
) -> (r: Result<([u32; 96], usize), &'static str>)
    requires
        forall|t: u64| #[trigger] attached@.dom().contains(t) ==> attached@[t].wf(),
        forall|k: int| 0 <= k < buffers@.len() ==> (#[trigger] buffers@[k]).wf(),
        64 * k + 64 <= s.commands@.len(),
        s.commands@.len() + 96 <= usize::MAX,
        cursor <= s.relocations@.len(),
    ensures
        match operation_spec(
            *s,
            attached@,
            pipelines@,
            buffers@,
            k as int,
            cursor as int,
        ) {
            Ok((words, cursor)) => r matches Ok(c) && c.0@ == words && c.1 == cursor && c.1
                <= s.relocations@.len(),
            Err(e) => r matches Err(f) && f == e,
        },
{
    let base: usize = 64 * k;
    let w: [u32; 96] = expand(&s.commands, base);
    let depth_used = w[0] == 2 && w[60] != 0;
    if w[1] != 0 || !all_zero(&w, 62, 64) || (!depth_used && !all_zero(&w, 54, 62)) || ((w[0] == 1
        || w[0] == 4) && w[53] != 0) || w[60] > 8 || w[61] > 1 {
        return Err("canonical reserved words nonzero");
    }
    let bound = match bind(s, attached, &w, cursor, base) {
        Err(e) => {
            return Err(e);
        },
        Ok(bound) => bound,
    };
    let used_now: usize = bound.cursor;
    match check_record(bound, pipelines, buffers) {
        Err(e) => Err(e),
        Ok(words) => Ok((words, used_now)),
    }
}

/// Checks a decoded submission. `attached` holds the objects of the context by
/// attachment token, and `buffers` the bytes that were copied when the
/// submission came in.
pub fn validate(
    s: &Submit,
    attached: &BTreeMap<u64, Memory>,
    pipelines: &[Pipeline],
    buffers: &[Snapshot],
    max_command_words: usize,
) -> (r: Result<Vec<[u32; 96]>, &'static str>)
    requires
        forall|t: u64| #[trigger] attached@.dom().contains(t) ==> attached@[t].wf(),
        forall|k: int| 0 <= k < buffers@.len() ==> (#[trigger] buffers@[k]).wf(),
        s.commands@.len() + 96 <= usize::MAX,
    ensures
        match validate_spec(*s, attached@, pipelines@, buffers@, max_command_words) {
            Ok(operations) => r matches Ok(v) && words_of(v@) == operations,
            Err(e) => r matches Err(f) && f == e,
        },
{
    let length: usize = s.commands.len();
    if length % OPERATION_WORDS != 0 || length > max_command_words {
        return Err("canonical operation count invalid");
    }
    let count: usize = length / OPERATION_WORDS;
    let mut operations: Vec<[u32; 96]> = Vec::new();
    let mut cursor: usize = 0;
    let mut k: usize = 0;
    assert(words_of(operations@) =~= Seq::empty());
    while k < count
        invariant
            k <= count,
            length == s.commands@.len(),
            length + 96 <= usize::MAX,
            length == 64 * count,
            length <= max_command_words,
            cursor <= s.relocations@.len(),
            forall|t: u64| #[trigger] attached@.dom().contains(t) ==> attached@[t].wf(),
            forall|k: int| 0 <= k < buffers@.len() ==> (#[trigger] buffers@[k]).wf(),
            operations_spec(*s, attached@, pipelines@, buffers@, k as nat) == Ok::<
                (Seq<Seq<u32>>, int),
                &'static str,
            >((words_of(operations@), cursor as int)),
        decreases count - k,
    {
        let ghost next = operation_spec(
            *s,
            attached@,
            pipelines@,
            buffers@,
            k as int,
            cursor as int,
        );
        proof {
            if next is Err {
                assert(operations_spec(*s, attached@, pipelines@, buffers@, (k + 1) as nat) is Err);
                lemma_refusal_is_final(
                    *s,
                    attached@,
                    pipelines@,
                    buffers@,
                    (k + 1) as nat,
                    count as nat,
                );
            }
        }
        let (words, used_now) = match check_operation(
            s,
            attached,
            pipelines,
            buffers,
            k,
            cursor,
        ) {
            Err(e) => {
                return Err(e);
            },
            Ok(checked) => checked,
        };
        let ghost before = operations@;
        operations.push(words);
        assert(words_of(operations@) =~= words_of(before).push(words@));
        cursor = used_now;
        k += 1;
    }
    if cursor != s.relocations.len() {
        return Err("extra object references rejected");
    }
    Ok(operations)
}

proof fn lemma_operation_accepted(
    s: Submit,
    attached: Map<u64, Memory>,
    pipelines: Seq<Pipeline>,
    buffers: Seq<Snapshot>,
    n: nat,
    k: int,
) -> (cursor: int)
    requires
        operations_spec(s, attached, pipelines, buffers, n) is Ok,
        0 <= k < n,
    ensures
        operations_spec(s, attached, pipelines, buffers, n)->Ok_0.0.len() == n,
        operation_spec(s, attached, pipelines, buffers, k, cursor) matches Ok(o) && o.0
            == operations_spec(s, attached, pipelines, buffers, n)->Ok_0.0[k],
    decreases n,
{
    let before = operations_spec(s, attached, pipelines, buffers, (n - 1) as nat);
    assert(before is Ok);
    if n == 1 {
        0
    } else {
        let c = lemma_operation_accepted(
            s,
            attached,
            pipelines,
            buffers,
            (n - 1) as nat,
            if k < n - 1 {
                k
            } else {
                0
            },
        );
        if k < n - 1 {
            c
        } else {
            before->Ok_0.1
        }
    }
}

/// The 64-bit address in words `field` and `field + 1`.
pub open spec fn address_at(w: Seq<u32>, field: int) -> int {
    w[field] + 0x1_0000_0000 * w[field + 1]
}

proof fn lemma_address_words(a: u64)
    by (bit_vector)
    ensures
        (a as u32) + 0x1_0000_0000 * ((a >> 32) as u32) == a,
{
}

/// Whether the object `b` is one that the context holds.
pub open spec fn is_attached(attached: Map<u64, Memory>, b: Binding) -> bool {
    exists|t: u64| #[trigger] attached.dom().contains(t) && attached[t] == *b.memory
}

/// The places that operation `k` of an accepted submission was bound to.
pub open spec fn bound_to(
    s: Submit,
    attached: Map<u64, Memory>,
    k: int,
    cursor: int,
    places: Places,
) -> bool {
    bind_spec(s, attached, expanded(s.commands@, 64 * k), cursor, 64 * k) == Ok::<
        Places,
        &'static str,
    >(places)
}

/// An object of the context, used inside its bounds, at the address that stands
/// in words `field` and `field + 1`.
pub open spec fn placed(attached: Map<u64, Memory>, w: Seq<u32>, field: int, b: Binding) -> bool {
    is_attached(attached, b) && b.wf() && address_at(w, field) == b.address()
}

proof fn lemma_placed(
    s: Submit,
    attached: Map<u64, Memory>,
    w: Seq<u32>,
    cursor: int,
    base: int,
    field: int,
    access: Access,
    present: bool,
)
    requires
        forall|t: u64| #[trigger] attached.dom().contains(t) ==> attached[t].wf(),
        0 <= field < w.len() - 1,
    ensures
        place_spec(s, attached, w, cursor, base, field, access, present) matches Ok(b) ==> {
            &&& present == b is Some
            &&& b matches Some(x) ==> placed(attached, patched(w, field, b), field, x)
        },
{
    if let Ok(Some(x)) = place_spec(s, attached, w, cursor, base, field, access, present) {
        lemma_address_words(x.address());
        let r = s.relocations@[cursor];
        let resource = s.resources@[r.attachment->Some_0 as int];
        assert(attached.dom().contains(resource.attachment_token));
    }
}

pub open spec fn places_ok(attached: Map<u64, Memory>, b: Places) -> bool {
    &&& b.words.len() == 96
    &&& placed(attached, b.words, 2, b.target)
    &&& b.source matches Some(x) ==> placed(attached, b.words, 4, x)
    &&& b.texture matches Some(x) ==> placed(attached, b.words, 6, x)
    &&& b.index matches Some(x) ==> placed(attached, b.words, 8, x)
    &&& b.depth matches Some(x) ==> placed(attached, b.words, 54, x)
}

proof fn lemma_bind(s: Submit, attached: Map<u64, Memory>, w: Seq<u32>, cursor: int, base: int)
    requires
        forall|t: u64| #[trigger] attached.dom().contains(t) ==> attached[t].wf(),
        w.len() == 96,
    ensures
        bind_spec(s, attached, w, cursor, base) matches Ok(b) ==> places_ok(attached, b)
            && b.words[0] == w[0],
{
    reveal(bind_spec);
    let access = if w[0] == 2 {
        read_write()
    } else {
        write_only()
    };
    let last = if w[61] != 0 {
        read_write()
    } else {
        read_only()
    };
    lemma_placed(s, attached, w, cursor, base, 2, access, true);
    if let Ok(target) = place_spec(s, attached, w, cursor, base, 2, access, true) {
        let w1 = patched(w, 2, target);
        let c = cursor + 1;
        lemma_placed(s, attached, w1, c, base, 4, read_only(), true);
        if let Ok(source) = place_spec(s, attached, w1, c, base, 4, read_only(), true) {
            let w2 = patched(w1, 4, source);
            let c = c + 1;
            let p = w2[29] != 0;
            lemma_placed(s, attached, w2, c, base, 6, read_only(), p);
            if let Ok(texture) = place_spec(s, attached, w2, c, base, 6, read_only(), p) {
                let w3 = patched(w2, 6, texture);
                let c = c + used(texture);
                let p = w3[26] != 0;
                lemma_placed(s, attached, w3, c, base, 8, read_only(), p);
                if let Ok(index) = place_spec(s, attached, w3, c, base, 8, read_only(), p) {
                    let w4 = patched(w3, 8, index);
                    let c = c + used(index);
                    lemma_placed(s, attached, w4, c, base, 54, last, has_depth(w4));
                }
            }
        }
    }
}

/// Checking leaves the words of an operation as they are, but for the texture
/// address and the words after the stream where a video image is sampled.
proof fn lemma_record(b: Places, pipelines: Seq<Pipeline>, buffers: Seq<Snapshot>)
    requires
        b.words.len() == 96,
    ensures
        record_spec(b, pipelines, buffers) matches Ok(w) ==> {
            &&& w.len() == 96
            &&& forall|i: int| 0 <= i < 64 && i != 6 && i != 7 ==> w[i] == #[trigger] b.words[i]
            &&& (b.texture is None || b.texture->Some_0.memory.kind !is SharedImage) ==> w
                == b.words
        },
{
    reveal(record_spec);
}

/// Every object that an accepted operation uses is attached to the context, is
/// used inside its bounds, and is the one whose address stands in the checked
/// words. A sampled video image instead has the addresses of its two planes in
/// the checked words.
pub proof fn accepted_objects_are_attached(
    s: Submit,
    attached: Map<u64, Memory>,
    pipelines: Seq<Pipeline>,
    buffers: Seq<Snapshot>,
    max_command_words: usize,
    k: int,
)
    requires
        forall|t: u64| #[trigger] attached.dom().contains(t) ==> attached[t].wf(),
        validate_spec(s, attached, pipelines, buffers, max_command_words) is Ok,
        0 <= k < s.commands@.len() / 64,
    ensures
        exists|cursor: int, b: Places|
            {
                let w = validate_spec(s, attached, pipelines, buffers, max_command_words)->Ok_0[k];
                &&& #[trigger] bound_to(s, attached, k, cursor, b)
                &&& placed(attached, w, 2, b.target)
                &&& b.source matches Some(x) ==> placed(attached, w, 4, x)
                &&& b.texture matches Some(x) ==> is_attached(attached, x) && x.wf() && (
                x.memory.kind !is SharedImage ==> placed(attached, w, 6, x))
                &&& b.index matches Some(x) ==> placed(attached, w, 8, x)
                &&& b.depth matches Some(x) ==> placed(attached, w, 54, x)
            },
{
    let n = s.commands@.len() / 64;
    let cursor = lemma_operation_accepted(s, attached, pipelines, buffers, n, k);
    let w0 = expanded(s.commands@, 64 * k);
    let b = bind_spec(s, attached, w0, cursor, 64 * k)->Ok_0;
    lemma_bind(s, attached, w0, cursor, 64 * k);
    lemma_record(b, pipelines, buffers);
    assert(bound_to(s, attached, k, cursor, b));
}

/// No accepted draw samples its render target or tests against it, and no
/// accepted copy reads its target.
pub proof fn accepted_operations_do_not_alias(
    s: Submit,
    attached: Map<u64, Memory>,
    pipelines: Seq<Pipeline>,
    buffers: Seq<Snapshot>,
    max_command_words: usize,
    k: int,
)
    requires
        validate_spec(s, attached, pipelines, buffers, max_command_words) is Ok,
        0 <= k < s.commands@.len() / 64,
    ensures
        exists|cursor: int, b: Places|
            {
                let w = validate_spec(s, attached, pipelines, buffers, max_command_words)->Ok_0[k];
                &&& #[trigger] bound_to(s, attached, k, cursor, b)
                &&& b.texture matches Some(x) ==> x.memory.va != b.target.memory.va
                &&& b.depth matches Some(x) ==> x.memory.va != b.target.memory.va
                &&& w[0] == 3 ==> (b.source matches Some(x) && x.memory.va != b.target.memory.va)
            },
{
    let n = s.commands@.len() / 64;
    let cursor = lemma_operation_accepted(s, attached, pipelines, buffers, n, k);
    let b = bind_spec(s, attached, expanded(s.commands@, 64 * k), cursor, 64 * k)->Ok_0;
    reveal(record_spec);
    reveal(bind_spec);
    assert(bound_to(s, attached, k, cursor, b));
}

/// An accepted draw without indices reads vertices of its vertex buffer only.
/// One with indices finds every index in a snapshot, and each of them selects a
/// vertex of the buffer. Word 28 is the size of that buffer.
pub proof fn accepted_draws_stay_in_the_vertex_buffer(
    s: Submit,
    attached: Map<u64, Memory>,
    pipelines: Seq<Pipeline>,
    buffers: Seq<Snapshot>,
    max_command_words: usize,
    k: int,
)
    requires
        validate_spec(s, attached, pipelines, buffers, max_command_words) is Ok,
        0 <= k < s.commands@.len() / 64,
        validate_spec(s, attached, pipelines, buffers, max_command_words)->Ok_0[k][0] == 2,
    ensures
        ({
            let w = validate_spec(s, attached, pipelines, buffers, max_command_words)->Ok_0[k];
            if w[26] == 0 {
                w[27] == 0 && (w[24] + w[25]) * w[23] <= w[28]
            } else {
                exists|j: int, at: int|
                    0 <= j < buffers.len() && #[trigger] indices_inside(
                        buffers[j].bytes@,
                        at,
                        element_of(w[26]),
                        w[24],
                        w[24] + w[25],
                        w[27],
                        w[23],
                        w[28] as u64,
                    )
            }
        }),
{
    let n = s.commands@.len() / 64;
    let cursor = lemma_operation_accepted(s, attached, pipelines, buffers, n, k);
    let w = validate_spec(s, attached, pipelines, buffers, max_command_words)->Ok_0[k];
    let b = bind_spec(s, attached, expanded(s.commands@, 64 * k), cursor, 64 * k)->Ok_0;
    let vertex = b.source->Some_0;
    reveal(record_spec);
    reveal(bind_spec);
    assert(draw_spec(b, pipelines, buffers) == Ok::<Seq<u32>, &'static str>(w));
    assert(vertex.size == w[28]);
    if w[26] != 0 {
        let x = b.index->Some_0;
        let element = element_of(w[26]);
        let j = covering(
            buffers,
            0,
            x.memory.va,
            x.offset as int,
            x.offset + (w[24] + w[25]) * element,
        );
        lemma_covering_index(
            buffers,
            0,
            x.memory.va,
            x.offset as int,
            x.offset + (w[24] + w[25]) * element,
        );
        assert(indices_inside(
            buffers[j->Some_0].bytes@,
            x.offset - buffers[j->Some_0].start,
            element,
            w[24],
            w[24] + w[25],
            w[27],
            w[23],
            w[28] as u64,
        ));
    }
}

proof fn lemma_covering_index(buffers: Seq<Snapshot>, from: int, va: u64, lo: int, hi: int)
    requires
        0 <= from,
    ensures
        covering(buffers, from, va, lo, hi) matches Some(k) ==> from <= k < buffers.len()
            && buffers[k].covers(va, lo, hi),
    decreases buffers.len() - from,
{
    if from < buffers.len() && !buffers[from].covers(va, lo, hi) {
        lemma_covering_index(buffers, from + 1, va, lo, hi);
    }
}

/// A pipeline that is found is one of the table.
proof fn lemma_pipeline_of(table: Seq<Pipeline>, raw: u32)
    ensures
        pipeline_of(table, raw) matches Some(p) ==> exists|i: int|
            0 <= i < table.len() && #[trigger] table[i] == p,
    decreases table.len(),
{
    if table.len() > 0 && table[0].raw != raw {
        lemma_pipeline_of(table.drop_first(), raw);
        if let Some(p) = pipeline_of(table.drop_first(), raw) {
            let i = choose|i: int|
                0 <= i < table.drop_first().len() && #[trigger] table.drop_first()[i] == p;
            assert(table[i + 1] == p);
        }
    }
}

proof fn lemma_joined(low: u32, high: u32)
    ensures
        graphics::words_to_address(low, high) == low + 0x1_0000_0000 * high,
{
    assert(((high as u64) << 32) | low as u64 == low as u64 + 0x1_0000_0000 * (high as u64))
        by (bit_vector);
}

/// Whether every image has rows.
pub open spec fn has_rows(m: Memory) -> bool {
    match m.kind {
        Kind::Buffer => true,
        Kind::Image(i) => i.create.height != 0,
        Kind::SharedImage(i) => i.create.height != 0,
    }
}

/// Every accepted draw can be encoded: none of the sums that its commands need leaves
/// its word.
pub proof fn accepted_draws_can_be_encoded(
    s: Submit,
    attached: Map<u64, Memory>,
    pipelines: Seq<Pipeline>,
    buffers: Seq<Snapshot>,
    max_command_words: usize,
    k: int,
)
    requires
        forall|t: u64| #[trigger]
            attached.dom().contains(t) ==> attached[t].wf() && has_rows(attached[t]),
        forall|i: int| 0 <= i < pipelines.len() ==> (#[trigger] pipelines[i]).stride != 0,
        validate_spec(s, attached, pipelines, buffers, max_command_words) is Ok,
        0 <= k < s.commands@.len() / 64,
        validate_spec(s, attached, pipelines, buffers, max_command_words)->Ok_0[k][0] == 2,
    ensures
        graphics::drawable(
            validate_spec(s, attached, pipelines, buffers, max_command_words)->Ok_0[k].take(64),
        ),
{
    let n = s.commands@.len() / 64;
    let cursor = lemma_operation_accepted(s, attached, pipelines, buffers, n, k);
    let w = validate_spec(s, attached, pipelines, buffers, max_command_words)->Ok_0[k];
    let w0 = expanded(s.commands@, 64 * k);
    let b = bind_spec(s, attached, w0, cursor, 64 * k)->Ok_0;
    lemma_bind(s, attached, w0, cursor, 64 * k);
    lemma_record(b, pipelines, buffers);
    reveal(record_spec);
    reveal(bind_spec);
    assert(draw_spec(b, pipelines, buffers) == Ok::<Seq<u32>, &'static str>(w));
    let vertex = b.source->Some_0;
    assert(placed(attached, w, 4, vertex));
    lemma_joined(w[4], w[5]);
    lemma_joined(w[8], w[9]);
    let p = pipeline_of(pipelines, w[21])->Some_0;
    lemma_pipeline_of(pipelines, w[21]);
    assert(vertex.size >= 1);
    if w[26] != 0 {
        let x = b.index->Some_0;
        assert(placed(attached, w, 8, x));
        let count = w[24] + w[25];
        let element = element_of(w[26]);
        assert(1 <= count * element) by (nonlinear_arith)
            requires
                1 <= count,
                2 <= element,
        ;
    }
    if w[29] != 0 {
        let x = b.texture->Some_0;
        assert(is_attached(attached, x));
        assert(has_rows(*x.memory));
    }
    let stream = w.take(64);
    assert(forall|i: int| 0 <= i < 64 ==> stream[i] == w[i]);
    assert(inside(w[17], w[18], w[19], w[20], w[10], w[11]));
}

/// A rectangle with a corner, a width and a height in four words from `at` on lies in a
/// surface of a width and a height.
pub open spec fn lies_in(w: Seq<u32>, at: int, width: int, height: int) -> bool {
    &&& 0 < w[at + 2] && 0 < w[at + 3]
    &&& w[at] + w[at + 2] <= width
    &&& w[at + 1] + w[at + 3] <= height
}

/// The words of an operation stay what was submitted, but for the addresses of its objects;
/// a draw of a video image gets those of its planes as well, behind the others.
pub proof fn accepted_words_are_kept(
    s: Submit,
    attached: Map<u64, Memory>,
    pipelines: Seq<Pipeline>,
    buffers: Seq<Snapshot>,
    k: int,
    cursor: int,
    words: Seq<u32>,
    next: int,
    i: int,
)
    requires
        operation_spec(s, attached, pipelines, buffers, k, cursor) == Ok::<
            (Seq<u32>, int),
            &'static str,
        >((words, next)),
        0 <= i < 96,
    ensures
        words.len() == 96,
        i < 2 || 10 <= i < 54 || 56 <= i < 64 ==> words[i] == s.commands@[64 * k + i],
        words[0] != 2 && i >= 54 ==> (i < 64 ==> words[i] == s.commands@[64 * k + i]) && (i >= 64
            ==> words[i] == 0),
        words[0] != 2 && 6 <= i < 10 ==> words[i] == s.commands@[64 * k + i],
        words[0] != 2 && words[0] != 3 && 4 <= i < 10 ==> words[i] == 0,
        i >= 92 ==> words[i] == 0,
        i >= 64 && words[29] == 0 ==> words[i] == 0,
        words[1] == 0 && words[62] == 0 && words[63] == 0,
{
    let w = expanded(s.commands@, 64 * k);
    let b = bind_spec(s, attached, w, cursor, 64 * k)->Ok_0;
    lemma_bound(s, attached, w, cursor, 64 * k);
    lemma_record(b, pipelines, buffers);
    reveal(record_spec);
    assert(words[0] == w[0]);
    assert(words[i] == b.words[i] || 6 <= i < 8 || i >= 64);
}

/// Finding the objects of an operation changes no word but those of their addresses.
proof fn lemma_bound(s: Submit, attached: Map<u64, Memory>, w: Seq<u32>, cursor: int, base: int)
    requires
        w.len() == 96,
    ensures
        bind_spec(s, attached, w, cursor, base) matches Ok(b) ==> {
            &&& b.words.len() == 96
            &&& 1 <= w[0] <= 4
            &&& forall|i: int|
                0 <= i < 2 || 10 <= i < 54 || 56 <= i < 96 ==> #[trigger] b.words[i] == w[i]
            &&& w[0] != 2 ==> forall|i: int| 6 <= i < 96 ==> #[trigger] b.words[i] == w[i]
            &&& w[0] != 2 && w[0] != 3 ==> forall|i: int| 4 <= i < 96 ==> #[trigger] b.words[i] == w[i]
            &&& w[29] == 0 ==> b.texture is None
            &&& w[0] != 2 ==> b.texture is None
        },
{
    reveal(bind_spec);
}

/// Each object of an operation takes one reference, in this order: the target, what is read
/// from, the texture, the indices, the depth surface. A clear has the first alone and a copy
/// the first two.
pub proof fn references_are_taken_in_order(
    s: Submit,
    attached: Map<u64, Memory>,
    k: int,
    cursor: int,
    b: Places,
)
    requires
        bound_to(s, attached, k, cursor, b),
    ensures
        ({
            let w = expanded(s.commands@, 64 * k);
            let textured = if b.texture is Some {
                1int
            } else {
                0
            };
            let indexed = if b.index is Some {
                1int
            } else {
                0
            };
            let deep = if b.depth is Some {
                1int
            } else {
                0
            };
            &&& 1 <= w[0] <= 4
            &&& b.source is Some <==> w[0] == 2 || w[0] == 3
            &&& b.texture is Some <==> w[0] == 2 && w[29] != 0
            &&& b.index is Some <==> w[0] == 2 && w[26] != 0
            &&& b.depth is Some <==> w[0] == 2 && w[60] != 0
            &&& b.cursor == cursor + 1 + (if b.source is Some {
                1int
            } else {
                0
            }) + textured + indexed + deep
            &&& refers(s, attached, cursor, 64 * k + 2, w[0] == 2, true, b.target)
            &&& b.source matches Some(x) ==> refers(
                s,
                attached,
                cursor + 1,
                64 * k + 4,
                true,
                false,
                x,
            )
            &&& b.texture matches Some(x) ==> refers(
                s,
                attached,
                cursor + 2,
                64 * k + 6,
                true,
                false,
                x,
            )
            &&& b.index matches Some(x) ==> refers(
                s,
                attached,
                cursor + 2 + textured,
                64 * k + 8,
                true,
                false,
                x,
            )
            &&& b.depth matches Some(x) ==> refers(
                s,
                attached,
                cursor + 2 + textured + indexed,
                64 * k + 54,
                true,
                w[61] != 0,
                x,
            )
        }),
{
    reveal(bind_spec);
    let w = expanded(s.commands@, 64 * k);
    assert(w.len() == 96);
}

/// Reference `at` names the object for the place at a word, and says how it is used.
pub open spec fn refers(
    s: Submit,
    attached: Map<u64, Memory>,
    at: int,
    word: int,
    read: bool,
    write: bool,
    b: Binding,
) -> bool {
    &&& 0 <= at < s.relocations@.len() || at < 0
    &&& s.relocations@[at].commands_word_offset == word
    &&& s.relocations@[at].gpu_va64
    &&& s.relocations@[at].access.read == read
    &&& s.relocations@[at].access.write == write
    &&& s.relocations@[at].attachment matches Some(index) && index < s.resources@.len() && {
        let resource = s.resources@[index as int];
        &&& attached.dom().contains(resource.attachment_token)
        &&& *b.memory == attached[resource.attachment_token]
        &&& b.offset == resource.range_offset + s.relocations@[at].resource_offset
        &&& b.size == s.relocations@[at].required_size
        &&& b.offset + b.size <= b.memory.size
    }
}

/// The image behind a surface is one of the stated size and stride, used from its start on
/// and wholly, and made for that use. Colors are blue, green, red and alpha in bytes; depths
/// are singles in tiles.
pub proof fn surfaces_are_what_they_are_said_to_be(
    b: Binding,
    width: u32,
    height: u32,
    pitch: u32,
    tile_mode: u32,
    role: Role,
)
    ensures
        surface_spec(b, width, height, pitch, tile_mode, role) is Ok <==> (match b.memory.kind {
            Kind::Buffer => false,
            Kind::Image(i) => {
                &&& i.create.width == width && i.create.height == height
                &&& i.layout.luma.row_pitch == pitch
                &&& b.offset == i.layout.luma.offset && i.layout.luma.size <= b.size
                &&& i.create.usage.allows(role)
                &&& !(i.layout.modifier is Other)
                &&& tile_mode == 0 || tile_mode == 0x40
                &&& tile_mode == 0 <==> i.layout.modifier == Modifier::Linear
                &&& if role == Role::DepthStencil {
                    i.create.format == Format::Depth32Float && tile_mode == 0x40
                        && i.layout.modifier == Modifier::ZetaBlockLinear
                } else {
                    i.create.format == Format::Bgra8Unorm
                }
            },
            Kind::SharedImage(i) => {
                &&& role == Role::Sampled
                &&& i.create.width == width && i.create.height == height
                &&& i.layout.luma.row_pitch == pitch
                &&& b.offset == 0 && i.layout.total_size <= b.size
                &&& tile_mode == 0 || tile_mode == 0x10
                &&& tile_mode == 0 <==> i.layout.modifier == Modifier::Linear
            },
        }),
{
}

/// A clear is accepted if and only if its target is a surface for it, its rectangle lies in
/// the target, its color is finite or its depth lies between zero and one, and nothing else
/// is said. It is then kept as it is.
pub proof fn clears_are_accepted(b: Places, pipelines: Seq<Pipeline>, buffers: Seq<Snapshot>)
    requires
        b.words.len() == 96,
        b.words[0] == 1 || b.words[0] == 4,
    ensures
        ({
            let w = b.words;
            let r = record_spec(b, pipelines, buffers);
            &&& r is Ok ==> r == Ok::<Seq<u32>, &'static str>(w)
            &&& r is Ok <==> {
                &&& surface_spec(
                    b.target,
                    w[10],
                    w[11],
                    w[12],
                    w[52],
                    if w[0] == 1 {
                        Role::RenderTarget
                    } else {
                        Role::DepthStencil
                    },
                ) is Ok
                &&& lies_in(w, 13, w[10] as int, w[11] as int)
                &&& w[0] == 1 ==> forall|i: int|
                    32 <= i < 36 ==> (#[trigger] w[i]) & 0x7f80_0000 != 0x7f80_0000
                &&& w[0] == 4 ==> (w[32] <= 0x3f80_0000 || w[32] == 0x8000_0000) && w[33] == 0
                    && w[34] == 0 && w[35] == 0
                &&& forall|i: int|
                    4 <= i < 10 || 17 <= i < 32 || 36 <= i < 52 ==> (#[trigger] w[i]) == 0
            }
        }),
{
    reveal(record_spec);
    let w = b.words;
    assert(finite_range(w, 32, 36) <==> forall|i: int|
        32 <= i < 36 ==> (#[trigger] w[i]) & 0x7f80_0000 != 0x7f80_0000);
}

/// A copy is accepted if and only if both surfaces are for it, they are different objects,
/// both rectangles lie in theirs and have one size, and nothing else is said.
pub proof fn copies_are_accepted(b: Places, pipelines: Seq<Pipeline>, buffers: Seq<Snapshot>)
    requires
        b.words.len() == 96,
        b.words[0] == 3,
        b.source is Some,
    ensures
        ({
            let w = b.words;
            let r = record_spec(b, pipelines, buffers);
            &&& r is Ok ==> r == Ok::<Seq<u32>, &'static str>(w)
            &&& r is Ok <==> {
                &&& surface_spec(b.target, w[10], w[11], w[12], w[52], Role::TransferDst) is Ok
                &&& surface_spec(b.source->0, w[29], w[30], w[31], w[53], Role::TransferSrc) is Ok
                &&& b.target.memory.va != b.source->0.memory.va
                &&& lies_in(w, 13, w[10] as int, w[11] as int)
                &&& lies_in(w, 17, w[29] as int, w[30] as int)
                &&& w[15] == w[19] && w[16] == w[20]
                &&& forall|i: int|
                    6 <= i < 10 || 21 <= i < 29 || 32 <= i < 52 ==> (#[trigger] w[i]) == 0
            }
        }),
{
    reveal(record_spec);
}

/// A draw that was accepted has a target and a depth surface of one size, a shader pair that
/// is known, whole triangles, a scissor inside its render area, and a texture exactly where
/// its shaders sample one.
pub proof fn accepted_draws_make_sense(b: Places, pipelines: Seq<Pipeline>, buffers: Seq<Snapshot>)
    requires
        b.words.len() == 96,
        b.words[0] == 2,
        record_spec(b, pipelines, buffers) is Ok,
    ensures
        ({
            let w = b.words;
            &&& surface_spec(b.target, w[10], w[11], w[12], w[52], Role::RenderTarget) is Ok
            &&& lies_in(w, 13, w[10] as int, w[11] as int)
            &&& lies_in(w, 17, w[10] as int, w[11] as int)
            &&& w[13] <= w[17] && w[17] + w[19] <= w[13] + w[15]
            &&& w[14] <= w[18] && w[18] + w[20] <= w[14] + w[16]
            &&& 0 < w[25] && w[25] % 3 == 0
            &&& w[26] == 0 || w[26] == 1 || w[26] == 2
            &&& forall|i: int| 32 <= i < 52 ==> (#[trigger] w[i]) & 0x7f80_0000 != 0x7f80_0000
            &&& b.source matches Some(v) && v.memory.kind is Buffer && v.offset % 4 == 0 && v.size
                == w[28] && w[23] <= v.size
            &&& b.depth matches Some(d) ==> {
                &&& w[52] == 0x40
                &&& w[56] == w[10] && w[57] == w[11]
                &&& surface_spec(d, w[10], w[11], w[58], w[59], Role::DepthStencil) is Ok
                &&& d.memory.va != b.target.memory.va
            }
            &&& b.texture matches Some(t) ==> {
                &&& surface_spec(t, w[29], w[30], w[31], w[53], Role::Sampled) is Ok
                &&& t.memory.va != b.target.memory.va
                &&& t.memory.kind is SharedImage ==> w[22] & 0x20 == 0
            }
            &&& b.texture is None ==> w[29] == 0 && w[30] == 0 && w[31] == 0 && w[53] == 0 && w[22]
                & 0x22 == 0
            &&& pipeline_of(pipelines, w[21]) matches Some(p) && p.stride == w[23] && p.raw == w[21]
                && (b.texture is Some <==> match p.variant {
                Variant::Stride16TextureRgba
                | Variant::Stride16TextureAlphaMask
                | Variant::Stride40TextureVertexColorRgba
                | Variant::Stride24TextureRgba
                | Variant::Stride24TextureRgbIgnoreAlpha
                | Variant::Stride24TextureAlphaMask => true,
                _ => false,
            })
        }),
{
    reveal(record_spec);
    lemma_pipeline(pipelines, b.words[21]);
    let w = b.words;
    assert(finite_range(w, 32, 52));
    assert forall|i: int| 32 <= i < 52 implies (#[trigger] w[i]) & 0x7f80_0000 != 0x7f80_0000 by {
        assert(finite(w[i]));
    }
}

proof fn lemma_pipeline(table: Seq<Pipeline>, raw: u32)
    ensures
        pipeline_of(table, raw) matches Some(p) ==> p.raw == raw && table.contains(p),
        pipeline_of(table, raw) is None ==> forall|i: int|
            0 <= i < table.len() ==> (#[trigger] table[i]).raw != raw,
    decreases table.len(),
{
    if table.len() > 0 {
        lemma_pipeline(table.drop_first(), raw);
        if table[0].raw != raw {
            match pipeline_of(table.drop_first(), raw) {
                Some(p) => {
                    let i = choose|i: int|
                        0 <= i < table.drop_first().len() && table.drop_first()[i] == p;
                    assert(table[i + 1] == p);
                },
                None => {
                    assert forall|i: int| 0 <= i < table.len() implies (
                    #[trigger] table[i]).raw != raw by {
                        if i > 0 {
                            assert(table.drop_first()[i - 1] == table[i]);
                        }
                    }
                },
            }
        }
    }
}

/// A draw without indices ends inside its vertices; one with indices takes them from bytes
/// that were kept, all of them, and each selects a vertex inside.
pub proof fn draws_take_vertices_that_are_there(
    w: Seq<u32>,
    vertex: Binding,
    index: Option<Binding>,
    buffers: Seq<Snapshot>,
    i: int,
)
    requires
        draw_vertices_spec(w, vertex, index, buffers) is Ok,
        w[24] <= i < w[24] + w[25],
        w[23] > 0,
    ensures
        w[26] == 0 ==> w[27] == 0 && (i + 1) * w[23] <= vertex.size,
        w[26] != 0 ==> (index matches Some(x) && {
            let size = if w[26] == 1 {
                2int
            } else {
                4
            };
            &&& x.memory.kind is Buffer
            &&& x.offset as int % size == 0
            &&& (i + 1) * size <= x.size
            &&& exists|n: int|
                {
                    &&& 0 <= n < buffers.len()
                    &&& #[trigger] buffers[n].va == x.memory.va
                    &&& buffers[n].start <= x.offset + i * size
                    &&& x.offset + (i + 1) * size <= buffers[n].end
                    &&& (index_value(
                        buffers[n].bytes@,
                        x.offset - buffers[n].start + i * size,
                        size,
                    ) + w[27] + 1) * w[23] <= vertex.size
                }
        }),
{
    let end = w[24] + w[25];
    if w[26] == 0 {
        assert((i + 1) * w[23] <= end * w[23]) by (nonlinear_arith)
            requires
                i + 1 <= end,
                w[23] > 0,
        ;
    } else {
        let x = index->0;
        let size = element_of(w[26]);
        lemma_covering(buffers, 0, x.memory.va, x.offset as int, x.offset + end * size);
        let n = covering(buffers, 0, x.memory.va, x.offset as int, x.offset + end * size)->0;
        assert(buffers[n].va == x.memory.va);
        assert(0 <= i * size && (i + 1) * size <= end * size) by (nonlinear_arith)
            requires
                0 <= i < end,
                size > 0,
        ;
        assert(vertex_inside(
            index_value(buffers[n].bytes@, x.offset - buffers[n].start + i * size, size),
            w[27],
            w[23],
            vertex.size,
        ));
    }
}

proof fn lemma_covering(buffers: Seq<Snapshot>, from: int, va: u64, lo: int, hi: int)
    requires
        0 <= from,
    ensures
        covering(buffers, from, va, lo, hi) matches Some(n) ==> from <= n < buffers.len()
            && buffers[n].va == va && buffers[n].start <= lo && hi <= buffers[n].end,
    decreases buffers.len() - from,
{
    if from < buffers.len() && !buffers[from].covers(va, lo, hi) {
        lemma_covering(buffers, from + 1, va, lo, hi);
    }
}

proof fn lemma_address(a: u64)
    by (bit_vector)
    ensures
        (a as u32) + 0x1_0000_0000 * ((a >> 32) as u32) == a,
{
}

/// A draw of a video image has the addresses of both planes, with the size of the stored
/// picture, the chroma at half of it in both directions, rounded up, and the colors'
/// constants; a tiled plane is as wide as its rows. The other words are kept.
pub proof fn video_draws_have_both_planes(
    w: Seq<u32>,
    p: Pipeline,
    target: Binding,
    t: Binding,
    words: Seq<u32>,
)
    requires
        w.len() == 96,
        t.memory.kind is SharedImage,
        draw_texture_spec(w, p, target, Some(t)) == Ok::<Seq<u32>, &'static str>(words),
        t.memory.va + t.memory.kind->SharedImage_0.layout.luma.offset <= u64::MAX,
        t.memory.va + t.memory.kind->SharedImage_0.layout.chroma.offset <= u64::MAX,
    ensures
        ({
            let s = t.memory.kind->SharedImage_0;
            let linear = s.layout.modifier == Modifier::Linear;
            &&& words[64] == 1
            &&& words[6] + 0x1_0000_0000 * words[7] == t.memory.va + s.layout.luma.offset
            &&& words[67] + 0x1_0000_0000 * words[68] == t.memory.va + s.layout.chroma.offset
            &&& words[66] == s.stored_height
            &&& words[69] == s.layout.chroma.row_pitch
            &&& linear ==> words[65] == s.stored_width && s.stored_width <= 2 * words[70]
                <= s.stored_width + 1
            &&& !linear ==> words[65] == s.layout.luma.row_pitch && s.layout.chroma.row_pitch - 1
                <= 2 * words[70] <= s.layout.chroma.row_pitch
            &&& s.stored_height <= 2 * words[71] <= s.stored_height + 1
            &&& forall|i: int| 0 <= i < 20 ==> #[trigger] words[72 + i] == s.uniforms@[i]
            &&& forall|i: int|
                0 <= i < 64 && i != 6 && i != 7 || 92 <= i < 96 ==> words[i] == w[i]
        }),
{
    let s = t.memory.kind->SharedImage_0;
    lemma_address((t.memory.va + s.layout.luma.offset) as u64);
    lemma_address((t.memory.va + s.layout.chroma.offset) as u64);
    let v = video_words(w, t.memory.va, s);
    assert(words == v);
}

} // verus!
