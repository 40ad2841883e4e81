//! The drawing proof that precedes the first public submission.
//!
//! Every shader pair, indexed draws, blending, scissoring, both samplers, block
//! storage and copies run once on private surfaces, and every result is read
//! back. The device is offered only after all of them came out as expected.
use vstd::prelude::*;

use crate::gpu::block_linear;
use crate::gpu::graphics::{HALF, IMAGE_VA, ONE, TEXTURE_VA, TILE_VA, VERTEX_VA};

verus! {

pub const TILE_WIDTH: u32 = 16;

pub const TILE_HEIGHT: u32 = 128;

pub const TILE_PITCH: u32 = 64;

/// Three quarters and its negative, as IEEE-754 singles.
pub const FAR: u32 = 0x3f40_0000;

pub const NEAR: u32 = 0xbf40_0000;

pub const RED: u32 = 0xffff_0000;

pub const GREEN: u32 = 0xff00_ff00;

pub const BLUE: u32 = 0xff00_00ff;

pub const WHITE: u32 = 0xffff_ffff;

/// A shader pair as the proof sees it.
#[derive(Clone, Copy, Debug, PartialEq, Eq, Structural)]
pub struct ProbePipeline {
    pub raw: u32,
    pub stride: u32,
    pub textured: bool,
    /// The fragment shader takes alpha alone from the texture.
    pub mask: bool,
    /// The vertex shader takes a color from the vertex.
    pub colored: bool,
}

/// `w` with the listed words replaced, in order.
pub open spec fn with_fields(w: Seq<u32>, fields: Seq<(usize, u32)>) -> Seq<u32>
    decreases fields.len(),
{
    if fields.len() == 0 {
        w
    } else {
        with_fields(w, fields.drop_last()).update(fields.last().0 as int, fields.last().1)
    }
}

/// An operation that holds the listed words and zeros elsewhere.
pub open spec fn record(fields: Seq<(usize, u32)>) -> Seq<u32> {
    with_fields(Seq::new(64, |i: int| 0u32), fields)
}

fn set_fields(w: &mut [u32; 64], fields: &Vec<(usize, u32)>)
    requires
        forall|i: int| 0 <= i < fields@.len() ==> (#[trigger] fields@[i]).0 < 64,
    ensures
        final(w)@ == with_fields(old(w)@, fields@),
{
    let ghost before = w@;
    let mut i: usize = 0;
    while i < fields.len()
        invariant
            i <= fields@.len(),
            forall|i: int| 0 <= i < fields@.len() ==> (#[trigger] fields@[i]).0 < 64,
            w@ == with_fields(before, fields@.take(i as int)),
        decreases fields@.len() - i,
    {
        let (word, value): (usize, u32) = fields[i];
        assert(fields@[i as int].0 < 64);
        w[word] = value;
        assert(fields@.take(i + 1).drop_last() =~= fields@.take(i as int));
        i += 1;
    }
    assert(fields@.take(i as int) =~= fields@);
}

fn make_record(fields: &Vec<(usize, u32)>) -> (w: [u32; 64])
    requires
        forall|i: int| 0 <= i < fields@.len() ==> (#[trigger] fields@[i]).0 < 64,
    ensures
        w@ == record(fields@),
{
    let mut w: [u32; 64] = [0; 64];
    assert(w@ =~= Seq::new(64, |i: int| 0u32));
    set_fields(&mut w, fields);
    w
}

/// A red clear of the 16 by 16 proof image.
pub open spec fn clear_fields() -> Seq<(usize, u32)> {
    seq![
        (0usize, 1u32),
        (2usize, IMAGE_VA),
        (10usize, 16u32),
        (11usize, 16u32),
        (12usize, 256u32),
        (15usize, 16u32),
        (16usize, 16u32),
        (32usize, ONE),
        (35usize, ONE),
    ]
}

pub fn probe_clear() -> (w: [u32; 64])
    ensures
        w@ == record(clear_fields()),
{
    let fields: Vec<(usize, u32)> = vec![
        (0, 1),
        (2, IMAGE_VA),
        (10, 16),
        (11, 16),
        (12, 256),
        (15, 16),
        (16, 16),
        (32, ONE),
        (35, ONE),
    ];
    assert(fields@ =~= clear_fields());
    make_record(&fields)
}

/// One triangle over the whole proof image, through an identity transform.
pub open spec fn triangle_fields(raw: u32, stride: u32) -> Seq<(usize, u32)> {
    seq![
        (0usize, 2u32),
        (2usize, IMAGE_VA),
        (4usize, VERTEX_VA),
        (10usize, 16u32),
        (11usize, 16u32),
        (12usize, 256u32),
        (15usize, 16u32),
        (16usize, 16u32),
        (19usize, 16u32),
        (20usize, 16u32),
        (21usize, raw),
        (23usize, stride),
        (25usize, 3u32),
        (28usize, (3 * stride) as u32),
        (32usize, ONE),
        (37usize, ONE),
        (42usize, ONE),
        (47usize, ONE),
    ]
}

fn triangle(raw: u32, stride: u32) -> (fields: Vec<(usize, u32)>)
    requires
        stride <= 0x1000,
    ensures
        fields@ == triangle_fields(raw, stride),
{
    let fields: Vec<(usize, u32)> = vec![
        (0, 2),
        (2, IMAGE_VA),
        (4, VERTEX_VA),
        (10, 16),
        (11, 16),
        (12, 256),
        (15, 16),
        (16, 16),
        (19, 16),
        (20, 16),
        (21, raw),
        (23, stride),
        (25, 3),
        (28, 3 * stride),
        (32, ONE),
        (37, ONE),
        (42, ONE),
        (47, ONE),
    ];
    assert(fields@ =~= triangle_fields(raw, stride));
    fields
}

/// The triangle in opaque green.
pub open spec fn draw_fields(raw: u32, stride: u32) -> Seq<(usize, u32)> {
    triangle_fields(raw, stride) + seq![(49usize, ONE), (51usize, ONE)]
}

pub fn probe_draw(raw: u32, stride: u32) -> (w: [u32; 64])
    requires
        stride <= 0x1000,
    ensures
        w@ == record(draw_fields(raw, stride)),
{
    let mut fields: Vec<(usize, u32)> = triangle(raw, stride);
    fields.push((49, ONE));
    fields.push((51, ONE));
    assert(fields@ =~= draw_fields(raw, stride));
    make_record(&fields)
}

/// The triangle through one shader pair: opaque green, or white times the blue
/// texture.
pub open spec fn shader_fields(p: ProbePipeline) -> Seq<(usize, u32)> {
    let color = if p.textured {
        seq![(48usize, ONE), (49usize, ONE), (50usize, ONE), (51usize, ONE)]
    } else {
        seq![(49usize, ONE), (51usize, ONE)]
    };
    let texture = if p.textured {
        seq![
            (6usize, TEXTURE_VA),
            (29usize, 16u32),
            (30usize, 16u32),
            (31usize, 256u32),
            (22usize, if p.mask { 0x20u32 } else { 0u32 }),
        ]
    } else {
        Seq::empty()
    };
    triangle_fields(p.raw, p.stride) + color + texture
}

fn shader_draw(p: &ProbePipeline) -> (w: [u32; 64])
    requires
        p.stride <= 0x1000,
    ensures
        w@ == record(shader_fields(*p)),
{
    let mut fields: Vec<(usize, u32)> = triangle(p.raw, p.stride);
    let state: u32 = if p.mask {
        0x20
    } else {
        0
    };
    if p.textured {
        fields.push((48, ONE));
        fields.push((49, ONE));
        fields.push((50, ONE));
        fields.push((51, ONE));
        fields.push((6, TEXTURE_VA));
        fields.push((29, 16));
        fields.push((30, 16));
        fields.push((31, 256));
        fields.push((22, state));
    } else {
        fields.push((49, ONE));
        fields.push((51, ONE));
    }
    assert(fields@ =~= shader_fields(*p));
    make_record(&fields)
}

/// Corner `i` of the proof triangle.
pub open spec fn corner_x(i: int) -> u32 {
    if i == 0 {
        NEAR
    } else if i == 1 {
        FAR
    } else {
        0
    }
}

pub open spec fn corner_y(i: int) -> u32 {
    if i == 2 {
        FAR
    } else {
        NEAR
    }
}

/// Component `j` of corner `i`: a position, then what the stride has room for.
pub open spec fn vertex_word(stride: u32, colored: bool, i: int, j: int) -> u32 {
    if j == 0 {
        corner_x(i)
    } else if j == 1 {
        corner_y(i)
    } else if j == 2 {
        if stride == 16 {
            HALF
        } else {
            0
        }
    } else if j == 3 {
        if stride == 16 {
            HALF
        } else {
            ONE
        }
    } else if (j == 4 || j == 5) && stride == 24 {
        HALF
    } else if 4 <= j < 8 && colored {
        ONE
    } else if (j == 8 || j == 9) && stride == 40 {
        HALF
    } else {
        0
    }
}

/// The vertex buffer of one shader pair, from its first word on.
pub open spec fn vertex_words(stride: u32, colored: bool) -> Seq<u32> {
    let n = (stride / 4) as int;
    Seq::new((3 * n) as nat, |k: int| vertex_word(stride, colored, k / n, k % n))
}

fn corner(i: u32) -> (r: (u32, u32))
    ensures
        r == (corner_x(i as int), corner_y(i as int)),
{
    let x: u32 = if i == 0 {
        NEAR
    } else if i == 1 {
        FAR
    } else {
        0
    };
    let y: u32 = if i == 2 {
        FAR
    } else {
        NEAR
    };
    (x, y)
}

fn shader_vertices(stride: u32, colored: bool) -> (r: Vec<u32>)
    requires
        4 <= stride <= 40,
    ensures
        r@ == vertex_words(stride, colored),
{
    let n: u32 = stride / 4;
    let mut r: Vec<u32> = Vec::new();
    let mut k: u32 = 0;
    while k < 3 * n
        invariant
            n == stride / 4,
            1 <= n <= 10,
            k <= 3 * n,
            r@.len() == k,
            forall|q: int|
                0 <= q < k ==> #[trigger] r@[q] == vertex_words(stride, colored)[q],
        decreases 3 * n - k,
    {
        let i: u32 = k / n;
        let j: u32 = k % n;
        let (x, y): (u32, u32) = corner(i);
        let value: u32 = if j == 0 {
            x
        } else if j == 1 {
            y
        } else if j == 2 {
            if stride == 16 {
                HALF
            } else {
                0
            }
        } else if j == 3 {
            if stride == 16 {
                HALF
            } else {
                ONE
            }
        } else if (j == 4 || j == 5) && stride == 24 {
            HALF
        } else if 4 <= j && j < 8 && colored {
            ONE
        } else if (j == 8 || j == 9) && stride == 40 {
            HALF
        } else {
            0
        };
        r.push(value);
        k += 1;
    }
    assert(r@ =~= vertex_words(stride, colored));
    r
}

/// Storage offset of a pixel of the proof tile, one block of 64-byte rows.
pub fn tile_offset(x: usize, y: usize) -> (r: usize)
    requires
        x < 16,
        y < 128,
    ensures
        r == block_linear::offset_of(4 * x as int, y as int, 64),
        r + 4 <= 8192,
{
    proof {
        block_linear::offset_stays_inside(4 * x as int, y as int, 64, 128);
        block_linear::offset_stays_inside(4 * x as int + 3, y as int, 64, 128);
        block_linear::sectors_are_contiguous(4 * x as int, y as int, 64, 3);
    }
    block_linear::byte_offset(x * 4, y, 64)
}

fn zeros() -> (w: [u32; 64])
    ensures
        w@ == Seq::new(64, |i: int| 0u32),
{
    let w: [u32; 64] = [0; 64];
    assert(w@ =~= Seq::new(64, |i: int| 0u32));
    w
}

/// A half-transparent indexed triangle that skips two indices, starts at a nonzero
/// vertex and is clipped to the left half.
pub open spec fn indexed16_draw_spec(solid: u32) -> Seq<u32> {
    with_fields(record(draw_fields(solid, 16)), seq![(8usize, 0x3b_0800u32), (22usize, 1u32), (19usize, 8u32), (24usize, 2u32), (26usize, 1u32), (27usize, 1u32), (28usize, 64u32), (51usize, HALF)])
}

fn indexed16_draw(solid: u32) -> (w: [u32; 64])
    ensures
        w@ == indexed16_draw_spec(solid),
{
    let mut w: [u32; 64] = probe_draw(solid, 16);
    let fields: Vec<(usize, u32)> = vec![(8, 0x3b_0800), (22, 1), (19, 8), (24, 2), (26, 1), (27, 1), (28, 64), (51, HALF)];
    assert(fields@ =~= seq![(8usize, 0x3b_0800u32), (22usize, 1u32), (19usize, 8u32), (24usize, 2u32), (26usize, 1u32), (27usize, 1u32), (28usize, 64u32), (51usize, HALF)]);
    set_fields(&mut w, &fields);
    w
}

/// The same triangle with wide indices, opaque and unclipped.
pub open spec fn indexed32_draw_spec(solid: u32) -> Seq<u32> {
    with_fields(indexed16_draw_spec(solid), seq![(8usize, 0x3b_0900u32), (22usize, 0u32), (19usize, 16u32), (26usize, 2u32), (51usize, ONE)])
}

fn indexed32_draw(solid: u32) -> (w: [u32; 64])
    ensures
        w@ == indexed32_draw_spec(solid),
{
    let mut w: [u32; 64] = indexed16_draw(solid);
    let fields: Vec<(usize, u32)> = vec![(8, 0x3b_0900), (22, 0), (19, 16), (26, 2), (51, ONE)];
    assert(fields@ =~= seq![(8usize, 0x3b_0900u32), (22usize, 0u32), (19usize, 16u32), (26usize, 2u32), (51usize, ONE)]);
    set_fields(&mut w, &fields);
    w
}

/// A triangle through the linear sampler.
pub open spec fn linear_draw_spec(texture: u32) -> Seq<u32> {
    with_fields(record(draw_fields(texture, 16)), seq![(6usize, TEXTURE_VA), (22usize, 2u32), (29usize, 16u32), (30usize, 16u32), (31usize, 256u32), (48usize, ONE), (49usize, ONE), (50usize, ONE), (51usize, ONE)])
}

fn linear_draw(texture: u32) -> (w: [u32; 64])
    ensures
        w@ == linear_draw_spec(texture),
{
    let mut w: [u32; 64] = probe_draw(texture, 16);
    let fields: Vec<(usize, u32)> = vec![(6, TEXTURE_VA), (22, 2), (29, 16), (30, 16), (31, 256), (48, ONE), (49, ONE), (50, ONE), (51, ONE)];
    assert(fields@ =~= seq![(6usize, TEXTURE_VA), (22usize, 2u32), (29usize, 16u32), (30usize, 16u32), (31usize, 256u32), (48usize, ONE), (49usize, ONE), (50usize, ONE), (51usize, ONE)]);
    set_fields(&mut w, &fields);
    w
}

/// A red clear of the proof tile.
pub open spec fn tiled_clear_spec() -> Seq<u32> {
    with_fields(record(clear_fields()), seq![(2usize, TILE_VA), (10usize, TILE_WIDTH), (11usize, TILE_HEIGHT), (12usize, TILE_PITCH), (15usize, TILE_WIDTH), (16usize, TILE_HEIGHT), (52usize, 0x40u32)])
}

fn tiled_clear() -> (w: [u32; 64])
    ensures
        w@ == tiled_clear_spec(),
{
    let mut w: [u32; 64] = probe_clear();
    let fields: Vec<(usize, u32)> = vec![(2, TILE_VA), (10, TILE_WIDTH), (11, TILE_HEIGHT), (12, TILE_PITCH), (15, TILE_WIDTH), (16, TILE_HEIGHT), (52, 0x40)];
    assert(fields@ =~= seq![(2usize, TILE_VA), (10usize, TILE_WIDTH), (11usize, TILE_HEIGHT), (12usize, TILE_PITCH), (15usize, TILE_WIDTH), (16usize, TILE_HEIGHT), (52usize, 0x40u32)]);
    set_fields(&mut w, &fields);
    w
}

/// A triangle that samples the proof tile.
pub open spec fn sampled_tile_spec(texture: u32) -> Seq<u32> {
    with_fields(linear_draw_spec(texture), seq![(6usize, TILE_VA), (29usize, TILE_WIDTH), (30usize, TILE_HEIGHT), (31usize, TILE_PITCH), (53usize, 0x40u32)])
}

fn sampled_tile(texture: u32) -> (w: [u32; 64])
    ensures
        w@ == sampled_tile_spec(texture),
{
    let mut w: [u32; 64] = linear_draw(texture);
    let fields: Vec<(usize, u32)> = vec![(6, TILE_VA), (29, TILE_WIDTH), (30, TILE_HEIGHT), (31, TILE_PITCH), (53, 0x40)];
    assert(fields@ =~= seq![(6usize, TILE_VA), (29usize, TILE_WIDTH), (30usize, TILE_HEIGHT), (31usize, TILE_PITCH), (53usize, 0x40u32)]);
    set_fields(&mut w, &fields);
    w
}

/// A copy from the proof tile to the proof image.
pub open spec fn tile_to_linear_spec() -> Seq<u32> {
    with_fields(Seq::new(64, |i: int| 0u32), seq![(0usize, 3u32), (2usize, IMAGE_VA), (4usize, TILE_VA), (10usize, 16u32), (11usize, 16u32), (12usize, 256u32), (15usize, 16u32), (16usize, 16u32), (19usize, 16u32), (20usize, 16u32), (29usize, TILE_WIDTH), (30usize, TILE_HEIGHT), (31usize, TILE_PITCH), (53usize, 0x40u32)])
}

fn tile_to_linear() -> (w: [u32; 64])
    ensures
        w@ == tile_to_linear_spec(),
{
    let mut w: [u32; 64] = zeros();
    let fields: Vec<(usize, u32)> = vec![(0, 3), (2, IMAGE_VA), (4, TILE_VA), (10, 16), (11, 16), (12, 256), (15, 16), (16, 16), (19, 16), (20, 16), (29, TILE_WIDTH), (30, TILE_HEIGHT), (31, TILE_PITCH), (53, 0x40)];
    assert(fields@ =~= seq![(0usize, 3u32), (2usize, IMAGE_VA), (4usize, TILE_VA), (10usize, 16u32), (11usize, 16u32), (12usize, 256u32), (15usize, 16u32), (16usize, 16u32), (19usize, 16u32), (20usize, 16u32), (29usize, TILE_WIDTH), (30usize, TILE_HEIGHT), (31usize, TILE_PITCH), (53usize, 0x40u32)]);
    set_fields(&mut w, &fields);
    w
}

/// A copy from the blue texture to the proof tile.
pub open spec fn linear_to_tile_spec() -> Seq<u32> {
    with_fields(tile_to_linear_spec(), seq![(2usize, TILE_VA), (4usize, TEXTURE_VA), (10usize, TILE_WIDTH), (11usize, TILE_HEIGHT), (12usize, TILE_PITCH), (29usize, 16u32), (30usize, 16u32), (31usize, 256u32), (52usize, 0x40u32), (53usize, 0u32)])
}

fn linear_to_tile() -> (w: [u32; 64])
    ensures
        w@ == linear_to_tile_spec(),
{
    let mut w: [u32; 64] = tile_to_linear();
    let fields: Vec<(usize, u32)> = vec![(2, TILE_VA), (4, TEXTURE_VA), (10, TILE_WIDTH), (11, TILE_HEIGHT), (12, TILE_PITCH), (29, 16), (30, 16), (31, 256), (52, 0x40), (53, 0)];
    assert(fields@ =~= seq![(2usize, TILE_VA), (4usize, TEXTURE_VA), (10usize, TILE_WIDTH), (11usize, TILE_HEIGHT), (12usize, TILE_PITCH), (29usize, 16u32), (30usize, 16u32), (31usize, 256u32), (52usize, 0x40u32), (53usize, 0u32)]);
    set_fields(&mut w, &fields);
    w
}

/// A copy from the blue texture to the proof image.
pub open spec fn linear_copy_spec() -> Seq<u32> {
    with_fields(Seq::new(64, |i: int| 0u32), seq![(0usize, 3u32), (2usize, IMAGE_VA), (4usize, TEXTURE_VA), (10usize, 16u32), (11usize, 16u32), (12usize, 256u32), (15usize, 16u32), (16usize, 16u32), (19usize, 16u32), (20usize, 16u32), (29usize, 16u32), (30usize, 16u32), (31usize, 256u32)])
}

fn linear_copy() -> (w: [u32; 64])
    ensures
        w@ == linear_copy_spec(),
{
    let mut w: [u32; 64] = zeros();
    let fields: Vec<(usize, u32)> = vec![(0, 3), (2, IMAGE_VA), (4, TEXTURE_VA), (10, 16), (11, 16), (12, 256), (15, 16), (16, 16), (19, 16), (20, 16), (29, 16), (30, 16), (31, 256)];
    assert(fields@ =~= seq![(0usize, 3u32), (2usize, IMAGE_VA), (4usize, TEXTURE_VA), (10usize, 16u32), (11usize, 16u32), (12usize, 256u32), (15usize, 16u32), (16usize, 16u32), (19usize, 16u32), (20usize, 16u32), (29usize, 16u32), (30usize, 16u32), (31usize, 256u32)]);
    set_fields(&mut w, &fields);
    w
}

/// One part of the proof: what is written to the vertex page, and what is drawn.
#[derive(Debug)]
pub struct Step {
    /// Word index and value.
    pub words: Vec<(usize, u32)>,
    /// Byte offset and 16-bit index.
    pub indices: Vec<(usize, u16)>,
    pub operations: Vec<[u32; 64]>,
}

/// What a `Step` says.
pub struct Part {
    pub words: Seq<(usize, u32)>,
    pub indices: Seq<(usize, u16)>,
    pub operations: Seq<Seq<u32>>,
}

impl View for Step {
    type V = Part;

    open spec fn view(&self) -> Part {
        Part {
            words: self.words@,
            indices: self.indices@,
            operations: Seq::new(self.operations@.len(), |i: int| self.operations@[i]@),
        }
    }
}

/// The shader pairs to prove. `solid` and `texture` select the pairs that the
/// remaining parts draw with, both with 16-byte vertices.
#[derive(Debug)]
pub struct ProbeSet {
    pub pipelines: Vec<ProbePipeline>,
    pub solid: u32,
    pub texture: u32,
}

impl ProbeSet {
    pub open spec fn wf(self) -> bool {
        &&& forall|i: int|
            0 <= i < self.pipelines@.len() ==> 4 <= (#[trigger] self.pipelines@[i]).stride <= 40
        &&& self.pipelines@.len() + 8 <= usize::MAX
    }
}

pub open spec fn numbered(words: Seq<u32>) -> Seq<(usize, u32)> {
    Seq::new(words.len(), |i: int| (i as usize, words[i]))
}

/// Vertices of the indexed draws: vertex zero repeats vertex one, so that a draw
/// which ignores its base vertex yields no triangle.
pub open spec fn indexed_vertices() -> Seq<(usize, u32)> {
    seq![
        (0usize, NEAR),
        (1usize, NEAR),
        (4usize, NEAR),
        (5usize, NEAR),
        (8usize, FAR),
        (9usize, NEAR),
        (12usize, 0u32),
        (13usize, FAR),
        (0x240usize, 0xffff_ffffu32),
        (0x241usize, 0xffff_ffffu32),
        (0x242usize, 2u32),
        (0x243usize, 0u32),
        (0x244usize, 1u32),
    ]
}

pub open spec fn short_indices() -> Seq<(usize, u16)> {
    seq![
        (0x800usize, 0xffffu16),
        (0x802usize, 0xffffu16),
        (0x804usize, 0u16),
        (0x806usize, 1u16),
        (0x808usize, 2u16),
    ]
}

/// What part `stage` of the proof writes and draws.
#[verifier::opaque]
pub open spec fn part_spec(set: ProbeSet, stage: int) -> Part {
    let n = set.pipelines@.len() as int;
    let none = Seq::<(usize, u32)>::empty();
    let no_indices = Seq::<(usize, u16)>::empty();
    let clear = record(clear_fields());
    if stage < n {
        let p = set.pipelines@[stage];
        Part {
            words: numbered(vertex_words(p.stride, p.colored)),
            indices: no_indices,
            operations: seq![clear, record(shader_fields(p))],
        }
    } else if stage == n {
        Part {
            words: indexed_vertices(),
            indices: short_indices(),
            operations: seq![clear, indexed16_draw_spec(set.solid)],
        }
    } else if stage == n + 1 {
        Part {
            words: none,
            indices: no_indices,
            operations: seq![clear, indexed32_draw_spec(set.solid)],
        }
    } else if stage == n + 2 {
        Part {
            words: numbered(vertex_words(16, false)),
            indices: no_indices,
            operations: seq![clear, linear_draw_spec(set.texture)],
        }
    } else if stage == n + 3 {
        Part { words: none, indices: no_indices, operations: seq![tiled_clear_spec()] }
    } else if stage == n + 4 {
        Part {
            words: none,
            indices: no_indices,
            operations: seq![clear, sampled_tile_spec(set.texture)],
        }
    } else if stage == n + 5 {
        Part { words: none, indices: no_indices, operations: seq![tile_to_linear_spec()] }
    } else if stage == n + 6 {
        Part { words: none, indices: no_indices, operations: seq![linear_to_tile_spec()] }
    } else {
        Part { words: none, indices: no_indices, operations: seq![linear_copy_spec()] }
    }
}

/// A pixel that a part reads back: of the proof image, or of the proof tile.
#[derive(Clone, Copy, Debug, PartialEq, Eq, Structural)]
pub enum Pixel {
    Image(usize, usize),
    Tile(usize, usize),
}

/// The pixels that part `stage` reads back.
pub open spec fn reads_spec(n: int, stage: int) -> Seq<Pixel> {
    if stage == n {
        seq![Pixel::Image(6, 8), Pixel::Image(9, 8)]
    } else if stage < n || stage == n + 1 {
        seq![Pixel::Image(8, 8), Pixel::Image(0, 0)]
    } else if stage == n + 2 || stage == n + 4 {
        seq![Pixel::Image(8, 8)]
    } else if stage == n + 3 || stage == n + 6 {
        seq![Pixel::Tile(0, 0), Pixel::Tile(8, 8)]
    } else if stage == n + 5 {
        seq![Pixel::Image(0, 0), Pixel::Image(8, 8)]
    } else {
        seq![Pixel::Image(0, 0)]
    }
}

/// The proof so far.
#[derive(Clone, Copy, Debug)]
pub struct Probe {
    pub stage: usize,
    pub checksum: u32,
    /// Both pixels of the cleared tile, the sampled pixel, and both pixels of the
    /// copy out of it. They are judged once the copy back has run as well.
    pub rendered: (u32, u32),
    pub sampled: u32,
    pub copied: (u32, u32),
}

pub open spec fn mixed(checksum: u32, pixel: u32) -> u32 {
    (checksum ^ pixel).wrapping_mul(0x0100_0193)
}

/// Color that the middle of the triangle has after one shader pair drew it.
pub open spec fn shader_color(p: ProbePipeline) -> u32 {
    if p.mask {
        WHITE
    } else if p.textured {
        BLUE
    } else {
        GREEN
    }
}

/// Half green over red, give or take one, and the clipped half still red.
pub open spec fn blend_ok(blended: u32, clipped: u32) -> bool {
    &&& blended & 0xff00_00ff == 0xff00_0000
    &&& (blended >> 8) & 0xff == 127 || (blended >> 8) & 0xff == 128
    &&& (blended >> 16) & 0xff == 127 || (blended >> 16) & 0xff == 128
    &&& clipped == RED
}

/// What the pixels of the current part lead to.
pub open spec fn observe_spec(set: ProbeSet, p: Probe, pixels: Seq<u32>) -> Result<
    Probe,
    &'static str,
> {
    let n = set.pipelines@.len() as int;
    let next = Probe { stage: (p.stage + 1) as usize, ..p };
    if p.stage < n {
        if pixels[0] == shader_color(set.pipelines@[p.stage as int]) && pixels[1] == RED {
            Ok(Probe { checksum: mixed(p.checksum, pixels[0]), ..next })
        } else {
            Err("SGFX shader draw/readback mismatch")
        }
    } else if p.stage == n {
        if blend_ok(pixels[0], pixels[1]) {
            Ok(Probe { checksum: mixed(p.checksum, pixels[0]), ..next })
        } else {
            Err("SGFX indexed/source-over/scissor readback mismatch")
        }
    } else if p.stage == n + 1 {
        if pixels[0] == GREEN && pixels[1] == RED {
            Ok(next)
        } else {
            Err("SGFX indexed-u32 readback mismatch")
        }
    } else if p.stage == n + 2 {
        if pixels[0] == BLUE {
            Ok(next)
        } else {
            Err("SGFX linear sampler readback mismatch")
        }
    } else if p.stage == n + 3 {
        Ok(Probe { rendered: (pixels[0], pixels[1]), ..next })
    } else if p.stage == n + 4 {
        Ok(Probe { sampled: pixels[0], ..next })
    } else if p.stage == n + 5 {
        Ok(Probe { copied: (pixels[0], pixels[1]), ..next })
    } else if p.stage == n + 6 {
        if p.rendered != (RED, RED) {
            Err("SGFX tiled render/PTE readback mismatch")
        } else if p.sampled != RED {
            Err("SGFX tiled sampler mismatch")
        } else if p.copied != (RED, RED) {
            Err("SGFX tiled-to-linear copy mismatch")
        } else if (pixels[0], pixels[1]) != (BLUE, BLUE) {
            Err("SGFX linear-to-tiled copy mismatch")
        } else {
            Ok(next)
        }
    } else if pixels[0] == BLUE {
        Ok(next)
    } else {
        Err("SGFX 902D copy/readback mismatch")
    }
}

fn number(words: &Vec<u32>) -> (r: Vec<(usize, u32)>)
    ensures
        r@ == numbered(words@),
{
    let mut r: Vec<(usize, u32)> = Vec::new();
    let mut i: usize = 0;
    while i < words.len()
        invariant
            i <= words@.len(),
            r@.len() == i,
            forall|j: int| 0 <= j < i ==> #[trigger] r@[j] == (j as usize, words@[j]),
        decreases words@.len() - i,
    {
        r.push((i, words[i]));
        i += 1;
    }
    assert(r@ =~= numbered(words@));
    r
}

impl Probe {
    pub fn new() -> (r: Self)
        ensures
            r == (Probe {
                stage: 0,
                checksum: 0x811c_9dc5,
                rendered: (0, 0),
                sampled: 0,
                copied: (0, 0),
            }),
    {
        Probe {
            stage: 0,
            checksum: 0x811c_9dc5,
            rendered: (0, 0),
            sampled: 0,
            copied: (0, 0),
        }
    }

    /// The checksum of the proof, once every part has run.
    pub fn result(&self, set: &ProbeSet) -> (r: Option<u32>)
        requires
            set.wf(),
        ensures
            r == if self.stage == set.pipelines@.len() + 8 {
                Some(self.checksum)
            } else {
                None
            },
    {
        if self.stage == set.pipelines.len() + 8 {
            Some(self.checksum)
        } else {
            None
        }
    }

    /// What the current part writes and draws.
    pub fn step(&self, set: &ProbeSet) -> (r: Step)
        requires
            set.wf(),
        ensures
            r@ == part_spec(*set, self.stage as int),
    {
        proof {
            reveal(part_spec);
        }
        let n: usize = set.pipelines.len();
        let mut words: Vec<(usize, u32)> = Vec::new();
        let mut indices: Vec<(usize, u16)> = Vec::new();
        let mut operations: Vec<[u32; 64]> = Vec::new();
        assert(words@ =~= Seq::empty());
        assert(indices@ =~= Seq::empty());
        if self.stage < n {
            let p = set.pipelines[self.stage];
            let vertices = shader_vertices(p.stride, p.colored);
            words = number(&vertices);
            operations.push(probe_clear());
            operations.push(shader_draw(&p));
        } else if self.stage == n {
            words =
            vec![
                (0, NEAR),
                (1, NEAR),
                (4, NEAR),
                (5, NEAR),
                (8, FAR),
                (9, NEAR),
                (12, 0),
                (13, FAR),
                (0x240, 0xffff_ffff),
                (0x241, 0xffff_ffff),
                (0x242, 2),
                (0x243, 0),
                (0x244, 1),
            ];
            indices = vec![(0x800, 0xffff), (0x802, 0xffff), (0x804, 0), (0x806, 1), (0x808, 2)];
            assert(words@ =~= indexed_vertices());
            assert(indices@ =~= short_indices());
            operations.push(probe_clear());
            operations.push(indexed16_draw(set.solid));
        } else if self.stage == n + 1 {
            operations.push(probe_clear());
            operations.push(indexed32_draw(set.solid));
        } else if self.stage == n + 2 {
            let vertices = shader_vertices(16, false);
            words = number(&vertices);
            operations.push(probe_clear());
            operations.push(linear_draw(set.texture));
        } else if self.stage == n + 3 {
            operations.push(tiled_clear());
        } else if self.stage == n + 4 {
            operations.push(probe_clear());
            operations.push(sampled_tile(set.texture));
        } else if self.stage == n + 5 {
            operations.push(tile_to_linear());
        } else if self.stage == n + 6 {
            operations.push(linear_to_tile());
        } else {
            operations.push(linear_copy());
        }
        let r = Step { words, indices, operations };
        assert(r@.operations =~= part_spec(*set, self.stage as int).operations);
        r
    }

    /// The pixels to read back after the current part has run.
    pub fn reads(&self, set: &ProbeSet) -> (r: Vec<Pixel>)
        requires
            set.wf(),
        ensures
            r@ == reads_spec(set.pipelines@.len() as int, self.stage as int),
    {
        let n: usize = set.pipelines.len();
        let r: Vec<Pixel> = if self.stage == n {
            vec![Pixel::Image(6, 8), Pixel::Image(9, 8)]
        } else if self.stage < n || self.stage == n + 1 {
            vec![Pixel::Image(8, 8), Pixel::Image(0, 0)]
        } else if self.stage == n + 2 || self.stage == n + 4 {
            vec![Pixel::Image(8, 8)]
        } else if self.stage == n + 3 || self.stage == n + 6 {
            vec![Pixel::Tile(0, 0), Pixel::Tile(8, 8)]
        } else if self.stage == n + 5 {
            vec![Pixel::Image(0, 0), Pixel::Image(8, 8)]
        } else {
            vec![Pixel::Image(0, 0)]
        };
        assert(r@ =~= reads_spec(set.pipelines@.len() as int, self.stage as int));
        r
    }

    /// Judges the pixels of the current part and moves on to the next one.
    pub fn observe(&mut self, set: &ProbeSet, pixels: &Vec<u32>) -> (r: Result<(), &'static str>)
        requires
            set.wf(),
            old(self).stage < set.pipelines@.len() + 8,
            pixels@.len() == reads_spec(
                set.pipelines@.len() as int,
                old(self).stage as int,
            ).len(),
        ensures
            match observe_spec(*set, *old(self), pixels@) {
                Ok(next) => r is Ok && *final(self) == next,
                Err(e) => r == Err::<(), &'static str>(e) && *final(self) == *old(self),
            },
    {
        let n: usize = set.pipelines.len();
        if self.stage < n {
            let p = set.pipelines[self.stage];
            let expected: u32 = if p.mask {
                WHITE
            } else if p.textured {
                BLUE
            } else {
                GREEN
            };
            if pixels[0] != expected || pixels[1] != RED {
                return Err("SGFX shader draw/readback mismatch");
            }
            self.checksum = (self.checksum ^ pixels[0]).wrapping_mul(0x0100_0193);
        } else if self.stage == n {
            let blended: u32 = pixels[0];
            let green: u32 = (blended >> 8) & 0xff;
            let red: u32 = (blended >> 16) & 0xff;
            if blended & 0xff00_00ff != 0xff00_0000 || !(green == 127 || green == 128) || !(red
                == 127 || red == 128) || pixels[1] != RED {
                return Err("SGFX indexed/source-over/scissor readback mismatch");
            }
            self.checksum = (self.checksum ^ blended).wrapping_mul(0x0100_0193);
        } else if self.stage == n + 1 {
            if pixels[0] != GREEN || pixels[1] != RED {
                return Err("SGFX indexed-u32 readback mismatch");
            }
        } else if self.stage == n + 2 {
            if pixels[0] != BLUE {
                return Err("SGFX linear sampler readback mismatch");
            }
        } else if self.stage == n + 3 {
            self.rendered = (pixels[0], pixels[1]);
        } else if self.stage == n + 4 {
            self.sampled = pixels[0];
        } else if self.stage == n + 5 {
            self.copied = (pixels[0], pixels[1]);
        } else if self.stage == n + 6 {
            if self.rendered.0 != RED || self.rendered.1 != RED {
                return Err("SGFX tiled render/PTE readback mismatch");
            }
            if self.sampled != RED {
                return Err("SGFX tiled sampler mismatch");
            }
            if self.copied.0 != RED || self.copied.1 != RED {
                return Err("SGFX tiled-to-linear copy mismatch");
            }
            if pixels[0] != BLUE || pixels[1] != BLUE {
                return Err("SGFX linear-to-tiled copy mismatch");
            }
        } else if pixels[0] != BLUE {
            return Err("SGFX 902D copy/readback mismatch");
        }
        self.stage = self.stage + 1;
        Ok(())
    }
}

/// A trial goes on only with the colors that it should show: each shader its own on a red
/// ground, the indexed triangle on the same, and the copies what they were copied from.
pub proof fn trials_pass_with_their_colors(set: ProbeSet, p: Probe, pixels: Seq<u32>, next: Probe)
    requires
        observe_spec(set, p, pixels) == Ok::<Probe, &'static str>(next),
        p.stage < set.pipelines@.len() + 8,
        set.wf(),
    ensures
        next.stage == p.stage + 1,
        ({
            let n = set.pipelines@.len();
            &&& p.stage < n ==> {
                let shader = set.pipelines@[p.stage as int];
                &&& pixels[1] == 0xffff_0000
                &&& shader.mask ==> pixels[0] == 0xffff_ffff
                &&& !shader.mask && shader.textured ==> pixels[0] == 0xff00_00ff
                &&& !shader.mask && !shader.textured ==> pixels[0] == 0xff00_ff00
            }
            &&& p.stage == n ==> pixels[1] == 0xffff_0000 && pixels[0] & 0xff00_00ff == 0xff00_0000
            &&& p.stage == n + 1 ==> pixels[0] == 0xff00_ff00 && pixels[1] == 0xffff_0000
            &&& p.stage == n + 2 ==> pixels[0] == 0xff00_00ff
            &&& p.stage == n + 6 ==> pixels[0] == 0xff00_00ff && pixels[1] == 0xff00_00ff
                && p.rendered == (0xffff_0000u32, 0xffff_0000u32) && p.sampled == 0xffff_0000
                && p.copied == (0xffff_0000u32, 0xffff_0000u32)
            &&& p.stage == n + 7 ==> pixels[0] == 0xff00_00ff
            &&& p.stage == n + 3 ==> next.rendered == (pixels[0], pixels[1])
            &&& p.stage == n + 4 ==> next.sampled == pixels[0]
            &&& p.stage == n + 5 ==> next.copied == (pixels[0], pixels[1])
        }),
{
}

/// The indexed triangle has its corners where the plain one has them, one vertex later, and
/// both kinds of indices name them in their own order behind two that are not drawn.
pub proof fn indexed_corners_are_the_same(i: int)
    requires
        0 <= i < 3,
    ensures
        ({
            let v = indexed_vertices();
            let s = short_indices();
            &&& v.len() == 13 && s.len() == 5
            &&& v[2 + 2 * i] == ((4 + 4 * i) as usize, corner_x(i)) && v[3 + 2 * i] == (
                (5 + 4 * i) as usize,
                corner_y(i),
            )
            &&& s[2 + i] == ((0x804 + 2 * i) as usize, i as u16)
            &&& s[0] == (0x800usize, 0xffffu16) && s[1] == (0x802usize, 0xffffu16)
            &&& v[8] == (0x240usize, 0xffff_ffffu32) && v[9] == (0x241usize, 0xffff_ffffu32)
            &&& v[10 + i].0 == 0x242 + i && v[10 + i].1 == (i + 2) % 3
            &&& corner_x(0) == 0xbf40_0000 && corner_x(1) == 0x3f40_0000 && corner_x(2) == 0
            &&& corner_y(0) == 0xbf40_0000 && corner_y(1) == 0xbf40_0000 && corner_y(2)
                == 0x3f40_0000
        }),
{
}

} // verus!
