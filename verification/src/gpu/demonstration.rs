//! Showing that graphics draws and copies what it is told to, before anything else
//! may use it.
use vstd::prelude::*;

use crate::gpu::block_linear;
use crate::gpu::execution;
use crate::gpu::fifo::Fifo;
use crate::gpu::graphics;
use crate::gpu::graphics::{Methods, Sequencer, Viewport};
use crate::gpu::probe;
use crate::gpu::probe::{Part, Pixel, Probe, ProbeSet, Step};
use crate::gpu::submit::Pipeline;
use crate::mmio;
use crate::mmio::{Access, Bus, Dma};

verus! {

/// Eight, as an IEEE-754 single: half of a side of everything that is drawn to.
pub const EIGHT: u32 = 0x4100_0000;

/// What is sampled: blue everywhere.
pub open spec fn texture_log() -> Seq<Access> {
    Seq::new(1024, |i: int| Access::Store(execution::TEXTURE, i as usize, probe::BLUE)).push(
        Access::Clean(execution::TEXTURE),
    )
}

fn fill_texture<R: Dma>(bus: &mut Bus<'_, R>)
    ensures
        final(bus).port() == old(bus).port(),
        final(bus).log() == old(bus).log() + texture_log(),
{
    let mut i: usize = 0;
    while i < 1024
        invariant
            bus.port() == old(bus).port(),
            i <= 1024,
            bus.log() =~= old(bus).log() + Seq::new(
                i as nat,
                |j: int| Access::Store(execution::TEXTURE, j as usize, probe::BLUE),
            ),
        decreases 1024 - i,
    {
        bus.store(execution::TEXTURE, i, probe::BLUE);
        i = i + 1;
    }
    bus.clean(execution::TEXTURE);
    assert(bus.log() =~= old(bus).log() + texture_log());
}

/// A word with one of its halves replaced.
pub open spec fn with_half(word: u32, byte: int, half: u16) -> u32 {
    if byte % 4 < 2 {
        (word / 0x1_0000 * 0x1_0000 + half) as u32
    } else {
        (word % 0x1_0000 + half * 0x1_0000) as u32
    }
}

/// The stores of some words.
pub open spec fn words_log(words: Seq<(usize, u32)>) -> Seq<Access> {
    Seq::new(words.len(), |i: int| Access::Store(execution::VERTEX, words[i].0, words[i].1))
}

/// The stores of some half words, each into the word that was found there.
pub open spec fn halves_log(halves: Seq<(usize, u16)>, found: Seq<u32>) -> Seq<Access>
    decreases halves.len(),
{
    if halves.len() == 0 {
        seq![]
    } else {
        let (byte, value) = halves.last();
        halves_log(halves.drop_last(), found) + seq![
            Access::Load(execution::VERTEX, (byte / 4) as usize, found[halves.len() - 1]),
            Access::Store(
                execution::VERTEX,
                (byte / 4) as usize,
                with_half(found[halves.len() - 1], byte as int, value),
            ),
        ]
    }
}

/// What a part writes before it draws.
pub open spec fn setup_log(part: Part, found: Seq<u32>) -> Seq<Access> {
    if part.words.len() == 0 {
        seq![]
    } else {
        words_log(part.words) + halves_log(part.indices, found) + seq![
            Access::Clean(execution::VERTEX),
        ]
    }
}

proof fn lemma_halves(halves: Seq<(usize, u16)>, one: Seq<u32>, other: Seq<u32>)
    requires
        halves.len() <= one.len(),
        halves.len() <= other.len(),
        forall|i: int| 0 <= i < halves.len() ==> one[i] == other[i],
    ensures
        halves_log(halves, one) == halves_log(halves, other),
    decreases halves.len(),
{
    if halves.len() > 0 {
        lemma_halves(halves.drop_last(), one, other);
    }
}

#[verifier::rlimit(60)]
fn set_up<R: Dma>(bus: &mut Bus<'_, R>, step: &Step) -> (found: Ghost<Seq<u32>>)
    requires
        step.words@.len() == 0 ==> step.indices@.len() == 0,
    ensures
        final(bus).port() == old(bus).port(),
        mmio::extends(old(bus).log(), final(bus).log()),
        final(bus).log() == old(bus).log() + setup_log(step@, found@),
        found@.len() == step.indices@.len(),
{
    let ghost start = bus.log();
    let ghost mut found: Seq<u32> = seq![];
    if step.words.len() == 0 {
        assert(bus.log() =~= start + setup_log(step@, found));
        return Ghost(found);
    }
    let mut i: usize = 0;
    while i < step.words.len()
        invariant
            mmio::extends(old(bus).log(), bus.log()),
            bus.port() == old(bus).port(),
            i <= step.words@.len(),
            bus.log() =~= start + words_log(step.words@.take(i as int)),
        decreases step.words@.len() - i,
    {
        let (at, value): (usize, u32) = step.words[i];
        bus.store(execution::VERTEX, at, value);
        i = i + 1;
    }
    assert(step.words@.take(i as int) =~= step.words@);
    let ghost stored = bus.log();
    let mut k: usize = 0;
    assert(step.indices@.take(0) =~= Seq::<(usize, u16)>::empty());
    while k < step.indices.len()
        invariant
            mmio::extends(old(bus).log(), bus.log()),
            bus.port() == old(bus).port(),
            k <= step.indices@.len(),
            found.len() == k,
            bus.log() =~= stored + halves_log(step.indices@.take(k as int), found),
        decreases step.indices@.len() - k,
    {
        let (byte, half): (usize, u16) = step.indices[k];
        let word: u32 = bus.load(execution::VERTEX, byte / 4);
        let value: u32 = if byte % 4 < 2 {
            word / 0x1_0000 * 0x1_0000 + half as u32
        } else {
            word % 0x1_0000 + half as u32 * 0x1_0000
        };
        bus.store(execution::VERTEX, byte / 4, value);
        proof {
            let before = step.indices@.take(k as int);
            let next = step.indices@.take(k + 1);
            assert(next.drop_last() =~= before);
            lemma_halves(before, found, found.push(word));
            found = found.push(word);
        }
        k = k + 1;
    }
    assert(step.indices@.take(k as int) =~= step.indices@);
    bus.clean(execution::VERTEX);
    assert(bus.log() =~= start + setup_log(step@, found));
    Ghost(found)
}

/// Where a pixel lies: its area and its word.
pub open spec fn place_of(p: Pixel) -> (usize, usize) {
    match p {
        Pixel::Image(x, y) => (execution::TARGET, (64 * y + x) as usize),
        Pixel::Tile(x, y) => (
            execution::TILE,
            (block_linear::offset_of(4 * x as int, y as int, 64) / 4) as usize,
        ),
    }
}

pub open spec fn small(p: Pixel) -> bool {
    match p {
        Pixel::Image(x, y) => x < 16 && y < 16,
        Pixel::Tile(x, y) => x < 16 && y < 128,
    }
}

/// What looking at some pixels reads: the memory that graphics wrote, then each word.
pub open spec fn look_log(places: Seq<Pixel>, pixels: Seq<u32>) -> Seq<Access> {
    seq![Access::Refresh(place_of(places[0]).0)] + Seq::new(
        places.len(),
        |i: int| Access::Load(place_of(places[i]).0, place_of(places[i]).1, pixels[i]),
    )
}

fn look<R: Dma>(bus: &mut Bus<'_, R>, places: &Vec<Pixel>) -> (pixels: Vec<u32>)
    requires
        places@.len() > 0,
        forall|i: int| 0 <= i < places@.len() ==> small(#[trigger] places@[i]),
    ensures
        final(bus).port() == old(bus).port(),
        mmio::extends(old(bus).log(), final(bus).log()),
        pixels@.len() == places@.len(),
        final(bus).log() == old(bus).log() + look_log(places@, pixels@),
{
    let ghost start = bus.log();
    let area: usize = match places[0] {
        Pixel::Image(_, _) => execution::TARGET,
        Pixel::Tile(_, _) => execution::TILE,
    };
    bus.refresh(area);
    let mut pixels: Vec<u32> = Vec::new();
    let mut i: usize = 0;
    while i < places.len()
        invariant
            mmio::extends(old(bus).log(), bus.log()),
            bus.port() == old(bus).port(),
            i <= places@.len(),
            pixels@.len() == i,
            forall|i: int| 0 <= i < places@.len() ==> small(#[trigger] places@[i]),
            bus.log() =~= start.push(Access::Refresh(area)) + Seq::new(
                i as nat,
                |i: int| Access::Load(place_of(places@[i]).0, place_of(places@[i]).1, pixels@[i]),
            ),
        decreases places@.len() - i,
    {
        assert(small(places@[i as int]));
        let (area, word): (usize, usize) = match places[i] {
            Pixel::Image(x, y) => (execution::TARGET, 64 * y + x),
            Pixel::Tile(x, y) => (execution::TILE, probe::tile_offset(x, y) / 4),
        };
        let pixel: u32 = bus.load(area, word);
        pixels.push(pixel);
        i = i + 1;
    }
    assert(bus.log() =~= start + look_log(places@, pixels@));
    pixels
}

proof fn lemma_fields_len(w: Seq<u32>, fields: Seq<(usize, u32)>)
    requires
        forall|i: int| 0 <= i < fields.len() ==> (#[trigger] fields[i]).0 < w.len(),
    ensures
        probe::with_fields(w, fields).len() == w.len(),
    decreases fields.len(),
{
    if fields.len() > 0 {
        lemma_fields_len(w, fields.drop_last());
        assert(fields[fields.len() - 1].0 < w.len());
    }
}

/// A word that no field names stays.
proof fn lemma_kept(w: Seq<u32>, fields: Seq<(usize, u32)>, word: int)
    requires
        0 <= word < w.len(),
        forall|i: int|
            0 <= i < fields.len() ==> (#[trigger] fields[i]).0 != word && fields[i].0 < w.len(),
    ensures
        probe::with_fields(w, fields)[word] == w[word],
    decreases fields.len(),
{
    if fields.len() > 0 {
        lemma_kept(w, fields.drop_last(), word);
        lemma_fields_len(w, fields.drop_last());
        assert(fields[fields.len() - 1].0 != word);
    }
}

/// A word has the value of the last field that names it.
proof fn lemma_set(w: Seq<u32>, fields: Seq<(usize, u32)>, k: int)
    requires
        0 <= k < fields.len(),
        forall|i: int| 0 <= i < fields.len() ==> (#[trigger] fields[i]).0 < w.len(),
        forall|i: int| k < i < fields.len() ==> (#[trigger] fields[i]).0 != fields[k].0,
    ensures
        probe::with_fields(w, fields)[fields[k].0 as int] == fields[k].1,
    decreases fields.len(),
{
    let before = fields.drop_last();
    lemma_fields_len(w, before);
    if k < fields.len() - 1 {
        assert(before[k] == fields[k]);
        assert forall|i: int| k < i < before.len() implies (#[trigger] before[i]).0
            != before[k].0 by {
            assert(fields[i] == before[i]);
        }
        lemma_set(w, before, k);
        assert(fields[fields.len() - 1].0 != fields[k].0);
    }
}

proof fn lemma_address(low: u32)
    ensures
        graphics::words_to_address(low, 0) == low,
{
    assert(((0u32 as u64) << 32) | low as u64 == low as u64) by (bit_vector);
}

/// What the words of a triangle hold, whatever else is set beside them.
pub open spec fn plain_triangle(w: Seq<u32>, stride: u32) -> bool {
    &&& w.len() == 64
    &&& w[0] == 2
    &&& w[4] == graphics::VERTEX_VA && w[5] == 0
    &&& w[8] == 0 && w[9] == 0
    &&& w[17] == 0 && w[18] == 0 && w[19] == 16 && w[20] == 16
    &&& w[24] == 0 && w[25] == 3 && w[26] == 0
    &&& w[28] == 3 * stride
}

/// Whether a field leaves the geometry of a triangle alone.
pub open spec fn beside(field: (usize, u32)) -> bool {
    field.0 == 6 || field.0 == 22 || 29 <= field.0 <= 31 || 48 <= field.0 < 64
}

proof fn lemma_triangle(raw: u32, stride: u32, extra: Seq<(usize, u32)>)
    requires
        stride <= 40,
        forall|i: int| 0 <= i < extra.len() ==> beside(#[trigger] extra[i]),
    ensures
        plain_triangle(probe::record(probe::triangle_fields(raw, stride) + extra), stride),
{
    let zeros = Seq::new(64, |i: int| 0u32);
    let fields = probe::triangle_fields(raw, stride) + extra;
    lemma_fields_len(zeros, fields);
    assert forall|k: int, i: int| 0 <= k < i < fields.len() && k < 18 implies (
    #[trigger] fields[i]).0 != (#[trigger] fields[k]).0 by {
        if i >= 18 {
            assert(beside(extra[i - 18]));
        }
    }
    assert forall|i: int| 0 <= i < fields.len() implies {
        let n = (#[trigger] fields[i]).0;
        n < 64 && n != 5 && n != 8 && n != 9 && n != 17 && n != 18 && n != 24 && n != 26
    } by {
        if i >= 18 {
            assert(beside(extra[i - 18]));
        }
    }
    lemma_set(zeros, fields, 0);
    lemma_set(zeros, fields, 2);
    lemma_set(zeros, fields, 8);
    lemma_set(zeros, fields, 9);
    lemma_set(zeros, fields, 12);
    lemma_set(zeros, fields, 13);
    lemma_kept(zeros, fields, 5);
    lemma_kept(zeros, fields, 8);
    lemma_kept(zeros, fields, 9);
    lemma_kept(zeros, fields, 17);
    lemma_kept(zeros, fields, 18);
    lemma_kept(zeros, fields, 24);
    lemma_kept(zeros, fields, 26);
}

/// The draw of a shader pair stays inside its vertices.
proof fn lemma_shader_drawable(p: probe::ProbePipeline)
    requires
        p.stride <= 40,
    ensures
        graphics::drawable(probe::record(probe::shader_fields(p))),
{
    lemma_address(graphics::VERTEX_VA);
    let base = probe::triangle_fields(p.raw, p.stride);
    let zeros = Seq::new(64, |i: int| 0u32);
    let fields = probe::shader_fields(p);
    let extra = fields.skip(18);
    assert(fields =~= base + extra);
    assert forall|i: int| 0 <= i < extra.len() implies beside(#[trigger] extra[i]) by {
        assert(extra[i] == fields[i + 18]);
    }
    lemma_triangle(p.raw, p.stride, extra);
    if p.textured {
        assert(fields[24] == (30usize, 16u32));
        assert forall|i: int| 24 < i < fields.len() implies (#[trigger] fields[i]).0 != 30 by {}
        lemma_set(zeros, fields, 24);
    } else {
        assert forall|i: int| 0 <= i < fields.len() implies (#[trigger] fields[i]).0 != 29 by {}
        lemma_kept(zeros, fields, 29);
    }
}

proof fn lemma_base(raw: u32)
    ensures
        plain_triangle(probe::record(probe::draw_fields(raw, 16)), 16),
        probe::record(probe::draw_fields(raw, 16))[29] == 0,
{
    let zeros = Seq::new(64, |i: int| 0u32);
    let extra = seq![(49usize, graphics::ONE), (51usize, graphics::ONE)];
    assert(probe::draw_fields(raw, 16) =~= probe::triangle_fields(raw, 16) + extra);
    lemma_triangle(raw, 16, extra);
    let fields = probe::draw_fields(raw, 16);
    assert forall|i: int| 0 <= i < fields.len() implies (#[trigger] fields[i]).0 != 29 by {}
    lemma_kept(zeros, fields, 29);
}

/// Every draw of the demonstration stays inside what it draws from.
proof fn lemma_drawable(set: ProbeSet, stage: int)
    requires
        set.wf(),
        0 <= stage,
    ensures
        forall|i: int|
            #![trigger probe::part_spec(set, stage).operations[i]]
            0 <= i < probe::part_spec(set, stage).operations.len() && probe::part_spec(
                set,
                stage,
            ).operations[i][0] == 2 ==> graphics::drawable(
                probe::part_spec(set, stage).operations[i],
            ),
{
    reveal(probe::part_spec);
    lemma_address(graphics::VERTEX_VA);
    lemma_address(0x3b_0800);
    lemma_address(0x3b_0900);
    let n = set.pipelines@.len() as int;
    let zeros = Seq::new(64, |i: int| 0u32);
    lemma_set(zeros, probe::clear_fields(), 0);
    if stage < n {
        lemma_shader_drawable(set.pipelines@[stage]);
    } else if stage == n || stage == n + 1 {
        let base = probe::record(probe::draw_fields(set.solid, 16));
        lemma_base(set.solid);
        let more = seq![
            (8usize, 0x3b_0800u32),
            (22usize, 1u32),
            (19usize, 8u32),
            (24usize, 2u32),
            (26usize, 1u32),
            (27usize, 1u32),
            (28usize, 64u32),
            (51usize, graphics::HALF),
        ];
        let first = probe::indexed16_draw_spec(set.solid);
        assert(first == probe::with_fields(base, more));
        lemma_fields_len(base, more);
        lemma_set(base, more, 0);
        lemma_set(base, more, 2);
        lemma_set(base, more, 3);
        lemma_set(base, more, 4);
        lemma_set(base, more, 6);
        lemma_kept(base, more, 4);
        lemma_kept(base, more, 5);
        lemma_kept(base, more, 9);
        lemma_kept(base, more, 17);
        lemma_kept(base, more, 18);
        lemma_kept(base, more, 20);
        lemma_kept(base, more, 25);
        lemma_kept(base, more, 29);
        assert(graphics::drawable(first));
        let last = seq![
            (8usize, 0x3b_0900u32),
            (22usize, 0u32),
            (19usize, 16u32),
            (26usize, 2u32),
            (51usize, graphics::ONE),
        ];
        let second = probe::indexed32_draw_spec(set.solid);
        assert(second == probe::with_fields(first, last));
        lemma_fields_len(first, last);
        lemma_set(first, last, 0);
        lemma_set(first, last, 2);
        lemma_set(first, last, 3);
        lemma_kept(first, last, 4);
        lemma_kept(first, last, 5);
        lemma_kept(first, last, 9);
        lemma_kept(first, last, 17);
        lemma_kept(first, last, 18);
        lemma_kept(first, last, 20);
        lemma_kept(first, last, 24);
        lemma_kept(first, last, 25);
        lemma_kept(first, last, 28);
        lemma_kept(first, last, 29);
        assert(graphics::drawable(second));
    } else if stage == n + 2 || stage == n + 4 {
        let base = probe::record(probe::draw_fields(set.texture, 16));
        lemma_base(set.texture);
        let first = probe::linear_draw_spec(set.texture);
        let more = seq![
            (6usize, graphics::TEXTURE_VA),
            (22usize, 2u32),
            (29usize, 16u32),
            (30usize, 16u32),
            (31usize, 256u32),
            (48usize, graphics::ONE),
            (49usize, graphics::ONE),
            (50usize, graphics::ONE),
            (51usize, graphics::ONE),
        ];
        assert(first == probe::with_fields(base, more));
        lemma_fields_len(base, more);
        lemma_set(base, more, 3);
        lemma_same(base, more);
        let last = seq![
            (6usize, graphics::TILE_VA),
            (29usize, probe::TILE_WIDTH),
            (30usize, probe::TILE_HEIGHT),
            (31usize, probe::TILE_PITCH),
            (53usize, 0x40u32),
        ];
        let second = probe::sampled_tile_spec(set.texture);
        assert(second == probe::with_fields(first, last));
        lemma_fields_len(first, last);
        lemma_set(first, last, 2);
        lemma_same(first, last);
        assert(graphics::drawable(first));
        assert(graphics::drawable(second));
    } else if stage == n + 3 {
        let base = probe::record(probe::clear_fields());
        let more = seq![
            (2usize, graphics::TILE_VA),
            (10usize, probe::TILE_WIDTH),
            (11usize, probe::TILE_HEIGHT),
            (12usize, probe::TILE_PITCH),
            (15usize, probe::TILE_WIDTH),
            (16usize, probe::TILE_HEIGHT),
            (52usize, 0x40u32),
        ];
        lemma_fields_len(zeros, probe::clear_fields());
        assert(probe::tiled_clear_spec() == probe::with_fields(base, more));
        lemma_kept(base, more, 0);
    } else {
        lemma_copies();
    }
}

/// Indices come with vertices, and pixels are looked at where there are any.
proof fn lemma_part(set: ProbeSet, stage: int)
    requires
        0 <= stage,
    ensures
        probe::part_spec(set, stage).words.len() == 0 ==> probe::part_spec(
            set,
            stage,
        ).indices.len() == 0,
        probe::reads_spec(set.pipelines@.len() as int, stage).len() > 0,
        forall|i: int|
            0 <= i < probe::reads_spec(set.pipelines@.len() as int, stage).len() ==> small(
                #[trigger] probe::reads_spec(set.pipelines@.len() as int, stage)[i],
            ),
{
    reveal(probe::part_spec);
}

/// Fields beside the geometry leave a triangle as it is.
proof fn lemma_same(w: Seq<u32>, fields: Seq<(usize, u32)>)
    requires
        plain_triangle(w, 16),
        forall|i: int| 0 <= i < fields.len() ==> beside(#[trigger] fields[i]),
    ensures
        plain_triangle(probe::with_fields(w, fields), 16),
{
    lemma_fields_len(w, fields);
    assert forall|i: int| 0 <= i < fields.len() implies {
        let n = (#[trigger] fields[i]).0;
        n < 64 && n > 5 && n != 8 && n != 9 && !(17 <= n <= 20) && !(24 <= n <= 28)
    } by {
        assert(beside(fields[i]));
    }
    lemma_kept(w, fields, 0);
    lemma_kept(w, fields, 4);
    lemma_kept(w, fields, 5);
    lemma_kept(w, fields, 8);
    lemma_kept(w, fields, 9);
    lemma_kept(w, fields, 17);
    lemma_kept(w, fields, 18);
    lemma_kept(w, fields, 19);
    lemma_kept(w, fields, 20);
    lemma_kept(w, fields, 24);
    lemma_kept(w, fields, 25);
    lemma_kept(w, fields, 26);
    lemma_kept(w, fields, 28);
}

/// Copies are no draws.
proof fn lemma_copies()
    ensures
        probe::tile_to_linear_spec()[0] == 3,
        probe::linear_to_tile_spec()[0] == 3,
        probe::linear_copy_spec()[0] == 3,
{
    let zeros = Seq::new(64, |i: int| 0u32);
    let out = seq![
        (0usize, 3u32),
        (2usize, graphics::IMAGE_VA),
        (4usize, graphics::TILE_VA),
        (10usize, 16u32),
        (11usize, 16u32),
        (12usize, 256u32),
        (15usize, 16u32),
        (16usize, 16u32),
        (19usize, 16u32),
        (20usize, 16u32),
        (29usize, probe::TILE_WIDTH),
        (30usize, probe::TILE_HEIGHT),
        (31usize, probe::TILE_PITCH),
        (53usize, 0x40u32),
    ];
    let base = probe::tile_to_linear_spec();
    assert(base == probe::with_fields(zeros, out));
    lemma_set(zeros, out, 0);
    lemma_fields_len(zeros, out);
    let back = seq![
        (2usize, graphics::TILE_VA),
        (4usize, graphics::TEXTURE_VA),
        (10usize, probe::TILE_WIDTH),
        (11usize, probe::TILE_HEIGHT),
        (12usize, probe::TILE_PITCH),
        (29usize, 16u32),
        (30usize, 16u32),
        (31usize, 256u32),
        (52usize, 0x40u32),
        (53usize, 0u32),
    ];
    assert(probe::linear_to_tile_spec() == probe::with_fields(base, back));
    lemma_kept(base, back, 0);
    let over = seq![
        (0usize, 3u32),
        (2usize, graphics::IMAGE_VA),
        (4usize, graphics::TEXTURE_VA),
        (10usize, 16u32),
        (11usize, 16u32),
        (12usize, 256u32),
        (15usize, 16u32),
        (16usize, 16u32),
        (19usize, 16u32),
        (20usize, 16u32),
        (29usize, 16u32),
        (30usize, 16u32),
        (31usize, 256u32),
    ];
    assert(probe::linear_copy_spec() == probe::with_fields(zeros, over));
    lemma_set(zeros, over, 0);
}

/// The state that a submission changes.
pub struct Moment {
    pub log: Seq<Access>,
    pub queue: Fifo,
    pub sequence: u32,
}

/// One part that was run: the operations, the words that were found where indices
/// went, and the pixels that were seen; and where it stood before it drew, after it
/// drew and at its end.
pub struct Round {
    pub operations: Seq<[u32; 64]>,
    pub found: Seq<u32>,
    pub drawn: Moment,
    pub after: Moment,
    pub pixels: Seq<u32>,
}

/// Everything is drawn to sixteen by sixteen pixels.
pub open spec fn viewports(operations: Seq<[u32; 64]>) -> Seq<Viewport> {
    Seq::new(operations.len(), |i: int| Viewport { half_width: EIGHT, half_height: EIGHT })
}

/// A submission from one moment to the next, and why it came to nothing.
#[verifier::opaque]
pub open spec fn drew(
    m: Methods,
    pipelines: Seq<Pipeline>,
    operations: Seq<[u32; 64]>,
    before: Moment,
    after: Moment,
    error: Option<&'static str>,
) -> bool {
    match graphics::encode_spec(m, pipelines, operations, viewports(operations), before.sequence) {
        Err(e) => error == Some(graphics::reason_of(e)) && after == before,
        Ok(words) => after.sequence == before.sequence + 1 && exists|
            retired: Seq<Access>,
            rested: Seq<Access>,
            checked: Seq<Access>,
        |
            #[trigger]
            execution::went_through(
                before.log + execution::publish_log(words),
                retired,
                rested,
                checked,
                after.log,
                graphics::writes_blocks(operations),
                before.queue,
                after.queue,
                words.len() as u32,
                after.sequence,
                error,
            ),
    }
}

/// What a part was given to draw.
pub open spec fn was_set_up(part: Part, before: Moment, r: Round) -> Moment {
    Moment { log: before.log + setup_log(part, r.found), ..before }
}

/// A part that drew, and was looked at.
#[verifier::opaque]
pub open spec fn was_run(
    set: ProbeSet,
    m: Methods,
    pipelines: Seq<Pipeline>,
    stage: int,
    before: Moment,
    r: Round,
) -> bool {
    let part = probe::part_spec(set, stage);
    let places = probe::reads_spec(set.pipelines@.len() as int, stage);
    &&& r.operations.len() == part.operations.len()
    &&& forall|i: int|
        0 <= i < part.operations.len() ==> (#[trigger] r.operations[i])@ == part.operations[i]
    &&& drew(m, pipelines, r.operations, was_set_up(part, before, r), r.drawn, None)
    &&& r.pixels.len() == places.len()
    &&& r.after == (Moment { log: r.drawn.log + look_log(places, r.pixels), ..r.drawn })
}

/// A part that could not draw.
#[verifier::opaque]
pub open spec fn was_stuck(
    set: ProbeSet,
    m: Methods,
    pipelines: Seq<Pipeline>,
    stage: int,
    before: Moment,
    r: Round,
    error: &'static str,
) -> bool {
    let part = probe::part_spec(set, stage);
    &&& r.operations.len() == part.operations.len()
    &&& forall|i: int|
        0 <= i < part.operations.len() ==> (#[trigger] r.operations[i])@ == part.operations[i]
    &&& drew(m, pipelines, r.operations, was_set_up(part, before, r), r.drawn, Some(error))
}

/// Where a part begins.
pub open spec fn begins(start: Moment, rounds: Seq<Round>, k: int) -> Moment {
    if k == 0 {
        start
    } else {
        rounds[k - 1].after
    }
}

pub open spec fn were_run(
    set: ProbeSet,
    m: Methods,
    pipelines: Seq<Pipeline>,
    start: Moment,
    rounds: Seq<Round>,
) -> bool {
    forall|k: int|
        0 <= k < rounds.len() ==> was_run(
            set,
            m,
            pipelines,
            k,
            begins(start, rounds, k),
            #[trigger] rounds[k],
        )
}

/// What the pixels of the parts so far amount to.
pub open spec fn judged(set: ProbeSet, rounds: Seq<Round>) -> Result<Probe, &'static str>
    decreases rounds.len(),
{
    if rounds.len() == 0 {
        Ok(Probe { stage: 0, checksum: 0x811c_9dc5, rendered: (0, 0), sampled: 0, copied: (0, 0) })
    } else {
        match judged(set, rounds.drop_last()) {
            Ok(p) => probe::observe_spec(set, p, rounds.last().pixels),
            Err(e) => Err(e),
        }
    }
}

/// How the demonstration went: to its end, to a part that could not draw, or to
/// pixels that are not what was drawn.
pub open spec fn was_shown(
    set: ProbeSet,
    m: Methods,
    pipelines: Seq<Pipeline>,
    start: Moment,
    end: Moment,
    rounds: Seq<Round>,
    stuck: Option<Round>,
    r: Result<u32, &'static str>,
) -> bool {
    let n = rounds.len() as int;
    &&& were_run(set, m, pipelines, start, rounds)
    &&& match r {
        Ok(checksum) => n == set.pipelines@.len() + 8 && (judged(set, rounds) matches Ok(p)
            && p.checksum == checksum) && end == begins(start, rounds, n),
        Err(e) => match stuck {
            None => judged(set, rounds) == Err::<Probe, &'static str>(e) && end == begins(
                start,
                rounds,
                n,
            ),
            Some(last) => judged(set, rounds) is Ok && n < set.pipelines@.len() + 8 && was_stuck(
                set,
                m,
                pipelines,
                n,
                begins(start, rounds, n),
                last,
                e,
            ) && end == last.drawn,
        },
    }
}

proof fn lemma_more(
    set: ProbeSet,
    m: Methods,
    pipelines: Seq<Pipeline>,
    start: Moment,
    rounds: Seq<Round>,
    r: Round,
)
    requires
        were_run(set, m, pipelines, start, rounds),
        was_run(
            set,
            m,
            pipelines,
            rounds.len() as int,
            begins(start, rounds, rounds.len() as int),
            r,
        ),
    ensures
        were_run(set, m, pipelines, start, rounds.push(r)),
        judged(set, rounds.push(r)) == match judged(set, rounds) {
            Ok(p) => probe::observe_spec(set, p, r.pixels),
            Err(e) => Err(e),
        },
{
    let all = rounds.push(r);
    assert(all.drop_last() =~= rounds);
    assert forall|k: int| 0 <= k < all.len() implies was_run(
        set,
        m,
        pipelines,
        k,
        begins(start, all, k),
        #[trigger] all[k],
    ) by {
        assert(begins(start, all, k) == begins(start, rounds, k));
        if k < rounds.len() {
            assert(rounds[k] == all[k]);
        }
    }
}

fn full_views(count: usize) -> (views: Vec<Viewport>)
    ensures
        views@ == Seq::new(
            count as nat,
            |i: int| Viewport { half_width: EIGHT, half_height: EIGHT },
        ),
{
    let mut views: Vec<Viewport> = Vec::new();
    while views.len() < count
        invariant
            views@.len() <= count,
            views@ =~= Seq::new(
                views@.len(),
                |i: int| Viewport { half_width: EIGHT, half_height: EIGHT },
            ),
        decreases count - views@.len(),
    {
        views.push(Viewport { half_width: EIGHT, half_height: EIGHT });
    }
    views
}

/// Runs one part.
#[verifier::rlimit(60)]
fn attempt<R: Dma>(
    bus: &mut Bus<'_, R>,
    queue: &mut Fifo,
    sequencer: &mut Sequencer,
    m: &Methods,
    pipelines: &[Pipeline],
    set: &ProbeSet,
    probe: &Probe,
) -> (r: (Result<Vec<u32>, &'static str>, Ghost<Round>))
    requires
        old(queue).wf(),
        m.wf(),
        set.wf(),
    ensures
        final(bus).port() == old(bus).port(),
        mmio::extends(old(bus).log(), final(bus).log()),
        final(queue).wf(),
        ({
            let before = Moment {
                log: old(bus).log(),
                queue: *old(queue),
                sequence: old(sequencer).sequence,
            };
            let after = Moment {
                log: final(bus).log(),
                queue: *final(queue),
                sequence: final(sequencer).sequence,
            };
            match r.0 {
                Ok(pixels) => was_run(*set, *m, pipelines@, probe.stage as int, before, r.1@)
                    && r.1@.pixels == pixels@ && r.1@.after == after && pixels@.len()
                    == probe::reads_spec(set.pipelines@.len() as int, probe.stage as int).len(),
                Err(e) => was_stuck(*set, *m, pipelines@, probe.stage as int, before, r.1@, e)
                    && r.1@.drawn == after,
            }
        }),
{
    let ghost before = Moment { log: bus.log(), queue: *queue, sequence: sequencer.sequence };
    let ghost stage = probe.stage as int;
    let ghost part = probe::part_spec(*set, stage);
    let step = probe.step(set);
    proof {
        lemma_drawable(*set, stage);
        lemma_part(*set, stage);
        assert forall|i: int|
            0 <= i < step.operations@.len() && step.operations@[i]@[0]
                == 2 implies graphics::drawable((#[trigger] step.operations@[i])@) by {
            assert(part.operations[i] == step.operations@[i]@);
        }
    }
    let found = set_up(bus, &step);
    let ghost ready = Moment { log: bus.log(), queue: *queue, sequence: sequencer.sequence };
    let views = full_views(step.operations.len());
    assert(views@ =~= viewports(step.operations@));
    let outcome = execution::execute(
        bus,
        queue,
        sequencer,
        m,
        pipelines,
        &step.operations,
        &views,
    );
    let ghost drawn = Moment { log: bus.log(), queue: *queue, sequence: sequencer.sequence };
    let ghost round = Round {
        operations: step.operations@,
        found: found@,
        drawn,
        after: drawn,
        pixels: seq![],
    };
    proof {
        assert forall|i: int| 0 <= i < part.operations.len() implies (
        #[trigger] round.operations[i])@ == part.operations[i] by {
            assert(part.operations[i] == step.operations@[i]@);
        }
        assert(was_set_up(part, before, round) == ready);
        assert(drew(
            *m,
            pipelines@,
            round.operations,
            was_set_up(part, before, round),
            drawn,
            execution::lost_by(outcome),
        )) by {
            reveal(drew);
            if let Ok(words) = graphics::encode_spec(
                *m,
                pipelines@,
                step.operations@,
                views@,
                ready.sequence,
            ) {
                let blocks = graphics::writes_blocks(step.operations@);
                let (retired, rested, checked) = choose|
                    retired: Seq<Access>,
                    rested: Seq<Access>,
                    checked: Seq<Access>,
                |
                    #[trigger]
                    execution::went_through(
                        ready.log + execution::publish_log(words),
                        retired,
                        rested,
                        checked,
                        drawn.log,
                        blocks,
                        ready.queue,
                        drawn.queue,
                        words.len() as u32,
                        drawn.sequence,
                        execution::lost_by(outcome),
                    );
                assert(execution::went_through(
                    was_set_up(part, before, round).log + execution::publish_log(words),
                    retired,
                    rested,
                    checked,
                    drawn.log,
                    blocks,
                    ready.queue,
                    drawn.queue,
                    words.len() as u32,
                    drawn.sequence,
                    execution::lost_by(outcome),
                ));
            }
        }
    }
    if let Err(e) = outcome {
        let e = graphics::proof_error(e);
        assert(was_stuck(*set, *m, pipelines@, stage, before, round, e)) by {
            reveal(was_stuck);
        }
        return (Err(e), Ghost(round));
    }
    let places = probe.reads(set);
    let pixels = look(bus, &places);
    let ghost after = Moment { log: bus.log(), queue: *queue, sequence: sequencer.sequence };
    let ghost full = Round { after, pixels: pixels@, ..round };
    assert(was_set_up(part, before, full) == was_set_up(part, before, round));
    assert(was_run(*set, *m, pipelines@, stage, before, full)) by {
        reveal(was_run);
    }
    (Ok(pixels), Ghost(full))
}

/// Draws with every shader pair, with both widths of indices, blended, clipped and
/// filtered, and copies into and out of blocks; and looks at what came of each.
#[verifier::rlimit(60)]
pub fn verify<R: Dma>(
    bus: &mut Bus<'_, R>,
    queue: &mut Fifo,
    sequencer: &mut Sequencer,
    m: &Methods,
    pipelines: &[Pipeline],
    set: &ProbeSet,
) -> (r: Result<u32, &'static str>)
    requires
        old(queue).wf(),
        m.wf(),
        set.wf(),
    ensures
        final(bus).port() == old(bus).port(),
        mmio::extends(old(bus).log(), final(bus).log()),
        final(queue).wf(),
        exists|rounds: Seq<Round>, stuck: Option<Round>| #[trigger]
            was_shown(
                *set,
                *m,
                pipelines@,
                Moment {
                    log: old(bus).log() + texture_log(),
                    queue: *old(queue),
                    sequence: old(sequencer).sequence,
                },
                Moment {
                    log: final(bus).log(),
                    queue: *final(queue),
                    sequence: final(sequencer).sequence,
                },
                rounds,
                stuck,
                r,
            ),
{
    fill_texture(bus);
    let ghost start = Moment { log: bus.log(), queue: *queue, sequence: sequencer.sequence };
    let ghost mut rounds: Seq<Round> = seq![];
    let mut probe = Probe::new();
    while probe.stage < set.pipelines.len() + 8
        invariant
            mmio::extends(old(bus).log(), bus.log()),
            bus.port() == old(bus).port(),
            m.wf(),
            set.wf(),
            queue.wf(),
            probe.stage <= set.pipelines@.len() + 8,
            rounds.len() == probe.stage,
            were_run(*set, *m, pipelines@, start, rounds),
            judged(*set, rounds) == Ok::<Probe, &'static str>(probe),
            begins(start, rounds, rounds.len() as int) == (Moment {
                log: bus.log(),
                queue: *queue,
                sequence: sequencer.sequence,
            }),
            start == (Moment {
                log: old(bus).log() + texture_log(),
                queue: *old(queue),
                sequence: old(sequencer).sequence,
            }),
        decreases set.pipelines@.len() + 8 - probe.stage,
    {
        let (seen, Ghost(round)) = attempt(bus, queue, sequencer, m, pipelines, set, &probe);
        let ghost now = Moment { log: bus.log(), queue: *queue, sequence: sequencer.sequence };
        let pixels: Vec<u32> = match seen {
            Err(e) => {
                assert(was_shown(
                    *set,
                    *m,
                    pipelines@,
                    start,
                    now,
                    rounds,
                    Some(round),
                    Err(e),
                ));
                return Err(e);
            },
            Ok(pixels) => pixels,
        };
        proof {
            lemma_more(*set, *m, pipelines@, start, rounds, round);
            rounds = rounds.push(round);
        }
        let judgement = probe.observe(set, &pixels);
        if let Err(e) = judgement {
            assert(was_shown(*set, *m, pipelines@, start, now, rounds, None, Err(e)));
            return Err(e);
        }
    }
    let ghost end = Moment { log: bus.log(), queue: *queue, sequence: sequencer.sequence };
    assert(was_shown(*set, *m, pipelines@, start, end, rounds, None, Ok(probe.checksum)));
    Ok(probe.checksum)
}

/// Half of a word is changed and the other half is kept.
pub proof fn halves_are_changed_alone(word: u32, byte: int, half: u16)
    requires
        0 <= byte,
        byte % 2 == 0,
    ensures
        byte % 4 == 0 ==> with_half(word, byte, half) % 0x1_0000 == half && with_half(
            word,
            byte,
            half,
        ) / 0x1_0000 == word / 0x1_0000,
        byte % 4 == 2 ==> with_half(word, byte, half) / 0x1_0000 == half && with_half(
            word,
            byte,
            half,
        ) % 0x1_0000 == word % 0x1_0000,
{
}

} // verus!
