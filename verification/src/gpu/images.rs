//! Image storage: layouts of new images, and transfers between an image and its
//! linear staging copy.
use vstd::prelude::*;

use crate::gpu::block_linear;
use crate::gpu::block_linear::byte_offset;
use crate::gpu::memory::{Format, Image, ImageCreate, ImageLayout, Kind, Memory, Modifier, PlaneLayout};

verus! {

/// How a new image is stored.
#[derive(Clone, Copy, Debug, PartialEq, Eq, Structural)]
pub enum ImagePlan {
    Blocks(ImageLayout),
    /// Rows of the given pitch, one after the other.
    Linear(u32),
}

/// Single-level color and depth images of up to 16384 pixels a side.
pub open spec fn image_supported(c: ImageCreate) -> bool {
    &&& c.format == Format::Bgra8Unorm || (c.format == Format::Depth32Float
        && c.usage.is_depth_only())
    &&& 0 < c.width <= 16384
    &&& 0 < c.height <= 16384
    &&& c.mip_levels == 1
    &&& c.array_layers == 1
    &&& !c.cube
}

/// Depth images, the color images that are drawn with them, and the panel-sized
/// images that are both drawn and shown are stored in blocks.
pub open spec fn stored_in_blocks(c: ImageCreate) -> bool {
    ||| c.format == Format::Depth32Float
    ||| c.usage.depth_compatible
    ||| (c.width == 1280 && c.height == 720 && c.usage.presentable && c.usage.render_target)
}

pub open spec fn block_pitch(width: u32) -> int {
    ((width * 4 + 63) / 64) * 64
}

pub open spec fn block_rows(height: u32) -> int {
    ((height + 127) / 128) * 128
}

pub open spec fn plan_image_spec(c: ImageCreate) -> Result<ImagePlan, &'static str> {
    if !image_supported(c) {
        Err("GM20B requires single-level BGRA8 or ZF32 2D images")
    } else if stored_in_blocks(c) {
        let size = block_pitch(c.width) * block_rows(c.height);
        Ok(
            ImagePlan::Blocks(
                ImageLayout {
                    modifier: if c.format == Format::Depth32Float {
                        Modifier::ZetaBlockLinear
                    } else {
                        Modifier::BlockLinear
                    },
                    total_size: size as u64,
                    alignment: 4096,
                    plane_count: 1,
                    luma: PlaneLayout {
                        offset: 0,
                        size: size as u64,
                        row_pitch: block_pitch(c.width) as u32,
                        array_pitch: size as u32,
                        block_width: 1,
                        block_height: 1,
                        bytes_per_block: 4,
                    },
                    chroma: PlaneLayout::empty_spec(),
                },
            ),
        )
    } else {
        Ok(ImagePlan::Linear((((c.width * 4 + 255) / 256) * 256) as u32))
    }
}

/// Chooses the storage of a new image.
pub fn plan_image(c: &ImageCreate) -> (r: Result<ImagePlan, &'static str>)
    ensures
        r == plan_image_spec(*c),
{
    let depth = c.format == Format::Depth32Float;
    if (!depth && c.format != Format::Bgra8Unorm) || (depth && !c.usage.depth_only()) || c.width == 0
        || c.height == 0 || c.width > 16384 || c.height > 16384 || c.mip_levels != 1
        || c.array_layers != 1 || c.cube {
        return Err("GM20B requires single-level BGRA8 or ZF32 2D images");
    }
    if depth || c.usage.depth_compatible || (c.width == 1280 && c.height == 720
        && c.usage.presentable && c.usage.render_target) {
        let pitch: u32 = ((c.width * 4 + 63) / 64) * 64;
        let rows: u32 = ((c.height + 127) / 128) * 128;
        assert(pitch * rows <= 0x1_0000 * 0x4000) by (nonlinear_arith)
            requires
                pitch <= 0x1_0000,
                rows <= 0x4000,
        ;
        let size: u32 = pitch * rows;
        return Ok(
            ImagePlan::Blocks(
                ImageLayout {
                    modifier: if depth {
                        Modifier::ZetaBlockLinear
                    } else {
                        Modifier::BlockLinear
                    },
                    total_size: size as u64,
                    alignment: 4096,
                    plane_count: 1,
                    luma: PlaneLayout {
                        offset: 0,
                        size: size as u64,
                        row_pitch: pitch,
                        array_pitch: size,
                        block_width: 1,
                        block_height: 1,
                        bytes_per_block: 4,
                    },
                    chroma: PlaneLayout::empty(),
                },
            ),
        );
    }
    Ok(ImagePlan::Linear(((c.width * 4 + 255) / 256) * 256))
}

/// Storage in blocks holds every pixel of the image at an offset of its own.
pub proof fn block_storage_holds_the_image(c: ImageCreate, x: int, y: int)
    requires
        plan_image_spec(c) is Ok,
        plan_image_spec(c)->Ok_0 is Blocks,
        0 <= x < 4 * c.width,
        0 <= y < c.height,
    ensures
        ({
            let l = plan_image_spec(c)->Ok_0->Blocks_0;
            0 <= block_linear::offset_of(x, y, l.luma.row_pitch as int) < l.total_size
        }),
{
    let pitch = block_pitch(c.width);
    let rows = block_rows(c.height);
    assert(pitch % 64 == 0 && rows % 128 == 0);
    assert(pitch * rows <= 0x1_0000 * 0x4000) by (nonlinear_arith)
        requires
            0 <= pitch <= 0x1_0000,
            0 <= rows <= 0x4000,
    ;
    assert(0 <= pitch * rows) by (nonlinear_arith)
        requires
            0 <= pitch,
            0 <= rows,
    ;
    block_linear::offset_stays_inside(x, y, pitch, rows);
}

/// A rectangle of an image and the part of the staging copy that holds it.
#[derive(Clone, Copy, Debug, PartialEq, Eq, Structural)]
pub struct Transfer {
    pub dst_x: u32,
    pub dst_y: u32,
    pub width: u32,
    pub height: u32,
    pub backing_offset: u64,
    pub backing_stride: u32,
    pub backing_layer_stride: u32,
}

impl Transfer {
    /// The rectangle lies in the image, and the staging copy has the layout of
    /// the whole image.
    pub open spec fn matches(self, c: ImageCreate, p: PlaneLayout) -> bool {
        &&& self.width != 0
        &&& self.height != 0
        &&& self.backing_stride == p.row_pitch
        &&& self.backing_layer_stride == p.array_pitch
        &&& self.dst_x + self.width <= c.width
        &&& self.dst_y + self.height <= c.height
        &&& self.backing_offset == self.dst_y * p.row_pitch + self.dst_x * 4
    }
}

/// What a transfer is answered: the image and its storage order.
pub open spec fn transfer_spec(m: Memory, lost: bool, t: Transfer) -> Result<Image, &'static str> {
    if lost {
        Err("GM20B device lost")
    } else {
        match m.kind {
            Kind::Image(i) => if !t.matches(i.create, i.layout.luma) {
                Err("image transfer layout mismatch")
            } else if i.layout.modifier != Modifier::BlockLinear && i.layout.modifier
                != Modifier::Linear {
                Err("unsupported CPU image transfer modifier")
            } else {
                Ok(i)
            },
            _ => Err("resource is not an image"),
        }
    }
}

/// Checks a transfer between an image and its staging copy.
pub fn check_transfer(m: &Memory, lost: bool, t: &Transfer) -> (r: Result<Image, &'static str>)
    ensures
        r == transfer_spec(*m, lost, *t),
{
    if lost {
        return Err("GM20B device lost");
    }
    let i = match &m.kind {
        Kind::Image(i) => *i,
        _ => {
            return Err("resource is not an image");
        },
    };
    let pitch: u32 = i.layout.luma.row_pitch;
    if t.width == 0 || t.height == 0 || t.backing_stride != pitch || t.backing_layer_stride
        != i.layout.luma.array_pitch || t.dst_x as u64 + t.width as u64 > i.create.width as u64
        || t.dst_y as u64 + t.height as u64 > i.create.height as u64 {
        return Err("image transfer layout mismatch");
    }
    assert(t.dst_y * pitch <= 0xffff_ffff * 0xffff_ffff) by (nonlinear_arith)
        requires
            t.dst_y <= 0xffff_ffff,
            pitch <= 0xffff_ffff,
    ;
    if t.backing_offset as u128 != (t.dst_y as u64 * pitch as u64) as u128 + t.dst_x as u128 * 4 {
        return Err("image transfer layout mismatch");
    }
    if i.layout.modifier != Modifier::BlockLinear && i.layout.modifier != Modifier::Linear {
        return Err("unsupported CPU image transfer modifier");
    }
    Ok(i)
}

/// A rectangle in bytes and rows.
#[derive(Clone, Copy, Debug, PartialEq, Eq, Structural)]
pub struct Bytes {
    pub left: usize,
    pub right: usize,
    pub top: usize,
    pub bottom: usize,
}

impl Bytes {
    pub open spec fn holds(self, x: int, y: int) -> bool {
        self.left <= x < self.right && self.top <= y < self.bottom
    }

    /// Holds the byte, and comes before byte `x` of row `y` in reading order.
    pub open spec fn before(self, at: (int, int), x: int, y: int) -> bool {
        self.holds(at.0, at.1) && (at.1 < y || (at.1 == y && at.0 < x))
    }

    /// The rectangle lies in a surface of whole blocks that takes `pitch * rows`
    /// bytes.
    pub open spec fn fits(self, pitch: usize, rows: usize) -> bool {
        &&& pitch % 64 == 0
        &&& rows % 128 == 0
        &&& self.left <= self.right <= pitch
        &&& self.top <= self.bottom <= rows
        &&& pitch * rows <= usize::MAX
    }
}

/// The block storage after the rectangle was stored from the linear copy.
pub open spec fn stored(linear: Seq<u8>, blocks: Seq<u8>, b: Bytes, pitch: usize, rows: usize) -> Seq<u8> {
    Seq::new(
        blocks.len(),
        |o: int|
            {
                let at = block_linear::coordinates_of(o, pitch as int);
                if o < pitch * rows && b.holds(at.0, at.1) {
                    linear[at.1 * pitch + at.0]
                } else {
                    blocks[o]
                }
            },
    )
}

/// The linear copy after the rectangle was loaded from block storage.
pub open spec fn loaded(linear: Seq<u8>, blocks: Seq<u8>, b: Bytes, pitch: usize, rows: usize) -> Seq<u8> {
    Seq::new(
        linear.len(),
        |i: int|
            {
                let (x, y) = (i % pitch as int, i / pitch as int);
                if b.holds(x, y) {
                    blocks[block_linear::offset_of(x, y, pitch as int)]
                } else {
                    linear[i]
                }
            },
    )
}

proof fn lemma_row_major(x: int, y: int, pitch: int, rows: int)
    requires
        0 <= x < pitch,
        0 <= y < rows,
    ensures
        0 <= y * pitch + x < pitch * rows,
        (y * pitch + x) / pitch == y,
        (y * pitch + x) % pitch == x,
{
    vstd::arithmetic::div_mod::lemma_fundamental_div_mod_converse(y * pitch + x, pitch, y, x);
    assert(y * pitch + x < pitch * rows && 0 <= y * pitch) by (nonlinear_arith)
        requires
            0 <= x < pitch,
            0 <= y < rows,
    ;
}

/// Bytes from `x` to the end of its sector, but not past `right`.
fn run_length(x: usize, right: usize) -> (n: usize)
    requires
        x < right,
    ensures
        0 < n <= right - x,
        x % 16 + n <= 16,
{
    let rest: usize = 16 - x % 16;
    if rest <= right - x {
        rest
    } else {
        right - x
    }
}

spec fn storing(
    linear: Seq<u8>,
    blocks: Seq<u8>,
    now: Seq<u8>,
    b: Bytes,
    pitch: usize,
    rows: usize,
    x: int,
    y: int,
) -> bool {
    &&& now.len() == blocks.len()
    &&& forall|o: int|
        0 <= o < now.len() ==> #[trigger] now[o] == (if o < pitch * rows && b.before(
            block_linear::coordinates_of(o, pitch as int),
            x,
            y,
        ) {
            linear[block_linear::coordinates_of(o, pitch as int).1 * pitch
                + block_linear::coordinates_of(o, pitch as int).0]
        } else {
            blocks[o]
        })
}

proof fn lemma_store(
    linear: Seq<u8>,
    blocks: Seq<u8>,
    now: Seq<u8>,
    b: Bytes,
    pitch: usize,
    rows: usize,
    x: int,
    y: int,
)
    requires
        b.fits(pitch, rows),
        b.holds(x, y),
        pitch * rows <= blocks.len(),
        storing(linear, blocks, now, b, pitch, rows, x, y),
    ensures
        0 <= block_linear::offset_of(x, y, pitch as int) < pitch * rows,
        storing(
            linear,
            blocks,
            now.update(block_linear::offset_of(x, y, pitch as int), linear[y * pitch + x]),
            b,
            pitch,
            rows,
            x + 1,
            y,
        ),
{
    let p = block_linear::offset_of(x, y, pitch as int);
    block_linear::offset_stays_inside(x, y, pitch as int, rows as int);
    block_linear::coordinates_are_inverse(x, y, pitch as int, rows as int);
    let next = now.update(p, linear[y * pitch + x]);
    assert forall|o: int| 0 <= o < next.len() implies #[trigger] next[o] == (if o < pitch * rows
        && b.before(block_linear::coordinates_of(o, pitch as int), x + 1, y) {
        linear[block_linear::coordinates_of(o, pitch as int).1 * pitch
            + block_linear::coordinates_of(o, pitch as int).0]
    } else {
        blocks[o]
    }) by {
        if o != p {
            assert(next[o] == now[o]);
            if o < pitch * rows {
                block_linear::offset_is_surjective(o, pitch as int, rows as int);
            }
        }
    }
}

/// Stores the rectangle `b` of the linear copy into block storage. Bytes outside
/// the rectangle keep their value.
pub fn store_rectangle(linear: &[u8], blocks: &mut [u8], b: Bytes, pitch: usize, rows: usize)
    requires
        b.fits(pitch, rows),
        pitch * rows <= linear@.len(),
        pitch * rows <= old(blocks)@.len(),
    ensures
        final(blocks)@ == stored(linear@, old(blocks)@, b, pitch, rows),
{
    let ghost before = blocks@;
    let mut y: usize = b.top;
    while y < b.bottom
        invariant
            b.fits(pitch, rows),
            b.top <= y <= b.bottom,
            pitch * rows <= linear@.len(),
            pitch * rows <= before.len(),
            storing(linear@, before, blocks@, b, pitch, rows, b.left as int, y as int),
        decreases b.bottom - y,
    {
        let mut x: usize = b.left;
        while x < b.right
            invariant
                b.fits(pitch, rows),
                b.top <= y < b.bottom,
                b.left <= x <= b.right,
                pitch * rows <= linear@.len(),
                pitch * rows <= before.len(),
                storing(linear@, before, blocks@, b, pitch, rows, x as int, y as int),
            decreases b.right - x,
        {
            let n: usize = run_length(x, b.right);
            proof {
                block_linear::offset_stays_inside(
                    x as int,
                    y as int,
                    pitch as int,
                    rows as int,
                );
                lemma_row_major(x as int, y as int, pitch as int, rows as int);
                lemma_row_major((x + n - 1) as int, y as int, pitch as int, rows as int);
            }
            let from: usize = y * pitch + x;
            let to: usize = byte_offset(x, y, pitch);
            let mut k: usize = 0;
            while k < n
                invariant
                    b.fits(pitch, rows),
                    b.top <= y < b.bottom,
                    b.left <= x,
                    0 < n <= b.right - x,
                    x % 16 + n <= 16,
                    k <= n,
                    from == y * pitch + x,
                    from + n <= pitch * rows <= linear@.len(),
                    pitch * rows <= before.len(),
                    to == block_linear::offset_of(x as int, y as int, pitch as int),
                    storing(linear@, before, blocks@, b, pitch, rows, x + k, y as int),
                decreases n - k,
            {
                proof {
                    block_linear::sectors_are_contiguous(
                        x as int,
                        y as int,
                        pitch as int,
                        k as int,
                    );
                    lemma_store(linear@, before, blocks@, b, pitch, rows, x + k, y as int);
                }
                let value: u8 = linear[from + k];
                blocks[to + k] = value;
                k += 1;
            }
            x += n;
        }
        proof {
            assert(storing(linear@, before, blocks@, b, pitch, rows, b.left as int, y + 1)) by {
                assert forall|at: (int, int)|
                    #[trigger] b.before(at, b.right as int, y as int) == b.before(
                        at,
                        b.left as int,
                        y + 1,
                    ) by {}
            }
        }
        y += 1;
    }
    assert(blocks@ =~= stored(linear@, before, b, pitch, rows));
}

spec fn loading(
    linear: Seq<u8>,
    blocks: Seq<u8>,
    now: Seq<u8>,
    b: Bytes,
    pitch: usize,
    x: int,
    y: int,
) -> bool {
    &&& now.len() == linear.len()
    &&& forall|i: int|
        0 <= i < now.len() ==> #[trigger] now[i] == (if b.before(
            (i % pitch as int, i / pitch as int),
            x,
            y,
        ) {
            blocks[block_linear::offset_of(i % pitch as int, i / pitch as int, pitch as int)]
        } else {
            linear[i]
        })
}

proof fn lemma_load(
    linear: Seq<u8>,
    blocks: Seq<u8>,
    now: Seq<u8>,
    b: Bytes,
    pitch: usize,
    rows: usize,
    x: int,
    y: int,
)
    requires
        b.fits(pitch, rows),
        b.holds(x, y),
        pitch * rows <= linear.len(),
        loading(linear, blocks, now, b, pitch, x, y),
    ensures
        0 <= y * pitch + x < pitch * rows,
        loading(
            linear,
            blocks,
            now.update(y * pitch + x, blocks[block_linear::offset_of(x, y, pitch as int)]),
            b,
            pitch,
            x + 1,
            y,
        ),
{
    let p = y * pitch + x;
    lemma_row_major(x, y, pitch as int, rows as int);
    let next = now.update(p, blocks[block_linear::offset_of(x, y, pitch as int)]);
    assert forall|i: int| 0 <= i < next.len() implies #[trigger] next[i] == (if b.before(
        (i % pitch as int, i / pitch as int),
        x + 1,
        y,
    ) {
        blocks[block_linear::offset_of(i % pitch as int, i / pitch as int, pitch as int)]
    } else {
        linear[i]
    }) by {
        if i != p {
            assert(next[i] == now[i]);
            vstd::arithmetic::div_mod::lemma_fundamental_div_mod(i, pitch as int);
            assert(pitch * (i / pitch as int) == (i / pitch as int) * pitch) by (nonlinear_arith);
        }
    }
}

/// Loads the rectangle `b` of block storage into the linear copy. Bytes outside
/// the rectangle keep their value.
pub fn load_rectangle(linear: &mut [u8], blocks: &[u8], b: Bytes, pitch: usize, rows: usize)
    requires
        b.fits(pitch, rows),
        pitch * rows <= old(linear)@.len(),
        pitch * rows <= blocks@.len(),
    ensures
        final(linear)@ == loaded(old(linear)@, blocks@, b, pitch, rows),
{
    let ghost before = linear@;
    let mut y: usize = b.top;
    while y < b.bottom
        invariant
            b.fits(pitch, rows),
            b.top <= y <= b.bottom,
            pitch * rows <= before.len(),
            pitch * rows <= blocks@.len(),
            loading(before, blocks@, linear@, b, pitch, b.left as int, y as int),
        decreases b.bottom - y,
    {
        let mut x: usize = b.left;
        while x < b.right
            invariant
                b.fits(pitch, rows),
                b.top <= y < b.bottom,
                b.left <= x <= b.right,
                pitch * rows <= before.len(),
                pitch * rows <= blocks@.len(),
                loading(before, blocks@, linear@, b, pitch, x as int, y as int),
            decreases b.right - x,
        {
            let n: usize = run_length(x, b.right);
            proof {
                block_linear::offset_stays_inside(
                    x as int,
                    y as int,
                    pitch as int,
                    rows as int,
                );
                lemma_row_major(x as int, y as int, pitch as int, rows as int);
                lemma_row_major((x + n - 1) as int, y as int, pitch as int, rows as int);
            }
            let to: usize = y * pitch + x;
            let from: usize = byte_offset(x, y, pitch);
            let mut k: usize = 0;
            while k < n
                invariant
                    b.fits(pitch, rows),
                    b.top <= y < b.bottom,
                    b.left <= x,
                    0 < n <= b.right - x,
                    x % 16 + n <= 16,
                    k <= n,
                    to == y * pitch + x,
                    to + n <= pitch * rows <= before.len(),
                    pitch * rows <= blocks@.len(),
                    from == block_linear::offset_of(x as int, y as int, pitch as int),
                    loading(before, blocks@, linear@, b, pitch, x + k, y as int),
                decreases n - k,
            {
                proof {
                    block_linear::sectors_are_contiguous(
                        x as int,
                        y as int,
                        pitch as int,
                        k as int,
                    );
                    block_linear::offset_stays_inside(
                        x + k,
                        y as int,
                        pitch as int,
                        rows as int,
                    );
                    lemma_load(before, blocks@, linear@, b, pitch, rows, x + k, y as int);
                }
                let value: u8 = blocks[from + k];
                linear[to + k] = value;
                k += 1;
            }
            x += n;
        }
        proof {
            assert(loading(before, blocks@, linear@, b, pitch, b.left as int, y + 1)) by {
                assert forall|at: (int, int)|
                    #[trigger] b.before(at, b.right as int, y as int) == b.before(
                        at,
                        b.left as int,
                        y + 1,
                    ) by {}
            }
        }
        y += 1;
    }
    assert(linear@ =~= loaded(before, blocks@, b, pitch, rows));
}

/// Loading a rectangle gives back what was stored there, whatever else the
/// storage and the receiving copy held.
pub proof fn load_returns_what_was_stored(
    source: Seq<u8>,
    target: Seq<u8>,
    blocks: Seq<u8>,
    b: Bytes,
    pitch: usize,
    rows: usize,
    x: int,
    y: int,
)
    requires
        b.fits(pitch, rows),
        pitch * rows <= blocks.len(),
        pitch * rows <= target.len(),
        b.holds(x, y),
    ensures
        loaded(target, stored(source, blocks, b, pitch, rows), b, pitch, rows)[y * pitch + x]
            == source[y * pitch + x],
{
    lemma_row_major(x, y, pitch as int, rows as int);
    block_linear::offset_stays_inside(x, y, pitch as int, rows as int);
    block_linear::coordinates_are_inverse(x, y, pitch as int, rows as int);
}

/// `to` with the rectangle replaced by that of `from`, where both are linear.
pub open spec fn copied(from: Seq<u8>, to: Seq<u8>, b: Bytes, pitch: usize) -> Seq<u8> {
    Seq::new(
        to.len(),
        |i: int|
            if b.holds(i % pitch as int, i / pitch as int) {
                from[i]
            } else {
                to[i]
            },
    )
}

spec fn copying(from: Seq<u8>, to: Seq<u8>, now: Seq<u8>, b: Bytes, pitch: usize, x: int, y: int) -> bool {
    &&& now.len() == to.len()
    &&& forall|i: int|
        0 <= i < now.len() ==> #[trigger] now[i] == (if b.before(
            (i % pitch as int, i / pitch as int),
            x,
            y,
        ) {
            from[i]
        } else {
            to[i]
        })
}

/// Copies the rectangle `b` between two linear images of one layout, row by row.
pub fn copy_rows(from: &[u8], to: &mut [u8], b: Bytes, pitch: usize, rows: usize)
    requires
        b.left <= b.right <= pitch,
        b.top <= b.bottom <= rows,
        pitch * rows <= from@.len(),
        pitch * rows <= old(to)@.len(),
    ensures
        final(to)@ == copied(from@, old(to)@, b, pitch),
{
    let ghost before = to@;
    let mut y: usize = b.top;
    while y < b.bottom
        invariant
            b.left <= b.right <= pitch,
            b.top <= y <= b.bottom <= rows,
            pitch * rows <= from@.len(),
            pitch * rows <= before.len(),
            copying(from@, before, to@, b, pitch, b.left as int, y as int),
        decreases b.bottom - y,
    {
        proof {
            if b.left < b.right {
                lemma_row_major(b.left as int, y as int, pitch as int, rows as int);
            }
            assert(y * pitch <= pitch * rows) by (nonlinear_arith)
                requires
                    y <= rows,
            ;
            assert(pitch * rows <= from.len());
        }
        let row: usize = y * pitch;
        let mut x: usize = b.left;
        while x < b.right
            invariant
                b.left <= x <= b.right <= pitch,
                b.top <= y < b.bottom <= rows,
                row == y * pitch,
                pitch * rows <= from.len(),
                pitch * rows <= from@.len(),
                pitch * rows <= before.len(),
                copying(from@, before, to@, b, pitch, x as int, y as int),
            decreases b.right - x,
        {
            proof {
                lemma_row_major(x as int, y as int, pitch as int, rows as int);
            }
            let ghost now = to@;
            let value: u8 = from[row + x];
            to[row + x] = value;
            proof {
                assert forall|i: int| 0 <= i < to@.len() implies #[trigger] to@[i] == (if b.before(
                    (i % pitch as int, i / pitch as int),
                    x + 1,
                    y as int,
                ) {
                    from@[i]
                } else {
                    before[i]
                }) by {
                    if i != row + x {
                        assert(to@[i] == now[i]);
                        vstd::arithmetic::div_mod::lemma_fundamental_div_mod(i, pitch as int);
                        assert(pitch * (i / pitch as int) == (i / pitch as int) * pitch)
                            by (nonlinear_arith);
                    }
                }
            }
            x += 1;
        }
        proof {
            assert(copying(from@, before, to@, b, pitch, b.left as int, y + 1)) by {
                assert forall|at: (int, int)|
                    #[trigger] b.before(at, b.right as int, y as int) == b.before(
                        at,
                        b.left as int,
                        y + 1,
                    ) by {}
            }
        }
        y += 1;
    }
    assert(to@ =~= copied(from@, before, b, pitch));
}

/// Rows that the storage of an image has room for.
pub open spec fn storage_rows(i: Image) -> int {
    if i.layout.modifier == Modifier::Linear {
        i.create.height as int
    } else {
        block_rows(i.create.height)
    }
}

/// The rows of the image lie in its storage.
pub open spec fn image_wf(i: Image) -> bool {
    &&& i.create.width <= 16384
    &&& i.create.height <= 16384
    &&& i.create.width * 4 <= i.layout.luma.row_pitch <= 0x1_0000
    &&& i.layout.modifier == Modifier::BlockLinear ==> i.layout.luma.row_pitch % 64 == 0
}

/// The bytes of the rectangle of a transfer.
pub open spec fn transfer_bytes(t: Transfer) -> Bytes {
    Bytes {
        left: (t.dst_x * 4) as usize,
        right: ((t.dst_x + t.width) * 4) as usize,
        top: t.dst_y as usize,
        bottom: (t.dst_y + t.height) as usize,
    }
}

/// Moves a rectangle from the staging copy into the image, or back where
/// `readback` is set. Everything outside the rectangle keeps its value, and a
/// refused transfer changes nothing.
pub fn transfer(
    m: &Memory,
    lost: bool,
    t: &Transfer,
    readback: bool,
    staging: &mut [u8],
    storage: &mut [u8],
) -> (r: Result<(), &'static str>)
    requires
        m.kind matches Kind::Image(i) ==> {
            &&& image_wf(i)
            &&& i.layout.luma.row_pitch * storage_rows(i) <= old(staging)@.len()
            &&& i.layout.luma.row_pitch * storage_rows(i) <= old(storage)@.len()
        },
    ensures
        match transfer_spec(*m, lost, *t) {
            Err(e) => {
                &&& r == Err::<(), &'static str>(e)
                &&& final(staging)@ == old(staging)@
                &&& final(storage)@ == old(storage)@
            },
            Ok(i) => {
                let pitch = i.layout.luma.row_pitch as usize;
                let rows = storage_rows(i) as usize;
                let b = transfer_bytes(*t);
                let linear = i.layout.modifier == Modifier::Linear;
                &&& r is Ok
                &&& readback ==> final(storage)@ == old(storage)@ && final(staging)@ == (if linear {
                    copied(old(storage)@, old(staging)@, b, pitch)
                } else {
                    loaded(old(staging)@, old(storage)@, b, pitch, rows)
                })
                &&& !readback ==> final(staging)@ == old(staging)@ && final(storage)@ == (
                if linear {
                    copied(old(staging)@, old(storage)@, b, pitch)
                } else {
                    stored(old(staging)@, old(storage)@, b, pitch, rows)
                })
            },
        },
{
    let i = match check_transfer(m, lost, t) {
        Err(e) => {
            return Err(e);
        },
        Ok(i) => i,
    };
    let b = Bytes {
        left: t.dst_x as usize * 4,
        right: (t.dst_x as usize + t.width as usize) * 4,
        top: t.dst_y as usize,
        bottom: t.dst_y as usize + t.height as usize,
    };
    let pitch: usize = i.layout.luma.row_pitch as usize;
    if i.layout.modifier == Modifier::Linear {
        let rows: usize = i.create.height as usize;
        if readback {
            copy_rows(storage, staging, b, pitch, rows);
        } else {
            copy_rows(staging, storage, b, pitch, rows);
        }
        return Ok(());
    }
    let rows: usize = ((i.create.height as usize + 127) / 128) * 128;
    assert(pitch * rows <= 0x1_0000 * 0x4000) by (nonlinear_arith)
        requires
            pitch <= 0x1_0000,
            rows <= 0x4000,
    ;
    if readback {
        load_rectangle(staging, storage, b, pitch, rows);
    } else {
        store_rectangle(staging, storage, b, pitch, rows);
    }
    Ok(())
}

/// Largest coded side of an imported image.
pub const IMPORT_LIMIT: u32 = 4096;

/// Code of the two-GOB-high block order that the video decoder writes.
pub const VIDEO_BLOCK_MODIFIER: u64 = 0x0300_0000_000f_e011;

/// One plane of an image that another device produced.
#[derive(Clone, Copy, Debug, PartialEq, Eq, Structural)]
pub struct SharedPlane {
    pub buffer_index: u32,
    pub offset: u64,
    pub size: u64,
    pub row_pitch: u32,
}

#[derive(Clone, Copy, Debug, PartialEq, Eq, Structural)]
pub enum Matrix {
    Bt601,
    Bt709,
    Other,
}

#[derive(Clone, Copy, Debug, PartialEq, Eq, Structural)]
pub enum Range {
    Limited,
    Full,
    Other,
}

#[derive(Clone, Copy, Debug, PartialEq, Eq, Structural)]
pub enum Siting {
    Cosited,
    Midpoint,
    Other,
}

#[derive(Clone, Copy, Debug, PartialEq, Eq, Structural)]
pub struct Color {
    pub matrix: Matrix,
    pub range: Range,
    pub chroma_x: Siting,
    pub chroma_y: Siting,
    pub primaries: u32,
    pub transfer: u32,
    pub reserved_clear: bool,
}

/// An image that another device produced, as its owner describes it.
#[derive(Clone, Copy, Debug)]
pub struct SharedDescriptor {
    pub nv12: bool,
    pub modifier: u64,
    pub width: u32,
    pub height: u32,
    pub buffer_count: usize,
    pub buffer_sizes: [u64; 4],
    pub luma: SharedPlane,
    pub chroma: SharedPlane,
}

impl SharedDescriptor {
    /// The owner's own consistency: at most four buffers, and planes in them.
    pub open spec fn wf(self) -> bool {
        &&& 1 <= self.buffer_count <= 4
        &&& self.luma.buffer_index < self.buffer_count
        &&& self.chroma.buffer_index < self.buffer_count
        &&& self.luma.offset + 0x100_0000 <= u64::MAX
        &&& self.chroma.offset + 0x100_0000 <= u64::MAX
    }
}

pub open spec fn conversion_supported(d: SharedDescriptor, c: Color) -> bool {
    &&& d.nv12
    &&& d.modifier == 0 || d.modifier == VIDEO_BLOCK_MODIFIER
    &&& d.width <= IMPORT_LIMIT
    &&& d.height <= IMPORT_LIMIT
    &&& c.matrix != Matrix::Other
    &&& c.range != Range::Other
    &&& c.chroma_x != Siting::Other
    &&& c.chroma_y != Siting::Other
    &&& c.reserved_clear
    &&& c.primaries == 0 || c.primaries == 1 || c.primaries == 5 || c.primaries == 6
    &&& c.transfer == 0 || c.transfer == 1 || c.transfer == 6 || c.transfer == 13
}

/// Start of buffer `k` when each buffer takes whole pages.
pub open spec fn buffer_start(sizes: Seq<u64>, k: nat) -> int
    decreases k,
{
    if k == 0 {
        0
    } else {
        buffer_start(sizes, (k - 1) as nat) + ((sizes[k - 1] + 4095) / 4096) * 4096
    }
}

/// Whether the first `k` buffers can be laid out below the end of the address
/// range.
pub open spec fn buffers_addressable(sizes: Seq<u64>, k: nat) -> bool
    decreases k,
{
    k == 0 || (buffers_addressable(sizes, (k - 1) as nat) && sizes[k - 1] + 4095 <= u64::MAX
        && buffer_start(sizes, k) <= u64::MAX)
}

/// Row alignment, offset alignment and size of a plane that the sampler can read.
pub open spec fn plane_supported(p: SharedPlane, tiled: bool, row_bytes: int, rows: int) -> bool {
    &&& row_bytes <= p.row_pitch
    &&& p.row_pitch as int % (if tiled {
        64
    } else {
        32int
    }) == 0
    &&& p.offset as int % (if tiled {
        512
    } else {
        32int
    }) == 0
    &&& p.row_pitch * (if tiled {
        ((rows + 15) / 16) * 16
    } else {
        rows
    }) <= p.size
    &&& p.size <= u32::MAX
}

pub open spec fn plane_layout(p: SharedPlane, start: int, bytes_per_block: u32) -> PlaneLayout {
    PlaneLayout {
        offset: (start + p.offset) as u64,
        size: p.size,
        row_pitch: p.row_pitch,
        array_pitch: p.size as u32,
        block_width: 1,
        block_height: 1,
        bytes_per_block,
    }
}

/// What an import is answered: the layout of both planes in one mapping.
pub open spec fn import_spec(d: SharedDescriptor, c: Color) -> Result<ImageLayout, &'static str> {
    let sizes = d.buffer_sizes@;
    let n = d.buffer_count as nat;
    let tiled = d.modifier != 0;
    if !conversion_supported(d, c) {
        Err("GM20B shared image format/modifier/conversion unsupported")
    } else if !buffers_addressable(sizes, n) {
        Err("image overflow")
    } else if buffer_start(sizes, n) > 0x100_0000 {
        Err("GM20B imported image too large")
    } else if !plane_supported(d.luma, tiled, d.width as int, d.height as int) || !plane_supported(
        d.chroma,
        tiled,
        ((d.width + 1) / 2) * 2,
        (d.height + 1) / 2,
    ) {
        Err("GM20B imported plane layout unsupported")
    } else {
        Ok(
            ImageLayout {
                modifier: if tiled {
                    Modifier::Other(d.modifier)
                } else {
                    Modifier::Linear
                },
                total_size: buffer_start(sizes, n) as u64,
                alignment: 4096,
                plane_count: 2,
                luma: plane_layout(d.luma, buffer_start(sizes, d.luma.buffer_index as nat), 1),
                chroma: plane_layout(d.chroma, buffer_start(sizes, d.chroma.buffer_index as nat), 2),
            },
        )
    }
}

fn check_plane(p: &SharedPlane, tiled: bool, row_bytes: u32, rows: u32) -> (r: bool)
    requires
        rows <= 4096,
    ensures
        r == plane_supported(*p, tiled, row_bytes as int, rows as int),
{
    let stored_rows: u64 = if tiled {
        ((rows as u64 + 15) / 16) * 16
    } else {
        rows as u64
    };
    let row_step: u32 = if tiled {
        64
    } else {
        32
    };
    let offset_step: u64 = if tiled {
        512
    } else {
        32
    };
    assert(p.row_pitch * stored_rows <= 0xffff_ffff * 4096) by (nonlinear_arith)
        requires
            p.row_pitch <= 0xffff_ffff,
            stored_rows <= 4096,
    ;
    let least: u64 = p.row_pitch as u64 * stored_rows;
    p.row_pitch >= row_bytes && p.row_pitch % row_step == 0 && p.offset % offset_step == 0 && p.size
        >= least && p.size <= 0xffff_ffff
}

pub proof fn lemma_buffer_start(sizes: Seq<u64>, k: nat, n: nat)
    requires
        k <= n,
    ensures
        0 <= buffer_start(sizes, k) <= buffer_start(sizes, n),
        buffer_start(sizes, k) % 4096 == 0,
    decreases n,
{
    if k < n {
        lemma_buffer_start(sizes, k, (n - 1) as nat);
    } else if k > 0 {
        lemma_buffer_start(sizes, (k - 1) as nat, (k - 1) as nat);
    }
}

proof fn lemma_not_addressable(sizes: Seq<u64>, k: nat, n: nat)
    requires
        k <= n,
        !buffers_addressable(sizes, k),
    ensures
        !buffers_addressable(sizes, n),
    decreases n,
{
    if k < n {
        lemma_not_addressable(sizes, k, (n - 1) as nat);
    }
}

/// Start of each buffer, and the end of the last.
fn buffer_starts(d: &SharedDescriptor) -> (r: Option<([u64; 4], u64)>)
    requires
        d.wf(),
    ensures
        match r {
            None => !buffers_addressable(d.buffer_sizes@, d.buffer_count as nat),
            Some((starts, end)) => {
                &&& buffers_addressable(d.buffer_sizes@, d.buffer_count as nat)
                &&& end == buffer_start(d.buffer_sizes@, d.buffer_count as nat)
                &&& forall|k: int|
                    0 <= k < d.buffer_count ==> #[trigger] starts@[k] == buffer_start(
                        d.buffer_sizes@,
                        k as nat,
                    )
            },
        },
{
    let mut starts: [u64; 4] = [0; 4];
    let mut size: u64 = 0;
    let mut k: usize = 0;
    while k < d.buffer_count
        invariant
            d.wf(),
            k <= d.buffer_count,
            buffers_addressable(d.buffer_sizes@, k as nat),
            size == buffer_start(d.buffer_sizes@, k as nat),
            forall|j: int|
                0 <= j < k ==> #[trigger] starts@[j] == buffer_start(d.buffer_sizes@, j as nat),
        decreases d.buffer_count - k,
    {
        proof {
            if !buffers_addressable(d.buffer_sizes@, (k + 1) as nat) {
                lemma_not_addressable(
                    d.buffer_sizes@,
                    (k + 1) as nat,
                    d.buffer_count as nat,
                );
            }
        }
        starts[k] = size;
        let padded: u64 = match d.buffer_sizes[k].checked_add(4095) {
            None => {
                return None;
            },
            Some(padded) => (padded / 4096) * 4096,
        };
        size = match size.checked_add(padded) {
            None => {
                return None;
            },
            Some(size) => size,
        };
        k += 1;
    }
    Some((starts, size))
}

/// Lays the planes of a shared image out in one mapping. The owner's description
/// is taken as checked by the owner.
pub fn plan_import(d: &SharedDescriptor, c: &Color) -> (r: Result<ImageLayout, &'static str>)
    requires
        d.wf(),
    ensures
        r == import_spec(*d, *c),
{
    let matrix_ok = c.matrix != Matrix::Other;
    let range_ok = c.range != Range::Other;
    let siting_ok = c.chroma_x != Siting::Other && c.chroma_y != Siting::Other;
    let primaries_ok = c.primaries == 0 || c.primaries == 1 || c.primaries == 5 || c.primaries == 6;
    let transfer_ok = c.transfer == 0 || c.transfer == 1 || c.transfer == 6 || c.transfer == 13;
    if !d.nv12 || !(d.modifier == 0 || d.modifier == VIDEO_BLOCK_MODIFIER) || d.width > IMPORT_LIMIT
        || d.height > IMPORT_LIMIT || !matrix_ok || !range_ok || !siting_ok || !c.reserved_clear
        || !primaries_ok || !transfer_ok {
        return Err("GM20B shared image format/modifier/conversion unsupported");
    }
    let (starts, size) = match buffer_starts(d) {
        None => {
            return Err("image overflow");
        },
        Some(laid) => laid,
    };
    if size > 0x100_0000 {
        return Err("GM20B imported image too large");
    }
    let tiled = d.modifier != 0;
    if !check_plane(&d.luma, tiled, d.width, d.height) || !check_plane(
        &d.chroma,
        tiled,
        ((d.width + 1) / 2) * 2,
        (d.height + 1) / 2,
    ) {
        return Err("GM20B imported plane layout unsupported");
    }
    let luma_start: u64 = starts[d.luma.buffer_index as usize];
    let chroma_start: u64 = starts[d.chroma.buffer_index as usize];
    assert(luma_start == buffer_start(d.buffer_sizes@, d.luma.buffer_index as nat));
    assert(chroma_start == buffer_start(d.buffer_sizes@, d.chroma.buffer_index as nat));
    proof {
        let n = d.buffer_count as nat;
        lemma_buffer_start(d.buffer_sizes@, d.luma.buffer_index as nat, n);
        lemma_buffer_start(d.buffer_sizes@, d.chroma.buffer_index as nat, n);
    }
    Ok(
        ImageLayout {
            modifier: if tiled {
                Modifier::Other(d.modifier)
            } else {
                Modifier::Linear
            },
            total_size: size,
            alignment: 4096,
            plane_count: 2,
            luma: PlaneLayout {
                offset: luma_start + d.luma.offset,
                size: d.luma.size,
                row_pitch: d.luma.row_pitch,
                array_pitch: d.luma.size as u32,
                block_width: 1,
                block_height: 1,
                bytes_per_block: 1,
            },
            chroma: PlaneLayout {
                offset: chroma_start + d.chroma.offset,
                size: d.chroma.size,
                row_pitch: d.chroma.row_pitch,
                array_pitch: d.chroma.size as u32,
                block_width: 1,
                block_height: 1,
                bytes_per_block: 2,
            },
        },
    )
}

/// The planes of an imported image lie in its mapping, in buffers that do not
/// share a page.
pub proof fn imported_buffers_are_apart(sizes: Seq<u64>, i: nat, j: nat)
    requires
        i < j <= sizes.len(),
    ensures
        buffer_start(sizes, i) + sizes[i as int] <= buffer_start(sizes, j),
        buffer_start(sizes, i) % 4096 == 0,
        buffer_start(sizes, j) % 4096 == 0,
{
    lemma_buffer_start(sizes, (i + 1) as nat, j);
    lemma_buffer_start(sizes, i, j);
    lemma_buffer_start(sizes, j, j);
}

/// A linear image has rows of whole 256 bytes; one in blocks has rows of whole 64 bytes and
/// whole blocks of 128 rows. Neither wastes as much as one more. Depths have blocks of their
/// own, and a color image has blocks where it goes with depths or is drawn and shown.
pub proof fn images_have_room_and_no_more(c: ImageCreate)
    requires
        plan_image_spec(c) is Ok,
    ensures
        c.format == Format::Bgra8Unorm || c.format == Format::Depth32Float,
        1 <= c.width <= 16384 && 1 <= c.height <= 16384,
        c.mip_levels == 1 && c.array_layers == 1 && !c.cube,
        plan_image_spec(c)->Ok_0 is Blocks <==> c.format == Format::Depth32Float
            || c.usage.depth_compatible || (c.width == 1280 && c.height == 720
            && c.usage.presentable && c.usage.render_target),
        match plan_image_spec(c)->Ok_0 {
            ImagePlan::Linear(pitch) => pitch % 256 == 0 && 4 * c.width <= pitch < 4 * c.width + 256,
            ImagePlan::Blocks(l) => {
                &&& l.modifier == if c.format == Format::Depth32Float {
                    Modifier::ZetaBlockLinear
                } else {
                    Modifier::BlockLinear
                }
                &&& l.plane_count == 1 && l.alignment == 4096
                &&& l.luma.offset == 0 && l.luma.size == l.total_size && l.luma.array_pitch
                    == l.total_size
                &&& l.luma.block_width == 1 && l.luma.block_height == 1 && l.luma.bytes_per_block
                    == 4
                &&& l.luma.row_pitch % 64 == 0 && 4 * c.width <= l.luma.row_pitch < 4 * c.width + 64
                &&& exists|rows: int|
                    #![trigger l.luma.row_pitch * rows]
                    rows % 128 == 0 && c.height <= rows < c.height + 128 && l.total_size
                        == l.luma.row_pitch * rows
            },
        },
{
    if let ImagePlan::Blocks(l) = plan_image_spec(c)->Ok_0 {
        let rows = block_rows(c.height);
        let pitch = block_pitch(c.width);
        assert(0 < pitch <= 65536 && 0 < rows <= 16384);
        assert(0 <= pitch * rows <= 65536 * 16384) by (nonlinear_arith)
            requires
                0 < pitch <= 65536,
                0 < rows <= 16384,
        ;
        assert(l.luma.row_pitch * rows == pitch * rows);
        assert(rows % 128 == 0 && c.height <= rows < c.height + 128);
    }
}

/// A transfer names a rectangle of the image by its first byte in the staging copy, which
/// has the image's rows.
pub proof fn transfers_name_their_first_byte(t: Transfer, c: ImageCreate, p: PlaneLayout)
    requires
        t.matches(c, p),
        4 * c.width <= p.row_pitch,
    ensures
        t.backing_offset as int / p.row_pitch as int == t.dst_y,
        t.backing_offset as int % p.row_pitch as int == 4 * t.dst_x,
        t.backing_stride == p.row_pitch && t.backing_layer_stride == p.array_pitch,
        1 <= t.width && t.dst_x + t.width <= c.width,
        1 <= t.height && t.dst_y + t.height <= c.height,
{
    vstd::arithmetic::div_mod::lemma_fundamental_div_mod_converse(
        t.backing_offset as int,
        p.row_pitch as int,
        t.dst_y as int,
        4 * t.dst_x,
    );
}

/// A transfer moves the four bytes of each pixel of its rectangle, and no other.
pub proof fn transfers_move_whole_pixels(t: Transfer, x: int, y: int, part: int)
    requires
        0 <= part < 4,
        t.dst_x + t.width <= 16384,
        t.dst_y + t.height <= 16384,
    ensures
        transfer_bytes(t).holds(4 * x + part, y) <==> t.dst_x <= x < t.dst_x + t.width && t.dst_y
            <= y < t.dst_y + t.height,
{
}

/// An imported picture has both planes where its owner has them, the chroma with two bytes
/// for four pixels, each plane with rows that are long enough and aligned for the sampler and
/// with enough of them, in at most sixteen mebibytes.
pub proof fn imports_keep_both_planes(d: SharedDescriptor, c: Color, l: ImageLayout)
    requires
        d.wf(),
        import_spec(d, c) == Ok::<ImageLayout, &'static str>(l),
    ensures
        l.plane_count == 2 && l.alignment == 4096 && l.total_size <= 0x100_0000,
        d.modifier == 0 <==> l.modifier == Modifier::Linear,
        d.modifier != 0 ==> d.modifier == 0x0300_0000_000f_e011 && l.modifier == Modifier::Other(
            0x0300_0000_000f_e011,
        ),
        l.luma.offset == buffer_start(d.buffer_sizes@, d.luma.buffer_index as nat) + d.luma.offset,
        l.chroma.offset == buffer_start(d.buffer_sizes@, d.chroma.buffer_index as nat)
            + d.chroma.offset,
        l.luma.row_pitch == d.luma.row_pitch && l.luma.size == d.luma.size,
        l.chroma.row_pitch == d.chroma.row_pitch && l.chroma.size == d.chroma.size,
        l.luma.bytes_per_block == 1 && l.chroma.bytes_per_block == 2,
        d.nv12 && d.width <= 4096 && d.height <= 4096,
        d.width <= l.luma.row_pitch && d.width <= l.chroma.row_pitch,
        d.modifier == 0 ==> l.luma.row_pitch % 32 == 0 && l.chroma.row_pitch % 32 == 0
            && d.luma.offset % 32 == 0 && d.chroma.offset % 32 == 0,
        d.modifier != 0 ==> l.luma.row_pitch % 64 == 0 && l.chroma.row_pitch % 64 == 0
            && d.luma.offset % 512 == 0 && d.chroma.offset % 512 == 0,
        l.luma.row_pitch * d.height <= l.luma.size,
        l.chroma.row_pitch * ((d.height + 1) / 2) <= l.chroma.size,
        c.primaries == 0 || c.primaries == 1 || c.primaries == 5 || c.primaries == 6,
        c.transfer == 0 || c.transfer == 1 || c.transfer == 6 || c.transfer == 13,
        c.matrix != Matrix::Other && c.range != Range::Other && c.chroma_x != Siting::Other
            && c.chroma_y != Siting::Other,
{
    let n = d.buffer_count as nat;
    lemma_buffer_start(d.buffer_sizes@, d.luma.buffer_index as nat, n);
    lemma_buffer_start(d.buffer_sizes@, d.chroma.buffer_index as nat, n);
    let tall = ((d.height as int + 15) / 16) * 16;
    let half = (((d.height as int + 1) / 2 + 15) / 16) * 16;
    let p = l.luma.row_pitch as int;
    let q = l.chroma.row_pitch as int;
    let h = d.height as int;
    let g = (d.height as int + 1) / 2;
    assert(p * h <= p * tall) by (nonlinear_arith)
        requires
            h <= tall,
            0 <= p,
    ;
    assert(q * g <= q * half) by (nonlinear_arith)
        requires
            g <= half,
            0 <= q,
    ;
}

} // verus!
