//! Scanout storage of the panel: 1280 by 720 pixels in blocks of 16 GOBs.
use vstd::prelude::*;

use crate::gpu::block_linear;
use crate::gpu::block_linear::byte_offset;

verus! {

pub const WIDTH: usize = 1280;

pub const HEIGHT: usize = 720;

pub const STRIDE: usize = 5120;

pub const SIZE: usize = 3_932_160;

/// How the display controller names this order: not as the graphics processor or
/// the buffer modifier do.
pub const SURFACE_KIND: u32 = 0x42;

/// Storage offset of a pixel.
pub fn pixel_offset(x: usize, y: usize) -> (r: usize)
    requires
        4 * x <= usize::MAX,
        block_linear::offset_of(4 * x, y as int, 5120) <= usize::MAX,
    ensures
        r == block_linear::offset_of(4 * x, y as int, 5120),
{
    byte_offset(4 * x, y, STRIDE)
}

/// What is wrong with the buffers of an upload.
pub open spec fn upload_error(source: nat, stride: usize, destination: nat) -> Option<&'static str> {
    if stride * HEIGHT > usize::MAX {
        Some("Tegra block-linear source size overflow")
    } else if stride < STRIDE || stride % 64 != 0 || source < stride * HEIGHT || destination
        < SIZE {
        Some("Tegra block-linear upload buffer layout mismatch")
    } else {
        None
    }
}

/// The storage after an upload: each place that holds a visible byte has it from
/// the image, all others are as they were.
pub open spec fn uploaded(source: Seq<u8>, stride: int, before: Seq<u8>) -> Seq<u8> {
    Seq::new(
        before.len(),
        |o: int|
            {
                let at = block_linear::coordinates_of(o, 5120);
                if o < SIZE && at.1 < HEIGHT {
                    source[at.1 * stride + at.0]
                } else {
                    before[o]
                }
            },
    )
}

/// Puts an ordinary image into storage that is not shown. Padding of the image is
/// skipped; padding of the storage stays.
pub fn upload(source: &[u8], source_stride: usize, destination: &mut [u8]) -> (r: Result<
    (),
    &'static str,
>)
    ensures
        match r {
            Err(e) => upload_error(source@.len(), source_stride, old(destination)@.len()) == Some(e)
                && final(destination)@ == old(destination)@,
            Ok(_) => upload_error(source@.len(), source_stride, old(destination)@.len()) is None
                && final(destination)@ == uploaded(
                source@,
                source_stride as int,
                old(destination)@,
            ),
        },
{
    let required: usize = match source_stride.checked_mul(HEIGHT) {
        None => {
            return Err("Tegra block-linear source size overflow");
        },
        Some(required) => required,
    };
    if source_stride < STRIDE || source_stride % 64 != 0 || source.len() < required
        || destination.len() < SIZE {
        return Err("Tegra block-linear upload buffer layout mismatch");
    }
    let ghost whole = uploaded(source@, source_stride as int, destination@);
    let mut o: usize = 0;
    while o < SIZE
        invariant
            o <= SIZE,
            STRIDE <= source_stride,
            required == source_stride * HEIGHT,
            required <= source@.len(),
            SIZE <= destination@.len(),
            destination@.len() == old(destination)@.len(),
            whole == uploaded(source@, source_stride as int, old(destination)@),
            forall|k: int|
                0 <= k < destination@.len() ==> #[trigger] destination@[k] == if k < o {
                    whole[k]
                } else {
                    old(destination)@[k]
                },
        decreases SIZE - o,
    {
        let block: usize = o / 8192;
        let inner: usize = o % 8192;
        let x: usize = (block % 80) * 64 + ((inner / 256) % 2) * 32 + ((inner / 32) % 2) * 16
            + inner % 16;
        let y: usize = (block / 80) * 128 + (inner / 512) * 8 + ((inner / 64) % 4) * 2 + (inner
            / 16) % 2;
        assert((x as int, y as int) == block_linear::coordinates_of(o as int, 5120));
        if y < HEIGHT {
            proof {
                assert(y * source_stride + x < source_stride * HEIGHT) by (nonlinear_arith)
                    requires
                        y < HEIGHT,
                        x < STRIDE <= source_stride,
                        HEIGHT == 720,
                ;
                assert(0 <= y * source_stride) by (nonlinear_arith)
                    requires
                        source_stride >= 0,
                        y >= 0,
                ;
            }
            destination[o] = source[y * source_stride + x];
        }
        o = o + 1;
    }
    assert(destination@ =~= whole);
    Ok(())
}

/// Every visible byte arrives at its own offset.
pub proof fn bytes_arrive_at_their_offsets(
    source: Seq<u8>,
    stride: int,
    before: Seq<u8>,
    x: int,
    y: int,
)
    requires
        0 <= x < STRIDE,
        0 <= y < HEIGHT,
        SIZE <= before.len(),
    ensures
        uploaded(source, stride, before)[block_linear::offset_of(x, y, 5120)] == source[y * stride
            + x],
{
    block_linear::coordinates_are_inverse(x, y, 5120, 768);
    block_linear::offset_stays_inside(x, y, 5120, 768);
    lemma_place(source, stride, before, block_linear::offset_of(x, y, 5120), x, y);
}

proof fn lemma_place(source: Seq<u8>, stride: int, before: Seq<u8>, o: int, x: int, y: int)
    requires
        block_linear::coordinates_of(o, 5120) == (x, y),
        0 <= o < SIZE,
        y < HEIGHT,
        SIZE <= before.len(),
    ensures
        uploaded(source, stride, before)[o] == source[y * stride + x],
{
}

} // verus!
