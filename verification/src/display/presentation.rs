//! Which buffer is shown, which may be written, and what may be presented next.
use vstd::prelude::*;

use crate::display::block_linear;
use crate::display::scanout::{PixelFormat, HEIGHT, STRIDE, WIDTH};

verus! {

/// Shape of a framebuffer.
#[derive(Clone, Copy, Debug, PartialEq, Eq, Structural)]
pub struct FramebufferConfig {
    pub width: u32,
    pub height: u32,
    pub stride: u32,
    pub format: PixelFormat,
}

/// Part of an image.
#[derive(Clone, Copy, Debug, PartialEq, Eq, Structural)]
pub struct DisplayRegion {
    pub x: u32,
    pub y: u32,
    pub width: u32,
    pub height: u32,
}

pub open spec fn config_ok(config: FramebufferConfig) -> bool {
    &&& config.width == 1280
    &&& config.height == 720
    &&& config.stride == 5120
    &&& config.format == PixelFormat::BGRA8888
}

pub fn validate_config(config: &FramebufferConfig) -> (r: Result<(), &'static str>)
    ensures
        r == if config_ok(*config) {
            Ok::<(), &'static str>(())
        } else {
            Err("Tegra DC framebuffer layout mismatch")
        },
{
    if config.width != WIDTH || config.height != HEIGHT || config.stride != STRIDE || config.format
        != PixelFormat::BGRA8888 {
        return Err("Tegra DC framebuffer layout mismatch");
    }
    Ok(())
}

/// A region that is not empty and lies inside the image.
pub open spec fn region_ok(region: DisplayRegion) -> bool {
    &&& region.width > 0
    &&& region.height > 0
    &&& region.x + region.width <= 1280
    &&& region.y + region.height <= 720
}

pub fn validate_region(region: DisplayRegion) -> (r: Result<(), &'static str>)
    ensures
        r == if region_ok(region) {
            Ok::<(), &'static str>(())
        } else {
            Err("Tegra DC damage region exceeds image")
        },
{
    if region.width == 0 || region.height == 0 || region.x as u64 + region.width as u64
        > WIDTH as u64 || region.y as u64 + region.height as u64 > HEIGHT as u64 {
        return Err("Tegra DC damage region exceeds image");
    }
    Ok(())
}

/// The memory of an image of the graphics processor.
#[derive(Clone, Copy, Debug, PartialEq, Eq, Structural)]
pub enum Backing {
    /// In an order of its own; whether it is the one that the controller can fetch.
    Modified { fetchable: bool, stride: u32, size: u64, address: u64, format: PixelFormat },
    /// Row after row, in a number of pieces.
    Linear { segments: usize, stride: u32, size: u64, address: u64, format: PixelFormat },
    Absent,
}

/// How an image of the graphics processor is shown: as it is, or after it was copied.
#[derive(Clone, Copy, Debug, PartialEq, Eq, Structural)]
pub struct GpuScanout {
    pub address: u64,
    pub stride: u32,
    pub format: PixelFormat,
    pub direct: bool,
}

/// The bytes that are fetched or copied.
pub open spec fn required(scanout: GpuScanout) -> int {
    if scanout.direct {
        block_linear::SIZE as int
    } else {
        scanout.stride * 720
    }
}

pub open spec fn shape_ok(scanout: GpuScanout, width: u32, height: u32) -> bool {
    &&& width == 1280
    &&& height == 720
    &&& scanout.address % 4096 == 0
    &&& scanout.address + required(scanout) <= 0x4_0000_0000
    &&& scanout.format == PixelFormat::BGRA8888 || scanout.format == PixelFormat::XRGB8888
}

pub open spec fn gpu_spec(backing: Backing, width: u32, height: u32) -> Result<
    GpuScanout,
    &'static str,
> {
    let found = match backing {
        Backing::Modified { fetchable, stride, size, address, format } => if !fetchable || stride
            != 5120 || size < block_linear::SIZE {
            Err("unsupported Tegra DC modified GPU scanout layout")
        } else {
            Ok(GpuScanout { address, stride, format, direct: true })
        },
        Backing::Linear { segments, stride, size, address, format } => if segments != 1 || stride
            < 5120 || stride > 0xffff || stride % 64 != 0 || size < stride * 720 {
            Err("unsupported Tegra DC linear GPU scanout layout")
        } else {
            Ok(GpuScanout { address, stride, format, direct: false })
        },
        Backing::Absent => Err("Tegra DC requires GPU backing"),
    };
    match found {
        Err(e) => Err(e),
        Ok(scanout) => if shape_ok(scanout, width, height) {
            Ok(scanout)
        } else {
            Err("unsupported Tegra DC GPU scanout layout")
        },
    }
}

/// Whether an image of the graphics processor can be shown, and how.
pub fn gpu_scanout(backing: Backing, width: u32, height: u32) -> (r: Result<
    GpuScanout,
    &'static str,
>)
    ensures
        r == gpu_spec(backing, width, height),
{
    let scanout = match backing {
        Backing::Modified { fetchable, stride, size, address, format } => {
            if !fetchable || stride != STRIDE || size < block_linear::SIZE as u64 {
                return Err("unsupported Tegra DC modified GPU scanout layout");
            }
            GpuScanout { address, stride, format, direct: true }
        },
        Backing::Linear { segments, stride, size, address, format } => {
            if segments != 1 || stride < STRIDE || stride > 0xffff || stride % 64 != 0 || size
                < stride as u64 * HEIGHT as u64 {
                return Err("unsupported Tegra DC linear GPU scanout layout");
            }
            GpuScanout { address, stride, format, direct: false }
        },
        Backing::Absent => {
            return Err("Tegra DC requires GPU backing");
        },
    };
    let bytes: u64 = if scanout.direct {
        block_linear::SIZE as u64
    } else {
        scanout.stride as u64 * HEIGHT as u64
    };
    let shape: bool = scanout.format == PixelFormat::BGRA8888 || scanout.format
        == PixelFormat::XRGB8888;
    if width != WIDTH || height != HEIGHT || scanout.address % 4096 != 0 || scanout.address
        > 0x4_0000_0000 || scanout.address + bytes > 0x4_0000_0000 || !shape {
        return Err("unsupported Tegra DC GPU scanout layout");
    }
    Ok(scanout)
}

/// Memory that the controller can reach.
pub fn reachable(address: u64, pages: u64) -> (r: bool)
    requires
        pages <= 0x1000_0000,
    ensures
        r == (address + pages * 4096 <= 0x4_0000_0000),
{
    address <= 0x4_0000_0000 && address + pages * 4096 <= 0x4_0000_0000
}

/// What is shown. Images of the graphics processor have numbers.
pub struct State {
    pub initialized: bool,
    /// The controller no longer shows what the firmware left.
    pub changed: bool,
    pub lost: bool,
    /// The linear buffer that was shown last, of two.
    pub front: usize,
    /// The private buffer that the controller fetches, of two.
    pub scanout_front: usize,
    pub gpu_front: Option<u64>,
    pub pending_gpu: Option<u64>,
}

impl State {
    pub open spec fn wf(self) -> bool {
        self.front < 2 && self.scanout_front < 2
    }

    pub fn new() -> (r: State)
        ensures
            r.wf(),
            r == (State {
                initialized: false,
                changed: false,
                lost: false,
                front: 0,
                scanout_front: 1,
                gpu_front: None,
                pending_gpu: None,
            }),
    {
        State {
            initialized: false,
            changed: false,
            lost: false,
            front: 0,
            scanout_front: 1,
            gpu_front: None,
            pending_gpu: None,
        }
    }

    /// The private buffer that may be written.
    pub open spec fn spare(self) -> usize {
        (1 - self.scanout_front) as usize
    }

    /// The linear buffer that is drawn to.
    pub open spec fn back_spec(self) -> usize {
        (1 - self.front) as usize
    }

    pub fn back(&self) -> (r: usize)
        requires
            self.wf(),
        ensures
            r == self.back_spec(),
    {
        1 - self.front
    }

    /// The linear buffer that is shown, unless an image of the graphics processor is.
    pub fn front_scanout_buffer(&self) -> (r: Option<usize>)
        ensures
            r == if self.gpu_front is None {
                Some(self.front)
            } else {
                None
            },
    {
        if self.gpu_front.is_none() {
            Some(self.front)
        } else {
            None
        }
    }

    /// Whether the boot console stays.
    pub fn shows_console(&self, keep: bool) -> (r: bool)
        ensures
            r == (!self.initialized || keep),
    {
        !self.initialized || keep
    }

    pub open spec fn framebuffer_spec(
        self,
        config: FramebufferConfig,
        region: DisplayRegion,
        address: u64,
        buffers: Seq<u64>,
    ) -> Result<usize, &'static str> {
        if !config_ok(config) {
            Err("Tegra DC framebuffer layout mismatch")
        } else if !region_ok(region) {
            Err("Tegra DC damage region exceeds image")
        } else if address != buffers[self.back_spec() as int] {
            Err("Tegra DC backing is not the current back buffer")
        } else {
            Ok(self.back_spec())
        }
    }

    /// Only the back buffer can be presented by its address.
    pub fn choose_framebuffer(
        &self,
        config: &FramebufferConfig,
        region: DisplayRegion,
        address: u64,
        buffers: &[u64; 2],
    ) -> (r: Result<usize, &'static str>)
        requires
            self.wf(),
        ensures
            r == self.framebuffer_spec(*config, region, address, buffers@),
    {
        validate_config(config)?;
        validate_region(region)?;
        let back: usize = self.back();
        if address != buffers[back] {
            return Err("Tegra DC backing is not the current back buffer");
        }
        Ok(back)
    }

    pub open spec fn buffer_spec(self, index: usize, regions: Seq<DisplayRegion>) -> Result<
        (),
        &'static str,
    > {
        if exists|i: int| 0 <= i < regions.len() && !region_ok(#[trigger] regions[i]) {
            Err("Tegra DC damage region exceeds image")
        } else if self.gpu_front is None && index == self.front {
            Err("Tegra DC buffer is the current presentation source")
        } else {
            Ok(())
        }
    }

    /// The buffer that is shown cannot be presented again.
    pub fn choose_buffer(&self, index: usize, regions: &Vec<DisplayRegion>) -> (r: Result<
        (),
        &'static str,
    >)
        ensures
            r == self.buffer_spec(index, regions@),
    {
        let mut i: usize = 0;
        while i < regions.len()
            invariant
                i <= regions@.len(),
                forall|j: int| 0 <= j < i ==> region_ok(#[trigger] regions@[j]),
            decreases regions@.len() - i,
        {
            let region = regions[i];
            if validate_region(region).is_err() {
                assert(!region_ok(regions@[i as int]));
                return Err("Tegra DC damage region exceeds image");
            }
            i = i + 1;
        }
        if self.gpu_front.is_none() && index == self.front {
            return Err("Tegra DC buffer is the current presentation source");
        }
        Ok(())
    }

    /// Where a linear buffer is copied to before it is shown.
    pub fn begin_buffer(&self, index: usize) -> (r: Result<usize, &'static str>)
        requires
            self.wf(),
        ensures
            r == if self.lost {
                Err::<usize, &'static str>("Tegra DC display is lost")
            } else if index >= 2 {
                Err("invalid Tegra DC scanout buffer")
            } else {
                Ok(self.spare())
            },
    {
        if self.lost {
            return Err("Tegra DC display is lost");
        }
        if index >= 2 {
            return Err("invalid Tegra DC scanout buffer");
        }
        Ok(1 - self.scanout_front)
    }

    /// The flip starts: from now on there is something to go back from.
    pub fn flipping(&mut self)
        ensures
            *final(self) == (State { changed: true, ..*old(self) }),
    {
        self.changed = true;
    }

    pub open spec fn buffer_shown(self, index: usize, flipped: bool) -> State {
        if flipped {
            State {
                gpu_front: None,
                pending_gpu: None,
                front: index,
                scanout_front: self.spare(),
                ..self
            }
        } else {
            State { lost: true, ..self }
        }
    }

    /// A linear buffer was flipped to, or the flip failed and the display is lost.
    pub fn finish_buffer(&mut self, index: usize, flipped: bool)
        requires
            old(self).wf(),
            index < 2,
        ensures
            *final(self) == old(self).buffer_shown(index, flipped),
            final(self).wf(),
    {
        if flipped {
            self.gpu_front = None;
            self.pending_gpu = None;
            self.front = index;
            self.scanout_front = 1 - self.scanout_front;
        } else {
            self.lost = true;
        }
    }

    /// An image of the graphics processor is held, and where it is copied to unless it
    /// is shown as it is.
    pub fn begin_gpu(&mut self, image: u64) -> (r: Result<usize, &'static str>)
        requires
            old(self).wf(),
        ensures
            match r {
                Ok(spare) => !old(self).lost && spare == old(self).spare() && *final(self) == (
                State { pending_gpu: Some(image), ..*old(self) }),
                Err(e) => old(self).lost && e == "Tegra DC display is lost" && *final(self) == *old(self),
            },
    {
        if self.lost {
            return Err("Tegra DC display is lost");
        }
        self.pending_gpu = Some(image);
        Ok(1 - self.scanout_front)
    }

    pub open spec fn gpu_shown(self, direct: bool, flipped: bool) -> State {
        if flipped {
            State {
                scanout_front: if direct {
                    self.scanout_front
                } else {
                    self.spare()
                },
                gpu_front: self.pending_gpu,
                pending_gpu: None,
                ..self
            }
        } else {
            State { lost: true, ..self }
        }
    }

    /// An image of the graphics processor was flipped to, or the display is lost.
    pub fn finish_gpu(&mut self, direct: bool, flipped: bool)
        requires
            old(self).wf(),
        ensures
            *final(self) == old(self).gpu_shown(direct, flipped),
            final(self).wf(),
    {
        if flipped {
            if !direct {
                self.scanout_front = 1 - self.scanout_front;
            }
            self.gpu_front = self.pending_gpu;
            self.pending_gpu = None;
        } else {
            self.lost = true;
        }
    }

    /// The first frame was shown and fetched without a failure.
    pub fn adopted(&mut self)
        ensures
            *final(self) == (State { initialized: true, ..*old(self) }),
    {
        self.initialized = true;
    }
}

/// What is copied is never what the controller fetches.
pub proof fn nothing_visible_is_written(state: State)
    requires
        state.wf(),
    ensures
        state.spare() != state.scanout_front,
        state.spare() < 2,
{
}

/// The private buffers take turns: after a frame was shown, the one that was fetched
/// before is the one that may be written.
pub proof fn buffers_take_turns(state: State, index: usize)
    requires
        state.wf(),
        index < 2,
    ensures
        state.buffer_shown(index, true).spare() == state.scanout_front,
        state.gpu_shown(false, true).spare() == state.scanout_front,
        state.gpu_shown(true, true).spare() == state.spare(),
{
}

/// A display that is lost stays lost, and presents nothing.
pub proof fn lost_displays_stay_lost(state: State, index: usize, direct: bool, flipped: bool)
    requires
        state.lost,
    ensures
        state.buffer_shown(index, flipped).lost,
        state.gpu_shown(direct, flipped).lost,
{
}

/// While a flip to an image of the graphics processor is not done, that image is held,
/// and after a failure it stays held, because the controller may still fetch it.
pub proof fn attempted_images_are_held(state: State, image: u64, direct: bool)
    requires
        state.pending_gpu == Some(image),
    ensures
        state.gpu_shown(direct, true).gpu_front == Some(image),
        state.gpu_shown(direct, false).pending_gpu == Some(image),
{
}

/// Points of the sample grid.
pub open spec fn sample_x(i: int) -> int {
    i * 1279 / 31
}

pub open spec fn sample_y(i: int) -> int {
    i * 719 / 17
}

/// The stored pixel is the source's.
pub open spec fn sample_matches(
    input: Seq<u8>,
    stride: usize,
    output: Seq<u8>,
    x: int,
    y: int,
) -> bool {
    let from = y * stride + 4 * x;
    let to = crate::gpu::block_linear::offset_of(4 * x, y, 5120);
    &&& input[from] == output[to]
    &&& input[from + 1] == output[to + 1]
    &&& input[from + 2] == output[to + 2]
    &&& input[from + 3] == output[to + 3]
}

/// Compares one pixel.
fn pixel_matches(input: &[u8], stride: usize, output: &[u8], x: usize, y: usize) -> (r: bool)
    requires
        5120 <= stride <= 0xffff,
        stride * 720 <= input@.len(),
        block_linear::SIZE <= output@.len(),
        x < 1280,
        y < 720,
    ensures
        r == sample_matches(input@, stride, output@, x as int, y as int),
{
    assert(0 <= y * stride && y * stride + 5120 <= stride * 720) by (nonlinear_arith)
        requires
            y <= 719,
            5120 <= stride,
    ;
    let from: usize = y * stride + 4 * x;
    proof {
        lemma_pixel_inside(x as int, y as int);
    }
    let to: usize = block_linear::pixel_offset(x, y);
    input[from] == output[to] && input[from + 1] == output[to + 1] && input[from + 2] == output[to
        + 2] && input[from + 3] == output[to + 3]
}

/// The four bytes of a pixel are stored inside.
proof fn lemma_pixel_inside(x: int, y: int)
    requires
        0 <= x < 1280,
        0 <= y < 720,
    ensures
        0 <= crate::gpu::block_linear::offset_of(4 * x, y, 5120),
        crate::gpu::block_linear::offset_of(4 * x, y, 5120) + 3 < block_linear::SIZE,
{
    let b = 4 * x;
    crate::gpu::block_linear::offset_stays_inside(b, y, 5120, 768);
    crate::gpu::block_linear::offset_stays_inside(b + 3, y, 5120, 768);
    crate::gpu::block_linear::sectors_are_contiguous(b, y, 5120, 3);
}

proof fn lemma_byte_stored(input: Seq<u8>, stride: int, before: Seq<u8>, b: int, y: int, k: int)
    requires
        block_linear::SIZE <= before.len(),
        0 <= b < 5120,
        b % 4 == 0,
        0 <= y < 720,
        0 <= k < 4,
    ensures
        block_linear::uploaded(input, stride, before)[crate::gpu::block_linear::offset_of(
            b,
            y,
            5120,
        ) + k] == input[y * stride + b + k],
{
    assert(b % 16 + k < 16);
    crate::gpu::block_linear::sectors_are_contiguous(b, y, 5120, k);
    block_linear::bytes_arrive_at_their_offsets(input, stride, before, b + k, y);
}

#[verifier::rlimit(40)]
#[verifier::spinoff_prover]
proof fn lemma_pixel_stored(input: Seq<u8>, stride: usize, before: Seq<u8>, x: int, y: int)
    requires
        block_linear::SIZE <= before.len(),
        0 <= x < 1280,
        0 <= y < 720,
    ensures
        sample_matches(
            input,
            stride,
            block_linear::uploaded(input, stride as int, before),
            x,
            y,
        ),
{
    lemma_byte_stored(input, stride as int, before, 4 * x, y, 0);
    lemma_byte_stored(input, stride as int, before, 4 * x, y, 1);
    lemma_byte_stored(input, stride as int, before, 4 * x, y, 2);
    lemma_byte_stored(input, stride as int, before, 4 * x, y, 3);
}

/// Every sampled pixel was stored.
pub open spec fn samples_match(input: Seq<u8>, stride: usize, output: Seq<u8>) -> bool {
    forall|i: int, j: int|
        0 <= i < 32 && 0 <= j < 18 ==> sample_matches(
            input,
            stride,
            output,
            #[trigger] sample_x(i),
            #[trigger] sample_y(j),
        )
}

/// Compares a grid of pixels with what was stored.
pub fn check_storage(input: &[u8], stride: usize, output: &[u8]) -> (r: Result<(), &'static str>)
    requires
        5120 <= stride <= 0xffff,
        stride * 720 <= input@.len(),
        block_linear::SIZE <= output@.len(),
    ensures
        r == if samples_match(input@, stride, output@) {
            Ok::<(), &'static str>(())
        } else {
            Err("Tegra DC block-linear storage differs from ready source")
        },
{
    let mut j: usize = 0;
    while j < 18
        invariant
            j <= 18,
            5120 <= stride <= 0xffff,
            stride * 720 <= input@.len(),
            block_linear::SIZE <= output@.len(),
            forall|u: int, v: int|
                0 <= u < 32 && 0 <= v < j ==> sample_matches(
                    input@,
                    stride,
                    output@,
                    #[trigger] sample_x(u),
                    #[trigger] sample_y(v),
                ),
        decreases 18 - j,
    {
        let mut i: usize = 0;
        while i < 32
            invariant
                i <= 32,
                j < 18,
                5120 <= stride <= 0xffff,
                stride * 720 <= input@.len(),
                block_linear::SIZE <= output@.len(),
                forall|u: int, v: int|
                    0 <= u < 32 && 0 <= v < 18 && (v < j || (v == j && u < i)) ==> sample_matches(
                        input@,
                        stride,
                        output@,
                        #[trigger] sample_x(u),
                        #[trigger] sample_y(v),
                    ),
            decreases 32 - i,
        {
            let x: usize = i * 1279 / 31;
            let y: usize = j * 719 / 17;
            assert(x == sample_x(i as int) && y == sample_y(j as int));
            if !pixel_matches(input, stride, output, x, y) {
                return Err("Tegra DC block-linear storage differs from ready source");
            }
            i = i + 1;
        }
        j = j + 1;
    }
    Ok(())
}

/// What an upload stored always passes the comparison.
pub proof fn uploads_pass_the_comparison(input: Seq<u8>, stride: usize, before: Seq<u8>)
    requires
        block_linear::SIZE <= before.len(),
    ensures
        samples_match(input, stride, block_linear::uploaded(input, stride as int, before)),
{
    let output = block_linear::uploaded(input, stride as int, before);
    assert forall|i: int, j: int| 0 <= i < 32 && 0 <= j < 18 implies sample_matches(
        input,
        stride,
        output,
        #[trigger] sample_x(i),
        #[trigger] sample_y(j),
    ) by {
        let x = sample_x(i);
        let y = sample_y(j);
        lemma_pixel_stored(input, stride, before, x, y);
    }
}

/// The order of the boot frame is the panel's: columns of the image, from the right.
pub open spec fn boot_index(x: int, y: int) -> int {
    (1279 - x) * 720 + y
}

/// Turns the boot frame into an image.
pub fn rotate(boot: &[u32], image: &mut [u32])
    requires
        boot@.len() == 921_600,
        old(image)@.len() == 921_600,
    ensures
        final(image)@.len() == 921_600,
        forall|x: int, y: int|
            0 <= x < 1280 && 0 <= y < 720 ==> final(image)@[y * 1280 + x] == #[trigger] boot@[boot_index(x, y)],
{
    let mut y: usize = 0;
    while y < 720
        invariant
            y <= 720,
            boot@.len() == 921_600,
            image@.len() == 921_600,
            forall|u: int, v: int|
                0 <= u < 1280 && 0 <= v < y ==> image@[v * 1280 + u] == #[trigger] boot@[boot_index(u, v)],
        decreases 720 - y,
    {
        let mut x: usize = 0;
        while x < 1280
            invariant
                y < 720,
                x <= 1280,
                boot@.len() == 921_600,
                image@.len() == 921_600,
                forall|u: int, v: int|
                    0 <= u < 1280 && 0 <= v && (v < y || (v == y && u < x)) ==> image@[v * 1280 + u]
                        == #[trigger] boot@[boot_index(u, v)],
            decreases 1280 - x,
        {
            let from: usize = (1279 - x) * 720 + y;
            image[y * 1280 + x] = boot[from];
            assert(from == boot_index(x as int, y as int));
            x = x + 1;
        }
        y = y + 1;
    }
}

/// Every pixel of the boot frame has its place in the image, and no two share one.
pub proof fn rotation_loses_nothing(x: int, y: int, u: int, v: int)
    requires
        0 <= x < 1280,
        0 <= y < 720,
        0 <= u < 1280,
        0 <= v < 720,
    ensures
        0 <= boot_index(x, y) < 921_600,
        boot_index(x, y) == boot_index(u, v) ==> x == u && y == v,
{
}

/// An image of the graphics processor is shown as it is if it lies in blocks, and copied if
/// it lies in rows; either way it has the panel's size and its colors, lies on a page and in
/// memory that is reached, and is there to its end.
pub proof fn images_are_shown_or_copied(backing: Backing, width: u32, height: u32, s: GpuScanout)
    requires
        gpu_spec(backing, width, height) == Ok::<GpuScanout, &'static str>(s),
    ensures
        width == 1280 && height == 720,
        s.address % 4096 == 0,
        s.format == PixelFormat::BGRA8888 || s.format == PixelFormat::XRGB8888,
        s.direct <==> backing is Modified,
        match backing {
            Backing::Modified { fetchable, stride, size, address, format } => {
                &&& fetchable
                &&& stride == 5120 && s.stride == 5120
                &&& size >= block_linear::SIZE
                &&& s.address == address && s.format == format
                &&& s.address + block_linear::SIZE <= 0x4_0000_0000
            },
            Backing::Linear { segments, stride, size, address, format } => {
                &&& segments == 1
                &&& s.stride == stride && 5120 <= stride <= 0xffff && stride % 64 == 0
                &&& size >= stride * 720
                &&& s.address == address && s.format == format
                &&& s.address + stride * 720 <= 0x4_0000_0000
            },
            Backing::Absent => false,
        },
{
}

/// A region lies inside the image and has pixels; the buffer that is drawn to is never the
/// one that is shown.
pub proof fn drawings_go_to_the_other_buffer(
    state: State,
    config: FramebufferConfig,
    region: DisplayRegion,
    address: u64,
    buffers: Seq<u64>,
    index: usize,
)
    requires
        state.wf(),
        buffers.len() == 2,
        state.framebuffer_spec(config, region, address, buffers) == Ok::<usize, &'static str>(index),
    ensures
        index + state.front == 1,
        buffers[index as int] == address,
        config.width == 1280 && config.height == 720 && config.stride == 5120 && config.format
            == PixelFormat::BGRA8888,
        1 <= region.width && region.x + region.width <= 1280,
        1 <= region.height && region.y + region.height <= 720,
{
}

/// The samples go from the first to the last column and row, in even steps.
pub proof fn samples_reach_the_edges(i: int)
    ensures
        sample_x(0) == 0 && sample_x(31) == 1279,
        sample_y(0) == 0 && sample_y(17) == 719,
        0 <= i < 31 ==> 41 <= sample_x(i + 1) - sample_x(i) <= 42,
        0 <= i < 17 ==> 42 <= sample_y(i + 1) - sample_y(i) <= 43,
{
}

} // verus!
