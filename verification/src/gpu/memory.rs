//! GPU objects as the check of a submission and the image planner see them.
use vstd::prelude::*;

verus! {

#[derive(Clone, Copy, Debug, PartialEq, Eq, Structural)]
pub enum Format {
    Bgra8Unorm,
    Depth32Float,
    Nv12,
    Other,
}

/// Storage order of an image.
#[derive(Clone, Copy, Debug, PartialEq, Eq, Structural)]
pub enum Modifier {
    Linear,
    /// Uncompressed color blocks, 16 GOBs high.
    BlockLinear,
    /// Uncompressed 32-bit depth blocks, 16 GOBs high.
    ZetaBlockLinear,
    /// Any other modifier, by its nonzero code.
    Other(u64),
}

/// One way in which a submission uses an image.
#[derive(Clone, Copy, Debug, PartialEq, Eq, Structural)]
pub enum Role {
    Sampled,
    RenderTarget,
    TransferSrc,
    TransferDst,
    DepthStencil,
}

/// The set of uses that an image was created for. `other` stands for every use
/// that has no field of its own.
#[derive(Clone, Copy, Debug, PartialEq, Eq, Structural)]
pub struct Usage {
    pub sampled: bool,
    pub render_target: bool,
    pub transfer_src: bool,
    pub transfer_dst: bool,
    pub depth_stencil: bool,
    pub presentable: bool,
    pub depth_compatible: bool,
    pub other: bool,
}

impl Usage {
    pub open spec fn allows(self, role: Role) -> bool {
        match role {
            Role::Sampled => self.sampled,
            Role::RenderTarget => self.render_target,
            Role::TransferSrc => self.transfer_src,
            Role::TransferDst => self.transfer_dst,
            Role::DepthStencil => self.depth_stencil,
        }
    }

    pub fn includes(&self, role: Role) -> (r: bool)
        ensures
            r == self.allows(role),
    {
        match role {
            Role::Sampled => self.sampled,
            Role::RenderTarget => self.render_target,
            Role::TransferSrc => self.transfer_src,
            Role::TransferDst => self.transfer_dst,
            Role::DepthStencil => self.depth_stencil,
        }
    }

    /// The depth attachment use and nothing else.
    pub open spec fn is_depth_only(self) -> bool {
        self.depth_stencil && !self.sampled && !self.render_target && !self.transfer_src
            && !self.transfer_dst && !self.presentable && !self.depth_compatible && !self.other
    }

    pub fn depth_only(&self) -> (r: bool)
        ensures
            r == self.is_depth_only(),
    {
        self.depth_stencil && !self.sampled && !self.render_target && !self.transfer_src
            && !self.transfer_dst && !self.presentable && !self.depth_compatible && !self.other
    }
}

#[derive(Clone, Copy, Debug, PartialEq, Eq, Structural)]
pub struct ImageCreate {
    pub format: Format,
    pub usage: Usage,
    pub width: u32,
    pub height: u32,
    pub mip_levels: u32,
    pub array_layers: u32,
    pub cube: bool,
}

#[derive(Clone, Copy, Debug, PartialEq, Eq, Structural)]
pub struct PlaneLayout {
    pub offset: u64,
    pub size: u64,
    pub row_pitch: u32,
    pub array_pitch: u32,
    pub block_width: u32,
    pub block_height: u32,
    pub bytes_per_block: u32,
}

impl PlaneLayout {
    pub open spec fn empty_spec() -> PlaneLayout {
        PlaneLayout {
            offset: 0,
            size: 0,
            row_pitch: 0,
            array_pitch: 0,
            block_width: 0,
            block_height: 0,
            bytes_per_block: 0,
        }
    }

    pub fn empty() -> (r: PlaneLayout)
        ensures
            r == PlaneLayout::empty_spec(),
    {
        PlaneLayout {
            offset: 0,
            size: 0,
            row_pitch: 0,
            array_pitch: 0,
            block_width: 0,
            block_height: 0,
            bytes_per_block: 0,
        }
    }
}

/// Placement of an image in its backing. Only the first `plane_count` planes
/// carry meaning; color and depth images use the luma plane alone.
#[derive(Clone, Copy, Debug, PartialEq, Eq, Structural)]
pub struct ImageLayout {
    pub modifier: Modifier,
    pub total_size: u64,
    pub alignment: u64,
    pub plane_count: u32,
    pub luma: PlaneLayout,
    pub chroma: PlaneLayout,
}

#[derive(Clone, Copy, Debug)]
pub struct Image {
    pub create: ImageCreate,
    pub layout: ImageLayout,
}

/// A two-plane video image that another device produced.
#[derive(Clone, Copy, Debug)]
pub struct SharedImage {
    pub create: ImageCreate,
    pub layout: ImageLayout,
    /// Coded size in pixels, of which `create` describes the visible part.
    pub stored_width: u32,
    pub stored_height: u32,
    /// Texture transforms and color conversion rows, as IEEE-754 bit patterns.
    pub uniforms: [u32; 20],
}

#[derive(Clone, Copy, Debug)]
pub enum Kind {
    Buffer,
    Image(Image),
    SharedImage(SharedImage),
}

/// One object mapped into the GPU address space at `va`.
#[derive(Clone, Copy, Debug)]
pub struct Memory {
    pub va: u64,
    pub size: u64,
    pub kind: Kind,
}

impl Memory {
    /// The mapping does not wrap, and the planes of a video image lie in it.
    pub open spec fn wf(self) -> bool {
        &&& self.va + self.size <= u64::MAX
        &&& self.kind matches Kind::SharedImage(s) ==> s.layout.luma.offset <= self.size
            && s.layout.chroma.offset <= self.size
    }
}

/// A use is allowed if the image was made for it, and for no other reason; a depth image is
/// made for depths alone.
pub proof fn uses_are_what_an_image_was_made_for(usage: Usage)
    ensures
        usage.allows(Role::Sampled) == usage.sampled,
        usage.allows(Role::RenderTarget) == usage.render_target,
        usage.allows(Role::TransferSrc) == usage.transfer_src,
        usage.allows(Role::TransferDst) == usage.transfer_dst,
        usage.allows(Role::DepthStencil) == usage.depth_stencil,
        usage.is_depth_only() ==> usage.allows(Role::DepthStencil) && !usage.allows(Role::Sampled)
            && !usage.allows(Role::RenderTarget) && !usage.allows(Role::TransferSrc)
            && !usage.allows(Role::TransferDst) && !usage.presentable && !usage.depth_compatible,
{
}

} // verus!
