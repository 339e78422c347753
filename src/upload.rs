//! The GPU work that places a mipmap chain on a texture: one texture
//! descriptor sized from the base level, and one buffer-to-texture copy per
//! level, in level order.

use vstd::prelude::*;
use crate::error::TextureError;
use crate::mipmap::{
    generate_mipmaps, is_chain_shape, is_mip_chain, lemma_levels_with_pixels_bound, level_pixels,
    levels_with_pixels, mip_count, side_at, MipLevel,
};
use crate::pixels::SourceImage;

verus! {

/// Dimensionality of a texture.
#[derive(Debug, Clone, Copy, PartialEq, Eq, Structural)]
pub enum TextureDimension {
    D2,
}

/// Pixel format of a texture: 8-bit unsigned-normalized RGBA.
#[derive(Debug, Clone, Copy, PartialEq, Eq, Structural)]
pub enum TextureFormat {
    Rgba8Unorm,
}

/// How a texture may be used.
#[derive(Debug, Clone, Copy, PartialEq, Eq, Structural)]
pub struct TextureUsage {
    /// The texture may be the destination of a copy.
    pub copy_dst: bool,
    /// The texture may be sampled by shaders.
    pub sampled: bool,
}

/// A size in texels.
#[derive(Debug, Clone, Copy, PartialEq, Eq, Structural)]
pub struct Extent3d {
    pub width: u32,
    pub height: u32,
    pub depth: u32,
}

/// A texel position inside a texture subresource.
#[derive(Debug, Clone, Copy, PartialEq, Eq, Structural)]
pub struct Origin3d {
    pub x: u32,
    pub y: u32,
    pub z: u32,
}

/// What the device is asked to create.
#[derive(Debug, Clone, Copy, PartialEq, Eq, Structural)]
pub struct TextureDescriptor {
    pub size: Extent3d,
    pub array_layer_count: u32,
    pub mip_level_count: u32,
    pub sample_count: u32,
    pub dimension: TextureDimension,
    pub format: TextureFormat,
    pub usage: TextureUsage,
}

/// Layout of a level's bytes inside its transfer buffer.
#[derive(Debug, Clone, Copy, PartialEq, Eq, Structural)]
pub struct BufferLayout {
    pub offset: u64,
    pub bytes_per_row: u64,
    pub rows_per_image: u32,
}

/// The texture subresource that a copy writes.
#[derive(Debug, Clone, Copy, PartialEq, Eq, Structural)]
pub struct TextureTarget {
    pub mip_level: u32,
    pub array_layer: u32,
    pub origin: Origin3d,
}

/// One buffer-to-texture copy: a transfer buffer of `buffer_size` bytes
/// holding one level, laid out as `buffer`, written to `texture` over `extent`.
#[derive(Debug, Clone, Copy, PartialEq, Eq, Structural)]
pub struct CopyCommand {
    pub buffer_size: u64,
    pub buffer: BufferLayout,
    pub texture: TextureTarget,
    pub extent: Extent3d,
}

/// Everything needed to create a mipmapped texture: the descriptor, the
/// levels' bytes, and the copy for each level (`copies[i]` carries `levels[i]`).
#[derive(Debug)]
pub struct TextureUpload {
    pub descriptor: TextureDescriptor,
    pub levels: Vec<MipLevel>,
    pub copies: Vec<CopyCommand>,
}

/// The descriptor of an `n` x `n` RGBA8 2D texture with `count` mip levels,
/// one layer and one sample, usable as a copy destination and for sampling.
pub open spec fn descriptor_for(n: u32, count: u32) -> TextureDescriptor {
    TextureDescriptor {
        size: Extent3d { width: n, height: n, depth: 1 },
        array_layer_count: 1,
        mip_level_count: count,
        sample_count: 1,
        dimension: TextureDimension::D2,
        format: TextureFormat::Rgba8Unorm,
        usage: TextureUsage { copy_dst: true, sampled: true },
    }
}

/// The copy that carries `level` whole into mip level `level.level`, layer 0,
/// from offset 0 of a buffer of exactly its size.
pub open spec fn copy_for(level: MipLevel) -> CopyCommand {
    CopyCommand {
        buffer_size: level.pixels@.len() as u64,
        buffer: BufferLayout {
            offset: 0,
            bytes_per_row: (4 * level.side) as u64,
            rows_per_image: level.side,
        },
        texture: TextureTarget {
            mip_level: level.level,
            array_layer: 0,
            origin: Origin3d { x: 0, y: 0, z: 0 },
        },
        extent: Extent3d { width: level.side, height: level.side, depth: 1 },
    }
}

/// `up` creates an `n` x `n` texture with as many mip levels as it carries,
/// and copies each level, in order, into its own subresource.
pub open spec fn is_upload_of(up: TextureUpload, n: u32) -> bool {
    &&& up.descriptor == descriptor_for(n, up.levels@.len() as u32)
    &&& up.copies@.len() == up.levels@.len()
    &&& forall|i: int| 0 <= i < up.copies@.len() ==> #[trigger] up.copies@[i] == copy_for(up.levels@[i])
}

/// Plans the upload of a chain whose base is `n` x `n`: the texture
/// descriptor counts exactly the chain's levels, and level `i` gets one copy
/// of extent `(n >> i, n >> i, 1)` into mip level `i`.
pub fn plan_upload(n: u32, levels: Vec<MipLevel>) -> (up: TextureUpload)
    requires
        n > 0,
        is_chain_shape(n as nat, levels@),
        levels@.len() <= levels_with_pixels(n as nat),
    ensures
        up.levels@ == levels@,
        is_upload_of(up, n),
        up.descriptor.mip_level_count == levels@.len(),
        forall|i: int|
            0 <= i < up.copies@.len() ==> (#[trigger] up.copies@[i]).extent == (Extent3d {
                width: side_at(n as nat, i as nat) as u32,
                height: side_at(n as nat, i as nat) as u32,
                depth: 1,
            }) && up.copies@[i].texture.mip_level == i,
{
    proof {
        lemma_levels_with_pixels_bound(n as nat);
    }
    let count: u32 = levels.len() as u32;
    let descriptor = TextureDescriptor {
        size: Extent3d { width: n, height: n, depth: 1 },
        array_layer_count: 1,
        mip_level_count: count,
        sample_count: 1,
        dimension: TextureDimension::D2,
        format: TextureFormat::Rgba8Unorm,
        usage: TextureUsage { copy_dst: true, sampled: true },
    };
    let mut copies: Vec<CopyCommand> = Vec::new();
    let mut i: usize = 0;
    while i < levels.len()
        invariant
            i <= levels@.len(),
            copies@.len() == i,
            forall|j: int| 0 <= j < i ==> #[trigger] copies@[j] == copy_for(levels@[j]),
        decreases levels@.len() - i,
    {
        let level = &levels[i];
        let side: u32 = level.side;
        let copy = CopyCommand {
            buffer_size: level.pixels.len() as u64,
            buffer: BufferLayout {
                offset: 0,
                bytes_per_row: 4 * side as u64,
                rows_per_image: side,
            },
            texture: TextureTarget {
                mip_level: level.level,
                array_layer: 0,
                origin: Origin3d { x: 0, y: 0, z: 0 },
            },
            extent: Extent3d { width: side, height: side, depth: 1 },
        };
        copies.push(copy);
        i += 1;
    }
    TextureUpload { descriptor, levels, copies }
}

/// Builds the mipmap chain of `image`, capped at `max_levels` levels, and
/// plans its upload. A non-square or empty image is refused before any
/// level, texture or buffer is planned.
pub fn load_image(image: &SourceImage, max_levels: u32) -> (r: Result<TextureUpload, TextureError>)
    requires
        image.wf(),
    ensures
        image.width != image.height ==> r matches Err(TextureError::DimensionMismatch),
        image.width == image.height && image.width == 0 ==> r matches Err(TextureError::EmptyInput),
        image.width == image.height && image.width > 0 ==> (r matches Ok(up) && is_upload_of(
            up,
            image.width,
        ) && is_chain_shape(image.width as nat, up.levels@) && is_mip_chain(
            image.pixels@,
            image.width as nat,
            max_levels as nat,
            level_pixels(up.levels@),
        )),
{
    match generate_mipmaps(image, max_levels) {
        Err(e) => Err(e),
        Ok(levels) => {
            proof {
                let n = image.width as nat;
                assert(mip_count(n, max_levels as nat) <= levels_with_pixels(n));
            }
            Ok(plan_upload(image.width, levels))
        },
    }
}

} // verus!
