//! Box-filtered mipmap pyramids for square RGBA8 images, and the plan of
//! GPU work (texture descriptor and one buffer-to-texture copy per level)
//! that places such a pyramid on a texture.

pub mod error;
pub mod mipmap;
pub mod pixels;
pub mod upload;

pub use error::TextureError;
pub use mipmap::{downsample, generate_mipmaps, MipLevel};
pub use pixels::{texel_index, SourceImage};
pub use upload::{
    load_image, plan_upload, BufferLayout, CopyCommand, Extent3d, Origin3d, TextureDescriptor,
    TextureDimension, TextureFormat, TextureTarget, TextureUpload, TextureUsage,
};
