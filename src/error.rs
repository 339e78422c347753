use vstd::prelude::*;

verus! {

/// Errors reported before any pyramid level or GPU resource is created.
#[derive(Debug, Clone, Copy, PartialEq, Eq, Structural)]
pub enum TextureError {
    /// The source image is not square.
    DimensionMismatch,
    /// The source image has no pixels.
    EmptyInput,
}

} // verus!
