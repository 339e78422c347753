//! Packed RGBA8 pixel buffers and their (row, column, channel) addressing.

use vstd::prelude::*;
use vstd::arithmetic::div_mod::lemma_fundamental_div_mod_converse;

verus! {

/// Bytes per pixel: red, green, blue, alpha.
pub const CHANNELS: usize = 4;

/// Offset of channel `ch` of the pixel at (`row`, `col`) in a row-major
/// buffer whose rows are `side` pixels wide.
pub open spec fn texel_offset(side: int, row: int, col: int, ch: int) -> int {
    (row * side + col) * 4 + ch
}

/// The byte at (`row`, `col`, `ch`) of a buffer whose rows are `side` pixels wide.
pub open spec fn texel(buf: Seq<u8>, side: int, row: int, col: int, ch: int) -> u8 {
    buf[texel_offset(side, row, col, ch)]
}

/// A coordinate triple addresses a byte of a `side` x `side` RGBA8 buffer.
pub open spec fn in_square(side: int, row: int, col: int, ch: int) -> bool {
    0 <= row < side && 0 <= col < side && 0 <= ch < 4
}

/// Every coordinate in range lands inside the buffer.
pub proof fn lemma_texel_offset_bounds(side: int, row: int, col: int, ch: int)
    requires
        in_square(side, row, col, ch),
    ensures
        0 <= row * side <= row * side + col < side * side,
        0 <= texel_offset(side, row, col, ch) < side * side * 4,
{
    assert(0 <= row * side) by (nonlinear_arith)
        requires 0 <= row, 0 <= side;
    assert(row * side + col < side * side) by (nonlinear_arith)
        requires 0 <= row < side, 0 <= col < side;
}

/// Distinct coordinates in range address distinct bytes.
pub proof fn lemma_texel_offset_injective(
    side: int,
    r1: int,
    c1: int,
    k1: int,
    r2: int,
    c2: int,
    k2: int,
)
    requires
        in_square(side, r1, c1, k1),
        in_square(side, r2, c2, k2),
        texel_offset(side, r1, c1, k1) == texel_offset(side, r2, c2, k2),
    ensures
        r1 == r2 && c1 == c2 && k1 == k2,
{
    let off = texel_offset(side, r1, c1, k1);
    lemma_fundamental_div_mod_converse(off, 4, r1 * side + c1, k1);
    lemma_fundamental_div_mod_converse(off, 4, r2 * side + c2, k2);
    let p = r1 * side + c1;
    lemma_fundamental_div_mod_converse(p, side, r1, c1);
    lemma_fundamental_div_mod_converse(p, side, r2, c2);
}

/// Byte offset of channel `ch` of the pixel at (`row`, `col`) in a
/// `side` x `side` RGBA8 buffer.
pub fn texel_index(side: usize, row: usize, col: usize, ch: usize) -> (r: usize)
    requires
        in_square(side as int, row as int, col as int, ch as int),
        side * side * 4 <= usize::MAX,
    ensures
        r as int == texel_offset(side as int, row as int, col as int, ch as int),
        r < side * side * 4,
{
    proof {
        lemma_texel_offset_bounds(side as int, row as int, col as int, ch as int);
    }
    (row * side + col) * CHANNELS + ch
}

/// A packed RGBA8 image: `width` x `height` pixels, row-major, no row padding.
#[derive(Debug)]
pub struct SourceImage {
    pub width: u32,
    pub height: u32,
    pub pixels: Vec<u8>,
}

impl SourceImage {
    /// The buffer holds exactly four bytes per pixel.
    pub open spec fn wf(&self) -> bool {
        self.pixels@.len() == self.width * self.height * 4
    }

    /// Wraps a pixel buffer; `None` unless it holds exactly
    /// `width * height * 4` bytes.
    pub fn from_rgba(width: u32, height: u32, pixels: Vec<u8>) -> (r: Option<SourceImage>)
        ensures
            pixels@.len() == width * height * 4 <==> r.is_some(),
            r matches Some(img) ==> img.wf() && img.width == width && img.height == height
                && img.pixels@ == pixels@,
    {
        proof {
            assert(width * height <= 0xffff_ffffu64 * 0xffff_ffffu64) by (nonlinear_arith)
                requires width <= 0xffff_ffffu64, height <= 0xffff_ffffu64;
        }
        let needed: u128 = width as u128 * height as u128 * 4;
        if pixels.len() as u128 == needed {
            Some(SourceImage { width, height, pixels })
        } else {
            None
        }
    }
}

} // verus!
