//! Mipmap pyramid generation by 2x2 box filtering.

use vstd::prelude::*;
use vstd::arithmetic::div_mod::lemma_div_denominator;
use vstd::arithmetic::logarithm::{lemma_log_is_ordered, lemma_log_pow, log};
use vstd::arithmetic::power::{lemma_pow0, lemma_pow_positive, pow};
use vstd::arithmetic::power2::{lemma2_to64, lemma_pow2_pos, lemma_pow2_unfold, pow2};
use crate::error::TextureError;
use crate::pixels::{
    in_square, lemma_texel_offset_bounds, lemma_texel_offset_injective, texel, texel_index,
    texel_offset, SourceImage,
};

verus! {

/// Side length of level `i` of a pyramid whose base is `n` pixels wide
/// (`n >> i`): each level halves the previous one, rounding down.
pub open spec fn side_at(n: nat, i: nat) -> nat
    decreases i,
{
    if i == 0 {
        n
    } else {
        side_at(n, (i - 1) as nat) / 2
    }
}

/// Number of levels of nonzero side that halving `n` yields: 0 for 0,
/// else one more than for `n / 2`.
pub open spec fn levels_with_pixels(n: nat) -> nat
    decreases n,
{
    if n == 0 {
        0
    } else {
        1 + levels_with_pixels(n / 2)
    }
}

/// Length of the chain generated for a base of side `n >= 1` with at most
/// `max_levels` levels; the base level is always present.
pub open spec fn mip_count(n: nat, max_levels: nat) -> nat {
    let cap: nat = if max_levels == 0 { 1 } else { max_levels };
    if levels_with_pixels(n) < cap {
        levels_with_pixels(n)
    } else {
        cap
    }
}

/// Channel `ch` of destination pixel (`row`, `col`): the floor of the mean of
/// the 2x2 block of `prev` (rows `prev_side` pixels wide) that it covers.
pub open spec fn box_value(prev: Seq<u8>, prev_side: int, row: int, col: int, ch: int) -> u8 {
    ((texel(prev, prev_side, 2 * row, 2 * col, ch) as int
        + texel(prev, prev_side, 2 * row, 2 * col + 1, ch) as int
        + texel(prev, prev_side, 2 * row + 1, 2 * col, ch) as int
        + texel(prev, prev_side, 2 * row + 1, 2 * col + 1, ch) as int) / 4) as u8
}

/// `next` is the `side` x `side` box-filtered reduction of `prev`.
pub open spec fn is_downsample(prev: Seq<u8>, prev_side: int, side: int, next: Seq<u8>) -> bool {
    &&& next.len() == side * side * 4
    &&& forall|row: int, col: int, ch: int|
        in_square(side, row, col, ch) ==> #[trigger] texel(next, side, row, col, ch) == box_value(
            prev,
            prev_side,
            row,
            col,
            ch,
        )
}

/// `levels` is the mipmap chain of the `n` x `n` image `src` capped at
/// `max_levels`: the base is `src` itself, each later level is the box-filtered
/// reduction of the one before, and the chain ends at the cap or before the
/// side would reach 0.
pub open spec fn is_mip_chain(src: Seq<u8>, n: nat, max_levels: nat, levels: Seq<Seq<u8>>) -> bool {
    &&& levels.len() == mip_count(n, max_levels)
    &&& levels[0] == src
    &&& forall|i: int|
        0 < i < levels.len() ==> is_downsample(
            levels[i - 1],
            side_at(n, (i - 1) as nat) as int,
            side_at(n, i as nat) as int,
            #[trigger] levels[i],
        )
}

/// One level of a pyramid: its index, its side length and its pixels.
#[derive(Debug)]
pub struct MipLevel {
    pub level: u32,
    pub side: u32,
    pub pixels: Vec<u8>,
}

/// The pixel buffers of a chain, level by level.
pub open spec fn level_pixels(levels: Seq<MipLevel>) -> Seq<Seq<u8>> {
    Seq::new(levels.len(), |i: int| levels[i].pixels@)
}

/// Each level of `levels` carries its own index, the side `n >> i`, which is
/// nonzero, and `side * side * 4` bytes.
pub open spec fn is_chain_shape(n: nat, levels: Seq<MipLevel>) -> bool {
    &&& levels.len() >= 1
    &&& forall|i: int|
        0 <= i < levels.len() ==> {
            &&& (#[trigger] levels[i]).level == i
            &&& levels[i].side == side_at(n, i as nat)
            &&& levels[i].side > 0
            &&& levels[i].pixels@.len() == levels[i].side * levels[i].side * 4
        }
}

/// Halving `n` then taking `i` more halvings is taking `i + 1` halvings.
pub proof fn lemma_side_at_shift(n: nat, i: nat)
    ensures
        side_at(n, i + 1) == side_at(n / 2, i),
    decreases i,
{
    if i > 0 {
        lemma_side_at_shift(n, (i - 1) as nat);
        assert(side_at(n, i + 1) == side_at(n, i) / 2);
        assert(side_at(n / 2, i) == side_at(n / 2, (i - 1) as nat) / 2);
    } else {
        assert(side_at(n, 1) == side_at(n, 0) / 2);
    }
}

/// Level `i` has a nonzero side exactly when `i` is below `levels_with_pixels(n)`.
pub proof fn lemma_side_positive(n: nat, i: nat)
    ensures
        side_at(n, i) > 0 <==> i < levels_with_pixels(n),
    decreases i,
{
    if i > 0 {
        lemma_side_at_shift(n, (i - 1) as nat);
        lemma_side_positive(n / 2, (i - 1) as nat);
    }
}

/// Reduces a `prev_side` x `prev_side` RGBA8 buffer to a
/// `prev_side / 2` x `prev_side / 2` one: each destination channel is the
/// floor of the mean of the 2x2 source block beneath it.
pub fn downsample(prev: &Vec<u8>, prev_side: usize) -> (next: Vec<u8>)
    requires
        prev@.len() == prev_side * prev_side * 4,
    ensures
        is_downsample(prev@, prev_side as int, (prev_side / 2) as int, next@),
{
    let side: usize = prev_side / 2;
    let prev_len: usize = prev.len();
    proof {
        assert(side * side * 4 <= prev_side * prev_side * 4) by (nonlinear_arith)
            requires side <= prev_side;
    }
    let mut next: Vec<u8> = Vec::with_capacity(side * side * 4);
    let ghost ps = prev_side as int;
    let ghost s = side as int;
    let mut row: usize = 0;
    while row < side
        invariant
            row <= side,
            side == prev_side / 2,
            prev@.len() == prev_side * prev_side * 4,
            side * side * 4 <= usize::MAX,
            prev_side * prev_side * 4 <= usize::MAX,
            s == side as int,
            ps == prev_side as int,
            next@.len() == texel_offset(s, row as int, 0, 0),
            forall|r: int, c: int, k: int|
                in_square(s, r, c, k) && texel_offset(s, r, c, k) < next@.len() ==> #[trigger] texel(
                    next@,
                    s,
                    r,
                    c,
                    k,
                ) == box_value(prev@, ps, r, c, k),
        decreases side - row,
    {
        let mut col: usize = 0;
        while col < side
            invariant
                row < side,
                col <= side,
                side == prev_side / 2,
                prev@.len() == prev_side * prev_side * 4,
                side * side * 4 <= usize::MAX,
                prev_side * prev_side * 4 <= usize::MAX,
                s == side as int,
                ps == prev_side as int,
            prev_side * prev_side * 4 <= usize::MAX,
            s == side as int,
            ps == prev_side as int,
                next@.len() == texel_offset(s, row as int, col as int, 0),
                forall|r: int, c: int, k: int|
                    in_square(s, r, c, k) && texel_offset(s, r, c, k) < next@.len()
                        ==> #[trigger] texel(next@, s, r, c, k) == box_value(prev@, ps, r, c, k),
            decreases side - col,
        {
            let mut ch: usize = 0;
            while ch < 4
                invariant
                    row < side,
                    col < side,
                    ch <= 4,
                    side == prev_side / 2,
                    prev@.len() == prev_side * prev_side * 4,
                    side * side * 4 <= usize::MAX,
                    prev_side * prev_side * 4 <= usize::MAX,
                    s == side as int,
                    ps == prev_side as int,
                prev_side * prev_side * 4 <= usize::MAX,
                s == side as int,
                ps == prev_side as int,
            prev_side * prev_side * 4 <= usize::MAX,
            s == side as int,
            ps == prev_side as int,
                    next@.len() == texel_offset(s, row as int, col as int, ch as int),
                    forall|r: int, c: int, k: int|
                        in_square(s, r, c, k) && texel_offset(s, r, c, k) < next@.len()
                            ==> #[trigger] texel(next@, s, r, c, k) == box_value(prev@, ps, r, c, k),
                decreases 4 - ch,
            {
                let top_left = prev[texel_index(prev_side, 2 * row, 2 * col, ch)] as u16;
                let top_right = prev[texel_index(prev_side, 2 * row, 2 * col + 1, ch)] as u16;
                let bottom_left = prev[texel_index(prev_side, 2 * row + 1, 2 * col, ch)] as u16;
                let bottom_right = prev[texel_index(prev_side, 2 * row + 1, 2 * col + 1, ch)] as u16;
                let mean = ((top_left + top_right + bottom_left + bottom_right) / 4) as u8;
                let ghost before = next@;
                proof {
                    lemma_texel_offset_bounds(s, row as int, col as int, ch as int);
                }
                next.push(mean);
                proof {
                    assert forall|r: int, c: int, k: int|
                        in_square(s, r, c, k) && texel_offset(s, r, c, k) < next@.len() implies
                        #[trigger] texel(next@, s, r, c, k) == box_value(prev@, ps, r, c, k) by {
                        if texel_offset(s, r, c, k) < before.len() {
                            assert(texel(before, s, r, c, k) == box_value(prev@, ps, r, c, k));
                        } else {
                            lemma_texel_offset_injective(s, r, c, k, row as int, col as int, ch as int);
                        }
                    }
                }
                ch += 1;
            }
            col += 1;
        }
        proof {
            assert(texel_offset(s, row as int, s, 0) == texel_offset(s, row + 1, 0, 0)) by (nonlinear_arith);
        }
        row += 1;
    }
    proof {
        assert forall|r: int, c: int, k: int| in_square(s, r, c, k) implies
            #[trigger] texel(next@, s, r, c, k) == box_value(prev@, ps, r, c, k) by {
            lemma_texel_offset_bounds(s, r, c, k);
        }
        assert(texel_offset(s, s, 0, 0) == s * s * 4) by (nonlinear_arith);
    }
    next
}

/// Builds the mipmap chain of a square image: level 0 is a copy of the
/// source, each further level is the box-filtered reduction of the previous
/// one, and generation stops after `max_levels` levels (at least one) or
/// before a level whose side would be 0.
pub fn generate_mipmaps(image: &SourceImage, max_levels: u32) -> (r: Result<
    Vec<MipLevel>,
    TextureError,
>)
    requires
        image.wf(),
    ensures
        image.width != image.height ==> r == Err::<Vec<MipLevel>, TextureError>(
            TextureError::DimensionMismatch,
        ),
        image.width == image.height && image.width == 0 ==> r == Err::<Vec<MipLevel>, TextureError>(
            TextureError::EmptyInput,
        ),
        image.width == image.height && image.width > 0 ==> (r matches Ok(levels) && is_chain_shape(
            image.width as nat,
            levels@,
        ) && is_mip_chain(image.pixels@, image.width as nat, max_levels as nat, level_pixels(levels@))),
{
    if image.width != image.height {
        return Err(TextureError::DimensionMismatch);
    }
    if image.width == 0 {
        return Err(TextureError::EmptyInput);
    }
    let n: u32 = image.width;
    let ghost nn = n as nat;
    let mut levels: Vec<MipLevel> = Vec::new();
    levels.push(MipLevel { level: 0, side: n, pixels: image.pixels.clone() });
    let mut level: u32 = 1;
    let mut prev_side: u32 = n;
    proof {
        lemma_side_positive(nn, 0);
    }
    while level < max_levels
        invariant
            nn == n as nat,
            n > 0,
            1 <= level <= levels_with_pixels(nn),
            max_levels == 0 || level <= max_levels,
            max_levels == 0 ==> level == 1,
            levels@.len() == level as int,
            prev_side as nat == side_at(nn, (level - 1) as nat),
            is_chain_shape(nn, levels@),
            levels@[0].pixels@ == image.pixels@,
            forall|i: int|
                0 < i < levels@.len() ==> is_downsample(
                    levels@[i - 1].pixels@,
                    side_at(nn, (i - 1) as nat) as int,
                    side_at(nn, i as nat) as int,
                    #[trigger] levels@[i].pixels@,
                ),
        ensures
            level >= max_levels || level as nat == levels_with_pixels(nn),
            1 <= level <= levels_with_pixels(nn),
            max_levels == 0 || level <= max_levels,
            max_levels == 0 ==> level == 1,
            levels@.len() == level as int,
            is_chain_shape(nn, levels@),
            levels@[0].pixels@ == image.pixels@,
            forall|i: int|
                0 < i < levels@.len() ==> is_downsample(
                    levels@[i - 1].pixels@,
                    side_at(nn, (i - 1) as nat) as int,
                    side_at(nn, i as nat) as int,
                    #[trigger] levels@[i].pixels@,
                ),
        decreases max_levels - level,
    {
        let side: u32 = prev_side / 2;
        proof {
            assert(side_at(nn, level as nat) == side_at(nn, (level - 1) as nat) / 2);
            lemma_side_positive(nn, level as nat);
        }
        if side == 0 {
            assert(level as nat == levels_with_pixels(nn));
            break;
        }
        let last: usize = levels.len() - 1;
        let next = downsample(&levels[last].pixels, prev_side as usize);
        let ghost before = levels@;
        levels.push(MipLevel { level, side, pixels: next });
        proof {
            assert forall|i: int|
                0 < i < levels@.len() implies is_downsample(
                    levels@[i - 1].pixels@,
                    side_at(nn, (i - 1) as nat) as int,
                    side_at(nn, i as nat) as int,
                    #[trigger] levels@[i].pixels@,
                ) by {
                if i < before.len() {
                    assert(levels@[i] == before[i]);
                }
            }
            assert forall|i: int| 0 <= i < levels@.len() implies {
                &&& (#[trigger] levels@[i]).level == i
                &&& levels@[i].side == side_at(nn, i as nat)
                &&& levels@[i].side > 0
                &&& levels@[i].pixels@.len() == levels@[i].side * levels@[i].side * 4
            } by {
                if i < before.len() {
                    assert(levels@[i] == before[i]);
                }
            }
        }
        prev_side = side;
        level = level + 1;
    }
    proof {
        assert(levels@.len() == mip_count(nn, max_levels as nat));
        let px = level_pixels(levels@);
        assert forall|i: int| 0 < i < px.len() implies is_downsample(
            px[i - 1],
            side_at(nn, (i - 1) as nat) as int,
            side_at(nn, i as nat) as int,
            #[trigger] px[i],
        ) by {
            assert(px[i] == levels@[i].pixels@);
        }
    }
    Ok(levels)
}

/// Halving `n` a number of times equals dividing it by that power of two.
pub proof fn lemma_side_at_is_shift(n: nat, i: nat)
    ensures
        side_at(n, i) == n / pow2(i),
    decreases i,
{
    if i == 0 {
        lemma_pow0(2);
        assert(pow2(0) == 1);
    } else {
        let j = (i - 1) as nat;
        lemma_side_at_is_shift(n, j);
        lemma_pow2_pos(j);
        lemma_pow2_unfold(i);
        lemma_div_denominator(n as int, pow2(j) as int, 2);
        assert(pow2(j) * 2 == pow2(i));
    }
}

/// A nonzero side halves to zero after exactly `floor(log2 n) + 1` levels.
pub proof fn lemma_levels_with_pixels_is_log(n: nat)
    requires
        n >= 1,
    ensures
        levels_with_pixels(n) == log(2, n as int) + 1,
    decreases n,
{
    reveal(log);
    if n >= 2 {
        lemma_levels_with_pixels_is_log(n / 2);
    } else {
        assert(levels_with_pixels(0) == 0);
    }
}

/// The length of a mipmap chain: for a base of side `n >= 1` and a cap of
/// `max_levels >= 1` levels, the chain has `min(max_levels, floor(log2 n) + 1)`
/// levels, and level `i` holds `(n >> i)^2 * 4` bytes.
pub proof fn lemma_chain_length(src: Seq<u8>, n: nat, max_levels: nat, levels: Seq<Seq<u8>>)
    requires
        n >= 1,
        max_levels >= 1,
        src.len() == n * n * 4,
        is_mip_chain(src, n, max_levels, levels),
    ensures
        levels.len() == vstd::math::min(max_levels as int, log(2, n as int) + 1),
        forall|i: int|
            0 <= i < levels.len() ==> #[trigger] levels[i].len() == (n / pow2(i as nat)) * (n / pow2(
                i as nat,
            )) * 4,
{
    lemma_levels_with_pixels_is_log(n);
    assert forall|i: int| 0 <= i < levels.len() implies #[trigger] levels[i].len() == (n / pow2(
        i as nat,
    )) * (n / pow2(i as nat)) * 4 by {
        lemma_side_at_is_shift(n, i as nat);
    }
}

/// A 32-bit side yields at most 33 levels.
pub proof fn lemma_levels_with_pixels_bound(n: nat)
    requires
        1 <= n <= u32::MAX,
    ensures
        levels_with_pixels(n) <= 33,
{
    lemma_levels_with_pixels_is_log(n);
    lemma2_to64();
    lemma_pow_positive(2, 32);
    assert(pow(2, 32) == pow2(32) as int);
    lemma_log_is_ordered(2, n as int, pow(2, 32));
    lemma_log_pow(2, 32);
}

} // verus!
