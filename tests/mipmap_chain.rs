use mipmap::{downsample, generate_mipmaps, texel_index, SourceImage, TextureError};

fn solid(side: u32, rgba: [u8; 4]) -> SourceImage {
    let mut pixels = Vec::new();
    for _ in 0..side * side {
        pixels.extend_from_slice(&rgba);
    }
    SourceImage::from_rgba(side, side, pixels).unwrap()
}

fn pixel(buf: &[u8], side: usize, row: usize, col: usize) -> [u8; 4] {
    let at = texel_index(side, row, col, 0);
    [buf[at], buf[at + 1], buf[at + 2], buf[at + 3]]
}

#[test]
fn chain_length_is_capped_log2_plus_one() {
    let cases: [(u32, u32, usize); 9] = [
        (1, 5, 1),
        (2, 5, 2),
        (4, 5, 3),
        (8, 5, 4),
        (16, 5, 5),
        (64, 5, 5),
        (64, 2, 2),
        (16, 1, 1),
        (32, 6, 6),
    ];
    for (n, m, expected) in cases {
        let levels = generate_mipmaps(&solid(n, [1, 2, 3, 4]), m).unwrap();
        assert_eq!(levels.len(), expected, "n = {}, m = {}", n, m);
        for (i, level) in levels.iter().enumerate() {
            let side = (n >> i) as usize;
            assert_eq!(level.level as usize, i);
            assert_eq!(level.side as usize, side);
            assert_eq!(level.pixels.len(), side * side * 4);
        }
    }
}

#[test]
fn zero_cap_still_yields_the_base_level() {
    let levels = generate_mipmaps(&solid(8, [9, 9, 9, 9]), 0).unwrap();
    assert_eq!(levels.len(), 1);
    assert_eq!(levels[0].side, 8);
}

#[test]
fn base_level_is_a_copy_of_the_source() {
    let pixels: Vec<u8> = (0..64u32).map(|v| (v * 7 % 256) as u8).collect();
    let image = SourceImage::from_rgba(4, 4, pixels.clone()).unwrap();
    let levels = generate_mipmaps(&image, 5).unwrap();
    assert_eq!(levels[0].pixels, pixels);
}

#[test]
fn uniform_two_by_two_keeps_its_color() {
    let levels = generate_mipmaps(&solid(2, [10, 20, 30, 255]), 5).unwrap();
    assert_eq!(levels.len(), 2);
    assert_eq!(levels[1].pixels, vec![10, 20, 30, 255]);
}

#[test]
fn four_blocks_reduce_to_their_colors() {
    let black = [0u8, 0, 0, 255];
    let white = [255u8, 255, 255, 255];
    let mut pixels = Vec::new();
    for row in 0..4 {
        for col in 0..4 {
            let color = if (row < 2) == (col < 2) { black } else { white };
            pixels.extend_from_slice(&color);
        }
    }
    let image = SourceImage::from_rgba(4, 4, pixels).unwrap();
    let levels = generate_mipmaps(&image, 5).unwrap();
    assert_eq!(levels.len(), 3);
    let level1 = &levels[1].pixels;
    assert_eq!(pixel(level1, 2, 0, 0), black);
    assert_eq!(pixel(level1, 2, 0, 1), white);
    assert_eq!(pixel(level1, 2, 1, 0), white);
    assert_eq!(pixel(level1, 2, 1, 1), black);
    // 2 * 0 + 2 * 255 = 510, and 510 / 4 truncates to 127.
    assert_eq!(levels[2].pixels, vec![127, 127, 127, 255]);
}

#[test]
fn box_filter_truncates() {
    let pixels = vec![
        1, 0, 255, 3, //
        2, 0, 255, 3, //
        3, 1, 254, 3, //
        4, 2, 254, 4,
    ];
    let next = downsample(&pixels, 2);
    // (1+2+3+4)/4 = 2, (0+0+1+2)/4 = 0, (255+255+254+254)/4 = 254, 13/4 = 3
    assert_eq!(next, vec![2, 0, 254, 3]);
}

#[test]
fn no_level_has_side_zero() {
    for n in 1..=40u32 {
        let levels = generate_mipmaps(&solid(n, [5, 6, 7, 8]), 40).unwrap();
        assert!(levels.iter().all(|l| l.side > 0 && !l.pixels.is_empty()));
        assert_eq!(levels.len(), (32 - n.leading_zeros()) as usize);
    }
}

#[test]
fn non_power_of_two_side_drops_the_remainder() {
    let mut pixels = Vec::new();
    for v in 0..9u8 {
        pixels.extend_from_slice(&[v * 4, 0, 0, 255]);
    }
    let image = SourceImage::from_rgba(3, 3, pixels).unwrap();
    let levels = generate_mipmaps(&image, 5).unwrap();
    assert_eq!(levels.len(), 2);
    // Top-left block holds 0, 4, 12, 16.
    assert_eq!(levels[1].pixels, vec![8, 0, 0, 255]);
}

#[test]
fn non_square_image_is_a_dimension_mismatch() {
    let image = SourceImage::from_rgba(4, 2, vec![0; 32]).unwrap();
    assert_eq!(generate_mipmaps(&image, 5).unwrap_err(), TextureError::DimensionMismatch);
    let flat = SourceImage::from_rgba(0, 3, Vec::new()).unwrap();
    assert_eq!(generate_mipmaps(&flat, 5).unwrap_err(), TextureError::DimensionMismatch);
}

#[test]
fn empty_image_is_refused() {
    let image = SourceImage::from_rgba(0, 0, Vec::new()).unwrap();
    assert_eq!(generate_mipmaps(&image, 5).unwrap_err(), TextureError::EmptyInput);
}

#[test]
fn buffer_of_wrong_length_is_not_an_image() {
    assert!(SourceImage::from_rgba(2, 2, vec![0; 15]).is_none());
    assert!(SourceImage::from_rgba(2, 2, vec![0; 17]).is_none());
    assert!(SourceImage::from_rgba(2, 2, vec![0; 16]).is_some());
}

#[test]
fn texel_index_is_row_major() {
    assert_eq!(texel_index(4, 0, 0, 0), 0);
    assert_eq!(texel_index(4, 0, 1, 2), 6);
    assert_eq!(texel_index(4, 2, 3, 1), 45);
}
