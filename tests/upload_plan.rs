use mipmap::{
    generate_mipmaps, load_image, plan_upload, Extent3d, Origin3d, SourceImage, TextureDimension,
    TextureError, TextureFormat, TextureUsage,
};

fn gradient(side: u32) -> SourceImage {
    let pixels: Vec<u8> = (0..side * side * 4).map(|v| (v % 251) as u8).collect();
    SourceImage::from_rgba(side, side, pixels).unwrap()
}

#[test]
fn descriptor_counts_the_chain_levels() {
    let up = load_image(&gradient(16), 5).unwrap();
    let d = up.descriptor;
    assert_eq!(d.size, Extent3d { width: 16, height: 16, depth: 1 });
    assert_eq!(d.array_layer_count, 1);
    assert_eq!(d.mip_level_count, 5);
    assert_eq!(d.sample_count, 1);
    assert_eq!(d.dimension, TextureDimension::D2);
    assert_eq!(d.format, TextureFormat::Rgba8Unorm);
    assert_eq!(d.usage, TextureUsage { copy_dst: true, sampled: true });
}

#[test]
fn small_image_gets_a_shorter_chain() {
    let up = load_image(&gradient(4), 5).unwrap();
    assert_eq!(up.descriptor.mip_level_count, 3);
    assert_eq!(up.levels.len(), 3);
    assert_eq!(up.copies.len(), 3);
}

#[test]
fn one_copy_per_level_in_order() {
    let up = load_image(&gradient(8), 5).unwrap();
    assert_eq!(up.copies.len(), 4);
    for (i, copy) in up.copies.iter().enumerate() {
        let side = 8u32 >> i;
        assert_eq!(copy.extent, Extent3d { width: side, height: side, depth: 1 });
        assert_eq!(copy.texture.mip_level, i as u32);
        assert_eq!(copy.texture.array_layer, 0);
        assert_eq!(copy.texture.origin, Origin3d { x: 0, y: 0, z: 0 });
        assert_eq!(copy.buffer.offset, 0);
        assert_eq!(copy.buffer.bytes_per_row, 4 * side as u64);
        assert_eq!(copy.buffer.rows_per_image, side);
        assert_eq!(copy.buffer_size, up.levels[i].pixels.len() as u64);
        assert_eq!(copy.buffer_size, (side * side * 4) as u64);
    }
}

#[test]
fn plan_carries_the_generated_levels() {
    let image = gradient(8);
    let expected = generate_mipmaps(&image, 3).unwrap();
    let up = plan_upload(8, generate_mipmaps(&image, 3).unwrap());
    assert_eq!(up.levels.len(), 3);
    for (a, b) in up.levels.iter().zip(expected.iter()) {
        assert_eq!(a.pixels, b.pixels);
    }
    assert_eq!(up.descriptor.mip_level_count, 3);
}

#[test]
fn non_square_image_is_refused_before_planning() {
    let image = SourceImage::from_rgba(8, 4, vec![0; 128]).unwrap();
    assert_eq!(load_image(&image, 5).unwrap_err(), TextureError::DimensionMismatch);
}

#[test]
fn empty_image_is_refused_before_planning() {
    let image = SourceImage::from_rgba(0, 0, Vec::new()).unwrap();
    assert_eq!(load_image(&image, 5).unwrap_err(), TextureError::EmptyInput);
}
