use rasterizer::texture::Texture;

#[test]
fn from_color_is_one_opaque_texel() {
    let t = Texture::from_color(10, 20, 30);
    assert_eq!(t.width, 1);
    assert_eq!(t.height, 1);
    assert_eq!(t.pixels, vec![10, 20, 30, 255]);
}

#[test]
fn default_texture_is_white() {
    let t = Texture::default();
    assert_eq!(t.width, 1);
    assert_eq!(t.height, 1);
    assert_eq!(t.pixels, vec![255, 255, 255, 255]);
}

#[test]
fn get_pixel_reads_the_right_texel() {
    // 2x2 texture with distinct texels.
    let bytes = vec![
        1, 2, 3, 4, //    (0,0)
        5, 6, 7, 8, //    (1,0)
        9, 10, 11, 12, // (0,1)
        13, 14, 15, 16, // (1,1)
    ];
    let t = Texture::from_rgba8(2, 2, bytes).unwrap();
    assert_eq!(t.get_pixel(0, 0), [1, 2, 3, 4]);
    assert_eq!(t.get_pixel(1, 0), [5, 6, 7, 8]);
    assert_eq!(t.get_pixel(0, 1), [9, 10, 11, 12]);
    assert_eq!(t.get_pixel(1, 1), [13, 14, 15, 16]);
}

#[test]
fn get_pixel_clamps_out_of_range_coordinates() {
    let bytes = vec![
        1, 2, 3, 4, 5, 6, 7, 8, //
        9, 10, 11, 12, 13, 14, 15, 16,
    ];
    let t = Texture::from_rgba8(2, 2, bytes).unwrap();
    // Both coordinates past the edge read the last texel.
    assert_eq!(t.get_pixel(7, 9), [13, 14, 15, 16]);
    assert_eq!(t.get_pixel(5, 0), [5, 6, 7, 8]);
    assert_eq!(t.get_pixel(0, 5), [9, 10, 11, 12]);
}

#[test]
fn from_rgba8_rejects_wrong_sizes() {
    assert!(Texture::from_rgba8(2, 2, vec![0; 16]).is_some());
    assert!(Texture::from_rgba8(2, 2, vec![0; 15]).is_none());
    assert!(Texture::from_rgba8(2, 2, vec![0; 17]).is_none());
    assert!(Texture::from_rgba8(0, 2, vec![]).is_none());
    assert!(Texture::from_rgba8(2, 0, vec![]).is_none());
}
