use raytrace::image::{encode_png, ImageError, ImageTexture};

fn grid() -> Vec<[u8; 4]> {
    // 3 wide, 2 high
    vec![
        [1, 0, 0, 255],
        [2, 0, 0, 255],
        [3, 0, 0, 255],
        [4, 0, 0, 255],
        [5, 0, 0, 255],
        [6, 0, 0, 255],
    ]
}

#[test]
fn texel_reads_row_major() {
    let t = ImageTexture::from_pixels(grid(), 3, 2).ok().unwrap();
    assert_eq!(t.width(), 3);
    assert_eq!(t.height(), 2);
    assert_eq!(t.texel(0, 0), [1, 0, 0, 255]);
    assert_eq!(t.texel(2, 0), [3, 0, 0, 255]);
    assert_eq!(t.texel(1, 1), [5, 0, 0, 255]);
}

#[test]
fn texel_clamps_past_the_edge() {
    let t = ImageTexture::from_pixels(grid(), 3, 2).ok().unwrap();
    assert_eq!(t.texel(3, 0), [3, 0, 0, 255]);
    assert_eq!(t.texel(100, 100), [6, 0, 0, 255]);
    assert_eq!(t.texel(0, 2), [4, 0, 0, 255]);
}

#[test]
fn bad_grids_are_refused() {
    assert!(matches!(ImageTexture::from_pixels(grid(), 4, 2), Err(ImageError::BadGrid)));
    assert!(matches!(ImageTexture::from_pixels(Vec::new(), 0, 0), Err(ImageError::BadGrid)));
    assert!(matches!(ImageTexture::from_pixels(grid(), 0, 6), Err(ImageError::BadGrid)));
}

#[test]
fn decodes_png_bytes() {
    let png = lodepng::encode32(&grid(), 3, 2).unwrap();
    let t = ImageTexture::new(&png).ok().unwrap();
    assert_eq!(t.width(), 3);
    assert_eq!(t.height(), 2);
    assert_eq!(t.texel(0, 1), [4, 0, 0, 255]);
    assert_eq!(t.texel(2, 1), [6, 0, 0, 255]);
}

#[test]
fn garbage_is_no_png() {
    assert!(matches!(ImageTexture::new(&[1, 2, 3, 4, 5]), Err(ImageError::Decode)));
}

#[test]
fn encodes_framebuffer_as_png() {
    let png = encode_png(&grid(), 3, 2).ok().unwrap();
    assert_eq!(png, lodepng::encode32(&grid(), 3, 2).unwrap());
    assert_eq!(&png[1..4], b"PNG");
    let back = ImageTexture::new(&png).ok().unwrap();
    assert_eq!(back.texel(1, 0), [2, 0, 0, 255]);
    assert_eq!(back.texel(0, 1), [4, 0, 0, 255]);
}

#[test]
fn encoding_refuses_mismatched_size() {
    assert!(matches!(encode_png(&grid(), 2, 2), Err(ImageError::BadGrid)));
    assert!(matches!(encode_png(&grid(), usize::MAX, 2), Err(ImageError::BadGrid)));
}
