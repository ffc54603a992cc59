//! The rounded-corner mask, on raw buffers and through the real image
//! codec.

use linn::mask::ImageError;
use linn::mask::apply_rounded_corners;
use linn::mask::mask_rounded_corners;

#[test]
fn mask_clears_only_corner_alphas() {
    // A 2x2 image with effective radius 1: only (0, 0) lies outside its
    // quarter-circle, so only its alpha byte is cleared.
    let mut buf: Vec<u8> = vec![
        10, 20, 30, 200, // (0, 0)
        11, 21, 31, 201, // (1, 0)
        12, 22, 32, 202, // (0, 1)
        13, 23, 33, 203, // (1, 1)
    ];
    mask_rounded_corners(&mut buf, 2, 2, 1);
    assert_eq!(
        buf,
        vec![10, 20, 30, 0, 11, 21, 31, 201, 12, 22, 32, 202, 13, 23, 33, 203]
    );
}

#[test]
fn mask_radius_clamps_to_image() {
    // A requested radius far beyond the image clamps to half the smaller
    // side; a 1x1 image clamps to radius 0 and nothing changes.
    let mut buf: Vec<u8> = vec![1, 2, 3, 4];
    mask_rounded_corners(&mut buf, 1, 1, 100);
    assert_eq!(buf, vec![1, 2, 3, 4]);
}

#[test]
fn mask_is_idempotent_on_buffers() {
    let mut once: Vec<u8> = (0..64).map(|i| (i * 3 + 7) as u8).collect();
    mask_rounded_corners(&mut once, 4, 4, 2);
    let mut twice = once.clone();
    mask_rounded_corners(&mut twice, 4, 4, 2);
    assert_eq!(once, twice);
}

#[test]
fn rounded_corners_round_trip_through_codec() {
    let img = image::RgbaImage::from_pixel(4, 4, image::Rgba([10, 20, 30, 200]));
    let mut png: Vec<u8> = Vec::new();
    img.write_to(&mut std::io::Cursor::new(&mut png), image::ImageFormat::Png)
        .unwrap();
    let out = apply_rounded_corners(png, 2).unwrap();
    let decoded = image::load_from_memory(&out).unwrap().to_rgba8();
    assert_eq!(decoded.width(), 4);
    assert_eq!(decoded.height(), 4);
    // (0, 0) is outside its quarter-circle of radius 2; its alpha is gone
    // but its color stays.
    assert_eq!(decoded.get_pixel(0, 0).0, [10, 20, 30, 0]);
    // (1, 1) is inside the circle, (2, 2) is not a corner pixel at all.
    assert_eq!(decoded.get_pixel(1, 1).0, [10, 20, 30, 200]);
    assert_eq!(decoded.get_pixel(2, 2).0, [10, 20, 30, 200]);
}

#[test]
fn undecodable_bytes_are_a_decode_error() {
    let r = apply_rounded_corners(vec![1, 2, 3, 4], 8);
    assert_eq!(r, Err(ImageError::DecodeFailed));
}
