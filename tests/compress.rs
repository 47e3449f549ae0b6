use shrinkjpeg::error::CompressError;
use shrinkjpeg::pixels::PixelBuffer;
use shrinkjpeg::shrink::{compress_pixels, compress_to_path};

/// A raster of pseudo-random noise, which JPEG compresses poorly.
fn noise(width: u32, height: u32, seed: u64) -> PixelBuffer {
    let mut state = seed;
    let mut data = Vec::with_capacity((width * height * 3) as usize);
    for _ in 0..width * height * 3 {
        state = state.wrapping_mul(6364136223846793005).wrapping_add(1442695040888963407);
        data.push((state >> 56) as u8);
    }
    PixelBuffer::from_raw(width, height, data).unwrap()
}

fn jpeg_len(p: &PixelBuffer) -> usize {
    compress_pixels(p.clone(), usize::MAX).unwrap().encoded.len()
}

#[test]
fn from_raw_checks_the_sample_count() {
    assert!(PixelBuffer::from_raw(2, 2, vec![0; 12]).is_some());
    assert!(PixelBuffer::from_raw(2, 2, vec![0; 11]).is_none());
    assert!(PixelBuffer::from_raw(0, 2, vec![]).is_none());
    assert!(PixelBuffer::from_raw(2, 0, vec![]).is_none());
    let p = PixelBuffer::from_raw(3, 1, vec![1, 2, 3, 4, 5, 6, 7, 8, 9]).unwrap();
    assert_eq!((p.width(), p.height()), (3, 1));
    assert_eq!(p.into_raw(), vec![1, 2, 3, 4, 5, 6, 7, 8, 9]);
}

#[test]
fn fitting_image_passes_through_unchanged() {
    let img = noise(64, 48, 1);
    let out = compress_pixels(img.clone(), 1 << 30).unwrap();
    assert_eq!(out.pixels, img);
    assert_eq!(&out.encoded[..2], &[0xff, 0xd8]);
    assert_eq!(out.encoded.len(), jpeg_len(&img));
}

#[test]
fn budget_at_exact_size_passes_through() {
    let img = noise(40, 30, 2);
    let size = jpeg_len(&img);
    let out = compress_pixels(img.clone(), size).unwrap();
    assert_eq!(out.pixels, img);
    assert_eq!(out.encoded.len(), size);
}

#[test]
fn over_budget_image_shrinks_until_it_fits() {
    let img = noise(400, 300, 3);
    let full = jpeg_len(&img);
    let budget = full / 5;
    let out = compress_pixels(img.clone(), budget).unwrap();
    assert!(out.encoded.len() <= budget);
    assert!(out.pixels.width() < 400 && out.pixels.height() < 300);
    // The returned bytes are the encoding of the returned raster.
    let again = compress_pixels(out.pixels.clone(), usize::MAX).unwrap();
    assert_eq!(again.encoded, out.encoded);
}

#[test]
fn first_shrink_follows_the_scale_formula() {
    let img = noise(200, 150, 4);
    let full = jpeg_len(&img);
    // A budget just under the full size: one shrink of roughly sqrt(budget / full).
    let budget = full * 9 / 10;
    let out = compress_pixels(img, budget).unwrap();
    assert!(out.encoded.len() <= budget);
    let s = (budget as f64 / full as f64).sqrt();
    assert!(out.pixels.width() <= (200f64 * s).round() as u32);
    assert!(out.pixels.height() <= (150f64 * s).round() as u32);
}

#[test]
fn aspect_ratio_is_roughly_kept() {
    let img = noise(300, 100, 5);
    let budget = jpeg_len(&img) / 4;
    let out = compress_pixels(img, budget).unwrap();
    let (w, h) = (out.pixels.width() as f64, out.pixels.height() as f64);
    assert!((w / h - 3.0).abs() < 0.2);
}

#[test]
fn zero_budget_fails_with_resize_error() {
    assert_eq!(compress_pixels(noise(32, 32, 6), 0), Err(CompressError::Resize));
    assert_eq!(compress_pixels(noise(1, 1, 6), 0), Err(CompressError::Resize));
}

#[test]
fn tiny_budget_fails_rather_than_looping() {
    assert_eq!(compress_pixels(noise(64, 64, 7), 10), Err(CompressError::Resize));
}

#[test]
fn oversized_dimension_is_an_encode_error() {
    let wide = PixelBuffer::from_raw(65536, 1, vec![0; 65536 * 3]).unwrap();
    assert_eq!(compress_pixels(wide, 1 << 30), Err(CompressError::Encode));
}

#[test]
fn synthetic_photo_reaches_a_small_budget() {
    let img = noise(800, 600, 8);
    let budget = 20 * 1024;
    assert!(jpeg_len(&img) > budget);
    let out = compress_pixels(img, budget).unwrap();
    assert!(out.encoded.len() <= budget);
    assert!(out.pixels.width() < 800 && out.pixels.height() < 600);
}

#[test]
fn output_is_named_after_the_source() {
    let img = noise(120, 90, 9);
    let budget = jpeg_len(&img) / 2;
    let out = compress_to_path(b"image/4mb.jpg", img, budget).unwrap();
    assert_eq!(out.path, b"image/compressed_4mb.jpg".to_vec());
    assert!(out.compressed.encoded.len() <= budget);
}

#[test]
fn fitting_image_is_still_named_after_the_source() {
    let img = noise(16, 16, 10);
    let out = compress_to_path(b"dir/photo.png", img.clone(), 1 << 30).unwrap();
    assert_eq!(out.path, b"dir/compressed_photo.jpg".to_vec());
    assert_eq!(out.compressed.pixels, img);
}

#[test]
fn source_without_file_name_is_an_io_error() {
    assert_eq!(compress_to_path(b"dir/", noise(8, 8, 11), 1 << 30), Err(CompressError::Io));
}

#[test]
fn loop_error_comes_before_naming() {
    assert_eq!(compress_to_path(b"dir/", noise(8, 8, 12), 0), Err(CompressError::Resize));
}
