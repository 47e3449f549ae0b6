//! The calls into the `image` crate: JPEG encoding and Lanczos resampling.
use vstd::prelude::*;

verus! {

/// The largest width or height that a baseline JPEG frame header can hold.
pub const JPEG_MAX_DIM: u32 = 65535;

/// The bytes that `image`'s JPEG encoder (default quality) writes for an RGB
/// raster of the given width and height.
pub uninterp spec fn jpeg_of(data: Seq<u8>, width: u32, height: u32) -> Seq<u8>;

/// The RGB raster that `image`'s Lanczos3 resampling yields when the given
/// raster is scaled to the new width and height.
pub uninterp spec fn lanczos_of(
    data: Seq<u8>,
    width: u32,
    height: u32,
    new_width: u32,
    new_height: u32,
) -> Seq<u8>;

#[verifier::external_type_specification]
#[verifier::external_body]
pub struct ExImageError(image::ImageError);

/// Relies on `image::codecs::jpeg::JpegEncoder::encode` with `ColorType::Rgb8`,
/// writing into a `Vec`. The encoder asserts that the raster holds three bytes
/// per pixel (hence the `requires`), fails only when a dimension does not fit
/// the 16-bit fields of the frame header (a `Vec` never refuses a write), and
/// begins its output with the two-byte SOI marker.
#[verifier::external_body]
pub(crate) fn encode_jpeg(data: &Vec<u8>, width: u32, height: u32) -> (r: Result<Vec<u8>, image::ImageError>)
    requires
        data@.len() == 3 * (width as int) * (height as int),
    ensures
        r is Ok <==> (width <= JPEG_MAX_DIM && height <= JPEG_MAX_DIM),
        r matches Ok(bytes) ==> bytes@ == jpeg_of(data@, width, height) && bytes@.len() >= 2,
{
    let mut out: Vec<u8> = Vec::new();
    image::codecs::jpeg::JpegEncoder::new(&mut out).encode(data, width, height, image::ColorType::Rgb8)?;
    Ok(out)
}

/// Relies on `image::imageops::resize` with `FilterType::Lanczos3`: it returns
/// a raster of exactly the new dimensions, three bytes per pixel.
#[verifier::external_body]
pub(crate) fn resize_lanczos(data: Vec<u8>, width: u32, height: u32, new_width: u32, new_height: u32) -> (r: Vec<u8>)
    requires
        data@.len() == 3 * (width as int) * (height as int),
        1 <= new_width,
        1 <= new_height,
        3 * (new_width as int) * (new_height as int) <= usize::MAX,
    ensures
        r@ == lanczos_of(data@, width, height, new_width, new_height),
        r@.len() == 3 * (new_width as int) * (new_height as int),
{
    let src: image::RgbImage = image::ImageBuffer::from_raw(width, height, data).unwrap();
    image::imageops::resize(&src, new_width, new_height, image::imageops::FilterType::Lanczos3).into_raw()
}

} // verus!
