//! The resampling and colour conversion that the `image` crate performs.
//!
//! Nothing in this file is proved: each function states what the crate's
//! code does, and the rest of the library builds on those statements.

use vstd::prelude::*;

verus! {

/// The bytes that Lanczos resampling (window 3) of an 8-bit RGB image of
/// `width` by `height` pixels to `new_width` by `new_height` pixels yields.
pub uninterp spec fn lanczos3_resampled(
    pixels: Seq<u8>,
    width: int,
    height: int,
    new_width: int,
    new_height: int,
) -> Seq<u8>;

/// Brightness of one RGB pixel: the weighted mean with weights
/// 0.2126, 0.7152 and 0.0722, rounded down.
pub open spec fn luma_of(r: u8, g: u8, b: u8) -> u8 {
    ((2126 * r + 7152 * g + 722 * b) / 10000) as u8
}

/// The brightness of every pixel of an RGB buffer, in order.
pub open spec fn luma_plane(rgb: Seq<u8>) -> Seq<u8> {
    Seq::new((rgb.len() / 3) as nat, |i: int| luma_of(rgb[3 * i], rgb[3 * i + 1], rgb[3 * i + 2]))
}

/// Calls `image::imageops::resize` with `FilterType::Lanczos3` on an RGB
/// image held as raw bytes. The crate computes the result from the
/// arguments alone, in 32-bit floating point, and it has three bytes for
/// each pixel of the new size. The intermediate image that the crate
/// allocates holds four 32-bit floats for each of `width * new_height`
/// pixels, which is why that product is bounded.
#[verifier::external_body]
pub(crate) fn resample_lanczos3(
    pixels: &Vec<u8>,
    width: u32,
    height: u32,
    new_width: u32,
    new_height: u32,
) -> (out: Vec<u8>)
    requires
        pixels@.len() == width * height * 3,
        width >= 1,
        height >= 1,
        new_width >= 1,
        new_height >= 1,
        width * new_height * 16 <= isize::MAX,
        new_width * new_height * 3 <= isize::MAX,
    ensures
        out@ == lanczos3_resampled(
            pixels@,
            width as int,
            height as int,
            new_width as int,
            new_height as int,
        ),
        out@.len() == new_width * new_height * 3,
{
    let source = image::RgbImage::from_raw(width, height, pixels.clone()).unwrap();
    let filter = image::imageops::FilterType::Lanczos3;
    image::imageops::resize(&source, new_width, new_height, filter).into_raw()
}

/// Calls `image::DynamicImage::to_luma8` on an RGB image held as raw
/// bytes. For 8-bit RGB the crate computes each output byte as
/// `(2126 r + 7152 g + 722 b) / 10000` in integer arithmetic.
#[verifier::external_body]
pub(crate) fn rgb_to_luma(pixels: &Vec<u8>, width: u32, height: u32) -> (out: Vec<u8>)
    requires
        pixels@.len() == width * height * 3,
    ensures
        out@ == luma_plane(pixels@),
{
    let source = image::RgbImage::from_raw(width, height, pixels.clone()).unwrap();
    image::DynamicImage::ImageRgb8(source).to_luma8().into_raw()
}

} // verus!
