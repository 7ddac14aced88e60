//! The calls into the `image` crate.
//!
//! Verus does not look inside these functions: it takes their contracts on
//! trust.  Each one hands a raw RGBA buffer to the `image` crate and takes
//! the raw buffer of the answer back.

use crate::geometry::Rect;
use crate::pixel::Pixel;
use crate::raster::{pixels_of, Raster};
use vstd::prelude::*;

verus! {

/// Calls `image::DynamicImage::grayscale` on an 8-bit RGBA image.
///
/// Trusted: the answer has the size of the input, every pixel's three
/// colour channels hold the luminance `(2126 R + 7152 G + 722 B) / 10000` of
/// the pixel they replace, and its alpha is unchanged.
#[verifier::external_body]
pub(crate) fn grayscale_rgba(width: u32, height: u32, data: &Vec<u8>) -> (out: Vec<u8>)
    requires
        data@.len() == 4 * (width * height),
    ensures
        out@.len() == data@.len(),
        pixels_of(out@) == pixels_of(data@).map_values(|p: Pixel| p.gray()),
{
    let source = image::RgbaImage::from_raw(width, height, data.clone()).unwrap();
    image::DynamicImage::ImageRgba8(source).grayscale().into_rgba8().into_raw()
}

/// Calls `image::DynamicImage::crop_imm` on an 8-bit RGBA image, with a
/// rectangle that lies inside the image.
///
/// Trusted: the answer has the rectangle's size, and its pixel at `(x, y)`
/// is the input's pixel at `(rect.x + x, rect.y + y)`.
#[verifier::external_body]
pub(crate) fn crop_rgba(width: u32, height: u32, data: &Vec<u8>, rect: Rect) -> (out: Vec<u8>)
    requires
        data@.len() == 4 * (width * height),
        rect.fits(width as nat, height as nat),
    ensures
        out@.len() == 4 * (rect.width * rect.height),
        pixels_of(out@) == (Raster {
            width: width as nat,
            height: height as nat,
            pixels: pixels_of(data@),
        }).region(rect).pixels,
{
    let source = image::RgbaImage::from_raw(width, height, data.clone()).unwrap();
    image::DynamicImage::ImageRgba8(source).crop_imm(
        rect.x,
        rect.y,
        rect.width,
        rect.height,
    ).into_rgba8().into_raw()
}

} // verus!
