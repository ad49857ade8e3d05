//! The calls into the `image` crate, on plain pixel buffers.
use vstd::prelude::*;
use image::{ImageBuffer, Rgb};

verus! {

/// The samples of an image of `w` by `h` pixels, resampled to `nw` by `nh`
/// pixels with the triangle filter, three channels per pixel.
pub uninterp spec fn triangle_resized(pixels: Seq<u8>, w: nat, h: nat, nw: nat, nh: nat) -> Seq<
    u8,
>;

/// The JPEG file, at the given quality, of an image of `w` by `h` pixels
/// with three channels per pixel.
pub uninterp spec fn jpeg_of(pixels: Seq<u8>, w: nat, h: nat, quality: u8) -> Seq<u8>;

/// The luminance of a pixel with the sRGB weights, truncated.
pub open spec fn luma_of(r: u8, g: u8, b: u8) -> u8 {
    ((2126 * (r as int) + 7152 * (g as int) + 722 * (b as int)) / 10000) as u8
}

/// Relies on `image::imageops::resize` with `FilterType::Triangle`: the
/// result has `nw` by `nh` pixels of three channels, and depends on the
/// arguments alone. Each channel is resampled on its own, with the same
/// weights.
#[verifier::external_body]
pub(crate) fn resize_rgb(pixels: &Vec<u8>, w: u32, h: u32, nw: u32, nh: u32) -> (r: Vec<u8>)
    requires
        pixels@.len() == 3 * w * h,
        w > 0,
        h > 0,
    ensures
        r@ == triangle_resized(pixels@, w as nat, h as nat, nw as nat, nh as nat),
        r@.len() == 3 * nw * nh,
{
    let buf = ImageBuffer::<Rgb<u8>, Vec<u8>>::from_raw(w, h, pixels.clone()).unwrap();
    image::imageops::resize(&buf, nw, nh, image::imageops::FilterType::Triangle).into_raw()
}

/// Relies on `image::imageops::grayscale` on an RGB image: one sample per
/// pixel, `(2126 r + 7152 g + 722 b) / 10000`.
#[verifier::external_body]
pub(crate) fn grayscale_rgb(pixels: &Vec<u8>, w: u32, h: u32) -> (r: Vec<u8>)
    requires
        pixels@.len() == 3 * w * h,
    ensures
        r@.len() == w * h,
        forall|i: int|
            0 <= i < w * h ==> #[trigger] r@[i] == luma_of(
                pixels@[3 * i],
                pixels@[3 * i + 1],
                pixels@[3 * i + 2],
            ),
{
    let buf = ImageBuffer::<Rgb<u8>, Vec<u8>>::from_raw(w, h, pixels.clone()).unwrap();
    image::imageops::grayscale(&buf).into_raw()
}

/// Relies on `image::codecs::jpeg::JpegEncoder::new_with_quality` and
/// `encode` into a `Vec`: the encoded file, which depends on the arguments
/// alone. With a buffer of the right length the only refusal is a side
/// that does not fit in 16 bits; writing to a `Vec` does not fail.
#[verifier::external_body]
pub(crate) fn encode_jpeg(pixels: &Vec<u8>, w: u32, h: u32, quality: u8) -> (r: Option<Vec<u8>>)
    requires
        pixels@.len() == 3 * w * h,
    ensures
        r matches Some(b) ==> b@ == jpeg_of(pixels@, w as nat, h as nat, quality),
        r is Some <==> (w <= 65535 && h <= 65535),
{
    let mut out: Vec<u8> = Vec::new();
    let mut encoder = image::codecs::jpeg::JpegEncoder::new_with_quality(&mut out, quality);
    match encoder.encode(pixels, w, h, image::ColorType::Rgb8) {
        Ok(()) => Some(out),
        Err(_) => None,
    }
}

} // verus!
