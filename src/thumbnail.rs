//! Grayscale thumbnails of decoded rasters, the input of the hashes.
use vstd::prelude::*;
use crate::error::DecodeError;
use crate::hash::GrayImage;
use crate::imaging::{grayscale_rgb, luma_of, resize_rgb, triangle_resized};
use crate::sensor::RgbRaster;

verus! {

/// Side of the square thumbnails made for hashing.
pub const THUMBNAIL_SIZE: usize = 512;

/// The luminance of each pixel of a three-channel image.
pub open spec fn luma_plane(p: Seq<u8>, w: nat, h: nat) -> Seq<u8> {
    Seq::new(w * h, |i: int| luma_of(p[3 * i], p[3 * i + 1], p[3 * i + 2]))
}

/// A one-channel image written as three equal channels.
pub open spec fn spread(g: Seq<u8>) -> Seq<u8> {
    Seq::new(3 * g.len(), |j: int| g[j / 3])
}

/// The first channel of each pixel of a three-channel image of `n` pixels.
pub open spec fn first_channel(p: Seq<u8>, n: nat) -> Seq<u8> {
    Seq::new(n, |i: int| p[3 * i])
}

/// The `size` by `size` grayscale thumbnail of a `w` by `h` image: its
/// luminance, resampled with the triangle filter to the square, whatever
/// the aspect ratio. The resampling treats channels alike, so the
/// luminance is resampled as the first of three equal channels.
pub open spec fn thumbnail_of(p: Seq<u8>, w: nat, h: nat, size: nat) -> Seq<u8> {
    first_channel(triangle_resized(spread(luma_plane(p, w, h)), w, h, size, size), size * size)
}

/// The `size` by `size` grayscale thumbnail of a raster. An empty raster
/// has no thumbnail.
pub fn grayscale_thumbnail(img: &RgbRaster, size: usize) -> (r: Result<GrayImage, DecodeError>)
    requires
        img.wf(),
        img.width <= u32::MAX,
        img.height <= u32::MAX,
        size <= u32::MAX,
        3 * size * size <= usize::MAX,
    ensures
        match r {
            Ok(g) => img.width > 0 && img.height > 0 && g.width == size && g.height == size
                && g.wf() && g.pixels@ == thumbnail_of(
                img.pixels@,
                img.width as nat,
                img.height as nat,
                size as nat,
            ),
            Err(e) => (img.width == 0 || img.height == 0) && e == DecodeError::OutputUndecodable,
        },
{
    if img.width == 0 || img.height == 0 {
        return Err(DecodeError::OutputUndecodable);
    }
    let w = img.width as u32;
    let h = img.height as u32;
    let gray = grayscale_rgb(&img.pixels, w, h);
    assert(gray@ =~= luma_plane(img.pixels@, w as nat, h as nat));
    let plen = img.pixels.len();
    assert(3 * (img.width * img.height) == 3 * img.width * img.height) by (nonlinear_arith);
    assert(img.width * img.height <= 3 * (img.width * img.height)) by (nonlinear_arith);
    let n: usize = img.width * img.height;
    let mut spreadv: Vec<u8> = Vec::with_capacity(3 * n);
    let mut i: usize = 0;
    while i < n
        invariant
            i <= n,
            gray@.len() == n,
            3 * n <= usize::MAX,
            spreadv@ =~= spread(gray@).subrange(0, 3 * i),
        decreases n - i,
    {
        let g = gray[i];
        proof {
            assert(spread(gray@)[3 * i] == g) by {
                assert((3 * i) / 3 == i as int) by (nonlinear_arith);
            }
            assert(spread(gray@)[3 * i + 1] == g) by {
                assert((3 * i + 1) / 3 == i as int) by (nonlinear_arith);
            }
            assert(spread(gray@)[3 * i + 2] == g) by {
                assert((3 * i + 2) / 3 == i as int) by (nonlinear_arith);
            }
        }
        spreadv.push(g);
        spreadv.push(g);
        spreadv.push(g);
        i = i + 1;
    }
    assert(spreadv@ =~= spread(gray@));
    let s = size as u32;
    let resized = resize_rgb(&spreadv, w, h, s, s);
    assert(3 * (size * size) == 3 * size * size) by (nonlinear_arith);
    let m: usize = size * size;
    let mut out: Vec<u8> = Vec::with_capacity(m);
    let mut k: usize = 0;
    while k < m
        invariant
            k <= m,
            resized@.len() == 3 * m,
            3 * m <= usize::MAX,
            out@ =~= first_channel(resized@, m as nat).subrange(0, k as int),
        decreases m - k,
    {
        out.push(resized[3 * k]);
        k = k + 1;
    }
    Ok(GrayImage { width: size, height: size, pixels: out })
}

} // verus!
