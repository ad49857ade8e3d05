//! The in-process decode: a coarse colour estimate from mosaiced sensor
//! levels, an optional downscale, and JPEG encoding.
use vstd::prelude::*;
use crate::error::DecodeError;
use crate::imaging::{encode_jpeg, jpeg_of, resize_rgb, triangle_resized};

verus! {

/// Width or height above which the sensor image is halved.
pub const DOWNSCALE_ABOVE: usize = 2000;

/// JPEG quality of the in-process decode.
pub const JPEG_QUALITY: u8 = 85;

/// Largest side that a JPEG file can have.
pub const JPEG_MAX_SIDE: u32 = 65535;

/// A three-channel 8-bit image, stored row by row as red, green, blue.
#[derive(Clone, Debug)]
pub struct RgbRaster {
    pub width: usize,
    pub height: usize,
    pub pixels: Vec<u8>,
}

impl RgbRaster {
    /// The buffer holds exactly three samples per pixel.
    pub open spec fn wf(&self) -> bool {
        self.pixels@.len() == 3 * self.width * self.height
    }
}

/// The channel that dominates at a site of the 2x2 RGGB tile: red at the
/// top left, green on the diagonal, blue at the bottom right.
pub open spec fn dominant_channel(y: int, x: int) -> int {
    let site = 2 * (y % 2) + x % 2;
    if site == 0 {
        0
    } else if site == 3 {
        2
    } else {
        1
    }
}

/// Channel `c` of the pixel at row `y`, column `x`, whose sensor level is
/// `v`: the level in the dominant channel, half of it in the others.
pub open spec fn bayer_channel(v: u8, y: int, x: int, c: int) -> u8 {
    if c == dominant_channel(y, x) {
        v
    } else {
        v / 2
    }
}

/// The colour estimate of a `w`-wide image from its sensor levels, three
/// samples per pixel.
pub open spec fn bayer_estimate_of(levels: Seq<u8>, w: nat, h: nat) -> Seq<u8> {
    Seq::new(
        3 * w * h,
        |j: int| bayer_channel(levels[j / 3], (j / 3) / (w as int), (j / 3) % (w as int), j % 3),
    )
}

/// Whether a sensor image of these dimensions is halved before encoding.
pub open spec fn needs_downscale(w: nat, h: nat) -> bool {
    w > DOWNSCALE_ABOVE || h > DOWNSCALE_ABOVE
}

/// The raster made from `w` by `h` pixels of samples `p`, halved with the
/// triangle filter where the image is large.
pub open spec fn downscaled_of(p: Seq<u8>, w: nat, h: nat) -> (Seq<u8>, nat, nat) {
    if !needs_downscale(w, h) {
        (p, w, h)
    } else if w == 0 || h == 0 {
        (Seq::empty(), w / 2, h / 2)
    } else {
        (triangle_resized(p, w, h, w / 2, h / 2), w / 2, h / 2)
    }
}

/// The JPEG file that the in-process decode makes of `w` by `h` sensor
/// levels.
pub open spec fn sensor_jpeg_of(levels: Seq<u8>, w: nat, h: nat) -> Seq<u8> {
    let d = sensor_raster_of(levels, w, h);
    jpeg_of(d.0, d.1, d.2, JPEG_QUALITY)
}

/// The raster that the in-process decode encodes: samples, width, height.
pub open spec fn sensor_raster_of(levels: Seq<u8>, w: nat, h: nat) -> (Seq<u8>, nat, nat) {
    downscaled_of(bayer_estimate_of(levels, w, h), w, h)
}

/// Whether the raster of a `w` by `h` sensor image fits in a JPEG file.
pub open spec fn encodable(w: nat, h: nat) -> bool {
    let d = downscaled_of(Seq::empty(), w, h);
    d.1 <= JPEG_MAX_SIDE && d.2 <= JPEG_MAX_SIDE
}

proof fn lemma_triple_index(i: int, c: int)
    requires
        0 <= i,
        0 <= c < 3,
    ensures
        (3 * i + c) / 3 == i,
        (3 * i + c) % 3 == c,
{
    assert((3 * i + c) / 3 == i && (3 * i + c) % 3 == c) by (nonlinear_arith)
        requires
            0 <= i,
            0 <= c < 3,
    ;
}

/// The coarse colour estimate of mosaiced sensor levels, one level per
/// pixel, row by row, with an RGGB pattern assumed. Fails when there are
/// fewer levels than pixels; levels past the last pixel are ignored.
pub fn bayer_estimate(width: usize, height: usize, levels: &Vec<u8>) -> (r: Result<
    RgbRaster,
    DecodeError,
>)
    requires
        3 * width * height <= usize::MAX,
    ensures
        match r {
            Ok(img) => levels@.len() >= width * height && img.width == width && img.height
                == height && img.wf() && img.pixels@ == bayer_estimate_of(
                levels@,
                width as nat,
                height as nat,
            ),
            Err(e) => levels@.len() < width * height && e == DecodeError::SensorDataTruncated,
        },
{
    assert(width * height <= 3 * width * height) by (nonlinear_arith);
    assert(3 * (width * height) == 3 * width * height) by (nonlinear_arith);
    let n: usize = width * height;
    if levels.len() < n {
        return Err(DecodeError::SensorDataTruncated);
    }
    let ghost spec_pixels = bayer_estimate_of(levels@, width as nat, height as nat);
    let mut out: Vec<u8> = Vec::with_capacity(3 * n);
    let mut i: usize = 0;
    while i < n
        invariant
            i <= n,
            n == width * height,
            3 * n <= usize::MAX,
            3 * n == 3 * width * height,
            levels@.len() >= n,
            width > 0 || n == 0,
            spec_pixels == bayer_estimate_of(levels@, width as nat, height as nat),
            out@ =~= spec_pixels.subrange(0, 3 * i),
        decreases n - i,
    {
        assert(width > 0);
        let y = i / width;
        let x = i % width;
        let v = levels[i];
        let site = 2 * (y % 2) + x % 2;
        let (red, green, blue) = if site == 0 {
            (v, v / 2, v / 2)
        } else if site == 3 {
            (v / 2, v / 2, v)
        } else {
            (v / 2, v, v / 2)
        };
        proof {
            lemma_triple_index(i as int, 0);
            lemma_triple_index(i as int, 1);
            lemma_triple_index(i as int, 2);
            assert(3 * i + 3 <= 3 * n);
            let w = width as int;
            assert(dominant_channel(y as int, x as int) == (if site == 0 {
                0int
            } else if site == 3 {
                2int
            } else {
                1int
            }));
            assert(spec_pixels[3 * i] == bayer_channel(v, y as int, x as int, 0));
            assert(spec_pixels[3 * i + 1] == bayer_channel(v, y as int, x as int, 1));
            assert(spec_pixels[3 * i + 2] == bayer_channel(v, y as int, x as int, 2));
        }
        out.push(red);
        out.push(green);
        out.push(blue);
        i = i + 1;
        assert(out@ =~= spec_pixels.subrange(0, 3 * i));
    }
    assert(spec_pixels.len() == 3 * n);
    assert(out@ =~= spec_pixels);
    Ok(RgbRaster { width, height, pixels: out })
}

/// The raster halved with the triangle filter where either dimension is
/// above the threshold, and unchanged otherwise.
pub fn downscale_large(img: RgbRaster) -> (r: RgbRaster)
    requires
        img.wf(),
        img.width <= u32::MAX,
        img.height <= u32::MAX,
    ensures
        r.wf(),
        (r.pixels@, r.width as nat, r.height as nat) == downscaled_of(
            img.pixels@,
            img.width as nat,
            img.height as nat,
        ),
{
    if img.width <= DOWNSCALE_ABOVE && img.height <= DOWNSCALE_ABOVE {
        return img;
    }
    let nw = img.width / 2;
    let nh = img.height / 2;
    if img.width == 0 || img.height == 0 {
        assert(3 * nw * nh == 0) by (nonlinear_arith)
            requires
                nw == 0 || nh == 0,
        ;
        return RgbRaster { width: nw, height: nh, pixels: Vec::new() };
    }
    let pixels = resize_rgb(&img.pixels, img.width as u32, img.height as u32, nw as u32, nh as u32);
    RgbRaster { width: nw, height: nh, pixels }
}

/// The in-process decode of `width` by `height` sensor levels into a JPEG
/// file: colour estimate, halving of large images, encoding. Fails with
/// `SensorDataTruncated` when there are fewer levels than pixels, and with
/// `IoError` when the raster is too large for a JPEG file; succeeds
/// otherwise.
pub fn render_sensor_image(width: usize, height: usize, levels: &Vec<u8>) -> (r: Result<
    Vec<u8>,
    DecodeError,
>)
    requires
        3 * width * height <= usize::MAX,
        width <= u32::MAX,
        height <= u32::MAX,
    ensures
        levels@.len() < width * height <==> r == Err::<Vec<u8>, DecodeError>(
            DecodeError::SensorDataTruncated,
        ),
        r matches Ok(b) ==> b@ == sensor_jpeg_of(levels@, width as nat, height as nat),
        levels@.len() >= width * height ==> (r is Ok <==> encodable(width as nat, height as nat)),
        levels@.len() >= width * height && !encodable(width as nat, height as nat) ==> r
            == Err::<Vec<u8>, DecodeError>(DecodeError::IoError),
{
    let img = match bayer_estimate(width, height, levels) {
        Ok(img) => img,
        Err(e) => return Err(e),
    };
    let small = downscale_large(img);
    assert(small.width <= width && small.height <= height);
    match encode_jpeg(&small.pixels, small.width as u32, small.height as u32, JPEG_QUALITY) {
        Some(b) => Ok(b),
        None => Err(DecodeError::IoError),
    }
}

/// The in-process decode is bit-identical across runs: the same levels
/// give the same file. Sensor images of the same dimensions give rasters of
/// the same dimensions, halved exactly when the image is large.
pub proof fn lemma_sensor_decode_repeatable(a: Seq<u8>, b: Seq<u8>, w: nat, h: nat)
    ensures
        downscaled_of(bayer_estimate_of(a, w, h), w, h).1 == downscaled_of(
            bayer_estimate_of(b, w, h),
            w,
            h,
        ).1,
        downscaled_of(bayer_estimate_of(a, w, h), w, h).2 == downscaled_of(
            bayer_estimate_of(b, w, h),
            w,
            h,
        ).2,
        downscaled_of(bayer_estimate_of(a, w, h), w, h).1 == (if needs_downscale(w, h) {
            w / 2
        } else {
            w
        }),
        downscaled_of(bayer_estimate_of(a, w, h), w, h).2 == (if needs_downscale(w, h) {
            h / 2
        } else {
            h
        }),
        a == b ==> sensor_jpeg_of(a, w, h) == sensor_jpeg_of(b, w, h),
{
}

} // verus!
