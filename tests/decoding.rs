use raw_processor::error::DecodeError;
use raw_processor::sensor::{bayer_estimate, downscale_large, render_sensor_image, RgbRaster};
use raw_processor::thumbnail::grayscale_thumbnail;

#[test]
fn bayer_estimate_of_one_tile() {
    let r = bayer_estimate(2, 2, &vec![200, 100, 50, 10]).unwrap();
    assert_eq!((r.width, r.height), (2, 2));
    assert_eq!(r.pixels, vec![200, 100, 100, 50, 100, 50, 25, 50, 25, 5, 5, 10]);
}

#[test]
fn bayer_estimate_ignores_extra_levels() {
    let r = bayer_estimate(1, 1, &vec![9, 200, 200]).unwrap();
    assert_eq!(r.pixels, vec![9, 4, 4]);
}

#[test]
fn truncated_sensor_data_fails() {
    assert_eq!(bayer_estimate(2, 2, &vec![1, 2, 3]).err(), Some(DecodeError::SensorDataTruncated));
    assert_eq!(render_sensor_image(4, 4, &vec![0; 15]), Err(DecodeError::SensorDataTruncated));
}

#[test]
fn render_makes_a_jpeg_and_repeats_exactly() {
    let levels: Vec<u8> = (0..256).map(|i| i as u8).collect();
    let a = render_sensor_image(16, 16, &levels).unwrap();
    let b = render_sensor_image(16, 16, &levels).unwrap();
    assert_eq!(&a[..2], &[0xFF, 0xD8]);
    assert_eq!(a, b);
}

#[test]
fn large_rasters_are_halved() {
    let img = RgbRaster { width: 2002, height: 4, pixels: vec![60; 3 * 2002 * 4] };
    let small = downscale_large(img);
    assert_eq!((small.width, small.height), (1001, 2));
    assert_eq!(small.pixels.len(), 3 * 1001 * 2);
    assert!(small.pixels.iter().all(|&p| p == 60));
    let img = RgbRaster { width: 2000, height: 2000, pixels: vec![1; 3 * 2000 * 2000] };
    let same = downscale_large(img);
    assert_eq!((same.width, same.height), (2000, 2000));
}

#[test]
fn thumbnail_is_square_luminance() {
    let mut pixels = Vec::new();
    for _ in 0..(6 * 3) {
        pixels.extend_from_slice(&[255, 0, 0]);
    }
    let img = RgbRaster { width: 6, height: 3, pixels };
    let t = grayscale_thumbnail(&img, 8).unwrap();
    assert_eq!((t.width, t.height), (8, 8));
    assert_eq!(t.pixels.len(), 64);
    // 2126 * 255 / 10000 truncates to 54.
    assert!(t.pixels.iter().all(|&p| p == 54));
}

#[test]
fn thumbnail_of_empty_raster_fails() {
    let img = RgbRaster { width: 0, height: 5, pixels: Vec::new() };
    assert_eq!(grayscale_thumbnail(&img, 8).err(), Some(DecodeError::OutputUndecodable));
}

#[test]
fn encoder_refusal_is_an_io_error() {
    // Halved to 70000 by 0 pixels, wider than a JPEG file can be.
    let levels = vec![100u8; 140000];
    assert_eq!(render_sensor_image(140000, 1, &levels), Err(DecodeError::IoError));
}

#[test]
fn full_scale_tile_gives_rggb_tints() {
    let r = bayer_estimate(2, 2, &vec![255; 4]).unwrap();
    assert_eq!(r.pixels, vec![255, 127, 127, 127, 255, 127, 127, 255, 127, 127, 127, 255]);
    assert!(render_sensor_image(2, 2, &vec![255; 4]).is_ok());
}

#[test]
fn large_sensor_images_still_encode() {
    let levels = vec![30u8; 2100 * 2];
    let a = render_sensor_image(2100, 2, &levels).unwrap();
    assert_eq!(&a[..2], &[0xFF, 0xD8]);
}
