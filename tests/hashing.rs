use raw_processor::error::DecodeError;
use raw_processor::hash::{compute_average_hash, compute_block_median_hash, GrayImage};

fn image(width: usize, height: usize, f: impl Fn(usize, usize) -> u8) -> GrayImage {
    let mut pixels = Vec::new();
    for y in 0..height {
        for x in 0..width {
            pixels.push(f(y, x));
        }
    }
    GrayImage { width, height, pixels }
}

#[test]
fn average_hash_is_64_bits_and_repeatable() {
    let img = image(8, 8, |y, x| ((y * 37 + x * 11) % 256) as u8);
    let a = compute_average_hash(&img).unwrap();
    let b = compute_average_hash(&img).unwrap();
    assert_eq!(a.len(), 64);
    assert!(a.chars().all(|c| c == '0' || c == '1'));
    assert_eq!(a, b);
}

#[test]
fn average_hash_of_flat_image_is_all_ones() {
    for v in [0u8, 1, 128, 255] {
        let img = image(8, 8, |_, _| v);
        assert_eq!(compute_average_hash(&img).unwrap(), "1".repeat(64));
    }
}

#[test]
fn average_hash_of_ramp() {
    // Samples 0..63: the mean 2016 / 64 truncates to 31.
    let img = image(8, 8, |y, x| (y * 8 + x) as u8);
    let expected = format!("{}{}", "0".repeat(31), "1".repeat(33));
    assert_eq!(compute_average_hash(&img).unwrap(), expected);
}

#[test]
fn average_hash_uses_truncated_mean() {
    // One sample of 63 and the rest 0: mean 63 / 64 truncates to 0.
    let img = image(8, 8, |y, x| if y == 0 && x == 0 { 63 } else { 0 });
    assert_eq!(compute_average_hash(&img).unwrap(), "1".repeat(64));
}

#[test]
fn average_hash_rejects_other_shapes() {
    for (w, h) in [(7, 8), (8, 9), (0, 0), (32, 32)] {
        let img = image(w, h, |_, _| 0);
        assert_eq!(compute_average_hash(&img), Err(DecodeError::ShapeMismatch));
    }
}

#[test]
fn block_hash_rejects_31_and_33_rows() {
    for (w, h) in [(32, 31), (32, 33), (31, 32), (33, 32), (8, 8)] {
        let img = image(w, h, |_, _| 9);
        assert_eq!(compute_block_median_hash(&img), Err(DecodeError::ShapeMismatch));
    }
}

#[test]
fn block_hash_of_checkerboard_alternates() {
    let img = image(32, 32, |y, x| if (y / 4 + x / 4) % 2 == 0 { 0 } else { 255 });
    let h = compute_block_median_hash(&img).unwrap();
    let mut expected = String::new();
    for k in 0..64 {
        expected.push(if (k / 8 + k % 8) % 2 == 1 { '1' } else { '0' });
    }
    assert_eq!(h, expected);
}

#[test]
fn block_hash_of_column_ramp_uses_mean_of_central_values() {
    // Block column j has mean 4j + 1.5; the median is the mean of 13.5 and
    // 17.5, so the right half of each block row is set.
    let img = image(32, 32, |_, x| x as u8);
    let h = compute_block_median_hash(&img).unwrap();
    assert_eq!(h, "00001111".repeat(8));
}

#[test]
fn block_hash_of_flat_image_is_all_zeros() {
    let img = image(32, 32, |_, _| 77);
    let h = compute_block_median_hash(&img).unwrap();
    assert_eq!(h, "0".repeat(64));
    assert_eq!(compute_block_median_hash(&img).unwrap(), h);
}

#[test]
fn block_hash_ignores_brightness_offset() {
    let base = image(32, 32, |y, x| ((y * 5 + x * 3) % 200) as u8);
    let raised = image(32, 32, |y, x| ((y * 5 + x * 3) % 200) as u8 + 55);
    assert_eq!(
        compute_block_median_hash(&base).unwrap(),
        compute_block_median_hash(&raised).unwrap()
    );
}

#[test]
fn block_hash_sets_at_most_half_the_bits() {
    for seed in 0..8usize {
        let img = image(32, 32, |y, x| ((y * 31 + x * 17 + seed * 7) % 251) as u8);
        let h = compute_block_median_hash(&img).unwrap();
        assert!(h.chars().filter(|&c| c == '1').count() <= 32);
    }
}
