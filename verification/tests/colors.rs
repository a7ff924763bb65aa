//! Color conversion: averaging, gamma, clamping and quantization.

use ray_tracer::color::{Color, SampledColor};
use ray_tracer::vec3::Vec3;

#[test]
fn averaging_identical_samples_matches_single_sample() {
    // Seven identical samples, summed, then averaged, reproduce the
    // single-sample result exactly.
    let single = SampledColor::new(Vec3::new_with_data(10000, 20000, 30000), 1).rgb();
    let seven = SampledColor::new(Vec3::new_with_data(70000, 140000, 210000), 7).rgb();
    assert_eq!(single, seven);
}

#[test]
fn zero_maps_to_zero() {
    let rgb = SampledColor::new(Vec3::new(), 1).rgb();
    assert_eq!((rgb.r, rgb.g, rgb.b), (0, 0, 0));
}

#[test]
fn cap_and_above_map_to_max() {
    // 0.999 and anything above it quantize to 255.
    let rgb = SampledColor::new(Vec3::new_with_data(65470, 65536, 3 * 65536), 1).rgb();
    assert_eq!((rgb.r, rgb.g, rgb.b), (255, 255, 255));
}

#[test]
fn quarter_linear_is_half_gamma() {
    // sqrt(0.25) = 0.5, which quantizes to 128.
    let rgb = SampledColor::new(Vec3::new_with_data(16384, 16384, 16384), 1).rgb();
    assert_eq!((rgb.r, rgb.g, rgb.b), (128, 128, 128));
}

#[test]
fn discretization_is_monotone() {
    let inputs: [i64; 7] = [0, 100, 1000, 16384, 32768, 65470, 65536];
    let mut last: u8 = 0;
    for &x in inputs.iter() {
        let rgb = SampledColor::new(Vec3::new_with_data(x, x, x), 1).rgb();
        assert!(rgb.r >= last);
        last = rgb.r;
    }
}

#[test]
fn averaging_divides_the_sum() {
    // A sum of 1.0 over 4 samples is an average of 0.25 -> gamma 0.5 -> 128.
    let rgb = SampledColor::new(Vec3::new_with_data(65536, 65536, 65536), 4).rgb();
    assert_eq!((rgb.r, rgb.g, rgb.b), (128, 128, 128));
}

#[test]
fn single_sample_color_scales_by_255_999() {
    let full = Color::from(Vec3::new_with_data(65536, 32768, 0)).rgb();
    assert_eq!((full.r, full.g, full.b), (255, 127, 0));
    // Values beyond the displayable range saturate.
    let over = Color::from(Vec3::new_with_data(131072, -65536, 65536)).rgb();
    assert_eq!((over.r, over.g, over.b), (255, 0, 255));
}
