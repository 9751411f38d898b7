use raytracer::color::{channel, mean_channel, write_color, write_mean, CEILING};
use raytracer::scalar::Scalar;
use raytracer::vec3::Vec3;

fn sc(x: f64) -> Scalar {
    Scalar::from_bits(x.to_bits())
}

fn expected_channel(x: f64) -> u8 {
    let clamped = if x < 0.0 {
        0.0
    } else if x > 0.999 {
        0.999
    } else {
        x
    };
    (256.0 * clamped) as i32 as u8
}

#[test]
fn channel_of_zero_is_zero() {
    assert_eq!(channel(sc(0.0)), 0);
}

#[test]
fn channel_of_the_ceiling_is_255() {
    assert_eq!(CEILING, 0.999f64.to_bits());
    assert_eq!(channel(sc(0.999)), 255);
}

#[test]
fn channel_above_range_is_clamped_to_255() {
    assert_eq!(channel(sc(1.5)), 255);
    assert_eq!(channel(sc(1.0)), 255);
    assert_eq!(channel(sc(f64::INFINITY)), 255);
    assert_eq!(channel(sc(f64::MAX)), 255);
}

#[test]
fn channel_below_range_is_clamped_to_zero() {
    assert_eq!(channel(sc(-0.25)), 0);
    assert_eq!(channel(sc(-0.0)), 0);
    assert_eq!(channel(sc(f64::NEG_INFINITY)), 0);
}

#[test]
fn channel_of_not_a_number_is_zero() {
    assert_eq!(channel(sc(f64::NAN)), 0);
    assert_eq!(channel(sc(-f64::NAN)), 0);
}

#[test]
fn channel_exact_values() {
    assert_eq!(channel(sc(0.5)), 128);
    assert_eq!(channel(sc(0.25)), 64);
    assert_eq!(channel(sc(0.00390625)), 1);
    assert_eq!(channel(sc(0.0039)), 0);
    assert_eq!(channel(sc(0.1)), 25);
    assert_eq!(channel(sc(0.7)), 179);
    assert_eq!(channel(sc(0.998)), 255);
    assert_eq!(channel(sc(0.99609374)), 254);
    assert_eq!(channel(sc(0.99609375)), 255);
    assert_eq!(channel(sc(5e-324)), 0);
}

#[test]
fn channel_agrees_with_the_hardware() {
    let mut x = -0.3f64;
    while x < 1.3 {
        assert_eq!(channel(sc(x)), expected_channel(x), "{x:?}");
        x += 0.000_731;
    }
    for k in 0..=2560 {
        let x = k as f64 / 2560.0;
        assert_eq!(channel(sc(x)), expected_channel(x), "{x:?}");
        let below = f64::from_bits(x.to_bits().wrapping_sub(1));
        assert_eq!(channel(sc(below)), expected_channel(below), "{below:?}");
        let above = f64::from_bits(x.to_bits() + 1);
        assert_eq!(channel(sc(above)), expected_channel(above), "{above:?}");
    }
}

#[test]
fn write_color_formats_three_channels() {
    let white = Vec3::new(sc(1.0), sc(1.0), sc(1.0));
    assert_eq!(write_color(&white), "255 255 255\n");
    let black = Vec3::new(sc(0.0), sc(0.0), sc(0.0));
    assert_eq!(write_color(&black), "0 0 0\n");
    let mixed = Vec3::new(sc(0.5), sc(0.7), sc(1.0));
    assert_eq!(write_color(&mixed), "128 179 255\n");
    let odd = Vec3::new(sc(-3.0), sc(f64::NAN), sc(0.04));
    assert_eq!(write_color(&odd), "0 0 10\n");
}

#[test]
fn mean_channel_exact_values() {
    assert_eq!(mean_channel(sc(1.5), 3), 128);
    assert_eq!(mean_channel(sc(50.0), 100), 128);
    assert_eq!(mean_channel(sc(2.0), 3), 170);
    assert_eq!(mean_channel(sc(1.0), 3), 85);
    assert_eq!(mean_channel(sc(7.0), 10), 179);
    assert_eq!(mean_channel(sc(12.7), 100), 32);
    assert_eq!(mean_channel(sc(0.3), 4), 19);
    assert_eq!(mean_channel(sc(1073741823.5), i32::MAX), 128);
}

#[test]
fn mean_channel_is_clamped() {
    assert_eq!(mean_channel(sc(99.9), 100), 255);
    assert_eq!(mean_channel(sc(100.0), 100), 255);
    assert_eq!(mean_channel(sc(250.0), 100), 255);
    assert_eq!(mean_channel(sc(1e300), 1000), 255);
    assert_eq!(mean_channel(sc(f64::INFINITY), 7), 255);
    assert_eq!(mean_channel(sc(3.9959999), 4), 255);
    assert_eq!(mean_channel(sc(0.0), 5), 0);
    assert_eq!(mean_channel(sc(-0.0), 5), 0);
    assert_eq!(mean_channel(sc(-3.0), 4), 0);
    assert_eq!(mean_channel(sc(f64::NEG_INFINITY), 4), 0);
    assert_eq!(mean_channel(sc(1e-300), 2), 0);
    assert_eq!(mean_channel(sc(5e-324), i32::MAX), 0);
    assert_eq!(mean_channel(sc(f64::NAN), 4), 0);
}

#[test]
fn the_mean_of_one_sample_is_the_sample() {
    let mut x = -0.3f64;
    while x < 1.3 {
        assert_eq!(mean_channel(sc(x), 1), channel(sc(x)), "{x:?}");
        x += 0.000_377;
    }
    for x in [0.0, -0.0, 0.999, 1.0, 1.5, f64::NAN, f64::INFINITY, f64::NEG_INFINITY, 5e-324] {
        assert_eq!(mean_channel(sc(x), 1), channel(sc(x)), "{x:?}");
    }
}

#[test]
fn mean_channel_divides_by_the_number_of_samples() {
    for samples in [1, 2, 3, 5, 7, 10, 100] {
        for k in 0..=(256 * samples) {
            let total = k as f64 / 256.0;
            let expected = std::cmp::min(k / samples, 255) as u8;
            assert_eq!(mean_channel(sc(total), samples), expected, "{total:?} / {samples}");
        }
    }
}

#[test]
fn write_mean_formats_three_channels() {
    let total = Vec3::new(sc(50.0), sc(70.0), sc(100.0));
    assert_eq!(write_mean(&total, 100), "128 179 255\n");
    let total = Vec3::new(sc(1.0), sc(2.0), sc(3.0));
    assert_eq!(write_mean(&total, 3), "85 170 255\n");
    let single = Vec3::new(sc(0.5), sc(0.7), sc(1.0));
    assert_eq!(write_mean(&single, 1), write_color(&single));
}

#[test]
fn mean_channel_agrees_with_division_in_hardware_arithmetic() {
    let mut state: u64 = 12345;
    for _ in 0..20_000 {
        state = state.wrapping_mul(6364136223846793005).wrapping_add(1442695040888963407);
        let samples = [1, 2, 3, 4, 10, 100, 500][(state >> 60) as usize % 7];
        state = state.wrapping_mul(6364136223846793005).wrapping_add(1442695040888963407);
        let unit = (state >> 11) as f64 / (1u64 << 53) as f64;
        let total = (unit * 1.2 - 0.1) * samples as f64;
        assert_eq!(mean_channel(sc(total), samples), expected_channel(total / samples as f64));
    }
}
