use raytracer::camera::{image_height, progress_bar, Camera, WIDESCREEN};
use raytracer::scalar::Scalar;
use raytracer::vec3::Vec3;

fn s(x: f64) -> Scalar {
    Scalar::from_bits(x.to_bits())
}

fn bar(fill: usize, percent: u32) -> String {
    format!("[{}{}] {}%", "=".repeat(fill), " ".repeat(80 - fill), percent)
}

#[test]
fn progress_bar_at_the_start() {
    assert_eq!(progress_bar(0, 225), bar(0, 0));
}

#[test]
fn progress_bar_at_the_end() {
    assert_eq!(progress_bar(225, 225), bar(80, 100));
}

#[test]
fn progress_bar_half_way() {
    assert_eq!(progress_bar(50, 100), bar(40, 50));
    assert_eq!(progress_bar(112, 225), bar(39, 49));
}

#[test]
fn progress_bar_rounds_down() {
    assert_eq!(progress_bar(1, 3), bar(26, 33));
    assert_eq!(progress_bar(2, 3), bar(53, 66));
    assert_eq!(progress_bar(224, 225), bar(79, 99));
}

#[test]
fn progress_bar_with_nothing_to_do() {
    assert_eq!(progress_bar(0, 0), bar(0, 0));
}

#[test]
fn progress_bar_has_fixed_width() {
    for of in [1, 7, 80, 225, 1000, i32::MAX] {
        for curr in [0, 1, of / 3, of / 2, of - 1, of] {
            if 0 <= curr && curr <= of {
                let text = progress_bar(curr, of);
                assert_eq!(text.find(']'), Some(81));
                assert!(text.starts_with('['));
                assert!(text.ends_with('%'));
            }
        }
    }
}

#[test]
fn the_default_camera_is_400_by_225() {
    let camera = Camera::default();
    assert_eq!(camera.image_width, 400);
    assert_eq!(camera.image_height, 225);
    assert_eq!(camera.pixel_samples, 100);
    assert_eq!(WIDESCREEN, (16.0f64 / 9.0).to_bits());
}

#[test]
fn image_height_rounds_to_the_nearest_row() {
    assert_eq!(image_height(400, s(16.0 / 9.0)), 225);
    assert_eq!(image_height(400, s(1.0)), 400);
    assert_eq!(image_height(400, s(2.0)), 200);
    assert_eq!(image_height(100, s(1.5)), 67);
    assert_eq!(image_height(100, s(3.0)), 33);
    assert_eq!(image_height(3, s(2.0)), 2);
    assert_eq!(image_height(5, s(2.0)), 3);
    assert_eq!(image_height(1920, s(16.0 / 9.0)), 1080);
    assert_eq!(image_height(1, s(0.001)), 1000);
    assert_eq!(image_height(7, s(0.3)), 23);
}

#[test]
fn image_height_is_at_least_one() {
    assert_eq!(image_height(1, s(16.0 / 9.0)), 1);
    assert_eq!(image_height(1, s(3.0)), 1);
    assert_eq!(image_height(400, s(1000.0)), 1);
    assert_eq!(image_height(400, s(1e300)), 1);
    assert_eq!(image_height(i32::MAX, s(f64::MAX)), 1);
    assert_eq!(image_height(400, s(f64::INFINITY)), 1);
    assert_eq!(image_height(i32::MAX, s(1.8e19)), 1);
}

#[test]
fn image_height_stops_at_the_largest_integer() {
    assert_eq!(image_height(400, s(1e-300)), i32::MAX);
    assert_eq!(image_height(1, s(5e-324)), i32::MAX);
    assert_eq!(image_height(1, s(1e-10)), i32::MAX);
    assert_eq!(image_height(i32::MAX, s(0.5)), i32::MAX);
    assert_eq!(image_height(i32::MAX, s(1.0)), i32::MAX);
    assert_eq!(image_height(i32::MAX, s(2.0)), 1073741824);
    assert_eq!(image_height(1, s(1.0 / 2147483647.0)), i32::MAX);
    assert_eq!(image_height(1, s(1.0 / 2147483646.0)), 2147483646);
}

#[test]
fn image_height_agrees_with_rounding_in_hardware_arithmetic() {
    for width in [1, 2, 3, 10, 99, 400, 640, 1024, 1920, 4000] {
        for ratio in [0.25, 0.5, 0.75, 1.0, 1.25, 4.0 / 3.0, 1.5, 16.0 / 9.0, 2.0, 2.35, 3.0, 10.0] {
            let exact = width as f64 / ratio;
            if (exact - exact.floor() - 0.5).abs() > 1e-9 {
                let expected = std::cmp::max(exact.round() as i32, 1);
                assert_eq!(image_height(width, s(ratio)), expected, "{width} {ratio}");
            }
        }
    }
}

#[test]
fn pixels_are_counted_row_by_row() {
    let camera = Camera::new(400, s(16.0 / 9.0), 10);
    assert_eq!(camera.pixel_at(0), (0, 0));
    assert_eq!(camera.pixel_at(1), (1, 0));
    assert_eq!(camera.pixel_at(399), (399, 0));
    assert_eq!(camera.pixel_at(400), (0, 1));
    assert_eq!(camera.pixel_at(45_200), (0, 113));
    assert_eq!(camera.pixel_at(400 * 225 - 1), (399, 224));
}

#[test]
fn render_writes_header_and_lines() {
    let camera = Camera::new(2, s(1.0), 1);
    assert_eq!(camera.image_height, 2);
    let pixels = vec![
        Vec3::new(s(0.0), s(0.5), s(1.0)),
        Vec3::new(s(1.0), s(1.0), s(1.0)),
        Vec3::new(s(0.25), s(0.999), s(-1.0)),
        Vec3::new(s(0.1), s(0.2), s(0.3)),
    ];
    let text = camera.render(&pixels).expect("one colour for each pixel");
    assert_eq!(text, "P3\n2 2\n255\n0 128 255\n255 255 255\n64 255 0\n25 51 76\n");
}

#[test]
fn render_wants_one_colour_for_each_pixel() {
    let camera = Camera::new(2, s(1.0), 1);
    let black = Vec3::default();
    assert!(camera.render(&vec![]).is_none());
    assert!(camera.render(&vec![black; 3]).is_none());
    assert!(camera.render(&vec![black; 5]).is_none());
    assert!(camera.render(&vec![black; 4]).is_some());
}

#[test]
fn render_of_the_default_raster_starts_with_its_header() {
    let camera = Camera::default();
    let totals = vec![Vec3::new(s(50.0), s(70.0), s(100.0)); 400 * 225];
    let text = camera.render(&totals).expect("one total for each pixel");
    assert!(text.starts_with("P3\n400 225\n255\n"));
    assert_eq!(text.lines().count(), 3 + 400 * 225);
    assert!(text.lines().skip(3).all(|line| line == "128 179 255"));
    assert!(text.ends_with('\n'));
}

#[test]
fn render_writes_the_mean_of_the_samples() {
    let camera = Camera::new(2, s(2.0), 4);
    assert_eq!(camera.image_height, 1);
    let totals = vec![Vec3::new(s(2.0), s(1.0), s(0.0)), Vec3::new(s(4.0), s(400.0), s(3.0))];
    let text = camera.render(&totals).expect("one total for each pixel");
    assert_eq!(text, "P3\n2 1\n255\n128 64 0\n255 255 192\n");
}

fn in_double_precision(curr: i32, of: i32) -> String {
    let width = 80;
    let percent = curr as f64 / of as f64;
    let fill = (percent * width as f64) as i32;
    let empty = width - fill;
    format!(
        "[{}{}] {}%",
        "=".repeat(fill as usize),
        " ".repeat(empty as usize),
        (percent * 100.0) as i32
    )
}

#[test]
fn progress_bar_where_the_product_falls_short() {
    assert_eq!(progress_bar(29, 100), bar(23, 28));
    assert_eq!(progress_bar(57, 100), bar(45, 56));
    assert_eq!(progress_bar(58, 100), bar(46, 57));
    assert_eq!(progress_bar(58, 200), bar(23, 28));
    assert_eq!(progress_bar(28, 100), bar(22, 28));
    assert_eq!(progress_bar(30, 100), bar(24, 30));
    assert_eq!(progress_bar(56, 100), bar(44, 56));
    assert_eq!(progress_bar(59, 100), bar(47, 59));
}

#[test]
fn progress_bar_agrees_with_double_precision() {
    for of in 0..=250 {
        for curr in 0..=of {
            assert_eq!(progress_bar(curr, of), in_double_precision(curr, of), "{curr} of {of}");
        }
    }
    let mut state: u64 = 99;
    for _ in 0..20_000 {
        state = state.wrapping_mul(6364136223846793005).wrapping_add(1442695040888963407);
        let of = ((state >> 33) as i32).max(1);
        state = state.wrapping_mul(6364136223846793005).wrapping_add(1442695040888963407);
        let curr = ((state >> 33) % (of as u64 + 1)) as i32;
        assert_eq!(progress_bar(curr, of), in_double_precision(curr, of), "{curr} of {of}");
    }
    for k in 0..=100 {
        for step in [1, 3, 7, 100, 12_345, 21_474_836] {
            assert_eq!(progress_bar(k * step, 100 * step), in_double_precision(k * step, 100 * step));
        }
    }
}
