use pathtracer::num::{div_i64, isqrt_u128, mul_fx};
use pathtracer::utils::color::Color;
use pathtracer::utils::lerp;
use pathtracer::utils::pretty_print_int;
use pathtracer::utils::vector::Vec3;
use pathtracer::FP_ONE;

#[test]
fn pretty_print_small() {
    assert_eq!(pretty_print_int(0), "0");
    assert_eq!(pretty_print_int(7), "7");
    assert_eq!(pretty_print_int(42), "42");
    assert_eq!(pretty_print_int(999), "999");
}

#[test]
fn pretty_print_grouped() {
    assert_eq!(pretty_print_int(1000), "1,000");
    assert_eq!(pretty_print_int(1234), "1,234");
    assert_eq!(pretty_print_int(1000000), "1,000,000");
    assert_eq!(pretty_print_int(987654321), "987,654,321");
    assert_eq!(pretty_print_int(1002003), "1,002,003");
}

#[test]
fn color_builders() {
    let c = Color::rgb(12, 34, 56);
    assert_eq!((c.r, c.g, c.b), (12, 34, 56));
    let k = Color::black();
    assert_eq!((k.r, k.g, k.b), (0, 0, 0));
}

#[test]
fn color_normalize_range() {
    let v = Color::rgb(255, 0, 51).normalize();
    assert_eq!(v.x, FP_ONE);
    assert_eq!(v.y, 0);
    assert_eq!(v.z, 51 * FP_ONE / 255);
}

#[test]
fn color_quantize_round_trip() {
    // Full-intensity radiance over one sample quantizes to full white.
    let white = Vec3::new(FP_ONE, FP_ONE, FP_ONE);
    let c = Color::to_u8(white, 1);
    assert_eq!((c.r, c.g, c.b), (255, 255, 255));
    // Black stays black.
    let c = Color::to_u8(Vec3::new(0, 0, 0), 4);
    assert_eq!((c.r, c.g, c.b), (0, 0, 0));
    // A quarter of full intensity gamma-corrects to half: 127 after
    // truncation on the grid.
    let c = Color::to_u8(Vec3::new(FP_ONE / 4, 0, 0), 1);
    assert_eq!(c.r, 127);
}

#[test]
fn lerp_endpoints_and_middle() {
    assert_eq!(lerp(10 * FP_ONE, 20 * FP_ONE, 0), 10 * FP_ONE);
    assert_eq!(lerp(10 * FP_ONE, 20 * FP_ONE, FP_ONE), 20 * FP_ONE);
    assert_eq!(lerp(10 * FP_ONE, 20 * FP_ONE, FP_ONE / 2), 15 * FP_ONE);
}

#[test]
fn fixed_point_primitives() {
    assert_eq!(mul_fx(3 * FP_ONE, 2 * FP_ONE), 6 * FP_ONE);
    assert_eq!(div_i64(-7, 2), -3);
    assert_eq!(div_i64(7, -2), -3);
    assert_eq!(isqrt_u128(144), 12);
    assert_eq!(isqrt_u128(145), 12);
    assert_eq!(isqrt_u128(143), 11);
}
