use arena_core::geom::{isqrt, normalize, Vec2, DIR_SQ_MAX, DIR_SQ_MIN};
use arena_core::input::snap_axis;

#[test]
fn isqrt_exact_values() {
    assert_eq!(isqrt(0), 0);
    assert_eq!(isqrt(1), 1);
    assert_eq!(isqrt(2), 1);
    assert_eq!(isqrt(3), 1);
    assert_eq!(isqrt(4), 2);
    assert_eq!(isqrt(999_999), 999);
    assert_eq!(isqrt(1_000_000), 1000);
    assert_eq!(isqrt(1_000_001), 1000);
    assert_eq!(isqrt(4_000_000), 2000);
}

#[test]
fn normalize_axis_aligned_is_exact() {
    let r = normalize(Vec2 { x: 1000, y: 0 });
    assert_eq!(r, Vec2 { x: 1000, y: 0 });
    let r = normalize(Vec2 { x: 0, y: -500 });
    assert_eq!(r, Vec2 { x: 0, y: -1000 });
}

#[test]
fn normalize_pythagorean_triple_is_exact() {
    // |(300, 400)| = 500, so the scaled direction is exactly (600, 800).
    let r = normalize(Vec2 { x: 300, y: 400 });
    assert_eq!(r, Vec2 { x: 600, y: 800 });
    assert_eq!(r.x * r.x + r.y * r.y, 1_000_000);
    let r = normalize(Vec2 { x: -300, y: 400 });
    assert_eq!(r, Vec2 { x: -600, y: 800 });
}

#[test]
fn normalize_length_stays_in_tolerance_window() {
    // A sweep of directions: every normalized squared length stays within
    // the proved window around MILLI * MILLI.
    let mut x: i64 = -1000;
    while x <= 1000 {
        let mut y: i64 = -1000;
        while y <= 1000 {
            if x * x + y * y >= 10_000 {
                let r = normalize(Vec2 { x, y });
                let sq = r.x * r.x + r.y * r.y;
                assert!(sq >= DIR_SQ_MIN, "norm_sq {} too small for ({}, {})", sq, x, y);
                assert!(sq <= DIR_SQ_MAX, "norm_sq {} too large for ({}, {})", sq, x, y);
            }
            y += 137;
        }
        x += 137;
    }
}

#[test]
fn deadzone_snaps_only_inside() {
    assert_eq!(snap_axis(0), 0);
    assert_eq!(snap_axis(100), 0);
    assert_eq!(snap_axis(-100), 0);
    assert_eq!(snap_axis(101), 101);
    assert_eq!(snap_axis(-101), -101);
    assert_eq!(snap_axis(1000), 1000);
    assert_eq!(snap_axis(-1000), -1000);
}
