//! Tests of the numeric helpers: `lerp`, `linear_map`, `lerp_angle`.
//!
//! Arguments are fixed-point: `SCALE` (1_000_000) stands for 1.0, so a
//! blend half-way from 0.0 to 4.0 reads `lerp(0, 4_000_000, 500_000)`.

use snapshot::SCALE;
use snapshot::lerp;
use snapshot::lerp_angle;
use snapshot::linear_map;

#[test]
fn linear_map_test() {
    let k = SCALE;
    assert_eq!(linear_map(-3000 * k, -3000 * k, 3000 * k, 0, k), 0);
    assert_eq!(linear_map(0, -3000 * k, 3000 * k, 0, k), k / 2);
    assert_eq!(linear_map(3000 * k, -3000 * k, 3000 * k, 0, k), k);
    assert_eq!(linear_map(6000 * k, -3000 * k, 3000 * k, 0, k), k + k / 2);
    assert_eq!(linear_map(6000 * k, 0, 3000 * k, 0, k), 2 * k);
}

#[test]
fn lerp_test() {
    let k = SCALE;
    assert_eq!(lerp(0, 4 * k, k), 4 * k);
    assert_eq!(lerp(0, 4 * k, 0), 0);
    assert_eq!(lerp(0, 4 * k, k / 2), 2 * k);
    assert_eq!(lerp(0, 4 * k, k / 4), k);
    assert_eq!(lerp(0, 4 * k, 3 * k / 4), 3 * k);
    assert_eq!(lerp(0, 4 * k, -2 * k), -8 * k);
    assert_eq!(lerp(0, 4 * k, 2 * k), 8 * k);

    assert_eq!(lerp(4 * k, 0, k), 0);
    assert_eq!(lerp(4 * k, 0, 0), 4 * k);
    assert_eq!(lerp(4 * k, 0, k / 2), 2 * k);
    assert_eq!(lerp(4 * k, 0, k / 4), 3 * k);
    assert_eq!(lerp(4 * k, 0, 3 * k / 4), k);
    assert_eq!(lerp(4 * k, 0, -2 * k), 12 * k);
    assert_eq!(lerp(4 * k, 0, 2 * k), -4 * k);
}

#[test]
fn heading_test() {
    let k = SCALE;
    // Plain interpolation, no wrap-around.
    assert_eq!(lerp_angle(0, 4 * k, k), 4 * k);
    assert_eq!(lerp_angle(0, 4 * k, 0), 0);
    assert_eq!(lerp_angle(0, 4 * k, k / 2), 2 * k);
    assert_eq!(lerp_angle(0, 4 * k, k / 4), k);
    assert_eq!(lerp_angle(0, 4 * k, 3 * k / 4), 3 * k);
    assert_eq!(lerp_angle(0, 4 * k, 2 * k), 8 * k);

    assert_eq!(lerp_angle(4 * k, 0, k), 0);
    assert_eq!(lerp_angle(4 * k, 0, 0), 4 * k);
    assert_eq!(lerp_angle(4 * k, 0, k / 2), 2 * k);
    assert_eq!(lerp_angle(4 * k, 0, k / 4), 3 * k);
    assert_eq!(lerp_angle(4 * k, 0, 3 * k / 4), k);
    assert_eq!(lerp_angle(4 * k, 0, -2 * k), 12 * k);

    // Heading interpolation: shortest arc across the 0/360 seam.
    assert_eq!(lerp_angle(350 * k, 40 * k, k / 2), 15 * k);
    assert_eq!(
        lerp_angle(350 * k, 40 * k, k / 5),
        lerp(350 * k, 40 * k + 360 * k, k / 5) - 360 * k
    );
    assert_eq!(lerp_angle(350 * k, 40 * k, k / 5), 0);
    assert_eq!(lerp_angle(350 * k, 40 * k, k / 10), 355 * k);

    assert_eq!(lerp_angle(40 * k, 350 * k, k / 2), 15 * k);
    assert_eq!(lerp_angle(40 * k, 350 * k, k / 5), 30 * k);
    assert_eq!(lerp_angle(40 * k, 350 * k, k / 10), 35 * k);
}

#[test]
fn lerp_midpoint_of_even_gap() {
    // For an even gap the half-way interpolation is the exact midpoint.
    let a = -6 * SCALE;
    let b = 4 * SCALE;
    assert_eq!(lerp(a, b, SCALE / 2), (a + b) / 2);
}

#[test]
fn linear_map_round_trip() {
    // When the forward map divides exactly, mapping back returns the
    // argument unchanged.
    let y = linear_map(250_000, 0, SCALE, 3 * SCALE, 5 * SCALE);
    assert_eq!(y, 3_500_000);
    assert_eq!(linear_map(y, 3 * SCALE, 5 * SCALE, 0, SCALE), 250_000);

    let y = linear_map(-40, -100, 100, -1000, 1000);
    assert_eq!(y, -400);
    assert_eq!(linear_map(y, -1000, 1000, -100, 100), -40);

    // With reversed (descending) ranges as well.
    let y = linear_map(30, 0, 100, 100, 0);
    assert_eq!(y, 70);
    assert_eq!(linear_map(y, 100, 0, 0, 100), 30);
}
