use ball_physics::arith::integer_sqrt;
use ball_physics::geometry::{
    distance_squared, do_circles_overlap, is_point_in_circle, Vec2, UNITS_PER_PIXEL,
};

#[test]
fn point_inside_circle() {
    let center = Vec2::new(10_000, 10_000);
    assert!(is_point_in_circle(&Vec2::new(12_000, 11_000), &center, 5_000));
    assert!(is_point_in_circle(&center, &center, 1));
}

#[test]
fn point_on_border_counts_as_inside() {
    let center = Vec2::new(0, 0);
    assert!(is_point_in_circle(&Vec2::new(3_000, 4_000), &center, 5_000));
    assert!(is_point_in_circle(&Vec2::new(-5_000, 0), &center, 5_000));
}

#[test]
fn point_outside_circle() {
    let center = Vec2::new(0, 0);
    assert!(!is_point_in_circle(&Vec2::new(3_000, 4_001), &center, 5_000));
    assert!(!is_point_in_circle(&Vec2::new(5_001, 0), &center, 5_000));
}

#[test]
fn point_in_circle_of_radius_zero() {
    let center = Vec2::new(7, 7);
    assert!(is_point_in_circle(&center, &center, 0));
    assert!(!is_point_in_circle(&Vec2::new(7, 8), &center, 0));
}

#[test]
fn circles_that_touch_overlap() {
    let a = Vec2::new(0, 0);
    let b = Vec2::new(10_000, 0);
    assert!(do_circles_overlap(&a, 5_000, &b, 5_000));
    let c = Vec2::new(3_000, 4_000);
    assert!(do_circles_overlap(&a, 2_000, &c, 3_000));
}

#[test]
fn circles_one_unit_apart_do_not_overlap() {
    let a = Vec2::new(0, 0);
    assert!(!do_circles_overlap(&a, 5_000, &Vec2::new(10_001, 0), 5_000));
    assert!(!do_circles_overlap(&a, 2_000, &Vec2::new(3_000, 4_000), 2_999));
}

#[test]
fn circles_that_intersect_overlap() {
    let a = Vec2::new(100_000, 100_000);
    let b = Vec2::new(112_000, 100_000);
    assert!(do_circles_overlap(&a, 10_000, &b, 10_000));
    assert!(do_circles_overlap(&a, 10_000, &a, 10_000));
}

#[test]
fn overlap_is_symmetric() {
    let a = Vec2::new(-7_000, 2_500);
    let b = Vec2::new(4_000, -3_000);
    for (ra, rb) in [(1_000, 2_000), (6_000, 7_000), (12_298, 0), (12_299, 0)] {
        assert_eq!(do_circles_overlap(&a, ra, &b, rb), do_circles_overlap(&b, rb, &a, ra));
    }
    // the centres are sqrt(151_250_000) = 12_298.37.. apart
    assert!(!do_circles_overlap(&a, 12_298, &b, 0));
    assert!(do_circles_overlap(&a, 12_299, &b, 0));
}

#[test]
fn predicates_take_the_widest_coordinates() {
    let low = Vec2::new(i32::MIN, i32::MIN);
    let high = Vec2::new(i32::MAX, i32::MAX);
    assert_eq!(distance_squared(&low, &high), 2 * 4_294_967_295u128 * 4_294_967_295u128);
    assert!(!do_circles_overlap(&low, i32::MAX, &high, i32::MAX));
    assert!(!is_point_in_circle(&low, &high, i32::MAX));
    assert!(is_point_in_circle(&low, &low, i32::MIN));
}

#[test]
fn squared_distance_of_a_right_triangle() {
    assert_eq!(distance_squared(&Vec2::new(1, 2), &Vec2::new(4, 6)), 25);
    assert_eq!(distance_squared(&Vec2::new(4, 6), &Vec2::new(1, 2)), 25);
    assert_eq!(distance_squared(&Vec2::new(-3, 0), &Vec2::new(-3, 0)), 0);
}

#[test]
fn integer_square_roots() {
    assert_eq!(integer_sqrt(0), 0);
    assert_eq!(integer_sqrt(1), 1);
    assert_eq!(integer_sqrt(2), 1);
    assert_eq!(integer_sqrt(3), 1);
    assert_eq!(integer_sqrt(4), 2);
    assert_eq!(integer_sqrt(99), 9);
    assert_eq!(integer_sqrt(100), 10);
    assert_eq!(integer_sqrt(1_000_000_000_000_000_000), 1_000_000_000);
    assert_eq!(integer_sqrt(999_999_999_999_999_999), 999_999_999);
    assert_eq!(integer_sqrt(u128::MAX), u64::MAX);
}

#[test]
fn vectors_are_built_from_components() {
    assert_eq!(Vec2::new(3, -4), Vec2 { x: 3, y: -4 });
    assert_eq!(Vec2::zero(), Vec2 { x: 0, y: 0 });
}

#[test]
fn a_pixel_has_a_thousand_units() {
    assert_eq!(UNITS_PER_PIXEL, 1000);
}
