use renderkit::fixed::{halve, to_pixel_edge, Fixed};

#[test]
fn halving_rounds_toward_zero() {
    assert_eq!(halve(7), 3);
    assert_eq!(halve(-7), -3);
    assert_eq!(halve(-1), 0);
    assert_eq!(halve(0), 0);
    assert_eq!(halve(-8), -4);
}

#[test]
fn whole_numbers_scale_by_a_thousand() {
    assert_eq!(Fixed::from_int(300), Fixed(300_000));
    assert_eq!(Fixed::from_int(-2), Fixed(-2_000));
    assert_eq!(Fixed::from_int(i32::MAX), Fixed(2_147_483_647_000));
    assert_eq!(Fixed::zero(), Fixed(0));
    assert_eq!(Fixed::default(), Fixed(0));
}

#[test]
fn units_out_of_range_are_clamped() {
    assert_eq!(Fixed::from_units(12), Fixed(12));
    assert_eq!(Fixed::from_units(i64::MAX as i128 + 1), Fixed(i64::MAX));
    assert_eq!(Fixed::from_units(i64::MIN as i128 - 1), Fixed(i64::MIN));
    assert_eq!(Fixed::from_units(i128::MAX), Fixed(i64::MAX));
    assert_eq!(Fixed(-7).wide(), -7i128);
}

#[test]
fn pixel_edges_lie_within_the_limit() {
    assert_eq!(to_pixel_edge(0, 10), 0);
    assert_eq!(to_pixel_edge(-1, 10), 0);
    assert_eq!(to_pixel_edge(999, 10), 0);
    assert_eq!(to_pixel_edge(1_000, 10), 1);
    assert_eq!(to_pixel_edge(9_999, 10), 9);
    assert_eq!(to_pixel_edge(10_000, 10), 10);
    assert_eq!(to_pixel_edge(i128::MAX, 10), 10);
    assert_eq!(to_pixel_edge(5_000, 0), 0);
}

#[test]
fn the_pixels_of_an_extent_are_its_whole_part() {
    assert_eq!(Fixed(2_999).pixels(), 2);
    assert_eq!(Fixed(0).pixels(), 0);
    assert_eq!(Fixed(-5_000).pixels(), 0);
    assert_eq!(Fixed::from_int(100).pixels(), 100);
}
