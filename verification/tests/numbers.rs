use taffy::fixed::{max, min, mul_div, round, sat_add, sat_sub, HALF, LIMIT, ONE};
use taffy::geometry::{clamp, maybe_clamp, or, size_or, unwrap_or, Size};
use taffy::style::{
    fraction_of, into_options, is_roughly_equal, resolve_auto, resolve_dimension, resolve_length,
    AvailableSpace, Dimension, LengthPercentage, LengthPercentageAuto, Style,
};

#[test]
fn sums_saturate_at_the_limit() {
    assert_eq!(sat_add(3, 4), 7);
    assert_eq!(sat_add(LIMIT, 1), LIMIT);
    assert_eq!(sat_add(-LIMIT, -5), -LIMIT);
    assert_eq!(sat_add(i64::MAX, i64::MAX), LIMIT);
    assert_eq!(sat_add(i64::MIN, i64::MIN), -LIMIT);
    assert_eq!(sat_sub(10, 25), -15);
    assert_eq!(sat_sub(-LIMIT, 1), -LIMIT);
    assert_eq!(sat_sub(i64::MAX, i64::MIN), LIMIT);
}

#[test]
fn products_round_towards_zero() {
    assert_eq!(mul_div(7, 3, 2), 10);
    assert_eq!(mul_div(-7, 3, 2), -10);
    assert_eq!(mul_div(7, 3, -2), -10);
    assert_eq!(mul_div(-7, -3, 2), 10);
    assert_eq!(mul_div(-7, 3, -2), 10);
    assert_eq!(mul_div(6, 3, 2), 9);
}

#[test]
fn division_by_zero_gives_zero() {
    assert_eq!(mul_div(5, 5, 0), 0);
    assert_eq!(mul_div(-5, 5, 0), 0);
}

#[test]
fn products_saturate_at_the_limit() {
    assert_eq!(mul_div(LIMIT, 4, 1), LIMIT);
    assert_eq!(mul_div(i64::MAX, i64::MAX, 1), LIMIT);
    assert_eq!(mul_div(i64::MAX, i64::MIN, 1), -LIMIT);
    assert_eq!(mul_div(i64::MAX, i64::MAX, i64::MAX), LIMIT);
}

#[test]
fn rounding_sends_halves_away_from_zero() {
    assert_eq!(round(0), 0);
    assert_eq!(round(HALF), ONE);
    assert_eq!(round(HALF - 1), 0);
    assert_eq!(round(-HALF), -ONE);
    assert_eq!(round(-HALF + 1), 0);
    assert_eq!(round(3 * ONE + 40000), 4 * ONE);
    assert_eq!(round(3 * ONE + 30000), 3 * ONE);
    assert_eq!(round(-3 * ONE - 40000), -4 * ONE);
    assert_eq!(round(7 * ONE), 7 * ONE);
}

#[test]
fn rounding_saturates_first() {
    assert_eq!(round(i64::MAX), LIMIT);
    assert_eq!(round(i64::MIN), -LIMIT);
    assert_eq!(round(LIMIT), LIMIT);
}

#[test]
fn larger_and_smaller() {
    assert_eq!(max(3, -4), 3);
    assert_eq!(max(-4, 3), 3);
    assert_eq!(min(3, -4), -4);
    assert_eq!(min(5, 5), 5);
}

#[test]
fn clamping_lets_the_lower_bound_win() {
    assert_eq!(clamp(5, Some(10), Some(3)), 10);
    assert_eq!(clamp(5, None, Some(3)), 3);
    assert_eq!(clamp(5, Some(7), None), 7);
    assert_eq!(clamp(5, Some(1), Some(9)), 5);
    assert_eq!(clamp(5, None, None), 5);
    assert_eq!(maybe_clamp(None, Some(1), Some(9)), None);
    assert_eq!(maybe_clamp(Some(20), Some(1), Some(9)), Some(9));
}

#[test]
fn known_values_stand() {
    assert_eq!(or(Some(1), Some(2)), Some(1));
    assert_eq!(or(None, Some(2)), Some(2));
    assert_eq!(or(None, None), None);
    assert_eq!(unwrap_or(Some(4), 9), 4);
    assert_eq!(unwrap_or(None, 9), 9);
    assert_eq!(
        size_or(Size { width: None, height: Some(3) }, Size { width: Some(8), height: Some(9) }),
        Size { width: Some(8), height: Some(3) }
    );
}

#[test]
fn percentages_are_fractions_of_the_context() {
    assert_eq!(fraction_of(200 * ONE, ONE / 2), 100 * ONE);
    assert_eq!(fraction_of(200 * ONE, ONE / 4), 50 * ONE);
    assert_eq!(resolve_dimension(Dimension::Percent(ONE / 2), Some(200 * ONE)), Some(100 * ONE));
    assert_eq!(resolve_dimension(Dimension::Percent(ONE / 2), None), None);
    assert_eq!(resolve_dimension(Dimension::Points(7), None), Some(7));
    assert_eq!(resolve_dimension(Dimension::Auto, Some(5)), None);
    assert_eq!(resolve_length(LengthPercentage::Percent(ONE / 8), Some(50 * ONE)), 50 * ONE / 8);
    assert_eq!(resolve_length(LengthPercentage::Percent(ONE / 8), None), 0);
    assert_eq!(resolve_length(LengthPercentage::Points(3), None), 3);
    assert_eq!(resolve_auto(LengthPercentageAuto::Auto, Some(9)), None);
    assert_eq!(resolve_auto(LengthPercentageAuto::Points(4), None), Some(4));
    assert_eq!(resolve_auto(LengthPercentageAuto::Percent(ONE), Some(9)), Some(9));
    assert_eq!(resolve_auto(LengthPercentageAuto::Percent(ONE), None), None);
}

#[test]
fn spaces_are_roughly_equal_within_a_ten_thousandth() {
    let at = |v: i64| AvailableSpace::Definite(v);
    assert!(is_roughly_equal(at(1000), at(1000)));
    assert!(is_roughly_equal(at(1000), at(1006)));
    assert!(is_roughly_equal(at(1006), at(1000)));
    assert!(!is_roughly_equal(at(1000), at(1007)));
    assert!(!is_roughly_equal(at(1007), at(1000)));
    assert!(is_roughly_equal(AvailableSpace::MinContent, AvailableSpace::MinContent));
    assert!(is_roughly_equal(AvailableSpace::MaxContent, AvailableSpace::MaxContent));
    assert!(!is_roughly_equal(AvailableSpace::MinContent, AvailableSpace::MaxContent));
    assert!(!is_roughly_equal(AvailableSpace::MaxContent, at(0)));
    assert!(!is_roughly_equal(at(0), AvailableSpace::MinContent));
    assert!(is_roughly_equal(at(i64::MAX), at(i64::MAX)));
    assert!(!is_roughly_equal(at(i64::MAX), at(i64::MIN)));
}

#[test]
fn only_definite_space_has_a_length() {
    let space = Size { width: AvailableSpace::Definite(5), height: AvailableSpace::MaxContent };
    assert_eq!(into_options(space), Size { width: Some(5), height: None });
    let space = Size { width: AvailableSpace::MinContent, height: AvailableSpace::Definite(-3) };
    assert_eq!(into_options(space), Size { width: None, height: Some(-3) });
}

#[test]
fn default_style_is_a_row_that_shrinks_and_does_not_grow() {
    let style = Style::default();
    assert_eq!(style.flex_grow, 0);
    assert_eq!(style.flex_shrink, ONE);
    assert_eq!(style.flex_basis, Dimension::Auto);
    assert_eq!(style.size, Size { width: Dimension::Auto, height: Dimension::Auto });
    assert_eq!(style.aspect_ratio, None);
    assert_eq!(style.align_self, None);
}
