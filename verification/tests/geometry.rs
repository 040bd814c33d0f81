//! Angle arithmetic and fixed-point trigonometry.
use gridslam::geom::angular_distance;
use gridslam::geom::clamp_i64;
use gridslam::geom::cos_fixed;
use gridslam::geom::div_trunc_i64;
use gridslam::geom::shortest_angle_delta;
use gridslam::geom::sin_fixed;
use gridslam::geom::wrap_angle;
use gridslam::geom::wrap_signed;
use gridslam::geom::ANGLE_FULL;
use gridslam::geom::ANGLE_HALF;
use gridslam::geom::ANGLE_QUARTER;
use gridslam::geom::TRIG_ONE;

#[test]
fn trig_is_exact_at_cardinal_directions() {
    assert_eq!(sin_fixed(0), 0);
    assert_eq!(sin_fixed(ANGLE_QUARTER), TRIG_ONE);
    assert_eq!(sin_fixed(ANGLE_HALF), 0);
    assert_eq!(sin_fixed(3 * ANGLE_QUARTER), -TRIG_ONE);
    assert_eq!(cos_fixed(0), TRIG_ONE);
    assert_eq!(cos_fixed(ANGLE_QUARTER), 0);
    assert_eq!(cos_fixed(ANGLE_HALF), -TRIG_ONE);
    assert_eq!(cos_fixed(3 * ANGLE_QUARTER), 0);
}

#[test]
fn trig_stays_within_scale() {
    let mut a: i64 = 0;
    while a < ANGLE_FULL {
        let s = sin_fixed(a);
        let c = cos_fixed(a);
        assert!(-TRIG_ONE <= s && s <= TRIG_ONE);
        assert!(-TRIG_ONE <= c && c <= TRIG_ONE);
        a += 37;
    }
}

#[test]
fn wrap_angle_normalizes() {
    assert_eq!(wrap_angle(-1), ANGLE_FULL - 1);
    assert_eq!(wrap_angle(0), 0);
    assert_eq!(wrap_angle(ANGLE_FULL), 0);
    assert_eq!(wrap_angle(ANGLE_FULL + 5), 5);
}

#[test]
fn wrap_signed_keeps_half_open_interval() {
    assert_eq!(wrap_signed(ANGLE_HALF), ANGLE_HALF);
    assert_eq!(wrap_signed(ANGLE_HALF + 1), -ANGLE_HALF + 1);
    assert_eq!(wrap_signed(-ANGLE_HALF), ANGLE_HALF);
    assert_eq!(wrap_signed(0), 0);
}

#[test]
fn angular_distance_takes_shorter_arc() {
    assert_eq!(angular_distance(0, ANGLE_QUARTER), ANGLE_QUARTER);
    assert_eq!(angular_distance(ANGLE_QUARTER, 0), ANGLE_QUARTER);
    assert_eq!(angular_distance(-ANGLE_HALF + 10, ANGLE_HALF - 10), 20);
    assert_eq!(angular_distance(0, 0), 0);
}

#[test]
fn shortest_delta_is_signed_shorter_arc() {
    assert_eq!(shortest_angle_delta(0, ANGLE_QUARTER), ANGLE_QUARTER);
    assert_eq!(shortest_angle_delta(ANGLE_QUARTER, 0), -ANGLE_QUARTER);
    assert_eq!(shortest_angle_delta(-ANGLE_HALF + 10, ANGLE_HALF - 10), -20);
}

#[test]
fn clamp_and_truncating_division() {
    assert_eq!(clamp_i64(5, 0, 10), 5);
    assert_eq!(clamp_i64(-5, 0, 10), 0);
    assert_eq!(clamp_i64(15, 0, 10), 10);
    assert_eq!(div_trunc_i64(7, 2), 3);
    assert_eq!(div_trunc_i64(-7, 2), -3);
    assert_eq!(div_trunc_i64(0, 5), 0);
}
