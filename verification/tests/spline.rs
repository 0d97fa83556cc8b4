use curve_core::geometry::{Orientation, Vector3};
use curve_core::spline::{Heading, SplineError, TrackSpline};
use curve_core::units::{LENGTH_LIMIT, ONE};

fn at(x: i64, y: i64, z: i64) -> Vector3 {
    Vector3 { x, y, z }
}

fn quarter_turn() -> Orientation {
    Orientation { x: 0, y: 707_107, z: 0, w: 707_107 }
}

fn third_turn() -> Orientation {
    Orientation { x: 500_000, y: 500_000, z: 500_000, w: 500_000 }
}

fn bent_track() -> TrackSpline {
    let mut spline = TrackSpline::new();
    spline.push(at(0, 0, 0), third_turn()).unwrap();
    spline.push(at(3 * ONE, 4 * ONE, 0), quarter_turn()).unwrap();
    spline.push(at(3 * ONE, 4 * ONE, 12 * ONE), Orientation::identity()).unwrap();
    spline
}

#[test]
fn new_spline_is_empty() {
    let spline = TrackSpline::new();
    assert_eq!(spline.len(), 0);
    assert_eq!(spline.length(), 0);
    assert_eq!(spline.evaluate(0), None);
}

#[test]
fn length_is_the_sum_of_the_distances() {
    let spline = bent_track();
    assert_eq!(spline.len(), 3);
    assert_eq!(spline.length(), 17 * ONE);
    assert_eq!(spline.travelled(0), 0);
    assert_eq!(spline.travelled(1), 5 * ONE);
    assert_eq!(spline.travelled(2), 17 * ONE);
    assert_eq!(spline.point(1), (at(3 * ONE, 4 * ONE, 0), quarter_turn()));
}

#[test]
fn one_sample_has_no_length_and_no_points_between() {
    let mut spline = TrackSpline::new();
    spline.push(at(1, 2, 3), Orientation::identity()).unwrap();
    assert_eq!(spline.len(), 1);
    assert_eq!(spline.length(), 0);
    assert_eq!(spline.evaluate(0), None);
    assert_eq!(spline.evaluate(5), None);
}

#[test]
fn evaluate_at_zero_is_the_first_sample() {
    let spline = bent_track();
    assert_eq!(spline.evaluate(0), Some((at(0, 0, 0), Heading::Sample(third_turn()))));
    assert_eq!(spline.evaluate(-5), Some((at(0, 0, 0), Heading::Sample(third_turn()))));
    assert_eq!(spline.evaluate(i64::MIN), Some((at(0, 0, 0), Heading::Sample(third_turn()))));
}

#[test]
fn evaluate_at_the_length_is_the_last_sample() {
    let spline = bent_track();
    let last = Some((at(3 * ONE, 4 * ONE, 12 * ONE), Heading::Sample(Orientation::identity())));
    assert_eq!(spline.evaluate(spline.length()), last);
    assert_eq!(spline.evaluate(spline.length() + 1), last);
    assert_eq!(spline.evaluate(i64::MAX), last);
}

#[test]
fn evaluate_divides_the_length_into_equal_parts() {
    let spline = bent_track();
    assert_eq!(
        spline.evaluate(8_500_000),
        Some((at(3 * ONE, 4 * ONE, 0), Heading::Sample(quarter_turn())))
    );
    assert_eq!(
        spline.evaluate(4_250_000),
        Some((
            at(1_500_000, 2 * ONE, 0),
            Heading::Between {
                from: third_turn(),
                to: quarter_turn(),
                numerator: 8_500_000,
                denominator: 17 * ONE,
            }
        ))
    );
    assert_eq!(
        spline.evaluate(10_625_000),
        Some((
            at(3 * ONE, 4 * ONE, 3 * ONE),
            Heading::Between {
                from: quarter_turn(),
                to: Orientation::identity(),
                numerator: 4_250_000,
                denominator: 17 * ONE,
            }
        ))
    );
}

#[test]
fn evaluate_rounds_to_the_nearest_millionth() {
    let mut spline = TrackSpline::new();
    spline.push(at(0, 0, 0), Orientation::identity()).unwrap();
    spline.push(at(3, -3, 0), Orientation::identity()).unwrap();
    assert_eq!(spline.length(), 4);
    let (position, heading) = spline.evaluate(2).unwrap();
    assert_eq!(position, at(2, -2, 0));
    assert_eq!(
        heading,
        Heading::Between {
            from: Orientation::identity(),
            to: Orientation::identity(),
            numerator: 2,
            denominator: 4,
        }
    );
    let (position, _) = spline.evaluate(1).unwrap();
    assert_eq!(position, at(1, -1, 0));
}

#[test]
fn evaluate_on_a_track_without_length_is_the_first_sample() {
    let mut spline = TrackSpline::new();
    spline.push(at(7, 7, 7), third_turn()).unwrap();
    spline.push(at(7, 7, 7), quarter_turn()).unwrap();
    assert_eq!(spline.length(), 0);
    assert_eq!(spline.evaluate(0), Some((at(7, 7, 7), Heading::Sample(third_turn()))));
    assert_eq!(spline.evaluate(5), Some((at(7, 7, 7), Heading::Sample(third_turn()))));
}

#[test]
fn push_refuses_a_position_out_of_range() {
    let mut spline = TrackSpline::new();
    assert_eq!(
        spline.push(at(LENGTH_LIMIT + 1, 0, 0), Orientation::identity()),
        Err(SplineError::PositionOutOfRange)
    );
    assert_eq!(
        spline.push(at(0, 0, i64::MIN), Orientation { x: 0, y: 0, z: 0, w: 0 }),
        Err(SplineError::PositionOutOfRange)
    );
    assert_eq!(spline.len(), 0);
    assert_eq!(spline.push(at(LENGTH_LIMIT, -LENGTH_LIMIT, 0), Orientation::identity()), Ok(()));
    assert_eq!(spline.len(), 1);
}

#[test]
fn push_refuses_an_orientation_that_is_not_a_unit() {
    let mut spline = TrackSpline::new();
    assert_eq!(
        spline.push(at(0, 0, 0), Orientation { x: 0, y: 0, z: 0, w: 0 }),
        Err(SplineError::NotUnit)
    );
    assert_eq!(
        spline.push(at(0, 0, 0), Orientation { x: 0, y: 0, z: 0, w: ONE + 101 }),
        Err(SplineError::NotUnit)
    );
    assert_eq!(spline.len(), 0);
    assert_eq!(spline.push(at(0, 0, 0), Orientation { x: 0, y: 0, z: 0, w: ONE + 100 }), Ok(()));
}

#[test]
fn every_sample_is_a_unit() {
    let spline = bent_track();
    let mut i = 0;
    while i < spline.len() {
        let (position, orientation) = spline.point(i);
        assert!(position.is_in_range());
        assert!(orientation.check_unit());
        let norm = ((orientation.x * orientation.x + orientation.y * orientation.y
            + orientation.z * orientation.z + orientation.w * orientation.w) as f64)
            .sqrt() / 1e6;
        assert!((norm - 1.0).abs() <= 1e-4);
        i += 1;
    }
}

#[test]
fn push_refuses_a_track_that_is_too_long() {
    let mut spline = TrackSpline::new();
    let near = at(-LENGTH_LIMIT, -LENGTH_LIMIT, -LENGTH_LIMIT);
    let far = at(LENGTH_LIMIT, LENGTH_LIMIT, LENGTH_LIMIT);
    assert_eq!(spline.push(near, Orientation::identity()), Ok(()));
    assert_eq!(spline.push(far, Orientation::identity()), Ok(()));
    assert_eq!(spline.push(near, Orientation::identity()), Ok(()));
    assert_eq!(spline.length(), 2 * 3_993_837_246_235_628_775);
    assert_eq!(spline.push(far, Orientation::identity()), Err(SplineError::TooLong));
    assert_eq!(spline.len(), 3);
    assert_eq!(spline.length(), 2 * 3_993_837_246_235_628_775);
}
