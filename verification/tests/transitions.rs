use curve_core::transitions::{
    eased, ProfileError, Transition, TransitionFunction, Transitions, PLATEAU_FALL_START,
    PLATEAU_RISE_END,
};
use curve_core::units::ONE;

const POINTS: [i64; 10] =
    [0, 100_000, 150_000, 250_000, 333_333, 500_000, 750_000, 850_000, 900_000, 1_000_000];

fn shape_values(function: TransitionFunction) -> Vec<i64> {
    POINTS.iter().map(|t| function.interpolate(*t)).collect()
}

fn as_float(v: i64) -> f64 {
    v as f64 / 1e6
}

fn demo_profile() -> Transitions {
    let mut vertical = Transitions::new(ONE);
    vertical.push(Transition::new(TransitionFunction::Plateau, -2 * ONE, ONE)).unwrap();
    vertical.push(Transition::new(TransitionFunction::Cubic, 2 * ONE, ONE / 2)).unwrap();
    vertical.push(Transition::new(TransitionFunction::Cubic, 0, 2 * ONE)).unwrap();
    vertical.push(Transition::new(TransitionFunction::Plateau, -2_500_000, 2 * ONE)).unwrap();
    vertical
}

#[test]
fn linear_shape() {
    assert_eq!(shape_values(TransitionFunction::Linear), POINTS.to_vec());
}

#[test]
fn quadratic_shape() {
    assert_eq!(
        shape_values(TransitionFunction::Quadratic),
        vec![0, 20_000, 45_000, 125_000, 222_222, 500_000, 875_000, 955_000, 980_000, 1_000_000]
    );
}

#[test]
fn cubic_shape() {
    assert_eq!(
        shape_values(TransitionFunction::Cubic),
        vec![0, 4_000, 13_500, 62_500, 148_148, 500_000, 937_500, 986_500, 996_000, 1_000_000]
    );
}

#[test]
fn plateau_shape() {
    assert_eq!(
        shape_values(TransitionFunction::Plateau),
        vec![0, 148_148, 500_000, 981_481, 1_000_000, 1_000_000, 981_481, 500_000, 148_148, 0]
    );
}

#[test]
fn plateau_holds_between_its_ramps() {
    assert_eq!(PLATEAU_RISE_END, 300_000);
    assert_eq!(PLATEAU_FALL_START, 700_000);
    assert_eq!(TransitionFunction::Plateau.interpolate(PLATEAU_RISE_END - 10_000), 999_852);
    assert_eq!(TransitionFunction::Plateau.interpolate(PLATEAU_RISE_END), ONE);
    assert_eq!(TransitionFunction::Plateau.interpolate(PLATEAU_FALL_START), ONE);
    assert_eq!(TransitionFunction::Plateau.interpolate(PLATEAU_FALL_START + 10_000), 999_852);
}

#[test]
fn shapes_clamp_their_parameter() {
    let shapes = [
        TransitionFunction::Linear,
        TransitionFunction::Quadratic,
        TransitionFunction::Cubic,
        TransitionFunction::Plateau,
    ];
    for shape in shapes.iter() {
        assert_eq!(shape.interpolate(-1), 0);
        assert_eq!(shape.interpolate(i64::MIN), 0);
        assert_eq!(shape.interpolate(ONE + 1), shape.interpolate(ONE));
        assert_eq!(shape.interpolate(i64::MAX), shape.interpolate(ONE));
    }
    assert_eq!(TransitionFunction::Cubic.interpolate(ONE), ONE);
    assert_eq!(TransitionFunction::Plateau.interpolate(ONE), 0);
}

#[test]
fn shapes_stay_between_zero_and_one_and_rise() {
    let shapes =
        [TransitionFunction::Linear, TransitionFunction::Quadratic, TransitionFunction::Cubic];
    for shape in shapes.iter() {
        let mut last: i64 = 0;
        let mut t: i64 = 0;
        while t <= ONE {
            let v = shape.interpolate(t);
            assert!(0 <= v && v <= ONE);
            assert!(last <= v);
            last = v;
            t += 997;
        }
    }
}

#[test]
fn shapes_agree_with_ezing() {
    let mut t: i64 = 0;
    while t <= ONE {
        let x = t as f64 / 1e6;
        let linear: f64 = ezing::linear(x);
        let quad: f64 = ezing::quad_inout(x);
        let cubic: f64 = ezing::cubic_inout(x);
        let plateau: f64 = if (0.3..=0.7).contains(&x) {
            1.0
        } else if x < 0.3 {
            ezing::cubic_inout(x * (1.0 / 0.3))
        } else {
            1.0 - ezing::cubic_inout((x - 0.7) * (1.0 / 0.3))
        };
        assert!((as_float(TransitionFunction::Linear.interpolate(t)) - linear).abs() < 1e-6);
        assert!((as_float(TransitionFunction::Quadratic.interpolate(t)) - quad).abs() < 1e-6);
        assert!((as_float(TransitionFunction::Cubic.interpolate(t)) - cubic).abs() < 1e-6);
        assert!((as_float(TransitionFunction::Plateau.interpolate(t)) - plateau).abs() < 1e-5);
        t += 1_250;
    }
}

#[test]
fn eased_scales_the_shape() {
    assert_eq!(eased(TransitionFunction::Linear, 3 * ONE, 250_000), 750_000);
    assert_eq!(eased(TransitionFunction::Cubic, -2 * ONE, 250_000), -125_000);
    assert_eq!(eased(TransitionFunction::Quadratic, 0, 250_000), 0);
    assert_eq!(eased(TransitionFunction::Linear, i64::MAX, ONE), i64::MAX);
    assert_eq!(eased(TransitionFunction::Linear, i64::MIN, ONE), i64::MIN);
    assert_eq!(eased(TransitionFunction::Linear, i64::MIN, 2 * ONE), i64::MIN);
    assert_eq!(eased(TransitionFunction::Linear, 7, -5), 0);
}

#[test]
fn segment_interpolates_over_its_length() {
    let segment = Transition::new(TransitionFunction::Quadratic, -1_234_567, 3 * ONE);
    assert_eq!(segment.interpolate(0), 0);
    assert_eq!(segment.interpolate(ONE), -274_348);
    assert_eq!(segment.interpolate(3 * ONE), -1_234_567);
    assert_eq!(segment.interpolate(4 * ONE), -1_234_567);
    assert_eq!(segment.interpolate(-ONE), 0);
}

#[test]
fn segment_end_values() {
    assert_eq!(Transition::new(TransitionFunction::Linear, 5, 1).end_value(), 5);
    assert_eq!(Transition::new(TransitionFunction::Quadratic, -5, 1).end_value(), -5);
    assert_eq!(Transition::new(TransitionFunction::Cubic, 7, 1).end_value(), 7);
    assert_eq!(Transition::new(TransitionFunction::Plateau, 7, 1).end_value(), 0);
}

#[test]
fn segment_reaches_its_end_value() {
    let shapes = [
        TransitionFunction::Linear,
        TransitionFunction::Quadratic,
        TransitionFunction::Cubic,
        TransitionFunction::Plateau,
    ];
    for shape in shapes.iter() {
        for change in [-3_141_592i64, 0, 1, 2_718_281].iter() {
            for length in [1i64, 7, 333_333, 10 * ONE].iter() {
                let segment = Transition::new(*shape, *change, *length);
                assert_eq!(segment.interpolate(0), 0);
                assert_eq!(segment.interpolate(*length), segment.end_value());
            }
        }
    }
}

#[test]
fn cubic_midpoint_is_half_the_change() {
    let mut profile = Transitions::new(250_000);
    profile.push(Transition::new(TransitionFunction::Cubic, ONE, 2 * ONE)).unwrap();
    assert_eq!(profile.interpolate(ONE), Some(250_000 + ONE / 2));
}

#[test]
fn midpoints_are_half_the_change() {
    let shapes =
        [TransitionFunction::Linear, TransitionFunction::Quadratic, TransitionFunction::Cubic];
    for shape in shapes.iter() {
        let segment = Transition::new(*shape, -6 * ONE, 14);
        assert_eq!(segment.interpolate(7), -3 * ONE);
    }
}

#[test]
fn value_at_zero_is_the_start_value() {
    assert_eq!(demo_profile().interpolate(0), Some(ONE));
    let mut profile = Transitions::new(-42);
    profile.push(Transition::new(TransitionFunction::Linear, 1000, 10)).unwrap();
    assert_eq!(profile.interpolate(0), Some(-42));
    assert_eq!(profile.start_value(), -42);
}

#[test]
fn no_value_outside_the_profile() {
    let profile = demo_profile();
    assert_eq!(profile.length(), 5_500_000);
    assert_eq!(profile.interpolate(5_500_000), Some(3 * ONE));
    assert_eq!(profile.interpolate(5_500_001), None);
    assert_eq!(profile.interpolate(i64::MAX), None);
    assert_eq!(profile.interpolate(-1), None);
    assert_eq!(profile.interpolate(i64::MIN), None);
}

#[test]
fn empty_profile_keeps_its_start_value() {
    let profile = Transitions::new(1_500_000);
    assert_eq!(profile.len(), 0);
    assert_eq!(profile.length(), 0);
    assert_eq!(profile.interpolate(0), Some(1_500_000));
    assert_eq!(profile.interpolate(1), None);
    assert_eq!(profile.interpolate(-1), None);
    assert_eq!(profile.active_segment(0), None);
}

#[test]
fn profile_values() {
    let profile = demo_profile();
    assert_eq!(profile.interpolate(150_000), Some(0));
    assert_eq!(profile.interpolate(500_000), Some(-ONE));
    assert_eq!(profile.interpolate(1_250_000), Some(2 * ONE));
    assert_eq!(profile.interpolate(3_500_000), Some(3 * ONE));
    assert_eq!(profile.interpolate(4_500_000), Some(500_000));
    assert_eq!(profile.interpolate(5_200_000), Some(1_750_000));
}

#[test]
fn value_is_the_same_before_and_after_a_plateau() {
    let profile = demo_profile();
    assert_eq!(profile.interpolate(0), Some(ONE));
    assert_eq!(profile.interpolate(ONE), Some(ONE));
    assert_eq!(profile.interpolate(3_500_000), Some(3 * ONE));
    assert_eq!(profile.interpolate(5_500_000), Some(3 * ONE));
}

#[test]
fn profile_is_continuous_at_boundaries() {
    let profile = demo_profile();
    let boundaries = [ONE, 1_500_000, 3_500_000];
    for b in boundaries.iter() {
        let at = profile.interpolate(*b).unwrap();
        let before = profile.interpolate(*b - 1).unwrap();
        let after = profile.interpolate(*b + 1).unwrap();
        assert!((at - before).abs() <= 60, "{} before {}", before, b);
        assert!((at - after).abs() <= 60, "{} after {}", after, b);
    }
    assert_eq!(profile.interpolate(1_500_000), Some(3 * ONE));
}

#[test]
fn boundary_belongs_to_the_earlier_segment() {
    let profile = demo_profile();
    assert_eq!(profile.active_segment(0), Some(0));
    assert_eq!(profile.active_segment(ONE), Some(0));
    assert_eq!(profile.active_segment(ONE + 1), Some(1));
    assert_eq!(profile.active_segment(1_500_000), Some(1));
    assert_eq!(profile.active_segment(1_500_001), Some(2));
    assert_eq!(profile.active_segment(5_500_000), Some(3));
    assert_eq!(profile.active_segment(5_500_001), None);
    assert_eq!(profile.active_segment(-1), None);
}

#[test]
fn segments_can_be_read_back() {
    let profile = demo_profile();
    assert_eq!(profile.len(), 4);
    assert_eq!(profile.segment(1), Transition::new(TransitionFunction::Cubic, 2 * ONE, ONE / 2));
    assert_eq!(profile.segment(1).function, TransitionFunction::Cubic);
    assert_eq!(profile.segment(3).length, 2 * ONE);
    let copy = profile.clone();
    assert_eq!(copy.len(), 4);
    assert_eq!(copy.interpolate(500_000), Some(-ONE));
}

#[test]
fn push_refuses_a_length_that_is_not_positive() {
    let mut profile = Transitions::new(0);
    let zero = Transition::new(TransitionFunction::Linear, 1, 0);
    let negative = Transition::new(TransitionFunction::Linear, 1, -5);
    assert_eq!(profile.check_push(&zero), Err(ProfileError::NonPositiveLength));
    assert_eq!(profile.push(zero), Err(ProfileError::NonPositiveLength));
    assert_eq!(profile.push(negative), Err(ProfileError::NonPositiveLength));
    assert_eq!(profile.len(), 0);
    assert_eq!(profile.length(), 0);
}

#[test]
fn push_refuses_a_profile_that_is_too_long() {
    let mut profile = Transitions::new(0);
    assert_eq!(profile.push(Transition::new(TransitionFunction::Linear, 1, i64::MAX)), Ok(()));
    assert_eq!(
        profile.push(Transition::new(TransitionFunction::Linear, 1, 1)),
        Err(ProfileError::TooLong)
    );
    assert_eq!(profile.len(), 1);
    assert_eq!(profile.length(), i64::MAX);
    assert_eq!(profile.interpolate(i64::MAX), Some(1));
}

#[test]
fn push_refuses_values_out_of_range() {
    let mut profile = Transitions::new(i64::MAX - 10);
    assert_eq!(profile.push(Transition::new(TransitionFunction::Linear, 10, 5)), Ok(()));
    assert_eq!(
        profile.push(Transition::new(TransitionFunction::Plateau, 1, 5)),
        Err(ProfileError::ValueOutOfRange)
    );
    assert_eq!(profile.push(Transition::new(TransitionFunction::Linear, -20, 5)), Ok(()));
    assert_eq!(
        profile.push(Transition::new(TransitionFunction::Linear, 1, 5)),
        Err(ProfileError::ValueOutOfRange)
    );
    assert_eq!(profile.interpolate(5), Some(i64::MAX));
    assert_eq!(profile.interpolate(10), Some(i64::MAX - 20));
    let mut low = Transitions::new(i64::MIN);
    assert_eq!(
        low.push(Transition::new(TransitionFunction::Cubic, -1, 5)),
        Err(ProfileError::ValueOutOfRange)
    );
    assert_eq!(low.push(Transition::new(TransitionFunction::Cubic, 1, 5)), Ok(()));
    assert_eq!(low.interpolate(0), Some(i64::MIN));
}

#[test]
fn same_profiles_are_told_apart_from_others() {
    let profile = demo_profile();
    assert!(profile.same_as(&demo_profile()));
    assert!(profile.same_as(&profile.clone()));
    let mut longer = demo_profile();
    longer.push(Transition::new(TransitionFunction::Linear, 1, 1)).unwrap();
    assert!(!profile.same_as(&longer));
    assert!(!longer.same_as(&profile));
    let mut other_start = Transitions::new(ONE + 1);
    let mut other_shape = Transitions::new(ONE);
    let mut other_change = Transitions::new(ONE);
    let mut other_length = Transitions::new(ONE);
    let mut i = 0;
    while i < profile.len() {
        let segment = profile.segment(i);
        other_start.push(segment).unwrap();
        let mut changed = segment;
        changed.function = TransitionFunction::Linear;
        other_shape.push(changed).unwrap();
        changed = segment;
        changed.change += 1;
        other_change.push(changed).unwrap();
        changed = segment;
        changed.length += 1;
        other_length.push(changed).unwrap();
        i += 1;
    }
    assert!(!profile.same_as(&other_start));
    assert!(!profile.same_as(&other_shape));
    assert!(!profile.same_as(&other_change));
    assert!(!profile.same_as(&other_length));
    assert!(Transitions::new(5).same_as(&Transitions::new(5)));
    assert!(!Transitions::new(5).same_as(&Transitions::new(6)));
}

#[test]
fn a_profile_that_changes_nothing_keeps_its_start_value() {
    let mut profile = Transitions::new(-7);
    profile.push(Transition::new(TransitionFunction::Plateau, 0, 3)).unwrap();
    profile.push(Transition::new(TransitionFunction::Cubic, 0, 5 * ONE)).unwrap();
    let mut t = 0;
    while t <= profile.length() {
        assert_eq!(profile.interpolate(t), Some(-7));
        t += 99_991;
    }
    assert_eq!(profile.interpolate(profile.length()), Some(-7));
}
