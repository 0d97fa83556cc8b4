use curve_core::channels::{FullTransition, Transition, Transitions};
use curve_core::fvd::{
    create_spline, next_speed, IntegrationError, Integrator, Step, Turn, DEMAND_LIMIT, DT,
    EPSILON,
};
use curve_core::geometry::{Orientation, Vector3};
use curve_core::spline::{SplineError, TrackSpline};
use curve_core::transitions::TransitionFunction;
use curve_core::units::{G, LENGTH_LIMIT, ONE};
use glam::{Quat, Vec3};

fn to_micro(v: f32) -> i64 {
    (v as f64 * 1e6).round() as i64
}

fn from_micro(v: i64) -> f32 {
    (v as f64 / 1e6) as f32
}

fn to_orientation(q: Quat) -> Orientation {
    Orientation { x: to_micro(q.x), y: to_micro(q.y), z: to_micro(q.z), w: to_micro(q.w) }
}

fn rotation(axis: Vector3, angle: i64) -> Orientation {
    let axis = Vec3::new(from_micro(axis.x), from_micro(axis.y), from_micro(axis.z));
    to_orientation(Quat::from_axis_angle(axis.normalize(), from_micro(angle)))
}

fn origin() -> Vector3 {
    Vector3 { x: 0, y: 0, z: 0 }
}

fn profile(vertical: i64, change: i64, roll_rate: i64, seconds: i64, speed: Option<i64>) -> Transitions {
    let mut profile = Transitions::empty(vertical, 0, roll_rate);
    profile
        .push(FullTransition::new(
            Transition::new(TransitionFunction::Cubic, change),
            Transition::new(TransitionFunction::Cubic, 0),
            Transition::new(TransitionFunction::Cubic, 0),
            seconds * ONE,
            speed,
        ))
        .unwrap();
    profile
}

fn run(profile: &Transitions, start: Vector3, speed: i64) -> (TrackSpline, Option<IntegrationError>, usize) {
    let (spline, stopped) = create_spline(profile, start, speed, rotation);
    let steps = spline.len();
    (spline, stopped, steps)
}

fn run_by_hand(profile: &Transitions, start: Vector3, speed: i64) -> (TrackSpline, Option<IntegrationError>) {
    let mut integrator = Integrator::new(start, speed);
    let mut steps = 0;
    let stopped = loop {
        let step = match integrator.plan(profile) {
            Ok(Some(step)) => step,
            Ok(None) => break None,
            Err(e) => break Some(e),
        };
        assert!(step.is_plausible());
        let turn = step.turn.map(|t| rotation(t.axis, t.angle));
        let roll = rotation(Vector3 { x: 0, y: 0, z: ONE }, step.roll_angle);
        if let Err(e) = integrator.complete(&step, turn, roll) {
            break Some(e);
        }
        steps += 1;
        assert_eq!(integrator.time(), steps as i64 * DT);
    };
    (integrator.into_spline(), stopped)
}

fn float_run(profile: &Transitions, start: Vec3, start_velocity: f32) -> Vec<(Vec3, Quat)> {
    let gravity = Vec3::new(0.0, -9.806, 0.0);
    let dt = 0.01f32;
    let mut points = Vec::new();
    let mut velocity = start_velocity;
    let mut pos = start;
    let mut direction = Quat::IDENTITY;
    let mut tick: i64 = 0;
    while tick * DT < profile.length() {
        let (vert, lat, roll_rate, fixed_speed) = match profile.interpolate(tick * DT) {
            Some(v) => v,
            None => break,
        };
        if let Some(v) = fixed_speed {
            velocity = from_micro(v);
        }
        let length = dt * velocity;
        let mut new_dir = direction;
        let linear_accel = (from_micro(vert) * 9.806 * (direction * -Vec3::Y))
            + (from_micro(lat) * 9.806 * (direction * -Vec3::X));
        let remainder_accel = gravity - linear_accel;
        let forward_accel = remainder_accel.project_onto(direction * Vec3::Z);
        let centripetal_accel = remainder_accel - forward_accel;
        if centripetal_accel.length() > 0.0001 && velocity > 0.0 {
            let axis = (direction * Vec3::Z).cross(centripetal_accel).normalize();
            let radius = velocity * velocity / centripetal_accel.length();
            new_dir = Quat::from_axis_angle(axis, length / radius) * new_dir;
        }
        let roll = Quat::from_axis_angle(Vec3::Z, from_micro(roll_rate).to_radians() * dt);
        new_dir = new_dir * roll;
        direction = new_dir.normalize();
        let advance = direction * Vec3::Z * length;
        pos += advance;
        let squared = velocity * velocity + 2.0 * gravity.y * advance.y;
        if squared < 0.0 {
            break;
        }
        velocity = squared.sqrt();
        points.push((pos, direction));
        tick += 1;
    }
    points
}

#[test]
fn constants_of_the_integrator() {
    assert_eq!(DT, 10_000);
    assert_eq!(EPSILON, 100);
    assert_eq!(DEMAND_LIMIT, 1_000_000 * ONE);
}

#[test]
fn a_new_integration_stands_at_the_start() {
    let start = Vector3 { x: 1, y: 2, z: 3 };
    let integrator = Integrator::new(start, 5 * ONE);
    assert_eq!(integrator.time(), 0);
    assert_eq!(integrator.speed(), 5 * ONE);
    assert_eq!(integrator.position(), start);
    assert_eq!(integrator.orientation(), Orientation::identity());
    assert_eq!(integrator.spline().len(), 0);
    assert_eq!(integrator.into_spline().len(), 0);
}

#[test]
fn a_level_step_has_no_turn() {
    let integrator = Integrator::new(origin(), 5 * ONE);
    let step = integrator.plan(&profile(ONE, 0, 0, 1, None)).unwrap().unwrap();
    assert_eq!(
        step,
        Step {
            speed: 5 * ONE,
            arc_length: 50_000,
            turn: None,
                roll_angle: 0,
        }
    );
}

#[test]
fn free_fall_pitches_down() {
    let integrator = Integrator::new(origin(), 5 * ONE);
    let step = integrator.plan(&profile(0, 0, 0, 1, None)).unwrap().unwrap();
    assert_eq!(step.turn, Some(Turn { axis: Vector3 { x: G, y: 0, z: 0 }, angle: 19_612 }));
}

#[test]
fn two_g_pitch_up() {
    let integrator = Integrator::new(origin(), 10 * ONE);
    let step = integrator.plan(&profile(2 * ONE, 0, 0, 1, None)).unwrap().unwrap();
    assert_eq!(step.turn, Some(Turn { axis: Vector3 { x: -G, y: 0, z: 0 }, angle: 9_806 }));
    assert_eq!(step.arc_length, 100_000);
}

#[test]
fn a_lateral_demand_turns_about_the_up_axis() {
    let mut sideways = Transitions::empty(ONE, ONE / 2, 0);
    sideways.push(FullTransition::default()).unwrap();
    let integrator = Integrator::new(origin(), 10 * ONE);
    let step = integrator.plan(&sideways).unwrap().unwrap();
    assert_eq!(step.turn, Some(Turn { axis: Vector3 { x: 0, y: G / 2, z: 0 }, angle: 4_903 }));
}

#[test]
fn a_train_at_rest_does_not_turn() {
    let integrator = Integrator::new(origin(), 0);
    let step = integrator.plan(&profile(0, 0, 0, 1, None)).unwrap().unwrap();
    assert_eq!(step.turn, None);
    assert_eq!(step.arc_length, 0);
    let backwards = Integrator::new(origin(), -5 * ONE);
    let step = backwards.plan(&profile(0, 0, 0, 1, None)).unwrap().unwrap();
    assert_eq!(step.turn, None);
    assert_eq!(step.arc_length, -50_000);
}

#[test]
fn the_roll_angle_is_in_radians() {
    let integrator = Integrator::new(origin(), 5 * ONE);
    let step = integrator.plan(&profile(ONE, 0, 90 * ONE, 1, None)).unwrap().unwrap();
    assert_eq!(step.roll_angle, 15_708);
    let step = integrator.plan(&profile(ONE, 0, -180 * ONE, 1, None)).unwrap().unwrap();
    assert_eq!(step.roll_angle, -31_416);
}

#[test]
fn plan_takes_the_fixed_speed() {
    let integrator = Integrator::new(origin(), 5 * ONE);
    let step = integrator.plan(&profile(ONE, 0, 0, 1, Some(12 * ONE))).unwrap().unwrap();
    assert_eq!(step.speed, 12 * ONE);
    assert_eq!(step.arc_length, 120_000);
}

#[test]
fn plan_stops_at_the_end_of_the_profile() {
    let (spline, stopped, steps) = run(&profile(ONE, 0, 0, 2, None), origin(), 5 * ONE);
    assert_eq!(stopped, None);
    assert_eq!(steps, 200);
    assert_eq!(spline.len(), 200);
    let integrator = Integrator::new(origin(), 5 * ONE);
    assert_eq!(integrator.plan(&Transitions::empty(ONE, 0, 0)), Ok(None));
}

#[test]
fn plan_refuses_a_demand_beyond_the_limit() {
    let integrator = Integrator::new(origin(), 5 * ONE);
    assert_eq!(
        integrator.plan(&profile(DEMAND_LIMIT + 1, 0, 0, 1, None)),
        Err(IntegrationError::DemandOutOfRange)
    );
    assert_eq!(
        integrator.plan(&profile(-DEMAND_LIMIT - 1, 0, 0, 1, None)),
        Err(IntegrationError::DemandOutOfRange)
    );
    assert!(integrator.plan(&profile(DEMAND_LIMIT, 0, 0, 1, None)).unwrap().is_some());
    let mut sideways = Transitions::empty(ONE, i64::MIN, 0);
    sideways.push(FullTransition::default()).unwrap();
    assert_eq!(integrator.plan(&sideways), Err(IntegrationError::DemandOutOfRange));
}

#[test]
fn a_level_track_is_a_straight_line() {
    let start = Vector3 { x: ONE, y: 20 * ONE, z: -3 * ONE };
    let (spline, stopped, steps) = run(&profile(ONE, 0, 0, 3, None), start, 8 * ONE);
    assert_eq!(stopped, None);
    assert_eq!(steps, 300);
    let mut i = 0;
    while i < spline.len() {
        let (position, orientation) = spline.point(i);
        assert_eq!(orientation, Orientation::identity());
        assert_eq!(position.x, ONE);
        assert_eq!(position.y, 20 * ONE);
        assert_eq!(position.z, -3 * ONE + (i as i64 + 1) * 80_000);
        i += 1;
    }
    assert_eq!(spline.length(), 299 * 80_000);
}

#[test]
fn a_step_moves_the_train_along_its_forward_axis() {
    let mut integrator = Integrator::new(origin(), 5 * ONE);
    let step = Step {
        speed: 5 * ONE,
        arc_length: 50_000,
        turn: None,
        roll_angle: 0,
    };
    let quarter = Orientation { x: 0, y: 707_107, z: 0, w: 707_107 };
    assert_eq!(integrator.complete(&step, Some(quarter), Orientation::identity()), Ok(()));
    assert_eq!(integrator.time(), DT);
    assert_eq!(integrator.speed(), 5 * ONE);
    assert_eq!(integrator.orientation(), quarter);
    assert_eq!(integrator.position(), Vector3 { x: 50_000, y: 0, z: 0 });
    assert_eq!(integrator.spline().len(), 1);
    assert_eq!(integrator.spline().point(0), (Vector3 { x: 50_000, y: 0, z: 0 }, quarter));
}

#[test]
fn a_roll_turns_the_train_about_its_own_forward_axis() {
    let mut integrator = Integrator::new(origin(), 5 * ONE);
    let step = Step { speed: 5 * ONE, arc_length: 50_000, turn: None, roll_angle: 1_570_796 };
    let quarter_about_y = Orientation { x: 0, y: 707_107, z: 0, w: 707_107 };
    let quarter_about_z = Orientation { x: 0, y: 0, z: 707_107, w: 707_107 };
    assert_eq!(integrator.complete(&step, Some(quarter_about_y), quarter_about_z), Ok(()));
    let orientation = integrator.orientation();
    assert_eq!(orientation, Orientation { x: 500_000, y: 500_000, z: 500_000, w: 500_000 });
    assert_eq!(orientation.forward(), Vector3 { x: ONE, y: 0, z: 0 });
    assert_eq!(orientation.up(), Vector3 { x: 0, y: 0, z: ONE });
    assert_eq!(integrator.position(), Vector3 { x: 50_000, y: 0, z: 0 });
}

#[test]
fn speed_follows_the_height() {
    assert_eq!(next_speed(5 * ONE, 0), Ok(5 * ONE));
    assert_eq!(next_speed(5 * ONE, ONE), Ok(2_321_206));
    assert_eq!(next_speed(0, -ONE), Ok(4_428_543));
    assert_eq!(next_speed(-5 * ONE, 0), Ok(5 * ONE));
    assert_eq!(next_speed(0, 0), Ok(0));
    assert_eq!(next_speed(i64::MAX, 0), Ok(i64::MAX));
}

#[test]
fn a_dive_gains_speed() {
    let mut integrator = Integrator::new(origin(), 5 * ONE);
    let step = Step {
        speed: 5 * ONE,
        arc_length: ONE,
        turn: None,
        roll_angle: 0,
    };
    let nose_down = Orientation { x: 707_107, y: 0, z: 0, w: 707_107 };
    assert_eq!(integrator.complete(&step, Some(nose_down), Orientation::identity()), Ok(()));
    assert_eq!(integrator.position(), Vector3 { x: 0, y: -1_000_001, z: 0 });
    assert_eq!(integrator.speed(), 6_679_222);
}

#[test]
fn a_climb_beyond_the_energy_is_infeasible() {
    assert_eq!(next_speed(5 * ONE, 2 * ONE), Err(IntegrationError::InfeasibleProfile));
    assert_eq!(next_speed(0, 1), Err(IntegrationError::InfeasibleProfile));
    let mut integrator = Integrator::new(origin(), 5 * ONE);
    let step = Step {
        speed: 100_000,
        arc_length: 1_000,
        turn: None,
        roll_angle: 0,
    };
    let nose_up = Orientation { x: -707_107, y: 0, z: 0, w: 707_107 };
    assert_eq!(
        integrator.complete(&step, Some(nose_up), Orientation::identity()),
        Err(IntegrationError::InfeasibleProfile)
    );
    assert_eq!(integrator.time(), 0);
    assert_eq!(integrator.speed(), 5 * ONE);
    assert_eq!(integrator.position(), origin());
    assert_eq!(integrator.orientation(), Orientation::identity());
    assert_eq!(integrator.spline().len(), 0);
}

#[test]
fn a_loop_too_slow_is_infeasible() {
    let (spline, stopped, steps) = run(&profile(3 * ONE, 0, 0, 20, None), origin(), 4 * ONE);
    assert_eq!(stopped, Some(IntegrationError::InfeasibleProfile));
    assert!(steps > 10);
    assert_eq!(spline.len(), steps);
}

#[test]
fn a_speed_beyond_the_range_is_reported() {
    assert_eq!(next_speed(i64::MAX, i64::MIN), Err(IntegrationError::SpeedOutOfRange));
    assert_eq!(next_speed(i64::MIN, 0), Err(IntegrationError::SpeedOutOfRange));
    let mut integrator = Integrator::new(origin(), 0);
    let step = Step {
        speed: i64::MAX,
        arc_length: LENGTH_LIMIT,
        turn: None,
        roll_angle: 0,
    };
    let nose_down = Orientation { x: 707_107, y: 0, z: 0, w: 707_107 };
    assert_eq!(
        integrator.complete(&step, Some(nose_down), Orientation::identity()),
        Err(IntegrationError::SpeedOutOfRange)
    );
}

#[test]
fn a_rotation_that_is_not_a_unit_is_refused() {
    let mut integrator = Integrator::new(origin(), 5 * ONE);
    let step = Step {
        speed: 5 * ONE,
        arc_length: 50_000,
        turn: None,
        roll_angle: 0,
    };
    let nothing = Orientation { x: 0, y: 0, z: 0, w: 0 };
    assert_eq!(
        integrator.complete(&step, None, nothing),
        Err(IntegrationError::RotationNotUnit)
    );
    assert_eq!(
        integrator.complete(&step, Some(nothing), Orientation::identity()),
        Err(IntegrationError::RotationNotUnit)
    );
    assert_eq!(
        integrator.complete(
            &step,
            Some(Orientation { x: i64::MAX, y: i64::MIN, z: 0, w: 0 }),
            Orientation::identity()
        ),
        Err(IntegrationError::RotationNotUnit)
    );
    assert_eq!(integrator.spline().len(), 0);
    assert_eq!(integrator.time(), 0);
}

#[test]
fn a_position_out_of_range_is_refused() {
    let start = Vector3 { x: 0, y: 0, z: LENGTH_LIMIT - 10 };
    let mut integrator = Integrator::new(start, 5 * ONE);
    let mut step = Step {
        speed: 5 * ONE,
        arc_length: 10,
        turn: None,
        roll_angle: 0,
    };
    assert_eq!(integrator.complete(&step, None, Orientation::identity()), Ok(()));
    assert_eq!(integrator.position(), Vector3 { x: 0, y: 0, z: LENGTH_LIMIT });
    step.arc_length = 1;
    assert_eq!(
        integrator.complete(&step, None, Orientation::identity()),
        Err(IntegrationError::Sample(SplineError::PositionOutOfRange))
    );
    assert_eq!(integrator.spline().len(), 1);
    assert_eq!(integrator.time(), DT);
    let far = Vector3 { x: i64::MAX, y: i64::MIN, z: 0 };
    let mut lost = Integrator::new(far, 5 * ONE);
    assert_eq!(
        lost.complete(&step, None, Orientation::identity()),
        Err(IntegrationError::Sample(SplineError::PositionOutOfRange))
    );
}

#[test]
fn a_track_too_long_is_refused() {
    let start = Vector3 { x: 0, y: 0, z: -LENGTH_LIMIT };
    let mut integrator = Integrator::new(start, ONE);
    let step = Step {
        speed: ONE,
        arc_length: LENGTH_LIMIT,
        turn: None,
        roll_angle: 0,
    };
    let about = Orientation { x: 0, y: ONE, z: 0, w: 0 };
    let mut taken = 0;
    let mut leg = 0;
    let stopped = loop {
        let turn = if leg == 2 { Some(about) } else { None };
        if leg == 2 {
            leg = 0;
        }
        match integrator.complete(&step, turn, Orientation::identity()) {
            Ok(()) => {
                taken += 1;
                leg += 1;
            }
            Err(e) => break e,
        }
        assert!(taken < 20);
    };
    assert_eq!(stopped, IntegrationError::Sample(SplineError::TooLong));
    assert_eq!(taken, 8);
    assert_eq!(integrator.spline().len(), 8);
    assert_eq!(integrator.spline().length(), 7 * LENGTH_LIMIT);
}

#[test]
fn create_spline_takes_the_steps_one_by_one() {
    let ride = profile(2 * ONE, -ONE, 30 * ONE, 2, None);
    let start = Vector3 { x: 0, y: 30 * ONE, z: 0 };
    let (spline, stopped, steps) = run(&ride, start, 12 * ONE);
    let (by_hand, stopped_by_hand) = run_by_hand(&ride, start, 12 * ONE);
    assert_eq!(stopped, stopped_by_hand);
    assert_eq!(steps, by_hand.len());
    let mut i = 0;
    while i < steps {
        assert_eq!(spline.point(i), by_hand.point(i));
        i += 1;
    }
    assert_eq!(spline.to_nolimits_element(), by_hand.to_nolimits_element());
}

#[test]
fn create_spline_of_an_empty_profile_is_empty() {
    let (spline, stopped) = create_spline(&Transitions::empty(ONE, 0, 0), origin(), ONE, rotation);
    assert_eq!(spline.len(), 0);
    assert_eq!(stopped, None);
}

#[test]
fn create_spline_reports_a_rotation_that_is_not_a_unit() {
    let broken = |_axis: Vector3, _angle: i64| Orientation { x: 0, y: 0, z: 0, w: 0 };
    let (spline, stopped) = create_spline(&profile(ONE, 0, 0, 1, None), origin(), ONE, broken);
    assert_eq!(spline.len(), 0);
    assert_eq!(stopped, Some(IntegrationError::RotationNotUnit));
}

#[test]
fn create_spline_reports_a_demand_beyond_the_limit() {
    let (spline, stopped, _) = run(&profile(DEMAND_LIMIT, 1_000, 0, 1, None), origin(), ONE);
    assert_eq!(stopped, Some(IntegrationError::DemandOutOfRange));
    assert!(spline.len() > 0);
}

#[test]
fn every_orientation_of_a_run_is_a_unit() {
    let mut ride = Transitions::empty(ONE, 0, 0);
    ride.push(FullTransition::new(
        Transition::new(TransitionFunction::Cubic, 2 * ONE),
        Transition::new(TransitionFunction::Plateau, ONE / 2),
        Transition::new(TransitionFunction::Plateau, 60 * ONE),
        2 * ONE,
        None,
    ))
    .unwrap();
    ride.push(FullTransition::new(
        Transition::new(TransitionFunction::Quadratic, -3 * ONE),
        Transition::new(TransitionFunction::Linear, -ONE / 4),
        Transition::new(TransitionFunction::Cubic, -45 * ONE),
        ONE,
        Some(15 * ONE),
    ))
    .unwrap();
    let (spline, stopped, steps) = run(&ride, Vector3 { x: 0, y: 50 * ONE, z: 0 }, 20 * ONE);
    assert_eq!(stopped, None);
    assert_eq!(steps, 300);
    let mut i = 0;
    while i < spline.len() {
        let (_, q) = spline.point(i);
        assert!(q.check_unit());
        let norm = ((q.x * q.x + q.y * q.y + q.z * q.z + q.w * q.w) as f64).sqrt() / 1e6;
        assert!((norm - 1.0).abs() <= 1e-4);
        i += 1;
    }
}

#[test]
fn a_run_agrees_with_floating_point() {
    let mut ride = Transitions::empty(ONE, 0, 0);
    ride.push(FullTransition::new(
        Transition::new(TransitionFunction::Cubic, 2 * ONE),
        Transition::new(TransitionFunction::Plateau, ONE / 2),
        Transition::new(TransitionFunction::Plateau, 60 * ONE),
        2 * ONE,
        None,
    ))
    .unwrap();
    ride.push(FullTransition::new(
        Transition::new(TransitionFunction::Quadratic, -3 * ONE),
        Transition::new(TransitionFunction::Linear, -ONE / 4),
        Transition::new(TransitionFunction::Cubic, -45 * ONE),
        ONE,
        Some(15 * ONE),
    ))
    .unwrap();
    let (spline, stopped, _) = run(&ride, Vector3 { x: 0, y: 50 * ONE, z: 0 }, 20 * ONE);
    assert_eq!(stopped, None);
    let floats = float_run(&ride, Vec3::new(0.0, 50.0, 0.0), 20.0);
    assert_eq!(spline.len(), floats.len());
    let mut i = 0;
    while i < spline.len() {
        let (p, q) = spline.point(i);
        let mine = Vec3::new(from_micro(p.x), from_micro(p.y), from_micro(p.z));
        let heading = Quat::from_xyzw(
            from_micro(q.x),
            from_micro(q.y),
            from_micro(q.z),
            from_micro(q.w),
        );
        assert!((mine - floats[i].0).length() < 0.05, "sample {}: {} against {}", i, mine, floats[i].0);
        assert!(heading.dot(floats[i].1).abs() > 0.9999, "sample {}", i);
        i += 1;
    }
}
