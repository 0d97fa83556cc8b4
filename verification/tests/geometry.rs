use curve_core::geometry::{Orientation, Vector3, AXIS_LIMIT, UNIT_TOLERANCE};
use curve_core::units::{LENGTH_LIMIT, ONE};
use glam::{Quat, Vec3};

fn to_micro(v: f32) -> i64 {
    (v as f64 * 1e6).round() as i64
}

fn orientation_of(q: Quat) -> Orientation {
    Orientation { x: to_micro(q.x), y: to_micro(q.y), z: to_micro(q.z), w: to_micro(q.w) }
}

fn close(fixed: i64, float: f32) -> bool {
    (fixed as f64 / 1e6 - float as f64).abs() < 5e-6
}

#[test]
fn range_of_a_vector() {
    assert!(Vector3 { x: 0, y: 0, z: 0 }.is_in_range());
    assert!(Vector3 { x: LENGTH_LIMIT, y: -LENGTH_LIMIT, z: 5 }.is_in_range());
    assert!(!Vector3 { x: LENGTH_LIMIT + 1, y: 0, z: 0 }.is_in_range());
    assert!(!Vector3 { x: 0, y: -LENGTH_LIMIT - 1, z: 0 }.is_in_range());
    assert!(!Vector3 { x: 0, y: 0, z: i64::MIN }.is_in_range());
}

#[test]
fn distance_of_a_right_triangle() {
    let a = Vector3 { x: 0, y: 0, z: 0 };
    let b = Vector3 { x: 3 * ONE, y: 4 * ONE, z: 0 };
    let c = Vector3 { x: 3 * ONE, y: 4 * ONE, z: 12 * ONE };
    assert_eq!(a.distance(&b), 5 * ONE);
    assert_eq!(b.distance(&a), 5 * ONE);
    assert_eq!(b.distance(&c), 12 * ONE);
    assert_eq!(a.distance(&c), 13 * ONE);
    assert_eq!(a.distance(&a), 0);
}

#[test]
fn distance_rounds_down() {
    let a = Vector3 { x: 0, y: 0, z: 0 };
    let b = Vector3 { x: ONE, y: ONE, z: 0 };
    assert_eq!(a.distance(&b), 1_414_213);
}

#[test]
fn distance_between_far_corners() {
    let a = Vector3 { x: -LENGTH_LIMIT, y: -LENGTH_LIMIT, z: -LENGTH_LIMIT };
    let b = Vector3 { x: LENGTH_LIMIT, y: LENGTH_LIMIT, z: LENGTH_LIMIT };
    assert_eq!(a.distance(&b), 3_993_837_246_235_628_775);
}

#[test]
fn identity_is_a_unit() {
    let q = Orientation::identity();
    assert_eq!(q, Orientation { x: 0, y: 0, z: 0, w: ONE });
    assert!(q.check_unit());
    assert_eq!(q.up(), Vector3 { x: 0, y: ONE, z: 0 });
    assert_eq!(q.right(), Vector3 { x: ONE, y: 0, z: 0 });
    assert_eq!(q.forward(), Vector3 { x: 0, y: 0, z: ONE });
}

#[test]
fn unit_tolerance_is_a_ten_thousandth() {
    assert_eq!(UNIT_TOLERANCE, 100);
    assert!(Orientation { x: 0, y: 0, z: 0, w: ONE + 100 }.check_unit());
    assert!(!Orientation { x: 0, y: 0, z: 0, w: ONE + 101 }.check_unit());
    assert!(Orientation { x: 0, y: ONE - 100, z: 0, w: 0 }.check_unit());
    assert!(!Orientation { x: 0, y: ONE - 101, z: 0, w: 0 }.check_unit());
    assert!(Orientation { x: 0, y: 0, z: -ONE, w: 0 }.check_unit());
    assert!(!Orientation { x: 0, y: 0, z: 0, w: 0 }.check_unit());
    assert!(!Orientation { x: ONE, y: ONE, z: 0, w: 0 }.check_unit());
    assert!(!Orientation { x: i64::MAX, y: 0, z: 0, w: 0 }.check_unit());
    assert!(!Orientation { x: 0, y: i64::MIN, z: 0, w: 0 }.check_unit());
    assert!(Orientation { x: 500_000, y: 500_000, z: 500_000, w: 500_000 }.check_unit());
}

#[test]
fn a_third_of_a_turn_permutes_the_axes() {
    let q = Orientation { x: 500_000, y: 500_000, z: 500_000, w: 500_000 };
    assert_eq!(q.up(), Vector3 { x: 0, y: 0, z: ONE });
    assert_eq!(q.right(), Vector3 { x: 0, y: ONE, z: 0 });
    assert_eq!(q.forward(), Vector3 { x: ONE, y: 0, z: 0 });
}

#[test]
fn axes_agree_with_glam() {
    let axes = [
        Vec3::new(1.0, 0.0, 0.0),
        Vec3::new(0.0, 1.0, 0.0),
        Vec3::new(0.0, 0.0, 1.0),
        Vec3::new(1.0, 2.0, 3.0),
        Vec3::new(-2.0, 0.5, 1.0),
        Vec3::new(0.3, -0.7, -0.2),
    ];
    for axis in axes.iter() {
        let mut step = -12;
        while step <= 12 {
            let q = Quat::from_axis_angle(axis.normalize(), step as f32 * 0.27);
            let mine = orientation_of(q);
            assert!(mine.check_unit());
            let up = q * Vec3::Y;
            let right = q * Vec3::X;
            let forward = q * Vec3::Z;
            let my_up = mine.up();
            let my_right = mine.right();
            let my_forward = mine.forward();
            assert!(close(my_up.x, up.x) && close(my_up.y, up.y) && close(my_up.z, up.z));
            assert!(
                close(my_right.x, right.x) && close(my_right.y, right.y)
                    && close(my_right.z, right.z)
            );
            assert!(
                close(my_forward.x, forward.x) && close(my_forward.y, forward.y)
                    && close(my_forward.z, forward.z)
            );
            for c in [my_up, my_right, my_forward].iter() {
                assert!(c.x.abs() <= AXIS_LIMIT && c.y.abs() <= AXIS_LIMIT);
                assert!(c.z.abs() <= AXIS_LIMIT);
            }
            step += 1;
        }
    }
}

#[test]
fn product_with_the_identity() {
    let q = Orientation { x: 500_000, y: -500_000, z: 500_000, w: 500_000 };
    assert_eq!(q.compose(&Orientation::identity()), q);
    assert_eq!(Orientation::identity().compose(&q), q);
}

#[test]
fn two_quarter_turns_make_a_half_turn() {
    let quarter = Orientation { x: 0, y: 707_107, z: 0, w: 707_107 };
    let half = quarter.compose(&quarter);
    assert_eq!(half, Orientation { x: 0, y: ONE + 1, z: 0, w: 0 });
    assert_eq!(half.normalize(), Orientation { x: 0, y: ONE, z: 0, w: 0 });
    assert_eq!(half.normalize().forward(), Vector3 { x: 0, y: 0, z: -ONE });
}

#[test]
fn products_are_applied_from_the_right() {
    let about_x = Orientation { x: 707_107, y: 0, z: 0, w: 707_107 };
    let about_y = Orientation { x: 0, y: 707_107, z: 0, w: 707_107 };
    assert_eq!(
        about_x.compose(&about_y),
        Orientation { x: 500_000, y: 500_000, z: 500_000, w: 500_000 }
    );
    assert_eq!(
        about_y.compose(&about_x),
        Orientation { x: 500_000, y: 500_000, z: -500_000, w: 500_000 }
    );
}

#[test]
fn products_agree_with_glam() {
    let axes = [Vec3::new(1.0, 2.0, 3.0), Vec3::new(-2.0, 0.5, 1.0), Vec3::new(0.3, -0.7, -0.2)];
    for a in axes.iter() {
        for b in axes.iter() {
            let mut step = -6;
            while step <= 6 {
                let p = Quat::from_axis_angle(a.normalize(), step as f32 * 0.41);
                let q = Quat::from_axis_angle(b.normalize(), 1.3 - step as f32 * 0.17);
                let product = p * q;
                let mine = orientation_of(p).compose(&orientation_of(q));
                assert!(close(mine.x, product.x) && close(mine.y, product.y));
                assert!(close(mine.z, product.z) && close(mine.w, product.w));
                let unit = mine.normalize();
                assert!(unit.check_unit());
                let exact = product.normalize();
                assert!(close(unit.x, exact.x) && close(unit.y, exact.y));
                assert!(close(unit.z, exact.z) && close(unit.w, exact.w));
                step += 1;
            }
        }
    }
}

#[test]
fn normalize_scales_to_the_norm_one() {
    let long = Orientation { x: 0, y: 0, z: 600_000, w: 800_300 };
    let unit = long.normalize();
    assert_eq!(unit, Orientation { x: 0, y: 0, z: 599_856, w: 800_108 });
    assert!(unit.check_unit());
    let short = Orientation { x: -300_000, y: 400_000, z: 500_000, w: -707_000 };
    assert_eq!(
        short.normalize(),
        Orientation { x: -300_023, y: 400_030, z: 500_038, w: -707_054 }
    );
    assert!(short.normalize().check_unit());
    assert_eq!(Orientation::identity().normalize(), Orientation::identity());
}
