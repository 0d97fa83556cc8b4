use curve_core::geometry::Vector3;
use curve_core::units::{m_to_ft, m_to_ft_vec3, mps_to_miph, G, LENGTH_LIMIT, ONE};

#[test]
fn one_is_a_million() {
    assert_eq!(ONE, 1_000_000);
    assert_eq!(G, 9_806_000);
}

#[test]
fn metres_to_feet() {
    assert_eq!(m_to_ft(0), 0);
    assert_eq!(m_to_ft(ONE), 3_280_840);
    assert_eq!(m_to_ft(-1_500_000), -4_921_260);
    assert_eq!(m_to_ft(20 * ONE), 65_616_798);
}

#[test]
fn metres_to_feet_agrees_with_floats() {
    let mut metres: i64 = -50;
    while metres <= 50 {
        let exact = m_to_ft(metres * ONE) as f64 / 1e6;
        let float = (metres as f32 * 3.2808399) as f64;
        assert!((exact - float).abs() < 1e-4, "{} m: {} against {}", metres, exact, float);
        metres += 1;
    }
}

#[test]
fn metres_to_feet_at_the_limit() {
    assert_eq!(m_to_ft(LENGTH_LIMIT), 3_782_550_873_882_177_372);
    assert_eq!(m_to_ft(-LENGTH_LIMIT), -3_782_550_873_882_177_372);
}

#[test]
fn metres_to_feet_on_each_coordinate() {
    let feet = m_to_ft_vec3(Vector3 { x: ONE, y: -1_500_000, z: 0 });
    assert_eq!(feet, Vector3 { x: 3_280_840, y: -4_921_260, z: 0 });
}

#[test]
fn metres_per_second_to_miles_per_hour() {
    assert_eq!(mps_to_miph(0), 0);
    assert_eq!(mps_to_miph(ONE), 2_236_936);
    assert_eq!(mps_to_miph(-ONE), -2_236_936);
    let exact = mps_to_miph(30 * ONE) as f64 / 1e6;
    let float = (30.0f32 * 2.2369363) as f64;
    assert!((exact - float).abs() < 1e-4);
}
