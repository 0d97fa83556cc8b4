use curve_core::geometry::{Orientation, Vector3};
use curve_core::spline::TrackSpline;
use curve_core::units::ONE;
use glam::{Quat, Vec3};
use xmlwriter::{Indent, Options, XmlWriter};

fn at(x: i64, y: i64, z: i64) -> Vector3 {
    Vector3 { x, y, z }
}

fn straight_track() -> TrackSpline {
    let mut spline = TrackSpline::new();
    spline.push(at(0, 20 * ONE, 0), Orientation::identity()).unwrap();
    spline.push(at(0, 20 * ONE, ONE), Orientation::identity()).unwrap();
    spline.push(at(0, 20 * ONE, 2 * ONE), Orientation::identity()).unwrap();
    spline
}

fn count(text: &str, part: &str) -> usize {
    text.matches(part).count()
}

fn to_micro(v: f32) -> i64 {
    (v as f64 * 1e6).round() as i64
}

fn field(w: &mut XmlWriter, name: &str, value: f32) {
    w.start_element(name);
    w.write_text(&format!("{:.5}", value));
    w.end_element();
}

fn strict(w: &mut XmlWriter) {
    w.start_element("strict");
    w.write_text("false");
    w.end_element();
}

fn float_export(points: &[(Vec3, Quat)]) -> String {
    let opt = Options { indent: Indent::None, ..Options::default() };
    let mut w = XmlWriter::new(opt);
    w.write_declaration();
    w.start_element("root");
    w.start_element("element");
    w.start_element("description");
    w.write_text("elimerl's fvd export");
    w.end_element();
    for point in points.iter() {
        w.start_element("vertex");
        field(&mut w, "x", point.0.x * 3.2808399);
        field(&mut w, "y", point.0.y * 3.2808399);
        field(&mut w, "z", point.0.z * 3.2808399);
        strict(&mut w);
        w.end_element();
    }
    let total: f32 = points.windows(2).map(|p| (p[0].0 - p[1].0).length()).sum();
    let mut so_far: f32 = 0.0;
    for pair in points.windows(2) {
        let up = pair[0].1 * Vec3::Y;
        let right = -(pair[0].1 * Vec3::X);
        w.start_element("roll");
        field(&mut w, "ux", up.x);
        field(&mut w, "uy", up.y);
        field(&mut w, "uz", up.z);
        field(&mut w, "rx", right.x);
        field(&mut w, "ry", right.y);
        field(&mut w, "rz", right.z);
        field(&mut w, "coord", so_far / total);
        strict(&mut w);
        w.end_element();
        so_far += (pair[1].0 - pair[0].0).length();
    }
    w.end_document()
}

#[test]
fn export_of_an_empty_spline() {
    assert_eq!(
        TrackSpline::new().to_nolimits_element(),
        "<?xml version=\"1.0\" encoding=\"UTF-8\" standalone=\"no\"?><root><element>\
         <description>elimerl's fvd export</description></element></root>"
    );
}

#[test]
fn export_of_one_sample_has_a_vertex_and_no_roll() {
    let mut spline = TrackSpline::new();
    spline.push(at(1_500_000, -2_250_000, 0), Orientation::identity()).unwrap();
    assert_eq!(
        spline.to_nolimits_element(),
        "<?xml version=\"1.0\" encoding=\"UTF-8\" standalone=\"no\"?><root><element>\
         <description>elimerl's fvd export</description>\
         <vertex><x>4.92126</x><y>-7.38189</y><z>0.00000</z><strict>false</strict></vertex>\
         </element></root>"
    );
}

#[test]
fn export_of_three_samples() {
    assert_eq!(
        straight_track().to_nolimits_element(),
        "<?xml version=\"1.0\" encoding=\"UTF-8\" standalone=\"no\"?><root><element>\
         <description>elimerl's fvd export</description>\
         <vertex><x>0.00000</x><y>65.61680</y><z>0.00000</z><strict>false</strict></vertex>\
         <vertex><x>0.00000</x><y>65.61680</y><z>3.28084</z><strict>false</strict></vertex>\
         <vertex><x>0.00000</x><y>65.61680</y><z>6.56168</z><strict>false</strict></vertex>\
         <roll><ux>0.00000</ux><uy>1.00000</uy><uz>0.00000</uz>\
         <rx>-1.00000</rx><ry>0.00000</ry><rz>0.00000</rz>\
         <coord>0.00000</coord><strict>false</strict></roll>\
         <roll><ux>0.00000</ux><uy>1.00000</uy><uz>0.00000</uz>\
         <rx>-1.00000</rx><ry>0.00000</ry><rz>0.00000</rz>\
         <coord>0.50000</coord><strict>false</strict></roll>\
         </element></root>"
    );
}

#[test]
fn export_has_a_vertex_for_each_sample_and_a_roll_for_each_pair() {
    let text = straight_track().to_nolimits_element();
    assert_eq!(count(&text, "<vertex>"), 3);
    assert_eq!(count(&text, "</vertex>"), 3);
    assert_eq!(count(&text, "<roll>"), 2);
    assert_eq!(count(&text, "</roll>"), 2);
    assert_eq!(count(&text, "<strict>false</strict>"), 5);
    assert_eq!(count(&text, "<description>"), 1);
    assert!(text.find("<roll>").unwrap() > text.rfind("</vertex>").unwrap());
}

#[test]
fn export_writes_five_fraction_digits() {
    let text = straight_track().to_nolimits_element();
    let names = ["x", "y", "z", "ux", "uy", "uz", "rx", "ry", "rz", "coord"];
    let mut fields = 0;
    for name in names.iter() {
        let open = format!("<{}>", name);
        let close = format!("</{}>", name);
        let mut rest: &str = &text;
        while let Some(start) = rest.find(&open) {
            let from = start + open.len();
            let len = rest[from..].find(&close).unwrap();
            let number = &rest[from..from + len];
            let point = number.find('.').unwrap();
            assert_eq!(number.len() - point - 1, 5, "{}", number);
            assert!(number[point + 1..].chars().all(|c| c.is_ascii_digit()));
            fields += 1;
            rest = &rest[from + len..];
        }
    }
    assert_eq!(fields, 3 * 3 + 2 * 7);
}

#[test]
fn export_of_a_bent_track() {
    let mut spline = TrackSpline::new();
    let third = Orientation { x: 500_000, y: 500_000, z: 500_000, w: 500_000 };
    let quarter = Orientation { x: 0, y: 707_107, z: 0, w: 707_107 };
    spline.push(at(0, 0, 0), third).unwrap();
    spline.push(at(3 * ONE, 4 * ONE, 0), quarter).unwrap();
    spline.push(at(3 * ONE, 4 * ONE, 12 * ONE), Orientation::identity()).unwrap();
    assert_eq!(spline.coord(0), 0);
    assert_eq!(spline.coord(1), 294_118);
    assert_eq!(spline.coord(2), ONE);
    assert_eq!(
        spline.to_nolimits_element(),
        "<?xml version=\"1.0\" encoding=\"UTF-8\" standalone=\"no\"?><root><element>\
         <description>elimerl's fvd export</description>\
         <vertex><x>0.00000</x><y>0.00000</y><z>0.00000</z><strict>false</strict></vertex>\
         <vertex><x>9.84252</x><y>13.12336</y><z>0.00000</z><strict>false</strict></vertex>\
         <vertex><x>9.84252</x><y>13.12336</y><z>39.37008</z><strict>false</strict></vertex>\
         <roll><ux>0.00000</ux><uy>0.00000</uy><uz>1.00000</uz>\
         <rx>0.00000</rx><ry>-1.00000</ry><rz>0.00000</rz>\
         <coord>0.00000</coord><strict>false</strict></roll>\
         <roll><ux>0.00000</ux><uy>1.00000</uy><uz>0.00000</uz>\
         <rx>0.00000</rx><ry>0.00000</ry><rz>1.00000</rz>\
         <coord>0.29412</coord><strict>false</strict></roll>\
         </element></root>"
    );
}

#[test]
fn export_agrees_with_the_floating_point_writer() {
    let samples = [
        (Vec3::new(1.0, 2.0, 3.0), Quat::from_axis_angle(Vec3::new(1.0, 2.0, 3.0).normalize(), 0.7)),
        (Vec3::new(2.5, 1.0, 4.75), Quat::from_axis_angle(Vec3::new(-1.0, 0.5, 2.0).normalize(), -1.9)),
        (Vec3::new(3.25, -0.5, 7.0), Quat::from_axis_angle(Vec3::new(0.3, 0.2, -0.9).normalize(), 2.4)),
        (Vec3::new(3.5, -2.0, 9.5), Quat::IDENTITY),
    ];
    let mut spline = TrackSpline::new();
    for (position, orientation) in samples.iter() {
        spline
            .push(
                at(to_micro(position.x), to_micro(position.y), to_micro(position.z)),
                Orientation {
                    x: to_micro(orientation.x),
                    y: to_micro(orientation.y),
                    z: to_micro(orientation.z),
                    w: to_micro(orientation.w),
                },
            )
            .unwrap();
    }
    let mine = spline.to_nolimits_element();
    let theirs = float_export(&samples);
    let numbers = |text: &str| -> Vec<f64> {
        text.split(|c| c == '<' || c == '>')
            .filter_map(|part| part.parse::<f64>().ok())
            .collect()
    };
    let frame = |text: &str| -> Vec<String> {
        text.split(|c| c == '<' || c == '>')
            .filter(|part| part.parse::<f64>().is_err())
            .map(|part| part.to_string())
            .collect()
    };
    assert_eq!(frame(&mine), frame(&theirs));
    let a = numbers(&mine);
    let b = numbers(&theirs);
    assert_eq!(a.len(), 4 * 3 + 3 * 7);
    assert_eq!(a.len(), b.len());
    for (x, y) in a.iter().zip(b.iter()) {
        assert!((x - y).abs() < 3e-5, "{} against {}", x, y);
    }
}
