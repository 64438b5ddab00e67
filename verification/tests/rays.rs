use glam::DVec4;
use rust_rtc::rays::ray;

fn point(x: f64, y: f64, z: f64) -> DVec4 {
    DVec4::new(x, y, z, 1.0)
}

fn vector(x: f64, y: f64, z: f64) -> DVec4 {
    DVec4::new(x, y, z, 0.0)
}

#[test]
fn creating_and_querying_a_ray() {
    let origin = point(1.0, 2.0, 3.0);
    let direction = vector(4.0, 5.0, 6.0);
    let r = ray(origin, direction);
    assert_eq!(r.origin, origin);
    assert_eq!(r.direction, direction);
}
