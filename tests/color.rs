use raytracer::{Camera, Rgb, Scalar, Vector};

fn sc(v: f64) -> Scalar {
    Scalar::from_raw((v * 4294967296.0) as i64)
}

fn rgb(r: f64, g: f64, b: f64) -> Rgb {
    Rgb::new(sc(r), sc(g), sc(b))
}

fn vec3(x: f64, y: f64, z: f64) -> Vector {
    Vector::new(sc(x), sc(y), sc(z))
}

#[test]
fn colour_arithmetic_is_channel_wise() {
    let a = rgb(1.0, 2.0, 3.0);
    let b = rgb(0.5, 4.0, -1.0);
    assert_eq!(a.add(b), rgb(1.5, 6.0, 2.0));
    assert_eq!(a.sub(b), rgb(0.5, -2.0, 4.0));
    assert_eq!(a.mul(b), rgb(0.5, 8.0, -3.0));
    assert_eq!(a.div(b), rgb(2.0, 0.5, -3.0));
    assert_eq!(a.scale(sc(0.5)), rgb(0.5, 1.0, 1.5));
    assert_eq!(a.div_scalar(sc(4.0)), rgb(0.25, 0.5, 0.75));
    assert_eq!(a.add_scalar(sc(10.0)), rgb(11.0, 12.0, 13.0));
}

#[test]
fn camera_spans_the_viewport() {
    let camera = Camera::new();
    let low = camera.ray(sc(0.0), sc(0.0));
    assert_eq!(low.origin, vec3(0.0, 0.0, 0.0));
    assert_eq!(low.direction, vec3(-2.0, -1.0, -1.0));
    let high = camera.ray(sc(1.0), sc(1.0));
    assert_eq!(high.direction, vec3(2.0, 1.0, -1.0));
    let mid = camera.ray(sc(0.25), sc(0.75));
    assert_eq!(mid.direction, vec3(-1.0, 0.5, -1.0));
}

#[test]
fn points_along_a_ray() {
    let ray = raytracer::Ray::new(vec3(1.0, 2.0, 3.0), vec3(0.5, -1.0, 2.0));
    assert_eq!(ray.point_at(sc(2.0)), vec3(2.0, 0.0, 7.0));
    assert_eq!(ray.point_at(sc(0.0)), ray.origin);
}
