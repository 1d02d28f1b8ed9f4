use approx::AbsDiffEq;
use raytracer::{Scalar, Vector};

fn sc(v: f32) -> Scalar {
    Scalar::from_raw((v as f64 * 4294967296.0) as i64)
}

fn as_f32(s: Scalar) -> f32 {
    (s.raw as f64 / 4294967296.0) as f32
}

fn close(a: Scalar, b: f32) -> bool {
    as_f32(a).abs_diff_eq(&b, f32::EPSILON)
}

fn vec3(x: f32, y: f32, z: f32) -> Vector {
    Vector::new(sc(x), sc(y), sc(z))
}

#[test]
fn length() {
    let v = vec3(1.0, 1.0, 1.0);
    assert!(close(v.length(), 1.7320508));
}

#[test]
fn add() {
    let v = vec3(5.0, 5.0, 5.0);
    assert!(close(v.add(v).x, 10.0));
    assert!(close(v.add(v).y, 10.0));
    assert!(close(v.add(v).z, 10.0));
    assert!(close(v.add_scalar(sc(10.0)).x, 15.0));
    assert!(close(v.add_scalar(sc(10.0)).y, 15.0));
    assert!(close(v.add_scalar(sc(10.0)).z, 15.0));
}

#[test]
fn mul() {
    let v = vec3(5.0, 5.0, 5.0);
    assert!(close(v.mul(v).x, 25.0));
    assert!(close(v.mul(v).y, 25.0));
    assert!(close(v.mul(v).z, 25.0));
    assert!(close(v.scale(sc(10.0)).x, 50.0));
    assert!(close(v.scale(sc(10.0)).y, 50.0));
    assert!(close(v.scale(sc(10.0)).z, 50.0));
}

#[test]
fn div() {
    let v = vec3(10.0, 10.0, 10.0);
    assert!(close(v.div(v).x, 1.0));
    assert!(close(v.div(v).y, 1.0));
    assert!(close(v.div(v).z, 1.0));
    assert!(close(v.div_scalar(sc(5.0)).x, 2.0));
    assert!(close(v.div_scalar(sc(5.0)).y, 2.0));
    assert!(close(v.div_scalar(sc(5.0)).z, 2.0));
}

#[test]
fn cross_product() {
    let v1 = vec3(4.0, 5.0, 5.0);
    let v2 = vec3(-5.0, -5.0, -5.0);
    let v3 = v1.cross(&v2);
    assert!(close(v3.x, 0.0));
    assert!(close(v3.y, -5.0));
    assert!(close(v3.z, 5.0));
}

#[test]
fn squared_length() {
    let v1 = vec3(10.0, 10.0, 10.0);
    let length = v1.squared_length();
    assert!(close(length, 300.0));
}

#[test]
fn unit() {
    let v1 = vec3(10.0, 10.0, 10.0);
    assert!(close(v1.unit().length(), 1.0));
}

#[test]
fn dot() {
    let v1 = vec3(10.0, 10.0, 10.0);
    let v2 = vec3(20.0, 20.0, 20.0);
    assert!(close(v1.dot(&v2), 600.0));
}

#[test]
fn sub_and_sum_are_exact() {
    let a = vec3(5.0, 5.0, 5.0);
    assert_eq!(a.add(a), vec3(10.0, 10.0, 10.0));
    assert_eq!(a.sub(vec3(1.5, 2.5, -3.0)), vec3(3.5, 2.5, 8.0));
}

#[test]
fn rounding_is_toward_zero() {
    let third = Scalar::ratio(1, 3);
    assert_eq!(third.raw, 1431655765);
    assert_eq!(Scalar::ratio(-1, 3).raw, -1431655765);
    assert_eq!(Scalar::from_int(-2).raw, -2 * 4294967296);
    let p = Scalar::from_raw(3).mul(Scalar::from_raw(-4294967295));
    assert_eq!(p.raw, -2);
    assert_eq!(Scalar::from_int(2).sqrt().raw, 6074000999);
}

#[test]
fn random_unit_stays_in_the_ball() {
    for _ in 0..1000 {
        let v = Vector::random_unit();
        assert!(v.squared_length().raw < 4294967296);
    }
}

#[test]
fn draws_map_onto_the_cube() {
    let v = Vector::from_draws(0, 2147483648, 4294967295);
    assert_eq!(v.x.raw, -4294967296);
    assert_eq!(v.y.raw, 0);
    assert_eq!(v.z.raw, 4294967294);
}
