use raytracer::{
    RayIntersect,
    background, pixel_coord, quantize_channel, raycast, render_scene, to_rgba8, trace, Accumulator,
    Camera, Object, Ray, Rgb, Scalar, Scene, SceneError, Sphere, Vector, MAX_DEPTH, MIN_T_RAW,
    ONE_RAW, WORLD_RAW,
};

fn sc(v: f64) -> Scalar {
    Scalar::from_raw((v * 4294967296.0) as i64)
}

fn as_f64(s: Scalar) -> f64 {
    s.raw as f64 / 4294967296.0
}

fn vec3(x: f64, y: f64, z: f64) -> Vector {
    Vector::new(sc(x), sc(y), sc(z))
}

fn window() -> (Scalar, Scalar) {
    (Scalar::from_raw(MIN_T_RAW), Scalar::from_raw(WORLD_RAW))
}

fn min_t() -> Scalar {
    Scalar::from_raw(MIN_T_RAW)
}

fn small_sphere() -> Sphere {
    Sphere::new(vec3(0.0, 0.0, -1.0), sc(0.5)).unwrap()
}

fn one_sphere_scene() -> Scene {
    Scene { objects: vec![Object::Sphere(small_sphere())] }
}

fn rgb(r: f64, g: f64, b: f64) -> Rgb {
    Rgb::new(sc(r), sc(g), sc(b))
}

fn norm(v: Vector) -> f64 {
    (as_f64(v.x).powi(2) + as_f64(v.y).powi(2) + as_f64(v.z).powi(2)).sqrt()
}

#[test]
fn intersection_with_ray() {
    let s = Sphere::new(vec3(0.0, 0.0, -1.0), sc(0.5)).unwrap();
    let r = Ray::new(vec3(0.0, 0.0, 0.0), vec3(0.0, 0.0, -1.0));
    assert!(r.intersects(&s, window()).is_some());
}

#[test]
fn rays_through_the_center_hit_head_on() {
    let s = small_sphere();
    let origins = [(0.0, 0.0, 0.0), (3.0, 4.0, 5.0), (-2.0, 1.0, -7.0), (0.25, -3.0, 0.5)];
    for (ox, oy, oz) in origins {
        let origin = vec3(ox, oy, oz);
        let direction = s.center.sub(origin).scale(sc(0.37));
        let ray = Ray::new(origin, direction);
        let hit = ray.intersects(&s, window()).expect("a ray through the center hits");
        let rel = hit.point.sub(s.center);
        assert!((norm(rel) - 0.5).abs() < 1e-4);
        let c = hit.normal.cross(&direction);
        assert!(norm(c) < 1e-4 * norm(direction));
    }
}

#[test]
fn rays_that_pass_by_miss() {
    let s = small_sphere();
    let rays = [
        Ray::new(vec3(0.0, 2.0, 0.0), vec3(0.0, 0.0, -1.0)),
        Ray::new(vec3(0.0, 0.0, 0.0), vec3(1.0, 0.0, 0.0)),
        Ray::new(vec3(0.6, 0.0, 0.0), vec3(0.0, 0.0, -3.0)),
        Ray::new(vec3(0.0, 0.0, 0.0), vec3(0.0, 0.0, 1.0)),
    ];
    for ray in rays {
        assert_eq!(ray.intersects(&s, window()), None);
    }
}

#[test]
fn normals_have_unit_length() {
    let s = Sphere::new(vec3(0.0, -100.5, -1.0), sc(100.0)).unwrap();
    let near = small_sphere();
    for (x, y) in [(0.0, -1.0), (0.3, -0.8), (-1.5, -0.2), (0.1, 0.1)] {
        let ray = Ray::new(vec3(0.0, 0.0, 0.0), vec3(x, y, -1.0));
        for obj in [s, near] {
            if let Some(hit) = ray.intersects(&obj, window()) {
                assert!((norm(hit.normal) - 1.0).abs() < 1e-4);
            }
        }
    }
}

#[test]
fn degenerate_spheres_are_refused() {
    assert_eq!(Sphere::new(vec3(0.0, 0.0, 0.0), sc(0.0)), Err(SceneError::DegenerateSphere));
    assert_eq!(Sphere::new(vec3(0.0, 0.0, 0.0), sc(-1.0)), Err(SceneError::DegenerateSphere));
    assert_eq!(Sphere::new(vec3(5000.0, 0.0, 0.0), sc(1.0)), Err(SceneError::OutOfRange));
    assert_eq!(Sphere::new(vec3(0.0, 0.0, 0.0), sc(0.000001)), Err(SceneError::OutOfRange));
    let bad = Sphere { center: vec3(0.0, 0.0, 0.0), radius: sc(0.0) };
    assert!(!Scene { objects: vec![Object::Sphere(bad)] }.is_valid());
    assert!(one_sphere_scene().is_valid());
}

#[test]
fn nearest_surface_wins_and_ties_go_to_the_first() {
    let far = Sphere::new(vec3(0.0, 0.0, -5.0), sc(0.5)).unwrap();
    let near = small_sphere();
    let ray = Ray::new(vec3(0.0, 0.0, 0.0), vec3(0.0, 0.0, -1.0));
    let scene = Scene { objects: vec![Object::Sphere(far), Object::Sphere(near)] };
    let hit = scene.nearest_hit(&ray, window()).unwrap();
    assert_eq!(hit.t.raw, 2147483648);
    let twin = Sphere::new(vec3(0.0, 0.0, -1.0), sc(0.5)).unwrap();
    let scene = Scene { objects: vec![Object::Sphere(near), Object::Sphere(twin)] };
    assert_eq!(scene.nearest_hit(&ray, window()), near.intersects(&ray, window()));
    let empty = Scene { objects: vec![] };
    assert_eq!(empty.nearest_hit(&ray, window()), None);
}

#[test]
fn background_straight_up_is_sky_blue() {
    let c = background(&Ray::new(vec3(0.0, 0.0, 0.0), vec3(0.0, 1.0, 0.0)));
    assert_eq!(c.r.raw, 774435127245);
    assert_eq!(c.g.raw, 916324000005);
    assert_eq!(c.b.raw, 1095216660480);
    let down = background(&Ray::new(vec3(0.0, 0.0, 0.0), vec3(0.0, -3.0, 0.0)));
    assert_eq!(down, Rgb::new(sc(255.0), sc(255.0), sc(255.0)));
}

#[test]
fn empty_scene_is_background() {
    let empty = Scene { objects: vec![] };
    for (x, y, z) in [(0.0, 0.0, -1.0), (1.0, 2.0, 3.0), (-0.5, -0.25, 0.0), (0.0, 1.0, 0.0)] {
        let ray = Ray::new(vec3(0.3, -0.2, 0.1), vec3(x, y, z));
        assert_eq!(raycast(&ray, &empty, min_t(), MAX_DEPTH), background(&ray));
    }
}

#[test]
fn center_ray_hits_the_sphere() {
    let camera = Camera::new();
    let ray = camera.ray(sc(0.5), sc(0.5));
    assert_eq!(ray.direction, vec3(0.0, 0.0, -1.0));
    let scene = one_sphere_scene();
    let hit = scene.nearest_hit(&ray, window()).unwrap();
    assert!((as_f64(hit.t) - 0.5).abs() < 1e-6);
    let c = raycast(&ray, &scene, min_t(), MAX_DEPTH);
    assert_ne!(c, background(&ray));
}

#[test]
fn one_bounce_halves_the_background_behind() {
    let scene = one_sphere_scene();
    let ray = Ray::new(vec3(0.0, 0.0, 0.0), vec3(0.0, 0.0, -1.0));
    let zero = vec3(0.0, 0.0, 0.0);
    let c = trace(&ray, &scene, min_t(), &vec![zero]);
    let hit = scene.nearest_hit(&ray, window()).unwrap();
    let bounced = Ray::new(hit.point, hit.normal.add(zero));
    let behind = background(&bounced);
    assert_eq!(c.r.raw, behind.r.raw / 2);
    assert_eq!(c.g.raw, behind.g.raw / 2);
    assert_eq!(c.b.raw, behind.b.raw / 2);
    let black = trace(&ray, &scene, min_t(), &vec![]);
    assert_eq!(black, rgb(0.0, 0.0, 0.0));
}

#[test]
fn pixel_coordinates_are_jittered_within_the_pixel() {
    assert_eq!(pixel_coord(1, 0, 4).raw, ONE_RAW / 4);
    assert_eq!(pixel_coord(0, 2147483648, 2).raw, ONE_RAW / 4);
    assert!(pixel_coord(3, u32::MAX, 4).raw < ONE_RAW);
}

#[test]
fn a_sample_pass_puts_the_top_row_first() {
    let camera = Camera::new();
    let empty = Scene { objects: vec![] };
    let frame = render_scene(4, 2, &camera, &empty, min_t(), 5);
    assert_eq!(frame.len(), 8);
    for c in &frame {
        for ch in [c.r, c.g, c.b] {
            assert!(ch.raw >= 0 && ch.raw <= 255 * ONE_RAW);
        }
    }
    for x in 0..4 {
        assert!(frame[x].r.raw < frame[4 + x].r.raw);
    }
}

#[test]
fn quantization_clamps_to_bytes() {
    assert_eq!(quantize_channel(sc(-5.0)), 0);
    assert_eq!(quantize_channel(sc(300.0)), 255);
    assert_eq!(quantize_channel(sc(127.9)), 127);
    let bytes = to_rgba8(&vec![rgb(-5.0, 300.0, 127.9), rgb(1.0, 2.5, 255.0)]);
    assert_eq!(bytes, vec![0, 255, 127, 255, 1, 2, 255, 255]);
}

#[test]
fn mean_of_identical_frames_is_the_frame() {
    let frame = vec![rgb(1.0, 2.0, 3.0), rgb(200.5, 0.0, 17.25), rgb(255.0, 254.9, 0.001)];
    let mut acc = Accumulator::new(3);
    for _ in 0..7 {
        assert!(acc.accepts(&frame));
        acc.add_frame(&frame);
    }
    assert_eq!(acc.frame_count(), 7);
    assert_eq!(acc.average(), frame);
}

#[test]
fn mean_is_exact_and_rounds_down() {
    let mut acc = Accumulator::new(1);
    acc.add_frame(&vec![rgb(1.0, 0.0, 10.0)]);
    acc.add_frame(&vec![rgb(2.0, 0.0, 20.0)]);
    acc.add_frame(&vec![rgb(4.0, 0.0, 30.0)]);
    let mean = acc.average();
    assert_eq!(mean[0].r.raw, 7 * ONE_RAW / 3);
    assert_eq!(mean[0].g.raw, 0);
    assert_eq!(mean[0].b.raw, 20 * ONE_RAW);
    assert!(!acc.accepts(&vec![rgb(256.0, 0.0, 0.0)]));
    assert!(!acc.accepts(&vec![rgb(1.0, 0.0, 0.0), rgb(1.0, 0.0, 0.0)]));
}

#[test]
fn order_of_frames_does_not_change_the_mean() {
    let camera = Camera::new();
    let scene = one_sphere_scene();
    let frames: Vec<Vec<Rgb>> =
        (0..6).map(|_| render_scene(3, 2, &camera, &scene, min_t(), 10)).collect();
    let mut forward = Accumulator::new(6);
    for f in &frames {
        forward.add_frame(f);
    }
    let mut shuffled = Accumulator::new(6);
    for k in [3, 0, 5, 1, 4, 2] {
        shuffled.add_frame(&frames[k]);
    }
    assert_eq!(forward.average(), shuffled.average());
}

#[test]
fn more_samples_keep_the_expected_value() {
    let camera = Camera::new();
    let scene = Scene {
        objects: vec![
            Object::Sphere(small_sphere()),
            Object::Sphere(Sphere::new(vec3(0.0, -100.5, -1.0), sc(100.0)).unwrap()),
        ],
    };
    let mean_of = |n: usize| {
        let mut acc = Accumulator::new(4);
        for _ in 0..n {
            acc.add_frame(&render_scene(2, 2, &camera, &scene, min_t(), MAX_DEPTH));
        }
        acc.average()
    };
    let few = mean_of(64);
    let many = mean_of(512);
    for (a, b) in few.iter().zip(many.iter()) {
        for (x, y) in [(a.r, b.r), (a.g, b.g), (a.b, b.b)] {
            assert!((as_f64(x) - as_f64(y)).abs() < 40.0);
        }
    }
}

#[test]
fn unsupported_kinds_are_refused() {
    let center = vec3(0.0, 0.0, -1.0);
    assert_eq!(
        Object::from_description("cube", center, sc(0.5)),
        Err(SceneError::UnsupportedKind)
    );
    assert_eq!(
        Object::from_description("spheres", center, sc(0.5)),
        Err(SceneError::UnsupportedKind)
    );
    assert_eq!(
        Object::from_description("sphere", center, sc(0.5)),
        Ok(Object::Sphere(small_sphere()))
    );
    assert_eq!(
        Object::from_description("sphere", center, sc(-0.5)),
        Err(SceneError::DegenerateSphere)
    );
}
