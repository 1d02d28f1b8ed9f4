//! One sample pass: every pixel of the frame shaded once through a jittered camera ray.
use crate::camera::{camera_ray, in_unit_interval, Camera};
use crate::ray::Ray;
use crate::rgb::Rgb;
use crate::scalar::{one, Scalar};
use crate::scene::{Object, Scene};
use crate::shade::{all_in_ball, displayable, min_t_ok, path, raycast};
use crate::vector::Vector;
use vstd::arithmetic::div_mod::lemma_multiply_divide_lt;
use vstd::prelude::*;

verus! {

/// The raw image-plane coordinate of pixel `p` of `n`, jittered by the fraction
/// `draw / 2^32` of a pixel: `(p + draw / 2^32) / n`.
pub open spec fn jitter(p: int, draw: u32, n: int) -> int {
    (p * one() + draw) / n
}

/// The column of the `i`-th pixel of a row-major frame `w` pixels wide.
pub open spec fn column(i: int, w: int) -> int {
    i % w
}

/// The sample row of the `i`-th pixel, counted from the bottom: the frame's first row
/// is the top of the image.
pub open spec fn sample_row(i: int, w: int, h: int) -> int {
    h - 1 - i / w
}

/// The camera ray for the `i`-th pixel with jitter draws `dx` and `dy`.
pub open spec fn pixel_ray(cam: Camera, w: int, h: int, i: int, dx: u32, dy: u32) -> Ray {
    camera_ray(cam, jitter(column(i, w), dx, w), jitter(sample_row(i, w, h), dy, h))
}

/// `c` is a colour that a sample pass can give the `i`-th pixel: the colour of that
/// pixel's ray for some jitter and some bounce directions in the unit ball.
pub open spec fn is_sample(
    c: Rgb,
    cam: Camera,
    objs: Seq<Object>,
    min_t: Scalar,
    max_depth: u32,
    w: int,
    h: int,
    i: int,
) -> bool {
    exists|dx: u32, dy: u32, s: Seq<Vector>|
        s.len() <= max_depth && all_in_ball(s) && c == #[trigger] path(
            pixel_ray(cam, w, h, i, dx, dy),
            objs,
            min_t,
            s,
        )
}

/// The image-plane coordinate of pixel `p` of `n`, jittered by `draw / 2^32` of a pixel.
pub fn pixel_coord(p: u32, draw: u32, n: u32) -> (r: Scalar)
    requires
        p < n,
    ensures
        r.val() == jitter(p as int, draw, n as int),
        in_unit_interval(r.val()),
{
    let a: u64 = (p as u64) * 4294967296u64 + draw as u64;
    proof {
        assert(a < n * one()) by (nonlinear_arith)
            requires
                a == p * 4294967296 + draw,
                draw < 4294967296,
                p + 1 <= n,
        ;
        lemma_multiply_divide_lt(a as int, n as int, one());
    }
    let q: u64 = a / (n as u64);
    Scalar { raw: q as i64 }
}

/// One sample pass over a `width` by `height` frame, row-major with the top row first:
/// each pixel is shaded once along a camera ray jittered at random within the pixel.
pub fn render_scene(
    width: u32,
    height: u32,
    camera: &Camera,
    scene: &Scene,
    min_t: Scalar,
    max_depth: u32,
) -> (r: Vec<Rgb>)
    requires
        width >= 1,
        height >= 1,
        width * height <= usize::MAX,
        camera.wf(),
        scene.wf(),
        min_t_ok(min_t),
    ensures
        r@.len() == width * height,
        forall|i: int|
            0 <= i < r@.len() ==> displayable(#[trigger] r@[i]) && is_sample(
                r@[i],
                *camera,
                scene.objects@,
                min_t,
                max_depth,
                width as int,
                height as int,
                i,
            ),
{
    let n: usize = (width as usize) * (height as usize);
    let mut image: Vec<Rgb> = Vec::new();
    let mut i: usize = 0;
    while i < n
        invariant
            image@.len() == i,
            i <= n,
            n == width * height,
            width >= 1,
            height >= 1,
            camera.wf(),
            scene.wf(),
            min_t_ok(min_t),
            forall|j: int|
                0 <= j < i ==> displayable(#[trigger] image@[j]) && is_sample(
                    image@[j],
                    *camera,
                    scene.objects@,
                    min_t,
                    max_depth,
                    width as int,
                    height as int,
                    j,
                ),
        decreases n - i,
    {
        let x: u32 = (i % (width as usize)) as u32;
        let row: usize = i / (width as usize);
        proof {
            lemma_multiply_divide_lt(i as int, width as int, height as int);
        }
        let y: u32 = height - 1 - (row as u32);
        let dx: u32 = rand::random::<u32>();
        let dy: u32 = rand::random::<u32>();
        let u = pixel_coord(x, dx, width);
        let v = pixel_coord(y, dy, height);
        let ray = camera.ray(u, v);
        let c = raycast(&ray, scene, min_t, max_depth);
        proof {
            let s = choose|s: Seq<Vector>|
                s.len() <= max_depth && all_in_ball(s) && c == path(ray, scene.objects@, min_t, s);
            assert(ray == pixel_ray(*camera, width as int, height as int, i as int, dx, dy));
            assert(is_sample(
                c,
                *camera,
                scene.objects@,
                min_t,
                max_depth,
                width as int,
                height as int,
                i as int,
            ));
        }
        image.push(c);
        i = i + 1;
    }
    image
}

} // verus!
