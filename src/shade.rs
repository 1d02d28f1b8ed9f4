//! Shading: the sky gradient, and the diffuse bounce loop that resolves a ray to a colour.
use crate::ray::{traceable, world, IntersectionResult, Ray, WORLD_RAW};
use crate::rgb::{add_rgb, rgb3, scale_rgb, Rgb};
use crate::scalar::{
    abs, fx_mul, fx_sqrt, lemma_fx_div_bound, lemma_fx_mul_bound, lemma_isqrt_is,
    lemma_isqrt_monotonic, lemma_tdiv_abs, one, Scalar, ONE_RAW,
};
use crate::scene::{nearest_in, Object, Scene};
use crate::sphere::{in_world, lemma_dot_bound};
use crate::vector::{add_spec, dot_spec, in_unit_ball, length_spec, unit_spec, Vector};
use vstd::prelude::*;

verus! {

/// The usual lower end of the parameter window, 0.001 in raw form: hits nearer than this
/// to a ray's origin are ignored, so that a bounced ray does not meet the surface it
/// leaves because of rounding.
pub const MIN_T_RAW: i64 = 4294967;

/// The usual number of bounces followed before a path is given up as black.
pub const MAX_DEPTH: u32 = 50;

const HALF_RAW: i64 = 2147483648;

/// 255 in raw form: the top of the display range.
pub const DISPLAY_MAX_RAW: i64 = 1095216660480;

pub open spec fn black() -> Rgb {
    rgb3(0, 0, 0)
}

pub open spec fn white() -> Rgb {
    rgb3(one(), one(), one())
}

/// The sky colour at the zenith: (0.5, 0.7, 1.0).
pub open spec fn sky_blue() -> Rgb {
    rgb3(2147483648, 3006477107, one())
}

/// Each channel lies in the display range `[0, 255]`.
pub open spec fn displayable(c: Rgb) -> bool {
    0 <= c.r.val() <= 255 * one() && 0 <= c.g.val() <= 255 * one() && 0 <= c.b.val() <= 255 * one()
}

pub open spec fn clamp_unit(t: int) -> int {
    if t < 0 {
        0
    } else if t > one() {
        one()
    } else {
        t
    }
}

/// How far up the sky a direction points: `0.5 * (unit(d).y + 1)`, kept within `[0, 1]`
/// against rounding in the normalisation.
pub open spec fn sky_t(ray: Ray) -> int {
    clamp_unit(fx_mul(one() / 2, unit_spec(ray.direction).y.val() + one()))
}

/// Square-root gamma, then scaling into the display range.
pub open spec fn gamma(c: int) -> int {
    fx_mul(fx_sqrt(c), 255 * one())
}

/// The background seen along a ray that meets nothing: white blended toward sky blue
/// by `sky_t`, gamma corrected.
pub open spec fn background_of(ray: Ray) -> Rgb {
    let t = sky_t(ray);
    let lin = add_rgb(scale_rgb(white(), one() - t), scale_rgb(sky_blue(), t));
    rgb3(gamma(lin.r.val()), gamma(lin.g.val()), gamma(lin.b.val()))
}

/// The colour after one bounce's loss of energy.
pub open spec fn half(c: Rgb) -> Rgb {
    scale_rgb(c, one() / 2)
}

/// `c` halved `n` times.
pub open spec fn halve_n(c: Rgb, n: nat) -> Rgb
    decreases n,
{
    if n == 0 {
        c
    } else {
        halve_n(half(c), (n - 1) as nat)
    }
}

/// The parameter window `(min_t, 1024)`.
pub open spec fn window(min_t: Scalar) -> (Scalar, Scalar) {
    (min_t, Scalar { raw: WORLD_RAW })
}

/// The ray scattered from a hit: from the hit point along `normal + p`, which is
/// `(point + normal + p) - point`.
pub open spec fn scattered(hit: IntersectionResult, p: Vector) -> Ray {
    Ray { origin: hit.point, direction: add_spec(hit.normal, p) }
}

/// The colour a ray resolves to when the bounces use the points of `s` in turn: the
/// background where it meets nothing; at a hit, half the colour of the scattered ray,
/// or black once `s` is used up. A ray that leaves the working range is black.
pub open spec fn path(ray: Ray, objs: Seq<Object>, min_t: Scalar, s: Seq<Vector>) -> Rgb
    decreases s.len(),
{
    if !traceable(ray) {
        black()
    } else {
        match nearest_in(objs, ray, window(min_t)) {
            None => background_of(ray),
            Some(hit) => if s.len() == 0 {
                black()
            } else {
                half(path(scattered(hit, s[0]), objs, min_t, s.drop_first()))
            },
        }
    }
}

/// With no surfaces in the scene, a ray resolves to the background gradient, whatever
/// the bounce directions: no intersection branch is ever taken.
pub proof fn lemma_empty_scene_is_background(ray: Ray, min_t: Scalar, s: Seq<Vector>)
    requires
        traceable(ray),
    ensures
        path(ray, Seq::<Object>::empty(), min_t, s) == background_of(ray),
{
}

/// The points of `s` all lie in the unit ball.
pub open spec fn all_in_ball(s: Seq<Vector>) -> bool {
    forall|i: int| 0 <= i < s.len() ==> in_unit_ball(#[trigger] s[i])
}

/// The window of parameters is usable.
pub open spec fn min_t_ok(min_t: Scalar) -> bool {
    abs(min_t.val()) <= world()
}

/// Whether a ray can be traced.
pub fn is_traceable(ray: &Ray) -> (r: bool)
    ensures
        r == traceable(*ray),
{
    let o = ray.origin;
    let d = ray.direction;
    if !(in_world(o.x) && in_world(o.y) && in_world(o.z) && in_world(d.x) && in_world(d.y)
        && in_world(d.z)) {
        return false;
    }
    proof {
        lemma_dot_bound(d, d, world(), world());
    }
    d.dot(&d).raw > 0
}

/// `0 <= c <= 1` scales a non-negative number down.
pub proof fn lemma_fx_mul_unit(c: int, t: int)
    requires
        0 <= c <= one(),
        0 <= t,
    ensures
        0 <= fx_mul(c, t) <= t,
        0 <= fx_mul(t, c) <= t,
        fx_mul(c, t) == fx_mul(t, c),
{
    assert(0 <= c * t <= one() * t) by (nonlinear_arith)
        requires
            0 <= c <= one(),
            0 <= t,
    ;
    assert(c * t == t * c) by (nonlinear_arith);
    lemma_tdiv_abs(c * t, one());
    vstd::arithmetic::div_mod::lemma_div_is_ordered(c * t, one() * t, one());
    vstd::arithmetic::div_mod::lemma_div_multiples_vanish(t, one());
}

/// Gamma of a linear channel in `[0, 1]`.
fn gamma_channel(c: Scalar) -> (r: Scalar)
    requires
        0 <= c.val() <= one(),
    ensures
        r.val() == gamma(c.val()),
        0 <= r.val() <= 255 * one(),
{
    let s = c.sqrt();
    proof {
        assert(one() * one() == 0x1_0000_0000_0000_0000int);
        lemma_isqrt_is(one() * one(), one());
        lemma_isqrt_monotonic(c.val() * one(), one() * one());
        crate::camera::lemma_scale_exact(255, s.val());
        assert(s.val() * (255 * one()) == (255 * one()) * s.val()) by (nonlinear_arith);
    }
    s.mul(Scalar { raw: DISPLAY_MAX_RAW })
}

/// The background seen along `ray`.
pub fn background(ray: &Ray) -> (r: Rgb)
    requires
        traceable(*ray),
    ensures
        r == background_of(*ray),
        displayable(r),
{
    let d = ray.direction;
    proof {
        lemma_dot_bound(d, d, world(), world());
        let a = dot_spec(d, d);
        lemma_isqrt_is(one(), 65536);
        lemma_isqrt_monotonic(one(), a * one());
        let len = length_spec(d);
        assert(len >= 65536);
        lemma_fx_div_bound(d.x.val(), len, world(), 65536);
        lemma_fx_div_bound(d.y.val(), len, world(), 65536);
        lemma_fx_div_bound(d.z.val(), len, world(), 65536);
    }
    let unit = d.unit();
    let one_s = Scalar { raw: ONE_RAW };
    let lifted = unit.y.add(one_s);
    proof {
        lemma_fx_mul_bound(one() / 2, lifted.val(), one(), 0x800_0000_0000_0000);
    }
    let t0 = Scalar { raw: HALF_RAW }.mul(lifted);
    let t = if t0.raw < 0 {
        Scalar { raw: 0 }
    } else if t0.raw > ONE_RAW {
        one_s
    } else {
        t0
    };
    let rest = Scalar { raw: ONE_RAW - t.raw };
    proof {
        lemma_fx_mul_unit(one(), rest.val());
        lemma_fx_mul_unit(one() / 2, t.val());
        lemma_fx_mul_unit(3006477107, t.val());
        lemma_fx_mul_unit(one(), t.val());
        crate::camera::lemma_scale_exact(1, rest.val());
        crate::camera::lemma_scale_exact(1, t.val());
    }
    let white = Rgb { r: one_s, g: one_s, b: one_s };
    let sky = Rgb { r: Scalar { raw: HALF_RAW }, g: Scalar { raw: 3006477107 }, b: one_s };
    let lin = white.scale(rest).add(sky.scale(t));
    Rgb { r: gamma_channel(lin.r), g: gamma_channel(lin.g), b: gamma_channel(lin.b) }
}

/// Half of a displayable colour.
fn halve(c: Rgb) -> (r: Rgb)
    requires
        displayable(c),
    ensures
        r == half(c),
        displayable(r),
{
    proof {
        lemma_fx_mul_unit(one() / 2, c.r.val());
        lemma_fx_mul_unit(one() / 2, c.g.val());
        lemma_fx_mul_unit(one() / 2, c.b.val());
    }
    c.scale(Scalar { raw: HALF_RAW })
}

/// `c` halved `n` times.
fn halve_times(c: Rgb, n: usize) -> (r: Rgb)
    requires
        displayable(c),
    ensures
        r == halve_n(c, n as nat),
        displayable(r),
{
    let mut acc = c;
    let mut j: usize = 0;
    while j < n
        invariant
            j <= n,
            displayable(acc),
            halve_n(acc, (n - j) as nat) == halve_n(c, n as nat),
        decreases n - j,
    {
        acc = halve(acc);
        j = j + 1;
    }
    acc
}

/// The colour `ray` resolves to in `scene` when the bounces use the points of
/// `scatter` in turn, at most one bounce per point.
pub fn trace(ray: &Ray, scene: &Scene, min_t: Scalar, scatter: &Vec<Vector>) -> (r: Rgb)
    requires
        scene.wf(),
        min_t_ok(min_t),
        all_in_ball(scatter@),
    ensures
        r == path(*ray, scene.objects@, min_t, scatter@),
        displayable(r),
{
    let ghost objs = scene.objects@;
    let mut cur = *ray;
    let mut k: usize = 0;
    let mut color = Rgb { r: Scalar { raw: 0 }, g: Scalar { raw: 0 }, b: Scalar { raw: 0 } };
    proof {
        assert(scatter@.skip(0) =~= scatter@);
    }
    loop
        invariant_except_break
            k <= scatter@.len(),
            objs == scene.objects@,
            scene.wf(),
            min_t_ok(min_t),
            all_in_ball(scatter@),
            path(*ray, objs, min_t, scatter@) == halve_n(
                path(cur, objs, min_t, scatter@.skip(k as int)),
                k as nat,
            ),
        ensures
            displayable(color),
            path(*ray, objs, min_t, scatter@) == halve_n(color, k as nat),
        decreases scatter@.len() - k,
    {
        if !is_traceable(&cur) {
            color = Rgb { r: Scalar { raw: 0 }, g: Scalar { raw: 0 }, b: Scalar { raw: 0 } };
            break;
        }
        match scene.nearest_hit(&cur, (min_t, Scalar { raw: WORLD_RAW })) {
            None => {
                color = background(&cur);
                break;
            },
            Some(hit) => {
                if k == scatter.len() {
                    color = Rgb { r: Scalar { raw: 0 }, g: Scalar { raw: 0 }, b: Scalar { raw: 0 } };
                    break;
                }
                let p = scatter[k];
                proof {
                    assert(in_unit_ball(scatter@[k as int]));
                    let rest = scatter@.skip(k as int);
                    assert(rest[0] == p);
                    assert(rest.drop_first() =~= scatter@.skip(k + 1));
                }
                cur = Ray { origin: hit.point, direction: hit.normal.add(p) };
                k = k + 1;
            },
        }
    }
    halve_times(color, k)
}

/// The colour `ray` resolves to in `scene`, bouncing off surfaces in directions drawn
/// at random from the unit ball, for at most `max_depth` bounces.
pub fn raycast(ray: &Ray, scene: &Scene, min_t: Scalar, max_depth: u32) -> (r: Rgb)
    requires
        scene.wf(),
        min_t_ok(min_t),
    ensures
        exists|s: Seq<Vector>|
            s.len() <= max_depth && all_in_ball(s) && r == path(*ray, scene.objects@, min_t, s),
        displayable(r),
        scene.objects@.len() == 0 && traceable(*ray) ==> r == background_of(*ray),
{
    let ghost objs = scene.objects@;
    let ghost drawn: Seq<Vector> = Seq::empty();
    let mut cur = *ray;
    let mut k: u32 = 0;
    let mut color = Rgb { r: Scalar { raw: 0 }, g: Scalar { raw: 0 }, b: Scalar { raw: 0 } };
    proof {
        assert forall|x: Seq<Vector>| #[trigger]
            path(*ray, objs, min_t, drawn + x) == halve_n(path(cur, objs, min_t, x), 0) by {
            assert(drawn + x =~= x);
        }
    }
    loop
        invariant_except_break
            k <= max_depth,
            drawn.len() == k,
            scene.wf(),
            min_t_ok(min_t),
            all_in_ball(drawn),
            objs == scene.objects@,
            objs.len() == 0 ==> cur == *ray && k == 0,
            forall|x: Seq<Vector>| #[trigger]
                path(*ray, objs, min_t, drawn + x) == halve_n(path(cur, objs, min_t, x), k as nat),
        ensures
            drawn.len() == k <= max_depth,
            all_in_ball(drawn),
            displayable(color),
            path(*ray, objs, min_t, drawn) == halve_n(color, k as nat),
            objs.len() == 0 && traceable(*ray) ==> k == 0 && color == background_of(*ray),
        decreases max_depth - k,
    {
        proof {
            assert(drawn + Seq::<Vector>::empty() =~= drawn);
        }
        if !is_traceable(&cur) {
            color = Rgb { r: Scalar { raw: 0 }, g: Scalar { raw: 0 }, b: Scalar { raw: 0 } };
            break;
        }
        match scene.nearest_hit(&cur, (min_t, Scalar { raw: WORLD_RAW })) {
            None => {
                color = background(&cur);
                break;
            },
            Some(hit) => {
                if k == max_depth {
                    color = Rgb { r: Scalar { raw: 0 }, g: Scalar { raw: 0 }, b: Scalar { raw: 0 } };
                    break;
                }
                let p = Vector::random_unit();
                let next = Ray { origin: hit.point, direction: hit.normal.add(p) };
                proof {
                    assert forall|x: Seq<Vector>| #[trigger]
                        path(*ray, objs, min_t, drawn.push(p) + x) == halve_n(
                            path(next, objs, min_t, x),
                            (k + 1) as nat,
                        ) by {
                        let px = seq![p] + x;
                        assert(drawn.push(p) + x =~= drawn + px);
                        assert(px.drop_first() =~= x);
                        assert(px[0] == p);
                        assert(path(*ray, objs, min_t, drawn + px) == halve_n(
                            path(cur, objs, min_t, px),
                            k as nat,
                        ));
                    }
                    drawn = drawn.push(p);
                }
                cur = next;
                k = k + 1;
            },
        }
    }
    proof {
        assert(drawn + Seq::<Vector>::empty() =~= drawn);
    }
    halve_times(color, k as usize)
}

} // verus!
