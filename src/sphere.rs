//! Spheres and where rays meet them.
use crate::ray::{
    hit_in_range, lemma_point_at_fits, point_at_spec, traceable, world, IntersectionResult, Ray,
    RayIntersect, WORLD_RAW,
};
use crate::scalar::{
    abs, fx_mul, isqrt, isqrt_u128, lemma_fx_div_bound, lemma_fx_mul_bound,
    lemma_isqrt_is, one, tdiv, wide_mul, Scalar,
};
use crate::vector::{bounded, div_scalar_spec, dot_spec, sub_spec, Vector};
use vstd::prelude::*;

verus! {

/// The smallest radius accepted: 1/256 in raw form.
pub const MIN_RADIUS_RAW: i64 = 16777216;

pub open spec fn min_radius() -> int {
    16777216
}

#[derive(Clone, Copy, PartialEq, Eq, Debug, Structural)]
pub struct Sphere {
    pub center: Vector,
    pub radius: Scalar,
}

/// Why a scene element was refused.
#[derive(Clone, Copy, PartialEq, Eq, Debug, Structural)]
pub enum SceneError {
    /// The radius is zero or negative.
    DegenerateSphere,
    /// A coordinate or the radius lies outside the working range, or the radius is
    /// below the smallest one supported.
    OutOfRange,
    /// A scene description names a kind of surface that is not supported.
    UnsupportedKind,
}

/// The quadratic `a t^2 + 2 b t + c = 0` whose roots are where `ray` meets `s`, with
/// `a = D.D`, `b = (O - C).D`, `c = (O - C).(O - C) - r^2`.
pub open spec fn quad_a(ray: Ray) -> int {
    dot_spec(ray.direction, ray.direction)
}

pub open spec fn quad_b(s: Sphere, ray: Ray) -> int {
    dot_spec(sub_spec(ray.origin, s.center), ray.direction)
}

pub open spec fn quad_c(s: Sphere, ray: Ray) -> int {
    let oc = sub_spec(ray.origin, s.center);
    dot_spec(oc, oc) - fx_mul(s.radius.val(), s.radius.val())
}

/// The discriminant `b^2 - a c`, exact (its raw scale is 2^64).
pub open spec fn discriminant(s: Sphere, ray: Ray) -> int {
    quad_b(s, ray) * quad_b(s, ray) - quad_a(ray) * quad_c(s, ray)
}

/// The smaller root `(-b - sqrt d) / a`.
pub open spec fn near_root(s: Sphere, ray: Ray) -> int {
    tdiv((-quad_b(s, ray) - isqrt(discriminant(s, ray))) * one(), quad_a(ray))
}

/// The larger root `(-b + sqrt d) / a`.
pub open spec fn far_root(s: Sphere, ray: Ray) -> int {
    tdiv((-quad_b(s, ray) + isqrt(discriminant(s, ray))) * one(), quad_a(ray))
}

/// The hit at parameter `t`: the point on the ray and `(point - center) / radius`.
pub open spec fn hit_at(s: Sphere, ray: Ray, t: int) -> IntersectionResult {
    let p = point_at_spec(ray, t);
    IntersectionResult {
        t: Scalar { raw: t as i64 },
        point: p,
        normal: div_scalar_spec(sub_spec(p, s.center), s.radius.val()),
    }
}

/// The first root strictly inside `(tmin, tmax)`, smaller root first; none where the
/// discriminant is negative or both roots lie outside.
pub open spec fn sphere_hit(s: Sphere, ray: Ray, tmin: int, tmax: int) -> Option<IntersectionResult> {
    if discriminant(s, ray) < 0 {
        None
    } else if tmin < near_root(s, ray) < tmax {
        Some(hit_at(s, ray, near_root(s, ray)))
    } else if tmin < far_root(s, ray) < tmax {
        Some(hit_at(s, ray, far_root(s, ray)))
    } else {
        None
    }
}

impl Sphere {
    /// Center and radius within the working range, the radius at least `MIN_RADIUS_RAW`.
    pub open spec fn wf(&self) -> bool {
        bounded(self.center, world()) && min_radius() <= self.radius.val() <= world()
    }

    /// A sphere; refused where the radius is not positive, or the sphere lies outside the
    /// working range.
    pub fn new(center: Vector, radius: Scalar) -> (r: Result<Sphere, SceneError>)
        ensures
            radius.val() <= 0 ==> r == Err::<Sphere, SceneError>(SceneError::DegenerateSphere),
            radius.val() > 0 && !(Sphere { center, radius }).wf() ==> r == Err::<
                Sphere,
                SceneError,
            >(SceneError::OutOfRange),
            (Sphere { center, radius }).wf() ==> r == Ok::<Sphere, SceneError>(
                Sphere { center, radius },
            ),
    {
        if radius.raw <= 0 {
            return Err(SceneError::DegenerateSphere);
        }
        let s = Sphere { center, radius };
        if !s.is_valid() {
            return Err(SceneError::OutOfRange);
        }
        Ok(s)
    }

    /// Whether the sphere lies within the working range.
    pub fn is_valid(&self) -> (r: bool)
        ensures
            r == self.wf(),
    {
        in_world(self.center.x) && in_world(self.center.y) && in_world(self.center.z)
            && self.radius.raw >= MIN_RADIUS_RAW && self.radius.raw <= WORLD_RAW
    }
}

/// Whether `s` lies within the working range.
pub fn in_world(s: Scalar) -> (r: bool)
    ensures
        r == (abs(s.val()) <= world()),
{
    -WORLD_RAW <= s.raw && s.raw <= WORLD_RAW
}

/// A bound on a dot product from bounds on the components.
pub proof fn lemma_dot_bound(u: Vector, v: Vector, mu: int, mv: int)
    requires
        bounded(u, mu),
        bounded(v, mv),
    ensures
        abs(dot_spec(u, v)) <= 3 * ((mu * mv) / one()),
{
    lemma_fx_mul_bound(u.x.val(), v.x.val(), mu, mv);
    lemma_fx_mul_bound(u.y.val(), v.y.val(), mu, mv);
    lemma_fx_mul_bound(u.z.val(), v.z.val(), mu, mv);
}

/// The exact (unrounded) dot product of two vectors; its raw scale is 2^64.
pub open spec fn exact_dot(u: Vector, v: Vector) -> int {
    u.x.val() * v.x.val() + u.y.val() * v.y.val() + u.z.val() * v.z.val()
}

/// `D.D`, `(O - C).D` and `(O - C).(O - C) - r^2`, exact.
pub open spec fn exact_a(ray: Ray) -> int {
    exact_dot(ray.direction, ray.direction)
}

pub open spec fn exact_b(s: Sphere, ray: Ray) -> int {
    exact_dot(sub_spec(ray.origin, s.center), ray.direction)
}

pub open spec fn exact_c(s: Sphere, ray: Ray) -> int {
    let oc = sub_spec(ray.origin, s.center);
    exact_dot(oc, oc) - s.radius.val() * s.radius.val()
}

/// The line of `ray` passes `s` at a distance greater than the radius, by more than the
/// rounding of the three dot products can hide: `|D|^2 (|O - C|^2 - r^2) - ((O - C).D)^2`,
/// which is `|D|^4` times the squared distance less the squared radius, exceeds the slack.
pub open spec fn clear_miss(s: Sphere, ray: Ray) -> bool {
    let a = exact_a(ray);
    let b = exact_b(s, ray);
    let c = exact_c(s, ray);
    a * c - b * b > one() * (6 * abs(b) + 3 * a + 3 * abs(c) + 18 * one())
}

/// Rounding a product toward zero loses less than one unit, on the side of zero.
proof fn lemma_round_error(p: int)
    ensures
        p >= 0 ==> 0 <= p - tdiv(p, one()) * one() < one(),
        p < 0 ==> -one() < p - tdiv(p, one()) * one() <= 0,
{
    if p >= 0 {
        vstd::arithmetic::div_mod::lemma_fundamental_div_mod(p, one());
    } else {
        vstd::arithmetic::div_mod::lemma_fundamental_div_mod(-p, one());
    }
}

proof fn lemma_square_error(x: int)
    ensures
        0 <= x * x - fx_mul(x, x) * one() < one(),
{
    assert(x * x >= 0) by (nonlinear_arith);
    lemma_round_error(x * x);
}

proof fn lemma_product_error(x: int, y: int)
    ensures
        -one() < x * y - fx_mul(x, y) * one() < one(),
{
    lemma_round_error(x * y);
}

/// A ray whose line clearly misses a sphere has no hit with it, whatever the window.
pub proof fn lemma_clear_miss_has_no_hit(s: Sphere, ray: Ray, tmin: int, tmax: int)
    requires
        s.wf(),
        traceable(ray),
        clear_miss(s, ray),
    ensures
        sphere_hit(s, ray, tmin, tmax) is None,
{
    let q = one();
    let d = ray.direction;
    let oc = sub_spec(ray.origin, s.center);
    let r = s.radius.val();
    lemma_square_error(d.x.val());
    lemma_square_error(d.y.val());
    lemma_square_error(d.z.val());
    lemma_product_error(oc.x.val(), d.x.val());
    lemma_product_error(oc.y.val(), d.y.val());
    lemma_product_error(oc.z.val(), d.z.val());
    lemma_square_error(oc.x.val());
    lemma_square_error(oc.y.val());
    lemma_square_error(oc.z.val());
    lemma_square_error(r);
    let a = quad_a(ray);
    let b = quad_b(s, ray);
    let c = quad_c(s, ray);
    let ea = exact_a(ray) - a * q;
    let eb = exact_b(s, ray) - b * q;
    let ec = exact_c(s, ray) - c * q;
    assert(0 <= ea < 3 * q);
    assert(-3 * q < eb < 3 * q);
    assert(-q < ec < 3 * q);
    let aa = exact_a(ray);
    let bb = exact_b(s, ray);
    let cc = exact_c(s, ray);
    assert(aa >= 0) by (nonlinear_arith)
        requires
            aa == d.x.val() * d.x.val() + d.y.val() * d.y.val() + d.z.val() * d.z.val(),
    ;
    assert((b * q) * (b * q) - (a * q) * (c * q) == q * q * discriminant(s, ray)) by (
    nonlinear_arith)
        requires
            discriminant(s, ray) == b * b - a * c,
    ;
    assert((bb - eb) * (bb - eb) <= bb * bb + 6 * q * abs(bb) + 9 * q * q) by (nonlinear_arith)
        requires
            -3 * q < eb < 3 * q,
            q > 0,
    ;
    assert((aa - ea) * (cc - ec) >= aa * cc - 3 * q * aa - 3 * q * abs(cc) - 9 * q * q) by (
    nonlinear_arith)
        requires
            0 <= ea < 3 * q,
            -q < ec < 3 * q,
            aa >= 0,
            q > 0,
    ;
    let x = b * q;
    let y = a * q;
    let z = c * q;
    assert(x * x == (bb - eb) * (bb - eb)) by (nonlinear_arith)
        requires
            x == bb - eb,
    ;
    assert(y * z == (aa - ea) * (cc - ec)) by (nonlinear_arith)
        requires
            y == aa - ea,
            z == cc - ec,
    ;
    assert(q * q * discriminant(s, ray) < 0);
    assert(discriminant(s, ray) < 0) by (nonlinear_arith)
        requires
            q * q * discriminant(s, ray) < 0,
    ;
}

impl RayIntersect for Sphere {
    open spec fn shape_ok(&self) -> bool {
        self.wf()
    }

    open spec fn hit_spec(&self, ray: Ray, bounds: (Scalar, Scalar)) -> Option<IntersectionResult> {
        sphere_hit(*self, ray, bounds.0.val(), bounds.1.val())
    }

    fn intersects(&self, ray: &Ray, bounds: (Scalar, Scalar)) -> (r: Option<IntersectionResult>) {
        let oc = ray.origin.sub(self.center);
        proof {
            lemma_dot_bound(ray.direction, ray.direction, world(), world());
            lemma_dot_bound(oc, ray.direction, 2 * world(), world());
            lemma_dot_bound(oc, oc, 2 * world(), 2 * world());
            lemma_fx_mul_bound(self.radius.val(), self.radius.val(), world(), world());
        }
        let a = ray.direction.dot(&ray.direction);
        let b = oc.dot(&ray.direction);
        let c = oc.dot(&oc).sub(self.radius.mul(self.radius));
        proof {
            assert(abs(a.val()) <= 0x40_0000_0000_0000);
            assert(abs(b.val()) <= 0x80_0000_0000_0000);
            assert(abs(c.val()) <= 0x200_0000_0000_0000);
            assert(abs(b.val() * b.val()) <= 0x4000_0000_0000_0000_0000_0000_0000) by (
            nonlinear_arith)
                requires
                    abs(b.val()) <= 0x80_0000_0000_0000,
            ;
            assert(abs(a.val() * c.val()) <= 0x8000_0000_0000_0000_0000_0000_0000) by (
            nonlinear_arith)
                requires
                    abs(a.val()) <= 0x40_0000_0000_0000,
                    abs(c.val()) <= 0x200_0000_0000_0000,
            ;
        }
        let d: i128 = wide_mul(b.raw, b.raw) - wide_mul(a.raw, c.raw);
        if d < 0 {
            return None;
        }
        let sq: u128 = isqrt_u128(d as u128);
        proof {
            lemma_isqrt_is(d as int, sq as int);
            assert(sq <= 0x100_0000_0000_0000) by (nonlinear_arith)
                requires
                    sq * sq <= d,
                    d <= 0x1_0000_0000_0000_0000_0000_0000_0000,
            ;
        }
        let sq: i128 = sq as i128;
        let (tmin, tmax) = bounds;
        let t: i128 = ((-(b.raw as i128) - sq) * 4294967296i128) / (a.raw as i128);
        if (tmin.raw as i128) < t && t < (tmax.raw as i128) {
            return Some(self.hit_at(ray, Scalar { raw: t as i64 }));
        }
        let t: i128 = ((-(b.raw as i128) + sq) * 4294967296i128) / (a.raw as i128);
        if (tmin.raw as i128) < t && t < (tmax.raw as i128) {
            return Some(self.hit_at(ray, Scalar { raw: t as i64 }));
        }
        None
    }
}

impl Sphere {
    /// The hit at parameter `t` of a ray within the working range.
    fn hit_at(&self, ray: &Ray, t: Scalar) -> (r: IntersectionResult)
        requires
            self.wf(),
            traceable(*ray),
            abs(t.val()) <= world(),
        ensures
            r == hit_at(*self, *ray, t.val()),
            hit_in_range(r),
    {
        proof {
            lemma_point_at_fits(*ray, t.val());
        }
        let point = ray.point_at(t);
        let rel = point.sub(self.center);
        proof {
            let m = 0x20_0000_0000_0000int;
            assert(bounded(rel, m));
            lemma_fx_div_bound(rel.x.val(), self.radius.val(), m, min_radius());
            lemma_fx_div_bound(rel.y.val(), self.radius.val(), m, min_radius());
            lemma_fx_div_bound(rel.z.val(), self.radius.val(), m, min_radius());
        }
        let normal = rel.div_scalar(self.radius);
        IntersectionResult { t, point, normal }
    }
}

} // verus!
