//! Rays, intersection results, and the capability of being hit by a ray.
use crate::scalar::{abs, fx_mul, lemma_fx_mul_bound, Scalar};
use crate::vector::{add_spec, bounded, dot_spec, fits_vec3, scale_spec, Vector};
use vstd::prelude::*;

verus! {

/// The working range of positions, directions and ray parameters: 1024 in raw form.
/// Geometry beyond it is outside what the fixed-point format is proved for.
pub const WORLD_RAW: i64 = 4398046511104;

pub open spec fn world() -> int {
    4398046511104
}

#[derive(Clone, Copy, PartialEq, Eq, Debug, Structural)]
pub struct Ray {
    pub origin: Vector,
    pub direction: Vector,
}

/// Where a ray meets a surface: the ray parameter, the point, and the outward unit normal.
#[derive(Clone, Copy, PartialEq, Eq, Debug, Structural)]
pub struct IntersectionResult {
    pub t: Scalar,
    pub point: Vector,
    pub normal: Vector,
}

/// A ray that the intersection code can take: origin and direction within the working
/// range, and a direction whose squared length does not round to zero.
pub open spec fn traceable(ray: Ray) -> bool {
    bounded(ray.origin, world()) && bounded(ray.direction, world()) && dot_spec(
        ray.direction,
        ray.direction,
    ) > 0
}

/// An open interval of ray parameters `(bounds.0, bounds.1)` within the working range.
pub open spec fn window_ok(bounds: (Scalar, Scalar)) -> bool {
    abs(bounds.0.val()) <= world() && abs(bounds.1.val()) <= world()
}

/// `origin + direction * t`.
pub open spec fn point_at_spec(ray: Ray, t: int) -> Vector {
    add_spec(ray.origin, scale_spec(ray.direction, t))
}

/// A hit whose normal can be added to a point of the unit ball without overflow.
pub open spec fn hit_in_range(h: IntersectionResult) -> bool {
    bounded(h.normal, 0x2000_0000_0000_0000)
}

/// A surface that can report where a ray meets it.
pub trait RayIntersect {
    /// The surface is within the range the intersection code is proved for.
    spec fn shape_ok(&self) -> bool;

    /// The hit that `intersects` reports for `ray` within `bounds`.
    spec fn hit_spec(&self, ray: Ray, bounds: (Scalar, Scalar)) -> Option<IntersectionResult>;

    /// The nearest hit of `ray` with a parameter strictly inside `bounds`, if any.
    fn intersects(&self, ray: &Ray, bounds: (Scalar, Scalar)) -> (r: Option<IntersectionResult>)
        requires
            self.shape_ok(),
            traceable(*ray),
            window_ok(bounds),
        ensures
            r == self.hit_spec(*ray, bounds),
            r is Some ==> hit_in_range(r->Some_0),
    ;
}

impl Ray {
    pub fn new(origin: Vector, direction: Vector) -> (r: Ray)
        ensures
            r == (Ray { origin, direction }),
    {
        Ray { origin, direction }
    }

    /// The point `origin + direction * t`.
    pub fn point_at(&self, t: Scalar) -> (r: Vector)
        requires
            fits_vec3(
                fx_mul(self.direction.x.val(), t.val()),
                fx_mul(self.direction.y.val(), t.val()),
                fx_mul(self.direction.z.val(), t.val()),
            ),
            fits_vec3(
                self.origin.x.val() + fx_mul(self.direction.x.val(), t.val()),
                self.origin.y.val() + fx_mul(self.direction.y.val(), t.val()),
                self.origin.z.val() + fx_mul(self.direction.z.val(), t.val()),
            ),
        ensures
            r == point_at_spec(*self, t.val()),
    {
        self.origin.add(self.direction.scale(t))
    }

    /// Where this ray meets `obj` with a parameter strictly inside `bounds`.
    pub fn intersects<T: RayIntersect>(&self, obj: &T, bounds: (Scalar, Scalar)) -> (r: Option<
        IntersectionResult,
    >)
        requires
            obj.shape_ok(),
            traceable(*self),
            window_ok(bounds),
        ensures
            r == obj.hit_spec(*self, bounds),
            r is Some ==> hit_in_range(r->Some_0),
    {
        obj.intersects(self, bounds)
    }
}

/// Within the working range, a point on a ray with a parameter in the window fits.
pub proof fn lemma_point_at_fits(ray: Ray, t: int)
    requires
        bounded(ray.origin, world()),
        bounded(ray.direction, world()),
        abs(t) <= world(),
    ensures
        bounded(scale_spec(ray.direction, t), 0x10_0000_0000_0000),
        bounded(point_at_spec(ray, t), 0x10_0400_0000_0000),
        fits_vec3(
            fx_mul(ray.direction.x.val(), t),
            fx_mul(ray.direction.y.val(), t),
            fx_mul(ray.direction.z.val(), t),
        ),
{
    lemma_fx_mul_bound(ray.direction.x.val(), t, world(), world());
    lemma_fx_mul_bound(ray.direction.y.val(), t, world(), world());
    lemma_fx_mul_bound(ray.direction.z.val(), t, world(), world());
}

} // verus!
