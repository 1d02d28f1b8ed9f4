//! The camera: a fixed eye and a fixed viewport rectangle in front of it.
use crate::ray::{traceable, Ray};
use crate::scalar::{fx_mul, one, Scalar, ONE_RAW};
use crate::vector::{add_spec, dot_spec, scale_spec, vec3, Vector};
use vstd::prelude::*;

verus! {

pub struct Camera {
    pub origin: Vector,
    pub viewport_origin: Vector,
    pub viewport_height: Vector,
    pub viewport_width: Vector,
}

/// The eye at the origin, looking down `-z` through a 4 by 2 viewport whose lower-left
/// corner is `(-2, -1, -1)`.
pub open spec fn standard_camera() -> Camera {
    Camera {
        origin: vec3(0, 0, 0),
        viewport_origin: vec3(-2 * one(), -one(), -one()),
        viewport_height: vec3(0, 2 * one(), 0),
        viewport_width: vec3(4 * one(), 0, 0),
    }
}

/// The ray from the eye through the viewport point `(u, v)`:
/// `lower-left + u * width + v * height`.
pub open spec fn camera_ray(c: Camera, u: int, v: int) -> Ray {
    Ray {
        origin: c.origin,
        direction: add_spec(
            add_spec(c.viewport_origin, scale_spec(c.viewport_width, u)),
            scale_spec(c.viewport_height, v),
        ),
    }
}

/// A raw number of the unit interval `[0, 1]`.
pub open spec fn in_unit_interval(u: int) -> bool {
    0 <= u <= one()
}

impl Camera {
    /// The camera is the standard one, the only one whose rays are proved traceable.
    pub open spec fn wf(&self) -> bool {
        self.origin == standard_camera().origin && self.viewport_origin
            == standard_camera().viewport_origin && self.viewport_height
            == standard_camera().viewport_height && self.viewport_width
            == standard_camera().viewport_width
    }

    pub fn new() -> (r: Camera)
        ensures
            r.wf(),
    {
        let zero = Scalar { raw: 0 };
        Camera {
            origin: Vector { x: zero, y: zero, z: zero },
            viewport_origin: Vector {
                x: Scalar { raw: -2 * ONE_RAW },
                y: Scalar { raw: -ONE_RAW },
                z: Scalar { raw: -ONE_RAW },
            },
            viewport_height: Vector { x: zero, y: Scalar { raw: 2 * ONE_RAW }, z: zero },
            viewport_width: Vector { x: Scalar { raw: 4 * ONE_RAW }, y: zero, z: zero },
        }
    }

    /// The ray through the point `(u, v)` of the viewport, both in `[0, 1]`.
    pub fn ray(&self, u: Scalar, v: Scalar) -> (r: Ray)
        requires
            self.wf(),
            in_unit_interval(u.val()),
            in_unit_interval(v.val()),
        ensures
            r == camera_ray(*self, u.val(), v.val()),
            traceable(r),
    {
        proof {
            lemma_scale_exact(4, u.val());
            lemma_scale_exact(2, v.val());
            lemma_scale_exact(0, u.val());
            lemma_scale_exact(0, v.val());
            lemma_scale_exact(-1, -one());
        }
        let across = self.viewport_width.scale(u);
        let up = self.viewport_height.scale(v);
        let direction = self.viewport_origin.add(across).add(up);
        proof {
            assert(fx_mul(-one(), -one()) == one());
            crate::vector::lemma_square_rounds_nonneg(direction.x.val());
            crate::vector::lemma_square_rounds_nonneg(direction.y.val());
            assert(dot_spec(direction, direction) > 0);
        }
        Ray { origin: self.origin, direction }
    }
}

/// Multiplying by a whole number loses nothing.
pub proof fn lemma_scale_exact(k: int, u: int)
    ensures
        fx_mul(k * one(), u) == k * u,
{
    assert((k * one()) * u == (k * u) * one()) by (nonlinear_arith);
    vstd::arithmetic::div_mod::lemma_div_multiples_vanish(k * u, one());
    vstd::arithmetic::div_mod::lemma_div_multiples_vanish(-(k * u), one());
}

} // verus!
