//! Three-component vectors of fixed-point numbers.
use crate::scalar::{
    abs, fits, fx_div, fx_mul, fx_mul_wide, fx_sqrt, lemma_fx_mul_bound, one, Scalar, ONE_RAW,
};
use vstd::prelude::*;

verus! {

/// How many candidates `Vector::random_unit` draws before it settles for the centre.
pub const MAX_DRAWS: u32 = 64;

#[derive(Clone, Copy, PartialEq, Eq, Debug, Structural)]
pub struct Vector {
    pub x: Scalar,
    pub y: Scalar,
    pub z: Scalar,
}

/// The dot product of two vectors, each term rounded toward zero.
pub open spec fn dot_spec(a: Vector, b: Vector) -> int {
    fx_mul(a.x.val(), b.x.val()) + fx_mul(a.y.val(), b.y.val()) + fx_mul(a.z.val(), b.z.val())
}

/// Every component of `v` lies within `m` of zero (raw values).
pub open spec fn bounded(v: Vector, m: int) -> bool {
    abs(v.x.val()) <= m && abs(v.y.val()) <= m && abs(v.z.val()) <= m
}

/// `v` lies strictly inside the unit ball.
pub open spec fn in_unit_ball(v: Vector) -> bool {
    bounded(v, one()) && dot_spec(v, v) < one()
}

/// The vector with the given raw components.
pub open spec fn vec3(x: int, y: int, z: int) -> Vector {
    Vector { x: Scalar { raw: x as i64 }, y: Scalar { raw: y as i64 }, z: Scalar { raw: z as i64 } }
}

/// `v` is `(x, y, z)` in raw values.
pub open spec fn is_vec3(v: Vector, x: int, y: int, z: int) -> bool {
    v.x.val() == x && v.y.val() == y && v.z.val() == z
}

/// The raw length of `v`, rounded down.
pub open spec fn length_spec(v: Vector) -> int {
    fx_sqrt(dot_spec(v, v))
}

/// The component-wise sum.
pub open spec fn add_spec(a: Vector, b: Vector) -> Vector {
    vec3(a.x.val() + b.x.val(), a.y.val() + b.y.val(), a.z.val() + b.z.val())
}

/// The component-wise difference.
pub open spec fn sub_spec(a: Vector, b: Vector) -> Vector {
    vec3(a.x.val() - b.x.val(), a.y.val() - b.y.val(), a.z.val() - b.z.val())
}

/// `a` times the number `s`.
pub open spec fn scale_spec(a: Vector, s: int) -> Vector {
    vec3(fx_mul(a.x.val(), s), fx_mul(a.y.val(), s), fx_mul(a.z.val(), s))
}

/// `a` divided by the number `s`.
pub open spec fn div_scalar_spec(a: Vector, s: int) -> Vector {
    vec3(fx_div(a.x.val(), s), fx_div(a.y.val(), s), fx_div(a.z.val(), s))
}

/// The unit vector along `a`.
pub open spec fn unit_spec(a: Vector) -> Vector {
    div_scalar_spec(a, length_spec(a))
}

/// The components of the cross product, each rounded term by term.
pub open spec fn cross_spec(a: Vector, b: Vector) -> Vector {
    vec3(
        fx_mul(a.y.val(), b.z.val()) - fx_mul(a.z.val(), b.y.val()),
        fx_mul(a.z.val(), b.x.val()) - fx_mul(a.x.val(), b.z.val()),
        fx_mul(a.x.val(), b.y.val()) - fx_mul(a.y.val(), b.x.val()),
    )
}

/// The point of the cube `[-1, 1)^3` that three 32-bit draws stand for: each draw
/// `d` is the fraction `d / 2^32` of `[0, 1)`, mapped to `2 * fraction - 1`.
pub open spec fn cube_point(a: u32, b: u32, c: u32) -> Vector {
    vec3(2 * a - one(), 2 * b - one(), 2 * c - one())
}

pub open spec fn fits_vec3(x: int, y: int, z: int) -> bool {
    fits(x) && fits(y) && fits(z)
}

impl Vector {
    pub fn new(x: Scalar, y: Scalar, z: Scalar) -> (r: Vector)
        ensures
            r == (Vector { x, y, z }),
    {
        Vector { x, y, z }
    }

    pub fn add(self, o: Vector) -> (r: Vector)
        requires
            fits_vec3(self.x.val() + o.x.val(), self.y.val() + o.y.val(), self.z.val() + o.z.val()),
        ensures
            r == add_spec(self, o),
    {
        Vector { x: self.x.add(o.x), y: self.y.add(o.y), z: self.z.add(o.z) }
    }

    /// Adds the number `s` to every component.
    pub fn add_scalar(self, s: Scalar) -> (r: Vector)
        requires
            fits_vec3(self.x.val() + s.val(), self.y.val() + s.val(), self.z.val() + s.val()),
        ensures
            is_vec3(r, self.x.val() + s.val(), self.y.val() + s.val(), self.z.val() + s.val()),
    {
        Vector { x: self.x.add(s), y: self.y.add(s), z: self.z.add(s) }
    }

    pub fn sub(self, o: Vector) -> (r: Vector)
        requires
            fits_vec3(self.x.val() - o.x.val(), self.y.val() - o.y.val(), self.z.val() - o.z.val()),
        ensures
            r == sub_spec(self, o),
    {
        Vector { x: self.x.sub(o.x), y: self.y.sub(o.y), z: self.z.sub(o.z) }
    }

    /// The component-wise product.
    pub fn mul(self, o: Vector) -> (r: Vector)
        requires
            fits_vec3(
                fx_mul(self.x.val(), o.x.val()),
                fx_mul(self.y.val(), o.y.val()),
                fx_mul(self.z.val(), o.z.val()),
            ),
        ensures
            is_vec3(
                r,
                fx_mul(self.x.val(), o.x.val()),
                fx_mul(self.y.val(), o.y.val()),
                fx_mul(self.z.val(), o.z.val()),
            ),
    {
        Vector { x: self.x.mul(o.x), y: self.y.mul(o.y), z: self.z.mul(o.z) }
    }

    /// Every component times the number `s`.
    pub fn scale(self, s: Scalar) -> (r: Vector)
        requires
            fits_vec3(
                fx_mul(self.x.val(), s.val()),
                fx_mul(self.y.val(), s.val()),
                fx_mul(self.z.val(), s.val()),
            ),
        ensures
            r == scale_spec(self, s.val()),
    {
        Vector { x: self.x.mul(s), y: self.y.mul(s), z: self.z.mul(s) }
    }

    /// The component-wise quotient.
    pub fn div(self, o: Vector) -> (r: Vector)
        requires
            o.x.val() != 0,
            o.y.val() != 0,
            o.z.val() != 0,
            fits_vec3(
                fx_div(self.x.val(), o.x.val()),
                fx_div(self.y.val(), o.y.val()),
                fx_div(self.z.val(), o.z.val()),
            ),
        ensures
            is_vec3(
                r,
                fx_div(self.x.val(), o.x.val()),
                fx_div(self.y.val(), o.y.val()),
                fx_div(self.z.val(), o.z.val()),
            ),
    {
        Vector { x: self.x.div(o.x), y: self.y.div(o.y), z: self.z.div(o.z) }
    }

    /// Every component divided by the number `s`.
    pub fn div_scalar(self, s: Scalar) -> (r: Vector)
        requires
            s.val() != 0,
            fits_vec3(
                fx_div(self.x.val(), s.val()),
                fx_div(self.y.val(), s.val()),
                fx_div(self.z.val(), s.val()),
            ),
        ensures
            r == div_scalar_spec(self, s.val()),
    {
        Vector { x: self.x.div(s), y: self.y.div(s), z: self.z.div(s) }
    }

    pub fn dot(&self, o: &Vector) -> (r: Scalar)
        requires
            fits(dot_spec(*self, *o)),
        ensures
            r.val() == dot_spec(*self, *o),
    {
        let t: i128 = fx_mul_wide(self.x.raw, o.x.raw) + fx_mul_wide(self.y.raw, o.y.raw)
            + fx_mul_wide(self.z.raw, o.z.raw);
        Scalar { raw: t as i64 }
    }

    pub fn cross(&self, o: &Vector) -> (r: Vector)
        requires
            fits_vec3(
                fx_mul(self.y.val(), o.z.val()) - fx_mul(self.z.val(), o.y.val()),
                fx_mul(self.z.val(), o.x.val()) - fx_mul(self.x.val(), o.z.val()),
                fx_mul(self.x.val(), o.y.val()) - fx_mul(self.y.val(), o.x.val()),
            ),
        ensures
            r == cross_spec(*self, *o),
    {
        let x: i128 = fx_mul_wide(self.y.raw, o.z.raw) - fx_mul_wide(self.z.raw, o.y.raw);
        let y: i128 = fx_mul_wide(self.z.raw, o.x.raw) - fx_mul_wide(self.x.raw, o.z.raw);
        let z: i128 = fx_mul_wide(self.x.raw, o.y.raw) - fx_mul_wide(self.y.raw, o.x.raw);
        Vector {
            x: Scalar { raw: x as i64 },
            y: Scalar { raw: y as i64 },
            z: Scalar { raw: z as i64 },
        }
    }

    pub fn squared_length(&self) -> (r: Scalar)
        requires
            fits(dot_spec(*self, *self)),
        ensures
            r.val() == dot_spec(*self, *self),
            r.val() >= 0,
    {
        proof {
            lemma_dot_self_nonneg(*self);
        }
        self.dot(self)
    }

    pub fn length(&self) -> (r: Scalar)
        requires
            fits(dot_spec(*self, *self)),
        ensures
            r.val() == length_spec(*self),
            r.val() >= 0,
    {
        self.squared_length().sqrt()
    }

    /// The unit vector along `self`: each component divided by the length.
    pub fn unit(&self) -> (r: Vector)
        requires
            fits(dot_spec(*self, *self)),
            length_spec(*self) > 0,
            fits_vec3(
                fx_div(self.x.val(), length_spec(*self)),
                fx_div(self.y.val(), length_spec(*self)),
                fx_div(self.z.val(), length_spec(*self)),
            ),
        ensures
            r == unit_spec(*self),
    {
        let len = self.length();
        self.div_scalar(len)
    }
}

impl Vector {
    /// The point of the cube `[-1, 1)^3` that three 32-bit draws stand for.
    pub fn from_draws(a: u32, b: u32, c: u32) -> (r: Vector)
        ensures
            r == cube_point(a, b, c),
            bounded(r, one()),
    {
        Vector {
            x: Scalar { raw: 2 * (a as i64) - ONE_RAW },
            y: Scalar { raw: 2 * (b as i64) - ONE_RAW },
            z: Scalar { raw: 2 * (c as i64) - ONE_RAW },
        }
    }

    /// A random point strictly inside the unit ball, by rejection sampling from the
    /// cube `[-1, 1)^3`. Each candidate is kept with probability above one half; after
    /// `MAX_DRAWS` rejections in a row (odds below 2^-64) the centre is returned.
    pub fn random_unit() -> (r: Vector)
        ensures
            in_unit_ball(r),
    {
        let mut n: u32 = 0;
        while n < MAX_DRAWS
            invariant
                n <= MAX_DRAWS,
            decreases MAX_DRAWS - n,
        {
            let v = Vector::from_draws(rand::random::<u32>(), rand::random::<u32>(), rand::random::<u32>());
            proof {
                lemma_fx_mul_bound(v.x.val(), v.x.val(), one(), one());
                lemma_fx_mul_bound(v.y.val(), v.y.val(), one(), one());
                lemma_fx_mul_bound(v.z.val(), v.z.val(), one(), one());
            }
            let d = v.squared_length();
            if d.raw < ONE_RAW {
                return v;
            }
            n = n + 1;
        }
        let zero = Scalar { raw: 0 };
        proof {
            assert(fx_mul(0, 0) == 0);
        }
        Vector { x: zero, y: zero, z: zero }
    }
}

/// A squared length is never negative.
pub proof fn lemma_dot_self_nonneg(v: Vector)
    ensures
        dot_spec(v, v) >= 0,
{
    lemma_square_rounds_nonneg(v.x.val());
    lemma_square_rounds_nonneg(v.y.val());
    lemma_square_rounds_nonneg(v.z.val());
}

pub proof fn lemma_square_rounds_nonneg(a: int)
    ensures
        fx_mul(a, a) >= 0,
{
    assert(a * a >= 0) by (nonlinear_arith);
    crate::scalar::lemma_tdiv_abs(a * a, one());
}

} // verus!
