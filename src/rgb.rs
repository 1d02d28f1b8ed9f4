//! Colours: three fixed-point channels, unclamped while light is being summed.
use crate::scalar::{fits, fx_div, fx_mul, Scalar};
use vstd::prelude::*;

verus! {

#[derive(Clone, Copy, PartialEq, Eq, Debug, Structural)]
pub struct Rgb {
    pub r: Scalar,
    pub g: Scalar,
    pub b: Scalar,
}

/// The colour with the given raw channels.
pub open spec fn rgb3(r: int, g: int, b: int) -> Rgb {
    Rgb { r: Scalar { raw: r as i64 }, g: Scalar { raw: g as i64 }, b: Scalar { raw: b as i64 } }
}

/// `c` is `(r, g, b)` in raw values.
pub open spec fn is_rgb3(c: Rgb, r: int, g: int, b: int) -> bool {
    c.r.val() == r && c.g.val() == g && c.b.val() == b
}

pub open spec fn fits_rgb3(r: int, g: int, b: int) -> bool {
    fits(r) && fits(g) && fits(b)
}

/// The channel-wise sum.
pub open spec fn add_rgb(a: Rgb, b: Rgb) -> Rgb {
    rgb3(a.r.val() + b.r.val(), a.g.val() + b.g.val(), a.b.val() + b.b.val())
}

/// The channel-wise difference.
pub open spec fn sub_rgb(a: Rgb, b: Rgb) -> Rgb {
    rgb3(a.r.val() - b.r.val(), a.g.val() - b.g.val(), a.b.val() - b.b.val())
}

/// `a` times the number `s`.
pub open spec fn scale_rgb(a: Rgb, s: int) -> Rgb {
    rgb3(fx_mul(a.r.val(), s), fx_mul(a.g.val(), s), fx_mul(a.b.val(), s))
}

/// `a` divided by the number `s`.
pub open spec fn div_scalar_rgb(a: Rgb, s: int) -> Rgb {
    rgb3(fx_div(a.r.val(), s), fx_div(a.g.val(), s), fx_div(a.b.val(), s))
}

impl Rgb {
    pub fn new(r: Scalar, g: Scalar, b: Scalar) -> (res: Rgb)
        ensures
            res == (Rgb { r, g, b }),
    {
        Rgb { r, g, b }
    }

    pub fn add(self, o: Rgb) -> (res: Rgb)
        requires
            fits_rgb3(self.r.val() + o.r.val(), self.g.val() + o.g.val(), self.b.val() + o.b.val()),
        ensures
            res == add_rgb(self, o),
    {
        Rgb { r: self.r.add(o.r), g: self.g.add(o.g), b: self.b.add(o.b) }
    }

    /// Adds the number `s` to every channel.
    pub fn add_scalar(self, s: Scalar) -> (res: Rgb)
        requires
            fits_rgb3(self.r.val() + s.val(), self.g.val() + s.val(), self.b.val() + s.val()),
        ensures
            is_rgb3(res, self.r.val() + s.val(), self.g.val() + s.val(), self.b.val() + s.val()),
    {
        Rgb { r: self.r.add(s), g: self.g.add(s), b: self.b.add(s) }
    }

    pub fn sub(self, o: Rgb) -> (res: Rgb)
        requires
            fits_rgb3(self.r.val() - o.r.val(), self.g.val() - o.g.val(), self.b.val() - o.b.val()),
        ensures
            res == sub_rgb(self, o),
    {
        Rgb { r: self.r.sub(o.r), g: self.g.sub(o.g), b: self.b.sub(o.b) }
    }

    /// The channel-wise product.
    pub fn mul(self, o: Rgb) -> (res: Rgb)
        requires
            fits_rgb3(
                fx_mul(self.r.val(), o.r.val()),
                fx_mul(self.g.val(), o.g.val()),
                fx_mul(self.b.val(), o.b.val()),
            ),
        ensures
            is_rgb3(
                res,
                fx_mul(self.r.val(), o.r.val()),
                fx_mul(self.g.val(), o.g.val()),
                fx_mul(self.b.val(), o.b.val()),
            ),
    {
        Rgb { r: self.r.mul(o.r), g: self.g.mul(o.g), b: self.b.mul(o.b) }
    }

    /// Every channel times the number `s`.
    pub fn scale(self, s: Scalar) -> (res: Rgb)
        requires
            fits_rgb3(
                fx_mul(self.r.val(), s.val()),
                fx_mul(self.g.val(), s.val()),
                fx_mul(self.b.val(), s.val()),
            ),
        ensures
            res == scale_rgb(self, s.val()),
    {
        Rgb { r: self.r.mul(s), g: self.g.mul(s), b: self.b.mul(s) }
    }

    /// The channel-wise quotient.
    pub fn div(self, o: Rgb) -> (res: Rgb)
        requires
            o.r.val() != 0,
            o.g.val() != 0,
            o.b.val() != 0,
            fits_rgb3(
                fx_div(self.r.val(), o.r.val()),
                fx_div(self.g.val(), o.g.val()),
                fx_div(self.b.val(), o.b.val()),
            ),
        ensures
            is_rgb3(
                res,
                fx_div(self.r.val(), o.r.val()),
                fx_div(self.g.val(), o.g.val()),
                fx_div(self.b.val(), o.b.val()),
            ),
    {
        Rgb { r: self.r.div(o.r), g: self.g.div(o.g), b: self.b.div(o.b) }
    }

    /// Every channel divided by the number `s`.
    pub fn div_scalar(self, s: Scalar) -> (res: Rgb)
        requires
            s.val() != 0,
            fits_rgb3(
                fx_div(self.r.val(), s.val()),
                fx_div(self.g.val(), s.val()),
                fx_div(self.b.val(), s.val()),
            ),
        ensures
            res == div_scalar_rgb(self, s.val()),
    {
        Rgb { r: self.r.div(s), g: self.g.div(s), b: self.b.div(s) }
    }
}

} // verus!
