//! RGB radiance values over fixed-point scalars.
//!
//! A color is either a transmissive multiplier or an emissive additive
//! term, depending on where it is used; it has no alpha channel.

use vstd::prelude::*;
use crate::fixed::{fmul, FX_MUL_MAX, fx_mul};

verus! {

#[derive(Clone, Copy, Debug, PartialEq, Eq, Structural)]
pub struct Color3f {
    pub r: i64,
    pub g: i64,
    pub b: i64,
}

/// The mathematical view of a color: its channels as unbounded integers.
pub open spec fn c3(c: Color3f) -> (int, int, int) {
    (c.r as int, c.g as int, c.b as int)
}

pub open spec fn cadd(a: (int, int, int), b: (int, int, int)) -> (int, int, int) {
    (a.0 + b.0, a.1 + b.1, a.2 + b.2)
}

/// Component-wise fixed-point product, as used to filter light through a
/// transmissive surface.
pub open spec fn cmul(a: (int, int, int), b: (int, int, int)) -> (int, int, int) {
    (fmul(a.0, b.0), fmul(a.1, b.1), fmul(a.2, b.2))
}

pub open spec fn csmul(a: (int, int, int), s: int) -> (int, int, int) {
    (fmul(a.0, s), fmul(a.1, s), fmul(a.2, s))
}

/// The greatest of the three channels, as the executable code picks it.
pub open spec fn cmax(a: (int, int, int)) -> int {
    if a.0 > a.1 {
        if a.0 > a.2 { a.0 } else { a.2 }
    } else {
        if a.1 > a.2 { a.1 } else { a.2 }
    }
}

/// Addition that sticks at the integer ceiling instead of wrapping; the
/// photon buffer accumulates with this, so summing radiance over
/// arbitrarily many frames stays defined.
pub open spec fn sat_add(a: int, b: int) -> int {
    if a + b > i64::MAX as int {
        i64::MAX as int
    } else if a + b < i64::MIN as int {
        i64::MIN as int
    } else {
        a + b
    }
}

pub open spec fn csat_add(a: (int, int, int), b: (int, int, int)) -> (int, int, int) {
    (sat_add(a.0, b.0), sat_add(a.1, b.1), sat_add(a.2, b.2))
}

pub open spec fn cbounded(a: (int, int, int), m: int) -> bool {
    &&& -m <= a.0 <= m
    &&& -m <= a.1 <= m
    &&& -m <= a.2 <= m
}

/// Saturating addition on a single channel.
pub fn sat_add_i64(a: i64, b: i64) -> (r: i64)
    ensures
        r as int == sat_add(a as int, b as int),
{
    if b >= 0 {
        if a > i64::MAX - b {
            i64::MAX
        } else {
            a + b
        }
    } else {
        if a < i64::MIN - b {
            i64::MIN
        } else {
            a + b
        }
    }
}

impl Color3f {
    pub fn black() -> (r: Color3f)
        ensures
            c3(r) == (0int, 0int, 0int),
    {
        Color3f { r: 0, g: 0, b: 0 }
    }

    pub fn smul(self, num: i64) -> (r: Color3f)
        requires
            cbounded(c3(self), FX_MUL_MAX as int),
            -FX_MUL_MAX <= num <= FX_MUL_MAX,
        ensures
            c3(r) == csmul(c3(self), num as int),
    {
        Color3f { r: fx_mul(self.r, num), g: fx_mul(self.g, num), b: fx_mul(self.b, num) }
    }

    pub fn max_channel(&self) -> (r: i64)
        ensures
            r as int == cmax(c3(*self)),
    {
        if self.r > self.g {
            if self.r > self.b { self.r } else { self.b }
        } else {
            if self.g > self.b { self.g } else { self.b }
        }
    }

    pub fn add(self, other: Color3f) -> (r: Color3f)
        requires
            cbounded(c3(self), 0x3FFF_FFFF_FFFF_FFFF),
            cbounded(c3(other), 0x3FFF_FFFF_FFFF_FFFF),
        ensures
            c3(r) == cadd(c3(self), c3(other)),
    {
        Color3f { r: self.r + other.r, g: self.g + other.g, b: self.b + other.b }
    }

    pub fn add_assign(&mut self, rhs: Color3f)
        requires
            cbounded(c3(*old(self)), 0x3FFF_FFFF_FFFF_FFFF),
            cbounded(c3(rhs), 0x3FFF_FFFF_FFFF_FFFF),
        ensures
            c3(*final(self)) == cadd(c3(*old(self)), c3(rhs)),
    {
        self.r = self.r + rhs.r;
        self.g = self.g + rhs.g;
        self.b = self.b + rhs.b;
    }

    /// Component-wise product, filtering one color through another.
    pub fn mul(self, other: Color3f) -> (r: Color3f)
        requires
            cbounded(c3(self), FX_MUL_MAX as int),
            cbounded(c3(other), FX_MUL_MAX as int),
        ensures
            c3(r) == cmul(c3(self), c3(other)),
    {
        Color3f { r: fx_mul(self.r, other.r), g: fx_mul(self.g, other.g), b: fx_mul(self.b, other.b) }
    }

    /// Saturating component-wise sum, for the photon buffer accumulator.
    pub fn sat_add_c(self, other: Color3f) -> (r: Color3f)
        ensures
            c3(r) == csat_add(c3(self), c3(other)),
    {
        Color3f {
            r: sat_add_i64(self.r, other.r),
            g: sat_add_i64(self.g, other.g),
            b: sat_add_i64(self.b, other.b),
        }
    }
}

impl Default for Color3f {
    fn default() -> (r: Color3f)
        ensures
            c3(r) == (0int, 0int, 0int),
    {
        Color3f { r: 0, g: 0, b: 0 }
    }
}

} // verus!
