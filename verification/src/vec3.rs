//! 3-component vectors over fixed-point scalars.
//!
//! The specification-level model of a vector is a triple of unbounded
//! integers; every executable operation states exactly which triple it
//! returns. Products and the dot product rescale by `FX_ONE` with
//! truncation toward zero, mirroring the fixed-point scalar layer.

use vstd::prelude::*;
use vstd::arithmetic::div_mod::*;
use crate::fixed::{
    tdiv, fmul, fdiv, fsqrt, FX_ONE, FX_COORD_MAX, FX_MUL_MAX,
    FX_VEC_MAX, fx_mul, fx_div, fx_sqrt, tdiv_i128,
    lemma_tdiv_bound, lemma_tdiv_mul_exact, lemma_sqrt_floor_bounds, lemma_fmul_bound,
};

verus! {

#[derive(Clone, Copy, Debug, PartialEq, Eq, Structural)]
pub struct Vec3 {
    pub x: i64,
    pub y: i64,
    pub z: i64,
}

/// The mathematical view of a vector: its coordinates as unbounded integers.
pub open spec fn v3(v: Vec3) -> (int, int, int) {
    (v.x as int, v.y as int, v.z as int)
}

pub open spec fn vadd(a: (int, int, int), b: (int, int, int)) -> (int, int, int) {
    (a.0 + b.0, a.1 + b.1, a.2 + b.2)
}

pub open spec fn vsub(a: (int, int, int), b: (int, int, int)) -> (int, int, int) {
    (a.0 - b.0, a.1 - b.1, a.2 - b.2)
}

pub open spec fn vneg(a: (int, int, int)) -> (int, int, int) {
    (-a.0, -a.1, -a.2)
}

/// Fixed-point dot product: the raw product sum rescaled down by one unit.
pub open spec fn vdot(a: (int, int, int), b: (int, int, int)) -> int {
    tdiv(a.0 * b.0 + a.1 * b.1 + a.2 * b.2, FX_ONE as int)
}

/// Fixed-point cross product, rescaled componentwise.
pub open spec fn vcross(a: (int, int, int), b: (int, int, int)) -> (int, int, int) {
    (fmul(a.1, b.2) - fmul(a.2, b.1),
     fmul(a.2, b.0) - fmul(a.0, b.2),
     fmul(a.0, b.1) - fmul(a.1, b.0))
}

/// Fixed-point scaling of every component by the scalar `s`.
pub open spec fn vsmul(a: (int, int, int), s: int) -> (int, int, int) {
    (fmul(a.0, s), fmul(a.1, s), fmul(a.2, s))
}

/// The fixed-point length: square root of the fixed-point self dot product.
pub open spec fn vlen(a: (int, int, int)) -> int {
    fsqrt(vdot(a, a))
}

/// The normalization the executable `normal` computes: scale by the
/// fixed-point reciprocal of the length.
pub open spec fn vnormal(a: (int, int, int)) -> (int, int, int) {
    vsmul(a, fdiv(FX_ONE as int, vlen(a)))
}

/// Coordinate bound shared by scene geometry and ray origins.
pub open spec fn vbounded(a: (int, int, int), m: int) -> bool {
    &&& -m <= a.0 <= m
    &&& -m <= a.1 <= m
    &&& -m <= a.2 <= m
}

/// The raw (unrescaled) dot product.
pub open spec fn vdot_raw(a: (int, int, int), b: (int, int, int)) -> int {
    a.0 * b.0 + a.1 * b.1 + a.2 * b.2
}

/// Every component scaled by the same integer, without rescaling.
pub open spec fn vscale(a: (int, int, int), s: int) -> (int, int, int) {
    (a.0 * s, a.1 * s, a.2 * s)
}

/// Reflection about a normal over the exact integer model: deferring the
/// normalizations scales the result by the normal's raw squared length
/// instead of dividing, so every term stays exact.
pub open spec fn reflect_exact(d: (int, int, int), n: (int, int, int)) -> (int, int, int) {
    vsub(vscale(d, vdot_raw(n, n)), vscale(n, 2 * vdot_raw(d, n)))
}

/// Law: reflecting a direction about a normal twice returns the original
/// direction. In the exact model the double reflection reproduces the
/// direction scaled by the square of the normal's raw squared length,
/// which is exactly the factor the two deferred normalizations divide
/// away; the executable mirror bounce computes this formula up to
/// fixed-point rescaling.
pub proof fn lemma_reflect_involution(d: (int, int, int), n: (int, int, int))
    ensures
        reflect_exact(reflect_exact(d, n), n)
            == vscale(d, vdot_raw(n, n) * vdot_raw(n, n)),
{
    let s = vdot_raw(n, n);
    let t = vdot_raw(d, n);
    let r1 = reflect_exact(d, n);
    assert(r1.0 * n.0 == d.0 * n.0 * s - 2 * t * (n.0 * n.0)) by (nonlinear_arith)
        requires r1.0 == d.0 * s - n.0 * (2 * t);
    assert(r1.1 * n.1 == d.1 * n.1 * s - 2 * t * (n.1 * n.1)) by (nonlinear_arith)
        requires r1.1 == d.1 * s - n.1 * (2 * t);
    assert(r1.2 * n.2 == d.2 * n.2 * s - 2 * t * (n.2 * n.2)) by (nonlinear_arith)
        requires r1.2 == d.2 * s - n.2 * (2 * t);
    assert(d.0 * n.0 * s + d.1 * n.1 * s + d.2 * n.2 * s == t * s) by (nonlinear_arith)
        requires t == d.0 * n.0 + d.1 * n.1 + d.2 * n.2;
    assert(2 * t * (n.0 * n.0) + 2 * t * (n.1 * n.1) + 2 * t * (n.2 * n.2) == 2 * (t * s))
        by (nonlinear_arith)
        requires s == n.0 * n.0 + n.1 * n.1 + n.2 * n.2;
    assert(vdot_raw(r1, n) == t * s - 2 * (t * s));
    assert(t * s == s * t) by (nonlinear_arith);
    assert(vdot_raw(r1, n) == -(s * t));
    let r2 = reflect_exact(r1, n);
    assert(r2.0 == d.0 * (s * s)) by (nonlinear_arith)
        requires
            r1.0 == d.0 * s - n.0 * (2 * t),
            r2.0 == r1.0 * s - n.0 * (2 * (-(s * t)));
    assert(r2.1 == d.1 * (s * s)) by (nonlinear_arith)
        requires
            r1.1 == d.1 * s - n.1 * (2 * t),
            r2.1 == r1.1 * s - n.1 * (2 * (-(s * t)));
    assert(r2.2 == d.2 * (s * s)) by (nonlinear_arith)
        requires
            r1.2 == d.2 * s - n.2 * (2 * t),
            r2.2 == r1.2 * s - n.2 * (2 * (-(s * t)));
}

/// Negating the left argument negates a dot product.
pub proof fn lemma_vdot_neg_left(a: (int, int, int), b: (int, int, int))
    ensures
        vdot(vneg(a), b) == -vdot(a, b),
{
    assert((-a.0) * b.0 == -(a.0 * b.0)) by (nonlinear_arith);
    assert((-a.1) * b.1 == -(a.1 * b.1)) by (nonlinear_arith);
    assert((-a.2) * b.2 == -(a.2 * b.2)) by (nonlinear_arith);
    crate::fixed::lemma_tdiv_neg(a.0 * b.0 + a.1 * b.1 + a.2 * b.2, FX_ONE as int);
}

/// Normalizing commutes with negation.
pub proof fn lemma_vnormal_neg(a: (int, int, int))
    ensures
        vnormal(vneg(a)) == vneg(vnormal(a)),
{
    lemma_vdot_neg(a);
    let recip = fdiv(FX_ONE as int, vlen(a));
    assert((-a.0) * recip == -(a.0 * recip)) by (nonlinear_arith);
    assert((-a.1) * recip == -(a.1 * recip)) by (nonlinear_arith);
    assert((-a.2) * recip == -(a.2 * recip)) by (nonlinear_arith);
    crate::fixed::lemma_tdiv_neg(a.0 * recip, FX_ONE as int);
    crate::fixed::lemma_tdiv_neg(a.1 * recip, FX_ONE as int);
    crate::fixed::lemma_tdiv_neg(a.2 * recip, FX_ONE as int);
}

/// Negating a vector leaves its self dot product unchanged.
pub proof fn lemma_vdot_neg(a: (int, int, int))
    ensures
        vdot(vneg(a), vneg(a)) == vdot(a, a),
{
    assert((-a.0) * (-a.0) == a.0 * a.0) by (nonlinear_arith);
    assert((-a.1) * (-a.1) == a.1 * a.1) by (nonlinear_arith);
    assert((-a.2) * (-a.2) == a.2 * a.2) by (nonlinear_arith);
}

/// The fixed-point self dot product is nonnegative.
pub proof fn lemma_vdot_self_nonneg(a: (int, int, int))
    ensures
        0 <= a.0 * a.0 + a.1 * a.1 + a.2 * a.2,
        0 <= vdot(a, a),
{
    assert(0 <= a.0 * a.0 && 0 <= a.1 * a.1 && 0 <= a.2 * a.2) by (nonlinear_arith);
    lemma_tdiv_bound(a.0 * a.0 + a.1 * a.1 + a.2 * a.2, FX_ONE as int,
        a.0 * a.0 + a.1 * a.1 + a.2 * a.2);
}

/// Raw product sum of two coordinate-bounded vectors, with its bound.
proof fn lemma_vdot_raw_bound(a: (int, int, int), b: (int, int, int), m: int, n: int)
    requires
        0 <= m,
        0 <= n,
        vbounded(a, m),
        vbounded(b, n),
    ensures
        -3 * (m * n) <= a.0 * b.0 + a.1 * b.1 + a.2 * b.2 <= 3 * (m * n),
        -(m * n) <= a.0 * b.0 <= m * n,
        -(m * n) <= a.1 * b.1 <= m * n,
        -(m * n) <= a.2 * b.2 <= m * n,
{
    assert(-(m * n) <= a.0 * b.0 <= m * n) by (nonlinear_arith)
        requires -m <= a.0 <= m, -n <= b.0 <= n, 0 <= m, 0 <= n;
    assert(-(m * n) <= a.1 * b.1 <= m * n) by (nonlinear_arith)
        requires -m <= a.1 <= m, -n <= b.1 <= n, 0 <= m, 0 <= n;
    assert(-(m * n) <= a.2 * b.2 <= m * n) by (nonlinear_arith)
        requires -m <= a.2 <= m, -n <= b.2 <= n, 0 <= m, 0 <= n;
}

/// Coarse bound on a dot product of componentwise-bounded vectors.
pub proof fn lemma_vdot_bound(a: (int, int, int), b: (int, int, int), m: int, n: int)
    requires
        0 <= m,
        0 <= n,
        vbounded(a, m),
        vbounded(b, n),
    ensures
        -3 * (m * n) <= vdot(a, b) <= 3 * (m * n),
        -tdiv(3 * (m * n), FX_ONE as int) <= vdot(a, b) <= tdiv(3 * (m * n), FX_ONE as int),
{
    lemma_vdot_raw_bound(a, b, m, n);
    lemma_tdiv_bound(a.0 * b.0 + a.1 * b.1 + a.2 * b.2, FX_ONE as int, 3 * (m * n));
}

/// Componentwise bound on a cross product of bounded vectors.
pub proof fn lemma_vcross_bound(a: (int, int, int), b: (int, int, int), m: int, n: int)
    requires
        0 <= m,
        0 <= n,
        vbounded(a, m),
        vbounded(b, n),
    ensures
        vbounded(vcross(a, b), 2 * tdiv(m * n, FX_ONE as int)),
{
    lemma_fmul_bound(a.1, b.2, m, n);
    lemma_fmul_bound(a.2, b.1, m, n);
    lemma_fmul_bound(a.2, b.0, m, n);
    lemma_fmul_bound(a.0, b.2, m, n);
    lemma_fmul_bound(a.0, b.1, m, n);
    lemma_fmul_bound(a.1, b.0, m, n);
}

/// Componentwise bound on a scaled bounded vector.
pub proof fn lemma_vsmul_bound(a: (int, int, int), s: int, m: int, n: int)
    requires
        0 <= m,
        0 <= n,
        vbounded(a, m),
        -n <= s <= n,
    ensures
        vbounded(vsmul(a, s), tdiv(m * n, FX_ONE as int)),
{
    lemma_fmul_bound(a.0, s, m, n);
    lemma_fmul_bound(a.1, s, m, n);
    lemma_fmul_bound(a.2, s, m, n);
}

impl Vec3 {
    /// Every coordinate within the global coordinate bound.
    pub open spec fn wf(self) -> bool {
        vbounded(v3(self), FX_COORD_MAX as int)
    }

    pub fn neg(self) -> (r: Vec3)
        requires
            vbounded(v3(self), 0x7FFF_FFFF_FFFF_FFFF),
        ensures
            v3(r) == vneg(v3(self)),
    {
        Vec3 { x: -self.x, y: -self.y, z: -self.z }
    }

    pub fn add(self, other: Vec3) -> (r: Vec3)
        requires
            vbounded(v3(self), 0x3FFF_FFFF_FFFF_FFFF),
            vbounded(v3(other), 0x3FFF_FFFF_FFFF_FFFF),
        ensures
            v3(r) == vadd(v3(self), v3(other)),
    {
        Vec3 { x: self.x + other.x, y: self.y + other.y, z: self.z + other.z }
    }

    pub fn sub(self, other: Vec3) -> (r: Vec3)
        requires
            vbounded(v3(self), 0x3FFF_FFFF_FFFF_FFFF),
            vbounded(v3(other), 0x3FFF_FFFF_FFFF_FFFF),
        ensures
            v3(r) == vsub(v3(self), v3(other)),
    {
        Vec3 { x: self.x - other.x, y: self.y - other.y, z: self.z - other.z }
    }

    pub fn dot(&self, other: &Vec3) -> (r: i64)
        requires
            vbounded(v3(*self), FX_VEC_MAX as int),
            vbounded(v3(*other), FX_VEC_MAX as int),
        ensures
            r as int == vdot(v3(*self), v3(*other)),
    {
        proof {
            lemma_vdot_raw_bound(v3(*self), v3(*other), FX_VEC_MAX as int,
                FX_VEC_MAX as int);
        }
        let p: i128 = (self.x as i128) * (other.x as i128)
            + (self.y as i128) * (other.y as i128)
            + (self.z as i128) * (other.z as i128);
        proof {
            lemma_tdiv_bound(p as int, FX_ONE as int,
                3 * ((FX_VEC_MAX as int) * (FX_VEC_MAX as int)));
            assert(tdiv(3 * ((FX_VEC_MAX as int) * (FX_VEC_MAX as int)), FX_ONE as int)
                == 0x3000_0000_0000_0000int) by {
                assert(3 * ((FX_VEC_MAX as int) * (FX_VEC_MAX as int))
                    == 0x3000_0000_0000_0000int * 65536) by (nonlinear_arith)
                    requires FX_VEC_MAX == 0x40_0000_0000i64;
                lemma_tdiv_mul_exact(0x3000_0000_0000_0000int, 65536);
            };
        }
        let q: i128 = tdiv_i128(p, FX_ONE as i128);
        q as i64
    }

    pub fn cross(&self, other: &Vec3) -> (r: Vec3)
        requires
            vbounded(v3(*self), FX_VEC_MAX as int),
            vbounded(v3(*other), FX_VEC_MAX as int),
        ensures
            v3(r) == vcross(v3(*self), v3(*other)),
    {
        proof {
            let m = FX_VEC_MAX as int;
            let a = v3(*self);
            let b = v3(*other);
            lemma_fmul_bound(a.1, b.2, m, m);
            lemma_fmul_bound(a.2, b.1, m, m);
            lemma_fmul_bound(a.2, b.0, m, m);
            lemma_fmul_bound(a.0, b.2, m, m);
            lemma_fmul_bound(a.0, b.1, m, m);
            lemma_fmul_bound(a.1, b.0, m, m);
            assert(tdiv(m * m, FX_ONE as int) == 0x1000_0000_0000_0000int) by {
                assert(m * m == 0x1000_0000_0000_0000int * 65536) by (nonlinear_arith)
                    requires m == 0x40_0000_0000i64;
                lemma_tdiv_mul_exact(0x1000_0000_0000_0000int, 65536);
            };
        }
        Vec3 {
            x: fx_mul(self.y, other.z) - fx_mul(self.z, other.y),
            y: fx_mul(self.z, other.x) - fx_mul(self.x, other.z),
            z: fx_mul(self.x, other.y) - fx_mul(self.y, other.x),
        }
    }

    pub fn smul(&self, s: i64) -> (r: Vec3)
        requires
            vbounded(v3(*self), FX_VEC_MAX as int),
            -FX_VEC_MAX <= s <= FX_VEC_MAX,
        ensures
            v3(r) == vsmul(v3(*self), s as int),
    {
        Vec3 { x: fx_mul(self.x, s), y: fx_mul(self.y, s), z: fx_mul(self.z, s) }
    }

    pub fn length(&self) -> (r: i64)
        requires
            vbounded(v3(*self), FX_VEC_MAX as int),
        ensures
            r as int == vlen(v3(*self)),
            0 <= r,
    {
        proof {
            lemma_vdot_self_nonneg(v3(*self));
        }
        let d: i64 = self.dot(self);
        fx_sqrt(d)
    }

    /// The unit vector along `self`: scale by the fixed-point
    /// reciprocal of the length. The precondition keeps the
    /// length positive, so the reciprocal is defined; vectors shorter than
    /// a sixteenth of a whole unit are excluded, which also keeps every
    /// coordinate of the result within two whole units.
    pub fn normal(&self) -> (r: Vec3)
        requires
            vbounded(v3(*self), FX_VEC_MAX as int),
            vdot(v3(*self), v3(*self)) >= 16,
        ensures
            v3(r) == vnormal(v3(*self)),
            vbounded(v3(r), 2 * (FX_ONE as int)),
    {
        proof {
            lemma_vdot_self_nonneg(v3(*self));
        }
        let len: i64 = self.length();
        proof {
            let a = v3(*self);
            let d = vdot(a, a);
            lemma_sqrt_floor_bounds(d * (FX_ONE as int));
            // d >= 16 gives d * FX_ONE >= 1024 * 1024, hence len >= 1024
            assert(d * (FX_ONE as int) >= 1024 * 1024) by (nonlinear_arith)
                requires d >= 16;
            assert(len as int >= 1024) by (nonlinear_arith)
                requires
                    len as int >= 0,
                    len as int * (len as int) <= d * (FX_ONE as int),
                    d * (FX_ONE as int) >= 1024 * 1024,
                    (d * (FX_ONE as int)) < ((len as int) + 1) * ((len as int) + 1);
        }
        let recip: i64 = fx_div(FX_ONE, len);
        proof {
            lemma_recip_bound(vdot(v3(*self), v3(*self)), len as int);
            lemma_normal_component_bound(v3(*self), len as int, recip as int);
        }
        self.smul(recip)
    }
}

/// With a length of at least 1024 fixed-point units, the reciprocal of the
/// length stays within the multiplication bound.
proof fn lemma_recip_bound(d: int, len: int)
    requires
        len >= 1024,
        len == fsqrt(d),
    ensures
        0 <= fdiv(FX_ONE as int, len) <= 4 * (FX_ONE as int) * (FX_ONE as int),
        fdiv(FX_ONE as int, len) <= FX_MUL_MAX as int,
{
    lemma_tdiv_bound((FX_ONE as int) * (FX_ONE as int), len,
        (FX_ONE as int) * (FX_ONE as int));
}

/// Each coordinate of the normalized vector stays within two whole units:
/// a coordinate is no longer than the vector, and the reciprocal of the
/// length scales the vector down to unit size.
proof fn lemma_normal_component_bound(a: (int, int, int), len: int, recip: int)
    requires
        len >= 1024,
        len == fsqrt(vdot(a, a)),
        recip == fdiv(FX_ONE as int, len),
    ensures
        vbounded(vsmul(a, recip), 2 * (FX_ONE as int)),
{
    let d = vdot(a, a);
    let s = FX_ONE as int;
    let raw = a.0 * a.0 + a.1 * a.1 + a.2 * a.2;
    lemma_vdot_self_nonneg(a);
    assert(a.0 * a.0 <= raw && a.1 * a.1 <= raw && a.2 * a.2 <= raw) by (nonlinear_arith)
        requires raw == a.0 * a.0 + a.1 * a.1 + a.2 * a.2;
    // raw < (d + 1) * s, from the division identity
    lemma_fundamental_div_mod(raw, s);
    lemma_mod_division_less_than_divisor(raw, s);
    assert(raw < (d + 1) * s) by (nonlinear_arith)
        requires
            raw == s * (raw / s) + raw % s,
            raw % s < s,
            s > 0,
            d == raw / s;
    lemma_sqrt_floor_bounds(d * s);
    // each |coordinate| < len + 1 + 256
    lemma_coord_le_len(a.0, raw, d, s, len);
    lemma_coord_le_len(a.1, raw, d, s, len);
    lemma_coord_le_len(a.2, raw, d, s, len);
    // recip * len <= s * s, from the division identity
    lemma_tdiv_bound(s * s, len, s * s);
    lemma_fundamental_div_mod(s * s, len);
    lemma_mod_division_less_than_divisor(s * s, len);
    assert(recip * len <= s * s) by (nonlinear_arith)
        requires
            s * s == len * ((s * s) / len) + (s * s) % len,
            (s * s) % len >= 0,
            recip == (s * s) / len;
    lemma_smul_unit_bound(a.0, len, recip, s);
    lemma_smul_unit_bound(a.1, len, recip, s);
    lemma_smul_unit_bound(a.2, len, recip, s);
}

/// A coordinate of a vector is bounded by the vector's fixed-point length,
/// up to the square-root truncation slack.
proof fn lemma_coord_le_len(x: int, raw: int, d: int, s: int, len: int)
    requires
        s == FX_ONE as int,
        x * x <= raw,
        raw < (d + 1) * s,
        0 <= d,
        len * len <= d * s,
        d * s < (len + 1) * (len + 1),
        len >= 1024,
    ensures
        -(len + 257) <= x <= len + 257,
{
    assert(x * x < (len + 257) * (len + 257)) by (nonlinear_arith)
        requires
            x * x <= raw,
            raw < (d + 1) * s,
            d * s < (len + 1) * (len + 1),
            s == 65536,
            len >= 1024,
            0 <= d;
    assert(-(len + 257) <= x <= len + 257) by (nonlinear_arith)
        requires x * x < (len + 257) * (len + 257), len >= 1024;
}

/// Scaling a coordinate bounded by roughly the length, by roughly the
/// reciprocal of the length, lands within two whole units.
proof fn lemma_smul_unit_bound(x: int, len: int, recip: int, s: int)
    requires
        s == FX_ONE as int,
        len >= 1024,
        -(len + 257) <= x <= len + 257,
        0 <= recip,
        recip * len <= s * s,
    ensures
        -(2 * s) <= fmul(x, recip) <= 2 * s,
{
    assert(-(2 * s) * s <= x * recip <= (2 * s) * s) by (nonlinear_arith)
        requires
            s == 65536,
            len >= 1024,
            -(len + 257) <= x <= len + 257,
            0 <= recip,
            recip * len <= s * s;
    lemma_tdiv_bound(x * recip, s, 2 * s * s);
    lemma_tdiv_mul_exact(2 * s, s);
}

impl Default for Vec3 {
    fn default() -> (r: Vec3)
        ensures
            v3(r) == (0int, 0int, 0int),
    {
        Vec3 { x: 0, y: 0, z: 0 }
    }
}

/// The fixed-point dot product over wide intermediates, for the
/// intersection engine, whose vectors outgrow `i64` midway.
pub fn dot_wide(a: (i128, i128, i128), b: (i128, i128, i128)) -> (r: i128)
    requires
        -0x1000_0000_0000_0000 <= a.0 <= 0x1000_0000_0000_0000,
        -0x1000_0000_0000_0000 <= a.1 <= 0x1000_0000_0000_0000,
        -0x1000_0000_0000_0000 <= a.2 <= 0x1000_0000_0000_0000,
        -0x1000_0000_0000_0000 <= b.0 <= 0x1000_0000_0000_0000,
        -0x1000_0000_0000_0000 <= b.1 <= 0x1000_0000_0000_0000,
        -0x1000_0000_0000_0000 <= b.2 <= 0x1000_0000_0000_0000,
    ensures
        r as int == vdot((a.0 as int, a.1 as int, a.2 as int),
            (b.0 as int, b.1 as int, b.2 as int)),
        -0x1000_0000_0000_0000_0000_0000_0000_0000i128 <= r
            <= 0x1000_0000_0000_0000_0000_0000_0000_0000i128,
{
    proof {
        lemma_vdot_raw_bound((a.0 as int, a.1 as int, a.2 as int),
            (b.0 as int, b.1 as int, b.2 as int),
            0x1000_0000_0000_0000, 0x1000_0000_0000_0000);
    }
    let p: i128 = a.0 * b.0 + a.1 * b.1 + a.2 * b.2;
    proof {
        lemma_tdiv_bound(p as int, FX_ONE as int,
            3 * (0x1000_0000_0000_0000int * 0x1000_0000_0000_0000int));
        assert(3 * (0x1000_0000_0000_0000int * 0x1000_0000_0000_0000int)
            <= 0x1000_0000_0000_0000_0000_0000_0000_0000int) by (nonlinear_arith);
    }
    tdiv_i128(p, FX_ONE as i128)
}

/// The fixed-point cross product over wide intermediates.
pub fn cross_wide(a: (i128, i128, i128), b: (i128, i128, i128)) -> (r: (i128, i128, i128))
    requires
        -0x1000_0000_0000_0000 <= a.0 <= 0x1000_0000_0000_0000,
        -0x1000_0000_0000_0000 <= a.1 <= 0x1000_0000_0000_0000,
        -0x1000_0000_0000_0000 <= a.2 <= 0x1000_0000_0000_0000,
        -0x1000_0000_0000_0000 <= b.0 <= 0x1000_0000_0000_0000,
        -0x1000_0000_0000_0000 <= b.1 <= 0x1000_0000_0000_0000,
        -0x1000_0000_0000_0000 <= b.2 <= 0x1000_0000_0000_0000,
    ensures
        ({
            let c = vcross((a.0 as int, a.1 as int, a.2 as int),
                (b.0 as int, b.1 as int, b.2 as int));
            r.0 as int == c.0 && r.1 as int == c.1 && r.2 as int == c.2
        }),
{
    proof {
        let m = 0x1000_0000_0000_0000int;
        let av = (a.0 as int, a.1 as int, a.2 as int);
        let bv = (b.0 as int, b.1 as int, b.2 as int);
        lemma_fmul_bound(av.1, bv.2, m, m);
        lemma_fmul_bound(av.2, bv.1, m, m);
        lemma_fmul_bound(av.2, bv.0, m, m);
        lemma_fmul_bound(av.0, bv.2, m, m);
        lemma_fmul_bound(av.0, bv.1, m, m);
        lemma_fmul_bound(av.1, bv.0, m, m);
        lemma_vdot_raw_bound(av, bv, m, m);
        lemma_vdot_raw_bound((av.1, av.2, av.0), (bv.2, bv.0, bv.1), m, m);
        lemma_vdot_raw_bound((av.2, av.0, av.1), (bv.1, bv.2, bv.0), m, m);
    }
    let x: i128 = tdiv_i128(a.1 * b.2, FX_ONE as i128) - tdiv_i128(a.2 * b.1, FX_ONE as i128);
    let y: i128 = tdiv_i128(a.2 * b.0, FX_ONE as i128) - tdiv_i128(a.0 * b.2, FX_ONE as i128);
    let z: i128 = tdiv_i128(a.0 * b.1, FX_ONE as i128) - tdiv_i128(a.1 * b.0, FX_ONE as i128);
    (x, y, z)
}

} // verus!
