//! Quaternion rotations over fixed-point scalars.
//!
//! A camera orientation is a near-unit quaternion; rotating a vector uses
//! the usual `v + 2 a (qv x v) + qv x (2 (qv x v))` form. The half-angle
//! sine and cosine for axis-angle construction come from an odd Taylor
//! polynomial on the quarter-turn range, with the half turn folded onto it;
//! the contracts state that polynomial exactly.

use vstd::prelude::*;
use crate::fixed::{
    tdiv, fmul, FX_ONE, FX_COORD_MAX, fx_mul, tdiv_i64,
    lemma_fmul_bound, lemma_tdiv_bound, lemma_tdiv_mul_exact,
};
use crate::vec3::{
    Vec3, v3, vadd, vcross, vsmul, vbounded, lemma_vcross_bound, lemma_vsmul_bound,
};

verus! {

/// Half turn (pi) in fixed-point radians.
pub const FX_PI: i64 = 205887;

/// Quarter turn (pi / 2) in fixed-point radians.
pub const FX_HALF_PI: i64 = 102943;

#[derive(Clone, Copy, Debug, PartialEq, Eq, Structural)]
pub struct Quaternion {
    pub a: i64,
    pub b: i64,
    pub c: i64,
    pub d: i64,
}

/// The mathematical view of a quaternion.
pub open spec fn q4(q: Quaternion) -> (int, int, int, int) {
    (q.a as int, q.b as int, q.c as int, q.d as int)
}

pub open spec fn qbounded(q: (int, int, int, int), m: int) -> bool {
    &&& -m <= q.0 <= m
    &&& -m <= q.1 <= m
    &&& -m <= q.2 <= m
    &&& -m <= q.3 <= m
}

/// Rotation of a vector by a quaternion, exactly as the executable
/// rotation computes it in fixed point.
pub open spec fn qvmul(q: (int, int, int, int), v: (int, int, int)) -> (int, int, int) {
    let qv = (q.1, q.2, q.3);
    let t = vsmul(vcross(qv, v), 2 * (FX_ONE as int));
    vadd(vadd(v, vsmul(t, q.0)), vcross(qv, t))
}

/// The Hamilton product, componentwise in fixed point.
pub open spec fn qmul(p: (int, int, int, int), q: (int, int, int, int))
    -> (int, int, int, int) {
    (fmul(p.0, q.0) - fmul(p.1, q.1) - fmul(p.2, q.2) - fmul(p.3, q.3),
     fmul(p.0, q.1) + fmul(p.1, q.0) - fmul(p.2, q.3) + fmul(p.3, q.2),
     fmul(p.0, q.2) + fmul(p.1, q.3) + fmul(p.2, q.0) - fmul(p.3, q.1),
     fmul(p.0, q.3) - fmul(p.1, q.2) + fmul(p.2, q.1) + fmul(p.3, q.0))
}

/// Odd Taylor polynomial for the sine on the quarter-turn range.
pub open spec fn sin_poly(y: int) -> int {
    let t2 = fmul(y, y);
    let y3 = fmul(y, t2);
    let y5 = fmul(y3, t2);
    let y7 = fmul(y5, t2);
    y - tdiv(y3, 6) + tdiv(y5, 120) - tdiv(y7, 5040)
}

/// The sine on the half-turn range, folding onto the quarter turn.
pub open spec fn sin_spec(x: int) -> int {
    if x > FX_HALF_PI as int {
        sin_poly(FX_PI as int - x)
    } else if x < -(FX_HALF_PI as int) {
        sin_poly(-(FX_PI as int) - x)
    } else {
        sin_poly(x)
    }
}

/// The cosine on the half-turn range, as the sine of the complement.
pub open spec fn cos_spec(x: int) -> int {
    if x >= 0 {
        sin_poly(FX_HALF_PI as int - x)
    } else {
        sin_poly(FX_HALF_PI as int + x)
    }
}

/// The polynomial stays within four whole units on the quarter-turn range.
proof fn lemma_sin_poly_bound(y: int)
    requires
        -131072 <= y <= 131072,
    ensures
        -4 * (FX_ONE as int) <= sin_poly(y) <= 4 * (FX_ONE as int),
{
    let t2 = fmul(y, y);
    let y3 = fmul(y, t2);
    let y5 = fmul(y3, t2);
    let y7 = fmul(y5, t2);
    lemma_fmul_bound(y, y, 131072, 131072);
    assert(tdiv(131072int * 131072, 65536) == 262144) by {
        assert(131072int * 131072 == 262144 * 65536) by (nonlinear_arith);
        lemma_tdiv_mul_exact(262144, 65536);
    };
    lemma_fmul_bound(y, t2, 131072, 262144);
    assert(tdiv(131072int * 262144, 65536) == 524288) by {
        assert(131072int * 262144 == 524288 * 65536) by (nonlinear_arith);
        lemma_tdiv_mul_exact(524288, 65536);
    };
    lemma_fmul_bound(y3, t2, 524288, 262144);
    assert(tdiv(524288int * 262144, 65536) == 2097152) by {
        assert(524288int * 262144 == 2097152 * 65536) by (nonlinear_arith);
        lemma_tdiv_mul_exact(2097152, 65536);
    };
    lemma_fmul_bound(y5, t2, 2097152, 262144);
    assert(tdiv(2097152int * 262144, 65536) == 8388608) by {
        assert(2097152int * 262144 == 8388608 * 65536) by (nonlinear_arith);
        lemma_tdiv_mul_exact(8388608, 65536);
    };
    lemma_tdiv_bound(y3, 6, 524288);
    lemma_tdiv_bound(y5, 120, 2097152);
    lemma_tdiv_bound(y7, 5040, 8388608);
}

/// The sine of a fixed-point angle on the half-turn range.
pub fn sin_fx(x: i64) -> (r: i64)
    requires
        -FX_PI <= x <= FX_PI,
    ensures
        r as int == sin_spec(x as int),
        -4 * FX_ONE <= r <= 4 * FX_ONE,
{
    let y: i64 = if x > FX_HALF_PI {
        FX_PI - x
    } else if x < -FX_HALF_PI {
        -FX_PI - x
    } else {
        x
    };
    proof {
        lemma_sin_poly_bound(y as int);
    }
    sin_poly_fx(y)
}

/// The cosine of a fixed-point angle on the half-turn range.
pub fn cos_fx(x: i64) -> (r: i64)
    requires
        -FX_PI <= x <= FX_PI,
    ensures
        r as int == cos_spec(x as int),
        -4 * FX_ONE <= r <= 4 * FX_ONE,
{
    let y: i64 = if x >= 0 {
        FX_HALF_PI - x
    } else {
        FX_HALF_PI + x
    };
    proof {
        lemma_sin_poly_bound(y as int);
    }
    sin_poly_fx(y)
}

/// The Taylor polynomial itself, on the quarter-turn range.
fn sin_poly_fx(y: i64) -> (r: i64)
    requires
        -131072 <= y <= 131072,
    ensures
        r as int == sin_poly(y as int),
{
    proof {
        let t2g = fmul(y as int, y as int);
        let y3g = fmul(y as int, t2g);
        let y5g = fmul(y3g, t2g);
        lemma_fmul_bound(y as int, y as int, 131072, 131072);
        assert(tdiv(131072int * 131072, 65536) == 262144) by {
            assert(131072int * 131072 == 262144 * 65536) by (nonlinear_arith);
            lemma_tdiv_mul_exact(262144, 65536);
        };
        lemma_fmul_bound(y as int, t2g, 131072, 262144);
        assert(tdiv(131072int * 262144, 65536) == 524288) by {
            assert(131072int * 262144 == 524288 * 65536) by (nonlinear_arith);
            lemma_tdiv_mul_exact(524288, 65536);
        };
        lemma_fmul_bound(y3g, t2g, 524288, 262144);
        assert(tdiv(524288int * 262144, 65536) == 2097152) by {
            assert(524288int * 262144 == 2097152 * 65536) by (nonlinear_arith);
            lemma_tdiv_mul_exact(2097152, 65536);
        };
        lemma_fmul_bound(y5g, t2g, 2097152, 262144);
        assert(tdiv(2097152int * 262144, 65536) == 8388608) by {
            assert(2097152int * 262144 == 8388608 * 65536) by (nonlinear_arith);
            lemma_tdiv_mul_exact(8388608, 65536);
        };
    }
    let t2: i64 = fx_mul(y, y);
    let y3: i64 = fx_mul(y, t2);
    let y5: i64 = fx_mul(y3, t2);
    let y7: i64 = fx_mul(y5, t2);
    let term3: i64 = tdiv_i64(y3, 6);
    let term5: i64 = tdiv_i64(y5, 120);
    let term7: i64 = tdiv_i64(y7, 5040);
    proof {
        lemma_tdiv_bound(y3 as int, 6, 524288);
        lemma_tdiv_bound(y5 as int, 120, 2097152);
        lemma_tdiv_bound(y7 as int, 5040, 8388608);
    }
    y - term3 + term5 - term7
}

impl Quaternion {
    /// Componentwise bound met by every quaternion the library builds.
    pub open spec fn wf(self) -> bool {
        qbounded(q4(self), 4 * (FX_ONE as int))
    }

    /// Rotate a vector into world space.
    pub fn vmul(&self, v: &Vec3) -> (r: Vec3)
        requires
            self.wf(),
            v.wf(),
        ensures
            v3(r) == qvmul(q4(*self), v3(*v)),
    {
        let qv = Vec3 { x: self.b, y: self.c, z: self.d };
        proof {
            lemma_vcross_bound(v3(qv), v3(*v), 262144, FX_COORD_MAX as int);
            assert(tdiv(262144int * (FX_COORD_MAX as int), 65536) == 0x2_0000_0000int) by {
                assert(262144int * (FX_COORD_MAX as int) == 0x2_0000_0000int * 65536)
                    by (nonlinear_arith)
                    requires FX_COORD_MAX == 0x8000_0000i64;
                lemma_tdiv_mul_exact(0x2_0000_0000int, 65536);
            };
        }
        let c1: Vec3 = qv.cross(v);
        proof {
            lemma_vsmul_bound(v3(c1), 2 * (FX_ONE as int), 0x4_0000_0000, 131072);
            assert(tdiv(0x4_0000_0000int * 131072, 65536) == 0x8_0000_0000int) by {
                assert(0x4_0000_0000int * 131072 == 0x8_0000_0000int * 65536)
                    by (nonlinear_arith);
                lemma_tdiv_mul_exact(0x8_0000_0000int, 65536);
            };
        }
        let t: Vec3 = c1.smul(2 * FX_ONE);
        proof {
            lemma_vsmul_bound(v3(t), self.a as int, 0x8_0000_0000, 262144);
            assert(tdiv(0x8_0000_0000int * 262144, 65536) == 0x20_0000_0000int) by {
                assert(0x8_0000_0000int * 262144 == 0x20_0000_0000int * 65536)
                    by (nonlinear_arith);
                lemma_tdiv_mul_exact(0x20_0000_0000int, 65536);
            };
            lemma_vcross_bound(v3(qv), v3(t), 262144, 0x8_0000_0000);
            assert(tdiv(262144int * 0x8_0000_0000, 65536) == 0x20_0000_0000int) by {
                assert(262144int * 0x8_0000_0000 == 0x20_0000_0000int * 65536)
                    by (nonlinear_arith);
                lemma_tdiv_mul_exact(0x20_0000_0000int, 65536);
            };
        }
        let ta: Vec3 = t.smul(self.a);
        let c2: Vec3 = qv.cross(&t);
        v.add(ta).add(c2)
    }

    /// The rotation by `angle` fixed-point radians about `axis`.
    pub fn from_axis_angle(axis: &Vec3, angle: i64) -> (r: Quaternion)
        requires
            vbounded(v3(*axis), FX_ONE as int),
            -2 * FX_PI <= angle <= 2 * FX_PI,
        ensures
            r.a as int == cos_spec(tdiv(angle as int, 2)),
            r.b as int == fmul(axis.x as int, sin_spec(tdiv(angle as int, 2))),
            r.c as int == fmul(axis.y as int, sin_spec(tdiv(angle as int, 2))),
            r.d as int == fmul(axis.z as int, sin_spec(tdiv(angle as int, 2))),
            r.wf(),
    {
        let half: i64 = tdiv_i64(angle, 2);
        proof {
            lemma_tdiv_bound(angle as int, 2, 2 * (FX_PI as int));
            lemma_tdiv_mul_exact(FX_PI as int, 2);
        }
        let s: i64 = sin_fx(half);
        let c: i64 = cos_fx(half);
        proof {
            lemma_fmul_bound(axis.x as int, s as int, FX_ONE as int, 262144);
            lemma_fmul_bound(axis.y as int, s as int, FX_ONE as int, 262144);
            lemma_fmul_bound(axis.z as int, s as int, FX_ONE as int, 262144);
            assert(tdiv((FX_ONE as int) * 262144, 65536) == 262144) by {
                assert((FX_ONE as int) * 262144 == 262144 * 65536) by (nonlinear_arith);
                lemma_tdiv_mul_exact(262144, 65536);
            };
        }
        Quaternion { a: c, b: fx_mul(axis.x, s), c: fx_mul(axis.y, s), d: fx_mul(axis.z, s) }
    }

    /// The Hamilton product of two orientations.
    pub fn mul(self, rhs: Quaternion) -> (r: Quaternion)
        requires
            self.wf(),
            rhs.wf(),
        ensures
            q4(r) == qmul(q4(self), q4(rhs)),
    {
        proof {
            let p = q4(self);
            let q = q4(rhs);
            lemma_qmul_term_bounds(p, q);
        }
        Quaternion {
            a: fx_mul(self.a, rhs.a) - fx_mul(self.b, rhs.b) - fx_mul(self.c, rhs.c)
                - fx_mul(self.d, rhs.d),
            b: fx_mul(self.a, rhs.b) + fx_mul(self.b, rhs.a) - fx_mul(self.c, rhs.d)
                + fx_mul(self.d, rhs.c),
            c: fx_mul(self.a, rhs.c) + fx_mul(self.b, rhs.d) + fx_mul(self.c, rhs.a)
                - fx_mul(self.d, rhs.b),
            d: fx_mul(self.a, rhs.d) - fx_mul(self.b, rhs.c) + fx_mul(self.c, rhs.b)
                + fx_mul(self.d, rhs.a),
        }
    }
}

/// Every pairwise fixed-point product of two bounded quaternions stays
/// within one quarter-unit of the bound product.
proof fn lemma_qmul_term_bounds(p: (int, int, int, int), q: (int, int, int, int))
    requires
        qbounded(p, 262144),
        qbounded(q, 262144),
    ensures
        -1048576 <= fmul(p.0, q.0) <= 1048576,
        -1048576 <= fmul(p.0, q.1) <= 1048576,
        -1048576 <= fmul(p.0, q.2) <= 1048576,
        -1048576 <= fmul(p.0, q.3) <= 1048576,
        -1048576 <= fmul(p.1, q.0) <= 1048576,
        -1048576 <= fmul(p.1, q.1) <= 1048576,
        -1048576 <= fmul(p.1, q.2) <= 1048576,
        -1048576 <= fmul(p.1, q.3) <= 1048576,
        -1048576 <= fmul(p.2, q.0) <= 1048576,
        -1048576 <= fmul(p.2, q.1) <= 1048576,
        -1048576 <= fmul(p.2, q.2) <= 1048576,
        -1048576 <= fmul(p.2, q.3) <= 1048576,
        -1048576 <= fmul(p.3, q.0) <= 1048576,
        -1048576 <= fmul(p.3, q.1) <= 1048576,
        -1048576 <= fmul(p.3, q.2) <= 1048576,
        -1048576 <= fmul(p.3, q.3) <= 1048576,
{
    assert(tdiv(262144int * 262144, 65536) == 1048576) by {
        assert(262144int * 262144 == 1048576 * 65536) by (nonlinear_arith);
        lemma_tdiv_mul_exact(1048576, 65536);
    };
    lemma_fmul_bound(p.0, q.0, 262144, 262144);
    lemma_fmul_bound(p.0, q.1, 262144, 262144);
    lemma_fmul_bound(p.0, q.2, 262144, 262144);
    lemma_fmul_bound(p.0, q.3, 262144, 262144);
    lemma_fmul_bound(p.1, q.0, 262144, 262144);
    lemma_fmul_bound(p.1, q.1, 262144, 262144);
    lemma_fmul_bound(p.1, q.2, 262144, 262144);
    lemma_fmul_bound(p.1, q.3, 262144, 262144);
    lemma_fmul_bound(p.2, q.0, 262144, 262144);
    lemma_fmul_bound(p.2, q.1, 262144, 262144);
    lemma_fmul_bound(p.2, q.2, 262144, 262144);
    lemma_fmul_bound(p.2, q.3, 262144, 262144);
    lemma_fmul_bound(p.3, q.0, 262144, 262144);
    lemma_fmul_bound(p.3, q.1, 262144, 262144);
    lemma_fmul_bound(p.3, q.2, 262144, 262144);
    lemma_fmul_bound(p.3, q.3, 262144, 262144);
}

impl Default for Quaternion {
    /// The identity rotation.
    fn default() -> (r: Quaternion)
        ensures
            q4(r) == (FX_ONE as int, 0int, 0int, 0int),
            r.wf(),
    {
        Quaternion { a: FX_ONE, b: 0, c: 0, d: 0 }
    }
}

} // verus!
