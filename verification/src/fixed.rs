//! Fixed-point scalar arithmetic for the renderer.
//!
//! Every scalar in the engine is an `i64` holding `value * FX_ONE`, so one
//! whole unit is `FX_ONE` and the fractional resolution is `1 / FX_ONE`.
//! Products and quotients rescale by `FX_ONE`, truncating toward zero.
//! Intermediate arithmetic runs in `i128`, so the only overflow obligations
//! sit at the narrowing back to `i64`, which the contracts discharge from
//! the stated operand bounds.

use vstd::prelude::*;
use vstd::arithmetic::div_mod::*;
use vstd::arithmetic::mul::*;

verus! {

/// One whole unit (1.0) in fixed-point form.
pub const FX_ONE: i64 = 65536;

/// Least hit distance the intersection search accepts; also the offset
/// applied along a surface normal when spawning a secondary ray.
pub const EPSILON: i64 = 7;

/// Magnitude bound on coordinates held in scene data and rays (2^31 in
/// fixed-point form, i.e. 32768 whole units).
pub const FX_COORD_MAX: i64 = 2147483648;

/// Magnitude bound on the operands of the `i64` fixed-point product (2^39).
pub const FX_MUL_MAX: i64 = 549755813888;

/// Magnitude bound on the operands of the vector products (2^38), loose
/// enough for the intermediates of a quaternion rotation while keeping a
/// dot product within `i64`.
pub const FX_VEC_MAX: i64 = 274877906944;

/// Division truncating toward zero, for a positive divisor. (The `/` of
/// specifications is Euclidean, which rounds toward minus infinity on a
/// negative dividend; executable code here rounds toward zero instead.)
pub open spec fn tdiv(n: int, d: int) -> int {
    if n >= 0 {
        n / d
    } else {
        -((-n) / d)
    }
}

/// Division truncating toward zero, for any nonzero divisor.
pub open spec fn tdiv_any(n: int, d: int) -> int {
    if d >= 0 {
        tdiv(n, d)
    } else {
        -tdiv(n, -d)
    }
}

/// The fixed-point product: `a * b` rescaled down by one unit.
pub open spec fn fmul(a: int, b: int) -> int {
    tdiv(a * b, FX_ONE as int)
}

/// The fixed-point quotient: `a / b` rescaled up by one unit.
pub open spec fn fdiv(a: int, b: int) -> int {
    tdiv_any(a * (FX_ONE as int), b)
}

/// Floor of the square root of a nonnegative integer.
pub open spec fn sqrt_floor(n: int) -> int
    decreases n,
{
    if n <= 0 {
        0
    } else {
        let r = sqrt_floor(n - 1);
        if (r + 1) * (r + 1) <= n {
            r + 1
        } else {
            r
        }
    }
}

/// The fixed-point square root of a nonnegative fixed-point scalar.
pub open spec fn fsqrt(x: int) -> int {
    sqrt_floor(x * (FX_ONE as int))
}

/// `sqrt_floor` is what its name says: the greatest integer whose square
/// does not exceed the argument.
pub proof fn lemma_sqrt_floor_bounds(n: int)
    requires
        n >= 0,
    ensures
        sqrt_floor(n) >= 0,
        sqrt_floor(n) * sqrt_floor(n) <= n,
        n < (sqrt_floor(n) + 1) * (sqrt_floor(n) + 1),
    decreases n,
{
    if n == 0 {
    } else {
        lemma_sqrt_floor_bounds(n - 1);
        let r = sqrt_floor(n - 1);
        if (r + 1) * (r + 1) <= n {
            assert(n <= (r + 1) * (r + 1)) by {
                assert(n - 1 < (r + 1) * (r + 1));
            };
            assert((r + 1) * (r + 1) < (r + 2) * (r + 2)) by (nonlinear_arith)
                requires r >= 0;
        } else {
        }
    }
}

/// Any integer that satisfies the floor-sqrt bounds is the floor sqrt.
pub proof fn lemma_sqrt_floor_unique(n: int, r: int)
    requires
        n >= 0,
        r >= 0,
        r * r <= n,
        n < (r + 1) * (r + 1),
    ensures
        r == sqrt_floor(n),
{
    lemma_sqrt_floor_bounds(n);
    let s = sqrt_floor(n);
    if r < s {
        assert((r + 1) * (r + 1) <= s * s) by (nonlinear_arith)
            requires r >= 0, s >= 0, r + 1 <= s;
        assert(false);
    }
    if s < r {
        assert((s + 1) * (s + 1) <= r * r) by (nonlinear_arith)
            requires s >= 0, r >= 0, s + 1 <= r;
        assert(false);
    }
}

/// Truncating division of an exact multiple recovers the factor.
pub proof fn lemma_tdiv_mul_exact(k: int, d: int)
    requires
        d > 0,
    ensures
        tdiv(k * d, d) == k,
{
    if k >= 0 {
        lemma_div_by_multiple(k, d);
        assert(k * d >= 0) by (nonlinear_arith)
            requires k >= 0, d > 0;
    } else {
        lemma_div_by_multiple(-k, d);
        assert(k * d < 0) by (nonlinear_arith)
            requires k < 0, d > 0;
        assert(-(k * d) == (-k) * d) by (nonlinear_arith);
    }
}

/// Truncating division never grows the magnitude of the dividend.
pub proof fn lemma_tdiv_bound(n: int, d: int, m: int)
    requires
        d > 0,
        0 <= m,
        -m <= n <= m,
    ensures
        -tdiv(m, d) <= tdiv(n, d) <= tdiv(m, d),
        0 <= tdiv(m, d) <= m,
{
    lemma_div_pos_is_pos(m, d);
    lemma_div_nonincreasing(m, d);
    if n >= 0 {
        lemma_div_pos_is_pos(n, d);
        lemma_div_is_ordered(n, m, d);
    } else {
        lemma_div_pos_is_pos(-n, d);
        lemma_div_is_ordered(-n, m, d);
    }
}

/// The fixed-point product of bounded operands is bounded by the rescaled
/// product of the bounds.
pub proof fn lemma_fmul_bound(a: int, b: int, m: int, n: int)
    requires
        0 <= m,
        0 <= n,
        -m <= a <= m,
        -n <= b <= n,
    ensures
        -tdiv(m * n, FX_ONE as int) <= fmul(a, b) <= tdiv(m * n, FX_ONE as int),
        0 <= tdiv(m * n, FX_ONE as int) <= m * n,
{
    assert(-(m * n) <= a * b <= m * n) by (nonlinear_arith)
        requires 0 <= m, 0 <= n, -m <= a <= m, -n <= b <= n;
    lemma_tdiv_bound(a * b, FX_ONE as int, m * n);
}

/// Scaling by a transmissive factor of at most one whole unit never
/// brightens a nonnegative channel.
pub proof fn lemma_fmul_unit_bound(c: int, t: int)
    requires
        0 <= c,
        0 <= t <= FX_ONE,
    ensures
        0 <= fmul(c, t) <= c,
{
    assert(0 <= c * t <= c * (FX_ONE as int)) by (nonlinear_arith)
        requires 0 <= c, 0 <= t <= FX_ONE as int;
    lemma_tdiv_monotone(c * t, c * (FX_ONE as int), FX_ONE as int);
    lemma_tdiv_monotone(0, c * t, FX_ONE as int);
    lemma_tdiv_mul_exact(c, FX_ONE as int);
}

/// The fixed-point product with a unit-interval factor stays strictly
/// below a positive left operand.
pub proof fn lemma_fmul_below_left(a: int, u: int)
    requires
        1 <= a,
        0 <= u < FX_ONE,
    ensures
        0 <= fmul(a, u) <= a - 1,
{
    let s = FX_ONE as int;
    assert(0 <= a * u && a * u <= a * s - a) by (nonlinear_arith)
        requires 1 <= a, 0 <= u, u <= s - 1, s == 65536;
    lemma_tdiv_monotone(0, a * u, s);
    lemma_tdiv_monotone(a * u, a * s - 1, s);
    assert(a * s - 1 == (a - 1) * s + (s - 1)) by (nonlinear_arith);
    lemma_fundamental_div_mod_converse_div(a * s - 1, s, a - 1, s - 1);
}

/// Truncation toward zero sits within one step above the floor.
pub proof fn lemma_tdiv_vs_floor(x: int, d: int)
    requires
        d > 0,
    ensures
        x / d <= tdiv(x, d) <= x / d + 1,
{
    if x >= 0 {
    } else {
        lemma_fundamental_div_mod(-x, d);
        lemma_mod_division_less_than_divisor(-x, d);
        let q = (-x) / d;
        let r = (-x) % d;
        if r == 0 {
            assert(x == d * (-q) + 0) by (nonlinear_arith)
                requires -x == d * q + r, r == 0;
            lemma_fundamental_div_mod_converse_div(x, d, -q, 0);
        } else {
            assert(x == d * (-q - 1) + (d - r)) by (nonlinear_arith)
                requires -x == d * q + r;
            lemma_fundamental_div_mod_converse_div(x, d, -q - 1, d - r);
        }
    }
}

/// At normal incidence the two truncated terms of the refraction formula
/// cancel to the incoming component, up to one ulp.
pub proof fn lemma_refract_component_ulp(ni: int, r: int)
    ensures
        -1 <= fmul(-ni, r) + fmul(ni, r - (FX_ONE as int)) - (-ni) <= 1,
{
    let s = FX_ONE as int;
    let a = ni * r;
    assert((-ni) * r == -a) by (nonlinear_arith)
        requires a == ni * r;
    assert(ni * (r - s) == a - ni * s) by (nonlinear_arith)
        requires a == ni * r;
    lemma_tdiv_neg(a, s);
    lemma_tdiv_vs_floor(a, s);
    lemma_tdiv_vs_floor(a - ni * s, s);
    lemma_hoist_over_denominator(a - ni * s, ni, s as nat);
}

/// Truncating division is odd in the dividend.
pub proof fn lemma_tdiv_neg(n: int, d: int)
    requires
        d > 0,
    ensures
        tdiv(-n, d) == -tdiv(n, d),
{
}

/// A truncating quotient is bounded once the divisor is bounded away
/// from zero.
pub proof fn lemma_tdiv_div_bound(n: int, d: int, dmin: int, m: int)
    requires
        0 < dmin <= d,
        0 <= m,
        -(m * dmin) <= n <= m * dmin,
    ensures
        -m <= tdiv(n, d) <= m,
{
    lemma_mul_nonnegative(m, dmin);
    if n >= 0 {
        lemma_div_is_ordered_by_denominator(n, dmin, d);
        lemma_div_is_ordered(n, m * dmin, dmin);
        lemma_div_by_multiple(m, dmin);
        lemma_div_pos_is_pos(n, d);
    } else {
        lemma_div_is_ordered_by_denominator(-n, dmin, d);
        lemma_div_is_ordered(-n, m * dmin, dmin);
        lemma_div_by_multiple(m, dmin);
        lemma_div_pos_is_pos(-n, d);
    }
}

/// Truncating division is monotone in the dividend.
pub proof fn lemma_tdiv_monotone(a: int, b: int, d: int)
    requires
        d > 0,
        a <= b,
    ensures
        tdiv(a, d) <= tdiv(b, d),
{
    if a >= 0 {
        lemma_div_is_ordered(a, b, d);
    } else if b >= 0 {
        lemma_div_pos_is_pos(-a, d);
        lemma_div_pos_is_pos(b, d);
    } else {
        lemma_div_is_ordered(-b, -a, d);
    }
}

/// Division truncating toward zero on `i128`, for a positive divisor.
pub fn tdiv_i128(n: i128, d: i128) -> (q: i128)
    requires
        d > 0,
        n > i128::MIN,
    ensures
        q as int == tdiv(n as int, d as int),
{
    if n >= 0 {
        let nn: u128 = n as u128;
        let dd: u128 = d as u128;
        let qq: u128 = nn / dd;
        proof {
            lemma_tdiv_bound(n as int, d as int, n as int);
        }
        qq as i128
    } else {
        let nn: u128 = (-n) as u128;
        let dd: u128 = d as u128;
        let qq: u128 = nn / dd;
        proof {
            lemma_tdiv_bound(n as int, d as int, -(n as int));
        }
        -(qq as i128)
    }
}

/// Division truncating toward zero on `i64`, for a positive divisor.
pub fn tdiv_i64(n: i64, d: i64) -> (q: i64)
    requires
        d > 0,
        n > i64::MIN,
    ensures
        q as int == tdiv(n as int, d as int),
{
    proof {
        lemma_tdiv_bound(n as int, d as int, if n >= 0 { n as int } else { -(n as int) });
    }
    let q128: i128 = tdiv_i128(n as i128, d as i128);
    q128 as i64
}

/// The fixed-point product on `i64` scalars.
pub fn fx_mul(a: i64, b: i64) -> (r: i64)
    requires
        -FX_MUL_MAX <= a <= FX_MUL_MAX,
        -FX_MUL_MAX <= b <= FX_MUL_MAX,
    ensures
        r as int == fmul(a as int, b as int),
{
    proof {
        assert(-(FX_MUL_MAX as int) * (FX_MUL_MAX as int) <= (a as int) * (b as int)
            <= (FX_MUL_MAX as int) * (FX_MUL_MAX as int)) by (nonlinear_arith)
            requires
                -(FX_MUL_MAX as int) <= a as int <= FX_MUL_MAX as int,
                -(FX_MUL_MAX as int) <= b as int <= FX_MUL_MAX as int;
    }
    let p: i128 = (a as i128) * (b as i128);
    proof {
        lemma_tdiv_bound(p as int, FX_ONE as int,
            (FX_MUL_MAX as int) * (FX_MUL_MAX as int));
    }
    let q: i128 = tdiv_i128(p, FX_ONE as i128);
    q as i64
}

/// The fixed-point quotient on `i64` scalars; the dividend bound keeps the
/// result within `i64` for every nonzero divisor.
pub fn fx_div(a: i64, b: i64) -> (r: i64)
    requires
        -FX_COORD_MAX <= a <= FX_COORD_MAX,
        b != 0,
    ensures
        r as int == fdiv(a as int, b as int),
{
    proof {
        assert(-((FX_COORD_MAX as int) * (FX_ONE as int)) <= (a as int) * (FX_ONE as int)
            <= (FX_COORD_MAX as int) * (FX_ONE as int)) by (nonlinear_arith)
            requires
                -(FX_COORD_MAX as int) <= a as int <= FX_COORD_MAX as int;
    }
    let p: i128 = (a as i128) * (FX_ONE as i128);
    let babs: i128 = if b >= 0 { b as i128 } else { -(b as i128) };
    proof {
        lemma_tdiv_bound(p as int, babs as int, (FX_COORD_MAX as int) * (FX_ONE as int));
    }
    let q: i128 = tdiv_i128(p, babs);
    let r128: i128 = if b >= 0 { q } else { -q };
    r128 as i64
}

/// The fixed-point quotient over wide intermediates, for any nonzero
/// divisor.
pub fn fdiv_i128(a: i128, b: i128) -> (q: i128)
    requires
        b != 0,
        b > i128::MIN,
        -0x1_0000_0000_0000_0000_0000_0000 <= a <= 0x1_0000_0000_0000_0000_0000_0000,
    ensures
        q as int == fdiv(a as int, b as int),
{
    proof {
        assert(-0x1_0000_0000_0000_0000_0000_0000int * 65536 <= (a as int) * 65536
            <= 0x1_0000_0000_0000_0000_0000_0000int * 65536) by (nonlinear_arith)
            requires
                -0x1_0000_0000_0000_0000_0000_0000 <= a as int
                    <= 0x1_0000_0000_0000_0000_0000_0000;
    }
    let n: i128 = a * (FX_ONE as i128);
    if b >= 0 {
        proof {
            lemma_tdiv_bound(n as int, b as int,
                0x1_0000_0000_0000_0000_0000_0000int * 65536);
        }
        tdiv_i128(n, b)
    } else {
        proof {
            lemma_tdiv_bound(n as int, -(b as int),
                0x1_0000_0000_0000_0000_0000_0000int * 65536);
        }
        let q0: i128 = tdiv_i128(n, -b);
        -q0
    }
}

/// Piecewise-linear base-2 exponential on fixed-point exponents: two to
/// the whole part, threaded linearly through the fractional part.
pub open spec fn exp2_fx(e: int) -> int {
    let k = e / (FX_ONE as int);
    let f = e - k * (FX_ONE as int);
    if k >= 0 {
        ((FX_ONE as int) + f) * (vstd::arithmetic::power2::pow2(k as nat) as int)
    } else {
        ((FX_ONE as int) + f) / (vstd::arithmetic::power2::pow2((-k) as nat) as int)
    }
}

/// Two to a small nonnegative power, by repeated doubling.
fn pow2_u64(e: u64) -> (r: u64)
    requires
        e <= 32,
    ensures
        r as int == vstd::arithmetic::power2::pow2(e as nat) as int,
        1 <= r,
        r <= 0x1_0000_0000u64,
{
    let mut p: u64 = 1;
    let mut i: u64 = 0;
    proof {
        vstd::arithmetic::power2::lemma2_to64();
    }
    while i < e
        invariant
            i <= e,
            e <= 32,
            p as int == vstd::arithmetic::power2::pow2(i as nat) as int,
            1 <= p,
            p <= 0x1_0000_0000u64,
        decreases e - i,
    {
        proof {
            vstd::arithmetic::power2::lemma2_to64();
            if (i as nat) < 32 {
                vstd::arithmetic::power2::lemma_pow2_strictly_increases(i as nat, 32nat);
            }
            vstd::arithmetic::power2::lemma_pow2_unfold((i + 1) as nat);
        }
        p = p * 2;
        i = i + 1;
    }
    proof {
        vstd::arithmetic::power2::lemma2_to64();
        if (i as nat) < 32 {
            vstd::arithmetic::power2::lemma_pow2_strictly_increases(i as nat, 32nat);
        }
    }
    p
}

/// The base-2 exponential on the clamped exponent range the scatter
/// densities use: 32 units down to 16 units up.
pub fn exp2_fx_exec(e: i64) -> (r: i64)
    requires
        -2097152 <= e <= 1048576,
    ensures
        r as int == exp2_fx(e as int),
        0 <= r,
{
    let k = floor_div_i64(e, FX_ONE);
    proof {
        lemma_fundamental_div_mod(e as int, FX_ONE as int);
        lemma_mod_division_less_than_divisor(e as int, FX_ONE as int);
    }
    let f: i64 = e - k * FX_ONE;
    if k >= 0 {
        let p = pow2_u64(k as u64);
        proof {
            assert(((FX_ONE + f) as int) * (p as int) <= 131072 * 0x1_0000_0000int)
                by (nonlinear_arith)
                requires 0 < (FX_ONE + f) as int <= 131072, 0 < p as int <= 0x1_0000_0000int;
            assert(0 <= ((FX_ONE + f) as int) * (p as int)) by (nonlinear_arith)
                requires 0 < (FX_ONE + f) as int, 0 < p as int;
        }
        (((FX_ONE + f) as u64) * p) as i64
    } else {
        let p = pow2_u64((-k) as u64);
        let q: u64 = ((FX_ONE + f) as u64) / p;
        proof {
            lemma_div_pos_is_pos((FX_ONE + f) as int, p as int);
            lemma_div_nonincreasing((FX_ONE + f) as int, p as int);
        }
        q as i64
    }
}

/// Floor of the base-2 logarithm, zero below two.
pub open spec fn lg_floor(y: int) -> int
    decreases y,
{
    if y < 2 {
        0
    } else {
        1 + lg_floor(y / 2)
    }
}

/// Piecewise-linear base-2 logarithm of `y >= 1` in fixed-point form:
/// the floor logarithm for the whole part, a linear thread through each
/// octave for the fraction.
pub open spec fn lg_fx(y: int) -> int {
    let k = lg_floor(y);
    k * (FX_ONE as int)
        + ((y - vstd::arithmetic::power2::pow2(k as nat)) * (FX_ONE as int))
        / (vstd::arithmetic::power2::pow2(k as nat) as int)
}

/// The logarithmic compressor's curve: `log2(1 + v)` in fixed point,
/// reading negative inputs as zero.
pub open spec fn log1p_fx(v: int) -> int {
    let vv = if v < 0 { 0 } else { v };
    lg_fx(vv + FX_ONE) - 16 * (FX_ONE as int)
}

/// The floor logarithm brackets its argument between two powers of two.
pub proof fn lemma_lg_floor_bounds(y: int)
    requires
        1 <= y,
    ensures
        0 <= lg_floor(y),
        vstd::arithmetic::power2::pow2(lg_floor(y) as nat) <= y,
        y < vstd::arithmetic::power2::pow2((lg_floor(y) + 1) as nat),
    decreases y,
{
    vstd::arithmetic::power2::lemma2_to64();
    if y < 2 {
    } else {
        lemma_div_pos_is_pos(y, 2);
        lemma_div_is_ordered(2, y, 2);
        lemma_lg_floor_bounds(y / 2);
        let l = lg_floor(y / 2);
        let p = vstd::arithmetic::power2::pow2(l as nat) as int;
        vstd::arithmetic::power2::lemma_pow2_unfold((l + 1) as nat);
        vstd::arithmetic::power2::lemma_pow2_unfold((l + 2) as nat);
        lemma_fundamental_div_mod(y, 2);
        lemma_mod_division_less_than_divisor(y, 2);
        assert(2 * p <= y) by (nonlinear_arith)
            requires p <= y / 2, y == 2 * (y / 2) + y % 2, y % 2 >= 0;
        assert(y < 2 * (2 * p)) by (nonlinear_arith)
            requires y / 2 < 2 * p, y == 2 * (y / 2) + y % 2, y % 2 < 2;
    }
}

/// Whatever sits between two adjacent powers of two has that floor
/// logarithm.
pub proof fn lemma_lg_floor_unique(y: int, k: int)
    requires
        0 <= k,
        vstd::arithmetic::power2::pow2(k as nat) <= y,
        y < vstd::arithmetic::power2::pow2((k + 1) as nat),
    ensures
        lg_floor(y) == k,
{
    vstd::arithmetic::power2::lemma_pow2_pos(k as nat);
    lemma_lg_floor_bounds(y);
    let l = lg_floor(y);
    if l < k {
        vstd::arithmetic::power2::lemma_pow2_strictly_increases((l + 1) as nat, (k + 1) as nat);
        if ((l + 1) as nat) < (k as nat) {
            vstd::arithmetic::power2::lemma_pow2_strictly_increases((l + 1) as nat, k as nat);
        }
        assert(false);
    }
    if k < l {
        if ((k + 1) as nat) < (l as nat) {
            vstd::arithmetic::power2::lemma_pow2_strictly_increases((k + 1) as nat, l as nat);
        }
        assert(false);
    }
}

/// The floor logarithm is monotone.
pub proof fn lemma_lg_floor_mono(y1: int, y2: int)
    requires
        1 <= y1 <= y2,
    ensures
        lg_floor(y1) <= lg_floor(y2),
{
    lemma_lg_floor_bounds(y1);
    lemma_lg_floor_bounds(y2);
    let l1 = lg_floor(y1);
    let l2 = lg_floor(y2);
    if l2 < l1 {
        vstd::arithmetic::power2::lemma_pow2_strictly_increases((l2 + 1) as nat, (l1 + 1) as nat);
        if ((l2 + 1) as nat) < (l1 as nat) {
            vstd::arithmetic::power2::lemma_pow2_strictly_increases((l2 + 1) as nat, l1 as nat);
        }
        assert(vstd::arithmetic::power2::pow2((l2 + 1) as nat)
            <= vstd::arithmetic::power2::pow2(l1 as nat));
        assert(false);
    }
}

/// The fractional thread of the logarithm stays under one whole unit.
proof fn lemma_lg_fx_frac_range(y: int)
    requires
        1 <= y,
    ensures
        ({
            let k = lg_floor(y);
            let p = vstd::arithmetic::power2::pow2(k as nat) as int;
            let fr = ((y - p) * (FX_ONE as int)) / p;
            0 <= fr < FX_ONE as int
        }),
{
    lemma_lg_floor_bounds(y);
    let k = lg_floor(y);
    let p = vstd::arithmetic::power2::pow2(k as nat) as int;
    vstd::arithmetic::power2::lemma_pow2_pos(k as nat);
    vstd::arithmetic::power2::lemma_pow2_unfold((k + 1) as nat);
    let s = FX_ONE as int;
    assert(0 <= (y - p) * s) by (nonlinear_arith)
        requires p <= y, 0 < s;
    lemma_div_pos_is_pos((y - p) * s, p);
    // y - p <= p - 1, so the scaled fraction divides to below one unit
    assert((y - p) * s <= (p - 1) * s) by (nonlinear_arith)
        requires y - p <= p - 1, 0 < s;
    lemma_div_is_ordered((y - p) * s, (p - 1) * s, p);
    assert((p - 1) * s == (s - 1) * p + (p - s)) by (nonlinear_arith);
    if p >= s {
        lemma_fundamental_div_mod_converse_div((p - 1) * s, p, s - 1, p - s);
    } else {
        // p < s: (p-1)*s / p = s - 1 - ((s - p) / p rounding); bound loosely
        assert((p - 1) * s < p * s) by (nonlinear_arith)
            requires 0 < p, 0 < s;
        lemma_div_is_ordered((p - 1) * s, p * s - 1, p);
        assert(p * s - 1 == (s - 1) * p + (p - 1)) by (nonlinear_arith);
        lemma_fundamental_div_mod_converse_div(p * s - 1, p, s - 1, p - 1);
    }
}

/// The piecewise logarithm is monotone.
pub proof fn lemma_lg_fx_mono(y1: int, y2: int)
    requires
        1 <= y1 <= y2,
    ensures
        lg_fx(y1) <= lg_fx(y2),
{
    let s = FX_ONE as int;
    lemma_lg_floor_mono(y1, y2);
    lemma_lg_fx_frac_range(y1);
    lemma_lg_fx_frac_range(y2);
    let k1 = lg_floor(y1);
    let k2 = lg_floor(y2);
    let p1 = vstd::arithmetic::power2::pow2(k1 as nat) as int;
    let p2 = vstd::arithmetic::power2::pow2(k2 as nat) as int;
    if k1 == k2 {
        vstd::arithmetic::power2::lemma_pow2_pos(k1 as nat);
        assert((y1 - p1) * s <= (y2 - p1) * s) by (nonlinear_arith)
            requires y1 <= y2, 0 < s;
        lemma_div_is_ordered((y1 - p1) * s, (y2 - p1) * s, p1);
    } else {
        assert(k1 * s + s <= k2 * s) by (nonlinear_arith)
            requires k1 + 1 <= k2, 0 < s;
    }
}

/// The logarithmic curve is zero at zero and monotone.
pub proof fn lemma_log1p_basics(v1: int, v2: int)
    requires
        v1 <= v2,
    ensures
        log1p_fx(0) == 0,
        0 <= log1p_fx(v1) <= log1p_fx(v2),
{
    let s = FX_ONE as int;
    vstd::arithmetic::power2::lemma2_to64();
    lemma_lg_floor_unique(s, 16);
    lemma_div_of0(s);
    assert((s - s) * s == 0) by (nonlinear_arith);
    assert(lg_fx(s) == 16 * s);
    let w1 = if v1 < 0 { 0int } else { v1 };
    let w2 = if v2 < 0 { 0int } else { v2 };
    lemma_lg_fx_mono(s, w1 + s);
    lemma_lg_fx_mono(w1 + s, w2 + s);
}

/// The logarithmic curve on an `i64`, executable: find the octave by
/// doubling, then thread the fraction linearly.
pub fn log1p_fx_exec(v: i64) -> (r: i64)
    ensures
        r as int == log1p_fx(v as int),
        0 <= r < 48 * FX_ONE,
{
    let vv: u64 = if v < 0 {
        0
    } else {
        v as u64
    };
    let y: u64 = vv + 65536;
    let mut k: u64 = 0;
    let mut p: u64 = 1;
    proof {
        vstd::arithmetic::power2::lemma2_to64();
        vstd::arithmetic::power2::lemma2_to64_rest();
    }
    while p <= y / 2
        invariant
            65536 <= y,
            p as int == vstd::arithmetic::power2::pow2(k as nat) as int,
            1 <= p,
            p <= y,
            k <= 63,
        decreases y - p,
    {
        proof {
            vstd::arithmetic::power2::lemma_pow2_unfold((k + 1) as nat);
            lemma_fundamental_div_mod(y as int, 2);
            lemma_mod_division_less_than_divisor(y as int, 2);
            vstd::arithmetic::power2::lemma2_to64_rest();
            if k >= 63 {
                // impossible: pow2(63) > y / 2
                assert((y as int) <= 0xFFFF_FFFF_FFFF_FFFF && 0xFFFF_FFFF_FFFF_FFFF < 2 * (p as int));
            }
        }
        p = p * 2;
        k = k + 1;
    }
    proof {
        lemma_fundamental_div_mod(y as int, 2);
        lemma_mod_division_less_than_divisor(y as int, 2);
        vstd::arithmetic::power2::lemma_pow2_unfold((k + 1) as nat);
        assert((y as int) < 2 * (p as int));
        lemma_lg_floor_unique(y as int, k as int);
    }
    proof {
        let s = 65536int;
        let pi = p as int;
        let diff = (y - p) as int;
        assert(0 <= diff * s) by (nonlinear_arith)
            requires 0 <= diff, 0 < s;
        lemma_div_pos_is_pos(diff * s, pi);
        lemma_lg_fx_frac_range(y as int);
        assert(diff * s < 0x1_0000_0000_0000_0000_0000int) by (nonlinear_arith)
            requires 0 <= diff, diff < 0x1_0000_0000_0000_0000int, s == 65536;
    }
    let frac: u64 = ((((y - p) as u128) * 65536) / (p as u128)) as u64;
    let whole: i64 = (k as i64) * FX_ONE;
    let r: i64 = whole + (frac as i64) - 16 * FX_ONE;
    proof {
        assert((k as int) * (FX_ONE as int) <= 63 * (FX_ONE as int)) by (nonlinear_arith)
            requires 0 <= k as int <= 63;
        assert(16 * (FX_ONE as int) <= (k as int) * (FX_ONE as int)) by (nonlinear_arith)
            requires 16 <= k as int;
        assert(16 <= k as int) by {
            vstd::arithmetic::power2::lemma2_to64();
            lemma_lg_floor_bounds(y as int);
            if (k as int) < 16 {
                if ((k as int) + 1) < 16 {
                    vstd::arithmetic::power2::lemma_pow2_strictly_increases(
                        ((k as int) + 1) as nat, 16nat);
                }
                assert(false);
            }
        };
    }
    r
}

/// Floor square root by bisection.
pub fn isqrt_u128(n: u128) -> (r: u128)
    ensures
        r as int == sqrt_floor(n as int),
{
    let mut lo: u128 = 0;
    let mut hi: u128 = 0xFFFF_FFFF_FFFF_FFFF;
    if n < hi {
        hi = n;
        proof {
            assert((n as int) < ((n as int) + 1) * ((n as int) + 1)) by (nonlinear_arith)
                requires n as int >= 0;
        }
    }
    proof {
        assert((n as int) < (0xFFFF_FFFF_FFFF_FFFFi128 as int + 1)
            * (0xFFFF_FFFF_FFFF_FFFFi128 as int + 1)) by (nonlinear_arith)
            requires n as int <= 0xFFFF_FFFF_FFFF_FFFF_FFFF_FFFF_FFFF_FFFFu128 as int;
    }
    while lo < hi
        invariant
            lo <= hi,
            hi <= 0xFFFF_FFFF_FFFF_FFFFu128,
            (lo as int) * (lo as int) <= n as int,
            (n as int) < ((hi as int) + 1) * ((hi as int) + 1),
        decreases hi - lo,
    {
        let mid: u128 = lo + (hi - lo + 1) / 2;
        proof {
            assert(lo < mid <= hi);
            assert((mid as int) * (mid as int)
                <= 0xFFFF_FFFF_FFFF_FFFFu128 as int * (0xFFFF_FFFF_FFFF_FFFFu128 as int))
                by (nonlinear_arith)
                requires 0 <= mid as int <= 0xFFFF_FFFF_FFFF_FFFFu128 as int;
        }
        let sq: u128 = mid * mid;
        if sq <= n {
            lo = mid;
        } else {
            hi = mid - 1;
        }
    }
    proof {
        lemma_sqrt_floor_unique(n as int, lo as int);
    }
    lo
}

/// The fixed-point square root on `i64` scalars.
pub fn fx_sqrt(x: i64) -> (r: i64)
    requires
        0 <= x,
    ensures
        r as int == fsqrt(x as int),
        0 <= r,
{
    proof {
        assert(0 <= (x as int) * 65536 < 0x100_0000_0000int * 0x100_0000_0000int)
            by (nonlinear_arith)
            requires 0 <= x as int <= 0x7FFF_FFFF_FFFF_FFFFint;
    }
    let n: u128 = (x as u128) * (FX_ONE as u128);
    let s: u128 = isqrt_u128(n);
    proof {
        lemma_sqrt_floor_bounds(n as int);
        assert((n as int) < 0x100_0000_0000int * 0x100_0000_0000int) by (nonlinear_arith)
            requires
                (n as int) == (x as int) * 65536,
                0 <= x as int <= 0x7FFF_FFFF_FFFF_FFFFint;
        assert((s as int) < 0x100_0000_0000) by (nonlinear_arith)
            requires
                s as int >= 0,
                (s as int) * (s as int) <= n as int,
                (n as int) < 0x100_0000_0000int * 0x100_0000_0000int;
    }
    s as i64
}

/// Euclidean (floor) division on `i64`, for a positive divisor. This is
/// the `/` of specifications, which truncating division does not match on
/// negative dividends.
pub fn floor_div_i64(n: i64, d: i64) -> (q: i64)
    requires
        d > 0,
        n > i64::MIN,
    ensures
        q as int == (n as int) / (d as int),
{
    if n >= 0 {
        let qq: u64 = (n as u64) / (d as u64);
        proof {
            lemma_div_pos_is_pos(n as int, d as int);
            lemma_div_nonincreasing(n as int, d as int);
        }
        qq as i64
    } else {
        let m: u64 = (-n) as u64;
        let dd: u64 = d as u64;
        let qq: u64 = (m + (dd - 1)) / dd;
        proof {
            let mi = m as int;
            let di = d as int;
            lemma_fundamental_div_mod(mi, di);
            let q0 = mi / di;
            let r0 = mi % di;
            lemma_div_pos_is_pos(mi, di);
            if r0 == 0 {
                // ceil(m/d) == m/d, and -m == d * (-q0) + 0
                assert(mi + di - 1 == q0 * di + (di - 1)) by (nonlinear_arith)
                    requires mi == di * q0 + r0, r0 == 0;
                lemma_fundamental_div_mod_converse_div(mi + di - 1, di, q0, di - 1);
                assert(-mi == (-q0) * di + 0) by (nonlinear_arith)
                    requires mi == di * q0 + r0, r0 == 0;
                lemma_fundamental_div_mod_converse_div(-mi, di, -q0, 0);
            } else {
                // ceil(m/d) == m/d + 1, and -m == d * (-(q0 + 1)) + (d - r0)
                assert(mi + di - 1 == (q0 + 1) * di + (r0 - 1)) by (nonlinear_arith)
                    requires mi == di * q0 + r0;
                lemma_fundamental_div_mod_converse_div(mi + di - 1, di, q0 + 1, r0 - 1);
                assert(-mi == (-(q0 + 1)) * di + (di - r0)) by (nonlinear_arith)
                    requires mi == di * q0 + r0;
                lemma_fundamental_div_mod_converse_div(-mi, di, -(q0 + 1), di - r0);
            }
            // the quotient fits back in i64: ceil(m/d) <= m
            assert(mi + di - 1 <= mi * di) by (nonlinear_arith)
                requires di >= 1, mi >= 1;
            lemma_div_is_ordered(mi + di - 1, mi * di, di);
            lemma_div_by_multiple(mi, di);
        }
        -((qq) as i64)
    }
}

} // verus!
