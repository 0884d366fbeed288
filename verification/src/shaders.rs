//! Material behaviors: color programs, path programs, and the
//! participating-media march.
//!
//! A color program is a pure function of its intersection. A path program
//! consumes randomness; its contract states what holds of every outcome:
//! deterministic programs (mirror, refraction, pass-through) are pinned
//! exactly, sampled ones are pinned to the stated shape (origin offset off
//! the surface, direction in the normal's hemisphere).

use vstd::prelude::*;
use crate::fixed::{
    tdiv, fmul, fdiv, fsqrt, FX_ONE, EPSILON, FX_COORD_MAX, FX_VEC_MAX,
    fx_mul, fx_div, fx_sqrt, floor_div_i64,
    lemma_tdiv_bound, lemma_tdiv_mul_exact, lemma_fmul_bound, lemma_tdiv_div_bound,
    lemma_sqrt_floor_bounds,
};
use crate::vec3::{
    Vec3, v3, vadd, vsub, vneg, vdot, vsmul, vbounded, vnormal, vlen,
    lemma_vdot_self_nonneg, lemma_vdot_neg, lemma_vdot_neg_left, lemma_vnormal_neg,
    lemma_vdot_bound, lemma_vsmul_bound,
};
use crate::color3f::{c3};
use crate::raytracer::{
    Ray, ray_wf, RayIsect, IsectFrom, Primitive, Scene, ColorProgram, ColorProgramResult,
    color_result_wf, PathProgram, accept_dist, hit_pos_spec, isect_normal_spec,
    DensityModel, VacuumProgram, VacuumAction,
};
use crate::fixed::{exp2_fx, exp2_fx_exec};
use crate::rng::Rng;
use vstd::arithmetic::div_mod::lemma_fundamental_div_mod;

verus! {

/// The cell parity of a point on the checkered floor: the whole-unit
/// cells of x and z, summed.
pub open spec fn checker_parity(p: (int, int, int)) -> int {
    (p.0 / (FX_ONE as int) + p.2 / (FX_ONE as int)) % 2
}

/// What a color program returns at an intersection; pure, no randomness.
pub open spec fn eval_color_spec(cp: ColorProgram, isect: RayIsect) -> ColorProgramResult {
    match cp {
        ColorProgram::Uniform { transmissive, emissive } =>
            ColorProgramResult { transmissive, emissive },
        ColorProgram::Checker { even, odd } => {
            if checker_parity(hit_pos_spec(isect)) == 0 {
                even
            } else {
                odd
            }
        },
    }
}

pub fn eval_color_program(cp: &ColorProgram, isect: &RayIsect) -> (r: ColorProgramResult)
    requires
        ray_wf(isect.ray),
        accept_dist(isect.dist as int),
        cp.wf(),
    ensures
        r == eval_color_spec(*cp, *isect),
        color_result_wf(r),
{
    match cp {
        ColorProgram::Uniform { transmissive, emissive } => ColorProgramResult {
            transmissive: *transmissive,
            emissive: *emissive,
        },
        ColorProgram::Checker { even, odd } => {
            let hp = isect.hit_pos();
            let cx = floor_div_i64(hp.x, FX_ONE);
            let cz = floor_div_i64(hp.z, FX_ONE);
            let s: i64 = cx + cz;
            let par: i64 = s - 2 * floor_div_i64(s, 2);
            proof {
                lemma_fundamental_div_mod(s as int, 2);
            }
            if par == 0 {
                *even
            } else {
                *odd
            }
        },
    }
}

/// A candidate direction, normalized; a degenerate (too short) candidate
/// falls back to the given alternative.
pub open spec fn unit_or(cand: (int, int, int), alt: (int, int, int)) -> (int, int, int) {
    if vdot(cand, cand) >= 16 {
        vnormal(cand)
    } else {
        alt
    }
}

fn normalize_dir_or(cand: &Vec3, alt: &Vec3) -> (r: Vec3)
    requires
        vbounded(v3(*cand), FX_VEC_MAX as int),
        vbounded(v3(*alt), 4 * (FX_ONE as int)),
    ensures
        v3(r) == unit_or(v3(*cand), v3(*alt)),
        vbounded(v3(r), 4 * (FX_ONE as int)),
{
    let dd = cand.dot(cand);
    if dd >= 16 {
        cand.normal()
    } else {
        *alt
    }
}

/// The flip that folds a random direction into a surface's hemisphere.
pub fn flip_vector_to_hemisphere(flipee: &Vec3, norm: &Vec3) -> (r: Vec3)
    requires
        vbounded(v3(*flipee), FX_VEC_MAX as int),
        vbounded(v3(*norm), FX_VEC_MAX as int),
    ensures
        v3(r) == (if vdot(v3(*flipee), v3(*norm)) > 0 {
            v3(*flipee)
        } else {
            vneg(v3(*flipee))
        }),
        vdot(v3(r), v3(*norm)) >= 0,
{
    let d = flipee.dot(norm);
    if d > 0 {
        *flipee
    } else {
        proof {
            lemma_vdot_neg_left(v3(*flipee), v3(*norm));
        }
        flipee.neg()
    }
}

/// A random direction over the whole sphere: rejection-sample a point of
/// acceptable length in the unit ball, normalized. The attempt count is
/// bounded; if every draw lands outside the acceptance band, the draw
/// falls back to a fixed axis, which is its own normalization.
pub fn random_normal(rng: &mut Rng) -> (r: Vec3)
    ensures
        vbounded(v3(r), 2 * (FX_ONE as int)),
        exists|v: (int, int, int)| v3(r) == vnormal(v) && 16 <= vdot(v, v),
{
    let mut attempts: usize = 0;
    while attempts < 64
        invariant
            attempts <= 64,
        decreases 64 - attempts,
    {
        let x: i64 = FX_ONE - 2 * rng.gen_unit();
        let y: i64 = FX_ONE - 2 * rng.gen_unit();
        let z: i64 = FX_ONE - 2 * rng.gen_unit();
        let v = Vec3 { x, y, z };
        let d = v.dot(&v);
        if 4096 <= d && d <= FX_ONE {
            let n = v.normal();
            proof {
                assert(v3(n) == vnormal(v3(v)) && 16 <= vdot(v3(v), v3(v)));
            }
            return n;
        }
        attempts = attempts + 1;
    }
    let up = Vec3 { x: 0, y: FX_ONE, z: 0 };
    proof {
        lemma_unit_axis_is_normal();
    }
    up
}

/// The fixed fallback axis is exactly its own normalization.
proof fn lemma_unit_axis_is_normal()
    ensures
        vnormal((0int, FX_ONE as int, 0int)) == (0int, FX_ONE as int, 0int),
        vdot((0int, FX_ONE as int, 0int), (0int, FX_ONE as int, 0int)) == FX_ONE as int,
{
    let s = FX_ONE as int;
    let a = (0int, s, 0int);
    assert(0int * 0 + s * s + 0 * 0 == s * s) by (nonlinear_arith);
    lemma_tdiv_mul_exact(s, s);
    assert(vdot(a, a) == s);
    lemma_sqrt_floor_bounds(s * s);
    crate::fixed::lemma_sqrt_floor_unique(s * s, s);
    assert(vlen(a) == s);
    assert(fdiv(s, s) == tdiv(s * s, s));
    assert(fmul(0, s) == tdiv(0 * s, s));
    assert(0int * s == 0) by (nonlinear_arith);
    assert(tdiv(0, s) == 0);
    assert(fmul(s, s) == tdiv(s * s, s));
}

/// A random direction in the hemisphere about `norm`.
pub fn random_vector_in_hemisphere(norm: &Vec3, rng: &mut Rng) -> (r: Vec3)
    requires
        vbounded(v3(*norm), 4 * (FX_ONE as int)),
    ensures
        vbounded(v3(r), 2 * (FX_ONE as int)),
        vdot(v3(r), v3(*norm)) >= 0,
        exists|v: (int, int, int)| v3(r) == vnormal(v) && 16 <= vdot(v, v),
{
    let rn = random_normal(rng);
    let ghost w = choose|v: (int, int, int)| v3(rn) == vnormal(v) && 16 <= vdot(v, v);
    let flipped = flip_vector_to_hemisphere(&rn, norm);
    proof {
        if !(vdot(v3(rn), v3(*norm)) > 0) {
            lemma_vnormal_neg(w);
            lemma_vdot_neg(w);
            assert(v3(flipped) == vnormal(vneg(w)) && 16 <= vdot(vneg(w), vneg(w)));
        }
    }
    flipped
}

/// The common shape of every sampled bounce: origin an epsilon off the
/// surface along the normal, direction within the normal's hemisphere and
/// either the normalization of some acceptably long vector or the surface
/// normal itself (the fallback of an exhausted rejection loop).
pub open spec fn hemisphere_ray_shape(isect: RayIsect, prim: Primitive, r: Ray) -> bool {
    let n = isect_normal_spec(isect, prim);
    &&& v3(r.origin) == vadd(hit_pos_spec(isect), vsmul(n, EPSILON as int))
    &&& vdot(v3(r.dir), n) >= 0
    &&& vbounded(v3(r.dir), 4 * (FX_ONE as int))
    &&& (v3(r.dir) == n
        || exists|w: (int, int, int)| v3(r.dir) == vnormal(w) && 16 <= vdot(w, w))
}

/// A fresh hemisphere ray off an intersection's surface.
pub fn new_random_ray_from_isect(isect: &RayIsect, scene: &Scene, rng: &mut Rng) -> (r: Ray)
    requires
        isect.valid(scene.objs.len() as int),
        scene.wf(),
    ensures
        hemisphere_ray_shape(*isect, scene.objs[isect.obj_idx as int].prim, r),
{
    let last_isect_norm = isect.normal(scene);
    proof {
        lemma_vsmul_bound(v3(last_isect_norm), EPSILON as int, 262144, 7);
        lemma_tdiv_bound(262144int * 7, FX_ONE as int, 262144int * 7);
    }
    let ray_start_pos = isect.hit_pos().add(last_isect_norm.smul(EPSILON));
    let rand_dir = random_vector_in_hemisphere(&last_isect_norm, rng);
    Ray { origin: ray_start_pos, dir: rand_dir }
}

impl RayIsect {
    /// A fresh hemisphere ray off this intersection's surface.
    pub fn new_random_ray(&self, scene: &Scene, rng: &mut Rng) -> (r: Ray)
        requires
            self.valid(scene.objs.len() as int),
            scene.wf(),
        ensures
            hemisphere_ray_shape(*self, scene.objs[self.obj_idx as int].prim, r),
    {
        new_random_ray_from_isect(self, scene, rng)
    }
}

/// The mirror bounce: `d - 2 (d . n) n`, normalized, an epsilon off the
/// surface.
pub open spec fn mirror_ray_spec(isect: RayIsect, prim: Primitive)
    -> ((int, int, int), (int, int, int)) {
    let n = isect_normal_spec(isect, prim);
    let d = v3(isect.ray.dir);
    let reflect = vsub(d, vsmul(vsmul(n, vdot(d, n)), 2 * (FX_ONE as int)));
    (vadd(hit_pos_spec(isect), vsmul(n, EPSILON as int)), unit_or(reflect, n))
}

/// Whether a concrete ray matches a specified origin-direction pair.
pub open spec fn ray_is(r: Ray, pair: ((int, int, int), (int, int, int))) -> bool {
    v3(r.origin) == pair.0 && v3(r.dir) == pair.1
}

/// Bound bookkeeping shared by the reflection computations: the surface
/// normal is within four units, the ray direction too, so the reflected
/// direction stays well within the vector-operation bound.
proof fn lemma_reflect_bounds(d: (int, int, int), n: (int, int, int))
    requires
        vbounded(d, 4 * (FX_ONE as int)),
        vbounded(n, 4 * (FX_ONE as int)),
    ensures
        -3145728 <= vdot(d, n) <= 3145728,
        vbounded(vsmul(n, vdot(d, n)), 12582912),
        vbounded(vsmul(vsmul(n, vdot(d, n)), 2 * (FX_ONE as int)), 25165824),
        vbounded(vsub(d, vsmul(vsmul(n, vdot(d, n)), 2 * (FX_ONE as int))), 25427968),
{
    lemma_vdot_bound(d, n, 262144, 262144);
    assert(tdiv(3 * (262144int * 262144), FX_ONE as int) == 3145728) by {
        assert(3 * (262144int * 262144) == 3145728 * 65536) by (nonlinear_arith);
        lemma_tdiv_mul_exact(3145728, 65536);
    };
    lemma_vsmul_bound(n, vdot(d, n), 262144, 3145728);
    assert(tdiv(262144int * 3145728, FX_ONE as int) == 12582912) by {
        assert(262144int * 3145728 == 12582912 * 65536) by (nonlinear_arith);
        lemma_tdiv_mul_exact(12582912, 65536);
    };
    lemma_vsmul_bound(vsmul(n, vdot(d, n)), 2 * (FX_ONE as int), 12582912, 131072);
    assert(tdiv(12582912int * 131072, FX_ONE as int) == 25165824) by {
        assert(12582912int * 131072 == 25165824 * 65536) by (nonlinear_arith);
        lemma_tdiv_mul_exact(25165824, 65536);
    };
}

/// The mirror path program: always bounces, into the exact reflection.
pub fn mirror_pp(isect: &RayIsect, scene: &Scene, rng: &mut Rng) -> (r: Option<Ray>)
    requires
        isect.valid(scene.objs.len() as int),
        scene.wf(),
    ensures
        r matches Some(ray)
            && ray_is(ray, mirror_ray_spec(*isect, scene.objs[isect.obj_idx as int].prim)),
{
    let isect_normal = isect.normal(scene);
    let isect_pos = isect.hit_pos();
    proof {
        lemma_reflect_bounds(v3(isect.ray.dir), v3(isect_normal));
        lemma_vsmul_bound(v3(isect_normal), EPSILON as int, 262144, 7);
        lemma_tdiv_bound(262144int * 7, FX_ONE as int, 262144int * 7);
    }
    let dn = isect.ray.dir.dot(&isect_normal);
    let reflect = isect.ray.dir.sub(isect_normal.smul(dn).smul(2 * FX_ONE));
    let dir = normalize_dir_or(&reflect, &isect_normal);
    Some(Ray { origin: isect_pos.add(isect_normal.smul(EPSILON)), dir })
}

/// The pass-through path program: continue along the same direction, an
/// epsilon past the surface.
pub open spec fn transparent_ray_spec(isect: RayIsect) -> ((int, int, int), (int, int, int)) {
    (vadd(hit_pos_spec(isect), vsmul(v3(isect.ray.dir), EPSILON as int)), v3(isect.ray.dir))
}

pub fn transparent_pp(isect: &RayIsect, scene: &Scene) -> (r: Option<Ray>)
    requires
        isect.valid(scene.objs.len() as int),
        scene.wf(),
    ensures
        r matches Some(ray) && ray_is(ray, transparent_ray_spec(*isect)),
{
    proof {
        lemma_vsmul_bound(v3(isect.ray.dir), EPSILON as int, 262144, 7);
        lemma_tdiv_bound(262144int * 7, FX_ONE as int, 262144int * 7);
    }
    let origin = isect.hit_pos().add(isect.ray.dir.smul(EPSILON));
    Some(Ray { origin, dir: isect.ray.dir })
}

/// The absorbing path program: every path ends here.
pub fn end_pp(isect: &RayIsect, scene: &Scene, rng: &mut Rng) -> (r: Option<Ray>)
    ensures
        r is None,
{
    None
}

/// The diffuse path program: a cosine-weighted bounce about the surface
/// normal, by rejection against a uniform draw; after the bounded number
/// of attempts the bounce falls back to the normal itself, which lies in
/// its own hemisphere.
pub fn diffuse_pp(isect: &RayIsect, scene: &Scene, rng: &mut Rng) -> (r: Option<Ray>)
    requires
        isect.valid(scene.objs.len() as int),
        scene.wf(),
    ensures
        r matches Some(ray)
            && hemisphere_ray_shape(*isect, scene.objs[isect.obj_idx as int].prim, ray),
{
    let norm = isect.normal(scene);
    proof {
        lemma_vsmul_bound(v3(norm), EPSILON as int, 262144, 7);
        lemma_tdiv_bound(262144int * 7, FX_ONE as int, 262144int * 7);
    }
    let origin = isect.hit_pos().add(norm.smul(EPSILON));
    let mut attempts: usize = 0;
    while attempts < 64
        invariant
            attempts <= 64,
            isect.valid(scene.objs.len() as int),
            scene.wf(),
            vbounded(v3(norm), 4 * (FX_ONE as int)),
            v3(norm) == isect_normal_spec(*isect, scene.objs[isect.obj_idx as int].prim),
            v3(origin) == vadd(hit_pos_spec(*isect), vsmul(v3(norm), EPSILON as int)),
        decreases 64 - attempts,
    {
        let new_ray_dir = random_vector_in_hemisphere(&norm, rng);
        let cosine = new_ray_dir.dot(&norm);
        if rng.gen_unit() < cosine {
            return Some(Ray { origin, dir: new_ray_dir });
        }
        attempts = attempts + 1;
    }
    proof {
        lemma_vdot_self_nonneg(v3(norm));
    }
    Some(Ray { origin, dir: norm })
}

/// The refracted direction before renormalization: `r d + (r c1 - c2) n`
/// with `r` the index ratio, or nothing under total internal reflection
/// (a negative radicand).
pub open spec fn refract_dir_raw(d: (int, int, int), norm: (int, int, int), n1: int,
    n2: int) -> Option<(int, int, int)> {
    let r = fdiv(n1, n2);
    let c1 = -vdot(norm, d);
    let radicand = (FX_ONE as int) - fmul(fmul(r, r), (FX_ONE as int) - fmul(c1, c1));
    if radicand >= 0 {
        let c2 = fsqrt(radicand);
        Some(vadd(vsmul(d, r), vsmul(norm, fmul(r, c1) - c2)))
    } else {
        None
    }
}

/// The refraction bounce: with incident and transmitted indices picked by
/// the side of the surface, the refracted direction an epsilon past the
/// surface; total internal reflection falls back to the mirror bounce.
pub open spec fn refract_ray_spec(isect: RayIsect, prim: Primitive, index: int)
    -> ((int, int, int), (int, int, int)) {
    let nsurf = isect_normal_spec(isect, prim);
    let d = v3(isect.ray.dir);
    let norm = if isect.from is Outside { nsurf } else { vneg(nsurf) };
    let n1 = if isect.from is Outside { FX_ONE as int } else { index };
    let n2 = if isect.from is Outside { index } else { FX_ONE as int };
    match refract_dir_raw(d, norm, n1, n2) {
        Some(refr) => (vsub(hit_pos_spec(isect), vsmul(norm, EPSILON as int)),
            unit_or(refr, norm)),
        None => mirror_ray_spec(isect, prim),
    }
}

/// Law: refraction at normal incidence is undeviated. Entering a surface
/// head-on (the direction exactly opposite an exactly-unit normal) from
/// index one, the refracted direction reproduces the incoming direction
/// to within one fixed-point ulp per component, before renormalization,
/// whatever the transmitted index.
pub proof fn lemma_refraction_normal_incidence(norm: (int, int, int), index: int)
    requires
        norm.0 * norm.0 + norm.1 * norm.1 + norm.2 * norm.2
            == (FX_ONE as int) * (FX_ONE as int),
    ensures
        ({
            let d = vneg(norm);
            refract_dir_raw(d, norm, FX_ONE as int, index) matches Some(refr)
                && -1 <= refr.0 - d.0 <= 1
                && -1 <= refr.1 - d.1 <= 1
                && -1 <= refr.2 - d.2 <= 1
        }),
{
    let s = FX_ONE as int;
    let d = vneg(norm);
    let r = fdiv(s, index);
    // c1 is exactly one whole unit
    assert(norm.0 * (-norm.0) + norm.1 * (-norm.1) + norm.2 * (-norm.2) == -(s * s))
        by (nonlinear_arith)
        requires norm.0 * norm.0 + norm.1 * norm.1 + norm.2 * norm.2 == s * s;
    crate::fixed::lemma_tdiv_neg(s * s, s);
    lemma_tdiv_mul_exact(s, s);
    assert(vdot(norm, d) == -s);
    let c1 = s;
    // the radicand collapses to one whole unit
    assert(fmul(c1, c1) == s) by {
        lemma_tdiv_mul_exact(s, s);
    };
    assert(fmul(fmul(r, r), 0) == 0) by {
        assert(fmul(r, r) * 0 == 0) by (nonlinear_arith);
        assert(tdiv(0, s) == 0);
    };
    // its square root is one whole unit
    assert(fsqrt(s) == s) by {
        crate::fixed::lemma_sqrt_floor_unique(s * s, s);
    };
    // r * c1 is exactly r again
    assert(fmul(r, s) == r) by {
        lemma_tdiv_mul_exact(r, s);
    };
    crate::fixed::lemma_refract_component_ulp(norm.0, r);
    crate::fixed::lemma_refract_component_ulp(norm.1, r);
    crate::fixed::lemma_refract_component_ulp(norm.2, r);
}

/// The glass path program: reflect with the given chance, else refract.
pub fn glass_pp(isect: &RayIsect, scene: &Scene, rng: &mut Rng, reflect_chance: i64,
    index: i64) -> (r: Option<Ray>)
    requires
        isect.valid(scene.objs.len() as int),
        scene.wf(),
        0 <= reflect_chance <= FX_ONE,
        FX_ONE / 2 <= index <= 4 * FX_ONE,
    ensures
        r matches Some(ray)
            && (ray_is(ray, mirror_ray_spec(*isect, scene.objs[isect.obj_idx as int].prim))
                || ray_is(ray, refract_ray_spec(*isect,
                    scene.objs[isect.obj_idx as int].prim, index as int))),
        // a zero chance always refracts, a certain one always reflects
        reflect_chance <= 0 ==> (r matches Some(ray)
            && ray_is(ray, refract_ray_spec(*isect,
                scene.objs[isect.obj_idx as int].prim, index as int))),
        reflect_chance >= FX_ONE ==> (r matches Some(ray)
            && ray_is(ray, mirror_ray_spec(*isect, scene.objs[isect.obj_idx as int].prim))),
{
    let die = rng.gen_unit();
    if die < reflect_chance {
        mirror_pp(isect, scene, rng)
    } else {
        let nsurf = isect.normal(scene);
        let norm: Vec3;
        let n1: i64;
        let n2: i64;
        match isect.from {
            IsectFrom::Outside => {
                n1 = FX_ONE;
                n2 = index;
                norm = nsurf;
            },
            IsectFrom::Inside => {
                n1 = index;
                n2 = FX_ONE;
                norm = nsurf.neg();
            },
        }
        let rr = fx_div(n1, n2);
        proof {
            lemma_tdiv_div_bound((n1 as int) * (FX_ONE as int), n2 as int, 32768, 524288);
            assert((n1 as int) * (FX_ONE as int) <= 524288int * 32768) by (nonlinear_arith)
                requires n1 as int <= 262144;
            assert(-(524288int * 32768) <= (n1 as int) * (FX_ONE as int)) by (nonlinear_arith)
                requires 0 <= n1 as int;
            lemma_vdot_bound(v3(norm), v3(isect.ray.dir), 262144, 262144);
            assert(tdiv(3 * (262144int * 262144), FX_ONE as int) == 3145728) by {
                assert(3 * (262144int * 262144) == 3145728 * 65536) by (nonlinear_arith);
                lemma_tdiv_mul_exact(3145728, 65536);
            };
        }
        let c1: i64 = -(norm.dot(&isect.ray.dir));
        proof {
            lemma_fmul_bound(c1 as int, c1 as int, 3145728, 3145728);
            assert(tdiv(3145728int * 3145728, FX_ONE as int) == 150994944) by {
                assert(3145728int * 3145728 == 150994944 * 65536) by (nonlinear_arith);
                lemma_tdiv_mul_exact(150994944, 65536);
            };
            lemma_fmul_bound(rr as int, rr as int, 524288, 524288);
            assert(tdiv(524288int * 524288, FX_ONE as int) == 4194304) by {
                assert(524288int * 524288 == 4194304 * 65536) by (nonlinear_arith);
                lemma_tdiv_mul_exact(4194304, 65536);
            };
        }
        let cc = fx_mul(c1, c1);
        let rr2 = fx_mul(rr, rr);
        let one_minus: i64 = FX_ONE - cc;
        proof {
            lemma_fmul_bound(rr2 as int, one_minus as int, 4194304, 151060480);
            assert(tdiv(4194304int * 151060480, FX_ONE as int) == 9667870720) by {
                assert(4194304int * 151060480 == 9667870720 * 65536) by (nonlinear_arith);
                lemma_tdiv_mul_exact(9667870720, 65536);
            };
        }
        let term = fx_mul(rr2, one_minus);
        let radicand: i64 = FX_ONE - term;
        if radicand >= 0 {
            let c2 = fx_sqrt(radicand);
            proof {
                lemma_sqrt_floor_bounds((radicand as int) * (FX_ONE as int));
                assert((radicand as int) * (FX_ONE as int)
                    < 33554432int * 33554432) by (nonlinear_arith)
                    requires 0 <= radicand as int <= 9667936256;
                assert((c2 as int) < 33554432) by (nonlinear_arith)
                    requires
                        c2 as int >= 0,
                        (c2 as int) * (c2 as int) <= (radicand as int) * (FX_ONE as int),
                        (radicand as int) * (FX_ONE as int) < 33554432int * 33554432;
                lemma_fmul_bound(rr as int, c1 as int, 524288, 3145728);
                assert(tdiv(524288int * 3145728, FX_ONE as int) == 25165824) by {
                    assert(524288int * 3145728 == 25165824 * 65536) by (nonlinear_arith);
                    lemma_tdiv_mul_exact(25165824, 65536);
                };
            }
            let rc1 = fx_mul(rr, c1);
            let s2: i64 = rc1 - c2;
            proof {
                lemma_vsmul_bound(v3(isect.ray.dir), rr as int, 262144, 524288);
                assert(tdiv(262144int * 524288, FX_ONE as int) == 2097152) by {
                    assert(262144int * 524288 == 2097152 * 65536) by (nonlinear_arith);
                    lemma_tdiv_mul_exact(2097152, 65536);
                };
                lemma_vsmul_bound(v3(norm), s2 as int, 262144, 58720256);
                assert(tdiv(262144int * 58720256, FX_ONE as int) == 234881024) by {
                    assert(262144int * 58720256 == 234881024 * 65536) by (nonlinear_arith);
                    lemma_tdiv_mul_exact(234881024, 65536);
                };
                lemma_vsmul_bound(v3(norm), EPSILON as int, 262144, 7);
                lemma_tdiv_bound(262144int * 7, FX_ONE as int, 262144int * 7);
            }
            let t1 = isect.ray.dir.smul(rr);
            let t2 = norm.smul(s2);
            let refr = t1.add(t2);
            let dir = normalize_dir_or(&refr, &norm);
            let origin = isect.hit_pos().sub(norm.smul(EPSILON));
            Some(Ray { origin, dir })
        } else {
            mirror_pp(isect, scene, rng)
        }
    }
}

/// The part-mirror path program: mirror with the given chance, else
/// diffuse.
pub fn semi_mirror_pp(isect: &RayIsect, scene: &Scene, rng: &mut Rng, mirror_chance: i64)
    -> (r: Option<Ray>)
    requires
        isect.valid(scene.objs.len() as int),
        scene.wf(),
        0 <= mirror_chance <= FX_ONE,
    ensures
        r matches Some(ray)
            && (ray_is(ray, mirror_ray_spec(*isect, scene.objs[isect.obj_idx as int].prim))
                || hemisphere_ray_shape(*isect, scene.objs[isect.obj_idx as int].prim, ray)),
        // a zero chance always bounces diffusely, a certain one always mirrors
        mirror_chance <= 0 ==> (r matches Some(ray)
            && hemisphere_ray_shape(*isect, scene.objs[isect.obj_idx as int].prim, ray)),
        mirror_chance >= FX_ONE ==> (r matches Some(ray)
            && ray_is(ray, mirror_ray_spec(*isect, scene.objs[isect.obj_idx as int].prim))),
{
    let die = rng.gen_unit();
    if die < mirror_chance {
        mirror_pp(isect, scene, rng)
    } else {
        diffuse_pp(isect, scene, rng)
    }
}

/// What the forward-biased scatter of a participating medium returns,
/// for every draw: from the scatter point itself, the incoming direction
/// stretched by up to ten units, blended with a random direction in its
/// forward hemisphere, normalized.
pub open spec fn fog_ray_ok(isect: RayIsect, r: Ray) -> bool {
    let d = v3(isect.ray.dir);
    &&& v3(r.origin) == hit_pos_spec(isect)
    &&& vbounded(v3(r.dir), 4 * (FX_ONE as int))
    &&& exists|stretch: int, rv: (int, int, int)|
        0 <= stretch <= 10 * (FX_ONE as int)
        && vdot(rv, d) >= 0
        && vbounded(rv, 2 * (FX_ONE as int))
        && #[trigger] v3(r.dir) == unit_or(vadd(vsmul(d, stretch), rv), d)
}

pub fn fog_scatter_pp(isect: &RayIsect, scene: &Scene, rng: &mut Rng) -> (r: Option<Ray>)
    requires
        isect.valid(scene.objs.len() as int),
        scene.wf(),
    ensures
        r matches Some(ray) && fog_ray_ok(*isect, ray),
{
    let hp = isect.hit_pos();
    let u = rng.gen_unit();
    proof {
        crate::fixed::lemma_fmul_unit_bound(10 * (FX_ONE as int), u as int);
        lemma_vsmul_bound(v3(isect.ray.dir), fmul(10 * (FX_ONE as int), u as int),
            262144, 655360);
        lemma_tdiv_bound(262144int * 655360, FX_ONE as int, 262144int * 655360);
    }
    let stretch = fx_mul(10 * FX_ONE, u);
    let fwd = isect.ray.dir.smul(stretch);
    let rv = random_vector_in_hemisphere(&isect.ray.dir, rng);
    let cand = fwd.add(rv);
    let dir = normalize_dir_or(&cand, &isect.ray.dir);
    proof {
        assert(0 <= stretch as int <= 10 * (FX_ONE as int)
            && vdot(v3(rv), v3(isect.ray.dir)) >= 0
            && vbounded(v3(rv), 2 * (FX_ONE as int))
            && v3(dir) == unit_or(vadd(vsmul(v3(isect.ray.dir), stretch as int), v3(rv)),
                v3(isect.ray.dir)));
    }
    Some(Ray { origin: hp, dir })
}

/// What each path program promises of its result, for every draw of
/// randomness.
pub open spec fn path_program_ok(pp: PathProgram, isect: RayIsect, prim: Primitive,
    r: Option<Ray>) -> bool {
    match pp {
        PathProgram::End => r is None,
        PathProgram::Mirror => r matches Some(ray) && ray_is(ray, mirror_ray_spec(isect, prim)),
        PathProgram::Diffuse => r matches Some(ray) && hemisphere_ray_shape(isect, prim, ray),
        PathProgram::SemiMirror { .. } => r matches Some(ray)
            && (ray_is(ray, mirror_ray_spec(isect, prim))
                || hemisphere_ray_shape(isect, prim, ray)),
        PathProgram::Glass { index, .. } => r matches Some(ray)
            && (ray_is(ray, mirror_ray_spec(isect, prim))
                || ray_is(ray, refract_ray_spec(isect, prim, index as int))),
        PathProgram::Transparent => r matches Some(ray)
            && ray_is(ray, transparent_ray_spec(isect)),
        PathProgram::RandomBounce => r matches Some(ray)
            && hemisphere_ray_shape(isect, prim, ray),
        PathProgram::FogScatter => r matches Some(ray) && fog_ray_ok(isect, ray),
    }
}

/// Run the hit object's path program: the interpreter over the material's
/// behavior slot.
pub fn eval_path_program(isect: &RayIsect, scene: &Scene, rng: &mut Rng) -> (r: Option<Ray>)
    requires
        isect.valid(scene.objs.len() as int),
        scene.wf(),
    ensures
        path_program_ok(scene.objs[isect.obj_idx as int].mat.path_program, *isect,
            scene.objs[isect.obj_idx as int].prim, r),
{
    let pp = scene.objs[isect.obj_idx].mat.path_program;
    match pp {
        PathProgram::End => end_pp(isect, scene, rng),
        PathProgram::Mirror => mirror_pp(isect, scene, rng),
        PathProgram::Diffuse => diffuse_pp(isect, scene, rng),
        PathProgram::SemiMirror { mirror_chance } =>
            semi_mirror_pp(isect, scene, rng, mirror_chance),
        PathProgram::Glass { reflect_chance, index } =>
            glass_pp(isect, scene, rng, reflect_chance, index),
        PathProgram::Transparent => transparent_pp(isect, scene),
        PathProgram::RandomBounce => Some(isect.new_random_ray(scene, rng)),
        PathProgram::FogScatter => fog_scatter_pp(isect, scene, rng),
    }
}

/// The scatter chance of a density model at a point, capped at one; the
/// exponent of the falloff model is clamped to the representable range
/// first.
pub open spec fn density_at(dm: DensityModel, p: (int, int, int)) -> int {
    match dm {
        DensityModel::Uniform { prob } => prob as int,
        DensityModel::AboveY { y, prob } => if p.1 > y { prob as int } else { 0 },
        DensityModel::Exp { center, k, a } => {
            let dist = vlen(vsub(p, v3(center)));
            let e = fmul(k as int, dist) + a;
            let ec = if e < -2097152 { -2097152int } else if e > 1048576 { 1048576int } else { e };
            let x = exp2_fx(ec);
            if x > FX_ONE { FX_ONE as int } else { x }
        },
    }
}

/// The scatter chance at a sampled point along a marched segment.
pub fn eval_density(dm: &DensityModel, point: &Vec3) -> (r: i64)
    requires
        dm.wf(),
        vbounded(v3(*point), 0x4_0000_0000),
    ensures
        r as int == density_at(*dm, v3(*point)),
        0 <= r <= FX_ONE,
{
    match dm {
        DensityModel::Uniform { prob } => *prob,
        DensityModel::AboveY { y, prob } => {
            if point.y > *y {
                *prob
            } else {
                0
            }
        },
        DensityModel::Exp { center, k, a } => {
            let off = point.sub(*center);
            let dist = off.length();
            proof {
                let ov = vsub(v3(*point), v3(*center));
                let m = 0x4_8000_0000int;
                lemma_vdot_self_nonneg(ov);
                lemma_vdot_bound(ov, ov, m, m);
                assert(3 * (m * m) == 17099604835172352int * 65536) by (nonlinear_arith)
                    requires m == 0x4_8000_0000int;
                lemma_tdiv_mul_exact(17099604835172352int, 65536);
                lemma_sqrt_floor_bounds(vdot(ov, ov) * (FX_ONE as int));
                assert(vdot(ov, ov) * (FX_ONE as int)
                    < 0x8_0000_0000int * 0x8_0000_0000int) by (nonlinear_arith)
                    requires 0 <= vdot(ov, ov) <= 17099604835172352int;
                assert((dist as int) < 0x8_0000_0000int) by (nonlinear_arith)
                    requires
                        dist as int >= 0,
                        (dist as int) * (dist as int) <= vdot(ov, ov) * (FX_ONE as int),
                        vdot(ov, ov) * (FX_ONE as int) < 0x8_0000_0000int * 0x8_0000_0000int;
                lemma_fmul_bound(*k as int, dist as int, FX_COORD_MAX as int,
                    0x8_0000_0000);
                assert((FX_COORD_MAX as int) * 0x8_0000_0000
                    == 0x4_0000_0000_0000int * 65536) by (nonlinear_arith)
                    requires FX_COORD_MAX == 0x8000_0000i64;
                lemma_tdiv_mul_exact(0x4_0000_0000_0000int, 65536);
            }
            let e: i64 = fx_mul(*k, dist) + *a;
            let ec: i64 = if e < -2097152 {
                -2097152
            } else if e > 1048576 {
                1048576
            } else {
                e
            };
            let x = exp2_fx_exec(ec);
            if x > FX_ONE {
                FX_ONE
            } else {
                x
            }
        },
    }
}

/// What a vacuum program may decide of one raw intersection: every
/// outcome either continues, or substitutes a scatter strictly inside
/// the marched segment (an epsilon clear of both ends), on the program's
/// dedicated scatter object.
pub open spec fn vacuum_outcome_ok(vp: VacuumProgram, isect: RayIsect, r: VacuumAction)
    -> bool {
    match r {
        VacuumAction::Continue => true,
        VacuumAction::Scatter(s) => {
            &&& s.ray == isect.ray
            &&& s.obj_idx == vp.scatter_obj
            &&& s.from is Outside
            &&& EPSILON < s.dist < isect.dist - EPSILON
        },
    }
}

/// Inputs on which every draw of the march must scatter: the march
/// applies to this side, the density is saturated, the step clears the
/// epsilon band, and at least two whole steps fit inside the segment.
pub open spec fn vacuum_certain(vp: VacuumProgram, isect: RayIsect) -> bool {
    &&& !vp.only_inside || isect.from is Inside
    &&& vp.density matches DensityModel::Uniform { prob } && prob == FX_ONE
    &&& EPSILON < vp.segment_len
    &&& 2 * vp.segment_len <= isect.dist - EPSILON
}

/// March the segment from the ray origin to the hit in steps of the
/// program's segment length, testing the density at a random point of
/// each step; on success, substitute a synthetic scatter intersection at
/// the sampled distance.
pub fn eval_vacuum_program(vp: &VacuumProgram, isect: &RayIsect, rng: &mut Rng)
    -> (r: VacuumAction)
    requires
        0 < vp.segment_len <= FX_COORD_MAX,
        vp.density.wf(),
        ray_wf(isect.ray),
        accept_dist(isect.dist as int),
    ensures
        vacuum_outcome_ok(*vp, *isect, r),
        vacuum_certain(*vp, *isect) ==> r is Scatter,
{
    if vp.only_inside {
        match isect.from {
            IsectFrom::Outside => {
                return VacuumAction::Continue;
            },
            IsectFrom::Inside => {},
        }
    }
    let mut p: i64 = 0;
    while p < isect.dist
        invariant
            0 <= p,
            0 < vp.segment_len <= FX_COORD_MAX,
            vp.density.wf(),
            ray_wf(isect.ray),
            accept_dist(isect.dist as int),
            vacuum_certain(*vp, *isect) ==> p == 0 || p == vp.segment_len,
        decreases
            (if isect.dist - p >= 0 { isect.dist - p } else { 0 }) as int,
    {
        let u = rng.gen_unit();
        proof {
            let seg = vp.segment_len as int;
            lemma_fmul_bound(seg, u as int, FX_COORD_MAX as int, 65535);
            assert(0 <= seg * (u as int) <= seg * (FX_ONE as int)) by (nonlinear_arith)
                requires 0 < seg, 0 <= u as int, (u as int) < FX_ONE as int;
            crate::fixed::lemma_tdiv_monotone(seg * (u as int), seg * (FX_ONE as int),
                FX_ONE as int);
            crate::fixed::lemma_tdiv_monotone(0, seg * (u as int), FX_ONE as int);
            crate::fixed::lemma_tdiv_mul_exact(seg, FX_ONE as int);
        }
        let jitter = fx_mul(vp.segment_len, u);
        let sample_dist: i64 = p + jitter;
        if sample_dist >= isect.dist - EPSILON {
            proof {
                if vacuum_certain(*vp, *isect) {
                    // the cursor never passes one segment and the jitter
                    // stays below another, so the sample sits strictly
                    // inside the segment
                    crate::fixed::lemma_fmul_below_left(vp.segment_len as int, u as int);
                    assert(false);
                }
            }
            return VacuumAction::Continue;
        }
        proof {
            lemma_vsmul_bound(v3(isect.ray.dir), sample_dist as int, 262144,
                FX_COORD_MAX as int);
            assert(tdiv(262144int * (FX_COORD_MAX as int), FX_ONE as int)
                == 0x2_0000_0000int) by {
                assert(262144int * (FX_COORD_MAX as int) == 0x2_0000_0000int * 65536)
                    by (nonlinear_arith)
                    requires FX_COORD_MAX == 0x8000_0000i64;
                lemma_tdiv_mul_exact(0x2_0000_0000int, 65536);
            };
        }
        let point = isect.ray.origin.add(isect.ray.dir.smul(sample_dist));
        let dens = eval_density(&vp.density, &point);
        if rng.gen_unit() < dens {
            if sample_dist > EPSILON {
                return VacuumAction::Scatter(RayIsect {
                    ray: isect.ray,
                    dist: sample_dist,
                    from: IsectFrom::Outside,
                    obj_idx: vp.scatter_obj,
                });
            }
            proof {
                if vacuum_certain(*vp, *isect) {
                    // past the first step the sample clears the epsilon
                    // band, so only the first step falls through
                    assert(p == 0);
                }
            }
        } else {
            proof {
                if vacuum_certain(*vp, *isect) {
                    // a saturated density always passes its draw
                    assert(false);
                }
            }
        }
        p = p + vp.segment_len;
    }
    proof {
        if vacuum_certain(*vp, *isect) {
            // the cursor never reaches the hit distance, so the march
            // cannot run out without scattering
            assert(false);
        }
    }
    VacuumAction::Continue
}

} // verus!
