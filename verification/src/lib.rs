//! A stochastic path-tracing renderer over fixed-point arithmetic.
//!
//! The engine here estimates per-pixel radiance by tracing bounded light
//! paths through a scene of spheres, triangles and planes whose surfaces
//! carry composable behavior slots (color, path, and optional
//! participating-media programs), accumulating the folded radiance into a
//! photon buffer, and compressing that buffer logarithmically for
//! display. Frames are meant to be rendered by several workers over
//! disjoint row ranges; the chunk arithmetic lives here and is proved a
//! partition, while thread spawning is the caller's concern. Randomness
//! enters only through an explicit per-worker generator.

pub mod color3f;
pub mod fixed;
pub mod quaternion;
pub mod raytracer;
pub mod rng;
pub mod shaders;
pub mod vec3;

use vstd::prelude::*;
use vstd::pervasive::VecAdditionalExecFns;
use crate::fixed::{
    tdiv, fmul, fdiv, FX_ONE, FX_COORD_MAX, fx_mul, fx_div,
    lemma_fmul_unit_bound, lemma_tdiv_bound, lemma_tdiv_div_bound, lemma_tdiv_mul_exact,
    lemma_tdiv_monotone, lemma_fmul_bound,
};
use crate::vec3::{Vec3, v3, vbounded, vdot, vnormal};
use crate::quaternion::{q4, qvmul};

use crate::color3f::{Color3f, c3, cadd, cmul, cbounded};
use crate::quaternion::Quaternion;
use crate::raytracer::{
    Ray, ray_wf, ray_wf_exec, RayIsect, Scene, SceneObj, Camera, RenderConfig,
    ColorProgramResult, VacuumAction, MAX_BOUNCES, EMISSIVE_MAX,
    find_first_intersection, nearest_hit, hits,
};
use crate::shaders::{
    eval_color_spec, eval_color_program, eval_path_program, eval_vacuum_program,
    path_program_ok, vacuum_outcome_ok,
};
use crate::rng::Rng;

verus! {

/// One traced light path: the bounded record of its intersections, plus
/// the slot for a cached first-hit color result.
pub struct Path {
    pub isects: Vec<RayIsect>,
    pub first_isect_color: Option<ColorProgramResult>,
}

impl Path {
    /// At most `MAX_BOUNCES` recorded intersections, each one valid
    /// against the scene.
    pub open spec fn wf(self, n_objs: int) -> bool {
        &&& self.isects.len() <= MAX_BOUNCES
        &&& forall|j: int| 0 <= j < self.isects.len()
            ==> (#[trigger] self.isects[j]).valid(n_objs)
    }

    pub fn new() -> (r: Path)
        ensures
            r.isects.len() == 0,
            r.first_isect_color is None,
    {
        Path { isects: Vec::new(), first_isect_color: None }
    }

    pub fn num_bounces(&self) -> (r: usize)
        ensures
            r == self.isects.len(),
    {
        self.isects.len()
    }
}

/// What one recorded entry of a trace may be: the nearest accepted hit
/// of the entry's own ray, or the scatter the applicable
/// participating-media program substituted for that hit.
pub open spec fn step_records(scene: Scene, entry: RayIsect) -> bool {
    exists|raw: RayIsect| #[trigger] nearest_hit(scene.objs@, entry.ray, raw)
        && (entry == raw
            || (scene.applicable_vacuum(raw.obj_idx as int) matches Some(vp)
                && vacuum_outcome_ok(vp, raw, VacuumAction::Scatter(entry))))
}

/// Build one scatter path: intersect, let the participating-media hook
/// possibly substitute a scatter event, record, and follow the recorded
/// surface's path program, until the path escapes, is absorbed, runs out
/// of bounces, or leaves the representable world. Existing entries of the
/// path are kept; the walk appends after them. Each appended entry is its
/// step's nearest hit (or that hit's vacuum substitution); the first step
/// traces the given ray, each later step the ray its predecessor's path
/// program chose; and a well-formed ray that hits anything always
/// extends an unfull path.
#[verifier::rlimit(80)]
pub fn make_ray_scatter_path(ray: &Ray, scene: &Scene, rng: &mut Rng, path: &mut Path)
    requires
        scene.wf(),
        old(path).wf(scene.objs.len() as int),
    ensures
        final(path).wf(scene.objs.len() as int),
        final(path).isects.len() >= old(path).isects.len(),
        final(path).isects@.subrange(0, old(path).isects.len() as int)
            == old(path).isects@,
        final(path).first_isect_color == old(path).first_isect_color,
        forall|k: int| old(path).isects.len() <= k < final(path).isects.len()
            ==> step_records(*scene, #[trigger] final(path).isects[k]),
        final(path).isects.len() > old(path).isects.len()
            ==> final(path).isects[old(path).isects.len() as int].ray == *ray,
        forall|k: int| old(path).isects.len() < k < final(path).isects.len()
            ==> path_program_ok(
                scene.objs[final(path).isects[k - 1].obj_idx as int].mat.path_program,
                final(path).isects[k - 1],
                scene.objs[final(path).isects[k - 1].obj_idx as int].prim,
                Some((#[trigger] final(path).isects[k]).ray)),
        (ray_wf(*ray) && old(path).isects.len() < MAX_BOUNCES
            && exists|j: int| 0 <= j < scene.objs.len()
                && hits(*ray, (#[trigger] scene.objs[j]).prim))
            ==> final(path).isects.len() > old(path).isects.len(),
{
    let ghost n0 = path.isects.len() as int;
    let mut cur: Ray = *ray;
    while path.isects.len() < MAX_BOUNCES
        invariant
            scene.wf(),
            path.wf(scene.objs.len() as int),
            path.isects.len() >= n0,
            0 <= n0 <= path.isects.len(),
            path.isects@.subrange(0, n0) == old(path).isects@,
            path.first_isect_color == old(path).first_isect_color,
            path.isects.len() == n0 ==> cur == *ray,
            path.isects.len() > n0 ==> path_program_ok(
                scene.objs[path.isects[path.isects.len() - 1].obj_idx as int]
                    .mat.path_program,
                path.isects[path.isects.len() - 1],
                scene.objs[path.isects[path.isects.len() - 1].obj_idx as int].prim,
                Some(cur)),
            forall|k: int| n0 <= k < path.isects.len()
                ==> step_records(*scene, #[trigger] path.isects[k]),
            path.isects.len() > n0 ==> path.isects[n0].ray == *ray,
            forall|k: int| n0 < k < path.isects.len()
                ==> path_program_ok(
                    scene.objs[path.isects[k - 1].obj_idx as int].mat.path_program,
                    path.isects[k - 1],
                    scene.objs[path.isects[k - 1].obj_idx as int].prim,
                    Some((#[trigger] path.isects[k]).ray)),
        decreases MAX_BOUNCES - path.isects.len(),
    {
        if !ray_wf_exec(&cur) {
            return;
        }
        let found = find_first_intersection(&cur, &scene.objs);
        match found {
            None => {
                return;
            },
            Some(isect) => {
                let mut record = isect;
                let chosen = match scene.objs[isect.obj_idx].mat.vacuum_program {
                    Some(vp) => Some(vp),
                    None => scene.vacuum_program,
                };
                proof {
                    assert(chosen == scene.applicable_vacuum(isect.obj_idx as int));
                }
                match chosen {
                    Some(vp) => {
                        match eval_vacuum_program(&vp, &isect, rng) {
                            VacuumAction::Continue => {},
                            VacuumAction::Scatter(s) => {
                                record = s;
                            },
                        }
                    },
                    None => {},
                }
                proof {
                    assert(step_records(*scene, record)) by {
                        assert(nearest_hit(scene.objs@, record.ray, isect));
                    };
                }
                let ghost pre = path.isects@;
                path.isects.push(record);
                proof {
                    assert(path.isects@.subrange(0, n0) == pre.subrange(0, n0));
                }
                if path.isects.len() >= MAX_BOUNCES {
                    return;
                }
                match eval_path_program(&record, scene, rng) {
                    None => {
                        return;
                    },
                    Some(next) => {
                        cur = next;
                    },
                }
            },
        }
    }
}

/// The back-to-front radiance fold: starting from black behind the last
/// recorded intersection, each surface contributes `emissive + running *
/// transmissive`. The plain transmissive multiply, without a cosine
/// weight, is the fixed policy here.
pub open spec fn fold_radiance(objs: Seq<SceneObj>, isects: Seq<RayIsect>, i: int)
    -> (int, int, int)
    decreases isects.len() - i,
{
    if i < 0 || i >= isects.len() {
        (0int, 0int, 0int)
    } else {
        let cr = eval_color_spec(objs[isects[i].obj_idx as int].mat.color_program,
            isects[i]);
        cadd(c3(cr.emissive), cmul(fold_radiance(objs, isects, i + 1), c3(cr.transmissive)))
    }
}

/// The folded radiance of a well-formed path is nonnegative and at most
/// one emissive ceiling per remaining bounce.
pub proof fn lemma_fold_radiance_bounds(objs: Seq<SceneObj>, isects: Seq<RayIsect>, i: int)
    requires
        0 <= i <= isects.len(),
        forall|j: int| 0 <= j < objs.len()
            ==> (#[trigger] objs[j]).mat.color_program.wf(),
        forall|j: int| 0 <= j < isects.len() ==> (#[trigger] isects[j]).obj_idx < objs.len(),
    ensures
        ({
            let f = fold_radiance(objs, isects, i);
            let bound = (isects.len() - i) * (EMISSIVE_MAX as int);
            0 <= f.0 <= bound && 0 <= f.1 <= bound && 0 <= f.2 <= bound
        }),
    decreases isects.len() - i,
{
    if i == isects.len() {
    } else {
        lemma_fold_radiance_bounds(objs, isects, i + 1);
        let rest = fold_radiance(objs, isects, i + 1);
        let cr = eval_color_spec(objs[isects[i].obj_idx as int].mat.color_program,
            isects[i]);
        lemma_fmul_unit_bound(rest.0, cr.transmissive.r as int);
        lemma_fmul_unit_bound(rest.1, cr.transmissive.g as int);
        lemma_fmul_unit_bound(rest.2, cr.transmissive.b as int);
    }
}

/// Fold the recorded intersections of a path, last to first, into one
/// radiance estimate.
pub fn collect_light_from_path(path: &Path, scene: &Scene) -> (r: Color3f)
    requires
        scene.wf(),
        path.wf(scene.objs.len() as int),
    ensures
        c3(r) == fold_radiance(scene.objs@, path.isects@, 0),
        cbounded(c3(r), (MAX_BOUNCES as int) * (EMISSIVE_MAX as int)),
        c3(r).0 >= 0 && c3(r).1 >= 0 && c3(r).2 >= 0,
{
    let mut color = Color3f::black();
    let mut i: usize = path.isects.len();
    proof {
        lemma_fold_radiance_bounds(scene.objs@, path.isects@, i as int);
    }
    while i > 0
        invariant
            i <= path.isects.len(),
            scene.wf(),
            path.wf(scene.objs.len() as int),
            c3(color) == fold_radiance(scene.objs@, path.isects@, i as int),
            ({
                let f = c3(color);
                let bound = (path.isects.len() - i) * (EMISSIVE_MAX as int);
                0 <= f.0 <= bound && 0 <= f.1 <= bound && 0 <= f.2 <= bound
            }),
        decreases i,
    {
        i = i - 1;
        let isect = path.isects[i];
        let cr = eval_color_program(&scene.objs[isect.obj_idx].mat.color_program, &isect);
        proof {
            let f = c3(color);
            lemma_fmul_unit_bound(f.0, cr.transmissive.r as int);
            lemma_fmul_unit_bound(f.1, cr.transmissive.g as int);
            lemma_fmul_unit_bound(f.2, cr.transmissive.b as int);
        }
        color = cr.emissive.add(color.mul(cr.transmissive));
    }
    proof {
        lemma_fold_radiance_bounds(scene.objs@, path.isects@, 0);
    }
    color
}

/// A recorded trace the sampler may hold: bounded and valid against the
/// scene's object list.
pub open spec fn trace_wf(n_objs: int, t: Seq<RayIsect>) -> bool {
    &&& t.len() <= MAX_BOUNCES
    &&& forall|j: int| 0 <= j < t.len() ==> (#[trigger] t[j]).valid(n_objs)
}

/// The photon cell left after saturating-adding the folded radiances of
/// a sequence of traces, in order, onto a starting value.
pub open spec fn cell_after_paths(objs: Seq<SceneObj>, start: (int, int, int),
    traces: Seq<Seq<RayIsect>>, i: int) -> (int, int, int)
    decreases traces.len() - i,
{
    if i < 0 || i >= traces.len() {
        start
    } else {
        cell_after_paths(objs, crate::color3f::csat_add(start,
            fold_radiance(objs, traces[i], 0)), traces, i + 1)
    }
}

/// Appending one more trace saturating-adds its folded radiance after
/// the others.
proof fn lemma_cell_after_push(objs: Seq<SceneObj>, start: (int, int, int),
    traces: Seq<Seq<RayIsect>>, t: Seq<RayIsect>, i: int)
    requires
        0 <= i <= traces.len(),
    ensures
        cell_after_paths(objs, start, traces.push(t), i)
            == crate::color3f::csat_add(cell_after_paths(objs, start, traces, i),
                fold_radiance(objs, t, 0)),
    decreases traces.len() - i,
{
    if i == traces.len() {
        assert(traces.push(t)[i] == t);
        assert(cell_after_paths(objs, crate::color3f::csat_add(start,
            fold_radiance(objs, t, 0)), traces.push(t), i + 1)
            == crate::color3f::csat_add(start, fold_radiance(objs, t, 0)));
    } else {
        assert(traces.push(t)[i] == traces[i]);
        lemma_cell_after_push(objs, crate::color3f::csat_add(start,
            fold_radiance(objs, traces[i], 0)), traces, t, i + 1);
    }
}

/// One pixel's worth of sampling: a batch of recorded traces — one per
/// sample if the primary ray bounced, else the single primary trace —
/// the first traced from the primary ray, the later ones reusing its
/// first intersection.
pub open spec fn trace_set_ok(scene: Scene, samples: int, primary: Ray,
    traces: Seq<Seq<RayIsect>>) -> bool {
    &&& traces.len() >= 1
    &&& traces.len() == if traces[0].len() > 0 { samples } else { 1int }
    &&& forall|k: int| 0 <= k < traces.len()
        ==> trace_wf(scene.objs.len() as int, #[trigger] traces[k])
    &&& traces[0].len() > 0 ==> traces[0][0].ray == primary
    &&& forall|k: int| 1 <= k < traces.len()
        ==> (#[trigger] traces[k]).len() >= 1 && traces[k][0] == traces[0][0]
}

/// What the sampler guarantees of one photon cell, for every draw of
/// randomness: some such batch of traces exists whose folded radiances
/// saturating-sum from the old cell value to the new one.
pub open spec fn cell_sampled(scene: Scene, samples: int, primary: Ray, before: Color3f,
    after: Color3f) -> bool {
    exists|traces: Seq<Seq<RayIsect>>|
        #[trigger] trace_set_ok(scene, samples, primary, traces)
        && c3(after) == cell_after_paths(scene.objs@, c3(before), traces, 0)
}

/// Channelwise "no darker than before", the one fact accumulation
/// promises for every draw of randomness.
pub open spec fn at_least_as_bright(after: Color3f, before: Color3f) -> bool {
    &&& after.r >= before.r
    &&& after.g >= before.g
    &&& after.b >= before.b
}

/// Trace one full path per primary ray and accumulate its radiance into
/// the matching photon cell; then reuse the first intersection for the
/// configured number of cheaper secondary samples, re-running its path
/// program each time. Contributions are summed (saturating at the
/// integer ceiling), never averaged. An empty scene is a caller error
/// the validator rejects up front.
#[verifier::rlimit(60)]
pub fn path_trace_rays(config: &RenderConfig, rays: &Vec<Ray>, scene: &Scene,
    rng: &mut Rng, photon_buffer: &mut Vec<Color3f>)
    requires
        config.wf(),
        scene.wf(),
        scene.objs.len() > 0,
        old(photon_buffer).len() == rays.len(),
    ensures
        final(photon_buffer).len() == old(photon_buffer).len(),
        forall|j: int| 0 <= j < old(photon_buffer).len()
            ==> at_least_as_bright(#[trigger] final(photon_buffer)[j],
                old(photon_buffer)[j]),
        forall|j: int| 0 <= j < old(photon_buffer).len()
            ==> cell_sampled(*scene, config.samples_per_first_isect as int, rays[j],
                old(photon_buffer)[j], #[trigger] final(photon_buffer)[j]),
{
    let ghost samples = config.samples_per_first_isect as int;
    let mut i: usize = 0;
    while i < rays.len()
        invariant
            config.wf(),
            scene.wf(),
            scene.objs.len() > 0,
            samples == config.samples_per_first_isect as int,
            photon_buffer.len() == rays.len(),
            i <= rays.len(),
            forall|j: int| 0 <= j < rays.len()
                ==> at_least_as_bright(#[trigger] photon_buffer[j],
                    old(photon_buffer)[j]),
            forall|j: int| i <= j < rays.len()
                ==> #[trigger] photon_buffer[j] == old(photon_buffer)[j],
            forall|j: int| 0 <= j < i
                ==> cell_sampled(*scene, samples, rays[j], old(photon_buffer)[j],
                    #[trigger] photon_buffer[j]),
        decreases rays.len() - i,
    {
        let mut path = Path::new();
        make_ray_scatter_path(&rays[i], scene, rng, &mut path);
        let light = collect_light_from_path(&path, scene);
        let cell = photon_buffer[i];
        photon_buffer.set(i, cell.sat_add_c(light));
        let ghost t0 = path.isects@;
        let ghost mut traces: Seq<Seq<RayIsect>> = seq![t0];
        proof {
            assert(traces[0] == t0);
            assert(cell_after_paths(scene.objs@,
                crate::color3f::csat_add(c3(cell), fold_radiance(scene.objs@, t0, 0)),
                traces, 1)
                == crate::color3f::csat_add(c3(cell), fold_radiance(scene.objs@, t0, 0)));
            assert(c3(photon_buffer[i as int])
                == cell_after_paths(scene.objs@, c3(cell), traces, 0));
        }
        // reuse the first intersection for the remaining samples
        if path.isects.len() > 0 {
            let first_isect = path.isects[0];
            let mut k: u32 = 1;
            while k < config.samples_per_first_isect
                invariant
                    config.wf(),
                    scene.wf(),
                    scene.objs.len() > 0,
                    samples == config.samples_per_first_isect as int,
                    photon_buffer.len() == rays.len(),
                    i < rays.len(),
                    1 <= k <= config.samples_per_first_isect,
                    first_isect.valid(scene.objs.len() as int),
                    traces.len() == k as int,
                    traces[0] == t0,
                    t0.len() > 0,
                    t0[0] == first_isect,
                    t0[0].ray == rays[i as int],
                    trace_wf(scene.objs.len() as int, t0),
                    forall|m: int| 0 <= m < traces.len()
                        ==> trace_wf(scene.objs.len() as int, #[trigger] traces[m]),
                    forall|m: int| 1 <= m < traces.len()
                        ==> (#[trigger] traces[m]).len() >= 1 && traces[m][0] == first_isect,
                    c3(photon_buffer[i as int]) == cell_after_paths(scene.objs@,
                        c3(old(photon_buffer)[i as int]), traces, 0),
                    forall|j: int| 0 <= j < rays.len()
                        ==> at_least_as_bright(#[trigger] photon_buffer[j],
                            old(photon_buffer)[j]),
                    forall|j: int| i < j < rays.len()
                        ==> #[trigger] photon_buffer[j] == old(photon_buffer)[j],
                    forall|j: int| 0 <= j < i
                        ==> cell_sampled(*scene, samples, rays[j], old(photon_buffer)[j],
                            #[trigger] photon_buffer[j]),
                decreases config.samples_per_first_isect - k,
            {
                let mut p2 = Path::new();
                p2.isects.push(first_isect);
                match eval_path_program(&first_isect, scene, rng) {
                    Some(next_ray) => {
                        make_ray_scatter_path(&next_ray, scene, rng, &mut p2);
                    },
                    None => {},
                }
                proof {
                    assert(p2.isects@.subrange(0, 1)[0] == first_isect);
                    assert(p2.isects@[0] == first_isect);
                }
                let light2 = collect_light_from_path(&p2, scene);
                let cell2 = photon_buffer[i];
                photon_buffer.set(i, cell2.sat_add_c(light2));
                proof {
                    lemma_cell_after_push(scene.objs@, c3(old(photon_buffer)[i as int]),
                        traces, p2.isects@, 0);
                }
                proof {
                    traces = traces.push(p2.isects@);
                }
                k = k + 1;
            }
            proof {
                assert(trace_set_ok(*scene, samples, rays[i as int], traces));
                assert(cell_sampled(*scene, samples, rays[i as int],
                    old(photon_buffer)[i as int], photon_buffer[i as int]));
            }
        } else {
            proof {
                assert(trace_set_ok(*scene, samples, rays[i as int], traces));
                assert(cell_sampled(*scene, samples, rays[i as int],
                    old(photon_buffer)[i as int], photon_buffer[i as int]));
            }
        }
        i = i + 1;
    }
}

/// Clamp a scalar into a symmetric range.
pub open spec fn clamp_i(v: int, m: int) -> int {
    if v > m {
        m
    } else if v < -m {
        -m
    } else {
        v
    }
}

fn clamp_fx(v: i64, m: i64) -> (r: i64)
    requires
        0 < m,
    ensures
        r as int == clamp_i(v as int, m as int),
{
    if v > m {
        m
    } else if v < -m {
        -m
    } else {
        v
    }
}

/// The camera-space pixel vector of an eye ray, before rotation: the
/// jittered pixel grid over a square of height two at unit distance,
/// wide by the aspect ratio, coordinates clamped into the safe range.
pub open spec fn eye_pre_dir(width: int, height: int, x: int, y: int,
    sub_pix: (int, int)) -> (int, int, int) {
    let s = FX_ONE as int;
    let aspect = fdiv(width * s, height * s);
    let rstep = fmul(2 * aspect, fdiv(s, (width - 1) * s));
    let dstep = fmul(-2 * s, fdiv(s, (height - 1) * s));
    let tlx = -aspect + fmul(rstep, sub_pix.0);
    let tly = s + fmul(dstep, sub_pix.1);
    (clamp_i(tlx + fmul(rstep, x * s), 0x4000_0000),
     clamp_i(tly + fmul(dstep, y * s), 0x4000_0000),
     -s)
}

/// A rotated direction, unless it degenerated past the representable
/// range; then straight ahead.
pub open spec fn dir_or_default(a: (int, int, int)) -> (int, int, int) {
    if vbounded(a, 4 * (FX_ONE as int)) && vdot(a, a) >= 16 {
        a
    } else {
        (0int, 0int, -(FX_ONE as int))
    }
}

/// The world-space direction of one eye ray.
pub open spec fn eye_ray_dir(ori: (int, int, int, int), width: int, height: int,
    x: int, y: int, sub_pix: (int, int)) -> (int, int, int) {
    dir_or_default(qvmul(ori, vnormal(eye_pre_dir(width, height, x, y, sub_pix))))
}

fn sanitize_dir(d: Vec3) -> (r: Vec3)
    ensures
        v3(r) == dir_or_default(v3(d)),
        vbounded(v3(r), 4 * (FX_ONE as int)),
        vdot(v3(r), v3(r)) >= 16,
{
    let m = 4 * FX_ONE;
    if -m <= d.x && d.x <= m && -m <= d.y && d.y <= m && -m <= d.z && d.z <= m {
        let dd = d.dot(&d);
        if dd >= 16 {
            return d;
        }
    }
    proof {
        lemma_forward_dir_unit();
    }
    Vec3 { x: 0, y: 0, z: -FX_ONE }
}

/// The straight-ahead fallback direction is unit length.
proof fn lemma_forward_dir_unit()
    ensures
        vdot((0int, 0int, -(FX_ONE as int)), (0int, 0int, -(FX_ONE as int)))
            == FX_ONE as int,
{
    let s = FX_ONE as int;
    assert(0int * 0 + 0 * 0 + (-s) * (-s) == s * s) by (nonlinear_arith);
    lemma_tdiv_mul_exact(s, s);
}

/// One eye ray: the jittered pixel direction, normalized, rotated into
/// world space by the camera orientation.
pub fn eye_ray(camera_position: &Vec3, camera_orientation: &Quaternion, width: u32,
    height: u32, x: u32, y: u32, sub_pix: (i64, i64)) -> (r: Ray)
    requires
        camera_position.wf(),
        camera_orientation.wf(),
        2 <= width < 16384,
        2 <= height < 16384,
        x < width,
        y < height,
        0 <= sub_pix.0 < FX_ONE,
        0 <= sub_pix.1 < FX_ONE,
    ensures
        v3(r.origin) == v3(*camera_position),
        v3(r.dir) == eye_ray_dir(q4(*camera_orientation), width as int, height as int,
            x as int, y as int, (sub_pix.0 as int, sub_pix.1 as int)),
        ray_wf(r),
{
    let s = FX_ONE;
    let wfx: i64 = (width as i64) * s;
    let hfx: i64 = (height as i64) * s;
    let aspect = fx_div(wfx, hfx);
    proof {
        lemma_tdiv_div_bound((wfx as int) * (FX_ONE as int), hfx as int, 131072,
            0x2000_0000);
        assert((wfx as int) * (FX_ONE as int) <= 0x2000_0000int * 131072)
            by (nonlinear_arith)
            requires 0 < wfx as int, (wfx as int) < 0x4000_0000;
        assert(-(0x2000_0000int * 131072) <= (wfx as int) * (FX_ONE as int))
            by (nonlinear_arith)
            requires 0 < wfx as int;
    }
    let recip_w = fx_div(s, wfx - s);
    let recip_h = fx_div(s, hfx - s);
    proof {
        lemma_tdiv_div_bound((FX_ONE as int) * (FX_ONE as int), (wfx - s) as int,
            65536, 65536);
        lemma_tdiv_div_bound((FX_ONE as int) * (FX_ONE as int), (hfx - s) as int,
            65536, 65536);
        lemma_fmul_bound(2 * (aspect as int), recip_w as int, 0x4000_0000, 65536);
        assert(tdiv(0x4000_0000int * 65536, FX_ONE as int) == 0x4000_0000int) by {
            lemma_tdiv_mul_exact(0x4000_0000int, 65536);
        };
        lemma_fmul_bound(-2 * (FX_ONE as int), recip_h as int, 131072, 65536);
        lemma_tdiv_bound(131072int * 65536, FX_ONE as int, 131072int * 65536);
    }
    let rstep = fx_mul(2 * aspect, recip_w);
    let dstep = fx_mul(-2 * s, recip_h);
    proof {
        lemma_fmul_bound(rstep as int, sub_pix.0 as int, 0x4000_0000, 65536);
        assert(tdiv(0x4000_0000int * 65536, FX_ONE as int) == 0x4000_0000int) by {
            lemma_tdiv_mul_exact(0x4000_0000int, 65536);
        };
        lemma_fmul_bound(dstep as int, sub_pix.1 as int, 0x2_0000_0000, 65536);
        assert(tdiv(0x2_0000_0000int * 65536, FX_ONE as int) == 0x2_0000_0000int) by {
            lemma_tdiv_mul_exact(0x2_0000_0000int, 65536);
        };
        lemma_fmul_bound(rstep as int, (x as int) * (FX_ONE as int), 0x4000_0000,
            0x4000_0000);
        lemma_tdiv_bound(0x4000_0000int * 0x4000_0000, FX_ONE as int,
            0x4000_0000int * 0x4000_0000);
        lemma_fmul_bound(dstep as int, (y as int) * (FX_ONE as int), 0x2_0000_0000,
            0x4000_0000);
        lemma_tdiv_bound(0x2_0000_0000int * 0x4000_0000, FX_ONE as int,
            0x2_0000_0000int * 0x4000_0000);
        assert(0 <= (x as int) * (FX_ONE as int) <= 0x4000_0000int) by (nonlinear_arith)
            requires 0 <= x as int, (x as int) < 16384;
        assert(0 <= (y as int) * (FX_ONE as int) <= 0x4000_0000int) by (nonlinear_arith)
            requires 0 <= y as int, (y as int) < 16384;
    }
    let tlx: i64 = -aspect + fx_mul(rstep, sub_pix.0);
    let tly: i64 = s + fx_mul(dstep, sub_pix.1);
    let px = clamp_fx(tlx + fx_mul(rstep, (x as i64) * s), 0x4000_0000);
    let py = clamp_fx(tly + fx_mul(dstep, (y as i64) * s), 0x4000_0000);
    let pre = Vec3 { x: px, y: py, z: -s };
    proof {
        let pv = v3(pre);
        assert(pv.0 * pv.0 >= 0 && pv.1 * pv.1 >= 0) by (nonlinear_arith);
        assert(pv.2 * pv.2 == (FX_ONE as int) * (FX_ONE as int)) by (nonlinear_arith)
            requires pv.2 == -(FX_ONE as int);
        lemma_tdiv_monotone((FX_ONE as int) * (FX_ONE as int),
            pv.0 * pv.0 + pv.1 * pv.1 + pv.2 * pv.2, FX_ONE as int);
        lemma_tdiv_mul_exact(FX_ONE as int, FX_ONE as int);
    }
    let nd = pre.normal();
    let rot = camera_orientation.vmul(&nd);
    let dir = sanitize_dir(rot);
    Ray { origin: *camera_position, dir }
}

/// Whether a ray vector holds exactly the eye rays of the rows
/// `y_lo..y_hi`, in row-major order: entry `k` belongs to column
/// `k % width` of row `y_lo + k / width`.
pub open spec fn eye_rays_of(rays: Seq<Ray>, pos: Vec3, ori: (int, int, int, int),
    width: int, height: int, y_lo: int, y_hi: int, sub_pix: (int, int)) -> bool {
    &&& rays.len() == (y_hi - y_lo) * width
    &&& forall|k: int| 0 <= k < rays.len()
        ==> v3((#[trigger] rays[k]).origin) == v3(pos)
            && v3(rays[k].dir) == eye_ray_dir(ori, width, height, k % width,
                y_lo + k / width, sub_pix)
}

/// All eye rays of the rows `y_bounds.0 .. y_bounds.1`, row-major.
pub fn make_eye_rays(camera_position: &Vec3, camera_orientation: &Quaternion,
    width: u32, height: u32, y_bounds: (u32, u32), sub_pix: (i64, i64)) -> (rays: Vec<Ray>)
    requires
        camera_position.wf(),
        camera_orientation.wf(),
        2 <= width < 16384,
        2 <= height < 16384,
        y_bounds.0 <= y_bounds.1 <= height,
        0 <= sub_pix.0 < FX_ONE,
        0 <= sub_pix.1 < FX_ONE,
    ensures
        eye_rays_of(rays@, *camera_position, q4(*camera_orientation), width as int,
            height as int, y_bounds.0 as int, y_bounds.1 as int,
            (sub_pix.0 as int, sub_pix.1 as int)),
        forall|k: int| 0 <= k < rays.len() ==> ray_wf(#[trigger] rays[k]),
{
    let mut rays: Vec<Ray> = Vec::new();
    let ghost ori = q4(*camera_orientation);
    let ghost sp = (sub_pix.0 as int, sub_pix.1 as int);
    let y0 = y_bounds.0;
    let y1 = y_bounds.1;
    let mut y = y0;
    while y < y1
        invariant
            camera_position.wf(),
            camera_orientation.wf(),
            2 <= width < 16384,
            2 <= height < 16384,
            y0 <= y <= y1 <= height,
            0 <= sub_pix.0 < FX_ONE,
            0 <= sub_pix.1 < FX_ONE,
            ori == q4(*camera_orientation),
            sp == (sub_pix.0 as int, sub_pix.1 as int),
            rays.len() == (y - y0) * width,
            forall|k: int| 0 <= k < rays.len()
                ==> v3((#[trigger] rays[k]).origin) == v3(*camera_position)
                    && v3(rays[k].dir) == eye_ray_dir(ori, width as int, height as int,
                        k % (width as int), y0 + k / (width as int), sp)
                    && ray_wf(rays[k]),
        decreases y1 - y,
    {
        let mut x: u32 = 0;
        while x < width
            invariant
                camera_position.wf(),
                camera_orientation.wf(),
                2 <= width < 16384,
                2 <= height < 16384,
                y0 <= y < y1 <= height,
                x <= width,
                0 <= sub_pix.0 < FX_ONE,
                0 <= sub_pix.1 < FX_ONE,
                ori == q4(*camera_orientation),
                sp == (sub_pix.0 as int, sub_pix.1 as int),
                rays.len() == (y - y0) * width + x,
                forall|k: int| 0 <= k < rays.len()
                    ==> v3((#[trigger] rays[k]).origin) == v3(*camera_position)
                        && v3(rays[k].dir) == eye_ray_dir(ori, width as int,
                            height as int, k % (width as int), y0 + k / (width as int), sp)
                        && ray_wf(rays[k]),
            decreases width - x,
        {
            proof {
                let w = width as int;
                let row = (y - y0) as int;
                let kk = row * w + (x as int);
                assert(0 <= kk && kk + 1 <= (row + 1) * w) by (nonlinear_arith)
                    requires kk == row * w + (x as int), 0 <= x as int, (x as int) < w,
                        0 <= row;
                assert((row + 1) * w <= ((y1 - y0) as int) * w) by (nonlinear_arith)
                    requires row + 1 <= (y1 - y0) as int, 0 <= w;
                assert(((y1 - y0) as int) * w < 16384 * 16384) by (nonlinear_arith)
                    requires 0 <= (y1 - y0) as int, ((y1 - y0) as int) < 16384,
                        0 <= w, w < 16384;
                vstd::arithmetic::div_mod::lemma_fundamental_div_mod_converse_div(
                    kk, w, row, x as int);
                vstd::arithmetic::div_mod::lemma_fundamental_div_mod_converse_mod(
                    kk, w, row, x as int);
            }
            let r = eye_ray(camera_position, camera_orientation, width, height, x, y,
                sub_pix);
            rays.push(r);
            x = x + 1;
        }
        proof {
            assert(((y - y0) as int) * (width as int) + (width as int)
                == ((y + 1 - y0) as int) * (width as int)) by (nonlinear_arith);
        }
        y = y + 1;
    }
    rays
}

/// One photon cell traced and accumulated: some ray — the row-major eye
/// ray of cell `j` for this camera, frame jitter and row window — was
/// sampled into it.
pub open spec fn cell_traced(scene: Scene, samples: int, ori: (int, int, int, int),
    pos: Vec3, width: int, height: int, y_lo: int, sub: (int, int), j: int,
    before: Color3f, after: Color3f) -> bool {
    exists|r: Ray|
        v3(r.origin) == v3(pos)
        && v3(#[trigger] r.dir) == eye_ray_dir(ori, width, height, j % width,
            y_lo + j / width, sub)
        && cell_sampled(scene, samples, r, before, after)
}

/// Render the pixels of the rows `y_bounds.0 .. y_bounds.1` for one
/// frame: build the jittered eye rays and run the sampler over them,
/// accumulating into the photon buffer, whose cells cover exactly those
/// rows. Each cell receives the sampled radiance of its own row-major
/// eye ray.
pub fn path_trace_scene(config: &RenderConfig, camera: &Camera, scene: &Scene,
    width: u32, height: u32, y_bounds: (u32, u32), sub_pix: (i64, i64),
    photon_buffer: &mut Vec<Color3f>, rng: &mut Rng)
    requires
        config.wf(),
        camera.wf(),
        scene.wf(),
        scene.objs.len() > 0,
        2 <= width < 16384,
        2 <= height < 16384,
        y_bounds.0 <= y_bounds.1 <= height,
        0 <= sub_pix.0 < FX_ONE,
        0 <= sub_pix.1 < FX_ONE,
        old(photon_buffer).len() == (y_bounds.1 - y_bounds.0) * width,
    ensures
        final(photon_buffer).len() == old(photon_buffer).len(),
        forall|j: int| 0 <= j < old(photon_buffer).len()
            ==> at_least_as_bright(#[trigger] final(photon_buffer)[j],
                old(photon_buffer)[j]),
        forall|j: int| 0 <= j < old(photon_buffer).len()
            ==> cell_traced(*scene, config.samples_per_first_isect as int,
                q4(camera.orientation), camera.position, width as int, height as int,
                y_bounds.0 as int, (sub_pix.0 as int, sub_pix.1 as int), j,
                old(photon_buffer)[j], #[trigger] final(photon_buffer)[j]),
{
    let eye_rays = make_eye_rays(&camera.position, &camera.orientation, width, height,
        y_bounds, sub_pix);
    path_trace_rays(config, &eye_rays, scene, rng, photon_buffer);
    proof {
        assert forall|j: int|
            #![trigger photon_buffer@[j]]
            0 <= j < old(photon_buffer).len() implies cell_traced(*scene,
                config.samples_per_first_isect as int, q4(camera.orientation),
                camera.position, width as int, height as int, y_bounds.0 as int,
                (sub_pix.0 as int, sub_pix.1 as int), j, old(photon_buffer)[j],
                photon_buffer[j]) by {
            let r = eye_rays@[j];
            assert(v3(r.origin) == v3(camera.position)
                && v3(r.dir) == eye_ray_dir(q4(camera.orientation), width as int,
                    height as int, j % (width as int), y_bounds.0 + j / (width as int),
                    (sub_pix.0 as int, sub_pix.1 as int))
                && cell_sampled(*scene, config.samples_per_first_isect as int, r,
                    old(photon_buffer)[j], photon_buffer[j]));
        };
    }
}

/// The first row of worker `i`'s chunk: equal integer shares of the
/// height.
pub open spec fn chunk_lo(height: int, threads: int, i: int) -> int {
    i * (height / threads)
}

/// One past the last row of worker `i`'s chunk; the remainder of the
/// integer division folds into the last chunk.
pub open spec fn chunk_hi(height: int, threads: int, i: int) -> int {
    if i == threads - 1 {
        height
    } else {
        (i + 1) * (height / threads)
    }
}

/// The row range of one worker's chunk.
pub fn chunk_bounds(height: u32, threads: usize, i: usize) -> (r: (u32, u32))
    requires
        1 <= threads <= height,
        height < 16384,
        i < threads,
    ensures
        r.0 == chunk_lo(height as int, threads as int, i as int),
        r.1 == chunk_hi(height as int, threads as int, i as int),
        r.0 <= r.1 <= height,
{
    let t = threads as u32;
    let share = height / t;
    proof {
        let h = height as int;
        let ti = threads as int;
        let sh = h / ti;
        vstd::arithmetic::div_mod::lemma_div_pos_is_pos(h, ti);
        vstd::arithmetic::div_mod::lemma_div_nonincreasing(h, ti);
        vstd::arithmetic::div_mod::lemma_fundamental_div_mod(h, ti);
        vstd::arithmetic::div_mod::lemma_mod_division_less_than_divisor(h, ti);
        assert((i as int) * sh <= ((i as int) + 1) * sh) by (nonlinear_arith)
            requires 0 <= sh;
        assert(((i as int) + 1) * sh <= ti * sh) by (nonlinear_arith)
            requires (i as int) + 1 <= ti, 0 <= sh;
        assert(ti * sh <= h) by (nonlinear_arith)
            requires h == ti * sh + h % ti, h % ti >= 0;
        assert(0 <= (i as int) * sh) by (nonlinear_arith)
            requires 0 <= i as int, 0 <= sh;
    }
    let lo = (i as u32) * share;
    let hi = if i == threads - 1 {
        height
    } else {
        ((i as u32) + 1) * share
    };
    (lo, hi)
}

/// The greatest channel value of a prefix of the photon buffer, at
/// least zero.
pub open spec fn buffer_max(buf: Seq<Color3f>, i: int) -> int
    decreases i,
{
    if i <= 0 {
        0
    } else {
        let m = buffer_max(buf, i - 1);
        let c = crate::color3f::cmax(c3(buf[i - 1]));
        if c > m {
            c
        } else {
            m
        }
    }
}

/// The greatest channel value anywhere in the photon buffer (zero for an
/// empty or all-dark buffer), the shared exposure of the tonemapper.
pub fn max_value_of_photon_buffer(photon_buffer: &Vec<Color3f>) -> (r: i64)
    ensures
        r as int == buffer_max(photon_buffer@, photon_buffer.len() as int),
        r >= 0,
{
    let mut max_value: i64 = 0;
    let mut i: usize = 0;
    while i < photon_buffer.len()
        invariant
            i <= photon_buffer.len(),
            max_value as int == buffer_max(photon_buffer@, i as int),
            max_value >= 0,
        decreases photon_buffer.len() - i,
    {
        let c = photon_buffer[i].max_channel();
        if c > max_value {
            max_value = c;
        }
        i = i + 1;
    }
    max_value
}

/// One channel through the logarithmic compressor: `log(1 + v) * k /
/// log(1 + max)`, clamped to a display byte. An all-dark buffer (whose
/// maximum compresses to nothing) maps to zero.
pub open spec fn tonemap_channel(v: int, maxlog: int, k: int) -> int {
    if maxlog <= 0 {
        0
    } else {
        let t = tdiv(crate::fixed::log1p_fx(v) * k, maxlog);
        if t > 255 {
            255
        } else if t < 0 {
            0
        } else {
            t
        }
    }
}

fn tonemap_channel_exec(v: i64, maxlog: i64, k: i64) -> (r: u8)
    requires
        0 <= k <= FX_COORD_MAX,
    ensures
        r as int == tonemap_channel(v as int, maxlog as int, k as int),
{
    if maxlog <= 0 {
        return 0;
    }
    let lv = crate::fixed::log1p_fx_exec(v);
    proof {
        assert(0 <= (lv as int) * (k as int)
            <= 3145728int * (FX_COORD_MAX as int)) by (nonlinear_arith)
            requires
                0 <= lv as int, (lv as int) < 3145728,
                0 <= k as int, (k as int) <= FX_COORD_MAX as int;
        lemma_tdiv_bound((lv as int) * (k as int), maxlog as int,
            3145728int * (FX_COORD_MAX as int));
    }
    let t = crate::fixed::tdiv_i128((lv as i128) * (k as i128), maxlog as i128);
    if t > 255 {
        255
    } else if t < 0 {
        0
    } else {
        t as u8
    }
}

/// The tonemapped display bytes of the whole buffer: three bytes per
/// pixel, each channel compressed against the shared maximum.
pub fn render_pixels(photon_buffer: &Vec<Color3f>, max_value: i64, k: i64) -> (out: Vec<u8>)
    requires
        0 <= k <= FX_COORD_MAX,
        photon_buffer.len() < 0x1000_0000,
    ensures
        out.len() == 3 * photon_buffer.len(),
        forall|j: int| 0 <= j < photon_buffer.len()
            ==> {
                let ml = crate::fixed::log1p_fx(max_value as int);
                &&& out[3 * j] == tonemap_channel(c3(#[trigger] photon_buffer[j]).0, ml, k as int)
                &&& out[3 * j + 1] == tonemap_channel(c3(photon_buffer[j]).1, ml, k as int)
                &&& out[3 * j + 2] == tonemap_channel(c3(photon_buffer[j]).2, ml, k as int)
            },
{
    let maxlog = crate::fixed::log1p_fx_exec(max_value);
    let mut out: Vec<u8> = Vec::new();
    let mut j: usize = 0;
    while j < photon_buffer.len()
        invariant
            j <= photon_buffer.len(),
            photon_buffer.len() < 0x1000_0000,
            0 <= k <= FX_COORD_MAX,
            maxlog as int == crate::fixed::log1p_fx(max_value as int),
            out.len() == 3 * j,
            forall|jj: int| 0 <= jj < j
                ==> {
                    let ml = crate::fixed::log1p_fx(max_value as int);
                    &&& out[3 * jj] == tonemap_channel(c3(#[trigger] photon_buffer[jj]).0, ml,
                        k as int)
                    &&& out[3 * jj + 1] == tonemap_channel(c3(photon_buffer[jj]).1, ml,
                        k as int)
                    &&& out[3 * jj + 2] == tonemap_channel(c3(photon_buffer[jj]).2, ml,
                        k as int)
                },
        decreases photon_buffer.len() - j,
    {
        let cell = photon_buffer[j];
        out.push(tonemap_channel_exec(cell.r, maxlog, k));
        out.push(tonemap_channel_exec(cell.g, maxlog, k));
        out.push(tonemap_channel_exec(cell.b, maxlog, k));
        j = j + 1;
    }
    out
}

/// Logarithmic HDR compression of the whole accumulated buffer to
/// display bytes, exposed against its own maximum.
pub fn hdr_postprocess_blit(photon_buffer: &Vec<Color3f>) -> (out: Vec<u8>)
    requires
        photon_buffer.len() < 0x1000_0000,
    ensures
        out.len() == 3 * photon_buffer.len(),
        forall|j: int| 0 <= j < photon_buffer.len()
            ==> {
                let ml = crate::fixed::log1p_fx(buffer_max(photon_buffer@,
                    photon_buffer.len() as int));
                &&& out[3 * j] == tonemap_channel(c3(#[trigger] photon_buffer[j]).0, ml, 255)
                &&& out[3 * j + 1] == tonemap_channel(c3(photon_buffer[j]).1, ml, 255)
                &&& out[3 * j + 2] == tonemap_channel(c3(photon_buffer[j]).2, ml, 255)
            },
{
    let max_value = max_value_of_photon_buffer(photon_buffer);
    render_pixels(photon_buffer, max_value, 255)
}

/// The buffer normalized to the unit range by its maximum, and that
/// maximum; an all-dark buffer comes back unchanged.
pub fn normalize_photon_buffer(photon_buffer: &Vec<Color3f>) -> (r: (Vec<Color3f>, i64))
    requires
        forall|j: int| 0 <= j < photon_buffer.len()
            ==> c3(#[trigger] photon_buffer[j]).0 >= 0
                && c3(photon_buffer[j]).1 >= 0 && c3(photon_buffer[j]).2 >= 0,
    ensures
        r.1 as int == buffer_max(photon_buffer@, photon_buffer.len() as int),
        r.0.len() == photon_buffer.len(),
        r.1 > 0 ==> forall|j: int| 0 <= j < photon_buffer.len()
            ==> c3(#[trigger] r.0[j]) == (fdiv(c3(photon_buffer[j]).0, r.1 as int),
                fdiv(c3(photon_buffer[j]).1, r.1 as int),
                fdiv(c3(photon_buffer[j]).2, r.1 as int)),
        r.1 == 0 ==> r.0@ == photon_buffer@,
{
    let max_value = max_value_of_photon_buffer(photon_buffer);
    let mut buf: Vec<Color3f> = Vec::new();
    if max_value == 0 {
        let mut i: usize = 0;
        while i < photon_buffer.len()
            invariant
                i <= photon_buffer.len(),
                buf@ == photon_buffer@.subrange(0, i as int),
            decreases photon_buffer.len() - i,
        {
            buf.push(photon_buffer[i]);
            proof {
                assert(buf@ == photon_buffer@.subrange(0, i + 1 as int));
            }
            i = i + 1;
        }
        proof {
            assert(photon_buffer@.subrange(0, photon_buffer.len() as int)
                == photon_buffer@);
        }
        return (buf, 0);
    }
    let mut i: usize = 0;
    while i < photon_buffer.len()
        invariant
            i <= photon_buffer.len(),
            max_value > 0,
            max_value as int == buffer_max(photon_buffer@, photon_buffer.len() as int),
            forall|j: int| 0 <= j < photon_buffer.len()
                ==> c3(#[trigger] photon_buffer[j]).0 >= 0
                    && c3(photon_buffer[j]).1 >= 0 && c3(photon_buffer[j]).2 >= 0,
            buf.len() == i,
            forall|j: int| 0 <= j < i
                ==> c3(#[trigger] buf[j]) == (fdiv(c3(photon_buffer[j]).0, max_value as int),
                    fdiv(c3(photon_buffer[j]).1, max_value as int),
                    fdiv(c3(photon_buffer[j]).2, max_value as int)),
        decreases photon_buffer.len() - i,
    {
        let c = photon_buffer[i];
        proof {
            lemma_buffer_max_dominates(photon_buffer@, photon_buffer.len() as int, i as int);
            assert(c3(photon_buffer@[i as int]).0 >= 0
                && c3(photon_buffer@[i as int]).1 >= 0
                && c3(photon_buffer@[i as int]).2 >= 0);
        }
        let nr = norm_channel(c.r, max_value);
        let ng = norm_channel(c.g, max_value);
        let nb = norm_channel(c.b, max_value);
        buf.push(Color3f { r: nr, g: ng, b: nb });
        i = i + 1;
    }
    (buf, max_value)
}

/// One channel scaled by the reciprocal of the buffer maximum; a channel
/// never exceeds the maximum, so the result stays within one unit.
fn norm_channel(v: i64, max_value: i64) -> (r: i64)
    requires
        max_value > 0,
        0 <= v <= max_value,
    ensures
        r as int == fdiv(v as int, max_value as int),
        0 <= r <= FX_ONE,
{
    proof {
        let n = (v as int) * (FX_ONE as int);
        let m = max_value as int;
        assert(0 <= n <= 65536int * m) by (nonlinear_arith)
            requires 0 <= v as int, (v as int) <= m, n == (v as int) * 65536;
        crate::fixed::lemma_tdiv_div_bound(n, m, m, 65536);
        assert(65536int * m == m * 65536) by (nonlinear_arith);
        lemma_tdiv_bound(n, m, 65536int * m);
    }
    let q = crate::fixed::tdiv_i128((v as i128) * (FX_ONE as i128), max_value as i128);
    q as i64
}

/// Every channel of the buffer's prefix is dominated by the prefix
/// maximum.
pub proof fn lemma_buffer_max_dominates(buf: Seq<Color3f>, i: int, j: int)
    requires
        0 <= j < i <= buf.len(),
    ensures
        c3(buf[j]).0 <= buffer_max(buf, i),
        c3(buf[j]).1 <= buffer_max(buf, i),
        c3(buf[j]).2 <= buffer_max(buf, i),
    decreases i,
{
    if j == i - 1 {
    } else {
        lemma_buffer_max_dominates(buf, i - 1, j);
    }
}

/// Law: an all-dark channel tonemaps to zero, whatever the exposure.
pub proof fn lemma_tonemap_zero(maxlog: int, k: int)
    ensures
        tonemap_channel(0, maxlog, k) == 0,
{
    crate::fixed::lemma_log1p_basics(0, 0);
    assert(0int * k == 0) by (nonlinear_arith);
    if maxlog > 0 {
        vstd::arithmetic::div_mod::lemma_div_of0(maxlog);
    }
}

/// Law: raising the buffer's maximum never brightens a fixed pixel: the
/// logarithmic exposure divides by a larger compressed maximum.
pub proof fn lemma_tonemap_monotone_in_max(v: int, m1: int, m2: int, k: int)
    requires
        1 <= m1 <= m2,
        0 <= k,
    ensures
        tonemap_channel(v, crate::fixed::log1p_fx(m1), k)
            >= tonemap_channel(v, crate::fixed::log1p_fx(m2), k),
{
    let lv = crate::fixed::log1p_fx(v);
    let a = lv * k;
    let l1 = crate::fixed::log1p_fx(m1);
    let l2 = crate::fixed::log1p_fx(m2);
    crate::fixed::lemma_log1p_basics(m1, m2);
    crate::fixed::lemma_log1p_basics(v, v);
    crate::fixed::lemma_log1p_basics(1, m1);
    lemma_log1p_one_positive();
    assert(0 <= lv * k) by (nonlinear_arith)
        requires 0 <= lv, 0 <= k;
    vstd::arithmetic::div_mod::lemma_div_is_ordered_by_denominator(a, l1, l2);
    vstd::arithmetic::div_mod::lemma_div_pos_is_pos(a, l2);
    vstd::arithmetic::div_mod::lemma_div_pos_is_pos(a, l1);
}

/// Law: raising the buffer's maximum strictly darkens a pixel, provided
/// the compressed maximum really grew, the pixel is bright enough that
/// integer division still sees the difference, and its byte was not
/// already clamped.
pub proof fn lemma_tonemap_strictly_darkens(v: int, m1: int, m2: int, k: int)
    requires
        1 <= m1 <= m2,
        0 <= k,
        crate::fixed::log1p_fx(m1) < crate::fixed::log1p_fx(m2),
        crate::fixed::log1p_fx(v) * k
            >= crate::fixed::log1p_fx(m1) * crate::fixed::log1p_fx(m2),
        tdiv(crate::fixed::log1p_fx(v) * k, crate::fixed::log1p_fx(m1)) <= 255,
    ensures
        tonemap_channel(v, crate::fixed::log1p_fx(m1), k)
            > tonemap_channel(v, crate::fixed::log1p_fx(m2), k),
{
    let lv = crate::fixed::log1p_fx(v);
    let a = lv * k;
    let l1 = crate::fixed::log1p_fx(m1);
    let l2 = crate::fixed::log1p_fx(m2);
    crate::fixed::lemma_log1p_basics(m1, m2);
    crate::fixed::lemma_log1p_basics(v, v);
    crate::fixed::lemma_log1p_basics(1, m1);
    lemma_log1p_one_positive();
    assert(0 <= lv * k) by (nonlinear_arith)
        requires 0 <= lv, 0 <= k;
    let q2 = a / l2;
    vstd::arithmetic::div_mod::lemma_fundamental_div_mod(a, l2);
    vstd::arithmetic::div_mod::lemma_mod_division_less_than_divisor(a, l2);
    vstd::arithmetic::div_mod::lemma_div_pos_is_pos(a, l2);
    // q2 >= l1, since a >= l1 * l2
    assert(q2 >= l1) by {
        vstd::arithmetic::div_mod::lemma_div_is_ordered(l1 * l2, a, l2);
        vstd::arithmetic::div_mod::lemma_div_by_multiple(l1, l2);
    };
    // a >= (q2 + 1) * l1, so the quotient at l1 clears q2
    assert(a >= (q2 + 1) * l1) by (nonlinear_arith)
        requires
            a == l2 * q2 + a % l2,
            a % l2 >= 0,
            l2 >= l1 + 1,
            q2 >= l1,
            l1 >= 1;
    assert(a / l1 >= q2 + 1) by {
        vstd::arithmetic::div_mod::lemma_div_is_ordered((q2 + 1) * l1, a, l1);
        vstd::arithmetic::div_mod::lemma_div_by_multiple(q2 + 1, l1);
    };
}

/// The curve at one whole unit is positive.
proof fn lemma_log1p_one_positive()
    ensures
        crate::fixed::log1p_fx(1) >= 1,
{
    let s = FX_ONE as int;
    vstd::arithmetic::power2::lemma2_to64();
    crate::fixed::lemma_lg_floor_unique(s + 1, 16);
    assert((s + 1 - s) * s == s) by (nonlinear_arith);
    lemma_tdiv_mul_exact(1, s);
    assert(s / s == 1) by {
        vstd::arithmetic::div_mod::lemma_div_by_self(s);
    };
}

/// Why a frame request is rejected before any work starts.
#[derive(Clone, Copy, Debug, PartialEq, Eq, Structural)]
pub enum RenderError {
    BadConfig,
    BadCamera,
    MalformedScene,
    EmptyScene,
}

/// The fixed order in which the structural preconditions are examined.
pub open spec fn validate_spec(config: RenderConfig, camera: Camera, scene: Scene)
    -> Result<(), RenderError> {
    if !config.wf() {
        Err(RenderError::BadConfig)
    } else if !camera.wf() {
        Err(RenderError::BadCamera)
    } else if !scene.wf() {
        Err(RenderError::MalformedScene)
    } else if scene.objs.len() == 0 {
        Err(RenderError::EmptyScene)
    } else {
        Ok(())
    }
}

/// Fail fast on structural precondition violations: a degenerate
/// configuration, camera or scene is rejected with the first failing
/// check, and `Ok` holds exactly the inputs the render entry points
/// accept.
pub fn validate_render_inputs(config: &RenderConfig, camera: &Camera, scene: &Scene)
    -> (r: Result<(), RenderError>)
    ensures
        r == validate_spec(*config, *camera, *scene),
        r is Ok <==> config.wf() && camera.wf() && scene.wf() && scene.objs.len() > 0,
{
    if !config.wf_check() {
        Err(RenderError::BadConfig)
    } else if !camera.wf_check() {
        Err(RenderError::BadCamera)
    } else if !scene.wf_check() {
        Err(RenderError::MalformedScene)
    } else if scene.objs.len() == 0 {
        Err(RenderError::EmptyScene)
    } else {
        Ok(())
    }
}

/// The chunks of one frame partition the rows: every row lies in exactly
/// one worker's range, and ranges of distinct workers never overlap.
/// This is the deterministic skeleton of the parallel scheduler: each
/// pixel is rendered by exactly one worker.
pub proof fn lemma_chunks_partition(height: int, threads: int, y: int)
    requires
        1 <= threads <= height,
        0 <= y < height,
    ensures
        exists|i: int| 0 <= i < threads
            && #[trigger] chunk_lo(height, threads, i) <= y < chunk_hi(height, threads, i),
        forall|i: int, j: int|
            #![trigger chunk_hi(height, threads, i), chunk_lo(height, threads, j)]
            0 <= i < j < threads
            ==> chunk_hi(height, threads, i) <= chunk_lo(height, threads, j),
{
    let sh = height / threads;
    vstd::arithmetic::div_mod::lemma_div_pos_is_pos(height, threads);
    vstd::arithmetic::div_mod::lemma_fundamental_div_mod(height, threads);
    vstd::arithmetic::div_mod::lemma_mod_division_less_than_divisor(height, threads);
    // disjointness: chunk ends meet chunk starts in order
    assert forall|i: int, j: int|
        #![trigger chunk_hi(height, threads, i), chunk_lo(height, threads, j)]
        0 <= i < j < threads
        implies chunk_hi(height, threads, i) <= chunk_lo(height, threads, j) by {
        assert((i + 1) * sh <= j * sh) by (nonlinear_arith)
            requires i + 1 <= j, 0 <= sh;
    };
    // coverage: the witness chunk of row y
    if sh == 0 {
        // every non-last chunk is empty; the last holds all rows
        let w = threads - 1;
        assert(w * sh == 0) by (nonlinear_arith)
            requires sh == 0;
        assert(chunk_lo(height, threads, w) <= y < chunk_hi(height, threads, w));
    } else {
        let q = y / sh;
        vstd::arithmetic::div_mod::lemma_fundamental_div_mod(y, sh);
        vstd::arithmetic::div_mod::lemma_mod_division_less_than_divisor(y, sh);
        vstd::arithmetic::div_mod::lemma_div_pos_is_pos(y, sh);
        if q >= threads - 1 {
            let w = threads - 1;
            assert(w * sh <= q * sh) by (nonlinear_arith)
                requires w <= q, 0 <= sh;
            assert(q * sh <= y) by (nonlinear_arith)
                requires y == sh * q + y % sh, y % sh >= 0;
            assert(chunk_lo(height, threads, w) <= y < chunk_hi(height, threads, w));
        } else {
            assert(q * sh <= y < (q + 1) * sh) by (nonlinear_arith)
                requires y == sh * q + y % sh, 0 <= y % sh < sh;
            assert(chunk_lo(height, threads, q) <= y < chunk_hi(height, threads, q));
        }
    }
}

} // verus!
