//! The path-tracing engine's data model and intersection engine.
//!
//! Scene geometry and rays live in fixed-point coordinates. An
//! intersection holds the index of the hit object in the scene's list
//! rather than a reference, so a transient path never borrows from the
//! scene. A hit is accepted only at a distance strictly greater than
//! `EPSILON` (which prevents immediate self-re-intersection) and no
//! greater than `FX_COORD_MAX` (beyond which fixed-point positions would
//! leave the representable world); both cuts are part of the stated
//! contracts.

use vstd::prelude::*;
use crate::fixed::{
    tdiv, fmul, fdiv, fsqrt, FX_ONE, EPSILON, FX_COORD_MAX, fdiv_i128, tdiv_i128,
    lemma_tdiv_bound, lemma_sqrt_floor_bounds,
};
use crate::vec3::{
    Vec3, v3, vadd, vsub, vneg, vdot, vcross, vsmul, vbounded, vnormal,
    dot_wide, cross_wide, lemma_vdot_neg,
    lemma_vcross_bound, lemma_vsmul_bound, lemma_vdot_bound,
};
use crate::color3f::{Color3f, c3};
use crate::quaternion::Quaternion;

verus! {

/// Most intersections a single path records.
pub const MAX_BOUNCES: usize = 6;

/// Vertex bound for triangles (512 whole units), tight enough that a
/// triangle's raw normal can still be normalized in `i64`.
pub const TRI_COORD_MAX: i64 = 33554432;

/// Channel bound for emissive colors (1024 whole units).
pub const EMISSIVE_MAX: i64 = 67108864;

#[derive(Clone, Copy, Debug, PartialEq, Eq, Structural)]
pub struct Ray {
    pub origin: Vec3,
    pub dir: Vec3,
}

/// A ray the engine traces: its origin inside the representable world,
/// its direction near unit length (within four whole units, and long
/// enough to be normalized).
pub open spec fn ray_wf(r: Ray) -> bool {
    &&& vbounded(v3(r.origin), FX_COORD_MAX as int)
    &&& vbounded(v3(r.dir), 4 * (FX_ONE as int))
    &&& vdot(v3(r.dir), v3(r.dir)) >= 16
}

/// Executable check for `ray_wf`; the path builder stops a path whose
/// next ray leaves the representable world.
pub fn ray_wf_exec(r: &Ray) -> (b: bool)
    ensures
        b == ray_wf(*r),
{
    let ob = -FX_COORD_MAX <= r.origin.x && r.origin.x <= FX_COORD_MAX
        && -FX_COORD_MAX <= r.origin.y && r.origin.y <= FX_COORD_MAX
        && -FX_COORD_MAX <= r.origin.z && r.origin.z <= FX_COORD_MAX;
    let db = -4 * FX_ONE <= r.dir.x && r.dir.x <= 4 * FX_ONE
        && -4 * FX_ONE <= r.dir.y && r.dir.y <= 4 * FX_ONE
        && -4 * FX_ONE <= r.dir.z && r.dir.z <= 4 * FX_ONE;
    if ob && db {
        r.dir.dot(&r.dir) >= 16
    } else {
        false
    }
}

impl Default for Ray {
    fn default() -> (r: Ray)
        ensures
            v3(r.origin) == (0int, 0int, 0int),
            v3(r.dir) == (0int, 0int, 0int),
    {
        Ray { origin: Vec3 { x: 0, y: 0, z: 0 }, dir: Vec3 { x: 0, y: 0, z: 0 } }
    }
}

#[derive(Clone, Debug)]
pub enum Primitive {
    Sphere(Vec3, i64),
    Triangle(Vec3, Vec3, Vec3),
    Plane(Vec3, Vec3),
    ScatterEvent,
}

impl Primitive {
    pub open spec fn wf(self) -> bool {
        match self {
            Primitive::Sphere(center, radius) =>
                center.wf() && 0 < radius <= FX_COORD_MAX,
            Primitive::Triangle(a, b, c) =>
                vbounded(v3(a), TRI_COORD_MAX as int)
                && vbounded(v3(b), TRI_COORD_MAX as int)
                && vbounded(v3(c), TRI_COORD_MAX as int),
            Primitive::Plane(point, normal) =>
                point.wf()
                && vbounded(v3(normal), 4 * (FX_ONE as int))
                && vdot(v3(normal), v3(normal)) >= 16,
            Primitive::ScatterEvent => true,
        }
    }
}

impl Default for Primitive {
    fn default() -> (r: Primitive)
        ensures
            r matches Primitive::Sphere(c, rad) && v3(c) == (0int, 0int, 0int) && rad == 0,
    {
        Primitive::Sphere(Vec3 { x: 0, y: 0, z: 0 }, 0)
    }
}

#[derive(Clone, Copy, Debug, PartialEq, Eq, Structural)]
pub enum IsectFrom {
    Outside,
    Inside,
}

#[derive(Clone, Copy, Debug)]
pub struct RayIsect {
    pub ray: Ray,
    pub dist: i64,
    pub from: IsectFrom,
    /// Index of the hit object in the scene's list; an index, not a
    /// borrow, so a path does not tie its lifetime to the scene.
    pub obj_idx: usize,
}

/// A hit distance the engine accepts.
pub open spec fn accept_dist(d: int) -> bool {
    EPSILON < d <= FX_COORD_MAX
}

/// Where along its ray an intersection sits.
pub open spec fn hit_pos_spec(isect: RayIsect) -> (int, int, int) {
    vadd(v3(isect.ray.origin), vsmul(v3(isect.ray.dir), isect.dist as int))
}

/// What the sphere test of the intersection engine returns: the quadratic
/// for the hit distance, solved in fixed point, the nearer root if it is
/// acceptably far, the farther root (from inside) if only that one is.
pub open spec fn sphere_isect(o: (int, int, int), d: (int, int, int),
    c: (int, int, int), radius: int) -> Option<(int, IsectFrom)> {
    let v = vsub(o, c);
    let b = -vdot(v, d);
    let sq_det = fmul(b, b) - vdot(v, v) + fmul(radius, radius);
    if sq_det > 0 {
        let det = fsqrt(sq_det);
        let i1 = b - det;
        let i2 = b + det;
        if accept_dist(i1) {
            Some((i1, IsectFrom::Outside))
        } else if i1 <= EPSILON && accept_dist(i2) {
            Some((i2, IsectFrom::Inside))
        } else {
            None
        }
    } else {
        None
    }
}

/// What the triangle test returns: inside iff the three edge cross
/// products agree in sign against the ray direction, at the ray-plane
/// distance.
pub open spec fn triangle_isect(o: (int, int, int), d: (int, int, int),
    a: (int, int, int), b: (int, int, int), c: (int, int, int)) -> Option<(int, IsectFrom)> {
    let n = vcross(vsub(c, a), vsub(b, a));
    let v0d = vdot(vcross(vsub(b, o), vsub(a, o)), d);
    let v1d = vdot(vcross(vsub(a, o), vsub(c, o)), d);
    let v2d = vdot(vcross(vsub(c, o), vsub(b, o)), d);
    if (v0d > 0 && v1d > 0 && v2d > 0) || (v0d < 0 && v1d < 0 && v2d < 0) {
        let denom = vdot(d, n);
        if denom != 0 {
            let t = fdiv(vdot(n, vsub(a, o)), denom);
            if accept_dist(t) {
                Some((t, IsectFrom::Outside))
            } else {
                None
            }
        } else {
            None
        }
    } else {
        None
    }
}

/// What the plane test returns: the ray-plane distance, unless the ray
/// runs nearly parallel to the plane.
pub open spec fn plane_isect(o: (int, int, int), d: (int, int, int),
    p: (int, int, int), n: (int, int, int)) -> Option<(int, IsectFrom)> {
    let denom = vdot(n, d);
    if denom > EPSILON || denom < -(EPSILON as int) {
        let t = fdiv(vdot(vsub(p, o), n), denom);
        if accept_dist(t) {
            Some((t, IsectFrom::Outside))
        } else {
            None
        }
    } else {
        None
    }
}

/// The full per-primitive test. A `ScatterEvent` has no geometry: the
/// search never matches it; only a vacuum program substitutes one in.
pub open spec fn prim_isect(o: (int, int, int), d: (int, int, int), prim: Primitive)
    -> Option<(int, IsectFrom)> {
    match prim {
        Primitive::Sphere(c, radius) => sphere_isect(o, d, v3(c), radius as int),
        Primitive::Triangle(a, b, c) => triangle_isect(o, d, v3(a), v3(b), v3(c)),
        Primitive::Plane(p, n) => plane_isect(o, d, v3(p), v3(n)),
        Primitive::ScatterEvent => None,
    }
}

#[derive(Clone, Copy, Debug, PartialEq, Eq, Structural)]
pub struct ColorProgramResult {
    pub transmissive: Color3f,
    pub emissive: Color3f,
}

/// Every channel of a color-program result lies in its physical range: a
/// transmissive multiplier within one whole unit, an emissive term within
/// the emissive ceiling.
pub open spec fn color_result_wf(r: ColorProgramResult) -> bool {
    &&& 0 <= r.transmissive.r <= FX_ONE
    &&& 0 <= r.transmissive.g <= FX_ONE
    &&& 0 <= r.transmissive.b <= FX_ONE
    &&& 0 <= r.emissive.r <= EMISSIVE_MAX
    &&& 0 <= r.emissive.g <= EMISSIVE_MAX
    &&& 0 <= r.emissive.b <= EMISSIVE_MAX
}

/// How a surface colors the light that folds through it. The checker
/// variant is a procedural floor texture: the parity of the hit point's
/// cell picks one of two colorings.
#[derive(Clone, Copy, Debug)]
pub enum ColorProgram {
    Uniform { transmissive: Color3f, emissive: Color3f },
    Checker { even: ColorProgramResult, odd: ColorProgramResult },
}

impl ColorProgram {
    pub open spec fn wf(self) -> bool {
        match self {
            ColorProgram::Uniform { transmissive, emissive } => color_result_wf(
                ColorProgramResult { transmissive, emissive },
            ),
            ColorProgram::Checker { even, odd } => color_result_wf(even)
                && color_result_wf(odd),
        }
    }
}

/// How a surface picks the next ray of a path. Chances are fixed-point
/// probabilities against a uniform draw; `Glass` carries its refractive
/// index.
#[derive(Clone, Copy, Debug)]
pub enum PathProgram {
    /// Absorb: the path ends here.
    End,
    /// Perfect mirror reflection.
    Mirror,
    /// Cosine-weighted random bounce about the surface normal.
    Diffuse,
    /// Mirror with the given chance, else diffuse.
    SemiMirror { mirror_chance: i64 },
    /// Reflect with the given chance, else refract at the given index.
    Glass { reflect_chance: i64, index: i64 },
    /// Continue straight through the surface.
    Transparent,
    /// Random direction over the whole sphere.
    RandomBounce,
    /// Forward-biased scatter, for participating media.
    FogScatter,
}

impl PathProgram {
    pub open spec fn wf(self) -> bool {
        match self {
            PathProgram::SemiMirror { mirror_chance } => 0 <= mirror_chance <= FX_ONE,
            PathProgram::Glass { reflect_chance, index } => 0 <= reflect_chance <= FX_ONE
                && FX_ONE / 2 <= index <= 4 * FX_ONE,
            _ => true,
        }
    }
}

/// Scatter density of a participating medium, evaluated at a sampled
/// point along a ray segment.
#[derive(Clone, Copy, Debug)]
pub enum DensityModel {
    /// The same scatter chance everywhere.
    Uniform { prob: i64 },
    /// A scatter chance only above a height, as in a ground fog.
    AboveY { y: i64, prob: i64 },
    /// Exponential falloff with distance from a center, as in a planet's
    /// atmosphere; the chance is `2 ^ (k * distance + a)`, capped at one.
    Exp { center: Vec3, k: i64, a: i64 },
}

impl DensityModel {
    pub open spec fn wf(self) -> bool {
        match self {
            DensityModel::Uniform { prob } => 0 <= prob <= FX_ONE,
            DensityModel::AboveY { y, prob } => 0 <= prob <= FX_ONE
                && -FX_COORD_MAX <= y <= FX_COORD_MAX,
            DensityModel::Exp { center, k, a } => center.wf()
                && -FX_COORD_MAX <= k <= FX_COORD_MAX
                && -FX_COORD_MAX <= a <= FX_COORD_MAX,
        }
    }
}

/// A participating-media hook: march the segment up to the hit in steps
/// of `segment_len`, test the density at a random point of each step, and
/// on success substitute a synthetic scatter intersection whose object is
/// the dedicated scatter object at `scatter_obj`.
#[derive(Clone, Copy, Debug)]
pub struct VacuumProgram {
    pub segment_len: i64,
    pub density: DensityModel,
    /// Index of the scene object (a `ScatterEvent`) that supplies the
    /// color and path programs of a scatter.
    pub scatter_obj: usize,
    /// March only when the ray runs inside the carrying object.
    pub only_inside: bool,
}

impl VacuumProgram {
    pub open spec fn wf(self, n_objs: int) -> bool {
        &&& 0 < self.segment_len <= FX_COORD_MAX
        &&& self.density.wf()
        &&& self.scatter_obj < n_objs
    }
}

/// What a vacuum program decides for one raw intersection.
pub enum VacuumAction {
    Continue,
    Scatter(RayIsect),
}

/// The three behavior slots of a surface: pure capability composition,
/// no hierarchy.
#[derive(Clone, Copy, Debug)]
pub struct Material {
    pub color_program: ColorProgram,
    pub path_program: PathProgram,
    pub vacuum_program: Option<VacuumProgram>,
}

impl Material {
    pub open spec fn wf(self, n_objs: int) -> bool {
        &&& self.color_program.wf()
        &&& self.path_program.wf()
        &&& match self.vacuum_program {
            Some(vp) => vp.wf(n_objs),
            None => true,
        }
    }
}

impl Default for Material {
    /// An inert surface: black, absorbing, no medium.
    fn default() -> (r: Material)
        ensures
            r.color_program matches ColorProgram::Uniform { transmissive, emissive }
                && c3(transmissive) == (0int, 0int, 0int)
                && c3(emissive) == (0int, 0int, 0int),
            r.path_program is End,
            r.vacuum_program is None,
    {
        Material {
            color_program: ColorProgram::Uniform {
                transmissive: Color3f { r: 0, g: 0, b: 0 },
                emissive: Color3f { r: 0, g: 0, b: 0 },
            },
            path_program: PathProgram::End,
            vacuum_program: None,
        }
    }
}

#[derive(Clone, Debug)]
pub struct SceneObj {
    pub prim: Primitive,
    pub mat: Material,
}

impl SceneObj {
    pub open spec fn wf(self, n_objs: int) -> bool {
        self.prim.wf() && self.mat.wf(n_objs)
    }
}

/// The scene: an ordered object list (order breaks intersection ties)
/// and an optional global participating-media hook.
pub struct Scene {
    pub objs: Vec<SceneObj>,
    pub vacuum_program: Option<VacuumProgram>,
}

impl Scene {
    /// The participating-media hook that governs a hit of the given
    /// object: the object's own program where it has one, else the
    /// scene-global one.
    pub open spec fn applicable_vacuum(self, obj_idx: int) -> Option<VacuumProgram> {
        match self.objs[obj_idx].mat.vacuum_program {
            Some(vp) => Some(vp),
            None => self.vacuum_program,
        }
    }

    pub open spec fn wf(self) -> bool {
        &&& forall|j: int| 0 <= j < self.objs.len()
            ==> (#[trigger] self.objs[j]).wf(self.objs.len() as int)
        &&& match self.vacuum_program {
            Some(vp) => vp.wf(self.objs.len() as int),
            None => true,
        }
    }
}

#[derive(Clone, Copy, Debug)]
pub struct Camera {
    pub position: Vec3,
    pub orientation: Quaternion,
}

impl Camera {
    pub open spec fn wf(self) -> bool {
        self.position.wf() && self.orientation.wf()
    }
}

/// Frame-level knobs: worker count, secondary samples per cached first
/// intersection, output size, and the display-scale constant of the
/// tonemapper (fixed point).
pub struct RenderConfig {
    pub threads: usize,
    pub samples_per_first_isect: u32,
    pub image_size: (u32, u32),
    pub preview_hdr_gamma: i64,
}

impl RenderConfig {
    pub open spec fn wf(self) -> bool {
        &&& 1 <= self.threads
        &&& 1 <= self.samples_per_first_isect
        &&& 2 <= self.image_size.0 < 16384
        &&& 2 <= self.image_size.1 < 16384
        &&& 0 < self.preview_hdr_gamma <= FX_COORD_MAX
    }
}

impl Default for RenderConfig {
    fn default() -> (r: RenderConfig)
        ensures
            r.threads == 8,
            r.samples_per_first_isect == 20,
            r.image_size == (512u32, 512u32),
            r.preview_hdr_gamma == 100 * FX_ONE,
            r.wf(),
    {
        RenderConfig {
            threads: 8,
            samples_per_first_isect: 20,
            image_size: (512, 512),
            preview_hdr_gamma: 100 * FX_ONE,
        }
    }
}

impl RayIsect {
    /// An intersection the engine may hold: its object index in range,
    /// its ray representable, its distance accepted.
    pub open spec fn valid(self, n_objs: int) -> bool {
        &&& self.obj_idx < n_objs
        &&& ray_wf(self.ray)
        &&& accept_dist(self.dist as int)
    }
}

/// Executable check for `color_result_wf`.
pub fn color_result_wf_exec(r: &ColorProgramResult) -> (b: bool)
    ensures
        b == color_result_wf(*r),
{
    0 <= r.transmissive.r && r.transmissive.r <= FX_ONE
        && 0 <= r.transmissive.g && r.transmissive.g <= FX_ONE
        && 0 <= r.transmissive.b && r.transmissive.b <= FX_ONE
        && 0 <= r.emissive.r && r.emissive.r <= EMISSIVE_MAX
        && 0 <= r.emissive.g && r.emissive.g <= EMISSIVE_MAX
        && 0 <= r.emissive.b && r.emissive.b <= EMISSIVE_MAX
}

fn vec3_bounded_exec(v: &Vec3, m: i64) -> (b: bool)
    requires
        0 <= m,
    ensures
        b == vbounded(v3(*v), m as int),
{
    -m <= v.x && v.x <= m && -m <= v.y && v.y <= m && -m <= v.z && v.z <= m
}

impl Primitive {
    /// Executable check for `Primitive::wf`.
    pub fn wf_check(&self) -> (b: bool)
        ensures
            b == self.wf(),
    {
        match self {
            Primitive::Sphere(center, radius) => vec3_bounded_exec(center, FX_COORD_MAX)
                && 0 < *radius && *radius <= FX_COORD_MAX,
            Primitive::Triangle(a, b, c) => vec3_bounded_exec(a, TRI_COORD_MAX)
                && vec3_bounded_exec(b, TRI_COORD_MAX) && vec3_bounded_exec(c, TRI_COORD_MAX),
            Primitive::Plane(point, normal) => {
                if vec3_bounded_exec(point, FX_COORD_MAX)
                    && vec3_bounded_exec(normal, 4 * FX_ONE) {
                    normal.dot(normal) >= 16
                } else {
                    false
                }
            },
            Primitive::ScatterEvent => true,
        }
    }
}

impl ColorProgram {
    /// Executable check for `ColorProgram::wf`.
    pub fn wf_check(&self) -> (b: bool)
        ensures
            b == self.wf(),
    {
        match self {
            ColorProgram::Uniform { transmissive, emissive } => color_result_wf_exec(
                &ColorProgramResult { transmissive: *transmissive, emissive: *emissive },
            ),
            ColorProgram::Checker { even, odd } => color_result_wf_exec(even)
                && color_result_wf_exec(odd),
        }
    }
}

impl PathProgram {
    /// Executable check for `PathProgram::wf`.
    pub fn wf_check(&self) -> (b: bool)
        ensures
            b == self.wf(),
    {
        match self {
            PathProgram::SemiMirror { mirror_chance } => 0 <= *mirror_chance
                && *mirror_chance <= FX_ONE,
            PathProgram::Glass { reflect_chance, index } => 0 <= *reflect_chance
                && *reflect_chance <= FX_ONE && FX_ONE / 2 <= *index && *index <= 4 * FX_ONE,
            _ => true,
        }
    }
}

impl DensityModel {
    /// Executable check for `DensityModel::wf`.
    pub fn wf_check(&self) -> (b: bool)
        ensures
            b == self.wf(),
    {
        match self {
            DensityModel::Uniform { prob } => 0 <= *prob && *prob <= FX_ONE,
            DensityModel::AboveY { y, prob } => 0 <= *prob && *prob <= FX_ONE
                && -FX_COORD_MAX <= *y && *y <= FX_COORD_MAX,
            DensityModel::Exp { center, k, a } => vec3_bounded_exec(center, FX_COORD_MAX)
                && -FX_COORD_MAX <= *k && *k <= FX_COORD_MAX
                && -FX_COORD_MAX <= *a && *a <= FX_COORD_MAX,
        }
    }
}

impl VacuumProgram {
    /// Executable check for `VacuumProgram::wf`.
    pub fn wf_check(&self, n_objs: usize) -> (b: bool)
        ensures
            b == self.wf(n_objs as int),
    {
        0 < self.segment_len && self.segment_len <= FX_COORD_MAX
            && self.density.wf_check() && self.scatter_obj < n_objs
    }
}

impl Material {
    /// Executable check for `Material::wf`.
    pub fn wf_check(&self, n_objs: usize) -> (b: bool)
        ensures
            b == self.wf(n_objs as int),
    {
        self.color_program.wf_check() && self.path_program.wf_check()
            && match &self.vacuum_program {
                Some(vp) => vp.wf_check(n_objs),
                None => true,
            }
    }
}

impl Scene {
    /// Executable check for `Scene::wf`, for a caller that assembled a
    /// scene outside the engine.
    pub fn wf_check(&self) -> (b: bool)
        ensures
            b == self.wf(),
    {
        let n = self.objs.len();
        let mut i: usize = 0;
        let mut ok = match &self.vacuum_program {
            Some(vp) => vp.wf_check(n),
            None => true,
        };
        while i < n
            invariant
                i <= n,
                n == self.objs.len(),
                ok == {
                    &&& forall|j: int| 0 <= j < i
                        ==> (#[trigger] self.objs[j]).wf(n as int)
                    &&& match self.vacuum_program {
                        Some(vp) => vp.wf(n as int),
                        None => true,
                    }
                },
            decreases n - i,
        {
            let obj_ok = self.objs[i].prim.wf_check() && self.objs[i].mat.wf_check(n);
            ok = ok && obj_ok;
            i = i + 1;
        }
        ok
    }
}

impl Camera {
    /// Executable check for `Camera::wf`.
    pub fn wf_check(&self) -> (b: bool)
        ensures
            b == self.wf(),
    {
        let q = &self.orientation;
        vec3_bounded_exec(&self.position, FX_COORD_MAX)
            && -4 * FX_ONE <= q.a && q.a <= 4 * FX_ONE
            && -4 * FX_ONE <= q.b && q.b <= 4 * FX_ONE
            && -4 * FX_ONE <= q.c && q.c <= 4 * FX_ONE
            && -4 * FX_ONE <= q.d && q.d <= 4 * FX_ONE
    }
}

impl RenderConfig {
    /// Executable check for `RenderConfig::wf`.
    pub fn wf_check(&self) -> (b: bool)
        ensures
            b == self.wf(),
    {
        1 <= self.threads && 1 <= self.samples_per_first_isect
            && 2 <= self.image_size.0 && self.image_size.0 < 16384
            && 2 <= self.image_size.1 && self.image_size.1 < 16384
            && 0 < self.preview_hdr_gamma && self.preview_hdr_gamma <= FX_COORD_MAX
    }
}

/// The per-primitive intersection test, exactly the fixed-point
/// computation that `prim_isect` states. Intermediates run in `i128`;
/// only an accepted distance narrows back to `i64`, which its acceptance
/// bound justifies.
#[verifier::rlimit(60)]
pub fn ray_primitive_intersects(ray: &Ray, scene_obj: &SceneObj, obj_idx: usize)
    -> (r: Option<RayIsect>)
    requires
        ray_wf(*ray),
        scene_obj.prim.wf(),
    ensures
        match r {
            Some(isect) => {
                &&& prim_isect(v3(ray.origin), v3(ray.dir), scene_obj.prim)
                    == Some((isect.dist as int, isect.from))
                &&& isect.ray == *ray
                &&& isect.obj_idx == obj_idx
                &&& accept_dist(isect.dist as int)
            },
            None => prim_isect(v3(ray.origin), v3(ray.dir), scene_obj.prim) is None,
        },
{
    let ghost os = v3(ray.origin);
    let ghost ds = v3(ray.dir);
    let o: (i128, i128, i128) = (ray.origin.x as i128, ray.origin.y as i128,
        ray.origin.z as i128);
    let d: (i128, i128, i128) = (ray.dir.x as i128, ray.dir.y as i128, ray.dir.z as i128);
    match &scene_obj.prim {
        Primitive::Sphere(center, radius) => {
            let v: (i128, i128, i128) = (o.0 - center.x as i128, o.1 - center.y as i128,
                o.2 - center.z as i128);
            let ghost vs = vsub(os, v3(*center));
            proof {
                assert((v.0 as int, v.1 as int, v.2 as int) == vs);
                lemma_vdot_bound(vs, ds, 0x1_0000_0000, 262144);
            }
            let mb: i128 = dot_wide(v, d);
            let b: i128 = -mb;
            let vv: i128 = dot_wide(v, v);
            proof {
                assert((*radius as i128) * (*radius as i128) <= 0x4000_0000_0000_0000)
                    by (nonlinear_arith)
                    requires 0 <= *radius as i128 <= 0x8000_0000;
                assert(b * b <= 0x10_0000_0000_0000int * 0x10_0000_0000_0000int)
                    by (nonlinear_arith)
                    requires -0x10_0000_0000_0000 <= b <= 0x10_0000_0000_0000;
                assert(0 <= b * b) by (nonlinear_arith);
                lemma_tdiv_bound((*radius as int) * (*radius as int), FX_ONE as int,
                    0x4000_0000_0000_0000);
                lemma_tdiv_bound((b * b) as int, FX_ONE as int,
                    0x10_0000_0000_0000int * 0x10_0000_0000_0000int);
                assert(0x10_0000_0000_0000int * 0x10_0000_0000_0000int
                    < 0x4_0000_0000_0000_0000int * 0x4_0000_0000_0000_0000int)
                    by (nonlinear_arith);
                lemma_vdot_bound(vs, vs, 0x1_0000_0000, 0x1_0000_0000);
            }
            let rr: i128 = tdiv_i128((*radius as i128) * (*radius as i128), FX_ONE as i128);
            let bb: i128 = tdiv_i128(b * b, FX_ONE as i128);
            let sq_det: i128 = bb - vv + rr;
            if sq_det > 0 {
                let n: u128 = (sq_det as u128) * 65536;
                let det_u: u128 = crate::fixed::isqrt_u128(n);
                proof {
                    lemma_sqrt_floor_bounds(n as int);
                    assert((det_u as int) < 0x4_0000_0000_0000_0000int) by (nonlinear_arith)
                        requires
                            det_u as int >= 0,
                            (det_u as int) * (det_u as int) <= n as int,
                            (n as int) < 0x4_0000_0000_0000_0000int * 0x4_0000_0000_0000_0000int;
                }
                let det: i128 = det_u as i128;
                let i1: i128 = b - det;
                let i2: i128 = b + det;
                if (EPSILON as i128) < i1 && i1 <= (FX_COORD_MAX as i128) {
                    Some(RayIsect {
                        from: IsectFrom::Outside,
                        dist: i1 as i64,
                        obj_idx,
                        ray: *ray,
                    })
                } else if i1 <= (EPSILON as i128) && (EPSILON as i128) < i2
                    && i2 <= (FX_COORD_MAX as i128) {
                    Some(RayIsect {
                        from: IsectFrom::Inside,
                        dist: i2 as i64,
                        obj_idx,
                        ray: *ray,
                    })
                } else {
                    None
                }
            } else {
                None
            }
        },
        Primitive::Triangle(a, b, c) => {
            let ea: (i128, i128, i128) = (c.x as i128 - a.x as i128, c.y as i128 - a.y as i128,
                c.z as i128 - a.z as i128);
            let eb: (i128, i128, i128) = (b.x as i128 - a.x as i128, b.y as i128 - a.y as i128,
                b.z as i128 - a.z as i128);
            let ghost eas = vsub(v3(*c), v3(*a));
            let ghost ebs = vsub(v3(*b), v3(*a));
            proof {
                lemma_vcross_bound(eas, ebs, 0x8_00_0000, 0x8_00_0000);
                lemma_tdiv_bound(0x8_00_0000int * 0x8_00_0000, FX_ONE as int,
                    0x8_00_0000int * 0x8_00_0000);
            }
            let n: (i128, i128, i128) = cross_wide(ea, eb);
            let bo: (i128, i128, i128) = (b.x as i128 - o.0, b.y as i128 - o.1,
                b.z as i128 - o.2);
            let ao: (i128, i128, i128) = (a.x as i128 - o.0, a.y as i128 - o.1,
                a.z as i128 - o.2);
            let co: (i128, i128, i128) = (c.x as i128 - o.0, c.y as i128 - o.1,
                c.z as i128 - o.2);
            let ghost bos = vsub(v3(*b), os);
            let ghost aos = vsub(v3(*a), os);
            let ghost cos_ = vsub(v3(*c), os);
            proof {
                lemma_vcross_bound(bos, aos, 0x1_0000_0000, 0x1_0000_0000);
                lemma_vcross_bound(aos, cos_, 0x1_0000_0000, 0x1_0000_0000);
                lemma_vcross_bound(cos_, bos, 0x1_0000_0000, 0x1_0000_0000);
                assert(tdiv(0x1_0000_0000int * 0x1_0000_0000, FX_ONE as int)
                    == 0x1_0000_0000_0000int) by {
                    assert(0x1_0000_0000int * 0x1_0000_0000 == 0x1_0000_0000_0000int * 65536)
                        by (nonlinear_arith);
                    crate::fixed::lemma_tdiv_mul_exact(0x1_0000_0000_0000int, 65536);
                };
            }
            let v0c: (i128, i128, i128) = cross_wide(bo, ao);
            let v1c: (i128, i128, i128) = cross_wide(ao, co);
            let v2c: (i128, i128, i128) = cross_wide(co, bo);
            let v0d: i128 = dot_wide(v0c, d);
            let v1d: i128 = dot_wide(v1c, d);
            let v2d: i128 = dot_wide(v2c, d);
            if (v0d > 0 && v1d > 0 && v2d > 0) || (v0d < 0 && v1d < 0 && v2d < 0) {
                let denom: i128 = dot_wide(d, n);
                if denom != 0 {
                    proof {
                        lemma_vdot_bound(vcross(eas, ebs), aos,
                            2 * tdiv(0x8_00_0000int * 0x8_00_0000, FX_ONE as int),
                            0x1_0000_0000);
                    }
                    let nom: i128 = dot_wide(n, ao);
                    let t: i128 = fdiv_i128(nom, denom);
                    if (EPSILON as i128) < t && t <= (FX_COORD_MAX as i128) {
                        Some(RayIsect {
                            from: IsectFrom::Outside,
                            dist: t as i64,
                            obj_idx,
                            ray: *ray,
                        })
                    } else {
                        None
                    }
                } else {
                    None
                }
            } else {
                None
            }
        },
        Primitive::Plane(point, normal) => {
            let nv: (i128, i128, i128) = (normal.x as i128, normal.y as i128,
                normal.z as i128);
            let denom: i128 = dot_wide(nv, d);
            if denom > (EPSILON as i128) || denom < -(EPSILON as i128) {
                let po: (i128, i128, i128) = (point.x as i128 - o.0, point.y as i128 - o.1,
                    point.z as i128 - o.2);
                let ghost pos = vsub(v3(*point), os);
                proof {
                    lemma_vdot_bound(pos, v3(*normal), 0x1_0000_0000, 262144);
                }
                let nom: i128 = dot_wide(po, nv);
                let t: i128 = fdiv_i128(nom, denom);
                if (EPSILON as i128) < t && t <= (FX_COORD_MAX as i128) {
                    Some(RayIsect {
                        from: IsectFrom::Outside,
                        dist: t as i64,
                        obj_idx,
                        ray: *ray,
                    })
                } else {
                    None
                }
            } else {
                None
            }
        },
        Primitive::ScatterEvent => None,
    }
}

/// Whether the ray hits the primitive at an accepted distance.
pub open spec fn hits(r: Ray, prim: Primitive) -> bool {
    prim_isect(v3(r.origin), v3(r.dir), prim) is Some
}

/// The accepted hit distance, where there is one.
pub open spec fn hit_dist(r: Ray, prim: Primitive) -> int {
    prim_isect(v3(r.origin), v3(r.dir), prim)->Some_0.0
}

/// The nearest accepted intersection of a ray with an object list: a
/// valid hit of the named object, no object's hit closer, every earlier
/// object's hit strictly farther (the tie-break).
pub open spec fn nearest_hit(objs: Seq<SceneObj>, r: Ray, isect: RayIsect) -> bool {
    &&& isect.valid(objs.len() as int)
    &&& isect.ray == r
    &&& prim_isect(v3(r.origin), v3(r.dir), objs[isect.obj_idx as int].prim)
        == Some((isect.dist as int, isect.from))
    &&& forall|j: int| 0 <= j < objs.len() && hits(r, (#[trigger] objs[j]).prim)
        ==> hit_dist(r, objs[j].prim) >= isect.dist as int
    &&& forall|j: int| 0 <= j < isect.obj_idx && hits(r, (#[trigger] objs[j]).prim)
        ==> hit_dist(r, objs[j].prim) > isect.dist as int
}

/// The nearest-hit search: a linear scan keeping the least accepted
/// distance, the earlier object winning ties. The contract pins the
/// result as the globally closest accepted intersection.
pub fn find_first_intersection(ray: &Ray, scene: &Vec<SceneObj>) -> (r: Option<RayIsect>)
    requires
        ray_wf(*ray),
        forall|j: int| 0 <= j < scene.len() ==> (#[trigger] scene[j]).prim.wf(),
    ensures
        match r {
            Some(isect) => nearest_hit(scene@, *ray, isect),
            None => forall|j: int| 0 <= j < scene.len()
                ==> !hits(*ray, (#[trigger] scene[j]).prim),
        },
{
    let mut nearest: Option<RayIsect> = None;
    let mut i: usize = 0;
    while i < scene.len()
        invariant
            i <= scene.len(),
            ray_wf(*ray),
            forall|j: int| 0 <= j < scene.len() ==> (#[trigger] scene[j]).prim.wf(),
            match nearest {
                Some(b) => {
                    &&& b.valid(scene.len() as int)
                    &&& b.ray == *ray
                    &&& b.obj_idx < i
                    &&& prim_isect(v3(ray.origin), v3(ray.dir), scene[b.obj_idx as int].prim)
                        == Some((b.dist as int, b.from))
                    &&& forall|j: int| 0 <= j < i && hits(*ray, (#[trigger] scene[j]).prim)
                        ==> hit_dist(*ray, scene[j].prim) >= b.dist as int
                    &&& forall|j: int| 0 <= j < b.obj_idx && hits(*ray, (#[trigger] scene[j]).prim)
                        ==> hit_dist(*ray, scene[j].prim) > b.dist as int
                },
                None => forall|j: int| 0 <= j < i ==> !hits(*ray, (#[trigger] scene[j]).prim),
            },
        decreases scene.len() - i,
    {
        let found = ray_primitive_intersects(ray, &scene[i], i);
        match found {
            Some(isect) => {
                match nearest {
                    Some(b) => {
                        if isect.dist < b.dist {
                            nearest = Some(isect);
                        } else {
                            nearest = Some(b);
                        }
                    },
                    None => {
                        nearest = Some(isect);
                    },
                }
            },
            None => {},
        }
        i = i + 1;
    }
    nearest
}

impl RayIsect {
    /// The point the intersection sits at, along its ray.
    pub fn hit_pos(&self) -> (r: Vec3)
        requires
            ray_wf(self.ray),
            accept_dist(self.dist as int),
        ensures
            v3(r) == hit_pos_spec(*self),
            vbounded(v3(r), 0x4_0000_0000),
    {
        proof {
            lemma_vsmul_bound(v3(self.ray.dir), self.dist as int, 262144,
                FX_COORD_MAX as int);
            assert(tdiv(262144int * (FX_COORD_MAX as int), FX_ONE as int)
                == 0x2_0000_0000int) by {
                assert(262144int * (FX_COORD_MAX as int) == 0x2_0000_0000int * 65536)
                    by (nonlinear_arith)
                    requires FX_COORD_MAX == 0x8000_0000i64;
                crate::fixed::lemma_tdiv_mul_exact(0x2_0000_0000int, 65536);
            };
        }
        self.ray.origin.add(self.ray.dir.smul(self.dist))
    }
}

/// The surface normal at an intersection, exactly as the executable
/// `normal` computes it: normalized offset from a sphere's center, a
/// triangle's normalized edge cross product, a plane's stored normal. A
/// degenerate case (and a synthetic scatter event, which has no surface)
/// falls back to the reversed ray direction.
pub open spec fn isect_normal_spec(isect: RayIsect, prim: Primitive) -> (int, int, int) {
    match prim {
        Primitive::Sphere(center, _) => {
            let v = vsub(hit_pos_spec(isect), v3(center));
            if vdot(v, v) >= 16 {
                vnormal(v)
            } else {
                vnormal(vneg(v3(isect.ray.dir)))
            }
        },
        Primitive::Triangle(w1, w2, w3) => {
            let c = vcross(vsub(v3(w2), v3(w1)), vsub(v3(w2), v3(w3)));
            if vdot(c, c) >= 16 {
                vnormal(c)
            } else {
                vnormal(vneg(v3(isect.ray.dir)))
            }
        },
        Primitive::Plane(_, normal) => v3(normal),
        Primitive::ScatterEvent => vnormal(vneg(v3(isect.ray.dir))),
    }
}

impl RayIsect {
    /// The surface normal at this intersection.
    pub fn normal(&self, scene: &Scene) -> (r: Vec3)
        requires
            self.valid(scene.objs.len() as int),
            scene.wf(),
        ensures
            v3(r) == isect_normal_spec(*self, scene.objs[self.obj_idx as int].prim),
            vbounded(v3(r), 4 * (FX_ONE as int)),
    {
        proof {
            lemma_vdot_neg(v3(self.ray.dir));
        }
        match &scene.objs[self.obj_idx].prim {
            Primitive::Sphere(center, _) => {
                let hp = self.hit_pos();
                let v = hp.sub(*center);
                let dd = v.dot(&v);
                if dd >= 16 {
                    v.normal()
                } else {
                    self.ray.dir.neg().normal()
                }
            },
            Primitive::Triangle(w1, w2, w3) => {
                let e1 = w2.sub(*w1);
                let e2 = w2.sub(*w3);
                proof {
                    lemma_vcross_bound(vsub(v3(*w2), v3(*w1)), vsub(v3(*w2), v3(*w3)),
                        0x4_00_0000, 0x4_00_0000);
                    assert(tdiv(0x4_00_0000int * 0x4_00_0000, FX_ONE as int)
                        == 0x10_0000_0000int) by {
                        assert(0x4_00_0000int * 0x4_00_0000 == 0x10_0000_0000int * 65536)
                            by (nonlinear_arith);
                        crate::fixed::lemma_tdiv_mul_exact(0x10_0000_0000int, 65536);
                    };
                }
                let c = e1.cross(&e2);
                let dd = c.dot(&c);
                if dd >= 16 {
                    c.normal()
                } else {
                    self.ray.dir.neg().normal()
                }
            },
            Primitive::Plane(_, normal) => *normal,
            Primitive::ScatterEvent => self.ray.dir.neg().normal(),
        }
    }
}

} // verus!
