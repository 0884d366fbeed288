use rustyballs::color3f::Color3f;
use rustyballs::fixed::{exp2_fx_exec, log1p_fx_exec, EPSILON, FX_ONE};
use rustyballs::quaternion::Quaternion;
use rustyballs::raytracer::{
    find_first_intersection, ray_primitive_intersects, Camera, ColorProgram,
    ColorProgramResult, IsectFrom, Material, Primitive, Ray, RayIsect, RenderConfig, Scene,
    SceneObj, MAX_BOUNCES,
};
use rustyballs::rng::Rng;
use rustyballs::raytracer::DensityModel;
use rustyballs::shaders::{eval_color_program, eval_density, glass_pp};
use rustyballs::vec3::Vec3;
use rustyballs::{
    chunk_bounds, collect_light_from_path, hdr_postprocess_blit, make_eye_rays,
    make_ray_scatter_path, max_value_of_photon_buffer, normalize_photon_buffer,
    path_trace_rays, path_trace_scene, render_pixels, validate_render_inputs, Path,
    RenderError,
};

fn v(x: i64, y: i64, z: i64) -> Vec3 {
    Vec3 { x, y, z }
}

fn color(r: i64, g: i64, b: i64) -> Color3f {
    Color3f { r, g, b }
}

fn uniform_mat(transmissive: Color3f, emissive: Color3f, pp: rustyballs::raytracer::PathProgram) -> Material {
    Material {
        color_program: ColorProgram::Uniform { transmissive, emissive },
        path_program: pp,
        vacuum_program: None,
    }
}

#[test]
fn test_vec3() {
    let x = v(3 * FX_ONE, 4 * FX_ONE, 0);
    let ix = v(FX_ONE, 0, 0);
    let iy = v(0, FX_ONE, 0);
    assert_eq!(x.length(), 5 * FX_ONE);
    assert_eq!(x.dot(&x), 25 * FX_ONE);
    assert_eq!(ix.add(iy), v(FX_ONE, FX_ONE, 0));
    assert_eq!(ix.sub(iy), v(FX_ONE, -FX_ONE, 0));
    assert_eq!(ix.cross(&iy), v(0, 0, FX_ONE));
    assert_eq!(x.smul(10 * FX_ONE), v(30 * FX_ONE, 40 * FX_ONE, 0));
    // normalization is exact only up to fixed-point truncation
    let len = x.normal().length();
    assert!((len - FX_ONE).abs() <= 8, "normalized length {len}");
}

#[test]
fn test_color3f() {
    let c = color(FX_ONE, FX_ONE / 2, FX_ONE / 4);
    assert_eq!(c.add(c), color(2 * FX_ONE, FX_ONE, FX_ONE / 2));
}

#[test]
fn test_color_ops() {
    let c = color(FX_ONE, FX_ONE / 2, 0);
    assert_eq!(c.smul(2 * FX_ONE), color(2 * FX_ONE, FX_ONE, 0));
    assert_eq!(c.mul(color(FX_ONE / 2, FX_ONE, FX_ONE)), color(FX_ONE / 2, FX_ONE / 2, 0));
    assert_eq!(c.max_channel(), FX_ONE);
    assert_eq!(Color3f::black(), color(0, 0, 0));
}

fn inert_obj(prim: Primitive) -> SceneObj {
    SceneObj { prim, mat: Material::default() }
}

/// A ray through the center of a unit sphere from five units away: the
/// two quadratic roots sit at four and six units; the near one is
/// reported from outside.
#[test]
fn test_sphere_outside_hit() {
    let obj = inert_obj(Primitive::Sphere(v(0, 0, 0), FX_ONE));
    let ray = Ray { origin: v(0, 0, 5 * FX_ONE), dir: v(0, 0, -FX_ONE) };
    let isect = ray_primitive_intersects(&ray, &obj, 0).expect("hit");
    assert_eq!(isect.dist, 4 * FX_ONE);
    assert!(matches!(isect.from, IsectFrom::Outside));
}

/// From inside a sphere of radius six, the far root at six units is
/// reported from inside.
#[test]
fn test_sphere_inside_hit() {
    let obj = inert_obj(Primitive::Sphere(v(0, 0, 0), 6 * FX_ONE));
    let ray = Ray { origin: v(0, 0, 0), dir: v(0, 0, -FX_ONE) };
    let isect = ray_primitive_intersects(&ray, &obj, 0).expect("hit");
    assert_eq!(isect.dist, 6 * FX_ONE);
    assert!(matches!(isect.from, IsectFrom::Inside));
}

/// Offset perpendicular past the radius, the ray misses.
#[test]
fn test_sphere_miss() {
    let obj = inert_obj(Primitive::Sphere(v(0, 0, 0), FX_ONE));
    let ray = Ray { origin: v(2 * FX_ONE, 0, 5 * FX_ONE), dir: v(0, 0, -FX_ONE) };
    assert!(ray_primitive_intersects(&ray, &obj, 0).is_none());
}

#[test]
fn test_plane_hit_and_parallel_miss() {
    let obj = inert_obj(Primitive::Plane(v(0, 0, 0), v(0, FX_ONE, 0)));
    let ray = Ray { origin: v(0, 3 * FX_ONE, 0), dir: v(0, -FX_ONE, 0) };
    let isect = ray_primitive_intersects(&ray, &obj, 0).expect("hit");
    assert_eq!(isect.dist, 3 * FX_ONE);
    let parallel = Ray { origin: v(0, 3 * FX_ONE, 0), dir: v(FX_ONE, 0, 0) };
    assert!(ray_primitive_intersects(&parallel, &obj, 0).is_none());
}

#[test]
fn test_triangle_hit() {
    let obj = inert_obj(Primitive::Triangle(
        v(-2 * FX_ONE, -FX_ONE, -4 * FX_ONE),
        v(2 * FX_ONE, -FX_ONE, -4 * FX_ONE),
        v(0, 3 * FX_ONE, -4 * FX_ONE),
    ));
    let ray = Ray { origin: v(0, 0, 0), dir: v(0, 0, -FX_ONE) };
    let isect = ray_primitive_intersects(&ray, &obj, 0).expect("hit");
    assert_eq!(isect.dist, 4 * FX_ONE);
    let miss = Ray { origin: v(5 * FX_ONE, 0, 0), dir: v(0, 0, -FX_ONE) };
    assert!(ray_primitive_intersects(&miss, &obj, 0).is_none());
}

/// The nearest-hit search returns the globally closest intersection,
/// ties going to the earlier object.
#[test]
fn test_find_first_nearest() {
    let far = inert_obj(Primitive::Sphere(v(0, 0, -10 * FX_ONE), FX_ONE));
    let near = inert_obj(Primitive::Sphere(v(0, 0, -5 * FX_ONE), FX_ONE));
    let objs = vec![far, near];
    let ray = Ray { origin: v(0, 0, 0), dir: v(0, 0, -FX_ONE) };
    let isect = find_first_intersection(&ray, &objs).expect("hit");
    assert_eq!(isect.obj_idx, 1);
    assert_eq!(isect.dist, 4 * FX_ONE);

    let twin_a = inert_obj(Primitive::Sphere(v(0, 0, -5 * FX_ONE), FX_ONE));
    let twin_b = inert_obj(Primitive::Sphere(v(0, 0, -5 * FX_ONE), FX_ONE));
    let twins = vec![twin_a, twin_b];
    let isect = find_first_intersection(&ray, &twins).expect("hit");
    assert_eq!(isect.obj_idx, 0, "the earlier object wins a tie");

    let empty: Vec<SceneObj> = Vec::new();
    assert!(find_first_intersection(&ray, &empty).is_none());
}

/// Reflecting a direction about an axis-aligned unit normal twice
/// returns the original direction exactly.
#[test]
fn test_reflect_round_trip() {
    let n = v(0, FX_ONE, 0);
    let d = v(3000, -4000, 500);
    let reflect_once = |d: Vec3| -> Vec3 { d.sub(n.smul(d.dot(&n)).smul(2 * FX_ONE)) };
    let r1 = reflect_once(d);
    assert_eq!(r1, v(3000, 4000, 500));
    assert_eq!(reflect_once(r1), d);
}

/// Refraction at normal incidence from index one into one and a half is
/// undeviated: a head-on hit of a glass sphere continues straight.
#[test]
fn test_refraction_normal_incidence() {
    let glass = SceneObj {
        prim: Primitive::Sphere(v(0, 0, 0), FX_ONE),
        mat: Material {
            color_program: ColorProgram::Uniform {
                transmissive: color(FX_ONE, FX_ONE, FX_ONE),
                emissive: Color3f::black(),
            },
            path_program: rustyballs::raytracer::PathProgram::Glass {
                reflect_chance: 0,
                index: 3 * FX_ONE / 2,
            },
            vacuum_program: None,
        },
    };
    let scene = Scene { objs: vec![glass], vacuum_program: None };
    let ray = Ray { origin: v(0, 0, 5 * FX_ONE), dir: v(0, 0, -FX_ONE) };
    let isect = ray_primitive_intersects(&ray, &scene.objs[0], 0).expect("hit");
    assert_eq!(isect.dist, 4 * FX_ONE);
    let mut rng = Rng::new(7);
    let next = glass_pp(&isect, &scene, &mut rng, 0, 3 * FX_ONE / 2).expect("refracted");
    assert_eq!(next.dir, v(0, 0, -FX_ONE), "undeviated direction");
    assert_eq!(next.origin, v(0, 0, FX_ONE - EPSILON), "an epsilon past the surface");
}

/// However eagerly the path programs keep bouncing, a path never records
/// more than the bounce cap.
#[test]
fn test_path_bounded() {
    let floor_mirror = SceneObj {
        prim: Primitive::Plane(v(0, -2 * FX_ONE, 0), v(0, FX_ONE, 0)),
        mat: uniform_mat(
            color(FX_ONE, FX_ONE, FX_ONE),
            Color3f::black(),
            rustyballs::raytracer::PathProgram::Mirror,
        ),
    };
    let ceiling_mirror = SceneObj {
        prim: Primitive::Plane(v(0, 2 * FX_ONE, 0), v(0, -FX_ONE, 0)),
        mat: uniform_mat(
            color(FX_ONE, FX_ONE, FX_ONE),
            Color3f::black(),
            rustyballs::raytracer::PathProgram::Mirror,
        ),
    };
    let scene = Scene { objs: vec![floor_mirror, ceiling_mirror], vacuum_program: None };
    let mut rng = Rng::new(99);
    let mut path = Path::new();
    let ray = Ray { origin: v(0, 0, 0), dir: v(0, FX_ONE, 0) };
    make_ray_scatter_path(&ray, &scene, &mut rng, &mut path);
    assert!(path.num_bounces() <= MAX_BOUNCES);
    assert_eq!(path.num_bounces(), MAX_BOUNCES, "mirrors facing each other exhaust the cap");
}

/// A single-object scene with a purely emissive sphere and an absorbing
/// path program folds to exactly full white for a pixel whose ray hits.
#[test]
fn test_emissive_sphere_end_to_end() {
    let sphere = SceneObj {
        prim: Primitive::Sphere(v(0, 0, -5 * FX_ONE), FX_ONE),
        mat: uniform_mat(
            Color3f::black(),
            color(FX_ONE, FX_ONE, FX_ONE),
            rustyballs::raytracer::PathProgram::End,
        ),
    };
    let scene = Scene { objs: vec![sphere], vacuum_program: None };
    let config = RenderConfig { samples_per_first_isect: 1, ..RenderConfig::default() };
    let rays = vec![Ray { origin: v(0, 0, 0), dir: v(0, 0, -FX_ONE) }];
    let mut buffer = vec![Color3f::black()];
    let mut rng = Rng::new(1);
    path_trace_rays(&config, &rays, &scene, &mut rng, &mut buffer);
    assert_eq!(buffer[0], color(FX_ONE, FX_ONE, FX_ONE));
}

/// Secondary samples re-fold the cached first intersection: with an
/// absorbing emissive surface every sample contributes the same radiance.
#[test]
fn test_first_isect_reuse_accumulates() {
    let sphere = SceneObj {
        prim: Primitive::Sphere(v(0, 0, -5 * FX_ONE), FX_ONE),
        mat: uniform_mat(
            Color3f::black(),
            color(FX_ONE, FX_ONE, FX_ONE),
            rustyballs::raytracer::PathProgram::End,
        ),
    };
    let scene = Scene { objs: vec![sphere], vacuum_program: None };
    let config = RenderConfig { samples_per_first_isect: 3, ..RenderConfig::default() };
    let rays = vec![Ray { origin: v(0, 0, 0), dir: v(0, 0, -FX_ONE) }];
    let mut buffer = vec![Color3f::black()];
    let mut rng = Rng::new(1);
    path_trace_rays(&config, &rays, &scene, &mut rng, &mut buffer);
    assert_eq!(buffer[0], color(3 * FX_ONE, 3 * FX_ONE, 3 * FX_ONE));
}

/// The radiance fold filters emitted light through transmissive
/// surfaces, back to front.
#[test]
fn test_collect_light_fold() {
    let filter = SceneObj {
        prim: Primitive::Plane(v(0, 0, -2 * FX_ONE), v(0, 0, FX_ONE)),
        mat: uniform_mat(
            color(FX_ONE / 2, FX_ONE, 0),
            Color3f::black(),
            rustyballs::raytracer::PathProgram::Transparent,
        ),
    };
    let light = SceneObj {
        prim: Primitive::Sphere(v(0, 0, -10 * FX_ONE), FX_ONE),
        mat: uniform_mat(
            Color3f::black(),
            color(FX_ONE, FX_ONE, FX_ONE),
            rustyballs::raytracer::PathProgram::End,
        ),
    };
    let scene = Scene { objs: vec![filter, light], vacuum_program: None };
    let ray = Ray { origin: v(0, 0, 0), dir: v(0, 0, -FX_ONE) };
    let mut rng = Rng::new(5);
    let mut path = Path::new();
    make_ray_scatter_path(&ray, &scene, &mut rng, &mut path);
    assert_eq!(path.num_bounces(), 2);
    let folded = collect_light_from_path(&path, &scene);
    // white light through a (1/2, 1, 0) filter
    assert_eq!(folded, color(FX_ONE / 2, FX_ONE, 0));
}

/// The checkered floor alternates by the parity of the hit cell.
#[test]
fn test_checker_color_program() {
    let even = ColorProgramResult {
        transmissive: color(FX_ONE, FX_ONE, FX_ONE),
        emissive: Color3f::black(),
    };
    let odd = ColorProgramResult {
        transmissive: color(FX_ONE / 2, FX_ONE / 2, FX_ONE / 2),
        emissive: Color3f::black(),
    };
    let cp = ColorProgram::Checker { even, odd };
    // hit position (1.5, 0, 0.5): cells 1 + 0, odd
    let isect = RayIsect {
        ray: Ray { origin: v(3 * FX_ONE / 2, FX_ONE, FX_ONE / 2), dir: v(0, -FX_ONE, 0) },
        dist: FX_ONE,
        from: IsectFrom::Outside,
        obj_idx: 0,
    };
    assert_eq!(eval_color_program(&cp, &isect), odd);
    // hit position (1.5, 0, 1.5): cells 1 + 1, even
    let isect2 = RayIsect {
        ray: Ray { origin: v(3 * FX_ONE / 2, FX_ONE, 3 * FX_ONE / 2), dir: v(0, -FX_ONE, 0) },
        dist: FX_ONE,
        from: IsectFrom::Outside,
        obj_idx: 0,
    };
    assert_eq!(eval_color_program(&cp, &isect2), even);
}

/// An all-dark radiance buffer tonemaps to all-dark display bytes.
#[test]
fn test_tonemap_zero_buffer() {
    let buffer = vec![Color3f::black(); 16];
    let out = hdr_postprocess_blit(&buffer);
    assert_eq!(out.len(), 48);
    assert!(out.iter().all(|&b| b == 0));
}

/// Raising the buffer's maximum darkens a fixed non-maximal pixel.
#[test]
fn test_tonemap_monotone_compression() {
    let dim = color(50 * FX_ONE, 0, 0);
    let low = vec![color(100 * FX_ONE, 0, 0), dim];
    let high = vec![color(200 * FX_ONE, 0, 0), dim];
    let out_low = hdr_postprocess_blit(&low);
    let out_high = hdr_postprocess_blit(&high);
    assert!(out_low[3] > out_high[3],
        "dim pixel brightened from {} to {}", out_low[3], out_high[3]);
}

#[test]
fn test_max_and_normalize() {
    let buffer = vec![color(FX_ONE, 4 * FX_ONE, 0), color(2 * FX_ONE, 0, 0)];
    assert_eq!(max_value_of_photon_buffer(&buffer), 4 * FX_ONE);
    let (norm, max) = normalize_photon_buffer(&buffer);
    assert_eq!(max, 4 * FX_ONE);
    assert_eq!(norm[0], color(FX_ONE / 4, FX_ONE, 0));
    assert_eq!(norm[1], color(FX_ONE / 2, 0, 0));

    let dark = vec![Color3f::black(); 3];
    let (same, max0) = normalize_photon_buffer(&dark);
    assert_eq!(max0, 0);
    assert_eq!(same.len(), 3);
}

#[test]
fn test_render_pixels_shared_exposure() {
    // two faces tonemapped against a shared maximum agree on equal pixels
    let face_a = vec![color(10 * FX_ONE, 0, 0)];
    let face_b = vec![color(10 * FX_ONE, 0, 0), color(90 * FX_ONE, 0, 0)];
    let shared = max_value_of_photon_buffer(&face_b);
    let out_a = render_pixels(&face_a, shared, 255);
    let out_b = render_pixels(&face_b, shared, 255);
    assert_eq!(out_a[0], out_b[0]);
}

#[test]
fn test_log_and_exp_curves() {
    assert_eq!(log1p_fx_exec(0), 0);
    assert_eq!(log1p_fx_exec(FX_ONE), FX_ONE, "log2(1 + 1) is one");
    assert_eq!(log1p_fx_exec(3 * FX_ONE), 2 * FX_ONE, "log2(1 + 3) is two");
    assert!(log1p_fx_exec(-5) == 0, "negative radiance reads as dark");
    assert_eq!(exp2_fx_exec(0), FX_ONE);
    assert_eq!(exp2_fx_exec(FX_ONE), 2 * FX_ONE);
    assert_eq!(exp2_fx_exec(-FX_ONE), FX_ONE / 2);
}

#[test]
fn test_chunk_bounds_partition() {
    let mut covered = 0u32;
    for i in 0..8 {
        let (lo, hi) = chunk_bounds(512, 8, i);
        assert_eq!(lo, covered);
        covered = hi;
        assert_eq!(hi - lo, 64);
    }
    assert_eq!(covered, 512);
    // remainder rows fold into the last chunk
    let (lo, hi) = chunk_bounds(10, 3, 2);
    assert_eq!((lo, hi), (6, 10));
}

#[test]
fn test_eye_rays_shape() {
    let cam_pos = v(0, 0, 0);
    let ori = Quaternion::default();
    let rays = make_eye_rays(&cam_pos, &ori, 8, 8, (2, 4), (0, 0));
    assert_eq!(rays.len(), 16);
    for r in &rays {
        assert_eq!(r.origin, cam_pos);
        assert!(r.dir.z < 0, "eye rays look down the negative z axis");
    }
}

#[test]
fn test_quaternion_identity_rotation() {
    let q = Quaternion::default();
    let d = v(FX_ONE, -FX_ONE / 2, FX_ONE / 3);
    assert_eq!(q.vmul(&d), d);
}

#[test]
fn test_quaternion_axis_rotation() {
    // a half turn about the y axis roughly reverses x
    let q = Quaternion::from_axis_angle(&v(0, FX_ONE, 0), rustyballs::quaternion::FX_PI);
    let d = v(FX_ONE, 0, 0);
    let r = q.vmul(&d);
    assert!((r.x + FX_ONE).abs() < FX_ONE / 16, "x {}", r.x);
    assert!(r.y.abs() < FX_ONE / 16 && r.z.abs() < FX_ONE / 16);
}

#[test]
fn test_validate_errors() {
    let good_scene = Scene {
        objs: vec![inert_obj(Primitive::Sphere(v(0, 0, -5 * FX_ONE), FX_ONE))],
        vacuum_program: None,
    };
    let good_camera = Camera { position: v(0, 0, 0), orientation: Quaternion::default() };
    let good_config = RenderConfig::default();
    assert_eq!(validate_render_inputs(&good_config, &good_camera, &good_scene), Ok(()));

    let bad_config = RenderConfig { threads: 0, ..RenderConfig::default() };
    assert_eq!(validate_render_inputs(&bad_config, &good_camera, &good_scene),
        Err(RenderError::BadConfig));

    let bad_camera = Camera { position: v(i64::MAX, 0, 0), orientation: Quaternion::default() };
    assert_eq!(validate_render_inputs(&good_config, &bad_camera, &good_scene),
        Err(RenderError::BadCamera));

    let malformed = Scene {
        objs: vec![inert_obj(Primitive::Sphere(v(0, 0, 0), 0))],
        vacuum_program: None,
    };
    assert_eq!(validate_render_inputs(&good_config, &good_camera, &malformed),
        Err(RenderError::MalformedScene));

    let empty = Scene { objs: Vec::new(), vacuum_program: None };
    assert_eq!(validate_render_inputs(&good_config, &good_camera, &empty),
        Err(RenderError::EmptyScene));
}

/// A saturated uniform scatter density substitutes a synthetic scatter
/// event strictly between the ray origin and the surface hit.
#[test]
fn test_vacuum_scatter_substitution() {
    let wall = SceneObj {
        prim: Primitive::Sphere(v(0, 0, -8 * FX_ONE), FX_ONE),
        mat: uniform_mat(
            Color3f::black(),
            color(FX_ONE, FX_ONE, FX_ONE),
            rustyballs::raytracer::PathProgram::End,
        ),
    };
    let fog_medium = SceneObj {
        prim: Primitive::ScatterEvent,
        mat: uniform_mat(
            color(FX_ONE, FX_ONE, FX_ONE),
            Color3f::black(),
            rustyballs::raytracer::PathProgram::FogScatter,
        ),
    };
    let scene = Scene {
        objs: vec![wall, fog_medium],
        vacuum_program: Some(rustyballs::raytracer::VacuumProgram {
            segment_len: FX_ONE,
            density: rustyballs::raytracer::DensityModel::Uniform { prob: FX_ONE },
            scatter_obj: 1,
            only_inside: false,
        }),
    };
    let ray = Ray { origin: v(0, 0, 0), dir: v(0, 0, -FX_ONE) };
    let mut rng = Rng::new(3);
    let mut path = Path::new();
    make_ray_scatter_path(&ray, &scene, &mut rng, &mut path);
    assert!(path.num_bounces() >= 1);
    let first = path.isects[0];
    assert_eq!(first.obj_idx, 1, "the recorded hit is the scatter event");
    assert!(first.dist > EPSILON && first.dist < 7 * FX_ONE);
    assert!(matches!(first.from, IsectFrom::Outside));
}

/// The exponential falloff density saturates at one near its center and
/// the height-gated density fires only above its threshold.
#[test]
fn test_density_models() {
    let saturated = DensityModel::Exp { center: v(0, 0, 0), k: 0, a: 0 };
    assert_eq!(eval_density(&saturated, &v(FX_ONE, 0, 0)), FX_ONE);
    let falling = DensityModel::Exp { center: v(0, 0, 0), k: -FX_ONE, a: 0 };
    let near = eval_density(&falling, &v(FX_ONE, 0, 0));
    let far = eval_density(&falling, &v(4 * FX_ONE, 0, 0));
    assert!(near > far, "density falls with distance: {near} vs {far}");
    let fog = DensityModel::AboveY { y: 2 * FX_ONE, prob: FX_ONE / 2 };
    assert_eq!(eval_density(&fog, &v(0, 3 * FX_ONE, 0)), FX_ONE / 2);
    assert_eq!(eval_density(&fog, &v(0, FX_ONE, 0)), 0);
}

/// Parallel rendering over disjoint row chunks agrees with a
/// single-threaded pass on a scene whose programs never draw randomness.
#[test]
fn test_parallel_matches_sequential() {
    let light = SceneObj {
        prim: Primitive::Sphere(v(0, 0, -6 * FX_ONE), 2 * FX_ONE),
        mat: uniform_mat(
            Color3f::black(),
            color(FX_ONE, FX_ONE / 2, FX_ONE / 4),
            rustyballs::raytracer::PathProgram::End,
        ),
    };
    let mirror_wall = SceneObj {
        prim: Primitive::Plane(v(0, -2 * FX_ONE, 0), v(0, FX_ONE, 0)),
        mat: uniform_mat(
            color(FX_ONE / 2, FX_ONE / 2, FX_ONE / 2),
            Color3f::black(),
            rustyballs::raytracer::PathProgram::Mirror,
        ),
    };
    let scene = Scene { objs: vec![light, mirror_wall], vacuum_program: None };
    let camera = Camera { position: v(0, 0, 0), orientation: Quaternion::default() };
    let config = RenderConfig {
        threads: 2,
        samples_per_first_isect: 1,
        image_size: (8, 8),
        preview_hdr_gamma: 100 * FX_ONE,
    };
    let (w, h) = (8u32, 8u32);
    // single-threaded reference
    let mut seq = vec![Color3f::black(); (w * h) as usize];
    let mut rng = Rng::new(42);
    path_trace_scene(&config, &camera, &scene, w, h, (0, h), (0, 0), &mut seq, &mut rng);
    // two workers over disjoint chunks, independent streams
    let mut chunks: Vec<Vec<Color3f>> = Vec::new();
    crossbeam::scope(|scope| {
        let mut handles = Vec::new();
        for i in 0..2usize {
            let (lo, hi) = chunk_bounds(h, 2, i);
            let scene_ref = &scene;
            let config_ref = &config;
            let camera_ref = &camera;
            handles.push(scope.spawn(move |_| {
                let mut part = vec![Color3f::black(); ((hi - lo) * w) as usize];
                let mut rng = Rng::new(1000 + i as u64);
                path_trace_scene(config_ref, camera_ref, scene_ref, w, h, (lo, hi), (0, 0),
                    &mut part, &mut rng);
                part
            }));
        }
        for handle in handles {
            chunks.push(handle.join().unwrap());
        }
    })
    .unwrap();
    let par: Vec<Color3f> = chunks.into_iter().flatten().collect();
    assert_eq!(par.len(), seq.len());
    for (a, b) in par.iter().zip(seq.iter()) {
        assert_eq!(a, b);
    }
}
