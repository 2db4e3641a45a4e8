use raytracer::material::{Material, ScatterSample};
use raytracer::objects::sphere::Sphere;
use raytracer::objects::{HitData, Interval, World};
use raytracer::ray::Ray;
use raytracer::sampling::Sampler;
use raytracer::scalar::{fx_mul, fx_sqrt, SCALE};
use raytracer::vector::{Color, Float3, Point3, Vec3};
use raytracer::view::{Camera, Screen};
use raytracer::{push_dec, raytrace};

fn v3(x: i64, y: i64, z: i64) -> Vec3 {
    Float3::new(x, y, z)
}

fn p3(x: i64, y: i64, z: i64) -> Point3 {
    Float3::new(x, y, z)
}

fn c3(x: i64, y: i64, z: i64) -> Color {
    Float3::new(x, y, z)
}

fn gray(v: i64) -> Material {
    Material::Lambertian { albedo: c3(v, v, v) }
}

#[test]
fn interval_contains_is_strict() {
    let iv = Interval(SCALE, 5 * SCALE);
    assert!(!iv.contains(SCALE));
    assert!(!iv.contains(5 * SCALE));
    assert!(iv.contains(3 * SCALE));
    assert!(!iv.contains(0));
}

#[test]
fn interval_clamp_saturates() {
    let iv = Interval(-SCALE, SCALE);
    assert_eq!(iv.clamp(3 * SCALE), SCALE);
    assert_eq!(iv.clamp(-3 * SCALE), -SCALE);
    assert_eq!(iv.clamp(7), 7);
}

#[test]
fn fixed_point_products_and_roots() {
    assert_eq!(fx_mul(2 * SCALE, 3 * SCALE), 6 * SCALE);
    assert_eq!(fx_mul(-2 * SCALE, 3 * SCALE), -6 * SCALE);
    assert_eq!(fx_sqrt(4 * SCALE), 2 * SCALE);
    assert_eq!(fx_sqrt(0), 0);
}

#[test]
fn vector_arithmetic() {
    let a = v3(SCALE, 2 * SCALE, 3 * SCALE);
    let b = v3(4 * SCALE, 5 * SCALE, 6 * SCALE);
    let s = a.add(&b);
    assert_eq!((s.x, s.y, s.z), (5 * SCALE, 7 * SCALE, 9 * SCALE));
    let d = b.sub(&a);
    assert_eq!((d.x, d.y, d.z), (3 * SCALE, 3 * SCALE, 3 * SCALE));
    assert_eq!(a.dot(&b), 32 * SCALE);
    let x = v3(SCALE, 0, 0);
    let y = v3(0, SCALE, 0);
    let c = x.cross(&y);
    assert_eq!((c.x, c.y, c.z), (0, 0, SCALE));
}

#[test]
fn retagging_keeps_components() {
    let p = p3(SCALE, 2 * SCALE, -3 * SCALE);
    let v: Vec3 = p.retag();
    assert_eq!((v.x, v.y, v.z), (p.x, p.y, p.z));
}

#[test]
fn hemisphere_samples_point_along_normal() {
    let mut smp = Sampler::new(21);
    let n = v3(0, SCALE, 0);
    for _ in 0..16 {
        let u = Vec3::random_on_hemisphere(&n, &mut smp);
        assert!(n.dot(&u) >= 0);
    }
}

#[test]
fn normalization_of_axis_vector() {
    let v = v3(5 * SCALE, 0, 0);
    let u = v.normalized();
    assert_eq!((u.x, u.y, u.z), (SCALE, 0, 0));
}

#[test]
fn head_on_root_is_distance_minus_radius() {
    let sphere = Sphere { center: p3(0, 0, -3 * SCALE), radius: SCALE, material: gray(SCALE) };
    let ray = Ray { origin: p3(0, 0, 0), direction: v3(0, 0, -SCALE) };
    let hit = sphere.hit(&ray, Interval(raytracer::EPS, i64::MAX)).expect("head-on ray must hit");
    assert_eq!(hit.t, 2 * SCALE);
}

#[test]
fn distant_hit_inside_range_is_reported() {
    let sphere = Sphere { center: p3(0, 0, -200 * SCALE), radius: SCALE, material: gray(SCALE) };
    let ray = Ray { origin: p3(0, 0, 0), direction: v3(0, 0, -SCALE / 16) };
    let hit = sphere.hit(&ray, Interval(raytracer::EPS, i64::MAX)).expect("distant root must hit");
    assert_eq!(hit.t, 3184 * SCALE);
    assert_eq!((hit.normal.x, hit.normal.y, hit.normal.z), (0, 0, SCALE));
}

#[test]
fn tangent_ray_is_a_hit() {
    let sphere = Sphere { center: p3(0, 0, 0), radius: SCALE, material: gray(SCALE) };
    let ray = Ray { origin: p3(0, SCALE, 3 * SCALE), direction: v3(0, 0, -SCALE) };
    let hit = sphere.hit(&ray, Interval(raytracer::EPS, i64::MAX)).expect("tangent ray must hit");
    assert_eq!(hit.t, 3 * SCALE);
    assert_eq!((hit.normal.x, hit.normal.y, hit.normal.z), (0, SCALE, 0));
}

#[test]
fn reflect_twice_about_axis_normal_returns_direction() {
    let d = v3(3 * SCALE / 4, -SCALE / 2, 12345678);
    let n = v3(0, SCALE, 0);
    let once = d.reflect(&n);
    assert_eq!((once.x, once.y, once.z), (d.x, SCALE / 2, d.z));
    let twice = once.reflect(&n);
    assert_eq!((twice.x, twice.y, twice.z), (d.x, d.y, d.z));
}

#[test]
fn lambertian_attenuation_is_albedo() {
    let albedo = c3(SCALE / 10, SCALE / 5, SCALE / 2);
    let mat = Material::Lambertian { albedo };
    let mut ray = Ray { origin: p3(0, 0, 0), direction: v3(0, 0, -SCALE) };
    let hit = HitData { point: p3(0, 0, -2 * SCALE), normal: v3(0, 0, SCALE), t: 2 * SCALE, material: &mat };
    let mut smp = Sampler::new(99);
    for _ in 0..16 {
        let att = mat.scatter(&mut ray, hit, &mut smp);
        assert_eq!((att.x, att.y, att.z), (albedo.x, albedo.y, albedo.z));
        ray = Ray { origin: p3(0, 0, 0), direction: v3(0, 0, -SCALE) };
    }
}

#[test]
fn lambertian_degenerate_direction_falls_back_to_normal() {
    let mat = Material::Lambertian { albedo: c3(SCALE, SCALE, SCALE) };
    let mut ray = Ray { origin: p3(0, 0, 0), direction: v3(0, 0, -SCALE) };
    let hit = HitData { point: p3(0, 0, -2 * SCALE), normal: v3(0, SCALE, 0), t: 2 * SCALE, material: &mat };
    let draw = ScatterSample { unit: v3(0, -SCALE, 0), coin: 0 };
    mat.scatter_with(&mut ray, hit, draw);
    assert_eq!((ray.direction.x, ray.direction.y, ray.direction.z), (0, SCALE, 0));
    assert_eq!((ray.origin.x, ray.origin.y, ray.origin.z), (0, 0, -2 * SCALE));
}

#[test]
fn dielectric_with_unit_ratio_passes_straight_through() {
    let mat = Material::Dielectric { ir: SCALE };
    let mut ray = Ray { origin: p3(0, 0, 0), direction: v3(0, 0, -SCALE) };
    let hit = HitData { point: p3(0, 0, -2 * SCALE), normal: v3(0, 0, SCALE), t: 2 * SCALE, material: &mat };
    let draw = ScatterSample { unit: v3(0, SCALE, 0), coin: 0 };
    let att = mat.scatter_with(&mut ray, hit, draw);
    assert_eq!((ray.direction.x, ray.direction.y, ray.direction.z), (0, 0, -SCALE));
    assert_eq!((att.x, att.y, att.z), (SCALE, SCALE, SCALE));
}

#[test]
fn nearest_of_three_overlapping_spheres_wins() {
    let near = Material::Lambertian { albedo: c3(SCALE, 0, 0) };
    let mid = Material::Lambertian { albedo: c3(0, SCALE, 0) };
    let far = Material::Lambertian { albedo: c3(0, 0, SCALE) };
    let world = World {
        objects: vec![
            Sphere { center: p3(0, 0, -7 * SCALE), radius: SCALE, material: far },
            Sphere { center: p3(0, 0, -3 * SCALE), radius: SCALE, material: near },
            Sphere { center: p3(0, 0, -5 * SCALE), radius: SCALE, material: mid },
        ],
    };
    let ray = Ray { origin: p3(0, 0, 0), direction: v3(0, 0, -SCALE) };
    let hit = world.hit(&ray, Interval(raytracer::EPS, i64::MAX)).expect("must hit");
    assert_eq!(hit.t, 2 * SCALE);
    match hit.material {
        Material::Lambertian { albedo } => assert_eq!((albedo.x, albedo.y, albedo.z), (SCALE, 0, 0)),
        _ => panic!("wrong material reported"),
    }
}

#[test]
fn empty_world_reports_no_hit() {
    let world = World { objects: vec![] };
    let ray = Ray { origin: p3(0, 0, 0), direction: v3(0, 0, -SCALE) };
    assert!(world.hit(&ray, Interval(raytracer::EPS, i64::MAX)).is_none());
}

#[test]
fn background_zenith_and_nadir_colors() {
    let up = Ray { origin: p3(0, 0, 0), direction: v3(0, SCALE, 0) };
    let sky = up.bg_color();
    assert_eq!((sky.x, sky.y, sky.z), (2147483648, 3006477107, 4294967296));
    let down = Ray { origin: p3(0, 0, 0), direction: v3(0, -SCALE, 0) };
    let white = down.bg_color();
    assert_eq!((white.x, white.y, white.z), (SCALE, SCALE, SCALE));
}

#[test]
fn miss_returns_exact_background() {
    let world = World { objects: vec![] };
    let mut smp = Sampler::new(5);
    let ray = Ray { origin: p3(0, 0, 0), direction: v3(0, SCALE, 0) };
    let c = ray.color(&world, &mut smp);
    assert_eq!((c.x, c.y, c.z), (2147483648, 3006477107, 4294967296));
}

#[test]
fn mirror_box_absorbs_to_black() {
    let mirror = Material::Metallic { albedo: c3(SCALE, SCALE, SCALE), fuzz: 0 };
    let world = World {
        objects: vec![
            Sphere { center: p3(0, 0, -3 * SCALE), radius: SCALE, material: mirror },
            Sphere { center: p3(0, 0, 3 * SCALE), radius: SCALE, material: mirror },
        ],
    };
    let mut smp = Sampler::new(11);
    let ray = Ray { origin: p3(0, 0, 0), direction: v3(0, 0, -SCALE) };
    let c = ray.color(&world, &mut smp);
    assert_eq!((c.x, c.y, c.z), (0, 0, 0));
}

#[test]
fn camera_without_defocus_shoots_from_eye() {
    let screen = Screen { height: 2, width: 2 };
    let cam = Camera::new(
        p3(0, 0, 0),
        p3(0, 0, -SCALE),
        v3(0, SCALE, 0),
        SCALE / 2,
        0,
        SCALE,
        &screen,
    );
    let mut smp = Sampler::new(3);
    let r1 = cam.ray_at(0, 0, &mut smp);
    let r2 = cam.ray_at(0, 0, &mut smp);
    assert_eq!((r1.origin.x, r1.origin.y, r1.origin.z), (0, 0, 0));
    assert_eq!((r1.origin.x, r1.origin.y, r1.origin.z), (r2.origin.x, r2.origin.y, r2.origin.z));
    assert_eq!(
        (r1.direction.x, r1.direction.y, r1.direction.z),
        (r2.direction.x, r2.direction.y, r2.direction.z),
    );
}

#[test]
fn write_to_emits_channel_lines() {
    let mut out: Vec<u8> = Vec::new();
    c3(SCALE, SCALE, SCALE).write_to(&mut out);
    assert_eq!(out, b"255 255 255\n".to_vec());
    let mut out2: Vec<u8> = Vec::new();
    c3(0, 0, 0).write_to(&mut out2);
    assert_eq!(out2, b"0 0 0\n".to_vec());
}

#[test]
fn decimal_digits_are_appended() {
    let mut out: Vec<u8> = Vec::new();
    push_dec(&mut out, 0);
    assert_eq!(out, b"0".to_vec());
    let mut out2: Vec<u8> = Vec::new();
    push_dec(&mut out2, 1234);
    assert_eq!(out2, b"1234".to_vec());
}

#[test]
fn tiny_render_is_deterministic_with_pinned_seed() {
    let tan_v = (SCALE as f64 * (10.0f64).to_radians().tan()) as i64;
    let a = raytrace(2, SCALE, 1, tan_v, 0, 7);
    let b = raytrace(2, SCALE, 1, tan_v, 0, 7);
    assert_eq!(a, b);
    let text = String::from_utf8(a).expect("ascii image");
    let mut lines = text.lines();
    assert_eq!(lines.next(), Some("P3"));
    assert_eq!(lines.next(), Some("2 2"));
    assert_eq!(lines.next(), Some("255"));
    let body: Vec<&str> = lines.collect();
    assert_eq!(body.len(), 4);
    for line in body {
        let fields: Vec<&str> = line.split(' ').collect();
        assert_eq!(fields.len(), 3);
        for f in fields {
            let v: u32 = f.parse().expect("numeric channel");
            assert!(v <= 255);
        }
    }
}
