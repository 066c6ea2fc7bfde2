//! Geometry behavior: vectors, rays, intervals, primitives, scene.

use raytrace::hittable::Hittable;
use raytrace::hittable_list::HittableList;
use raytrace::interval::Interval;
use raytrace::material::Material;
use raytrace::plane::Plane;
use raytrace::ray::Ray;
use raytrace::sphere::Sphere;
use raytrace::vec3::Vec3;

const ONE: i64 = 65536;
const T_MAX: i64 = 0x40_0000_0000;

fn full_range() -> Interval {
    Interval { min: 66, max: T_MAX }
}

#[test]
fn ray_at_zero_is_origin() {
    let origin = Vec3::new(ONE, 2 * ONE, 3 * ONE);
    let dir = Vec3::new(ONE, 2 * ONE, -ONE);
    let r = Ray::new(origin, dir);
    assert_eq!(r.at(0), origin);
}

#[test]
fn ray_at_affine_on_exact_parameters() {
    // every componentwise product direction * t is a multiple of 2^16,
    // so scaling is exact and the affine step law holds on the nose
    let origin = Vec3::new(ONE, 2 * ONE, 3 * ONE);
    let dir = Vec3::new(ONE, 2 * ONE, -ONE);
    let r = Ray::new(origin, dir);
    let t1: i64 = 32768;
    let t2: i64 = 16384;
    let lhs = r.at(t1 + t2).sub(&r.at(t1));
    let rhs = dir.scale(t2);
    assert_eq!(lhs, rhs);
}

#[test]
fn normalize_unit_length_and_positive_dot() {
    let v = Vec3::new(3 * ONE, 4 * ONE, 0);
    let n = v.normalize();
    // 3-4-5 triangle: the length is exactly five, so the unit vector is
    // (0.6, 0.8, 0) up to truncation
    assert_eq!(n, Vec3::new(39321, 52428, 0));
    let len = n.length();
    assert!((len - ONE).abs() <= 8, "length {} is not unit", len);
    assert!(n.dot(&v) > 0);
    // an awkward vector: still near-unit and direction-preserving
    let w = Vec3::new(-7, 12, 5);
    let nw = w.normalize();
    assert!(nw.dot(&w) > 0);
}

#[test]
fn interval_tests() {
    let empty = Interval::new();
    assert!(!empty.contains(0));
    assert!(!empty.surrounds(0));
    let i = Interval { min: 10, max: 20 };
    assert_eq!(i.size(), 10);
    assert!(i.contains(10) && i.contains(20) && i.contains(15));
    assert!(!i.surrounds(10) && !i.surrounds(20) && i.surrounds(15));
    assert!(!i.contains(9) && !i.contains(21));
}

#[test]
fn sphere_two_roots_nearest_reported() {
    // unit-ish ray straight at a sphere ahead: both crossings lie in
    // range, and the nearer one (t = 0.5) is the one reported
    let s = Sphere::new(Vec3::new(0, 0, -ONE), 32768, None);
    let r = Ray::new(Vec3::new(0, 0, 0), Vec3::new(0, 0, -ONE));
    let rec = s.hit(&r, full_range()).expect("sphere ahead must be hit");
    assert_eq!(rec.t, 32768);
    // the far crossing is picked up once the near one is excluded
    let rec2 = s
        .hit(&r, Interval { min: 40000, max: T_MAX })
        .expect("far root in range");
    assert_eq!(rec2.t, 98304);
}

#[test]
fn sphere_tangent_single_hit() {
    // ray grazing the sphere: discriminant exactly zero, one crossing
    let s = Sphere::new(Vec3::new(0, 0, -ONE), 32768, None);
    let r = Ray::new(Vec3::new(32768, 0, 0), Vec3::new(0, 0, -ONE));
    let rec = s.hit(&r, full_range()).expect("tangent ray touches");
    assert_eq!(rec.t, ONE);
    // at grazing incidence the direction is orthogonal to the outward
    // normal, so the front-face rule stores the flipped normal
    assert_eq!(rec.normal, Vec3::new(-ONE, 0, 0));
    assert!(!rec.front_face);
}

#[test]
fn sphere_miss_and_behind() {
    let s = Sphere::new(Vec3::new(0, 0, -10 * ONE), 32768, None);
    // pointing away: both roots negative, outside the range
    let away = Ray::new(Vec3::new(0, 0, 0), Vec3::new(0, 0, ONE));
    assert!(away.direction.x == 0);
    assert!(s.hit(&away, full_range()).is_none());
    // aimed wide: negative discriminant
    let wide = Ray::new(Vec3::new(0, 0, 0), Vec3::new(10 * ONE, 0, -ONE));
    assert!(s.hit(&wide, full_range()).is_none());
}

#[test]
fn sphere_hit_record_fields() {
    // the canonical scene: sphere of radius one half, one unit ahead
    let s = Sphere::new(Vec3::new(0, 0, -ONE), 32768, None);
    let r = Ray::new(Vec3::new(0, 0, 0), Vec3::new(0, 0, -ONE));
    let rec = s.hit(&r, full_range()).expect("hit expected");
    assert_eq!(rec.t, 32768);
    assert_eq!(rec.p, Vec3::new(0, 0, -32768));
    assert_eq!(rec.normal, Vec3::new(0, 0, ONE));
    assert!(rec.front_face);
}

#[test]
fn plane_parallel_misses() {
    let pl = Plane::new(Vec3::new(0, -32768, 0), Vec3::new(0, ONE, 0), None);
    let r = Ray::new(Vec3::new(0, 0, 0), Vec3::new(ONE, 0, 0));
    assert!(pl.hit(&r, full_range()).is_none());
}

#[test]
fn plane_perpendicular_hits_at_distance() {
    // eye one unit above the floor, looking straight down: t equals the
    // distance exactly
    let pl = Plane::new(Vec3::new(0, -32768, 0), Vec3::new(0, ONE, 0), None);
    let r = Ray::new(Vec3::new(0, 32768, 0), Vec3::new(0, -ONE, 0));
    let rec = pl.hit(&r, full_range()).expect("perpendicular ray hits");
    assert_eq!(rec.t, ONE);
    assert_eq!(rec.p, Vec3::new(0, -32768, 0));
    assert_eq!(rec.normal, Vec3::new(0, ONE, 0));
    assert!(rec.front_face);
}

#[test]
fn scene_empty_always_misses() {
    let world = HittableList::new();
    let r = Ray::new(Vec3::new(0, 0, 0), Vec3::new(0, 0, -ONE));
    assert!(world.hit(&r, full_range()).is_none());
}

#[test]
fn scene_nearest_of_overlapping() {
    // three spheres along one ray, added far-to-near: the nearest wins
    let mut world = HittableList::new();
    world.add_sphere(Vec3::new(0, 0, -4 * ONE), 32768, None);
    world.add_sphere(Vec3::new(0, 0, -2 * ONE), 32768, None);
    world.add_sphere(Vec3::new(0, 0, -ONE), 32768, None);
    let r = Ray::new(Vec3::new(0, 0, 0), Vec3::new(0, 0, -ONE));
    let rec = world.hit(&r, full_range()).expect("nearest sphere hit");
    assert_eq!(rec.t, 32768);
    assert_eq!(rec.p, Vec3::new(0, 0, -32768));
}

#[test]
fn scene_equal_t_keeps_earlier() {
    // two spheres at the same depth: the tightened window is strict, so
    // the one added first is kept
    let first = Material::Lambertian { albedo: Vec3::new(ONE, 0, 0) };
    let second = Material::Lambertian { albedo: Vec3::new(0, ONE, 0) };
    let mut world = HittableList::new();
    world.add_sphere(Vec3::new(0, 0, -ONE), 32768, Some(first));
    world.add_sphere(Vec3::new(0, 0, -ONE), 32768, Some(second));
    let r = Ray::new(Vec3::new(0, 0, 0), Vec3::new(0, 0, -ONE));
    let rec = world.hit(&r, full_range()).expect("hit expected");
    match rec.mat {
        Some(Material::Lambertian { albedo }) => assert_eq!(albedo, Vec3::new(ONE, 0, 0)),
        _ => panic!("wrong material kept"),
    }
}

#[test]
fn cross_product_axes() {
    let x = Vec3::new(ONE, 0, 0);
    let y = Vec3::new(0, ONE, 0);
    assert_eq!(x.cross(&y), Vec3::new(0, 0, ONE));
    assert_eq!(y.cross(&x), Vec3::new(0, 0, -ONE));
}

#[test]
fn vector_componentwise_ops() {
    let a = Vec3::new(ONE, 2 * ONE, 3 * ONE);
    let b = Vec3::new(2 * ONE, 2 * ONE, -ONE);
    assert_eq!(a.add(&b), Vec3::new(3 * ONE, 4 * ONE, 2 * ONE));
    assert_eq!(a.sub(&b), Vec3::new(-ONE, 0, 4 * ONE));
    assert_eq!(a.mul(&b), Vec3::new(2 * ONE, 4 * ONE, -3 * ONE));
    assert_eq!(a.scale(32768), Vec3::new(32768, ONE, ONE + 32768));
    assert_eq!(a.div(2 * ONE), Vec3::new(32768, ONE, ONE + 32768));
    assert_eq!(a.dot(&b), 3 * ONE);
    assert_eq!(a.length_squared(), 14 * ONE);
}

#[test]
fn reflect_about_normal() {
    // incoming straight down onto the floor reflects straight up
    let d = Vec3::new(0, -ONE, 0);
    let n = Vec3::new(0, ONE, 0);
    assert_eq!(d.reflect(&n), Vec3::new(0, ONE, 0));
    // a 45 degree bounce
    let d2 = Vec3::new(ONE, -ONE, 0);
    assert_eq!(d2.reflect(&n), Vec3::new(ONE, ONE, 0));
}
