//! Spheres, with the closed-form quadratic ray intersection.

use vstd::prelude::*;

verus! {

use crate::vec3::Vec3;
use crate::vec3::V3;
use crate::vec3::in_range;
use crate::vec3::sumsq_s;
use crate::vec3::dot_s;
use crate::vec3::sub_s;
use crate::vec3::div_s;
use crate::ray::Ray;
use crate::ray::RayS;
use crate::ray::at_s;
use crate::interval::Interval;
use crate::interval::surrounds_s;
use crate::hittable::Hittable;
use crate::hittable::HitRecord;
use crate::hittable::HitS;
use crate::hittable::geom_guard;
use crate::hittable::oriented_normal_s;
use crate::material::Material;
use crate::material::MatS;
use crate::material::mat_wf;
use crate::fixed::div_tz;
use crate::fixed::sqrt_floor;
use crate::fixed::lemma_mul_abs_bound;
use crate::fixed::lemma_sqrt_floor_bounds;
use crate::vec3::lemma_sumsq_neg;

/// The mathematical model of a sphere.
pub struct SphereS {
    pub center: V3,
    pub radius: int,
    pub mat: Option<MatS>,
}

/// The vector from the ray origin to the center.
pub open spec fn sph_oc(s: SphereS, ray: RayS) -> V3 {
    sub_s(s.center, ray.origin)
}

/// The quadratic's leading coefficient: the raw squared direction.
pub open spec fn sph_a(ray: RayS) -> int {
    sumsq_s(ray.direction)
}

/// The half-angle linear coefficient: the raw product `D . (C - O)`.
pub open spec fn sph_h(s: SphereS, ray: RayS) -> int {
    ray.direction.x * sph_oc(s, ray).x + ray.direction.y * sph_oc(s, ray).y + ray.direction.z
        * sph_oc(s, ray).z
}

/// The constant coefficient: `|C - O|^2 - r^2`, raw.
pub open spec fn sph_c(s: SphereS, ray: RayS) -> int {
    sumsq_s(sph_oc(s, ray)) - s.radius * s.radius
}

/// The discriminant `h^2 - a c`; the ray misses when it is negative.
pub open spec fn sph_disc(s: SphereS, ray: RayS) -> int {
    sph_h(s, ray) * sph_h(s, ray) - sph_a(ray) * sph_c(s, ray)
}

/// The smaller root `(h - sqrt(disc)) / a`, as a fixed-point parameter.
pub open spec fn sph_root1(s: SphereS, ray: RayS) -> int
    recommends
        sph_a(ray) > 0,
        sph_disc(s, ray) >= 0,
{
    div_tz((sph_h(s, ray) - sqrt_floor(sph_disc(s, ray) as nat)) * 65536, sph_a(ray))
}

/// The larger root `(h + sqrt(disc)) / a`.
pub open spec fn sph_root2(s: SphereS, ray: RayS) -> int
    recommends
        sph_a(ray) > 0,
        sph_disc(s, ray) >= 0,
{
    div_tz((sph_h(s, ray) + sqrt_floor(sph_disc(s, ray) as nat)) * 65536, sph_a(ray))
}

/// The outward normal at the surface point `p`: `(p - C) / r`.
pub open spec fn sph_outward(s: SphereS, p: V3) -> V3 {
    div_s(sub_s(p, s.center), s.radius)
}

/// The record reported for a hit at parameter `t`.
pub open spec fn sph_rec(s: SphereS, ray: RayS, t: int) -> HitS {
    let p = at_s(ray, t);
    let outward = sph_outward(s, p);
    HitS {
        p,
        normal: oriented_normal_s(ray.direction, outward),
        t,
        front_face: dot_s(ray.direction, outward) < 0,
        mat: s.mat,
    }
}

/// The full intersection model: try the smaller root first, fall back
/// to the larger, and apply the numeric guard to the derived point and
/// normal.
pub open spec fn sphere_hit_s(s: SphereS, ray: RayS, min: int, max: int) -> Option<HitS> {
    if sph_a(ray) <= 0 {
        None
    } else if sph_disc(s, ray) < 0 {
        None
    } else {
        let r1 = sph_root1(s, ray);
        let r2 = sph_root2(s, ray);
        let t = if surrounds_s(min, max, r1) {
            r1
        } else {
            r2
        };
        if !surrounds_s(min, max, t) {
            None
        } else {
            let rec = sph_rec(s, ray, t);
            if geom_guard(rec.p, sph_outward(s, rec.p)) {
                Some(rec)
            } else {
                None
            }
        }
    }
}

/// A non-degenerate discriminant yields the two quadratic roots in
/// order: the reported candidate `(h - sqrt(disc)) / a` never lies
/// beyond `(h + sqrt(disc)) / a`.
pub proof fn lemma_sphere_roots_ordered(s: SphereS, ray: RayS)
    requires
        sph_a(ray) > 0,
        sph_disc(s, ray) >= 0,
    ensures
        sph_root1(s, ray) <= sph_root2(s, ray),
{
    let sq = sqrt_floor(sph_disc(s, ray) as nat) as int;
    crate::fixed::lemma_div_tz_ordered(
        (sph_h(s, ray) - sq) * 65536,
        (sph_h(s, ray) + sq) * 65536,
        sph_a(ray),
    );
}

/// Tangency: a zero discriminant collapses the two roots into one, so
/// exactly one hit parameter exists.
pub proof fn lemma_sphere_tangent(s: SphereS, ray: RayS)
    requires
        sph_a(ray) > 0,
        sph_disc(s, ray) == 0,
    ensures
        sph_root1(s, ray) == sph_root2(s, ray),
{
    assert(sqrt_floor(0) == 0);
}

/// When both roots lie strictly inside the window, the reported hit is
/// the nearer root.
pub proof fn lemma_sphere_nearest_root(s: SphereS, ray: RayS, min: int, max: int)
    requires
        sph_a(ray) > 0,
        sph_disc(s, ray) >= 0,
        surrounds_s(min, max, sph_root1(s, ray)),
        surrounds_s(min, max, sph_root2(s, ray)),
    ensures
        sph_root1(s, ray) <= sph_root2(s, ray),
        sphere_hit_s(s, ray, min, max) matches Some(rec) ==> rec.t == sph_root1(s, ray),
{
    lemma_sphere_roots_ordered(s, ray);
}

/// Widening the search window preserves a reported hit, and a hit found
/// in a wide window is found again in any narrower window that still
/// strictly contains its parameter.
pub proof fn lemma_sphere_hit_window(s: SphereS, ray: RayS, min: int, max1: int, max2: int)
    requires
        max1 <= max2,
    ensures
        crate::hittable::window_claims_hold(
            sphere_hit_s(s, ray, min, max1),
            sphere_hit_s(s, ray, min, max2),
            max1,
        ),
{
    if sph_a(ray) > 0 && sph_disc(s, ray) >= 0 {
        lemma_sphere_roots_ordered(s, ray);
    }
}

/// Any reported hit lies strictly inside the window.
pub proof fn lemma_sphere_hit_in_window(s: SphereS, ray: RayS, min: int, max: int)
    ensures
        sphere_hit_s(s, ray, min, max) matches Some(h) ==> min < h.t < max,
{
}

/// A sphere: a center and a radius, with an optional material.
#[derive(Clone, Copy, Debug)]
pub struct Sphere {
    pub center: Vec3,
    pub radius: i64,
    pub mat: Option<Material>,
}

impl View for Sphere {
    type V = SphereS;

    open spec fn view(&self) -> SphereS {
        SphereS {
            center: self.center@,
            radius: self.radius as int,
            mat: match self.mat {
                Some(m) => Some(m@),
                None => None,
            },
        }
    }
}

/// The sphere's structural invariant.
pub open spec fn sphere_wf(s: SphereS) -> bool {
    &&& in_range(s.center, 0x4000_0000)
    &&& 1 <= s.radius <= 0x4000_0000
    &&& (s.mat matches Some(m) ==> mat_wf(m))
}

impl Sphere {
    pub fn new(center: Vec3, radius: i64, mat: Option<Material>) -> (r: Self)
        requires
            in_range(center@, 0x4000_0000),
            1 <= radius <= 0x4000_0000,
            (match mat {
                Some(m) => mat_wf(m@),
                None => true,
            }),
        ensures
            r@.center == center@,
            r@.radius == radius as int,
            r@.mat == (match mat {
                Some(m) => Some(m@),
                None => None::<MatS>,
            }),
            r.wf(),
    {
        Self { center, radius, mat }
    }
}

impl Hittable for Sphere {
    open spec fn wf(&self) -> bool {
        sphere_wf(self@)
    }

    open spec fn hit_s(&self, ray: RayS, min: int, max: int) -> Option<HitS> {
        sphere_hit_s(self@, ray, min, max)
    }

    fn hit(&self, ray: &Ray, ray_t: Interval) -> (r: Option<HitRecord>) {
        let dx = ray.direction.x as i128;
        let dy = ray.direction.y as i128;
        let dz = ray.direction.z as i128;
        let ocx = (self.center.x - ray.origin.x) as i128;
        let ocy = (self.center.y - ray.origin.y) as i128;
        let ocz = (self.center.z - ray.origin.z) as i128;
        proof {
            lemma_mul_abs_bound(dx as int, 0x400_0000, dx as int, 0x400_0000);
            lemma_mul_abs_bound(dy as int, 0x400_0000, dy as int, 0x400_0000);
            lemma_mul_abs_bound(dz as int, 0x400_0000, dz as int, 0x400_0000);
            lemma_mul_abs_bound(dx as int, 0x400_0000, ocx as int, 0x4_4000_0000);
            lemma_mul_abs_bound(dy as int, 0x400_0000, ocy as int, 0x4_4000_0000);
            lemma_mul_abs_bound(dz as int, 0x400_0000, ocz as int, 0x4_4000_0000);
            lemma_mul_abs_bound(ocx as int, 0x4_4000_0000, ocx as int, 0x4_4000_0000);
            lemma_mul_abs_bound(ocy as int, 0x4_4000_0000, ocy as int, 0x4_4000_0000);
            lemma_mul_abs_bound(ocz as int, 0x4_4000_0000, ocz as int, 0x4_4000_0000);
            lemma_mul_abs_bound(self@.radius, 0x4000_0000, self@.radius, 0x4000_0000);
        }
        let a: i128 = dx * dx + dy * dy + dz * dz;
        if a <= 0 {
            return None;
        }
        let h: i128 = dx * ocx + dy * ocy + dz * ocz;
        let c: i128 = ocx * ocx + ocy * ocy + ocz * ocz - (self.radius as i128) * (self.radius
            as i128);
        proof {
            lemma_mul_abs_bound(h as int, 0x3300_0000_0000_0000, h as int, 0x3300_0000_0000_0000);
            lemma_mul_abs_bound(a as int, 0x30_0000_0000_0000, c as int, 0x40_0000_0000_0000_0000);
        }
        let disc: i128 = h * h - a * c;
        if disc < 0 {
            return None;
        }
        let sq: i128 = crate::fixed::isqrt(disc as u128) as i128;
        proof {
            lemma_sqrt_floor_bounds(disc as nat);
            assert(sq <= 0x1_0000_0000_0000_0000) by (nonlinear_arith)
                requires
                    (sq as int) * (sq as int) <= disc as int,
                    disc as int <= 0x7fff_ffff_ffff_ffff_ffff_ffff_ffff_ffff,
                    sq >= 0,
            ;
        }
        let mut t128: i128 = crate::fixed::div_tz_i128((h - sq) * 65536, a);
        let min128 = ray_t.min as i128;
        let max128 = ray_t.max as i128;
        if !(min128 < t128 && t128 < max128) {
            t128 = crate::fixed::div_tz_i128((h + sq) * 65536, a);
            if !(min128 < t128 && t128 < max128) {
                return None;
            }
        }
        let t = t128 as i64;
        let p = ray.at(t);
        if !p.within(0x4_0000_0000) {
            return None;
        }
        let pc = p.sub(&self.center);
        let outward = pc.div(self.radius);
        if !outward.within(0x20000) {
            return None;
        }
        let ss = outward.sumsq_raw();
        if !(0x8000_0000 <= ss && ss <= 0x2_0000_0000) {
            return None;
        }
        let mut rec = HitRecord::new();
        rec.t = t;
        rec.p = p;
        rec.mat = self.mat;
        rec.set_face_normal(ray, &outward);
        proof {
            lemma_sumsq_neg(outward@);
        }
        Some(rec)
    }
}

} // verus!
