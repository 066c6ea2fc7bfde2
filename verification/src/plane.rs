//! Infinite planes, defined by a point and a unit normal.

use vstd::prelude::*;

verus! {

use crate::vec3::Vec3;
use crate::vec3::V3;
use crate::vec3::in_range;
use crate::vec3::sumsq_s;
use crate::vec3::dot_s;
use crate::vec3::normalize_s;
use crate::ray::Ray;
use crate::ray::RayS;
use crate::ray::at_s;
use crate::interval::Interval;
use crate::interval::surrounds_s;
use crate::hittable::Hittable;
use crate::hittable::HitRecord;
use crate::hittable::HitS;
use crate::hittable::geom_guard;
use crate::hittable::oriented_normal_s;
use crate::material::Material;
use crate::material::MatS;
use crate::material::mat_wf;
use crate::fixed::sdiv_tz;
use crate::fixed::lemma_mul_abs_bound;
use crate::vec3::lemma_sumsq_neg;

/// The mathematical model of a plane.
pub struct PlaneS {
    pub point: V3,
    pub normal: V3,
    pub mat: Option<MatS>,
}

/// The raw denominator `D . N`; the ray is treated as parallel when its
/// magnitude falls below the epsilon guard.
pub open spec fn pl_denom(pl: PlaneS, ray: RayS) -> int {
    ray.direction.x * pl.normal.x + ray.direction.y * pl.normal.y + ray.direction.z * pl.normal.z
}

/// The raw numerator `(P - O) . N`.
pub open spec fn pl_numer(pl: PlaneS, ray: RayS) -> int {
    (pl.point.x - ray.origin.x) * pl.normal.x + (pl.point.y - ray.origin.y) * pl.normal.y + (
    pl.point.z - ray.origin.z) * pl.normal.z
}

/// The hit parameter `(P - O) . N / (D . N)`, in fixed point.
pub open spec fn pl_t(pl: PlaneS, ray: RayS) -> int
    recommends
        pl_denom(pl, ray) != 0,
{
    sdiv_tz(pl_numer(pl, ray) * 65536, pl_denom(pl, ray))
}

/// The record reported for a hit at parameter `t`.
pub open spec fn pl_rec(pl: PlaneS, ray: RayS, t: int) -> HitS {
    HitS {
        p: at_s(ray, t),
        normal: oriented_normal_s(ray.direction, pl.normal),
        t,
        front_face: dot_s(ray.direction, pl.normal) < 0,
        mat: pl.mat,
    }
}

/// The full intersection model: near-parallel rays miss (the raw
/// denominator magnitude stays under the epsilon 4295, about `1e-6`),
/// otherwise the single crossing parameter is tested against the range
/// and the numeric guard.
pub open spec fn plane_hit_s(pl: PlaneS, ray: RayS, min: int, max: int) -> Option<HitS> {
    if -4295 < pl_denom(pl, ray) < 4295 {
        None
    } else {
        let t = pl_t(pl, ray);
        if !surrounds_s(min, max, t) {
            None
        } else {
            let rec = pl_rec(pl, ray, t);
            if geom_guard(rec.p, pl.normal) {
                Some(rec)
            } else {
                None
            }
        }
    }
}

/// A ray near-parallel to the plane always misses: whenever the raw
/// denominator `D . N` stays within the epsilon window, no hit is
/// reported, whatever the search window.
pub proof fn lemma_plane_parallel_misses(pl: PlaneS, ray: RayS, min: int, max: int)
    requires
        -4295 < pl_denom(pl, ray) < 4295,
    ensures
        plane_hit_s(pl, ray, min, max) is None,
{
}

/// A ray perpendicular to the plane, fired at it from distance `d`,
/// hits at parameter exactly `d`: with the canonical upward unit normal
/// no rounding occurs anywhere in the computation.
pub proof fn lemma_plane_perpendicular_hit(pl: PlaneS, ray: RayS, d: int, min: int, max: int)
    requires
        pl.normal == (V3 { x: 0, y: 65536, z: 0 }),
        ray.direction == (V3 { x: 0, y: -65536, z: 0 }),
        ray.origin.x == pl.point.x,
        ray.origin.z == pl.point.z,
        ray.origin.y == pl.point.y + d,
        min < d < max,
        in_range(pl.point, 0x4_0000_0000),
        -0x4_0000_0000 <= ray.origin.y <= 0x4_0000_0000,
    ensures
        plane_hit_s(pl, ray, min, max) == Some(pl_rec(pl, ray, d)),
        pl_rec(pl, ray, d).t == d,
        pl_rec(pl, ray, d).p == pl.point,
{
    let denom = pl_denom(pl, ray);
    let numer = pl_numer(pl, ray);
    assert(denom == (-65536) * 65536);
    assert(numer == (-d) * 65536) by (nonlinear_arith)
        requires
            numer == (pl.point.y - ray.origin.y) * 65536,
            ray.origin.y == pl.point.y + d,
    ;
    // the parameter: (d * 65536) * 65536 / (65536 * 65536) == d, exactly
    let s2: int = 0x1_0000_0000;
    assert(-numer * 65536 == d * s2) by (nonlinear_arith)
        requires
            numer == (-d) * 65536,
            s2 == 0x1_0000_0000,
    ;
    vstd::arithmetic::div_mod::lemma_mod_multiples_basic(d, s2);
    vstd::arithmetic::mul::lemma_mul_is_commutative(d, s2);
    crate::fixed::lemma_div_tz_exact(d * s2, s2);
    let q = crate::fixed::div_tz(d * s2, s2);
    assert(q == d) by (nonlinear_arith)
        requires
            q * s2 == d * s2,
            s2 >= 1,
    ;
    assert(pl_t(pl, ray) == d);
    // the hit point: the origin stepped back down by exactly d
    assert(ray.direction.x * d == 0) by (nonlinear_arith)
        requires
            ray.direction.x == 0,
    ;
    assert(ray.direction.z * d == 0) by (nonlinear_arith)
        requires
            ray.direction.z == 0,
    ;
    vstd::arithmetic::div_mod::lemma_div_of0(65536);
    assert(ray.direction.y * d == -(d * 65536)) by (nonlinear_arith)
        requires
            ray.direction.y == -65536,
    ;
    vstd::arithmetic::div_mod::lemma_mod_multiples_basic(d, 65536);
    vstd::arithmetic::mul::lemma_mul_is_commutative(d, 65536);
    crate::fixed::lemma_div_tz_exact(d * 65536, 65536);
    crate::fixed::lemma_div_tz_neg(d * 65536, 65536);
    let qy = crate::fixed::div_tz(d * 65536, 65536);
    assert(qy == d) by (nonlinear_arith)
        requires
            qy * 65536 == d * 65536,
    ;
    assert(at_s(ray, d) == pl.point);
}

/// Widening the search window preserves a reported hit, and a hit found
/// in a wide window is found again in any narrower window that still
/// strictly contains its parameter.
pub proof fn lemma_plane_hit_window(pl: PlaneS, ray: RayS, min: int, max1: int, max2: int)
    requires
        max1 <= max2,
    ensures
        crate::hittable::window_claims_hold(
            plane_hit_s(pl, ray, min, max1),
            plane_hit_s(pl, ray, min, max2),
            max1,
        ),
{
}

/// Any reported hit lies strictly inside the window.
pub proof fn lemma_plane_hit_in_window(pl: PlaneS, ray: RayS, min: int, max: int)
    ensures
        plane_hit_s(pl, ray, min, max) matches Some(h) ==> min < h.t < max,
{
}

/// A plane through `point` with unit normal `normal`.
#[derive(Clone, Copy, Debug)]
pub struct Plane {
    pub point: Vec3,
    pub normal: Vec3,
    pub mat: Option<Material>,
}

impl View for Plane {
    type V = PlaneS;

    open spec fn view(&self) -> PlaneS {
        PlaneS {
            point: self.point@,
            normal: self.normal@,
            mat: match self.mat {
                Some(m) => Some(m@),
                None => None,
            },
        }
    }
}

/// The plane's structural invariant: the normal was normalized at
/// construction.
pub open spec fn plane_wf(pl: PlaneS) -> bool {
    &&& in_range(pl.point, 0x4000_0000)
    &&& in_range(pl.normal, 65536)
    &&& (pl.mat matches Some(m) ==> mat_wf(m))
}

impl Plane {
    /// Build a plane; the given normal is normalized before it is
    /// stored.
    pub fn new(point: Vec3, normal: Vec3, mat: Option<Material>) -> (r: Self)
        requires
            in_range(point@, 0x4000_0000),
            in_range(normal@, 0x40_0000_0000),
            sumsq_s(normal@) >= 16,
            (match mat {
                Some(m) => mat_wf(m@),
                None => true,
            }),
        ensures
            r@.point == point@,
            r@.normal == normalize_s(normal@),
            r@.mat == (match mat {
                Some(m) => Some(m@),
                None => None::<MatS>,
            }),
            r.wf(),
    {
        Self { point, normal: normal.normalize(), mat }
    }
}

impl Hittable for Plane {
    open spec fn wf(&self) -> bool {
        plane_wf(self@)
    }

    open spec fn hit_s(&self, ray: RayS, min: int, max: int) -> Option<HitS> {
        plane_hit_s(self@, ray, min, max)
    }

    fn hit(&self, ray: &Ray, ray_t: Interval) -> (r: Option<HitRecord>) {
        let dx = ray.direction.x as i128;
        let dy = ray.direction.y as i128;
        let dz = ray.direction.z as i128;
        let nx = self.normal.x as i128;
        let ny = self.normal.y as i128;
        let nz = self.normal.z as i128;
        proof {
            lemma_mul_abs_bound(dx as int, 0x400_0000, nx as int, 65536);
            lemma_mul_abs_bound(dy as int, 0x400_0000, ny as int, 65536);
            lemma_mul_abs_bound(dz as int, 0x400_0000, nz as int, 65536);
        }
        let denom: i128 = dx * nx + dy * ny + dz * nz;
        if -4295 < denom && denom < 4295 {
            return None;
        }
        let qx = (self.point.x - ray.origin.x) as i128;
        let qy = (self.point.y - ray.origin.y) as i128;
        let qz = (self.point.z - ray.origin.z) as i128;
        proof {
            lemma_mul_abs_bound(qx as int, 0x4_4000_0000, nx as int, 65536);
            lemma_mul_abs_bound(qy as int, 0x4_4000_0000, ny as int, 65536);
            lemma_mul_abs_bound(qz as int, 0x4_4000_0000, nz as int, 65536);
        }
        let numer: i128 = qx * nx + qy * ny + qz * nz;
        let t128: i128 = if denom > 0 {
            crate::fixed::div_tz_i128(numer * 65536, denom)
        } else {
            crate::fixed::div_tz_i128(-(numer * 65536), -denom)
        };
        let min128 = ray_t.min as i128;
        let max128 = ray_t.max as i128;
        if !(min128 < t128 && t128 < max128) {
            return None;
        }
        let t = t128 as i64;
        let p = ray.at(t);
        if !p.within(0x4_0000_0000) {
            return None;
        }
        if !self.normal.within(0x20000) {
            return None;
        }
        let ss = self.normal.sumsq_raw();
        if !(0x8000_0000 <= ss && ss <= 0x2_0000_0000) {
            return None;
        }
        let mut rec = HitRecord::new();
        rec.t = t;
        rec.p = p;
        rec.mat = self.mat;
        rec.set_face_normal(ray, &self.normal);
        proof {
            lemma_sumsq_neg(self@.normal);
        }
        Some(rec)
    }
}

} // verus!
