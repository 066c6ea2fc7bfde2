//! The shared intersection result and the capability every primitive
//! implements.

use vstd::prelude::*;

verus! {

use crate::vec3::Vec3;
use crate::vec3::V3;
use crate::vec3::in_range;
use crate::vec3::neg_s;
use crate::vec3::sumsq_s;
use crate::vec3::dot_s;
use crate::vec3::lemma_scale_negates;
use crate::ray::Ray;
use crate::ray::RayS;
use crate::interval::Interval;
use crate::material::Material;
use crate::material::MatS;
use crate::material::mat_wf;

/// The mathematical model of a hit record.
pub struct HitS {
    pub p: V3,
    pub normal: V3,
    pub t: int,
    pub front_face: bool,
    pub mat: Option<MatS>,
}

/// The result of a ray/primitive intersection query.
#[derive(Clone, Copy, Debug)]
pub struct HitRecord {
    pub p: Vec3,
    pub normal: Vec3,
    pub t: i64,
    pub front_face: bool,
    pub mat: Option<Material>,
}

impl View for HitRecord {
    type V = HitS;

    open spec fn view(&self) -> HitS {
        HitS {
            p: self.p@,
            normal: self.normal@,
            t: self.t as int,
            front_face: self.front_face,
            mat: match self.mat {
                Some(m) => Some(m@),
                None => None,
            },
        }
    }
}

/// The view of an optional hit record.
pub open spec fn opt_hit_view(r: Option<HitRecord>) -> Option<HitS> {
    match r {
        Some(h) => Some(h@),
        None => None,
    }
}

/// The numeric guard every reported hit satisfies: the hit point stays
/// within the tracer's working range and the oriented normal is a
/// unit-scale vector. Hits whose derived values fall outside these
/// windows are treated as misses, the same way near-parallel planes are.
pub open spec fn geom_guard(p: V3, outward: V3) -> bool {
    &&& in_range(p, 0x4_0000_0000)
    &&& in_range(outward, 0x20000)
    &&& 0x8000_0000 <= sumsq_s(outward) <= 0x2_0000_0000
}

/// What the contracts promise of every hit reported within
/// `(min, max)`.
pub open spec fn hit_ok(h: HitS, min: int, max: int) -> bool {
    &&& min < h.t < max
    &&& in_range(h.p, 0x4_0000_0000)
    &&& in_range(h.normal, 0x20000)
    &&& 0x8000_0000 <= sumsq_s(h.normal) <= 0x2_0000_0000
    &&& (h.mat matches Some(m) ==> mat_wf(m))
}

/// The shared orientation rule: the stored normal always opposes the
/// incoming ray direction.
pub open spec fn oriented_normal_s(dir: V3, outward: V3) -> V3 {
    if dot_s(dir, outward) < 0 {
        outward
    } else {
        neg_s(outward)
    }
}

impl HitRecord {
    pub fn new() -> (r: Self)
        ensures
            r@.p == (V3 { x: 0, y: 0, z: 0 }),
            r@.normal == (V3 { x: 0, y: 0, z: 0 }),
            r@.t == 0,
            r@.front_face == false,
            r@.mat is None,
    {
        Self {
            p: Vec3::new(0, 0, 0),
            normal: Vec3::new(0, 0, 0),
            t: 0,
            front_face: false,
            mat: None,
        }
    }

    /// Resolve the outward geometric normal against the incoming ray:
    /// `front_face` records whether the ray meets the front side, and
    /// the stored normal is flipped to oppose the ray when it does not.
    pub fn set_face_normal(&mut self, ray: &Ray, outward_normal: &Vec3)
        requires
            in_range(ray@.direction, 0x40_0000_0000),
            in_range(outward_normal@, 0x40_0000_0000),
        ensures
            final(self)@.front_face == (dot_s(ray@.direction, outward_normal@) < 0),
            final(self)@.normal == oriented_normal_s(ray@.direction, outward_normal@),
            final(self)@.p == old(self)@.p,
            final(self)@.t == old(self)@.t,
            final(self)@.mat == old(self)@.mat,
    {
        let d = ray.direction.dot(outward_normal);
        self.front_face = d < 0;
        if d < 0 {
            self.normal = *outward_normal;
        } else {
            proof {
                lemma_scale_negates(outward_normal@);
            }
            self.normal = outward_normal.scale(-65536);
        }
    }
}

/// How one primitive's intersection result over a narrow window
/// relates to its result over a wide one: widening preserves a hit, and
/// a hit strictly inside the narrow window is found there too.
pub open spec fn window_claims_hold(narrow: Option<HitS>, wide: Option<HitS>, max1: int) -> bool {
    &&& (narrow matches Some(rec) ==> wide == Some(rec))
    &&& (wide matches Some(rec) ==> (rec.t < max1 ==> narrow == Some(rec)))
}

/// The capability every primitive implements: report the nearest
/// intersection with `ray` whose parameter lies strictly inside
/// `ray_t`, or report a miss.
pub trait Hittable {
    /// The primitive's structural invariant.
    spec fn wf(&self) -> bool;

    /// The model of this primitive's intersection result.
    spec fn hit_s(&self, ray: RayS, min: int, max: int) -> Option<HitS>;

    /// Intersect, exactly as the model says.
    fn hit(&self, ray: &Ray, ray_t: Interval) -> (r: Option<HitRecord>)
        requires
            self.wf(),
            in_range(ray@.origin, 0x4_0000_0000),
            in_range(ray@.direction, 0x400_0000),
            -0x40_0000_0000 <= ray_t.min,
            ray_t.max <= 0x40_0000_0000,
        ensures
            opt_hit_view(r) == self.hit_s(ray@, ray_t.min as int, ray_t.max as int),
            r matches Some(h) ==> hit_ok(h@, ray_t.min as int, ray_t.max as int),
    ;
}

} // verus!
