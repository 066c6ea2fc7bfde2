//! The scene: an insertion-ordered collection of primitives, searched
//! for the nearest intersection along a ray.

use vstd::prelude::*;

verus! {

use crate::vec3::Vec3;
use crate::vec3::in_range;
use crate::vec3::sumsq_s;
use crate::ray::Ray;
use crate::ray::RayS;
use crate::interval::Interval;
use crate::hittable::Hittable;
use crate::hittable::HitRecord;
use crate::hittable::HitS;
use crate::hittable::hit_ok;
use crate::hittable::opt_hit_view;
use crate::material::Material;
use crate::material::mat_wf;
use crate::sphere::Sphere;
use crate::sphere::SphereS;
use crate::sphere::sphere_hit_s;
use crate::sphere::sphere_wf;
use crate::plane::Plane;
use crate::plane::PlaneS;
use crate::plane::plane_hit_s;
use crate::plane::plane_wf;

/// The model of one scene entry.
pub enum ObjS {
    Sphere(SphereS),
    Plane(PlaneS),
}

/// A scene entry: one primitive variant.
#[derive(Clone, Copy, Debug)]
pub enum HittableObject {
    Sphere(Sphere),
    Plane(Plane),
}

impl View for HittableObject {
    type V = ObjS;

    open spec fn view(&self) -> ObjS {
        match self {
            HittableObject::Sphere(s) => ObjS::Sphere(s@),
            HittableObject::Plane(p) => ObjS::Plane(p@),
        }
    }
}

/// The entry's structural invariant.
pub open spec fn obj_wf(o: ObjS) -> bool {
    match o {
        ObjS::Sphere(s) => sphere_wf(s),
        ObjS::Plane(p) => plane_wf(p),
    }
}

/// The entry's intersection model.
pub open spec fn obj_hit_s(o: ObjS, ray: RayS, min: int, max: int) -> Option<HitS> {
    match o {
        ObjS::Sphere(s) => sphere_hit_s(s, ray, min, max),
        ObjS::Plane(p) => plane_hit_s(p, ray, min, max),
    }
}

impl Hittable for HittableObject {
    open spec fn wf(&self) -> bool {
        obj_wf(self@)
    }

    open spec fn hit_s(&self, ray: RayS, min: int, max: int) -> Option<HitS> {
        obj_hit_s(self@, ray, min, max)
    }

    fn hit(&self, ray: &Ray, ray_t: Interval) -> (r: Option<HitRecord>) {
        match self {
            HittableObject::Sphere(s) => s.hit(ray, ray_t),
            HittableObject::Plane(p) => p.hit(ray, ray_t),
        }
    }
}

/// The traversal model: objects are taken in order, each queried over
/// the window shrunk to the closest hit found so far, so the final
/// record is the nearest one.
pub open spec fn list_hit_from(
    objs: Seq<ObjS>,
    i: int,
    ray: RayS,
    min: int,
    closest: int,
    best: Option<HitS>,
) -> Option<HitS>
    decreases objs.len() - i,
{
    if i < 0 || i >= objs.len() {
        best
    } else {
        match obj_hit_s(objs[i], ray, min, closest) {
            Some(rec) => list_hit_from(objs, i + 1, ray, min, rec.t, Some(rec)),
            None => list_hit_from(objs, i + 1, ray, min, closest, best),
        }
    }
}

/// The scene's intersection model over the full window.
pub open spec fn list_hit_s(objs: Seq<ObjS>, ray: RayS, min: int, max: int) -> Option<HitS> {
    list_hit_from(objs, 0, ray, min, max, None)
}

/// Every entry of the scene is well-formed.
pub open spec fn list_wf(objs: Seq<ObjS>) -> bool {
    forall|i: int| 0 <= i < objs.len() ==> obj_wf(#[trigger] objs[i])
}

/// One entry's window relation, dispatched to the shape lemmas.
pub proof fn lemma_obj_hit_window(o: ObjS, ray: RayS, min: int, max1: int, max2: int)
    requires
        max1 <= max2,
    ensures
        crate::hittable::window_claims_hold(
            obj_hit_s(o, ray, min, max1),
            obj_hit_s(o, ray, min, max2),
            max1,
        ),
{
    match o {
        ObjS::Sphere(s) => crate::sphere::lemma_sphere_hit_window(s, ray, min, max1, max2),
        ObjS::Plane(p) => crate::plane::lemma_plane_hit_window(p, ray, min, max1, max2),
    }
}

/// Any reported hit lies strictly inside the queried window.
pub proof fn lemma_obj_hit_in_window(o: ObjS, ray: RayS, min: int, max: int)
    ensures
        obj_hit_s(o, ray, min, max) matches Some(h) ==> min < h.t < max,
{
    match o {
        ObjS::Sphere(s) => crate::sphere::lemma_sphere_hit_in_window(s, ray, min, max),
        ObjS::Plane(p) => crate::plane::lemma_plane_hit_in_window(p, ray, min, max),
    }
}

/// The induction behind the nearest-hit law, following the traversal
/// fold from position `i` with the running best hit.
proof fn lemma_fold_nearest(
    objs: Seq<ObjS>,
    i: int,
    ray: RayS,
    min: int,
    max: int,
    closest: int,
    best: Option<HitS>,
)
    requires
        0 <= i <= objs.len(),
        closest <= max,
        (match best {
            Some(b) => b.t == closest && min < b.t < max && (exists|j: int|
                0 <= j < i && obj_hit_s(objs[j], ray, min, max) == Some(b)),
            None => closest == max,
        }),
        forall|j: int|
            0 <= j < i ==> (#[trigger] obj_hit_s(objs[j], ray, min, max) matches Some(h) ==>
            closest <= h.t),
    ensures
        (list_hit_from(objs, i, ray, min, closest, best) is None ==> forall|j: int|
            0 <= j < objs.len() ==> obj_hit_s(#[trigger] objs[j], ray, min, max) is None),
        (list_hit_from(objs, i, ray, min, closest, best) matches Some(rec) ==> {
            &&& min < rec.t < max
            &&& (exists|j: int| 0 <= j < objs.len() && obj_hit_s(objs[j], ray, min, max) == Some(
                rec,
            ))
            &&& (forall|j: int|
                0 <= j < objs.len() ==> (#[trigger] obj_hit_s(objs[j], ray, min, max) matches Some(
                    h,
                ) ==> rec.t <= h.t))
        }),
    decreases objs.len() - i,
{
    if i == objs.len() {
        if best is None {
            assert forall|j: int| 0 <= j < objs.len() implies obj_hit_s(
                #[trigger] objs[j],
                ray,
                min,
                max,
            ) is None by {
                lemma_obj_hit_in_window(objs[j], ray, min, max);
            }
        }
    } else {
        lemma_obj_hit_window(objs[i], ray, min, closest, max);
        lemma_obj_hit_in_window(objs[i], ray, min, closest);
        match obj_hit_s(objs[i], ray, min, closest) {
            Some(h2) => {
                assert(obj_hit_s(objs[i], ray, min, max) == Some(h2));
                lemma_fold_nearest(objs, i + 1, ray, min, max, h2.t, Some(h2));
            },
            None => {
                assert(obj_hit_s(objs[i], ray, min, max) matches Some(h) ==> closest <= h.t) by {
                    match obj_hit_s(objs[i], ray, min, max) {
                        Some(h) => {
                            lemma_obj_hit_in_window(objs[i], ray, min, max);
                            if h.t < closest {
                                assert(obj_hit_s(objs[i], ray, min, closest) == Some(h));
                            }
                        },
                        None => {},
                    }
                }
                lemma_fold_nearest(objs, i + 1, ray, min, max, closest, best);
            },
        }
    }
}

/// The nearest-hit law: when the scene reports a hit, it is the hit of
/// one of its primitives, its parameter lies strictly inside the
/// window, and no primitive hits the ray at a smaller parameter within
/// the window; when it reports a miss, no primitive hits at all. With
/// no primitives the scene always misses.
pub proof fn lemma_scene_nearest(objs: Seq<ObjS>, ray: RayS, min: int, max: int)
    ensures
        (list_hit_s(objs, ray, min, max) is None ==> forall|j: int|
            0 <= j < objs.len() ==> obj_hit_s(#[trigger] objs[j], ray, min, max) is None),
        (list_hit_s(objs, ray, min, max) matches Some(rec) ==> {
            &&& min < rec.t < max
            &&& (exists|j: int| 0 <= j < objs.len() && obj_hit_s(objs[j], ray, min, max) == Some(
                rec,
            ))
            &&& (forall|j: int|
                0 <= j < objs.len() ==> (#[trigger] obj_hit_s(objs[j], ray, min, max) matches Some(
                    h,
                ) ==> rec.t <= h.t))
        }),
        objs.len() == 0 ==> list_hit_s(objs, ray, min, max) is None,
{
    lemma_fold_nearest(objs, 0, ray, min, max, max, None);
}

/// The scene.
pub struct HittableList {
    pub objects: Vec<HittableObject>,
}

impl View for HittableList {
    type V = Seq<ObjS>;

    open spec fn view(&self) -> Seq<ObjS> {
        self.objects@.map_values(|o: HittableObject| o@)
    }
}

impl HittableList {
    pub fn new() -> (r: Self)
        ensures
            r@.len() == 0,
            list_wf(r@),
    {
        Self { objects: Vec::new() }
    }

    /// Append a plane; its normal is normalized on construction.
    pub fn add_plane(&mut self, point: Vec3, normal: Vec3, mat: Option<Material>)
        requires
            in_range(point@, 0x4000_0000),
            in_range(normal@, 0x40_0000_0000),
            sumsq_s(normal@) >= 16,
            (match mat {
                Some(m) => mat_wf(m@),
                None => true,
            }),
        ensures
            final(self)@.len() == old(self)@.len() + 1,
            forall|i: int| 0 <= i < old(self)@.len() ==> final(self)@[i] == old(self)@[i],
            final(self)@[old(self)@.len() as int] matches ObjS::Plane(p) && p.point == point@
                && p.normal == crate::vec3::normalize_s(normal@) && p.mat == (match mat {
                Some(m) => Some(m@),
                None => None::<crate::material::MatS>,
            }),
            list_wf(old(self)@) ==> list_wf(final(self)@),
    {
        let plane = Plane::new(point, normal, mat);
        self.objects.push(HittableObject::Plane(plane));
        proof {
            assert(final(self)@ =~= old(self)@.push(HittableObject::Plane(plane)@));
        }
    }

    /// Append a sphere.
    pub fn add_sphere(&mut self, center: Vec3, radius: i64, mat: Option<Material>)
        requires
            in_range(center@, 0x4000_0000),
            1 <= radius <= 0x4000_0000,
            (match mat {
                Some(m) => mat_wf(m@),
                None => true,
            }),
        ensures
            final(self)@.len() == old(self)@.len() + 1,
            forall|i: int| 0 <= i < old(self)@.len() ==> final(self)@[i] == old(self)@[i],
            final(self)@[old(self)@.len() as int] matches ObjS::Sphere(s) && s.center == center@
                && s.radius == radius as int && s.mat == (match mat {
                Some(m) => Some(m@),
                None => None::<crate::material::MatS>,
            }),
            list_wf(old(self)@) ==> list_wf(final(self)@),
    {
        let sphere = Sphere::new(center, radius, mat);
        self.objects.push(HittableObject::Sphere(sphere));
        proof {
            assert(final(self)@ =~= old(self)@.push(HittableObject::Sphere(sphere)@));
        }
    }

    /// Find the nearest hit along `ray` whose parameter lies strictly
    /// inside `ray_t`, exactly as the traversal model says.
    pub fn hit(&self, ray: &Ray, ray_t: Interval) -> (r: Option<HitRecord>)
        requires
            list_wf(self@),
            in_range(ray@.origin, 0x4_0000_0000),
            in_range(ray@.direction, 0x400_0000),
            -0x40_0000_0000 <= ray_t.min,
            ray_t.max <= 0x40_0000_0000,
        ensures
            opt_hit_view(r) == list_hit_s(self@, ray@, ray_t.min as int, ray_t.max as int),
            r matches Some(h) ==> hit_ok(h@, ray_t.min as int, ray_t.max as int),
    {
        let ghost gmin = ray_t.min as int;
        let ghost gmax = ray_t.max as int;
        let mut best: Option<HitRecord> = None;
        let mut closest: i64 = ray_t.max;
        let n = self.objects.len();
        let mut i: usize = 0;
        while i < n
            invariant
                n == self.objects.len(),
                i <= n,
                list_wf(self@),
                in_range(ray@.origin, 0x4_0000_0000),
                in_range(ray@.direction, 0x400_0000),
                -0x40_0000_0000 <= gmin,
                gmax <= 0x40_0000_0000,
                gmin == ray_t.min as int,
                gmax == ray_t.max as int,
                closest <= ray_t.max,
                list_hit_from(self@, i as int, ray@, gmin, closest as int, opt_hit_view(best))
                    == list_hit_s(self@, ray@, gmin, gmax),
                (match best {
                    Some(b) => b@.t == closest as int && hit_ok(b@, gmin, gmax),
                    None => closest == ray_t.max,
                }),
            decreases n - i,
        {
            let obj = &self.objects[i];
            proof {
                assert(self@[i as int] == obj@);
            }
            let res = obj.hit(ray, Interval { min: ray_t.min, max: closest });
            match res {
                Some(rec) => {
                    closest = rec.t;
                    best = Some(rec);
                },
                None => {},
            }
            i = i + 1;
        }
        best
    }
}

} // verus!
