//! Surface materials: the scattering policy applied at a hit.

use vstd::prelude::*;

verus! {

use crate::vec3::Vec3;
use crate::vec3::V3;
use crate::vec3::in_range;
use crate::vec3::near_unit;
use crate::vec3::sumsq_s;
use crate::vec3::dot_s;
use crate::vec3::normalize_s;
use crate::vec3::reflect_s;
use crate::vec3::scale_s;
use crate::vec3::add_s;
use crate::ray::Ray;
use crate::hittable::HitRecord;
use crate::fixed::lemma_mul_abs_bound;
use crate::fixed::lemma_div_tz_le_abs;
use crate::fixed::lemma_div_tz_bounds;

/// The mathematical model of a material.
pub enum MatS {
    Lambertian { albedo: V3 },
    Metal { albedo: V3, fuzz: int },
}

/// The attenuation a material applies on scatter.
pub open spec fn albedo_s(m: MatS) -> V3 {
    match m {
        MatS::Lambertian { albedo } => albedo,
        MatS::Metal { albedo, fuzz } => albedo,
    }
}

/// Every component of a color lies in `[0, 1]`.
pub open spec fn color_in_unit(c: V3) -> bool {
    &&& 0 <= c.x <= 65536
    &&& 0 <= c.y <= 65536
    &&& 0 <= c.z <= 65536
}

/// A material's invariant: the albedo is a fractional reflectance and
/// metal roughness lies in `[0, 1]`.
pub open spec fn mat_wf(m: MatS) -> bool {
    &&& color_in_unit(albedo_s(m))
    &&& (m matches MatS::Metal { albedo, fuzz } ==> 0 <= fuzz <= 65536)
}

/// The Lambertian scatter direction for a hemisphere draw `u`: the
/// surface normal plus the draw, or the normal alone when the sum is
/// degenerate (raw squared length under 43, about `1e-8`).
pub open spec fn lambertian_dir_s(normal: V3, u: V3) -> V3 {
    if sumsq_s(add_s(normal, u)) < 43 {
        normal
    } else {
        add_s(normal, u)
    }
}

/// The metal scatter direction for a unit draw `u`: the mirror
/// reflection of the unit incoming direction, perturbed by `fuzz`
/// times the draw.
pub open spec fn metal_dir_s(in_dir: V3, normal: V3, fuzz: int, u: V3) -> V3 {
    add_s(reflect_s(normalize_s(in_dir), normal), scale_s(u, fuzz))
}

/// What a Lambertian scatter result is, for the hemisphere draw `u`
/// that was taken: never absorbed, and the direction follows the
/// normal-plus-draw rule with its degeneracy fallback.
pub open spec fn lambertian_scatter_ok(
    normal: V3,
    res: Option<(Vec3, Ray)>,
    u: V3,
) -> bool {
    &&& near_unit(u)
    &&& dot_s(u, normal) >= 0
    &&& (res matches Some((att, sc)) ==> sc@.direction == lambertian_dir_s(normal, u))
}

/// What a metal scatter result is, for the unit draw `u` that was
/// taken: the perturbed reflection is accepted exactly when it still
/// points away from the surface (and is not degenerate), and the
/// scattered direction is that perturbed reflection.
pub open spec fn metal_scatter_ok(
    in_dir: V3,
    normal: V3,
    fuzz: int,
    res: Option<(Vec3, Ray)>,
    u: V3,
) -> bool {
    let dir = metal_dir_s(in_dir, normal, fuzz, u);
    &&& near_unit(u)
    &&& (res is Some <==> (dot_s(dir, normal) > 0 && sumsq_s(dir) >= 16))
    &&& (res matches Some((att, sc)) ==> sc@.direction == dir)
}

/// A surface scattering policy.
#[derive(Clone, Copy, Debug)]
pub enum Material {
    Lambertian { albedo: Vec3 },
    Metal { albedo: Vec3, fuzz: i64 },
}

impl View for Material {
    type V = MatS;

    open spec fn view(&self) -> MatS {
        match self {
            Material::Lambertian { albedo } => MatS::Lambertian { albedo: albedo@ },
            Material::Metal { albedo, fuzz } => MatS::Metal {
                albedo: albedo@,
                fuzz: *fuzz as int,
            },
        }
    }
}

impl Material {
    /// Scatter an incoming ray at a hit. `None` means the ray was
    /// absorbed. A Lambertian surface always scatters; a metal surface
    /// absorbs exactly when the perturbed reflection no longer points
    /// away from the surface. The attenuation is always the configured
    /// albedo. With roughness zero the metal direction is exactly the
    /// mirror reflection of the unit incoming direction.
    pub fn scatter(&self, r_in: &Ray, rec: &HitRecord, rng: &mut rand::rngs::StdRng) -> (res:
        Option<(Vec3, Ray)>)
        requires
            mat_wf(self@),
            in_range(rec@.normal, 0x20000),
            0x8000_0000 <= sumsq_s(rec@.normal),
            in_range(rec@.p, 0x4_0000_0000),
            in_range(r_in@.direction, 0x400_0000),
            sumsq_s(r_in@.direction) >= 16,
        ensures
            self@ is Lambertian ==> res is Some,
            res matches Some((att, sc)) ==> {
                &&& att@ == albedo_s(self@)
                &&& sc@.origin == rec@.p
                &&& in_range(sc@.direction, 0x100_0000)
                &&& sumsq_s(sc@.direction) >= 16
            },
            self@ is Metal ==> (res matches Some((att, sc)) ==> dot_s(
                sc@.direction,
                rec@.normal,
            ) > 0),
            self@ matches MatS::Lambertian { albedo } ==> (exists|u: V3|
                #[trigger] lambertian_scatter_ok(rec@.normal, res, u)),
            self@ is Lambertian ==> (res matches Some((att, sc)) ==> dot_s(
                sc@.direction,
                rec@.normal,
            ) > 0),
            self@ matches MatS::Metal { albedo, fuzz } ==> (exists|u: V3|
                #[trigger] metal_scatter_ok(r_in@.direction, rec@.normal, fuzz, res, u)),
            self@ matches MatS::Metal { albedo, fuzz } && fuzz == 0 ==> {
                let refl = reflect_s(normalize_s(r_in@.direction), rec@.normal);
                &&& (res is Some <==> (dot_s(refl, rec@.normal) > 0 && sumsq_s(refl) >= 16))
                &&& (res matches Some((att, sc)) ==> sc@.direction == refl)
            },
    {
        match self {
            Material::Lambertian { albedo } => {
                let hemi = Vec3::random_on_hemisphere(rng, &rec.normal);
                let cand = rec.normal.add(&hemi);
                let s = cand.sumsq_raw();
                let dir = if s < 43 {
                    rec.normal
                } else {
                    cand
                };
                proof {
                    assert(dir@ == lambertian_dir_s(rec@.normal, hemi@));
                    lemma_lambertian_dot_positive(rec@.normal, hemi@);
                }
                let res = Some((*albedo, Ray::new(rec.p, dir)));
                proof {
                    assert(lambertian_scatter_ok(rec@.normal, res, hemi@));
                }
                res
            },
            Material::Metal { albedo, fuzz } => {
                let unit_in = r_in.direction.unit_vector();
                let reflected = unit_in.reflect(&rec.normal);
                let u = Vec3::random_unit_vector(rng);
                proof {
                    lemma_mul_abs_bound(u@.x, 65536, *fuzz as int, 65536);
                    lemma_mul_abs_bound(u@.y, 65536, *fuzz as int, 65536);
                    lemma_mul_abs_bound(u@.z, 65536, *fuzz as int, 65536);
                    lemma_div_tz_le_abs(u@.x * (*fuzz as int), 65536, 65536);
                    lemma_div_tz_le_abs(u@.y * (*fuzz as int), 65536, 65536);
                    lemma_div_tz_le_abs(u@.z * (*fuzz as int), 65536, 65536);
                    if *fuzz == 0 {
                        vstd::arithmetic::div_mod::lemma_div_of0(65536);
                        assert(u@.x * 0 == 0) by (nonlinear_arith);
                        assert(u@.y * 0 == 0) by (nonlinear_arith);
                        assert(u@.z * 0 == 0) by (nonlinear_arith);
                    }
                }
                let fz = u.scale(*fuzz);
                let dir = reflected.add(&fz);
                let d = dir.dot(&rec.normal);
                let s = dir.sumsq_raw();
                let res = if d > 0 && s >= 16 {
                    Some((*albedo, Ray::new(rec.p, dir)))
                } else {
                    None
                };
                proof {
                    assert(dir@ == metal_dir_s(r_in@.direction, rec@.normal, *fuzz as int, u@));
                    assert(metal_scatter_ok(r_in@.direction, rec@.normal, *fuzz as int, res, u@));
                }
                res
            },
        }
    }
}

/// The Lambertian direction always points away from the surface: both
/// the normal-plus-draw sum and the degenerate fallback keep a strictly
/// positive dot product with the surface normal.
proof fn lemma_lambertian_dot_positive(normal: V3, u: V3)
    requires
        0x8000_0000 <= sumsq_s(normal),
        in_range(normal, 0x20000),
        near_unit(u),
        dot_s(u, normal) >= 0,
    ensures
        dot_s(lambertian_dir_s(normal, u), normal) > 0,
{
    let raw = u.x * normal.x + u.y * normal.y + u.z * normal.z;
    lemma_div_tz_bounds(raw, 65536);
    assert(raw >= -65535);
    if sumsq_s(add_s(normal, u)) < 43 {
        lemma_div_tz_bounds(sumsq_s(normal), 65536);
    } else {
        let num = (normal.x + u.x) * normal.x + (normal.y + u.y) * normal.y + (normal.z + u.z)
            * normal.z;
        assert(num == sumsq_s(normal) + raw) by (nonlinear_arith)
            requires
                num == (normal.x + u.x) * normal.x + (normal.y + u.y) * normal.y + (normal.z
                    + u.z) * normal.z,
                raw == u.x * normal.x + u.y * normal.y + u.z * normal.z,
        ;
        lemma_div_tz_bounds(num, 65536);
    }
}

} // verus!
