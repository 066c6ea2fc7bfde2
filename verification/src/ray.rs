//! Rays: an origin, a direction, and evaluation along the parameter.

use vstd::prelude::*;

verus! {

use crate::vec3::Vec3;
use crate::vec3::V3;
use crate::vec3::add_s;
use crate::vec3::sub_s;
use crate::vec3::scale_s;
use crate::vec3::in_range;
use crate::fixed::lemma_mul_abs_bound;
use crate::fixed::lemma_div_tz_le_abs;
use crate::fixed::lemma_fx_scale_additive;

/// The mathematical model of a ray.
pub struct RayS {
    pub origin: V3,
    pub direction: V3,
}

/// The point at parameter `t`: `origin + direction * t`.
pub open spec fn at_s(r: RayS, t: int) -> V3 {
    add_s(r.origin, scale_s(r.direction, t))
}

/// A half-line from `origin` along `direction`.
#[derive(Clone, Copy, Debug, PartialEq, Eq, Structural)]
pub struct Ray {
    pub origin: Vec3,
    pub direction: Vec3,
}

impl View for Ray {
    type V = RayS;

    open spec fn view(&self) -> RayS {
        RayS { origin: self.origin@, direction: self.direction@ }
    }
}

impl Ray {
    pub fn new(origin: Vec3, direction: Vec3) -> (r: Self)
        ensures
            r@.origin == origin@,
            r@.direction == direction@,
    {
        Self { origin, direction }
    }

    /// Evaluate the ray at parameter `t`.
    pub fn at(&self, t: i64) -> (p: Vec3)
        requires
            in_range(self@.origin, 0x10_0000_0000_0000),
            in_range(self@.direction, 0x4000_0000),
            -0x40_0000_0000 <= t <= 0x40_0000_0000,
        ensures
            p@ == at_s(self@, t as int),
    {
        let s = self.direction.scale(t);
        proof {
            lemma_mul_abs_bound(self@.direction.x, 0x4000_0000, t as int, 0x40_0000_0000);
            lemma_mul_abs_bound(self@.direction.y, 0x4000_0000, t as int, 0x40_0000_0000);
            lemma_mul_abs_bound(self@.direction.z, 0x4000_0000, t as int, 0x40_0000_0000);
            lemma_div_tz_le_abs(self@.direction.x * (t as int), 65536, 0x10_0000_0000_0000);
            lemma_div_tz_le_abs(self@.direction.y * (t as int), 65536, 0x10_0000_0000_0000);
            lemma_div_tz_le_abs(self@.direction.z * (t as int), 65536, 0x10_0000_0000_0000);
        }
        self.origin.add(&s)
    }
}

/// At parameter zero a ray yields its origin exactly: scaling by zero
/// leaves no rounding residue.
pub proof fn lemma_at_zero(r: RayS)
    ensures
        at_s(r, 0) == r.origin,
{
    vstd::arithmetic::div_mod::lemma_div_of0(65536);
    assert(r.direction.x * 0 == 0) by (nonlinear_arith);
    assert(r.direction.y * 0 == 0) by (nonlinear_arith);
    assert(r.direction.z * 0 == 0) by (nonlinear_arith);
}

/// The affine step law: when the direction scales exactly at `t1` and at
/// `t2` (each componentwise product is a multiple of the scale), then
/// `at(t1 + t2) - at(t1) == direction * t2`, with no rounding error.
pub proof fn lemma_at_affine(r: RayS, t1: int, t2: int)
    requires
        (r.direction.x * t1) % 65536 == 0,
        (r.direction.y * t1) % 65536 == 0,
        (r.direction.z * t1) % 65536 == 0,
        (r.direction.x * t2) % 65536 == 0,
        (r.direction.y * t2) % 65536 == 0,
        (r.direction.z * t2) % 65536 == 0,
    ensures
        sub_s(at_s(r, t1 + t2), at_s(r, t1)) == scale_s(r.direction, t2),
{
    lemma_fx_scale_additive(r.direction.x, t1, t2);
    lemma_fx_scale_additive(r.direction.y, t1, t2);
    lemma_fx_scale_additive(r.direction.z, t1, t2);
}

} // verus!
