//! 3-component vectors over fixed-point scalars, used interchangeably
//! as points, directions and RGB colors.
//!
//! Every operation is specified exactly: the spec functions below mirror
//! the executable arithmetic, including its truncation toward zero, over
//! the unbounded-integer model `V3`.

use vstd::prelude::*;

verus! {

use crate::fixed;
use crate::fixed::div_tz;
use crate::fixed::fx_mul_s;
use crate::fixed::fx_div_s;
use crate::fixed::sqrt_floor;
use crate::fixed::lemma_sqrt_floor_bounds;
use crate::fixed::lemma_mul_abs_bound;
use crate::fixed::lemma_div_tz_le_abs;
use crate::fixed::lemma_div_tz_lt_abs;
use crate::fixed::lemma_div_tz_bounds;
use crate::fixed::lemma_div_tz_exact;
use crate::fixed::lemma_div_tz_neg;

/// The mathematical model of a vector: unbounded integer components,
/// each standing for `2^16` times the real component.
pub struct V3 {
    pub x: int,
    pub y: int,
    pub z: int,
}

/// All three components lie within `[-b, b]`.
pub open spec fn in_range(v: V3, b: int) -> bool {
    &&& -b <= v.x <= b
    &&& -b <= v.y <= b
    &&& -b <= v.z <= b
}

/// A unit-scale vector up to rounding: the window that normalization
/// guarantees for the raw sum of squares, around `2^32`.
pub open spec fn near_unit(u: V3) -> bool {
    &&& in_range(u, 65536)
    &&& 65536 * 65536 - 6 * 65536 <= sumsq_s(u) <= 65536 * 65536 + 32768 * 65536 + 7 * 65536
}

pub open spec fn add_s(a: V3, b: V3) -> V3 {
    V3 { x: a.x + b.x, y: a.y + b.y, z: a.z + b.z }
}

pub open spec fn sub_s(a: V3, b: V3) -> V3 {
    V3 { x: a.x - b.x, y: a.y - b.y, z: a.z - b.z }
}

/// Componentwise fixed-point product.
pub open spec fn mul_s(a: V3, b: V3) -> V3 {
    V3 { x: fx_mul_s(a.x, b.x), y: fx_mul_s(a.y, b.y), z: fx_mul_s(a.z, b.z) }
}

pub open spec fn scale_s(a: V3, k: int) -> V3 {
    V3 { x: fx_mul_s(a.x, k), y: fx_mul_s(a.y, k), z: fx_mul_s(a.z, k) }
}

pub open spec fn div_s(a: V3, k: int) -> V3
    recommends
        k != 0,
{
    V3 { x: fx_div_s(a.x, k), y: fx_div_s(a.y, k), z: fx_div_s(a.z, k) }
}

/// Exact componentwise negation.
pub open spec fn neg_s(a: V3) -> V3 {
    V3 { x: -a.x, y: -a.y, z: -a.z }
}

/// The raw sum of squared components, at scale `2^32`.
pub open spec fn sumsq_s(a: V3) -> int {
    a.x * a.x + a.y * a.y + a.z * a.z
}

/// The fixed-point dot product: one truncation on the exact sum.
pub open spec fn dot_s(a: V3, b: V3) -> int {
    div_tz(a.x * b.x + a.y * b.y + a.z * b.z, 65536)
}

/// The fixed-point squared length.
pub open spec fn length_squared_s(a: V3) -> int {
    div_tz(sumsq_s(a), 65536)
}

/// The fixed-point length: the integer square root of the raw sum of
/// squares, which sits at scale `2^16`.
pub open spec fn len_s(a: V3) -> int {
    sqrt_floor(sumsq_s(a) as nat) as int
}

/// Componentwise division by the length.
pub open spec fn normalize_s(a: V3) -> V3
    recommends
        len_s(a) > 0,
{
    V3 {
        x: div_tz(a.x * 65536, len_s(a)),
        y: div_tz(a.y * 65536, len_s(a)),
        z: div_tz(a.z * 65536, len_s(a)),
    }
}

pub open spec fn cross_s(a: V3, b: V3) -> V3 {
    V3 {
        x: fx_mul_s(a.y, b.z) - fx_mul_s(a.z, b.y),
        y: fx_mul_s(a.z, b.x) - fx_mul_s(a.x, b.z),
        z: fx_mul_s(a.x, b.y) - fx_mul_s(a.y, b.x),
    }
}

/// Mirror reflection of `d` about the normal `n`:
/// `d - 2 * dot(d, n) * n`.
pub open spec fn reflect_s(d: V3, n: V3) -> V3 {
    sub_s(d, scale_s(n, 2 * dot_s(d, n)))
}

/// A fixed-point 3-vector.
#[derive(Clone, Copy, Debug, PartialEq, Eq, Structural)]
pub struct Vec3 {
    pub x: i64,
    pub y: i64,
    pub z: i64,
}

impl View for Vec3 {
    type V = V3;

    open spec fn view(&self) -> V3 {
        V3 { x: self.x as int, y: self.y as int, z: self.z as int }
    }
}

impl Vec3 {
    pub fn new(x: i64, y: i64, z: i64) -> (r: Self)
        ensures
            r@ == (V3 { x: x as int, y: y as int, z: z as int }),
    {
        Self { x, y, z }
    }

    pub fn add(&self, other: &Vec3) -> (r: Vec3)
        requires
            in_range(self@, 0x3fff_ffff_ffff_ffff),
            in_range(other@, 0x3fff_ffff_ffff_ffff),
        ensures
            r@ == add_s(self@, other@),
    {
        Vec3 { x: self.x + other.x, y: self.y + other.y, z: self.z + other.z }
    }

    pub fn sub(&self, other: &Vec3) -> (r: Vec3)
        requires
            in_range(self@, 0x3fff_ffff_ffff_ffff),
            in_range(other@, 0x3fff_ffff_ffff_ffff),
        ensures
            r@ == sub_s(self@, other@),
    {
        Vec3 { x: self.x - other.x, y: self.y - other.y, z: self.z - other.z }
    }

    pub fn mul(&self, other: &Vec3) -> (r: Vec3)
        requires
            in_range(self@, 0x40_0000_0000),
            in_range(other@, 0x40_0000_0000),
        ensures
            r@ == mul_s(self@, other@),
    {
        proof {
            lemma_mul_abs_bound(self@.x, 0x40_0000_0000, other@.x, 0x40_0000_0000);
            lemma_mul_abs_bound(self@.y, 0x40_0000_0000, other@.y, 0x40_0000_0000);
            lemma_mul_abs_bound(self@.z, 0x40_0000_0000, other@.z, 0x40_0000_0000);
        }
        Vec3 {
            x: fixed::fx_mul(self.x, other.x),
            y: fixed::fx_mul(self.y, other.y),
            z: fixed::fx_mul(self.z, other.z),
        }
    }

    pub fn scale(&self, k: i64) -> (r: Vec3)
        requires
            in_range(self@, 0x80_0000_0000),
            -0x80_0000_0000 <= k <= 0x80_0000_0000,
        ensures
            r@ == scale_s(self@, k as int),
    {
        proof {
            lemma_mul_abs_bound(self@.x, 0x80_0000_0000, k as int, 0x80_0000_0000);
            lemma_mul_abs_bound(self@.y, 0x80_0000_0000, k as int, 0x80_0000_0000);
            lemma_mul_abs_bound(self@.z, 0x80_0000_0000, k as int, 0x80_0000_0000);
        }
        Vec3 {
            x: fixed::fx_mul(self.x, k),
            y: fixed::fx_mul(self.y, k),
            z: fixed::fx_mul(self.z, k),
        }
    }

    pub fn div(&self, k: i64) -> (r: Vec3)
        requires
            k != 0,
            in_range(self@, 0x4000_0000_0000),
        ensures
            r@ == div_s(self@, k as int),
    {
        Vec3 {
            x: fixed::fx_div(self.x, k),
            y: fixed::fx_div(self.y, k),
            z: fixed::fx_div(self.z, k),
        }
    }

    pub fn dot(&self, other: &Vec3) -> (r: i64)
        requires
            in_range(self@, 0x40_0000_0000),
            in_range(other@, 0x40_0000_0000),
        ensures
            r == dot_s(self@, other@),
            -0x3000_0000_0000_0000 <= r <= 0x3000_0000_0000_0000,
    {
        proof {
            lemma_mul_abs_bound(self@.x, 0x40_0000_0000, other@.x, 0x40_0000_0000);
            lemma_mul_abs_bound(self@.y, 0x40_0000_0000, other@.y, 0x40_0000_0000);
            lemma_mul_abs_bound(self@.z, 0x40_0000_0000, other@.z, 0x40_0000_0000);
        }
        let sum: i128 = (self.x as i128) * (other.x as i128) + (self.y as i128) * (other.y as i128)
            + (self.z as i128) * (other.z as i128);
        let q = fixed::div_tz_i128(sum, 65536);
        proof {
            lemma_div_tz_le_abs(sum as int, 65536, 0x3000_0000_0000_0000);
        }
        q as i64
    }

    pub fn cross(&self, other: &Vec3) -> (r: Vec3)
        requires
            in_range(self@, 0x40_0000_0000),
            in_range(other@, 0x40_0000_0000),
        ensures
            r@ == cross_s(self@, other@),
    {
        proof {
            lemma_mul_abs_bound(self@.y, 0x40_0000_0000, other@.z, 0x40_0000_0000);
            lemma_mul_abs_bound(self@.z, 0x40_0000_0000, other@.y, 0x40_0000_0000);
            lemma_mul_abs_bound(self@.z, 0x40_0000_0000, other@.x, 0x40_0000_0000);
            lemma_mul_abs_bound(self@.x, 0x40_0000_0000, other@.z, 0x40_0000_0000);
            lemma_mul_abs_bound(self@.x, 0x40_0000_0000, other@.y, 0x40_0000_0000);
            lemma_mul_abs_bound(self@.y, 0x40_0000_0000, other@.x, 0x40_0000_0000);
            lemma_div_tz_le_abs(self@.y * other@.z, 65536, 0x1000_0000_0000_0000);
            lemma_div_tz_le_abs(self@.z * other@.y, 65536, 0x1000_0000_0000_0000);
            lemma_div_tz_le_abs(self@.z * other@.x, 65536, 0x1000_0000_0000_0000);
            lemma_div_tz_le_abs(self@.x * other@.z, 65536, 0x1000_0000_0000_0000);
            lemma_div_tz_le_abs(self@.x * other@.y, 65536, 0x1000_0000_0000_0000);
            lemma_div_tz_le_abs(self@.y * other@.x, 65536, 0x1000_0000_0000_0000);
        }
        Vec3 {
            x: fixed::fx_mul(self.y, other.z) - fixed::fx_mul(self.z, other.y),
            y: fixed::fx_mul(self.z, other.x) - fixed::fx_mul(self.x, other.z),
            z: fixed::fx_mul(self.x, other.y) - fixed::fx_mul(self.y, other.x),
        }
    }

    pub fn length_squared(&self) -> (r: i64)
        requires
            in_range(self@, 0x40_0000_0000),
        ensures
            r == length_squared_s(self@),
            0 <= r <= 0x3000_0000_0000_0000,
    {
        proof {
            lemma_sumsq_bounds(self@, 0x40_0000_0000);
        }
        let sum: i128 = (self.x as i128) * (self.x as i128) + (self.y as i128) * (self.y as i128)
            + (self.z as i128) * (self.z as i128);
        let q = fixed::div_tz_i128(sum, 65536);
        proof {
            lemma_div_tz_le_abs(sum as int, 65536, 0x3000_0000_0000_0000);
            lemma_div_tz_bounds(sum as int, 65536);
        }
        q as i64
    }

    pub fn length(&self) -> (r: i64)
        requires
            in_range(self@, 0x40_0000_0000),
        ensures
            r == len_s(self@),
            0 <= r < 0x80_0000_0000,
    {
        proof {
            lemma_sumsq_bounds(self@, 0x40_0000_0000);
        }
        let sum: i128 = (self.x as i128) * (self.x as i128) + (self.y as i128) * (self.y as i128)
            + (self.z as i128) * (self.z as i128);
        let root = fixed::isqrt(sum as u128);
        proof {
            lemma_sqrt_floor_bounds(sum as nat);
            assert(root < 0x80_0000_0000) by (nonlinear_arith)
                requires
                    (root as int) * (root as int) <= sum as int,
                    sum as int <= 0x3000_0000_0000_0000_0000,
                    root >= 0,
            ;
        }
        root as i64
    }

    pub fn normalize(&self) -> (r: Vec3)
        requires
            in_range(self@, 0x40_0000_0000),
            sumsq_s(self@) >= 16,
        ensures
            r@ == normalize_s(self@),
            in_range(r@, 65536),
    {
        let len = self.length();
        proof {
            lemma_sqrt_floor_bounds(sumsq_s(self@) as nat);
            assert(len >= 4) by (nonlinear_arith)
                requires
                    ((len as int) + 1) * ((len as int) + 1) > 16,
                    len >= 0,
            ;
            lemma_component_le_len(self@);
        }
        let x = fixed::div_tz_i128((self.x as i128) * 65536, len as i128);
        let y = fixed::div_tz_i128((self.y as i128) * 65536, len as i128);
        let z = fixed::div_tz_i128((self.z as i128) * 65536, len as i128);
        proof {
            lemma_div_tz_le_abs(self@.x * 65536, len as int, 65536);
            lemma_div_tz_le_abs(self@.y * 65536, len as int, 65536);
            lemma_div_tz_le_abs(self@.z * 65536, len as int, 65536);
        }
        Vec3 { x: x as i64, y: y as i64, z: z as i64 }
    }

    pub fn unit_vector(&self) -> (r: Vec3)
        requires
            in_range(self@, 0x40_0000_0000),
            sumsq_s(self@) >= 16,
        ensures
            r@ == normalize_s(self@),
            in_range(r@, 65536),
    {
        self.normalize()
    }

    pub fn reflect(&self, n: &Vec3) -> (r: Vec3)
        requires
            in_range(self@, 0x20000),
            in_range(n@, 0x20000),
        ensures
            r@ == reflect_s(self@, n@),
            in_range(r@, 0x40_0000),
    {
        let d = self.dot(n);
        proof {
            lemma_mul_abs_bound(self@.x, 0x20000, n@.x, 0x20000);
            lemma_mul_abs_bound(self@.y, 0x20000, n@.y, 0x20000);
            lemma_mul_abs_bound(self@.z, 0x20000, n@.z, 0x20000);
            lemma_div_tz_le_abs(
                self@.x * n@.x + self@.y * n@.y + self@.z * n@.z,
                65536,
                0xc_0000,
            );
        }
        let scaled = n.scale(2 * d);
        proof {
            lemma_mul_abs_bound(n@.x, 0x20000, 2 * (d as int), 0x18_0000);
            lemma_mul_abs_bound(n@.y, 0x20000, 2 * (d as int), 0x18_0000);
            lemma_mul_abs_bound(n@.z, 0x20000, 2 * (d as int), 0x18_0000);
            lemma_div_tz_le_abs(n@.x * (2 * (d as int)), 65536, 0x30_0000);
            lemma_div_tz_le_abs(n@.y * (2 * (d as int)), 65536, 0x30_0000);
            lemma_div_tz_le_abs(n@.z * (2 * (d as int)), 65536, 0x30_0000);
        }
        self.sub(&scaled)
    }

    /// Test whether every component lies within `[-b, b]`.
    pub fn within(&self, b: i64) -> (r: bool)
        requires
            b >= 0,
        ensures
            r == in_range(self@, b as int),
    {
        -b <= self.x && self.x <= b && -b <= self.y && self.y <= b && -b <= self.z && self.z <= b
    }

    /// The raw sum of squared components, exactly, at scale `2^32`.
    pub fn sumsq_raw(&self) -> (s: i128)
        requires
            in_range(self@, 0x40_0000_0000),
        ensures
            s == sumsq_s(self@),
            0 <= s <= 0x3000_0000_0000_0000_0000,
    {
        proof {
            lemma_sumsq_bounds(self@, 0x40_0000_0000);
        }
        (self.x as i128) * (self.x as i128) + (self.y as i128) * (self.y as i128) + (self.z
            as i128) * (self.z as i128)
    }

    /// Each axis drawn uniformly from `[0, 1)`.
    pub fn random(rng: &mut rand::rngs::StdRng) -> (r: Vec3)
        ensures
            0 <= r@.x < 65536,
            0 <= r@.y < 65536,
            0 <= r@.z < 65536,
    {
        let x = draw_scalar(rng, 0, 65536);
        let y = draw_scalar(rng, 0, 65536);
        let z = draw_scalar(rng, 0, 65536);
        Vec3 { x, y, z }
    }

    /// Each axis drawn uniformly from `[min, max)`.
    pub fn random_range(rng: &mut rand::rngs::StdRng, min: i64, max: i64) -> (r: Vec3)
        requires
            -0x40_0000_0000 <= min <= max <= 0x40_0000_0000,
        ensures
            min <= r@.x <= max,
            min <= r@.y <= max,
            min <= r@.z <= max,
            min < max ==> r@.x < max && r@.y < max && r@.z < max,
    {
        let x = draw_scalar(rng, min, max);
        let y = draw_scalar(rng, min, max);
        let z = draw_scalar(rng, min, max);
        Vec3 { x, y, z }
    }

    /// Rejection sampling on the unit ball, then normalization: draw
    /// candidates in `[-1, 1)^3` until the squared length falls in a
    /// usable window, then divide by the length. A bounded number of
    /// attempts keeps the routine total; the fallback is the unit `z`
    /// axis.
    pub fn random_unit_vector(rng: &mut rand::rngs::StdRng) -> (r: Vec3)
        ensures
            near_unit(r@),
    {
        let mut tries: u32 = 0;
        while tries < 32
            invariant
                tries <= 32,
            decreases 32 - tries,
        {
            let p = Self::random_range(rng, -65536, 65536);
            let lensq = p.length_squared();
            if 1 <= lensq && lensq <= 65536 {
                proof {
                    vstd::arithmetic::div_mod::lemma_fundamental_div_mod(sumsq_s(p@), 65536);
                    vstd::arithmetic::div_mod::lemma_mod_division_less_than_divisor(
                        sumsq_s(p@),
                        65536,
                    );
                    lemma_normalize_near_unit(p@);
                }
                return p.normalize();
            }
            tries = tries + 1;
        }
        Vec3 { x: 0, y: 0, z: 65536 }
    }

    /// A random unit-scale vector on the hemisphere around `normal`:
    /// the dot product of the result with `normal` is never negative.
    pub fn random_on_hemisphere(rng: &mut rand::rngs::StdRng, normal: &Vec3) -> (r: Vec3)
        requires
            in_range(normal@, 0x40_0000_0000),
        ensures
            near_unit(r@),
            dot_s(r@, normal@) >= 0,
    {
        let u = Self::random_unit_vector(rng);
        let d = u.dot(normal);
        if d > 0 {
            u
        } else {
            let n = u.scale(-65536);
            proof {
                lemma_scale_negates(u@);
                lemma_dot_negate(u@, normal@);
                lemma_sumsq_neg(u@);
            }
            n
        }
    }
}

/// The raw sum of squares of a `b`-bounded vector is nonnegative and at
/// most `3 * b^2`.
pub proof fn lemma_sumsq_bounds(v: V3, b: int)
    requires
        in_range(v, b),
    ensures
        0 <= v.x * v.x <= b * b,
        0 <= v.y * v.y <= b * b,
        0 <= v.z * v.z <= b * b,
        0 <= sumsq_s(v) <= 3 * (b * b),
{
    assert(0 <= v.x * v.x <= b * b) by (nonlinear_arith)
        requires
            -b <= v.x <= b,
    ;
    assert(0 <= v.y * v.y <= b * b) by (nonlinear_arith)
        requires
            -b <= v.y <= b,
    ;
    assert(0 <= v.z * v.z <= b * b) by (nonlinear_arith)
        requires
            -b <= v.z <= b,
    ;
}

/// No component of a vector exceeds the vector's fixed-point length.
pub proof fn lemma_component_le_len(v: V3)
    ensures
        -len_s(v) <= v.x <= len_s(v),
        -len_s(v) <= v.y <= len_s(v),
        -len_s(v) <= v.z <= len_s(v),
{
    assert(v.x * v.x >= 0) by (nonlinear_arith);
    assert(v.y * v.y >= 0) by (nonlinear_arith);
    assert(v.z * v.z >= 0) by (nonlinear_arith);
    lemma_sqrt_floor_bounds(sumsq_s(v) as nat);
    let l = len_s(v);
    assert(-l <= v.x <= l) by (nonlinear_arith)
        requires
            v.x * v.x < (l + 1) * (l + 1),
            l >= 0,
    ;
    assert(-l <= v.y <= l) by (nonlinear_arith)
        requires
            v.y * v.y < (l + 1) * (l + 1),
            l >= 0,
    ;
    assert(-l <= v.z <= l) by (nonlinear_arith)
        requires
            v.z * v.z < (l + 1) * (l + 1),
            l >= 0,
    ;
}

/// Normalization preserves direction: the dot product of `normalize(v)`
/// with `v` itself is strictly positive for every usable `v`.
pub proof fn lemma_normalize_dot_positive(v: V3)
    requires
        in_range(v, 0x40_0000_0000),
        sumsq_s(v) >= 16,
    ensures
        dot_s(normalize_s(v), v) >= 1,
{
    assert(v.x * v.x >= 0) by (nonlinear_arith);
    assert(v.y * v.y >= 0) by (nonlinear_arith);
    assert(v.z * v.z >= 0) by (nonlinear_arith);
    lemma_sqrt_floor_bounds(sumsq_s(v) as nat);
    let l = len_s(v);
    assert(l >= 4) by (nonlinear_arith)
        requires
            (l + 1) * (l + 1) > 16,
            l >= 0,
    ;
    lemma_component_le_len(v);
    let rx = div_tz(v.x * 65536, l);
    let ry = div_tz(v.y * 65536, l);
    let rz = div_tz(v.z * 65536, l);
    lemma_div_tz_bounds(v.x * 65536, l);
    lemma_div_tz_bounds(v.y * 65536, l);
    lemma_div_tz_bounds(v.z * 65536, l);
    assert((rx * v.x) * l >= 65536 * (v.x * v.x) - l * (l - 1)) by (nonlinear_arith)
        requires
            rx * l >= v.x * 65536 - (l - 1),
            rx * l <= v.x * 65536 + (l - 1),
            -l <= v.x <= l,
            l >= 4,
    ;
    assert((ry * v.y) * l >= 65536 * (v.y * v.y) - l * (l - 1)) by (nonlinear_arith)
        requires
            ry * l >= v.y * 65536 - (l - 1),
            ry * l <= v.y * 65536 + (l - 1),
            -l <= v.y <= l,
            l >= 4,
    ;
    assert((rz * v.z) * l >= 65536 * (v.z * v.z) - l * (l - 1)) by (nonlinear_arith)
        requires
            rz * l >= v.z * 65536 - (l - 1),
            rz * l <= v.z * 65536 + (l - 1),
            -l <= v.z <= l,
            l >= 4,
    ;
    let sum = rx * v.x + ry * v.y + rz * v.z;
    assert(sum * l >= 65533 * (l * l)) by (nonlinear_arith)
        requires
            (rx * v.x) * l >= 65536 * (v.x * v.x) - l * (l - 1),
            (ry * v.y) * l >= 65536 * (v.y * v.y) - l * (l - 1),
            (rz * v.z) * l >= 65536 * (v.z * v.z) - l * (l - 1),
            v.x * v.x + v.y * v.y + v.z * v.z >= l * l,
            sum == rx * v.x + ry * v.y + rz * v.z,
            l >= 4,
    ;
    assert(sum >= 65533 * l) by (nonlinear_arith)
        requires
            sum * l >= 65533 * (l * l),
            l >= 1,
    ;
    lemma_div_tz_bounds(sum, 65536);
}

/// Normalization yields a vector of unit length up to rounding: the
/// raw sum of squares stays within a narrow window around `2^32`.
pub proof fn lemma_normalize_near_unit(v: V3)
    requires
        in_range(v, 0x40_0000_0000),
        sumsq_s(v) >= 16,
    ensures
        sumsq_s(normalize_s(v)) >= 65536 * 65536 - 6 * 65536,
        sumsq_s(normalize_s(v)) <= 65536 * 65536 + 32768 * 65536 + 7 * 65536,
{
    assert(v.x * v.x >= 0) by (nonlinear_arith);
    assert(v.y * v.y >= 0) by (nonlinear_arith);
    assert(v.z * v.z >= 0) by (nonlinear_arith);
    lemma_sqrt_floor_bounds(sumsq_s(v) as nat);
    let l = len_s(v);
    assert(l >= 4) by (nonlinear_arith)
        requires
            (l + 1) * (l + 1) > 16,
            l >= 0,
    ;
    lemma_component_le_len(v);
    let rx = div_tz(v.x * 65536, l);
    let ry = div_tz(v.y * 65536, l);
    let rz = div_tz(v.z * 65536, l);
    lemma_div_tz_bounds(v.x * 65536, l);
    lemma_div_tz_bounds(v.y * 65536, l);
    lemma_div_tz_bounds(v.z * 65536, l);
    assert(65536 * 65536 * (v.x * v.x) - 2 * 65536 * (l * l) <= (rx * rx) * (l * l) <= 65536
        * 65536 * (v.x * v.x) + 2 * 65536 * (l * l) + l * l) by (nonlinear_arith)
        requires
            rx * l >= v.x * 65536 - (l - 1),
            rx * l <= v.x * 65536 + (l - 1),
            -l <= v.x <= l,
            l >= 4,
    ;
    assert(65536 * 65536 * (v.y * v.y) - 2 * 65536 * (l * l) <= (ry * ry) * (l * l) <= 65536
        * 65536 * (v.y * v.y) + 2 * 65536 * (l * l) + l * l) by (nonlinear_arith)
        requires
            ry * l >= v.y * 65536 - (l - 1),
            ry * l <= v.y * 65536 + (l - 1),
            -l <= v.y <= l,
            l >= 4,
    ;
    assert(65536 * 65536 * (v.z * v.z) - 2 * 65536 * (l * l) <= (rz * rz) * (l * l) <= 65536
        * 65536 * (v.z * v.z) + 2 * 65536 * (l * l) + l * l) by (nonlinear_arith)
        requires
            rz * l >= v.z * 65536 - (l - 1),
            rz * l <= v.z * 65536 + (l - 1),
            -l <= v.z <= l,
            l >= 4,
    ;
    let sq = rx * rx + ry * ry + rz * rz;
    assert(sq * (l * l) >= (65536 * 65536 - 6 * 65536) * (l * l)) by (nonlinear_arith)
        requires
            (rx * rx) * (l * l) >= 65536 * 65536 * (v.x * v.x) - 2 * 65536 * (l * l),
            (ry * ry) * (l * l) >= 65536 * 65536 * (v.y * v.y) - 2 * 65536 * (l * l),
            (rz * rz) * (l * l) >= 65536 * 65536 * (v.z * v.z) - 2 * 65536 * (l * l),
            v.x * v.x + v.y * v.y + v.z * v.z >= l * l,
            sq == rx * rx + ry * ry + rz * rz,
    ;
    assert(sq * (l * l) <= (65536 * 65536 + 32768 * 65536 + 7 * 65536) * (l * l))
        by (nonlinear_arith)
        requires
            (rx * rx) * (l * l) <= 65536 * 65536 * (v.x * v.x) + 2 * 65536 * (l * l) + l * l,
            (ry * ry) * (l * l) <= 65536 * 65536 * (v.y * v.y) + 2 * 65536 * (l * l) + l * l,
            (rz * rz) * (l * l) <= 65536 * 65536 * (v.z * v.z) + 2 * 65536 * (l * l) + l * l,
            v.x * v.x + v.y * v.y + v.z * v.z < (l + 1) * (l + 1),
            v.x * v.x + v.y * v.y + v.z * v.z >= l * l,
            sq == rx * rx + ry * ry + rz * rz,
            l >= 4,
    ;
    assert(sq >= 65536 * 65536 - 6 * 65536) by (nonlinear_arith)
        requires
            sq * (l * l) >= (65536 * 65536 - 6 * 65536) * (l * l),
            l >= 1,
    ;
    assert(sq <= 65536 * 65536 + 32768 * 65536 + 7 * 65536) by (nonlinear_arith)
        requires
            sq * (l * l) <= (65536 * 65536 + 32768 * 65536 + 7 * 65536) * (l * l),
            l >= 1,
    ;
}

/// Negation preserves the sum of squares and every range bound.
pub proof fn lemma_sumsq_neg(v: V3)
    ensures
        sumsq_s(neg_s(v)) == sumsq_s(v),
{
    vstd::arithmetic::mul::lemma_mul_unary_negation(v.x, v.x);
    vstd::arithmetic::mul::lemma_mul_unary_negation(v.x, -v.x);
    vstd::arithmetic::mul::lemma_mul_unary_negation(v.y, v.y);
    vstd::arithmetic::mul::lemma_mul_unary_negation(v.y, -v.y);
    vstd::arithmetic::mul::lemma_mul_unary_negation(v.z, v.z);
    vstd::arithmetic::mul::lemma_mul_unary_negation(v.z, -v.z);
}

/// Scaling by minus one (in fixed-point, `-2^16`) negates exactly.
pub proof fn lemma_scale_negates(v: V3)
    ensures
        scale_s(v, -65536) == neg_s(v),
{
    lemma_scale_negates_component(v.x);
    lemma_scale_negates_component(v.y);
    lemma_scale_negates_component(v.z);
}

proof fn lemma_scale_negates_component(a: int)
    ensures
        fx_mul_s(a, -65536) == -a,
{
    vstd::arithmetic::div_mod::lemma_mod_multiples_basic(a, 65536);
    vstd::arithmetic::mul::lemma_mul_is_commutative(a, 65536);
    lemma_div_tz_exact(a * 65536, 65536);
    lemma_div_tz_neg(a * 65536, 65536);
    assert(a * (-65536) == -(a * 65536)) by (nonlinear_arith);
    let q = div_tz(a * 65536, 65536);
    assert(q == a) by (nonlinear_arith)
        requires
            q * 65536 == a * 65536,
    ;
}

/// Negating one argument negates the dot product.
pub proof fn lemma_dot_negate(a: V3, b: V3)
    ensures
        dot_s(V3 { x: -a.x, y: -a.y, z: -a.z }, b) == -dot_s(a, b),
{
    vstd::arithmetic::mul::lemma_mul_unary_negation(a.x, b.x);
    vstd::arithmetic::mul::lemma_mul_unary_negation(a.y, b.y);
    vstd::arithmetic::mul::lemma_mul_unary_negation(a.z, b.z);
    lemma_div_tz_neg(a.x * b.x + a.y * b.y + a.z * b.z, 65536);
}

/// One uniform fixed-point draw from `[min, max)` (or `min` itself when
/// the interval is empty).
fn draw_scalar(rng: &mut rand::rngs::StdRng, min: i64, max: i64) -> (r: i64)
    requires
        -0x40_0000_0000 <= min <= max <= 0x40_0000_0000,
    ensures
        min <= r <= max,
        min < max ==> r < max,
{
    let u = (crate::rng::next_u64(rng) % 65536) as i64;
    let span = max - min;
    proof {
        lemma_mul_abs_bound(u as int, 65536, span as int, 0x80_0000_0000);
    }
    let off = fixed::fx_mul(u, span);
    proof {
        lemma_div_tz_bounds((u as int) * (span as int), 65536);
        assert((u as int) * (span as int) >= 0) by (nonlinear_arith)
            requires
                u >= 0,
                span >= 0,
        ;
        if span > 0 {
            assert((u as int) * (span as int) < 65536 * (span as int)) by (nonlinear_arith)
                requires
                    0 <= u < 65536,
                    span > 0,
            ;
            vstd::arithmetic::mul::lemma_mul_is_commutative(65536, span as int);
            lemma_div_tz_lt_abs((u as int) * (span as int), 65536, span as int);
        } else {
            assert(u as int * 0 == 0) by (nonlinear_arith);
            vstd::arithmetic::div_mod::lemma_div_of0(65536);
        }
    }
    min + off
}

} // verus!
