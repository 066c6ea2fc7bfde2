//! Fixed-point scalars: an `i64` holding `2^16` times the real value.
//!
//! All products and quotients are computed in `i128` and rounded toward
//! zero, and each executable operation is specified exactly by the spec
//! functions below, so callers reason about precise integer results
//! rather than error bounds.

use vstd::prelude::*;

verus! {

use vstd::arithmetic::div_mod::lemma_fundamental_div_mod;
use vstd::arithmetic::div_mod::lemma_fundamental_div_mod_converse_div;
use vstd::arithmetic::div_mod::lemma_div_is_ordered;
use vstd::arithmetic::div_mod::lemma_div_nonincreasing;
use vstd::arithmetic::div_mod::lemma_div_pos_is_pos;
use vstd::arithmetic::div_mod::lemma_mod_division_less_than_divisor;
use vstd::arithmetic::mul::lemma_mul_is_commutative;
use vstd::arithmetic::mul::lemma_mul_unary_negation;

/// The scale: stored integers are `FX_ONE` times the real value.
pub const FX_ONE: i64 = 65536;

/// Quotient of `a` by `b` rounded toward zero (the rounding that the
/// executable `i128` operations below produce), for a positive divisor.
pub open spec fn div_tz(a: int, b: int) -> int
    recommends
        b > 0,
{
    if a >= 0 {
        a / b
    } else {
        -((-a) / b)
    }
}

/// Quotient rounded toward zero for any non-zero divisor.
pub open spec fn sdiv_tz(a: int, b: int) -> int
    recommends
        b != 0,
{
    if b > 0 {
        div_tz(a, b)
    } else {
        div_tz(-a, -b)
    }
}

/// The fixed-point product: `(a * b) / 2^16`, rounded toward zero.
pub open spec fn fx_mul_s(a: int, b: int) -> int {
    div_tz(a * b, 65536)
}

/// The fixed-point quotient: `(a * 2^16) / b`, rounded toward zero.
pub open spec fn fx_div_s(a: int, b: int) -> int
    recommends
        b != 0,
{
    sdiv_tz(a * 65536, b)
}

/// `div_tz` never grows the magnitude of the dividend, and the quotient
/// times the divisor misses the dividend by less than the divisor.
pub proof fn lemma_div_tz_bounds(a: int, b: int)
    requires
        b > 0,
    ensures
        a >= 0 ==> 0 <= div_tz(a, b) <= a,
        a < 0 ==> a <= div_tz(a, b) <= 0,
        div_tz(a, b) * b <= a + b - 1,
        a - b + 1 <= div_tz(a, b) * b,
        a >= 0 ==> div_tz(a, b) * b <= a,
        a < 0 ==> a <= div_tz(a, b) * b,
{
    if a >= 0 {
        lemma_div_pos_is_pos(a, b);
        lemma_div_nonincreasing(a, b);
        lemma_fundamental_div_mod(a, b);
        lemma_mod_division_less_than_divisor(a, b);
        let q = a / b;
        lemma_mul_is_commutative(q, b);
    } else {
        lemma_div_pos_is_pos(-a, b);
        lemma_div_nonincreasing(-a, b);
        lemma_fundamental_div_mod(-a, b);
        lemma_mod_division_less_than_divisor(-a, b);
        let q = (-a) / b;
        lemma_mul_is_commutative(q, b);
        lemma_mul_unary_negation(q, b);
    }
}

/// Rounding toward zero is exact on exact multiples.
pub proof fn lemma_div_tz_exact(a: int, b: int)
    requires
        b > 0,
        a % b == 0,
    ensures
        div_tz(a, b) * b == a,
{
    lemma_fundamental_div_mod(a, b);
    let q = a / b;
    lemma_mul_is_commutative(b, q);
    if a < 0 {
        lemma_mul_unary_negation(q, b);
        assert(-a == (-q) * b + 0);
        lemma_fundamental_div_mod_converse_div(-a, b, -q, 0);
        lemma_mul_unary_negation((-a) / b, b);
    }
}

/// `div_tz` is monotone in the dividend.
pub proof fn lemma_div_tz_ordered(a1: int, a2: int, b: int)
    requires
        b > 0,
        a1 <= a2,
    ensures
        div_tz(a1, b) <= div_tz(a2, b),
{
    if a1 >= 0 {
        lemma_div_is_ordered(a1, a2, b);
    } else if a2 < 0 {
        lemma_div_is_ordered(-a2, -a1, b);
    } else {
        lemma_div_pos_is_pos(-a1, b);
        lemma_div_pos_is_pos(a2, b);
    }
}

/// Truncating division by a positive divisor, carried out on `i128`.
pub fn div_tz_i128(a: i128, b: i128) -> (r: i128)
    requires
        b > 0,
        a > i128::MIN,
    ensures
        r == div_tz(a as int, b as int),
{
    proof {
        lemma_div_tz_bounds(a as int, b as int);
    }
    if a >= 0 {
        ((a as u128) / (b as u128)) as i128
    } else {
        let m = ((-a) as u128) / (b as u128);
        proof {
            lemma_div_nonincreasing((-a) as int, b as int);
            lemma_div_pos_is_pos((-a) as int, b as int);
        }
        -(m as i128)
    }
}

/// Fixed-point multiplication: exact integer product scaled back down
/// by `2^16` with truncation toward zero.
pub fn fx_mul(a: i64, b: i64) -> (r: i64)
    requires
        -0x4000_0000_0000_0000_0000 <= (a as int) * (b as int) <= 0x4000_0000_0000_0000_0000,
    ensures
        r == fx_mul_s(a as int, b as int),
{
    let p: i128 = (a as i128) * (b as i128);
    let q = div_tz_i128(p, 65536);
    proof {
        lemma_div_tz_bounds(p as int, 65536);
    }
    q as i64
}

/// Fixed-point division by a non-zero scalar.
pub fn fx_div(a: i64, b: i64) -> (r: i64)
    requires
        b != 0,
        -0x4000_0000_0000 <= a <= 0x4000_0000_0000,
    ensures
        r == fx_div_s(a as int, b as int),
{
    let n: i128 = (a as i128) * 65536;
    let r = if b > 0 {
        let q = div_tz_i128(n, b as i128);
        proof {
            lemma_div_tz_bounds(n as int, b as int);
        }
        q
    } else {
        let q = div_tz_i128(-n, -(b as i128));
        proof {
            lemma_div_tz_bounds(-(n as int), -(b as int));
        }
        q
    };
    r as i64
}

/// Quotient magnitude bound: if `|x| <= c * d` then `|div_tz(x, d)| <= c`.
pub proof fn lemma_div_tz_le_abs(x: int, d: int, c: int)
    requires
        d > 0,
        c >= 0,
        -(c * d) <= x <= c * d,
    ensures
        -c <= div_tz(x, d) <= c,
{
    lemma_mul_is_commutative(d, c);
    if x >= 0 {
        lemma_div_pos_is_pos(x, d);
        vstd::arithmetic::div_mod::lemma_multiply_divide_le(x, d, c);
    } else {
        lemma_div_pos_is_pos(-x, d);
        vstd::arithmetic::div_mod::lemma_multiply_divide_le(-x, d, c);
    }
}

/// Strict quotient bound: if `|x| < c * d` then `|div_tz(x, d)| < c`.
pub proof fn lemma_div_tz_lt_abs(x: int, d: int, c: int)
    requires
        d > 0,
        c >= 1,
        -(c * d) < x < c * d,
    ensures
        -c < div_tz(x, d) < c,
{
    lemma_mul_is_commutative(d, c);
    if x >= 0 {
        lemma_div_pos_is_pos(x, d);
        vstd::arithmetic::div_mod::lemma_multiply_divide_lt(x, d, c);
    } else {
        lemma_div_pos_is_pos(-x, d);
        vstd::arithmetic::div_mod::lemma_multiply_divide_lt(-x, d, c);
    }
}

/// A product of bounded factors is bounded by the product of the bounds.
pub proof fn lemma_mul_abs_bound(a: int, amax: int, b: int, bmax: int)
    requires
        -amax <= a <= amax,
        -bmax <= b <= bmax,
    ensures
        -(amax * bmax) <= a * b <= amax * bmax,
{
    assert(-(amax * bmax) <= a * b <= amax * bmax) by (nonlinear_arith)
        requires
            -amax <= a <= amax,
            -bmax <= b <= bmax,
    ;
}

/// Truncation toward zero commutes with negation.
pub proof fn lemma_div_tz_neg(x: int, d: int)
    requires
        d > 0,
    ensures
        div_tz(-x, d) == -div_tz(x, d),
{
    vstd::arithmetic::div_mod::lemma_div_of0(d);
}

/// Fixed-point scaling distributes over an exact sum: when `d * t1` and
/// `d * t2` are both multiples of the scale, no rounding occurs and the
/// scaled products add.
pub proof fn lemma_fx_scale_additive(d: int, t1: int, t2: int)
    requires
        (d * t1) % 65536 == 0,
        (d * t2) % 65536 == 0,
    ensures
        fx_mul_s(d, t1 + t2) == fx_mul_s(d, t1) + fx_mul_s(d, t2),
{
    vstd::arithmetic::mul::lemma_mul_is_distributive_add(d, t1, t2);
    let a = d * t1;
    let b = d * t2;
    vstd::arithmetic::div_mod::lemma_add_mod_noop(a, b, 65536);
    lemma_div_tz_exact(a, 65536);
    lemma_div_tz_exact(b, 65536);
    lemma_div_tz_exact(a + b, 65536);
    let qa = div_tz(a, 65536);
    let qb = div_tz(b, 65536);
    let qab = div_tz(a + b, 65536);
    assert(qab == qa + qb) by (nonlinear_arith)
        requires
            qab * 65536 == qa * 65536 + qb * 65536,
    ;
}

/// The floor of the square root, as a recursive spec definition.
pub open spec fn sqrt_floor(n: nat) -> nat
    decreases n,
{
    if n == 0 {
        0
    } else {
        let p = sqrt_floor((n - 1) as nat);
        if (p + 1) * (p + 1) <= n {
            p + 1
        } else {
            p
        }
    }
}

/// `sqrt_floor(n)` squares to at most `n`, and is the largest such value.
pub proof fn lemma_sqrt_floor_bounds(n: nat)
    ensures
        sqrt_floor(n) * sqrt_floor(n) <= n,
        n < (sqrt_floor(n) + 1) * (sqrt_floor(n) + 1),
    decreases n,
{
    if n > 0 {
        lemma_sqrt_floor_bounds((n - 1) as nat);
        let p = sqrt_floor((n - 1) as nat);
        assert(p * p <= n - 1);
        assert(n - 1 < (p + 1) * (p + 1));
        if (p + 1) * (p + 1) <= n {
            assert(sqrt_floor(n) == p + 1);
            assert(n == (p + 1) * (p + 1));
            assert((p + 1) * (p + 1) < (p + 2) * (p + 2)) by (nonlinear_arith);
            assert(sqrt_floor(n) * sqrt_floor(n) <= n);
            assert(n < (sqrt_floor(n) + 1) * (sqrt_floor(n) + 1));
        } else {
            assert(sqrt_floor(n) == p);
            assert(sqrt_floor(n) * sqrt_floor(n) <= n);
            assert(n < (sqrt_floor(n) + 1) * (sqrt_floor(n) + 1));
        }
    } else {
        let s = sqrt_floor(n);
        assert(s == 0);
        assert((s + 1) * (s + 1) == 1) by (nonlinear_arith)
            requires
                s == 0,
        ;
    }
}

/// Any value whose square brackets `n` is `sqrt_floor(n)`.
pub proof fn lemma_sqrt_floor_unique(n: nat, r: nat)
    requires
        r * r <= n,
        n < (r + 1) * (r + 1),
    ensures
        r == sqrt_floor(n),
{
    lemma_sqrt_floor_bounds(n);
    let s = sqrt_floor(n);
    if r < s {
        assert((r + 1) * (r + 1) <= s * s) by (nonlinear_arith)
            requires
                r + 1 <= s,
        ;
    }
    if s < r {
        assert((s + 1) * (s + 1) <= r * r) by (nonlinear_arith)
            requires
                s + 1 <= r,
        ;
    }
}

/// Integer square root by bisection.
pub fn isqrt(n: u128) -> (r: u64)
    ensures
        r == sqrt_floor(n as nat),
{
    let mut lo: u128 = 0;
    let mut hi: u128 = if n >= 0xffff_ffff_ffff_ffff {
        0x1_0000_0000_0000_0000
    } else {
        n + 1
    };
    proof {
        assert((n as int) < (hi as int) * (hi as int)) by (nonlinear_arith)
            requires
                hi == if n >= 0xffff_ffff_ffff_ffff {
                    0x1_0000_0000_0000_0000 as int
                } else {
                    n + 1
                },
        ;
    }
    while hi - lo > 1
        invariant
            lo < hi <= 0x1_0000_0000_0000_0000,
            (lo as int) * (lo as int) <= n as int,
            (n as int) < (hi as int) * (hi as int),
        decreases hi - lo,
    {
        let mid = lo + (hi - lo) / 2;
        proof {
            assert(mid < hi);
            assert((mid as int) * (mid as int) <= 0xffff_ffff_ffff_ffff * 0xffff_ffff_ffff_ffff)
                by (nonlinear_arith)
                requires
                    0 <= mid <= 0xffff_ffff_ffff_ffff,
            ;
        }
        let sq = mid * mid;
        if sq <= n {
            lo = mid;
        } else {
            hi = mid;
        }
    }
    proof {
        lemma_sqrt_floor_unique(n as nat, lo as nat);
    }
    lo as u64
}

} // verus!
