//! Fixed-point scalars.
//!
//! Positions and velocities are signed 64-bit counts of millionths: the
//! scalar `UNIT` stands for one pixel (or one pixel per unit of time).
//! Products and quotients round toward negative infinity, and results that
//! leave the 64-bit range stick at its nearest end.

use vstd::prelude::*;
use vstd::arithmetic::div_mod::lemma_fundamental_div_mod;
use vstd::arithmetic::div_mod::lemma_fundamental_div_mod_converse;
use vstd::arithmetic::div_mod::lemma_mod_bound;

verus! {

/// The scalar that stands for the number one.
pub const UNIT: i64 = 1_000_000;

/// The nearest 64-bit scalar to `x`.
pub open spec fn saturate(x: int) -> int {
    if x < i64::MIN as int {
        i64::MIN as int
    } else if x > i64::MAX as int {
        i64::MAX as int
    } else {
        x
    }
}

/// The product of two scalars, as a scalar: `a * b / UNIT`, rounded down.
pub open spec fn scaled(a: int, b: int) -> int {
    (a * b) / (UNIT as int)
}

/// Dividing by a product is dividing by one factor and then by the other,
/// whatever the sign of the numerator.
pub proof fn lemma_floor_div_nested(x: int, b: int, c: int)
    requires
        b > 0,
        c > 0,
    ensures
        b * c > 0,
        x / (b * c) == (x / b) / c,
{
    let q1 = x / b;
    let r1 = x % b;
    let q = q1 / c;
    let r2 = q1 % c;
    lemma_fundamental_div_mod(x, b);
    lemma_mod_bound(x, b);
    lemma_fundamental_div_mod(q1, c);
    lemma_mod_bound(q1, c);
    assert(b * c > 0 && x == q * (b * c) + (r2 * b + r1) && 0 <= r2 * b + r1 < b * c)
        by (nonlinear_arith)
        requires
            x == b * q1 + r1,
            q1 == c * q + r2,
            0 <= r1 < b,
            0 <= r2 < c,
    ;
    lemma_fundamental_div_mod_converse(x, b * c, q, r2 * b + r1);
}

/// Division rounding toward negative infinity, for a positive divisor.
pub fn floor_div(n: i128, d: i128) -> (q: i128)
    requires
        d > 0,
    ensures
        q == n / d,
{
    if n >= 0 {
        n / d
    } else {
        let m: i128 = -(n + 1);
        let a: i128 = m / d;
        proof {
            let r: int = m as int % d as int;
            lemma_fundamental_div_mod(m as int, d as int);
            assert(n as int == (-(a as int) - 1) * (d as int) + (d as int - 1 - r)) by (nonlinear_arith)
                requires
                    m as int == d as int * (a as int) + r,
                    m as int == -(n as int + 1),
            ;
            lemma_fundamental_div_mod_converse(n as int, d as int, -(a as int) - 1, d as int - 1 - r);
        }
        -a - 1
    }
}

/// Brings a wide intermediate result back into the 64-bit scalar range.
pub fn clamp_to_scalar(x: i128) -> (r: i64)
    ensures
        r == saturate(x as int),
{
    if x < i64::MIN as i128 {
        i64::MIN
    } else if x > i64::MAX as i128 {
        i64::MAX
    } else {
        x as i64
    }
}

/// The fixed-point product of a scalar `a` and a scalar `b` or its negative,
/// before it is brought back into the scalar range.
pub fn scaled_product(a: i64, b: i128) -> (r: i128)
    requires
        -0x8000_0000_0000_0000 <= b <= 0x8000_0000_0000_0000,
    ensures
        r == scaled(a as int, b as int),
        -0x8000_0000_0000_0000_0000_0000_0000 <= r <= 0x8000_0000_0000_0000_0000_0000_0000,
{
    assert(-0x4000_0000_0000_0000_0000_0000_0000_0000 <= a * b <= 0x4000_0000_0000_0000_0000_0000_0000_0000)
        by (nonlinear_arith)
        requires
            -0x8000_0000_0000_0000 <= a <= 0x8000_0000_0000_0000,
            -0x8000_0000_0000_0000 <= b <= 0x8000_0000_0000_0000,
    ;
    let q: i128 = floor_div(a as i128 * b, UNIT as i128);
    assert(-0x8000_0000_0000_0000_0000_0000_0000 <= q <= 0x8000_0000_0000_0000_0000_0000_0000) by {
        lemma_fundamental_div_mod(a * b, UNIT as int);
    }
    q
}

} // verus!
