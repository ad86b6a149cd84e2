//! Two measures for display: how far a value lies between two bounds, and
//! the length of a vector.

use vstd::prelude::*;
use crate::scalar::clamp_to_scalar;
use crate::scalar::floor_div;
use crate::scalar::saturate;
use crate::scalar::UNIT;

verus! {

/// Where `val` lies on the way from `min` to `max`, as a scalar: zero at
/// `min`, one at `max`, rounded down.
pub open spec fn fraction_between(min: int, max: int, val: int) -> int {
    if max > min {
        (val - min) * UNIT / (max - min)
    } else {
        (min - val) * UNIT / (min - max)
    }
}

/// Where `val` lies on the way from `min` to `max`, held inside the scalar
/// range; nothing where the two bounds coincide.
pub fn scale(min: i64, max: i64, val: i64) -> (r: Option<i64>)
    ensures
        r == if min == max {
            None::<i64>
        } else {
            Some(saturate(fraction_between(min as int, max as int, val as int)) as i64)
        },
{
    if min == max {
        return None;
    }
    let one: i128 = UNIT as i128;
    let q: i128 = if max > min {
        floor_div((val as i128 - min as i128) * one, max as i128 - min as i128)
    } else {
        floor_div((min as i128 - val as i128) * one, min as i128 - max as i128)
    };
    Some(clamp_to_scalar(q))
}

/// The length of the vector `(dx, dy)`, rounded down and held inside the
/// scalar range: the largest scalar, up to the end of the range, whose
/// square does not exceed `dx * dx + dy * dy`.
pub fn mag(dx: i64, dy: i64) -> (r: i64)
    ensures
        0 <= r,
        r * r <= dx * dx + dy * dy,
        r < i64::MAX ==> dx * dx + dy * dy < (r + 1) * (r + 1),
{
    let ax: u128 = if dx < 0 {
        (-(dx as i128)) as u128
    } else {
        dx as u128
    };
    let ay: u128 = if dy < 0 {
        (-(dy as i128)) as u128
    } else {
        dy as u128
    };
    assert(ax * ax == dx * dx && ay * ay == dy * dy && ax * ax
        <= 0x4000_0000_0000_0000_0000_0000_0000_0000 && ay * ay
        <= 0x4000_0000_0000_0000_0000_0000_0000_0000) by (nonlinear_arith)
        requires
            ax == dx || ax == -dx,
            ay == dy || ay == -dy,
            0 <= ax <= 0x8000_0000_0000_0000,
            0 <= ay <= 0x8000_0000_0000_0000,
    ;
    let n: u128 = ax * ax + ay * ay;
    let mut low: u128 = 0;
    let mut high: u128 = 0x1_0000_0000_0000_0000;
    assert(0u128 * 0u128 == 0 && 0x1_0000_0000_0000_0000int * 0x1_0000_0000_0000_0000int
        == 0x1_0000_0000_0000_0000_0000_0000_0000_0000int) by (nonlinear_arith);
    while high - low > 1
        invariant
            low < high <= 0x1_0000_0000_0000_0000,
            low * low <= n < high * high,
        decreases high - low,
    {
        let mid: u128 = low + (high - low) / 2;
        assert(mid * mid < 0x1_0000_0000_0000_0000_0000_0000_0000_0000) by (nonlinear_arith)
            requires
                0 <= mid < 0x1_0000_0000_0000_0000,
        ;
        if mid * mid <= n {
            low = mid;
        } else {
            high = mid;
        }
    }
    if low > i64::MAX as u128 {
        assert(i64::MAX * i64::MAX <= low * low) by (nonlinear_arith)
            requires
                i64::MAX <= low,
        ;
        i64::MAX
    } else {
        low as i64
    }
}

} // verus!
