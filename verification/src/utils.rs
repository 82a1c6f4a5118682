//! Random draws and small numeric helpers used by the mutation operators.
//!
//! Every random draw in the engine goes through `rand_below`; the callers'
//! contracts state only what holds of every possible outcome.
use vstd::prelude::*;

verus! {

use crate::params::SCALE;

/// Relies on rand::random_range: for the non-empty range `0..n` it returns a
/// value drawn from within that range, and does not panic.
#[verifier::external_body]
fn rand_below(n: u64) -> (r: u64)
    requires
        1 <= n,
    ensures
        r < n,
{
    rand::random_range(0..n)
}

/// Floor of the square root of `val`.
pub fn sqrt_usize(val: &usize) -> (r: usize)
    ensures
        r * r <= *val,
        *val < (r + 1) * (r + 1),
{
    let v: u128 = *val as u128;
    let mut lo: u128 = 0;
    let mut hi: u128 = 4294967296;
    proof {
        assert(v < hi * hi) by (nonlinear_arith)
            requires
                v < 18446744073709551616u128,
                hi == 4294967296u128,
        ;
    }
    while lo + 1 < hi
        invariant
            lo < hi <= 4294967296,
            lo * lo <= v,
            v < hi * hi,
        decreases hi - lo,
    {
        let mid = lo + (hi - lo) / 2;
        proof {
            assert(mid * mid <= 0x10000000000000000u128) by (nonlinear_arith)
                requires
                    mid <= 0x100000000u128,
            ;
        }
        if mid * mid <= v {
            lo = mid;
        } else {
            hi = mid;
        }
    }
    lo as usize
}

/// A uniform draw from `[low, high]`; `low` itself when the range is empty.
pub fn random_usize(low: usize, high: usize) -> (r: usize)
    requires
        high < 0xffff_ffff_ffff_ffff,
    ensures
        low <= high ==> low <= r <= high,
        high < low ==> r == low,
{
    if high < low {
        return low;
    }
    let span: u64 = (high - low) as u64 + 1;
    let off = rand_below(span);
    low + (off as usize)
}

/// A uniform draw from `[low, high]`; `low` itself when the range is empty.
pub fn random_int(low: i64, high: i64) -> (r: i64)
    requires
        -0x2000_0000_0000_0000 <= low,
        high <= 0x2000_0000_0000_0000,
    ensures
        low <= high ==> low <= r <= high,
        high < low ==> r == low,
{
    if high < low {
        return low;
    }
    let span: u64 = (high - low) as u64 + 1;
    let off = rand_below(span);
    low + (off as i64)
}

/// A uniform fixed-point draw from `[0, 1)`.
pub fn random_unit() -> (r: i64)
    ensures
        0 <= r < SCALE,
{
    rand_below(SCALE as u64) as i64
}

/// A fixed-point draw from `(-1, 1)`: the difference of two unit draws.
pub fn random_clamped() -> (r: i64)
    ensures
        -SCALE < r < SCALE,
{
    let a = random_unit();
    let b = random_unit();
    a - b
}

/// The value `x` pinned into `[lo, hi]`.
pub open spec fn clamp_spec(x: int, lo: int, hi: int) -> int {
    if x < lo {
        lo
    } else if x > hi {
        hi
    } else {
        x
    }
}

/// Clamps `*arg` into `[min, max]`.
pub fn clamp(arg: &mut i64, min: i64, max: i64)
    requires
        min <= max,
    ensures
        *final(arg) == clamp_spec(*old(arg) as int, min as int, max as int),
{
    if *arg < min {
        *arg = min;
    }
    if *arg > max {
        *arg = max;
    }
}

} // verus!
