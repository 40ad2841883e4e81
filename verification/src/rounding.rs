//! Division of signed numbers as the hardware formulas want it.
use vstd::prelude::*;

verus! {

/// Division that rounds towards zero.
pub open spec fn truncated(n: int, d: int) -> int {
    if n >= 0 {
        n / d
    } else {
        -((-n) / d)
    }
}

/// Division that rounds towards zero.
pub fn divide(n: i64, d: i64) -> (r: i64)
    requires
        0 < d,
        -0x4000_0000_0000_0000 < n < 0x4000_0000_0000_0000,
    ensures
        r == truncated(n as int, d as int),
        n >= 0 ==> 0 <= r <= n,
        n < 0 ==> n <= r <= 0,
{
    let m: u64 = if n >= 0 {
        n as u64
    } else {
        (-n) as u64
    };
    let q: u64 = m / (d as u64);
    assert(q <= m) by (nonlinear_arith)
        requires
            q == m / (d as u64),
            d > 0,
    ;
    if n >= 0 {
        q as i64
    } else {
        -(q as i64)
    }
}

/// A hundredth, rounded to the closest number, halves away from zero.
pub open spec fn closest_spec(n: int) -> int {
    if n < 0 {
        truncated(n - 50, 100)
    } else {
        truncated(n + 50, 100)
    }
}

pub fn closest(n: i64) -> (r: i64)
    requires
        -0x3000_0000_0000_0000 < n < 0x3000_0000_0000_0000,
    ensures
        r == closest_spec(n as int),
        n >= 0 ==> 0 <= 100 * r <= n + 50,
        n < 0 ==> n - 50 <= 100 * r <= 0,
{
    if n < 0 {
        divide(n - 50, 100)
    } else {
        divide(n + 50, 100)
    }
}

/// A hundredth is rounded to the closest number, and halves away from zero.
pub proof fn hundredths_are_rounded(n: int)
    ensures
        -50 <= 100 * closest_spec(n) - n <= 50,
        100 * closest_spec(n) - n == 50 ==> n > 0,
        100 * closest_spec(n) - n == -50 ==> n < 0,
{
}

} // verus!
