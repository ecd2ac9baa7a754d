//! Saturating and wrapping integer helpers with their exact meaning.
use vstd::prelude::*;

verus! {

/// Clamp a mathematical integer into the `i64` range.
pub open spec fn sat_i64(x: int) -> int {
    if x > i64::MAX as int {
        i64::MAX as int
    } else if x < i64::MIN as int {
        i64::MIN as int
    } else {
        x
    }
}

/// Clamp a mathematical integer into the `u64` range (negative values become 0).
pub open spec fn sat_u64(x: int) -> int {
    if x > u64::MAX as int {
        u64::MAX as int
    } else if x < 0 {
        0
    } else {
        x
    }
}

/// Clamp a mathematical integer into the `u32` range (negative values become 0).
pub open spec fn sat_u32(x: int) -> int {
    if x > u32::MAX as int {
        u32::MAX as int
    } else if x < 0 {
        0
    } else {
        x
    }
}

/// Distance from `from` forward to `to` on the 32-bit sequence circle.
pub open spec fn seq_dist(to: u32, from: u32) -> int {
    if to >= from {
        to - from
    } else {
        to - from + 0x1_0000_0000
    }
}

/// `seq + k` on the 32-bit sequence circle.
pub open spec fn seq_add(seq: u32, k: int) -> u32 {
    ((seq + k) % 0x1_0000_0000) as u32
}

/// Ceiling division of non-negative integers.
pub open spec fn ceil_div(a: int, b: int) -> int {
    (a + b - 1) / b
}

/// `i64` saturating addition.
pub fn add_sat_i64(a: i64, b: i64) -> (r: i64)
    ensures
        r == sat_i64(a + b),
{
    match a.checked_add(b) {
        Some(v) => v,
        None => {
            if b > 0 {
                i64::MAX
            } else {
                i64::MIN
            }
        },
    }
}

/// `u64` saturating multiplication.
pub fn mul_sat_u64(a: u64, b: u64) -> (r: u64)
    ensures
        r == sat_u64(a * b),
{
    match a.checked_mul(b) {
        Some(v) => v,
        None => u64::MAX,
    }
}

/// Wrapping subtraction on `u32` sequence numbers.
pub fn seq_sub(to: u32, from: u32) -> (r: u32)
    ensures
        r == seq_dist(to, from),
{
    to.wrapping_sub(from)
}

/// Wrapping addition on `u32` sequence numbers.
pub fn seq_inc(seq: u32, k: u32) -> (r: u32)
    ensures
        r == seq_add(seq, k as int),
{
    seq.wrapping_add(k)
}

/// Ceiling division of `u64` values (the divisor must be positive).
pub fn div_ceil_u64(a: u64, b: u64) -> (r: u64)
    requires
        b > 0,
    ensures
        r == ceil_div(a as int, b as int),
{
    let q = a / b;
    proof {
        vstd::arithmetic::div_mod::lemma_fundamental_div_mod(a as int, b as int);
    }
    if a % b == 0 {
        proof {
            assert(ceil_div(a as int, b as int) == q) by (nonlinear_arith)
                requires a as int == b * q, b > 0;
        }
        q
    } else {
        proof {
            let r = a % b;
            assert(ceil_div(a as int, b as int) == q + 1) by (nonlinear_arith)
                requires a as int == b * q + r, 0 < r < b;
            assert(q < u64::MAX) by (nonlinear_arith)
                requires a as int == b * q + r, 0 < r < b, a <= u64::MAX, q >= 0;
        }
        q + 1
    }
}

} // verus!
