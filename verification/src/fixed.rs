//! 16.16 fixed-point scale shared by the whole crate, and an integer
//! square root used when normalizing movement vectors.

use vstd::prelude::*;

verus! {

/// One world (or cell) unit in fixed-point representation: values scaled
/// by `FP` represent the real number `value / FP`.
pub const FP: i64 = 65536;

/// `FP * FP`, the scale of a product of two fixed-point values.
pub const FP_SQ: i64 = 0x1_0000_0000;

/// Absolute value, for specifications.
pub open spec fn abs_i(x: int) -> int {
    if x < 0 {
        -x
    } else {
        x
    }
}

/// Truncating (toward-zero) division of `a` by a positive `b`, the
/// semantics of machine integer division, for specifications.
pub open spec fn div_trunc(a: int, b: int) -> int {
    if a >= 0 {
        a / b
    } else {
        -((-a) / b)
    }
}

/// A quotient is below `c` when the dividend is below `b * c`.
pub proof fn lemma_div_below(a: int, b: int, c: int)
    requires
        b > 0,
        0 <= a,
        a < b * c,
    ensures
        a / b < c,
{
    vstd::arithmetic::div_mod::lemma_fundamental_div_mod(a, b);
    vstd::arithmetic::div_mod::lemma_mod_bound(a, b);
    let q = a / b;
    let r = a % b;
    assert(q < c) by (nonlinear_arith)
        requires
            a == b * q + r,
            0 <= r < b,
            a < b * c,
            b > 0,
    ;
}

/// A quotient is at most `c` when the dividend is at most `b * c`.
pub proof fn lemma_div_at_most(a: int, b: int, c: int)
    requires
        b > 0,
        0 <= a,
        a <= b * c,
    ensures
        a / b <= c,
{
    vstd::arithmetic::div_mod::lemma_fundamental_div_mod(a, b);
    vstd::arithmetic::div_mod::lemma_mod_bound(a, b);
    let q = a / b;
    let r = a % b;
    assert(q <= c) by (nonlinear_arith)
        requires
            a == b * q + r,
            0 <= r < b,
            a <= b * c,
            b > 0,
    ;
}

/// A quotient is at least `c` when the dividend is at least `b * c`.
pub proof fn lemma_div_at_least(a: int, b: int, c: int)
    requires
        b > 0,
        0 <= c,
        b * c <= a,
    ensures
        a / b >= c,
{
    vstd::arithmetic::div_mod::lemma_fundamental_div_mod(a, b);
    vstd::arithmetic::div_mod::lemma_mod_bound(a, b);
    let q = a / b;
    let r = a % b;
    assert(q >= c) by (nonlinear_arith)
        requires
            a == b * q + r,
            0 <= r < b,
            b * c <= a,
            b > 0,
    ;
}

/// Euclidean remainder of a negative value, written over the remainder of
/// its negation: how machine arithmetic on magnitudes recovers the
/// mathematical (always non-negative) remainder.
pub proof fn lemma_mod_of_negative(x: int, d: int)
    requires
        d > 0,
        x < 0,
    ensures
        x % d == (if (-x) % d == 0 {
            0int
        } else {
            d - (-x) % d
        }),
{
    let r = (-x) % d;
    let k = (-x) / d;
    vstd::arithmetic::div_mod::lemma_fundamental_div_mod(-x, d);
    vstd::arithmetic::div_mod::lemma_mod_bound(-x, d);
    if r == 0 {
        assert(x == d * (-k) + 0) by (nonlinear_arith)
            requires
                -x == d * k + r,
                r == 0,
        ;
        vstd::arithmetic::div_mod::lemma_mod_multiples_vanish(-k, 0, d);
        vstd::arithmetic::div_mod::lemma_small_mod(0nat, d as nat);
    } else {
        assert(x == d * (-k - 1) + (d - r)) by (nonlinear_arith)
            requires
                -x == d * k + r,
        ;
        vstd::arithmetic::div_mod::lemma_mod_multiples_vanish(-k - 1, d - r, d);
        vstd::arithmetic::div_mod::lemma_small_mod((d - r) as nat, d as nat);
    }
}

/// `r` is the integer square root of `n`: the unique bracket between
/// consecutive squares.
pub open spec fn is_sqrt(n: int, r: int) -> bool {
    0 <= r && r * r <= n < (r + 1) * (r + 1)
}

/// The integer square root of `n`, as a value: the bracket between
/// consecutive squares is unique, so the choice is determinate for any
/// non-negative `n`.
pub open spec fn sqrt_of(n: int) -> int {
    choose|r: int| is_sqrt(n, r)
}

/// Any bracketed root is the chosen one.
pub proof fn lemma_sqrt_of(n: int, r: int)
    requires
        is_sqrt(n, r),
    ensures
        sqrt_of(n) == r,
{
    assert(is_sqrt(n, r));
    let rr = choose|r2: int| is_sqrt(n, r2);
    assert(is_sqrt(n, rr));
    assert(rr == r) by (nonlinear_arith)
        requires
            0 <= rr && rr * rr <= n < (rr + 1) * (rr + 1),
            0 <= r && r * r <= n < (r + 1) * (r + 1),
    ;
}

/// Floor of the square root: the unique `r` with `r * r <= n < (r + 1) * (r + 1)`.
pub fn isqrt(n: u64) -> (r: u64)
    ensures
        r * r <= n < (r + 1) * (r + 1),
        is_sqrt(n as int, r as int),
        r <= 0x1_0000_0000,
{
    let mut lo: u64 = 0;
    let mut hi: u64 = 0x1_0000_0000;
    while lo + 1 < hi
        invariant
            lo < hi,
            hi <= 0x1_0000_0000,
            lo * lo <= n,
            n < hi * hi,
        decreases hi - lo,
    {
        let mid: u64 = lo + (hi - lo) / 2;
        assert(mid * mid <= 0xffff_ffff * 0xffff_ffff) by (nonlinear_arith)
            requires mid <= 0xffff_ffff,
        ;
        if mid * mid <= n {
            lo = mid;
        } else {
            hi = mid;
        }
    }
    lo
}

} // verus!
