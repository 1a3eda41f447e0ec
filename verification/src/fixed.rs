//! Fixed-point numbers.
//!
//! A real quantity `q` is held as the integer `q * ONE`, so one step of the
//! representation is a millionth of a world unit. This module provides the two
//! operations that need care with rounding: division rounded towards minus
//! infinity, and the integer square root.

use vstd::prelude::*;

verus! {

/// The representation of the real number one.
pub const ONE: i64 = 1_000_000;

/// The absolute value.
pub open spec fn magnitude(x: int) -> int {
    if x < 0 {
        -x
    } else {
        x
    }
}

/// `r` is the square root of `n`, rounded down.
pub open spec fn is_floor_sqrt(n: int, r: int) -> bool {
    &&& 0 <= r
    &&& r * r <= n
    &&& n < (r + 1) * (r + 1)
}

/// The square root of `n`, rounded down. Meaningful for `n >= 0`.
pub open spec fn floor_sqrt(n: int) -> int {
    choose|r: int| is_floor_sqrt(n, r)
}

/// The square root of `n`, rounded up. Meaningful for `n >= 0`.
pub open spec fn ceil_sqrt(n: int) -> int {
    let r = floor_sqrt(n);
    if r * r == n {
        r
    } else {
        r + 1
    }
}

/// Squaring is strictly monotonic on the non-negative integers.
pub proof fn lemma_square_monotonic(a: int, b: int)
    requires
        0 <= a,
        a < b,
    ensures
        a * a < b * b,
{
    assert(a * a <= a * b) by (nonlinear_arith)
        requires
            0 <= a,
            a < b,
    ;
    assert(a * b < b * b) by (nonlinear_arith)
        requires
            0 <= a,
            a < b,
    ;
}

/// Squaring is monotonic on the non-negative integers.
pub proof fn lemma_square_le(a: int, b: int)
    requires
        0 <= a,
        a <= b,
    ensures
        a * a <= b * b,
{
    if a < b {
        lemma_square_monotonic(a, b);
    }
}

/// A non-negative integer whose square does not exceed another square is
/// itself no larger.
pub proof fn lemma_square_le_implies_le(a: int, b: int)
    requires
        0 <= a,
        0 <= b,
        a * a <= b * b,
    ensures
        a <= b,
{
    if b < a {
        lemma_square_monotonic(b, a);
    }
}

/// At most one integer is the rounded-down square root of `n`.
pub proof fn lemma_floor_sqrt_unique(n: int, a: int, b: int)
    requires
        is_floor_sqrt(n, a),
        is_floor_sqrt(n, b),
    ensures
        a == b,
{
    if a < b {
        if a + 1 < b {
            lemma_square_monotonic(a + 1, b);
        }
    } else if b < a {
        if b + 1 < a {
            lemma_square_monotonic(b + 1, a);
        }
    }
}

/// An integer that satisfies the defining property is the value of
/// `floor_sqrt`.
pub proof fn lemma_floor_sqrt_is(n: int, r: int)
    requires
        is_floor_sqrt(n, r),
    ensures
        floor_sqrt(n) == r,
{
    lemma_floor_sqrt_unique(n, floor_sqrt(n), r);
}

/// Every non-negative integer has a rounded-down square root.
pub proof fn lemma_floor_sqrt_exists(n: int)
    requires
        0 <= n,
    ensures
        is_floor_sqrt(n, floor_sqrt(n)),
    decreases n,
{
    if n == 0 {
        assert(is_floor_sqrt(0, 0));
    } else {
        lemma_floor_sqrt_exists(n - 1);
        let r = floor_sqrt(n - 1);
        if (r + 1) * (r + 1) <= n {
            assert((r + 2) * (r + 2) == (r + 1) * (r + 1) + 2 * r + 3) by (nonlinear_arith);
            assert(is_floor_sqrt(n, r + 1));
        } else {
            assert(is_floor_sqrt(n, r));
        }
    }
}

/// The rounded-up square root is the least non-negative integer whose square
/// reaches `n`.
pub proof fn lemma_ceil_sqrt(n: int)
    requires
        0 <= n,
    ensures
        0 <= ceil_sqrt(n),
        n <= ceil_sqrt(n) * ceil_sqrt(n),
        ceil_sqrt(n) > 0 ==> (ceil_sqrt(n) - 1) * (ceil_sqrt(n) - 1) < n,
        floor_sqrt(n) <= ceil_sqrt(n) <= floor_sqrt(n) + 1,
{
    lemma_floor_sqrt_exists(n);
    let r = floor_sqrt(n);
    if r * r != n && r > 0 {
        assert((r + 1 - 1) * (r + 1 - 1) == r * r);
    }
    if r * r == n && r > 0 {
        lemma_square_monotonic(r - 1, r);
    }
}

/// The square root of `n`, rounded down.
pub fn isqrt(n: u128) -> (r: u128)
    ensures
        is_floor_sqrt(n as int, r as int),
        r == floor_sqrt(n as int),
        r < 0x1_0000_0000_0000_0000,
{
    let mut lo: u128 = 0;
    let mut hi: u128 = 0x1_0000_0000_0000_0000;
    assert(0x1_0000_0000_0000_0000int * 0x1_0000_0000_0000_0000int
        == 0x1_0000_0000_0000_0000_0000_0000_0000_0000int) by (nonlinear_arith);
    while hi - lo > 1
        invariant
            lo < hi <= 0x1_0000_0000_0000_0000,
            lo * lo <= n,
            n < hi * hi,
        decreases hi - lo,
    {
        let mid: u128 = lo + (hi - lo) / 2;
        assert(mid * mid <= 0xffff_ffff_ffff_ffff * 0xffff_ffff_ffff_ffff) by (nonlinear_arith)
            requires
                0 <= mid <= 0xffff_ffff_ffff_ffff,
        ;
        if mid * mid <= n {
            lo = mid;
        } else {
            hi = mid;
        }
    }
    proof {
        lemma_floor_sqrt_is(n as int, lo as int);
    }
    lo
}

/// The quotient `a / b` rounded towards minus infinity.
pub fn div_floor(a: i128, b: i128) -> (q: i128)
    requires
        0 < b,
    ensures
        q == a / b,
{
    if a >= 0 {
        a / b
    } else {
        let m: i128 = -(a + 1);
        let q: i128 = m / b;
        proof {
            lemma_div_of_negative(m as int, b as int);
        }
        -q - 1
    }
}

/// How the rounded-down quotient of the negative numerator `-m - 1` is
/// obtained from the quotient of `m`.
proof fn lemma_div_of_negative(m: int, b: int)
    requires
        0 <= m,
        0 < b,
    ensures
        (-m - 1) / b == -(m / b) - 1,
{
    let q = m / b;
    let r = m % b;
    vstd::arithmetic::div_mod::lemma_fundamental_div_mod(m, b);
    assert(-m - 1 == (-q - 1) * b + (b - r - 1)) by (nonlinear_arith)
        requires
            m == b * q + r,
    ;
    vstd::arithmetic::div_mod::lemma_fundamental_div_mod_converse(-m - 1, b, -q - 1, b - r - 1);
}

} // verus!
