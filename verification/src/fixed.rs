use vstd::prelude::*;

verus! {

/// One whole unit in fixed-point representation: every scalar and every
/// coordinate is a count of thousandths.
pub const ONE: i64 = 1000;

/// Largest magnitude of a coordinate: a million units either side of the origin.
pub const LIMIT: i64 = 1_000_000_000;

/// Largest argument of the integer square root.
pub const SQRT_DOMAIN: u128 = 0x0fff_ffff_ffff_ffff_ffff_ffff_ffff_ffff;

/// `r` is the square root of `n`, rounded down.
pub open spec fn is_floor_sqrt(n: nat, r: nat) -> bool {
    r * r <= n < (r + 1) * (r + 1)
}

/// The square root of `n`, rounded down.
pub closed spec fn floor_sqrt(n: nat) -> nat {
    choose|r: nat| #[trigger] is_floor_sqrt(n, r)
}

/// The square root of `n`, rounded up.
pub open spec fn ceil_sqrt(n: nat) -> nat {
    if n == 0 {
        0
    } else {
        floor_sqrt((n - 1) as nat) + 1
    }
}

/// `a / d` rounded toward zero, for a positive divisor.
pub open spec fn div_trunc(a: int, d: int) -> int {
    if a >= 0 {
        a / d
    } else {
        -((-a) / d)
    }
}

/// `a / d` rounded up, for a non-negative `a` and a positive divisor.
pub open spec fn div_ceil(a: int, d: int) -> int {
    (a + d - 1) / d
}

/// `z` held to the coordinate range.
pub open spec fn bounded(z: int) -> int {
    if z > LIMIT {
        LIMIT as int
    } else if z < -LIMIT {
        -LIMIT
    } else {
        z
    }
}

proof fn lemma_floor_sqrt_exists(n: nat)
    ensures
        exists|r: nat| #[trigger] is_floor_sqrt(n, r),
    decreases n,
{
    if n == 0 {
        assert(0nat * 0nat == 0 && (0nat + 1) * (0nat + 1) == 1) by (nonlinear_arith);
        assert(is_floor_sqrt(0, 0));
    } else {
        let m: nat = (n - 1) as nat;
        lemma_floor_sqrt_exists(m);
        let r: nat = choose|r: nat| #[trigger] is_floor_sqrt(m, r);
        if n < (r + 1) * (r + 1) {
            assert(is_floor_sqrt(n, r));
        } else {
            assert((r + 2) * (r + 2) == (r + 1) * (r + 1) + 2 * r + 3) by (nonlinear_arith);
            assert(is_floor_sqrt(n, r + 1));
        }
    }
}

/// Squaring is strictly monotone on the naturals.
pub proof fn lemma_square_monotone(a: nat, b: nat)
    ensures
        a <= b ==> a * a <= b * b,
        a < b ==> a * a < b * b,
        a * a <= b * b ==> a <= b,
        a * a < b * b ==> a < b,
{
    assert(a <= b ==> a * a <= b * b) by (nonlinear_arith);
    assert(a < b ==> a * a < b * b) by (nonlinear_arith);
    assert(a * a <= b * b ==> a <= b) by (nonlinear_arith);
    assert(a * a < b * b ==> a < b) by (nonlinear_arith);
}

/// `floor_sqrt(n)` is the one number whose square is at most `n` while the
/// square of its successor is more.
pub proof fn lemma_floor_sqrt(n: nat)
    ensures
        is_floor_sqrt(n, floor_sqrt(n)),
{
    lemma_floor_sqrt_exists(n);
}

/// Whatever meets the definition is the rounded-down root.
pub proof fn lemma_floor_sqrt_unique(n: nat, r: nat)
    requires
        is_floor_sqrt(n, r),
    ensures
        floor_sqrt(n) == r,
{
    lemma_floor_sqrt(n);
    let s = floor_sqrt(n);
    lemma_square_monotone(r + 1, s);
    lemma_square_monotone(s + 1, r);
}

/// The rounded-up root is the least number whose square reaches `n`.
pub proof fn lemma_ceil_sqrt(n: nat)
    ensures
        ceil_sqrt(n) * ceil_sqrt(n) >= n,
        n > 0 ==> ceil_sqrt(n) >= 1 && (ceil_sqrt(n) - 1) * (ceil_sqrt(n) - 1) < n,
{
    if n > 0 {
        lemma_floor_sqrt((n - 1) as nat);
    }
}

/// The square root of `n`, rounded down, by bisection.
pub fn isqrt(n: u128) -> (r: u128)
    requires
        n <= SQRT_DOMAIN,
    ensures
        r == floor_sqrt(n as nat),
        r < 0x4000_0000_0000_0000,
{
    let mut lo: u128 = 0;
    let mut hi: u128 = 0x4000_0000_0000_0000;
    assert(0x4000_0000_0000_0000u128 * 0x4000_0000_0000_0000u128
        == 0x1000_0000_0000_0000_0000_0000_0000_0000u128) by (nonlinear_arith);
    while hi - lo > 1
        invariant
            lo < hi <= 0x4000_0000_0000_0000,
            lo * lo <= n < hi * hi,
        decreases hi - lo,
    {
        let mid: u128 = lo + (hi - lo) / 2;
        assert(mid * mid <= 0x4000_0000_0000_0000 * 0x4000_0000_0000_0000) by (nonlinear_arith)
            requires
                mid <= 0x4000_0000_0000_0000,
        ;
        if mid * mid <= n {
            lo = mid;
        } else {
            hi = mid;
        }
    }
    proof {
        assert(hi == lo + 1);
        lemma_floor_sqrt_unique(n as nat, lo as nat);
    }
    lo
}

/// The square root of `n`, rounded up.
pub fn isqrt_ceil(n: u128) -> (r: u128)
    requires
        n <= SQRT_DOMAIN,
    ensures
        r == ceil_sqrt(n as nat),
        r <= 0x4000_0000_0000_0000,
{
    if n == 0 {
        0
    } else {
        isqrt(n - 1) + 1
    }
}

/// `z` held to the coordinate range.
pub fn clamp_coord(z: i128) -> (r: i64)
    ensures
        r == bounded(z as int),
        -LIMIT <= r <= LIMIT,
{
    if z > LIMIT as i128 {
        LIMIT
    } else if z < -(LIMIT as i128) {
        -LIMIT
    } else {
        z as i64
    }
}

/// `a / d` rounded toward zero.
pub fn div_toward_zero(a: i128, d: i128) -> (r: i128)
    requires
        d > 0,
        a > i128::MIN,
    ensures
        r == div_trunc(a as int, d as int),
{
    if a >= 0 {
        a / d
    } else {
        let q: i128 = (-a) / d;
        -q
    }
}

/// Rounding toward zero never grows a magnitude and keeps the sign.
pub proof fn lemma_div_trunc_bounds(a: int, d: int)
    requires
        d > 0,
    ensures
        a >= 0 ==> 0 <= div_trunc(a, d) && div_trunc(a, d) * d <= a < (div_trunc(a, d) + 1) * d,
        a <= 0 ==> div_trunc(a, d) <= 0 && (div_trunc(a, d) - 1) * d < a <= div_trunc(a, d) * d,
{
    if a >= 0 {
        let q = a / d;
        assert(0 <= q && q * d <= a < (q + 1) * d) by (nonlinear_arith)
            requires
                a >= 0,
                d > 0,
                q == a / d,
        ;
    }
    if a <= 0 {
        let b = -a;
        let q = b / d;
        assert(0 <= q && q * d <= b < (q + 1) * d) by (nonlinear_arith)
            requires
                b >= 0,
                d > 0,
                q == b / d,
        ;
        assert((-q - 1) * d == -((q + 1) * d) && (-q) * d == -(q * d)) by (nonlinear_arith);
    }
}

/// The size of `c` without its sign.
pub open spec fn magnitude(c: int) -> int {
    if c >= 0 {
        c
    } else {
        -c
    }
}

/// The size of `c` without its sign.
pub fn magnitude_of(c: i128) -> (r: u128)
    requires
        c > i128::MIN,
    ensures
        r == magnitude(c as int),
{
    if c >= 0 {
        c as u128
    } else {
        (-c) as u128
    }
}

/// A number and its magnitude have the same square.
pub proof fn lemma_magnitude_square(c: int)
    ensures
        magnitude(c) * magnitude(c) == c * c,
{
    assert(magnitude(c) * magnitude(c) == c * c) by (nonlinear_arith)
        requires
            magnitude(c) == c || magnitude(c) == -c,
    ;
}

/// Rounding `c * m / d` toward zero keeps the sign of `c`, and divides the
/// magnitude, rounded down.
pub proof fn lemma_scaled_magnitude(c: int, m: int, d: int)
    requires
        m >= 1,
        d >= 1,
    ensures
        magnitude(div_trunc(c * m, d)) == (magnitude(c) * m) / d,
        magnitude(div_trunc(c * m, d)) * d <= magnitude(c) * m < (magnitude(div_trunc(c * m, d))
            + 1) * d,
        c >= 0 ==> div_trunc(c * m, d) >= 0,
        c <= 0 ==> div_trunc(c * m, d) <= 0,
{
    lemma_div_trunc_bounds(c * m, d);
    assert(c >= 0 ==> c * m >= 0) by (nonlinear_arith)
        requires
            m >= 1,
    ;
    assert(c < 0 ==> c * m < 0) by (nonlinear_arith)
        requires
            m >= 1,
    ;
    assert(-(c * m) == (-c) * m) by (nonlinear_arith);
    let q = div_trunc(c * m, d);
    if c < 0 {
        let b = (-c) * m;
        assert(q == -(b / d));
        assert(0 <= b / d) by (nonlinear_arith)
            requires
                b >= 0,
                d >= 1,
        ;
        assert((-(b / d) - 1) * d == -((b / d + 1) * d) && (-(b / d)) * d == -((b / d) * d))
            by (nonlinear_arith);
    }
}

/// Whatever squares to `n` or more is at least the rounded-up root of `n`.
pub proof fn lemma_ceil_sqrt_least(n: nat, k: nat)
    requires
        k * k >= n,
    ensures
        ceil_sqrt(n) <= k,
{
    lemma_ceil_sqrt(n);
    if n > 0 {
        lemma_square_monotone((ceil_sqrt(n) - 1) as nat, k);
    }
}

} // verus!
