//! Fixed-point scalars: an `i64` counts units of `1 / ONE`.
use vstd::prelude::*;

verus! {

/// The fixed-point representation of 1.
pub const ONE: i64 = 65536;

/// Largest magnitude of a coordinate on which the vector operations are total.
pub const COORD: i64 = 2147483648;

/// Division that rounds toward zero, as integer division does on machines.
pub open spec fn tdiv(a: int, d: int) -> int {
    if a >= 0 {
        a / d
    } else {
        -((-a) / d)
    }
}

/// The fixed-point product of two fixed-point values.
pub open spec fn fx_mul(a: int, b: int) -> int {
    tdiv(a * b, ONE as int)
}

/// Integer square root: the largest `r` with `r * r <= n`.
pub open spec fn isqrt_spec(n: nat) -> nat
    decreases n,
{
    if n == 0 {
        0
    } else {
        let r = isqrt_spec((n - 1) as nat);
        if (r + 1) * (r + 1) <= n {
            r + 1
        } else {
            r
        }
    }
}

/// `r` is the integer square root of `n`.
pub open spec fn is_root(n: int, r: int) -> bool {
    r * r <= n < (r + 1) * (r + 1)
}

pub proof fn lemma_isqrt_spec(n: nat)
    ensures
        is_root(n as int, isqrt_spec(n) as int),
    decreases n,
{
    if n > 0 {
        lemma_isqrt_spec((n - 1) as nat);
        let r = isqrt_spec((n - 1) as nat) as int;
        let s = isqrt_spec(n) as int;
        let m = n as int;
        assert(r * r <= m - 1 < (r + 1) * (r + 1));
        if (r + 1) * (r + 1) <= m {
            assert(s == r + 1);
            assert(s * s <= m < (s + 1) * (s + 1)) by (nonlinear_arith)
                requires
                    m - 1 < (r + 1) * (r + 1),
                    (r + 1) * (r + 1) <= m,
                    s == r + 1,
                    r >= 0,
            ;
        } else {
            assert(s == r);
            assert(s * s <= m < (s + 1) * (s + 1));
        }
    } else {
        assert(isqrt_spec(n) == 0);
    }
}

pub proof fn lemma_isqrt_unique(n: nat, r: nat)
    requires
        is_root(n as int, r as int),
    ensures
        isqrt_spec(n) == r,
{
    lemma_isqrt_spec(n);
    let s = isqrt_spec(n);
    if s < r {
        assert((s + 1) * (s + 1) <= r * r) by (nonlinear_arith)
            requires
                s + 1 <= r,
                s >= 0,
        ;
    } else if s > r {
        assert((r + 1) * (r + 1) <= s * s) by (nonlinear_arith)
            requires
                r + 1 <= s,
                r >= 0,
        ;
    }
}

/// The magnitude of a value is at most the square root of any bound on its square.
pub proof fn lemma_abs_le_isqrt(c: int, n: nat)
    requires
        c * c <= n,
    ensures
        -(isqrt_spec(n) as int) <= c <= isqrt_spec(n),
{
    lemma_isqrt_spec(n);
    let s = isqrt_spec(n) as int;
    if c > s {
        assert((s + 1) * (s + 1) <= c * c) by (nonlinear_arith)
            requires
                s + 1 <= c,
                s >= 0,
        ;
    }
    if c < -s {
        assert((s + 1) * (s + 1) <= c * c) by (nonlinear_arith)
            requires
                c <= -(s + 1),
                s >= 0,
        ;
    }
}

pub proof fn lemma_tdiv_neg(a: int, d: int)
    requires
        d > 0,
    ensures
        tdiv(-a, d) == -tdiv(a, d),
{
}

pub proof fn lemma_tdiv_bounds(a: int, d: int, m: int)
    requires
        d > 0,
        m >= 0,
        -m <= a <= m,
    ensures
        -(m / d) <= tdiv(a, d) <= m / d,
        a >= 0 ==> tdiv(a, d) >= 0,
        a <= 0 ==> tdiv(a, d) <= 0,
{
    if a >= 0 {
        vstd::arithmetic::div_mod::lemma_div_is_ordered(a, m, d);
        vstd::arithmetic::div_mod::lemma_div_pos_is_pos(a, d);
    } else {
        vstd::arithmetic::div_mod::lemma_div_is_ordered(-a, m, d);
        vstd::arithmetic::div_mod::lemma_div_pos_is_pos(-a, d);
    }
}

pub proof fn lemma_mul_bound(a: int, b: int, ma: int, mb: int)
    requires
        -ma <= a <= ma,
        -mb <= b <= mb,
    ensures
        -(ma * mb) <= a * b <= ma * mb,
{
    assert(-(ma * mb) <= a * b <= ma * mb) by (nonlinear_arith)
        requires
            -ma <= a <= ma,
            -mb <= b <= mb,
    ;
}

/// Rounds toward zero when dividing by a positive divisor.
pub fn tdiv_exec(a: i128, d: i128) -> (r: i128)
    requires
        d > 0,
        a > i128::MIN,
    ensures
        r == tdiv(a as int, d as int),
{
    if a >= 0 {
        a / d
    } else {
        -((-a) / d)
    }
}

/// The integer square root of `n`.
pub fn isqrt(n: u128) -> (r: u128)
    ensures
        r == isqrt_spec(n as nat),
        is_root(n as int, r as int),
        r < 18446744073709551616,
{
    let mut lo: u128 = 0;
    let mut hi: u128 = 18446744073709551616;
    assert(n < hi * hi);
    while hi - lo > 1
        invariant
            lo < hi <= 18446744073709551616,
            lo * lo <= n < hi * hi,
        decreases hi - lo,
    {
        let mid: u128 = lo + (hi - lo) / 2;
        assert(mid * mid < 0x1_0000_0000_0000_0000_0000_0000_0000_0000) by (nonlinear_arith)
            requires
                mid < 18446744073709551616,
        ;
        if mid * mid <= n {
            lo = mid;
        } else {
            hi = mid;
        }
    }
    assert(hi == lo + 1);
    proof {
        lemma_isqrt_unique(n as nat, lo as nat);
    }
    lo
}

} // verus!
