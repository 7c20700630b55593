//! Fixed-point arithmetic shared by the simulation.
//!
//! Every length, speed and coordinate is an integer count of `1 / UNIT`
//! pixels. State values are kept within `[-LIMIT, LIMIT]`, which leaves room
//! for differences and products of two values in 128-bit arithmetic.
use vstd::arithmetic::div_mod::{
    lemma_div_multiples_vanish, lemma_fundamental_div_mod, lemma_mod_bound,
};
use vstd::prelude::*;

verus! {

/// Number of fixed-point steps in one pixel; a unit direction has this length.
pub const UNIT: i64 = 65536;

/// Largest magnitude that a position, velocity or direction component takes.
pub const LIMIT: i64 = 4611686018427387904;

pub open spec fn in_range(v: int) -> bool {
    -LIMIT <= v <= LIMIT
}

/// `v` clamped into `[-LIMIT, LIMIT]`.
pub open spec fn saturate(v: int) -> int {
    if v < -LIMIT {
        -LIMIT as int
    } else if v > LIMIT {
        LIMIT as int
    } else {
        v
    }
}

pub open spec fn abs(v: int) -> int {
    if v >= 0 {
        v
    } else {
        -v
    }
}

/// Quotient of `n` by `d`, rounded toward zero (as integer division in Rust).
pub open spec fn div_trunc(n: int, d: int) -> int {
    if (n >= 0) == (d > 0) {
        abs(n) / abs(d)
    } else {
        -(abs(n) / abs(d))
    }
}

/// The fixed-point product of `a` and `s`: `a * s / UNIT`, rounded toward zero.
pub open spec fn scale(a: int, s: int) -> int {
    div_trunc(a * s, UNIT as int)
}

/// The largest `r` with `r * r <= n`.
pub open spec fn floor_sqrt(n: nat) -> nat
    decreases n,
{
    if n == 0 {
        0
    } else {
        let r = floor_sqrt((n - 1) as nat);
        if (r + 1) * (r + 1) <= n {
            (r + 1) as nat
        } else {
            r
        }
    }
}

pub proof fn lemma_floor_sqrt_bounds(n: nat)
    ensures
        floor_sqrt(n) * floor_sqrt(n) <= n,
        n < (floor_sqrt(n) + 1) * (floor_sqrt(n) + 1),
    decreases n,
{
    if n > 0 {
        lemma_floor_sqrt_bounds((n - 1) as nat);
        let r = floor_sqrt((n - 1) as nat);
        if (r + 1) * (r + 1) <= n {
            let s = r + 1;
            assert(floor_sqrt(n) == s);
            assert(n < (s + 1) * (s + 1)) by (nonlinear_arith)
                requires
                    s * s == n,
                    s >= 1,
            ;
        } else {
            assert(floor_sqrt(n) == r);
        }
    } else {
        assert(floor_sqrt(0) == 0);
        assert(0 < (0 + 1) * (0 + 1)) by (nonlinear_arith);
    }
}

/// Any `r` that brackets `n` between `r * r` and `(r + 1) * (r + 1)` is its
/// floor square root.
pub proof fn lemma_floor_sqrt_unique(n: nat, r: nat)
    requires
        r * r <= n,
        n < (r + 1) * (r + 1),
    ensures
        floor_sqrt(n) == r,
{
    lemma_floor_sqrt_bounds(n);
    let s = floor_sqrt(n);
    if s < r {
        assert((s + 1) * (s + 1) <= r * r) by (nonlinear_arith)
            requires
                s < r,
        ;
    } else if s > r {
        assert((r + 1) * (r + 1) <= s * s) by (nonlinear_arith)
            requires
                s > r,
        ;
    }
}

/// The smallest `r` with `n <= r * r`.
pub open spec fn ceil_sqrt(n: nat) -> nat {
    let r = floor_sqrt(n);
    if r * r == n {
        r
    } else {
        (r + 1) as nat
    }
}

pub proof fn lemma_ceil_sqrt_bounds(n: nat)
    ensures
        n <= ceil_sqrt(n) * ceil_sqrt(n),
        n > 0 ==> (ceil_sqrt(n) - 1) * (ceil_sqrt(n) - 1) < n,
{
    lemma_floor_sqrt_bounds(n);
    let r = floor_sqrt(n);
    if r * r != n {
        assert((r + 1 - 1) * (r + 1 - 1) == r * r);
    } else if n > 0 {
        assert(r > 0) by (nonlinear_arith)
            requires
                r * r == n,
                n > 0,
        ;
        assert((r - 1) * (r - 1) < r * r) by (nonlinear_arith)
            requires
                r > 0,
        ;
    }
}

/// Integer square root, rounded down.
pub fn isqrt(n: u128) -> (r: u128)
    ensures
        r == floor_sqrt(n as nat),
        r < 0x1_0000_0000_0000_0000,
{
    let mut lo: u128 = 0;
    let mut hi: u128 = 0x1_0000_0000_0000_0000;
    assert(n < hi * hi) by (nonlinear_arith)
        requires
            hi == 0x1_0000_0000_0000_0000u128,
            n <= u128::MAX,
    ;
    while hi - lo > 1
        invariant
            lo < hi <= 0x1_0000_0000_0000_0000u128,
            lo * lo <= n,
            n < hi * hi,
        decreases hi - lo,
    {
        let mid: u128 = lo + (hi - lo) / 2;
        assert(mid * mid < 0x1_0000_0000_0000_0000_0000_0000_0000_0000) by (nonlinear_arith)
            requires
                mid < 0x1_0000_0000_0000_0000u128,
        ;
        if mid * mid <= n {
            lo = mid;
        } else {
            hi = mid;
        }
    }
    assert(hi == lo + 1);
    proof {
        lemma_floor_sqrt_unique(n as nat, lo as nat);
    }
    lo
}

/// `v` clamped into `[-LIMIT, LIMIT]`.
pub fn saturate_wide(v: i128) -> (r: i64)
    ensures
        r == saturate(v as int),
{
    if v < -(LIMIT as i128) {
        -LIMIT
    } else if v > LIMIT as i128 {
        LIMIT
    } else {
        v as i64
    }
}

/// `n / d` rounded toward zero, for a positive divisor.
pub fn div_trunc_wide(n: i128, d: u128) -> (r: i128)
    requires
        n > i128::MIN,
        0 < d,
    ensures
        r == div_trunc(n as int, d as int),
{
    if n >= 0 {
        ((n as u128) / d) as i128
    } else {
        -((((-n) as u128) / d) as i128)
    }
}

/// The fixed-point product `a * s / UNIT`, rounded toward zero.
pub fn scale_wide(a: i64, s: i64) -> (r: i128)
    ensures
        r == scale(a as int, s as int),
        abs(r as int) <= 0x4000_0000_0000_0000_0000_0000_0000_0000,
{
    assert(abs(a * s) <= 0x4000_0000_0000_0000_0000_0000_0000_0000) by (nonlinear_arith)
        requires
            i64::MIN <= a <= i64::MAX,
            i64::MIN <= s <= i64::MAX,
    ;
    let p: i128 = (a as i128) * (s as i128);
    proof {
        lemma_div_trunc_shrinks(p as int, UNIT as int);
    }
    div_trunc_wide(p, UNIT as u128)
}

/// Truncating division loses less than one divisor:
/// `div_trunc(n, d) * d` is within `|d|` of `n`.
pub proof fn lemma_div_trunc_remainder(n: int, d: int)
    requires
        d != 0,
    ensures
        abs(div_trunc(n, d) * d - n) < abs(d),
{
    let q = abs(n) / abs(d);
    let r = abs(n) % abs(d);
    lemma_fundamental_div_mod(abs(n), abs(d));
    lemma_mod_bound(abs(n), abs(d));
    assert(abs(div_trunc(n, d) * d - n) == r) by (nonlinear_arith)
        requires
            abs(n) == abs(d) * q + r,
            div_trunc(n, d) == (if (n >= 0) == (d > 0) { q } else { -q }),
            abs(n) == (if n >= 0 { n } else { -n }),
            abs(d) == (if d >= 0 { d } else { -d }),
            d != 0,
            r >= 0,
    ;
}

/// Dividing an exact multiple gives back the other factor.
pub proof fn lemma_div_trunc_exact(m: int, d: int)
    requires
        d != 0,
    ensures
        div_trunc(d * m, d) == m,
{
    assert(abs(d * m) == abs(d) * abs(m)) by (nonlinear_arith)
        requires
            abs(m) == (if m >= 0 { m } else { -m }),
            abs(d) == (if d >= 0 { d } else { -d }),
            abs(d * m) == (if d * m >= 0 { d * m } else { -(d * m) }),
    ;
    lemma_div_multiples_vanish(abs(m), abs(d));
    assert(m > 0 ==> ((d * m >= 0) == (d > 0))) by (nonlinear_arith)
        requires
            d != 0,
    ;
    assert(m < 0 ==> ((d * m >= 0) != (d > 0))) by (nonlinear_arith)
        requires
            d != 0,
    ;
    if m == 0 {
        assert(d * m == 0) by (nonlinear_arith)
            requires
                m == 0,
        ;
        assert(0int / abs(d) == 0);
    }
}

/// Negating the dividend negates the truncated quotient.
pub proof fn lemma_div_trunc_neg(n: int, d: int)
    requires
        d > 0,
    ensures
        div_trunc(-n, d) == -div_trunc(n, d),
{
}

/// Scaling a negated value gives the negated result.
pub proof fn lemma_scale_neg(a: int, s: int)
    ensures
        scale(-a, s) == -scale(a, s),
{
    assert((-a) * s == -(a * s)) by (nonlinear_arith);
    lemma_div_trunc_neg(a * s, UNIT as int);
}

/// Scaling by `UNIT` is the identity.
pub proof fn lemma_scale_by_unit(a: int)
    ensures
        scale(a, UNIT as int) == a,
{
    assert(abs(a * UNIT) == abs(a) * UNIT) by (nonlinear_arith)
        requires
            abs(a) == a || abs(a) == -a,
            abs(a) >= 0,
    ;
    assert(abs(a) * UNIT / (UNIT as int) == abs(a)) by (nonlinear_arith);
}

/// The midpoint of two values in range is in range.
pub proof fn lemma_midpoint_in_range(a: int, b: int)
    requires
        in_range(a),
        in_range(b),
    ensures
        in_range(div_trunc(a + b, 2)),
{
    let n = abs(a + b);
    assert(0 <= n / 2 <= LIMIT) by (nonlinear_arith)
        requires
            0 <= n <= 2 * LIMIT,
    ;
}

/// The truncated quotient by a positive divisor brackets the dividend:
/// `|q| * d <= |n| < (|q| + 1) * d`, and `q` has the sign of `n`.
pub proof fn lemma_div_trunc_bracket(n: int, d: int)
    requires
        d > 0,
    ensures
        abs(div_trunc(n, d)) * d <= abs(n) < (abs(div_trunc(n, d)) + 1) * d,
        n >= 0 ==> div_trunc(n, d) >= 0,
        n <= 0 ==> div_trunc(n, d) <= 0,
        abs(div_trunc(n, d)) == abs(n) / d,
{
    lemma_fundamental_div_mod(abs(n), d);
    lemma_mod_bound(abs(n), d);
    let q = abs(n) / d;
    assert(q >= 0) by (nonlinear_arith)
        requires
            abs(n) == d * q + abs(n) % d,
            0 <= abs(n) % d < d,
            abs(n) >= 0,
    ;
    assert(q * d <= abs(n) < (q + 1) * d) by (nonlinear_arith)
        requires
            abs(n) == d * q + abs(n) % d,
            0 <= abs(n) % d < d,
    ;
}

/// Dividing by a nonzero integer never increases the magnitude.
pub proof fn lemma_div_trunc_shrinks(n: int, d: int)
    requires
        d != 0,
    ensures
        abs(div_trunc(n, d)) <= abs(n),
{
    assert(abs(n) / abs(d) <= abs(n)) by (nonlinear_arith)
        requires
            abs(d) >= 1,
            abs(n) >= 0,
    ;
    assert(abs(n) / abs(d) >= 0) by (nonlinear_arith)
        requires
            abs(d) >= 1,
            abs(n) >= 0,
    ;
}

} // verus!
