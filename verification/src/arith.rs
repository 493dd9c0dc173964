//! Integer arithmetic shared by the geometry code.

use vstd::prelude::*;

verus! {

/// `r` is the square root of `n`, dropped to a whole number.
pub open spec fn is_root(n: nat, r: nat) -> bool {
    r * r <= n && n < (r + 1) * (r + 1)
}

/// The square root of `n`, dropped to a whole number.
pub open spec fn root(n: nat) -> nat {
    choose|r: nat| is_root(n, r)
}

/// Every number has a whole square root.
pub proof fn root_exists(n: nat)
    ensures
        is_root(n, root(n)),
    decreases n,
{
    if n == 0 {
        assert(0 * 0 == 0int && (0 + 1) * (0 + 1) == 1int) by (nonlinear_arith);
        assert(is_root(0, 0));
    } else {
        let m = (n - 1) as nat;
        root_exists(m);
        let r = root(m);
        let q = (r + 1) as nat;
        assert((q + 1) * (q + 1) == q * q + 2 * q + 1) by (nonlinear_arith);
        if n < q * q {
            assert(is_root(n, r));
        } else {
            assert(is_root(n, q));
        }
    }
}

/// A number has at most one whole square root.
pub proof fn root_is_unique(n: nat, r: nat)
    requires
        is_root(n, r),
    ensures
        r == root(n),
{
    let s = root(n);
    assert(is_root(n, s));
    if r < s {
        assert((r + 1) * (r + 1) <= s * s) by (nonlinear_arith)
            requires
                r + 1 <= s,
        ;
    }
    if s < r {
        assert((s + 1) * (s + 1) <= r * r) by (nonlinear_arith)
            requires
                s + 1 <= r,
        ;
    }
}

/// Whole square root, by bisection.
pub fn isqrt(n: u128) -> (r: u128)
    ensures
        is_root(n as nat, r as nat),
        r == root(n as nat),
        r < 0x1_0000_0000_0000_0000,
{
    let mut lo: u128 = 0;
    let mut hi: u128 = 0x1_0000_0000_0000_0000;
    assert(0x1_0000_0000_0000_0000 * 0x1_0000_0000_0000_0000 > u128::MAX);
    while hi - lo > 1
        invariant
            lo < hi <= 0x1_0000_0000_0000_0000,
            lo * lo <= n,
            n < hi * hi,
        decreases hi - lo,
    {
        let mid: u128 = lo + (hi - lo) / 2;
        assert(mid * mid <= u128::MAX) by (nonlinear_arith)
            requires
                mid <= 0xffff_ffff_ffff_ffff,
        ;
        if mid * mid <= n {
            lo = mid;
        } else {
            hi = mid;
        }
    }
    assert(hi == lo + 1);
    proof {
        root_is_unique(n as nat, lo as nat);
    }
    lo
}

/// The larger of two `i64` values.
pub fn max_i64(a: i64, b: i64) -> (r: i64)
    ensures
        r == crate::units::max(a as int, b as int),
{
    if a <= b {
        b
    } else {
        a
    }
}

/// The smaller of two `i64` values.
pub fn min_i64(a: i64, b: i64) -> (r: i64)
    ensures
        r == crate::units::min(a as int, b as int),
{
    if a <= b {
        a
    } else {
        b
    }
}

/// The magnitude of an `i64`, wide enough for every value.
pub fn abs_i64(a: i64) -> (r: i128)
    ensures
        r == crate::units::abs(a as int),
{
    if a < 0 {
        -(a as i128)
    } else {
        a as i128
    }
}

/// The quotient of two numbers as a whole number, rounded up or down.
pub open spec fn share(n: int, d: int, up: bool) -> int {
    if up && n % d != 0 {
        n / d + 1
    } else {
        n / d
    }
}

/// Rounding keeps comparisons with whole numbers: a quotient is below a
/// number exactly if it is when rounded down, and at most the number exactly
/// if it is when rounded up.
pub proof fn rounding_is_exact(n: int, d: int, x: int)
    requires
        0 < d,
    ensures
        share(n, d, false) < x <==> n < x * d,
        share(n, d, true) <= x <==> n <= x * d,
{
    let q = n / d;
    let r = n % d;
    vstd::arithmetic::div_mod::lemma_fundamental_div_mod(n, d);
    vstd::arithmetic::div_mod::lemma_mod_bound(n, d);
    assert(q < x ==> (q + 1) * d <= x * d) by (nonlinear_arith)
        requires
            0 < d,
    ;
    assert(x <= q ==> x * d <= q * d) by (nonlinear_arith)
        requires
            0 < d,
    ;
    assert(q <= x ==> q * d <= x * d) by (nonlinear_arith)
        requires
            0 < d,
    ;
    assert(x < q ==> (x + 1) * d <= q * d) by (nonlinear_arith)
        requires
            0 < d,
    ;
    assert((q + 1) * d == q * d + d && (x + 1) * d == x * d + d && d * q == q * d)
        by (nonlinear_arith);
}

/// What quotient and remainder say of each other.
proof fn share_of(n: int, d: int, q: int, r: int)
    requires
        0 <= r < d,
        n == q * d + r,
    ensures
        share(n, d, false) == q,
        share(n, d, true) == if r > 0 {
            q + 1
        } else {
            q
        },
{
    assert(n == d * q + r) by (nonlinear_arith)
        requires
            n == q * d + r,
    ;
    vstd::arithmetic::div_mod::lemma_fundamental_div_mod_converse(n, d, q, r);
}

/// Quotient and remainder of a product that may be too large for a machine
/// word, by doubling.
fn divide_product(x: u128, y: u128, d: u128) -> (r: (u128, u128))
    requires
        y < d <= 0x8000_0000_0000_0000_0000_0000_0000_0000,
    ensures
        x * y == r.0 * d + r.1,
        r.1 < d,
        r.0 <= x,
    decreases x,
{
    if x == 0 {
        assert(0 * y == 0 && 0 * d == 0) by (nonlinear_arith);
        return (0, 0);
    }
    let (q0, r0) = divide_product(x / 2, y, d);
    let ghost h = (x / 2) as int;
    let mut q: u128 = 2 * q0;
    let mut r: u128 = 2 * r0;
    proof {
        assert((2 * h) * y == (2 * q0) * d + 2 * r0) by (nonlinear_arith)
            requires
                h * y == q0 * d + r0,
        ;
    }
    if r >= d {
        proof {
            assert((2 * q0 + 1) * d == (2 * q0) * d + d) by (nonlinear_arith);
            small_quotient(2 * h, y as int, d as int, 2 * q0 + 1, r - d);
        }
        q = q + 1;
        r = r - d;
    }
    let ghost q1 = q as int;
    assert((2 * h) * y == q1 * d + r);
    if x % 2 == 1 {
        proof {
            assert((2 * h + 1) * y == (2 * h) * y + y) by (nonlinear_arith);
            assert((q1 + 1) * d == q1 * d + d) by (nonlinear_arith);
        }
        r = r + y;
        if r >= d {
            proof {
                small_quotient(2 * h + 1, y as int, d as int, q1 + 1, r - d);
            }
            q = q + 1;
            r = r - d;
        }
    }
    proof {
        small_quotient(x as int, y as int, d as int, q as int, r as int);
    }
    (q, r)
}

proof fn small_quotient(x: int, y: int, d: int, q: int, r: int)
    requires
        0 <= x,
        0 <= y < d,
        0 <= r,
        x * y == q * d + r,
    ensures
        q <= x,
{
    if q > x {
        assert(q * d > x * y || x * y < q * d) by (nonlinear_arith)
            requires
                q > x,
                0 <= x,
                0 <= y < d,
        ;
    }
}

/// `k` times the square of `c` over `d`, rounded up or down. The product
/// itself need not fit.
pub fn square_over(k: i64, c: i128, d: i128, up: bool) -> (r: i128)
    requires
        1 <= k,
        0 < d,
        -i128::MAX <= k * c <= i128::MAX,
        k * (c * c) <= d * i128::MAX,
    ensures
        r == share(k * (c * c), d as int, up),
        0 <= r,
{
    let ghost n = k * (c * c);
    assert(-i128::MAX <= c) by (nonlinear_arith)
        requires
            1 <= k,
            -i128::MAX <= k * c,
    ;
    let u: u128 = if c < 0 {
        (-c) as u128
    } else {
        c as u128
    };
    proof {
        assert(u * u == c * c) by (nonlinear_arith)
            requires
                u == c || u == -c,
        ;
        assert(k * u == k * c || k * u == -(k * c)) by (nonlinear_arith)
            requires
                u == c || u == -c,
        ;
        assert(u <= k * u) by (nonlinear_arith)
            requires
                1 <= k,
                0 <= u,
        ;
    }
    let e: u128 = d as u128;
    let x: u128 = k as u128 * u;
    let whole: u128 = u / e;
    let part: u128 = u % e;
    let (q, r) = divide_product(x, part, e);
    proof {
        vstd::arithmetic::div_mod::lemma_fundamental_div_mod(u as int, e as int);
        assert(x * u == n) by (nonlinear_arith)
            requires
                x == k * u,
                u * u == c * c,
                n == k * (c * c),
        ;
        assert(x * u == (x * whole) * e + x * part) by (nonlinear_arith)
            requires
                u == e * whole + part,
        ;
        assert((x * whole + q) * e == (x * whole) * e + q * e) by (nonlinear_arith);
        assert(n == (x * whole + q) * e + r);
        share_of(n, e as int, x * whole + q, r as int);
        assert(x * whole >= 0) by (nonlinear_arith)
            requires
                0 <= x,
                0 <= whole,
        ;
        rounding_is_exact(n, d as int, i128::MAX as int);
        assert(i128::MAX * d == d * i128::MAX) by (nonlinear_arith);
        assert(share(n, d as int, true) <= i128::MAX);
    }
    let f: u128 = x * whole + q;
    if up && r > 0 {
        (f + 1) as i128
    } else {
        f as i128
    }
}

} // verus!
