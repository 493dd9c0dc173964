//! Numbers with 53 binary digits.
//!
//! A length in millimetres is held with 53 significant binary digits, as the
//! machine's usual fractions are, before it is printed with a few decimals.
//! So half a printed digit goes up or down with what the 53 digits hold, and
//! to the even digit where they hold the half exactly.

use vstd::prelude::*;

use crate::rotation::COORD_MAX;
use crate::units;

verus! {

/// Two to the power 53.
pub const DIGITS: u128 = 0x20_0000_0000_0000;

/// `n / d` to the nearest whole number, a half to the even one.
pub open spec fn nearest(n: nat, d: nat) -> nat {
    let q = n / d;
    let r = n % d;
    if 2 * r < d || (2 * r == d && q % 2 == 0) {
        q
    } else {
        q + 1
    }
}

/// The power of two by which whole numbers of the size of `x` are apart; one
/// below 2^53.
pub open spec fn grain(x: nat) -> nat
    decreases x,
{
    if x < DIGITS {
        1
    } else {
        2 * grain(x / 2)
    }
}

/// The largest power of two that leaves `n / d` below 2^53 when multiplied
/// by it, for an `n / d` that is below and not zero.
pub open spec fn fineness(n: nat, d: nat) -> nat
    decreases d * DIGITS - n,
{
    if n == 0 || 2 * n >= d * DIGITS {
        1
    } else {
        2 * fineness(2 * n, d)
    }
}

/// `n / d` with 53 binary digits, as a numerator and a power of two.
pub open spec fn held(n: nat, d: nat) -> (nat, nat) {
    if n < d * DIGITS {
        let s = fineness(n, d);
        (nearest(n * s, d), s)
    } else {
        let u = grain(n / d);
        (nearest(n, d * u) * u, 1)
    }
}

/// The whole number `n` with 53 binary digits.
pub open spec fn whole(n: nat) -> nat {
    nearest(n, grain(n)) * grain(n)
}

/// The millionths `n` in units, with 53 binary digits.
pub open spec fn units_of(n: nat) -> (nat, nat) {
    held(whole(n), 1_000_000)
}

/// A signed count of millionths in units, with 53 binary digits.
pub open spec fn signed_units(n: int) -> (int, nat) {
    let h = units_of(units::abs(n) as nat);
    if n < 0 {
        (-h.0, h.1)
    } else {
        (h.0 as int, h.1)
    }
}

/// The difference of two such numbers, with 53 binary digits.
pub open spec fn minus(a: (int, nat), b: (int, nat)) -> (int, nat) {
    let s = units::max(a.1 as int, b.1 as int);
    let n = a.0 * (s / a.1 as int) - b.0 * (s / b.1 as int);
    let h = held(units::abs(n) as nat, s as nat);
    if n < 0 {
        (-h.0, h.1)
    } else {
        (h.0 as int, h.1)
    }
}

/// The bounds that the arithmetic is made for.
pub open spec fn tractable(n: int, d: int) -> bool {
    &&& 0 < d <= 0x200_0000_0000_0000_0000
    &&& 0 <= n <= 0x1fff_ffff_ffff_ffff_ffff_ffff_ffff_ffff
    &&& n <= d * 0x100_0000_0000_0000_0000_0000_0000
}

/// `n / d` to the nearest whole number, a half to the even one.
pub fn round_even(n: u128, d: u128) -> (r: u128)
    requires
        0 < d <= 0x8000_0000_0000_0000_0000_0000_0000_0000,
        n <= 0x7fff_ffff_ffff_ffff_ffff_ffff_ffff_ffff,
    ensures
        r == nearest(n as nat, d as nat),
        r <= n / d + 1,
{
    let q: u128 = n / d;
    let r: u128 = n % d;
    assert(q <= n) by (nonlinear_arith)
        requires
            q == n / d,
            d > 0,
    ;
    if 2 * r < d || (2 * r == d && q % 2 == 0) {
        q
    } else {
        q + 1
    }
}

fn grain_of(x: u128) -> (r: u128)
    ensures
        r == grain(x as nat),
        r >= 1,
        r == 1 || r * 0x10_0000_0000_0000 <= x,
    decreases x,
{
    if x < DIGITS {
        1
    } else {
        let r: u128 = grain_of(x / 2);
        2 * r
    }
}

fn fineness_of(n: u128, d: u128) -> (r: u128)
    requires
        0 < d <= 0x200_0000_0000_0000_0000,
        n < d * DIGITS,
    ensures
        r == fineness(n as nat, d as nat),
        1 <= r,
        n > 0 ==> n * r < d * DIGITS,
        n == 0 ==> r == 1,
    decreases d * DIGITS - n,
{
    if n == 0 || 2 * n >= d * DIGITS {
        proof {
            assert(n * 1 == n) by (nonlinear_arith);
        }
        1
    } else {
        let r: u128 = fineness_of(2 * n, d);
        proof {
            assert((2 * n) * r == n * (2 * r)) by (nonlinear_arith);
            let k = 2 * r;
            assert(k <= n * k) by (nonlinear_arith)
                requires
                    n >= 1,
                    k >= 0,
            ;
        }
        2 * r
    }
}

/// A numerator and a power of two.
#[derive(Clone, Copy)]
pub struct Held {
    pub m: u128,
    pub s: u128,
}

impl Held {
    /// The pair by value.
    pub open spec fn pair(self) -> (nat, nat) {
        (self.m as nat, self.s as nat)
    }

    /// Bounds on the parts.
    pub open spec fn small(self) -> bool {
        &&& 1 <= self.s <= 0x4000_0000_0000_0000_0000_0000_0000_0000
        &&& self.m <= 0x200_0000_0000_0000_0000_0000_0000
    }
}

proof fn below(n: int, d: int, k: int)
    requires
        0 < d,
        0 <= n < d * k,
    ensures
        0 <= n / d < k,
{
    assert(0 <= n / d < k) by (nonlinear_arith)
        requires
            0 < d,
            0 <= n < d * k,
    ;
}

/// `n / d` with 53 binary digits.
pub fn hold(n: u128, d: u128) -> (r: Held)
    requires
        tractable(n as int, d as int),
    ensures
        r.pair() == held(n as nat, d as nat),
        r.small(),
        n < d * DIGITS && n > 0 ==> n * r.s < d * DIGITS,
        n < d * DIGITS && n > 0 ==> r.m <= (n * r.s) / (d as int) + 1,
        n == 0 ==> r.s == 1 && r.m == 0,
{
    if n < d * DIGITS {
        let s: u128 = fineness_of(n, d);
        proof {
            if n == 0 {
                assert(n * s == 0) by (nonlinear_arith)
                    requires
                        n == 0,
                ;
                assert(0int / (d as int) == 0) by (nonlinear_arith)
                    requires
                        d > 0,
                ;
            } else {
                assert(s <= n * s) by (nonlinear_arith)
                    requires
                        n >= 1,
                        s >= 0,
                ;
                below(n * s, d as int, DIGITS as int);
            }
        }
        Held { m: round_even(n * s, d), s }
    } else {
        let x: u128 = n / d;
        let u: u128 = grain_of(x);
        proof {
            let k: int = 0x100_0000_0000_0000_0000_0000_0000;
            assert(x <= k) by (nonlinear_arith)
                requires
                    x == n / d,
                    n <= d * k,
                    d > 0,
            ;
            assert(d * x <= n) by (nonlinear_arith)
                requires
                    x == n / d,
                    d > 0,
            ;
            assert(d * u <= 0x4000_0000_0000_0000_0000_0000_0000_0000) by {
                if u == 1 {
                    assert(d * 1 == d) by (nonlinear_arith);
                } else {
                    assert(d * u <= n) by (nonlinear_arith)
                        requires
                            u * 0x10_0000_0000_0000 <= x,
                            d * x <= n,
                            d > 0,
                            u >= 1,
                    ;
                }
            }
            assert(d * u > 0) by (nonlinear_arith)
                requires
                    d > 0,
                    u > 0,
            ;
            let a = (n as int) / (d * u);
            assert(a * u <= x) by (nonlinear_arith)
                requires
                    a == (n as int) / (d * u),
                    x == (n as int) / (d as int),
                    d > 0,
                    u > 0,
            {
                assert(a * (d * u) <= n);
                assert((a * u) * d <= n);
            }
            assert(u <= k);
        }
        let a: u128 = round_even(n, d * u);
        proof {
            let most = (n as int) / (d * u) + 1;
            assert(a * u <= ((n as int) / (d * u)) * u + u) by (nonlinear_arith)
                requires
                    a <= most,
                    most == (n as int) / (d * u) + 1,
                    u > 0,
            ;
        }
        Held { m: a * u, s: 1 }
    }
}

/// The whole number `n` with 53 binary digits.
fn whole_of(n: u128) -> (r: u128)
    requires
        n <= 0x80_0000_0000_0000_0000_0000_0000,
    ensures
        r == whole(n as nat),
        r <= 0x100_0000_0000_0000_0000_0000_0000,
        n < DIGITS ==> r == n,
{
    let u: u128 = grain_of(n);
    let a: u128 = round_even(n, u);
    proof {
        let most = (n as int) / (u as int) + 1;
        assert(a * u <= n + u) by (nonlinear_arith)
            requires
                a <= most,
                most == (n as int) / (u as int) + 1,
                u > 0,
        ;
        if n < DIGITS {
            assert((n as int) / 1 == n && (n as int) % 1 == 0);
            assert(a * 1 == a) by (nonlinear_arith);
        }
    }
    a * u
}

/// The millionths `n` in units, with 53 binary digits.
pub fn in_units(n: u128) -> (r: Held)
    requires
        n <= 0x80_0000_0000_0000_0000_0000_0000,
    ensures
        r.pair() == units_of(n as nat),
        r.small(),
        n < DIGITS && n > 0 ==> n * r.s < 1_000_000 * DIGITS,
        n < DIGITS && n > 0 ==> r.m <= (n * r.s) / 1_000_000 + 1,
        n == 0 ==> r.s == 1 && r.m == 0,
{
    hold(whole_of(n), 1_000_000)
}

/// The part of a number over a common power of two.
fn widened(h: Held, mag: u128, s: u128) -> (r: u128)
    requires
        mag <= COORD_MAX,
        mag == 0 ==> h.m == 0,
        mag > 0 ==> h.m <= (mag * h.s) / 1_000_000 + 1,
        1 <= h.s <= s <= 0x200_0000_0000_0000_0000,
        h.small(),
    ensures
        r == h.m * (s as int / h.s as int),
        r <= 0x8000 * s,
{
    let k: u128 = s / h.s;
    proof {
        let m = h.m as int;
        let hs = h.s as int;
        assert(m <= 0x8000 * hs) by {
            if mag > 0 {
                assert(mag * hs <= 0x4_0000_0000 * hs) by (nonlinear_arith)
                    requires
                        mag <= 0x4_0000_0000,
                        hs >= 0,
                ;
            }
        }
        assert(k * hs <= s) by (nonlinear_arith)
            requires
                k == s as int / hs,
                hs > 0,
        ;
        assert(m * k <= 0x8000 * s) by (nonlinear_arith)
            requires
                0 <= m <= 0x8000 * hs,
                k * hs <= s,
                k >= 0,
        ;
    }
    h.m * k
}

proof fn fine_bound(n: int, s: int)
    requires
        0 < n,
        n * s < 1_000_000 * DIGITS,
    ensures
        s <= 0x200_0000_0000_0000_0000,
{
    if s > 0 {
        assert(s <= n * s) by (nonlinear_arith)
            requires
                n >= 1,
                s >= 0,
        ;
    }
}

/// The difference of two counts of millionths, in units: sign and
/// magnitude.
pub fn difference(a: i64, b: i64) -> (r: (bool, Held))
    requires
        -COORD_MAX <= a <= COORD_MAX,
        -COORD_MAX <= b <= COORD_MAX,
    ensures
        ({
            let d = minus(signed_units(a as int), signed_units(b as int));
            &&& r.0 == (d.0 < 0)
            &&& r.1.pair() == (units::abs(d.0) as nat, d.1)
        }),
        r.1.small(),
{
    let ma: u128 = if a < 0 {
        (-a) as u128
    } else {
        a as u128
    };
    let mb: u128 = if b < 0 {
        (-b) as u128
    } else {
        b as u128
    };
    let ha = in_units(ma);
    let hb = in_units(mb);
    proof {
        if ma > 0 {
            fine_bound(ma as int, ha.s as int);
        }
        if mb > 0 {
            fine_bound(mb as int, hb.s as int);
        }
    }
    let s: u128 = if ha.s > hb.s {
        ha.s
    } else {
        hb.s
    };
    let wa: i128 = widened(ha, ma, s) as i128;
    let wb: i128 = widened(hb, mb, s) as i128;
    let na: i128 = if a < 0 {
        -wa
    } else {
        wa
    };
    let nb: i128 = if b < 0 {
        -wb
    } else {
        wb
    };
    proof {
        let ka = s as int / ha.s as int;
        let kb = s as int / hb.s as int;
        assert((-(ha.m as int)) * ka == -(ha.m * ka)) by (nonlinear_arith);
        assert((-(hb.m as int)) * kb == -(hb.m * kb)) by (nonlinear_arith);
    }
    let n: i128 = na - nb;
    let mag: u128 = if n < 0 {
        (-n) as u128
    } else {
        n as u128
    };
    let h = hold(mag, s);
    proof {
        if n < 0 {
            held_is_positive(mag as nat, s as nat);
        }
    }
    (n < 0, h)
}

proof fn nearest_is(n: nat, d: nat, q: nat)
    requires
        d > 0,
        -(d as int) < 2 * (n - q * d) < d,
    ensures
        nearest(n, d) == q,
{
    let e = n - q * d;
    if e >= 0 {
        assert(n / d == q && n % d == e) by (nonlinear_arith)
            requires
                n == q * d + e,
                0 <= e < d,
        ;
    } else {
        assert(q >= 1) by (nonlinear_arith)
            requires
                n == q * d + e,
                e < 0,
                n >= 0,
                d > 0,
                q >= 0,
        ;
        assert((q - 1) * d == q * d - d) by (nonlinear_arith);
        assert(n / d == q - 1 && n % d == e + d) by (nonlinear_arith)
            requires
                n == (q - 1) * d + (e + d),
                0 <= e + d < d,
        ;
    }
}

proof fn nearest_error(n: nat, d: nat)
    requires
        d > 0,
    ensures
        -(d as int) <= 2 * (nearest(n, d) * d - n) <= d,
{
    let q = n / d;
    let r = n % d;
    assert(n == q * d + r) by (nonlinear_arith)
        requires
            q == n / d,
            r == n % d,
            d > 0,
    ;
    assert((q + 1) * d == q * d + d) by (nonlinear_arith);
}

proof fn nearest_of_the_same(a: nat, b: nat, c: nat, d: nat)
    requires
        b > 0,
        d > 0,
        a * d == c * b,
    ensures
        nearest(a, b) == nearest(c, d),
{
    let q = (a / b) as int;
    let r = (a % b) as int;
    let t = c - q * d;
    assert(a == q * b + r) by (nonlinear_arith)
        requires
            q == a / b,
            r == a % b,
            b > 0,
    ;
    assert(t * b == r * d) by (nonlinear_arith)
        requires
            a == q * b + r,
            a * d == c * b,
            t == c - q * d,
    ;
    assert(0 <= t < d) by (nonlinear_arith)
        requires
            t * b == r * d,
            0 <= r < b,
            d > 0,
            b > 0,
    ;
    assert(c / d == q && c % d == t) by (nonlinear_arith)
        requires
            c == q * d + t,
            0 <= t < d,
    ;
    assert((2 * r < b <==> 2 * t < d) && (2 * r == b <==> 2 * t == d)) by (nonlinear_arith)
        requires
            t * b == r * d,
            b > 0,
            d > 0,
    ;
}

/// Numerator and denominator can be multiplied by one number.
pub proof fn nearest_scaled(n: nat, d: nat, k: nat)
    requires
        d > 0,
        k > 0,
    ensures
        nearest(n * k, d * k) == nearest(n, d),
{
    assert(d * k > 0) by (nonlinear_arith)
        requires
            d > 0,
            k > 0,
    ;
    assert((n * k) * d == n * (d * k)) by (nonlinear_arith);
    nearest_of_the_same(n * k, d * k, n, d);
}

proof fn fineness_range(n: nat, d: nat)
    requires
        0 < n < d * DIGITS,
    ensures
        n * fineness(n, d) < d * DIGITS,
        2 * (n * fineness(n, d)) >= d * DIGITS,
        fineness(n, d) >= 1,
    decreases d * DIGITS - n,
{
    if 2 * n >= d * DIGITS {
        assert(n * 1 == n) by (nonlinear_arith);
    } else {
        fineness_range(2 * n, d);
        let s = fineness(2 * n, d);
        assert((2 * n) * s == n * (2 * s)) by (nonlinear_arith);
    }
}

proof fn held_is_positive(n: nat, d: nat)
    requires
        0 < n,
        0 < d,
    ensures
        held(n, d).0 > 0,
{
    if n < d * DIGITS {
        fineness_range(n, d);
        let s = fineness(n, d);
        nearest_error(n * s, d);
        let m = nearest(n * s, d);
        assert(m > 0) by (nonlinear_arith)
            requires
                2 * (m * d - n * s) >= -(d as int),
                2 * (n * s) >= d * 0x20_0000_0000_0000,
                d > 0,
        ;
    } else {
        let x = n / d;
        let u = grain(x);
        grain_range(x);
        assert(x >= DIGITS) by (nonlinear_arith)
            requires
                n >= d * DIGITS,
                x == n / d,
                d > 0,
        ;
        assert(d * x <= n) by (nonlinear_arith)
            requires
                x == n / d,
                d > 0,
        ;
        assert(0 < d * u <= n) by (nonlinear_arith)
            requires
                u <= x,
                d * x <= n,
                d > 0,
                u >= 1,
        ;
        nearest_error(n, d * u);
        let m = nearest(n, d * u);
        assert(m > 0) by (nonlinear_arith)
            requires
                2 * (m * (d * u) - n) >= -((d * u) as int),
                n >= d * u,
                d * u > 0,
        ;
        assert(m * u > 0) by (nonlinear_arith)
            requires
                m > 0,
                u > 0,
        ;
    }
}

proof fn grain_range(x: nat)
    ensures
        1 <= grain(x),
        x >= 1 ==> grain(x) <= x,
    decreases x,
{
    if x >= DIGITS {
        grain_range(x / 2);
    }
}

/// What is printed of a count of millionths with so many decimals is the
/// nearest number of that many decimals, and a half that 53 binary digits
/// hold exactly goes to the even digit: `unit` millionths make one in the
/// last place, `scale` of those one.
pub proof fn print_is_nearest(n: nat, unit: nat, scale: nat)
    requires
        n < 0x10_0000_0000_0000,
        unit * scale == 1_000_000,
        unit == 1 || unit % 2 == 0,
        2 * (n % unit) != unit || n % 15_625 == 0,
    ensures
        nearest(units_of(n).0 * scale, units_of(n).1) == nearest(n, unit),
{
    assert(unit > 0 && scale > 0) by (nonlinear_arith)
        requires
            unit * scale == 1_000_000,
    ;
    assert(grain(n) == 1);
    assert(n / 1 == n && n % 1 == 0 && n * 1 == n);
    assert(whole(n) == n);
    let d: nat = 1_000_000;
    if n == 0 {
        assert(0nat * fineness(0, d) == 0) by (nonlinear_arith);
        assert(nearest(0, d) == 0);
        assert(0nat * scale == 0) by (nonlinear_arith);
        assert(fineness(0, d) == 1);
        assert(nearest(0, 1) == 0);
        assert(0 * unit == 0) by (nonlinear_arith);
        nearest_is(0, unit, 0);
    } else {
        print_of_a_count(n, unit, scale);
    }
}

proof fn print_of_a_count(n: nat, unit: nat, scale: nat)
    requires
        0 < n < 0x10_0000_0000_0000,
        0 < unit,
        0 < scale,
        unit * scale == 1_000_000,
        unit == 1 || unit % 2 == 0,
        2 * (n % unit) != unit || n % 15_625 == 0,
        whole(n) == n,
    ensures
        nearest(units_of(n).0 * scale, units_of(n).1) == nearest(n, unit),
{
    let d: nat = 1_000_000;
    let s = fineness(n, d);
    fineness_range(n, d);
    let m = nearest(n * s, d);
    assert(units_of(n) == (m, s));
    nearest_error(n * s, d);
    if n % 15_625 == 0 {
        let j = n / 15_625;
        reveal_with_fuel(fineness, 7);
        let t = fineness(64 * n, d);
        assert(s == 64 * t);
        assert(n * s == (j * t) * d) by (nonlinear_arith)
            requires
                n == 15_625 * j,
                s == 64 * t,
                d == 1_000_000,
        ;
        assert(0 * d == 0) by (nonlinear_arith);
        nearest_is(n * s, d, j * t);
        assert((m * scale) * unit == n * s) by (nonlinear_arith)
            requires
                n * s == m * d,
                unit * scale == d,
        ;
        nearest_of_the_same(m * scale, s, n, unit);
    } else {
        let q = nearest(n, unit);
        nearest_error(n, unit);
        let r = n - q * unit;
        let e = m * d - n * s;
        assert(s > 1_000_000) by {
            assert(s > 999_999) by (nonlinear_arith)
                requires
                    2 * (n * s) >= d * 0x20_0000_0000_0000,
                    n < 0x10_0000_0000_0000,
                    d == 1_000_000,
                    s >= 0,
            ;
            reveal_with_fuel(fineness, 7);
            assert(s == 64 * fineness(64 * n, d));
            assert(s != 1_000_000) by {
                assert(s == 1_000_000 ==> fineness(64 * n, d) == 15_625);
                fineness_is_even(64 * n, d);
            }
        }
        off_the_half(n, unit, q);
        nearly(m as int, n as int, s as int, unit as int, scale as int, q as int);
        nearest_is(m * scale, s, q);
    }
}

proof fn fineness_is_even(n: nat, d: nat)
    requires
        0 < n,
    ensures
        fineness(n, d) == 1 || fineness(n, d) % 2 == 0,
{
}

/// A count that is not at a half is at least one off it.
proof fn off_the_half(n: nat, unit: nat, q: nat)
    requires
        unit > 0,
        unit == 1 || unit % 2 == 0,
        2 * (n % unit) != unit,
        q == nearest(n, unit),
    ensures
        unit == 1 ==> n == q * unit,
        unit > 1 ==> -(unit as int) + 2 <= 2 * (n - q * unit) <= unit - 2,
{
    let p = n / unit;
    let r = n % unit;
    assert(n == p * unit + r) by (nonlinear_arith)
        requires
            p == n / unit,
            r == n % unit,
            unit > 0,
    ;
    assert((p + 1) * unit == p * unit + unit) by (nonlinear_arith);
    if unit == 1 {
        assert(r == 0);
    }
}

/// The error of the binary reading does not carry the count over a half.
proof fn nearly(m: int, n: int, s: int, unit: int, scale: int, q: int)
    requires
        s > 1_000_000,
        unit > 0,
        scale > 0,
        unit * scale == 1_000_000,
        unit == 1 ==> n == q * unit,
        unit > 1 ==> -unit + 2 <= 2 * (n - q * unit) <= unit - 2,
        -1_000_000 <= 2 * (m * 1_000_000 - n * s) <= 1_000_000,
    ensures
        -s < 2 * (m * scale - q * s) < s,
{
    let r = n - q * unit;
    let e = m * 1_000_000 - n * s;
    let x = m * scale - q * s;
    assert(1_000_000 * x == r * scale * s + e * scale) by (nonlinear_arith)
        requires
            x == m * scale - q * s,
            r == n - q * unit,
            e == m * 1_000_000 - n * s,
            unit * scale == 1_000_000,
    ;
    if unit == 1 {
        assert(scale == 1_000_000) by (nonlinear_arith)
            requires
                unit * scale == 1_000_000,
                unit == 1,
        ;
        assert(0 * scale * s == 0) by (nonlinear_arith);
    } else {
        let f = r * s + e;
        assert(1_000_000 * x == f * scale) by (nonlinear_arith)
            requires
                1_000_000 * x == r * scale * s + e * scale,
                f == r * s + e,
        ;
        assert(-(unit * s) < 2 * f < unit * s) by (nonlinear_arith)
            requires
                f == r * s + e,
                -unit + 2 <= 2 * r <= unit - 2,
                -1_000_000 <= 2 * e <= 1_000_000,
                s > 1_000_000,
        ;
        assert(-(1_000_000 * s) < 2 * (f * scale) < 1_000_000 * s) by (nonlinear_arith)
            requires
                -(unit * s) < 2 * f < unit * s,
                unit * scale == 1_000_000,
                scale > 0,
        ;
    }
}

} // verus!
