//! How near two pieces of copper come: the distance of segments and
//! rectangles in terms of their points.
//!
//! A point of segment `a`-`b` is given by the share `n / e` of the way from
//! `a` to `b`. Squared distances are compared as fractions, so nothing is
//! rounded.

use vstd::prelude::*;

use crate::arith;
use crate::clip_cover;
use crate::geometry::{Point, Rect};
use crate::silk_clip;
use crate::thermal;
use crate::thermal::Gauge;
use crate::touching;
use crate::units;

verus! {

/// `n / e` is a number from zero to one.
pub open spec fn is_share(n: int, e: int) -> bool {
    0 < e && 0 <= n <= e
}

/// On one axis: the way from the point at `m / f` between `c` and `d` to that
/// at `n / e` between `a` and `b`, times `e` and `f`.
pub open spec fn way(a: int, b: int, c: int, d: int, n: int, e: int, m: int, f: int) -> int {
    (a * e + (b - a) * n) * f - (c * f + (d - c) * m) * e
}

/// The squared distance of those two points, times the square of `e * f`.
pub open spec fn way2(a: Point, b: Point, c: Point, d: Point, n: int, e: int, m: int, f: int) -> int {
    let x = way(a.x.0 as int, b.x.0 as int, c.x.0 as int, d.x.0 as int, n, e, m, f);
    let y = way(a.y.0 as int, b.y.0 as int, c.y.0 as int, d.y.0 as int, n, e, m, f);
    x * x + y * y
}

/// `k` times the squared distance of the two points is below `l`.
pub open spec fn closer_at(
    a: Point,
    b: Point,
    c: Point,
    d: Point,
    k: int,
    l: int,
    n: int,
    e: int,
    m: int,
    f: int,
) -> bool {
    is_share(n, e) && is_share(m, f) && k * way2(a, b, c, d, n, e, m, f) < l * ((e * f) * (e * f))
}

/// It is at most `l`.
pub open spec fn as_close_at(
    a: Point,
    b: Point,
    c: Point,
    d: Point,
    k: int,
    l: int,
    n: int,
    e: int,
    m: int,
    f: int,
) -> bool {
    is_share(n, e) && is_share(m, f) && k * way2(a, b, c, d, n, e, m, f) <= l * ((e * f) * (e * f))
}

/// Some point of `a`-`b` and some point of `c`-`d` have `k` times their
/// squared distance below `l`.
pub open spec fn closer(a: Point, b: Point, c: Point, d: Point, k: int, l: int) -> bool {
    exists|n: int, e: int, m: int, f: int| #[trigger] closer_at(a, b, c, d, k, l, n, e, m, f)
}

/// Some two points of the segments have it at most `l`.
pub open spec fn as_close(a: Point, b: Point, c: Point, d: Point, k: int, l: int) -> bool {
    exists|n: int, e: int, m: int, f: int| #[trigger] as_close_at(a, b, c, d, k, l, n, e, m, f)
}

/// The point `(x / f, y / f)` is in the closed rectangle.
pub open spec fn in_rect(r: Rect, x: int, y: int, f: int) -> bool {
    &&& 0 < f
    &&& r.min.x.0 * f <= x <= r.max.x.0 * f
    &&& r.min.y.0 * f <= y <= r.max.y.0 * f
}

/// The squared distance of the point at `n / e` of `a`-`b` from the point
/// `(x / f, y / f)`, times the square of `e * f`.
pub open spec fn off2(a: Point, b: Point, n: int, e: int, x: int, y: int, f: int) -> int {
    let u = (a.x.0 * e + (b.x.0 - a.x.0) * n) * f - x * e;
    let v = (a.y.0 * e + (b.y.0 - a.y.0) * n) * f - y * e;
    u * u + v * v
}

pub open spec fn closer_rect_at(
    a: Point,
    b: Point,
    r: Rect,
    k: int,
    l: int,
    n: int,
    e: int,
    x: int,
    y: int,
    f: int,
) -> bool {
    is_share(n, e) && in_rect(r, x, y, f) && k * off2(a, b, n, e, x, y, f) < l * ((e * f) * (e * f))
}

pub open spec fn as_close_rect_at(
    a: Point,
    b: Point,
    r: Rect,
    k: int,
    l: int,
    n: int,
    e: int,
    x: int,
    y: int,
    f: int,
) -> bool {
    is_share(n, e) && in_rect(r, x, y, f) && k * off2(a, b, n, e, x, y, f) <= l * ((e * f) * (e * f))
}

/// Some point of `a`-`b` and some point of the rectangle have `k` times
/// their squared distance below `l`.
pub open spec fn closer_rect(a: Point, b: Point, r: Rect, k: int, l: int) -> bool {
    exists|n: int, e: int, x: int, y: int, f: int| #[trigger]
        closer_rect_at(a, b, r, k, l, n, e, x, y, f)
}

/// Some such points have it at most `l`.
pub open spec fn as_close_rect(a: Point, b: Point, r: Rect, k: int, l: int) -> bool {
    exists|n: int, e: int, x: int, y: int, f: int| #[trigger]
        as_close_rect_at(a, b, r, k, l, n, e, x, y, f)
}

/// The exact value that a measure rounds, as a fraction.
spec fn exact(k: int, a: Point, b: Point, p: Point) -> (int, int) {
    if thermal::span2(a, b) == 0 || thermal::along(a, b, p) <= 0 {
        (k * thermal::span2(a, p), 1)
    } else if thermal::along(a, b, p) >= thermal::span2(a, b) {
        (k * thermal::span2(b, p), 1)
    } else {
        let c = thermal::cross(a, b, p);
        (k * (c * c), thermal::span2(a, b))
    }
}

proof fn span_is_positive(a: Point, b: Point)
    ensures
        thermal::span2(a, b) >= 0,
{
    let (x, y) = (b.x.0 - a.x.0, b.y.0 - a.y.0);
    assert(x * x >= 0 && y * y >= 0) by (nonlinear_arith);
}

proof fn measure_rounds(g: Gauge, a: Point, b: Point, p: Point, l: int)
    requires
        g.scale >= 1,
    ensures
        exact(g.scale as int, a, b, p).1 > 0,
        !g.up ==> (thermal::pt_measure(g, a, b, p) < l <==> exact(g.scale as int, a, b, p).0 < l
            * exact(g.scale as int, a, b, p).1),
        g.up ==> (thermal::pt_measure(g, a, b, p) <= l <==> exact(g.scale as int, a, b, p).0 <= l
            * exact(g.scale as int, a, b, p).1),
{
    let (n, d) = exact(g.scale as int, a, b, p);
    span_is_positive(a, b);
    assert(l * 1 == l) by (nonlinear_arith);
    if d != 1 || n != thermal::pt_measure(g, a, b, p) {
        if !(thermal::span2(a, b) == 0 || thermal::along(a, b, p) <= 0) && thermal::along(a, b, p)
            < thermal::span2(a, b) {
            arith::rounding_is_exact(n, d, l);
        }
    }
}

proof fn squared_difference(p: int, q: int, r: int, s: int)
    ensures
        (p * q - r * s) * (p * q - r * s) == (p * p) * (q * q) - 2 * ((p * r) * (q * s)) + (r * r) * (
        s * s),
{
    let (x, y) = (p * q, r * s);
    assert((x - y) * (x - y) == x * x - 2 * (x * y) + y * y) by (nonlinear_arith);
    assert(x * x == (p * p) * (q * q)) by (nonlinear_arith)
        requires
            x == p * q,
    ;
    assert(y * y == (r * r) * (s * s)) by (nonlinear_arith)
        requires
            y == r * s,
    ;
    assert(x * y == (p * r) * (q * s)) by (nonlinear_arith)
        requires
            x == p * q,
            y == r * s,
    ;
}

proof fn lagrange(dx: int, dy: int, wx: int, wy: int)
    ensures
        (wx * wx + wy * wy) * (dx * dx + dy * dy) == (wx * dx + wy * dy) * (wx * dx + wy * dy) + (dx
            * wy - dy * wx) * (dx * wy - dy * wx),
{
    let (p, q, r, s) = (wx * wx, wy * wy, dx * dx, dy * dy);
    assert((p + q) * (r + s) == p * r + p * s + q * r + q * s) by (nonlinear_arith);
    squared_difference(dx, wy, dy, wx);
    squared_difference(wx, dx, -wy, dy);
    assert((-wy) * dy == -(wy * dy) && (-wy) * (-wy) == q) by (nonlinear_arith)
        requires
            q == wy * wy,
    ;
    assert((wx * (-wy)) * (dx * dy) == -((wx * wy) * (dx * dy))) by (nonlinear_arith);
    assert((dx * dy) * (wy * wx) == (wx * wy) * (dx * dy)) by (nonlinear_arith);
    assert(r * q == q * r && s * p == p * s) by (nonlinear_arith);
}

/// Lagrange's identity and its like: the squared distance of `w` from the
/// point `n / e` of the way along `d`, against that of the nearest one.
proof fn nearest_part(dx: int, dy: int, wx: int, wy: int, n: int, e: int)
    requires
        is_share(n, e),
    ensures
        ({
            let u = dx * n - wx * e;
            let v = dy * n - wy * e;
            let q = u * u + v * v;
            let s = dx * dx + dy * dy;
            let t = wx * dx + wy * dy;
            let c = dx * wy - dy * wx;
            let w2 = wx * wx + wy * wy;
            let z2 = (wx - dx) * (wx - dx) + (wy - dy) * (wy - dy);
            &&& (s == 0 || t <= 0) ==> (e * e) * w2 <= q
            &&& t >= s ==> (e * e) * z2 <= q
            &&& (e * e) * (c * c) <= q * s
        }),
{
    let u = dx * n - wx * e;
    let v = dy * n - wy * e;
    let q = u * u + v * v;
    let s = dx * dx + dy * dy;
    let t = wx * dx + wy * dy;
    let c = dx * wy - dy * wx;
    let w2 = wx * wx + wy * wy;
    let z2 = (wx - dx) * (wx - dx) + (wy - dy) * (wy - dy);
    let (ee, ne, nn) = (e * e, n * e, n * n);
    squared_difference(dx, n, wx, e);
    squared_difference(dy, n, wy, e);
    assert(wx * dx == dx * wx && wy * dy == dy * wy) by (nonlinear_arith);
    let (dxx, dyy, wxx, wyy) = (dx * dx, dy * dy, wx * wx, wy * wy);
    let (tx, ty) = (wx * dx, wy * dy);
    assert((dxx + dyy) * nn == dxx * nn + dyy * nn) by (nonlinear_arith);
    assert((tx + ty) * ne == tx * ne + ty * ne) by (nonlinear_arith);
    assert((wxx + wyy) * ee == wxx * ee + wyy * ee) by (nonlinear_arith);
    assert(q == s * nn - 2 * (t * ne) + w2 * ee);
    assert(nn >= 0 && ne >= 0 && ee >= 0) by (nonlinear_arith)
        requires
            nn == n * n,
            ne == n * e,
            ee == e * e,
            n >= 0,
            e >= 0,
    ;
    assert(s >= 0 && dx * dx >= 0 && dy * dy >= 0) by (nonlinear_arith)
        requires
            s == dx * dx + dy * dy,
    ;
    assert(s * nn >= 0) by (nonlinear_arith)
        requires
            s >= 0,
            nn >= 0,
    ;
    if s == 0 {
        assert(dx == 0 && dy == 0) by (nonlinear_arith)
            requires
                dx * dx + dy * dy == 0,
        ;
        assert(t == 0) by (nonlinear_arith)
            requires
                t == wx * dx + wy * dy,
                dx == 0,
                dy == 0,
        ;
    }
    if t <= 0 {
        assert(t * ne <= 0) by (nonlinear_arith)
            requires
                t <= 0,
                ne >= 0,
        ;
        assert(ee * w2 == w2 * ee) by (nonlinear_arith);
    }
    assert(z2 == w2 - 2 * t + s) by (nonlinear_arith)
        requires
            z2 == (wx - dx) * (wx - dx) + (wy - dy) * (wy - dy),
            w2 == wx * wx + wy * wy,
            t == wx * dx + wy * dy,
            s == dx * dx + dy * dy,
    ;
    if t >= s {
        let h = e - n;
        assert(ee - ne >= 0) by (nonlinear_arith)
            requires
                ee == e * e,
                ne == n * e,
                0 <= n <= e,
        ;
        let r = ee - ne;
        assert(2 * (t * r) >= 2 * (s * r)) by (nonlinear_arith)
            requires
                t >= s,
                r >= 0,
        ;
        assert(nn - 2 * ne + ee == h * h) by (nonlinear_arith)
            requires
                nn == n * n,
                ne == n * e,
                ee == e * e,
                h == e - n,
        ;
        assert(s * (h * h) >= 0) by (nonlinear_arith)
            requires
                s >= 0,
        ;
        assert(s * (h * h) == s * nn - 2 * (s * ne) + s * ee) by (nonlinear_arith)
            requires
                nn - 2 * ne + ee == h * h,
        ;
        assert(t * r == t * ee - t * ne && s * r == s * ee - s * ne) by (nonlinear_arith)
            requires
                r == ee - ne,
        ;
        assert(ee * z2 == w2 * ee - 2 * (t * ee) + s * ee) by (nonlinear_arith)
            requires
                z2 == w2 - 2 * t + s,
        ;
    }
    lagrange(dx, dy, wx, wy);
    let z = s * n - t * e;
    squared_difference(s, n, t, e);
    let (x1, x2, x3) = (s * nn, t * ne, w2 * ee);
    assert(q * s == x1 * s - 2 * (x2 * s) + x3 * s) by (nonlinear_arith)
        requires
            q == x1 - 2 * x2 + x3,
    ;
    assert(x1 * s == (s * s) * nn) by (nonlinear_arith)
        requires
            x1 == s * nn,
    ;
    assert(x2 * s == (s * t) * ne) by (nonlinear_arith)
        requires
            x2 == t * ne,
    ;
    assert(x3 * s == (w2 * s) * ee) by (nonlinear_arith)
        requires
            x3 == w2 * ee,
    ;
    assert((w2 * s) * ee == (t * t) * ee + (c * c) * ee) by (nonlinear_arith)
        requires
            w2 * s == t * t + c * c,
    ;
    assert(z * z >= 0) by (nonlinear_arith);
    assert(ee * (c * c) == (c * c) * ee) by (nonlinear_arith);
}

/// The squared distance of `p` from the point `n / e` of the way, times the
/// square of `e`.
pub open spec fn from_point2(a: Point, b: Point, p: Point, n: int, e: int) -> int {
    let u = a.x.0 * e + (b.x.0 - a.x.0) * n - p.x.0 * e;
    let v = a.y.0 * e + (b.y.0 - a.y.0) * n - p.y.0 * e;
    u * u + v * v
}

/// No point of the segment is nearer than the exact distance.
proof fn exact_is_least(k: int, a: Point, b: Point, p: Point, n: int, e: int)
    requires
        k >= 1,
        is_share(n, e),
    ensures
        exact(k, a, b, p).0 * (e * e) <= k * from_point2(a, b, p, n, e) * exact(k, a, b, p).1,
{
    let (dx, dy) = (b.x.0 - a.x.0, b.y.0 - a.y.0);
    let (wx, wy) = (p.x.0 - a.x.0, p.y.0 - a.y.0);
    nearest_part(dx, dy, wx, wy, n, e);
    let q = from_point2(a, b, p, n, e);
    let (ax, ay, px, py) = (a.x.0 as int, a.y.0 as int, p.x.0 as int, p.y.0 as int);
    assert(ax * e + dx * n - px * e == dx * n - wx * e) by (nonlinear_arith)
        requires
            wx == px - ax,
    ;
    assert(ay * e + dy * n - py * e == dy * n - wy * e) by (nonlinear_arith)
        requires
            wy == py - ay,
    ;
    let s = thermal::span2(a, b);
    let ee = e * e;
    if s == 0 || thermal::along(a, b, p) <= 0 {
        let w2 = thermal::span2(a, p);
        assert((k * w2) * ee <= k * q * 1) by (nonlinear_arith)
            requires
                ee * w2 <= q,
                k >= 1,
        ;
    } else if thermal::along(a, b, p) >= s {
        let w2 = thermal::span2(b, p);
        assert(p.x.0 - b.x.0 == wx - dx && p.y.0 - b.y.0 == wy - dy);
        assert((k * w2) * ee <= k * q * 1) by (nonlinear_arith)
            requires
                ee * w2 <= q,
                k >= 1,
        ;
    } else {
        let c = thermal::cross(a, b, p);
        let cc = c * c;
        assert((k * cc) * ee <= k * q * s) by (nonlinear_arith)
            requires
                ee * cc <= q * s,
                k >= 1,
        ;
    }
}

/// Some point of the segment is at the exact distance.
proof fn exact_is_reached(k: int, a: Point, b: Point, p: Point) -> (at: (int, int))
    requires
        k >= 1,
    ensures
        is_share(at.0, at.1),
        exact(k, a, b, p).0 * (at.1 * at.1) == k * from_point2(a, b, p, at.0, at.1) * exact(
            k,
            a,
            b,
            p,
        ).1,
{
    let (dx, dy) = (b.x.0 - a.x.0, b.y.0 - a.y.0);
    let (wx, wy) = (p.x.0 - a.x.0, p.y.0 - a.y.0);
    let (ax, ay, px, py) = (a.x.0 as int, a.y.0 as int, p.x.0 as int, p.y.0 as int);
    let s = thermal::span2(a, b);
    let t = thermal::along(a, b, p);
    span_is_positive(a, b);
    if s == 0 || t <= 0 {
        assert(ax * 1 + dx * 0 - px * 1 == -wx && ay * 1 + dy * 0 - py * 1 == -wy) by (nonlinear_arith)
            requires
                wx == px - ax,
                wy == py - ay,
        ;
        assert((-wx) * (-wx) == wx * wx && (-wy) * (-wy) == wy * wy) by (nonlinear_arith);
        let w2 = thermal::span2(a, p);
        assert((k * w2) * (1 * 1) == k * w2 * 1) by (nonlinear_arith);
        (0, 1)
    } else if t >= s {
        let (zx, zy) = (p.x.0 - b.x.0, p.y.0 - b.y.0);
        assert(ax * 1 + dx * 1 - px * 1 == -zx && ay * 1 + dy * 1 - py * 1 == -zy) by (nonlinear_arith)
            requires
                zx == px - (ax + dx),
                zy == py - (ay + dy),
        ;
        assert((-zx) * (-zx) == zx * zx && (-zy) * (-zy) == zy * zy) by (nonlinear_arith);
        let w2 = thermal::span2(b, p);
        assert((k * w2) * (1 * 1) == k * w2 * 1) by (nonlinear_arith);
        (1, 1)
    } else {
        let c = thermal::cross(a, b, p);
        let u = ax * s + dx * t - px * s;
        let v = ay * s + dy * t - py * s;
        assert(u == dy * c) by (nonlinear_arith)
            requires
                u == ax * s + dx * t - px * s,
                wx == px - ax,
                s == dx * dx + dy * dy,
                t == wx * dx + wy * dy,
                c == dx * wy - dy * wx,
        ;
        assert(v == -(dx * c)) by (nonlinear_arith)
            requires
                v == ay * s + dy * t - py * s,
                wy == py - ay,
                s == dx * dx + dy * dy,
                t == wx * dx + wy * dy,
                c == dx * wy - dy * wx,
        ;
        assert(u * u + v * v == (c * c) * s) by (nonlinear_arith)
            requires
                u == dy * c,
                v == -(dx * c),
                s == dx * dx + dy * dy,
        ;
        let cc = c * c;
        assert((k * cc) * (s * s) == k * (cc * s) * s) by (nonlinear_arith);
        (t, s)
    }
}

/// A point of a segment near to `p` bounds the measure.
pub proof fn point_bounds_measure(g: Gauge, a: Point, b: Point, p: Point, n: int, e: int, l: int)
    requires
        g.scale >= 1,
        is_share(n, e),
    ensures
        !g.up && g.scale * from_point2(a, b, p, n, e) < l * (e * e) ==> thermal::pt_measure(
            g,
            a,
            b,
            p,
        ) < l,
        g.up && g.scale * from_point2(a, b, p, n, e) <= l * (e * e) ==> thermal::pt_measure(
            g,
            a,
            b,
            p,
        ) <= l,
{
    let k = g.scale as int;
    exact_is_least(k, a, b, p, n, e);
    measure_rounds(g, a, b, p, l);
    let (x, d) = exact(k, a, b, p);
    let q = k * from_point2(a, b, p, n, e);
    let ee = e * e;
    assert(ee > 0) by (nonlinear_arith)
        requires
            ee == e * e,
            e > 0,
    ;
    if q < l * ee {
        assert(x < l * d) by (nonlinear_arith)
            requires
                x * ee <= q * d,
                q < l * ee,
                d > 0,
                ee > 0,
        {
            assert(q * d < (l * ee) * d);
            assert((l * ee) * d == (l * d) * ee);
        }
    }
    if q <= l * ee {
        assert(x <= l * d) by (nonlinear_arith)
            requires
                x * ee <= q * d,
                q <= l * ee,
                d > 0,
                ee > 0,
        {
            assert(q * d <= (l * ee) * d);
            assert((l * ee) * d == (l * d) * ee);
        }
    }
}

/// A measure bounds some point of the segment.
pub proof fn measure_bounds_point(g: Gauge, a: Point, b: Point, p: Point, l: int) -> (at: (int, int))
    requires
        g.scale >= 1,
    ensures
        is_share(at.0, at.1),
        !g.up && thermal::pt_measure(g, a, b, p) < l ==> g.scale * from_point2(a, b, p, at.0, at.1)
            < l * (at.1 * at.1),
        g.up && thermal::pt_measure(g, a, b, p) <= l ==> g.scale * from_point2(a, b, p, at.0, at.1)
            <= l * (at.1 * at.1),
{
    let k = g.scale as int;
    let (n, e) = exact_is_reached(k, a, b, p);
    measure_rounds(g, a, b, p, l);
    let (x, d) = exact(k, a, b, p);
    let q = k * from_point2(a, b, p, n, e);
    let ee = e * e;
    assert(ee > 0) by (nonlinear_arith)
        requires
            ee == e * e,
            e > 0,
    ;
    if x < l * d {
        assert(q < l * ee) by (nonlinear_arith)
            requires
                x * ee == q * d,
                x < l * d,
                d > 0,
                ee > 0,
        {
            assert(x * ee < (l * d) * ee);
            assert((l * d) * ee == (l * ee) * d);
        }
    }
    if x <= l * d {
        assert(q <= l * ee) by (nonlinear_arith)
            requires
                x * ee == q * d,
                x <= l * d,
                d > 0,
                ee > 0,
        {
            assert(x * ee <= (l * d) * ee);
            assert((l * d) * ee == (l * ee) * d);
        }
    }
    (n, e)
}

/// A way on which two points of the segments come no farther apart: from the
/// shares `n / e` and `m / e` it leads in the direction of `s / k` and
/// `t / k`, where the lines meet, or along both lines where they are
/// parallel and `k` is zero.
spec fn leads(a: Point, b: Point, c: Point, d: Point, k: int, s: int, t: int) -> bool {
    &&& k >= 0
    &&& (a.x.0 - c.x.0) * k + (b.x.0 - a.x.0) * s == (d.x.0 - c.x.0) * t
    &&& (a.y.0 - c.y.0) * k + (b.y.0 - a.y.0) * s == (d.y.0 - c.y.0) * t
}

/// On one axis: where the way leaves through the end `a`.
proof fn leaving(w: int, u: int, v: int, n: int, m: int, e: int, k: int, s: int, t: int)
    requires
        w * k + u * s == v * t,
    ensures
        w * (n * k - s * e) - v * (n * t - m * s) == (-s) * (w * e + u * n - v * m),
{
    let (nk, se, nt, ms) = (n * k, s * e, n * t, m * s);
    assert(w * (nk - se) == w * nk - w * se) by (nonlinear_arith);
    assert(v * (nt - ms) == v * nt - v * ms) by (nonlinear_arith);
    let (we, un, vm) = (w * e, u * n, v * m);
    assert((-s) * (we + un - vm) == -(s * we) - s * un + s * vm) by (nonlinear_arith);
    assert(w * se == s * we) by (nonlinear_arith)
        requires
            se == s * e,
            we == w * e,
    ;
    assert(v * ms == s * vm) by (nonlinear_arith)
        requires
            ms == m * s,
            vm == v * m,
    ;
    assert(s * un == n * (u * s)) by (nonlinear_arith)
        requires
            un == u * n,
    ;
    assert(w * nk == n * (w * k)) by (nonlinear_arith)
        requires
            nk == n * k,
    ;
    assert(v * nt == n * (v * t)) by (nonlinear_arith)
        requires
            nt == n * t,
    ;
    let (wk, us, vt) = (w * k, u * s, v * t);
    assert(n * wk + n * us == n * vt) by (nonlinear_arith)
        requires
            wk + us == vt,
    ;
}

/// The squared distance of two points that are the shares `n / e` and `m / e`
/// of the way, times the square of `e`.
spec fn even2(a: Point, b: Point, c: Point, d: Point, n: int, m: int, e: int) -> int {
    let x = (a.x.0 - c.x.0) * e + (b.x.0 - a.x.0) * n - (d.x.0 - c.x.0) * m;
    let y = (a.y.0 - c.y.0) * e + (b.y.0 - a.y.0) * n - (d.y.0 - c.y.0) * m;
    x * x + y * y
}

/// Where the way leaves through the end `a`, the point opposite is on
/// `c`-`d`, and no farther.
proof fn leaves_through_end(
    a: Point,
    b: Point,
    c: Point,
    d: Point,
    n: int,
    m: int,
    e: int,
    k: int,
    s: int,
    t: int,
)
    requires
        is_share(n, e),
        is_share(m, e),
        leads(a, b, c, d, k, s, t),
        s < 0,
        t <= k,
        n * t - m * s >= 0,
    ensures
        is_share(n * t - m * s, n * k - s * e),
        from_point2(c, d, a, n * t - m * s, n * k - s * e) * (e * e) <= even2(a, b, c, d, n, m, e)
            * ((n * k - s * e) * (n * k - s * e)),
{
    let f = n * k - s * e;
    let j = n * t - m * s;
    assert(n * t <= n * k) by (nonlinear_arith)
        requires
            t <= k,
            n >= 0,
    ;
    assert(-(m * s) <= -(s * e)) by (nonlinear_arith)
        requires
            s < 0,
            m <= e,
    ;
    assert(n * k >= 0) by (nonlinear_arith)
        requires
            n >= 0,
            k >= 0,
    ;
    assert(-(s * e) > 0) by (nonlinear_arith)
        requires
            s < 0,
            e > 0,
    ;
    let (wx, ux, vx) = (a.x.0 - c.x.0, b.x.0 - a.x.0, d.x.0 - c.x.0);
    let (wy, uy, vy) = (a.y.0 - c.y.0, b.y.0 - a.y.0, d.y.0 - c.y.0);
    leaving(wx, ux, vx, n, m, e, k, s, t);
    leaving(wy, uy, vy, n, m, e, k, s, t);
    let x = wx * e + ux * n - vx * m;
    let y = wy * e + uy * n - vy * m;
    let (cx, cy, ax, ay) = (c.x.0 as int, c.y.0 as int, a.x.0 as int, a.y.0 as int);
    assert(cx * f + vx * j - ax * f == -(wx * f - vx * j)) by (nonlinear_arith)
        requires
            wx == ax - cx,
    ;
    assert(cy * f + vy * j - ay * f == -(wy * f - vy * j)) by (nonlinear_arith)
        requires
            wy == ay - cy,
    ;
    let q = from_point2(c, d, a, j, f);
    let r = x * x + y * y;
    assert(-((-s) * x) == s * x && -((-s) * y) == s * y) by (nonlinear_arith);
    assert(q == (s * s) * r) by (nonlinear_arith)
        requires
            q == (s * x) * (s * x) + (s * y) * (s * y),
            r == x * x + y * y,
    ;
    let z = s * e;
    assert(r >= 0) by (nonlinear_arith)
        requires
            r == x * x + y * y,
    ;
    assert(z * z <= f * f) by (nonlinear_arith)
        requires
            0 < -z <= f,
    ;
    assert(((s * s) * r) * (e * e) == r * (z * z)) by (nonlinear_arith)
        requires
            z == s * e,
    ;
    assert(r * (z * z) <= r * (f * f)) by (nonlinear_arith)
        requires
            r >= 0,
            z * z <= f * f,
    ;
}

/// The other way about: the same points from the other segment.
proof fn even2_swapped(a: Point, b: Point, c: Point, d: Point, n: int, m: int, e: int)
    ensures
        even2(c, d, a, b, m, n, e) == even2(a, b, c, d, n, m, e),
        even2(b, a, c, d, e - n, m, e) == even2(a, b, c, d, n, m, e),
{
    let (ax, bx, cx, dx) = (a.x.0 as int, b.x.0 as int, c.x.0 as int, d.x.0 as int);
    let (ay, by, cy, dy) = (a.y.0 as int, b.y.0 as int, c.y.0 as int, d.y.0 as int);
    let x = (ax - cx) * e + (bx - ax) * n - (dx - cx) * m;
    let y = (ay - cy) * e + (by - ay) * n - (dy - cy) * m;
    assert((cx - ax) * e + (dx - cx) * m - (bx - ax) * n == -x) by (nonlinear_arith)
        requires
            x == (ax - cx) * e + (bx - ax) * n - (dx - cx) * m,
    ;
    assert((cy - ay) * e + (dy - cy) * m - (by - ay) * n == -y) by (nonlinear_arith)
        requires
            y == (ay - cy) * e + (by - ay) * n - (dy - cy) * m,
    ;
    assert((-x) * (-x) == x * x && (-y) * (-y) == y * y) by (nonlinear_arith);
    assert((bx - cx) * e + (ax - bx) * (e - n) == (ax - cx) * e + (bx - ax) * n) by (nonlinear_arith);
    assert((by - cy) * e + (ay - by) * (e - n) == (ay - cy) * e + (by - ay) * n) by (nonlinear_arith);
}

proof fn leads_swapped(a: Point, b: Point, c: Point, d: Point, k: int, s: int, t: int)
    requires
        leads(a, b, c, d, k, s, t),
    ensures
        leads(c, d, a, b, k, t, s),
        leads(b, a, c, d, k, k - s, t),
{
    let (ax, bx, cx, dx) = (a.x.0 as int, b.x.0 as int, c.x.0 as int, d.x.0 as int);
    let (ay, by, cy, dy) = (a.y.0 as int, b.y.0 as int, c.y.0 as int, d.y.0 as int);
    assert((cx - ax) * k + (dx - cx) * t == (bx - ax) * s) by (nonlinear_arith)
        requires
            (ax - cx) * k + (bx - ax) * s == (dx - cx) * t,
    ;
    assert((cy - ay) * k + (dy - cy) * t == (by - ay) * s) by (nonlinear_arith)
        requires
            (ay - cy) * k + (by - ay) * s == (dy - cy) * t,
    ;
    assert((bx - cx) * k + (ax - bx) * (k - s) == (ax - cx) * k + (bx - ax) * s) by (nonlinear_arith);
    assert((by - cy) * k + (ay - by) * (k - s) == (ay - cy) * k + (by - ay) * s) by (nonlinear_arith);
}

/// An end of one segment with a point of the other is no farther apart.
spec fn end_is_near(
    a: Point,
    b: Point,
    c: Point,
    d: Point,
    q: int,
    e: int,
    p: Point,
    x: Point,
    y: Point,
    j: int,
    f: int,
) -> bool {
    &&& is_share(j, f)
    &&& (p == a || p == b) && (x == c && y == d || x == d && y == c) || (p == c || p == d) && (x == a
        && y == b || x == b && y == a)
    &&& from_point2(x, y, p, j, f) * (e * e) <= q * (f * f)
}

/// From two points of segments, a way that leaves through an end of one of
/// them ends no farther apart.
proof fn some_end_is_near(
    a: Point,
    b: Point,
    c: Point,
    d: Point,
    n: int,
    m: int,
    e: int,
    k: int,
    s: int,
    t: int,
) -> (r: (Point, Point, Point, int, int))
    requires
        is_share(n, e),
        is_share(m, e),
        leads(a, b, c, d, k, s, t),
        s < 0 || s > k || t < 0 || t > k,
    ensures
        end_is_near(a, b, c, d, even2(a, b, c, d, n, m, e), e, r.0, r.1, r.2, r.3, r.4),
    decreases
            (if s > k {
                1int
            } else {
                0
            }) + (if t > k {
                1int
            } else {
                0
            }),
{
    even2_swapped(a, b, c, d, n, m, e);
    leads_swapped(a, b, c, d, k, s, t);
    if s > k {
        some_end_is_near(b, a, c, d, e - n, m, e, k, k - s, t)
    } else if t > k {
        even2_swapped(c, d, a, b, m, n, e);
        leads_swapped(c, d, a, b, k, t, s);
        leads_swapped(d, c, a, b, k, k - t, s);
        even2_swapped(d, c, a, b, e - m, n, e);
        some_end_is_near(a, b, d, c, n, e - m, e, k, s, k - t)
    } else if s < 0 && (t >= 0 || n * t - m * s >= 0) {
        if t >= 0 {
            assert(n * t >= 0 && m * s <= 0) by (nonlinear_arith)
                requires
                    n >= 0,
                    t >= 0,
                    m >= 0,
                    s < 0,
            ;
        }
        leaves_through_end(a, b, c, d, n, m, e, k, s, t);
        (a, c, d, n * t - m * s, n * k - s * e)
    } else {
        if s >= 0 {
            assert(m * s >= 0 && n * t <= 0) by (nonlinear_arith)
                requires
                    n >= 0,
                    t < 0,
                    m >= 0,
                    s >= 0,
            ;
        }
        leaves_through_end(c, d, a, b, m, n, e, k, t, s);
        (c, a, b, m * s - n * t, m * k - t * e)
    }
}

/// A way always leads somewhere: to where the lines meet, or along them.
proof fn some_way_leads(a: Point, b: Point, c: Point, d: Point) -> (r: (int, int, int))
    requires
        a != b,
        c != d,
    ensures
        leads(a, b, c, d, r.0, r.1, r.2),
        r.0 > 0 || r.1 < 0,
{
    let (wx, ux, vx) = (a.x.0 - c.x.0, b.x.0 - a.x.0, d.x.0 - c.x.0);
    let (wy, uy, vy) = (a.y.0 - c.y.0, b.y.0 - a.y.0, d.y.0 - c.y.0);
    let k = ux * vy - uy * vx;
    let s = wy * vx - wx * vy;
    let t = wy * ux - wx * uy;
    assert(wx * k + ux * s == vx * t) by (nonlinear_arith)
        requires
            k == ux * vy - uy * vx,
            s == wy * vx - wx * vy,
            t == wy * ux - wx * uy,
    ;
    assert(wy * k + uy * s == vy * t) by (nonlinear_arith)
        requires
            k == ux * vy - uy * vx,
            s == wy * vx - wx * vy,
            t == wy * ux - wx * uy,
    ;
    if k > 0 {
        (k, s, t)
    } else if k < 0 {
        assert(wx * (-k) + ux * (-s) == vx * (-t)) by (nonlinear_arith)
            requires
                wx * k + ux * s == vx * t,
        ;
        assert(wy * (-k) + uy * (-s) == vy * (-t)) by (nonlinear_arith)
            requires
                wy * k + uy * s == vy * t,
        ;
        (-k, -s, -t)
    } else {
        let h = vx * vx + vy * vy;
        let g = ux * vx + uy * vy;
        assert(h > 0) by (nonlinear_arith)
            requires
                h == vx * vx + vy * vy,
                vx != 0 || vy != 0,
        ;
        assert(ux * (-h) == vx * (-g)) by (nonlinear_arith)
            requires
                h == vx * vx + vy * vy,
                g == ux * vx + uy * vy,
                ux * vy - uy * vx == 0,
        ;
        assert(uy * (-h) == vy * (-g)) by (nonlinear_arith)
            requires
                h == vx * vx + vy * vy,
                g == ux * vx + uy * vy,
                ux * vy - uy * vx == 0,
        ;
        assert(wx * 0 == 0 && wy * 0 == 0) by (nonlinear_arith);
        (0, -h, -g)
    }
}

proof fn way_is_even(a: int, b: int, c: int, d: int, n: int, e: int, m: int, f: int)
    ensures
        way(a, b, c, d, n, e, m, f) == (a - c) * (e * f) + (b - a) * (n * f) - (d - c) * (m * e),
{
    let (u, v) = (b - a, d - c);
    assert((a * e + u * n) * f == a * (e * f) + u * (n * f)) by (nonlinear_arith);
    assert((c * f + v * m) * e == c * (e * f) + v * (m * e)) by (nonlinear_arith);
    let g = e * f;
    assert((a - c) * g == a * g - c * g) by (nonlinear_arith);
}

/// Two points of the segments that are so close leave an end as close, or
/// the segments meet.
proof fn close_points_bound_measure(
    g: Gauge,
    a: Point,
    b: Point,
    c: Point,
    d: Point,
    l: int,
    n: int,
    e: int,
    m: int,
    f: int,
)
    requires
        g.scale >= 1,
        is_share(n, e),
        is_share(m, f),
    ensures
        !g.up && g.scale * way2(a, b, c, d, n, e, m, f) < l * ((e * f) * (e * f))
            ==> thermal::seg_measure(g, a, b, c, d) < l,
        g.up && g.scale * way2(a, b, c, d, n, e, m, f) <= l * ((e * f) * (e * f))
            ==> thermal::seg_measure(g, a, b, c, d) <= l,
{
    let k = g.scale as int;
    let (nf, me, ef) = (n * f, m * e, e * f);
    assert(0 <= nf <= ef && 0 <= me <= ef && 0 < ef) by (nonlinear_arith)
        requires
            is_share(n, e),
            is_share(m, f),
            nf == n * f,
            me == m * e,
            ef == e * f,
    ;
    way_is_even(a.x.0 as int, b.x.0 as int, c.x.0 as int, d.x.0 as int, n, e, m, f);
    way_is_even(a.y.0 as int, b.y.0 as int, c.y.0 as int, d.y.0 as int, n, e, m, f);
    let q = way2(a, b, c, d, n, e, m, f);
    assert(q == even2(a, b, c, d, nf, me, ef));
    let (x, y) = (
        way(a.x.0 as int, b.x.0 as int, c.x.0 as int, d.x.0 as int, n, e, m, f),
        way(a.y.0 as int, b.y.0 as int, c.y.0 as int, d.y.0 as int, n, e, m, f),
    );
    assert(x * x >= 0 && y * y >= 0) by (nonlinear_arith);
    assert(k * q >= 0) by (nonlinear_arith)
        requires
            k >= 1,
            q >= 0,
    ;
    let w = ef * ef;
    assert(w > 0) by (nonlinear_arith)
        requires
            w == ef * ef,
            ef > 0,
    ;
    if k * q < l * w {
        assert(l > 0) by (nonlinear_arith)
            requires
                0 <= k * q < l * w,
                w > 0,
        ;
    }
    if k * q <= l * w {
        assert(l >= 0) by (nonlinear_arith)
            requires
                0 <= k * q <= l * w,
                w > 0,
        ;
    }
    if thermal::crossing(a, b, c, d) {
    } else if a == b {
        let (ax, ay) = (a.x.0 as int, a.y.0 as int);
        assert((ax - ax) * nf == 0 && (ay - ay) * nf == 0) by (nonlinear_arith);
        same_from_point(a, c, d, me, ef, nf);
        point_bounds_measure(g, c, d, a, me, ef, l);
    } else if c == d {
        even2_swapped(a, b, c, d, nf, me, ef);
        same_from_point(c, a, b, nf, ef, me);
        point_bounds_measure(g, a, b, c, nf, ef, l);
    } else {
        let (z, s, t) = some_way_leads(a, b, c, d);
        if 0 <= s <= z && 0 <= t <= z {
            meeting(a.x.0 as int, b.x.0 as int, c.x.0 as int, d.x.0 as int, z, s, t);
            meeting(a.y.0 as int, b.y.0 as int, c.y.0 as int, d.y.0 as int, z, s, t);
            assert(touching::same_point(a, b, c, d, s, z, t, z));
            touching::touching_segments_cross(a, b, c, d, s, z, t, z);
        } else {
            let (p, u, v, j, h) = some_end_is_near(a, b, c, d, nf, me, ef, z, s, t);
            let r = from_point2(u, v, p, j, h);
            let hh = h * h;
            assert(hh > 0) by (nonlinear_arith)
                requires
                    hh == h * h,
                    h > 0,
            ;
            if k * q < l * w {
                assert(k * r < l * hh) by (nonlinear_arith)
                    requires
                        r * w <= q * hh,
                        k * q < l * w,
                        k >= 1,
                        w > 0,
                        hh > 0,
                {
                    assert(k * (r * w) <= k * (q * hh));
                    assert((k * q) * hh < (l * w) * hh);
                    assert((k * r) * w < (l * hh) * w);
                }
            }
            if k * q <= l * w {
                assert(k * r <= l * hh) by (nonlinear_arith)
                    requires
                        r * w <= q * hh,
                        k * q <= l * w,
                        k >= 1,
                        w > 0,
                        hh > 0,
                {
                    assert(k * (r * w) <= k * (q * hh));
                    assert((k * q) * hh <= (l * w) * hh);
                    assert((k * r) * w <= (l * hh) * w);
                }
            }
            turned_from_point(u, v, p, j, h);
            point_bounds_measure(g, u, v, p, j, h, l);
            point_bounds_measure(g, v, u, p, h - j, h, l);
        }
    }
}

proof fn meeting(a: int, b: int, c: int, d: int, z: int, s: int, t: int)
    requires
        (a - c) * z + (b - a) * s == (d - c) * t,
    ensures
        (a * z + (b - a) * s) * z == (c * z + (d - c) * t) * z,
{
    assert(a * z + (b - a) * s == c * z + (d - c) * t) by (nonlinear_arith)
        requires
            (a - c) * z + (b - a) * s == (d - c) * t,
    ;
}

/// The same point counted from the other end.
proof fn turned_from_point(u: Point, v: Point, p: Point, j: int, h: int)
    ensures
        from_point2(v, u, p, h - j, h) == from_point2(u, v, p, j, h),
{
    let (ux, vx, uy, vy) = (u.x.0 as int, v.x.0 as int, u.y.0 as int, v.y.0 as int);
    assert(vx * h + (ux - vx) * (h - j) == ux * h + (vx - ux) * j) by (nonlinear_arith);
    assert(vy * h + (uy - vy) * (h - j) == uy * h + (vy - uy) * j) by (nonlinear_arith);
}

/// The points of a segment of one point.
proof fn same_from_point(a: Point, c: Point, d: Point, m: int, e: int, n: int)
    ensures
        even2(a, a, c, d, n, m, e) == from_point2(c, d, a, m, e),
{
    let (ax, cx, dx) = (a.x.0 as int, c.x.0 as int, d.x.0 as int);
    let (ay, cy, dy) = (a.y.0 as int, c.y.0 as int, d.y.0 as int);
    let x = (ax - cx) * e + (ax - ax) * n - (dx - cx) * m;
    let y = (ay - cy) * e + (ay - ay) * n - (dy - cy) * m;
    assert(cx * e + (dx - cx) * m - ax * e == -x) by (nonlinear_arith)
        requires
            x == (ax - cx) * e + (ax - ax) * n - (dx - cx) * m,
    ;
    assert(cy * e + (dy - cy) * m - ay * e == -y) by (nonlinear_arith)
        requires
            y == (ay - cy) * e + (ay - ay) * n - (dy - cy) * m,
    ;
    assert((-x) * (-x) == x * x && (-y) * (-y) == y * y) by (nonlinear_arith);
}

/// A point of `c`-`d` with the end `a` of the other segment.
proof fn way_to_start(a: Point, b: Point, c: Point, d: Point, m: int, f: int)
    ensures
        way2(a, b, c, d, 0, 1, m, f) == from_point2(c, d, a, m, f),
        way2(a, b, c, d, 1, 1, m, f) == from_point2(c, d, b, m, f),
        way2(c, d, a, b, m, f, 0, 1) == from_point2(c, d, a, m, f),
        way2(c, d, a, b, m, f, 1, 1) == from_point2(c, d, b, m, f),
{
    start_on_axis(a.x.0 as int, b.x.0 as int, c.x.0 as int, d.x.0 as int, m, f);
    start_on_axis(a.y.0 as int, b.y.0 as int, c.y.0 as int, d.y.0 as int, m, f);
    let (u, v) = (
        c.x.0 * f + (d.x.0 - c.x.0) * m - a.x.0 * f,
        c.y.0 * f + (d.y.0 - c.y.0) * m - a.y.0 * f,
    );
    let (w, z) = (
        c.x.0 * f + (d.x.0 - c.x.0) * m - b.x.0 * f,
        c.y.0 * f + (d.y.0 - c.y.0) * m - b.y.0 * f,
    );
    assert((-u) * (-u) == u * u && (-v) * (-v) == v * v && (-w) * (-w) == w * w && (-z) * (-z) == z
        * z) by (nonlinear_arith);
}

proof fn start_on_axis(a: int, b: int, c: int, d: int, m: int, f: int)
    ensures
        way(a, b, c, d, 0, 1, m, f) == -(c * f + (d - c) * m - a * f),
        way(a, b, c, d, 1, 1, m, f) == -(c * f + (d - c) * m - b * f),
        way(c, d, a, b, m, f, 0, 1) == c * f + (d - c) * m - a * f,
        way(c, d, a, b, m, f, 1, 1) == c * f + (d - c) * m - b * f,
{
    assert(a * 1 + (b - a) * 0 == a && a * 1 + (b - a) * 1 == b) by (nonlinear_arith);
    let x = c * f + (d - c) * m;
    assert(x * 1 == x) by (nonlinear_arith);
}

/// Four times, or once, the squared distance that is measured between two
/// segments is below a limit exactly if two points of them are that close.
pub proof fn measure_is_distance(g: Gauge, a: Point, b: Point, c: Point, d: Point, l: int)
    requires
        g.scale >= 1,
    ensures
        !g.up ==> (thermal::seg_measure(g, a, b, c, d) < l <==> closer(
            a,
            b,
            c,
            d,
            g.scale as int,
            l,
        )),
        g.up ==> (thermal::seg_measure(g, a, b, c, d) <= l <==> as_close(
            a,
            b,
            c,
            d,
            g.scale as int,
            l,
        )),
{
    let k = g.scale as int;
    if !g.up && closer(a, b, c, d, k, l) {
        let (n, e, m, f) = choose|n: int, e: int, m: int, f: int| #[trigger]
            closer_at(a, b, c, d, k, l, n, e, m, f);
        close_points_bound_measure(g, a, b, c, d, l, n, e, m, f);
    }
    if g.up && as_close(a, b, c, d, k, l) {
        let (n, e, m, f) = choose|n: int, e: int, m: int, f: int| #[trigger]
            as_close_at(a, b, c, d, k, l, n, e, m, f);
        close_points_bound_measure(g, a, b, c, d, l, n, e, m, f);
    }
    if (!g.up && thermal::seg_measure(g, a, b, c, d) < l) || (g.up && thermal::seg_measure(
        g,
        a,
        b,
        c,
        d,
    ) <= l) {
        measured_points(g, a, b, c, d, l);
    }
}

proof fn measured_points(g: Gauge, a: Point, b: Point, c: Point, d: Point, l: int)
    requires
        g.scale >= 1,
        !g.up ==> thermal::seg_measure(g, a, b, c, d) < l,
        g.up ==> thermal::seg_measure(g, a, b, c, d) <= l,
    ensures
        !g.up ==> closer(a, b, c, d, g.scale as int, l),
        g.up ==> as_close(a, b, c, d, g.scale as int, l),
{
    let k = g.scale as int;
    if thermal::crossing(a, b, c, d) {
        touching::crossing_segments_touch(a, b, c, d);
        let (n, e, m, f) = choose|n: int, e: int, m: int, f: int| #[trigger]
            touching::same_point(a, b, c, d, n, e, m, f);
        assert(0 * 0 == 0 && k * 0 == 0) by (nonlinear_arith);
        assert(way2(a, b, c, d, n, e, m, f) == 0);
        let w = (e * f) * (e * f);
        assert(w > 0) by (nonlinear_arith)
            requires
                w == (e * f) * (e * f),
                e > 0,
                f > 0,
        ;
        assert(l >= 0 ==> l * w >= 0) by (nonlinear_arith)
            requires
                w > 0,
        ;
        assert(l > 0 ==> l * w > 0) by (nonlinear_arith)
            requires
                w > 0,
        ;
        if g.up {
            assert(as_close_at(a, b, c, d, k, l, n, e, m, f));
        } else {
            assert(closer_at(a, b, c, d, k, l, n, e, m, f));
        }
    } else {
        let (n1, e1) = measure_bounds_point(g, a, b, c, l);
        let (n2, e2) = measure_bounds_point(g, a, b, d, l);
        let (n3, e3) = measure_bounds_point(g, c, d, a, l);
        let (n4, e4) = measure_bounds_point(g, c, d, b, l);
        way_to_start(c, d, a, b, n1, e1);
        way_to_start(c, d, a, b, n2, e2);
        way_to_start(a, b, c, d, n3, e3);
        way_to_start(a, b, c, d, n4, e4);
        assert(e1 * 1 == e1 && e2 * 1 == e2 && 1 * e3 == e3 && 1 * e4 == e4) by (nonlinear_arith);
        if g.up {
            if thermal::pt_measure(g, a, b, c) <= l {
                assert(as_close_at(a, b, c, d, k, l, n1, e1, 0, 1));
            } else if thermal::pt_measure(g, a, b, d) <= l {
                assert(as_close_at(a, b, c, d, k, l, n2, e2, 1, 1));
            } else if thermal::pt_measure(g, c, d, a) <= l {
                assert(as_close_at(a, b, c, d, k, l, 0, 1, n3, e3));
            } else {
                assert(as_close_at(a, b, c, d, k, l, 1, 1, n4, e4));
            }
        } else {
            if thermal::pt_measure(g, a, b, c) < l {
                assert(closer_at(a, b, c, d, k, l, n1, e1, 0, 1));
            } else if thermal::pt_measure(g, a, b, d) < l {
                assert(closer_at(a, b, c, d, k, l, n2, e2, 1, 1));
            } else if thermal::pt_measure(g, c, d, a) < l {
                assert(closer_at(a, b, c, d, k, l, 0, 1, n3, e3));
            } else {
                assert(closer_at(a, b, c, d, k, l, 1, 1, n4, e4));
            }
        }
    }
}

/// `u` moved into the interval from `lo` to `hi`.
pub open spec fn clamped(u: int, lo: int, hi: int) -> int {
    if u < lo {
        lo
    } else if u > hi {
        hi
    } else {
        u
    }
}

/// On one axis: the nearest number of an interval is no farther than any
/// other.
proof fn clamp_is_nearest(u: int, e: int, lo: int, hi: int, x: int, f: int)
    requires
        0 < e,
        0 < f,
        lo * f <= x <= hi * f,
    ensures
        ({
            let y = clamped(u, lo * e, hi * e);
            &&& lo * e <= y <= hi * e
            &&& (u - y) * (u - y) * (f * f) <= (u * f - x * e) * (u * f - x * e)
        }),
{
    let y = clamped(u, lo * e, hi * e);
    assert(lo <= hi) by (nonlinear_arith)
        requires
            lo * f <= hi * f,
            f > 0,
    ;
    assert(lo * e <= hi * e) by (nonlinear_arith)
        requires
            lo <= hi,
            e > 0,
    ;
    let z = u * f - x * e;
    let w = (u - y) * f;
    assert(w == u * f - y * f) by (nonlinear_arith)
        requires
            w == (u - y) * f,
    ;
    assert(lo * f * e <= x * e <= hi * f * e) by (nonlinear_arith)
        requires
            lo * f <= x <= hi * f,
            e > 0,
    ;
    assert(lo * f * e == lo * e * f && hi * f * e == hi * e * f) by (nonlinear_arith);
    let (le, he) = (lo * e, hi * e);
    if u < le {
        assert(u * f < le * f) by (nonlinear_arith)
            requires
                u < le,
                f > 0,
        ;
        assert(w * w <= z * z) by (nonlinear_arith)
            requires
                z <= w < 0,
        ;
    } else if u > he {
        assert(u * f > he * f) by (nonlinear_arith)
            requires
                u > he,
                f > 0,
        ;
        assert(w * w <= z * z) by (nonlinear_arith)
            requires
                0 < w <= z,
        ;
    } else {
        assert(w == 0) by (nonlinear_arith)
            requires
                w == (u - y) * f,
                u == y,
        ;
        assert(0 * 0 <= z * z) by (nonlinear_arith);
    }
    assert(w * w == (u - y) * (u - y) * (f * f)) by (nonlinear_arith)
        requires
            w == (u - y) * f,
    ;
}

/// A point on a side of the rectangle, as a share of that side.
proof fn on_a_side(r: Rect, x: int, y: int, e: int) -> (at: (int, Point, Point, int, int))
    requires
        in_rect(r, x, y, e),
        x == r.min.x.0 * e || x == r.max.x.0 * e || y == r.min.y.0 * e || y == r.max.y.0 * e,
    ensures
        is_share(at.3, at.4),
        at.1 == r.min && at.2 == thermal::low_right(r) || at.1 == thermal::low_right(r) && at.2
            == r.max || at.1 == r.max && at.2 == thermal::high_left(r) || at.1 == thermal::high_left(r)
            && at.2 == r.min,
        (at.1.x.0 * at.4 + (at.2.x.0 - at.1.x.0) * at.3) * e == x * at.4,
        (at.1.y.0 * at.4 + (at.2.y.0 - at.1.y.0) * at.3) * e == y * at.4,
{
    let (x0, x1, y0, y1) = (
        r.min.x.0 as int,
        r.max.x.0 as int,
        r.min.y.0 as int,
        r.max.y.0 as int,
    );
    assert(x0 <= x1 && y0 <= y1) by (nonlinear_arith)
        requires
            x0 * e <= x1 * e,
            y0 * e <= y1 * e,
            e > 0,
    ;
    if y == y0 * e {
        let (m, f) = share_between(x0, x1, x, e);
        flat(y0, m, f, e);
        (0, r.min, thermal::low_right(r), m, f)
    } else if x == x1 * e {
        let (m, f) = share_between(y0, y1, y, e);
        flat(x1, m, f, e);
        (0, thermal::low_right(r), r.max, m, f)
    } else if y == y1 * e {
        let (m, f) = share_between(x1, x0, x, e);
        flat(y1, m, f, e);
        (0, r.max, thermal::high_left(r), m, f)
    } else {
        let (m, f) = share_between(y1, y0, y, e);
        flat(x0, m, f, e);
        (0, thermal::high_left(r), r.min, m, f)
    }
}

proof fn flat(y0: int, m: int, f: int, e: int)
    ensures
        (y0 * f + (y0 - y0) * m) * e == (y0 * e) * f,
{
    assert((y0 - y0) * m == 0) by (nonlinear_arith);
    assert((y0 * f) * e == (y0 * e) * f) by (nonlinear_arith);
}

/// A number between two others as a share of the way.
proof fn share_between(u: int, v: int, x: int, e: int) -> (at: (int, int))
    requires
        0 < e,
        units::min(u, v) * e <= x <= units::max(u, v) * e,
    ensures
        is_share(at.0, at.1),
        (u * at.1 + (v - u) * at.0) * e == x * at.1,
{
    if u == v {
        assert((u * 1 + (v - u) * 0) * e == x * 1) by (nonlinear_arith)
            requires
                x == u * e,
        ;
        (0, 1)
    } else if u < v {
        let g = v - u;
        let m = x - u * e;
        let f = g * e;
        assert(f > 0 && v * e - u * e == f) by (nonlinear_arith)
            requires
                g == v - u,
                g > 0,
                e > 0,
                f == g * e,
        ;
        assert((u * f + g * m) * e == x * f) by (nonlinear_arith)
            requires
                m == x - u * e,
                f == g * e,
        ;
        (m, f)
    } else {
        let g = u - v;
        let m = u * e - x;
        let f = g * e;
        assert(f > 0 && u * e - v * e == f) by (nonlinear_arith)
            requires
                g == u - v,
                g > 0,
                e > 0,
                f == g * e,
        ;
        assert((u * f + (v - u) * m) * e == x * f) by (nonlinear_arith)
            requires
                m == u * e - x,
                f == g * e,
                g == u - v,
        ;
        (m, f)
    }
}

/// A point of a side is a point of the rectangle.
proof fn side_is_in_rect(r: Rect, c: Point, d: Point, m: int, f: int)
    requires
        r.wf(),
        is_share(m, f),
        c.x == r.min.x || c.x == r.max.x,
        d.x == r.min.x || d.x == r.max.x,
        c.y == r.min.y || c.y == r.max.y,
        d.y == r.min.y || d.y == r.max.y,
    ensures
        in_rect(r, c.x.0 * f + (d.x.0 - c.x.0) * m, c.y.0 * f + (d.y.0 - c.y.0) * m, f),
{
    share_in_range(c.x.0 as int, d.x.0 as int, m, f, r.min.x.0 as int, r.max.x.0 as int);
    share_in_range(c.y.0 as int, d.y.0 as int, m, f, r.min.y.0 as int, r.max.y.0 as int);
}

proof fn share_in_range(c: int, d: int, m: int, f: int, lo: int, hi: int)
    requires
        is_share(m, f),
        lo <= c <= hi,
        lo <= d <= hi,
    ensures
        lo * f <= c * f + (d - c) * m <= hi * f,
{
    assert(c * f + (d - c) * m == c * (f - m) + d * m) by (nonlinear_arith);
    assert(lo * (f - m) <= c * (f - m) <= hi * (f - m)) by (nonlinear_arith)
        requires
            lo <= c <= hi,
            f - m >= 0,
    ;
    assert(lo * m <= d * m <= hi * m) by (nonlinear_arith)
        requires
            lo <= d <= hi,
            m >= 0,
    ;
    assert(lo * (f - m) + lo * m == lo * f && hi * (f - m) + hi * m == hi * f) by (nonlinear_arith);
}

/// A side of the rectangle.
spec fn is_side(r: Rect, c: Point, d: Point) -> bool {
    ||| c == r.min && d == thermal::low_right(r)
    ||| c == thermal::low_right(r) && d == r.max
    ||| c == r.max && d == thermal::high_left(r)
    ||| c == thermal::high_left(r) && d == r.min
}

proof fn side_bounds_measure(g: Gauge, a: Point, b: Point, r: Rect, c: Point, d: Point, l: int)
    requires
        is_side(r, c, d),
        !g.up ==> thermal::seg_measure(g, a, b, c, d) < l && 0 < l,
        g.up ==> thermal::seg_measure(g, a, b, c, d) <= l && 0 <= l,
    ensures
        !g.up ==> thermal::rect_measure(g, a, b, r) < l,
        g.up ==> thermal::rect_measure(g, a, b, r) <= l,
{
}

/// A point of the segment that is the share `n / e`, on a side.
proof fn way_to_side(u: int, e: int, x: int, c: int, d: int, m: int, f: int)
    requires
        (c * f + (d - c) * m) * e == x * f,
    ensures
        u * f - (c * f + (d - c) * m) * e == (u - x) * f,
{
    assert(u * f - x * f == (u - x) * f) by (nonlinear_arith);
}

/// A point of the segment next to a point of a side bounds the measure.
proof fn next_to_side(
    g: Gauge,
    a: Point,
    b: Point,
    r: Rect,
    l: int,
    n: int,
    e: int,
    x: int,
    y: int,
    q: int,
    f: int,
)
    requires
        g.scale >= 1,
        is_share(n, e),
        0 < f,
        in_rect(r, x, y, e),
        x == r.min.x.0 * e || x == r.max.x.0 * e || y == r.min.y.0 * e || y == r.max.y.0 * e,
        0 <= q,
        ({
            let u = a.x.0 * e + (b.x.0 - a.x.0) * n;
            let v = a.y.0 * e + (b.y.0 - a.y.0) * n;
            ((u - x) * (u - x) + (v - y) * (v - y)) * (f * f) <= q
        }),
        !g.up ==> g.scale * q < l * ((e * f) * (e * f)),
        g.up ==> g.scale * q <= l * ((e * f) * (e * f)),
    ensures
        !g.up ==> thermal::rect_measure(g, a, b, r) < l,
        g.up ==> thermal::rect_measure(g, a, b, r) <= l,
{
    let k = g.scale as int;
    let u = a.x.0 * e + (b.x.0 - a.x.0) * n;
    let v = a.y.0 * e + (b.y.0 - a.y.0) * n;
    let (_, c, d, m, h) = on_a_side(r, x, y, e);
    way_to_side(u, e, x, c.x.0 as int, d.x.0 as int, m, h);
    way_to_side(v, e, y, c.y.0 as int, d.y.0 as int, m, h);
    let z = (u - x) * (u - x) + (v - y) * (v - y);
    let w = way2(a, b, c, d, n, e, m, h);
    let (p, s) = (u - x, v - y);
    assert((p * h) * (p * h) + (s * h) * (s * h) == (p * p + s * s) * (h * h)) by (nonlinear_arith);
    assert(w == z * (h * h));
    let (ff, hh, ee) = (f * f, h * h, e * e);
    assert(ff > 0 && hh > 0 && ee > 0) by (nonlinear_arith)
        requires
            ff == f * f,
            hh == h * h,
            ee == e * e,
            f > 0,
            h > 0,
            e > 0,
    ;
    assert((e * f) * (e * f) == ee * ff) by (nonlinear_arith)
        requires
            ff == f * f,
            ee == e * e,
    ;
    assert((e * h) * (e * h) == ee * hh) by (nonlinear_arith)
        requires
            hh == h * h,
            ee == e * e,
    ;
    assert(k * q >= 0) by (nonlinear_arith)
        requires
            k >= 1,
            q >= 0,
    ;
    let el = ee * ff;
    assert(el > 0) by (nonlinear_arith)
        requires
            el == ee * ff,
            ee > 0,
            ff > 0,
    ;
    if g.up {
        assert(l >= 0) by (nonlinear_arith)
            requires
                0 <= k * q <= l * el,
                el > 0,
        ;
        assert(k * (z * hh) <= l * (ee * hh)) by (nonlinear_arith)
            requires
                z * ff <= q,
                k * q <= l * (ee * ff),
                k >= 1,
                ff > 0,
                hh > 0,
        {
            assert(k * (z * ff) <= k * q);
            assert((k * z) * ff <= (l * ee) * ff);
            assert(k * z <= l * ee);
            assert((k * z) * hh <= (l * ee) * hh);
        }
        assert(as_close_at(a, b, c, d, k, l, n, e, m, h));
    } else {
        assert(l > 0) by (nonlinear_arith)
            requires
                0 <= k * q < l * el,
                el > 0,
        ;
        assert(k * (z * hh) < l * (ee * hh)) by (nonlinear_arith)
            requires
                z * ff <= q,
                k * q < l * (ee * ff),
                k >= 1,
                ff > 0,
                hh > 0,
        {
            assert(k * (z * ff) <= k * q);
            assert((k * z) * ff < (l * ee) * ff);
            assert(k * z < l * ee);
            assert((k * z) * hh < (l * ee) * hh);
        }
        assert(closer_at(a, b, c, d, k, l, n, e, m, h));
    }
    measure_is_distance(g, a, b, c, d, l);
    side_bounds_measure(g, a, b, r, c, d, l);
}

/// Where a segment that starts outside has a point in the rectangle, it has
/// one on a side.
proof fn enters_through_side(a: Point, b: Point, r: Rect, n: int, e: int) -> (at: (int, int))
    requires
        clip_cover::clippable(a, b, r),
        is_share(n, e),
        silk_clip::inside_at(a, b, r, n, e),
        !r.holds(a.x.0 as int, a.y.0 as int),
    ensures
        is_share(at.0, at.1),
        ({
            let x = a.x.0 * at.1 + (b.x.0 - a.x.0) * at.0;
            let y = a.y.0 * at.1 + (b.y.0 - a.y.0) * at.0;
            &&& in_rect(r, x, y, at.1)
            &&& x == r.min.x.0 * at.1 || x == r.max.x.0 * at.1 || y == r.min.y.0 * at.1 || y
                == r.max.y.0 * at.1
        }),
{
    let es = silk_clip::edges(a, b, r);
    let t = silk_clip::interval(es, 4);
    silk_clip::cut_interval_is_exact(a, b, r, n, e);
    silk_clip::interval_is_within(a, b, r);
    clip_cover::ends_are_tight(a, b, r);
    let (n0, d0, n1, d1) = (t.0.n as int, t.0.d as int, t.1.n as int, t.1.d as int);
    assert(n0 <= d0) by (nonlinear_arith)
        requires
            n0 * e <= n * d0,
            n <= e,
            e > 0,
            d0 > 0,
    ;
    assert(n0 * d1 <= n1 * d0) by (nonlinear_arith)
        requires
            n0 * e <= n * d0,
            n * d1 <= n1 * e,
            e > 0,
            d0 > 0,
            d1 > 0,
    {
        assert((n0 * e) * d1 <= (n * d0) * d1);
        assert((n * d1) * d0 <= (n1 * e) * d0);
        assert((n0 * d1) * e <= (n1 * d0) * e);
    }
    silk_clip::cut_interval_is_exact(a, b, r, n0, d0);
    assert(silk_clip::inside_at(a, b, r, n0, d0));
    if t.0 == (silk_clip::Frac { n: 0, d: 1 }) {
        let (ax, ay, ux, uy) = (
            a.x.0 as int,
            a.y.0 as int,
            b.x.0 - a.x.0,
            b.y.0 - a.y.0,
        );
        let (x0, x1, y0, y1) = (
            r.min.x.0 as int,
            r.max.x.0 as int,
            r.min.y.0 as int,
            r.max.y.0 as int,
        );
        assert(ax * d0 + ux * n0 == ax && ay * d0 + uy * n0 == ay && x0 * d0 == x0 && x1 * d0 == x1
            && y0 * d0 == y0 && y1 * d0 == y1) by (nonlinear_arith)
            requires
                n0 == 0,
                d0 == 1,
        ;
        assert(r.holds(ax, ay));
    }
    let i = choose|i: int| 0 <= i < 4 && (#[trigger] es[i]).0 * t.0.n == es[i].1 * t.0.d;
    let (ax, ay, ux, uy) = (a.x.0 as int, a.y.0 as int, b.x.0 - a.x.0, b.y.0 - a.y.0);
    let (x0, x1, y0, y1) = (
        r.min.x.0 as int,
        r.max.x.0 as int,
        r.min.y.0 as int,
        r.max.y.0 as int,
    );
    if i == 0 {
        assert(ax * d0 + ux * n0 == x0 * d0) by (nonlinear_arith)
            requires
                (-ux) * n0 == (ax - x0) * d0,
        ;
    } else if i == 1 {
        assert(ax * d0 + ux * n0 == x1 * d0) by (nonlinear_arith)
            requires
                ux * n0 == (x1 - ax) * d0,
        ;
    } else if i == 2 {
        assert(ay * d0 + uy * n0 == y0 * d0) by (nonlinear_arith)
            requires
                (-uy) * n0 == (ay - y0) * d0,
        ;
    } else {
        assert(ay * d0 + uy * n0 == y1 * d0) by (nonlinear_arith)
            requires
                uy * n0 == (y1 - ay) * d0,
        ;
    }
    (n0, d0)
}

/// A point of the segment near to a point of the rectangle bounds the
/// measure.
proof fn rect_point_bounds_measure(
    g: Gauge,
    a: Point,
    b: Point,
    r: Rect,
    l: int,
    n: int,
    e: int,
    x: int,
    y: int,
    f: int,
)
    requires
        g.scale >= 1,
        clip_cover::clippable(a, b, r),
        is_share(n, e),
        in_rect(r, x, y, f),
        !g.up ==> g.scale * off2(a, b, n, e, x, y, f) < l * ((e * f) * (e * f)),
        g.up ==> g.scale * off2(a, b, n, e, x, y, f) <= l * ((e * f) * (e * f)),
    ensures
        !g.up ==> thermal::rect_measure(g, a, b, r) < l,
        g.up ==> thermal::rect_measure(g, a, b, r) <= l,
{
    let k = g.scale as int;
    let q = off2(a, b, n, e, x, y, f);
    let u = a.x.0 * e + (b.x.0 - a.x.0) * n;
    let v = a.y.0 * e + (b.y.0 - a.y.0) * n;
    let (s, t) = (u * f - x * e, v * f - y * e);
    assert(s * s >= 0 && t * t >= 0) by (nonlinear_arith);
    let w = (e * f) * (e * f);
    assert(w > 0) by (nonlinear_arith)
        requires
            w == (e * f) * (e * f),
            e > 0,
            f > 0,
    ;
    assert(k * q >= 0) by (nonlinear_arith)
        requires
            k >= 1,
            q >= 0,
    ;
    if g.up {
        assert(l >= 0) by (nonlinear_arith)
            requires
                0 <= k * q <= l * w,
                w > 0,
        ;
    } else {
        assert(l > 0) by (nonlinear_arith)
            requires
                0 <= k * q < l * w,
                w > 0,
        ;
    }
    let (x0, x1, y0, y1) = (
        r.min.x.0 as int,
        r.max.x.0 as int,
        r.min.y.0 as int,
        r.max.y.0 as int,
    );
    if r.holds(a.x.0 as int, a.y.0 as int) || r.holds(b.x.0 as int, b.y.0 as int) {
    } else if x0 * e <= u <= x1 * e && y0 * e <= v <= y1 * e {
        let (n1, e1) = enters_through_side(a, b, r, n, e);
        let x2 = a.x.0 * e1 + (b.x.0 - a.x.0) * n1;
        let y2 = a.y.0 * e1 + (b.y.0 - a.y.0) * n1;
        let ee = (e1 * 1) * (e1 * 1);
        assert(ee > 0) by (nonlinear_arith)
            requires
                ee == (e1 * 1) * (e1 * 1),
                e1 > 0,
        ;
        assert((0 * 0 + 0 * 0) * (1 * 1) == 0 && k * 0 == 0) by (nonlinear_arith);
        assert(l > 0 ==> l * ee > 0) by (nonlinear_arith)
            requires
                ee > 0,
        ;
        assert(l >= 0 ==> l * ee >= 0) by (nonlinear_arith)
            requires
                ee > 0,
        ;
        next_to_side(g, a, b, r, l, n1, e1, x2, y2, 0, 1);
    } else {
        clamp_is_nearest(u, e, x0, x1, x, f);
        clamp_is_nearest(v, e, y0, y1, y, f);
        let (x2, y2) = (clamped(u, x0 * e, x1 * e), clamped(v, y0 * e, y1 * e));
        let (p, o, ff) = ((u - x2) * (u - x2), (v - y2) * (v - y2), f * f);
        assert((p + o) * ff == p * ff + o * ff) by (nonlinear_arith);
        next_to_side(g, a, b, r, l, n, e, x2, y2, q, f);
    }
}

/// The same between a segment and a rectangle: the distance that is
/// measured is below a limit exactly if a point of the one and a point of
/// the other are that close.
pub proof fn rect_measure_is_distance(g: Gauge, a: Point, b: Point, r: Rect, l: int)
    requires
        g.scale >= 1,
        r.wf(),
        clip_cover::clippable(a, b, r),
    ensures
        !g.up ==> (thermal::rect_measure(g, a, b, r) < l <==> closer_rect(
            a,
            b,
            r,
            g.scale as int,
            l,
        )),
        g.up ==> (thermal::rect_measure(g, a, b, r) <= l <==> as_close_rect(
            a,
            b,
            r,
            g.scale as int,
            l,
        )),
{
    let k = g.scale as int;
    if !g.up && closer_rect(a, b, r, k, l) {
        let (n, e, x, y, f) = choose|n: int, e: int, x: int, y: int, f: int| #[trigger]
            closer_rect_at(a, b, r, k, l, n, e, x, y, f);
        rect_point_bounds_measure(g, a, b, r, l, n, e, x, y, f);
    }
    if g.up && as_close_rect(a, b, r, k, l) {
        let (n, e, x, y, f) = choose|n: int, e: int, x: int, y: int, f: int| #[trigger]
            as_close_rect_at(a, b, r, k, l, n, e, x, y, f);
        rect_point_bounds_measure(g, a, b, r, l, n, e, x, y, f);
    }
    if (!g.up && thermal::rect_measure(g, a, b, r) < l) || (g.up && thermal::rect_measure(
        g,
        a,
        b,
        r,
    ) <= l) {
        if r.holds(a.x.0 as int, a.y.0 as int) {
            held_end(g, a, b, r, l, a, 0);
        } else if r.holds(b.x.0 as int, b.y.0 as int) {
            held_end(g, a, b, r, l, b, 1);
        } else {
            side_gives_point(g, a, b, r, r.min, thermal::low_right(r), l);
            side_gives_point(g, a, b, r, thermal::low_right(r), r.max, l);
            side_gives_point(g, a, b, r, r.max, thermal::high_left(r), l);
            side_gives_point(g, a, b, r, thermal::high_left(r), r.min, l);
        }
    }
}

proof fn held_end(g: Gauge, a: Point, b: Point, r: Rect, l: int, p: Point, n: int)
    requires
        g.scale >= 1,
        n == 0 && p == a || n == 1 && p == b,
        r.holds(p.x.0 as int, p.y.0 as int),
        !g.up ==> 0 < l,
        g.up ==> 0 <= l,
    ensures
        !g.up ==> closer_rect(a, b, r, g.scale as int, l),
        g.up ==> as_close_rect(a, b, r, g.scale as int, l),
{
    let k = g.scale as int;
    let (ax, ay, bx, by, px, py) = (
        a.x.0 as int,
        a.y.0 as int,
        b.x.0 as int,
        b.y.0 as int,
        p.x.0 as int,
        p.y.0 as int,
    );
    assert((ax * 1 + (bx - ax) * n) * 1 - px * 1 == 0 && (ay * 1 + (by - ay) * n) * 1 - py * 1 == 0)
        by (nonlinear_arith)
        requires
            n == 0 && px == ax && py == ay || n == 1 && px == bx && py == by,
    ;
    assert(0 * 0 == 0 && k * 0 == 0 && (1 * 1) * (1 * 1) == 1 && l * 1 == l) by (nonlinear_arith);
    assert(off2(a, b, n, 1, px, py, 1) == 0);
    assert(in_rect(r, px, py, 1));
    if g.up {
        assert(as_close_rect_at(a, b, r, k, l, n, 1, px, py, 1));
    } else {
        assert(closer_rect_at(a, b, r, k, l, n, 1, px, py, 1));
    }
}

proof fn side_gives_point(g: Gauge, a: Point, b: Point, r: Rect, c: Point, d: Point, l: int)
    requires
        g.scale >= 1,
        r.wf(),
        is_side(r, c, d),
    ensures
        !g.up && thermal::seg_measure(g, a, b, c, d) < l ==> closer_rect(a, b, r, g.scale as int, l),
        g.up && thermal::seg_measure(g, a, b, c, d) <= l ==> as_close_rect(
            a,
            b,
            r,
            g.scale as int,
            l,
        ),
{
    let k = g.scale as int;
    measure_is_distance(g, a, b, c, d, l);
    if !g.up && closer(a, b, c, d, k, l) {
        let (n, e, m, f) = choose|n: int, e: int, m: int, f: int| #[trigger]
            closer_at(a, b, c, d, k, l, n, e, m, f);
        side_is_in_rect(r, c, d, m, f);
        let (x, y) = (c.x.0 * f + (d.x.0 - c.x.0) * m, c.y.0 * f + (d.y.0 - c.y.0) * m);
        assert(off2(a, b, n, e, x, y, f) == way2(a, b, c, d, n, e, m, f));
        assert(closer_rect_at(a, b, r, k, l, n, e, x, y, f));
    }
    if g.up && as_close(a, b, c, d, k, l) {
        let (n, e, m, f) = choose|n: int, e: int, m: int, f: int| #[trigger]
            as_close_at(a, b, c, d, k, l, n, e, m, f);
        side_is_in_rect(r, c, d, m, f);
        let (x, y) = (c.x.0 * f + (d.x.0 - c.x.0) * m, c.y.0 * f + (d.y.0 - c.y.0) * m);
        assert(off2(a, b, n, e, x, y, f) == way2(a, b, c, d, n, e, m, f));
        assert(as_close_rect_at(a, b, r, k, l, n, e, x, y, f));
    }
}

/// The same between two rectangles, with whole points.
pub open spec fn rects_closer_at(a: Rect, b: Rect, l: int, x: int, y: int, u: int, v: int) -> bool {
    a.holds(x, y) && b.holds(u, v) && (x - u) * (x - u) + (y - v) * (y - v) < l
}

/// Some point of the one and some point of the other have their squared
/// distance below `l`.
pub open spec fn rects_closer(a: Rect, b: Rect, l: int) -> bool {
    exists|x: int, y: int, u: int, v: int| #[trigger] rects_closer_at(a, b, l, x, y, u, v)
}

/// On one axis: the gap between two intervals, and points at its ends.
proof fn gap_between(lo: int, hi: int, c: int, d: int) -> (at: (int, int))
    requires
        lo <= hi,
        c <= d,
    ensures
        lo <= at.0 <= hi,
        c <= at.1 <= d,
        units::max(units::max(c - hi, lo - d), 0) == units::abs(at.0 - at.1),
        forall|x: int, u: int|
            lo <= x <= hi && c <= u <= d ==> units::abs(at.0 - at.1) <= units::abs(#[trigger] (x - u)),
{
    if c > hi {
        (hi, c)
    } else if lo > d {
        (lo, d)
    } else if lo >= c {
        (lo, lo)
    } else {
        (c, c)
    }
}

proof fn square_grows(a: int, b: int)
    requires
        units::abs(a) <= units::abs(b),
    ensures
        a * a <= b * b,
        units::abs(a) * units::abs(a) == a * a,
{
    let (x, y) = (units::abs(a), units::abs(b));
    assert(x * x <= y * y) by (nonlinear_arith)
        requires
            0 <= x <= y,
    ;
    assert((-a) * (-a) == a * a && (-b) * (-b) == b * b) by (nonlinear_arith);
}

/// The squared gap of two rectangles is below a limit exactly if a point of
/// the one and a point of the other are that close.
pub proof fn rect_gap_is_distance(a: Rect, b: Rect, l: int)
    requires
        a.wf(),
        b.wf(),
    ensures
        crate::drc::rect_gap2(a, b) < l <==> rects_closer(a, b, l),
{
    let (x, u) = gap_between(
        a.min.x.0 as int,
        a.max.x.0 as int,
        b.min.x.0 as int,
        b.max.x.0 as int,
    );
    let (y, v) = gap_between(
        a.min.y.0 as int,
        a.max.y.0 as int,
        b.min.y.0 as int,
        b.max.y.0 as int,
    );
    square_grows(x - u, x - u);
    square_grows(y - v, y - v);
    if crate::drc::rect_gap2(a, b) < l {
        assert(rects_closer_at(a, b, l, x, y, u, v));
    }
    if rects_closer(a, b, l) {
        let (x1, y1, u1, v1) = choose|x1: int, y1: int, u1: int, v1: int| #[trigger]
            rects_closer_at(a, b, l, x1, y1, u1, v1);
        square_grows(x - u, x1 - u1);
        square_grows(y - v, y1 - v1);
    }
}

} // verus!
