//! What the distances between points and segments say of contact.

use vstd::prelude::*;

use crate::arith;
use crate::board;
use crate::drc;
use crate::geometry::Point;
use crate::thermal;
use crate::thermal::Gauge;
use crate::units;

verus! {

/// The point `n / e` of the way along `a`-`b` is the point `m / f` of the
/// way along `c`-`d`.
pub open spec fn same_point(
    a: Point,
    b: Point,
    c: Point,
    d: Point,
    n: int,
    e: int,
    m: int,
    f: int,
) -> bool {
    &&& 0 <= n <= e && 0 < e
    &&& 0 <= m <= f && 0 < f
    &&& (a.x.0 * e + (b.x.0 - a.x.0) * n) * f == (c.x.0 * f + (d.x.0 - c.x.0) * m) * e
    &&& (a.y.0 * e + (b.y.0 - a.y.0) * n) * f == (c.y.0 * f + (d.y.0 - c.y.0) * m) * e
}

/// The closed segments have a point in common.
pub open spec fn touch(a: Point, b: Point, c: Point, d: Point) -> bool {
    exists|n: int, e: int, m: int, f: int| #[trigger] same_point(a, b, c, d, n, e, m, f)
}

/// Whether two segments cross or touch does not depend on which of the two,
/// or which end of them, comes first.
pub proof fn crossing_is_symmetric(a: Point, b: Point, c: Point, d: Point)
    ensures
        thermal::crossing(a, b, c, d) == thermal::crossing(c, d, a, b),
        thermal::crossing(a, b, c, d) == thermal::crossing(b, a, c, d),
{
    let (x, y) = (b.x.0 - a.x.0, b.y.0 - a.y.0);
    flipped(x, y, c.x.0 - a.x.0, c.y.0 - a.y.0);
    flipped(x, y, d.x.0 - a.x.0, d.y.0 - a.y.0);
}

proof fn flipped(x: int, y: int, u: int, v: int)
    ensures
        (-x) * (v - y) - (-y) * (u - x) == -(x * v - y * u),
{
    assert((-x) * (v - y) == -(x * v) + x * y) by (nonlinear_arith);
    assert((-y) * (u - x) == -(y * u) + x * y) by (nonlinear_arith);
}

/// The distance from a point to a segment of one point is the distance
/// between the two points, the ends of a segment are on it, and no squared
/// distance is negative.
pub proof fn point_distances(a: Point, b: Point, p: Point)
    ensures
        thermal::pt_dist2(a, a, p) == board::sq(p.x.0 - a.x.0) + board::sq(p.y.0 - a.y.0),
        thermal::pt_dist2(a, b, p) >= 0,
        thermal::pt_dist2(a, b, a) == 0,
        thermal::pt_dist2(a, b, b) == 0,
{
    thermal::measure_range(thermal::whole(), a, b, p);
    assert(0 * 0 == 0) by (nonlinear_arith);
    let (x, y) = (b.x.0 - a.x.0, b.y.0 - a.y.0);
    assert(0 * x == 0 && 0 * y == 0) by (nonlinear_arith);
    assert(x * x >= 0 && y * y >= 0) by (nonlinear_arith);
    if thermal::span2(a, b) == 0 {
        assert(x * x == 0 && y * y == 0);
    }
}

/// The distance between two segments does not depend on which comes first.
pub proof fn distance_is_symmetric(g: Gauge, a: Point, b: Point, c: Point, d: Point)
    ensures
        thermal::seg_measure(g, a, b, c, d) == thermal::seg_measure(g, c, d, a, b),
{
    crossing_is_symmetric(a, b, c, d);
}

/// Along a line, the parts of a step are in proportion to the dot product.
proof fn in_proportion(a: Point, b: Point, p: Point)
    requires
        thermal::cross(a, b, p) == 0,
    ensures
        (p.x.0 - a.x.0) * thermal::span2(a, b) == (b.x.0 - a.x.0) * thermal::along(a, b, p),
        (p.y.0 - a.y.0) * thermal::span2(a, b) == (b.y.0 - a.y.0) * thermal::along(a, b, p),
{
    let (x, y) = (b.x.0 - a.x.0, b.y.0 - a.y.0);
    let (u, v) = (p.x.0 - a.x.0, p.y.0 - a.y.0);
    assert(x * v == y * u);
    assert(u * (x * x + y * y) == x * (u * x + v * y)) by (nonlinear_arith)
        requires
            x * v == y * u,
    ;
    assert(v * (x * x + y * y) == y * (u * x + v * y)) by (nonlinear_arith)
        requires
            x * v == y * u,
    ;
}

/// A step `u` that is the part `t` of `d` of a step `x` is inside it.
proof fn part_of_step(u: int, x: int, t: int, d: int)
    requires
        0 < d,
        0 <= t <= d,
        u * d == x * t,
    ensures
        units::min(0, x) <= u <= units::max(0, x),
{
    if x >= 0 {
        assert(0 <= u <= x) by (nonlinear_arith)
            requires
                0 < d,
                0 <= t <= d,
                u * d == x * t,
                x >= 0,
        ;
    } else {
        assert(x <= u <= 0) by (nonlinear_arith)
            requires
                0 < d,
                0 <= t <= d,
                u * d == x * t,
                x < 0,
        ;
    }
}

/// A point at no distance from a segment is on it.
proof fn at_no_distance(a: Point, b: Point, p: Point)
    requires
        thermal::pt_dist2(a, b, p) == 0,
    ensures
        thermal::cross(a, b, p) == 0,
        thermal::boxed(a, b, p),
{
    let (x, y) = (b.x.0 - a.x.0, b.y.0 - a.y.0);
    let (u, v) = (p.x.0 - a.x.0, p.y.0 - a.y.0);
    let d = thermal::span2(a, b);
    let t = thermal::along(a, b, p);
    assert(x * x >= 0 && y * y >= 0) by (nonlinear_arith);
    if d == 0 || t <= 0 {
        no_length(u, v);
        assert(x * 0 == 0 && y * 0 == 0) by (nonlinear_arith);
    } else if t >= d {
        no_length(p.x.0 - b.x.0, p.y.0 - b.y.0);
        assert(x * y == y * x) by (nonlinear_arith);
    } else {
        let c = thermal::cross(a, b, p);
        assert(1 * (c * c) == c * c) by (nonlinear_arith);
        arith::rounding_is_exact(c * c, d, 0);
        assert(0 * d == 0) by (nonlinear_arith);
        assert(c == 0) by (nonlinear_arith)
            requires
                c * c <= 0,
        ;
        in_proportion(a, b, p);
        part_of_step(u, x, t, d);
        part_of_step(v, y, t, d);
    }
}

proof fn no_length(u: int, v: int)
    requires
        u * u + v * v == 0,
    ensures
        u == 0,
        v == 0,
{
    assert(u * u >= 0 && v * v >= 0) by (nonlinear_arith);
    assert(u == 0) by (nonlinear_arith)
        requires
            u * u == 0,
    ;
    assert(v == 0) by (nonlinear_arith)
        requires
            v * v == 0,
    ;
}

/// A point in line with a segment and in its box is part of the way along.
proof fn way_along(a: Point, b: Point, p: Point) -> (r: (int, int))
    requires
        thermal::cross(a, b, p) == 0,
        thermal::boxed(a, b, p),
    ensures
        0 <= r.0 <= r.1,
        0 < r.1,
        (p.x.0 - a.x.0) * r.1 == (b.x.0 - a.x.0) * r.0,
        (p.y.0 - a.y.0) * r.1 == (b.y.0 - a.y.0) * r.0,
{
    let (x, y) = (b.x.0 - a.x.0, b.y.0 - a.y.0);
    let (u, v) = (p.x.0 - a.x.0, p.y.0 - a.y.0);
    if thermal::span2(a, b) == 0 {
        no_length(x, y);
        (0, 1)
    } else {
        in_proportion(a, b, p);
        assert(0 <= u * x <= x * x) by (nonlinear_arith)
            requires
                0 <= u <= x || x <= u <= 0,
        ;
        assert(0 <= v * y <= y * y) by (nonlinear_arith)
            requires
                0 <= v <= y || y <= v <= 0,
        ;
        (thermal::along(a, b, p), thermal::span2(a, b))
    }
}

/// The coordinate part of `same_point`, as an equation of steps.
proof fn steps_meet(a: int, u: int, n: int, e: int, c: int, v: int, m: int, f: int)
    ensures
        (a * e + u * n) * f == (c * f + v * m) * e <==> (c - a) * (e * f) == u * (n * f) - v * (m
            * e),
{
    assert((a * e + u * n) * f == a * (e * f) + u * (n * f)) by (nonlinear_arith);
    assert((c * f + v * m) * e == c * (e * f) + v * (m * e)) by (nonlinear_arith);
    assert((c - a) * (e * f) == c * (e * f) - a * (e * f)) by (nonlinear_arith);
}

/// The four areas that decide a crossing, by the steps `u` and `v` of the
/// segments and the step `w` between their starts.
proof fn areas(a: Point, b: Point, c: Point, d: Point)
    ensures
        ({
            let (ux, uy) = (b.x.0 - a.x.0, b.y.0 - a.y.0);
            let (vx, vy) = (d.x.0 - c.x.0, d.y.0 - c.y.0);
            let (wx, wy) = (c.x.0 - a.x.0, c.y.0 - a.y.0);
            let k = ux * vy - uy * vx;
            &&& thermal::cross(c, d, a) == wx * vy - wy * vx
            &&& thermal::cross(c, d, b) == thermal::cross(c, d, a) - k
            &&& thermal::cross(a, b, c) == ux * wy - uy * wx
            &&& thermal::cross(a, b, d) == thermal::cross(a, b, c) + k
        }),
{
    let (ux, uy) = (b.x.0 - a.x.0, b.y.0 - a.y.0);
    let (vx, vy) = (d.x.0 - c.x.0, d.y.0 - c.y.0);
    let (wx, wy) = (c.x.0 - a.x.0, c.y.0 - a.y.0);
    assert(vx * (-wy) - vy * (-wx) == wx * vy - wy * vx) by (nonlinear_arith);
    assert(vx * (uy - wy) - vy * (ux - wx) == (wx * vy - wy * vx) - (ux * vy - uy * vx))
        by (nonlinear_arith);
    assert(ux * (wy + vy) - uy * (wx + vx) == (ux * wy - uy * wx) + (ux * vy - uy * vx))
        by (nonlinear_arith);
    assert(b.y.0 - c.y.0 == uy - wy && b.x.0 - c.x.0 == ux - wx);
    assert(d.y.0 - a.y.0 == wy + vy && d.x.0 - a.x.0 == wx + vx);
}

/// The steps between the starts, in terms of the areas.
proof fn step_by_areas(ux: int, uy: int, vx: int, vy: int, wx: int, wy: int)
    ensures
        wx * (ux * vy - uy * vx) == ux * (wx * vy - wy * vx) + vx * (ux * wy - uy * wx),
        wy * (ux * vy - uy * vx) == uy * (wx * vy - wy * vx) + vy * (ux * wy - uy * wx),
{
    assert(wx * (ux * vy - uy * vx) == ux * (wx * vy - wy * vx) + vx * (ux * wy - uy * wx))
        by (nonlinear_arith);
    assert(wy * (ux * vy - uy * vx) == uy * (wx * vy - wy * vx) + vy * (ux * wy - uy * wx))
        by (nonlinear_arith);
}

/// From `w * k == u * p + v * q` to the equation of steps over `k`.
proof fn steps_over(u: int, v: int, w: int, k: int, p: int, q: int)
    requires
        w * k == u * p + v * q,
    ensures
        w * (k * k) == u * (p * k) - v * (-q * k),
        w * (-k * -k) == u * (-p * -k) - v * (q * -k),
{
    assert(w * (k * k) == u * (p * k) - v * (-q * k)) by (nonlinear_arith)
        requires
            w * k == u * p + v * q,
    ;
    assert(-k * -k == k * k && -p * -k == p * k && q * -k == -q * k) by (nonlinear_arith);
}

pub proof fn crossing_segments_touch(a: Point, b: Point, c: Point, d: Point)
    requires
        thermal::crossing(a, b, c, d),
    ensures
        touch(a, b, c, d),
{
    let (ux, uy) = (b.x.0 - a.x.0, b.y.0 - a.y.0);
    let (vx, vy) = (d.x.0 - c.x.0, d.y.0 - c.y.0);
    let (wx, wy) = (c.x.0 - a.x.0, c.y.0 - a.y.0);
    let d1 = thermal::cross(c, d, a);
    let d3 = thermal::cross(a, b, c);
    let k = ux * vy - uy * vx;
    areas(a, b, c, d);
    if d1 == 0 && thermal::boxed(c, d, a) {
        let (m, f) = way_along(c, d, a);
        ends_meet(ux, wx, vx, 0, 1, m, f);
        ends_meet(uy, wy, vy, 0, 1, m, f);
        meet_at(a, b, c, d, 0, 1, m, f);
    } else if thermal::cross(c, d, b) == 0 && thermal::boxed(c, d, b) {
        let (m, f) = way_along(c, d, b);
        ends_meet(ux, wx, vx, 1, 1, m, f);
        ends_meet(uy, wy, vy, 1, 1, m, f);
        meet_at(a, b, c, d, 1, 1, m, f);
    } else if d3 == 0 && thermal::boxed(a, b, c) {
        let (n, e) = way_along(a, b, c);
        starts_meet(ux, wx, vx, n, e, 0);
        starts_meet(uy, wy, vy, n, e, 0);
        meet_at(a, b, c, d, n, e, 0, 1);
    } else if thermal::cross(a, b, d) == 0 && thermal::boxed(a, b, d) {
        let (n, e) = way_along(a, b, d);
        starts_meet(ux, wx, vx, n, e, 1);
        starts_meet(uy, wy, vy, n, e, 1);
        meet_at(a, b, c, d, n, e, 1, 1);
    } else {
        step_by_areas(ux, uy, vx, vy, wx, wy);
        steps_over(ux, vx, wx, k, d1, d3);
        steps_over(uy, vy, wy, k, d1, d3);
        if k > 0 {
            meet_at(a, b, c, d, d1, k, -d3, k);
        } else {
            meet_at(a, b, c, d, -d1, -k, d3, -k);
        }
    }
}

/// The end of a step `u` after `n` of one part is `m` of `f` along `v`.
proof fn ends_meet(u: int, w: int, v: int, n: int, e: int, m: int, f: int)
    requires
        e == 1,
        (u * n - w) * f == v * m,
    ensures
        w * (e * f) == u * (n * f) - v * (m * e),
{
    assert(w * (e * f) == u * (n * f) - v * (m * e)) by (nonlinear_arith)
        requires
            e == 1,
            (u * n - w) * f == v * m,
    ;
}

proof fn starts_meet(u: int, w: int, v: int, n: int, e: int, m: int)
    requires
        (w + v * m) * e == u * n,
    ensures
        w * (e * 1) == u * (n * 1) - v * (m * e),
{
    assert(w * (e * 1) == u * (n * 1) - v * (m * e)) by (nonlinear_arith)
        requires
            (w + v * m) * e == u * n,
    ;
}

proof fn meet_at(a: Point, b: Point, c: Point, d: Point, n: int, e: int, m: int, f: int)
    requires
        0 <= n <= e,
        0 < e,
        0 <= m <= f,
        0 < f,
        (c.x.0 - a.x.0) * (e * f) == (b.x.0 - a.x.0) * (n * f) - (d.x.0 - c.x.0) * (m * e),
        (c.y.0 - a.y.0) * (e * f) == (b.y.0 - a.y.0) * (n * f) - (d.y.0 - c.y.0) * (m * e),
    ensures
        touch(a, b, c, d),
{
    let (ux, uy) = (b.x.0 - a.x.0, b.y.0 - a.y.0);
    let (vx, vy) = (d.x.0 - c.x.0, d.y.0 - c.y.0);
    steps_meet(a.x.0 as int, ux, n, e, c.x.0 as int, vx, m, f);
    steps_meet(a.y.0 as int, uy, n, e, c.y.0 as int, vy, m, f);
    assert(same_point(a, b, c, d, n, e, m, f));
}

/// What the equation of steps says of the areas: `p` and `q` are those of
/// the step between the starts with the two segments, `k` that of the
/// segments with each other.
proof fn areas_at(
    ux: int,
    uy: int,
    vx: int,
    vy: int,
    wx: int,
    wy: int,
    n: int,
    e: int,
    m: int,
    f: int,
)
    requires
        0 < e,
        0 < f,
        wx * (e * f) == ux * (n * f) - vx * (m * e),
        wy * (e * f) == uy * (n * f) - vy * (m * e),
    ensures
        e * (wx * vy - wy * vx) == n * (ux * vy - uy * vx),
        f * (ux * wy - uy * wx) == -(m * (ux * vy - uy * vx)),
{
    let k = ux * vy - uy * vx;
    let p = wx * vy - wy * vx;
    let q = ux * wy - uy * wx;
    let (g, h, i) = (e * f, n * f, m * e);
    assert((wx * g) * vy - (wy * g) * vx == g * p) by (nonlinear_arith)
        requires
            p == wx * vy - wy * vx,
    ;
    assert((ux * h - vx * i) * vy - (uy * h - vy * i) * vx == h * k) by (nonlinear_arith)
        requires
            k == ux * vy - uy * vx,
    ;
    assert(ux * (wy * g) - uy * (wx * g) == g * q) by (nonlinear_arith)
        requires
            q == ux * wy - uy * wx,
    ;
    assert(ux * (uy * h - vy * i) - uy * (ux * h - vx * i) == -(i * k)) by (nonlinear_arith)
        requires
            k == ux * vy - uy * vx,
    ;
    assert(e * p == n * k) by (nonlinear_arith)
        requires
            (e * f) * p == (n * f) * k,
            0 < f,
    ;
    assert(f * q == -(m * k)) by (nonlinear_arith)
        requires
            (e * f) * q == -((m * e) * k),
            0 < e,
    ;
}

/// A step `w` over `e * f` that starts at the first segment's `n`-th part
/// comes down to one over `f` where that part is an end.
proof fn step_from_end(u: int, v: int, w: int, n: int, e: int, m: int, f: int)
    requires
        0 < e,
        0 < f,
        w * (e * f) == u * (n * f) - v * (m * e),
    ensures
        u * n == 0 ==> (0 - w) * f == v * m,
        n == e ==> (u - w) * f == v * m,
        v * m == 0 ==> w * e == u * n,
        m == f ==> (w + v) * e == u * n,
{
    if u * n == 0 {
        assert((0 - w) * f == v * m) by (nonlinear_arith)
            requires
                0 < e,
                u * n == 0,
                w * (e * f) == u * (n * f) - v * (m * e),
        ;
    }
    if n == e {
        assert((u - w) * f == v * m) by (nonlinear_arith)
            requires
                0 < e,
                n == e,
                w * (e * f) == u * (n * f) - v * (m * e),
        ;
    }
    if v * m == 0 {
        assert(w * e == u * n) by (nonlinear_arith)
            requires
                0 < f,
                v * m == 0,
                w * (e * f) == u * (n * f) - v * (m * e),
        ;
    }
    if m == f {
        assert((w + v) * e == u * n) by (nonlinear_arith)
            requires
                0 < f,
                m == f,
                w * (e * f) == u * (n * f) - v * (m * e),
        ;
    }
}

/// Two ranges from `0` by `u` and from `w` by `v` that have a point in
/// common: the start or the end of one is in the other.
proof fn ranges_overlap(u: int, v: int, w: int, n: int, e: int, m: int, f: int)
    requires
        0 <= n <= e,
        0 < e,
        0 <= m <= f,
        0 < f,
        w * (e * f) == u * (n * f) - v * (m * e),
    ensures
        ({
            let (lo, hi) = (units::min(0, u), units::max(0, u));
            let (low, high) = (units::min(w, w + v), units::max(w, w + v));
            lo <= low <= hi || low <= lo <= high
        }),
{
    let g = e * f;
    let (h, i) = (n * f, m * e);
    assert(0 < g && 0 <= h <= g && 0 <= i <= g) by (nonlinear_arith)
        requires
            0 <= n <= e,
            0 < e,
            0 <= m <= f,
            0 < f,
            g == e * f,
            h == n * f,
            i == m * e,
    ;
    let (lo, hi) = (units::min(0, u), units::max(0, u));
    let (low, high) = (units::min(w, w + v), units::max(w, w + v));
    assert(lo * g <= u * h <= hi * g) by (nonlinear_arith)
        requires
            0 <= h <= g,
            lo == if 0 <= u { 0 } else { u },
            hi == if 0 <= u { u } else { 0 },
    ;
    assert(low * g <= w * g + v * i <= high * g) by (nonlinear_arith)
        requires
            0 <= i <= g,
            low == if w <= w + v { w } else { w + v },
            high == if w <= w + v { w + v } else { w },
    ;
    assert(lo <= high) by (nonlinear_arith)
        requires
            lo * g <= high * g,
            0 < g,
    ;
    assert(low <= hi) by (nonlinear_arith)
        requires
            low * g <= hi * g,
            0 < g,
    ;
}

/// A point in line with a segment that is in its range on an axis on which
/// the segment has an extent is in its box.
proof fn in_range_is_boxed(a: Point, b: Point, p: Point)
    requires
        thermal::cross(a, b, p) == 0,
        a.x.0 != b.x.0 && units::min(a.x.0 as int, b.x.0 as int) <= p.x.0 <= units::max(
            a.x.0 as int,
            b.x.0 as int,
        ) || a.y.0 != b.y.0 && units::min(a.y.0 as int, b.y.0 as int) <= p.y.0 <= units::max(
            a.y.0 as int,
            b.y.0 as int,
        ),
    ensures
        thermal::boxed(a, b, p),
{
    let (x, y) = (b.x.0 - a.x.0, b.y.0 - a.y.0);
    let (u, v) = (p.x.0 - a.x.0, p.y.0 - a.y.0);
    assert(x * v == y * u);
    assert(v * x == y * u && u * y == x * v) by (nonlinear_arith)
        requires
            x * v == y * u,
    ;
    assert(v * (-x) == y * (-u) && u * (-y) == x * (-v)) by (nonlinear_arith)
        requires
            x * v == y * u,
    ;
    if x != 0 && units::min(0, x) <= u <= units::max(0, x) {
        if x > 0 {
            part_of_step(v, y, u, x);
        } else {
            part_of_step(v, y, -u, -x);
        }
    } else {
        if y > 0 {
            part_of_step(u, x, v, y);
        } else {
            part_of_step(u, x, -v, -y);
        }
    }
}

pub proof fn touching_segments_cross(
    a: Point,
    b: Point,
    c: Point,
    d: Point,
    n: int,
    e: int,
    m: int,
    f: int,
)
    requires
        same_point(a, b, c, d, n, e, m, f),
    ensures
        thermal::crossing(a, b, c, d),
{
    let (ux, uy) = (b.x.0 - a.x.0, b.y.0 - a.y.0);
    let (vx, vy) = (d.x.0 - c.x.0, d.y.0 - c.y.0);
    let (wx, wy) = (c.x.0 - a.x.0, c.y.0 - a.y.0);
    let k = ux * vy - uy * vx;
    let d1 = thermal::cross(c, d, a);
    let d3 = thermal::cross(a, b, c);
    areas(a, b, c, d);
    steps_meet(a.x.0 as int, ux, n, e, c.x.0 as int, vx, m, f);
    steps_meet(a.y.0 as int, uy, n, e, c.y.0 as int, vy, m, f);
    areas_at(ux, uy, vx, vy, wx, wy, n, e, m, f);
    step_from_end(ux, vx, wx, n, e, m, f);
    step_from_end(uy, vy, wy, n, e, m, f);
    assert(ux * 0 == 0 && uy * 0 == 0 && vx * 0 == 0 && vy * 0 == 0 && 0 * n == 0 && 0 * m == 0
        && 0 * k == 0) by (nonlinear_arith);
    assert(n == e ==> d1 == k) by (nonlinear_arith)
        requires
            e * d1 == n * k,
            0 < e,
    ;
    assert(m == f ==> d3 == -k) by (nonlinear_arith)
        requires
            f * d3 == -(m * k),
            0 < f,
    ;
    if n == 0 || k == 0 {
        nothing_left(e, d1);
    }
    if m == 0 || k == 0 {
        nothing_left(f, d3);
    }
    if n == 0 || (ux == 0 && uy == 0) {
        part_of_step(-wx, vx, m, f);
        part_of_step(-wy, vy, m, f);
        assert(thermal::boxed(c, d, a));
        if n != 0 {
            assert(0 * vy == 0 && 0 * vx == 0) by (nonlinear_arith);
        }
    } else if n == e {
        part_of_step(ux - wx, vx, m, f);
        part_of_step(uy - wy, vy, m, f);
        assert(thermal::boxed(c, d, b));
    } else if m == 0 || (vx == 0 && vy == 0) {
        part_of_step(wx, ux, n, e);
        part_of_step(wy, uy, n, e);
        assert(thermal::boxed(a, b, c));
        if m != 0 {
            assert(ux * 0 == 0 && uy * 0 == 0) by (nonlinear_arith);
        }
    } else if m == f {
        part_of_step(wx + vx, ux, n, e);
        part_of_step(wy + vy, uy, n, e);
        assert(thermal::boxed(a, b, d));
    } else if k != 0 {
        straddles(d1, k, n, e);
        assert(f * (-d3) == -(f * d3)) by (nonlinear_arith);
        straddles(-d3, k, m, f);
    } else {
        ranges_overlap(ux, vx, wx, n, e, m, f);
        ranges_overlap(uy, vy, wy, n, e, m, f);
        lines_agree(ux, uy, vx, vy);
        if ux != 0 {
            let low = units::min(wx, wx + vx);
            if units::min(0, ux) <= low <= units::max(0, ux) {
                if low == wx {
                    in_range_is_boxed(a, b, c);
                } else {
                    in_range_is_boxed(a, b, d);
                }
            } else if 0 <= ux {
                in_range_is_boxed(c, d, a);
            } else {
                in_range_is_boxed(c, d, b);
            }
        } else {
            let low = units::min(wy, wy + vy);
            if units::min(0, uy) <= low <= units::max(0, uy) {
                if low == wy {
                    in_range_is_boxed(a, b, c);
                } else {
                    in_range_is_boxed(a, b, d);
                }
            } else if 0 <= uy {
                in_range_is_boxed(c, d, a);
            } else {
                in_range_is_boxed(c, d, b);
            }
        }
    }
}

proof fn nothing_left(e: int, x: int)
    requires
        0 < e,
        e * x == 0,
    ensures
        x == 0,
{
    assert(x == 0) by (nonlinear_arith)
        requires
            0 < e,
            e * x == 0,
    ;
}

/// A proper part of `k` is not zero, and has its sign but not that of what
/// is missing.
proof fn straddles(x: int, k: int, n: int, e: int)
    requires
        0 < n < e,
        k != 0,
        e * x == n * k,
    ensures
        x != 0,
        x - k != 0,
        (x > 0) == (k > 0),
        (x - k > 0) != (k > 0),
{
    if k > 0 {
        assert(0 < x < k) by (nonlinear_arith)
            requires
                0 < n < e,
                k > 0,
                e * x == n * k,
        ;
    } else {
        assert(k < x < 0) by (nonlinear_arith)
            requires
                0 < n < e,
                k < 0,
                e * x == n * k,
        ;
    }
}

/// Parallel steps that are not nothing have an extent on the same axes.
proof fn lines_agree(ux: int, uy: int, vx: int, vy: int)
    requires
        ux * vy == uy * vx,
        ux != 0 || uy != 0,
        vx != 0 || vy != 0,
    ensures
        ux != 0 ==> vx != 0,
        ux == 0 ==> uy != 0 && vy != 0,
{
    if ux != 0 && vx == 0 {
        assert(ux * vy != 0) by (nonlinear_arith)
            requires
                ux != 0,
                vy != 0,
        ;
        assert(uy * 0 == 0) by (nonlinear_arith);
    }
    if ux == 0 && vy == 0 {
        assert(uy * vx != 0) by (nonlinear_arith)
            requires
                uy != 0,
                vx != 0,
        ;
        assert(0 * vy == 0) by (nonlinear_arith);
    }
}

/// Two segments are at no distance exactly if they have a point in common,
/// and no squared distance is negative.
pub proof fn no_distance_means_touching(a: Point, b: Point, c: Point, d: Point)
    ensures
        0 <= thermal::seg_dist2(a, b, c, d),
        thermal::seg_dist2(a, b, c, d) == 0 <==> touch(a, b, c, d),
{
    let g = thermal::whole();
    thermal::measure_range(g, a, b, c);
    thermal::measure_range(g, a, b, d);
    thermal::measure_range(g, c, d, a);
    thermal::measure_range(g, c, d, b);
    if thermal::crossing(a, b, c, d) {
        crossing_segments_touch(a, b, c, d);
    } else {
        if thermal::pt_dist2(a, b, c) == 0 {
            at_no_distance(a, b, c);
        }
        if thermal::pt_dist2(a, b, d) == 0 {
            at_no_distance(a, b, d);
        }
        if thermal::pt_dist2(c, d, a) == 0 {
            at_no_distance(c, d, a);
        }
        if thermal::pt_dist2(c, d, b) == 0 {
            at_no_distance(c, d, b);
        }
        if touch(a, b, c, d) {
            let (n, e, m, f) = choose|n: int, e: int, m: int, f: int|
                #[trigger] same_point(a, b, c, d, n, e, m, f);
            touching_segments_cross(a, b, c, d, n, e, m, f);
        }
    }
}

/// Beside a segment, between its ends, contact is decided exactly: the gap
/// is at most a nanometre exactly if the distance is no more than half the
/// widths and a nanometre.
pub proof fn contact_is_exact(a: Point, b: Point, p: Point, widths: int)
    requires
        0 < thermal::along(a, b, p) < thermal::span2(a, b),
        0 <= widths,
    ensures
        ({
            let c = thermal::cross(a, b, p);
            let q = thermal::pt_measure(drc::contact(), a, b, p);
            drc::meets(q, widths) <==> 4 * (c * c) <= (widths + 2) * (widths + 2) * thermal::span2(
                a,
                b,
            )
        }),
{
    let c = thermal::cross(a, b, p);
    let x = 2 + widths;
    arith::rounding_is_exact(4 * (c * c), thermal::span2(a, b), x * x);
}

} // verus!
