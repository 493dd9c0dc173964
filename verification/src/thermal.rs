//! Thermal-relief spokes: which copper bars may join a pad to the pour
//! around it without coming too close to another net.

use vstd::prelude::*;

use crate::arith;
use crate::arith::square_over;
use crate::board;
use crate::board::{Board, CopperLayer, Footprint, Id, Pad, Trace, Via, has_net};
use crate::geometry::{Point, Rect};
use crate::rotation;
use crate::rotation::{COORD_MAX, SIN_MIN, UNIT, round_div, sin_of};
use crate::routing::has_id;
use crate::text::str_eq;
use crate::units;
use crate::units::Length;

verus! {

/// Copper clearance of a spoke, 0.2 mm.
pub const POUR_CLEARANCE: i64 = 200_000;

/// How far a spoke reaches into the pad, 0.05 mm.
pub const SPOKE_OVERLAP: i64 = 50_000;

/// The number of directions of the last-resort sweep, two degrees apart.
pub const STEPS: usize = 180;

pub open spec fn in_reach(p: Point) -> bool {
    p.within(64 * COORD_MAX)
}

/// Squared distance between two points.
pub open spec fn span2(a: Point, b: Point) -> int {
    board::sq(b.x.0 - a.x.0) + board::sq(b.y.0 - a.y.0)
}

/// `k` times the squared distance between the points is a machine number.
pub open spec fn fits(k: int, a: Point, b: Point) -> bool {
    k * span2(a, b) <= i128::MAX
}

/// So it is for any two of the four points.
pub open spec fn all_fit(k: int, a: Point, b: Point, c: Point, d: Point) -> bool {
    &&& fits(k, a, b)
    &&& fits(k, a, c)
    &&& fits(k, a, d)
    &&& fits(k, b, c)
    &&& fits(k, b, d)
    &&& fits(k, c, d)
}

/// How a squared distance is given as a whole number: how often it is
/// taken, and whether it is rounded up or down.
#[derive(Debug, Clone, Copy)]
pub struct Gauge {
    pub scale: i64,
    pub up: bool,
}

impl Gauge {
    pub open spec fn wf(self) -> bool {
        1 <= self.scale <= 4
    }
}

/// The squared distance itself, rounded up: it is zero on contact only.
pub open spec fn whole() -> Gauge {
    Gauge { scale: 1, up: true }
}

/// The squared distance rounded down: it is below a limit exactly if the
/// distance is.
pub open spec fn floor() -> Gauge {
    Gauge { scale: 1, up: false }
}

/// How far along `a`-`b` the point `p` is, as a dot product.
pub open spec fn along(a: Point, b: Point, p: Point) -> int {
    (p.x.0 - a.x.0) * (b.x.0 - a.x.0) + (p.y.0 - a.y.0) * (b.y.0 - a.y.0)
}

/// Squared distance from `p` to segment `a`-`b`: to the nearer end beyond
/// the ends, and between them the square of `cross` over that of the length.
pub open spec fn pt_measure(g: Gauge, a: Point, b: Point, p: Point) -> int {
    if span2(a, b) == 0 || along(a, b, p) <= 0 {
        g.scale * span2(a, p)
    } else if along(a, b, p) >= span2(a, b) {
        g.scale * span2(b, p)
    } else {
        let c = cross(a, b, p);
        arith::share(g.scale * (c * c), span2(a, b), g.up)
    }
}

/// Squared distance from `p` to segment `a`-`b`, rounded up.
pub open spec fn pt_dist2(a: Point, b: Point, p: Point) -> int {
    pt_measure(whole(), a, b, p)
}

proof fn span_flips(a: Point, b: Point)
    ensures
        span2(a, b) == span2(b, a),
        0 <= span2(a, b),
{
    let x = b.x.0 - a.x.0;
    let y = b.y.0 - a.y.0;
    assert(x * x == (-x) * (-x) && y * y == (-y) * (-y)) by (nonlinear_arith);
    assert(x * x >= 0 && y * y >= 0) by (nonlinear_arith);
}

/// Points in reach of each other are close enough for every scale.
proof fn reach_fits(g: Gauge, a: Point, b: Point)
    requires
        in_reach(a),
        in_reach(b),
        g.wf(),
    ensures
        0 <= g.scale * span2(a, b) <= 0x100_0000_0000_0000_0000_0000,
        fits(g.scale as int, a, b),
{
    let k: int = 128 * COORD_MAX;
    board::sq_bound(b.x.0 - a.x.0, k);
    board::sq_bound(b.y.0 - a.y.0, k);
    assert(board::sq(k) == 0x4_0000_0000_0000_0000_0000) by (nonlinear_arith)
        requires
            k == 0x200_0000_0000,
    ;
    let s = span2(a, b);
    assert(0 <= g.scale * s <= 4 * s) by (nonlinear_arith)
        requires
            1 <= g.scale <= 4,
            0 <= s,
    ;
}

/// Products of the parts of two vectors are bounded by their lengths.
proof fn parts_bound(x: int, y: int, u: int, v: int, k: int, m: int)
    requires
        1 <= k,
        k * (x * x + y * y) <= m,
        k * (u * u + v * v) <= m,
    ensures
        x * x <= m && y * y <= m && 0 <= x * x && 0 <= y * y,
        x * x + y * y <= m,
        -m <= x * u <= m && -m <= y * v <= m && -m <= x * v <= m && -m <= y * u <= m,
        -m <= x * u + y * v <= m,
        -m <= k * (x * v - y * u) <= m,
        -m <= x * v - y * u <= m,
{
    assert(0 <= x * x && 0 <= y * y && 0 <= u * u && 0 <= v * v) by (nonlinear_arith);
    let p = x * x + y * y;
    let q = u * u + v * v;
    assert(p <= k * p && q <= k * q) by (nonlinear_arith)
        requires
            1 <= k,
            0 <= p,
            0 <= q,
    ;
    assert(-(x * x + u * u) <= 2 * (x * u) <= x * x + u * u) by (nonlinear_arith);
    assert(-(y * y + v * v) <= 2 * (y * v) <= y * y + v * v) by (nonlinear_arith);
    assert(-(x * x + v * v) <= 2 * (x * v) <= x * x + v * v) by (nonlinear_arith);
    assert(-(y * y + u * u) <= 2 * (y * u) <= y * y + u * u) by (nonlinear_arith);
    let c = x * v - y * u;
    assert(-(p + q) <= 2 * c <= p + q);
    assert(-(k * p + k * q) <= 2 * (k * c) <= k * p + k * q) by (nonlinear_arith)
        requires
            1 <= k,
            -(p + q) <= 2 * c <= p + q,
    ;
}

/// Dot and cross product of two vectors make up the product of their
/// squared lengths.
proof fn dot_and_cross(x: int, y: int, u: int, v: int)
    ensures
        (x * u + y * v) * (x * u + y * v) + (x * v - y * u) * (x * v - y * u) == (x * x + y * y) * (u
            * u + v * v),
{
    let (p, q, r, s) = (x * u, y * v, x * v, y * u);
    assert(p * q == r * s) by (nonlinear_arith)
        requires
            p == x * u,
            q == y * v,
            r == x * v,
            s == y * u,
    ;
    assert((p + q) * (p + q) == p * p + 2 * (p * q) + q * q) by (nonlinear_arith);
    assert((r - s) * (r - s) == r * r - 2 * (r * s) + s * s) by (nonlinear_arith);
    assert(p * p == (x * x) * (u * u)) by (nonlinear_arith)
        requires
            p == x * u,
    ;
    assert(q * q == (y * y) * (v * v)) by (nonlinear_arith)
        requires
            q == y * v,
    ;
    assert(r * r == (x * x) * (v * v)) by (nonlinear_arith)
        requires
            r == x * v,
    ;
    assert(s * s == (y * y) * (u * u)) by (nonlinear_arith)
        requires
            s == y * u,
    ;
    let (a, b, c, d) = (x * x, y * y, u * u, v * v);
    assert((a + b) * (c + d) == a * c + a * d + b * c + b * d) by (nonlinear_arith);
}

/// The distance to a segment is no more than that to its first end, where
/// the foot is between the ends.
proof fn measure_bound(g: Gauge, a: Point, b: Point, p: Point)
    requires
        g.wf(),
        0 < span2(a, b),
    ensures
        ({
            let c = cross(a, b, p);
            &&& g.scale * (c * c) <= span2(a, b) * (g.scale * span2(a, p))
            &&& 0 <= arith::share(g.scale * (c * c), span2(a, b), g.up) <= g.scale * span2(a, p)
        }),
{
    let (x, y) = (b.x.0 - a.x.0, b.y.0 - a.y.0);
    let (u, v) = (p.x.0 - a.x.0, p.y.0 - a.y.0);
    let c = cross(a, b, p);
    let t = x * u + y * v;
    let d = span2(a, b);
    let s = span2(a, p);
    dot_and_cross(x, y, u, v);
    assert(c == x * v - y * u);
    assert(t * t >= 0 && c * c >= 0) by (nonlinear_arith);
    assert(c * c <= d * s);
    let k = g.scale as int;
    assert(k * (c * c) <= d * (k * s) && 0 <= k * (c * c)) by (nonlinear_arith)
        requires
            0 <= c * c <= d * s,
            1 <= k,
    ;
    assert(d * (k * s) == (k * s) * d) by (nonlinear_arith);
    arith::rounding_is_exact(k * (c * c), d, k * s);
    arith::rounding_is_exact(k * (c * c), d, 0);
    arith::rounding_is_exact(k * (c * c), d, k * s + 1);
    assert((k * s + 1) * d == (k * s) * d + d) by (nonlinear_arith);
}

/// No squared distance is negative.
pub proof fn measure_range(g: Gauge, a: Point, b: Point, p: Point)
    requires
        g.wf(),
    ensures
        0 <= pt_measure(g, a, b, p),
{
    span_flips(a, b);
    span_flips(a, p);
    span_flips(b, p);
    let (s, u) = (span2(a, p), span2(b, p));
    assert(0 <= g.scale * s && 0 <= g.scale * u) by (nonlinear_arith)
        requires
            1 <= g.scale,
            0 <= s,
            0 <= u,
    ;
    if span2(a, b) > 0 {
        measure_bound(g, a, b, p);
    }
}

fn measure_pt(g: Gauge, a: Point, b: Point, p: Point) -> (r: i128)
    requires
        g.wf(),
        fits(g.scale as int, a, b),
        fits(g.scale as int, a, p),
        fits(g.scale as int, b, p),
    ensures
        r == pt_measure(g, a, b, p),
        0 <= r,
        in_reach(a) && in_reach(b) && in_reach(p) ==> r <= 0x100_0000_0000_0000_0000_0000,
{
    let abx: i128 = b.x.0 as i128 - a.x.0 as i128;
    let aby: i128 = b.y.0 as i128 - a.y.0 as i128;
    let apx: i128 = p.x.0 as i128 - a.x.0 as i128;
    let apy: i128 = p.y.0 as i128 - a.y.0 as i128;
    let bpx: i128 = p.x.0 as i128 - b.x.0 as i128;
    let bpy: i128 = p.y.0 as i128 - b.y.0 as i128;
    let k: i128 = g.scale as i128;
    proof {
        let m = i128::MAX as int;
        parts_bound(abx as int, aby as int, apx as int, apy as int, k as int, m);
        parts_bound(apx as int, apy as int, abx as int, aby as int, k as int, m);
        parts_bound(bpx as int, bpy as int, abx as int, aby as int, k as int, m);
        span_flips(a, b);
        span_flips(a, p);
        span_flips(b, p);
        if in_reach(a) && in_reach(b) && in_reach(p) {
            reach_fits(g, a, p);
            reach_fits(g, b, p);
        }
        assert(k * span2(a, p) >= 0 && k * span2(b, p) >= 0) by (nonlinear_arith)
            requires
                1 <= k,
                span2(a, p) >= 0,
                span2(b, p) >= 0,
        ;
        assert(apx * abx == abx * apx && apy * aby == aby * apy) by (nonlinear_arith);
    }
    let denom: i128 = abx * abx + aby * aby;
    let t: i128 = apx * abx + apy * aby;
    if denom == 0 || t <= 0 {
        return k * (apx * apx + apy * apy);
    }
    if t >= denom {
        return k * (bpx * bpx + bpy * bpy);
    }
    let c: i128 = abx * apy - aby * apx;
    proof {
        measure_bound(g, a, b, p);
        let top = k * span2(a, p);
        assert(denom * top <= denom * i128::MAX) by (nonlinear_arith)
            requires
                0 < denom,
                top <= i128::MAX,
        ;
    }
    square_over(g.scale, c, denom, g.up)
}

/// Squared distance (nm²) from point `p` to segment `a`-`b`, rounded up.
pub fn seg_pt_dist2(a: Point, b: Point, p: Point) -> (r: i128)
    requires
        fits(1, a, b),
        fits(1, a, p),
        fits(1, b, p),
    ensures
        r == pt_dist2(a, b, p),
        0 <= r,
{
    measure_pt(Gauge { scale: 1, up: true }, a, b, p)
}

/// The squared distance from a point to a segment, by a gauge.
pub fn gauge_pt(g: Gauge, a: Point, b: Point, p: Point) -> (r: i128)
    requires
        g.wf(),
        in_reach(a),
        in_reach(b),
        in_reach(p),
    ensures
        r == pt_measure(g, a, b, p),
        0 <= r <= 0x100_0000_0000_0000_0000_0000,
{
    proof {
        reach_fits(g, a, b);
        reach_fits(g, a, p);
        reach_fits(g, b, p);
    }
    measure_pt(g, a, b, p)
}

/// Twice the signed area of the triangle `a`, `b`, `c`.
pub open spec fn cross(a: Point, b: Point, c: Point) -> int {
    (b.x.0 - a.x.0) * (c.y.0 - a.y.0) - (b.y.0 - a.y.0) * (c.x.0 - a.x.0)
}

pub fn orient(a: Point, b: Point, c: Point) -> (r: i128)
    requires
        fits(1, a, b),
        fits(1, a, c),
    ensures
        r == cross(a, b, c),
{
    let abx: i128 = b.x.0 as i128 - a.x.0 as i128;
    let aby: i128 = b.y.0 as i128 - a.y.0 as i128;
    let acx: i128 = c.x.0 as i128 - a.x.0 as i128;
    let acy: i128 = c.y.0 as i128 - a.y.0 as i128;
    proof {
        parts_bound(abx as int, aby as int, acx as int, acy as int, 1, i128::MAX as int);
    }
    abx * acy - aby * acx
}

/// `p` lies in the bounding box of `a` and `b`.
pub open spec fn boxed(a: Point, b: Point, p: Point) -> bool {
    &&& units::min(a.x.0 as int, b.x.0 as int) <= p.x.0 <= units::max(a.x.0 as int, b.x.0 as int)
    &&& units::min(a.y.0 as int, b.y.0 as int) <= p.y.0 <= units::max(a.y.0 as int, b.y.0 as int)
}

fn on_seg(a: Point, b: Point, p: Point) -> (r: bool)
    ensures
        r == boxed(a, b, p),
{
    p.x.0 >= a.x.min(b.x).0 && p.x.0 <= a.x.max(b.x).0 && p.y.0 >= a.y.min(b.y).0 && p.y.0
        <= a.y.max(b.y).0
}

/// Segments `a`-`b` and `c`-`d` cross or touch: each straddles the line
/// of the other, or an end of one lies on the other.
pub open spec fn crossing(a: Point, b: Point, c: Point, d: Point) -> bool {
    let d1 = cross(c, d, a);
    let d2 = cross(c, d, b);
    let d3 = cross(a, b, c);
    let d4 = cross(a, b, d);
    ||| d1 != 0 && d2 != 0 && d3 != 0 && d4 != 0 && (d1 > 0) != (d2 > 0) && (d3 > 0) != (d4 > 0)
    ||| d1 == 0 && boxed(c, d, a)
    ||| d2 == 0 && boxed(c, d, b)
    ||| d3 == 0 && boxed(a, b, c)
    ||| d4 == 0 && boxed(a, b, d)
}

/// True if segments `a`-`b` and `c`-`d` cross or touch.
pub fn segs_intersect(a: Point, b: Point, c: Point, d: Point) -> (r: bool)
    requires
        all_fit(1, a, b, c, d),
    ensures
        r == crossing(a, b, c, d),
{
    proof {
        span_flips(a, c);
        span_flips(b, c);
    }
    let d1: i128 = orient(c, d, a);
    let d2: i128 = orient(c, d, b);
    let d3: i128 = orient(a, b, c);
    let d4: i128 = orient(a, b, d);
    if d1 != 0 && d2 != 0 && d3 != 0 && d4 != 0 && (d1 > 0) != (d2 > 0) && (d3 > 0) != (d4 > 0) {
        return true;
    }
    (d1 == 0 && on_seg(c, d, a)) || (d2 == 0 && on_seg(c, d, b)) || (d3 == 0 && on_seg(a, b, c))
        || (d4 == 0 && on_seg(a, b, d))
}

/// Squared distance between two segments: none where they touch, else that
/// of the nearest end of either from the other.
pub open spec fn seg_measure(g: Gauge, a: Point, b: Point, c: Point, d: Point) -> int {
    if crossing(a, b, c, d) {
        0
    } else {
        units::min(
            units::min(
                units::min(pt_measure(g, a, b, c), pt_measure(g, a, b, d)),
                pt_measure(g, c, d, a),
            ),
            pt_measure(g, c, d, b),
        )
    }
}

/// Squared distance between two segments, rounded up.
pub open spec fn seg_dist2(a: Point, b: Point, c: Point, d: Point) -> int {
    seg_measure(whole(), a, b, c, d)
}

fn min_i128(a: i128, b: i128) -> (r: i128)
    ensures
        r == units::min(a as int, b as int),
{
    if a <= b {
        a
    } else {
        b
    }
}

fn measure_seg(g: Gauge, a: Point, b: Point, c: Point, d: Point) -> (r: i128)
    requires
        g.wf(),
        all_fit(g.scale as int, a, b, c, d),
    ensures
        r == seg_measure(g, a, b, c, d),
        0 <= r,
        in_reach(a) && in_reach(b) && in_reach(c) && in_reach(d) ==> r
            <= 0x100_0000_0000_0000_0000_0000,
{
    proof {
        scale_down(g, a, b);
        scale_down(g, a, c);
        scale_down(g, a, d);
        scale_down(g, b, c);
        scale_down(g, b, d);
        scale_down(g, c, d);
        span_flips(a, c);
        span_flips(a, d);
        span_flips(b, c);
        span_flips(b, d);
    }
    if segs_intersect(a, b, c, d) {
        return 0;
    }
    min_i128(
        min_i128(min_i128(measure_pt(g, a, b, c), measure_pt(g, a, b, d)), measure_pt(g, c, d, a)),
        measure_pt(g, c, d, b),
    )
}

proof fn scale_down(g: Gauge, a: Point, b: Point)
    requires
        g.wf(),
        fits(g.scale as int, a, b),
    ensures
        fits(1, a, b),
{
    span_flips(a, b);
    let s = span2(a, b);
    assert(s <= g.scale * s) by (nonlinear_arith)
        requires
            1 <= g.scale,
            0 <= s,
    ;
}

/// Squared distance (nm²) between segments `a`-`b` and `c`-`d`, rounded up.
pub fn seg_seg_dist2(a: Point, b: Point, c: Point, d: Point) -> (r: i128)
    requires
        all_fit(1, a, b, c, d),
    ensures
        r == seg_dist2(a, b, c, d),
        0 <= r,
{
    measure_seg(Gauge { scale: 1, up: true }, a, b, c, d)
}

/// The squared distance between two segments, by a gauge.
pub fn gauge_seg(g: Gauge, a: Point, b: Point, c: Point, d: Point) -> (r: i128)
    requires
        g.wf(),
        in_reach(a),
        in_reach(b),
        in_reach(c),
        in_reach(d),
    ensures
        r == seg_measure(g, a, b, c, d),
        0 <= r <= 0x100_0000_0000_0000_0000_0000,
{
    proof {
        reach_all_fits(g, a, b, c, d);
    }
    measure_seg(g, a, b, c, d)
}

pub proof fn reach_all_fits(g: Gauge, a: Point, b: Point, c: Point, d: Point)
    requires
        g.wf(),
        in_reach(a),
        in_reach(b),
        in_reach(c),
        in_reach(d),
    ensures
        all_fit(g.scale as int, a, b, c, d),
{
    reach_fits(g, a, b);
    reach_fits(g, a, c);
    reach_fits(g, a, d);
    reach_fits(g, b, c);
    reach_fits(g, b, d);
    reach_fits(g, c, d);
}

fn pt_in_rect(p: Point, r: Rect) -> (b: bool)
    ensures
        b == r.holds(p.x.0 as int, p.y.0 as int),
{
    p.x.0 >= r.min.x.0 && p.x.0 <= r.max.x.0 && p.y.0 >= r.min.y.0 && p.y.0 <= r.max.y.0
}

/// The corner to the right of and below the others.
pub open spec fn low_right(r: Rect) -> Point {
    Point { x: r.max.x, y: r.min.y }
}

/// The corner to the left of and above the others.
pub open spec fn high_left(r: Rect) -> Point {
    Point { x: r.min.x, y: r.max.y }
}

/// Squared distance between a segment and a rectangle: zero where an end
/// is inside, else the least distance to one of the four sides.
pub open spec fn rect_measure(g: Gauge, a: Point, b: Point, r: Rect) -> int {
    let c1 = low_right(r);
    let c3 = high_left(r);
    if r.holds(a.x.0 as int, a.y.0 as int) || r.holds(b.x.0 as int, b.y.0 as int) {
        0
    } else {
        units::min(
            units::min(
                units::min(seg_measure(g, a, b, r.min, c1), seg_measure(g, a, b, c1, r.max)),
                seg_measure(g, a, b, r.max, c3),
            ),
            seg_measure(g, a, b, c3, r.min),
        )
    }
}

/// Squared distance between a segment and a rectangle, rounded up.
pub open spec fn rect_dist2(a: Point, b: Point, r: Rect) -> int {
    rect_measure(whole(), a, b, r)
}

/// The squared distances between the segment and the corners are machine
/// numbers.
pub open spec fn rect_fits(k: int, a: Point, b: Point, r: Rect) -> bool {
    &&& all_fit(k, a, b, r.min, low_right(r))
    &&& all_fit(k, a, b, low_right(r), r.max)
    &&& all_fit(k, a, b, r.max, high_left(r))
    &&& all_fit(k, a, b, high_left(r), r.min)
}

fn measure_rect(g: Gauge, a: Point, b: Point, r: Rect) -> (d: i128)
    requires
        g.wf(),
        rect_fits(g.scale as int, a, b, r),
    ensures
        d == rect_measure(g, a, b, r),
        0 <= d,
        in_reach(a) && in_reach(b) && r.within(64 * COORD_MAX) ==> d
            <= 0x100_0000_0000_0000_0000_0000,
{
    if pt_in_rect(a, r) || pt_in_rect(b, r) {
        return 0;
    }
    let c0 = r.min;
    let c1 = Point::new(r.max.x, r.min.y);
    let c2 = r.max;
    let c3 = Point::new(r.min.x, r.max.y);
    min_i128(
        min_i128(
            min_i128(measure_seg(g, a, b, c0, c1), measure_seg(g, a, b, c1, c2)),
            measure_seg(g, a, b, c2, c3),
        ),
        measure_seg(g, a, b, c3, c0),
    )
}

/// Squared distance (nm²) between segment `a`-`b` and rectangle `r`, rounded
/// up.
pub fn seg_rect_dist2(a: Point, b: Point, r: Rect) -> (d: i128)
    requires
        rect_fits(1, a, b, r),
    ensures
        d == rect_dist2(a, b, r),
        0 <= d,
{
    measure_rect(Gauge { scale: 1, up: true }, a, b, r)
}

/// The squared distance between a segment and a rectangle, by a gauge.
pub fn gauge_rect(g: Gauge, a: Point, b: Point, r: Rect) -> (d: i128)
    requires
        g.wf(),
        in_reach(a),
        in_reach(b),
        r.within(64 * COORD_MAX),
    ensures
        d == rect_measure(g, a, b, r),
        0 <= d <= 0x100_0000_0000_0000_0000_0000,
{
    proof {
        reach_all_fits(g, a, b, r.min, low_right(r));
        reach_all_fits(g, a, b, low_right(r), r.max);
        reach_all_fits(g, a, b, r.max, high_left(r));
        reach_all_fits(g, a, b, high_left(r), r.min);
    }
    measure_rect(g, a, b, r)
}

/// What a spoke has to keep away from: copper on `layer` that is not of
/// `net` and is not dropped as dangling, by `base` beside its own extent.
pub struct Guard {
    pub base: int,
    pub net: Seq<char>,
    pub layer: CopperLayer,
    pub dropped_traces: Set<Id>,
    pub dropped_vias: Set<Id>,
}

impl Guard {
    /// The pad is foreign copper that the segment comes too close to.
    pub open spec fn pad_blocks(self, fp: Footprint, pad: Pad, a: Point, b: Point) -> bool {
        &&& pad.on_layer(self.layer)
        &&& !board::net_is(pad.net, self.net)
        &&& rect_measure(floor(), a, b, fp.rect_of(pad)) < board::sq(self.base)
    }

    pub open spec fn fp_blocks(self, fp: Footprint, a: Point, b: Point) -> bool {
        exists|j: int|
            0 <= j < fp.pads@.len() && #[trigger] self.pad_blocks(fp, fp.pads@[j], a, b)
    }

    /// The trace is foreign copper that the segment comes too close to.
    pub open spec fn trace_blocks(self, t: Trace, a: Point, b: Point) -> bool {
        &&& t.layer == self.layer
        &&& t.net@ != self.net
        &&& !self.dropped_traces.contains(t.id)
        &&& seg_measure(floor(), a, b, t.start, t.end) < board::sq(
            self.base + units::quot(t.width.0 as int, 2),
        )
    }

    /// The via is foreign copper that the segment comes too close to.
    pub open spec fn via_blocks(self, v: Via, a: Point, b: Point) -> bool {
        &&& v.net@ != self.net
        &&& !self.dropped_vias.contains(v.id)
        &&& pt_measure(floor(), a, b, v.position) < board::sq(
            self.base + units::quot(v.diameter.0 as int, 2),
        )
    }

    /// The segment keeps away from every foreign pad, trace and via.
    pub open spec fn clears(self, board: Board, a: Point, b: Point) -> bool {
        &&& forall|i: int|
            0 <= i < board.footprints@.len() ==> !#[trigger] self.fp_blocks(
                board.footprints@[i],
                a,
                b,
            )
        &&& forall|k: int|
            0 <= k < board.traces@.len() ==> !#[trigger] self.trace_blocks(board.traces@[k], a, b)
        &&& forall|k: int|
            0 <= k < board.vias@.len() ==> !#[trigger] self.via_blocks(board.vias@[k], a, b)
    }

    /// The candidates that clear.
    pub open spec fn pass(self, board: Board) -> spec_fn((Point, Point)) -> bool {
        |c: (Point, Point)| self.clears(board, c.0, c.1)
    }
}

/// The guard of a spoke of half-width `spoke_half`.
pub open spec fn guard(
    spoke_half: Length,
    clearance: Length,
    net: Seq<char>,
    layer: CopperLayer,
    dropped_traces: Seq<Id>,
    dropped_vias: Seq<Id>,
) -> Guard {
    Guard {
        base: spoke_half.0 + clearance.0,
        net,
        layer,
        dropped_traces: dropped_traces.to_set(),
        dropped_vias: dropped_vias.to_set(),
    }
}

fn square(a: i64) -> (r: i128)
    requires
        -8 * COORD_MAX <= a <= 8 * COORD_MAX,
    ensures
        r == board::sq(a as int),
{
    proof {
        board::sq_bound(a as int, 8 * COORD_MAX);
        assert(board::sq(8 * COORD_MAX) <= 0x100_0000_0000_0000_0000_0000) by (nonlinear_arith);
    }
    a as i128 * a as i128
}

fn footprint_blocks(
    fp: &Footprint,
    a: Point,
    b: Point,
    base: i64,
    net: &str,
    layer: CopperLayer,
    Ghost(g): Ghost<Guard>,
) -> (r: bool)
    requires
        fp.in_range(),
        in_reach(a),
        in_reach(b),
        -2 * COORD_MAX <= base <= 2 * COORD_MAX,
        g.base == base,
        g.net == net@,
        g.layer == layer,
    ensures
        r == g.fp_blocks(*fp, a, b),
{
    let limit: i128 = square(base);
    let mut j: usize = 0;
    while j < fp.pads.len()
        invariant
            j <= fp.pads@.len(),
            fp.in_range(),
            in_reach(a),
            in_reach(b),
            limit == board::sq(base as int),
            g.base == base,
            g.net == net@,
            g.layer == layer,
            forall|k: int| 0 <= k < j ==> !#[trigger] g.pad_blocks(*fp, fp.pads@[k], a, b),
        decreases fp.pads@.len() - j,
    {
        let pad = &fp.pads[j];
        if pad.occupies_layer(layer) && !has_net(&pad.net, net) {
            let rect = fp.pad_rect(pad);
            if gauge_rect(Gauge { scale: 1, up: false }, a, b, rect) < limit {
                assert(g.pad_blocks(*fp, fp.pads@[j as int], a, b));
                return true;
            }
        }
        j += 1;
    }
    false
}

/// True if a spoke `a`-`b` of half-width `spoke_half` keeps `clearance`
/// from all copper on `layer` that is not of `pad_net`, leaving out the
/// dangling traces and vias.
pub fn spoke_clear(
    a: Point,
    b: Point,
    spoke_half: Length,
    clearance: Length,
    pad_net: &str,
    layer: CopperLayer,
    board: &Board,
    orphan_traces: &Vec<Id>,
    orphan_vias: &Vec<Id>,
) -> (r: bool)
    requires
        board.in_range(),
        in_reach(a),
        in_reach(b),
        -COORD_MAX <= spoke_half.0 <= COORD_MAX,
        -COORD_MAX <= clearance.0 <= COORD_MAX,
    ensures
        r == guard(
            spoke_half,
            clearance,
            pad_net@,
            layer,
            orphan_traces@,
            orphan_vias@,
        ).clears(*board, a, b),
{
    let base: i64 = spoke_half.0 + clearance.0;
    let ghost g = guard(spoke_half, clearance, pad_net@, layer, orphan_traces@, orphan_vias@);
    let mut i: usize = 0;
    while i < board.footprints.len()
        invariant
            i <= board.footprints@.len(),
            board.in_range(),
            in_reach(a),
            in_reach(b),
            -2 * COORD_MAX <= base <= 2 * COORD_MAX,
            g.base == base,
            g.net == pad_net@,
            g.layer == layer,
            g == guard(spoke_half, clearance, pad_net@, layer, orphan_traces@, orphan_vias@),
            forall|k: int| 0 <= k < i ==> !#[trigger] g.fp_blocks(board.footprints@[k], a, b),
        decreases board.footprints@.len() - i,
    {
        if footprint_blocks(&board.footprints[i], a, b, base, pad_net, layer, Ghost(g)) {
            assert(g.fp_blocks(board.footprints@[i as int], a, b));
            return false;
        }
        i += 1;
    }
    let mut k: usize = 0;
    while k < board.traces.len()
        invariant
            k <= board.traces@.len(),
            board.in_range(),
            in_reach(a),
            in_reach(b),
            -2 * COORD_MAX <= base <= 2 * COORD_MAX,
            g.base == base,
            g.net == pad_net@,
            g.layer == layer,
            g == guard(spoke_half, clearance, pad_net@, layer, orphan_traces@, orphan_vias@),
            forall|m: int| 0 <= m < k ==> !#[trigger] g.trace_blocks(board.traces@[m], a, b),
        decreases board.traces@.len() - k,
    {
        let t = &board.traces[k];
        if t.layer == layer && !str_eq(t.net.as_str(), pad_net) && !has_id(orphan_traces, t.id) {
            let near: i128 = gauge_seg(Gauge { scale: 1, up: false }, a, b, t.start, t.end);
            if near < square(base + t.width.0 / 2) {
                assert(g.trace_blocks(board.traces@[k as int], a, b));
                return false;
            }
        }
        k += 1;
    }
    let mut k: usize = 0;
    while k < board.vias.len()
        invariant
            k <= board.vias@.len(),
            board.in_range(),
            in_reach(a),
            in_reach(b),
            -2 * COORD_MAX <= base <= 2 * COORD_MAX,
            g.base == base,
            g.net == pad_net@,
            g.layer == layer,
            g == guard(spoke_half, clearance, pad_net@, layer, orphan_traces@, orphan_vias@),
            forall|m: int| 0 <= m < k ==> !#[trigger] g.via_blocks(board.vias@[m], a, b),
        decreases board.vias@.len() - k,
    {
        let v = &board.vias[k];
        if !str_eq(v.net.as_str(), pad_net) && !has_id(orphan_vias, v.id) {
            let near: i128 = gauge_pt(Gauge { scale: 1, up: false }, a, b, v.position);
            if near < square(base + v.diameter.0 / 2) {
                assert(g.via_blocks(board.vias@[k as int], a, b));
                return false;
            }
        }
        k += 1;
    }
    true
}

pub open spec fn pt(x: int, y: int) -> Point {
    Point { x: Length(x as i64), y: Length(y as i64) }
}

/// The spokes to the west, east, south and north of a pad, each from just
/// inside its edge to `reach` beyond it.
pub open spec fn ortho(c: Point, hw: int, hh: int, reach: int) -> Seq<(Point, Point)> {
    let x = c.x.0 as int;
    let y = c.y.0 as int;
    seq![
        (pt(x - hw - reach, y), pt(x - hw + SPOKE_OVERLAP, y)),
        (pt(x + hw - SPOKE_OVERLAP, y), pt(x + hw + reach, y)),
        (pt(x, y - hh - reach), pt(x, y - hh + SPOKE_OVERLAP)),
        (pt(x, y + hh - SPOKE_OVERLAP), pt(x, y + hh + reach)),
    ]
}

/// The spokes from the four corners of a pad outward at 45 degrees.
pub open spec fn diagonal(c: Point, hw: int, hh: int, reach: int) -> Seq<(Point, Point)> {
    let x = c.x.0 as int;
    let y = c.y.0 as int;
    let o = SPOKE_OVERLAP as int;
    seq![
        (pt(x - hw + o, y - hh + o), pt(x - hw - reach, y - hh - reach)),
        (pt(x + hw - o, y - hh + o), pt(x + hw + reach, y - hh - reach)),
        (pt(x - hw + o, y + hh - o), pt(x - hw - reach, y + hh + reach)),
        (pt(x + hw - o, y + hh - o), pt(x + hw + reach, y + hh + reach)),
    ]
}

/// The half-extent through which a ray with direction (`c`, `s`) leaves a
/// rectangle of half-extents `hw` and `hh`, and the component of the
/// direction along it.
pub open spec fn exit_side(hw: int, hh: int, c: int, s: int) -> (int, int) {
    if c != 0 && (s == 0 || hw * units::abs(s) <= hh * units::abs(c)) {
        (hw, units::abs(c))
    } else {
        (hh, units::abs(s))
    }
}

/// The point on the ray from `center` in direction (`c`, `s`) that lies
/// `d` beyond the pad's edge.
pub open spec fn beyond(center: Point, hw: int, hh: int, c: int, s: int, d: int) -> Point {
    let (h, e) = exit_side(hw, hh, c, s);
    pt(
        rotation::rounded(center.x.0 * (e * UNIT) + c * (h * UNIT + d * e), e * UNIT),
        rotation::rounded(center.y.0 * (e * UNIT) + s * (h * UNIT + d * e), e * UNIT),
    )
}

/// The spoke in direction `2 * i` degrees.
pub open spec fn angled(center: Point, hw: int, hh: int, reach: int, i: int) -> (Point, Point) {
    let c = rotation::cos_deg(2 * i);
    let s = rotation::sin_deg(2 * i);
    (beyond(center, hw, hh, c, s, -SPOKE_OVERLAP), beyond(center, hw, hh, c, s, reach))
}

fn point_beyond(center: Point, hw: i64, hh: i64, c: i64, s: i64, d: i64) -> (r: Point)
    requires
        center.within(4 * COORD_MAX),
        -COORD_MAX <= hw <= COORD_MAX,
        -COORD_MAX <= hh <= COORD_MAX,
        -2 * COORD_MAX <= d <= 2 * COORD_MAX,
        c == 0 || SIN_MIN <= c <= UNIT || -UNIT <= c <= -SIN_MIN,
        s == 0 || SIN_MIN <= s <= UNIT || -UNIT <= s <= -SIN_MIN,
        c != 0 || s != 0,
    ensures
        r == beyond(center, hw as int, hh as int, c as int, s as int, d as int),
        in_reach(r),
{
    let ac: i128 = if c < 0 {
        -(c as i128)
    } else {
        c as i128
    };
    let as_: i128 = if s < 0 {
        -(s as i128)
    } else {
        s as i128
    };
    proof {
        rotation::product_bound(hw as int, COORD_MAX as int, as_ as int, UNIT as int);
        rotation::product_bound(hh as int, COORD_MAX as int, ac as int, UNIT as int);
    }
    let through_x = c != 0 && (s == 0 || hw as i128 * as_ <= hh as i128 * ac);
    let h: i128 = if through_x {
        hw as i128
    } else {
        hh as i128
    };
    let e: i128 = if through_x {
        ac
    } else {
        as_
    };
    let u: i128 = UNIT as i128;
    let ghost m = h * u + d as i128 * e;
    proof {
        rotation::product_bound(h as int, COORD_MAX as int, u as int, UNIT as int);
        rotation::product_bound(d as int, 2 * COORD_MAX, e as int, UNIT as int);
        assert(-(3 * COORD_MAX * UNIT) <= m <= 3 * COORD_MAX * UNIT);
        rotation::product_bound(c as int, UNIT as int, m, 3 * COORD_MAX * UNIT);
        rotation::product_bound(s as int, UNIT as int, m, 3 * COORD_MAX * UNIT);
        rotation::product_bound(center.x.0 as int, 4 * COORD_MAX, e * u, UNIT * UNIT);
        rotation::product_bound(center.y.0 as int, 4 * COORD_MAX, e * u, UNIT * UNIT);
    }
    let den: i128 = e * u;
    let num: i128 = h * u + d as i128 * e;
    let nx: i128 = center.x.0 as i128 * den + c as i128 * num;
    let ny: i128 = center.y.0 as i128 * den + s as i128 * num;
    proof {
        far_bound(center.x.0 as int, c as int, h as int, d as int, e as int);
        far_bound(center.y.0 as int, s as int, h as int, d as int, e as int);
        rotation::rounded_bound(nx as int, den as int, 64 * COORD_MAX);
        rotation::rounded_bound(ny as int, den as int, 64 * COORD_MAX);
    }
    let x: i128 = round_div(nx, den);
    let y: i128 = round_div(ny, den);
    Point { x: Length(x as i64), y: Length(y as i64) }
}

/// A point beyond the edge along a direction that is not too flat stays
/// in reach.
proof fn far_bound(x: int, c: int, h: int, d: int, e: int)
    requires
        -4 * COORD_MAX <= x <= 4 * COORD_MAX,
        -UNIT <= c <= UNIT,
        -COORD_MAX <= h <= COORD_MAX,
        -2 * COORD_MAX <= d <= 2 * COORD_MAX,
        SIN_MIN <= e <= UNIT,
    ensures
        -((64 * COORD_MAX) * (e * UNIT)) <= x * (e * UNIT) + c * (h * UNIT + d * e) <= (64
            * COORD_MAX) * (e * UNIT),
{
    let eu = e * UNIT;
    rotation::product_bound(h, COORD_MAX as int, UNIT as int, UNIT as int);
    rotation::product_bound(d, 2 * COORD_MAX, e, e);
    let k = COORD_MAX as int;
    let m = h * UNIT + d * e;
    rotation::product_bound(c, UNIT as int, m, k * UNIT + (2 * k) * e);
    assert(UNIT as int * (k * UNIT + (2 * k) * e) == k * (UNIT * UNIT) + 2 * (k * eu))
        by (nonlinear_arith)
        requires
            eu == e * UNIT,
    ;
    assert(UNIT * UNIT <= 58 * eu) by (nonlinear_arith)
        requires
            eu == e * UNIT,
            e >= 17_452_406,
            UNIT == 1_000_000_000,
    ;
    assert(k * (UNIT * UNIT) <= k * (58 * eu)) by (nonlinear_arith)
        requires
            UNIT * UNIT <= 58 * eu,
            k >= 0,
    ;
    rotation::product_bound(x, 4 * k, eu, eu);
    assert((4 * k) * eu == 4 * (k * eu) && k * (58 * eu) == 58 * (k * eu) && (64 * k) * eu == 64 * (
    k * eu)) by (nonlinear_arith);
}

fn orthogonal_candidates(center: Point, hw: i64, hh: i64, reach: i64) -> (r: Vec<(Point, Point)>)
    requires
        center.within(4 * COORD_MAX),
        -COORD_MAX <= hw <= COORD_MAX,
        -COORD_MAX <= hh <= COORD_MAX,
        -2 * COORD_MAX <= reach <= 2 * COORD_MAX,
    ensures
        r@ == ortho(center, hw as int, hh as int, reach as int),
        forall|i: int| 0 <= i < r@.len() ==> in_reach((#[trigger] r@[i]).0) && in_reach(r@[i].1),
{
    let x: i64 = center.x.0;
    let y: i64 = center.y.0;
    let mut v: Vec<(Point, Point)> = Vec::new();
    v.push(
        (
            Point::new(Length(x - hw - reach), center.y),
            Point::new(Length(x - hw + SPOKE_OVERLAP), center.y),
        ),
    );
    v.push(
        (
            Point::new(Length(x + hw - SPOKE_OVERLAP), center.y),
            Point::new(Length(x + hw + reach), center.y),
        ),
    );
    v.push(
        (
            Point::new(center.x, Length(y - hh - reach)),
            Point::new(center.x, Length(y - hh + SPOKE_OVERLAP)),
        ),
    );
    v.push(
        (
            Point::new(center.x, Length(y + hh - SPOKE_OVERLAP)),
            Point::new(center.x, Length(y + hh + reach)),
        ),
    );
    assert(v@ =~= ortho(center, hw as int, hh as int, reach as int));
    v
}

fn diagonal_candidates(center: Point, hw: i64, hh: i64, reach: i64) -> (r: Vec<(Point, Point)>)
    requires
        center.within(4 * COORD_MAX),
        -COORD_MAX <= hw <= COORD_MAX,
        -COORD_MAX <= hh <= COORD_MAX,
        -2 * COORD_MAX <= reach <= 2 * COORD_MAX,
    ensures
        r@ == diagonal(center, hw as int, hh as int, reach as int),
        forall|i: int| 0 <= i < r@.len() ==> in_reach((#[trigger] r@[i]).0) && in_reach(r@[i].1),
{
    let x: i64 = center.x.0;
    let y: i64 = center.y.0;
    let o: i64 = SPOKE_OVERLAP;
    let mut v: Vec<(Point, Point)> = Vec::new();
    v.push(
        (
            Point::new(Length(x - hw + o), Length(y - hh + o)),
            Point::new(Length(x - hw - reach), Length(y - hh - reach)),
        ),
    );
    v.push(
        (
            Point::new(Length(x + hw - o), Length(y - hh + o)),
            Point::new(Length(x + hw + reach), Length(y - hh - reach)),
        ),
    );
    v.push(
        (
            Point::new(Length(x - hw + o), Length(y + hh - o)),
            Point::new(Length(x - hw - reach), Length(y + hh + reach)),
        ),
    );
    v.push(
        (
            Point::new(Length(x + hw - o), Length(y + hh - o)),
            Point::new(Length(x + hw + reach), Length(y + hh + reach)),
        ),
    );
    assert(v@ =~= diagonal(center, hw as int, hh as int, reach as int));
    v
}

/// One spoke in direction `2 * i` degrees.
fn angled_candidate(center: Point, hw: i64, hh: i64, reach: i64, i: usize) -> (r: (Point, Point))
    requires
        center.within(4 * COORD_MAX),
        -COORD_MAX <= hw <= COORD_MAX,
        -COORD_MAX <= hh <= COORD_MAX,
        -2 * COORD_MAX <= reach <= 2 * COORD_MAX,
        i < STEPS,
    ensures
        r == angled(center, hw as int, hh as int, reach as int, i as int),
        in_reach(r.0),
        in_reach(r.1),
{
    let d: i64 = 2 * (i as i64);
    let c: i64 = sin_of(d + 90);
    let s: i64 = sin_of(d);
    proof {
        rotation::never_both_zero(d as int);
    }
    (
        point_beyond(center, hw, hh, c, s, -SPOKE_OVERLAP),
        point_beyond(center, hw, hh, c, s, reach),
    )
}

/// The number of consecutive clear directions from `i` on, going round,
/// counted up to `n`.
pub open spec fn run(clear: Seq<bool>, i: int, n: int) -> int
    decreases n,
{
    if n <= 0 || !clear[i] {
        0
    } else {
        1 + run(clear, (i + 1) % (clear.len() as int), n - 1)
    }
}

/// `s` starts the longest run of clear directions, and is the first that
/// does.
pub open spec fn widest(clear: Seq<bool>, s: int) -> bool {
    let n = clear.len() as int;
    &&& 0 <= s < n
    &&& forall|j: int| 0 <= j < n ==> #[trigger] run(clear, j, n) <= run(clear, s, n)
    &&& forall|j: int| 0 <= j < s ==> #[trigger] run(clear, j, n) < run(clear, s, n)
}

/// Which of the sweep's directions are clear.
pub open spec fn sweep(g: Guard, board: Board, c: Point, hw: int, hh: int, reach: int) -> Seq<bool> {
    Seq::new(STEPS as nat, |i: int| g.pass(board)(angled(c, hw, hh, reach, i)))
}

/// The middle of the widest clear run.
pub open spec fn sweep_middle(clear: Seq<bool>) -> int {
    let s = choose|s: int| #[trigger] widest(clear, s);
    (s + run(clear, s, clear.len() as int) / 2) % (clear.len() as int)
}

/// The spokes of a pad: the clear ones of the four orthogonal; failing
/// those, of the four diagonal; failing those, one down the middle of the
/// widest clear arc.
pub open spec fn spokes(
    g: Guard,
    board: Board,
    c: Point,
    hw: int,
    hh: int,
    reach: int,
) -> Seq<(Point, Point)> {
    let o = ortho(c, hw, hh, reach).filter(g.pass(board));
    let d = diagonal(c, hw, hh, reach).filter(g.pass(board));
    let w = sweep(g, board, c, hw, hh, reach);
    if o.len() > 0 {
        o
    } else if d.len() > 0 {
        d
    } else if exists|i: int| 0 <= i < STEPS && #[trigger] w[i] {
        seq![angled(c, hw, hh, reach, sweep_middle(w))]
    } else {
        Seq::empty()
    }
}

/// A run is no longer than the number counted up to.
proof fn run_range(clear: Seq<bool>, i: int, n: int)
    requires
        clear.len() > 0,
    ensures
        0 <= run(clear, i, n),
        n >= 0 ==> run(clear, i, n) <= n,
    decreases n,
{
    if n > 0 && clear[i] {
        run_range(clear, (i + 1) % (clear.len() as int), n - 1);
    }
}

/// Every direction inside a run is clear.
proof fn run_is_clear(clear: Seq<bool>, i: int, n: int, k: int)
    requires
        clear.len() > 0,
        0 <= i < clear.len(),
        0 <= k < run(clear, i, n),
    ensures
        clear[(i + k) % (clear.len() as int)],
    decreases n,
{
    let m = clear.len() as int;
    if k == 0 {
        vstd::arithmetic::div_mod::lemma_small_mod(i as nat, m as nat);
    } else {
        let j = (i + 1) % m;
        run_is_clear(clear, j, n - 1, k - 1);
        assert((j + (k - 1)) % m == (i + k) % m) by {
            vstd::arithmetic::div_mod::lemma_add_mod_noop(i + 1, k - 1, m);
            vstd::arithmetic::div_mod::lemma_add_mod_noop(j, k - 1, m);
            vstd::arithmetic::div_mod::lemma_mod_twice(i + 1, m);
        }
    }
}

/// The first start of the longest run is unique.
proof fn widest_is_unique(clear: Seq<bool>, a: int, b: int)
    requires
        widest(clear, a),
        widest(clear, b),
    ensures
        a == b,
{
    let n = clear.len() as int;
    if a < b {
        assert(run(clear, a, n) < run(clear, b, n));
    } else if b < a {
        assert(run(clear, b, n) < run(clear, a, n));
    }
}

fn run_length(clear: &Vec<bool>, i: usize) -> (r: usize)
    requires
        i < clear@.len(),
        clear@.len() <= 1000,
    ensures
        r == run(clear@, i as int, clear@.len() as int),
        r <= clear@.len(),
{
    let n: usize = clear.len();
    let mut len: usize = 0;
    let mut at: usize = i;
    while len < n && clear[at]
        invariant
            n == clear@.len(),
            n <= 1000,
            at < n,
            len <= n,
            run(clear@, i as int, n as int) == len + run(clear@, at as int, n - len),
        decreases n - len,
    {
        proof {
            if at + 1 == n {
                vstd::arithmetic::div_mod::lemma_mod_self_0(n as int);
            } else {
                vstd::arithmetic::div_mod::lemma_small_mod((at + 1) as nat, n as nat);
            }
        }
        at = if at + 1 == n {
            0
        } else {
            at + 1
        };
        len += 1;
    }
    len
}

/// The first start of the longest run of clear directions, and its
/// length.
fn longest_run(clear: &Vec<bool>) -> (r: (usize, usize))
    requires
        0 < clear@.len() <= 1000,
    ensures
        widest(clear@, r.0 as int),
        r.1 == run(clear@, r.0 as int, clear@.len() as int),
        r.1 <= clear@.len(),
{
    let n: usize = clear.len();
    let mut best: usize = 0;
    let mut best_len: usize = run_length(clear, 0);
    let mut i: usize = 1;
    while i < n
        invariant
            n == clear@.len(),
            0 < n <= 1000,
            1 <= i <= n,
            best < i,
            best_len == run(clear@, best as int, n as int),
            best_len <= n,
            forall|j: int| 0 <= j < i ==> #[trigger] run(clear@, j, n as int) <= best_len,
            forall|j: int| 0 <= j < best ==> #[trigger] run(clear@, j, n as int) < best_len,
        decreases n - i,
    {
        let len: usize = run_length(clear, i);
        if len > best_len {
            best = i;
            best_len = len;
        }
        i += 1;
    }
    (best, best_len)
}

fn clear_ones(
    cands: &Vec<(Point, Point)>,
    spoke_half: Length,
    clearance: Length,
    pad_net: &str,
    layer: CopperLayer,
    board: &Board,
    orphan_traces: &Vec<Id>,
    orphan_vias: &Vec<Id>,
) -> (r: Vec<(Point, Point)>)
    requires
        board.in_range(),
        forall|i: int|
            0 <= i < cands@.len() ==> in_reach((#[trigger] cands@[i]).0) && in_reach(cands@[i].1),
        -COORD_MAX <= spoke_half.0 <= COORD_MAX,
        -COORD_MAX <= clearance.0 <= COORD_MAX,
    ensures
        r@ == cands@.filter(
            guard(
                spoke_half,
                clearance,
                pad_net@,
                layer,
                orphan_traces@,
                orphan_vias@,
            ).pass(*board),
        ),
{
    let ghost p = guard(
        spoke_half,
        clearance,
        pad_net@,
        layer,
        orphan_traces@,
        orphan_vias@,
    ).pass(*board);
    let mut out: Vec<(Point, Point)> = Vec::new();
    let mut i: usize = 0;
    proof {
        reveal(Seq::filter);
        assert(cands@.take(0).filter(p) =~= Seq::empty());
    }
    while i < cands.len()
        invariant
            i <= cands@.len(),
            board.in_range(),
            forall|k: int|
                0 <= k < cands@.len() ==> in_reach((#[trigger] cands@[k]).0) && in_reach(
                    cands@[k].1,
                ),
            -COORD_MAX <= spoke_half.0 <= COORD_MAX,
            -COORD_MAX <= clearance.0 <= COORD_MAX,
            p == guard(
                spoke_half,
                clearance,
                pad_net@,
                layer,
                orphan_traces@,
                orphan_vias@,
            ).pass(*board),
            out@ == cands@.take(i as int).filter(p),
        decreases cands@.len() - i,
    {
        let c = cands[i];
        proof {
            reveal(Seq::filter);
            assert(cands@.take(i + 1).drop_last() =~= cands@.take(i as int));
        }
        if spoke_clear(
            c.0,
            c.1,
            spoke_half,
            clearance,
            pad_net,
            layer,
            board,
            orphan_traces,
            orphan_vias,
        ) {
            out.push(c);
        }
        i += 1;
    }
    assert(cands@.take(cands@.len() as int) =~= cands@);
    out
}

/// The thermal-relief spokes to draw for a pad of the pour's net. Empty
/// only if no direction is clear.
pub fn select_spokes(
    center: Point,
    pad_w: Length,
    pad_h: Length,
    spoke_half: Length,
    clearance: Length,
    reach: Length,
    pad_net: &str,
    layer: CopperLayer,
    board: &Board,
    orphan_traces: &Vec<Id>,
    orphan_vias: &Vec<Id>,
) -> (r: Vec<(Point, Point)>)
    requires
        board.in_range(),
        center.within(4 * COORD_MAX),
        -COORD_MAX <= pad_w.0 <= COORD_MAX,
        -COORD_MAX <= pad_h.0 <= COORD_MAX,
        -COORD_MAX <= spoke_half.0 <= COORD_MAX,
        -COORD_MAX <= clearance.0 <= COORD_MAX,
        -2 * COORD_MAX <= reach.0 <= 2 * COORD_MAX,
    ensures
        r@ == spokes(
            guard(spoke_half, clearance, pad_net@, layer, orphan_traces@, orphan_vias@),
            *board,
            center,
            units::quot(pad_w.0 as int, 2),
            units::quot(pad_h.0 as int, 2),
            reach.0 as int,
        ),
{
    let hw: i64 = pad_w.0 / 2;
    let hh: i64 = pad_h.0 / 2;
    let ghost g = guard(spoke_half, clearance, pad_net@, layer, orphan_traces@, orphan_vias@);
    let first = orthogonal_candidates(center, hw, hh, reach.0);
    let straight = clear_ones(
        &first,
        spoke_half,
        clearance,
        pad_net,
        layer,
        board,
        orphan_traces,
        orphan_vias,
    );
    if straight.len() > 0 {
        return straight;
    }
    let second = diagonal_candidates(center, hw, hh, reach.0);
    let slanted = clear_ones(
        &second,
        spoke_half,
        clearance,
        pad_net,
        layer,
        board,
        orphan_traces,
        orphan_vias,
    );
    if slanted.len() > 0 {
        return slanted;
    }
    let ghost w = sweep(g, *board, center, hw as int, hh as int, reach.0 as int);
    let mut clear: Vec<bool> = Vec::new();
    let mut any = false;
    let mut i: usize = 0;
    while i < STEPS
        invariant
            i <= STEPS,
            board.in_range(),
            center.within(4 * COORD_MAX),
            -COORD_MAX <= hw <= COORD_MAX,
            -COORD_MAX <= hh <= COORD_MAX,
            -COORD_MAX <= spoke_half.0 <= COORD_MAX,
            -COORD_MAX <= clearance.0 <= COORD_MAX,
            -2 * COORD_MAX <= reach.0 <= 2 * COORD_MAX,
            g == guard(spoke_half, clearance, pad_net@, layer, orphan_traces@, orphan_vias@),
            w == sweep(g, *board, center, hw as int, hh as int, reach.0 as int),
            clear@.len() == i,
            forall|k: int| 0 <= k < i ==> #[trigger] clear@[k] == w[k],
            any == exists|k: int| 0 <= k < i && #[trigger] w[k],
        decreases STEPS - i,
    {
        let c = angled_candidate(center, hw, hh, reach.0, i);
        let ok = spoke_clear(
            c.0,
            c.1,
            spoke_half,
            clearance,
            pad_net,
            layer,
            board,
            orphan_traces,
            orphan_vias,
        );
        assert(w[i as int] == ok);
        clear.push(ok);
        if ok {
            any = true;
        }
        i += 1;
    }
    assert(clear@ =~= w);
    if !any {
        return Vec::new();
    }
    let (start, len) = longest_run(&clear);
    let mid: usize = (start + len / 2) % STEPS;
    proof {
        let s = choose|s: int| #[trigger] widest(w, s);
        assert(widest(w, start as int));
        widest_is_unique(w, s, start as int);
    }
    let mut out: Vec<(Point, Point)> = Vec::new();
    out.push(angled_candidate(center, hw, hh, reach.0, mid));
    assert(out@ =~= seq![angled(center, hw as int, hh as int, reach.0 as int, sweep_middle(w))]);
    out
}

/// Every spoke that is chosen is clear, and a pad is left without spokes
/// only if every orthogonal, diagonal and swept direction is blocked.
pub proof fn spokes_are_clear_and_complete(
    g: Guard,
    board: Board,
    c: Point,
    hw: int,
    hh: int,
    reach: int,
)
    ensures
        forall|i: int|
            0 <= i < spokes(g, board, c, hw, hh, reach).len() ==> g.pass(board)(
                #[trigger] spokes(g, board, c, hw, hh, reach)[i],
            ),
        spokes(g, board, c, hw, hh, reach).len() == 0 <==> {
            &&& forall|i: int|
                0 <= i < 4 ==> !g.pass(board)(#[trigger] ortho(c, hw, hh, reach)[i])
            &&& forall|i: int|
                0 <= i < 4 ==> !g.pass(board)(#[trigger] diagonal(c, hw, hh, reach)[i])
            &&& forall|i: int|
                0 <= i < STEPS ==> !g.pass(board)(#[trigger] angled(c, hw, hh, reach, i))
        },
{
    let p = g.pass(board);
    let os = ortho(c, hw, hh, reach);
    let ds = diagonal(c, hw, hh, reach);
    let w = sweep(g, board, c, hw, hh, reach);
    let r = spokes(g, board, c, hw, hh, reach);
    crate::list::filter_sound(os, p);
    crate::list::filter_sound(ds, p);
    assert forall|i: int| 0 <= i < 4 && os.filter(p).len() == 0 implies !p(#[trigger] os[i]) by {
        if p(os[i]) {
            crate::list::filter_complete(os, p, i);
        }
    }
    assert forall|i: int| 0 <= i < 4 && ds.filter(p).len() == 0 implies !p(#[trigger] ds[i]) by {
        if p(ds[i]) {
            crate::list::filter_complete(ds, p, i);
        }
    }
    if exists|i: int| 0 <= i < STEPS && #[trigger] w[i] {
        let i = choose|i: int| 0 <= i < STEPS && #[trigger] w[i];
        widest_exists(w);
        let s = choose|s: int| #[trigger] widest(w, s);
        let n = w.len() as int;
        run_range(w, i, n);
        run_range(w, s, n);
        assert(run(w, i, n) >= 1) by {
            run_range(w, (i + 1) % n, n - 1);
        }
        assert(run(w, s, n) >= 1);
        run_is_clear(w, s, n, run(w, s, n) / 2);
        assert(w[sweep_middle(w)]);
        assert(0 <= sweep_middle(w) < n);
        assert(p(angled(c, hw, hh, reach, i)));
    } else {
        assert forall|i: int| 0 <= i < STEPS implies !p(#[trigger] angled(c, hw, hh, reach, i)) by {
            assert(w[i] == p(angled(c, hw, hh, reach, i)));
        }
    }
    if os.filter(p).len() > 0 {
        let x = os.filter(p)[0];
        assert(os.contains(x));
        let k = choose|k: int| 0 <= k < os.len() && os[k] == x;
        assert(p(os[k]));
    }
    if ds.filter(p).len() > 0 {
        let x = ds.filter(p)[0];
        assert(ds.contains(x));
        let k = choose|k: int| 0 <= k < ds.len() && ds[k] == x;
        assert(p(ds[k]));
    }
}

/// There is a first start of the longest run.
proof fn widest_exists(clear: Seq<bool>)
    requires
        clear.len() > 0,
    ensures
        exists|s: int| #[trigger] widest(clear, s),
{
    let s = widest_upto(clear, clear.len() as int);
    assert(widest(clear, s));
}

proof fn widest_upto(clear: Seq<bool>, m: int) -> (s: int)
    requires
        0 < m <= clear.len(),
    ensures
        0 <= s < m,
        forall|j: int|
            0 <= j < m ==> #[trigger] run(clear, j, clear.len() as int) <= run(
                clear,
                s,
                clear.len() as int,
            ),
        forall|j: int|
            0 <= j < s ==> #[trigger] run(clear, j, clear.len() as int) < run(
                clear,
                s,
                clear.len() as int,
            ),
    decreases m,
{
    let n = clear.len() as int;
    if m == 1 {
        0
    } else {
        let s = widest_upto(clear, m - 1);
        if run(clear, m - 1, n) > run(clear, s, n) {
            m - 1
        } else {
            s
        }
    }
}

} // verus!
