//! What clipping leaves of a stroke: pieces that lie on the stroke, keep out
//! of the rectangles and cover all the rest of it, up to the rounding of
//! their ends to whole nanometres.

use vstd::prelude::*;

use crate::geometry::{Point, Rect};
use crate::rotation;
use crate::silk_clip;
use crate::silk_clip::{CLIP_MAX, Frac, STUB_RATIO};
use crate::units;

verus! {

/// The point `(x / d, y / d)`; `d` is positive.
pub ghost struct Spot {
    pub x: int,
    pub y: int,
    pub d: int,
}

/// The point of segment `a`-`b` at parameter `n / d`.
pub open spec fn spot(a: Point, b: Point, n: int, d: int) -> Spot {
    Spot {
        x: a.x.0 * d + (b.x.0 - a.x.0) * n,
        y: a.y.0 * d + (b.y.0 - a.y.0) * n,
        d,
    }
}

/// `n / d` is a number from zero to one.
pub open spec fn is_share(n: int, d: int) -> bool {
    0 < d && 0 <= n <= d
}

/// `x / d` and `y / c` differ by at most `e / 2`.
pub open spec fn close(x: int, d: int, y: int, c: int, e: int) -> bool {
    -(e * (d * c)) <= 2 * (x * c - y * d) <= e * (d * c)
}

/// The two points are at most `e / 2` nanometres apart on each axis.
pub open spec fn near(p: Spot, q: Spot, e: int) -> bool {
    close(p.x, p.d, q.x, q.d, e) && close(p.y, p.d, q.y, q.d, e)
}

/// The point at `n / d` of segment `a`-`b` is that near to `p`.
pub open spec fn passes(a: Point, b: Point, p: Spot, e: int, n: int, d: int) -> bool {
    is_share(n, d) && near(spot(a, b, n, d), p, e)
}

/// Segment `a`-`b` comes within `e / 2` nanometres of `p` on each axis.
pub open spec fn reaches(a: Point, b: Point, p: Spot, e: int) -> bool {
    exists|n: int, d: int| passes(a, b, p, e, n, d)
}

/// The point is inside the rectangle, by more than `e / 2` nanometres on
/// each side.
pub open spec fn deep(p: Spot, r: Rect, e: int) -> bool {
    &&& (2 * r.min.x.0 + e) * p.d < 2 * p.x < (2 * r.max.x.0 - e) * p.d
    &&& (2 * r.min.y.0 + e) * p.d < 2 * p.y < (2 * r.max.y.0 - e) * p.d
}

/// The point is outside the rectangle, by more than `g / 2` nanometres on
/// one side.
pub open spec fn beyond(p: Spot, r: Rect, g: int) -> bool {
    ||| 2 * p.x < (2 * r.min.x.0 - g) * p.d
    ||| 2 * p.x > (2 * r.max.x.0 + g) * p.d
    ||| 2 * p.y < (2 * r.min.y.0 - g) * p.d
    ||| 2 * p.y > (2 * r.max.y.0 + g) * p.d
}

/// Every point of every piece is within `e / 2` nanometres of segment
/// `a`-`b` on each axis.
pub open spec fn on_segment(pieces: Seq<(Point, Point)>, a: Point, b: Point, e: int) -> bool {
    forall|i: int, m: int, c: int|
        0 <= i < pieces.len() && is_share(m, c) ==> reaches(
            a,
            b,
            #[trigger] spot(pieces[i].0, pieces[i].1, m, c),
            e,
        )
}

/// No point of a piece is inside the rectangle by more than `e / 2`
/// nanometres on each side.
pub open spec fn keep_out(pieces: Seq<(Point, Point)>, r: Rect, e: int) -> bool {
    forall|i: int, m: int, c: int|
        0 <= i < pieces.len() && is_share(m, c) ==> !deep(
            #[trigger] spot(pieces[i].0, pieces[i].1, m, c),
            r,
            e,
        )
}

/// Piece `i` comes within `e / 2` nanometres of the point on each axis.
pub open spec fn covered_by(pieces: Seq<(Point, Point)>, p: Spot, e: int, i: int) -> bool {
    0 <= i < pieces.len() && reaches(pieces[i].0, pieces[i].1, p, e)
}

/// Some piece comes within `e / 2` nanometres of the point on each axis.
pub open spec fn covered(pieces: Seq<(Point, Point)>, p: Spot, e: int) -> bool {
    exists|i: int| covered_by(pieces, p, e, i)
}

/// The longer side of the box around a segment.
pub open spec fn extent(a: Point, b: Point) -> int {
    units::max(units::abs(b.x.0 - a.x.0), units::abs(b.y.0 - a.y.0))
}

/// The point is more than `g / 2` nanometres outside each of the first `k`
/// rectangles.
pub open spec fn clear_of(p: Spot, rects: Seq<Rect>, g: int, k: int) -> bool {
    forall|j: int| 0 <= j < k ==> beyond(p, #[trigger] rects[j], g)
}

/// Every point of segment `a`-`b` that is far enough outside the first `k`
/// rectangles, by the roundings and the length of the longest stub that is
/// dropped, is within `e / 2` nanometres of a piece.
pub open spec fn cover(
    pieces: Seq<(Point, Point)>,
    a: Point,
    b: Point,
    rects: Seq<Rect>,
    k: int,
    e: int,
) -> bool {
    forall|n: int, d: int, g: int|
        is_share(n, d) && STUB_RATIO * (g - e) >= 2 * extent(a, b) && #[trigger] clear_of(
            spot(a, b, n, d),
            rects,
            g,
            k,
        ) ==> covered(pieces, spot(a, b, n, d), e)
}

proof fn close_chain(x: int, d: int, y: int, c: int, z: int, b: int, e: int, f: int)
    requires
        0 < d,
        0 < c,
        0 < b,
        close(x, d, y, c, e),
        close(y, c, z, b, f),
    ensures
        close(x, d, z, b, e + f),
{
    let s = 2 * (x * c - y * d);
    let t = 2 * (y * b - z * c);
    let w = 2 * (x * b - z * d);
    assert(c * w == b * s + d * t) by (nonlinear_arith)
        requires
            s == 2 * (x * c - y * d),
            t == 2 * (y * b - z * c),
            w == 2 * (x * b - z * d),
    ;
    let es = e * (d * c);
    let ft = f * (c * b);
    assert(-(b * es) <= b * s <= b * es) by (nonlinear_arith)
        requires
            -es <= s <= es,
            b > 0,
    ;
    assert(-(d * ft) <= d * t <= d * ft) by (nonlinear_arith)
        requires
            -ft <= t <= ft,
            d > 0,
    ;
    let q = (e + f) * (d * b);
    assert(b * es == c * (e * (d * b))) by (nonlinear_arith)
        requires
            es == e * (d * c),
    ;
    assert(d * ft == c * (f * (d * b))) by (nonlinear_arith)
        requires
            ft == f * (c * b),
    ;
    let k = d * b;
    assert(c * (e * k) + c * (f * k) == c * ((e + f) * k)) by (nonlinear_arith);
    assert(-q <= w <= q) by (nonlinear_arith)
        requires
            -(c * q) <= c * w <= c * q,
            c > 0,
    ;
}

proof fn near_chain(p: Spot, q: Spot, r: Spot, e: int, f: int)
    requires
        0 < p.d,
        0 < q.d,
        0 < r.d,
        near(p, q, e),
        near(q, r, f),
    ensures
        near(p, r, e + f),
{
    close_chain(p.x, p.d, q.x, q.d, r.x, r.d, e, f);
    close_chain(p.y, p.d, q.y, q.d, r.y, r.d, e, f);
}

proof fn close_flips(x: int, d: int, y: int, c: int, e: int)
    requires
        close(x, d, y, c, e),
    ensures
        close(y, c, x, d, e),
{
    assert(e * (d * c) == e * (c * d)) by (nonlinear_arith);
}

proof fn near_flips(p: Spot, q: Spot, e: int)
    requires
        near(p, q, e),
    ensures
        near(q, p, e),
{
    close_flips(p.x, p.d, q.x, q.d, e);
    close_flips(p.y, p.d, q.y, q.d, e);
}

proof fn near_itself(p: Spot, e: int)
    requires
        0 < p.d,
        0 <= e,
    ensures
        near(p, p, e),
{
    let d = p.d;
    assert(e * (d * d) >= 0) by (nonlinear_arith)
        requires
            e >= 0,
            d > 0,
    ;
}

/// A common factor of the coordinates does not matter.
proof fn close_reduced(k: int, x: int, d: int, y: int, c: int, e: int)
    requires
        0 < k,
        close(k * x, k * d, y, c, e),
    ensures
        close(x, d, y, c, e),
{
    let w = 2 * (x * c - y * d);
    let q = e * (d * c);
    assert(2 * ((k * x) * c - y * (k * d)) == k * w) by (nonlinear_arith)
        requires
            w == 2 * (x * c - y * d),
    ;
    assert(e * ((k * d) * c) == k * q) by (nonlinear_arith)
        requires
            q == e * (d * c),
    ;
    assert(-q <= w <= q) by (nonlinear_arith)
        requires
            -(k * q) <= k * w <= k * q,
            k > 0,
    ;
}

/// A point above a bound by more than the distance to another leaves that
/// one above it.
proof fn above_nearby(x: int, d: int, y: int, c: int, lo: int, e: int)
    requires
        0 < d,
        0 < c,
        close(x, d, y, c, e),
        (lo + e) * c < 2 * y,
    ensures
        lo * d < 2 * x,
{
    assert((lo + e) * c * d < 2 * y * d) by (nonlinear_arith)
        requires
            (lo + e) * c < 2 * y,
            d > 0,
    ;
    assert((lo + e) * c * d == lo * d * c + e * (d * c)) by (nonlinear_arith);
    let s = x * c - y * d;
    assert(lo * d * c < 2 * x * c) by (nonlinear_arith)
        requires
            lo * d * c + e * (d * c) < 2 * y * d,
            -(e * (d * c)) <= 2 * (x * c - y * d),
    ;
    assert(lo * d < 2 * x) by (nonlinear_arith)
        requires
            lo * d * c < 2 * x * c,
            c > 0,
    ;
}

proof fn below_nearby(x: int, d: int, y: int, c: int, hi: int, e: int)
    requires
        0 < d,
        0 < c,
        close(x, d, y, c, e),
        2 * y < (hi - e) * c,
    ensures
        2 * x < hi * d,
{
    assert(close(-x, d, -y, c, e)) by {
        assert((-x) * c - (-y) * d == -(x * c - y * d)) by (nonlinear_arith);
    }
    assert((-hi + e) * c < 2 * (-y)) by (nonlinear_arith)
        requires
            2 * y < (hi - e) * c,
    ;
    above_nearby(-x, d, -y, c, -hi, e);
    assert((-hi) * d == -(hi * d)) by (nonlinear_arith);
}

/// What is near to a point deep inside is inside, by so much less.
proof fn deep_nearby(p: Spot, q: Spot, r: Rect, e: int, f: int)
    requires
        0 < p.d,
        0 < q.d,
        near(p, q, f),
        deep(q, r, e + f),
    ensures
        deep(p, r, e),
{
    assert(2 * r.min.x.0 + (e + f) == (2 * r.min.x.0 + e) + f);
    assert(2 * r.max.x.0 - (e + f) == (2 * r.max.x.0 - e) - f);
    assert(2 * r.min.y.0 + (e + f) == (2 * r.min.y.0 + e) + f);
    assert(2 * r.max.y.0 - (e + f) == (2 * r.max.y.0 - e) - f);
    above_nearby(p.x, p.d, q.x, q.d, 2 * r.min.x.0 + e, f);
    below_nearby(p.x, p.d, q.x, q.d, 2 * r.max.x.0 - e, f);
    above_nearby(p.y, p.d, q.y, q.d, 2 * r.min.y.0 + e, f);
    below_nearby(p.y, p.d, q.y, q.d, 2 * r.max.y.0 - e, f);
}

/// What is near to a point far outside is outside, by so much less.
proof fn beyond_nearby(p: Spot, q: Spot, r: Rect, g: int, f: int)
    requires
        0 < p.d,
        0 < q.d,
        near(p, q, f),
        beyond(q, r, g),
    ensures
        beyond(p, r, g - f),
{
    if 2 * q.x < (2 * r.min.x.0 - g) * q.d {
        assert(2 * r.min.x.0 - g == (2 * r.min.x.0 - (g - f)) - f);
        below_nearby(p.x, p.d, q.x, q.d, 2 * r.min.x.0 - (g - f), f);
    } else if 2 * q.x > (2 * r.max.x.0 + g) * q.d {
        assert(2 * r.max.x.0 + g == (2 * r.max.x.0 + (g - f)) + f);
        above_nearby(p.x, p.d, q.x, q.d, 2 * r.max.x.0 + (g - f), f);
    } else if 2 * q.y < (2 * r.min.y.0 - g) * q.d {
        assert(2 * r.min.y.0 - g == (2 * r.min.y.0 - (g - f)) - f);
        below_nearby(p.y, p.d, q.y, q.d, 2 * r.min.y.0 - (g - f), f);
    } else {
        assert(2 * r.max.y.0 + g == (2 * r.max.y.0 + (g - f)) + f);
        above_nearby(p.y, p.d, q.y, q.d, 2 * r.max.y.0 + (g - f), f);
    }
}

/// Inside by more is inside by less.
proof fn deep_enough(p: Spot, r: Rect, e: int, f: int)
    requires
        0 < p.d,
        e <= f,
        deep(p, r, f),
    ensures
        deep(p, r, e),
{
    let d = p.d;
    let (x0, x1, y0, y1) = (2 * r.min.x.0, 2 * r.max.x.0, 2 * r.min.y.0, 2 * r.max.y.0);
    assert((x0 + e) * d <= (x0 + f) * d && (x1 - f) * d <= (x1 - e) * d && (y0 + e) * d <= (y0 + f)
        * d && (y1 - f) * d <= (y1 - e) * d) by (nonlinear_arith)
        requires
            e <= f,
            d > 0,
    ;
}

proof fn rounding_error(a: int, b: int)
    requires
        b > 0,
    ensures
        -b <= 2 * (rotation::rounded(a, b) * b - a) <= b,
{
    let m = units::abs(a);
    let q = (2 * m + b) / (2 * b);
    assert(-b <= 2 * (q * b - m) <= b) by (nonlinear_arith)
        requires
            q == (2 * m + b) / (2 * b),
            b > 0,
    ;
    assert((-q) * b == -(q * b)) by (nonlinear_arith);
}

/// A rounded number stays between whole bounds.
proof fn rounding_keeps_bounds(a: int, b: int, lo: int, hi: int)
    requires
        b > 0,
        lo * b <= a <= hi * b,
    ensures
        lo <= rotation::rounded(a, b) <= hi,
{
    rounding_error(a, b);
    let q = rotation::rounded(a, b);
    assert(lo <= q <= hi) by (nonlinear_arith)
        requires
            lo * b <= a <= hi * b,
            -b <= 2 * (q * b - a) <= b,
            b > 0,
    ;
}

/// `p` lies in the box around `a` and `b`.
pub open spec fn boxed(a: Point, b: Point, p: Point) -> bool {
    &&& units::min(a.x.0 as int, b.x.0 as int) <= p.x.0 <= units::max(a.x.0 as int, b.x.0 as int)
    &&& units::min(a.y.0 as int, b.y.0 as int) <= p.y.0 <= units::max(a.y.0 as int, b.y.0 as int)
}

/// The bounds of a share of the way from `u` to `v`.
proof fn share_bounds(u: int, v: int, n: int, d: int)
    requires
        is_share(n, d),
    ensures
        units::min(u, v) * d <= u * d + (v - u) * n <= units::max(u, v) * d,
{
    if u <= v {
        assert(u * d <= u * d + (v - u) * n <= v * d) by (nonlinear_arith)
            requires
                0 <= n <= d,
                u <= v,
        ;
    } else {
        assert(v * d <= u * d + (v - u) * n <= u * d) by (nonlinear_arith)
            requires
                0 <= n <= d,
                v <= u,
        ;
    }
}

/// The point at a fraction of the way, rounded: it lies in the box around
/// the ends, and at most half a nanometre off.
proof fn cut_end(a: Point, b: Point, t: Frac)
    requires
        is_share(t.n as int, t.d as int),
    ensures
        ({
            let w = silk_clip::at(a, b, t);
            let p = spot(a, b, t.n as int, t.d as int);
            &&& boxed(a, b, w)
            &&& -p.d <= 2 * (w.x.0 * p.d - p.x) <= p.d
            &&& -p.d <= 2 * (w.y.0 * p.d - p.y) <= p.d
        }),
{
    let (n, d) = (t.n as int, t.d as int);
    let p = spot(a, b, n, d);
    share_bounds(a.x.0 as int, b.x.0 as int, n, d);
    share_bounds(a.y.0 as int, b.y.0 as int, n, d);
    rounding_error(p.x, d);
    rounding_error(p.y, d);
    rounding_keeps_bounds(
        p.x,
        d,
        units::min(a.x.0 as int, b.x.0 as int),
        units::max(a.x.0 as int, b.x.0 as int),
    );
    rounding_keeps_bounds(
        p.y,
        d,
        units::min(a.y.0 as int, b.y.0 as int),
        units::max(a.y.0 as int, b.y.0 as int),
    );
}

/// On one axis: the way to a rounded end `w` keeps to the way to the exact
/// one.
proof fn close_before(u: int, v: int, w: int, n: int, d: int, m: int, c: int)
    requires
        is_share(n, d),
        is_share(m, c),
        -d <= 2 * (w * d - (u * d + (v - u) * n)) <= d,
    ensures
        close(
            u * (c * d) + (v - u) * (m * n),
            c * d,
            u * c + (w - u) * m,
            c,
            1,
        ),
{
    let off = w * d - (u * d + (v - u) * n);
    let x = u * (c * d) + (v - u) * (m * n);
    let y = u * c + (w - u) * m;
    let g = v - u;
    assert(y * d == (u * c) * d + ((w - u) * m) * d) by (nonlinear_arith)
        requires
            y == u * c + (w - u) * m,
    ;
    assert((u * c) * d == u * (c * d)) by (nonlinear_arith);
    assert(((w - u) * m) * d == m * (w * d) - m * (u * d)) by (nonlinear_arith);
    assert(g * (m * n) == m * (g * n)) by (nonlinear_arith);
    let (wd, ud, gn) = (w * d, u * d, g * n);
    assert(m * (wd - (ud + gn)) == m * wd - m * ud - m * gn) by (nonlinear_arith);
    assert(y * d - x == m * off);
    assert(-(c * d) <= 2 * (m * off) <= c * d) by (nonlinear_arith)
        requires
            -d <= 2 * off <= d,
            0 <= m <= c,
            0 < d,
    ;
    let k = c * d;
    assert(2 * (x * c - y * k) == -(2 * (m * off)) * c) by (nonlinear_arith)
        requires
            k == c * d,
            y * d - x == m * off,
    ;
    assert(-(k * c) <= -(2 * (m * off)) * c <= k * c) by (nonlinear_arith)
        requires
            -k <= 2 * (m * off) <= k,
            c > 0,
    ;
}

/// The same for the way from a rounded start.
proof fn close_behind(u: int, v: int, w: int, n: int, d: int, m: int, c: int)
    requires
        is_share(n, d),
        is_share(m, c),
        -d <= 2 * (w * d - (u * d + (v - u) * n)) <= d,
    ensures
        close(
            u * (c * d) + (v - u) * (n * c + m * (d - n)),
            c * d,
            w * c + (v - w) * m,
            c,
            1,
        ),
{
    let off = w * d - (u * d + (v - u) * n);
    let x = u * (c * d) + (v - u) * (n * c + m * (d - n));
    let y = w * c + (v - w) * m;
    let g = v - u;
    assert(y * d == (c - m) * (w * d) + m * (v * d)) by (nonlinear_arith)
        requires
            y == w * c + (v - w) * m,
    ;
    let (ud, gn, gd) = (u * d, g * n, g * d);
    assert(u * (c * d) == c * ud) by (nonlinear_arith)
        requires
            ud == u * d,
    ;
    assert(g * (n * c + m * (d - n)) == g * (n * c) + g * (m * (d - n))) by (nonlinear_arith);
    assert(g * (n * c) == c * gn) by (nonlinear_arith)
        requires
            gn == g * n,
    ;
    assert(g * (m * (d - n)) == m * gd - m * gn) by (nonlinear_arith)
        requires
            gn == g * n,
            gd == g * d,
    ;
    assert((c - m) * (ud + gn) + m * (ud + gd) == c * ud + c * gn + m * gd - m * gn)
        by (nonlinear_arith);
    assert(x == (c - m) * (u * d + g * n) + m * (u * d + g * d));
    assert(u * d + g * d == v * d) by (nonlinear_arith)
        requires
            g == v - u,
    ;
    assert((c - m) * (w * d) - (c - m) * (u * d + g * n) == (c - m) * off) by (nonlinear_arith)
        requires
            off == w * d - (u * d + g * n),
    ;
    assert(y * d - x == (c - m) * off);
    let h = c - m;
    assert(-(c * d) <= 2 * (h * off) <= c * d) by (nonlinear_arith)
        requires
            -d <= 2 * off <= d,
            0 <= h <= c,
            0 < d,
    ;
    let k = c * d;
    assert(2 * (x * c - y * k) == -(2 * (h * off)) * c) by (nonlinear_arith)
        requires
            k == c * d,
            y * d - x == h * off,
    ;
    assert(-(k * c) <= -(2 * (h * off)) * c <= k * c) by (nonlinear_arith)
        requires
            -k <= 2 * (h * off) <= k,
            c > 0,
    ;
}

/// A point of the stub before a cut, and the point of the segment that it
/// stands for.
proof fn stub_before(a: Point, b: Point, t: Frac, m: int, c: int)
    requires
        is_share(t.n as int, t.d as int),
        is_share(m, c),
    ensures
        is_share(m * t.n, c * t.d),
        m * t.n * t.d <= t.n * (c * t.d),
        near(spot(a, b, m * t.n, c * t.d), spot(a, silk_clip::at(a, b, t), m, c), 1),
{
    let (n, d) = (t.n as int, t.d as int);
    cut_end(a, b, t);
    let w = silk_clip::at(a, b, t);
    close_before(a.x.0 as int, b.x.0 as int, w.x.0 as int, n, d, m, c);
    close_before(a.y.0 as int, b.y.0 as int, w.y.0 as int, n, d, m, c);
    assert(0 <= m * n <= c * d && 0 < c * d && m * n * d <= n * (c * d)) by (nonlinear_arith)
        requires
            0 <= m <= c,
            0 <= n <= d,
            0 < c,
            0 < d,
    ;
}

/// The same behind a cut.
proof fn stub_behind(a: Point, b: Point, t: Frac, m: int, c: int)
    requires
        is_share(t.n as int, t.d as int),
        is_share(m, c),
    ensures
        is_share(t.n * c + m * (t.d - t.n), c * t.d),
        (t.n * c + m * (t.d - t.n)) * t.d >= t.n * (c * t.d),
        near(
            spot(a, b, t.n * c + m * (t.d - t.n), c * t.d),
            spot(silk_clip::at(a, b, t), b, m, c),
            1,
        ),
{
    let (n, d) = (t.n as int, t.d as int);
    cut_end(a, b, t);
    let w = silk_clip::at(a, b, t);
    close_behind(a.x.0 as int, b.x.0 as int, w.x.0 as int, n, d, m, c);
    close_behind(a.y.0 as int, b.y.0 as int, w.y.0 as int, n, d, m, c);
    let h = d - n;
    assert(0 <= n * c + m * h <= c * d && 0 < c * d) by (nonlinear_arith)
        requires
            0 <= m <= c,
            0 <= n,
            0 <= h,
            d == n + h,
            0 < c,
            0 < d,
    ;
    assert((n * c + m * h) * d >= n * (c * d)) by (nonlinear_arith)
        requires
            0 <= m,
            0 <= h,
            0 < d,
    ;
}

/// The bound holds with room to spare.
pub open spec fn strict(e: (int, int), n: int, d: int) -> bool {
    e.0 * n < e.1 * d
}

proof fn deep_is_strict(a: Point, b: Point, r: Rect, n: int, d: int, i: int)
    requires
        is_share(n, d),
        deep(spot(a, b, n, d), r, 0),
        0 <= i < 4,
    ensures
        strict(silk_clip::edges(a, b, r)[i], n, d),
        silk_clip::inside_at(a, b, r, n, d),
{
    let e = silk_clip::edges(a, b, r)[i];
    let dx = b.x.0 - a.x.0;
    let dy = b.y.0 - a.y.0;
    let p = spot(a, b, n, d);
    let (x0, x1, y0, y1) = (
        r.min.x.0 as int,
        r.max.x.0 as int,
        r.min.y.0 as int,
        r.max.y.0 as int,
    );
    assert(x0 * d < p.x < x1 * d && y0 * d < p.y < y1 * d) by (nonlinear_arith)
        requires
            (2 * x0 + 0) * d < 2 * p.x < (2 * x1 - 0) * d,
            (2 * y0 + 0) * d < 2 * p.y < (2 * y1 - 0) * d,
    ;
    let (ax, ay) = (a.x.0 as int, a.y.0 as int);
    assert((-dx) * n < (ax - x0) * d && dx * n < (x1 - ax) * d && (-dy) * n < (ay - y0) * d && dy * n
        < (y1 - ay) * d) by (nonlinear_arith)
        requires
            x0 * d < ax * d + dx * n < x1 * d,
            y0 * d < ay * d + dy * n < y1 * d,
    ;
}

/// The fraction meets one of the bounds with no room to spare.
pub open spec fn is_tight(es: Seq<(int, int)>, t: Frac) -> bool {
    exists|i: int| 0 <= i < 4 && (#[trigger] es[i]).0 * t.n == es[i].1 * t.d
}

proof fn narrowed_is_tight(t: (Frac, Frac), es: Seq<(int, int)>, i: int)
    requires
        0 <= i < 4,
        -2 * CLIP_MAX <= es[i].0 <= 2 * CLIP_MAX,
        -2 * CLIP_MAX <= es[i].1 <= 2 * CLIP_MAX,
    ensures
        silk_clip::narrowed(t, es[i]).0 == t.0 || is_tight(es, silk_clip::narrowed(t, es[i]).0),
        silk_clip::narrowed(t, es[i]).1 == t.1 || is_tight(es, silk_clip::narrowed(t, es[i]).1),
{
    let (p, q) = es[i];
    if p < 0 {
        let f = Frac { n: (-q) as i128, d: (-p) as i128 };
        assert(p * (-q) == q * (-p)) by (nonlinear_arith);
        assert(es[i].0 * f.n == es[i].1 * f.d);
    } else if p > 0 {
        let f = Frac { n: q as i128, d: p as i128 };
        assert(p * q == q * p) by (nonlinear_arith);
        assert(es[i].0 * f.n == es[i].1 * f.d);
    }
}

/// Each end of the interval is an end of the segment, or meets a bound with
/// no room to spare.
pub proof fn ends_are_tight(a: Point, b: Point, r: Rect)
    requires
        a.within(CLIP_MAX as int),
        b.within(CLIP_MAX as int),
        r.within(CLIP_MAX as int),
    ensures
        ({
            let es = silk_clip::edges(a, b, r);
            let t = silk_clip::interval(es, 4);
            &&& t.0 == (Frac { n: 0, d: 1 }) || is_tight(es, t.0)
            &&& t.1 == (Frac { n: 1, d: 1 }) || is_tight(es, t.1)
        }),
{
    let es = silk_clip::edges(a, b, r);
    reveal_with_fuel(silk_clip::interval, 5);
    narrowed_is_tight(silk_clip::interval(es, 0), es, 0);
    narrowed_is_tight(silk_clip::interval(es, 1), es, 1);
    narrowed_is_tight(silk_clip::interval(es, 2), es, 2);
    narrowed_is_tight(silk_clip::interval(es, 3), es, 3);
}

/// Where a bound is met with no room to spare, the point is not deep.
proof fn tight_is_not_deep(a: Point, b: Point, r: Rect, t: Frac, n: int, d: int)
    requires
        is_tight(silk_clip::edges(a, b, r), t),
        0 < t.d,
        is_share(n, d),
        n * t.d == t.n * d,
    ensures
        !deep(spot(a, b, n, d), r, 0),
{
    let es = silk_clip::edges(a, b, r);
    if deep(spot(a, b, n, d), r, 0) {
        let i = choose|i: int| 0 <= i < 4 && (#[trigger] es[i]).0 * t.n == es[i].1 * t.d;
        deep_is_strict(a, b, r, n, d, i);
        let (p, q) = es[i];
        let (tn, td) = (t.n as int, t.d as int);
        assert(false) by (nonlinear_arith)
            requires
                p * n < q * d,
                p * tn == q * td,
                n * td == tn * d,
                d > 0,
                td > 0,
        {
            assert((p * n) * td < (q * d) * td);
            assert((p * n) * td == p * (tn * d));
            assert(p * (tn * d) == (p * tn) * d);
            assert((q * d) * td == (q * td) * d);
        }
    }
}

/// What is left of a segment lies in the box around its ends.
pub open spec fn all_boxed(pieces: Seq<(Point, Point)>, a: Point, b: Point) -> bool {
    forall|i: int|
        0 <= i < pieces.len() ==> boxed(a, b, (#[trigger] pieces[i]).0) && boxed(a, b, pieces[i].1)
}

/// A segment, rectangle and all inside the range that is clipped.
pub open spec fn clippable(a: Point, b: Point, r: Rect) -> bool {
    a.within(CLIP_MAX as int) && b.within(CLIP_MAX as int) && r.within(CLIP_MAX as int)
}

proof fn unbitten_is_not_deep(a: Point, b: Point, r: Rect, n: int, d: int)
    requires
        clippable(a, b, r),
        !silk_clip::bites(a, b, r),
        is_share(n, d),
    ensures
        !deep(spot(a, b, n, d), r, 0),
{
    if deep(spot(a, b, n, d), r, 0) {
        deep_is_strict(a, b, r, n, d, 0);
        silk_clip::cut_interval_is_exact(a, b, r, n, d);
        silk_clip::interval_is_within(a, b, r);
        ends_are_tight(a, b, r);
        let es = silk_clip::edges(a, b, r);
        let t = silk_clip::interval(es, 4);
        let (n0, d0, n1, d1) = (t.0.n as int, t.0.d as int, t.1.n as int, t.1.d as int);
        if n0 * d == n * d0 && is_tight(es, t.0) {
            tight_is_not_deep(a, b, r, t.0, n, d);
        }
        if n * d1 == n1 * d && is_tight(es, t.1) {
            tight_is_not_deep(a, b, r, t.1, n, d);
        }
        assert(n0 * d < n * d0 || n * d1 < n1 * d) by {
            if n0 * d == n * d0 && n * d1 == n1 * d {
                assert(0 * d == 0 && n * 1 == n && 1 * d == d) by (nonlinear_arith);
            }
        }
        assert(n0 * d1 < n1 * d0) by (nonlinear_arith)
            requires
                n0 * d <= n * d0,
                n * d1 <= n1 * d,
                n0 * d < n * d0 || n * d1 < n1 * d,
                d > 0,
                d0 > 0,
                d1 > 0,
        {
            assert((n0 * d) * d1 <= (n * d0) * d1);
            assert((n * d1) * d0 <= (n1 * d) * d0);
            if n0 * d < n * d0 {
                assert((n0 * d) * d1 < (n * d0) * d1);
            } else {
                assert((n * d1) * d0 < (n1 * d) * d0);
            }
            assert((n0 * d1) * d < (n1 * d0) * d);
        }
    }
}

proof fn left_whole(a: Point, b: Point, r: Rect)
    requires
        clippable(a, b, r),
        !silk_clip::bites(a, b, r),
    ensures
        on_segment(silk_clip::outside(a, b, r), a, b, 1),
        keep_out(silk_clip::outside(a, b, r), r, 1),
        all_boxed(silk_clip::outside(a, b, r), a, b),
{
    let ps = silk_clip::outside(a, b, r);
    assert forall|i: int, m: int, c: int| 0 <= i < ps.len() && is_share(m, c) implies reaches(
        a,
        b,
        #[trigger] spot(ps[i].0, ps[i].1, m, c),
        1,
    ) by {
        let q = spot(a, b, m, c);
        near_itself(q, 1);
        assert(passes(a, b, q, 1, m, c));
    }
    assert forall|i: int, m: int, c: int| 0 <= i < ps.len() && is_share(m, c) implies !deep(
        #[trigger] spot(ps[i].0, ps[i].1, m, c),
        r,
        1,
    ) by {
        unbitten_is_not_deep(a, b, r, m, c);
        let q = spot(a, b, m, c);
        if deep(q, r, 1) {
            deep_enough(q, r, 0, 1);
        }
    }
}

/// A point of what is left before the cut or behind it: the segment passes
/// within half a nanometre, and it is not deep inside.
proof fn cut_point(a: Point, b: Point, r: Rect, i: int, m: int, c: int)
    requires
        clippable(a, b, r),
        silk_clip::bites(a, b, r),
        0 <= i < silk_clip::outside(a, b, r).len(),
        is_share(m, c),
    ensures
        ({
            let s = silk_clip::outside(a, b, r)[i];
            &&& reaches(a, b, spot(s.0, s.1, m, c), 1)
            &&& !deep(spot(s.0, s.1, m, c), r, 1)
            &&& boxed(a, b, s.0) && boxed(a, b, s.1)
        }),
{
    let es = silk_clip::edges(a, b, r);
    let t = silk_clip::interval(es, 4);
    silk_clip::a_bite_is_inside(a, b, r);
    ends_are_tight(a, b, r);
    let s = silk_clip::outside(a, b, r)[i];
    let q = spot(s.0, s.1, m, c);
    if t.0.n * STUB_RATIO > t.0.d && i == 0 {
        let (n, d) = (m * t.0.n, c * t.0.d);
        stub_before(a, b, t.0, m, c);
        cut_end(a, b, t.0);
        assert(s == (a, silk_clip::at(a, b, t.0)));
        assert(passes(a, b, q, 1, n, d));
        if deep(q, r, 1) {
            deep_nearby(spot(a, b, n, d), q, r, 0, 1);
            deep_is_strict(a, b, r, n, d, 0);
            silk_clip::cut_interval_is_exact(a, b, r, n, d);
            tight_is_not_deep(a, b, r, t.0, n, d);
        }
    } else {
        let (n, d) = (t.1.n * c + m * (t.1.d - t.1.n), c * t.1.d);
        stub_behind(a, b, t.1, m, c);
        cut_end(a, b, t.1);
        assert(s == (silk_clip::at(a, b, t.1), b));
        assert(passes(a, b, q, 1, n, d));
        if deep(q, r, 1) {
            deep_nearby(spot(a, b, n, d), q, r, 0, 1);
            deep_is_strict(a, b, r, n, d, 0);
            silk_clip::cut_interval_is_exact(a, b, r, n, d);
            tight_is_not_deep(a, b, r, t.1, n, d);
        }
    }
}

/// What one cut leaves lies on the segment and keeps out of the rectangle,
/// up to half a nanometre.
pub proof fn one_cut_keeps_out(a: Point, b: Point, r: Rect)
    requires
        clippable(a, b, r),
    ensures
        on_segment(silk_clip::outside(a, b, r), a, b, 1),
        keep_out(silk_clip::outside(a, b, r), r, 1),
        all_boxed(silk_clip::outside(a, b, r), a, b),
{
    let ps = silk_clip::outside(a, b, r);
    if !silk_clip::bites(a, b, r) {
        left_whole(a, b, r);
    } else {
        assert forall|i: int, m: int, c: int| 0 <= i < ps.len() && is_share(m, c) implies reaches(
            a,
            b,
            #[trigger] spot(ps[i].0, ps[i].1, m, c),
            1,
        ) by {
            cut_point(a, b, r, i, m, c);
        }
        assert forall|i: int, m: int, c: int| 0 <= i < ps.len() && is_share(m, c) implies !deep(
            #[trigger] spot(ps[i].0, ps[i].1, m, c),
            r,
            1,
        ) by {
            cut_point(a, b, r, i, m, c);
        }
        assert forall|i: int| 0 <= i < ps.len() implies boxed(a, b, (#[trigger] ps[i]).0) && boxed(
            a,
            b,
            ps[i].1,
        ) by {
            cut_point(a, b, r, i, 0, 1);
        }
    }
}

/// On one axis: a point that is a share of a short stub away from one
/// between the bounds is not far outside them.
proof fn not_far(lo: int, hi: int, p: int, dd: int, y: int, d: int, g: int, delta: int, sigma: int, h:
    int)
    requires
        0 < dd,
        0 < d,
        lo * dd <= p <= hi * dd,
        dd * y == d * p + g * delta,
        -(d * sigma) <= delta <= d * sigma,
        0 <= sigma,
        sigma * STUB_RATIO <= dd,
        STUB_RATIO * h >= 2 * units::abs(g),
    ensures
        (2 * lo - h) * d <= 2 * y <= (2 * hi + h) * d,
{
    let m = units::abs(g);
    let k = d * sigma;
    assert(-(m * k) <= g * delta <= m * k) by (nonlinear_arith)
        requires
            -k <= delta <= k,
            m == g || m == -g,
            m >= 0,
    ;
    assert(k >= 0) by (nonlinear_arith)
        requires
            k == d * sigma,
            d > 0,
            sigma >= 0,
    ;
    assert(2 * (m * k) <= (STUB_RATIO * h) * k) by (nonlinear_arith)
        requires
            2 * m <= STUB_RATIO * h,
            k >= 0,
    ;
    let z = sigma * STUB_RATIO;
    assert((STUB_RATIO * h) * k == h * (d * z)) by (nonlinear_arith)
        requires
            k == d * sigma,
            z == sigma * STUB_RATIO,
    ;
    assert(h >= 0);
    assert(h * (d * z) <= h * (d * dd)) by (nonlinear_arith)
        requires
            h >= 0,
            d > 0,
            z <= dd,
    ;
    assert(d * (lo * dd) <= d * p <= d * (hi * dd)) by (nonlinear_arith)
        requires
            lo * dd <= p <= hi * dd,
            d > 0,
    ;
    assert(dd * ((2 * lo - h) * d) == 2 * (d * (lo * dd)) - h * (d * dd)) by (nonlinear_arith);
    assert(dd * ((2 * hi + h) * d) == 2 * (d * (hi * dd)) + h * (d * dd)) by (nonlinear_arith);
    let (x0, x1) = ((2 * lo - h) * d, (2 * hi + h) * d);
    assert(dd * x0 <= dd * (2 * y) <= dd * x1) by {
        assert(dd * (2 * y) == 2 * (dd * y)) by (nonlinear_arith);
    }
    assert(x0 <= 2 * y <= x1) by (nonlinear_arith)
        requires
            dd * x0 <= dd * (2 * y) <= dd * x1,
            dd > 0,
    ;
}

/// On one axis: how two points of a segment differ.
proof fn way_between(u: int, g: int, n: int, d: int, nn: int, dd: int)
    ensures
        dd * (u * d + g * n) == d * (u * dd + g * nn) + g * (n * dd - nn * d),
{
    let (ud, gn, gnn, udd) = (u * d, g * n, g * nn, u * dd);
    assert(dd * (ud + gn) == dd * ud + dd * gn) by (nonlinear_arith);
    assert(d * (udd + gnn) == d * udd + d * gnn) by (nonlinear_arith);
    assert(dd * ud == d * udd) by (nonlinear_arith)
        requires
            ud == u * d,
            udd == u * dd,
    ;
    assert(g * (n * dd - nn * d) == dd * gn - d * gnn) by (nonlinear_arith)
        requires
            gn == g * n,
            gnn == g * nn,
    ;
}

/// A point of a stub that is too short to keep is not far from the
/// rectangle.
proof fn stub_is_not_far(a: Point, b: Point, r: Rect, n: int, d: int, t: Frac, sigma: int, h: int)
    requires
        is_share(n, d),
        0 < t.d,
        silk_clip::inside_at(a, b, r, t.n as int, t.d as int),
        -(d * sigma) <= n * t.d - t.n * d <= d * sigma,
        0 <= sigma,
        sigma * STUB_RATIO <= t.d,
        STUB_RATIO * h >= 2 * extent(a, b),
    ensures
        !beyond(spot(a, b, n, d), r, h),
{
    let (nn, dd) = (t.n as int, t.d as int);
    let p = spot(a, b, nn, dd);
    let y = spot(a, b, n, d);
    let (gx, gy) = (b.x.0 - a.x.0, b.y.0 - a.y.0);
    way_between(a.x.0 as int, gx, n, d, nn, dd);
    way_between(a.y.0 as int, gy, n, d, nn, dd);
    let delta = n * dd - nn * d;
    not_far(r.min.x.0 as int, r.max.x.0 as int, p.x, dd, y.x, d, gx, delta, sigma, h);
    not_far(r.min.y.0 as int, r.max.y.0 as int, p.y, dd, y.y, d, gy, delta, sigma, h);
}

/// A point outside the rectangle is not in it.
proof fn beyond_is_not_inside(a: Point, b: Point, r: Rect, n: int, d: int, h: int)
    requires
        is_share(n, d),
        0 <= h,
        beyond(spot(a, b, n, d), r, h),
    ensures
        !silk_clip::inside_at(a, b, r, n, d),
{
    let (x0, x1, y0, y1) = (
        r.min.x.0 as int,
        r.max.x.0 as int,
        r.min.y.0 as int,
        r.max.y.0 as int,
    );
    assert((2 * x0 - h) * d <= 2 * (x0 * d) && (2 * x1 + h) * d >= 2 * (x1 * d) && (2 * y0 - h) * d
        <= 2 * (y0 * d) && (2 * y1 + h) * d >= 2 * (y1 * d)) by (nonlinear_arith)
        requires
            h >= 0,
            d > 0,
    ;
}

/// A point of the segment at a multiple of its parameter's terms.
proof fn near_reduced(a: Point, b: Point, k: int, n: int, d: int, q: Spot, e: int)
    requires
        0 < k,
        near(spot(a, b, k * n, k * d), q, e),
    ensures
        near(spot(a, b, n, d), q, e),
{
    let p = spot(a, b, n, d);
    let (ax, ay, gx, gy) = (
        a.x.0 as int,
        a.y.0 as int,
        b.x.0 - a.x.0,
        b.y.0 - a.y.0,
    );
    assert(ax * (k * d) + gx * (k * n) == k * (ax * d + gx * n)) by (nonlinear_arith);
    assert(ay * (k * d) + gy * (k * n) == k * (ay * d + gy * n)) by (nonlinear_arith);
    close_reduced(k, p.x, d, q.x, q.d, e);
    close_reduced(k, p.y, d, q.y, q.d, e);
}

/// A point of the segment before the cut is covered by the stub there, if
/// that is kept, and else is close to the rectangle.
proof fn covered_before(a: Point, b: Point, r: Rect, n: int, d: int, h: int)
    requires
        clippable(a, b, r),
        silk_clip::bites(a, b, r),
        is_share(n, d),
        beyond(spot(a, b, n, d), r, h),
        STUB_RATIO * h >= 2 * extent(a, b),
        n * silk_clip::interval(silk_clip::edges(a, b, r), 4).0.d < silk_clip::interval(
            silk_clip::edges(a, b, r),
            4,
        ).0.n * d,
    ensures
        covered(silk_clip::outside(a, b, r), spot(a, b, n, d), 1),
{
    let t = silk_clip::interval(silk_clip::edges(a, b, r), 4).0;
    silk_clip::a_bite_is_inside(a, b, r);
    let (nn, dd) = (t.n as int, t.d as int);
    let y = spot(a, b, n, d);
    assert(n * dd >= 0) by (nonlinear_arith)
        requires
            n >= 0,
            dd > 0,
    ;
    if nn * STUB_RATIO > dd {
        let ps = silk_clip::outside(a, b, r);
        let w = silk_clip::at(a, b, t);
        assert(ps[0] == (a, w));
        let (m, c) = (n * dd, nn * d);
        stub_before(a, b, t, m, c);
        let k = nn * dd;
        assert(k > 0) by (nonlinear_arith)
            requires
                k == nn * dd,
                nn * STUB_RATIO > dd,
                dd > 0,
        ;
        assert(m * nn == k * n) by (nonlinear_arith)
            requires
                m == n * dd,
                k == nn * dd,
        ;
        assert(c * dd == k * d) by (nonlinear_arith)
            requires
                c == nn * d,
                k == nn * dd,
        ;
        let q = spot(a, w, m, c);
        near_reduced(a, b, k, n, d, q, 1);
        near_flips(y, q, 1);
        assert(passes(a, w, y, 1, m, c));
        assert(covered_by(ps, y, 1, 0));
    } else {
        let delta = n * dd - nn * d;
        assert(-(d * nn) <= delta <= d * nn) by (nonlinear_arith)
            requires
                delta == n * dd - nn * d,
                0 <= n * dd <= nn * d,
        ;
        stub_is_not_far(a, b, r, n, d, t, nn, h);
    }
}

/// The same behind the cut.
proof fn covered_behind(a: Point, b: Point, r: Rect, n: int, d: int, h: int)
    requires
        clippable(a, b, r),
        silk_clip::bites(a, b, r),
        is_share(n, d),
        beyond(spot(a, b, n, d), r, h),
        STUB_RATIO * h >= 2 * extent(a, b),
        n * silk_clip::interval(silk_clip::edges(a, b, r), 4).1.d > silk_clip::interval(
            silk_clip::edges(a, b, r),
            4,
        ).1.n * d,
    ensures
        covered(silk_clip::outside(a, b, r), spot(a, b, n, d), 1),
{
    let t = silk_clip::interval(silk_clip::edges(a, b, r), 4).1;
    silk_clip::a_bite_is_inside(a, b, r);
    let (nn, dd) = (t.n as int, t.d as int);
    let z = dd - nn;
    let y = spot(a, b, n, d);
    let (m, c) = (n * dd - nn * d, d * z);
    assert(n * dd <= d * dd) by (nonlinear_arith)
        requires
            n <= d,
            dd > 0,
    ;
    assert(d * dd - nn * d == c) by (nonlinear_arith)
        requires
            z == dd - nn,
            c == d * z,
    ;
    if z * STUB_RATIO > dd {
        let ps = silk_clip::outside(a, b, r);
        let w = silk_clip::at(a, b, t);
        let i = ps.len() - 1;
        assert(ps[i] == (w, b));
        stub_behind(a, b, t, m, c);
        let k = z * dd;
        assert(k > 0) by (nonlinear_arith)
            requires
                k == z * dd,
                z * STUB_RATIO > dd,
                dd > 0,
        ;
        assert(nn * c + m * z == k * n) by (nonlinear_arith)
            requires
                m == n * dd - nn * d,
                c == d * z,
                k == z * dd,
        ;
        assert(c * dd == k * d) by (nonlinear_arith)
            requires
                c == d * z,
                k == z * dd,
        ;
        let q = spot(w, b, m, c);
        near_reduced(a, b, k, n, d, q, 1);
        near_flips(y, q, 1);
        assert(passes(w, b, y, 1, m, c));
        assert(covered_by(ps, y, 1, i));
    } else {
        stub_is_not_far(a, b, r, n, d, t, z, h);
    }
}

/// What one cut leaves covers the points of the segment that are not close
/// to the rectangle.
pub proof fn one_cut_covers(a: Point, b: Point, r: Rect, n: int, d: int, h: int)
    requires
        clippable(a, b, r),
        is_share(n, d),
        beyond(spot(a, b, n, d), r, h),
        STUB_RATIO * h >= 2 * extent(a, b),
    ensures
        covered(silk_clip::outside(a, b, r), spot(a, b, n, d), 1),
{
    if !silk_clip::bites(a, b, r) {
        let y = spot(a, b, n, d);
        near_itself(y, 1);
        assert(passes(a, b, y, 1, n, d));
        assert(covered_by(silk_clip::outside(a, b, r), y, 1, 0));
    } else {
        assert(h >= 0);
        beyond_is_not_inside(a, b, r, n, d, h);
        silk_clip::cut_interval_is_exact(a, b, r, n, d);
        let t = silk_clip::interval(silk_clip::edges(a, b, r), 4);
        if n * t.0.d < t.0.n * d {
            covered_before(a, b, r, n, d, h);
        } else {
            covered_behind(a, b, r, n, d, h);
        }
    }
}

/// Where a piece of the trimmed segments comes from.
proof fn trimmed_from(segs: Seq<(Point, Point)>, r: Rect, n: int, i: int) -> (from: (int, int))
    requires
        0 <= n <= segs.len(),
        0 <= i < silk_clip::trimmed(segs, r, n).len(),
    ensures
        0 <= from.0 < n,
        0 <= from.1 < silk_clip::outside(segs[from.0].0, segs[from.0].1, r).len(),
        silk_clip::trimmed(segs, r, n)[i] == silk_clip::outside(
            segs[from.0].0,
            segs[from.0].1,
            r,
        )[from.1],
    decreases n,
{
    let head = silk_clip::trimmed(segs, r, n - 1);
    if i < head.len() {
        trimmed_from(segs, r, n - 1, i)
    } else {
        (n - 1, i - head.len())
    }
}

/// Where a piece goes among the trimmed segments.
proof fn trimmed_holds(segs: Seq<(Point, Point)>, r: Rect, n: int, s: int, l: int) -> (i: int)
    requires
        0 <= s < n <= segs.len(),
        0 <= l < silk_clip::outside(segs[s].0, segs[s].1, r).len(),
    ensures
        0 <= i < silk_clip::trimmed(segs, r, n).len(),
        silk_clip::trimmed(segs, r, n)[i] == silk_clip::outside(segs[s].0, segs[s].1, r)[l],
    decreases n,
{
    let head = silk_clip::trimmed(segs, r, n - 1);
    if s == n - 1 {
        head.len() + l
    } else {
        trimmed_holds(segs, r, n - 1, s, l)
    }
}

/// Boxes inside a box.
proof fn boxed_inside(a: Point, b: Point, u: Point, v: Point, p: Point)
    requires
        boxed(a, b, u),
        boxed(a, b, v),
        boxed(u, v, p),
    ensures
        boxed(a, b, p),
{
}

proof fn piece_is_small(a: Point, b: Point, u: Point, v: Point)
    requires
        boxed(a, b, u),
        boxed(a, b, v),
        a.within(CLIP_MAX as int),
        b.within(CLIP_MAX as int),
    ensures
        u.within(CLIP_MAX as int),
        v.within(CLIP_MAX as int),
        extent(u, v) <= extent(a, b),
{
}

/// One more rectangle: a point of a piece comes from a point of a segment
/// within half a nanometre.
proof fn point_before(
    segs: Seq<(Point, Point)>,
    r: Rect,
    a: Point,
    b: Point,
    i: int,
    m: int,
    c: int,
) -> (from: (int, int, int))
    requires
        clippable(a, b, r),
        all_boxed(segs, a, b),
        0 <= i < silk_clip::trimmed(segs, r, segs.len() as int).len(),
        is_share(m, c),
    ensures
        ({
            let s = segs[from.0];
            let p = silk_clip::trimmed(segs, r, segs.len() as int)[i];
            &&& 0 <= from.0 < segs.len()
            &&& passes(s.0, s.1, spot(p.0, p.1, m, c), 1, from.1, from.2)
            &&& !deep(spot(p.0, p.1, m, c), r, 1)
            &&& boxed(s.0, s.1, p.0) && boxed(s.0, s.1, p.1)
        }),
{
    let (s, l) = trimmed_from(segs, r, segs.len() as int, i);
    let (u, v) = segs[s];
    piece_is_small(a, b, u, v);
    one_cut_keeps_out(u, v, r);
    let ps = silk_clip::outside(u, v, r);
    let q = spot(ps[l].0, ps[l].1, m, c);
    assert(reaches(u, v, q, 1));
    let (n, d) = choose|n: int, d: int| passes(u, v, q, 1, n, d);
    (s, n, d)
}

/// One more rectangle keeps the pieces on the segment and out of all
/// rectangles, with half a nanometre more to go.
proof fn next_keeps_out(segs: Seq<(Point, Point)>, a: Point, b: Point, rects: Seq<Rect>, k: int)
    requires
        0 <= k < rects.len(),
        clippable(a, b, rects[k]),
        all_boxed(segs, a, b),
        on_segment(segs, a, b, k),
        forall|j: int| 0 <= j < k ==> keep_out(segs, #[trigger] rects[j], k),
    ensures
        ({
            let next = silk_clip::trimmed(segs, rects[k], segs.len() as int);
            &&& all_boxed(next, a, b)
            &&& on_segment(next, a, b, k + 1)
            &&& forall|j: int| 0 <= j < k + 1 ==> keep_out(next, #[trigger] rects[j], k + 1)
        }),
{
    let r = rects[k];
    let next = silk_clip::trimmed(segs, r, segs.len() as int);
    assert forall|i: int| 0 <= i < next.len() implies boxed(a, b, (#[trigger] next[i]).0) && boxed(
        a,
        b,
        next[i].1,
    ) by {
        let (s, n, d) = point_before(segs, r, a, b, i, 0, 1);
        boxed_inside(a, b, segs[s].0, segs[s].1, next[i].0);
        boxed_inside(a, b, segs[s].0, segs[s].1, next[i].1);
    }
    assert forall|i: int, m: int, c: int| 0 <= i < next.len() && is_share(m, c) implies reaches(
        a,
        b,
        #[trigger] spot(next[i].0, next[i].1, m, c),
        k + 1,
    ) by {
        let q = spot(next[i].0, next[i].1, m, c);
        let (s, n, d) = point_before(segs, r, a, b, i, m, c);
        let p = spot(segs[s].0, segs[s].1, n, d);
        assert(reaches(a, b, p, k));
        let (n0, d0) = choose|n0: int, d0: int| passes(a, b, p, k, n0, d0);
        near_chain(spot(a, b, n0, d0), p, q, k, 1);
        assert(passes(a, b, q, k + 1, n0, d0));
    }
    assert forall|j: int| 0 <= j < k + 1 implies keep_out(next, #[trigger] rects[j], k + 1) by {
        assert forall|i: int, m: int, c: int| 0 <= i < next.len() && is_share(m, c) implies !deep(
            #[trigger] spot(next[i].0, next[i].1, m, c),
            rects[j],
            k + 1,
        ) by {
            let q = spot(next[i].0, next[i].1, m, c);
            let (s, n, d) = point_before(segs, r, a, b, i, m, c);
            let p = spot(segs[s].0, segs[s].1, n, d);
            if deep(q, rects[j], k + 1) {
                if j < k {
                    assert(keep_out(segs, rects[j], k));
                    deep_nearby(p, q, rects[j], k, 1);
                } else {
                    deep_enough(q, r, 1, k + 1);
                }
            }
        }
    }
}

/// One more rectangle leaves the points covered that are not close to it.
proof fn next_covers(segs: Seq<(Point, Point)>, a: Point, b: Point, rects: Seq<Rect>, k: int)
    requires
        0 <= k < rects.len(),
        clippable(a, b, rects[k]),
        all_boxed(segs, a, b),
        cover(segs, a, b, rects, k, k),
    ensures
        cover(
            silk_clip::trimmed(segs, rects[k], segs.len() as int),
            a,
            b,
            rects,
            k + 1,
            k + 1,
        ),
{
    let r = rects[k];
    let next = silk_clip::trimmed(segs, r, segs.len() as int);
    assert forall|n: int, d: int, g: int|
        is_share(n, d) && STUB_RATIO * (g - (k + 1)) >= 2 * extent(a, b) && #[trigger] clear_of(
            spot(a, b, n, d),
            rects,
            g,
            k + 1,
        ) implies covered(next, spot(a, b, n, d), k + 1) by {
        let x = spot(a, b, n, d);
        assert(beyond(x, rects[k], g));
        assert(clear_of(x, rects, g, k));
        assert(covered(segs, x, k));
        let s = choose|s: int| covered_by(segs, x, k, s);
        let (u, v) = segs[s];
        let (n1, d1) = choose|n1: int, d1: int| passes(u, v, x, k, n1, d1);
        let y = spot(u, v, n1, d1);
        beyond_nearby(y, x, r, g, k);
        piece_is_small(a, b, u, v);
        one_cut_covers(u, v, r, n1, d1, g - k);
        let ps = silk_clip::outside(u, v, r);
        let l = choose|l: int| covered_by(ps, y, 1, l);
        let (n2, d2) = choose|n2: int, d2: int| passes(ps[l].0, ps[l].1, y, 1, n2, d2);
        let z = spot(ps[l].0, ps[l].1, n2, d2);
        near_chain(z, y, x, 1, k);
        let i = trimmed_holds(segs, r, segs.len() as int, s, l);
        assert(passes(next[i].0, next[i].1, x, k + 1, n2, d2));
        assert(covered_by(next, x, k + 1, i));
    }
}

/// What clipping leaves of segment `a`-`b`, with `k` rectangles cut out:
/// pieces that lie on the segment, keep out of every rectangle and cover the
/// rest of the segment, each up to half a nanometre for every rectangle.
pub proof fn clipping_leaves_the_rest(a: Point, b: Point, rects: Seq<Rect>, k: int)
    requires
        0 <= k <= rects.len(),
        a.within(CLIP_MAX as int),
        b.within(CLIP_MAX as int),
        forall|j: int| 0 <= j < k ==> (#[trigger] rects[j]).within(CLIP_MAX as int),
    ensures
        all_boxed(silk_clip::clipped(a, b, rects, k), a, b),
        on_segment(silk_clip::clipped(a, b, rects, k), a, b, k),
        forall|j: int|
            0 <= j < k ==> keep_out(silk_clip::clipped(a, b, rects, k), #[trigger] rects[j], k),
        cover(silk_clip::clipped(a, b, rects, k), a, b, rects, k, k),
    decreases k,
{
    let ps = silk_clip::clipped(a, b, rects, k);
    if k == 0 {
        assert forall|i: int, m: int, c: int| 0 <= i < ps.len() && is_share(m, c) implies reaches(
            a,
            b,
            #[trigger] spot(ps[i].0, ps[i].1, m, c),
            0,
        ) by {
            let q = spot(a, b, m, c);
            near_itself(q, 0);
            assert(passes(a, b, q, 0, m, c));
        }
        assert forall|n: int, d: int, g: int|
            is_share(n, d) && STUB_RATIO * (g - 0) >= 2 * extent(a, b) && #[trigger] clear_of(
                spot(a, b, n, d),
                rects,
                g,
                0,
            ) implies covered(ps, spot(a, b, n, d), 0) by {
            let x = spot(a, b, n, d);
            near_itself(x, 0);
            assert(passes(a, b, x, 0, n, d));
            assert(covered_by(ps, x, 0, 0));
        }
    } else {
        clipping_leaves_the_rest(a, b, rects, k - 1);
        let segs = silk_clip::clipped(a, b, rects, k - 1);
        assert(rects[k - 1].within(CLIP_MAX as int));
        next_keeps_out(segs, a, b, rects, k - 1);
        next_covers(segs, a, b, rects, k - 1);
    }
}

} // verus!
