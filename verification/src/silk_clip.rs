//! Clipping silkscreen strokes against pads.
//!
//! A stroke is trimmed to the pieces that lie outside every pad
//! rectangle. The part inside a rectangle is an interval of the stroke's
//! parameter, found edge by edge with exact fractions.

use vstd::prelude::*;

use crate::clip_cover;
use crate::geometry::{Point, Rect};
use crate::rotation;
use crate::rotation::round_div;
use crate::units::Length;

verus! {

/// The largest coordinate magnitude that is clipped.
pub const CLIP_MAX: i64 = 0x400_0000_0000_0000;

/// A stub shorter than one billionth of the stroke is dropped.
pub const STUB_RATIO: i64 = 1_000_000_000;

/// The fraction `n / d`; `d` is positive.
#[derive(Clone, Copy)]
pub struct Frac {
    pub n: i128,
    pub d: i128,
}

/// `f < g`.
pub open spec fn less(f: Frac, g: Frac) -> bool {
    f.n * g.d < g.n * f.d
}

/// The four bounds `p * t <= q` on the parameter of segment `a`-`b`
/// inside `r`: left, right, bottom, top.
pub open spec fn edges(a: Point, b: Point, r: Rect) -> Seq<(int, int)> {
    let dx = b.x.0 - a.x.0;
    let dy = b.y.0 - a.y.0;
    seq![
        (-dx, a.x.0 - r.min.x.0),
        (dx, r.max.x.0 - a.x.0),
        (-dy, a.y.0 - r.min.y.0),
        (dy, r.max.y.0 - a.y.0),
    ]
}

/// Narrows the interval from `t0` to `t1` by the bound `p * t <= q`.
pub open spec fn narrowed(t: (Frac, Frac), e: (int, int)) -> (Frac, Frac) {
    let (p, q) = e;
    if p < 0 {
        let r = Frac { n: (-q) as i128, d: (-p) as i128 };
        if less(t.0, r) {
            (r, t.1)
        } else {
            t
        }
    } else if p > 0 {
        let r = Frac { n: q as i128, d: p as i128 };
        if less(r, t.1) {
            (t.0, r)
        } else {
            t
        }
    } else {
        t
    }
}

/// The interval of the parameter after the first `n` bounds, starting
/// from the whole segment.
pub open spec fn interval(es: Seq<(int, int)>, n: int) -> (Frac, Frac)
    decreases n,
{
    if n <= 0 {
        (Frac { n: 0, d: 1 }, Frac { n: 1, d: 1 })
    } else {
        narrowed(interval(es, n - 1), es[n - 1])
    }
}

/// The segment runs alongside one of the bounds, on the outer side.
pub open spec fn passes_by(es: Seq<(int, int)>) -> bool {
    exists|i: int| 0 <= i < es.len() && (#[trigger] es[i]).0 == 0 && es[i].1 < 0
}

/// The rectangle cuts a piece of positive length out of the segment.
pub open spec fn bites(a: Point, b: Point, r: Rect) -> bool {
    let es = edges(a, b, r);
    let (t0, t1) = interval(es, 4);
    !passes_by(es) && less(t0, t1)
}

/// The point of the segment at parameter `t`, rounded to nanometres.
pub open spec fn at(a: Point, b: Point, t: Frac) -> Point {
    Point {
        x: Length(rotation::rounded(a.x.0 * t.d + (b.x.0 - a.x.0) * t.n, t.d as int) as i64),
        y: Length(rotation::rounded(a.y.0 * t.d + (b.y.0 - a.y.0) * t.n, t.d as int) as i64),
    }
}

/// The pieces of segment `a`-`b` outside `r`: the whole of it where the
/// rectangle does not bite, else the stub before and the stub behind, as
/// far as they are long enough.
pub open spec fn outside(a: Point, b: Point, r: Rect) -> Seq<(Point, Point)> {
    if !bites(a, b, r) {
        seq![(a, b)]
    } else {
        let (t0, t1) = interval(edges(a, b, r), 4);
        let before = if t0.n * STUB_RATIO > t0.d {
            seq![(a, at(a, b, t0))]
        } else {
            Seq::empty()
        };
        let behind = if (t1.d - t1.n) * STUB_RATIO > t1.d {
            seq![(at(a, b, t1), b)]
        } else {
            Seq::empty()
        };
        before + behind
    }
}

/// The pieces of the first `n` segments outside `r`.
pub open spec fn trimmed(segs: Seq<(Point, Point)>, r: Rect, n: int) -> Seq<(Point, Point)>
    decreases n,
{
    if n <= 0 {
        Seq::empty()
    } else {
        trimmed(segs, r, n - 1) + outside(segs[n - 1].0, segs[n - 1].1, r)
    }
}

/// The pieces of segment `a`-`b` outside the first `n` rectangles.
pub open spec fn clipped(a: Point, b: Point, rects: Seq<Rect>, n: int) -> Seq<(Point, Point)>
    decreases n,
{
    if n <= 0 {
        seq![(a, b)]
    } else {
        let segs = clipped(a, b, rects, n - 1);
        trimmed(segs, rects[n - 1], segs.len() as int)
    }
}

spec fn small(f: Frac) -> bool {
    &&& 0 < f.d <= 2 * CLIP_MAX
    &&& -2 * CLIP_MAX <= f.n <= 2 * CLIP_MAX
}

fn is_less(f: Frac, g: Frac) -> (r: bool)
    requires
        small(f),
        small(g),
    ensures
        r == less(f, g),
{
    proof {
        rotation::product_bound(f.n as int, 2 * CLIP_MAX, g.d as int, 2 * CLIP_MAX);
        rotation::product_bound(g.n as int, 2 * CLIP_MAX, f.d as int, 2 * CLIP_MAX);
        assert((2 * CLIP_MAX) * (2 * CLIP_MAX) <= i128::MAX) by (nonlinear_arith)
            requires
                CLIP_MAX == 0x400_0000_0000_0000,
        ;
    }
    f.n * g.d < g.n * f.d
}

/// Where both ends are in range, so is every point between.
fn point_at(a: Point, b: Point, t: Frac) -> (r: Point)
    requires
        a.within(CLIP_MAX as int),
        b.within(CLIP_MAX as int),
        small(t),
        0 <= t.n <= t.d,
    ensures
        r == at(a, b, t),
        r.within(CLIP_MAX as int),
{
    let ax: i128 = a.x.0 as i128;
    let ay: i128 = a.y.0 as i128;
    let dx: i128 = b.x.0 as i128 - ax;
    let dy: i128 = b.y.0 as i128 - ay;
    proof {
        between(a.x.0 as int, b.x.0 as int, t);
        between(a.y.0 as int, b.y.0 as int, t);
        rotation::product_bound(ax as int, CLIP_MAX as int, t.d as int, 2 * CLIP_MAX);
        rotation::product_bound(ay as int, CLIP_MAX as int, t.d as int, 2 * CLIP_MAX);
        rotation::product_bound(dx as int, 2 * CLIP_MAX, t.n as int, 2 * CLIP_MAX);
        rotation::product_bound(dy as int, 2 * CLIP_MAX, t.n as int, 2 * CLIP_MAX);
        rotation::rounded_bound(ax * t.d + dx * t.n, t.d as int, CLIP_MAX as int);
        rotation::rounded_bound(ay * t.d + dy * t.n, t.d as int, CLIP_MAX as int);
    }
    let x: i128 = round_div(ax * t.d + dx * t.n, t.d);
    let y: i128 = round_div(ay * t.d + dy * t.n, t.d);
    Point { x: Length(x as i64), y: Length(y as i64) }
}

proof fn between(u: int, v: int, t: Frac)
    requires
        -CLIP_MAX <= u <= CLIP_MAX,
        -CLIP_MAX <= v <= CLIP_MAX,
        0 <= t.n <= t.d,
    ensures
        -(CLIP_MAX * t.d) <= u * t.d + (v - u) * t.n <= CLIP_MAX * t.d,
{
    let n = t.n as int;
    let d = t.d as int;
    let k = CLIP_MAX as int;
    assert(u * d + (v - u) * n == u * (d - n) + v * n) by (nonlinear_arith);
    assert(-(k * (d - n)) <= u * (d - n) <= k * (d - n)) by (nonlinear_arith)
        requires
            -k <= u <= k,
            0 <= d - n,
    ;
    assert(-(k * n) <= v * n <= k * n) by (nonlinear_arith)
        requires
            -k <= v <= k,
            0 <= n,
    ;
    assert(k * (d - n) + k * n == k * d) by (nonlinear_arith);
}

/// Bounds on the two ends of the interval that the arithmetic needs.
spec fn tame(t: (Frac, Frac)) -> bool {
    &&& small(t.0)
    &&& small(t.1)
    &&& 0 <= t.0.n
    &&& t.1.n <= t.1.d
}

proof fn narrowed_stays_tame(t: (Frac, Frac), e: (int, int))
    requires
        tame(t),
        -2 * CLIP_MAX <= e.0 <= 2 * CLIP_MAX,
        -2 * CLIP_MAX <= e.1 <= 2 * CLIP_MAX,
    ensures
        tame(narrowed(t, e)),
{
    let (p, q) = e;
    if p < 0 {
        let f = Frac { n: (-q) as i128, d: (-p) as i128 };
        if less(t.0, f) {
            let tn = t.0.n as int;
            let fd = f.d as int;
            assert(tn * fd >= 0) by (nonlinear_arith)
                requires
                    tn >= 0,
                    fd > 0,
            ;
            let x = f.n as int;
            let y = t.0.d as int;
            assert(x >= 0) by (nonlinear_arith)
                requires
                    x * y > 0,
                    y > 0,
            ;
        }
    } else if p > 0 {
        let f = Frac { n: q as i128, d: p as i128 };
        if less(f, t.1) {
            let fnum = f.n as int;
            let fd = f.d as int;
            let n = t.1.n as int;
            let d = t.1.d as int;
            assert(fnum <= fd) by (nonlinear_arith)
                requires
                    fnum * d < n * fd,
                    n <= d,
                    d > 0,
                    fd > 0,
            ;
        }
    }
}

fn narrow(t: (Frac, Frac), p: i64, q: i64) -> (r: (Frac, Frac))
    requires
        tame(t),
        -2 * CLIP_MAX <= p <= 2 * CLIP_MAX,
        -2 * CLIP_MAX <= q <= 2 * CLIP_MAX,
    ensures
        r == narrowed(t, (p as int, q as int)),
        tame(r),
{
    proof {
        narrowed_stays_tame(t, (p as int, q as int));
    }
    if p < 0 {
        let f = Frac { n: -(q as i128), d: -(p as i128) };
        if is_less(t.0, f) {
            (f, t.1)
        } else {
            t
        }
    } else if p > 0 {
        let f = Frac { n: q as i128, d: p as i128 };
        if is_less(f, t.1) {
            (t.0, f)
        } else {
            t
        }
    } else {
        t
    }
}

proof fn ends_in_order(t: (Frac, Frac))
    requires
        tame(t),
        less(t.0, t.1),
    ensures
        t.0.n <= t.0.d,
        t.1.n >= 0,
{
    let n0 = t.0.n as int;
    let d0 = t.0.d as int;
    let n1 = t.1.n as int;
    let d1 = t.1.d as int;
    assert(n0 <= d0) by (nonlinear_arith)
        requires
            n0 * d1 < n1 * d0,
            n1 <= d1,
            d0 > 0,
            d1 > 0,
    ;
    assert(n1 >= 0) by (nonlinear_arith)
        requires
            n0 * d1 < n1 * d0,
            n0 >= 0,
            d0 > 0,
            d1 > 0,
    ;
}

/// Appends the parts of segment `a`-`b` outside `rect`.
pub fn subtract_rect(a: Point, b: Point, rect: Rect, out: &mut Vec<(Point, Point)>)
    requires
        a.within(CLIP_MAX as int),
        b.within(CLIP_MAX as int),
        rect.within(CLIP_MAX as int),
    ensures
        final(out)@ == old(out)@ + outside(a, b, rect),
        forall|i: int|
            old(out)@.len() <= i < final(out)@.len() ==> (#[trigger] final(out)@[i]).0.within(
                CLIP_MAX as int,
            ) && final(out)@[i].1.within(CLIP_MAX as int),
{
    let dx: i64 = b.x.0 - a.x.0;
    let dy: i64 = b.y.0 - a.y.0;
    let q0: i64 = a.x.0 - rect.min.x.0;
    let q1: i64 = rect.max.x.0 - a.x.0;
    let q2: i64 = a.y.0 - rect.min.y.0;
    let q3: i64 = rect.max.y.0 - a.y.0;
    let ghost es = edges(a, b, rect);
    let ghost start = out@;
    let by = (dx == 0 && (q0 < 0 || q1 < 0)) || (dy == 0 && (q2 < 0 || q3 < 0));
    proof {
        assert(es[0] == (-(dx as int), q0 as int));
        assert(es[1] == (dx as int, q1 as int));
        assert(es[2] == (-(dy as int), q2 as int));
        assert(es[3] == (dy as int, q3 as int));
        reveal_with_fuel(interval, 5);
    }
    assert(by == passes_by(es));
    let t = (Frac { n: 0, d: 1 }, Frac { n: 1, d: 1 });
    let t = narrow(t, -dx, q0);
    let t = narrow(t, dx, q1);
    let t = narrow(t, -dy, q2);
    let t = narrow(t, dy, q3);
    assert(t == interval(es, 4));
    if by || !is_less(t.0, t.1) {
        out.push((a, b));
        assert(out@ =~= start + outside(a, b, rect));
        return;
    }
    let (t0, t1) = t;
    proof {
        ends_in_order(t);
    }
    let ratio: i128 = STUB_RATIO as i128;
    if t0.n * ratio > t0.d {
        out.push((a, point_at(a, b, t0)));
    }
    if (t1.d - t1.n) * ratio > t1.d {
        out.push((point_at(a, b, t1), b));
    }
    assert(out@ =~= start + outside(a, b, rect));
}

/// Clips a segment against rectangles and returns the pieces outside all
/// of them. The pieces lie on the segment, keep out of every rectangle and
/// cover the rest of the segment, up to the rounding of their ends.
pub fn clip_segment(start: Point, end: Point, rects: &[Rect]) -> (r: Vec<(Point, Point)>)
    requires
        start.within(CLIP_MAX as int),
        end.within(CLIP_MAX as int),
        forall|i: int| 0 <= i < rects@.len() ==> (#[trigger] rects@[i]).within(CLIP_MAX as int),
    ensures
        r@ == clipped(start, end, rects@, rects@.len() as int),
        clip_cover::on_segment(r@, start, end, rects@.len() as int),
        forall|j: int|
            0 <= j < rects@.len() ==> clip_cover::keep_out(
                r@,
                #[trigger] rects@[j],
                rects@.len() as int,
            ),
        clip_cover::cover(r@, start, end, rects@, rects@.len() as int, rects@.len() as int),
{
    proof {
        clip_cover::clipping_leaves_the_rest(start, end, rects@, rects@.len() as int);
    }
    let mut pieces: Vec<(Point, Point)> = Vec::new();
    pieces.push((start, end));
    assert(pieces@ =~= seq![(start, end)]);
    let mut i: usize = 0;
    while i < rects.len()
        invariant
            i <= rects@.len(),
            forall|k: int|
                0 <= k < rects@.len() ==> (#[trigger] rects@[k]).within(CLIP_MAX as int),
            pieces@ == clipped(start, end, rects@, i as int),
            forall|k: int|
                0 <= k < pieces@.len() ==> (#[trigger] pieces@[k]).0.within(CLIP_MAX as int)
                    && pieces@[k].1.within(CLIP_MAX as int),
        decreases rects@.len() - i,
    {
        let rect = rects[i];
        let mut next: Vec<(Point, Point)> = Vec::new();
        let mut k: usize = 0;
        while k < pieces.len()
            invariant
                k <= pieces@.len(),
                rect.within(CLIP_MAX as int),
                next@ == trimmed(pieces@, rect, k as int),
                forall|m: int|
                    0 <= m < pieces@.len() ==> (#[trigger] pieces@[m]).0.within(CLIP_MAX as int)
                        && pieces@[m].1.within(CLIP_MAX as int),
                forall|m: int|
                    0 <= m < next@.len() ==> (#[trigger] next@[m]).0.within(CLIP_MAX as int)
                        && next@[m].1.within(CLIP_MAX as int),
            decreases pieces@.len() - k,
        {
            let (a, b) = pieces[k];
            subtract_rect(a, b, rect, &mut next);
            k += 1;
        }
        pieces = next;
        i += 1;
    }
    pieces
}

/// The point of segment `a`-`b` at parameter `n / d` lies in the closed
/// rectangle `r`.
pub open spec fn inside_at(a: Point, b: Point, r: Rect, n: int, d: int) -> bool {
    let x = a.x.0 * d + (b.x.0 - a.x.0) * n;
    let y = a.y.0 * d + (b.y.0 - a.y.0) * n;
    r.min.x.0 * d <= x <= r.max.x.0 * d && r.min.y.0 * d <= y <= r.max.y.0 * d
}

/// `n / d` is in the closed interval `t`.
pub open spec fn in_interval(t: (Frac, Frac), n: int, d: int) -> bool {
    t.0.n * d <= n * t.0.d && n * t.1.d <= t.1.n * d
}

/// The bound `p * t <= q` holds at `t = n / d`.
pub open spec fn meets(e: (int, int), n: int, d: int) -> bool {
    e.0 * n <= e.1 * d
}

proof fn frac_transitive(an: int, ad: int, bn: int, bd: int, cn: int, cd: int)
    requires
        ad > 0,
        bd > 0,
        cd > 0,
        an * bd <= bn * ad,
        bn * cd <= cn * bd,
    ensures
        an * cd <= cn * ad,
{
    assert(an * cd <= cn * ad) by (nonlinear_arith)
        requires
            ad > 0,
            bd > 0,
            cd > 0,
            an * bd <= bn * ad,
            bn * cd <= cn * bd,
    {
        assert((an * bd) * cd <= (bn * ad) * cd);
        assert((bn * cd) * ad <= (cn * bd) * ad);
        assert((an * cd) * bd <= (cn * ad) * bd);
    }
}

proof fn narrowed_is_exact(t: (Frac, Frac), e: (int, int), n: int, d: int)
    requires
        t.0.d > 0,
        t.1.d > 0,
        d > 0,
        -2 * CLIP_MAX <= e.0 <= 2 * CLIP_MAX,
        -2 * CLIP_MAX <= e.1 <= 2 * CLIP_MAX,
    ensures
        narrowed(t, e).0.d > 0,
        narrowed(t, e).1.d > 0,
        e.0 != 0 ==> (in_interval(narrowed(t, e), n, d) <==> in_interval(t, n, d) && meets(e, n, d)),
        e.0 == 0 ==> narrowed(t, e) == t && (meets(e, n, d) <==> e.1 >= 0),
{
    let (p, q) = e;
    if p < 0 {
        assert((-q) * d <= n * (-p) <==> p * n <= q * d) by (nonlinear_arith);
        if less(t.0, Frac { n: (-q) as i128, d: (-p) as i128 }) {
            if (-q) * d <= n * (-p) {
                frac_transitive(t.0.n as int, t.0.d as int, -q, -p, n, d);
            }
        } else {
            if t.0.n * d <= n * t.0.d {
                frac_transitive(-q, -p, t.0.n as int, t.0.d as int, n, d);
            }
        }
    } else if p > 0 {
        assert(n * p <= q * d <==> p * n <= q * d) by (nonlinear_arith);
        if less(Frac { n: q as i128, d: p as i128 }, t.1) {
            if n * p <= q * d {
                frac_transitive(n, d, q, p, t.1.n as int, t.1.d as int);
            }
        } else {
            if n * t.1.d <= t.1.n * d {
                frac_transitive(n, d, t.1.n as int, t.1.d as int, q, p);
            }
        }
    } else {
        assert(0 * n == 0) by (nonlinear_arith);
        if q >= 0 {
            assert(q * d >= 0) by (nonlinear_arith)
                requires
                    q >= 0,
                    d > 0,
            ;
        } else {
            assert(q * d < 0) by (nonlinear_arith)
                requires
                    q < 0,
                    d > 0,
            ;
        }
        assert(p * n == 0) by (nonlinear_arith)
            requires
                p == 0,
        ;
    }
}

/// The interval that clipping cuts out is exact: at a parameter between
/// zero and one the segment is inside the rectangle if and only if the
/// segment does not pass it by and the parameter is in the interval. What
/// is kept before and behind the interval is outside.
pub proof fn cut_interval_is_exact(a: Point, b: Point, r: Rect, n: int, d: int)
    requires
        a.within(CLIP_MAX as int),
        b.within(CLIP_MAX as int),
        r.within(CLIP_MAX as int),
        0 < d,
        0 <= n <= d,
    ensures
        inside_at(a, b, r, n, d) <==> !passes_by(edges(a, b, r)) && in_interval(
            interval(edges(a, b, r), 4),
            n,
            d,
        ),
{
    let es = edges(a, b, r);
    let dx = b.x.0 - a.x.0;
    let dy = b.y.0 - a.y.0;
    reveal_with_fuel(interval, 5);
    let i0 = interval(es, 0);
    let i1 = narrowed(i0, es[0]);
    let i2 = narrowed(i1, es[1]);
    let i3 = narrowed(i2, es[2]);
    let i4 = narrowed(i3, es[3]);
    assert(interval(es, 4) == i4);
    narrowed_is_exact(i0, es[0], n, d);
    narrowed_is_exact(i1, es[1], n, d);
    narrowed_is_exact(i2, es[2], n, d);
    narrowed_is_exact(i3, es[3], n, d);
    assert(0 * d == 0 && n * 1 == n && 1 * d == d) by (nonlinear_arith);
    assert(in_interval(i0, n, d));
    assert(meets(es[0], n, d) <==> r.min.x.0 * d <= a.x.0 * d + dx * n) by (nonlinear_arith)
        requires
            es[0].0 == -dx,
            es[0].1 == a.x.0 - r.min.x.0,
            meets(es[0], n, d) == (es[0].0 * n <= es[0].1 * d),
    ;
    assert(meets(es[1], n, d) <==> a.x.0 * d + dx * n <= r.max.x.0 * d) by (nonlinear_arith)
        requires
            es[1].0 == dx,
            es[1].1 == r.max.x.0 - a.x.0,
            meets(es[1], n, d) == (es[1].0 * n <= es[1].1 * d),
    ;
    assert(meets(es[2], n, d) <==> r.min.y.0 * d <= a.y.0 * d + dy * n) by (nonlinear_arith)
        requires
            es[2].0 == -dy,
            es[2].1 == a.y.0 - r.min.y.0,
            meets(es[2], n, d) == (es[2].0 * n <= es[2].1 * d),
    ;
    assert(meets(es[3], n, d) <==> a.y.0 * d + dy * n <= r.max.y.0 * d) by (nonlinear_arith)
        requires
            es[3].0 == dy,
            es[3].1 == r.max.y.0 - a.y.0,
            meets(es[3], n, d) == (es[3].0 * n <= es[3].1 * d),
    ;
    assert(inside_at(a, b, r, n, d) <==> meets(es[0], n, d) && meets(es[1], n, d) && meets(
        es[2],
        n,
        d,
    ) && meets(es[3], n, d));
    if passes_by(es) {
        let i = choose|i: int| 0 <= i < es.len() && (#[trigger] es[i]).0 == 0 && es[i].1 < 0;
        assert(!meets(es[i], n, d));
    } else {
        assert(es[0].0 == 0 ==> es[0].1 >= 0);
        assert(es[1].0 == 0 ==> es[1].1 >= 0);
        assert(es[2].0 == 0 ==> es[2].1 >= 0);
        assert(es[3].0 == 0 ==> es[3].1 >= 0);
    }
}

/// Both ends of the interval are fractions; it begins no earlier than the
/// segment and ends no later.
pub proof fn interval_is_within(a: Point, b: Point, r: Rect)
    requires
        a.within(CLIP_MAX as int),
        b.within(CLIP_MAX as int),
        r.within(CLIP_MAX as int),
    ensures
        ({
            let t = interval(edges(a, b, r), 4);
            &&& 0 < t.0.d && 0 < t.1.d
            &&& 0 <= t.0.n && t.1.n <= t.1.d
            &&& less(t.0, t.1) ==> t.0.n <= t.0.d && 0 <= t.1.n
        }),
{
    let es = edges(a, b, r);
    reveal_with_fuel(interval, 5);
    narrowed_stays_tame(interval(es, 0), es[0]);
    narrowed_stays_tame(interval(es, 1), es[1]);
    narrowed_stays_tame(interval(es, 2), es[2]);
    narrowed_stays_tame(interval(es, 3), es[3]);
    let t = interval(es, 4);
    if less(t.0, t.1) {
        ends_in_order(t);
    }
}

/// A rectangle that bites holds the points of the segment where the interval
/// begins and where it ends.
pub proof fn a_bite_is_inside(a: Point, b: Point, r: Rect)
    requires
        a.within(CLIP_MAX as int),
        b.within(CLIP_MAX as int),
        r.within(CLIP_MAX as int),
        bites(a, b, r),
    ensures
        ({
            let t = interval(edges(a, b, r), 4);
            &&& 0 < t.0.d && 0 <= t.0.n <= t.0.d
            &&& 0 < t.1.d && 0 <= t.1.n <= t.1.d
            &&& inside_at(a, b, r, t.0.n as int, t.0.d as int)
            &&& inside_at(a, b, r, t.1.n as int, t.1.d as int)
        }),
{
    interval_is_within(a, b, r);
    let t = interval(edges(a, b, r), 4);
    cut_interval_is_exact(a, b, r, t.0.n as int, t.0.d as int);
    cut_interval_is_exact(a, b, r, t.1.n as int, t.1.d as int);
}

/// A segment that no rectangle bites is left whole.
pub proof fn no_bite_leaves_it_whole(a: Point, b: Point, rects: Seq<Rect>, n: int)
    requires
        0 <= n <= rects.len(),
        forall|j: int| 0 <= j < n ==> !bites(a, b, #[trigger] rects[j]),
    ensures
        clipped(a, b, rects, n) == seq![(a, b)],
    decreases n,
{
    if n > 0 {
        no_bite_leaves_it_whole(a, b, rects, n - 1);
        assert(!bites(a, b, rects[n - 1]));
        reveal_with_fuel(trimmed, 2);
        assert(clipped(a, b, rects, n) =~= seq![(a, b)]);
    }
}

/// Cutting one rectangle out is clipping against it alone, and leaves at
/// most two pieces.
pub proof fn one_cut_is_one_clip(a: Point, b: Point, r: Rect)
    ensures
        outside(a, b, r) == clipped(a, b, seq![r], 1),
        outside(a, b, r).len() <= 2,
{
    reveal_with_fuel(clipped, 2);
    reveal_with_fuel(trimmed, 2);
    assert(clipped(a, b, seq![r], 1) =~= outside(a, b, r));
}

} // verus!
