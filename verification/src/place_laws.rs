//! Where findings are reported, and what gap they give.

use vstd::prelude::*;

use crate::arith;
use crate::board::{Board, Footprint, Keepout, Pad, Trace, Via};
use crate::continuity;
use crate::continuity::Piece;
use crate::drc;
use crate::drc::{DrcOptions, FabProfile};
use crate::geometry::Rect;
use crate::rectify::Quad;
use crate::violation::Finding;

verus! {

/// `m` is the middle of `a` and `b`, rounded towards zero.
pub open spec fn is_middle(m: int, a: int, b: int) -> bool {
    if a + b >= 0 {
        2 * m <= a + b < 2 * m + 2
    } else {
        2 * m - 2 < a + b <= 2 * m
    }
}

/// `m` is the mean of four numbers, rounded towards zero.
pub open spec fn is_mean(m: int, a: int, b: int, c: int, d: int) -> bool {
    let s = a + b + c + d;
    if s >= 0 {
        4 * m <= s < 4 * m + 4
    } else {
        4 * m - 4 < s <= 4 * m
    }
}

/// All findings in the list are reported at that point.
pub open spec fn all_at(f: Seq<Finding>, x: int, y: int) -> bool {
    forall|k: int| 0 <= k < f.len() ==> (#[trigger] f[k]).x == x && f[k].y == y
}

/// All findings in the list are reported in the middle of the trace.
pub open spec fn all_on_trace(f: Seq<Finding>, t: Trace) -> bool {
    forall|k: int|
        0 <= k < f.len() ==> is_middle(
            (#[trigger] f[k]).x,
            t.start.x.0 as int,
            t.end.x.0 as int,
        ) && is_middle(f[k].y, t.start.y.0 as int, t.end.y.0 as int)
}

/// All findings in the list are reported in the middle of the rectangle.
pub open spec fn all_on_rect(f: Seq<Finding>, r: Rect) -> bool {
    forall|k: int|
        0 <= k < f.len() ==> is_middle(
            (#[trigger] f[k]).x,
            r.min.x.0 as int,
            r.max.x.0 as int,
        ) && is_middle(f[k].y, r.min.y.0 as int, r.max.y.0 as int)
}

/// Findings about a trace are reported in its middle.
pub proof fn trace_findings_are_on_the_trace(
    t: Seq<Trace>,
    i: int,
    o: Rect,
    clr: int,
    by: Option<Seq<char>>,
    k: Keepout,
    profile: FabProfile,
)
    ensures
        all_on_trace(drc::trace_edge(t[i], o, clr, by), t[i]),
        all_on_trace(drc::narrow_traces(t, clr)(i), t[i]),
        all_on_trace(drc::trace_keepout(k, t[i]), t[i]),
        all_on_trace(drc::profile_trace(t[i], profile), t[i]),
{
}

/// Findings about a via are reported at its centre.
pub proof fn via_findings_are_on_the_via(
    v: Seq<Via>,
    i: int,
    o: Rect,
    clr: int,
    by: Option<Seq<char>>,
    k: Keepout,
    profile: FabProfile,
)
    ensures
        ({
            let (x, y) = (v[i].position.x.0 as int, v[i].position.y.0 as int);
            &&& all_at(drc::via_edge(v[i], o, clr, by), x, y)
            &&& all_at(drc::small_via_drills(v, clr)(i), x, y)
            &&& all_at(drc::via_keepout(k, v[i]), x, y)
            &&& all_at(drc::profile_drill(v[i], profile), x, y)
            &&& all_at(drc::profile_ring(v[i], profile), x, y)
            &&& all_at(drc::profile_diameter(v[i], profile), x, y)
        }),
{
}

/// Findings about a pad are reported in the middle of its copper, those
/// about its hole at its centre.
pub proof fn pad_findings_are_on_the_pad(
    b: Board,
    i: int,
    t: Trace,
    o: Rect,
    clr: int,
    by: Option<Seq<char>>,
    profile: FabProfile,
)
    ensures
        ({
            let p = drc::pads_of(b)[i];
            let r = p.0.rect_of(p.1);
            let c = p.0.center_of(p.1);
            &&& all_on_rect(drc::pad_edge(p, o, clr, by), r)
            &&& all_on_rect(drc::trace_apart(t, p, clr), r)
            &&& all_on_rect(drc::unconnected(b)(i), r)
            &&& all_at(drc::small_pad_drill(p, clr), c.x.0 as int, c.y.0 as int)
            &&& all_at(drc::profile_pad(p, profile), c.x.0 as int, c.y.0 as int)
        }),
{
}

/// Findings about two pads or two traces are reported in the middle between
/// them.
pub proof fn pair_findings_are_between(
    p: (Footprint, Pad),
    q: (Footprint, Pad),
    s: Trace,
    t: Trace,
    clr: int,
    k: int,
)
    ensures
        0 <= k < drc::pads_apart(p, q, clr).len() ==> {
            let (f, r, u) = (drc::pads_apart(p, q, clr)[k], p.0.rect_of(p.1), q.0.rect_of(q.1));
            &&& is_mean(
                f.x,
                r.min.x.0 as int,
                r.max.x.0 as int,
                u.min.x.0 as int,
                u.max.x.0 as int,
            )
            &&& is_mean(
                f.y,
                r.min.y.0 as int,
                r.max.y.0 as int,
                u.min.y.0 as int,
                u.max.y.0 as int,
            )
        },
        0 <= k < drc::traces_apart(s, t, clr).len() ==> {
            let f = drc::traces_apart(s, t, clr)[k];
            &&& is_mean(
                f.x,
                s.start.x.0 as int,
                s.end.x.0 as int,
                t.start.x.0 as int,
                t.end.x.0 as int,
            )
            &&& is_mean(
                f.y,
                s.start.y.0 as int,
                s.end.y.0 as int,
                t.start.y.0 as int,
                t.end.y.0 as int,
            )
        },
{
}

/// Findings about a footprint are reported at its place, or in the middle of
/// its body; those about two bodies between them.
pub proof fn body_findings_are_on_the_body(
    b: Board,
    i: int,
    j: int,
    o: Rect,
    opts: DrcOptions,
    k: int,
)
    ensures
        ({
            let (f, g) = (b.footprints@[i], b.footprints@[j]);
            &&& all_at(
                drc::small_dangling(b)(i),
                f.position.x.0 as int,
                f.position.y.0 as int,
            )
            &&& f.body(drc::margin_of(opts, f)) matches Some(r) ==> all_on_rect(
                drc::body_off(f, o, opts),
                r,
            ) && (g.body(drc::margin_of(opts, g)) matches Some(s) ==> (0 <= k < drc::body_body(
                f,
                g,
                opts,
            ).len() ==> is_mean(
                drc::body_body(f, g, opts)[k].x,
                r.min.x.0 as int,
                r.max.x.0 as int,
                s.min.x.0 as int,
                s.max.x.0 as int,
            ) && is_mean(
                drc::body_body(f, g, opts)[k].y,
                r.min.y.0 as int,
                r.max.y.0 as int,
                s.min.y.0 as int,
                s.max.y.0 as int,
            )))
        }),
{
}

/// A short is reported in the middle between the two pieces that make it.
pub proof fn shorts_are_between_their_pieces(p: Seq<Piece>, i: int, j: int, k: int)
    ensures
        0 <= k < continuity::short(p, i, j).len() ==> is_middle(
            continuity::short(p, i, j)[k].x,
            p[i].x,
            p[j].x,
        ) && is_middle(continuity::short(p, i, j)[k].y, p[i].y, p[j].y),
{
}

/// The gap that is printed of two pieces of copper, `widths` wide in all,
/// is the largest whole number that is no more than the distance of their
/// centre lines less half the widths, where that is not negative.
pub proof fn printed_gaps_are_the_gap(q: int, widths: int)
    requires
        0 <= q,
        0 <= widths,
        widths * widths <= q,
    ensures
        ({
            let g = drc::gap(q, widths);
            &&& 0 <= g
            &&& (2 * g + widths) * (2 * g + widths) <= q
            &&& q < (2 * g + 2 + widths) * (2 * g + 2 + widths)
        }),
{
    arith::root_exists(q as nat);
    let s = arith::root(q as nat) as int;
    let g = drc::gap(q, widths);
    if s < widths {
        assert((s + 1) * (s + 1) <= widths * widths) by (nonlinear_arith)
            requires
                0 <= s,
                s + 1 <= widths,
        ;
    }
    assert(2 * g <= s - widths < 2 * g + 2);
    let (a, c) = (2 * g + widths, 2 * g + 2 + widths);
    assert(a * a <= s * s) by (nonlinear_arith)
        requires
            0 <= a <= s,
    ;
    assert((s + 1) * (s + 1) <= c * c) by (nonlinear_arith)
        requires
            0 <= s,
            s + 1 <= c,
    ;
}

/// Corner `i` of the quadrilateral is sound: it joins two sides that have a
/// length, they are not in line but for a ten-thousandth, and it turns the
/// way the area goes round.
pub open spec fn is_sound_corner(q: Quad, i: int) -> bool {
    &&& q.side2(i) != 0
    &&& q.side2(i + 1) != 0
    &&& q.turn(i) * q.turn(i) * 100_000_000 >= q.side2(i) * q.side2(i + 1)
    &&& (q.turn(i) < 0) == (q.area2() < 0)
}

proof fn sound_from(q: Quad, i: int)
    requires
        0 <= i <= 4,
    ensures
        q.fault_from(i) is None <==> forall|k: int| i <= k < 4 ==> #[trigger] is_sound_corner(q, k),
    decreases 4 - i,
{
    if i < 4 {
        sound_from(q, i + 1);
        assert(q.corner_fault(i) is None <==> is_sound_corner(q, i));
    }
}

/// The corners of a photo are accepted exactly if they enclose an area and
/// all four are sound.
pub proof fn convex_corners_are_accepted(q: Quad)
    ensures
        q.fault() is None <==> q.area2() != 0 && forall|k: int|
            0 <= k < 4 ==> #[trigger] is_sound_corner(q, k),
{
    sound_from(q, 0);
}

} // verus!
