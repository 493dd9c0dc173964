//! How the board is cut and filled, and what follows from its outline.

use vstd::prelude::*;

use crate::board::{Board, Footprint, Trace};
use crate::geometry;
use crate::geometry::{Point, Rect};
use crate::gerber;
use crate::gerber::Aperture;
use crate::list;
use crate::project;
use crate::rotation;
use crate::rotation::{COORD_MAX, UNIT};
use crate::stitch;
use crate::stitch::StitchPlan;
use crate::thermal;
use crate::units::Length;

verus! {

/// A move to the first point, and a line to each further one.
pub open spec fn path_text(v: Seq<Point>) -> Seq<char>
    decreases v.len(),
{
    if v.len() == 0 {
        Seq::empty()
    } else if v.len() == 1 {
        gerber::coord_line(v[0], "D02"@)
    } else {
        path_text(v.drop_last()) + gerber::coord_line(v.last(), "D01"@)
    }
}

/// The point is a corner of the rectangle.
pub open spec fn is_corner(r: Rect, p: Point) -> bool {
    (p.x == r.min.x || p.x == r.max.x) && (p.y == r.min.y || p.y == r.max.y)
}

/// The points go once around the rectangle, along its sides and back to the
/// first.
pub open spec fn goes_around(r: Rect, v: Seq<Point>) -> bool {
    &&& v.len() == 5
    &&& v[0] == v[4]
    &&& forall|k: int| 0 <= k < 5 ==> is_corner(r, #[trigger] v[k])
    &&& forall|p: Point| #[trigger] is_corner(r, p) ==> v.contains(p)
    &&& v[0].y == v[1].y && v[1].x == v[2].x && v[2].y == v[3].y && v[3].x == v[4].x
}

proof fn corners_go_around(r: Rect) -> (v: Seq<Point>)
    ensures
        goes_around(r, v),
        gerber::sharp_path(r) == path_text(v),
{
    let p10 = Point { x: r.max.x, y: r.min.y };
    let p01 = Point { x: r.min.x, y: r.max.y };
    let v = seq![r.min, p10, r.max, p01, r.min];
    reveal_with_fuel(path_text, 6);
    assert(v.drop_last() =~= seq![r.min, p10, r.max, p01]);
    assert(v.drop_last().drop_last() =~= seq![r.min, p10, r.max]);
    assert(v.drop_last().drop_last().drop_last() =~= seq![r.min, p10]);
    assert(v.drop_last().drop_last().drop_last().drop_last() =~= seq![r.min]);
    assert forall|p: Point| #[trigger] is_corner(r, p) implies v.contains(p) by {
        if p.x == r.min.x && p.y == r.min.y {
            assert(v[0] == p);
        } else if p.x == r.max.x && p.y == r.min.y {
            assert(v[1] == p);
        } else if p.x == r.max.x && p.y == r.max.y {
            assert(v[2] == p);
        } else {
            assert(v[3] == p);
        }
    }
    v
}

/// A board with sharp corners is cut along its outline, once around, with a
/// stroke of 0.05 mm; one without an outline around its content and 2 mm.
pub proof fn boards_are_cut_along_their_outline(b: Board) -> (v: Seq<Point>)
    requires
        b.outline_corner_radius.0 == 0,
        gerber::cut_rect(b) is Some,
    ensures
        goes_around(gerber::cut_rect(b)->0, v),
        gerber::edge_text(b) == gerber::header("Edge.Cuts"@) + gerber::definitions(
            seq![Aperture::Round { d: Length(50_000) }],
            1,
        ) + gerber::selection(10) + path_text(v) + "M02*\n"@,
        b.outline matches Some(o) ==> gerber::cut_rect(b) == Some(o),
{
    corners_go_around(gerber::cut_rect(b)->0)
}

/// The arc from `p` to `q` about the point at that offset from `p` is a
/// quarter of a circle of radius `c` inside the rectangle.
pub open spec fn is_quarter(r: Rect, p: Point, q: Point, i: int, j: int, c: int) -> bool {
    let (x, y) = (p.x.0 + i, p.y.0 + j);
    &&& (i == 0 && (j == c || j == -c)) || (j == 0 && (i == c || i == -c))
    &&& (q.x.0 - x == 0 && (q.y.0 - y == c || q.y.0 - y == -c)) || (q.y.0 - y == 0 && (q.x.0 - x
        == c || q.x.0 - x == -c))
    &&& i * (q.x.0 - x) + j * (q.y.0 - y) == 0
    &&& r.min.x.0 + c <= x <= r.max.x.0 - c || r.max.x.0 - r.min.x.0 < 2 * c
    &&& r.min.y.0 + c <= y <= r.max.y.0 - c || r.max.y.0 - r.min.y.0 < 2 * c
}

/// With rounded corners the cut runs along the four sides and turns each
/// corner by a quarter of a circle of the given radius, back to where it
/// began.
pub proof fn rounded_corners_are_quarter_circles(r: Rect, c: int) -> (v: Seq<Point>)
    requires
        r.within(COORD_MAX as int),
        0 <= c <= COORD_MAX,
    ensures
        v.len() == 9,
        v[0] == v[8],
        v[0].y == r.min.y && v[1].y == r.min.y,
        v[2].x == r.max.x && v[3].x == r.max.x,
        v[4].y == r.max.y && v[5].y == r.max.y,
        v[6].x == r.min.x && v[7].x == r.min.x,
        is_quarter(r, v[1], v[2], 0, c, c),
        is_quarter(r, v[3], v[4], -c, 0, c),
        is_quarter(r, v[5], v[6], 0, -c, c),
        is_quarter(r, v[7], v[8], c, 0, c),
        gerber::round_path(r, c) == "G75*\n"@ + gerber::coord_line(v[0], "D02"@)
            + gerber::coord_line(v[1], "D01"@) + gerber::arc_line(v[2], 0, c) + gerber::coord_line(
            v[3],
            "D01"@,
        ) + gerber::arc_line(v[4], -c, 0) + gerber::coord_line(v[5], "D01"@) + gerber::arc_line(
            v[6],
            0,
            -c,
        ) + gerber::coord_line(v[7], "D01"@) + gerber::arc_line(v[8], c, 0),
{
    let (x0, y0) = (r.min.x.0 as int, r.min.y.0 as int);
    let (x1, y1) = (r.max.x.0 as int, r.max.y.0 as int);
    let v = seq![
        thermal::pt(x0 + c, y0),
        thermal::pt(x1 - c, y0),
        thermal::pt(x1, y0 + c),
        thermal::pt(x1, y1 - c),
        thermal::pt(x1 - c, y1),
        thermal::pt(x0 + c, y1),
        thermal::pt(x0, y1 - c),
        thermal::pt(x0, y0 + c),
        thermal::pt(x0 + c, y0),
    ];
    assert(forall|d: int| #[trigger] (0 * d) == 0 && #[trigger] (d * 0) == 0) by (nonlinear_arith);
    assert(0 * c + c * 0 == 0 && (-c) * 0 + 0 * c == 0 && 0 * (-c) + (-c) * 0 == 0 && c * 0 + 0 * (
    -c) == 0) by (nonlinear_arith);
    v
}

/// A pour fills the outline, drawn in by 0.3 mm on all sides, once around.
pub proof fn pours_fill_the_outline(o: Rect) -> (v: Seq<Point>)
    ensures
        goes_around(geometry::grown(o, -300_000), v),
        gerber::region(Some(o)) == "G36*\n"@ + path_text(v) + "G37*\n"@,
{
    let r = geometry::grown(o, -300_000);
    let v = corners_go_around(r);
    assert(gerber::region(Some(o)) =~= "G36*\n"@ + gerber::sharp_path(r) + "G37*\n"@);
    v
}

/// The rectangle is the smallest around the boxes of the footprints that
/// have pads.
pub open spec fn is_content(b: Board, r: Rect, n: int) -> bool {
    &&& forall|i: int|
        0 <= i < n ==> ((#[trigger] b.footprints@[i]).pad_bounds() matches Some(s) ==> r.covers(s))
    &&& forall|c: Rect|
        (forall|i: int|
            0 <= i < n ==> ((#[trigger] b.footprints@[i]).pad_bounds() matches Some(s)
                ==> c.covers(s))) ==> #[trigger] c.covers(r)
}

proof fn content_is_smallest(b: Board, n: int)
    requires
        0 <= n <= b.footprints@.len(),
        forall|i: int|
            0 <= i < n ==> ((#[trigger] b.footprints@[i]).pad_bounds() matches Some(s) ==> s.wf()),
    ensures
        b.content_upto(n) matches Some(r) ==> r.wf() && is_content(b, r, n),
        b.content_upto(n) is None <==> forall|i: int|
            0 <= i < n ==> (#[trigger] b.footprints@[i]).pad_bounds() is None,
    decreases n,
{
    if n > 0 {
        content_is_smallest(b, n - 1);
        let fp = b.footprints@[n - 1];
        if let Some(r) = b.content_upto(n) {
            match (b.content_upto(n - 1), fp.pad_bounds()) {
                (Some(a), Some(s)) => {
                    geometry::union_is_least_cover(a, s, r);
                    assert forall|c: Rect|
                        (forall|i: int|
                            0 <= i < n ==> ((#[trigger] b.footprints@[i]).pad_bounds() matches Some(
                                t,
                            ) ==> c.covers(t))) implies #[trigger] c.covers(r) by {
                        assert(c.covers(a));
                        assert(b.footprints@[n - 1].pad_bounds() == Some(s));
                        geometry::union_is_least_cover(a, s, c);
                    }
                    assert forall|i: int| 0 <= i < n implies ((
                    #[trigger] b.footprints@[i]).pad_bounds() matches Some(t) ==> r.covers(t)) by {
                        if i < n - 1 {
                            if let Some(t) = b.footprints@[i].pad_bounds() {
                                assert(a.covers(t));
                            }
                        }
                    }
                },
                (None, Some(s)) => {
                    assert forall|c: Rect|
                        (forall|i: int|
                            0 <= i < n ==> ((#[trigger] b.footprints@[i]).pad_bounds() matches Some(
                                t,
                            ) ==> c.covers(t))) implies #[trigger] c.covers(r) by {
                        assert(b.footprints@[n - 1].pad_bounds() == Some(s));
                    }
                },
                (Some(a), None) => {
                    assert forall|c: Rect|
                        (forall|i: int|
                            0 <= i < n ==> ((#[trigger] b.footprints@[i]).pad_bounds() matches Some(
                                t,
                            ) ==> c.covers(t))) implies #[trigger] c.covers(r) by {
                        assert(c.covers(a));
                    }
                },
                (None, None) => {},
            }
        }
    }
}

/// The content of a board is the smallest rectangle around all its pads, and
/// there is none exactly if there are no pads.
pub proof fn content_is_the_smallest_box(b: Board)
    requires
        forall|i: int|
            0 <= i < b.footprints@.len() ==> ((#[trigger] b.footprints@[i]).pad_bounds() matches Some(
                s,
            ) ==> s.wf()),
    ensures
        b.content_upto(b.footprints@.len() as int) matches Some(r) ==> r.wf() && is_content(
            b,
            r,
            b.footprints@.len() as int,
        ),
        b.content_upto(b.footprints@.len() as int) is None <==> forall|i: int|
            0 <= i < b.footprints@.len() ==> (#[trigger] b.footprints@[i]).pad_bounds() is None,
{
    content_is_smallest(b, b.footprints@.len() as int);
}

/// The corner radius of an outline is the one that is asked for, where two
/// of it fit on the shorter side; else it is half that side, and never below
/// zero.
pub proof fn corner_radius_fits(o: Rect, radius: int)
    requires
        o.wf(),
    ensures
        ({
            let w = o.max.x.0 - o.min.x.0;
            let h = o.max.y.0 - o.min.y.0;
            let r = project::radius_within(o, radius);
            &&& 0 <= r && 2 * r <= w && 2 * r <= h
            &&& 0 <= radius && 2 * radius <= w && 2 * radius <= h ==> r == radius
            &&& radius < 0 ==> r == 0
            &&& 2 * radius > w || 2 * radius > h ==> 2 * r + 1 >= w || 2 * r + 1 >= h
        }),
{
}

/// A footprint is taken off a new outline exactly if it has pads and the box
/// around them is not inside.
pub proof fn footprints_outside_are_taken_off(o: Rect, fp: Footprint)
    requires
        fp.pad_bounds() matches Some(r) ==> r.wf(),
    ensures
        project::pokes_out(o)(fp) <==> (fp.pad_bounds() matches Some(r) && !o.covers(r)),
        project::stays_in(o)(fp) <==> !project::pokes_out(o)(fp),
{
    if let Some(r) = fp.pad_bounds() {
        assert(r.holds(r.min.x.0 as int, r.min.y.0 as int));
        assert(r.holds(r.max.x.0 as int, r.max.y.0 as int));
        if !project::pokes_out(o)(fp) {
            assert(o.covers(r));
        } else if o.covers(r) {
            assert(o.holds(r.min.x.0 as int, r.min.y.0 as int));
            assert(o.holds(r.max.x.0 as int, r.max.y.0 as int));
        }
    }
}

proof fn stubs_counted(plan: StitchPlan, n: int, x: Trace)
    requires
        0 <= n <= plan.proposals@.len(),
    ensures
        list::how_often(stitch::new_stubs(plan, n), x) == list::how_many(
            |k: int| plan.proposals@[k].stub == Some(x),
            n,
        ),
    decreases n,
{
    let p = |k: int| plan.proposals@[k].stub == Some(x);
    if n > 0 {
        stubs_counted(plan, n - 1, x);
        let before = stitch::new_stubs(plan, n - 1);
        if let Some(t) = plan.proposals@[n - 1].stub {
            assert(before.push(t).drop_last() =~= before);
        }
        assert(p(n - 1) == (plan.proposals@[n - 1].stub == Some(x)));
        assert(list::how_many(p, n) == list::how_many(p, n - 1) + if p(n - 1) {
            1nat
        } else {
            0nat
        });
    }
}

/// Applying a plan lays the stub of each proposal that has one, once, and no
/// other.
pub proof fn every_stub_is_laid_once(plan: StitchPlan, x: Trace)
    ensures
        list::how_often(stitch::new_stubs(plan, plan.proposals@.len() as int), x)
            == list::how_many(
            |k: int| plan.proposals@[k].stub == Some(x),
            plan.proposals@.len() as int,
        ),
{
    stubs_counted(plan, plan.proposals@.len() as int, x);
}

proof fn straight_out(x: int, h: int, d: int)
    ensures
        rotation::rounded(x * (UNIT * UNIT) + UNIT * (h * UNIT + d * UNIT), UNIT * UNIT) == x + h
            + d,
        rotation::rounded(x * (UNIT * UNIT) + -UNIT * (h * UNIT + d * UNIT), UNIT * UNIT) == x - h
            - d,
        rotation::rounded(x * (UNIT * UNIT) + 0 * (h * UNIT + d * UNIT), UNIT * UNIT) == x,
{
    let u = UNIT as int;
    let k = u * u;
    assert(k > 0) by (nonlinear_arith)
        requires
            k == u * u,
            u > 0,
    ;
    assert(x * k + u * (h * u + d * u) == (x + h + d) * k) by (nonlinear_arith)
        requires
            k == u * u,
    ;
    assert(x * k + -u * (h * u + d * u) == (x - h - d) * k) by (nonlinear_arith)
        requires
            k == u * u,
    ;
    assert(x * k + 0 * (h * u + d * u) == x * k) by (nonlinear_arith);
    rotation::rounded_exact(x + h + d, k);
    rotation::rounded_exact(x - h - d, k);
    rotation::rounded_exact(x, k);
}

/// A swept spoke to the east or to the north is the one to that side: from
/// 0.05 mm inside the edge of the pad to `reach` outside.
pub proof fn swept_spokes_leave_through_the_edge(c: Point, hw: int, hh: int, reach: int)
    ensures
        thermal::angled(c, hw, hh, reach, 0) == (
            thermal::pt(c.x.0 + hw - 50_000, c.y.0 as int),
            thermal::pt(c.x.0 + hw + reach, c.y.0 as int),
        ),
        thermal::angled(c, hw, hh, reach, 45) == (
            thermal::pt(c.x.0 as int, c.y.0 + hh - 50_000),
            thermal::pt(c.x.0 as int, c.y.0 + hh + reach),
        ),
{
    reveal(rotation::sin_quarter);
    assert(rotation::cos_deg(0) == UNIT && rotation::sin_deg(0) == 0);
    assert(rotation::cos_deg(90) == 0 && rotation::sin_deg(90) == UNIT);
    straight_out(c.x.0 as int, hw, -50_000);
    straight_out(c.x.0 as int, hw, reach);
    straight_out(c.y.0 as int, hw, -50_000);
    straight_out(c.y.0 as int, hw, reach);
    straight_out(c.x.0 as int, hh, -50_000);
    straight_out(c.x.0 as int, hh, reach);
    straight_out(c.y.0 as int, hh, -50_000);
    straight_out(c.y.0 as int, hh, reach);
}

} // verus!
