//! What the design rule check finds of whole nets: nets that fall apart, and
//! nets that touch.

use vstd::prelude::*;

use crate::board::{Board, CopperLayer};
use crate::continuity;
use crate::continuity::{CopperShape, Piece};
use crate::csv;
use crate::drc;
use crate::drc::DrcOptions;
use crate::drc_laws;
use crate::finding_laws;
use crate::geometry::{Point, Rect};
use crate::islands;
use crate::list;
use crate::nearness;
use crate::pad_laws;
use crate::text;
use crate::thermal;
use crate::touching;
use crate::violation::{Finding, Severity, ViolationKind};

verus! {

/// Some point of the segment is within half of `x` of `c`.
pub open spec fn segment_reaches(a: Point, b: Point, c: Point, x: int) -> bool {
    exists|n: int, e: int| #[trigger]
        nearness::is_share(n, e) && 4 * nearness::from_point2(a, b, c, n, e) <= (x * x) * (e * e)
}

/// The point is within half of `x` of the rectangle.
pub open spec fn point_reaches(c: Point, r: Rect, x: int) -> bool {
    let dx = finding_laws::outside_by(c.x.0 as int, r.min.x.0 as int, r.max.x.0 as int);
    let dy = finding_laws::outside_by(c.y.0 as int, r.min.y.0 as int, r.max.y.0 as int);
    4 * (dx * dx + dy * dy) <= x * x
}

/// The two shapes come within a nanometre of each other. A pour is
/// everywhere.
pub open spec fn reach(a: CopperShape, b: CopperShape) -> bool {
    match (a, b) {
        (CopperShape::Pour, _) => true,
        (_, CopperShape::Pour) => true,
        (CopperShape::Pad { rect: p }, CopperShape::Pad { rect: q }) => nearness::rects_closer(
            p,
            q,
            2,
        ),
        (CopperShape::Pad { rect }, CopperShape::Trace { a, b, width }) => 2 + width >= 0
            && nearness::as_close_rect(a, b, rect, 4, (2 + width) * (2 + width)),
        (CopperShape::Trace { a, b, width }, CopperShape::Pad { rect }) => 2 + width >= 0
            && nearness::as_close_rect(a, b, rect, 4, (2 + width) * (2 + width)),
        (CopperShape::Pad { rect }, CopperShape::Via { c, diameter }) => 2 + diameter >= 0
            && point_reaches(c, rect, 2 + diameter),
        (CopperShape::Via { c, diameter }, CopperShape::Pad { rect }) => 2 + diameter >= 0
            && point_reaches(c, rect, 2 + diameter),
        (
            CopperShape::Trace { a: a0, b: a1, width: w0 },
            CopperShape::Trace { a: b0, b: b1, width: w1 },
        ) => 2 + w0 + w1 >= 0 && nearness::as_close(
            a0,
            a1,
            b0,
            b1,
            4,
            (2 + w0 + w1) * (2 + w0 + w1),
        ),
        (CopperShape::Trace { a, b, width }, CopperShape::Via { c, diameter }) => 2 + width
            + diameter >= 0 && segment_reaches(a, b, c, 2 + width + diameter),
        (CopperShape::Via { c, diameter }, CopperShape::Trace { a, b, width }) => 2 + width
            + diameter >= 0 && segment_reaches(a, b, c, 2 + width + diameter),
        (CopperShape::Via { c: c0, diameter: d0 }, CopperShape::Via { c: c1, diameter: d1 }) => 2
            + d0 + d1 >= 0 && 4 * ((c0.x.0 - c1.x.0) * (c0.x.0 - c1.x.0) + (c0.y.0 - c1.y.0) * (
        c0.y.0 - c1.y.0)) <= (2 + d0 + d1) * (2 + d0 + d1),
    }
}

/// The piece has copper on the layer; one without a layer has it on all.
pub open spec fn is_on(p: Piece, layer: CopperLayer) -> bool {
    p.layer is None || p.layer == Some(layer)
}

pub open spec fn both_on(a: Piece, b: Piece, layer: CopperLayer) -> bool {
    is_on(a, layer) && is_on(b, layer)
}

/// The two pieces have copper on one layer and come within a nanometre of
/// each other.
pub open spec fn touch(a: Piece, b: Piece) -> bool {
    (exists|layer: CopperLayer| #[trigger] both_on(a, b, layer)) && reach(a.shape, b.shape)
}

/// The shape can be measured: a pad is a rectangle, and all is near enough.
pub open spec fn is_measurable(s: CopperShape) -> bool {
    s.in_range() && (s matches CopperShape::Pad { rect } ==> rect.wf())
}

proof fn segment_reach_is_measured(a: Point, b: Point, c: Point, x: int)
    ensures
        thermal::pt_measure(drc::contact(), a, b, c) <= x * x <==> segment_reaches(a, b, c, x),
{
    let g = drc::contact();
    if thermal::pt_measure(g, a, b, c) <= x * x {
        let (n, e) = nearness::measure_bounds_point(g, a, b, c, x * x);
        assert(nearness::is_share(n, e));
    }
    if segment_reaches(a, b, c, x) {
        let (n, e) = choose|n: int, e: int| #[trigger]
            nearness::is_share(n, e) && 4 * nearness::from_point2(a, b, c, n, e) <= (x * x) * (e
                * e);
        nearness::point_bounds_measure(g, a, b, c, n, e, x * x);
    }
}

proof fn meeting_is_reaching(a: CopperShape, b: CopperShape)
    requires
        is_measurable(a),
        is_measurable(b),
    ensures
        continuity::shapes_meet(a, b) <==> reach(a, b),
{
    let g = drc::contact();
    match (a, b) {
        (CopperShape::Pour, _) => {},
        (_, CopperShape::Pour) => {},
        (CopperShape::Pad { rect: p }, CopperShape::Pad { rect: q }) => {
            assert(2 * 2 == 4int) by (nonlinear_arith);
            nearness::rect_gap_is_distance(p, q, 2);
        },
        (CopperShape::Pad { rect }, CopperShape::Trace { a, b, width }) => {
            nearness::rect_measure_is_distance(g, a, b, rect, (2 + width) * (2 + width));
        },
        (CopperShape::Trace { a, b, width }, CopperShape::Pad { rect }) => {
            nearness::rect_measure_is_distance(g, a, b, rect, (2 + width) * (2 + width));
        },
        (CopperShape::Pad { rect }, CopperShape::Via { c, diameter }) => {},
        (CopperShape::Via { c, diameter }, CopperShape::Pad { rect }) => {},
        (
            CopperShape::Trace { a: a0, b: a1, width: w0 },
            CopperShape::Trace { a: b0, b: b1, width: w1 },
        ) => {
            let x = 2 + w0 + w1;
            nearness::measure_is_distance(g, a0, a1, b0, b1, x * x);
        },
        (CopperShape::Trace { a, b, width }, CopperShape::Via { c, diameter }) => {
            segment_reach_is_measured(a, b, c, 2 + width + diameter);
        },
        (CopperShape::Via { c, diameter }, CopperShape::Trace { a, b, width }) => {
            segment_reach_is_measured(a, b, c, 2 + width + diameter);
        },
        (CopperShape::Via { c: c0, diameter: d0 }, CopperShape::Via { c: c1, diameter: d1 }) => {
            let (x, y) = (c1.x.0 - c0.x.0, c1.y.0 - c0.y.0);
            assert(x * x == (-x) * (-x) && y * y == (-y) * (-y)) by (nonlinear_arith);
            assert(0 * 0 == 0int) by (nonlinear_arith);
        },
    }
}

/// Pieces of copper touch exactly if they have copper on one layer and come
/// within a nanometre of each other.
pub proof fn touching_is_exact(a: Piece, b: Piece)
    requires
        is_measurable(a.shape),
        is_measurable(b.shape),
    ensures
        continuity::touching(a, b) <==> touch(a, b),
{
    meeting_is_reaching(a.shape, b.shape);
    if continuity::layers_meet(a.layer, b.layer) {
        let layer = match a.layer {
            Some(l) => l,
            None => match b.layer {
                Some(l) => l,
                None => CopperLayer::Top,
            },
        };
        assert(both_on(a, b, layer));
    }
}

/// The piece is a pad of the list that is on a net.
pub open spec fn is_pad_piece(b: Board, k: int, x: Piece) -> bool {
    let p = drc::pads_of(b)[k];
    &&& 0 <= k < drc::pads_of(b).len()
    &&& p.1.net matches Some(n) && x.net == n@
    &&& x.layer == if p.1.drill is Some {
        None
    } else {
        Some(p.1.layer)
    }
    &&& x.shape == (CopperShape::Pad { rect: p.0.rect_of(p.1) })
    &&& x.label == drc::label_of(p)
    &&& x.x == drc::center_x(p) && x.y == drc::center_y(p)
}

/// All pieces: the pads that are on a net, then the traces, the vias and the
/// pours.
proof fn pieces_are_of_the_board(b: Board, k: int)
    requires
        0 <= k < continuity::copper(b).len(),
    ensures
        ({
            let x = continuity::copper(b)[k];
            ||| exists|i: int| #[trigger] is_pad_piece(b, i, x)
            ||| exists|i: int|
                0 <= i < b.traces@.len() && x == continuity::trace_piece(#[trigger] b.traces@[i])
            ||| exists|i: int|
                0 <= i < b.vias@.len() && x == continuity::via_piece(#[trigger] b.vias@[i])
            ||| exists|i: int|
                0 <= i < b.pours@.len() && x == continuity::pour_piece(#[trigger] b.pours@[i])
        }),
{
    let p = drc::pads_of(b);
    let f = continuity::pad_pieces(p);
    let pads = list::upto(f, p.len() as int);
    let x = continuity::copper(b)[k];
    let (np, nt, nv) = (pads.len() as int, b.traces@.len() as int, b.vias@.len() as int);
    if k < np {
        assert(x == pads[k]);
        assert(pads.contains(x));
        list::upto_holds(f, p.len() as int, x);
        let i = choose|i: int| 0 <= i < p.len() && #[trigger] f(i).contains(x);
        assert(is_pad_piece(b, i, x));
    } else if k < np + nt {
        assert(x == continuity::trace_piece(b.traces@[k - np]));
    } else if k < np + nt + nv {
        assert(x == continuity::via_piece(b.vias@[k - np - nt]));
    } else {
        assert(x == continuity::pour_piece(b.pours@[k - np - nt - nv]));
    }
}

/// The pieces of copper are the pads that are on a net, the traces, the vias
/// and the pours: each of these is among them, and there is no other.
pub proof fn copper_is_complete(b: Board, x: Piece)
    ensures
        continuity::copper(b).contains(x) <==> {
            ||| exists|i: int| #[trigger] is_pad_piece(b, i, x)
            ||| exists|i: int|
                0 <= i < b.traces@.len() && x == continuity::trace_piece(#[trigger] b.traces@[i])
            ||| exists|i: int|
                0 <= i < b.vias@.len() && x == continuity::via_piece(#[trigger] b.vias@[i])
            ||| exists|i: int|
                0 <= i < b.pours@.len() && x == continuity::pour_piece(#[trigger] b.pours@[i])
        },
{
    let p = drc::pads_of(b);
    let f = continuity::pad_pieces(p);
    let pads = list::upto(f, p.len() as int);
    let c = continuity::copper(b);
    let (np, nt, nv) = (pads.len() as int, b.traces@.len() as int, b.vias@.len() as int);
    if c.contains(x) {
        let k = choose|k: int| 0 <= k < c.len() && c[k] == x;
        pieces_are_of_the_board(b, k);
    }
    if exists|i: int| #[trigger] is_pad_piece(b, i, x) {
        let i = choose|i: int| #[trigger] is_pad_piece(b, i, x);
        assert(f(i)[0] == x);
        assert(f(i).contains(x));
        list::upto_holds(f, p.len() as int, x);
        let k = choose|k: int| 0 <= k < pads.len() && pads[k] == x;
        assert(c[k] == x);
    }
    if exists|i: int|
        0 <= i < b.traces@.len() && x == continuity::trace_piece(#[trigger] b.traces@[i]) {
        let i = choose|i: int|
            0 <= i < b.traces@.len() && x == continuity::trace_piece(#[trigger] b.traces@[i]);
        assert(c[np + i] == x);
    }
    if exists|i: int| 0 <= i < b.vias@.len() && x == continuity::via_piece(#[trigger] b.vias@[i]) {
        let i = choose|i: int|
            0 <= i < b.vias@.len() && x == continuity::via_piece(#[trigger] b.vias@[i]);
        assert(c[np + nt + i] == x);
    }
    if exists|i: int|
        0 <= i < b.pours@.len() && x == continuity::pour_piece(#[trigger] b.pours@[i]) {
        let i = choose|i: int|
            0 <= i < b.pours@.len() && x == continuity::pour_piece(#[trigger] b.pours@[i]);
        assert(c[np + nt + nv + i] == x);
    }
}

proof fn pieces_are_measurable(b: Board)
    requires
        pad_laws::proper(b),
    ensures
        forall|k: int|
            0 <= k < continuity::copper(b).len() ==> is_measurable(
                (#[trigger] continuity::copper(b)[k]).shape,
            ),
{
    let c = continuity::copper(b);
    assert forall|k: int| 0 <= k < c.len() implies is_measurable((#[trigger] c[k]).shape) by {
        let x = c[k];
        pieces_are_of_the_board(b, k);
        if exists|i: int| #[trigger] is_pad_piece(b, i, x) {
            let i = choose|i: int| #[trigger] is_pad_piece(b, i, x);
            pad_laws::listed_pad_is_proper(b, i);
        }
    }
}

/// Both pieces are of the net, and they touch.
pub open spec fn bonded(p: Seq<Piece>, net: Seq<char>, i: int, j: int) -> bool {
    &&& 0 <= i < p.len() && 0 <= j < p.len() && i != j
    &&& p[i].net == net && p[j].net == net
    &&& touch(p[i], p[j])
}

/// Piece `i` is a pad of the net that some other piece of it touches.
pub open spec fn is_bonded_pad(p: Seq<Piece>, net: Seq<char>, i: int) -> bool {
    &&& 0 <= i < p.len()
    &&& p[i].net == net
    &&& p[i].shape is Pad
    &&& exists|j: int| #[trigger] bonded(p, net, i, j)
}

/// A step of a path, from one piece to another that it touches.
pub open spec fn is_hop(p: Seq<Piece>, net: Seq<char>, path: Seq<int>, k: int) -> bool {
    bonded(p, net, path[k], path[k + 1])
}

/// The pieces form a path of touching copper of the net.
pub open spec fn is_way(p: Seq<Piece>, net: Seq<char>, path: Seq<int>) -> bool {
    &&& path.len() > 0
    &&& forall|k: int| 0 <= k < path.len() - 1 ==> #[trigger] is_hop(p, net, path, k)
}

/// A path of touching copper leads from `a` to `b`.
pub open spec fn reachable(p: Seq<Piece>, net: Seq<char>, a: int, b: int) -> bool {
    exists|path: Seq<int>| #[trigger] is_way(p, net, path) && path[0] == a && path.last() == b
}

/// Two pads of the net touch copper of it, and no path of touching copper
/// leads from one to the other.
pub open spec fn falls_apart(p: Seq<Piece>, net: Seq<char>) -> bool {
    exists|a: int, b: int|
        is_bonded_pad(p, net, a) && is_bonded_pad(p, net, b) && !#[trigger] reachable(p, net, a, b)
}

proof fn meeting_is_symmetric(a: CopperShape, b: CopperShape)
    ensures
        continuity::shapes_meet(a, b) == continuity::shapes_meet(b, a),
{
    let g = drc::contact();
    match (a, b) {
        (
            CopperShape::Trace { a: a0, b: a1, width: w0 },
            CopperShape::Trace { a: b0, b: b1, width: w1 },
        ) => {
            touching::distance_is_symmetric(g, a0, a1, b0, b1);
        },
        (CopperShape::Via { c: c0, diameter: d0 }, CopperShape::Via { c: c1, diameter: d1 }) => {
            let (x, y) = (c1.x.0 - c0.x.0, c1.y.0 - c0.y.0);
            assert(x * x == (-x) * (-x) && y * y == (-y) * (-y)) by (nonlinear_arith);
            assert(0 * 0 == 0int) by (nonlinear_arith);
        },
        _ => {},
    }
}

/// Every piece can be measured.
spec fn all_measurable(p: Seq<Piece>) -> bool {
    forall|k: int| 0 <= k < p.len() ==> is_measurable((#[trigger] p[k]).shape)
}

proof fn links_are_bonds(p: Seq<Piece>, net: Seq<char>, a: int, b: int)
    requires
        all_measurable(p),
    ensures
        islands::linked(continuity::links(p, net), a, b) <==> bonded(p, net, a, b),
        0 <= a < p.len() && 0 <= b < p.len() ==> (continuity::links_to(p, net, a, b)
            || continuity::links_to(p, net, b, a) <==> bonded(p, net, a, b)),
{
    link_is_listed(p, net, a, b);
    link_is_listed(p, net, b, a);
    if 0 <= a < p.len() && 0 <= b < p.len() {
        touching_is_exact(p[a], p[b]);
        touching_is_exact(p[b], p[a]);
        meeting_is_symmetric(p[a].shape, p[b].shape);
    }
}

proof fn link_is_listed(p: Seq<Piece>, net: Seq<char>, a: int, b: int)
    ensures
        continuity::links(p, net).contains((a, b)) <==> 0 <= a < p.len() && 0 <= b < p.len()
            && continuity::links_to(p, net, a, b),
{
    let n = p.len() as int;
    let f = continuity::links_of(p, net);
    list::upto_holds(f, n, (a, b));
    if continuity::links(p, net).contains((a, b)) {
        let i = choose|i: int| 0 <= i < n && #[trigger] f(i).contains((a, b));
        let g = continuity::link_of(p, net, i);
        list::upto_holds(g, n, (a, b));
        let j = choose|j: int| 0 <= j < n && #[trigger] g(j).contains((a, b));
        assert(g(j)[0] == (i, j));
    }
    if 0 <= a < n && 0 <= b < n && continuity::links_to(p, net, a, b) {
        let g = continuity::link_of(p, net, a);
        assert(g(b)[0] == (a, b));
        assert(g(b).contains((a, b)));
        list::upto_holds(g, n, (a, b));
        assert(f(a).contains((a, b)));
    }
}

proof fn islands_are_reachable(p: Seq<Piece>, net: Seq<char>, a: int, b: int)
    requires
        all_measurable(p),
    ensures
        continuity::on_one_island(p, net, a, b) <==> reachable(p, net, a, b),
{
    let links = continuity::links(p, net);
    islands::joined_means_reachable(links, a, b);
    assert forall|path: Seq<int>| #[trigger] islands::is_path(links, path) implies is_way(
        p,
        net,
        path,
    ) by {
        assert forall|k: int| 0 <= k < path.len() - 1 implies #[trigger] is_hop(p, net, path, k) by {
            assert(islands::is_step(links, path, k));
            links_are_bonds(p, net, path[k], path[k + 1]);
        }
    }
    assert forall|path: Seq<int>| #[trigger] is_way(p, net, path) implies islands::is_path(
        links,
        path,
    ) by {
        assert forall|k: int| 0 <= k < path.len() - 1 implies #[trigger] islands::is_step(
            links,
            path,
            k,
        ) by {
            assert(is_hop(p, net, path, k));
            links_are_bonds(p, net, path[k], path[k + 1]);
        }
    }
    if reachable(p, net, a, b) {
        let path = choose|path: Seq<int>| #[trigger]
            is_way(p, net, path) && path[0] == a && path.last() == b;
        assert(islands::is_path(links, path));
    }
    if continuity::on_one_island(p, net, a, b) {
        let path = choose|path: Seq<int>| #[trigger]
            islands::is_path(links, path) && path[0] == a && path.last() == b;
        assert(is_way(p, net, path));
    }
}

proof fn live_is_bonded(p: Seq<Piece>, net: Seq<char>, i: int)
    requires
        all_measurable(p),
        0 <= i < p.len(),
    ensures
        continuity::live(p, net, i) <==> is_bonded_pad(p, net, i),
{
    if continuity::touched(p, net, i) {
        let j = choose|j: int|
            0 <= j < p.len() && (#[trigger] continuity::links_to(p, net, i, j)
                || continuity::links_to(p, net, j, i));
        links_are_bonds(p, net, i, j);
        assert(bonded(p, net, i, j));
    }
    if is_bonded_pad(p, net, i) {
        let j = choose|j: int| #[trigger] bonded(p, net, i, j);
        links_are_bonds(p, net, i, j);
        assert(continuity::links_to(p, net, i, j) || continuity::links_to(p, net, j, i));
    }
}

proof fn splitting_is_falling_apart(p: Seq<Piece>, net: Seq<char>)
    requires
        all_measurable(p),
    ensures
        continuity::split(p, net).len() > 0 <==> falls_apart(p, net),
{
    continuity::split_means_unreachable(p, net);
    if continuity::split(p, net).len() > 0 {
        let (a, b) = choose|a: int, b: int|
            0 <= a < p.len() && 0 <= b < p.len() && continuity::live(p, net, a)
                && continuity::live(p, net, b) && !#[trigger] continuity::on_one_island(
                p,
                net,
                a,
                b,
            );
        live_is_bonded(p, net, a);
        live_is_bonded(p, net, b);
        islands_are_reachable(p, net, a, b);
        assert(!reachable(p, net, a, b));
    }
    if falls_apart(p, net) {
        let (a, b) = choose|a: int, b: int|
            is_bonded_pad(p, net, a) && is_bonded_pad(p, net, b) && !#[trigger] reachable(
                p,
                net,
                a,
                b,
            );
        live_is_bonded(p, net, a);
        live_is_bonded(p, net, b);
        islands_are_reachable(p, net, a, b);
        assert(!continuity::on_one_island(p, net, a, b));
    }
}

/// No piece before `i` is of its net.
pub open spec fn is_first_of_net(p: Seq<Piece>, i: int) -> bool {
    forall|k: int| 0 <= k < i ==> (#[trigger] p[k]).net != p[i].net
}

proof fn splits_hold_their_kind(b: Board, x: Finding)
    requires
        x.kind == ViolationKind::NetSplit,
    ensures
        continuity::continuity(b).contains(x) <==> list::upto(
            continuity::splits(continuity::copper(b)),
            continuity::copper(b).len() as int,
        ).contains(x),
{
    let p = continuity::copper(b);
    let n = p.len() as int;
    let (s, t) = (
        list::upto(continuity::splits(p), n),
        list::upto(continuity::shorts(p), n),
    );
    drc_laws::joined_holds(s, t, x);
    if t.contains(x) {
        list::upto_holds(continuity::shorts(p), n, x);
        let i = choose|i: int| 0 <= i < n && #[trigger] continuity::shorts(p)(i).contains(x);
        list::upto_holds(continuity::shorts_from(p, i), n, x);
    }
}

proof fn shorts_hold_their_kind(b: Board, x: Finding)
    requires
        x.kind == ViolationKind::NetShort,
    ensures
        continuity::continuity(b).contains(x) <==> list::upto(
            continuity::shorts(continuity::copper(b)),
            continuity::copper(b).len() as int,
        ).contains(x),
{
    let p = continuity::copper(b);
    let n = p.len() as int;
    let (s, t) = (
        list::upto(continuity::splits(p), n),
        list::upto(continuity::shorts(p), n),
    );
    drc_laws::joined_holds(s, t, x);
    if s.contains(x) {
        list::upto_holds(continuity::splits(p), n, x);
    }
}

proof fn kinds_are_counted_apart(b: Board)
    ensures
        ({
            let p = continuity::copper(b);
            let n = p.len() as int;
            &&& drc_laws::tally_of(continuity::continuity(b), ViolationKind::NetSplit)
                == drc_laws::tally_of(
                list::upto(continuity::splits(p), n),
                ViolationKind::NetSplit,
            )
            &&& drc_laws::tally_of(continuity::continuity(b), ViolationKind::NetShort)
                == drc_laws::tally_of(
                list::upto(continuity::shorts(p), n),
                ViolationKind::NetShort,
            )
        }),
{
    let p = continuity::copper(b);
    let n = p.len() as int;
    let (s, t) = (
        list::upto(continuity::splits(p), n),
        list::upto(continuity::shorts(p), n),
    );
    drc_laws::tally_joined(s, t, ViolationKind::NetSplit);
    drc_laws::tally_joined(s, t, ViolationKind::NetShort);
    assert forall|x: Finding| #[trigger] s.contains(x) implies x.kind != ViolationKind::NetShort by {
        list::upto_holds(continuity::splits(p), n, x);
    }
    assert forall|x: Finding| #[trigger] t.contains(x) implies x.kind != ViolationKind::NetSplit by {
        list::upto_holds(continuity::shorts(p), n, x);
        let i = choose|i: int| 0 <= i < n && #[trigger] continuity::shorts(p)(i).contains(x);
        list::upto_holds(continuity::shorts_from(p, i), n, x);
    }
    drc_laws::tally_none(s, ViolationKind::NetShort);
    drc_laws::tally_none(t, ViolationKind::NetSplit);
}

/// The check raises one error for each net that falls apart, at its first
/// piece, and no other; it names the pads of the net in order.
pub proof fn nets_that_fall_apart_are_flagged(b: Board, opts: DrcOptions)
    requires
        pad_laws::proper(b),
    ensures
        ({
            let p = continuity::copper(b);
            finding_laws::exactly(
                drc::findings_of(b, opts),
                ViolationKind::NetSplit,
                Severity::Error,
                p.len() as int,
                |i: int| is_first_of_net(p, i) && falls_apart(p, p[i].net),
                |i: int|
                    csv::sorted(continuity::labels(p, continuity::net_pads(p, p[i].net))),
            )
        }),
{
    let p = continuity::copper(b);
    let n = p.len() as int;
    let q = |i: int| is_first_of_net(p, i) && falls_apart(p, p[i].net);
    let who = |i: int| csv::sorted(continuity::labels(p, continuity::net_pads(p, p[i].net)));
    let g = continuity::splits(p);
    let kind = ViolationKind::NetSplit;
    pieces_are_measurable(b);
    drc_laws::findings_hold_parts(b, opts, kind);
    kinds_are_counted_apart(b);
    assert forall|i: int| 0 <= i < n implies finding_laws::gives(
        #[trigger] g(i),
        kind,
        Severity::Error,
        q(i),
        who(i),
    ) by {
        splitting_is_falling_apart(p, p[i].net);
        assert(is_first_of_net(p, i) == continuity::leads_net(p, i));
    }
    let f = drc::findings_of(b, opts);
    assert forall|x: Finding| x.kind == kind implies (#[trigger] f.contains(x) <==> list::upto(
        g,
        n,
    ).contains(x)) by {
        splits_hold_their_kind(b, x);
    }
    finding_laws::single_findings(f, kind, Severity::Error, n, q, who, g);
}

/// Two pieces, neither a pour, are of those two nets and touch.
pub open spec fn short_circuit(p: Seq<Piece>, x: Seq<char>, y: Seq<char>, i: int, j: int) -> bool {
    &&& 0 <= i < p.len() && 0 <= j < p.len()
    &&& p[i].net == x && p[j].net == y
    &&& !(p[i].shape is Pour) && !(p[j].shape is Pour)
    &&& touch(p[i], p[j])
}

/// The check raises an error for two nets, named in order, exactly if copper
/// of the one touches copper of the other, pours aside.
pub proof fn nets_that_touch_are_flagged(b: Board, opts: DrcOptions, x: Seq<char>, y: Seq<char>)
    requires
        pad_laws::proper(b),
    ensures
        drc_laws::flagged(
            drc::findings_of(b, opts),
            ViolationKind::NetShort,
            Severity::Error,
            seq![x, y],
        ) <==> x != y && text::lex_le(x, y) && exists|i: int, j: int| #[trigger]
            short_circuit(continuity::copper(b), x, y, i, j),
{
    let p = continuity::copper(b);
    let n = p.len() as int;
    let kind = ViolationKind::NetShort;
    pieces_are_measurable(b);
    continuity::short_means_touching(p, (x, y));
    if drc_laws::flagged(drc::findings_of(b, opts), kind, Severity::Error, seq![x, y]) {
        let z = drc_laws::flagged_is_found(b, opts, kind, Severity::Error, seq![x, y]);
        shorts_hold_their_kind(b, z);
        list::upto_holds(continuity::shorts(p), n, z);
        let i = choose|i: int| 0 <= i < n && #[trigger] continuity::shorts(p)(i).contains(z);
        list::upto_holds(continuity::shorts_from(p, i), n, z);
        let j = choose|j: int|
            0 <= j < n && #[trigger] continuity::shorts_from(p, i)(j).contains(z);
        assert(z.involved[0] == x && z.involved[1] == y);
        touching_is_exact(p[i], p[j]);
        touching_is_exact(p[j], p[i]);
        meeting_is_symmetric(p[i].shape, p[j].shape);
        text::lex_total(p[i].net, p[j].net);
        if p[i].net == x {
            assert(short_circuit(p, x, y, i, j));
        } else {
            assert(short_circuit(p, x, y, j, i));
        }
    }
    if x != y && text::lex_le(x, y) && exists|i: int, j: int| #[trigger]
        short_circuit(p, x, y, i, j) {
        let (i, j) = choose|i: int, j: int| #[trigger] short_circuit(p, x, y, i, j);
        touching_is_exact(p[i], p[j]);
        touching_is_exact(p[j], p[i]);
        meeting_is_symmetric(p[i].shape, p[j].shape);
        text::lex_total(x, y);
        let (u, v) = if i < j {
            (i, j)
        } else {
            (j, i)
        };
        assert(continuity::shorting(p, u, v));
        assert(continuity::net_pair(p, u, v) == (x, y));
        let (k, l) = choose|k: int, l: int|
            0 <= k < n && 0 <= l < n && continuity::net_pair(p, k, l) == (x, y)
                && #[trigger] continuity::short(p, k, l).len() > 0;
        let z = continuity::short(p, k, l)[0];
        assert(continuity::shorts_from(p, k)(l).contains(z));
        list::upto_holds(continuity::shorts_from(p, k), n, z);
        assert(continuity::shorts(p)(k).contains(z));
        list::upto_holds(continuity::shorts(p), n, z);
        shorts_hold_their_kind(b, z);
        drc_laws::found_is_flagged(b, opts, z);
    }
}

} // verus!
