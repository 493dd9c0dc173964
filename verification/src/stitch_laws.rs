//! How far a stitch stays from the copper of other nets.

use vstd::prelude::*;

use crate::arith;
use crate::board;
use crate::board::{Board, CopperLayer, Footprint, Pad, Trace, Via};
use crate::drc_laws;
use crate::geometry::Point;
use crate::nearness;
use crate::pad_laws;
use crate::rotation::COORD_MAX;
use crate::stitch;
use crate::stitch::{StitchParams, StitchPlan};
use crate::thermal;
use crate::units;

verus! {

/// A via passes through the layer: the two outer ones, and what the stackup
/// has between them.
pub open spec fn is_pierced(b: Board, layer: CopperLayer) -> bool {
    match layer {
        CopperLayer::Top => true,
        CopperLayer::Bottom => true,
        CopperLayer::Inner(n) => 1 <= n < b.stackup.layers@.len() - 1,
    }
}

/// The pad has copper on a layer that a via passes through, and is not of
/// the net.
pub open spec fn foreign_pad(b: Board, pad: Pad, net: Seq<char>) -> bool {
    (pad.drill is Some || is_pierced(b, pad.layer)) && drc_laws::name_of(pad.net) != Some(net)
}

/// The trace is on a layer that a via passes through, is live and is not of
/// the net.
pub open spec fn foreign_trace(b: Board, t: Trace, net: Seq<char>) -> bool {
    is_pierced(b, t.layer) && t.net@ != net && !b.orphan_trace(t.id)
}

/// The via is live and is not of the net.
pub open spec fn foreign_via(b: Board, v: Via, net: Seq<char>) -> bool {
    v.net@ != net && !b.orphan_via(v.id)
}

/// The squared distance of two points.
pub open spec fn far2(p: Point, q: Point) -> int {
    (p.x.0 - q.x.0) * (p.x.0 - q.x.0) + (p.y.0 - q.y.0) * (p.y.0 - q.y.0)
}

/// Some point of the pad is nearer to `p` than `r`.
pub open spec fn pad_within(fp: Footprint, pad: Pad, p: Point, r: int) -> bool {
    nearness::closer_rect(p, p, fp.rect_of(pad), 1, r * r)
}

/// Some point of the centre line of the trace is nearer to `p` than `r` and
/// half the width of the trace.
pub open spec fn trace_within(t: Trace, p: Point, r: int) -> bool {
    let l = r + t.width.0 / 2;
    exists|n: int, e: int| #[trigger]
        nearness::is_share(n, e) && nearness::from_point2(t.start, t.end, p, n, e) < (l * l) * (e
            * e)
}

/// The centre of the via is nearer to `p` than `r` and half its diameter.
pub open spec fn via_within(v: Via, p: Point, r: int) -> bool {
    let l = r + v.diameter.0 / 2;
    far2(v.position, p) < l * l
}

/// No foreign copper on any layer is within `r` of `p`.
pub open spec fn keeps_distance(b: Board, p: Point, net: Seq<char>, r: int) -> bool {
    &&& forall|i: int, j: int|
        0 <= i < b.footprints@.len() && 0 <= j < b.footprints@[i].pads@.len() && foreign_pad(
            b,
            b.footprints@[i].pads@[j],
            net,
        ) ==> !#[trigger] pad_within(b.footprints@[i], b.footprints@[i].pads@[j], p, r)
    &&& forall|k: int|
        0 <= k < b.traces@.len() && foreign_trace(b, b.traces@[k], net) ==> !#[trigger] trace_within(
            b.traces@[k],
            p,
            r,
        )
    &&& forall|k: int|
        0 <= k < b.vias@.len() && foreign_via(b, b.vias@[k], net) ==> !#[trigger] via_within(
            b.vias@[k],
            p,
            r,
        )
}

proof fn squares_order(a: int, b: int)
    requires
        0 <= a,
        0 <= b,
    ensures
        a < b <==> a * a < b * b,
{
    if a < b {
        assert(a * a < b * b) by (nonlinear_arith)
            requires
                0 <= a < b,
        ;
    } else {
        assert(b * b <= a * a) by (nonlinear_arith)
            requires
                0 <= b <= a,
        ;
    }
}

/// The gap to the edge is below the limit exactly if the distance is below
/// the limit and half the width.
proof fn gap_is_distance(q: int, width: int, r: int)
    requires
        0 <= q,
        0 <= width,
        0 < r,
    ensures
        stitch::edge_gap2(q, width) < r * r <==> q < (r + width / 2) * (r + width / 2),
{
    arith::root_exists(q as nat);
    let s = arith::root(q as nat) as int;
    let h = width / 2;
    let e = s - h;
    let l = r + h;
    assert(units::quot(width, 2) == h);
    if e < 0 {
        assert(r * r > 0) by (nonlinear_arith)
            requires
                r > 0,
        ;
    } else {
        squares_order(e, r);
    }
    if s < l {
        assert((s + 1) * (s + 1) <= l * l) by (nonlinear_arith)
            requires
                0 <= s,
                s + 1 <= l,
        ;
    } else {
        assert(l * l <= s * s) by (nonlinear_arith)
            requires
                0 <= l <= s,
        ;
    }
}

pub proof fn trace_room_is_distance(t: Trace, p: Point, r: int)
    requires
        0 <= t.width.0,
        0 < r,
    ensures
        stitch::edge_gap2(
            thermal::pt_measure(thermal::floor(), t.start, t.end, p),
            t.width.0 as int,
        ) < r * r <==> trace_within(t, p, r),
{
    let g = thermal::floor();
    let q = thermal::pt_measure(g, t.start, t.end, p);
    let l = r + t.width.0 / 2;
    let (n0, e0) = nearness::measure_bounds_point(g, t.start, t.end, p, 0);
    let u = nearness::from_point2(t.start, t.end, p, n0, e0);
    assert(0 <= q) by {
        if q < 0 {
            let x = t.start.x.0 * e0 + (t.end.x.0 - t.start.x.0) * n0 - p.x.0 * e0;
            let y = t.start.y.0 * e0 + (t.end.y.0 - t.start.y.0) * n0 - p.y.0 * e0;
            assert(x * x + y * y >= 0) by (nonlinear_arith);
            assert(0 * (e0 * e0) == 0) by (nonlinear_arith);
        }
    }
    gap_is_distance(q, t.width.0 as int, r);
    if q < l * l {
        let (n, e) = nearness::measure_bounds_point(g, t.start, t.end, p, l * l);
        assert(nearness::is_share(n, e));
    }
    if trace_within(t, p, r) {
        let (n, e) = choose|n: int, e: int| #[trigger]
            nearness::is_share(n, e) && nearness::from_point2(t.start, t.end, p, n, e) < (l * l) * (
            e * e);
        nearness::point_bounds_measure(g, t.start, t.end, p, n, e, l * l);
    }
}

pub proof fn via_room_is_distance(v: Via, p: Point, r: int)
    requires
        0 <= v.diameter.0,
        0 < r,
    ensures
        stitch::edge_gap2(
            thermal::pt_measure(thermal::floor(), v.position, v.position, p),
            v.diameter.0 as int,
        ) < r * r <==> via_within(v, p, r),
{
    let q = thermal::pt_measure(thermal::floor(), v.position, v.position, p);
    let (x, y) = (p.x.0 - v.position.x.0, p.y.0 - v.position.y.0);
    assert(0 * 0 == 0int) by (nonlinear_arith);
    assert(x * x == (-x) * (-x) && y * y == (-y) * (-y)) by (nonlinear_arith);
    assert(x * x >= 0 && y * y >= 0) by (nonlinear_arith);
    assert(q == far2(v.position, p));
    gap_is_distance(q, v.diameter.0 as int, r);
}

proof fn layers_are_pierced(b: Board, layer: CopperLayer)
    requires
        b.stackup.layers@.len() <= 256,
    ensures
        is_pierced(b, layer) <==> exists|i: int|
            0 <= i < b.stackup.count() && #[trigger] board::layer_of(i, b.stackup.count()) == layer,
{
    let n = b.stackup.count();
    match layer {
        CopperLayer::Top => {
            assert(board::layer_of(0, n) == layer);
        },
        CopperLayer::Bottom => {
            assert(board::layer_of(n - 1, n) == layer);
        },
        CopperLayer::Inner(k) => {
            if is_pierced(b, layer) {
                assert(board::layer_of(k as int, n) == layer);
            }
            if exists|i: int| 0 <= i < n && #[trigger] board::layer_of(i, n) == layer {
                let i = choose|i: int| 0 <= i < n && #[trigger] board::layer_of(i, n) == layer;
                assert(layer == CopperLayer::Inner(i as u8));
            }
        },
    }
}

/// A via with `r` of room around its centre fits exactly if it keeps that
/// distance.
pub proof fn room_is_distance(b: Board, p: Point, net: Seq<char>, radius: int, clearance: int)
    requires
        pad_laws::solid(b),
        p.within(8 * COORD_MAX),
        0 < radius + clearance,
    ensures
        stitch::via_fits(b, p, radius, clearance, net) <==> keeps_distance(
            b,
            p,
            net,
            radius + clearance,
        ),
{
    let r = radius + clearance;
    let n = b.stackup.count();
    if stitch::via_fits(b, p, radius, clearance, net) {
        fitting_keeps_distance(b, p, net, radius, clearance);
    }
    if keeps_distance(b, p, net, r) {
        assert forall|i: int| 0 <= i < n implies stitch::roomy(
            b,
            p,
            #[trigger] board::layer_of(i, n),
            net,
            board::sq(r),
        ) by {
            distance_is_room(b, p, net, r, board::layer_of(i, n));
        }
    }
}

proof fn distance_is_room(b: Board, p: Point, net: Seq<char>, r: int, layer: CopperLayer)
    requires
        pad_laws::solid(b),
        p.within(8 * COORD_MAX),
        0 < r,
        keeps_distance(b, p, net, r),
        exists|i: int|
            0 <= i < b.stackup.count() && #[trigger] board::layer_of(i, b.stackup.count()) == layer,
    ensures
        stitch::roomy(b, p, layer, net, board::sq(r)),
{
    layers_are_pierced(b, layer);
    assert forall|i: int| 0 <= i < b.footprints@.len() implies !#[trigger] stitch::fp_crowds(
        b.footprints@[i],
        p,
        layer,
        net,
        board::sq(r),
    ) by {
        let fp = b.footprints@[i];
        assert forall|j: int| 0 <= j < fp.pads@.len() implies !#[trigger] stitch::pad_crowds(
            fp,
            fp.pads@[j],
            p,
            layer,
            net,
            board::sq(r),
        ) by {
            pad_room_is_distance(b, i, j, p, r);
            if stitch::pad_crowds(fp, fp.pads@[j], p, layer, net, board::sq(r)) {
                assert(foreign_pad(b, fp.pads@[j], net));
                assert(pad_within(fp, fp.pads@[j], p, r));
            }
        }
    }
    assert forall|k: int| 0 <= k < b.traces@.len() implies !#[trigger] stitch::trace_crowds(
        b,
        b.traces@[k],
        p,
        layer,
        net,
        board::sq(r),
    ) by {
        assert(b.traces@[k].in_range());
        trace_room_is_distance(b.traces@[k], p, r);
    }
    assert forall|k: int| 0 <= k < b.vias@.len() implies !#[trigger] stitch::via_crowds(
        b,
        b.vias@[k],
        p,
        net,
        board::sq(r),
    ) by {
        assert(b.vias@[k].in_range());
        via_room_is_distance(b.vias@[k], p, r);
    }
}

pub proof fn pad_room_is_distance(b: Board, i: int, j: int, p: Point, r: int)
    requires
        pad_laws::solid(b),
        0 <= i < b.footprints@.len(),
        0 <= j < b.footprints@[i].pads@.len(),
        p.within(8 * COORD_MAX),
    ensures
        thermal::rect_measure(
            thermal::floor(),
            p,
            p,
            b.footprints@[i].rect_of(b.footprints@[i].pads@[j]),
        ) < r * r <==> pad_within(b.footprints@[i], b.footprints@[i].pads@[j], p, r),
{
    let fp = b.footprints@[i];
    let pad = fp.pads@[j];
    assert(fp.in_range());
    assert(pad.in_range());
    assert(pad_laws::is_sized(pad));
    pad_laws::pad_copper_is_centered(fp, pad);
    nearness::rect_measure_is_distance(thermal::floor(), p, p, fp.rect_of(pad), r * r);
}

proof fn fitting_keeps_distance(b: Board, p: Point, net: Seq<char>, radius: int, clearance: int)
    requires
        pad_laws::solid(b),
        p.within(8 * COORD_MAX),
        0 < radius + clearance,
        stitch::via_fits(b, p, radius, clearance, net),
    ensures
        keeps_distance(b, p, net, radius + clearance),
{
    let r = radius + clearance;
    let n = b.stackup.count();
    assert(stitch::roomy(b, p, board::layer_of(0, n), net, board::sq(r)));
    assert forall|i: int, j: int|
        0 <= i < b.footprints@.len() && 0 <= j < b.footprints@[i].pads@.len() && foreign_pad(
            b,
            b.footprints@[i].pads@[j],
            net,
        ) implies !#[trigger] pad_within(b.footprints@[i], b.footprints@[i].pads@[j], p, r) by {
        let fp = b.footprints@[i];
        let pad = fp.pads@[j];
        layers_are_pierced(b, pad.layer);
        let layer = if pad.drill is Some {
            board::layer_of(0, n)
        } else {
            pad.layer
        };
        assert(stitch::roomy(b, p, layer, net, board::sq(r)));
        assert(!stitch::fp_crowds(fp, p, layer, net, board::sq(r)));
        assert(!stitch::pad_crowds(fp, pad, p, layer, net, board::sq(r)));
        pad_room_is_distance(b, i, j, p, r);
    }
    assert forall|k: int|
        0 <= k < b.traces@.len() && foreign_trace(b, b.traces@[k], net) implies !#[trigger] trace_within(
        b.traces@[k],
        p,
        r,
    ) by {
        let t = b.traces@[k];
        layers_are_pierced(b, t.layer);
        assert(stitch::roomy(b, p, t.layer, net, board::sq(r)));
        assert(!stitch::trace_crowds(b, t, p, t.layer, net, board::sq(r)));
        assert(t.in_range());
        trace_room_is_distance(t, p, r);
    }
    assert forall|k: int|
        0 <= k < b.vias@.len() && foreign_via(b, b.vias@[k], net) implies !#[trigger] via_within(
        b.vias@[k],
        p,
        r,
    ) by {
        let v = b.vias@[k];
        assert(!stitch::via_crowds(b, v, p, net, board::sq(r)));
        assert(v.in_range());
        via_room_is_distance(v, p, r);
    }
}

/// A via fits at a point exactly if no foreign pad, live trace or live via,
/// on any copper layer of the stackup, is nearer to the point than half the
/// diameter of the via and the clearance.
pub proof fn vias_fit_where_they_keep_their_distance(
    b: Board,
    p: Point,
    net: Seq<char>,
    params: StitchParams,
)
    requires
        pad_laws::solid(b),
        params.in_range(),
        p.within(8 * COORD_MAX),
        0 < params.via_diameter.0 / 2 + params.clearance.0,
    ensures
        stitch::via_fits(b, p, params.radius(), params.clearance.0 as int, net) <==> keeps_distance(
            b,
            p,
            net,
            params.via_diameter.0 / 2 + params.clearance.0,
        ),
{
    room_is_distance(b, p, net, params.radius(), params.clearance.0 as int);
}

/// Every via of a plan stays away from every foreign pad, live trace and
/// live via on any copper layer of the stackup, by half its diameter and the
/// clearance, and from the edge of the board by more than 0.3 mm.
pub proof fn planned_vias_keep_their_distance(
    b: Board,
    params: StitchParams,
    plan: StitchPlan,
    k: int,
)
    requires
        pad_laws::solid(b),
        params.in_range(),
        0 < params.via_diameter.0 / 2 + params.clearance.0,
        stitch::all_carried_out(plan.proposals@, stitch::stitches(b, params), params),
        0 <= k < plan.proposals@.len(),
    ensures
        ({
            let v = plan.proposals@[k].via;
            &&& v.diameter == params.via_diameter
            &&& keeps_distance(
                b,
                v.position,
                v.net@,
                params.via_diameter.0 / 2 + params.clearance.0,
            )
            &&& b.outline matches Some(o) && drc_laws::keeps_inside(
                o,
                v.position,
                0,
                300_000,
            )
        }),
{
    stitch::stitches_keep_clear(b, params, plan, k);
    let v = plan.proposals@[k].via;
    let o = b.outline->0;
    assert(stitch::carries_out(plan.proposals@[k], stitch::stitches(b, params)[k], params));
    assert(v.position.within(COORD_MAX as int));
    room_is_distance(b, v.position, v.net@, params.radius(), params.clearance.0 as int);
}

} // verus!
