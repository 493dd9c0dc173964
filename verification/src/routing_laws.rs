//! Which routing dangles, and what goes with a footprint that is removed.

use vstd::prelude::*;

use crate::board;
use crate::board::{Board, CopperLayer, Footprint, Pad, Trace, Via};
use crate::geometry::Point;
use crate::routing;

verus! {

/// The distance of the points is at most half of `reach`.
pub open spec fn within(p: Point, q: Point, reach: int) -> bool {
    4 * ((p.x.0 - q.x.0) * (p.x.0 - q.x.0) + (p.y.0 - q.y.0) * (p.y.0 - q.y.0)) <= reach * reach
}

/// The point is on the pad grown by half of `reach`: between its sides, both
/// ways.
pub open spec fn on_grown_pad(fp: Footprint, pad: Pad, p: Point, reach: int) -> bool {
    let c = fp.center_of(pad);
    let (w, h) = (fp.size_of(pad).0.0, fp.size_of(pad).1.0);
    &&& 2 * c.x.0 - w - reach <= 2 * p.x.0 <= 2 * c.x.0 + w + reach
    &&& 2 * c.y.0 - h - reach <= 2 * p.y.0 <= 2 * c.y.0 + h + reach
}

/// The point is on pad `j` of footprint `i`, which is of the net and has
/// copper on the layer, give or take half of `reach`.
pub open spec fn lands_on(
    b: Board,
    layer: Option<CopperLayer>,
    net: Seq<char>,
    p: Point,
    reach: int,
    i: int,
    j: int,
) -> bool {
    let fp = b.footprints@[i];
    let pad = fp.pads@[j];
    &&& 0 <= i < b.footprints@.len()
    &&& 0 <= j < fp.pads@.len()
    &&& layer matches Some(l) ==> pad.drill is Some || pad.layer == l
    &&& pad.net matches Some(n) && n@ == net
    &&& on_grown_pad(fp, pad, p, reach)
}

/// An end `p` of a trace lands on something of its net: a pad on its layer
/// or a via, within half its width and a micrometre, or an end of another
/// trace of its layer, within the same.
pub open spec fn end_lands(b: Board, t: Trace, p: Point) -> bool {
    let reach = t.width.0 + 2_000;
    ||| exists|i: int, j: int| #[trigger] lands_on(b, Some(t.layer), t.net@, p, reach, i, j)
    ||| exists|k: int|
        0 <= k < b.vias@.len() && (#[trigger] b.vias@[k]).net@ == t.net@ && within(
            p,
            b.vias@[k].position,
            b.vias@[k].diameter.0 + reach,
        )
    ||| exists|k: int|
        0 <= k < b.traces@.len() && (#[trigger] b.traces@[k]).id != t.id && b.traces@[k].net@
            == t.net@ && b.traces@[k].layer == t.layer && (within(p, b.traces@[k].start, reach)
            || within(p, b.traces@[k].end, reach))
}

proof fn pads_catch_what_lands(
    b: Board,
    layer: Option<CopperLayer>,
    net: Seq<char>,
    p: Point,
    reach: int,
)
    ensures
        b.pad_at(layer, net, p, reach) <==> exists|i: int, j: int| #[trigger]
            lands_on(b, layer, net, p, reach, i, j),
{
    if b.pad_at(layer, net, p, reach) {
        let i = choose|i: int|
            0 <= i < b.footprints@.len() && #[trigger] board::fp_catches(
                b.footprints@[i],
                layer,
                net,
                p,
                reach,
            );
        let fp = b.footprints@[i];
        let j = choose|j: int|
            0 <= j < fp.pads@.len() && #[trigger] board::pad_catches(
                fp,
                fp.pads@[j],
                layer,
                net,
                p,
                reach,
            );
        assert(lands_on(b, layer, net, p, reach, i, j));
    }
    if exists|i: int, j: int| #[trigger] lands_on(b, layer, net, p, reach, i, j) {
        let (i, j) = choose|i: int, j: int| #[trigger] lands_on(b, layer, net, p, reach, i, j);
        let fp = b.footprints@[i];
        assert(board::pad_catches(fp, fp.pads@[j], layer, net, p, reach));
        assert(board::fp_catches(fp, layer, net, p, reach));
    }
}

proof fn anchored_is_landing(b: Board, t: Trace, p: Point)
    ensures
        b.anchored(t, p) <==> end_lands(b, t, p),
{
    let reach = t.width.0 + 2_000;
    pads_catch_what_lands(b, Some(t.layer), t.net@, p, reach);
    assert(reach == routing::trace_reach2(t));
    if exists|k: int| 0 <= k < b.vias@.len() && #[trigger] routing::via_catches(b.vias@[k], t, p) {
        let k = choose|k: int|
            0 <= k < b.vias@.len() && #[trigger] routing::via_catches(b.vias@[k], t, p);
        assert(b.vias@[k].net@ == t.net@);
    }
    if exists|k: int|
        0 <= k < b.vias@.len() && (#[trigger] b.vias@[k]).net@ == t.net@ && within(
            p,
            b.vias@[k].position,
            b.vias@[k].diameter.0 + reach,
        ) {
        let k = choose|k: int|
            0 <= k < b.vias@.len() && (#[trigger] b.vias@[k]).net@ == t.net@ && within(
                p,
                b.vias@[k].position,
                b.vias@[k].diameter.0 + reach,
            );
        assert(routing::via_catches(b.vias@[k], t, p));
    }
    if exists|k: int|
        0 <= k < b.traces@.len() && #[trigger] routing::trace_catches(b.traces@[k], t, p) {
        let k = choose|k: int|
            0 <= k < b.traces@.len() && #[trigger] routing::trace_catches(b.traces@[k], t, p);
        assert(b.traces@[k].id != t.id);
    }
    if exists|k: int|
        0 <= k < b.traces@.len() && (#[trigger] b.traces@[k]).id != t.id && b.traces@[k].net@
            == t.net@ && b.traces@[k].layer == t.layer && (within(p, b.traces@[k].start, reach)
            || within(p, b.traces@[k].end, reach)) {
        let k = choose|k: int|
            0 <= k < b.traces@.len() && (#[trigger] b.traces@[k]).id != t.id && b.traces@[k].net@
                == t.net@ && b.traces@[k].layer == t.layer && (within(
                p,
                b.traces@[k].start,
                reach,
            ) || within(p, b.traces@[k].end, reach));
        assert(routing::trace_catches(b.traces@[k], t, p));
    }
}

/// A trace dangles exactly if neither of its ends lands on anything of its
/// net.
pub proof fn traces_dangle_by_both_ends(b: Board, t: Trace)
    ensures
        b.dangling_trace(t) <==> !end_lands(b, t, t.start) && !end_lands(b, t, t.end),
{
    anchored_is_landing(b, t, t.start);
    anchored_is_landing(b, t, t.end);
}

/// Trace `k` is of the net of the via, does not dangle, and ends on the via,
/// within half its diameter and a micrometre.
pub open spec fn ends_on_via(b: Board, v: Via, k: int) -> bool {
    let t = b.traces@[k];
    let reach = v.diameter.0 + 2_000;
    &&& 0 <= k < b.traces@.len()
    &&& t.net@ == v.net@
    &&& !b.orphan_trace(t.id)
    &&& within(v.position, t.start, reach) || within(v.position, t.end, reach)
}

/// A via dangles exactly if no trace that does not dangle ends on it and it
/// sits on no pad of its net, on whatever layer.
pub proof fn vias_dangle_without_traces_and_pads(b: Board, v: Via)
    ensures
        b.dangling_via(v) <==> !(exists|k: int| #[trigger] ends_on_via(b, v, k)) && !(exists|
            i: int,
            j: int,
        | #[trigger]
            lands_on(b, None, v.net@, v.position, v.diameter.0 + 2_000, i, j)),
{
    pads_catch_what_lands(b, None, v.net@, v.position, v.diameter.0 + 2_000);
    assert(v.diameter.0 + 2_000 == routing::via_reach2(v));
    assert forall|k: int| 0 <= k < b.traces@.len() implies (#[trigger] ends_on_via(b, v, k)
        <==> b.feeds(b.traces@[k], v)) by {}
    if b.dangling_via(v) {
        assert forall|k: int| !#[trigger] ends_on_via(b, v, k) by {
            if ends_on_via(b, v, k) {
                assert(b.feeds(b.traces@[k], v));
            }
        }
    }
    if !(exists|k: int| #[trigger] ends_on_via(b, v, k)) {
        assert forall|k: int| 0 <= k < b.traces@.len() implies !b.feeds(#[trigger] b.traces@[k], v) by {
            assert(!ends_on_via(b, v, k));
        }
    }
}

/// Where ids are not shared, an id is an orphan exactly if its trace or via
/// dangles.
pub proof fn orphans_are_what_dangles(b: Board, k: int)
    requires
        forall|i: int, j: int|
            0 <= i < j < b.traces@.len() ==> (#[trigger] b.traces@[i]).id != (
            #[trigger] b.traces@[j]).id,
        forall|i: int, j: int|
            0 <= i < j < b.vias@.len() ==> (#[trigger] b.vias@[i]).id != (#[trigger] b.vias@[j]).id,
    ensures
        0 <= k < b.traces@.len() ==> (b.orphan_trace(b.traces@[k].id) <==> b.dangling_trace(
            b.traces@[k],
        )),
        0 <= k < b.vias@.len() ==> (b.orphan_via(b.vias@[k].id) <==> b.dangling_via(b.vias@[k])),
{
}

/// An end of the trace is on pad `j` of the footprint, within half its width
/// and a micrometre.
pub open spec fn ends_on_pad(fp: Footprint, t: Trace, j: int) -> bool {
    let pad = fp.pads@[j];
    let reach = t.width.0 + 2_000;
    &&& 0 <= j < fp.pads@.len()
    &&& pad.drill is Some || pad.layer == t.layer
    &&& pad.net matches Some(n) && n@ == t.net@
    &&& on_grown_pad(fp, pad, t.start, reach) || on_grown_pad(fp, pad, t.end, reach)
}

/// The via is on pad `j` of the footprint, an outer or a plated one, within
/// half its diameter and a micrometre.
pub open spec fn sits_on_pad(fp: Footprint, v: Via, j: int) -> bool {
    let pad = fp.pads@[j];
    &&& 0 <= j < fp.pads@.len()
    &&& pad.drill is Some || pad.layer == CopperLayer::Top || pad.layer == CopperLayer::Bottom
    &&& pad.net matches Some(n) && n@ == v.net@
    &&& on_grown_pad(fp, pad, v.position, v.diameter.0 + 2_000)
}

/// The traces that go with a footprint are those that end on one of its
/// pads.
pub proof fn traces_go_with_their_pads(fp: Footprint, t: Trace)
    ensures
        routing::touches_trace(fp, t) <==> exists|j: int| #[trigger] ends_on_pad(fp, t, j),
{
    let reach = t.width.0 + 2_000;
    assert(reach == routing::trace_reach2(t));
    if board::fp_catches(fp, Some(t.layer), t.net@, t.start, reach) {
        let j = choose|j: int|
            0 <= j < fp.pads@.len() && #[trigger] board::pad_catches(
                fp,
                fp.pads@[j],
                Some(t.layer),
                t.net@,
                t.start,
                reach,
            );
        assert(ends_on_pad(fp, t, j));
    }
    if board::fp_catches(fp, Some(t.layer), t.net@, t.end, reach) {
        let j = choose|j: int|
            0 <= j < fp.pads@.len() && #[trigger] board::pad_catches(
                fp,
                fp.pads@[j],
                Some(t.layer),
                t.net@,
                t.end,
                reach,
            );
        assert(ends_on_pad(fp, t, j));
    }
    if exists|j: int| #[trigger] ends_on_pad(fp, t, j) {
        let j = choose|j: int| #[trigger] ends_on_pad(fp, t, j);
        if on_grown_pad(fp, fp.pads@[j], t.start, reach) {
            assert(board::pad_catches(
                fp,
                fp.pads@[j],
                Some(t.layer),
                t.net@,
                t.start,
                reach,
            ));
        } else {
            assert(board::pad_catches(fp, fp.pads@[j], Some(t.layer), t.net@, t.end, reach));
        }
    }
}

/// The vias that go with a footprint are those that sit on one of its outer
/// or plated pads.
pub proof fn vias_go_with_their_pads(fp: Footprint, v: Via)
    ensures
        routing::touches_via(fp, v) <==> exists|j: int| #[trigger] sits_on_pad(fp, v, j),
{
    let reach = v.diameter.0 + 2_000;
    let (top, bottom) = (Some(CopperLayer::Top), Some(CopperLayer::Bottom));
    assert(reach == routing::via_reach2(v));
    if board::fp_catches(fp, top, v.net@, v.position, reach) {
        let j = choose|j: int|
            0 <= j < fp.pads@.len() && #[trigger] board::pad_catches(
                fp,
                fp.pads@[j],
                top,
                v.net@,
                v.position,
                reach,
            );
        assert(sits_on_pad(fp, v, j));
    }
    if board::fp_catches(fp, bottom, v.net@, v.position, reach) {
        let j = choose|j: int|
            0 <= j < fp.pads@.len() && #[trigger] board::pad_catches(
                fp,
                fp.pads@[j],
                bottom,
                v.net@,
                v.position,
                reach,
            );
        assert(sits_on_pad(fp, v, j));
    }
    if exists|j: int| #[trigger] sits_on_pad(fp, v, j) {
        let j = choose|j: int| #[trigger] sits_on_pad(fp, v, j);
        let pad = fp.pads@[j];
        if pad.drill is Some || pad.layer == CopperLayer::Top {
            assert(board::pad_catches(fp, pad, top, v.net@, v.position, reach));
        } else {
            assert(board::pad_catches(fp, pad, bottom, v.net@, v.position, reach));
        }
    }
}

} // verus!
