//! Which pads a plan stitches, and where.

use vstd::prelude::*;

use crate::board;
use crate::board::{Board, CopperLayer, Footprint, Pad, Pour, ThermalRelief};
use crate::copper_laws;
use crate::drc_laws;
use crate::geometry::Point;
use crate::gerber;
use crate::list;
use crate::pad_laws;
use crate::rotation;
use crate::rotation::{COORD_MAX, UNIT};
use crate::spoke_laws;
use crate::stitch;
use crate::stitch::{StitchParams, Verdict};
use crate::stitch_laws;
use crate::thermal;
use crate::units;

verus! {

/// No foreign copper on the layer is within `r` of `p`; vias are on every
/// layer.
pub open spec fn has_room(
    b: Board,
    p: Point,
    layer: CopperLayer,
    net: Seq<char>,
    r: int,
) -> bool {
    &&& forall|i: int, j: int|
        0 <= i < b.footprints@.len() && 0 <= j < b.footprints@[i].pads@.len()
            && drc_laws::pad_is_on(b.footprints@[i].pads@[j], layer) && drc_laws::name_of(
            b.footprints@[i].pads@[j].net,
        ) != Some(net) ==> !#[trigger] stitch_laws::pad_within(
            b.footprints@[i],
            b.footprints@[i].pads@[j],
            p,
            r,
        )
    &&& forall|k: int|
        0 <= k < b.traces@.len() && b.traces@[k].layer == layer && b.traces@[k].net@ != net
            && !b.orphan_trace(b.traces@[k].id) ==> !#[trigger] stitch_laws::trace_within(
            b.traces@[k],
            p,
            r,
        )
    &&& forall|k: int|
        0 <= k < b.vias@.len() && stitch_laws::foreign_via(b, b.vias@[k], net)
            ==> !#[trigger] stitch_laws::via_within(b.vias@[k], p, r)
}

proof fn roomy_is_room(b: Board, p: Point, layer: CopperLayer, net: Seq<char>, r: int)
    requires
        pad_laws::solid(b),
        p.within(8 * COORD_MAX),
        0 < r,
    ensures
        stitch::roomy(b, p, layer, net, board::sq(r)) <==> has_room(b, p, layer, net, r),
{
    assert forall|k: int| 0 <= k < b.traces@.len() implies (stitch_laws::trace_within(
        b.traces@[k],
        p,
        r,
    ) <==> stitch::edge_gap2(
        thermal::pt_measure(
            thermal::floor(),
            (#[trigger] b.traces@[k]).start,
            b.traces@[k].end,
            p,
        ),
        b.traces@[k].width.0 as int,
    ) < r * r) by {
        stitch_laws::trace_room_is_distance(b.traces@[k], p, r);
    }
    assert forall|k: int| 0 <= k < b.vias@.len() implies (stitch_laws::via_within(
        b.vias@[k],
        p,
        r,
    ) <==> stitch::edge_gap2(
        thermal::pt_measure(
            thermal::floor(),
            (#[trigger] b.vias@[k]).position,
            b.vias@[k].position,
            p,
        ),
        b.vias@[k].diameter.0 as int,
    ) < r * r) by {
        stitch_laws::via_room_is_distance(b.vias@[k], p, r);
    }
    if stitch::roomy(b, p, layer, net, board::sq(r)) {
        assert forall|i: int, j: int|
            0 <= i < b.footprints@.len() && 0 <= j < b.footprints@[i].pads@.len()
                && drc_laws::pad_is_on(b.footprints@[i].pads@[j], layer) && drc_laws::name_of(
                b.footprints@[i].pads@[j].net,
            ) != Some(net) implies !#[trigger] stitch_laws::pad_within(
            b.footprints@[i],
            b.footprints@[i].pads@[j],
            p,
            r,
        ) by {
            let fp = b.footprints@[i];
            stitch_laws::pad_room_is_distance(b, i, j, p, r);
            assert(!stitch::fp_crowds(fp, p, layer, net, board::sq(r)));
            assert(!stitch::pad_crowds(fp, fp.pads@[j], p, layer, net, board::sq(r)));
        }
        assert forall|k: int|
            0 <= k < b.traces@.len() && b.traces@[k].layer == layer && b.traces@[k].net@ != net
                && !b.orphan_trace(
                b.traces@[k].id,
            ) implies !#[trigger] stitch_laws::trace_within(b.traces@[k], p, r) by {
            assert(!stitch::trace_crowds(b, b.traces@[k], p, layer, net, board::sq(r)));
        }
        assert forall|k: int|
            0 <= k < b.vias@.len() && stitch_laws::foreign_via(
                b,
                b.vias@[k],
                net,
            ) implies !#[trigger] stitch_laws::via_within(b.vias@[k], p, r) by {
            assert(!stitch::via_crowds(b, b.vias@[k], p, net, board::sq(r)));
        }
    }
    if has_room(b, p, layer, net, r) {
        assert forall|i: int| 0 <= i < b.footprints@.len() implies !#[trigger] stitch::fp_crowds(
            b.footprints@[i],
            p,
            layer,
            net,
            board::sq(r),
        ) by {
            let fp = b.footprints@[i];
            assert forall|j: int| 0 <= j < fp.pads@.len() implies !#[trigger] stitch::pad_crowds(
                fp,
                fp.pads@[j],
                p,
                layer,
                net,
                board::sq(r),
            ) by {
                stitch_laws::pad_room_is_distance(b, i, j, p, r);
                if stitch::pad_crowds(fp, fp.pads@[j], p, layer, net, board::sq(r)) {
                    assert(stitch_laws::pad_within(
                        b.footprints@[i],
                        b.footprints@[i].pads@[j],
                        p,
                        r,
                    ));
                }
            }
        }
        assert forall|k: int| 0 <= k < b.traces@.len() implies !#[trigger] stitch::trace_crowds(
            b,
            b.traces@[k],
            p,
            layer,
            net,
            board::sq(r),
        ) by {
            if stitch::trace_crowds(b, b.traces@[k], p, layer, net, board::sq(r)) {
                assert(stitch_laws::trace_within(b.traces@[k], p, r));
            }
        }
        assert forall|k: int| 0 <= k < b.vias@.len() implies !#[trigger] stitch::via_crowds(
            b,
            b.vias@[k],
            p,
            net,
            board::sq(r),
        ) by {
            if stitch::via_crowds(b, b.vias@[k], p, net, board::sq(r)) {
                assert(stitch_laws::via_within(b.vias@[k], p, r));
            }
        }
    }
}

/// Pour `k` is of the net, and a via at `p` has the clearance on its layer.
pub open spec fn meets_pour(b: Board, p: Point, net: Seq<char>, clearance: int, k: int) -> bool {
    &&& 0 <= k < b.pours@.len()
    &&& b.pours@[k].net@ == net
    &&& has_room(b, p, b.pours@[k].layer, net, clearance)
}

/// The point is inside the outline by more than 0.3 mm, and a via there
/// meets a pour of the net.
pub open spec fn is_tied(b: Board, p: Point, net: Seq<char>, clearance: int) -> bool {
    &&& b.outline matches Some(o) && {
        &&& o.min.x.0 + 300_000 < p.x.0 < o.max.x.0 - 300_000
        &&& o.min.y.0 + 300_000 < p.y.0 < o.max.y.0 - 300_000
    }
    &&& exists|k: int| #[trigger] meets_pour(b, p, net, clearance, k)
}

/// A via at `p` stands beside the pad, keeps its distance, is tied to a
/// pour, and a stub from the centre of the pad is free on every layer that
/// carries the net.
pub open spec fn works_beside(
    b: Board,
    params: StitchParams,
    fp: Footprint,
    pad: Pad,
    net: Seq<char>,
    p: Point,
) -> bool {
    let c = fp.center_of(pad);
    let (w, h) = (fp.size_of(pad).0.0 as int, fp.size_of(pad).1.0 as int);
    let half = params.via_diameter.0 / 2;
    let clr = params.clearance.0 as int;
    &&& p.x.0 < c.x.0 - w / 2 - half || p.x.0 > c.x.0 + w / 2 + half || p.y.0 < c.y.0 - h / 2 - half
        || p.y.0 > c.y.0 + h / 2 + half
    &&& stitch_laws::keeps_distance(b, p, net, half + clr)
    &&& is_tied(b, p, net, clr)
    &&& forall|k: int|
        0 <= k < b.pours@.len() && (#[trigger] b.pours@[k]).net@ == net ==> spoke_laws::is_free(
            b,
            b.pours@[k].layer,
            net,
            c,
            p,
            params.stub_width.0 / 2 + clr,
        )
}

/// A via at the centre of the pad keeps its distance and is tied to a pour.
pub open spec fn works_inside(
    b: Board,
    params: StitchParams,
    fp: Footprint,
    pad: Pad,
    net: Seq<char>,
) -> bool {
    let c = fp.center_of(pad);
    let half = params.via_diameter.0 / 2;
    let clr = params.clearance.0 as int;
    stitch_laws::keeps_distance(b, c, net, half + clr) && is_tied(b, c, net, clr)
}

proof fn tying_is_exact(b: Board, p: Point, net: Seq<char>, clearance: int)
    requires
        pad_laws::solid(b),
        p.within(8 * COORD_MAX),
        0 < clearance,
    ensures
        stitch::ties(b, p, net, clearance) <==> is_tied(b, p, net, clearance),
{
    assert forall|k: int| 0 <= k < b.pours@.len() implies (stitch::roomy(
        b,
        p,
        (#[trigger] b.pours@[k]).layer,
        net,
        board::sq(clearance),
    ) <==> has_room(b, p, b.pours@[k].layer, net, clearance)) by {
        roomy_is_room(b, p, b.pours@[k].layer, net, clearance);
    }
    if stitch::ties(b, p, net, clearance) {
        let k = choose|k: int|
            0 <= k < b.pours@.len() && (#[trigger] b.pours@[k]).net@ == net && stitch::roomy(
                b,
                p,
                b.pours@[k].layer,
                net,
                board::sq(clearance),
            );
        assert(meets_pour(b, p, net, clearance, k));
    }
    if is_tied(b, p, net, clearance) {
        let k = choose|k: int| #[trigger] meets_pour(b, p, net, clearance, k);
        assert(b.pours@[k].net@ == net);
    }
}

/// The pad of a footprint can be planned for: the board and the dimensions
/// are in range, and both the clearance and the pad are real.
pub open spec fn can_plan(b: Board, params: StitchParams, fp: Footprint, pad: Pad) -> bool {
    &&& pad_laws::solid(b)
    &&& params.in_range()
    &&& 0 < params.clearance.0
    &&& fp.in_range()
    &&& pad.in_range()
    &&& pad_laws::is_sized(pad)
}

proof fn standing_beside_is_exact(
    b: Board,
    params: StitchParams,
    fp: Footprint,
    pad: Pad,
    net: Seq<char>,
    p: Point,
)
    requires
        can_plan(b, params, fp, pad),
        p.within(8 * COORD_MAX),
    ensures
        stitch::beside(
            b,
            fp.center_of(pad),
            fp.size_of(pad).0,
            fp.size_of(pad).1,
            net,
            params,
            p,
        ) <==> works_beside(b, params, fp, pad, net, p),
{
    let c = fp.center_of(pad);
    let clr = params.clearance.0 as int;
    let r = params.stub_width.0 / 2 + clr;
    pad_laws::pad_copper_is_centered(fp, pad);
    stitch_laws::room_is_distance(b, p, net, params.radius(), clr);
    tying_is_exact(b, p, net, clr);
    assert forall|k: int| 0 <= k < b.pours@.len() implies (stitch::stub_guard(
        b,
        (#[trigger] b.pours@[k]).layer,
        net,
        r,
    ).clears(b, c, p) <==> spoke_laws::is_free(b, b.pours@[k].layer, net, c, p, r)) by {
        spoke_laws::clear_segments_are_free(
            stitch::stub_guard(b, b.pours@[k].layer, net, r),
            b,
            b.pours@[k].layer,
            net,
            r,
            c,
            p,
        );
    }
}

/// Candidate `n` is no farther from the centre than its ring, either way:
/// 0.1 mm for the first 24, 0.1 mm more for each further 24. The candidates
/// of a ring start in the east and go round to the north, the west and the
/// south.
pub proof fn candidates_are_on_their_ring(c: Point, n: int)
    requires
        0 <= n < 720,
        c.within(4 * COORD_MAX),
    ensures
        ({
            let p = stitch::candidate(c, n);
            let ring = 100_000 * (n / 24 + 1);
            &&& -ring <= p.x.0 - c.x.0 <= ring
            &&& -ring <= p.y.0 - c.y.0 <= ring
            &&& p.within(8 * COORD_MAX)
            &&& n % 24 == 0 ==> p.x.0 == c.x.0 + ring && p.y.0 == c.y.0
            &&& n % 24 == 6 ==> p.x.0 == c.x.0 && p.y.0 == c.y.0 + ring
            &&& n % 24 == 12 ==> p.x.0 == c.x.0 - ring && p.y.0 == c.y.0
            &&& n % 24 == 18 ==> p.x.0 == c.x.0 && p.y.0 == c.y.0 - ring
        }),
{
    let ring = 100_000 * (n / 24 + 1);
    let deg = 15 * (n % 24);
    let (u, v) = (rotation::cos_deg(deg), rotation::sin_deg(deg));
    rotation::sine_bound(deg);
    share_is_bounded(ring, u);
    share_is_bounded(ring, v);
    assert(ring == (1 + n / stitch::DIRECTIONS as int) * stitch::RING_STEP);
    if n % 24 == 0 || n % 24 == 6 || n % 24 == 12 || n % 24 == 18 {
        reveal(rotation::sin_quarter);
    }
}

proof fn share_is_bounded(ring: int, u: int)
    requires
        0 <= ring,
        -UNIT <= u <= UNIT,
    ensures
        -ring <= units::quot(ring * u, UNIT as int) <= ring,
        u == 0 ==> units::quot(ring * u, UNIT as int) == 0,
        u == UNIT ==> units::quot(ring * u, UNIT as int) == ring,
        u == -UNIT ==> units::quot(ring * u, UNIT as int) == -ring,
{
    let k = UNIT as int;
    let m = ring * u;
    assert(-(ring * k) <= m <= ring * k) by (nonlinear_arith)
        requires
            0 <= ring,
            -k <= u <= k,
            m == ring * u,
    ;
    assert(ring * k / k == ring) by (nonlinear_arith)
        requires
            k > 0,
    ;
    let a = if m < 0 {
        -m
    } else {
        m
    };
    assert(0 <= a / k <= ring) by (nonlinear_arith)
        requires
            k > 0,
            0 <= a <= ring * k,
    ;
    assert(u == 0 ==> m == 0) by (nonlinear_arith)
        requires
            m == ring * u,
    ;
    assert(u == -k ==> m == -(ring * k)) by (nonlinear_arith)
        requires
            m == ring * u,
    ;
}

/// Candidate `n` for the via of the pad.
pub open spec fn spot(fp: Footprint, pad: Pad, n: int) -> Point {
    stitch::candidate(fp.center_of(pad), n)
}

/// Every candidate is near enough to be measured.
spec fn spots_in_range(fp: Footprint, pad: Pad) -> bool {
    forall|n: int| 0 <= n < 720 ==> (#[trigger] spot(fp, pad, n)).within(8 * COORD_MAX)
}

proof fn first_spot_is_first(
    b: Board,
    params: StitchParams,
    fp: Footprint,
    pad: Pad,
    net: Seq<char>,
    n: int,
) -> (k: int)
    requires
        can_plan(b, params, fp, pad),
        spots_in_range(fp, pad),
        0 <= n <= 720,
        forall|m: int| 0 <= m < n ==> !works_beside(b, params, fp, pad, net, #[trigger] spot(fp, pad, m)),
    ensures
        n <= k <= 720,
        forall|m: int| 0 <= m < k ==> !works_beside(b, params, fp, pad, net, #[trigger] spot(fp, pad, m)),
        k < 720 ==> works_beside(b, params, fp, pad, net, spot(fp, pad, k)),
        stitch::first_beside(
            b,
            fp.center_of(pad),
            fp.size_of(pad).0,
            fp.size_of(pad).1,
            net,
            params,
            n,
        ) == if k < 720 {
            Some(spot(fp, pad, k))
        } else {
            None
        },
    decreases 720 - n,
{
    if n >= 720 {
        n
    } else {
        standing_beside_is_exact(b, params, fp, pad, net, spot(fp, pad, n));
        if works_beside(b, params, fp, pad, net, spot(fp, pad, n)) {
            n
        } else {
            first_spot_is_first(b, params, fp, pad, net, n + 1)
        }
    }
}

/// A pad that calls for a stitch gets it at the first of the 720 candidates
/// around it that works; where none does, at its centre, if that works; and
/// is reported as unreachable only where nothing works.
pub proof fn stitches_go_to_the_first_spot(
    b: Board,
    params: StitchParams,
    fp: Footprint,
    pad: Pad,
) -> (k: int)
    requires
        can_plan(b, params, fp, pad),
        pad.net is Some,
    ensures
        ({
            let net = pad.net->0@;
            let v = stitch::verdict(b, params, fp, pad);
            let alone = stitch::isolated(b, fp, pad, net, stitch::probe_reach(b));
            &&& 0 <= k <= 720
            &&& forall|m: int|
                0 <= m < k ==> !works_beside(b, params, fp, pad, net, #[trigger] spot(fp, pad, m))
            &&& k < 720 ==> works_beside(b, params, fp, pad, net, spot(fp, pad, k))
            &&& !alone <==> v is Fine
            &&& alone && k < 720 ==> v == (Verdict::Stitch {
                pad_ref: fp.reference@ + "."@ + pad.number@,
                net,
                at: spot(fp, pad, k),
                in_pad: false,
                layer: pad.layer,
                from: fp.center_of(pad),
            })
            &&& alone && k == 720 && works_inside(b, params, fp, pad, net) ==> v == (
            Verdict::Stitch {
                pad_ref: fp.reference@ + "."@ + pad.number@,
                net,
                at: fp.center_of(pad),
                in_pad: true,
                layer: pad.layer,
                from: fp.center_of(pad),
            })
            &&& alone && k == 720 && !works_inside(b, params, fp, pad, net) ==> v == (
            Verdict::Stuck { pad_ref: fp.reference@ + "."@ + pad.number@ })
        }),
{
    let net = pad.net->0@;
    let c = fp.center_of(pad);
    pad_laws::pad_copper_is_centered(fp, pad);
    assert forall|n: int| 0 <= n < 720 implies (#[trigger] spot(fp, pad, n)).within(
        8 * COORD_MAX,
    ) by {
        candidates_are_on_their_ring(c, n);
    }
    let k = first_spot_is_first(b, params, fp, pad, net, 0);
    stitch_laws::room_is_distance(b, c, net, params.radius(), params.clearance.0 as int);
    tying_is_exact(b, c, net, params.clearance.0 as int);
    k
}

/// The point is on the pad.
pub open spec fn is_on_pad(fp: Footprint, pad: Pad, p: Point) -> bool {
    let r = fp.rect_of(pad);
    r.min.x.0 <= p.x.0 <= r.max.x.0 && r.min.y.0 <= p.y.0 <= r.max.y.0
}

/// An end of a trace, or a via, of the net is on the pad.
pub open spec fn is_routed(b: Board, fp: Footprint, pad: Pad, net: Seq<char>) -> bool {
    ||| exists|k: int|
        0 <= k < b.traces@.len() && (#[trigger] b.traces@[k]).net@ == net && (is_on_pad(
            fp,
            pad,
            b.traces@[k].start,
        ) || is_on_pad(fp, pad, b.traces@[k].end))
    ||| exists|k: int|
        0 <= k < b.vias@.len() && (#[trigger] b.vias@[k]).net@ == net && is_on_pad(
            fp,
            pad,
            b.vias@[k].position,
        )
}

/// The pour is of the net and on a layer where the pad has copper.
pub open spec fn reaches_pad(pour: Pour, pad: Pad, net: Seq<char>) -> bool {
    pour.net@ == net && drc_laws::pad_is_on(pad, pour.layer)
}

/// The pour joins the pad: it is solid, or it has a clear spoke.
pub open spec fn joins_pad(b: Board, fp: Footprint, pad: Pad, net: Seq<char>, pour: Pour) -> bool {
    &&& reaches_pad(pour, pad, net)
    &&& match pour.thermal_relief {
        ThermalRelief::Solid => true,
        ThermalRelief::Spokes4 { spoke_width, gap } => thermal::spokes(
            gerber::pour_guard(b, pour.layer, net, units::quot(spoke_width.0 as int, 2)),
            b,
            fp.center_of(pad),
            units::quot(fp.size_of(pad).0.0 as int, 2),
            units::quot(fp.size_of(pad).1.0 as int, 2),
            stitch::probe_reach(b),
        ).len() > 0,
    }
}

/// A pad calls for a stitch exactly if some pour of its net is on a layer of
/// it, no pour joins it, and no trace or via of the net ends on it.
pub proof fn isolated_pads_call_for_a_stitch(b: Board, fp: Footprint, pad: Pad, net: Seq<char>)
    requires
        fp.in_range(),
        pad.in_range(),
        pad_laws::is_sized(pad),
    ensures
        stitch::isolated(b, fp, pad, net, stitch::probe_reach(b)) <==> {
            &&& exists|k: int| 0 <= k < b.pours@.len() && reaches_pad(#[trigger] b.pours@[k], pad, net)
            &&& forall|k: int|
                0 <= k < b.pours@.len() ==> !joins_pad(b, fp, pad, net, #[trigger] b.pours@[k])
            &&& !is_routed(b, fp, pad, net)
        },
{
    pad_laws::pad_copper_is_centered(fp, pad);
    let c = fp.center_of(pad);
    let (w, h) = fp.size_of(pad);
    assert forall|p: Point| #[trigger] stitch::on_pad(p, c, w, h) == is_on_pad(fp, pad, p) by {}
    assert(stitch::wired(b, c, w, h, net) <==> is_routed(b, fp, pad, net)) by {
        if stitch::wired(b, c, w, h, net) {
            if exists|k: int|
                0 <= k < b.traces@.len() && (#[trigger] b.traces@[k]).net@ == net && (
                stitch::on_pad(b.traces@[k].start, c, w, h) || stitch::on_pad(
                    b.traces@[k].end,
                    c,
                    w,
                    h,
                )) {
                let k = choose|k: int|
                    0 <= k < b.traces@.len() && (#[trigger] b.traces@[k]).net@ == net && (
                    stitch::on_pad(b.traces@[k].start, c, w, h) || stitch::on_pad(
                        b.traces@[k].end,
                        c,
                        w,
                        h,
                    ));
                assert(is_on_pad(fp, pad, b.traces@[k].start) || is_on_pad(
                    fp,
                    pad,
                    b.traces@[k].end,
                ));
            } else {
                let k = choose|k: int|
                    0 <= k < b.vias@.len() && (#[trigger] b.vias@[k]).net@ == net
                        && stitch::on_pad(b.vias@[k].position, c, w, h);
                assert(is_on_pad(fp, pad, b.vias@[k].position));
            }
        }
        if is_routed(b, fp, pad, net) {
            if exists|k: int|
                0 <= k < b.traces@.len() && (#[trigger] b.traces@[k]).net@ == net && (is_on_pad(
                    fp,
                    pad,
                    b.traces@[k].start,
                ) || is_on_pad(fp, pad, b.traces@[k].end)) {
                let k = choose|k: int|
                    0 <= k < b.traces@.len() && (#[trigger] b.traces@[k]).net@ == net && (
                    is_on_pad(fp, pad, b.traces@[k].start) || is_on_pad(
                        fp,
                        pad,
                        b.traces@[k].end,
                    ));
                assert(stitch::on_pad(b.traces@[k].start, c, w, h) || stitch::on_pad(
                    b.traces@[k].end,
                    c,
                    w,
                    h,
                ));
            } else {
                let k = choose|k: int|
                    0 <= k < b.vias@.len() && (#[trigger] b.vias@[k]).net@ == net && is_on_pad(
                        fp,
                        pad,
                        b.vias@[k].position,
                    );
                assert(stitch::on_pad(b.vias@[k].position, c, w, h));
            }
        }
    }
}

/// The plan holds one stitch for each pad that calls for one and can have
/// it, and one name for each pad that calls for one and cannot.
pub proof fn every_pad_is_decided_once(
    b: Board,
    params: StitchParams,
    v: Verdict,
    name: Seq<char>,
)
    ensures
        list::how_often(stitch::stitches(b, params), v) == copper_laws::pads_like(
            b,
            |i: int, j: int|
                stitch::verdict(b, params, b.footprints@[i], b.footprints@[i].pads@[j]) == v && v
                    is Stitch,
        ),
        list::how_often(stitch::stuck(b, params), name) == copper_laws::pads_like(
            b,
            |i: int, j: int|
                stitch::verdict(b, params, b.footprints@[i], b.footprints@[i].pads@[j]) == (
                Verdict::Stuck { pad_ref: name }),
        ),
{
    let f = stitch::stitch_of(b, params);
    let p = |i: int, j: int|
        stitch::verdict(b, params, b.footprints@[i], b.footprints@[i].pads@[j]) == v && v is Stitch;
    let g = stitch::stuck_of(b, params);
    let q = |i: int, j: int|
        stitch::verdict(b, params, b.footprints@[i], b.footprints@[i].pads@[j]) == (
        Verdict::Stuck { pad_ref: name });
    let n = b.footprints@.len() as int;
    assert forall|i: int, j: int|
        0 <= i < n && 0 <= j < b.footprints@[i].pads@.len() implies list::how_often(
        f(b.footprints@[i], #[trigger] b.footprints@[i].pads@[j]),
        v,
    ) == (if p(i, j) {
        1nat
    } else {
        0nat
    }) by {
        copper_laws::once(
            stitch::verdict(b, params, b.footprints@[i], b.footprints@[i].pads@[j]),
            v,
        );
    }
    copper_laws::over_pads_is_counted(b.footprints@, f, p, n, v);
    assert forall|i: int, j: int|
        0 <= i < n && 0 <= j < b.footprints@[i].pads@.len() implies list::how_often(
        g(b.footprints@[i], #[trigger] b.footprints@[i].pads@[j]),
        name,
    ) == (if q(i, j) {
        1nat
    } else {
        0nat
    }) by {
        let d = stitch::verdict(b, params, b.footprints@[i], b.footprints@[i].pads@[j]);
        if let Verdict::Stuck { pad_ref } = d {
            copper_laws::once(pad_ref, name);
        } else {
            copper_laws::once(name, name);
        }
    }
    copper_laws::over_pads_is_counted(b.footprints@, g, q, n, name);
}

} // verus!
