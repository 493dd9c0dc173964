//! Stitching vias for pads that no spoke can join to their plane.

use vstd::prelude::*;

use crate::arith;
use crate::arith::isqrt;
use crate::board;
use crate::board::{Board, CopperLayer, Footprint, Id, Pad, Pour, ThermalRelief, Trace, Via, has_net, layer_at};
use crate::geometry::Point;
use crate::gerber;
use crate::rotation;
use crate::rotation::{COORD_MAX, UNIT, sin_of};
use crate::routing::has_id;
use crate::text;
use crate::text::str_eq;
use crate::thermal;
use crate::thermal::{Gauge, POUR_CLEARANCE, gauge_pt, gauge_rect, select_spokes};
use crate::units;
use crate::units::Length;

verus! {

/// Inset from the outline within which a via may tie to a pour.
pub const EDGE_CLEARANCE: i64 = 300_000;

/// Distance between two search rings, 0.1 mm.
pub const RING_STEP: i64 = 100_000;

/// Number of search rings.
pub const RINGS: i64 = 30;

/// Number of directions on a ring.
pub const DIRECTIONS: i64 = 24;

/// One proposed stitch: a via, and a stub trace from the pad unless the
/// via lands inside it.
#[derive(Debug)]
pub struct StitchProposal {
    pub pad_ref: String,
    pub via: Via,
    pub stub: Option<Trace>,
    pub via_in_pad: bool,
}

/// The stitches to apply, and the pads that no via can connect.
#[derive(Debug)]
pub struct StitchPlan {
    pub proposals: Vec<StitchProposal>,
    pub unreachable: Vec<String>,
}

/// Dimensions of the stitches.
#[derive(Debug, Clone, Copy)]
pub struct StitchParams {
    pub via_diameter: Length,
    pub via_drill: Length,
    pub clearance: Length,
    pub stub_width: Length,
}

impl StitchParams {
    pub open spec fn in_range(self) -> bool {
        &&& 0 <= self.via_diameter.0 <= COORD_MAX
        &&& 0 <= self.clearance.0 <= COORD_MAX
        &&& 0 <= self.stub_width.0 <= COORD_MAX
    }

    pub open spec fn radius(self) -> int {
        units::quot(self.via_diameter.0 as int, 2)
    }
}

impl Default for StitchParams {
    fn default() -> (r: Self)
        ensures
            r.in_range(),
            r == (StitchParams {
                via_diameter: Length(600_000),
                via_drill: Length(300_000),
                clearance: Length(POUR_CLEARANCE),
                stub_width: Length(250_000),
            }),
    {
        StitchParams {
            via_diameter: Length(600_000),
            via_drill: Length(300_000),
            clearance: Length(POUR_CLEARANCE),
            stub_width: Length(250_000),
        }
    }
}

/// The distance of `p` from the centre line, less half the width, squared;
/// zero where that is negative.
pub open spec fn edge_gap2(dist2: int, width: int) -> int {
    let e = arith::root(dist2 as nat) - units::quot(width, 2);
    if e < 0 {
        0
    } else {
        board::sq(e)
    }
}

/// The pad is foreign copper on the layer nearer to `p` than the limit.
pub open spec fn pad_crowds(
    fp: Footprint,
    pad: Pad,
    p: Point,
    layer: CopperLayer,
    net: Seq<char>,
    limit2: int,
) -> bool {
    &&& pad.on_layer(layer)
    &&& !board::net_is(pad.net, net)
    &&& thermal::rect_measure(thermal::floor(), p, p, fp.rect_of(pad)) < limit2
}

pub open spec fn fp_crowds(
    fp: Footprint,
    p: Point,
    layer: CopperLayer,
    net: Seq<char>,
    limit2: int,
) -> bool {
    exists|j: int|
        0 <= j < fp.pads@.len() && #[trigger] pad_crowds(fp, fp.pads@[j], p, layer, net, limit2)
}

pub open spec fn trace_crowds(
    b: Board,
    t: Trace,
    p: Point,
    layer: CopperLayer,
    net: Seq<char>,
    limit2: int,
) -> bool {
    &&& t.layer == layer
    &&& t.net@ != net
    &&& !b.orphan_trace(t.id)
    &&& edge_gap2(thermal::pt_measure(thermal::floor(), t.start, t.end, p), t.width.0 as int) < limit2
}

pub open spec fn via_crowds(b: Board, v: Via, p: Point, net: Seq<char>, limit2: int) -> bool {
    &&& v.net@ != net
    &&& !b.orphan_via(v.id)
    &&& edge_gap2(thermal::pt_measure(thermal::floor(), v.position, v.position, p), v.diameter.0 as int) < limit2
}

/// No foreign copper on the layer is nearer to `p` than the limit.
pub open spec fn roomy(b: Board, p: Point, layer: CopperLayer, net: Seq<char>, limit2: int) -> bool {
    &&& forall|i: int|
        0 <= i < b.footprints@.len() ==> !#[trigger] fp_crowds(
            b.footprints@[i],
            p,
            layer,
            net,
            limit2,
        )
    &&& forall|k: int|
        0 <= k < b.traces@.len() ==> !#[trigger] trace_crowds(
            b,
            b.traces@[k],
            p,
            layer,
            net,
            limit2,
        )
    &&& forall|k: int|
        0 <= k < b.vias@.len() ==> !#[trigger] via_crowds(b, b.vias@[k], p, net, limit2)
}

/// The lists hold exactly the ids of the dangling traces and vias.
pub open spec fn orphans_are(b: Board, traces: Seq<Id>, vias: Seq<Id>) -> bool {
    &&& forall|id: Id| #[trigger] traces.contains(id) <==> b.orphan_trace(id)
    &&& forall|id: Id| #[trigger] vias.contains(id) <==> b.orphan_via(id)
}

fn edge_gap(dist2: i128, width: i64) -> (r: i128)
    requires
        0 <= dist2 <= 0x100_0000_0000_0000_0000_0000,
        -COORD_MAX <= width <= COORD_MAX,
    ensures
        r == edge_gap2(dist2 as int, width as int),
{
    let root: u128 = isqrt(dist2 as u128);
    proof {
        let k: int = 0x1000_0000_0000;
        if root as int > k {
            assert(root * root > k * k) by (nonlinear_arith)
                requires
                    root as int > k,
                    k >= 0,
            ;
            assert(k * k == 0x100_0000_0000_0000_0000_0000) by (nonlinear_arith)
                requires
                    k == 0x1000_0000_0000,
            ;
        }
    }
    let e: i128 = root as i128 - (width / 2) as i128;
    if e < 0 {
        0
    } else {
        proof {
            board::sq_bound(e as int, 0x2000_0000_0000);
            assert(board::sq(0x2000_0000_0000) <= i128::MAX) by (nonlinear_arith);
        }
        e * e
    }
}

fn footprint_crowds(fp: &Footprint, p: Point, layer: CopperLayer, net: &str, limit2: i128) -> (r:
    bool)
    requires
        fp.in_range(),
        thermal::in_reach(p),
    ensures
        r == fp_crowds(*fp, p, layer, net@, limit2 as int),
{
    let mut j: usize = 0;
    while j < fp.pads.len()
        invariant
            j <= fp.pads@.len(),
            fp.in_range(),
            thermal::in_reach(p),
            forall|k: int|
                0 <= k < j ==> !#[trigger] pad_crowds(
                    *fp,
                    fp.pads@[k],
                    p,
                    layer,
                    net@,
                    limit2 as int,
                ),
        decreases fp.pads@.len() - j,
    {
        let pad = &fp.pads[j];
        if pad.occupies_layer(layer) && !has_net(&pad.net, net) {
            if gauge_rect(Gauge { scale: 1, up: false }, p, p, fp.pad_rect(pad)) < limit2 {
                assert(pad_crowds(*fp, fp.pads@[j as int], p, layer, net@, limit2 as int));
                return true;
            }
        }
        j += 1;
    }
    false
}

/// True if all foreign copper on the layer is at least the limit away
/// from `p`, squared.
fn keeps_away(
    b: &Board,
    p: Point,
    layer: CopperLayer,
    net: &str,
    limit2: i128,
    orphan_traces: &Vec<Id>,
    orphan_vias: &Vec<Id>,
) -> (r: bool)
    requires
        b.in_range(),
        thermal::in_reach(p),
        orphans_are(*b, orphan_traces@, orphan_vias@),
    ensures
        r == roomy(*b, p, layer, net@, limit2 as int),
{
    let mut i: usize = 0;
    while i < b.footprints.len()
        invariant
            i <= b.footprints@.len(),
            b.in_range(),
            thermal::in_reach(p),
            forall|k: int|
                0 <= k < i ==> !#[trigger] fp_crowds(
                    b.footprints@[k],
                    p,
                    layer,
                    net@,
                    limit2 as int,
                ),
        decreases b.footprints@.len() - i,
    {
        if footprint_crowds(&b.footprints[i], p, layer, net, limit2) {
            assert(fp_crowds(b.footprints@[i as int], p, layer, net@, limit2 as int));
            return false;
        }
        i += 1;
    }
    let mut k: usize = 0;
    while k < b.traces.len()
        invariant
            k <= b.traces@.len(),
            b.in_range(),
            thermal::in_reach(p),
            orphans_are(*b, orphan_traces@, orphan_vias@),
            forall|m: int|
                0 <= m < k ==> !#[trigger] trace_crowds(
                    *b,
                    b.traces@[m],
                    p,
                    layer,
                    net@,
                    limit2 as int,
                ),
        decreases b.traces@.len() - k,
    {
        let t = &b.traces[k];
        if t.layer == layer && !str_eq(t.net.as_str(), net) && !has_id(orphan_traces, t.id) {
            if edge_gap(gauge_pt(Gauge { scale: 1, up: false }, t.start, t.end, p), t.width.0) < limit2 {
                assert(trace_crowds(*b, b.traces@[k as int], p, layer, net@, limit2 as int));
                return false;
            }
        }
        k += 1;
    }
    let mut k: usize = 0;
    while k < b.vias.len()
        invariant
            k <= b.vias@.len(),
            b.in_range(),
            thermal::in_reach(p),
            orphans_are(*b, orphan_traces@, orphan_vias@),
            forall|m: int|
                0 <= m < k ==> !#[trigger] via_crowds(*b, b.vias@[m], p, net@, limit2 as int),
        decreases b.vias@.len() - k,
    {
        let v = &b.vias[k];
        if !str_eq(v.net.as_str(), net) && !has_id(orphan_vias, v.id) {
            if edge_gap(
                gauge_pt(Gauge { scale: 1, up: false }, v.position, v.position, p),
                v.diameter.0,
            ) < limit2 {
                assert(via_crowds(*b, b.vias@[k as int], p, net@, limit2 as int));
                return false;
            }
        }
        k += 1;
    }
    true
}

/// A via of copper radius `radius` at `p` keeps `clearance` on every
/// layer.
pub open spec fn via_fits(b: Board, p: Point, radius: int, clearance: int, net: Seq<char>) -> bool {
    forall|i: int|
        0 <= i < b.stackup.count() ==> roomy(
            b,
            p,
            #[trigger] board::layer_of(i, b.stackup.count()),
            net,
            board::sq(radius + clearance),
        )
}

fn via_clears(
    b: &Board,
    p: Point,
    radius: i64,
    clearance: i64,
    net: &str,
    orphan_traces: &Vec<Id>,
    orphan_vias: &Vec<Id>,
) -> (r: bool)
    requires
        b.in_range(),
        thermal::in_reach(p),
        0 <= radius <= COORD_MAX,
        0 <= clearance <= COORD_MAX,
        orphans_are(*b, orphan_traces@, orphan_vias@),
    ensures
        r == via_fits(*b, p, radius as int, clearance as int, net@),
{
    let margin: i128 = (radius + clearance) as i128;
    proof {
        board::sq_bound(margin as int, 2 * COORD_MAX);
        assert(board::sq(2 * COORD_MAX) <= i128::MAX) by (nonlinear_arith)
            requires
                COORD_MAX == 0x4_0000_0000,
        ;
    }
    let limit2: i128 = margin * margin;
    let n: usize = if b.stackup.layers.len() < 2 {
        2
    } else {
        b.stackup.layers.len()
    };
    let mut i: usize = 0;
    while i < n
        invariant
            i <= n,
            n == b.stackup.count(),
            n <= 256,
            b.in_range(),
            thermal::in_reach(p),
            orphans_are(*b, orphan_traces@, orphan_vias@),
            limit2 == board::sq(radius + clearance),
            forall|k: int|
                0 <= k < i ==> roomy(
                    *b,
                    p,
                    #[trigger] board::layer_of(k, n as int),
                    net@,
                    limit2 as int,
                ),
        decreases n - i,
    {
        let layer = layer_at(i, n);
        if !keeps_away(b, p, layer, net, limit2, orphan_traces, orphan_vias) {
            assert(!roomy(*b, p, board::layer_of(i as int, n as int), net@, limit2 as int));
            return false;
        }
        i += 1;
    }
    true
}

/// `p` is inside the outline by more than the edge clearance, and some
/// pour of the net reaches it.
pub open spec fn ties(b: Board, p: Point, net: Seq<char>, clearance: int) -> bool {
    &&& b.outline matches Some(o) && o.min.x.0 + EDGE_CLEARANCE < p.x.0 < o.max.x.0
        - EDGE_CLEARANCE && o.min.y.0 + EDGE_CLEARANCE < p.y.0 < o.max.y.0 - EDGE_CLEARANCE
    &&& exists|k: int|
        0 <= k < b.pours@.len() && (#[trigger] b.pours@[k]).net@ == net && roomy(
            b,
            p,
            b.pours@[k].layer,
            net,
            board::sq(clearance),
        )
}

fn ties_to_a_pour(
    b: &Board,
    p: Point,
    net: &str,
    clearance: i64,
    orphan_traces: &Vec<Id>,
    orphan_vias: &Vec<Id>,
) -> (r: bool)
    requires
        b.in_range(),
        thermal::in_reach(p),
        0 <= clearance <= COORD_MAX,
        orphans_are(*b, orphan_traces@, orphan_vias@),
    ensures
        r == ties(*b, p, net@, clearance as int),
{
    let o = match b.outline {
        None => {
            return false;
        },
        Some(o) => o,
    };
    let inset: i64 = EDGE_CLEARANCE;
    if p.x.0 <= o.min.x.0 + inset || p.x.0 >= o.max.x.0 - inset || p.y.0 <= o.min.y.0 + inset
        || p.y.0 >= o.max.y.0 - inset {
        return false;
    }
    let margin: i128 = clearance as i128;
    proof {
        board::sq_bound(margin as int, COORD_MAX as int);
        assert(board::sq(COORD_MAX as int) <= i128::MAX) by (nonlinear_arith)
            requires
                COORD_MAX == 0x4_0000_0000,
        ;
    }
    let limit2: i128 = margin * margin;
    let mut k: usize = 0;
    while k < b.pours.len()
        invariant
            k <= b.pours@.len(),
            b.in_range(),
            thermal::in_reach(p),
            orphans_are(*b, orphan_traces@, orphan_vias@),
            limit2 == board::sq(clearance as int),
            b.outline == Some(o),
            o.min.x.0 + EDGE_CLEARANCE < p.x.0 < o.max.x.0 - EDGE_CLEARANCE,
            o.min.y.0 + EDGE_CLEARANCE < p.y.0 < o.max.y.0 - EDGE_CLEARANCE,
            forall|m: int|
                0 <= m < k ==> !((#[trigger] b.pours@[m]).net@ == net@ && roomy(
                    *b,
                    p,
                    b.pours@[m].layer,
                    net@,
                    limit2 as int,
                )),
        decreases b.pours@.len() - k,
    {
        let pour = &b.pours[k];
        if str_eq(pour.net.as_str(), net) && keeps_away(
            b,
            p,
            pour.layer,
            net,
            limit2,
            orphan_traces,
            orphan_vias,
        ) {
            return true;
        }
        k += 1;
    }
    false
}

/// `p` is on the rectangle of size `w` by `h` around `c`.
pub open spec fn on_pad(p: Point, c: Point, w: Length, h: Length) -> bool {
    &&& units::abs(p.x.0 - c.x.0) <= units::quot(w.0 as int, 2)
    &&& units::abs(p.y.0 - c.y.0) <= units::quot(h.0 as int, 2)
}

fn is_on_pad(p: Point, c: Point, w: Length, h: Length) -> (r: bool)
    requires
        p.within(4 * COORD_MAX),
        c.within(4 * COORD_MAX),
    ensures
        r == on_pad(p, c, w, h),
{
    let dx: i64 = p.x.0 - c.x.0;
    let dy: i64 = p.y.0 - c.y.0;
    Length(dx).abs().0 <= w.0 / 2 && Length(dy).abs().0 <= h.0 / 2
}

/// A trace end or a via of the net sits on the pad.
pub open spec fn wired(b: Board, c: Point, w: Length, h: Length, net: Seq<char>) -> bool {
    ||| exists|k: int|
        0 <= k < b.traces@.len() && (#[trigger] b.traces@[k]).net@ == net && (on_pad(
            b.traces@[k].start,
            c,
            w,
            h,
        ) || on_pad(b.traces@[k].end, c, w, h))
    ||| exists|k: int|
        0 <= k < b.vias@.len() && (#[trigger] b.vias@[k]).net@ == net && on_pad(
            b.vias@[k].position,
            c,
            w,
            h,
        )
}

fn same_net_trace_or_via_touches(b: &Board, c: Point, w: Length, h: Length, net: &str) -> (r: bool)
    requires
        b.in_range(),
        c.within(4 * COORD_MAX),
    ensures
        r == wired(*b, c, w, h, net@),
{
    let mut k: usize = 0;
    while k < b.traces.len()
        invariant
            k <= b.traces@.len(),
            b.in_range(),
            c.within(4 * COORD_MAX),
            forall|m: int|
                0 <= m < k ==> !((#[trigger] b.traces@[m]).net@ == net@ && (on_pad(
                    b.traces@[m].start,
                    c,
                    w,
                    h,
                ) || on_pad(b.traces@[m].end, c, w, h))),
        decreases b.traces@.len() - k,
    {
        let t = &b.traces[k];
        if str_eq(t.net.as_str(), net) && (is_on_pad(t.start, c, w, h) || is_on_pad(
            t.end,
            c,
            w,
            h,
        )) {
            return true;
        }
        k += 1;
    }
    let mut k: usize = 0;
    while k < b.vias.len()
        invariant
            k <= b.vias@.len(),
            b.in_range(),
            c.within(4 * COORD_MAX),
            forall|m: int|
                0 <= m < k ==> !((#[trigger] b.vias@[m]).net@ == net@ && on_pad(
                    b.vias@[m].position,
                    c,
                    w,
                    h,
                )),
        decreases b.vias@.len() - k,
    {
        let v = &b.vias[k];
        if str_eq(v.net.as_str(), net) && is_on_pad(v.position, c, w, h) {
            return true;
        }
        k += 1;
    }
    false
}

/// The pour is of the net and on a layer of the pad.
pub open spec fn serves(pour: Pour, pad: Pad, net: Seq<char>) -> bool {
    pour.net@ == net && pad.on_layer(pour.layer)
}

/// The pour joins the pad: it is solid, or a spoke is clear.
pub open spec fn bonds(b: Board, pour: Pour, fp: Footprint, pad: Pad, net: Seq<char>, reach: int) -> bool {
    &&& serves(pour, pad, net)
    &&& match pour.thermal_relief {
        ThermalRelief::Solid => true,
        ThermalRelief::Spokes4 { spoke_width, gap } => thermal::spokes(
            gerber::pour_guard(b, pour.layer, net, units::quot(spoke_width.0 as int, 2)),
            b,
            fp.center_of(pad),
            units::quot(fp.size_of(pad).0.0 as int, 2),
            units::quot(fp.size_of(pad).1.0 as int, 2),
            reach,
        ).len() > 0,
    }
}

/// Some pour serves the pad, none joins it, and no routing does.
pub open spec fn isolated(b: Board, fp: Footprint, pad: Pad, net: Seq<char>, reach: int) -> bool {
    &&& exists|k: int| 0 <= k < b.pours@.len() && serves(#[trigger] b.pours@[k], pad, net)
    &&& forall|k: int|
        0 <= k < b.pours@.len() ==> !bonds(b, #[trigger] b.pours@[k], fp, pad, net, reach)
    &&& !wired(b, fp.center_of(pad), fp.size_of(pad).0, fp.size_of(pad).1, net)
}

fn pour_bonds(
    b: &Board,
    pour: &Pour,
    fp: &Footprint,
    pad: &Pad,
    net: &str,
    reach: i64,
    orphan_traces: &Vec<Id>,
    orphan_vias: &Vec<Id>,
) -> (r: bool)
    requires
        b.in_range(),
        pour.thermal_relief.in_range(),
        fp.position.within(COORD_MAX as int),
        fp.rotation.wf(),
        pad.in_range(),
        0 <= reach <= 2 * COORD_MAX,
        serves(*pour, *pad, net@),
        orphans_are(*b, orphan_traces@, orphan_vias@),
    ensures
        r == bonds(*b, *pour, *fp, *pad, net@, reach as int),
{
    match pour.thermal_relief {
        ThermalRelief::Solid => true,
        ThermalRelief::Spokes4 { spoke_width, gap } => {
            let center = fp.pad_world_center(pad);
            let (w, h) = fp.pad_world_size(pad);
            let half = Length(spoke_width.0 / 2);
            let spokes = select_spokes(
                center,
                w,
                h,
                half,
                Length(POUR_CLEARANCE),
                Length(reach),
                net,
                pour.layer,
                b,
                orphan_traces,
                orphan_vias,
            );
            proof {
                let gd = thermal::guard(
                    half,
                    Length(POUR_CLEARANCE),
                    net@,
                    pour.layer,
                    orphan_traces@,
                    orphan_vias@,
                );
                assert(gd.dropped_traces =~= Set::new(|id: Id| b.orphan_trace(id)));
                assert(gd.dropped_vias =~= Set::new(|id: Id| b.orphan_via(id)));
                assert(gd == gerber::pour_guard(*b, pour.layer, net@, half.0 as int));
            }
            spokes.len() > 0
        },
    }
}

fn pad_is_isolated(
    b: &Board,
    fp: &Footprint,
    pad: &Pad,
    net: &str,
    reach: i64,
    orphan_traces: &Vec<Id>,
    orphan_vias: &Vec<Id>,
) -> (r: bool)
    requires
        b.in_range(),
        fp.position.within(COORD_MAX as int),
        fp.rotation.wf(),
        pad.in_range(),
        0 <= reach <= 2 * COORD_MAX,
        orphans_are(*b, orphan_traces@, orphan_vias@),
    ensures
        r == isolated(*b, *fp, *pad, net@, reach as int),
{
    let mut any = false;
    let mut k: usize = 0;
    while k < b.pours.len()
        invariant
            k <= b.pours@.len(),
            b.in_range(),
            fp.position.within(COORD_MAX as int),
            fp.rotation.wf(),
            pad.in_range(),
            0 <= reach <= 2 * COORD_MAX,
            orphans_are(*b, orphan_traces@, orphan_vias@),
            any == exists|m: int| 0 <= m < k && serves(#[trigger] b.pours@[m], *pad, net@),
            forall|m: int|
                0 <= m < k ==> !bonds(
                    *b,
                    #[trigger] b.pours@[m],
                    *fp,
                    *pad,
                    net@,
                    reach as int,
                ),
        decreases b.pours@.len() - k,
    {
        let pour = &b.pours[k];
        if str_eq(pour.net.as_str(), net) && pad.occupies_layer(pour.layer) {
            any = true;
            if pour_bonds(b, pour, fp, pad, net, reach, orphan_traces, orphan_vias) {
                return false;
            }
        }
        k += 1;
    }
    if !any {
        return false;
    }
    let center = fp.pad_world_center(pad);
    let (w, h) = fp.pad_world_size(pad);
    !same_net_trace_or_via_touches(b, center, w, h, net)
}

/// What a stub has to keep away from on a layer: all foreign copper that
/// is not dangling.
pub open spec fn stub_guard(b: Board, layer: CopperLayer, net: Seq<char>, base: int) -> thermal::Guard {
    thermal::Guard {
        base,
        net,
        layer,
        dropped_traces: Set::new(|id: Id| b.orphan_trace(id)),
        dropped_vias: Set::new(|id: Id| b.orphan_via(id)),
    }
}

/// The stub is clear on every layer on which the net is poured.
pub open spec fn stub_fits(b: Board, from: Point, to: Point, net: Seq<char>, base: int) -> bool {
    forall|k: int|
        0 <= k < b.pours@.len() && (#[trigger] b.pours@[k]).net@ == net ==> stub_guard(
            b,
            b.pours@[k].layer,
            net,
            base,
        ).clears(b, from, to)
}

fn stub_clears(
    b: &Board,
    from: Point,
    to: Point,
    stub_half: Length,
    clearance: Length,
    net: &str,
    orphan_traces: &Vec<Id>,
    orphan_vias: &Vec<Id>,
) -> (r: bool)
    requires
        b.in_range(),
        thermal::in_reach(from),
        thermal::in_reach(to),
        -COORD_MAX <= stub_half.0 <= COORD_MAX,
        -COORD_MAX <= clearance.0 <= COORD_MAX,
        orphans_are(*b, orphan_traces@, orphan_vias@),
    ensures
        r == stub_fits(*b, from, to, net@, stub_half.0 + clearance.0),
{
    let mut k: usize = 0;
    while k < b.pours.len()
        invariant
            k <= b.pours@.len(),
            b.in_range(),
            thermal::in_reach(from),
            thermal::in_reach(to),
            -COORD_MAX <= stub_half.0 <= COORD_MAX,
            -COORD_MAX <= clearance.0 <= COORD_MAX,
            orphans_are(*b, orphan_traces@, orphan_vias@),
            forall|m: int|
                0 <= m < k && (#[trigger] b.pours@[m]).net@ == net@ ==> stub_guard(
                    *b,
                    b.pours@[m].layer,
                    net@,
                    stub_half.0 + clearance.0,
                ).clears(*b, from, to),
        decreases b.pours@.len() - k,
    {
        let pour = &b.pours[k];
        if str_eq(pour.net.as_str(), net) {
            let ok = thermal::spoke_clear(
                from,
                to,
                stub_half,
                clearance,
                net,
                pour.layer,
                b,
                orphan_traces,
                orphan_vias,
            );
            proof {
                let gd = thermal::guard(
                    stub_half,
                    clearance,
                    net@,
                    pour.layer,
                    orphan_traces@,
                    orphan_vias@,
                );
                assert(gd.dropped_traces =~= Set::new(|id: Id| b.orphan_trace(id)));
                assert(gd.dropped_vias =~= Set::new(|id: Id| b.orphan_via(id)));
                assert(gd == stub_guard(*b, pour.layer, net@, stub_half.0 + clearance.0));
            }
            if !ok {
                return false;
            }
        }
        k += 1;
    }
    true
}

/// Candidate `n` around `c`: direction `n % 24` on ring `n / 24`, the
/// innermost ring first.
pub open spec fn candidate(c: Point, n: int) -> Point {
    let ring = (1 + n / DIRECTIONS as int) * RING_STEP;
    let deg = 15 * (n % DIRECTIONS as int);
    thermal::pt(
        c.x.0 + units::quot(ring * rotation::cos_deg(deg), UNIT as int),
        c.y.0 + units::quot(ring * rotation::sin_deg(deg), UNIT as int),
    )
}

/// A via at `p` clears the pad outline, fits, ties to a pour, and can be
/// reached by a stub.
pub open spec fn beside(
    b: Board,
    c: Point,
    w: Length,
    h: Length,
    net: Seq<char>,
    params: StitchParams,
    p: Point,
) -> bool {
    let hx = units::quot(w.0 as int, 2) + params.radius();
    let hy = units::quot(h.0 as int, 2) + params.radius();
    &&& units::abs(p.x.0 - c.x.0) > hx || units::abs(p.y.0 - c.y.0) > hy
    &&& via_fits(b, p, params.radius(), params.clearance.0 as int, net)
    &&& ties(b, p, net, params.clearance.0 as int)
    &&& stub_fits(
        b,
        c,
        p,
        net,
        units::quot(params.stub_width.0 as int, 2) + params.clearance.0,
    )
}

/// The first candidate from `n` on that works.
pub open spec fn first_beside(
    b: Board,
    c: Point,
    w: Length,
    h: Length,
    net: Seq<char>,
    params: StitchParams,
    n: int,
) -> Option<Point>
    decreases RINGS * DIRECTIONS - n,
{
    if n < 0 || n >= RINGS * DIRECTIONS {
        None
    } else if beside(b, c, w, h, net, params, candidate(c, n)) {
        Some(candidate(c, n))
    } else {
        first_beside(b, c, w, h, net, params, n + 1)
    }
}

/// Where to put the via of an isolated pad, and whether that is inside
/// the pad: the nearest place beside it, or else its centre if a via fits
/// and ties there.
pub open spec fn via_spot(
    b: Board,
    c: Point,
    w: Length,
    h: Length,
    net: Seq<char>,
    params: StitchParams,
) -> Option<(Point, bool)> {
    match first_beside(b, c, w, h, net, params, 0) {
        Some(p) => Some((p, false)),
        None => if via_fits(b, c, params.radius(), params.clearance.0 as int, net) && ties(
            b,
            c,
            net,
            params.clearance.0 as int,
        ) {
            Some((c, true))
        } else {
            None
        },
    }
}

fn find_via_spot(
    b: &Board,
    c: Point,
    w: Length,
    h: Length,
    net: &str,
    params: &StitchParams,
    orphan_traces: &Vec<Id>,
    orphan_vias: &Vec<Id>,
) -> (r: Option<(Point, bool)>)
    requires
        b.in_range(),
        c.within(4 * COORD_MAX),
        -COORD_MAX <= w.0 <= COORD_MAX,
        -COORD_MAX <= h.0 <= COORD_MAX,
        params.in_range(),
        orphans_are(*b, orphan_traces@, orphan_vias@),
    ensures
        r == via_spot(*b, c, w, h, net@, *params),
{
    let radius: i64 = params.via_diameter.0 / 2;
    let hx: i64 = w.0 / 2 + radius;
    let hy: i64 = h.0 / 2 + radius;
    let half = Length(params.stub_width.0 / 2);
    let mut n: i64 = 0;
    while n < RINGS * DIRECTIONS
        invariant
            0 <= n <= RINGS * DIRECTIONS,
            b.in_range(),
            c.within(4 * COORD_MAX),
            params.in_range(),
            radius == params.radius(),
            0 <= radius <= COORD_MAX,
            hx == units::quot(w.0 as int, 2) + radius,
            hy == units::quot(h.0 as int, 2) + radius,
            half.0 == units::quot(params.stub_width.0 as int, 2),
            0 <= half.0 <= COORD_MAX,
            orphans_are(*b, orphan_traces@, orphan_vias@),
            first_beside(*b, c, w, h, net@, *params, 0) == first_beside(
                *b,
                c,
                w,
                h,
                net@,
                *params,
                n as int,
            ),
        decreases RINGS * DIRECTIONS - n,
    {
        let ring: i64 = (1 + n / DIRECTIONS) * RING_STEP;
        let deg: i64 = 15 * (n % DIRECTIONS);
        let cos: i64 = sin_of(deg + 90);
        let sin: i64 = sin_of(deg);
        proof {
            rotation::product_bound(ring as int, 3_000_000, cos as int, UNIT as int);
            rotation::product_bound(ring as int, 3_000_000, sin as int, UNIT as int);
        }
        let dx: i64 = ring * cos / UNIT;
        let dy: i64 = ring * sin / UNIT;
        let p = Point::new(Length(c.x.0 + dx), Length(c.y.0 + dy));
        assert(p == candidate(c, n as int));
        let outside = Length(dx).abs().0 > hx || Length(dy).abs().0 > hy;
        if outside && via_clears(
            b,
            p,
            radius,
            params.clearance.0,
            net,
            orphan_traces,
            orphan_vias,
        ) && ties_to_a_pour(b, p, net, params.clearance.0, orphan_traces, orphan_vias)
            && stub_clears(b, c, p, half, params.clearance, net, orphan_traces, orphan_vias) {
            return Some((p, false));
        }
        n += 1;
    }
    if via_clears(b, c, radius, params.clearance.0, net, orphan_traces, orphan_vias)
        && ties_to_a_pour(b, c, net, params.clearance.0, orphan_traces, orphan_vias) {
        return Some((c, true));
    }
    None
}

/// The widest gap of the first `n` pours.
pub open spec fn widest_gap(pours: Seq<Pour>, n: int) -> int
    decreases n,
{
    if n <= 0 {
        0
    } else {
        match pours[n - 1].thermal_relief {
            ThermalRelief::Solid => widest_gap(pours, n - 1),
            ThermalRelief::Spokes4 { spoke_width, gap } => units::max(
                widest_gap(pours, n - 1),
                gap.0 as int,
            ),
        }
    }
}

/// The reach with which isolation is probed.
pub open spec fn probe_reach(b: Board) -> int {
    widest_gap(b.pours@, b.pours@.len() as int) + 100_000
}

fn reach_of(b: &Board) -> (r: i64)
    requires
        b.in_range(),
    ensures
        r == probe_reach(*b),
        0 <= r <= 2 * COORD_MAX,
{
    let mut gap: i64 = 0;
    let mut i: usize = 0;
    while i < b.pours.len()
        invariant
            i <= b.pours@.len(),
            b.in_range(),
            gap == widest_gap(b.pours@, i as int),
            0 <= gap <= COORD_MAX,
        decreases b.pours@.len() - i,
    {
        if let ThermalRelief::Spokes4 { spoke_width, gap: g } = b.pours[i].thermal_relief {
            if g.0 > gap {
                gap = g.0;
            }
        }
        i += 1;
    }
    gap + 100_000
}

/// What is decided for a pad: nothing, a stitch, or that none works.
pub enum Verdict {
    Fine,
    Stitch { pad_ref: Seq<char>, net: Seq<char>, at: Point, in_pad: bool, layer: CopperLayer, from: Point },
    Stuck { pad_ref: Seq<char> },
}

/// The name of a pad in a report.
pub open spec fn pad_name(fp: Footprint, pad: Pad) -> Seq<char> {
    fp.reference@ + "."@ + pad.number@
}

/// The decision for a pad.
pub open spec fn verdict(b: Board, params: StitchParams, fp: Footprint, pad: Pad) -> Verdict {
    match pad.net {
        None => Verdict::Fine,
        Some(n) => if !isolated(b, fp, pad, n@, probe_reach(b)) {
            Verdict::Fine
        } else {
            let c = fp.center_of(pad);
            match via_spot(b, c, fp.size_of(pad).0, fp.size_of(pad).1, n@, params) {
                None => Verdict::Stuck { pad_ref: pad_name(fp, pad) },
                Some((at, in_pad)) => Verdict::Stitch {
                    pad_ref: pad_name(fp, pad),
                    net: n@,
                    at,
                    in_pad,
                    layer: pad.layer,
                    from: c,
                },
            }
        },
    }
}

/// The proposal carries out the decision. The ids of the via and the stub
/// are fresh, and nothing is said of them.
pub open spec fn carries_out(s: StitchProposal, v: Verdict, params: StitchParams) -> bool {
    v matches Verdict::Stitch { pad_ref, net, at, in_pad, layer, from } && {
        &&& s.pad_ref@ == pad_ref
        &&& s.via.position == at
        &&& s.via.drill == params.via_drill
        &&& s.via.diameter == params.via_diameter
        &&& s.via.net@ == net
        &&& s.via_in_pad == in_pad
        &&& s.stub is Some <==> !in_pad
        &&& s.stub matches Some(t) ==> {
            &&& t.layer == layer
            &&& t.start == from
            &&& t.end == at
            &&& t.width == params.stub_width
            &&& t.net@ == net
        }
    }
}

/// The decision about each pad that calls for a stitch.
pub open spec fn stitch_of(b: Board, params: StitchParams) -> spec_fn(Footprint, Pad) -> Seq<Verdict> {
    |fp: Footprint, pad: Pad|
        if verdict(b, params, fp, pad) is Stitch {
            seq![verdict(b, params, fp, pad)]
        } else {
            Seq::empty()
        }
}

/// The name of each pad that no via can connect.
pub open spec fn stuck_of(b: Board, params: StitchParams) -> spec_fn(Footprint, Pad) -> Seq<Seq<char>> {
    |fp: Footprint, pad: Pad|
        match verdict(b, params, fp, pad) {
            Verdict::Stuck { pad_ref } => seq![pad_ref],
            _ => Seq::empty(),
        }
}

/// The stitches that a board calls for, in pad order.
pub open spec fn stitches(b: Board, params: StitchParams) -> Seq<Verdict> {
    gerber::over_pads(b.footprints@, stitch_of(b, params), b.footprints@.len() as int)
}

/// The pads that no via can connect, in pad order.
pub open spec fn stuck(b: Board, params: StitchParams) -> Seq<Seq<char>> {
    gerber::over_pads(b.footprints@, stuck_of(b, params), b.footprints@.len() as int)
}

/// The proposals carry out the decisions one by one.
pub open spec fn all_carried_out(
    v: Seq<StitchProposal>,
    d: Seq<Verdict>,
    params: StitchParams,
) -> bool {
    &&& v.len() == d.len()
    &&& forall|i: int| 0 <= i < v.len() ==> carries_out(#[trigger] v[i], d[i], params)
}

fn plan_pad(
    plan: &mut StitchPlan,
    b: &Board,
    params: &StitchParams,
    reach: i64,
    fp: &Footprint,
    pad: &Pad,
    orphan_traces: &Vec<Id>,
    orphan_vias: &Vec<Id>,
    Ghost(done): Ghost<Seq<Verdict>>,
)
    requires
        b.in_range(),
        params.in_range(),
        fp.position.within(COORD_MAX as int),
        fp.rotation.wf(),
        pad.in_range(),
        reach == probe_reach(*b),
        0 <= reach <= 2 * COORD_MAX,
        orphans_are(*b, orphan_traces@, orphan_vias@),
        all_carried_out(old(plan).proposals@, done, *params),
    ensures
        all_carried_out(
            final(plan).proposals@,
            done + stitch_of(*b, *params)(*fp, *pad),
            *params,
        ),
        text::views(final(plan).unreachable@) == text::views(
            old(plan).unreachable@,
        ) + stuck_of(*b, *params)(*fp, *pad),
{
    let ghost names = text::views(plan.unreachable@);
    assert(done + Seq::empty() =~= done);
    assert(names + Seq::empty() =~= names);
    if let Some(n) = &pad.net {
        let net = n.as_str();
        if pad_is_isolated(b, fp, pad, net, reach, orphan_traces, orphan_vias) {
            let name = fp.reference.clone().concat(".").concat(pad.number.as_str());
            let c = fp.pad_world_center(pad);
            let (w, h) = fp.pad_world_size(pad);
            match find_via_spot(b, c, w, h, net, params, orphan_traces, orphan_vias) {
                Some((at, in_pad)) => {
                    let via = Via {
                        id: Id::new(),
                        position: at,
                        drill: params.via_drill,
                        diameter: params.via_diameter,
                        net: n.clone(),
                    };
                    let stub = if in_pad {
                        None
                    } else {
                        Some(
                            Trace {
                                id: Id::new(),
                                layer: pad.layer,
                                start: c,
                                end: at,
                                width: params.stub_width,
                                net: n.clone(),
                            },
                        )
                    };
                    plan.proposals.push(
                        StitchProposal { pad_ref: name, via, stub, via_in_pad: in_pad },
                    );
                },
                None => {
                    let ghost before = plan.unreachable@;
                    plan.unreachable.push(name);
                    assert(text::views(plan.unreachable@) =~= text::views(
                        before,
                    ).push(pad_name(*fp, *pad)));
                },
            }
        }
    }
}

/// Plans a stitching via for every isolated pad of the board.
pub fn plan_stitches(b: &Board, params: StitchParams) -> (r: StitchPlan)
    requires
        b.in_range(),
        params.in_range(),
    ensures
        all_carried_out(r.proposals@, stitches(*b, params), params),
        text::views(r.unreachable@) == stuck(*b, params),
{
    let orphan_traces = b.orphan_trace_ids();
    let orphan_vias = b.orphan_via_ids();
    let reach: i64 = reach_of(b);
    let ghost f = stitch_of(*b, params);
    let ghost g = stuck_of(*b, params);
    let ghost fps = b.footprints@;
    let mut plan = StitchPlan { proposals: Vec::new(), unreachable: Vec::new() };
    assert(text::views(plan.unreachable@) =~= Seq::empty());
    let mut i: usize = 0;
    while i < b.footprints.len()
        invariant
            i <= b.footprints@.len(),
            b.in_range(),
            params.in_range(),
            reach == probe_reach(*b),
            0 <= reach <= 2 * COORD_MAX,
            orphans_are(*b, orphan_traces@, orphan_vias@),
            fps == b.footprints@,
            f == stitch_of(*b, params),
            g == stuck_of(*b, params),
            all_carried_out(plan.proposals@, gerber::over_pads(fps, f, i as int), params),
            text::views(plan.unreachable@) == gerber::over_pads(fps, g, i as int),
        decreases b.footprints@.len() - i,
    {
        let fp = &b.footprints[i];
        let mut j: usize = 0;
        assert(gerber::over_pads(fps, f, i as int) + gerber::over_fp(*fp, f, 0)
            =~= gerber::over_pads(fps, f, i as int));
        assert(gerber::over_pads(fps, g, i as int) + gerber::over_fp(*fp, g, 0)
            =~= gerber::over_pads(fps, g, i as int));
        while j < fp.pads.len()
            invariant
                j <= fp.pads@.len(),
                b.in_range(),
                fp.in_range(),
                params.in_range(),
                reach == probe_reach(*b),
                0 <= reach <= 2 * COORD_MAX,
                orphans_are(*b, orphan_traces@, orphan_vias@),
                f == stitch_of(*b, params),
                g == stuck_of(*b, params),
                all_carried_out(
                    plan.proposals@,
                    gerber::over_pads(fps, f, i as int) + gerber::over_fp(*fp, f, j as int),
                    params,
                ),
                text::views(plan.unreachable@) == gerber::over_pads(fps, g, i as int)
                    + gerber::over_fp(*fp, g, j as int),
            decreases fp.pads@.len() - j,
        {
            let ghost done = gerber::over_pads(fps, f, i as int) + gerber::over_fp(
                *fp,
                f,
                j as int,
            );
            plan_pad(
                &mut plan,
                b,
                &params,
                reach,
                fp,
                &fp.pads[j],
                &orphan_traces,
                &orphan_vias,
                Ghost(done),
            );
            assert(done + f(*fp, fp.pads@[j as int]) =~= gerber::over_pads(fps, f, i as int)
                + gerber::over_fp(*fp, f, j + 1));
            assert(gerber::over_pads(fps, g, i as int) + gerber::over_fp(*fp, g, j as int) + g(
                *fp,
                fp.pads@[j as int],
            ) =~= gerber::over_pads(fps, g, i as int) + gerber::over_fp(*fp, g, j + 1));
            j += 1;
        }
        i += 1;
    }
    plan
}

/// The vias of the proposals, in order.
pub open spec fn new_vias(plan: StitchPlan) -> Seq<Via> {
    Seq::new(plan.proposals@.len(), |i: int| plan.proposals@[i].via)
}

/// The stubs of the first `n` proposals.
pub open spec fn new_stubs(plan: StitchPlan, n: int) -> Seq<Trace>
    decreases n,
{
    if n <= 0 {
        Seq::empty()
    } else {
        match plan.proposals@[n - 1].stub {
            Some(t) => new_stubs(plan, n - 1).push(t),
            None => new_stubs(plan, n - 1),
        }
    }
}

/// Adds the vias and the stubs of a plan to the board, and returns the
/// number of stitches.
pub fn apply_stitches(board: &mut Board, plan: &StitchPlan) -> (r: usize)
    ensures
        r == plan.proposals@.len(),
        final(board).vias@ == old(board).vias@ + new_vias(*plan),
        final(board).traces@ == old(board).traces@ + new_stubs(
            *plan,
            plan.proposals@.len() as int,
        ),
        *final(board) == (Board {
            vias: final(board).vias,
            traces: final(board).traces,
            ..*old(board)
        }),
{
    let ghost start = *board;
    let mut i: usize = 0;
    assert(board.vias@ =~= start.vias@ + new_vias(*plan).take(0));
    assert(board.traces@ =~= start.traces@ + new_stubs(*plan, 0));
    while i < plan.proposals.len()
        invariant
            i <= plan.proposals@.len(),
            board.vias@ == start.vias@ + new_vias(*plan).take(i as int),
            board.traces@ == start.traces@ + new_stubs(*plan, i as int),
            *board == (Board { vias: board.vias, traces: board.traces, ..start }),
        decreases plan.proposals@.len() - i,
    {
        let s = &plan.proposals[i];
        let _ = board.add_via(s.via.clone());
        if let Some(t) = &s.stub {
            let _ = board.add_trace(t.clone());
        }
        assert(board.vias@ =~= start.vias@ + new_vias(*plan).take(i + 1));
        assert(board.traces@ =~= start.traces@ + new_stubs(*plan, i + 1));
        i += 1;
    }
    assert(new_vias(*plan).take(plan.proposals@.len() as int) =~= new_vias(*plan));
    plan.proposals.len()
}

/// A pad that a pour already joins, or that is wired, is left alone.
pub proof fn joined_pads_are_left_alone(
    b: Board,
    params: StitchParams,
    fp: Footprint,
    pad: Pad,
    k: int,
)
    requires
        pad.net is Some,
        0 <= k < b.pours@.len(),
        bonds(b, b.pours@[k], fp, pad, pad.net->0@, probe_reach(b)) || wired(
            b,
            fp.center_of(pad),
            fp.size_of(pad).0,
            fp.size_of(pad).1,
            pad.net->0@,
        ),
    ensures
        verdict(b, params, fp, pad) is Fine,
{
}

proof fn stub_is_laid(plan: StitchPlan, n: int, k: int)
    requires
        0 <= k < n <= plan.proposals@.len(),
        plan.proposals@[k].stub is Some,
    ensures
        new_stubs(plan, n).contains(plan.proposals@[k].stub->0),
    decreases n,
{
    let t = plan.proposals@[k].stub->0;
    let rest = new_stubs(plan, n - 1);
    if k < n - 1 {
        stub_is_laid(plan, n - 1, k);
        let m = choose|m: int| 0 <= m < rest.len() && rest[m] == t;
        assert(new_stubs(plan, n)[m] == t);
    } else {
        assert(new_stubs(plan, n)[rest.len() as int] == t);
    }
}

/// Once a plan is applied, every pad that it stitches is wired, and a new
/// plan leaves that pad alone.
pub proof fn stitched_pads_are_wired(
    before: Board,
    params: StitchParams,
    plan: StitchPlan,
    after: Board,
    i: int,
    j: int,
)
    requires
        all_carried_out(plan.proposals@, stitches(before, params), params),
        after.vias@ == before.vias@ + new_vias(plan),
        after.traces@ == before.traces@ + new_stubs(plan, plan.proposals@.len() as int),
        0 <= i < before.footprints@.len(),
        0 <= j < before.footprints@[i].pads@.len(),
        before.footprints@[i].pads@[j].size.0.0 >= 0,
        before.footprints@[i].pads@[j].size.1.0 >= 0,
        verdict(before, params, before.footprints@[i], before.footprints@[i].pads@[j]) is Stitch,
    ensures
        ({
            let fp = before.footprints@[i];
            let pad = fp.pads@[j];
            &&& wired(
                after,
                fp.center_of(pad),
                fp.size_of(pad).0,
                fp.size_of(pad).1,
                pad.net->0@,
            )
            &&& verdict(after, params, fp, pad) is Fine
        }),
{
    let fp = before.footprints@[i];
    let pad = fp.pads@[j];
    let v = verdict(before, params, fp, pad);
    let f = stitch_of(before, params);
    let d = stitches(before, params);
    let c = fp.center_of(pad);
    assert(f(fp, pad)[0] == v);
    gerber::pad_item_is_listed(before.footprints@, f, before.footprints@.len() as int, i, j, v);
    let k = choose|k: int| 0 <= k < d.len() && d[k] == v;
    let s = plan.proposals@[k];
    assert(carries_out(s, v, params));
    assert(on_pad(c, c, fp.size_of(pad).0, fp.size_of(pad).1));
    if s.via_in_pad {
        assert(new_vias(plan)[k] == s.via);
        assert(after.vias@[before.vias@.len() + k] == s.via);
        assert(s.via.position == c);
    } else {
        let t = s.stub->0;
        let stubs = new_stubs(plan, plan.proposals@.len() as int);
        stub_is_laid(plan, plan.proposals@.len() as int, k);
        let m = choose|m: int| 0 <= m < stubs.len() && stubs[m] == t;
        assert(after.traces@[before.traces@.len() + m] == t);
    }
}

/// The via of a decision keeps its clearance on every layer, lies inside
/// the outline and meets a pour of its net; its stub is clear.
pub open spec fn keeps_clear(b: Board, params: StitchParams, v: Verdict) -> bool {
    v matches Verdict::Stitch { pad_ref, net, at, in_pad, layer, from } && {
        &&& via_fits(b, at, params.radius(), params.clearance.0 as int, net)
        &&& ties(b, at, net, params.clearance.0 as int)
        &&& !in_pad ==> stub_fits(
            b,
            from,
            at,
            net,
            units::quot(params.stub_width.0 as int, 2) + params.clearance.0,
        )
    }
}

proof fn found_spot_works(
    b: Board,
    c: Point,
    w: Length,
    h: Length,
    net: Seq<char>,
    params: StitchParams,
    n: int,
)
    requires
        0 <= n,
    ensures
        first_beside(b, c, w, h, net, params, n) matches Some(p) ==> beside(
            b,
            c,
            w,
            h,
            net,
            params,
            p,
        ),
    decreases RINGS * DIRECTIONS - n,
{
    if n < RINGS * DIRECTIONS && !beside(b, c, w, h, net, params, candidate(c, n)) {
        found_spot_works(b, c, w, h, net, params, n + 1);
    }
}

proof fn footprint_stitches_keep_clear(b: Board, params: StitchParams, fp: Footprint, n: int)
    requires
        0 <= n <= fp.pads@.len(),
    ensures
        forall|k: int|
            0 <= k < gerber::over_fp(fp, stitch_of(b, params), n).len() ==> keeps_clear(
                b,
                params,
                #[trigger] gerber::over_fp(fp, stitch_of(b, params), n)[k],
            ),
    decreases n,
{
    if n > 0 {
        let pad = fp.pads@[n - 1];
        let f = stitch_of(b, params);
        footprint_stitches_keep_clear(b, params, fp, n - 1);
        if pad.net is Some {
            let (w, h) = fp.size_of(pad);
            found_spot_works(b, fp.center_of(pad), w, h, pad.net->0@, params, 0);
        }
        let rest = gerber::over_fp(fp, f, n - 1);
        let all = rest + f(fp, pad);
        assert forall|k: int| 0 <= k < all.len() implies keeps_clear(b, params, #[trigger] all[k]) by {
            if k < rest.len() {
                assert(all[k] == rest[k]);
            } else {
                assert(all[k] == verdict(b, params, fp, pad));
            }
        }
    }
}

proof fn listed_stitches_keep_clear(b: Board, params: StitchParams, n: int)
    requires
        0 <= n <= b.footprints@.len(),
    ensures
        forall|k: int|
            0 <= k < gerber::over_pads(b.footprints@, stitch_of(b, params), n).len()
                ==> keeps_clear(
                b,
                params,
                #[trigger] gerber::over_pads(b.footprints@, stitch_of(b, params), n)[k],
            ),
    decreases n,
{
    if n > 0 {
        let fp = b.footprints@[n - 1];
        let f = stitch_of(b, params);
        listed_stitches_keep_clear(b, params, n - 1);
        footprint_stitches_keep_clear(b, params, fp, fp.pads@.len() as int);
        let rest = gerber::over_pads(b.footprints@, f, n - 1);
        let last = gerber::over_fp(fp, f, fp.pads@.len() as int);
        let all = rest + last;
        assert forall|k: int| 0 <= k < all.len() implies keeps_clear(b, params, #[trigger] all[k]) by {
            if k < rest.len() {
                assert(all[k] == rest[k]);
            } else {
                assert(all[k] == last[k - rest.len()]);
            }
        }
    }
}

/// Every via of a plan keeps its clearance from foreign copper on every
/// layer, lies inside the outline by more than the edge clearance and meets
/// a pour of its net; every stub keeps its clearance too.
pub proof fn stitches_keep_clear(b: Board, params: StitchParams, plan: StitchPlan, k: int)
    requires
        all_carried_out(plan.proposals@, stitches(b, params), params),
        0 <= k < plan.proposals@.len(),
    ensures
        ({
            let s = plan.proposals@[k];
            &&& via_fits(b, s.via.position, params.radius(), params.clearance.0 as int, s.via.net@)
            &&& ties(b, s.via.position, s.via.net@, params.clearance.0 as int)
            &&& s.stub matches Some(t) ==> stub_fits(
                b,
                t.start,
                t.end,
                t.net@,
                units::quot(t.width.0 as int, 2) + params.clearance.0,
            )
        }),
{
    listed_stitches_keep_clear(b, params, b.footprints@.len() as int);
    assert(keeps_clear(b, params, stitches(b, params)[k]));
    assert(carries_out(plan.proposals@[k], stitches(b, params)[k], params));
}

} // verus!
