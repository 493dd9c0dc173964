//! How far the spokes of a pour and the stubs of a stitch stay from the
//! copper of other nets.

use vstd::prelude::*;

use crate::board::{Board, CopperLayer, Footprint, Id, Pad, ThermalRelief, Trace, Via};
use crate::drc_laws;
use crate::geometry::Point;
use crate::gerber;
use crate::gerber::{Aperture, Ink};
use crate::list;
use crate::nearness;
use crate::pad_laws;
use crate::rotation::COORD_MAX;
use crate::stitch;
use crate::stitch::{StitchParams, StitchPlan};
use crate::thermal;
use crate::thermal::Guard;
use crate::units;

verus! {

/// The pad has copper on the layer, is not of the net, and some point of it
/// is nearer to the segment than `r`.
pub open spec fn pad_bars(
    fp: Footprint,
    pad: Pad,
    layer: CopperLayer,
    net: Seq<char>,
    a: Point,
    e: Point,
    r: int,
) -> bool {
    &&& drc_laws::pad_is_on(pad, layer)
    &&& drc_laws::name_of(pad.net) != Some(net)
    &&& nearness::closer_rect(a, e, fp.rect_of(pad), 1, r * r)
}

/// The trace is live, on the layer and not of the net, and its centre line
/// is nearer to the segment than `r` and half its width.
pub open spec fn trace_bars(
    b: Board,
    t: Trace,
    layer: CopperLayer,
    net: Seq<char>,
    a: Point,
    e: Point,
    r: int,
) -> bool {
    let l = r + t.width.0 / 2;
    &&& t.layer == layer
    &&& t.net@ != net
    &&& !b.orphan_trace(t.id)
    &&& nearness::closer(a, e, t.start, t.end, 1, l * l)
}

/// The via is live and not of the net, and its centre is nearer to the
/// segment than `r` and half its diameter.
pub open spec fn via_bars(
    b: Board,
    v: Via,
    net: Seq<char>,
    a: Point,
    e: Point,
    r: int,
) -> bool {
    let l = r + v.diameter.0 / 2;
    &&& v.net@ != net
    &&& !b.orphan_via(v.id)
    &&& exists|n: int, d: int| #[trigger]
        nearness::is_share(n, d) && nearness::from_point2(a, e, v.position, n, d) < (l * l) * (d
            * d)
}

/// No foreign copper on the layer is within `r` of the segment.
pub open spec fn is_free(
    b: Board,
    layer: CopperLayer,
    net: Seq<char>,
    a: Point,
    e: Point,
    r: int,
) -> bool {
    &&& forall|i: int, j: int|
        0 <= i < b.footprints@.len() && 0 <= j < b.footprints@[i].pads@.len()
            ==> !#[trigger] pad_bars(
            b.footprints@[i],
            b.footprints@[i].pads@[j],
            layer,
            net,
            a,
            e,
            r,
        )
    &&& forall|k: int|
        0 <= k < b.traces@.len() ==> !#[trigger] trace_bars(b, b.traces@[k], layer, net, a, e, r)
    &&& forall|k: int| 0 <= k < b.vias@.len() ==> !#[trigger] via_bars(b, b.vias@[k], net, a, e, r)
}

/// The guard watches the layer for the net and drops what is dangling.
pub open spec fn watches(g: Guard, b: Board, layer: CopperLayer, net: Seq<char>, r: int) -> bool {
    &&& g.base == r
    &&& g.net == net
    &&& g.layer == layer
    &&& forall|id: Id| #[trigger] g.dropped_traces.contains(id) <==> b.orphan_trace(id)
    &&& forall|id: Id| #[trigger] g.dropped_vias.contains(id) <==> b.orphan_via(id)
}

proof fn pad_guard_is_distance(g: Guard, b: Board, i: int, j: int, a: Point, e: Point)
    requires
        pad_laws::solid(b),
        0 <= i < b.footprints@.len(),
        0 <= j < b.footprints@[i].pads@.len(),
        a.within(64 * COORD_MAX),
        e.within(64 * COORD_MAX),
    ensures
        g.pad_blocks(b.footprints@[i], b.footprints@[i].pads@[j], a, e) <==> pad_bars(
            b.footprints@[i],
            b.footprints@[i].pads@[j],
            g.layer,
            g.net,
            a,
            e,
            g.base,
        ),
{
    let fp = b.footprints@[i];
    let pad = fp.pads@[j];
    assert(fp.in_range());
    assert(pad.in_range());
    assert(pad_laws::is_sized(pad));
    pad_laws::pad_copper_is_centered(fp, pad);
    nearness::rect_measure_is_distance(thermal::floor(), a, e, fp.rect_of(pad), g.base * g.base);
}

proof fn via_guard_is_distance(
    g: Guard,
    b: Board,
    layer: CopperLayer,
    net: Seq<char>,
    r: int,
    v: Via,
    a: Point,
    e: Point,
)
    requires
        watches(g, b, layer, net, r),
        v.diameter.0 >= 0,
    ensures
        g.via_blocks(v, a, e) <==> via_bars(b, v, net, a, e, r),
{
    let f = thermal::floor();
    let l = r + v.diameter.0 / 2;
    assert(units::quot(v.diameter.0 as int, 2) == v.diameter.0 / 2);
    if thermal::pt_measure(f, a, e, v.position) < l * l {
        let (n, d) = nearness::measure_bounds_point(f, a, e, v.position, l * l);
        assert(nearness::is_share(n, d));
    }
    if exists|n: int, d: int| #[trigger]
        nearness::is_share(n, d) && nearness::from_point2(a, e, v.position, n, d) < (l * l) * (d
            * d) {
        let (n, d) = choose|n: int, d: int| #[trigger]
            nearness::is_share(n, d) && nearness::from_point2(a, e, v.position, n, d) < (l * l) * (d
                * d);
        nearness::point_bounds_measure(f, a, e, v.position, n, d, l * l);
    }
}

/// A segment clears a guard exactly if no foreign copper on its layer is
/// within its distance.
pub proof fn clear_segments_are_free(
    g: Guard,
    b: Board,
    layer: CopperLayer,
    net: Seq<char>,
    r: int,
    a: Point,
    e: Point,
)
    requires
        pad_laws::solid(b),
        watches(g, b, layer, net, r),
        a.within(64 * COORD_MAX),
        e.within(64 * COORD_MAX),
    ensures
        g.clears(b, a, e) <==> is_free(b, layer, net, a, e, r),
{
    assert forall|k: int| 0 <= k < b.traces@.len() implies (#[trigger] trace_bars(
        b,
        b.traces@[k],
        layer,
        net,
        a,
        e,
        r,
    ) <==> g.trace_blocks(b.traces@[k], a, e)) by {
        let t = b.traces@[k];
        let l = r + t.width.0 / 2;
        assert(units::quot(t.width.0 as int, 2) == t.width.0 / 2);
        nearness::measure_is_distance(thermal::floor(), a, e, t.start, t.end, l * l);
    }
    assert forall|k: int| 0 <= k < b.vias@.len() implies (#[trigger] via_bars(
        b,
        b.vias@[k],
        net,
        a,
        e,
        r,
    ) <==> g.via_blocks(b.vias@[k], a, e)) by {
        via_guard_is_distance(g, b, layer, net, r, b.vias@[k], a, e);
    }
    if g.clears(b, a, e) {
        assert forall|i: int, j: int|
            0 <= i < b.footprints@.len() && 0 <= j < b.footprints@[i].pads@.len() implies !#[trigger] pad_bars(
            b.footprints@[i],
            b.footprints@[i].pads@[j],
            layer,
            net,
            a,
            e,
            r,
        ) by {
            pad_guard_is_distance(g, b, i, j, a, e);
            assert(!g.fp_blocks(b.footprints@[i], a, e));
        }
        assert forall|k: int| 0 <= k < b.traces@.len() implies !#[trigger] trace_bars(
            b,
            b.traces@[k],
            layer,
            net,
            a,
            e,
            r,
        ) by {
            assert(!g.trace_blocks(b.traces@[k], a, e));
        }
        assert forall|k: int| 0 <= k < b.vias@.len() implies !#[trigger] via_bars(
            b,
            b.vias@[k],
            net,
            a,
            e,
            r,
        ) by {
            assert(!g.via_blocks(b.vias@[k], a, e));
        }
    }
    if is_free(b, layer, net, a, e, r) {
        assert forall|i: int| 0 <= i < b.footprints@.len() implies !#[trigger] g.fp_blocks(
            b.footprints@[i],
            a,
            e,
        ) by {
            let fp = b.footprints@[i];
            assert forall|j: int| 0 <= j < fp.pads@.len() implies !#[trigger] g.pad_blocks(
                fp,
                fp.pads@[j],
                a,
                e,
            ) by {
                pad_guard_is_distance(g, b, i, j, a, e);
                assert(!pad_bars(
                    b.footprints@[i],
                    b.footprints@[i].pads@[j],
                    layer,
                    net,
                    a,
                    e,
                    r,
                ));
            }
        }
        assert forall|k: int| 0 <= k < b.traces@.len() implies !#[trigger] g.trace_blocks(
            b.traces@[k],
            a,
            e,
        ) by {
            assert(!trace_bars(b, b.traces@[k], layer, net, a, e, r));
        }
        assert forall|k: int| 0 <= k < b.vias@.len() implies !#[trigger] g.via_blocks(
            b.vias@[k],
            a,
            e,
        ) by {
            assert(!via_bars(b, b.vias@[k], net, a, e, r));
        }
    }
}

/// Every stub of a plan stays away from foreign copper by half its width and
/// the clearance, on each layer on which its net is poured.
pub proof fn planned_stubs_keep_their_distance(
    b: Board,
    params: StitchParams,
    plan: StitchPlan,
    k: int,
    m: int,
)
    requires
        pad_laws::solid(b),
        params.in_range(),
        stitch::all_carried_out(plan.proposals@, stitch::stitches(b, params), params),
        0 <= k < plan.proposals@.len(),
        plan.proposals@[k].stub is Some,
        plan.proposals@[k].stub->0.start.within(64 * COORD_MAX),
        0 <= m < b.pours@.len(),
        b.pours@[m].net@ == plan.proposals@[k].stub->0.net@,
    ensures
        ({
            let t = plan.proposals@[k].stub->0;
            &&& t.width == params.stub_width
            &&& is_free(
                b,
                b.pours@[m].layer,
                t.net@,
                t.start,
                t.end,
                params.stub_width.0 / 2 + params.clearance.0,
            )
        }),
{
    stitch::stitches_keep_clear(b, params, plan, k);
    assert(stitch::carries_out(plan.proposals@[k], stitch::stitches(b, params)[k], params));
    let t = plan.proposals@[k].stub->0;
    let r = params.stub_width.0 / 2 + params.clearance.0;
    let layer = b.pours@[m].layer;
    let g = stitch::stub_guard(b, layer, t.net@, r);
    assert(plan.proposals@[k].via.position == t.end);
    assert(t.end.within(COORD_MAX as int));
    assert(g.clears(b, t.start, t.end));
    clear_segments_are_free(g, b, layer, t.net@, r, t.start, t.end);
}

/// Every spoke on a poured layer is drawn with the spoke width of the pad's
/// pour and stays away from the copper of other nets by half that width and
/// 0.2 mm.
pub proof fn drawn_spokes_keep_their_distance(b: Board, layer: CopperLayer, k: int) -> (r: (
    int,
    int,
))
    requires
        pad_laws::solid(b),
        0 <= k < gerber::copper(b, layer).spokes.len(),
    ensures
        0 <= r.0 < b.footprints@.len(),
        0 <= r.1 < b.footprints@[r.0].pads@.len(),
        ({
            let pad = b.footprints@[r.0].pads@[r.1];
            &&& drc_laws::pad_is_on(pad, layer)
            &&& gerber::pad_relief(b, layer, pad) matches Some(
                ThermalRelief::Spokes4 { spoke_width, gap },
            ) && gerber::copper(b, layer).spokes[k] matches Ink::Draw(ap, p, q) && ap == (
            Aperture::Round { d: spoke_width }) && (p.within(64 * COORD_MAX) && q.within(
                64 * COORD_MAX,
            ) && spoke_width.0 >= 0 ==> is_free(
                b,
                layer,
                pad.net->0@,
                p,
                q,
                spoke_width.0 / 2 + 200_000,
            ))
        }),
{
    reveal(gerber::only_clear_spokes);
    gerber::drawn_spokes_are_clear(b, layer);
    let ink = gerber::copper(b, layer).spokes[k];
    assert(gerber::is_clear_spoke(b, layer, ink));
    let (i, j) = choose|i: int, j: int| #[trigger] gerber::clear_spoke(b, layer, ink, i, j);
    let pad = b.footprints@[i].pads@[j];
    if let Some(ThermalRelief::Spokes4 { spoke_width, gap }) = gerber::pad_relief(b, layer, pad) {
        if let Ink::Draw(ap, p, q) = ink {
            let net = pad.net->0@;
            let g = gerber::pour_guard(b, layer, net, units::quot(spoke_width.0 as int, 2));
            if p.within(64 * COORD_MAX) && q.within(64 * COORD_MAX) && spoke_width.0 >= 0 {
                clear_segments_are_free(
                    g,
                    b,
                    layer,
                    net,
                    spoke_width.0 / 2 + 200_000,
                    p,
                    q,
                );
            }
        }
    }
    (i, j)
}

/// The four spokes to the sides of a pad, west, east, south and north: from
/// 0.05 mm inside its edge to `reach` outside.
pub open spec fn side_spoke(c: Point, hw: int, hh: int, reach: int, i: int) -> (Point, Point) {
    let (x, y) = (c.x.0 as int, c.y.0 as int);
    if i == 0 {
        (thermal::pt(x - hw - reach, y), thermal::pt(x - hw + 50_000, y))
    } else if i == 1 {
        (thermal::pt(x + hw - 50_000, y), thermal::pt(x + hw + reach, y))
    } else if i == 2 {
        (thermal::pt(x, y - hh - reach), thermal::pt(x, y - hh + 50_000))
    } else {
        (thermal::pt(x, y + hh - 50_000), thermal::pt(x, y + hh + reach))
    }
}

/// The four spokes from the corners of a pad: from 0.05 mm inside the corner
/// to `reach` outside, both ways.
pub open spec fn corner_spoke(c: Point, hw: int, hh: int, reach: int, i: int) -> (Point, Point) {
    let (sx, sy) = (
        if i == 0 || i == 2 {
            -1int
        } else {
            1
        },
        if i == 0 || i == 1 {
            -1int
        } else {
            1
        },
    );
    (
        thermal::pt(c.x.0 + sx * (hw - 50_000), c.y.0 + sy * (hh - 50_000)),
        thermal::pt(c.x.0 + sx * (hw + reach), c.y.0 + sy * (hh + reach)),
    )
}

/// Some of the four spokes to the sides are clear.
pub open spec fn some_side(g: Guard, b: Board, c: Point, hw: int, hh: int, reach: int) -> bool {
    exists|i: int| #[trigger] is_clear_side(g, b, c, hw, hh, reach, i)
}

pub open spec fn is_clear_side(
    g: Guard,
    b: Board,
    c: Point,
    hw: int,
    hh: int,
    reach: int,
    i: int,
) -> bool {
    0 <= i < 4 && g.clears(
        b,
        side_spoke(c, hw, hh, reach, i).0,
        side_spoke(c, hw, hh, reach, i).1,
    )
}

/// Some of the four spokes from the corners are clear.
pub open spec fn some_corner(g: Guard, b: Board, c: Point, hw: int, hh: int, reach: int) -> bool {
    exists|i: int| #[trigger] is_clear_corner(g, b, c, hw, hh, reach, i)
}

pub open spec fn is_clear_corner(
    g: Guard,
    b: Board,
    c: Point,
    hw: int,
    hh: int,
    reach: int,
    i: int,
) -> bool {
    0 <= i < 4 && g.clears(
        b,
        corner_spoke(c, hw, hh, reach, i).0,
        corner_spoke(c, hw, hh, reach, i).1,
    )
}

proof fn spokes_are_listed(c: Point, hw: int, hh: int, reach: int, i: int)
    requires
        0 <= i < 4,
    ensures
        thermal::ortho(c, hw, hh, reach)[i] == side_spoke(c, hw, hh, reach, i),
        thermal::diagonal(c, hw, hh, reach)[i] == corner_spoke(c, hw, hh, reach, i),
{
}

/// The spokes of a pad are the clear ones of the four to its sides. Only
/// where none of these is clear are they the clear ones from its corners,
/// and only where none of these is clear either is there at most one, in
/// another direction.
pub proof fn sides_come_before_corners(
    g: Guard,
    b: Board,
    c: Point,
    hw: int,
    hh: int,
    reach: int,
    s: (Point, Point),
)
    ensures
        ({
            let r = thermal::spokes(g, b, c, hw, hh, reach);
            if some_side(g, b, c, hw, hh, reach) {
                r.contains(s) <==> exists|i: int| #[trigger]
                    is_clear_side(g, b, c, hw, hh, reach, i) && s == side_spoke(c, hw, hh, reach, i)
            } else if some_corner(g, b, c, hw, hh, reach) {
                r.contains(s) <==> exists|i: int| #[trigger]
                    is_clear_corner(g, b, c, hw, hh, reach, i) && s == corner_spoke(
                        c,
                        hw,
                        hh,
                        reach,
                        i,
                    )
            } else {
                r.len() <= 1
            }
        }),
{
    let p = g.pass(b);
    let (os, ds) = (thermal::ortho(c, hw, hh, reach), thermal::diagonal(c, hw, hh, reach));
    let (o, d) = (os.filter(p), ds.filter(p));
    list::filter_sound(os, p);
    list::filter_sound(ds, p);
    assert forall|i: int| 0 <= i < 4 implies #[trigger] is_clear_side(g, b, c, hw, hh, reach, i)
        == p(os[i]) && is_clear_corner(g, b, c, hw, hh, reach, i) == p(ds[i]) by {
        spokes_are_listed(c, hw, hh, reach, i);
    }
    assert forall|i: int| #[trigger] is_clear_side(g, b, c, hw, hh, reach, i) implies o.contains(
        side_spoke(c, hw, hh, reach, i),
    ) by {
        spokes_are_listed(c, hw, hh, reach, i);
        list::filter_complete(os, p, i);
    }
    assert forall|i: int| #[trigger] is_clear_corner(
        g,
        b,
        c,
        hw,
        hh,
        reach,
        i,
    ) implies d.contains(corner_spoke(c, hw, hh, reach, i)) by {
        spokes_are_listed(c, hw, hh, reach, i);
        assert(is_clear_side(g, b, c, hw, hh, reach, i) == p(os[i]));
        list::filter_complete(ds, p, i);
    }
    assert forall|x: (Point, Point)| #[trigger] o.contains(x) implies exists|i: int| #[trigger]
        is_clear_side(g, b, c, hw, hh, reach, i) && x == side_spoke(c, hw, hh, reach, i) by {
        let k = choose|k: int| 0 <= k < o.len() && o[k] == x;
        assert(p(o[k]) && os.contains(o[k]));
        let i = choose|i: int| 0 <= i < os.len() && os[i] == x;
        spokes_are_listed(c, hw, hh, reach, i);
        assert(is_clear_side(g, b, c, hw, hh, reach, i));
    }
    assert forall|x: (Point, Point)| #[trigger] d.contains(x) implies exists|i: int| #[trigger]
        is_clear_corner(g, b, c, hw, hh, reach, i) && x == corner_spoke(c, hw, hh, reach, i) by {
        let k = choose|k: int| 0 <= k < d.len() && d[k] == x;
        assert(p(d[k]) && ds.contains(d[k]));
        let i = choose|i: int| 0 <= i < ds.len() && ds[i] == x;
        spokes_are_listed(c, hw, hh, reach, i);
        assert(is_clear_side(g, b, c, hw, hh, reach, i) == p(os[i]));
        assert(is_clear_corner(g, b, c, hw, hh, reach, i));
    }
    if o.len() > 0 {
        assert(o.contains(o[0]));
    }
    if d.len() > 0 {
        assert(d.contains(d[0]));
    }
}

} // verus!
