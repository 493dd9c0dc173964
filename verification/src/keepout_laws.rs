//! What the design rule check finds of keepouts, detours and fab profiles.

use vstd::prelude::*;

use crate::arith;
use crate::board::{Board, CopperLayer, Keepout, Trace, Via};
use crate::drc;
use crate::drc::{DrcOptions, FabProfile};
use crate::drc_laws;
use crate::finding_laws;
use crate::geometry::{Point, Rect};
use crate::list;
use crate::pad_laws;
use crate::violation::{Finding, Severity, ViolationKind};

verus! {

/// The point is at the height of the edge, its upper end excluded, and to
/// the left of it.
pub open spec fn is_left_of(p: Point, q: Point, at: Point) -> bool {
    let (lo, hi) = if p.y.0 < q.y.0 {
        (p, q)
    } else {
        (q, p)
    };
    &&& lo.y.0 <= at.y.0 < hi.y.0
    &&& (at.x.0 - lo.x.0) * (hi.y.0 - lo.y.0) < (at.y.0 - lo.y.0) * (hi.x.0 - lo.x.0)
}

/// The point is to the left of edge `i`, which ends in corner `i`.
pub open spec fn passes_edge(poly: Seq<Point>, at: Point, i: int) -> bool {
    is_left_of(
        poly[i],
        if i == 0 {
            poly[poly.len() - 1]
        } else {
            poly[i - 1]
        },
        at,
    )
}

/// The point is inside the polygon: to the left of an odd number of edges.
pub open spec fn is_inside(poly: Seq<Point>, at: Point) -> bool {
    poly.len() >= 3 && list::how_many(|i: int| passes_edge(poly, at, i), poly.len() as int) % 2 == 1
}

proof fn crossing_is_passing(p: Point, q: Point, at: Point)
    ensures
        drc::ray_crosses(p, q, at) <==> is_left_of(p, q, at),
{
    let (px, py) = (p.x.0 as int, p.y.0 as int);
    let (qx, qy) = (q.x.0 as int, q.y.0 as int);
    let (ax, ay) = (at.x.0 as int, at.y.0 as int);
    assert((ax - px) * (qy - py) > (ay - py) * (qx - px) <==> (ax - qx) * (py - qy) < (ay - qy) * (
    px - qx)) by (nonlinear_arith);
}

proof fn odd_is_odd(poly: Seq<Point>, at: Point, n: int)
    requires
        0 <= n <= poly.len(),
    ensures
        drc::odd_crossings(poly, at, n) <==> list::how_many(
            |i: int| passes_edge(poly, at, i),
            n,
        ) % 2 == 1,
    decreases n,
{
    let p = |i: int| passes_edge(poly, at, i);
    if n > 0 {
        odd_is_odd(poly, at, n - 1);
        crossing_is_passing(poly[n - 1], drc::corner_before(poly, n - 1), at);
        assert(p(n - 1) == passes_edge(poly, at, n - 1));
        assert(list::how_many(p, n) == list::how_many(p, n - 1) + if p(n - 1) {
            1nat
        } else {
            0nat
        });
    }
}

proof fn inside_is_inside(poly: Seq<Point>, at: Point)
    ensures
        drc::inside(poly, at) <==> is_inside(poly, at),
{
    if poly.len() >= 3 {
        odd_is_odd(poly, at, poly.len() as int);
    }
}

/// A rectangle, given by its corners in turn, holds exactly the points
/// between its sides, its right and its upper side excluded.
pub proof fn rectangles_hold_their_inside(r: Rect, at: Point)
    requires
        r.wf(),
    ensures
        ({
            let a = r.min;
            let b = Point { x: r.max.x, y: r.min.y };
            let c = r.max;
            let d = Point { x: r.min.x, y: r.max.y };
            drc::inside(seq![a, b, c, d], at) <==> r.min.x.0 <= at.x.0 < r.max.x.0 && r.min.y.0
                <= at.y.0 < r.max.y.0
        }),
{
    let a = r.min;
    let b = Point { x: r.max.x, y: r.min.y };
    let c = r.max;
    let d = Point { x: r.min.x, y: r.max.y };
    let poly = seq![a, b, c, d];
    reveal_with_fuel(drc::odd_crossings, 5);
    let h = r.max.y.0 - r.min.y.0;
    let (u, v) = (at.x.0 - r.max.x.0, at.x.0 - r.min.x.0);
    let w = at.y.0 - r.min.y.0;
    crossing_is_passing(a, d, at);
    crossing_is_passing(b, a, at);
    crossing_is_passing(c, b, at);
    crossing_is_passing(d, c, at);
    assert(w * 0 == 0 && (h > 0 ==> (u * h < 0 <==> u < 0) && (v * h < 0 <==> v < 0)))
        by (nonlinear_arith);
}

/// The two points are on different sides of the line, and neither is on it.
pub open spec fn parts(c: Point, d: Point, a: Point, b: Point) -> bool {
    let s = (d.x.0 - c.x.0) * (a.y.0 - c.y.0) - (d.y.0 - c.y.0) * (a.x.0 - c.x.0);
    let t = (d.x.0 - c.x.0) * (b.y.0 - c.y.0) - (d.y.0 - c.y.0) * (b.x.0 - c.x.0);
    (s < 0 && t > 0) || (s > 0 && t < 0)
}

/// The segment cuts the edge from corner `i` to the next: each parts the
/// ends of the other.
pub open spec fn cuts_edge(poly: Seq<Point>, a: Point, b: Point, i: int) -> bool {
    let c = poly[i];
    let d = if i == poly.len() - 1 {
        poly[0]
    } else {
        poly[i + 1]
    };
    0 <= i < poly.len() && parts(a, b, c, d) && parts(c, d, a, b)
}

/// The keepout holds on the layer: it names it, or names none.
pub open spec fn holds_on(k: Keepout, layer: CopperLayer) -> bool {
    k.layers@.len() == 0 || exists|i: int| 0 <= i < k.layers@.len() && #[trigger] k.layers@[i] == layer
}

/// A trace goes through a keepout that holds on its layer: an end is inside,
/// or it cuts an edge.
pub open spec fn trace_trespasses(k: Keepout, t: Trace) -> bool {
    &&& k.polygon@.len() >= 3
    &&& holds_on(k, t.layer)
    &&& {
        ||| is_inside(k.polygon@, t.start)
        ||| is_inside(k.polygon@, t.end)
        ||| exists|i: int| #[trigger] cuts_edge(k.polygon@, t.start, t.end, i)
    }
}

/// A via is inside a keepout, on whatever layers that holds.
pub open spec fn via_trespasses(k: Keepout, v: Via) -> bool {
    is_inside(k.polygon@, v.position)
}

proof fn entering_is_trespassing(k: Keepout, t: Trace)
    requires
        k.polygon@.len() >= 3,
    ensures
        drc::applies(k, t.layer) && drc::enters(k.polygon@, t.start, t.end) <==> trace_trespasses(
            k,
            t,
        ),
{
    let poly = k.polygon@;
    inside_is_inside(poly, t.start);
    inside_is_inside(poly, t.end);
    assert forall|i: int| 0 <= i < poly.len() && drc::strictly_crossing(
        t.start,
        t.end,
        #[trigger] poly[i],
        drc::corner_after(poly, i),
    ) implies cuts_edge(poly, t.start, t.end, i) by {}
    assert forall|i: int| #[trigger] cuts_edge(poly, t.start, t.end, i) implies 0 <= i < poly.len()
        && drc::strictly_crossing(t.start, t.end, poly[i], drc::corner_after(poly, i)) by {}
    if exists|i: int| #[trigger] cuts_edge(poly, t.start, t.end, i) {
        let i = choose|i: int| #[trigger] cuts_edge(poly, t.start, t.end, i);
        assert(drc::strictly_crossing(t.start, t.end, poly[i], drc::corner_after(poly, i)));
    }
    if k.layers@.contains(t.layer) {
        let i = choose|i: int| 0 <= i < k.layers@.len() && k.layers@[i] == t.layer;
        assert(k.layers@[i] == t.layer);
    }
}

/// For each keepout the check raises an error for each trace that goes
/// through it and for each via inside it, and for nothing else.
pub proof fn trespassers_are_flagged(b: Board, opts: DrcOptions)
    ensures
        ({
            let nt = b.traces@.len() as int;
            finding_laws::exactly_pairs(
                drc::findings_of(b, opts),
                ViolationKind::KeepoutViolation,
                Severity::Error,
                b.keepouts@.len() as int,
                nt + b.vias@.len(),
                |i: int, j: int|
                    if j < nt {
                        trace_trespasses(b.keepouts@[i], b.traces@[j])
                    } else {
                        via_trespasses(b.keepouts@[i], b.vias@[j - nt])
                    },
                |i: int, j: int|
                    seq![
                        if j < nt {
                            b.traces@[j].net@
                        } else {
                            b.vias@[j - nt].net@
                        },
                        b.keepouts@[i].label@,
                    ],
            )
        }),
{
    let nt = b.traces@.len() as int;
    let nv = b.vias@.len() as int;
    let p = |i: int, j: int|
        if j < nt {
            trace_trespasses(b.keepouts@[i], b.traces@[j])
        } else {
            via_trespasses(b.keepouts@[i], b.vias@[j - nt])
        };
    let who = |i: int, j: int|
        seq![
            if j < nt {
                b.traces@[j].net@
            } else {
                b.vias@[j - nt].net@
            },
            b.keepouts@[i].label@,
        ];
    let g = drc::keepouts(b);
    let h = |i: int, j: int|
        if b.keepouts@[i].polygon@.len() < 3 {
            Seq::<Finding>::empty()
        } else {
            finding_laws::glued(
                drc::traces_keepout(b.keepouts@[i], b.traces@),
                nt,
                drc::vias_keepout(b.keepouts@[i], b.vias@),
            )(j)
        };
    drc_laws::findings_hold_parts(b, opts, ViolationKind::KeepoutViolation);
    assert forall|i: int| 0 <= i < b.keepouts@.len() implies #[trigger] g(i) == list::upto(
        |j: int| h(i, j),
        nt + nv,
    ) by {
        let k = b.keepouts@[i];
        let r = |j: int| h(i, j);
        let (f1, f2) = (drc::traces_keepout(k, b.traces@), drc::vias_keepout(k, b.vias@));
        if k.polygon@.len() < 3 {
            empty_upto(r, nt + nv);
        } else {
            finding_laws::upto_glued(f1, nt, f2, nv);
            assert(r =~= finding_laws::glued(f1, nt, f2));
        }
    }
    assert forall|i: int, j: int|
        0 <= i < b.keepouts@.len() && 0 <= j < nt + nv implies finding_laws::gives(
        #[trigger] h(i, j),
        ViolationKind::KeepoutViolation,
        Severity::Error,
        p(i, j),
        who(i, j),
    ) by {
        let k = b.keepouts@[i];
        if k.polygon@.len() >= 3 {
            if j < nt {
                entering_is_trespassing(k, b.traces@[j]);
            } else {
                inside_is_inside(k.polygon@, b.vias@[j - nt].position);
            }
        }
    }
    finding_laws::pair_findings(
        drc::findings_of(b, opts),
        ViolationKind::KeepoutViolation,
        Severity::Error,
        b.keepouts@.len() as int,
        nt + nv,
        p,
        who,
        g,
        h,
    );
}

proof fn empty_upto(g: spec_fn(int) -> Seq<Finding>, n: int)
    requires
        forall|i: int| 0 <= i < n ==> #[trigger] g(i) == Seq::<Finding>::empty(),
    ensures
        list::upto(g, n) == Seq::<Finding>::empty(),
    decreases n,
{
    if n > 0 {
        empty_upto(g, n - 1);
        assert(g(n - 1) == Seq::<Finding>::empty());
        assert(list::upto(g, n) =~= Seq::<Finding>::empty());
    }
}

/// Pad `k` of the list is on the net.
pub open spec fn on_net(b: Board, net: Seq<char>, k: int) -> bool {
    0 <= k < drc::pads_of(b).len() && drc_laws::name_of(drc::pads_of(b)[k].1.net) == Some(net)
}

/// The centre of pad `k` of the list.
pub open spec fn center(b: Board, k: int) -> Point {
    drc::pads_of(b)[k].0.center_of(drc::pads_of(b)[k].1)
}

/// The box is the smallest around the centres of the pads of the net: each
/// is in it, and one is on each side.
pub open spec fn is_spread(b: Board, net: Seq<char>, x0: int, x1: int, y0: int, y1: int) -> bool {
    &&& forall|k: int| #[trigger]
        on_net(b, net, k) ==> x0 <= center(b, k).x.0 <= x1 && y0 <= center(b, k).y.0 <= y1
    &&& exists|k: int| #[trigger] on_net(b, net, k) && center(b, k).x.0 == x0
    &&& exists|k: int| #[trigger] on_net(b, net, k) && center(b, k).x.0 == x1
    &&& exists|k: int| #[trigger] on_net(b, net, k) && center(b, k).y.0 == y0
    &&& exists|k: int| #[trigger] on_net(b, net, k) && center(b, k).y.0 == y1
}

proof fn spread_is_tight(b: Board, net: Seq<char>, n: int)
    requires
        0 <= n <= drc::pads_of(b).len(),
    ensures
        ({
            let s = drc::spread(drc::pads_of(b), net, n);
            &&& s.count == list::how_many(|k: int| on_net(b, net, k), n)
            &&& s.count >= 0
            &&& forall|k: int|
                k < n && #[trigger] on_net(b, net, k) ==> s.count > 0 && s.min_x <= center(b, k).x.0
                    <= s.max_x && s.min_y <= center(b, k).y.0 <= s.max_y
            &&& s.count > 0 ==> {
                &&& exists|k: int|
                    k < n && #[trigger] on_net(b, net, k) && center(b, k).x.0 == s.min_x
                &&& exists|k: int|
                    k < n && #[trigger] on_net(b, net, k) && center(b, k).x.0 == s.max_x
                &&& exists|k: int|
                    k < n && #[trigger] on_net(b, net, k) && center(b, k).y.0 == s.min_y
                &&& exists|k: int|
                    k < n && #[trigger] on_net(b, net, k) && center(b, k).y.0 == s.max_y
            }
        }),
    decreases n,
{
    let p = |k: int| on_net(b, net, k);
    if n > 0 {
        spread_is_tight(b, net, n - 1);
        assert(p(n - 1) == on_net(b, net, n - 1));
        assert(list::how_many(p, n) == list::how_many(p, n - 1) + if p(n - 1) {
            1nat
        } else {
            0nat
        });
    }
}

/// The length of a trace, rounded down: the largest whole number whose
/// square is no more than that of the distance of its ends.
pub open spec fn is_length(t: Trace, l: nat) -> bool {
    let d = (t.end.x.0 - t.start.x.0) * (t.end.x.0 - t.start.x.0) + (t.end.y.0 - t.start.y.0) * (
    t.end.y.0 - t.start.y.0);
    l * l <= d < (l + 1) * (l + 1)
}

/// What is summed of the wire of a net: the lengths of its traces.
pub open spec fn lengths(b: Board, net: Seq<char>) -> spec_fn(int) -> nat {
    |k: int|
        if b.traces@[k].net@ == net {
            choose|l: nat| is_length(b.traces@[k], l)
        } else {
            0
        }
}

/// The pads of the net are more than one, and its wire is longer than the
/// half perimeter of their box by the ratio, in thousandths. Boxes under a
/// micrometre do not count.
pub open spec fn takes_detour(b: Board, net: Seq<char>, ratio: int) -> bool {
    let wire = list::total(lengths(b, net), b.traces@.len() as int);
    &&& list::how_many(|k: int| on_net(b, net, k), drc::pads_of(b).len() as int) >= 2
    &&& wire > 1
    &&& exists|x0: int, x1: int, y0: int, y1: int| #[trigger]
        is_spread(b, net, x0, x1, y0, y1) && (x1 - x0) + (y1 - y0) >= 1000 && wire * 1000 > ((x1
            - x0) + (y1 - y0)) * ratio
}

proof fn wire_is_summed(b: Board, net: Seq<char>, n: int)
    requires
        0 <= n <= b.traces@.len(),
    ensures
        drc::wire(b.traces@, net, n) == list::total(lengths(b, net), n),
    decreases n,
{
    if n > 0 {
        wire_is_summed(b, net, n - 1);
        let t = b.traces@[n - 1];
        let (x, y) = (t.end.x.0 - t.start.x.0, t.end.y.0 - t.start.y.0);
        assert(x * x + y * y >= 0) by (nonlinear_arith);
        let d = (x * x + y * y) as nat;
        assert forall|l: nat| #[trigger] is_length(t, l) == arith::is_root(d, l) by {}
        root_is_length(t);
        assert(lengths(b, net)(n - 1) == if t.net@ == net {
            drc::trace_length(t) as nat
        } else {
            0
        });
    }
}

proof fn root_is_length(t: Trace)
    ensures
        (choose|l: nat| is_length(t, l)) == drc::trace_length(t),
{
    let (x, y) = (t.end.x.0 - t.start.x.0, t.end.y.0 - t.start.y.0);
    assert(x * x + y * y >= 0) by (nonlinear_arith);
    let d = (x * x + y * y) as nat;
    arith::root_exists(d);
    assert(is_length(t, arith::root(d)));
    let l = choose|l: nat| is_length(t, l);
    arith::root_is_unique(d, l);
}

proof fn detour_is_exact(b: Board, net: Seq<char>, ratio: int)
    ensures
        finding_laws::gives(
            drc::detour(b, net, ratio),
            ViolationKind::RoutingInefficient,
            Severity::Warning,
            takes_detour(b, net, ratio),
            seq![net],
        ),
{
    let n = drc::pads_of(b).len() as int;
    let s = drc::spread(drc::pads_of(b), net, n);
    let wire = list::total(lengths(b, net), b.traces@.len() as int);
    spread_is_tight(b, net, n);
    wire_is_summed(b, net, b.traces@.len() as int);
    if s.count > 0 {
        assert(is_spread(b, net, s.min_x, s.max_x, s.min_y, s.max_y));
        assert forall|x0: int, x1: int, y0: int, y1: int| #[trigger]
            is_spread(b, net, x0, x1, y0, y1) implies x0 == s.min_x && x1 == s.max_x && y0
            == s.min_y && y1 == s.max_y by {}
    }
}

/// Pad `i` is the first on its net, the net has no pour, and it takes a
/// detour.
pub open spec fn leads_detour(b: Board, i: int, ratio: int) -> bool {
    &&& drc::pads_of(b)[i].1.net matches Some(n) && takes_detour(b, n@, ratio) && !(exists|k: int|
        0 <= k < b.pours@.len() && (#[trigger] b.pours@[k]).net@ == n@) && !(exists|k: int|
        k < i && #[trigger] on_net(b, n@, k))
}

/// The check warns once of each net without a pour that takes a detour, and
/// of no other.
pub proof fn detours_are_flagged(b: Board, opts: DrcOptions)
    ensures
        finding_laws::exactly(
            drc::findings_of(b, opts),
            ViolationKind::RoutingInefficient,
            Severity::Warning,
            drc::pads_of(b).len() as int,
            |i: int| leads_detour(b, i, opts.routing_inefficient_ratio as int),
            |i: int| seq![finding_laws::name_or_nothing(drc::pads_of(b)[i].1.net)],
        ),
{
    let p = drc::pads_of(b);
    let ratio = opts.routing_inefficient_ratio as int;
    let q = |i: int| leads_detour(b, i, ratio);
    let who = |i: int| seq![finding_laws::name_or_nothing(drc::pads_of(b)[i].1.net)];
    let g = drc::detours(b, ratio);
    drc_laws::findings_hold_parts(b, opts, ViolationKind::RoutingInefficient);
    assert forall|i: int| 0 <= i < p.len() implies finding_laws::gives(
        #[trigger] g(i),
        ViolationKind::RoutingInefficient,
        Severity::Warning,
        q(i),
        who(i),
    ) by {
        if let Some(n) = p[i].1.net {
            detour_is_exact(b, n@, ratio);
            assert(drc::leads_net(p, i) <==> !(exists|k: int| k < i && #[trigger] on_net(b, n@, k)))
                by {
                if drc::leads_net(p, i) {
                    assert forall|k: int| k < i implies !#[trigger] on_net(b, n@, k) by {
                        if on_net(b, n@, k) {
                            assert(drc::net_of(p[k]) == drc::net_of(p[i]));
                        }
                    }
                } else {
                    let k = choose|k: int|
                        0 <= k < i && drc::net_of(#[trigger] p[k]) == drc::net_of(p[i]);
                    assert(on_net(b, n@, k));
                }
            }
        }
    }
    finding_laws::single_findings(
        drc::findings_of(b, opts),
        ViolationKind::RoutingInefficient,
        Severity::Warning,
        p.len() as int,
        q,
        who,
        g,
    );
}

/// The hole, the ring or the copper of the via is below the limits of the
/// profile, by more than a nanometre.
pub open spec fn via_is_below(v: Via, profile: FabProfile) -> bool {
    ||| v.drill.0 < profile.min_drill.0 - 1
    ||| v.diameter.0 - v.drill.0 < 2 * (profile.min_annular_ring.0 - 1)
    ||| v.diameter.0 < profile.min_via_diameter.0 - 1
}

/// Something of that name is below a limit of the profile: a trace, a via, a
/// pad of a footprint, or copper near the edge.
pub open spec fn is_below(b: Board, profile: FabProfile, name: Seq<char>) -> bool {
    ||| exists|i: int|
        0 <= i < b.traces@.len() && (#[trigger] b.traces@[i]).net@ == name && b.traces@[i].width.0
            < profile.min_trace_width.0 - 1
    ||| exists|i: int|
        0 <= i < b.vias@.len() && (#[trigger] b.vias@[i]).net@ == name && via_is_below(
            b.vias@[i],
            profile,
        )
    ||| exists|i: int|
        0 <= i < drc::pads_of(b).len() && (#[trigger] drc::pads_of(b)[i]).0.reference@ == name
            && finding_laws::small_hole(drc::pads_of(b)[i].1, profile.min_drill.0 as int)
    ||| b.outline is Some && drc_laws::near_edge(
        b,
        b.outline->0,
        profile.min_edge_clearance.0 as int,
        name,
    )
}

/// The outline is larger than the profile allows, by more than a nanometre.
pub open spec fn is_too_large(b: Board, profile: FabProfile) -> bool {
    b.outline matches Some(o) && (o.max.x.0 - o.min.x.0 > profile.max_board_size.0.0 + 1
        || o.max.y.0 - o.min.y.0 > profile.max_board_size.1.0 + 1)
}

/// The finding is an error that names one thing.
spec fn is_named(x: Finding, name: Seq<char>) -> bool {
    x.kind == ViolationKind::FabProfileMin && x.severity == Severity::Error && x.involved == seq![
        name,
    ]
}

proof fn profile_holds(b: Board, profile: FabProfile, x: Finding)
    ensures
        drc::fab_profile(b, profile).contains(x) <==> {
            ||| exists|i: int|
                0 <= i < b.traces@.len() && drc::profile_trace(
                    #[trigger] b.traces@[i],
                    profile,
                ).contains(x)
            ||| exists|i: int|
                0 <= i < b.vias@.len() && via_part(#[trigger] b.vias@[i], profile).contains(x)
            ||| exists|i: int|
                0 <= i < drc::pads_of(b).len() && drc::profile_pad(
                    #[trigger] drc::pads_of(b)[i],
                    profile,
                ).contains(x)
            ||| drc::profile_edges(b, profile).contains(x)
            ||| drc::profile_size(b, profile).contains(x)
        },
{
    let p = drc::pads_of(b);
    let (np, nt, nv) = (p.len() as int, b.traces@.len() as int, b.vias@.len() as int);
    let (f1, f2, f3) = (
        drc::profile_traces(b.traces@, profile),
        drc::profile_vias(b.vias@, profile),
        drc::profile_pads(p, profile),
    );
    let (a1, a2, a3) = (list::upto(f1, nt), list::upto(f2, nv), list::upto(f3, np));
    let (a4, a5) = (drc::profile_edges(b, profile), drc::profile_size(b, profile));
    drc_laws::joined_holds(a1 + a2 + a3 + a4, a5, x);
    drc_laws::joined_holds(a1 + a2 + a3, a4, x);
    drc_laws::joined_holds(a1 + a2, a3, x);
    drc_laws::joined_holds(a1, a2, x);
    list::upto_holds(f1, nt, x);
    list::upto_holds(f2, nv, x);
    list::upto_holds(f3, np, x);
    assert forall|i: int| 0 <= i < nt && drc::profile_trace(
        #[trigger] b.traces@[i],
        profile,
    ).contains(x) implies a1.contains(x) by {
        assert(f1(i).contains(x));
    }
    assert forall|i: int| 0 <= i < nv && via_part(
        #[trigger] b.vias@[i],
        profile,
    ).contains(x) implies a2.contains(x) by {
        assert(f2(i).contains(x));
    }
    assert forall|i: int| 0 <= i < np && drc::profile_pad(
        #[trigger] p[i],
        profile,
    ).contains(x) implies a3.contains(x) by {
        assert(f3(i).contains(x));
    }
    if a1.contains(x) {
        let i = choose|i: int| 0 <= i < nt && #[trigger] f1(i).contains(x);
        assert(drc::profile_trace(b.traces@[i], profile).contains(x));
    }
    if a2.contains(x) {
        let i = choose|i: int| 0 <= i < nv && #[trigger] f2(i).contains(x);
        assert(via_part(b.vias@[i], profile).contains(x));
    }
    if a3.contains(x) {
        let i = choose|i: int| 0 <= i < np && #[trigger] f3(i).contains(x);
        assert(drc::profile_pad(p[i], profile).contains(x));
    }
}

/// What a profile finds of one via.
spec fn via_part(v: Via, profile: FabProfile) -> Seq<Finding> {
    drc::profile_drill(v, profile) + drc::profile_ring(v, profile) + drc::profile_diameter(
        v,
        profile,
    )
}

proof fn via_part_is_exact(v: Via, profile: FabProfile)
    ensures
        forall|x: Finding| #[trigger]
            via_part(v, profile).contains(x) ==> via_is_below(v, profile) && is_named(x, v.net@),
        via_is_below(v, profile) ==> via_part(v, profile).len() > 0,
{
    let (d, r, c) = (
        drc::profile_drill(v, profile),
        drc::profile_ring(v, profile),
        drc::profile_diameter(v, profile),
    );
    assert forall|x: Finding| #[trigger] via_part(v, profile).contains(x) implies via_is_below(
        v,
        profile,
    ) && is_named(x, v.net@) by {
        drc_laws::joined_holds(d + r, c, x);
        drc_laws::joined_holds(d, r, x);
    }
}

proof fn below_is_found(b: Board, profile: FabProfile, name: Seq<char>) -> (x: Finding)
    requires
        pad_laws::proper(b),
        is_below(b, profile, name),
    ensures
        drc::fab_profile(b, profile).contains(x),
        is_named(x, name),
{
    let p = drc::pads_of(b);
    if exists|i: int|
        0 <= i < b.traces@.len() && (#[trigger] b.traces@[i]).net@ == name && b.traces@[i].width.0
            < profile.min_trace_width.0 - 1 {
        let i = choose|i: int|
            0 <= i < b.traces@.len() && (#[trigger] b.traces@[i]).net@ == name
                && b.traces@[i].width.0 < profile.min_trace_width.0 - 1;
        let x = drc::profile_trace(b.traces@[i], profile)[0];
        assert(drc::profile_trace(b.traces@[i], profile).contains(x));
        profile_holds(b, profile, x);
        x
    } else if exists|i: int|
        0 <= i < b.vias@.len() && (#[trigger] b.vias@[i]).net@ == name && via_is_below(
            b.vias@[i],
            profile,
        ) {
        let i = choose|i: int|
            0 <= i < b.vias@.len() && (#[trigger] b.vias@[i]).net@ == name && via_is_below(
                b.vias@[i],
                profile,
            );
        via_part_is_exact(b.vias@[i], profile);
        let x = via_part(b.vias@[i], profile)[0];
        assert(via_part(b.vias@[i], profile).contains(x));
        profile_holds(b, profile, x);
        x
    } else if exists|i: int|
        0 <= i < p.len() && (#[trigger] p[i]).0.reference@ == name && finding_laws::small_hole(
            p[i].1,
            profile.min_drill.0 as int,
        ) {
        let i = choose|i: int|
            0 <= i < p.len() && (#[trigger] p[i]).0.reference@ == name && finding_laws::small_hole(
                p[i].1,
                profile.min_drill.0 as int,
            );
        let x = drc::profile_pad(p[i], profile)[0];
        assert(drc::profile_pad(p[i], profile).contains(x));
        profile_holds(b, profile, x);
        x
    } else {
        let x = drc_laws::near_edge_is_noted(
            b,
            b.outline->0,
            profile.min_edge_clearance.0 as int,
            Some(profile.name@),
            name,
        );
        profile_holds(b, profile, x);
        x
    }
}

proof fn found_is_below(b: Board, profile: FabProfile, x: Finding)
    requires
        pad_laws::proper(b),
        drc::fab_profile(b, profile).contains(x),
    ensures
        (x.involved.len() == 1 && is_named(x, x.involved[0]) && is_below(
            b,
            profile,
            x.involved[0],
        )) || (x.severity == Severity::Warning && x.involved.len() == 0 && is_too_large(
            b,
            profile,
        )),
{
    let p = drc::pads_of(b);
    profile_holds(b, profile, x);
    if drc::profile_edges(b, profile).contains(x) {
        drc_laws::edge_finding_is_near(
            b,
            b.outline->0,
            profile.min_edge_clearance.0 as int,
            Some(profile.name@),
            x,
        );
    } else if drc::profile_size(b, profile).contains(x) {
    } else if exists|i: int|
        0 <= i < b.vias@.len() && via_part(#[trigger] b.vias@[i], profile).contains(x) {
        let i = choose|i: int|
            0 <= i < b.vias@.len() && via_part(#[trigger] b.vias@[i], profile).contains(x);
        via_part_is_exact(b.vias@[i], profile);
    } else if exists|i: int|
        0 <= i < b.traces@.len() && drc::profile_trace(#[trigger] b.traces@[i], profile).contains(
            x,
        ) {
        let i = choose|i: int|
            0 <= i < b.traces@.len() && drc::profile_trace(
                #[trigger] b.traces@[i],
                profile,
            ).contains(x);
        assert(is_below(b, profile, b.traces@[i].net@));
    } else {
        let i = choose|i: int|
            0 <= i < p.len() && drc::profile_pad(#[trigger] p[i], profile).contains(x);
        assert(is_below(b, profile, p[i].0.reference@));
    }
}

/// With a fab profile the check raises an error for each thing below its
/// limits, and a warning for a board that is too large. Without one it does
/// neither.
pub proof fn fab_limits_are_flagged(b: Board, opts: DrcOptions, name: Seq<char>)
    requires
        pad_laws::proper(b),
    ensures
        drc_laws::flagged(
            drc::findings_of(b, opts),
            ViolationKind::FabProfileMin,
            Severity::Error,
            seq![name],
        ) <==> opts.fab_profile is Some && is_below(b, opts.fab_profile->0, name),
        drc_laws::flagged(
            drc::findings_of(b, opts),
            ViolationKind::FabProfileMin,
            Severity::Warning,
            Seq::empty(),
        ) <==> opts.fab_profile is Some && is_too_large(b, opts.fab_profile->0),
{
    let kind = ViolationKind::FabProfileMin;
    let none = Seq::<Seq<char>>::empty();
    if drc_laws::flagged(drc::findings_of(b, opts), kind, Severity::Error, seq![name]) {
        let x = drc_laws::flagged_is_found(b, opts, kind, Severity::Error, seq![name]);
        found_is_below(b, opts.fab_profile->0, x);
        assert(x.involved[0] == name);
    }
    if drc_laws::flagged(drc::findings_of(b, opts), kind, Severity::Warning, none) {
        let x = drc_laws::flagged_is_found(b, opts, kind, Severity::Warning, none);
        found_is_below(b, opts.fab_profile->0, x);
    }
    if let Some(profile) = opts.fab_profile {
        if is_below(b, profile, name) {
            let x = below_is_found(b, profile, name);
            drc_laws::found_is_flagged(b, opts, x);
        }
        if is_too_large(b, profile) {
            let x = drc::profile_size(b, profile)[0];
            assert(drc::profile_size(b, profile).contains(x));
            profile_holds(b, profile, x);
            drc_laws::found_is_flagged(b, opts, x);
        }
    }
}

} // verus!
