//! What the design rule check finds, in terms of the board: for each kind of
//! finding, when there is one and whom it names.

use vstd::prelude::*;

use crate::board::{Board, CopperLayer, Footprint, Pad, Trace, Via};
use crate::continuity;
use crate::drc;
use crate::drc::{DrcOptions, FabProfile};
use crate::geometry::{Point, Rect};
use crate::list;
use crate::nearness;
use crate::pad_laws;
use crate::rotation::COORD_MAX;
use crate::violation::{Finding, Severity, ViolationKind};

verus! {

/// The list holds a finding of that kind and severity that names exactly
/// those.
pub open spec fn flagged(
    f: Seq<Finding>,
    kind: ViolationKind,
    severity: Severity,
    involved: Seq<Seq<char>>,
) -> bool {
    exists|k: int|
        0 <= k < f.len() && (#[trigger] f[k]).kind == kind && f[k].severity == severity
            && f[k].involved == involved
}

/// How many findings are of the kind.
pub open spec fn tally_of(f: Seq<Finding>, kind: ViolationKind) -> nat
    decreases f.len(),
{
    if f.len() == 0 {
        0
    } else {
        tally_of(f.drop_last(), kind) + if f.last().kind == kind {
            1nat
        } else {
            0nat
        }
    }
}

pub proof fn tally_joined(a: Seq<Finding>, b: Seq<Finding>, kind: ViolationKind)
    ensures
        tally_of(a + b, kind) == tally_of(a, kind) + tally_of(b, kind),
    decreases b.len(),
{
    if b.len() == 0 {
        assert(a + b =~= a);
    } else {
        assert((a + b).drop_last() =~= a + b.drop_last());
        assert((a + b).last() == b.last());
        tally_joined(a, b.drop_last(), kind);
    }
}

pub proof fn tally_none(f: Seq<Finding>, kind: ViolationKind)
    requires
        forall|x: Finding| #[trigger] f.contains(x) ==> x.kind != kind,
    ensures
        tally_of(f, kind) == 0,
    decreases f.len(),
{
    if f.len() > 0 {
        let g = f.drop_last();
        assert(f.contains(f[f.len() - 1]));
        assert forall|x: Finding| #[trigger] g.contains(x) implies x.kind != kind by {
            let k = choose|k: int| 0 <= k < g.len() && g[k] == x;
            assert(f[k] == x);
            assert(f.contains(x));
        }
        tally_none(g, kind);
    }
}

/// The name of a net that may be missing.
pub open spec fn name_of(net: Option<String>) -> Option<Seq<char>> {
    match net {
        Some(n) => Some(n@),
        None => None,
    }
}

/// The pad has copper on the layer: a plated hole has it on all.
pub open spec fn pad_is_on(pad: Pad, layer: CopperLayer) -> bool {
    pad.drill is Some || pad.layer == layer
}

/// The two pads have copper on one layer.
pub open spec fn pads_meet_on(a: Pad, b: Pad, layer: CopperLayer) -> bool {
    pad_is_on(a, layer) && pad_is_on(b, layer)
}

pub proof fn joined_holds<T>(a: Seq<T>, b: Seq<T>, x: T)
    ensures
        (a + b).contains(x) <==> a.contains(x) || b.contains(x),
{
    if a.contains(x) {
        let k = choose|k: int| 0 <= k < a.len() && a[k] == x;
        assert((a + b)[k] == x);
    }
    if b.contains(x) {
        let k = choose|k: int| 0 <= k < b.len() && b[k] == x;
        assert((a + b)[a.len() + k] == x);
    }
    if (a + b).contains(x) {
        let k = choose|k: int| 0 <= k < (a + b).len() && (a + b)[k] == x;
        if k < a.len() {
            assert(a[k] == x);
        } else {
            assert(b[k - a.len()] == x);
        }
    }
}

/// The part of the check that finds a kind.
pub open spec fn part(b: Board, opts: DrcOptions, kind: ViolationKind) -> Seq<Finding> {
    let p = drc::pads_of(b);
    let n = p.len() as int;
    let nt = b.traces@.len() as int;
    match kind {
        ViolationKind::PadPadClearance => list::upto(drc::pads_clear(p, opts), n),
        ViolationKind::TraceTraceClearance => list::upto(drc::traces_clear(b.traces@, opts), nt),
        ViolationKind::TracePadClearance => list::upto(drc::traces_clear_pads(b, opts), nt),
        ViolationKind::EdgeClearance => match b.outline {
            Some(o) => drc::edges(b, o, opts.edge_clearance.0 as int, None),
            None => Seq::empty(),
        },
        ViolationKind::UnconnectedPad => list::upto(drc::unconnected(b), n),
        ViolationKind::SmallComponentDangling => list::upto(
            drc::small_dangling(b),
            b.footprints@.len() as int,
        ),
        ViolationKind::NetSplit => continuity::continuity(b),
        ViolationKind::NetShort => continuity::continuity(b),
        ViolationKind::NarrowTrace => list::upto(
            drc::narrow_traces(b.traces@, opts.min_trace_width.0 as int),
            nt,
        ),
        ViolationKind::SmallDrill => drc::small_drills(b, opts.min_drill.0 as int),
        ViolationKind::RoutingInefficient => list::upto(
            drc::detours(b, opts.routing_inefficient_ratio as int),
            n,
        ),
        ViolationKind::BodyOverlap => drc::body_overlaps(b, opts),
        ViolationKind::BodyOffBoard => match b.outline {
            Some(o) => drc::off_board(b, o, opts),
            None => Seq::empty(),
        },
        ViolationKind::KeepoutViolation => list::upto(drc::keepouts(b), b.keepouts@.len() as int),
        ViolationKind::ImpedanceMismatch => list::upto(
            drc::impedances(opts.impedances@),
            opts.impedances@.len() as int,
        ),
        ViolationKind::FabProfileMin => match opts.fab_profile {
            Some(profile) => drc::fab_profile(b, profile),
            None => Seq::empty(),
        },
    }
}

proof fn edges_kind(b: Board, o: Rect, clr: int, by: Option<Seq<char>>, x: Finding)
    requires
        drc::edges(b, o, clr, by).contains(x),
    ensures
        x.kind == drc::edge_kind(by),
{
    let p = drc::pads_of(b);
    let e1 = list::upto(drc::pads_edge(p, o, clr, by), p.len() as int);
    let e2 = list::upto(drc::traces_edge(b.traces@, o, clr, by), b.traces@.len() as int);
    let e3 = list::upto(drc::vias_edge(b.vias@, o, clr, by), b.vias@.len() as int);
    joined_holds(e1 + e2, e3, x);
    joined_holds(e1, e2, x);
    list::upto_holds(drc::pads_edge(p, o, clr, by), p.len() as int, x);
    list::upto_holds(drc::traces_edge(b.traces@, o, clr, by), b.traces@.len() as int, x);
    list::upto_holds(drc::vias_edge(b.vias@, o, clr, by), b.vias@.len() as int, x);
}

proof fn drills_kind(b: Board, min: int, x: Finding)
    requires
        drc::small_drills(b, min).contains(x),
    ensures
        x.kind == ViolationKind::SmallDrill,
{
    let p = drc::pads_of(b);
    joined_holds(
        list::upto(drc::small_via_drills(b.vias@, min), b.vias@.len() as int),
        list::upto(drc::small_pad_drills(p, min), p.len() as int),
        x,
    );
    list::upto_holds(drc::small_via_drills(b.vias@, min), b.vias@.len() as int, x);
    list::upto_holds(drc::small_pad_drills(p, min), p.len() as int, x);
}

proof fn continuity_kind(b: Board, x: Finding)
    requires
        continuity::continuity(b).contains(x),
    ensures
        x.kind == ViolationKind::NetSplit || x.kind == ViolationKind::NetShort,
{
    let p = continuity::copper(b);
    let n = p.len() as int;
    joined_holds(list::upto(continuity::splits(p), n), list::upto(continuity::shorts(p), n), x);
    list::upto_holds(continuity::splits(p), n, x);
    list::upto_holds(continuity::shorts(p), n, x);
    if list::upto(continuity::shorts(p), n).contains(x) {
        let i = choose|i: int| 0 <= i < n && #[trigger] continuity::shorts(p)(i).contains(x);
        list::upto_holds(continuity::shorts_from(p, i), n, x);
    }
}

proof fn keepouts_kind(b: Board, x: Finding)
    requires
        list::upto(drc::keepouts(b), b.keepouts@.len() as int).contains(x),
    ensures
        x.kind == ViolationKind::KeepoutViolation,
{
    list::upto_holds(drc::keepouts(b), b.keepouts@.len() as int, x);
    let i = choose|i: int| 0 <= i < b.keepouts@.len() && #[trigger] drc::keepouts(b)(i).contains(x);
    let k = b.keepouts@[i];
    let t = list::upto(drc::traces_keepout(k, b.traces@), b.traces@.len() as int);
    let v = list::upto(drc::vias_keepout(k, b.vias@), b.vias@.len() as int);
    joined_holds(t, v, x);
    list::upto_holds(drc::traces_keepout(k, b.traces@), b.traces@.len() as int, x);
    list::upto_holds(drc::vias_keepout(k, b.vias@), b.vias@.len() as int, x);
}

proof fn profile_kind(b: Board, profile: FabProfile, x: Finding)
    requires
        drc::fab_profile(b, profile).contains(x),
    ensures
        x.kind == ViolationKind::FabProfileMin,
{
    let p = drc::pads_of(b);
    let a1 = list::upto(drc::profile_traces(b.traces@, profile), b.traces@.len() as int);
    let a2 = list::upto(drc::profile_vias(b.vias@, profile), b.vias@.len() as int);
    let a3 = list::upto(drc::profile_pads(p, profile), p.len() as int);
    let a4 = drc::profile_edges(b, profile);
    let a5 = drc::profile_size(b, profile);
    joined_holds(a1 + a2 + a3 + a4, a5, x);
    joined_holds(a1 + a2 + a3, a4, x);
    joined_holds(a1 + a2, a3, x);
    joined_holds(a1, a2, x);
    list::upto_holds(drc::profile_traces(b.traces@, profile), b.traces@.len() as int, x);
    list::upto_holds(drc::profile_vias(b.vias@, profile), b.vias@.len() as int, x);
    list::upto_holds(drc::profile_pads(p, profile), p.len() as int, x);
    if a2.contains(x) {
        let i = choose|i: int|
            0 <= i < b.vias@.len() && #[trigger] drc::profile_vias(b.vias@, profile)(i).contains(x);
        let v = b.vias@[i];
        joined_holds(
            drc::profile_drill(v, profile) + drc::profile_ring(v, profile),
            drc::profile_diameter(v, profile),
            x,
        );
        joined_holds(drc::profile_drill(v, profile), drc::profile_ring(v, profile), x);
    }
    if a4.contains(x) {
        edges_kind(
            b,
            b.outline->0,
            profile.min_edge_clearance.0 as int,
            Some(profile.name@),
            x,
        );
    }
}

proof fn pairs_kind(b: Board, opts: DrcOptions, x: Finding)
    ensures
        part(b, opts, ViolationKind::PadPadClearance).contains(x) ==> x.kind
            == ViolationKind::PadPadClearance,
        part(b, opts, ViolationKind::TraceTraceClearance).contains(x) ==> x.kind
            == ViolationKind::TraceTraceClearance,
        part(b, opts, ViolationKind::TracePadClearance).contains(x) ==> x.kind
            == ViolationKind::TracePadClearance,
        part(b, opts, ViolationKind::BodyOverlap).contains(x) ==> x.kind
            == ViolationKind::BodyOverlap,
        part(b, opts, ViolationKind::BodyOffBoard).contains(x) ==> x.kind
            == ViolationKind::BodyOffBoard,
{
    let p = drc::pads_of(b);
    let n = p.len() as int;
    let nt = b.traces@.len() as int;
    let nf = b.footprints@.len() as int;
    list::upto_holds(drc::pads_clear(p, opts), n, x);
    if list::upto(drc::pads_clear(p, opts), n).contains(x) {
        let i = choose|i: int| 0 <= i < n && #[trigger] drc::pads_clear(p, opts)(i).contains(x);
        list::upto_holds(drc::pad_pads(p, opts, i), n, x);
    }
    list::upto_holds(drc::traces_clear(b.traces@, opts), nt, x);
    if list::upto(drc::traces_clear(b.traces@, opts), nt).contains(x) {
        let i = choose|i: int|
            0 <= i < nt && #[trigger] drc::traces_clear(b.traces@, opts)(i).contains(x);
        list::upto_holds(drc::trace_traces(b.traces@, opts, i), nt, x);
    }
    list::upto_holds(drc::traces_clear_pads(b, opts), nt, x);
    if list::upto(drc::traces_clear_pads(b, opts), nt).contains(x) {
        let i = choose|i: int|
            0 <= i < nt && #[trigger] drc::traces_clear_pads(b, opts)(i).contains(x);
        list::upto_holds(drc::trace_pads(b.traces@[i], p, opts), n, x);
    }
    list::upto_holds(drc::bodies_clear(b.footprints@, opts), nf, x);
    if drc::body_overlaps(b, opts).contains(x) {
        let i = choose|i: int|
            0 <= i < nf && #[trigger] drc::bodies_clear(b.footprints@, opts)(i).contains(x);
        list::upto_holds(drc::body_bodies(b.footprints@, opts, i), nf, x);
    }
    if let Some(o) = b.outline {
        list::upto_holds(drc::bodies_off(b.footprints@, o, opts), nf, x);
    }
}

proof fn single_kind(b: Board, opts: DrcOptions, x: Finding)
    ensures
        part(b, opts, ViolationKind::UnconnectedPad).contains(x) ==> x.kind
            == ViolationKind::UnconnectedPad,
        part(b, opts, ViolationKind::SmallComponentDangling).contains(x) ==> x.kind
            == ViolationKind::SmallComponentDangling,
        part(b, opts, ViolationKind::NarrowTrace).contains(x) ==> x.kind
            == ViolationKind::NarrowTrace,
        part(b, opts, ViolationKind::RoutingInefficient).contains(x) ==> x.kind
            == ViolationKind::RoutingInefficient,
        part(b, opts, ViolationKind::ImpedanceMismatch).contains(x) ==> x.kind
            == ViolationKind::ImpedanceMismatch,
{
    let p = drc::pads_of(b);
    let n = p.len() as int;
    let nt = b.traces@.len() as int;
    let nf = b.footprints@.len() as int;
    list::upto_holds(drc::unconnected(b), n, x);
    list::upto_holds(drc::small_dangling(b), nf, x);
    list::upto_holds(drc::narrow_traces(b.traces@, opts.min_trace_width.0 as int), nt, x);
    list::upto_holds(drc::detours(b, opts.routing_inefficient_ratio as int), n, x);
    list::upto_holds(drc::impedances(opts.impedances@), opts.impedances@.len() as int, x);
}

/// The kinds that one part finds.
spec fn together(a: ViolationKind, b: ViolationKind) -> bool {
    a == b || (a == ViolationKind::NetSplit && b == ViolationKind::NetShort) || (a
        == ViolationKind::NetShort && b == ViolationKind::NetSplit)
}

proof fn part_has_its_kind(b: Board, opts: DrcOptions, kind: ViolationKind, x: Finding)
    requires
        part(b, opts, kind).contains(x),
    ensures
        together(kind, x.kind),
{
    match kind {
        ViolationKind::EdgeClearance => {
            edges_kind(b, b.outline->0, opts.edge_clearance.0 as int, None, x);
        },
        ViolationKind::NetSplit => {
            continuity_kind(b, x);
        },
        ViolationKind::NetShort => {
            continuity_kind(b, x);
        },
        ViolationKind::SmallDrill => {
            drills_kind(b, opts.min_drill.0 as int, x);
        },
        ViolationKind::KeepoutViolation => {
            keepouts_kind(b, x);
        },
        ViolationKind::FabProfileMin => {
            profile_kind(b, opts.fab_profile->0, x);
        },
        _ => {
            pairs_kind(b, opts, x);
            single_kind(b, opts, x);
        },
    }
}

/// The findings of a kind in a part: all in its own, none in another.
proof fn part_tally(b: Board, opts: DrcOptions, at: ViolationKind, kind: ViolationKind)
    ensures
        !together(at, kind) ==> tally_of(part(b, opts, at), kind) == 0,
{
    if !together(at, kind) {
        let f = part(b, opts, at);
        assert forall|x: Finding| #[trigger] f.contains(x) implies x.kind != kind by {
            part_has_its_kind(b, opts, at, x);
        }
        tally_none(f, kind);
    }
}

/// Among all findings there are as many of a kind as its part gives.
#[verifier::spinoff_prover]
proof fn found_as_often(b: Board, opts: DrcOptions, kind: ViolationKind)
    ensures
        tally_of(drc::findings_of(b, opts), kind) == tally_of(part(b, opts, kind), kind),
{
    let a1 = part(b, opts, ViolationKind::PadPadClearance);
    let a2 = part(b, opts, ViolationKind::TraceTraceClearance);
    let a3 = part(b, opts, ViolationKind::TracePadClearance);
    let a4 = part(b, opts, ViolationKind::EdgeClearance);
    let a5 = part(b, opts, ViolationKind::UnconnectedPad);
    let a6 = part(b, opts, ViolationKind::SmallComponentDangling);
    let a7 = part(b, opts, ViolationKind::NetSplit);
    let a8 = part(b, opts, ViolationKind::NarrowTrace);
    let a9 = part(b, opts, ViolationKind::SmallDrill);
    let a10 = part(b, opts, ViolationKind::RoutingInefficient);
    let a11 = part(b, opts, ViolationKind::BodyOverlap);
    let a12 = part(b, opts, ViolationKind::BodyOffBoard);
    let a13 = part(b, opts, ViolationKind::KeepoutViolation);
    let a14 = part(b, opts, ViolationKind::ImpedanceMismatch);
    let a15 = part(b, opts, ViolationKind::FabProfileMin);
    part_tally(b, opts, ViolationKind::PadPadClearance, kind);
    part_tally(b, opts, ViolationKind::TraceTraceClearance, kind);
    part_tally(b, opts, ViolationKind::TracePadClearance, kind);
    part_tally(b, opts, ViolationKind::EdgeClearance, kind);
    part_tally(b, opts, ViolationKind::UnconnectedPad, kind);
    part_tally(b, opts, ViolationKind::SmallComponentDangling, kind);
    part_tally(b, opts, ViolationKind::NetSplit, kind);
    part_tally(b, opts, ViolationKind::NarrowTrace, kind);
    part_tally(b, opts, ViolationKind::SmallDrill, kind);
    part_tally(b, opts, ViolationKind::RoutingInefficient, kind);
    part_tally(b, opts, ViolationKind::BodyOverlap, kind);
    part_tally(b, opts, ViolationKind::BodyOffBoard, kind);
    part_tally(b, opts, ViolationKind::KeepoutViolation, kind);
    part_tally(b, opts, ViolationKind::ImpedanceMismatch, kind);
    part_tally(b, opts, ViolationKind::FabProfileMin, kind);
    let s2 = a1 + a2;
    let s3 = s2 + a3;
    let s4 = s3 + a4;
    let s5 = s4 + a5;
    let s6 = s5 + a6;
    let s7 = s6 + a7;
    let s8 = s7 + a8;
    let s9 = s8 + a9;
    let s10 = s9 + a10;
    let s11 = s10 + a11;
    let s12 = s11 + a12;
    let s13 = s12 + a13;
    let s14 = s13 + a14;
    tally_joined(a1, a2, kind);
    tally_joined(s2, a3, kind);
    tally_joined(s3, a4, kind);
    tally_joined(s4, a5, kind);
    tally_joined(s5, a6, kind);
    tally_joined(s6, a7, kind);
    tally_joined(s7, a8, kind);
    tally_joined(s8, a9, kind);
    tally_joined(s9, a10, kind);
    tally_joined(s10, a11, kind);
    tally_joined(s11, a12, kind);
    tally_joined(s12, a13, kind);
    tally_joined(s13, a14, kind);
    tally_joined(s14, a15, kind);
    assert(drc::findings_of(b, opts) == s14 + a15);
}

/// A finding is among all findings exactly if the part for its kind gives
/// it.
#[verifier::spinoff_prover]
proof fn found_in_its_part(b: Board, opts: DrcOptions, x: Finding)
    ensures
        drc::findings_of(b, opts).contains(x) <==> part(b, opts, x.kind).contains(x),
{
    pairs_kind(b, opts, x);
    single_kind(b, opts, x);
    let a1 = part(b, opts, ViolationKind::PadPadClearance);
    let a2 = part(b, opts, ViolationKind::TraceTraceClearance);
    let a3 = part(b, opts, ViolationKind::TracePadClearance);
    let a4 = part(b, opts, ViolationKind::EdgeClearance);
    let a5 = part(b, opts, ViolationKind::UnconnectedPad);
    let a6 = part(b, opts, ViolationKind::SmallComponentDangling);
    let a7 = part(b, opts, ViolationKind::NetSplit);
    let a8 = part(b, opts, ViolationKind::NarrowTrace);
    let a9 = part(b, opts, ViolationKind::SmallDrill);
    let a10 = part(b, opts, ViolationKind::RoutingInefficient);
    let a11 = part(b, opts, ViolationKind::BodyOverlap);
    let a12 = part(b, opts, ViolationKind::BodyOffBoard);
    let a13 = part(b, opts, ViolationKind::KeepoutViolation);
    let a14 = part(b, opts, ViolationKind::ImpedanceMismatch);
    let a15 = part(b, opts, ViolationKind::FabProfileMin);
    if a4.contains(x) {
        edges_kind(b, b.outline->0, opts.edge_clearance.0 as int, None, x);
    }
    if a7.contains(x) {
        continuity_kind(b, x);
    }
    if a9.contains(x) {
        drills_kind(b, opts.min_drill.0 as int, x);
    }
    if a13.contains(x) {
        keepouts_kind(b, x);
    }
    if a15.contains(x) {
        profile_kind(b, opts.fab_profile->0, x);
    }
    let s2 = a1 + a2;
    let s3 = s2 + a3;
    let s4 = s3 + a4;
    let s5 = s4 + a5;
    let s6 = s5 + a6;
    let s7 = s6 + a7;
    let s8 = s7 + a8;
    let s9 = s8 + a9;
    let s10 = s9 + a10;
    let s11 = s10 + a11;
    let s12 = s11 + a12;
    let s13 = s12 + a13;
    let s14 = s13 + a14;
    joined_holds(a1, a2, x);
    joined_holds(s2, a3, x);
    joined_holds(s3, a4, x);
    joined_holds(s4, a5, x);
    joined_holds(s5, a6, x);
    joined_holds(s6, a7, x);
    joined_holds(s7, a8, x);
    joined_holds(s8, a9, x);
    joined_holds(s9, a10, x);
    joined_holds(s10, a11, x);
    joined_holds(s11, a12, x);
    joined_holds(s12, a13, x);
    joined_holds(s13, a14, x);
    joined_holds(s14, a15, x);
    assert(drc::findings_of(b, opts) == s14 + a15);
}

/// What is among all findings is flagged.
pub proof fn found_is_flagged(b: Board, opts: DrcOptions, x: Finding)
    requires
        part(b, opts, x.kind).contains(x),
    ensures
        flagged(drc::findings_of(b, opts), x.kind, x.severity, x.involved),
{
    found_in_its_part(b, opts, x);
    let f = drc::findings_of(b, opts);
    let k = choose|k: int| 0 <= k < f.len() && f[k] == x;
    assert(f[k].kind == x.kind);
}

/// What is flagged is in its part.
pub proof fn flagged_is_found(
    b: Board,
    opts: DrcOptions,
    kind: ViolationKind,
    severity: Severity,
    involved: Seq<Seq<char>>,
) -> (x: Finding)
    requires
        flagged(drc::findings_of(b, opts), kind, severity, involved),
    ensures
        part(b, opts, kind).contains(x),
        x.kind == kind,
        x.severity == severity,
        x.involved == involved,
{
    let f = drc::findings_of(b, opts);
    let k = choose|k: int|
        0 <= k < f.len() && (#[trigger] f[k]).kind == kind && f[k].severity == severity
            && f[k].involved == involved;
    assert(f.contains(f[k]));
    found_in_its_part(b, opts, f[k]);
    f[k]
}

/// Two pads, the first before the other, with copper on one layer and
/// different nets, or one of none, come nearer than `clr` allows: some point
/// of the one and some point of the other are less than `clr` apart, by more
/// than a nanometre.
pub open spec fn pads_crowd(a: (Footprint, Pad), b: (Footprint, Pad), clr: int) -> bool {
    &&& exists|layer: CopperLayer| #[trigger] pads_meet_on(a.1, b.1, layer)
    &&& name_of(a.1.net) != name_of(b.1.net)
    &&& clr > 1
    &&& nearness::rects_closer(a.0.rect_of(a.1), b.0.rect_of(b.1), (clr - 1) * (clr - 1))
}

/// Pads that come too near to each other, and no others, are flagged,
/// whatever the clearance.
pub proof fn pads_apart_is_exact(a: (Footprint, Pad), b: (Footprint, Pad), clr: int)
    requires
        a.0.rect_of(a.1).wf(),
        b.0.rect_of(b.1).wf(),
    ensures
        drc::pads_apart(a, b, clr).len() == (if pads_crowd(a, b, clr) {
            1nat
        } else {
            0nat
        }),
        forall|k: int|
            0 <= k < drc::pads_apart(a, b, clr).len() ==> (#[trigger] drc::pads_apart(a, b, clr)[k]).kind
                == ViolationKind::PadPadClearance && drc::pads_apart(a, b, clr)[k].severity
                == Severity::Error && drc::pads_apart(a, b, clr)[k].involved == seq![
                drc::label_of(a),
                drc::label_of(b),
            ],
{
    let x = 2 * clr - 2;
    let y = clr - 1;
    assert(x * x == 4 * (y * y)) by (nonlinear_arith)
        requires
            x == 2 * y,
    ;
    nearness::rect_gap_is_distance(a.0.rect_of(a.1), b.0.rect_of(b.1), y * y);
    if a.1.drill is Some {
        assert(pads_meet_on(a.1, b.1, b.1.layer));
    } else {
        assert(drc::share_layer(a, b) ==> pads_meet_on(a.1, b.1, a.1.layer));
    }
}

/// Two traces on one layer, of different nets, come nearer than `clr`
/// allows: the copper of the one is less than `clr` from the copper of the
/// other, by more than a nanometre.
pub open spec fn traces_crowd(a: Trace, b: Trace, clr: int) -> bool {
    let x = 2 * (clr - 1) + a.width.0 + b.width.0;
    &&& a.layer == b.layer
    &&& a.net@ != b.net@
    &&& x > 0
    &&& nearness::closer(a.start, a.end, b.start, b.end, 4, x * x)
}

/// Traces that come too near to each other, and no others, are flagged,
/// whatever the clearance: never traces on different layers.
pub proof fn traces_apart_is_exact(a: Trace, b: Trace, clr: int)
    ensures
        drc::traces_apart(a, b, clr).len() == (if traces_crowd(a, b, clr) {
            1nat
        } else {
            0nat
        }),
        a.layer != b.layer ==> drc::traces_apart(a, b, clr).len() == 0,
        forall|k: int|
            0 <= k < drc::traces_apart(a, b, clr).len() ==> (#[trigger] drc::traces_apart(a, b, clr)[k]).kind
                == ViolationKind::TraceTraceClearance && drc::traces_apart(a, b, clr)[k].severity
                == Severity::Error && drc::traces_apart(a, b, clr)[k].involved == seq![
                a.net@,
                b.net@,
            ],
{
    let x = 2 * (clr - 1) + a.width.0 + b.width.0;
    nearness::measure_is_distance(drc::apart(), a.start, a.end, b.start, b.end, x * x);
}

/// A trace and a pad with copper on its layer, of another net or of none,
/// come nearer than `clr` allows.
pub open spec fn trace_crowds(t: Trace, p: (Footprint, Pad), clr: int) -> bool {
    let x = 2 * (clr - 1) + t.width.0;
    &&& pad_is_on(p.1, t.layer)
    &&& name_of(p.1.net) != Some(t.net@)
    &&& x > 0
    &&& nearness::closer_rect(t.start, t.end, p.0.rect_of(p.1), 4, x * x)
}

/// A trace and a pad that come too near to each other, and no others, are
/// flagged, whatever the clearance.
pub proof fn trace_apart_is_exact(t: Trace, p: (Footprint, Pad), clr: int)
    requires
        t.in_range(),
        p.0.rect_of(p.1).wf(),
        p.0.rect_of(p.1).within(4 * COORD_MAX),
    ensures
        drc::trace_apart(t, p, clr).len() == (if trace_crowds(t, p, clr) {
            1nat
        } else {
            0nat
        }),
        forall|k: int|
            0 <= k < drc::trace_apart(t, p, clr).len() ==> (#[trigger] drc::trace_apart(t, p, clr)[k]).kind
                == ViolationKind::TracePadClearance && drc::trace_apart(t, p, clr)[k].severity
                == Severity::Error && drc::trace_apart(t, p, clr)[k].involved == seq![
                t.net@,
                drc::label_of(p),
            ],
{
    let x = 2 * (clr - 1) + t.width.0;
    nearness::rect_measure_is_distance(drc::apart(), t.start, t.end, p.0.rect_of(p.1), x * x);
}

/// What two nets have to keep: at least the usual clearance and what either
/// calls for, and no more than one of these.
pub proof fn clearance_is_the_largest(opts: DrcOptions, a: Option<Seq<char>>, b: Option<Seq<char>>)
    ensures
        ({
            let c = opts.clearance(a, b);
            let m = opts.min_clearance.0 as int;
            &&& c >= m
            &&& a matches Some(n) ==> opts.called_for(n) matches Some(l) ==> c >= l.0
            &&& b matches Some(n) ==> opts.called_for(n) matches Some(l) ==> c >= l.0
            &&& c == m || (a matches Some(n) && opts.called_for(n) matches Some(l) && c == l.0) || (
            b matches Some(n) && opts.called_for(n) matches Some(l) && c == l.0)
        }),
{
}

/// The list holds what the part for a kind gives of that kind, and no other
/// finding of the kind.
pub open spec fn holds_part(b: Board, opts: DrcOptions, kind: ViolationKind, f: Seq<Finding>) -> bool {
    &&& forall|x: Finding|
        x.kind == kind ==> (#[trigger] f.contains(x) <==> part(b, opts, kind).contains(x))
    &&& tally_of(f, kind) == tally_of(part(b, opts, kind), kind)
}

pub proof fn findings_hold_parts(b: Board, opts: DrcOptions, kind: ViolationKind)
    ensures
        holds_part(b, opts, kind, drc::findings_of(b, opts)),
{
    let f = drc::findings_of(b, opts);
    found_as_often(b, opts, kind);
    assert forall|x: Finding| x.kind == kind implies (#[trigger] f.contains(x) <==> part(
        b,
        opts,
        kind,
    ).contains(x)) by {
        found_in_its_part(b, opts, x);
    }
}

pub proof fn held_is_flagged(f: Seq<Finding>, x: Finding)
    requires
        f.contains(x),
    ensures
        flagged(f, x.kind, x.severity, x.involved),
{
    let k = choose|k: int| 0 <= k < f.len() && f[k] == x;
    assert(f[k].kind == x.kind);
}

/// Two pads are flagged exactly if they come nearer than their nets have to
/// keep.
pub open spec fn crowded_pads(b: Board, opts: DrcOptions, f: Seq<Finding>) -> bool {
    let p = drc::pads_of(b);
    &&& forall|i: int, j: int|
        0 <= i < j < p.len() && #[trigger] pads_crowd(p[i], p[j], opts.clearance(name_of(p[i].1.net), name_of(p[j].1.net))) ==> flagged(
            f,
            ViolationKind::PadPadClearance,
            Severity::Error,
            seq![drc::label_of(p[i]), drc::label_of(p[j])],
        )
    &&& forall|k: int|
        0 <= k < f.len() && (#[trigger] f[k]).kind == ViolationKind::PadPadClearance ==> exists|
            i: int,
            j: int,
        |
            0 <= i < j < p.len() && #[trigger] pads_crowd(p[i], p[j], opts.clearance(name_of(p[i].1.net), name_of(p[j].1.net))) && f[k].severity == Severity::Error && f[k].involved == seq![drc::label_of(p[i]), drc::label_of(p[j])]
}

proof fn crowded_pads_in(b: Board, opts: DrcOptions, f: Seq<Finding>)
    requires
        pad_laws::proper(b),
        holds_part(b, opts, ViolationKind::PadPadClearance, f),
    ensures
        crowded_pads(b, opts, f),
{
    let p = drc::pads_of(b);
    assert forall|i: int, j: int|
        0 <= i < j < p.len() && #[trigger] pads_crowd(p[i], p[j], opts.clearance(name_of(p[i].1.net), name_of(p[j].1.net))) implies flagged(
        f,
        ViolationKind::PadPadClearance,
        Severity::Error,
        seq![drc::label_of(p[i]), drc::label_of(p[j])],
    ) by {
        let n = p.len() as int;
        pad_laws::listed_pad_is_proper(b, i);
        pad_laws::listed_pad_is_proper(b, j);
        let clr = opts.clearance(name_of(p[i].1.net), name_of(p[j].1.net));
        pads_apart_is_exact(p[i], p[j], clr);
        let x = drc::pads_apart(p[i], p[j], clr)[0];
        assert(drc::pad_pads(p, opts, i)(j).contains(x));
        list::upto_holds(drc::pad_pads(p, opts, i), n, x);
        assert(drc::pads_clear(p, opts)(i).contains(x));
        list::upto_holds(drc::pads_clear(p, opts), n, x);
        held_is_flagged(f, x);
    }
    assert forall|k: int|
        0 <= k < f.len() && (#[trigger] f[k]).kind == ViolationKind::PadPadClearance implies exists|
        i: int,
        j: int,
    |
        0 <= i < j < p.len() && #[trigger] pads_crowd(p[i], p[j], opts.clearance(name_of(p[i].1.net), name_of(p[j].1.net))) && f[k].severity == Severity::Error && f[k].involved == seq![drc::label_of(p[i]), drc::label_of(p[j])] by {
        let x = f[k];
        assert(f.contains(x));
        let n = p.len() as int;
        list::upto_holds(drc::pads_clear(p, opts), n, x);
        let i = choose|i: int| 0 <= i < n && #[trigger] drc::pads_clear(p, opts)(i).contains(x);
        list::upto_holds(drc::pad_pads(p, opts, i), n, x);
        let j = choose|j: int| 0 <= j < n && #[trigger] drc::pad_pads(p, opts, i)(j).contains(x);
        pad_laws::listed_pad_is_proper(b, i);
        pad_laws::listed_pad_is_proper(b, j);
        pads_apart_is_exact(
            p[i],
            p[j],
            opts.clearance(name_of(p[i].1.net), name_of(p[j].1.net)),
        );
    }
}

/// The check flags two pads exactly if they come nearer than their nets have
/// to keep.
pub proof fn crowded_pads_are_flagged(b: Board, opts: DrcOptions)
    requires
        pad_laws::proper(b),
    ensures
        crowded_pads(b, opts, drc::findings_of(b, opts)),
{
    findings_hold_parts(b, opts, ViolationKind::PadPadClearance);
    crowded_pads_in(b, opts, drc::findings_of(b, opts));
}

/// Two traces are flagged exactly if they come nearer than their nets have
/// to keep.
pub open spec fn crowded_traces(b: Board, opts: DrcOptions, f: Seq<Finding>) -> bool {
    let t = b.traces@;
    &&& forall|i: int, j: int|
        0 <= i < j < t.len() && #[trigger] traces_crowd(t[i], t[j], opts.clearance(Some(t[i].net@), Some(t[j].net@))) ==> flagged(
            f,
            ViolationKind::TraceTraceClearance,
            Severity::Error,
            seq![t[i].net@, t[j].net@],
        )
    &&& forall|k: int|
        0 <= k < f.len() && (#[trigger] f[k]).kind == ViolationKind::TraceTraceClearance ==> exists|
            i: int,
            j: int,
        |
            0 <= i < j < t.len() && #[trigger] traces_crowd(t[i], t[j], opts.clearance(Some(t[i].net@), Some(t[j].net@))) && f[k].severity == Severity::Error && f[k].involved == seq![t[i].net@, t[j].net@]
}

proof fn crowded_traces_in(b: Board, opts: DrcOptions, f: Seq<Finding>)
    requires
        holds_part(b, opts, ViolationKind::TraceTraceClearance, f),
    ensures
        crowded_traces(b, opts, f),
{
    let t = b.traces@;
    assert forall|i: int, j: int|
        0 <= i < j < t.len() && #[trigger] traces_crowd(t[i], t[j], opts.clearance(Some(t[i].net@), Some(t[j].net@))) implies flagged(
        f,
        ViolationKind::TraceTraceClearance,
        Severity::Error,
        seq![t[i].net@, t[j].net@],
    ) by {
        let n = t.len() as int;
        let clr = opts.clearance(Some(t[i].net@), Some(t[j].net@));
        traces_apart_is_exact(t[i], t[j], clr);
        let x = drc::traces_apart(t[i], t[j], clr)[0];
        assert(drc::trace_traces(t, opts, i)(j).contains(x));
        list::upto_holds(drc::trace_traces(t, opts, i), n, x);
        assert(drc::traces_clear(t, opts)(i).contains(x));
        list::upto_holds(drc::traces_clear(t, opts), n, x);
        held_is_flagged(f, x);
    }
    assert forall|k: int|
        0 <= k < f.len() && (#[trigger] f[k]).kind == ViolationKind::TraceTraceClearance implies exists|
        i: int,
        j: int,
    |
        0 <= i < j < t.len() && #[trigger] traces_crowd(t[i], t[j], opts.clearance(Some(t[i].net@), Some(t[j].net@))) && f[k].severity == Severity::Error && f[k].involved == seq![t[i].net@, t[j].net@] by {
        let x = f[k];
        assert(f.contains(x));
        let n = t.len() as int;
        list::upto_holds(drc::traces_clear(t, opts), n, x);
        let i = choose|i: int| 0 <= i < n && #[trigger] drc::traces_clear(t, opts)(i).contains(x);
        list::upto_holds(drc::trace_traces(t, opts, i), n, x);
        let j = choose|j: int| 0 <= j < n && #[trigger] drc::trace_traces(t, opts, i)(j).contains(x);
        traces_apart_is_exact(t[i], t[j], opts.clearance(Some(t[i].net@), Some(t[j].net@)));
    }
}

/// The check flags two traces exactly if they come nearer than their nets
/// have to keep.
pub proof fn crowded_traces_are_flagged(b: Board, opts: DrcOptions)
    ensures
        crowded_traces(b, opts, drc::findings_of(b, opts)),
{
    findings_hold_parts(b, opts, ViolationKind::TraceTraceClearance);
    crowded_traces_in(b, opts, drc::findings_of(b, opts));
}

/// A trace and a pad are flagged exactly if they come nearer than their nets
/// have to keep.
pub open spec fn crowded_trace_and_pad(b: Board, opts: DrcOptions, f: Seq<Finding>) -> bool {
    let t = b.traces@;
    let p = drc::pads_of(b);
    &&& forall|i: int, j: int|
        0 <= i < t.len() && 0 <= j < p.len() && #[trigger] trace_crowds(t[i], p[j], opts.clearance(Some(t[i].net@), name_of(p[j].1.net))) ==> flagged(
            f,
            ViolationKind::TracePadClearance,
            Severity::Error,
            seq![t[i].net@, drc::label_of(p[j])],
        )
    &&& forall|k: int|
        0 <= k < f.len() && (#[trigger] f[k]).kind == ViolationKind::TracePadClearance ==> exists|
            i: int,
            j: int,
        |
            0 <= i < t.len() && 0 <= j < p.len() && #[trigger] trace_crowds(t[i], p[j], opts.clearance(Some(t[i].net@), name_of(p[j].1.net))) && f[k].severity == Severity::Error && f[k].involved == seq![t[i].net@, drc::label_of(p[j])]
}

proof fn crowded_trace_and_pad_in(b: Board, opts: DrcOptions, f: Seq<Finding>)
    requires
        pad_laws::proper(b),
        holds_part(b, opts, ViolationKind::TracePadClearance, f),
    ensures
        crowded_trace_and_pad(b, opts, f),
{
    let t = b.traces@;
    let p = drc::pads_of(b);
    assert forall|i: int, j: int|
        0 <= i < t.len() && 0 <= j < p.len() && #[trigger] trace_crowds(t[i], p[j], opts.clearance(Some(t[i].net@), name_of(p[j].1.net))) implies flagged(
        f,
        ViolationKind::TracePadClearance,
        Severity::Error,
        seq![t[i].net@, drc::label_of(p[j])],
    ) by {
        pad_laws::listed_pad_is_proper(b, j);
        let clr = opts.clearance(Some(t[i].net@), name_of(p[j].1.net));
        trace_apart_is_exact(t[i], p[j], clr);
        let x = drc::trace_apart(t[i], p[j], clr)[0];
        assert(drc::trace_pads(t[i], p, opts)(j).contains(x));
        list::upto_holds(drc::trace_pads(t[i], p, opts), p.len() as int, x);
        assert(drc::traces_clear_pads(b, opts)(i).contains(x));
        list::upto_holds(drc::traces_clear_pads(b, opts), t.len() as int, x);
        held_is_flagged(f, x);
    }
    assert forall|k: int|
        0 <= k < f.len() && (#[trigger] f[k]).kind == ViolationKind::TracePadClearance implies exists|
        i: int,
        j: int,
    |
        0 <= i < t.len() && 0 <= j < p.len() && #[trigger] trace_crowds(t[i], p[j], opts.clearance(Some(t[i].net@), name_of(p[j].1.net))) && f[k].severity == Severity::Error && f[k].involved == seq![t[i].net@, drc::label_of(p[j])] by {
        let x = f[k];
        assert(f.contains(x));
        let (n, np) = (t.len() as int, p.len() as int);
        list::upto_holds(drc::traces_clear_pads(b, opts), n, x);
        let i = choose|i: int| 0 <= i < n && #[trigger] drc::traces_clear_pads(b, opts)(i).contains(x);
        list::upto_holds(drc::trace_pads(t[i], p, opts), np, x);
        let j = choose|j: int| 0 <= j < np && #[trigger] drc::trace_pads(t[i], p, opts)(j).contains(x);
        pad_laws::listed_pad_is_proper(b, j);
        trace_apart_is_exact(t[i], p[j], opts.clearance(Some(t[i].net@), name_of(p[j].1.net)));
    }
}

/// The check flags a trace and a pad exactly if they come nearer than their
/// nets have to keep.
pub proof fn crowded_trace_and_pad_are_flagged(b: Board, opts: DrcOptions)
    requires
        pad_laws::proper(b),
    ensures
        crowded_trace_and_pad(b, opts, drc::findings_of(b, opts)),
{
    findings_hold_parts(b, opts, ViolationKind::TracePadClearance);
    crowded_trace_and_pad_in(b, opts, drc::findings_of(b, opts));
}

/// The point, with copper `width` wide around it, is inside the outline by
/// `clr`, but for a nanometre.
pub open spec fn keeps_inside(o: Rect, p: Point, width: int, clr: int) -> bool {
    &&& 2 * (p.x.0 - o.min.x.0) - width >= 2 * (clr - 1)
    &&& 2 * (o.max.x.0 - p.x.0) - width >= 2 * (clr - 1)
    &&& 2 * (p.y.0 - o.min.y.0) - width >= 2 * (clr - 1)
    &&& 2 * (o.max.y.0 - p.y.0) - width >= 2 * (clr - 1)
}

/// Which pads, traces and vias are too close to the edge.
pub open spec fn pad_near_edge(p: (Footprint, Pad), o: Rect, clr: int) -> bool {
    let r = p.0.rect_of(p.1);
    !p.0.edge_mounted && !(keeps_inside(o, r.min, 0, clr) && keeps_inside(o, r.max, 0, clr))
}

pub open spec fn trace_near_edge(t: Trace, o: Rect, clr: int) -> bool {
    !(keeps_inside(o, t.start, t.width.0 as int, clr) && keeps_inside(
        o,
        t.end,
        t.width.0 as int,
        clr,
    ))
}

pub open spec fn via_near_edge(v: Via, o: Rect, clr: int) -> bool {
    !keeps_inside(o, v.position, v.diameter.0 as int, clr)
}

/// Copper near an edge: the names of what is flagged.
pub open spec fn near_edge(b: Board, o: Rect, clr: int, name: Seq<char>) -> bool {
    ||| exists|i: int|
        0 <= i < drc::pads_of(b).len() && pad_near_edge(#[trigger] drc::pads_of(b)[i], o, clr)
            && name == drc::label_of(drc::pads_of(b)[i])
    ||| exists|i: int|
        0 <= i < b.traces@.len() && trace_near_edge(#[trigger] b.traces@[i], o, clr) && name
            == b.traces@[i].net@
    ||| exists|i: int|
        0 <= i < b.vias@.len() && via_near_edge(#[trigger] b.vias@[i], o, clr) && name
            == b.vias@[i].net@
}

/// The finding names one thing and is an error of the kind.
pub open spec fn names_one(x: Finding, kind: ViolationKind, name: Seq<char>) -> bool {
    x.kind == kind && x.severity == Severity::Error && x.involved == seq![name]
}

proof fn edge_items_are_exact(
    p: (Footprint, Pad),
    t: Trace,
    v: Via,
    o: Rect,
    clr: int,
    by: Option<Seq<char>>,
    x: Finding,
)
    ensures
        p.0.rect_of(p.1).wf() ==> (drc::pad_edge(p, o, clr, by).contains(x) ==> pad_near_edge(
            p,
            o,
            clr,
        ) && names_one(x, drc::edge_kind(by), drc::label_of(p))),
        drc::trace_edge(t, o, clr, by).contains(x) ==> trace_near_edge(t, o, clr) && names_one(
            x,
            drc::edge_kind(by),
            t.net@,
        ),
        drc::via_edge(v, o, clr, by).contains(x) ==> via_near_edge(v, o, clr) && names_one(
            x,
            drc::edge_kind(by),
            v.net@,
        ),
{
}

proof fn edge_pad_is_noted(p: (Footprint, Pad), o: Rect, clr: int, by: Option<Seq<char>>) -> (x:
    Finding)
    requires
        pad_near_edge(p, o, clr),
        p.0.rect_of(p.1).wf(),
    ensures
        drc::pad_edge(p, o, clr, by).contains(x),
        names_one(x, drc::edge_kind(by), drc::label_of(p)),
{
    let e = drc::pad_edge(p, o, clr, by);
    assert(e.len() == 1);
    assert(e.contains(e[0]));
    e[0]
}

proof fn edge_trace_is_noted(t: Trace, o: Rect, clr: int, by: Option<Seq<char>>) -> (x: Finding)
    requires
        trace_near_edge(t, o, clr),
    ensures
        drc::trace_edge(t, o, clr, by).contains(x),
        names_one(x, drc::edge_kind(by), t.net@),
{
    let e = drc::trace_edge(t, o, clr, by);
    assert(e.len() == 1);
    assert(e.contains(e[0]));
    e[0]
}

proof fn edge_via_is_noted(v: Via, o: Rect, clr: int, by: Option<Seq<char>>) -> (x: Finding)
    requires
        via_near_edge(v, o, clr),
    ensures
        drc::via_edge(v, o, clr, by).contains(x),
        names_one(x, drc::edge_kind(by), v.net@),
{
    let e = drc::via_edge(v, o, clr, by);
    assert(e.len() == 1);
    assert(e.contains(e[0]));
    e[0]
}

proof fn edges_hold(b: Board, o: Rect, clr: int, by: Option<Seq<char>>, x: Finding)
    ensures
        drc::edges(b, o, clr, by).contains(x) <==> {
            ||| exists|i: int|
                0 <= i < drc::pads_of(b).len() && drc::pad_edge(
                    #[trigger] drc::pads_of(b)[i],
                    o,
                    clr,
                    by,
                ).contains(x)
            ||| exists|i: int|
                0 <= i < b.traces@.len() && drc::trace_edge(
                    #[trigger] b.traces@[i],
                    o,
                    clr,
                    by,
                ).contains(x)
            ||| exists|i: int|
                0 <= i < b.vias@.len() && drc::via_edge(
                    #[trigger] b.vias@[i],
                    o,
                    clr,
                    by,
                ).contains(x)
        },
{
    let p = drc::pads_of(b);
    let (np, nt, nv) = (p.len() as int, b.traces@.len() as int, b.vias@.len() as int);
    let (f1, f2, f3) = (
        drc::pads_edge(p, o, clr, by),
        drc::traces_edge(b.traces@, o, clr, by),
        drc::vias_edge(b.vias@, o, clr, by),
    );
    let (e1, e2, e3) = (list::upto(f1, np), list::upto(f2, nt), list::upto(f3, nv));
    joined_holds(e1 + e2, e3, x);
    joined_holds(e1, e2, x);
    list::upto_holds(f1, np, x);
    list::upto_holds(f2, nt, x);
    list::upto_holds(f3, nv, x);
    assert(forall|i: int| #[trigger] f1(i) == drc::pad_edge(p[i], o, clr, by));
    assert(forall|i: int| #[trigger] f2(i) == drc::trace_edge(b.traces@[i], o, clr, by));
    assert(forall|i: int| #[trigger] f3(i) == drc::via_edge(b.vias@[i], o, clr, by));
    assert forall|i: int|
        0 <= i < np && drc::pad_edge(#[trigger] p[i], o, clr, by).contains(x) implies e1.contains(
        x,
    ) by {
        assert(f1(i).contains(x));
    }
    assert forall|i: int|
        0 <= i < nt && drc::trace_edge(
            #[trigger] b.traces@[i],
            o,
            clr,
            by,
        ).contains(x) implies e2.contains(x) by {
        assert(f2(i).contains(x));
    }
    assert forall|i: int|
        0 <= i < nv && drc::via_edge(#[trigger] b.vias@[i], o, clr, by).contains(x) implies e3.contains(
        x,
    ) by {
        assert(f3(i).contains(x));
    }
}

pub proof fn edge_finding_is_near(b: Board, o: Rect, clr: int, by: Option<Seq<char>>, x: Finding)
    requires
        pad_laws::proper(b),
        drc::edges(b, o, clr, by).contains(x),
    ensures
        x.involved.len() == 1,
        names_one(x, drc::edge_kind(by), x.involved[0]),
        near_edge(b, o, clr, x.involved[0]),
{
    let p = drc::pads_of(b);
    edges_hold(b, o, clr, by, x);
    if exists|i: int|
        0 <= i < p.len() && drc::pad_edge(#[trigger] p[i], o, clr, by).contains(x) {
        let i = choose|i: int|
            0 <= i < p.len() && drc::pad_edge(#[trigger] p[i], o, clr, by).contains(x);
        pad_laws::listed_pad_is_proper(b, i);
        edge_items_are_exact(p[i], b.traces@[0], b.vias@[0], o, clr, by, x);
    } else if exists|i: int|
        0 <= i < b.traces@.len() && drc::trace_edge(#[trigger] b.traces@[i], o, clr, by).contains(
            x,
        ) {
        let i = choose|i: int|
            0 <= i < b.traces@.len() && drc::trace_edge(
                #[trigger] b.traces@[i],
                o,
                clr,
                by,
            ).contains(x);
        edge_items_are_exact(p[0], b.traces@[i], b.vias@[0], o, clr, by, x);
    } else {
        let i = choose|i: int|
            0 <= i < b.vias@.len() && drc::via_edge(#[trigger] b.vias@[i], o, clr, by).contains(x);
        edge_items_are_exact(p[0], b.traces@[0], b.vias@[i], o, clr, by, x);
    }
}

pub proof fn near_edge_is_noted(
    b: Board,
    o: Rect,
    clr: int,
    by: Option<Seq<char>>,
    name: Seq<char>,
) -> (x: Finding)
    requires
        pad_laws::proper(b),
        near_edge(b, o, clr, name),
    ensures
        drc::edges(b, o, clr, by).contains(x),
        names_one(x, drc::edge_kind(by), name),
{
    let p = drc::pads_of(b);
    if exists|i: int|
        0 <= i < p.len() && pad_near_edge(#[trigger] p[i], o, clr) && name == drc::label_of(p[i]) {
        let i = choose|i: int|
            0 <= i < p.len() && pad_near_edge(#[trigger] p[i], o, clr) && name == drc::label_of(
                p[i],
            );
        pad_laws::listed_pad_is_proper(b, i);
        let x = edge_pad_is_noted(p[i], o, clr, by);
        edges_hold(b, o, clr, by, x);
        x
    } else if exists|i: int|
        0 <= i < b.traces@.len() && trace_near_edge(#[trigger] b.traces@[i], o, clr) && name
            == b.traces@[i].net@ {
        let i = choose|i: int|
            0 <= i < b.traces@.len() && trace_near_edge(#[trigger] b.traces@[i], o, clr) && name
                == b.traces@[i].net@;
        let x = edge_trace_is_noted(b.traces@[i], o, clr, by);
        edges_hold(b, o, clr, by, x);
        x
    } else {
        let i = choose|i: int|
            0 <= i < b.vias@.len() && via_near_edge(#[trigger] b.vias@[i], o, clr) && name
                == b.vias@[i].net@;
        let x = edge_via_is_noted(b.vias@[i], o, clr, by);
        edges_hold(b, o, clr, by, x);
        x
    }
}

/// The check flags the copper that is closer to the edge of the board than
/// the options allow, and no other; without an outline it flags none.
pub proof fn copper_near_the_edge_is_flagged(b: Board, opts: DrcOptions, name: Seq<char>)
    requires
        pad_laws::proper(b),
    ensures
        flagged(
            drc::findings_of(b, opts),
            ViolationKind::EdgeClearance,
            Severity::Error,
            seq![name],
        ) <==> b.outline is Some && near_edge(
            b,
            b.outline->0,
            opts.edge_clearance.0 as int,
            name,
        ),
{
    let clr = opts.edge_clearance.0 as int;
    if flagged(
        drc::findings_of(b, opts),
        ViolationKind::EdgeClearance,
        Severity::Error,
        seq![name],
    ) {
        let x = flagged_is_found(b, opts, ViolationKind::EdgeClearance, Severity::Error, seq![name]);
        edge_finding_is_near(b, b.outline->0, clr, None, x);
        assert(x.involved[0] == name);
    }
    if b.outline is Some && near_edge(b, b.outline->0, clr, name) {
        let x = near_edge_is_noted(b, b.outline->0, clr, None, name);
        found_is_flagged(b, opts, x);
    }
}

} // verus!
