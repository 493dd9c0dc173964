//! What the manufacturing check finds, in terms of the board and the limits
//! of the provider.

use vstd::prelude::*;

use crate::board::Board;
use crate::drc;
use crate::drc_laws;
use crate::fab;
use crate::fab::{FabViolationKind, Issue, Provider};
use crate::list;
use crate::pad_laws;
use crate::spacing;
use crate::violation::Severity;

verus! {

/// The list holds an issue of that kind and severity that names exactly
/// those.
pub open spec fn raised(
    f: Seq<Issue>,
    kind: FabViolationKind,
    severity: Severity,
    involved: Seq<Seq<char>>,
) -> bool {
    exists|x: Issue| #[trigger]
        f.contains(x) && x.kind == kind && x.severity == severity && x.involved == involved
}

/// Some trace of the net is narrower than `min`, by more than a nanometre.
pub open spec fn has_narrow(b: Board, net: Seq<char>, min: int) -> bool {
    exists|i: int|
        0 <= i < b.traces@.len() && (#[trigger] b.traces@[i]).net@ == net && b.traces@[i].width.0
            < min - 1
}

/// Some via of the net has a hole smaller than `min`, by more than a
/// nanometre.
pub open spec fn has_small(b: Board, net: Seq<char>, min: int) -> bool {
    exists|i: int|
        0 <= i < b.vias@.len() && (#[trigger] b.vias@[i]).net@ == net && b.vias@[i].drill.0 < min
            - 1
}

/// Some via of the net has less than `min` of copper around its hole, by
/// more than a nanometre.
pub open spec fn has_thin(b: Board, net: Seq<char>, min: int) -> bool {
    exists|i: int|
        0 <= i < b.vias@.len() && (#[trigger] b.vias@[i]).net@ == net && b.vias@[i].diameter.0
            - b.vias@[i].drill.0 < 2 * (min - 1)
}

/// Copper of those names comes nearer than `clr`: two pads, two traces, or a
/// trace and a pad.
pub open spec fn is_tight(b: Board, clr: int, x: Seq<char>, y: Seq<char>) -> bool {
    let p = drc::pads_of(b);
    let t = b.traces@;
    ||| exists|i: int, j: int|
        0 <= i < j < p.len() && #[trigger] drc_laws::pads_crowd(p[i], p[j], clr) && x
            == drc::label_of(p[i]) && y == drc::label_of(p[j])
    ||| exists|i: int, j: int|
        0 <= i < j < t.len() && #[trigger] drc_laws::traces_crowd(t[i], t[j], clr) && x == t[i].net@
            && y == t[j].net@
    ||| exists|i: int, j: int|
        0 <= i < t.len() && 0 <= j < p.len() && #[trigger] drc_laws::trace_crowds(
            t[i],
            p[j],
            clr,
        ) && x == t[i].net@ && y == drc::label_of(p[j])
}

/// The issue is a part of the list of all issues.
proof fn issues_hold(b: Board, p: Provider, x: Issue)
    ensures
        fab::issues_of(b, p).contains(x) <==> {
            ||| exists|i: int|
                0 <= i < b.traces@.len() && fab::narrow(#[trigger] b.traces@[i], p).contains(x)
            ||| exists|i: int|
                0 <= i < b.vias@.len() && (fab::small(#[trigger] b.vias@[i], p).contains(x)
                    || fab::thin(b.vias@[i], p).contains(x))
            ||| fab::oversize(b, p).contains(x)
            ||| fab::crowded(b, p).contains(x)
            ||| spacing::spacing(b, p).contains(x)
        },
{
    let (nt, nv) = (b.traces@.len() as int, b.vias@.len() as int);
    let (f1, f2) = (fab::narrow_ones(b.traces@, p), fab::via_ones(b.vias@, p));
    let (a1, a2) = (list::upto(f1, nt), list::upto(f2, nv));
    let (a3, a4, a5) = (fab::oversize(b, p), fab::crowded(b, p), spacing::spacing(b, p));
    drc_laws::joined_holds(a1 + a2 + a3 + a4, a5, x);
    drc_laws::joined_holds(a1 + a2 + a3, a4, x);
    drc_laws::joined_holds(a1 + a2, a3, x);
    drc_laws::joined_holds(a1, a2, x);
    list::upto_holds(f1, nt, x);
    list::upto_holds(f2, nv, x);
    assert forall|i: int| 0 <= i < nt && fab::narrow(
        #[trigger] b.traces@[i],
        p,
    ).contains(x) implies a1.contains(x) by {
        assert(f1(i).contains(x));
    }
    assert forall|i: int|
        0 <= i < nv && (fab::small(#[trigger] b.vias@[i], p).contains(x) || fab::thin(
            b.vias@[i],
            p,
        ).contains(x)) implies a2.contains(x) by {
        drc_laws::joined_holds(fab::small(b.vias@[i], p), fab::thin(b.vias@[i], p), x);
        assert(f2(i).contains(x));
    }
    if a1.contains(x) {
        let i = choose|i: int| 0 <= i < nt && #[trigger] f1(i).contains(x);
        assert(fab::narrow(b.traces@[i], p).contains(x));
    }
    if a2.contains(x) {
        let i = choose|i: int| 0 <= i < nv && #[trigger] f2(i).contains(x);
        drc_laws::joined_holds(fab::small(b.vias@[i], p), fab::thin(b.vias@[i], p), x);
        assert(fab::small(b.vias@[i], p).contains(x) || fab::thin(b.vias@[i], p).contains(x));
    }
}

proof fn spacing_is_tight(b: Board, p: Provider, x: Issue)
    requires
        pad_laws::proper(b),
        spacing::spacing(b, p).contains(x),
    ensures
        x.kind == FabViolationKind::TightClearanceForFab,
        x.severity == Severity::Error,
        x.involved.len() == 2,
        is_tight(b, p.limits().min_clearance.0 as int, x.involved[0], x.involved[1]),
{
    let q = drc::pads_of(b);
    let t = b.traces@;
    let clr = p.limits().min_clearance.0 as int;
    let (n, m) = (q.len() as int, t.len() as int);
    let (f1, f2, f3) = (
        spacing::pads_spaced(q, p),
        spacing::traces_spaced(t, p),
        spacing::traces_spaced_from_pads(b, p),
    );
    let (a1, a2, a3) = (list::upto(f1, n), list::upto(f2, m), list::upto(f3, m));
    drc_laws::joined_holds(a1 + a2, a3, x);
    drc_laws::joined_holds(a1, a2, x);
    list::upto_holds(f1, n, x);
    list::upto_holds(f2, m, x);
    list::upto_holds(f3, m, x);
    if a1.contains(x) {
        let i = choose|i: int| 0 <= i < n && #[trigger] f1(i).contains(x);
        let h = spacing::pad_gaps(q, p, i);
        list::upto_holds(h, n, x);
        let j = choose|j: int| 0 <= j < n && #[trigger] h(j).contains(x);
        pad_laws::listed_pad_is_proper(b, i);
        pad_laws::listed_pad_is_proper(b, j);
        drc_laws::pads_apart_is_exact(q[i], q[j], clr);
        assert(drc_laws::pads_crowd(q[i], q[j], clr));
        assert(x.involved == drc::pads_apart(q[i], q[j], clr)[0].involved);
    } else if a2.contains(x) {
        let i = choose|i: int| 0 <= i < m && #[trigger] f2(i).contains(x);
        let h = spacing::trace_gaps(t, p, i);
        list::upto_holds(h, m, x);
        let j = choose|j: int| 0 <= j < m && #[trigger] h(j).contains(x);
        drc_laws::traces_apart_is_exact(t[i], t[j], clr);
        assert(drc_laws::traces_crowd(t[i], t[j], clr));
        assert(x.involved == drc::traces_apart(t[i], t[j], clr)[0].involved);
    } else {
        let i = choose|i: int| 0 <= i < m && #[trigger] f3(i).contains(x);
        let h = spacing::trace_pad_gaps(t[i], q, p);
        list::upto_holds(h, n, x);
        let j = choose|j: int| 0 <= j < n && #[trigger] h(j).contains(x);
        pad_laws::listed_pad_is_proper(b, j);
        drc_laws::trace_apart_is_exact(t[i], q[j], clr);
        assert(drc_laws::trace_crowds(t[i], q[j], clr));
        assert(x.involved == drc::trace_apart(t[i], q[j], clr)[0].involved);
    }
}

proof fn tight_is_spaced(b: Board, p: Provider, u: Seq<char>, v: Seq<char>) -> (x: Issue)
    requires
        pad_laws::proper(b),
        is_tight(b, p.limits().min_clearance.0 as int, u, v),
    ensures
        spacing::spacing(b, p).contains(x),
        x.kind == FabViolationKind::TightClearanceForFab,
        x.severity == Severity::Error,
        x.involved == seq![u, v],
{
    let q = drc::pads_of(b);
    let t = b.traces@;
    let clr = p.limits().min_clearance.0 as int;
    let (n, m) = (q.len() as int, t.len() as int);
    let (f1, f2, f3) = (
        spacing::pads_spaced(q, p),
        spacing::traces_spaced(t, p),
        spacing::traces_spaced_from_pads(b, p),
    );
    let (a1, a2, a3) = (list::upto(f1, n), list::upto(f2, m), list::upto(f3, m));
    if exists|i: int, j: int|
        0 <= i < j < n && #[trigger] drc_laws::pads_crowd(q[i], q[j], clr) && u == drc::label_of(
            q[i],
        ) && v == drc::label_of(q[j]) {
        let (i, j) = choose|i: int, j: int|
            0 <= i < j < n && #[trigger] drc_laws::pads_crowd(q[i], q[j], clr) && u
                == drc::label_of(q[i]) && v == drc::label_of(q[j]);
        pad_laws::listed_pad_is_proper(b, i);
        pad_laws::listed_pad_is_proper(b, j);
        drc_laws::pads_apart_is_exact(q[i], q[j], clr);
        let h = spacing::pad_gaps(q, p, i);
        let x = h(j)[0];
        assert(drc::pads_apart(q[i], q[j], clr)[0].involved == x.involved);
        assert(h(j).contains(x));
        list::upto_holds(h, n, x);
        assert(f1(i).contains(x));
        list::upto_holds(f1, n, x);
        drc_laws::joined_holds(a1 + a2, a3, x);
        drc_laws::joined_holds(a1, a2, x);
        x
    } else if exists|i: int, j: int|
        0 <= i < j < m && #[trigger] drc_laws::traces_crowd(t[i], t[j], clr) && u == t[i].net@ && v
            == t[j].net@ {
        let (i, j) = choose|i: int, j: int|
            0 <= i < j < m && #[trigger] drc_laws::traces_crowd(t[i], t[j], clr) && u == t[i].net@
                && v == t[j].net@;
        drc_laws::traces_apart_is_exact(t[i], t[j], clr);
        let h = spacing::trace_gaps(t, p, i);
        let x = h(j)[0];
        assert(drc::traces_apart(t[i], t[j], clr)[0].involved == x.involved);
        assert(h(j).contains(x));
        list::upto_holds(h, m, x);
        assert(f2(i).contains(x));
        list::upto_holds(f2, m, x);
        drc_laws::joined_holds(a1 + a2, a3, x);
        drc_laws::joined_holds(a1, a2, x);
        x
    } else {
        let (i, j) = choose|i: int, j: int|
            0 <= i < m && 0 <= j < n && #[trigger] drc_laws::trace_crowds(t[i], q[j], clr) && u
                == t[i].net@ && v == drc::label_of(q[j]);
        pad_laws::listed_pad_is_proper(b, j);
        drc_laws::trace_apart_is_exact(t[i], q[j], clr);
        let h = spacing::trace_pad_gaps(t[i], q, p);
        let x = h(j)[0];
        assert(drc::trace_apart(t[i], q[j], clr)[0].involved == x.involved);
        assert(h(j).contains(x));
        list::upto_holds(h, n, x);
        assert(f3(i).contains(x));
        list::upto_holds(f3, m, x);
        drc_laws::joined_holds(a1 + a2, a3, x);
        x
    }
}

/// The manufacturing check raises an error for a net exactly if a trace or a
/// via of it is below a limit of the provider.
pub proof fn small_features_are_raised(b: Board, p: Provider, net: Seq<char>)
    requires
        pad_laws::proper(b),
    ensures
        ({
            let f = fab::issues_of(b, p);
            let l = p.limits();
            &&& raised(f, FabViolationKind::NarrowTraceForFab, Severity::Error, seq![net])
                <==> has_narrow(b, net, l.min_trace_width.0 as int)
            &&& raised(f, FabViolationKind::SmallDrillForFab, Severity::Error, seq![net])
                <==> has_small(b, net, l.min_drill.0 as int)
            &&& raised(f, FabViolationKind::ThinAnnularRing, Severity::Error, seq![net])
                <==> has_thin(b, net, l.min_annular_ring.0 as int)
        }),
{
    let f = fab::issues_of(b, p);
    let l = p.limits();
    assert forall|x: Issue| #[trigger] f.contains(x) implies {
        &&& x.kind == FabViolationKind::NarrowTraceForFab && x.involved == seq![net] ==> has_narrow(
            b,
            net,
            l.min_trace_width.0 as int,
        )
        &&& x.kind == FabViolationKind::SmallDrillForFab && x.involved == seq![net] ==> has_small(
            b,
            net,
            l.min_drill.0 as int,
        )
        &&& x.kind == FabViolationKind::ThinAnnularRing && x.involved == seq![net] ==> has_thin(
            b,
            net,
            l.min_annular_ring.0 as int,
        )
    } by {
        issues_hold(b, p, x);
        if x.involved == seq![net] {
            assert(x.involved[0] == net);
        }
        if spacing::spacing(b, p).contains(x) {
            spacing_is_tight(b, p, x);
        }
    }
    if has_narrow(b, net, l.min_trace_width.0 as int) {
        let i = choose|i: int|
            0 <= i < b.traces@.len() && (#[trigger] b.traces@[i]).net@ == net
                && b.traces@[i].width.0 < l.min_trace_width.0 - 1;
        let x = fab::narrow(b.traces@[i], p)[0];
        assert(fab::narrow(b.traces@[i], p).contains(x));
        issues_hold(b, p, x);
        assert(f.contains(x));
    }
    if has_small(b, net, l.min_drill.0 as int) {
        let i = choose|i: int|
            0 <= i < b.vias@.len() && (#[trigger] b.vias@[i]).net@ == net && b.vias@[i].drill.0
                < l.min_drill.0 - 1;
        let x = fab::small(b.vias@[i], p)[0];
        assert(fab::small(b.vias@[i], p).contains(x));
        issues_hold(b, p, x);
        assert(f.contains(x));
    }
    if has_thin(b, net, l.min_annular_ring.0 as int) {
        let i = choose|i: int|
            0 <= i < b.vias@.len() && (#[trigger] b.vias@[i]).net@ == net && b.vias@[i].diameter.0
                - b.vias@[i].drill.0 < 2 * (l.min_annular_ring.0 - 1);
        let x = fab::thin(b.vias@[i], p)[0];
        assert(fab::thin(b.vias@[i], p).contains(x));
        issues_hold(b, p, x);
        assert(f.contains(x));
    }
}

/// The manufacturing check warns of a board that is larger than the provider
/// takes, by more than a nanometre, and raises an error for one with more
/// layers.
pub proof fn large_boards_are_raised(b: Board, p: Provider)
    requires
        pad_laws::proper(b),
    ensures
        ({
            let f = fab::issues_of(b, p);
            let l = p.limits();
            &&& raised(f, FabViolationKind::BoardOversize, Severity::Warning, Seq::empty()) <==> (
            b.outline matches Some(o) && (o.max.x.0 - o.min.x.0 > l.max_board_w.0 + 1 || o.max.y.0
                - o.min.y.0 > l.max_board_h.0 + 1))
            &&& raised(f, FabViolationKind::LayerCountUnsupported, Severity::Error, Seq::empty())
                <==> b.stackup.layers@.len() > l.supported_layers
        }),
{
    let f = fab::issues_of(b, p);
    assert forall|x: Issue| #[trigger] f.contains(x) implies {
        &&& x.kind == FabViolationKind::BoardOversize ==> fab::oversize(b, p).contains(x)
        &&& x.kind == FabViolationKind::LayerCountUnsupported ==> fab::crowded(b, p).contains(x)
    } by {
        issues_hold(b, p, x);
        if spacing::spacing(b, p).contains(x) {
            spacing_is_tight(b, p, x);
        }
    }
    let (o, c) = (fab::oversize(b, p), fab::crowded(b, p));
    if o.len() > 0 {
        assert(o.contains(o[0]));
        issues_hold(b, p, o[0]);
        assert(f.contains(o[0]));
    }
    if c.len() > 0 {
        assert(c.contains(c[0]));
        issues_hold(b, p, c[0]);
        assert(f.contains(c[0]));
    }
}

/// The manufacturing check raises an error for two things exactly if they
/// come nearer to each other than the provider allows.
pub proof fn tight_copper_is_raised(b: Board, p: Provider, u: Seq<char>, v: Seq<char>)
    requires
        pad_laws::proper(b),
    ensures
        raised(
            fab::issues_of(b, p),
            FabViolationKind::TightClearanceForFab,
            Severity::Error,
            seq![u, v],
        ) <==> is_tight(b, p.limits().min_clearance.0 as int, u, v),
{
    let f = fab::issues_of(b, p);
    let kind = FabViolationKind::TightClearanceForFab;
    if raised(f, kind, Severity::Error, seq![u, v]) {
        let x = choose|x: Issue| #[trigger]
            f.contains(x) && x.kind == kind && x.severity == Severity::Error && x.involved == seq![
                u,
                v,
            ];
        issues_hold(b, p, x);
        assert(spacing::spacing(b, p).contains(x));
        spacing_is_tight(b, p, x);
        assert(x.involved[0] == u && x.involved[1] == v);
    }
    if is_tight(b, p.limits().min_clearance.0 as int, u, v) {
        let x = tight_is_spaced(b, p, u, v);
        issues_hold(b, p, x);
        assert(f.contains(x));
    }
}

} // verus!
