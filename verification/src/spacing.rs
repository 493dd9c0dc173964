//! The clearance that a fab house asks for: every pair of pads and traces of
//! different nets, held against its limit.

use vstd::prelude::*;

use crate::board::{Board, Footprint, Pad, Trace};
use crate::drc;
use crate::drc::{PadGeom, collect_pad_geometry, pads_apart_at, trace_apart_at, traces_apart_at};
use crate::fab;
use crate::fab::{FabReport, FabViolation, FabViolationKind, Issue, Provider, required_text};
use crate::list;
use crate::violation;
use crate::violation::{Finding, Severity, Violation};

verus! {

/// The issue that a finding about a clearance makes with a provider.
pub open spec fn tight(f: Seq<Finding>, p: Provider) -> Seq<Issue> {
    if f.len() == 0 {
        Seq::empty()
    } else {
        seq![
            Issue {
                kind: FabViolationKind::TightClearanceForFab,
                severity: Severity::Error,
                message: f[0].message + fab::required(p, p.limits().min_clearance),
                involved: f[0].involved,
            },
        ]
    }
}

/// The issues about pad `i` and each later one.
pub open spec fn pad_gaps(g: Seq<(Footprint, Pad)>, p: Provider, i: int) -> spec_fn(int) -> Seq<Issue> {
    |j: int|
        if i < j {
            tight(drc::pads_apart(g[i], g[j], p.limits().min_clearance.0 as int), p)
        } else {
            Seq::empty()
        }
}

/// The issues about pad `i` and all later ones.
pub open spec fn pads_spaced(g: Seq<(Footprint, Pad)>, p: Provider) -> spec_fn(int) -> Seq<Issue> {
    |i: int| list::upto(pad_gaps(g, p, i), g.len() as int)
}

/// The issues about trace `i` and each later one.
pub open spec fn trace_gaps(t: Seq<Trace>, p: Provider, i: int) -> spec_fn(int) -> Seq<Issue> {
    |j: int|
        if i < j {
            tight(drc::traces_apart(t[i], t[j], p.limits().min_clearance.0 as int), p)
        } else {
            Seq::empty()
        }
}

/// The issues about trace `i` and all later ones.
pub open spec fn traces_spaced(t: Seq<Trace>, p: Provider) -> spec_fn(int) -> Seq<Issue> {
    |i: int| list::upto(trace_gaps(t, p, i), t.len() as int)
}

/// The issues about a trace and each pad.
pub open spec fn trace_pad_gaps(t: Trace, g: Seq<(Footprint, Pad)>, p: Provider) -> spec_fn(
    int,
) -> Seq<Issue> {
    |j: int| tight(drc::trace_apart(t, g[j], p.limits().min_clearance.0 as int), p)
}

/// The issues about each trace and all pads.
pub open spec fn traces_spaced_from_pads(b: Board, p: Provider) -> spec_fn(int) -> Seq<Issue> {
    |i: int|
        list::upto(trace_pad_gaps(b.traces@[i], drc::pads_of(b), p), drc::pads_of(b).len() as int)
}

/// All issues about clearances: between pads, between traces, between traces
/// and pads.
pub open spec fn spacing(b: Board, p: Provider) -> Seq<Issue> {
    list::upto(pads_spaced(drc::pads_of(b), p), drc::pads_of(b).len() as int) + list::upto(
        traces_spaced(b.traces@, p),
        b.traces@.len() as int,
    ) + list::upto(traces_spaced_from_pads(b, p), b.traces@.len() as int)
}

fn tight_at(v: Option<Violation>, p: Provider) -> (r: Option<FabViolation>)
    ensures
        fab::given(r) == tight(violation::given(v), p),
{
    match v {
        None => None,
        Some(x) => {
            let r = FabViolation {
                kind: FabViolationKind::TightClearanceForFab,
                severity: Severity::Error,
                message: x.message.concat(required_text(p, p.rules().min_clearance).as_str()),
                involved: x.involved,
            };
            assert(fab::given(Some(r)) =~= tight(violation::given(v), p));
            Some(r)
        },
    }
}

fn check_pads(b: &Board, pads: &Vec<PadGeom>, p: Provider, report: &mut FabReport)
    requires
        drc::lists_pads(pads@, *b),
        old(report).wf(),
    ensures
        final(report).wf(),
        final(report).provider == old(report).provider,
        final(report).found() == old(report).found() + list::upto(
            pads_spaced(drc::pads_of(*b), p),
            drc::pads_of(*b).len() as int,
        ),
{
    let ghost g = drc::pads_of(*b);
    let ghost base = report.found();
    let ghost f = pads_spaced(g, p);
    let clr: i64 = p.rules().min_clearance.0;
    proof {
        list::upto_next(base, f, 0);
    }
    let mut i: usize = 0;
    while i < pads.len()
        invariant
            i <= pads@.len(),
            drc::lists_pads(pads@, *b),
            clr == p.limits().min_clearance.0,
            g == drc::pads_of(*b),
            f == pads_spaced(g, p),
            report.wf(),
            report.provider == old(report).provider,
            report.found() == base + list::upto(f, i as int),
        decreases pads@.len() - i,
    {
        let ghost head = report.found();
        let ghost h = pad_gaps(g, p, i as int);
        proof {
            list::upto_next(head, h, 0);
        }
        let mut j: usize = 0;
        while j < pads.len()
            invariant
                i < pads@.len(),
                j <= pads@.len(),
                drc::lists_pads(pads@, *b),
                clr == p.limits().min_clearance.0,
                g == drc::pads_of(*b),
                h == pad_gaps(g, p, i as int),
                report.wf(),
                report.provider == old(report).provider,
                report.found() == head + list::upto(h, j as int),
            decreases pads@.len() - j,
        {
            let v = if i < j {
                pads_apart_at(&pads[i], &pads[j], clr)
            } else {
                None
            };
            let v = tight_at(v, p);
            report.take(v);
            proof {
                list::upto_next(head, h, j as int);
            }
            j += 1;
        }
        proof {
            list::upto_next(base, f, i as int);
        }
        i += 1;
    }
}

fn check_traces(b: &Board, p: Provider, report: &mut FabReport)
    requires
        b.in_range(),
        old(report).wf(),
    ensures
        final(report).wf(),
        final(report).provider == old(report).provider,
        final(report).found() == old(report).found() + list::upto(
            traces_spaced(b.traces@, p),
            b.traces@.len() as int,
        ),
{
    let ghost base = report.found();
    let ghost f = traces_spaced(b.traces@, p);
    let clr: i64 = p.rules().min_clearance.0;
    proof {
        list::upto_next(base, f, 0);
    }
    let mut i: usize = 0;
    while i < b.traces.len()
        invariant
            i <= b.traces@.len(),
            b.in_range(),
            clr == p.limits().min_clearance.0,
            f == traces_spaced(b.traces@, p),
            report.wf(),
            report.provider == old(report).provider,
            report.found() == base + list::upto(f, i as int),
        decreases b.traces@.len() - i,
    {
        let ghost head = report.found();
        let ghost h = trace_gaps(b.traces@, p, i as int);
        proof {
            list::upto_next(head, h, 0);
        }
        let mut j: usize = 0;
        while j < b.traces.len()
            invariant
                i < b.traces@.len(),
                j <= b.traces@.len(),
                b.in_range(),
                clr == p.limits().min_clearance.0,
                h == trace_gaps(b.traces@, p, i as int),
                report.wf(),
                report.provider == old(report).provider,
                report.found() == head + list::upto(h, j as int),
            decreases b.traces@.len() - j,
        {
            let v = if i < j {
                traces_apart_at(&b.traces[i], &b.traces[j], clr)
            } else {
                None
            };
            let v = tight_at(v, p);
            report.take(v);
            proof {
                list::upto_next(head, h, j as int);
            }
            j += 1;
        }
        proof {
            list::upto_next(base, f, i as int);
        }
        i += 1;
    }
}

fn check_traces_and_pads(b: &Board, pads: &Vec<PadGeom>, p: Provider, report: &mut FabReport)
    requires
        b.in_range(),
        drc::lists_pads(pads@, *b),
        old(report).wf(),
    ensures
        final(report).wf(),
        final(report).provider == old(report).provider,
        final(report).found() == old(report).found() + list::upto(
            traces_spaced_from_pads(*b, p),
            b.traces@.len() as int,
        ),
{
    let ghost base = report.found();
    let ghost f = traces_spaced_from_pads(*b, p);
    let clr: i64 = p.rules().min_clearance.0;
    proof {
        list::upto_next(base, f, 0);
    }
    let mut i: usize = 0;
    while i < b.traces.len()
        invariant
            i <= b.traces@.len(),
            b.in_range(),
            drc::lists_pads(pads@, *b),
            clr == p.limits().min_clearance.0,
            f == traces_spaced_from_pads(*b, p),
            report.wf(),
            report.provider == old(report).provider,
            report.found() == base + list::upto(f, i as int),
        decreases b.traces@.len() - i,
    {
        let t = &b.traces[i];
        let ghost head = report.found();
        let ghost h = trace_pad_gaps(*t, drc::pads_of(*b), p);
        proof {
            list::upto_next(head, h, 0);
        }
        let mut j: usize = 0;
        while j < pads.len()
            invariant
                j <= pads@.len(),
                t.in_range(),
                drc::lists_pads(pads@, *b),
                clr == p.limits().min_clearance.0,
                h == trace_pad_gaps(*t, drc::pads_of(*b), p),
                report.wf(),
                report.provider == old(report).provider,
                report.found() == head + list::upto(h, j as int),
            decreases pads@.len() - j,
        {
            let v = tight_at(trace_apart_at(t, &pads[j], clr), p);
            report.take(v);
            proof {
                list::upto_next(head, h, j as int);
            }
            j += 1;
        }
        proof {
            list::upto_next(base, f, i as int);
        }
        i += 1;
    }
}

/// Adds the issues about clearances to a report.
pub fn check_spacing(b: &Board, p: Provider, report: &mut FabReport)
    requires
        b.in_range(),
        old(report).wf(),
    ensures
        final(report).wf(),
        final(report).provider == old(report).provider,
        final(report).found() == old(report).found() + spacing(*b, p),
{
    let ghost base = report.found();
    let pads = collect_pad_geometry(b);
    check_pads(b, &pads, p, report);
    check_traces(b, p, report);
    check_traces_and_pads(b, &pads, p, report);
    assert(report.found() =~= base + spacing(*b, p));
}

proof fn nearer(q: int, widths: int, loose: int, strict: int)
    requires
        loose <= strict,
        drc::too_near(q, widths, loose),
    ensures
        drc::too_near(q, widths, strict),
{
    let x = 2 * loose - 2 + widths;
    let y = 2 * strict - 2 + widths;
    assert(x * x <= y * y) by (nonlinear_arith)
        requires
            0 < x <= y,
    ;
}

/// Copper that keeps the clearance of one provider keeps that of another
/// that asks for no more.
pub proof fn wider_spacing_is_enough(b: Board, strict: Provider, loose: Provider)
    requires
        spacing(b, strict).len() == 0,
        loose.limits().min_clearance.0 <= strict.limits().min_clearance.0,
    ensures
        spacing(b, loose).len() == 0,
{
    let g = drc::pads_of(b);
    let n = g.len() as int;
    let t = b.traces@;
    let m = t.len() as int;
    let (c, d) = (loose.limits().min_clearance.0 as int, strict.limits().min_clearance.0 as int);
    fab::no_issue(pads_spaced(g, strict), n);
    fab::no_issue(traces_spaced(t, strict), m);
    fab::no_issue(traces_spaced_from_pads(b, strict), m);
    assert forall|i: int| 0 <= i < n implies (#[trigger] pads_spaced(g, loose)(i)).len() == 0 by {
        assert(pads_spaced(g, strict)(i).len() == 0);
        fab::no_issue(pad_gaps(g, strict, i), n);
        assert forall|j: int| 0 <= j < n implies (#[trigger] pad_gaps(g, loose, i)(j)).len()
            == 0 by {
            assert(pad_gaps(g, strict, i)(j).len() == 0);
            let q = 4 * drc::rect_gap2(drc::rect_at(g[i]), drc::rect_at(g[j]));
            if drc::too_near(q, 0, c) {
                nearer(q, 0, c, d);
            }
        }
        fab::still_no_issue(pad_gaps(g, loose, i), n);
    }
    assert forall|i: int| 0 <= i < m implies (#[trigger] traces_spaced(t, loose)(i)).len() == 0 by {
        assert(traces_spaced(t, strict)(i).len() == 0);
        fab::no_issue(trace_gaps(t, strict, i), m);
        assert forall|j: int| 0 <= j < m implies (#[trigger] trace_gaps(t, loose, i)(j)).len()
            == 0 by {
            assert(trace_gaps(t, strict, i)(j).len() == 0);
            let q = crate::thermal::seg_measure(
                drc::apart(),
                t[i].start,
                t[i].end,
                t[j].start,
                t[j].end,
            );
            let w = t[i].width.0 + t[j].width.0;
            if drc::too_near(q, w, c) {
                nearer(q, w, c, d);
            }
        }
        fab::still_no_issue(trace_gaps(t, loose, i), m);
    }
    assert forall|i: int| 0 <= i < m implies (#[trigger] traces_spaced_from_pads(b, loose)(i)).len()
        == 0 by {
        assert(traces_spaced_from_pads(b, strict)(i).len() == 0);
        fab::no_issue(trace_pad_gaps(t[i], g, strict), n);
        assert forall|j: int| 0 <= j < n implies (#[trigger] trace_pad_gaps(t[i], g, loose)(j)).len()
            == 0 by {
            assert(trace_pad_gaps(t[i], g, strict)(j).len() == 0);
            let q = crate::thermal::rect_measure(
                drc::apart(),
                t[i].start,
                t[i].end,
                drc::rect_at(g[j]),
            );
            let w = t[i].width.0 as int;
            if drc::too_near(q, w, c) {
                nearer(q, w, c, d);
            }
        }
        fab::still_no_issue(trace_pad_gaps(t[i], g, loose), n);
    }
    fab::still_no_issue(pads_spaced(g, loose), n);
    fab::still_no_issue(traces_spaced(t, loose), m);
    fab::still_no_issue(traces_spaced_from_pads(b, loose), m);
}

} // verus!
