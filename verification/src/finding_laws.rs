//! What the design rule check finds of single things: pads, traces, vias,
//! bodies, keepouts, nets.

use vstd::prelude::*;

use crate::board::{Board, Footprint, Pad, Trace, Via};
use crate::drc;
use crate::drc::{DrcOptions, ImpedanceReading};
use crate::drc_laws;
use crate::geometry::Rect;
use crate::list;
use crate::nearness;
use crate::pad_laws;
use crate::violation::{Finding, Severity, ViolationKind};

verus! {

/// The findings of a kind are one for each number below `n` that has the
/// property: of that severity, and naming those.
pub open spec fn exactly(
    f: Seq<Finding>,
    kind: ViolationKind,
    severity: Severity,
    n: int,
    p: spec_fn(int) -> bool,
    who: spec_fn(int) -> Seq<Seq<char>>,
) -> bool {
    &&& drc_laws::tally_of(f, kind) == list::how_many(p, n)
    &&& forall|i: int|
        0 <= i < n && #[trigger] p(i) ==> drc_laws::flagged(f, kind, severity, who(i))
    &&& forall|k: int|
        0 <= k < f.len() && (#[trigger] f[k]).kind == kind ==> found_for(f[k], severity, n, p, who)
}

/// The finding is about some number below `n` that has the property.
pub open spec fn found_for(
    x: Finding,
    severity: Severity,
    n: int,
    p: spec_fn(int) -> bool,
    who: spec_fn(int) -> Seq<Seq<char>>,
) -> bool {
    exists|i: int|
        0 <= i < n && #[trigger] p(i) && x.severity == severity && x.involved == who(i)
}

/// What is given for a number: one finding where it has the property, else
/// none.
pub open spec fn gives(
    g: Seq<Finding>,
    kind: ViolationKind,
    severity: Severity,
    holds: bool,
    who: Seq<Seq<char>>,
) -> bool {
    &&& g.len() == (if holds {
        1nat
    } else {
        0nat
    })
    &&& holds ==> g[0].kind == kind && g[0].severity == severity && g[0].involved == who
}

proof fn tally_is_counted(
    g: spec_fn(int) -> Seq<Finding>,
    kind: ViolationKind,
    severity: Severity,
    n: int,
    p: spec_fn(int) -> bool,
    who: spec_fn(int) -> Seq<Seq<char>>,
)
    requires
        forall|i: int| 0 <= i < n ==> gives(#[trigger] g(i), kind, severity, p(i), who(i)),
    ensures
        drc_laws::tally_of(list::upto(g, n), kind) == list::how_many(p, n),
    decreases n,
{
    reveal_with_fuel(drc_laws::tally_of, 2);
    if n > 0 {
        tally_is_counted(g, kind, severity, n - 1, p, who);
        drc_laws::tally_joined(list::upto(g, n - 1), g(n - 1), kind);
        assert(gives(g(n - 1), kind, severity, p(n - 1), who(n - 1)));
        if p(n - 1) {
            assert(g(n - 1).drop_last().len() == 0);
        }
    }
}

pub proof fn single_findings(
    f: Seq<Finding>,
    kind: ViolationKind,
    severity: Severity,
    n: int,
    p: spec_fn(int) -> bool,
    who: spec_fn(int) -> Seq<Seq<char>>,
    g: spec_fn(int) -> Seq<Finding>,
)
    requires
        forall|x: Finding|
            x.kind == kind ==> (#[trigger] f.contains(x) <==> list::upto(g, n).contains(x)),
        drc_laws::tally_of(f, kind) == drc_laws::tally_of(list::upto(g, n), kind),
        forall|i: int| 0 <= i < n ==> gives(#[trigger] g(i), kind, severity, p(i), who(i)),
    ensures
        exactly(f, kind, severity, n, p, who),
{
    tally_is_counted(g, kind, severity, n, p, who);
    assert forall|i: int| 0 <= i < n && #[trigger] p(i) implies drc_laws::flagged(
        f,
        kind,
        severity,
        who(i),
    ) by {
        assert(gives(g(i), kind, severity, p(i), who(i)));
        let x = g(i)[0];
        assert(g(i).contains(x));
        list::upto_holds(g, n, x);
        assert(f.contains(x));
        drc_laws::held_is_flagged(f, x);
    }
    assert forall|k: int| 0 <= k < f.len() && (#[trigger] f[k]).kind == kind implies found_for(
        f[k],
        severity,
        n,
        p,
        who,
    ) by {
        let x = f[k];
        assert(f.contains(x));
        list::upto_holds(g, n, x);
        let i = choose|i: int| 0 <= i < n && #[trigger] g(i).contains(x);
        assert(gives(g(i), kind, severity, p(i), who(i)));
        assert(p(i));
    }
}

/// The findings of a kind are one for each pair of numbers, below `m` and
/// `n`, that has the property: of that severity, and naming those.
pub open spec fn exactly_pairs(
    f: Seq<Finding>,
    kind: ViolationKind,
    severity: Severity,
    m: int,
    n: int,
    p: spec_fn(int, int) -> bool,
    who: spec_fn(int, int) -> Seq<Seq<char>>,
) -> bool {
    &&& drc_laws::tally_of(f, kind) == list::total(
        |i: int| list::how_many(|j: int| p(i, j), n),
        m,
    )
    &&& forall|i: int, j: int|
        0 <= i < m && 0 <= j < n && #[trigger] p(i, j) ==> drc_laws::flagged(
            f,
            kind,
            severity,
            who(i, j),
        )
    &&& forall|k: int|
        0 <= k < f.len() && (#[trigger] f[k]).kind == kind ==> found_for_pair(
            f[k],
            severity,
            m,
            n,
            p,
            who,
        )
}

/// The finding is about some pair that has the property.
pub open spec fn found_for_pair(
    x: Finding,
    severity: Severity,
    m: int,
    n: int,
    p: spec_fn(int, int) -> bool,
    who: spec_fn(int, int) -> Seq<Seq<char>>,
) -> bool {
    exists|i: int, j: int|
        0 <= i < m && 0 <= j < n && #[trigger] p(i, j) && x.severity == severity && x.involved
            == who(i, j)
}

proof fn pair_tally_is_counted(
    g: spec_fn(int) -> Seq<Finding>,
    h: spec_fn(int, int) -> Seq<Finding>,
    kind: ViolationKind,
    severity: Severity,
    m: int,
    n: int,
    p: spec_fn(int, int) -> bool,
    who: spec_fn(int, int) -> Seq<Seq<char>>,
)
    requires
        forall|i: int| 0 <= i < m ==> #[trigger] g(i) == list::upto(|j: int| h(i, j), n),
        forall|i: int, j: int|
            0 <= i < m && 0 <= j < n ==> gives(
                #[trigger] h(i, j),
                kind,
                severity,
                p(i, j),
                who(i, j),
            ),
    ensures
        drc_laws::tally_of(list::upto(g, m), kind) == list::total(
            |i: int| list::how_many(|j: int| p(i, j), n),
            m,
        ),
    decreases m,
{
    let s = |i: int| list::how_many(|j: int| p(i, j), n);
    if m > 0 {
        pair_tally_is_counted(g, h, kind, severity, m - 1, n, p, who);
        drc_laws::tally_joined(list::upto(g, m - 1), g(m - 1), kind);
        let (q, w) = (|j: int| p(m - 1, j), |j: int| who(m - 1, j));
        let r = |j: int| h(m - 1, j);
        assert forall|j: int| 0 <= j < n implies gives(
            #[trigger] r(j),
            kind,
            severity,
            q(j),
            w(j),
        ) by {
            assert(gives(h(m - 1, j), kind, severity, p(m - 1, j), who(m - 1, j)));
        }
        tally_is_counted(r, kind, severity, n, q, w);
        assert(s(m - 1) == list::how_many(q, n));
        assert(list::total(s, m) == list::total(s, m - 1) + s(m - 1));
    }
}

pub proof fn pair_findings(
    f: Seq<Finding>,
    kind: ViolationKind,
    severity: Severity,
    m: int,
    n: int,
    p: spec_fn(int, int) -> bool,
    who: spec_fn(int, int) -> Seq<Seq<char>>,
    g: spec_fn(int) -> Seq<Finding>,
    h: spec_fn(int, int) -> Seq<Finding>,
)
    requires
        forall|x: Finding|
            x.kind == kind ==> (#[trigger] f.contains(x) <==> list::upto(g, m).contains(x)),
        drc_laws::tally_of(f, kind) == drc_laws::tally_of(list::upto(g, m), kind),
        forall|i: int| 0 <= i < m ==> #[trigger] g(i) == list::upto(|j: int| h(i, j), n),
        forall|i: int, j: int|
            0 <= i < m && 0 <= j < n ==> gives(
                #[trigger] h(i, j),
                kind,
                severity,
                p(i, j),
                who(i, j),
            ),
    ensures
        exactly_pairs(f, kind, severity, m, n, p, who),
{
    pair_tally_is_counted(g, h, kind, severity, m, n, p, who);
    assert forall|i: int, j: int|
        0 <= i < m && 0 <= j < n && #[trigger] p(i, j) implies drc_laws::flagged(
        f,
        kind,
        severity,
        who(i, j),
    ) by {
        assert(gives(h(i, j), kind, severity, p(i, j), who(i, j)));
        let x = h(i, j)[0];
        let r = |j: int| h(i, j);
        assert(r(j).contains(x));
        list::upto_holds(r, n, x);
        assert(g(i).contains(x));
        list::upto_holds(g, m, x);
        assert(f.contains(x));
        drc_laws::held_is_flagged(f, x);
    }
    assert forall|k: int| 0 <= k < f.len() && (#[trigger] f[k]).kind == kind implies found_for_pair(
        f[k],
        severity,
        m,
        n,
        p,
        who,
    ) by {
        let x = f[k];
        assert(f.contains(x));
        list::upto_holds(g, m, x);
        let i = choose|i: int| 0 <= i < m && #[trigger] g(i).contains(x);
        let r = |j: int| h(i, j);
        list::upto_holds(r, n, x);
        let j = choose|j: int| 0 <= j < n && #[trigger] r(j).contains(x);
        assert(gives(h(i, j), kind, severity, p(i, j), who(i, j)));
        assert(p(i, j));
    }
}

/// The two lists in one.
pub open spec fn glued(
    f: spec_fn(int) -> Seq<Finding>,
    m: int,
    g: spec_fn(int) -> Seq<Finding>,
) -> spec_fn(int) -> Seq<Finding> {
    |i: int|
        if i < m {
            f(i)
        } else {
            g(i - m)
        }
}

proof fn upto_same(f: spec_fn(int) -> Seq<Finding>, g: spec_fn(int) -> Seq<Finding>, n: int)
    requires
        forall|i: int| 0 <= i < n ==> #[trigger] f(i) == g(i),
    ensures
        list::upto(f, n) == list::upto(g, n),
    decreases n,
{
    if n > 0 {
        upto_same(f, g, n - 1);
        assert(f(n - 1) == g(n - 1));
    }
}

pub proof fn upto_glued(
    f: spec_fn(int) -> Seq<Finding>,
    m: int,
    g: spec_fn(int) -> Seq<Finding>,
    n: int,
)
    requires
        0 <= m,
        0 <= n,
    ensures
        list::upto(glued(f, m, g), m + n) == list::upto(f, m) + list::upto(g, n),
    decreases n,
{
    let h = glued(f, m, g);
    if n > 0 {
        upto_glued(f, m, g, n - 1);
        assert(h(m + n - 1) == g(n - 1));
        assert(list::upto(f, m) + list::upto(g, n) =~= list::upto(f, m) + list::upto(g, n - 1) + g(
            n - 1,
        ));
    } else {
        upto_same(h, f, m);
        assert(list::upto(f, m) + list::upto(g, n) =~= list::upto(f, m));
    }
}

/// The check warns of each trace narrower than the options allow, by more
/// than a nanometre, and of no other.
pub proof fn narrow_traces_are_flagged(b: Board, opts: DrcOptions)
    ensures
        exactly(
            drc::findings_of(b, opts),
            ViolationKind::NarrowTrace,
            Severity::Warning,
            b.traces@.len() as int,
            |i: int| b.traces@[i].width.0 < opts.min_trace_width.0 - 1,
            |i: int| seq![b.traces@[i].net@],
        ),
{
    drc_laws::findings_hold_parts(b, opts, ViolationKind::NarrowTrace);
    single_findings(
        drc::findings_of(b, opts),
        ViolationKind::NarrowTrace,
        Severity::Warning,
        b.traces@.len() as int,
        |i: int| b.traces@[i].width.0 < opts.min_trace_width.0 - 1,
        |i: int| seq![b.traces@[i].net@],
        drc::narrow_traces(b.traces@, opts.min_trace_width.0 as int),
    );
}

/// The hole of the pad is smaller than `min`, by more than a nanometre.
pub open spec fn small_hole(pad: Pad, min: int) -> bool {
    pad.drill matches Some(d) && d.0 < min - 1
}

/// The name of a net, or nothing.
pub open spec fn name_or_nothing(net: Option<String>) -> Seq<char> {
    match net {
        Some(n) => n@,
        None => Seq::empty(),
    }
}

/// The check warns of each hole smaller than the options allow, by more than
/// a nanometre, first those of vias, then those of pads, and of no other.
pub proof fn small_drills_are_flagged(b: Board, opts: DrcOptions)
    ensures
        ({
            let v = b.vias@;
            let p = drc::pads_of(b);
            let n = v.len() as int;
            let min = opts.min_drill.0 as int;
            exactly(
                drc::findings_of(b, opts),
                ViolationKind::SmallDrill,
                Severity::Warning,
                n + p.len(),
                |i: int|
                    if i < n {
                        v[i].drill.0 < min - 1
                    } else {
                        small_hole(p[i - n].1, min)
                    },
                |i: int|
                    if i < n {
                        seq![v[i].net@]
                    } else {
                        seq![name_or_nothing(p[i - n].1.net)]
                    },
            )
        }),
{
    let v = b.vias@;
    let p = drc::pads_of(b);
    let n = v.len() as int;
    let min = opts.min_drill.0 as int;
    let (f, g) = (drc::small_via_drills(v, min), drc::small_pad_drills(p, min));
    drc_laws::findings_hold_parts(b, opts, ViolationKind::SmallDrill);
    upto_glued(f, n, g, p.len() as int);
    single_findings(
        drc::findings_of(b, opts),
        ViolationKind::SmallDrill,
        Severity::Warning,
        n + p.len(),
        |i: int|
            if i < n {
                v[i].drill.0 < min - 1
            } else {
                small_hole(p[i - n].1, min)
            },
        |i: int|
            if i < n {
                seq![v[i].net@]
            } else {
                seq![name_or_nothing(p[i - n].1.net)]
            },
        glued(f, n, g),
    );
}

/// The impedance is known and more than a twentieth of the target off it.
pub open spec fn is_off_target(r: ImpedanceReading) -> bool {
    &&& r.actual > 0
    &&& r.target >= 0
    &&& 20 * r.actual > 21 * r.target || 20 * r.actual < 19 * r.target
}

/// The check warns of each impedance more than five percent off its target,
/// and of no other.
pub proof fn mismatches_are_flagged(b: Board, opts: DrcOptions)
    ensures
        exactly(
            drc::findings_of(b, opts),
            ViolationKind::ImpedanceMismatch,
            Severity::Warning,
            opts.impedances@.len() as int,
            |i: int| is_off_target(opts.impedances@[i]),
            |i: int| seq![opts.impedances@[i].net@],
        ),
{
    drc_laws::findings_hold_parts(b, opts, ViolationKind::ImpedanceMismatch);
    single_findings(
        drc::findings_of(b, opts),
        ViolationKind::ImpedanceMismatch,
        Severity::Warning,
        opts.impedances@.len() as int,
        |i: int| is_off_target(opts.impedances@[i]),
        |i: int| seq![opts.impedances@[i].net@],
        drc::impedances(opts.impedances@),
    );
}

/// The two rectangles have a point in common.
pub open spec fn share_point(r: Rect, s: Rect) -> bool {
    exists|x: int, y: int| #[trigger] nearness::in_rect(r, x, y, 1) && nearness::in_rect(s, x, y, 1)
}

/// Another pad with copper on a common layer, of the same net, touches.
pub open spec fn pad_touches(a: (Footprint, Pad), b: (Footprint, Pad)) -> bool {
    &&& exists|layer| #[trigger] drc_laws::pads_meet_on(a.1, b.1, layer)
    &&& drc_laws::name_of(a.1.net) == drc_laws::name_of(b.1.net)
    &&& share_point(a.0.rect_of(a.1), b.0.rect_of(b.1))
}

/// A trace of the net on a layer of the pad comes within half its width of
/// the pad, and a nanometre.
pub open spec fn trace_touches(t: Trace, p: (Footprint, Pad), net: Seq<char>) -> bool {
    let x = 2 + t.width.0;
    &&& drc_laws::pad_is_on(p.1, t.layer)
    &&& t.net@ == net
    &&& x >= 0
    &&& nearness::as_close_rect(t.start, t.end, p.0.rect_of(p.1), 4, x * x)
}

/// How far a coordinate is from an interval.
pub open spec fn outside_by(c: int, lo: int, hi: int) -> int {
    if c < lo {
        lo - c
    } else if c > hi {
        c - hi
    } else {
        0
    }
}

/// A via of the net comes within half its diameter of the pad, and a
/// nanometre.
pub open spec fn via_touches(v: Via, p: (Footprint, Pad), net: Seq<char>) -> bool {
    let r = p.0.rect_of(p.1);
    let dx = outside_by(v.position.x.0 as int, r.min.x.0 as int, r.max.x.0 as int);
    let dy = outside_by(v.position.y.0 as int, r.min.y.0 as int, r.max.y.0 as int);
    let x = 2 + v.diameter.0;
    v.net@ == net && x >= 0 && 4 * (dx * dx + dy * dy) <= x * x
}

/// Copper of the net touches pad `i`: another pad, a trace, a via, or a pour
/// on a layer where the pad has copper.
pub open spec fn is_touched(b: Board, i: int, net: Seq<char>) -> bool {
    let p = drc::pads_of(b);
    ||| exists|j: int|
        0 <= j < p.len() && j != i && p[i].1.net is Some && #[trigger] pad_touches(p[i], p[j])
    ||| exists|k: int| 0 <= k < b.traces@.len() && #[trigger] trace_touches(b.traces@[k], p[i], net)
    ||| exists|k: int| 0 <= k < b.vias@.len() && #[trigger] via_touches(b.vias@[k], p[i], net)
    ||| exists|k: int|
        0 <= k < b.pours@.len() && (#[trigger] b.pours@[k]).net@ == net && drc_laws::pad_is_on(
            p[i].1,
            b.pours@[k].layer,
        )
}

proof fn touching_is_no_gap(a: Rect, b: Rect)
    requires
        a.wf(),
        b.wf(),
    ensures
        drc::rect_gap2(a, b) <= 0 <==> share_point(a, b),
{
    let gx = if b.min.x.0 - a.max.x.0 > a.min.x.0 - b.max.x.0 {
        b.min.x.0 - a.max.x.0
    } else {
        a.min.x.0 - b.max.x.0
    };
    let gy = if b.min.y.0 - a.max.y.0 > a.min.y.0 - b.max.y.0 {
        b.min.y.0 - a.max.y.0
    } else {
        a.min.y.0 - b.max.y.0
    };
    let ux = if gx > 0 {
        gx
    } else {
        0
    };
    let uy = if gy > 0 {
        gy
    } else {
        0
    };
    assert(ux * ux + uy * uy <= 0 <==> ux == 0 && uy == 0) by (nonlinear_arith)
        requires
            ux >= 0,
            uy >= 0,
    ;
    assert(drc::rect_gap2(a, b) == ux * ux + uy * uy);
    if gx <= 0 && gy <= 0 {
        let x = if a.min.x.0 > b.min.x.0 {
            a.min.x.0 as int
        } else {
            b.min.x.0 as int
        };
        let y = if a.min.y.0 > b.min.y.0 {
            a.min.y.0 as int
        } else {
            b.min.y.0 as int
        };
        assert(nearness::in_rect(a, x, y, 1) && nearness::in_rect(b, x, y, 1));
    }
}

proof fn via_gap_is_distance(v: Via, p: (Footprint, Pad), net: Seq<char>)
    requires
        p.0.rect_of(p.1).wf(),
    ensures
        drc::via_meets(v, p, net) <==> via_touches(v, p, net),
{
}

/// A pad is connected exactly if copper of its net touches it.
proof fn connected_is_touched(b: Board, i: int, net: Seq<char>)
    requires
        pad_laws::proper(b),
        0 <= i < drc::pads_of(b).len(),
    ensures
        drc::connected(b, i, net) <==> is_touched(b, i, net),
{
    let p = drc::pads_of(b);
    pad_laws::listed_pad_is_proper(b, i);
    assert forall|j: int| 0 <= j < p.len() implies (#[trigger] pad_touches(p[i], p[j])
        <==> drc::neighbours(p[i], p[j])) by {
        pad_laws::listed_pad_is_proper(b, j);
        touching_is_no_gap(p[i].0.rect_of(p[i].1), p[j].0.rect_of(p[j].1));
        if drc::share_layer(p[j], p[i]) {
            let layer = if p[i].1.drill is Some {
                p[j].1.layer
            } else {
                p[i].1.layer
            };
            assert(drc_laws::pads_meet_on(p[i].1, p[j].1, layer));
        }
    }
    assert(drc::has_neighbour(p, i) ==> exists|j: int|
        0 <= j < p.len() && j != i && p[i].1.net is Some && #[trigger] pad_touches(p[i], p[j])) by {
        if drc::has_neighbour(p, i) {
            let j = choose|j: int|
                0 <= j < p.len() && j != i && #[trigger] drc::neighbours(p[i], p[j]);
            assert(pad_touches(p[i], p[j]));
        }
    }
    assert forall|k: int| 0 <= k < b.traces@.len() implies (#[trigger] trace_touches(
        b.traces@[k],
        p[i],
        net,
    ) <==> drc::trace_meets(b.traces@[k], p[i], net)) by {
        let t = b.traces@[k];
        let x = 2 + t.width.0;
        assert(t.in_range());
        nearness::rect_measure_is_distance(
            drc::contact(),
            t.start,
            t.end,
            p[i].0.rect_of(p[i].1),
            x * x,
        );
    }
    assert forall|k: int| 0 <= k < b.traces@.len() && #[trigger] drc::trace_meets(
        b.traces@[k],
        p[i],
        net,
    ) implies trace_touches(b.traces@[k], p[i], net) by {
        assert(trace_touches(b.traces@[k], p[i], net) <==> drc::trace_meets(
            b.traces@[k],
            p[i],
            net,
        ));
    }
    assert forall|k: int| 0 <= k < b.vias@.len() implies (#[trigger] via_touches(
        b.vias@[k],
        p[i],
        net,
    ) <==> drc::via_meets(b.vias@[k], p[i], net)) by {
        via_gap_is_distance(b.vias@[k], p[i], net);
    }
    assert forall|k: int| 0 <= k < b.vias@.len() && #[trigger] drc::via_meets(
        b.vias@[k],
        p[i],
        net,
    ) implies via_touches(b.vias@[k], p[i], net) by {
        via_gap_is_distance(b.vias@[k], p[i], net);
    }
}

/// Pad `i` is on a net, and no copper of the net touches it.
pub open spec fn is_unconnected(b: Board, i: int) -> bool {
    drc::pads_of(b)[i].1.net matches Some(n) && !is_touched(b, i, n@)
}

/// The check warns of each pad on a net that no copper of the net touches,
/// and of no other.
pub proof fn unconnected_pads_are_flagged(b: Board, opts: DrcOptions)
    requires
        pad_laws::proper(b),
    ensures
        exactly(
            drc::findings_of(b, opts),
            ViolationKind::UnconnectedPad,
            Severity::Warning,
            drc::pads_of(b).len() as int,
            |i: int| is_unconnected(b, i),
            |i: int| seq![drc::label_of(drc::pads_of(b)[i])],
        ),
{
    let p = drc::pads_of(b);
    let q = |i: int| is_unconnected(b, i);
    let who = |i: int| seq![drc::label_of(drc::pads_of(b)[i])];
    let g = drc::unconnected(b);
    drc_laws::findings_hold_parts(b, opts, ViolationKind::UnconnectedPad);
    assert forall|i: int| 0 <= i < p.len() implies gives(
        #[trigger] g(i),
        ViolationKind::UnconnectedPad,
        Severity::Warning,
        q(i),
        who(i),
    ) by {
        if let Some(n) = p[i].1.net {
            connected_is_touched(b, i, n@);
        }
    }
    single_findings(
        drc::findings_of(b, opts),
        ViolationKind::UnconnectedPad,
        Severity::Warning,
        p.len() as int,
        q,
        who,
        g,
    );
}

/// Pad `k` of the list is the first with that reference and number.
pub open spec fn is_first_pad(b: Board, reference: Seq<char>, number: Seq<char>, k: int) -> bool {
    let p = drc::pads_of(b);
    &&& 0 <= k < p.len()
    &&& p[k].0.reference@ == reference && p[k].1.number@ == number
    &&& forall|m: int|
        0 <= m < k ==> !((#[trigger] p[m]).0.reference@ == reference && p[m].1.number@ == number)
}

/// The pad is on no net, or no copper of its net touches the first pad of
/// that name.
pub open spec fn is_loose(b: Board, fp: Footprint, pad: Pad) -> bool {
    match pad.net {
        None => true,
        Some(n) => forall|k: int| #[trigger]
            is_first_pad(b, fp.reference@, pad.number@, k) ==> !is_touched(b, k, n@),
    }
}

proof fn pad_index_is_first(
    b: Board,
    reference: Seq<char>,
    number: Seq<char>,
    i: int,
)
    requires
        0 <= i <= drc::pads_of(b).len(),
        forall|m: int|
            0 <= m < i ==> !((#[trigger] drc::pads_of(b)[m]).0.reference@ == reference
                && drc::pads_of(b)[m].1.number@ == number),
    ensures
        ({
            let k = drc::pad_index(drc::pads_of(b), reference, number, i);
            &&& k < drc::pads_of(b).len() ==> is_first_pad(b, reference, number, k)
            &&& forall|m: int| #[trigger] is_first_pad(b, reference, number, m) ==> m == k
        }),
    decreases drc::pads_of(b).len() - i,
{
    let p = drc::pads_of(b);
    if i < p.len() && !(p[i].0.reference@ == reference && p[i].1.number@ == number) {
        pad_index_is_first(b, reference, number, i + 1);
    }
}

proof fn dangling_is_loose(b: Board, fp: Footprint, pad: Pad)
    requires
        pad_laws::proper(b),
    ensures
        drc::dangles(b, fp, pad) <==> is_loose(b, fp, pad),
{
    let p = drc::pads_of(b);
    let k = drc::pad_index(p, fp.reference@, pad.number@, 0);
    pad_index_is_first(b, fp.reference@, pad.number@, 0);
    if let Some(n) = pad.net {
        if k < p.len() {
            connected_is_touched(b, k, n@);
        }
    }
}

/// The names in a finding about a component are those of its loose pads.
pub proof fn loose_pads_are_named(b: Board, fp: Footprint, name: Seq<char>)
    requires
        pad_laws::proper(b),
    ensures
        drc::dangling(b, fp).contains(name) <==> exists|j: int|
            0 <= j < fp.pads@.len() && is_loose(b, fp, #[trigger] fp.pads@[j]) && name
                == fp.reference@ + "."@ + fp.pads@[j].number@,
{
    let n = fp.pads@.len() as int;
    let g = drc::dangling_pads(b, fp);
    list::upto_holds(g, n, name);
    if drc::dangling(b, fp).contains(name) {
        let j = choose|j: int| 0 <= j < n && #[trigger] g(j).contains(name);
        dangling_is_loose(b, fp, fp.pads@[j]);
    }
    if exists|j: int|
        0 <= j < fp.pads@.len() && is_loose(b, fp, #[trigger] fp.pads@[j]) && name
            == fp.reference@ + "."@ + fp.pads@[j].number@ {
        let j = choose|j: int|
            0 <= j < fp.pads@.len() && is_loose(b, fp, #[trigger] fp.pads@[j]) && name
                == fp.reference@ + "."@ + fp.pads@[j].number@;
        dangling_is_loose(b, fp, fp.pads@[j]);
        assert(g(j)[0] == name);
        assert(g(j).contains(name));
    }
}

/// The footprint has fewer than eight pads, and one of them is loose.
pub open spec fn is_loose_component(b: Board, fp: Footprint) -> bool {
    fp.pads@.len() < 8 && exists|j: int|
        0 <= j < fp.pads@.len() && is_loose(b, fp, #[trigger] fp.pads@[j])
}

/// The check warns of each component with fewer than eight pads of which
/// some are loose, and of no other.
pub proof fn loose_components_are_flagged(b: Board, opts: DrcOptions)
    requires
        pad_laws::proper(b),
    ensures
        exactly(
            drc::findings_of(b, opts),
            ViolationKind::SmallComponentDangling,
            Severity::Warning,
            b.footprints@.len() as int,
            |i: int| is_loose_component(b, b.footprints@[i]),
            |i: int| drc::dangling(b, b.footprints@[i]),
        ),
{
    let q = |i: int| is_loose_component(b, b.footprints@[i]);
    let who = |i: int| drc::dangling(b, b.footprints@[i]);
    let g = drc::small_dangling(b);
    drc_laws::findings_hold_parts(b, opts, ViolationKind::SmallComponentDangling);
    assert forall|i: int| 0 <= i < b.footprints@.len() implies gives(
        #[trigger] g(i),
        ViolationKind::SmallComponentDangling,
        Severity::Warning,
        q(i),
        who(i),
    ) by {
        let fp = b.footprints@[i];
        let d = drc::dangling(b, fp);
        if d.len() > 0 {
            assert(d.contains(d[0]));
            loose_pads_are_named(b, fp, d[0]);
        }
        if exists|j: int| 0 <= j < fp.pads@.len() && is_loose(b, fp, #[trigger] fp.pads@[j]) {
            let j = choose|j: int|
                0 <= j < fp.pads@.len() && is_loose(b, fp, #[trigger] fp.pads@[j]);
            loose_pads_are_named(b, fp, fp.reference@ + "."@ + fp.pads@[j].number@);
        }
    }
    single_findings(
        drc::findings_of(b, opts),
        ViolationKind::SmallComponentDangling,
        Severity::Warning,
        b.footprints@.len() as int,
        q,
        who,
        g,
    );
}

/// The check raises one error for each two traces that come nearer than
/// their nets have to keep, and no more.
pub proof fn crowded_traces_are_counted(b: Board, opts: DrcOptions)
    ensures
        exactly_pairs(
            drc::findings_of(b, opts),
            ViolationKind::TraceTraceClearance,
            Severity::Error,
            b.traces@.len() as int,
            b.traces@.len() as int,
            |i: int, j: int|
                i < j && drc_laws::traces_crowd(
                    b.traces@[i],
                    b.traces@[j],
                    opts.clearance(Some(b.traces@[i].net@), Some(b.traces@[j].net@)),
                ),
            |i: int, j: int| seq![b.traces@[i].net@, b.traces@[j].net@],
        ),
{
    let t = b.traces@;
    let n = t.len() as int;
    let p = |i: int, j: int|
        i < j && drc_laws::traces_crowd(
            b.traces@[i],
            b.traces@[j],
            opts.clearance(Some(b.traces@[i].net@), Some(b.traces@[j].net@)),
        );
    let who = |i: int, j: int| seq![b.traces@[i].net@, b.traces@[j].net@];
    let h = |i: int, j: int| drc::trace_traces(t, opts, i)(j);
    let g = drc::traces_clear(t, opts);
    drc_laws::findings_hold_parts(b, opts, ViolationKind::TraceTraceClearance);
    assert forall|i: int| 0 <= i < n implies #[trigger] g(i) == list::upto(|j: int| h(i, j), n) by {
        assert((|j: int| h(i, j)) =~= drc::trace_traces(t, opts, i));
    }
    assert forall|i: int, j: int| 0 <= i < n && 0 <= j < n implies gives(
        #[trigger] h(i, j),
        ViolationKind::TraceTraceClearance,
        Severity::Error,
        p(i, j),
        who(i, j),
    ) by {
        drc_laws::traces_apart_is_exact(
            t[i],
            t[j],
            opts.clearance(Some(t[i].net@), Some(t[j].net@)),
        );
    }
    pair_findings(
        drc::findings_of(b, opts),
        ViolationKind::TraceTraceClearance,
        Severity::Error,
        n,
        n,
        p,
        who,
        g,
        h,
    );
}

/// The check raises one error for each two pads that come nearer than their
/// nets have to keep, and no more.
pub proof fn crowded_pads_are_counted(b: Board, opts: DrcOptions)
    requires
        pad_laws::proper(b),
    ensures
        ({
            let q = drc::pads_of(b);
            exactly_pairs(
                drc::findings_of(b, opts),
                ViolationKind::PadPadClearance,
                Severity::Error,
                q.len() as int,
                q.len() as int,
                |i: int, j: int|
                    i < j && drc_laws::pads_crowd(
                        q[i],
                        q[j],
                        opts.clearance(
                            drc_laws::name_of(q[i].1.net),
                            drc_laws::name_of(q[j].1.net),
                        ),
                    ),
                |i: int, j: int| seq![drc::label_of(q[i]), drc::label_of(q[j])],
            )
        }),
{
    let q = drc::pads_of(b);
    let n = q.len() as int;
    let p = |i: int, j: int|
        i < j && drc_laws::pads_crowd(
            q[i],
            q[j],
            opts.clearance(drc_laws::name_of(q[i].1.net), drc_laws::name_of(q[j].1.net)),
        );
    let who = |i: int, j: int| seq![drc::label_of(q[i]), drc::label_of(q[j])];
    let h = |i: int, j: int| drc::pad_pads(q, opts, i)(j);
    let g = drc::pads_clear(q, opts);
    drc_laws::findings_hold_parts(b, opts, ViolationKind::PadPadClearance);
    assert forall|i: int| 0 <= i < n implies #[trigger] g(i) == list::upto(|j: int| h(i, j), n) by {
        assert((|j: int| h(i, j)) =~= drc::pad_pads(q, opts, i));
    }
    assert forall|i: int, j: int| 0 <= i < n && 0 <= j < n implies gives(
        #[trigger] h(i, j),
        ViolationKind::PadPadClearance,
        Severity::Error,
        p(i, j),
        who(i, j),
    ) by {
        pad_laws::listed_pad_is_proper(b, i);
        pad_laws::listed_pad_is_proper(b, j);
        drc_laws::pads_apart_is_exact(
            q[i],
            q[j],
            opts.clearance(drc_laws::name_of(q[i].1.net), drc_laws::name_of(q[j].1.net)),
        );
    }
    pair_findings(
        drc::findings_of(b, opts),
        ViolationKind::PadPadClearance,
        Severity::Error,
        n,
        n,
        p,
        who,
        g,
        h,
    );
}

/// The check raises one error for each trace and pad that come nearer than
/// their nets have to keep, and no more.
pub proof fn crowded_traces_and_pads_are_counted(b: Board, opts: DrcOptions)
    requires
        pad_laws::proper(b),
    ensures
        ({
            let q = drc::pads_of(b);
            exactly_pairs(
                drc::findings_of(b, opts),
                ViolationKind::TracePadClearance,
                Severity::Error,
                b.traces@.len() as int,
                q.len() as int,
                |i: int, j: int|
                    drc_laws::trace_crowds(
                        b.traces@[i],
                        q[j],
                        opts.clearance(Some(b.traces@[i].net@), drc_laws::name_of(q[j].1.net)),
                    ),
                |i: int, j: int| seq![b.traces@[i].net@, drc::label_of(q[j])],
            )
        }),
{
    let q = drc::pads_of(b);
    let t = b.traces@;
    let (m, n) = (t.len() as int, q.len() as int);
    let p = |i: int, j: int|
        drc_laws::trace_crowds(
            b.traces@[i],
            q[j],
            opts.clearance(Some(b.traces@[i].net@), drc_laws::name_of(q[j].1.net)),
        );
    let who = |i: int, j: int| seq![b.traces@[i].net@, drc::label_of(q[j])];
    let h = |i: int, j: int| drc::trace_pads(t[i], q, opts)(j);
    let g = drc::traces_clear_pads(b, opts);
    drc_laws::findings_hold_parts(b, opts, ViolationKind::TracePadClearance);
    assert forall|i: int| 0 <= i < m implies #[trigger] g(i) == list::upto(|j: int| h(i, j), n) by {
        assert((|j: int| h(i, j)) =~= drc::trace_pads(t[i], q, opts));
    }
    assert forall|i: int, j: int| 0 <= i < m && 0 <= j < n implies gives(
        #[trigger] h(i, j),
        ViolationKind::TracePadClearance,
        Severity::Error,
        p(i, j),
        who(i, j),
    ) by {
        pad_laws::listed_pad_is_proper(b, j);
        drc_laws::trace_apart_is_exact(
            t[i],
            q[j],
            opts.clearance(Some(t[i].net@), drc_laws::name_of(q[j].1.net)),
        );
    }
    pair_findings(
        drc::findings_of(b, opts),
        ViolationKind::TracePadClearance,
        Severity::Error,
        m,
        n,
        p,
        who,
        g,
        h,
    );
}

} // verus!
