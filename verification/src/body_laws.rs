//! Where the body of a footprint is, and what the design rule check finds of
//! bodies and keepouts.

use vstd::prelude::*;

use crate::board;
use crate::board::{Board, Footprint};
use crate::drc;
use crate::drc::DrcOptions;
use crate::drc_laws;
use crate::finding_laws;
use crate::geometry;
use crate::geometry::Rect;
use crate::library::{MarginTable, PlacementMargin};
use crate::list;
use crate::pad_laws;
use crate::rotation::COORD_MAX;
use crate::violation::{Finding, Severity, ViolationKind};

verus! {

/// The rectangle is the smallest around the pads: it covers each, and any
/// other that does covers it.
pub open spec fn is_tight(fp: Footprint, r: Rect) -> bool {
    &&& forall|j: int| 0 <= j < fp.pads@.len() ==> r.covers(fp.rect_of(#[trigger] fp.pads@[j]))
    &&& forall|s: Rect|
        (forall|j: int| 0 <= j < fp.pads@.len() ==> s.covers(fp.rect_of(#[trigger] fp.pads@[j])))
            ==> #[trigger] s.covers(r)
}

spec fn covers_upto(fp: Footprint, r: Rect, n: int) -> bool {
    forall|j: int| 0 <= j < n ==> r.covers(fp.rect_of(#[trigger] fp.pads@[j]))
}

proof fn bounds_are_tight(fp: Footprint, n: int)
    requires
        0 <= n <= fp.pads@.len(),
        forall|j: int| 0 <= j < n ==> fp.rect_of(#[trigger] fp.pads@[j]).wf(),
    ensures
        fp.bounds_upto(n) is Some <==> n > 0,
        fp.bounds_upto(n) matches Some(r) ==> r.wf() && covers_upto(fp, r, n) && forall|s: Rect|
            covers_upto(fp, s, n) ==> #[trigger] s.covers(r),
    decreases n,
{
    if n > 0 {
        bounds_are_tight(fp, n - 1);
        let last = fp.rect_of(fp.pads@[n - 1]);
        if let Some(r) = fp.bounds_upto(n - 1) {
            let h = geometry::hull(r, last);
            geometry::union_is_least_cover(r, last, h);
            assert forall|j: int| 0 <= j < n implies h.covers(
                fp.rect_of(#[trigger] fp.pads@[j]),
            ) by {
                if j < n - 1 {
                    assert(r.covers(fp.rect_of(fp.pads@[j])));
                }
            }
            assert forall|s: Rect| covers_upto(fp, s, n) implies #[trigger] s.covers(h) by {
                assert(covers_upto(fp, s, n - 1));
                assert(s.covers(r));
                assert(s.covers(fp.rect_of(fp.pads@[n - 1])));
                geometry::union_is_least_cover(r, last, s);
            }
        } else {
            assert forall|s: Rect| covers_upto(fp, s, n) implies #[trigger] s.covers(last) by {
                assert(s.covers(fp.rect_of(fp.pads@[n - 1])));
            }
        }
    }
}

/// A footprint has bounds exactly if it has pads, and they are the smallest
/// rectangle around these.
pub proof fn bounds_are_the_smallest_box(fp: Footprint)
    requires
        fp.in_range(),
        forall|j: int| 0 <= j < fp.pads@.len() ==> pad_laws::is_sized(#[trigger] fp.pads@[j]),
    ensures
        fp.pad_bounds() is Some <==> fp.pads@.len() > 0,
        fp.pad_bounds() matches Some(r) ==> r.wf() && is_tight(fp, r),
{
    let n = fp.pads@.len() as int;
    assert forall|j: int| 0 <= j < n implies fp.rect_of(#[trigger] fp.pads@[j]).wf() by {
        pad_laws::pad_copper_is_centered(fp, fp.pads@[j]);
    }
    bounds_are_tight(fp, n);
    if let Some(r) = fp.pad_bounds() {
        assert(covers_upto(fp, r, n));
        assert forall|s: Rect|
            (forall|j: int|
                0 <= j < fp.pads@.len() ==> s.covers(
                    fp.rect_of(#[trigger] fp.pads@[j]),
                )) implies #[trigger] s.covers(r) by {
            assert(covers_upto(fp, s, n));
        }
    }
}

/// The body is the bounds, moved out on each side by the margin of the side
/// that points there; a margin without a positive side moves nothing.
pub proof fn bodies_are_grown_bounds(fp: Footprint, m: PlacementMargin)
    requires
        fp.in_range(),
        m.in_range(),
        forall|j: int| 0 <= j < fp.pads@.len() ==> pad_laws::is_sized(#[trigger] fp.pads@[j]),
    ensures
        fp.body(m) is Some <==> fp.pads@.len() > 0,
        fp.body(m) matches Some(r) ==> fp.pad_bounds() matches Some(s) && {
            let t = board::turned_margin(m, fp.rotation.quarter());
            let on = m.top.0 > 0 || m.right.0 > 0 || m.bottom.0 > 0 || m.left.0 > 0;
            &&& s.min.x.0 - r.min.x.0 == if on { t.left.0 as int } else { 0 }
            &&& s.min.y.0 - r.min.y.0 == if on { t.bottom.0 as int } else { 0 }
            &&& r.max.x.0 - s.max.x.0 == if on { t.right.0 as int } else { 0 }
            &&& r.max.y.0 - s.max.y.0 == if on { t.top.0 as int } else { 0 }
        },
{
    bounds_are_the_smallest_box(fp);
    bounds_stay_within(fp, fp.pads@.len() as int);
}

proof fn bounds_stay_within(fp: Footprint, n: int)
    requires
        fp.in_range(),
        0 <= n <= fp.pads@.len(),
        forall|j: int| 0 <= j < fp.pads@.len() ==> pad_laws::is_sized(#[trigger] fp.pads@[j]),
    ensures
        fp.bounds_upto(n) matches Some(r) ==> r.within(4 * COORD_MAX),
    decreases n,
{
    if n > 0 {
        bounds_stay_within(fp, n - 1);
        pad_laws::pad_copper_is_centered(fp, fp.pads@[n - 1]);
    }
}

/// Turning a margin by quarters adds up, and a quarter turn to the left
/// brings the right side to the top.
pub proof fn margins_turn_by_quarters(m: PlacementMargin, p: int, q: int)
    requires
        0 <= p < 4,
        0 <= q < 4,
    ensures
        board::turned_margin(m, 0) == m,
        board::turned_margin(m, 1).top == m.right,
        board::turned_margin(m, 1).left == m.top,
        board::turned_margin(m, 1).bottom == m.left,
        board::turned_margin(m, 1).right == m.bottom,
        board::turned_margin(board::turned_margin(m, p), q) == board::turned_margin(m, (p + q) % 4),
{
}

/// Some side of the margin is positive.
pub open spec fn has_margin(m: PlacementMargin) -> bool {
    m.top.0 > 0 || m.right.0 > 0 || m.bottom.0 > 0 || m.left.0 > 0
}

/// Entry `k` is the first with that key.
pub open spec fn is_first_entry(t: MarginTable, key: Seq<char>, k: int) -> bool {
    &&& 0 <= k < t.entries@.len()
    &&& t.entries@[k].0@ == key
    &&& forall|m: int| 0 <= m < k ==> (#[trigger] t.entries@[m]).0@ != key
}

proof fn lookup_is_first(t: MarginTable, key: Seq<char>, i: int)
    requires
        0 <= i,
        forall|m: int| 0 <= m < i && m < t.entries@.len() ==> (#[trigger] t.entries@[m]).0@ != key,
    ensures
        forall|k: int| #[trigger]
            is_first_entry(t, key, k) ==> t.of_from(key, i) == t.entries@[k].1,
        (forall|k: int| !#[trigger] is_first_entry(t, key, k)) ==> t.of_from(key, i)
            == PlacementMargin::none(),
    decreases t.entries@.len() - i,
{
    if i < t.entries@.len() {
        if t.entries@[i].0@ == key {
            assert(is_first_entry(t, key, i));
        } else {
            lookup_is_first(t, key, i + 1);
        }
    }
}

/// The margin of a footprint is that of the first entry under its library
/// key. A footprint without a key, or whose key is not listed, has none.
pub proof fn margins_are_looked_up(opts: DrcOptions, fp: Footprint, k: int)
    ensures
        fp.key@.len() == 0 ==> drc::margin_of(opts, fp) == PlacementMargin::none(),
        fp.key@.len() > 0 && is_first_entry(opts.placement_margins, fp.key@, k) ==> drc::margin_of(
            opts,
            fp,
        ) == opts.placement_margins.entries@[k].1,
        (forall|m: int| !#[trigger] is_first_entry(opts.placement_margins, fp.key@, m))
            ==> drc::margin_of(opts, fp) == PlacementMargin::none(),
        has_margin(drc::margin_of(opts, fp)) ==> opts.placement_margins.entries@.len() > 0,
{
    lookup_is_first(opts.placement_margins, fp.key@, 0);
}

/// The two bodies have an area in common, and one of them has a margin.
pub open spec fn bodies_clash(a: Footprint, b: Footprint, opts: DrcOptions) -> bool {
    let (am, bm) = (drc::margin_of(opts, a), drc::margin_of(opts, b));
    &&& has_margin(am) || has_margin(bm)
    &&& a.body(am) matches Some(r) && b.body(bm) matches Some(s) && exists|c: Rect|
        c.min.x.0 < c.max.x.0 && c.min.y.0 < c.max.y.0 && #[trigger] r.covers(c)
            && #[trigger] s.covers(c)
}

/// The check warns of each two bodies with a margin on one side that have an
/// area in common, and of no others.
pub proof fn clashing_bodies_are_flagged(b: Board, opts: DrcOptions)
    ensures
        finding_laws::exactly_pairs(
            drc::findings_of(b, opts),
            ViolationKind::BodyOverlap,
            Severity::Warning,
            b.footprints@.len() as int,
            b.footprints@.len() as int,
            |i: int, j: int| i < j && bodies_clash(b.footprints@[i], b.footprints@[j], opts),
            |i: int, j: int| seq![b.footprints@[i].reference@, b.footprints@[j].reference@],
        ),
{
    let f = b.footprints@;
    let n = f.len() as int;
    let p = |i: int, j: int| i < j && bodies_clash(f[i], f[j], opts);
    let who = |i: int, j: int| seq![f[i].reference@, f[j].reference@];
    let none = opts.placement_margins.entries@.len() == 0;
    let g = if none {
        |i: int| Seq::<Finding>::empty()
    } else {
        drc::bodies_clear(f, opts)
    };
    let h = |i: int, j: int|
        if none {
            Seq::<Finding>::empty()
        } else {
            drc::body_bodies(f, opts, i)(j)
        };
    drc_laws::findings_hold_parts(b, opts, ViolationKind::BodyOverlap);
    if none {
        empty_upto(g, n);
    }
    assert forall|i: int| 0 <= i < n implies #[trigger] g(i) == list::upto(|j: int| h(i, j), n) by {
        let r = |j: int| h(i, j);
        if none {
            empty_upto(r, n);
        } else {
            assert(r =~= drc::body_bodies(f, opts, i));
        }
    }
    assert forall|i: int, j: int| 0 <= i < n && 0 <= j < n implies finding_laws::gives(
        #[trigger] h(i, j),
        ViolationKind::BodyOverlap,
        Severity::Warning,
        p(i, j),
        who(i, j),
    ) by {
        margins_are_looked_up(opts, f[i], 0);
        margins_are_looked_up(opts, f[j], 0);
        let (am, bm) = (drc::margin_of(opts, f[i]), drc::margin_of(opts, f[j]));
        if let Some(r) = f[i].body(am) {
            if let Some(s) = f[j].body(bm) {
                geometry::intersecting_is_sharing_area(r, s);
            }
        }
    }
    finding_laws::pair_findings(
        drc::findings_of(b, opts),
        ViolationKind::BodyOverlap,
        Severity::Warning,
        n,
        n,
        p,
        who,
        g,
        h,
    );
}

proof fn empty_upto(g: spec_fn(int) -> Seq<Finding>, n: int)
    requires
        forall|i: int| 0 <= i < n ==> #[trigger] g(i) == Seq::<Finding>::empty(),
    ensures
        list::upto(g, n) == Seq::<Finding>::empty(),
    decreases n,
{
    if n > 0 {
        empty_upto(g, n - 1);
        assert(g(n - 1) == Seq::<Finding>::empty());
        assert(list::upto(g, n) =~= Seq::<Finding>::empty());
    }
}

/// The body has a margin and sticks out of the outline by more than 0.5 mm
/// on some side.
pub open spec fn sticks_out(fp: Footprint, o: Rect, opts: DrcOptions) -> bool {
    let m = drc::margin_of(opts, fp);
    has_margin(m) && (fp.body(m) matches Some(r) && (r.min.x.0 < o.min.x.0 - 500_000 || r.max.x.0
        > o.max.x.0 + 500_000 || r.min.y.0 < o.min.y.0 - 500_000 || r.max.y.0 > o.max.y.0
        + 500_000))
}

/// The check raises an error for each body with a margin that sticks out of
/// the outline by more than 0.5 mm, and for no other.
pub proof fn bodies_off_the_board_are_flagged(b: Board, opts: DrcOptions)
    ensures
        finding_laws::exactly(
            drc::findings_of(b, opts),
            ViolationKind::BodyOffBoard,
            Severity::Error,
            b.footprints@.len() as int,
            |i: int|
                b.outline is Some && sticks_out(b.footprints@[i], b.outline->0, opts),
            |i: int| seq![b.footprints@[i].reference@],
        ),
{
    let f = b.footprints@;
    let n = f.len() as int;
    let p = |i: int| b.outline is Some && sticks_out(f[i], b.outline->0, opts);
    let who = |i: int| seq![f[i].reference@];
    let none = opts.placement_margins.entries@.len() == 0 || b.outline is None;
    let g = if none {
        |i: int| Seq::<Finding>::empty()
    } else {
        drc::bodies_off(f, b.outline->0, opts)
    };
    drc_laws::findings_hold_parts(b, opts, ViolationKind::BodyOffBoard);
    if none {
        empty_upto(g, n);
    }
    assert forall|i: int| 0 <= i < n implies finding_laws::gives(
        #[trigger] g(i),
        ViolationKind::BodyOffBoard,
        Severity::Error,
        p(i),
        who(i),
    ) by {
        margins_are_looked_up(opts, f[i], 0);
    }
    finding_laws::single_findings(
        drc::findings_of(b, opts),
        ViolationKind::BodyOffBoard,
        Severity::Error,
        n,
        p,
        who,
        g,
    );
}

} // verus!
