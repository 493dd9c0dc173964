//! When a footprint may stand where it does.

use vstd::prelude::*;

use crate::board::{Board, Footprint, Id};
use crate::geometry;
use crate::geometry::Rect;
use crate::library::PlacementMargin;
use crate::list;
use crate::placement;
use crate::relocate;
use crate::relocate::Fault;
use crate::rotation::COORD_MAX;
use crate::text;

verus! {

/// The boxes are less than `gap` apart, both ways.
pub open spec fn closer_than(r: Rect, s: Rect, gap: int) -> bool {
    &&& s.min.x.0 - r.max.x.0 < gap && r.min.x.0 - s.max.x.0 < gap
    &&& s.min.y.0 - r.max.y.0 < gap && r.min.y.0 - s.max.y.0 < gap
}

/// Two footprints stand too close exactly if both have pads and the boxes
/// around these are less than 0.5 mm apart, both ways.
pub proof fn close_footprints_have_close_boxes(a: Footprint, b: Footprint)
    requires
        a.pad_bounds() matches Some(r) ==> r.wf() && r.within(4 * COORD_MAX),
        b.pad_bounds() matches Some(s) ==> s.wf() && s.within(4 * COORD_MAX),
    ensures
        placement::too_close(a, b) <==> (a.pad_bounds() matches Some(r) && (
        b.pad_bounds() matches Some(s) && closer_than(r, s, 500_000))),
        placement::too_close(a, b) == placement::too_close(b, a),
{
}

/// The body of a footprint sticks out exactly if it is past some side of the
/// outline by more than 0.5 mm.
pub proof fn bodies_stick_out_past_a_side(b: Board, probe: Footprint, margin: PlacementMargin)
    ensures
        b.body_sticks_out(probe, margin) <==> (b.outline matches Some(o) && (probe.body(
            margin,
        ) matches Some(r) && (r.min.x.0 < o.min.x.0 - 500_000 || r.max.x.0 > o.max.x.0 + 500_000
            || r.min.y.0 < o.min.y.0 - 500_000 || r.max.y.0 > o.max.y.0 + 500_000))),
{
}

/// The side that is named is one past which the box extends farthest.
pub proof fn the_worst_side_is_named(o: Rect, r: Rect)
    ensures
        ({
            let w = placement::worst_overhang(o, r);
            let s = placement::worst_side(o, r);
            &&& w >= o.min.x.0 - r.min.x.0 && w >= r.max.x.0 - o.max.x.0
            &&& w >= o.min.y.0 - r.min.y.0 && w >= r.max.y.0 - o.max.y.0
            &&& s == "left"@ ==> w == o.min.x.0 - r.min.x.0
            &&& s == "right"@ ==> w == r.max.x.0 - o.max.x.0
            &&& s == "bottom"@ ==> w == o.min.y.0 - r.min.y.0
            &&& s == "top"@ ==> w == r.max.y.0 - o.max.y.0
            &&& s == "left"@ || s == "right"@ || s == "bottom"@ || s == "top"@
        }),
{
    reveal_strlit("left");
    reveal_strlit("right");
    reveal_strlit("bottom");
    reveal_strlit("top");
    assert("left"@.len() == 4 && "right"@.len() == 5 && "bottom"@.len() == 6 && "top"@.len() == 3);
}

/// The number is within `d` of the other.
pub open spec fn is_within(x: int, y: int, d: int) -> bool {
    y - d <= x <= y + d
}

/// A footprint is off the edge exactly if it is to be mounted there and no
/// side of the box around its pads is within 0.5 mm of that side of the
/// outline.
pub proof fn edge_mounts_touch_a_side(b: Board, probe: Footprint)
    ensures
        b.off_edge(probe) <==> probe.edge_mounted && (b.outline matches Some(o) && (
        probe.pad_bounds() matches Some(r) && !is_within(
            r.min.x.0 as int,
            o.min.x.0 as int,
            500_000,
        ) && !is_within(r.max.x.0 as int, o.max.x.0 as int, 500_000) && !is_within(
            r.min.y.0 as int,
            o.min.y.0 as int,
            500_000,
        ) && !is_within(r.max.y.0 as int, o.max.y.0 as int, 500_000))),
{
}

/// The boxes around the pads of footprints `i` and `j` have an area in
/// common.
pub open spec fn boxes_overlap(b: Board, i: int, j: int) -> bool {
    b.footprints@[i].pad_bounds() matches Some(r) && (
    b.footprints@[j].pad_bounds() matches Some(s) && exists|c: Rect|
        c.min.x.0 < c.max.x.0 && c.min.y.0 < c.max.y.0 && #[trigger] r.covers(c)
            && #[trigger] s.covers(c))
}

proof fn overlap_is_area(b: Board, i: int, j: int)
    ensures
        b.pads_overlap(i, j) <==> boxes_overlap(b, i, j),
{
    if let Some(r) = b.footprints@[i].pad_bounds() {
        if let Some(s) = b.footprints@[j].pad_bounds() {
            geometry::intersecting_is_sharing_area(r, s);
        }
    }
}

/// The pair names footprints `i` and `j`, in order.
pub open spec fn names_pair(b: Board, i: int, j: int, x: (Seq<char>, Seq<char>)) -> bool {
    let (u, v) = (b.footprints@[i].reference@, b.footprints@[j].reference@);
    (x == (u, v) || x == (v, u)) && text::lex_le(x.0, x.1)
}

/// Footprints `i` and `j`, in this order, overlap and are that pair.
pub open spec fn is_overlap(b: Board, i: int, j: int, x: (Seq<char>, Seq<char>)) -> bool {
    i < j && boxes_overlap(b, i, j) && names_pair(b, i, j, x)
}

proof fn pairs_of_one(b: Board, i: int, j: int, x: (Seq<char>, Seq<char>))
    requires
        0 <= i,
    ensures
        list::how_often(b.pairs_of(i, j), x) == list::how_many(|k: int| is_overlap(b, i, k, x), j),
    decreases j,
{
    let p = |k: int| is_overlap(b, i, k, x);
    if j > 0 {
        pairs_of_one(b, i, j - 1, x);
        assert(p(j - 1) == is_overlap(b, i, j - 1, x));
        assert(list::how_many(p, j) == list::how_many(p, j - 1) + if p(j - 1) {
            1nat
        } else {
            0nat
        });
        if j <= i + 1 {
            assert(b.pairs_of(i, j - 1) == Seq::<(Seq<char>, Seq<char>)>::empty());
        } else {
            overlap_is_area(b, i, j - 1);
            text::lex_total(b.footprints@[i].reference@, b.footprints@[j - 1].reference@);
            let rest = b.pairs_of(i, j - 1);
            let y = b.ordered_pair(i, j - 1);
            if b.pads_overlap(i, j - 1) {
                assert(rest.push(y).drop_last() =~= rest);
                assert(names_pair(b, i, j - 1, x) <==> x == y);
            }
        }
    }
}

proof fn pairs_of_all(b: Board, n: int, x: (Seq<char>, Seq<char>))
    requires
        0 <= n <= b.footprints@.len(),
    ensures
        list::how_often(b.pairs_upto(n), x) == list::total(
            |i: int|
                list::how_many(|j: int| is_overlap(b, i, j, x), b.footprints@.len() as int),
            n,
        ),
    decreases n,
{
    let m = b.footprints@.len() as int;
    let g = |i: int| list::how_many(|j: int| is_overlap(b, i, j, x), m);
    if n > 0 {
        pairs_of_all(b, n - 1, x);
        pairs_of_one(b, n - 1, m, x);
        list::how_often_joined(b.pairs_upto(n - 1), b.pairs_of(n - 1, m), x);
        assert(g(n - 1) == list::how_many(|j: int| is_overlap(b, n - 1, j, x), m));
        assert(list::total(g, n) == list::total(g, n - 1) + g(n - 1));
    }
}

/// The list of overlaps names each two footprints whose boxes have an area
/// in common, once and in order, and no others.
pub proof fn overlaps_are_listed_once(b: Board, x: (Seq<char>, Seq<char>))
    ensures
        list::how_often(b.pairs_upto(b.footprints@.len() as int), x) == list::total(
            |i: int|
                list::how_many(|j: int| is_overlap(b, i, j, x), b.footprints@.len() as int),
            b.footprints@.len() as int,
        ),
{
    pairs_of_all(b, b.footprints@.len() as int, x);
}

/// Footprint `i` is the first that stands too close to `probe`.
pub open spec fn is_first_too_close(b: Board, probe: Footprint, ignore: Option<Id>, i: int) -> bool {
    &&& 0 <= i < b.footprints@.len()
    &&& b.blocks(probe, ignore, i)
    &&& forall|k: int| 0 <= k < i ==> !#[trigger] b.blocks(probe, ignore, k)
}

/// Footprint `i` is the first whose body overlaps that of `probe`.
pub open spec fn is_first_body(
    b: Board,
    probe: Footprint,
    ignore: Option<Id>,
    margin: spec_fn(Seq<char>) -> PlacementMargin,
    i: int,
) -> bool {
    &&& 0 <= i < b.footprints@.len()
    &&& b.body_blocks(probe, ignore, margin, i)
    &&& forall|k: int| 0 <= k < i ==> !#[trigger] b.body_blocks(probe, ignore, margin, k)
}

proof fn pad_blocker_found(b: Board, probe: Footprint, ignore: Option<Id>, i: int)
    requires
        0 <= i,
        forall|k: int|
            0 <= k < i && k < b.footprints@.len() ==> !#[trigger] b.blocks(probe, ignore, k),
    ensures
        relocate::pad_blocker(b, probe, ignore, i) is None <==> forall|k: int|
            0 <= k < b.footprints@.len() ==> !#[trigger] b.blocks(probe, ignore, k),
        relocate::pad_blocker(b, probe, ignore, i) matches Some(n) ==> exists|k: int| #[trigger]
            is_first_too_close(b, probe, ignore, k) && n == b.footprints@[k].reference@,
    decreases b.footprints@.len() - i,
{
    if i < b.footprints@.len() {
        if b.blocks(probe, ignore, i) {
            assert(is_first_too_close(b, probe, ignore, i));
        } else {
            pad_blocker_found(b, probe, ignore, i + 1);
        }
    }
}

proof fn body_blocker_found(
    b: Board,
    probe: Footprint,
    ignore: Option<Id>,
    margin: spec_fn(Seq<char>) -> PlacementMargin,
    i: int,
)
    requires
        0 <= i,
        forall|k: int|
            0 <= k < i && k < b.footprints@.len() ==> !#[trigger] b.body_blocks(
                probe,
                ignore,
                margin,
                k,
            ),
    ensures
        relocate::body_blocker(b, probe, ignore, margin, i) is None <==> forall|k: int|
            0 <= k < b.footprints@.len() ==> !#[trigger] b.body_blocks(probe, ignore, margin, k),
        relocate::body_blocker(b, probe, ignore, margin, i) matches Some(n) ==> exists|k: int|
         #[trigger]
            is_first_body(b, probe, ignore, margin, k) && n == b.footprints@[k].reference@,
    decreases b.footprints@.len() - i,
{
    if i < b.footprints@.len() {
        if b.body_blocks(probe, ignore, margin, i) {
            assert(is_first_body(b, probe, ignore, margin, i));
        } else {
            body_blocker_found(b, probe, ignore, margin, i + 1);
        }
    }
}

/// Nothing keeps a footprint from standing where it is exactly if no other
/// is too close, no body overlaps its own, its body stays on the board and
/// it touches the edge if it has to. What is reported otherwise is the first
/// of these that fails, with the first footprint that is in the way.
pub proof fn faults_come_in_order(
    b: Board,
    probe: Footprint,
    ignore: Option<Id>,
    margin: spec_fn(Seq<char>) -> PlacementMargin,
)
    ensures
        ({
            let free = forall|k: int|
                0 <= k < b.footprints@.len() ==> !#[trigger] b.blocks(probe, ignore, k);
            let apart = forall|k: int|
                0 <= k < b.footprints@.len() ==> !#[trigger] b.body_blocks(
                    probe,
                    ignore,
                    margin,
                    k,
                );
            let out = b.body_sticks_out(probe, margin(probe.key@));
            let f = relocate::fault_of(b, probe, ignore, margin);
            &&& f is None <==> free && apart && !out && !b.off_edge(probe)
            &&& f matches Some(Fault::Pads(n)) ==> exists|k: int| #[trigger]
                is_first_too_close(b, probe, ignore, k) && n == b.footprints@[k].reference@
            &&& f matches Some(Fault::Body(n)) ==> free && exists|k: int| #[trigger]
                is_first_body(b, probe, ignore, margin, k) && n == b.footprints@[k].reference@
            &&& f matches Some(Fault::OffBoard(_)) ==> free && apart && out
            &&& f matches Some(Fault::OffEdge(_)) ==> free && apart && !out && b.off_edge(probe)
        }),
{
    pad_blocker_found(b, probe, ignore, 0);
    body_blocker_found(b, probe, ignore, margin, 0);
}

/// A footprint blocks another exactly if it is not the one to be ignored and
/// the boxes around their pads are less than 0.5 mm apart, both ways.
pub proof fn blockers_are_close(b: Board, probe: Footprint, ignore: Option<Id>, i: int)
    requires
        probe.pad_bounds() matches Some(r) ==> r.wf() && r.within(4 * COORD_MAX),
        b.footprints@[i].pad_bounds() matches Some(s) ==> s.wf() && s.within(4 * COORD_MAX),
    ensures
        b.blocks(probe, ignore, i) <==> ignore != Some(b.footprints@[i].id) && (
        probe.pad_bounds() matches Some(r) && (b.footprints@[i].pad_bounds() matches Some(s)
            && closer_than(r, s, 500_000))),
{
}

} // verus!
