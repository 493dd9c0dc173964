//! Where footprints may stand: overlap with others and with the outline.

use vstd::prelude::*;

use crate::arith::{abs_i64, max_i64, min_i64};
use crate::board::{Board, EDGE_TOUCH_TOLERANCE, Footprint, HALF_FOOTPRINT_GAP, Id};
use crate::geometry;
use crate::geometry::Rect;
use crate::library::{MarginTable, PlacementMargin};
use crate::rotation::COORD_MAX;
use crate::text;
use crate::text::{fixed_text, str_le};
use crate::units;
use crate::units::Length;

verus! {

/// The pads of `a` and `b`, each grown by half the least gap, overlap.
pub open spec fn too_close(a: Footprint, b: Footprint) -> bool {
    match (a.pad_bounds(), b.pad_bounds()) {
        (Some(x), Some(y)) => geometry::grown(x, HALF_FOOTPRINT_GAP as int).overlaps(
            geometry::grown(y, HALF_FOOTPRINT_GAP as int),
        ),
        _ => false,
    }
}

/// The bodies of `a` and `b` overlap.
pub open spec fn bodies_overlap(
    a: Footprint,
    ma: PlacementMargin,
    b: Footprint,
    mb: PlacementMargin,
) -> bool {
    match (a.body(ma), b.body(mb)) {
        (Some(x), Some(y)) => x.overlaps(y),
        _ => false,
    }
}

/// By how much `r` sticks out of `outline`: left, right, bottom, top.
pub open spec fn overhang(outline: Rect, r: Rect) -> (int, int, int, int) {
    (
        outline.min.x.0 - r.min.x.0,
        r.max.x.0 - outline.max.x.0,
        outline.min.y.0 - r.min.y.0,
        r.max.y.0 - outline.max.y.0,
    )
}

/// The largest overhang over the four sides.
pub open spec fn worst_overhang(outline: Rect, r: Rect) -> int {
    let (left, right, bottom, top) = overhang(outline, r);
    units::max(units::max(units::max(left, right), bottom), top)
}

/// The side with the largest overhang.
pub open spec fn worst_side(outline: Rect, r: Rect) -> Seq<char> {
    let (left, right, bottom, top) = overhang(outline, r);
    let worst = worst_overhang(outline, r);
    if worst == left {
        "left"@
    } else if worst == right {
        "right"@
    } else if worst == bottom {
        "bottom"@
    } else {
        "top"@
    }
}

/// The distance from `r` to the nearest side of `outline`, side to side.
pub open spec fn edge_distance(outline: Rect, r: Rect) -> int {
    units::min(
        units::min(
            units::min(
                units::abs(r.min.x.0 - outline.min.x.0),
                units::abs(outline.max.x.0 - r.max.x.0),
            ),
            units::abs(r.min.y.0 - outline.min.y.0),
        ),
        units::abs(outline.max.y.0 - r.max.y.0),
    )
}

/// How far a rectangle extends past the outline at most, and on which
/// side.
pub fn worst_of(outline: Rect, bbox: Rect) -> (r: (i64, &'static str))
    requires
        outline.within(COORD_MAX as int),
        bbox.within(5 * COORD_MAX),
    ensures
        r.0 == worst_overhang(outline, bbox),
        r.1@ == worst_side(outline, bbox),
{
    let left: i64 = outline.min.x.0 - bbox.min.x.0;
    let right: i64 = bbox.max.x.0 - outline.max.x.0;
    let bottom: i64 = outline.min.y.0 - bbox.min.y.0;
    let top: i64 = bbox.max.y.0 - outline.max.y.0;
    let worst: i64 = max_i64(max_i64(max_i64(left, right), bottom), top);
    let side = if worst == left {
        "left"
    } else if worst == right {
        "right"
    } else if worst == bottom {
        "bottom"
    } else {
        "top"
    };
    (worst, side)
}

impl Board {
    /// Footprint `i`, unless it is the one to ignore, stands too close to
    /// `probe`.
    pub open spec fn blocks(self, probe: Footprint, ignore: Option<Id>, i: int) -> bool {
        &&& ignore != Some(self.footprints@[i].id)
        &&& too_close(probe, self.footprints@[i])
    }

    /// The body of footprint `i`, unless it is the one to ignore, overlaps
    /// the body of `probe`.
    pub open spec fn body_blocks(
        self,
        probe: Footprint,
        ignore: Option<Id>,
        margin: spec_fn(Seq<char>) -> PlacementMargin,
        i: int,
    ) -> bool {
        let fp = self.footprints@[i];
        &&& ignore != Some(fp.id)
        &&& bodies_overlap(probe, margin(probe.key@), fp, margin(fp.key@))
    }

    /// Reference of the first footprint that stands too close to `probe`.
    pub fn first_overlapper(&self, probe: &Footprint, ignore_id: Option<Id>) -> (r: Option<String>)
        requires
            self.footprints_in_range(),
            probe.in_range(),
        ensures
            r is None <==> forall|i: int|
                0 <= i < self.footprints@.len() ==> !#[trigger] self.blocks(*probe, ignore_id, i),
            r matches Some(name) ==> exists|i: int|
                0 <= i < self.footprints@.len() && #[trigger] self.blocks(*probe, ignore_id, i)
                    && name@ == self.footprints@[i].reference@ && forall|j: int|
                    0 <= j < i ==> !#[trigger] self.blocks(*probe, ignore_id, j),
    {
        let gap = Length(HALF_FOOTPRINT_GAP);
        let mine = match probe.bounds() {
            None => {
                return None;
            },
            Some(b) => b.expand(gap),
        };
        let mut i: usize = 0;
        while i < self.footprints.len()
            invariant
                i <= self.footprints@.len(),
                self.footprints_in_range(),
                gap.0 == HALF_FOOTPRINT_GAP,
                probe.pad_bounds() is Some,
                mine == geometry::grown(probe.pad_bounds()->0, HALF_FOOTPRINT_GAP as int),
                forall|j: int| 0 <= j < i ==> !#[trigger] self.blocks(*probe, ignore_id, j),
            decreases self.footprints@.len() - i,
        {
            let fp = &self.footprints[i];
            let skip = match ignore_id {
                Some(id) => id == fp.id,
                None => false,
            };
            if !skip {
                if let Some(b) = fp.bounds() {
                    if mine.intersects(&b.expand(gap)) {
                        assert(self.blocks(*probe, ignore_id, i as int));
                        return Some(fp.reference.clone());
                    }
                }
            }
            i += 1;
        }
        None
    }

    /// Reference of the first footprint whose body overlaps the body of
    /// `probe`. The margins come from the library, by key.
    pub fn first_body_overlapper(
        &self,
        probe: &Footprint,
        ignore_id: Option<Id>,
        margins: &MarginTable,
    ) -> (r: Option<String>)
        requires
            self.footprints_in_range(),
            probe.in_range(),
            margins.in_range(),
        ensures
            r is None <==> forall|i: int|
                0 <= i < self.footprints@.len() ==> !#[trigger] self.body_blocks(
                    *probe,
                    ignore_id,
                    margins.lookup(),
                    i,
                ),
            r matches Some(name) ==> exists|i: int|
                0 <= i < self.footprints@.len() && #[trigger] self.body_blocks(
                    *probe,
                    ignore_id,
                    margins.lookup(),
                    i,
                ) && name@ == self.footprints@[i].reference@ && forall|j: int|
                    0 <= j < i ==> !#[trigger] self.body_blocks(*probe, ignore_id, margins.lookup(), j),
    {
        let mine = match probe.inflated_bbox(margins.margin_for(probe.key.as_str())) {
            None => {
                return None;
            },
            Some(b) => b,
        };
        let mut i: usize = 0;
        while i < self.footprints.len()
            invariant
                i <= self.footprints@.len(),
                self.footprints_in_range(),
                margins.in_range(),
                probe.body(margins.of(probe.key@)) == Some(mine),
                forall|j: int|
                    0 <= j < i ==> !#[trigger] self.body_blocks(*probe, ignore_id, margins.lookup(), j),
            decreases self.footprints@.len() - i,
        {
            let fp = &self.footprints[i];
            let skip = match ignore_id {
                Some(id) => id == fp.id,
                None => false,
            };
            if !skip {
                if let Some(b) = fp.inflated_bbox(margins.margin_for(fp.key.as_str())) {
                    if mine.intersects(&b) {
                        assert(self.body_blocks(*probe, ignore_id, margins.lookup(), i as int));
                        return Some(fp.reference.clone());
                    }
                }
            }
            i += 1;
        }
        None
    }

    /// The body of `probe` sticks out of the outline by more than the
    /// tolerance.
    pub open spec fn body_sticks_out(self, probe: Footprint, margin: PlacementMargin) -> bool {
        match (self.outline, probe.body(margin)) {
            (Some(o), Some(b)) => worst_overhang(o, b) > EDGE_TOUCH_TOLERANCE,
            _ => false,
        }
    }

    /// A description of how the body of `probe` extends past the outline,
    /// or `None` where it fits or there is no outline.
    pub fn body_outline_violation(&self, probe: &Footprint, margin: PlacementMargin) -> (r: Option<
        String,
    >)
        requires
            probe.in_range(),
            margin.in_range(),
            self.outline matches Some(o) ==> o.within(COORD_MAX as int),
        ensures
            r is Some <==> self.body_sticks_out(*probe, margin),
            r matches Some(m) ==> m@ == "inflated body extends "@ + text::fixed(
                worst_overhang(self.outline->0, probe.body(margin)->0),
                2,
            ) + " mm past the "@ + worst_side(self.outline->0, probe.body(margin)->0)
                + " board outline"@,
    {
        let outline = match self.outline {
            None => {
                return None;
            },
            Some(o) => o,
        };
        let bbox = match probe.inflated_bbox(margin) {
            None => {
                return None;
            },
            Some(b) => b,
        };
        let (worst, side) = worst_of(outline, bbox);
        if worst <= EDGE_TOUCH_TOLERANCE {
            return None;
        }
        Some(
            "inflated body extends ".to_owned().concat(fixed_text(worst, 2).as_str()).concat(
                " mm past the ",
            ).concat(side).concat(" board outline"),
        )
    }

    /// `probe` must touch an edge of the outline and does not.
    pub open spec fn off_edge(self, probe: Footprint) -> bool {
        match (self.outline, probe.pad_bounds()) {
            (Some(o), Some(b)) => probe.edge_mounted && edge_distance(o, b) > EDGE_TOUCH_TOLERANCE,
            _ => false,
        }
    }

    /// A description of how far an edge-mounted `probe` is from the
    /// outline, or `None` where it touches it, need not, or there is no
    /// outline.
    pub fn edge_mount_violation(&self, probe: &Footprint) -> (r: Option<String>)
        requires
            probe.in_range(),
            self.outline matches Some(o) ==> o.within(COORD_MAX as int),
        ensures
            r is Some <==> self.off_edge(*probe),
            r matches Some(m) ==> m@ == "the bbox is "@ + text::fixed(
                edge_distance(self.outline->0, probe.pad_bounds()->0),
                2,
            ) + " mm from the nearest outline edge"@,
    {
        if !probe.edge_mounted {
            return None;
        }
        let outline = match self.outline {
            None => {
                return None;
            },
            Some(o) => o,
        };
        let bbox = match probe.bounds() {
            None => {
                return None;
            },
            Some(b) => b,
        };
        let left: i64 = abs_i64(bbox.min.x.0 - outline.min.x.0) as i64;
        let right: i64 = abs_i64(outline.max.x.0 - bbox.max.x.0) as i64;
        let low: i64 = abs_i64(bbox.min.y.0 - outline.min.y.0) as i64;
        let high: i64 = abs_i64(outline.max.y.0 - bbox.max.y.0) as i64;
        let nearest: i64 = min_i64(min_i64(min_i64(left, right), low), high);
        if nearest <= EDGE_TOUCH_TOLERANCE {
            return None;
        }
        Some(
            "the bbox is ".to_owned().concat(fixed_text(nearest, 2).as_str()).concat(
                " mm from the nearest outline edge",
            ),
        )
    }

    /// The pads of footprints `i` and `j` overlap.
    pub open spec fn pads_overlap(self, i: int, j: int) -> bool {
        match (self.footprints@[i].pad_bounds(), self.footprints@[j].pad_bounds()) {
            (Some(a), Some(b)) => a.overlaps(b),
            _ => false,
        }
    }

    /// The references of footprints `i` and `j`, the smaller one first.
    pub open spec fn ordered_pair(self, i: int, j: int) -> (Seq<char>, Seq<char>) {
        let a = self.footprints@[i].reference@;
        let b = self.footprints@[j].reference@;
        if text::lex_le(a, b) {
            (a, b)
        } else {
            (b, a)
        }
    }

    /// The overlapping pairs of footprint `i` with the ones behind it and
    /// before `j`.
    pub open spec fn pairs_of(self, i: int, j: int) -> Seq<(Seq<char>, Seq<char>)>
        decreases j - i,
    {
        if j <= i + 1 {
            Seq::empty()
        } else {
            let rest = self.pairs_of(i, j - 1);
            if self.pads_overlap(i, j - 1) {
                rest.push(self.ordered_pair(i, j - 1))
            } else {
                rest
            }
        }
    }

    /// The overlapping pairs whose first footprint is before `n`.
    pub open spec fn pairs_upto(self, n: int) -> Seq<(Seq<char>, Seq<char>)>
        decreases n,
    {
        if n <= 0 {
            Seq::empty()
        } else {
            self.pairs_upto(n - 1) + self.pairs_of(n - 1, self.footprints@.len() as int)
        }
    }

    /// Pairs of references of footprints whose pads' bounding boxes
    /// overlap, each pair sorted.
    pub fn footprint_overlaps(&self) -> (r: Vec<(String, String)>)
        requires
            self.footprints_in_range(),
        ensures
            pair_views(r@) == self.pairs_upto(self.footprints@.len() as int),
    {
        let n: usize = self.footprints.len();
        let mut out: Vec<(String, String)> = Vec::new();
        assert(pair_views(out@) =~= Seq::empty());
        let mut i: usize = 0;
        while i < n
            invariant
                i <= n,
                n == self.footprints@.len(),
                self.footprints_in_range(),
                pair_views(out@) == self.pairs_upto(i as int),
            decreases n - i,
        {
            let a = self.footprints[i].bounds();
            let mut j: usize = i + 1;
            assert(pair_views(out@) =~= self.pairs_upto(i as int) + self.pairs_of(
                i as int,
                j as int,
            ));
            while j < n
                invariant
                    i < j <= n,
                    n == self.footprints@.len(),
                    self.footprints_in_range(),
                    a == self.footprints@[i as int].pad_bounds(),
                    pair_views(out@) == self.pairs_upto(i as int) + self.pairs_of(
                        i as int,
                        j as int,
                    ),
                decreases n - j,
            {
                let ghost before = out@;
                let hit = match (a, self.footprints[j].bounds()) {
                    (Some(x), Some(y)) => x.intersects(&y),
                    _ => false,
                };
                if hit {
                    let x = self.footprints[i].reference.clone();
                    let y = self.footprints[j].reference.clone();
                    if str_le(x.as_str(), y.as_str()) {
                        out.push((x, y));
                    } else {
                        out.push((y, x));
                    }
                    assert(pair_views(out@) =~= pair_views(before).push(
                        self.ordered_pair(i as int, j as int),
                    ));
                }
                assert(pair_views(out@) =~= self.pairs_upto(i as int) + self.pairs_of(
                    i as int,
                    j + 1,
                ));
                j += 1;
            }
            i += 1;
        }
        out
    }
}

/// The views of pairs of strings.
pub open spec fn pair_views(v: Seq<(String, String)>) -> Seq<(Seq<char>, Seq<char>)> {
    Seq::new(v.len(), |i: int| (v[i].0@, v[i].1@))
}

} // verus!
