//! Placing, moving and turning footprints, as far as nothing stands in the
//! way.

use vstd::prelude::*;

use crate::board::{Board, Footprint, Id};
use crate::event::Event;
use crate::geometry::Point;
use crate::library::{MarginTable, PlacementMargin};
use crate::placement;
use crate::project;
use crate::project::{Project, find_ref};
use crate::rotation::{COORD_MAX, Rotation};
use crate::text;
use crate::text::fixed_text;

verus! {

/// Why a footprint cannot stand somewhere.
#[derive(Debug)]
pub enum PlacementFault {
    /// Its pads come too close to those of that footprint.
    Pads(String),
    /// Its body overlaps that of that footprint.
    Body(String),
    /// Its body leaves the board, as described.
    OffBoard(String),
    /// It must touch an edge and does not, as described.
    OffEdge(String),
}

/// A fault by value.
pub ghost enum Fault {
    Pads(Seq<char>),
    Body(Seq<char>),
    OffBoard(Seq<char>),
    OffEdge(Seq<char>),
}

impl PlacementFault {
    pub open spec fn fault(self) -> Fault {
        match self {
            PlacementFault::Pads(s) => Fault::Pads(s@),
            PlacementFault::Body(s) => Fault::Body(s@),
            PlacementFault::OffBoard(s) => Fault::OffBoard(s@),
            PlacementFault::OffEdge(s) => Fault::OffEdge(s@),
        }
    }
}

/// The reference of the first footprint from `i` on that stands too close
/// to `probe`.
pub open spec fn pad_blocker(b: Board, probe: Footprint, ignore: Option<Id>, i: int) -> Option<
    Seq<char>,
>
    decreases b.footprints@.len() - i,
{
    if i < 0 || i >= b.footprints@.len() {
        None
    } else if b.blocks(probe, ignore, i) {
        Some(b.footprints@[i].reference@)
    } else {
        pad_blocker(b, probe, ignore, i + 1)
    }
}

/// The reference of the first footprint from `i` on whose body overlaps
/// that of `probe`.
pub open spec fn body_blocker(
    b: Board,
    probe: Footprint,
    ignore: Option<Id>,
    margin: spec_fn(Seq<char>) -> PlacementMargin,
    i: int,
) -> Option<Seq<char>>
    decreases b.footprints@.len() - i,
{
    if i < 0 || i >= b.footprints@.len() {
        None
    } else if b.body_blocks(probe, ignore, margin, i) {
        Some(b.footprints@[i].reference@)
    } else {
        body_blocker(b, probe, ignore, margin, i + 1)
    }
}

/// How the body of `probe` leaves the board.
pub open spec fn off_board(b: Board, probe: Footprint, margin: PlacementMargin) -> Seq<char> {
    "inflated body extends "@ + text::fixed(
        placement::worst_overhang(b.outline->0, probe.body(margin)->0),
        2,
    ) + " mm past the "@ + placement::worst_side(b.outline->0, probe.body(margin)->0)
        + " board outline"@
}

/// How far `probe` is from the edge.
pub open spec fn off_edge(b: Board, probe: Footprint) -> Seq<char> {
    "the bbox is "@ + text::fixed(
        placement::edge_distance(b.outline->0, probe.pad_bounds()->0),
        2,
    ) + " mm from the nearest outline edge"@
}

/// What keeps `probe` from standing where it is: pads, bodies, the outline,
/// the edge, in this order.
pub open spec fn fault_of(
    b: Board,
    probe: Footprint,
    ignore: Option<Id>,
    margin: spec_fn(Seq<char>) -> PlacementMargin,
) -> Option<Fault> {
    match pad_blocker(b, probe, ignore, 0) {
        Some(other) => Some(Fault::Pads(other)),
        None => match body_blocker(b, probe, ignore, margin, 0) {
            Some(other) => Some(Fault::Body(other)),
            None => if b.body_sticks_out(probe, margin(probe.key@)) {
                Some(Fault::OffBoard(off_board(b, probe, margin(probe.key@))))
            } else if b.off_edge(probe) {
                Some(Fault::OffEdge(off_edge(b, probe)))
            } else {
                None
            },
        },
    }
}

proof fn pad_blocker_is_first(b: Board, probe: Footprint, ignore: Option<Id>, i: int, at: int)
    requires
        0 <= i <= at <= b.footprints@.len(),
        at < b.footprints@.len() ==> b.blocks(probe, ignore, at),
        forall|k: int| i <= k < at ==> !#[trigger] b.blocks(probe, ignore, k),
    ensures
        pad_blocker(b, probe, ignore, i) == if at < b.footprints@.len() {
            Some(b.footprints@[at].reference@)
        } else {
            None
        },
    decreases at - i,
{
    if i < at {
        pad_blocker_is_first(b, probe, ignore, i + 1, at);
    }
}

proof fn body_blocker_is_first(
    b: Board,
    probe: Footprint,
    ignore: Option<Id>,
    margin: spec_fn(Seq<char>) -> PlacementMargin,
    i: int,
    at: int,
)
    requires
        0 <= i <= at <= b.footprints@.len(),
        at < b.footprints@.len() ==> b.body_blocks(probe, ignore, margin, at),
        forall|k: int| i <= k < at ==> !#[trigger] b.body_blocks(probe, ignore, margin, k),
    ensures
        body_blocker(b, probe, ignore, margin, i) == if at < b.footprints@.len() {
            Some(b.footprints@[at].reference@)
        } else {
            None
        },
    decreases at - i,
{
    if i < at {
        body_blocker_is_first(b, probe, ignore, margin, i + 1, at);
    }
}

/// The fault by value, where there is one.
pub open spec fn seen(f: Option<PlacementFault>) -> Option<Fault> {
    match f {
        Some(x) => Some(x.fault()),
        None => None,
    }
}

/// Holds a footprint against the board that it is to stand on.
pub fn check_placement(b: &Board, probe: &Footprint, ignore: Option<Id>, margins: &MarginTable) -> (r:
    Option<PlacementFault>)
    requires
        b.in_range(),
        probe.in_range(),
        margins.in_range(),
    ensures
        seen(r) == fault_of(*b, *probe, ignore, margins.lookup()),
{
    let n: usize = b.footprints.len();
    if let Some(other) = b.first_overlapper(probe, ignore) {
        proof {
            let i = choose|i: int|
                0 <= i < b.footprints@.len() && #[trigger] b.blocks(*probe, ignore, i) && other@
                    == b.footprints@[i].reference@ && forall|j: int|
                    0 <= j < i ==> !#[trigger] b.blocks(*probe, ignore, j);
            pad_blocker_is_first(*b, *probe, ignore, 0, i);
        }
        return Some(PlacementFault::Pads(other));
    }
    proof {
        pad_blocker_is_first(*b, *probe, ignore, 0, n as int);
    }
    if let Some(other) = b.first_body_overlapper(probe, ignore, margins) {
        proof {
            let i = choose|i: int|
                0 <= i < b.footprints@.len() && #[trigger] b.body_blocks(
                    *probe,
                    ignore,
                    margins.lookup(),
                    i,
                ) && other@ == b.footprints@[i].reference@ && forall|j: int|
                    0 <= j < i ==> !#[trigger] b.body_blocks(*probe, ignore, margins.lookup(), j);
            body_blocker_is_first(*b, *probe, ignore, margins.lookup(), 0, i);
        }
        return Some(PlacementFault::Body(other));
    }
    proof {
        body_blocker_is_first(*b, *probe, ignore, margins.lookup(), 0, n as int);
    }
    let margin = margins.margin_for(probe.key.as_str());
    if let Some(reason) = b.body_outline_violation(probe, margin) {
        return Some(PlacementFault::OffBoard(reason));
    }
    if let Some(reason) = b.edge_mount_violation(probe) {
        return Some(PlacementFault::OffEdge(reason));
    }
    None
}

/// `(x, y) mm`.
pub open spec fn at_mm(p: Point) -> Seq<char> {
    "("@ + text::fixed(p.x.0 as int, 2) + ", "@ + text::fixed(p.y.0 as int, 2) + ") mm"@
}

pub fn at_text(p: Point) -> (r: String)
    ensures
        r@ == at_mm(p),
{
    "(".to_owned().concat(fixed_text(p.x.0, 2).as_str()).concat(", ").concat(
        fixed_text(p.y.0, 2).as_str(),
    ).concat(") mm")
}

/// Why a palette item cannot be placed.
pub open spec fn place_error(reference: Seq<char>, p: Point, f: Fault) -> Seq<char> {
    match f {
        Fault::Pads(other) => reference + " at "@ + at_mm(p) + " would overlap "@ + other
            + " — pick another position"@,
        Fault::Body(other) => reference + " body at "@ + at_mm(p) + " would overlap "@ + other
            + " body — pick another position"@,
        Fault::OffBoard(reason) => reference + " "@ + reason,
        Fault::OffEdge(reason) => reference + " is edge-mounted but "@ + reason
            + " — pick a position whose bbox touches the board outline"@,
    }
}

/// Why a footprint cannot be turned.
pub open spec fn turn_error(reference: Seq<char>, r: Rotation, f: Fault) -> Seq<char> {
    let deg = text::fixed(r.udeg as int, 0);
    match f {
        Fault::Pads(other) => reference + " rotated to "@ + deg + "° would overlap "@ + other,
        Fault::Body(other) => reference + " body rotated to "@ + deg + "° would overlap "@ + other
            + " body"@,
        Fault::OffBoard(reason) => reference + " rotated to "@ + deg + "°: "@ + reason,
        Fault::OffEdge(reason) => reference + " is edge-mounted but after rotation "@ + reason,
    }
}

/// Why a footprint cannot be moved.
pub open spec fn move_error(reference: Seq<char>, p: Point, f: Fault) -> Seq<char> {
    match f {
        Fault::Pads(other) => "moving "@ + reference + " to "@ + at_mm(p) + " would overlap "@
            + other,
        Fault::Body(other) => "moving "@ + reference + " to "@ + at_mm(p)
            + ": body would overlap "@ + other + " body"@,
        Fault::OffBoard(reason) => "moving "@ + reference + " to "@ + at_mm(p) + ": "@ + reason,
        Fault::OffEdge(reason) => reference + " is edge-mounted but moving to "@ + at_mm(p) + " "@
            + reason,
    }
}

fn place_error_text(reference: &str, p: Point, f: PlacementFault) -> (r: String)
    ensures
        r@ == place_error(reference@, p, f.fault()),
{
    let at = at_text(p);
    match f {
        PlacementFault::Pads(other) => reference.to_owned().concat(" at ").concat(
            at.as_str(),
        ).concat(" would overlap ").concat(other.as_str()).concat(" — pick another position"),
        PlacementFault::Body(other) => reference.to_owned().concat(" body at ").concat(
            at.as_str(),
        ).concat(" would overlap ").concat(other.as_str()).concat(
            " body — pick another position",
        ),
        PlacementFault::OffBoard(reason) => reference.to_owned().concat(" ").concat(
            reason.as_str(),
        ),
        PlacementFault::OffEdge(reason) => reference.to_owned().concat(
            " is edge-mounted but ",
        ).concat(reason.as_str()).concat(
            " — pick a position whose bbox touches the board outline",
        ),
    }
}

fn turn_error_text(reference: &str, rotation: Rotation, f: PlacementFault) -> (r: String)
    ensures
        r@ == turn_error(reference@, rotation, f.fault()),
{
    let deg = fixed_text(rotation.udeg, 0);
    match f {
        PlacementFault::Pads(other) => reference.to_owned().concat(" rotated to ").concat(
            deg.as_str(),
        ).concat("° would overlap ").concat(other.as_str()),
        PlacementFault::Body(other) => reference.to_owned().concat(" body rotated to ").concat(
            deg.as_str(),
        ).concat("° would overlap ").concat(other.as_str()).concat(" body"),
        PlacementFault::OffBoard(reason) => reference.to_owned().concat(" rotated to ").concat(
            deg.as_str(),
        ).concat("°: ").concat(reason.as_str()),
        PlacementFault::OffEdge(reason) => reference.to_owned().concat(
            " is edge-mounted but after rotation ",
        ).concat(reason.as_str()),
    }
}

fn move_error_text(reference: &str, p: Point, f: PlacementFault) -> (r: String)
    ensures
        r@ == move_error(reference@, p, f.fault()),
{
    let at = at_text(p);
    match f {
        PlacementFault::Pads(other) => "moving ".to_owned().concat(reference).concat(
            " to ",
        ).concat(at.as_str()).concat(" would overlap ").concat(other.as_str()),
        PlacementFault::Body(other) => "moving ".to_owned().concat(reference).concat(
            " to ",
        ).concat(at.as_str()).concat(": body would overlap ").concat(other.as_str()).concat(
            " body",
        ),
        PlacementFault::OffBoard(reason) => "moving ".to_owned().concat(reference).concat(
            " to ",
        ).concat(at.as_str()).concat(": ").concat(reason.as_str()),
        PlacementFault::OffEdge(reason) => reference.to_owned().concat(
            " is edge-mounted but moving to ",
        ).concat(at.as_str()).concat(" ").concat(reason.as_str()),
    }
}

/// A footprint does not stand in its own way: what it looks like on the
/// board does not matter when it is held against it.
proof fn own_place_is_free(a: Board, b: Board, k: int, probe: Footprint, margin: spec_fn(
    Seq<char>,
) -> PlacementMargin)
    requires
        0 <= k < a.footprints@.len(),
        b.footprints@.len() == a.footprints@.len(),
        b.footprints@[k].id == a.footprints@[k].id,
        forall|i: int|
            0 <= i < a.footprints@.len() && i != k ==> #[trigger] b.footprints@[i]
                == a.footprints@[i],
        a.outline == b.outline,
    ensures
        fault_of(a, probe, Some(a.footprints@[k].id), margin) == fault_of(
            b,
            probe,
            Some(a.footprints@[k].id),
            margin,
        ),
{
    own_place_from(a, b, k, probe, margin, 0);
}

proof fn own_place_from(a: Board, b: Board, k: int, probe: Footprint, margin: spec_fn(
    Seq<char>,
) -> PlacementMargin, i: int)
    requires
        0 <= i <= a.footprints@.len(),
        0 <= k < a.footprints@.len(),
        b.footprints@.len() == a.footprints@.len(),
        b.footprints@[k].id == a.footprints@[k].id,
        forall|i: int|
            0 <= i < a.footprints@.len() && i != k ==> #[trigger] b.footprints@[i]
                == a.footprints@[i],
    ensures
        pad_blocker(a, probe, Some(a.footprints@[k].id), i) == pad_blocker(
            b,
            probe,
            Some(a.footprints@[k].id),
            i,
        ),
        body_blocker(a, probe, Some(a.footprints@[k].id), margin, i) == body_blocker(
            b,
            probe,
            Some(a.footprints@[k].id),
            margin,
            i,
        ),
    decreases a.footprints@.len() - i,
{
    if i < a.footprints@.len() {
        own_place_from(a, b, k, probe, margin, i + 1);
        if i != k {
            assert(b.footprints@[i] == a.footprints@[i]);
        }
    }
}

/// What comes of placing a palette item: it stands on the board and is no
/// longer in the palette, or nothing changed and the reason is given.
pub open spec fn is_placing(
    a: Project,
    reference: Seq<char>,
    position: Point,
    b: Project,
    r: Result<Id, String>,
) -> bool {
    let k = project::ref_from(a.palette@, reference, 0);
    let fp = Footprint { position, ..a.palette@[k] };
    let fault = fault_of(a.board, fp, None, a.library.lookup());
    &&& r is Ok <==> k < a.palette@.len() && fault is None
    &&& r is Err ==> b.palette@ == a.palette@ && b.board == a.board && b.events == a.events
    &&& r matches Err(e) ==> e@ == if k < a.palette@.len() {
        place_error(reference, position, fault->0)
    } else {
        "no palette item named "@ + reference
    }
    &&& r matches Ok(id) ==> {
        &&& id == fp.id
        &&& b.palette@ == a.palette@.remove(k)
        &&& !a.board.has(id) ==> b.board.footprints@ == a.board.footprints@.push(fp)
            && b.components() == a.components()
        &&& forall|j: int|
            0 <= j < a.board.footprints@.len() && #[trigger] a.board.footprints@[j].id == id
                ==> b.board.footprints@ == a.board.footprints@.update(j, fp)
        &&& b.events@ == a.events@.push(
            Event::PaletteChanged { count: b.palette@.len() as usize },
        ).push(Event::FootprintAdded { id, reference: fp.reference })
    }
    &&& b == (Project {
        board: Board { footprints: b.board.footprints, ..a.board },
        palette: b.palette,
        events: b.events,
        ..a
    })
}

/// What comes of changing a footprint on the board: it is changed, or
/// nothing is and the reason is given.
pub open spec fn is_change(
    a: Project,
    reference: Seq<char>,
    fp: Footprint,
    why: spec_fn(Fault) -> Seq<char>,
    b: Project,
    r: Result<Id, String>,
) -> bool {
    let fps = a.board.footprints@;
    let k = project::ref_from(fps, reference, 0);
    let fault = fault_of(a.board, fp, Some(fps[k].id), a.library.lookup());
    &&& r is Ok <==> k < fps.len() && fault is None
    &&& r is Err ==> b.board.footprints@ == fps && b.events == a.events
    &&& r matches Err(e) ==> e@ == if k < fps.len() {
        why(fault->0)
    } else {
        "no board footprint named "@ + reference
    }
    &&& r matches Ok(id) ==> {
        &&& id == fp.id
        &&& b.board.footprints@ == fps.update(k, fp)
        &&& b.events@ == a.events@.push(Event::FootprintMoved { id, position: fp.position })
    }
    &&& b == (Project {
        board: Board { footprints: b.board.footprints, ..a.board },
        events: b.events,
        ..a
    })
}

/// What comes of turning a footprint.
pub open spec fn is_turning(
    a: Project,
    reference: Seq<char>,
    rotation: Rotation,
    b: Project,
    r: Result<Id, String>,
) -> bool {
    let fps = a.board.footprints@;
    let fp = Footprint { rotation, ..fps[project::ref_from(fps, reference, 0)] };
    is_change(a, reference, fp, |f: Fault| turn_error(reference, rotation, f), b, r)
}

/// What comes of moving a footprint.
pub open spec fn is_moving(
    a: Project,
    reference: Seq<char>,
    position: Point,
    b: Project,
    r: Result<Id, String>,
) -> bool {
    let fps = a.board.footprints@;
    let fp = Footprint { position, ..fps[project::ref_from(fps, reference, 0)] };
    is_change(a, reference, fp, |f: Fault| move_error(reference, position, f), b, r)
}

impl Project {
    /// Takes the palette item with that reference and puts it on the board,
    /// unless something stands in the way.
    pub fn place_from_palette(&mut self, reference: &str, position: Point) -> (r: Result<Id, String>)
        requires
            old(self).wf(),
            old(self).in_range(),
            position.within(COORD_MAX as int),
        ensures
            final(self).wf(),
            final(self).in_range(),
            is_placing(*old(self), reference@, position, *final(self), r),
    {
        let ghost start = *self;
        let margins = self.library.margins();
        let k: usize = find_ref(&self.palette, reference);
        if k >= self.palette.len() {
            return Err("no palette item named ".to_owned().concat(reference));
        }
        let mut fp = self.palette.remove(k);
        assert(fp == start.palette@[k as int]);
        assert(start.palette@[k as int].in_range());
        let waiting = fp.position;
        fp.position = position;
        assert(fp.in_range()) by {
            assert forall|j: int| 0 <= j < fp.pads@.len() implies (
            #[trigger] fp.pads@[j]).in_range() by {
                assert(start.palette@[k as int].pads@[j].in_range());
            }
        }
        if let Some(f) = check_placement(&self.board, &fp, None, &margins) {
            let e = place_error_text(reference, position, f);
            fp.position = waiting;
            self.palette.insert(k, fp);
            assert(self.palette@ =~= start.palette@);
            return Err(e);
        }
        let ghost placed = fp;
        let id = fp.id;
        let name = fp.reference.clone();
        let _same = self.board.add_footprint(fp);
        let count: usize = self.palette.len();
        proof {
            let b = self.board;
            assert forall|i: int| 0 <= i < b.footprints@.len() implies (
            #[trigger] b.footprints@[i]).in_range() by {
                if start.board.has(id) {
                    let j = choose|j: int|
                        0 <= j < start.board.footprints@.len()
                            && #[trigger] start.board.footprints@[j].id == id;
                    assert(b.footprints@ == start.board.footprints@.update(j, placed));
                    if i != j {
                        assert(start.board.footprints@[i].in_range());
                    }
                } else if i < start.board.footprints@.len() {
                    assert(start.board.footprints@[i].in_range());
                }
            }
            assert forall|i: int| 0 <= i < self.palette@.len() implies (
            #[trigger] self.palette@[i]).in_range() by {
                if i < k {
                    assert(start.palette@[i].in_range());
                } else {
                    assert(start.palette@[i + 1].in_range());
                }
            }
            if !start.board.has(id) {
                moved_over(start.board.footprints@, start.palette@, k as int, placed);
            }
        }
        self.publish(Event::PaletteChanged { count });
        self.publish(Event::FootprintAdded { id, reference: name });
        Ok(id)
    }

    /// Turns the footprint with that reference, unless something stands in
    /// the way.
    pub fn rotate_footprint(&mut self, reference: &str, rotation: Rotation) -> (r: Result<
        Id,
        String,
    >)
        requires
            old(self).wf(),
            old(self).in_range(),
            rotation.wf(),
        ensures
            final(self).wf(),
            final(self).in_range(),
            is_turning(*old(self), reference@, rotation, *final(self), r),
    {
        let ghost start = *self;
        let ghost fps = self.board.footprints@;
        let margins = self.library.margins();
        let k: usize = find_ref(&self.board.footprints, reference);
        if k >= self.board.footprints.len() {
            return Err("no board footprint named ".to_owned().concat(reference));
        }
        let id = self.board.footprints[k].id;
        let position = self.board.footprints[k].position;
        let before = self.board.footprints[k].rotation;
        self.board.footprints[k].rotation = rotation;
        let ghost fp = Footprint { rotation, ..fps[k as int] };
        assert(self.board.footprints@ =~= fps.update(k as int, fp));
        proof {
            assert(fps[k as int].in_range());
            in_range_after(fps, k as int, fp);
            ids_after(fps, k as int, fp);
            own_place_is_free(start.board, self.board, k as int, fp, start.library.lookup());
        }
        if let Some(f) = check_placement(
            &self.board,
            &self.board.footprints[k],
            Some(id),
            &margins,
        ) {
            let e = turn_error_text(reference, rotation, f);
            self.board.footprints[k].rotation = before;
            assert(self.board.footprints@ =~= fps);
            return Err(e);
        }
        self.publish(Event::FootprintMoved { id, position });
        Ok(id)
    }

    /// Moves the footprint with that reference, unless something stands in
    /// the way.
    pub fn move_footprint_to(&mut self, reference: &str, position: Point) -> (r: Result<Id, String>)
        requires
            old(self).wf(),
            old(self).in_range(),
            position.within(COORD_MAX as int),
        ensures
            final(self).wf(),
            final(self).in_range(),
            is_moving(*old(self), reference@, position, *final(self), r),
    {
        let ghost start = *self;
        let ghost fps = self.board.footprints@;
        let margins = self.library.margins();
        let k: usize = find_ref(&self.board.footprints, reference);
        if k >= self.board.footprints.len() {
            return Err("no board footprint named ".to_owned().concat(reference));
        }
        let id = self.board.footprints[k].id;
        let before = self.board.footprints[k].position;
        self.board.footprints[k].position = position;
        let ghost fp = Footprint { position, ..fps[k as int] };
        assert(self.board.footprints@ =~= fps.update(k as int, fp));
        proof {
            assert(fps[k as int].in_range());
            in_range_after(fps, k as int, fp);
            ids_after(fps, k as int, fp);
            own_place_is_free(start.board, self.board, k as int, fp, start.library.lookup());
        }
        if let Some(f) = check_placement(
            &self.board,
            &self.board.footprints[k],
            Some(id),
            &margins,
        ) {
            let e = move_error_text(reference, position, f);
            self.board.footprints[k].position = before;
            assert(self.board.footprints@ =~= fps);
            return Err(e);
        }
        self.publish(Event::FootprintMoved { id, position });
        Ok(id)
    }
}

proof fn in_range_after(fps: Seq<Footprint>, k: int, fp: Footprint)
    requires
        0 <= k < fps.len(),
        forall|i: int| 0 <= i < fps.len() ==> (#[trigger] fps[i]).in_range(),
        fp.pads == fps[k].pads,
        fp.position.within(COORD_MAX as int),
        fp.rotation.wf(),
    ensures
        fp.in_range(),
        forall|i: int|
            0 <= i < fps.len() ==> (#[trigger] fps.update(k, fp)[i]).in_range(),
{
    assert forall|j: int| 0 <= j < fp.pads@.len() implies (#[trigger] fp.pads@[j]).in_range() by {
        assert(fps[k].pads@[j].in_range());
    }
    assert forall|i: int| 0 <= i < fps.len() implies (
    #[trigger] fps.update(k, fp)[i]).in_range() by {
        if i != k {
            assert(fps[i].in_range());
        }
    }
}

proof fn ids_after(fps: Seq<Footprint>, k: int, fp: Footprint)
    requires
        0 <= k < fps.len(),
        fp.id == fps[k].id,
        forall|i: int, j: int|
            0 <= i < j < fps.len() ==> #[trigger] fps[i].id != #[trigger] fps[j].id,
    ensures
        forall|i: int, j: int|
            0 <= i < j < fps.len() ==> #[trigger] fps.update(k, fp)[i].id
                != #[trigger] fps.update(k, fp)[j].id,
{
    let u = fps.update(k, fp);
    assert forall|i: int, j: int| 0 <= i < j < fps.len() implies #[trigger] u[i].id
        != #[trigger] u[j].id by {
        assert(fps[i].id != fps[j].id);
    }
}

/// An item that goes over from one list to the other stays in the whole.
proof fn moved_over(board: Seq<Footprint>, palette: Seq<Footprint>, k: int, fp: Footprint)
    requires
        0 <= k < palette.len(),
        fp.reference == palette[k].reference,
    ensures
        (project::refs(board.push(fp)) + project::refs(palette.remove(k))).to_multiset() == (
        project::refs(board) + project::refs(palette)).to_multiset(),
{
    broadcast use vstd::seq_lib::group_to_multiset_ensures;

    let a = project::refs(board);
    let b = project::refs(palette);
    let x = fp.reference@;
    assert(project::refs(board.push(fp)) =~= a.push(x));
    assert(project::refs(palette.remove(k)) =~= b.remove(k));
    vstd::seq_lib::lemma_multiset_commutative(a.push(x), b.remove(k));
    vstd::seq_lib::lemma_multiset_commutative(a, b);
    assert(b.to_multiset().count(x) > 0) by {
        assert(b[k] == x);
        assert(b.contains(x));
    }
    assert((a.push(x) + b.remove(k)).to_multiset() =~= (a + b).to_multiset());
}

/// A footprint that was placed or moved overlaps no other: neither pads nor
/// bodies, and it stands inside the outline and touches the edge where it
/// must.
pub proof fn what_is_placed_is_clear(
    b: Board,
    probe: Footprint,
    ignore: Option<Id>,
    margin: spec_fn(Seq<char>) -> PlacementMargin,
    i: int,
)
    requires
        fault_of(b, probe, ignore, margin) is None,
        0 <= i < b.footprints@.len(),
    ensures
        !b.blocks(probe, ignore, i),
        !b.body_blocks(probe, ignore, margin, i),
        !b.body_sticks_out(probe, margin(probe.key@)),
        !b.off_edge(probe),
{
    nothing_blocks(b, probe, ignore, margin, 0, i);
}

proof fn nothing_blocks(
    b: Board,
    probe: Footprint,
    ignore: Option<Id>,
    margin: spec_fn(Seq<char>) -> PlacementMargin,
    from: int,
    i: int,
)
    requires
        0 <= from <= i < b.footprints@.len(),
        pad_blocker(b, probe, ignore, from) is None,
        body_blocker(b, probe, ignore, margin, from) is None,
    ensures
        !b.blocks(probe, ignore, i),
        !b.body_blocks(probe, ignore, margin, i),
    decreases i - from,
{
    if from < i {
        nothing_blocks(b, probe, ignore, margin, from + 1, i);
    }
}

/// The two footprints keep apart: their pads by the least gap, and their
/// bodies.
pub open spec fn keep_apart(
    a: Footprint,
    b: Footprint,
    margin: spec_fn(Seq<char>) -> PlacementMargin,
) -> bool {
    !placement::too_close(a, b) && !placement::bodies_overlap(
        a,
        margin(a.key@),
        b,
        margin(b.key@),
    )
}

/// All footprints of the list keep apart.
pub open spec fn parts_apart(
    fps: Seq<Footprint>,
    margin: spec_fn(Seq<char>) -> PlacementMargin,
) -> bool {
    forall|i: int, j: int|
        0 <= i < fps.len() && 0 <= j < fps.len() && i != j ==> keep_apart(
            #[trigger] fps[i],
            #[trigger] fps[j],
            margin,
        )
}

proof fn keeping_apart_is_mutual(
    a: Footprint,
    b: Footprint,
    margin: spec_fn(Seq<char>) -> PlacementMargin,
)
    ensures
        keep_apart(a, b, margin) == keep_apart(b, a, margin),
{
}

/// Placing a part keeps the parts of a board apart.
pub proof fn placing_keeps_parts_apart(
    a: Project,
    reference: Seq<char>,
    position: Point,
    b: Project,
    r: Result<Id, String>,
)
    requires
        is_placing(a, reference, position, b, r),
        parts_apart(a.board.footprints@, a.library.lookup()),
    ensures
        parts_apart(b.board.footprints@, b.library.lookup()),
{
    let fps = a.board.footprints@;
    let margin = a.library.lookup();
    let k = project::ref_from(a.palette@, reference, 0);
    let fp = Footprint { position, ..a.palette@[k] };
    if r is Ok {
        assert forall|i: int| 0 <= i < fps.len() implies keep_apart(fp, #[trigger] fps[i], margin)
            && keep_apart(fps[i], fp, margin) by {
            nothing_blocks(a.board, fp, None, margin, 0, i);
            assert(!a.board.blocks(fp, None, i) && !a.board.body_blocks(fp, None, margin, i));
            keeping_apart_is_mutual(fp, fps[i], margin);
        }
        if a.board.has(fp.id) {
            let j = choose|j: int| 0 <= j < fps.len() && #[trigger] fps[j].id == fp.id;
            assert(b.board.footprints@ == fps.update(j, fp));
        }
    }
}

/// Turning or moving a part keeps the parts of a board apart.
pub proof fn changing_keeps_parts_apart(
    a: Project,
    reference: Seq<char>,
    fp: Footprint,
    why: spec_fn(Fault) -> Seq<char>,
    b: Project,
    r: Result<Id, String>,
)
    requires
        is_change(a, reference, fp, why, b, r),
        a.board.ids_unique(),
        parts_apart(a.board.footprints@, a.library.lookup()),
    ensures
        parts_apart(b.board.footprints@, b.library.lookup()),
{
    let fps = a.board.footprints@;
    let margin = a.library.lookup();
    let k = project::ref_from(fps, reference, 0);
    if r is Ok {
        project::ref_is_first(fps, reference, 0);
        let ignore = Some(fps[k].id);
        assert forall|i: int| 0 <= i < fps.len() && i != k implies keep_apart(
            fp,
            #[trigger] fps[i],
            margin,
        ) && keep_apart(fps[i], fp, margin) by {
            nothing_blocks(a.board, fp, ignore, margin, 0, i);
            assert(!a.board.blocks(fp, ignore, i) && !a.board.body_blocks(fp, ignore, margin, i));
            assert(fps[i].id != fps[k].id);
            keeping_apart_is_mutual(fp, fps[i], margin);
        }
    }
}

} // verus!
