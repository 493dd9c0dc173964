//! Where the copper of a pad is: its rectangle on the board, and the list of
//! all pads.

use vstd::prelude::*;

use crate::board::{Board, Footprint, Pad};
use crate::drc;
use crate::gerber;
use crate::rotation;
use crate::rotation::{COORD_MAX, UNIT};

verus! {

/// The board is in range, and no pad has a negative size.
pub open spec fn proper(b: Board) -> bool {
    &&& b.in_range()
    &&& forall|i: int, j: int|
        0 <= i < b.footprints@.len() && 0 <= j < b.footprints@[i].pads@.len() ==> is_sized(
            #[trigger] b.footprints@[i].pads@[j],
        )
}

/// The board is in range, and no pad, trace or via has a negative size.
pub open spec fn solid(b: Board) -> bool {
    &&& proper(b)
    &&& forall|k: int| 0 <= k < b.traces@.len() ==> (#[trigger] b.traces@[k]).width.0 >= 0
    &&& forall|k: int| 0 <= k < b.vias@.len() ==> (#[trigger] b.vias@[k]).diameter.0 >= 0
}

/// The size of the pad is not negative.
pub open spec fn is_sized(pad: Pad) -> bool {
    pad.size.0.0 >= 0 && pad.size.1.0 >= 0
}

/// The footprint is turned on its side: closer to a quarter turn, either
/// way, than to none or a half.
pub open spec fn on_its_side(fp: Footprint) -> bool {
    let r = fp.rotation.udeg as int % 360_000_000;
    45_000_000 <= r < 135_000_000 || 225_000_000 <= r < 315_000_000
}

/// The copper of a pad is a rectangle around its centre, as wide and as high
/// as the pad, or the other way about on a footprint that is turned on its
/// side; odd sizes lose a nanometre.
pub proof fn pad_copper_is_centered(fp: Footprint, pad: Pad)
    requires
        fp.in_range(),
        pad.in_range(),
        is_sized(pad),
    ensures
        ({
            let r = fp.rect_of(pad);
            let c = fp.center_of(pad);
            let (w, h) = if on_its_side(fp) {
                (pad.size.1.0 as int, pad.size.0.0 as int)
            } else {
                (pad.size.0.0 as int, pad.size.1.0 as int)
            };
            &&& r.wf()
            &&& c.within(3 * COORD_MAX)
            &&& r.within(4 * COORD_MAX)
            &&& r.min.x.0 == c.x.0 - w / 2 && r.max.x.0 == c.x.0 + w / 2
            &&& r.min.y.0 == c.y.0 - h / 2 && r.max.y.0 == c.y.0 + h / 2
            &&& fp.size_of(pad).0.0 == w && fp.size_of(pad).1.0 == h
        }),
{
    let (x, y) = (pad.offset.x.0 as int, pad.offset.y.0 as int);
    let (c, s) = (fp.rotation.cos as int, fp.rotation.sin as int);
    rotation::product_bound(x, COORD_MAX as int, c, UNIT as int);
    rotation::product_bound(y, COORD_MAX as int, s, UNIT as int);
    rotation::product_bound(x, COORD_MAX as int, s, UNIT as int);
    rotation::product_bound(y, COORD_MAX as int, c, UNIT as int);
    rotation::rounded_bound(
        fp.position.x.0 * UNIT + (x * c - y * s),
        UNIT as int,
        3 * COORD_MAX,
    );
    rotation::rounded_bound(
        fp.position.y.0 * UNIT + (x * s + y * c),
        UNIT as int,
        3 * COORD_MAX,
    );
}

proof fn pads_of_footprint(fp: Footprint, n: int, k: int)
    requires
        0 <= n <= fp.pads@.len(),
    ensures
        gerber::over_fp(fp, drc::one_pad(), n).len() == n,
        0 <= k < n ==> gerber::over_fp(fp, drc::one_pad(), n)[k] == (fp, fp.pads@[k]),
    decreases n,
{
    if n > 0 {
        pads_of_footprint(fp, n - 1, k);
    }
}

/// The number of pads of the first `n` footprints.
pub open spec fn pad_count(fps: Seq<Footprint>, n: int) -> nat
    decreases n,
{
    if n <= 0 {
        0
    } else {
        pad_count(fps, n - 1) + fps[n - 1].pads@.len()
    }
}

proof fn listed_pads(fps: Seq<Footprint>, n: int, i: int, j: int)
    requires
        0 <= n <= fps.len(),
    ensures
        gerber::over_pads(fps, drc::one_pad(), n).len() == pad_count(fps, n),
        0 <= i < n && 0 <= j < fps[i].pads@.len() ==> pad_count(fps, i) + j < pad_count(fps, n)
            && gerber::over_pads(fps, drc::one_pad(), n)[pad_count(fps, i) + j] == (
            fps[i],
            fps[i].pads@[j],
        ),
    decreases n,
{
    if n > 0 {
        listed_pads(fps, n - 1, i, j);
        pads_of_footprint(fps[n - 1], fps[n - 1].pads@.len() as int, j);
    }
}

/// Where in the list the pad `k` comes from.
proof fn pad_origin(fps: Seq<Footprint>, n: int, k: int) -> (at: (int, int))
    requires
        0 <= n <= fps.len(),
        0 <= k < pad_count(fps, n),
    ensures
        0 <= at.0 < n,
        0 <= at.1 < fps[at.0].pads@.len(),
        k == pad_count(fps, at.0) + at.1,
    decreases n,
{
    if k < pad_count(fps, n - 1) {
        pad_origin(fps, n - 1, k)
    } else {
        (n - 1, k - pad_count(fps, n - 1))
    }
}

/// The place of pad `j` of footprint `i` among all pads.
pub open spec fn place(b: Board, i: int, j: int) -> int {
    pad_count(b.footprints@, i) + j
}

/// Pad `j` of footprint `i` is at place `k` of the list of all pads.
pub open spec fn is_listed(b: Board, k: int, i: int, j: int) -> bool {
    &&& 0 <= i < b.footprints@.len()
    &&& 0 <= j < b.footprints@[i].pads@.len()
    &&& k == place(b, i, j)
    &&& drc::pads_of(b)[k] == (b.footprints@[i], b.footprints@[i].pads@[j])
}

/// The pad at place `k` of the list is a pad of the board.
pub open spec fn is_of_board(b: Board, k: int) -> bool {
    exists|i: int, j: int| #[trigger] is_listed(b, k, i, j)
}

/// Every pad of every footprint is in the list of all pads once, in the
/// order of the footprints and of their pads.
pub proof fn every_pad_is_listed_once(b: Board)
    ensures
        drc::pads_of(b).len() == pad_count(b.footprints@, b.footprints@.len() as int),
        forall|i: int, j: int|
            0 <= i < b.footprints@.len() && 0 <= j < b.footprints@[i].pads@.len() ==> 0
                <= #[trigger] place(b, i, j) < drc::pads_of(b).len() && is_listed(
                b,
                place(b, i, j),
                i,
                j,
            ),
        forall|k: int| 0 <= k < drc::pads_of(b).len() ==> #[trigger] is_of_board(b, k),
{
    let fps = b.footprints@;
    let n = fps.len() as int;
    listed_pads(fps, n, 0, 0);
    assert forall|i: int, j: int| 0 <= i < n && 0 <= j < fps[i].pads@.len() implies 0
        <= #[trigger] place(b, i, j) < drc::pads_of(b).len() && is_listed(b, place(b, i, j), i, j) by {
        listed_pads(fps, n, i, j);
    }
    assert forall|k: int| 0 <= k < drc::pads_of(b).len() implies #[trigger] is_of_board(b, k) by {
        let (i, j) = pad_origin(fps, n, k);
        assert(k == place(b, i, j));
        assert(is_listed(b, k, i, j));
    }
}

/// The pads in the list are pads of the board.
pub proof fn listed_pad_is_proper(b: Board, k: int)
    requires
        proper(b),
        0 <= k < drc::pads_of(b).len(),
    ensures
        ({
            let p = drc::pads_of(b)[k];
            &&& p.0.in_range()
            &&& p.1.in_range()
            &&& is_sized(p.1)
            &&& drc::rect_at(p).wf()
            &&& drc::rect_at(p).within(4 * COORD_MAX)
        }),
{
    every_pad_is_listed_once(b);
    assert(is_of_board(b, k));
    let (i, j) = choose|i: int, j: int| #[trigger] is_listed(b, k, i, j);
    let fp = b.footprints@[i];
    assert(is_sized(b.footprints@[i].pads@[j]));
    assert(fp.in_range());
    pad_copper_is_centered(fp, fp.pads@[j]);
}

/// A pad is called by the reference of its footprint, a dot and its number.
pub proof fn pads_are_called_by_reference_and_number(p: (Footprint, Pad))
    ensures
        drc::label_of(p) == p.0.reference@ + "."@ + p.1.number@,
{
}

} // verus!
