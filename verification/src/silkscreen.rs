//! Gerber output of the silkscreen.

use vstd::prelude::*;

use crate::board::{Board, Footprint, FootprintSilk, SilkAnchor, SilkLayer, SilkLine, SilkText};
use crate::geometry::{Point, Rect};
use crate::gerber;
use crate::gerber::{
    Aperture, Ink, Mark, Side, draw_all, draw_marks, table_for, write_apertures, write_header,
};
use crate::hershey;
use crate::hershey::{TEXT_MAX, text_polylines};
use crate::rotation::COORD_MAX;
use crate::silk_clip;
use crate::silk_clip::{CLIP_MAX, clip_segment};
use crate::units;
use crate::units::Length;

verus! {

/// Cap height of a default label.
pub const LABEL_SIZE: i64 = 900_000;

/// How far a default label stands above the body.
pub const LABEL_LIFT: i64 = 600_000;

/// How far the body extends beyond the pads.
pub const BODY_GROWTH: i64 = 400_000;

/// The stroke width of a text: its own, or an eighth of its size.
pub open spec fn stroke_of(width: Length, size: Length) -> Length {
    if width.0 > 0 {
        width
    } else {
        Length(units::quot(size.0 as int, 8) as i64)
    }
}

fn default_silk_stroke(size: Length) -> (r: Length)
    ensures
        r.0 == units::quot(size.0 as int, 8),
{
    Length(size.0 / 8)
}

fn stroke_for(width: Length, size: Length) -> (r: Length)
    ensures
        r == stroke_of(width, size),
{
    if width.0 > 0 {
        width
    } else {
        default_silk_stroke(size)
    }
}

/// The lowest and the highest point of the first `n` pads in the frame of
/// the footprint.
pub open spec fn extent_upto(fp: Footprint, n: int) -> Option<(int, int)>
    decreases n,
{
    if n <= 0 {
        None
    } else {
        let pad = fp.pads@[n - 1];
        let half = units::quot(pad.size.1.0 as int, 2);
        let lo = pad.offset.y.0 - half;
        let hi = pad.offset.y.0 + half;
        match extent_upto(fp, n - 1) {
            None => Some((lo, hi)),
            Some((a, b)) => Some((units::min(a, lo), units::max(b, hi))),
        }
    }
}

/// The vertical extent of the body in the frame of the footprint.
pub open spec fn body_extent(fp: Footprint) -> Option<(int, int)> {
    match extent_upto(fp, fp.pads@.len() as int) {
        None => None,
        Some((lo, hi)) => Some((lo - BODY_GROWTH, hi + BODY_GROWTH)),
    }
}

fn footprint_body_local(fp: &Footprint) -> (r: Option<(Length, Length)>)
    requires
        fp.in_range(),
    ensures
        r is Some == body_extent(*fp) is Some,
        r matches Some((lo, hi)) ==> body_extent(*fp) == Some((lo.0 as int, hi.0 as int)),
        r matches Some((lo, hi)) ==> -3 * COORD_MAX <= hi.0 <= 3 * COORD_MAX,
{
    let mut acc: Option<(i64, i64)> = None;
    let mut i: usize = 0;
    while i < fp.pads.len()
        invariant
            i <= fp.pads@.len(),
            fp.in_range(),
            acc is Some == extent_upto(*fp, i as int) is Some,
            acc matches Some((lo, hi)) ==> extent_upto(*fp, i as int) == Some(
                (lo as int, hi as int),
            ) && -2 * COORD_MAX <= lo <= 2 * COORD_MAX && -2 * COORD_MAX <= hi <= 2 * COORD_MAX,
        decreases fp.pads@.len() - i,
    {
        let pad = &fp.pads[i];
        let half: i64 = pad.size.1.0 / 2;
        let lo: i64 = pad.offset.y.0 - half;
        let hi: i64 = pad.offset.y.0 + half;
        acc = match acc {
            None => Some((lo, hi)),
            Some((a, b)) => Some(
                (crate::arith::min_i64(a, lo), crate::arith::max_i64(b, hi)),
            ),
        };
        i += 1;
    }
    match acc {
        None => None,
        Some((lo, hi)) => Some((Length(lo - BODY_GROWTH), Length(hi + BODY_GROWTH))),
    }
}

/// The copper rectangles of a footprint's pads.
pub open spec fn pad_rects(fp: Footprint) -> Seq<Rect> {
    Seq::new(fp.pads@.len(), |j: int| fp.rect_of(fp.pads@[j]))
}

fn rects_of(fp: &Footprint) -> (r: Vec<Rect>)
    requires
        fp.in_range(),
    ensures
        r@ == pad_rects(*fp),
        forall|i: int| 0 <= i < r@.len() ==> (#[trigger] r@[i]).within(CLIP_MAX as int),
{
    let mut out: Vec<Rect> = Vec::new();
    let mut j: usize = 0;
    while j < fp.pads.len()
        invariant
            j <= fp.pads@.len(),
            fp.in_range(),
            out@.len() == j,
            forall|k: int| 0 <= k < j ==> #[trigger] out@[k] == fp.rect_of(fp.pads@[k]),
            forall|k: int| 0 <= k < j ==> (#[trigger] out@[k]).within(CLIP_MAX as int),
        decreases fp.pads@.len() - j,
    {
        out.push(fp.pad_rect(&fp.pads[j]));
        j += 1;
    }
    assert(out@ =~= pad_rects(*fp));
    out
}

/// The bounding box of `a` and `b` touches `r`.
pub open spec fn box_touches(a: Point, b: Point, r: Rect) -> bool {
    &&& units::max(a.x.0 as int, b.x.0 as int) >= r.min.x.0
    &&& units::min(a.x.0 as int, b.x.0 as int) <= r.max.x.0
    &&& units::max(a.y.0 as int, b.y.0 as int) >= r.min.y.0
    &&& units::min(a.y.0 as int, b.y.0 as int) <= r.max.y.0
}

/// No point of the polyline is in a rectangle, and the box of none of its
/// segments touches one.
pub open spec fn misses(poly: Seq<Point>, rects: Seq<Rect>) -> bool {
    &&& forall|i: int, j: int|
        0 <= i < poly.len() && 0 <= j < rects.len() ==> !(#[trigger] rects[j]).holds(
            (#[trigger] poly[i]).x.0 as int,
            poly[i].y.0 as int,
        )
    &&& forall|i: int, j: int|
        1 <= i < poly.len() && 0 <= j < rects.len() ==> !#[trigger] box_touches(
            poly[i - 1],
            poly[i],
            rects[j],
        )
}

/// True if the polyline stays clear of every rectangle. A polyline for
/// which this fails may still be clear.
pub fn polyline_misses_all(poly: &Vec<Point>, rects: &Vec<Rect>) -> (r: bool)
    ensures
        r == misses(poly@, rects@),
{
    let mut i: usize = 0;
    while i < poly.len()
        invariant
            i <= poly@.len(),
            forall|a: int, j: int|
                0 <= a < i && 0 <= j < rects@.len() ==> !(#[trigger] rects@[j]).holds(
                    (#[trigger] poly@[a]).x.0 as int,
                    poly@[a].y.0 as int,
                ),
            forall|a: int, j: int|
                1 <= a < i && 0 <= j < rects@.len() ==> !#[trigger] box_touches(
                    poly@[a - 1],
                    poly@[a],
                    rects@[j],
                ),
        decreases poly@.len() - i,
    {
        let p = poly[i];
        let mut j: usize = 0;
        while j < rects.len()
            invariant
                i < poly@.len(),
                p == poly@[i as int],
                j <= rects@.len(),
                forall|k: int|
                    0 <= k < j ==> !(#[trigger] rects@[k]).holds(p.x.0 as int, p.y.0 as int),
                forall|k: int|
                    0 <= k < j && i >= 1 ==> !#[trigger] box_touches(poly@[i - 1], p, rects@[k]),
            decreases rects@.len() - j,
        {
            let r = rects[j];
            if p.x.0 >= r.min.x.0 && p.x.0 <= r.max.x.0 && p.y.0 >= r.min.y.0 && p.y.0 <= r.max.y.0 {
                assert(rects@[j as int].holds(poly@[i as int].x.0 as int, poly@[i as int].y.0 as int));
                return false;
            }
            if i > 0 {
                let a = poly[i - 1];
                if a.x.max(p.x).0 >= r.min.x.0 && a.x.min(p.x).0 <= r.max.x.0 && a.y.max(p.y).0
                    >= r.min.y.0 && a.y.min(p.y).0 <= r.max.y.0 {
                    assert(box_touches(poly@[i - 1], poly@[i as int], rects@[j as int]));
                    return false;
                }
            }
            j += 1;
        }
        i += 1;
    }
    true
}

/// Polylines drawn with one aperture.
pub open spec fn poly_ink(polys: Seq<Seq<Point>>, ap: Aperture) -> Seq<Ink> {
    Seq::new(polys.len(), |i: int| Ink::Poly(ap, polys[i]))
}

/// A segment clipped against the pads, drawn with one aperture.
pub open spec fn clip_ink(rects: Seq<Rect>, ap: Aperture) -> spec_fn((Point, Point)) -> Seq<Ink> {
    |s: (Point, Point)|
        gerber::draws(silk_clip::clipped(s.0, s.1, rects, rects.len() as int), ap)
}

/// A polyline against the pads: as it is where it misses them, else its
/// segments clipped one by one.
pub open spec fn trim_ink(rects: Seq<Rect>, ap: Aperture) -> spec_fn(Seq<Point>) -> Seq<Ink> {
    |poly: Seq<Point>|
        if rects.len() == 0 || misses(poly, rects) {
            seq![Ink::Poly(ap, poly)]
        } else {
            let segs = hershey::pieces(poly, poly.len() as int);
            gerber::over(segs, clip_ink(rects, ap), segs.len() as int)
        }
}

/// What one item contributes: the apertures it uses, and its marks.
pub struct Share {
    pub uses: Seq<Aperture>,
    pub marks: Seq<Ink>,
}

pub open spec fn nothing() -> Share {
    Share { uses: Seq::empty(), marks: Seq::empty() }
}

pub open spec fn line_share(layer: SilkLayer, l: SilkLine) -> Share {
    if l.layer == layer {
        let ap = Aperture::Round { d: l.width };
        Share { uses: seq![ap], marks: seq![Ink::Draw(ap, l.start, l.end)] }
    } else {
        nothing()
    }
}

pub open spec fn text_share(layer: SilkLayer, t: SilkText) -> Share {
    if t.layer == layer {
        let ap = Aperture::Round { d: stroke_of(t.width, t.size) };
        Share {
            uses: seq![ap],
            marks: poly_ink(
                hershey::lettering(t.text@, t.position, t.size, t.rotation, t.anchor),
                ap,
            ),
        }
    } else {
        nothing()
    }
}

/// The text of a default label: the library key, or else the reference.
pub open spec fn label_text(fp: Footprint) -> Seq<char> {
    if fp.key@.len() == 0 {
        fp.reference@
    } else {
        fp.key@
    }
}

/// The side that a footprint's default label is on.
pub open spec fn label_layer(fp: Footprint) -> SilkLayer {
    if fp.layer == crate::board::CopperLayer::Top {
        SilkLayer::Top
    } else {
        SilkLayer::Bottom
    }
}

/// The label of a footprint that brings no silkscreen of its own, above
/// its body.
pub open spec fn label_share(layer: SilkLayer, fp: Footprint) -> Share {
    if label_layer(fp) != layer || label_text(fp).len() == 0 || body_extent(fp) is None {
        nothing()
    } else {
        let ap = Aperture::Round {
            d: Length(units::quot(LABEL_SIZE as int, 8) as i64),
        };
        let anchor = Point {
            x: Length(0),
            y: Length(((body_extent(fp)->0).1 + LABEL_LIFT) as i64),
        };
        Share {
            uses: seq![ap],
            marks: poly_ink(
                hershey::lettering(
                    label_text(fp),
                    fp.rotation.turned(fp.position, anchor),
                    Length(LABEL_SIZE),
                    fp.rotation,
                    SilkAnchor::Middle,
                ),
                ap,
            ),
        }
    }
}

/// What one silk primitive of a footprint contributes, with what would
/// land on its pads cut away.
pub open spec fn item_share(layer: SilkLayer, fp: Footprint, item: FootprintSilk) -> Share {
    let rects = pad_rects(fp);
    match item {
        FootprintSilk::Line { layer: l, start, end, width } => if l != layer {
            nothing()
        } else {
            let ap = Aperture::Round { d: width };
            let s = fp.rotation.turned(fp.position, start);
            let e = fp.rotation.turned(fp.position, end);
            Share { uses: seq![ap], marks: clip_ink(rects, ap)((s, e)) }
        },
        FootprintSilk::Text { layer: l, position, text, size, rotation, anchor, width } => if l
            != layer {
            nothing()
        } else {
            let ap = Aperture::Round { d: stroke_of(width, size) };
            let polys = hershey::lettering(
                fp.resolved(text@),
                fp.rotation.turned(fp.position, position),
                size,
                rotation.sum(fp.rotation),
                anchor,
            );
            Share {
                uses: seq![ap],
                marks: gerber::over(polys, trim_ink(rects, ap), polys.len() as int),
            }
        },
    }
}

pub open spec fn joined(a: Share, b: Share) -> Share {
    Share { uses: a.uses + b.uses, marks: a.marks + b.marks }
}

pub open spec fn lines_share(layer: SilkLayer, v: Seq<SilkLine>, n: int) -> Share
    decreases n,
{
    if n <= 0 {
        nothing()
    } else {
        joined(lines_share(layer, v, n - 1), line_share(layer, v[n - 1]))
    }
}

pub open spec fn texts_share(layer: SilkLayer, v: Seq<SilkText>, n: int) -> Share
    decreases n,
{
    if n <= 0 {
        nothing()
    } else {
        joined(texts_share(layer, v, n - 1), text_share(layer, v[n - 1]))
    }
}

pub open spec fn items_share(layer: SilkLayer, fp: Footprint, n: int) -> Share
    decreases n,
{
    if n <= 0 {
        nothing()
    } else {
        joined(items_share(layer, fp, n - 1), item_share(layer, fp, fp.silk@[n - 1]))
    }
}

pub open spec fn fp_share(layer: SilkLayer, fp: Footprint) -> Share {
    if fp.silk@.len() == 0 {
        label_share(layer, fp)
    } else {
        items_share(layer, fp, fp.silk@.len() as int)
    }
}

pub open spec fn fps_share(layer: SilkLayer, v: Seq<Footprint>, n: int) -> Share
    decreases n,
{
    if n <= 0 {
        nothing()
    } else {
        joined(fps_share(layer, v, n - 1), fp_share(layer, v[n - 1]))
    }
}

/// Everything on the silkscreen of a side: the board's lines and texts,
/// then the footprints'.
pub open spec fn silk_share(b: Board, layer: SilkLayer) -> Share {
    joined(
        joined(
            lines_share(layer, b.silk_lines@, b.silk_lines@.len() as int),
            texts_share(layer, b.silk_texts@, b.silk_texts@.len() as int),
        ),
        fps_share(layer, b.footprints@, b.footprints@.len() as int),
    )
}

/// The silkscreen file of a side.
pub open spec fn silk_text(b: Board, side: Side) -> Seq<char> {
    let s = silk_share(b, side.silk());
    let t = gerber::table_of(s.uses, s.uses.len() as int);
    gerber::header(side.silk_name()) + gerber::definitions(t, t.len() as int) + gerber::all_drawn(
        s.marks,
        t,
    ) + gerber::footer_line()
}

pub open spec fn text_ok(t: SilkText) -> bool {
    &&& t.text@.len() <= TEXT_MAX
    &&& t.position.within(COORD_MAX as int)
    &&& -COORD_MAX <= t.size.0 <= COORD_MAX
    &&& t.rotation.trig_ok()
}

pub open spec fn item_ok(fp: Footprint, item: FootprintSilk) -> bool {
    match item {
        FootprintSilk::Line { layer, start, end, width } => start.within(COORD_MAX as int)
            && end.within(COORD_MAX as int),
        FootprintSilk::Text { layer, position, text, size, rotation, anchor, width } => {
            &&& fp.resolved(text@).len() <= TEXT_MAX
            &&& position.within(COORD_MAX as int)
            &&& -COORD_MAX <= size.0 <= COORD_MAX
            &&& rotation.wf()
        },
    }
}

pub open spec fn fp_ok(fp: Footprint) -> bool {
    &&& fp.reference@.len() <= TEXT_MAX
    &&& fp.key@.len() <= TEXT_MAX
    &&& forall|k: int| 0 <= k < fp.silk@.len() ==> item_ok(fp, #[trigger] fp.silk@[k])
}

/// The silkscreen's coordinates and text lengths are in range.
pub open spec fn silk_in_range(b: Board) -> bool {
    &&& forall|i: int| 0 <= i < b.silk_texts@.len() ==> text_ok(#[trigger] b.silk_texts@[i])
    &&& forall|i: int| 0 <= i < b.footprints@.len() ==> fp_ok(#[trigger] b.footprints@[i])
}

struct Sheet {
    uses: Vec<Aperture>,
    marks: Vec<Mark>,
}

impl Sheet {
    spec fn sound(self) -> bool {
        gerber::all_used(gerber::inks(self.marks@), self.uses@)
    }

    spec fn share(self) -> Share {
        Share { uses: self.uses@, marks: gerber::inks(self.marks@) }
    }

    /// Adds an aperture and the marks made with it.
    fn put(&mut self, ap: Aperture, marks: Vec<Mark>)
        requires
            old(self).sound(),
            forall|k: int| 0 <= k < marks@.len() ==> (#[trigger] marks@[k]).ink().aperture() == ap,
        ensures
            final(self).sound(),
            final(self).share() == joined(
                old(self).share(),
                (Share { uses: seq![ap], marks: gerber::inks(marks@) }),
            ),
    {
        let ghost start = *self;
        let ghost added = marks@;
        let mut marks = marks;
        self.uses.push(ap);
        self.marks.append(&mut marks);
        proof {
            gerber::inks_join(start.marks@, added);
            gerber::used_in_more(
                gerber::inks(start.marks@),
                Seq::empty(),
                start.uses@,
                seq![ap],
            );
            assert(Seq::empty() + start.uses@ + seq![ap] =~= self.uses@);
            assert(self.uses@[start.uses@.len() as int] == ap);
            assert forall|k: int|
                0 <= k < gerber::inks(self.marks@).len() implies self.uses@.contains(
                (#[trigger] gerber::inks(self.marks@)[k]).aperture(),
            ) by {
                if k < start.marks@.len() {
                    assert(gerber::inks(self.marks@)[k] == gerber::inks(start.marks@)[k]);
                } else {
                    assert(gerber::inks(self.marks@)[k] == added[k - start.marks@.len()].ink());
                }
            }
            assert(self.uses@ =~= start.uses@ + seq![ap]);
        }
    }
}

proof fn join_nothing(s: Share)
    ensures
        joined(s, nothing()) == s,
        joined(nothing(), s) == s,
{
    assert(s.uses + Seq::empty() =~= s.uses);
    assert(s.marks + Seq::empty() =~= s.marks);
    assert(Seq::empty() + s.uses =~= s.uses);
    assert(Seq::empty() + s.marks =~= s.marks);
}

proof fn join_assoc(a: Share, b: Share, c: Share)
    ensures
        joined(joined(a, b), c) == joined(a, joined(b, c)),
{
    assert(a.uses + b.uses + c.uses =~= a.uses + (b.uses + c.uses));
    assert(a.marks + b.marks + c.marks =~= a.marks + (b.marks + c.marks));
}

fn poly_marks(polys: Vec<Vec<Point>>, ap: Aperture) -> (r: Vec<Mark>)
    ensures
        gerber::inks(r@) == poly_ink(hershey::poly_views(polys@), ap),
        forall|k: int| 0 <= k < r@.len() ==> (#[trigger] r@[k]).ink().aperture() == ap,
{
    let ghost all = polys@;
    let mut polys = polys;
    let mut out: Vec<Mark> = Vec::new();
    let n: usize = polys.len();
    let mut i: usize = 0;
    while i < n
        invariant
            i <= n,
            n == all.len(),
            polys@ == all.skip(i as int),
            out@.len() == i,
            forall|k: int| 0 <= k < i ==> (#[trigger] out@[k]).ink() == Ink::Poly(ap, all[k]@),
        decreases n - i,
    {
        let p = polys.remove(0);
        assert(polys@ =~= all.skip(i + 1));
        out.push(Mark::Poly(ap, p));
        i += 1;
    }
    assert(gerber::inks(out@) =~= poly_ink(hershey::poly_views(all), ap));
    out
}

fn clip_marks(a: Point, b: Point, rects: &Vec<Rect>, ap: Aperture) -> (r: Vec<Mark>)
    requires
        a.within(CLIP_MAX as int),
        b.within(CLIP_MAX as int),
        forall|i: int| 0 <= i < rects@.len() ==> (#[trigger] rects@[i]).within(CLIP_MAX as int),
    ensures
        gerber::inks(r@) == clip_ink(rects@, ap)((a, b)),
        forall|k: int| 0 <= k < r@.len() ==> (#[trigger] r@[k]).ink().aperture() == ap,
{
    let segs = clip_segment(a, b, rects.as_slice());
    let r = draw_all(&segs, ap);
    assert forall|k: int| 0 <= k < r@.len() implies (#[trigger] r@[k]).ink().aperture() == ap by {
        assert(gerber::inks(r@).len() == segs@.len());
        assert(gerber::inks(r@)[k] == r@[k].ink());
        assert(gerber::draws(segs@, ap)[k] == Ink::Draw(ap, segs@[k].0, segs@[k].1));
    }
    r
}

/// The marks of one polyline of a footprint's text.
fn trim_marks(poly: Vec<Point>, rects: &Vec<Rect>, ap: Aperture) -> (r: Vec<Mark>)
    requires
        forall|k: int| 0 <= k < poly@.len() ==> (#[trigger] poly@[k]).within(CLIP_MAX as int),
        forall|i: int| 0 <= i < rects@.len() ==> (#[trigger] rects@[i]).within(CLIP_MAX as int),
    ensures
        gerber::inks(r@) == trim_ink(rects@, ap)(poly@),
        forall|k: int| 0 <= k < r@.len() ==> (#[trigger] r@[k]).ink().aperture() == ap,
{
    let mut out: Vec<Mark> = Vec::new();
    if rects.len() == 0 || polyline_misses_all(&poly, rects) {
        let ghost pv = poly@;
        out.push(Mark::Poly(ap, poly));
        assert(gerber::inks(out@) =~= seq![Ink::Poly(ap, pv)]);
        return out;
    }
    let ghost f = clip_ink(rects@, ap);
    let ghost segs = hershey::pieces(poly@, poly@.len() as int);
    let mut k: usize = 1;
    proof {
        piece_count(poly@, poly@.len() as int);
        assert(gerber::inks(out@) =~= Seq::empty());
    }
    while k < poly.len()
        invariant
            1 <= k,
            poly@.len() >= 1 ==> k <= poly@.len(),
            poly@.len() == 0 ==> k == 1,
            forall|m: int| 0 <= m < poly@.len() ==> (#[trigger] poly@[m]).within(CLIP_MAX as int),
            forall|i: int|
                0 <= i < rects@.len() ==> (#[trigger] rects@[i]).within(CLIP_MAX as int),
            f == clip_ink(rects@, ap),
            segs == hershey::pieces(poly@, poly@.len() as int),
            segs.len() == if poly@.len() == 0 { 0 } else { poly@.len() - 1 },
            gerber::inks(out@) == gerber::over(segs, f, k - 1),
            forall|m: int| 0 <= m < out@.len() ==> (#[trigger] out@[m]).ink().aperture() == ap,
        decreases poly@.len() - k,
    {
        let mut more = clip_marks(poly[k - 1], poly[k], rects, ap);
        proof {
            piece_at(poly@, poly@.len() as int, k - 1);
            gerber::inks_join(out@, more@);
        }
        out.append(&mut more);
        k += 1;
    }
    out
}

proof fn piece_count(poly: Seq<Point>, n: int)
    requires
        0 <= n,
    ensures
        hershey::pieces(poly, n).len() == if n == 0 { 0 } else { n - 1 },
    decreases n,
{
    if n > 1 {
        piece_count(poly, n - 1);
    }
}

proof fn piece_at(poly: Seq<Point>, n: int, k: int)
    requires
        0 <= k < n - 1,
    ensures
        hershey::pieces(poly, n)[k] == (poly[k], poly[k + 1]),
    decreases n,
{
    piece_count(poly, n);
    piece_count(poly, n - 1);
    if k < n - 2 {
        piece_at(poly, n - 1, k);
    }
}

fn trim_all(polys: Vec<Vec<Point>>, rects: &Vec<Rect>, ap: Aperture) -> (r: Vec<Mark>)
    requires
        forall|i: int, k: int|
            0 <= i < polys@.len() && 0 <= k < polys@[i]@.len() ==> (#[trigger] polys@[i]@[k]).within(
                CLIP_MAX as int,
            ),
        forall|i: int| 0 <= i < rects@.len() ==> (#[trigger] rects@[i]).within(CLIP_MAX as int),
    ensures
        gerber::inks(r@) == gerber::over(
            hershey::poly_views(polys@),
            trim_ink(rects@, ap),
            polys@.len() as int,
        ),
        forall|k: int| 0 <= k < r@.len() ==> (#[trigger] r@[k]).ink().aperture() == ap,
{
    let ghost all = polys@;
    let ghost views = hershey::poly_views(all);
    let ghost f = trim_ink(rects@, ap);
    let mut polys = polys;
    let mut out: Vec<Mark> = Vec::new();
    assert(gerber::inks(out@) =~= Seq::empty());
    let n: usize = polys.len();
    let mut i: usize = 0;
    while i < n
        invariant
            i <= n,
            n == all.len(),
            polys@ == all.skip(i as int),
            views == hershey::poly_views(all),
            f == trim_ink(rects@, ap),
            forall|a: int, k: int|
                0 <= a < all.len() && 0 <= k < all[a]@.len() ==> (#[trigger] all[a]@[k]).within(
                    CLIP_MAX as int,
                ),
            forall|a: int|
                0 <= a < rects@.len() ==> (#[trigger] rects@[a]).within(CLIP_MAX as int),
            gerber::inks(out@) == gerber::over(views, f, i as int),
            forall|m: int| 0 <= m < out@.len() ==> (#[trigger] out@[m]).ink().aperture() == ap,
        decreases n - i,
    {
        let p = polys.remove(0);
        assert(polys@ =~= all.skip(i + 1));
        assert(p == all[i as int]);
        assert forall|k: int| 0 <= k < p@.len() implies (#[trigger] p@[k]).within(
            CLIP_MAX as int,
        ) by {
            assert(all[i as int]@[k].within(CLIP_MAX as int));
        }
        let mut more = trim_marks(p, rects, ap);
        proof {
            gerber::inks_join(out@, more@);
        }
        out.append(&mut more);
        i += 1;
    }
    out
}

fn put_text(sheet: &mut Sheet, layer: SilkLayer, t: &SilkText)
    requires
        old(sheet).sound(),
        text_ok(*t),
    ensures
        final(sheet).sound(),
        final(sheet).share() == joined(old(sheet).share(), text_share(layer, *t)),
{
    proof {
        join_nothing(sheet.share());
    }
    if t.layer == layer {
        let ap = Aperture::Round { d: stroke_for(t.width, t.size) };
        let polys = text_polylines(t.text.as_str(), t.position, t.size, t.rotation, t.anchor);
        let marks = poly_marks(polys, ap);
        sheet.put(ap, marks);
    }
}

fn put_label(sheet: &mut Sheet, layer: SilkLayer, fp: &Footprint)
    requires
        old(sheet).sound(),
        fp.in_range(),
        fp_ok(*fp),
    ensures
        final(sheet).sound(),
        final(sheet).share() == joined(old(sheet).share(), label_share(layer, *fp)),
{
    proof {
        join_nothing(sheet.share());
    }
    let mine = if fp.layer.is_top() {
        SilkLayer::Top
    } else {
        SilkLayer::Bottom
    };
    if mine != layer {
        return;
    }
    let primary = if fp.key.as_str().is_empty() {
        fp.reference.as_str()
    } else {
        fp.key.as_str()
    };
    if primary.is_empty() {
        return;
    }
    if let Some(body) = footprint_body_local(fp) {
        let anchor = Point::new(Length(0), Length(body.1.0 + LABEL_LIFT));
        let pos = fp.local_to_world(anchor);
        let size = Length(LABEL_SIZE);
        let ap = Aperture::Round { d: default_silk_stroke(size) };
        let polys = text_polylines(primary, pos, size, fp.rotation, SilkAnchor::Middle);
        let marks = poly_marks(polys, ap);
        sheet.put(ap, marks);
    }
}

fn put_item(
    sheet: &mut Sheet,
    layer: SilkLayer,
    fp: &Footprint,
    item: &FootprintSilk,
    rects: &Vec<Rect>,
)
    requires
        old(sheet).sound(),
        fp.in_range(),
        item_ok(*fp, *item),
        rects@ == pad_rects(*fp),
        forall|i: int| 0 <= i < rects@.len() ==> (#[trigger] rects@[i]).within(CLIP_MAX as int),
    ensures
        final(sheet).sound(),
        final(sheet).share() == joined(old(sheet).share(), item_share(layer, *fp, *item)),
{
    proof {
        join_nothing(sheet.share());
    }
    match item {
        FootprintSilk::Line { layer: l, start, end, width } => {
            if *l == layer {
                let s = fp.local_to_world(*start);
                let e = fp.local_to_world(*end);
                let ap = Aperture::Round { d: *width };
                let marks = clip_marks(s, e, rects, ap);
                sheet.put(ap, marks);
            }
        },
        FootprintSilk::Text { layer: l, position, text, size, rotation, anchor, width } => {
            if *l == layer {
                let pos = fp.local_to_world(*position);
                let resolved = fp.resolve_silk_text(text.as_str());
                let ap = Aperture::Round { d: stroke_for(*width, *size) };
                let turn = rotation.plus(fp.rotation);
                let polys = text_polylines(resolved.as_str(), pos, *size, turn, *anchor);
                let marks = trim_all(polys, rects, ap);
                sheet.put(ap, marks);
            }
        },
    }
}

fn put_footprint(sheet: &mut Sheet, layer: SilkLayer, fp: &Footprint)
    requires
        old(sheet).sound(),
        fp.in_range(),
        fp_ok(*fp),
    ensures
        final(sheet).sound(),
        final(sheet).share() == joined(old(sheet).share(), fp_share(layer, *fp)),
{
    if fp.silk.len() == 0 {
        put_label(sheet, layer, fp);
        return;
    }
    let rects = rects_of(fp);
    let ghost start = sheet.share();
    proof {
        join_nothing(start);
    }
    let mut k: usize = 0;
    while k < fp.silk.len()
        invariant
            k <= fp.silk@.len(),
            sheet.sound(),
            fp.in_range(),
            fp_ok(*fp),
            rects@ == pad_rects(*fp),
            forall|i: int|
                0 <= i < rects@.len() ==> (#[trigger] rects@[i]).within(CLIP_MAX as int),
            sheet.share() == joined(start, items_share(layer, *fp, k as int)),
        decreases fp.silk@.len() - k,
    {
        put_item(sheet, layer, fp, &fp.silk[k], &rects);
        proof {
            join_assoc(
                start,
                items_share(layer, *fp, k as int),
                item_share(layer, *fp, fp.silk@[k as int]),
            );
        }
        k += 1;
    }
}

/// Writes the silkscreen of a side: the board's strokes and texts, then
/// each footprint's silkscreen, or a label above it where it brings none.
/// What a footprint would print on its own pads is cut away.
pub fn write_silk(b: &Board, side: Side) -> (r: String)
    requires
        b.in_range(),
        silk_in_range(*b),
    ensures
        r@ == silk_text(*b, side),
{
    let layer = side.silk_layer();
    let mut sheet = Sheet { uses: Vec::new(), marks: Vec::new() };
    assert(gerber::inks(sheet.marks@) =~= Seq::empty());
    assert(sheet.share() == nothing());
    let mut i: usize = 0;
    while i < b.silk_lines.len()
        invariant
            i <= b.silk_lines@.len(),
            sheet.sound(),
            sheet.share() == lines_share(layer, b.silk_lines@, i as int),
        decreases b.silk_lines@.len() - i,
    {
        let l = b.silk_lines[i];
        proof {
            join_nothing(sheet.share());
        }
        if l.layer == layer {
            let ap = Aperture::Round { d: l.width };
            let mut marks: Vec<Mark> = Vec::new();
            marks.push(Mark::Draw(ap, l.start, l.end));
            assert(gerber::inks(marks@) =~= seq![Ink::Draw(ap, l.start, l.end)]);
            sheet.put(ap, marks);
        }
        i += 1;
    }
    let ghost s1 = sheet.share();
    proof {
        join_nothing(s1);
    }
    let mut i: usize = 0;
    while i < b.silk_texts.len()
        invariant
            i <= b.silk_texts@.len(),
            silk_in_range(*b),
            sheet.sound(),
            sheet.share() == joined(s1, texts_share(layer, b.silk_texts@, i as int)),
        decreases b.silk_texts@.len() - i,
    {
        put_text(&mut sheet, layer, &b.silk_texts[i]);
        proof {
            join_assoc(
                s1,
                texts_share(layer, b.silk_texts@, i as int),
                text_share(layer, b.silk_texts@[i as int]),
            );
        }
        i += 1;
    }
    let ghost s2 = sheet.share();
    proof {
        join_nothing(s2);
    }
    let mut i: usize = 0;
    while i < b.footprints.len()
        invariant
            i <= b.footprints@.len(),
            b.in_range(),
            silk_in_range(*b),
            sheet.sound(),
            sheet.share() == joined(s2, fps_share(layer, b.footprints@, i as int)),
        decreases b.footprints@.len() - i,
    {
        put_footprint(&mut sheet, layer, &b.footprints[i]);
        proof {
            join_assoc(
                s2,
                fps_share(layer, b.footprints@, i as int),
                fp_share(layer, b.footprints@[i as int]),
            );
        }
        i += 1;
    }
    let table = table_for(&sheet.uses);
    proof {
        gerber::used_is_covered(sheet.marks@, sheet.uses@, table.list@);
    }
    write_header(side.silk_label()).concat(write_apertures(&table).as_str()).concat(
        draw_marks(&sheet.marks, &table).as_str(),
    ).concat("M02*\n")
}

proof fn between(a: int, b: int, num: int, den: int)
    requires
        0 <= num <= den,
    ensures
        (if a <= b { a } else { b }) * den <= a * den + (b - a) * num <= (if a <= b {
            b
        } else {
            a
        }) * den,
{
    assert((if a <= b { a } else { b }) * den <= a * den + (b - a) * num <= (if a <= b {
        b
    } else {
        a
    }) * den) by (nonlinear_arith)
        requires
            0 <= num <= den,
    ;
}

/// No point of a polyline that misses the rectangles is in one of them: the
/// point `num / den` of the way along any of its segments is outside.
pub proof fn missing_means_clear(
    poly: Seq<Point>,
    rects: Seq<Rect>,
    k: int,
    j: int,
    num: int,
    den: int,
)
    requires
        misses(poly, rects),
        1 <= k < poly.len(),
        0 <= j < rects.len(),
        0 <= num <= den,
        0 < den,
    ensures
        !silk_clip::inside_at(poly[k - 1], poly[k], rects[j], num, den),
{
    let (a, b, r) = (poly[k - 1], poly[k], rects[j]);
    assert(!box_touches(a, b, r));
    between(a.x.0 as int, b.x.0 as int, num, den);
    between(a.y.0 as int, b.y.0 as int, num, den);
    let lx = if a.x.0 <= b.x.0 { a.x.0 } else { b.x.0 };
    let hx = if a.x.0 <= b.x.0 { b.x.0 } else { a.x.0 };
    let ly = if a.y.0 <= b.y.0 { a.y.0 } else { b.y.0 };
    let hy = if a.y.0 <= b.y.0 { b.y.0 } else { a.y.0 };
    if hx < r.min.x.0 {
        assert(hx * den < r.min.x.0 * den) by (nonlinear_arith)
            requires
                hx < r.min.x.0,
                0 < den,
        ;
    } else if lx > r.max.x.0 {
        assert(lx * den > r.max.x.0 * den) by (nonlinear_arith)
            requires
                lx > r.max.x.0,
                0 < den,
        ;
    } else if hy < r.min.y.0 {
        assert(hy * den < r.min.y.0 * den) by (nonlinear_arith)
            requires
                hy < r.min.y.0,
                0 < den,
        ;
    } else {
        assert(ly * den > r.max.y.0 * den) by (nonlinear_arith)
            requires
                ly > r.max.y.0,
                0 < den,
        ;
    }
}

/// The clip leaves every segment of a polyline that misses the rectangles
/// as it is.
pub proof fn missing_means_left_whole(poly: Seq<Point>, rects: Seq<Rect>, k: int)
    requires
        misses(poly, rects),
        1 <= k < poly.len(),
        poly[k - 1].within(silk_clip::CLIP_MAX as int),
        poly[k].within(silk_clip::CLIP_MAX as int),
        forall|j: int|
            0 <= j < rects.len() ==> (#[trigger] rects[j]).within(silk_clip::CLIP_MAX as int),
    ensures
        silk_clip::clipped(poly[k - 1], poly[k], rects, rects.len() as int) == seq![
            (poly[k - 1], poly[k]),
        ],
{
    let (a, b) = (poly[k - 1], poly[k]);
    assert forall|j: int| 0 <= j < rects.len() implies !silk_clip::bites(
        a,
        b,
        #[trigger] rects[j],
    ) by {
        let r = rects[j];
        if silk_clip::bites(a, b, r) {
            silk_clip::a_bite_is_inside(a, b, r);
            let t = silk_clip::interval(silk_clip::edges(a, b, r), 4).0;
            missing_means_clear(poly, rects, k, j, t.n as int, t.d as int);
        }
    }
    silk_clip::no_bite_leaves_it_whole(a, b, rects, rects.len() as int);
}

/// A polyline misses no rectangles at all, and one without points misses
/// every rectangle; one with a point in or on a rectangle does not miss it.
pub proof fn what_misses(poly: Seq<Point>, rects: Seq<Rect>)
    ensures
        poly.len() == 0 || rects.len() == 0 ==> misses(poly, rects),
        forall|i: int, j: int|
            0 <= i < poly.len() && 0 <= j < rects.len() && (#[trigger] rects[j]).holds(
                (#[trigger] poly[i]).x.0 as int,
                poly[i].y.0 as int,
            ) ==> !misses(poly, rects),
{
}

} // verus!
