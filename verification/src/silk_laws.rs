//! What is drawn on the silkscreen of a side.

use vstd::prelude::*;

use crate::board::{Board, CopperLayer, Footprint, FootprintSilk, SilkAnchor, SilkLayer, SilkLine, SilkText};
use crate::drc_laws;
use crate::geometry::Point;
use crate::gerber::{Aperture, Ink};
use crate::hershey;
use crate::silkscreen;
use crate::units::Length;

verus! {

/// The mark is the line, in its own width.
pub open spec fn is_line_mark(l: SilkLine, x: Ink) -> bool {
    x == Ink::Draw(Aperture::Round { d: l.width }, l.start, l.end)
}

/// The mark is a stroke of the text, drawn with its pen.
pub open spec fn is_text_mark(t: SilkText, x: Ink) -> bool {
    x matches Ink::Poly(ap, points) && ap == (Aperture::Round {
        d: silkscreen::stroke_of(t.width, t.size),
    }) && hershey::lettering(t.text@, t.position, t.size, t.rotation, t.anchor).contains(points)
}

/// The side that a footprint is on.
pub open spec fn is_on_side(fp: Footprint, layer: SilkLayer) -> bool {
    (layer == SilkLayer::Top) == (fp.layer == CopperLayer::Top)
}

/// The mark is part of what a footprint draws: its own silkscreen on that
/// layer, or where it has none its label, on its own side.
pub open spec fn is_footprint_mark(fp: Footprint, layer: SilkLayer, x: Ink) -> bool {
    if fp.silk@.len() == 0 {
        is_on_side(fp, layer) && silkscreen::label_share(layer, fp).marks.contains(x)
    } else {
        exists|k: int|
            0 <= k < fp.silk@.len() && item_layer(#[trigger] fp.silk@[k]) == layer
                && silkscreen::item_share(layer, fp, fp.silk@[k]).marks.contains(x)
    }
}

/// The layer of a silkscreen item.
pub open spec fn item_layer(item: FootprintSilk) -> SilkLayer {
    match item {
        FootprintSilk::Line { layer, .. } => layer,
        FootprintSilk::Text { layer, .. } => layer,
    }
}

proof fn poly_marks(polys: Seq<Seq<Point>>, ap: Aperture, x: Ink)
    ensures
        silkscreen::poly_ink(polys, ap).contains(x) <==> (x matches Ink::Poly(a, points) && a == ap
            && polys.contains(points)),
{
    let f = silkscreen::poly_ink(polys, ap);
    if f.contains(x) {
        let k = choose|k: int| 0 <= k < f.len() && f[k] == x;
        assert(polys[k] == polys[k]);
        assert(polys.contains(polys[k]));
    }
    if let Ink::Poly(a, points) = x {
        if a == ap && polys.contains(points) {
            let k = choose|k: int| 0 <= k < polys.len() && polys[k] == points;
            assert(f[k] == x);
        }
    }
}

proof fn lines_marks(layer: SilkLayer, v: Seq<SilkLine>, n: int, x: Ink)
    requires
        0 <= n <= v.len(),
    ensures
        silkscreen::lines_share(layer, v, n).marks.contains(x) <==> exists|k: int|
            0 <= k < n && (#[trigger] v[k]).layer == layer && is_line_mark(v[k], x),
    decreases n,
{
    if n > 0 {
        lines_marks(layer, v, n - 1, x);
        let last = silkscreen::line_share(layer, v[n - 1]).marks;
        drc_laws::joined_holds(silkscreen::lines_share(layer, v, n - 1).marks, last, x);
        if v[n - 1].layer == layer && is_line_mark(v[n - 1], x) {
            assert(last[0] == x);
        }
        if last.contains(x) {
            assert(v[n - 1].layer == layer && is_line_mark(v[n - 1], x));
        }
    }
}

proof fn texts_marks(layer: SilkLayer, v: Seq<SilkText>, n: int, x: Ink)
    requires
        0 <= n <= v.len(),
    ensures
        silkscreen::texts_share(layer, v, n).marks.contains(x) <==> exists|k: int|
            0 <= k < n && (#[trigger] v[k]).layer == layer && is_text_mark(v[k], x),
    decreases n,
{
    if n > 0 {
        texts_marks(layer, v, n - 1, x);
        let t = v[n - 1];
        let last = silkscreen::text_share(layer, t).marks;
        drc_laws::joined_holds(silkscreen::texts_share(layer, v, n - 1).marks, last, x);
        poly_marks(
            hershey::lettering(t.text@, t.position, t.size, t.rotation, t.anchor),
            Aperture::Round { d: silkscreen::stroke_of(t.width, t.size) },
            x,
        );
        assert(last.contains(x) <==> t.layer == layer && is_text_mark(t, x));
    }
}

proof fn items_marks(layer: SilkLayer, fp: Footprint, n: int, x: Ink)
    requires
        0 <= n <= fp.silk@.len(),
    ensures
        silkscreen::items_share(layer, fp, n).marks.contains(x) <==> exists|k: int|
            0 <= k < n && item_layer(#[trigger] fp.silk@[k]) == layer && silkscreen::item_share(
                layer,
                fp,
                fp.silk@[k],
            ).marks.contains(x),
    decreases n,
{
    if n > 0 {
        items_marks(layer, fp, n - 1, x);
        let last = silkscreen::item_share(layer, fp, fp.silk@[n - 1]).marks;
        drc_laws::joined_holds(silkscreen::items_share(layer, fp, n - 1).marks, last, x);
        if last.contains(x) {
            assert(item_layer(fp.silk@[n - 1]) == layer);
        }
    }
}

proof fn footprints_marks(layer: SilkLayer, v: Seq<Footprint>, n: int, x: Ink)
    requires
        0 <= n <= v.len(),
    ensures
        silkscreen::fps_share(layer, v, n).marks.contains(x) <==> exists|k: int|
            0 <= k < n && is_footprint_mark(#[trigger] v[k], layer, x),
    decreases n,
{
    if n > 0 {
        footprints_marks(layer, v, n - 1, x);
        let fp = v[n - 1];
        let last = silkscreen::fp_share(layer, fp).marks;
        drc_laws::joined_holds(silkscreen::fps_share(layer, v, n - 1).marks, last, x);
        if fp.silk@.len() > 0 {
            items_marks(layer, fp, fp.silk@.len() as int, x);
        }
        assert(last.contains(x) <==> is_footprint_mark(fp, layer, x));
    }
}

/// The silkscreen of a side holds the lines and the texts of the board on
/// that side, and what the footprints draw there, and nothing else.
pub proof fn silkscreen_is_exact(b: Board, layer: SilkLayer, x: Ink)
    ensures
        silkscreen::silk_share(b, layer).marks.contains(x) <==> {
            ||| exists|k: int|
                0 <= k < b.silk_lines@.len() && (#[trigger] b.silk_lines@[k]).layer == layer
                    && is_line_mark(b.silk_lines@[k], x)
            ||| exists|k: int|
                0 <= k < b.silk_texts@.len() && (#[trigger] b.silk_texts@[k]).layer == layer
                    && is_text_mark(b.silk_texts@[k], x)
            ||| exists|k: int|
                0 <= k < b.footprints@.len() && is_footprint_mark(
                    #[trigger] b.footprints@[k],
                    layer,
                    x,
                )
        },
{
    let (nl, nt, nf) = (
        b.silk_lines@.len() as int,
        b.silk_texts@.len() as int,
        b.footprints@.len() as int,
    );
    lines_marks(layer, b.silk_lines@, nl, x);
    texts_marks(layer, b.silk_texts@, nt, x);
    footprints_marks(layer, b.footprints@, nf, x);
    let (l, t, f) = (
        silkscreen::lines_share(layer, b.silk_lines@, nl).marks,
        silkscreen::texts_share(layer, b.silk_texts@, nt).marks,
        silkscreen::fps_share(layer, b.footprints@, nf).marks,
    );
    drc_laws::joined_holds(l + t, f, x);
    drc_laws::joined_holds(l, t, x);
}

/// What a part is called on the board: its library key, or where it has none
/// its reference.
pub open spec fn part_name(fp: Footprint) -> Seq<char> {
    if fp.key@.len() > 0 {
        fp.key@
    } else {
        fp.reference@
    }
}

/// The stroke belongs to the name of the part, 0.9 mm high and centred at
/// the point.
pub open spec fn is_label_stroke(fp: Footprint, at: Point, points: Seq<Point>) -> bool {
    hershey::lettering(
        part_name(fp),
        at,
        Length(900_000),
        fp.rotation,
        SilkAnchor::Middle,
    ).contains(points)
}

/// A footprint without silkscreen of its own is labelled with its library
/// key, or where it has none with its reference; one without pads, or with
/// nothing to write, is not.
pub proof fn labels_name_the_part(layer: SilkLayer, fp: Footprint, x: Ink)
    ensures
        silkscreen::label_share(layer, fp).marks.contains(x) ==> {
            &&& is_on_side(fp, layer)
            &&& silkscreen::body_extent(fp) is Some
            &&& part_name(fp).len() > 0
            &&& x matches Ink::Poly(ap, points) && exists|at: Point| #[trigger]
                is_label_stroke(fp, at, points)
        },
{
    let s = silkscreen::label_share(layer, fp);
    if s.marks.contains(x) {
        let at = fp.rotation.turned(
            fp.position,
            Point {
                x: Length(0),
                y: Length(
                    ((silkscreen::body_extent(fp)->0).1 + silkscreen::LABEL_LIFT) as i64,
                ),
            },
        );
        let polys = hershey::lettering(
            silkscreen::label_text(fp),
            at,
            Length(silkscreen::LABEL_SIZE),
            fp.rotation,
            SilkAnchor::Middle,
        );
        poly_marks(polys, s.uses[0], x);
        if let Ink::Poly(ap, points) = x {
            assert(is_label_stroke(fp, at, points));
        }
    }
}

} // verus!
